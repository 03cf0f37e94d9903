//! The observers of a model: what is told of every step of a simulation.

use crate::containers::{Bag, Mail, SimResult};
use crate::sim_model::SimModel;
use crate::time::Time;
use serde_json::Value;
use vstd::prelude::*;

verus! {

/// Someone who watches one model. The simulator calls these functions as
/// the simulation goes on; each does nothing unless it is written.
///
/// The observers of a model are told in the order in which they were
/// given to the model.
pub trait Observer: Send {
    /// A run begins: the run `iteration` with the initial values of the
    /// way `variant`.
    #[allow(unused_variables)]
    fn init(&mut self, model: &SimModel, variant: u64, iteration: u64) {
    }

    /// The model was initialized with `init_value`; its next event is due
    /// at `t_next`.
    #[allow(unused_variables)]
    fn on_init(&mut self, model: &SimModel, init_time: Time, init_value: &Value, t_next: Time) {
    }

    /// The model emitted `bag`; the next event of its tree is due at
    /// `t_next`.
    #[allow(unused_variables)]
    fn on_outputs(&mut self, model: &SimModel, sim_time: Time, bag: &Bag, t_next: Time) {
    }

    /// An internal transition is about to begin.
    #[allow(unused_variables)]
    fn before_internal_transition(&mut self, model: &SimModel, sim_time: Time) {
    }

    /// An internal transition has ended.
    #[allow(unused_variables)]
    fn after_internal_transition(&mut self, model: &SimModel, sim_time: Time, t_next: Time) {
    }

    /// An external transition is about to begin.
    #[allow(unused_variables)]
    fn before_external_transition(
        &mut self,
        model: &SimModel,
        sim_time: Time,
        x_bag: &Bag,
        elapsed: Time,
    ) {
    }

    /// An external transition has ended.
    #[allow(unused_variables)]
    fn after_external_transition(&mut self, model: &SimModel, sim_time: Time, t_next: Time) {
    }

    /// A transition on the mail of the children is about to begin.
    #[allow(unused_variables)]
    fn before_external_mail_transition(
        &mut self,
        model: &SimModel,
        sim_time: Time,
        mail: &Mail,
        elapsed: Time,
    ) {
    }

    /// A transition on the mail of the children has ended.
    #[allow(unused_variables)]
    fn after_external_mail_transition(&mut self, model: &SimModel, sim_time: Time, t_next: Time) {
    }

    /// A confluent transition is about to begin.
    #[allow(unused_variables)]
    fn before_confluent_transition(&mut self, model: &SimModel, sim_time: Time, x_bag: &Bag) {
    }

    /// A confluent transition has ended.
    #[allow(unused_variables)]
    fn after_confluent_transition(&mut self, model: &SimModel, sim_time: Time, t_next: Time) {
    }

    /// The children of the model have made their transitions.
    #[allow(unused_variables)]
    fn after_submodels_transition(&mut self, model: &SimModel, sim_time: Time, t_next: Time) {
    }

    /// The simulation has ended. An observer may hand back a result.
    #[allow(unused_variables)]
    fn finish(&mut self, model: &SimModel, sim_time: Time) -> (result: Option<SimResult>)
        default_ensures
            result is None,
    {
        None
    }
}

/// An observer, under the name that was given to it.
pub struct NamedObserver {
    pub name: String,
    pub observer: Box<dyn Observer>,
}

impl NamedObserver {
    /// The observer `observer` under the name `name`: what is held is the
    /// observer that was given, as a trait object is held.
    pub fn new(name: String, observer: Box<dyn Observer>) -> (named: NamedObserver)
        ensures
            named.name == name,
            named.observer == ({
                let held: Box<dyn Observer> = observer;
                held
            }),
    {
        let held: Box<dyn Observer> = observer;
        NamedObserver { name, observer: held }
    }
}

/// The names of the observers, in their order.
pub open spec fn observer_names(observers: Seq<NamedObserver>) -> Seq<Seq<char>> {
    Seq::new(observers.len(), |i: int| observers[i].name@)
}

} // verus!
