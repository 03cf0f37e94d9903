//! The behaviour of a model.

use crate::containers::{Bag, Mail, Outputs};
use crate::errors::ExdsdevsError;
use crate::json::{json_null, optional_integer_value};
use crate::time::Time;
use rand::rngs::StdRng;
use serde_json::Value;
use vstd::prelude::*;

verus! {

/// What a model does: how its state changes with time and with input, and
/// what it emits. The simulator calls these functions; only `time_advance`
/// and `state` must be written for a behaviour, the others do nothing
/// unless they are.
///
/// Every function that may change the state, and `time_advance`, is handed
/// the random number generator of the run.
pub trait Dynamic: Send {
    /// Called once, before any transition, with the time at which the
    /// simulation begins and the initial value chosen for the model.
    #[allow(unused_variables)]
    fn init(&mut self, init_time: Time, init_value: &Value, rng: &mut StdRng) {
    }

    /// The model's own event has come, and no input with it.
    #[allow(unused_variables)]
    fn internal_transition(&mut self, sim_time: Time, rng: &mut StdRng) {
    }

    /// Input has come before the model's own event. `elapsed` is the time
    /// since the last transition.
    #[allow(unused_variables)]
    fn external_transition(&mut self, sim_time: Time, elapsed: Time, x_bag: &Bag, rng: &mut StdRng) {
    }

    /// The children of the model have emitted `mail`. Only a model with
    /// children is asked.
    #[allow(unused_variables)]
    fn external_mail_transition(
        &mut self,
        sim_time: Time,
        elapsed: Time,
        mail: &Mail,
        rng: &mut StdRng,
    ) {
    }

    /// Input has come at the very time of the model's own event. A
    /// behaviour that can meet this says here what it does, for instance
    /// its internal transition and then its external one with no time
    /// elapsed, or the two the other way round. Unless it is written, the
    /// answer is the error `ErrorConfluent`, which ends the run.
    #[allow(unused_variables)]
    fn confluent_transition(&mut self, sim_time: Time, x_bag: &Bag, rng: &mut StdRng) -> (done:
        Result<(), ExdsdevsError>)
        default_ensures
            done matches Err(error) && error is ErrorConfluent && error.message()
                == "the behaviour has no confluent transition"@,
            *final(rng) == *old(rng),
    {
        Err(
            ExdsdevsError::ErrorConfluent(
                "the behaviour has no confluent transition".to_owned(),
            ),
        )
    }

    /// What the model emits at its own event, which has come at `sim_time`.
    #[allow(unused_variables)]
    fn output(&self, sim_time: Time, outputs: &mut Outputs) {
    }

    /// The time from the last transition to the model's own next event. It
    /// must not be negative; `Inf` says that no event is to come.
    fn time_advance(&self, rng: &mut StdRng) -> Time;

    /// The state, for the observers.
    fn state(&self) -> Value;

    /// Called once, when the simulation has ended.
    #[allow(unused_variables)]
    fn finish(&self, sim_time: Time) {
    }
}

/// The behaviour of a model that has none of its own: it waits forever.
#[derive(Clone)]
pub struct DefaultDynamic;

impl Dynamic for DefaultDynamic {
    fn time_advance(&self, rng: &mut StdRng) -> (advance: Time)
        ensures
            advance == Time::Inf,
            *final(rng) == *old(rng),
    {
        Time::Inf
    }

    fn state(&self) -> (state: Value)
        ensures
            state == json_null(),
    {
        optional_integer_value(None)
    }
}

} // verus!
