//! A model as a simulator holds it: its full name, its behaviour, and, if
//! it has children, the couplings between their ports and its own.

use crate::containers::{bag_view, mail_view, Bag, Mail, Outputs};
use crate::couplings::{couplings_view, unique_couplings, without_repeats, Coupling};
use crate::dynamic::{DefaultDynamic, Dynamic};
use crate::model::Model;
use crate::errors::ExdsdevsError;
use crate::router::{outbound, outbound_bag};
use crate::time::Time;
use rand::rngs::StdRng;
use serde_json::Value;
use vstd::prelude::*;

verus! {

/// The couplings of a coupled model. None of the three lists holds a
/// coupling twice.
pub struct Structure {
    /// From a port of the coupled model to a port of a child.
    pub external_input_couplings: Vec<Coupling>,
    /// From a port of a child to a port of a child.
    pub internal_couplings: Vec<Coupling>,
    /// From a port of a child to a port of the coupled model.
    pub external_output_couplings: Vec<Coupling>,
}

/// One model of a simulation.
pub struct SimModel {
    /// The path from the root to the model, its parts joined by `/`.
    pub full_name: String,
    /// The behaviour.
    pub dynamic: Box<dyn Dynamic>,
    /// The couplings, if the model has children.
    pub structure: Option<Structure>,
}

impl SimModel {
    /// The model that `model` describes, under the name `full_name`, and
    /// what is left of the description. The model holds the behaviour of
    /// the description. It has a structure if the description has
    /// children: the three lists of couplings, each without what came a
    /// second time. What is left holds the children, the observers, the
    /// ports and the initial values of the description, a behaviour that
    /// waits forever, and no couplings.
    pub fn new(full_name: String, model: Model) -> (built: (SimModel, Model))
        ensures
            built.0.full_name == full_name,
            built.0.dynamic == model.dynamic,
            built.0.structure is Some == (model.submodels@.len() > 0),
            built.0.structure is Some ==> {
                &&& couplings_view(built.0.structure->0.external_input_couplings@)
                    == without_repeats(couplings_view(model.input_couplings@))
                &&& couplings_view(built.0.structure->0.internal_couplings@) == without_repeats(
                    couplings_view(model.internal_couplings@),
                )
                &&& couplings_view(built.0.structure->0.external_output_couplings@)
                    == without_repeats(couplings_view(model.output_couplings@))
            },
            built.1.submodels == model.submodels,
            built.1.observers == model.observers,
            built.1.input_ports == model.input_ports,
            built.1.output_ports == model.output_ports,
            built.1.default_init == model.default_init,
            built.1.init_variants == model.init_variants,
            built.1.input_couplings@.len() == 0,
            built.1.internal_couplings@.len() == 0,
            built.1.output_couplings@.len() == 0,
    {
        let mut rest = model;
        let mut input_couplings: Vec<Coupling> = Vec::new();
        let mut internal_couplings: Vec<Coupling> = Vec::new();
        let mut output_couplings: Vec<Coupling> = Vec::new();
        std::mem::swap(&mut input_couplings, &mut rest.input_couplings);
        std::mem::swap(&mut internal_couplings, &mut rest.internal_couplings);
        std::mem::swap(&mut output_couplings, &mut rest.output_couplings);
        let structure = if rest.submodels.len() > 0 {
            Some(
                Structure {
                    external_input_couplings: unique_couplings(input_couplings),
                    internal_couplings: unique_couplings(internal_couplings),
                    external_output_couplings: unique_couplings(output_couplings),
                },
            )
        } else {
            None
        };
        let mut sim_model = SimModel { full_name, dynamic: Box::new(DefaultDynamic), structure };
        std::mem::swap(&mut sim_model.dynamic, &mut rest.dynamic);
        (sim_model, rest)
    }

    /// The full name.
    pub fn full_name(&self) -> (name: &str)
        ensures
            name@ == self.full_name@,
    {
        self.full_name.as_str()
    }

    /// Whether the model has children.
    pub fn has_submodels(&self) -> (coupled: bool)
        ensures
            coupled == self.structure is Some,
    {
        self.structure.is_some()
    }

    /// The external input couplings, as contracts speak of them; none for
    /// a model without children.
    pub open spec fn eic(&self) -> Seq<crate::couplings::CouplingView> {
        match self.structure {
            Some(structure) => couplings_view(structure.external_input_couplings@),
            None => Seq::empty(),
        }
    }

    /// The internal couplings, as contracts speak of them.
    pub open spec fn ic(&self) -> Seq<crate::couplings::CouplingView> {
        match self.structure {
            Some(structure) => couplings_view(structure.internal_couplings@),
            None => Seq::empty(),
        }
    }

    /// The external output couplings, as contracts speak of them.
    pub open spec fn eoc(&self) -> Seq<crate::couplings::CouplingView> {
        match self.structure {
            Some(structure) => couplings_view(structure.external_output_couplings@),
            None => Seq::empty(),
        }
    }

    /// The external input couplings, if the model has children.
    pub fn external_input_couplings(&self) -> (couplings: Option<&Vec<Coupling>>)
        ensures
            couplings is Some == self.structure is Some,
            couplings matches Some(list) ==> *list == self.structure->0.external_input_couplings,
    {
        match &self.structure {
            Some(structure) => Some(&structure.external_input_couplings),
            None => None,
        }
    }

    /// The internal couplings, if the model has children.
    pub fn internal_couplings(&self) -> (couplings: Option<&Vec<Coupling>>)
        ensures
            couplings is Some == self.structure is Some,
            couplings matches Some(list) ==> *list == self.structure->0.internal_couplings,
    {
        match &self.structure {
            Some(structure) => Some(&structure.internal_couplings),
            None => None,
        }
    }

    /// The external output couplings, if the model has children.
    pub fn external_output_couplings(&self) -> (couplings: Option<&Vec<Coupling>>)
        ensures
            couplings is Some == self.structure is Some,
            couplings matches Some(list) ==> *list == self.structure->0.external_output_couplings,
    {
        match &self.structure {
            Some(structure) => Some(&structure.external_output_couplings),
            None => None,
        }
    }

    /// The output of the model, given the output `mail` of its children:
    /// what the external output couplings carry to the model's own ports.
    /// A model without children has no such output.
    pub fn get_y_bag_from_mail(&self, mail: &Mail) -> (bag: Bag)
        ensures
            bag_view(bag@) == outbound(mail_view(mail@), self.eoc()),
    {
        match &self.structure {
            Some(structure) => outbound_bag(mail, &structure.external_output_couplings),
            None => {
                let bag: Bag = Vec::new();
                proof {
                    crate::router::nothing_travels_without_edges(mail_view(mail@), None);
                    assert(bag_view(bag@) =~= Seq::empty());
                }
                bag
            },
        }
    }

    /// Initializes the behaviour.
    pub fn init(&mut self, init_time: Time, init_value: &Value, rng: &mut StdRng)
        ensures
            final(self).full_name == old(self).full_name,
            final(self).structure == old(self).structure,
    {
        self.dynamic.init(init_time, init_value, rng);
    }

    /// The time from the last transition to the next event of the model
    /// itself, as the behaviour gives it.
    pub fn time_advance(&self, rng: &mut StdRng) -> Time {
        self.dynamic.time_advance(rng)
    }

    /// The state, as the behaviour gives it.
    pub fn state(&self) -> Value {
        self.dynamic.state()
    }

    /// What the behaviour emits at `sim_time`.
    pub fn output(&self, sim_time: Time) -> Bag {
        let mut outputs = Outputs::new();
        self.dynamic.output(sim_time, &mut outputs);
        outputs.bag
    }

    /// The internal transition of the behaviour.
    pub fn internal_transition(&mut self, sim_time: Time, rng: &mut StdRng)
        ensures
            final(self).full_name == old(self).full_name,
            final(self).structure == old(self).structure,
    {
        self.dynamic.internal_transition(sim_time, rng);
    }

    /// The external transition of the behaviour.
    pub fn external_transition(&mut self, sim_time: Time, elapsed: Time, x_bag: &Bag, rng: &mut StdRng)
        ensures
            final(self).full_name == old(self).full_name,
            final(self).structure == old(self).structure,
    {
        self.dynamic.external_transition(sim_time, elapsed, x_bag, rng)
    }

    /// The transition of the behaviour on the mail of the children.
    pub fn external_mail_transition(
        &mut self,
        sim_time: Time,
        elapsed: Time,
        mail: &Mail,
        rng: &mut StdRng,
    )
        ensures
            final(self).full_name == old(self).full_name,
            final(self).structure == old(self).structure,
    {
        self.dynamic.external_mail_transition(sim_time, elapsed, mail, rng)
    }

    /// The confluent transition of the behaviour, or its refusal.
    pub fn confluent_transition(&mut self, sim_time: Time, x_bag: &Bag, rng: &mut StdRng) -> (done:
        Result<(), ExdsdevsError>)
        ensures
            final(self).full_name == old(self).full_name,
            final(self).structure == old(self).structure,
    {
        self.dynamic.confluent_transition(sim_time, x_bag, rng)
    }

    /// Tells the behaviour that the simulation has ended.
    pub fn finish(&self, sim_time: Time) {
        self.dynamic.finish(sim_time);
    }
}

} // verus!
