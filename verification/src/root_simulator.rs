//! The driver of a simulation: it steps the simulator of the model at the
//! root of the tree from one event time to the next, until the time at
//! which the simulation is to end.

use crate::containers::{Bag, SimResults};
use crate::errors::ExdsdevsError;
use crate::model::Model;
use crate::random::{seed_rng, seeded_rng};
use crate::simulator::{answered_in_order, entries_view, entry_of, Shape, Simulator};
use crate::time::Time;
use rand::rngs::StdRng;
use vstd::prelude::*;

verus! {

/// A simulation: the simulator of the model at the root, the random
/// number generator of the run, and the time that the run has reached.
pub struct RootSimulator {
    /// The simulator of the model at the root.
    pub simulator: Simulator,
    /// The random number generator of the run.
    pub rng: StdRng,
    /// The time at which the simulation begins.
    pub init_time: Time,
    /// The time at which the simulation ends.
    pub finish_time: Time,
    /// The time that the simulation has reached: once the simulation is
    /// initialized, the time of the next event.
    pub sim_time: Time,
}

impl RootSimulator {
    /// The name of the model at the root.
    pub open spec fn root_name() -> Seq<char> {
        "root"@
    }

    /// Whether the simulation is in order.
    pub open spec fn wf(&self) -> bool {
        self.simulator.wf()
    }

    /// Whether the driver goes on at the time `sim_time`: the time lies
    /// before the end of the simulation, and it is not the request to stop.
    pub open spec fn goes_on(sim_time: Time, finish_time: Time) -> bool {
        sim_time.before(finish_time) && sim_time != Time::StopSim
    }

    /// A simulation of the model that `model` describes, under the name
    /// `root`, for the run `iteration`. Nothing is initialized yet; the
    /// simulation is set to begin at zero and never to end.
    ///
    /// The error is `ErrorBuildSimulator`, exactly if the description
    /// cannot be built: see `ModelView::valid`.
    pub fn new(model: Model, iteration: u64) -> (built: Result<RootSimulator, ExdsdevsError>)
        ensures
            built is Ok == model@.valid(),
            built matches Ok(root) ==> {
                &&& root.wf()
                &&& root.simulator.idle()
                &&& root.simulator.clock().fresh()
                &&& root.simulator.shape() == Shape::of_model(
                    model@,
                    RootSimulator::root_name(),
                    RootSimulator::root_name(),
                    iteration,
                )
                &&& root.simulator.holds(model)
                &&& root.rng == seeded_rng(0)
                &&& root.init_time == Time::Value(0)
                &&& root.finish_time == Time::Inf
                &&& root.sim_time == Time::Value(0)
            },
            built matches Err(error) ==> error is ErrorBuildSimulator,
    {
        match model.check() {
            Ok(()) => {
                proof {
                    model.valid_is_wf();
                }
                let simulator = Simulator::new("root".to_owned(), model, iteration);
                Ok(
                    RootSimulator {
                        simulator,
                        rng: seed_rng(0),
                        init_time: Time::Value(0),
                        finish_time: Time::Inf,
                        sim_time: Time::Value(0),
                    },
                )
            },
            Err(()) => Err(
                ExdsdevsError::ErrorBuildSimulator(
                    "the model names a child twice, or couples a port that does not exist".to_owned(),
                ),
            ),
        }
    }

    /// Sets the simulation to run from `init_time` to `finish_time` with
    /// the random number generator of the seed `random_seed`. Nothing is
    /// initialized: the tree and the time that the simulation has reached
    /// stay as they are.
    ///
    /// The error is `ErrorSimTime`, exactly if the simulation is to end
    /// before it begins; then nothing has changed.
    pub fn prepare(&mut self, init_time: Time, finish_time: Time, random_seed: u64) -> (done: Result<
        (),
        ExdsdevsError,
    >)
        ensures
            match done {
                Ok(()) => {
                    &&& !finish_time.before(init_time)
                    &&& final(self).init_time == init_time
                    &&& final(self).finish_time == finish_time
                    &&& final(self).rng == seeded_rng(random_seed)
                    &&& final(self).simulator == old(self).simulator
                    &&& final(self).sim_time == old(self).sim_time
                },
                Err(error) => finish_time.before(init_time) && error is ErrorSimTime && *final(self)
                    == *old(self),
            },
    {
        if finish_time < init_time {
            return Err(
                ExdsdevsError::ErrorSimTime("the simulation is to end before it begins".to_owned()),
            );
        }
        self.init_time = init_time;
        self.finish_time = finish_time;
        self.rng = seed_rng(random_seed);
        Ok(())
    }

    /// Initializes the simulation to run from `init_time` to
    /// `finish_time`: it is prepared with the random number generator of
    /// the seed `random_seed`, see `prepare`; then the tree is initialized
    /// at `init_time` with that generator, and the simulation has reached
    /// the time of its first event.
    ///
    /// The error is `ErrorSimTime`, exactly if the simulation is to end
    /// before it begins; then nothing is initialized, and nothing has
    /// changed. It is `ErrorTimeOverflow`, where the time of a first event
    /// cannot be held.
    pub fn init(&mut self, init_time: Time, finish_time: Time, random_seed: u64) -> (done: Result<
        (),
        ExdsdevsError,
    >)
        requires
            old(self).wf(),
        ensures
            final(self).wf(),
            final(self).simulator.shape() == old(self).simulator.shape(),
            old(self).simulator.idle() ==> final(self).simulator.idle(),
            finish_time.before(init_time) ==> (done matches Err(error) && error is ErrorSimTime
                && *final(self) == *old(self)),
            !finish_time.before(init_time)
                ==> final(self).init_time == init_time && final(self).finish_time == finish_time,
            done is Ok ==> {
                &&& !finish_time.before(init_time)
                &&& final(self).simulator.clock().all_at(init_time)
                &&& final(self).simulator.clock().settled()
                &&& !(init_time is StopSim) ==> final(self).simulator.clock().unstopped()
                &&& final(self).sim_time == final(self).simulator.t_next
            },
            done matches Err(error) ==> if finish_time.before(init_time) {
                error is ErrorSimTime
            } else {
                error is ErrorTimeOverflow
            },
            !finish_time.before(init_time) && !(init_time is Value) ==> done is Ok,
    {
        match self.prepare(init_time, finish_time, random_seed) {
            Ok(()) => {},
            Err(error) => {
                return Err(error);
            },
        }
        match self.simulator.init(init_time, &mut self.rng) {
            Ok(()) => {
                self.sim_time = self.simulator.t_next();
                Ok(())
            },
            Err(error) => Err(error),
        }
    }

    /// Gathers the output of the tree at the time that the simulation has
    /// reached.
    fn collect_outputs(&mut self) -> (done: Result<(), ExdsdevsError>)
        requires
            old(self).wf(),
        ensures
            final(self).wf(),
            final(self).simulator.shape() == old(self).simulator.shape(),
            final(self).simulator.clock() == old(self).simulator.clock(),
            final(self).simulator.t_next == old(self).simulator.t_next,
            final(self).init_time == old(self).init_time,
            final(self).finish_time == old(self).finish_time,
            final(self).sim_time == old(self).sim_time,
            done is Err == !old(self).simulator.due(old(self).sim_time),
            done matches Err(error) ==> error is ErrorSimTime && *final(self) == *old(self),
            old(self).simulator.idle() ==> final(self).simulator.gathered(),
    {
        match self.simulator.collect_outputs(self.sim_time) {
            Ok(_) => Ok(()),
            Err(error) => Err(error),
        }
    }

    /// Tells the model at the root what its children have emitted.
    fn process_y_messages(&mut self) -> (done: Result<(), ExdsdevsError>)
        requires
            old(self).wf(),
        ensures
            final(self).wf(),
            final(self).simulator.shape() == old(self).simulator.shape(),
            final(self).simulator.sub_simulators == old(self).simulator.sub_simulators,
            final(self).simulator.mail == old(self).simulator.mail,
            final(self).simulator.imminent == old(self).simulator.imminent,
            final(self).init_time == old(self).init_time,
            final(self).finish_time == old(self).finish_time,
            final(self).sim_time == old(self).sim_time,
            done is Ok ==> final(self).simulator.t_last == old(self).sim_time,
            done is Ok && !(old(self).sim_time is StopSim)
                ==> !(final(self).simulator.t_next_self is StopSim),
            !old(self).sim_time.difference_fits(old(self).simulator.t_last) ==> done is Err,
            done matches Err(error) ==> error is ErrorTimeOverflow,
    {
        self.simulator.process_y_messages(self.sim_time, &mut self.rng)
    }

    /// Lets the tree make its transitions, with no input from outside.
    fn process_x_messages(&mut self) -> (done: Result<(), ExdsdevsError>)
        requires
            old(self).wf(),
        ensures
            final(self).wf(),
            final(self).simulator.shape() == old(self).simulator.shape(),
            final(self).init_time == old(self).init_time,
            final(self).finish_time == old(self).finish_time,
            final(self).sim_time == old(self).sim_time,
            done is Ok ==> {
                &&& old(self).simulator.accepts(old(self).sim_time, Seq::empty())
                &&& final(self).simulator.t_last == old(self).sim_time
                &&& old(self).simulator.clock().settled_children()
                    ==> final(self).simulator.clock().settled()
                &&& old(self).simulator.clock().all_behind(old(self).sim_time)
                    ==> final(self).simulator.clock().all_behind(old(self).sim_time)
                &&& old(self).simulator.clock().unstopped() && !(old(self).sim_time is StopSim)
                    ==> final(self).simulator.clock().unstopped()
                &&& old(self).simulator.gathered() ==> final(self).simulator.idle()
            },
            done matches Err(error) ==> error is ErrorSimTime || error is ErrorConfluent
                || error is ErrorTimeOverflow,
    {
        let x_bag: Bag = Vec::new();
        proof {
            assert(crate::containers::bag_view(x_bag@) =~= Seq::empty());
        }
        self.simulator.process_x_messages(self.sim_time, x_bag, &mut self.rng)
    }

    /// Ends the simulation at `sim_time`.
    fn finish(&mut self, sim_time: Time) -> (results: SimResults)
        requires
            old(self).wf(),
        ensures
            final(self).wf(),
            final(self).simulator.shape() == old(self).simulator.shape(),
            final(self).simulator.clock() == old(self).simulator.clock(),
            final(self).simulator.idle() == old(self).simulator.idle(),
            final(self).init_time == old(self).init_time,
            final(self).finish_time == old(self).finish_time,
            final(self).sim_time == old(self).sim_time,
            forall|k: int|
                0 <= k < results@.len() ==> entry_of(old(self).simulator.shape(), #[trigger] results@[k]),
            answered_in_order(old(self).simulator.shape().models(), entries_view(results@)),
    {
        self.simulator.finish(sim_time)
    }

    /// One event time: the output of every model that is due is gathered,
    /// the model at the root is told of it, and every model that is due or
    /// that input reaches makes its transition. The time that the
    /// simulation has reached stays as it is. What was gathered is used
    /// up: a tree that held no mail before holds none afterwards.
    ///
    /// The error is `ErrorSimTime`, where no event is due at the time that
    /// the simulation has reached, and then nothing has changed, or where
    /// the tree has lost its step with that time; `ErrorTimeOverflow`,
    /// where a time cannot be held, as is the time since the last
    /// transition of the model at the root if it is too long; and
    /// `ErrorConfluent`, where a behaviour has no confluent transition.
    pub fn step(&mut self) -> (done: Result<(), ExdsdevsError>)
        requires
            old(self).wf(),
        ensures
            final(self).wf(),
            final(self).simulator.shape() == old(self).simulator.shape(),
            final(self).init_time == old(self).init_time,
            final(self).finish_time == old(self).finish_time,
            final(self).sim_time == old(self).sim_time,
            !old(self).simulator.due(old(self).sim_time) ==> (done matches Err(error)
                && error is ErrorSimTime && *final(self) == *old(self)),
            old(self).simulator.due(old(self).sim_time) && !old(self).sim_time.difference_fits(
                old(self).simulator.t_last,
            ) ==> (done matches Err(error) && error is ErrorTimeOverflow),
            done is Ok ==> {
                &&& final(self).simulator.t_last == old(self).sim_time
                &&& old(self).simulator.clock().settled_children()
                    ==> final(self).simulator.clock().settled()
                &&& old(self).simulator.clock().all_behind(old(self).sim_time)
                    ==> final(self).simulator.clock().all_behind(old(self).sim_time)
                &&& old(self).simulator.clock().unstopped() && !(old(self).sim_time is StopSim)
                    ==> final(self).simulator.clock().unstopped()
                &&& old(self).simulator.idle() ==> final(self).simulator.idle()
            },
            done matches Err(error) ==> error is ErrorSimTime || error is ErrorConfluent
                || error is ErrorTimeOverflow,
    {
        match self.collect_outputs() {
            Ok(()) => {},
            Err(error) => {
                return Err(error);
            },
        }
        let ghost gathered = self.simulator;
        match self.process_y_messages() {
            Ok(()) => {},
            Err(error) => {
                return Err(error);
            },
        }
        let ghost told = self.simulator;
        proof {
            told.clock_of_children(gathered);
            gathered.unfold();
            old(self).simulator.unfold();
            assert(gathered.clock().children == old(self).simulator.clock().children);
            told.unfold();
            crate::time::order_is_reflexive(self.sim_time);
            told.unfold_gathered();
            gathered.unfold_gathered();
        }
        self.process_x_messages()
    }

    /// Runs the simulation: event time after event time, until the time of
    /// the next event does not lie before the end of the simulation, or is
    /// the request to stop. Then the simulation is ended at that time, and
    /// the results of the observers are handed back: those of a model
    /// behind those of the models below it, and no model twice.
    ///
    /// The time that the simulation has reached never falls, unless the
    /// run is ended by the request to stop, which lies before every other
    /// time. In a tree whose times agree, and in which no model asks the
    /// simulation to stop, none will: there the time never falls.
    ///
    /// The driver gives up, with the error `ErrorSimTime`, after as many
    /// event times as a `u64` counts. For the other errors see `step`.
    pub fn run(&mut self) -> (results: Result<SimResults, ExdsdevsError>)
        requires
            old(self).wf(),
        ensures
            final(self).wf(),
            final(self).simulator.shape() == old(self).simulator.shape(),
            final(self).init_time == old(self).init_time,
            final(self).finish_time == old(self).finish_time,
            !RootSimulator::goes_on(old(self).sim_time, old(self).finish_time) ==> results is Ok
                && final(self).sim_time == old(self).sim_time && final(self).simulator.clock()
                == old(self).simulator.clock(),
            results matches Ok(list) ==> {
                &&& !RootSimulator::goes_on(final(self).sim_time, final(self).finish_time)
                &&& RootSimulator::goes_on(old(self).sim_time, old(self).finish_time)
                    ==> final(self).sim_time == final(self).simulator.t_next
                &&& old(self).simulator.clock().settled()
                    ==> final(self).simulator.clock().settled()
                &&& old(self).simulator.clock().unstopped()
                    ==> final(self).simulator.clock().unstopped()
                &&& old(self).simulator.clock().settled() && old(self).simulator.clock().unstopped()
                    ==> old(self).sim_time.at_most(final(self).sim_time)
                &&& old(self).sim_time.at_most(final(self).sim_time)
                    || final(self).sim_time is StopSim
                &&& old(self).simulator.idle() ==> final(self).simulator.idle()
                &&& forall|k: int|
                    0 <= k < list@.len() ==> entry_of(old(self).simulator.shape(), #[trigger] list@[k])
                &&& answered_in_order(old(self).simulator.shape().models(), entries_view(list@))
            },
            results matches Err(error) ==> error is ErrorSimTime || error is ErrorConfluent
                || error is ErrorTimeOverflow,
    {
        let mut ticks_left: u64 = u64::MAX;
        while self.sim_time < self.finish_time && self.sim_time != Time::StopSim
            invariant
                self.wf(),
                self.simulator.shape() == old(self).simulator.shape(),
                self.init_time == old(self).init_time,
                self.finish_time == old(self).finish_time,
                ticks_left == u64::MAX ==> *self == *old(self),
                ticks_left < u64::MAX ==> self.sim_time == self.simulator.t_next,
                ticks_left < u64::MAX ==> RootSimulator::goes_on(
                    old(self).sim_time,
                    old(self).finish_time,
                ),
                old(self).simulator.clock().settled() ==> self.simulator.clock().settled(),
                old(self).simulator.clock().unstopped() ==> self.simulator.clock().unstopped(),
                old(self).simulator.idle() ==> self.simulator.idle(),
            decreases ticks_left,
        {
            if ticks_left == 0 {
                return Err(
                    ExdsdevsError::ErrorSimTime(
                        "the simulation has not ended after as many event times as can be counted".to_owned(),
                    ),
                );
            }
            ticks_left -= 1;
            proof {
                self.simulator.clock().settled_below();
            }
            match self.step() {
                Ok(()) => {},
                Err(error) => {
                    return Err(error);
                },
            }
            self.sim_time = self.simulator.t_next();
        }
        proof {
            if self.simulator.clock().settled() && self.simulator.clock().unstopped() {
                self.simulator.clock().an_unstopped_tree_goes_on();
                self.simulator.unfold();
            }
            crate::time::order_is_reflexive(self.sim_time);
        }
        let sim_time = self.sim_time;
        Ok(self.finish(sim_time))
    }
}

} // verus!
