//! An experiment: one model, simulated once for every way to choose its
//! initial values and for every iteration, each run on its own.

use crate::containers::SimResults;
use crate::errors::ExdsdevsError;
use crate::model::Model;
use crate::root_simulator::RootSimulator;
use crate::simulator::{answered_in_order, entries_view, entry_of, Shape};
use crate::time::Time;
use crate::variants::{breadth_first, ways, wheel_sizes, InitValues, InitVariants};
use serde_json::Value;
use vstd::prelude::*;

verus! {

/// Where the results of the runs of an experiment go.
pub trait ResultsAnalyzer {
    /// Takes the result of the run `iteration` with the initial values of
    /// the way `variant`.
    fn add_result(&mut self, variant: u64, iteration: u64, result: SimResults);

    /// What the results that were taken amount to.
    fn analyze(&mut self) -> Value;
}

/// Where the model of an experiment comes from. Every run simulates a
/// description of its own, so that no run sees what another has left
/// behind.
pub trait ModelSource {
    /// A description of the model, with behaviours and observers in their
    /// first state.
    fn model(&self) -> Model;
}

/// An experiment.
pub struct Experiment<S: ModelSource, T: ResultsAnalyzer> {
    /// Where the model comes from.
    pub model: S,
    /// The time at which every run begins.
    pub init_time: Time,
    /// The time at which every run ends.
    pub finish_time: Time,
    /// The number of runs for every way to choose the initial values.
    pub iterations: u64,
    /// The seed of the first iteration. The seed of an iteration is this
    /// seed and the number of the iteration.
    pub random_seed: u64,
    /// Where the results go.
    pub results_analyzer: T,
}

/// What one run needs.
pub struct ThreadData {
    /// The description to simulate.
    pub model: Model,
    /// The number of the way in which the initial values are chosen.
    pub variant: u64,
    /// The initial values.
    pub init_values: InitValues,
    /// The time at which the run begins.
    pub init_time: Time,
    /// The time at which the run ends.
    pub finish_time: Time,
    /// The seed of the run.
    pub random_seed: u64,
    /// The number of the iteration.
    pub iteration: u64,
}

/// A run that has ended with an error.
pub struct Failure {
    pub variant: u64,
    pub iteration: u64,
    pub error: ExdsdevsError,
}

impl Failure {
    /// Whether the run was made before the run of `other`: it is a run of
    /// an earlier way, or an earlier iteration of the same way.
    pub open spec fn runs_before(self, other: Failure) -> bool {
        self.variant < other.variant || (self.variant == other.variant && self.iteration
            < other.iteration)
    }
}

/// What an experiment hands back: what the results amount to, the runs
/// that have failed, in the order in which they were run, and the number
/// of runs that were made.
pub struct Report {
    pub analysis: Value,
    pub failures: Vec<Failure>,
    pub runs: u128,
}

/// Where a run that has ended goes: its result is for the analyzer, and
/// its error is the failure of the run `iteration` of the way `variant`.
pub fn outcome_of(variant: u64, iteration: u64, outcome: Result<SimResults, ExdsdevsError>) -> (sorted:
    Result<SimResults, Failure>)
    ensures
        match outcome {
            Ok(result) => sorted == Ok::<SimResults, Failure>(result),
            Err(error) => sorted == Err::<SimResults, Failure>(
                Failure { variant, iteration, error },
            ),
        },
{
    match outcome {
        Ok(result) => Ok(result),
        Err(error) => Err(Failure { variant, iteration, error }),
    }
}

/// What one run needs, put together. The function is there so that a
/// description, which holds behaviours, is only ever built into a value
/// here.
fn thread_data(
    model: Model,
    variant: u64,
    init_values: InitValues,
    init_time: Time,
    finish_time: Time,
    random_seed: u64,
    iteration: u64,
) -> (data: ThreadData)
    ensures
        data.model == model,
        data.variant == variant,
        data.init_values == init_values,
        data.init_time == init_time,
        data.finish_time == finish_time,
        data.random_seed == random_seed,
        data.iteration == iteration,
{
    ThreadData { model, variant, init_values, init_time, finish_time, random_seed, iteration }
}

/// The number of workers of an experiment on several threads: as many as
/// are asked for, but no more than there are iterations.
pub fn pool_size(iterations: u64, num_threads: u64) -> (size: u64)
    ensures
        size == if iterations < num_threads {
            iterations
        } else {
            num_threads
        },
{
    if iterations < num_threads {
        iterations
    } else {
        num_threads
    }
}

/// The iteration that a worker which has ended a run is handed next, if
/// there is one left: `next_iteration`, as long as it is one of the
/// `iterations`.
pub fn next_to_send(next_iteration: u64, iterations: u64) -> (send: Option<u64>)
    ensures
        send == if next_iteration < iterations {
            Some(next_iteration)
        } else {
            None::<u64>
        },
{
    if next_iteration < iterations {
        Some(next_iteration)
    } else {
        None
    }
}

/// How far one way to choose the initial values has come on several
/// workers: how many iterations it has, how many of them have been handed
/// out, and how many of those have come back. The iterations are handed
/// out in the order of their numbers.
#[derive(Clone, Copy, Debug)]
pub struct Dispatch {
    /// The iterations of the way.
    pub iterations: u64,
    /// How many iterations have been handed out: the number of the
    /// iteration that is handed out next.
    pub sent: u64,
    /// How many of the iterations that were handed out have come back.
    pub back: u64,
}

impl Dispatch {
    /// Whether the state is in order: no more has come back than was
    /// handed out, and no more was handed out than there is.
    pub open spec fn wf(self) -> bool {
        self.back <= self.sent <= self.iterations
    }

    /// How many runs are under way: handed out and not back yet.
    pub open spec fn pending(self) -> int {
        if self.back >= self.sent {
            0
        } else {
            self.sent - self.back
        }
    }

    /// Whether the way has ended: every iteration has come back.
    pub open spec fn all_back(self) -> bool {
        self.back == self.iterations
    }

    /// A way of `iterations` iterations, of which none is handed out.
    pub fn new(iterations: u64) -> (state: Dispatch)
        ensures
            state == (Dispatch { iterations, sent: 0, back: 0 }),
            state.wf(),
    {
        Dispatch { iterations, sent: 0, back: 0 }
    }

    /// Hands out the next iteration, if there is one left: its number is
    /// the number of iterations that were handed out before. Where none
    /// is left, nothing changes.
    pub fn send(self) -> (next: (Dispatch, Option<u64>))
        ensures
            self.wf() ==> next.0.wf(),
            next == if self.sent < self.iterations {
                (Dispatch { sent: (self.sent + 1) as u64, ..self }, Some(self.sent))
            } else {
                (self, None::<u64>)
            },
    {
        match next_to_send(self.sent, self.iterations) {
            Some(iteration) => (
                Dispatch { iterations: self.iterations, sent: self.sent + 1, back: self.back },
                Some(iteration),
            ),
            None => (self, None),
        }
    }

    /// Notes that a run has come back, and hands the worker that made it
    /// the next iteration, if there is one left: see `send`. Where no run
    /// is under way, nothing changes and nothing is handed out.
    ///
    /// Where no run is under way afterwards, the way has ended: every
    /// iteration has come back.
    pub fn returned(self) -> (next: (Dispatch, Option<u64>))
        ensures
            self.wf() ==> next.0.wf(),
            next == if self.pending() == 0 {
                (self, None::<u64>)
            } else if self.sent < self.iterations {
                (
                    Dispatch { sent: (self.sent + 1) as u64, back: (self.back + 1) as u64, ..self },
                    Some(self.sent),
                )
            } else {
                (Dispatch { back: (self.back + 1) as u64, ..self }, None::<u64>)
            },
            self.wf() && self.pending() > 0 && next.0.pending() == 0 ==> next.0.all_back(),
    {
        if self.back >= self.sent {
            return (self, None);
        }
        let noted = Dispatch { iterations: self.iterations, sent: self.sent, back: self.back + 1 };
        noted.send()
    }

    /// How many runs are under way.
    pub fn under_way(self) -> (runs: u64)
        ensures
            runs == self.pending(),
    {
        if self.back >= self.sent {
            0
        } else {
            self.sent - self.back
        }
    }

    /// Whether the way has ended.
    pub fn ended(self) -> (ended: bool)
        ensures
            ended == self.all_back(),
    {
        self.back == self.iterations
    }
}

/// One run: a simulator is built from the description, every model is
/// given its initial value, the simulation is initialized with the seed of
/// the run, and it runs to its end. Every result is the answer of
/// observers of one model of the tree.
///
/// The error is `ErrorBuildSimulator`, exactly if the description cannot
/// be built; `ErrorSimTime`, if the run is to end before it begins, or
/// loses its step; `ErrorTimeOverflow`, if a time cannot be held;
/// `ErrorConfluent`, if a behaviour has no confluent transition where it
/// needs one.
pub fn simulation(data: ThreadData) -> (results: Result<SimResults, ExdsdevsError>)
    ensures
        !data.model@.valid() ==> (results matches Err(error) && error is ErrorBuildSimulator),
        data.model@.valid() ==> !(results matches Err(error) && error is ErrorBuildSimulator),
        data.model@.valid() && data.finish_time.before(data.init_time) ==> (results matches Err(
            error,
        ) && error is ErrorSimTime),
        results matches Ok(list) ==> {
            let shape = Shape::of_model(
                data.model@,
                RootSimulator::root_name(),
                RootSimulator::root_name(),
                data.iteration,
            ).with_init_values(data.variant, crate::variants::init_values_view(data.init_values@));
            &&& data.model@.valid()
            &&& !data.finish_time.before(data.init_time)
            &&& forall|k: int| 0 <= k < list@.len() ==> entry_of(shape, #[trigger] list@[k])
            &&& answered_in_order(shape.models(), entries_view(list@))
        },
        results matches Err(error) ==> error is ErrorBuildSimulator || error is ErrorSimTime
            || error is ErrorConfluent || error is ErrorTimeOverflow,
{
    let ThreadData { model, variant, init_values, init_time, finish_time, random_seed, iteration } =
        data;
    let mut root_simulator = match RootSimulator::new(model, iteration) {
        Ok(root_simulator) => root_simulator,
        Err(error) => {
            return Err(error);
        },
    };
    root_simulator.simulator.set_init_values(variant, &init_values);
    match root_simulator.init(init_time, finish_time, random_seed) {
        Ok(()) => {},
        Err(error) => {
            return Err(error);
        },
    }
    root_simulator.run()
}

impl<S: ModelSource, T: ResultsAnalyzer> Experiment<S, T> {
    /// Whether the experiment can be run: it has an iteration, no run is
    /// to end before it begins, and the seed of every iteration can be
    /// held.
    pub open spec fn sound(&self) -> bool {
        &&& self.iterations >= 1
        &&& !self.finish_time.before(self.init_time)
        &&& self.random_seed + self.iterations - 1 <= u64::MAX
    }

    /// Checks that the experiment can be run. The error is `ErrorSimTime`,
    /// exactly if it cannot: see `sound`.
    pub fn check(&self) -> (checked: Result<(), ExdsdevsError>)
        ensures
            checked is Ok == self.sound(),
            checked matches Err(error) ==> error is ErrorSimTime,
    {
        if self.iterations == 0 {
            return Err(ExdsdevsError::ErrorSimTime("the experiment has no iteration".to_owned()));
        }
        if self.finish_time < self.init_time {
            return Err(
                ExdsdevsError::ErrorSimTime("the experiment is to end before it begins".to_owned()),
            );
        }
        match self.random_seed.checked_add(self.iterations - 1) {
            Some(_) => Ok(()),
            None => Err(
                ExdsdevsError::ErrorSimTime(
                    "the seed of the last iteration cannot be held".to_owned(),
                ),
            ),
        }
    }

    /// The ways to choose the initial values of `model`, which one
    /// description of the model of the experiment is taken to be.
    ///
    /// The error is `ErrorBuildSimulator`, exactly if the description
    /// cannot be built, and otherwise `ErrorCartesian`, exactly if there
    /// are more ways than a `u64` counts.
    pub fn variants_of(model: &Model) -> (variants: Result<InitVariants, ExdsdevsError>)
        ensures
            match variants {
                Ok(found) => {
                    &&& model@.valid()
                    &&& found.wf()
                    &&& found.index == 0
                    &&& found.total == ways(wheel_sizes(breadth_first(model@, "root"@)))
                },
                Err(error) => if model@.valid() {
                    error is ErrorCartesian && ways(wheel_sizes(breadth_first(model@, "root"@)))
                        > u64::MAX
                } else {
                    error is ErrorBuildSimulator
                },
            },
    {
        match model.check() {
            Ok(()) => {
                proof {
                    model.valid_is_wf();
                }
                InitVariants::new(model)
            },
            Err(()) => Err(
                ExdsdevsError::ErrorBuildSimulator(
                    "the model names a child twice, or couples a port that does not exist".to_owned(),
                ),
            ),
        }
    }

    /// What the run `iteration` with the initial values `init_values` of
    /// the way `variant` needs: a description of its own, the times of the
    /// experiment, and the seed of the experiment plus the number of the
    /// iteration.
    pub fn generate_thread_data(&self, variant: u64, init_values: InitValues, iteration: u64) -> (data:
        ThreadData)
        requires
            self.random_seed + iteration <= u64::MAX,
        ensures
            data.variant == variant,
            data.init_values == init_values,
            data.init_time == self.init_time,
            data.finish_time == self.finish_time,
            data.random_seed == self.random_seed + iteration,
            data.iteration == iteration,
    {
        thread_data(
            self.model.model(),
            variant,
            init_values,
            self.init_time,
            self.finish_time,
            self.random_seed + iteration,
            iteration,
        )
    }

    /// Runs every iteration for every way to choose the initial values
    /// that `variants` have not handed out yet: the ways in the order of
    /// their numbers, and for each way the iterations in the order of
    /// their numbers. The result of a run goes to the analyzer; a run that
    /// fails is noted, and the experiment goes on.
    ///
    /// As many runs are made as there are ways left, times the number of
    /// iterations. The runs that have failed are noted in the order in
    /// which they were run, so that none is noted twice; each is a run of
    /// a way that was still to come. The source of the model stays as it
    /// is.
    pub fn run_variants(&mut self, variants: InitVariants) -> (report: Report)
        requires
            old(self).sound(),
            variants.wf(),
        ensures
            final(self).model == old(self).model,
            final(self).init_time == old(self).init_time,
            final(self).finish_time == old(self).finish_time,
            final(self).iterations == old(self).iterations,
            final(self).random_seed == old(self).random_seed,
            report.runs == variants.remaining() * old(self).iterations,
            report.failures@.len() <= report.runs,
            forall|k: int|
                0 <= k < report.failures@.len() ==> {
                    let failure = #[trigger] report.failures@[k];
                    &&& variants.index <= failure.variant < variants.total
                    &&& failure.iteration < old(self).iterations
                },
            forall|k: int, m: int|
                0 <= k < m < report.failures@.len() ==> report.failures@[k].runs_before(
                    report.failures@[m],
                ),
    {
        let mut left = variants;
        let ghost start = variants.index;
        let mut failures: Vec<Failure> = Vec::new();
        let mut runs: u128 = 0;
        proof {
            assert(0 * (self.iterations as int) == 0);
        }
        loop
            invariant
                left.wf(),
                left.total == variants.total,
                start <= left.index,
                self.sound(),
                self.model == old(self).model,
                self.init_time == old(self).init_time,
                self.finish_time == old(self).finish_time,
                self.iterations == old(self).iterations,
                self.random_seed == old(self).random_seed,
                runs == (left.index - start) * self.iterations,
                failures@.len() <= runs,
                forall|k: int|
                    0 <= k < failures@.len() ==> {
                        let failure = #[trigger] failures@[k];
                        &&& start <= failure.variant < left.index
                        &&& failure.iteration < self.iterations
                    },
                forall|k: int, m: int|
                    0 <= k < m < failures@.len() ==> failures@[k].runs_before(failures@[m]),
            ensures
                left.index == left.total,
            decreases left.remaining(),
        {
            let (variant, init_values) = match left.next() {
                Some(way) => way,
                None => {
                    break ;
                },
            };
            let mut iteration: u64 = 0;
            while iteration < self.iterations
                invariant
                    iteration <= self.iterations,
                    left.index == variant + 1,
                    start <= variant,
                    self.sound(),
                    self.model == old(self).model,
                    self.init_time == old(self).init_time,
                    self.finish_time == old(self).finish_time,
                    self.iterations == old(self).iterations,
                    self.random_seed == old(self).random_seed,
                    runs == (variant - start) * self.iterations + iteration,
                    failures@.len() <= runs,
                    forall|k: int|
                        0 <= k < failures@.len() ==> {
                            let failure = #[trigger] failures@[k];
                            &&& start <= failure.variant <= variant
                            &&& failure.variant == variant ==> failure.iteration < iteration
                            &&& failure.iteration < self.iterations
                        },
                    forall|k: int, m: int|
                        0 <= k < m < failures@.len() ==> failures@[k].runs_before(failures@[m]),
                decreases self.iterations - iteration,
            {
                let data = self.generate_thread_data(variant, init_values.clone(), iteration);
                match outcome_of(variant, iteration, simulation(data)) {
                    Ok(result) => {
                        self.results_analyzer.add_result(variant, iteration, result);
                    },
                    Err(failure) => {
                        failures.push(failure);
                    },
                }
                proof {
                    let ways = (variant - start) as int;
                    let each = self.iterations as int;
                    assert(ways * each + iteration < 0xFFFF_FFFF_FFFF_FFFE_0000_0000_0000_0001)
                        by (nonlinear_arith)
                        requires
                            0 <= ways < 0xFFFF_FFFF_FFFF_FFFF,
                            0 <= iteration < each,
                            each <= 0xFFFF_FFFF_FFFF_FFFF,
                    ;
                }
                runs = runs + 1;
                iteration += 1;
            }
            proof {
                let ways = (variant - start) as int;
                let each = self.iterations as int;
                assert(ways * each + each == (ways + 1) * each) by (nonlinear_arith);
            }
        }
        Report { analysis: self.results_analyzer.analyze(), failures, runs }
    }

    /// Runs the experiment, one run after the other: see `run_variants`,
    /// which is handed every way to choose the initial values of the
    /// model.
    ///
    /// The error is `ErrorSimTime`, exactly if the experiment cannot be
    /// run, and then nothing has been run; `ErrorBuildSimulator`, if the
    /// model cannot be built; `ErrorCartesian`, if there are more ways to
    /// choose the initial values than a `u64` counts.
    pub fn run_single_thread(&mut self) -> (report: Result<Report, ExdsdevsError>)
        ensures
            final(self).init_time == old(self).init_time,
            final(self).finish_time == old(self).finish_time,
            final(self).iterations == old(self).iterations,
            final(self).random_seed == old(self).random_seed,
            !old(self).sound() ==> (report matches Err(error) && error is ErrorSimTime),
            old(self).sound() ==> !(report matches Err(error) && error is ErrorSimTime),
            report matches Ok(found) ==> {
                &&& old(self).sound()
                &&& found.failures@.len() <= found.runs
                &&& forall|k: int|
                    0 <= k < found.failures@.len() ==> (#[trigger] found.failures@[k]).iteration
                        < old(self).iterations
                &&& forall|k: int, m: int|
                    0 <= k < m < found.failures@.len() ==> found.failures@[k].runs_before(
                        found.failures@[m],
                    )
            },
            report matches Err(error) ==> error is ErrorSimTime || error is ErrorBuildSimulator
                || error is ErrorCartesian,
    {
        match self.check() {
            Ok(()) => {},
            Err(error) => {
                return Err(error);
            },
        }
        let model = self.model.model();
        match Self::variants_of(&model) {
            Ok(variants) => Ok(self.run_variants(variants)),
            Err(error) => Err(error),
        }
    }
}

} // verus!
