use exdsdevs::containers::{SimResult, SimResults};
use exdsdevs::dynamic::Dynamic;
use exdsdevs::errors::ExdsdevsError;
use exdsdevs::experiment::{
    next_to_send, outcome_of, pool_size, simulation, Dispatch, Experiment, ModelSource,
    ResultsAnalyzer, ThreadData,
};
use exdsdevs::model::Model;
use exdsdevs::observer::Observer;
use exdsdevs::sim_model::SimModel;
use exdsdevs::time::Time;
use rand::rngs::StdRng;
use rand::{RngCore, SeedableRng};
use serde_json::Value;
use std::sync::{Arc, Mutex};

type Trace = Arc<Mutex<Vec<String>>>;

/// A behaviour that remembers its initial value and the first number of
/// the random number generator.
struct Probe {
    seen: Arc<Mutex<(Value, u32)>>,
    advance: Time,
}

impl Dynamic for Probe {
    fn init(&mut self, _: Time, init_value: &Value, rng: &mut StdRng) {
        *self.seen.lock().unwrap() = (init_value.clone(), rng.next_u32());
    }

    fn time_advance(&self, _: &mut StdRng) -> Time {
        self.advance
    }

    fn state(&self) -> Value {
        Value::Null
    }
}

/// Hands back what the behaviour of its model has remembered.
struct Reporter {
    seen: Arc<Mutex<(Value, u32)>>,
}

impl Observer for Reporter {
    fn finish(&mut self, _: &SimModel, _: Time) -> Option<SimResult> {
        let (value, number) = self.seen.lock().unwrap().clone();
        Some(SimResult { tags: Vec::new(), result: Value::from(vec![value, Value::from(number)]) })
    }
}

struct Source {
    built: Trace,
    advance: Time,
}

impl ModelSource for Source {
    fn model(&self) -> Model {
        self.built.lock().unwrap().push("model".to_owned());
        let probe = |values: &[i64]| {
            let seen = Arc::new(Mutex::new((Value::Null, 0)));
            let mut model = Model::default()
                .with_dynamic(Probe { seen: seen.clone(), advance: self.advance })
                .with_observer("report", Reporter { seen });
            for value in values {
                model = model.with_init_variant(&format!("v{}", value), Value::from(*value));
            }
            model
        };
        Model::default().with_submodel("a", probe(&[1, 2])).with_submodel("b", probe(&[10, 20, 30]))
    }
}

struct Collector {
    runs: Vec<(u64, u64, Vec<(String, Value)>)>,
}

impl ResultsAnalyzer for Collector {
    fn add_result(&mut self, variant: u64, iteration: u64, result: SimResults) {
        let seen = result
            .into_iter()
            .map(|(model, mut results)| (model, results.remove(0).1.result))
            .collect();
        self.runs.push((variant, iteration, seen));
    }

    fn analyze(&mut self) -> Value {
        Value::from(self.runs.len())
    }
}

fn experiment(iterations: u64, advance: Time) -> Experiment<Source, Collector> {
    Experiment {
        model: Source { built: Arc::new(Mutex::new(Vec::new())), advance },
        init_time: Time::Value(0),
        finish_time: Time::Value(10),
        iterations,
        random_seed: 40,
        results_analyzer: Collector { runs: Vec::new() },
    }
}

fn first_number(seed: u64) -> u32 {
    StdRng::seed_from_u64(seed).next_u32()
}

#[test]
fn six_ways_and_one_iteration_give_six_runs() {
    let mut experiment = experiment(1, Time::Inf);
    let report = experiment.run_single_thread().unwrap();
    assert_eq!(report.analysis, Value::from(6));
    assert_eq!(report.runs, 6);
    assert!(report.failures.is_empty());
    let expected: Vec<(u64, u64, Vec<(String, Value)>)> =
        vec![(1, 10), (1, 20), (1, 30), (2, 10), (2, 20), (2, 30)]
            .into_iter()
            .enumerate()
            .map(|(variant, (a, b))| {
                let number = Value::from(first_number(40));
                (
                    variant as u64,
                    0,
                    vec![
                        ("root/a".to_owned(), Value::from(vec![Value::from(a), number.clone()])),
                        (
                            "root/b".to_owned(),
                            Value::from(vec![Value::from(b), Value::from(second_number(40))]),
                        ),
                    ],
                )
            })
            .collect();
    assert_eq!(experiment.results_analyzer.runs, expected);
    assert_eq!(experiment.model.built.lock().unwrap().len(), 7);
}

fn second_number(seed: u64) -> u32 {
    let mut rng = StdRng::seed_from_u64(seed);
    rng.next_u32();
    rng.next_u32()
}

#[test]
fn the_seed_of_an_iteration_is_the_seed_plus_its_number() {
    let mut experiment = experiment(3, Time::Inf);
    let report = experiment.run_single_thread().unwrap();
    assert_eq!(report.analysis, Value::from(18));
    let runs = &experiment.results_analyzer.runs;
    for (k, run) in runs.iter().enumerate() {
        assert_eq!(run.0, (k / 3) as u64);
        assert_eq!(run.1, (k % 3) as u64);
        let number = run.2[0].1.as_array().unwrap()[1].as_u64().unwrap();
        assert_eq!(number, first_number(40 + run.1) as u64);
    }
    assert_ne!(first_number(40), first_number(41));
}

#[test]
fn the_data_of_a_run_hold_the_times_and_the_seed() {
    let experiment = experiment(5, Time::Inf);
    let values = vec![("root/a".to_owned(), Value::from(2))];
    let data = experiment.generate_thread_data(3, values.clone(), 4);
    assert_eq!(data.variant, 3);
    assert_eq!(data.iteration, 4);
    assert_eq!(data.random_seed, 44);
    assert_eq!(data.init_time, Time::Value(0));
    assert_eq!(data.finish_time, Time::Value(10));
    assert_eq!(data.init_values, values);
    assert_eq!(data.model.submodels.len(), 2);
}

#[test]
fn a_failed_run_is_noted_and_the_experiment_goes_on() {
    let mut experiment = experiment(2, Time::Value(-1));
    let report = experiment.run_single_thread().unwrap();
    assert_eq!(report.analysis, Value::from(0));
    assert_eq!(report.runs, 12);
    assert_eq!(report.failures.len(), 12);
    for (k, failure) in report.failures.iter().enumerate() {
        assert_eq!(failure.variant, (k / 2) as u64);
        assert_eq!(failure.iteration, (k % 2) as u64);
        assert!(matches!(failure.error, ExdsdevsError::ErrorSimTime(_)));
    }
}

#[test]
fn an_experiment_that_cannot_be_run_is_refused() {
    let mut none = experiment(0, Time::Inf);
    assert!(matches!(none.check(), Err(ExdsdevsError::ErrorSimTime(_))));
    assert!(matches!(none.run_single_thread(), Err(ExdsdevsError::ErrorSimTime(_))));
    assert!(none.model.built.lock().unwrap().is_empty());

    let mut backwards = experiment(1, Time::Inf);
    backwards.init_time = Time::Value(11);
    assert!(matches!(backwards.check(), Err(ExdsdevsError::ErrorSimTime(_))));

    let mut seedless = experiment(2, Time::Inf);
    seedless.random_seed = u64::MAX;
    assert!(matches!(seedless.check(), Err(ExdsdevsError::ErrorSimTime(_))));
    seedless.iterations = 1;
    assert!(seedless.check().is_ok());
    assert!(experiment(1, Time::Inf).check().is_ok());
}

struct Broken;

impl ModelSource for Broken {
    fn model(&self) -> Model {
        Model::default()
            .with_submodel("a", Model::default())
            .with_output_coupling(("a", "out", "up"))
    }
}

#[test]
fn an_experiment_on_a_model_that_cannot_be_built_is_refused() {
    let mut experiment = Experiment {
        model: Broken,
        init_time: Time::Value(0),
        finish_time: Time::Value(10),
        iterations: 1,
        random_seed: 0,
        results_analyzer: Collector { runs: Vec::new() },
    };
    assert!(matches!(
        experiment.run_single_thread(),
        Err(ExdsdevsError::ErrorBuildSimulator(_))
    ));
    assert!(matches!(
        Experiment::<Broken, Collector>::variants_of(&Broken.model()),
        Err(ExdsdevsError::ErrorBuildSimulator(_))
    ));
}

#[test]
fn one_run_gives_the_results_of_the_observers() {
    let source = Source { built: Arc::new(Mutex::new(Vec::new())), advance: Time::Value(3) };
    let data = ThreadData {
        model: source.model(),
        variant: 0,
        init_values: vec![("root/b".to_owned(), Value::from("chosen"))],
        init_time: Time::Value(0),
        finish_time: Time::Value(10),
        random_seed: 5,
        iteration: 2,
    };
    let results = simulation(data).unwrap();
    assert_eq!(results.len(), 2);
    assert_eq!(results[0].0, "root/a");
    assert_eq!(results[0].1[0].1.result, Value::from(vec![Value::Null, Value::from(first_number(5))]));
    assert_eq!(results[1].0, "root/b");
    assert_eq!(
        results[1].1[0].1.result,
        Value::from(vec![Value::from("chosen"), Value::from(second_number(5))])
    );

    let backwards = ThreadData {
        model: source.model(),
        variant: 0,
        init_values: Vec::new(),
        init_time: Time::Value(5),
        finish_time: Time::Value(4),
        random_seed: 5,
        iteration: 0,
    };
    assert!(matches!(simulation(backwards), Err(ExdsdevsError::ErrorSimTime(_))));
    let broken = ThreadData {
        model: Broken.model(),
        variant: 0,
        init_values: Vec::new(),
        init_time: Time::Value(0),
        finish_time: Time::Value(4),
        random_seed: 5,
        iteration: 0,
    };
    assert!(matches!(simulation(broken), Err(ExdsdevsError::ErrorBuildSimulator(_))));
}

#[test]
fn the_ways_that_are_left_are_run() {
    let mut experiment = experiment(2, Time::Inf);
    let mut variants =
        Experiment::<Source, Collector>::variants_of(&experiment.model.model()).unwrap();
    variants.next();
    variants.next();
    let report = experiment.run_variants(variants);
    assert_eq!(report.analysis, Value::from(8));
    assert_eq!(report.runs, 8);
    assert!(report.failures.is_empty());
    let order: Vec<(u64, u64)> =
        experiment.results_analyzer.runs.iter().map(|run| (run.0, run.1)).collect();
    assert_eq!(order, vec![(2, 0), (2, 1), (3, 0), (3, 1), (4, 0), (4, 1), (5, 0), (5, 1)]);
}

#[test]
fn the_outcome_of_a_run_is_its_result_or_its_failure() {
    let result = vec![("root".to_owned(), Vec::new())];
    match outcome_of(2, 3, Ok(result)) {
        Ok(kept) => {
            assert_eq!(kept.len(), 1);
            assert_eq!(kept[0].0, "root");
        }
        Err(_) => panic!("a result became a failure"),
    }
    match outcome_of(2, 3, Err(ExdsdevsError::ErrorSimTime("late".to_owned()))) {
        Err(failure) => {
            assert_eq!(failure.variant, 2);
            assert_eq!(failure.iteration, 3);
            assert!(matches!(failure.error, ExdsdevsError::ErrorSimTime(ref m) if m == "late"));
        }
        Ok(_) => panic!("a failure became a result"),
    }
}

#[test]
fn no_way_left_means_no_run() {
    let mut experiment = experiment(3, Time::Inf);
    let mut variants =
        Experiment::<Source, Collector>::variants_of(&experiment.model.model()).unwrap();
    while variants.next().is_some() {}
    let built = experiment.model.built.lock().unwrap().len();
    let report = experiment.run_variants(variants);
    assert_eq!(report.runs, 0);
    assert!(report.failures.is_empty());
    assert_eq!(report.analysis, Value::from(0));
    assert_eq!(experiment.model.built.lock().unwrap().len(), built);
}

#[test]
fn the_workers_are_no_more_than_the_iterations() {
    assert_eq!(pool_size(3, 8), 3);
    assert_eq!(pool_size(8, 3), 3);
    assert_eq!(pool_size(4, 4), 4);
    assert_eq!(pool_size(0, 4), 0);
    assert_eq!(next_to_send(2, 3), Some(2));
    assert_eq!(next_to_send(3, 3), None);
    assert_eq!(next_to_send(0, 0), None);
}

#[test]
fn the_iterations_of_a_way_are_handed_out_once_and_in_order() {
    let mut state = Dispatch::new(3);
    assert_eq!((state.iterations, state.sent, state.back), (3, 0, 0));
    assert_eq!(state.under_way(), 0);
    assert!(!state.ended());
    let mut handed_out = Vec::new();
    for _ in 0..2 {
        let (next, iteration) = state.send();
        state = next;
        handed_out.push(iteration);
    }
    assert_eq!(handed_out, vec![Some(0), Some(1)]);
    assert_eq!(state.under_way(), 2);
    let mut back = 0;
    while state.under_way() > 0 {
        let (next, iteration) = state.returned();
        state = next;
        back += 1;
        if let Some(iteration) = iteration {
            handed_out.push(Some(iteration));
        }
    }
    assert_eq!(handed_out, vec![Some(0), Some(1), Some(2)]);
    assert_eq!(back, 3);
    assert!(state.ended());
    assert_eq!((state.sent, state.back), (3, 3));
    let (after, iteration) = state.send();
    assert_eq!(iteration, None);
    assert_eq!((after.sent, after.back), (3, 3));
    let (after, iteration) = state.returned();
    assert_eq!(iteration, None);
    assert_eq!((after.sent, after.back), (3, 3));
}

#[test]
fn a_run_that_comes_back_makes_room_for_the_next() {
    let state = Dispatch { iterations: 5, sent: 2, back: 0 };
    let (state, iteration) = state.returned();
    assert_eq!(iteration, Some(2));
    assert_eq!((state.sent, state.back), (3, 1));
    assert_eq!(state.under_way(), 2);
    let last = Dispatch { iterations: 5, sent: 5, back: 3 };
    let (last, iteration) = last.returned();
    assert_eq!(iteration, None);
    assert_eq!((last.sent, last.back), (5, 4));
    assert!(!last.ended());
    assert_eq!(last.under_way(), 1);
}
