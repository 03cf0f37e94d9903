use exdsdevs::containers::{Bag, Mail, Outputs, SimResult, SimResults};
use exdsdevs::dynamic::Dynamic;
use exdsdevs::errors::ExdsdevsError;
use exdsdevs::experiment::{Experiment, ModelSource, ResultsAnalyzer};
use exdsdevs::logger::{record_line, Logger};
use exdsdevs::model::Model;
use exdsdevs::observer::Observer;
use exdsdevs::sim_model::SimModel;
use exdsdevs::time::Time;
use exdsdevs::variants::InitVariants;
use rand::rngs::StdRng;
use rand::{RngCore, SeedableRng};
use serde_json::Value;
use std::sync::{Arc, Mutex};

type Lines = Arc<Mutex<Vec<String>>>;

#[derive(Clone, Copy, PartialEq)]
enum State {
    Waiting,
    Strike,
}

/// A player that strikes the ball back after a time that it draws.
struct AgentDynamic {
    state: State,
    last_count: i64,
}

impl Dynamic for AgentDynamic {
    fn init(&mut self, _: Time, init_value: &Value, _: &mut StdRng) {
        match init_value.get("state").and_then(|state| state.as_str()) {
            Some("STRIKE") => self.state = State::Strike,
            Some("WAITING") => self.state = State::Waiting,
            _ => {}
        }
        self.last_count = 0;
    }

    fn internal_transition(&mut self, _: Time, _: &mut StdRng) {
        self.state = State::Waiting;
    }

    fn external_transition(&mut self, _: Time, _: Time, x_bag: &Bag, _: &mut StdRng) {
        if self.state == State::Waiting {
            self.state = State::Strike;
            if let Some(msg) = x_bag.get(0) {
                if let Some(count) = msg.value().as_i64() {
                    self.last_count = count + 1;
                }
            }
        }
    }

    fn confluent_transition(
        &mut self,
        sim_time: Time,
        x_bag: &Bag,
        rng: &mut StdRng,
    ) -> Result<(), ExdsdevsError> {
        self.internal_transition(sim_time, rng);
        self.external_transition(sim_time, Time::Value(0), x_bag, rng);
        Ok(())
    }

    fn output(&self, _: Time, outputs: &mut Outputs) {
        if self.state == State::Strike {
            outputs.put("out", Value::from(self.last_count));
        }
    }

    fn time_advance(&self, rng: &mut StdRng) -> Time {
        match self.state {
            State::Strike => Time::Value((rng.next_u32() % 8) as i64 + 2),
            State::Waiting => Time::Inf,
        }
    }

    fn state(&self) -> Value {
        match self.state {
            State::Strike => Value::from("STRIKE"),
            State::Waiting => Value::from("WAITING"),
        }
    }
}

/// An observer that keeps the lines of the event log of its model.
struct MemoryLog {
    events: Logger,
    lines: Lines,
}

impl MemoryLog {
    fn write(&mut self, model: &SimModel, record: Option<Value>) {
        if let Some(record) = record {
            let line = record_line(&record).unwrap();
            self.lines.lock().unwrap().push(format!("{} {}", model.full_name, line));
        }
    }
}

impl Observer for MemoryLog {
    fn on_init(&mut self, model: &SimModel, init_time: Time, init_value: &Value, t_next: Time) {
        let record = self.events.on_init(init_time, init_value.clone(), model.state(), t_next);
        self.write(model, record);
    }

    fn on_outputs(&mut self, model: &SimModel, sim_time: Time, bag: &Bag, t_next: Time) {
        let record = self.events.on_outputs(sim_time, bag, t_next);
        self.write(model, record);
    }

    fn before_internal_transition(&mut self, model: &SimModel, sim_time: Time) {
        self.events.before_internal_transition(sim_time, model.state());
    }

    fn after_internal_transition(&mut self, model: &SimModel, _: Time, t_next: Time) {
        let record = self.events.after_internal_transition(model.state(), t_next);
        self.write(model, record);
    }

    fn before_external_transition(&mut self, model: &SimModel, sim_time: Time, x_bag: &Bag, elapsed: Time) {
        self.events.before_external_transition(sim_time, model.state(), x_bag, elapsed);
    }

    fn after_external_transition(&mut self, model: &SimModel, _: Time, t_next: Time) {
        let record = self.events.after_external_transition(model.state(), t_next);
        self.write(model, record);
    }

    fn before_external_mail_transition(&mut self, model: &SimModel, sim_time: Time, mail: &Mail, elapsed: Time) {
        self.events.before_external_mail_transition(sim_time, model.state(), mail, elapsed);
    }

    fn after_external_mail_transition(&mut self, model: &SimModel, _: Time, t_next: Time) {
        let record = self.events.after_external_mail_transition(model.state(), t_next);
        self.write(model, record);
    }

    fn before_confluent_transition(&mut self, model: &SimModel, sim_time: Time, x_bag: &Bag) {
        self.events.before_confluent_transition(sim_time, model.state(), x_bag);
    }

    fn after_confluent_transition(&mut self, model: &SimModel, _: Time, t_next: Time) {
        let record = self.events.after_confluent_transition(model.state(), t_next);
        self.write(model, record);
    }

    fn after_submodels_transition(&mut self, model: &SimModel, sim_time: Time, t_next: Time) {
        let record = self.events.after_submodels_transition(model.state(), sim_time, t_next);
        self.write(model, record);
    }

    fn finish(&mut self, _: &SimModel, _: Time) -> Option<SimResult> {
        None
    }
}

struct PingPong {
    lines: Option<Lines>,
}

fn state(name: &str) -> Value {
    Value::Object(vec![("state".to_owned(), Value::from(name))].into_iter().collect())
}

impl ModelSource for PingPong {
    fn model(&self) -> Model {
        let agent = |first: &str, second: &str| {
            let mut model = Model::default()
                .with_dynamic(AgentDynamic { state: State::Waiting, last_count: 0 })
                .with_input_ports(vec!["in"])
                .with_output_ports(vec!["out"])
                .with_init_variant("first", state(first))
                .with_init_variant("second", state(second));
            if let Some(lines) = &self.lines {
                model = model
                    .with_observer("std_logger", MemoryLog { events: Logger::new(), lines: lines.clone() });
            }
            model
        };
        let mut root = Model::default()
            .with_submodel("ping", agent("STRIKE", "WAITING"))
            .with_submodel("pong", agent("WAITING", "STRIKE"))
            .with_internal_coupling(("ping", "out", "pong", "in"))
            .with_internal_coupling(("pong", "out", "ping", "in"));
        if let Some(lines) = &self.lines {
            root = root
                .with_observer("std_logger", MemoryLog { events: Logger::new(), lines: lines.clone() });
        }
        root
    }
}

struct Count {
    runs: u64,
}

impl ResultsAnalyzer for Count {
    fn add_result(&mut self, _: u64, _: u64, _: SimResults) {
        self.runs += 1;
    }

    fn analyze(&mut self) -> Value {
        Value::from(self.runs)
    }
}

fn experiment(lines: Option<Lines>) -> Experiment<PingPong, Count> {
    Experiment {
        model: PingPong { lines },
        init_time: Time::Value(0),
        finish_time: Time::Value(60),
        iterations: 3,
        random_seed: 1,
        results_analyzer: Count { runs: 0 },
    }
}

#[test]
fn create_init_variants_factory() {
    let model = PingPong { lines: None }.model();
    let init_variants_factory = InitVariants::new(&model).unwrap();
    assert_eq!(init_variants_factory.total, 4);
    assert_eq!(
        init_variants_factory.paths,
        vec!["root".to_owned(), "root/ping".to_owned(), "root/pong".to_owned()]
    );
}

#[test]
fn create_experiment_and_run_variants_without_log() {
    let mut experiment = experiment(None);
    let report = experiment.run_single_thread().unwrap();
    assert_eq!(report.analysis, Value::from(12));
    assert!(report.failures.is_empty());
}

#[test]
fn run_experiment_single_thread_with_log() {
    let lines: Lines = Arc::new(Mutex::new(Vec::new()));
    let report = experiment(Some(lines.clone())).run_single_thread().unwrap();
    assert_eq!(report.analysis, Value::from(12));
    assert!(report.failures.is_empty());
    let first = lines.lock().unwrap().clone();
    assert!(first.len() > 50);
    assert!(first.iter().all(|line| line.ends_with("}\n")));
    assert_eq!(
        first[0],
        format!(
            "root/ping {{\"EVENT\":\"INIT\",\"INIT_STATE\":\"STRIKE\",\"INIT_VALUE\":{{\"state\":\"STRIKE\"}},\"TIME\":0,\"TIME_NEXT\":{}}}\n",
            first_advance(1)
        )
    );
    assert!(first.iter().any(|line| line.contains("\"EVENT\":\"EXTERNAL_TRANSITION\"")));
    assert!(first.iter().any(|line| line.contains("\"EVENT\":\"INTERNAL_TRANSITION\"")));
    assert!(first.iter().any(|line| line.contains("\"EVENT\":\"EXTERNAL_MAIL_TRANSITION\"")));
    assert!(first.iter().any(|line| line.contains("\"EVENT\":\"AFTER_SUBMODELS_TRANSITION\"")));
    assert!(first.iter().any(|line| line.contains("\"EVENT\":\"OUTPUTS\"")));

    let again: Lines = Arc::new(Mutex::new(Vec::new()));
    experiment(Some(again.clone())).run_single_thread().unwrap();
    assert_eq!(first, again.lock().unwrap().clone());
}

/// The first advance that a player draws in a run with the seed `seed`.
fn first_advance(seed: u64) -> i64 {
    let mut rng = StdRng::seed_from_u64(seed);
    (rng.next_u32() % 8) as i64 + 2
}
