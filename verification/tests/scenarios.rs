use exdsdevs::containers::{Bag, Msg, Outputs, SimResult};
use exdsdevs::dynamic::Dynamic;
use exdsdevs::errors::ExdsdevsError;
use exdsdevs::model::Model;
use exdsdevs::observer::Observer;
use exdsdevs::root_simulator::RootSimulator;
use exdsdevs::sim_model::SimModel;
use exdsdevs::time::Time;
use rand::rngs::StdRng;
use serde_json::Value;
use std::sync::{Arc, Mutex};

type Trace = Arc<Mutex<Vec<String>>>;

fn trace() -> Trace {
    Arc::new(Mutex::new(Vec::new()))
}

fn lines(trace: &Trace) -> Vec<String> {
    trace.lock().unwrap().clone()
}

/// Writes down every call that reaches it.
struct Recorder {
    trace: Trace,
}

impl Recorder {
    fn note(&self, model: &SimModel, what: String) {
        self.trace.lock().unwrap().push(format!("{} {}", model.full_name, what));
    }
}

fn ports(bag: &Bag) -> String {
    let parts: Vec<String> =
        bag.iter().map(|m| format!("{}={}", m.port(), m.value())).collect();
    parts.join(",")
}

impl Observer for Recorder {
    fn init(&mut self, model: &SimModel, variant: u64, iteration: u64) {
        self.note(model, format!("RUN {} {}", variant, iteration));
    }

    fn on_init(&mut self, model: &SimModel, init_time: Time, init_value: &Value, t_next: Time) {
        self.note(
            model,
            format!("INIT {} {} {}", init_time.to_string(), init_value, t_next.to_string()),
        );
    }

    fn on_outputs(&mut self, model: &SimModel, sim_time: Time, bag: &Bag, _: Time) {
        self.note(model, format!("OUTPUTS {} [{}]", sim_time.to_string(), ports(bag)));
    }

    fn before_internal_transition(&mut self, model: &SimModel, sim_time: Time) {
        self.note(model, format!("BEFORE_INTERNAL {}", sim_time.to_string()));
    }

    fn after_internal_transition(&mut self, model: &SimModel, sim_time: Time, t_next: Time) {
        self.note(
            model,
            format!("INTERNAL_TRANSITION {} {}", sim_time.to_string(), t_next.to_string()),
        );
    }

    fn before_external_transition(
        &mut self,
        model: &SimModel,
        sim_time: Time,
        x_bag: &Bag,
        elapsed: Time,
    ) {
        self.note(
            model,
            format!(
                "BEFORE_EXTERNAL {} [{}] {}",
                sim_time.to_string(),
                ports(x_bag),
                elapsed.to_string()
            ),
        );
    }

    fn after_external_transition(&mut self, model: &SimModel, sim_time: Time, t_next: Time) {
        self.note(
            model,
            format!("EXTERNAL_TRANSITION {} {}", sim_time.to_string(), t_next.to_string()),
        );
    }

    fn before_confluent_transition(&mut self, model: &SimModel, sim_time: Time, x_bag: &Bag) {
        self.note(model, format!("BEFORE_CONFLUENT {} [{}]", sim_time.to_string(), ports(x_bag)));
    }

    fn after_confluent_transition(&mut self, model: &SimModel, sim_time: Time, t_next: Time) {
        self.note(
            model,
            format!("CONFLUENT_TRANSITION {} {}", sim_time.to_string(), t_next.to_string()),
        );
    }

    fn after_submodels_transition(&mut self, model: &SimModel, sim_time: Time, t_next: Time) {
        self.note(
            model,
            format!("AFTER_SUBMODELS {} {}", sim_time.to_string(), t_next.to_string()),
        );
    }

    fn finish(&mut self, model: &SimModel, sim_time: Time) -> Option<SimResult> {
        self.note(model, format!("FINISH {}", sim_time.to_string()));
        Some(SimResult { tags: vec!["seen".to_owned()], result: Value::from(1) })
    }
}

#[derive(Clone, Copy, PartialEq, Debug)]
enum Phase {
    Strike,
    Waiting,
}

/// A player: it strikes one unit of time after the ball has reached it.
struct Agent {
    phase: Phase,
    count: i64,
    trace: Trace,
    name: &'static str,
}

impl Dynamic for Agent {
    fn internal_transition(&mut self, _: Time, _: &mut StdRng) {
        self.phase = Phase::Waiting;
    }

    fn external_transition(&mut self, _: Time, _: Time, x_bag: &Bag, _: &mut StdRng) {
        if self.phase == Phase::Waiting {
            self.phase = Phase::Strike;
            if let Some(msg) = x_bag.get(0) {
                if let Some(received) = msg.value().as_i64() {
                    self.count = received + 1;
                }
            }
        }
    }

    fn confluent_transition(
        &mut self,
        sim_time: Time,
        x_bag: &Bag,
        rng: &mut StdRng,
    ) -> Result<(), ExdsdevsError> {
        self.internal_transition(sim_time, rng);
        self.external_transition(sim_time, Time::Value(0), x_bag, rng);
        Ok(())
    }

    fn output(&self, sim_time: Time, outputs: &mut Outputs) {
        if self.phase == Phase::Strike {
            self.trace.lock().unwrap().push(format!(
                "{} emits {} at {}",
                self.name,
                self.count,
                sim_time.to_string()
            ));
            outputs.put("out", Value::from(self.count));
        }
    }

    fn time_advance(&self, _: &mut StdRng) -> Time {
        match self.phase {
            Phase::Strike => Time::Value(1),
            Phase::Waiting => Time::Inf,
        }
    }

    fn state(&self) -> Value {
        match self.phase {
            Phase::Strike => Value::from("STRIKE"),
            Phase::Waiting => Value::from("WAITING"),
        }
    }
}

fn player(name: &'static str, phase: Phase, trace: &Trace) -> Model {
    Model::default()
        .with_dynamic(Agent { phase, count: 0, trace: trace.clone(), name })
        .with_input_ports(vec!["in"])
        .with_output_ports(vec!["out"])
}

fn ping_pong(trace: &Trace) -> Model {
    Model::default()
        .with_submodel("A", player("A", Phase::Strike, trace))
        .with_submodel("B", player("B", Phase::Waiting, trace))
        .with_internal_coupling(("A", "out", "B", "in"))
        .with_internal_coupling(("B", "out", "A", "in"))
}

#[test]
fn ping_pong_players_strike_in_turn() {
    let log = trace();
    let mut root = RootSimulator::new(ping_pong(&log), 0).unwrap();
    root.init(Time::Value(0), Time::Value(5), 0).unwrap();
    assert_eq!(root.sim_time, Time::Value(1));
    root.run().unwrap();
    assert_eq!(
        lines(&log),
        vec![
            "A emits 0 at 1".to_owned(),
            "B emits 1 at 2".to_owned(),
            "A emits 2 at 3".to_owned(),
            "B emits 3 at 4".to_owned(),
        ]
    );
    assert_eq!(root.sim_time, Time::Value(5));
    assert_eq!(root.simulator.t_next, Time::Value(5));
}

/// A model that never has an event.
struct Passive {
    trace: Trace,
}

impl Dynamic for Passive {
    fn internal_transition(&mut self, _: Time, _: &mut StdRng) {
        self.trace.lock().unwrap().push("transition".to_owned());
    }

    fn time_advance(&self, _: &mut StdRng) -> Time {
        Time::Inf
    }

    fn state(&self) -> Value {
        Value::Null
    }

    fn finish(&self, sim_time: Time) {
        self.trace.lock().unwrap().push(format!("finish {}", sim_time.to_string()));
    }
}

#[test]
fn passive_model_makes_no_transition() {
    let log = trace();
    let model = Model::default().with_submodel(
        "only",
        Model::default().with_dynamic(Passive { trace: log.clone() }),
    );
    let mut root = RootSimulator::new(model, 0).unwrap();
    root.init(Time::Value(3), Time::Value(100), 0).unwrap();
    assert_eq!(root.simulator.t_next, Time::Inf);
    assert_eq!(root.sim_time, Time::Inf);
    let results = root.run().unwrap();
    assert!(results.is_empty());
    assert_eq!(lines(&log), vec!["finish Inf".to_owned()]);
    assert_eq!(root.simulator.t_next, Time::Inf);
}
