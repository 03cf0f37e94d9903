use exdsdevs::containers::{Bag, MailItem, Msg};
use exdsdevs::couplings::{Coupling, Endpoint};
use exdsdevs::model::Model;
use exdsdevs::router::{inbound_bag, outbound_bag, route_bag_into, route_mail_into};
use exdsdevs::sim_model::SimModel;
use exdsdevs::simulator::Simulator;
use exdsdevs::dynamic::Dynamic;
use exdsdevs::observer::Observer;
use exdsdevs::time::Time;
use rand::rngs::StdRng;
use serde_json::Value;

fn input(port: &str, child: &str, child_port: &str) -> Coupling {
    Coupling { from: Endpoint::own(port), to: Endpoint::of_child(child, child_port) }
}

fn internal(from: &str, port: &str, child: &str, child_port: &str) -> Coupling {
    Coupling { from: Endpoint::of_child(from, port), to: Endpoint::of_child(child, child_port) }
}

fn output(from: &str, port: &str, own: &str) -> Coupling {
    Coupling { from: Endpoint::of_child(from, port), to: Endpoint::own(own) }
}

fn seen(bag: &Bag) -> Vec<(String, i64)> {
    bag.iter().map(|m| (m.port().to_owned(), m.value().as_i64().unwrap())).collect()
}

fn at(port: &str, value: i64) -> (String, i64) {
    (port.to_owned(), value)
}

fn msg(port: &str, value: i64) -> Msg {
    Msg::new(port, Value::from(value))
}

#[test]
fn input_reaches_a_child_once_for_each_coupling() {
    let eic = vec![
        input("p", "a", "x"),
        input("q", "a", "y"),
        input("p", "b", "x"),
        input("p", "a", "z"),
    ];
    let x_bag = vec![msg("p", 1), msg("r", 2), msg("q", 3), msg("p", 4)];
    let none = Vec::new();
    let a = inbound_bag(&x_bag, &none, &eic, &Vec::new(), &"a".to_owned());
    assert_eq!(seen(&a), vec![at("x", 1), at("z", 1), at("y", 3), at("x", 4), at("z", 4)]);
    let b = inbound_bag(&x_bag, &none, &eic, &Vec::new(), &"b".to_owned());
    assert_eq!(seen(&b), vec![at("x", 1), at("x", 4)]);
    let c = inbound_bag(&x_bag, &none, &eic, &Vec::new(), &"c".to_owned());
    assert!(c.is_empty());
}

#[test]
fn input_from_outside_comes_before_input_from_the_children() {
    let eic = vec![input("p", "a", "x")];
    let ic = vec![
        internal("b", "out", "a", "x"),
        internal("a", "out", "a", "loop"),
        internal("b", "out", "a", "y"),
        internal("b", "aux", "c", "x"),
    ];
    let mail = vec![
        MailItem { model_name: "a".to_owned(), y_bag: vec![msg("out", 10)] },
        MailItem { model_name: "b".to_owned(), y_bag: vec![msg("aux", 20), msg("out", 21)] },
    ];
    let x_bag = vec![msg("p", 1)];
    let a = inbound_bag(&x_bag, &mail, &eic, &ic, &"a".to_owned());
    assert_eq!(seen(&a), vec![at("x", 1), at("loop", 10), at("x", 21), at("y", 21)]);
    let c = inbound_bag(&x_bag, &mail, &eic, &ic, &"c".to_owned());
    assert_eq!(seen(&c), vec![at("x", 20)]);
    let b = inbound_bag(&x_bag, &mail, &eic, &ic, &"b".to_owned());
    assert!(b.is_empty());
}

#[test]
fn output_of_the_children_reaches_the_ports_of_the_model() {
    let eoc = vec![output("a", "out", "up"), output("b", "out", "up"), output("a", "out", "copy")];
    let mail = vec![
        MailItem { model_name: "b".to_owned(), y_bag: vec![msg("out", 1), msg("aux", 2)] },
        MailItem { model_name: "a".to_owned(), y_bag: vec![msg("out", 3)] },
        MailItem { model_name: "c".to_owned(), y_bag: vec![msg("out", 4)] },
    ];
    let up = outbound_bag(&mail, &eoc);
    assert_eq!(seen(&up), vec![at("up", 1), at("up", 3), at("copy", 3)]);
    assert!(outbound_bag(&mail, &Vec::new()).is_empty());
    assert!(outbound_bag(&Vec::new(), &eoc).is_empty());
}

#[test]
fn routing_adds_behind_what_is_there() {
    let mut out = vec![msg("kept", 0)];
    let edges = vec![internal("a", "out", "b", "in")];
    route_bag_into(
        &mut out,
        &vec![msg("out", 1)],
        &edges,
        &Some("a".to_owned()),
        &Some("b".to_owned()),
    );
    assert_eq!(seen(&out), vec![at("kept", 0), at("in", 1)]);
    route_bag_into(&mut out, &vec![msg("out", 2)], &edges, &None, &Some("b".to_owned()));
    assert_eq!(out.len(), 2);
    let mail = vec![MailItem { model_name: "a".to_owned(), y_bag: vec![msg("out", 3)] }];
    route_mail_into(&mut out, &mail, &edges, &Some("b".to_owned()));
    assert_eq!(seen(&out), vec![at("kept", 0), at("in", 1), at("in", 3)]);
}

#[test]
fn a_routed_message_shares_the_payload() {
    let eic = vec![input("p", "a", "x")];
    let payload = Value::from(vec![1, 2, 3]);
    let x_bag = vec![Msg::new("p", payload.clone())];
    let a = inbound_bag(&x_bag, &Vec::new(), &eic, &Vec::new(), &"a".to_owned());
    assert_eq!(a.len(), 1);
    assert_eq!(a[0].value(), &payload);
    assert!(std::ptr::eq(a[0].value(), x_bag[0].value()));
}

#[test]
fn a_model_keeps_its_couplings_once() {
    let mut described = Model::default()
        .with_dynamic(Fixed { state: 5 })
        .with_input_ports(vec!["p"])
        .with_submodel("a", Model::default())
        .with_observer("seen", Quiet);
    described.input_couplings =
        vec![input("p", "a", "x"), input("p", "a", "x"), input("p", "b", "x")];
    described.internal_couplings =
        vec![internal("a", "out", "b", "in"), internal("a", "out", "b", "in")];
    described.output_couplings = vec![output("a", "out", "up")];
    let (model, rest) = SimModel::new("m".to_owned(), described);
    assert_eq!(model.full_name(), "m");
    assert_eq!(model.state(), Value::from(5));
    assert!(model.has_submodels());
    assert_eq!(model.external_input_couplings().unwrap().len(), 2);
    assert_eq!(model.internal_couplings().unwrap().len(), 1);
    assert_eq!(model.external_output_couplings().unwrap().len(), 1);
    let mail = vec![MailItem { model_name: "a".to_owned(), y_bag: vec![msg("out", 3)] }];
    assert_eq!(seen(&model.get_y_bag_from_mail(&mail)), vec![at("up", 3)]);
    assert_eq!(rest.submodels.len(), 1);
    assert_eq!(rest.submodels[0].name, "a");
    assert_eq!(rest.observers.len(), 1);
    assert_eq!(rest.observers[0].name, "seen");
    assert_eq!(rest.input_ports, vec!["p".to_owned()]);
    assert_eq!(rest.dynamic.state(), Value::Null);
    assert!(rest.input_couplings.is_empty());

    let mut alone = Model::default().with_dynamic(Fixed { state: 6 });
    alone.input_couplings = vec![input("p", "a", "x")];
    alone.output_couplings = vec![output("a", "out", "up")];
    let (atomic, _) = SimModel::new("n".to_owned(), alone);
    assert_eq!(atomic.state(), Value::from(6));
    assert!(!atomic.has_submodels());
    assert!(atomic.external_input_couplings().is_none());
    assert!(atomic.internal_couplings().is_none());
    assert!(atomic.external_output_couplings().is_none());
    assert!(atomic.get_y_bag_from_mail(&mail).is_empty());
}

/// A behaviour that waits forever in one state.
struct Fixed {
    state: i64,
}

impl Dynamic for Fixed {
    fn time_advance(&self, _: &mut StdRng) -> Time {
        Time::Inf
    }

    fn state(&self) -> Value {
        Value::from(self.state)
    }
}

struct Quiet;

impl Observer for Quiet {}

#[test]
fn a_simulator_holds_the_behaviours_of_its_description() {
    let model = Model::default()
        .with_dynamic(Fixed { state: 1 })
        .with_observer("top", Quiet)
        .with_submodel("a", Model::default().with_dynamic(Fixed { state: 2 }))
        .with_submodel(
            "b",
            Model::default()
                .with_dynamic(Fixed { state: 3 })
                .with_observer("one", Quiet)
                .with_observer("two", Quiet),
        );
    let sim = Simulator::new("top".to_owned(), model, 0);
    assert_eq!(sim.sim_model.state(), Value::from(1));
    assert_eq!(sim.sub_simulators[0].sim_model.state(), Value::from(2));
    assert_eq!(sim.sub_simulators[1].sim_model.state(), Value::from(3));
    assert_eq!(sim.observers.len(), 1);
    assert_eq!(sim.sub_simulators[0].observers.len(), 0);
    let names: Vec<&str> =
        sim.sub_simulators[1].observers.iter().map(|o| o.name.as_str()).collect();
    assert_eq!(names, vec!["one", "two"]);
}

#[test]
fn a_simulator_finds_the_input_of_each_child() {
    let child = || Model::default().with_input_ports(vec!["in"]).with_output_ports(vec!["out"]);
    let model = Model::default()
        .with_input_ports(vec!["feed"])
        .with_submodel("b", child())
        .with_submodel("a", child())
        .with_input_coupling(("feed", "b", "in"))
        .with_internal_coupling(("b", "out", "a", "in"));
    let mut sim = Simulator::new("top".to_owned(), model, 0);
    sim.mail.push(MailItem { model_name: "b".to_owned(), y_bag: vec![msg("out", 7)] });
    let bags = sim.get_submodels_x_bags(&vec![msg("feed", 1)]);
    assert_eq!(bags.len(), 2);
    assert_eq!(seen(&bags[0]), vec![at("in", 7)]);
    assert_eq!(seen(&bags[1]), vec![at("in", 1)]);
}
