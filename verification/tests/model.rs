use exdsdevs::couplings::{unique_couplings, Coupling, Endpoint};
use exdsdevs::dynamic::{DefaultDynamic, Dynamic};
use exdsdevs::model::{Model, Submodel};
use exdsdevs::observer::Observer;
use exdsdevs::time::Time;
use rand::rngs::StdRng;
use serde_json::Value;

#[derive(Clone)]
struct TestDynamic {
    _state: u64,
}

impl Dynamic for TestDynamic {
    fn time_advance(&self, _rng: &mut StdRng) -> Time {
        Time::Inf
    }

    fn state(&self) -> Value {
        Value::from(self._state)
    }
}

struct Silent;

impl Observer for Silent {}

#[test]
fn build_model_ping_pong() {
    let s1_dynamic = TestDynamic { _state: 1 };
    let s2_dynamic = TestDynamic { _state: 0 };
    let s1 = Model {
        dynamic: Box::new(s1_dynamic),
        input_ports: vec![],
        output_ports: vec!["out".to_owned()],
        submodels: Vec::new(),
        input_couplings: vec![],
        internal_couplings: vec![],
        output_couplings: vec![],
        observers: Default::default(),
        default_init: Value::Null,
        init_variants: Vec::new(),
    };

    let s2 = Model {
        dynamic: Box::new(s2_dynamic),
        input_ports: vec![],
        output_ports: vec!["out".to_owned()],
        submodels: Vec::new(),
        input_couplings: vec![],
        internal_couplings: vec![],
        output_couplings: vec![],
        observers: Default::default(),
        default_init: Value::Null,
        init_variants: Vec::new(),
    };

    let _s0 = Model {
        dynamic: Box::new(DefaultDynamic),
        input_ports: Default::default(),
        output_ports: Default::default(),
        submodels: vec![
            Submodel { name: "s1".to_owned(), model: s1 },
            Submodel { name: "s2".to_owned(), model: s2 },
        ],
        input_couplings: Default::default(),
        internal_couplings: vec![Coupling {
            from: Endpoint::of_child("s1", "out"),
            to: Endpoint::of_child("s2", "in"),
        }],
        output_couplings: Default::default(),
        observers: Default::default(),
        default_init: Value::Null,
        init_variants: Vec::new(),
    };
}

fn names(model: &Model) -> Vec<String> {
    model.submodels.iter().map(|sub| sub.name.clone()).collect()
}

fn edge(coupling: &Coupling) -> (Option<String>, String, Option<String>, String) {
    (
        coupling.from.model.clone(),
        coupling.from.port.clone(),
        coupling.to.model.clone(),
        coupling.to.port.clone(),
    )
}

#[test]
fn the_default_model_is_empty_and_waits() {
    let model = Model::default();
    assert!(model.input_ports.is_empty());
    assert!(model.output_ports.is_empty());
    assert!(model.submodels.is_empty());
    assert!(model.input_couplings.is_empty());
    assert!(model.internal_couplings.is_empty());
    assert!(model.output_couplings.is_empty());
    assert!(model.observers.is_empty());
    assert!(model.init_variants.is_empty());
    assert_eq!(model.default_init, Value::Null);
    assert_eq!(model.dynamic.state(), Value::Null);
    assert!(model.check().is_ok());
}

#[test]
fn ports_are_named_once() {
    let model = Model::default().with_input_ports(vec!["a", "b"]).with_output_ports(vec!["c"]);
    assert_eq!(model.input_ports, vec!["a".to_owned(), "b".to_owned()]);
    assert_eq!(model.output_ports, vec!["c".to_owned()]);
}

#[test]
fn the_behaviour_is_replaced() {
    let model = Model::default().with_dynamic(TestDynamic { _state: 4 });
    assert_eq!(model.dynamic.state(), Value::from(4));
}

#[test]
fn children_stand_in_the_order_of_their_names() {
    let model = Model::default()
        .with_submodel("m", Model::default())
        .with_submodel("b", Model::default().with_default_init(Value::from("b")))
        .with_submodel("z", Model::default())
        .with_submodel("ma", Model::default())
        .with_submodel("B", Model::default())
        .with_submodel("", Model::default());
    assert_eq!(
        names(&model),
        vec![
            "".to_owned(),
            "B".to_owned(),
            "b".to_owned(),
            "m".to_owned(),
            "ma".to_owned(),
            "z".to_owned()
        ]
    );
    assert_eq!(model.submodels[2].model.default_init, Value::from("b"));
    assert!(model.has_submodel("ma"));
    assert!(!model.has_submodel("a"));
    assert!(model.check().is_ok());
}

#[test]
fn a_coupling_is_kept_once() {
    let model = Model::default()
        .with_input_coupling(("in", "a", "x"))
        .with_input_coupling(("in", "b", "x"))
        .with_input_coupling(("in", "a", "x"))
        .with_internal_coupling(("a", "out", "b", "x"))
        .with_internal_coupling(("a", "out", "b", "x"))
        .with_internal_coupling(("b", "out", "a", "x"))
        .with_output_coupling(("a", "out", "up"))
        .with_output_coupling(("a", "out", "up"));
    let some = |text: &str| Some(text.to_owned());
    let text = |text: &str| text.to_owned();
    assert_eq!(
        model.input_couplings.iter().map(edge).collect::<Vec<_>>(),
        vec![
            (None, text("in"), some("a"), text("x")),
            (None, text("in"), some("b"), text("x")),
        ]
    );
    assert_eq!(
        model.internal_couplings.iter().map(edge).collect::<Vec<_>>(),
        vec![
            (some("a"), text("out"), some("b"), text("x")),
            (some("b"), text("out"), some("a"), text("x")),
        ]
    );
    assert_eq!(
        model.output_couplings.iter().map(edge).collect::<Vec<_>>(),
        vec![(some("a"), text("out"), None, text("up"))]
    );
}

#[test]
fn couplings_without_repeats_keep_their_first_places() {
    let make = |from: &str, to: &str| Coupling {
        from: Endpoint::of_child(from, "out"),
        to: Endpoint::of_child(to, "in"),
    };
    let unique = unique_couplings(vec![
        make("a", "b"),
        make("b", "c"),
        make("a", "b"),
        make("c", "a"),
        make("b", "c"),
    ]);
    let seen: Vec<(Option<String>, Option<String>)> =
        unique.iter().map(|c| (c.from.model.clone(), c.to.model.clone())).collect();
    let pair = |a: &str, b: &str| (Some(a.to_owned()), Some(b.to_owned()));
    assert_eq!(seen, vec![pair("a", "b"), pair("b", "c"), pair("c", "a")]);
    assert!(make("a", "b").same(&make("a", "b")));
    assert!(!make("a", "b").same(&make("b", "a")));
    assert!(!Endpoint::own("x").same(&Endpoint::of_child("", "x")));
}

#[test]
fn an_observer_of_a_known_name_takes_the_place_of_the_old_one() {
    let model = Model::default()
        .with_observer("second", Silent)
        .with_observer("first", Silent)
        .with_observer("second", Silent)
        .with_observer("third", Silent);
    let given: Vec<String> = model.observers.iter().map(|o| o.name.clone()).collect();
    assert_eq!(given, vec!["second".to_owned(), "first".to_owned(), "third".to_owned()]);
}

#[test]
fn an_initial_value_of_a_known_name_takes_the_place_of_the_old_one() {
    let model = Model::default()
        .with_init_variant("low", Value::from(1))
        .with_init_variant("high", Value::from(9))
        .with_init_variant("low", Value::from(2));
    assert_eq!(
        model.init_variants,
        vec![("low".to_owned(), Value::from(2)), ("high".to_owned(), Value::from(9))]
    );
}

fn pair() -> Model {
    Model::default()
        .with_input_ports(vec!["feed"])
        .with_output_ports(vec!["result"])
        .with_submodel(
            "a",
            Model::default().with_input_ports(vec!["in"]).with_output_ports(vec!["out"]),
        )
        .with_submodel(
            "b",
            Model::default().with_input_ports(vec!["in"]).with_output_ports(vec!["out"]),
        )
}

#[test]
fn a_model_whose_couplings_fit_passes_the_check() {
    let model = pair()
        .with_input_coupling(("feed", "a", "in"))
        .with_internal_coupling(("a", "out", "b", "in"))
        .with_internal_coupling(("b", "out", "b", "in"))
        .with_output_coupling(("b", "out", "result"));
    assert!(model.check().is_ok());
}

#[test]
fn a_coupling_to_what_does_not_exist_fails_the_check() {
    assert!(pair().with_input_coupling(("nothing", "a", "in")).check().is_err());
    assert!(pair().with_input_coupling(("feed", "c", "in")).check().is_err());
    assert!(pair().with_input_coupling(("feed", "a", "out")).check().is_err());
    assert!(pair().with_internal_coupling(("a", "in", "b", "in")).check().is_err());
    assert!(pair().with_internal_coupling(("a", "out", "b", "out")).check().is_err());
    assert!(pair().with_internal_coupling(("c", "out", "b", "in")).check().is_err());
    assert!(pair().with_output_coupling(("a", "out", "feed")).check().is_err());
    assert!(pair().with_output_coupling(("a", "in", "result")).check().is_err());
}

#[test]
fn a_coupling_in_the_wrong_list_fails_the_check() {
    let mut model = pair();
    model.input_couplings.push(Coupling {
        from: Endpoint::of_child("a", "out"),
        to: Endpoint::of_child("b", "in"),
    });
    assert!(model.check().is_err());
    let mut model = pair();
    model.output_couplings.push(Coupling {
        from: Endpoint::own("feed"),
        to: Endpoint::of_child("b", "in"),
    });
    assert!(model.check().is_err());
}

#[test]
fn a_fault_below_fails_the_check_of_the_whole() {
    let broken = Model::default()
        .with_submodel("x", Model::default())
        .with_output_coupling(("x", "out", "up"));
    assert!(broken.check().is_err());
    let model = Model::default().with_submodel("inner", broken);
    assert!(model.check().is_err());
}

#[test]
fn children_out_of_order_fail_the_check() {
    let mut model = pair();
    model.submodels.swap(0, 1);
    assert!(model.check().is_err());
    let mut twice = Model::default();
    twice.submodels.push(Submodel { name: "a".to_owned(), model: Model::default() });
    twice.submodels.push(Submodel { name: "a".to_owned(), model: Model::default() });
    assert!(twice.check().is_err());
}

#[test]
fn names_are_ordered_as_strings_are() {
    let names = ["", "a", "A", "ab", "abc", "b", "é", "e", "z", "日本", "日", "𝄞", "~", " a", "a "];
    for first in names {
        for second in names {
            assert_eq!(
                exdsdevs::names::comes_before(&first.to_owned(), &second.to_owned()),
                first < second,
                "{:?} against {:?}",
                first,
                second
            );
        }
    }
}

/// An observer that hands back its number when a simulation ends.
struct Numbered {
    number: i64,
}

impl Observer for Numbered {
    fn finish(
        &mut self,
        _: &exdsdevs::sim_model::SimModel,
        _: Time,
    ) -> Option<exdsdevs::containers::SimResult> {
        Some(exdsdevs::containers::SimResult { tags: Vec::new(), result: Value::from(self.number) })
    }
}

#[test]
fn a_model_holds_the_observer_that_was_given_last() {
    let mut model = Model::default()
        .with_observer("a", Numbered { number: 1 })
        .with_observer("b", Numbered { number: 2 })
        .with_observer("a", Numbered { number: 3 })
        .with_dynamic(TestDynamic { _state: 9 })
        .with_input_ports(vec!["in"])
        .with_submodel("kid", Model::default().with_dynamic(TestDynamic { _state: 8 }))
        .with_internal_coupling(("kid", "out", "kid", "in"))
        .with_default_init(Value::from(0));
    let (seen, _) = exdsdevs::sim_model::SimModel::new("m".to_owned(), Model::default());
    let answers: Vec<Value> = model
        .observers
        .iter_mut()
        .map(|named| named.observer.finish(&seen, Time::Inf).unwrap().result)
        .collect();
    assert_eq!(answers, vec![Value::from(3), Value::from(2)]);
    assert_eq!(model.dynamic.state(), Value::from(9));
    assert_eq!(model.submodels[0].model.dynamic.state(), Value::from(8));
}
