use exdsdevs::containers::{MailItem, Msg};
use exdsdevs::logger::{
    get_bag_val, get_mail_val, log_bag_from_bag, log_mail_from_mail, record_line, LogEvent,
    Logger,
};
use exdsdevs::time::Time;
use serde_json::Value;

fn object(members: Vec<(&str, Value)>) -> Value {
    let mut map = serde_json::Map::new();
    for (key, value) in members {
        map.insert(key.to_owned(), value);
    }
    Value::Object(map)
}

fn msg_json(port: &str, value: Value) -> Value {
    object(vec![("PORT", Value::from(port)), ("VALUE", value)])
}

fn bag() -> Vec<Msg> {
    vec![Msg::new("in", Value::from(4)), Msg::new("aux", Value::from("x"))]
}

fn bag_json() -> Value {
    Value::Array(vec![msg_json("in", Value::from(4)), msg_json("aux", Value::from("x"))])
}

#[test]
fn kept_bags_and_mail_hold_the_same_messages() {
    let kept = log_bag_from_bag(&bag());
    assert_eq!(kept.len(), 2);
    assert_eq!(kept[0].port, "in");
    assert_eq!(kept[0].value, Value::from(4));
    assert_eq!(kept[1].port, "aux");
    assert_eq!(get_bag_val(kept), bag_json());

    let mail = vec![
        MailItem { model_name: "a".to_owned(), y_bag: bag() },
        MailItem { model_name: "b".to_owned(), y_bag: Vec::new() },
    ];
    let kept = log_mail_from_mail(&mail);
    assert_eq!(
        get_mail_val(kept),
        Value::Array(vec![
            object(vec![("a", bag_json())]),
            object(vec![("b", Value::Array(vec![]))])
        ])
    );
}

#[test]
fn init_leaves_a_record() {
    let mut logger = Logger::new();
    let record = logger
        .on_init(Time::Value(0), Value::from(7), Value::from("IDLE"), Time::Inf)
        .unwrap();
    assert_eq!(logger.last_state, Value::from("IDLE"));
    assert_eq!(
        record,
        object(vec![
            ("TIME", Value::from(0)),
            ("EVENT", Value::from("INIT")),
            ("INIT_VALUE", Value::from(7)),
            ("INIT_STATE", Value::from("IDLE")),
            ("TIME_NEXT", Value::from("Inf")),
        ])
    );
}

#[test]
fn outputs_leave_a_record() {
    let logger = Logger::new();
    let record = logger.on_outputs(Time::Value(3), &bag(), Time::Value(3)).unwrap();
    assert_eq!(
        record,
        object(vec![
            ("TIME", Value::from(3)),
            ("EVENT", Value::from("OUTPUTS")),
            ("BAG", bag_json()),
            ("TIME_NEXT", Value::from(3)),
        ])
    );
}

#[test]
fn an_internal_transition_leaves_a_record_when_it_ends() {
    let mut logger = Logger::new();
    logger.before_internal_transition(Time::Value(2), Value::from("A"));
    let record = logger.after_internal_transition(Value::from("B"), Time::Value(5)).unwrap();
    assert_eq!(
        record,
        object(vec![
            ("TIME", Value::from(2)),
            ("EVENT", Value::from("INTERNAL_TRANSITION")),
            ("FROM", Value::from("A")),
            ("TO", Value::from("B")),
            ("TIME_NEXT", Value::from(5)),
        ])
    );
    assert!(logger.after_internal_transition(Value::from("C"), Time::Value(6)).is_none());
}

#[test]
fn an_external_transition_leaves_a_record_when_it_ends() {
    let mut logger = Logger::new();
    logger.before_external_transition(Time::Value(2), Value::from("A"), &bag(), Time::Value(1));
    let record = logger.after_external_transition(Value::from("B"), Time::StopSim).unwrap();
    assert_eq!(
        record,
        object(vec![
            ("TIME", Value::from(2)),
            ("EVENT", Value::from("EXTERNAL_TRANSITION")),
            ("FROM", Value::from("A")),
            ("TO", Value::from("B")),
            ("TIME_NEXT", Value::from("StopSim")),
            ("X_BAG", bag_json()),
            ("ELAPSED", Value::from(1)),
        ])
    );
}

#[test]
fn a_mail_transition_leaves_a_record_when_it_ends() {
    let mail = vec![MailItem { model_name: "kid".to_owned(), y_bag: bag() }];
    let mut logger = Logger::new();
    logger.before_external_mail_transition(Time::Value(4), Value::Null, &mail, Time::Value(4));
    let record = logger.after_external_mail_transition(Value::Null, Time::Inf).unwrap();
    assert_eq!(
        record,
        object(vec![
            ("TIME", Value::from(4)),
            ("EVENT", Value::from("EXTERNAL_MAIL_TRANSITION")),
            ("FROM", Value::Null),
            ("TO", Value::Null),
            ("TIME_NEXT", Value::from("Inf")),
            ("MAIL", Value::Array(vec![object(vec![("kid", bag_json())])])),
            ("ELAPSED", Value::from(4)),
        ])
    );
}

#[test]
fn a_confluent_transition_leaves_a_record_when_it_ends() {
    let mut logger = Logger::new();
    logger.before_confluent_transition(Time::Value(10), Value::from(1), &bag());
    let record = logger.after_confluent_transition(Value::from(2), Time::Value(11)).unwrap();
    assert_eq!(
        record,
        object(vec![
            ("TIME", Value::from(10)),
            ("EVENT", Value::from("CONFLUENT_TRANSITION")),
            ("FROM", Value::from(1)),
            ("TO", Value::from(2)),
            ("X_BAG", bag_json()),
            ("TIME_NEXT", Value::from(11)),
        ])
    );
}

#[test]
fn the_transitions_of_the_children_leave_a_record() {
    let mut logger = Logger::new();
    assert_eq!(logger.last_state, Value::Null);
    logger.on_init(Time::Value(0), Value::Null, Value::from("A"), Time::Value(8));
    let record =
        logger.after_submodels_transition(Value::from("B"), Time::Value(8), Time::Value(9)).unwrap();
    assert_eq!(
        record,
        object(vec![
            ("TIME", Value::from(8)),
            ("EVENT", Value::from("AFTER_SUBMODELS_TRANSITION")),
            ("FROM", Value::from("A")),
            ("TO", Value::from("B")),
            ("TIME_NEXT", Value::from(9)),
        ])
    );
    logger.before_internal_transition(Time::Value(9), Value::from("B"));
    logger.after_internal_transition(Value::from("C"), Time::Value(12));
    let record =
        logger.after_submodels_transition(Value::from("D"), Time::Value(9), Time::Inf).unwrap();
    assert_eq!(
        record,
        object(vec![
            ("TIME", Value::from(9)),
            ("EVENT", Value::from("AFTER_SUBMODELS_TRANSITION")),
            ("FROM", Value::from("C")),
            ("TO", Value::from("D")),
            ("TIME_NEXT", Value::from("Inf")),
        ])
    );
    assert_eq!(logger.last_state, Value::from("D"));
}

#[test]
fn an_end_without_its_beginning_leaves_no_record() {
    let mut logger = Logger::new();
    assert!(logger.after_internal_transition(Value::Null, Time::Inf).is_none());
    logger.before_internal_transition(Time::Value(1), Value::Null);
    assert!(logger.after_external_transition(Value::Null, Time::Inf).is_none());
    assert!(logger.after_internal_transition(Value::Null, Time::Inf).is_none());
    logger.before_confluent_transition(Time::Value(1), Value::Null, &Vec::new());
    assert!(logger.after_external_mail_transition(Value::Null, Time::Inf).is_none());
    assert!(logger.after_confluent_transition(Value::Null, Time::Inf).is_none());
}

#[test]
fn what_is_pending_leaves_no_record() {
    let pending = [
        LogEvent::Nothing,
        LogEvent::PreInternalTransition { sim_time: Time::Value(1), from_state: Value::Null },
        LogEvent::PreConfluentTransition {
            sim_time: Time::Value(1),
            from_state: Value::Null,
            log_x_bag: Vec::new(),
        },
    ];
    for event in pending {
        assert!(event.into_record().is_none());
    }
}

#[test]
fn a_record_becomes_one_line() {
    let record = object(vec![("TIME", Value::from(2)), ("EVENT", Value::from("INIT"))]);
    assert_eq!(record_line(&record).unwrap(), "{\"EVENT\":\"INIT\",\"TIME\":2}\n");
    assert_eq!(record_line(&Value::Null).unwrap(), "null\n");
}
