use exdsdevs::containers::{bag_to_value, MailItem, Msg, Outputs};
use exdsdevs::errors::ExdsdevsError;
use serde_json::Value;

fn object(members: Vec<(&str, Value)>) -> Value {
    let mut map = serde_json::Map::new();
    for (key, value) in members {
        map.insert(key.to_owned(), value);
    }
    Value::Object(map)
}

#[test]
fn a_message_keeps_its_port_and_value() {
    let msg = Msg::new("out", Value::from(3));
    assert_eq!(msg.port(), "out");
    assert_eq!(msg.value(), &Value::from(3));
}

#[test]
fn a_forwarded_message_changes_only_its_port() {
    let msg = Msg::new("out", Value::from("ball"));
    let forwarded = msg.forwarded(&"in".to_owned());
    assert_eq!(forwarded.port(), "in");
    assert_eq!(forwarded.value(), &Value::from("ball"));
    assert_eq!(msg.port(), "out");
}

#[test]
fn outputs_keep_the_order_of_what_is_put() {
    let mut outputs = Outputs::new();
    assert!(outputs.bag.is_empty());
    outputs.put("a", Value::from(1));
    outputs.put("b", Value::Null);
    outputs.put("a", Value::from(2));
    let seen: Vec<(String, Value)> =
        outputs.bag.iter().map(|m| (m.port().to_owned(), m.value().clone())).collect();
    assert_eq!(
        seen,
        vec![
            ("a".to_owned(), Value::from(1)),
            ("b".to_owned(), Value::Null),
            ("a".to_owned(), Value::from(2)),
        ]
    );
}

#[test]
fn a_message_becomes_a_json_object() {
    let msg = Msg::new("out", Value::from(3));
    assert_eq!(
        msg.to_value(),
        object(vec![("PORT", Value::from("out")), ("VALUE", Value::from(3))])
    );
}

#[test]
fn a_bag_becomes_a_json_array() {
    let bag = vec![Msg::new("x", Value::from(1)), Msg::new("y", Value::from(true))];
    assert_eq!(
        bag_to_value(&bag),
        Value::Array(vec![
            object(vec![("PORT", Value::from("x")), ("VALUE", Value::from(1))]),
            object(vec![("PORT", Value::from("y")), ("VALUE", Value::from(true))]),
        ])
    );
    assert_eq!(bag_to_value(&Vec::new()), Value::Array(vec![]));
}

#[test]
fn a_mail_item_becomes_a_json_object() {
    let item = MailItem {
        model_name: "child".to_owned(),
        y_bag: vec![Msg::new("out", Value::from(5))],
    };
    assert_eq!(
        item.to_value(),
        object(vec![(
            "child",
            Value::Array(vec![object(vec![
                ("PORT", Value::from("out")),
                ("VALUE", Value::from(5))
            ])])
        )])
    );
}

#[test]
fn errors_are_shown_with_their_label() {
    let shown = [
        (
            ExdsdevsError::ErrorFileSystem("a".to_owned()),
            "ExdsdevsError::ErrorFileSystem: a",
        ),
        (
            ExdsdevsError::ErrorParseJson("b".to_owned()),
            "ExdsdevsError::ErrorParseJson: b",
        ),
        (
            ExdsdevsError::ErrorParseInt("c".to_owned()),
            "ExdsdevsError::ErrorParseInt: c",
        ),
        (ExdsdevsError::ErrorSimTime("d".to_owned()), "ExdsdevsError::ErrorSimTime: d"),
        (
            ExdsdevsError::ErrorCartesian("e".to_owned()),
            "ExdsdevsError::ErrorCartesian: e",
        ),
        (
            ExdsdevsError::ErrorBuildSimulator("f".to_owned()),
            "ExdsdevsError::ErrorBuildSimulator: f",
        ),
        (
            ExdsdevsError::ErrorConfluent(String::new()),
            "ExdsdevsError::ErrorConfluent: ",
        ),
        (
            ExdsdevsError::ErrorTimeOverflow("far".to_owned()),
            "ExdsdevsError::ErrorTimeOverflow: far",
        ),
    ];
    for (error, text) in shown {
        assert_eq!(error.to_string(), text);
    }
}

#[test]
fn an_integer_error_becomes_a_parse_error() {
    let failure = "12a".parse::<i64>().unwrap_err();
    let text = failure.to_string();
    match ExdsdevsError::from(failure) {
        ExdsdevsError::ErrorParseInt(message) => assert_eq!(message, text),
        other => panic!("unexpected error {:?}", other),
    }
}

#[test]
fn a_json_error_becomes_a_parse_error() {
    let failure = serde_json::from_str::<Value>("{ not json").unwrap_err();
    let text = failure.to_string();
    match ExdsdevsError::from(failure) {
        ExdsdevsError::ErrorParseJson(message) => assert_eq!(message, text),
        other => panic!("unexpected error {:?}", other),
    }
}
