use exdsdevs::errors::ExdsdevsError;
use exdsdevs::time::Time;
use serde_json::Value;
use std::cmp::Ordering;

fn samples() -> Vec<Time> {
    vec![
        Time::StopSim,
        Time::Value(i64::MIN),
        Time::Value(-3),
        Time::Value(0),
        Time::Value(7),
        Time::Value(i64::MAX),
        Time::Inf,
    ]
}

#[test]
fn constructors_give_the_variants() {
    assert_eq!(Time::new(5), Time::Value(5));
    assert_eq!(Time::inf(), Time::Inf);
    assert_eq!(Time::stop(), Time::StopSim);
}

#[test]
fn order_is_total_on_samples() {
    let all = samples();
    for (i, a) in all.iter().enumerate() {
        for (j, b) in all.iter().enumerate() {
            let expected = i.cmp(&j);
            assert_eq!(a.partial_cmp(b), Some(expected), "{:?} against {:?}", a, b);
            assert_eq!(a.cmp(b), expected, "{:?} against {:?}", a, b);
            assert_eq!(a < b, i < j);
            assert_eq!(a <= b, i <= j);
            assert_eq!(a == b, i == j);
        }
    }
}

#[test]
fn comparing_an_instant_with_itself_gives_equal() {
    for t in samples() {
        assert_eq!(t.cmp(&t), Ordering::Equal);
        assert_eq!(t.partial_cmp(&t), Some(Ordering::Equal));
        assert!(t == t);
    }
}

#[test]
fn stop_lies_below_finite_and_finite_below_inf() {
    for n in [i64::MIN, -1, 0, 1, i64::MAX] {
        assert!(Time::StopSim < Time::Value(n));
        assert!(Time::Value(n) < Time::Inf);
    }
    assert!(Time::StopSim < Time::Inf);
}

#[test]
fn min_gives_the_lower_instant() {
    assert_eq!(Time::Value(3).min(Time::Value(8)), Time::Value(3));
    assert_eq!(Time::Value(8).min(Time::Value(3)), Time::Value(3));
    assert_eq!(Time::Inf.min(Time::Value(3)), Time::Value(3));
    assert_eq!(Time::Inf.min(Time::Inf), Time::Inf);
    assert_eq!(Time::Value(3).min(Time::StopSim), Time::StopSim);
}

#[test]
fn inf_absorbs_whatever_is_added() {
    for t in samples() {
        assert_eq!(Time::Inf + t, Time::Inf);
        assert_eq!(t + Time::Inf, Time::Inf);
        assert_eq!(Time::Inf - t, Time::Inf);
        assert_eq!(t - Time::Inf, Time::Inf);
    }
}

#[test]
fn finite_instants_add_and_subtract_as_integers() {
    assert_eq!(Time::Value(2) + Time::Value(40), Time::Value(42));
    assert_eq!(Time::Value(-2) + Time::Value(2), Time::Value(0));
    assert_eq!(Time::Value(10) - Time::Value(4), Time::Value(6));
    assert_eq!(Time::Value(4) - Time::Value(10), Time::Value(-6));
}

#[test]
fn stop_adds_nothing_to_a_finite_instant() {
    assert_eq!(Time::Value(9) + Time::StopSim, Time::Value(9));
    assert_eq!(Time::StopSim + Time::Value(9), Time::Value(9));
    assert_eq!(Time::Value(9) - Time::StopSim, Time::Value(9));
    assert_eq!(Time::StopSim - Time::Value(9), Time::Value(9));
    assert_eq!(Time::StopSim + Time::StopSim, Time::StopSim);
    assert_eq!(Time::StopSim - Time::StopSim, Time::StopSim);
}

#[test]
fn checked_arithmetic_reports_what_cannot_be_held() {
    assert_eq!(Time::Value(1).checked_add(Time::Value(2)), Some(Time::Value(3)));
    assert_eq!(Time::Value(i64::MAX).checked_add(Time::Value(1)), None);
    assert_eq!(Time::Value(i64::MIN).checked_add(Time::Value(-1)), None);
    assert_eq!(Time::Value(i64::MAX).checked_add(Time::Inf), Some(Time::Inf));
    assert_eq!(Time::Value(i64::MIN).checked_sub(Time::Value(1)), None);
    assert_eq!(Time::Value(i64::MAX).checked_sub(Time::Value(-1)), None);
    assert_eq!(Time::Value(5).checked_sub(Time::Value(7)), Some(Time::Value(-2)));
    assert_eq!(Time::StopSim.checked_add(Time::StopSim), Some(Time::StopSim));
}

#[test]
fn instants_are_read_from_text() {
    assert_eq!(Time::try_from("Inf").unwrap(), Time::Inf);
    assert_eq!(Time::try_from("StopSim").unwrap(), Time::StopSim);
    assert_eq!(Time::try_from("0").unwrap(), Time::Value(0));
    assert_eq!(Time::try_from("-17").unwrap(), Time::Value(-17));
    assert_eq!(Time::try_from("+8").unwrap(), Time::Value(8));
    assert_eq!(Time::try_from("9223372036854775807").unwrap(), Time::Value(i64::MAX));
}

#[test]
fn text_that_is_no_instant_is_an_error() {
    for text in ["", "inf", "Infinity", "1.5", "12a", "9223372036854775808", " 3"] {
        match Time::try_from(text) {
            Err(ExdsdevsError::ErrorParseInt(_)) => {}
            other => panic!("{:?} was read as {:?}", text, other),
        }
    }
}

#[test]
fn instants_are_written_as_text() {
    assert_eq!(Time::Inf.to_string(), "Inf");
    assert_eq!(Time::StopSim.to_string(), "StopSim");
    assert_eq!(Time::Value(0).to_string(), "0");
    assert_eq!(Time::Value(-45).to_string(), "-45");
    assert_eq!(Time::Value(i64::MAX).to_string(), "9223372036854775807");
}

#[test]
fn text_of_an_instant_is_read_back() {
    for t in samples() {
        assert_eq!(Time::try_from(t.to_string().as_str()).unwrap(), t);
    }
}

#[test]
fn instants_become_json_values() {
    assert_eq!(Time::Inf.to_value(), Value::String("Inf".to_owned()));
    assert_eq!(Time::StopSim.to_value(), Value::String("StopSim".to_owned()));
    assert_eq!(Time::Value(12).to_value(), Value::from(12));
    assert_eq!(Time::Value(-1).to_value(), Value::from(-1));
    assert_ne!(Time::Value(12).to_value(), Value::from(13));
    assert_ne!(Time::Value(12).to_value(), Value::String("12".to_owned()));
}
