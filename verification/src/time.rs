//! The time axis of a simulation.

use crate::errors::ExdsdevsError;
use crate::json::{integer_value, json_integer, json_text, text_value};
use serde_json::Value;
use std::cmp::Ordering;
use std::ops::{Add, Sub};
use vstd::prelude::*;
use vstd::std_specs::cmp::PartialOrdSpec;

verus! {

#[verifier::external_type_specification]
#[verifier::external_body]
pub struct ExParseIntError(std::num::ParseIntError);

/// The integer that `text` stands for in decimal, if it stands for one
/// that an `i64` holds.
pub uninterp spec fn decimal_integer(text: Seq<char>) -> Option<i64>;

/// Reads a decimal integer. This is `str::parse::<i64>`, which computes
/// its result from the text alone: the integer that the text stands for,
/// or an error where it stands for none that an `i64` holds.
#[verifier::external_body]
pub(crate) fn parse_integer(text: &str) -> (number: Result<i64, std::num::ParseIntError>)
    ensures
        match number {
            Ok(n) => decimal_integer(text@) == Some(n),
            Err(_) => decimal_integer(text@) is None,
        },
{
    text.parse::<i64>()
}

/// An instant of simulated time.
///
/// The axis is totally ordered: `StopSim` lies below every finite instant,
/// finite instants are ordered as their integers, and `Inf` lies above them
/// all. The variants are declared from the lowest to the highest.
#[derive(Clone, Copy, Debug, PartialEq, Eq, Structural, Ord)]
pub enum Time {
    /// The request to end the simulation.
    StopSim,
    /// A finite instant.
    Value(i64),
    /// The time of an event that never comes: the passive state.
    Inf,
}

impl Time {
    /// Whether `self` lies strictly below `other` on the axis.
    pub open spec fn before(self, other: Time) -> bool {
        match (self, other) {
            (Time::StopSim, Time::StopSim) => false,
            (Time::StopSim, _) => true,
            (Time::Value(a), Time::Value(b)) => a < b,
            (Time::Value(_), Time::Inf) => true,
            _ => false,
        }
    }

    /// Whether `self` lies below `other` or is the same instant.
    pub open spec fn at_most(self, other: Time) -> bool {
        self == other || self.before(other)
    }

    /// The lower of two instants.
    pub open spec fn earlier(self, other: Time) -> Time {
        if other.before(self) {
            other
        } else {
            self
        }
    }

    /// The finite instant `value`.
    pub fn new(value: i64) -> (t: Time)
        ensures
            t == Time::Value(value),
    {
        Time::Value(value)
    }

    /// The instant that is never reached.
    pub fn inf() -> (t: Time)
        ensures
            t == Time::Inf,
    {
        Time::Inf
    }

    /// The request to end the simulation.
    pub fn stop() -> (t: Time)
        ensures
            t == Time::StopSim,
    {
        Time::StopSim
    }

    /// Whether the sum of two instants can be held: only the sum of two
    /// finite instants can be too large or too small.
    pub open spec fn sum_fits(self, rhs: Time) -> bool {
        match (self, rhs) {
            (Time::Value(a), Time::Value(b)) => i64::MIN <= a + b <= i64::MAX,
            _ => true,
        }
    }

    /// The sum of two instants. `Inf` absorbs everything, `StopSim` adds
    /// nothing to a finite instant, and finite instants add as integers.
    pub open spec fn plus(self, rhs: Time) -> Time {
        match (self, rhs) {
            (Time::Inf, _) => Time::Inf,
            (_, Time::Inf) => Time::Inf,
            (Time::Value(a), Time::Value(b)) => Time::Value((a + b) as i64),
            (Time::StopSim, Time::StopSim) => Time::StopSim,
            (Time::Value(a), Time::StopSim) => Time::Value(a),
            (Time::StopSim, Time::Value(b)) => Time::Value(b),
        }
    }

    /// Whether the difference of two instants can be held.
    pub open spec fn difference_fits(self, rhs: Time) -> bool {
        match (self, rhs) {
            (Time::Value(a), Time::Value(b)) => i64::MIN <= a - b <= i64::MAX,
            _ => true,
        }
    }

    /// The difference of two instants, with the same rules as `plus`.
    pub open spec fn minus(self, rhs: Time) -> Time {
        match (self, rhs) {
            (Time::Inf, _) => Time::Inf,
            (_, Time::Inf) => Time::Inf,
            (Time::Value(a), Time::Value(b)) => Time::Value((a - b) as i64),
            (Time::StopSim, Time::StopSim) => Time::StopSim,
            (Time::Value(a), Time::StopSim) => Time::Value(a),
            (Time::StopSim, Time::Value(b)) => Time::Value(b),
        }
    }

    /// The sum of two instants, or `None` where two finite instants add up
    /// to more than an `i64` holds.
    pub fn checked_add(self, rhs: Time) -> (sum: Option<Time>)
        ensures
            sum == if self.sum_fits(rhs) {
                Some(self.plus(rhs))
            } else {
                None::<Time>
            },
    {
        match (self, rhs) {
            (Time::Inf, _) => Some(Time::Inf),
            (_, Time::Inf) => Some(Time::Inf),
            (Time::Value(a), Time::Value(b)) => match a.checked_add(b) {
                Some(c) => Some(Time::Value(c)),
                None => None,
            },
            (Time::StopSim, Time::StopSim) => Some(Time::StopSim),
            (Time::Value(a), Time::StopSim) => Some(Time::Value(a)),
            (Time::StopSim, Time::Value(b)) => Some(Time::Value(b)),
        }
    }

    /// The difference of two instants, or `None` where two finite instants
    /// lie further apart than an `i64` holds.
    pub fn checked_sub(self, rhs: Time) -> (difference: Option<Time>)
        ensures
            difference == if self.difference_fits(rhs) {
                Some(self.minus(rhs))
            } else {
                None::<Time>
            },
    {
        match (self, rhs) {
            (Time::Inf, _) => Some(Time::Inf),
            (_, Time::Inf) => Some(Time::Inf),
            (Time::Value(a), Time::Value(b)) => match a.checked_sub(b) {
                Some(c) => Some(Time::Value(c)),
                None => None,
            },
            (Time::StopSim, Time::StopSim) => Some(Time::StopSim),
            (Time::Value(a), Time::StopSim) => Some(Time::Value(a)),
            (Time::StopSim, Time::Value(b)) => Some(Time::Value(b)),
        }
    }

    /// The instant that a text was read as: the finite instant of the
    /// integer that was read, or the error `ErrorParseInt` where none was.
    pub fn from_parsed(number: Result<i64, std::num::ParseIntError>) -> (time: Result<
        Time,
        ExdsdevsError,
    >)
        ensures
            match number {
                Ok(n) => time == Ok::<Time, ExdsdevsError>(Time::Value(n)),
                Err(_) => time matches Err(error) && error is ErrorParseInt,
            },
    {
        match number {
            Ok(n) => Ok(Time::Value(n)),
            Err(error) => Err(ExdsdevsError::from(error)),
        }
    }

    /// The instant that `value` stands for: `Inf` and `StopSim` stand for
    /// themselves, and a decimal integer for its finite instant. The error
    /// is `ErrorParseInt`, exactly if the text is none of these.
    pub fn try_from(value: &str) -> (time: Result<Time, ExdsdevsError>)
        ensures
            match time {
                Ok(Time::Inf) => value@ == "Inf"@,
                Ok(Time::StopSim) => value@ == "StopSim"@,
                Ok(Time::Value(n)) => value@ != "Inf"@ && value@ != "StopSim"@ && decimal_integer(
                    value@,
                ) == Some(n),
                Err(error) => value@ != "Inf"@ && value@ != "StopSim"@ && decimal_integer(value@)
                    is None && error is ErrorParseInt,
            },
    {
        let text = value.to_owned();
        if text == "Inf".to_owned() {
            Ok(Time::Inf)
        } else if text == "StopSim".to_owned() {
            Ok(Time::StopSim)
        } else {
            Time::from_parsed(parse_integer(value))
        }
    }

    /// The instant as text: `Inf`, `StopSim`, or the decimal digits of a
    /// finite instant, as the standard library writes an `i64`.
    pub fn to_string(&self) -> (text: String)
        ensures
            match *self {
                Time::Inf => text@ == "Inf"@,
                Time::StopSim => text@ == "StopSim"@,
                Time::Value(n) => vstd::string::to_string_from_display_ensures::<i64>(&n, text),
            },
    {
        match self {
            Time::Inf => "Inf".to_owned(),
            Time::StopSim => "StopSim".to_owned(),
            Time::Value(n) => n.to_string(),
        }
    }

    /// The JSON value that stands for an instant: a number for a finite
    /// instant, the string `Inf` or `StopSim` for the two others.
    pub open spec fn json(self) -> Value {
        match self {
            Time::Inf => json_text("Inf"@),
            Time::Value(n) => json_integer(n),
            Time::StopSim => json_text("StopSim"@),
        }
    }

    /// The JSON value that stands for the instant.
    pub fn to_value(&self) -> (json: Value)
        ensures
            json == self.json(),
    {
        match self {
            Time::Inf => text_value("Inf".to_owned()),
            Time::Value(n) => integer_value(*n),
            Time::StopSim => text_value("StopSim".to_owned()),
        }
    }

    /// The lower of two instants.
    pub fn min(self, other: Time) -> (t: Time)
        ensures
            t == self.earlier(other),
    {
        if other < self {
            other
        } else {
            self
        }
    }
}

impl PartialOrd for Time {
    fn partial_cmp(&self, other: &Time) -> (o: Option<Ordering>) {
        match (*self, *other) {
            (Time::StopSim, Time::StopSim) => Some(Ordering::Equal),
            (Time::StopSim, _) => Some(Ordering::Less),
            (_, Time::StopSim) => Some(Ordering::Greater),
            (Time::Value(a), Time::Value(b)) => {
                if a < b {
                    Some(Ordering::Less)
                } else if a == b {
                    Some(Ordering::Equal)
                } else {
                    Some(Ordering::Greater)
                }
            },
            (Time::Value(_), Time::Inf) => Some(Ordering::Less),
            (Time::Inf, Time::Value(_)) => Some(Ordering::Greater),
            (Time::Inf, Time::Inf) => Some(Ordering::Equal),
        }
    }
}

impl vstd::std_specs::cmp::PartialOrdSpecImpl for Time {
    open spec fn obeys_partial_cmp_spec() -> bool {
        true
    }

    open spec fn partial_cmp_spec(&self, other: &Time) -> Option<Ordering> {
        if self.before(*other) {
            Some(Ordering::Less)
        } else if *self == *other {
            Some(Ordering::Equal)
        } else {
            Some(Ordering::Greater)
        }
    }
}

impl Add for Time {
    type Output = Time;

    fn add(self, rhs: Time) -> (sum: Time) {
        match (self, rhs) {
            (Time::Inf, _) => Time::Inf,
            (_, Time::Inf) => Time::Inf,
            (Time::Value(a), Time::Value(b)) => Time::Value(a + b),
            (Time::StopSim, Time::StopSim) => Time::StopSim,
            (Time::Value(a), Time::StopSim) => Time::Value(a),
            (Time::StopSim, Time::Value(b)) => Time::Value(b),
        }
    }
}

impl vstd::std_specs::ops::AddSpecImpl for Time {
    open spec fn obeys_add_spec() -> bool {
        true
    }

    open spec fn add_req(self, rhs: Time) -> bool {
        self.sum_fits(rhs)
    }

    open spec fn add_spec(self, rhs: Time) -> Time {
        self.plus(rhs)
    }
}

impl Sub for Time {
    type Output = Time;

    fn sub(self, rhs: Time) -> (difference: Time) {
        match (self, rhs) {
            (Time::Inf, _) => Time::Inf,
            (_, Time::Inf) => Time::Inf,
            (Time::Value(a), Time::Value(b)) => Time::Value(a - b),
            (Time::StopSim, Time::StopSim) => Time::StopSim,
            (Time::Value(a), Time::StopSim) => Time::Value(a),
            (Time::StopSim, Time::Value(b)) => Time::Value(b),
        }
    }
}

impl vstd::std_specs::ops::SubSpecImpl for Time {
    open spec fn obeys_sub_spec() -> bool {
        true
    }

    open spec fn sub_req(self, rhs: Time) -> bool {
        self.difference_fits(rhs)
    }

    open spec fn sub_spec(self, rhs: Time) -> Time {
        self.minus(rhs)
    }
}

/// The order of instants is total: of two instants exactly one lies below
/// the other, unless they are the same instant.
pub proof fn order_is_total(a: Time, b: Time)
    ensures
        a.before(b) || a == b || b.before(a),
        !(a.before(b) && b.before(a)),
        !(a.before(b) && a == b),
{
}

/// The order of instants is transitive.
pub proof fn order_is_transitive(a: Time, b: Time, c: Time)
    requires
        a.before(b),
        b.before(c),
    ensures
        a.before(c),
{
}

/// Comparing an instant with itself gives `Equal`.
pub proof fn order_is_reflexive(x: Time)
    ensures
        x.partial_cmp_spec(&x) == Some(Ordering::Equal),
        x.at_most(x),
        !x.before(x),
{
}

/// `StopSim` lies below every finite instant, and every finite instant
/// below `Inf`.
pub proof fn finite_instants_lie_between(n: i64)
    ensures
        Time::StopSim.before(Time::Value(n)),
        Time::Value(n).before(Time::Inf),
        Time::StopSim.before(Time::Inf),
{
}

/// `Inf` absorbs whatever is added to it, on either side.
pub proof fn inf_absorbs(x: Time)
    ensures
        Time::Inf.sum_fits(x),
        Time::Inf.plus(x) == Time::Inf,
        x.plus(Time::Inf) == Time::Inf,
        Time::Inf.minus(x) == Time::Inf,
{
}

/// Finite instants add as their integers do, as long as the sum can be held.
pub proof fn finite_instants_add(a: i64, b: i64)
    requires
        i64::MIN <= a + b <= i64::MAX,
    ensures
        Time::Value(a).sum_fits(Time::Value(b)),
        Time::Value(a).plus(Time::Value(b)) == Time::Value((a + b) as i64),
        Time::Value(a).plus(Time::Value(b))->Value_0 == a + b,
{
}

/// The lower of two instants is one of them and lies above neither.
pub proof fn earlier_is_the_minimum(a: Time, b: Time)
    ensures
        a.earlier(b) == a || a.earlier(b) == b,
        a.earlier(b).at_most(a),
        a.earlier(b).at_most(b),
        a.earlier(b) == b.earlier(a),
{
}

} // verus!
