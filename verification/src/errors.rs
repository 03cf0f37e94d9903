//! The errors of the simulator.

use crate::json::error_text;
use vstd::prelude::*;

verus! {

/// What can go wrong while an experiment is read, built or run. Every
/// variant carries a message for the reader.
#[derive(Debug, Clone)]
pub enum ExdsdevsError {
    /// A file could not be read or written.
    ErrorFileSystem(String),
    /// A text is not the JSON that was expected.
    ErrorParseJson(String),
    /// A text is not a decimal integer.
    ErrorParseInt(String),
    /// A simulator was asked to act at a time at which it cannot: the tree
    /// has lost its synchronization.
    ErrorSimTime(String),
    /// The initial states of an experiment cannot be enumerated.
    ErrorCartesian(String),
    /// A model does not describe a simulator that can be built.
    ErrorBuildSimulator(String),
    /// An input arrived at a model at the very time of its own event, and
    /// its behaviour does not say what to do then.
    ErrorConfluent(String),
    /// A time of the simulation lies further out than can be held.
    ErrorTimeOverflow(String),
}

impl ExdsdevsError {
    /// The name under which a variant is shown, up to and including the
    /// colon and the blank before the message.
    pub open spec fn label(self) -> Seq<char> {
        match self {
            ExdsdevsError::ErrorFileSystem(_) => "ExdsdevsError::ErrorFileSystem: "@,
            ExdsdevsError::ErrorParseJson(_) => "ExdsdevsError::ErrorParseJson: "@,
            ExdsdevsError::ErrorParseInt(_) => "ExdsdevsError::ErrorParseInt: "@,
            ExdsdevsError::ErrorSimTime(_) => "ExdsdevsError::ErrorSimTime: "@,
            ExdsdevsError::ErrorCartesian(_) => "ExdsdevsError::ErrorCartesian: "@,
            ExdsdevsError::ErrorBuildSimulator(_) => "ExdsdevsError::ErrorBuildSimulator: "@,
            ExdsdevsError::ErrorConfluent(_) => "ExdsdevsError::ErrorConfluent: "@,
            ExdsdevsError::ErrorTimeOverflow(_) => "ExdsdevsError::ErrorTimeOverflow: "@,
        }
    }

    /// The message that a variant carries.
    pub open spec fn message(self) -> Seq<char> {
        match self {
            ExdsdevsError::ErrorFileSystem(m) => m@,
            ExdsdevsError::ErrorParseJson(m) => m@,
            ExdsdevsError::ErrorParseInt(m) => m@,
            ExdsdevsError::ErrorSimTime(m) => m@,
            ExdsdevsError::ErrorCartesian(m) => m@,
            ExdsdevsError::ErrorBuildSimulator(m) => m@,
            ExdsdevsError::ErrorConfluent(m) => m@,
            ExdsdevsError::ErrorTimeOverflow(m) => m@,
        }
    }

    /// The error as one line of text: the variant's label, then its message.
    pub fn to_string(&self) -> (text: String)
        ensures
            text@ == self.label() + self.message(),
    {
        match self {
            ExdsdevsError::ErrorFileSystem(m) => "ExdsdevsError::ErrorFileSystem: ".to_owned().concat(
                m.as_str(),
            ),
            ExdsdevsError::ErrorParseJson(m) => "ExdsdevsError::ErrorParseJson: ".to_owned().concat(
                m.as_str(),
            ),
            ExdsdevsError::ErrorParseInt(m) => "ExdsdevsError::ErrorParseInt: ".to_owned().concat(
                m.as_str(),
            ),
            ExdsdevsError::ErrorSimTime(m) => "ExdsdevsError::ErrorSimTime: ".to_owned().concat(
                m.as_str(),
            ),
            ExdsdevsError::ErrorCartesian(m) => "ExdsdevsError::ErrorCartesian: ".to_owned().concat(
                m.as_str(),
            ),
            ExdsdevsError::ErrorBuildSimulator(m) => "ExdsdevsError::ErrorBuildSimulator: ".to_owned().concat(
                m.as_str(),
            ),
            ExdsdevsError::ErrorConfluent(m) => "ExdsdevsError::ErrorConfluent: ".to_owned().concat(
                m.as_str(),
            ),
            ExdsdevsError::ErrorTimeOverflow(m) => "ExdsdevsError::ErrorTimeOverflow: ".to_owned().concat(
                m.as_str(),
            ),
        }
    }
}

impl From<serde_json::Error> for ExdsdevsError {
    /// A `serde_json` error becomes `ErrorParseJson`, with its message.
    fn from(value: serde_json::Error) -> (error: ExdsdevsError)
        ensures
            error is ErrorParseJson,
    {
        ExdsdevsError::ErrorParseJson(error_text(&value))
    }
}

impl vstd::std_specs::convert::FromSpecImpl<serde_json::Error> for ExdsdevsError {
    /// The message of a `serde_json` error may come from the operating
    /// system, so that no function gives the error that it becomes: what
    /// `from` gives is stated at `from`.
    open spec fn obeys_from_spec() -> bool {
        false
    }

    open spec fn from_spec(value: serde_json::Error) -> ExdsdevsError {
        ExdsdevsError::ErrorParseJson(arbitrary())
    }
}

impl From<std::num::ParseIntError> for ExdsdevsError {
    /// An error of reading an integer becomes `ErrorParseInt`, with its
    /// message as the standard library shows it.
    fn from(value: std::num::ParseIntError) -> (error: ExdsdevsError)
        ensures
            error matches ExdsdevsError::ErrorParseInt(message)
                && vstd::string::to_string_from_display_ensures::<std::num::ParseIntError>(
                &value,
                message,
            ),
    {
        ExdsdevsError::ErrorParseInt(value.to_string())
    }
}

impl vstd::std_specs::convert::FromSpecImpl<std::num::ParseIntError> for ExdsdevsError {
    /// The message is what the standard library's `to_string` relates to
    /// the error; that is a relation, so what `from` gives is stated at
    /// `from`.
    open spec fn obeys_from_spec() -> bool {
        false
    }

    open spec fn from_spec(value: std::num::ParseIntError) -> ExdsdevsError {
        ExdsdevsError::ErrorParseInt(arbitrary())
    }
}

} // verus!
