//! Failures that the engine reports to a caller.

use vstd::prelude::*;

verus! {

/// Why an operation was refused. None of these stops the process.
#[derive(Clone, Copy, Debug, PartialEq, Eq, Structural)]
pub enum Error {
    /// The policy names a hash algorithm that is not supported.
    ConfigError,
    /// The digest engine reported a fault.
    HashError,
    /// No container identity could be extracted from a cgroup path.
    ParseError,
    /// A digest does not have the length of the register it should extend.
    AlgorithmMismatch,
    /// A log entry arrived in an encoding that is not handled.
    UnsupportedEntryShape,
    /// The container is not known while containers are isolated.
    NotFound,
    /// The policy forbids reading the requested register.
    AccessDenied,
    /// A window over the event log starts beyond its end or is empty.
    InvalidRange,
    /// Text that should be UTF-8 or base64 is not.
    InvalidEncoding,
    /// The agent was asked to work before its baseline was set up.
    NotInitialized,
}

impl Error {
    /// Text shown to the caller together with the failure status.
    pub fn message(&self) -> (text: String)
        ensures
            text@ == self.message_spec(),
    {
        match self {
            Error::ConfigError => "Unknown hashing algorithm.".to_owned(),
            Error::HashError => "The digest engine failed.".to_owned(),
            Error::ParseError => "The container id parse failed.".to_owned(),
            Error::AlgorithmMismatch => "The hash algorithm does not match.".to_owned(),
            Error::UnsupportedEntryShape => {
                "The event log entry has an unsupported shape.".to_owned()
            },
            Error::NotFound => "Container cannot be found.".to_owned(),
            Error::AccessDenied => "Cannot access IMR according to the policy.".to_owned(),
            Error::InvalidRange => "Invalid input start or count.".to_owned(),
            Error::InvalidEncoding => "The input is not encoded as expected.".to_owned(),
            Error::NotInitialized => "The measurement was not initialized.".to_owned(),
        }
    }

    /// The text of `message` as a sequence of characters.
    pub open spec fn message_spec(&self) -> Seq<char> {
        match self {
            Error::ConfigError => "Unknown hashing algorithm."@,
            Error::HashError => "The digest engine failed."@,
            Error::ParseError => "The container id parse failed."@,
            Error::AlgorithmMismatch => "The hash algorithm does not match."@,
            Error::UnsupportedEntryShape => "The event log entry has an unsupported shape."@,
            Error::NotFound => "Container cannot be found."@,
            Error::AccessDenied => "Cannot access IMR according to the policy."@,
            Error::InvalidRange => "Invalid input start or count."@,
            Error::InvalidEncoding => "The input is not encoded as expected."@,
            Error::NotInitialized => "The measurement was not initialized."@,
        }
    }
}

} // verus!
