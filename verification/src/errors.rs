//! The failures that the engine and the Raft log adaptor report.

use vstd::prelude::*;
use vstd::string::StringExecFns;

verus! {

/// Why an operation of the engine or of the log adaptor failed.
#[derive(Debug, Clone, PartialEq, Eq)]
pub enum Error {
    /// The named column family is not registered with the engine.
    CFName(String),
    /// The engine found its own bookkeeping inconsistent.
    Engine(String),
    /// Stored bytes or a key could not be decoded.
    Codec(String),
    /// The requested Raft log entries are no longer, or not yet, in the log.
    Unavailable,
}

/// Whether `e` reports that no column family is called `cf`.
pub open spec fn no_such_cf(e: Error, cf: Seq<char>) -> bool {
    match e {
        Error::CFName(n) => n@ == cf,
        _ => false,
    }
}

/// The line of text that describes a failure.
pub open spec fn message_of(e: Error) -> Seq<char> {
    match e {
        Error::CFName(name) => "CF "@ + name@ + " not found"@,
        Error::Engine(msg) => "Engine "@ + msg@,
        Error::Codec(msg) => "Codec "@ + msg@,
        Error::Unavailable => "log temporarily unavailable"@,
    }
}

impl Error {
    /// A line of text that describes the failure.
    pub fn message(&self) -> (s: String)
        ensures
            s@ == message_of(*self),
    {
        match self {
            Error::CFName(name) => {
                let mut s = "CF ".to_owned();
                s.append(name.as_str());
                s.append(" not found");
                s
            },
            Error::Engine(msg) => {
                let mut s = "Engine ".to_owned();
                s.append(msg.as_str());
                s
            },
            Error::Codec(msg) => {
                let mut s = "Codec ".to_owned();
                s.append(msg.as_str());
                s
            },
            Error::Unavailable => "log temporarily unavailable".to_owned(),
        }
    }
}

} // verus!
