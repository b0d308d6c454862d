use vstd::prelude::*;

verus! {

/// Why a log line could not be read as an entry.
#[derive(Clone, Debug, PartialEq, Eq, Hash)]
pub enum Error {
    /// The line does not read as `[<timestamp>] [<issuer>] <message>`; it is carried along.
    MalformedEntry(String),
    /// The timestamp does not read as the log's timestamp format.
    InvalidTimestamp(chrono::ParseError),
    /// The message does not read as a message.
    InvalidMessage(crate::message::Error),
}

} // verus!
