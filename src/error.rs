//! Errors of the core.

use vstd::prelude::*;

verus! {

#[derive(Clone, Debug, PartialEq, Eq)]
pub enum Error {
    /// An event payload does not have the shape its discriminator asks for.
    JsonSerde(String),
    /// A discriminator outside the closed set of event kinds.
    UnknownEventType(String),
    /// An aggregate stream that is empty or starts with the wrong kind of event.
    AggregateParseError(String),
    /// An event id that the log does not hold.
    EventNotFound(u128),
    /// An event id that the log already holds.
    DuplicateEventId(u128),
    /// Disk or channel input/output failed.
    Io(String),
    /// The underlying keyspace failed.
    EventArchive(String),
    /// A subscriber fell behind the broadcast channel's bound.
    ReceiveError(String),
    /// A known but unclassified condition, such as an invalid keyword.
    Generic(String),
}

} // verus!
