//! Role-tagged 128-bit identities.

use vstd::prelude::*;

verus! {

/// A raw 128-bit identity (the numeric value of a UUID).
#[derive(Clone, Copy, Debug, Hash, PartialEq, Eq, Structural)]
pub struct UniqueId(pub u128);

impl UniqueId {
    /// Relies on uuid::Uuid::new_v4 (and Uuid::as_u128): a random identity.
    /// Nothing is promised of its value.
    #[verifier::external_body]
    pub fn fresh() -> (r: UniqueId) {
        UniqueId(uuid::Uuid::new_v4().as_u128())
    }

    pub fn uuid(&self) -> (r: u128)
        ensures
            r == self.0,
    {
        self.0
    }
}

#[derive(Clone, Copy, Debug, Hash, PartialEq, Eq, Structural)]
pub struct AuthorId(pub UniqueId);

#[derive(Clone, Copy, Debug, Hash, PartialEq, Eq, Structural)]
pub struct BookId(pub UniqueId);

#[derive(Clone, Copy, Debug, Hash, PartialEq, Eq, Structural)]
pub struct ReaderId(pub UniqueId);

impl AuthorId {
    pub open spec fn raw(self) -> u128 {
        self.0.0
    }

    pub fn id(&self) -> (r: UniqueId)
        ensures
            r == self.0,
    {
        self.0
    }
}

impl BookId {
    pub open spec fn raw(self) -> u128 {
        self.0.0
    }

    pub fn id(&self) -> (r: UniqueId)
        ensures
            r == self.0,
    {
        self.0
    }
}

impl ReaderId {
    pub open spec fn raw(self) -> u128 {
        self.0.0
    }

    pub fn id(&self) -> (r: UniqueId)
        ensures
            r == self.0,
    {
        self.0
    }
}

/// What a keyword can be attached to.
#[derive(Clone, Copy, Debug, Hash, PartialEq, Eq, Structural)]
pub enum KeywordTarget {
    Book(BookId),
    Author(AuthorId),
}

impl KeywordTarget {
    pub open spec fn spec_aggregate_id(self) -> UniqueId {
        match self {
            KeywordTarget::Book(b) => b.0,
            KeywordTarget::Author(a) => a.0,
        }
    }

    pub fn aggregate_id(&self) -> (r: UniqueId)
        ensures
            r == self.spec_aggregate_id(),
    {
        match self {
            KeywordTarget::Book(b) => b.0,
            KeywordTarget::Author(a) => a.0,
        }
    }
}

/// The identity of a resource created by an accepted command.
#[derive(Clone, Copy, Debug, Hash, PartialEq, Eq, Structural)]
pub enum ResourceId {
    Book(BookId),
    Author(AuthorId),
    Reader(ReaderId),
}

impl From<BookId> for ResourceId {
    fn from(value: BookId) -> ResourceId {
        ResourceId::Book(value)
    }
}

impl vstd::std_specs::convert::FromSpecImpl<BookId> for ResourceId {
    open spec fn obeys_from_spec() -> bool {
        true
    }

    open spec fn from_spec(value: BookId) -> ResourceId {
        ResourceId::Book(value)
    }
}

impl From<AuthorId> for ResourceId {
    fn from(value: AuthorId) -> ResourceId {
        ResourceId::Author(value)
    }
}

impl vstd::std_specs::convert::FromSpecImpl<AuthorId> for ResourceId {
    open spec fn obeys_from_spec() -> bool {
        true
    }

    open spec fn from_spec(value: AuthorId) -> ResourceId {
        ResourceId::Author(value)
    }
}

impl From<ReaderId> for ResourceId {
    fn from(value: ReaderId) -> ResourceId {
        ResourceId::Reader(value)
    }
}

impl vstd::std_specs::convert::FromSpecImpl<ReaderId> for ResourceId {
    open spec fn obeys_from_spec() -> bool {
        true
    }

    open spec fn from_spec(value: ReaderId) -> ResourceId {
        ResourceId::Reader(value)
    }
}

impl ResourceId {
    pub open spec fn spec_raw(self) -> u128 {
        match self {
            ResourceId::Book(b) => b.raw(),
            ResourceId::Author(a) => a.raw(),
            ResourceId::Reader(r) => r.raw(),
        }
    }
}

} // verus!
