//! Domain events and their external (stored) representation.

use vstd::prelude::*;
use crate::error::Error;
use crate::ids::{AuthorId, BookId, KeywordTarget, ReaderId, UniqueId};
use crate::model::{
    AuthorInfo, AuthorInfoView, BookInfo, BookInfoView, BookReadInfo, ReaderInfo, ReaderInfoView,
};

verus! {

pub const BOOK_ADDED: &'static str = "book-added";

pub const AUTHOR_ADDED: &'static str = "author-added";

pub const READER_ADDED: &'static str = "reader-added";

pub const BOOK_READ: &'static str = "book-read";

pub const KEYWORD_ADDED: &'static str = "keyword-added";

/// A fact that has happened.
#[derive(Debug)]
pub enum Event {
    BookAdded(BookId, BookInfo),
    AuthorAdded(AuthorId, AuthorInfo),
    ReaderAdded(ReaderId, ReaderInfo),
    BookRead(ReaderId, BookReadInfo),
    KeywordAdded(KeywordTarget, String),
}

pub enum EventView {
    BookAdded(BookId, BookInfoView),
    AuthorAdded(AuthorId, AuthorInfoView),
    ReaderAdded(ReaderId, ReaderInfoView),
    BookRead(ReaderId, BookReadInfo),
    KeywordAdded(KeywordTarget, Seq<char>),
}

impl View for Event {
    type V = EventView;

    open spec fn view(&self) -> EventView {
        match self {
            Event::BookAdded(id, info) => EventView::BookAdded(*id, info@),
            Event::AuthorAdded(id, info) => EventView::AuthorAdded(*id, info@),
            Event::ReaderAdded(id, info) => EventView::ReaderAdded(*id, info@),
            Event::BookRead(id, info) => EventView::BookRead(*id, *info),
            Event::KeywordAdded(t, k) => EventView::KeywordAdded(*t, k@),
        }
    }
}

/// The discriminator of an event.
pub open spec fn event_name(e: EventView) -> Seq<char> {
    match e {
        EventView::BookAdded(..) => BOOK_ADDED@,
        EventView::AuthorAdded(..) => AUTHOR_ADDED@,
        EventView::ReaderAdded(..) => READER_ADDED@,
        EventView::BookRead(..) => BOOK_READ@,
        EventView::KeywordAdded(..) => KEYWORD_ADDED@,
    }
}

/// The aggregate an event belongs to.
pub open spec fn event_aggregate(e: EventView) -> UniqueId {
    match e {
        EventView::BookAdded(id, _) => id.0,
        EventView::AuthorAdded(id, _) => id.0,
        EventView::ReaderAdded(id, _) => id.0,
        EventView::BookRead(id, _) => id.0,
        EventView::KeywordAdded(t, _) => t.spec_aggregate_id(),
    }
}

impl Event {
    pub fn name(&self) -> (r: &'static str)
        ensures
            r@ == event_name(self@),
    {
        match self {
            Event::BookAdded(..) => BOOK_ADDED,
            Event::AuthorAdded(..) => AUTHOR_ADDED,
            Event::ReaderAdded(..) => READER_ADDED,
            Event::BookRead(..) => BOOK_READ,
            Event::KeywordAdded(..) => KEYWORD_ADDED,
        }
    }

    pub fn aggregate_id(&self) -> (r: UniqueId)
        ensures
            r == event_aggregate(self@),
    {
        match self {
            Event::BookAdded(id, _) => id.0,
            Event::AuthorAdded(id, _) => id.0,
            Event::ReaderAdded(id, _) => id.0,
            Event::BookRead(id, _) => id.0,
            Event::KeywordAdded(t, _) => t.aggregate_id(),
        }
    }

    pub fn duplicate(&self) -> (r: Event)
        ensures
            r@ == self@,
    {
        match self {
            Event::BookAdded(id, info) => Event::BookAdded(*id, info.duplicate()),
            Event::AuthorAdded(id, info) => Event::AuthorAdded(*id, info.duplicate()),
            Event::ReaderAdded(id, info) => Event::ReaderAdded(*id, info.duplicate()),
            Event::BookRead(id, info) => Event::BookRead(*id, *info),
            Event::KeywordAdded(t, k) => Event::KeywordAdded(*t, k.clone()),
        }
    }
}

/// A wall-clock instant as nanoseconds since the Unix epoch.
#[derive(Clone, Copy, Debug, Hash, PartialEq, Eq, Structural)]
pub struct EventTime {
    pub unix_nanos: i128,
}

/// The event-specific payload of a stored record.
#[derive(Debug)]
pub enum EventData {
    Book(BookInfo),
    Author(AuthorInfo),
    Reader(ReaderInfo),
    BookRead(BookReadInfo),
    Keyword(String, KeywordTarget),
}

pub enum EventDataView {
    Book(BookInfoView),
    Author(AuthorInfoView),
    Reader(ReaderInfoView),
    BookRead(BookReadInfo),
    Keyword(Seq<char>, KeywordTarget),
}

impl View for EventData {
    type V = EventDataView;

    open spec fn view(&self) -> EventDataView {
        match self {
            EventData::Book(info) => EventDataView::Book(info@),
            EventData::Author(info) => EventDataView::Author(info@),
            EventData::Reader(info) => EventDataView::Reader(info@),
            EventData::BookRead(info) => EventDataView::BookRead(*info),
            EventData::Keyword(k, t) => EventDataView::Keyword(k@, *t),
        }
    }
}

/// The serialization-stable, self-describing form of an event.
#[derive(Debug)]
pub struct ExternalRepresentation {
    pub id: UniqueId,
    pub when: EventTime,
    pub aggregate_id: UniqueId,
    pub what: String,
    pub data: EventData,
}

pub struct ExternalView {
    pub id: UniqueId,
    pub when: EventTime,
    pub aggregate_id: UniqueId,
    pub what: Seq<char>,
    pub data: EventDataView,
}

impl View for ExternalRepresentation {
    type V = ExternalView;

    open spec fn view(&self) -> ExternalView {
        ExternalView {
            id: self.id,
            when: self.when,
            aggregate_id: self.aggregate_id,
            what: self.what@,
            data: self.data@,
        }
    }
}

impl EventData {
    pub fn duplicate(&self) -> (r: EventData)
        ensures
            r@ == self@,
    {
        match self {
            EventData::Book(info) => EventData::Book(info.duplicate()),
            EventData::Author(info) => EventData::Author(info.duplicate()),
            EventData::Reader(info) => EventData::Reader(info.duplicate()),
            EventData::BookRead(info) => EventData::BookRead(*info),
            EventData::Keyword(k, t) => EventData::Keyword(k.clone(), *t),
        }
    }
}

impl ExternalRepresentation {
    pub fn duplicate(&self) -> (r: ExternalRepresentation)
        ensures
            r@ == self@,
    {
        ExternalRepresentation {
            id: self.id,
            when: self.when,
            aggregate_id: self.aggregate_id,
            what: self.what.clone(),
            data: self.data.duplicate(),
        }
    }
}

/// The payload of an event.
pub open spec fn event_data(e: EventView) -> EventDataView {
    match e {
        EventView::BookAdded(_, info) => EventDataView::Book(info),
        EventView::AuthorAdded(_, info) => EventDataView::Author(info),
        EventView::ReaderAdded(_, info) => EventDataView::Reader(info),
        EventView::BookRead(_, info) => EventDataView::BookRead(info),
        EventView::KeywordAdded(t, k) => EventDataView::Keyword(k, t),
    }
}

/// The stored form of `e`, recorded as event `id` at `when`.
pub open spec fn encode_event(e: EventView, id: UniqueId, when: EventTime) -> ExternalView {
    ExternalView {
        id,
        when,
        aggregate_id: event_aggregate(e),
        what: event_name(e),
        data: event_data(e),
    }
}

/// How a stored record decodes: the event, or the kind of failure.
pub enum DecodeOutcome {
    Decoded(EventView),
    Mismatch,
    Unknown,
}

pub open spec fn decode_event(x: ExternalView) -> DecodeOutcome {
    if x.what == AUTHOR_ADDED@ {
        match x.data {
            EventDataView::Author(info) => DecodeOutcome::Decoded(
                EventView::AuthorAdded(AuthorId(x.aggregate_id), info),
            ),
            _ => DecodeOutcome::Mismatch,
        }
    } else if x.what == BOOK_ADDED@ {
        match x.data {
            EventDataView::Book(info) => DecodeOutcome::Decoded(
                EventView::BookAdded(BookId(x.aggregate_id), info),
            ),
            _ => DecodeOutcome::Mismatch,
        }
    } else if x.what == READER_ADDED@ {
        match x.data {
            EventDataView::Reader(info) => DecodeOutcome::Decoded(
                EventView::ReaderAdded(ReaderId(x.aggregate_id), info),
            ),
            _ => DecodeOutcome::Mismatch,
        }
    } else if x.what == BOOK_READ@ {
        match x.data {
            EventDataView::BookRead(info) => DecodeOutcome::Decoded(
                EventView::BookRead(ReaderId(x.aggregate_id), info),
            ),
            _ => DecodeOutcome::Mismatch,
        }
    } else if x.what == KEYWORD_ADDED@ {
        match x.data {
            EventDataView::Keyword(k, t) => DecodeOutcome::Decoded(EventView::KeywordAdded(t, k)),
            _ => DecodeOutcome::Mismatch,
        }
    } else {
        DecodeOutcome::Unknown
    }
}

/// Exact equality of two strings, character by character.
pub fn same_text(a: &str, b: &str) -> (r: bool)
    ensures
        r == (a@ == b@),
{
    let x = a.to_owned();
    let y = b.to_owned();
    x == y
}

impl Event {
    /// The stored form of this event, recorded as event `id` at `when`.
    pub fn external_representation(&self, id: UniqueId, when: EventTime) -> (r:
        ExternalRepresentation)
        ensures
            r@ == encode_event(self@, id, when),
    {
        let what = self.name().to_owned();
        let aggregate_id = self.aggregate_id();
        let data = match self {
            Event::BookAdded(_, info) => EventData::Book(info.duplicate()),
            Event::AuthorAdded(_, info) => EventData::Author(info.duplicate()),
            Event::ReaderAdded(_, info) => EventData::Reader(info.duplicate()),
            Event::BookRead(_, info) => EventData::BookRead(*info),
            Event::KeywordAdded(t, k) => EventData::Keyword(k.clone(), *t),
        };
        ExternalRepresentation { id, when, aggregate_id, what, data }
    }

    /// Reconstructs the event a stored record describes. Fails with
    /// `UnknownEventType` on a discriminator outside the closed set, and with
    /// `JsonSerde` on a payload of another kind than the discriminator names.
    pub fn from_external_representation(x: &ExternalRepresentation) -> (r: Result<Event, Error>)
        ensures
            decode_event(x@) matches DecodeOutcome::Decoded(e) ==> (r matches Ok(v) && v@ == e),
            decode_event(x@) is Mismatch ==> r matches Err(Error::JsonSerde(_)),
            decode_event(x@) is Unknown ==> (r matches Err(Error::UnknownEventType(w)) && w@
                == x@.what),
    {
        let what = x.what.as_str();
        if same_text(what, AUTHOR_ADDED) {
            match &x.data {
                EventData::Author(info) => Ok(
                    Event::AuthorAdded(AuthorId(x.aggregate_id), info.duplicate()),
                ),
                _ => Err(Error::JsonSerde("expected an author payload".to_owned())),
            }
        } else if same_text(what, BOOK_ADDED) {
            match &x.data {
                EventData::Book(info) => Ok(Event::BookAdded(BookId(x.aggregate_id), info.duplicate())),
                _ => Err(Error::JsonSerde("expected a book payload".to_owned())),
            }
        } else if same_text(what, READER_ADDED) {
            match &x.data {
                EventData::Reader(info) => Ok(
                    Event::ReaderAdded(ReaderId(x.aggregate_id), info.duplicate()),
                ),
                _ => Err(Error::JsonSerde("expected a reader payload".to_owned())),
            }
        } else if same_text(what, BOOK_READ) {
            match &x.data {
                EventData::BookRead(info) => Ok(Event::BookRead(ReaderId(x.aggregate_id), *info)),
                _ => Err(Error::JsonSerde("expected a reading payload".to_owned())),
            }
        } else if same_text(what, KEYWORD_ADDED) {
            match &x.data {
                EventData::Keyword(k, t) => Ok(Event::KeywordAdded(*t, k.clone())),
                _ => Err(Error::JsonSerde("expected a keyword payload".to_owned())),
            }
        } else {
            Err(Error::UnknownEventType(x.what.clone()))
        }
    }
}

/// Decoding the stored form of an event gives the event back.
pub proof fn lemma_decode_encode(e: EventView, id: UniqueId, when: EventTime)
    ensures
        decode_event(encode_event(e, id, when)) == DecodeOutcome::Decoded(e),
{
    reveal_strlit("book-added");
    reveal_strlit("author-added");
    reveal_strlit("reader-added");
    reveal_strlit("book-read");
    reveal_strlit("keyword-added");
    assert(AUTHOR_ADDED@.len() == 12 && READER_ADDED@.len() == 12);
    assert(BOOK_ADDED@.len() == 10 && BOOK_READ@.len() == 9 && KEYWORD_ADDED@.len() == 13);
    assert(AUTHOR_ADDED@[0] != READER_ADDED@[0]);
}

} // verus!
