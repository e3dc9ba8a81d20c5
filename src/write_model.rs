//! The projection consulted to validate commands, and the dispatcher's
//! decision rules.

use vstd::prelude::*;
use crate::event::{Event, EventView};
use crate::ids::{AuthorId, BookId, ReaderId, ResourceId, UniqueId};
use crate::model::{Command, CommandView, Keyword};
use crate::table::{Table, TextTable};

verus! {

/// What validation reads: which authors exist, which identities are taken,
/// who holds each moniker and which books each reader has read.
pub struct WriteView {
    pub author_ids: Set<u128>,
    pub identities: Set<u128>,
    pub monikers: Map<Seq<char>, ReaderId>,
    pub books_read: Map<u128, Set<BookId>>,
}

impl WriteView {
    pub open spec fn empty() -> WriteView {
        WriteView {
            author_ids: Set::empty(),
            identities: Set::empty(),
            monikers: Map::empty(),
            books_read: Map::empty(),
        }
    }

    /// The books `reader` has read.
    pub open spec fn read_by(self, reader: u128) -> Set<BookId> {
        if self.books_read.contains_key(reader) {
            self.books_read[reader]
        } else {
            Set::empty()
        }
    }

    /// The view after applying one event.
    pub open spec fn apply(self, e: EventView) -> WriteView {
        match e {
            EventView::BookAdded(id, _) => WriteView {
                identities: self.identities.insert(id.raw()),
                ..self
            },
            EventView::AuthorAdded(id, _) => WriteView {
                author_ids: self.author_ids.insert(id.raw()),
                identities: self.identities.insert(id.raw()),
                ..self
            },
            EventView::ReaderAdded(id, info) => WriteView {
                monikers: self.monikers.insert(info.unique_moniker, id),
                identities: self.identities.insert(id.raw()),
                ..self
            },
            EventView::BookRead(id, info) => WriteView {
                books_read: self.books_read.insert(
                    id.raw(),
                    self.read_by(id.raw()).insert(info.book_id),
                ),
                ..self
            },
            EventView::KeywordAdded(..) => self,
        }
    }

    /// The view after applying a sequence of events in order.
    pub open spec fn replay(self, events: Seq<EventView>) -> WriteView
        decreases events.len(),
    {
        if events.len() == 0 {
            self
        } else {
            self.replay(events.drop_last()).apply(events.last())
        }
    }
}

/// Why a command was turned down.
#[derive(Clone, Copy, Debug, PartialEq, Eq, Structural)]
pub enum Rejection {
    /// The book names an author that does not exist.
    UnknownAuthor,
    /// Another reader already holds the moniker.
    MonikerTaken,
    /// The reader has already read the book.
    AlreadyRead,
    /// The freshly minted identity is already in use.
    IdentityCollision,
    /// The keyword does not have the shape of a keyword.
    InvalidKeyword,
}

/// What the dispatcher decided for a command.
pub enum Decision {
    /// Emit the event; a create-command also names the new resource.
    Emit(Event, Option<ResourceId>),
    Rejected(Rejection),
}

pub enum DecisionView {
    Emit(EventView, Option<ResourceId>),
    Rejected(Rejection),
}

impl View for Decision {
    type V = DecisionView;

    open spec fn view(&self) -> DecisionView {
        match self {
            Decision::Emit(e, r) => DecisionView::Emit(e@, *r),
            Decision::Rejected(why) => DecisionView::Rejected(*why),
        }
    }
}

/// The decision for `c` against `v`, with `fresh` as the identity a
/// create-command would take.
pub open spec fn decide(v: WriteView, c: CommandView, fresh: UniqueId) -> DecisionView {
    match c {
        CommandView::AddAuthor(info) => if v.identities.contains(fresh.0) {
            DecisionView::Rejected(Rejection::IdentityCollision)
        } else {
            DecisionView::Emit(
                EventView::AuthorAdded(AuthorId(fresh), info),
                Some(ResourceId::Author(AuthorId(fresh))),
            )
        },
        CommandView::AddBook(info) => if !v.author_ids.contains(info.author.raw()) {
            DecisionView::Rejected(Rejection::UnknownAuthor)
        } else if v.identities.contains(fresh.0) {
            DecisionView::Rejected(Rejection::IdentityCollision)
        } else {
            DecisionView::Emit(
                EventView::BookAdded(BookId(fresh), info),
                Some(ResourceId::Book(BookId(fresh))),
            )
        },
        CommandView::AddReader(info) => if v.monikers.contains_key(info.unique_moniker) {
            DecisionView::Rejected(Rejection::MonikerTaken)
        } else if v.identities.contains(fresh.0) {
            DecisionView::Rejected(Rejection::IdentityCollision)
        } else {
            DecisionView::Emit(
                EventView::ReaderAdded(ReaderId(fresh), info),
                Some(ResourceId::Reader(ReaderId(fresh))),
            )
        },
        CommandView::AddReadBook(info) => if v.read_by(info.reader_id.raw()).contains(
            info.book_id,
        ) {
            DecisionView::Rejected(Rejection::AlreadyRead)
        } else {
            DecisionView::Emit(EventView::BookRead(info.reader_id, info), None)
        },
        CommandView::AddKeyword(k, t) => if !Keyword::is_valid(k) {
            DecisionView::Rejected(Rejection::InvalidKeyword)
        } else {
            DecisionView::Emit(EventView::KeywordAdded(t, k), None)
        },
    }
}

pub(crate) fn copy_books(v: &Vec<BookId>) -> (r: Vec<BookId>)
    ensures
        r@ == v@,
{
    let mut r: Vec<BookId> = Vec::new();
    let mut i: usize = 0;
    while i < v.len()
        invariant
            i <= v@.len(),
            r@ == v@.subrange(0, i as int),
        decreases v@.len() - i,
    {
        r.push(v[i]);
        i = i + 1;
        assert(r@ =~= v@.subrange(0, i as int));
    }
    assert(r@ =~= v@);
    r
}

fn contains_book(v: &Vec<BookId>, b: BookId) -> (r: bool)
    ensures
        r == v@.contains(b),
{
    let mut i: usize = 0;
    while i < v.len()
        invariant
            i <= v@.len(),
            forall|j: int| 0 <= j < i ==> v@[j] != b,
        decreases v@.len() - i,
    {
        if v[i] == b {
            return true;
        }
        i = i + 1;
    }
    false
}

/// The validation projection.
pub struct WriteModel {
    author_ids: Table<()>,
    identities: Table<()>,
    monikers: TextTable<ReaderId>,
    books_read: Table<Vec<BookId>>,
}

impl View for WriteModel {
    type V = WriteView;

    closed spec fn view(&self) -> WriteView {
        WriteView {
            author_ids: self.author_ids.as_map().dom(),
            identities: self.identities.as_map().dom(),
            monikers: self.monikers.as_map(),
            books_read: self.books_read.as_map().map_values(|v: Vec<BookId>| v@.to_set()),
        }
    }
}

impl WriteModel {
    pub closed spec fn wf(&self) -> bool {
        &&& self.author_ids.wf()
        &&& self.identities.wf()
        &&& self.monikers.wf()
        &&& self.books_read.wf()
    }

    pub fn new() -> (r: WriteModel)
        ensures
            r.wf(),
            r@ == WriteView::empty(),
    {
        let r = WriteModel {
            author_ids: Table::new(),
            identities: Table::new(),
            monikers: TextTable::new(),
            books_read: Table::new(),
        };
        assert(r@.books_read =~= Map::<u128, Set<BookId>>::empty());
        assert(r@.author_ids =~= Set::<u128>::empty());
        assert(r@.identities =~= Set::<u128>::empty());
        r
    }

    /// Records what an event means for validation.
    pub fn apply(&mut self, event: Event)
        requires
            old(self).wf(),
        ensures
            final(self).wf(),
            final(self)@ == old(self)@.apply(event@),
    {
        match event {
            Event::BookAdded(id, _) => {
                self.identities.insert(id.0.0, ());
                assert(self@.identities =~= old(self)@.identities.insert(id.raw()));
            },
            Event::AuthorAdded(id, _) => {
                self.author_ids.insert(id.0.0, ());
                self.identities.insert(id.0.0, ());
                assert(self@.identities =~= old(self)@.identities.insert(id.raw()));
                assert(self@.author_ids =~= old(self)@.author_ids.insert(id.raw()));
            },
            Event::ReaderAdded(id, info) => {
                self.monikers.insert(info.unique_moniker, id);
                self.identities.insert(id.0.0, ());
                assert(self@.identities =~= old(self)@.identities.insert(id.raw()));
            },
            Event::BookRead(id, info) => {
                let mut books = match self.books_read.get(id.0.0) {
                    Some(v) => copy_books(v),
                    None => Vec::new(),
                };
                let ghost before = books@;
                if !contains_book(&books, info.book_id) {
                    books.push(info.book_id);
                }
                proof {
                    assert(before.to_set() == old(self)@.read_by(id.raw())) by {
                        if !old(self).books_read.as_map().contains_key(id.raw()) {
                            assert(before.to_set() =~= Set::<BookId>::empty());
                        }
                    }
                    assert forall|x: BookId| books@.contains(x) <==> (before.contains(x) || x == info.book_id) by {
                        if before.contains(x) {
                            let i = choose|i: int| 0 <= i < before.len() && before[i] == x;
                            assert(books@[i] == x);
                        }
                        if x == info.book_id && !before.contains(x) {
                            assert(books@[before.len() as int] == x);
                        }
                        if books@.contains(x) && !before.contains(x) {
                            let i = choose|i: int| 0 <= i < books@.len() && books@[i] == x;
                            if i < before.len() {
                                assert(before[i] == x);
                            }
                        }
                    }
                    assert(books@.to_set() =~= before.to_set().insert(info.book_id));
                }
                self.books_read.insert(id.0.0, books);
                assert(self@.books_read =~= old(self)@.books_read.insert(
                    id.raw(),
                    old(self)@.read_by(id.raw()).insert(info.book_id),
                ));
            },
            Event::KeywordAdded(..) => {},
        }
    }

    fn has_read(&self, reader: ReaderId, book: BookId) -> (r: bool)
        requires
            self.wf(),
        ensures
            r == self@.read_by(reader.raw()).contains(book),
    {
        match self.books_read.get(reader.0.0) {
            Some(v) => contains_book(v, book),
            None => false,
        }
    }

    /// Validates a command; `fresh` is the identity a create-command takes.
    /// A create-command whose `fresh` identity is already taken is rejected,
    /// so that accepted identities never collide.
    pub fn decide(&self, command: Command, fresh: UniqueId) -> (r: Decision)
        requires
            self.wf(),
        ensures
            r@ == decide(self@, command@, fresh),
    {
        let taken = self.identities.get(fresh.0).is_some();
        match command {
            Command::AddAuthor(info) => if taken {
                Decision::Rejected(Rejection::IdentityCollision)
            } else {
                Decision::Emit(
                    Event::AuthorAdded(AuthorId(fresh), info),
                    Some(ResourceId::Author(AuthorId(fresh))),
                )
            },
            Command::AddBook(info) => if self.author_ids.get(info.author.0.0).is_none() {
                Decision::Rejected(Rejection::UnknownAuthor)
            } else if taken {
                Decision::Rejected(Rejection::IdentityCollision)
            } else {
                Decision::Emit(
                    Event::BookAdded(BookId(fresh), info),
                    Some(ResourceId::Book(BookId(fresh))),
                )
            },
            Command::AddReader(info) => if self.monikers.get(info.unique_moniker.as_str()).is_some() {
                Decision::Rejected(Rejection::MonikerTaken)
            } else if taken {
                Decision::Rejected(Rejection::IdentityCollision)
            } else {
                Decision::Emit(
                    Event::ReaderAdded(ReaderId(fresh), info),
                    Some(ResourceId::Reader(ReaderId(fresh))),
                )
            },
            Command::AddReadBook(info) => if self.has_read(info.reader_id, info.book_id) {
                Decision::Rejected(Rejection::AlreadyRead)
            } else {
                Decision::Emit(Event::BookRead(info.reader_id, info), None)
            },
            Command::AddKeyword(keyword, target) => if !keyword.is_well_formed() {
                Decision::Rejected(Rejection::InvalidKeyword)
            } else {
                Decision::Emit(Event::KeywordAdded(target, keyword.into_string()), None)
            },
        }
    }
}

} // verus!
