//! The read model: entity maps, inverse relations, the text index and the
//! keyword facet, all updated together from the event stream.

use vstd::prelude::*;
use crate::event::{Event, EventView};
use crate::ids::{AuthorId, BookId, ReaderId};
use crate::keywords::{KeywordIndex, KeywordView};
use crate::model::{
    Author, AuthorInfo, AuthorInfoView, Book, BookInfo, BookInfoView, BookReadInfo, Keyword,
    Reader, ReaderInfo, ReaderInfoView,
};
use crate::ids::{KeywordTarget, UniqueId};
use crate::table::texts;
use crate::table::{Table, TextTable};
use crate::text::{
    bind, bind_all, index_event, lemma_bind_all_adds, tokens, AuthorField, BookField, Projection,
    SearchIndex,
};
use crate::write_model::copy_books;

verus! {

/// The read model as maps.
pub struct IndexView {
    pub authors: Map<u128, AuthorInfoView>,
    pub books: Map<u128, BookInfoView>,
    pub readers: Map<u128, ReaderInfoView>,
    pub monikers: Map<Seq<char>, ReaderId>,
    pub books_by_author: Map<u128, Seq<BookId>>,
    pub books_by_reader: Map<u128, Seq<BookReadInfo>>,
    pub texts: Map<Seq<char>, Set<Projection>>,
    pub keywords: KeywordView,
}

/// Whether some record in `s` is about `book`.
pub open spec fn has_book(s: Seq<BookReadInfo>, book: BookId) -> bool {
    exists|i: int| 0 <= i < s.len() && #[trigger] s[i].book_id == book
}

impl IndexView {
    pub open spec fn empty() -> IndexView {
        IndexView {
            authors: Map::empty(),
            books: Map::empty(),
            readers: Map::empty(),
            monikers: Map::empty(),
            books_by_author: Map::empty(),
            books_by_reader: Map::empty(),
            texts: Map::empty(),
            keywords: KeywordView::empty(),
        }
    }

    /// The books listed under `author`, in the order they were added.
    pub open spec fn listed_books(self, author: u128) -> Seq<BookId> {
        if self.books_by_author.contains_key(author) {
            self.books_by_author[author]
        } else {
            Seq::empty()
        }
    }

    /// The reading records of `reader`.
    pub open spec fn records(self, reader: u128) -> Seq<BookReadInfo> {
        if self.books_by_reader.contains_key(reader) {
            self.books_by_reader[reader]
        } else {
            Seq::empty()
        }
    }

    /// The view after applying one event. A reading record for a pair that
    /// already has one is ignored.
    pub open spec fn apply(self, e: EventView) -> IndexView {
        let v = IndexView { texts: index_event(self.texts, e), ..self };
        match e {
            EventView::BookAdded(id, info) => IndexView {
                books: v.books.insert(id.raw(), info),
                books_by_author: v.books_by_author.insert(
                    info.author.raw(),
                    v.listed_books(info.author.raw()).push(id),
                ),
                ..v
            },
            EventView::AuthorAdded(id, info) => IndexView {
                authors: v.authors.insert(id.raw(), info),
                ..v
            },
            EventView::ReaderAdded(id, info) => IndexView {
                monikers: v.monikers.insert(info.unique_moniker, id),
                readers: v.readers.insert(id.raw(), info),
                ..v
            },
            EventView::BookRead(id, info) => if has_book(v.records(id.raw()), info.book_id) {
                v
            } else {
                IndexView {
                    books_by_reader: v.books_by_reader.insert(
                        id.raw(),
                        v.records(id.raw()).push(info),
                    ),
                    ..v
                }
            },
            EventView::KeywordAdded(t, k) => IndexView { keywords: v.keywords.add(k, t), ..v },
        }
    }

    /// The view after applying a sequence of events in order.
    pub open spec fn replay(self, events: Seq<EventView>) -> IndexView
        decreases events.len(),
    {
        if events.len() == 0 {
            self
        } else {
            self.replay(events.drop_last()).apply(events.last())
        }
    }

    /// Whether a projection names a field of an entity this view holds.
    pub open spec fn resolves(self, p: Projection) -> bool {
        match p {
            Projection::Books(BookField::Title(id)) => self.books.contains_key(id.raw()),
            Projection::Books(BookField::Isbn(id)) => self.books.contains_key(id.raw()),
            Projection::Authors(AuthorField::Name(id)) => self.authors.contains_key(id.raw()),
        }
    }

    /// The text a projection points at.
    pub open spec fn source(self, p: Projection) -> Seq<char> {
        match p {
            Projection::Books(BookField::Title(id)) => self.books[id.raw()].title,
            Projection::Books(BookField::Isbn(id)) => self.books[id.raw()].isbn,
            Projection::Authors(AuthorField::Name(id)) => self.authors[id.raw()].name,
        }
    }

    /// Every projection in the text index resolves to an entity.
    pub open spec fn searchable(self) -> bool {
        forall|term: Seq<char>, p: Projection|
            self.texts.contains_key(term) && #[trigger] self.texts[term].contains(p)
                ==> self.resolves(p)
    }

    /// No reader has two records about one book.
    pub open spec fn records_unique(self) -> bool {
        forall|r: u128, i: int, j: int|
            #![trigger self.records(r)[i], self.records(r)[j]]
            0 <= i < j < self.records(r).len() ==> self.records(r)[i].book_id
                != self.records(r)[j].book_id
    }
}

/// The read model.
pub struct IndexSet {
    authors: Table<AuthorInfo>,
    books: Table<BookInfo>,
    readers: Table<ReaderInfo>,
    reader_by_moniker: TextTable<ReaderId>,
    books_by_author_id: Table<Vec<BookId>>,
    books_by_reader_id: Table<Vec<BookReadInfo>>,
    texts: SearchIndex,
    keywords: KeywordIndex,
}

impl View for IndexSet {
    type V = IndexView;

    closed spec fn view(&self) -> IndexView {
        IndexView {
            authors: self.authors.as_map().map_values(|v: AuthorInfo| v@),
            books: self.books.as_map().map_values(|v: BookInfo| v@),
            readers: self.readers.as_map().map_values(|v: ReaderInfo| v@),
            monikers: self.reader_by_moniker.as_map(),
            books_by_author: self.books_by_author_id.as_map().map_values(|v: Vec<BookId>| v@),
            books_by_reader: self.books_by_reader_id.as_map().map_values(
                |v: Vec<BookReadInfo>| v@,
            ),
            texts: self.texts@,
            keywords: self.keywords@,
        }
    }
}

fn copy_records(v: &Vec<BookReadInfo>) -> (r: Vec<BookReadInfo>)
    ensures
        r@ == v@,
{
    let mut r: Vec<BookReadInfo> = Vec::new();
    let mut i: usize = 0;
    while i < v.len()
        invariant
            i <= v@.len(),
            r@ == v@.subrange(0, i as int),
        decreases v@.len() - i,
    {
        r.push(v[i]);
        i = i + 1;
        assert(r@ =~= v@.subrange(0, i as int));
    }
    assert(r@ =~= v@);
    r
}

fn records_have_book(v: &Vec<BookReadInfo>, book: BookId) -> (r: bool)
    ensures
        r == has_book(v@, book),
{
    let mut i: usize = 0;
    while i < v.len()
        invariant
            i <= v@.len(),
            forall|j: int| 0 <= j < i ==> v@[j].book_id != book,
        decreases v@.len() - i,
    {
        if v[i].book_id == book {
            return true;
        }
        i = i + 1;
    }
    false
}

impl IndexSet {
    pub closed spec fn wf(&self) -> bool {
        &&& self.authors.wf()
        &&& self.books.wf()
        &&& self.readers.wf()
        &&& self.reader_by_moniker.wf()
        &&& self.books_by_author_id.wf()
        &&& self.books_by_reader_id.wf()
        &&& self.texts.wf()
        &&& self.keywords.wf()
        &&& self@.searchable()
        &&& self@.records_unique()
    }

    pub fn new() -> (r: IndexSet)
        ensures
            r.wf(),
            r@ == IndexView::empty(),
    {
        let r = IndexSet {
            authors: Table::new(),
            books: Table::new(),
            readers: Table::new(),
            reader_by_moniker: TextTable::new(),
            books_by_author_id: Table::new(),
            books_by_reader_id: Table::new(),
            texts: SearchIndex::new(),
            keywords: KeywordIndex::new(),
        };
        assert(r@.authors =~= Map::<u128, AuthorInfoView>::empty());
        assert(r@.books =~= Map::<u128, BookInfoView>::empty());
        assert(r@.readers =~= Map::<u128, ReaderInfoView>::empty());
        assert(r@.books_by_author =~= Map::<u128, Seq<BookId>>::empty());
        assert(r@.books_by_reader =~= Map::<u128, Seq<BookReadInfo>>::empty());
        r
    }

    /// Applies one event to every index.
    pub fn apply(&mut self, event: Event)
        requires
            old(self).wf(),
        ensures
            final(self).wf(),
            final(self)@ == old(self)@.apply(event@),
    {
        let ghost ev = event@;
        let ghost m0 = self.texts@;
        self.texts.apply(&event);
        proof {
            match ev {
                EventView::BookAdded(id, info) => {
                    let m1 = bind(m0, info.isbn, Projection::Books(BookField::Isbn(id)));
                    lemma_bind_all_adds(m1, tokens(info.title), Projection::Books(BookField::Title(id)));
                },
                EventView::AuthorAdded(id, info) => {
                    lemma_bind_all_adds(m0, tokens(info.name), Projection::Authors(AuthorField::Name(id)));
                },
                _ => {},
            }
        }
        let ghost mid = *self;
        match event {
            Event::BookAdded(id, info) => {
                let author = info.author.0.0;
                let mut list = match self.books_by_author_id.get(author) {
                    Some(v) => copy_books(v),
                    None => Vec::new(),
                };
                list.push(id);
                self.books_by_author_id.insert(author, list);
                self.books.insert(id.0.0, info);
                proof {
                    assert(self@.books =~= mid@.books.insert(id.raw(), ev->BookAdded_1));
                    assert(self@.books_by_author =~= mid@.books_by_author.insert(
                        author,
                        mid@.listed_books(author).push(id),
                    ));
                    assert(self@ == old(self)@.apply(ev));
                    self.lemma_searchable_after_book(mid, old(self)@, ev);
                    IndexSet::lemma_records_unique_kept(old(self)@, self@);
                }
            },
            Event::AuthorAdded(id, info) => {
                self.authors.insert(id.0.0, info);
                proof {
                    assert(self@.authors =~= mid@.authors.insert(id.raw(), ev->AuthorAdded_1));
                    assert(self@ == old(self)@.apply(ev));
                    IndexSet::lemma_records_unique_kept(old(self)@, self@);
                }
            },
            Event::ReaderAdded(id, info) => {
                let moniker = info.unique_moniker.clone();
                self.reader_by_moniker.insert(moniker, id);
                self.readers.insert(id.0.0, info);
                proof {
                    assert(self@.readers =~= mid@.readers.insert(id.raw(), ev->ReaderAdded_1));
                    assert(self@ == old(self)@.apply(ev));
                    IndexSet::lemma_records_unique_kept(old(self)@, self@);
                }
            },
            Event::BookRead(id, info) => {
                let reader = id.0.0;
                let mut records = match self.books_by_reader_id.get(reader) {
                    Some(v) => copy_records(v),
                    None => Vec::new(),
                };
                if !records_have_book(&records, info.book_id) {
                    let ghost before = records@;
                    records.push(info);
                    self.books_by_reader_id.insert(reader, records);
                    proof {
                        assert(before == mid@.records(reader));
                        assert(self@.books_by_reader =~= mid@.books_by_reader.insert(
                            reader,
                            before.push(info),
                        ));
                        assert(self@ == old(self)@.apply(ev));
                        assert forall|r: u128, i: int, j: int|
                            #![trigger self@.records(r)[i], self@.records(r)[j]]
                            0 <= i < j < self@.records(r).len() implies self@.records(r)[i].book_id
                                != self@.records(r)[j].book_id by {
                            if r == reader {
                                if j == before.len() {
                                    assert(self@.records(r)[i] == before[i]);
                                } else {
                                    assert(mid@.records(r)[i] == self@.records(r)[i]);
                                    assert(mid@.records(r)[j] == self@.records(r)[j]);
                                }
                            } else {
                                assert(mid@.records(r) == self@.records(r));
                            }
                        }
                    }
                } else {
                    proof {
                        assert(self@ == old(self)@.apply(ev));
                    }
                }
            },
            Event::KeywordAdded(target, keyword) => {
                self.keywords.add_keyword_to_target(keyword, target);
                proof {
                    assert(self@ == old(self)@.apply(ev));
                    IndexSet::lemma_records_unique_kept(old(self)@, self@);
                }
            },
        }
    }

    proof fn lemma_entity_views(&self)
        requires
            self.wf(),
        ensures
            self@.books.dom() == self.books.as_map().dom(),
            self@.books.len() == self.books.as_map().len(),
            self@.authors.dom() == self.authors.as_map().dom(),
            self@.authors.len() == self.authors.as_map().len(),
            self@.readers.dom() == self.readers.as_map().dom(),
            self@.readers.len() == self.readers.as_map().len(),
    {
        assert(self@.books.dom() =~= self.books.as_map().dom());
        assert(self@.authors.dom() =~= self.authors.as_map().dom());
        assert(self@.readers.dom() =~= self.readers.as_map().dom());
    }

    proof fn lemma_records_unique_kept(a: IndexView, b: IndexView)
        requires
            a.records_unique(),
            a.books_by_reader == b.books_by_reader,
        ensures
            b.records_unique(),
    {
        assert forall|r: u128, i: int, j: int|
            #![trigger b.records(r)[i], b.records(r)[j]]
            0 <= i < j < b.records(r).len() implies b.records(r)[i].book_id != b.records(r)[j].book_id by {
            assert(a.records(r) == b.records(r));
            assert(a.records(r)[i] == b.records(r)[i]);
            assert(a.records(r)[j] == b.records(r)[j]);
        }
    }

    proof fn lemma_searchable_after_book(&self, mid: IndexSet, start: IndexView, ev: EventView)
        requires
            ev is BookAdded,
            start.searchable(),
            mid@.texts == index_event(start.texts, ev),
            self@.texts == mid@.texts,
            self@.authors == start.authors,
            self@.books == start.books.insert(ev->BookAdded_0.raw(), ev->BookAdded_1),
            forall|term: Seq<char>, q: Projection|
                mid@.texts.contains_key(term) && #[trigger] mid@.texts[term].contains(q) ==> q
                    == Projection::Books(BookField::Title(ev->BookAdded_0)) || q == Projection::Books(
                    BookField::Isbn(ev->BookAdded_0),
                ) || (start.texts.contains_key(term) && start.texts[term].contains(q)),
        ensures
            self@.searchable(),
    {
    }
}

/// `r` lists every book of `books` once, with its details.
pub open spec fn lists_books(books: Map<u128, BookInfoView>, r: Seq<Book>) -> bool {
    &&& r.len() == books.len()
    &&& forall|i: int| #![auto] 0 <= i < r.len() ==> books.contains_key(r[i].0.raw())
        && r[i].1@ == books[r[i].0.raw()]
    &&& forall|i: int, j: int| #![auto] 0 <= i < j < r.len() ==> r[i].0 != r[j].0
}

/// `r` lists every author of `authors` once, with its details.
pub open spec fn lists_authors(authors: Map<u128, AuthorInfoView>, r: Seq<Author>) -> bool {
    &&& r.len() == authors.len()
    &&& forall|i: int| #![auto] 0 <= i < r.len() ==> authors.contains_key(r[i].0.raw())
        && r[i].1@ == authors[r[i].0.raw()]
    &&& forall|i: int, j: int| #![auto] 0 <= i < j < r.len() ==> r[i].0 != r[j].0
}

/// `r` lists every reader of `readers` once, with its details.
pub open spec fn lists_readers(readers: Map<u128, ReaderInfoView>, r: Seq<Reader>) -> bool {
    &&& r.len() == readers.len()
    &&& forall|i: int| #![auto] 0 <= i < r.len() ==> readers.contains_key(r[i].0.raw())
        && r[i].1@ == readers[r[i].0.raw()]
    &&& forall|i: int, j: int| #![auto] 0 <= i < j < r.len() ==> r[i].0 != r[j].0
}

/// Every book in the collection.
pub struct AllBooks;

impl AllBooks {
    pub fn execute(&self, index: &IndexSet) -> (r: Vec<Book>)
        requires
            index.wf(),
        ensures
            lists_books(index@.books, r@),
    {
        let t = &index.books;
        proof {
            index.lemma_entity_views();
        }
        let mut r: Vec<Book> = Vec::new();
        let mut i: usize = 0;
        proof {
            t.lemma_order();
        }
        while i < t.len()
            invariant
                t.wf(),
                i <= t.order().len(),
                r@.len() == i,
                t.order().no_duplicates(),
                forall|j: int| #![auto] 0 <= j < i ==> r@[j].0.raw() == t.order()[j]
                    && t.as_map().contains_key(t.order()[j]) && r@[j].1@ == t.as_map()[t.order()[j]]@,
            decreases t.order().len() - i,
        {
            let k = t.key_at(i);
            let info = t.value_at(i).duplicate();
            r.push(Book(BookId(UniqueId(k)), info));
            i = i + 1;
        }
        proof {
            assert forall|a: int, b: int| #![auto] 0 <= a < b < r@.len() implies r@[a].0 != r@[b].0 by {
                assert(t.order()[a] != t.order()[b]);
            }
            assert forall|a: int| #![auto] 0 <= a < r@.len() implies index@.books.contains_key(r@[a].0.raw())
                && r@[a].1@ == index@.books[r@[a].0.raw()] by {
                assert(t.as_map().contains_key(t.order()[a]));
            }
        }
        r
    }
}

/// One book.
pub struct BookById(pub BookId);

impl BookById {
    pub fn execute(&self, index: &IndexSet) -> (r: Option<Book>)
        requires
            index.wf(),
        ensures
            match r {
                Some(b) => index@.books.contains_key(self.0.raw()) && b.0 == self.0 && b.1@
                    == index@.books[self.0.raw()],
                None => !index@.books.contains_key(self.0.raw()),
            },
    {
        match index.books.get(self.0.0.0) {
            Some(info) => Some(Book(self.0, info.duplicate())),
            None => None,
        }
    }
}

/// One author.
pub struct AuthorById(pub AuthorId);

impl AuthorById {
    pub fn execute(&self, index: &IndexSet) -> (r: Option<Author>)
        requires
            index.wf(),
        ensures
            match r {
                Some(a) => index@.authors.contains_key(self.0.raw()) && a.0 == self.0 && a.1@
                    == index@.authors[self.0.raw()],
                None => !index@.authors.contains_key(self.0.raw()),
            },
    {
        match index.authors.get(self.0.0.0) {
            Some(info) => Some(Author(self.0, info.duplicate())),
            None => None,
        }
    }
}

/// The author of a book.
pub struct AuthorByBookId(pub BookId);

impl AuthorByBookId {
    pub fn execute(&self, index: &IndexSet) -> (r: Option<Author>)
        requires
            index.wf(),
        ensures
            match r {
                Some(a) => index@.books.contains_key(self.0.raw()) && a.0
                    == index@.books[self.0.raw()].author && index@.authors.contains_key(a.0.raw())
                    && a.1@ == index@.authors[a.0.raw()],
                None => !index@.books.contains_key(self.0.raw()) || !index@.authors.contains_key(
                    index@.books[self.0.raw()].author.raw(),
                ),
            },
    {
        match index.books.get(self.0.0.0) {
            Some(book) => {
                let author = book.author;
                match index.authors.get(author.0.0) {
                    Some(info) => Some(Author(author, info.duplicate())),
                    None => None,
                }
            },
            None => None,
        }
    }
}

/// Whether every record of `recs` names a book in `books`.
pub open spec fn all_known(books: Map<u128, BookInfoView>, recs: Seq<BookReadInfo>) -> bool {
    forall|i: int| #![auto] 0 <= i < recs.len() ==> books.contains_key(recs[i].book_id.raw())
}

/// The books a reader has read: one per reading record, or none at all when
/// some record names a book the index does not hold.
pub struct BooksByReader(pub ReaderId);

impl BooksByReader {
    pub fn execute(&self, index: &IndexSet) -> (r: Vec<Book>)
        requires
            index.wf(),
        ensures
            all_known(index@.books, index@.records(self.0.raw())) ==> r@.len() == index@.records(
                self.0.raw(),
            ).len(),
            all_known(index@.books, index@.records(self.0.raw())) ==> forall|i: int|
                #![auto]
                0 <= i < r@.len() ==> r@[i].0 == index@.records(self.0.raw())[i].book_id && r@[i].1@
                    == index@.books[index@.records(self.0.raw())[i].book_id.raw()],
            !all_known(index@.books, index@.records(self.0.raw())) ==> r@.len() == 0,
            forall|i: int, j: int| #![auto] 0 <= i < j < r@.len() ==> r@[i].0 != r@[j].0,
    {
        let mut out: Vec<Book> = Vec::new();
        let ghost recs = index@.records(self.0.raw());
        match index.books_by_reader_id.get(self.0.0.0) {
            Some(records) => {
                let mut i: usize = 0;
                while i < records.len()
                    invariant
                        index.wf(),
                        recs == index@.records(self.0.raw()),
                        records@ == recs,
                        i <= recs.len(),
                        out@.len() == i,
                        all_known(index@.books, recs.subrange(0, i as int)),
                        forall|j: int| #![auto] 0 <= j < i ==> out@[j].0 == recs[j].book_id
                            && out@[j].1@ == index@.books[recs[j].book_id.raw()],
                    decreases recs.len() - i,
                {
                    let book_id = records[i].book_id;
                    match index.books.get(book_id.0.0) {
                        Some(info) => {
                            out.push(Book(book_id, info.duplicate()));
                            i = i + 1;
                            proof {
                                assert forall|j: int| #![auto] 0 <= j < i implies index@.books.contains_key(recs.subrange(0, i as int)[j].book_id.raw()) by {
                                    if j < i - 1 {
                                        assert(recs.subrange(0, i as int)[j] == recs.subrange(0, i as int - 1)[j]);
                                    }
                                }
                            }
                        },
                        None => {
                            proof {
                                index.lemma_entity_views();
                                assert(!index@.books.contains_key(recs[i as int].book_id.raw()));
                                assert(!all_known(index@.books, recs));
                            }
                            return Vec::new();
                        },
                    }
                }
                proof {
                    assert(recs.subrange(0, recs.len() as int) =~= recs);
                    assert forall|a: int, b: int| #![auto] 0 <= a < b < out@.len() implies out@[a].0 != out@[b].0 by {
                        assert(recs[a] == index@.records(self.0.raw())[a]);
                        assert(recs[b] == index@.records(self.0.raw())[b]);
                    }
                }
            },
            None => {},
        }
        out
    }
}

/// Every author in the collection.
pub struct AllAuthors;

impl AllAuthors {
    pub fn execute(&self, index: &IndexSet) -> (r: Vec<Author>)
        requires
            index.wf(),
        ensures
            lists_authors(index@.authors, r@),
    {
        let t = &index.authors;
        proof {
            index.lemma_entity_views();
        }
        let mut r: Vec<Author> = Vec::new();
        let mut i: usize = 0;
        proof {
            t.lemma_order();
        }
        while i < t.len()
            invariant
                t.wf(),
                i <= t.order().len(),
                r@.len() == i,
                t.order().no_duplicates(),
                forall|j: int| #![auto] 0 <= j < i ==> r@[j].0.raw() == t.order()[j]
                    && t.as_map().contains_key(t.order()[j]) && r@[j].1@ == t.as_map()[t.order()[j]]@,
            decreases t.order().len() - i,
        {
            let k = t.key_at(i);
            let info = t.value_at(i).duplicate();
            r.push(Author(AuthorId(UniqueId(k)), info));
            i = i + 1;
        }
        proof {
            assert forall|a: int, b: int| #![auto] 0 <= a < b < r@.len() implies r@[a].0 != r@[b].0 by {
                assert(t.order()[a] != t.order()[b]);
            }
            assert forall|a: int| #![auto] 0 <= a < r@.len() implies index@.authors.contains_key(r@[a].0.raw())
                && r@[a].1@ == index@.authors[r@[a].0.raw()] by {
                assert(t.as_map().contains_key(t.order()[a]));
            }
        }
        r
    }
}

/// The books by an author that the index holds, in the order they were added.
pub open spec fn present_books(v: IndexView, author: u128) -> Seq<BookId> {
    v.listed_books(author).filter(is_present(v))
}

/// Whether the index holds a book.
pub open spec fn is_present(v: IndexView) -> spec_fn(BookId) -> bool {
    |b: BookId| v.books.contains_key(b.raw())
}

/// The books of one author.
pub struct BooksByAuthorId(pub AuthorId);

impl BooksByAuthorId {
    pub fn execute(&self, index: &IndexSet) -> (r: Vec<Book>)
        requires
            index.wf(),
        ensures
            r@.len() == present_books(index@, self.0.raw()).len(),
            forall|i: int| 0 <= i < r@.len() ==> #[trigger] r@[i].0 == present_books(index@, self.0.raw())[i]
                && r@[i].1@ == index@.books[r@[i].0.raw()],
    {
        let mut r: Vec<Book> = Vec::new();
        let ghost v = index@;
        let ghost pred = is_present(v);
        proof {
            index.lemma_entity_views();
        }
        match index.books_by_author_id.get(self.0.0.0) {
            Some(ids) => {
                let mut i: usize = 0;
                while i < ids.len()
                    invariant
                        index.wf(),
                        v == index@,
                        pred == is_present(v),
                        ids@ == v.listed_books(self.0.raw()),
                        i <= ids@.len(),
                        r@.len() == ids@.subrange(0, i as int).filter(pred).len(),
                        forall|j: int| #![auto] 0 <= j < r@.len() ==> r@[j].0 == ids@.subrange(0, i as int).filter(pred)[j]
                            && r@[j].1@ == v.books[r@[j].0.raw()],
                    decreases ids@.len() - i,
                {
                    let id = ids[i];
                    proof {
                        assert(ids@.subrange(0, i as int + 1) == ids@.subrange(0, i as int).push(id));
                        ids@.subrange(0, i as int).lemma_filter_push(id, pred);
                        assert(pred(id) == v.books.contains_key(id.raw()));
                    }
                    let ghost prev = r@;
                    let ghost old_prefix = ids@.subrange(0, i as int).filter(pred);
                    match index.books.get(id.0.0) {
                        Some(info) => {
                            r.push(Book(id, info.duplicate()));
                            proof {
                                assert(ids@.subrange(0, i as int + 1).filter(pred) == old_prefix.push(id));
                                assert forall|j: int| #![auto] 0 <= j < r@.len() implies r@[j].0 == ids@.subrange(0, i as int + 1).filter(pred)[j]
                                    && r@[j].1@ == v.books[r@[j].0.raw()] by {
                                    if j < prev.len() {
                                        assert(r@[j] == prev[j]);
                                    }
                                }
                            }
                        },
                        None => {
                            proof {
                                assert(ids@.subrange(0, i as int + 1).filter(pred) == old_prefix);
                            }
                        },
                    }
                    i = i + 1;
                }
                proof {
                    assert(ids@.subrange(0, ids@.len() as int) =~= ids@);
                    assert(present_books(v, self.0.raw()) == ids@.filter(pred));
                    assert forall|j: int| #![auto] 0 <= j < r@.len() implies r@[j].0 == present_books(index@, self.0.raw())[j]
                        && r@[j].1@ == index@.books[r@[j].0.raw()] by {
                        assert(r@[j].0 == ids@.subrange(0, i as int).filter(pred)[j]);
                    }
                }
            },
            None => {
                proof {
                    assert(v.listed_books(self.0.raw()) =~= Seq::<BookId>::empty());
                    assert(present_books(v, self.0.raw()) =~= Seq::<BookId>::empty()) by {
                        reveal(Seq::filter);
                    }
                }
            },
        }
        proof {
            assert forall|j: int| 0 <= j < r@.len() implies #[trigger] r@[j].0 == present_books(index@, self.0.raw())[j]
                && r@[j].1@ == index@.books[r@[j].0.raw()] by {}
        }
        r
    }
}

/// Every reader.
pub struct AllReaders;

impl AllReaders {
    pub fn execute(&self, index: &IndexSet) -> (r: Vec<Reader>)
        requires
            index.wf(),
        ensures
            lists_readers(index@.readers, r@),
    {
        let t = &index.readers;
        proof {
            index.lemma_entity_views();
        }
        let mut r: Vec<Reader> = Vec::new();
        let mut i: usize = 0;
        proof {
            t.lemma_order();
        }
        while i < t.len()
            invariant
                t.wf(),
                i <= t.order().len(),
                r@.len() == i,
                t.order().no_duplicates(),
                forall|j: int| #![auto] 0 <= j < i ==> r@[j].0.raw() == t.order()[j]
                    && t.as_map().contains_key(t.order()[j]) && r@[j].1@ == t.as_map()[t.order()[j]]@,
            decreases t.order().len() - i,
        {
            let k = t.key_at(i);
            let info = t.value_at(i).duplicate();
            r.push(Reader(ReaderId(UniqueId(k)), info));
            i = i + 1;
        }
        proof {
            assert forall|a: int, b: int| #![auto] 0 <= a < b < r@.len() implies r@[a].0 != r@[b].0 by {
                assert(t.order()[a] != t.order()[b]);
            }
            assert forall|a: int| #![auto] 0 <= a < r@.len() implies index@.readers.contains_key(r@[a].0.raw())
                && r@[a].1@ == index@.readers[r@[a].0.raw()] by {
                assert(t.as_map().contains_key(t.order()[a]));
            }
        }
        r
    }
}

/// One reader.
pub struct ReaderById(pub ReaderId);

impl ReaderById {
    pub fn execute(&self, index: &IndexSet) -> (r: Option<Reader>)
        requires
            index.wf(),
        ensures
            match r {
                Some(x) => index@.readers.contains_key(self.0.raw()) && x.0 == self.0 && x.1@
                    == index@.readers[self.0.raw()],
                None => !index@.readers.contains_key(self.0.raw()),
            },
    {
        match index.readers.get(self.0.0.0) {
            Some(info) => Some(Reader(self.0, info.duplicate())),
            None => None,
        }
    }
}

/// The reader holding a moniker.
pub struct UniqueReaderByMoniker(pub String);

impl UniqueReaderByMoniker {
    pub fn execute(&self, index: &IndexSet) -> (r: Option<Reader>)
        requires
            index.wf(),
        ensures
            match r {
                Some(x) => index@.monikers.contains_key(self.0@) && x.0 == index@.monikers[self.0@]
                    && index@.readers.contains_key(x.0.raw()) && x.1@ == index@.readers[x.0.raw()],
                None => !index@.monikers.contains_key(self.0@) || !index@.readers.contains_key(
                    index@.monikers[self.0@].raw(),
                ),
            },
    {
        match index.reader_by_moniker.get(self.0.as_str()) {
            Some(id) => {
                let id = *id;
                match index.readers.get(id.0.0) {
                    Some(info) => Some(Reader(id, info.duplicate())),
                    None => None,
                }
            },
            None => None,
        }
    }
}

/// Every keyword.
pub struct AllKeywords;

impl AllKeywords {
    pub fn execute(&self, index: &IndexSet) -> (r: Vec<String>)
        requires
            index.wf(),
        ensures
            texts(r@).no_duplicates(),
            texts(r@).to_set() == index@.keywords.keywords,
    {
        index.keywords.all_keywords()
    }
}

/// The keywords attached to a target.
pub struct TargetKeywords(pub KeywordTarget);

impl TargetKeywords {
    pub fn execute(&self, index: &IndexSet) -> (r: Vec<String>)
        requires
            index.wf(),
        ensures
            texts(r@).no_duplicates(),
            texts(r@).to_set() == index@.keywords.keywords_of(self.0),
    {
        index.keywords.get_keywords(&self.0)
    }
}

/// The targets a keyword is attached to.
pub struct KeywordTargets(pub Keyword);

impl KeywordTargets {
    pub fn execute(&self, index: &IndexSet) -> (r: Vec<KeywordTarget>)
        requires
            index.wf(),
        ensures
            r@.no_duplicates(),
            r@.to_set() == index@.keywords.targets_of(self.0@),
    {
        index.keywords.get_targets_of_keyword(self.0.as_str())
    }
}

/// A search result: where the term was found, and the text it was found in.
pub struct SearchHit {
    pub target: Projection,
    pub source: String,
}

/// The text a projection points at, or `None` when its entity is missing.
pub fn resolve_projection(target: Projection, index: &IndexSet) -> (r: Option<SearchHit>)
    requires
        index.wf(),
    ensures
        match r {
            Some(hit) => index@.resolves(target) && hit.target == target && hit.source@
                == index@.source(target),
            None => !index@.resolves(target),
        },
{
    match target {
        Projection::Books(BookField::Isbn(id)) => match index.books.get(id.0.0) {
            Some(info) => Some(SearchHit { target, source: info.isbn.0.clone() }),
            None => None,
        },
        Projection::Books(BookField::Title(id)) => match index.books.get(id.0.0) {
            Some(info) => Some(SearchHit { target, source: info.title.clone() }),
            None => None,
        },
        Projection::Authors(AuthorField::Name(id)) => match index.authors.get(id.0.0) {
            Some(info) => Some(SearchHit { target, source: info.name.clone() }),
            None => None,
        },
    }
}

/// Looks a term up verbatim in the text index.
pub struct SearchQuery(pub String);

impl SearchQuery {
    /// One hit per projection bound under the term, with the text it points
    /// at. Every projection resolves, as the index keeps them in step.
    pub fn execute(&self, index: &IndexSet) -> (r: Vec<SearchHit>)
        requires
            index.wf(),
        ensures
            ({
                let found = if index@.texts.contains_key(self.0@) {
                    index@.texts[self.0@]
                } else {
                    Set::<Projection>::empty()
                };
                &&& r@.map_values(|h: SearchHit| h.target).to_set() == found
                &&& r@.map_values(|h: SearchHit| h.target).no_duplicates()
                &&& forall|i: int| #![auto] 0 <= i < r@.len() ==> r@[i].source@ == index@.source(r@[i].target)
            }),
    {
        let projections = index.texts.lookup(self.0.as_str());
        proof {
            assert(index@.texts == index.texts@);
        }
        let ghost found = projections@;
        let mut hits: Vec<SearchHit> = Vec::new();
        let mut i: usize = 0;
        while i < projections.len()
            invariant
                index.wf(),
                found == projections@,
                found.to_set() == (if index@.texts.contains_key(self.0@) {
                    index@.texts[self.0@]
                } else {
                    Set::<Projection>::empty()
                }),
                i <= found.len(),
                hits@.len() == i,
                forall|j: int| #![auto] 0 <= j < i ==> hits@[j].target == found[j],
                forall|j: int| #![auto] 0 <= j < hits@.len() ==> hits@[j].source@ == index@.source(hits@[j].target),
            decreases found.len() - i,
        {
            let p = projections[i];
            proof {
                assert(found.to_set().contains(p));
                assert(index@.texts.contains_key(self.0@));
                assert(index@.texts[self.0@].contains(p));
                assert(index@.resolves(p));
            }
            match resolve_projection(p, index) {
                Some(hit) => {
                    hits.push(hit);
                },
                None => {
                    assert(false);
                },
            }
            i = i + 1;
        }
        assert(hits@.map_values(|h: SearchHit| h.target) =~= found);
        hits
    }
}

} // verus!
