use blister::application::{Application, EventStore, Outcome};
use blister::error::Error;
use blister::event::{Event, EventData, EventTime, ExternalRepresentation};
use blister::ids::{AuthorId, BookId, KeywordTarget, ReaderId, ResourceId, UniqueId};
use blister::model::{AuthorInfo, BookInfo, BookReadInfo, Command, Isbn, Keyword, ReaderInfo};
use blister::query::{
    AllAuthors, AllBooks, AllKeywords, AuthorByBookId, AuthorById, BookById, BooksByAuthorId,
    BooksByReader, KeywordTargets, ReaderById, SearchQuery, TargetKeywords, UniqueReaderByMoniker,
};
use blister::text::{AuthorField, BookField, Projection};
use blister::write_model::Rejection;

struct Accepting(Vec<u128>);

impl EventStore for Accepting {
    fn persist(&mut self, record: &ExternalRepresentation) -> Result<(), Error> {
        self.0.push(record.id.0);
        Ok(())
    }
}

struct Failing;

impl EventStore for Failing {
    fn persist(&mut self, _record: &ExternalRepresentation) -> Result<(), Error> {
        Err(Error::Io("disk full".to_owned()))
    }
}

struct Harness {
    app: Application,
    store: Accepting,
    next: u128,
}

impl Harness {
    fn new() -> Self {
        Harness { app: Application::new(), store: Accepting(vec![]), next: 1000 }
    }

    fn submit_with(&mut self, command: Command, fresh: u128) -> Outcome {
        self.next += 1;
        let when = EventTime { unix_nanos: self.next as i128 };
        self.app
            .submit_command(&mut self.store, command, UniqueId(fresh), UniqueId(self.next), when)
            .expect("store accepts")
    }

    fn submit(&mut self, command: Command) -> Outcome {
        let fresh = self.next + 500_000;
        self.submit_with(command, fresh)
    }

    fn add_author(&mut self, name: &str) -> AuthorId {
        match self.submit(Command::AddAuthor(AuthorInfo { name: name.to_owned() })) {
            Outcome::Accepted(Some(ResourceId::Author(id))) => id,
            _ => panic!("author not accepted"),
        }
    }

    fn add_book(&mut self, isbn: &str, title: &str, author: AuthorId) -> BookId {
        let info = BookInfo { isbn: Isbn(isbn.to_owned()), title: title.to_owned(), author };
        match self.submit(Command::AddBook(info)) {
            Outcome::Accepted(Some(ResourceId::Book(id))) => id,
            _ => panic!("book not accepted"),
        }
    }
}

fn reader_info(name: &str, moniker: &str) -> ReaderInfo {
    ReaderInfo { name: name.to_owned(), unique_moniker: moniker.to_owned() }
}

#[test]
fn add_author_then_list_authors() {
    let mut h = Harness::new();
    let outcome = h.submit_with(Command::AddAuthor(AuthorInfo { name: "A".to_owned() }), 77);
    assert_eq!(outcome, Outcome::Accepted(Some(ResourceId::Author(AuthorId(UniqueId(77))))));
    let authors = AllAuthors.execute(h.app.read_model());
    assert_eq!(authors.len(), 1);
    assert_eq!(authors[0].0, AuthorId(UniqueId(77)));
    assert_eq!(authors[0].1.name, "A");
}

#[test]
fn book_with_unknown_author_is_rejected() {
    let mut h = Harness::new();
    let info = BookInfo {
        isbn: Isbn("978-0".to_owned()),
        title: "T".to_owned(),
        author: AuthorId(UniqueId(5)),
    };
    assert_eq!(h.submit(Command::AddBook(info)), Outcome::Rejected(Rejection::UnknownAuthor));
    assert!(AllBooks.execute(h.app.read_model()).is_empty());
    assert!(h.app.journal().is_empty());
}

#[test]
fn books_by_author_survive_a_restart() {
    let mut h = Harness::new();
    let alpha = h.add_author("A");
    let beta = h.add_book("978-0", "Tango", alpha);
    let journal = h.app.journal();
    assert_eq!(journal.len(), 2);
    let restarted = Application::recover(&journal).expect("journal replays");
    let books = BooksByAuthorId(alpha).execute(restarted.read_model());
    assert_eq!(books.len(), 1);
    assert_eq!(books[0].0, beta);
    assert_eq!(books[0].1.title, "Tango");
    assert_eq!(books[0].1.isbn.0, "978-0");
    assert_eq!(restarted.journal().len(), 2);
}

#[test]
fn second_reader_with_same_moniker_is_rejected() {
    let mut h = Harness::new();
    let first = h.submit(Command::AddReader(reader_info("N", "m")));
    let id = match first {
        Outcome::Accepted(Some(ResourceId::Reader(id))) => id,
        other => panic!("unexpected {:?}", other),
    };
    let second = h.submit(Command::AddReader(reader_info("N", "m")));
    assert_eq!(second, Outcome::Rejected(Rejection::MonikerTaken));
    let found = UniqueReaderByMoniker("m".to_owned()).execute(h.app.read_model()).expect("reader");
    assert_eq!(found.0, id);
    assert_eq!(found.1.name, "N");
    assert!(UniqueReaderByMoniker("other".to_owned()).execute(h.app.read_model()).is_none());
}

#[test]
fn search_finds_titles_and_isbns() {
    let mut h = Harness::new();
    let alpha = h.add_author("Alice");
    let beta = h.add_book("978-0", "Tango Romeo", alpha);
    let index = h.app.read_model();
    let hits = SearchQuery("Tango".to_owned()).execute(index);
    assert_eq!(hits.len(), 1);
    assert_eq!(hits[0].target, Projection::Books(BookField::Title(beta)));
    assert_eq!(hits[0].source, "Tango Romeo");
    let hits = SearchQuery("978-0".to_owned()).execute(index);
    assert_eq!(hits.len(), 1);
    assert_eq!(hits[0].target, Projection::Books(BookField::Isbn(beta)));
    assert_eq!(hits[0].source, "978-0");
    assert!(SearchQuery("Al".to_owned()).execute(index).is_empty());
    let hits = SearchQuery("Alice".to_owned()).execute(index);
    assert_eq!(hits.len(), 1);
    assert_eq!(hits[0].target, Projection::Authors(AuthorField::Name(alpha)));
    assert_eq!(hits[0].source, "Alice");
}

#[test]
fn keyword_added_twice_is_listed_once() {
    let mut h = Harness::new();
    let alpha = h.add_author("A");
    let beta = h.add_book("978-0", "T", alpha);
    for _ in 0..2 {
        let keyword = Keyword::parse("fiction").expect("valid keyword");
        let outcome = h.submit(Command::AddKeyword(keyword, KeywordTarget::Book(beta)));
        assert_eq!(outcome, Outcome::Accepted(None));
    }
    let index = h.app.read_model();
    assert_eq!(TargetKeywords(KeywordTarget::Book(beta)).execute(index), vec!["fiction".to_owned()]);
    let keyword = Keyword::parse("fiction").expect("valid keyword");
    assert_eq!(KeywordTargets(keyword).execute(index), vec![KeywordTarget::Book(beta)]);
    assert_eq!(AllKeywords.execute(index), vec!["fiction".to_owned()]);
}

#[test]
fn reading_a_book_twice_is_rejected_and_listed_once() {
    let mut h = Harness::new();
    let alpha = h.add_author("A");
    let beta = h.add_book("978-0", "T", alpha);
    let reader = match h.submit(Command::AddReader(reader_info("R", "r"))) {
        Outcome::Accepted(Some(ResourceId::Reader(id))) => id,
        other => panic!("unexpected {:?}", other),
    };
    let info = BookReadInfo { reader_id: reader, book_id: beta, when: None };
    assert_eq!(h.submit(Command::AddReadBook(info)), Outcome::Accepted(None));
    assert_eq!(h.submit(Command::AddReadBook(info)), Outcome::Rejected(Rejection::AlreadyRead));
    let books = BooksByReader(reader).execute(h.app.read_model());
    assert_eq!(books.len(), 1);
    assert_eq!(books[0].0, beta);
}

#[test]
fn minted_identity_already_in_use_is_rejected() {
    let mut h = Harness::new();
    h.submit_with(Command::AddAuthor(AuthorInfo { name: "A".to_owned() }), 9);
    let again = h.submit_with(Command::AddAuthor(AuthorInfo { name: "B".to_owned() }), 9);
    assert_eq!(again, Outcome::Rejected(Rejection::IdentityCollision));
    assert_eq!(AllAuthors.execute(h.app.read_model()).len(), 1);
}

#[test]
fn store_failure_changes_nothing() {
    let mut app = Application::new();
    let command = Command::AddAuthor(AuthorInfo { name: "A".to_owned() });
    let when = EventTime { unix_nanos: 0 };
    let result = app.submit_command(&mut Failing, command, UniqueId(1), UniqueId(2), when);
    assert!(matches!(result, Err(Error::Io(_))));
    assert!(app.journal().is_empty());
    assert!(AllAuthors.execute(app.read_model()).is_empty());
}

#[test]
fn reused_event_id_is_an_error() {
    let mut h = Harness::new();
    let when = EventTime { unix_nanos: 0 };
    let first = Command::AddAuthor(AuthorInfo { name: "A".to_owned() });
    h.app.submit_command(&mut h.store, first, UniqueId(1), UniqueId(50), when).expect("first");
    let second = Command::AddAuthor(AuthorInfo { name: "B".to_owned() });
    let result = h.app.submit_command(&mut h.store, second, UniqueId(2), UniqueId(50), when);
    assert_eq!(result, Err(Error::DuplicateEventId(50)));
    assert_eq!(h.store.0, vec![50]);
}

#[test]
fn point_queries() {
    let mut h = Harness::new();
    let alpha = h.add_author("A");
    let beta = h.add_book("978-0", "T", alpha);
    let index = h.app.read_model();
    assert_eq!(BookById(beta).execute(index).expect("book").1.title, "T");
    assert!(BookById(BookId(UniqueId(3))).execute(index).is_none());
    assert_eq!(AuthorById(alpha).execute(index).expect("author").1.name, "A");
    let author = AuthorByBookId(beta).execute(index).expect("author of book");
    assert_eq!(author.0, alpha);
    assert!(ReaderById(ReaderId(UniqueId(3))).execute(index).is_none());
}

#[test]
fn the_log_answers_by_event_and_by_aggregate() {
    let mut h = Harness::new();
    let alpha = h.add_author("A");
    let beta = h.add_book("978-0", "T", alpha);
    let keyword = Keyword::parse("classic").expect("valid keyword");
    h.submit(Command::AddKeyword(keyword, KeywordTarget::Author(alpha)));
    let log = h.app.log();
    let stream = log.find_by_aggregate_id(alpha.0);
    assert_eq!(stream.len(), 2);
    assert_eq!(stream[0].what, "author-added");
    assert_eq!(stream[1].what, "keyword-added");
    let journal = h.app.journal();
    assert_eq!(journal.len(), 3);
    let found = log.find_by_event_id(journal[1].id).expect("present");
    assert_eq!(found.aggregate_id, beta.0);
    assert_eq!(log.find_by_event_id(UniqueId(1)).unwrap_err(), Error::EventNotFound(1));
    assert_eq!(log.load_author(alpha).expect("author").1.name, "A");
    assert_eq!(log.load_book(beta).expect("book").1.title, "T");
    assert!(matches!(log.load_book(BookId(alpha.0)), Err(Error::AggregateParseError(_))));
    assert!(matches!(log.load_author(AuthorId(UniqueId(4))), Err(Error::AggregateParseError(_))));
}

#[test]
fn unknown_discriminator_fails_replay() {
    let record = ExternalRepresentation {
        id: UniqueId(1),
        when: EventTime { unix_nanos: 0 },
        aggregate_id: UniqueId(2),
        what: "book-deleted".to_owned(),
        data: EventData::Author(AuthorInfo { name: "A".to_owned() }),
    };
    assert!(matches!(
        Event::from_external_representation(&record),
        Err(Error::UnknownEventType(w)) if w == "book-deleted"
    ));
    assert!(matches!(Application::recover(&vec![record]), Err(Error::UnknownEventType(_))));
}

#[test]
fn payload_of_the_wrong_kind_fails_decoding() {
    let record = ExternalRepresentation {
        id: UniqueId(1),
        when: EventTime { unix_nanos: 0 },
        aggregate_id: UniqueId(2),
        what: "book-added".to_owned(),
        data: EventData::Author(AuthorInfo { name: "A".to_owned() }),
    };
    assert!(matches!(Event::from_external_representation(&record), Err(Error::JsonSerde(_))));
}

#[test]
fn event_round_trips_through_its_stored_form() {
    let event = Event::ReaderAdded(ReaderId(UniqueId(8)), reader_info("N", "m"));
    let record = event.external_representation(UniqueId(3), EventTime { unix_nanos: 5 });
    assert_eq!(record.what, "reader-added");
    assert_eq!(record.aggregate_id, UniqueId(8));
    match Event::from_external_representation(&record).expect("decodes") {
        Event::ReaderAdded(id, info) => {
            assert_eq!(id, ReaderId(UniqueId(8)));
            assert_eq!(info.unique_moniker, "m");
        }
        other => panic!("unexpected {:?}", other),
    }
}

#[test]
fn duplicate_records_fail_recovery() {
    let event = Event::AuthorAdded(AuthorId(UniqueId(8)), AuthorInfo { name: "A".to_owned() });
    let record = event.external_representation(UniqueId(3), EventTime { unix_nanos: 5 });
    let again = event.external_representation(UniqueId(3), EventTime { unix_nanos: 6 });
    assert_eq!(Application::recover(&vec![record, again]).err(), Some(Error::DuplicateEventId(3)));
}

#[test]
fn store_answer_decides_completion() {
    let mut app = Application::new();
    let event = Event::AuthorAdded(AuthorId(UniqueId(4)), AuthorInfo { name: "A".to_owned() });
    let when = EventTime { unix_nanos: 1 };
    let failed = app.apply_persisted(event, UniqueId(10), when, Err(Error::Io("gone".to_owned())));
    assert_eq!(failed, Err(Error::Io("gone".to_owned())));
    assert!(app.journal().is_empty());
    let event = Event::AuthorAdded(AuthorId(UniqueId(4)), AuthorInfo { name: "A".to_owned() });
    assert_eq!(app.apply_persisted(event, UniqueId(10), when, Ok(())), Ok(()));
    assert_eq!(app.journal().len(), 1);
    assert_eq!(AllAuthors.execute(app.read_model()).len(), 1);
}

#[test]
fn event_ids_follow_log_positions() {
    let mut h = Harness::new();
    let first = h.app.next_event_id(7);
    assert_eq!(first, UniqueId(7));
    h.add_author("A");
    let second = h.app.next_event_id(3);
    assert_eq!(second, UniqueId((1u128 << 64) + 3));
    assert!(second.0 > first.0);
}

#[test]
fn malformed_keyword_is_rejected() {
    let mut h = Harness::new();
    let alpha = h.add_author("A");
    let keyword = Keyword::from_match("two words", true).expect("taken as given");
    let outcome = h.submit(Command::AddKeyword(keyword, KeywordTarget::Author(alpha)));
    assert_eq!(outcome, Outcome::Rejected(Rejection::InvalidKeyword));
    assert!(AllKeywords.execute(h.app.read_model()).is_empty());
}
