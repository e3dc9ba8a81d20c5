use blister::error::Error;
use blister::event::Event;
use blister::ids::{AuthorId, BookId, KeywordTarget, ReaderId, ResourceId, UniqueId};
use blister::keywords::KeywordIndex;
use blister::model::{AuthorInfo, BookInfo, BookReadInfo, Isbn, Keyword, ReaderInfo};
use blister::query::{AllBooks, AllReaders, BooksByAuthorId, BooksByReader, IndexSet};
use blister::text::{tokenize, BookField, Projection, SearchIndex};
use blister::write_model::{Decision, Rejection, WriteModel};
use blister::model::Command;

fn book(id: u128, title: &str, author: u128) -> Event {
    Event::BookAdded(
        BookId(UniqueId(id)),
        BookInfo { isbn: Isbn(format!("isbn-{id}")), title: title.to_owned(), author: AuthorId(UniqueId(author)) },
    )
}

#[test]
fn tokenize_splits_on_separators_and_drops_short_pieces() {
    assert_eq!(tokenize("Tango Romeo"), vec!["Tango", "Romeo"]);
    assert_eq!(tokenize("War, and (Peace). A-Z"), vec!["War", "and", "Peace"]);
    assert_eq!(tokenize(""), Vec::<String>::new());
    assert_eq!(tokenize("a b c"), Vec::<String>::new());
    assert_eq!(tokenize("--ab--"), vec!["ab"]);
}

#[test]
fn tokenize_measures_pieces_in_bytes() {
    assert_eq!(tokenize("é x"), vec!["é"]);
}

#[test]
fn keyword_shape_is_checked() {
    assert_eq!(Keyword::parse("fiction").expect("letters").into_string(), "fiction");
    assert_eq!(Keyword::parse("sci-fi_x").expect("hyphen and underscore").as_str(), "sci-fi_x");
    assert_eq!(Keyword::parse("Übersetzung").expect("unicode letters").as_str(), "Übersetzung");
    assert!(matches!(Keyword::parse("two words"), Err(Error::Generic(_))));
    assert!(matches!(Keyword::parse(""), Err(Error::Generic(_))));
    assert!(matches!(Keyword::parse("1984"), Err(Error::Generic(_))));
}

#[test]
fn keyword_from_match_follows_the_flag() {
    assert_eq!(Keyword::from_match("x y", true).expect("accepted").as_str(), "x y");
    assert!(matches!(Keyword::from_match("fiction", false), Err(Error::Generic(_))));
}

#[test]
fn fresh_identities_differ() {
    assert_ne!(UniqueId::fresh(), UniqueId::fresh());
}

#[test]
fn keyword_index_attaches_and_detaches() {
    let mut index = KeywordIndex::new();
    let b = KeywordTarget::Book(BookId(UniqueId(1)));
    let a = KeywordTarget::Author(AuthorId(UniqueId(1)));
    index.add_keyword_to_target("fiction".to_owned(), b);
    index.add_keyword_to_target("fiction".to_owned(), a);
    index.add_keyword_to_target("drama".to_owned(), b);
    let mut kws = index.get_keywords(&b);
    kws.sort();
    assert_eq!(kws, vec!["drama".to_owned(), "fiction".to_owned()]);
    assert_eq!(index.get_targets_of_keyword("fiction"), vec![b, a]);
    index.remove_keyword_from_target("fiction", b);
    assert_eq!(index.get_keywords(&b), vec!["drama".to_owned()]);
    assert_eq!(index.get_targets_of_keyword("fiction"), vec![a]);
    assert_eq!(index.get_keywords(&a), vec!["fiction".to_owned()]);
    let mut all = index.all_keywords();
    all.sort();
    assert_eq!(all, vec!["drama".to_owned(), "fiction".to_owned()]);
    assert!(index.get_targets_of_keyword("unknown").is_empty());
}

#[test]
fn search_index_binds_isbn_whole_and_title_tokens() {
    let mut index = SearchIndex::new();
    index.apply(&book(7, "Gone (with) the Wind", 1));
    let id = BookId(UniqueId(7));
    assert_eq!(index.lookup("isbn-7"), vec![Projection::Books(BookField::Isbn(id))]);
    assert_eq!(index.lookup("with"), vec![Projection::Books(BookField::Title(id))]);
    assert!(index.lookup("isbn").is_empty());
    assert!(index.lookup("Gone (with)").is_empty());
}

#[test]
fn books_by_reader_is_empty_when_a_book_is_unknown() {
    let mut index = IndexSet::new();
    index.apply(book(1, "One", 9));
    let reader = ReaderId(UniqueId(5));
    index.apply(Event::BookRead(reader, BookReadInfo { reader_id: reader, book_id: BookId(UniqueId(1)), when: None }));
    assert_eq!(BooksByReader(reader).execute(&index).len(), 1);
    index.apply(Event::BookRead(reader, BookReadInfo { reader_id: reader, book_id: BookId(UniqueId(2)), when: None }));
    assert!(BooksByReader(reader).execute(&index).is_empty());
}

#[test]
fn repeated_reading_event_keeps_one_record() {
    let mut index = IndexSet::new();
    index.apply(book(1, "One", 9));
    let reader = ReaderId(UniqueId(5));
    let info = BookReadInfo { reader_id: reader, book_id: BookId(UniqueId(1)), when: None };
    index.apply(Event::BookRead(reader, info));
    index.apply(Event::BookRead(reader, info));
    assert_eq!(BooksByReader(reader).execute(&index).len(), 1);
}

#[test]
fn books_by_author_keep_insertion_order() {
    let mut index = IndexSet::new();
    index.apply(book(3, "Third", 9));
    index.apply(book(1, "First", 9));
    index.apply(book(2, "Other", 8));
    let books = BooksByAuthorId(AuthorId(UniqueId(9))).execute(&index);
    let ids: Vec<u128> = books.iter().map(|b| b.0.0.0).collect();
    assert_eq!(ids, vec![3, 1]);
    assert_eq!(AllBooks.execute(&index).len(), 3);
    assert!(BooksByAuthorId(AuthorId(UniqueId(7))).execute(&index).is_empty());
}

#[test]
fn readers_are_listed() {
    let mut index = IndexSet::new();
    let info = ReaderInfo { name: "N".to_owned(), unique_moniker: "m".to_owned() };
    index.apply(Event::ReaderAdded(ReaderId(UniqueId(4)), info));
    let readers = AllReaders.execute(&index);
    assert_eq!(readers.len(), 1);
    assert_eq!(readers[0].1.unique_moniker, "m");
}

#[test]
fn write_model_decides() {
    let mut model = WriteModel::new();
    let author = AuthorId(UniqueId(1));
    match model.decide(Command::AddAuthor(AuthorInfo { name: "A".to_owned() }), UniqueId(1)) {
        Decision::Emit(event, Some(_)) => model.apply(event),
        _ => panic!("author must be accepted"),
    }
    let info = BookInfo { isbn: Isbn("i".to_owned()), title: "T".to_owned(), author };
    assert!(matches!(model.decide(Command::AddBook(info.clone()), UniqueId(2)), Decision::Emit(_, Some(_))));
    assert!(matches!(
        model.decide(Command::AddBook(info), UniqueId(1)),
        Decision::Rejected(Rejection::IdentityCollision)
    ));
    let stranger = BookInfo { isbn: Isbn("i".to_owned()), title: "T".to_owned(), author: AuthorId(UniqueId(3)) };
    assert!(matches!(
        model.decide(Command::AddBook(stranger), UniqueId(4)),
        Decision::Rejected(Rejection::UnknownAuthor)
    ));
}

#[test]
fn resource_ids_wrap_their_identity() {
    assert_eq!(ResourceId::from(BookId(UniqueId(1))), ResourceId::Book(BookId(UniqueId(1))));
    assert_eq!(ResourceId::from(AuthorId(UniqueId(2))), ResourceId::Author(AuthorId(UniqueId(2))));
    assert_eq!(ResourceId::from(ReaderId(UniqueId(3))), ResourceId::Reader(ReaderId(UniqueId(3))));
}
