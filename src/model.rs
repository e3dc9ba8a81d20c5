//! Domain entities, commands and events.

use vstd::prelude::*;
use crate::error::Error;
use crate::ids::{AuthorId, BookId, KeywordTarget, ReaderId, UniqueId};

verus! {

#[derive(Clone, Debug)]
pub struct Isbn(pub String);

#[derive(Clone, Debug)]
pub struct AuthorInfo {
    pub name: String,
}

#[derive(Clone, Debug)]
pub struct BookInfo {
    pub isbn: Isbn,
    pub title: String,
    pub author: AuthorId,
}

#[derive(Clone, Debug)]
pub struct ReaderInfo {
    pub name: String,
    pub unique_moniker: String,
}

/// A point in time with its UTC offset, as plain numbers.
#[derive(Clone, Copy, Debug, Hash, PartialEq, Eq, Structural)]
pub struct ReadingTime {
    pub unix_seconds: i64,
    pub nanosecond: u32,
    pub offset_seconds: i32,
}

/// A reading record: `reader_id` has read `book_id`, perhaps at `when`.
#[derive(Clone, Copy, Debug, Hash, PartialEq, Eq, Structural)]
pub struct BookReadInfo {
    pub reader_id: ReaderId,
    pub book_id: BookId,
    pub when: Option<ReadingTime>,
}

pub struct AuthorInfoView {
    pub name: Seq<char>,
}

pub struct BookInfoView {
    pub isbn: Seq<char>,
    pub title: Seq<char>,
    pub author: AuthorId,
}

pub struct ReaderInfoView {
    pub name: Seq<char>,
    pub unique_moniker: Seq<char>,
}

impl View for AuthorInfo {
    type V = AuthorInfoView;

    open spec fn view(&self) -> AuthorInfoView {
        AuthorInfoView { name: self.name@ }
    }
}

impl View for BookInfo {
    type V = BookInfoView;

    open spec fn view(&self) -> BookInfoView {
        BookInfoView { isbn: self.isbn.0@, title: self.title@, author: self.author }
    }
}

impl View for ReaderInfo {
    type V = ReaderInfoView;

    open spec fn view(&self) -> ReaderInfoView {
        ReaderInfoView { name: self.name@, unique_moniker: self.unique_moniker@ }
    }
}

impl AuthorInfo {
    pub fn duplicate(&self) -> (r: AuthorInfo)
        ensures
            r@ == self@,
    {
        AuthorInfo { name: self.name.clone() }
    }
}

impl BookInfo {
    pub fn duplicate(&self) -> (r: BookInfo)
        ensures
            r@ == self@,
    {
        BookInfo { isbn: Isbn(self.isbn.0.clone()), title: self.title.clone(), author: self.author }
    }
}

impl ReaderInfo {
    pub fn duplicate(&self) -> (r: ReaderInfo)
        ensures
            r@ == self@,
    {
        ReaderInfo { name: self.name.clone(), unique_moniker: self.unique_moniker.clone() }
    }
}

#[derive(Debug)]
pub struct Author(pub AuthorId, pub AuthorInfo);

#[derive(Debug)]
pub struct Book(pub BookId, pub BookInfo);

#[derive(Debug)]
pub struct Reader(pub ReaderId, pub ReaderInfo);

/// The shape a keyword must have: one or more letters, underscores or hyphens.
pub const KEYWORD_PATTERN: &'static str = "^[\\p{L}_-]+$";

/// Whether `pattern` compiles and matches `haystack`.
pub uninterp spec fn regex_matches(pattern: Seq<char>, haystack: Seq<char>) -> bool;

/// Relies on regex::Regex::new and Regex::is_match: whether `pattern`
/// compiles and matches somewhere in `haystack` (false for a pattern that
/// does not compile).
#[verifier::external_body]
fn pattern_matches(pattern: &str, haystack: &str) -> (r: bool)
    ensures
        r == regex_matches(pattern@, haystack@),
{
    match regex::Regex::new(pattern) {
        Ok(re) => re.is_match(haystack),
        Err(_) => false,
    }
}

/// A validated keyword.
#[derive(Clone, Debug, Hash, PartialEq, Eq)]
pub struct Keyword(String);

impl View for Keyword {
    type V = Seq<char>;

    closed spec fn view(&self) -> Seq<char> {
        self.0@
    }
}

impl Keyword {
    /// Whether `s` has the shape of a keyword.
    pub open spec fn is_valid(s: Seq<char>) -> bool {
        regex_matches(KEYWORD_PATTERN@, s)
    }

    /// Builds a keyword from `keyword` given whether it matched the keyword
    /// pattern.
    pub fn from_match(keyword: &str, matched: bool) -> (r: Result<Keyword, Error>)
        ensures
            matched ==> (r matches Ok(k) && k@ == keyword@),
            !matched ==> r matches Err(Error::Generic(_)),
    {
        if matched {
            Ok(Keyword(keyword.to_owned()))
        } else {
            Err(Error::Generic("not a valid keyword name".to_owned()))
        }
    }

    /// Parses a keyword: accepted exactly when it matches the keyword pattern.
    pub fn parse(keyword: &str) -> (r: Result<Keyword, Error>)
        ensures
            Keyword::is_valid(keyword@) ==> (r matches Ok(k) && k@ == keyword@),
            !Keyword::is_valid(keyword@) ==> r matches Err(Error::Generic(_)),
    {
        let matched = pattern_matches(KEYWORD_PATTERN, keyword);
        Keyword::from_match(keyword, matched)
    }

    /// Whether this keyword has the shape of a keyword.
    pub fn is_well_formed(&self) -> (r: bool)
        ensures
            r == Keyword::is_valid(self@),
    {
        pattern_matches(KEYWORD_PATTERN, self.0.as_str())
    }

    pub fn as_str(&self) -> (r: &str)
        ensures
            r@ == self@,
    {
        self.0.as_str()
    }

    pub fn into_string(self) -> (r: String)
        ensures
            r@ == self@,
    {
        self.0
    }
}

/// A write intent.
pub enum Command {
    AddBook(BookInfo),
    AddAuthor(AuthorInfo),
    AddReader(ReaderInfo),
    AddReadBook(BookReadInfo),
    AddKeyword(Keyword, KeywordTarget),
}

pub enum CommandView {
    AddBook(BookInfoView),
    AddAuthor(AuthorInfoView),
    AddReader(ReaderInfoView),
    AddReadBook(BookReadInfo),
    AddKeyword(Seq<char>, KeywordTarget),
}

impl View for Command {
    type V = CommandView;

    open spec fn view(&self) -> CommandView {
        match self {
            Command::AddBook(info) => CommandView::AddBook(info@),
            Command::AddAuthor(info) => CommandView::AddAuthor(info@),
            Command::AddReader(info) => CommandView::AddReader(info@),
            Command::AddReadBook(info) => CommandView::AddReadBook(*info),
            Command::AddKeyword(k, t) => CommandView::AddKeyword(k@, *t),
        }
    }
}

} // verus!
