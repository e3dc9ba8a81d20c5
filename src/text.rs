//! Full-text search over book titles, ISBNs and author names.

use vstd::prelude::*;
use vstd::std_specs::iter::IteratorSpec;
use crate::event::{Event, EventView};
use crate::ids::{AuthorId, BookId};
use crate::table::TextTable;

verus! {

broadcast use {vstd::string::next_postcondition, vstd::string::axiom_spec_iter};

/// The characters a phrase is split on.
pub open spec fn is_separator(c: char) -> bool {
    c == ' ' || c == ',' || c == '.' || c == '-' || c == '(' || c == ')'
}

/// The number of bytes `c` takes in UTF-8.
pub open spec fn utf8_width(c: char) -> nat {
    if (c as u32) < 0x80 {
        1
    } else if (c as u32) < 0x800 {
        2
    } else if (c as u32) < 0x10000 {
        3
    } else {
        4
    }
}

/// The number of bytes `s` takes in UTF-8.
pub open spec fn byte_len(s: Seq<char>) -> nat
    decreases s.len(),
{
    if s.len() == 0 {
        0
    } else {
        byte_len(s.drop_last()) + utf8_width(s.last())
    }
}

/// The pieces between separators, empty ones included (one more than there
/// are separators).
pub open spec fn pieces(s: Seq<char>) -> Seq<Seq<char>>
    decreases s.len(),
{
    if s.len() == 0 {
        seq![Seq::empty()]
    } else {
        let p = pieces(s.drop_last());
        if is_separator(s.last()) {
            p.push(Seq::empty())
        } else {
            p.update(p.len() - 1, p.last().push(s.last()))
        }
    }
}

/// Whether a piece is long enough (over one byte) to be indexed.
pub open spec fn is_term(t: Seq<char>) -> bool {
    byte_len(t) > 1
}

/// The search terms of a phrase: its pieces that are longer than one byte.
pub open spec fn tokens(s: Seq<char>) -> Seq<Seq<char>> {
    pieces(s).filter(|t: Seq<char>| is_term(t))
}

pub proof fn lemma_pieces_nonempty(s: Seq<char>)
    ensures
        pieces(s).len() >= 1,
    decreases s.len(),
{
    if s.len() > 0 {
        lemma_pieces_nonempty(s.drop_last());
    }
}

/// Relies on String::push: appends one character.
#[verifier::external_body]
pub(crate) fn push_char(s: &mut String, c: char)
    ensures
        final(s)@ == old(s)@.push(c),
{
    s.push(c)
}

fn char_width(c: char) -> (r: usize)
    ensures
        r == utf8_width(c),
{
    let v = c as u32;
    if v < 0x80 {
        1
    } else if v < 0x800 {
        2
    } else if v < 0x10000 {
        3
    } else {
        4
    }
}

/// Splits a phrase on ` , . - ( )` and keeps the pieces longer than one byte.
pub fn tokenize(phrase: &str) -> (r: Vec<String>)
    ensures
        r@.map_values(|t: String| t@) == tokens(phrase@),
{
    let mut chars = phrase.chars();
    let mut out: Vec<String> = Vec::new();
    let mut current = String::new();
    let mut width: usize = 0;
    let ghost mut done: Seq<char> = Seq::empty();
    proof {
        lemma_pieces_nonempty(done);
    }
    loop
        invariant
            done + chars.remaining() == phrase@,
            pieces(done).len() >= 1,
            current@ == pieces(done).last(),
            width == (if byte_len(current@) > 2 { 2 } else { byte_len(current@) }),
            out@.map_values(|t: String| t@) == pieces(done).drop_last().filter(
                |t: Seq<char>| is_term(t),
            ),
        decreases phrase@.len() - done.len(),
    {
        let ghost before = chars.remaining();
        match chars.next() {
            Some(c) => {
                proof {
                    assert(before.len() > 0);
                    assert(done + before == phrase@);
                }
                let ghost old_done = done;
                proof {
                    done = done.push(c);
                    assert(done.drop_last() == old_done);
                    assert(done.last() == c);
                    assert(done + chars.remaining() == phrase@) by {
                        assert(before == seq![c] + chars.remaining());
                        assert(old_done + before == done + chars.remaining());
                    }
                    lemma_pieces_nonempty(old_done);
                }
                if c == ' ' || c == ',' || c == '.' || c == '-' || c == '(' || c == ')' {
                    let piece = current;
                    let long = width > 1;
                    if long {
                        out.push(piece);
                    }
                    current = String::new();
                    width = 0;
                    proof {
                        let p = pieces(old_done);
                        assert(pieces(done) == p.push(Seq::empty()));
                        assert(pieces(done).drop_last() == p);
                        assert(p == p.drop_last().push(p.last()));
                        p.drop_last().lemma_filter_push(p.last(), |t: Seq<char>| is_term(t));
                        assert(out@.map_values(|t: String| t@) == p.filter(|t: Seq<char>| is_term(t)));
                    }
                } else {
                    let w = char_width(c);
                    push_char(&mut current, c);
                    if width + w > 2 {
                        width = 2;
                    } else {
                        width = width + w;
                    }
                    proof {
                        let p = pieces(old_done);
                        assert(pieces(done) == p.update(p.len() - 1, p.last().push(c)));
                        assert(pieces(done).drop_last() == p.drop_last());
                        assert(current@.drop_last() =~= pieces(old_done).last());
                    }
                }
            },
            None => {
                proof {
                    assert(chars.remaining().len() == 0);
                    assert(done == phrase@);
                    let p = pieces(done);
                    assert(p == p.drop_last().push(p.last()));
                    p.drop_last().lemma_filter_push(p.last(), |t: Seq<char>| is_term(t));
                }
                if width > 1 {
                    out.push(current);
                }
                return out;
            },
        }
    }
}

#[derive(Clone, Copy, Debug, Hash, PartialEq, Eq, Structural)]
pub enum BookField {
    Title(BookId),
    Isbn(BookId),
}

#[derive(Clone, Copy, Debug, Hash, PartialEq, Eq, Structural)]
pub enum AuthorField {
    Name(AuthorId),
}

/// Which field of which entity a search term was found in.
#[derive(Clone, Copy, Debug, Hash, PartialEq, Eq, Structural)]
pub enum Projection {
    Books(BookField),
    Authors(AuthorField),
}

/// `m` with `target` bound under `term`.
pub open spec fn bind(m: Map<Seq<char>, Set<Projection>>, term: Seq<char>, target: Projection) -> Map<
    Seq<char>,
    Set<Projection>,
> {
    m.insert(
        term,
        if m.contains_key(term) {
            m[term].insert(target)
        } else {
            set![target]
        },
    )
}

/// `m` with `target` bound under each of `terms`, in order.
pub open spec fn bind_all(
    m: Map<Seq<char>, Set<Projection>>,
    terms: Seq<Seq<char>>,
    target: Projection,
) -> Map<Seq<char>, Set<Projection>>
    decreases terms.len(),
{
    if terms.len() == 0 {
        m
    } else {
        bind(bind_all(m, terms.drop_last(), target), terms.last(), target)
    }
}

/// What indexing an event does to the term map.
pub open spec fn index_event(m: Map<Seq<char>, Set<Projection>>, e: EventView) -> Map<
    Seq<char>,
    Set<Projection>,
> {
    match e {
        EventView::BookAdded(id, info) => bind_all(
            bind(m, info.isbn, Projection::Books(BookField::Isbn(id))),
            tokens(info.title),
            Projection::Books(BookField::Title(id)),
        ),
        EventView::AuthorAdded(id, info) => bind_all(
            m,
            tokens(info.name),
            Projection::Authors(AuthorField::Name(id)),
        ),
        _ => m,
    }
}

/// Binding a projection under terms adds that projection and nothing else.
pub proof fn lemma_bind_all_adds(m: Map<Seq<char>, Set<Projection>>, terms: Seq<Seq<char>>, target: Projection)
    ensures
        forall|term: Seq<char>, q: Projection|
            bind_all(m, terms, target).contains_key(term) && #[trigger] bind_all(m, terms, target)[term].contains(q)
                ==> q == target || (m.contains_key(term) && m[term].contains(q)),
    decreases terms.len(),
{
    if terms.len() > 0 {
        lemma_bind_all_adds(m, terms.drop_last(), target);
        let prev = bind_all(m, terms.drop_last(), target);
        let t = terms.last();
        assert forall|term: Seq<char>, q: Projection|
            bind_all(m, terms, target).contains_key(term) && #[trigger] bind_all(m, terms, target)[term].contains(q)
                implies q == target || (m.contains_key(term) && m[term].contains(q)) by {
            assert(bind_all(m, terms, target) == bind(prev, t, target));
            if term != t {
                assert(bind(prev, t, target)[term] == prev[term]);
            } else if prev.contains_key(t) {
                assert(bind(prev, t, target)[term] == prev[t].insert(target));
            }
        }
    }
}

fn contains_projection(v: &Vec<Projection>, p: Projection) -> (r: bool)
    ensures
        r == v@.contains(p),
{
    let mut i: usize = 0;
    while i < v.len()
        invariant
            i <= v@.len(),
            forall|j: int| 0 <= j < i ==> v@[j] != p,
        decreases v@.len() - i,
    {
        if v[i] == p {
            return true;
        }
        i = i + 1;
    }
    false
}

fn copy_projections(v: &Vec<Projection>) -> (r: Vec<Projection>)
    ensures
        r@ == v@,
{
    let mut r: Vec<Projection> = Vec::new();
    let mut i: usize = 0;
    while i < v.len()
        invariant
            i <= v@.len(),
            r@ == v@.subrange(0, i as int),
        decreases v@.len() - i,
    {
        r.push(v[i]);
        i = i + 1;
        assert(r@ =~= v@.subrange(0, i as int));
    }
    assert(r@ =~= v@);
    r
}

/// The text index: each term maps to the set of projections it was found in.
pub struct SearchIndex {
    terms: TextTable<Vec<Projection>>,
}

impl View for SearchIndex {
    type V = Map<Seq<char>, Set<Projection>>;

    closed spec fn view(&self) -> Map<Seq<char>, Set<Projection>> {
        self.terms.as_map().map_values(|v: Vec<Projection>| v@.to_set())
    }
}

impl SearchIndex {
    pub closed spec fn wf(&self) -> bool {
        &&& self.terms.wf()
        &&& forall|t: Seq<char>| #[trigger]
            self.terms.as_map().contains_key(t) ==> self.terms.as_map()[t]@.no_duplicates()
    }

    pub fn new() -> (r: SearchIndex)
        ensures
            r.wf(),
            r@ == Map::<Seq<char>, Set<Projection>>::empty(),
    {
        let r = SearchIndex { terms: TextTable::new() };
        assert(r@ =~= Map::<Seq<char>, Set<Projection>>::empty());
        r
    }

    fn bind_term(&mut self, term: String, target: Projection)
        requires
            old(self).wf(),
        ensures
            final(self).wf(),
            final(self)@ == bind(old(self)@, term@, target),
    {
        let mut set = match self.terms.get(term.as_str()) {
            Some(v) => copy_projections(v),
            None => Vec::new(),
        };
        let ghost before = set@;
        if !contains_projection(&set, target) {
            set.push(target);
        }
        proof {
            if before.contains(target) {
                assert(set@ == before);
                assert(before.to_set().contains(target));
                assert(set@.to_set() =~= before.to_set().insert(target));
            } else {
                assert(set@ == before.push(target));
                assert forall|x: Projection| set@.contains(x) <==> (before.contains(x) || x == target) by {
                    if before.contains(x) {
                        let i = choose|i: int| 0 <= i < before.len() && before[i] == x;
                        assert(set@[i] == x);
                    }
                    if x == target {
                        assert(set@[before.len() as int] == x);
                    }
                    if set@.contains(x) {
                        let i = choose|i: int| 0 <= i < set@.len() && set@[i] == x;
                        if i < before.len() {
                            assert(before[i] == x);
                        }
                    }
                }
                assert(set@.to_set() =~= before.to_set().insert(target));
                assert(set@.no_duplicates()) by {
                    assert forall|a: int, b: int| 0 <= a < b < set@.len() implies set@[a] != set@[b] by {
                        if b == set@.len() - 1 {
                            assert(before.contains(set@[a]));
                        }
                    }
                }
            }
            if !old(self).terms.as_map().contains_key(term@) {
                assert(before.to_set() =~= Set::<Projection>::empty());
                assert(set@.to_set() =~= set![target]);
            }
        }
        self.terms.insert(term, set);
        proof {
            assert(self@ =~= bind(old(self)@, term@, target));
        }
    }

    fn index_phrase(&mut self, phrase: &str, target: Projection)
        requires
            old(self).wf(),
        ensures
            final(self).wf(),
            final(self)@ == bind_all(old(self)@, tokens(phrase@), target),
    {
        let terms = tokenize(phrase);
        let ghost views = terms@.map_values(|t: String| t@);
        let mut i: usize = 0;
        while i < terms.len()
            invariant
                self.wf(),
                i <= terms@.len(),
                views == tokens(phrase@),
                views == terms@.map_values(|t: String| t@),
                self@ == bind_all(old(self)@, views.subrange(0, i as int), target),
            decreases terms@.len() - i,
        {
            let term = terms[i].clone();
            self.bind_term(term, target);
            proof {
                let s = views.subrange(0, i as int + 1);
                assert(s.drop_last() =~= views.subrange(0, i as int));
            }
            i = i + 1;
        }
        proof {
            assert(views.subrange(0, terms@.len() as int) =~= views);
        }
    }

    /// Indexes the searchable fields of an event: a book's ISBN as one whole
    /// term and the tokens of its title; an author's name.
    pub fn apply(&mut self, event: &Event)
        requires
            old(self).wf(),
        ensures
            final(self).wf(),
            final(self)@ == index_event(old(self)@, event@),
    {
        match event {
            Event::BookAdded(id, info) => {
                self.bind_term(info.isbn.0.clone(), Projection::Books(BookField::Isbn(*id)));
                self.index_phrase(info.title.as_str(), Projection::Books(BookField::Title(*id)));
            },
            Event::AuthorAdded(id, info) => {
                self.index_phrase(info.name.as_str(), Projection::Authors(AuthorField::Name(*id)));
            },
            _ => {},
        }
    }

    /// The projections bound under exactly `term`, each once.
    pub fn lookup(&self, term: &str) -> (r: Vec<Projection>)
        requires
            self.wf(),
        ensures
            r@.no_duplicates(),
            r@.to_set() == (if self@.contains_key(term@) {
                self@[term@]
            } else {
                Set::<Projection>::empty()
            }),
    {
        match self.terms.get(term) {
            Some(v) => copy_projections(v),
            None => {
                let r: Vec<Projection> = Vec::new();
                assert(r@.to_set() =~= Set::<Projection>::empty());
                r
            },
        }
    }
}

} // verus!
