//! The append-only event log with its event-id index and its per-aggregate
//! index, and aggregate reconstruction.

use vstd::prelude::*;
use crate::error::Error;
use crate::event::{
    decode_event, DecodeOutcome, Event, EventView, ExternalRepresentation, ExternalView,
};
use crate::ids::{AuthorId, BookId, UniqueId};
use crate::model::{Author, Book};
use crate::table::Table;

verus! {

/// Whether a stored record belongs to aggregate `a`.
pub open spec fn belongs_to(a: UniqueId) -> spec_fn(ExternalView) -> bool {
    |x: ExternalView| x.aggregate_id == a
}

/// The records of one aggregate, in append order.
pub open spec fn aggregate_stream(records: Seq<ExternalView>, a: UniqueId) -> Seq<ExternalView> {
    records.filter(belongs_to(a))
}

/// Whether no two records share an event id.
pub open spec fn ids_unique(records: Seq<ExternalView>) -> bool {
    forall|i: int, j: int|
        #![trigger records[i], records[j]]
        0 <= i < j < records.len() ==> records[i].id != records[j].id
}

/// Whether some record has event id `id`.
pub open spec fn holds_event(records: Seq<ExternalView>, id: UniqueId) -> bool {
    exists|i: int| 0 <= i < records.len() && #[trigger] records[i].id == id
}

pub open spec fn views(v: Seq<ExternalRepresentation>) -> Seq<ExternalView> {
    v.map_values(|x: ExternalRepresentation| x@)
}

/// The event log: records in append order, indexed by event id and by
/// aggregate.
pub struct EventLog {
    records: Vec<ExternalRepresentation>,
    by_event: Table<usize>,
    by_aggregate: Table<Vec<usize>>,
}

impl View for EventLog {
    type V = Seq<ExternalView>;

    closed spec fn view(&self) -> Seq<ExternalView> {
        views(self.records@)
    }
}

impl EventLog {
    pub closed spec fn wf(&self) -> bool {
        let recs = self@;
        &&& self.by_event.wf()
        &&& self.by_aggregate.wf()
        &&& ids_unique(recs)
        &&& forall|k: u128| #[trigger]
            self.by_event.as_map().contains_key(k) <==> holds_event(recs, UniqueId(k))
        &&& forall|k: u128| #[trigger]
            self.by_event.as_map().contains_key(k) ==> self.by_event.as_map()[k] < recs.len()
                && recs[self.by_event.as_map()[k] as int].id == UniqueId(k)
        &&& forall|k: u128| #[trigger]
            self.by_aggregate.as_map().contains_key(k) ==> self.positions_ok(k)
        &&& forall|k: u128|
            !(#[trigger] self.by_aggregate.as_map().contains_key(k)) ==> aggregate_stream(
                recs,
                UniqueId(k),
            ).len() == 0
    }

    closed spec fn positions_ok(&self, k: u128) -> bool {
        let ps = self.by_aggregate.as_map()[k]@;
        &&& forall|i: int| #![auto] 0 <= i < ps.len() ==> ps[i] < self@.len()
        &&& ps.map_values(|i: usize| self@[i as int]) == aggregate_stream(self@, UniqueId(k))
    }

    /// No two records of a well-formed log share an event id.
    pub proof fn lemma_ids_unique(&self)
        requires
            self.wf(),
        ensures
            ids_unique(self@),
    {
    }

    pub fn new() -> (r: EventLog)
        ensures
            r.wf(),
            r@ == Seq::<ExternalView>::empty(),
    {
        let r = EventLog { records: Vec::new(), by_event: Table::new(), by_aggregate: Table::new() };
        assert(r@ =~= Seq::<ExternalView>::empty());
        proof {
            assert forall|k: u128| aggregate_stream(r@, UniqueId(k)).len() == 0 by {
                reveal(Seq::filter);
            }
        }
        r
    }

    pub fn len(&self) -> (r: usize)
        ensures
            r == self@.len(),
    {
        self.records.len()
    }

    /// Whether the log holds an event with id `id`.
    pub fn contains_event(&self, id: UniqueId) -> (r: bool)
        requires
            self.wf(),
        ensures
            r == holds_event(self@, id),
    {
        self.by_event.get(id.0).is_some()
    }
}

/// The event id for the record at log position `position`: the position in
/// the high 64 bits and `nonce` in the low 64. Stored under their big-endian
/// bytes, such ids sort in append order.
pub fn sequenced_event_id(position: u64, nonce: u64) -> (r: UniqueId)
    ensures
        r.0 == position as u128 * 0x1_0000_0000_0000_0000 + nonce as u128,
{
    let high = (position as u128) * 0x1_0000_0000_0000_0000u128;
    UniqueId(high + nonce as u128)
}

/// Ids minted for later positions are larger, whatever the nonces.
pub proof fn lemma_sequenced_ids_ordered(earlier: u64, nonce_a: u64, later: u64, nonce_b: u64)
    requires
        earlier < later,
    ensures
        (earlier as u128 * 0x1_0000_0000_0000_0000 + nonce_a as u128) < (later as u128
            * 0x1_0000_0000_0000_0000 + nonce_b as u128),
{
    assert((earlier as int) * 0x1_0000_0000_0000_0000 + 0x1_0000_0000_0000_0000 <= (later as int)
        * 0x1_0000_0000_0000_0000) by (nonlinear_arith)
        requires
            earlier < later,
    ;
}

pub proof fn lemma_stream_push(records: Seq<ExternalView>, x: ExternalView, a: UniqueId)
    ensures
        aggregate_stream(records.push(x), a) == (if x.aggregate_id == a {
            aggregate_stream(records, a).push(x)
        } else {
            aggregate_stream(records, a)
        }),
{
    records.lemma_filter_push(x, belongs_to(a));
}

fn copy_positions(v: &Vec<usize>) -> (r: Vec<usize>)
    ensures
        r@ == v@,
{
    let mut r: Vec<usize> = Vec::new();
    let mut i: usize = 0;
    while i < v.len()
        invariant
            i <= v@.len(),
            r@ == v@.subrange(0, i as int),
        decreases v@.len() - i,
    {
        r.push(v[i]);
        i = i + 1;
        assert(r@ =~= v@.subrange(0, i as int));
    }
    assert(r@ =~= v@);
    r
}

impl EventLog {
    /// Appends a record. A record whose event id the log already holds is
    /// refused and the log stays as it was.
    pub fn append(&mut self, record: ExternalRepresentation) -> (r: Result<(), Error>)
        requires
            old(self).wf(),
        ensures
            final(self).wf(),
            holds_event(old(self)@, record@.id) ==> (r matches Err(Error::DuplicateEventId(k)) && k
                == record@.id.0) && final(self)@ == old(self)@,
            !holds_event(old(self)@, record@.id) ==> r is Ok && final(self)@ == old(self)@.push(
                record@,
            ),
    {
        let id = record.id;
        if self.by_event.get(id.0).is_some() {
            return Err(Error::DuplicateEventId(id.0));
        }
        let agg = record.aggregate_id;
        let n = self.records.len();
        let mut positions = match self.by_aggregate.get(agg.0) {
            Some(ps) => copy_positions(ps),
            None => Vec::new(),
        };
        let ghost old_ps = positions@;
        positions.push(n);
        let ghost x = record@;
        let ghost before = self@;
        self.records.push(record);
        proof {
            assert(self@ =~= before.push(x));
        }
        self.by_event.insert(id.0, n);
        self.by_aggregate.insert(agg.0, positions);
        proof {
            let recs = self@;
            assert forall|i: int, j: int|
                #![trigger recs[i], recs[j]]
                0 <= i < j < recs.len() implies recs[i].id != recs[j].id by {
                if j == n {
                    assert(before[i] == recs[i]);
                    if recs[i].id == x.id {
                        assert(holds_event(before, x.id));
                    }
                } else {
                    assert(before[i] == recs[i] && before[j] == recs[j]);
                }
            }
            assert forall|k: u128| #[trigger]
                self.by_event.as_map().contains_key(k) <==> holds_event(recs, UniqueId(k)) by {
                if holds_event(recs, UniqueId(k)) && k != id.0 {
                    let i = choose|i: int| 0 <= i < recs.len() && #[trigger] recs[i].id == UniqueId(k);
                    assert(i < n);
                    assert(before[i].id == UniqueId(k));
                }
                if holds_event(before, UniqueId(k)) {
                    let i = choose|i: int| 0 <= i < before.len() && #[trigger] before[i].id == UniqueId(k);
                    assert(recs[i].id == UniqueId(k));
                }
                if k == id.0 {
                    assert(recs[n as int].id == UniqueId(k));
                }
            }
            assert forall|k: u128| #[trigger] self.by_event.as_map().contains_key(k) implies
                self.by_event.as_map()[k] < recs.len() && recs[self.by_event.as_map()[k] as int].id
                    == UniqueId(k) by {
                if k != id.0 {
                    assert(recs[old(self).by_event.as_map()[k] as int] == before[old(self).by_event.as_map()[k] as int]);
                }
            }
            assert forall|k: u128| #[trigger] self.by_aggregate.as_map().contains_key(k) implies self.positions_ok(k) by {
                lemma_stream_push(before, x, UniqueId(k));
                let ps = self.by_aggregate.as_map()[k]@;
                if k == agg.0 {
                    assert(ps == old_ps.push(n));
                    if old(self).by_aggregate.as_map().contains_key(k) {
                        assert(old(self).positions_ok(k));
                        assert(old_ps == old(self).by_aggregate.as_map()[k]@);
                    } else {
                        assert(old_ps.len() == 0);
                    }
                    assert(forall|i: int| #![auto] 0 <= i < old_ps.len() ==> old_ps[i] < n);
                    assert(forall|i: int| #![auto] 0 <= i < ps.len() ==> ps[i] < recs.len());
                    assert(ps.map_values(|i: usize| self@[i as int]) =~= old_ps.map_values(
                        |i: usize| old(self)@[i as int],
                    ).push(x));
                    assert(x.aggregate_id == UniqueId(k));
                    assert(old(self)@ == before);
                    assert(old_ps.map_values(|i: usize| old(self)@[i as int]) == aggregate_stream(before, UniqueId(k)));
                    assert(ps.map_values(|i: usize| self@[i as int]) == aggregate_stream(self@, UniqueId(k)));
                } else {
                    assert(old(self).positions_ok(k));
                    assert(ps == old(self).by_aggregate.as_map()[k]@);
                    assert(forall|i: int| #![auto] 0 <= i < ps.len() ==> ps[i] < recs.len());
                    assert(ps.map_values(|i: usize| self@[i as int]) =~= ps.map_values(
                        |i: usize| old(self)@[i as int],
                    ));
                    assert(ps.map_values(|i: usize| self@[i as int]) == aggregate_stream(self@, UniqueId(k)));
                }
            }
            assert forall|k: u128| !(#[trigger] self.by_aggregate.as_map().contains_key(k)) implies aggregate_stream(
                recs,
                UniqueId(k),
            ).len() == 0 by {
                lemma_stream_push(before, x, UniqueId(k));
            }
        }
        Ok(())
    }

    /// The record with event id `id`.
    pub fn find_by_event_id(&self, id: UniqueId) -> (r: Result<ExternalRepresentation, Error>)
        requires
            self.wf(),
        ensures
            match r {
                Ok(x) => exists|i: int| 0 <= i < self@.len() && #[trigger] self@[i] == x@ && x@.id == id,
                Err(e) => !holds_event(self@, id) && e == Error::EventNotFound(id.0),
            },
    {
        match self.by_event.get(id.0) {
            Some(i) => {
                let x = self.records[*i].duplicate();
                assert(self@[*i as int] == x@);
                Ok(x)
            },
            None => Err(Error::EventNotFound(id.0)),
        }
    }

    /// The records of aggregate `id`, in append order.
    pub fn find_by_aggregate_id(&self, id: UniqueId) -> (r: Vec<ExternalRepresentation>)
        requires
            self.wf(),
        ensures
            views(r@) == aggregate_stream(self@, id),
    {
        let mut out: Vec<ExternalRepresentation> = Vec::new();
        match self.by_aggregate.get(id.0) {
            Some(ps) => {
                proof {
                    assert(self.positions_ok(id.0));
                }
                let ghost want = ps@.map_values(|i: usize| self@[i as int]);
                let mut j: usize = 0;
                while j < ps.len()
                    invariant
                        self.wf(),
                        want == ps@.map_values(|i: usize| self@[i as int]),
                        forall|i: int| #![auto] 0 <= i < ps@.len() ==> ps@[i] < self@.len(),
                        j <= ps@.len(),
                        views(out@) == want.subrange(0, j as int),
                    decreases ps@.len() - j,
                {
                    let x = self.records[ps[j]].duplicate();
                    let ghost prev = out@;
                    out.push(x);
                    proof {
                        assert(out@ == prev.push(x));
                        assert(views(out@) =~= views(prev).push(x@));
                        assert(want[j as int] == x@);
                    }
                    j = j + 1;
                    assert(views(out@) =~= want.subrange(0, j as int));
                }
                assert(want.subrange(0, ps@.len() as int) =~= want);
            },
            None => {
                assert(views(out@) =~= aggregate_stream(self@, id));
            },
        }
        out
    }

    /// Every record, in append order.
    pub fn journal(&self) -> (r: Vec<ExternalRepresentation>)
        requires
            self.wf(),
        ensures
            views(r@) == self@,
    {
        let mut out: Vec<ExternalRepresentation> = Vec::new();
        let mut j: usize = 0;
        while j < self.records.len()
            invariant
                j <= self@.len(),
                views(out@) == self@.subrange(0, j as int),
            decreases self@.len() - j,
        {
            let x = self.records[j].duplicate();
            let ghost prev = out@;
            out.push(x);
            proof {
                assert(out@ == prev.push(x));
                assert(views(out@) =~= views(prev).push(x@));
            }
            j = j + 1;
            assert(views(out@) =~= self@.subrange(0, j as int));
        }
        assert(self@.subrange(0, self@.len() as int) =~= self@);
        out
    }
}

/// The ordered records of one aggregate.
pub struct AggregateStream(pub Vec<ExternalRepresentation>);

/// How the first record of a stream decodes.
pub open spec fn head_outcome(stream: Seq<ExternalView>) -> DecodeOutcome {
    decode_event(stream[0])
}

/// What loading an aggregate from `stream` returns: success exactly when the
/// first record decodes to an event that `created` accepts; otherwise the
/// error that says why.
pub open spec fn load_ok<T>(
    stream: Seq<ExternalView>,
    r: Result<T, Error>,
    created: spec_fn(EventView) -> bool,
) -> bool {
    &&& stream.len() == 0 ==> (r matches Err(Error::AggregateParseError(_)))
    &&& stream.len() > 0 ==> (match head_outcome(stream) {
        DecodeOutcome::Decoded(e) => created(e) == (r is Ok) && (!created(e) ==> (r matches Err(
            Error::AggregateParseError(_),
        ))),
        DecodeOutcome::Mismatch => (r matches Err(Error::JsonSerde(_))),
        DecodeOutcome::Unknown => (r matches Err(Error::UnknownEventType(_))),
    })
}

impl AggregateStream {
    /// The first event of the stream.
    pub fn peek(&self) -> (r: Result<Event, Error>)
        ensures
            self.0@.len() == 0 ==> r matches Err(Error::AggregateParseError(_)),
            self.0@.len() > 0 ==> match head_outcome(views(self.0@)) {
                DecodeOutcome::Decoded(e) => (r matches Ok(v) && v@ == e),
                DecodeOutcome::Mismatch => (r matches Err(Error::JsonSerde(_))),
                DecodeOutcome::Unknown => (r matches Err(Error::UnknownEventType(_))),
            },
    {
        if self.0.len() == 0 {
            Err(Error::AggregateParseError("expected an event".to_owned()))
        } else {
            Event::from_external_representation(&self.0[0])
        }
    }
}

pub open spec fn is_author_added(e: EventView) -> bool {
    e is AuthorAdded
}

pub open spec fn is_book_added(e: EventView) -> bool {
    e is BookAdded
}

impl Author {
    /// Rebuilds an author from its stream, which must start with the
    /// author's creation.
    pub fn try_load(stream: AggregateStream) -> (r: Result<Author, Error>)
        ensures
            load_ok(views(stream.0@), r, |e: EventView| is_author_added(e)),
            r matches Ok(a) ==> head_outcome(views(stream.0@)) == DecodeOutcome::Decoded(
                EventView::AuthorAdded(a.0, a.1@),
            ),
    {
        match stream.peek() {
            Ok(Event::AuthorAdded(id, info)) => Ok(Author(id, info)),
            Ok(_) => Err(Error::AggregateParseError("expected an AuthorAdded".to_owned())),
            Err(e) => Err(e),
        }
    }
}

impl Book {
    /// Rebuilds a book from its stream, which must start with the book's
    /// creation.
    pub fn try_load(stream: AggregateStream) -> (r: Result<Book, Error>)
        ensures
            load_ok(views(stream.0@), r, |e: EventView| is_book_added(e)),
            r matches Ok(b) ==> head_outcome(views(stream.0@)) == DecodeOutcome::Decoded(
                EventView::BookAdded(b.0, b.1@),
            ),
    {
        match stream.peek() {
            Ok(Event::BookAdded(id, info)) => Ok(Book(id, info)),
            Ok(_) => Err(Error::AggregateParseError("expected a BookAdded".to_owned())),
            Err(e) => Err(e),
        }
    }
}

impl EventLog {
    /// Rebuilds an author from the log.
    pub fn load_author(&self, id: AuthorId) -> (r: Result<Author, Error>)
        requires
            self.wf(),
        ensures
            load_ok(aggregate_stream(self@, id.0), r, |e: EventView| is_author_added(e)),
            r matches Ok(a) ==> head_outcome(aggregate_stream(self@, id.0))
                == DecodeOutcome::Decoded(EventView::AuthorAdded(a.0, a.1@)),
    {
        Author::try_load(AggregateStream(self.find_by_aggregate_id(id.0)))
    }

    /// Rebuilds a book from the log.
    pub fn load_book(&self, id: BookId) -> (r: Result<Book, Error>)
        requires
            self.wf(),
        ensures
            load_ok(aggregate_stream(self@, id.0), r, |e: EventView| is_book_added(e)),
            r matches Ok(b) ==> head_outcome(aggregate_stream(self@, id.0))
                == DecodeOutcome::Decoded(EventView::BookAdded(b.0, b.1@)),
    {
        Book::try_load(AggregateStream(self.find_by_aggregate_id(id.0)))
    }
}

} // verus!
