//! Properties of whole histories, proved over the models' specifications.

use vstd::prelude::*;
use crate::application::{events_of, Application};
use crate::event::{encode_event, lemma_decode_encode, EventTime, EventView, ExternalView};
use crate::ids::UniqueId;
use crate::model::{CommandView, Keyword};
use crate::query::IndexView;
use crate::text::{bind, lemma_bind_all_adds, tokens, AuthorField, BookField, Projection};
use crate::write_model::{decide, DecisionView, WriteView};

verus! {

/// The stored forms of `events`, the i-th recorded as event `ids[i]` at `whens[i]`.
pub open spec fn encode_all(events: Seq<EventView>, ids: Seq<UniqueId>, whens: Seq<EventTime>) -> Seq<
    ExternalView,
> {
    Seq::new(events.len(), |i: int| encode_event(events[i], ids[i], whens[i]))
}

/// Replay determinism: decoding the stored forms of a history and applying
/// them to fresh projections gives the projections that applying the
/// history itself gives.
pub proof fn law_replay_determinism(events: Seq<EventView>, ids: Seq<UniqueId>, whens: Seq<EventTime>)
    requires
        ids.len() == events.len(),
        whens.len() == events.len(),
    ensures
        events_of(encode_all(events, ids, whens)) == events,
        WriteView::empty().replay(events_of(encode_all(events, ids, whens))) == WriteView::empty().replay(events),
        IndexView::empty().replay(events_of(encode_all(events, ids, whens))) == IndexView::empty().replay(events),
{
    assert forall|i: int| 0 <= i < events.len() implies #[trigger] events_of(encode_all(events, ids, whens))[i] == events[i] by {
        lemma_decode_encode(events[i], ids[i], whens[i]);
    }
    assert(events_of(encode_all(events, ids, whens)) =~= events);
}

/// Replay determinism for the application: two applications that hold the
/// same records (a live one, and one recovered from its journal) hold the
/// same projections.
pub proof fn law_recovered_matches_live(live: Application, recovered: Application)
    requires
        live.wf(),
        recovered.wf(),
        recovered.records() == live.records(),
    ensures
        recovered.write_view() == live.write_view(),
        recovered.read_view() == live.read_view(),
{
    live.lemma_views();
    recovered.lemma_views();
}

/// Whether the dispatcher could have emitted `e` against `v`.
pub open spec fn admissible(v: WriteView, e: EventView) -> bool {
    match e {
        EventView::AuthorAdded(id, _) => !v.identities.contains(id.raw()),
        EventView::BookAdded(id, info) => v.author_ids.contains(info.author.raw()) && !v.identities.contains(id.raw()),
        EventView::ReaderAdded(id, info) => !v.monikers.contains_key(info.unique_moniker)
            && !v.identities.contains(id.raw()),
        EventView::BookRead(id, info) => id == info.reader_id && !v.read_by(id.raw()).contains(info.book_id),
        EventView::KeywordAdded(_, k) => Keyword::is_valid(k),
    }
}

/// Every event the dispatcher emits is admissible against the model it read.
pub proof fn lemma_decide_admissible(v: WriteView, c: CommandView, fresh: UniqueId)
    ensures
        decide(v, c, fresh) matches DecisionView::Emit(e, _) ==> admissible(v, e),
{
}

/// Whether each event of a history was admissible against the model built
/// from the events before it: the histories a correct dispatcher produces.
pub open spec fn valid_history(events: Seq<EventView>) -> bool {
    forall|i: int| 0 <= i < events.len() ==> #[trigger] admissible(
        WriteView::empty().replay(events.take(i)),
        events[i],
    )
}

/// The identity an event creates, if it creates one.
pub open spec fn created(e: EventView) -> Option<u128> {
    match e {
        EventView::AuthorAdded(id, _) => Some(id.raw()),
        EventView::BookAdded(id, _) => Some(id.raw()),
        EventView::ReaderAdded(id, _) => Some(id.raw()),
        _ => None,
    }
}

proof fn lemma_take_step(events: Seq<EventView>, j: int)
    requires
        0 < j <= events.len(),
    ensures
        events.take(j).drop_last() == events.take(j - 1),
        events.take(j).last() == events[j - 1],
        WriteView::empty().replay(events.take(j)) == WriteView::empty().replay(events.take(j - 1)).apply(events[j - 1]),
{
    assert(events.take(j).drop_last() =~= events.take(j - 1));
}

proof fn lemma_created_kept(events: Seq<EventView>, i: int, j: int)
    requires
        0 <= i < j <= events.len(),
        created(events[i]) is Some,
    ensures
        WriteView::empty().replay(events.take(j)).identities.contains(created(events[i])->0),
    decreases j - i,
{
    lemma_take_step(events, j);
    if j - 1 > i {
        lemma_created_kept(events, i, j - 1);
    }
}

/// Identity uniqueness: in a history a correct dispatcher produced, no two
/// events create the same identity.
pub proof fn law_identity_uniqueness(events: Seq<EventView>, i: int, j: int)
    requires
        valid_history(events),
        0 <= i < j < events.len(),
        created(events[i]) is Some,
        created(events[j]) is Some,
    ensures
        created(events[i]) != created(events[j]),
{
    lemma_created_kept(events, i, j);
    assert(admissible(WriteView::empty().replay(events.take(j)), events[j]));
}

proof fn lemma_moniker_kept(events: Seq<EventView>, i: int, j: int)
    requires
        0 <= i < j <= events.len(),
        events[i] is ReaderAdded,
    ensures
        WriteView::empty().replay(events.take(j)).monikers.contains_key(
            events[i]->ReaderAdded_1.unique_moniker,
        ),
    decreases j - i,
{
    lemma_take_step(events, j);
    if j - 1 > i {
        lemma_moniker_kept(events, i, j - 1);
    }
}

/// Moniker uniqueness: in a history a correct dispatcher produced, no two
/// readers are added with the same moniker.
pub proof fn law_moniker_uniqueness(events: Seq<EventView>, i: int, j: int)
    requires
        valid_history(events),
        0 <= i < j < events.len(),
        events[i] is ReaderAdded,
        events[j] is ReaderAdded,
    ensures
        events[i]->ReaderAdded_1.unique_moniker != events[j]->ReaderAdded_1.unique_moniker,
{
    lemma_moniker_kept(events, i, j);
    assert(admissible(WriteView::empty().replay(events.take(j)), events[j]));
}

proof fn lemma_author_ids_come_from_events(events: Seq<EventView>, a: u128)
    requires
        WriteView::empty().replay(events).author_ids.contains(a),
    ensures
        exists|i: int| 0 <= i < events.len() && #[trigger] events[i] is AuthorAdded && events[i]->AuthorAdded_0.raw() == a,
    decreases events.len(),
{
    if events.len() > 0 {
        let prev = events.drop_last();
        if WriteView::empty().replay(prev).author_ids.contains(a) {
            lemma_author_ids_come_from_events(prev, a);
            let i = choose|i: int| 0 <= i < prev.len() && #[trigger] prev[i] is AuthorAdded && prev[i]->AuthorAdded_0.raw() == a;
            assert(events[i] == prev[i]);
        } else {
            assert(events[events.len() - 1] is AuthorAdded);
        }
    }
}

/// Reference soundness: in a history a correct dispatcher produced, every
/// book's author was added earlier.
pub proof fn law_reference_soundness(events: Seq<EventView>, j: int)
    requires
        valid_history(events),
        0 <= j < events.len(),
        events[j] is BookAdded,
    ensures
        exists|i: int| 0 <= i < j && #[trigger] events[i] is AuthorAdded
            && events[i]->AuthorAdded_0 == events[j]->BookAdded_1.author,
{
    assert(admissible(WriteView::empty().replay(events.take(j)), events[j]));
    let a = events[j]->BookAdded_1.author;
    lemma_author_ids_come_from_events(events.take(j), a.raw());
    let i = choose|i: int| 0 <= i < events.take(j).len() && #[trigger] events.take(j)[i] is AuthorAdded && events.take(j)[i]->AuthorAdded_0.raw() == a.raw();
    assert(events[i] == events.take(j)[i]);
}

/// Idempotent reading: whatever the history, no reader holds two reading
/// records about one book.
pub proof fn law_idempotent_reading(events: Seq<EventView>)
    ensures
        IndexView::empty().replay(events).records_unique(),
    decreases events.len(),
{
    if events.len() > 0 {
        law_idempotent_reading(events.drop_last());
        let v = IndexView::empty().replay(events.drop_last());
        let w = v.apply(events.last());
        assert forall|r: u128, i: int, j: int|
            #![trigger w.records(r)[i], w.records(r)[j]]
            0 <= i < j < w.records(r).len() implies w.records(r)[i].book_id != w.records(r)[j].book_id by {
            if w.records(r) != v.records(r) {
                let e = events.last();
                let info = e->BookRead_1;
                if j == v.records(r).len() {
                    assert(w.records(r)[j] == info);
                    assert(w.records(r)[i] == v.records(r)[i]);
                    if v.records(r)[i].book_id == info.book_id {
                        assert(crate::query::has_book(v.records(r), info.book_id));
                    }
                } else {
                    assert(w.records(r)[i] == v.records(r)[i]);
                    assert(w.records(r)[j] == v.records(r)[j]);
                }
            } else {
                assert(v.records(r)[j] == w.records(r)[j]);
            }
        }
    }
}

/// Search resolvability: whatever the history, every projection in the
/// text index names an entity the read model holds.
pub proof fn law_search_resolvability(events: Seq<EventView>)
    ensures
        IndexView::empty().replay(events).searchable(),
    decreases events.len(),
{
    if events.len() > 0 {
        law_search_resolvability(events.drop_last());
        let v = IndexView::empty().replay(events.drop_last());
        let e = events.last();
        let w = v.apply(e);
        match e {
            EventView::BookAdded(id, info) => {
                let m1 = bind(v.texts, info.isbn, Projection::Books(BookField::Isbn(id)));
                lemma_bind_all_adds(m1, tokens(info.title), Projection::Books(BookField::Title(id)));
            },
            EventView::AuthorAdded(id, info) => {
                lemma_bind_all_adds(v.texts, tokens(info.name), Projection::Authors(AuthorField::Name(id)));
            },
            _ => {},
        }
        assert forall|term: Seq<char>, p: Projection|
            w.texts.contains_key(term) && #[trigger] w.texts[term].contains(p) implies w.resolves(p) by {
            if v.texts.contains_key(term) && v.texts[term].contains(p) {
                assert(v.resolves(p));
            }
        }
    }
}

} // verus!
