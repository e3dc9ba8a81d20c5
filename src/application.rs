//! The composition root: commands are validated against the write model,
//! made durable through an event store, appended to the log and applied to
//! both projections, in that order.

use vstd::prelude::*;
use crate::error::Error;
use crate::event::{
    decode_event, encode_event, lemma_decode_encode, DecodeOutcome, Event, EventTime, EventView,
    ExternalRepresentation, ExternalView,
};
use crate::ids::{BookId, KeywordTarget, ResourceId, UniqueId};
use crate::model::Command;
use crate::query::{IndexSet, IndexView};
use crate::store::{holds_event, ids_unique, views, EventLog};
use crate::write_model::{decide, Decision, DecisionView, Rejection, WriteModel, WriteView};

verus! {

/// Durable storage for event records.
pub trait EventStore {
    /// Makes `record` durable; returns only once it is.
    fn persist(&mut self, record: &ExternalRepresentation) -> Result<(), Error>;
}

/// The result of a command that got as far as a decision.
#[derive(Clone, Copy, Debug, PartialEq, Eq, Structural)]
pub enum Outcome {
    /// Accepted; a create-command names the new resource.
    Accepted(Option<ResourceId>),
    Rejected(Rejection),
}

/// The event a stored record decodes to (the records of a log always do).
pub open spec fn decoded(x: ExternalView) -> EventView {
    match decode_event(x) {
        DecodeOutcome::Decoded(e) => e,
        _ => EventView::KeywordAdded(KeywordTarget::Book(BookId(UniqueId(0))), Seq::empty()),
    }
}

/// Whether a stored record decodes.
pub open spec fn decodes(x: ExternalView) -> bool {
    decode_event(x) is Decoded
}

/// The events a sequence of records decodes to.
pub open spec fn events_of(records: Seq<ExternalView>) -> Seq<EventView> {
    records.map_values(|x: ExternalView| decoded(x))
}

pub struct Application {
    log: EventLog,
    write_model: WriteModel,
    read_model: IndexSet,
}

impl Application {
    /// The records of the log, in append order.
    pub closed spec fn records(&self) -> Seq<ExternalView> {
        self.log@
    }

    pub closed spec fn write_view(&self) -> WriteView {
        self.write_model@
    }

    pub closed spec fn read_view(&self) -> IndexView {
        self.read_model@
    }

    pub closed spec fn wf(&self) -> bool {
        &&& self.log.wf()
        &&& self.write_model.wf()
        &&& self.read_model.wf()
        &&& forall|i: int| 0 <= i < self.log@.len() ==> #[trigger] decodes(self.log@[i])
        &&& self.write_model@ == WriteView::empty().replay(events_of(self.log@))
        &&& self.read_model@ == IndexView::empty().replay(events_of(self.log@))
    }

    /// The projections are the replay of the log's events.
    pub proof fn lemma_views(&self)
        requires
            self.wf(),
        ensures
            self.write_view() == WriteView::empty().replay(events_of(self.records())),
            self.read_view() == IndexView::empty().replay(events_of(self.records())),
    {
    }

    pub fn new() -> (r: Application)
        ensures
            r.wf(),
            r.records() == Seq::<ExternalView>::empty(),
    {
        let r = Application { log: EventLog::new(), write_model: WriteModel::new(), read_model: IndexSet::new() };
        assert(events_of(r.log@) =~= Seq::<EventView>::empty());
        r
    }

    proof fn lemma_events_push(records: Seq<ExternalView>, x: ExternalView)
        ensures
            events_of(records.push(x)) == events_of(records).push(decoded(x)),
    {
        assert(events_of(records.push(x)) =~= events_of(records).push(decoded(x)));
    }

    /// Appends a record that is already durable and applies its event to
    /// both projections.
    fn record(&mut self, event: Event, record: ExternalRepresentation) -> (r: Result<(), Error>)
        requires
            old(self).wf(),
            decode_event(record@) == DecodeOutcome::Decoded(event@),
        ensures
            final(self).wf(),
            holds_event(old(self).records(), record@.id) ==> r is Err && final(self).records()
                == old(self).records(),
            !holds_event(old(self).records(), record@.id) ==> r is Ok && final(self).records()
                == old(self).records().push(record@),
    {
        let ghost ev = event@;
        let ghost xv = record@;
        let appended = self.log.append(record);
        match appended {
            Ok(()) => {
                proof {
                    Application::lemma_events_push(old(self).log@, xv);
                    assert(decoded(xv) == ev);
                    let es = events_of(self.log@);
                    assert(es.drop_last() == events_of(old(self).log@));
                    assert(es.last() == ev);
                    assert forall|i: int| 0 <= i < self.log@.len() implies #[trigger] decodes(self.log@[i]) by {
                        if i < old(self).log@.len() {
                            assert(self.log@[i] == old(self).log@[i]);
                        }
                    }
                }
                self.write_model.apply(event.duplicate());
                self.read_model.apply(event);
                Ok(())
            },
            Err(e) => Err(e),
        }
    }

    /// Completes an accepted command once the store has answered: when
    /// `persisted` is an error, returns it and changes nothing; otherwise
    /// appends the record of `event` as event `event_id` at `when` and
    /// applies it, unless the log already holds that event id.
    pub fn apply_persisted(
        &mut self,
        event: Event,
        event_id: UniqueId,
        when: EventTime,
        persisted: Result<(), Error>,
    ) -> (r: Result<(), Error>)
        requires
            old(self).wf(),
        ensures
            final(self).wf(),
            persisted matches Err(e) ==> r == Err::<(), Error>(e) && final(self).records() == old(
                self,
            ).records(),
            persisted is Ok && holds_event(old(self).records(), event_id) ==> r == Err::<(), Error>(
                Error::DuplicateEventId(event_id.0),
            ) && final(self).records() == old(self).records(),
            persisted is Ok && !holds_event(old(self).records(), event_id) ==> r is Ok
                && final(self).records() == old(self).records().push(
                encode_event(event@, event_id, when),
            ),
    {
        match persisted {
            Ok(()) => {},
            Err(e) => {
                return Err(e);
            },
        }
        if self.log.contains_event(event_id) {
            return Err(Error::DuplicateEventId(event_id.0));
        }
        let record = event.external_representation(event_id, when);
        proof {
            lemma_decode_encode(event@, event_id, when);
        }
        self.record(event, record)
    }

    /// Handles a command: validates it against the write model, with
    /// `fresh` as the identity a create-command takes; on acceptance makes
    /// the event durable through `store` as event `event_id` at `when`, and
    /// only then appends it to the log and applies it to both projections.
    /// A store failure or an event id the log already holds is an error and
    /// changes nothing.
    pub fn submit_command<S: EventStore>(
        &mut self,
        store: &mut S,
        command: Command,
        fresh: UniqueId,
        event_id: UniqueId,
        when: EventTime,
    ) -> (r: Result<Outcome, Error>)
        requires
            old(self).wf(),
        ensures
            final(self).wf(),
            match decide(old(self).write_view(), command@, fresh) {
                DecisionView::Rejected(why) => r == Ok::<Outcome, Error>(Outcome::Rejected(why))
                    && final(self).records() == old(self).records(),
                DecisionView::Emit(e, res) => {
                    &&& r matches Ok(o) ==> o == Outcome::Accepted(res) && final(self).records()
                        == old(self).records().push(encode_event(e, event_id, when))
                    &&& r is Err ==> final(self).records() == old(self).records()
                    &&& holds_event(old(self).records(), event_id) ==> r == Err::<Outcome, Error>(
                        Error::DuplicateEventId(event_id.0),
                    )
                },
            },
    {
        let decision = self.write_model.decide(command, fresh);
        match decision {
            Decision::Rejected(why) => Ok(Outcome::Rejected(why)),
            Decision::Emit(event, resource) => {
                if self.log.contains_event(event_id) {
                    return Err(Error::DuplicateEventId(event_id.0));
                }
                let record = event.external_representation(event_id, when);
                let persisted = store.persist(&record);
                match self.apply_persisted(event, event_id, when, persisted) {
                    Ok(()) => Ok(Outcome::Accepted(resource)),
                    Err(e) => Err(e),
                }
            },
        }
    }

    /// Rebuilds the application from a journal: every record is decoded,
    /// appended and applied in order. Fails on the first record that does
    /// not decode or whose event id came before.
    pub fn recover(journal: &Vec<ExternalRepresentation>) -> (r: Result<Application, Error>)
        ensures
            r matches Ok(app) ==> app.wf() && app.records() == views(journal@),
            r is Ok <==> (forall|i: int| 0 <= i < journal@.len() ==> #[trigger] decodes(journal@[i]@))
                && ids_unique(views(journal@)),
    {
        let mut app = Application::new();
        let mut i: usize = 0;
        while i < journal.len()
            invariant
                app.wf(),
                i <= journal@.len(),
                app.records() == views(journal@).subrange(0, i as int),
            decreases journal@.len() - i,
        {
            let x = &journal[i];
            let ghost xv = x@;
            proof {
                assert(views(journal@)[i as int] == xv);
                if ids_unique(views(journal@)) {
                    assert forall|j: int| 0 <= j < app.records().len() implies #[trigger] app.records()[j].id != xv.id by {
                        assert(app.records()[j] == views(journal@)[j]);
                    }
                }
            }
            match Event::from_external_representation(x) {
                Ok(event) => {
                    proof {
                        assert(decode_event(xv) == DecodeOutcome::Decoded(event@));
                    }
                    match app.record(event, x.duplicate()) {
                        Ok(()) => {
                            proof {
                                assert(views(journal@).subrange(0, i as int + 1) =~= views(journal@).subrange(0, i as int).push(xv));
                            }
                        },
                        Err(e) => {
                            proof {
                                let k = choose|k: int| 0 <= k < app.records().len() && #[trigger] app.records()[k].id == xv.id;
                                assert(views(journal@)[k] == app.records()[k]);
                                assert(views(journal@)[i as int] == xv);
                                assert(!ids_unique(views(journal@)));
                            }
                            return Err(e);
                        },
                    }
                },
                Err(e) => {
                    proof {
                        assert(!decodes(journal@[i as int]@));
                    }
                    return Err(e);
                },
            }
            i = i + 1;
        }
        proof {
            assert(views(journal@).subrange(0, journal@.len() as int) =~= views(journal@));
            app.log.lemma_ids_unique();
            assert forall|i: int| 0 <= i < journal@.len() implies #[trigger] decodes(journal@[i]@) by {
                assert(views(journal@)[i] == journal@[i]@);
                assert(decodes(app.log@[i]));
            }
        }
        Ok(app)
    }

    /// Every record of the log, in append order.
    pub fn journal(&self) -> (r: Vec<ExternalRepresentation>)
        requires
            self.wf(),
        ensures
            views(r@) == self.records(),
    {
        self.log.journal()
    }

    /// The id for the next event: its log position with `nonce` beside it,
    /// so that ids sort in append order.
    pub fn next_event_id(&self, nonce: u64) -> (r: UniqueId)
        requires
            self.wf(),
        ensures
            r.0 == self.records().len() as u64 as u128 * 0x1_0000_0000_0000_0000 + nonce as u128,
    {
        crate::store::sequenced_event_id(self.log.len() as u64, nonce)
    }

    /// The event log.
    pub fn log(&self) -> (r: &EventLog)
        requires
            self.wf(),
        ensures
            r.wf(),
            r@ == self.records(),
    {
        &self.log
    }

    /// The read model, for queries.
    pub fn read_model(&self) -> (r: &IndexSet)
        requires
            self.wf(),
        ensures
            r.wf(),
            r@ == self.read_view(),
            r@ == IndexView::empty().replay(events_of(self.records())),
    {
        &self.read_model
    }

    /// The write model.
    pub fn write_model(&self) -> (r: &WriteModel)
        requires
            self.wf(),
        ensures
            r.wf(),
            r@ == self.write_view(),
            r@ == WriteView::empty().replay(events_of(self.records())),
    {
        &self.write_model
    }
}

} // verus!
