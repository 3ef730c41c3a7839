//! A pass of the engine over a source, a store and a board held in memory.
//!
//! [`WorldView::reconcile`] says in one step what the processing of a
//! division does to the store and the board, and [`WorldView::pass`] what a
//! whole pass does. [`World::run_pass`] runs the engine call by call against
//! the three services and is proved to arrive exactly there.

use crate::engine::{Action, ActionView, Engine, EngineView, Event, EventView, Outcome, PassEnd,
    PhaseView};
use crate::errors::{Failure, SourceError, StoreError};
use crate::model::{duplicate_records, record_views, DivisionRecord, NewDivision, RecordView};
use crate::platform::{
    spec_platform_thread_id, spec_stored_thread_id, spec_update_content, BoardView, ThreadBoard,
};
use crate::source::{detail, spec_detail};
use crate::store::{DivisionStore, StoreRows};
use vstd::prelude::*;

verus! {

/// The three services as values: what the source lists, what the store
/// holds, and what is on the board.
pub struct WorldView {
    pub source: Seq<RecordView>,
    pub store: StoreRows,
    pub board: BoardView,
}

impl WorldView {
    /// What the services do when they are asked for `action`: the world
    /// afterwards and the answer. `Finish` asks for nothing and has none.
    pub open spec fn perform(self, action: ActionView) -> (WorldView, Option<EventView>) {
        match action {
            ActionView::FetchListing => (self, Some(EventView::Listing(Ok(self.source)))),
            ActionView::FindMapping { division_id } => (
                self,
                Some(EventView::Mapping(Ok(self.store.find(division_id)))),
            ),
            ActionView::FetchDivision { division_id } => (
                self,
                Some(EventView::Detail(spec_detail(self.source, division_id))),
            ),
            ActionView::CreateThread { title } => (
                WorldView { board: self.board.open(title).0, ..self },
                Some(EventView::ThreadCreated(Ok(self.board.open(title).1))),
            ),
            ActionView::CreateMapping { division_id, thread_id } => {
                let done = self.store.create(
                    NewDivision { division_id, discord_thread_id: thread_id },
                );
                (WorldView { store: done.0, ..self }, Some(EventView::MappingCreated(done.1)))
            },
            ActionView::LoadLastSeen { division_id } => (
                self,
                Some(EventView::LastSeen(Ok(self.store.marker(division_id)))),
            ),
            ActionView::PostUpdate { thread_id, content } => {
                let done = self.board.post(thread_id, content);
                (WorldView { board: done.0, ..self }, Some(EventView::Posted(done.1)))
            },
            ActionView::RecordUpdateSeen { division_id, publication_updated } => {
                let done = self.store.record(division_id, publication_updated);
                (WorldView { store: done.0, ..self }, Some(EventView::Recorded(done.1)))
            },
            ActionView::Finish(_) => (self, None),
        }
    }

    /// What the processing of one division does: the world afterwards and
    /// the outcome.
    ///
    /// A division without a mapping gets a thread, named after the title of
    /// its detail, and the mapping to it, and the marker of its detail is
    /// recorded as the one last seen. A division with a mapping gets an
    /// update posted into its thread, and the marker of its detail recorded,
    /// unless that marker is the one that was last recorded. The first call
    /// that fails ends the processing; what was done before it stays.
    pub open spec fn reconcile(self, division_id: i32) -> (WorldView, Outcome) {
        match (self.store.find(division_id), spec_detail(self.source, division_id)) {
            (_, Err(e)) => (self, Outcome::Failed(Failure::Source(e))),
            (None, Ok(detail)) => {
                let opened = self.board.open(detail.title);
                let written = self.store.create(
                    NewDivision {
                        division_id,
                        discord_thread_id: spec_stored_thread_id(opened.1),
                    },
                );
                let world = WorldView { store: written.0, board: opened.0, ..self };
                match written.1 {
                    Ok(_) => {
                        let noted = written.0.record(division_id, detail.publication_updated);
                        let world = WorldView { store: noted.0, ..world };
                        match noted.1 {
                            Ok(_) => (world, Outcome::Created { thread_id: opened.1 }),
                            Err(e) => (world, Outcome::Failed(Failure::Store(e))),
                        }
                    },
                    Err(StoreError::DuplicateMapping) => (
                        world,
                        Outcome::Duplicate { thread_id: opened.1 },
                    ),
                    Err(e) => (world, Outcome::Failed(Failure::Store(e))),
                }
            },
            (Some(mapping), Ok(detail)) => {
                if self.store.marker(division_id) == Some(detail.publication_updated) {
                    (self, Outcome::Unchanged)
                } else {
                    let posted = self.board.post(
                        spec_platform_thread_id(mapping.discord_thread_id),
                        spec_update_content(),
                    );
                    match posted.1 {
                        Err(e) => (self, Outcome::Failed(Failure::Platform(e))),
                        Ok(_) => {
                            let written = self.store.record(division_id, detail.publication_updated);
                            let world = WorldView { store: written.0, board: posted.0, ..self };
                            match written.1 {
                                Ok(_) => (world, Outcome::Updated),
                                Err(e) => (world, Outcome::Failed(Failure::Store(e))),
                            }
                        },
                    }
                }
            },
        }
    }

    /// The world after the first `n` divisions of the listing have been
    /// processed, in the order of the listing.
    pub open spec fn after(self, n: nat) -> WorldView
        decreases n,
    {
        if n == 0 {
            self
        } else {
            self.after((n - 1) as nat).reconcile(self.source[n - 1].division_id).0
        }
    }

    /// The outcome of the division at position `i` of the listing.
    pub open spec fn outcome_at(self, i: nat) -> Outcome {
        self.after(i).reconcile(self.source[i as int].division_id).1
    }

    /// The world after a pass.
    pub open spec fn pass(self) -> WorldView {
        self.after(self.source.len())
    }

    /// The world `now` and the engine fit together, in a pass that began in
    /// the world `self`: the divisions before the cursor have been
    /// processed, and of the division at hand exactly the calls that the
    /// engine has behind it.
    pub open spec fn consistent(self, now: WorldView, engine: EngineView) -> bool {
        let start = self.after(engine.cursor);
        let id = engine.division_id();
        let found = start.store.find(id);
        let fetched = spec_detail(self.source, id);
        &&& engine.wf()
        &&& now.source == self.source
        &&& start.source == self.source
        &&& engine.phase !is Listing ==> engine.listing == self.source
        &&& forall|i: int|
            0 <= i < engine.cursor ==> #[trigger] engine.outcomes[i] == self.outcome_at(i as nat)
        &&& match engine.phase {
            PhaseView::Listing => now == self,
            PhaseView::Lookup => now == start,
            PhaseView::DetailForCreate => now == start && found is None,
            PhaseView::Thread { detail } => now == start && found is None && fetched == Ok::<
                RecordView,
                SourceError,
            >(detail),
            PhaseView::Insert { thread_id, detail } => {
                &&& found is None
                &&& fetched == Ok::<RecordView, SourceError>(detail)
                &&& now == WorldView { board: start.board.open(detail.title).0, ..start }
                &&& thread_id == start.board.open(detail.title).1
            },
            PhaseView::Baseline { thread_id, detail } => {
                let written = start.store.create(
                    NewDivision {
                        division_id: id,
                        discord_thread_id: spec_stored_thread_id(thread_id),
                    },
                );
                &&& found is None
                &&& fetched == Ok::<RecordView, SourceError>(detail)
                &&& thread_id == start.board.open(detail.title).1
                &&& written.1 is Ok
                &&& now == WorldView {
                    store: written.0,
                    board: start.board.open(detail.title).0,
                    ..start
                }
            },
            PhaseView::DetailForUpdate { mapping } => now == start && found == Some(mapping),
            PhaseView::Marker { mapping, detail } => now == start && found == Some(mapping)
                && fetched == Ok::<RecordView, SourceError>(detail),
            PhaseView::Post { mapping, detail } => {
                &&& now == start
                &&& found == Some(mapping)
                &&& fetched == Ok::<RecordView, SourceError>(detail)
                &&& start.store.marker(id) != Some(detail.publication_updated)
            },
            PhaseView::Record { detail } => {
                let posted = start.board.post(
                    spec_platform_thread_id(found->Some_0.discord_thread_id),
                    spec_update_content(),
                );
                &&& found is Some
                &&& fetched == Ok::<RecordView, SourceError>(detail)
                &&& start.store.marker(id) != Some(detail.publication_updated)
                &&& posted.1 is Ok
                &&& now == WorldView { board: posted.0, ..start }
            },
            PhaseView::Done(end) => end == PassEnd::Completed && now == start,
        }
    }

    /// The number of calls that a pass over this world has left, at most.
    pub open spec fn calls_left(self, engine: EngineView) -> nat {
        if engine.phase is Listing {
            6 * self.source.len() + 6
        } else {
            engine.rank()
        }
    }

    /// Processing a division leaves the listing as it is.
    pub proof fn lemma_source_stays(self, n: nat)
        ensures
            self.after(n).source == self.source,
        decreases n,
    {
        if n > 0 {
            self.lemma_source_stays((n - 1) as nat);
        }
    }

    /// After the call that the engine waits for, and the step that takes its
    /// answer, world and engine still fit together and fewer calls are left.
    pub open spec fn carried_on(self, now: WorldView, engine: EngineView) -> bool {
        let done = now.perform(engine.pending());
        &&& done.1 is Some
        &&& self.consistent(done.0, engine.step(done.1->Some_0))
        &&& self.calls_left(engine.step(done.1->Some_0)) < self.calls_left(engine)
    }

    /// The pass is carried on from the listing.
    proof fn lemma_carried_on_listing(self, now: WorldView, engine: EngineView)
        requires
            self.consistent(now, engine),
            engine.phase is Listing,
        ensures
            self.carried_on(now, engine),
    {
        let next = engine.step(now.perform(engine.pending()).1->Some_0);
        assert(next.cursor == 0);
        assert(self.after(0) == self);
    }

    /// The pass is carried on from the lookup of the mapping.
    proof fn lemma_carried_on_lookup(self, now: WorldView, engine: EngineView)
        requires
            self.consistent(now, engine),
            engine.phase is Lookup,
        ensures
            self.carried_on(now, engine),
    {
        let done = now.perform(engine.pending());
        let event = done.1->Some_0;
        let next = engine.step(event);
        let c = engine.cursor;
        self.lemma_source_stays(c);
        self.lemma_source_stays(c + 1);
        let start = self.after(c);
        assert(self.after(c + 1) == start.reconcile(self.source[c as int].division_id).0);
        if next.cursor == c + 1 {
            assert(next.outcomes[c as int] == self.outcome_at(c));
            assert forall|i: int| 0 <= i < next.cursor implies #[trigger] next.outcomes[i]
                == self.outcome_at(i as nat) by {
                if i < c {
                    assert(next.outcomes[i] == engine.outcomes[i]);
                }
            }
        }
    }

    /// The pass is carried on from the fetching of the detail.
    proof fn lemma_carried_on_detail(self, now: WorldView, engine: EngineView)
        requires
            self.consistent(now, engine),
            engine.phase is DetailForCreate || engine.phase is DetailForUpdate,
        ensures
            self.carried_on(now, engine),
    {
        let done = now.perform(engine.pending());
        let event = done.1->Some_0;
        let next = engine.step(event);
        let c = engine.cursor;
        self.lemma_source_stays(c);
        self.lemma_source_stays(c + 1);
        let start = self.after(c);
        assert(self.after(c + 1) == start.reconcile(self.source[c as int].division_id).0);
        if next.cursor == c + 1 {
            assert(next.outcomes[c as int] == self.outcome_at(c));
            assert forall|i: int| 0 <= i < next.cursor implies #[trigger] next.outcomes[i]
                == self.outcome_at(i as nat) by {
                if i < c {
                    assert(next.outcomes[i] == engine.outcomes[i]);
                }
            }
        }
    }

    /// The pass is carried on from the opening of the thread.
    proof fn lemma_carried_on_thread(self, now: WorldView, engine: EngineView)
        requires
            self.consistent(now, engine),
            engine.phase is Thread,
        ensures
            self.carried_on(now, engine),
    {
        let done = now.perform(engine.pending());
        let event = done.1->Some_0;
        let next = engine.step(event);
        let c = engine.cursor;
        self.lemma_source_stays(c);
        self.lemma_source_stays(c + 1);
        let start = self.after(c);
        assert(self.after(c + 1) == start.reconcile(self.source[c as int].division_id).0);
        if next.cursor == c + 1 {
            assert(next.outcomes[c as int] == self.outcome_at(c));
            assert forall|i: int| 0 <= i < next.cursor implies #[trigger] next.outcomes[i]
                == self.outcome_at(i as nat) by {
                if i < c {
                    assert(next.outcomes[i] == engine.outcomes[i]);
                }
            }
        }
    }

    /// The pass is carried on from the writing of the mapping.
    proof fn lemma_carried_on_insert(self, now: WorldView, engine: EngineView)
        requires
            self.consistent(now, engine),
            engine.phase is Insert,
        ensures
            self.carried_on(now, engine),
    {
        let done = now.perform(engine.pending());
        let event = done.1->Some_0;
        let next = engine.step(event);
        let c = engine.cursor;
        self.lemma_source_stays(c);
        self.lemma_source_stays(c + 1);
        let start = self.after(c);
        assert(self.after(c + 1) == start.reconcile(self.source[c as int].division_id).0);
        if next.cursor == c + 1 {
            assert(next.outcomes[c as int] == self.outcome_at(c));
            assert forall|i: int| 0 <= i < next.cursor implies #[trigger] next.outcomes[i]
                == self.outcome_at(i as nat) by {
                if i < c {
                    assert(next.outcomes[i] == engine.outcomes[i]);
                }
            }
        }
    }

    /// The pass is carried on from the recording of the first marker.
    proof fn lemma_carried_on_baseline(self, now: WorldView, engine: EngineView)
        requires
            self.consistent(now, engine),
            engine.phase is Baseline,
        ensures
            self.carried_on(now, engine),
    {
        let done = now.perform(engine.pending());
        let event = done.1->Some_0;
        let next = engine.step(event);
        let c = engine.cursor;
        self.lemma_source_stays(c);
        self.lemma_source_stays(c + 1);
        let start = self.after(c);
        assert(self.after(c + 1) == start.reconcile(self.source[c as int].division_id).0);
        if next.cursor == c + 1 {
            assert(next.outcomes[c as int] == self.outcome_at(c));
            assert forall|i: int| 0 <= i < next.cursor implies #[trigger] next.outcomes[i]
                == self.outcome_at(i as nat) by {
                if i < c {
                    assert(next.outcomes[i] == engine.outcomes[i]);
                }
            }
        }
    }

    /// The pass is carried on from the loading of the marker.
    proof fn lemma_carried_on_marker(self, now: WorldView, engine: EngineView)
        requires
            self.consistent(now, engine),
            engine.phase is Marker,
        ensures
            self.carried_on(now, engine),
    {
        let done = now.perform(engine.pending());
        let event = done.1->Some_0;
        let next = engine.step(event);
        let c = engine.cursor;
        self.lemma_source_stays(c);
        self.lemma_source_stays(c + 1);
        let start = self.after(c);
        assert(self.after(c + 1) == start.reconcile(self.source[c as int].division_id).0);
        if next.cursor == c + 1 {
            assert(next.outcomes[c as int] == self.outcome_at(c));
            assert forall|i: int| 0 <= i < next.cursor implies #[trigger] next.outcomes[i]
                == self.outcome_at(i as nat) by {
                if i < c {
                    assert(next.outcomes[i] == engine.outcomes[i]);
                }
            }
        }
    }

    /// The pass is carried on from the posting of the update.
    proof fn lemma_carried_on_post(self, now: WorldView, engine: EngineView)
        requires
            self.consistent(now, engine),
            engine.phase is Post,
        ensures
            self.carried_on(now, engine),
    {
        let done = now.perform(engine.pending());
        let event = done.1->Some_0;
        let next = engine.step(event);
        let c = engine.cursor;
        self.lemma_source_stays(c);
        self.lemma_source_stays(c + 1);
        let start = self.after(c);
        assert(self.after(c + 1) == start.reconcile(self.source[c as int].division_id).0);
        if next.cursor == c + 1 {
            assert(next.outcomes[c as int] == self.outcome_at(c));
            assert forall|i: int| 0 <= i < next.cursor implies #[trigger] next.outcomes[i]
                == self.outcome_at(i as nat) by {
                if i < c {
                    assert(next.outcomes[i] == engine.outcomes[i]);
                }
            }
        }
    }

    /// The pass is carried on from the recording of the new marker.
    proof fn lemma_carried_on_record(self, now: WorldView, engine: EngineView)
        requires
            self.consistent(now, engine),
            engine.phase is Record,
        ensures
            self.carried_on(now, engine),
    {
        let done = now.perform(engine.pending());
        let event = done.1->Some_0;
        let next = engine.step(event);
        let c = engine.cursor;
        self.lemma_source_stays(c);
        self.lemma_source_stays(c + 1);
        let start = self.after(c);
        assert(self.after(c + 1) == start.reconcile(self.source[c as int].division_id).0);
        if next.cursor == c + 1 {
            assert(next.outcomes[c as int] == self.outcome_at(c));
            assert forall|i: int| 0 <= i < next.cursor implies #[trigger] next.outcomes[i]
                == self.outcome_at(i as nat) by {
                if i < c {
                    assert(next.outcomes[i] == engine.outcomes[i]);
                }
            }
        }
    }

    /// One call and one step keep world and engine together, and leave
    /// fewer calls to make.
    pub proof fn lemma_call_and_step(self, now: WorldView, engine: EngineView)
        requires
            self.consistent(now, engine),
            engine.phase !is Done,
        ensures
            self.carried_on(now, engine),
    {
        match engine.phase {
            PhaseView::Listing => self.lemma_carried_on_listing(now, engine),
            PhaseView::Lookup => self.lemma_carried_on_lookup(now, engine),
            PhaseView::DetailForCreate => self.lemma_carried_on_detail(now, engine),
            PhaseView::Thread { .. } => self.lemma_carried_on_thread(now, engine),
            PhaseView::Insert { .. } => self.lemma_carried_on_insert(now, engine),
            PhaseView::Baseline { .. } => self.lemma_carried_on_baseline(now, engine),
            PhaseView::DetailForUpdate { .. } => self.lemma_carried_on_detail(now, engine),
            PhaseView::Marker { .. } => self.lemma_carried_on_marker(now, engine),
            PhaseView::Post { .. } => self.lemma_carried_on_post(now, engine),
            PhaseView::Record { .. } => self.lemma_carried_on_record(now, engine),
            PhaseView::Done(_) => {},
        }
    }
}

/// A source, a store and a board in memory.
pub struct World {
    pub source: Vec<DivisionRecord>,
    pub store: DivisionStore,
    pub board: ThreadBoard,
}

impl View for World {
    type V = WorldView;

    open spec fn view(&self) -> WorldView {
        WorldView { source: record_views(self.source@), store: self.store@, board: self.board@ }
    }
}

/// The view of an answer, if there is one.
pub open spec fn answer_view(answer: Option<Event>) -> Option<EventView> {
    match answer {
        Some(event) => Some(event@),
        None => None,
    }
}

impl World {
    /// A world whose source lists `source`, with an empty store and an
    /// empty board.
    pub fn new(source: Vec<DivisionRecord>) -> (world: World)
        ensures
            world@ == (WorldView {
                source: record_views(source@),
                store: StoreRows::empty(),
                board: BoardView::empty(),
            }),
            world@.store.wf(),
    {
        World { source, store: DivisionStore::new(), board: ThreadBoard::new() }
    }

    /// Performs the call that the engine asks for and returns the answer;
    /// `Finish` asks for nothing and has none.
    pub fn perform(&mut self, action: &Action) -> (answer: Option<Event>)
        requires
            old(self)@.store.wf(),
        ensures
            final(self)@.store.wf(),
            (final(self)@, answer_view(answer)) == old(self)@.perform(action@),
    {
        match action {
            Action::FetchListing => Some(Event::Listing(Ok(duplicate_records(&self.source)))),
            Action::FindMapping { division_id } => Some(
                Event::Mapping(Ok(self.store.find_mapping(*division_id))),
            ),
            Action::FetchDivision { division_id } => Some(
                Event::Detail(detail(&self.source, *division_id)),
            ),
            Action::CreateThread { title } => {
                let thread_id = self.board.create_thread(title.as_str());
                Some(Event::ThreadCreated(Ok(thread_id)))
            },
            Action::CreateMapping { division_id, thread_id } => {
                let written = self.store.create_mapping(*division_id, *thread_id);
                Some(Event::MappingCreated(written))
            },
            Action::LoadLastSeen { division_id } => Some(
                Event::LastSeen(Ok(self.store.last_seen(*division_id))),
            ),
            Action::PostUpdate { thread_id, content } => {
                let posted = self.board.post_update(*thread_id, content.as_str());
                Some(Event::Posted(posted))
            },
            Action::RecordUpdateSeen { division_id, publication_updated } => {
                let written = self.store.record_update_seen(
                    *division_id,
                    publication_updated.as_str(),
                );
                Some(Event::Recorded(written))
            },
            Action::Finish(_) => None,
        }
    }

    /// Runs one pass of the engine and returns the outcome of every
    /// division of the listing, in its order.
    pub fn run_pass(&mut self) -> (outcomes: Vec<Outcome>)
        requires
            old(self)@.store.wf(),
        ensures
            final(self)@.store.wf(),
            final(self)@ == old(self)@.pass(),
            outcomes.len() == old(self)@.source.len(),
            forall|i: int|
                0 <= i < outcomes.len() ==> #[trigger] outcomes[i] == old(self)@.outcome_at(
                    i as nat,
                ),
    {
        let ghost begin = self@;
        let mut engine = Engine::start();
        let mut action = engine.pending();
        proof {
            assert(begin.after(0) == begin);
        }
        loop
            invariant
                self@.store.wf(),
                begin.consistent(self@, engine@),
                action@ == engine@.pending(),
            ensures
                self@.store.wf(),
                begin.consistent(self@, engine@),
                engine@.phase is Done,
            decreases begin.calls_left(engine@),
        {
            proof {
                if engine@.phase !is Done {
                    begin.lemma_call_and_step(self@, engine@);
                }
            }
            match self.perform(&action) {
                None => {
                    break ;
                },
                Some(event) => {
                    let next = engine.step(event);
                    engine = next.0;
                    action = next.1;
                },
            }
        }
        engine.into_outcomes()
    }
}

} // verus!
