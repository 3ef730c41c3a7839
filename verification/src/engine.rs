//! The reconciliation engine.
//!
//! The engine makes no outside call. It answers each [`Event`], the result of
//! the call it asked for, with the next [`Action`] to perform. One pass goes
//! from `FetchListing` to `Finish`; between them every division of the
//! listing is taken in turn, and a failure on one division is written down
//! as its [`Outcome`] and the pass goes on with the next.
//!
//! [`EngineView::step`] is the transition function, stated on sequences;
//! [`Engine::step`] is proved to compute it.

use crate::errors::{Failure, PlatformError, SourceError, StoreError};
use crate::model::{record_views, Division, DivisionRecord, RecordView};
use crate::platform::{
    platform_thread_id, spec_platform_thread_id, spec_stored_thread_id, spec_update_content,
    stored_thread_id, update_content,
};
use vstd::prelude::*;

verus! {

/// How the processing of one division ended.
#[derive(Clone, Copy, Debug, PartialEq, Eq, Structural)]
pub enum Outcome {
    /// A thread was opened, the mapping to it written, and the marker of
    /// the detail recorded as the one last seen.
    Created { thread_id: u64 },
    /// A thread was opened, but the store already held a mapping when ours
    /// was written: the division counts as tracked, and `thread_id` names
    /// the thread that was opened in vain.
    Duplicate { thread_id: u64 },
    /// The marker had moved: an update was posted and the marker recorded.
    Updated,
    /// The marker is the one that was last seen: nothing was done.
    Unchanged,
    /// A call failed; the division is left for the next pass.
    Failed(Failure),
}

/// How a pass ended.
#[derive(Clone, Copy, Debug, PartialEq, Eq, Structural)]
pub enum PassEnd {
    /// Every division of the listing has an outcome.
    Completed,
    /// The listing could not be fetched; nothing was processed.
    Aborted(SourceError),
    /// The deadline of the pass went by (`PassTimedOut`).
    TimedOut,
}

/// The outside call that the engine asks for.
#[allow(inconsistent_fields)]
#[derive(Clone, Debug, PartialEq, Eq)]
pub enum Action {
    FetchListing,
    FindMapping { division_id: i32 },
    FetchDivision { division_id: i32 },
    CreateThread { title: String },
    CreateMapping { division_id: i32, thread_id: i64 },
    LoadLastSeen { division_id: i32 },
    PostUpdate { thread_id: u64, content: String },
    RecordUpdateSeen { division_id: i32, publication_updated: String },
    /// The pass is over: there is nothing left to call.
    Finish(PassEnd),
}

/// An [`Action`] with its texts as sequences.
#[allow(inconsistent_fields)]
pub enum ActionView {
    FetchListing,
    FindMapping { division_id: i32 },
    FetchDivision { division_id: i32 },
    CreateThread { title: Seq<char> },
    CreateMapping { division_id: i32, thread_id: i64 },
    LoadLastSeen { division_id: i32 },
    PostUpdate { thread_id: u64, content: Seq<char> },
    RecordUpdateSeen { division_id: i32, publication_updated: Seq<char> },
    Finish(PassEnd),
}

impl View for Action {
    type V = ActionView;

    open spec fn view(&self) -> ActionView {
        match *self {
            Action::FetchListing => ActionView::FetchListing,
            Action::FindMapping { division_id } => ActionView::FindMapping { division_id },
            Action::FetchDivision { division_id } => ActionView::FetchDivision { division_id },
            Action::CreateThread { title } => ActionView::CreateThread { title: title@ },
            Action::CreateMapping { division_id, thread_id } => ActionView::CreateMapping {
                division_id,
                thread_id,
            },
            Action::LoadLastSeen { division_id } => ActionView::LoadLastSeen { division_id },
            Action::PostUpdate { thread_id, content } => ActionView::PostUpdate {
                thread_id,
                content: content@,
            },
            Action::RecordUpdateSeen {
                division_id,
                publication_updated,
            } => ActionView::RecordUpdateSeen {
                division_id,
                publication_updated: publication_updated@,
            },
            Action::Finish(end) => ActionView::Finish(end),
        }
    }
}

/// What an outside call returned.
#[derive(Debug, PartialEq, Eq)]
pub enum Event {
    Listing(Result<Vec<DivisionRecord>, SourceError>),
    Mapping(Result<Option<Division>, StoreError>),
    Detail(Result<DivisionRecord, SourceError>),
    ThreadCreated(Result<u64, PlatformError>),
    MappingCreated(Result<Division, StoreError>),
    LastSeen(Result<Option<String>, StoreError>),
    Posted(Result<(), PlatformError>),
    Recorded(Result<(), StoreError>),
    /// The deadline of the pass went by.
    DeadlinePassed,
}

/// An [`Event`] with its texts as sequences.
pub enum EventView {
    Listing(Result<Seq<RecordView>, SourceError>),
    Mapping(Result<Option<Division>, StoreError>),
    Detail(Result<RecordView, SourceError>),
    ThreadCreated(Result<u64, PlatformError>),
    MappingCreated(Result<Division, StoreError>),
    LastSeen(Result<Option<Seq<char>>, StoreError>),
    Posted(Result<(), PlatformError>),
    Recorded(Result<(), StoreError>),
    DeadlinePassed,
}

impl View for Event {
    type V = EventView;

    open spec fn view(&self) -> EventView {
        match *self {
            Event::Listing(Ok(records)) => EventView::Listing(Ok(record_views(records@))),
            Event::Listing(Err(e)) => EventView::Listing(Err(e)),
            Event::Mapping(found) => EventView::Mapping(found),
            Event::Detail(Ok(record)) => EventView::Detail(Ok(record@)),
            Event::Detail(Err(e)) => EventView::Detail(Err(e)),
            Event::ThreadCreated(opened) => EventView::ThreadCreated(opened),
            Event::MappingCreated(written) => EventView::MappingCreated(written),
            Event::LastSeen(Ok(Some(marker))) => EventView::LastSeen(Ok(Some(marker@))),
            Event::LastSeen(Ok(None)) => EventView::LastSeen(Ok(None)),
            Event::LastSeen(Err(e)) => EventView::LastSeen(Err(e)),
            Event::Posted(posted) => EventView::Posted(posted),
            Event::Recorded(written) => EventView::Recorded(written),
            Event::DeadlinePassed => EventView::DeadlinePassed,
        }
    }
}

/// Where the engine stands: which answer it waits for, and what it has
/// learnt of the division at hand.
enum Phase {
    Listing,
    Lookup,
    DetailForCreate,
    Thread { detail: DivisionRecord },
    Insert { thread_id: u64, detail: DivisionRecord },
    Baseline { thread_id: u64, detail: DivisionRecord },
    DetailForUpdate { mapping: Division },
    Marker { mapping: Division, detail: DivisionRecord },
    Post { mapping: Division, detail: DivisionRecord },
    Record { detail: DivisionRecord },
    Done(PassEnd),
}

/// Where the engine stands, with texts as sequences.
pub enum PhaseView {
    /// Waiting for the listing.
    Listing,
    /// Waiting for the mapping of the division at hand.
    Lookup,
    /// No mapping: waiting for the detail, to open a thread.
    DetailForCreate,
    /// Waiting for the thread to be opened.
    Thread { detail: RecordView },
    /// Waiting for the mapping to be written.
    Insert { thread_id: u64, detail: RecordView },
    /// The mapping is written: waiting for the marker of the detail to be
    /// recorded, so that the next pass finds it unchanged.
    Baseline { thread_id: u64, detail: RecordView },
    /// There is a mapping: waiting for the detail, to compare markers.
    DetailForUpdate { mapping: Division },
    /// Waiting for the marker that was last seen.
    Marker { mapping: Division, detail: RecordView },
    /// The marker has moved: waiting for the update to be posted.
    Post { mapping: Division, detail: RecordView },
    /// Waiting for the new marker to be recorded.
    Record { detail: RecordView },
    /// The pass is over.
    Done(PassEnd),
}

impl View for Phase {
    type V = PhaseView;

    closed spec fn view(&self) -> PhaseView {
        match *self {
            Phase::Listing => PhaseView::Listing,
            Phase::Lookup => PhaseView::Lookup,
            Phase::DetailForCreate => PhaseView::DetailForCreate,
            Phase::Thread { detail } => PhaseView::Thread { detail: detail@ },
            Phase::Insert { thread_id, detail } => PhaseView::Insert { thread_id, detail: detail@ },
            Phase::Baseline { thread_id, detail } => PhaseView::Baseline {
                thread_id,
                detail: detail@,
            },
            Phase::DetailForUpdate { mapping } => PhaseView::DetailForUpdate { mapping },
            Phase::Marker { mapping, detail } => PhaseView::Marker { mapping, detail: detail@ },
            Phase::Post { mapping, detail } => PhaseView::Post { mapping, detail: detail@ },
            Phase::Record { detail } => PhaseView::Record { detail: detail@ },
            Phase::Done(end) => PhaseView::Done(end),
        }
    }
}

/// The state of a pass: the listing, the position of the division at hand,
/// and the outcomes of the divisions before it.
pub struct EngineView {
    pub phase: PhaseView,
    pub listing: Seq<RecordView>,
    pub cursor: nat,
    pub outcomes: Seq<Outcome>,
}

impl EngineView {
    /// The state in which a pass begins.
    pub open spec fn initial() -> EngineView {
        EngineView {
            phase: PhaseView::Listing,
            listing: Seq::empty(),
            cursor: 0,
            outcomes: Seq::empty(),
        }
    }

    /// The invariant of the engine: every division before the cursor has an
    /// outcome, and while a division is at hand the cursor points at it.
    pub open spec fn wf(self) -> bool {
        &&& self.cursor <= self.listing.len()
        &&& self.outcomes.len() == self.cursor
        &&& match self.phase {
            PhaseView::Listing => self.listing.len() == 0,
            PhaseView::Done(PassEnd::Completed) => self.cursor == self.listing.len(),
            PhaseView::Done(_) => true,
            _ => self.cursor < self.listing.len(),
        }
    }

    /// The identifier of the division at hand.
    pub open spec fn division_id(self) -> i32 {
        self.listing[self.cursor as int].division_id
    }

    /// The call that the engine waits for.
    pub open spec fn pending(self) -> ActionView {
        match self.phase {
            PhaseView::Listing => ActionView::FetchListing,
            PhaseView::Lookup => ActionView::FindMapping { division_id: self.division_id() },
            PhaseView::DetailForCreate => ActionView::FetchDivision {
                division_id: self.division_id(),
            },
            PhaseView::Thread { detail } => ActionView::CreateThread { title: detail.title },
            PhaseView::Insert { thread_id, detail } => ActionView::CreateMapping {
                division_id: self.division_id(),
                thread_id: spec_stored_thread_id(thread_id),
            },
            PhaseView::Baseline { thread_id, detail } => ActionView::RecordUpdateSeen {
                division_id: self.division_id(),
                publication_updated: detail.publication_updated,
            },
            PhaseView::DetailForUpdate { mapping } => ActionView::FetchDivision {
                division_id: self.division_id(),
            },
            PhaseView::Marker { mapping, detail } => ActionView::LoadLastSeen {
                division_id: self.division_id(),
            },
            PhaseView::Post { mapping, detail } => ActionView::PostUpdate {
                thread_id: spec_platform_thread_id(mapping.discord_thread_id),
                content: spec_update_content(),
            },
            PhaseView::Record { detail } => ActionView::RecordUpdateSeen {
                division_id: self.division_id(),
                publication_updated: detail.publication_updated,
            },
            PhaseView::Done(end) => ActionView::Finish(end),
        }
    }

    /// The state in which the division at the cursor is taken up, or the
    /// pass completed if there is none left.
    pub open spec fn enter(self) -> EngineView {
        if self.cursor < self.listing.len() {
            EngineView { phase: PhaseView::Lookup, ..self }
        } else {
            EngineView { phase: PhaseView::Done(PassEnd::Completed), ..self }
        }
    }

    /// The state after the division at hand ended with `outcome`.
    pub open spec fn advance(self, outcome: Outcome) -> EngineView {
        EngineView {
            cursor: self.cursor + 1,
            outcomes: self.outcomes.push(outcome),
            ..self
        }.enter()
    }

    /// The event answers the call that the engine waits for.
    pub open spec fn expects(self, event: EventView) -> bool {
        match (self.phase, event) {
            (PhaseView::Listing, EventView::Listing(_)) => true,
            (PhaseView::Lookup, EventView::Mapping(_)) => true,
            (PhaseView::DetailForCreate, EventView::Detail(_)) => true,
            (PhaseView::Thread { .. }, EventView::ThreadCreated(_)) => true,
            (PhaseView::Insert { .. }, EventView::MappingCreated(_)) => true,
            (PhaseView::Baseline { .. }, EventView::Recorded(_)) => true,
            (PhaseView::DetailForUpdate { .. }, EventView::Detail(_)) => true,
            (PhaseView::Marker { .. }, EventView::LastSeen(_)) => true,
            (PhaseView::Post { .. }, EventView::Posted(_)) => true,
            (PhaseView::Record { .. }, EventView::Recorded(_)) => true,
            _ => false,
        }
    }

    /// The transition function of the engine.
    ///
    /// A finished pass stays finished. The deadline ends a running pass
    /// where it stands. An event that does not answer the pending call
    /// changes nothing. Otherwise the division at hand moves one call
    /// further, or ends with an outcome and the next division is taken up.
    pub open spec fn step(self, event: EventView) -> EngineView {
        match (self.phase, event) {
            (PhaseView::Done(_), _) => self,
            (_, EventView::DeadlinePassed) => EngineView {
                phase: PhaseView::Done(PassEnd::TimedOut),
                ..self
            },
            (PhaseView::Listing, EventView::Listing(Ok(records))) => EngineView {
                listing: records,
                ..self
            }.enter(),
            (PhaseView::Listing, EventView::Listing(Err(e))) => EngineView {
                phase: PhaseView::Done(PassEnd::Aborted(e)),
                ..self
            },
            (PhaseView::Lookup, EventView::Mapping(Ok(None))) => EngineView {
                phase: PhaseView::DetailForCreate,
                ..self
            },
            (PhaseView::Lookup, EventView::Mapping(Ok(Some(mapping)))) => EngineView {
                phase: PhaseView::DetailForUpdate { mapping },
                ..self
            },
            (PhaseView::Lookup, EventView::Mapping(Err(e))) => self.advance(
                Outcome::Failed(Failure::Store(e)),
            ),
            (PhaseView::DetailForCreate, EventView::Detail(Ok(detail))) => EngineView {
                phase: PhaseView::Thread { detail },
                ..self
            },
            (PhaseView::DetailForCreate, EventView::Detail(Err(e))) => self.advance(
                Outcome::Failed(Failure::Source(e)),
            ),
            (PhaseView::Thread { detail }, EventView::ThreadCreated(Ok(thread_id))) => EngineView {
                phase: PhaseView::Insert { thread_id, detail },
                ..self
            },
            (PhaseView::Thread { detail }, EventView::ThreadCreated(Err(e))) => self.advance(
                Outcome::Failed(Failure::Platform(e)),
            ),
            (
                PhaseView::Insert { thread_id, detail },
                EventView::MappingCreated(Ok(row)),
            ) => EngineView { phase: PhaseView::Baseline { thread_id, detail }, ..self },
            (
                PhaseView::Insert { thread_id, detail },
                EventView::MappingCreated(Err(StoreError::DuplicateMapping)),
            ) => self.advance(Outcome::Duplicate { thread_id }),
            (
                PhaseView::Insert { thread_id, detail },
                EventView::MappingCreated(Err(e)),
            ) => self.advance(Outcome::Failed(Failure::Store(e))),
            (
                PhaseView::Baseline { thread_id, detail },
                EventView::Recorded(Ok(_)),
            ) => self.advance(Outcome::Created { thread_id }),
            (
                PhaseView::Baseline { thread_id, detail },
                EventView::Recorded(Err(e)),
            ) => self.advance(Outcome::Failed(Failure::Store(e))),
            (PhaseView::DetailForUpdate { mapping }, EventView::Detail(Ok(detail))) => EngineView {
                phase: PhaseView::Marker { mapping, detail },
                ..self
            },
            (PhaseView::DetailForUpdate { mapping }, EventView::Detail(Err(e))) => self.advance(
                Outcome::Failed(Failure::Source(e)),
            ),
            (PhaseView::Marker { mapping, detail }, EventView::LastSeen(Ok(seen))) => {
                if seen == Some(detail.publication_updated) {
                    self.advance(Outcome::Unchanged)
                } else {
                    EngineView { phase: PhaseView::Post { mapping, detail }, ..self }
                }
            },
            (PhaseView::Marker { mapping, detail }, EventView::LastSeen(Err(e))) => self.advance(
                Outcome::Failed(Failure::Store(e)),
            ),
            (PhaseView::Post { mapping, detail }, EventView::Posted(Ok(_))) => EngineView {
                phase: PhaseView::Record { detail },
                ..self
            },
            (PhaseView::Post { mapping, detail }, EventView::Posted(Err(e))) => self.advance(
                Outcome::Failed(Failure::Platform(e)),
            ),
            (PhaseView::Record { detail }, EventView::Recorded(Ok(_))) => self.advance(
                Outcome::Updated,
            ),
            (PhaseView::Record { detail }, EventView::Recorded(Err(e))) => self.advance(
                Outcome::Failed(Failure::Store(e)),
            ),
            _ => self,
        }
    }

    /// The number of calls left in the division at hand, at most.
    pub open spec fn phase_rank(self) -> nat {
        match self.phase {
            PhaseView::Listing => 0,
            PhaseView::Lookup => 5,
            PhaseView::DetailForCreate => 4,
            PhaseView::Thread { .. } => 3,
            PhaseView::Insert { .. } => 2,
            PhaseView::Baseline { .. } => 1,
            PhaseView::DetailForUpdate { .. } => 4,
            PhaseView::Marker { .. } => 3,
            PhaseView::Post { .. } => 2,
            PhaseView::Record { .. } => 1,
            PhaseView::Done(_) => 0,
        }
    }

    /// The number of calls left in the pass, at most, once the listing is
    /// there.
    pub open spec fn rank(self) -> nat {
        if self.phase is Done {
            0
        } else {
            (6 * (self.listing.len() - self.cursor) + self.phase_rank()) as nat
        }
    }
}

/// The reconciliation engine, for one pass.
pub struct Engine {
    phase: Phase,
    listing: Vec<DivisionRecord>,
    cursor: usize,
    outcomes: Vec<Outcome>,
}

impl View for Engine {
    type V = EngineView;

    closed spec fn view(&self) -> EngineView {
        EngineView {
            phase: self.phase@,
            listing: record_views(self.listing@),
            cursor: self.cursor as nat,
            outcomes: self.outcomes@,
        }
    }
}

impl Engine {
    #[verifier::type_invariant]
    spec fn inv(self) -> bool {
        self@.wf()
    }

    /// An engine at the beginning of a pass: it waits for the listing.
    pub fn start() -> (engine: Engine)
        ensures
            engine@ == EngineView::initial(),
            engine@.wf(),
    {
        let engine = Engine {
            phase: Phase::Listing,
            listing: Vec::new(),
            cursor: 0,
            outcomes: Vec::new(),
        };
        assert(engine@.listing =~= Seq::empty());
        assert(engine@.outcomes =~= Seq::empty());
        engine
    }

    fn enter(listing: Vec<DivisionRecord>, cursor: usize, outcomes: Vec<Outcome>) -> (engine:
        Engine)
        requires
            cursor <= listing.len(),
            outcomes.len() == cursor,
        ensures
            engine@ == (EngineView {
                phase: PhaseView::Lookup,
                listing: record_views(listing@),
                cursor: cursor as nat,
                outcomes: outcomes@,
            }).enter(),
    {
        if cursor < listing.len() {
            Engine { phase: Phase::Lookup, listing, cursor, outcomes }
        } else {
            Engine { phase: Phase::Done(PassEnd::Completed), listing, cursor, outcomes }
        }
    }

    fn advance(
        listing: Vec<DivisionRecord>,
        cursor: usize,
        outcomes: Vec<Outcome>,
        outcome: Outcome,
    ) -> (engine: Engine)
        requires
            cursor < listing.len(),
            outcomes.len() == cursor,
        ensures
            engine@ == (EngineView {
                phase: PhaseView::Lookup,
                listing: record_views(listing@),
                cursor: cursor as nat,
                outcomes: outcomes@,
            }).advance(outcome),
    {
        let mut outcomes = outcomes;
        outcomes.push(outcome);
        Engine::enter(listing, cursor + 1, outcomes)
    }

    /// The pass is over.
    pub fn is_done(&self) -> (done: bool)
        ensures
            done == (self@.phase is Done),
    {
        match self.phase {
            Phase::Done(_) => true,
            _ => false,
        }
    }

    /// How the pass ended, once it is over.
    pub fn end(&self) -> (end: Option<PassEnd>)
        ensures
            end == (match self@.phase {
                PhaseView::Done(e) => Some(e),
                _ => None,
            }),
    {
        match self.phase {
            Phase::Done(e) => Some(e),
            _ => None,
        }
    }

    /// The number of divisions that have an outcome.
    pub fn processed(&self) -> (n: usize)
        ensures
            n == self@.cursor,
            n == self@.outcomes.len(),
            self@.wf(),
    {
        proof {
            use_type_invariant(self);
        }
        self.cursor
    }

    /// The outcome of the division at position `index` of the listing.
    pub fn outcome(&self, index: usize) -> (outcome: Option<Outcome>)
        ensures
            outcome == (if index < self@.outcomes.len() {
                Some(self@.outcomes[index as int])
            } else {
                None
            }),
    {
        if index < self.outcomes.len() {
            Some(self.outcomes[index])
        } else {
            None
        }
    }

    /// The outcomes of the divisions that were processed, in the order of
    /// the listing.
    pub fn into_outcomes(self) -> (outcomes: Vec<Outcome>)
        ensures
            outcomes@ == self@.outcomes,
    {
        self.outcomes
    }

    /// The call that the engine waits for.
    pub fn pending(&self) -> (action: Action)
        ensures
            action@ == self@.pending(),
            self@.wf(),
    {
        proof {
            use_type_invariant(self);
        }
        match &self.phase {
            Phase::Listing => Action::FetchListing,
            Phase::Lookup => Action::FindMapping {
                division_id: self.listing[self.cursor].division_id,
            },
            Phase::DetailForCreate => Action::FetchDivision {
                division_id: self.listing[self.cursor].division_id,
            },
            Phase::Thread { detail } => Action::CreateThread { title: detail.title.clone() },
            Phase::Insert { thread_id, detail } => Action::CreateMapping {
                division_id: self.listing[self.cursor].division_id,
                thread_id: stored_thread_id(*thread_id),
            },
            Phase::Baseline { thread_id, detail } => Action::RecordUpdateSeen {
                division_id: self.listing[self.cursor].division_id,
                publication_updated: detail.publication_updated.clone(),
            },
            Phase::DetailForUpdate { mapping } => Action::FetchDivision {
                division_id: self.listing[self.cursor].division_id,
            },
            Phase::Marker { mapping, detail } => Action::LoadLastSeen {
                division_id: self.listing[self.cursor].division_id,
            },
            Phase::Post { mapping, detail } => Action::PostUpdate {
                thread_id: platform_thread_id(mapping.discord_thread_id),
                content: update_content(),
            },
            Phase::Record { detail } => Action::RecordUpdateSeen {
                division_id: self.listing[self.cursor].division_id,
                publication_updated: detail.publication_updated.clone(),
            },
            Phase::Done(end) => Action::Finish(*end),
        }
    }

    /// Takes the result of an outside call and answers with the next call.
    pub fn step(self, event: Event) -> (next: (Engine, Action))
        ensures
            next.0@ == self@.step(event@),
            next.1@ == next.0@.pending(),
            next.0@.wf(),
    {
        proof {
            use_type_invariant(&self);
        }
        let Engine { phase, listing, cursor, outcomes } = self;
        let engine = match (phase, event) {
            (Phase::Done(end), _) => Engine { phase: Phase::Done(end), listing, cursor, outcomes },
            (_, Event::DeadlinePassed) => Engine {
                phase: Phase::Done(PassEnd::TimedOut),
                listing,
                cursor,
                outcomes,
            },
            (Phase::Listing, Event::Listing(Ok(records))) => Engine::enter(records, 0, outcomes),
            (Phase::Listing, Event::Listing(Err(e))) => Engine {
                phase: Phase::Done(PassEnd::Aborted(e)),
                listing,
                cursor,
                outcomes,
            },
            (Phase::Lookup, Event::Mapping(Ok(None))) => Engine {
                phase: Phase::DetailForCreate,
                listing,
                cursor,
                outcomes,
            },
            (Phase::Lookup, Event::Mapping(Ok(Some(mapping)))) => Engine {
                phase: Phase::DetailForUpdate { mapping },
                listing,
                cursor,
                outcomes,
            },
            (Phase::Lookup, Event::Mapping(Err(e))) => Engine::advance(
                listing,
                cursor,
                outcomes,
                Outcome::Failed(Failure::Store(e)),
            ),
            (Phase::DetailForCreate, Event::Detail(Ok(detail))) => Engine {
                phase: Phase::Thread { detail },
                listing,
                cursor,
                outcomes,
            },
            (Phase::DetailForCreate, Event::Detail(Err(e))) => Engine::advance(
                listing,
                cursor,
                outcomes,
                Outcome::Failed(Failure::Source(e)),
            ),
            (Phase::Thread { detail }, Event::ThreadCreated(Ok(thread_id))) => Engine {
                phase: Phase::Insert { thread_id, detail },
                listing,
                cursor,
                outcomes,
            },
            (Phase::Thread { detail }, Event::ThreadCreated(Err(e))) => Engine::advance(
                listing,
                cursor,
                outcomes,
                Outcome::Failed(Failure::Platform(e)),
            ),
            (Phase::Insert { thread_id, detail }, Event::MappingCreated(Ok(row))) => Engine {
                phase: Phase::Baseline { thread_id, detail },
                listing,
                cursor,
                outcomes,
            },
            (
                Phase::Insert { thread_id, detail },
                Event::MappingCreated(Err(StoreError::DuplicateMapping)),
            ) => Engine::advance(listing, cursor, outcomes, Outcome::Duplicate { thread_id }),
            (Phase::Insert { thread_id, detail }, Event::MappingCreated(Err(e))) => Engine::advance(
                listing,
                cursor,
                outcomes,
                Outcome::Failed(Failure::Store(e)),
            ),
            (Phase::Baseline { thread_id, detail }, Event::Recorded(Ok(_))) => Engine::advance(
                listing,
                cursor,
                outcomes,
                Outcome::Created { thread_id },
            ),
            (Phase::Baseline { thread_id, detail }, Event::Recorded(Err(e))) => Engine::advance(
                listing,
                cursor,
                outcomes,
                Outcome::Failed(Failure::Store(e)),
            ),
            (Phase::DetailForUpdate { mapping }, Event::Detail(Ok(detail))) => Engine {
                phase: Phase::Marker { mapping, detail },
                listing,
                cursor,
                outcomes,
            },
            (Phase::DetailForUpdate { mapping }, Event::Detail(Err(e))) => Engine::advance(
                listing,
                cursor,
                outcomes,
                Outcome::Failed(Failure::Source(e)),
            ),
            (Phase::Marker { mapping, detail }, Event::LastSeen(Ok(seen))) => {
                let unchanged = match &seen {
                    Some(marker) => *marker == detail.publication_updated,
                    None => false,
                };
                if unchanged {
                    Engine::advance(listing, cursor, outcomes, Outcome::Unchanged)
                } else {
                    Engine { phase: Phase::Post { mapping, detail }, listing, cursor, outcomes }
                }
            },
            (Phase::Marker { mapping, detail }, Event::LastSeen(Err(e))) => Engine::advance(
                listing,
                cursor,
                outcomes,
                Outcome::Failed(Failure::Store(e)),
            ),
            (Phase::Post { mapping, detail }, Event::Posted(Ok(_))) => Engine {
                phase: Phase::Record { detail },
                listing,
                cursor,
                outcomes,
            },
            (Phase::Post { mapping, detail }, Event::Posted(Err(e))) => Engine::advance(
                listing,
                cursor,
                outcomes,
                Outcome::Failed(Failure::Platform(e)),
            ),
            (Phase::Record { detail }, Event::Recorded(Ok(_))) => Engine::advance(
                listing,
                cursor,
                outcomes,
                Outcome::Updated,
            ),
            (Phase::Record { detail }, Event::Recorded(Err(e))) => Engine::advance(
                listing,
                cursor,
                outcomes,
                Outcome::Failed(Failure::Store(e)),
            ),
            (phase, _) => Engine { phase, listing, cursor, outcomes },
        };
        let action = engine.pending();
        (engine, action)
    }
}

} // verus!
