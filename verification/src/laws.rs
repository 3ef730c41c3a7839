//! What holds of every pass.
//!
//! The laws on worlds speak of [`WorldView::reconcile`] and
//! [`WorldView::pass`], which [`World::run_pass`](crate::pass::World::run_pass)
//! is proved to compute; the laws on the engine speak of
//! [`EngineView::step`], which [`Engine::step`](crate::engine::Engine::step)
//! is proved to compute, whatever the services behind it are.

use crate::engine::{ActionView, EngineView, EventView, Outcome, PassEnd, PhaseView};
use crate::errors::{Failure, PlatformError, SourceError, StoreError};
use crate::model::{Division, NewDivision, RecordView};
use crate::pass::WorldView;
use crate::platform::{
    spec_platform_thread_id, spec_stored_thread_id, spec_update_content, PostView,
};
use crate::source::{lemma_listed_has_detail, spec_detail};
use crate::store::StoreRows;
use vstd::prelude::*;

verus! {

/// `after` begins with `before`, item for item.
pub open spec fn extends<T>(before: Seq<T>, after: Seq<T>) -> bool {
    &&& before.len() <= after.len()
    &&& forall|i: int| 0 <= i < before.len() ==> #[trigger] after[i] == before[i]
}

/// No two records of the listing belong to one division.
pub open spec fn distinct_divisions(listing: Seq<RecordView>) -> bool {
    forall|i: int, j: int|
        0 <= i < j < listing.len() ==> (#[trigger] listing[i]).division_id != (
        #[trigger] listing[j]).division_id
}

/// Every division of the listing has a mapping, and the marker that was
/// last recorded for it is the marker of its detail.
pub open spec fn settled(world: WorldView) -> bool {
    forall|i: int|
        0 <= i < world.source.len() ==> {
            let id = (#[trigger] world.source[i]).division_id;
            &&& world.store.tracks(id)
            &&& spec_detail(world.source, id) is Ok
            &&& world.store.marker(id) == Some(
                spec_detail(world.source, id)->Ok_0.publication_updated,
            )
        }
}

/// No division of the listing ends a pass over `world` as failed.
pub open spec fn unfailed(world: WorldView) -> bool {
    forall|i: int|
        0 <= i < world.source.len() ==> !(#[trigger] world.outcome_at(i as nat) is Failed)
}

/// Every mapping names a thread that is on the board.
pub open spec fn threads_exist(world: WorldView) -> bool {
    forall|i: int|
        0 <= i < world.store.divisions.len() ==> world.board.has_thread(
            spec_platform_thread_id((#[trigger] world.store.divisions[i]).discord_thread_id),
        )
}

/// The mapping that the processing of `division_id` writes if there is
/// none.
pub open spec fn new_mapping(world: WorldView, division_id: i32) -> NewDivision {
    NewDivision {
        division_id,
        discord_thread_id: spec_stored_thread_id(
            world.board.open(spec_detail(world.source, division_id)->Ok_0.title).1,
        ),
    }
}

/// Processing a division keeps the invariant of the store and the listing.
/// It deletes and changes nothing: the mappings, the threads and the posts
/// that were there are there afterwards, in their places, so the thread of
/// a division is written once and for all.
pub proof fn law_nothing_is_taken_back(world: WorldView, division_id: i32)
    requires
        world.store.wf(),
    ensures
        world.reconcile(division_id).0.store.wf(),
        world.reconcile(division_id).0.source == world.source,
        extends(world.store.divisions, world.reconcile(division_id).0.store.divisions),
        extends(world.board.titles, world.reconcile(division_id).0.board.titles),
        extends(world.board.posts, world.reconcile(division_id).0.board.posts),
        forall|d: i32|
            world.store.tracks(d) ==> #[trigger] world.reconcile(division_id).0.store.tracks(d),
{
    let marker = spec_detail(world.source, division_id)->Ok_0.publication_updated;
    let new = new_mapping(world, division_id);
    world.store.lemma_create(new);
    world.store.lemma_record(division_id, marker);
    world.store.create(new).0.lemma_record(division_id, marker);
    let after = world.reconcile(division_id).0;
    assert forall|d: i32| world.store.tracks(d) implies #[trigger] after.store.tracks(d) by {
        assert(world.store.create(new).0.tracks(d));
    }
}

/// The same of any number of divisions of a pass.
pub proof fn law_a_pass_takes_nothing_back(world: WorldView, n: nat)
    requires
        world.store.wf(),
    ensures
        world.after(n).store.wf(),
        world.after(n).source == world.source,
        extends(world.store.divisions, world.after(n).store.divisions),
        extends(world.board.titles, world.after(n).board.titles),
        extends(world.board.posts, world.after(n).board.posts),
        forall|d: i32| world.store.tracks(d) ==> #[trigger] world.after(n).store.tracks(d),
    decreases n,
{
    if n > 0 {
        let before = world.after((n - 1) as nat);
        law_a_pass_takes_nothing_back(world, (n - 1) as nat);
        law_nothing_is_taken_back(before, world.source[n - 1].division_id);
    }
}

/// After its first `n` divisions have been processed they all have a
/// mapping, if the store had room for `n` rows more.
proof fn lemma_processed_are_tracked(world: WorldView, n: nat)
    requires
        world.store.wf(),
        n <= world.source.len(),
        world.store.divisions.len() + n <= i32::MAX,
    ensures
        world.after(n).store.wf(),
        world.after(n).source == world.source,
        world.after(n).store.divisions.len() <= world.store.divisions.len() + n,
        world.after(n).store.updates.len() <= world.store.updates.len() + n,
        forall|i: int|
            0 <= i < n ==> world.after(n).store.tracks((#[trigger] world.source[i]).division_id),
    decreases n,
{
    if n > 0 {
        let before = world.after((n - 1) as nat);
        let id = world.source[n - 1].division_id;
        lemma_processed_are_tracked(world, (n - 1) as nat);
        law_nothing_is_taken_back(before, id);
        lemma_listed_has_detail(world.source, n - 1);
        let marker = spec_detail(world.source, id)->Ok_0.publication_updated;
        let new = new_mapping(before, id);
        before.store.lemma_create(new);
        before.store.lemma_record(id, marker);
        before.store.create(new).0.lemma_record(id, marker);
        assert(world.after(n).store.tracks(id));
        assert forall|i: int| 0 <= i < n implies world.after(n).store.tracks(
            (#[trigger] world.source[i]).division_id,
        ) by {
            if i < n - 1 {
                assert(before.store.tracks(world.source[i].division_id));
            }
        }
    }
}

/// Where the first `n` divisions of the listing have a mapping, processing
/// them opens no thread and writes no mapping.
proof fn lemma_tracked_open_nothing(world: WorldView, n: nat)
    requires
        world.store.wf(),
        n <= world.source.len(),
        forall|i: int| 0 <= i < n ==> world.store.tracks((#[trigger] world.source[i]).division_id),
    ensures
        world.after(n).store.wf(),
        world.after(n).source == world.source,
        world.after(n).board.titles == world.board.titles,
        world.after(n).store.divisions == world.store.divisions,
    decreases n,
{
    if n > 0 {
        let before = world.after((n - 1) as nat);
        let id = world.source[n - 1].division_id;
        lemma_tracked_open_nothing(world, (n - 1) as nat);
        law_nothing_is_taken_back(before, id);
        assert(world.store.tracks(id));
        assert(before.store.tracks(id));
        if spec_detail(world.source, id) is Ok {
            before.store.lemma_record(id, spec_detail(world.source, id)->Ok_0.publication_updated);
        }
    }
}

/// Processing divisions keeps every mapping with a thread on the board, as
/// long as the board has room.
proof fn lemma_threads_stay(world: WorldView, n: nat)
    requires
        world.store.wf(),
        threads_exist(world),
        n <= world.source.len(),
        world.board.titles.len() + n <= u64::MAX,
    ensures
        threads_exist(world.after(n)),
        world.after(n).board.titles.len() <= world.board.titles.len() + n,
    decreases n,
{
    if n > 0 {
        let before = world.after((n - 1) as nat);
        let id = world.source[n - 1].division_id;
        let now = world.after(n);
        lemma_threads_stay(world, (n - 1) as nat);
        law_a_pass_takes_nothing_back(world, (n - 1) as nat);
        law_nothing_is_taken_back(before, id);
        let marker = spec_detail(before.source, id)->Ok_0.publication_updated;
        let new = new_mapping(before, id);
        before.store.lemma_create(new);
        before.store.lemma_record(id, marker);
        before.store.create(new).0.lemma_record(id, marker);
        assert forall|i: int| 0 <= i < now.store.divisions.len() implies now.board.has_thread(
            spec_platform_thread_id((#[trigger] now.store.divisions[i]).discord_thread_id),
        ) by {
            if i < before.store.divisions.len() {
                assert(now.store.divisions[i] == before.store.divisions[i]);
            }
        }
    }
}

/// A pass does not fail where there is room: if every mapping names a
/// thread on the board, and the store and the board can take one row and
/// one thread more for every division of the listing, no division ends as
/// failed.
pub proof fn law_pass_with_room_does_not_fail(world: WorldView)
    requires
        world.store.wf(),
        threads_exist(world),
        world.store.divisions.len() + world.source.len() <= i32::MAX,
        world.store.updates.len() + world.source.len() <= i32::MAX,
        world.board.titles.len() + world.source.len() <= u64::MAX,
    ensures
        unfailed(world),
{
    assert forall|i: int| 0 <= i < world.source.len() implies !(#[trigger] world.outcome_at(
        i as nat,
    ) is Failed) by {
        let before = world.after(i as nat);
        let id = world.source[i].division_id;
        lemma_threads_stay(world, i as nat);
        lemma_processed_are_tracked(world, i as nat);
        lemma_listed_has_detail(world.source, i);
        let marker = spec_detail(world.source, id)->Ok_0.publication_updated;
        let new = new_mapping(before, id);
        before.store.lemma_create(new);
        before.store.lemma_record(id, marker);
        before.store.create(new).0.lemma_record(id, marker);
        if before.store.tracks(id) {
            let k = before.store.slot(id);
            assert(before.board.has_thread(
                spec_platform_thread_id(before.store.divisions[k].discord_thread_id),
            ));
        } else {
            if before.store.has_marker(id) {
                let k = before.store.marker_slot(id);
                assert(before.store.tracks(before.store.updates[k].division_id));
            }
        }
    }
}

/// After the first `n` divisions have been processed without a failure,
/// each of them has a mapping and the marker of its detail.
proof fn lemma_unfailed_get_settled(world: WorldView, n: nat)
    requires
        world.store.wf(),
        n <= world.source.len(),
        forall|i: int| 0 <= i < n ==> !(#[trigger] world.outcome_at(i as nat) is Failed),
    ensures
        world.after(n).store.wf(),
        world.after(n).source == world.source,
        forall|i: int|
            0 <= i < n ==> {
                let id = (#[trigger] world.source[i]).division_id;
                &&& world.after(n).store.tracks(id)
                &&& spec_detail(world.source, id) is Ok
                &&& world.after(n).store.marker(id) == Some(
                    spec_detail(world.source, id)->Ok_0.publication_updated,
                )
            },
    decreases n,
{
    if n > 0 {
        let before = world.after((n - 1) as nat);
        let id = world.source[n - 1].division_id;
        let now = world.after(n);
        lemma_unfailed_get_settled(world, (n - 1) as nat);
        law_nothing_is_taken_back(before, id);
        lemma_listed_has_detail(world.source, n - 1);
        let marker = spec_detail(world.source, id)->Ok_0.publication_updated;
        let new = new_mapping(before, id);
        let created = before.store.create(new).0;
        before.store.lemma_create(new);
        before.store.lemma_record(id, marker);
        created.lemma_record(id, marker);
        assert(!(world.outcome_at((n - 1) as nat) is Failed));
        assert(now.store.tracks(id));
        assert(now.store.marker(id) == Some(marker));
        assert forall|i: int| 0 <= i < n implies {
            let d = (#[trigger] world.source[i]).division_id;
            &&& now.store.tracks(d)
            &&& spec_detail(world.source, d) is Ok
            &&& now.store.marker(d) == Some(spec_detail(world.source, d)->Ok_0.publication_updated)
        } by {
            let d = world.source[i].division_id;
            lemma_listed_has_detail(world.source, i);
            if d != id {
                assert(before.store.tracks(d));
                assert(created.marker(d) == before.store.marker(d)) by {
                    assert(created.updates == before.store.updates);
                }
                assert(now.store.marker(d) == before.store.marker(d));
            }
        }
    }
}

proof fn lemma_settled_stays(world: WorldView, n: nat)
    requires
        settled(world),
        n <= world.source.len(),
    ensures
        world.after(n) == world,
        forall|i: int| 0 <= i < n ==> #[trigger] world.outcome_at(i as nat) == Outcome::Unchanged,
    decreases n,
{
    if n > 0 {
        lemma_settled_stays(world, (n - 1) as nat);
        let id = world.source[n - 1].division_id;
        assert(world.store.tracks(id));
        assert(world.reconcile(id) == (world, Outcome::Unchanged));
        assert forall|i: int| 0 <= i < n implies #[trigger] world.outcome_at(i as nat)
            == Outcome::Unchanged by {
            if i == n - 1 {
                assert(world.after(i as nat) == world);
            }
        }
    }
}

/// A pass over a settled world changes nothing at all, and every division
/// ends as `Unchanged`.
pub proof fn law_settled_pass_changes_nothing(world: WorldView)
    requires
        settled(world),
    ensures
        world.pass() == world,
        forall|i: int|
            0 <= i < world.source.len() ==> #[trigger] world.outcome_at(i as nat)
                == Outcome::Unchanged,
{
    lemma_settled_stays(world, world.source.len());
}

/// Idempotence: after a pass in which no division failed, the next pass
/// over the same listing changes nothing. It opens no thread, posts
/// nothing, writes no row in either relation, and ends every division as
/// `Unchanged`: a division that was created in the first pass has the
/// marker of its detail on record, like one that was updated.
pub proof fn law_second_pass_changes_nothing(world: WorldView)
    requires
        world.store.wf(),
        unfailed(world),
    ensures
        settled(world.pass()),
        world.pass().pass() == world.pass(),
        forall|i: int|
            0 <= i < world.source.len() ==> #[trigger] world.pass().outcome_at(i as nat)
                == Outcome::Unchanged,
{
    lemma_unfailed_get_settled(world, world.source.len());
    law_settled_pass_changes_nothing(world.pass());
}

/// Idempotence, where some division failed: even then a second pass over
/// the same listing opens no thread and writes no mapping, if the store had
/// room for the mappings of the first.
pub proof fn law_second_pass_opens_no_thread(world: WorldView)
    requires
        world.store.wf(),
        world.store.divisions.len() + world.source.len() <= i32::MAX,
    ensures
        world.pass().pass().board.titles == world.pass().board.titles,
        world.pass().pass().store.divisions == world.pass().store.divisions,
{
    let once = world.pass();
    lemma_processed_are_tracked(world, world.source.len());
    lemma_tracked_open_nothing(once, world.source.len());
}

proof fn lemma_fresh(world: WorldView, n: nat)
    requires
        world.store.wf(),
        world.store.divisions.len() == 0,
        distinct_divisions(world.source),
        n <= world.source.len(),
        forall|i: int| 0 <= i < n ==> !(#[trigger] world.outcome_at(i as nat) is Failed),
        world.board.titles.len() + world.source.len() <= u64::MAX,
    ensures
        world.after(n).store.wf(),
        world.after(n).source == world.source,
        world.after(n).store.divisions.len() == n,
        world.after(n).board.titles.len() == world.board.titles.len() + n,
        forall|i: int|
            0 <= i < n ==> {
                let row = #[trigger] world.after(n).store.divisions[i];
                &&& row.division_id == world.source[i].division_id
                &&& row.discord_thread_id == spec_stored_thread_id(
                    (world.board.titles.len() + i) as u64,
                )
            },
        forall|i: int|
            0 <= i < n ==> #[trigger] world.outcome_at(i as nat) == (Outcome::Created {
                thread_id: (world.board.titles.len() + i) as u64,
            }),
    decreases n,
{
    if n > 0 {
        let before = world.after((n - 1) as nat);
        let id = world.source[n - 1].division_id;
        lemma_fresh(world, (n - 1) as nat);
        lemma_listed_has_detail(world.source, n - 1);
        if before.store.tracks(id) {
            let k = before.store.slot(id);
            assert(before.store.divisions[k].division_id == world.source[k].division_id);
            assert(world.source[k].division_id != world.source[n - 1].division_id);
        }
        let marker = spec_detail(world.source, id)->Ok_0.publication_updated;
        let new = new_mapping(before, id);
        let created = before.store.create(new).0;
        before.store.lemma_create(new);
        created.lemma_record(id, marker);
        let now = world.after(n);
        assert(!(world.outcome_at((n - 1) as nat) is Failed));
        assert(now.store.divisions == before.store.divisions.push(before.store.next_row(new)));
        assert(world.outcome_at((n - 1) as nat) == (Outcome::Created {
            thread_id: (world.board.titles.len() + n - 1) as u64,
        }));
        assert forall|i: int| 0 <= i < n implies {
            let row = #[trigger] now.store.divisions[i];
            &&& row.division_id == world.source[i].division_id
            &&& row.discord_thread_id == spec_stored_thread_id(
                (world.board.titles.len() + i) as u64,
            )
        } by {
            if i < n - 1 {
                assert(now.store.divisions[i] == before.store.divisions[i]);
            }
        }
    }
}

/// Convergence: after a pass in which no division failed, over a listing of
/// `N` different divisions and begun with a store without mappings, the
/// store holds exactly `N` mappings, one for each division in the order of
/// the listing, and no two of them name the same thread. The board must be
/// able to number `N` threads more.
pub proof fn law_fresh_pass_tracks_every_division(world: WorldView)
    requires
        world.store.wf(),
        world.store.divisions.len() == 0,
        distinct_divisions(world.source),
        unfailed(world),
        world.board.titles.len() + world.source.len() <= u64::MAX,
    ensures
        world.pass().store.divisions.len() == world.source.len(),
        world.pass().board.titles.len() == world.board.titles.len() + world.source.len(),
        forall|i: int|
            0 <= i < world.source.len() ==> (#[trigger] world.pass().store.divisions[i]).division_id
                == world.source[i].division_id,
        forall|i: int, j: int|
            0 <= i < j < world.source.len() ==> (
            #[trigger] world.pass().store.divisions[i]).discord_thread_id != (
            #[trigger] world.pass().store.divisions[j]).discord_thread_id,
        forall|i: int|
            0 <= i < world.source.len() ==> #[trigger] world.outcome_at(i as nat) is Created,
{
    lemma_fresh(world, world.source.len());
}

/// Update-skip: a division that has a mapping, and whose marker is the one
/// that was last recorded, is left alone: nothing is posted and nothing
/// written. After a pass without a failure that is every division whose
/// marker has not moved since, by `law_second_pass_changes_nothing`.
pub proof fn law_same_marker_changes_nothing(world: WorldView, division_id: i32)
    requires
        world.store.tracks(division_id),
        spec_detail(world.source, division_id) is Ok,
        world.store.marker(division_id) == Some(
            spec_detail(world.source, division_id)->Ok_0.publication_updated,
        ),
    ensures
        world.reconcile(division_id) == (world, Outcome::Unchanged),
{
}

/// Update-skip, of the engine: told that the marker last seen is the one of
/// the detail, the engine ends the division as `Unchanged` and asks for no
/// post and no write, but for the mapping of the next division or for
/// nothing more.
pub proof fn law_same_marker_asks_for_no_post(engine: EngineView)
    requires
        engine.wf(),
        engine.phase is Marker,
    ensures
        ({
            let seen = engine.phase->Marker_detail.publication_updated;
            let next = engine.step(EventView::LastSeen(Ok(Some(seen))));
            &&& next == engine.advance(Outcome::Unchanged)
            &&& next.outcomes == engine.outcomes.push(Outcome::Unchanged)
            &&& next.pending() is FindMapping || next.pending() is Finish
        }),
{
}

/// Update-skip, from one pass to the next: a division ends as `Created`
/// only when the marker of its detail has been recorded, and a pass that
/// is then told of that marker, for a detail with the same one, ends the
/// division as `Unchanged` and asks for no post and no write.
pub proof fn law_created_division_is_left_alone(
    first: EngineView,
    row: Division,
    second: EngineView,
)
    requires
        first.wf(),
        first.phase is Insert,
        second.wf(),
        second.phase is Marker,
        second.phase->Marker_detail.publication_updated
            == first.phase->Insert_detail.publication_updated,
    ensures
        ({
            let marker = first.phase->Insert_detail.publication_updated;
            let written = first.step(EventView::MappingCreated(Ok(row)));
            let noted = written.step(EventView::Recorded(Ok(())));
            let next = second.step(EventView::LastSeen(Ok(Some(marker))));
            &&& written.outcomes == first.outcomes
            &&& written.pending() == ActionView::RecordUpdateSeen {
                division_id: first.division_id(),
                publication_updated: marker,
            }
            &&& noted == first.advance(
                Outcome::Created { thread_id: first.phase->Insert_thread_id },
            )
            &&& next == second.advance(Outcome::Unchanged)
            &&& next.pending() is FindMapping || next.pending() is Finish
        }),
{
}

/// Update-fire: a division that has a mapping to a thread on the board, and
/// whose marker is not the one that was last recorded, gets exactly one
/// post, into its thread, and its marker is then the new one; no thread is
/// opened and no mapping written. If no marker was recorded yet, the store
/// must have room for its row.
pub proof fn law_moved_marker_posts_once(world: WorldView, division_id: i32)
    requires
        world.store.wf(),
        world.store.tracks(division_id),
        spec_detail(world.source, division_id) is Ok,
        world.store.marker(division_id) != Some(
            spec_detail(world.source, division_id)->Ok_0.publication_updated,
        ),
        world.store.has_marker(division_id) || !world.store.markers_full(),
        world.board.has_thread(
            spec_platform_thread_id(world.store.find(division_id)->Some_0.discord_thread_id),
        ),
    ensures
        ({
            let detail = spec_detail(world.source, division_id)->Ok_0;
            let thread_id = spec_platform_thread_id(
                world.store.find(division_id)->Some_0.discord_thread_id,
            );
            let done = world.reconcile(division_id);
            &&& done.1 == Outcome::Updated
            &&& done.0.board.posts == world.board.posts.push(
                PostView { thread_id, content: spec_update_content() },
            )
            &&& done.0.board.titles == world.board.titles
            &&& done.0.store.marker(division_id) == Some(detail.publication_updated)
            &&& done.0.store.divisions == world.store.divisions
        }),
{
    let detail = spec_detail(world.source, division_id)->Ok_0;
    world.store.lemma_record(division_id, detail.publication_updated);
}

/// Update-fire, of the engine: told of another marker than the one of the
/// detail, or of none, the engine asks for one post into the thread of the
/// mapping, then for the marker of the detail to be recorded, and then ends
/// the division as `Updated`.
pub proof fn law_moved_marker_asks_for_one_post(engine: EngineView, seen: Option<Seq<char>>)
    requires
        engine.wf(),
        engine.phase is Marker,
        seen != Some(engine.phase->Marker_detail.publication_updated),
    ensures
        ({
            let mapping = engine.phase->Marker_mapping;
            let detail = engine.phase->Marker_detail;
            let asked = engine.step(EventView::LastSeen(Ok(seen)));
            let posted = asked.step(EventView::Posted(Ok(())));
            let recorded = posted.step(EventView::Recorded(Ok(())));
            &&& asked.pending() == ActionView::PostUpdate {
                thread_id: spec_platform_thread_id(mapping.discord_thread_id),
                content: spec_update_content(),
            }
            &&& posted.pending() == ActionView::RecordUpdateSeen {
                division_id: engine.division_id(),
                publication_updated: detail.publication_updated,
            }
            &&& recorded == engine.advance(Outcome::Updated)
        }),
{
}

/// The answer that tells the engine that the platform has refused the call
/// it is waiting for.
pub open spec fn rejection(engine: EngineView) -> EventView {
    if engine.phase is Post {
        EventView::Posted(Err(PlatformError::Rejected))
    } else {
        EventView::ThreadCreated(Err(PlatformError::Rejected))
    }
}

/// Isolation: when the platform refuses the thread or the post of a
/// division, the division ends as failed and the engine takes up the next
/// one as if nothing had happened. If that one has no mapping, the engine
/// asks for its detail, for a thread named after its title, for the mapping
/// to that thread and for the marker of the detail to be recorded, and ends
/// it as `Created`.
pub proof fn law_rejection_does_not_stop_the_pass(
    engine: EngineView,
    detail: RecordView,
    thread_id: u64,
    row: Division,
)
    requires
        engine.wf(),
        engine.phase is Thread || engine.phase is Post,
        engine.cursor + 1 < engine.listing.len(),
    ensures
        ({
            let next_id = engine.listing[(engine.cursor + 1) as int].division_id;
            let failed = engine.step(rejection(engine));
            let absent = failed.step(EventView::Mapping(Ok(None)));
            let fetched = absent.step(EventView::Detail(Ok(detail)));
            let opened = fetched.step(EventView::ThreadCreated(Ok(thread_id)));
            let written = opened.step(EventView::MappingCreated(Ok(row)));
            let noted = written.step(EventView::Recorded(Ok(())));
            &&& failed.outcomes == engine.outcomes.push(
                Outcome::Failed(Failure::Platform(PlatformError::Rejected)),
            )
            &&& failed.pending() == ActionView::FindMapping { division_id: next_id }
            &&& absent.pending() == ActionView::FetchDivision { division_id: next_id }
            &&& fetched.pending() == ActionView::CreateThread { title: detail.title }
            &&& opened.pending() == ActionView::CreateMapping {
                division_id: next_id,
                thread_id: spec_stored_thread_id(thread_id),
            }
            &&& written.pending() == ActionView::RecordUpdateSeen {
                division_id: next_id,
                publication_updated: detail.publication_updated,
            }
            &&& noted.outcomes == failed.outcomes.push(Outcome::Created { thread_id })
        }),
{
}

/// Isolation, of every answer: once the listing is there, nothing but the
/// deadline ends a pass before its last division. Whatever a call returns,
/// the listing and the outcomes so far stay, the engine stays with the
/// division at hand or writes down its outcome and takes up the next, and
/// an answer to the pending call leaves fewer calls to make.
pub proof fn law_no_answer_stops_the_pass(engine: EngineView, event: EventView)
    requires
        engine.wf(),
        engine.phase !is Listing,
        event !is DeadlinePassed,
    ensures
        ({
            let next = engine.step(event);
            &&& next.wf()
            &&& next.listing == engine.listing
            &&& next.cursor == engine.cursor && next.outcomes == engine.outcomes || next.cursor
                == engine.cursor + 1 && next.outcomes.drop_last() == engine.outcomes
            &&& next.phase is Done ==> next.phase == PhaseView::Done(PassEnd::Completed)
                || next.phase == engine.phase
            &&& !engine.expects(event) ==> next == engine
            &&& engine.expects(event) ==> next.rank() < engine.rank()
        }),
{
    let next = engine.step(event);
    if next.cursor == engine.cursor + 1 {
        assert(next.outcomes.drop_last() =~= engine.outcomes);
    }
}

/// A listing that cannot be fetched ends the pass at once: nothing is
/// processed and the engine asks for nothing more.
pub proof fn law_failed_listing_aborts(engine: EngineView, error: SourceError)
    requires
        engine.wf(),
        engine.phase is Listing,
    ensures
        ({
            let next = engine.step(EventView::Listing(Err(error)));
            &&& next.phase == PhaseView::Done(PassEnd::Aborted(error))
            &&& next.pending() == ActionView::Finish(PassEnd::Aborted(error))
            &&& next.outcomes.len() == 0
        }),
{
}

/// The deadline ends a running pass where it stands, with the outcomes it
/// has so far.
pub proof fn law_deadline_ends_the_pass(engine: EngineView)
    requires
        engine.wf(),
        engine.phase !is Done,
    ensures
        ({
            let next = engine.step(EventView::DeadlinePassed);
            &&& next.phase == PhaseView::Done(PassEnd::TimedOut)
            &&& next.pending() == ActionView::Finish(PassEnd::TimedOut)
            &&& next.outcomes == engine.outcomes
            &&& next.wf()
        }),
{
}

/// Duplicate-guard, of the store: of two attempts to create the mapping of
/// one division the first is written and the second refused with
/// `DuplicateMapping`, leaving the store as the first left it, with exactly
/// one row for the division: that of the first.
pub proof fn law_second_create_is_refused(store: StoreRows, first: NewDivision, second: NewDivision)
    requires
        store.wf(),
        first.division_id == second.division_id,
        !store.tracks(first.division_id),
        !store.full(),
    ensures
        ({
            let one = store.create(first);
            let two = one.0.create(second);
            &&& one.1 == Ok::<Division, StoreError>(store.next_row(first))
            &&& two.1 == Err::<Division, StoreError>(StoreError::DuplicateMapping)
            &&& two.0 == one.0
            &&& two.0.wf()
            &&& two.0.find(first.division_id) == Some(store.next_row(first))
            &&& two.0.divisions.len() == store.divisions.len() + 1
            &&& forall|i: int|
                0 <= i < two.0.divisions.len() && (#[trigger] two.0.divisions[i]).division_id
                    == first.division_id ==> i == store.divisions.len()
        }),
{
    store.lemma_create(first);
    let one = store.create(first).0;
    one.lemma_find_at(store.divisions.len() as int);
    assert forall|i: int|
        0 <= i < one.divisions.len() && (#[trigger] one.divisions[i]).division_id
            == first.division_id implies i == store.divisions.len() by {
        if i < store.divisions.len() {
            assert(store.divisions[i].division_id == first.division_id);
        }
    }
}

/// Duplicate-guard, of the engine: `DuplicateMapping` is no failure. The
/// division ends as `Duplicate`, which names the thread that was opened in
/// vain, and the pass goes on.
pub proof fn law_duplicate_mapping_is_no_failure(engine: EngineView)
    requires
        engine.wf(),
        engine.phase is Insert,
    ensures
        ({
            let thread_id = engine.phase->Insert_thread_id;
            let next = engine.step(EventView::MappingCreated(Err(StoreError::DuplicateMapping)));
            &&& next == engine.advance(Outcome::Duplicate { thread_id })
            &&& next.outcomes == engine.outcomes.push(Outcome::Duplicate { thread_id })
            &&& next.pending() is FindMapping || next.pending() is Finish
        }),
{
}

} // verus!
