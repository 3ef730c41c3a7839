//! The division store: which thread belongs to which division, and which
//! publication marker was last seen for it.
//!
//! [`StoreRows`] is the store as a pair of row sequences, with the operations
//! as functions on it. [`DivisionStore`] keeps the rows in memory and is
//! proved to do what those functions say; a store over a database is held to
//! the same functions by its caller.

use crate::errors::StoreError;
use crate::model::{Division, DivisionUpdate, NewDivision, NewDivisionUpdate, UpdateView};
use vstd::prelude::*;

verus! {

/// The rows of the two relations, oldest first.
pub struct StoreRows {
    pub divisions: Seq<Division>,
    pub updates: Seq<UpdateView>,
}

impl StoreRows {
    /// The store without rows.
    pub open spec fn empty() -> StoreRows {
        StoreRows { divisions: Seq::empty(), updates: Seq::empty() }
    }

    /// Some row of `divisions` belongs to `division_id`.
    pub open spec fn tracks(self, division_id: i32) -> bool {
        exists|i: int|
            0 <= i < self.divisions.len() && (#[trigger] self.divisions[i]).division_id
                == division_id
    }

    /// Some row of `division_updates` belongs to `division_id`.
    pub open spec fn has_marker(self, division_id: i32) -> bool {
        exists|i: int|
            0 <= i < self.updates.len() && (#[trigger] self.updates[i]).division_id == division_id
    }

    /// The invariant of the store.
    ///
    /// Rows are numbered from 1 in the order in which they were written, no
    /// division has two rows in either relation, and every marker belongs to
    /// a tracked division.
    pub open spec fn wf(self) -> bool {
        &&& self.divisions.len() <= i32::MAX
        &&& self.updates.len() <= i32::MAX
        &&& forall|i: int|
            0 <= i < self.divisions.len() ==> (#[trigger] self.divisions[i]).id == i + 1
        &&& forall|i: int, j: int|
            0 <= i < j < self.divisions.len() ==> (#[trigger] self.divisions[i]).division_id != (
            #[trigger] self.divisions[j]).division_id
        &&& forall|i: int| 0 <= i < self.updates.len() ==> (#[trigger] self.updates[i]).id == i + 1
        &&& forall|i: int, j: int|
            0 <= i < j < self.updates.len() ==> (#[trigger] self.updates[i]).division_id != (
            #[trigger] self.updates[j]).division_id
        &&& forall|i: int|
            0 <= i < self.updates.len() ==> self.tracks((#[trigger] self.updates[i]).division_id)
    }

    /// The position of the row of `division_id` in `divisions`.
    pub open spec fn slot(self, division_id: i32) -> int {
        choose|i: int|
            0 <= i < self.divisions.len() && (#[trigger] self.divisions[i]).division_id
                == division_id
    }

    /// The position of the row of `division_id` in `division_updates`.
    pub open spec fn marker_slot(self, division_id: i32) -> int {
        choose|i: int|
            0 <= i < self.updates.len() && (#[trigger] self.updates[i]).division_id == division_id
    }

    /// The mapping of `division_id`, if it has one.
    pub open spec fn find(self, division_id: i32) -> Option<Division> {
        if self.tracks(division_id) {
            Some(self.divisions[self.slot(division_id)])
        } else {
            None
        }
    }

    /// The marker that was last recorded for `division_id`, if any was.
    pub open spec fn marker(self, division_id: i32) -> Option<Seq<char>> {
        if self.has_marker(division_id) {
            Some(self.updates[self.marker_slot(division_id)].publication_updated)
        } else {
            None
        }
    }

    /// `divisions` cannot take another row: the next `id` would not fit.
    pub open spec fn full(self) -> bool {
        self.divisions.len() >= i32::MAX
    }

    /// `division_updates` cannot take another row.
    pub open spec fn markers_full(self) -> bool {
        self.updates.len() >= i32::MAX
    }

    /// The row that `create` writes for `new`.
    pub open spec fn next_row(self, new: NewDivision) -> Division {
        new.spec_with_id((self.divisions.len() + 1) as i32)
    }

    /// What creating a mapping does: the store afterwards and the answer.
    ///
    /// A division that is tracked already is refused with
    /// `DuplicateMapping` and the store is left as it was.
    pub open spec fn create(self, new: NewDivision) -> (StoreRows, Result<Division, StoreError>) {
        if self.tracks(new.division_id) {
            (self, Err(StoreError::DuplicateMapping))
        } else if self.full() {
            (self, Err(StoreError::Unavailable))
        } else {
            (
                StoreRows { divisions: self.divisions.push(self.next_row(new)), ..self },
                Ok(self.next_row(new)),
            )
        }
    }

    /// What recording a marker does: the store afterwards and the answer.
    ///
    /// The row of the division is overwritten if there is one, and written
    /// otherwise. A marker for a division without a mapping is refused, as
    /// is a row for which no `id` is left, and the store stays as it was.
    pub open spec fn record(self, division_id: i32, marker: Seq<char>) -> (
        StoreRows,
        Result<(), StoreError>,
    ) {
        if !self.tracks(division_id) {
            (self, Err(StoreError::Unavailable))
        } else if self.has_marker(division_id) {
            let k = self.marker_slot(division_id);
            let row = UpdateView { publication_updated: marker, ..self.updates[k] };
            (StoreRows { updates: self.updates.update(k, row), ..self }, Ok(()))
        } else if self.markers_full() {
            (self, Err(StoreError::Unavailable))
        } else {
            let row = UpdateView {
                id: (self.updates.len() + 1) as i32,
                division_id,
                publication_updated: marker,
            };
            (StoreRows { updates: self.updates.push(row), ..self }, Ok(()))
        }
    }

    /// In a well-formed store the row at position `i` is the one that
    /// `find` returns for its division.
    pub proof fn lemma_find_at(self, i: int)
        requires
            self.wf(),
            0 <= i < self.divisions.len(),
        ensures
            self.tracks(self.divisions[i].division_id),
            self.slot(self.divisions[i].division_id) == i,
            self.find(self.divisions[i].division_id) == Some(self.divisions[i]),
    {
        let d = self.divisions[i].division_id;
        let k = self.slot(d);
        if k < i {
            assert(self.divisions[k].division_id != self.divisions[i].division_id);
        } else if i < k {
            assert(self.divisions[i].division_id != self.divisions[k].division_id);
        }
    }

    /// In a well-formed store the marker at position `i` is the one that
    /// `marker` returns for its division.
    pub proof fn lemma_marker_at(self, i: int)
        requires
            self.wf(),
            0 <= i < self.updates.len(),
        ensures
            self.has_marker(self.updates[i].division_id),
            self.marker_slot(self.updates[i].division_id) == i,
            self.marker(self.updates[i].division_id) == Some(self.updates[i].publication_updated),
    {
        let d = self.updates[i].division_id;
        let k = self.marker_slot(d);
        if k < i {
            assert(self.updates[k].division_id != self.updates[i].division_id);
        } else if i < k {
            assert(self.updates[i].division_id != self.updates[k].division_id);
        }
    }

    /// Creating a mapping keeps the invariant, keeps every row that was
    /// there, and leaves the division tracked unless the store is full.
    pub proof fn lemma_create(self, new: NewDivision)
        requires
            self.wf(),
        ensures
            self.create(new).0.wf(),
            self.create(new).0.updates == self.updates,
            self.divisions.is_prefix_of(self.create(new).0.divisions),
            forall|d: i32| self.tracks(d) ==> #[trigger] self.create(new).0.tracks(d),
            forall|d: i32|
                d != new.division_id ==> (#[trigger] self.create(new).0.tracks(d) <==> self.tracks(
                    d,
                )),
            forall|d: i32| #[trigger] self.create(new).0.find(d) == (if self.tracks(d) {
                self.find(d)
            } else if d == new.division_id && self.create(new).1 is Ok {
                Some(self.next_row(new))
            } else {
                None
            }),
            self.create(new).1 is Ok ==> self.create(new).0.tracks(new.division_id),
            self.create(new).1 is Ok <==> !self.tracks(new.division_id) && !self.full(),
    {
        let after = self.create(new).0;
        if self.create(new).1 is Ok {
            let n = self.divisions.len() as int;
            assert(after.divisions[n].division_id == new.division_id);
            assert forall|d: i32| self.tracks(d) implies #[trigger] after.tracks(d) by {
                let i = self.slot(d);
                assert(after.divisions[i].division_id == d);
            }
            assert forall|i: int| 0 <= i < after.updates.len() implies after.tracks(
                (#[trigger] after.updates[i]).division_id,
            ) by {
                assert(self.tracks(self.updates[i].division_id));
            }
            assert forall|i: int, j: int| 0 <= i < j < after.divisions.len() implies (
            #[trigger] after.divisions[i]).division_id != (
            #[trigger] after.divisions[j]).division_id by {
                if j == n {
                    assert(self.divisions[i].division_id != new.division_id);
                } else {
                    assert(self.divisions[i].division_id != self.divisions[j].division_id);
                }
            }
            assert(after.wf());
            assert forall|d: i32| d != new.division_id && #[trigger] after.tracks(d) implies self.tracks(
                d,
            ) by {
                let i = after.slot(d);
                assert(self.divisions[i].division_id == d);
            }
            assert forall|d: i32| #[trigger] after.find(d) == (if self.tracks(d) {
                self.find(d)
            } else if d == new.division_id {
                Some(self.next_row(new))
            } else {
                None
            }) by {
                if self.tracks(d) {
                    let i = self.slot(d);
                    assert(after.divisions[i] == self.divisions[i]);
                    after.lemma_find_at(i);
                } else if d == new.division_id {
                    after.lemma_find_at(n);
                }
            }
        }
    }

    /// Recording a marker keeps the invariant and the mappings, and the
    /// marker of the division is then the one that was recorded; the markers
    /// of the other divisions stay as they were.
    pub proof fn lemma_record(self, division_id: i32, marker: Seq<char>)
        requires
            self.wf(),
        ensures
            self.record(division_id, marker).0.wf(),
            self.record(division_id, marker).0.divisions == self.divisions,
            self.record(division_id, marker).0.updates.len() <= self.updates.len() + 1,
            self.record(division_id, marker).1 is Ok ==> self.record(division_id, marker).0.marker(
                division_id,
            ) == Some(marker),
            self.record(division_id, marker).1 is Ok <==> self.tracks(division_id) && (
            self.has_marker(division_id) || !self.markers_full()),
            forall|d: i32|
                d != division_id ==> #[trigger] self.record(division_id, marker).0.marker(d)
                    == self.marker(d),
    {
        let after = self.record(division_id, marker).0;
        if self.record(division_id, marker).1 is Ok {
            let k = if self.has_marker(division_id) {
                self.marker_slot(division_id)
            } else {
                self.updates.len() as int
            };
            assert(after.updates[k].division_id == division_id);
            assert(after.updates[k].publication_updated == marker);
            assert forall|i: int| 0 <= i < after.updates.len() implies (
            #[trigger] after.updates[i]).division_id == (if i == k {
                division_id
            } else {
                self.updates[i].division_id
            }) by {}
            assert forall|i: int, j: int| 0 <= i < j < after.updates.len() implies (
            #[trigger] after.updates[i]).division_id != (
            #[trigger] after.updates[j]).division_id by {
                if self.has_marker(division_id) {
                    assert(self.updates[i].division_id != self.updates[j].division_id);
                } else if j == k {
                    assert(self.updates[i].division_id != division_id);
                } else {
                    assert(self.updates[i].division_id != self.updates[j].division_id);
                }
            }
            assert forall|i: int| 0 <= i < after.updates.len() implies after.tracks(
                (#[trigger] after.updates[i]).division_id,
            ) by {
                let d = after.updates[i].division_id;
                if i != k {
                    assert(self.updates[i].division_id == d);
                    assert(self.tracks(self.updates[i].division_id));
                }
                assert(self.tracks(d));
                let w = self.slot(d);
                assert(after.divisions[w].division_id == d);
            }
            assert(after.wf());
            after.lemma_marker_at(k);
            assert forall|d: i32| d != division_id implies #[trigger] after.marker(d)
                == self.marker(d) by {
                if self.has_marker(d) {
                    let i = self.marker_slot(d);
                    assert(after.updates[i] == self.updates[i]);
                    after.lemma_marker_at(i);
                } else if after.has_marker(d) {
                    let i = after.marker_slot(d);
                    assert(self.updates[i].division_id == d);
                }
            }
        }
    }
}

/// The views of a sequence of marker rows, in order.
pub open spec fn update_views(rows: Seq<DivisionUpdate>) -> Seq<UpdateView> {
    Seq::new(rows.len(), |i: int| rows[i]@)
}

/// A division store that keeps its rows in memory.
pub struct DivisionStore {
    divisions: Vec<Division>,
    updates: Vec<DivisionUpdate>,
}

impl View for DivisionStore {
    type V = StoreRows;

    closed spec fn view(&self) -> StoreRows {
        StoreRows { divisions: self.divisions@, updates: update_views(self.updates@) }
    }
}

impl DivisionStore {
    /// A store without rows.
    pub fn new() -> (store: DivisionStore)
        ensures
            store@ == StoreRows::empty(),
            store@.wf(),
    {
        let store = DivisionStore { divisions: Vec::new(), updates: Vec::new() };
        assert(store@.updates =~= Seq::empty());
        assert(store@.divisions =~= Seq::empty());
        store
    }

    /// The number of mappings.
    pub fn len(&self) -> (n: usize)
        ensures
            n == self@.divisions.len(),
    {
        self.divisions.len()
    }

    /// The mappings, oldest first.
    pub fn mappings(&self) -> (rows: Vec<Division>)
        ensures
            rows@ == self@.divisions,
    {
        let mut rows: Vec<Division> = Vec::new();
        let mut i: usize = 0;
        while i < self.divisions.len()
            invariant
                i <= self.divisions.len(),
                rows@ == self.divisions@.take(i as int),
            decreases self.divisions.len() - i,
        {
            rows.push(self.divisions[i]);
            assert(self.divisions@.take(i + 1) =~= self.divisions@.take(i as int).push(
                self.divisions[i as int],
            ));
            i = i + 1;
        }
        assert(self.divisions@.take(i as int) =~= self.divisions@);
        rows
    }

    /// The number of recorded markers.
    pub fn marker_count(&self) -> (n: usize)
        ensures
            n == self@.updates.len(),
    {
        self.updates.len()
    }

    fn position(&self, division_id: i32) -> (found: Option<usize>)
        ensures
            match found {
                Some(i) => i < self@.divisions.len() && self@.divisions[i as int].division_id
                    == division_id,
                None => !self@.tracks(division_id),
            },
    {
        let mut i: usize = 0;
        while i < self.divisions.len()
            invariant
                i <= self.divisions.len(),
                forall|k: int| 0 <= k < i ==> self.divisions[k].division_id != division_id,
            decreases self.divisions.len() - i,
        {
            if self.divisions[i].division_id == division_id {
                return Some(i);
            }
            i = i + 1;
        }
        None
    }

    fn marker_position(&self, division_id: i32) -> (found: Option<usize>)
        ensures
            match found {
                Some(i) => i < self@.updates.len() && self@.updates[i as int].division_id
                    == division_id,
                None => !self@.has_marker(division_id),
            },
    {
        let mut i: usize = 0;
        while i < self.updates.len()
            invariant
                i <= self.updates.len(),
                forall|k: int| 0 <= k < i ==> self.updates[k].division_id != division_id,
            decreases self.updates.len() - i,
        {
            if self.updates[i].division_id == division_id {
                return Some(i);
            }
            i = i + 1;
        }
        assert forall|k: int| 0 <= k < self@.updates.len() implies (
        #[trigger] self@.updates[k]).division_id != division_id by {
            assert(self.updates[k].division_id != division_id);
        }
        None
    }

    /// Looks up the mapping of a division.
    pub fn find_mapping(&self, division_id: i32) -> (found: Option<Division>)
        requires
            self@.wf(),
        ensures
            found == self@.find(division_id),
    {
        match self.position(division_id) {
            Some(i) => {
                proof {
                    self@.lemma_find_at(i as int);
                }
                Some(self.divisions[i])
            },
            None => None,
        }
    }

    /// Writes the row of a new mapping.
    ///
    /// Fails with `DuplicateMapping`, and changes nothing, if the division
    /// has a mapping already; fails with `Unavailable` if no further `id`
    /// can be assigned.
    pub fn insert(&mut self, new: NewDivision) -> (written: Result<Division, StoreError>)
        requires
            old(self)@.wf(),
        ensures
            final(self)@.wf(),
            (final(self)@, written) == old(self)@.create(new),
    {
        proof {
            self@.lemma_create(new);
        }
        if self.position(new.division_id).is_some() {
            return Err(StoreError::DuplicateMapping);
        }
        let n = self.divisions.len();
        if n >= 0x7fff_ffff {
            return Err(StoreError::Unavailable);
        }
        let row = new.with_id((n + 1) as i32);
        self.divisions.push(row);
        Ok(row)
    }

    /// Creates the mapping from a division to its thread.
    pub fn create_mapping(&mut self, division_id: i32, thread_id: i64) -> (written: Result<
        Division,
        StoreError,
    >)
        requires
            old(self)@.wf(),
        ensures
            final(self)@.wf(),
            (final(self)@, written) == old(self)@.create(
                (NewDivision { division_id, discord_thread_id: thread_id }),
            ),
    {
        self.insert(NewDivision { division_id, discord_thread_id: thread_id })
    }

    /// The marker that was last recorded for a division.
    pub fn last_seen(&self, division_id: i32) -> (seen: Option<String>)
        requires
            self@.wf(),
        ensures
            match seen {
                Some(marker) => self@.marker(division_id) == Some(marker@),
                None => self@.marker(division_id) is None,
            },
    {
        match self.marker_position(division_id) {
            Some(i) => {
                proof {
                    self@.lemma_marker_at(i as int);
                }
                Some(self.updates[i].publication_updated.clone())
            },
            None => None,
        }
    }

    /// Writes or overwrites the marker row of a division.
    ///
    /// Fails with `Unavailable`, and changes nothing, if the division has no
    /// mapping or no further `id` can be assigned.
    pub fn upsert(&mut self, new: NewDivisionUpdate<'_>) -> (written: Result<(), StoreError>)
        requires
            old(self)@.wf(),
        ensures
            final(self)@.wf(),
            (final(self)@, written) == old(self)@.record(
                new.division_id,
                new.publication_updated@,
            ),
    {
        proof {
            self@.lemma_record(new.division_id, new.publication_updated@);
        }
        let ghost before = self@;
        let ghost after = before.record(new.division_id, new.publication_updated@).0;
        if self.position(new.division_id).is_none() {
            return Err(StoreError::Unavailable);
        }
        match self.marker_position(new.division_id) {
            Some(i) => {
                proof {
                    before.lemma_marker_at(i as int);
                }
                let row = new.with_id(self.updates[i].id);
                proof {
                    assert(update_views(self.updates@.update(i as int, row)) =~= after.updates);
                }
                self.updates.set(i, row);
                Ok(())
            },
            None => {
                let n = self.updates.len();
                if n >= 0x7fff_ffff {
                    return Err(StoreError::Unavailable);
                }
                let row = new.with_id((n + 1) as i32);
                proof {
                    assert(update_views(self.updates@.push(row)) =~= after.updates);
                }
                self.updates.push(row);
                Ok(())
            },
        }
    }

    /// Records the marker that was seen for a tracked division.
    pub fn record_update_seen(&mut self, division_id: i32, publication_updated: &str) -> (written:
        Result<(), StoreError>)
        requires
            old(self)@.wf(),
        ensures
            final(self)@.wf(),
            (final(self)@, written) == old(self)@.record(division_id, publication_updated@),
    {
        self.upsert(NewDivisionUpdate { division_id, publication_updated })
    }
}

} // verus!
