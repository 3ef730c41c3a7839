//! The rows of the two persisted relations and the record that the remote
//! source hands out.

use vstd::prelude::*;

verus! {

/// A row of `divisions`: the thread that was opened for a division.
///
/// `id` is assigned by the store, `division_id` by the remote source. A
/// division has at most one row, and the row's thread never changes.
#[derive(Clone, Copy, Debug, PartialEq, Eq, Structural)]
pub struct Division {
    pub id: i32,
    pub division_id: i32,
    pub discord_thread_id: i64,
}

/// A row of `divisions` before the store has given it an `id`.
#[derive(Clone, Copy, Debug, PartialEq, Eq, Structural)]
pub struct NewDivision {
    pub division_id: i32,
    pub discord_thread_id: i64,
}

/// A row of `division_updates`: the publication marker that was last seen
/// for a tracked division.
#[derive(Clone, Debug, PartialEq, Eq)]
pub struct DivisionUpdate {
    pub id: i32,
    pub division_id: i32,
    pub publication_updated: String,
}

/// A row of `division_updates` before the store has given it an `id`.
#[derive(Clone, Copy, Debug)]
pub struct NewDivisionUpdate<'a> {
    pub division_id: i32,
    pub publication_updated: &'a str,
}

/// A division as the remote source reports it.
#[derive(Clone, Debug, PartialEq, Eq)]
pub struct DivisionRecord {
    pub division_id: i32,
    pub title: String,
    pub publication_updated: String,
}

/// What a [`DivisionUpdate`] holds, with its text as a sequence.
pub struct UpdateView {
    pub id: i32,
    pub division_id: i32,
    pub publication_updated: Seq<char>,
}

/// What a [`DivisionRecord`] holds, with its texts as sequences.
pub struct RecordView {
    pub division_id: i32,
    pub title: Seq<char>,
    pub publication_updated: Seq<char>,
}

impl View for DivisionUpdate {
    type V = UpdateView;

    open spec fn view(&self) -> UpdateView {
        UpdateView {
            id: self.id,
            division_id: self.division_id,
            publication_updated: self.publication_updated@,
        }
    }
}

impl View for DivisionRecord {
    type V = RecordView;

    open spec fn view(&self) -> RecordView {
        RecordView {
            division_id: self.division_id,
            title: self.title@,
            publication_updated: self.publication_updated@,
        }
    }
}

/// The views of a sequence of records, in order.
pub open spec fn record_views(records: Seq<DivisionRecord>) -> Seq<RecordView> {
    Seq::new(records.len(), |i: int| records[i]@)
}

impl NewDivision {
    /// The row that the store writes when it assigns `id`.
    pub open spec fn spec_with_id(self, id: i32) -> Division {
        Division { id, division_id: self.division_id, discord_thread_id: self.discord_thread_id }
    }

    /// The row that the store writes when it assigns `id`.
    pub fn with_id(self, id: i32) -> (row: Division)
        ensures
            row == self.spec_with_id(id),
    {
        Division { id, division_id: self.division_id, discord_thread_id: self.discord_thread_id }
    }
}

impl<'a> NewDivisionUpdate<'a> {
    /// The row that the store writes when it assigns `id`.
    pub open spec fn spec_with_id(self, id: i32) -> UpdateView {
        UpdateView {
            id,
            division_id: self.division_id,
            publication_updated: self.publication_updated@,
        }
    }

    /// The row that the store writes when it assigns `id`.
    pub fn with_id(self, id: i32) -> (row: DivisionUpdate)
        ensures
            row@ == self.spec_with_id(id),
    {
        DivisionUpdate {
            id,
            division_id: self.division_id,
            publication_updated: self.publication_updated.to_owned(),
        }
    }
}

impl DivisionRecord {
    /// A copy of the record.
    pub fn duplicate(&self) -> (copy: DivisionRecord)
        ensures
            copy@ == self@,
    {
        DivisionRecord {
            division_id: self.division_id,
            title: self.title.clone(),
            publication_updated: self.publication_updated.clone(),
        }
    }
}

/// Copies a listing.
pub fn duplicate_records(records: &Vec<DivisionRecord>) -> (copy: Vec<DivisionRecord>)
    ensures
        record_views(copy@) == record_views(records@),
{
    let mut copy: Vec<DivisionRecord> = Vec::new();
    let mut i: usize = 0;
    while i < records.len()
        invariant
            i <= records.len(),
            copy.len() == i,
            forall|k: int| 0 <= k < i ==> copy[k]@ == records[k]@,
        decreases records.len() - i,
    {
        copy.push(records[i].duplicate());
        i = i + 1;
    }
    assert(record_views(copy@) =~= record_views(records@));
    copy
}

} // verus!
