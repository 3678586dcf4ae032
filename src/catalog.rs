//! The catalog store: media records, unique by id and by library and path.

use vstd::prelude::*;
use crate::models::MediaType;
use crate::text::same_text;

verus! {

/// A catalogued media file. `file_path` is the path at which the scanner
/// found the file; times are seconds since the Unix epoch.
#[derive(Clone, Debug)]
pub struct MediaRecord {
    pub id: u128,
    pub library_id: u128,
    pub title: String,
    pub file_path: String,
    pub media_type: MediaType,
    pub created_at: i64,
    pub updated_at: i64,
}

/// The value of a `MediaRecord`.
pub struct MediaRow {
    pub id: u128,
    pub library_id: u128,
    pub title: Seq<char>,
    pub file_path: Seq<char>,
    pub media_type: MediaType,
    pub created_at: i64,
    pub updated_at: i64,
}

impl View for MediaRecord {
    type V = MediaRow;

    open spec fn view(&self) -> MediaRow {
        MediaRow {
            id: self.id,
            library_id: self.library_id,
            title: self.title@,
            file_path: self.file_path@,
            media_type: self.media_type,
            created_at: self.created_at,
            updated_at: self.updated_at,
        }
    }
}

impl MediaRecord {
    /// A copy of the record.
    pub fn duplicate(&self) -> (r: MediaRecord)
        ensures
            r@ == self@,
    {
        MediaRecord {
            id: self.id,
            library_id: self.library_id,
            title: self.title.clone(),
            file_path: self.file_path.clone(),
            media_type: self.media_type,
            created_at: self.created_at,
            updated_at: self.updated_at,
        }
    }
}

/// Why the store refused a change.
#[derive(Clone, Copy, Debug, PartialEq, Eq, Structural)]
pub enum StoreError {
    /// A record with this id is already catalogued.
    DuplicateId,
    /// The library already has a record for this path.
    DuplicatePath,
}

pub open spec fn has_id(rows: Seq<MediaRow>, id: u128) -> bool {
    exists|i: int| 0 <= i < rows.len() && (#[trigger] rows[i]).id == id
}

pub open spec fn has_path(rows: Seq<MediaRow>, library_id: u128, path: Seq<char>) -> bool {
    exists|i: int|
        0 <= i < rows.len() && (#[trigger] rows[i]).library_id == library_id && rows[i].file_path
            == path
}

/// No two records share an id, nor a library and a path.
pub open spec fn unique_rows(rows: Seq<MediaRow>) -> bool {
    forall|i: int, j: int|
        0 <= i < rows.len() && 0 <= j < rows.len() && i != j ==> {
            &&& (#[trigger] rows[i]).id != (#[trigger] rows[j]).id
            &&& !(rows[i].library_id == rows[j].library_id && rows[i].file_path
                == rows[j].file_path)
        }
}

/// The records of one library, in catalog order.
pub open spec fn rows_of(rows: Seq<MediaRow>, library_id: u128) -> Seq<MediaRow> {
    rows.filter(|r: MediaRow| r.library_id == library_id)
}

/// An in-memory catalog of media records, in the order of insertion.
pub struct Catalog {
    records: Vec<MediaRecord>,
}

impl View for Catalog {
    type V = Seq<MediaRow>;

    closed spec fn view(&self) -> Seq<MediaRow> {
        self.records@.map_values(|r: MediaRecord| r@)
    }
}

impl Catalog {
    pub open spec fn wf(&self) -> bool {
        unique_rows(self@)
    }

    /// An empty catalog.
    pub fn new() -> (r: Catalog)
        ensures
            r@ == Seq::<MediaRow>::empty(),
            r.wf(),
    {
        let r = Catalog { records: Vec::new() };
        assert(r@ =~= Seq::<MediaRow>::empty());
        r
    }

    pub fn len(&self) -> (r: usize)
        ensures
            r == self@.len(),
    {
        self.records.len()
    }

    /// The record at position `i`.
    pub fn get(&self, i: usize) -> (r: &MediaRecord)
        requires
            i < self@.len(),
        ensures
            r@ == self@[i as int],
    {
        &self.records[i]
    }

    /// The position of the record with this id.
    pub fn find_media(&self, id: u128) -> (r: Option<usize>)
        ensures
            match r {
                Some(i) => i < self@.len() && self@[i as int].id == id,
                None => !has_id(self@, id),
            },
    {
        let mut i: usize = 0;
        while i < self.records.len()
            invariant
                i <= self@.len(),
                self@.len() == self.records@.len(),
                forall|k: int| 0 <= k < i ==> (#[trigger] self@[k]).id != id,
            decreases self@.len() - i,
        {
            assert(self@[i as int] == self.records@[i as int]@);
            if self.records[i].id == id {
                return Some(i);
            }
            i = i + 1;
        }
        None
    }

    /// The position of the record of `library_id` at `path`.
    pub fn find_by_path(&self, library_id: u128, path: &str) -> (r: Option<usize>)
        ensures
            match r {
                Some(i) => i < self@.len() && self@[i as int].library_id == library_id
                    && self@[i as int].file_path == path@,
                None => !has_path(self@, library_id, path@),
            },
    {
        let mut i: usize = 0;
        while i < self.records.len()
            invariant
                i <= self@.len(),
                self@.len() == self.records@.len(),
                forall|k: int|
                    0 <= k < i ==> !((#[trigger] self@[k]).library_id == library_id
                        && self@[k].file_path == path@),
            decreases self@.len() - i,
        {
            assert(self@[i as int] == self.records@[i as int]@);
            if self.records[i].library_id == library_id && same_text(
                self.records[i].file_path.as_str(),
                path,
            ) {
                return Some(i);
            }
            i = i + 1;
        }
        None
    }

    /// Adds `record` at the end, unless its id is taken (`DuplicateId`) or
    /// its library already has a record at its path (`DuplicatePath`).
    pub fn insert_media(&mut self, record: MediaRecord) -> (r: Result<(), StoreError>)
        ensures
            has_id(old(self)@, record.id) ==> r == Err::<(), StoreError>(StoreError::DuplicateId),
            !has_id(old(self)@, record.id) && has_path(
                old(self)@,
                record.library_id,
                record.file_path@,
            ) ==> r == Err::<(), StoreError>(StoreError::DuplicatePath),
            r is Ok <==> !has_id(old(self)@, record.id) && !has_path(
                old(self)@,
                record.library_id,
                record.file_path@,
            ),
            r is Ok ==> final(self)@ == old(self)@.push(record@),
            r is Err ==> final(self)@ == old(self)@,
            old(self).wf() ==> final(self).wf(),
    {
        if self.find_media(record.id).is_some() {
            return Err(StoreError::DuplicateId);
        }
        if self.find_by_path(record.library_id, record.file_path.as_str()).is_some() {
            return Err(StoreError::DuplicatePath);
        }
        let ghost rec = record@;
        self.records.push(record);
        assert(self@ =~= old(self)@.push(rec));
        Ok(())
    }

    /// Removes the record with this id, if there is one, and says whether
    /// there was.
    pub fn delete_media(&mut self, id: u128) -> (r: bool)
        requires
            old(self).wf(),
        ensures
            r == has_id(old(self)@, id),
            forall|i: int|
                0 <= i < old(self)@.len() && (#[trigger] old(self)@[i]).id == id ==> final(self)@
                    == old(self)@.remove(i),
            !r ==> final(self)@ == old(self)@,
            final(self).wf(),
    {
        match self.find_media(id) {
            None => false,
            Some(i) => {
                self.records.remove(i);
                assert(self@ =~= old(self)@.remove(i as int));
                true
            },
        }
    }

    /// The records of one library, in catalog order.
    pub fn list_media(&self, library_id: u128) -> (r: Vec<MediaRecord>)
        ensures
            r@.map_values(|m: MediaRecord| m@) == rows_of(self@, library_id),
    {
        let mut r: Vec<MediaRecord> = Vec::new();
        let mut i: usize = 0;
        while i < self.records.len()
            invariant
                i <= self@.len(),
                self@.len() == self.records@.len(),
                r@.map_values(|m: MediaRecord| m@) == rows_of(self@.take(i as int), library_id),
            decreases self@.len() - i,
        {
            let ghost before = r@;
            assert(self@.take(i + 1).drop_last() == self@.take(i as int));
            assert(self@[i as int] == self.records@[i as int]@);
            proof {
                reveal(Seq::filter);
            }
            if self.records[i].library_id == library_id {
                r.push(self.records[i].duplicate());
                assert(r@.map_values(|m: MediaRecord| m@) =~= before.map_values(
                    |m: MediaRecord| m@,
                ).push(self@[i as int]));
            } else {
                assert(r@.map_values(|m: MediaRecord| m@) =~= before.map_values(|m: MediaRecord| m@));
            }
            i = i + 1;
        }
        assert(self@.take(self@.len() as int) == self@);
        r
    }
}

} // verus!
