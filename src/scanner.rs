//! The library synchronizer: reconciles a directory tree with the catalog.
//!
//! The caller walks the tree and checks which catalogued paths still exist;
//! the scanner decides what to delete and what to insert, in two passes: the
//! orphan pass first, then the discovery pass.

use vstd::prelude::*;
use crate::catalog::{Catalog, MediaRecord, MediaRow, StoreError, has_id, has_path};
use crate::errors::SyncError;
use crate::ids::new_id;
use crate::clock::now_seconds;
use crate::metadata::{MediaMetadataExtractor, classify_spec, file_name, file_name_of};
use crate::models::MediaType;
use crate::text::same_text;

verus! {

/// The texts of a sequence of strings.
pub open spec fn texts(v: Seq<String>) -> Seq<Seq<char>> {
    v.map_values(|s: String| s@)
}

/// A record survives the orphan pass: another library owns it, or its
/// file still exists.
pub open spec fn keeps(r: MediaRow, library_id: u128, existing: Seq<Seq<char>>) -> bool {
    r.library_id != library_id || existing.contains(r.file_path)
}

/// The catalog after the orphan pass.
pub open spec fn prune(rows: Seq<MediaRow>, library_id: u128, existing: Seq<Seq<char>>) -> Seq<
    MediaRow,
> {
    rows.filter(|r: MediaRow| keeps(r, library_id, existing))
}

/// The record that the discovery pass creates for a file.
pub open spec fn new_row(
    library_id: u128,
    path: Seq<char>,
    kind: MediaType,
    id: u128,
    now: i64,
) -> MediaRow {
    MediaRow {
        id,
        library_id,
        title: file_name_of(path),
        file_path: path,
        media_type: kind,
        created_at: now,
        updated_at: now,
    }
}

/// One file of the discovery pass: the catalog after it, and whether the
/// store accepted it.
pub open spec fn discover_step(
    rows: Seq<MediaRow>,
    library_id: u128,
    path: Seq<char>,
    id: u128,
    now: i64,
) -> (Seq<MediaRow>, bool) {
    match classify_spec(path) {
        None => (rows, true),
        Some(kind) => if has_path(rows, library_id, path) {
            (rows, true)
        } else if has_id(rows, id) {
            (rows, false)
        } else {
            (rows.push(new_row(library_id, path, kind, id, now)), true)
        },
    }
}

/// The discovery pass over the files `walked`, the file at position `k`
/// under the fresh id `ids[k]`; it stops at the first file that the store
/// refuses.
pub open spec fn discover(
    rows: Seq<MediaRow>,
    library_id: u128,
    walked: Seq<Seq<char>>,
    ids: Seq<u128>,
    now: i64,
) -> (Seq<MediaRow>, bool)
    decreases walked.len(),
{
    if walked.len() == 0 {
        (rows, true)
    } else {
        let (r, ok) = discover(rows, library_id, walked.drop_last(), ids, now);
        if !ok {
            (r, false)
        } else {
            discover_step(r, library_id, walked.last(), ids[walked.len() - 1], now)
        }
    }
}

/// A whole synchronisation: the orphan pass, then the discovery pass.
pub open spec fn sync_spec(
    rows: Seq<MediaRow>,
    library_id: u128,
    existing: Seq<Seq<char>>,
    walked: Seq<Seq<char>>,
    ids: Seq<u128>,
    now: i64,
) -> (Seq<MediaRow>, bool) {
    discover(prune(rows, library_id, existing), library_id, walked, ids, now)
}

proof fn lemma_discover_failed(
    rows: Seq<MediaRow>,
    library_id: u128,
    walked: Seq<Seq<char>>,
    ids: Seq<u128>,
    now: i64,
    m: int,
)
    requires
        0 <= m <= walked.len(),
        !discover(rows, library_id, walked.take(m), ids, now).1,
    ensures
        discover(rows, library_id, walked, ids, now) == discover(
            rows,
            library_id,
            walked.take(m),
            ids,
            now,
        ),
    decreases walked.len(),
{
    if m < walked.len() {
        assert(walked.drop_last().take(m) == walked.take(m));
        lemma_discover_failed(rows, library_id, walked.drop_last(), ids, now, m);
    } else {
        assert(walked.take(m) == walked);
    }
}

proof fn lemma_prune_facts(rows: Seq<MediaRow>, library_id: u128, existing: Seq<Seq<char>>)
    ensures
        forall|i: int|
            0 <= i < prune(rows, library_id, existing).len() ==> keeps(
                #[trigger] prune(rows, library_id, existing)[i],
                library_id,
                existing,
            ),
        (forall|i: int| 0 <= i < rows.len() ==> keeps(#[trigger] rows[i], library_id, existing))
            ==> prune(rows, library_id, existing) == rows,
        forall|i: int|
            0 <= i < prune(rows, library_id, existing).len() ==> exists|j: int|
                0 <= j < rows.len() && rows[j] == #[trigger] prune(rows, library_id, existing)[i],
    decreases rows.len(),
{
    reveal(Seq::filter);
    if rows.len() > 0 {
        lemma_prune_facts(rows.drop_last(), library_id, existing);
        let p = prune(rows.drop_last(), library_id, existing);
        assert forall|i: int|
            0 <= i < prune(rows, library_id, existing).len() implies exists|j: int|
                0 <= j < rows.len() && rows[j] == #[trigger] prune(rows, library_id, existing)[i] by {
            if i < p.len() {
                let j = choose|j: int| 0 <= j < rows.drop_last().len() && rows.drop_last()[j] == p[i];
                assert(rows[j] == rows.drop_last()[j]);
            } else {
                assert(rows[rows.len() - 1] == rows.last());
            }
        }
        if forall|i: int| 0 <= i < rows.len() ==> keeps(#[trigger] rows[i], library_id, existing) {
            assert forall|i: int| 0 <= i < rows.drop_last().len() implies keeps(
                #[trigger] rows.drop_last()[i],
                library_id,
                existing,
            ) by {
                assert(rows.drop_last()[i] == rows[i]);
            }
            assert(keeps(rows[rows.len() - 1], library_id, existing));
            assert(rows.drop_last().push(rows.last()) == rows);
        }
    }
}

/// Facts about the discovery pass, by induction on the files walked.
proof fn lemma_discover_facts(
    rows: Seq<MediaRow>,
    library_id: u128,
    walked: Seq<Seq<char>>,
    ids: Seq<u128>,
    now: i64,
)
    ensures
        ({
            let (r, ok) = discover(rows, library_id, walked, ids, now);
            &&& rows.len() <= r.len()
            &&& forall|i: int| 0 <= i < rows.len() ==> r[i] == rows[i]
            &&& forall|i: int|
                rows.len() <= i < r.len() ==> (#[trigger] r[i]).library_id == library_id
                    && walked.contains(r[i].file_path)
            &&& ok ==> forall|k: int|
                0 <= k < walked.len() && (#[trigger] classify_spec(walked[k])) is Some ==> has_path(
                    r,
                    library_id,
                    walked[k],
                )
            &&& ok ==> forall|k: int|
                0 <= k < walked.len() && !walked.take(k).contains(walked[k]) && !has_path(
                    rows,
                    library_id,
                    walked[k],
                ) ==> match #[trigger] classify_spec(walked[k]) {
                    Some(kind) => r.contains(new_row(library_id, walked[k], kind, ids[k], now)),
                    None => true,
                }
        }),
    decreases walked.len(),
{
    if walked.len() > 0 {
        let prev = walked.drop_last();
        lemma_discover_facts(rows, library_id, prev, ids, now);
        let (r0, ok0) = discover(rows, library_id, prev, ids, now);
        let (r, ok) = discover(rows, library_id, walked, ids, now);
        let n = walked.len() - 1;
        let f = walked.last();
        assert(f == walked[n]);
        assert forall|i: int| rows.len() <= i < r.len() implies (#[trigger] r[i]).library_id
            == library_id && walked.contains(r[i].file_path) by {
            if i < r0.len() {
                assert(r[i] == r0[i]) by {
                    if ok0 {
                        assert(r == r0 || r == r0.push(r[r.len() - 1]));
                    }
                }
                let j = choose|j: int| 0 <= j < prev.len() && prev[j] == r0[i].file_path;
                assert(walked[j] == prev[j]);
            } else {
                assert(walked[n] == f);
            }
        }
        if ok {
            assert(ok0);
            assert forall|k: int|
                0 <= k < walked.len() && (#[trigger] classify_spec(walked[k])) is Some implies has_path(
                r,
                library_id,
                walked[k],
            ) by {
                if k < n {
                    assert(walked[k] == prev[k]);
                    assert(classify_spec(prev[k]) is Some);
                    let i = choose|i: int|
                        0 <= i < r0.len() && (#[trigger] r0[i]).library_id == library_id
                            && r0[i].file_path == prev[k];
                    assert(r[i] == r0[i]);
                } else {
                    if !has_path(r0, library_id, f) {
                        assert(r[r.len() - 1].file_path == f);
                    } else {
                        assert(r == r0);
                    }
                }
            }
            assert forall|k: int|
                0 <= k < walked.len() && !walked.take(k).contains(walked[k]) && !has_path(
                    rows,
                    library_id,
                    walked[k],
                ) implies match #[trigger] classify_spec(walked[k]) {
                Some(kind) => r.contains(new_row(library_id, walked[k], kind, ids[k], now)),
                None => true,
            } by {
                if k < n {
                    assert(walked[k] == prev[k]);
                    assert(prev.take(k) == walked.take(k));
                    assert(classify_spec(prev[k]) == classify_spec(walked[k]));
                    if let Some(kind) = classify_spec(walked[k]) {
                        let row = new_row(library_id, walked[k], kind, ids[k], now);
                        assert(r0.contains(row));
                        let i = choose|i: int| 0 <= i < r0.len() && r0[i] == row;
                        assert(r[i] == r0[i]);
                    }
                } else if let Some(kind) = classify_spec(f) {
                    assert(walked.take(n) == prev);
                    assert(!has_path(r0, library_id, f)) by {
                        if has_path(r0, library_id, f) {
                            let i = choose|i: int|
                                0 <= i < r0.len() && (#[trigger] r0[i]).library_id == library_id
                                    && r0[i].file_path == f;
                            if i >= rows.len() {
                                assert(prev.contains(r0[i].file_path));
                            } else {
                                assert(r0[i] == rows[i]);
                            }
                        }
                    }
                    assert(r[r.len() - 1] == new_row(library_id, f, kind, ids[n], now));
                }
            }
        }
    }
}

proof fn lemma_discover_noop(
    rows: Seq<MediaRow>,
    library_id: u128,
    walked: Seq<Seq<char>>,
    ids: Seq<u128>,
    now: i64,
)
    requires
        forall|k: int|
            0 <= k < walked.len() && (#[trigger] classify_spec(walked[k])) is Some ==> has_path(
                rows,
                library_id,
                walked[k],
            ),
    ensures
        discover(rows, library_id, walked, ids, now) == (rows, true),
    decreases walked.len(),
{
    if walked.len() > 0 {
        let prev = walked.drop_last();
        assert forall|k: int|
            0 <= k < prev.len() && (#[trigger] classify_spec(prev[k])) is Some implies has_path(
            rows,
            library_id,
            prev[k],
        ) by {
            assert(prev[k] == walked[k]);
        }
        lemma_discover_noop(rows, library_id, prev, ids, now);
        assert(walked.last() == walked[walked.len() - 1]);
    }
}

/// Synchronising twice in a row, with nothing changed on disk in between,
/// leaves the catalog as the first run left it: the second run deletes
/// nothing, inserts nothing and succeeds, whatever ids and time it is given.
/// "Nothing changed" means the same `existing` paths and the same walk, whose
/// files all exist.
pub proof fn lemma_sync_idempotent(
    rows: Seq<MediaRow>,
    library_id: u128,
    existing: Seq<Seq<char>>,
    walked: Seq<Seq<char>>,
    ids1: Seq<u128>,
    now1: i64,
    ids2: Seq<u128>,
    now2: i64,
)
    requires
        forall|k: int| 0 <= k < walked.len() ==> existing.contains(#[trigger] walked[k]),
        sync_spec(rows, library_id, existing, walked, ids1, now1).1,
    ensures
        sync_spec(
            sync_spec(rows, library_id, existing, walked, ids1, now1).0,
            library_id,
            existing,
            walked,
            ids2,
            now2,
        ) == (sync_spec(rows, library_id, existing, walked, ids1, now1).0, true),
{
    let p = prune(rows, library_id, existing);
    lemma_prune_facts(rows, library_id, existing);
    lemma_discover_facts(p, library_id, walked, ids1, now1);
    let r1 = sync_spec(rows, library_id, existing, walked, ids1, now1).0;
    assert forall|i: int| 0 <= i < r1.len() implies keeps(#[trigger] r1[i], library_id, existing) by {
        if i < p.len() {
            assert(r1[i] == p[i]);
        } else {
            let k = choose|k: int| 0 <= k < walked.len() && walked[k] == r1[i].file_path;
            assert(existing.contains(walked[k]));
        }
    }
    lemma_prune_facts(r1, library_id, existing);
    lemma_discover_noop(r1, library_id, walked, ids2, now2);
}

/// After a synchronisation, the library has no record at a path that is
/// not on disk: a file deleted since the last run loses its record.
pub proof fn lemma_sync_drops_missing(
    rows: Seq<MediaRow>,
    library_id: u128,
    existing: Seq<Seq<char>>,
    walked: Seq<Seq<char>>,
    ids: Seq<u128>,
    now: i64,
    path: Seq<char>,
)
    requires
        !existing.contains(path),
        forall|k: int| 0 <= k < walked.len() ==> existing.contains(#[trigger] walked[k]),
    ensures
        !has_path(sync_spec(rows, library_id, existing, walked, ids, now).0, library_id, path),
{
    let p = prune(rows, library_id, existing);
    lemma_prune_facts(rows, library_id, existing);
    lemma_discover_facts(p, library_id, walked, ids, now);
    let r = sync_spec(rows, library_id, existing, walked, ids, now).0;
    if has_path(r, library_id, path) {
        let i = choose|i: int|
            0 <= i < r.len() && (#[trigger] r[i]).library_id == library_id && r[i].file_path
                == path;
        if i < p.len() {
            assert(r[i] == p[i]);
            assert(keeps(p[i], library_id, existing));
        } else {
            let k = choose|k: int| 0 <= k < walked.len() && walked[k] == r[i].file_path;
            assert(existing.contains(walked[k]));
        }
    }
}

/// A media file that its library has no record of gets a new record from a
/// successful synchronisation that walks it: under the fresh id drawn for
/// it, dated with the time of the run. So a file deleted and created again
/// comes back as a record made by that run, not as the old one.
pub proof fn lemma_sync_creates_new(
    rows: Seq<MediaRow>,
    library_id: u128,
    existing: Seq<Seq<char>>,
    walked: Seq<Seq<char>>,
    ids: Seq<u128>,
    now: i64,
    k: int,
)
    requires
        0 <= k < walked.len(),
        !walked.take(k).contains(walked[k]),
        !has_path(rows, library_id, walked[k]),
        classify_spec(walked[k]) is Some,
        sync_spec(rows, library_id, existing, walked, ids, now).1,
    ensures
        sync_spec(rows, library_id, existing, walked, ids, now).0.contains(
            new_row(library_id, walked[k], classify_spec(walked[k])->0, ids[k], now),
        ),
{
    let p = prune(rows, library_id, existing);
    lemma_prune_facts(rows, library_id, existing);
    assert(!has_path(p, library_id, walked[k])) by {
        if has_path(p, library_id, walked[k]) {
            let i = choose|i: int|
                0 <= i < p.len() && (#[trigger] p[i]).library_id == library_id && p[i].file_path
                    == walked[k];
            let j = choose|j: int| 0 <= j < rows.len() && rows[j] == p[i];
            assert(rows[j].library_id == library_id);
        }
    }
    lemma_discover_facts(p, library_id, walked, ids, now);
}

pub struct MediaScanner;

impl MediaScanner {
    /// The orphan pass: deletes each record of `library_id` whose file is
    /// not among `existing`, the catalogued paths that still exist on disk.
    pub fn clean_orphaned_media(catalog: &mut Catalog, library_id: u128, existing: &Vec<String>)
        requires
            old(catalog).wf(),
        ensures
            final(catalog)@ == prune(old(catalog)@, library_id, texts(existing@)),
            final(catalog).wf(),
    {
        let ghost old_rows = catalog@;
        let ghost ex = texts(existing@);
        let total = catalog.len();
        let mut i: usize = 0;
        let mut k: usize = 0;
        while i < catalog.len()
            invariant
                catalog.wf(),
                old_rows.len() == total,
                k <= old_rows.len(),
                i == prune(old_rows.take(k as int), library_id, ex).len(),
                catalog@ == prune(old_rows.take(k as int), library_id, ex) + old_rows.skip(
                    k as int,
                ),
                ex == texts(existing@),
            decreases catalog@.len() - i,
        {
            let ghost before = catalog@;
            assert(k < old_rows.len()) by {
                assert(catalog@.len() == i + old_rows.skip(k as int).len());
            }
            let ghost kept = prune(old_rows.take(k as int), library_id, ex);
            assert(before[i as int] == old_rows[k as int]);
            assert(old_rows.take(k + 1).drop_last() == old_rows.take(k as int));
            assert(old_rows.take(k + 1).last() == old_rows[k as int]);
            proof {
                reveal(Seq::filter);
            }
            let record = catalog.get(i);
            let id = record.id;
            let mut present = record.library_id != library_id;
            let mut j: usize = 0;
            while !present && j < existing.len()
                invariant
                    j <= existing@.len(),
                    k < old_rows.len(),
                    ex == texts(existing@),
                    present <==> (record.library_id != library_id || exists|m: int|
                        0 <= m < j && ex[m] == record.file_path@),
                decreases existing@.len() - j,
            {
                assert(ex[j as int] == existing@[j as int]@);
                if same_text(existing[j].as_str(), record.file_path.as_str()) {
                    present = true;
                }
                j = j + 1;
            }
            if present {
                assert(keeps(old_rows[k as int], library_id, ex));
                assert(catalog@ == prune(old_rows.take(k + 1), library_id, ex) + old_rows.skip(
                    k + 1,
                ));
                i = i + 1;
            } else {
                assert(!ex.contains(record.file_path@));
                catalog.delete_media(id);
                assert(catalog@ == before.remove(i as int));
                assert(catalog@ == prune(old_rows.take(k + 1), library_id, ex) + old_rows.skip(
                    k + 1,
                ));
            }
            k = k + 1;
        }
        assert(k == old_rows.len());
        assert(old_rows.take(k as int) == old_rows);
    }
    /// The discovery pass for one file: where `path` is media and the
    /// library has no record at it, inserts a record under `id`, titled
    /// with the file name and dated `now`. A store refusal is an error.
    pub fn process_media_file(
        catalog: &mut Catalog,
        library_id: u128,
        path: &str,
        id: u128,
        now: i64,
    ) -> (r: Result<(), SyncError>)
        requires
            old(catalog).wf(),
        ensures
            (final(catalog)@, r is Ok) == discover_step(old(catalog)@, library_id, path@, id, now),
            r is Err ==> r == Err::<(), SyncError>(SyncError::Store(StoreError::DuplicateId)),
            final(catalog).wf(),
    {
        let kind = match MediaMetadataExtractor::classify(path) {
            None => {
                return Ok(());
            },
            Some(kind) => kind,
        };
        if catalog.find_by_path(library_id, path).is_some() {
            return Ok(());
        }
        let record = MediaRecord {
            id,
            library_id,
            title: file_name(path),
            file_path: path.to_owned(),
            media_type: kind,
            created_at: now,
            updated_at: now,
        };
        assert(record@ == new_row(library_id, path@, kind, id, now));
        match catalog.insert_media(record) {
            Ok(()) => Ok(()),
            Err(e) => Err(SyncError::Store(e)),
        }
    }

    /// A whole synchronisation of `library_id`: the orphan pass against
    /// `existing`, then the discovery pass over `walked`, the regular files
    /// of the tree in the order of the walk, the file at position `k` under
    /// the fresh id `ids[k]`. It stops at the first store refusal; what it
    /// did before stays done.
    pub fn scan_library_with(
        catalog: &mut Catalog,
        library_id: u128,
        existing: &Vec<String>,
        walked: &Vec<String>,
        ids: &Vec<u128>,
        now: i64,
    ) -> (r: Result<(), SyncError>)
        requires
            old(catalog).wf(),
            ids@.len() == walked@.len(),
        ensures
            (final(catalog)@, r is Ok) == sync_spec(
                old(catalog)@,
                library_id,
                texts(existing@),
                texts(walked@),
                ids@,
                now,
            ),
            r is Err ==> r == Err::<(), SyncError>(SyncError::Store(StoreError::DuplicateId)),
            final(catalog).wf(),
    {
        Self::clean_orphaned_media(catalog, library_id, existing);
        let ghost pruned = catalog@;
        let ghost w = texts(walked@);
        let mut k: usize = 0;
        while k < walked.len()
            invariant
                catalog.wf(),
                k <= walked@.len(),
                ids@.len() == walked@.len(),
                w == texts(walked@),
                pruned == prune(old(catalog)@, library_id, texts(existing@)),
                (catalog@, true) == discover(pruned, library_id, w.take(k as int), ids@, now),
            decreases walked@.len() - k,
        {
            assert(w.take(k + 1).drop_last() == w.take(k as int));
            assert(w.take(k + 1).last() == walked@[k as int]@);
            let ghost before = catalog@;
            let r = Self::process_media_file(catalog, library_id, walked[k].as_str(), ids[k], now);
            assert(discover(pruned, library_id, w.take(k + 1), ids@, now) == discover_step(
                before,
                library_id,
                w.take(k + 1).last(),
                ids@[k as int],
                now,
            ));
            if r.is_err() {
                proof {
                    lemma_discover_failed(pruned, library_id, w, ids@, now, k + 1);
                }
                return r;
            }
            k = k + 1;
        }
        assert(w.take(k as int) == w);
        Ok(())
    }

    /// A whole synchronisation, as `scan_library_with`, under fresh random
    /// ids and the current time.
    pub fn scan_library(
        catalog: &mut Catalog,
        library_id: u128,
        existing: &Vec<String>,
        walked: &Vec<String>,
    ) -> (r: Result<(), SyncError>)
        requires
            old(catalog).wf(),
        ensures
            exists|ids: Seq<u128>, now: i64|
                #![trigger sync_spec(old(catalog)@, library_id, texts(existing@), texts(walked@), ids, now)]
                ids.len() == walked@.len() && (final(catalog)@, r is Ok) == sync_spec(
                    old(catalog)@,
                    library_id,
                    texts(existing@),
                    texts(walked@),
                    ids,
                    now,
                ),
            r is Err ==> r == Err::<(), SyncError>(SyncError::Store(StoreError::DuplicateId)),
            final(catalog).wf(),
    {
        let mut ids: Vec<u128> = Vec::new();
        let mut k: usize = 0;
        while k < walked.len()
            invariant
                k <= walked@.len(),
                ids@.len() == k,
            decreases walked@.len() - k,
        {
            ids.push(new_id());
            k = k + 1;
        }
        let now = now_seconds();
        Self::scan_library_with(catalog, library_id, existing, walked, &ids, now)
    }
}

} // verus!