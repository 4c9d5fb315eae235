//! Deletions, prepared mutations and recursive operations.

use vstd::prelude::*;

use crate::error::{Failure, SyncSqliteError};
use crate::file_queries::file_at;
use crate::file_rows::{FileEntry, FileIndex, FileIndexRepository, FileRecord, LocalFileMetaColumns};
use crate::file_upsert::has_room;
use crate::local_capture::{
    capture, captured, hashes_of, index_changed, lemma_capture, write_capture, CaptureItem, Emitted,
    EmittedChange, LocalCaptureActualStateEvidence, PreparedLocalMutation, Verdict,
};
use crate::local_commits::{
    emitted, emitted_all, lemma_authored_capture_is_written, lemma_with_change_knows,
    lemma_with_changes_knows, mismatch, mismatch_error,
};
use crate::local_emission::aligned;
use crate::rows::views;
use crate::text::{join, join3, quoted, quoted_text};
use crate::transaction_rows::ChangeHash;

verus! {

/// The tombstone of a path: what it last held, marked as deleted when that was
/// observed, or nothing at all where the path was never seen.
pub open spec fn tombstone(found: Option<FileEntry>, path: Seq<char>, observed_at: int) -> FileEntry {
    match found {
        Some(entry) => FileEntry { deleted: true, mtime: observed_at, ..entry },
        None => FileEntry {
            path,
            size: 0,
            mtime: observed_at,
            blocks: Seq::empty(),
            deleted: true,
        },
    }
}

fn tombstone_of(found: Option<FileRecord>, path: &str, observed_at_unix_nanos: i64) -> (record:
    FileRecord)
    ensures
        record@ == tombstone(
            match found {
                Some(record) => Some(record@),
                None => None,
            },
            path@,
            observed_at_unix_nanos as int,
        ),
{
    match found {
        Some(last) => FileRecord {
            path: last.path,
            size: last.size,
            mtime_unix_nanos: observed_at_unix_nanos,
            blocks: last.blocks,
            deleted: true,
        },
        None => {
            let record = FileRecord {
                path: path.to_owned(),
                size: 0,
                mtime_unix_nanos: observed_at_unix_nanos,
                blocks: Vec::new(),
                deleted: true,
            };
            assert(record@.blocks =~= Seq::empty());
            record
        },
    }
}

/// A deletion without a change: the tombstone, with nothing known of the disk.
pub open spec fn deletion(
    index: FileIndex,
    group: Seq<char>,
    path: Seq<char>,
    device: Seq<char>,
    observed_at: int,
    now: Option<i64>,
) -> Result<FileIndex, Failure> {
    match file_at(index.files, group, path) {
        Err(failure) => Err(failure),
        Ok(found) => capture(
            index,
            group,
            CaptureItem {
                entry: tombstone(found, path, observed_at),
                author: None,
                meta: None,
                verdict: Verdict::Unproven,
                heads: Seq::empty(),
            },
            device,
            0,
            now,
        ),
    }
}

/// A deletion under a change, with absence proven or not.
pub open spec fn emitted_deletion(
    index: FileIndex,
    group: Seq<char>,
    path: Seq<char>,
    device: Seq<char>,
    observed_at: int,
    absent: bool,
    change: Emitted,
    now: Option<i64>,
) -> Result<FileIndex, Failure> {
    match file_at(index.files, group, path) {
        Err(failure) => Err(failure),
        Ok(found) => capture(
            emitted(index, group, change.hash),
            group,
            CaptureItem {
                entry: tombstone(found, path, observed_at),
                author: Some(change.hash),
                meta: None,
                verdict: if absent {
                    Verdict::Absent
                } else {
                    Verdict::Unproven
                },
                heads: change.heads,
            },
            device,
            0,
            now,
        ),
    }
}

/// What a prepared mutation may claim of the disk.
pub open spec fn mutation_verdict(
    mutation: PreparedLocalMutation,
    evidence: Option<LocalCaptureActualStateEvidence>,
) -> Verdict {
    match (mutation, evidence) {
        (
            PreparedLocalMutation::Upsert { record, version, meta: Some(meta), .. },
            Some(LocalCaptureActualStateEvidence::Present { filesystem_identity }),
        ) => if !record.deleted {
            Verdict::Present {
                kind: meta.record_kind,
                version: version.version_hash,
                identity: filesystem_identity,
            }
        } else {
            Verdict::Unproven
        },
        (
            PreparedLocalMutation::Delete { .. },
            Some(LocalCaptureActualStateEvidence::Absent),
        ) => Verdict::Absent,
        _ => Verdict::Unproven,
    }
}

/// The capture a prepared mutation writes.
pub open spec fn mutation_item(
    mutation: PreparedLocalMutation,
    evidence: Option<LocalCaptureActualStateEvidence>,
    change: Emitted,
) -> CaptureItem {
    CaptureItem {
        entry: match mutation {
            PreparedLocalMutation::Upsert { record, .. } => record@,
            PreparedLocalMutation::Delete { record, .. } => record@,
        },
        author: Some(change.hash),
        meta: match mutation {
            PreparedLocalMutation::Upsert { meta, .. } => meta,
            PreparedLocalMutation::Delete { .. } => None,
        },
        verdict: mutation_verdict(mutation, evidence),
        heads: change.heads,
    }
}

/// Commits one prepared mutation under a change the log knows.
fn apply_local_mutation_in_tx(
    index: &mut FileIndexRepository,
    group_id: &str,
    mutation: &PreparedLocalMutation,
    evidence: Option<LocalCaptureActualStateEvidence>,
    origin_device_id: &str,
    change: &EmittedChange,
    mask: u32,
    now_unix_nanos: Option<i64>,
) -> (result: Result<(), SyncSqliteError>)
    requires
        old(index)@.well_formed(),
        has_room(old(index)@.files, 1),
    ensures
        final(index)@.well_formed(),
        index_changed(
            capture(
                old(index)@,
                group_id@,
                mutation_item(*mutation, evidence, change@),
                origin_device_id@,
                mask,
                now_unix_nanos,
            ),
            old(index)@,
            final(index)@,
            result,
        ),
{
    match mutation {
        PreparedLocalMutation::Upsert { record, version, meta, .. } => {
            let columns: Option<&LocalFileMetaColumns> = match meta {
                Some(meta) => Some(meta),
                None => None,
            };
            let verdict = match (columns, evidence) {
                (
                    Some(meta),
                    Some(LocalCaptureActualStateEvidence::Present { filesystem_identity }),
                ) => {
                    if !record.deleted {
                        Verdict::Present {
                            kind: meta.record_kind,
                            version: version.version_hash,
                            identity: filesystem_identity,
                        }
                    } else {
                        Verdict::Unproven
                    }
                },
                _ => Verdict::Unproven,
            };
            write_capture(
                index,
                group_id,
                record,
                origin_device_id,
                Some(&change.hash),
                columns,
                verdict,
                change.heads.as_slice(),
                mask,
                now_unix_nanos,
            )
        },
        PreparedLocalMutation::Delete { record, .. } => {
            let verdict = match evidence {
                Some(LocalCaptureActualStateEvidence::Absent) => Verdict::Absent,
                _ => Verdict::Unproven,
            };
            write_capture(
                index,
                group_id,
                record,
                origin_device_id,
                Some(&change.hash),
                None,
                verdict,
                change.heads.as_slice(),
                mask,
                now_unix_nanos,
            )
        },
    }
}

/// The captures of the mutations from `start` to `end` under one change.
pub open spec fn part_items(
    mutations: Seq<PreparedLocalMutation>,
    evidence: Seq<Option<LocalCaptureActualStateEvidence>>,
    change: Emitted,
    start: int,
    end: int,
) -> Seq<CaptureItem> {
    Seq::new(
        (end - start) as nat,
        |i: int| mutation_item(mutations[start + i], aligned(evidence, start + i), change),
    )
}

/// Commits the mutations from `start` to `end` under one change.
pub fn apply_recursive_part(
    index: &mut FileIndexRepository,
    group_id: &str,
    mutations: &[PreparedLocalMutation],
    evidence: &[Option<LocalCaptureActualStateEvidence>],
    start: usize,
    end: usize,
    origin_device_id: &str,
    change: &EmittedChange,
    mask: u32,
    now_unix_nanos: Option<i64>,
)
    requires
        old(index)@.well_formed(),
        start <= end <= mutations@.len(),
        evidence@.len() == 0 || evidence@.len() == mutations@.len(),
        has_room(old(index)@.files, end - start),
        old(index)@.changes.knows(group_id@, change.hash.0@),
    ensures
        final(index)@.well_formed(),
        captured(
            old(index)@,
            group_id@,
            part_items(mutations@, evidence@, change@, start as int, end as int),
            origin_device_id@,
            mask,
            now_unix_nanos,
        ) is Ok,
        final(index)@ == captured(
            old(index)@,
            group_id@,
            part_items(mutations@, evidence@, change@, start as int, end as int),
            origin_device_id@,
            mask,
            now_unix_nanos,
        )->Ok_0,
{
    let ghost first = index@;
    let ghost items = part_items(mutations@, evidence@, change@, start as int, end as int);
    let ghost n = end - start;
    let mut i: usize = start;
    assert(items.take(0) =~= Seq::empty());
    while i < end
        invariant
            start <= i <= end <= mutations@.len(),
            n == end - start,
            evidence@.len() == 0 || evidence@.len() == mutations@.len(),
            items == part_items(mutations@, evidence@, change@, start as int, end as int),
            index@.well_formed(),
            index@.changes == first.changes,
            first.changes.knows(group_id@, change.hash.0@),
            has_room(index@.files, end - i),
            captured(
                first,
                group_id@,
                items.take(i - start),
                origin_device_id@,
                mask,
                now_unix_nanos,
            ) is Ok,
            captured(
                first,
                group_id@,
                items.take(i - start),
                origin_device_id@,
                mask,
                now_unix_nanos,
            )->Ok_0 == index@,
        decreases end - i,
    {
        let ghost item = items[i - start];
        let seen: Option<LocalCaptureActualStateEvidence> = if evidence.len() == 0 {
            None
        } else {
            evidence[i]
        };
        assert(seen == aligned(evidence@, i as int));
        proof {
            assert(items.take(i - start + 1).drop_last() =~= items.take(i - start));
            assert(items.take(i - start + 1).last() == item);
            lemma_authored_capture_is_written(
                index@,
                group_id@,
                item,
                origin_device_id@,
                mask,
                now_unix_nanos,
            );
            lemma_capture(
                index@,
                group_id@,
                item,
                origin_device_id@,
                mask,
                now_unix_nanos,
                end - i,
            );
        }
        match apply_local_mutation_in_tx(
            index,
            group_id,
            &mutations[i],
            seen,
            origin_device_id,
            change,
            mask,
            now_unix_nanos,
        ) {
            Ok(()) => {},
            Err(_) => {},
        }
        i += 1;
    }
    assert(items.take(items.len() as int) =~= items);
}

/// The captures of mutations that are each a change of their own.
pub open spec fn mutation_items(
    mutations: Seq<PreparedLocalMutation>,
    evidence: Seq<Option<LocalCaptureActualStateEvidence>>,
    changes: Seq<Emitted>,
) -> Seq<CaptureItem> {
    Seq::new(
        mutations.len(),
        |i: int| mutation_item(mutations[i], aligned(evidence, i), changes[i]),
    )
}

/// What committing prepared mutations, each under a change of its own, does.
pub open spec fn mutations_commit(
    index: FileIndex,
    group: Seq<char>,
    mutations: Seq<PreparedLocalMutation>,
    evidence: Seq<Option<LocalCaptureActualStateEvidence>>,
    origin: Seq<char>,
    changes: Seq<Emitted>,
    mask: u32,
    now: Option<i64>,
) -> Result<FileIndex, Failure> {
    if mutations.len() == 0 {
        Ok(index)
    } else if evidence.len() != 0 && evidence.len() != mutations.len() {
        Err(
            mismatch(
                "commit_local_mutations_batch length mismatch: "@,
                evidence.len(),
                " evidence entries for "@,
                mutations.len(),
                " mutations (evidence must be empty or aligned 1:1 with mutations)"@,
            ),
        )
    } else if changes.len() != mutations.len() {
        Err(
            mismatch(
                "commit_local_mutations_batch length mismatch: "@,
                changes.len(),
                " changes for "@,
                mutations.len(),
                " mutations (one change per mutation is required)"@,
            ),
        )
    } else {
        captured(
            emitted_all(index, group, hashes_of(changes)),
            group,
            mutation_items(mutations, evidence, changes),
            origin,
            mask,
            now,
        )
    }
}

/// The index changed as planned and the hashes are the answer, or nothing
/// changed.
pub open spec fn committed(
    plan: Result<FileIndex, Failure>,
    hashes: Seq<ChangeHash>,
    before: FileIndex,
    after: FileIndex,
    result: Result<Vec<ChangeHash>, SyncSqliteError>,
) -> bool {
    match plan {
        Ok(index) => result is Ok && result->Ok_0@ == hashes && after == index,
        Err(failure) => result is Err && result->Err_0@ == failure && after == before,
    }
}

/// The hashes of emitted changes.
fn copy_change_hashes(changes: &[EmittedChange]) -> (hashes: Vec<ChangeHash>)
    ensures
        hashes@ == hashes_of(views(changes@)),
{
    let ghost wanted = hashes_of(views(changes@));
    let mut hashes: Vec<ChangeHash> = Vec::new();
    let mut i: usize = 0;
    while i < changes.len()
        invariant
            i <= changes@.len(),
            wanted == hashes_of(views(changes@)),
            wanted.len() == changes@.len(),
            hashes@ == wanted.take(i as int),
        decreases changes@.len() - i,
    {
        assert(wanted[i as int] == changes@[i as int].hash);
        assert(wanted.take(i + 1) =~= wanted.take(i as int).push(wanted[i as int]));
        hashes.push(changes[i].hash);
        i += 1;
    }
    assert(wanted.take(wanted.len() as int) =~= wanted);
    hashes
}

impl FileIndexRepository {
    /// Tombstones a path as of now.
    pub fn mark_deleted(
        &mut self,
        group_id: &str,
        path: &str,
        device_id: &str,
        now_unix_nanos: Option<i64>,
    ) -> (result: Result<(), SyncSqliteError>)
        requires
            old(self)@.well_formed(),
            has_room(old(self)@.files, 1),
        ensures
            final(self)@.well_formed(),
            index_changed(
                deletion(
                    old(self)@,
                    group_id@,
                    path@,
                    device_id@,
                    match now_unix_nanos {
                        Some(now) => now as int,
                        None => 0,
                    },
                    now_unix_nanos,
                ),
                old(self)@,
                final(self)@,
                result,
            ),
    {
        let observed: i64 = match now_unix_nanos {
            Some(now) => now,
            None => 0,
        };
        self.mark_deleted_at(group_id, path, device_id, observed, now_unix_nanos)
    }

    /// Tombstones a path as of when its removal was observed. Nothing is known
    /// of the disk, so whatever was last proven of the path is retired.
    pub fn mark_deleted_at(
        &mut self,
        group_id: &str,
        path: &str,
        device_id: &str,
        observed_at_unix_nanos: i64,
        now_unix_nanos: Option<i64>,
    ) -> (result: Result<(), SyncSqliteError>)
        requires
            old(self)@.well_formed(),
            has_room(old(self)@.files, 1),
        ensures
            final(self)@.well_formed(),
            index_changed(
                deletion(
                    old(self)@,
                    group_id@,
                    path@,
                    device_id@,
                    observed_at_unix_nanos as int,
                    now_unix_nanos,
                ),
                old(self)@,
                final(self)@,
                result,
            ),
    {
        let found = match self.get_file(group_id, path) {
            Ok(found) => found,
            Err(error) => {
                return Err(error);
            },
        };
        let record = tombstone_of(found, path, observed_at_unix_nanos);
        let no_heads: Vec<ChangeHash> = Vec::new();
        assert(no_heads@ =~= Seq::empty());
        write_capture(
            self,
            group_id,
            &record,
            device_id,
            None,
            None,
            Verdict::Unproven,
            no_heads.as_slice(),
            0,
            now_unix_nanos,
        )
    }

    /// Tombstones a path under the change that deletes it, and publishes that
    /// nothing stands there where the caller made sure of it.
    pub fn mark_deleted_emitting_change(
        &mut self,
        group_id: &str,
        path: &str,
        device_id: &str,
        observed_at_unix_nanos: i64,
        publish_absent_proof: bool,
        change: &EmittedChange,
        now_unix_nanos: Option<i64>,
    ) -> (result: Result<ChangeHash, SyncSqliteError>)
        requires
            old(self)@.well_formed(),
            has_room(old(self)@.files, 1),
        ensures
            final(self)@.well_formed(),
            match emitted_deletion(
                old(self)@,
                group_id@,
                path@,
                device_id@,
                observed_at_unix_nanos as int,
                publish_absent_proof,
                change@,
                now_unix_nanos,
            ) {
                Ok(index) => result is Ok && result->Ok_0 == change.hash && final(self)@ == index,
                Err(failure) => result is Err && result->Err_0@ == failure && final(self)@
                    == old(self)@,
            },
            file_at(old(self)@.files, group_id@, path@) is Ok ==> result is Ok,
    {
        let found = match self.get_file(group_id, path) {
            Ok(found) => found,
            Err(error) => {
                return Err(error);
            },
        };
        let record = tombstone_of(found, path, observed_at_unix_nanos);
        let verdict = if publish_absent_proof {
            Verdict::Absent
        } else {
            Verdict::Unproven
        };
        proof {
            lemma_with_change_knows(self@.changes, group_id@, change.hash.0@, None);
            lemma_authored_capture_is_written(
                emitted(self@, group_id@, change.hash),
                group_id@,
                CaptureItem {
                    entry: record@,
                    author: Some(change.hash),
                    meta: None,
                    verdict,
                    heads: change.heads@,
                },
                device_id@,
                0,
                now_unix_nanos,
            );
        }
        self.admit_change(group_id, &change.hash, None);
        match write_capture(
            self,
            group_id,
            &record,
            device_id,
            Some(&change.hash),
            None,
            verdict,
            change.heads.as_slice(),
            0,
            now_unix_nanos,
        ) {
            Ok(()) => Ok(change.hash),
            Err(error) => Err(error),
        }
    }

    /// Commits prepared mutations, each under a change of its own. Evidence is
    /// either left out or given one per mutation.
    pub fn commit_local_mutations_batch(
        &mut self,
        group_id: &str,
        mutations: &[PreparedLocalMutation],
        evidence: &[Option<LocalCaptureActualStateEvidence>],
        origin_device_id: &str,
        changes: &[EmittedChange],
        mask: u32,
        now_unix_nanos: Option<i64>,
    ) -> (result: Result<Vec<ChangeHash>, SyncSqliteError>)
        requires
            old(self)@.well_formed(),
            has_room(old(self)@.files, mutations@.len() as int),
        ensures
            final(self)@.well_formed(),
            committed(
                mutations_commit(
                    old(self)@,
                    group_id@,
                    mutations@,
                    evidence@,
                    origin_device_id@,
                    views(changes@),
                    mask,
                    now_unix_nanos,
                ),
                if mutations@.len() == 0 {
                    Seq::empty()
                } else {
                    hashes_of(views(changes@))
                },
                old(self)@,
                final(self)@,
                result,
            ),
            (evidence@.len() == 0 || evidence@.len() == mutations@.len()) && changes@.len()
                == mutations@.len() ==> result is Ok,
    {
        if mutations.len() == 0 {
            return Ok(Vec::new());
        }
        if evidence.len() != 0 && evidence.len() != mutations.len() {
            return Err(
                mismatch_error(
                    "commit_local_mutations_batch length mismatch: ",
                    evidence.len(),
                    " evidence entries for ",
                    mutations.len(),
                    " mutations (evidence must be empty or aligned 1:1 with mutations)",
                ),
            );
        }
        if changes.len() != mutations.len() {
            return Err(
                mismatch_error(
                    "commit_local_mutations_batch length mismatch: ",
                    changes.len(),
                    " changes for ",
                    mutations.len(),
                    " mutations (one change per mutation is required)",
                ),
            );
        }
        let hashes = copy_change_hashes(changes);
        let ghost start = emitted_all(self@, group_id@, hashes@);
        let ghost items = mutation_items(mutations@, evidence@, views(changes@));
        proof {
            lemma_with_changes_knows(self@.changes, group_id@, hashes@);
        }
        self.admit_changes(group_id, hashes.as_slice());
        let mut i: usize = 0;
        assert(items.take(0) =~= Seq::empty());
        while i < mutations.len()
            invariant
                i <= mutations@.len(),
                mutations@.len() > 0,
                evidence@.len() == 0 || evidence@.len() == mutations@.len(),
                changes@.len() == mutations@.len(),
                hashes@ == hashes_of(views(changes@)),
                items == mutation_items(mutations@, evidence@, views(changes@)),
                start == emitted_all(old(self)@, group_id@, hashes@),
                forall|k: int|
                    #![trigger hashes@[k]]
                    0 <= k < hashes@.len() ==> start.changes.knows(group_id@, hashes@[k].0@),
                self@.well_formed(),
                self@.changes == start.changes,
                has_room(self@.files, mutations@.len() - i),
                captured(
                    start,
                    group_id@,
                    items.take(i as int),
                    origin_device_id@,
                    mask,
                    now_unix_nanos,
                ) is Ok,
                captured(
                    start,
                    group_id@,
                    items.take(i as int),
                    origin_device_id@,
                    mask,
                    now_unix_nanos,
                )->Ok_0 == self@,
            decreases mutations@.len() - i,
        {
            let ghost item = items[i as int];
            let seen: Option<LocalCaptureActualStateEvidence> = if evidence.len() == 0 {
                None
            } else {
                evidence[i]
            };
            assert(seen == aligned(evidence@, i as int));
            proof {
                assert(items.take(i + 1).drop_last() =~= items.take(i as int));
                assert(items.take(i + 1).last() == item);
                assert(views(changes@)[i as int] == changes@[i as int]@);
                assert(start.changes.knows(group_id@, hashes@[i as int].0@));
                lemma_authored_capture_is_written(
                    self@,
                    group_id@,
                    item,
                    origin_device_id@,
                    mask,
                    now_unix_nanos,
                );
                lemma_capture(
                    self@,
                    group_id@,
                    item,
                    origin_device_id@,
                    mask,
                    now_unix_nanos,
                    mutations@.len() - i,
                );
            }
            match apply_local_mutation_in_tx(
                self,
                group_id,
                &mutations[i],
                seen,
                origin_device_id,
                &changes[i],
                mask,
                now_unix_nanos,
            ) {
                Ok(()) => {},
                Err(error) => {
                    return Err(error);
                },
            }
            i += 1;
        }
        assert(items.take(items.len() as int) =~= items);
        Ok(hashes)
    }

    /// Deletes the source of a copy through the copy: the copy's own row is
    /// tombstoned, with absence proven, under the change that deletes the
    /// source. `is_copy_of_source` says whether the copy's name is one of the
    /// source's copy names.
    pub fn commit_write_through_deletion(
        &mut self,
        group_id: &str,
        copy_path: &str,
        source: &str,
        is_copy_of_source: bool,
        origin_device_id: &str,
        observed_at_unix_nanos: i64,
        change: &EmittedChange,
        now_unix_nanos: Option<i64>,
    ) -> (result: Result<ChangeHash, SyncSqliteError>)
        requires
            old(self)@.well_formed(),
            has_room(old(self)@.files, 1),
        ensures
            final(self)@.well_formed(),
            match write_through_deletion(
                old(self)@,
                group_id@,
                copy_path@,
                source@,
                is_copy_of_source,
                origin_device_id@,
                observed_at_unix_nanos as int,
                change@,
                now_unix_nanos,
            ) {
                Ok(index) => result is Ok && result->Ok_0 == change.hash && final(self)@ == index,
                Err(failure) => result is Err && result->Err_0@ == failure && final(self)@
                    == old(self)@,
            },
    {
        let found = match self.get_file(group_id, copy_path) {
            Ok(found) => found,
            Err(error) => {
                return Err(error);
            },
        };
        match found {
            None => {
                Err(
                    SyncSqliteError::NotFound(
                        join3(
                            "no row at ",
                            quoted_text(copy_path).as_str(),
                            " to delete through",
                        ),
                    ),
                )
            },
            Some(last) => {
                if !is_copy_of_source {
                    let start = join(
                        quoted_text(copy_path).as_str(),
                        " is not a copy name of ",
                    );
                    return Err(
                        SyncSqliteError::InvalidInput(
                            join3(
                                start.as_str(),
                                quoted_text(source).as_str(),
                                "; nothing to delete through",
                            ),
                        ),
                    );
                }
                let record = tombstone_of(Some(last), copy_path, observed_at_unix_nanos);
                proof {
                    lemma_with_change_knows(self@.changes, group_id@, change.hash.0@, None);
                    lemma_authored_capture_is_written(
                        emitted(self@, group_id@, change.hash),
                        group_id@,
                        CaptureItem {
                            entry: record@,
                            author: Some(change.hash),
                            meta: None,
                            verdict: Verdict::Absent,
                            heads: change.heads@,
                        },
                        origin_device_id@,
                        0,
                        now_unix_nanos,
                    );
                }
                self.admit_change(group_id, &change.hash, None);
                match write_capture(
                    self,
                    group_id,
                    &record,
                    origin_device_id,
                    Some(&change.hash),
                    None,
                    Verdict::Absent,
                    change.heads.as_slice(),
                    0,
                    now_unix_nanos,
                ) {
                    Ok(()) => Ok(change.hash),
                    Err(error) => Err(error),
                }
            },
        }
    }
}

/// What deleting a source through its copy does.
pub open spec fn write_through_deletion(
    index: FileIndex,
    group: Seq<char>,
    copy: Seq<char>,
    source: Seq<char>,
    is_copy: bool,
    origin: Seq<char>,
    observed_at: int,
    change: Emitted,
    now: Option<i64>,
) -> Result<FileIndex, Failure> {
    match file_at(index.files, group, copy) {
        Err(failure) => Err(failure),
        Ok(None) => Err(
            Failure::NotFound("no row at "@ + quoted(copy) + " to delete through"@),
        ),
        Ok(Some(entry)) => if !is_copy {
            Err(
                Failure::InvalidInput(
                    quoted(copy) + " is not a copy name of "@ + quoted(source)
                        + "; nothing to delete through"@,
                ),
            )
        } else {
            emitted_deletion(index, group, copy, origin, observed_at, true, change, now)
        },
    }
}

} // verus!
