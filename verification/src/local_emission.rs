//! Local captures that emit a change, and scans that do not.

use vstd::prelude::*;

use crate::error::{Failure, SyncSqliteError};
use crate::file_rows::{
    copy_files, copy_proofs, FileEntry, FileIndex, FileIndexRepository, FileRecord,
    LocalFileMetaColumns, VersionHash,
};
use crate::file_upsert::has_room;
use crate::identity::FileIdentity;
use crate::local_capture::{
    capture, captured, described_by, index_changed, lemma_capture, write_capture, CaptureItem,
    CarriedVersion, ChangeContent, Emitted, EmittedChange, ImportedActualState,
    LocalCaptureActualStateEvidence, Op, Verdict,
};
use crate::local_commits::{
    author_known, emitted, lemma_authored_capture_is_written, lemma_authored_captures_are_written,
    lemma_with_change_knows, mismatch, mismatch_error,
};
use crate::root_counter::copy_counters;
use crate::rows::{first_where, lemma_first_where_at, lemma_first_where_none};
use crate::text::{bytes_eq, str_eq};
use crate::transaction_rows::ChangeHash;

verus! {

/// The effect puts a version at that path.
pub open spec fn is_put_at(path: Seq<char>) -> spec_fn(Op) -> bool {
    |op: Op| op matches Op::Put { path: at, .. } && at@ == path
}

/// The version the first effect at a path puts there.
pub open spec fn first_put(ops: Seq<Op>, path: Seq<char>) -> Option<VersionHash> {
    match first_where(ops, is_put_at(path)) {
        Some(Op::Put { version, .. }) => Some(version),
        _ => None,
    }
}

/// The carried version has that hash.
pub open spec fn has_hash(version: VersionHash) -> spec_fn(CarriedVersion) -> bool {
    |carried: CarriedVersion| carried.version_hash.0@ == version.0@
}

/// The version of that hash among those a change carries.
pub open spec fn carried(versions: Seq<CarriedVersion>, version: VersionHash) -> Option<
    CarriedVersion,
> {
    first_where(versions, has_hash(version))
}

/// The path the only effect of a change is about, unless it moves something.
pub open spec fn sole_path(ops: Seq<Op>) -> Option<Seq<char>> {
    if ops.len() == 1 {
        match ops[0] {
            Op::Put { path, .. } => Some(path@),
            Op::Delete { path } => Some(path@),
            Op::Move { .. } => None,
        }
    } else {
        None
    }
}

/// The path a capture of `row_path` puts its version at: the source it is
/// written through to, if any, else the path itself.
pub open spec fn put_path(ops: Seq<Op>, source: Option<Seq<char>>, row_path: Seq<char>) -> Seq<
    char,
> {
    match source {
        Some(source) => if sole_path(ops) is Some {
            source
        } else {
            row_path
        },
        None => row_path,
    }
}

/// What a single capture may claim of the disk: the version is proven where it
/// was observed, still exists, and the change that puts it there carries it.
pub open spec fn edit_verdict(
    deleted: bool,
    meta: Option<LocalFileMetaColumns>,
    identity: Option<FileIdentity>,
    ops: Seq<Op>,
    versions: Seq<CarriedVersion>,
    path: Seq<char>,
) -> Verdict {
    match (meta, identity, first_put(ops, path)) {
        (Some(meta), Some(identity), Some(version)) => if !deleted && carried(
            versions,
            version,
        ) is Some {
            Verdict::Present { kind: meta.record_kind, version, identity }
        } else {
            Verdict::Unproven
        },
        _ => Verdict::Unproven,
    }
}

/// The path of the only effect, unless it moves something.
pub fn sole_op_path<'a>(ops: &'a [Op]) -> (path: Option<&'a str>)
    ensures
        match path {
            Some(path) => sole_path(ops@) == Some(path@),
            None => sole_path(ops@) is None,
        },
{
    if ops.len() != 1 {
        return None;
    }
    match &ops[0] {
        Op::Put { path, .. } => Some(path.as_str()),
        Op::Delete { path } => Some(path.as_str()),
        Op::Move { .. } => None,
    }
}

/// The source a capture is written through to, given what the only effect's
/// path amounts to as a copy name. A change with several effects, or one that
/// moves something, is written through to nothing.
pub fn write_through_source_of<'a>(ops: &[Op], source: Option<&'a str>) -> (found: Option<&'a str>)
    ensures
        match found {
            Some(found) => sole_path(ops@) is Some && (source matches Some(text) && text@
                == found@),
            None => sole_path(ops@) is None || source is None,
        },
{
    match sole_op_path(ops) {
        Some(_) => source,
        None => None,
    }
}

/// The version the first effect at the path puts there.
fn first_put_at(ops: &[Op], path: &str) -> (found: Option<VersionHash>)
    ensures
        found == first_put(ops@, path@),
{
    let ghost pred = is_put_at(path@);
    let mut i: usize = 0;
    while i < ops.len()
        invariant
            i <= ops@.len(),
            pred == is_put_at(path@),
            forall|j: int| 0 <= j < i ==> !pred(#[trigger] ops@[j]),
        decreases ops@.len() - i,
    {
        match &ops[i] {
            Op::Put { path: at, version } => {
                if str_eq(at.as_str(), path) {
                    proof {
                        lemma_first_where_at(ops@, pred, i as int);
                    }
                    return Some(*version);
                }
            },
            _ => {},
        }
        i += 1;
    }
    proof {
        lemma_first_where_none(ops@, pred);
    }
    None
}

/// The carried version of that hash.
fn carried_version(versions: &[CarriedVersion], version: &VersionHash) -> (found: Option<
    CarriedVersion,
>)
    ensures
        found == carried(versions@, *version),
{
    let ghost pred = has_hash(*version);
    let mut i: usize = 0;
    while i < versions.len()
        invariant
            i <= versions@.len(),
            pred == has_hash(*version),
            forall|j: int| 0 <= j < i ==> !pred(#[trigger] versions@[j]),
        decreases versions@.len() - i,
    {
        if bytes_eq(
            vstd::array::array_as_slice(&versions[i].version_hash.0),
            vstd::array::array_as_slice(&version.0),
        ) {
            proof {
                lemma_first_where_at(versions@, pred, i as int);
            }
            return Some(versions[i]);
        }
        i += 1;
    }
    proof {
        lemma_first_where_none(versions@, pred);
    }
    None
}

/// The capture a single edit writes.
pub open spec fn edit_item(
    entry: FileEntry,
    change: Emitted,
    content: ChangeContent,
    meta: Option<LocalFileMetaColumns>,
    identity: Option<FileIdentity>,
    source: Option<Seq<char>>,
) -> CaptureItem {
    CaptureItem {
        entry,
        author: Some(change.hash),
        meta,
        verdict: edit_verdict(
            entry.deleted,
            meta,
            identity,
            content.ops@,
            content.versions@,
            put_path(content.ops@, source, entry.path),
        ),
        heads: change.heads,
    }
}

/// What a scan may claim of the disk.
pub open spec fn scan_verdict(deleted: bool, observed: Option<ImportedActualState>) -> Verdict {
    match observed {
        Some(seen) => if !deleted {
            Verdict::Present {
                kind: seen.record_kind,
                version: seen.version_hash,
                identity: seen.filesystem_identity,
            }
        } else {
            Verdict::Unproven
        },
        None => Verdict::Unproven,
    }
}

/// An element of a list that is empty or as long as another.
pub open spec fn aligned<T>(list: Seq<Option<T>>, i: int) -> Option<T> {
    if 0 <= i < list.len() {
        list[i]
    } else {
        None
    }
}

/// The captures a scan writes, on the group's heads.
pub open spec fn scan_items(
    records: Seq<FileRecord>,
    metas: Seq<Option<LocalFileMetaColumns>>,
    observed: Seq<Option<ImportedActualState>>,
    heads: Seq<ChangeHash>,
) -> Seq<CaptureItem> {
    Seq::new(
        records.len(),
        |i: int|
            CaptureItem {
                entry: records[i]@,
                author: None,
                meta: aligned(metas, i),
                verdict: scan_verdict(records[i].deleted, aligned(observed, i)),
                heads,
            },
    )
}

/// What committing a scan does.
pub open spec fn scan(
    index: FileIndex,
    group: Seq<char>,
    records: Seq<FileRecord>,
    origin: Seq<char>,
    metas: Seq<Option<LocalFileMetaColumns>>,
    observed: Seq<Option<ImportedActualState>>,
    heads: Seq<ChangeHash>,
    mask: u32,
    now: Option<i64>,
) -> Result<FileIndex, Failure> {
    if records.len() == 0 {
        Ok(index)
    } else if metas.len() != 0 && metas.len() != records.len() {
        Err(metas_mismatch(metas.len(), records.len()))
    } else if observed.len() != 0 && observed.len() != records.len() {
        Err(
            mismatch(
                "upsert_files_batch length mismatch: "@,
                observed.len(),
                " observations for "@,
                records.len(),
                " records (observations must be empty or aligned 1:1 with records)"@,
            ),
        )
    } else {
        captured(index, group, scan_items(records, metas, observed, heads), origin, mask, now)
    }
}

/// The refusal of metadata that does not line up with the records.
pub open spec fn metas_mismatch(given: nat, wanted: nat) -> Failure {
    mismatch(
        "upsert_files_batch length mismatch: "@,
        given,
        " metas for "@,
        wanted,
        " records (metas must be empty or aligned 1:1 with records)"@,
    )
}

/// A refused capture refuses the whole list.
proof fn lemma_captured_fails_early(
    index: FileIndex,
    group: Seq<char>,
    items: Seq<CaptureItem>,
    origin: Seq<char>,
    mask: u32,
    now: Option<i64>,
    i: int,
)
    requires
        0 <= i <= items.len(),
        captured(index, group, items.take(i), origin, mask, now) is Err,
    ensures
        captured(index, group, items, origin, mask, now) == captured(
            index,
            group,
            items.take(i),
            origin,
            mask,
            now,
        ),
    decreases items.len() - i,
{
    if i == items.len() {
        assert(items.take(i) =~= items);
    } else {
        assert(items.take(i + 1).drop_last() =~= items.take(i));
        lemma_captured_fails_early(index, group, items, origin, mask, now, i + 1);
    }
}

/// Whether an observation is of the path.
pub open spec fn is_evidence_at(path: Seq<char>) -> spec_fn(
    (String, LocalCaptureActualStateEvidence),
) -> bool {
    |entry: (String, LocalCaptureActualStateEvidence)| entry.0@ == path
}

/// The evidence on record for a path.
pub open spec fn evidence_for(
    evidence: Seq<(String, LocalCaptureActualStateEvidence)>,
    path: Seq<char>,
) -> Option<LocalCaptureActualStateEvidence> {
    match first_where(evidence, is_evidence_at(path)) {
        Some(entry) => Some(entry.1),
        None => None,
    }
}

/// What one record of a batch may claim of the disk.
pub open spec fn batch_verdict(
    deleted: bool,
    evidence: Option<LocalCaptureActualStateEvidence>,
    op: Op,
    versions: Seq<CarriedVersion>,
) -> Verdict {
    match (evidence, op) {
        (
            Some(LocalCaptureActualStateEvidence::Present { filesystem_identity }),
            Op::Put { version, .. },
        ) => match carried(versions, version) {
            Some(found) => if !deleted {
                Verdict::Present {
                    kind: found.record_kind,
                    version,
                    identity: filesystem_identity,
                }
            } else {
                Verdict::Unproven
            },
            None => Verdict::Unproven,
        },
        (Some(LocalCaptureActualStateEvidence::Absent), Op::Delete { .. }) => if deleted {
            Verdict::Absent
        } else {
            Verdict::Unproven
        },
        _ => Verdict::Unproven,
    }
}

/// The captures a batch under one change writes.
pub open spec fn batch_items(
    records: Seq<FileRecord>,
    change: Emitted,
    content: ChangeContent,
    metas: Seq<Option<LocalFileMetaColumns>>,
    evidence: Seq<(String, LocalCaptureActualStateEvidence)>,
) -> Seq<CaptureItem> {
    Seq::new(
        records.len(),
        |i: int|
            CaptureItem {
                entry: records[i]@,
                author: Some(change.hash),
                meta: aligned(metas, i),
                verdict: batch_verdict(
                    records[i].deleted,
                    evidence_for(evidence, records[i].path@),
                    content.ops@[i],
                    content.versions@,
                ),
                heads: change.heads,
            },
    )
}

/// What committing a batch under one change does.
pub open spec fn batch(
    index: FileIndex,
    group: Seq<char>,
    records: Seq<FileRecord>,
    origin: Seq<char>,
    content: ChangeContent,
    metas: Seq<Option<LocalFileMetaColumns>>,
    evidence: Seq<(String, LocalCaptureActualStateEvidence)>,
    change: Emitted,
    mask: u32,
    now: Option<i64>,
) -> Result<FileIndex, Failure> {
    if records.len() == 0 {
        Ok(index)
    } else if content.ops@.len() != records.len() {
        Err(
            mismatch(
                "upsert_files_batch length mismatch: "@,
                content.ops@.len(),
                " ops for "@,
                records.len(),
                " records (one op per record is required)"@,
            ),
        )
    } else if metas.len() != 0 && metas.len() != records.len() {
        Err(metas_mismatch(metas.len(), records.len()))
    } else {
        captured(
            emitted(index, group, change.hash),
            group,
            batch_items(records, change, content, metas, evidence),
            origin,
            mask,
            now,
        )
    }
}

/// The evidence on record for a path.
fn find_evidence(evidence: &[(String, LocalCaptureActualStateEvidence)], path: &str) -> (found:
    Option<LocalCaptureActualStateEvidence>)
    ensures
        found == evidence_for(evidence@, path@),
{
    let ghost pred = is_evidence_at(path@);
    let mut i: usize = 0;
    while i < evidence.len()
        invariant
            i <= evidence@.len(),
            pred == is_evidence_at(path@),
            forall|j: int| 0 <= j < i ==> !pred(#[trigger] evidence@[j]),
        decreases evidence@.len() - i,
    {
        if str_eq(evidence[i].0.as_str(), path) {
            proof {
                lemma_first_where_at(evidence@, pred, i as int);
            }
            return Some(evidence[i].1);
        }
        i += 1;
    }
    proof {
        lemma_first_where_none(evidence@, pred);
    }
    None
}

fn verdict_of_batch(
    deleted: bool,
    evidence: Option<LocalCaptureActualStateEvidence>,
    op: &Op,
    versions: &[CarriedVersion],
) -> (verdict: Verdict)
    ensures
        verdict == batch_verdict(deleted, evidence, *op, versions@),
{
    match (evidence, op) {
        (
            Some(LocalCaptureActualStateEvidence::Present { filesystem_identity }),
            Op::Put { version, .. },
        ) => {
            match carried_version(versions, version) {
                Some(found) => {
                    if !deleted {
                        Verdict::Present {
                            kind: found.record_kind,
                            version: *version,
                            identity: filesystem_identity,
                        }
                    } else {
                        Verdict::Unproven
                    }
                },
                None => Verdict::Unproven,
            }
        },
        (Some(LocalCaptureActualStateEvidence::Absent), Op::Delete { .. }) => {
            if deleted {
                Verdict::Absent
            } else {
                Verdict::Unproven
            }
        },
        _ => Verdict::Unproven,
    }
}

/// The identity behind a write.
pub open spec fn identified_by(identity: Option<&FileIdentity>) -> Option<FileIdentity> {
    match identity {
        Some(identity) => Some(*identity),
        None => None,
    }
}

/// The text of an optional string slice.
pub open spec fn named_by(text: Option<&str>) -> Option<Seq<char>> {
    match text {
        Some(text) => Some(text@),
        None => None,
    }
}

impl FileIndexRepository {
    /// Commits one captured edit under the change it was emitted as: the
    /// change is admitted, the version written with its metadata, and the
    /// proof published where the capture observed the very version the change
    /// carries. Otherwise the last proof is retired.
    pub fn upsert_file_emitting_change(
        &mut self,
        group_id: &str,
        record: &FileRecord,
        origin_device_id: &str,
        content: &ChangeContent,
        meta: Option<&LocalFileMetaColumns>,
        filesystem_identity: Option<&FileIdentity>,
        write_through_source: Option<&str>,
        change: &EmittedChange,
        mask: u32,
        now_unix_nanos: Option<i64>,
    ) -> (result: Result<ChangeHash, SyncSqliteError>)
        requires
            old(self)@.well_formed(),
            has_room(old(self)@.files, 1),
        ensures
            final(self)@.well_formed(),
            result is Ok,
            result->Ok_0 == change.hash,
            capture(
                emitted(old(self)@, group_id@, change.hash),
                group_id@,
                edit_item(
                    record@,
                    change@,
                    *content,
                    described_by(meta),
                    identified_by(filesystem_identity),
                    named_by(write_through_source),
                ),
                origin_device_id@,
                mask,
                now_unix_nanos,
            ) is Ok,
            final(self)@ == capture(
                emitted(old(self)@, group_id@, change.hash),
                group_id@,
                edit_item(
                    record@,
                    change@,
                    *content,
                    described_by(meta),
                    identified_by(filesystem_identity),
                    named_by(write_through_source),
                ),
                origin_device_id@,
                mask,
                now_unix_nanos,
            )->Ok_0,
    {
        let ghost item = edit_item(
            record@,
            change@,
            *content,
            described_by(meta),
            identified_by(filesystem_identity),
            named_by(write_through_source),
        );
        let target: &str = match write_through_source_of(content.ops, write_through_source) {
            Some(source) => source,
            None => record.path.as_str(),
        };
        assert(target@ == put_path(
            content.ops@,
            named_by(write_through_source),
            record.path@,
        ));
        let verdict = match (meta, filesystem_identity, first_put_at(content.ops, target)) {
            (Some(meta), Some(identity), Some(version)) => {
                if !record.deleted && carried_version(content.versions, &version).is_some() {
                    Verdict::Present { kind: meta.record_kind, version, identity: *identity }
                } else {
                    Verdict::Unproven
                }
            },
            _ => Verdict::Unproven,
        };
        assert(verdict == item.verdict);
        proof {
            lemma_with_change_knows(self@.changes, group_id@, change.hash.0@, None);
            lemma_authored_capture_is_written(
                emitted(self@, group_id@, change.hash),
                group_id@,
                item,
                origin_device_id@,
                mask,
                now_unix_nanos,
            );
        }
        self.admit_change(group_id, &change.hash, None);
        match write_capture(
            self,
            group_id,
            record,
            origin_device_id,
            Some(&change.hash),
            meta,
            verdict,
            change.heads.as_slice(),
            mask,
            now_unix_nanos,
        ) {
            Ok(()) => Ok(change.hash),
            Err(error) => Err(error),
        }
    }

    /// Commits what a scan found, without a change. Metadata and observations
    /// are either left out or given one per record; `heads` are the group's.
    /// The first record the table refuses refuses the scan, and nothing of it
    /// is written.
    pub fn upsert_files_batch(
        &mut self,
        group_id: &str,
        records: &[FileRecord],
        origin_device_id: &str,
        metas: &[Option<LocalFileMetaColumns>],
        observed: &[Option<ImportedActualState>],
        heads: &[ChangeHash],
        mask: u32,
        now_unix_nanos: Option<i64>,
    ) -> (result: Result<(), SyncSqliteError>)
        requires
            old(self)@.well_formed(),
            has_room(old(self)@.files, records@.len() as int),
        ensures
            final(self)@.well_formed(),
            index_changed(
                scan(
                    old(self)@,
                    group_id@,
                    records@,
                    origin_device_id@,
                    metas@,
                    observed@,
                    heads@,
                    mask,
                    now_unix_nanos,
                ),
                old(self)@,
                final(self)@,
                result,
            ),
    {
        if records.len() == 0 {
            return Ok(());
        }
        if metas.len() != 0 && metas.len() != records.len() {
            return Err(
                mismatch_error(
                    "upsert_files_batch length mismatch: ",
                    metas.len(),
                    " metas for ",
                    records.len(),
                    " records (metas must be empty or aligned 1:1 with records)",
                ),
            );
        }
        if observed.len() != 0 && observed.len() != records.len() {
            return Err(
                mismatch_error(
                    "upsert_files_batch length mismatch: ",
                    observed.len(),
                    " observations for ",
                    records.len(),
                    " records (observations must be empty or aligned 1:1 with records)",
                ),
            );
        }
        let ghost before = self@;
        let ghost items = scan_items(records@, metas@, observed@, heads@);
        let saved_files = copy_files(&self.files);
        let saved_proofs = copy_proofs(&self.proofs);
        let saved_counters = copy_counters(&self.root_set_generations);
        let mut i: usize = 0;
        assert(items.take(0) =~= Seq::empty());
        while i < records.len()
            invariant
                i <= records@.len(),
                records@.len() > 0,
                metas@.len() == 0 || metas@.len() == records@.len(),
                observed@.len() == 0 || observed@.len() == records@.len(),
                items == scan_items(records@, metas@, observed@, heads@),
                before == old(self)@,
                before.well_formed(),
                views_of_saved(saved_files, saved_proofs, saved_counters, before),
                self@.well_formed(),
                has_room(self@.files, records@.len() - i),
                captured(
                    before,
                    group_id@,
                    items.take(i as int),
                    origin_device_id@,
                    mask,
                    now_unix_nanos,
                ) is Ok,
                captured(
                    before,
                    group_id@,
                    items.take(i as int),
                    origin_device_id@,
                    mask,
                    now_unix_nanos,
                )->Ok_0 == self@,
                self@.pins == before.pins,
                self@.captures == before.captures,
                self@.changes == before.changes,
            decreases records@.len() - i,
        {
            let ghost item = items[i as int];
            let meta: Option<&LocalFileMetaColumns> = if metas.len() == 0 {
                None
            } else {
                match &metas[i] {
                    Some(meta) => Some(meta),
                    None => None,
                }
            };
            assert(described_by(meta) == aligned(metas@, i as int));
            let seen: Option<ImportedActualState> = if observed.len() == 0 {
                None
            } else {
                observed[i]
            };
            let verdict = match seen {
                Some(seen) => {
                    if !records[i].deleted {
                        Verdict::Present {
                            kind: seen.record_kind,
                            version: seen.version_hash,
                            identity: seen.filesystem_identity,
                        }
                    } else {
                        Verdict::Unproven
                    }
                },
                None => Verdict::Unproven,
            };
            proof {
                assert(items.take(i + 1).drop_last() =~= items.take(i as int));
                assert(items.take(i + 1).last() == item);
                lemma_capture(
                    self@,
                    group_id@,
                    item,
                    origin_device_id@,
                    mask,
                    now_unix_nanos,
                    records@.len() - i,
                );
            }
            match write_capture(
                self,
                group_id,
                &records[i],
                origin_device_id,
                None,
                meta,
                verdict,
                heads,
                mask,
                now_unix_nanos,
            ) {
                Ok(()) => {},
                Err(error) => {
                    proof {
                        lemma_captured_fails_early(
                            before,
                            group_id@,
                            items,
                            origin_device_id@,
                            mask,
                            now_unix_nanos,
                            i + 1,
                        );
                    }
                    self.files = saved_files;
                    self.proofs = saved_proofs;
                    self.root_set_generations = saved_counters;
                    return Err(error);
                },
            }
            i += 1;
        }
        assert(items.take(items.len() as int) =~= items);
        Ok(())
    }

    /// Commits a batch of captures under one change. One effect per record is
    /// required; metadata is either left out or given one per record. A record
    /// is proven where its evidence, its effect and what the change carries
    /// agree.
    pub fn upsert_files_batch_emitting_change(
        &mut self,
        group_id: &str,
        records: &[FileRecord],
        origin_device_id: &str,
        content: &ChangeContent,
        metas: &[Option<LocalFileMetaColumns>],
        actual_state: &[(String, LocalCaptureActualStateEvidence)],
        change: &EmittedChange,
        mask: u32,
        now_unix_nanos: Option<i64>,
    ) -> (result: Result<Option<ChangeHash>, SyncSqliteError>)
        requires
            old(self)@.well_formed(),
            has_room(old(self)@.files, records@.len() as int),
        ensures
            final(self)@.well_formed(),
            match batch(
                old(self)@,
                group_id@,
                records@,
                origin_device_id@,
                *content,
                metas@,
                actual_state@,
                change@,
                mask,
                now_unix_nanos,
            ) {
                Ok(index) => {
                    &&& result is Ok
                    &&& final(self)@ == index
                    &&& result->Ok_0 == if records@.len() == 0 {
                        None
                    } else {
                        Some(change.hash)
                    }
                },
                Err(failure) => result is Err && result->Err_0@ == failure && final(self)@
                    == old(self)@,
            },
            records@.len() > 0 && content.ops@.len() == records@.len() && (metas@.len() == 0
                || metas@.len() == records@.len()) ==> result is Ok,
    {
        if records.len() == 0 {
            return Ok(None);
        }
        if content.ops.len() != records.len() {
            return Err(
                mismatch_error(
                    "upsert_files_batch length mismatch: ",
                    content.ops.len(),
                    " ops for ",
                    records.len(),
                    " records (one op per record is required)",
                ),
            );
        }
        if metas.len() != 0 && metas.len() != records.len() {
            return Err(
                mismatch_error(
                    "upsert_files_batch length mismatch: ",
                    metas.len(),
                    " metas for ",
                    records.len(),
                    " records (metas must be empty or aligned 1:1 with records)",
                ),
            );
        }
        let ghost start = emitted(self@, group_id@, change.hash);
        let ghost items = batch_items(records@, change@, *content, metas@, actual_state@);
        proof {
            lemma_with_change_knows(self@.changes, group_id@, change.hash.0@, None);
            assert forall|k: int| #![trigger items[k]] 0 <= k < items.len() implies author_known(
                start.changes,
                group_id@,
                items[k].author,
            ) by {}
            lemma_authored_captures_are_written(
                start,
                group_id@,
                items,
                origin_device_id@,
                mask,
                now_unix_nanos,
            );
        }
        self.admit_change(group_id, &change.hash, None);
        let mut i: usize = 0;
        assert(items.take(0) =~= Seq::empty());
        while i < records.len()
            invariant
                i <= records@.len(),
                records@.len() > 0,
                content.ops@.len() == records@.len(),
                metas@.len() == 0 || metas@.len() == records@.len(),
                items == batch_items(records@, change@, *content, metas@, actual_state@),
                author_known(start.changes, group_id@, Some(change.hash)),
                start == emitted(old(self)@, group_id@, change.hash),
                self@.well_formed(),
                self@.changes == start.changes,
                has_room(self@.files, records@.len() - i),
                captured(
                    start,
                    group_id@,
                    items.take(i as int),
                    origin_device_id@,
                    mask,
                    now_unix_nanos,
                ) is Ok,
                captured(
                    start,
                    group_id@,
                    items.take(i as int),
                    origin_device_id@,
                    mask,
                    now_unix_nanos,
                )->Ok_0 == self@,
            decreases records@.len() - i,
        {
            let ghost item = items[i as int];
            let meta: Option<&LocalFileMetaColumns> = if metas.len() == 0 {
                None
            } else {
                match &metas[i] {
                    Some(meta) => Some(meta),
                    None => None,
                }
            };
            assert(described_by(meta) == aligned(metas@, i as int));
            let verdict = verdict_of_batch(
                records[i].deleted,
                find_evidence(actual_state, records[i].path.as_str()),
                &content.ops[i],
                content.versions,
            );
            proof {
                assert(items.take(i + 1).drop_last() =~= items.take(i as int));
                assert(items.take(i + 1).last() == item);
                lemma_authored_capture_is_written(
                    self@,
                    group_id@,
                    item,
                    origin_device_id@,
                    mask,
                    now_unix_nanos,
                );
                lemma_capture(
                    self@,
                    group_id@,
                    item,
                    origin_device_id@,
                    mask,
                    now_unix_nanos,
                    records@.len() - i,
                );
            }
            match write_capture(
                self,
                group_id,
                &records[i],
                origin_device_id,
                Some(&change.hash),
                meta,
                verdict,
                change.heads.as_slice(),
                mask,
                now_unix_nanos,
            ) {
                Ok(()) => {},
                Err(error) => {
                    return Err(error);
                },
            }
            i += 1;
        }
        assert(items.take(items.len() as int) =~= items);
        Ok(Some(change.hash))
    }
}

/// The saved tables are those of the index.
pub open spec fn views_of_saved(
    files: Vec<crate::file_rows::FileRow>,
    proofs: Vec<crate::file_rows::ProofRow>,
    counters: Vec<crate::file_rows::RootSetGeneration>,
    index: FileIndex,
) -> bool {
    crate::rows::views(files@) == index.files && crate::rows::views(proofs@) == index.proofs
        && crate::rows::views(counters@) == index.generations
}

} // verus!
