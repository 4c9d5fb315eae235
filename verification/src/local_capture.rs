//! Committing what this device read off its own disk: the version, its
//! metadata and the proof of it, together.

use vstd::prelude::*;

use crate::actual_state::{
    adopt_local_capture_absent_state, adopt_local_capture_actual_state, proven_absent,
    proven_present, retire_unproven_actual_state_in_tx, unproven, with_capture,
};
use crate::error::{Failure, SyncSqliteError};
use crate::file_metadata::{
    apply_local_meta_columns_in_tx, column_changed, current_changed, lemma_change_keeps_history,
    stamp_hydrated_after_local_emission_in_tx, with_materialization, with_meta, without_claim,
};
use crate::file_rows::{
    is_history, Capture, FileEntry, FileIndex, FileIndexRepository, FileRecord,
    LocalFileMetaColumns, VersionHash,
};
use crate::file_upsert::{
    authored_by, has_room, lemma_written_is_history, new_version, upsert, upsert_file_in_tx,
};
use crate::identity::FileIdentity;
use crate::index_vocabulary::{MaterializationState, RecordKind};
use crate::root_counter::touched;
use crate::transaction_rows::ChangeHash;

verus! {

/// One effect of a change on a path.
#[derive(Debug, PartialEq, Eq)]
pub enum Op {
    Put { path: String, version: VersionHash },
    Delete { path: String },
    Move { from: String, to: String },
}

/// A file version a change carries.
#[derive(Debug, Clone, Copy, PartialEq, Eq)]
pub struct CarriedVersion {
    pub version_hash: VersionHash,
    pub record_kind: RecordKind,
}

/// What a change to be emitted consists of.
pub struct ChangeContent<'a> {
    pub ops: &'a [Op],
    pub versions: &'a [CarriedVersion],
}

/// What a scan observed of a path: the object itself, and the version its
/// content amounts to.
#[derive(Debug, Clone, Copy, PartialEq, Eq)]
pub struct ImportedActualState {
    pub filesystem_identity: FileIdentity,
    pub record_kind: RecordKind,
    pub version_hash: VersionHash,
}

/// What a local capture observed of a path while it held the path's lock.
#[derive(Debug, Clone, Copy, PartialEq, Eq)]
pub enum LocalCaptureActualStateEvidence {
    Present { filesystem_identity: FileIdentity },
    Absent,
}

/// A local mutation ready to be committed.
#[derive(Debug, PartialEq, Eq)]
pub enum PreparedLocalMutation {
    Upsert {
        record: FileRecord,
        op: Op,
        version: CarriedVersion,
        meta: Option<LocalFileMetaColumns>,
    },
    Delete { record: FileRecord, op: Op },
}

/// A change as the log took it, and the heads the group had right after.
#[derive(Debug, PartialEq, Eq)]
pub struct EmittedChange {
    pub hash: ChangeHash,
    pub heads: Vec<ChangeHash>,
}

/// The model of an [`EmittedChange`].
pub struct Emitted {
    pub hash: ChangeHash,
    pub heads: Seq<ChangeHash>,
}

impl View for EmittedChange {
    type V = Emitted;

    open spec fn view(&self) -> Emitted {
        Emitted { hash: self.hash, heads: self.heads@ }
    }
}

/// The hashes of emitted changes.
pub open spec fn hashes_of(changes: Seq<Emitted>) -> Seq<ChangeHash> {
    changes.map_values(|change: Emitted| change.hash)
}

/// What a write may claim of the disk.
#[derive(Debug, Clone, Copy, PartialEq, Eq)]
pub enum Verdict {
    Present { kind: RecordKind, version: VersionHash, identity: FileIdentity },
    Absent,
    Unproven,
}

/// A capture to be written, and the heads the group has as it is.
pub struct CaptureItem {
    pub entry: FileEntry,
    pub author: Option<ChangeHash>,
    pub meta: Option<LocalFileMetaColumns>,
    pub verdict: Verdict,
    pub heads: Seq<ChangeHash>,
}

/// The index after what is known of the disk is put on record.
pub open spec fn settled(
    index: FileIndex,
    group: Seq<char>,
    path: Seq<char>,
    verdict: Verdict,
    heads: Seq<ChangeHash>,
) -> FileIndex {
    match verdict {
        Verdict::Present { kind, version, identity } => proven_present(
            index,
            group,
            path,
            kind,
            version,
            identity,
            heads,
        ),
        Verdict::Absent => proven_absent(index, group, path, heads),
        Verdict::Unproven => unproven(index, group, path),
    }
}

/// The index after metadata is written onto the current version, where any
/// was read.
pub open spec fn described(
    index: FileIndex,
    group: Seq<char>,
    path: Seq<char>,
    meta: Option<LocalFileMetaColumns>,
    mask: u32,
) -> FileIndex {
    match meta {
        Some(meta) => column_changed(index, group, path, with_meta(meta, mask)),
        None => index,
    }
}

/// Writing one capture: the record, which change it was read for, its
/// metadata, and what is known of the disk.
pub open spec fn capture(
    index: FileIndex,
    group: Seq<char>,
    item: CaptureItem,
    origin: Seq<char>,
    mask: u32,
    now: Option<i64>,
) -> Result<FileIndex, Failure> {
    match upsert(
        index.files,
        index.changes,
        new_version(index.changes, group, item.entry, origin, item.author, now),
    ) {
        Err(failure) => Err(failure),
        Ok(files) => {
            let recorded = touched(
                FileIndex {
                    files,
                    captures: match item.author {
                        Some(hash) => with_capture(
                            index.captures,
                            Capture { group, path: item.entry.path, change: hash },
                        ),
                        None => index.captures,
                    },
                    ..index
                },
                group,
            );
            Ok(
                settled(
                    described(recorded, group, item.entry.path, item.meta, mask),
                    group,
                    item.entry.path,
                    item.verdict,
                    item.heads,
                ),
            )
        },
    }
}

/// Writing captures one after the other; the first refusal refuses them all.
pub open spec fn captured(
    index: FileIndex,
    group: Seq<char>,
    items: Seq<CaptureItem>,
    origin: Seq<char>,
    mask: u32,
    now: Option<i64>,
) -> Result<FileIndex, Failure>
    decreases items.len(),
{
    if items.len() == 0 {
        Ok(index)
    } else {
        match captured(index, group, items.drop_last(), origin, mask, now) {
            Err(failure) => Err(failure),
            Ok(index) => capture(index, group, items.last(), origin, mask, now),
        }
    }
}

/// The index changed as planned, or not at all.
pub open spec fn index_changed(
    plan: Result<FileIndex, Failure>,
    before: FileIndex,
    after: FileIndex,
    result: Result<(), SyncSqliteError>,
) -> bool {
    match plan {
        Ok(index) => result is Ok && after == index,
        Err(failure) => result is Err && result->Err_0@ == failure && after == before,
    }
}

/// A capture keeps the index well formed and takes one version number.
pub proof fn lemma_capture(
    index: FileIndex,
    group: Seq<char>,
    item: CaptureItem,
    origin: Seq<char>,
    mask: u32,
    now: Option<i64>,
    n: int,
)
    requires
        is_history(index.files),
        has_room(index.files, n),
        n >= 1,
    ensures
        capture(index, group, item, origin, mask, now) matches Ok(after) ==> has_room(
            after.files,
            n - 1,
        ) && is_history(after.files) && after.changes == index.changes,
{
    let new = new_version(index.changes, group, item.entry, origin, item.author, now);
    let path = item.entry.path;
    match upsert(index.files, index.changes, new) {
        Err(_) => {},
        Ok(files) => {
            lemma_written_is_history(index.files, new, n);
            let with_columns = match item.meta {
                Some(meta) => {
                    lemma_change_keeps_history(files, group, path, with_meta(meta, mask), n - 1);
                    current_changed(files, group, path, with_meta(meta, mask))
                },
                None => files,
            };
            lemma_change_keeps_history(
                with_columns,
                group,
                path,
                with_materialization(MaterializationState::Hydrated),
                n - 1,
            );
            lemma_change_keeps_history(with_columns, group, path, without_claim(), n - 1);
        },
    }
}

/// Writes one capture.
pub(crate) fn write_capture(
    index: &mut FileIndexRepository,
    group_id: &str,
    record: &FileRecord,
    origin_device_id: &str,
    author: Option<&ChangeHash>,
    meta: Option<&LocalFileMetaColumns>,
    verdict: Verdict,
    heads: &[ChangeHash],
    mask: u32,
    now_unix_nanos: Option<i64>,
) -> (result: Result<(), SyncSqliteError>)
    requires
        old(index)@.well_formed(),
        has_room(old(index)@.files, 1),
    ensures
        final(index)@.well_formed(),
        index_changed(
            capture(
                old(index)@,
                group_id@,
                CaptureItem {
                    entry: record@,
                    author: authored_by(author),
                    meta: described_by(meta),
                    verdict,
                    heads: heads@,
                },
                origin_device_id@,
                mask,
                now_unix_nanos,
            ),
            old(index)@,
            final(index)@,
            result,
        ),
{
    match upsert_file_in_tx(index, group_id, record, origin_device_id, author, now_unix_nanos) {
        Ok(()) => {},
        Err(error) => {
            return Err(error);
        },
    }
    match author {
        Some(hash) => index.record_local_capture(group_id, record.path.as_str(), hash),
        None => {},
    }
    match meta {
        Some(meta) => apply_local_meta_columns_in_tx(
            index,
            group_id,
            record.path.as_str(),
            meta,
            mask,
        ),
        None => {},
    }
    match verdict {
        Verdict::Present { kind, version, identity } => {
            adopt_local_capture_actual_state(
                index,
                group_id,
                record.path.as_str(),
                kind,
                &version,
                &identity,
                heads,
            );
            stamp_hydrated_after_local_emission_in_tx(index, group_id, record.path.as_str());
        },
        Verdict::Absent => {
            adopt_local_capture_absent_state(index, group_id, record.path.as_str(), heads);
        },
        Verdict::Unproven => {
            retire_unproven_actual_state_in_tx(index, group_id, record.path.as_str());
        },
    }
    Ok(())
}

/// The metadata behind a write.
pub open spec fn described_by(meta: Option<&LocalFileMetaColumns>) -> Option<
    LocalFileMetaColumns,
> {
    match meta {
        Some(meta) => Some(*meta),
        None => None,
    }
}

} // verus!
