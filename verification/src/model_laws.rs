//! That the models the contracts speak of leave nothing of the stored rows out.

use vstd::prelude::*;

use crate::conflict_copies::ConflictCopyFile;
use crate::error::{texts, Failure, SyncSqliteError};
use crate::file_metadata::attributes;
use crate::file_rows::{
    stored_blocks, AdmittedChange, BlockInfo, CaptureRow, FileRecord, FileRow, PinnedDirectory,
    ProofRow, RootSetGeneration,
};
use crate::file_versions::{pin_keys, VersionRecord};
use crate::handoff_lease::{HandoffLease, StoredLease};
use crate::link::{FolderLink, HistoryFloor, LinkRow, RecoveryPath};
use crate::local_capture::EmittedChange;
use crate::local_decisions::SeenVersion;
use crate::recursive_operation::bounds;
use crate::recursive_part::RecursivePart;
use crate::root_recheck::RootDigest;
use crate::rows::views;
use crate::transaction_rows::{
    opt_bytes, opt_generation, opt_text, EpochRecord, FilesystemTransactionRecord,
    ReservationRecord, StoredReservation,
};
use crate::trash::TrashedFile;

verus! {

/// Lists are modelled item by item.
pub proof fn law_lists_are_modelled_item_by_item(
    pinned: Seq<(String, i64)>,
    strings: Seq<String>,
    xattrs: Seq<(String, Vec<u8>)>,
    parts: Seq<(usize, usize)>,
    i: int,
)
    ensures
        pin_keys(pinned).len() == pinned.len(),
        0 <= i < pinned.len() ==> pin_keys(pinned)[i] == (pinned[i].0@, pinned[i].1 as int),
        texts(strings).len() == strings.len(),
        0 <= i < strings.len() ==> texts(strings)[i] == strings[i]@,
        attributes(xattrs).len() == xattrs.len(),
        0 <= i < xattrs.len() ==> attributes(xattrs)[i] == (xattrs[i].0@, xattrs[i].1@),
        bounds(parts).len() == parts.len(),
        0 <= i < parts.len() ==> bounds(parts)[i] == (parts[i].0 as int, parts[i].1 as int),
{
}

/// An error is modelled as what it is: each kind of error by that kind of
/// failure, with what it names.
pub proof fn law_an_error_keeps_its_kind(error: SyncSqliteError)
    ensures
        error is NotImplemented <==> error@ is NotImplemented,
        error is CorruptState <==> error@ is CorruptState,
        error is NotFound <==> error@ is NotFound,
        error is InvalidInput <==> error@ is InvalidInput,
        error is AmbiguousLink <==> error@ is AmbiguousLink,
        error is ExecutionGenerationFenced <==> error@ is ExecutionGenerationFenced,
        error is TransitionRaced <==> error@ is TransitionRaced,
        error is ReservationConflict <==> error@ is ReservationConflict,
        error is DuplicateKey <==> error@ is DuplicateKey,
        error is ConstraintViolation <==> error@ is ConstraintViolation,
        error is ColumnConversion <==> error@ is ColumnConversion,
        error is Json <==> error@ is Json,
        error matches SyncSqliteError::ExecutionGenerationFenced {
            transaction_id,
            expected,
            current,
        } ==> error@ == (Failure::ExecutionGenerationFenced {
            transaction_id: transaction_id@,
            expected: expected as int,
            current: current as int,
        }),
        error matches SyncSqliteError::ReservationConflict {
            transaction_id,
            path,
            blocking_transaction_id,
        } ==> error@ == (Failure::ReservationConflict {
            transaction_id: transaction_id@,
            path: path@,
            blocking_transaction_id: blocking_transaction_id@,
        }),
{
}

/// The model of a conflict copy holds every column of it: two that are modelled alike are
/// alike.
pub proof fn law_the_model_of_conflict_copy_file_holds_every_column(
    a: ConflictCopyFile,
    b: ConflictCopyFile,
)
    requires
        a@ == b@,
    ensures
        a.path@ == b.path@,
        a.size == b.size,
        a.mtime_unix_nanos == b.mtime_unix_nanos,
        a.record_kind == b.record_kind,
{
}

/// The model of a block holds every column of it: two that are modelled alike are
/// alike.
pub proof fn law_the_model_of_block_info_holds_every_column(a: BlockInfo, b: BlockInfo)
    requires
        a@ == b@,
    ensures
        a.hash@ == b.hash@,
        a.offset == b.offset,
        a.size == b.size,
{
}

/// The model of a file record holds every column of it: two that are modelled alike are
/// alike.
pub proof fn law_the_model_of_file_record_holds_every_column(a: FileRecord, b: FileRecord)
    requires
        a@ == b@,
    ensures
        a.path@ == b.path@,
        a.size == b.size,
        a.mtime_unix_nanos == b.mtime_unix_nanos,
        views(a.blocks@) == views(b.blocks@),
        a.deleted == b.deleted,
{
}

/// The model of a row of the index holds every column of it: two that are modelled alike are
/// alike.
pub proof fn law_the_model_of_file_row_holds_every_column(a: FileRow, b: FileRow)
    requires
        a@ == b@,
    ensures
        a.group_id@ == b.group_id@,
        a.path@ == b.path@,
        a.size == b.size,
        a.mtime_unix_nanos == b.mtime_unix_nanos,
        stored_blocks(a.blocks) == stored_blocks(b.blocks),
        a.deleted == b.deleted,
        a.version_seq == b.version_seq,
        a.state == b.state,
        opt_text(a.origin_device_id) == opt_text(b.origin_device_id),
        opt_bytes(a.authoring_change_hash) == opt_bytes(b.authoring_change_hash),
        a.materialization_state == b.materialization_state,
        a.pinned == b.pinned,
        a.last_accessed_unix == b.last_accessed_unix,
        a.record_kind == b.record_kind,
        opt_bytes(a.symlink_target) == opt_bytes(b.symlink_target),
        a.unix_mode == b.unix_mode,
        opt_text(a.held_reason) == opt_text(b.held_reason),
        a.held_since_unix_nanos == b.held_since_unix_nanos,
        a.symlink_out_of_root == b.symlink_out_of_root,
        a.xattrs_json@ == b.xattrs_json@,
        a.admitted_at_unix_nanos == b.admitted_at_unix_nanos,
        opt_text(a.trashed_by_operation_author) == opt_text(b.trashed_by_operation_author),
        opt_bytes(a.trashed_by_operation_id) == opt_bytes(b.trashed_by_operation_id),
{
}

/// The model of a proof holds every column of it: two that are modelled alike are
/// alike.
pub proof fn law_the_model_of_proof_row_holds_every_column(a: ProofRow, b: ProofRow)
    requires
        a@ == b@,
    ensures
        a.group_id@ == b.group_id@,
        a.path@ == b.path@,
        a.object_kind == b.object_kind,
        a.version == b.version,
        a.filesystem_identity == b.filesystem_identity,
        a.causal_basis@ == b.causal_basis@,
        a.usable == b.usable,
{
}

/// The model of a capture holds every column of it: two that are modelled alike are
/// alike.
pub proof fn law_the_model_of_capture_row_holds_every_column(a: CaptureRow, b: CaptureRow)
    requires
        a@ == b@,
    ensures
        a.group_id@ == b.group_id@,
        a.path@ == b.path@,
        a.change_hash.0@ == b.change_hash.0@,
{
}

/// The model of a pinned directory holds every column of it: two that are modelled alike are
/// alike.
pub proof fn law_the_model_of_pinned_directory_holds_every_column(
    a: PinnedDirectory,
    b: PinnedDirectory,
)
    requires
        a@ == b@,
    ensures
        a.group_id@ == b.group_id@,
        a.prefix@ == b.prefix@,
{
}

/// The model of an admitted change holds every column of it: two that are modelled alike are
/// alike.
pub proof fn law_the_model_of_admitted_change_holds_every_column(
    a: AdmittedChange,
    b: AdmittedChange,
)
    requires
        a@ == b@,
    ensures
        a.group_id@ == b.group_id@,
        a.change_hash.0@ == b.change_hash.0@,
{
}

/// The model of a counter holds every column of it: two that are modelled alike are
/// alike.
pub proof fn law_the_model_of_root_set_generation_holds_every_column(
    a: RootSetGeneration,
    b: RootSetGeneration,
)
    requires
        a@ == b@,
    ensures
        a.group_id@ == b.group_id@,
        a.generation == b.generation,
{
}

/// The model of a version holds every column of it: two that are modelled alike are
/// alike.
pub proof fn law_the_model_of_version_record_holds_every_column(a: VersionRecord, b: VersionRecord)
    requires
        a@ == b@,
    ensures
        a.path@ == b.path@,
        a.version_seq == b.version_seq,
        a.size == b.size,
        a.mtime_unix_nanos == b.mtime_unix_nanos,
        views(a.blocks@) == views(b.blocks@),
        a.deleted == b.deleted,
        a.state == b.state,
        opt_text(a.origin_device_id) == opt_text(b.origin_device_id),
        a.record_kind == b.record_kind,
        opt_bytes(a.symlink_target) == opt_bytes(b.symlink_target),
        a.unix_mode == b.unix_mode,
        attributes(a.xattrs@) == attributes(b.xattrs@),
{
}

/// The model of a lease holds every column of it: two that are modelled alike are
/// alike.
pub proof fn law_the_model_of_handoff_lease_holds_every_column(a: HandoffLease, b: HandoffLease)
    requires
        a@ == b@,
    ensures
        a.lease_id@ == b.lease_id@,
        a.group_id@ == b.group_id@,
        a.root_digest@ == b.root_digest@,
        a.state == b.state,
        pin_keys(a.pinned_versions@) == pin_keys(b.pinned_versions@),
        a.created_at_unix == b.created_at_unix,
        a.expires_at_unix == b.expires_at_unix,
{
}

/// The model of a stored lease holds every column of it: two that are modelled alike are
/// alike.
pub proof fn law_the_model_of_stored_lease_holds_every_column(a: StoredLease, b: StoredLease)
    requires
        a@ == b@,
    ensures
        a.lease_id@ == b.lease_id@,
        a.group_id@ == b.group_id@,
        a.root_digest@ == b.root_digest@,
        a.state@ == b.state@,
        a.pinned_versions_json@ == b.pinned_versions_json@,
        a.created_at_unix == b.created_at_unix,
        a.expires_at_unix == b.expires_at_unix,
{
}

/// The model of a link holds every column of it: two that are modelled alike are
/// alike.
pub proof fn law_the_model_of_link_row_holds_every_column(a: LinkRow, b: LinkRow)
    requires
        a@ == b@,
    ensures
        a.local_path@ == b.local_path@,
        a.group_id@ == b.group_id@,
        a.paused == b.paused,
        a.materialization_policy == b.materialization_policy,
        a.max_local_size_bytes == b.max_local_size_bytes,
        a.orphaned == b.orphaned,
        opt_text(a.root_token) == opt_text(b.root_token),
        a.windows_symlink_opt_in == b.windows_symlink_opt_in,
        a.suppress_tombstones_until_scan == b.suppress_tombstones_until_scan,
{
}

/// The model of a recovery mark holds every column of it: two that are modelled alike are
/// alike.
pub proof fn law_the_model_of_recovery_path_holds_every_column(a: RecoveryPath, b: RecoveryPath)
    requires
        a@ == b@,
    ensures
        a.group_id@ == b.group_id@,
        a.path@ == b.path@,
{
}

/// The model of a history floor holds every column of it: two that are modelled alike are
/// alike.
pub proof fn law_the_model_of_history_floor_holds_every_column(a: HistoryFloor, b: HistoryFloor)
    requires
        a@ == b@,
    ensures
        a.group_id@ == b.group_id@,
        a.floor_unix_nanos == b.floor_unix_nanos,
{
}

/// The model of a shown link holds every column of it: two that are modelled alike are
/// alike.
pub proof fn law_the_model_of_folder_link_holds_every_column(a: FolderLink, b: FolderLink)
    requires
        a@ == b@,
    ensures
        a.local_path@ == b.local_path@,
        a.group_id@ == b.group_id@,
        a.paused == b.paused,
        a.materialization_policy == b.materialization_policy,
        a.max_local_size_bytes == b.max_local_size_bytes,
        a.orphaned == b.orphaned,
{
}

/// The model of an emitted change holds every column of it: two that are modelled alike are
/// alike.
pub proof fn law_the_model_of_emitted_change_holds_every_column(a: EmittedChange, b: EmittedChange)
    requires
        a@ == b@,
    ensures
        a.hash.0@ == b.hash.0@,
        a.heads@ == b.heads@,
{
}

/// The model of a version that was seen holds every column of it: two that are modelled alike are
/// alike.
pub proof fn law_the_model_of_seen_version_holds_every_column(a: SeenVersion, b: SeenVersion)
    requires
        a@ == b@,
    ensures
        a.path@ == b.path@,
        a.version.0@ == b.version.0@,
{
}

/// The model of a part's description holds every column of it: two that are modelled alike are
/// alike.
pub proof fn law_the_model_of_recursive_part_holds_every_column(a: RecursivePart, b: RecursivePart)
    requires
        a@ == b@,
    ensures
        a.operation_id@ == b.operation_id@,
        a.kind@ == b.kind@,
        a.part_index == b.part_index,
        a.part_count == b.part_count,
        a.effect_set_hash@ == b.effect_set_hash@,
{
}

/// The model of a digest of roots holds every column of it: two that are modelled alike are
/// alike.
pub proof fn law_the_model_of_root_digest_holds_every_column(a: RootDigest, b: RootDigest)
    requires
        a@ == b@,
    ensures
        views(a.roots@) == views(b.roots@),
        a.digest@ == b.digest@,
{
}

/// The model of a transaction holds every column of it: two that are modelled alike are
/// alike.
pub proof fn law_the_model_of_filesystem_transaction_record_holds_every_column(
    a: FilesystemTransactionRecord,
    b: FilesystemTransactionRecord,
)
    requires
        a@ == b@,
    ensures
        a.transaction_id@ == b.transaction_id@,
        a.group_id@ == b.group_id@,
        a.source_path@ == b.source_path@,
        a.kind == b.kind,
        a.cause == b.cause,
        a.trigger_change_hash == b.trigger_change_hash,
        a.desired_frontier_hash@ == b.desired_frontier_hash@,
        a.plan_revision == b.plan_revision,
        a.execution_generation == b.execution_generation,
        a.epoch_watermark == b.epoch_watermark,
        a.phase == b.phase,
        opt_text(a.blocked_reason) == opt_text(b.blocked_reason),
        a.created_at_unix_nanos == b.created_at_unix_nanos,
        a.updated_at_unix_nanos == b.updated_at_unix_nanos,
{
}

/// The model of an epoch holds every column of it: two that are modelled alike are
/// alike.
pub proof fn law_the_model_of_epoch_record_holds_every_column(a: EpochRecord, b: EpochRecord)
    requires
        a@ == b@,
    ensures
        a.transaction_id@ == b.transaction_id@,
        a.epoch == b.epoch,
        a.plan_revision == b.plan_revision,
        a.target_path@ == b.target_path@,
        a.placement_role == b.placement_role,
        a.phase == b.phase,
        opt_generation(a.displaced_generation_id) == opt_generation(b.displaced_generation_id),
        a.target_generation@ == b.target_generation@,
        a.parent_directory_identity == b.parent_directory_identity,
        opt_bytes(a.displaced_snapshot) == opt_bytes(b.displaced_snapshot),
        opt_text(a.stage_path) == opt_text(b.stage_path),
        opt_text(a.preimage_path) == opt_text(b.preimage_path),
        opt_text(a.backup_path) == opt_text(b.backup_path),
        a.staged_identity == b.staged_identity,
        a.displaced_identity == b.displaced_identity,
        a.capability_snapshot@ == b.capability_snapshot@,
        a.durability_level == b.durability_level,
        opt_text(a.classification_result) == opt_text(b.classification_result),
        a.captured_change_hash == b.captured_change_hash,
        opt_text(a.unresolved_block_reason) == opt_text(b.unresolved_block_reason),
        a.created_at_unix_nanos == b.created_at_unix_nanos,
        a.updated_at_unix_nanos == b.updated_at_unix_nanos,
{
}

/// The model of a reservation holds every column of it: two that are modelled alike are
/// alike.
pub proof fn law_the_model_of_reservation_record_holds_every_column(
    a: ReservationRecord,
    b: ReservationRecord,
)
    requires
        a@ == b@,
    ensures
        a.reservation_id@ == b.reservation_id@,
        a.group_id@ == b.group_id@,
        a.transaction_id@ == b.transaction_id@,
        a.scope == b.scope,
        a.path@ == b.path@,
        a.role == b.role,
        a.created_at_unix_nanos == b.created_at_unix_nanos,
{
}

/// The model of a held reservation holds every column of it: two that are modelled alike are
/// alike.
pub proof fn law_the_model_of_stored_reservation_holds_every_column(
    a: StoredReservation,
    b: StoredReservation,
)
    requires
        a@ == b@,
    ensures
        a.record@ == b.record@,
        a.path_key@ == b.path_key@,
        a.subtree_end_key@ == b.subtree_end_key@,
{
}

/// The model of a trashed file holds every column of it: two that are modelled alike are
/// alike.
pub proof fn law_the_model_of_trashed_file_holds_every_column(a: TrashedFile, b: TrashedFile)
    requires
        a@ == b@,
    ensures
        a.path@ == b.path@,
        a.version_seq == b.version_seq,
        a.last_known_size == b.last_known_size,
        opt_text(a.origin_device_id) == opt_text(b.origin_device_id),
        a.deleted_at_unix_nanos == b.deleted_at_unix_nanos,
        a.deleted_by_operation is Some <==> b.deleted_by_operation is Some,
        a.deleted_by_operation is Some ==> a.deleted_by_operation->0.author@
            == b.deleted_by_operation->0.author@,
        a.deleted_by_operation is Some ==> a.deleted_by_operation->0.operation_id@
            == b.deleted_by_operation->0.operation_id@,
        a.record_kind == b.record_kind,
{
}

} // verus!
