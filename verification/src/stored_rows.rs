//! Reading transaction and epoch rows back from the columns they are stored in.

use vstd::prelude::*;

use crate::error::{Failure, SyncSqliteError};
use crate::identity::{
    decode_directory_identity, decoded, encode_directory_identity, encoded, FileIdentity,
};
use crate::text::{decimal, decimal_text, join, join3, quoted};
use crate::transaction_rows::{
    opt_bytes, opt_text, ChangeHash, EpochRecord, EpochRow, FilesystemTransactionRecord,
    GenerationId, TransactionRow,
};
use crate::vocabulary::{
    DurabilityLevel, EpochState, FilesystemTransactionKind, PlacementRole, TransactionCause,
    TransactionPhase,
};

verus! {

/// The columns of a stored transaction.
pub struct StoredTransaction {
    pub transaction_id: String,
    pub group_id: String,
    pub source_path: String,
    pub kind: String,
    pub cause: String,
    pub trigger_change_hash: Option<Vec<u8>>,
    pub desired_frontier_hash: Vec<u8>,
    pub plan_revision: i64,
    pub execution_generation: i64,
    pub epoch_watermark: i64,
    pub phase: String,
    pub blocked_reason: Option<String>,
    pub created_at_unix_nanos: i64,
    pub updated_at_unix_nanos: i64,
}

/// The array that holds the given 32 bytes.
pub open spec fn array32(bytes: Seq<u8>) -> [u8; 32] {
    choose|array: [u8; 32]| array@ == bytes
}

/// An array is the one its own bytes name.
pub proof fn lemma_array32(array: [u8; 32])
    ensures
        array32(array@) == array,
{
    let chosen = array32(array@);
    assert(chosen@ == array@);
    assert(chosen =~= array);
}

/// Copies 32 bytes into an array.
pub fn copy32(bytes: &[u8]) -> (array: [u8; 32])
    requires
        bytes@.len() == 32,
    ensures
        array@ == bytes@,
        array == array32(bytes@),
{
    let mut array: [u8; 32] = [0; 32];
    let mut i: usize = 0;
    while i < 32
        invariant
            i <= 32,
            bytes@.len() == 32,
            forall|j: int| 0 <= j < i ==> array@[j] == bytes@[j],
        decreases 32 - i,
    {
        array[i] = bytes[i];
        i += 1;
    }
    assert(array@ =~= bytes@);
    proof {
        lemma_array32(array);
    }
    array
}

/// A stored change hash, absent or of 32 bytes; else the failure given.
pub open spec fn stored_hash(bytes: Option<Seq<u8>>, otherwise: Failure) -> Result<
    Option<ChangeHash>,
    Failure,
> {
    match bytes {
        None => Ok(None),
        Some(bytes) => if bytes.len() == 32 {
            Ok(Some(ChangeHash(array32(bytes))))
        } else {
            Err(otherwise)
        },
    }
}

/// The failure for a stored name that none of the vocabulary's values has.
pub open spec fn unknown_name(column: Seq<char>, name: Seq<char>) -> Failure {
    Failure::CorruptState(column + quoted(name))
}

/// What a stored transaction reads back as. Of several faults the first one in
/// this order is reported: the two hashes, kind, cause, phase.
pub open spec fn read_transaction(stored: StoredTransaction) -> Result<TransactionRow, Failure> {
    let id = stored.transaction_id@;
    match stored_hash(
        opt_bytes(stored.trigger_change_hash),
        Failure::CorruptState("invalid trigger_change_hash length for transaction "@ + id),
    ) {
        Err(failure) => Err(failure),
        Ok(trigger_change_hash) => if stored.desired_frontier_hash@.len() != 32 {
            Err(Failure::CorruptState("invalid desired_frontier_hash length for transaction "@ + id))
        } else {
            match FilesystemTransactionKind::of_stored_name(stored.kind@) {
                None => Err(
                    unknown_name(
                        "unknown filesystem_transactions.transaction_kind "@,
                        stored.kind@,
                    ),
                ),
                Some(kind) => match TransactionCause::of_stored_name(stored.cause@) {
                    None => Err(
                        unknown_name("unknown filesystem_transactions.cause_kind "@, stored.cause@),
                    ),
                    Some(cause) => match TransactionPhase::of_stored_name(stored.phase@) {
                        None => Err(
                            unknown_name("unknown filesystem_transactions.phase "@, stored.phase@),
                        ),
                        Some(phase) => Ok(
                            TransactionRow {
                                transaction_id: id,
                                group_id: stored.group_id@,
                                source_path: stored.source_path@,
                                kind,
                                cause,
                                trigger_change_hash,
                                desired_frontier_hash: array32(stored.desired_frontier_hash@),
                                plan_revision: stored.plan_revision as int,
                                execution_generation: stored.execution_generation as int,
                                epoch_watermark: stored.epoch_watermark as int,
                                phase,
                                blocked_reason: opt_text(stored.blocked_reason),
                                created_at: stored.created_at_unix_nanos as int,
                                updated_at: stored.updated_at_unix_nanos as int,
                            },
                        ),
                    },
                },
            }
        },
    }
}

/// Reads a stored transaction back.
pub fn row_to_transaction(row: StoredTransaction) -> (result: Result<
    FilesystemTransactionRecord,
    SyncSqliteError,
>)
    ensures
        match result {
            Ok(record) => read_transaction(row) == Ok::<_, Failure>(record@),
            Err(error) => read_transaction(row) == Err::<TransactionRow, _>(error@),
        },
{
    let trigger_change_hash = match &row.trigger_change_hash {
        None => None,
        Some(bytes) => {
            if bytes.len() != 32 {
                return Err(
                    SyncSqliteError::CorruptState(
                        join(
                            "invalid trigger_change_hash length for transaction ",
                            row.transaction_id.as_str(),
                        ),
                    ),
                );
            }
            Some(ChangeHash(copy32(bytes.as_slice())))
        },
    };
    if row.desired_frontier_hash.len() != 32 {
        return Err(
            SyncSqliteError::CorruptState(
                join(
                    "invalid desired_frontier_hash length for transaction ",
                    row.transaction_id.as_str(),
                ),
            ),
        );
    }
    let desired_frontier_hash = copy32(row.desired_frontier_hash.as_slice());
    let kind = match FilesystemTransactionKind::from_db_str(row.kind.as_str()) {
        Ok(kind) => kind,
        Err(error) => {
            return Err(error);
        },
    };
    let cause = match TransactionCause::from_db_str(row.cause.as_str()) {
        Ok(cause) => cause,
        Err(error) => {
            return Err(error);
        },
    };
    let phase = match TransactionPhase::from_db_str(row.phase.as_str()) {
        Ok(phase) => phase,
        Err(error) => {
            return Err(error);
        },
    };
    Ok(
        FilesystemTransactionRecord {
            transaction_id: row.transaction_id,
            group_id: row.group_id,
            source_path: row.source_path,
            kind,
            cause,
            trigger_change_hash,
            desired_frontier_hash,
            plan_revision: row.plan_revision,
            execution_generation: row.execution_generation,
            epoch_watermark: row.epoch_watermark,
            phase,
            blocked_reason: row.blocked_reason,
            created_at_unix_nanos: row.created_at_unix_nanos,
            updated_at_unix_nanos: row.updated_at_unix_nanos,
        },
    )
}

/// The columns a transaction is stored in.
pub fn transaction_to_row(record: &FilesystemTransactionRecord) -> (row: StoredTransaction)
    ensures
        read_transaction(row) == Ok::<_, Failure>(record@),
{
    let trigger_change_hash = match &record.trigger_change_hash {
        Some(hash) => Some(vstd::slice::slice_to_vec(hash.0.as_slice())),
        None => None,
    };
    let row = StoredTransaction {
        transaction_id: record.transaction_id.clone(),
        group_id: record.group_id.clone(),
        source_path: record.source_path.clone(),
        kind: record.kind.as_db_str().to_owned(),
        cause: record.cause.as_db_str().to_owned(),
        trigger_change_hash,
        desired_frontier_hash: vstd::slice::slice_to_vec(record.desired_frontier_hash.as_slice()),
        plan_revision: record.plan_revision,
        execution_generation: record.execution_generation,
        epoch_watermark: record.epoch_watermark,
        phase: record.phase.as_db_str().to_owned(),
        blocked_reason: crate::text::copy_opt_str(&record.blocked_reason),
        created_at_unix_nanos: record.created_at_unix_nanos,
        updated_at_unix_nanos: record.updated_at_unix_nanos,
    };
    proof {
        crate::vocabulary::law_filesystem_transaction_kind_name_round_trips(record.kind);
        crate::vocabulary::law_transaction_cause_name_round_trips(record.cause);
        crate::vocabulary::law_transaction_phase_name_round_trips(record.phase);
        lemma_array32(record.desired_frontier_hash);
        if record.trigger_change_hash is Some {
            let hash = record.trigger_change_hash->0;
            lemma_array32(hash.0);
        }
    }
    row
}

/// The columns of a stored epoch. The two file identities come decoded by the
/// codec that owns their format, or with its complaint.
pub struct StoredEpoch {
    pub transaction_id: String,
    pub epoch: i64,
    pub plan_revision: i64,
    pub target_path: String,
    pub placement_role: String,
    pub phase: String,
    pub displaced_generation_id: Option<String>,
    pub target_generation: Vec<u8>,
    pub parent_directory_identity: Vec<u8>,
    pub displaced_snapshot: Option<Vec<u8>>,
    pub stage_path: Option<String>,
    pub preimage_path: Option<String>,
    pub backup_path: Option<String>,
    pub staged_identity: Option<Result<FileIdentity, String>>,
    pub displaced_identity: Option<Result<FileIdentity, String>>,
    pub capability_snapshot: Vec<u8>,
    pub durability_level: String,
    pub classification_result: Option<String>,
    pub captured_change_hash: Option<Vec<u8>>,
    pub unresolved_block_reason: Option<String>,
    pub created_at_unix_nanos: i64,
    pub updated_at_unix_nanos: i64,
}

/// A decoded identity column.
pub open spec fn stored_identity(column: Option<Result<FileIdentity, String>>) -> Result<
    Option<FileIdentity>,
    Failure,
> {
    match column {
        None => Ok(None),
        Some(Ok(identity)) => Ok(Some(identity)),
        Some(Err(complaint)) => Err(Failure::CorruptState(complaint@)),
    }
}

/// What a stored epoch reads back as. Of several faults the first one in this
/// order is reported: the captured hash, role, phase, directory identity, the
/// two file identities, durability.
pub open spec fn read_epoch(stored: StoredEpoch) -> Result<EpochRow, Failure> {
    let id = stored.transaction_id@;
    match stored_hash(
        opt_bytes(stored.captured_change_hash),
        Failure::CorruptState(
            "invalid captured_change_hash length for epoch "@ + id + "/"@ + decimal(
                stored.epoch as int,
            ),
        ),
    ) {
        Err(failure) => Err(failure),
        Ok(captured_change_hash) => match PlacementRole::of_stored_name(stored.placement_role@) {
            None => Err(
                unknown_name(
                    "unknown filesystem_transaction_epochs.placement_role "@,
                    stored.placement_role@,
                ),
            ),
            Some(placement_role) => match EpochState::of_stored_name(stored.phase@) {
                None => Err(
                    unknown_name("unknown filesystem_transaction_epochs.phase "@, stored.phase@),
                ),
                Some(phase) => match decoded(stored.parent_directory_identity@) {
                    Err(failure) => Err(failure),
                    Ok(parent_directory_identity) => match stored_identity(stored.staged_identity) {
                        Err(failure) => Err(failure),
                        Ok(staged_identity) => match stored_identity(stored.displaced_identity) {
                            Err(failure) => Err(failure),
                            Ok(displaced_identity) => match DurabilityLevel::of_stored_name(
                                stored.durability_level@,
                            ) {
                                None => Err(
                                    unknown_name(
                                        "unknown filesystem_transaction_epochs.durability_level "@,
                                        stored.durability_level@,
                                    ),
                                ),
                                Some(durability_level) => Ok(
                                    EpochRow {
                                        transaction_id: id,
                                        epoch: stored.epoch as int,
                                        plan_revision: stored.plan_revision as int,
                                        target_path: stored.target_path@,
                                        placement_role,
                                        phase,
                                        displaced_generation_id: opt_text(
                                            stored.displaced_generation_id,
                                        ),
                                        target_generation: stored.target_generation@,
                                        parent_directory_identity,
                                        displaced_snapshot: opt_bytes(stored.displaced_snapshot),
                                        stage_path: opt_text(stored.stage_path),
                                        preimage_path: opt_text(stored.preimage_path),
                                        backup_path: opt_text(stored.backup_path),
                                        staged_identity,
                                        displaced_identity,
                                        capability_snapshot: stored.capability_snapshot@,
                                        durability_level,
                                        classification_result: opt_text(
                                            stored.classification_result,
                                        ),
                                        captured_change_hash,
                                        unresolved_block_reason: opt_text(
                                            stored.unresolved_block_reason,
                                        ),
                                        created_at: stored.created_at_unix_nanos as int,
                                        updated_at: stored.updated_at_unix_nanos as int,
                                    },
                                ),
                            },
                        },
                    },
                },
            },
        },
    }
}

fn take_identity(column: Option<Result<FileIdentity, String>>) -> (result: Result<
    Option<FileIdentity>,
    SyncSqliteError,
>)
    ensures
        match result {
            Ok(identity) => stored_identity(column) == Ok::<_, Failure>(identity),
            Err(error) => stored_identity(column) == Err::<Option<FileIdentity>, _>(error@),
        },
{
    match column {
        None => Ok(None),
        Some(Ok(identity)) => Ok(Some(identity)),
        Some(Err(complaint)) => Err(SyncSqliteError::CorruptState(complaint)),
    }
}

/// Reads a stored epoch back.
pub fn row_to_epoch(row: StoredEpoch) -> (result: Result<EpochRecord, SyncSqliteError>)
    ensures
        match result {
            Ok(record) => read_epoch(row) == Ok::<_, Failure>(record@),
            Err(error) => read_epoch(row) == Err::<EpochRow, _>(error@),
        },
{
    let captured_change_hash = match &row.captured_change_hash {
        None => None,
        Some(bytes) => {
            if bytes.len() != 32 {
                let head = join3(
                    "invalid captured_change_hash length for epoch ",
                    row.transaction_id.as_str(),
                    "/",
                );
                return Err(
                    SyncSqliteError::CorruptState(
                        join(head.as_str(), decimal_text(row.epoch).as_str()),
                    ),
                );
            }
            Some(ChangeHash(copy32(bytes.as_slice())))
        },
    };
    let placement_role = match PlacementRole::from_db_str(row.placement_role.as_str()) {
        Ok(role) => role,
        Err(error) => {
            return Err(error);
        },
    };
    let phase = match EpochState::from_db_str(row.phase.as_str()) {
        Ok(phase) => phase,
        Err(error) => {
            return Err(error);
        },
    };
    let parent_directory_identity = match decode_directory_identity(
        row.parent_directory_identity.as_slice(),
    ) {
        Ok(identity) => identity,
        Err(error) => {
            return Err(error);
        },
    };
    let staged_identity = match take_identity(row.staged_identity) {
        Ok(identity) => identity,
        Err(error) => {
            return Err(error);
        },
    };
    let displaced_identity = match take_identity(row.displaced_identity) {
        Ok(identity) => identity,
        Err(error) => {
            return Err(error);
        },
    };
    let durability_level = match DurabilityLevel::from_db_str(row.durability_level.as_str()) {
        Ok(level) => level,
        Err(error) => {
            return Err(error);
        },
    };
    let displaced_generation_id = match row.displaced_generation_id {
        Some(id) => Some(GenerationId(id)),
        None => None,
    };
    Ok(
        EpochRecord {
            transaction_id: row.transaction_id,
            epoch: row.epoch,
            plan_revision: row.plan_revision,
            target_path: row.target_path,
            placement_role,
            phase,
            displaced_generation_id,
            target_generation: row.target_generation,
            parent_directory_identity,
            displaced_snapshot: row.displaced_snapshot,
            stage_path: row.stage_path,
            preimage_path: row.preimage_path,
            backup_path: row.backup_path,
            staged_identity,
            displaced_identity,
            capability_snapshot: row.capability_snapshot,
            durability_level,
            classification_result: row.classification_result,
            captured_change_hash,
            unresolved_block_reason: row.unresolved_block_reason,
            created_at_unix_nanos: row.created_at_unix_nanos,
            updated_at_unix_nanos: row.updated_at_unix_nanos,
        },
    )
}

/// The columns an epoch is stored in.
pub fn epoch_to_row(record: &EpochRecord) -> (row: StoredEpoch)
    ensures
        read_epoch(row) == Ok::<_, Failure>(record@),
        row.parent_directory_identity@ == encoded(record.parent_directory_identity),
{
    let copy = record.copy();
    let captured_change_hash = match &record.captured_change_hash {
        Some(hash) => Some(vstd::slice::slice_to_vec(hash.0.as_slice())),
        None => None,
    };
    let row = StoredEpoch {
        transaction_id: copy.transaction_id,
        epoch: copy.epoch,
        plan_revision: copy.plan_revision,
        target_path: copy.target_path,
        placement_role: copy.placement_role.db_str().to_owned(),
        phase: copy.phase.db_str().to_owned(),
        displaced_generation_id: match copy.displaced_generation_id {
            Some(id) => Some(id.0),
            None => None,
        },
        target_generation: copy.target_generation,
        parent_directory_identity: encode_directory_identity(&record.parent_directory_identity),
        displaced_snapshot: copy.displaced_snapshot,
        stage_path: copy.stage_path,
        preimage_path: copy.preimage_path,
        backup_path: copy.backup_path,
        staged_identity: match copy.staged_identity {
            Some(identity) => Some(Ok(identity)),
            None => None,
        },
        displaced_identity: match copy.displaced_identity {
            Some(identity) => Some(Ok(identity)),
            None => None,
        },
        capability_snapshot: copy.capability_snapshot,
        durability_level: copy.durability_level.as_db_str().to_owned(),
        classification_result: copy.classification_result,
        captured_change_hash,
        unresolved_block_reason: copy.unresolved_block_reason,
        created_at_unix_nanos: copy.created_at_unix_nanos,
        updated_at_unix_nanos: copy.updated_at_unix_nanos,
    };
    proof {
        crate::vocabulary::law_placement_role_name_round_trips(record.placement_role);
        crate::vocabulary::law_epoch_state_name_round_trips(record.phase);
        crate::vocabulary::law_durability_level_name_round_trips(record.durability_level);
        crate::identity::law_directory_identity_round_trips(
            record.parent_directory_identity,
            Seq::empty(),
        );
        if record.captured_change_hash is Some {
            let hash = record.captured_change_hash->0;
            lemma_array32(hash.0);
        }
    }
    row
}

} // verus!
