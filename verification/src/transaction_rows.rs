//! The rows of the transaction journal and their models.

use vstd::prelude::*;

use crate::identity::{DirectoryIdentity, FileIdentity};
use crate::path_key::{end_of, key_of};
use crate::rows::views;
use crate::text::copy_opt_str;
use crate::vocabulary::{
    DurabilityLevel, EpochState, FilesystemTransactionKind, PlacementRole, ReservationRole,
    ReservationScope, TransactionCause, TransactionPhase,
};

verus! {

/// The hash of a change.
#[derive(Debug, Clone, Copy, PartialEq, Eq)]
pub struct ChangeHash(pub [u8; 32]);

/// The name of a materialized generation.
#[derive(Debug, PartialEq, Eq)]
pub struct GenerationId(pub String);

/// The text of an optional string.
pub open spec fn opt_text(text: Option<String>) -> Option<Seq<char>> {
    match text {
        Some(inner) => Some(inner@),
        None => None,
    }
}

/// The text of an optional string slice.
pub open spec fn opt_str(text: Option<&str>) -> Option<Seq<char>> {
    match text {
        Some(inner) => Some(inner@),
        None => None,
    }
}

/// The bytes of an optional vector.
pub open spec fn opt_bytes(bytes: Option<Vec<u8>>) -> Option<Seq<u8>> {
    match bytes {
        Some(inner) => Some(inner@),
        None => None,
    }
}

/// The name of an optional generation.
pub open spec fn opt_generation(id: Option<GenerationId>) -> Option<Seq<char>> {
    match id {
        Some(inner) => Some(inner.0@),
        None => None,
    }
}

/// A transaction of the journal.
#[derive(Debug, PartialEq)]
pub struct FilesystemTransactionRecord {
    pub transaction_id: String,
    pub group_id: String,
    pub source_path: String,
    pub kind: FilesystemTransactionKind,
    pub cause: TransactionCause,
    pub trigger_change_hash: Option<ChangeHash>,
    pub desired_frontier_hash: [u8; 32],
    pub plan_revision: i64,
    pub execution_generation: i64,
    pub epoch_watermark: i64,
    pub phase: TransactionPhase,
    pub blocked_reason: Option<String>,
    pub created_at_unix_nanos: i64,
    pub updated_at_unix_nanos: i64,
}

/// The model of a [`FilesystemTransactionRecord`].
pub struct TransactionRow {
    pub transaction_id: Seq<char>,
    pub group_id: Seq<char>,
    pub source_path: Seq<char>,
    pub kind: FilesystemTransactionKind,
    pub cause: TransactionCause,
    pub trigger_change_hash: Option<ChangeHash>,
    pub desired_frontier_hash: [u8; 32],
    pub plan_revision: int,
    pub execution_generation: int,
    pub epoch_watermark: int,
    pub phase: TransactionPhase,
    pub blocked_reason: Option<Seq<char>>,
    pub created_at: int,
    pub updated_at: int,
}

impl View for FilesystemTransactionRecord {
    type V = TransactionRow;

    open spec fn view(&self) -> TransactionRow {
        TransactionRow {
            transaction_id: self.transaction_id@,
            group_id: self.group_id@,
            source_path: self.source_path@,
            kind: self.kind,
            cause: self.cause,
            trigger_change_hash: self.trigger_change_hash,
            desired_frontier_hash: self.desired_frontier_hash,
            plan_revision: self.plan_revision as int,
            execution_generation: self.execution_generation as int,
            epoch_watermark: self.epoch_watermark as int,
            phase: self.phase,
            blocked_reason: opt_text(self.blocked_reason),
            created_at: self.created_at_unix_nanos as int,
            updated_at: self.updated_at_unix_nanos as int,
        }
    }
}

impl FilesystemTransactionRecord {
    /// A copy of the record.
    pub fn copy(&self) -> (copy: Self)
        ensures
            copy@ == self@,
    {
        FilesystemTransactionRecord {
            transaction_id: self.transaction_id.clone(),
            group_id: self.group_id.clone(),
            source_path: self.source_path.clone(),
            kind: self.kind,
            cause: self.cause,
            trigger_change_hash: self.trigger_change_hash,
            desired_frontier_hash: self.desired_frontier_hash,
            plan_revision: self.plan_revision,
            execution_generation: self.execution_generation,
            epoch_watermark: self.epoch_watermark,
            phase: self.phase,
            blocked_reason: copy_opt_str(&self.blocked_reason),
            created_at_unix_nanos: self.created_at_unix_nanos,
            updated_at_unix_nanos: self.updated_at_unix_nanos,
        }
    }
}

/// What a new transaction is for.
pub struct NewFilesystemTransaction<'a> {
    pub group_id: &'a str,
    pub source_path: &'a str,
    pub kind: FilesystemTransactionKind,
    pub cause: TransactionCause,
    pub trigger_change_hash: Option<&'a ChangeHash>,
    pub desired_frontier_hash: [u8; 32],
}

/// A placement epoch to be allocated.
pub struct NewEpoch<'a> {
    pub transaction_id: &'a str,
    pub epoch: i64,
    pub plan_revision: i64,
    pub target_path: &'a str,
    pub placement_role: PlacementRole,
    pub target_generation: &'a [u8],
    pub parent_directory_identity: &'a DirectoryIdentity,
    pub capability_snapshot: &'a [u8],
    pub durability_level: DurabilityLevel,
}

/// What an epoch learns on a transition. What is absent here keeps what the
/// row already holds.
pub struct EpochUpdate<'a> {
    pub displaced_generation_id: Option<&'a GenerationId>,
    pub displaced_snapshot: Option<&'a [u8]>,
    pub stage_path: Option<&'a str>,
    pub preimage_path: Option<&'a str>,
    pub backup_path: Option<&'a str>,
    pub staged_identity: Option<&'a FileIdentity>,
    pub displaced_identity: Option<&'a FileIdentity>,
    pub classification_result: Option<&'a str>,
    pub captured_change_hash: Option<&'a ChangeHash>,
    pub unresolved_block_reason: Option<&'a str>,
}

impl<'a> Default for EpochUpdate<'a> {
    fn default() -> (update: Self)
        ensures
            update == (EpochUpdate::<'a> {
                displaced_generation_id: None,
                displaced_snapshot: None,
                stage_path: None,
                preimage_path: None,
                backup_path: None,
                staged_identity: None,
                displaced_identity: None,
                classification_result: None,
                captured_change_hash: None,
                unresolved_block_reason: None,
            }),
    {
        EpochUpdate {
            displaced_generation_id: None,
            displaced_snapshot: None,
            stage_path: None,
            preimage_path: None,
            backup_path: None,
            staged_identity: None,
            displaced_identity: None,
            classification_result: None,
            captured_change_hash: None,
            unresolved_block_reason: None,
        }
    }
}

/// A placement epoch of the journal.
#[derive(Debug)]
pub struct EpochRecord {
    pub transaction_id: String,
    pub epoch: i64,
    pub plan_revision: i64,
    pub target_path: String,
    pub placement_role: PlacementRole,
    pub phase: EpochState,
    pub displaced_generation_id: Option<GenerationId>,
    pub target_generation: Vec<u8>,
    pub parent_directory_identity: DirectoryIdentity,
    pub displaced_snapshot: Option<Vec<u8>>,
    pub stage_path: Option<String>,
    pub preimage_path: Option<String>,
    pub backup_path: Option<String>,
    pub staged_identity: Option<FileIdentity>,
    pub displaced_identity: Option<FileIdentity>,
    pub capability_snapshot: Vec<u8>,
    pub durability_level: DurabilityLevel,
    pub classification_result: Option<String>,
    pub captured_change_hash: Option<ChangeHash>,
    pub unresolved_block_reason: Option<String>,
    pub created_at_unix_nanos: i64,
    pub updated_at_unix_nanos: i64,
}

/// The model of an [`EpochRecord`].
pub struct EpochRow {
    pub transaction_id: Seq<char>,
    pub epoch: int,
    pub plan_revision: int,
    pub target_path: Seq<char>,
    pub placement_role: PlacementRole,
    pub phase: EpochState,
    pub displaced_generation_id: Option<Seq<char>>,
    pub target_generation: Seq<u8>,
    pub parent_directory_identity: DirectoryIdentity,
    pub displaced_snapshot: Option<Seq<u8>>,
    pub stage_path: Option<Seq<char>>,
    pub preimage_path: Option<Seq<char>>,
    pub backup_path: Option<Seq<char>>,
    pub staged_identity: Option<FileIdentity>,
    pub displaced_identity: Option<FileIdentity>,
    pub capability_snapshot: Seq<u8>,
    pub durability_level: DurabilityLevel,
    pub classification_result: Option<Seq<char>>,
    pub captured_change_hash: Option<ChangeHash>,
    pub unresolved_block_reason: Option<Seq<char>>,
    pub created_at: int,
    pub updated_at: int,
}

impl View for EpochRecord {
    type V = EpochRow;

    open spec fn view(&self) -> EpochRow {
        EpochRow {
            transaction_id: self.transaction_id@,
            epoch: self.epoch as int,
            plan_revision: self.plan_revision as int,
            target_path: self.target_path@,
            placement_role: self.placement_role,
            phase: self.phase,
            displaced_generation_id: opt_generation(self.displaced_generation_id),
            target_generation: self.target_generation@,
            parent_directory_identity: self.parent_directory_identity,
            displaced_snapshot: opt_bytes(self.displaced_snapshot),
            stage_path: opt_text(self.stage_path),
            preimage_path: opt_text(self.preimage_path),
            backup_path: opt_text(self.backup_path),
            staged_identity: self.staged_identity,
            displaced_identity: self.displaced_identity,
            capability_snapshot: self.capability_snapshot@,
            durability_level: self.durability_level,
            classification_result: opt_text(self.classification_result),
            captured_change_hash: self.captured_change_hash,
            unresolved_block_reason: opt_text(self.unresolved_block_reason),
            created_at: self.created_at_unix_nanos as int,
            updated_at: self.updated_at_unix_nanos as int,
        }
    }
}

/// Copies bytes.
pub fn copy_bytes(bytes: &Vec<u8>) -> (copy: Vec<u8>)
    ensures
        copy@ == bytes@,
{
    vstd::slice::slice_to_vec(bytes.as_slice())
}

/// Copies optional bytes.
pub fn copy_opt_bytes(bytes: &Option<Vec<u8>>) -> (copy: Option<Vec<u8>>)
    ensures
        opt_bytes(copy) == opt_bytes(*bytes),
{
    match bytes {
        Some(inner) => Some(copy_bytes(inner)),
        None => None,
    }
}

fn copy_opt_generation(id: &Option<GenerationId>) -> (copy: Option<GenerationId>)
    ensures
        opt_generation(copy) == opt_generation(*id),
{
    match id {
        Some(inner) => Some(GenerationId(inner.0.clone())),
        None => None,
    }
}

impl EpochRecord {
    /// A copy of the record.
    pub fn copy(&self) -> (copy: Self)
        ensures
            copy@ == self@,
    {
        EpochRecord {
            transaction_id: self.transaction_id.clone(),
            epoch: self.epoch,
            plan_revision: self.plan_revision,
            target_path: self.target_path.clone(),
            placement_role: self.placement_role,
            phase: self.phase,
            displaced_generation_id: copy_opt_generation(&self.displaced_generation_id),
            target_generation: copy_bytes(&self.target_generation),
            parent_directory_identity: self.parent_directory_identity,
            displaced_snapshot: copy_opt_bytes(&self.displaced_snapshot),
            stage_path: copy_opt_str(&self.stage_path),
            preimage_path: copy_opt_str(&self.preimage_path),
            backup_path: copy_opt_str(&self.backup_path),
            staged_identity: self.staged_identity,
            displaced_identity: self.displaced_identity,
            capability_snapshot: copy_bytes(&self.capability_snapshot),
            durability_level: self.durability_level,
            classification_result: copy_opt_str(&self.classification_result),
            captured_change_hash: self.captured_change_hash,
            unresolved_block_reason: copy_opt_str(&self.unresolved_block_reason),
            created_at_unix_nanos: self.created_at_unix_nanos,
            updated_at_unix_nanos: self.updated_at_unix_nanos,
        }
    }
}

/// A reservation as callers see it.
#[derive(Debug, PartialEq, Eq)]
pub struct ReservationRecord {
    pub reservation_id: String,
    pub group_id: String,
    pub transaction_id: String,
    pub scope: ReservationScope,
    pub path: String,
    pub role: ReservationRole,
    pub created_at_unix_nanos: i64,
}

/// A reservation as it is stored: with the key range it occupies.
#[derive(Debug, PartialEq, Eq)]
pub struct StoredReservation {
    pub record: ReservationRecord,
    pub path_key: Vec<u8>,
    pub subtree_end_key: Vec<u8>,
}

/// The model of a [`ReservationRecord`].
pub struct ReservationRow {
    pub reservation_id: Seq<char>,
    pub group_id: Seq<char>,
    pub transaction_id: Seq<char>,
    pub scope: ReservationScope,
    pub path: Seq<char>,
    pub role: ReservationRole,
    pub created_at: int,
}

/// The model of a [`StoredReservation`].
pub struct HeldRow {
    pub reservation: ReservationRow,
    pub start: Seq<u8>,
    pub end: Seq<u8>,
}

impl View for ReservationRecord {
    type V = ReservationRow;

    open spec fn view(&self) -> ReservationRow {
        ReservationRow {
            reservation_id: self.reservation_id@,
            group_id: self.group_id@,
            transaction_id: self.transaction_id@,
            scope: self.scope,
            path: self.path@,
            role: self.role,
            created_at: self.created_at_unix_nanos as int,
        }
    }
}

impl View for StoredReservation {
    type V = HeldRow;

    open spec fn view(&self) -> HeldRow {
        HeldRow {
            reservation: self.record@,
            start: self.path_key@,
            end: self.subtree_end_key@,
        }
    }
}

impl ReservationRecord {
    /// A copy of the record.
    pub fn copy(&self) -> (copy: Self)
        ensures
            copy@ == self@,
    {
        ReservationRecord {
            reservation_id: self.reservation_id.clone(),
            group_id: self.group_id.clone(),
            transaction_id: self.transaction_id.clone(),
            scope: self.scope,
            path: self.path.clone(),
            role: self.role,
            created_at_unix_nanos: self.created_at_unix_nanos,
        }
    }
}

/// The transaction journal: transactions, their placement epochs, and the
/// reservations they hold.
pub struct TransactionStore {
    pub transactions: Vec<FilesystemTransactionRecord>,
    pub epochs: Vec<EpochRecord>,
    pub reservations: Vec<StoredReservation>,
}

/// The model of a [`TransactionStore`]: each table's rows in insertion order.
pub struct Journal {
    pub transactions: Seq<TransactionRow>,
    pub epochs: Seq<EpochRow>,
    pub reservations: Seq<HeldRow>,
}

impl View for TransactionStore {
    type V = Journal;

    open spec fn view(&self) -> Journal {
        Journal {
            transactions: views(self.transactions@),
            epochs: views(self.epochs@),
            reservations: views(self.reservations@),
        }
    }
}

/// The row is the transaction of that id.
pub open spec fn is_transaction(id: Seq<char>) -> spec_fn(TransactionRow) -> bool {
    |row: TransactionRow| row.transaction_id == id
}

/// The row is that epoch of that transaction.
pub open spec fn is_epoch(id: Seq<char>, epoch: int) -> spec_fn(EpochRow) -> bool {
    |row: EpochRow| row.transaction_id == id && row.epoch == epoch
}

/// The row is an epoch of that transaction.
pub open spec fn is_epoch_of(id: Seq<char>) -> spec_fn(EpochRow) -> bool {
    |row: EpochRow| row.transaction_id == id
}

/// The row is a reservation of that transaction.
pub open spec fn is_held_by(id: Seq<char>) -> spec_fn(HeldRow) -> bool {
    |row: HeldRow| row.reservation.transaction_id == id
}

impl Journal {
    /// What the primary keys guarantee, and that every reservation occupies
    /// the range of the path it names.
    pub open spec fn well_formed(self) -> bool {
        &&& forall|i: int, j: int|
            #![trigger self.transactions[i], self.transactions[j]]
            0 <= i < j < self.transactions.len() ==> self.transactions[i].transaction_id
                != self.transactions[j].transaction_id
        &&& forall|i: int, j: int|
            #![trigger self.epochs[i], self.epochs[j]]
            0 <= i < j < self.epochs.len() ==> !(self.epochs[i].transaction_id
                == self.epochs[j].transaction_id && self.epochs[i].epoch == self.epochs[j].epoch)
        &&& forall|i: int|
            #![trigger self.reservations[i]]
            0 <= i < self.reservations.len() ==> holds_its_range(self.reservations[i])
        &&& forall|i: int, j: int|
            #![trigger self.reservations[i], self.reservations[j]]
            0 <= i < j < self.reservations.len()
                ==> self.reservations[i].reservation.reservation_id
                != self.reservations[j].reservation.reservation_id
    }
}

/// The stored key range is that of the stored path.
pub open spec fn holds_its_range(row: HeldRow) -> bool {
    &&& key_of(row.reservation.path) == Ok::<_, crate::error::Failure>(row.start)
    &&& row.end == end_of(row.start)
}

} // verus!
