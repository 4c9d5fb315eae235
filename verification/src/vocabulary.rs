//! The closed vocabularies the transaction tables store by name.

use vstd::prelude::*;

use crate::error::{Failure, SyncSqliteError};
use crate::text::{join, quoted, quoted_text, str_eq};

verus! {

/// What kind of work a transaction does.
#[derive(Debug, Clone, Copy, PartialEq, Eq, Structural)]
pub enum FilesystemTransactionKind {
    ObjectResolution,
    SubtreeReplacement,
}

impl FilesystemTransactionKind {
    /// The stored name.
    pub open spec fn stored_name(self) -> Seq<char> {
        match self {
            FilesystemTransactionKind::ObjectResolution => "object_resolution"@,
            FilesystemTransactionKind::SubtreeReplacement => "subtree_replacement"@,
        }
    }

    /// The value a stored name stands for.
    pub open spec fn of_stored_name(name: Seq<char>) -> Option<FilesystemTransactionKind> {
        if name == "object_resolution"@ {
            Some(FilesystemTransactionKind::ObjectResolution)
        } else if name == "subtree_replacement"@ {
            Some(FilesystemTransactionKind::SubtreeReplacement)
        } else {
            None
        }
    }

    /// The name the kind is stored by.
    pub fn as_db_str(self) -> (name: &'static str)
        ensures
            name@ == self.stored_name(),
    {
        match self {
            FilesystemTransactionKind::ObjectResolution => "object_resolution",
            FilesystemTransactionKind::SubtreeReplacement => "subtree_replacement",
        }
    }

    /// Reads a stored kind.
    pub fn from_db_str(value: &str) -> (result: Result<FilesystemTransactionKind, SyncSqliteError>)
        ensures
            match result {
                Ok(found) => FilesystemTransactionKind::of_stored_name(value@) == Some(found),
                Err(error) => {
                    &&& FilesystemTransactionKind::of_stored_name(value@) is None
                    &&& error@ == Failure::CorruptState(
                        "unknown filesystem_transactions.transaction_kind "@ + quoted(value@),
                    )
                },
            },
    {
        if str_eq(value, "object_resolution") {
            Ok(FilesystemTransactionKind::ObjectResolution)
        } else if str_eq(value, "subtree_replacement") {
            Ok(FilesystemTransactionKind::SubtreeReplacement)
        } else {
            Err(
                SyncSqliteError::CorruptState(
                    join("unknown filesystem_transactions.transaction_kind ", quoted_text(value).as_str()),
                ),
            )
        }
    }
}

/// A stored name reads back as the value it was written for.
pub proof fn law_filesystem_transaction_kind_name_round_trips(value: FilesystemTransactionKind)
    ensures
        FilesystemTransactionKind::of_stored_name(value.stored_name()) == Some(value),
{
    reveal_strlit("object_resolution");
    reveal_strlit("subtree_replacement");
    assert("object_resolution"@.len() == 17);
    assert("subtree_replacement"@.len() == 19);
}

/// What set a transaction off.
#[derive(Debug, Clone, Copy, PartialEq, Eq, Structural)]
pub enum TransactionCause {
    PeerProjection,
    Hydration,
    Repair,
    Restore,
    RemoteDelete,
    Eviction,
    ConflictResolution,
    ConflictCopyRetirement,
}

impl TransactionCause {
    /// The stored name.
    pub open spec fn stored_name(self) -> Seq<char> {
        match self {
            TransactionCause::PeerProjection => "peer_projection"@,
            TransactionCause::Hydration => "hydration"@,
            TransactionCause::Repair => "repair"@,
            TransactionCause::Restore => "restore"@,
            TransactionCause::RemoteDelete => "remote_delete"@,
            TransactionCause::Eviction => "eviction"@,
            TransactionCause::ConflictResolution => "conflict_resolution"@,
            TransactionCause::ConflictCopyRetirement => "conflict_copy_retirement"@,
        }
    }

    /// The value a stored name stands for.
    pub open spec fn of_stored_name(name: Seq<char>) -> Option<TransactionCause> {
        if name == "peer_projection"@ {
            Some(TransactionCause::PeerProjection)
        } else if name == "hydration"@ {
            Some(TransactionCause::Hydration)
        } else if name == "repair"@ {
            Some(TransactionCause::Repair)
        } else if name == "restore"@ {
            Some(TransactionCause::Restore)
        } else if name == "remote_delete"@ {
            Some(TransactionCause::RemoteDelete)
        } else if name == "eviction"@ {
            Some(TransactionCause::Eviction)
        } else if name == "conflict_resolution"@ {
            Some(TransactionCause::ConflictResolution)
        } else if name == "conflict_copy_retirement"@ {
            Some(TransactionCause::ConflictCopyRetirement)
        } else {
            None
        }
    }

    /// The name the cause is stored by.
    pub fn as_db_str(self) -> (name: &'static str)
        ensures
            name@ == self.stored_name(),
    {
        match self {
            TransactionCause::PeerProjection => "peer_projection",
            TransactionCause::Hydration => "hydration",
            TransactionCause::Repair => "repair",
            TransactionCause::Restore => "restore",
            TransactionCause::RemoteDelete => "remote_delete",
            TransactionCause::Eviction => "eviction",
            TransactionCause::ConflictResolution => "conflict_resolution",
            TransactionCause::ConflictCopyRetirement => "conflict_copy_retirement",
        }
    }

    /// Reads a stored cause.
    pub fn from_db_str(value: &str) -> (result: Result<TransactionCause, SyncSqliteError>)
        ensures
            match result {
                Ok(found) => TransactionCause::of_stored_name(value@) == Some(found),
                Err(error) => {
                    &&& TransactionCause::of_stored_name(value@) is None
                    &&& error@ == Failure::CorruptState(
                        "unknown filesystem_transactions.cause_kind "@ + quoted(value@),
                    )
                },
            },
    {
        if str_eq(value, "peer_projection") {
            Ok(TransactionCause::PeerProjection)
        } else if str_eq(value, "hydration") {
            Ok(TransactionCause::Hydration)
        } else if str_eq(value, "repair") {
            Ok(TransactionCause::Repair)
        } else if str_eq(value, "restore") {
            Ok(TransactionCause::Restore)
        } else if str_eq(value, "remote_delete") {
            Ok(TransactionCause::RemoteDelete)
        } else if str_eq(value, "eviction") {
            Ok(TransactionCause::Eviction)
        } else if str_eq(value, "conflict_resolution") {
            Ok(TransactionCause::ConflictResolution)
        } else if str_eq(value, "conflict_copy_retirement") {
            Ok(TransactionCause::ConflictCopyRetirement)
        } else {
            Err(
                SyncSqliteError::CorruptState(
                    join("unknown filesystem_transactions.cause_kind ", quoted_text(value).as_str()),
                ),
            )
        }
    }
}

/// A stored name reads back as the value it was written for.
pub proof fn law_transaction_cause_name_round_trips(value: TransactionCause)
    ensures
        TransactionCause::of_stored_name(value.stored_name()) == Some(value),
{
    reveal_strlit("peer_projection");
    reveal_strlit("hydration");
    reveal_strlit("repair");
    reveal_strlit("restore");
    reveal_strlit("remote_delete");
    reveal_strlit("eviction");
    reveal_strlit("conflict_resolution");
    reveal_strlit("conflict_copy_retirement");
    assert("peer_projection"@.len() == 15);
    assert("hydration"@.len() == 9);
    assert("repair"@.len() == 6);
    assert("restore"@.len() == 7);
    assert("remote_delete"@.len() == 13);
    assert("eviction"@.len() == 8);
    assert("conflict_resolution"@.len() == 19);
    assert("conflict_copy_retirement"@.len() == 24);
}

/// Where a transaction stands in its saga.
#[derive(Debug, Clone, Copy, PartialEq, Eq, Structural)]
pub enum TransactionPhase {
    Planning,
    Committing,
    AsyncPreservation,
    Blocked,
    Completed,
}

impl TransactionPhase {
    /// The stored name.
    pub open spec fn stored_name(self) -> Seq<char> {
        match self {
            TransactionPhase::Planning => "planning"@,
            TransactionPhase::Committing => "committing"@,
            TransactionPhase::AsyncPreservation => "async_preservation"@,
            TransactionPhase::Blocked => "blocked"@,
            TransactionPhase::Completed => "completed"@,
        }
    }

    /// The value a stored name stands for.
    pub open spec fn of_stored_name(name: Seq<char>) -> Option<TransactionPhase> {
        if name == "planning"@ {
            Some(TransactionPhase::Planning)
        } else if name == "committing"@ {
            Some(TransactionPhase::Committing)
        } else if name == "async_preservation"@ {
            Some(TransactionPhase::AsyncPreservation)
        } else if name == "blocked"@ {
            Some(TransactionPhase::Blocked)
        } else if name == "completed"@ {
            Some(TransactionPhase::Completed)
        } else {
            None
        }
    }

    /// The name the value is shown by in messages.
    pub open spec fn shown_name(self) -> Seq<char> {
        match self {
            TransactionPhase::Planning => "Planning"@,
            TransactionPhase::Committing => "Committing"@,
            TransactionPhase::AsyncPreservation => "AsyncPreservation"@,
            TransactionPhase::Blocked => "Blocked"@,
            TransactionPhase::Completed => "Completed"@,
        }
    }

    /// Shows the value by its name.
    pub fn name(self) -> (name: &'static str)
        ensures
            name@ == self.shown_name(),
    {
        match self {
            TransactionPhase::Planning => "Planning",
            TransactionPhase::Committing => "Committing",
            TransactionPhase::AsyncPreservation => "AsyncPreservation",
            TransactionPhase::Blocked => "Blocked",
            TransactionPhase::Completed => "Completed",
        }
    }

    /// The name the phase is stored by.
    pub fn as_db_str(self) -> (name: &'static str)
        ensures
            name@ == self.stored_name(),
    {
        match self {
            TransactionPhase::Planning => "planning",
            TransactionPhase::Committing => "committing",
            TransactionPhase::AsyncPreservation => "async_preservation",
            TransactionPhase::Blocked => "blocked",
            TransactionPhase::Completed => "completed",
        }
    }

    /// Reads a stored phase.
    pub fn from_db_str(value: &str) -> (result: Result<TransactionPhase, SyncSqliteError>)
        ensures
            match result {
                Ok(found) => TransactionPhase::of_stored_name(value@) == Some(found),
                Err(error) => {
                    &&& TransactionPhase::of_stored_name(value@) is None
                    &&& error@ == Failure::CorruptState(
                        "unknown filesystem_transactions.phase "@ + quoted(value@),
                    )
                },
            },
    {
        if str_eq(value, "planning") {
            Ok(TransactionPhase::Planning)
        } else if str_eq(value, "committing") {
            Ok(TransactionPhase::Committing)
        } else if str_eq(value, "async_preservation") {
            Ok(TransactionPhase::AsyncPreservation)
        } else if str_eq(value, "blocked") {
            Ok(TransactionPhase::Blocked)
        } else if str_eq(value, "completed") {
            Ok(TransactionPhase::Completed)
        } else {
            Err(
                SyncSqliteError::CorruptState(
                    join("unknown filesystem_transactions.phase ", quoted_text(value).as_str()),
                ),
            )
        }
    }
}

/// A stored name reads back as the value it was written for.
pub proof fn law_transaction_phase_name_round_trips(value: TransactionPhase)
    ensures
        TransactionPhase::of_stored_name(value.stored_name()) == Some(value),
{
    reveal_strlit("planning");
    reveal_strlit("committing");
    reveal_strlit("async_preservation");
    reveal_strlit("blocked");
    reveal_strlit("completed");
    assert("planning"@.len() == 8);
    assert("committing"@.len() == 10);
    assert("async_preservation"@.len() == 18);
    assert("blocked"@.len() == 7);
    assert("completed"@.len() == 9);
}

/// Where a placement epoch stands.
#[derive(Debug, Clone, Copy, PartialEq, Eq, Structural)]
pub enum EpochState {
    Allocated,
    Preparing,
    PreparedArtifact,
    AwaitingReservation,
    Prepared,
    Committing,
    Committed,
    Quarantined,
    RequiresPhysicalRecovery,
    CustodyTransferred,
    AwaitingQuiescence,
    ClassifiedKnown,
    ClassifiedDivergent,
    AwaitingCaptureStorage,
    AwaitingCaptureAuthorization,
    CapturedChangeAuthored,
    LocalRecoveryOnly,
    Released,
    Completed,
    Blocked,
}

impl EpochState {
    /// The stored name.
    pub open spec fn stored_name(self) -> Seq<char> {
        match self {
            EpochState::Allocated => "allocated"@,
            EpochState::Preparing => "preparing"@,
            EpochState::PreparedArtifact => "prepared_artifact"@,
            EpochState::AwaitingReservation => "awaiting_reservation"@,
            EpochState::Prepared => "prepared"@,
            EpochState::Committing => "committing"@,
            EpochState::Committed => "committed"@,
            EpochState::Quarantined => "quarantined"@,
            EpochState::RequiresPhysicalRecovery => "requires_physical_recovery"@,
            EpochState::CustodyTransferred => "custody_transferred"@,
            EpochState::AwaitingQuiescence => "awaiting_quiescence"@,
            EpochState::ClassifiedKnown => "classified_known"@,
            EpochState::ClassifiedDivergent => "classified_divergent"@,
            EpochState::AwaitingCaptureStorage => "awaiting_capture_storage"@,
            EpochState::AwaitingCaptureAuthorization => "awaiting_capture_authorization"@,
            EpochState::CapturedChangeAuthored => "captured_change_authored"@,
            EpochState::LocalRecoveryOnly => "local_recovery_only"@,
            EpochState::Released => "released"@,
            EpochState::Completed => "completed"@,
            EpochState::Blocked => "blocked"@,
        }
    }

    /// The value a stored name stands for.
    pub open spec fn of_stored_name(name: Seq<char>) -> Option<EpochState> {
        if name == "allocated"@ {
            Some(EpochState::Allocated)
        } else if name == "preparing"@ {
            Some(EpochState::Preparing)
        } else if name == "prepared_artifact"@ {
            Some(EpochState::PreparedArtifact)
        } else if name == "awaiting_reservation"@ {
            Some(EpochState::AwaitingReservation)
        } else if name == "prepared"@ {
            Some(EpochState::Prepared)
        } else if name == "committing"@ {
            Some(EpochState::Committing)
        } else if name == "committed"@ {
            Some(EpochState::Committed)
        } else if name == "quarantined"@ {
            Some(EpochState::Quarantined)
        } else if name == "requires_physical_recovery"@ {
            Some(EpochState::RequiresPhysicalRecovery)
        } else if name == "custody_transferred"@ {
            Some(EpochState::CustodyTransferred)
        } else if name == "awaiting_quiescence"@ {
            Some(EpochState::AwaitingQuiescence)
        } else if name == "classified_known"@ {
            Some(EpochState::ClassifiedKnown)
        } else if name == "classified_divergent"@ {
            Some(EpochState::ClassifiedDivergent)
        } else if name == "awaiting_capture_storage"@ {
            Some(EpochState::AwaitingCaptureStorage)
        } else if name == "awaiting_capture_authorization"@ {
            Some(EpochState::AwaitingCaptureAuthorization)
        } else if name == "captured_change_authored"@ {
            Some(EpochState::CapturedChangeAuthored)
        } else if name == "local_recovery_only"@ {
            Some(EpochState::LocalRecoveryOnly)
        } else if name == "released"@ {
            Some(EpochState::Released)
        } else if name == "completed"@ {
            Some(EpochState::Completed)
        } else if name == "blocked"@ {
            Some(EpochState::Blocked)
        } else {
            None
        }
    }

    /// The name the value is shown by in messages.
    pub open spec fn shown_name(self) -> Seq<char> {
        match self {
            EpochState::Allocated => "Allocated"@,
            EpochState::Preparing => "Preparing"@,
            EpochState::PreparedArtifact => "PreparedArtifact"@,
            EpochState::AwaitingReservation => "AwaitingReservation"@,
            EpochState::Prepared => "Prepared"@,
            EpochState::Committing => "Committing"@,
            EpochState::Committed => "Committed"@,
            EpochState::Quarantined => "Quarantined"@,
            EpochState::RequiresPhysicalRecovery => "RequiresPhysicalRecovery"@,
            EpochState::CustodyTransferred => "CustodyTransferred"@,
            EpochState::AwaitingQuiescence => "AwaitingQuiescence"@,
            EpochState::ClassifiedKnown => "ClassifiedKnown"@,
            EpochState::ClassifiedDivergent => "ClassifiedDivergent"@,
            EpochState::AwaitingCaptureStorage => "AwaitingCaptureStorage"@,
            EpochState::AwaitingCaptureAuthorization => "AwaitingCaptureAuthorization"@,
            EpochState::CapturedChangeAuthored => "CapturedChangeAuthored"@,
            EpochState::LocalRecoveryOnly => "LocalRecoveryOnly"@,
            EpochState::Released => "Released"@,
            EpochState::Completed => "Completed"@,
            EpochState::Blocked => "Blocked"@,
        }
    }

    /// Shows the value by its name.
    pub fn name(self) -> (name: &'static str)
        ensures
            name@ == self.shown_name(),
    {
        match self {
            EpochState::Allocated => "Allocated",
            EpochState::Preparing => "Preparing",
            EpochState::PreparedArtifact => "PreparedArtifact",
            EpochState::AwaitingReservation => "AwaitingReservation",
            EpochState::Prepared => "Prepared",
            EpochState::Committing => "Committing",
            EpochState::Committed => "Committed",
            EpochState::Quarantined => "Quarantined",
            EpochState::RequiresPhysicalRecovery => "RequiresPhysicalRecovery",
            EpochState::CustodyTransferred => "CustodyTransferred",
            EpochState::AwaitingQuiescence => "AwaitingQuiescence",
            EpochState::ClassifiedKnown => "ClassifiedKnown",
            EpochState::ClassifiedDivergent => "ClassifiedDivergent",
            EpochState::AwaitingCaptureStorage => "AwaitingCaptureStorage",
            EpochState::AwaitingCaptureAuthorization => "AwaitingCaptureAuthorization",
            EpochState::CapturedChangeAuthored => "CapturedChangeAuthored",
            EpochState::LocalRecoveryOnly => "LocalRecoveryOnly",
            EpochState::Released => "Released",
            EpochState::Completed => "Completed",
            EpochState::Blocked => "Blocked",
        }
    }

    /// The name the state is stored by.
    pub fn db_str(self) -> (name: &'static str)
        ensures
            name@ == self.stored_name(),
    {
        match self {
            EpochState::Allocated => "allocated",
            EpochState::Preparing => "preparing",
            EpochState::PreparedArtifact => "prepared_artifact",
            EpochState::AwaitingReservation => "awaiting_reservation",
            EpochState::Prepared => "prepared",
            EpochState::Committing => "committing",
            EpochState::Committed => "committed",
            EpochState::Quarantined => "quarantined",
            EpochState::RequiresPhysicalRecovery => "requires_physical_recovery",
            EpochState::CustodyTransferred => "custody_transferred",
            EpochState::AwaitingQuiescence => "awaiting_quiescence",
            EpochState::ClassifiedKnown => "classified_known",
            EpochState::ClassifiedDivergent => "classified_divergent",
            EpochState::AwaitingCaptureStorage => "awaiting_capture_storage",
            EpochState::AwaitingCaptureAuthorization => "awaiting_capture_authorization",
            EpochState::CapturedChangeAuthored => "captured_change_authored",
            EpochState::LocalRecoveryOnly => "local_recovery_only",
            EpochState::Released => "released",
            EpochState::Completed => "completed",
            EpochState::Blocked => "blocked",
        }
    }

    /// Reads a stored state.
    pub fn from_db_str(value: &str) -> (result: Result<EpochState, SyncSqliteError>)
        ensures
            match result {
                Ok(found) => EpochState::of_stored_name(value@) == Some(found),
                Err(error) => {
                    &&& EpochState::of_stored_name(value@) is None
                    &&& error@ == Failure::CorruptState(
                        "unknown filesystem_transaction_epochs.phase "@ + quoted(value@),
                    )
                },
            },
    {
        if str_eq(value, "allocated") {
            Ok(EpochState::Allocated)
        } else if str_eq(value, "preparing") {
            Ok(EpochState::Preparing)
        } else if str_eq(value, "prepared_artifact") {
            Ok(EpochState::PreparedArtifact)
        } else if str_eq(value, "awaiting_reservation") {
            Ok(EpochState::AwaitingReservation)
        } else if str_eq(value, "prepared") {
            Ok(EpochState::Prepared)
        } else if str_eq(value, "committing") {
            Ok(EpochState::Committing)
        } else if str_eq(value, "committed") {
            Ok(EpochState::Committed)
        } else if str_eq(value, "quarantined") {
            Ok(EpochState::Quarantined)
        } else if str_eq(value, "requires_physical_recovery") {
            Ok(EpochState::RequiresPhysicalRecovery)
        } else if str_eq(value, "custody_transferred") {
            Ok(EpochState::CustodyTransferred)
        } else if str_eq(value, "awaiting_quiescence") {
            Ok(EpochState::AwaitingQuiescence)
        } else if str_eq(value, "classified_known") {
            Ok(EpochState::ClassifiedKnown)
        } else if str_eq(value, "classified_divergent") {
            Ok(EpochState::ClassifiedDivergent)
        } else if str_eq(value, "awaiting_capture_storage") {
            Ok(EpochState::AwaitingCaptureStorage)
        } else if str_eq(value, "awaiting_capture_authorization") {
            Ok(EpochState::AwaitingCaptureAuthorization)
        } else if str_eq(value, "captured_change_authored") {
            Ok(EpochState::CapturedChangeAuthored)
        } else if str_eq(value, "local_recovery_only") {
            Ok(EpochState::LocalRecoveryOnly)
        } else if str_eq(value, "released") {
            Ok(EpochState::Released)
        } else if str_eq(value, "completed") {
            Ok(EpochState::Completed)
        } else if str_eq(value, "blocked") {
            Ok(EpochState::Blocked)
        } else {
            Err(
                SyncSqliteError::CorruptState(
                    join("unknown filesystem_transaction_epochs.phase ", quoted_text(value).as_str()),
                ),
            )
        }
    }
}

/// A stored name reads back as the value it was written for.
pub proof fn law_epoch_state_name_round_trips(value: EpochState)
    ensures
        EpochState::of_stored_name(value.stored_name()) == Some(value),
{
    reveal_strlit("allocated");
    reveal_strlit("preparing");
    reveal_strlit("prepared_artifact");
    reveal_strlit("awaiting_reservation");
    reveal_strlit("prepared");
    reveal_strlit("committing");
    reveal_strlit("committed");
    reveal_strlit("quarantined");
    reveal_strlit("requires_physical_recovery");
    reveal_strlit("custody_transferred");
    reveal_strlit("awaiting_quiescence");
    reveal_strlit("classified_known");
    reveal_strlit("classified_divergent");
    reveal_strlit("awaiting_capture_storage");
    reveal_strlit("awaiting_capture_authorization");
    reveal_strlit("captured_change_authored");
    reveal_strlit("local_recovery_only");
    reveal_strlit("released");
    reveal_strlit("completed");
    reveal_strlit("blocked");
    assert("allocated"@.len() == 9);
    assert("preparing"@.len() == 9);
    assert("prepared_artifact"@.len() == 17);
    assert("awaiting_reservation"@.len() == 20);
    assert("prepared"@.len() == 8);
    assert("committing"@.len() == 10);
    assert("committed"@.len() == 9);
    assert("quarantined"@.len() == 11);
    assert("requires_physical_recovery"@.len() == 26);
    assert("custody_transferred"@.len() == 19);
    assert("awaiting_quiescence"@.len() == 19);
    assert("classified_known"@.len() == 16);
    assert("classified_divergent"@.len() == 20);
    assert("awaiting_capture_storage"@.len() == 24);
    assert("awaiting_capture_authorization"@.len() == 30);
    assert("captured_change_authored"@.len() == 24);
    assert("local_recovery_only"@.len() == 19);
    assert("released"@.len() == 8);
    assert("completed"@.len() == 9);
    assert("blocked"@.len() == 7);
    assert("preparing"@[0] != "allocated"@[0]);
    assert("committed"@[0] != "allocated"@[0]);
    assert("committed"@[0] != "preparing"@[0]);
    assert("awaiting_quiescence"@[0] != "custody_transferred"@[0]);
    assert("classified_divergent"@[0] != "awaiting_reservation"@[0]);
    assert("captured_change_authored"@[0] != "awaiting_capture_storage"@[0]);
    assert("local_recovery_only"@[0] != "custody_transferred"@[0]);
    assert("local_recovery_only"@[0] != "awaiting_quiescence"@[0]);
    assert("released"@[0] != "prepared"@[0]);
    assert("completed"@[0] != "allocated"@[0]);
    assert("completed"@[0] != "preparing"@[0]);
    assert("completed"@[3] != "committed"@[3]);
}

/// What an epoch puts at its path.
#[derive(Debug, Clone, Copy, PartialEq, Eq, Structural)]
pub enum PlacementRole {
    CanonicalPath,
    ConflictCopy,
    RetirementTarget,
}

impl PlacementRole {
    /// The stored name.
    pub open spec fn stored_name(self) -> Seq<char> {
        match self {
            PlacementRole::CanonicalPath => "canonical_path"@,
            PlacementRole::ConflictCopy => "conflict_copy"@,
            PlacementRole::RetirementTarget => "retirement_target"@,
        }
    }

    /// The value a stored name stands for.
    pub open spec fn of_stored_name(name: Seq<char>) -> Option<PlacementRole> {
        if name == "canonical_path"@ {
            Some(PlacementRole::CanonicalPath)
        } else if name == "conflict_copy"@ {
            Some(PlacementRole::ConflictCopy)
        } else if name == "retirement_target"@ {
            Some(PlacementRole::RetirementTarget)
        } else {
            None
        }
    }

    /// The name the role is stored by.
    pub fn db_str(self) -> (name: &'static str)
        ensures
            name@ == self.stored_name(),
    {
        match self {
            PlacementRole::CanonicalPath => "canonical_path",
            PlacementRole::ConflictCopy => "conflict_copy",
            PlacementRole::RetirementTarget => "retirement_target",
        }
    }

    /// Reads a stored role.
    pub fn from_db_str(value: &str) -> (result: Result<PlacementRole, SyncSqliteError>)
        ensures
            match result {
                Ok(found) => PlacementRole::of_stored_name(value@) == Some(found),
                Err(error) => {
                    &&& PlacementRole::of_stored_name(value@) is None
                    &&& error@ == Failure::CorruptState(
                        "unknown filesystem_transaction_epochs.placement_role "@ + quoted(value@),
                    )
                },
            },
    {
        if str_eq(value, "canonical_path") {
            Ok(PlacementRole::CanonicalPath)
        } else if str_eq(value, "conflict_copy") {
            Ok(PlacementRole::ConflictCopy)
        } else if str_eq(value, "retirement_target") {
            Ok(PlacementRole::RetirementTarget)
        } else {
            Err(
                SyncSqliteError::CorruptState(
                    join("unknown filesystem_transaction_epochs.placement_role ", quoted_text(value).as_str()),
                ),
            )
        }
    }
}

/// A stored name reads back as the value it was written for.
pub proof fn law_placement_role_name_round_trips(value: PlacementRole)
    ensures
        PlacementRole::of_stored_name(value.stored_name()) == Some(value),
{
    reveal_strlit("canonical_path");
    reveal_strlit("conflict_copy");
    reveal_strlit("retirement_target");
    assert("canonical_path"@.len() == 14);
    assert("conflict_copy"@.len() == 13);
    assert("retirement_target"@.len() == 17);
}

/// How far a commit at the path survives a failure.
#[derive(Debug, Clone, Copy, PartialEq, Eq, Structural)]
pub enum DurabilityLevel {
    ProcessCrashSafe,
    PowerLossSafe,
    BestEffortRemoteFilesystem,
    Unsupported,
}

impl DurabilityLevel {
    /// The stored name.
    pub open spec fn stored_name(self) -> Seq<char> {
        match self {
            DurabilityLevel::ProcessCrashSafe => "process_crash_safe"@,
            DurabilityLevel::PowerLossSafe => "power_loss_safe"@,
            DurabilityLevel::BestEffortRemoteFilesystem => "best_effort_remote_filesystem"@,
            DurabilityLevel::Unsupported => "unsupported"@,
        }
    }

    /// The value a stored name stands for.
    pub open spec fn of_stored_name(name: Seq<char>) -> Option<DurabilityLevel> {
        if name == "process_crash_safe"@ {
            Some(DurabilityLevel::ProcessCrashSafe)
        } else if name == "power_loss_safe"@ {
            Some(DurabilityLevel::PowerLossSafe)
        } else if name == "best_effort_remote_filesystem"@ {
            Some(DurabilityLevel::BestEffortRemoteFilesystem)
        } else if name == "unsupported"@ {
            Some(DurabilityLevel::Unsupported)
        } else {
            None
        }
    }

    /// The name the level is stored by.
    pub fn as_db_str(self) -> (name: &'static str)
        ensures
            name@ == self.stored_name(),
    {
        match self {
            DurabilityLevel::ProcessCrashSafe => "process_crash_safe",
            DurabilityLevel::PowerLossSafe => "power_loss_safe",
            DurabilityLevel::BestEffortRemoteFilesystem => "best_effort_remote_filesystem",
            DurabilityLevel::Unsupported => "unsupported",
        }
    }

    /// Reads a stored level.
    pub fn from_db_str(value: &str) -> (result: Result<DurabilityLevel, SyncSqliteError>)
        ensures
            match result {
                Ok(found) => DurabilityLevel::of_stored_name(value@) == Some(found),
                Err(error) => {
                    &&& DurabilityLevel::of_stored_name(value@) is None
                    &&& error@ == Failure::CorruptState(
                        "unknown filesystem_transaction_epochs.durability_level "@ + quoted(value@),
                    )
                },
            },
    {
        if str_eq(value, "process_crash_safe") {
            Ok(DurabilityLevel::ProcessCrashSafe)
        } else if str_eq(value, "power_loss_safe") {
            Ok(DurabilityLevel::PowerLossSafe)
        } else if str_eq(value, "best_effort_remote_filesystem") {
            Ok(DurabilityLevel::BestEffortRemoteFilesystem)
        } else if str_eq(value, "unsupported") {
            Ok(DurabilityLevel::Unsupported)
        } else {
            Err(
                SyncSqliteError::CorruptState(
                    join("unknown filesystem_transaction_epochs.durability_level ", quoted_text(value).as_str()),
                ),
            )
        }
    }
}

/// A stored name reads back as the value it was written for.
pub proof fn law_durability_level_name_round_trips(value: DurabilityLevel)
    ensures
        DurabilityLevel::of_stored_name(value.stored_name()) == Some(value),
{
    reveal_strlit("process_crash_safe");
    reveal_strlit("power_loss_safe");
    reveal_strlit("best_effort_remote_filesystem");
    reveal_strlit("unsupported");
    assert("process_crash_safe"@.len() == 18);
    assert("power_loss_safe"@.len() == 15);
    assert("best_effort_remote_filesystem"@.len() == 29);
    assert("unsupported"@.len() == 11);
}

/// How much of the namespace a reservation claims.
#[derive(Debug, Clone, Copy, PartialEq, Eq, Structural)]
pub enum ReservationScope {
    Exact,
    SubtreeIntent,
    SubtreeExclusive,
}

impl ReservationScope {
    /// The stored name.
    pub open spec fn stored_name(self) -> Seq<char> {
        match self {
            ReservationScope::Exact => "exact"@,
            ReservationScope::SubtreeIntent => "subtree_intent"@,
            ReservationScope::SubtreeExclusive => "subtree_exclusive"@,
        }
    }

    /// The value a stored name stands for.
    pub open spec fn of_stored_name(name: Seq<char>) -> Option<ReservationScope> {
        if name == "exact"@ {
            Some(ReservationScope::Exact)
        } else if name == "subtree_intent"@ {
            Some(ReservationScope::SubtreeIntent)
        } else if name == "subtree_exclusive"@ {
            Some(ReservationScope::SubtreeExclusive)
        } else {
            None
        }
    }

    /// The name the scope is stored by.
    pub fn db_str(self) -> (name: &'static str)
        ensures
            name@ == self.stored_name(),
    {
        match self {
            ReservationScope::Exact => "exact",
            ReservationScope::SubtreeIntent => "subtree_intent",
            ReservationScope::SubtreeExclusive => "subtree_exclusive",
        }
    }

    /// Reads a stored scope.
    pub fn from_db_str(value: &str) -> (result: Result<ReservationScope, SyncSqliteError>)
        ensures
            match result {
                Ok(found) => ReservationScope::of_stored_name(value@) == Some(found),
                Err(error) => {
                    &&& ReservationScope::of_stored_name(value@) is None
                    &&& error@ == Failure::CorruptState(
                        "unknown filesystem_transaction_reservations.scope_kind "@ + quoted(value@),
                    )
                },
            },
    {
        if str_eq(value, "exact") {
            Ok(ReservationScope::Exact)
        } else if str_eq(value, "subtree_intent") {
            Ok(ReservationScope::SubtreeIntent)
        } else if str_eq(value, "subtree_exclusive") {
            Ok(ReservationScope::SubtreeExclusive)
        } else {
            Err(
                SyncSqliteError::CorruptState(
                    join("unknown filesystem_transaction_reservations.scope_kind ", quoted_text(value).as_str()),
                ),
            )
        }
    }
}

/// A stored name reads back as the value it was written for.
pub proof fn law_reservation_scope_name_round_trips(value: ReservationScope)
    ensures
        ReservationScope::of_stored_name(value.stored_name()) == Some(value),
{
    reveal_strlit("exact");
    reveal_strlit("subtree_intent");
    reveal_strlit("subtree_exclusive");
    assert("exact"@.len() == 5);
    assert("subtree_intent"@.len() == 14);
    assert("subtree_exclusive"@.len() == 17);
}

/// What a reserved path is reserved for.
#[derive(Debug, Clone, Copy, PartialEq, Eq, Structural)]
pub enum ReservationRole {
    CanonicalPath,
    ConflictCopy,
    RetirementTarget,
    SubtreeRoot,
}

impl ReservationRole {
    /// The stored name.
    pub open spec fn stored_name(self) -> Seq<char> {
        match self {
            ReservationRole::CanonicalPath => "canonical_path"@,
            ReservationRole::ConflictCopy => "conflict_copy"@,
            ReservationRole::RetirementTarget => "retirement_target"@,
            ReservationRole::SubtreeRoot => "subtree_root"@,
        }
    }

    /// The value a stored name stands for.
    pub open spec fn of_stored_name(name: Seq<char>) -> Option<ReservationRole> {
        if name == "canonical_path"@ {
            Some(ReservationRole::CanonicalPath)
        } else if name == "conflict_copy"@ {
            Some(ReservationRole::ConflictCopy)
        } else if name == "retirement_target"@ {
            Some(ReservationRole::RetirementTarget)
        } else if name == "subtree_root"@ {
            Some(ReservationRole::SubtreeRoot)
        } else {
            None
        }
    }

    /// The name the role is stored by.
    pub fn db_str(self) -> (name: &'static str)
        ensures
            name@ == self.stored_name(),
    {
        match self {
            ReservationRole::CanonicalPath => "canonical_path",
            ReservationRole::ConflictCopy => "conflict_copy",
            ReservationRole::RetirementTarget => "retirement_target",
            ReservationRole::SubtreeRoot => "subtree_root",
        }
    }

    /// Reads a stored role.
    pub fn from_db_str(value: &str) -> (result: Result<ReservationRole, SyncSqliteError>)
        ensures
            match result {
                Ok(found) => ReservationRole::of_stored_name(value@) == Some(found),
                Err(error) => {
                    &&& ReservationRole::of_stored_name(value@) is None
                    &&& error@ == Failure::CorruptState(
                        "unknown filesystem_transaction_reservations.role "@ + quoted(value@),
                    )
                },
            },
    {
        if str_eq(value, "canonical_path") {
            Ok(ReservationRole::CanonicalPath)
        } else if str_eq(value, "conflict_copy") {
            Ok(ReservationRole::ConflictCopy)
        } else if str_eq(value, "retirement_target") {
            Ok(ReservationRole::RetirementTarget)
        } else if str_eq(value, "subtree_root") {
            Ok(ReservationRole::SubtreeRoot)
        } else {
            Err(
                SyncSqliteError::CorruptState(
                    join("unknown filesystem_transaction_reservations.role ", quoted_text(value).as_str()),
                ),
            )
        }
    }
}

/// A stored name reads back as the value it was written for.
pub proof fn law_reservation_role_name_round_trips(value: ReservationRole)
    ensures
        ReservationRole::of_stored_name(value.stored_name()) == Some(value),
{
    reveal_strlit("canonical_path");
    reveal_strlit("conflict_copy");
    reveal_strlit("retirement_target");
    reveal_strlit("subtree_root");
    assert("canonical_path"@.len() == 14);
    assert("conflict_copy"@.len() == 13);
    assert("retirement_target"@.len() == 17);
    assert("subtree_root"@.len() == 12);
}

} // verus!
