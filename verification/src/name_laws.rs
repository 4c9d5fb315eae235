//! The names under which the library stores what it tells apart.

use vstd::prelude::*;

use crate::index_vocabulary::{
    law_handoff_lease_state_name_round_trips, law_materialization_policy_name_round_trips,
    law_materialization_state_name_round_trips, law_record_kind_name_round_trips,
    law_version_state_name_round_trips, HandoffLeaseState, MaterializationPolicy,
    MaterializationState, RecordKind, VersionState,
};
use crate::vocabulary::{
    law_durability_level_name_round_trips, law_epoch_state_name_round_trips,
    law_filesystem_transaction_kind_name_round_trips, law_placement_role_name_round_trips,
    law_reservation_role_name_round_trips, law_reservation_scope_name_round_trips,
    law_transaction_cause_name_round_trips, law_transaction_phase_name_round_trips, DurabilityLevel,
    EpochState, FilesystemTransactionKind, PlacementRole, ReservationRole, ReservationScope,
    TransactionCause, TransactionPhase,
};

verus! {

/// A transaction kind is stored under its own name, and a name is read as what it stands for.
/// No other text names one.
pub proof fn law_filesystem_transaction_kind_names(
    value: FilesystemTransactionKind,
    text: Seq<char>,
)
    ensures
        value is ObjectResolution ==> value.stored_name() == "object_resolution"@,
        value is SubtreeReplacement ==> value.stored_name() == "subtree_replacement"@,
        FilesystemTransactionKind::of_stored_name(text) == Some(value) <==> text
            == value.stored_name(),
{
    law_filesystem_transaction_kind_name_round_trips(value);
}

/// A cause is stored under its own name, and a name is read as what it stands for.
/// No other text names one.
pub proof fn law_transaction_cause_names(value: TransactionCause, text: Seq<char>)
    ensures
        value is PeerProjection ==> value.stored_name() == "peer_projection"@,
        value is Hydration ==> value.stored_name() == "hydration"@,
        value is Repair ==> value.stored_name() == "repair"@,
        value is Restore ==> value.stored_name() == "restore"@,
        value is RemoteDelete ==> value.stored_name() == "remote_delete"@,
        value is Eviction ==> value.stored_name() == "eviction"@,
        value is ConflictResolution ==> value.stored_name() == "conflict_resolution"@,
        value is ConflictCopyRetirement ==> value.stored_name() == "conflict_copy_retirement"@,
        TransactionCause::of_stored_name(text) == Some(value) <==> text == value.stored_name(),
{
    law_transaction_cause_name_round_trips(value);
}

/// A phase is stored under its own name, and a name is read as what it stands for.
/// No other text names one.
pub proof fn law_transaction_phase_names(value: TransactionPhase, text: Seq<char>)
    ensures
        value is Planning ==> value.stored_name() == "planning"@,
        value is Committing ==> value.stored_name() == "committing"@,
        value is AsyncPreservation ==> value.stored_name() == "async_preservation"@,
        value is Blocked ==> value.stored_name() == "blocked"@,
        value is Completed ==> value.stored_name() == "completed"@,
        TransactionPhase::of_stored_name(text) == Some(value) <==> text == value.stored_name(),
        value is Planning ==> value.shown_name() == "Planning"@,
        value is Committing ==> value.shown_name() == "Committing"@,
        value is AsyncPreservation ==> value.shown_name() == "AsyncPreservation"@,
        value is Blocked ==> value.shown_name() == "Blocked"@,
        value is Completed ==> value.shown_name() == "Completed"@,
{
    law_transaction_phase_name_round_trips(value);
}

/// An epoch's state is stored under its own name, and a name is read as what it stands for.
/// No other text names one.
pub proof fn law_epoch_state_names(value: EpochState, text: Seq<char>)
    ensures
        value is Allocated ==> value.stored_name() == "allocated"@,
        value is Preparing ==> value.stored_name() == "preparing"@,
        value is PreparedArtifact ==> value.stored_name() == "prepared_artifact"@,
        value is AwaitingReservation ==> value.stored_name() == "awaiting_reservation"@,
        value is Prepared ==> value.stored_name() == "prepared"@,
        value is Committing ==> value.stored_name() == "committing"@,
        value is Committed ==> value.stored_name() == "committed"@,
        value is Quarantined ==> value.stored_name() == "quarantined"@,
        value is RequiresPhysicalRecovery ==> value.stored_name() == "requires_physical_recovery"@,
        value is CustodyTransferred ==> value.stored_name() == "custody_transferred"@,
        value is AwaitingQuiescence ==> value.stored_name() == "awaiting_quiescence"@,
        value is ClassifiedKnown ==> value.stored_name() == "classified_known"@,
        value is ClassifiedDivergent ==> value.stored_name() == "classified_divergent"@,
        value is AwaitingCaptureStorage ==> value.stored_name() == "awaiting_capture_storage"@,
        value is AwaitingCaptureAuthorization ==> value.stored_name()
            == "awaiting_capture_authorization"@,
        value is CapturedChangeAuthored ==> value.stored_name() == "captured_change_authored"@,
        value is LocalRecoveryOnly ==> value.stored_name() == "local_recovery_only"@,
        value is Released ==> value.stored_name() == "released"@,
        value is Completed ==> value.stored_name() == "completed"@,
        value is Blocked ==> value.stored_name() == "blocked"@,
        EpochState::of_stored_name(text) == Some(value) <==> text == value.stored_name(),
        value is Allocated ==> value.shown_name() == "Allocated"@,
        value is Preparing ==> value.shown_name() == "Preparing"@,
        value is PreparedArtifact ==> value.shown_name() == "PreparedArtifact"@,
        value is AwaitingReservation ==> value.shown_name() == "AwaitingReservation"@,
        value is Prepared ==> value.shown_name() == "Prepared"@,
        value is Committing ==> value.shown_name() == "Committing"@,
        value is Committed ==> value.shown_name() == "Committed"@,
        value is Quarantined ==> value.shown_name() == "Quarantined"@,
        value is RequiresPhysicalRecovery ==> value.shown_name() == "RequiresPhysicalRecovery"@,
        value is CustodyTransferred ==> value.shown_name() == "CustodyTransferred"@,
        value is AwaitingQuiescence ==> value.shown_name() == "AwaitingQuiescence"@,
        value is ClassifiedKnown ==> value.shown_name() == "ClassifiedKnown"@,
        value is ClassifiedDivergent ==> value.shown_name() == "ClassifiedDivergent"@,
        value is AwaitingCaptureStorage ==> value.shown_name() == "AwaitingCaptureStorage"@,
        value is AwaitingCaptureAuthorization ==> value.shown_name()
            == "AwaitingCaptureAuthorization"@,
        value is CapturedChangeAuthored ==> value.shown_name() == "CapturedChangeAuthored"@,
        value is LocalRecoveryOnly ==> value.shown_name() == "LocalRecoveryOnly"@,
        value is Released ==> value.shown_name() == "Released"@,
        value is Completed ==> value.shown_name() == "Completed"@,
        value is Blocked ==> value.shown_name() == "Blocked"@,
{
    law_epoch_state_name_round_trips(value);
}

/// A placement role is stored under its own name, and a name is read as what it stands for.
/// No other text names one.
pub proof fn law_placement_role_names(value: PlacementRole, text: Seq<char>)
    ensures
        value is CanonicalPath ==> value.stored_name() == "canonical_path"@,
        value is ConflictCopy ==> value.stored_name() == "conflict_copy"@,
        value is RetirementTarget ==> value.stored_name() == "retirement_target"@,
        PlacementRole::of_stored_name(text) == Some(value) <==> text == value.stored_name(),
{
    law_placement_role_name_round_trips(value);
}

/// A durability level is stored under its own name, and a name is read as what it stands for.
/// No other text names one.
pub proof fn law_durability_level_names(value: DurabilityLevel, text: Seq<char>)
    ensures
        value is ProcessCrashSafe ==> value.stored_name() == "process_crash_safe"@,
        value is PowerLossSafe ==> value.stored_name() == "power_loss_safe"@,
        value is BestEffortRemoteFilesystem ==> value.stored_name()
            == "best_effort_remote_filesystem"@,
        value is Unsupported ==> value.stored_name() == "unsupported"@,
        DurabilityLevel::of_stored_name(text) == Some(value) <==> text == value.stored_name(),
{
    law_durability_level_name_round_trips(value);
}

/// A reservation scope is stored under its own name, and a name is read as what it stands for.
/// No other text names one.
pub proof fn law_reservation_scope_names(value: ReservationScope, text: Seq<char>)
    ensures
        value is Exact ==> value.stored_name() == "exact"@,
        value is SubtreeIntent ==> value.stored_name() == "subtree_intent"@,
        value is SubtreeExclusive ==> value.stored_name() == "subtree_exclusive"@,
        ReservationScope::of_stored_name(text) == Some(value) <==> text == value.stored_name(),
{
    law_reservation_scope_name_round_trips(value);
}

/// A reservation role is stored under its own name, and a name is read as what it stands for.
/// No other text names one.
pub proof fn law_reservation_role_names(value: ReservationRole, text: Seq<char>)
    ensures
        value is CanonicalPath ==> value.stored_name() == "canonical_path"@,
        value is ConflictCopy ==> value.stored_name() == "conflict_copy"@,
        value is RetirementTarget ==> value.stored_name() == "retirement_target"@,
        value is SubtreeRoot ==> value.stored_name() == "subtree_root"@,
        ReservationRole::of_stored_name(text) == Some(value) <==> text == value.stored_name(),
{
    law_reservation_role_name_round_trips(value);
}

/// A record kind is stored under its own name, and a name is read as what it stands for.
/// Any other text is read as the plainest one.
pub proof fn law_record_kind_names(value: RecordKind, text: Seq<char>)
    ensures
        value is File ==> value.stored_name() == "file"@,
        value is Directory ==> value.stored_name() == "directory"@,
        value is Symlink ==> value.stored_name() == "symlink"@,
        !(value is File) ==> (RecordKind::of_stored_name(text) == value <==> text
            == value.stored_name()),
        RecordKind::of_stored_name(value.stored_name()) == value,
{
    law_record_kind_name_round_trips(value);
}

/// A materialization state is stored under its own name, and a name is read as what it stands for.
/// Any other text is read as the plainest one.
pub proof fn law_materialization_state_names(value: MaterializationState, text: Seq<char>)
    ensures
        value is Placeholder ==> value.stored_name() == "placeholder"@,
        value is Hydrating ==> value.stored_name() == "hydrating"@,
        value is Hydrated ==> value.stored_name() == "hydrated"@,
        !(value is Placeholder) ==> (MaterializationState::of_stored_name(text) == value <==> text
            == value.stored_name()),
        MaterializationState::of_stored_name(value.stored_name()) == value,
{
    law_materialization_state_name_round_trips(value);
}

/// A materialization policy is stored under its own name, and a name is read as what it stands for.
/// Any other text is read as the plainest one.
pub proof fn law_materialization_policy_names(value: MaterializationPolicy, text: Seq<char>)
    ensures
        value is Eager ==> value.stored_name() == "eager"@,
        value is OnDemand ==> value.stored_name() == "on_demand"@,
        !(value is Eager) ==> (MaterializationPolicy::of_stored_name(text) == value <==> text
            == value.stored_name()),
        MaterializationPolicy::of_stored_name(value.stored_name()) == value,
{
    law_materialization_policy_name_round_trips(value);
}

/// A version's state is stored under its own name, and a name is read as what it stands for.
/// No other text names one.
pub proof fn law_version_state_names(value: VersionState, text: Seq<char>)
    ensures
        value is Current ==> value.stored_name() == "current"@,
        value is Superseded ==> value.stored_name() == "superseded"@,
        value is Trashed ==> value.stored_name() == "trashed"@,
        VersionState::of_stored_name(text) == Some(value) <==> text == value.stored_name(),
{
    law_version_state_name_round_trips(value);
}

/// A lease's state is stored under its own name, and a name is read as what it stands for.
/// Any other text is read as the plainest one.
pub proof fn law_handoff_lease_state_names(value: HandoffLeaseState, text: Seq<char>)
    ensures
        value is Provisional ==> value.stored_name() == "provisional"@,
        value is Confirmed ==> value.stored_name() == "confirmed"@,
        value is Released ==> value.stored_name() == "released"@,
        value is Expired ==> value.stored_name() == "expired"@,
        !(value is Provisional) ==> (HandoffLeaseState::of_stored_name(text) == value <==> text
            == value.stored_name()),
        HandoffLeaseState::of_stored_name(value.stored_name()) == value,
{
    law_handoff_lease_state_name_round_trips(value);
}

} // verus!
