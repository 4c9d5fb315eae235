//! The transaction journal: transactions, placement epochs, reservations and
//! the execution fence.

use yadorilink_sync_sqlite::epoch::{
    bump_epoch_watermark_if_not_completed, decide_transition, insert_epoch,
    insert_epoch_row_unchecked, insert_epoch_unchecked,
    list_epochs_for_transaction, lookup_epoch, transition_epoch, transition_epoch_unchecked,
    write_transition,
};
use yadorilink_sync_sqlite::error::SyncSqliteError;
use yadorilink_sync_sqlite::filesystem_transaction::{
    begin_transaction, begin_transaction_unchecked, check_execution_generation,
    decide_phase_change, increment_execution_generation, increment_execution_generation_unchecked,
    lookup_transaction, set_desired_frontier_hash_unchecked, set_plan_revision_unchecked,
    set_transaction_phase, set_transaction_phase_unchecked, write_phase_change,
};
use yadorilink_sync_sqlite::identity::{
    DirectoryIdentity, FileIdentity, ObjectKind, PlatformObjectId, Timestamp, VolumeIdentity,
};
use yadorilink_sync_sqlite::path_key::{path_key, ranges_overlap, subtree_end_key};
use yadorilink_sync_sqlite::phase::EpochMoves;
use yadorilink_sync_sqlite::reservation::{
    acquire_reservations, acquire_reservations_in_open_transaction,
    acquire_reservations_unchecked, bump_transactions_for_touched_paths,
    bump_transactions_for_touched_paths_unchecked, list_reservations, release_reservations,
    release_reservations_unchecked, NewReservation, ScopeConflicts,
};
use yadorilink_sync_sqlite::transaction_rows::{
    ChangeHash, EpochUpdate, NewEpoch, NewFilesystemTransaction, TransactionStore,
};
use yadorilink_sync_sqlite::vocabulary::{
    DurabilityLevel, EpochState, FilesystemTransactionKind, PlacementRole, ReservationRole,
    ReservationScope, TransactionCause, TransactionPhase,
};

fn open() -> TransactionStore {
    TransactionStore::new()
}

/// The epoch moves these tests make or expect to be refused.
fn moves() -> EpochMoves {
    EpochMoves {
        edges: vec![
            (EpochState::Allocated, EpochState::Preparing),
            (EpochState::Allocated, EpochState::Blocked),
            (EpochState::Preparing, EpochState::PreparedArtifact),
            (EpochState::PreparedArtifact, EpochState::AwaitingReservation),
            (EpochState::AwaitingReservation, EpochState::Prepared),
            (EpochState::Prepared, EpochState::Committing),
            (EpochState::Committing, EpochState::Prepared),
            (EpochState::Committing, EpochState::Committed),
            (EpochState::Committing, EpochState::Quarantined),
            (EpochState::Committing, EpochState::RequiresPhysicalRecovery),
            (EpochState::Committing, EpochState::Blocked),
            (EpochState::RequiresPhysicalRecovery, EpochState::Committed),
            (EpochState::Committed, EpochState::CustodyTransferred),
            (EpochState::CustodyTransferred, EpochState::AwaitingQuiescence),
            (EpochState::AwaitingQuiescence, EpochState::ClassifiedKnown),
            (EpochState::ClassifiedKnown, EpochState::Released),
            (EpochState::Released, EpochState::Completed),
        ],
    }
}

/// Two intents may share a subtree; everything else that overlaps excludes.
fn conflicts() -> ScopeConflicts {
    ScopeConflicts {
        pairs: vec![
            (ReservationScope::Exact, ReservationScope::Exact),
            (ReservationScope::Exact, ReservationScope::SubtreeExclusive),
            (ReservationScope::SubtreeIntent, ReservationScope::SubtreeExclusive),
            (ReservationScope::SubtreeExclusive, ReservationScope::Exact),
            (ReservationScope::SubtreeExclusive, ReservationScope::SubtreeIntent),
            (ReservationScope::SubtreeExclusive, ReservationScope::SubtreeExclusive),
        ],
    }
}

fn sample_new_transaction<'a>(trigger: Option<&'a ChangeHash>) -> NewFilesystemTransaction<'a> {
    NewFilesystemTransaction {
        group_id: "g",
        source_path: "a.txt",
        kind: FilesystemTransactionKind::ObjectResolution,
        cause: TransactionCause::PeerProjection,
        trigger_change_hash: trigger,
        desired_frontier_hash: [7; 32],
    }
}

fn sample_directory_identity() -> DirectoryIdentity {
    DirectoryIdentity {
        volume_identity: VolumeIdentity::Unix { device_id: 1 },
        object_id: PlatformObjectId::Unix { inode: 100 },
        generation_or_usn: Some(5),
        birth_or_creation_time: None,
    }
}

fn sample_file_identity() -> FileIdentity {
    FileIdentity {
        volume_identity: VolumeIdentity::Unix { device_id: 1 },
        object_id: PlatformObjectId::Unix { inode: 200 },
        object_kind: ObjectKind::RegularFile,
        generation_or_usn: None,
        birth_or_creation_time: Some(Timestamp {
            seconds_since_unix_epoch: 1_700_000_000,
            subsec_nanos: 0,
        }),
        observed_size: 4,
        metadata_fingerprint: [3; 32],
        link_count: Some(1),
        symlink_target_digest: None,
    }
}

#[test]
fn every_mutating_entry_point_refuses_while_the_gate_is_closed() {
    let mut store = open();
    let hash = ChangeHash([1; 32]);
    let new_tx = sample_new_transaction(Some(&hash));
    assert!(matches!(
        begin_transaction(&mut store, &new_tx, 0),
        Err(SyncSqliteError::NotImplemented(_))
    ));
    assert!(matches!(
        increment_execution_generation(&mut store, "whatever"),
        Err(SyncSqliteError::NotImplemented(_))
    ));
    assert!(matches!(
        set_transaction_phase(&mut store, "whatever", 0, TransactionPhase::Committing, None, 0),
        Err(SyncSqliteError::NotImplemented(_))
    ));
    let identity = sample_directory_identity();
    let new_epoch = NewEpoch {
        transaction_id: "whatever",
        epoch: 0,
        plan_revision: 0,
        target_path: "a.txt",
        placement_role: PlacementRole::CanonicalPath,
        target_generation: b"opaque",
        parent_directory_identity: &identity,
        capability_snapshot: b"opaque",
        durability_level: DurabilityLevel::PowerLossSafe,
    };
    assert!(matches!(
        insert_epoch(&mut store, &new_epoch, 0, 0),
        Err(SyncSqliteError::NotImplemented(_))
    ));
    assert!(matches!(
        transition_epoch(
            &mut store,
            "whatever",
            0,
            0,
            EpochState::Preparing,
            &EpochUpdate::default(),
            0,
            &moves(),
        ),
        Err(SyncSqliteError::NotImplemented(_))
    ));
    let requests = [NewReservation {
        group_id: "g",
        transaction_id: "whatever",
        scope: ReservationScope::Exact,
        path: "a.txt",
        role: ReservationRole::CanonicalPath,
    }];
    assert!(matches!(
        acquire_reservations(&mut store, &requests, 0, &conflicts()),
        Err(SyncSqliteError::NotImplemented(_))
    ));
    assert!(matches!(
        release_reservations(&mut store, "whatever"),
        Err(SyncSqliteError::NotImplemented(_))
    ));
}

#[test]
fn begin_transaction_starts_at_planning_with_zeroed_counters() {
    let mut store = open();
    let hash = ChangeHash([1; 32]);
    let new_tx = sample_new_transaction(Some(&hash));
    let record = begin_transaction_unchecked(&mut store, &new_tx, 1000).unwrap();
    assert_eq!(record.phase, TransactionPhase::Planning);
    assert_eq!(record.plan_revision, 0);
    assert_eq!(record.execution_generation, 0);
    assert_eq!(record.trigger_change_hash, Some(hash));

    let read_back = lookup_transaction(&store, &record.transaction_id).unwrap();
    assert_eq!(read_back, record);
}

#[test]
fn lookup_of_an_unknown_transaction_is_none() {
    let store = open();
    assert!(lookup_transaction(&store, "nope").is_none());
}

#[test]
fn check_execution_generation_matches_or_fences() {
    let mut store = open();
    let new_tx = sample_new_transaction(None);
    let record = begin_transaction_unchecked(&mut store, &new_tx, 0).unwrap();
    assert!(check_execution_generation(&store, &record.transaction_id, 0).is_ok());
    let fenced = check_execution_generation(&store, &record.transaction_id, 5);
    assert!(matches!(
        fenced,
        Err(SyncSqliteError::ExecutionGenerationFenced { expected: 5, current: 0, .. })
    ));
}

#[test]
fn increment_execution_generation_advances_and_is_reflected_in_the_fence() {
    let mut store = open();
    let record = begin_transaction_unchecked(&mut store, &sample_new_transaction(None), 0).unwrap();
    let next = increment_execution_generation_unchecked(&mut store, &record.transaction_id).unwrap();
    assert_eq!(next, 1);
    assert!(check_execution_generation(&store, &record.transaction_id, 1).is_ok());
    assert!(check_execution_generation(&store, &record.transaction_id, 0).is_err());
}

#[test]
fn set_transaction_phase_follows_the_legal_saga_sequence() {
    let mut store = open();
    let record = begin_transaction_unchecked(&mut store, &sample_new_transaction(None), 0).unwrap();
    set_transaction_phase_unchecked(
        &mut store,
        &record.transaction_id,
        0,
        TransactionPhase::Committing,
        None,
        1,
    )
    .unwrap();
    set_transaction_phase_unchecked(
        &mut store,
        &record.transaction_id,
        0,
        TransactionPhase::AsyncPreservation,
        None,
        2,
    )
    .unwrap();
    set_transaction_phase_unchecked(
        &mut store,
        &record.transaction_id,
        0,
        TransactionPhase::Completed,
        None,
        3,
    )
    .unwrap();
    let read_back = lookup_transaction(&store, &record.transaction_id).unwrap();
    assert_eq!(read_back.phase, TransactionPhase::Completed);
}

#[test]
fn set_transaction_phase_refuses_an_illegal_jump() {
    let mut store = open();
    let record = begin_transaction_unchecked(&mut store, &sample_new_transaction(None), 0).unwrap();
    let result = set_transaction_phase_unchecked(
        &mut store,
        &record.transaction_id,
        0,
        TransactionPhase::Completed,
        None,
        1,
    );
    assert!(matches!(result, Err(SyncSqliteError::InvalidInput(_))));
    let read_back = lookup_transaction(&store, &record.transaction_id).unwrap();
    assert_eq!(read_back.phase, TransactionPhase::Planning);
}

#[test]
fn set_transaction_phase_refuses_on_a_stale_execution_generation() {
    let mut store = open();
    let record = begin_transaction_unchecked(&mut store, &sample_new_transaction(None), 0).unwrap();
    increment_execution_generation_unchecked(&mut store, &record.transaction_id).unwrap();
    let result = set_transaction_phase_unchecked(
        &mut store,
        &record.transaction_id,
        0, // stale: the real generation is now 1
        TransactionPhase::Committing,
        None,
        1,
    );
    assert!(matches!(result, Err(SyncSqliteError::ExecutionGenerationFenced { .. })));
}

#[test]
fn set_transaction_phase_fences_the_update_itself_against_a_generation_bump_landing_after_the_check(
) {
    let mut store = open();
    let record =
        begin_transaction_unchecked(&mut store, &sample_new_transaction(None), 0).unwrap();
    let transaction_id = record.transaction_id;

    // Matches the generation at check time.
    let seen =
        decide_phase_change(&store, &transaction_id, 0, TransactionPhase::Committing).unwrap();
    store.transactions[0].execution_generation += 1;
    let result = write_phase_change(
        &mut store,
        &transaction_id,
        0,
        &seen,
        TransactionPhase::Committing,
        None,
        1,
    );
    assert!(
        matches!(result, Err(SyncSqliteError::ExecutionGenerationFenced { .. })),
        "the update must re-check the fence itself, got {result:?}"
    );

    let read_back = lookup_transaction(&store, &transaction_id).unwrap();
    assert_eq!(
        read_back.phase,
        TransactionPhase::Planning,
        "the phase must be untouched by the fenced update"
    );
}

#[test]
fn a_child_epoch_inserted_during_completion_is_not_silently_completed_over() {
    let mut store = open();
    let record =
        begin_transaction_unchecked(&mut store, &sample_new_transaction(None), 0).unwrap();
    let transaction_id = record.transaction_id;

    insert_epoch_unchecked(
        &mut store,
        &NewEpoch {
            transaction_id: &transaction_id,
            epoch: 0,
            plan_revision: 0,
            target_path: "a.txt",
            placement_role: PlacementRole::CanonicalPath,
            target_generation: b"opaque",
            parent_directory_identity: &sample_directory_identity(),
            capability_snapshot: b"opaque",
            durability_level: DurabilityLevel::ProcessCrashSafe,
        },
        0,
        0,
    )
    .unwrap();
    transition_epoch_unchecked(
        &mut store,
        &transaction_id,
        0,
        0,
        EpochState::Blocked,
        &EpochUpdate::default(),
        0,
        &moves(),
    )
    .unwrap();
    for phase in [TransactionPhase::Committing, TransactionPhase::AsyncPreservation] {
        set_transaction_phase_unchecked(&mut store, &transaction_id, 0, phase, None, 0).unwrap();
    }

    let seen =
        decide_phase_change(&store, &transaction_id, 0, TransactionPhase::Completed).unwrap();
    // The child lands between the terminal check and the completion.
    store.transactions[0].epoch_watermark += 1;
    insert_epoch_row_unchecked(
        &mut store,
        &NewEpoch {
            transaction_id: &transaction_id,
            epoch: 1,
            plan_revision: 0,
            target_path: "b.txt",
            placement_role: PlacementRole::CanonicalPath,
            target_generation: b"opaque",
            parent_directory_identity: &sample_directory_identity(),
            capability_snapshot: b"opaque",
            durability_level: DurabilityLevel::ProcessCrashSafe,
        },
        0,
    )
    .unwrap();
    let result = write_phase_change(
        &mut store,
        &transaction_id,
        0,
        &seen,
        TransactionPhase::Completed,
        None,
        1,
    );
    assert!(
        matches!(result, Err(SyncSqliteError::TransitionRaced { .. })),
        "a child epoch inserted between the terminal check and the completion must refuse the \
         completion, not silently complete over it: got {result:?}"
    );

    let read_back = lookup_transaction(&store, &transaction_id).unwrap();
    assert_eq!(
        read_back.phase,
        TransactionPhase::AsyncPreservation,
        "the phase must be untouched by the refused completion"
    );
    assert_eq!(read_back.epoch_watermark, 2, "the racer's insert itself must still have landed");
    let epochs = list_epochs_for_transaction(&store, &transaction_id);
    assert_eq!(epochs.len(), 2, "the child epoch must still be there");
}

#[test]
fn insert_epoch_into_a_completed_transaction_is_refused() {
    let mut store = open();
    let tx = begin_transaction_unchecked(&mut store, &sample_new_transaction(None), 0).unwrap();
    set_transaction_phase_unchecked(
        &mut store,
        &tx.transaction_id,
        0,
        TransactionPhase::Committing,
        None,
        1,
    )
    .unwrap();
    set_transaction_phase_unchecked(
        &mut store,
        &tx.transaction_id,
        0,
        TransactionPhase::AsyncPreservation,
        None,
        2,
    )
    .unwrap();
    set_transaction_phase_unchecked(
        &mut store,
        &tx.transaction_id,
        0,
        TransactionPhase::Completed,
        None,
        3,
    )
    .unwrap();

    let identity = sample_directory_identity();
    let new_epoch = NewEpoch {
        transaction_id: &tx.transaction_id,
        epoch: 0,
        plan_revision: 0,
        target_path: "a.txt",
        placement_role: PlacementRole::CanonicalPath,
        target_generation: b"g",
        parent_directory_identity: &identity,
        capability_snapshot: b"c",
        durability_level: DurabilityLevel::PowerLossSafe,
    };
    let result = insert_epoch_unchecked(&mut store, &new_epoch, 0, 4);
    assert!(
        matches!(result, Err(SyncSqliteError::InvalidInput(_))),
        "inserting an epoch into a Completed transaction must be refused, got {result:?}"
    );

    let after = lookup_transaction(&store, &tx.transaction_id).unwrap();
    assert_eq!(after.epoch_watermark, 0, "a refused insert must not bump the watermark either");
    assert!(
        list_epochs_for_transaction(&store, &tx.transaction_id).is_empty(),
        "no epoch row may exist after a refused insert"
    );
}

#[test]
fn insert_epoch_refuses_a_stale_execution_generation() {
    let mut store = open();
    let tx = begin_transaction_unchecked(&mut store, &sample_new_transaction(None), 0).unwrap();
    increment_execution_generation_unchecked(&mut store, &tx.transaction_id).unwrap();

    let identity = sample_directory_identity();
    let new_epoch = NewEpoch {
        transaction_id: &tx.transaction_id,
        epoch: 0,
        plan_revision: 0,
        target_path: "a.txt",
        placement_role: PlacementRole::CanonicalPath,
        target_generation: b"g",
        parent_directory_identity: &identity,
        capability_snapshot: b"c",
        durability_level: DurabilityLevel::PowerLossSafe,
    };
    let result = insert_epoch_unchecked(&mut store, &new_epoch, 0, 1);
    assert!(
        matches!(
            result,
            Err(SyncSqliteError::ExecutionGenerationFenced { expected: 0, current: 1, .. })
        ),
        "an insert whose captured generation no longer matches must be refused before \
         anything is written, got {result:?}"
    );

    let after = lookup_transaction(&store, &tx.transaction_id).unwrap();
    assert_eq!(
        after.epoch_watermark, 0,
        "a refused insert must not bump the watermark, generation fence included"
    );
    assert!(
        list_epochs_for_transaction(&store, &tx.transaction_id).is_empty(),
        "no epoch row may exist after a refused insert, generation fence included"
    );
}

#[test]
fn insert_epoch_refuses_a_stale_plan_revision() {
    let mut store = open();
    let tx = begin_transaction_unchecked(&mut store, &sample_new_transaction(None), 0).unwrap();
    set_plan_revision_unchecked(&mut store, &tx.transaction_id, 0, 1).unwrap();

    let identity = sample_directory_identity();
    let new_epoch = NewEpoch {
        transaction_id: &tx.transaction_id,
        epoch: 0,
        plan_revision: 0,
        target_path: "a.txt",
        placement_role: PlacementRole::CanonicalPath,
        target_generation: b"g",
        parent_directory_identity: &identity,
        capability_snapshot: b"c",
        durability_level: DurabilityLevel::PowerLossSafe,
    };
    let result = insert_epoch_unchecked(&mut store, &new_epoch, 0, 1);
    assert!(
        matches!(result, Err(SyncSqliteError::TransitionRaced { .. })),
        "an insert whose captured plan_revision no longer matches must be refused before \
         anything is written, got {result:?}"
    );

    let after = lookup_transaction(&store, &tx.transaction_id).unwrap();
    assert_eq!(
        after.epoch_watermark, 0,
        "a refused insert must not bump the watermark, plan_revision fence included"
    );
    assert!(
        list_epochs_for_transaction(&store, &tx.transaction_id).is_empty(),
        "no epoch row may exist after a refused insert, plan_revision fence included"
    );
}

#[test]
fn insert_epoch_refuses_async_preservation_and_blocked_phases() {
    let mut store = open();
    let identity = sample_directory_identity();

    let async_tx =
        begin_transaction_unchecked(&mut store, &sample_new_transaction(None), 0).unwrap();
    set_transaction_phase_unchecked(
        &mut store,
        &async_tx.transaction_id,
        0,
        TransactionPhase::Committing,
        None,
        1,
    )
    .unwrap();
    set_transaction_phase_unchecked(
        &mut store,
        &async_tx.transaction_id,
        0,
        TransactionPhase::AsyncPreservation,
        None,
        2,
    )
    .unwrap();
    let async_epoch = NewEpoch {
        transaction_id: &async_tx.transaction_id,
        epoch: 0,
        plan_revision: 0,
        target_path: "a.txt",
        placement_role: PlacementRole::CanonicalPath,
        target_generation: b"g",
        parent_directory_identity: &identity,
        capability_snapshot: b"c",
        durability_level: DurabilityLevel::PowerLossSafe,
    };
    let async_result = insert_epoch_unchecked(&mut store, &async_epoch, 0, 3);
    assert!(
        matches!(async_result, Err(SyncSqliteError::InvalidInput(_))),
        "an insert while the parent is at AsyncPreservation must be refused, got \
         {async_result:?}"
    );
    let async_after = lookup_transaction(&store, &async_tx.transaction_id).unwrap();
    assert_eq!(async_after.epoch_watermark, 0);
    assert!(list_epochs_for_transaction(&store, &async_tx.transaction_id).is_empty());

    let blocked_tx =
        begin_transaction_unchecked(&mut store, &sample_new_transaction(None), 0).unwrap();
    set_transaction_phase_unchecked(
        &mut store,
        &blocked_tx.transaction_id,
        0,
        TransactionPhase::Blocked,
        Some("stalled"),
        1,
    )
    .unwrap();
    let blocked_epoch = NewEpoch {
        transaction_id: &blocked_tx.transaction_id,
        epoch: 0,
        plan_revision: 0,
        target_path: "b.txt",
        placement_role: PlacementRole::CanonicalPath,
        target_generation: b"g",
        parent_directory_identity: &identity,
        capability_snapshot: b"c",
        durability_level: DurabilityLevel::PowerLossSafe,
    };
    let blocked_result = insert_epoch_unchecked(&mut store, &blocked_epoch, 0, 2);
    assert!(
        matches!(blocked_result, Err(SyncSqliteError::InvalidInput(_))),
        "an insert while the parent is Blocked must be refused, got {blocked_result:?}"
    );
    let blocked_after = lookup_transaction(&store, &blocked_tx.transaction_id).unwrap();
    assert_eq!(blocked_after.epoch_watermark, 0);
    assert!(list_epochs_for_transaction(&store, &blocked_tx.transaction_id).is_empty());
}

#[test]
fn a_stale_worker_refused_at_allocation_never_blocks_the_parent_from_completing() {
    let mut store = open();
    let tx = begin_transaction_unchecked(&mut store, &sample_new_transaction(None), 0).unwrap();
    let dir_identity = sample_directory_identity();

    let stale_epoch = NewEpoch {
        transaction_id: &tx.transaction_id,
        epoch: 0,
        plan_revision: 0,
        target_path: "a.txt",
        placement_role: PlacementRole::CanonicalPath,
        target_generation: b"stale",
        parent_directory_identity: &dir_identity,
        capability_snapshot: b"c",
        durability_level: DurabilityLevel::PowerLossSafe,
    };

    increment_execution_generation_unchecked(&mut store, &tx.transaction_id).unwrap();
    set_plan_revision_unchecked(&mut store, &tx.transaction_id, 0, 1).unwrap();

    let stale_result = insert_epoch_unchecked(&mut store, &stale_epoch, 0, 1);
    assert!(
        matches!(
            stale_result,
            Err(SyncSqliteError::ExecutionGenerationFenced { .. })
                | Err(SyncSqliteError::TransitionRaced { .. })
        ),
        "the stale worker's allocation must be refused, got {stale_result:?}"
    );
    assert!(
        list_epochs_for_transaction(&store, &tx.transaction_id).is_empty(),
        "the refused, stale epoch must never exist -- if it did, it could never leave \
         Allocated (every later transition would fail the generation fence it captured) \
         and would block the parent from Completed forever"
    );

    let fresh_epoch = NewEpoch {
        transaction_id: &tx.transaction_id,
        epoch: 0,
        plan_revision: 1,
        target_path: "a.txt",
        placement_role: PlacementRole::CanonicalPath,
        target_generation: b"fresh",
        parent_directory_identity: &dir_identity,
        capability_snapshot: b"c",
        durability_level: DurabilityLevel::PowerLossSafe,
    };
    insert_epoch_unchecked(&mut store, &fresh_epoch, 1, 2).unwrap();

    for (state, at) in [
        (EpochState::Preparing, 3),
        (EpochState::PreparedArtifact, 4),
        (EpochState::AwaitingReservation, 5),
        (EpochState::Prepared, 6),
        (EpochState::Committing, 7),
        (EpochState::Committed, 8),
        (EpochState::CustodyTransferred, 9),
        (EpochState::AwaitingQuiescence, 10),
        (EpochState::ClassifiedKnown, 11),
        (EpochState::Released, 12),
        (EpochState::Completed, 13),
    ] {
        transition_epoch_unchecked(
            &mut store,
            &tx.transaction_id,
            0,
            1,
            state,
            &EpochUpdate::default(),
            at,
            &moves(),
        )
        .unwrap();
    }
    for (state, at) in
        [(TransactionPhase::Committing, 14), (TransactionPhase::AsyncPreservation, 15)]
    {
        set_transaction_phase_unchecked(&mut store, &tx.transaction_id, 1, state, None, at).unwrap();
    }
    set_transaction_phase_unchecked(
        &mut store,
        &tx.transaction_id,
        1,
        TransactionPhase::Completed,
        None,
        16,
    )
    .expect(
        "nothing the refused, stale allocation left behind may block the replanned \
         transaction from completing",
    );
}

#[test]
fn set_plan_revision_is_a_genuine_compare_and_swap_not_an_unconditional_write() {
    let mut store = open();
    let tx = begin_transaction_unchecked(&mut store, &sample_new_transaction(None), 0).unwrap();

    set_plan_revision_unchecked(&mut store, &tx.transaction_id, 0, 1).unwrap();
    let second = set_plan_revision_unchecked(&mut store, &tx.transaction_id, 0, 1);
    assert!(
        matches!(second, Err(SyncSqliteError::TransitionRaced { .. })),
        "a second writer whose own expected_plan_revision (0) no longer matches the row \
         (already 1) must be refused, not silently re-apply the same value as if it had \
         won too: got {second:?}"
    );

    let after = lookup_transaction(&store, &tx.transaction_id).unwrap();
    assert_eq!(after.plan_revision, 1, "only the first writer's revision may land");
}

#[test]
fn set_desired_frontier_hash_is_a_genuine_compare_and_swap_not_an_unconditional_write() {
    let mut store = open();
    let tx = begin_transaction_unchecked(&mut store, &sample_new_transaction(None), 0).unwrap();

    let stale_generation = 0;
    let stale_plan_revision = 0;
    let stale_hash = [0xAA; 32];

    increment_execution_generation_unchecked(&mut store, &tx.transaction_id).unwrap();
    set_plan_revision_unchecked(&mut store, &tx.transaction_id, 0, 1).unwrap();
    let fresh_hash = [0xBB; 32];
    set_desired_frontier_hash_unchecked(&mut store, &tx.transaction_id, 1, 1, fresh_hash).unwrap();

    let stale_write = set_desired_frontier_hash_unchecked(
        &mut store,
        &tx.transaction_id,
        stale_generation,
        stale_plan_revision,
        stale_hash,
    );
    assert!(
        matches!(stale_write, Err(SyncSqliteError::TransitionRaced { .. })),
        "a stale writer whose expected (generation, plan_revision) no longer matches the row \
         must be refused, not silently overwrite the newer hash: got {stale_write:?}"
    );

    let after = lookup_transaction(&store, &tx.transaction_id).unwrap();
    assert_eq!(
        after.desired_frontier_hash, fresh_hash,
        "the newer worker's frontier hash must survive the stale worker's overwrite attempt"
    );
}

#[test]
fn legal_phases_for_new_epochs_is_exactly_planning_and_committing() {
    let legal: Vec<TransactionPhase> =
        TransactionPhase::all().into_iter().filter(|phase| phase.may_receive_new_epochs()).collect();
    assert_eq!(
        legal,
        vec![TransactionPhase::Planning, TransactionPhase::Committing],
        "bump_epoch_watermark_if_not_completed admits exactly these phases"
    );
}

#[test]
fn bump_epoch_watermark_if_not_completed_binds_the_generated_sql() {
    let mut store = open();
    let planning =
        begin_transaction_unchecked(&mut store, &sample_new_transaction(None), 0).unwrap();
    assert!(
        bump_epoch_watermark_if_not_completed(&mut store, &planning.transaction_id, 1).is_ok(),
        "a transaction at Planning may receive a new epoch"
    );
    assert_eq!(
        lookup_transaction(&store, &planning.transaction_id).unwrap().epoch_watermark,
        planning.epoch_watermark + 1,
        "the guarded update must have matched the row it authorized"
    );

    let preserving =
        begin_transaction_unchecked(&mut store, &sample_new_transaction(None), 0).unwrap();
    for (phase, at) in
        [(TransactionPhase::Committing, 1), (TransactionPhase::AsyncPreservation, 2)]
    {
        set_transaction_phase_unchecked(&mut store, &preserving.transaction_id, 0, phase, None, at)
            .unwrap();
    }
    let refused = bump_epoch_watermark_if_not_completed(&mut store, &preserving.transaction_id, 1);
    assert!(
        matches!(refused, Err(SyncSqliteError::InvalidInput(_))),
        "AsyncPreservation is not a phase that may receive a new epoch: {refused:?}"
    );
    assert_eq!(
        lookup_transaction(&store, &preserving.transaction_id).unwrap().epoch_watermark,
        preserving.epoch_watermark,
        "a refused allocation must not have moved the watermark"
    );
}

#[test]
fn transaction_phase_transition_table_matches_the_synthesized_sequence() {
    let planning = TransactionPhase::Planning;
    let committing = TransactionPhase::Committing;
    let preserving = TransactionPhase::AsyncPreservation;
    let blocked = TransactionPhase::Blocked;
    let completed = TransactionPhase::Completed;
    assert!(planning.can_transition_to(committing));
    assert!(committing.can_transition_to(preserving));
    assert!(preserving.can_transition_to(completed));
    assert!(committing.can_transition_to(planning), "replanning returns to Planning");
    assert!(blocked.can_transition_to(planning), "unblocked resumes at Planning");
    assert!(planning.can_transition_to(blocked));
    assert!(!completed.can_transition_to(blocked), "a completed saga cannot be blocked");
    assert!(!blocked.can_transition_to(blocked), "no self-transition");
    assert!(!planning.can_transition_to(completed), "no skipping the sequence");
    assert!(!completed.can_transition_to(planning), "terminal, no resurrection");
}

#[test]
fn a_saga_past_its_commit_replans_through_blocked_only() {
    let planning = TransactionPhase::Planning;
    assert!(!TransactionPhase::AsyncPreservation.can_transition_to(planning));

    let mut store = open();
    let tx = begin_transaction_unchecked(&mut store, &sample_new_transaction(None), 0).unwrap();
    let mut set = |to: TransactionPhase, reason: Option<&str>| {
        set_transaction_phase_unchecked(&mut store, &tx.transaction_id, 0, to, reason, 1)
    };
    set(TransactionPhase::Committing, None).unwrap();
    set(TransactionPhase::AsyncPreservation, None).unwrap();
    let refused = set(planning, None);
    assert!(matches!(refused, Err(SyncSqliteError::InvalidInput(_))), "got {refused:?}");
    set(TransactionPhase::Blocked, Some("a local change")).unwrap();
    set(planning, None).unwrap();
}

#[test]
fn insert_epoch_round_trips_every_field_including_identities() {
    let mut store = open();
    let tx = begin_transaction_unchecked(&mut store, &sample_new_transaction(None), 0).unwrap();
    let dir_identity = sample_directory_identity();
    let new_epoch = NewEpoch {
        transaction_id: &tx.transaction_id,
        epoch: 0,
        plan_revision: 0,
        target_path: "a.txt",
        placement_role: PlacementRole::CanonicalPath,
        target_generation: b"opaque-target",
        parent_directory_identity: &dir_identity,
        capability_snapshot: b"opaque-caps",
        durability_level: DurabilityLevel::PowerLossSafe,
    };
    let written = insert_epoch_unchecked(&mut store, &new_epoch, 0, 1000).unwrap();
    assert_eq!(written.phase, EpochState::Allocated);
    let read_back = lookup_epoch(&store, &tx.transaction_id, 0).unwrap();
    assert_eq!(read_back.transaction_id, written.transaction_id);
    assert_eq!(read_back.epoch, written.epoch);
    assert_eq!(read_back.target_path, written.target_path);
    assert_eq!(read_back.placement_role, written.placement_role);
    assert_eq!(read_back.phase, written.phase);
    assert_eq!(read_back.stage_path, written.stage_path);
    assert_eq!(read_back.staged_identity, written.staged_identity);
    assert_eq!(read_back.displaced_identity, written.displaced_identity);
    assert_eq!(
        read_back.parent_directory_identity.volume_identity,
        dir_identity.volume_identity
    );
    assert_eq!(read_back.parent_directory_identity.object_id, dir_identity.object_id);
    assert_eq!(
        read_back.parent_directory_identity.generation_or_usn,
        dir_identity.generation_or_usn
    );
    assert_eq!(read_back.target_generation, b"opaque-target");
    assert_eq!(read_back.capability_snapshot, b"opaque-caps");
    assert_eq!(read_back.durability_level, DurabilityLevel::PowerLossSafe);
    assert!(read_back.staged_identity.is_none());
}

#[test]
fn epoch_rows_are_never_reused_a_second_epoch_number_is_a_new_row() {
    let mut store = open();
    let tx = begin_transaction_unchecked(&mut store, &sample_new_transaction(None), 0).unwrap();
    let dir_identity = sample_directory_identity();
    for epoch in [0, 1] {
        let new_epoch = NewEpoch {
            transaction_id: &tx.transaction_id,
            epoch,
            plan_revision: 0,
            target_path: "a.txt",
            placement_role: PlacementRole::CanonicalPath,
            target_generation: b"g",
            parent_directory_identity: &dir_identity,
            capability_snapshot: b"c",
            durability_level: DurabilityLevel::PowerLossSafe,
        };
        insert_epoch_unchecked(&mut store, &new_epoch, 0, 0).unwrap();
    }
    assert!(lookup_epoch(&store, &tx.transaction_id, 0).is_some());
    assert!(lookup_epoch(&store, &tx.transaction_id, 1).is_some());
}

#[test]
fn transition_epoch_follows_the_committed_path_and_records_progressive_fields() {
    let mut store = open();
    let tx = begin_transaction_unchecked(&mut store, &sample_new_transaction(None), 0).unwrap();
    let dir_identity = sample_directory_identity();
    let new_epoch = NewEpoch {
        transaction_id: &tx.transaction_id,
        epoch: 0,
        plan_revision: 0,
        target_path: "a.txt",
        placement_role: PlacementRole::CanonicalPath,
        target_generation: b"g",
        parent_directory_identity: &dir_identity,
        capability_snapshot: b"c",
        durability_level: DurabilityLevel::PowerLossSafe,
    };
    insert_epoch_unchecked(&mut store, &new_epoch, 0, 0).unwrap();

    let staged = sample_file_identity();
    let after_prep = transition_epoch_unchecked(
        &mut store,
        &tx.transaction_id,
        0,
        0,
        EpochState::Preparing,
        &EpochUpdate {
            stage_path: Some(".yadorilink-v1-stage.abc"),
            staged_identity: Some(&staged),
            ..Default::default()
        },
        1,
        &moves(),
    )
    .unwrap();
    assert_eq!(after_prep.phase, EpochState::Preparing);
    assert_eq!(after_prep.stage_path.as_deref(), Some(".yadorilink-v1-stage.abc"));
    assert_eq!(after_prep.staged_identity, Some(staged));

    for (state, at) in [
        (EpochState::PreparedArtifact, 2),
        (EpochState::AwaitingReservation, 3),
        (EpochState::Prepared, 4),
        (EpochState::Committing, 5),
        (EpochState::Committed, 6),
        (EpochState::CustodyTransferred, 7),
        (EpochState::AwaitingQuiescence, 8),
        (EpochState::ClassifiedKnown, 9),
        (EpochState::Released, 10),
        (EpochState::Completed, 11),
    ] {
        transition_epoch_unchecked(
            &mut store,
            &tx.transaction_id,
            0,
            0,
            state,
            &EpochUpdate::default(),
            at,
            &moves(),
        )
        .unwrap();
    }
    let final_state = lookup_epoch(&store, &tx.transaction_id, 0).unwrap();
    assert_eq!(final_state.phase, EpochState::Completed);
    assert_eq!(final_state.stage_path.as_deref(), Some(".yadorilink-v1-stage.abc"));
    assert_eq!(final_state.staged_identity, Some(staged));
}

#[test]
fn transition_epoch_refuses_an_illegal_jump() {
    let mut store = open();
    let tx = begin_transaction_unchecked(&mut store, &sample_new_transaction(None), 0).unwrap();
    let dir_identity = sample_directory_identity();
    let new_epoch = NewEpoch {
        transaction_id: &tx.transaction_id,
        epoch: 0,
        plan_revision: 0,
        target_path: "a.txt",
        placement_role: PlacementRole::CanonicalPath,
        target_generation: b"g",
        parent_directory_identity: &dir_identity,
        capability_snapshot: b"c",
        durability_level: DurabilityLevel::PowerLossSafe,
    };
    insert_epoch_unchecked(&mut store, &new_epoch, 0, 0).unwrap();
    let result = transition_epoch_unchecked(
        &mut store,
        &tx.transaction_id,
        0,
        0,
        EpochState::Committed,
        &EpochUpdate::default(),
        1,
        &moves(),
    );
    assert!(matches!(result, Err(SyncSqliteError::InvalidInput(_))));
    let read_back = lookup_epoch(&store, &tx.transaction_id, 0).unwrap();
    assert_eq!(
        read_back.phase,
        EpochState::Allocated,
        "the refused call must not have moved it"
    );
}

#[test]
fn transition_epoch_refuses_on_a_stale_execution_generation() {
    let mut store = open();
    let tx = begin_transaction_unchecked(&mut store, &sample_new_transaction(None), 0).unwrap();
    increment_execution_generation_unchecked(&mut store, &tx.transaction_id).unwrap();
    let dir_identity = sample_directory_identity();
    let new_epoch = NewEpoch {
        transaction_id: &tx.transaction_id,
        epoch: 0,
        plan_revision: 0,
        target_path: "a.txt",
        placement_role: PlacementRole::CanonicalPath,
        target_generation: b"g",
        parent_directory_identity: &dir_identity,
        capability_snapshot: b"c",
        durability_level: DurabilityLevel::PowerLossSafe,
    };
    insert_epoch_unchecked(&mut store, &new_epoch, 1, 0).unwrap();
    let result = transition_epoch_unchecked(
        &mut store,
        &tx.transaction_id,
        0,
        0, // stale
        EpochState::Preparing,
        &EpochUpdate::default(),
        1,
        &moves(),
    );
    assert!(matches!(result, Err(SyncSqliteError::ExecutionGenerationFenced { .. })));
}

#[test]
fn transition_epoch_fences_the_update_itself_against_a_generation_bump_landing_after_the_check() {
    let mut store = open();
    let tx = begin_transaction_unchecked(&mut store, &sample_new_transaction(None), 0).unwrap();
    let dir_identity = sample_directory_identity();
    let new_epoch = NewEpoch {
        transaction_id: &tx.transaction_id,
        epoch: 0,
        plan_revision: 0,
        target_path: "a.txt",
        placement_role: PlacementRole::CanonicalPath,
        target_generation: b"g",
        parent_directory_identity: &dir_identity,
        capability_snapshot: b"c",
        durability_level: DurabilityLevel::PowerLossSafe,
    };
    insert_epoch_unchecked(&mut store, &new_epoch, 0, 0).unwrap();

    // Matches the generation at check time.
    let seen = decide_transition(
        &store,
        &tx.transaction_id,
        0,
        0,
        EpochState::Preparing,
        &moves(),
    )
    .unwrap();
    store.transactions[0].execution_generation += 1;
    let result = write_transition(
        &mut store,
        &tx.transaction_id,
        0,
        0,
        seen,
        EpochState::Preparing,
        &EpochUpdate::default(),
        1,
    );
    assert!(
        matches!(result, Err(SyncSqliteError::ExecutionGenerationFenced { .. })),
        "the update must re-check the fence itself, got {result:?}"
    );

    let read_back = lookup_epoch(&store, &tx.transaction_id, 0).unwrap();
    assert_eq!(
        read_back.phase,
        EpochState::Allocated,
        "the epoch phase must be untouched by the fenced update"
    );
}

#[test]
fn transition_epoch_refuses_a_sibling_that_raced_it_to_the_same_source_phase() {
    let mut store = open();
    let tx = begin_transaction_unchecked(&mut store, &sample_new_transaction(None), 0).unwrap();
    let dir_identity = sample_directory_identity();
    let new_epoch = NewEpoch {
        transaction_id: &tx.transaction_id,
        epoch: 0,
        plan_revision: 0,
        target_path: "a.txt",
        placement_role: PlacementRole::CanonicalPath,
        target_generation: b"g",
        parent_directory_identity: &dir_identity,
        capability_snapshot: b"c",
        durability_level: DurabilityLevel::PowerLossSafe,
    };
    insert_epoch_unchecked(&mut store, &new_epoch, 0, 0).unwrap();
    for (state, at) in [
        (EpochState::Preparing, 1),
        (EpochState::PreparedArtifact, 2),
        (EpochState::AwaitingReservation, 3),
        (EpochState::Prepared, 4),
        (EpochState::Committing, 5),
    ] {
        transition_epoch_unchecked(
            &mut store,
            &tx.transaction_id,
            0,
            0,
            state,
            &EpochUpdate::default(),
            at,
            &moves(),
        )
        .unwrap();
    }

    // Both workers decide from Committing, at a generation neither touched.
    let victim = decide_transition(
        &store,
        &tx.transaction_id,
        0,
        0,
        EpochState::Committed,
        &moves(),
    )
    .unwrap();
    let racer = decide_transition(
        &store,
        &tx.transaction_id,
        0,
        0,
        EpochState::RequiresPhysicalRecovery,
        &moves(),
    )
    .unwrap();
    write_transition(
        &mut store,
        &tx.transaction_id,
        0,
        0,
        racer,
        EpochState::RequiresPhysicalRecovery,
        &EpochUpdate::default(),
        6,
    )
    .unwrap();
    let result = write_transition(
        &mut store,
        &tx.transaction_id,
        0,
        0,
        victim,
        EpochState::Committed,
        &EpochUpdate::default(),
        6,
    );
    assert!(
        matches!(result, Err(SyncSqliteError::TransitionRaced { .. })),
        "the update must re-check the source phase itself, got {result:?}"
    );
    if let Err(SyncSqliteError::TransitionRaced { expected_state, current_state, .. }) = &result {
        assert_eq!(expected_state, EpochState::Committing.db_str());
        assert_eq!(current_state, EpochState::RequiresPhysicalRecovery.db_str());
    }

    let read_back = lookup_epoch(&store, &tx.transaction_id, 0).unwrap();
    assert_eq!(
        read_back.phase,
        EpochState::RequiresPhysicalRecovery,
        "the racer's decision must not be silently overwritten by the victim's stale-phase update"
    );
}

#[test]
fn set_transaction_phase_refuses_a_sibling_that_raced_it_to_the_same_source_phase() {
    let mut store = open();
    let tx = begin_transaction_unchecked(&mut store, &sample_new_transaction(None), 0).unwrap();
    set_transaction_phase_unchecked(
        &mut store,
        &tx.transaction_id,
        0,
        TransactionPhase::Committing,
        None,
        1,
    )
    .unwrap();

    let victim =
        decide_phase_change(&store, &tx.transaction_id, 0, TransactionPhase::AsyncPreservation)
            .unwrap();
    set_transaction_phase_unchecked(
        &mut store,
        &tx.transaction_id,
        0,
        TransactionPhase::Planning,
        None,
        2,
    )
    .unwrap();
    let result = write_phase_change(
        &mut store,
        &tx.transaction_id,
        0,
        &victim,
        TransactionPhase::AsyncPreservation,
        None,
        2,
    );
    assert!(matches!(result, Err(SyncSqliteError::TransitionRaced { .. })), "got {result:?}");

    let read_back = lookup_transaction(&store, &tx.transaction_id).unwrap();
    assert_eq!(
        read_back.phase,
        TransactionPhase::Planning,
        "the racer's decision must not be silently overwritten"
    );
}

#[test]
fn set_transaction_phase_refuses_to_complete_while_an_epoch_is_not_yet_completed() {
    let mut store = open();
    let tx = begin_transaction_unchecked(&mut store, &sample_new_transaction(None), 0).unwrap();
    let dir_identity = sample_directory_identity();
    insert_epoch_unchecked(
        &mut store,
        &NewEpoch {
            transaction_id: &tx.transaction_id,
            epoch: 0,
            plan_revision: 0,
            target_path: "a.txt",
            placement_role: PlacementRole::CanonicalPath,
            target_generation: b"g",
            parent_directory_identity: &dir_identity,
            capability_snapshot: b"c",
            durability_level: DurabilityLevel::PowerLossSafe,
        },
        0,
        0,
    )
    .unwrap();
    for (state, at) in [
        (EpochState::Preparing, 1),
        (EpochState::PreparedArtifact, 2),
        (EpochState::AwaitingReservation, 3),
        (EpochState::Prepared, 4),
        (EpochState::Committing, 5),
    ] {
        transition_epoch_unchecked(
            &mut store,
            &tx.transaction_id,
            0,
            0,
            state,
            &EpochUpdate::default(),
            at,
            &moves(),
        )
        .unwrap();
    }

    for (state, at) in
        [(TransactionPhase::Committing, 6), (TransactionPhase::AsyncPreservation, 7)]
    {
        set_transaction_phase_unchecked(&mut store, &tx.transaction_id, 0, state, None, at).unwrap();
    }
    let result = set_transaction_phase_unchecked(
        &mut store,
        &tx.transaction_id,
        0,
        TransactionPhase::Completed,
        None,
        8,
    );
    assert!(matches!(result, Err(SyncSqliteError::InvalidInput(_))), "got {result:?}");
    let read_back = lookup_transaction(&store, &tx.transaction_id).unwrap();
    assert_eq!(
        read_back.phase,
        TransactionPhase::AsyncPreservation,
        "the refused completion must not have moved the parent"
    );

    for (state, at) in [
        (EpochState::Committed, 9),
        (EpochState::CustodyTransferred, 10),
        (EpochState::AwaitingQuiescence, 11),
        (EpochState::ClassifiedKnown, 12),
        (EpochState::Released, 13),
        (EpochState::Completed, 14),
    ] {
        transition_epoch_unchecked(
            &mut store,
            &tx.transaction_id,
            0,
            0,
            state,
            &EpochUpdate::default(),
            at,
            &moves(),
        )
        .unwrap();
    }
    set_transaction_phase_unchecked(
        &mut store,
        &tx.transaction_id,
        0,
        TransactionPhase::Completed,
        None,
        15,
    )
    .unwrap();
}

#[test]
fn set_transaction_phase_completes_around_epochs_settled_at_a_non_completed_terminal_state() {
    let mut store = open();
    let tx = begin_transaction_unchecked(&mut store, &sample_new_transaction(None), 0).unwrap();
    let dir_identity = sample_directory_identity();

    insert_epoch_unchecked(
        &mut store,
        &NewEpoch {
            transaction_id: &tx.transaction_id,
            epoch: 1,
            plan_revision: 0,
            target_path: "b.txt",
            placement_role: PlacementRole::CanonicalPath,
            target_generation: b"g",
            parent_directory_identity: &dir_identity,
            capability_snapshot: b"c",
            durability_level: DurabilityLevel::PowerLossSafe,
        },
        0,
        0,
    )
    .unwrap();
    for (state, at) in [
        (EpochState::Preparing, 1),
        (EpochState::PreparedArtifact, 2),
        (EpochState::AwaitingReservation, 3),
        (EpochState::Prepared, 4),
        (EpochState::Committing, 5),
        (EpochState::Quarantined, 6),
    ] {
        transition_epoch_unchecked(
            &mut store,
            &tx.transaction_id,
            1,
            0,
            state,
            &Default::default(),
            at,
            &moves(),
        )
        .unwrap();
    }

    insert_epoch_unchecked(
        &mut store,
        &NewEpoch {
            transaction_id: &tx.transaction_id,
            epoch: 2,
            plan_revision: 0,
            target_path: "c.txt",
            placement_role: PlacementRole::CanonicalPath,
            target_generation: b"g",
            parent_directory_identity: &dir_identity,
            capability_snapshot: b"c",
            durability_level: DurabilityLevel::PowerLossSafe,
        },
        0,
        0,
    )
    .unwrap();
    transition_epoch_unchecked(
        &mut store,
        &tx.transaction_id,
        2,
        0,
        EpochState::Blocked,
        &EpochUpdate::default(),
        1,
        &moves(),
    )
    .unwrap();

    insert_epoch_unchecked(
        &mut store,
        &NewEpoch {
            transaction_id: &tx.transaction_id,
            epoch: 3,
            plan_revision: 0,
            target_path: "d.txt",
            placement_role: PlacementRole::CanonicalPath,
            target_generation: b"g",
            parent_directory_identity: &dir_identity,
            capability_snapshot: b"c",
            durability_level: DurabilityLevel::PowerLossSafe,
        },
        0,
        0,
    )
    .unwrap();
    for (state, at) in [
        (EpochState::Preparing, 1),
        (EpochState::PreparedArtifact, 2),
        (EpochState::AwaitingReservation, 3),
        (EpochState::Prepared, 4),
        (EpochState::Committing, 5),
        (EpochState::Committed, 6),
        (EpochState::CustodyTransferred, 7),
        (EpochState::AwaitingQuiescence, 8),
        (EpochState::ClassifiedKnown, 9),
        (EpochState::Released, 10),
        (EpochState::Completed, 11),
    ] {
        transition_epoch_unchecked(
            &mut store,
            &tx.transaction_id,
            3,
            0,
            state,
            &Default::default(),
            at,
            &moves(),
        )
        .unwrap();
    }

    for (state, at) in
        [(TransactionPhase::Committing, 20), (TransactionPhase::AsyncPreservation, 21)]
    {
        set_transaction_phase_unchecked(&mut store, &tx.transaction_id, 0, state, None, at).unwrap();
    }
    set_transaction_phase_unchecked(
        &mut store,
        &tx.transaction_id,
        0,
        TransactionPhase::Completed,
        None,
        22,
    )
    .expect(
        "Quarantined/Blocked epochs are settled outcomes and must not block the parent from \
         completing",
    );
}

#[test]
fn set_transaction_phase_refuses_to_complete_while_an_epoch_is_at_requires_physical_recovery() {
    let mut store = open();
    let tx = begin_transaction_unchecked(&mut store, &sample_new_transaction(None), 0).unwrap();
    let dir_identity = sample_directory_identity();
    insert_epoch_unchecked(
        &mut store,
        &NewEpoch {
            transaction_id: &tx.transaction_id,
            epoch: 0,
            plan_revision: 0,
            target_path: "a.txt",
            placement_role: PlacementRole::CanonicalPath,
            target_generation: b"g",
            parent_directory_identity: &dir_identity,
            capability_snapshot: b"c",
            durability_level: DurabilityLevel::PowerLossSafe,
        },
        0,
        0,
    )
    .unwrap();
    for (state, at) in [
        (EpochState::Preparing, 1),
        (EpochState::PreparedArtifact, 2),
        (EpochState::AwaitingReservation, 3),
        (EpochState::Prepared, 4),
        (EpochState::Committing, 5),
        (EpochState::RequiresPhysicalRecovery, 6),
    ] {
        transition_epoch_unchecked(
            &mut store,
            &tx.transaction_id,
            0,
            0,
            state,
            &Default::default(),
            at,
            &moves(),
        )
        .unwrap();
    }

    for (state, at) in
        [(TransactionPhase::Committing, 7), (TransactionPhase::AsyncPreservation, 8)]
    {
        set_transaction_phase_unchecked(&mut store, &tx.transaction_id, 0, state, None, at).unwrap();
    }
    let result = set_transaction_phase_unchecked(
        &mut store,
        &tx.transaction_id,
        0,
        TransactionPhase::Completed,
        None,
        9,
    );
    assert!(matches!(result, Err(SyncSqliteError::InvalidInput(_))), "got {result:?}");
    let read_back = lookup_transaction(&store, &tx.transaction_id).unwrap();
    assert_eq!(
        read_back.phase,
        TransactionPhase::AsyncPreservation,
        "the refused completion must not have moved the parent"
    );

    for (state, at) in [
        (EpochState::Committed, 10),
        (EpochState::CustodyTransferred, 11),
        (EpochState::AwaitingQuiescence, 12),
        (EpochState::ClassifiedKnown, 13),
        (EpochState::Released, 14),
        (EpochState::Completed, 15),
    ] {
        transition_epoch_unchecked(
            &mut store,
            &tx.transaction_id,
            0,
            0,
            state,
            &EpochUpdate::default(),
            at,
            &moves(),
        )
        .unwrap();
    }
    set_transaction_phase_unchecked(
        &mut store,
        &tx.transaction_id,
        0,
        TransactionPhase::Completed,
        None,
        16,
    )
    .expect("the epoch reached Completed, so the parent may too");
}

#[test]
fn set_transaction_phase_completes_after_a_blocked_epoch_is_replanned_into_a_fresh_one() {
    let mut store = open();
    let tx = begin_transaction_unchecked(&mut store, &sample_new_transaction(None), 0).unwrap();
    let dir_identity = sample_directory_identity();

    insert_epoch_unchecked(
        &mut store,
        &NewEpoch {
            transaction_id: &tx.transaction_id,
            epoch: 0,
            plan_revision: 0,
            target_path: "a.txt",
            placement_role: PlacementRole::CanonicalPath,
            target_generation: b"g",
            parent_directory_identity: &dir_identity,
            capability_snapshot: b"c",
            durability_level: DurabilityLevel::PowerLossSafe,
        },
        0,
        0,
    )
    .unwrap();
    set_transaction_phase_unchecked(
        &mut store,
        &tx.transaction_id,
        0,
        TransactionPhase::Committing,
        None,
        1,
    )
    .unwrap();
    for (state, at) in [
        (EpochState::Preparing, 2),
        (EpochState::PreparedArtifact, 3),
        (EpochState::AwaitingReservation, 4),
        (EpochState::Prepared, 5),
        (EpochState::Committing, 6),
    ] {
        transition_epoch_unchecked(
            &mut store,
            &tx.transaction_id,
            0,
            0,
            state,
            &Default::default(),
            at,
            &moves(),
        )
        .unwrap();
    }
    transition_epoch_unchecked(
        &mut store,
        &tx.transaction_id,
        0,
        0,
        EpochState::Blocked,
        &EpochUpdate::default(),
        7,
        &moves(),
    )
    .unwrap();
    set_transaction_phase_unchecked(
        &mut store,
        &tx.transaction_id,
        0,
        TransactionPhase::Blocked,
        Some("epoch 0 is non-retryable"),
        8,
    )
    .unwrap();
    set_transaction_phase_unchecked(
        &mut store,
        &tx.transaction_id,
        0,
        TransactionPhase::Planning,
        None,
        9,
    )
    .unwrap();
    set_plan_revision_unchecked(&mut store, &tx.transaction_id, 0, 1).unwrap();

    insert_epoch_unchecked(
        &mut store,
        &NewEpoch {
            transaction_id: &tx.transaction_id,
            epoch: 1,
            plan_revision: 1,
            target_path: "a.txt",
            placement_role: PlacementRole::CanonicalPath,
            target_generation: b"g2",
            parent_directory_identity: &dir_identity,
            capability_snapshot: b"c",
            durability_level: DurabilityLevel::PowerLossSafe,
        },
        0,
        10,
    )
    .unwrap();
    for (state, at) in [
        (EpochState::Preparing, 11),
        (EpochState::PreparedArtifact, 12),
        (EpochState::AwaitingReservation, 13),
        (EpochState::Prepared, 14),
        (EpochState::Committing, 15),
        (EpochState::Committed, 16),
        (EpochState::CustodyTransferred, 17),
        (EpochState::AwaitingQuiescence, 18),
        (EpochState::ClassifiedKnown, 19),
        (EpochState::Released, 20),
        (EpochState::Completed, 21),
    ] {
        transition_epoch_unchecked(
            &mut store,
            &tx.transaction_id,
            1,
            0,
            state,
            &Default::default(),
            at,
            &moves(),
        )
        .unwrap();
    }

    for (state, at) in
        [(TransactionPhase::Committing, 22), (TransactionPhase::AsyncPreservation, 23)]
    {
        set_transaction_phase_unchecked(&mut store, &tx.transaction_id, 0, state, None, at).unwrap();
    }
    set_transaction_phase_unchecked(
        &mut store,
        &tx.transaction_id,
        0,
        TransactionPhase::Completed,
        None,
        24,
    )
    .expect(
        "a replanned saga must be able to complete even though the epoch it replanned away \
         from is permanently stuck at Blocked",
    );

    let blocked_epoch = lookup_epoch(&store, &tx.transaction_id, 0).unwrap();
    assert_eq!(
        blocked_epoch.phase,
        EpochState::Blocked,
        "the replanned-away epoch must be left exactly where it was, not retroactively \
         touched"
    );
}

#[test]
fn epoch_state_committing_can_retreat_to_prepared_after_a_provably_no_op_outcome() {
    let mut store = open();
    let tx = begin_transaction_unchecked(&mut store, &sample_new_transaction(None), 0).unwrap();
    let dir_identity = sample_directory_identity();
    let new_epoch = NewEpoch {
        transaction_id: &tx.transaction_id,
        epoch: 0,
        plan_revision: 0,
        target_path: "a.txt",
        placement_role: PlacementRole::CanonicalPath,
        target_generation: b"g",
        parent_directory_identity: &dir_identity,
        capability_snapshot: b"c",
        durability_level: DurabilityLevel::PowerLossSafe,
    };
    insert_epoch_unchecked(&mut store, &new_epoch, 0, 0).unwrap();

    for (at, to) in [
        (1, EpochState::Preparing),
        (2, EpochState::PreparedArtifact),
        (3, EpochState::AwaitingReservation),
        (4, EpochState::Prepared),
        (5, EpochState::Committing),
    ] {
        transition_epoch_unchecked(
            &mut store,
            &tx.transaction_id,
            0,
            0,
            to,
            &EpochUpdate::default(),
            at,
            &moves(),
        )
        .unwrap();
    }

    let retried = transition_epoch_unchecked(
        &mut store,
        &tx.transaction_id,
        0,
        0,
        EpochState::Prepared,
        &EpochUpdate::default(),
        6,
        &moves(),
    )
    .unwrap();
    assert_eq!(retried.phase, EpochState::Prepared);

    transition_epoch_unchecked(
        &mut store,
        &tx.transaction_id,
        0,
        0,
        EpochState::Committing,
        &EpochUpdate::default(),
        7,
        &moves(),
    )
    .unwrap();
    let committed = transition_epoch_unchecked(
        &mut store,
        &tx.transaction_id,
        0,
        0,
        EpochState::Committed,
        &EpochUpdate::default(),
        8,
        &moves(),
    )
    .unwrap();
    assert_eq!(committed.phase, EpochState::Committed);
}

#[test]
fn path_key_captures_the_exact_path_and_every_descendant() {
    let root = path_key("ab").unwrap();
    let end = subtree_end_key(&root);
    let exact = path_key("ab").unwrap();
    let child = path_key("ab/child").unwrap();
    let grandchild = path_key("ab/cd/ef").unwrap();
    assert!(ranges_overlap(&root, &end, &exact, &subtree_end_key(&exact)));
    assert!(exact >= root && exact < end);
    assert!(child >= root && child < end, "a direct child must be captured");
    assert!(
        grandchild >= root && grandchild < end,
        "a multi-level descendant must be captured"
    );
}

#[test]
fn path_key_does_not_falsely_capture_an_unrelated_sibling_sharing_a_string_prefix() {
    let root = path_key("ab").unwrap();
    let end = subtree_end_key(&root);
    for sibling in ["abc", "ab!", "ab depths", "ab.txt"] {
        let key = path_key(sibling).unwrap();
        assert!(
            !(key >= root && key < end),
            "{sibling:?} must not be captured by \"ab\"'s subtree range"
        );
    }
}

#[test]
fn path_key_refuses_a_nul_byte() {
    let result = path_key("a\0b");
    assert!(matches!(result, Err(SyncSqliteError::InvalidInput(_))));
}

#[test]
fn path_key_rejects_dot_dotdot_and_empty_segments() {
    for bad in ["a/./b", "a/../b", "a//b", "/a", "a/", "."] {
        let result = path_key(bad);
        assert!(result.is_err(), "{bad:?} should have been refused, got {result:?}");
    }
}

#[test]
fn path_key_treats_backslash_as_a_separator_like_a_forward_slash() {
    assert_eq!(path_key("a\\b").unwrap(), path_key("a/b").unwrap());
}

#[test]
fn path_key_backslash_alias_collapses_to_the_same_key_as_its_forward_slash_form() {
    assert_eq!(path_key("a\\b").unwrap(), path_key("a/b").unwrap());
}

#[test]
fn path_key_refuses_dot_and_dotdot_aliases_rather_than_resolving_them() {
    for alias in ["a/./b", "a/x/../b"] {
        let result = path_key(alias);
        assert!(
            matches!(result, Err(SyncSqliteError::InvalidInput(_))),
            "{alias:?} -> {result:?}"
        );
    }
}

#[test]
fn root_subtree_range_contains_every_descendant_key() {
    let root = path_key("").unwrap();
    assert!(root.is_empty(), "the sync root's path_key must be the empty key");
    let end = subtree_end_key(&root);
    assert_eq!(end, vec![0xFF]);
    for descendant in
        ["a", "z", "dir/child.txt", "dir/sub/grandchild", "\u{f4}\u{8f}\u{bf}\u{bf}"]
    {
        let key = path_key(descendant).unwrap();
        assert!(
            ranges_overlap(&root, &end, &key, &subtree_end_key(&key)),
            "{descendant:?}'s key must fall inside the root subtree range"
        );
    }
}

#[test]
fn acquire_reservations_lets_a_root_subtree_exclusive_block_every_descendant() {
    let mut store = open();
    acquire_reservations_unchecked(
        &mut store,
        &[NewReservation {
            group_id: "g",
            transaction_id: "tx-a",
            scope: ReservationScope::SubtreeExclusive,
            path: "",
            role: ReservationRole::SubtreeRoot,
        }],
        0,
        &conflicts(),
    )
    .unwrap();
    let result = acquire_reservations_unchecked(
        &mut store,
        &[NewReservation {
            group_id: "g",
            transaction_id: "tx-b",
            scope: ReservationScope::Exact,
            path: "anything.txt",
            role: ReservationRole::CanonicalPath,
        }],
        1,
        &conflicts(),
    );
    assert!(
        matches!(result, Err(SyncSqliteError::ReservationConflict { .. })),
        "a root subtree_exclusive reservation must block every descendant, got {result:?}"
    );
}

#[test]
fn acquire_reservations_treats_a_backslash_alias_as_a_conflict() {
    let mut store = open();
    acquire_reservations_unchecked(
        &mut store,
        &[NewReservation {
            group_id: "g",
            transaction_id: "tx-a",
            scope: ReservationScope::Exact,
            path: "a/b",
            role: ReservationRole::CanonicalPath,
        }],
        0,
        &conflicts(),
    )
    .unwrap();
    let result = acquire_reservations_unchecked(
        &mut store,
        &[NewReservation {
            group_id: "g",
            transaction_id: "tx-b",
            scope: ReservationScope::Exact,
            path: "a\\b",
            role: ReservationRole::CanonicalPath,
        }],
        1,
        &conflicts(),
    );
    assert!(
        matches!(result, Err(SyncSqliteError::ReservationConflict { .. })),
        "\"a\\\\b\" must conflict with an existing reservation on \"a/b\", got {result:?}"
    );
}

#[test]
fn acquire_reservations_grants_non_overlapping_requests_from_different_transactions() {
    let mut store = open();
    let requests = [
        NewReservation {
            group_id: "g",
            transaction_id: "tx-a",
            scope: ReservationScope::Exact,
            path: "a.txt",
            role: ReservationRole::CanonicalPath,
        },
        NewReservation {
            group_id: "g",
            transaction_id: "tx-b",
            scope: ReservationScope::Exact,
            path: "b.txt",
            role: ReservationRole::CanonicalPath,
        },
    ];
    for request in &requests {
        let ids = acquire_reservations_unchecked(&mut store, std::slice::from_ref(request), 0, &conflicts())
            .unwrap();
        assert_eq!(ids.len(), 1);
    }
    assert_eq!(list_reservations(&store, "tx-a").len(), 1);
    assert_eq!(list_reservations(&store, "tx-b").len(), 1);
}

#[test]
fn acquire_reservations_is_all_or_none_on_conflict() {
    let mut store = open();
    acquire_reservations_unchecked(
        &mut store,
        &[NewReservation {
            group_id: "g",
            transaction_id: "tx-a",
            scope: ReservationScope::Exact,
            path: "shared.txt",
            role: ReservationRole::CanonicalPath,
        }],
        0,
        &conflicts(),
    )
    .unwrap();

    let batch = [
        NewReservation {
            group_id: "g",
            transaction_id: "tx-b",
            scope: ReservationScope::Exact,
            path: "unrelated.txt",
            role: ReservationRole::CanonicalPath,
        },
        NewReservation {
            group_id: "g",
            transaction_id: "tx-b",
            scope: ReservationScope::Exact,
            path: "shared.txt",
            role: ReservationRole::CanonicalPath,
        },
    ];
    let result = acquire_reservations_unchecked(&mut store, &batch, 1, &conflicts());
    assert!(matches!(result, Err(SyncSqliteError::ReservationConflict { .. })));
    assert!(
        list_reservations(&store, "tx-b").is_empty(),
        "a partially-acquired batch must never be left holding a subset"
    );
}

#[test]
fn reservations_acquired_in_an_open_transaction_are_held_by_its_rows() {
    let mut store = open();
    let batch = [
        NewReservation {
            group_id: "g",
            transaction_id: "tx-a",
            scope: ReservationScope::Exact,
            path: "a.txt",
            role: ReservationRole::CanonicalPath,
        },
        NewReservation {
            group_id: "g",
            transaction_id: "tx-a",
            scope: ReservationScope::Exact,
            path: "b.txt",
            role: ReservationRole::CanonicalPath,
        },
    ];
    let ids =
        acquire_reservations_in_open_transaction(&mut store, &batch, 0, &conflicts()).unwrap();
    let held = list_reservations(&store, "tx-a");
    assert_eq!(held.len(), 2);
    for (id, held) in ids.iter().zip(&held) {
        assert_eq!(id, &held.reservation_id);
    }
}

#[test]
fn acquire_reservations_conflicts_with_its_own_transactions_prior_reservation_on_an_overlapping_path(
) {
    let mut store = open();
    acquire_reservations_unchecked(
        &mut store,
        &[NewReservation {
            group_id: "g",
            transaction_id: "tx-a",
            scope: ReservationScope::Exact,
            path: "a.txt",
            role: ReservationRole::CanonicalPath,
        }],
        0,
        &conflicts(),
    )
    .unwrap();
    let result = acquire_reservations_unchecked(
        &mut store,
        &[NewReservation {
            group_id: "g",
            transaction_id: "tx-a",
            scope: ReservationScope::Exact,
            path: "a.txt",
            role: ReservationRole::ConflictCopy,
        }],
        1,
        &conflicts(),
    );
    assert!(
        matches!(
            &result,
            Err(SyncSqliteError::ReservationConflict { blocking_transaction_id, .. })
                if blocking_transaction_id == "tx-a"
        ),
        "an overlapping reservation for the same transaction must now conflict against \
         its own prior reservation, got {result:?}"
    );
    assert_eq!(list_reservations(&store, "tx-a").len(), 1);
}

#[test]
fn a_second_slice_of_one_transaction_on_a_different_connection_cannot_acquire_an_overlapping_path()
{
    let mut store = open();
    acquire_reservations_unchecked(
        &mut store,
        &[NewReservation {
            group_id: "g",
            transaction_id: "tx-shared",
            scope: ReservationScope::Exact,
            path: "shared.txt",
            role: ReservationRole::CanonicalPath,
        }],
        0,
        &conflicts(),
    )
    .unwrap();

    // The second slice sees the same committed rows.
    let result = acquire_reservations_unchecked(
        &mut store,
        &[NewReservation {
            group_id: "g",
            transaction_id: "tx-shared",
            scope: ReservationScope::Exact,
            path: "shared.txt",
            role: ReservationRole::ConflictCopy,
        }],
        1,
        &conflicts(),
    );
    assert!(
        matches!(
            &result,
            Err(SyncSqliteError::ReservationConflict { blocking_transaction_id, .. })
                if blocking_transaction_id == "tx-shared"
        ),
        "a second slice of the same transaction must not be able to acquire an overlapping \
         reservation, got {result:?}"
    );

    assert_eq!(list_reservations(&store, "tx-shared").len(), 1);
}

#[test]
fn acquire_reservations_lets_a_subtree_exclusive_block_a_descendant_exact() {
    let mut store = open();
    acquire_reservations_unchecked(
        &mut store,
        &[NewReservation {
            group_id: "g",
            transaction_id: "tx-a",
            scope: ReservationScope::SubtreeExclusive,
            path: "dir",
            role: ReservationRole::SubtreeRoot,
        }],
        0,
        &conflicts(),
    )
    .unwrap();
    let result = acquire_reservations_unchecked(
        &mut store,
        &[NewReservation {
            group_id: "g",
            transaction_id: "tx-b",
            scope: ReservationScope::Exact,
            path: "dir/child.txt",
            role: ReservationRole::CanonicalPath,
        }],
        1,
        &conflicts(),
    );
    assert!(matches!(result, Err(SyncSqliteError::ReservationConflict { .. })));
}

#[test]
fn one_batch_may_hold_a_subtree_and_a_placement_inside_it() {
    let mut store = open();
    let ids = acquire_reservations_unchecked(
        &mut store,
        &[
            NewReservation {
                group_id: "g",
                transaction_id: "tx-a",
                scope: ReservationScope::SubtreeExclusive,
                path: "dir",
                role: ReservationRole::SubtreeRoot,
            },
            NewReservation {
                group_id: "g",
                transaction_id: "tx-a",
                scope: ReservationScope::Exact,
                path: "dir/child.txt",
                role: ReservationRole::CanonicalPath,
            },
        ],
        0,
        &conflicts(),
    )
    .expect(
        "a group's subtree reservation and a placement inside it are one slice's request \
         set, and must be acquirable together",
    );
    assert_eq!(ids.len(), 2);
    assert_eq!(list_reservations(&store, "tx-a").len(), 2);

    let other = acquire_reservations_unchecked(
        &mut store,
        &[NewReservation {
            group_id: "g",
            transaction_id: "tx-b",
            scope: ReservationScope::Exact,
            path: "dir/child.txt",
            role: ReservationRole::CanonicalPath,
        }],
        1,
        &conflicts(),
    );
    assert!(
        matches!(other, Err(SyncSqliteError::ReservationConflict { .. })),
        "a different transaction must still be blocked, got {other:?}"
    );
}

#[test]
fn acquire_reservations_allows_two_subtree_intents_on_the_same_path() {
    let mut store = open();
    acquire_reservations_unchecked(
        &mut store,
        &[NewReservation {
            group_id: "g",
            transaction_id: "tx-a",
            scope: ReservationScope::SubtreeIntent,
            path: "dir",
            role: ReservationRole::SubtreeRoot,
        }],
        0,
        &conflicts(),
    )
    .unwrap();
    let result = acquire_reservations_unchecked(
        &mut store,
        &[NewReservation {
            group_id: "g",
            transaction_id: "tx-b",
            scope: ReservationScope::SubtreeIntent,
            path: "dir",
            role: ReservationRole::SubtreeRoot,
        }],
        1,
        &conflicts(),
    );
    assert!(result.is_ok(), "two intents on the same subtree do not conflict");
}

#[test]
fn release_reservations_frees_the_namespace_for_a_later_conflicting_request() {
    let mut store = open();
    acquire_reservations_unchecked(
        &mut store,
        &[NewReservation {
            group_id: "g",
            transaction_id: "tx-a",
            scope: ReservationScope::Exact,
            path: "a.txt",
            role: ReservationRole::CanonicalPath,
        }],
        0,
        &conflicts(),
    )
    .unwrap();
    release_reservations_unchecked(&mut store, "tx-a");
    assert!(list_reservations(&store, "tx-a").is_empty());
    let result = acquire_reservations_unchecked(
        &mut store,
        &[NewReservation {
            group_id: "g",
            transaction_id: "tx-b",
            scope: ReservationScope::Exact,
            path: "a.txt",
            role: ReservationRole::CanonicalPath,
        }],
        1,
        &conflicts(),
    );
    assert!(result.is_ok(), "the released path must now be free");
}

#[test]
fn bump_touches_only_the_transaction_holding_the_exact_path() {
    let mut store = open();
    let tx_a = begin_transaction_unchecked(&mut store, &sample_new_transaction(None), 0).unwrap();
    let tx_b = begin_transaction_unchecked(&mut store, &sample_new_transaction(None), 0).unwrap();
    acquire_reservations_unchecked(
        &mut store,
        &[NewReservation {
            group_id: "g",
            transaction_id: &tx_a.transaction_id,
            scope: ReservationScope::Exact,
            path: "held/path.txt",
            role: ReservationRole::CanonicalPath,
        }],
        0,
        &conflicts(),
    )
    .unwrap();

    let bumped =
        bump_transactions_for_touched_paths_unchecked(&mut store, "g", &["held/path.txt"]).unwrap();
    assert_eq!(bumped, vec![tx_a.transaction_id.clone()]);

    let a_after = lookup_transaction(&store, &tx_a.transaction_id).unwrap();
    assert_eq!(a_after.execution_generation, 1, "the holder's fence must advance");
    let b_after = lookup_transaction(&store, &tx_b.transaction_id).unwrap();
    assert_eq!(b_after.execution_generation, 0, "an uninvolved transaction must not move");
}

#[test]
fn bump_on_an_unheld_path_bumps_nothing() {
    let mut store = open();
    let tx_a = begin_transaction_unchecked(&mut store, &sample_new_transaction(None), 0).unwrap();

    let bumped =
        bump_transactions_for_touched_paths_unchecked(&mut store, "g", &["nobody/holds/this.txt"])
            .unwrap();
    assert!(bumped.is_empty(), "nothing is reserved, so nothing should be reported bumped");

    let a_after = lookup_transaction(&store, &tx_a.transaction_id).unwrap();
    assert_eq!(a_after.execution_generation, 0, "an unheld path must cost the fence nothing");
}

#[test]
fn bump_on_a_path_inside_a_held_subtree_bumps_the_subtree_holder() {
    let mut store = open();
    let tx_a = begin_transaction_unchecked(&mut store, &sample_new_transaction(None), 0).unwrap();
    acquire_reservations_unchecked(
        &mut store,
        &[NewReservation {
            group_id: "g",
            transaction_id: &tx_a.transaction_id,
            scope: ReservationScope::SubtreeExclusive,
            path: "dir",
            role: ReservationRole::SubtreeRoot,
        }],
        0,
        &conflicts(),
    )
    .unwrap();

    let bumped =
        bump_transactions_for_touched_paths_unchecked(&mut store, "g", &["dir/nested/child.txt"])
            .unwrap();
    assert_eq!(bumped, vec![tx_a.transaction_id.clone()]);

    let a_after = lookup_transaction(&store, &tx_a.transaction_id).unwrap();
    assert_eq!(a_after.execution_generation, 1, "a change under the held subtree must bump it");
}

#[test]
fn bump_on_an_ancestor_of_a_held_reservation_bumps_the_nested_holder() {
    let mut store = open();
    let tx_a = begin_transaction_unchecked(&mut store, &sample_new_transaction(None), 0).unwrap();
    acquire_reservations_unchecked(
        &mut store,
        &[NewReservation {
            group_id: "g",
            transaction_id: &tx_a.transaction_id,
            scope: ReservationScope::Exact,
            path: "a/b",
            role: ReservationRole::CanonicalPath,
        }],
        0,
        &conflicts(),
    )
    .unwrap();

    let bumped = bump_transactions_for_touched_paths_unchecked(&mut store, "g", &["a"]).unwrap();
    assert_eq!(bumped, vec![tx_a.transaction_id.clone()]);

    let a_after = lookup_transaction(&store, &tx_a.transaction_id).unwrap();
    assert_eq!(
        a_after.execution_generation, 1,
        "a change at an ancestor of a held reservation must bump its holder"
    );
}

#[test]
fn bump_on_an_unrelated_sibling_does_not_bump_a_nested_holder_elsewhere() {
    let mut store = open();
    let tx_a = begin_transaction_unchecked(&mut store, &sample_new_transaction(None), 0).unwrap();
    acquire_reservations_unchecked(
        &mut store,
        &[NewReservation {
            group_id: "g",
            transaction_id: &tx_a.transaction_id,
            scope: ReservationScope::Exact,
            path: "a/b",
            role: ReservationRole::CanonicalPath,
        }],
        0,
        &conflicts(),
    )
    .unwrap();

    let bumped = bump_transactions_for_touched_paths_unchecked(&mut store, "g", &["c"]).unwrap();
    assert!(bumped.is_empty(), "an unrelated sibling path must bump nothing");

    let a_after = lookup_transaction(&store, &tx_a.transaction_id).unwrap();
    assert_eq!(a_after.execution_generation, 0, "the unrelated holder must not move");
}

#[test]
fn bump_touching_the_same_holder_through_two_paths_in_one_change_bumps_it_once() {
    let mut store = open();
    let tx_a = begin_transaction_unchecked(&mut store, &sample_new_transaction(None), 0).unwrap();
    acquire_reservations_unchecked(
        &mut store,
        &[NewReservation {
            group_id: "g",
            transaction_id: &tx_a.transaction_id,
            scope: ReservationScope::SubtreeExclusive,
            path: "dir",
            role: ReservationRole::SubtreeRoot,
        }],
        0,
        &conflicts(),
    )
    .unwrap();

    let bumped =
        bump_transactions_for_touched_paths_unchecked(&mut store, "g", &["dir/a.txt", "dir/b.txt"])
            .unwrap();
    assert_eq!(bumped, vec![tx_a.transaction_id.clone()]);

    let a_after = lookup_transaction(&store, &tx_a.transaction_id).unwrap();
    assert_eq!(a_after.execution_generation, 1);
}

#[test]
fn a_plan_built_before_admission_is_fenced_out_after_the_bump() {
    let mut store = open();
    let tx_a = begin_transaction_unchecked(&mut store, &sample_new_transaction(None), 0).unwrap();
    acquire_reservations_unchecked(
        &mut store,
        &[NewReservation {
            group_id: "g",
            transaction_id: &tx_a.transaction_id,
            scope: ReservationScope::Exact,
            path: "held/path.txt",
            role: ReservationRole::CanonicalPath,
        }],
        0,
        &conflicts(),
    )
    .unwrap();

    let plan_generation = tx_a.execution_generation;
    assert!(check_execution_generation(&store, &tx_a.transaction_id, plan_generation).is_ok());

    bump_transactions_for_touched_paths_unchecked(&mut store, "g", &["held/path.txt"]).unwrap();

    assert!(matches!(
        check_execution_generation(&store, &tx_a.transaction_id, plan_generation),
        Err(SyncSqliteError::ExecutionGenerationFenced { .. })
    ));
    assert!(
        check_execution_generation(&store, &tx_a.transaction_id, plan_generation + 1).is_ok()
    );
}

#[test]
fn bump_gated_public_entry_point_refuses_while_the_gate_is_closed_when_there_is_something_to_bump(
) {
    let mut store = open();
    let tx_a = begin_transaction_unchecked(&mut store, &sample_new_transaction(None), 0).unwrap();
    acquire_reservations_unchecked(
        &mut store,
        &[NewReservation {
            group_id: "g",
            transaction_id: &tx_a.transaction_id,
            scope: ReservationScope::Exact,
            path: "held/path.txt",
            role: ReservationRole::CanonicalPath,
        }],
        0,
        &conflicts(),
    )
    .unwrap();

    assert!(matches!(
        bump_transactions_for_touched_paths(&mut store, "g", &["held/path.txt"]),
        Err(SyncSqliteError::NotImplemented(_))
    ));
}

#[test]
fn bump_gated_public_entry_point_is_a_true_no_op_on_an_unheld_path_while_the_gate_is_closed() {
    let mut store = open();
    let bumped = bump_transactions_for_touched_paths(&mut store, "g", &["whatever.txt"]).unwrap();
    assert!(bumped.is_empty());
}
