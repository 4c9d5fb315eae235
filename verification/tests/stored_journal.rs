//! How the journal's rows are stored and read back, and the texts its errors
//! and ids are made of.

use yadorilink_sync_sqlite::epoch::{insert_epoch_row_unchecked, insert_epoch_unchecked};
use yadorilink_sync_sqlite::error::SyncSqliteError;
use yadorilink_sync_sqlite::filesystem_transaction::{
    begin_transaction_unchecked, begin_transaction_with_id, check_execution_generation,
    list_incomplete_transactions, set_plan_revision, set_transaction_phase_unchecked,
};
use yadorilink_sync_sqlite::fresh_id::{id_of, new_id};
use yadorilink_sync_sqlite::identity::{
    decode_directory_identity, encode_directory_identity, DirectoryIdentity, PlatformObjectId,
    Timestamp, VolumeIdentity, WindowsObjectId,
};
use yadorilink_sync_sqlite::path_key::{path_key, ranges_overlap, subtree_end_key};
use yadorilink_sync_sqlite::reservation::{
    acquire_reservations_with_ids, list_reservations, transactions_holding_touched_paths,
    NewReservation, ScopeConflicts,
};
use yadorilink_sync_sqlite::stored_rows::{
    epoch_to_row, row_to_epoch, row_to_transaction, transaction_to_row,
};
use yadorilink_sync_sqlite::transaction_rows::{
    ChangeHash, NewEpoch, NewFilesystemTransaction, TransactionStore,
};
use yadorilink_sync_sqlite::vocabulary::{
    DurabilityLevel, EpochState, FilesystemTransactionKind, PlacementRole, ReservationRole,
    ReservationScope, TransactionCause, TransactionPhase,
};

fn new_transaction<'a>(trigger: Option<&'a ChangeHash>) -> NewFilesystemTransaction<'a> {
    NewFilesystemTransaction {
        group_id: "g",
        source_path: "a.txt",
        kind: FilesystemTransactionKind::SubtreeReplacement,
        cause: TransactionCause::Eviction,
        trigger_change_hash: trigger,
        desired_frontier_hash: [7; 32],
    }
}

fn unix_identity() -> DirectoryIdentity {
    DirectoryIdentity {
        volume_identity: VolumeIdentity::Unix { device_id: 1 },
        object_id: PlatformObjectId::Unix { inode: 0x0102 },
        generation_or_usn: Some(5),
        birth_or_creation_time: None,
    }
}

fn new_epoch<'a>(id: &'a str, identity: &'a DirectoryIdentity) -> NewEpoch<'a> {
    NewEpoch {
        transaction_id: id,
        epoch: 0,
        plan_revision: 0,
        target_path: "a.txt",
        placement_role: PlacementRole::ConflictCopy,
        target_generation: b"t",
        parent_directory_identity: identity,
        capability_snapshot: b"c",
        durability_level: DurabilityLevel::BestEffortRemoteFilesystem,
    }
}

fn exact(transaction_id: &'static str, path: &'static str) -> NewReservation<'static> {
    NewReservation {
        group_id: "g",
        transaction_id,
        scope: ReservationScope::Exact,
        path,
        role: ReservationRole::CanonicalPath,
    }
}

fn exclusive() -> ScopeConflicts {
    ScopeConflicts { pairs: vec![(ReservationScope::Exact, ReservationScope::Exact)] }
}

#[test]
fn a_stored_transaction_reads_back() {
    let mut store = TransactionStore::new();
    let hash = ChangeHash([1; 32]);
    let record = begin_transaction_with_id(
        &mut store,
        &new_transaction(Some(&hash)),
        "fstx-1".to_string(),
        12,
    )
    .unwrap();
    let row = transaction_to_row(&record);
    assert_eq!(row.kind, "subtree_replacement");
    assert_eq!(row.cause, "eviction");
    assert_eq!(row.phase, "planning");
    assert_eq!(row.trigger_change_hash, Some(vec![1; 32]));
    assert_eq!(row_to_transaction(row), Ok(record));
}

#[test]
fn a_transaction_row_that_does_not_read_is_corrupt() {
    let mut store = TransactionStore::new();
    let record = begin_transaction_unchecked(&mut store, &new_transaction(None), 0).unwrap();
    let mut row = transaction_to_row(&record);
    row.desired_frontier_hash = vec![7; 31];
    assert!(matches!(row_to_transaction(row), Err(SyncSqliteError::CorruptState(_))));
    let mut row = transaction_to_row(&record);
    row.trigger_change_hash = Some(vec![]);
    assert!(matches!(row_to_transaction(row), Err(SyncSqliteError::CorruptState(_))));
    let mut row = transaction_to_row(&record);
    row.phase = "paused".to_string();
    assert!(matches!(row_to_transaction(row), Err(SyncSqliteError::CorruptState(_))));
}

#[test]
fn a_stored_epoch_reads_back() {
    let mut store = TransactionStore::new();
    let tx = begin_transaction_unchecked(&mut store, &new_transaction(None), 0).unwrap();
    let identity = unix_identity();
    let record =
        insert_epoch_unchecked(&mut store, &new_epoch(&tx.transaction_id, &identity), 0, 3)
            .unwrap();
    let row = epoch_to_row(&record);
    assert_eq!(row.placement_role, "conflict_copy");
    assert_eq!(row.phase, "allocated");
    assert_eq!(row.durability_level, "best_effort_remote_filesystem");
    assert_eq!(row.parent_directory_identity, encode_directory_identity(&identity));
    let read = row_to_epoch(row).unwrap();
    assert_eq!(read.parent_directory_identity, identity);
    assert_eq!(read.phase, EpochState::Allocated);
    assert_eq!(read.target_generation, b"t");
    assert_eq!(read.created_at_unix_nanos, 3);
}

#[test]
fn an_epoch_row_that_does_not_read_is_corrupt() {
    let mut store = TransactionStore::new();
    let tx = begin_transaction_unchecked(&mut store, &new_transaction(None), 0).unwrap();
    let identity = unix_identity();
    let record =
        insert_epoch_unchecked(&mut store, &new_epoch(&tx.transaction_id, &identity), 0, 3)
            .unwrap();
    let mut row = epoch_to_row(&record);
    row.staged_identity = Some(Err("unread".to_string()));
    assert!(matches!(
        row_to_epoch(row),
        Err(SyncSqliteError::CorruptState(text)) if text == "unread"
    ));
    let mut row = epoch_to_row(&record);
    row.captured_change_hash = Some(vec![1]);
    assert!(matches!(row_to_epoch(row), Err(SyncSqliteError::CorruptState(_))));
    let mut row = epoch_to_row(&record);
    row.parent_directory_identity = vec![2];
    assert!(matches!(row_to_epoch(row), Err(SyncSqliteError::CorruptState(_))));
}

#[test]
fn directory_identities_have_one_encoding() {
    assert_eq!(
        encode_directory_identity(&unix_identity()),
        vec![
            3, 0, 0, 0, 0, 0, 0, 0, 0, 1, 0, 0, 0, 0, 0, 0, 0, 1, 2, 1, 0, 0, 0, 0, 0, 0, 0, 0, 0,
            0, 0, 0, 0, 0, 0, 5, 0,
        ]
    );
    let fallback = DirectoryIdentity {
        volume_identity: VolumeIdentity::Windows { volume_serial_number: u64::MAX },
        object_id: PlatformObjectId::Windows(WindowsObjectId::Fallback { file_index: 2 }),
        generation_or_usn: None,
        birth_or_creation_time: Some(Timestamp {
            seconds_since_unix_epoch: -1,
            subsec_nanos: 999_999_999,
        }),
    };
    let proven = DirectoryIdentity {
        volume_identity: VolumeIdentity::Windows { volume_serial_number: 0 },
        object_id: PlatformObjectId::Windows(WindowsObjectId::Proven { file_id: [4; 16] }),
        generation_or_usn: Some(u128::MAX),
        birth_or_creation_time: None,
    };
    assert_ne!(encode_directory_identity(&fallback), encode_directory_identity(&proven));
    for identity in [unix_identity(), fallback, proven] {
        let blob = encode_directory_identity(&identity);
        assert_eq!(decode_directory_identity(&blob), Ok(identity));
        let mut longer = encode_directory_identity(&identity);
        longer.push(0);
        assert_eq!(decode_directory_identity(&longer), Ok(identity), "what follows is ignored");
        assert!(decode_directory_identity(&blob[..blob.len() - 1]).is_err());
    }
    assert!(decode_directory_identity(&[]).is_err());
}

#[test]
fn stored_names_of_the_journal_read_back_or_are_corrupt() {
    for phase in TransactionPhase::all() {
        assert_eq!(TransactionPhase::from_db_str(phase.as_db_str()), Ok(phase));
    }
    for kind in [
        FilesystemTransactionKind::ObjectResolution,
        FilesystemTransactionKind::SubtreeReplacement,
    ] {
        assert_eq!(FilesystemTransactionKind::from_db_str(kind.as_db_str()), Ok(kind));
    }
    for cause in [
        TransactionCause::PeerProjection,
        TransactionCause::Hydration,
        TransactionCause::Repair,
        TransactionCause::Restore,
        TransactionCause::RemoteDelete,
        TransactionCause::Eviction,
        TransactionCause::ConflictResolution,
        TransactionCause::ConflictCopyRetirement,
    ] {
        assert_eq!(TransactionCause::from_db_str(cause.as_db_str()), Ok(cause));
    }
    for state in [
        EpochState::Allocated,
        EpochState::Preparing,
        EpochState::PreparedArtifact,
        EpochState::AwaitingReservation,
        EpochState::Prepared,
        EpochState::Committing,
        EpochState::Committed,
        EpochState::Quarantined,
        EpochState::RequiresPhysicalRecovery,
        EpochState::CustodyTransferred,
        EpochState::AwaitingQuiescence,
        EpochState::ClassifiedKnown,
        EpochState::ClassifiedDivergent,
        EpochState::AwaitingCaptureStorage,
        EpochState::AwaitingCaptureAuthorization,
        EpochState::CapturedChangeAuthored,
        EpochState::LocalRecoveryOnly,
        EpochState::Released,
        EpochState::Completed,
        EpochState::Blocked,
    ] {
        assert_eq!(EpochState::from_db_str(state.db_str()), Ok(state));
    }
    for role in [
        PlacementRole::CanonicalPath,
        PlacementRole::ConflictCopy,
        PlacementRole::RetirementTarget,
    ] {
        assert_eq!(PlacementRole::from_db_str(role.db_str()), Ok(role));
    }
    for role in [
        ReservationRole::CanonicalPath,
        ReservationRole::ConflictCopy,
        ReservationRole::RetirementTarget,
        ReservationRole::SubtreeRoot,
    ] {
        assert_eq!(ReservationRole::from_db_str(role.db_str()), Ok(role));
    }
    for scope in [
        ReservationScope::Exact,
        ReservationScope::SubtreeIntent,
        ReservationScope::SubtreeExclusive,
    ] {
        assert_eq!(ReservationScope::from_db_str(scope.db_str()), Ok(scope));
    }
    let unknown = TransactionPhase::from_db_str("it's \"odd\"\n");
    assert!(
        matches!(&unknown, Err(SyncSqliteError::CorruptState(text))
            if text.contains("\"it's \\\"odd\\\"\\n\"")),
        "got {unknown:?}"
    );
}

#[test]
fn a_taken_transaction_id_is_refused() {
    let mut store = TransactionStore::new();
    begin_transaction_with_id(&mut store, &new_transaction(None), "fstx-1".to_string(), 0).unwrap();
    let again =
        begin_transaction_with_id(&mut store, &new_transaction(None), "fstx-1".to_string(), 0);
    assert!(matches!(again, Err(SyncSqliteError::DuplicateKey(_))), "got {again:?}");
    assert_eq!(store.transactions.len(), 1);
}

#[test]
fn an_epoch_number_is_taken_once() {
    let mut store = TransactionStore::new();
    let tx = begin_transaction_unchecked(&mut store, &new_transaction(None), 0).unwrap();
    let identity = unix_identity();
    let epoch = new_epoch(&tx.transaction_id, &identity);
    insert_epoch_row_unchecked(&mut store, &epoch, 0).unwrap();
    assert!(matches!(
        insert_epoch_row_unchecked(&mut store, &epoch, 0),
        Err(SyncSqliteError::DuplicateKey(_))
    ));
    assert!(matches!(
        insert_epoch_unchecked(&mut store, &new_epoch("fstx-none", &identity), 0, 0),
        Err(SyncSqliteError::NotFound(_))
    ));
}

#[test]
fn an_unknown_transaction_is_not_found() {
    let store = TransactionStore::new();
    assert_eq!(
        check_execution_generation(&store, "nope", 0),
        Err(SyncSqliteError::NotFound("filesystem transaction nope".to_string()))
    );
}

#[test]
fn incomplete_transactions_are_listed_oldest_first() {
    let mut store = TransactionStore::new();
    for (id, at) in [("late", 30), ("early", 10), ("done", 20)] {
        begin_transaction_with_id(&mut store, &new_transaction(None), id.to_string(), at).unwrap();
    }
    for phase in
        [TransactionPhase::Committing, TransactionPhase::AsyncPreservation, TransactionPhase::Completed]
    {
        set_transaction_phase_unchecked(&mut store, "done", 0, phase, None, 40).unwrap();
    }
    let listed = list_incomplete_transactions(&store);
    assert_eq!(
        listed.iter().map(|tx| tx.transaction_id.as_str()).collect::<Vec<_>>(),
        vec!["early", "late"]
    );
}

#[test]
fn a_revision_cannot_be_set_while_execution_is_disabled() {
    let mut store = TransactionStore::new();
    assert!(matches!(
        set_plan_revision(&mut store, "whatever", 0, 1),
        Err(SyncSqliteError::NotImplemented(_))
    ));
}

#[test]
fn a_blocked_transaction_keeps_its_reason() {
    let mut store = TransactionStore::new();
    let tx = begin_transaction_unchecked(&mut store, &new_transaction(None), 0).unwrap();
    let id = tx.transaction_id;
    set_transaction_phase_unchecked(
        &mut store,
        &id,
        0,
        TransactionPhase::Blocked,
        Some("stalled"),
        5,
    )
    .unwrap();
    assert_eq!(store.transactions[0].blocked_reason.as_deref(), Some("stalled"));
    assert_eq!(store.transactions[0].updated_at_unix_nanos, 5);
}

#[test]
fn ids_are_the_prefix_and_the_hex_of_random_bytes() {
    assert_eq!(id_of("fstx", &[0, 255, 16]), "fstx-00ff10");
    let id = new_id("fstx");
    assert_eq!(id.len(), "fstx-".len() + 32);
    assert!(id.starts_with("fstx-"));
    assert!(id[5..].chars().all(|c| c.is_ascii_hexdigit() && !c.is_ascii_uppercase()));
    assert_ne!(id, new_id("fstx"));
    assert_ne!(id_of("fstx", &[1, 2]), id_of("fstx", &[2, 1]));
}

#[test]
fn a_taken_reservation_id_is_refused_whole() {
    let mut store = TransactionStore::new();
    let ids = acquire_reservations_with_ids(
        &mut store,
        &[exact("tx-a", "a"), exact("tx-a", "b")],
        vec!["r1".to_string(), "r2".to_string()],
        0,
        &exclusive(),
    )
    .unwrap();
    assert_eq!(ids, ["r1", "r2"]);
    let taken = acquire_reservations_with_ids(
        &mut store,
        &[exact("tx-b", "c"), exact("tx-b", "d")],
        vec!["r3".to_string(), "r1".to_string()],
        0,
        &exclusive(),
    );
    assert!(matches!(taken, Err(SyncSqliteError::DuplicateKey(_))), "got {taken:?}");
    assert!(list_reservations(&store, "tx-b").is_empty());
}

#[test]
fn reservations_of_another_group_neither_block_nor_are_touched() {
    let mut store = TransactionStore::new();
    acquire_reservations_with_ids(
        &mut store,
        &[exact("tx-a", "a")],
        vec!["r1".to_string()],
        0,
        &exclusive(),
    )
    .unwrap();
    let elsewhere = NewReservation { group_id: "h", ..exact("tx-b", "a") };
    acquire_reservations_with_ids(
        &mut store,
        &[elsewhere],
        vec!["r2".to_string()],
        0,
        &exclusive(),
    )
    .unwrap();
    assert_eq!(transactions_holding_touched_paths(&store, "g", &["a"]).unwrap(), ["tx-a"]);
    assert!(matches!(
        transactions_holding_touched_paths(&store, "g", &["a//b"]),
        Err(SyncSqliteError::InvalidInput(_))
    ));
}

#[test]
fn a_path_key_is_its_segments_each_ended_by_a_zero() {
    assert_eq!(path_key("dir/leaf").unwrap(), b"dir\0leaf\0");
    assert_eq!(path_key("").unwrap(), b"");
    assert_ne!(path_key("a/b").unwrap(), path_key("ab").unwrap());
}

#[test]
fn ranges_overlap_only_along_one_line_of_descent() {
    let overlap = |a: &str, b: &str| {
        let a = path_key(a).unwrap();
        let b = path_key(b).unwrap();
        ranges_overlap(&a, &subtree_end_key(&a), &b, &subtree_end_key(&b))
    };
    assert!(overlap("a", "a"));
    assert!(overlap("a", "a/b/c"));
    assert!(overlap("a/b/c", "a"));
    assert!(!overlap("a/b", "a/c"));
    assert!(!overlap("a", "ab"));
}

#[test]
fn a_transaction_with_an_epoch_in_flight_stays_listed() {
    let mut store = TransactionStore::new();
    let tx = begin_transaction_unchecked(&mut store, &new_transaction(None), 0).unwrap();
    let id = tx.transaction_id;
    insert_epoch_unchecked(&mut store, &new_epoch(&id, &unix_identity()), 0, 0).unwrap();
    for phase in [TransactionPhase::Committing, TransactionPhase::AsyncPreservation] {
        set_transaction_phase_unchecked(&mut store, &id, 0, phase, None, 1).unwrap();
    }
    let refused = set_transaction_phase_unchecked(
        &mut store,
        &id,
        0,
        TransactionPhase::Completed,
        None,
        2,
    );
    assert!(matches!(refused, Err(SyncSqliteError::InvalidInput(_))), "got {refused:?}");
    assert_eq!(list_incomplete_transactions(&store).len(), 1);
}

#[test]
fn a_journal_with_a_repeated_key_or_a_foreign_range_is_not_sound() {
    let mut store = TransactionStore::new();
    begin_transaction_with_id(&mut store, &new_transaction(None), "t".to_string(), 0).unwrap();
    acquire_reservations_with_ids(
        &mut store,
        &[exact("t", "a")],
        vec!["r".to_string()],
        0,
        &exclusive(),
    )
    .unwrap();
    assert!(store.is_sound());
    store.reservations[0].path_key = b"b\0".to_vec();
    assert!(!store.is_sound());
    store.reservations[0].path_key = b"a\0".to_vec();
    assert!(store.is_sound());
    let again = store.transactions[0].copy();
    store.transactions.push(again);
    assert!(!store.is_sound());
}
