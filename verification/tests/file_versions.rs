//! How a write makes a new current version, who authored it, and what of the
//! path's metadata it carries on.

use yadorilink_sync_sqlite::error::SyncSqliteError;
use yadorilink_sync_sqlite::file_metadata::{
    decode_unix_mode_column, decode_xattrs_column, encode_unix_mode_column,
};
use yadorilink_sync_sqlite::file_rows::{
    FileIndexRepository, FileRecord, LocalFileMetaColumns, RootSetGeneration,
};
use yadorilink_sync_sqlite::file_upsert::upsert_file_in_tx;
use yadorilink_sync_sqlite::file_versions::RETENTION_MAX_AGE_NANOS;
use yadorilink_sync_sqlite::index_vocabulary::{
    HandoffLeaseState, MaterializationPolicy, MaterializationState, RecordKind, VersionState,
};
use yadorilink_sync_sqlite::transaction_rows::ChangeHash;

const GROUP: &str = "g";
const MODE_MASK: u32 = 0o7777;
const EPHEMERAL_PATH: &str = "shared (conflicted copy, 1970-01-01-000000, device-3, aabbccdd).bin";

/// Admits a change touching an unrelated path: enough to give the group
/// history.
fn admit_one_real_change(repo: &mut FileIndexRepository) {
    repo.admit_change(GROUP, &ChangeHash([1; 32]), None);
}

fn record(path: &str, size: u64, deleted: bool) -> FileRecord {
    FileRecord { path: path.to_string(), size, mtime_unix_nanos: 0, blocks: Vec::new(), deleted }
}

#[test]
fn a_tombstone_upsert_with_no_authoring_identity_is_rejected_once_the_group_has_dag_history() {
    let mut repo = FileIndexRepository::new();
    admit_one_real_change(&mut repo);

    let tombstone = record(EPHEMERAL_PATH, 0, true);
    let err = repo.upsert_file_with_origin(GROUP, &tombstone, "device-0", Some(1)).expect_err(
        "a fresh 'current' row with no authoring identity must be rejected once this group has \
         history",
    );
    assert!(
        format!("{err:?}").contains("requires verified authoring identity"),
        "unexpected error: {err:?}"
    );
    assert!(
        repo.get_file(GROUP, EPHEMERAL_PATH).unwrap().is_none(),
        "the rejected write must leave no partial row behind"
    );
}

#[test]
fn remove_file_retires_a_non_dag_backed_row_with_no_authoring_identity() {
    let mut repo = FileIndexRepository::new();

    // Written before the group has any history.
    let live_copy = record(EPHEMERAL_PATH, 4, false);
    repo.upsert_file_with_origin(GROUP, &live_copy, "device-3", Some(1)).unwrap();

    // History now exists, but erasure needs no authoring identity at all.
    admit_one_real_change(&mut repo);

    let removed = repo.remove_file(GROUP, EPHEMERAL_PATH);
    assert!(removed, "remove_file must report that a row was actually erased");
    assert!(
        repo.get_file(GROUP, EPHEMERAL_PATH).unwrap().is_none(),
        "the row must be gone, not tombstoned"
    );
}

#[test]
fn a_row_scanned_before_the_groups_history_is_listed_as_unauthored() {
    let mut repo = FileIndexRepository::new();
    let scanned = record("bulk-scanned.txt", 5, false);
    repo.upsert_files_batch(GROUP, &[scanned], "device-0", &[], &[], &[], MODE_MASK, Some(1))
        .expect("accepted while the group has no history");
    assert!(repo.get_file(GROUP, "bulk-scanned.txt").unwrap().is_some());
    admit_one_real_change(&mut repo);
    assert_eq!(repo.list_unauthored_current_paths(GROUP), ["bulk-scanned.txt"]);

    repo.set_authoring_change_hash(GROUP, "bulk-scanned.txt", &ChangeHash([1; 32])).unwrap();
    assert!(repo.list_unauthored_current_paths(GROUP).is_empty());
}

#[test]
fn the_refusal_of_an_unauthored_row_names_it() {
    let mut repo = FileIndexRepository::new();
    admit_one_real_change(&mut repo);
    assert_eq!(
        repo.upsert_file(GROUP, &record("a.txt", 0, false), Some(1)),
        Err(SyncSqliteError::ConstraintViolation(
            "files row g/a.txt requires verified authoring identity".to_string()
        ))
    );
    assert!(repo.files.is_empty());
}

#[test]
fn each_write_makes_the_next_version_current_and_keeps_the_last() {
    let mut repo = FileIndexRepository::new();
    repo.upsert_file_with_origin(GROUP, &record("a.txt", 1, false), "device-a", Some(10)).unwrap();
    repo.upsert_file_with_origin(GROUP, &record("a.txt", 2, false), "", Some(20)).unwrap();
    repo.upsert_file(GROUP, &record("a.txt", 0, true), None).unwrap();

    let rows: Vec<(i64, VersionState, u64)> =
        repo.files.iter().map(|row| (row.version_seq, row.state, row.size)).collect();
    assert_eq!(
        rows,
        vec![
            (1, VersionState::Superseded, 1),
            (2, VersionState::Trashed, 2),
            (3, VersionState::Current, 0),
        ]
    );
    assert_eq!(repo.files[0].origin_device_id.as_deref(), Some("device-a"));
    assert_eq!(repo.files[1].origin_device_id, None, "no origin is not an empty one");
    assert_eq!(repo.files[1].admitted_at_unix_nanos, Some(20));
    assert_eq!(repo.files[2].admitted_at_unix_nanos, None);
    assert_eq!(repo.latest_seq_at(GROUP, "a.txt"), 3);

    // A tombstone over a tombstone supersedes; there is nothing left to trash.
    repo.upsert_file(GROUP, &record("a.txt", 0, true), None).unwrap();
    assert_eq!(repo.files[2].state, VersionState::Superseded);
}

#[test]
fn an_upsert_leaves_other_paths_and_groups_as_they_are() {
    let mut repo = FileIndexRepository::new();
    repo.upsert_file_with_origin(GROUP, &record("b.txt", 7, false), "device-b", Some(1)).unwrap();
    repo.upsert_file_with_origin("h", &record("a.txt", 8, false), "", Some(2)).unwrap();
    for size in [1, 2] {
        let written = record("a.txt", size, false);
        repo.upsert_file_with_origin(GROUP, &written, "device-a", Some(3)).unwrap();
    }
    let current: Vec<(&str, &str, i64, u64, Option<&str>)> = repo
        .files
        .iter()
        .filter(|row| row.state == VersionState::Current)
        .map(|row| {
            let origin = row.origin_device_id.as_deref();
            (row.group_id.as_str(), row.path.as_str(), row.version_seq, row.size, origin)
        })
        .collect();
    assert_eq!(
        current,
        vec![
            (GROUP, "b.txt", 1, 7, Some("device-b")),
            ("h", "a.txt", 1, 8, None),
            (GROUP, "a.txt", 2, 2, Some("device-a")),
        ]
    );
}

#[test]
fn a_new_version_carries_on_the_metadata_and_the_author() {
    let mut repo = FileIndexRepository::new();
    let author = ChangeHash([7; 32]);
    repo.admit_change(GROUP, &author, None);
    repo.upsert_file_with_origin_and_author(
        GROUP,
        &record("a.txt", 1, false),
        "device-a",
        &author,
        Some(1),
    )
    .unwrap();
    repo.set_record_kind(GROUP, "a.txt", RecordKind::Symlink).unwrap();
    repo.set_symlink_target(GROUP, "a.txt", Some(b"b.txt".as_slice())).unwrap();
    repo.set_symlink_out_of_root(GROUP, "a.txt", true).unwrap();
    repo.set_unix_mode(GROUP, "a.txt", Some(0o755), MODE_MASK).unwrap();
    repo.set_xattrs(GROUP, "a.txt", &[("user.k".to_string(), vec![1])]).unwrap();
    repo.set_pinned(GROUP, "a.txt", true).unwrap();
    repo.touch_last_accessed(GROUP, "a.txt", 99).unwrap();

    upsert_file_in_tx(&mut repo, GROUP, &record("a.txt", 2, false), "device-b", None, Some(2))
        .unwrap();

    assert_eq!(repo.get_record_kind(GROUP, "a.txt"), Some(RecordKind::Symlink));
    assert_eq!(repo.get_symlink_target(GROUP, "a.txt"), Some(b"b.txt".to_vec()));
    assert!(repo.get_symlink_out_of_root(GROUP, "a.txt"));
    assert_eq!(repo.get_unix_mode(GROUP, "a.txt", MODE_MASK), Some(0o755));
    assert_eq!(repo.get_xattrs(GROUP, "a.txt").unwrap(), vec![("user.k".to_string(), vec![1])]);
    assert!(repo.is_pinned(GROUP, "a.txt"));
    assert_eq!(repo.files[1].last_accessed_unix, Some(99));
    assert_eq!(repo.get_authoring_change_hash(GROUP, "a.txt").unwrap(), Some(author));
    assert_eq!(repo.get_origin_device_id(GROUP, "a.txt").as_deref(), Some("device-b"));
    assert_eq!(repo.current_version_origin(GROUP, "a.txt").as_deref(), Some("device-b"));
}

#[test]
fn only_a_symlink_has_a_target_or_leads_out_of_the_root() {
    let mut repo = FileIndexRepository::new();
    repo.upsert_file(GROUP, &record("a.txt", 1, false), Some(1)).unwrap();
    repo.set_symlink_target(GROUP, "a.txt", Some(b"b.txt".as_slice())).unwrap();
    repo.set_symlink_out_of_root(GROUP, "a.txt", true).unwrap();
    assert_eq!(repo.get_symlink_target(GROUP, "a.txt"), None);
    assert!(!repo.get_symlink_out_of_root(GROUP, "a.txt"));

    repo.set_record_kind(GROUP, "a.txt", RecordKind::Symlink).unwrap();
    assert_eq!(repo.get_symlink_target(GROUP, "a.txt"), Some(b"b.txt".to_vec()));
    assert!(repo.get_symlink_out_of_root(GROUP, "a.txt"));
}

#[test]
fn metadata_of_a_path_without_a_row_is_not_found() {
    let mut repo = FileIndexRepository::new();
    assert_eq!(
        repo.set_pinned(GROUP, "a.txt", true),
        Err(SyncSqliteError::NotFound("file g/a.txt".to_string()))
    );
    assert!(matches!(
        repo.touch_last_accessed(GROUP, "a.txt", 1),
        Err(SyncSqliteError::NotFound(_))
    ));
    assert_eq!(repo.get_record_kind(GROUP, "a.txt"), None);
    assert!(repo.get_xattrs(GROUP, "a.txt").unwrap().is_empty());
    assert_eq!(repo.get_authoring_change_hash(GROUP, "a.txt").unwrap(), None);
}

#[test]
fn a_scaffold_row_becomes_the_first_real_version() {
    let mut repo = FileIndexRepository::new();
    let columns = LocalFileMetaColumns {
        record_kind: RecordKind::Directory,
        symlink_target: None,
        symlink_out_of_root: false,
        unix_mode: Some(0o700),
        xattrs: Vec::new(),
    };
    repo.apply_incoming_metadata_atomic(GROUP, "d", &columns, MODE_MASK, Some(1));
    assert!(!repo.has_real_current_row(GROUP, "d"));
    assert_eq!(repo.files[0].version_seq, 0);
    repo.ensure_bootstrap_row_for_metadata(GROUP, "d", Some(2));
    assert_eq!(repo.files.len(), 1, "a row that is there stays the only one");

    repo.upsert_file(GROUP, &record("d", 0, false), Some(3)).unwrap();
    assert_eq!(repo.files.len(), 1);
    assert_eq!(repo.files[0].version_seq, 1);
    assert!(repo.has_real_current_row(GROUP, "d"));
    assert_eq!(repo.get_record_kind(GROUP, "d"), Some(RecordKind::Directory));
    assert_eq!(repo.get_unix_mode(GROUP, "d", MODE_MASK), Some(0o700));
}

#[test]
fn a_projected_row_and_its_metadata_are_written_together() {
    let mut repo = FileIndexRepository::new();
    let author = ChangeHash([7; 32]);
    repo.admit_change(GROUP, &author, None);
    let columns = LocalFileMetaColumns {
        record_kind: RecordKind::Symlink,
        symlink_target: Some(b"t".to_vec()),
        symlink_out_of_root: false,
        unix_mode: None,
        xattrs: Vec::new(),
    };
    repo.apply_projected_row_atomic(
        GROUP,
        &record("a", 3, false),
        "device-b",
        Some(&author),
        &columns,
        MODE_MASK,
        Some(1),
    )
    .unwrap();
    assert_eq!(repo.get_file(GROUP, "a").unwrap(), Some(record("a", 3, false)));
    assert_eq!(repo.get_symlink_target(GROUP, "a"), Some(b"t".to_vec()));

    let unknown = ChangeHash([8; 32]);
    let refused = repo.apply_projected_row_atomic(
        GROUP,
        &record("b", 3, false),
        "device-b",
        Some(&unknown),
        &columns,
        MODE_MASK,
        Some(1),
    );
    assert!(matches!(refused, Err(SyncSqliteError::ConstraintViolation(_))), "got {refused:?}");
    assert_eq!(repo.get_file(GROUP, "b").unwrap(), None);
}

#[test]
fn an_authoring_hash_of_another_length_is_corrupt() {
    let mut repo = FileIndexRepository::new();
    repo.upsert_file(GROUP, &record("a.txt", 0, false), Some(1)).unwrap();
    repo.files[0].authoring_change_hash = Some(vec![1; 31]);
    assert_eq!(
        repo.get_authoring_change_hash(GROUP, "a.txt"),
        Err(SyncSqliteError::CorruptState(
            "invalid authoring_change_hash length for g/a.txt".to_string()
        ))
    );
}

#[test]
fn stored_modes_hold_the_replicated_bits() {
    assert_eq!(encode_unix_mode_column(None, MODE_MASK), -1);
    assert_eq!(encode_unix_mode_column(Some(0o100644), MODE_MASK), 0o644);
    assert_eq!(decode_unix_mode_column(0o100644, MODE_MASK), Some(0o644));
    assert_eq!(decode_unix_mode_column(-1, MODE_MASK), None);
    assert_eq!(decode_unix_mode_column(i64::MIN, MODE_MASK), None);
}

#[test]
fn stored_attributes_read_as_they_were_written() {
    let mut repo = FileIndexRepository::new();
    repo.upsert_file(GROUP, &record("a.txt", 0, false), Some(1)).unwrap();
    assert_eq!(repo.files[0].xattrs_json, "[]");
    let attributes =
        vec![("user.\"quoted\"".to_string(), vec![0, 255]), ("user.empty".to_string(), vec![])];
    repo.set_xattrs(GROUP, "a.txt", &attributes).unwrap();
    assert_eq!(repo.files[0].xattrs_json, "[[\"user.\\\"quoted\\\"\",[0,255]],[\"user.empty\",[]]]");
    assert_eq!(repo.get_xattrs(GROUP, "a.txt").unwrap(), attributes);
    assert_eq!(decode_xattrs_column("[[\"k\",[1]]]").unwrap(), vec![("k".to_string(), vec![1])]);
    let corrupt = decode_xattrs_column("{");
    assert!(
        matches!(&corrupt, Err(SyncSqliteError::CorruptState(text))
            if text.starts_with("stored xattrs are corrupt: ")),
        "got {corrupt:?}"
    );
}

#[test]
fn removing_a_path_leaves_nothing_of_it_and_everything_else() {
    let mut repo = FileIndexRepository::new();
    repo.upsert_file(GROUP, &record("a", 1, false), Some(1)).unwrap();
    repo.upsert_file(GROUP, &record("b", 1, false), Some(1)).unwrap();
    repo.upsert_file(GROUP, &record("a", 2, false), Some(1)).unwrap();
    assert!(repo.remove_file(GROUP, "a"));
    assert_eq!(repo.files.len(), 1);
    assert_eq!(repo.files[0].path, "b");
    assert!(!repo.remove_file(GROUP, "a"));
}

#[test]
fn stored_names_read_as_what_they_name() {
    for kind in [RecordKind::File, RecordKind::Directory, RecordKind::Symlink] {
        assert_eq!(RecordKind::from_db_str(kind.as_db_str()), kind);
    }
    assert_eq!(RecordKind::from_db_str("fifo"), RecordKind::File);
    for state in [
        MaterializationState::Placeholder,
        MaterializationState::Hydrating,
        MaterializationState::Hydrated,
    ] {
        assert_eq!(MaterializationState::from_db_str(state.as_db_str()), state);
    }
    for policy in [MaterializationPolicy::Eager, MaterializationPolicy::OnDemand] {
        assert_eq!(MaterializationPolicy::from_db_str(policy.as_db_str()), policy);
    }
    for state in [VersionState::Current, VersionState::Superseded, VersionState::Trashed] {
        assert_eq!(VersionState::try_from_db_str(state.as_db_str()), Some(state));
    }
    assert_eq!(VersionState::try_from_db_str("archived"), None);
    for state in [
        HandoffLeaseState::Provisional,
        HandoffLeaseState::Confirmed,
        HandoffLeaseState::Released,
        HandoffLeaseState::Expired,
    ] {
        assert_eq!(HandoffLeaseState::from_db_str(state.as_db_str()), state);
    }
    assert_eq!(HandoffLeaseState::from_db_str("unheard of"), HandoffLeaseState::Provisional);
}

#[test]
fn the_counter_moves_with_every_write_to_a_groups_rows() {
    let mut repo = FileIndexRepository::new();
    assert_eq!(repo.root_set_generation(GROUP), 0, "no row was ever written");
    repo.upsert_file(GROUP, &record("a.txt", 1, false), Some(1)).unwrap();
    assert_eq!(repo.root_set_generation(GROUP), 1);
    repo.upsert_file(GROUP, &record("a.txt", 2, false), Some(1)).unwrap();
    assert_eq!(repo.root_set_generation(GROUP), 2);
    repo.set_record_kind(GROUP, "a.txt", RecordKind::File).unwrap();
    assert_eq!(repo.root_set_generation(GROUP), 3);
    repo.set_record_kind(GROUP, "a.txt", RecordKind::File).unwrap();
    assert_eq!(repo.root_set_generation(GROUP), 4, "a write of the same value is one too");
    assert!(repo.remove_file(GROUP, "a.txt"));
    assert_eq!(repo.root_set_generation(GROUP), 5);
    assert!(!repo.remove_file(GROUP, "a.txt"));
    assert_eq!(repo.root_set_generation(GROUP), 5, "nothing was there to remove");
    repo.upsert_file("other", &record("a.txt", 1, false), Some(1)).unwrap();
    assert_eq!(repo.root_set_generation(GROUP), 5);
    assert_eq!(repo.root_set_generation("other"), 1);
}

#[test]
fn a_refused_write_leaves_the_counter_where_it_was() {
    let mut repo = FileIndexRepository::new();
    repo.upsert_file(GROUP, &record("a.txt", 1, false), Some(1)).unwrap();
    admit_one_real_change(&mut repo);
    assert_eq!(repo.root_set_generation(GROUP), 1, "an admitted change writes no row");
    repo.upsert_file(GROUP, &record("b.txt", 1, false), Some(1)).unwrap_err();
    repo.set_record_kind(GROUP, "b.txt", RecordKind::File).unwrap_err();
    assert_eq!(repo.root_set_generation(GROUP), 1);
}

#[test]
fn expiry_moves_the_counter_where_something_expires() {
    let mut repo = FileIndexRepository::new();
    for size in 0..13 {
        repo.upsert_file(GROUP, &record("a.txt", size, false), Some(1)).unwrap();
    }
    assert_eq!(repo.root_set_generation(GROUP), 13);
    assert_eq!(repo.expire_superseded_and_trashed_versions(GROUP, 2, &[]), 0);
    assert_eq!(repo.root_set_generation(GROUP), 13);
    let late = RETENTION_MAX_AGE_NANOS + 1;
    assert_eq!(repo.expire_superseded_and_trashed_versions(GROUP, late, &[]), 2);
    assert_eq!(repo.root_set_generation(GROUP), 14);
}

#[test]
fn the_largest_counter_stays_where_it_is() {
    let mut repo = FileIndexRepository::new();
    repo.root_set_generations
        .push(RootSetGeneration { group_id: GROUP.to_string(), generation: i64::MAX });
    repo.upsert_file(GROUP, &record("a.txt", 1, false), Some(1)).unwrap();
    assert_eq!(repo.root_set_generation(GROUP), i64::MAX as u64);
}

#[test]
fn the_current_row_is_read_whole() {
    let mut repo = FileIndexRepository::new();
    assert_eq!(repo.canonical_current_row(GROUP, "a.txt"), None);
    repo.upsert_file_with_origin(GROUP, &record("a.txt", 1, false), "d", Some(1)).unwrap();
    repo.upsert_file_with_origin(GROUP, &record("a.txt", 2, false), "d", Some(2)).unwrap();
    let row = repo.canonical_current_row(GROUP, "a.txt").unwrap();
    assert_eq!(row, repo.files[1]);
    assert_eq!(row.size, 2);
    assert_eq!(row.version_seq, 2);
    assert_eq!(row.origin_device_id.as_deref(), Some("d"));
}
