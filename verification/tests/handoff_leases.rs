//! Handoff leases: what they pin, and until when.

use yadorilink_sync_sqlite::error::SyncSqliteError;
use yadorilink_sync_sqlite::file_rows::{FileIndexRepository, FileRecord};
use yadorilink_sync_sqlite::file_versions::RETENTION_MAX_AGE_NANOS;
use yadorilink_sync_sqlite::handoff_lease::{
    lease_with_pins, row_to_handoff_lease, HandoffLeaseRepository, StoredLease,
};
use yadorilink_sync_sqlite::index_vocabulary::HandoffLeaseState;
use yadorilink_sync_sqlite::root_recheck::RootDigest;
use yadorilink_sync_sqlite::{read_inventory_operation_id, ColumnValue};

const GROUP: &str = "g";
const MODE_MASK: u32 = 0o7777;

fn record(path: &str, size: u64) -> FileRecord {
    FileRecord {
        path: path.to_string(),
        size,
        mtime_unix_nanos: 0,
        blocks: Vec::new(),
        deleted: false,
    }
}

/// The group's durable roots under a digest.
fn digested(index: &FileIndexRepository) -> RootDigest {
    let roots = index.enumerate_group_durability_roots(GROUP, MODE_MASK).unwrap();
    RootDigest { roots, digest: [5; 32] }
}

fn stored(pinned_versions_json: &str) -> StoredLease {
    StoredLease {
        lease_id: "lease".to_string(),
        group_id: GROUP.to_string(),
        root_digest: vec![3; 32],
        state: "confirmed".to_string(),
        pinned_versions_json: pinned_versions_json.to_string(),
        created_at_unix: 1,
        expires_at_unix: 2,
    }
}

#[test]
fn a_lease_is_recorded_provisional_with_its_pins() {
    let mut leases = HandoffLeaseRepository::new();
    let pins = [("a \"b\"".to_string(), 3), ("c".to_string(), -1)];
    leases.record_handoff_lease(GROUP, "lease", [7; 32], &pins, 100, 200);
    assert_eq!(leases.leases[0].pinned_versions_json, "[[\"a \\\"b\\\"\",3],[\"c\",-1]]");
    let listed = leases.list_handoff_leases_for_group(GROUP);
    assert_eq!(listed.len(), 1);
    assert_eq!(listed[0].state, HandoffLeaseState::Provisional);
    assert_eq!(listed[0].root_digest, [7; 32]);
    assert_eq!(listed[0].pinned_versions, pins);
    assert!(leases.list_handoff_leases_for_group("other").is_empty());
}

#[test]
fn recording_a_lease_again_replaces_it() {
    let mut leases = HandoffLeaseRepository::new();
    leases.record_handoff_lease(GROUP, "lease", [7; 32], &[], 100, 200);
    assert!(leases.set_handoff_lease_state("lease", HandoffLeaseState::Released));
    leases.record_handoff_lease("other", "lease", [8; 32], &[("a".to_string(), 1)], 300, 400);
    assert_eq!(leases.leases.len(), 1);
    let listed = leases.list_handoff_leases_for_group("other");
    assert_eq!(listed[0].state, HandoffLeaseState::Provisional);
    assert_eq!(listed[0].created_at_unix, 300);
    assert_eq!(listed[0].expires_at_unix, 400);
    assert!(!leases.set_handoff_lease_state("unknown", HandoffLeaseState::Released));
}

#[test]
fn leases_are_listed_oldest_first() {
    let mut leases = HandoffLeaseRepository::new();
    for (id, created) in [("b", 30), ("a", 10), ("c", 20)] {
        leases.record_handoff_lease(GROUP, id, [0; 32], &[], created, 100);
    }
    let listed = leases.list_handoff_leases_for_group(GROUP);
    assert_eq!(
        listed.iter().map(|lease| lease.lease_id.as_str()).collect::<Vec<_>>(),
        vec!["a", "c", "b"]
    );
}

#[test]
fn an_atomic_lease_pins_every_retained_file() {
    let mut index = FileIndexRepository::new();
    index.upsert_file(GROUP, &record("b", 1), Some(1)).unwrap();
    index.upsert_file(GROUP, &record("a", 1), Some(1)).unwrap();
    index.upsert_file(GROUP, &record("a", 2), Some(1)).unwrap();
    let mut leases = HandoffLeaseRepository::new();
    let (digest, pins) = leases
        .record_handoff_lease_atomic(GROUP, "l", 10, 20, &digested(&index), &index, MODE_MASK)
        .unwrap();
    assert_eq!(digest, [5; 32]);
    let expected = vec![("a".to_string(), 1), ("a".to_string(), 2), ("b".to_string(), 1)];
    assert_eq!(pins, expected);
    assert_eq!(leases.list_handoff_leases_for_group(GROUP)[0].pinned_versions, expected);
}

#[test]
fn a_live_lease_pins_and_a_settled_or_expired_one_does_not() {
    let pin = ("a".to_string(), 1);
    let mut leases = HandoffLeaseRepository::new();
    leases.record_handoff_lease(GROUP, "l", [0; 32], &[("a".to_string(), 1)], 10, 20);
    assert_eq!(leases.leased_version_keys_for_group(GROUP, 19).unwrap(), vec![pin]);
    assert!(leases.leased_version_keys_for_group(GROUP, 20).unwrap().is_empty());
    assert!(leases.leased_version_keys_for_group("other", 19).unwrap().is_empty());
    leases.set_handoff_lease_state("l", HandoffLeaseState::Confirmed);
    assert_eq!(leases.leased_version_keys_for_group(GROUP, 19).unwrap().len(), 1);
    for settled in [HandoffLeaseState::Released, HandoffLeaseState::Expired] {
        leases.set_handoff_lease_state("l", settled);
        assert!(leases.leased_version_keys_for_group(GROUP, 19).unwrap().is_empty());
    }
}

#[test]
fn a_version_two_leases_pin_is_listed_once() {
    let mut leases = HandoffLeaseRepository::new();
    for id in ["l", "m"] {
        leases.record_handoff_lease(GROUP, id, [0; 32], &[("a".to_string(), 1)], 10, 20);
    }
    assert_eq!(leases.leased_version_keys_for_group(GROUP, 0).unwrap().len(), 1);
}

#[test]
fn a_leased_version_survives_the_sweep() {
    let mut index = FileIndexRepository::new();
    for size in 0..13 {
        index.upsert_file(GROUP, &record("a", size), Some(1)).unwrap();
    }
    let mut leases = HandoffLeaseRepository::new();
    leases.record_handoff_lease(GROUP, "l", [0; 32], &[("a".to_string(), 1)], 10, 20);
    let pinned = leases.leased_version_keys_for_group(GROUP, 11).unwrap();
    let now = RETENTION_MAX_AGE_NANOS + 1;
    assert_eq!(index.expire_superseded_and_trashed_versions(GROUP, now, &pinned), 1);
    assert_eq!(index.files[0].version_seq, 1);
    assert_eq!(index.expire_superseded_and_trashed_versions(GROUP, now, &[]), 1);
    assert_eq!(index.files[0].version_seq, 3);
}

#[test]
fn a_lease_whose_pins_do_not_read_lists_none_and_stops_the_sweep() {
    let mut leases = HandoffLeaseRepository::new();
    leases.leases.push(stored("not json"));
    assert!(leases.list_handoff_leases_for_group(GROUP)[0].pinned_versions.is_empty());
    let keys = leases.leased_version_keys_for_group(GROUP, 1);
    assert!(matches!(keys, Err(SyncSqliteError::Json(_))), "got {keys:?}");
    assert!(leases.leased_version_keys_for_group(GROUP, 2).unwrap().is_empty());
}

#[test]
fn a_stored_lease_reads_its_digest_only_at_its_length() {
    let lease = row_to_handoff_lease(&stored("[[\"a\",1]]"));
    assert_eq!(lease.root_digest, [3; 32]);
    assert_eq!(lease.state, HandoffLeaseState::Confirmed);
    assert_eq!(lease.pinned_versions, vec![("a".to_string(), 1)]);
    let mut short = stored("[]");
    short.root_digest = vec![3; 31];
    let lease = lease_with_pins(&short, Err("unread".to_string()));
    assert_eq!(lease.root_digest, [0; 32]);
    assert!(lease.pinned_versions.is_empty());
}

#[test]
fn an_inventory_operation_id_is_read_from_text_and_nothing_else() {
    let read = |value: ColumnValue| read_inventory_operation_id(&value);
    assert_eq!(read(ColumnValue::Text(b"op-1".to_vec())), Some("op-1".to_string()));
    assert_eq!(read(ColumnValue::Text(vec![0xff])), None);
    assert_eq!(read(ColumnValue::Null), None);
    assert_eq!(read(ColumnValue::Integer(1)), None);
    assert_eq!(read(ColumnValue::Blob(b"op-1".to_vec())), None);
}

#[test]
fn a_lease_table_with_a_repeated_id_is_not_sound() {
    let mut leases = HandoffLeaseRepository::new();
    leases.leases.push(stored("[]"));
    assert!(leases.is_sound());
    leases.leases.push(stored("[]"));
    assert!(!leases.is_sound());
}

#[test]
fn roots_that_do_not_read_leave_no_lease() {
    let mut index = FileIndexRepository::new();
    index.upsert_file(GROUP, &record("a", 1), Some(1)).unwrap();
    let taken = digested(&index);
    index.files[0].blocks = Err("not a list".to_string());
    let mut leases = HandoffLeaseRepository::new();
    assert_eq!(
        leases.record_handoff_lease_atomic(GROUP, "l", 10, 20, &taken, &index, MODE_MASK),
        Err(index.enumerate_group_durability_roots(GROUP, MODE_MASK).unwrap_err())
    );
    assert!(leases.leases.is_empty());
}

#[test]
fn a_digest_of_other_roots_leaves_no_lease() {
    let mut index = FileIndexRepository::new();
    index.upsert_file(GROUP, &record("a", 1), Some(1)).unwrap();
    let taken = digested(&index);
    index.upsert_file(GROUP, &record("b", 1), Some(1)).unwrap();
    let mut leases = HandoffLeaseRepository::new();
    assert_eq!(
        leases.record_handoff_lease_atomic(GROUP, "l", 10, 20, &taken, &index, MODE_MASK),
        Err(SyncSqliteError::CorruptState(
            "the durable roots of group g are not those their digest was taken of".to_string()
        ))
    );
    assert!(leases.leases.is_empty());
}
