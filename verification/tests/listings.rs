//! What the index lists: live files, the trash, conflict copies, and the
//! retained versions.

use yadorilink_sync_sqlite::error::SyncSqliteError;
use yadorilink_sync_sqlite::file_rows::{
    BlockInfo, FileIndexRepository, FileRecord, FileRow, RecursiveOperationRef, RootSetGeneration,
};
use yadorilink_sync_sqlite::file_versions::{
    version_record, StoredVersion, RETENTION_MAX_AGE_NANOS,
};
use yadorilink_sync_sqlite::index_vocabulary::{MaterializationState, RecordKind, VersionState};
use yadorilink_sync_sqlite::transaction_rows::ChangeHash;

const GROUP: &str = "g";
const DEVICE: &str = "device-a";
const MODE_MASK: u32 = 0o7777;

fn row(path: &str, version_seq: i64, state: &str, deleted: bool, kind: RecordKind) -> FileRow {
    FileRow {
        group_id: GROUP.to_string(),
        path: path.to_string(),
        size: 0,
        mtime_unix_nanos: 0,
        blocks: Ok(Vec::new()),
        deleted,
        version_seq,
        state: VersionState::try_from_db_str(state).unwrap(),
        origin_device_id: None,
        authoring_change_hash: None,
        materialization_state: MaterializationState::Placeholder,
        pinned: false,
        last_accessed_unix: None,
        record_kind: kind,
        symlink_target: None,
        unix_mode: -1,
        held_reason: None,
        held_since_unix_nanos: None,
        symlink_out_of_root: false,
        xattrs_json: "[]".to_string(),
        admitted_at_unix_nanos: None,
        trashed_by_operation_author: None,
        trashed_by_operation_id: None,
    }
}

fn insert(
    index: &mut FileIndexRepository,
    path: &str,
    version_seq: i64,
    state: &str,
    deleted: bool,
    kind: RecordKind,
) {
    index.files.push(row(path, version_seq, state, deleted, kind));
}

fn record(path: &str, deleted: bool) -> FileRecord {
    FileRecord { path: path.into(), size: 0, mtime_unix_nanos: 0, blocks: Vec::new(), deleted }
}

#[test]
fn trashed_rows_carry_the_kind_of_the_trashed_version() {
    let mut index = FileIndexRepository::new();
    insert(&mut index, "album", 1, "trashed", false, RecordKind::Directory);
    insert(&mut index, "album", 2, "current", true, RecordKind::File);
    insert(&mut index, "notes.txt", 1, "trashed", false, RecordKind::File);
    insert(&mut index, "notes.txt", 2, "current", true, RecordKind::File);

    let mut kinds: Vec<(String, RecordKind)> = index
        .list_trashed(GROUP, &[])
        .unwrap()
        .into_iter()
        .map(|t| (t.path, t.record_kind))
        .collect();
    kinds.sort_by(|a, b| a.0.cmp(&b.0));

    assert_eq!(
        kinds,
        [("album".to_string(), RecordKind::Directory), ("notes.txt".into(), RecordKind::File)]
    );
}

#[test]
fn live_conflict_copies_carry_their_kind() {
    let album = "album (conflicted copy, 2026-01-01-000000, device-b)";
    let latest = "latest (conflicted copy, 2026-01-01-000000, device-b)";
    let mut index = FileIndexRepository::new();
    insert(&mut index, album, 1, "current", false, RecordKind::Directory);
    insert(&mut index, latest, 1, "current", false, RecordKind::Symlink);

    let mut kinds: Vec<(String, RecordKind)> = index
        .list_live_conflict_copies(GROUP, &[album.to_string(), latest.to_string()])
        .into_iter()
        .map(|c| (c.path, c.record_kind))
        .collect();
    kinds.sort_by(|a, b| a.0.cmp(&b.0));

    assert_eq!(
        kinds,
        [
            (
                "album (conflicted copy, 2026-01-01-000000, device-b)".to_string(),
                RecordKind::Directory
            ),
            ("latest (conflicted copy, 2026-01-01-000000, device-b)".into(), RecordKind::Symlink),
        ]
    );
}

/// Writes `a/x`, `a/y` and `b` live, each authored by one admitted change.
fn seed_live_files(index: &mut FileIndexRepository) {
    let create = ChangeHash([1; 32]);
    index.admit_change(GROUP, &create, None);
    for path in ["a/x", "a/y", "b"] {
        index
            .upsert_file_with_origin_and_author(
                GROUP,
                &record(path, false),
                DEVICE,
                &create,
                Some(1),
            )
            .unwrap();
    }
}

fn operation_ref() -> RecursiveOperationRef {
    RecursiveOperationRef { author: DEVICE.into(), operation_id: [0x42; 16] }
}

/// The removal of `a` over the seeded files as one part, then `a/x` and `a/y`
/// tombstoned by it. Returns the part.
fn rm_tree_a(index: &mut FileIndexRepository) -> ChangeHash {
    let rm = ChangeHash([2; 32]);
    index.admit_change(GROUP, &rm, Some(&operation_ref()));
    for path in ["a/x", "a/y"] {
        index
            .upsert_file_with_origin_and_author(GROUP, &record(path, true), DEVICE, &rm, Some(2))
            .unwrap();
    }
    rm
}

#[test]
fn a_file_trashed_by_a_recursive_delete_names_that_operation() {
    let mut index = FileIndexRepository::new();
    seed_live_files(&mut index);
    rm_tree_a(&mut index);
    let plain = ChangeHash([3; 32]);
    index.admit_change(GROUP, &plain, None);
    index
        .upsert_file_with_origin_and_author(GROUP, &record("b", true), DEVICE, &plain, Some(3))
        .unwrap();

    let mut trashed = index.list_trashed(GROUP, &[]).unwrap();
    trashed.sort_by(|x, y| x.path.cmp(&y.path));
    assert_eq!(
        trashed
            .into_iter()
            .map(|t| (t.path, t.deleted_by_operation))
            .collect::<Vec<_>>(),
        vec![
            ("a/x".to_string(), Some(operation_ref())),
            ("a/y".to_string(), Some(operation_ref())),
            ("b".to_string(), None),
        ]
    );
    let restore_set =
        index.list_trashed_by_recursive_operation(GROUP, &operation_ref(), &[]).unwrap();
    assert_eq!(restore_set.iter().map(|t| t.path.as_str()).collect::<Vec<_>>(), vec!["a/x", "a/y"]);
}

#[test]
fn a_path_deleted_again_after_a_restore_leaves_the_operations_set() {
    let mut index = FileIndexRepository::new();
    seed_live_files(&mut index);
    rm_tree_a(&mut index);

    let restore = ChangeHash([3; 32]);
    index.admit_change(GROUP, &restore, None);
    index
        .upsert_file_with_origin_and_author(
            GROUP,
            &FileRecord { size: 7, ..record("a/x", false) },
            DEVICE,
            &restore,
            Some(3),
        )
        .unwrap();
    let delete_again = ChangeHash([4; 32]);
    index.admit_change(GROUP, &delete_again, None);
    index
        .upsert_file_with_origin_and_author(
            GROUP,
            &record("a/x", true),
            DEVICE,
            &delete_again,
            Some(4),
        )
        .unwrap();

    let restore_set =
        index.list_trashed_by_recursive_operation(GROUP, &operation_ref(), &[]).unwrap();
    assert_eq!(restore_set.iter().map(|t| t.path.as_str()).collect::<Vec<_>>(), vec!["a/y"]);
    let trashed = index.list_trashed(GROUP, &[]).unwrap();
    let x = trashed.iter().find(|t| t.path == "a/x").unwrap();
    assert_eq!((x.last_known_size, &x.deleted_by_operation), (7, &None));
}

#[test]
fn the_operations_set_outlives_its_compacted_part() {
    let mut index = FileIndexRepository::new();
    seed_live_files(&mut index);
    let rm = rm_tree_a(&mut index);
    let later = ChangeHash([3; 32]);
    index.admit_change(GROUP, &later, None);

    // Compaction drops the part and what it was a part of.
    index.changes.operations.retain(|part| part.change_hash != rm);
    index.changes.admitted.retain(|change| change.change_hash == later);
    assert!(index.changes.operation_of(&rm).is_none(), "the part's change is compacted away");

    let restore_set =
        index.list_trashed_by_recursive_operation(GROUP, &operation_ref(), &[]).unwrap();
    assert_eq!(restore_set.iter().map(|t| t.path.as_str()).collect::<Vec<_>>(), vec!["a/x", "a/y"]);
}

#[test]
fn a_path_with_live_history_is_not_in_the_trash() {
    let mut index = FileIndexRepository::new();
    seed_live_files(&mut index);
    rm_tree_a(&mut index);
    let live = ["a/x".to_string()];
    let trashed = index.list_trashed(GROUP, &live).unwrap();
    assert_eq!(trashed.iter().map(|t| t.path.as_str()).collect::<Vec<_>>(), vec!["a/y"]);
    let of_operation =
        index.list_trashed_by_recursive_operation(GROUP, &operation_ref(), &live).unwrap();
    assert_eq!(of_operation.iter().map(|t| t.path.as_str()).collect::<Vec<_>>(), vec!["a/y"]);
}

#[test]
fn an_operation_id_of_another_length_does_not_convert() {
    let mut index = FileIndexRepository::new();
    let mut trashed = row("a", 1, "trashed", false, RecordKind::File);
    trashed.trashed_by_operation_author = Some(DEVICE.to_string());
    trashed.trashed_by_operation_id = Some(vec![1; 15]);
    index.files.push(trashed);
    insert(&mut index, "a", 2, "current", true, RecordKind::File);
    assert_eq!(
        index.list_trashed(GROUP, &[]),
        Err(SyncSqliteError::ColumnConversion("trashed_by_operation_id is not 16 bytes".to_string()))
    );
}

#[test]
fn the_trash_lists_later_deletions_first() {
    let mut index = FileIndexRepository::new();
    for (path, deleted_at) in [("old", 10), ("new", 30), ("mid", 20)] {
        insert(&mut index, path, 1, "trashed", false, RecordKind::File);
        let mut tombstone = row(path, 2, "current", true, RecordKind::File);
        tombstone.mtime_unix_nanos = deleted_at;
        index.files.push(tombstone);
    }
    let trashed = index.list_trashed(GROUP, &[]).unwrap();
    assert_eq!(
        trashed.iter().map(|t| (t.path.as_str(), t.deleted_at_unix_nanos)).collect::<Vec<_>>(),
        vec![("new", 30), ("mid", 20), ("old", 10)]
    );
}

#[test]
fn conflict_copies_below_a_path_are_found_and_siblings_are_not() {
    let copy = "album/a (conflicted copy, 2026-01-01-000000, device-b).jpg";
    let sibling = "album0/a (conflicted copy, 2026-01-01-000000, device-b).jpg";
    let mut index = FileIndexRepository::new();
    insert(&mut index, copy, 1, "current", false, RecordKind::File);
    let recognized = [copy.to_string(), sibling.to_string()];
    assert!(index.has_live_conflict_copy_descendant(GROUP, "album", &recognized));
    assert!(index.has_live_conflict_copy_descendant(GROUP, "", &recognized));
    assert!(!index.has_live_conflict_copy_descendant(GROUP, "album0", &recognized));
    assert!(!index.has_live_conflict_copy_descendant(GROUP, copy, &recognized));
    assert!(!index.has_live_conflict_copy_descendant(GROUP, "album", &[]));
    insert(&mut index, sibling, 1, "current", true, RecordKind::File);
    assert!(!index.has_live_conflict_copy_descendant(GROUP, "album0", &recognized));
    assert!(index.list_live_conflict_copies(GROUP, &[]).is_empty());
}

#[test]
fn a_conflict_copy_of_any_name_lies_below_the_root() {
    let copy = "\u{10FFFF} (conflicted copy, 2026-01-01-000000, device-b)";
    let mut index = FileIndexRepository::new();
    insert(&mut index, copy, 1, "current", false, RecordKind::File);
    assert!(index.has_live_conflict_copy_descendant(GROUP, "", &[copy.to_string()]));
}

#[test]
fn a_directory_holds_something_while_a_live_version_lies_below_it() {
    let mut index = FileIndexRepository::new();
    assert!(!index.has_live_descendant_row(GROUP, ""));
    insert(&mut index, "d", 1, "current", false, RecordKind::Directory);
    assert!(index.has_live_descendant_row(GROUP, ""), "everything lies below the root");
    assert!(!index.has_live_descendant_row(GROUP, "d"), "nothing lies below itself");
    insert(&mut index, "dd/a", 1, "current", false, RecordKind::File);
    insert(&mut index, "d/", 1, "current", false, RecordKind::File);
    insert(&mut index, "d/gone", 1, "current", true, RecordKind::File);
    insert(&mut index, "d/old", 1, "superseded", false, RecordKind::File);
    assert!(!index.has_live_descendant_row(GROUP, "d"));
    insert(&mut index, "d/e/f", 1, "current", false, RecordKind::File);
    assert!(index.has_live_descendant_row(GROUP, "d"));
    assert!(index.has_live_descendant_row(GROUP, "d/e"));
    assert!(!index.has_live_descendant_row(GROUP, "d/e/f"));
    assert!(!index.has_live_descendant_row("other", "d"));
}

#[test]
fn a_directory_with_a_conflict_copy_below_it_holds_something() {
    let copy = "album/a (conflicted copy, 2026-01-01-000000, device-b).jpg";
    let mut index = FileIndexRepository::new();
    insert(&mut index, copy, 1, "current", false, RecordKind::File);
    for directory in ["album", ""] {
        assert!(index.has_live_conflict_copy_descendant(GROUP, directory, &[copy.to_string()]));
        assert!(index.has_live_descendant_row(GROUP, directory));
    }
}

#[test]
fn files_are_listed_by_their_current_version() {
    let mut index = FileIndexRepository::new();
    insert(&mut index, "b", 1, "superseded", false, RecordKind::File);
    insert(&mut index, "b", 2, "current", false, RecordKind::Symlink);
    insert(&mut index, "a", 1, "current", true, RecordKind::File);
    let mut elsewhere = row("c", 1, "current", false, RecordKind::File);
    elsewhere.group_id = "other".to_string();
    index.files.push(elsewhere);

    let listed = index.list_files(GROUP).unwrap();
    assert_eq!(listed, vec![record("b", false), record("a", true)]);
    let kinds = index.list_files_with_kind(GROUP).unwrap();
    assert_eq!(kinds[0].1, RecordKind::Symlink);
    assert_eq!(index.count_live_files(GROUP), 1);
    let picked =
        index.get_files_by_paths(GROUP, &["a".to_string(), "missing".to_string()]).unwrap();
    assert_eq!(picked, vec![record("a", true)]);
    assert_eq!(index.get_file(GROUP, "missing").unwrap(), None);
}

#[test]
fn a_block_list_that_does_not_read_is_corrupt() {
    let mut index = FileIndexRepository::new();
    let mut broken = row("a.txt", 1, "current", false, RecordKind::File);
    broken.blocks = Err("expected value".to_string());
    index.files.push(broken);
    let corrupt = SyncSqliteError::CorruptState(
        "stored block list for a.txt is corrupt: expected value".to_string(),
    );
    assert_eq!(index.get_file(GROUP, "a.txt"), Err(corrupt));
    assert!(matches!(index.list_files(GROUP), Err(SyncSqliteError::CorruptState(_))));
    assert_eq!(
        index.group_retained_version_references_block(GROUP, &[1]),
        Err(SyncSqliteError::CorruptState(
            "stored block list is corrupt: expected value".to_string()
        ))
    );
}

#[test]
fn a_version_is_read_with_its_blocks_and_metadata() {
    let mut index = FileIndexRepository::new();
    let mut stored = row("a.txt", 3, "superseded", false, RecordKind::File);
    stored.blocks = Ok(vec![BlockInfo { hash: vec![9; 32], offset: 0, size: 5 }]);
    stored.size = 5;
    stored.unix_mode = 0o100644;
    stored.xattrs_json = "[[\"user.k\",[7]]]".to_string();
    index.files.push(stored);
    let version = index.get_version(GROUP, "a.txt", 3, MODE_MASK).unwrap().unwrap();
    assert_eq!(version.state, VersionState::Superseded);
    assert_eq!(version.blocks, vec![BlockInfo { hash: vec![9; 32], offset: 0, size: 5 }]);
    assert_eq!(version.unix_mode, Some(0o644));
    assert_eq!(version.xattrs, vec![("user.k".to_string(), vec![7])]);
    assert_eq!(index.get_version(GROUP, "a.txt", 4, MODE_MASK).unwrap(), None);
}

#[test]
fn a_stored_version_of_an_unknown_state_is_refused() {
    let stored = StoredVersion {
        path: "a.txt".to_string(),
        version_seq: 1,
        size: 0,
        mtime_unix_nanos: 0,
        blocks: Ok(Vec::new()),
        deleted: 0,
        state: "archived".to_string(),
        origin_device_id: None,
        record_kind: "file".to_string(),
        symlink_target: None,
        unix_mode: -1,
        xattrs_json: "[]".to_string(),
    };
    assert_eq!(
        version_record(stored, MODE_MASK),
        Err(SyncSqliteError::InvalidInput(
            "a.txt: unknown version state \"archived\"".to_string()
        ))
    );
}

/// Twelve superseded versions of a path, the newest last, all of them old.
fn twelve_old_versions() -> FileIndexRepository {
    let mut index = FileIndexRepository::new();
    for seq in 1..13 {
        insert(&mut index, "a.txt", seq, "superseded", false, RecordKind::File);
    }
    insert(&mut index, "a.txt", 13, "current", false, RecordKind::File);
    index
}

#[test]
fn expiry_removes_what_is_beyond_both_bounds() {
    let now = RETENTION_MAX_AGE_NANOS + 1;
    let mut index = twelve_old_versions();
    assert_eq!(index.expire_superseded_and_trashed_versions(GROUP, now, &[]), 2);
    let left: Vec<i64> = index.files.iter().map(|row| row.version_seq).collect();
    assert_eq!(left, (3..14).collect::<Vec<i64>>());
}

#[test]
fn expiry_keeps_what_either_bound_covers() {
    let mut young = twelve_old_versions();
    assert_eq!(
        young.expire_superseded_and_trashed_versions(GROUP, RETENTION_MAX_AGE_NANOS, &[]),
        0,
        "a version exactly as old as the bound is still within it"
    );
    let mut few = FileIndexRepository::new();
    for seq in 1..11 {
        insert(&mut few, "a.txt", seq, "trashed", false, RecordKind::File);
    }
    assert_eq!(few.expire_superseded_and_trashed_versions(GROUP, i64::MAX, &[]), 0);
    let mut elsewhere = twelve_old_versions();
    assert_eq!(elsewhere.expire_superseded_and_trashed_versions("other", i64::MAX, &[]), 0);
}

#[test]
fn a_pinned_version_is_never_expired() {
    let mut index = twelve_old_versions();
    let pinned = [("a.txt".to_string(), 1)];
    assert_eq!(index.expire_superseded_and_trashed_versions(GROUP, i64::MAX, &pinned), 1);
    assert_eq!(index.files[0].version_seq, 1);
    assert_eq!(index.files[1].version_seq, 3);
}

#[test]
fn the_roots_are_the_retained_files_in_order() {
    let mut index = FileIndexRepository::new();
    insert(&mut index, "b", 2, "current", false, RecordKind::File);
    insert(&mut index, "b", 1, "superseded", false, RecordKind::File);
    insert(&mut index, "a", 1, "trashed", false, RecordKind::File);
    insert(&mut index, "a", 2, "current", true, RecordKind::File);
    insert(&mut index, "d", 1, "current", false, RecordKind::Directory);
    assert_eq!(
        index.enumerate_group_durability_root_versions(GROUP),
        vec![("a".to_string(), 1), ("b".to_string(), 1), ("b".to_string(), 2)]
    );
    let roots = index.enumerate_group_durability_roots(GROUP, MODE_MASK).unwrap();
    assert_eq!(
        roots.iter().map(|root| (root.path.as_str(), root.version_seq)).collect::<Vec<_>>(),
        vec![("a", 1), ("b", 1), ("b", 2)]
    );
    index
        .root_set_generations
        .push(RootSetGeneration { group_id: GROUP.to_string(), generation: 4 });
    let summary = index.group_root_set_summary(GROUP, MODE_MASK).unwrap();
    assert_eq!(summary.roots_count, 3);
    assert_eq!(summary.current_count, 1);
    assert_eq!(summary.unmaterialized_current_count, 1);
    assert_eq!(summary.generation, 4);
    assert_eq!(index.root_set_generation("other"), 0);
}

#[test]
fn a_block_is_referenced_while_a_version_holds_it() {
    let mut index = FileIndexRepository::new();
    let mut held = row("a.txt", 1, "trashed", false, RecordKind::File);
    held.blocks = Ok(vec![BlockInfo { hash: vec![1, 2], offset: 0, size: 1 }]);
    index.files.push(held);
    assert_eq!(index.group_retained_version_references_block(GROUP, &[1, 2]), Ok(true));
    assert_eq!(index.group_retained_version_references_block(GROUP, &[1]), Ok(false));
    assert_eq!(index.group_retained_version_references_block("other", &[1, 2]), Ok(false));
}

#[test]
fn the_roots_do_not_depend_on_the_order_of_the_rows() {
    let mut forward = FileIndexRepository::new();
    let mut backward = FileIndexRepository::new();
    for (path, seq, state) in [("a", 1, "superseded"), ("a", 2, "current"), ("b", 1, "current")] {
        insert(&mut forward, path, seq, state, false, RecordKind::File);
        backward.files.insert(0, row(path, seq, state, false, RecordKind::File));
    }
    assert_eq!(
        forward.enumerate_group_durability_roots(GROUP, MODE_MASK).unwrap(),
        backward.enumerate_group_durability_roots(GROUP, MODE_MASK).unwrap()
    );
}

#[test]
fn an_index_whose_rows_break_their_keys_is_not_sound() {
    let mut index = FileIndexRepository::new();
    insert(&mut index, "a", 1, "superseded", false, RecordKind::File);
    insert(&mut index, "a", 2, "current", false, RecordKind::File);
    index.set_directory_pinned(GROUP, "d", true);
    assert!(index.is_sound());
    assert!(index.has_room_for(5));

    let mut two_current = FileIndexRepository::new();
    insert(&mut two_current, "a", 1, "current", false, RecordKind::File);
    insert(&mut two_current, "a", 2, "current", false, RecordKind::File);
    assert!(!two_current.is_sound());

    let mut repeated = FileIndexRepository::new();
    insert(&mut repeated, "a", 1, "trashed", false, RecordKind::File);
    insert(&mut repeated, "a", 1, "superseded", false, RecordKind::File);
    assert!(!repeated.is_sound());

    let mut full = FileIndexRepository::new();
    insert(&mut full, "a", i64::MAX, "current", false, RecordKind::File);
    assert!(full.is_sound());
    assert!(full.has_room_for(0));
    assert!(!full.has_room_for(1));
}
