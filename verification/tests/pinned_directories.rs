//! A pinned directory is a policy over a prefix: what is below it counts as
//! pinned, including entries that arrive after the pin.

use yadorilink_sync_sqlite::file_rows::{FileIndexRepository, FileRow};
use yadorilink_sync_sqlite::index_vocabulary::{MaterializationState, RecordKind, VersionState};
use yadorilink_sync_sqlite::pinned_directories::lies_below;

const GROUP: &str = "g";

fn insert(index: &mut FileIndexRepository, path: &str, kind: RecordKind, materialization: &str) {
    index.files.push(FileRow {
        group_id: GROUP.to_string(),
        path: path.to_string(),
        size: 1,
        mtime_unix_nanos: 0,
        blocks: Ok(Vec::new()),
        deleted: false,
        version_seq: 1,
        state: VersionState::Current,
        origin_device_id: None,
        authoring_change_hash: None,
        materialization_state: MaterializationState::from_db_str(materialization),
        pinned: false,
        last_accessed_unix: None,
        record_kind: kind,
        symlink_target: None,
        unix_mode: -1,
        held_reason: None,
        held_since_unix_nanos: None,
        symlink_out_of_root: false,
        xattrs_json: "[]".to_string(),
        admitted_at_unix_nanos: None,
        trashed_by_operation_author: None,
        trashed_by_operation_id: None,
    });
}

#[test]
fn a_pinned_directory_pins_what_is_below_it_and_nothing_else() {
    let mut index = FileIndexRepository::new();
    insert(&mut index, "album", RecordKind::Directory, "hydrated");
    insert(&mut index, "album/a.jpg", RecordKind::File, "hydrated");
    insert(&mut index, "album/sub/b.jpg", RecordKind::File, "placeholder");
    // Sorts right after `album/`'s range, and shares its first characters.
    insert(&mut index, "album0/c.jpg", RecordKind::File, "hydrated");
    insert(&mut index, "albums.txt", RecordKind::File, "hydrated");

    index.set_directory_pinned(GROUP, "album", true);
    for path in ["album", "album/a.jpg", "album/sub/b.jpg", "album/later.jpg"] {
        assert!(index.is_pinned(GROUP, path), "{path}");
        assert!(index.is_directory_pinned(GROUP, path), "{path}");
    }
    for path in ["album0/c.jpg", "albums.txt", ""] {
        assert!(!index.is_pinned(GROUP, path), "{path}");
    }
    assert_eq!(
        index.pinned_directory_above(GROUP, "album/sub/b.jpg").as_deref(),
        Some("album")
    );
    assert_eq!(index.pinned_directory_above(GROUP, "album"), None, "not above itself");
    assert_eq!(
        index.list_live_files_under(GROUP, "album"),
        ["album/a.jpg", "album/sub/b.jpg"]
    );

    index.set_directory_pinned(GROUP, "album", false);
    assert!(!index.is_pinned(GROUP, "album/a.jpg"));
}

#[test]
fn a_live_file_at_the_prefix_is_listed_with_those_below_it() {
    let mut index = FileIndexRepository::new();
    insert(&mut index, "docs/a.txt", RecordKind::File, "hydrated");
    insert(&mut index, "docs", RecordKind::File, "hydrated");
    insert(&mut index, "docs.txt", RecordKind::File, "hydrated");
    assert_eq!(index.list_live_files_under(GROUP, "docs"), ["docs", "docs/a.txt"]);
    assert_eq!(index.list_live_files_under(GROUP, "docs/a.txt"), ["docs/a.txt"]);
}

#[test]
fn the_link_root_is_the_empty_prefix() {
    let mut index = FileIndexRepository::new();
    insert(&mut index, "a.txt", RecordKind::File, "hydrated");
    insert(&mut index, "dir/b.txt", RecordKind::File, "hydrated");
    index.set_directory_pinned(GROUP, "", true);
    assert!(index.is_pinned(GROUP, "a.txt"));
    assert!(index.is_pinned(GROUP, "dir/b.txt"));
    assert_eq!(index.list_live_files_under(GROUP, ""), ["a.txt", "dir/b.txt"]);
}

#[test]
fn a_directory_name_is_not_a_pattern() {
    let mut index = FileIndexRepository::new();
    insert(&mut index, "a_b/x.txt", RecordKind::File, "hydrated");
    insert(&mut index, "aXb/y.txt", RecordKind::File, "hydrated");
    index.set_directory_pinned(GROUP, "a_b", true);
    assert!(index.is_pinned(GROUP, "a_b/x.txt"));
    assert!(!index.is_pinned(GROUP, "aXb/y.txt"));
}

#[test]
fn a_file_that_takes_a_pinned_folders_name_is_not_kept_by_it() {
    let mut index = FileIndexRepository::new();
    insert(&mut index, "docs", RecordKind::File, "hydrated");
    insert(&mut index, "notes", RecordKind::File, "placeholder");
    index.set_directory_pinned(GROUP, "docs", true);
    index.set_directory_pinned(GROUP, "notes", true);

    assert!(!index.is_pinned(GROUP, "docs"));
    assert!(index.is_pinned(GROUP, "docs/later.txt"), "still covers what is below");
}

#[test]
fn releasing_a_directory_pin_reports_whether_one_was_set() {
    let mut index = FileIndexRepository::new();
    assert!(!index.set_directory_pinned(GROUP, "gone", false));
    index.set_directory_pinned(GROUP, "gone", true);
    assert!(index.set_directory_pinned(GROUP, "gone", false));
}

#[test]
fn the_nearest_pin_above_a_path_is_the_deepest() {
    let mut index = FileIndexRepository::new();
    for prefix in ["", "a", "a/b", "ab"] {
        index.set_directory_pinned(GROUP, prefix, true);
    }
    let above = |path: &str| index.pinned_directory_above(GROUP, path);
    assert_eq!(above("a/b/c").as_deref(), Some("a/b"));
    assert_eq!(above("a/x").as_deref(), Some("a"));
    assert_eq!(above("z").as_deref(), Some(""));
    assert_eq!(index.pinned_directory_above("other", "a/b/c"), None);
}

#[test]
fn releasing_a_pin_undoes_setting_it() {
    let mut index = FileIndexRepository::new();
    index.set_directory_pinned(GROUP, "kept", true);
    index.set_directory_pinned(GROUP, "released", true);
    index.set_directory_pinned(GROUP, "released", false);
    assert_eq!(index.pinned_directories.len(), 1);
    assert!(index.is_pinned(GROUP, "kept/x"));
    assert!(!index.is_pinned(GROUP, "released/x"));
}

#[test]
fn a_pinned_file_is_pinned_without_a_directory() {
    let mut index = FileIndexRepository::new();
    insert(&mut index, "a.txt", RecordKind::File, "placeholder");
    assert!(!index.is_pinned(GROUP, "a.txt"));
    index.set_pinned(GROUP, "a.txt", true).unwrap();
    assert!(index.is_pinned(GROUP, "a.txt"));
    assert!(!index.is_directory_pinned(GROUP, "a.txt"));
}

#[test]
fn only_what_follows_the_separator_lies_below() {
    assert!(lies_below("a/b", "a"));
    assert!(lies_below("a/b/c", "a"));
    assert!(!lies_below("a", "a"));
    assert!(!lies_below("ab", "a"));
    assert!(!lies_below("a0", "a"));
    assert!(!lies_below("", "a"));
}
