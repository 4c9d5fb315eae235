//! Folder links: one live link per group, and what is asked of a group through
//! it.

use yadorilink_sync_sqlite::error::SyncSqliteError;
use yadorilink_sync_sqlite::file_rows::{FileIndexRepository, FileRecord};
use yadorilink_sync_sqlite::file_upsert::upsert_file_in_tx;
use yadorilink_sync_sqlite::index_vocabulary::MaterializationPolicy;
use yadorilink_sync_sqlite::link::{LinkGate, LinkRepository};
use yadorilink_sync_sqlite::root_recheck::RootDigest;

const GROUP: &str = "group-1";
const LOCAL_PATH: &str = "/folders/shared";
const MODE_MASK: u32 = 0o7777;

fn admit_file(index: &mut FileIndexRepository, path: &str) {
    let record = FileRecord {
        path: path.to_string(),
        size: 10,
        mtime_unix_nanos: 0,
        blocks: Vec::new(),
        deleted: false,
    };
    upsert_file_in_tx(index, GROUP, &record, "device-that-was-here-first", None, Some(1))
        .expect("the file admission must succeed");
}

#[test]
fn a_first_link_records_the_groups_floor() {
    let index = FileIndexRepository::new();
    let mut links = LinkRepository::new();
    assert_eq!(links.local_history_floor(GROUP), None);
    links.add_link(LOCAL_PATH, GROUP, &index, 500).unwrap();
    assert_eq!(links.local_history_floor(GROUP), Some(500));
    assert_eq!(links.local_history_floor("other"), None);
}

#[test]
fn re_linking_an_indexed_group_leaves_the_floor_alone() {
    let mut index = FileIndexRepository::new();
    let mut links = LinkRepository::new();
    links.add_link(LOCAL_PATH, GROUP, &index, 500).unwrap();
    admit_file(&mut index, "notes.txt");
    let first_floor = links.local_history_floor(GROUP);

    links.remove_link(LOCAL_PATH);
    links.add_link(LOCAL_PATH, GROUP, &index, 900).unwrap();

    assert_eq!(
        links.local_history_floor(GROUP),
        first_floor,
        "a re-link of an already-indexed group must not move the floor forward"
    );
}

#[test]
fn a_new_link_is_live_and_eager() {
    let index = FileIndexRepository::new();
    let mut links = LinkRepository::new();
    links.add_link(LOCAL_PATH, GROUP, &index, 1).unwrap();
    let listed = links.list_links();
    assert_eq!(listed.len(), 1);
    assert_eq!(listed[0].local_path, LOCAL_PATH);
    assert_eq!(listed[0].materialization_policy, MaterializationPolicy::Eager);
    assert!(!listed[0].paused && !listed[0].orphaned);
    assert_eq!(listed[0].max_local_size_bytes, None);
    assert_eq!(
        links.link_gate_for_group(GROUP),
        Ok(LinkGate::Live {
            local_path: LOCAL_PATH.to_string(),
            policy: MaterializationPolicy::Eager
        })
    );
}

#[test]
fn a_group_does_not_get_a_second_live_link() {
    let index = FileIndexRepository::new();
    let mut links = LinkRepository::new();
    links.add_link("/b", GROUP, &index, 1).unwrap();
    assert_eq!(
        links.add_link("/a", GROUP, &index, 2),
        Err(SyncSqliteError::AmbiguousLink {
            group_id: GROUP.to_string(),
            local_paths: vec!["/a".to_string(), "/b".to_string()],
        })
    );
    assert_eq!(links.links.len(), 1);

    links.mark_link_orphaned("/b").unwrap();
    links.add_link("/a", GROUP, &index, 3).unwrap();
    assert_eq!(links.live_link_paths_for_group(GROUP).unwrap(), ["/a"]);
}

#[test]
fn a_path_linked_to_another_group_is_refused() {
    let index = FileIndexRepository::new();
    let mut links = LinkRepository::new();
    links.add_link(LOCAL_PATH, "group-0", &index, 1).unwrap();
    assert_eq!(
        links.add_link(LOCAL_PATH, GROUP, &index, 2),
        Err(SyncSqliteError::InvalidInput(
            "/folders/shared is already linked to folder group group-0; unlink it before linking \
             it to group-1"
                .to_string()
        ))
    );
}

#[test]
fn re_linking_a_path_revives_it() {
    let index = FileIndexRepository::new();
    let mut links = LinkRepository::new();
    links.add_link(LOCAL_PATH, GROUP, &index, 1).unwrap();
    links.set_paused(LOCAL_PATH, true).unwrap();
    links.mark_link_orphaned(LOCAL_PATH).unwrap();
    assert_eq!(links.has_live_link_for_group(GROUP), Ok(false));
    links.add_link(LOCAL_PATH, GROUP, &index, 2).unwrap();
    assert_eq!(links.has_live_link_for_group(GROUP), Ok(true));
    assert_eq!(links.is_paused_for_group(GROUP), Ok(false));
}

#[test]
fn what_is_set_on_the_link_is_answered_for_its_group() {
    let index = FileIndexRepository::new();
    let mut links = LinkRepository::new();
    links.add_link(LOCAL_PATH, GROUP, &index, 1).unwrap();
    links.set_materialization_policy(LOCAL_PATH, MaterializationPolicy::OnDemand).unwrap();
    links.set_windows_symlink_opt_in(LOCAL_PATH, true).unwrap();
    links.set_suppress_tombstones(LOCAL_PATH, true).unwrap();
    links.set_max_local_size_bytes(LOCAL_PATH, Some(7)).unwrap();
    links.set_link_root_token_for_group(GROUP, "token").unwrap();
    assert_eq!(
        links.materialization_policy_for_group(GROUP),
        Ok(Some(MaterializationPolicy::OnDemand))
    );
    assert_eq!(links.windows_symlink_opt_in_for_group(GROUP), Ok(true));
    assert_eq!(links.suppress_tombstones_for_group(GROUP), Ok(true));
    assert_eq!(links.list_links()[0].max_local_size_bytes, Some(7));
    assert_eq!(links.link_root_token_for_group(GROUP), Ok(Some("token".to_string())));
    assert_eq!(links.live_link_local_path_for_group(GROUP), Ok(Some(LOCAL_PATH.to_string())));
    links.set_paused(LOCAL_PATH, true).unwrap();
    assert_eq!(
        links.link_gate_for_group(GROUP),
        Ok(LinkGate::Paused { local_path: LOCAL_PATH.to_string() })
    );
}

#[test]
fn a_group_without_a_live_link_answers_with_the_defaults() {
    let links = LinkRepository::new();
    assert_eq!(links.materialization_policy_for_group(GROUP), Ok(None));
    assert_eq!(links.has_live_link_for_group(GROUP), Ok(false));
    assert_eq!(links.link_root_token_for_group(GROUP), Ok(None));
    assert_eq!(links.windows_symlink_opt_in_for_group(GROUP), Ok(false));
    assert_eq!(links.suppress_tombstones_for_group(GROUP), Ok(false));
    assert_eq!(links.live_link_local_path_for_group(GROUP), Ok(None));
    assert_eq!(links.link_gate_for_group(GROUP), Ok(LinkGate::NoLiveLink));
    assert_eq!(links.is_paused_for_group(GROUP), Ok(false));
}

#[test]
fn an_ambiguous_group_answers_nothing() {
    let index = FileIndexRepository::new();
    let mut links = LinkRepository::new();
    links.add_link("/b", GROUP, &index, 1).unwrap();
    links.force_second_live_link_for_test("/a", GROUP).unwrap();
    let ambiguous = SyncSqliteError::AmbiguousLink {
        group_id: GROUP.to_string(),
        local_paths: vec!["/a".to_string(), "/b".to_string()],
    };
    assert_eq!(links.ensure_unambiguous_group(GROUP), Err(ambiguous));
    assert!(matches!(
        links.link_gate_for_group(GROUP),
        Err(SyncSqliteError::AmbiguousLink { .. })
    ));
    assert!(matches!(
        links.set_link_root_token_for_group(GROUP, "token"),
        Err(SyncSqliteError::AmbiguousLink { .. })
    ));
    links.set_link_root_token_for_path_for_test("/a", "token").unwrap();
    let mut tokens = links.link_root_tokens_for_group_unchecked_for_test(GROUP);
    tokens.sort();
    assert_eq!(tokens, vec![None, Some("token".to_string())]);
    assert_eq!(
        links.force_second_live_link_for_test("/a", GROUP),
        Err(SyncSqliteError::DuplicateKey("links.local_path /a".to_string()))
    );
}

#[test]
fn the_live_paths_of_a_group_are_one_or_none_or_refused() {
    let index = FileIndexRepository::new();
    let mut links = LinkRepository::new();
    assert!(links.live_link_paths_for_group(GROUP).unwrap().is_empty());
    links.add_link("/a", GROUP, &index, 1).unwrap();
    assert_eq!(links.live_link_paths_for_group(GROUP).unwrap(), ["/a"]);
    links.force_second_live_link_for_test("/b", GROUP).unwrap();
    assert_eq!(
        links.live_link_paths_for_group(GROUP),
        Err(SyncSqliteError::AmbiguousLink {
            group_id: GROUP.to_string(),
            local_paths: vec!["/a".to_string(), "/b".to_string()],
        })
    );
}

#[test]
fn a_link_that_is_not_there_is_not_found() {
    let mut links = LinkRepository::new();
    let missing = || Err(SyncSqliteError::NotFound("link /nowhere".to_string()));
    assert_eq!(links.mark_link_orphaned("/nowhere"), missing());
    assert_eq!(links.set_paused("/nowhere", true), missing());
    assert_eq!(
        links.set_materialization_policy("/nowhere", MaterializationPolicy::Eager),
        missing()
    );
}

/// The group's durable roots under a digest.
fn digested(index: &FileIndexRepository, digest: [u8; 32]) -> RootDigest {
    let roots = index.enumerate_group_durability_roots(GROUP, MODE_MASK).unwrap();
    RootDigest { roots, digest }
}

#[test]
fn a_recheck_that_finds_another_digest_changes_nothing() {
    let mut index = FileIndexRepository::new();
    let mut links = LinkRepository::new();
    links.add_link(LOCAL_PATH, GROUP, &index, 1).unwrap();
    admit_file(&mut index, "a");
    let current = digested(&index, [1; 32]);
    let policy = MaterializationPolicy::OnDemand;
    let set = |links: &mut LinkRepository, expected| {
        links.recheck_digest_then_set_materialization_policy(
            GROUP, LOCAL_PATH, policy, &current, expected, &index, MODE_MASK,
        )
    };
    let remove = |links: &mut LinkRepository, expected| {
        links.recheck_digest_then_remove_link(
            GROUP, LOCAL_PATH, &current, expected, &index, MODE_MASK,
        )
    };
    assert_eq!(set(&mut links, [2; 32]), Ok(false));
    assert_eq!(
        links.materialization_policy_for_group(GROUP),
        Ok(Some(MaterializationPolicy::Eager))
    );
    assert_eq!(set(&mut links, [1; 32]), Ok(true));
    assert_eq!(links.materialization_policy_for_group(GROUP), Ok(Some(policy)));
    assert_eq!(remove(&mut links, [2; 32]), Ok(false));
    assert_eq!(links.links.len(), 1);
    assert_eq!(remove(&mut links, [1; 32]), Ok(true));
    assert!(links.links.is_empty());
    assert_eq!(
        set(&mut links, [1; 32]),
        Err(SyncSqliteError::NotFound(format!("link {LOCAL_PATH}")))
    );
    assert_eq!(remove(&mut links, [1; 32]), Ok(true), "removing an absent link is no failure");
}

#[test]
fn a_recheck_on_roots_that_moved_changes_nothing() {
    let mut index = FileIndexRepository::new();
    let mut links = LinkRepository::new();
    links.add_link(LOCAL_PATH, GROUP, &index, 1).unwrap();
    admit_file(&mut index, "a");
    let before = digested(&index, [1; 32]);
    admit_file(&mut index, "b");
    assert_eq!(index.recheck_root_digest(GROUP, MODE_MASK, &before, [1; 32]), Ok(false));
    assert_eq!(
        links.recheck_digest_then_set_materialization_policy(
            GROUP,
            LOCAL_PATH,
            MaterializationPolicy::OnDemand,
            &before,
            [1; 32],
            &index,
            MODE_MASK,
        ),
        Ok(false)
    );
    assert_eq!(
        links.recheck_digest_then_remove_link(
            GROUP, LOCAL_PATH, &before, [1; 32], &index, MODE_MASK,
        ),
        Ok(false)
    );
    assert_eq!(
        links.materialization_policy_for_group(GROUP),
        Ok(Some(MaterializationPolicy::Eager))
    );
}

#[test]
fn a_recheck_on_roots_that_do_not_read_fails() {
    let mut index = FileIndexRepository::new();
    let mut links = LinkRepository::new();
    links.add_link(LOCAL_PATH, GROUP, &index, 1).unwrap();
    admit_file(&mut index, "a");
    let current = digested(&index, [1; 32]);
    index.files[0].blocks = Err("not a list".to_string());
    let error = || index.enumerate_group_durability_roots(GROUP, MODE_MASK).unwrap_err();
    assert_eq!(
        links.recheck_digest_then_set_materialization_policy(
            GROUP,
            LOCAL_PATH,
            MaterializationPolicy::OnDemand,
            &current,
            [1; 32],
            &index,
            MODE_MASK,
        ),
        Err(error())
    );
    assert_eq!(
        links.recheck_digest_then_remove_link(
            GROUP, LOCAL_PATH, &current, [1; 32], &index, MODE_MASK,
        ),
        Err(error())
    );
    assert_eq!(links.links.len(), 1);
}

#[test]
fn recovery_is_pending_until_every_armed_path_is_resolved() {
    let mut index = FileIndexRepository::new();
    admit_file(&mut index, "a");
    admit_file(&mut index, "b");
    let mut links = LinkRepository::new();
    assert!(!links.duplicate_recovery_pending(GROUP));
    links.arm_duplicate_recovery_paths(GROUP, &index);
    links.arm_duplicate_recovery_paths(GROUP, &index);
    assert_eq!(links.duplicate_recovery_paths.len(), 2);
    links.resolve_duplicate_recovery_path(GROUP, "a");
    assert!(links.duplicate_recovery_pending(GROUP));
    links.resolve_duplicate_recovery_path(GROUP, "b");
    assert!(!links.duplicate_recovery_pending(GROUP));
}

#[test]
fn a_link_table_with_a_repeated_path_is_not_sound() {
    let index = FileIndexRepository::new();
    let mut links = LinkRepository::new();
    links.add_link("/a", GROUP, &index, 1).unwrap();
    links.add_link("/b", "group-2", &index, 1).unwrap();
    assert!(links.is_sound());
    links.links[1].local_path = "/a".to_string();
    assert!(!links.is_sound());
}
