//! Recursive operations: how their effects are split into parts, what the
//! parts descend from, and how they are committed.

use yadorilink_sync_sqlite::error::SyncSqliteError;
use yadorilink_sync_sqlite::file_rows::{
    FileIndexRepository, FileRecord, RecursiveOperationRef, VersionHash,
};
use yadorilink_sync_sqlite::frontier::{normalized_frontier, recursive_part_parents};
use yadorilink_sync_sqlite::local_capture::{
    EmittedChange, LocalCaptureActualStateEvidence, Op, PreparedLocalMutation,
};
use yadorilink_sync_sqlite::local_decisions::{
    absence_settles, edit_basis, frontier_emission, presence_settles, versions_shown_to_mutations,
    DesiredState, EditBasis, FrontierEmission, SeenVersion,
};
use yadorilink_sync_sqlite::recursive_operation::{
    draw_operation_id, needs_frontier, operation_id_of, plan_recursive_operation,
    recursive_operation_parts, RECURSIVE_PART_OP_LIMIT,
};
use yadorilink_sync_sqlite::recursive_part::{
    op_of, recursive_part, EmittedPart, RecursiveOperationKind,
};
use yadorilink_sync_sqlite::transaction_rows::ChangeHash;

const GROUP: &str = "g";

fn hash(byte: u8) -> ChangeHash {
    ChangeHash([byte; 32])
}

fn record(path: &str, deleted: bool) -> FileRecord {
    FileRecord { path: path.into(), size: 0, mtime_unix_nanos: 0, blocks: Vec::new(), deleted }
}

fn delete(path: &str) -> PreparedLocalMutation {
    PreparedLocalMutation::Delete {
        record: record(path, true),
        op: Op::Delete { path: path.to_string() },
    }
}

fn operation() -> RecursiveOperationRef {
    RecursiveOperationRef { author: "device-a".to_string(), operation_id: [9; 16] }
}

const EFFECTS: [u8; 32] = [4; 32];

fn rm_tree() -> RecursiveOperationKind {
    RecursiveOperationKind::RmTree { root: "a".to_string() }
}

/// The change of part `k`, which deletes one path.
fn emitted_part(parts: &[(usize, usize)], k: usize, byte: u8, path: &str) -> EmittedPart {
    EmittedPart {
        change: EmittedChange { hash: hash(byte), heads: vec![hash(byte)] },
        ops: vec![Op::Delete { path: path.to_string() }],
        part: recursive_part(parts, k, &operation(), &rm_tree(), EFFECTS),
    }
}

/// Commits the deletion of two paths, a part each, under the given changes.
fn commit(
    index: &mut FileIndexRepository,
    emitted: &[EmittedPart],
) -> Result<Vec<ChangeHash>, SyncSqliteError> {
    index.commit_recursive_operation(
        GROUP,
        &rm_tree(),
        &[delete("a/x"), delete("a/y")],
        &[10, 10],
        &[Some(LocalCaptureActualStateEvidence::Absent), None],
        "device-a",
        &operation(),
        EFFECTS,
        emitted,
        10,
        2,
        0o7777,
        Some(2),
    )
}

#[test]
fn parts_are_filled_up_to_the_byte_limit() {
    assert_eq!(recursive_operation_parts(&[], 10), vec![(0, 0)]);
    assert_eq!(recursive_operation_parts(&[4, 6, 1], 10), vec![(0, 2), (2, 3)]);
    assert_eq!(recursive_operation_parts(&[4, 7], 10), vec![(0, 1), (1, 2)]);
    assert_eq!(
        recursive_operation_parts(&[30, 1], 10),
        vec![(0, 1), (1, 2)],
        "an effect over the limit is a part of its own"
    );
}

#[test]
fn a_part_never_holds_more_effects_than_the_limit() {
    let lens = vec![0; RECURSIVE_PART_OP_LIMIT + 1];
    assert_eq!(
        recursive_operation_parts(&lens, 1_000_000),
        vec![(0, RECURSIVE_PART_OP_LIMIT), (RECURSIVE_PART_OP_LIMIT, RECURSIVE_PART_OP_LIMIT + 1)]
    );
}

#[test]
fn a_plan_with_too_many_parts_is_refused() {
    assert_eq!(
        plan_recursive_operation(&[10, 10, 10], 0, 10, 2),
        Err(SyncSqliteError::InvalidInput(
            "a recursive operation over 3 entries needs 3 parts, more than the 2 one operation \
             may have"
                .to_string()
        ))
    );
    assert_eq!(plan_recursive_operation(&[10, 10], 2, 10, 2), Ok(vec![(0, 1), (1, 2)]));
}

#[test]
fn a_plan_whose_evidence_does_not_match_is_refused() {
    assert_eq!(
        plan_recursive_operation(&[10, 10], 1, 10, 2),
        Err(SyncSqliteError::CorruptState(
            "commit_recursive_operation length mismatch: 1 evidence entries for 2 mutations"
                .to_string()
        ))
    );
}

#[test]
fn a_committed_operation_trashes_its_paths_under_its_name() {
    let mut index = FileIndexRepository::new();
    let create = hash(1);
    index.admit_change(GROUP, &create, None);
    for path in ["a/x", "a/y"] {
        index
            .upsert_file_with_origin_and_author(
                GROUP,
                &record(path, false),
                "device-a",
                &create,
                Some(1),
            )
            .unwrap();
    }
    let parts = [(0, 1), (1, 2)];
    let emitted = [emitted_part(&parts, 0, 2, "a/x"), emitted_part(&parts, 1, 3, "a/y")];
    let hashes = commit(&mut index, &emitted).unwrap();
    assert_eq!(hashes, vec![hash(2), hash(3)]);
    assert_eq!(index.get_authoring_change_hash(GROUP, "a/x").unwrap(), Some(hash(2)));
    assert_eq!(index.get_authoring_change_hash(GROUP, "a/y").unwrap(), Some(hash(3)));
    assert!(index.is_local_capture(GROUP, "a/y", &hash(3)));
    assert!(index.lookup_materialized_generation(GROUP, "a/x").is_some());
    assert!(index.lookup_materialized_generation(GROUP, "a/y").is_none());
    let restored =
        index.list_trashed_by_recursive_operation(GROUP, &operation(), &[]).unwrap();
    assert_eq!(restored.iter().map(|t| t.path.as_str()).collect::<Vec<_>>(), vec!["a/x", "a/y"]);
}

#[test]
fn an_operation_without_a_change_for_every_part_is_refused_whole() {
    let mut index = FileIndexRepository::new();
    let result = commit(&mut index, &[emitted_part(&[(0, 1), (1, 2)], 0, 2, "a/x")]);
    assert_eq!(
        result,
        Err(SyncSqliteError::CorruptState(
            "commit_recursive_operation length mismatch: 1 changes for 2 parts".to_string()
        ))
    );
    assert!(index.files.is_empty());
    assert!(!index.changes.has_history(GROUP));
}

#[test]
fn a_part_is_described_by_its_place_among_all_parts() {
    let parts = [(0, 2), (2, 3), (3, 3)];
    let rename = RecursiveOperationKind::RenameTree { from: "a".to_string(), to: "b".to_string() };
    let part = recursive_part(&parts, 1, &operation(), &rename, EFFECTS);
    assert_eq!(part.operation_id, [9; 16]);
    assert_eq!(part.kind, rename);
    assert_eq!(part.part_index, 1);
    assert_eq!(part.part_count, 3);
    assert_eq!(part.effect_set_hash, EFFECTS);
    assert_eq!(op_of(&delete("a/x")), &Op::Delete { path: "a/x".to_string() });
}

#[test]
fn a_change_that_is_not_its_parts_own_refuses_the_operation_whole() {
    let parts = [(0, 1), (1, 2)];
    let own = || emitted_part(&parts, 0, 2, "a/x");
    let other_effect = emitted_part(&parts, 1, 3, "a/z");
    let other_place = emitted_part(&parts, 0, 3, "a/y");
    let other_count = emitted_part(&[(0, 1), (1, 2), (2, 3)], 1, 3, "a/y");
    let mut other_kind = emitted_part(&parts, 1, 3, "a/y");
    other_kind.part.kind = RecursiveOperationKind::RmTree { root: "b".to_string() };
    let mut other_effects = emitted_part(&parts, 1, 3, "a/y");
    other_effects.part.effect_set_hash = [5; 32];
    let mut other_operation = emitted_part(&parts, 1, 3, "a/y");
    other_operation.part.operation_id = [8; 16];
    let mut more_effects = emitted_part(&parts, 1, 3, "a/y");
    more_effects.ops.push(Op::Delete { path: "a/z".to_string() });
    for second in [
        other_effect,
        other_place,
        other_count,
        other_kind,
        other_effects,
        other_operation,
        more_effects,
    ] {
        let mut index = FileIndexRepository::new();
        assert_eq!(
            commit(&mut index, &[own(), second]),
            Err(SyncSqliteError::CorruptState(
                "commit_recursive_operation change mismatch: part 1 was emitted with other \
                 effects or another description than its own"
                    .to_string()
            ))
        );
        assert!(index.files.is_empty());
        assert!(!index.changes.has_history(GROUP));
    }
}

#[test]
fn parts_committed_one_by_one_come_to_the_whole_operation() {
    let parts = [(0, 1), (1, 2)];
    let emitted = [emitted_part(&parts, 0, 2, "a/x"), emitted_part(&parts, 1, 3, "a/y")];
    let mut whole = FileIndexRepository::new();
    commit(&mut whole, &emitted).unwrap();
    let mut stepwise = FileIndexRepository::new();
    for (k, part) in emitted.iter().enumerate() {
        let committed = stepwise.commit_recursive_part(
            GROUP,
            &rm_tree(),
            &[delete("a/x"), delete("a/y")],
            &[Some(LocalCaptureActualStateEvidence::Absent), None],
            "device-a",
            &operation(),
            EFFECTS,
            &parts,
            k,
            part,
            0o7777,
            Some(2),
        );
        assert_eq!(committed, Ok(part.change.hash));
    }
    assert_eq!(stepwise.files, whole.files);
    assert_eq!(stepwise.proofs, whole.proofs);
    assert_eq!(stepwise.captures, whole.captures);
    assert_eq!(stepwise.changes.admitted, whole.changes.admitted);
    assert_eq!(stepwise.root_set_generations, whole.root_set_generations);
    let basis = &stepwise.lookup_materialized_generation(GROUP, "a/x").unwrap().causal_basis;
    assert_eq!(basis, &vec![hash(2)], "the heads right after the part's own change");
}

#[test]
fn a_frontier_is_recorded_in_byte_order_each_change_once() {
    assert_eq!(
        normalized_frontier(&[hash(3), hash(1), hash(3), hash(2)]),
        vec![hash(1), hash(2), hash(3)]
    );
    assert_eq!(
        normalized_frontier(&[hash(2), hash(3), hash(1)]),
        normalized_frontier(&[hash(1), hash(1), hash(2), hash(3)])
    );
    assert!(normalized_frontier(&[]).is_empty());
}

#[test]
fn a_part_descends_from_every_basis_and_from_the_frontier_only_where_one_is_unknown() {
    let known = [Some(vec![hash(5)]), Some(vec![hash(2), hash(5)])];
    assert_eq!(recursive_part_parents(&known, &[hash(9)]), vec![hash(2), hash(5)]);
    assert!(!needs_frontier(&known));
    for unknown in [None, Some(Vec::new())] {
        let bases = [Some(vec![hash(5)]), unknown];
        assert!(needs_frontier(&bases));
        assert_eq!(recursive_part_parents(&bases, &[hash(9)]), vec![hash(5), hash(9)]);
    }
}

#[test]
fn a_path_without_a_basis_shows_its_current_version() {
    let mut index = FileIndexRepository::new();
    let create = hash(1);
    index.admit_change(GROUP, &create, None);
    index
        .upsert_file_with_origin_and_author(GROUP, &record("a", false), "d", &create, Some(1))
        .unwrap();
    assert_eq!(
        index.seen_by_path(GROUP, &["a", "b", "a"], &[None, None, Some(vec![hash(7)])]),
        vec![vec![hash(1)], vec![], vec![hash(7)]]
    );
}

#[test]
fn an_operation_id_is_drawn_and_never_zero() {
    assert_eq!(operation_id_of([0; 16]), None);
    let mut last = [0; 16];
    last[15] = 1;
    assert_eq!(operation_id_of(last), Some(last));
    let drawn = draw_operation_id();
    assert_ne!(drawn, Some([0; 16]));
    assert_ne!(drawn, draw_operation_id(), "two draws of sixteen bytes do not meet");
}

#[test]
fn an_edit_descends_from_what_its_path_shows() {
    assert_eq!(edit_basis(true, &None), EditBasis::WriteThrough);
    assert_eq!(edit_basis(true, &Some(vec![hash(1)])), EditBasis::WriteThrough);
    assert_eq!(edit_basis(false, &Some(vec![hash(1)])), EditBasis::Materialized);
    assert_eq!(edit_basis(false, &Some(Vec::new())), EditBasis::Frontier);
    assert_eq!(edit_basis(false, &None), EditBasis::Frontier);
}

#[test]
fn an_emission_names_what_was_shown_where_it_writes_elsewhere() {
    assert_eq!(frontier_emission("a", "a", false), FrontierEmission::Plain);
    assert_eq!(frontier_emission("a", "a", true), FrontierEmission::Onto);
    assert_eq!(frontier_emission("a copy", "a", false), FrontierEmission::Seeing);
    assert_eq!(frontier_emission("a copy", "a", true), FrontierEmission::OntoSeeing);
}

#[test]
fn a_proof_settles_only_a_pending_obligation() {
    assert!(absence_settles(Some("pending")));
    assert!(!absence_settles(Some("settled")));
    assert!(!absence_settles(None));
    assert!(presence_settles(Some("pending"), false, DesiredState::Resolved));
    assert!(!presence_settles(Some("pending"), true, DesiredState::Resolved));
    assert!(!presence_settles(Some("pending"), false, DesiredState::StructuralDirectory));
    assert!(!presence_settles(Some("pending"), false, DesiredState::Unknown));
    assert!(!presence_settles(None, false, DesiredState::Resolved));
}

#[test]
fn each_version_shown_is_named_once_per_path() {
    let a = VersionHash([1; 32]);
    let b = VersionHash([2; 32]);
    let seen = versions_shown_to_mutations(
        &[Some(a), None, Some(a), Some(b)],
        &[
            vec!["x".to_string(), "y".to_string()],
            vec!["z".to_string()],
            vec!["x".to_string()],
            vec!["x".to_string()],
        ],
    );
    assert_eq!(
        seen,
        vec![
            SeenVersion { path: "x".to_string(), version: a },
            SeenVersion { path: "y".to_string(), version: a },
            SeenVersion { path: "x".to_string(), version: b },
        ]
    );
}
