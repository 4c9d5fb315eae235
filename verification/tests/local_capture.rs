//! What a local capture proves and claims: a version is marked hydrated only
//! beside a proof that names it, and no writer leaves an older proof usable.

use yadorilink_sync_sqlite::error::SyncSqliteError;
use yadorilink_sync_sqlite::file_rows::{
    FileIndexRepository, FileRecord, LocalFileMetaColumns, MaterializedObjectKind, VersionHash,
};
use yadorilink_sync_sqlite::identity::{
    FileIdentity, ObjectKind, PlatformObjectId, Timestamp, VolumeIdentity,
};
use yadorilink_sync_sqlite::index_vocabulary::{MaterializationState, RecordKind};
use yadorilink_sync_sqlite::local_capture::{
    CarriedVersion, ChangeContent, EmittedChange, ImportedActualState,
    LocalCaptureActualStateEvidence, Op, PreparedLocalMutation,
};
use yadorilink_sync_sqlite::local_emission::{sole_op_path, write_through_source_of};
use yadorilink_sync_sqlite::transaction_rows::ChangeHash;

const GROUP: &str = "g";
const PATH: &str = "notes.txt";
const MODE_MASK: u32 = 0o7777;

/// A plausible observation of the path on disk. The tests never touch a real
/// filesystem: what matters is that the writer either had an identity to
/// publish or did not.
fn observed_identity(inode: u64) -> FileIdentity {
    FileIdentity {
        volume_identity: VolumeIdentity::Unix { device_id: 7 },
        object_id: PlatformObjectId::Unix { inode },
        object_kind: ObjectKind::RegularFile,
        generation_or_usn: Some(1),
        birth_or_creation_time: Some(Timestamp {
            seconds_since_unix_epoch: 1_700_000_000,
            subsec_nanos: 0,
        }),
        observed_size: 4,
        metadata_fingerprint: [inode as u8; 32],
        link_count: Some(1),
        symlink_target_digest: None,
    }
}

fn meta() -> LocalFileMetaColumns {
    LocalFileMetaColumns {
        record_kind: RecordKind::File,
        symlink_target: None,
        symlink_out_of_root: false,
        unix_mode: Some(0o644),
        xattrs: Vec::new(),
    }
}

/// The version of the path's content at a modification time.
fn file_version(mtime_unix_nanos: i64) -> CarriedVersion {
    CarriedVersion {
        version_hash: VersionHash([mtime_unix_nanos as u8; 32]),
        record_kind: RecordKind::File,
    }
}

/// The change that captures the path at a modification time.
fn change_at(mtime_unix_nanos: i64) -> ChangeHash {
    ChangeHash([100 + mtime_unix_nanos as u8; 32])
}

/// A change that is the group's one head right after it was emitted.
fn emitted(hash: ChangeHash) -> EmittedChange {
    EmittedChange { hash, heads: vec![hash] }
}

fn emitted_at(mtime_unix_nanos: i64) -> EmittedChange {
    emitted(change_at(mtime_unix_nanos))
}

fn record_at(mtime_unix_nanos: i64) -> FileRecord {
    FileRecord {
        path: PATH.to_string(),
        size: 0,
        mtime_unix_nanos,
        blocks: Vec::new(),
        deleted: false,
    }
}

fn put(version: &CarriedVersion) -> Op {
    Op::Put { path: PATH.to_string(), version: version.version_hash }
}

fn upsert(mtime_unix_nanos: i64) -> PreparedLocalMutation {
    let version = file_version(mtime_unix_nanos);
    PreparedLocalMutation::Upsert {
        record: record_at(mtime_unix_nanos),
        op: put(&version),
        version,
        meta: Some(meta()),
    }
}

/// Writes one local version of `PATH`, publishing an actual-state proof for it
/// only when `identity` is `Some`.
fn emit_version(
    repo: &mut FileIndexRepository,
    mtime_unix_nanos: i64,
    identity: Option<FileIdentity>,
) -> CarriedVersion {
    let version = file_version(mtime_unix_nanos);
    repo.upsert_file_emitting_change(
        GROUP,
        &record_at(mtime_unix_nanos),
        "device-a",
        &ChangeContent { ops: &[put(&version)], versions: &[version] },
        Some(&meta()),
        identity.as_ref(),
        None,
        &emitted_at(mtime_unix_nanos),
        MODE_MASK,
        Some(1000),
    )
    .expect("the local emission must commit");
    version
}

fn materialization_state(repo: &FileIndexRepository) -> MaterializationState {
    let at = repo.current_position(GROUP, PATH).expect("the current row must exist");
    repo.files[at].materialization_state
}

/// The proof a correctness-relevant reader is allowed to see.
fn usable_proof_version(repo: &FileIndexRepository) -> Option<Option<VersionHash>> {
    repo.lookup_materialized_generation(GROUP, PATH).map(|basis| basis.version)
}

fn diagnostic_proof_kind(repo: &FileIndexRepository) -> Option<MaterializedObjectKind> {
    repo.lookup_materialized_generation_diagnostic(GROUP, PATH).map(|basis| basis.object_kind)
}

#[test]
fn an_observed_local_edit_commits_its_exact_proof_and_its_claim_together() {
    let mut repo = FileIndexRepository::new();

    let v1 = emit_version(&mut repo, 1, Some(observed_identity(11)));

    assert_eq!(
        materialization_state(&repo),
        MaterializationState::Hydrated,
        "an emission that published its proof must also stamp the claim it earns"
    );
    assert_eq!(
        usable_proof_version(&repo),
        Some(Some(v1.version_hash)),
        "the proof must be usable and must name the version this change put at the path"
    );
}

#[test]
fn an_unobserved_local_edit_inherits_neither_the_claim_nor_the_previous_proof() {
    let mut repo = FileIndexRepository::new();

    let v1 = emit_version(&mut repo, 1, Some(observed_identity(11)));
    assert_eq!(materialization_state(&repo), MaterializationState::Hydrated);
    assert_eq!(usable_proof_version(&repo), Some(Some(v1.version_hash)));

    let v2 = emit_version(&mut repo, 2, None);
    assert_ne!(v1.version_hash, v2.version_hash, "the two versions must really differ");

    assert_eq!(
        materialization_state(&repo),
        MaterializationState::Placeholder,
        "a version this device never observed on disk must not claim to be materialized, \
         however the row it superseded was marked"
    );
    assert_eq!(
        usable_proof_version(&repo),
        None,
        "V1's proof describes content the path has moved off; no correctness-relevant \
         reader may still see it as current"
    );
    assert_eq!(
        diagnostic_proof_kind(&repo),
        Some(MaterializedObjectKind::RegularFile),
        "invalidation retires the proof, it does not erase the record of what this device \
         last believed"
    );
}

#[test]
fn a_non_emitting_local_delete_does_not_leave_the_present_proof_usable() {
    let mut repo = FileIndexRepository::new();

    let v1 = emit_version(&mut repo, 1, Some(observed_identity(11)));
    assert_eq!(materialization_state(&repo), MaterializationState::Hydrated);
    assert_eq!(usable_proof_version(&repo), Some(Some(v1.version_hash)));

    // The group has history, so the tombstone carries the path's last author on.
    repo.mark_deleted_at(GROUP, PATH, "device-a", 5, Some(1000))
        .expect("the tombstone must commit");

    assert!(
        repo.get_file(GROUP, PATH).unwrap().expect("a tombstone row").deleted,
        "the path must really be tombstoned"
    );
    assert_eq!(
        usable_proof_version(&repo),
        None,
        "the proof says this path holds a regular file; the transaction that tombstoned it \
         must retire that claim in the same commit"
    );
    assert_ne!(
        materialization_state(&repo),
        MaterializationState::Hydrated,
        "a tombstone holds no content and must not inherit a claim to"
    );
}

#[test]
fn an_emitting_delete_without_an_absence_proof_still_retires_the_present_one() {
    let mut repo = FileIndexRepository::new();

    emit_version(&mut repo, 1, Some(observed_identity(11)));
    repo.mark_deleted_emitting_change(GROUP, PATH, "device-a", 5, false, &emitted_at(5), Some(1000))
        .expect("the tombstone must commit");

    assert_eq!(usable_proof_version(&repo), None);
    assert_ne!(materialization_state(&repo), MaterializationState::Hydrated);
}

#[test]
fn a_proven_local_delete_publishes_absence_without_claiming_hydrated() {
    let mut repo = FileIndexRepository::new();

    emit_version(&mut repo, 1, Some(observed_identity(11)));
    repo.mark_deleted_emitting_change(GROUP, PATH, "device-a", 5, true, &emitted_at(5), Some(1000))
        .expect("the tombstone must commit");

    assert_eq!(
        usable_proof_version(&repo),
        Some(None),
        "an absent generation is usable and carries no version"
    );
    assert_eq!(diagnostic_proof_kind(&repo), Some(MaterializedObjectKind::Absent));
    assert_ne!(
        materialization_state(&repo),
        MaterializationState::Hydrated,
        "an exactly-absent path holds no content, so it may not claim to"
    );
}

#[test]
fn a_batched_local_edit_with_no_evidence_retires_the_previous_proof() {
    let mut repo = FileIndexRepository::new();

    let v1 = emit_version(&mut repo, 1, Some(observed_identity(11)));
    assert_eq!(usable_proof_version(&repo), Some(Some(v1.version_hash)));

    repo.commit_local_mutations_batch(
        GROUP,
        &[upsert(2)],
        &[None],
        "device-a",
        &[emitted_at(2)],
        MODE_MASK,
        Some(1000),
    )
    .expect("the batch must commit");

    assert_eq!(materialization_state(&repo), MaterializationState::Placeholder);
    assert_eq!(usable_proof_version(&repo), None);
}

#[test]
fn a_batched_local_edit_with_evidence_proves_the_version_it_committed() {
    let mut repo = FileIndexRepository::new();

    emit_version(&mut repo, 1, Some(observed_identity(11)));

    let v2 = file_version(2);
    repo.commit_local_mutations_batch(
        GROUP,
        &[upsert(2)],
        &[Some(LocalCaptureActualStateEvidence::Present {
            filesystem_identity: observed_identity(12),
        })],
        "device-a",
        &[emitted_at(2)],
        MODE_MASK,
        Some(1000),
    )
    .expect("the batch must commit");

    assert_eq!(materialization_state(&repo), MaterializationState::Hydrated);
    assert_eq!(usable_proof_version(&repo), Some(Some(v2.version_hash)));
}

#[test]
fn the_non_emitting_scan_batch_publishes_a_versioned_proof() {
    let mut repo = FileIndexRepository::new();

    let version = file_version(1);
    repo.upsert_files_batch(
        GROUP,
        &[record_at(1)],
        "device-a",
        &[Some(meta())],
        &[Some(ImportedActualState {
            filesystem_identity: observed_identity(11),
            record_kind: RecordKind::File,
            version_hash: version.version_hash,
        })],
        &[change_at(9)],
        MODE_MASK,
        Some(1000),
    )
    .expect("the scan batch must commit");

    assert_eq!(materialization_state(&repo), MaterializationState::Hydrated);
    assert_eq!(
        usable_proof_version(&repo),
        Some(Some(version.version_hash)),
        "the proof must name the version the scan derived for these bytes"
    );
}

#[test]
fn the_non_emitting_scan_batch_retires_what_it_cannot_observe() {
    let mut repo = FileIndexRepository::new();

    let v1 = emit_version(&mut repo, 1, Some(observed_identity(11)));
    assert_eq!(usable_proof_version(&repo), Some(Some(v1.version_hash)));

    repo.upsert_files_batch(
        GROUP,
        &[record_at(2)],
        "device-a",
        &[Some(meta())],
        &[None],
        &[],
        MODE_MASK,
        Some(1000),
    )
    .expect("the scan batch must commit");

    assert_eq!(materialization_state(&repo), MaterializationState::Placeholder);
    assert_eq!(usable_proof_version(&repo), None);
}

#[test]
fn an_emission_whose_version_the_change_does_not_carry_proves_nothing() {
    let mut repo = FileIndexRepository::new();

    let v1 = emit_version(&mut repo, 1, Some(observed_identity(11)));
    assert_eq!(usable_proof_version(&repo), Some(Some(v1.version_hash)));

    let v2 = file_version(2);
    let unrelated = file_version(99);
    repo.upsert_file_emitting_change(
        GROUP,
        &record_at(2),
        "device-a",
        // The op names v2; the change carries some other version.
        &ChangeContent { ops: &[put(&v2)], versions: &[unrelated] },
        Some(&meta()),
        Some(&observed_identity(12)),
        None,
        &emitted_at(2),
        MODE_MASK,
        Some(1000),
    )
    .expect("the emission itself still commits");

    assert_eq!(materialization_state(&repo), MaterializationState::Placeholder);
    assert_eq!(usable_proof_version(&repo), None);
}

#[test]
fn every_capture_route_records_its_change_as_read_off_this_disk() {
    let mut repo = FileIndexRepository::new();
    let is_capture =
        |repo: &FileIndexRepository, hash: &ChangeHash| repo.is_local_capture(GROUP, PATH, hash);
    let authored =
        |repo: &FileIndexRepository| repo.get_authoring_change_hash(GROUP, PATH).unwrap().unwrap();

    emit_version(&mut repo, 1, None);
    let single = authored(&repo);
    assert!(is_capture(&repo, &single), "a single-path capture, even an unprovable one");

    repo.commit_local_mutations_batch(
        GROUP,
        &[upsert(2)],
        &[],
        "device-a",
        &[emitted_at(2)],
        MODE_MASK,
        Some(1000),
    )
    .unwrap();
    let batched = authored(&repo);
    assert!(is_capture(&repo, &batched), "the batched live-edit capture");
    assert!(!is_capture(&repo, &single), "a newer capture of the path replaces the record");

    let v3 = file_version(3);
    repo.upsert_files_batch_emitting_change(
        GROUP,
        &[record_at(3)],
        "device-a",
        &ChangeContent { ops: &[put(&v3)], versions: &[v3] },
        &[],
        &[],
        &emitted_at(3),
        MODE_MASK,
        Some(1000),
    )
    .unwrap();
    assert!(is_capture(&repo, &authored(&repo)), "the scan's batched capture");
    let scanned = authored(&repo);

    let mut tombstone = record_at(4);
    tombstone.deleted = true;
    let batched_deletes = repo
        .commit_local_mutations_batch(
            GROUP,
            &[PreparedLocalMutation::Delete {
                record: tombstone,
                op: Op::Delete { path: PATH.to_string() },
            }],
            &[Some(LocalCaptureActualStateEvidence::Absent)],
            "device-a",
            &[emitted_at(4)],
            MODE_MASK,
            Some(1000),
        )
        .unwrap();
    assert_eq!(batched_deletes.len(), 1);
    assert_eq!(authored(&repo), batched_deletes[0], "sanity: the row names the batched deletion");
    assert!(is_capture(&repo, &batched_deletes[0]), "the batched live-edit capture of a deletion");
    assert!(!is_capture(&repo, &scanned), "a newer capture of the path replaces the record");

    let deleted = repo
        .mark_deleted_emitting_change(
            GROUP,
            PATH,
            "device-a",
            4,
            false,
            &emitted(ChangeHash([60; 32])),
            Some(1000),
        )
        .unwrap();
    assert!(is_capture(&repo, &deleted), "a captured deletion");

    // A change admitted without a capture (a restore, a repair) is not one.
    let restored = ChangeHash([61; 32]);
    repo.admit_change(GROUP, &restored, None);
    assert!(!is_capture(&repo, &restored), "a change authored to change the disk is not a capture");
}

#[test]
fn a_batch_with_an_evidence_list_of_another_length_is_refused_whole() {
    let mut repo = FileIndexRepository::new();
    let result = repo.commit_local_mutations_batch(
        GROUP,
        &[upsert(1)],
        &[None, None],
        "device-a",
        &[emitted_at(1)],
        MODE_MASK,
        Some(1000),
    );
    assert!(matches!(result, Err(SyncSqliteError::CorruptState(_))), "got {result:?}");
    assert!(repo.files.is_empty());
    assert!(!repo.changes.has_history(GROUP));
}

#[test]
fn a_batch_without_mutations_commits_nothing() {
    let mut repo = FileIndexRepository::new();
    let hashes = repo
        .commit_local_mutations_batch(GROUP, &[], &[], "device-a", &[], MODE_MASK, Some(1000))
        .unwrap();
    assert!(hashes.is_empty());
    assert!(repo.files.is_empty());
}

#[test]
fn a_captured_row_takes_the_metadata_it_was_read_with() {
    let mut repo = FileIndexRepository::new();
    let version =
        CarriedVersion { version_hash: VersionHash([1; 32]), record_kind: RecordKind::Symlink };
    let columns = LocalFileMetaColumns {
        record_kind: RecordKind::Symlink,
        symlink_target: Some(b"../elsewhere".to_vec()),
        symlink_out_of_root: true,
        unix_mode: Some(0o100755),
        xattrs: vec![("user.tag".to_string(), vec![1, 2])],
    };
    repo.upsert_file_emitting_change(
        GROUP,
        &record_at(1),
        "device-a",
        &ChangeContent { ops: &[put(&version)], versions: &[version] },
        Some(&columns),
        Some(&observed_identity(11)),
        None,
        &emitted_at(1),
        MODE_MASK,
        Some(1000),
    )
    .unwrap();
    assert_eq!(repo.get_record_kind(GROUP, PATH), Some(RecordKind::Symlink));
    assert_eq!(repo.get_symlink_target(GROUP, PATH), Some(b"../elsewhere".to_vec()));
    assert!(repo.get_symlink_out_of_root(GROUP, PATH));
    assert_eq!(repo.get_unix_mode(GROUP, PATH, MODE_MASK), Some(0o755));
    assert_eq!(
        repo.get_xattrs(GROUP, PATH).unwrap(),
        vec![("user.tag".to_string(), vec![1, 2])]
    );
    assert_eq!(diagnostic_proof_kind(&repo), Some(MaterializedObjectKind::Symlink));
}

#[test]
fn a_write_through_deletion_needs_a_copy_of_its_source() {
    let copy = "notes (conflicted copy, 2026-01-01-000000, device-b).txt";
    let mut repo = FileIndexRepository::new();
    let missing = repo.commit_write_through_deletion(
        GROUP,
        copy,
        "notes.txt",
        true,
        "device-a",
        7,
        &emitted_at(7),
        Some(1000),
    );
    assert_eq!(
        missing,
        Err(SyncSqliteError::NotFound(format!("no row at {copy:?} to delete through")))
    );

    let record = FileRecord {
        path: copy.to_string(),
        size: 3,
        mtime_unix_nanos: 1,
        blocks: Vec::new(),
        deleted: false,
    };
    repo.upsert_file(GROUP, &record, Some(1000)).unwrap();
    let no_copy = repo.commit_write_through_deletion(
        GROUP,
        copy,
        "other.txt",
        false,
        "device-a",
        7,
        &emitted_at(7),
        Some(1000),
    );
    assert_eq!(
        no_copy,
        Err(SyncSqliteError::InvalidInput(format!(
            "{copy:?} is not a copy name of \"other.txt\"; nothing to delete through"
        )))
    );
    assert!(!repo.get_file(GROUP, copy).unwrap().unwrap().deleted);

    let hash = repo
        .commit_write_through_deletion(
            GROUP,
            copy,
            "notes.txt",
            true,
            "device-a",
            7,
            &emitted_at(7),
            Some(1000),
        )
        .unwrap();
    assert_eq!(hash, change_at(7));
    let gone = repo.get_file(GROUP, copy).unwrap().unwrap();
    assert!(gone.deleted);
    assert_eq!(gone.mtime_unix_nanos, 7);
}

#[test]
fn only_a_single_put_or_deletion_has_a_path_to_write_through_from() {
    let put_op = Op::Put { path: "a".to_string(), version: VersionHash([0; 32]) };
    let delete_op = Op::Delete { path: "b".to_string() };
    let move_op = Op::Move { from: "c".to_string(), to: "d".to_string() };
    assert_eq!(sole_op_path(&[]), None);
    assert_eq!(write_through_source_of(&[], Some("s")), None);
    assert_eq!(write_through_source_of(&[put_op], Some("s")), Some("s"));
    assert_eq!(write_through_source_of(&[delete_op], None), None);
    assert_eq!(sole_op_path(&[move_op]), None);
}

#[test]
fn a_batch_under_one_change_needs_one_effect_and_one_meta_per_record() {
    let mut repo = FileIndexRepository::new();
    let version = file_version(1);
    let ops = repo.upsert_files_batch_emitting_change(
        GROUP,
        &[record_at(1)],
        "device-a",
        &ChangeContent { ops: &[], versions: &[version] },
        &[],
        &[],
        &emitted_at(1),
        MODE_MASK,
        Some(1000),
    );
    assert_eq!(
        ops,
        Err(SyncSqliteError::CorruptState(
            "upsert_files_batch length mismatch: 0 ops for 1 records (one op per record is \
             required)"
                .to_string()
        ))
    );
    let metas = repo.upsert_files_batch_emitting_change(
        GROUP,
        &[record_at(1)],
        "device-a",
        &ChangeContent { ops: &[put(&version)], versions: &[version] },
        &[None, None],
        &[],
        &emitted_at(1),
        MODE_MASK,
        Some(1000),
    );
    assert_eq!(
        metas,
        Err(SyncSqliteError::CorruptState(
            "upsert_files_batch length mismatch: 2 metas for 1 records (metas must be empty or \
             aligned 1:1 with records)"
                .to_string()
        ))
    );
    assert!(repo.files.is_empty());
    let empty = repo.upsert_files_batch_emitting_change(
        GROUP,
        &[],
        "device-a",
        &ChangeContent { ops: &[], versions: &[] },
        &[],
        &[],
        &emitted_at(1),
        MODE_MASK,
        Some(1000),
    );
    assert_eq!(empty, Ok(None));
    assert!(!repo.changes.has_history(GROUP), "an empty batch emits nothing");
}

#[test]
fn a_batch_under_one_change_proves_what_its_evidence_and_effects_agree_on() {
    let mut repo = FileIndexRepository::new();
    let version = file_version(1);
    let evidence = [(
        PATH.to_string(),
        LocalCaptureActualStateEvidence::Present { filesystem_identity: observed_identity(11) },
    )];
    repo.upsert_files_batch_emitting_change(
        GROUP,
        &[record_at(1)],
        "device-a",
        &ChangeContent { ops: &[put(&version)], versions: &[version] },
        &[Some(meta())],
        &evidence,
        &emitted_at(1),
        MODE_MASK,
        Some(1000),
    )
    .unwrap();
    assert_eq!(usable_proof_version(&repo), Some(Some(version.version_hash)));
    assert_eq!(materialization_state(&repo), MaterializationState::Hydrated);

    // Evidence of presence beside a deletion proves nothing.
    let mut gone = record_at(2);
    gone.deleted = true;
    repo.upsert_files_batch_emitting_change(
        GROUP,
        &[gone],
        "device-a",
        &ChangeContent { ops: &[Op::Delete { path: PATH.to_string() }], versions: &[] },
        &[],
        &evidence,
        &emitted_at(2),
        MODE_MASK,
        Some(1000),
    )
    .unwrap();
    assert_eq!(usable_proof_version(&repo), None);
}

fn usable_basis(repo: &FileIndexRepository) -> Option<Vec<ChangeHash>> {
    repo.lookup_materialized_generation(GROUP, PATH).map(|proof| proof.causal_basis.clone())
}

#[test]
fn a_proof_names_the_heads_it_was_made_on() {
    let mut repo = FileIndexRepository::new();
    let version = file_version(1);
    let change = EmittedChange { hash: change_at(1), heads: vec![change_at(8), change_at(1)] };
    repo.upsert_file_emitting_change(
        GROUP,
        &record_at(1),
        "device-a",
        &ChangeContent { ops: &[put(&version)], versions: &[version] },
        Some(&meta()),
        Some(&observed_identity(11)),
        None,
        &change,
        MODE_MASK,
        Some(1000),
    )
    .unwrap();
    assert_eq!(usable_basis(&repo), Some(vec![change_at(8), change_at(1)]));

    repo.commit_local_mutations_batch(
        GROUP,
        &[upsert(2), upsert(3)],
        &[
            Some(LocalCaptureActualStateEvidence::Present {
                filesystem_identity: observed_identity(12),
            }),
            Some(LocalCaptureActualStateEvidence::Present {
                filesystem_identity: observed_identity(13),
            }),
        ],
        "device-a",
        &[emitted_at(2), emitted_at(3)],
        MODE_MASK,
        Some(1000),
    )
    .unwrap();
    assert_eq!(usable_basis(&repo), Some(vec![change_at(3)]), "each mutation has its own heads");

    let gone = EmittedChange { hash: change_at(4), heads: vec![change_at(7)] };
    repo.mark_deleted_emitting_change(GROUP, PATH, "device-a", 5, true, &gone, Some(1000)).unwrap();
    assert_eq!(usable_basis(&repo), Some(vec![change_at(7)]), "absence has a basis too");

    repo.mark_deleted_at(GROUP, PATH, "device-a", 6, Some(1000)).unwrap();
    assert_eq!(usable_basis(&repo), None, "a deletion nobody observed proves nothing");
    let retired = repo.lookup_materialized_generation_diagnostic(GROUP, PATH).unwrap();
    assert_eq!(retired.causal_basis, vec![change_at(7)]);
}

#[test]
fn a_scan_proves_on_the_heads_it_was_given() {
    let mut repo = FileIndexRepository::new();
    repo.upsert_files_batch(
        GROUP,
        &[record_at(1)],
        "device-a",
        &[Some(meta())],
        &[Some(ImportedActualState {
            filesystem_identity: observed_identity(11),
            record_kind: RecordKind::File,
            version_hash: file_version(1).version_hash,
        })],
        &[change_at(5), change_at(6)],
        MODE_MASK,
        Some(1000),
    )
    .unwrap();
    assert_eq!(usable_basis(&repo), Some(vec![change_at(5), change_at(6)]));
    // A refused scan leaves the proof and its basis as they were.
    repo.admit_change(GROUP, &change_at(7), None);
    let refused = repo.upsert_files_batch(
        GROUP,
        &[record_at(2)],
        "device-a",
        &[],
        &[],
        &[change_at(7)],
        MODE_MASK,
        Some(1000),
    );
    assert!(refused.is_err(), "a row without an author is refused once there is history");
    assert_eq!(usable_basis(&repo), Some(vec![change_at(5), change_at(6)]));
    assert_eq!(repo.root_set_generation(GROUP), 3);
}
