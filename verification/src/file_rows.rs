//! The rows of the file index and their models.

use vstd::prelude::*;

use crate::identity::FileIdentity;
use crate::index_vocabulary::{MaterializationState, RecordKind, VersionState};
use crate::rows::views;
use crate::text::copy_opt_str;
use crate::transaction_rows::{copy_bytes, copy_opt_bytes, opt_bytes, opt_text, ChangeHash};

verus! {

/// The hash of a file version.
#[derive(Debug, Clone, Copy, PartialEq, Eq)]
pub struct VersionHash(pub [u8; 32]);

/// One block of a file's content.
#[derive(Debug, PartialEq, Eq)]
pub struct BlockInfo {
    pub hash: Vec<u8>,
    pub offset: u64,
    pub size: u64,
}

/// The model of a [`BlockInfo`].
pub struct Block {
    pub hash: Seq<u8>,
    pub offset: u64,
    pub size: u64,
}

impl View for BlockInfo {
    type V = Block;

    open spec fn view(&self) -> Block {
        Block { hash: self.hash@, offset: self.offset, size: self.size }
    }
}

/// Copies a block list.
pub fn copy_blocks(blocks: &Vec<BlockInfo>) -> (copy: Vec<BlockInfo>)
    ensures
        views(copy@) == views(blocks@),
{
    let mut copy: Vec<BlockInfo> = Vec::new();
    let mut i: usize = 0;
    while i < blocks.len()
        invariant
            i <= blocks@.len(),
            views(copy@) == views(blocks@).take(i as int),
        decreases blocks@.len() - i,
    {
        let ghost sofar = views(copy@);
        let block = BlockInfo {
            hash: copy_bytes(&blocks[i].hash),
            offset: blocks[i].offset,
            size: blocks[i].size,
        };
        copy.push(block);
        assert(views(copy@) =~= sofar.push(blocks@[i as int]@));
        assert(views(blocks@).take(i + 1) =~= views(blocks@).take(i as int).push(
            blocks@[i as int]@,
        ));
        i += 1;
    }
    assert(views(blocks@).take(blocks@.len() as int) =~= views(blocks@));
    copy
}

/// A file as callers see it.
#[derive(Debug, PartialEq, Eq)]
pub struct FileRecord {
    pub path: String,
    pub size: u64,
    pub mtime_unix_nanos: i64,
    pub blocks: Vec<BlockInfo>,
    pub deleted: bool,
}

/// The model of a [`FileRecord`].
pub struct FileEntry {
    pub path: Seq<char>,
    pub size: u64,
    pub mtime: int,
    pub blocks: Seq<Block>,
    pub deleted: bool,
}

impl View for FileRecord {
    type V = FileEntry;

    open spec fn view(&self) -> FileEntry {
        FileEntry {
            path: self.path@,
            size: self.size,
            mtime: self.mtime_unix_nanos as int,
            blocks: views(self.blocks@),
            deleted: self.deleted,
        }
    }
}

impl FileRecord {
    /// A copy of the record.
    pub fn copy(&self) -> (copy: Self)
        ensures
            copy@ == self@,
    {
        FileRecord {
            path: self.path.clone(),
            size: self.size,
            mtime_unix_nanos: self.mtime_unix_nanos,
            blocks: copy_blocks(&self.blocks),
            deleted: self.deleted,
        }
    }
}

/// A stored block list: its blocks, or why the column does not read as one.
pub open spec fn stored_blocks(blocks: Result<Vec<BlockInfo>, String>) -> Result<
    Seq<Block>,
    Seq<char>,
> {
    match blocks {
        Ok(list) => Ok(views(list@)),
        Err(error) => Err(error@),
    }
}

/// A row of the file index: one version of one path.
#[derive(Debug, PartialEq, Eq)]
pub struct FileRow {
    pub group_id: String,
    pub path: String,
    pub size: u64,
    pub mtime_unix_nanos: i64,
    pub blocks: Result<Vec<BlockInfo>, String>,
    pub deleted: bool,
    pub version_seq: i64,
    pub state: VersionState,
    pub origin_device_id: Option<String>,
    pub authoring_change_hash: Option<Vec<u8>>,
    pub materialization_state: MaterializationState,
    pub pinned: bool,
    pub last_accessed_unix: Option<i64>,
    pub record_kind: RecordKind,
    pub symlink_target: Option<Vec<u8>>,
    pub unix_mode: i64,
    pub held_reason: Option<String>,
    pub held_since_unix_nanos: Option<i64>,
    pub symlink_out_of_root: bool,
    pub xattrs_json: String,
    pub admitted_at_unix_nanos: Option<i64>,
    pub trashed_by_operation_author: Option<String>,
    pub trashed_by_operation_id: Option<Vec<u8>>,
}

/// The model of a [`FileRow`].
pub struct Version {
    pub group: Seq<char>,
    pub path: Seq<char>,
    pub size: u64,
    pub mtime: int,
    pub blocks: Result<Seq<Block>, Seq<char>>,
    pub deleted: bool,
    pub seq: int,
    pub state: VersionState,
    pub origin: Option<Seq<char>>,
    pub authoring: Option<Seq<u8>>,
    pub materialization: MaterializationState,
    pub pinned: bool,
    pub last_accessed: Option<i64>,
    pub kind: RecordKind,
    pub symlink_target: Option<Seq<u8>>,
    pub unix_mode: int,
    pub held_reason: Option<Seq<char>>,
    pub held_since: Option<i64>,
    pub symlink_out_of_root: bool,
    pub xattrs_json: Seq<char>,
    pub admitted_at: Option<i64>,
    pub trashed_by_author: Option<Seq<char>>,
    pub trashed_by_id: Option<Seq<u8>>,
}

impl View for FileRow {
    type V = Version;

    open spec fn view(&self) -> Version {
        Version {
            group: self.group_id@,
            path: self.path@,
            size: self.size,
            mtime: self.mtime_unix_nanos as int,
            blocks: stored_blocks(self.blocks),
            deleted: self.deleted,
            seq: self.version_seq as int,
            state: self.state,
            origin: opt_text(self.origin_device_id),
            authoring: opt_bytes(self.authoring_change_hash),
            materialization: self.materialization_state,
            pinned: self.pinned,
            last_accessed: self.last_accessed_unix,
            kind: self.record_kind,
            symlink_target: opt_bytes(self.symlink_target),
            unix_mode: self.unix_mode as int,
            held_reason: opt_text(self.held_reason),
            held_since: self.held_since_unix_nanos,
            symlink_out_of_root: self.symlink_out_of_root,
            xattrs_json: self.xattrs_json@,
            admitted_at: self.admitted_at_unix_nanos,
            trashed_by_author: opt_text(self.trashed_by_operation_author),
            trashed_by_id: opt_bytes(self.trashed_by_operation_id),
        }
    }
}

/// Copies a stored block list.
pub fn copy_stored_blocks(blocks: &Result<Vec<BlockInfo>, String>) -> (copy: Result<
    Vec<BlockInfo>,
    String,
>)
    ensures
        stored_blocks(copy) == stored_blocks(*blocks),
{
    match blocks {
        Ok(list) => Ok(copy_blocks(list)),
        Err(error) => Err(error.clone()),
    }
}

impl FileRow {
    /// A copy of the row.
    pub fn copy(&self) -> (copy: Self)
        ensures
            copy@ == self@,
    {
        FileRow {
            group_id: self.group_id.clone(),
            path: self.path.clone(),
            size: self.size,
            mtime_unix_nanos: self.mtime_unix_nanos,
            blocks: copy_stored_blocks(&self.blocks),
            deleted: self.deleted,
            version_seq: self.version_seq,
            state: self.state,
            origin_device_id: copy_opt_str(&self.origin_device_id),
            authoring_change_hash: copy_opt_bytes(&self.authoring_change_hash),
            materialization_state: self.materialization_state,
            pinned: self.pinned,
            last_accessed_unix: self.last_accessed_unix,
            record_kind: self.record_kind,
            symlink_target: copy_opt_bytes(&self.symlink_target),
            unix_mode: self.unix_mode,
            held_reason: copy_opt_str(&self.held_reason),
            held_since_unix_nanos: self.held_since_unix_nanos,
            symlink_out_of_root: self.symlink_out_of_root,
            xattrs_json: self.xattrs_json.clone(),
            admitted_at_unix_nanos: self.admitted_at_unix_nanos,
            trashed_by_operation_author: copy_opt_str(&self.trashed_by_operation_author),
            trashed_by_operation_id: copy_opt_bytes(&self.trashed_by_operation_id),
        }
    }
}

/// Copies a table of versions.
pub fn copy_files(rows: &Vec<FileRow>) -> (copy: Vec<FileRow>)
    ensures
        views(copy@) == views(rows@),
{
    let mut copy: Vec<FileRow> = Vec::new();
    let mut i: usize = 0;
    while i < rows.len()
        invariant
            i <= rows@.len(),
            views(copy@) == views(rows@).take(i as int),
        decreases rows@.len() - i,
    {
        let ghost sofar = views(copy@);
        let row = rows[i].copy();
        copy.push(row);
        assert(views(copy@) =~= sofar.push(rows@[i as int]@));
        assert(views(rows@).take(i + 1) =~= views(rows@).take(i as int).push(rows@[i as int]@));
        i += 1;
    }
    assert(views(rows@).take(rows@.len() as int) =~= views(rows@));
    copy
}

/// The per-file columns a capture writes beside the record itself.
#[derive(Debug, PartialEq, Eq)]
pub struct LocalFileMetaColumns {
    pub record_kind: RecordKind,
    pub symlink_target: Option<Vec<u8>>,
    pub symlink_out_of_root: bool,
    pub unix_mode: Option<u32>,
    pub xattrs: Vec<(String, Vec<u8>)>,
}

/// Which recursive operation something belongs to.
#[derive(Debug, PartialEq, Eq)]
pub struct RecursiveOperationRef {
    pub author: String,
    pub operation_id: [u8; 16],
}

/// What kind of object this device last proved to stand at a path.
#[derive(Debug, Clone, Copy, PartialEq, Eq, Structural)]
pub enum MaterializedObjectKind {
    RegularFile,
    Directory,
    Symlink,
    Absent,
}

/// What this device last proved to stand at a path, and the heads the group
/// had when it did. A proof is usable until the path moves on without a new
/// one.
#[derive(Debug, PartialEq, Eq)]
pub struct ProofRow {
    pub group_id: String,
    pub path: String,
    pub object_kind: MaterializedObjectKind,
    pub version: Option<VersionHash>,
    pub filesystem_identity: Option<FileIdentity>,
    pub causal_basis: Vec<ChangeHash>,
    pub usable: bool,
}

/// The model of a [`ProofRow`].
pub struct Proof {
    pub group: Seq<char>,
    pub path: Seq<char>,
    pub object_kind: MaterializedObjectKind,
    pub version: Option<VersionHash>,
    pub identity: Option<FileIdentity>,
    pub basis: Seq<ChangeHash>,
    pub usable: bool,
}

impl View for ProofRow {
    type V = Proof;

    open spec fn view(&self) -> Proof {
        Proof {
            group: self.group_id@,
            path: self.path@,
            object_kind: self.object_kind,
            version: self.version,
            identity: self.filesystem_identity,
            basis: self.causal_basis@,
            usable: self.usable,
        }
    }
}

/// A copy of the hashes.
pub(crate) fn copy_hashes(hashes: &[ChangeHash]) -> (copy: Vec<ChangeHash>)
    ensures
        copy@ == hashes@,
{
    let mut copy: Vec<ChangeHash> = Vec::new();
    let mut i: usize = 0;
    while i < hashes.len()
        invariant
            i <= hashes@.len(),
            copy@ == hashes@.take(i as int),
        decreases hashes@.len() - i,
    {
        assert(hashes@.take(i + 1) =~= hashes@.take(i as int).push(hashes@[i as int]));
        copy.push(hashes[i]);
        i += 1;
    }
    assert(hashes@.take(hashes@.len() as int) =~= hashes@);
    copy
}

/// Copies a table of proofs.
pub fn copy_proofs(rows: &Vec<ProofRow>) -> (copy: Vec<ProofRow>)
    ensures
        views(copy@) == views(rows@),
{
    let mut copy: Vec<ProofRow> = Vec::new();
    let mut i: usize = 0;
    while i < rows.len()
        invariant
            i <= rows@.len(),
            views(copy@) == views(rows@).take(i as int),
        decreases rows@.len() - i,
    {
        let ghost sofar = views(copy@);
        let row = ProofRow {
            group_id: rows[i].group_id.clone(),
            path: rows[i].path.clone(),
            object_kind: rows[i].object_kind,
            version: rows[i].version,
            filesystem_identity: rows[i].filesystem_identity,
            causal_basis: copy_hashes(rows[i].causal_basis.as_slice()),
            usable: rows[i].usable,
        };
        copy.push(row);
        assert(views(copy@) =~= sofar.push(rows@[i as int]@));
        assert(views(rows@).take(i + 1) =~= views(rows@).take(i as int).push(rows@[i as int]@));
        i += 1;
    }
    assert(views(rows@).take(rows@.len() as int) =~= views(rows@));
    copy
}

/// Which change this device last read off its own disk for a path.
#[derive(Debug, PartialEq, Eq)]
pub struct CaptureRow {
    pub group_id: String,
    pub path: String,
    pub change_hash: ChangeHash,
}

/// The model of a [`CaptureRow`].
pub struct Capture {
    pub group: Seq<char>,
    pub path: Seq<char>,
    pub change: ChangeHash,
}

impl View for CaptureRow {
    type V = Capture;

    open spec fn view(&self) -> Capture {
        Capture { group: self.group_id@, path: self.path@, change: self.change_hash }
    }
}

/// A directory whose whole subtree is pinned.
#[derive(Debug, PartialEq, Eq)]
pub struct PinnedDirectory {
    pub group_id: String,
    pub prefix: String,
}

/// The model of a [`PinnedDirectory`].
pub struct Pin {
    pub group: Seq<char>,
    pub prefix: Seq<char>,
}

impl View for PinnedDirectory {
    type V = Pin;

    open spec fn view(&self) -> Pin {
        Pin { group: self.group_id@, prefix: self.prefix@ }
    }
}

/// A change admitted to a group's history, pruned or not.
#[derive(Debug, PartialEq, Eq)]
pub struct AdmittedChange {
    pub group_id: String,
    pub change_hash: ChangeHash,
}

/// The model of an [`AdmittedChange`].
pub struct Admitted {
    pub group: Seq<char>,
    pub hash: Seq<u8>,
}

impl View for AdmittedChange {
    type V = Admitted;

    open spec fn view(&self) -> Admitted {
        Admitted { group: self.group_id@, hash: self.change_hash.0@ }
    }
}

/// The recursive operation a change is a part of.
#[derive(Debug, PartialEq, Eq)]
pub struct ChangeOperation {
    pub change_hash: ChangeHash,
    pub operation: RecursiveOperationRef,
}

/// The model of a [`ChangeOperation`].
pub struct OperationPart {
    pub hash: Seq<u8>,
    pub author: Seq<char>,
    pub id: Seq<u8>,
}

impl View for ChangeOperation {
    type V = OperationPart;

    open spec fn view(&self) -> OperationPart {
        OperationPart {
            hash: self.change_hash.0@,
            author: self.operation.author@,
            id: self.operation.operation_id@,
        }
    }
}

/// A change whose authorization is on record, whatever group it belongs to.
#[derive(Debug, PartialEq, Eq)]
pub struct AuthorizedChange {
    pub change_hash: ChangeHash,
}

impl View for AuthorizedChange {
    type V = Seq<u8>;

    open spec fn view(&self) -> Seq<u8> {
        self.change_hash.0@
    }
}

/// What the file index asks of the change history: which changes are admitted,
/// which are authorized, and which belong to a recursive operation.
pub struct ChangeLog {
    pub admitted: Vec<AdmittedChange>,
    pub authorized: Vec<AuthorizedChange>,
    pub operations: Vec<ChangeOperation>,
}

/// The model of a [`ChangeLog`].
pub struct Changes {
    pub admitted: Seq<Admitted>,
    pub authorized: Seq<Seq<u8>>,
    pub operations: Seq<OperationPart>,
}

impl View for ChangeLog {
    type V = Changes;

    open spec fn view(&self) -> Changes {
        Changes {
            admitted: views(self.admitted@),
            authorized: views(self.authorized@),
            operations: views(self.operations@),
        }
    }
}

/// How often the durable roots of a group changed, as the table's own
/// bookkeeping counts it.
#[derive(Debug, PartialEq, Eq)]
pub struct RootSetGeneration {
    pub group_id: String,
    pub generation: i64,
}

/// The model of a [`RootSetGeneration`].
pub struct Generation {
    pub group: Seq<char>,
    pub generation: int,
}

impl View for RootSetGeneration {
    type V = Generation;

    open spec fn view(&self) -> Generation {
        Generation { group: self.group_id@, generation: self.generation as int }
    }
}

/// The file index.
pub struct FileIndexRepository {
    pub files: Vec<FileRow>,
    pub pinned_directories: Vec<PinnedDirectory>,
    pub proofs: Vec<ProofRow>,
    pub captures: Vec<CaptureRow>,
    pub changes: ChangeLog,
    pub root_set_generations: Vec<RootSetGeneration>,
}

/// The model of a [`FileIndexRepository`]: each table's rows in insertion
/// order.
pub struct FileIndex {
    pub files: Seq<Version>,
    pub pins: Seq<Pin>,
    pub proofs: Seq<Proof>,
    pub captures: Seq<Capture>,
    pub changes: Changes,
    pub generations: Seq<Generation>,
}

impl View for FileIndexRepository {
    type V = FileIndex;

    open spec fn view(&self) -> FileIndex {
        FileIndex {
            files: views(self.files@),
            pins: views(self.pinned_directories@),
            proofs: views(self.proofs@),
            captures: views(self.captures@),
            changes: self.changes@,
            generations: views(self.root_set_generations@),
        }
    }
}

/// The row is a version of that path.
pub open spec fn is_at(group: Seq<char>, path: Seq<char>) -> spec_fn(Version) -> bool {
    |row: Version| row.group == group && row.path == path
}

/// The row is the current version of that path.
pub open spec fn is_current_at(group: Seq<char>, path: Seq<char>) -> spec_fn(Version) -> bool {
    |row: Version| row.group == group && row.path == path && row.state is Current
}

/// Both rows are versions of the same path.
pub open spec fn same_path(a: Version, b: Version) -> bool {
    a.group == b.group && a.path == b.path
}

/// What the table's keys guarantee, and how a path's history is numbered: no
/// two versions of a path share a number, no two are current, the current
/// version is the latest unless it is the unnumbered scaffold, and nothing but
/// the scaffold is unnumbered.
pub open spec fn is_history(rows: Seq<Version>) -> bool {
    &&& forall|i: int|
        #![trigger rows[i]]
        0 <= i < rows.len() ==> rows[i].seq >= 0 && (rows[i].seq == 0 ==> rows[i].state is Current)
    &&& forall|i: int, j: int|
        #![trigger rows[i], rows[j]]
        0 <= i < rows.len() && 0 <= j < rows.len() && i != j && same_path(rows[i], rows[j]) ==> {
            &&& rows[i].seq != rows[j].seq
            &&& rows[i].state is Current ==> !(rows[j].state is Current)
            &&& rows[i].state is Current && rows[i].seq > 0 ==> rows[j].seq < rows[i].seq
        }
}

/// Each path has at most one proof, one capture, and each directory is pinned
/// at most once.
pub open spec fn side_tables_are_keyed(index: FileIndex) -> bool {
    &&& forall|i: int, j: int|
        #![trigger index.proofs[i], index.proofs[j]]
        0 <= i < j < index.proofs.len() ==> !(index.proofs[i].group == index.proofs[j].group
            && index.proofs[i].path == index.proofs[j].path)
    &&& forall|i: int, j: int|
        #![trigger index.captures[i], index.captures[j]]
        0 <= i < j < index.captures.len() ==> !(index.captures[i].group == index.captures[j].group
            && index.captures[i].path == index.captures[j].path)
    &&& forall|i: int, j: int|
        #![trigger index.pins[i], index.pins[j]]
        0 <= i < j < index.pins.len() ==> index.pins[i] != index.pins[j]
}

impl FileIndex {
    /// What the tables' keys guarantee.
    pub open spec fn well_formed(self) -> bool {
        is_history(self.files) && side_tables_are_keyed(self)
    }
}

} // verus!
