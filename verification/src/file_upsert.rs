//! The version-retaining write path of the file index.

use vstd::prelude::*;

use crate::error::{Failure, SyncSqliteError};
use crate::file_rows::{
    copy_blocks, is_at, is_current_at, is_history, same_path, ChangeLog, Changes, FileEntry,
    FileIndex, FileIndexRepository, FileRecord, FileRow, OperationPart, RecursiveOperationRef,
    Version,
};
use crate::index_vocabulary::{MaterializationState, RecordKind, VersionState};
use crate::root_counter::touched;
use crate::rows::{
    any, at_most_one, first_where, lemma_first_where, lemma_first_where_at, lemma_first_where_none,
    lemma_set_where_at, set_where,
};
use crate::text::{bytes_eq, copy_opt_str, join3, str_eq};
use crate::transaction_rows::{copy_opt_bytes, ChangeHash};

verus! {

/// The highest version number a path ever had among the rows, 0 with none.
pub open spec fn latest_seq(rows: Seq<Version>, group: Seq<char>, path: Seq<char>) -> int
    decreases rows.len(),
{
    if rows.len() == 0 {
        0
    } else {
        let before = latest_seq(rows.drop_last(), group, path);
        let last = rows.last();
        if is_at(group, path)(last) && last.seq > before {
            last.seq
        } else {
            before
        }
    }
}

/// Every version number leaves room for `n` more.
pub open spec fn has_room(rows: Seq<Version>, n: int) -> bool {
    n <= i64::MAX && forall|i: int| #![trigger rows[i]] 0 <= i < rows.len() ==> rows[i].seq + n <= i64::MAX
}

impl Changes {
    /// The group has history.
    pub open spec fn has_history(self, group: Seq<char>) -> bool {
        exists|i: int|
            #![trigger self.admitted[i]]
            0 <= i < self.admitted.len() && self.admitted[i].group == group
    }

    /// The change is known to the group's history, or authorized on record.
    pub open spec fn knows(self, group: Seq<char>, hash: Seq<u8>) -> bool {
        ||| exists|i: int|
            #![trigger self.admitted[i]]
            0 <= i < self.admitted.len() && self.admitted[i].group == group
                && self.admitted[i].hash == hash
        ||| exists|i: int|
            #![trigger self.authorized[i]]
            0 <= i < self.authorized.len() && self.authorized[i] == hash
    }

    /// The stored identity names a change that is known.
    pub open spec fn verifies(self, group: Seq<char>, authoring: Option<Seq<u8>>) -> bool {
        match authoring {
            Some(hash) => hash.len() == 32 && self.knows(group, hash),
            None => false,
        }
    }

    /// The row is a current version without a verified authoring identity.
    pub open spec fn unauthored(self, row: Version) -> bool {
        row.state is Current && row.seq > 0 && !self.verifies(row.group, row.authoring)
    }

    /// The recursive operation the change is a part of.
    pub open spec fn operation_of(self, hash: Seq<u8>) -> Option<OperationPart> {
        first_where(self.operations, |part: OperationPart| part.hash == hash)
    }
}

/// Whether two hashes are the same.
pub fn same_hash(a: &ChangeHash, b: &ChangeHash) -> (same: bool)
    ensures
        same == (a.0@ == b.0@),
{
    bytes_eq(vstd::array::array_as_slice(&a.0), vstd::array::array_as_slice(&b.0))
}

/// The bytes of a hash.
pub fn hash_bytes(hash: &ChangeHash) -> (bytes: Vec<u8>)
    ensures
        bytes@ == hash.0@,
{
    vstd::slice::slice_to_vec(vstd::array::array_as_slice(&hash.0))
}

impl ChangeLog {
    /// Whether the group has any admitted change.
    pub fn has_history(&self, group_id: &str) -> (has: bool)
        ensures
            has == self@.has_history(group_id@),
    {
        let ghost rows = self@.admitted;
        let mut i: usize = 0;
        while i < self.admitted.len()
            invariant
                i <= self.admitted@.len(),
                rows == self@.admitted,
                forall|j: int| 0 <= j < i ==> (#[trigger] rows[j]).group != group_id@,
            decreases self.admitted@.len() - i,
        {
            assert(rows[i as int] == self.admitted@[i as int]@);
            if str_eq(self.admitted[i].group_id.as_str(), group_id) {
                return true;
            }
            i += 1;
        }
        false
    }

    /// Whether the stored identity names a change that is known.
    pub fn verifies(&self, group_id: &str, authoring: &Option<Vec<u8>>) -> (verified: bool)
        ensures
            verified == self@.verifies(
                group_id@,
                match *authoring {
                    Some(bytes) => Some(bytes@),
                    None => None,
                },
            ),
    {
        let hash: &Vec<u8> = match authoring {
            Some(bytes) => bytes,
            None => {
                return false;
            },
        };
        if hash.len() != 32 {
            return false;
        }
        let ghost rows = self@.admitted;
        let mut i: usize = 0;
        while i < self.admitted.len()
            invariant
                i <= self.admitted@.len(),
                rows == self@.admitted,
                hash@.len() == 32,
                *authoring == Some(*hash),
                forall|j: int|
                    0 <= j < i ==> !((#[trigger] rows[j]).group == group_id@ && rows[j].hash
                        == hash@),
            decreases self.admitted@.len() - i,
        {
            assert(rows[i as int] == self.admitted@[i as int]@);
            if str_eq(self.admitted[i].group_id.as_str(), group_id) && bytes_eq(
                vstd::array::array_as_slice(&self.admitted[i].change_hash.0),
                hash.as_slice(),
            ) {
                return true;
            }
            i += 1;
        }
        let ghost authorized = self@.authorized;
        let mut k: usize = 0;
        while k < self.authorized.len()
            invariant
                k <= self.authorized@.len(),
                authorized == self@.authorized,
                hash@.len() == 32,
                *authoring == Some(*hash),
                forall|j: int| 0 <= j < k ==> #[trigger] authorized[j] != hash@,
            decreases self.authorized@.len() - k,
        {
            assert(authorized[k as int] == self.authorized@[k as int]@);
            if bytes_eq(
                vstd::array::array_as_slice(&self.authorized[k].change_hash.0),
                hash.as_slice(),
            ) {
                return true;
            }
            k += 1;
        }
        false
    }

    /// The recursive operation the change is a part of.
    pub fn operation_of(&self, hash: &ChangeHash) -> (found: Option<&RecursiveOperationRef>)
        ensures
            match found {
                Some(operation) => self@.operation_of(hash.0@) == Some(
                    OperationPart {
                        hash: hash.0@,
                        author: operation.author@,
                        id: operation.operation_id@,
                    },
                ),
                None => self@.operation_of(hash.0@) is None,
            },
    {
        let ghost rows = self@.operations;
        let ghost pred = |part: OperationPart| part.hash == hash.0@;
        let mut i: usize = 0;
        while i < self.operations.len()
            invariant
                i <= self.operations@.len(),
                rows == self@.operations,
                pred == (|part: OperationPart| part.hash == hash.0@),
                forall|j: int| 0 <= j < i ==> !pred(#[trigger] rows[j]),
            decreases self.operations@.len() - i,
        {
            assert(rows[i as int] == self.operations@[i as int]@);
            if same_hash(&self.operations[i].change_hash, hash) {
                proof {
                    lemma_first_where_at(rows, pred, i as int);
                }
                return Some(&self.operations[i].operation);
            }
            i += 1;
        }
        proof {
            lemma_first_where_none(rows, pred);
        }
        None
    }
}

/// A version about to be written.
pub struct NewVersion {
    pub group: Seq<char>,
    pub entry: FileEntry,
    pub origin: Option<Seq<char>>,
    pub author: Option<Seq<u8>>,
    pub admitted_at: Option<i64>,
    pub operation: Option<OperationPart>,
}

/// The version an upsert of the record writes.
pub open spec fn new_version(
    changes: Changes,
    group: Seq<char>,
    entry: FileEntry,
    origin: Seq<char>,
    author: Option<ChangeHash>,
    now: Option<i64>,
) -> NewVersion {
    NewVersion {
        group,
        entry,
        origin: if origin.len() == 0 {
            None
        } else {
            Some(origin)
        },
        author: match author {
            Some(hash) => Some(hash.0@),
            None => None,
        },
        admitted_at: now,
        operation: match author {
            Some(hash) => changes.operation_of(hash.0@),
            None => None,
        },
    }
}

/// The first version this device ever holds of a path, every column the
/// record does not carry at its default.
pub open spec fn fresh(new: NewVersion, seq: int) -> Version {
    Version {
        group: new.group,
        path: new.entry.path,
        size: new.entry.size,
        mtime: new.entry.mtime,
        blocks: Ok(new.entry.blocks),
        deleted: new.entry.deleted,
        seq,
        state: VersionState::Current,
        origin: new.origin,
        authoring: new.author,
        materialization: MaterializationState::Placeholder,
        pinned: false,
        last_accessed: None,
        kind: RecordKind::File,
        symlink_target: None,
        unix_mode: -1,
        held_reason: None,
        held_since: None,
        symlink_out_of_root: false,
        xattrs_json: "[]"@,
        admitted_at: new.admitted_at,
        trashed_by_author: None,
        trashed_by_id: None,
    }
}

/// The scaffold turned into a real version in place: the metadata written onto
/// it stays.
pub open spec fn promoted(scaffold: Version, new: NewVersion, seq: int) -> Version {
    Version {
        size: new.entry.size,
        mtime: new.entry.mtime,
        blocks: Ok(new.entry.blocks),
        deleted: new.entry.deleted,
        seq,
        origin: new.origin,
        authoring: new.author,
        admitted_at: new.admitted_at,
        ..scaffold
    }
}

/// The current version as the next one displaces it: into the trash where the
/// next one deletes what this one still held, else into the history. A
/// trashed version names the recursive operation that deleted it.
pub open spec fn displaced(row: Version, new: NewVersion) -> Version {
    displaced_by(row, new.entry.deleted, new.operation)
}

/// The version as a deletion (or another write) displaces it.
pub open spec fn displaced_by(
    row: Version,
    deletes: bool,
    operation: Option<OperationPart>,
) -> Version {
    if !row.deleted && deletes {
        match operation {
            Some(part) => Version {
                state: VersionState::Trashed,
                trashed_by_author: Some(part.author),
                trashed_by_id: Some(part.id),
                ..row
            },
            None => Version { state: VersionState::Trashed, ..row },
        }
    } else {
        Version { state: VersionState::Superseded, ..row }
    }
}

/// The version that follows `row`: it carries on what the record does not
/// state, and keeps the authoring identity unless a new one is given.
pub open spec fn following(row: Version, new: NewVersion) -> Version {
    Version {
        size: new.entry.size,
        mtime: new.entry.mtime,
        blocks: Ok(new.entry.blocks),
        deleted: new.entry.deleted,
        seq: row.seq + 1,
        state: VersionState::Current,
        origin: new.origin,
        authoring: match new.author {
            Some(hash) => Some(hash),
            None => row.authoring,
        },
        admitted_at: new.admitted_at,
        trashed_by_author: None,
        trashed_by_id: None,
        ..row
    }
}

/// The current version of a path.
pub open spec fn current(rows: Seq<Version>, group: Seq<char>, path: Seq<char>) -> Option<
    Version,
> {
    first_where(rows, is_current_at(group, path))
}

/// The version an upsert makes current.
pub open spec fn made_current(rows: Seq<Version>, new: NewVersion) -> Version {
    let seq = latest_seq(rows, new.group, new.entry.path) + 1;
    match current(rows, new.group, new.entry.path) {
        None => fresh(new, seq),
        Some(row) => if row.seq == 0 {
            promoted(row, new, seq)
        } else {
            following(row, new)
        },
    }
}

/// The table after the version is written.
pub open spec fn written(rows: Seq<Version>, new: NewVersion) -> Seq<Version> {
    let made = made_current(rows, new);
    match current(rows, new.group, new.entry.path) {
        None => rows.push(made),
        Some(row) => if row.seq == 0 {
            set_where(rows, is_current_at(new.group, new.entry.path), |row: Version| made)
        } else {
            set_where(
                rows,
                is_current_at(new.group, new.entry.path),
                |row: Version| displaced(row, new),
            ).push(made)
        },
    }
}

/// The refusal of a current version no known change authored, in a group that
/// has history.
pub open spec fn no_author(group: Seq<char>, path: Seq<char>) -> Failure {
    Failure::ConstraintViolation(
        "files row "@ + group + "/"@ + path + " requires verified authoring identity"@,
    )
}

/// What writing a version of a path does.
pub open spec fn upsert(rows: Seq<Version>, changes: Changes, new: NewVersion) -> Result<
    Seq<Version>,
    Failure,
> {
    if changes.has_history(new.group) && changes.unauthored(made_current(rows, new)) {
        Err(no_author(new.group, new.entry.path))
    } else {
        Ok(written(rows, new))
    }
}

/// The table of versions and the group's counter are all that changed, or
/// nothing did.
pub open spec fn files_changed(
    plan: Result<Seq<Version>, Failure>,
    group: Seq<char>,
    before: FileIndex,
    after: FileIndex,
    result: Result<(), SyncSqliteError>,
) -> bool {
    match plan {
        Ok(files) => result is Ok && after == touched(FileIndex { files, ..before }, group),
        Err(failure) => result is Err && result->Err_0@ == failure && after == before,
    }
}

/// [`latest_seq`] bounds every version number of the path.
pub proof fn lemma_latest_seq(rows: Seq<Version>, group: Seq<char>, path: Seq<char>)
    ensures
        latest_seq(rows, group, path) >= 0,
        forall|i: int|
            #![trigger rows[i]]
            0 <= i < rows.len() && is_at(group, path)(rows[i]) ==> rows[i].seq <= latest_seq(
                rows,
                group,
                path,
            ),
        latest_seq(rows, group, path) == 0 || exists|i: int|
            #![trigger rows[i]]
            0 <= i < rows.len() && is_at(group, path)(rows[i]) && rows[i].seq == latest_seq(
                rows,
                group,
                path,
            ),
    decreases rows.len(),
{
    if rows.len() > 0 {
        let shorter = rows.drop_last();
        lemma_latest_seq(shorter, group, path);
        assert forall|i: int|
            #![trigger rows[i]]
            0 <= i < rows.len() && is_at(group, path)(rows[i]) implies rows[i].seq <= latest_seq(
            rows,
            group,
            path,
        ) by {
            if i < shorter.len() {
                assert(shorter[i] == rows[i]);
            }
        }
        if latest_seq(rows, group, path) != 0 {
            if latest_seq(rows, group, path) == latest_seq(shorter, group, path) {
                let i = choose|i: int|
                    #![trigger shorter[i]]
                    0 <= i < shorter.len() && is_at(group, path)(shorter[i]) && shorter[i].seq
                        == latest_seq(shorter, group, path);
                assert(rows[i] == shorter[i]);
            } else {
                assert(rows[rows.len() - 1] == rows.last());
            }
        }
    }
}

/// A path has at most one current version.
pub proof fn lemma_one_current(rows: Seq<Version>, group: Seq<char>, path: Seq<char>)
    requires
        is_history(rows),
    ensures
        at_most_one(rows, is_current_at(group, path)),
{
    let pred = is_current_at(group, path);
    assert forall|i: int, j: int|
        #![trigger rows[i], rows[j]]
        0 <= i < rows.len() && 0 <= j < rows.len() && pred(rows[i]) && pred(rows[j]) implies i
        == j by {
        if i != j {
            assert(same_path(rows[i], rows[j]));
        }
    }
}

/// Writing a version keeps the history well formed: what becomes current is
/// numbered after everything the path ever had.
pub proof fn lemma_written_is_history(rows: Seq<Version>, new: NewVersion, n: int)
    requires
        is_history(rows),
    ensures
        is_history(written(rows, new)),
        n >= 1 && has_room(rows, n) ==> has_room(written(rows, new), n - 1),
        made_current(rows, new).seq == latest_seq(rows, new.group, new.entry.path) + 1,
        current(written(rows, new), new.group, new.entry.path) == Some(made_current(rows, new)),
{
    let group = new.group;
    let path = new.entry.path;
    let pred = is_current_at(group, path);
    let made = made_current(rows, new);
    let after = written(rows, new);
    lemma_latest_seq(rows, group, path);
    lemma_one_current(rows, group, path);
    lemma_first_where(rows, pred);
    assert(is_at(group, path)(made));
    match current(rows, group, path) {
        None => {
            assert forall|i: int| #![trigger rows[i]] 0 <= i < rows.len() implies !pred(rows[i]) by {
                if pred(rows[i]) {
                    assert(any(rows, pred));
                }
            }
            assert(made.seq > 0);
            assert forall|i: int, j: int|
                #![trigger after[i], after[j]]
                0 <= i < after.len() && 0 <= j < after.len() && i != j && same_path(
                    after[i],
                    after[j],
                ) implies {
                &&& after[i].seq != after[j].seq
                &&& after[i].state is Current ==> !(after[j].state is Current)
                &&& after[i].state is Current && after[i].seq > 0 ==> after[j].seq < after[i].seq
            } by {
                if i < rows.len() {
                    assert(after[i] == rows[i]);
                }
                if j < rows.len() {
                    assert(after[j] == rows[j]);
                }
                if i < rows.len() && j < rows.len() {
                } else if i < rows.len() {
                    assert(is_at(group, path)(rows[i]));
                    assert(!pred(rows[i]));
                } else {
                    assert(is_at(group, path)(rows[j]));
                    assert(!pred(rows[j]));
                }
            }
            assert(after[rows.len() as int] == made);
            assert forall|j: int| 0 <= j < rows.len() implies !pred(#[trigger] after[j]) by {
                assert(after[j] == rows[j]);
            }
            lemma_first_where_at(after, pred, rows.len() as int);
        },
        Some(row) => {
            let k = choose|k: int| 0 <= k < rows.len() && rows[k] == row;
            assert(pred(rows[k]));
            if row.seq == 0 {
                let f = |row: Version| made;
                lemma_set_where_at(rows, pred, f, k);
                assert(after == rows.update(k, made));
                assert forall|i: int, j: int|
                    #![trigger after[i], after[j]]
                    0 <= i < after.len() && 0 <= j < after.len() && i != j && same_path(
                        after[i],
                        after[j],
                    ) implies {
                    &&& after[i].seq != after[j].seq
                    &&& after[i].state is Current ==> !(after[j].state is Current)
                    &&& after[i].state is Current && after[i].seq > 0 ==> after[j].seq
                        < after[i].seq
                } by {
                    assert(same_path(rows[i], rows[j]));
                    assert(is_at(group, path)(rows[k]));
                    if i == k {
                        assert(is_at(group, path)(rows[j]));
                    }
                    if j == k {
                        assert(is_at(group, path)(rows[i]));
                    }
                }
                assert forall|j: int| 0 <= j < k implies !pred(#[trigger] after[j]) by {
                    assert(after[j] == rows[j]);
                    assert(rows[k] == row);
                }
                assert(after[k] == made);
                lemma_first_where_at(after, pred, k);
            } else {
                let f = |row: Version| displaced(row, new);
                let gone = displaced(row, new);
                lemma_set_where_at(rows, pred, f, k);
                let base = rows.update(k, gone);
                assert(after == base.push(made));
                assert(rows[k].seq > 0);
                assert(made.seq == row.seq + 1);
                assert forall|i: int|
                    #![trigger rows[i]]
                    0 <= i < rows.len() && is_at(group, path)(rows[i]) implies rows[i].seq
                    <= row.seq by {
                    if i != k {
                        assert(same_path(rows[k], rows[i]));
                    }
                }
                assert forall|i: int|
                    #![trigger after[i]]
                    0 <= i < rows.len() implies after[i].seq == rows[i].seq && same_path(
                    after[i],
                    rows[i],
                ) && (after[i].state is Current <==> rows[i].state is Current && i != k) by {}
                assert forall|i: int, j: int|
                    #![trigger after[i], after[j]]
                    0 <= i < after.len() && 0 <= j < after.len() && i != j && same_path(
                        after[i],
                        after[j],
                    ) implies {
                    &&& after[i].seq != after[j].seq
                    &&& after[i].state is Current ==> !(after[j].state is Current)
                    &&& after[i].state is Current && after[i].seq > 0 ==> after[j].seq
                        < after[i].seq
                } by {
                    if i < rows.len() && j < rows.len() {
                        assert(same_path(rows[i], rows[j]));
                    } else if i < rows.len() {
                        assert(is_at(group, path)(rows[i]));
                        if i != k {
                            assert(same_path(rows[i], rows[k]));
                        }
                    } else {
                        assert(is_at(group, path)(rows[j]));
                        if j != k {
                            assert(same_path(rows[j], rows[k]));
                        }
                    }
                }
                assert forall|j: int| 0 <= j < rows.len() implies !pred(#[trigger] after[j]) by {
                    if pred(after[j]) {
                        assert(pred(rows[j]));
                        assert(rows[k] == row);
                    }
                }
                assert(after[rows.len() as int] == made);
                lemma_first_where_at(after, pred, rows.len() as int);
            }
        },
    }
}

impl FileIndexRepository {
    /// An empty index.
    pub fn new() -> (index: Self)
        ensures
            index@ == (FileIndex {
                files: Seq::empty(),
                pins: Seq::empty(),
                proofs: Seq::empty(),
                captures: Seq::empty(),
                changes: Changes {
                    admitted: Seq::empty(),
                    authorized: Seq::empty(),
                    operations: Seq::empty(),
                },
                generations: Seq::empty(),
            }),
            index@.well_formed(),
    {
        let index = FileIndexRepository {
            files: Vec::new(),
            pinned_directories: Vec::new(),
            proofs: Vec::new(),
            captures: Vec::new(),
            changes: ChangeLog {
                admitted: Vec::new(),
                authorized: Vec::new(),
                operations: Vec::new(),
            },
            root_set_generations: Vec::new(),
        };
        assert(index@.files =~= Seq::empty());
        assert(index@.pins =~= Seq::empty());
        assert(index@.proofs =~= Seq::empty());
        assert(index@.captures =~= Seq::empty());
        assert(index@.changes.admitted =~= Seq::empty());
        assert(index@.changes.authorized =~= Seq::empty());
        assert(index@.changes.operations =~= Seq::empty());
        assert(index@.generations =~= Seq::empty());
        index
    }

    /// Where the current version of the path stands.
    pub fn current_position(&self, group_id: &str, path: &str) -> (found: Option<usize>)
        ensures
            match found {
                Some(i) => {
                    &&& i < self.files@.len()
                    &&& is_current_at(group_id@, path@)(self@.files[i as int])
                    &&& current(self@.files, group_id@, path@) == Some(self@.files[i as int])
                },
                None => {
                    &&& current(self@.files, group_id@, path@) is None
                    &&& forall|j: int|
                        0 <= j < self@.files.len() ==> !is_current_at(group_id@, path@)(
                            #[trigger] self@.files[j],
                        )
                },
            },
    {
        let ghost rows = self@.files;
        let ghost pred = is_current_at(group_id@, path@);
        let mut i: usize = 0;
        while i < self.files.len()
            invariant
                i <= self.files@.len(),
                rows == self@.files,
                pred == is_current_at(group_id@, path@),
                forall|j: int| 0 <= j < i ==> !pred(#[trigger] rows[j]),
            decreases self.files@.len() - i,
        {
            assert(rows[i as int] == self.files@[i as int]@);
            let current: bool = match self.files[i].state {
                VersionState::Current => true,
                _ => false,
            };
            if current && str_eq(self.files[i].group_id.as_str(), group_id) && str_eq(
                self.files[i].path.as_str(),
                path,
            ) {
                proof {
                    lemma_first_where_at(rows, pred, i as int);
                }
                return Some(i);
            }
            i += 1;
        }
        proof {
            lemma_first_where_none(rows, pred);
        }
        None
    }

    /// The highest version number the path ever had, 0 with none.
    pub fn latest_seq_at(&self, group_id: &str, path: &str) -> (latest: i64)
        ensures
            latest == latest_seq(self@.files, group_id@, path@),
    {
        let ghost rows = self@.files;
        let mut latest: i64 = 0;
        let mut i: usize = 0;
        while i < self.files.len()
            invariant
                i <= self.files@.len(),
                rows == self@.files,
                latest == latest_seq(rows.take(i as int), group_id@, path@),
            decreases self.files@.len() - i,
        {
            assert(rows[i as int] == self.files@[i as int]@);
            assert(rows.take(i + 1).drop_last() =~= rows.take(i as int));
            if str_eq(self.files[i].group_id.as_str(), group_id) && str_eq(
                self.files[i].path.as_str(),
                path,
            ) && self.files[i].version_seq > latest {
                latest = self.files[i].version_seq;
            }
            i += 1;
        }
        assert(rows.take(rows.len() as int) =~= rows);
        latest
    }
}

/// The row a record becomes, with the columns it does not carry at their
/// defaults.
fn fresh_row(
    group_id: &str,
    record: &FileRecord,
    origin: Option<String>,
    authoring: Option<Vec<u8>>,
    version_seq: i64,
    now: Option<i64>,
) -> (row: FileRow)
    ensures
        row@ == fresh(
            (NewVersion {
                group: group_id@,
                entry: record@,
                origin: match origin {
                    Some(text) => Some(text@),
                    None => None,
                },
                author: match authoring {
                    Some(bytes) => Some(bytes@),
                    None => None,
                },
                admitted_at: now,
                operation: None,
            }),
            version_seq as int,
        ),
{
    FileRow {
        group_id: group_id.to_owned(),
        path: record.path.clone(),
        size: record.size,
        mtime_unix_nanos: record.mtime_unix_nanos,
        blocks: Ok(copy_blocks(&record.blocks)),
        deleted: record.deleted,
        version_seq,
        state: VersionState::Current,
        origin_device_id: origin,
        authoring_change_hash: authoring,
        materialization_state: MaterializationState::Placeholder,
        pinned: false,
        last_accessed_unix: None,
        record_kind: RecordKind::File,
        symlink_target: None,
        unix_mode: -1,
        held_reason: None,
        held_since_unix_nanos: None,
        symlink_out_of_root: false,
        xattrs_json: "[]".to_owned(),
        admitted_at_unix_nanos: now,
        trashed_by_operation_author: None,
        trashed_by_operation_id: None,
    }
}

/// Writes a new version of the record's path. The scaffold becomes the path's
/// next version in place; any other current version is displaced into the
/// trash or the history and the next one carries on its metadata; a path
/// without a current version starts anew after whatever history it has. In a
/// group with history, a current version that no known change authored is
/// refused and nothing is written.
pub fn upsert_file_in_tx(
    index: &mut FileIndexRepository,
    group_id: &str,
    record: &FileRecord,
    origin_device_id: &str,
    authoring_change_hash: Option<&ChangeHash>,
    now_unix_nanos: Option<i64>,
) -> (result: Result<(), SyncSqliteError>)
    requires
        is_history(old(index)@.files),
        has_room(old(index)@.files, 1),
    ensures
        is_history(final(index)@.files),
        files_changed(
            upsert(
                old(index)@.files,
                old(index)@.changes,
                new_version(
                    old(index)@.changes,
                    group_id@,
                    record@,
                    origin_device_id@,
                    authored_by(authoring_change_hash),
                    now_unix_nanos,
                ),
            ),
            group_id@,
            old(index)@,
            final(index)@,
            result,
        ),
{
    let ghost rows = index@.files;
    let ghost new = new_version(
        index@.changes,
        group_id@,
        record@,
        origin_device_id@,
        authored_by(authoring_change_hash),
        now_unix_nanos,
    );
    let ghost pred = is_current_at(group_id@, record.path@);
    proof {
        lemma_next_seq_fits(rows, new);
        lemma_one_current(rows, group_id@, record.path@);
    }
    let origin: Option<String> = if origin_device_id.is_empty() {
        None
    } else {
        Some(origin_device_id.to_owned())
    };
    let authoring: Option<Vec<u8>> = match authoring_change_hash {
        Some(hash) => Some(hash_bytes(hash)),
        None => None,
    };
    let found = index.current_position(group_id, record.path.as_str());
    let row = match found {
        None => {
            let latest: i64 = index.latest_seq_at(group_id, record.path.as_str());
            fresh_row(group_id, record, origin, authoring, latest + 1, now_unix_nanos)
        },
        Some(i) => {
            assert(rows[i as int] == index.files@[i as int]@);
            if index.files[i].version_seq == 0 {
                let latest: i64 = index.latest_seq_at(group_id, record.path.as_str());
                promoted_row(
                    &index.files[i],
                    record,
                    origin,
                    authoring,
                    latest + 1,
                    now_unix_nanos,
                )
            } else {
                following_row(&index.files[i], record, origin, authoring, now_unix_nanos)
            }
        },
    };
    assert(row@ == made_current(rows, new));
    if index.changes.has_history(group_id) && !index.changes.verifies(
        group_id,
        &row.authoring_change_hash,
    ) {
        return Err(no_author_error(group_id, record.path.as_str()));
    }
    let ghost made = row@;
    match found {
        None => {
            index.files.push(row);
            assert(index@.files =~= rows.push(made));
        },
        Some(i) => {
            assert(rows[i as int] == index.files@[i as int]@);
            if index.files[i].version_seq == 0 {
                proof {
                    lemma_set_where_at(rows, pred, |old: Version| made, i as int);
                }
                index.files.set(i, row);
                assert(index@.files =~= rows.update(i as int, made));
            } else {
                proof {
                    lemma_set_where_at(rows, pred, |old: Version| displaced(old, new), i as int);
                }
                displace(index, i, record.deleted, authoring_change_hash);
                index.files.push(row);
                assert(index@.files =~= rows.update(
                    i as int,
                    displaced(rows[i as int], new),
                ).push(made));
            }
        },
    }
    assert(index@.files == written(rows, new));
    assert(is_history(index@.files)) by {
        lemma_written_is_history(rows, new, 1);
    }
    index.raise_counter(group_id);
    Ok(())
}

/// The number of the version that becomes current fits its column.
proof fn lemma_next_seq_fits(rows: Seq<Version>, new: NewVersion)
    requires
        is_history(rows),
        has_room(rows, 1),
    ensures
        0 <= latest_seq(rows, new.group, new.entry.path) < i64::MAX,
        made_current(rows, new).seq > 0,
        current(rows, new.group, new.entry.path) matches Some(row) ==> 0 <= row.seq < i64::MAX,
{
    lemma_latest_seq(rows, new.group, new.entry.path);
    lemma_first_where(rows, is_current_at(new.group, new.entry.path));
}

/// The change behind a write.
pub open spec fn authored_by(hash: Option<&ChangeHash>) -> Option<ChangeHash> {
    match hash {
        Some(hash) => Some(*hash),
        None => None,
    }
}

fn no_author_error(group_id: &str, path: &str) -> (error: SyncSqliteError)
    ensures
        error@ == no_author(group_id@, path@),
{
    let start = join3("files row ", group_id, "/");
    let text = join3(start.as_str(), path, " requires verified authoring identity");
    SyncSqliteError::ConstraintViolation(text)
}

/// The scaffold's row turned into a real version.
fn promoted_row(
    scaffold: &FileRow,
    record: &FileRecord,
    origin: Option<String>,
    authoring: Option<Vec<u8>>,
    version_seq: i64,
    now: Option<i64>,
) -> (row: FileRow)
    ensures
        row@ == (Version {
            size: record@.size,
            mtime: record@.mtime,
            blocks: Ok(record@.blocks),
            deleted: record@.deleted,
            seq: version_seq as int,
            origin: match origin {
                Some(text) => Some(text@),
                None => None,
            },
            authoring: match authoring {
                Some(bytes) => Some(bytes@),
                None => None,
            },
            admitted_at: now,
            ..scaffold@
        }),
{
    FileRow {
        group_id: scaffold.group_id.clone(),
        path: scaffold.path.clone(),
        size: record.size,
        mtime_unix_nanos: record.mtime_unix_nanos,
        blocks: Ok(copy_blocks(&record.blocks)),
        deleted: record.deleted,
        version_seq,
        state: scaffold.state,
        origin_device_id: origin,
        authoring_change_hash: authoring,
        materialization_state: scaffold.materialization_state,
        pinned: scaffold.pinned,
        last_accessed_unix: scaffold.last_accessed_unix,
        record_kind: scaffold.record_kind,
        symlink_target: copy_opt_bytes(&scaffold.symlink_target),
        unix_mode: scaffold.unix_mode,
        held_reason: copy_opt_str(&scaffold.held_reason),
        held_since_unix_nanos: scaffold.held_since_unix_nanos,
        symlink_out_of_root: scaffold.symlink_out_of_root,
        xattrs_json: scaffold.xattrs_json.clone(),
        admitted_at_unix_nanos: now,
        trashed_by_operation_author: copy_opt_str(&scaffold.trashed_by_operation_author),
        trashed_by_operation_id: copy_opt_bytes(&scaffold.trashed_by_operation_id),
    }
}

/// The row that follows a version.
fn following_row(
    row: &FileRow,
    record: &FileRecord,
    origin: Option<String>,
    authoring: Option<Vec<u8>>,
    now: Option<i64>,
) -> (next: FileRow)
    requires
        row.version_seq < i64::MAX,
    ensures
        next@ == (Version {
            size: record@.size,
            mtime: record@.mtime,
            blocks: Ok(record@.blocks),
            deleted: record@.deleted,
            seq: row.version_seq + 1,
            state: VersionState::Current,
            origin: match origin {
                Some(text) => Some(text@),
                None => None,
            },
            authoring: match authoring {
                Some(bytes) => Some(bytes@),
                None => row@.authoring,
            },
            admitted_at: now,
            trashed_by_author: None,
            trashed_by_id: None,
            ..row@
        }),
{
    FileRow {
        group_id: row.group_id.clone(),
        path: row.path.clone(),
        size: record.size,
        mtime_unix_nanos: record.mtime_unix_nanos,
        blocks: Ok(copy_blocks(&record.blocks)),
        deleted: record.deleted,
        version_seq: row.version_seq + 1,
        state: VersionState::Current,
        origin_device_id: origin,
        authoring_change_hash: match authoring {
            Some(bytes) => Some(bytes),
            None => copy_opt_bytes(&row.authoring_change_hash),
        },
        materialization_state: row.materialization_state,
        pinned: row.pinned,
        last_accessed_unix: row.last_accessed_unix,
        record_kind: row.record_kind,
        symlink_target: copy_opt_bytes(&row.symlink_target),
        unix_mode: row.unix_mode,
        held_reason: copy_opt_str(&row.held_reason),
        held_since_unix_nanos: row.held_since_unix_nanos,
        symlink_out_of_root: row.symlink_out_of_root,
        xattrs_json: row.xattrs_json.clone(),
        admitted_at_unix_nanos: now,
        trashed_by_operation_author: None,
        trashed_by_operation_id: None,
    }
}

/// Displaces the version at `i`, naming the recursive operation that deleted
/// it where there is one.
fn displace(
    index: &mut FileIndexRepository,
    i: usize,
    deleted: bool,
    deleting_change: Option<&ChangeHash>,
)
    requires
        i < old(index).files@.len(),
    ensures
        final(index)@ == (FileIndex {
            files: old(index)@.files.update(
                i as int,
                displaced_by(
                    old(index)@.files[i as int],
                    deleted,
                    match deleting_change {
                        Some(hash) => old(index)@.changes.operation_of(hash.0@),
                        None => None,
                    },
                ),
            ),
            ..old(index)@
        }),
{
    let ghost rows = index@.files;
    assert(rows[i as int] == index.files@[i as int]@);
    if index.files[i].deleted || !deleted {
        index.files[i].state = VersionState::Superseded;
        assert(index@.files =~= rows.update(
            i as int,
            Version { state: VersionState::Superseded, ..rows[i as int] },
        ));
        return;
    }
    let operation: Option<(String, Vec<u8>)> = match deleting_change {
        Some(hash) => match index.changes.operation_of(hash) {
            Some(operation) => Some(
                (
                    operation.author.clone(),
                    vstd::slice::slice_to_vec(
                        vstd::array::array_as_slice(&operation.operation_id),
                    ),
                ),
            ),
            None => None,
        },
        None => None,
    };
    index.files[i].state = VersionState::Trashed;
    match operation {
        Some((author, id)) => {
            let ghost shown = author@;
            let ghost bytes = id@;
            index.files[i].trashed_by_operation_author = Some(author);
            index.files[i].trashed_by_operation_id = Some(id);
            assert(index@.files =~= rows.update(
                i as int,
                Version {
                    state: VersionState::Trashed,
                    trashed_by_author: Some(shown),
                    trashed_by_id: Some(bytes),
                    ..rows[i as int]
                },
            ));
        },
        None => {
            assert(index@.files =~= rows.update(
                i as int,
                Version { state: VersionState::Trashed, ..rows[i as int] },
            ));
        },
    }
}

} // verus!
