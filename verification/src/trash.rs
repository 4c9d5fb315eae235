//! The trash: what a path last held before it was deleted.

use vstd::prelude::*;

use crate::error::{texts, Failure, SyncSqliteError};
use crate::file_queries::holds_text;
use crate::file_rows::{FileIndexRepository, RecursiveOperationRef, Version};
use crate::file_upsert::current;
use crate::index_vocabulary::{RecordKind, VersionState};
use crate::rows::{any, in_order, lemma_filter_map_multiset_next, lemma_insert_in_order, views};
use crate::text::{
    bytes_eq, copy_opt_str, lemma_text_chain, lemma_text_order, str_eq, str_less, text_lt,
};
use crate::transaction_rows::opt_text;

verus! {

/// A path in the trash.
#[derive(Debug, PartialEq, Eq)]
pub struct TrashedFile {
    pub path: String,
    pub version_seq: i64,
    pub last_known_size: u64,
    pub origin_device_id: Option<String>,
    pub deleted_at_unix_nanos: i64,
    pub deleted_by_operation: Option<RecursiveOperationRef>,
    pub record_kind: RecordKind,
}

/// The model of a [`TrashedFile`].
pub struct TrashEntry {
    pub path: Seq<char>,
    pub seq: int,
    pub size: u64,
    pub origin: Option<Seq<char>>,
    pub deleted_at: int,
    pub operation: Option<(Seq<char>, Seq<u8>)>,
    pub kind: RecordKind,
}

/// The author and the id of an optional operation.
pub open spec fn operation_key(operation: Option<RecursiveOperationRef>) -> Option<
    (Seq<char>, Seq<u8>),
> {
    match operation {
        Some(operation) => Some((operation.author@, operation.operation_id@)),
        None => None,
    }
}

impl View for TrashedFile {
    type V = TrashEntry;

    open spec fn view(&self) -> TrashEntry {
        TrashEntry {
            path: self.path@,
            seq: self.version_seq as int,
            size: self.last_known_size,
            origin: opt_text(self.origin_device_id),
            deleted_at: self.deleted_at_unix_nanos as int,
            operation: operation_key(self.deleted_by_operation),
            kind: self.record_kind,
        }
    }
}

/// The row is a trashed version of that path.
pub open spec fn is_trashed_at(group: Seq<char>, path: Seq<char>) -> spec_fn(Version) -> bool {
    |row: Version| row.group == group && row.path == path && row.state is Trashed
}

/// No trashed version of the row's path is newer.
pub open spec fn is_latest_trashed(rows: Seq<Version>, row: Version) -> bool {
    forall|j: int|
        #![trigger rows[j]]
        0 <= j < rows.len() && is_trashed_at(row.group, row.path)(rows[j]) ==> rows[j].seq
            <= row.seq
}

/// The row is what its path last held, and the path is deleted.
pub open spec fn is_in_trash(rows: Seq<Version>, group: Seq<char>) -> spec_fn(Version) -> bool {
    |row: Version|
        {
            &&& row.group == group
            &&& row.state is Trashed
            &&& is_latest_trashed(rows, row)
            &&& current(rows, group, row.path) matches Some(now) && now.deleted
        }
}

/// The operation that trashed the row.
pub open spec fn trashed_by(row: Version) -> Option<(Seq<char>, Seq<u8>)> {
    match (row.trashed_by_author, row.trashed_by_id) {
        (Some(author), Some(id)) => Some((author, id)),
        _ => None,
    }
}

/// The row names an operation by an id that is none.
pub open spec fn names_no_operation(row: Version) -> bool {
    trashed_by(row) matches Some(key) && key.1.len() != 16
}

/// The trash entry of a row.
pub open spec fn trash_entry(rows: Seq<Version>, group: Seq<char>) -> spec_fn(Version) -> TrashEntry {
    |row: Version|
        TrashEntry {
            path: row.path,
            seq: row.seq,
            size: row.size,
            origin: row.origin,
            deleted_at: match current(rows, group, row.path) {
                Some(now) => now.mtime,
                None => 0,
            },
            operation: trashed_by(row),
            kind: row.kind,
        }
}

/// The row is in the trash and its path has no live history.
pub open spec fn is_listed_trash(
    rows: Seq<Version>,
    group: Seq<char>,
    live: Seq<Seq<char>>,
) -> spec_fn(Version) -> bool {
    |row: Version| is_in_trash(rows, group)(row) && !live.contains(row.path)
}

/// The row is in the trash because of that operation, and its path has no live
/// history.
pub open spec fn is_trash_of(
    rows: Seq<Version>,
    group: Seq<char>,
    operation: (Seq<char>, Seq<u8>),
    live: Seq<Seq<char>>,
) -> spec_fn(Version) -> bool {
    |row: Version| is_listed_trash(rows, group, live)(row) && trashed_by(row) == Some(operation)
}

/// Later deletions come first.
pub open spec fn deleted_later() -> spec_fn(TrashEntry, TrashEntry) -> bool {
    |a: TrashEntry, b: TrashEntry| a.deleted_at > b.deleted_at
}

/// Smaller paths come first.
pub open spec fn by_path() -> spec_fn(TrashEntry, TrashEntry) -> bool {
    |a: TrashEntry, b: TrashEntry| text_lt(a.path, b.path)
}

/// The listing holds the entries of exactly the selected rows, in order.
pub open spec fn is_trash_listing(
    listed: Seq<TrashEntry>,
    rows: Seq<Version>,
    group: Seq<char>,
    selected: spec_fn(Version) -> bool,
    before: spec_fn(TrashEntry, TrashEntry) -> bool,
) -> bool {
    &&& listed.to_multiset() == rows.filter(selected).map_values(
        trash_entry(rows, group),
    ).to_multiset()
    &&& in_order(listed, before)
}

/// The failure of an operation id that is none.
pub open spec fn bad_operation_id() -> Failure {
    Failure::ColumnConversion("trashed_by_operation_id is not 16 bytes"@)
}

/// Copies sixteen bytes into an array.
pub fn copy16(bytes: &[u8]) -> (array: [u8; 16])
    requires
        bytes@.len() == 16,
    ensures
        array@ == bytes@,
{
    let mut array: [u8; 16] = [0; 16];
    let mut i: usize = 0;
    while i < 16
        invariant
            i <= 16,
            bytes@.len() == 16,
            forall|j: int| 0 <= j < i ==> array@[j] == bytes@[j],
        decreases 16 - i,
    {
        array[i] = bytes[i];
        i += 1;
    }
    assert(array@ =~= bytes@);
    array
}

impl FileIndexRepository {
    /// Whether no trashed version of the row's path is newer.
    fn is_latest_trashed_at(&self, at: usize) -> (latest: bool)
        requires
            at < self.files@.len(),
        ensures
            latest == is_latest_trashed(self@.files, self@.files[at as int]),
    {
        let ghost rows = self@.files;
        let ghost row = rows[at as int];
        assert(row == self.files@[at as int]@);
        let mut i: usize = 0;
        while i < self.files.len()
            invariant
                i <= self.files@.len(),
                at < self.files@.len(),
                rows == self@.files,
                row == self.files@[at as int]@,
                forall|j: int|
                    #![trigger rows[j]]
                    0 <= j < i && is_trashed_at(row.group, row.path)(rows[j]) ==> rows[j].seq
                        <= row.seq,
            decreases self.files@.len() - i,
        {
            assert(rows[i as int] == self.files@[i as int]@);
            let trashed: bool = match self.files[i].state {
                VersionState::Trashed => true,
                _ => false,
            };
            if trashed && self.files[i].version_seq > self.files[at].version_seq && str_eq(
                self.files[i].group_id.as_str(),
                self.files[at].group_id.as_str(),
            ) && str_eq(self.files[i].path.as_str(), self.files[at].path.as_str()) {
                assert(is_trashed_at(row.group, row.path)(rows[i as int]));
                return false;
            }
            i += 1;
        }
        true
    }

    /// When the path of a row in the trash was deleted; nothing for a row that
    /// is not in the trash.
    fn trashed_since(&self, group_id: &str, at: usize) -> (since: Option<i64>)
        requires
            at < self.files@.len(),
        ensures
            (since is Some) == is_in_trash(self@.files, group_id@)(self@.files[at as int]),
            since matches Some(time) ==> time == trash_entry(self@.files, group_id@)(
                self@.files[at as int],
            ).deleted_at,
    {
        assert(self@.files[at as int] == self.files@[at as int]@);
        let trashed: bool = match self.files[at].state {
            VersionState::Trashed => true,
            _ => false,
        };
        if !trashed || !str_eq(self.files[at].group_id.as_str(), group_id)
            || !self.is_latest_trashed_at(at) {
            return None;
        }
        match self.current_position(group_id, self.files[at].path.as_str()) {
            None => None,
            Some(now) => {
                assert(self@.files[now as int] == self.files@[now as int]@);
                if self.files[now].deleted {
                    Some(self.files[now].mtime_unix_nanos)
                } else {
                    None
                }
            },
        }
    }

    /// The trash entry of a row, or the failure of an operation id that is
    /// none.
    fn trashed_file_from_row(&self, at: usize, deleted_at: i64) -> (result: Result<
        TrashedFile,
        SyncSqliteError,
    >)
        requires
            at < self.files@.len(),
        ensures
            if names_no_operation(self@.files[at as int]) {
                result is Err && result->Err_0@ == bad_operation_id()
            } else {
                result is Ok && result->Ok_0@ == (TrashEntry {
                    path: self@.files[at as int].path,
                    seq: self@.files[at as int].seq,
                    size: self@.files[at as int].size,
                    origin: self@.files[at as int].origin,
                    deleted_at: deleted_at as int,
                    operation: trashed_by(self@.files[at as int]),
                    kind: self@.files[at as int].kind,
                })
            },
    {
        assert(self@.files[at as int] == self.files@[at as int]@);
        let row = &self.files[at];
        let operation: Option<RecursiveOperationRef> = match (
            &row.trashed_by_operation_author,
            &row.trashed_by_operation_id,
        ) {
            (Some(author), Some(id)) => {
                if id.len() != 16 {
                    return Err(
                        SyncSqliteError::ColumnConversion(
                            "trashed_by_operation_id is not 16 bytes".to_owned(),
                        ),
                    );
                }
                Some(
                    RecursiveOperationRef {
                        author: author.clone(),
                        operation_id: copy16(id.as_slice()),
                    },
                )
            },
            _ => None,
        };
        Ok(
            TrashedFile {
                path: row.path.clone(),
                version_seq: row.version_seq,
                last_known_size: row.size,
                origin_device_id: copy_opt_str(&row.origin_device_id),
                deleted_at_unix_nanos: deleted_at,
                deleted_by_operation: operation,
                record_kind: row.record_kind,
            },
        )
    }

    /// The group's trash, latest deletion first: for each deleted path the
    /// version it last held. Paths with live history, given by the caller, are
    /// left out. An entry that names an operation by no id is an error.
    pub fn list_trashed(&self, group_id: &str, live_paths: &[String]) -> (result: Result<
        Vec<TrashedFile>,
        SyncSqliteError,
    >)
        ensures
            if any(
                self@.files,
                |row: Version| is_in_trash(self@.files, group_id@)(row) && names_no_operation(row),
            ) {
                result is Err && result->Err_0@ == bad_operation_id()
            } else {
                result is Ok && is_trash_listing(
                    views(result->Ok_0@),
                    self@.files,
                    group_id@,
                    is_listed_trash(self@.files, group_id@, texts(live_paths@)),
                    deleted_later(),
                )
            },
    {
        let ghost rows = self@.files;
        let ghost pred = is_listed_trash(rows, group_id@, texts(live_paths@));
        let ghost f = trash_entry(rows, group_id@);
        let ghost bad = |row: Version|
            is_in_trash(self@.files, group_id@)(row) && names_no_operation(row);
        let mut out: Vec<TrashedFile> = Vec::new();
        let mut i: usize = 0;
        assert(rows.take(0).filter(pred) =~= Seq::empty());
        assert(views(out@) =~= rows.take(0).filter(pred).map_values(f));
        while i < self.files.len()
            invariant
                i <= self.files@.len(),
                rows == self@.files,
                pred == is_listed_trash(rows, group_id@, texts(live_paths@)),
                f == trash_entry(rows, group_id@),
                bad == (|row: Version|
                    is_in_trash(self@.files, group_id@)(row) && names_no_operation(row)),
                forall|j: int| 0 <= j < i ==> !bad(#[trigger] rows[j]),
                views(out@).to_multiset() == rows.take(i as int).filter(pred).map_values(
                    f,
                ).to_multiset(),
                in_order(views(out@), deleted_later()),
            decreases self.files@.len() - i,
        {
            assert(rows[i as int] == self.files@[i as int]@);
            proof {
                lemma_filter_map_multiset_next(rows, pred, f, i as int);
            }
            match self.trashed_since(group_id, i) {
                None => {},
                Some(deleted_at) => {
                    match self.trashed_file_from_row(i, deleted_at) {
                        Err(error) => {
                            assert(bad(rows[i as int]));
                            return Err(error);
                        },
                        Ok(entry) => {
                            if !holds_text(live_paths, self.files[i].path.as_str()) {
                                insert_by_deletion(&mut out, entry);
                            }
                        },
                    }
                },
            }
            i += 1;
        }
        assert(rows.take(rows.len() as int) =~= rows);
        Ok(out)
    }

    /// What is in the trash because of one recursive operation, in path order:
    /// the set a restore of the operation puts back. Paths with live history,
    /// given by the caller, are left out.
    pub fn list_trashed_by_recursive_operation(
        &self,
        group_id: &str,
        operation: &RecursiveOperationRef,
        live_paths: &[String],
    ) -> (result: Result<Vec<TrashedFile>, SyncSqliteError>)
        ensures
            result is Ok,
            is_trash_listing(
                views(result->Ok_0@),
                self@.files,
                group_id@,
                is_trash_of(
                    self@.files,
                    group_id@,
                    (operation.author@, operation.operation_id@),
                    texts(live_paths@),
                ),
                by_path(),
            ),
    {
        let ghost rows = self@.files;
        let ghost pred = is_trash_of(
            rows,
            group_id@,
            (operation.author@, operation.operation_id@),
            texts(live_paths@),
        );
        let ghost f = trash_entry(rows, group_id@);
        let mut out: Vec<TrashedFile> = Vec::new();
        let mut i: usize = 0;
        assert(rows.take(0).filter(pred) =~= Seq::empty());
        assert(views(out@) =~= rows.take(0).filter(pred).map_values(f));
        while i < self.files.len()
            invariant
                i <= self.files@.len(),
                rows == self@.files,
                pred == is_trash_of(
                    rows,
                    group_id@,
                    (operation.author@, operation.operation_id@),
                    texts(live_paths@),
                ),
                f == trash_entry(rows, group_id@),
                views(out@).to_multiset() == rows.take(i as int).filter(pred).map_values(
                    f,
                ).to_multiset(),
                in_order(views(out@), by_path()),
            decreases self.files@.len() - i,
        {
            assert(rows[i as int] == self.files@[i as int]@);
            proof {
                lemma_filter_map_multiset_next(rows, pred, f, i as int);
            }
            let named: bool = match (
                &self.files[i].trashed_by_operation_author,
                &self.files[i].trashed_by_operation_id,
            ) {
                (Some(author), Some(id)) => str_eq(author.as_str(), operation.author.as_str())
                    && bytes_eq(
                    id.as_slice(),
                    vstd::array::array_as_slice(&operation.operation_id),
                ),
                _ => false,
            };
            assert(named == (trashed_by(rows[i as int]) == Some(
                (operation.author@, operation.operation_id@),
            )));
            if named && !holds_text(live_paths, self.files[i].path.as_str()) {
                match self.trashed_since(group_id, i) {
                    None => {},
                    Some(deleted_at) => {
                        assert(operation.operation_id@.len() == 16);
                        match self.trashed_file_from_row(i, deleted_at) {
                            Err(error) => {
                                return Err(error);
                            },
                            Ok(entry) => {
                                insert_by_path(&mut out, entry);
                            },
                        }
                    },
                }
            }
            i += 1;
        }
        assert(rows.take(rows.len() as int) =~= rows);
        Ok(out)
    }
}

/// Puts an entry where its deletion time belongs.
fn insert_by_deletion(listed: &mut Vec<TrashedFile>, entry: TrashedFile)
    requires
        in_order(views(old(listed)@), deleted_later()),
    ensures
        in_order(views(final(listed)@), deleted_later()),
        views(final(listed)@).to_multiset() == views(old(listed)@).to_multiset().insert(entry@),
{
    let ghost before = views(listed@);
    let ghost made = entry@;
    let mut at: usize = 0;
    while at < listed.len() && listed[at].deleted_at_unix_nanos >= entry.deleted_at_unix_nanos
        invariant
            at <= listed@.len(),
            before == views(listed@),
            made == entry@,
            forall|i: int| 0 <= i < at ==> !deleted_later()(made, #[trigger] before[i]),
        decreases listed@.len() - at,
    {
        assert(before[at as int] == listed@[at as int]@);
        at += 1;
    }
    proof {
        assert forall|i: int| at <= i < before.len() implies !deleted_later()(
            #[trigger] before[i],
            made,
        ) by {
            assert(before[at as int] == listed@[at as int]@);
            if i > at {
                assert(!deleted_later()(before[i], before[at as int]));
            }
        }
        lemma_insert_in_order(before, deleted_later(), at as int, made);
    }
    listed.insert(at, entry);
    assert(views(listed@) =~= before.insert(at as int, made));
}

/// Puts an entry where its path belongs.
fn insert_by_path(listed: &mut Vec<TrashedFile>, entry: TrashedFile)
    requires
        in_order(views(old(listed)@), by_path()),
    ensures
        in_order(views(final(listed)@), by_path()),
        views(final(listed)@).to_multiset() == views(old(listed)@).to_multiset().insert(entry@),
{
    let ghost before = views(listed@);
    let ghost made = entry@;
    let mut at: usize = 0;
    while at < listed.len() && !str_less(entry.path.as_str(), listed[at].path.as_str())
        invariant
            at <= listed@.len(),
            before == views(listed@),
            made == entry@,
            forall|i: int| 0 <= i < at ==> !by_path()(made, #[trigger] before[i]),
        decreases listed@.len() - at,
    {
        assert(before[at as int] == listed@[at as int]@);
        at += 1;
    }
    proof {
        assert forall|i: int| at <= i < before.len() implies !by_path()(
            #[trigger] before[i],
            made,
        ) by {
            assert(before[at as int] == listed@[at as int]@);
            if text_lt(before[i].path, made.path) {
                if i > at {
                    lemma_text_chain(before[i].path, made.path, before[at as int].path);
                    assert(!by_path()(before[i], before[at as int]));
                } else {
                    lemma_text_order(before[i].path, made.path);
                }
            }
        }
        lemma_insert_in_order(before, by_path(), at as int, made);
    }
    listed.insert(at, entry);
    assert(views(listed@) =~= before.insert(at as int, made));
}

} // verus!
