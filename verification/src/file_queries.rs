//! Reading the file index: records, listings, retained versions.

use vstd::prelude::*;

use crate::error::{texts, Failure, SyncSqliteError};
use crate::file_rows::{
    copy_blocks, is_at, is_history, same_path, BlockInfo, FileEntry, FileIndex, FileIndexRepository,
    FileRecord, FileRow, Version,
};
use crate::file_upsert::{current, has_room};
use crate::index_vocabulary::{RecordKind, VersionState};
use crate::root_counter::touched_if;
use crate::rows::{any, lemma_filter_members, lemma_filter_take_next, views};
use crate::text::{join, join3, str_eq};

verus! {

/// The failure of a block list that does not read.
pub open spec fn corrupt_blocks(path: Seq<char>, error: Seq<char>) -> Failure {
    Failure::CorruptState("stored block list for "@ + path + " is corrupt: "@ + error)
}

/// The error of a block list that does not read.
pub fn corrupt_blocks_error(path: &str, error: &str) -> (failure: SyncSqliteError)
    ensures
        failure@ == corrupt_blocks(path@, error@),
{
    let start = join3("stored block list for ", path, " is corrupt: ");
    SyncSqliteError::CorruptState(join(start.as_str(), error))
}

/// The record a row reads as.
pub open spec fn entry_of(row: Version) -> Result<FileEntry, Failure> {
    match row.blocks {
        Ok(blocks) => Ok(
            FileEntry {
                path: row.path,
                size: row.size,
                mtime: row.mtime,
                blocks,
                deleted: row.deleted,
            },
        ),
        Err(error) => Err(corrupt_blocks(row.path, error)),
    }
}

/// Reads a record out of its columns. A block list that does not parse fails
/// closed.
pub fn row_to_record(
    path: String,
    size: u64,
    mtime_unix_nanos: i64,
    blocks: &Result<Vec<BlockInfo>, String>,
    deleted: bool,
) -> (result: Result<FileRecord, SyncSqliteError>)
    ensures
        match *blocks {
            Ok(list) => result is Ok && result->Ok_0@ == (FileEntry {
                path: path@,
                size,
                mtime: mtime_unix_nanos as int,
                blocks: views(list@),
                deleted,
            }),
            Err(error) => result is Err && result->Err_0@ == corrupt_blocks(path@, error@),
        },
{
    match blocks {
        Ok(list) => Ok(
            FileRecord { path, size, mtime_unix_nanos, blocks: copy_blocks(list), deleted },
        ),
        Err(error) => Err(corrupt_blocks_error(path.as_str(), error.as_str())),
    }
}

impl FileRow {
    /// The record the row reads as.
    pub fn record(&self) -> (result: Result<FileRecord, SyncSqliteError>)
        ensures
            match entry_of(self@) {
                Ok(entry) => result is Ok && result->Ok_0@ == entry,
                Err(failure) => result is Err && result->Err_0@ == failure,
            },
    {
        row_to_record(
            self.path.clone(),
            self.size,
            self.mtime_unix_nanos,
            &self.blocks,
            self.deleted,
        )
    }

    /// Whether the row is a current version.
    pub fn is_current(&self) -> (is: bool)
        ensures
            is == (self.state is Current),
    {
        match self.state {
            VersionState::Current => true,
            _ => false,
        }
    }
}

/// The record of a path's current version.
pub open spec fn file_at(rows: Seq<Version>, group: Seq<char>, path: Seq<char>) -> Result<
    Option<FileEntry>,
    Failure,
> {
    match current(rows, group, path) {
        None => Ok(None),
        Some(row) => match entry_of(row) {
            Ok(entry) => Ok(Some(entry)),
            Err(failure) => Err(failure),
        },
    }
}

/// Reading a path's record answers so.
pub open spec fn file_read(
    found: Result<Option<FileEntry>, Failure>,
    result: Result<Option<FileRecord>, SyncSqliteError>,
) -> bool {
    match found {
        Ok(None) => result is Ok && result->Ok_0 is None,
        Ok(Some(entry)) => result is Ok && (result->Ok_0 matches Some(record) && record@ == entry),
        Err(failure) => result is Err && result->Err_0@ == failure,
    }
}

/// The records rows read as, or the first failure.
pub open spec fn read_all(rows: Seq<Version>) -> Result<Seq<FileEntry>, Failure>
    decreases rows.len(),
{
    if rows.len() == 0 {
        Ok(Seq::empty())
    } else {
        match read_all(rows.drop_last()) {
            Err(failure) => Err(failure),
            Ok(entries) => match entry_of(rows.last()) {
                Err(failure) => Err(failure),
                Ok(entry) => Ok(entries.push(entry)),
            },
        }
    }
}

/// Reading a list of records answers so.
pub open spec fn files_read(
    found: Result<Seq<FileEntry>, Failure>,
    result: Result<Vec<FileRecord>, SyncSqliteError>,
) -> bool {
    match found {
        Ok(entries) => result is Ok && views(result->Ok_0@) == entries,
        Err(failure) => result is Err && result->Err_0@ == failure,
    }
}

/// A failure among the first rows fails the whole listing.
proof fn lemma_read_all_fails_early(rows: Seq<Version>, pred: spec_fn(Version) -> bool, i: int)
    requires
        0 <= i <= rows.len(),
        read_all(rows.take(i).filter(pred)) is Err,
    ensures
        read_all(rows.filter(pred)) == read_all(rows.take(i).filter(pred)),
    decreases rows.len() - i,
{
    if i == rows.len() {
        assert(rows.take(i) =~= rows);
    } else {
        lemma_filter_take_next(rows, pred, i);
        let so_far = rows.take(i).filter(pred);
        if pred(rows[i]) {
            assert(so_far.push(rows[i]).drop_last() =~= so_far);
        }
        lemma_read_all_fails_early(rows, pred, i + 1);
    }
}

/// The row is a current version of the group.
pub open spec fn is_current_in(group: Seq<char>) -> spec_fn(Version) -> bool {
    |row: Version| row.group == group && row.state is Current
}

/// The row is a current version of the group that still holds something.
pub open spec fn is_live_in(group: Seq<char>) -> spec_fn(Version) -> bool {
    |row: Version| row.group == group && row.state is Current && !row.deleted
}

/// The row is the current version of one of the paths.
pub open spec fn is_current_among(group: Seq<char>, paths: Seq<Seq<char>>) -> spec_fn(
    Version,
) -> bool {
    |row: Version| row.group == group && row.state is Current && paths.contains(row.path)
}

/// Whether the list holds the text.
pub fn holds_text(list: &[String], text: &str) -> (holds: bool)
    ensures
        holds == texts(list@).contains(text@),
{
    let ghost all = texts(list@);
    let mut i: usize = 0;
    while i < list.len()
        invariant
            i <= list@.len(),
            all == texts(list@),
            forall|j: int| 0 <= j < i ==> #[trigger] all[j] != text@,
        decreases list@.len() - i,
    {
        assert(all[i as int] == list@[i as int]@);
        if str_eq(list[i].as_str(), text) {
            return true;
        }
        i += 1;
    }
    false
}

impl FileIndexRepository {
    /// The record of a path's current version.
    pub fn get_file(&self, group_id: &str, path: &str) -> (result: Result<
        Option<FileRecord>,
        SyncSqliteError,
    >)
        ensures
            file_read(file_at(self@.files, group_id@, path@), result),
    {
        match self.current_position(group_id, path) {
            None => Ok(None),
            Some(i) => {
                assert(self@.files[i as int] == self.files@[i as int]@);
                match self.files[i].record() {
                    Ok(record) => Ok(Some(record)),
                    Err(error) => Err(error),
                }
            },
        }
    }

    /// Every column of a path's current version, as one read.
    pub fn canonical_current_row(&self, group_id: &str, path: &str) -> (found: Option<FileRow>)
        ensures
            match found {
                Some(row) => current(self@.files, group_id@, path@) == Some(row@),
                None => current(self@.files, group_id@, path@) is None,
            },
    {
        match self.current_position(group_id, path) {
            None => None,
            Some(i) => {
                assert(self@.files[i as int] == self.files@[i as int]@);
                Some(self.files[i].copy())
            },
        }
    }

    /// The records of the group's current versions, tombstones too.
    pub fn list_files(&self, group_id: &str) -> (result: Result<Vec<FileRecord>, SyncSqliteError>)
        ensures
            files_read(read_all(self@.files.filter(is_current_in(group_id@))), result),
    {
        let ghost rows = self@.files;
        let ghost pred = is_current_in(group_id@);
        let mut out: Vec<FileRecord> = Vec::new();
        let mut i: usize = 0;
        assert(rows.take(0).filter(pred) =~= Seq::empty());
        assert(views(out@) =~= Seq::empty());
        while i < self.files.len()
            invariant
                i <= self.files@.len(),
                rows == self@.files,
                pred == is_current_in(group_id@),
                read_all(rows.take(i as int).filter(pred)) is Ok,
                read_all(rows.take(i as int).filter(pred))->Ok_0 == views(out@),
            decreases self.files@.len() - i,
        {
            assert(rows[i as int] == self.files@[i as int]@);
            let ghost so_far = rows.take(i as int).filter(pred);
            proof {
                lemma_filter_take_next(rows, pred, i as int);
                assert(so_far.push(rows[i as int]).drop_last() =~= so_far);
            }
            if self.files[i].is_current() && str_eq(self.files[i].group_id.as_str(), group_id) {
                let ghost before = views(out@);
                match self.files[i].record() {
                    Ok(record) => {
                        out.push(record);
                        assert(views(out@) =~= before.push(record@));
                    },
                    Err(error) => {
                        proof {
                            lemma_read_all_fails_early(rows, pred, i + 1);
                        }
                        return Err(error);
                    },
                }
            }
            i += 1;
        }
        assert(rows.take(rows.len() as int) =~= rows);
        Ok(out)
    }

    /// The records of the group's current versions, each with its kind.
    pub fn list_files_with_kind(&self, group_id: &str) -> (result: Result<
        Vec<(FileRecord, RecordKind)>,
        SyncSqliteError,
    >)
        ensures
            match read_all(self@.files.filter(is_current_in(group_id@))) {
                Ok(entries) => {
                    &&& result is Ok
                    &&& result->Ok_0@.len() == entries.len()
                    &&& forall|k: int|
                        #![trigger result->Ok_0@[k]]
                        0 <= k < entries.len() ==> {
                            let listed = result->Ok_0@[k];
                            listed.0@ == entries[k] && listed.1 == self@.files.filter(
                                is_current_in(group_id@),
                            )[k].kind
                        }
                },
                Err(failure) => result is Err && result->Err_0@ == failure,
            },
    {
        let ghost rows = self@.files;
        let ghost pred = is_current_in(group_id@);
        let mut out: Vec<(FileRecord, RecordKind)> = Vec::new();
        let mut i: usize = 0;
        assert(rows.take(0).filter(pred) =~= Seq::empty());
        while i < self.files.len()
            invariant
                i <= self.files@.len(),
                rows == self@.files,
                pred == is_current_in(group_id@),
                read_all(rows.take(i as int).filter(pred)) is Ok,
                read_all(rows.take(i as int).filter(pred))->Ok_0.len() == out@.len(),
                rows.take(i as int).filter(pred).len() == out@.len(),
                forall|k: int|
                    #![trigger out@[k]]
                    0 <= k < out@.len() ==> {
                        let listed = out@[k];
                        listed.0@ == read_all(rows.take(i as int).filter(pred))->Ok_0[k]
                            && listed.1 == rows.take(i as int).filter(pred)[k].kind
                    },
            decreases self.files@.len() - i,
        {
            assert(rows[i as int] == self.files@[i as int]@);
            let ghost so_far = rows.take(i as int).filter(pred);
            proof {
                lemma_filter_take_next(rows, pred, i as int);
                assert(so_far.push(rows[i as int]).drop_last() =~= so_far);
            }
            if self.files[i].is_current() && str_eq(self.files[i].group_id.as_str(), group_id) {
                match self.files[i].record() {
                    Ok(record) => {
                        out.push((record, self.files[i].record_kind));
                    },
                    Err(error) => {
                        proof {
                            lemma_read_all_fails_early(rows, pred, i + 1);
                        }
                        return Err(error);
                    },
                }
            }
            i += 1;
        }
        assert(rows.take(rows.len() as int) =~= rows);
        Ok(out)
    }

    /// The records of the current versions of the given paths, in table order.
    pub fn get_files_by_paths(&self, group_id: &str, paths: &[String]) -> (result: Result<
        Vec<FileRecord>,
        SyncSqliteError,
    >)
        ensures
            files_read(
                read_all(self@.files.filter(is_current_among(group_id@, texts(paths@)))),
                result,
            ),
    {
        let ghost rows = self@.files;
        let ghost pred = is_current_among(group_id@, texts(paths@));
        let mut out: Vec<FileRecord> = Vec::new();
        let mut i: usize = 0;
        assert(rows.take(0).filter(pred) =~= Seq::empty());
        assert(views(out@) =~= Seq::empty());
        while i < self.files.len()
            invariant
                i <= self.files@.len(),
                rows == self@.files,
                pred == is_current_among(group_id@, texts(paths@)),
                read_all(rows.take(i as int).filter(pred)) is Ok,
                read_all(rows.take(i as int).filter(pred))->Ok_0 == views(out@),
            decreases self.files@.len() - i,
        {
            assert(rows[i as int] == self.files@[i as int]@);
            let ghost so_far = rows.take(i as int).filter(pred);
            proof {
                lemma_filter_take_next(rows, pred, i as int);
                assert(so_far.push(rows[i as int]).drop_last() =~= so_far);
            }
            if self.files[i].is_current() && str_eq(self.files[i].group_id.as_str(), group_id)
                && holds_text(paths, self.files[i].path.as_str()) {
                let ghost before = views(out@);
                match self.files[i].record() {
                    Ok(record) => {
                        out.push(record);
                        assert(views(out@) =~= before.push(record@));
                    },
                    Err(error) => {
                        proof {
                            lemma_read_all_fails_early(rows, pred, i + 1);
                        }
                        return Err(error);
                    },
                }
            }
            i += 1;
        }
        assert(rows.take(rows.len() as int) =~= rows);
        Ok(out)
    }

    /// How many current versions of the group still hold something.
    pub fn count_live_files(&self, group_id: &str) -> (count: u64)
        ensures
            count == self@.files.filter(is_live_in(group_id@)).len(),
    {
        let ghost rows = self@.files;
        let ghost pred = is_live_in(group_id@);
        let mut count: u64 = 0;
        let mut i: usize = 0;
        assert(rows.take(0).filter(pred) =~= Seq::empty());
        while i < self.files.len()
            invariant
                i <= self.files@.len(),
                rows == self@.files,
                pred == is_live_in(group_id@),
                count <= i,
                count == rows.take(i as int).filter(pred).len(),
            decreases self.files@.len() - i,
        {
            assert(rows[i as int] == self.files@[i as int]@);
            proof {
                lemma_filter_take_next(rows, pred, i as int);
            }
            if self.files[i].is_current() && !self.files[i].deleted && str_eq(
                self.files[i].group_id.as_str(),
                group_id,
            ) {
                count = count + 1;
            }
            i += 1;
        }
        assert(rows.take(rows.len() as int) =~= rows);
        count
    }

    /// The paths of the group's current versions that no known change
    /// authored, in table order.
    pub fn list_unauthored_current_paths(&self, group_id: &str) -> (paths: Vec<String>)
        ensures
            texts(paths@) == self@.files.filter(is_unauthored_in(self@, group_id@)).map_values(
                |row: Version| row.path,
            ),
    {
        let ghost rows = self@.files;
        let ghost pred = is_unauthored_in(self@, group_id@);
        let mut paths: Vec<String> = Vec::new();
        let mut i: usize = 0;
        assert(rows.take(0).filter(pred) =~= Seq::empty());
        assert(texts(paths@) =~= rows.take(0).filter(pred).map_values(|row: Version| row.path));
        while i < self.files.len()
            invariant
                i <= self.files@.len(),
                rows == self@.files,
                pred == is_unauthored_in(self@, group_id@),
                texts(paths@) == rows.take(i as int).filter(pred).map_values(
                    |row: Version| row.path,
                ),
            decreases self.files@.len() - i,
        {
            assert(rows[i as int] == self.files@[i as int]@);
            proof {
                lemma_filter_take_next(rows, pred, i as int);
            }
            if self.files[i].is_current() && self.files[i].version_seq > 0 && str_eq(
                self.files[i].group_id.as_str(),
                group_id,
            ) && !self.changes.verifies(group_id, &self.files[i].authoring_change_hash) {
                let ghost before = texts(paths@);
                paths.push(self.files[i].path.clone());
                assert(texts(paths@) =~= before.push(rows[i as int].path));
                assert(texts(paths@) =~= rows.take(i + 1).filter(pred).map_values(
                    |row: Version| row.path,
                ));
            }
            i += 1;
        }
        assert(rows.take(rows.len() as int) =~= rows);
        paths
    }

    /// Erases every version of a path, and says whether there was one.
    pub fn remove_file(&mut self, group_id: &str, path: &str) -> (removed: bool)
        requires
            is_history(old(self)@.files),
        ensures
            is_history(final(self)@.files),
            final(self)@ == touched_if(
                FileIndex {
                    files: old(self)@.files.filter(is_not_at(group_id@, path@)),
                    ..old(self)@
                },
                group_id@,
                any(old(self)@.files, is_at(group_id@, path@)),
            ),
            removed == any(old(self)@.files, is_at(group_id@, path@)),
    {
        let ghost rows = self@.files;
        let ghost before = self@;
        let ghost pred = is_not_at(group_id@, path@);
        let ghost all = self.files@;
        let mut removed: bool = false;
        let mut i: usize = 0;
        let ghost mut k: int = 0;
        assert(rows.take(0).filter(pred) =~= Seq::empty());
        assert(views(self.files@.take(0)) =~= Seq::empty());
        while i < self.files.len()
            invariant
                0 <= k <= all.len(),
                i <= self.files@.len(),
                rows == views(all),
                self.files@.skip(i as int) == all.skip(k),
                pred == is_not_at(group_id@, path@),
                views(self.files@.take(i as int)) == rows.take(k).filter(pred),
                removed == any(rows.take(k), is_at(group_id@, path@)),
                self@.pins == before.pins,
                self@.proofs == before.proofs,
                self@.captures == before.captures,
                self@.changes == before.changes,
                self@.generations == before.generations,
            decreases self.files@.len() - i,
        {
            let ghost earlier = rows.take(k);
            let ghost files = self.files@;
            proof {
                assert(files.skip(i as int).len() > 0);
                assert(k < all.len());
                assert(files[i as int] == files.skip(i as int)[0]);
                assert(all.skip(k)[0] == all[k]);
                assert(rows[k] == files[i as int]@);
                lemma_filter_take_next(rows, pred, k);
                assert(rows.take(k + 1) =~= earlier.push(rows[k]));
            }
            let here: bool = str_eq(self.files[i].group_id.as_str(), group_id) && str_eq(
                self.files[i].path.as_str(),
                path,
            );
            proof {
                let next = rows.take(k + 1);
                if any(earlier, is_at(group_id@, path@)) {
                    let m = choose|m: int|
                        #![trigger earlier[m]]
                        0 <= m < earlier.len() && is_at(group_id@, path@)(earlier[m]);
                    assert(next[m] == earlier[m]);
                }
                if here {
                    assert(next[k] == rows[k]);
                }
                if any(next, is_at(group_id@, path@)) && !here {
                    let m = choose|m: int|
                        #![trigger next[m]]
                        0 <= m < next.len() && is_at(group_id@, path@)(next[m]);
                    assert(m < k);
                    assert(earlier[m] == next[m]);
                }
            }
            if here {
                self.files.remove(i);
                removed = true;
                assert(self.files@.take(i as int) =~= files.take(i as int));
                assert(self.files@.skip(i as int) =~= files.skip(i as int).skip(1));
            } else {
                assert(files.take(i + 1) =~= files.take(i as int).push(files[i as int]));
                assert(views(files.take(i + 1)) =~= views(files.take(i as int)).push(
                    files[i as int]@,
                ));
                assert(files.skip(i + 1) =~= files.skip(i as int).skip(1));
                i += 1;
            }
            assert(all.skip(k).skip(1) =~= all.skip(k + 1));
            proof {
                k = k + 1;
            }
        }
        proof {
            assert(self.files@.skip(i as int).len() == 0);
            assert(all.skip(k).len() == 0);
            assert(rows.take(k) =~= rows);
            assert(self.files@.take(i as int) =~= self.files@);
            lemma_filtered_history(rows, pred, 0);
        }
        if removed {
            self.raise_counter(group_id);
        }
        removed
    }
}

/// The row is a current version of the group that no known change authored.
pub open spec fn is_unauthored_in(index: FileIndex, group: Seq<char>) -> spec_fn(Version) -> bool {
    |row: Version| row.group == group && index.changes.unauthored(row)
}

/// The row is no version of that path.
pub open spec fn is_not_at(group: Seq<char>, path: Seq<char>) -> spec_fn(Version) -> bool {
    |row: Version| !(row.group == group && row.path == path)
}

/// Deleting rows keeps a history well formed.
pub proof fn lemma_filtered_history(rows: Seq<Version>, pred: spec_fn(Version) -> bool, n: int)
    requires
        is_history(rows),
    ensures
        is_history(rows.filter(pred)),
        has_room(rows, n) ==> has_room(rows.filter(pred), n),
    decreases rows.len(),
{
    reveal(Seq::filter);
    if rows.len() > 0 {
        let shorter = rows.drop_last();
        let last = rows.last();
        assert forall|i: int, j: int|
            #![trigger shorter[i], shorter[j]]
            0 <= i < shorter.len() && 0 <= j < shorter.len() && i != j && same_path(
                shorter[i],
                shorter[j],
            ) implies {
            &&& shorter[i].seq != shorter[j].seq
            &&& shorter[i].state is Current ==> !(shorter[j].state is Current)
            &&& shorter[i].state is Current && shorter[i].seq > 0 ==> shorter[j].seq
                < shorter[i].seq
        } by {
            assert(same_path(rows[i], rows[j]));
        }
        assert forall|i: int| #![trigger shorter[i]] 0 <= i < shorter.len() implies shorter[i].seq
            >= 0 && (shorter[i].seq == 0 ==> shorter[i].state is Current) by {
            assert(rows[i] == shorter[i]);
        }
        lemma_filtered_history(shorter, pred, n);
        let kept = shorter.filter(pred);
        let all = rows.filter(pred);
        if has_room(rows, n) {
            assert forall|i: int| #![trigger shorter[i]] 0 <= i < shorter.len() implies
                shorter[i].seq + n <= i64::MAX by {
                assert(rows[i] == shorter[i]);
            }
        }
        if pred(last) {
            assert(all =~= kept.push(last));
            assert(rows[rows.len() - 1] == last);
            assert forall|i: int| #![trigger kept[i]] 0 <= i < kept.len() && same_path(
                kept[i],
                last,
            ) implies {
                &&& kept[i].seq != last.seq
                &&& kept[i].state is Current ==> !(last.state is Current)
                &&& kept[i].state is Current && kept[i].seq > 0 ==> last.seq < kept[i].seq
                &&& last.state is Current && last.seq > 0 ==> kept[i].seq < last.seq
            } by {
                lemma_filter_members(shorter, pred, kept[i]);
                assert(kept.contains(kept[i]));
                let k = choose|k: int| 0 <= k < shorter.len() && shorter[k] == kept[i];
                assert(rows[k] == kept[i]);
                assert(same_path(rows[k], rows[rows.len() - 1]));
                assert(same_path(rows[rows.len() - 1], rows[k]));
            }
            assert forall|i: int, j: int|
                #![trigger all[i], all[j]]
                0 <= i < all.len() && 0 <= j < all.len() && i != j && same_path(
                    all[i],
                    all[j],
                ) implies {
                &&& all[i].seq != all[j].seq
                &&& all[i].state is Current ==> !(all[j].state is Current)
                &&& all[i].state is Current && all[i].seq > 0 ==> all[j].seq < all[i].seq
            } by {
                if i < kept.len() && j < kept.len() {
                    assert(all[i] == kept[i] && all[j] == kept[j]);
                } else if i < kept.len() {
                    assert(all[i] == kept[i]);
                } else {
                    assert(all[j] == kept[j]);
                }
            }
        } else {
            assert(all =~= kept);
        }
    }
}

} // verus!
