//! Retained versions of a path, and how long they are retained.

use vstd::prelude::*;

use crate::error::{Failure, SyncSqliteError};
use crate::file_metadata::{
    attributes, decode_unix_mode_column, decode_xattrs_column, stored_attributes, stored_mode,
};
use crate::file_queries::{corrupt_blocks, corrupt_blocks_error, lemma_filtered_history};
use crate::file_rows::{
    copy_blocks, copy_stored_blocks, is_history, same_path, stored_blocks, Block, BlockInfo,
    FileIndex, FileIndexRepository, Version,
};
use crate::index_vocabulary::{RecordKind, VersionState};
use crate::root_counter::touched_if;
use crate::rows::{
    first_where, lemma_filter_take_next, lemma_first_where_at, lemma_first_where_none, views,
};
use crate::text::{copy_opt_str, join3, quoted, quoted_text, str_eq};
use crate::transaction_rows::{copy_bytes, copy_opt_bytes, opt_bytes, opt_text};

verus! {

/// A retained version of a path. Its hash is computed from these fields by the
/// domain that defines file versions.
#[derive(Debug, PartialEq, Eq)]
pub struct VersionRecord {
    pub path: String,
    pub version_seq: i64,
    pub size: u64,
    pub mtime_unix_nanos: i64,
    pub blocks: Vec<BlockInfo>,
    pub deleted: bool,
    pub state: VersionState,
    pub origin_device_id: Option<String>,
    pub record_kind: RecordKind,
    pub symlink_target: Option<Vec<u8>>,
    pub unix_mode: Option<u32>,
    pub xattrs: Vec<(String, Vec<u8>)>,
}

/// The model of a [`VersionRecord`].
pub struct VersionEntry {
    pub path: Seq<char>,
    pub seq: int,
    pub size: u64,
    pub mtime: int,
    pub blocks: Seq<Block>,
    pub deleted: bool,
    pub state: VersionState,
    pub origin: Option<Seq<char>>,
    pub kind: RecordKind,
    pub symlink_target: Option<Seq<u8>>,
    pub unix_mode: Option<u32>,
    pub xattrs: Seq<(Seq<char>, Seq<u8>)>,
}

impl View for VersionRecord {
    type V = VersionEntry;

    open spec fn view(&self) -> VersionEntry {
        VersionEntry {
            path: self.path@,
            seq: self.version_seq as int,
            size: self.size,
            mtime: self.mtime_unix_nanos as int,
            blocks: views(self.blocks@),
            deleted: self.deleted,
            state: self.state,
            origin: opt_text(self.origin_device_id),
            kind: self.record_kind,
            symlink_target: opt_bytes(self.symlink_target),
            unix_mode: self.unix_mode,
            xattrs: attributes(self.xattrs@),
        }
    }
}

/// Copies an attribute list.
pub fn copy_xattrs(xattrs: &Vec<(String, Vec<u8>)>) -> (copy: Vec<(String, Vec<u8>)>)
    ensures
        attributes(copy@) == attributes(xattrs@),
{
    let mut copy: Vec<(String, Vec<u8>)> = Vec::new();
    let mut i: usize = 0;
    while i < xattrs.len()
        invariant
            i <= xattrs@.len(),
            attributes(copy@) == attributes(xattrs@).take(i as int),
        decreases xattrs@.len() - i,
    {
        let ghost so_far = attributes(copy@);
        let ghost next = (xattrs@[i as int].0@, xattrs@[i as int].1@);
        let pair = (xattrs[i].0.clone(), copy_bytes(&xattrs[i].1));
        copy.push(pair);
        assert(attributes(copy@) =~= so_far.push(next));
        assert(attributes(xattrs@).take(i + 1) =~= attributes(xattrs@).take(i as int).push(next));
        i += 1;
    }
    assert(attributes(xattrs@).take(xattrs@.len() as int) =~= attributes(xattrs@));
    copy
}

impl VersionRecord {
    /// A copy of the record.
    pub fn copy(&self) -> (copy: Self)
        ensures
            copy@ == self@,
    {
        VersionRecord {
            path: self.path.clone(),
            version_seq: self.version_seq,
            size: self.size,
            mtime_unix_nanos: self.mtime_unix_nanos,
            blocks: copy_blocks(&self.blocks),
            deleted: self.deleted,
            state: self.state,
            origin_device_id: copy_opt_str(&self.origin_device_id),
            record_kind: self.record_kind,
            symlink_target: copy_opt_bytes(&self.symlink_target),
            unix_mode: self.unix_mode,
            xattrs: copy_xattrs(&self.xattrs),
        }
    }
}

/// The columns of a retained version as the table stores them.
#[derive(Debug, PartialEq, Eq)]
pub struct StoredVersion {
    pub path: String,
    pub version_seq: i64,
    pub size: u64,
    pub mtime_unix_nanos: i64,
    pub blocks: Result<Vec<BlockInfo>, String>,
    pub deleted: i64,
    pub state: String,
    pub origin_device_id: Option<String>,
    pub record_kind: String,
    pub symlink_target: Option<Vec<u8>>,
    pub unix_mode: i64,
    pub xattrs_json: String,
}

/// The version the columns read as, or the first thing wrong with them: a
/// block list or an attribute list that does not parse, or an unknown state.
pub open spec fn read_version(stored: StoredVersion, mask: u32) -> Result<VersionEntry, Failure> {
    match stored_blocks(stored.blocks) {
        Err(error) => Err(corrupt_blocks(stored.path@, error)),
        Ok(blocks) => match stored_attributes(stored.xattrs_json@) {
            Err(failure) => Err(failure),
            Ok(xattrs) => match VersionState::of_stored_name(stored.state@) {
                None => Err(
                    Failure::InvalidInput(
                        stored.path@ + ": unknown version state "@ + quoted(stored.state@),
                    ),
                ),
                Some(state) => Ok(
                    VersionEntry {
                        path: stored.path@,
                        seq: stored.version_seq as int,
                        size: stored.size,
                        mtime: stored.mtime_unix_nanos as int,
                        blocks,
                        deleted: stored.deleted != 0,
                        state,
                        origin: opt_text(stored.origin_device_id),
                        kind: RecordKind::of_stored_name(stored.record_kind@),
                        symlink_target: opt_bytes(stored.symlink_target),
                        unix_mode: stored_mode(stored.unix_mode as int, mask),
                        xattrs,
                    },
                ),
            },
        },
    }
}

/// Reads a retained version out of its columns, failing closed on anything
/// that does not read.
pub fn version_record(stored: StoredVersion, mask: u32) -> (result: Result<
    VersionRecord,
    SyncSqliteError,
>)
    ensures
        match read_version(stored, mask) {
            Ok(entry) => result is Ok && result->Ok_0@ == entry,
            Err(failure) => result is Err && result->Err_0@ == failure,
        },
{
    let blocks = match stored.blocks {
        Ok(blocks) => blocks,
        Err(error) => {
            return Err(corrupt_blocks_error(stored.path.as_str(), error.as_str()));
        },
    };
    let xattrs = match decode_xattrs_column(stored.xattrs_json.as_str()) {
        Ok(xattrs) => xattrs,
        Err(error) => {
            return Err(error);
        },
    };
    let state = match VersionState::try_from_db_str(stored.state.as_str()) {
        Some(state) => state,
        None => {
            return Err(
                SyncSqliteError::InvalidInput(
                    join3(
                        stored.path.as_str(),
                        ": unknown version state ",
                        quoted_text(stored.state.as_str()).as_str(),
                    ),
                ),
            );
        },
    };
    Ok(
        VersionRecord {
            path: stored.path,
            version_seq: stored.version_seq,
            size: stored.size,
            mtime_unix_nanos: stored.mtime_unix_nanos,
            blocks,
            deleted: stored.deleted != 0,
            state,
            origin_device_id: stored.origin_device_id,
            record_kind: RecordKind::from_db_str(stored.record_kind.as_str()),
            symlink_target: stored.symlink_target,
            unix_mode: decode_unix_mode_column(stored.unix_mode, mask),
            xattrs,
        },
    )
}

/// The version a row of the index reads as.
pub open spec fn version_of(row: Version, mask: u32) -> Result<VersionEntry, Failure> {
    match row.blocks {
        Err(error) => Err(corrupt_blocks(row.path, error)),
        Ok(blocks) => match stored_attributes(row.xattrs_json) {
            Err(failure) => Err(failure),
            Ok(xattrs) => Ok(
                VersionEntry {
                    path: row.path,
                    seq: row.seq,
                    size: row.size,
                    mtime: row.mtime,
                    blocks,
                    deleted: row.deleted,
                    state: row.state,
                    origin: row.origin,
                    kind: row.kind,
                    symlink_target: row.symlink_target,
                    unix_mode: stored_mode(row.unix_mode, mask),
                    xattrs,
                },
            ),
        },
    }
}

impl crate::file_rows::FileRow {
    /// The version the row reads as.
    pub fn version(&self, mask: u32) -> (result: Result<VersionRecord, SyncSqliteError>)
        ensures
            match version_of(self@, mask) {
                Ok(entry) => result is Ok && result->Ok_0@ == entry,
                Err(failure) => result is Err && result->Err_0@ == failure,
            },
    {
        proof {
            crate::index_vocabulary::law_version_state_name_round_trips(self.state);
            crate::index_vocabulary::law_record_kind_name_round_trips(self.record_kind);
        }
        let deleted: i64 = if self.deleted {
            1
        } else {
            0
        };
        version_record(
            StoredVersion {
                path: self.path.clone(),
                version_seq: self.version_seq,
                size: self.size,
                mtime_unix_nanos: self.mtime_unix_nanos,
                blocks: copy_stored_blocks(&self.blocks),
                deleted,
                state: self.state.as_db_str().to_owned(),
                origin_device_id: copy_opt_str(&self.origin_device_id),
                record_kind: self.record_kind.as_db_str().to_owned(),
                symlink_target: copy_opt_bytes(&self.symlink_target),
                unix_mode: self.unix_mode,
                xattrs_json: self.xattrs_json.clone(),
            },
            mask,
        )
    }
}

/// The row is that version of that path.
pub open spec fn is_version(group: Seq<char>, path: Seq<char>, seq: int) -> spec_fn(
    Version,
) -> bool {
    |row: Version| row.group == group && row.path == path && row.seq == seq
}

/// How many superseded and trashed versions of the row's path are newer.
pub open spec fn newer_retained(rows: Seq<Version>, row: Version) -> nat {
    rows.filter(is_newer_retained(row)).len()
}

/// The row is a superseded or trashed version of the same path, and newer.
pub open spec fn is_newer_retained(row: Version) -> spec_fn(Version) -> bool {
    |other: Version| same_path(other, row) && !(other.state is Current) && other.seq > row.seq
}

/// How many superseded and trashed versions of a path are always retained.
pub const RETENTION_MAX_VERSIONS: i64 = 10;

/// For how many days a superseded or trashed version is always retained.
pub const RETENTION_MAX_AGE_DAYS: i64 = 30;

/// [`RETENTION_MAX_AGE_DAYS`] in nanoseconds.
pub const RETENTION_MAX_AGE_NANOS: i64 = 2_592_000_000_000_000;

/// The time before which a version is old, held within the clock's range.
pub open spec fn age_cutoff(now: int) -> int {
    if now - RETENTION_MAX_AGE_NANOS < i64::MIN {
        i64::MIN as int
    } else {
        now - RETENTION_MAX_AGE_NANOS
    }
}

/// The keys of pinned versions.
pub open spec fn pin_keys(pinned: Seq<(String, i64)>) -> Seq<(Seq<char>, int)> {
    pinned.map_values(|key: (String, i64)| (key.0@, key.1 as int))
}

/// The version is expired: superseded or trashed, beyond both retention
/// bounds, and not pinned.
pub open spec fn is_expired(
    rows: Seq<Version>,
    group: Seq<char>,
    now: int,
    pinned: Seq<(Seq<char>, int)>,
) -> spec_fn(Version) -> bool {
    |row: Version|
        {
            &&& row.group == group
            &&& !(row.state is Current)
            &&& newer_retained(rows, row) >= RETENTION_MAX_VERSIONS
            &&& row.mtime < age_cutoff(now)
            &&& !pinned.contains((row.path, row.seq))
        }
}

/// The version is not expired.
pub open spec fn is_retained(
    rows: Seq<Version>,
    group: Seq<char>,
    now: int,
    pinned: Seq<(Seq<char>, int)>,
) -> spec_fn(Version) -> bool {
    |row: Version| !is_expired(rows, group, now, pinned)(row)
}

/// A version is kept while it is within either retention bound, and always
/// while it is current or pinned: expiry takes nothing that is current, among
/// its path's newest retained versions, young, or pinned, and nothing of
/// another group.
pub proof fn law_retention_keeps_what_either_bound_covers(
    rows: Seq<Version>,
    group: Seq<char>,
    now: int,
    pinned: Seq<(Seq<char>, int)>,
    row: Version,
)
    requires
        rows.contains(row),
        row.group != group || row.state is Current || newer_retained(rows, row)
            < RETENTION_MAX_VERSIONS || row.mtime >= age_cutoff(now) || pinned.contains(
            (row.path, row.seq),
        ),
    ensures
        rows.filter(is_retained(rows, group, now, pinned)).contains(row),
{
    crate::rows::lemma_filter_members(rows, is_retained(rows, group, now, pinned), row);
}

/// A version beyond both bounds, neither current nor pinned, is gone after
/// expiry.
pub proof fn law_expiry_removes_what_is_beyond_both_bounds(
    rows: Seq<Version>,
    group: Seq<char>,
    now: int,
    pinned: Seq<(Seq<char>, int)>,
    row: Version,
)
    requires
        row.group == group,
        !(row.state is Current),
        newer_retained(rows, row) >= RETENTION_MAX_VERSIONS,
        row.mtime < age_cutoff(now),
        !pinned.contains((row.path, row.seq)),
    ensures
        !rows.filter(is_retained(rows, group, now, pinned)).contains(row),
{
    crate::rows::lemma_filter_members(rows, is_retained(rows, group, now, pinned), row);
}

/// Whether the list holds the key.
fn holds_key(pinned: &[(String, i64)], path: &str, seq: i64) -> (holds: bool)
    ensures
        holds == pin_keys(pinned@).contains((path@, seq as int)),
{
    let ghost keys = pin_keys(pinned@);
    let mut i: usize = 0;
    while i < pinned.len()
        invariant
            i <= pinned@.len(),
            keys == pin_keys(pinned@),
            forall|j: int| 0 <= j < i ==> #[trigger] keys[j] != (path@, seq as int),
        decreases pinned@.len() - i,
    {
        assert(keys[i as int] == (pinned@[i as int].0@, pinned@[i as int].1 as int));
        if pinned[i].1 == seq && str_eq(pinned[i].0.as_str(), path) {
            assert(keys[i as int] == (path@, seq as int));
            return true;
        }
        i += 1;
    }
    false
}

impl FileIndexRepository {
    /// One retained version of a path.
    pub fn get_version(&self, group_id: &str, path: &str, version_seq: i64, mask: u32) -> (result:
        Result<Option<VersionRecord>, SyncSqliteError>)
        ensures
            match first_where(self@.files, is_version(group_id@, path@, version_seq as int)) {
                None => result is Ok && result->Ok_0 is None,
                Some(row) => match version_of(row, mask) {
                    Ok(entry) => result is Ok && (result->Ok_0 matches Some(record) && record@
                        == entry),
                    Err(failure) => result is Err && result->Err_0@ == failure,
                },
            },
    {
        let ghost rows = self@.files;
        let ghost pred = is_version(group_id@, path@, version_seq as int);
        let mut i: usize = 0;
        while i < self.files.len()
            invariant
                i <= self.files@.len(),
                rows == self@.files,
                pred == is_version(group_id@, path@, version_seq as int),
                forall|j: int| 0 <= j < i ==> !pred(#[trigger] rows[j]),
            decreases self.files@.len() - i,
        {
            assert(rows[i as int] == self.files@[i as int]@);
            if self.files[i].version_seq == version_seq && str_eq(
                self.files[i].group_id.as_str(),
                group_id,
            ) && str_eq(self.files[i].path.as_str(), path) {
                proof {
                    lemma_first_where_at(rows, pred, i as int);
                }
                return match self.files[i].version(mask) {
                    Ok(record) => Ok(Some(record)),
                    Err(error) => Err(error),
                };
            }
            i += 1;
        }
        proof {
            lemma_first_where_none(rows, pred);
        }
        Ok(None)
    }

    /// Whether at least [`RETENTION_MAX_VERSIONS`] superseded or trashed
    /// versions of the row's path are newer than the row.
    fn is_outnumbered(&self, at: usize) -> (outnumbered: bool)
        requires
            at < self.files@.len(),
        ensures
            outnumbered == (newer_retained(self@.files, self@.files[at as int])
                >= RETENTION_MAX_VERSIONS),
    {
        let ghost rows = self@.files;
        let ghost row = rows[at as int];
        let ghost pred = is_newer_retained(row);
        let mut count: usize = 0;
        let mut i: usize = 0;
        assert(rows.take(0).filter(pred) =~= Seq::empty());
        assert(row == self.files@[at as int]@);
        while i < self.files.len()
            invariant
                i <= self.files@.len(),
                at < self.files@.len(),
                rows == self@.files,
                row == self.files@[at as int]@,
                pred == is_newer_retained(row),
                count <= i,
                count == rows.take(i as int).filter(pred).len(),
            decreases self.files@.len() - i,
        {
            assert(rows[i as int] == self.files@[i as int]@);
            proof {
                lemma_filter_take_next(rows, pred, i as int);
            }
            if self.files[i].version_seq > self.files[at].version_seq
                && !self.files[i].is_current() && str_eq(
                self.files[i].group_id.as_str(),
                self.files[at].group_id.as_str(),
            ) && str_eq(self.files[i].path.as_str(), self.files[at].path.as_str()) {
                count = count + 1;
            }
            i += 1;
        }
        assert(rows.take(rows.len() as int) =~= rows);
        count >= RETENTION_MAX_VERSIONS as usize
    }

    /// Removes the expired versions of a group, and says how many there were.
    pub fn expire_superseded_and_trashed_versions(
        &mut self,
        group_id: &str,
        now_unix_nanos: i64,
        pinned: &[(String, i64)],
    ) -> (expired: usize)
        requires
            is_history(old(self)@.files),
        ensures
            is_history(final(self)@.files),
            final(self)@ == touched_if(
                FileIndex {
                    files: old(self)@.files.filter(
                        is_retained(
                            old(self)@.files,
                            group_id@,
                            now_unix_nanos as int,
                            pin_keys(pinned@),
                        ),
                    ),
                    ..old(self)@
                },
                group_id@,
                expired > 0,
            ),
            expired == old(self)@.files.filter(
                is_expired(
                    old(self)@.files,
                    group_id@,
                    now_unix_nanos as int,
                    pin_keys(pinned@),
                ),
            ).len(),
    {
        let ghost rows = self@.files;
        let ghost before = self@;
        let ghost gone = is_expired(rows, group_id@, now_unix_nanos as int, pin_keys(pinned@));
        let ghost kept = is_retained(rows, group_id@, now_unix_nanos as int, pin_keys(pinned@));
        let cutoff: i64 = if now_unix_nanos < i64::MIN + RETENTION_MAX_AGE_NANOS {
            i64::MIN
        } else {
            now_unix_nanos - RETENTION_MAX_AGE_NANOS
        };
        assert(cutoff == age_cutoff(now_unix_nanos as int));
        let mut marks: Vec<bool> = Vec::new();
        let mut i: usize = 0;
        while i < self.files.len()
            invariant
                i <= self.files@.len(),
                rows == self@.files,
                before == self@,
                marks@.len() == i,
                cutoff == age_cutoff(now_unix_nanos as int),
                gone == is_expired(rows, group_id@, now_unix_nanos as int, pin_keys(pinned@)),
                forall|j: int| #![trigger marks@[j]] 0 <= j < i ==> marks@[j] == gone(rows[j]),
            decreases self.files@.len() - i,
        {
            assert(rows[i as int] == self.files@[i as int]@);
            let mark: bool = self.files[i].mtime_unix_nanos < cutoff && !self.files[i].is_current()
                && str_eq(self.files[i].group_id.as_str(), group_id) && !holds_key(
                pinned,
                self.files[i].path.as_str(),
                self.files[i].version_seq,
            ) && self.is_outnumbered(i);
            assert(mark == gone(rows[i as int]));
            marks.push(mark);
            i += 1;
        }
        let ghost all = self.files@;
        let mut expired: usize = 0;
        let mut at: usize = 0;
        let mut k: usize = 0;
        assert(rows.take(0).filter(kept) =~= Seq::empty());
        assert(rows.take(0).filter(gone) =~= Seq::empty());
        assert(views(self.files@.take(0)) =~= Seq::empty());
        while k < marks.len()
            invariant
                k <= marks@.len(),
                marks@.len() == all.len(),
                at <= self.files@.len(),
                rows == views(all),
                self.files@.skip(at as int) == all.skip(k as int),
                gone == is_expired(rows, group_id@, now_unix_nanos as int, pin_keys(pinned@)),
                kept == is_retained(rows, group_id@, now_unix_nanos as int, pin_keys(pinned@)),
                forall|j: int|
                    #![trigger marks@[j]]
                    0 <= j < marks@.len() ==> marks@[j] == gone(rows[j]),
                views(self.files@.take(at as int)) == rows.take(k as int).filter(kept),
                expired <= k,
                expired == rows.take(k as int).filter(gone).len(),
                self@.pins == before.pins,
                self@.proofs == before.proofs,
                self@.captures == before.captures,
                self@.changes == before.changes,
                self@.generations == before.generations,
            decreases marks@.len() - k,
        {
            let ghost files = self.files@;
            proof {
                assert(all.skip(k as int).len() > 0);
                assert(files.skip(at as int).len() > 0);
                assert(files[at as int] == files.skip(at as int)[0]);
                assert(all.skip(k as int)[0] == all[k as int]);
                assert(rows[k as int] == files[at as int]@);
                lemma_filter_take_next(rows, kept, k as int);
                lemma_filter_take_next(rows, gone, k as int);
                assert(kept(rows[k as int]) == !gone(rows[k as int]));
            }
            if marks[k] {
                self.files.remove(at);
                expired = expired + 1;
                assert(self.files@.take(at as int) =~= files.take(at as int));
                assert(self.files@.skip(at as int) =~= files.skip(at as int).skip(1));
            } else {
                assert(files.take(at + 1) =~= files.take(at as int).push(files[at as int]));
                assert(views(files.take(at + 1)) =~= views(files.take(at as int)).push(
                    files[at as int]@,
                ));
                assert(files.skip(at + 1) =~= files.skip(at as int).skip(1));
                at = at + 1;
            }
            assert(all.skip(k as int).skip(1) =~= all.skip(k + 1));
            k += 1;
        }
        proof {
            assert(all.skip(k as int).len() == 0);
            assert(self.files@.skip(at as int).len() == 0);
            assert(rows.take(k as int) =~= rows);
            assert(self.files@.take(at as int) =~= self.files@);
            lemma_filtered_history(rows, kept, 0);
        }
        if expired > 0 {
            self.raise_counter(group_id);
        }
        expired
    }
}

} // verus!
