//! The per-file columns beside the record itself: kind, symlink, mode,
//! extended attributes, pins and access times of a path's current version.

use vstd::prelude::*;

use crate::error::{Failure, SyncSqliteError};
use crate::file_rows::{
    is_at, is_current_at, is_history, same_path, FileIndex, FileIndexRepository, FileRow,
    LocalFileMetaColumns, Version,
};
use crate::file_upsert::{current, files_changed, has_room, hash_bytes, lemma_one_current};
use crate::index_vocabulary::{MaterializationState, RecordKind, VersionState};
use crate::root_counter::touched_if;
use crate::rows::{any, lemma_first_where, lemma_set_where_at, lemma_set_where_none, set_where};
use crate::stored_rows::{array32, copy32};
use crate::text::{copy_opt_str, join, join3};
use crate::transaction_rows::{copy_opt_bytes, opt_bytes, opt_text, ChangeHash};

verus! {

/// A list of extended attributes: each name with its value.
pub open spec fn attributes(xattrs: Seq<(String, Vec<u8>)>) -> Seq<(Seq<char>, Seq<u8>)> {
    xattrs.map_values(|attr: (String, Vec<u8>)| (attr.0@, attr.1@))
}

/// An attribute list as JSON.
pub uninterp spec fn attributes_text(xattrs: Seq<(Seq<char>, Seq<u8>)>) -> Seq<char>;

/// What a text reads as when taken for an attribute list in JSON, or why it is
/// none.
pub uninterp spec fn attributes_of(text: Seq<char>) -> Result<
    Seq<(Seq<char>, Seq<u8>)>,
    Seq<char>,
>;

/// Writes an attribute list by `serde_json::to_string`. A list of strings and
/// bytes has no map in it and its parts never refuse, so the call does not
/// fail. The text, a function of the list alone, is named [`attributes_text`];
/// reading it back gives the list.
#[verifier::external_body]
pub(crate) fn encode_xattrs_column(xattrs: &[(String, Vec<u8>)]) -> (text: String)
    ensures
        text@ == attributes_text(attributes(xattrs@)),
        attributes_of(text@) is Ok,
        attributes_of(text@)->Ok_0 == attributes(xattrs@),
{
    serde_json::to_string(xattrs).expect("xattr list is always representable as JSON")
}

/// Reads an attribute list by `serde_json::from_str`. The list, or the text of
/// the error, is a function of the text alone, named [`attributes_of`].
#[verifier::external_body]
fn read_attributes(text: &str) -> (read: Result<Vec<(String, Vec<u8>)>, String>)
    ensures
        match read {
            Ok(xattrs) => attributes_of(text@) is Ok && attributes_of(text@)->Ok_0 == attributes(
                xattrs@,
            ),
            Err(error) => attributes_of(text@) is Err && attributes_of(text@)->Err_0 == error@,
        },
{
    serde_json::from_str(text).map_err(|error| error.to_string())
}

/// The attribute list a column holds.
pub open spec fn stored_attributes(text: Seq<char>) -> Result<Seq<(Seq<char>, Seq<u8>)>, Failure> {
    attributes_column(attributes_of(text))
}

/// What reading the column answers, by what its text reads as.
pub open spec fn attributes_column(read: Result<Seq<(Seq<char>, Seq<u8>)>, Seq<char>>) -> Result<
    Seq<(Seq<char>, Seq<u8>)>,
    Failure,
> {
    match read {
        Ok(xattrs) => Ok(xattrs),
        Err(error) => Err(Failure::CorruptState("stored xattrs are corrupt: "@ + error)),
    }
}

/// The answer a read attribute list gives.
pub fn attributes_or_corrupt(read: Result<Vec<(String, Vec<u8>)>, String>) -> (result: Result<
    Vec<(String, Vec<u8>)>,
    SyncSqliteError,
>)
    ensures
        match read {
            Ok(xattrs) => result is Ok && attributes(result->Ok_0@) == attributes(xattrs@),
            Err(error) => result is Err && result->Err_0@ == Failure::CorruptState(
                "stored xattrs are corrupt: "@ + error@,
            ),
        },
{
    match read {
        Ok(xattrs) => Ok(xattrs),
        Err(error) => Err(
            SyncSqliteError::CorruptState(join("stored xattrs are corrupt: ", error.as_str())),
        ),
    }
}

/// Reads the attribute list a column holds.
pub fn decode_xattrs_column(raw: &str) -> (result: Result<Vec<(String, Vec<u8>)>, SyncSqliteError>)
    ensures
        match result {
            Ok(xattrs) => stored_attributes(raw@) is Ok && stored_attributes(raw@)->Ok_0
                == attributes(xattrs@),
            Err(error) => stored_attributes(raw@) is Err && stored_attributes(raw@)->Err_0
                == error@,
        },
{
    attributes_or_corrupt(read_attributes(raw))
}

/// The mode a column holds: none below zero, else its replicated bits.
pub open spec fn stored_mode(raw: int, mask: u32) -> Option<u32> {
    if raw < 0 {
        None
    } else {
        Some((raw as u32) & mask)
    }
}

/// How a mode is stored.
pub open spec fn mode_column(mode: Option<u32>, mask: u32) -> int {
    match mode {
        None => -1,
        Some(bits) => (bits & mask) as int,
    }
}

/// Reads the mode a column holds. `mask` has the replicated bits set.
pub fn decode_unix_mode_column(raw: i64, mask: u32) -> (mode: Option<u32>)
    ensures
        mode == stored_mode(raw as int, mask),
{
    if raw < 0 {
        None
    } else {
        Some((raw as u32) & mask)
    }
}

/// Stores a mode. `mask` has the replicated bits set.
pub fn encode_unix_mode_column(unix_mode: Option<u32>, mask: u32) -> (raw: i64)
    ensures
        raw == mode_column(unix_mode, mask),
{
    match unix_mode {
        None => -1,
        Some(mode) => (mode & mask) as i64,
    }
}

/// A stored mode reads back as its replicated bits.
pub proof fn law_a_stored_mode_reads_back_as_its_replicated_bits(mode: Option<u32>, mask: u32)
    ensures
        stored_mode(mode_column(mode, mask), mask) == match mode {
            Some(bits) => Some(bits & mask),
            None => None,
        },
        -1 <= mode_column(mode, mask) <= u32::MAX,
{
    match mode {
        Some(bits) => {
            assert((bits & mask) & mask == bits & mask) by (bit_vector);
        },
        None => {},
    }
}

/// The failure of a write to a path without a current version.
pub open spec fn no_such_file(group: Seq<char>, path: Seq<char>) -> Failure {
    Failure::NotFound("file "@ + group + "/"@ + path)
}

fn no_such_file_error(group_id: &str, path: &str) -> (error: SyncSqliteError)
    ensures
        error@ == no_such_file(group_id@, path@),
{
    let start = join3("file ", group_id, "/");
    SyncSqliteError::NotFound(join(start.as_str(), path))
}

/// The table with the current version of a path changed by `f`.
pub open spec fn current_changed(
    rows: Seq<Version>,
    group: Seq<char>,
    path: Seq<char>,
    f: spec_fn(Version) -> Version,
) -> Seq<Version> {
    set_where(rows, is_current_at(group, path), f)
}

/// Changing the current version of a path, which must exist.
pub open spec fn current_change(
    rows: Seq<Version>,
    group: Seq<char>,
    path: Seq<char>,
    f: spec_fn(Version) -> Version,
) -> Result<Seq<Version>, Failure> {
    if current(rows, group, path) is None {
        Err(no_such_file(group, path))
    } else {
        Ok(current_changed(rows, group, path, f))
    }
}

/// The index after a statement on the current version of a path, where it has
/// one.
pub open spec fn column_changed(
    index: FileIndex,
    group: Seq<char>,
    path: Seq<char>,
    f: spec_fn(Version) -> Version,
) -> FileIndex {
    touched_if(
        FileIndex { files: current_changed(index.files, group, path, f), ..index },
        group,
        current(index.files, group, path) is Some,
    )
}

/// The current version of the path claims to be materialized.
pub open spec fn claims_content(rows: Seq<Version>, group: Seq<char>, path: Seq<char>) -> bool {
    current(rows, group, path) matches Some(row) && row.materialization is Hydrated
}

/// The index after the current version's claim to be materialized is taken
/// back, where it makes one.
pub open spec fn claim_stripped(index: FileIndex, group: Seq<char>, path: Seq<char>) -> FileIndex {
    touched_if(
        FileIndex { files: current_changed(index.files, group, path, without_claim()), ..index },
        group,
        claims_content(index.files, group, path),
    )
}

/// The index after the path is given a scaffold, where it has no current
/// version.
pub open spec fn scaffold_given(
    index: FileIndex,
    group: Seq<char>,
    path: Seq<char>,
    now: Option<i64>,
) -> FileIndex {
    touched_if(
        FileIndex { files: scaffolded(index.files, group, path, now), ..index },
        group,
        current(index.files, group, path) is None,
    )
}

/// The change keeps what identifies a version.
pub open spec fn keeps_key(f: spec_fn(Version) -> Version) -> bool {
    forall|row: Version|
        #![trigger f(row)]
        f(row).group == row.group && f(row).path == row.path && f(row).seq == row.seq
            && f(row).state == row.state
}

/// Changing columns of a current version keeps the history well formed.
pub proof fn lemma_change_keeps_history(
    rows: Seq<Version>,
    group: Seq<char>,
    path: Seq<char>,
    f: spec_fn(Version) -> Version,
    n: int,
)
    requires
        keeps_key(f),
    ensures
        is_history(rows) ==> is_history(current_changed(rows, group, path, f)),
        has_room(rows, n) ==> has_room(current_changed(rows, group, path, f), n),
{
    let after = current_changed(rows, group, path, f);
    assert forall|i: int| #![trigger after[i]] 0 <= i < rows.len() implies {
        &&& after[i].group == rows[i].group
        &&& after[i].path == rows[i].path
        &&& after[i].seq == rows[i].seq
        &&& after[i].state == rows[i].state
    } by {
        let row = rows[i];
        assert(f(row).group == row.group);
    }
    if is_history(rows) {
        assert forall|i: int|
            #![trigger after[i]]
            0 <= i < after.len() implies after[i].seq >= 0 && (after[i].seq == 0 ==>
            after[i].state is Current) by {
            let row = rows[i];
        }
        assert forall|i: int, j: int|
            #![trigger after[i], after[j]]
            0 <= i < after.len() && 0 <= j < after.len() && i != j && same_path(
                after[i],
                after[j],
            ) implies {
            &&& after[i].seq != after[j].seq
            &&& after[i].state is Current ==> !(after[j].state is Current)
            &&& after[i].state is Current && after[i].seq > 0 ==> after[j].seq < after[i].seq
        } by {
            assert(same_path(rows[i], rows[j]));
        }
    }
    if has_room(rows, n) {
        assert forall|i: int| #![trigger after[i]] 0 <= i < after.len() implies after[i].seq + n
            <= i64::MAX by {
            let row = rows[i];
        }
    }
}

/// The version with another kind.
pub open spec fn with_kind(kind: RecordKind) -> spec_fn(Version) -> Version {
    |row: Version| Version { kind: kind, ..row }
}

/// The version with another symlink target.
pub open spec fn with_symlink_target(target: Option<Seq<u8>>) -> spec_fn(Version) -> Version {
    |row: Version| Version { symlink_target: target, ..row }
}

/// The version with its symlink marked as leading out of the root, or not.
pub open spec fn with_out_of_root(out_of_root: bool) -> spec_fn(Version) -> Version {
    |row: Version| Version { symlink_out_of_root: out_of_root, ..row }
}

/// The version with another attribute column.
pub open spec fn with_xattrs_json(text: Seq<char>) -> spec_fn(Version) -> Version {
    |row: Version| Version { xattrs_json: text, ..row }
}

/// The version with another mode column.
pub open spec fn with_mode_column(raw: int) -> spec_fn(Version) -> Version {
    |row: Version| Version { unix_mode: raw, ..row }
}

/// The version with another authoring identity.
pub open spec fn with_author(hash: Seq<u8>) -> spec_fn(Version) -> Version {
    |row: Version| Version { authoring: Some(hash), ..row }
}

/// The version pinned, or not.
pub open spec fn with_pin(pinned: bool) -> spec_fn(Version) -> Version {
    |row: Version| Version { pinned: pinned, ..row }
}

/// The version with another access time.
pub open spec fn with_access(unix_ts: i64) -> spec_fn(Version) -> Version {
    |row: Version| Version { last_accessed: Some(unix_ts), ..row }
}

/// The version in another state of materialization.
pub open spec fn with_materialization(state: MaterializationState) -> spec_fn(Version) -> Version {
    |row: Version| Version { materialization: state, ..row }
}

/// The attribute column text of a list, as the store writes it.
pub open spec fn xattrs_column(xattrs: Seq<(String, Vec<u8>)>) -> Seq<char> {
    attributes_text(attributes(xattrs))
}

/// The version with the metadata a capture read.
pub open spec fn with_meta(meta: LocalFileMetaColumns, mask: u32) -> spec_fn(Version) -> Version {
    |row: Version|
        Version {
            kind: meta.record_kind,
            symlink_target: opt_bytes(meta.symlink_target),
            symlink_out_of_root: meta.symlink_out_of_root,
            unix_mode: mode_column(meta.unix_mode, mask),
            xattrs_json: xattrs_column(meta.xattrs@),
            ..row
        }
}

/// The version without a claim to be materialized.
pub open spec fn without_claim() -> spec_fn(Version) -> Version {
    |row: Version|
        if row.materialization is Hydrated {
            Version { materialization: MaterializationState::Placeholder, ..row }
        } else {
            row
        }
}

/// The row that holds a path's metadata before its first version.
pub open spec fn scaffold(group: Seq<char>, path: Seq<char>, now: Option<i64>) -> Version {
    Version {
        group,
        path,
        size: 0,
        mtime: 0,
        blocks: Ok(Seq::empty()),
        deleted: false,
        seq: 0,
        state: VersionState::Current,
        origin: None,
        authoring: None,
        materialization: MaterializationState::Placeholder,
        pinned: false,
        last_accessed: None,
        kind: RecordKind::File,
        symlink_target: None,
        unix_mode: -1,
        held_reason: None,
        held_since: None,
        symlink_out_of_root: false,
        xattrs_json: "[]"@,
        admitted_at: now,
        trashed_by_author: None,
        trashed_by_id: None,
    }
}

/// The table with a scaffold for the path, where it has no current version.
pub open spec fn scaffolded(
    rows: Seq<Version>,
    group: Seq<char>,
    path: Seq<char>,
    now: Option<i64>,
) -> Seq<Version> {
    if current(rows, group, path) is None {
        rows.push(scaffold(group, path, now))
    } else {
        rows
    }
}

impl FileIndexRepository {
    /// Sets the kind of a path's current version. A path without a current version is refused.
    pub fn set_record_kind(
        &mut self,
        group_id: &str,
        path: &str,
        kind: RecordKind,
    ) -> (result: Result<(), SyncSqliteError>)
        requires
            is_history(old(self)@.files),
        ensures
            is_history(final(self)@.files),
            files_changed(
                current_change(old(self)@.files, group_id@, path@, with_kind(kind)),
                group_id@,
                old(self)@,
                final(self)@,
                result,
            ),
    {
        let ghost rows = self@.files;
        let ghost f = with_kind(kind);
        match self.current_position(group_id, path) {
            None => Err(no_such_file_error(group_id, path)),
            Some(i) => {
                proof {
                    lemma_one_current(rows, group_id@, path@);
                    lemma_set_where_at(rows, is_current_at(group_id@, path@), f, i as int);
                    lemma_change_keeps_history(rows, group_id@, path@, f, 0);
                }
                assert(rows[i as int] == self.files@[i as int]@);
                self.files[i].record_kind = kind;
                assert(self@.files =~= rows.update(i as int, f(rows[i as int])));
                self.raise_counter(group_id);
                Ok(())
            },
        }
    }

    /// Sets the symlink target of a path's current version. A path without a
    /// current version is refused.
    pub fn set_symlink_target(
        &mut self,
        group_id: &str,
        path: &str,
        target: Option<&[u8]>,
    ) -> (result: Result<(), SyncSqliteError>)
        requires
            is_history(old(self)@.files),
        ensures
            is_history(final(self)@.files),
            files_changed(
                current_change(old(self)@.files, group_id@, path@, with_symlink_target(opt_slice(target))),
                group_id@,
                old(self)@,
                final(self)@,
                result,
            ),
    {
        let ghost rows = self@.files;
        let ghost f = with_symlink_target(opt_slice(target));
        match self.current_position(group_id, path) {
            None => Err(no_such_file_error(group_id, path)),
            Some(i) => {
                proof {
                    lemma_one_current(rows, group_id@, path@);
                    lemma_set_where_at(rows, is_current_at(group_id@, path@), f, i as int);
                    lemma_change_keeps_history(rows, group_id@, path@, f, 0);
                }
                assert(rows[i as int] == self.files@[i as int]@);
                let target: Option<Vec<u8>> = match target {
                    Some(bytes) => Some(vstd::slice::slice_to_vec(bytes)),
                    None => None,
                };
                self.files[i].symlink_target = target;
                assert(self@.files =~= rows.update(i as int, f(rows[i as int])));
                self.raise_counter(group_id);
                Ok(())
            },
        }
    }

    /// Marks the symlink of a path's current version as leading out of the root, or
    /// not. A path without a current version is refused.
    pub fn set_symlink_out_of_root(
        &mut self,
        group_id: &str,
        path: &str,
        out_of_root: bool,
    ) -> (result: Result<(), SyncSqliteError>)
        requires
            is_history(old(self)@.files),
        ensures
            is_history(final(self)@.files),
            files_changed(
                current_change(old(self)@.files, group_id@, path@, with_out_of_root(out_of_root)),
                group_id@,
                old(self)@,
                final(self)@,
                result,
            ),
    {
        let ghost rows = self@.files;
        let ghost f = with_out_of_root(out_of_root);
        match self.current_position(group_id, path) {
            None => Err(no_such_file_error(group_id, path)),
            Some(i) => {
                proof {
                    lemma_one_current(rows, group_id@, path@);
                    lemma_set_where_at(rows, is_current_at(group_id@, path@), f, i as int);
                    lemma_change_keeps_history(rows, group_id@, path@, f, 0);
                }
                assert(rows[i as int] == self.files@[i as int]@);
                self.files[i].symlink_out_of_root = out_of_root;
                assert(self@.files =~= rows.update(i as int, f(rows[i as int])));
                self.raise_counter(group_id);
                Ok(())
            },
        }
    }

    /// Stores the extended attributes of a path's current version. What is stored
    /// reads back as the list. A path without a current version is refused.
    pub fn set_xattrs(
        &mut self,
        group_id: &str,
        path: &str,
        xattrs: &[(String, Vec<u8>)],
    ) -> (result: Result<(), SyncSqliteError>)
        requires
            is_history(old(self)@.files),
        ensures
            is_history(final(self)@.files),
            files_changed(
                current_change(old(self)@.files, group_id@, path@, with_xattrs_json(xattrs_column(xattrs@))),
                group_id@,
                old(self)@,
                final(self)@,
                result,
            ),
            result is Ok ==> stored_attributes(xattrs_column(xattrs@)) is Ok
                && stored_attributes(xattrs_column(xattrs@))->Ok_0 == attributes(xattrs@),
    {
        let ghost rows = self@.files;
        let ghost f = with_xattrs_json(xattrs_column(xattrs@));
        match self.current_position(group_id, path) {
            None => Err(no_such_file_error(group_id, path)),
            Some(i) => {
                proof {
                    lemma_one_current(rows, group_id@, path@);
                    lemma_set_where_at(rows, is_current_at(group_id@, path@), f, i as int);
                    lemma_change_keeps_history(rows, group_id@, path@, f, 0);
                }
                assert(rows[i as int] == self.files@[i as int]@);
                let text = encode_xattrs_column(xattrs);
                self.files[i].xattrs_json = text;
                assert(self@.files =~= rows.update(i as int, f(rows[i as int])));
                self.raise_counter(group_id);
                Ok(())
            },
        }
    }

    /// Stores the replicated bits of the mode of a path's current version. A
    /// path without a current version is refused.
    pub fn set_unix_mode(
        &mut self,
        group_id: &str,
        path: &str,
        unix_mode: Option<u32>,
        mask: u32,
    ) -> (result: Result<(), SyncSqliteError>)
        requires
            is_history(old(self)@.files),
        ensures
            is_history(final(self)@.files),
            files_changed(
                current_change(old(self)@.files, group_id@, path@, with_mode_column(mode_column(unix_mode, mask))),
                group_id@,
                old(self)@,
                final(self)@,
                result,
            ),
    {
        let ghost rows = self@.files;
        let ghost f = with_mode_column(mode_column(unix_mode, mask));
        match self.current_position(group_id, path) {
            None => Err(no_such_file_error(group_id, path)),
            Some(i) => {
                proof {
                    lemma_one_current(rows, group_id@, path@);
                    lemma_set_where_at(rows, is_current_at(group_id@, path@), f, i as int);
                    lemma_change_keeps_history(rows, group_id@, path@, f, 0);
                }
                assert(rows[i as int] == self.files@[i as int]@);
                self.files[i].unix_mode = encode_unix_mode_column(unix_mode, mask);
                assert(self@.files =~= rows.update(i as int, f(rows[i as int])));
                self.raise_counter(group_id);
                Ok(())
            },
        }
    }

    /// Names the change that authored a path's current version. A path without
    /// a current version is refused.
    pub fn set_authoring_change_hash(
        &mut self,
        group_id: &str,
        path: &str,
        hash: &ChangeHash,
    ) -> (result: Result<(), SyncSqliteError>)
        requires
            is_history(old(self)@.files),
        ensures
            is_history(final(self)@.files),
            files_changed(
                current_change(old(self)@.files, group_id@, path@, with_author(hash.0@)),
                group_id@,
                old(self)@,
                final(self)@,
                result,
            ),
    {
        let ghost rows = self@.files;
        let ghost f = with_author(hash.0@);
        match self.current_position(group_id, path) {
            None => Err(no_such_file_error(group_id, path)),
            Some(i) => {
                proof {
                    lemma_one_current(rows, group_id@, path@);
                    lemma_set_where_at(rows, is_current_at(group_id@, path@), f, i as int);
                    lemma_change_keeps_history(rows, group_id@, path@, f, 0);
                }
                assert(rows[i as int] == self.files@[i as int]@);
                self.files[i].authoring_change_hash = Some(hash_bytes(hash));
                assert(self@.files =~= rows.update(i as int, f(rows[i as int])));
                self.raise_counter(group_id);
                Ok(())
            },
        }
    }

    /// Pins a path's current version, or releases it. A path without a current version is refused.
    pub fn set_pinned(
        &mut self,
        group_id: &str,
        path: &str,
        pinned: bool,
    ) -> (result: Result<(), SyncSqliteError>)
        requires
            is_history(old(self)@.files),
        ensures
            is_history(final(self)@.files),
            files_changed(
                current_change(old(self)@.files, group_id@, path@, with_pin(pinned)),
                group_id@,
                old(self)@,
                final(self)@,
                result,
            ),
    {
        let ghost rows = self@.files;
        let ghost f = with_pin(pinned);
        match self.current_position(group_id, path) {
            None => Err(no_such_file_error(group_id, path)),
            Some(i) => {
                proof {
                    lemma_one_current(rows, group_id@, path@);
                    lemma_set_where_at(rows, is_current_at(group_id@, path@), f, i as int);
                    lemma_change_keeps_history(rows, group_id@, path@, f, 0);
                }
                assert(rows[i as int] == self.files@[i as int]@);
                self.files[i].pinned = pinned;
                assert(self@.files =~= rows.update(i as int, f(rows[i as int])));
                self.raise_counter(group_id);
                Ok(())
            },
        }
    }

    /// Records when a path's current version was last accessed. A path without
    /// a current version is refused.
    pub fn touch_last_accessed(
        &mut self,
        group_id: &str,
        path: &str,
        unix_ts: i64,
    ) -> (result: Result<(), SyncSqliteError>)
        requires
            is_history(old(self)@.files),
        ensures
            is_history(final(self)@.files),
            files_changed(
                current_change(old(self)@.files, group_id@, path@, with_access(unix_ts)),
                group_id@,
                old(self)@,
                final(self)@,
                result,
            ),
    {
        let ghost rows = self@.files;
        let ghost f = with_access(unix_ts);
        match self.current_position(group_id, path) {
            None => Err(no_such_file_error(group_id, path)),
            Some(i) => {
                proof {
                    lemma_one_current(rows, group_id@, path@);
                    lemma_set_where_at(rows, is_current_at(group_id@, path@), f, i as int);
                    lemma_change_keeps_history(rows, group_id@, path@, f, 0);
                }
                assert(rows[i as int] == self.files@[i as int]@);
                self.files[i].last_accessed_unix = Some(unix_ts);
                assert(self@.files =~= rows.update(i as int, f(rows[i as int])));
                self.raise_counter(group_id);
                Ok(())
            },
        }
    }

    /// Gives the path a scaffold to hold its metadata, unless it has a current
    /// version.
    pub fn ensure_bootstrap_row_for_metadata(
        &mut self,
        group_id: &str,
        path: &str,
        now_unix_nanos: Option<i64>,
    )
        requires
            is_history(old(self)@.files),
        ensures
            is_history(final(self)@.files),
            final(self)@ == scaffold_given(old(self)@, group_id@, path@, now_unix_nanos),
    {
        ensure_bootstrap_row_for_metadata_in_tx(self, group_id, path, now_unix_nanos);
    }

    /// Writes incoming metadata onto the path's current version, giving it a
    /// scaffold first where it has none.
    pub fn apply_incoming_metadata_atomic(
        &mut self,
        group_id: &str,
        path: &str,
        meta: &LocalFileMetaColumns,
        mask: u32,
        now_unix_nanos: Option<i64>,
    )
        requires
            is_history(old(self)@.files),
        ensures
            is_history(final(self)@.files),
            final(self)@ == column_changed(
                scaffold_given(old(self)@, group_id@, path@, now_unix_nanos),
                group_id@,
                path@,
                with_meta(*meta, mask),
            ),
    {
        ensure_bootstrap_row_for_metadata_in_tx(self, group_id, path, now_unix_nanos);
        apply_local_meta_columns_in_tx(self, group_id, path, meta, mask);
    }

    /// The kind of a path's current version.
    pub fn get_record_kind(&self, group_id: &str, path: &str) -> (found: Option<RecordKind>)
        ensures
            found == kind_at(self@.files, group_id@, path@),
    {
        match self.current_position(group_id, path) {
            None => None,
            Some(i) => {
                assert(self@.files[i as int] == self.files@[i as int]@);
                Some(self.files[i].record_kind)
            },
        }
    }

    /// The symlink target of a path's current version; none where that is no
    /// symlink.
    pub fn get_symlink_target(&self, group_id: &str, path: &str) -> (found: Option<Vec<u8>>)
        ensures
            opt_bytes(found) == symlink_target_at(self@.files, group_id@, path@),
    {
        match self.current_position(group_id, path) {
            None => None,
            Some(i) => {
                assert(self@.files[i as int] == self.files@[i as int]@);
                match self.files[i].record_kind {
                    RecordKind::Symlink => copy_opt_bytes(&self.files[i].symlink_target),
                    _ => None,
                }
            },
        }
    }

    /// Whether a path's current version is a symlink that leads out of the root.
    pub fn get_symlink_out_of_root(&self, group_id: &str, path: &str) -> (found: bool)
        ensures
            found == leads_out_of_root(self@.files, group_id@, path@),
    {
        match self.current_position(group_id, path) {
            None => false,
            Some(i) => {
                assert(self@.files[i as int] == self.files@[i as int]@);
                match self.files[i].record_kind {
                    RecordKind::Symlink => self.files[i].symlink_out_of_root,
                    _ => false,
                }
            },
        }
    }

    /// The replicated mode bits of a path's current version.
    pub fn get_unix_mode(&self, group_id: &str, path: &str, mask: u32) -> (found: Option<u32>)
        ensures
            found == mode_at(self@.files, group_id@, path@, mask),
    {
        match self.current_position(group_id, path) {
            None => None,
            Some(i) => {
                assert(self@.files[i as int] == self.files@[i as int]@);
                decode_unix_mode_column(self.files[i].unix_mode, mask)
            },
        }
    }

    /// The device a path's current version came from.
    pub fn get_origin_device_id(&self, group_id: &str, path: &str) -> (found: Option<String>)
        ensures
            opt_text(found) == origin_at(self@.files, group_id@, path@),
    {
        match self.current_position(group_id, path) {
            None => None,
            Some(i) => {
                assert(self@.files[i as int] == self.files@[i as int]@);
                copy_opt_str(&self.files[i].origin_device_id)
            },
        }
    }

    /// The device a path's current version came from, where that is known.
    pub fn current_version_origin(&self, group_id: &str, path: &str) -> (found: Option<String>)
        ensures
            opt_text(found) == origin_at(self@.files, group_id@, path@),
    {
        match self.current_position(group_id, path) {
            None => None,
            Some(i) => {
                assert(self@.files[i as int] == self.files@[i as int]@);
                copy_opt_str(&self.files[i].origin_device_id)
            },
        }
    }

    /// Whether the path has a current version that is not the scaffold.
    pub fn has_real_current_row(&self, group_id: &str, path: &str) -> (found: bool)
        ensures
            found == is_real_at(self@.files, group_id@, path@),
    {
        match self.current_position(group_id, path) {
            None => false,
            Some(i) => {
                assert(self@.files[i as int] == self.files@[i as int]@);
                self.files[i].version_seq > 0
            },
        }
    }

    /// The extended attributes of a path's current version, none without one. A
    /// column that does not read as a list is an error.
    pub fn get_xattrs(&self, group_id: &str, path: &str) -> (result: Result<
        Vec<(String, Vec<u8>)>,
        SyncSqliteError,
    >)
        ensures
            match current(self@.files, group_id@, path@) {
                Some(row) => match result {
                    Ok(xattrs) => stored_attributes(row.xattrs_json) is Ok && stored_attributes(
                        row.xattrs_json,
                    )->Ok_0 == attributes(xattrs@),
                    Err(error) => stored_attributes(row.xattrs_json) is Err && stored_attributes(
                        row.xattrs_json,
                    )->Err_0 == error@,
                },
                None => result is Ok && result->Ok_0@.len() == 0,
            },
    {
        match self.current_position(group_id, path) {
            None => Ok(Vec::new()),
            Some(i) => {
                assert(self@.files[i as int] == self.files@[i as int]@);
                decode_xattrs_column(self.files[i].xattrs_json.as_str())
            },
        }
    }

    /// The change that authored a path's current version. A stored identity that
    /// is not a hash is an error.
    pub fn get_authoring_change_hash(&self, group_id: &str, path: &str) -> (result: Result<
        Option<ChangeHash>,
        SyncSqliteError,
    >)
        ensures
            authoring_read(authoring_at(self@.files, group_id@, path@), group_id@, path@, result),
    {
        let i = match self.current_position(group_id, path) {
            None => {
                return Ok(None);
            },
            Some(i) => i,
        };
        assert(self@.files[i as int] == self.files@[i as int]@);
        match &self.files[i].authoring_change_hash {
            None => Ok(None),
            Some(bytes) => {
                if bytes.len() == 32 {
                    Ok(Some(ChangeHash(copy32(bytes.as_slice()))))
                } else {
                    let start = join3(
                        "invalid authoring_change_hash length for ",
                        group_id,
                        "/",
                    );
                    Err(SyncSqliteError::CorruptState(join(start.as_str(), path)))
                }
            },
        }
    }

}

/// Writes the metadata a capture read onto the path's current version, if it has
/// one.
pub fn apply_local_meta_columns_in_tx(index: &mut FileIndexRepository, group_id: &str, path: &str, meta: &LocalFileMetaColumns, mask: u32)
    requires
        is_history(old(index)@.files),
    ensures
        is_history(final(index)@.files),
        final(index)@ == column_changed(old(index)@, group_id@, path@, with_meta(*meta, mask)),
{
    let ghost rows = index@.files;
    let ghost f = with_meta(*meta, mask);
    proof {
        lemma_change_keeps_history(rows, group_id@, path@, f, 0);
    }
    match index.current_position(group_id, path) {
        None => {
            proof {
                lemma_set_where_none(rows, is_current_at(group_id@, path@), f);
            }
        },
        Some(i) => {
            proof {
                lemma_one_current(rows, group_id@, path@);
                lemma_set_where_at(rows, is_current_at(group_id@, path@), f, i as int);
            }
            assert(rows[i as int] == index.files@[i as int]@);
            let text = encode_xattrs_column(meta.xattrs.as_slice());
            let target = copy_opt_bytes(&meta.symlink_target);
            index.files[i].record_kind = meta.record_kind;
            index.files[i].symlink_target = target;
            index.files[i].symlink_out_of_root = meta.symlink_out_of_root;
            index.files[i].unix_mode = encode_unix_mode_column(meta.unix_mode, mask);
            index.files[i].xattrs_json = text;
            assert(index@.files =~= rows.update(i as int, f(rows[i as int])));
            index.raise_counter(group_id);
        },
    }
}

/// Marks the path's current version as materialized, if it has one.
pub fn stamp_hydrated_after_local_emission_in_tx(index: &mut FileIndexRepository, group_id: &str, path: &str)
    requires
        is_history(old(index)@.files),
    ensures
        is_history(final(index)@.files),
        final(index)@ == column_changed(
            old(index)@,
            group_id@,
            path@,
            with_materialization(MaterializationState::Hydrated),
        ),
{
    let ghost rows = index@.files;
    let ghost f = with_materialization(MaterializationState::Hydrated);
    proof {
        lemma_change_keeps_history(rows, group_id@, path@, f, 0);
    }
    match index.current_position(group_id, path) {
        None => {
            proof {
                lemma_set_where_none(rows, is_current_at(group_id@, path@), f);
            }
        },
        Some(i) => {
            proof {
                lemma_one_current(rows, group_id@, path@);
                lemma_set_where_at(rows, is_current_at(group_id@, path@), f, i as int);
            }
            assert(rows[i as int] == index.files@[i as int]@);
            index.files[i].materialization_state = MaterializationState::Hydrated;
            assert(index@.files =~= rows.update(i as int, f(rows[i as int])));
            index.raise_counter(group_id);
        },
    }
}

/// Takes back the current version's claim to be materialized, if it makes one.
pub fn strip_carried_forward_hydrated_in_tx(index: &mut FileIndexRepository, group_id: &str, path: &str)
    requires
        is_history(old(index)@.files),
    ensures
        is_history(final(index)@.files),
        final(index)@ == claim_stripped(old(index)@, group_id@, path@),
{
    let ghost rows = index@.files;
    let ghost f = without_claim();
    proof {
        lemma_change_keeps_history(rows, group_id@, path@, f, 0);
    }
    match index.current_position(group_id, path) {
        None => {
            proof {
                lemma_set_where_none(rows, is_current_at(group_id@, path@), f);
            }
        },
        Some(i) => {
            proof {
                lemma_one_current(rows, group_id@, path@);
                lemma_set_where_at(rows, is_current_at(group_id@, path@), f, i as int);
            }
            assert(rows[i as int] == index.files@[i as int]@);
            let claims: bool = match index.files[i].materialization_state {
                MaterializationState::Hydrated => true,
                _ => false,
            };
            if claims {
                index.files[i].materialization_state = MaterializationState::Placeholder;
            }
            assert(index@.files =~= rows.update(i as int, f(rows[i as int])));
            if claims {
                index.raise_counter(group_id);
            }
        },
    }
}

/// Gives the path a scaffold to hold its metadata, unless it has a current
/// version.
pub fn ensure_bootstrap_row_for_metadata_in_tx(
    index: &mut FileIndexRepository,
    group_id: &str,
    path: &str,
    now_unix_nanos: Option<i64>,
)
    requires
        is_history(old(index)@.files),
    ensures
        is_history(final(index)@.files),
        final(index)@ == scaffold_given(old(index)@, group_id@, path@, now_unix_nanos),
{
    let ghost rows = index@.files;
    match index.current_position(group_id, path) {
        None => {
            proof {
                lemma_scaffold_keeps_history(rows, group_id@, path@, now_unix_nanos, 0);
            }
            let row = FileRow {
                group_id: group_id.to_owned(),
                path: path.to_owned(),
                size: 0,
                mtime_unix_nanos: 0,
                blocks: Ok(Vec::new()),
                deleted: false,
                version_seq: 0,
                state: VersionState::Current,
                origin_device_id: None,
                authoring_change_hash: None,
                materialization_state: MaterializationState::Placeholder,
                pinned: false,
                last_accessed_unix: None,
                record_kind: RecordKind::File,
                symlink_target: None,
                unix_mode: -1,
                held_reason: None,
                held_since_unix_nanos: None,
                symlink_out_of_root: false,
                xattrs_json: "[]".to_owned(),
                admitted_at_unix_nanos: now_unix_nanos,
                trashed_by_operation_author: None,
                trashed_by_operation_id: None,
            };
            assert(row@.blocks->Ok_0 =~= Seq::empty());
            assert(row@ == scaffold(group_id@, path@, now_unix_nanos));
            index.files.push(row);
            assert(index@.files =~= rows.push(scaffold(group_id@, path@, now_unix_nanos)));
            index.raise_counter(group_id);
        },
        Some(_) => {},
    }
}

/// The kind of what stands at the path.
pub open spec fn kind_at(rows: Seq<Version>, group: Seq<char>, path: Seq<char>) -> Option<
    RecordKind,
> {
    match current(rows, group, path) {
        Some(row) => Some(row.kind),
        None => None,
    }
}

/// The target of the symlink at the path.
pub open spec fn symlink_target_at(rows: Seq<Version>, group: Seq<char>, path: Seq<char>) -> Option<
    Seq<u8>,
> {
    match current(rows, group, path) {
        Some(row) => if row.kind is Symlink {
            row.symlink_target
        } else {
            None
        },
        None => None,
    }
}

/// Whether the symlink at the path leads out of the root.
pub open spec fn leads_out_of_root(rows: Seq<Version>, group: Seq<char>, path: Seq<char>) -> bool {
    match current(rows, group, path) {
        Some(row) => row.kind is Symlink && row.symlink_out_of_root,
        None => false,
    }
}

/// The mode of what stands at the path.
pub open spec fn mode_at(
    rows: Seq<Version>,
    group: Seq<char>,
    path: Seq<char>,
    mask: u32,
) -> Option<u32> {
    match current(rows, group, path) {
        Some(row) => stored_mode(row.unix_mode, mask),
        None => None,
    }
}

/// The device what stands at the path came from.
pub open spec fn origin_at(rows: Seq<Version>, group: Seq<char>, path: Seq<char>) -> Option<
    Seq<char>,
> {
    match current(rows, group, path) {
        Some(row) => row.origin,
        None => None,
    }
}

/// Whether a version stands at the path, and not only a scaffold.
pub open spec fn is_real_at(rows: Seq<Version>, group: Seq<char>, path: Seq<char>) -> bool {
    match current(rows, group, path) {
        Some(row) => row.seq > 0,
        None => false,
    }
}

/// The stored authoring identity of a path's current version.
pub open spec fn authoring_at(rows: Seq<Version>, group: Seq<char>, path: Seq<char>) -> Option<
    Seq<u8>,
> {
    match current(rows, group, path) {
        Some(row) => row.authoring,
        None => None,
    }
}

/// Reading a stored authoring identity answers so.
pub open spec fn authoring_read(
    stored: Option<Seq<u8>>,
    group: Seq<char>,
    path: Seq<char>,
    result: Result<Option<ChangeHash>, SyncSqliteError>,
) -> bool {
    match stored {
        None => result is Ok && result->Ok_0 is None,
        Some(bytes) => if bytes.len() == 32 {
            result is Ok && result->Ok_0 == Some(ChangeHash(array32(bytes)))
        } else {
            result is Err && result->Err_0@ == Failure::CorruptState(
                "invalid authoring_change_hash length for "@ + group + "/"@ + path,
            )
        },
    }
}

/// The bytes of an optional slice.
pub open spec fn opt_slice(bytes: Option<&[u8]>) -> Option<Seq<u8>> {
    match bytes {
        Some(inner) => Some(inner@),
        None => None,
    }
}

/// A scaffold keeps the history well formed.
pub proof fn lemma_scaffold_keeps_history(
    rows: Seq<Version>,
    group: Seq<char>,
    path: Seq<char>,
    now: Option<i64>,
    n: int,
)
    requires
        is_history(rows),
    ensures
        is_history(scaffolded(rows, group, path, now)),
        has_room(rows, n) ==> has_room(scaffolded(rows, group, path, now), n),
{
    let pred = is_current_at(group, path);
    lemma_first_where(rows, pred);
    if current(rows, group, path) is None {
        let made = scaffold(group, path, now);
        let after = rows.push(made);
        assert forall|i: int| #![trigger rows[i]] 0 <= i < rows.len() && is_at(group, path)(
            rows[i],
        ) implies !(rows[i].state is Current) && rows[i].seq > 0 by {
            if pred(rows[i]) {
                assert(any(rows, pred));
            }
        }
        assert forall|i: int, j: int|
            #![trigger after[i], after[j]]
            0 <= i < after.len() && 0 <= j < after.len() && i != j && same_path(
                after[i],
                after[j],
            ) implies {
            &&& after[i].seq != after[j].seq
            &&& after[i].state is Current ==> !(after[j].state is Current)
            &&& after[i].state is Current && after[i].seq > 0 ==> after[j].seq < after[i].seq
        } by {
            if i < rows.len() && j < rows.len() {
                assert(after[i] == rows[i] && after[j] == rows[j]);
            } else if i < rows.len() {
                assert(after[i] == rows[i]);
                assert(is_at(group, path)(rows[i]));
            } else {
                assert(after[j] == rows[j]);
                assert(is_at(group, path)(rows[j]));
            }
        }
    }
}

} // verus!
