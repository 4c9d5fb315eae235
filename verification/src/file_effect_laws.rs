//! What each write to the file index does to its rows, column by column, and
//! exactly when it is accepted.

use vstd::prelude::*;

use crate::file_metadata::{
    attributes, attributes_text, claim_stripped, claims_content, current_change, current_changed,
    is_real_at, kind_at, leads_out_of_root, mode_at, origin_at, scaffold_given, symlink_target_at,
    with_access, with_author, with_kind, with_materialization, with_meta, with_mode_column,
    with_out_of_root, with_pin, with_symlink_target, with_xattrs_json, without_claim,
};
use crate::file_queries::is_not_at;
use crate::file_rows::{
    is_at, is_current_at, is_history, Block, Changes, FileEntry, FileIndex, LocalFileMetaColumns,
    OperationPart, Version,
};
use crate::file_upsert::{
    current, displaced, latest_seq, lemma_latest_seq, lemma_one_current, made_current, new_version,
    upsert,
};
use crate::index_vocabulary::{MaterializationState, RecordKind};
use crate::root_counter::raised;
use crate::rows::{
    any, first_where, lemma_filter_members, lemma_first_where, lemma_first_where_at,
    lemma_first_where_none, lemma_set_where_at,
};
use crate::transaction_rows::ChangeHash;

verus! {

/// The row is the path's current version.
pub open spec fn stands_at(row: Version, group: Seq<char>, path: Seq<char>) -> bool {
    row.group == group && row.path == path && row.state is Current
}

/// No row is the path's current version.
pub open spec fn is_vacant(rows: Seq<Version>, group: Seq<char>, path: Seq<char>) -> bool {
    forall|i: int| #![trigger rows[i]] 0 <= i < rows.len() ==> !stands_at(rows[i], group, path)
}

/// The number is one more than the highest the path ever had, from 1.
pub open spec fn is_next_number(
    rows: Seq<Version>,
    group: Seq<char>,
    path: Seq<char>,
    seq: int,
) -> bool {
    &&& seq >= 1
    &&& forall|i: int|
        #![trigger rows[i]]
        0 <= i < rows.len() && rows[i].group == group && rows[i].path == path ==> rows[i].seq < seq
    &&& seq > 1 ==> exists|i: int|
        #![trigger rows[i]]
        0 <= i < rows.len() && rows[i].group == group && rows[i].path == path && rows[i].seq + 1
            == seq
}

/// The group's log, or the authorized changes, know the change of that hash.
pub open spec fn is_vouched(changes: Changes, group: Seq<char>, hash: Option<Seq<u8>>) -> bool {
    hash matches Some(bytes) && bytes.len() == 32 && ((exists|i: int|
        #![trigger changes.admitted[i]]
        0 <= i < changes.admitted.len() && changes.admitted[i].group == group
            && changes.admitted[i].hash == bytes) || (exists|i: int|
        #![trigger changes.authorized[i]]
        0 <= i < changes.authorized.len() && changes.authorized[i] == bytes))
}

/// No change was ever admitted to the group.
pub open spec fn is_without_history(changes: Changes, group: Seq<char>) -> bool {
    forall|i: int|
        #![trigger changes.admitted[i]]
        0 <= i < changes.admitted.len() ==> changes.admitted[i].group != group
}

/// The bytes of an author.
pub open spec fn author_bytes(author: Option<ChangeHash>) -> Option<Seq<u8>> {
    match author {
        Some(hash) => Some(hash.0@),
        None => None,
    }
}

/// The row holds what the record states, and where it came from and when.
pub open spec fn holds_record(
    row: Version,
    group: Seq<char>,
    entry: FileEntry,
    origin: Seq<char>,
    now: Option<i64>,
) -> bool {
    &&& row.group == group
    &&& row.path == entry.path
    &&& row.state is Current
    &&& row.size == entry.size
    &&& row.mtime == entry.mtime
    &&& row.blocks == Ok::<Seq<Block>, Seq<char>>(entry.blocks)
    &&& row.deleted == entry.deleted
    &&& row.origin is None <==> origin.len() == 0
    &&& row.origin matches Some(device) ==> device == origin
    &&& row.admitted_at == now
}

/// The two rows agree on everything a record does not state.
pub open spec fn same_metadata(a: Version, b: Version) -> bool {
    &&& a.materialization == b.materialization
    &&& a.pinned == b.pinned
    &&& a.last_accessed == b.last_accessed
    &&& a.kind == b.kind
    &&& a.symlink_target == b.symlink_target
    &&& a.unix_mode == b.unix_mode
    &&& a.held_reason == b.held_reason
    &&& a.held_since == b.held_since
    &&& a.symlink_out_of_root == b.symlink_out_of_root
    &&& a.xattrs_json == b.xattrs_json
}

/// A path without a current version has none to be found.
proof fn lemma_vacant(rows: Seq<Version>, group: Seq<char>, path: Seq<char>)
    requires
        is_vacant(rows, group, path),
    ensures
        current(rows, group, path) is None,
{
    assert forall|j: int| 0 <= j < rows.len() implies !is_current_at(group, path)(
        #[trigger] rows[j],
    ) by {
        assert(!stands_at(rows[j], group, path));
    }
    lemma_first_where_none(rows, is_current_at(group, path));
}

/// The current version of a path is the one row that stands there.
pub proof fn law_the_current_version_is_the_row_that_stands_there(
    rows: Seq<Version>,
    group: Seq<char>,
    path: Seq<char>,
)
    requires
        is_history(rows),
    ensures
        forall|k: int|
            #![trigger rows[k]]
            0 <= k < rows.len() ==> (stands_at(rows[k], group, path) <==> current(
                rows,
                group,
                path,
            ) == Some(rows[k])),
        current(rows, group, path) is None <==> is_vacant(rows, group, path),
        current(rows, group, path) matches Some(row) ==> rows.contains(row) && stands_at(
            row,
            group,
            path,
        ),
{
    let pred = is_current_at(group, path);
    lemma_first_where(rows, pred);
    lemma_one_current(rows, group, path);
    assert forall|k: int| #![trigger rows[k]] 0 <= k < rows.len() implies (stands_at(
        rows[k],
        group,
        path,
    ) <==> current(rows, group, path) == Some(rows[k])) by {
        if stands_at(rows[k], group, path) {
            assert forall|j: int| 0 <= j < k implies !pred(#[trigger] rows[j]) by {
                assert(pred(rows[k]));
            }
            lemma_first_where_at(rows, pred, k);
        }
    }
    if is_vacant(rows, group, path) {
        lemma_vacant(rows, group, path);
    }
    if current(rows, group, path) is None && !is_vacant(rows, group, path) {
        let k = choose|k: int|
            #![trigger rows[k]]
            0 <= k < rows.len() && stands_at(rows[k], group, path);
        assert(pred(rows[k]));
        assert(any(rows, pred));
    }
}

proof fn lemma_next_number(rows: Seq<Version>, group: Seq<char>, path: Seq<char>)
    ensures
        is_next_number(rows, group, path, latest_seq(rows, group, path) + 1),
{
    lemma_latest_seq(rows, group, path);
    let n = latest_seq(rows, group, path);
    assert forall|i: int|
        #![trigger rows[i]]
        0 <= i < rows.len() && rows[i].group == group && rows[i].path == path implies rows[i].seq
        < n + 1 by {
        assert(is_at(group, path)(rows[i]));
    }
    if n > 0 {
        let i = choose|i: int|
            #![trigger rows[i]]
            0 <= i < rows.len() && is_at(group, path)(rows[i]) && rows[i].seq == n;
        assert(rows[i].group == group && rows[i].path == path && rows[i].seq + 1 == n + 1);
    }
}

/// The first record of a path makes a version that claims nothing: it is a
/// placeholder, a plain file, neither pinned nor held, never accessed, with no
/// symlink target, no mode and no attributes. Its author is the one given. It
/// is numbered after everything the path ever had, and no other row changes.
pub proof fn law_a_first_version_claims_nothing(
    rows: Seq<Version>,
    changes: Changes,
    group: Seq<char>,
    entry: FileEntry,
    origin: Seq<char>,
    author: Option<ChangeHash>,
    now: Option<i64>,
)
    requires
        is_vacant(rows, group, entry.path),
    ensures
        upsert(rows, changes, new_version(changes, group, entry, origin, author, now)) is Ok
            <==> is_without_history(changes, group) || is_vouched(
            changes,
            group,
            author_bytes(author),
        ),
        upsert(rows, changes, new_version(changes, group, entry, origin, author, now)) matches Ok(
            after,
        ) ==> {
            let row = after[rows.len() as int];
            &&& after.len() == rows.len() + 1
            &&& forall|i: int| #![trigger after[i]] 0 <= i < rows.len() ==> after[i] == rows[i]
            &&& holds_record(row, group, entry, origin, now)
            &&& is_next_number(rows, group, entry.path, row.seq)
            &&& row.authoring == author_bytes(author)
            &&& row.materialization is Placeholder
            &&& !row.pinned
            &&& row.last_accessed is None
            &&& row.kind is File
            &&& row.symlink_target is None
            &&& row.unix_mode == -1
            &&& row.held_reason is None
            &&& row.held_since is None
            &&& !row.symlink_out_of_root
            &&& row.xattrs_json == "[]"@
            &&& row.trashed_by_author is None
            &&& row.trashed_by_id is None
        },
{
    lemma_vacant(rows, group, entry.path);
    lemma_next_number(rows, group, entry.path);
    let new = new_version(changes, group, entry, origin, author, now);
    let made = made_current(rows, new);
    lemma_history_of(changes, group);
    assert(made.authoring == author_bytes(author));
}

proof fn lemma_history_of(changes: Changes, group: Seq<char>)
    ensures
        changes.has_history(group) <==> !is_without_history(changes, group),
        forall|hash: Option<Seq<u8>>|
            changes.verifies(group, hash) <==> #[trigger] is_vouched(changes, group, hash),
{
    if !is_without_history(changes, group) {
        let i = choose|i: int|
            #![trigger changes.admitted[i]]
            0 <= i < changes.admitted.len() && changes.admitted[i].group == group;
        assert(changes.admitted[i].group == group);
    }
}

/// The part of a recursive operation the change is, by the first entry the log
/// has for it.
pub open spec fn is_part_of(changes: Changes, hash: Seq<u8>, part: OperationPart) -> bool {
    exists|m: int|
        #![trigger changes.operations[m]]
        0 <= m < changes.operations.len() && changes.operations[m] == part && part.hash == hash
            && forall|n: int|
            #![trigger changes.operations[n]]
            0 <= n < m ==> changes.operations[n].hash != hash
}

/// The change behind a write is that part of a recursive operation.
pub open spec fn is_part_under(
    changes: Changes,
    author: Option<ChangeHash>,
    part: OperationPart,
) -> bool {
    author matches Some(hash) && is_part_of(changes, hash.0@, part)
}

/// The change is part of no recursive operation.
pub open spec fn is_part_of_none(changes: Changes, author: Option<ChangeHash>) -> bool {
    author matches Some(hash) ==> forall|m: int|
        #![trigger changes.operations[m]]
        0 <= m < changes.operations.len() ==> changes.operations[m].hash != hash.0@
}

proof fn lemma_operation_of(changes: Changes, hash: Seq<u8>)
    ensures
        changes.operation_of(hash) matches Some(part) ==> is_part_of(changes, hash, part),
        changes.operation_of(hash) is None ==> forall|m: int|
            #![trigger changes.operations[m]]
            0 <= m < changes.operations.len() ==> changes.operations[m].hash != hash,
        forall|part: OperationPart| #[trigger]
            is_part_of(changes, hash, part) ==> changes.operation_of(hash) == Some(part),
{
    let rows = changes.operations;
    let pred = |part: OperationPart| part.hash == hash;
    lemma_first_where(rows, pred);
    if changes.operation_of(hash) is None {
        assert forall|m: int| #![trigger rows[m]] 0 <= m < rows.len() implies rows[m].hash
            != hash by {
            if rows[m].hash == hash {
                assert(pred(rows[m]));
            }
        }
    } else {
        lemma_first_position(rows, hash);
    }
    assert forall|part: OperationPart| #[trigger] is_part_of(
        changes,
        hash,
        part,
    ) implies changes.operation_of(hash) == Some(part) by {
        let m = choose|m: int|
            #![trigger rows[m]]
            0 <= m < rows.len() && rows[m] == part && part.hash == hash && forall|n: int|
                #![trigger rows[n]]
                0 <= n < m ==> rows[n].hash != hash;
        assert forall|j: int| 0 <= j < m implies !pred(#[trigger] rows[j]) by {}
        lemma_first_where_at(rows, pred, m);
    }
}

proof fn lemma_first_position(rows: Seq<OperationPart>, hash: Seq<u8>)
    requires
        first_where(rows, |part: OperationPart| part.hash == hash) is Some,
    ensures
        exists|m: int|
            #![trigger rows[m]]
            0 <= m < rows.len() && rows[m] == first_where(
                rows,
                |part: OperationPart| part.hash == hash,
            )->0 && rows[m].hash == hash && forall|n: int|
                #![trigger rows[n]]
                0 <= n < m ==> rows[n].hash != hash,
    decreases rows.len(),
{
    let pred = |part: OperationPart| part.hash == hash;
    if pred(rows[0]) {
        assert(rows[0].hash == hash);
    } else {
        let tail = rows.skip(1);
        lemma_first_position(tail, hash);
        let m = choose|m: int|
            #![trigger tail[m]]
            0 <= m < tail.len() && tail[m] == first_where(tail, pred)->0 && tail[m].hash == hash
                && forall|n: int| #![trigger tail[n]] 0 <= n < m ==> tail[n].hash != hash;
        assert(rows[m + 1] == tail[m]);
        assert forall|n: int| #![trigger rows[n]] 0 <= n < m + 1 implies rows[n].hash != hash by {
            if n > 0 {
                assert(rows[n] == tail[n - 1]);
            }
        }
    }
}

/// A record over a numbered current version makes the next version: it holds
/// what the record states and carries on everything else, the author too where
/// none is given. The version before keeps its content and its number. It goes
/// to the trash where the record deletes what was there, named by the recursive
/// operation the change is part of, if any; otherwise it is superseded. No other
/// row changes.
pub proof fn law_a_next_version_carries_on_and_displaces_the_last(
    rows: Seq<Version>,
    changes: Changes,
    group: Seq<char>,
    entry: FileEntry,
    origin: Seq<char>,
    author: Option<ChangeHash>,
    now: Option<i64>,
    k: int,
)
    requires
        is_history(rows),
        0 <= k < rows.len(),
        stands_at(rows[k], group, entry.path),
        rows[k].seq > 0,
    ensures
        ({
            let carried = if author is Some {
                author_bytes(author)
            } else {
                rows[k].authoring
            };
            &&& upsert(rows, changes, new_version(changes, group, entry, origin, author, now))
                is Ok <==> is_without_history(changes, group) || is_vouched(
                changes,
                group,
                carried,
            )
            &&& upsert(
                rows,
                changes,
                new_version(changes, group, entry, origin, author, now),
            ) matches Ok(after) ==> {
                let last = after[k];
                let row = after[rows.len() as int];
                &&& after.len() == rows.len() + 1
                &&& forall|i: int|
                    #![trigger after[i]]
                    0 <= i < rows.len() && i != k ==> after[i] == rows[i]
                &&& holds_record(row, group, entry, origin, now)
                &&& row.seq == rows[k].seq + 1
                &&& row.authoring == carried
                &&& same_metadata(row, rows[k])
                &&& row.trashed_by_author is None
                &&& row.trashed_by_id is None
                &&& same_metadata(last, rows[k])
                &&& last.group == group
                &&& last.path == entry.path
                &&& last.seq == rows[k].seq
                &&& last.size == rows[k].size
                &&& last.mtime == rows[k].mtime
                &&& last.blocks == rows[k].blocks
                &&& last.deleted == rows[k].deleted
                &&& last.origin == rows[k].origin
                &&& last.authoring == rows[k].authoring
                &&& last.admitted_at == rows[k].admitted_at
                &&& last.state is Trashed <==> entry.deleted && !rows[k].deleted
                &&& last.state is Superseded <==> !entry.deleted || rows[k].deleted
                &&& last.state is Superseded || is_part_of_none(changes, author)
                    ==> last.trashed_by_author == rows[k].trashed_by_author && last.trashed_by_id
                    == rows[k].trashed_by_id
                &&& last.state is Trashed ==> forall|part: OperationPart|
                    #[trigger] is_part_under(changes, author, part) ==> last.trashed_by_author
                        == Some(part.author) && last.trashed_by_id
                        == Some(part.id)
            }
        }),
{
    law_the_current_version_is_the_row_that_stands_there(rows, group, entry.path);
    let new = new_version(changes, group, entry, origin, author, now);
    let pred = is_current_at(group, entry.path);
    lemma_one_current(rows, group, entry.path);
    lemma_set_where_at(rows, pred, |row: Version| displaced(row, new), k);
    lemma_history_of(changes, group);
    match author {
        Some(hash) => {
            lemma_operation_of(changes, hash.0@);
        },
        None => {},
    }
    let made = made_current(rows, new);
    assert(made.seq == rows[k].seq + 1);
}

/// A record over a scaffold takes its place: it holds what the record states,
/// keeps the metadata given ahead of it, and is the path's first real version.
/// No other row changes.
pub proof fn law_a_scaffold_becomes_the_version_it_was_for(
    rows: Seq<Version>,
    changes: Changes,
    group: Seq<char>,
    entry: FileEntry,
    origin: Seq<char>,
    author: Option<ChangeHash>,
    now: Option<i64>,
    k: int,
)
    requires
        is_history(rows),
        0 <= k < rows.len(),
        stands_at(rows[k], group, entry.path),
        rows[k].seq == 0,
    ensures
        upsert(rows, changes, new_version(changes, group, entry, origin, author, now)) is Ok
            <==> is_without_history(changes, group) || is_vouched(
            changes,
            group,
            author_bytes(author),
        ),
        upsert(rows, changes, new_version(changes, group, entry, origin, author, now)) matches Ok(
            after,
        ) ==> {
            let row = after[k];
            &&& after.len() == rows.len()
            &&& forall|i: int|
                #![trigger after[i]]
                0 <= i < rows.len() && i != k ==> after[i] == rows[i]
            &&& holds_record(row, group, entry, origin, now)
            &&& is_next_number(rows, group, entry.path, row.seq)
            &&& row.authoring == author_bytes(author)
            &&& same_metadata(row, rows[k])
        },
{
    law_the_current_version_is_the_row_that_stands_there(rows, group, entry.path);
    let new = new_version(changes, group, entry, origin, author, now);
    let made = made_current(rows, new);
    lemma_one_current(rows, group, entry.path);
    lemma_set_where_at(rows, is_current_at(group, entry.path), |row: Version| made, k);
    lemma_history_of(changes, group);
    lemma_next_number(rows, group, entry.path);
}

/// Setting columns reaches the row that stands at the path and no other, and is
/// refused exactly where none does.
pub proof fn law_columns_are_set_on_the_row_that_stands_there(
    rows: Seq<Version>,
    group: Seq<char>,
    path: Seq<char>,
    f: spec_fn(Version) -> Version,
    i: int,
)
    requires
        is_history(rows),
        0 <= i < rows.len(),
    ensures
        current_changed(rows, group, path, f).len() == rows.len(),
        current_changed(rows, group, path, f)[i] == if stands_at(rows[i], group, path) {
            f(rows[i])
        } else {
            rows[i]
        },
        current_change(rows, group, path, f) is Ok <==> !is_vacant(rows, group, path),
        current_change(rows, group, path, f) matches Ok(after) ==> after == current_changed(
            rows,
            group,
            path,
            f,
        ),
        current_change(rows, group, path, f) matches Err(failure) ==> failure is NotFound,
{
    law_the_current_version_is_the_row_that_stands_there(rows, group, path);
}

/// Each setter puts its value into its own column and leaves every other column
/// as it was.
pub proof fn law_a_setter_sets_its_own_column_alone(
    row: Version,
    kind: RecordKind,
    target: Option<Seq<u8>>,
    flag: bool,
    text: Seq<char>,
    raw: int,
    author: Seq<u8>,
    accessed: i64,
    state: MaterializationState,
)
    ensures
        with_kind(kind)(row).kind == kind,
        (Version { kind: row.kind, ..with_kind(kind)(row) }) == row,
        with_symlink_target(target)(row).symlink_target == target,
        (Version { symlink_target: row.symlink_target, ..with_symlink_target(target)(row) }) == row,
        with_out_of_root(flag)(row).symlink_out_of_root == flag,
        (Version { symlink_out_of_root: row.symlink_out_of_root, ..with_out_of_root(flag)(row) })
            == row,
        with_xattrs_json(text)(row).xattrs_json == text,
        (Version { xattrs_json: row.xattrs_json, ..with_xattrs_json(text)(row) }) == row,
        with_mode_column(raw)(row).unix_mode == raw,
        (Version { unix_mode: row.unix_mode, ..with_mode_column(raw)(row) }) == row,
        with_author(author)(row).authoring == Some(author),
        (Version { authoring: row.authoring, ..with_author(author)(row) }) == row,
        with_pin(flag)(row).pinned == flag,
        (Version { pinned: row.pinned, ..with_pin(flag)(row) }) == row,
        with_access(accessed)(row).last_accessed == Some(accessed),
        (Version { last_accessed: row.last_accessed, ..with_access(accessed)(row) }) == row,
        with_materialization(state)(row).materialization == state,
        (Version { materialization: row.materialization, ..with_materialization(state)(row) })
            == row,
{
}

/// Metadata that was read off a disk, or came with a change, is written as it
/// was given, the mode by its replicated bits, and touches nothing else. The
/// claim to be materialized is not among it.
pub proof fn law_metadata_is_written_as_given(
    row: Version,
    meta: LocalFileMetaColumns,
    mask: u32,
)
    ensures
        ({
            let after = with_meta(meta, mask)(row);
            &&& after.kind == meta.record_kind
            &&& meta.symlink_target matches Some(target) ==> after.symlink_target == Some(target@)
            &&& meta.symlink_target is None ==> after.symlink_target is None
            &&& after.symlink_out_of_root == meta.symlink_out_of_root
            &&& meta.unix_mode is None ==> after.unix_mode == -1
            &&& meta.unix_mode matches Some(bits) ==> after.unix_mode == (bits & mask) as int
            &&& after.xattrs_json == attributes_text(attributes(meta.xattrs@))
            &&& after.materialization == row.materialization
            &&& (Version {
                kind: row.kind,
                symlink_target: row.symlink_target,
                symlink_out_of_root: row.symlink_out_of_root,
                unix_mode: row.unix_mode,
                xattrs_json: row.xattrs_json,
                ..after
            }) == row
        }),
{
}

/// Taking back a claim makes a materialized version a placeholder and leaves
/// any other as it is; nothing but the claim changes.
pub proof fn law_a_claim_taken_back_leaves_a_placeholder(row: Version)
    ensures
        row.materialization is Hydrated ==> without_claim()(row).materialization is Placeholder,
        !(row.materialization is Hydrated) ==> without_claim()(row) == row,
        (Version { materialization: row.materialization, ..without_claim()(row) }) == row,
{
}

/// A path that nothing stands at can be given a scaffold to hold metadata: a
/// live plain file of number 0 without content, author or origin that claims
/// nothing. A path that something stands at is left alone.
pub proof fn law_a_scaffold_stands_only_where_nothing_did(
    index: FileIndex,
    group: Seq<char>,
    path: Seq<char>,
    now: Option<i64>,
)
    requires
        is_history(index.files),
    ensures
        !is_vacant(index.files, group, path) ==> scaffold_given(index, group, path, now) == index,
        is_vacant(index.files, group, path) ==> {
            let after = scaffold_given(index, group, path, now).files;
            let row = after[index.files.len() as int];
            &&& after.len() == index.files.len() + 1
            &&& forall|i: int|
                #![trigger after[i]]
                0 <= i < index.files.len() ==> after[i] == index.files[i]
            &&& stands_at(row, group, path)
            &&& row.seq == 0
            &&& row.size == 0
            &&& row.mtime == 0
            &&& row.blocks == Ok::<Seq<Block>, Seq<char>>(Seq::empty())
            &&& !row.deleted
            &&& row.origin is None
            &&& row.authoring is None
            &&& row.materialization is Placeholder
            &&& !row.pinned
            &&& row.last_accessed is None
            &&& row.kind is File
            &&& row.symlink_target is None
            &&& row.unix_mode == -1
            &&& row.held_reason is None
            &&& row.held_since is None
            &&& !row.symlink_out_of_root
            &&& row.xattrs_json == "[]"@
            &&& row.admitted_at == now
            &&& row.trashed_by_author is None
            &&& row.trashed_by_id is None
        },
{
    law_the_current_version_is_the_row_that_stands_there(index.files, group, path);
}

/// Erasing a path takes every version of it, whatever its state, and keeps
/// every other row.
pub proof fn law_erasing_takes_every_version_of_the_path_alone(
    rows: Seq<Version>,
    group: Seq<char>,
    path: Seq<char>,
    row: Version,
)
    ensures
        rows.filter(is_not_at(group, path)).contains(row) <==> rows.contains(row) && !(row.group
            == group && row.path == path),
        any(rows, is_at(group, path)) <==> exists|i: int|
            #![trigger rows[i]]
            0 <= i < rows.len() && rows[i].group == group && rows[i].path == path,
{
    lemma_filter_members(rows, is_not_at(group, path), row);
}

/// What is asked of a path is read off the row that stands there. Only a symlink
/// has a target or leads out of the root, whatever its columns hold. A path where
/// nothing stands answers with nothing.
pub proof fn law_a_path_answers_with_the_row_that_stands_there(
    rows: Seq<Version>,
    group: Seq<char>,
    path: Seq<char>,
    mask: u32,
)
    requires
        is_history(rows),
    ensures
        forall|i: int|
            #![trigger rows[i]]
            0 <= i < rows.len() && stands_at(rows[i], group, path) ==> {
                &&& kind_at(rows, group, path) == Some(rows[i].kind)
                &&& rows[i].kind is Symlink ==> symlink_target_at(rows, group, path)
                    == rows[i].symlink_target
                &&& !(rows[i].kind is Symlink) ==> symlink_target_at(rows, group, path) is None
                &&& leads_out_of_root(rows, group, path) <==> rows[i].kind is Symlink
                    && rows[i].symlink_out_of_root
                &&& rows[i].unix_mode < 0 ==> mode_at(rows, group, path, mask) is None
                &&& 0 <= rows[i].unix_mode <= u32::MAX ==> mode_at(rows, group, path, mask) == Some(
                    (rows[i].unix_mode as u32) & mask,
                )
                &&& origin_at(rows, group, path) == rows[i].origin
                &&& is_real_at(rows, group, path) <==> rows[i].seq > 0
            },
        is_vacant(rows, group, path) ==> {
            &&& kind_at(rows, group, path) is None
            &&& symlink_target_at(rows, group, path) is None
            &&& !leads_out_of_root(rows, group, path)
            &&& mode_at(rows, group, path, mask) is None
            &&& origin_at(rows, group, path) is None
            &&& !is_real_at(rows, group, path)
        },
{
    law_the_current_version_is_the_row_that_stands_there(rows, group, path);
}

/// A path claims its content exactly where the row that stands there is
/// hydrated. Taking the claim back counts its group on exactly then, and leaves
/// every other table as it is.
pub proof fn law_a_claim_stands_while_its_row_is_hydrated(
    index: FileIndex,
    group: Seq<char>,
    path: Seq<char>,
)
    requires
        is_history(index.files),
    ensures
        claims_content(index.files, group, path) <==> exists|i: int|
            #![trigger index.files[i]]
            0 <= i < index.files.len() && stands_at(index.files[i], group, path)
                && index.files[i].materialization is Hydrated,
        ({
            let after = claim_stripped(index, group, path);
            &&& !claims_content(after.files, group, path)
            &&& after.generations == if claims_content(index.files, group, path) {
                raised(index.generations, group)
            } else {
                index.generations
            }
            &&& (FileIndex {
                files: index.files,
                generations: index.generations,
                ..after
            }) == index
        }),
{
    let rows = index.files;
    law_the_current_version_is_the_row_that_stands_there(rows, group, path);
    if current(rows, group, path) is Some {
        let row = current(rows, group, path)->0;
        let k = choose|k: int| 0 <= k < rows.len() && rows[k] == row;
        assert(stands_at(rows[k], group, path));
    }
    let after = current_changed(rows, group, path, without_claim());
    let pred = is_current_at(group, path);
    lemma_first_where(after, pred);
    if current(after, group, path) is Some {
        let row = current(after, group, path)->0;
        let k = choose|k: int| 0 <= k < after.len() && after[k] == row;
        assert(after[k] == if pred(rows[k]) {
            without_claim()(rows[k])
        } else {
            rows[k]
        });
        assert(pred(after[k]));
    }
}

} // verus!
