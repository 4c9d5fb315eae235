//! What holds of the file index whatever is written to it.

use vstd::prelude::*;

use crate::actual_state::{
    absent_proof, is_capture_at, lemma_retired_proof_is_keyed, lemma_with_capture_is_keyed,
    lemma_with_proof_is_keyed, present_proof, usable_proof,
};
use crate::file_metadata::{
    current_changed, keeps_key, lemma_change_keeps_history, with_materialization, with_meta,
    without_claim,
};
use crate::file_queries::{is_not_at, is_unauthored_in};
use crate::file_rows::{
    is_at, is_current_at, is_history, same_path, Block, Capture, Changes, FileEntry, FileIndex,
    OperationPart, Version,
};
use crate::file_upsert::{
    current, displaced, latest_seq, lemma_latest_seq, lemma_one_current, lemma_written_is_history,
    made_current, new_version, upsert, written, NewVersion,
};
use crate::index_vocabulary::MaterializationState;
use crate::local_capture::{capture, described, CaptureItem, Verdict};
use crate::rows::{
    first_where, lemma_filter_members, lemma_first_where, lemma_first_where_at, lemma_set_where_at,
};
use crate::transaction_rows::ChangeHash;
use crate::trash::{is_in_trash, is_latest_trashed, is_trashed_at, trashed_by};

verus! {

/// What a version holds, whatever becomes of it: everything but whether it is
/// current and which operation trashed it.
pub open spec fn same_content(a: Version, b: Version) -> bool {
    b == (Version {
        state: b.state,
        trashed_by_author: b.trashed_by_author,
        trashed_by_id: b.trashed_by_id,
        ..a
    })
}

/// A write makes the record the path's one current version, numbered after
/// everything the path ever had.
pub proof fn law_a_write_becomes_the_current_version(
    rows: Seq<Version>,
    changes: Changes,
    new: NewVersion,
)
    requires
        is_history(rows),
    ensures
        upsert(rows, changes, new) matches Ok(after) ==> {
            &&& is_history(after)
            &&& current(after, new.group, new.entry.path) == Some(made_current(rows, new))
            &&& made_current(rows, new).seq == latest_seq(rows, new.group, new.entry.path) + 1
            &&& made_current(rows, new).size == new.entry.size
            &&& made_current(rows, new).mtime == new.entry.mtime
            &&& made_current(rows, new).blocks == Ok::<Seq<Block>, Seq<char>>(new.entry.blocks)
            &&& made_current(rows, new).deleted == new.entry.deleted
            &&& made_current(rows, new).origin == new.origin
            &&& made_current(rows, new).admitted_at == new.admitted_at
            &&& forall|i: int|
                #![trigger rows[i]]
                0 <= i < rows.len() && is_at(new.group, new.entry.path)(rows[i]) ==> rows[i].seq
                    < made_current(rows, new).seq
        },
{
    lemma_written_is_history(rows, new, 1);
    lemma_latest_seq(rows, new.group, new.entry.path);
    let pred = is_current_at(new.group, new.entry.path);
    lemma_first_where(rows, pred);
    if current(rows, new.group, new.entry.path) is Some {
        let row = current(rows, new.group, new.entry.path)->0;
        let k = choose|k: int| 0 <= k < rows.len() && rows[k] == row;
        assert forall|i: int|
            #![trigger rows[i]]
            0 <= i < rows.len() && is_at(new.group, new.entry.path)(rows[i]) implies rows[i].seq
            < made_current(rows, new).seq by {
            if row.seq > 0 && i != k {
                assert(same_path(rows[k], rows[i]));
            }
        }
    }
}

/// No version is ever lost to a write: each numbered version is still there,
/// with the same number and content, and so is every version of another path.
pub proof fn law_a_write_loses_no_version(
    rows: Seq<Version>,
    changes: Changes,
    new: NewVersion,
    i: int,
)
    requires
        is_history(rows),
        0 <= i < rows.len(),
        rows[i].seq > 0 || !is_at(new.group, new.entry.path)(rows[i]),
    ensures
        upsert(rows, changes, new) matches Ok(after) ==> i < after.len() && same_content(
            rows[i],
            after[i],
        ) && (!is_at(new.group, new.entry.path)(rows[i]) ==> after[i] == rows[i]),
{
    lemma_first_where(rows, is_current_at(new.group, new.entry.path));
    lemma_one_current(rows, new.group, new.entry.path);
    if current(rows, new.group, new.entry.path) is Some {
        let row = current(rows, new.group, new.entry.path)->0;
        let k = choose|k: int| 0 <= k < rows.len() && rows[k] == row;
        if row.seq == 0 {
            let made = made_current(rows, new);
            lemma_set_where_at(
                rows,
                is_current_at(new.group, new.entry.path),
                |row: Version| made,
                k,
            );
        }
    }
}

/// An upsert of a record leaves its path exactly one current version: it holds
/// what the record states and names the origin device unless that is empty, and
/// its number follows the highest the path ever had. Every numbered version
/// that was there is still there with its content, and so is everything
/// elsewhere, unchanged.
pub proof fn law_an_upsert_adds_one_current_version(
    rows: Seq<Version>,
    changes: Changes,
    group: Seq<char>,
    entry: FileEntry,
    origin: Seq<char>,
    author: Option<ChangeHash>,
    now: Option<i64>,
)
    requires
        is_history(rows),
    ensures
        upsert(rows, changes, new_version(changes, group, entry, origin, author, now)) matches Ok(
            after,
        ) ==> {
            &&& exists|k: int|
                #![trigger after[k]]
                {
                    &&& 0 <= k < after.len()
                    &&& is_current_at(group, entry.path)(after[k])
                    &&& after[k].seq == latest_seq(rows, group, entry.path) + 1
                    &&& after[k].size == entry.size
                    &&& after[k].mtime == entry.mtime
                    &&& after[k].blocks == Ok::<Seq<Block>, Seq<char>>(entry.blocks)
                    &&& after[k].deleted == entry.deleted
                    &&& after[k].origin == if origin.len() == 0 {
                        None
                    } else {
                        Some(origin)
                    }
                    &&& forall|j: int|
                        #![trigger after[j]]
                        0 <= j < after.len() && is_current_at(group, entry.path)(after[j]) ==> j
                            == k
                }
            &&& forall|i: int|
                #![trigger rows[i]]
                0 <= i < rows.len() && (rows[i].seq > 0 || !is_at(group, entry.path)(rows[i]))
                    ==> i < after.len() && same_content(rows[i], after[i]) && (!is_at(
                    group,
                    entry.path,
                )(rows[i]) ==> after[i] == rows[i])
        },
{
    let new = new_version(changes, group, entry, origin, author, now);
    if upsert(rows, changes, new) is Ok {
        let after = written(rows, new);
        let pred = is_current_at(group, entry.path);
        law_a_write_becomes_the_current_version(rows, changes, new);
        lemma_first_where(after, pred);
        lemma_one_current(after, group, entry.path);
        let k = choose|k: int| 0 <= k < after.len() && after[k] == made_current(rows, new);
        assert(pred(after[k]));
        assert forall|i: int|
            #![trigger rows[i]]
            0 <= i < rows.len() && (rows[i].seq > 0 || !is_at(group, entry.path)(
                rows[i],
            )) implies i < after.len() && same_content(rows[i], after[i]) && (!is_at(
            group,
            entry.path,
        )(rows[i]) ==> after[i] == rows[i]) by {
            law_a_write_loses_no_version(rows, changes, new, i);
        }
    }
}

/// Only a deletion of something still there sends a version to the trash; any
/// other write supersedes it.
pub proof fn law_only_a_deletion_of_something_live_trashes(row: Version, new: NewVersion)
    ensures
        displaced(row, new).state is Trashed <==> !row.deleted && new.entry.deleted,
        displaced(row, new).state is Superseded <==> row.deleted || !new.entry.deleted,
        same_content(row, displaced(row, new)),
{
}

/// A new version carries on everything the record does not state, so that an
/// edit alone resets none of it.
pub proof fn law_a_new_version_carries_on_the_metadata(rows: Seq<Version>, new: NewVersion)
    ensures
        current(rows, new.group, new.entry.path) matches Some(row) ==> {
            let made = made_current(rows, new);
            &&& made.materialization == row.materialization
            &&& made.pinned == row.pinned
            &&& made.last_accessed == row.last_accessed
            &&& made.kind == row.kind
            &&& made.symlink_target == row.symlink_target
            &&& made.unix_mode == row.unix_mode
            &&& made.held_reason == row.held_reason
            &&& made.held_since == row.held_since
            &&& made.symlink_out_of_root == row.symlink_out_of_root
            &&& made.xattrs_json == row.xattrs_json
            &&& row.seq != 0 && new.author is None ==> made.authoring == row.authoring
            &&& new.author is Some ==> made.authoring == new.author
        },
{
}

/// The scaffold is never a version: after a write the path has none.
pub proof fn law_a_write_leaves_no_scaffold(
    rows: Seq<Version>,
    changes: Changes,
    new: NewVersion,
    i: int,
)
    requires
        is_history(rows),
    ensures
        upsert(rows, changes, new) matches Ok(after) ==> (0 <= i < after.len() && is_at(
            new.group,
            new.entry.path,
        )(after[i]) ==> after[i].seq > 0),
{
    lemma_latest_seq(rows, new.group, new.entry.path);
    lemma_written_is_history(rows, new, 1);
    let pred = is_current_at(new.group, new.entry.path);
    lemma_first_where(rows, pred);
    lemma_one_current(rows, new.group, new.entry.path);
    if upsert(rows, changes, new) is Ok {
        let after = written(rows, new);
        let made = made_current(rows, new);
        if 0 <= i < after.len() && is_at(new.group, new.entry.path)(after[i]) && after[i].seq
            == 0 {
            assert(after[i].state is Current);
            lemma_one_current(after, new.group, new.entry.path);
            lemma_first_where(after, pred);
            let k = choose|k: int| 0 <= k < after.len() && after[k] == made;
            assert(pred(after[k]));
            assert(pred(after[i]));
        }
    }
}

/// In a group with history, a write that is accepted leaves no current version
/// of its path without a known author, and none elsewhere that had one before.
pub proof fn law_a_group_with_history_stays_authored(
    index: FileIndex,
    new: NewVersion,
    row: Version,
)
    requires
        is_history(index.files),
        index.changes.has_history(new.group),
        forall|i: int|
            #![trigger index.files[i]]
            0 <= i < index.files.len() ==> !is_unauthored_in(index, new.group)(index.files[i]),
    ensures
        upsert(index.files, index.changes, new) matches Ok(after) ==> (after.contains(row) ==> !(
        row.group == new.group && index.changes.unauthored(row))),
{
    if upsert(index.files, index.changes, new) is Ok {
        let rows = index.files;
        let after = written(rows, new);
        let made = made_current(rows, new);
        lemma_written_is_history(rows, new, 1);
        lemma_first_where(rows, is_current_at(new.group, new.entry.path));
        lemma_one_current(rows, new.group, new.entry.path);
        if after.contains(row) && row.group == new.group && index.changes.unauthored(row) {
            let i = choose|i: int| 0 <= i < after.len() && after[i] == row;
            if row == made {
            } else if i < rows.len() {
                assert(!is_unauthored_in(index, new.group)(rows[i]));
                if current(rows, new.group, new.entry.path) is Some {
                    let old = current(rows, new.group, new.entry.path)->0;
                    let k = choose|k: int| 0 <= k < rows.len() && rows[k] == old;
                    if old.seq == 0 {
                        lemma_set_where_at(
                            rows,
                            is_current_at(new.group, new.entry.path),
                            |row: Version| made,
                            k,
                        );
                    } else {
                        lemma_set_where_at(
                            rows,
                            is_current_at(new.group, new.entry.path),
                            |row: Version| displaced(row, new),
                            k,
                        );
                    }
                    if i == k {
                        assert(false);
                    }
                }
            }
        }
    }
}

/// Erasing a path leaves nothing of it and everything else.
pub proof fn law_erasing_a_path_leaves_nothing_of_it(
    rows: Seq<Version>,
    group: Seq<char>,
    path: Seq<char>,
    row: Version,
)
    ensures
        rows.filter(is_not_at(group, path)).contains(row) <==> rows.contains(row) && !is_at(
            group,
            path,
        )(row),
{
    lemma_filter_members(rows, is_not_at(group, path), row);
}

/// Changing columns of the current version gives the current version with
/// those columns.
pub proof fn lemma_current_changed(
    rows: Seq<Version>,
    group: Seq<char>,
    path: Seq<char>,
    f: spec_fn(Version) -> Version,
)
    requires
        keeps_key(f),
        is_history(rows),
        current(rows, group, path) is Some,
    ensures
        current(current_changed(rows, group, path, f), group, path) == Some(
            f(current(rows, group, path)->0),
        ),
{
    let pred = is_current_at(group, path);
    lemma_first_where(rows, pred);
    lemma_one_current(rows, group, path);
    let row = current(rows, group, path)->0;
    let k = choose|k: int| 0 <= k < rows.len() && rows[k] == row;
    lemma_set_where_at(rows, pred, f, k);
    let after = current_changed(rows, group, path, f);
    assert(after == rows.update(k, f(row)));
    assert(f(row).group == row.group);
    assert forall|j: int| 0 <= j < k implies !pred(#[trigger] after[j]) by {
        assert(after[j] == rows[j]);
        assert(pred(rows[k]));
    }
    lemma_first_where_at(after, pred, k);
}

/// The current version after a capture.
pub proof fn lemma_captured_current(
    index: FileIndex,
    group: Seq<char>,
    item: CaptureItem,
    origin: Seq<char>,
    mask: u32,
    now: Option<i64>,
)
    requires
        index.well_formed(),
    ensures
        capture(index, group, item, origin, mask, now) matches Ok(after) ==> {
            let new = new_version(index.changes, group, item.entry, origin, item.author, now);
            let made = made_current(index.files, new);
            let described = match item.meta {
                Some(meta) => with_meta(meta, mask)(made),
                None => made,
            };
            current(after.files, group, item.entry.path) == Some(
                match item.verdict {
                    Verdict::Present { .. } => Version {
                        materialization: MaterializationState::Hydrated,
                        ..described
                    },
                    _ => without_claim()(described),
                },
            )
        },
{
    if capture(index, group, item, origin, mask, now) is Ok {
        let new = new_version(index.changes, group, item.entry, origin, item.author, now);
        let path = item.entry.path;
        lemma_written_is_history(index.files, new, 1);
        let files = written(index.files, new);
        let with_columns = match item.meta {
            Some(meta) => {
                lemma_current_changed(files, group, path, with_meta(meta, mask));
                lemma_change_keeps_history(files, group, path, with_meta(meta, mask), 0);
                current_changed(files, group, path, with_meta(meta, mask))
            },
            None => files,
        };
        lemma_current_changed(
            with_columns,
            group,
            path,
            with_materialization(MaterializationState::Hydrated),
        );
        lemma_current_changed(with_columns, group, path, without_claim());
    }
}

/// A capture that observed the version it writes publishes the exact proof of
/// it, on the heads the group had as it was written, together with the claim to
/// be materialized.
pub proof fn law_an_observed_capture_proves_its_version_and_claims_it(
    index: FileIndex,
    group: Seq<char>,
    item: CaptureItem,
    origin: Seq<char>,
    mask: u32,
    now: Option<i64>,
)
    requires
        index.well_formed(),
        item.verdict is Present,
    ensures
        capture(index, group, item, origin, mask, now) matches Ok(after) ==> {
            &&& current(after.files, group, item.entry.path) matches Some(row)
                && row.materialization is Hydrated
            &&& item.verdict matches Verdict::Present { kind, version, identity } && usable_proof(
                after.proofs,
                group,
                item.entry.path,
            ) == Some(present_proof(group, item.entry.path, kind, version, identity, item.heads))
        },
{
    lemma_captured_current(index, group, item, origin, mask, now);
    match item.verdict {
        Verdict::Present { kind, version, identity } => {
            lemma_with_proof_is_keyed(
                index,
                present_proof(group, item.entry.path, kind, version, identity, item.heads),
            );
        },
        _ => {},
    }
}

/// A version nobody observed inherits neither the claim to be materialized nor
/// the proof of the version before it.
pub proof fn law_an_unobserved_capture_inherits_neither_claim_nor_proof(
    index: FileIndex,
    group: Seq<char>,
    item: CaptureItem,
    origin: Seq<char>,
    mask: u32,
    now: Option<i64>,
)
    requires
        index.well_formed(),
        item.verdict is Unproven,
    ensures
        capture(index, group, item, origin, mask, now) matches Ok(after) ==> {
            &&& current(after.files, group, item.entry.path) matches Some(row) && !(
            row.materialization is Hydrated)
            &&& usable_proof(after.proofs, group, item.entry.path) is None
        },
{
    lemma_captured_current(index, group, item, origin, mask, now);
    lemma_retired_proof_is_keyed(index, group, item.entry.path);
}

/// A proven deletion publishes absence, which has no version, on the heads the
/// group had as it was written, and claims no content.
pub proof fn law_a_proven_deletion_publishes_absence_without_a_claim(
    index: FileIndex,
    group: Seq<char>,
    item: CaptureItem,
    origin: Seq<char>,
    mask: u32,
    now: Option<i64>,
)
    requires
        index.well_formed(),
        item.verdict is Absent,
    ensures
        capture(index, group, item, origin, mask, now) matches Ok(after) ==> {
            &&& current(after.files, group, item.entry.path) matches Some(row) && !(
            row.materialization is Hydrated)
            &&& usable_proof(after.proofs, group, item.entry.path) == Some(
                absent_proof(group, item.entry.path, item.heads),
            )
        },
{
    lemma_captured_current(index, group, item, origin, mask, now);
    lemma_with_proof_is_keyed(index, absent_proof(group, item.entry.path, item.heads));
}

/// Every capture under a change records that the change was read off this
/// disk, in place of what was recorded before; a write without one records
/// nothing.
pub proof fn law_every_capture_records_its_change(
    index: FileIndex,
    group: Seq<char>,
    item: CaptureItem,
    origin: Seq<char>,
    mask: u32,
    now: Option<i64>,
)
    requires
        index.well_formed(),
    ensures
        capture(index, group, item, origin, mask, now) matches Ok(after) ==> match item.author {
            Some(hash) => first_where(after.captures, is_capture_at(group, item.entry.path))
                == Some(Capture { group, path: item.entry.path, change: hash }),
            None => after.captures == index.captures,
        },
{
    match item.author {
        Some(hash) => {
            lemma_with_capture_is_keyed(
                index,
                Capture { group, path: item.entry.path, change: hash },
            );
        },
        None => {},
    }
}

/// A live file deleted by a part of a recursive operation is in the trash under
/// that operation, with what it last held.
pub proof fn law_a_recursive_deletion_names_what_it_trashed(
    rows: Seq<Version>,
    changes: Changes,
    new: NewVersion,
    part: OperationPart,
)
    requires
        is_history(rows),
        current(rows, new.group, new.entry.path) matches Some(row) && !row.deleted && row.seq > 0,
        new.entry.deleted,
        new.operation == Some(part),
        upsert(rows, changes, new) is Ok,
    ensures
        exists|i: int|
            #![trigger upsert(rows, changes, new)->Ok_0[i]]
            0 <= i < upsert(rows, changes, new)->Ok_0.len() && {
                let after = upsert(rows, changes, new)->Ok_0;
                &&& is_in_trash(after, new.group)(after[i])
                &&& trashed_by(after[i]) == Some((part.author, part.id))
                &&& same_content(current(rows, new.group, new.entry.path)->0, after[i])
            },
{
    let group = new.group;
    let path = new.entry.path;
    let pred = is_current_at(group, path);
    let after = upsert(rows, changes, new)->Ok_0;
    lemma_first_where(rows, pred);
    lemma_one_current(rows, group, path);
    lemma_written_is_history(rows, new, 1);
    let row = current(rows, group, path)->0;
    let k = choose|k: int| 0 <= k < rows.len() && rows[k] == row;
    lemma_set_where_at(rows, pred, |row: Version| displaced(row, new), k);
    let gone = displaced(row, new);
    assert(after == rows.update(k, gone).push(made_current(rows, new)));
    assert(after[k] == gone);
    assert(is_latest_trashed(after, gone)) by {
        assert forall|j: int|
            #![trigger after[j]]
            0 <= j < after.len() && is_trashed_at(gone.group, gone.path)(
                after[j],
            ) implies after[j].seq <= gone.seq by {
            if j < rows.len() && j != k {
                assert(after[j] == rows[j]);
                assert(same_path(rows[k], rows[j]));
            }
        }
    }
}

} // verus!
