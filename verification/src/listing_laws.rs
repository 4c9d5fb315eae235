//! What the index lists and counts, stated over its rows one by one.

use vstd::prelude::*;

use crate::durability::{
    block_search, is_current_row, is_root_listing, is_unmaterialized_current, read_versions,
    root_keys, root_order, summarized, RootSet,
};
use crate::error::{Failure, SyncSqliteError};
use crate::file_effect_laws::{
    is_vacant, law_a_first_version_claims_nothing,
    law_a_next_version_carries_on_and_displaces_the_last,
    law_a_scaffold_becomes_the_version_it_was_for,
    law_the_current_version_is_the_row_that_stands_there, stands_at,
};
use crate::file_metadata::{attributes_of, stored_mode};
use crate::file_queries::{
    entry_of, file_at, is_current_among, is_current_in, is_live_in, is_unauthored_in, read_all,
};
use crate::file_rows::{is_history, Block, Changes, FileEntry, FileIndex, Version};
use crate::file_upsert::{current, new_version, upsert};
use crate::file_versions::{
    is_expired, is_newer_retained, is_retained, is_version, read_version, version_of, StoredVersion,
    VersionEntry,
};
use crate::index_vocabulary::{RecordKind, VersionState};
use crate::journal_effect_laws::lemma_listed_members;
use crate::rows::{
    any, first_where, lemma_filter_members, lemma_first_where, lemma_first_where_at, views,
};
use crate::text::text_lt;
use crate::transaction_rows::ChangeHash;
use crate::trash::{
    by_path, deleted_later, is_in_trash, is_listed_trash, is_trash_listing, is_trash_of,
    names_no_operation, trash_entry, TrashEntry,
};

verus! {

/// The positions of the rows that meet the condition.
pub open spec fn positions<R>(rows: Seq<R>, pred: spec_fn(R) -> bool) -> Set<int> {
    Set::new(|i: int| 0 <= i < rows.len() && pred(rows[i]))
}

/// A selection has as many rows as there are positions that meet its condition.
pub proof fn lemma_selection_counts<R>(rows: Seq<R>, pred: spec_fn(R) -> bool)
    ensures
        positions(rows, pred).finite(),
        positions(rows, pred).len() == rows.filter(pred).len(),
    decreases rows.len(),
{
    reveal(Seq::filter);
    let all = positions(rows, pred);
    if rows.len() == 0 {
        assert(all =~= Set::empty());
    } else {
        let shorter = rows.drop_last();
        let n = rows.len() - 1;
        lemma_selection_counts(shorter, pred);
        let before = positions(shorter, pred);
        if pred(rows[n]) {
            assert(all =~= before.insert(n));
            assert(!before.contains(n));
        } else {
            assert(all =~= before);
        }
    }
}

/// What is selected and what is left make up the whole.
proof fn lemma_selection_splits<R>(
    rows: Seq<R>,
    pred: spec_fn(R) -> bool,
    other: spec_fn(R) -> bool,
)
    requires
        forall|row: R| #[trigger] other(row) <==> !pred(row),
    ensures
        rows.filter(pred).len() + rows.filter(other).len() == rows.len(),
    decreases rows.len(),
{
    reveal(Seq::filter);
    if rows.len() > 0 {
        lemma_selection_splits(rows.drop_last(), pred, other);
        assert(other(rows.last()) <==> !pred(rows.last()));
    }
}

/// The retained versions of the same path that are newer, by their positions.
pub open spec fn newer_of_same_path(rows: Seq<Version>, row: Version) -> Set<int> {
    Set::new(
        |j: int|
            {
                &&& 0 <= j < rows.len()
                &&& rows[j].group == row.group
                &&& rows[j].path == row.path
                &&& !(rows[j].state is Current)
                &&& rows[j].seq > row.seq
            },
    )
}

/// Expiry takes exactly the superseded and trashed versions of the group that
/// have ten or more newer ones beside them on their own path, are older than
/// thirty days, and are not pinned. What other paths hold plays no part.
pub proof fn law_expiry_counts_each_path_by_itself(
    rows: Seq<Version>,
    group: Seq<char>,
    now: int,
    pinned: Seq<(Seq<char>, int)>,
    i: int,
)
    requires
        0 <= i < rows.len(),
        rows[i].mtime >= i64::MIN,
    ensures
        newer_of_same_path(rows, rows[i]).finite(),
        rows.filter(is_retained(rows, group, now, pinned)).contains(rows[i]) <==> !{
            &&& rows[i].group == group
            &&& rows[i].state is Superseded || rows[i].state is Trashed
            &&& newer_of_same_path(rows, rows[i]).len() >= 10
            &&& rows[i].mtime < now - 30 * 24 * 60 * 60 * 1_000_000_000
            &&& forall|p: int|
                #![trigger pinned[p]]
                0 <= p < pinned.len() ==> pinned[p] != (rows[i].path, rows[i].seq)
        },
        rows.filter(is_expired(rows, group, now, pinned)).len() + rows.filter(
            is_retained(rows, group, now, pinned),
        ).len() == rows.len(),
{
    let row = rows[i];
    lemma_selection_counts(rows, is_newer_retained(row));
    assert(positions(rows, is_newer_retained(row)) =~= newer_of_same_path(rows, row));
    lemma_filter_members(rows, is_retained(rows, group, now, pinned), row);
    lemma_selection_splits(
        rows,
        is_expired(rows, group, now, pinned),
        is_retained(rows, group, now, pinned),
    );
    assert(pinned.contains((row.path, row.seq)) <==> !(forall|p: int|
        #![trigger pinned[p]]
        0 <= p < pinned.len() ==> pinned[p] != (row.path, row.seq)));
    assert(30 * 24 * 60 * 60 * 1_000_000_000 == 2_592_000_000_000_000);
    assert(rows.contains(row));
}

/// Whatever other paths hold, a path keeps the same of its versions: two tables
/// with the same rows of a path expire the same of them.
pub proof fn law_expiry_of_a_path_ignores_other_paths(
    rows: Seq<Version>,
    others: Seq<Version>,
    group: Seq<char>,
    path: Seq<char>,
    now: int,
    pinned: Seq<(Seq<char>, int)>,
    row: Version,
)
    requires
        rows.filter(|row: Version| row.group == group && row.path == path) == others.filter(
            |row: Version| row.group == group && row.path == path,
        ),
        row.group == group,
        row.path == path,
    ensures
        is_expired(rows, group, now, pinned)(row) == is_expired(others, group, now, pinned)(row),
{
    let same = |row: Version| row.group == group && row.path == path;
    lemma_filter_twice(rows, same, is_newer_retained(row));
    lemma_filter_twice(others, same, is_newer_retained(row));
}

/// Selecting within a selection that loses nothing is selecting at once.
proof fn lemma_filter_twice<R>(
    rows: Seq<R>,
    outer: spec_fn(R) -> bool,
    inner: spec_fn(R) -> bool,
)
    requires
        forall|row: R| #[trigger] inner(row) ==> outer(row),
    ensures
        rows.filter(outer).filter(inner) == rows.filter(inner),
    decreases rows.len(),
{
    reveal(Seq::filter);
    if rows.len() > 0 {
        let shorter = rows.drop_last();
        let last = rows.last();
        lemma_filter_twice(shorter, outer, inner);
        if outer(last) {
            let kept = shorter.filter(outer);
            assert(rows.filter(outer) == kept.push(last));
            kept.lemma_filter_push(last, inner);
        } else {
            assert(!inner(last));
        }
    } else {
        assert(rows.filter(outer) =~= rows);
    }
}

/// The entry is what the trash shows of the row at `i`: the newest trashed
/// version of its path, which is now a tombstone, the row at `c`, of the time
/// the entry names.
pub open spec fn shows_trashed(
    rows: Seq<Version>,
    group: Seq<char>,
    i: int,
    c: int,
    entry: TrashEntry,
) -> bool {
    &&& 0 <= i < rows.len()
    &&& 0 <= c < rows.len()
    &&& rows[i].group == group
    &&& rows[i].state is Trashed
    &&& rows[c].group == group
    &&& rows[c].path == rows[i].path
    &&& rows[c].state is Current
    &&& rows[c].deleted
    &&& forall|j: int|
        #![trigger rows[j]]
        0 <= j < rows.len() && rows[j].group == group && rows[j].path == rows[i].path
            && rows[j].state is Trashed ==> rows[j].seq <= rows[i].seq
    &&& entry.path == rows[i].path
    &&& entry.seq == rows[i].seq
    &&& entry.size == rows[i].size
    &&& entry.origin == rows[i].origin
    &&& entry.kind == rows[i].kind
    &&& entry.deleted_at == rows[c].mtime
    &&& rows[i].trashed_by_author is Some && rows[i].trashed_by_id is Some ==> entry.operation
        == Some((rows[i].trashed_by_author->0, rows[i].trashed_by_id->0))
    &&& rows[i].trashed_by_author is None || rows[i].trashed_by_id is None ==> entry.operation
        is None
}

proof fn lemma_in_trash(rows: Seq<Version>, group: Seq<char>, i: int)
    requires
        is_history(rows),
        0 <= i < rows.len(),
    ensures
        is_in_trash(rows, group)(rows[i]) <==> exists|c: int|
            #![trigger rows[c]]
            shows_trashed(rows, group, i, c, trash_entry(rows, group)(rows[i])),
{
    let row = rows[i];
    law_the_current_version_is_the_row_that_stands_there(rows, group, row.path);
    if is_in_trash(rows, group)(row) {
        let now = current(rows, group, row.path)->0;
        let c = choose|c: int| 0 <= c < rows.len() && rows[c] == now;
        assert(shows_trashed(rows, group, i, c, trash_entry(rows, group)(row)));
        assert(rows[c] == now);
    }
    if exists|c: int|
        #![trigger rows[c]]
        shows_trashed(rows, group, i, c, trash_entry(rows, group)(row)) {
        let c = choose|c: int|
            #![trigger rows[c]]
            shows_trashed(rows, group, i, c, trash_entry(rows, group)(row));
        assert(stands_at(rows[c], group, row.path));
    }
}

proof fn lemma_trash_members(
    listed: Seq<TrashEntry>,
    rows: Seq<Version>,
    group: Seq<char>,
    selected: spec_fn(Version) -> bool,
    before: spec_fn(TrashEntry, TrashEntry) -> bool,
)
    requires
        is_trash_listing(listed, rows, group, selected, before),
    ensures
        forall|entry: TrashEntry| #[trigger]
            listed.contains(entry) <==> exists|i: int|
                #![trigger rows[i]]
                0 <= i < rows.len() && selected(rows[i]) && trash_entry(rows, group)(rows[i])
                    == entry,
{
    let chosen = rows.filter(selected);
    let shown = chosen.map_values(trash_entry(rows, group));
    listed.to_multiset_ensures();
    shown.to_multiset_ensures();
    assert forall|entry: TrashEntry| #[trigger] listed.contains(entry) <==> exists|i: int|
        #![trigger rows[i]]
        0 <= i < rows.len() && selected(rows[i]) && trash_entry(rows, group)(rows[i])
            == entry by {
        assert(listed.contains(entry) <==> listed.to_multiset().count(entry) > 0);
        assert(shown.contains(entry) <==> shown.to_multiset().count(entry) > 0);
        if shown.contains(entry) {
            let k = choose|k: int| 0 <= k < shown.len() && shown[k] == entry;
            lemma_filter_members(rows, selected, chosen[k]);
            assert(chosen.contains(chosen[k]));
            let i = choose|i: int| 0 <= i < rows.len() && rows[i] == chosen[k];
            assert(selected(rows[i]) && trash_entry(rows, group)(rows[i]) == entry);
        }
        if exists|i: int|
            #![trigger rows[i]]
            0 <= i < rows.len() && selected(rows[i]) && trash_entry(rows, group)(rows[i])
                == entry {
            let i = choose|i: int|
                #![trigger rows[i]]
                0 <= i < rows.len() && selected(rows[i]) && trash_entry(rows, group)(rows[i])
                    == entry;
            lemma_filter_members(rows, selected, rows[i]);
            assert(rows.contains(rows[i]));
            let k = choose|k: int| 0 <= k < chosen.len() && chosen[k] == rows[i];
            assert(shown[k] == entry);
        }
    }
}

/// The trash holds an entry for each path that was deleted, with the version it
/// last held, and for no other: the path's current version is a tombstone, and
/// the entry names its time. Paths the caller calls live are left out. Later
/// deletions come first.
pub proof fn law_the_trash_holds_what_is_deleted(
    listed: Seq<TrashEntry>,
    rows: Seq<Version>,
    group: Seq<char>,
    live: Seq<Seq<char>>,
)
    requires
        is_history(rows),
        is_trash_listing(
            listed,
            rows,
            group,
            is_listed_trash(rows, group, live),
            deleted_later(),
        ),
    ensures
        forall|entry: TrashEntry| #[trigger]
            listed.contains(entry) <==> !live.contains(entry.path) && exists|i: int, c: int|
                #![trigger rows[i], rows[c]]
                shows_trashed(rows, group, i, c, entry),
        forall|a: int, b: int|
            #![trigger listed[a], listed[b]]
            0 <= a < b < listed.len() ==> listed[a].deleted_at >= listed[b].deleted_at,
{
    let selected = is_listed_trash(rows, group, live);
    lemma_trash_members(listed, rows, group, selected, deleted_later());
    assert forall|entry: TrashEntry| #[trigger]
        listed.contains(entry) <==> !live.contains(entry.path) && exists|i: int, c: int|
            #![trigger rows[i], rows[c]]
            shows_trashed(rows, group, i, c, entry) by {
        if listed.contains(entry) {
            let i = choose|i: int|
                #![trigger rows[i]]
                0 <= i < rows.len() && selected(rows[i]) && trash_entry(rows, group)(rows[i])
                    == entry;
            lemma_in_trash(rows, group, i);
            let c = choose|c: int|
                #![trigger rows[c]]
                shows_trashed(rows, group, i, c, trash_entry(rows, group)(rows[i]));
            assert(shows_trashed(rows, group, i, c, entry));
            assert(rows[i] == rows[i] && rows[c] == rows[c]);
        }
        if !live.contains(entry.path) && exists|i: int, c: int|
            #![trigger rows[i], rows[c]]
            shows_trashed(rows, group, i, c, entry) {
            let (i, c) = choose|i: int, c: int|
                #![trigger rows[i], rows[c]]
                shows_trashed(rows, group, i, c, entry);
            lemma_shown_entry(rows, group, i, c, entry);
            assert(selected(rows[i]) && trash_entry(rows, group)(rows[i]) == entry);
        }
    }
}

proof fn lemma_shown_entry(
    rows: Seq<Version>,
    group: Seq<char>,
    i: int,
    c: int,
    entry: TrashEntry,
)
    requires
        is_history(rows),
        shows_trashed(rows, group, i, c, entry),
    ensures
        trash_entry(rows, group)(rows[i]) == entry,
        is_in_trash(rows, group)(rows[i]),
{
    law_the_current_version_is_the_row_that_stands_there(rows, group, rows[i].path);
    assert(stands_at(rows[c], group, rows[i].path));
    assert(current(rows, group, rows[i].path) == Some(rows[c]));
    lemma_in_trash(rows, group, i);
    assert(shows_trashed(rows, group, i, c, trash_entry(rows, group)(rows[i])));
}

/// What a recursive operation deleted, and is still deleted, is its restore set:
/// the entries of the trash that name it, in path order.
pub proof fn law_a_restore_set_holds_what_its_operation_deleted(
    listed: Seq<TrashEntry>,
    rows: Seq<Version>,
    group: Seq<char>,
    operation: (Seq<char>, Seq<u8>),
    live: Seq<Seq<char>>,
)
    requires
        is_history(rows),
        is_trash_listing(
            listed,
            rows,
            group,
            is_trash_of(rows, group, operation, live),
            by_path(),
        ),
    ensures
        forall|entry: TrashEntry| #[trigger]
            listed.contains(entry) <==> entry.operation == Some(operation) && !live.contains(
                entry.path,
            ) && exists|i: int, c: int|
                #![trigger rows[i], rows[c]]
                shows_trashed(rows, group, i, c, entry),
        forall|a: int, b: int|
            #![trigger listed[a], listed[b]]
            0 <= a < b < listed.len() ==> !text_lt(listed[b].path, listed[a].path),
{
    let selected = is_trash_of(rows, group, operation, live);
    lemma_trash_members(listed, rows, group, selected, by_path());
    assert forall|entry: TrashEntry| #[trigger]
        listed.contains(entry) <==> entry.operation == Some(operation) && !live.contains(
            entry.path,
        ) && exists|i: int, c: int|
            #![trigger rows[i], rows[c]]
            shows_trashed(rows, group, i, c, entry) by {
        if listed.contains(entry) {
            let i = choose|i: int|
                #![trigger rows[i]]
                0 <= i < rows.len() && selected(rows[i]) && trash_entry(rows, group)(rows[i])
                    == entry;
            lemma_in_trash(rows, group, i);
            let c = choose|c: int|
                #![trigger rows[c]]
                shows_trashed(rows, group, i, c, trash_entry(rows, group)(rows[i]));
            assert(shows_trashed(rows, group, i, c, entry));
            assert(rows[i] == rows[i] && rows[c] == rows[c]);
        }
        if entry.operation == Some(operation) && !live.contains(entry.path) && exists|
            i: int,
            c: int,
        |
            #![trigger rows[i], rows[c]]
            shows_trashed(rows, group, i, c, entry) {
            let (i, c) = choose|i: int, c: int|
                #![trigger rows[i], rows[c]]
                shows_trashed(rows, group, i, c, entry);
            lemma_shown_entry(rows, group, i, c, entry);
            assert(selected(rows[i]) && trash_entry(rows, group)(rows[i]) == entry);
        }
    }
}

/// A path with a live current version has no entry in the trash, nor in any
/// operation's restore set.
pub proof fn law_a_live_path_is_not_in_the_trash(
    listed: Seq<TrashEntry>,
    rows: Seq<Version>,
    group: Seq<char>,
    live: Seq<Seq<char>>,
    operation: (Seq<char>, Seq<u8>),
    k: int,
    e: int,
)
    requires
        is_history(rows),
        0 <= k < rows.len(),
        rows[k].group == group,
        rows[k].state is Current,
        !rows[k].deleted,
        is_trash_listing(
            listed,
            rows,
            group,
            is_listed_trash(rows, group, live),
            deleted_later(),
        ) || is_trash_listing(
            listed,
            rows,
            group,
            is_trash_of(rows, group, operation, live),
            by_path(),
        ),
        0 <= e < listed.len(),
    ensures
        listed[e].path != rows[k].path,
{
    let entry = listed[e];
    assert(listed.contains(entry));
    if is_trash_listing(listed, rows, group, is_listed_trash(rows, group, live), deleted_later()) {
        law_the_trash_holds_what_is_deleted(listed, rows, group, live);
    } else {
        law_a_restore_set_holds_what_its_operation_deleted(listed, rows, group, operation, live);
    }
    let (i, c) = choose|i: int, c: int|
        #![trigger rows[i], rows[c]]
        shows_trashed(rows, group, i, c, entry);
    if entry.path == rows[k].path {
        law_the_current_version_is_the_row_that_stands_there(rows, group, entry.path);
        assert(stands_at(rows[k], group, entry.path) && stands_at(rows[c], group, entry.path));
    }
}

/// Restoring a path takes it out of the trash: after a record that is not
/// deleted is written, no entry of its path is listed.
pub proof fn law_a_restored_path_leaves_the_trash(
    listed: Seq<TrashEntry>,
    rows: Seq<Version>,
    changes: Changes,
    group: Seq<char>,
    entry: FileEntry,
    origin: Seq<char>,
    author: Option<ChangeHash>,
    now: Option<i64>,
    live: Seq<Seq<char>>,
    e: int,
)
    requires
        is_history(rows),
        !entry.deleted,
        upsert(rows, changes, new_version(changes, group, entry, origin, author, now)) is Ok,
        is_trash_listing(
            listed,
            upsert(rows, changes, new_version(changes, group, entry, origin, author, now))->Ok_0,
            group,
            is_listed_trash(
                upsert(
                    rows,
                    changes,
                    new_version(changes, group, entry, origin, author, now),
                )->Ok_0,
                group,
                live,
            ),
            deleted_later(),
        ),
        0 <= e < listed.len(),
    ensures
        listed[e].path != entry.path,
{
    let new = new_version(changes, group, entry, origin, author, now);
    let after = upsert(rows, changes, new)->Ok_0;
    crate::file_upsert::lemma_written_is_history(rows, new, 0);
    let operation = (Seq::<char>::empty(), Seq::<u8>::empty());
    law_the_current_version_is_the_row_that_stands_there(rows, group, entry.path);
    if is_vacant(rows, group, entry.path) {
        law_a_first_version_claims_nothing(rows, changes, group, entry, origin, author, now);
        law_a_live_path_is_not_in_the_trash(
            listed,
            after,
            group,
            live,
            operation,
            rows.len() as int,
            e,
        );
    } else {
        let row = current(rows, group, entry.path)->0;
        let k = choose|k: int| 0 <= k < rows.len() && rows[k] == row;
        assert(stands_at(rows[k], group, entry.path));
        if rows[k].seq > 0 {
            law_a_next_version_carries_on_and_displaces_the_last(
                rows,
                changes,
                group,
                entry,
                origin,
                author,
                now,
                k,
            );
            law_a_live_path_is_not_in_the_trash(
                listed,
                after,
                group,
                live,
                operation,
                rows.len() as int,
                e,
            );
        } else {
            law_a_scaffold_becomes_the_version_it_was_for(
                rows,
                changes,
                group,
                entry,
                origin,
                author,
                now,
                k,
            );
            law_a_live_path_is_not_in_the_trash(listed, after, group, live, operation, k, e);
        }
    }
}

/// A version that names a recursive operation by anything but sixteen bytes is
/// what a listing of the trash stumbles over; one that names none is not.
pub proof fn law_an_operation_is_named_by_sixteen_bytes(row: Version)
    ensures
        names_no_operation(row) <==> row.trashed_by_author is Some && (
        row.trashed_by_id matches Some(id) && id.len() != 16),
{
}

/// Some block of a row of the group, any of its blocks, has the hash.
pub open spec fn some_block_has(rows: Seq<Version>, group: Seq<char>, hash: Seq<u8>) -> bool {
    exists|i: int, k: int|
        #![trigger rows[i].blocks->Ok_0[k]]
        0 <= i < rows.len() && rows[i].group == group && rows[i].blocks is Ok && 0 <= k
            < rows[i].blocks->Ok_0.len() && rows[i].blocks->Ok_0[k].hash == hash
}

/// The search for a block answers whether any version of the group, in whatever
/// state, holds it anywhere in its list. It fails only over a list of the group
/// that does not read.
pub proof fn law_the_search_finds_every_referenced_block(
    rows: Seq<Version>,
    group: Seq<char>,
    hash: Seq<u8>,
)
    ensures
        (forall|i: int|
            #![trigger rows[i]]
            0 <= i < rows.len() && rows[i].group == group ==> rows[i].blocks is Ok)
            ==> block_search(rows, group, hash) == Ok::<bool, Failure>(
            some_block_has(rows, group, hash),
        ),
        block_search(rows, group, hash) == Ok::<bool, Failure>(true) ==> some_block_has(
            rows,
            group,
            hash,
        ),
        block_search(rows, group, hash) == Ok::<bool, Failure>(false) ==> !some_block_has(
            rows,
            group,
            hash,
        ) && forall|i: int|
            #![trigger rows[i]]
            0 <= i < rows.len() && rows[i].group == group ==> rows[i].blocks is Ok,
        block_search(rows, group, hash) is Err ==> exists|i: int|
            #![trigger rows[i]]
            0 <= i < rows.len() && rows[i].group == group && rows[i].blocks is Err,
    decreases rows.len(),
{
    if rows.len() > 0 {
        let tail = rows.skip(1);
        law_the_search_finds_every_referenced_block(tail, group, hash);
        assert forall|i: int| #![trigger tail[i]] 0 <= i < tail.len() implies tail[i] == rows[i
            + 1] by {}
        let first = rows[0];
        if some_block_has(tail, group, hash) {
            let (i, k) = choose|i: int, k: int|
                #![trigger tail[i].blocks->Ok_0[k]]
                0 <= i < tail.len() && tail[i].group == group && tail[i].blocks is Ok && 0 <= k
                    < tail[i].blocks->Ok_0.len() && tail[i].blocks->Ok_0[k].hash == hash;
            assert(rows[i + 1] == tail[i]);
            assert(rows[i + 1].blocks->Ok_0[k].hash == hash);
        }
        if some_block_has(rows, group, hash) {
            let (i, k) = choose|i: int, k: int|
                #![trigger rows[i].blocks->Ok_0[k]]
                0 <= i < rows.len() && rows[i].group == group && rows[i].blocks is Ok && 0 <= k
                    < rows[i].blocks->Ok_0.len() && rows[i].blocks->Ok_0[k].hash == hash;
            if i > 0 {
                assert(tail[i - 1] == rows[i]);
                assert(tail[i - 1].blocks->Ok_0[k].hash == hash);
            } else {
                assert(first.blocks->Ok_0[k].hash == hash);
            }
        }
        if first.group == group && first.blocks is Ok {
            let blocks = first.blocks->Ok_0;
            if any(blocks, |block: Block| block.hash == hash) {
                let k = choose|k: int|
                    #![trigger blocks[k]]
                    0 <= k < blocks.len() && blocks[k].hash == hash;
                assert(rows[0].blocks->Ok_0[k].hash == hash);
            }
        }
        if exists|i: int|
            #![trigger tail[i]]
            0 <= i < tail.len() && tail[i].group == group && tail[i].blocks is Err {
            let i = choose|i: int|
                #![trigger tail[i]]
                0 <= i < tail.len() && tail[i].group == group && tail[i].blocks is Err;
            assert(rows[i + 1] == tail[i]);
        }
        if forall|i: int|
            #![trigger tail[i]]
            0 <= i < tail.len() && tail[i].group == group ==> tail[i].blocks is Ok {
            assert forall|i: int|
                #![trigger rows[i]]
                1 <= i < rows.len() && rows[i].group == group implies rows[i].blocks is Ok by {
                assert(tail[i - 1] == rows[i]);
            }
        }
    }
}

/// The durable roots of a group are its file versions that hold content, in
/// whatever state, and nothing else, by path and then by version.
pub proof fn law_the_roots_are_every_file_version_with_content(
    listed: Seq<Version>,
    rows: Seq<Version>,
    group: Seq<char>,
)
    requires
        is_root_listing(listed, rows, group),
    ensures
        forall|row: Version| #[trigger]
            listed.contains(row) <==> rows.contains(row) && row.group == group && !row.deleted
                && row.kind is File,
        listed.len() == Set::new(
            |i: int|
                0 <= i < rows.len() && rows[i].group == group && !rows[i].deleted && rows[i].kind
                    is File,
        ).len(),
        forall|a: int, b: int|
            #![trigger listed[a], listed[b]]
            0 <= a < b < listed.len() ==> !text_lt(listed[b].path, listed[a].path) && (
            listed[a].path == listed[b].path ==> listed[a].seq <= listed[b].seq),
        root_keys(listed).len() == listed.len(),
        forall|a: int|
            #![trigger root_keys(listed)[a]]
            0 <= a < listed.len() ==> root_keys(listed)[a] == (listed[a].path, listed[a].seq),
{
    let pred = crate::durability::is_root(group);
    lemma_listed_members(listed, rows, pred, root_order());
    lemma_selection_counts(rows, pred);
    assert(positions(rows, pred) =~= Set::new(
        |i: int|
            0 <= i < rows.len() && rows[i].group == group && !rows[i].deleted && rows[i].kind
                is File,
    ));
    assert forall|a: int, b: int|
        #![trigger listed[a], listed[b]]
        0 <= a < b < listed.len() implies !text_lt(listed[b].path, listed[a].path) && (
    listed[a].path == listed[b].path ==> listed[a].seq <= listed[b].seq) by {
        assert(!root_order()(listed[b], listed[a]));
    }
}

/// The entry says of the row what there is to say, the mode by its replicated
/// bits.
pub open spec fn shows_version(entry: VersionEntry, row: Version, mask: u32) -> bool {
    &&& entry.path == row.path
    &&& entry.seq == row.seq
    &&& entry.size == row.size
    &&& entry.mtime == row.mtime
    &&& row.blocks == Ok::<Seq<Block>, Seq<char>>(entry.blocks)
    &&& entry.deleted == row.deleted
    &&& entry.state == row.state
    &&& entry.origin == row.origin
    &&& entry.kind == row.kind
    &&& entry.symlink_target == row.symlink_target
    &&& row.unix_mode < 0 <==> entry.unix_mode is None
    &&& entry.unix_mode matches Some(bits) ==> bits == (row.unix_mode as u32) & mask
    &&& attributes_of(row.xattrs_json) is Ok
    &&& attributes_of(row.xattrs_json)->Ok_0 == entry.xattrs
}

/// A version reads exactly where its block list and its attributes do, and then
/// as what its row holds.
pub proof fn law_a_version_reads_as_its_row(row: Version, mask: u32)
    ensures
        version_of(row, mask) is Ok <==> row.blocks is Ok && attributes_of(row.xattrs_json) is Ok,
        version_of(row, mask) matches Ok(entry) ==> shows_version(entry, row, mask),
        version_of(row, mask) matches Err(failure) ==> failure is CorruptState,
{
}

/// Roots read one by one, in order, as what their rows hold; the reading fails
/// exactly where one of them does not read.
pub proof fn law_roots_read_one_by_one(listed: Seq<Version>, mask: u32)
    ensures
        read_versions(listed, mask) is Ok <==> forall|i: int|
            #![trigger listed[i]]
            0 <= i < listed.len() ==> listed[i].blocks is Ok && attributes_of(
                listed[i].xattrs_json,
            ) is Ok,
        read_versions(listed, mask) matches Ok(entries) ==> entries.len() == listed.len()
            && forall|i: int|
            #![trigger entries[i]]
            0 <= i < listed.len() ==> shows_version(entries[i], listed[i], mask),
    decreases listed.len(),
{
    if listed.len() > 0 {
        let shorter = listed.drop_last();
        law_roots_read_one_by_one(shorter, mask);
        law_a_version_reads_as_its_row(listed.last(), mask);
        assert forall|i: int| #![trigger shorter[i]] 0 <= i < shorter.len() implies shorter[i]
            == listed[i] by {}
        assert(listed[listed.len() - 1] == listed.last());
        if read_versions(listed, mask) is Ok {
            assert forall|i: int|
                #![trigger listed[i]]
                0 <= i < listed.len() implies listed[i].blocks is Ok && attributes_of(
                listed[i].xattrs_json,
            ) is Ok by {
                if i < shorter.len() {
                    assert(shorter[i] == listed[i]);
                }
            }
        } else if forall|i: int|
            #![trigger listed[i]]
            0 <= i < listed.len() ==> listed[i].blocks is Ok && attributes_of(
                listed[i].xattrs_json,
            ) is Ok {
            assert forall|i: int|
                #![trigger shorter[i]]
                0 <= i < shorter.len() implies shorter[i].blocks is Ok && attributes_of(
                shorter[i].xattrs_json,
            ) is Ok by {
                assert(shorter[i] == listed[i]);
            }
        }
    }
}

/// A summary counts the roots, the current ones among them, and those current
/// ones whose content is not materialized here.
pub proof fn law_a_summary_counts_what_is_missing_here(
    listed: Seq<Version>,
    mask: u32,
    generation: int,
    result: Result<RootSet, SyncSqliteError>,
)
    requires
        summarized(listed, mask, generation, result),
        result is Ok,
    ensures
        result->Ok_0.roots_count == listed.len(),
        result->Ok_0.roots@.len() == listed.len(),
        result->Ok_0.generation == generation,
        forall|i: int|
            #![trigger result->Ok_0.roots@[i]]
            0 <= i < listed.len() ==> shows_version(result->Ok_0.roots@[i]@, listed[i], mask),
        result->Ok_0.current_count == Set::new(
            |i: int| 0 <= i < listed.len() && listed[i].state is Current,
        ).len(),
        result->Ok_0.current@.len() == result->Ok_0.current_count,
        forall|c: int|
            #![trigger result->Ok_0.current@[c]]
            0 <= c < result->Ok_0.current@.len() ==> exists|i: int|
                #![trigger listed[i]]
                0 <= i < listed.len() && listed[i].state is Current && shows_version(
                    result->Ok_0.current@[c]@,
                    listed[i],
                    mask,
                ),
        result->Ok_0.unmaterialized_current_count == Set::new(
            |i: int|
                0 <= i < listed.len() && listed[i].state is Current && !(listed[i].materialization
                    is Hydrated),
        ).len(),
{
    law_roots_read_one_by_one(listed, mask);
    let standing = listed.filter(is_current_row());
    law_roots_read_one_by_one(standing, mask);
    lemma_selection_counts(listed, is_current_row());
    lemma_selection_counts(listed, is_unmaterialized_current());
    assert(positions(listed, is_current_row()) =~= Set::new(
        |i: int| 0 <= i < listed.len() && listed[i].state is Current,
    ));
    assert(positions(listed, is_unmaterialized_current()) =~= Set::new(
        |i: int|
            0 <= i < listed.len() && listed[i].state is Current && !(listed[i].materialization
                is Hydrated),
    ));
    let set = result->Ok_0;
    let entries = read_versions(listed, mask)->Ok_0;
    assert(views(set.roots@) == entries);
    assert forall|i: int|
        #![trigger set.roots@[i]]
        0 <= i < listed.len() implies shows_version(set.roots@[i]@, listed[i], mask) by {
        assert(views(set.roots@)[i] == set.roots@[i]@);
    }
    assert forall|c: int|
        #![trigger set.current@[c]]
        0 <= c < set.current@.len() implies exists|i: int|
        #![trigger listed[i]]
        0 <= i < listed.len() && listed[i].state is Current && shows_version(
            set.current@[c]@,
            listed[i],
            mask,
        ) by {
        assert(views(set.current@)[c] == set.current@[c]@);
        lemma_filter_members(listed, is_current_row(), standing[c]);
        assert(standing.contains(standing[c]));
        let i = choose|i: int| 0 <= i < listed.len() && listed[i] == standing[c];
        assert(listed[i].state is Current);
    }
}

/// A record says of the row what there is to say.
pub open spec fn shows_record(entry: FileEntry, row: Version) -> bool {
    &&& entry.path == row.path
    &&& entry.size == row.size
    &&& entry.mtime == row.mtime
    &&& row.blocks == Ok::<Seq<Block>, Seq<char>>(entry.blocks)
    &&& entry.deleted == row.deleted
}

/// The record of a path is what the row that stands there holds; there is none
/// where nothing stands, and a failure where its block list does not read.
pub proof fn law_a_path_reads_as_the_row_that_stands_there(
    rows: Seq<Version>,
    group: Seq<char>,
    path: Seq<char>,
)
    requires
        is_history(rows),
    ensures
        is_vacant(rows, group, path) <==> file_at(rows, group, path) == Ok::<
            Option<FileEntry>,
            Failure,
        >(None),
        forall|k: int|
            #![trigger rows[k]]
            0 <= k < rows.len() && stands_at(rows[k], group, path) ==> match file_at(
                rows,
                group,
                path,
            ) {
                Ok(Some(entry)) => shows_record(entry, rows[k]),
                Ok(None) => false,
                Err(failure) => rows[k].blocks is Err && failure is CorruptState,
            },
{
    law_the_current_version_is_the_row_that_stands_there(rows, group, path);
}

/// Selected rows read one by one, in order, as what they hold; the reading fails
/// exactly where a block list does not read.
pub proof fn law_records_read_one_by_one(rows: Seq<Version>)
    ensures
        read_all(rows) is Ok <==> forall|i: int|
            #![trigger rows[i]]
            0 <= i < rows.len() ==> rows[i].blocks is Ok,
        read_all(rows) matches Ok(entries) ==> entries.len() == rows.len() && forall|i: int|
            #![trigger entries[i]]
            0 <= i < rows.len() ==> shows_record(entries[i], rows[i]),
    decreases rows.len(),
{
    if rows.len() > 0 {
        let shorter = rows.drop_last();
        law_records_read_one_by_one(shorter);
        assert forall|i: int| #![trigger shorter[i]] 0 <= i < shorter.len() implies shorter[i]
            == rows[i] by {}
        assert(rows[rows.len() - 1] == rows.last());
        assert(entry_of(rows.last()) is Ok <==> rows.last().blocks is Ok);
        if read_all(rows) is Ok {
            assert forall|i: int| #![trigger rows[i]] 0 <= i < rows.len() implies rows[i].blocks
                is Ok by {
                if i < shorter.len() {
                    assert(shorter[i] == rows[i]);
                }
            }
        } else if forall|i: int|
            #![trigger rows[i]]
            0 <= i < rows.len() ==> rows[i].blocks is Ok {
            assert forall|i: int|
                #![trigger shorter[i]]
                0 <= i < shorter.len() implies shorter[i].blocks is Ok by {
                assert(shorter[i] == rows[i]);
            }
        }
    }
}

/// What each listing of current versions selects: all of the group's, those of
/// the paths asked for, the live ones, which are counted, and those without a
/// known author.
pub proof fn law_listings_select_current_versions_of_the_group(
    index: FileIndex,
    group: Seq<char>,
    paths: Seq<Seq<char>>,
    row: Version,
)
    ensures
        index.files.filter(is_current_in(group)).contains(row) <==> index.files.contains(row)
            && row.group == group && row.state is Current,
        index.files.filter(is_current_among(group, paths)).contains(row)
            <==> index.files.contains(row) && row.group == group && row.state is Current
            && paths.contains(row.path),
        index.files.filter(is_live_in(group)).len() == Set::new(
            |i: int|
                0 <= i < index.files.len() && index.files[i].group == group
                    && index.files[i].state is Current && !index.files[i].deleted,
        ).len(),
        index.files.filter(is_unauthored_in(index, group)).contains(row)
            <==> index.files.contains(row) && row.group == group && row.state is Current && row.seq
            > 0 && !crate::file_effect_laws::is_vouched(index.changes, group, row.authoring),
{
    let rows = index.files;
    lemma_filter_members(rows, is_current_in(group), row);
    lemma_filter_members(rows, is_current_among(group, paths), row);
    lemma_filter_members(rows, is_unauthored_in(index, group), row);
    lemma_selection_counts(rows, is_live_in(group));
    assert(positions(rows, is_live_in(group)) =~= Set::new(
        |i: int|
            0 <= i < index.files.len() && index.files[i].group == group && index.files[i].state
                is Current && !index.files[i].deleted,
    ));
}

/// A version is found by its group, its path and its number.
pub proof fn law_a_version_is_found_by_its_number(
    rows: Seq<Version>,
    group: Seq<char>,
    path: Seq<char>,
    seq: int,
)
    requires
        is_history(rows),
    ensures
        forall|i: int|
            #![trigger rows[i]]
            0 <= i < rows.len() ==> (rows[i].group == group && rows[i].path == path && rows[i].seq
                == seq <==> first_where(rows, is_version(group, path, seq)) == Some(rows[i])),
        first_where(rows, is_version(group, path, seq)) matches Some(row) ==> rows.contains(row),
{
    let pred = is_version(group, path, seq);
    lemma_first_where(rows, pred);
    assert forall|i: int| #![trigger rows[i]] 0 <= i < rows.len() implies (rows[i].group == group
        && rows[i].path == path && rows[i].seq == seq <==> first_where(rows, pred) == Some(
        rows[i],
    )) by {
        if rows[i].group == group && rows[i].path == path && rows[i].seq == seq {
            assert forall|j: int| 0 <= j < i implies !pred(#[trigger] rows[j]) by {
                if pred(rows[j]) {
                    assert(crate::file_rows::same_path(rows[j], rows[i]));
                }
            }
            lemma_first_where_at(rows, pred, i);
        }
    }
}

/// A stored version reads exactly where its block list, its attributes and the
/// name of its state do, and then as what its columns hold.
pub proof fn law_a_stored_version_reads_as_its_columns(stored: StoredVersion, mask: u32)
    ensures
        read_version(stored, mask) is Ok <==> stored.blocks is Ok && attributes_of(
            stored.xattrs_json@,
        ) is Ok && VersionState::of_stored_name(stored.state@) is Some,
        read_version(stored, mask) matches Ok(entry) ==> {
            &&& entry.path == stored.path@
            &&& entry.seq == stored.version_seq
            &&& entry.size == stored.size
            &&& entry.mtime == stored.mtime_unix_nanos
            &&& entry.blocks == views(stored.blocks->Ok_0@)
            &&& entry.deleted <==> stored.deleted != 0
            &&& VersionState::of_stored_name(stored.state@) == Some(entry.state)
            &&& stored.origin_device_id matches Some(device) ==> entry.origin == Some(device@)
            &&& stored.origin_device_id is None ==> entry.origin is None
            &&& entry.kind == RecordKind::of_stored_name(stored.record_kind@)
            &&& stored.symlink_target matches Some(target) ==> entry.symlink_target == Some(target@)
            &&& stored.symlink_target is None ==> entry.symlink_target is None
            &&& stored.unix_mode < 0 <==> entry.unix_mode is None
            &&& entry.unix_mode matches Some(bits) ==> bits == (stored.unix_mode as u32) & mask
            &&& attributes_of(stored.xattrs_json@)->Ok_0 == entry.xattrs
        },
{
    assert(stored_mode(stored.unix_mode as int, mask) is None <==> stored.unix_mode < 0);
}

} // verus!
