//! Every write to the file index keeps the groups' counters up with their rows.

use vstd::prelude::*;

use crate::actual_state::with_capture;
use crate::file_metadata::{
    claim_stripped, claims_content, column_changed, current_changed, keeps_key,
    lemma_change_keeps_history, scaffold, scaffold_given, with_materialization, with_meta,
    without_claim,
};
use crate::file_queries::is_not_at;
use crate::file_rows::{
    is_at, is_current_at, is_history, Capture, Changes, FileIndex, RecursiveOperationRef, Version,
};
use crate::file_upsert::{
    current, displaced, lemma_one_current, lemma_written_is_history, made_current, new_version,
    upsert, written, NewVersion,
};
use crate::file_versions::{is_expired, is_retained};
use crate::index_vocabulary::MaterializationState;
use crate::local_capture::{
    capture, captured, described, settled, CaptureItem, LocalCaptureActualStateEvidence,
    PreparedLocalMutation, Verdict,
};
use crate::local_mutations::part_items;
use crate::recursive_operation::{part_admitted, parts_written};
use crate::recursive_part::PartEmission;
use crate::root_counter::{
    counted, generation_of, law_a_raised_counter_moves_up_alone,
    law_counting_carries_over_several_writes, lemma_delete_stays_in, lemma_insert_stays_in,
    lemma_only_in_twice, lemma_touched_is_counted, lemma_untouched_rows_are_counted,
    lemma_update_stays_in, moved, only_in, touched, touched_if,
};
use crate::rows::{any, lemma_filter_members, lemma_first_where, lemma_set_where_none, set_where};

verus! {

/// A written version changes its own group only.
proof fn lemma_written_stays_in(rows: Seq<Version>, new: NewVersion)
    ensures
        only_in(rows, written(rows, new), new.group),
{
    let pred = is_current_at(new.group, new.entry.path);
    let made = made_current(rows, new);
    lemma_first_where(rows, pred);
    assert(made.group == new.group);
    match current(rows, new.group, new.entry.path) {
        None => {
            lemma_insert_stays_in(rows, made);
        },
        Some(row) => {
            if row.seq == 0 {
                lemma_update_stays_in(rows, pred, |row: Version| made, new.group);
            } else {
                let f = |row: Version| displaced(row, new);
                lemma_update_stays_in(rows, pred, f, new.group);
                let between = set_where(rows, pred, f);
                lemma_insert_stays_in(between, made);
                lemma_only_in_twice(rows, between, between.push(made), new.group);
            }
        },
    }
}

/// A version that is written raises the counter of its group, which is then
/// never 0.
pub proof fn law_an_upsert_is_counted(index: FileIndex, new: NewVersion)
    ensures
        upsert(index.files, index.changes, new) matches Ok(files) ==> {
            let after = touched(FileIndex { files, ..index }, new.group);
            &&& counted(index, after)
            &&& moved(index, after, new.group)
            &&& generation_of(after.generations, new.group) > 0
        },
{
    if upsert(index.files, index.changes, new) is Ok {
        lemma_written_stays_in(index.files, new);
        lemma_touched_is_counted(
            index,
            touched(FileIndex { files: written(index.files, new), ..index }, new.group),
            new.group,
        );
        law_a_raised_counter_moves_up_alone(index.generations, new.group);
    }
}

/// Columns set on a path's current version raise the counter of its group; on
/// a path without one nothing changes.
pub proof fn law_a_changed_column_is_counted(
    index: FileIndex,
    group: Seq<char>,
    path: Seq<char>,
    f: spec_fn(Version) -> Version,
)
    requires
        keeps_key(f),
    ensures
        counted(index, column_changed(index, group, path, f)),
        current(index.files, group, path) is Some ==> moved(
            index,
            column_changed(index, group, path, f),
            group,
        ),
        current(index.files, group, path) is None ==> column_changed(index, group, path, f)
            == index,
{
    let pred = is_current_at(group, path);
    lemma_first_where(index.files, pred);
    if current(index.files, group, path) is Some {
        assert forall|row: Version| #[trigger] pred(row) implies row.group == group && f(row).group
            == group by {
            assert(f(row).group == row.group);
        }
        lemma_update_stays_in(index.files, pred, f, group);
        lemma_touched_is_counted(index, column_changed(index, group, path, f), group);
    } else {
        assert forall|j: int| 0 <= j < index.files.len() implies !pred(
            #[trigger] index.files[j],
        ) by {
            if pred(index.files[j]) {
                assert(any(index.files, pred));
            }
        }
        lemma_set_where_none(index.files, pred, f);
        lemma_untouched_rows_are_counted(index, column_changed(index, group, path, f));
    }
}

/// A claim taken back raises the counter of the group; where none was made
/// nothing changes.
pub proof fn law_a_stripped_claim_is_counted(index: FileIndex, group: Seq<char>, path: Seq<char>)
    requires
        is_history(index.files),
    ensures
        counted(index, claim_stripped(index, group, path)),
        claims_content(index.files, group, path) ==> moved(
            index,
            claim_stripped(index, group, path),
            group,
        ),
        !claims_content(index.files, group, path) ==> claim_stripped(index, group, path) == index,
{
    let pred = is_current_at(group, path);
    let f = without_claim();
    lemma_first_where(index.files, pred);
    if claims_content(index.files, group, path) {
        lemma_update_stays_in(index.files, pred, f, group);
        lemma_touched_is_counted(index, claim_stripped(index, group, path), group);
    } else {
        lemma_one_current(index.files, group, path);
        assert(current_changed(index.files, group, path, f) =~= index.files) by {
            assert forall|i: int| 0 <= i < index.files.len() implies #[trigger] current_changed(
                index.files,
                group,
                path,
                f,
            )[i] == index.files[i] by {
                let row = index.files[i];
                if pred(row) {
                    let found = current(index.files, group, path)->0;
                    let k = choose|k: int|
                        0 <= k < index.files.len() && index.files[k] == found;
                    assert(pred(index.files[k]));
                    assert(k == i);
                }
            }
        }
        lemma_untouched_rows_are_counted(index, claim_stripped(index, group, path));
    }
}

/// A scaffold that is given raises the counter of the group.
pub proof fn law_a_scaffold_is_counted(
    index: FileIndex,
    group: Seq<char>,
    path: Seq<char>,
    now: Option<i64>,
)
    ensures
        counted(index, scaffold_given(index, group, path, now)),
        current(index.files, group, path) is None ==> moved(
            index,
            scaffold_given(index, group, path, now),
            group,
        ),
{
    if current(index.files, group, path) is None {
        lemma_insert_stays_in(index.files, scaffold(group, path, now));
        lemma_touched_is_counted(index, scaffold_given(index, group, path, now), group);
    } else {
        lemma_untouched_rows_are_counted(index, scaffold_given(index, group, path, now));
    }
}

/// Versions of a path that are erased raise the counter of the group; where
/// there was none nothing changes.
pub proof fn law_a_removal_is_counted(index: FileIndex, group: Seq<char>, path: Seq<char>)
    ensures
        ({
            let after = touched_if(
                FileIndex { files: index.files.filter(is_not_at(group, path)), ..index },
                group,
                any(index.files, is_at(group, path)),
            );
            &&& counted(index, after)
            &&& any(index.files, is_at(group, path)) ==> moved(index, after, group)
            &&& !any(index.files, is_at(group, path)) ==> after == index
        }),
{
    let kept = is_not_at(group, path);
    let after = FileIndex { files: index.files.filter(kept), ..index };
    lemma_delete_stays_in(index.files, kept, group);
    if any(index.files, is_at(group, path)) {
        lemma_touched_is_counted(index, touched(after, group), group);
    } else {
        assert forall|i: int| 0 <= i < index.files.len() implies kept(
            #[trigger] index.files[i],
        ) by {
            if !kept(index.files[i]) {
                assert(is_at(group, path)(index.files[i]));
            }
        }
        lemma_filter_of_all(index.files, kept);
        lemma_untouched_rows_are_counted(index, after);
    }
}

/// Expired versions that go raise the counter of the group; where none is
/// expired nothing changes.
pub proof fn law_an_expiry_is_counted(
    index: FileIndex,
    group: Seq<char>,
    now: int,
    pinned: Seq<(Seq<char>, int)>,
)
    ensures
        ({
            let expired = index.files.filter(is_expired(index.files, group, now, pinned));
            let after = touched_if(
                FileIndex {
                    files: index.files.filter(is_retained(index.files, group, now, pinned)),
                    ..index
                },
                group,
                expired.len() > 0,
            );
            &&& counted(index, after)
            &&& expired.len() > 0 ==> moved(index, after, group)
            &&& expired.len() == 0 ==> after == index
        }),
{
    let kept = is_retained(index.files, group, now, pinned);
    let gone = is_expired(index.files, group, now, pinned);
    let after = FileIndex { files: index.files.filter(kept), ..index };
    lemma_delete_stays_in(index.files, kept, group);
    if index.files.filter(gone).len() > 0 {
        lemma_touched_is_counted(index, touched(after, group), group);
    } else {
        assert forall|i: int| 0 <= i < index.files.len() implies kept(
            #[trigger] index.files[i],
        ) by {
            let row = index.files[i];
            if !kept(row) {
                assert(gone(row));
                assert(index.files.contains(row));
                lemma_filter_members(index.files, gone, row);
                assert(index.files.filter(gone).contains(row));
            }
        }
        lemma_filter_of_all(index.files, kept);
        lemma_untouched_rows_are_counted(index, after);
    }
}

/// Selecting what every row meets selects them all.
proof fn lemma_filter_of_all(rows: Seq<Version>, pred: spec_fn(Version) -> bool)
    requires
        forall|i: int| 0 <= i < rows.len() ==> pred(#[trigger] rows[i]),
    ensures
        rows.filter(pred) == rows,
    decreases rows.len(),
{
    if rows.len() == 0 {
        assert(rows.filter(pred) =~= rows);
    } else {
        let shorter = rows.drop_last();
        assert forall|i: int| 0 <= i < shorter.len() implies pred(#[trigger] shorter[i]) by {
            assert(shorter[i] == rows[i]);
        }
        lemma_filter_of_all(shorter, pred);
        assert(rows =~= shorter.push(rows.last()));
        assert(pred(rows[rows.len() - 1]));
        shorter.lemma_filter_push(rows.last(), pred);
    }
}

/// A capture that is written raises the counter of its group.
pub proof fn law_a_capture_is_counted(
    index: FileIndex,
    group: Seq<char>,
    item: CaptureItem,
    origin: Seq<char>,
    mask: u32,
    now: Option<i64>,
)
    requires
        is_history(index.files),
    ensures
        capture(index, group, item, origin, mask, now) matches Ok(after) ==> counted(index, after)
            && moved(index, after, group),
{
    let new = new_version(index.changes, group, item.entry, origin, item.author, now);
    let path = item.entry.path;
    if capture(index, group, item, origin, mask, now) is Ok {
        let files = upsert(index.files, index.changes, new)->Ok_0;
        law_an_upsert_is_counted(index, new);
        lemma_written_is_history(index.files, new, 0);
        let written = touched(FileIndex { files, ..index }, group);
        let recorded = touched(
            FileIndex {
                files,
                captures: match item.author {
                    Some(hash) => with_capture(
                        index.captures,
                        Capture { group, path, change: hash },
                    ),
                    None => index.captures,
                },
                ..index
            },
            group,
        );
        lemma_untouched_rows_are_counted(written, recorded);
        law_counting_carries_over_several_writes(index, written, recorded);
        let told = described(recorded, group, path, item.meta, mask);
        match item.meta {
            Some(meta) => {
                law_a_changed_column_is_counted(recorded, group, path, with_meta(meta, mask));
                lemma_change_keeps_history(
                    recorded.files,
                    group,
                    path,
                    with_meta(meta, mask),
                    0,
                );
            },
            None => {
                lemma_untouched_rows_are_counted(recorded, told);
            },
        }
        law_counting_carries_over_several_writes(index, recorded, told);
        let after = settled(told, group, path, item.verdict, item.heads);
        let proven = FileIndex { proofs: after.proofs, ..told };
        lemma_untouched_rows_are_counted(told, proven);
        law_counting_carries_over_several_writes(index, told, proven);
        match item.verdict {
            Verdict::Present { .. } => {
                law_a_changed_column_is_counted(
                    proven,
                    group,
                    path,
                    with_materialization(MaterializationState::Hydrated),
                );
            },
            _ => {
                law_a_stripped_claim_is_counted(proven, group, path);
            },
        }
        law_counting_carries_over_several_writes(index, proven, after);
    }
}

/// Captures written one after the other, under whatever changes, keep the
/// counters up with the rows.
pub proof fn law_captures_are_counted(
    index: FileIndex,
    changes: Changes,
    group: Seq<char>,
    items: Seq<CaptureItem>,
    origin: Seq<char>,
    mask: u32,
    now: Option<i64>,
)
    requires
        is_history(index.files),
    ensures
        captured(FileIndex { changes, ..index }, group, items, origin, mask, now) matches Ok(after)
            ==> counted(index, after) && is_history(after.files),
    decreases items.len(),
{
    let start = FileIndex { changes, ..index };
    if items.len() == 0 {
        lemma_untouched_rows_are_counted(index, start);
    } else if captured(start, group, items, origin, mask, now) is Ok {
        law_captures_are_counted(index, changes, group, items.drop_last(), origin, mask, now);
        let before = captured(start, group, items.drop_last(), origin, mask, now)->Ok_0;
        let after = captured(start, group, items, origin, mask, now)->Ok_0;
        law_a_capture_is_counted(before, group, items.last(), origin, mask, now);
        lemma_capture_keeps_history(before, group, items.last(), origin, mask, now);
        law_counting_carries_over_several_writes(index, before, after);
    }
}

/// A recursive operation, part by part, keeps the counters up with the rows.
pub proof fn law_a_recursive_operation_is_counted(
    index: FileIndex,
    group: Seq<char>,
    mutations: Seq<PreparedLocalMutation>,
    evidence: Seq<Option<LocalCaptureActualStateEvidence>>,
    origin: Seq<char>,
    operation: RecursiveOperationRef,
    parts: Seq<(int, int)>,
    emissions: Seq<PartEmission>,
    k: int,
    mask: u32,
    now: Option<i64>,
)
    requires
        is_history(index.files),
    ensures
        parts_written(
            index,
            group,
            mutations,
            evidence,
            origin,
            operation,
            parts,
            emissions,
            k,
            mask,
            now,
        ) matches Ok(after) ==> counted(index, after) && is_history(after.files),
    decreases k,
{
    if k <= 0 {
        lemma_untouched_rows_are_counted(index, index);
    } else {
        law_a_recursive_operation_is_counted(
            index,
            group,
            mutations,
            evidence,
            origin,
            operation,
            parts,
            emissions,
            k - 1,
            mask,
            now,
        );
        match parts_written(
            index,
            group,
            mutations,
            evidence,
            origin,
            operation,
            parts,
            emissions,
            k - 1,
            mask,
            now,
        ) {
            Err(_) => {},
            Ok(before) => {
                let change = emissions[k - 1].change;
                let admitted = part_admitted(before, group, operation, change.hash);
                let items = part_items(
                    mutations,
                    evidence,
                    change,
                    parts[k - 1].0,
                    parts[k - 1].1,
                );
                law_captures_are_counted(
                    before,
                    admitted.changes,
                    group,
                    items,
                    origin,
                    mask,
                    now,
                );
                match captured(admitted, group, items, origin, mask, now) {
                    Err(_) => {},
                    Ok(after) => {
                        law_counting_carries_over_several_writes(index, before, after);
                    },
                }
            },
        }
    }
}

proof fn lemma_capture_keeps_history(
    index: FileIndex,
    group: Seq<char>,
    item: CaptureItem,
    origin: Seq<char>,
    mask: u32,
    now: Option<i64>,
)
    requires
        is_history(index.files),
    ensures
        capture(index, group, item, origin, mask, now) matches Ok(after) ==> is_history(
            after.files,
        ),
{
    let new = new_version(index.changes, group, item.entry, origin, item.author, now);
    let path = item.entry.path;
    match upsert(index.files, index.changes, new) {
        Err(_) => {},
        Ok(files) => {
            lemma_written_is_history(index.files, new, 0);
            let with_columns = match item.meta {
                Some(meta) => {
                    lemma_change_keeps_history(
                        files,
                        group,
                        path,
                        with_meta(meta, mask),
                        0,
                    );
                    current_changed(files, group, path, with_meta(meta, mask))
                },
                None => files,
            };
            lemma_change_keeps_history(
                with_columns,
                group,
                path,
                with_materialization(MaterializationState::Hydrated),
                0,
            );
            lemma_change_keeps_history(
                with_columns,
                group,
                path,
                without_claim(),
                0,
            );
        },
    }
}

} // verus!
