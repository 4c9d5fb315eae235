//! What was written is what is read back, and nothing else moved.

use vstd::prelude::*;

use crate::epoch::{allocated, epoch_allocation, epoch_of, transition, transitioned};
use crate::file_metadata::{
    current_changed, keeps_key, law_a_stored_mode_reads_back_as_its_replicated_bits, mode_column,
    stored_mode, with_access, with_author, with_kind, with_mode_column, with_out_of_root, with_pin,
    with_symlink_target,
};
use crate::file_rows::{is_current_at, Version};
use crate::file_upsert::current;
use crate::filesystem_transaction::{begun, beginning, phase_change, transaction_of};
use crate::index_vocabulary::{MaterializationPolicy, RecordKind};
use crate::link::{
    is_link, is_live_for, is_live_link, law_a_group_never_gets_a_second_live_link,
    law_one_live_link_answers_for_its_group, lemma_link_change, link_change, linked, new_link,
    one_live_link_per_group, paths_are_unique, sole_live, with_paused, with_policy, with_root_token,
    with_suppressed_tombstones, with_windows_symlinks, Link,
};
use crate::phase::EpochMoves;
use crate::rows::{first_where, lemma_first_where, set_where};
use crate::transaction_rows::{
    is_epoch, is_transaction, EpochRow, EpochUpdate, Journal, NewEpoch, NewFilesystemTransaction,
    TransactionRow,
};
use crate::vocabulary::{EpochState, TransactionPhase};

verus! {

/// After an `UPDATE` that keeps the key, each key finds its row, replaced where
/// the condition held.
proof fn lemma_found_after_set<R>(
    rows: Seq<R>,
    pred: spec_fn(R) -> bool,
    f: spec_fn(R) -> R,
    key: spec_fn(R) -> bool,
)
    requires
        forall|row: R| #![trigger f(row)] key(f(row)) == key(row),
    ensures
        first_where(set_where(rows, pred, f), key) == match first_where(rows, key) {
            Some(row) => Some(
                if pred(row) {
                    f(row)
                } else {
                    row
                },
            ),
            None => None,
        },
    decreases rows.len(),
{
    let after = set_where(rows, pred, f);
    if rows.len() > 0 {
        assert(key(f(rows[0])) == key(rows[0]));
        if !key(rows[0]) {
            lemma_found_after_set(rows.skip(1), pred, f, key);
            assert(after.skip(1) =~= set_where(rows.skip(1), pred, f));
        }
    }
}

/// An appended row is found where no earlier one is.
proof fn lemma_found_after_push<R>(rows: Seq<R>, row: R, key: spec_fn(R) -> bool)
    ensures
        first_where(rows.push(row), key) == match first_where(rows, key) {
            Some(found) => Some(found),
            None => if key(row) {
                Some(row)
            } else {
                None
            },
        },
    decreases rows.len(),
{
    let after = rows.push(row);
    if rows.len() > 0 {
        if !key(rows[0]) {
            lemma_found_after_push(rows.skip(1), row, key);
            assert(after.skip(1) =~= rows.skip(1).push(row));
        }
    } else {
        assert(after.skip(1) =~= rows);
    }
}

/// A transaction that was begun is found as it was begun, and every other one
/// as it was.
pub proof fn law_a_begun_transaction_reads_back(
    journal: Journal,
    new: NewFilesystemTransaction,
    id: Seq<char>,
    now: int,
    other: Seq<char>,
)
    ensures
        beginning(journal, new, id, now) matches Ok(after) ==> {
            &&& transaction_of(after.transactions, id) == Some(begun(new, id, now))
            &&& other != id ==> transaction_of(after.transactions, other) == transaction_of(
                journal.transactions,
                other,
            )
        },
{
    lemma_found_after_push(journal.transactions, begun(new, id, now), is_transaction(id));
    lemma_found_after_push(journal.transactions, begun(new, id, now), is_transaction(other));
}

/// A transaction that changed its phase is found in that phase with the given
/// reason, everything else about it unchanged, and every other one as it was.
pub proof fn law_a_phase_change_reads_back(
    journal: Journal,
    id: Seq<char>,
    generation: int,
    to: TransactionPhase,
    reason: Option<Seq<char>>,
    now: int,
    other: Seq<char>,
)
    ensures
        phase_change(journal, id, generation, to, reason, now) matches Ok(after) ==> {
            &&& transaction_of(journal.transactions, id) is Some
            &&& transaction_of(after.transactions, id) == Some(
                TransactionRow {
                    phase: to,
                    blocked_reason: reason,
                    updated_at: now,
                    ..transaction_of(journal.transactions, id)->0
                },
            )
            &&& other != id ==> transaction_of(after.transactions, other) == transaction_of(
                journal.transactions,
                other,
            )
        },
{
    let rows = journal.transactions;
    let f = |row: TransactionRow|
        TransactionRow { phase: to, blocked_reason: reason, updated_at: now, ..row };
    lemma_first_where(rows, is_transaction(id));
    lemma_first_where(rows, is_transaction(other));
    lemma_found_after_set(rows, is_transaction(id), f, is_transaction(id));
    lemma_found_after_set(rows, is_transaction(id), f, is_transaction(other));
    if let Ok(after) = phase_change(journal, id, generation, to, reason, now) {
        assert(after.transactions =~= set_where(rows, is_transaction(id), f));
    }
}

/// An epoch that was allocated is found as it was allocated, and every other
/// one as it was.
pub proof fn law_an_allocated_epoch_reads_back(
    journal: Journal,
    new: NewEpoch,
    generation: int,
    now: int,
    other: Seq<char>,
    other_epoch: int,
)
    ensures
        epoch_allocation(journal, new, generation, now) matches Ok(after) ==> {
            &&& epoch_of(after.epochs, new.transaction_id@, new.epoch as int) == Some(
                allocated(new, now),
            )
            &&& (other != new.transaction_id@ || other_epoch != new.epoch) ==> epoch_of(
                after.epochs,
                other,
                other_epoch,
            ) == epoch_of(journal.epochs, other, other_epoch)
        },
{
    let row = allocated(new, now);
    lemma_found_after_push(
        journal.epochs,
        row,
        is_epoch(new.transaction_id@, new.epoch as int),
    );
    lemma_found_after_push(journal.epochs, row, is_epoch(other, other_epoch));
}

/// An epoch that moved is found in its new state with what it learned, and
/// every other one as it was.
pub proof fn law_a_transition_reads_back(
    journal: Journal,
    id: Seq<char>,
    epoch: int,
    generation: int,
    to: EpochState,
    update: EpochUpdate,
    now: int,
    moves: EpochMoves,
    other: Seq<char>,
    other_epoch: int,
)
    ensures
        transition(journal, id, epoch, generation, to, update, now, moves) matches Ok(after) ==> {
            &&& epoch_of(journal.epochs, id, epoch) is Some
            &&& epoch_of(after.epochs, id, epoch) == Some(
                transitioned(epoch_of(journal.epochs, id, epoch)->0, to, update, now),
            )
            &&& transitioned(epoch_of(journal.epochs, id, epoch)->0, to, update, now).phase == to
            &&& (other != id || other_epoch != epoch) ==> epoch_of(
                after.epochs,
                other,
                other_epoch,
            ) == epoch_of(journal.epochs, other, other_epoch)
        },
{
    let rows = journal.epochs;
    let f = |row: EpochRow| transitioned(row, to, update, now);
    lemma_first_where(rows, is_epoch(id, epoch));
    lemma_first_where(rows, is_epoch(other, other_epoch));
    lemma_found_after_set(rows, is_epoch(id, epoch), f, is_epoch(id, epoch));
    lemma_found_after_set(rows, is_epoch(id, epoch), f, is_epoch(other, other_epoch));
    if let Ok(after) = transition(journal, id, epoch, generation, to, update, now, moves) {
        assert(after.epochs =~= set_where(rows, is_epoch(id, epoch), f));
    }
}

proof fn lemma_current_after_change(
    rows: Seq<Version>,
    group: Seq<char>,
    path: Seq<char>,
    f: spec_fn(Version) -> Version,
)
    requires
        keeps_key(f),
        current(rows, group, path) is Some,
    ensures
        current(current_changed(rows, group, path, f), group, path) == Some(
            f(current(rows, group, path)->0),
        ),
{
    let pred = is_current_at(group, path);
    lemma_first_where(rows, pred);
    lemma_found_after_set(rows, pred, f, pred);
}

/// Changing the current version of a path changes no other path's.
pub proof fn law_a_metadata_change_stays_at_its_path(
    rows: Seq<Version>,
    group: Seq<char>,
    path: Seq<char>,
    f: spec_fn(Version) -> Version,
    other_group: Seq<char>,
    other_path: Seq<char>,
)
    requires
        keeps_key(f),
        other_group != group || other_path != path,
    ensures
        current(current_changed(rows, group, path, f), other_group, other_path) == current(
            rows,
            other_group,
            other_path,
        ),
{
    let pred = is_current_at(group, path);
    let key = is_current_at(other_group, other_path);
    lemma_first_where(rows, key);
    lemma_found_after_set(rows, pred, f, key);
}

/// What is set on a path's current version is what its current version then
/// holds: the kind, the symlink target and whether it leads out of the root,
/// the replicated bits of the mode, the author, the pin, the time of access.
pub proof fn law_what_is_set_on_a_path_reads_back(
    rows: Seq<Version>,
    group: Seq<char>,
    path: Seq<char>,
    kind: RecordKind,
    target: Option<Seq<u8>>,
    flag: bool,
    mode: Option<u32>,
    mask: u32,
    author: Seq<u8>,
    accessed: i64,
)
    requires
        current(rows, group, path) is Some,
    ensures
        current(current_changed(rows, group, path, with_kind(kind)), group, path)->0.kind == kind,
        current(
            current_changed(rows, group, path, with_symlink_target(target)),
            group,
            path,
        )->0.symlink_target == target,
        current(
            current_changed(rows, group, path, with_out_of_root(flag)),
            group,
            path,
        )->0.symlink_out_of_root == flag,
        stored_mode(
            current(
                current_changed(rows, group, path, with_mode_column(mode_column(mode, mask))),
                group,
                path,
            )->0.unix_mode,
            mask,
        ) == match mode {
            Some(bits) => Some(bits & mask),
            None => None,
        },
        current(current_changed(rows, group, path, with_author(author)), group, path)->0.authoring
            == Some(author),
        current(current_changed(rows, group, path, with_pin(flag)), group, path)->0.pinned == flag,
        current(
            current_changed(rows, group, path, with_access(accessed)),
            group,
            path,
        )->0.last_accessed == Some(accessed),
{
    lemma_current_after_change(rows, group, path, with_kind(kind));
    lemma_current_after_change(rows, group, path, with_symlink_target(target));
    lemma_current_after_change(rows, group, path, with_out_of_root(flag));
    lemma_current_after_change(rows, group, path, with_mode_column(mode_column(mode, mask)));
    law_a_stored_mode_reads_back_as_its_replicated_bits(mode, mask);
    lemma_current_after_change(rows, group, path, with_author(author));
    lemma_current_after_change(rows, group, path, with_pin(flag));
    lemma_current_after_change(rows, group, path, with_access(accessed));
}

proof fn lemma_link_after_change(
    links: Seq<Link>,
    path: Seq<char>,
    group: Seq<char>,
    pred: spec_fn(Link) -> bool,
    f: spec_fn(Link) -> Link,
)
    requires
        paths_are_unique(links),
        one_live_link_per_group(links),
        sole_live(links, group) matches Ok(Some(link)) && link.path == path,
        pred == is_link(path) || pred == is_live_link(path),
        forall|link: Link|
            #![trigger f(link)]
            f(link).path == link.path && f(link).group == link.group && f(link).orphaned
                == link.orphaned,
    ensures
        link_change(links, path, pred, f) is Ok,
        sole_live(link_change(links, path, pred, f)->Ok_0, group) == Ok::<
            Option<Link>,
            crate::error::Failure,
        >(Some(f(sole_live(links, group)->Ok_0->0))),
{
    let key = is_live_for(group);
    lemma_first_where(links, key);
    let link = first_where(links, key)->0;
    assert(links.contains(link) && pred(link));
    lemma_found_after_set(links, pred, f, key);
    lemma_link_change(links, pred, f);
    law_one_live_link_answers_for_its_group(set_where(links, pred, f), group);
}

/// What is set on a group's live link is what the group then answers with: the
/// policy, the pause, the choice about symlinks on Windows, the suppression of
/// tombstones, the root token.
pub proof fn law_what_is_set_on_a_link_answers_for_its_group(
    links: Seq<Link>,
    path: Seq<char>,
    group: Seq<char>,
    policy: MaterializationPolicy,
    flag: bool,
    token: Seq<char>,
)
    requires
        paths_are_unique(links),
        one_live_link_per_group(links),
        sole_live(links, group) matches Ok(Some(link)) && link.path == path,
    ensures
        link_change(links, path, is_live_link(path), with_policy(policy)) matches Ok(after)
            && sole_live(after, group) matches Ok(Some(link)) && link.policy == policy,
        link_change(links, path, is_link(path), with_paused(flag)) matches Ok(after)
            && sole_live(after, group) matches Ok(Some(link)) && link.paused == flag,
        link_change(links, path, is_link(path), with_windows_symlinks(flag)) matches Ok(after)
            && sole_live(after, group) matches Ok(Some(link)) && link.windows_symlinks == flag,
        link_change(links, path, is_link(path), with_suppressed_tombstones(flag)) matches Ok(after)
            && sole_live(after, group) matches Ok(Some(link)) && link.suppress_tombstones == flag,
        link_change(links, path, is_link(path), with_root_token(token)) matches Ok(after)
            && sole_live(after, group) matches Ok(Some(link)) && link.root_token == Some(token),
{
    lemma_link_after_change(links, path, group, is_live_link(path), with_policy(policy));
    lemma_link_after_change(links, path, group, is_link(path), with_paused(flag));
    lemma_link_after_change(links, path, group, is_link(path), with_windows_symlinks(flag));
    lemma_link_after_change(links, path, group, is_link(path), with_suppressed_tombstones(flag));
    lemma_link_after_change(links, path, group, is_link(path), with_root_token(token));
}

/// A path linked to a group is the group's one live link, and it is not paused.
pub proof fn law_a_linked_path_is_its_groups_live_link(
    links: Seq<Link>,
    path: Seq<char>,
    group: Seq<char>,
)
    requires
        paths_are_unique(links),
        one_live_link_per_group(links),
    ensures
        linked(links, path, group) matches Ok(after) ==> sole_live(after, group) matches Ok(
            Some(link),
        ) && link.path == path && !link.paused,
{
    if let Ok(after) = linked(links, path, group) {
        law_a_group_never_gets_a_second_live_link(links, path, group);
        law_one_live_link_answers_for_its_group(after, group);
        let key = is_live_for(group);
        lemma_first_where(links, is_link(path));
        match first_where(links, is_link(path)) {
            None => {
                let i: int = links.len() as int;
                assert(after[i] == new_link(path, group));
                lemma_first_where(after, key);
            },
            Some(link) => {
                let k = choose|k: int| 0 <= k < links.len() && links[k] == link;
                assert(after[k] == (Link { paused: false, orphaned: false, ..link }));
                lemma_first_where(after, key);
            },
        }
    }
}

} // verus!
