//! What recursive operations and reservations come to, and what every operation
//! answers.

use vstd::prelude::*;

use crate::durability::versions_read;
use crate::epoch::{epoch_inserted, epoch_moved};
use crate::error::{outcome, Failure, SyncSqliteError};
use crate::file_queries::{file_read, files_read};
use crate::file_rows::{FileEntry, FileIndex, FileRecord, RecursiveOperationRef, Version};
use crate::file_upsert::{current, files_changed};
use crate::file_versions::{VersionEntry, VersionRecord};
use crate::filesystem_transaction::{carried_out, fence_advanced, gate, gated, transaction_begun};
use crate::fresh_id::is_id;
use crate::local_capture::{
    captured, index_changed, LocalCaptureActualStateEvidence, PreparedLocalMutation,
};
use crate::local_commits::{part_of, with_change};
use crate::local_mutations::{committed, part_items};
use crate::path_key::{end_of, key_of};
use crate::recursive_operation::{
    first_foreign, is_full, is_planned_emission, law_parts_cover_every_effect_once, part_end,
    part_hashes, parts_written, recursive_commit, recursive_plan, shown, split, split_from,
    total_len,
};
use crate::recursive_part::{description, member_effects, OperationKind, PartEmission};
use crate::reservation::{
    acquired, acquired_under_new_ids, acquisition, advanced_all, answered, blocks, first_blocked,
    first_taken_id, first_unkeyed, granted, holds_touched, id_is_taken, is_holder_list,
    is_request_order, is_touched_holder, reservations_of, taken_before, touched_bumped, touches,
    RequestRow, ScopeConflicts,
};
use crate::rows::{any, first_where, lemma_first_where, views};
use crate::text::bytes_lt;
use crate::transaction_rows::{
    ChangeHash, EpochRecord, EpochRow, FilesystemTransactionRecord, HeldRow, Journal,
    TransactionRow,
};
use crate::value_laws::law_a_path_is_reserved_where_it_is_normalized;

verus! {

/// The bytes of effects in a row add up: a stretch is the sum of its pieces, and
/// one effect alone its own length.
pub proof fn law_lengths_add_up(lens: Seq<usize>, start: int, middle: int, end: int)
    requires
        0 <= start <= middle <= end <= lens.len(),
    ensures
        total_len(lens, start, end) == total_len(lens, start, middle) + total_len(
            lens,
            middle,
            end,
        ),
        total_len(lens, start, start) == 0,
        start < lens.len() ==> total_len(lens, start, start + 1) == lens[start],
    decreases end - middle,
{
    reveal_with_fuel(total_len, 2);
    if middle < end {
        law_lengths_add_up(lens, start, middle, end - 1);
    }
}

/// Every operation has a part, the first begins with its first effect, and the
/// last ends with its last.
pub proof fn law_an_operation_has_parts(lens: Seq<usize>, limit: int)
    ensures
        split(lens, limit).len() > 0,
        split(lens, limit)[0].0 == 0,
        split(lens, limit).last().1 == lens.len(),
{
    if lens.len() > 0 {
        lemma_part_end_late(lens, limit, 0, 0);
        law_parts_cover_every_effect_once(lens, limit, split(lens, limit).len() - 1);
    }
}

/// Parts are cut as late as they may be: one that is not the last holds two
/// hundred and fifty-six effects, or would pass the limit with the next one. No
/// effects at all make one empty part.
pub proof fn law_parts_are_cut_as_late_as_they_may_be(lens: Seq<usize>, limit: int, k: int)
    requires
        0 <= k < split(lens, limit).len(),
    ensures
        lens.len() == 0 ==> split(lens, limit) == seq![(0int, 0int)],
        ({
            let part = split(lens, limit)[k];
            part.1 < lens.len() ==> part.1 - part.0 == 256 || total_len(lens, part.0, part.1)
                + lens[part.1] > limit
        }),
        split(lens, limit)[k].1 - split(lens, limit)[k].0 <= 256,
{
    if lens.len() > 0 {
        lemma_cut_late(lens, limit, 0, k);
    }
}

proof fn lemma_cut_late(lens: Seq<usize>, limit: int, start: int, k: int)
    requires
        0 <= start < lens.len(),
        0 <= k < split_from(lens, limit, start).len(),
    ensures
        ({
            let part = split_from(lens, limit, start)[k];
            &&& part.1 < lens.len() ==> part.1 - part.0 == 256 || total_len(lens, part.0, part.1)
                + lens[part.1] > limit
            &&& part.1 - part.0 <= 256
        }),
    decreases lens.len() - start,
{
    let end = part_end(lens, limit, start, start);
    lemma_part_end_late(lens, limit, start, start);
    let rest = split_from(lens, limit, end);
    let all = split_from(lens, limit, start);
    assert(all == seq![(start, end)] + rest);
    if k > 0 {
        assert(all[k] == rest[k - 1]);
        lemma_cut_late(lens, limit, end, k - 1);
    }
}

proof fn lemma_part_end_late(lens: Seq<usize>, limit: int, start: int, at: int)
    requires
        0 <= start <= at <= lens.len(),
        start < lens.len(),
        at - start <= 256,
    ensures
        ({
            let end = part_end(lens, limit, start, at);
            &&& at <= end <= lens.len()
            &&& start < end
            &&& end < lens.len() ==> end - start == 256 || total_len(lens, start, end) + lens[end]
                > limit
            &&& end - start <= 256
        }),
    decreases lens.len() - at,
{
    if at < lens.len() && !(at > start && is_full(lens, limit, start, at)) {
        lemma_part_end_late(lens, limit, start, at + 1);
    }
}

/// A recursive operation is planned exactly where its evidence lines up with its
/// effects, or there is none, and it needs no more parts than it may have.
pub proof fn law_an_operation_is_planned_within_its_parts(
    lens: Seq<usize>,
    evidence_len: nat,
    limit: int,
    max_parts: u32,
)
    ensures
        recursive_plan(lens, evidence_len, limit, max_parts) is Ok <==> (evidence_len == 0
            || evidence_len == lens.len()) && split(lens, limit).len() <= max_parts,
        recursive_plan(lens, evidence_len, limit, max_parts) matches Ok(parts) ==> parts == split(
            lens,
            limit,
        ),
        evidence_len != 0 && evidence_len != lens.len() ==> (recursive_plan(
            lens,
            evidence_len,
            limit,
            max_parts,
        ) matches Err(failure) && failure is CorruptState),
        (evidence_len == 0 || evidence_len == lens.len()) && split(lens, limit).len() > max_parts
            ==> (recursive_plan(lens, evidence_len, limit, max_parts) matches Err(failure)
            && failure is InvalidInput),
{
}

/// A part carries the effects of its own members in order, and says which
/// operation it belongs to, which part it is and of how many.
pub proof fn law_a_part_carries_its_members(
    mutations: Seq<PreparedLocalMutation>,
    start: int,
    end: int,
    i: int,
    operation: RecursiveOperationRef,
    kind: OperationKind,
    count: int,
    effect_set: Seq<u8>,
)
    requires
        0 <= start <= i < end <= mutations.len(),
    ensures
        member_effects(mutations, start, end).len() == end - start,
        mutations[i] matches PreparedLocalMutation::Upsert { op, .. } ==> member_effects(
            mutations,
            start,
            end,
        )[i - start] == op@,
        mutations[i] matches PreparedLocalMutation::Delete { op, .. } ==> member_effects(
            mutations,
            start,
            end,
        )[i - start] == op@,
        ({
            let part = description(operation, kind, i, count, effect_set);
            &&& part.id == operation.operation_id@
            &&& part.kind == kind
            &&& part.index == i
            &&& part.count == count
            &&& part.effects == effect_set
        }),
{
}

/// The first foreign part is the first whose change does not carry its effects
/// or its description; there is none exactly where every one does.
pub proof fn law_the_first_foreign_part_is_found(
    emissions: Seq<PartEmission>,
    mutations: Seq<PreparedLocalMutation>,
    parts: Seq<(int, int)>,
    k: int,
    operation: RecursiveOperationRef,
    kind: OperationKind,
    effect_set: Seq<u8>,
)
    requires
        0 <= k,
    ensures
        ({
            let found = first_foreign(
                emissions,
                mutations,
                parts,
                k,
                operation,
                kind,
                effect_set,
            );
            let stop = if found is Some {
                found->0
            } else {
                parts.len() as int
            };
            &&& found matches Some(at) ==> k <= at < parts.len() && !(emissions[at].effects
                == member_effects(mutations, parts[at].0, parts[at].1) && emissions[at].part
                == description(operation, kind, at, parts.len() as int, effect_set))
            &&& forall|m: int|
                #![trigger emissions[m]]
                k <= m < stop ==> emissions[m].effects == member_effects(
                    mutations,
                    parts[m].0,
                    parts[m].1,
                ) && emissions[m].part == description(
                    operation,
                    kind,
                    m,
                    parts.len() as int,
                    effect_set,
                )
        }),
    decreases parts.len() - k,
{
    if k < parts.len() && is_planned_emission(
        emissions[k],
        mutations,
        parts,
        k,
        operation,
        kind,
        effect_set,
    ) {
        law_the_first_foreign_part_is_found(
            emissions,
            mutations,
            parts,
            k + 1,
            operation,
            kind,
            effect_set,
        );
    }
}

/// Parts are written one after the other, each under its own change, which is
/// admitted as a part of the operation before its members are captured.
pub proof fn law_parts_are_written_in_order(
    index: FileIndex,
    group: Seq<char>,
    mutations: Seq<PreparedLocalMutation>,
    evidence: Seq<Option<LocalCaptureActualStateEvidence>>,
    origin: Seq<char>,
    operation: RecursiveOperationRef,
    parts: Seq<(int, int)>,
    emissions: Seq<PartEmission>,
    k: int,
    mask: u32,
    now: Option<i64>,
)
    requires
        0 <= k,
    ensures
        parts_written(
            index,
            group,
            mutations,
            evidence,
            origin,
            operation,
            parts,
            emissions,
            0,
            mask,
            now,
        ) == Ok::<FileIndex, Failure>(index),
        parts_written(
            index,
            group,
            mutations,
            evidence,
            origin,
            operation,
            parts,
            emissions,
            k,
            mask,
            now,
        ) matches Ok(before) ==> parts_written(
            index,
            group,
            mutations,
            evidence,
            origin,
            operation,
            parts,
            emissions,
            k + 1,
            mask,
            now,
        ) == captured(
            (FileIndex {
                changes: with_change(
                    before.changes,
                    group,
                    emissions[k].change.hash.0@,
                    part_of(emissions[k].change.hash.0@, Some(operation)),
                ),
                ..before
            }),
            group,
            part_items(mutations, evidence, emissions[k].change, parts[k].0, parts[k].1),
            origin,
            mask,
            now,
        ),
{
    reveal_with_fuel(parts_written, 2);
}

/// A recursive operation without mutations changes nothing. One with some is
/// refused where its plan is, where it has not one change for each part, or
/// where one of its changes is foreign; otherwise all of its parts are written.
pub proof fn law_a_recursive_operation_is_written_whole(
    index: FileIndex,
    group: Seq<char>,
    kind: OperationKind,
    mutations: Seq<PreparedLocalMutation>,
    lens: Seq<usize>,
    evidence: Seq<Option<LocalCaptureActualStateEvidence>>,
    origin: Seq<char>,
    operation: RecursiveOperationRef,
    effect_set: Seq<u8>,
    emissions: Seq<PartEmission>,
    limit: int,
    max_parts: u32,
    mask: u32,
    now: Option<i64>,
)
    ensures
        ({
            let result = recursive_commit(
                index,
                group,
                kind,
                mutations,
                lens,
                evidence,
                origin,
                operation,
                effect_set,
                emissions,
                limit,
                max_parts,
                mask,
                now,
            );
            let parts = split(lens, limit);
            let admitted = (evidence.len() == 0 || evidence.len() == lens.len()) && parts.len()
                <= max_parts && emissions.len() == parts.len();
            &&& mutations.len() == 0 ==> result == Ok::<FileIndex, Failure>(index)
            &&& mutations.len() > 0 && !admitted ==> result is Err
            &&& mutations.len() > 0 && admitted && (exists|k: int|
                #![trigger emissions[k]]
                0 <= k < parts.len() && !is_planned_emission(
                    emissions[k],
                    mutations,
                    parts,
                    k,
                    operation,
                    kind,
                    effect_set,
                )) ==> result is Err
            &&& mutations.len() > 0 && admitted && (forall|k: int|
                #![trigger emissions[k]]
                0 <= k < parts.len() ==> is_planned_emission(
                    emissions[k],
                    mutations,
                    parts,
                    k,
                    operation,
                    kind,
                    effect_set,
                )) ==> result == parts_written(
                index,
                group,
                mutations,
                evidence,
                origin,
                operation,
                parts,
                emissions,
                parts.len() as int,
                mask,
                now,
            )
        }),
        part_hashes(emissions).len() == emissions.len(),
        forall|k: int|
            #![trigger part_hashes(emissions)[k]]
            0 <= k < emissions.len() ==> part_hashes(emissions)[k] == emissions[k].change.hash,
{
    let parts = split(lens, limit);
    law_the_first_foreign_part_is_found(
        emissions,
        mutations,
        parts,
        0,
        operation,
        kind,
        effect_set,
    );
}

/// What a device has seen at a path is the basis of what stands there, or, where
/// that is unknown, the change that authored the path's own version, if it has
/// one.
pub proof fn law_what_was_seen_is_the_basis_or_the_author(
    rows: Seq<Version>,
    group: Seq<char>,
    path: Seq<char>,
    basis: Option<Vec<ChangeHash>>,
    hash: [u8; 32],
)
    ensures
        basis is Some && basis->0@.len() > 0 ==> shown(rows, group, path, basis) == basis->0@,
        basis is None || basis->0@.len() == 0 ==> {
            &&& (current(rows, group, path) matches Some(row) && row.seq > 0 && row.authoring
                == Some(hash@)) ==> shown(rows, group, path, basis) == seq![ChangeHash(hash)]
            &&& shown(rows, group, path, basis).len() > 0 ==> (current(rows, group, path)
                matches Some(row) && row.seq > 0 && (row.authoring matches Some(bytes)
                && bytes.len() == 32))
        },
{
    crate::stored_rows::lemma_array32(hash);
}

/// A held reservation stands in a request's way exactly where it is of the same
/// group, their ranges overlap, and its scope is one the request's excludes.
pub proof fn law_a_held_reservation_blocks_by_range_and_scope(
    request: RequestRow,
    held: HeldRow,
    conflicts: ScopeConflicts,
)
    requires
        key_of(request.path) is Ok,
    ensures
        blocks(request, conflicts)(held) <==> {
            &&& held.reservation.group_id == request.group_id
            &&& bytes_lt(key_of(request.path)->Ok_0, held.end)
            &&& bytes_lt(held.start, end_of(key_of(request.path)->Ok_0))
            &&& conflicts.pairs@.contains((request.scope, held.reservation.scope))
        },
{
}

/// A reservation is granted as it was asked for, under its id, over the range of
/// its path.
pub proof fn law_a_reservation_is_granted_as_asked(request: RequestRow, id: Seq<char>, now: int)
    requires
        key_of(request.path) is Ok,
    ensures
        ({
            let row = granted(request, id, now);
            &&& row.reservation.reservation_id == id
            &&& row.reservation.group_id == request.group_id
            &&& row.reservation.transaction_id == request.transaction_id
            &&& row.reservation.scope == request.scope
            &&& row.reservation.path == request.path
            &&& row.reservation.role == request.role
            &&& row.reservation.created_at == now
            &&& Ok::<Seq<u8>, Failure>(row.start) == key_of(request.path)
            &&& row.end == end_of(row.start)
        }),
{
}

/// Requests are taken in the order of their keys, those of one key in the order
/// they came.
pub proof fn law_requests_are_taken_by_key(requests: Seq<RequestRow>, a: int, b: int)
    requires
        key_of(requests[a].path) is Ok,
        key_of(requests[b].path) is Ok,
    ensures
        bytes_lt(key_of(requests[a].path)->Ok_0, key_of(requests[b].path)->Ok_0) ==> taken_before(
            requests,
            a,
            b,
        ),
        key_of(requests[a].path) == key_of(requests[b].path) ==> (taken_before(requests, a, b)
            <==> a < b),
        taken_before(requests, a, b) ==> !taken_before(requests, b, a),
{
    let x = key_of(requests[a].path)->Ok_0;
    let y = key_of(requests[b].path)->Ok_0;
    crate::text::lemma_bytes_lt_irreflexive(x);
    if bytes_lt(x, y) {
        crate::text::lemma_bytes_lt_asymmetric(x, y);
    }
}

/// Some request of the batch is blocked by something held.
pub open spec fn is_blocked_at(
    held: Seq<HeldRow>,
    requests: Seq<RequestRow>,
    conflicts: ScopeConflicts,
    r: int,
    h: int,
) -> bool {
    0 <= r < requests.len() && 0 <= h < held.len() && blocks(requests[r], conflicts)(held[h])
}

/// A batch is granted exactly where every path has a key, nothing held stands in
/// the way of any request, and no id is held or given twice. Every request is
/// then granted, once, behind what was held, and nothing else changes.
pub proof fn law_a_batch_of_reservations_is_granted_whole(
    journal: Journal,
    requests: Seq<RequestRow>,
    ids: Seq<Seq<char>>,
    order: Seq<int>,
    now: int,
    conflicts: ScopeConflicts,
)
    requires
        is_request_order(order, requests),
        ids.len() == requests.len(),
    ensures
        acquisition(journal, requests, ids, order, now, conflicts) is Ok <==> {
            &&& forall|r: int|
                #![trigger requests[r]]
                0 <= r < requests.len() ==> key_of(requests[r].path) is Ok
            &&& forall|r: int, h: int| !#[trigger]
                is_blocked_at(journal.reservations, requests, conflicts, r, h)
            &&& forall|i: int, h: int|
                #![trigger ids[i], journal.reservations[h]]
                0 <= i < ids.len() && 0 <= h < journal.reservations.len() ==> ids[i]
                    != journal.reservations[h].reservation.reservation_id
            &&& forall|i: int, j: int|
                #![trigger ids[i], ids[j]]
                0 <= i < j < ids.len() ==> ids[i] != ids[j]
        },
        acquisition(journal, requests, ids, order, now, conflicts) matches Ok(after) ==> {
            let n = journal.reservations.len();
            &&& after.transactions == journal.transactions
            &&& after.epochs == journal.epochs
            &&& after.reservations.len() == n + requests.len()
            &&& forall|h: int|
                #![trigger after.reservations[h]]
                0 <= h < n ==> after.reservations[h] == journal.reservations[h]
            &&& forall|k: int|
                #![trigger order[k]]
                0 <= k < order.len() ==> after.reservations[n + k] == granted(
                    requests[order[k]],
                    ids[order[k]],
                    now,
                )
        },
{
    let held = journal.reservations;
    let unkeyed = |request: RequestRow| key_of(request.path) is Err;
    let blocked = |i: int| any(held, blocks(requests[i], conflicts));
    lemma_first_where(requests, unkeyed);
    lemma_first_where(order, blocked);
    lemma_first_taken_id(held, ids);
    assert(first_unkeyed(requests) is Some <==> any(requests, unkeyed));
    assert(first_blocked(held, requests, order, conflicts) is Some <==> any(order, blocked));
    if any(requests, unkeyed) {
        let r = choose|r: int|
            #![trigger requests[r]]
            0 <= r < requests.len() && unkeyed(requests[r]);
        assert(key_of(requests[r].path) is Err);
    } else {
        assert forall|r: int| #![trigger requests[r]] 0 <= r < requests.len() implies key_of(
            requests[r].path,
        ) is Ok by {
            assert(!unkeyed(requests[r]));
        }
    }
    if any(order, blocked) {
        let k = choose|k: int| #![trigger order[k]] 0 <= k < order.len() && blocked(order[k]);
        let request = requests[order[k]];
        let h = choose|h: int|
            #![trigger held[h]]
            0 <= h < held.len() && blocks(request, conflicts)(held[h]);
        assert(is_blocked_at(held, requests, conflicts, order[k], h));
    } else {
        assert forall|r: int, h: int| !#[trigger]
            is_blocked_at(held, requests, conflicts, r, h) by {
            if is_blocked_at(held, requests, conflicts, r, h) {
                crate::reservation::lemma_order_covers(order, requests, r);
                let k = choose|k: int| 0 <= k < order.len() && order[k] == r;
                assert(blocks(requests[r], conflicts)(held[h]));
                assert(any(held, blocks(requests[r], conflicts)));
                assert(blocked(order[k]));
            }
        }
    }
}

proof fn lemma_first_taken_id(held: Seq<HeldRow>, ids: Seq<Seq<char>>)
    ensures
        first_taken_id(held, ids) is None <==> {
            &&& forall|i: int, h: int|
                #![trigger ids[i], held[h]]
                0 <= i < ids.len() && 0 <= h < held.len() ==> ids[i]
                    != held[h].reservation.reservation_id
            &&& forall|i: int, j: int|
                #![trigger ids[i], ids[j]]
                0 <= i < j < ids.len() ==> ids[i] != ids[j]
        },
    decreases ids.len(),
{
    if ids.len() > 0 {
        let shorter = ids.drop_last();
        let n = ids.len() - 1;
        let last = ids.last();
        lemma_first_taken_id(held, shorter);
        let same = |row: HeldRow| row.reservation.reservation_id == last;
        assert(id_is_taken(held, shorter, last) <==> any(held, same) || shorter.contains(last));
        if first_taken_id(held, ids) is None {
            assert forall|i: int, h: int|
                #![trigger ids[i], held[h]]
                0 <= i < ids.len() && 0 <= h < held.len() implies ids[i]
                != held[h].reservation.reservation_id by {
                if i < n {
                    assert(shorter[i] == ids[i]);
                } else {
                    assert(!same(held[h]));
                }
            }
            assert forall|i: int, j: int|
                #![trigger ids[i], ids[j]]
                0 <= i < j < ids.len() implies ids[i] != ids[j] by {
                assert(shorter[i] == ids[i]);
                if j < n {
                    assert(shorter[j] == ids[j]);
                } else if ids[i] == ids[j] {
                    assert(shorter.contains(last));
                }
            }
        }
        if {
            &&& forall|i: int, h: int|
                #![trigger ids[i], held[h]]
                0 <= i < ids.len() && 0 <= h < held.len() ==> ids[i]
                    != held[h].reservation.reservation_id
            &&& forall|i: int, j: int|
                #![trigger ids[i], ids[j]]
                0 <= i < j < ids.len() ==> ids[i] != ids[j]
        } {
            assert forall|i: int, h: int|
                #![trigger shorter[i], held[h]]
                0 <= i < shorter.len() && 0 <= h < held.len() implies shorter[i]
                != held[h].reservation.reservation_id by {
                assert(shorter[i] == ids[i]);
            }
            assert forall|i: int, j: int|
                #![trigger shorter[i], shorter[j]]
                0 <= i < j < shorter.len() implies shorter[i] != shorter[j] by {
                assert(shorter[i] == ids[i] && shorter[j] == ids[j]);
            }
            if any(held, same) {
                let h = choose|h: int| #![trigger held[h]] 0 <= h < held.len() && same(held[h]);
                assert(ids[n] != held[h].reservation.reservation_id);
            }
            if shorter.contains(last) {
                let i = choose|i: int| 0 <= i < shorter.len() && shorter[i] == last;
                assert(ids[i] == ids[n]);
            }
        }
    }
}

/// Reservations are handed out under ids of their own kind. What is answered are
/// those ids, one for each request; a refusal changes nothing.
pub proof fn law_reservations_are_answered_by_their_ids(
    before: Journal,
    requests: Seq<RequestRow>,
    ids: Seq<Seq<char>>,
    now: int,
    conflicts: ScopeConflicts,
    after: Journal,
    result: Result<Vec<String>, SyncSqliteError>,
)
    ensures
        acquired(before, requests, ids, now, conflicts, after, result) ==> {
            &&& result is Err ==> after == before
            &&& (exists|r: int|
                #![trigger requests[r]]
                0 <= r < requests.len() && key_of(requests[r].path) is Err) ==> (result matches Err(
                error,
            ) && exists|r: int|
                #![trigger requests[r]]
                0 <= r < requests.len() && key_of(requests[r].path) == Err::<Seq<u8>, Failure>(
                    error@,
                ))
            &&& result matches Ok(named) ==> views(named@) == ids && exists|order: Seq<int>|
                #[trigger] is_request_order(order, requests) && acquisition(
                    before,
                    requests,
                    ids,
                    order,
                    now,
                    conflicts,
                ) == Ok::<Journal, Failure>(after)
        },
        acquired_under_new_ids(before, requests, now, conflicts, after, result) ==> {
            &&& result is Err ==> after == before
            &&& result matches Ok(named) ==> named@.len() == requests.len() && forall|i: int|
                #![trigger named@[i]]
                0 <= i < named@.len() ==> is_id("fsres"@, named@[i]@)
        },
{
    let unkeyed = |request: RequestRow| key_of(request.path) is Err;
    lemma_first_where(requests, unkeyed);
    if acquired(before, requests, ids, now, conflicts, after, result) && exists|r: int|
        #![trigger requests[r]]
        0 <= r < requests.len() && key_of(requests[r].path) is Err {
        let r = choose|r: int|
            #![trigger requests[r]]
            0 <= r < requests.len() && key_of(requests[r].path) is Err;
        assert(unkeyed(requests[r]));
        assert(any(requests, unkeyed));
        let first = first_where(requests, unkeyed)->0;
        let k = choose|k: int| 0 <= k < requests.len() && requests[k] == first;
        assert(key_of(requests[k].path) == Err::<Seq<u8>, Failure>(result->Err_0@));
    }
    if acquired_under_new_ids(before, requests, now, conflicts, after, result) {
        let drawn = choose|drawn: Seq<Seq<char>>|
            {
                &&& drawn.len() == requests.len()
                &&& forall|i: int| 0 <= i < drawn.len() ==> is_id("fsres"@, #[trigger] drawn[i])
                &&& #[trigger] acquired(before, requests, drawn, now, conflicts, after, result)
            };
        if result is Ok {
            let named = result->Ok_0;
            assert(views(named@) == drawn);
            assert forall|i: int| #![trigger named@[i]] 0 <= i < named@.len() implies is_id(
                "fsres"@,
                named@[i]@,
            ) by {
                assert(views(named@)[i] == named@[i]@);
                assert(is_id("fsres"@, drawn[i]));
            }
        }
    }
}

/// Fencing holders moves the fence of each by one and of no one else, and leaves
/// the rest of every transaction as it is. Reservations are shown as they are
/// held.
pub proof fn law_fencing_holders_moves_their_fences_alone(
    rows: Seq<TransactionRow>,
    ids: Seq<Seq<char>>,
    i: int,
    held: Seq<HeldRow>,
    h: int,
)
    requires
        0 <= i < rows.len(),
        0 <= h < held.len(),
    ensures
        advanced_all(rows, ids).len() == rows.len(),
        ({
            let after = advanced_all(rows, ids)[i];
            &&& ids.contains(rows[i].transaction_id) ==> after.execution_generation
                == rows[i].execution_generation + 1
            &&& !ids.contains(rows[i].transaction_id) ==> after == rows[i]
            &&& (TransactionRow { execution_generation: rows[i].execution_generation, ..after })
                == rows[i]
        }),
        reservations_of(held).len() == held.len(),
        reservations_of(held)[h] == held[h].reservation,
{
}

/// The reservation at `h` is one of the transaction's in the group, and the path
/// at `p` touches it.
pub open spec fn is_touched_at(
    held: Seq<HeldRow>,
    group: Seq<char>,
    paths: Seq<Seq<char>>,
    id: Seq<char>,
    p: int,
    h: int,
) -> bool {
    &&& 0 <= p < paths.len()
    &&& 0 <= h < held.len()
    &&& held[h].reservation.group_id == group
    &&& held[h].reservation.transaction_id == id
    &&& touches(key_of(paths[p])->Ok_0, held[h])
}

/// The holders of touched paths are those with a reservation in the group that a
/// path touches, each once. Fencing them answers their ids and changes nothing
/// but transactions; a path without a key refuses it.
pub proof fn law_touched_holders_are_fenced(
    before: Journal,
    group: Seq<char>,
    paths: Seq<Seq<char>>,
    after: Journal,
    result: Result<Vec<String>, SyncSqliteError>,
    id: Seq<char>,
)
    requires
        touched_bumped(before, group, paths, after, result),
    ensures
        after.epochs == before.epochs,
        after.reservations == before.reservations,
        after.transactions.len() == before.transactions.len(),
        (exists|p: int| #![trigger paths[p]] 0 <= p < paths.len() && key_of(paths[p]) is Err)
            ==> after == before && (result matches Err(error) && exists|p: int|
            #![trigger paths[p]]
            0 <= p < paths.len() && key_of(paths[p]) == Err::<Seq<u8>, Failure>(error@)),
        result is Ok ==> views(result->Ok_0@).no_duplicates(),
        result is Ok ==> (views(result->Ok_0@).contains(id) <==> exists|p: int, h: int| #[trigger]
            is_touched_at(before.reservations, group, paths, id, p, h)),
{
    let unkeyed = |path: Seq<char>| key_of(path) is Err;
    lemma_first_where(paths, unkeyed);
    if exists|p: int| #![trigger paths[p]] 0 <= p < paths.len() && key_of(paths[p]) is Err {
        let p = choose|p: int|
            #![trigger paths[p]]
            0 <= p < paths.len() && key_of(paths[p]) is Err;
        assert(unkeyed(paths[p]));
        assert(any(paths, unkeyed));
        let first = first_where(paths, unkeyed)->0;
        let k = choose|k: int| 0 <= k < paths.len() && paths[k] == first;
        assert(key_of(paths[k]) == Err::<Seq<u8>, Failure>(result->Err_0@));
    }
    if result is Ok {
        let held = before.reservations;
        let holders = views(result->Ok_0@);
        assert(is_holder_list(holders, held, group, paths));
        assert(holders.contains(id) <==> holds_touched(held, group, paths, id));
        if holds_touched(held, group, paths, id) {
            let (p, h) = choose|p: int, h: int|
                #![trigger paths[p], held[h]]
                0 <= p < paths.len() && 0 <= h < held.len() && is_touched_holder(
                    held[h],
                    group,
                    paths[p],
                    id,
                );
            assert(is_touched_at(held, group, paths, id, p, h));
        }
        if exists|p: int, h: int| #[trigger] is_touched_at(held, group, paths, id, p, h) {
            let (p, h) = choose|p: int, h: int| #[trigger]
                is_touched_at(held, group, paths, id, p, h);
            assert(is_touched_holder(held[h], group, paths[p], id));
        }
    }
}

/// What an operation on the journal answers: it is refused exactly where its
/// plan is, with the plan's failure, and then changes nothing; otherwise the
/// journal is the planned one and the answer names what was made.
pub proof fn law_a_journal_operation_answers_its_plan(
    plan: Result<Journal, Failure>,
    fenced: Result<(int, Journal), Failure>,
    transaction: TransactionRow,
    epoch: EpochRow,
    id: Seq<char>,
    number: int,
    ids: Seq<Seq<char>>,
    before: Journal,
    after: Journal,
    done: Result<(), SyncSqliteError>,
    begun: Result<FilesystemTransactionRecord, SyncSqliteError>,
    advanced: Result<i64, SyncSqliteError>,
    moved: Result<EpochRecord, SyncSqliteError>,
    named: Result<Vec<String>, SyncSqliteError>,
)
    ensures
        carried_out(plan, before, after, done) <==> {
            ||| plan == Ok::<Journal, Failure>(after) && done is Ok
            ||| (done matches Err(error) && plan == Err::<Journal, Failure>(error@)) && after
                == before
        },
        transaction_begun(plan, transaction, before, after, begun) <==> {
            ||| plan == Ok::<Journal, Failure>(after) && (begun matches Ok(record) && record@
                == transaction)
            ||| (begun matches Err(error) && plan == Err::<Journal, Failure>(error@)) && after
                == before
        },
        fence_advanced(fenced, before, after, advanced) <==> {
            ||| advanced matches Ok(next) && fenced == Ok::<(int, Journal), Failure>(
                (next as int, after),
            )
            ||| (advanced matches Err(error) && fenced == Err::<(int, Journal), Failure>(error@))
                && after == before
        },
        epoch_inserted(plan, epoch, before, after, moved) <==> {
            ||| plan == Ok::<Journal, Failure>(after) && (moved matches Ok(record) && record@
                == epoch)
            ||| (moved matches Err(error) && plan == Err::<Journal, Failure>(error@)) && after
                == before
        },
        epoch_moved(plan, id, number, before, after, moved) <==> {
            ||| plan == Ok::<Journal, Failure>(after) && (moved matches Ok(record)
                && crate::epoch::epoch_of(after.epochs, id, number) == Some(record@))
            ||| (moved matches Err(error) && plan == Err::<Journal, Failure>(error@)) && after
                == before
        },
        answered(plan, ids, before, after, named) <==> {
            ||| plan == Ok::<Journal, Failure>(after) && (named matches Ok(list) && views(list@)
                == ids)
            ||| (named matches Err(error) && plan == Err::<Journal, Failure>(error@)) && after
                == before
        },
        outcome(done) is Ok <==> done is Ok,
        done matches Err(error) ==> outcome(done) == Err::<(), Failure>(error@),
{
}

/// What an operation on the index answers: it is refused exactly where its plan
/// is, with the plan's failure, and then changes nothing. A write of files
/// counts its group on and leaves the other tables as they are.
pub proof fn law_an_index_operation_answers_its_plan(
    files: Result<Seq<Version>, Failure>,
    plan: Result<FileIndex, Failure>,
    group: Seq<char>,
    hashes: Seq<ChangeHash>,
    before: FileIndex,
    after: FileIndex,
    done: Result<(), SyncSqliteError>,
    named: Result<Vec<ChangeHash>, SyncSqliteError>,
)
    ensures
        files_changed(files, group, before, after, done) ==> {
            &&& done is Ok <==> files is Ok
            &&& done matches Err(error) ==> after == before && files == Err::<
                Seq<Version>,
                Failure,
            >(error@)
            &&& done is Ok ==> files == Ok::<Seq<Version>, Failure>(after.files) && after.proofs
                == before.proofs && after.captures == before.captures && after.pins == before.pins
                && after.changes == before.changes && after.generations
                == crate::root_counter::raised(before.generations, group)
        },
        index_changed(plan, before, after, done) <==> {
            ||| plan == Ok::<FileIndex, Failure>(after) && done is Ok
            ||| (done matches Err(error) && plan == Err::<FileIndex, Failure>(error@)) && after
                == before
        },
        committed(plan, hashes, before, after, named) <==> {
            ||| plan == Ok::<FileIndex, Failure>(after) && (named matches Ok(list) && list@
                == hashes)
            ||| (named matches Err(error) && plan == Err::<FileIndex, Failure>(error@)) && after
                == before
        },
{
}

/// What a reading answers: what was found, one for one, or why it does not read.
pub proof fn law_a_reading_answers_what_was_found(
    file: Result<Option<FileEntry>, Failure>,
    files: Result<Seq<FileEntry>, Failure>,
    versions: Result<Seq<VersionEntry>, Failure>,
    one: Result<Option<FileRecord>, SyncSqliteError>,
    many: Result<Vec<FileRecord>, SyncSqliteError>,
    history: Result<Vec<VersionRecord>, SyncSqliteError>,
)
    ensures
        file_read(file, one) ==> {
            &&& one is Ok <==> file is Ok
            &&& one matches Err(error) ==> file == Err::<Option<FileEntry>, Failure>(error@)
            &&& one matches Ok(Some(record)) ==> file == Ok::<Option<FileEntry>, Failure>(
                Some(record@),
            )
            &&& one matches Ok(None) ==> file == Ok::<Option<FileEntry>, Failure>(None)
        },
        files_read(files, many) ==> {
            &&& many is Ok <==> files is Ok
            &&& many matches Err(error) ==> files == Err::<Seq<FileEntry>, Failure>(error@)
            &&& many matches Ok(list) ==> list@.len() == files->Ok_0.len() && forall|i: int|
                #![trigger list@[i]]
                0 <= i < list@.len() ==> list@[i]@ == files->Ok_0[i]
        },
        versions_read(versions, history) ==> {
            &&& history is Ok <==> versions is Ok
            &&& history matches Err(error) ==> versions == Err::<Seq<VersionEntry>, Failure>(
                error@,
            )
            &&& history matches Ok(list) ==> list@.len() == versions->Ok_0.len() && forall|i: int|
                #![trigger list@[i]]
                0 <= i < list@.len() ==> list@[i]@ == versions->Ok_0[i]
        },
{
    if files_read(files, many) && many is Ok {
        let list = many->Ok_0;
        assert forall|i: int| #![trigger list@[i]] 0 <= i < list@.len() implies list@[i]@
            == files->Ok_0[i] by {
            assert(views(list@)[i] == list@[i]@);
        }
        assert(views(list@).len() == list@.len());
    }
    if versions_read(versions, history) && history is Ok {
        let list = history->Ok_0;
        assert forall|i: int| #![trigger list@[i]] 0 <= i < list@.len() implies list@[i]@
            == versions->Ok_0[i] by {
            assert(views(list@)[i] == list@[i]@);
        }
        assert(views(list@).len() == list@.len());
    }
}

/// A refused batch says why: the failure of a path that has no key, the request
/// and the holder in its way, or an id that is taken.
pub proof fn law_a_refused_batch_names_what_stands_in_its_way(
    journal: Journal,
    requests: Seq<RequestRow>,
    ids: Seq<Seq<char>>,
    order: Seq<int>,
    now: int,
    conflicts: ScopeConflicts,
)
    requires
        is_request_order(order, requests),
    ensures
        acquisition(journal, requests, ids, order, now, conflicts) matches Err(
            Failure::ReservationConflict { transaction_id, path, blocking_transaction_id },
        ) ==> exists|r: int, h: int| #[trigger]
            is_blocked_at(journal.reservations, requests, conflicts, r, h)
                && requests[r].transaction_id == transaction_id && requests[r].path == path
                && journal.reservations[h].reservation.transaction_id == blocking_transaction_id,
        (exists|r: int|
            #![trigger requests[r]]
            0 <= r < requests.len() && key_of(requests[r].path) is Err) ==> acquisition(
            journal,
            requests,
            ids,
            order,
            now,
            conflicts,
        ) is Err && exists|r: int|
            #![trigger requests[r]]
            0 <= r < requests.len() && key_of(requests[r].path) is Err && acquisition(
                journal,
                requests,
                ids,
                order,
                now,
                conflicts,
            )->Err_0 == key_of(requests[r].path)->Err_0,
{
    let held = journal.reservations;
    let unkeyed = |request: RequestRow| key_of(request.path) is Err;
    let blocked = |i: int| any(held, blocks(requests[i], conflicts));
    lemma_first_where(requests, unkeyed);
    lemma_first_where(order, blocked);
    if first_where(requests, unkeyed) is Some {
        let request = first_where(requests, unkeyed)->0;
        let r = choose|r: int| 0 <= r < requests.len() && requests[r] == request;
        assert(unkeyed(requests[r]));
        law_a_path_is_reserved_where_it_is_normalized(request.path);
    } else {
        assert forall|r: int| #![trigger requests[r]] 0 <= r < requests.len() implies !(key_of(
            requests[r].path,
        ) is Err) by {
            assert(!unkeyed(requests[r]));
        }
        if first_where(order, blocked) is Some {
            let r = first_where(order, blocked)->0;
            let k = choose|k: int| 0 <= k < order.len() && order[k] == r;
            let pred = blocks(requests[r], conflicts);
            lemma_first_where(held, pred);
            assert(any(held, pred));
            let found = first_where(held, pred)->0;
            let h = choose|h: int| 0 <= h < held.len() && held[h] == found;
            assert(0 <= order[k] < requests.len());
            assert(is_blocked_at(held, requests, conflicts, r, h));
        }
    }
}

/// Nothing is executed yet: whatever its plan, a gated operation is refused as
/// not implemented.
pub proof fn law_execution_is_refused<T>(plan: Result<T, Failure>)
    ensures
        gate() matches Err(failure) && failure is NotImplemented,
        gated(plan) matches Err(failure) && failure is NotImplemented,
{
}

} // verus!
