//! What holds of the transaction journal across its statements.

use vstd::prelude::*;

use crate::epoch::{epoch_allocation, epoch_of, raised, transition, transitioned};
use crate::error::Failure;
use crate::filesystem_transaction::{
    advanced, beginning, fence, fence_advance, frontier_change, is_in_flight, lemma_first_in_flight,
    phase_change, phase_decision, phase_write, plan_revision_change, transaction_of,
};
use crate::phase::{is_settled, is_working_phase, EpochMoves};
use crate::rows::{lemma_first_where, set_where};
use crate::transaction_rows::{
    is_epoch, is_transaction, EpochRow, EpochUpdate, Journal, NewEpoch, NewFilesystemTransaction,
    TransactionRow,
};
use crate::vocabulary::{EpochState, TransactionPhase};

verus! {

/// No epoch of a completed transaction is in flight, so startup recovery, which
/// looks at incomplete transactions only, misses none.
pub open spec fn nothing_in_flight_under_a_completed_parent(journal: Journal) -> bool {
    forall|t: int, e: int|
        #![trigger journal.transactions[t], journal.epochs[e]]
        0 <= t < journal.transactions.len() && 0 <= e < journal.epochs.len()
            && journal.transactions[t].phase is Completed ==> !is_in_flight(
            journal.transactions[t].transaction_id,
        )(journal.epochs[e])
}

/// Updating the row of one transaction changes what is found for that id and
/// for no other.
proof fn lemma_found_after_update(
    rows: Seq<TransactionRow>,
    id: Seq<char>,
    f: spec_fn(TransactionRow) -> TransactionRow,
    other: Seq<char>,
)
    requires
        forall|row: TransactionRow| (#[trigger] f(row)).transaction_id == row.transaction_id,
    ensures
        transaction_of(set_where(rows, is_transaction(id), f), other) == match transaction_of(
            rows,
            other,
        ) {
            Some(row) => Some(
                if other == id {
                    f(row)
                } else {
                    row
                },
            ),
            None => None,
        },
    decreases rows.len(),
{
    let after = set_where(rows, is_transaction(id), f);
    if rows.len() > 0 {
        assert(f(rows[0]).transaction_id == rows[0].transaction_id);
        if rows[0].transaction_id != other {
            lemma_found_after_update(rows.skip(1), id, f, other);
            assert(after.skip(1) =~= set_where(rows.skip(1), is_transaction(id), f));
        }
    }
}

/// Once a fence advanced, the generation a caller held before is refused and
/// the new one is accepted; every other transaction keeps its fence.
pub proof fn law_an_advanced_fence_refuses_the_old_generation(
    journal: Journal,
    id: Seq<char>,
    other: Seq<char>,
    generation: int,
)
    requires
        fence(journal.transactions, id, generation) is Ok,
    ensures
        fence_advance(journal, id) is Ok,
        ({
            let (next, after) = fence_advance(journal, id)->Ok_0;
            &&& next == generation + 1
            &&& fence(after.transactions, id, generation) == Err::<(), _>(
                Failure::ExecutionGenerationFenced {
                    transaction_id: id,
                    expected: generation,
                    current: generation + 1,
                },
            )
            &&& fence(after.transactions, id, generation + 1) is Ok
            &&& forall|g: int|
                other != id ==> #[trigger] fence(after.transactions, other, g) == fence(
                    journal.transactions,
                    other,
                    g,
                )
        }),
{
    let f = |row: TransactionRow|
        TransactionRow { execution_generation: row.execution_generation + 1, ..row };
    lemma_found_after_update(journal.transactions, id, f, id);
    lemma_found_after_update(journal.transactions, id, f, other);
    assert(advanced(journal.transactions, id) == set_where(
        journal.transactions,
        is_transaction(id),
        f,
    ));
}

/// A plan revision is replaced once per value read: of two writers that both
/// expect the same revision, the second is refused.
pub proof fn law_only_one_writer_replaces_a_plan_revision(
    journal: Journal,
    id: Seq<char>,
    expected: int,
    first: int,
    second: int,
)
    requires
        first != expected,
        plan_revision_change(journal, id, expected, first) is Ok,
    ensures
        plan_revision_change(
            plan_revision_change(journal, id, expected, first)->Ok_0,
            id,
            expected,
            second,
        ) is Err,
{
    let f = |row: TransactionRow| TransactionRow { plan_revision: first, ..row };
    lemma_found_after_update(journal.transactions, id, f, id);
}

/// A frontier hash recorded for a plan that was replaced since is refused.
pub proof fn law_a_stale_frontier_hash_is_refused(
    journal: Journal,
    id: Seq<char>,
    generation: int,
    revision: int,
    next_revision: int,
    hash: [u8; 32],
)
    requires
        next_revision != revision,
        plan_revision_change(journal, id, revision, next_revision) is Ok,
    ensures
        frontier_change(
            plan_revision_change(journal, id, revision, next_revision)->Ok_0,
            id,
            generation,
            revision,
            hash,
        ) is Err,
{
    let f = |row: TransactionRow| TransactionRow { plan_revision: next_revision, ..row };
    lemma_found_after_update(journal.transactions, id, f, id);
}

/// A phase change is refused only by its decision: written to the journal it was
/// decided on, it always lands.
pub proof fn law_a_decided_phase_change_lands_unless_something_moved(
    journal: Journal,
    id: Seq<char>,
    generation: int,
    to: TransactionPhase,
    reason: Option<Seq<char>>,
    now: int,
)
    ensures
        phase_change(journal, id, generation, to, reason, now) is Ok <==> phase_decision(
            journal,
            id,
            generation,
            to,
        ) is Ok,
        phase_change(journal, id, generation, to, reason, now) is Ok ==> transaction_of(
            phase_change(journal, id, generation, to, reason, now)->Ok_0.transactions,
            id,
        )->0.phase == to,
{
    let f = |row: TransactionRow|
        TransactionRow { phase: to, blocked_reason: reason, updated_at: now, ..row };
    lemma_found_after_update(journal.transactions, id, f, id);
}

/// A completion lands only on the very row it was decided on: same generation,
/// same phase, and no epoch allocated since, for each allocation raises the
/// watermark.
pub proof fn law_a_completion_lands_only_on_what_was_decided(
    later: Journal,
    id: Seq<char>,
    generation: int,
    seen: (TransactionPhase, int),
    reason: Option<Seq<char>>,
    now: int,
)
    requires
        phase_write(later, id, generation, seen, TransactionPhase::Completed, reason, now) is Ok,
    ensures
        transaction_of(later.transactions, id) is Some,
        transaction_of(later.transactions, id)->0.execution_generation == generation,
        transaction_of(later.transactions, id)->0.phase == seen.0,
        transaction_of(later.transactions, id)->0.epoch_watermark == seen.1,
{
}

/// A completion decided before the watermark was raised is refused: a child
/// epoch that appears between the check and the write is not completed over.
pub proof fn law_an_epoch_allocated_meanwhile_refuses_the_completion(
    journal: Journal,
    id: Seq<char>,
    generation: int,
    epochs: Seq<EpochRow>,
    by: int,
    reason: Option<Seq<char>>,
    now: int,
)
    requires
        phase_decision(journal, id, generation, TransactionPhase::Completed) is Ok,
        by > 0,
    ensures
        phase_write(
            Journal { transactions: raised(journal.transactions, id, by), epochs, ..journal },
            id,
            generation,
            phase_decision(journal, id, generation, TransactionPhase::Completed)->Ok_0,
            TransactionPhase::Completed,
            reason,
            now,
        ) is Err,
{
    let f = |row: TransactionRow|
        TransactionRow { epoch_watermark: row.epoch_watermark + by, ..row };
    lemma_found_after_update(journal.transactions, id, f, id);
    assert(raised(journal.transactions, id, by) == set_where(
        journal.transactions,
        is_transaction(id),
        f,
    ));
}

/// Every allocated epoch raises its transaction's watermark by one and leaves
/// the watermark of every other transaction alone.
pub proof fn law_the_watermark_counts_allocations(
    journal: Journal,
    new: NewEpoch,
    generation: int,
    now: int,
    id: Seq<char>,
)
    requires
        epoch_allocation(journal, new, generation, now) is Ok,
        transaction_of(journal.transactions, id) is Some,
    ensures
        ({
            let after = epoch_allocation(journal, new, generation, now)->Ok_0;
            let before_mark = transaction_of(journal.transactions, id)->0.epoch_watermark;
            &&& transaction_of(after.transactions, id) is Some
            &&& transaction_of(after.transactions, id)->0.epoch_watermark == before_mark + if id
                == new.transaction_id@ {
                1int
            } else {
                0int
            }
        }),
{
    let f = |row: TransactionRow|
        TransactionRow { epoch_watermark: row.epoch_watermark + 1, ..row };
    lemma_found_after_update(journal.transactions, new.transaction_id@, f, id);
    assert(raised(journal.transactions, new.transaction_id@, 1) == set_where(
        journal.transactions,
        is_transaction(new.transaction_id@),
        f,
    ));
}

/// A worker whose plan was replaced allocates nothing: after its transaction's
/// fence advanced, an allocation at the old generation is refused.
pub proof fn law_a_stale_worker_allocates_nothing(
    journal: Journal,
    new: NewEpoch,
    generation: int,
    now: int,
)
    requires
        fence(journal.transactions, new.transaction_id@, generation) is Ok,
    ensures
        epoch_allocation(
            fence_advance(journal, new.transaction_id@)->Ok_0.1,
            new,
            generation,
            now,
        ) is Err,
{
    law_an_advanced_fence_refuses_the_old_generation(
        journal,
        new.transaction_id@,
        new.transaction_id@,
        generation,
    );
}

/// Neither a completed nor a blocked nor a preserving transaction receives a new
/// epoch.
pub proof fn law_only_a_working_transaction_receives_epochs(
    journal: Journal,
    new: NewEpoch,
    generation: int,
    now: int,
)
    requires
        epoch_allocation(journal, new, generation, now) is Ok,
    ensures
        transaction_of(journal.transactions, new.transaction_id@) is Some,
        is_working_phase(transaction_of(journal.transactions, new.transaction_id@)->0.phase),
{
}

/// Completing a transaction leaves none of its epochs in flight.
pub proof fn law_a_completed_transaction_has_no_epoch_in_flight(
    journal: Journal,
    id: Seq<char>,
    generation: int,
    reason: Option<Seq<char>>,
    now: int,
    e: int,
)
    requires
        phase_change(journal, id, generation, TransactionPhase::Completed, reason, now) is Ok,
        0 <= e < journal.epochs.len(),
    ensures
        !is_in_flight(id)(journal.epochs[e]),
        phase_change(
            journal,
            id,
            generation,
            TransactionPhase::Completed,
            reason,
            now,
        )->Ok_0.epochs == journal.epochs,
{
    lemma_first_in_flight(journal.epochs, id);
}

/// Starting a transaction keeps every in-flight epoch visible to recovery.
pub proof fn law_beginning_keeps_recovery_complete(
    journal: Journal,
    new: NewFilesystemTransaction,
    id: Seq<char>,
    now: int,
)
    requires
        nothing_in_flight_under_a_completed_parent(journal),
        beginning(journal, new, id, now) is Ok,
    ensures
        nothing_in_flight_under_a_completed_parent(beginning(journal, new, id, now)->Ok_0),
{
    let after = beginning(journal, new, id, now)->Ok_0;
    assert forall|t: int, e: int|
        #![trigger after.transactions[t], after.epochs[e]]
        0 <= t < after.transactions.len() && 0 <= e < after.epochs.len()
            && after.transactions[t].phase is Completed implies !is_in_flight(
        after.transactions[t].transaction_id,
    )(after.epochs[e]) by {
        if t < journal.transactions.len() {
            assert(after.transactions[t] == journal.transactions[t]);
            assert(after.epochs[e] == journal.epochs[e]);
        }
    }
}

proof fn lemma_phase_preserving_update(
    journal: Journal,
    id: Seq<char>,
    f: spec_fn(TransactionRow) -> TransactionRow,
)
    requires
        nothing_in_flight_under_a_completed_parent(journal),
        forall|row: TransactionRow|
            (#[trigger] f(row)).transaction_id == row.transaction_id && f(row).phase == row.phase,
    ensures
        nothing_in_flight_under_a_completed_parent(
            Journal {
                transactions: set_where(journal.transactions, is_transaction(id), f),
                ..journal
            },
        ),
{
    let after = set_where(journal.transactions, is_transaction(id), f);
    assert forall|t: int, e: int|
        #![trigger after[t], journal.epochs[e]]
        0 <= t < after.len() && 0 <= e < journal.epochs.len() && after[t].phase is Completed implies !is_in_flight(
        after[t].transaction_id,
    )(journal.epochs[e]) by {
        assert(f(journal.transactions[t]).phase == journal.transactions[t].phase);
        assert(journal.transactions[t].phase is Completed);
    }
}

/// Fencing and replanning keep every in-flight epoch visible to recovery.
pub proof fn law_fencing_and_replanning_keep_recovery_complete(
    journal: Journal,
    id: Seq<char>,
    expected_generation: int,
    expected_revision: int,
    revision: int,
    hash: [u8; 32],
)
    requires
        nothing_in_flight_under_a_completed_parent(journal),
    ensures
        fence_advance(journal, id) is Ok ==> nothing_in_flight_under_a_completed_parent(
            fence_advance(journal, id)->Ok_0.1,
        ),
        plan_revision_change(journal, id, expected_revision, revision) is Ok
            ==> nothing_in_flight_under_a_completed_parent(
            plan_revision_change(journal, id, expected_revision, revision)->Ok_0,
        ),
        frontier_change(journal, id, expected_generation, expected_revision, hash) is Ok
            ==> nothing_in_flight_under_a_completed_parent(
            frontier_change(journal, id, expected_generation, expected_revision, hash)->Ok_0,
        ),
{
    lemma_phase_preserving_update(
        journal,
        id,
        |row: TransactionRow|
            TransactionRow { execution_generation: row.execution_generation + 1, ..row },
    );
    lemma_phase_preserving_update(
        journal,
        id,
        |row: TransactionRow| TransactionRow { plan_revision: revision, ..row },
    );
    lemma_phase_preserving_update(
        journal,
        id,
        |row: TransactionRow| TransactionRow { desired_frontier_hash: hash, ..row },
    );
}

/// Changing a phase keeps every in-flight epoch visible to recovery.
pub proof fn law_phase_changes_keep_recovery_complete(
    journal: Journal,
    id: Seq<char>,
    generation: int,
    to: TransactionPhase,
    reason: Option<Seq<char>>,
    now: int,
)
    requires
        nothing_in_flight_under_a_completed_parent(journal),
        phase_change(journal, id, generation, to, reason, now) is Ok,
    ensures
        nothing_in_flight_under_a_completed_parent(
            phase_change(journal, id, generation, to, reason, now)->Ok_0,
        ),
{
    let after = phase_change(journal, id, generation, to, reason, now)->Ok_0;
    lemma_first_in_flight(journal.epochs, id);
    assert forall|t: int, e: int|
        #![trigger after.transactions[t], after.epochs[e]]
        0 <= t < after.transactions.len() && 0 <= e < after.epochs.len()
            && after.transactions[t].phase is Completed implies !is_in_flight(
        after.transactions[t].transaction_id,
    )(after.epochs[e]) by {
        if journal.transactions[t].transaction_id != id {
            assert(after.transactions[t] == journal.transactions[t]);
            assert(after.epochs[e] == journal.epochs[e]);
        }
    }
}

/// Allocating an epoch keeps every in-flight epoch visible to recovery.
pub proof fn law_allocation_keeps_recovery_complete(
    journal: Journal,
    new: NewEpoch,
    generation: int,
    now: int,
)
    requires
        journal.well_formed(),
        nothing_in_flight_under_a_completed_parent(journal),
        epoch_allocation(journal, new, generation, now) is Ok,
    ensures
        nothing_in_flight_under_a_completed_parent(
            epoch_allocation(journal, new, generation, now)->Ok_0,
        ),
{
    let id = new.transaction_id@;
    let after = epoch_allocation(journal, new, generation, now)->Ok_0;
    let rows = journal.transactions;
    lemma_first_where(rows, is_transaction(id));
    let row = transaction_of(rows, id)->0;
    let k = choose|k: int| 0 <= k < rows.len() && rows[k] == row;
    assert forall|t: int, e: int|
        #![trigger after.transactions[t], after.epochs[e]]
        0 <= t < after.transactions.len() && 0 <= e < after.epochs.len()
            && after.transactions[t].phase is Completed implies !is_in_flight(
        after.transactions[t].transaction_id,
    )(after.epochs[e]) by {
        assert(after.transactions[t].phase == rows[t].phase);
        assert(after.transactions[t].transaction_id == rows[t].transaction_id);
        if rows[t].transaction_id == id {
            if t < k {
                assert(rows[t].transaction_id != rows[k].transaction_id);
            } else if k < t {
                assert(rows[k].transaction_id != rows[t].transaction_id);
            }
            assert(is_working_phase(rows[t].phase));
        } else if e < journal.epochs.len() {
            assert(after.epochs[e] == journal.epochs[e]);
        }
    }
}

/// The placement domain lists no move out of a settled state.
pub open spec fn settles_for_good(moves: EpochMoves) -> bool {
    forall|from: EpochState, to: EpochState| #[trigger]
        moves.lists(from, to) ==> !is_settled(from)
}

/// Moving an epoch keeps every in-flight epoch visible to recovery, as long as
/// a settled epoch never moves again.
pub proof fn law_transitions_keep_recovery_complete(
    journal: Journal,
    id: Seq<char>,
    epoch: int,
    generation: int,
    to: EpochState,
    update: EpochUpdate,
    now: int,
    moves: EpochMoves,
)
    requires
        journal.well_formed(),
        nothing_in_flight_under_a_completed_parent(journal),
        settles_for_good(moves),
        transition(journal, id, epoch, generation, to, update, now, moves) is Ok,
    ensures
        nothing_in_flight_under_a_completed_parent(
            transition(journal, id, epoch, generation, to, update, now, moves)->Ok_0,
        ),
{
    let after = transition(journal, id, epoch, generation, to, update, now, moves)->Ok_0;
    let rows = journal.epochs;
    lemma_first_where(rows, is_epoch(id, epoch));
    let row = epoch_of(rows, id, epoch)->0;
    let k = choose|k: int| 0 <= k < rows.len() && rows[k] == row;
    assert(moves.lists(row.phase, to));
    assert forall|t: int, e: int|
        #![trigger after.transactions[t], after.epochs[e]]
        0 <= t < after.transactions.len() && 0 <= e < after.epochs.len()
            && after.transactions[t].phase is Completed implies !is_in_flight(
        after.transactions[t].transaction_id,
    )(after.epochs[e]) by {
        assert(journal.transactions[t] == after.transactions[t]);
        assert(rows[e] == rows[e]);
        if is_epoch(id, epoch)(rows[e]) {
            if e < k {
                assert(!(rows[e].transaction_id == rows[k].transaction_id && rows[e].epoch
                    == rows[k].epoch));
            } else if k < e {
                assert(!(rows[k].transaction_id == rows[e].transaction_id && rows[k].epoch
                    == rows[e].epoch));
            }
            assert(!is_settled(rows[e].phase));
            if journal.transactions[t].transaction_id == id {
                assert(is_in_flight(id)(rows[e]));
                assert(false);
            }
        } else {
            assert(after.epochs[e] == rows[e]);
        }
    }
}

/// A transition records what it learned and forgets nothing: a field the update
/// leaves out keeps what the row held.
pub proof fn law_transitions_forget_nothing(
    row: EpochRow,
    to: EpochState,
    update: EpochUpdate,
    now: int,
)
    ensures
        ({
            let after = transitioned(row, to, update, now);
            &&& row.stage_path is Some ==> after.stage_path is Some
            &&& row.preimage_path is Some ==> after.preimage_path is Some
            &&& row.backup_path is Some ==> after.backup_path is Some
            &&& row.staged_identity is Some ==> after.staged_identity is Some
            &&& row.displaced_identity is Some ==> after.displaced_identity is Some
            &&& row.displaced_generation_id is Some ==> after.displaced_generation_id is Some
            &&& row.displaced_snapshot is Some ==> after.displaced_snapshot is Some
            &&& row.classification_result is Some ==> after.classification_result is Some
            &&& row.captured_change_hash is Some ==> after.captured_change_hash is Some
            &&& row.unresolved_block_reason is Some ==> after.unresolved_block_reason is Some
            &&& update.stage_path is None ==> after.stage_path == row.stage_path
            &&& update.staged_identity is None ==> after.staged_identity == row.staged_identity
            &&& after.target_path == row.target_path
            &&& after.target_generation == row.target_generation
            &&& after.parent_directory_identity == row.parent_directory_identity
            &&& after.created_at == row.created_at
        }),
{
}

} // verus!
