//! What each statement of the transaction journal does to its rows, column by
//! column, and exactly when it is carried out.

use vstd::prelude::*;

use crate::epoch::{
    by_epoch, epoch_allocation, epoch_of, row_insertion, transition, transition_decision,
    transition_write, watermark_bump,
};
use crate::error::Failure;
use crate::filesystem_transaction::{
    beginning, by_transaction_id, fence, fence_advance, first_in_flight, frontier_change,
    is_incomplete, lemma_first_in_flight, phase_change, phase_decision, phase_write,
    plan_revision_change, transaction_of,
};
use crate::phase::{legal_phase_move, EpochMoves};
use crate::rows::{
    lemma_filter_members, lemma_first_where, lemma_first_where_at, lemma_first_where_none,
    listed_in_order,
};
use crate::text::text_lt;
use crate::transaction_rows::{
    is_epoch, is_epoch_of, is_transaction, EpochRow, EpochUpdate, Journal, NewEpoch,
    NewFilesystemTransaction, TransactionRow,
};
use crate::vocabulary::{EpochState, TransactionPhase};

verus! {

/// A transaction is found by its id wherever its row stands.
proof fn lemma_transaction_at(journal: Journal, id: Seq<char>, t: int)
    requires
        journal.well_formed(),
        0 <= t < journal.transactions.len(),
        journal.transactions[t].transaction_id == id,
    ensures
        transaction_of(journal.transactions, id) == Some(journal.transactions[t]),
{
    let rows = journal.transactions;
    assert forall|j: int| 0 <= j < t implies !is_transaction(id)(#[trigger] rows[j]) by {
        assert(rows[j].transaction_id != rows[t].transaction_id);
    }
    lemma_first_where_at(rows, is_transaction(id), t);
}

/// A transaction without a row is not found.
proof fn lemma_no_transaction(journal: Journal, id: Seq<char>)
    requires
        forall|t: int|
            #![trigger journal.transactions[t]]
            0 <= t < journal.transactions.len() ==> journal.transactions[t].transaction_id != id,
    ensures
        transaction_of(journal.transactions, id) is None,
{
    lemma_first_where_none(journal.transactions, is_transaction(id));
}

/// The row a transaction is found by is one of the table's.
proof fn lemma_transaction_found(journal: Journal, id: Seq<char>) -> (t: int)
    requires
        transaction_of(journal.transactions, id) is Some,
    ensures
        0 <= t < journal.transactions.len(),
        journal.transactions[t].transaction_id == id,
        journal.transactions[t] == transaction_of(journal.transactions, id)->0,
{
    let rows = journal.transactions;
    lemma_first_where(rows, is_transaction(id));
    let row = transaction_of(rows, id)->0;
    choose|t: int| 0 <= t < rows.len() && rows[t] == row
}

proof fn lemma_epoch_at(journal: Journal, id: Seq<char>, epoch: int, e: int)
    requires
        journal.well_formed(),
        0 <= e < journal.epochs.len(),
        journal.epochs[e].transaction_id == id,
        journal.epochs[e].epoch == epoch,
    ensures
        epoch_of(journal.epochs, id, epoch) == Some(journal.epochs[e]),
{
    let rows = journal.epochs;
    assert forall|j: int| 0 <= j < e implies !is_epoch(id, epoch)(#[trigger] rows[j]) by {
        assert(!(rows[j].transaction_id == rows[e].transaction_id && rows[j].epoch
            == rows[e].epoch));
    }
    lemma_first_where_at(rows, is_epoch(id, epoch), e);
}

proof fn lemma_epoch_found(journal: Journal, id: Seq<char>, epoch: int) -> (e: int)
    requires
        epoch_of(journal.epochs, id, epoch) is Some,
    ensures
        0 <= e < journal.epochs.len(),
        journal.epochs[e].transaction_id == id,
        journal.epochs[e].epoch == epoch,
        journal.epochs[e] == epoch_of(journal.epochs, id, epoch)->0,
{
    let rows = journal.epochs;
    lemma_first_where(rows, is_epoch(id, epoch));
    let row = epoch_of(rows, id, epoch)->0;
    choose|e: int| 0 <= e < rows.len() && rows[e] == row
}

proof fn lemma_no_epoch(journal: Journal, id: Seq<char>, epoch: int)
    requires
        forall|e: int|
            #![trigger journal.epochs[e]]
            0 <= e < journal.epochs.len() ==> !(journal.epochs[e].transaction_id == id
                && journal.epochs[e].epoch == epoch),
    ensures
        epoch_of(journal.epochs, id, epoch) is None,
{
    lemma_first_where_none(journal.epochs, is_epoch(id, epoch));
}

/// A transition puts the epoch into its new phase and stores everything the
/// update gives: each field holds the value given for it, or what it held
/// before where none was given. Nothing else of the epoch changes but the time
/// of the change, and nothing else in the journal.
pub proof fn law_a_transition_stores_what_its_update_gives(
    journal: Journal,
    id: Seq<char>,
    epoch: int,
    generation: int,
    to: EpochState,
    update: EpochUpdate,
    now: int,
    moves: EpochMoves,
    i: int,
)
    requires
        0 <= i < journal.epochs.len(),
    ensures
        transition(journal, id, epoch, generation, to, update, now, moves) matches Ok(after) ==> {
            let before = journal.epochs[i];
            let row = after.epochs[i];
            &&& after.epochs.len() == journal.epochs.len()
            &&& after.transactions == journal.transactions
            &&& after.reservations == journal.reservations
            &&& !(before.transaction_id == id && before.epoch == epoch) ==> row == before
            &&& before.transaction_id == id && before.epoch == epoch ==> {
                &&& row.phase == to
                &&& row.updated_at == now
                &&& update.displaced_generation_id matches Some(given)
                    ==> row.displaced_generation_id == Some(given.0@)
                &&& update.displaced_generation_id is None ==> row.displaced_generation_id
                    == before.displaced_generation_id
                &&& update.displaced_snapshot matches Some(given) ==> row.displaced_snapshot
                    == Some(given@)
                &&& update.displaced_snapshot is None ==> row.displaced_snapshot
                    == before.displaced_snapshot
                &&& update.stage_path matches Some(given) ==> row.stage_path == Some(given@)
                &&& update.stage_path is None ==> row.stage_path == before.stage_path
                &&& update.preimage_path matches Some(given) ==> row.preimage_path == Some(given@)
                &&& update.preimage_path is None ==> row.preimage_path == before.preimage_path
                &&& update.backup_path matches Some(given) ==> row.backup_path == Some(given@)
                &&& update.backup_path is None ==> row.backup_path == before.backup_path
                &&& update.staged_identity matches Some(given) ==> row.staged_identity == Some(
                    *given,
                )
                &&& update.staged_identity is None ==> row.staged_identity
                    == before.staged_identity
                &&& update.displaced_identity matches Some(given) ==> row.displaced_identity
                    == Some(*given)
                &&& update.displaced_identity is None ==> row.displaced_identity
                    == before.displaced_identity
                &&& update.classification_result matches Some(given)
                    ==> row.classification_result == Some(given@)
                &&& update.classification_result is None ==> row.classification_result
                    == before.classification_result
                &&& update.captured_change_hash matches Some(given) ==> row.captured_change_hash
                    == Some(*given)
                &&& update.captured_change_hash is None ==> row.captured_change_hash
                    == before.captured_change_hash
                &&& update.unresolved_block_reason matches Some(given)
                    ==> row.unresolved_block_reason == Some(given@)
                &&& update.unresolved_block_reason is None ==> row.unresolved_block_reason
                    == before.unresolved_block_reason
                &&& row.transaction_id == id
                &&& row.epoch == epoch
                &&& row.plan_revision == before.plan_revision
                &&& row.target_path == before.target_path
                &&& row.placement_role == before.placement_role
                &&& row.target_generation == before.target_generation
                &&& row.parent_directory_identity == before.parent_directory_identity
                &&& row.capability_snapshot == before.capability_snapshot
                &&& row.durability_level == before.durability_level
                &&& row.created_at == before.created_at
            }
        },
{
}

/// An epoch moves exactly where its transaction is at the expected generation,
/// the epoch is there, and the table lists the move from its phase.
pub proof fn law_an_epoch_moves_exactly_when_it_may(
    journal: Journal,
    id: Seq<char>,
    epoch: int,
    generation: int,
    to: EpochState,
    update: EpochUpdate,
    now: int,
    moves: EpochMoves,
)
    requires
        journal.well_formed(),
    ensures
        transition(journal, id, epoch, generation, to, update, now, moves) is Ok <==> exists|
            t: int,
            e: int,
        |
            #![trigger journal.transactions[t], journal.epochs[e]]
            {
                &&& 0 <= t < journal.transactions.len()
                &&& 0 <= e < journal.epochs.len()
                &&& journal.transactions[t].transaction_id == id
                &&& journal.transactions[t].execution_generation == generation
                &&& journal.epochs[e].transaction_id == id
                &&& journal.epochs[e].epoch == epoch
                &&& moves.edges@.contains((journal.epochs[e].phase, to))
            },
        transition(journal, id, epoch, generation, to, update, now, moves) is Ok
            <==> transition_decision(journal, id, epoch, generation, to, moves) is Ok,
{
    if transition_decision(journal, id, epoch, generation, to, moves) is Ok {
        let t = lemma_transaction_found(journal, id);
        let e = lemma_epoch_found(journal, id, epoch);
        assert(journal.transactions[t].transaction_id == id && journal.epochs[e].epoch == epoch);
    }
    if exists|t: int, e: int|
        #![trigger journal.transactions[t], journal.epochs[e]]
        {
            &&& 0 <= t < journal.transactions.len()
            &&& 0 <= e < journal.epochs.len()
            &&& journal.transactions[t].transaction_id == id
            &&& journal.transactions[t].execution_generation == generation
            &&& journal.epochs[e].transaction_id == id
            &&& journal.epochs[e].epoch == epoch
            &&& moves.edges@.contains((journal.epochs[e].phase, to))
        } {
        let (t, e) = choose|t: int, e: int|
            #![trigger journal.transactions[t], journal.epochs[e]]
            {
                &&& 0 <= t < journal.transactions.len()
                &&& 0 <= e < journal.epochs.len()
                &&& journal.transactions[t].transaction_id == id
                &&& journal.transactions[t].execution_generation == generation
                &&& journal.epochs[e].transaction_id == id
                &&& journal.epochs[e].epoch == epoch
                &&& moves.edges@.contains((journal.epochs[e].phase, to))
            };
        lemma_transaction_at(journal, id, t);
        lemma_epoch_at(journal, id, epoch, e);
    }
}

/// A transition that was decided is written only while the epoch is in the
/// phase it was decided in and the generation still holds; otherwise the answer
/// says what moved.
pub proof fn law_a_transition_is_written_only_on_what_was_decided(
    journal: Journal,
    id: Seq<char>,
    epoch: int,
    generation: int,
    seen: EpochState,
    to: EpochState,
    update: EpochUpdate,
    now: int,
    t: int,
    e: int,
)
    requires
        journal.well_formed(),
        0 <= t < journal.transactions.len(),
        journal.transactions[t].transaction_id == id,
        0 <= e < journal.epochs.len(),
        journal.epochs[e].transaction_id == id,
        journal.epochs[e].epoch == epoch,
    ensures
        transition_write(journal, id, epoch, generation, seen, to, update, now) is Ok
            <==> journal.transactions[t].execution_generation == generation
            && journal.epochs[e].phase == seen,
        journal.transactions[t].execution_generation != generation ==> transition_write(
            journal,
            id,
            epoch,
            generation,
            seen,
            to,
            update,
            now,
        ) == Err::<Journal, _>(
            Failure::ExecutionGenerationFenced {
                transaction_id: id,
                expected: generation,
                current: journal.transactions[t].execution_generation,
            },
        ),
        journal.transactions[t].execution_generation == generation && journal.epochs[e].phase
            != seen ==> (transition_write(
            journal,
            id,
            epoch,
            generation,
            seen,
            to,
            update,
            now,
        ) matches Err(Failure::TransitionRaced { .. })),
{
    lemma_transaction_at(journal, id, t);
    lemma_epoch_at(journal, id, epoch, e);
}

/// A transaction begins exactly where its id is new. It then stands behind all
/// others at planning, with what it was given, at revision, generation and
/// watermark 0 and not blocked; nothing else changes.
pub proof fn law_a_transaction_begins_at_planning_with_what_it_was_given(
    journal: Journal,
    new: NewFilesystemTransaction,
    id: Seq<char>,
    now: int,
)
    ensures
        beginning(journal, new, id, now) is Ok <==> forall|t: int|
            #![trigger journal.transactions[t]]
            0 <= t < journal.transactions.len() ==> journal.transactions[t].transaction_id != id,
        beginning(journal, new, id, now) matches Ok(after) ==> {
            let row = after.transactions[journal.transactions.len() as int];
            &&& after.transactions.len() == journal.transactions.len() + 1
            &&& forall|t: int|
                #![trigger after.transactions[t]]
                0 <= t < journal.transactions.len() ==> after.transactions[t]
                    == journal.transactions[t]
            &&& after.epochs == journal.epochs
            &&& after.reservations == journal.reservations
            &&& row.transaction_id == id
            &&& row.group_id == new.group_id@
            &&& row.source_path == new.source_path@
            &&& row.kind == new.kind
            &&& row.cause == new.cause
            &&& new.trigger_change_hash matches Some(hash) ==> row.trigger_change_hash == Some(
                *hash,
            )
            &&& new.trigger_change_hash is None ==> row.trigger_change_hash is None
            &&& row.desired_frontier_hash == new.desired_frontier_hash
            &&& row.plan_revision == 0
            &&& row.execution_generation == 0
            &&& row.epoch_watermark == 0
            &&& row.phase is Planning
            &&& row.blocked_reason is None
            &&& row.created_at == now
            &&& row.updated_at == now
        },
        beginning(journal, new, id, now) matches Err(failure) ==> failure is DuplicateKey,
{
    if transaction_of(journal.transactions, id) is Some {
        let t = lemma_transaction_found(journal, id);
    } else {
        lemma_first_where(journal.transactions, is_transaction(id));
        assert forall|t: int|
            #![trigger journal.transactions[t]]
            0 <= t < journal.transactions.len() implies journal.transactions[t].transaction_id
            != id by {
            if journal.transactions[t].transaction_id == id {
                assert(is_transaction(id)(journal.transactions[t]));
            }
        }
    }
}

/// A change of phase sets the phase, the reason it is blocked for and the time
/// of the change, on that transaction alone.
pub proof fn law_a_phase_change_sets_the_phase_and_its_reason(
    journal: Journal,
    id: Seq<char>,
    generation: int,
    to: TransactionPhase,
    reason: Option<Seq<char>>,
    now: int,
    i: int,
)
    requires
        0 <= i < journal.transactions.len(),
    ensures
        phase_change(journal, id, generation, to, reason, now) matches Ok(after) ==> {
            let before = journal.transactions[i];
            let row = after.transactions[i];
            &&& after.transactions.len() == journal.transactions.len()
            &&& after.epochs == journal.epochs
            &&& after.reservations == journal.reservations
            &&& before.transaction_id != id ==> row == before
            &&& before.transaction_id == id ==> {
                &&& row.phase == to
                &&& row.blocked_reason == reason
                &&& row.updated_at == now
                &&& row.transaction_id == id
                &&& row.group_id == before.group_id
                &&& row.source_path == before.source_path
                &&& row.kind == before.kind
                &&& row.cause == before.cause
                &&& row.trigger_change_hash == before.trigger_change_hash
                &&& row.desired_frontier_hash == before.desired_frontier_hash
                &&& row.plan_revision == before.plan_revision
                &&& row.execution_generation == before.execution_generation
                &&& row.epoch_watermark == before.epoch_watermark
                &&& row.created_at == before.created_at
            }
        },
{
}

/// A transaction changes phase exactly where it is at the expected generation,
/// the move is a legal one, and, to complete, each of its epochs is completed,
/// quarantined or blocked.
pub proof fn law_a_phase_changes_exactly_when_it_may(
    journal: Journal,
    id: Seq<char>,
    generation: int,
    to: TransactionPhase,
    reason: Option<Seq<char>>,
    now: int,
)
    requires
        journal.well_formed(),
    ensures
        phase_change(journal, id, generation, to, reason, now) is Ok <==> {
            &&& exists|t: int|
                #![trigger journal.transactions[t]]
                {
                    &&& 0 <= t < journal.transactions.len()
                    &&& journal.transactions[t].transaction_id == id
                    &&& journal.transactions[t].execution_generation == generation
                    &&& legal_phase_move(journal.transactions[t].phase, to)
                }
            &&& to is Completed ==> forall|e: int|
                #![trigger journal.epochs[e]]
                0 <= e < journal.epochs.len() && journal.epochs[e].transaction_id == id ==> {
                    ||| journal.epochs[e].phase is Completed
                    ||| journal.epochs[e].phase is Quarantined
                    ||| journal.epochs[e].phase is Blocked
                }
        },
        phase_change(journal, id, generation, to, reason, now) is Ok <==> phase_decision(
            journal,
            id,
            generation,
            to,
        ) is Ok,
{
    lemma_first_in_flight(journal.epochs, id);
    if transaction_of(journal.transactions, id) is Some {
        let t = lemma_transaction_found(journal, id);
        assert(journal.transactions[t].transaction_id == id);
    }
    assert forall|t: int|
        #![trigger journal.transactions[t]]
        0 <= t < journal.transactions.len() && journal.transactions[t].transaction_id
            == id implies transaction_of(journal.transactions, id) == Some(
        journal.transactions[t],
    ) by {
        lemma_transaction_at(journal, id, t);
    }
    if crate::filesystem_transaction::first_in_flight(journal.epochs, id) is Some {
        let first = crate::filesystem_transaction::first_in_flight(journal.epochs, id)->0;
        let e = choose|e: int| 0 <= e < journal.epochs.len() && journal.epochs[e] == first;
        assert(journal.epochs[e].transaction_id == id);
    }
}

/// A change of phase that was decided is written only while the transaction is
/// in the phase it was decided in and, for a completion, no epoch came since.
pub proof fn law_a_phase_change_is_written_only_on_what_was_decided(
    journal: Journal,
    id: Seq<char>,
    generation: int,
    seen: (TransactionPhase, int),
    to: TransactionPhase,
    reason: Option<Seq<char>>,
    now: int,
    t: int,
)
    requires
        journal.well_formed(),
        0 <= t < journal.transactions.len(),
        journal.transactions[t].transaction_id == id,
    ensures
        phase_write(journal, id, generation, seen, to, reason, now) is Ok <==> {
            &&& journal.transactions[t].execution_generation == generation
            &&& journal.transactions[t].phase == seen.0
            &&& to is Completed ==> journal.transactions[t].epoch_watermark == seen.1
        },
        phase_decision(journal, id, generation, to) matches Ok(decided) ==> decided == (
            journal.transactions[t].phase,
            journal.transactions[t].epoch_watermark,
        ),
{
    lemma_transaction_at(journal, id, t);
}

/// The fence admits exactly the generation the transaction is at. Any other is
/// told the current one, and an unknown transaction is not found.
pub proof fn law_the_fence_admits_the_current_generation_alone(
    journal: Journal,
    id: Seq<char>,
    generation: int,
)
    requires
        journal.well_formed(),
    ensures
        forall|t: int|
            #![trigger journal.transactions[t]]
            0 <= t < journal.transactions.len() && journal.transactions[t].transaction_id == id
                ==> fence(journal.transactions, id, generation) == if generation
                == journal.transactions[t].execution_generation {
                Ok::<(), Failure>(())
            } else {
                Err(
                    Failure::ExecutionGenerationFenced {
                        transaction_id: id,
                        expected: generation,
                        current: journal.transactions[t].execution_generation,
                    },
                )
            },
        (forall|t: int|
            #![trigger journal.transactions[t]]
            0 <= t < journal.transactions.len() ==> journal.transactions[t].transaction_id != id)
            ==> (fence(journal.transactions, id, generation) matches Err(Failure::NotFound(_))),
{
    assert forall|t: int|
        #![trigger journal.transactions[t]]
        0 <= t < journal.transactions.len() && journal.transactions[t].transaction_id
            == id implies fence(journal.transactions, id, generation) == if generation
        == journal.transactions[t].execution_generation {
        Ok::<(), Failure>(())
    } else {
        Err(
            Failure::ExecutionGenerationFenced {
                transaction_id: id,
                expected: generation,
                current: journal.transactions[t].execution_generation,
            },
        )
    } by {
        lemma_transaction_at(journal, id, t);
    }
    if forall|t: int|
        #![trigger journal.transactions[t]]
        0 <= t < journal.transactions.len() ==> journal.transactions[t].transaction_id != id {
        lemma_no_transaction(journal, id);
    }
}

/// Advancing a fence raises that transaction's generation by one and answers
/// with it; nothing else changes.
pub proof fn law_advancing_a_fence_raises_one_generation(journal: Journal, id: Seq<char>, i: int)
    requires
        journal.well_formed(),
        0 <= i < journal.transactions.len(),
    ensures
        journal.transactions[i].transaction_id == id ==> fence_advance(journal, id) is Ok,
        fence_advance(journal, id) matches Ok((next, after)) ==> {
            let before = journal.transactions[i];
            let row = after.transactions[i];
            &&& after.transactions.len() == journal.transactions.len()
            &&& after.epochs == journal.epochs
            &&& after.reservations == journal.reservations
            &&& before.transaction_id != id ==> row == before
            &&& before.transaction_id == id ==> {
                &&& next == before.execution_generation + 1
                &&& row.execution_generation == next
                &&& row == (TransactionRow {
                    execution_generation: row.execution_generation,
                    ..before
                })
            }
        },
{
    if journal.transactions[i].transaction_id == id {
        lemma_transaction_at(journal, id, i);
    }
}

/// A plan revision is replaced exactly where the transaction is at the expected
/// one, and nothing else changes.
pub proof fn law_a_plan_revision_is_replaced_on_the_expected_one(
    journal: Journal,
    id: Seq<char>,
    expected: int,
    revision: int,
    i: int,
)
    requires
        journal.well_formed(),
        0 <= i < journal.transactions.len(),
    ensures
        journal.transactions[i].transaction_id == id ==> (plan_revision_change(
            journal,
            id,
            expected,
            revision,
        ) is Ok <==> journal.transactions[i].plan_revision == expected),
        plan_revision_change(journal, id, expected, revision) matches Ok(after) ==> {
            let before = journal.transactions[i];
            let row = after.transactions[i];
            &&& after.transactions.len() == journal.transactions.len()
            &&& after.epochs == journal.epochs
            &&& after.reservations == journal.reservations
            &&& before.transaction_id != id ==> row == before
            &&& before.transaction_id == id ==> row.plan_revision == revision && row == (
            TransactionRow { plan_revision: row.plan_revision, ..before })
        },
        plan_revision_change(journal, id, expected, revision) matches Err(failure) ==> failure
            is NotFound || failure is TransitionRaced,
{
    if journal.transactions[i].transaction_id == id {
        lemma_transaction_at(journal, id, i);
    }
}

/// A desired frontier is replaced exactly where the transaction is at the
/// expected generation and revision, and nothing else changes.
pub proof fn law_a_frontier_is_replaced_on_the_expected_plan(
    journal: Journal,
    id: Seq<char>,
    generation: int,
    revision: int,
    hash: [u8; 32],
    i: int,
)
    requires
        journal.well_formed(),
        0 <= i < journal.transactions.len(),
    ensures
        journal.transactions[i].transaction_id == id ==> (frontier_change(
            journal,
            id,
            generation,
            revision,
            hash,
        ) is Ok <==> journal.transactions[i].execution_generation == generation
            && journal.transactions[i].plan_revision == revision),
        frontier_change(journal, id, generation, revision, hash) matches Ok(after) ==> {
            let before = journal.transactions[i];
            let row = after.transactions[i];
            &&& after.transactions.len() == journal.transactions.len()
            &&& after.epochs == journal.epochs
            &&& after.reservations == journal.reservations
            &&& before.transaction_id != id ==> row == before
            &&& before.transaction_id == id ==> row.desired_frontier_hash == hash && row == (
            TransactionRow { desired_frontier_hash: row.desired_frontier_hash, ..before })
        },
{
    if journal.transactions[i].transaction_id == id {
        lemma_transaction_at(journal, id, i);
    }
}

/// The row an allocation writes holds what was given and has learned nothing
/// yet.
pub open spec fn is_fresh_epoch(row: EpochRow, new: NewEpoch, now: int) -> bool {
    &&& row.transaction_id == new.transaction_id@
    &&& row.epoch == new.epoch
    &&& row.plan_revision == new.plan_revision
    &&& row.target_path == new.target_path@
    &&& row.placement_role == new.placement_role
    &&& row.phase is Allocated
    &&& row.target_generation == new.target_generation@
    &&& row.parent_directory_identity == *new.parent_directory_identity
    &&& row.capability_snapshot == new.capability_snapshot@
    &&& row.durability_level == new.durability_level
    &&& row.displaced_generation_id is None
    &&& row.displaced_snapshot is None
    &&& row.stage_path is None
    &&& row.preimage_path is None
    &&& row.backup_path is None
    &&& row.staged_identity is None
    &&& row.displaced_identity is None
    &&& row.classification_result is None
    &&& row.captured_change_hash is None
    &&& row.unresolved_block_reason is None
    &&& row.created_at == now
    &&& row.updated_at == now
}

/// An allocation adds one epoch in phase allocated, with what was given and
/// nothing learned yet, and counts it on its transaction's watermark. Every
/// other epoch and transaction stays as it is.
pub proof fn law_an_allocation_adds_one_fresh_epoch(
    journal: Journal,
    new: NewEpoch,
    generation: int,
    now: int,
    i: int,
)
    requires
        0 <= i < journal.transactions.len(),
    ensures
        epoch_allocation(journal, new, generation, now) matches Ok(after) ==> {
            let before = journal.transactions[i];
            let row = after.transactions[i];
            &&& after.epochs.len() == journal.epochs.len() + 1
            &&& forall|e: int|
                #![trigger after.epochs[e]]
                0 <= e < journal.epochs.len() ==> after.epochs[e] == journal.epochs[e]
            &&& is_fresh_epoch(after.epochs[journal.epochs.len() as int], new, now)
            &&& after.reservations == journal.reservations
            &&& after.transactions.len() == journal.transactions.len()
            &&& before.transaction_id != new.transaction_id@ ==> row == before
            &&& before.transaction_id == new.transaction_id@ ==> row.epoch_watermark
                == before.epoch_watermark + 1 && row == (TransactionRow {
                epoch_watermark: row.epoch_watermark,
                ..before
            })
        },
{
}

/// An epoch is allocated exactly where its transaction is at the expected
/// generation and revision, at planning or committing, and has no epoch of that
/// number.
pub proof fn law_an_epoch_is_allocated_exactly_when_it_may(
    journal: Journal,
    new: NewEpoch,
    generation: int,
    now: int,
)
    requires
        journal.well_formed(),
    ensures
        epoch_allocation(journal, new, generation, now) is Ok <==> {
            &&& exists|t: int|
                #![trigger journal.transactions[t]]
                {
                    &&& 0 <= t < journal.transactions.len()
                    &&& journal.transactions[t].transaction_id == new.transaction_id@
                    &&& journal.transactions[t].execution_generation == generation
                    &&& journal.transactions[t].plan_revision == new.plan_revision
                    &&& journal.transactions[t].phase is Planning
                        || journal.transactions[t].phase is Committing
                }
            &&& forall|e: int|
                #![trigger journal.epochs[e]]
                0 <= e < journal.epochs.len() ==> !(journal.epochs[e].transaction_id
                    == new.transaction_id@ && journal.epochs[e].epoch == new.epoch)
        },
{
    let id = new.transaction_id@;
    let epoch = new.epoch as int;
    if transaction_of(journal.transactions, id) is Some {
        let t = lemma_transaction_found(journal, id);
        assert(journal.transactions[t].transaction_id == id);
    }
    assert forall|t: int|
        #![trigger journal.transactions[t]]
        0 <= t < journal.transactions.len() && journal.transactions[t].transaction_id
            == id implies transaction_of(journal.transactions, id) == Some(
        journal.transactions[t],
    ) by {
        lemma_transaction_at(journal, id, t);
    }
    if epoch_of(journal.epochs, id, epoch) is Some {
        let e = lemma_epoch_found(journal, id, epoch);
        assert(journal.epochs[e].epoch == epoch);
    } else {
        assert forall|e: int|
            #![trigger journal.epochs[e]]
            0 <= e < journal.epochs.len() implies !(journal.epochs[e].transaction_id == id
            && journal.epochs[e].epoch == epoch) by {
            if journal.epochs[e].transaction_id == id && journal.epochs[e].epoch == epoch {
                lemma_epoch_at(journal, id, epoch, e);
            }
        }
    }
}

/// Raising a watermark is open to a transaction at planning or committing, and
/// raises that one alone.
pub proof fn law_a_watermark_is_raised_while_working(
    journal: Journal,
    id: Seq<char>,
    by: int,
    i: int,
)
    requires
        journal.well_formed(),
        0 <= i < journal.transactions.len(),
    ensures
        journal.transactions[i].transaction_id == id ==> (watermark_bump(journal, id, by) is Ok
            <==> journal.transactions[i].phase is Planning || journal.transactions[i].phase
            is Committing),
        watermark_bump(journal, id, by) matches Ok(after) ==> {
            let before = journal.transactions[i];
            let row = after.transactions[i];
            &&& after.transactions.len() == journal.transactions.len()
            &&& after.epochs == journal.epochs
            &&& after.reservations == journal.reservations
            &&& before.transaction_id != id ==> row == before
            &&& before.transaction_id == id ==> row.epoch_watermark == before.epoch_watermark + by
                && row == (TransactionRow { epoch_watermark: row.epoch_watermark, ..before })
        },
{
    if journal.transactions[i].transaction_id == id {
        lemma_transaction_at(journal, id, i);
    }
}

/// Inserting an epoch's row adds one fresh epoch and nothing else, exactly where
/// its transaction is at the expected revision and has no epoch of that number.
pub proof fn law_an_inserted_epoch_is_fresh(journal: Journal, new: NewEpoch, now: int, t: int)
    requires
        journal.well_formed(),
        0 <= t < journal.transactions.len(),
        journal.transactions[t].transaction_id == new.transaction_id@,
    ensures
        row_insertion(journal, new, now) is Ok <==> {
            &&& journal.transactions[t].plan_revision == new.plan_revision
            &&& forall|e: int|
                #![trigger journal.epochs[e]]
                0 <= e < journal.epochs.len() ==> !(journal.epochs[e].transaction_id
                    == new.transaction_id@ && journal.epochs[e].epoch == new.epoch)
        },
        row_insertion(journal, new, now) matches Ok(after) ==> {
            &&& after.transactions == journal.transactions
            &&& after.reservations == journal.reservations
            &&& after.epochs.len() == journal.epochs.len() + 1
            &&& is_fresh_epoch(after.epochs[journal.epochs.len() as int], new, now)
            &&& forall|e: int|
                #![trigger after.epochs[e]]
                0 <= e < journal.epochs.len() ==> after.epochs[e] == journal.epochs[e]
        },
{
    let id = new.transaction_id@;
    let epoch = new.epoch as int;
    lemma_transaction_at(journal, id, t);
    if epoch_of(journal.epochs, id, epoch) is Some {
        let e = lemma_epoch_found(journal, id, epoch);
        assert(journal.epochs[e].epoch == epoch);
    } else {
        assert forall|e: int|
            #![trigger journal.epochs[e]]
            0 <= e < journal.epochs.len() implies !(journal.epochs[e].transaction_id == id
            && journal.epochs[e].epoch == epoch) by {
            if journal.epochs[e].transaction_id == id && journal.epochs[e].epoch == epoch {
                lemma_epoch_at(journal, id, epoch, e);
            }
        }
    }
}

/// A lookup finds the transaction, or the epoch, whose key it is asked for, and
/// nothing only where there is none.
pub proof fn law_a_lookup_finds_the_row_of_that_key(journal: Journal, id: Seq<char>, epoch: int)
    requires
        journal.well_formed(),
    ensures
        forall|t: int|
            #![trigger journal.transactions[t]]
            0 <= t < journal.transactions.len() ==> (journal.transactions[t].transaction_id == id
                <==> transaction_of(journal.transactions, id) == Some(journal.transactions[t])),
        forall|e: int|
            #![trigger journal.epochs[e]]
            0 <= e < journal.epochs.len() ==> (journal.epochs[e].transaction_id == id
                && journal.epochs[e].epoch == epoch <==> epoch_of(journal.epochs, id, epoch)
                == Some(journal.epochs[e])),
        transaction_of(journal.transactions, id) matches Some(row)
            ==> journal.transactions.contains(row),
        epoch_of(journal.epochs, id, epoch) matches Some(row) ==> journal.epochs.contains(row),
{
    lemma_first_where(journal.transactions, is_transaction(id));
    lemma_first_where(journal.epochs, is_epoch(id, epoch));
    assert forall|t: int|
        #![trigger journal.transactions[t]]
        0 <= t < journal.transactions.len() implies (journal.transactions[t].transaction_id == id
        <==> transaction_of(journal.transactions, id) == Some(journal.transactions[t])) by {
        if journal.transactions[t].transaction_id == id {
            lemma_transaction_at(journal, id, t);
        }
    }
    assert forall|e: int|
        #![trigger journal.epochs[e]]
        0 <= e < journal.epochs.len() implies (journal.epochs[e].transaction_id == id
        && journal.epochs[e].epoch == epoch <==> epoch_of(journal.epochs, id, epoch) == Some(
        journal.epochs[e],
    )) by {
        if journal.epochs[e].transaction_id == id && journal.epochs[e].epoch == epoch {
            lemma_epoch_at(journal, id, epoch, e);
        }
    }
}

/// A listing in order holds exactly the rows that meet the condition, each as
/// often as the table does.
pub proof fn lemma_listed_members<R>(
    listed: Seq<R>,
    rows: Seq<R>,
    pred: spec_fn(R) -> bool,
    before: spec_fn(R, R) -> bool,
)
    requires
        listed_in_order(listed, rows, pred, before),
    ensures
        forall|row: R| #[trigger] listed.contains(row) <==> rows.contains(row) && pred(row),
        listed.len() == rows.filter(pred).len(),
{
    let selected = rows.filter(pred);
    listed.to_multiset_ensures();
    selected.to_multiset_ensures();
    assert forall|row: R| #[trigger] listed.contains(row) <==> rows.contains(row) && pred(
        row,
    ) by {
        lemma_filter_members(rows, pred, row);
        assert(listed.contains(row) <==> listed.to_multiset().count(row) > 0);
        assert(selected.contains(row) <==> selected.to_multiset().count(row) > 0);
    }
}

/// Startup finds every transaction that is not completed, and no completed one,
/// by id.
pub proof fn law_startup_finds_what_is_not_completed(
    listed: Seq<TransactionRow>,
    rows: Seq<TransactionRow>,
)
    requires
        listed_in_order(listed, rows, is_incomplete(), by_transaction_id()),
    ensures
        forall|row: TransactionRow| #[trigger]
            listed.contains(row) <==> rows.contains(row) && !(row.phase is Completed),
        forall|i: int, j: int|
            #![trigger listed[i], listed[j]]
            0 <= i < j < listed.len() ==> !text_lt(
                listed[j].transaction_id,
                listed[i].transaction_id,
            ),
{
    lemma_listed_members(listed, rows, is_incomplete(), by_transaction_id());
}

/// The epochs listed for a transaction are all of its own and no other's, by
/// number.
pub proof fn law_a_transactions_epochs_are_listed_by_number(
    listed: Seq<EpochRow>,
    rows: Seq<EpochRow>,
    id: Seq<char>,
)
    requires
        listed_in_order(listed, rows, is_epoch_of(id), by_epoch()),
    ensures
        forall|row: EpochRow| #[trigger]
            listed.contains(row) <==> rows.contains(row) && row.transaction_id == id,
        forall|i: int, j: int|
            #![trigger listed[i], listed[j]]
            0 <= i < j < listed.len() ==> listed[i].epoch <= listed[j].epoch,
{
    lemma_listed_members(listed, rows, is_epoch_of(id), by_epoch());
}

/// A saga can go all the way: from planning to committing, on to asynchronous
/// preservation and to completion. Beside these steps it only goes back to
/// planning, from committing or blocked, or becomes blocked.
pub proof fn law_a_saga_can_go_all_the_way(from: TransactionPhase, to: TransactionPhase)
    ensures
        from is Planning ==> legal_phase_move(from, TransactionPhase::Committing),
        from is Committing ==> legal_phase_move(from, TransactionPhase::AsyncPreservation),
        from is AsyncPreservation ==> legal_phase_move(from, TransactionPhase::Completed),
        legal_phase_move(from, to) && !(to is Blocked) && !(to is Planning) ==> {
            ||| from is Planning && to is Committing
            ||| from is Committing && to is AsyncPreservation
            ||| from is AsyncPreservation && to is Completed
        },
        legal_phase_move(from, TransactionPhase::Blocked) <==> !(from is Blocked) && !(from
            is Completed),
{
}

/// An epoch is in flight while it is not completed, quarantined or blocked. Of
/// those of a transaction, the lowest number is named; none is named exactly
/// where all have settled.
pub proof fn law_the_lowest_epoch_in_flight_is_named(rows: Seq<EpochRow>, id: Seq<char>)
    ensures
        first_in_flight(rows, id) matches Some(found) ==> {
            &&& rows.contains(found)
            &&& found.transaction_id == id
            &&& !(found.phase is Completed || found.phase is Quarantined || found.phase is Blocked)
        },
        forall|i: int|
            #![trigger rows[i]]
            0 <= i < rows.len() && rows[i].transaction_id == id && !(rows[i].phase is Completed
                || rows[i].phase is Quarantined || rows[i].phase is Blocked) ==> (first_in_flight(
                rows,
                id,
            ) matches Some(found) && found.epoch <= rows[i].epoch),
    decreases rows.len(),
{
    if rows.len() > 0 {
        let shorter = rows.drop_last();
        let n = rows.len() - 1;
        law_the_lowest_epoch_in_flight_is_named(shorter, id);
        assert(rows[n] == rows.last());
        if first_in_flight(shorter, id) is Some {
            let k = choose|k: int|
                0 <= k < shorter.len() && shorter[k] == first_in_flight(shorter, id)->0;
            assert(rows[k] == shorter[k]);
        }
        assert forall|i: int|
            #![trigger rows[i]]
            0 <= i < rows.len() && rows[i].transaction_id == id && !(rows[i].phase is Completed || rows[i].phase is Quarantined || rows[i].phase
            is Blocked) implies (first_in_flight(rows, id) matches Some(found) && found.epoch
            <= rows[i].epoch) by {
            if i < n {
                assert(shorter[i] == rows[i]);
            }
        }
    }
}

} // verus!
