//! Placement epochs: allocating them under their transaction, and moving each
//! through its states.

use vstd::prelude::*;

use crate::error::{Failure, SyncSqliteError};
use crate::filesystem_transaction::{
    carried_out, check_execution_generation, fence, gated,
    lemma_transaction_update_keeps_well_formed, no_such_transaction, require_execution_enabled,
    transaction_of,
};
use crate::identity::FileIdentity;
use crate::phase::{is_working_phase, EpochMoves};
use crate::rows::{
    at_most_one, first_where, in_order, lemma_filter_multiset_next, lemma_first_where_at,
    lemma_first_where_none, lemma_insert_in_order, lemma_set_where_at, listed_in_order, set_where,
    views,
};
use crate::text::{decimal, decimal_text, join, join3, str_eq};
use crate::transaction_rows::{
    is_epoch, is_epoch_of, is_transaction, opt_str, opt_text, EpochRecord, EpochRow, EpochUpdate,
    GenerationId, Journal, NewEpoch, TransactionRow, TransactionStore,
};
use crate::vocabulary::EpochState;

verus! {

/// That epoch of that transaction.
pub open spec fn epoch_of(rows: Seq<EpochRow>, id: Seq<char>, epoch: int) -> Option<EpochRow> {
    first_where(rows, is_epoch(id, epoch))
}

/// How an epoch is named in messages.
pub open spec fn shown_epoch(id: Seq<char>, epoch: int) -> Seq<char> {
    "epoch "@ + id + "/"@ + decimal(epoch)
}

fn show_epoch(id: &str, epoch: i64) -> (shown: String)
    ensures
        shown@ == shown_epoch(id@, epoch as int),
{
    let head = join3("epoch ", id, "/");
    join(head.as_str(), decimal_text(epoch).as_str())
}

/// An epoch as it is allocated.
pub open spec fn allocated(new: NewEpoch, now: int) -> EpochRow {
    EpochRow {
        transaction_id: new.transaction_id@,
        epoch: new.epoch as int,
        plan_revision: new.plan_revision as int,
        target_path: new.target_path@,
        placement_role: new.placement_role,
        phase: EpochState::Allocated,
        displaced_generation_id: None,
        target_generation: new.target_generation@,
        parent_directory_identity: *new.parent_directory_identity,
        displaced_snapshot: None,
        stage_path: None,
        preimage_path: None,
        backup_path: None,
        staged_identity: None,
        displaced_identity: None,
        capability_snapshot: new.capability_snapshot@,
        durability_level: new.durability_level,
        classification_result: None,
        captured_change_hash: None,
        unresolved_block_reason: None,
        created_at: now,
        updated_at: now,
    }
}

fn allocated_record(new: &NewEpoch, now_unix_nanos: i64) -> (record: EpochRecord)
    ensures
        record@ == allocated(*new, now_unix_nanos as int),
{
    EpochRecord {
        transaction_id: new.transaction_id.to_owned(),
        epoch: new.epoch,
        plan_revision: new.plan_revision,
        target_path: new.target_path.to_owned(),
        placement_role: new.placement_role,
        phase: EpochState::Allocated,
        displaced_generation_id: None,
        target_generation: vstd::slice::slice_to_vec(new.target_generation),
        parent_directory_identity: *new.parent_directory_identity,
        displaced_snapshot: None,
        stage_path: None,
        preimage_path: None,
        backup_path: None,
        staged_identity: None,
        displaced_identity: None,
        capability_snapshot: vstd::slice::slice_to_vec(new.capability_snapshot),
        durability_level: new.durability_level,
        classification_result: None,
        captured_change_hash: None,
        unresolved_block_reason: None,
        created_at_unix_nanos: now_unix_nanos,
        updated_at_unix_nanos: now_unix_nanos,
    }
}

impl TransactionStore {
    /// Where that epoch of that transaction stands.
    pub fn epoch_position(&self, id: &str, epoch: i64) -> (found: Option<usize>)
        ensures
            match found {
                Some(i) => {
                    &&& i < self.epochs@.len()
                    &&& self@.epochs[i as int].transaction_id == id@
                    &&& self@.epochs[i as int].epoch == epoch
                    &&& epoch_of(self@.epochs, id@, epoch as int) == Some(self@.epochs[i as int])
                },
                None => {
                    &&& epoch_of(self@.epochs, id@, epoch as int) is None
                    &&& forall|j: int|
                        0 <= j < self@.epochs.len() ==> !is_epoch(id@, epoch as int)(
                            #[trigger] self@.epochs[j],
                        )
                },
            },
    {
        let ghost rows = self@.epochs;
        let ghost pred = is_epoch(id@, epoch as int);
        let mut i: usize = 0;
        while i < self.epochs.len()
            invariant
                i <= self.epochs@.len(),
                rows == self@.epochs,
                pred == is_epoch(id@, epoch as int),
                forall|j: int| 0 <= j < i ==> !pred(#[trigger] rows[j]),
            decreases self.epochs@.len() - i,
        {
            assert(rows[i as int] == self.epochs@[i as int]@);
            if self.epochs[i].epoch == epoch && str_eq(self.epochs[i].transaction_id.as_str(), id) {
                proof {
                    lemma_first_where_at(rows, pred, i as int);
                }
                return Some(i);
            }
            i += 1;
        }
        proof {
            lemma_first_where_none(rows, pred);
        }
        None
    }
}

/// Why a transaction may receive no new epoch, if it may not.
pub open spec fn allocation_refusal(rows: Seq<TransactionRow>, id: Seq<char>) -> Option<Failure> {
    match transaction_of(rows, id) {
        None => Some(no_such_transaction(id)),
        Some(row) => if is_working_phase(row.phase) {
            None
        } else {
            Some(
                Failure::InvalidInput(
                    "filesystem transaction "@ + id
                        + ": cannot allocate a new epoch while the transaction is "@
                        + row.phase.stored_name()
                        + " -- only a transaction at planning or committing may receive a new placement epoch; once Completed, startup recovery's list_incomplete_transactions() never looks at this transaction again, so an epoch inserted afterwards would be permanently invisible to it, and async_preservation/blocked are not working states a new placement belongs to either"@,
                ),
            )
        },
    }
}

/// The rows with a transaction's epoch watermark raised.
pub open spec fn raised(rows: Seq<TransactionRow>, id: Seq<char>, by: int) -> Seq<TransactionRow> {
    set_where(
        rows,
        is_transaction(id),
        |row: TransactionRow| TransactionRow { epoch_watermark: row.epoch_watermark + by, ..row },
    )
}

/// What raising the watermark for new epochs does.
pub open spec fn watermark_bump(journal: Journal, id: Seq<char>, by: int) -> Result<
    Journal,
    Failure,
> {
    match allocation_refusal(journal.transactions, id) {
        Some(failure) => Err(failure),
        None => Ok(Journal { transactions: raised(journal.transactions, id, by), ..journal }),
    }
}

/// The watermark of that transaction can be raised by that much.
pub open spec fn can_raise(rows: Seq<TransactionRow>, id: Seq<char>, by: int) -> bool {
    transaction_of(rows, id) matches Some(row) ==> i64::MIN <= row.epoch_watermark + by <= i64::MAX
}

fn check_allocation(store: &TransactionStore, transaction_id: &str) -> (result: Result<
    usize,
    SyncSqliteError,
>)
    ensures
        match result {
            Ok(i) => {
                &&& allocation_refusal(store@.transactions, transaction_id@) is None
                &&& i < store.transactions@.len()
                &&& store@.transactions[i as int].transaction_id == transaction_id@
                &&& transaction_of(store@.transactions, transaction_id@) == Some(
                    store@.transactions[i as int],
                )
            },
            Err(error) => allocation_refusal(store@.transactions, transaction_id@) == Some(error@),
        },
{
    match store.position(transaction_id) {
        None => Err(SyncSqliteError::NotFound(join("filesystem transaction ", transaction_id))),
        Some(i) => {
            assert(store@.transactions[i as int] == store.transactions@[i as int]@);
            let phase = store.transactions[i].phase;
            if phase.may_receive_new_epochs() {
                Ok(i)
            } else {
                let head = join3(
                    "filesystem transaction ",
                    transaction_id,
                    ": cannot allocate a new epoch while the transaction is ",
                );
                Err(
                    SyncSqliteError::InvalidInput(
                        join3(
                            head.as_str(),
                            phase.as_db_str(),
                            " -- only a transaction at planning or committing may receive a new placement epoch; once Completed, startup recovery's list_incomplete_transactions() never looks at this transaction again, so an epoch inserted afterwards would be permanently invisible to it, and async_preservation/blocked are not working states a new placement belongs to either",
                        ),
                    ),
                )
            }
        },
    }
}

proof fn lemma_raised(before: Journal, after: Seq<TransactionRow>, i: int, by: int)
    requires
        before.well_formed(),
        0 <= i < before.transactions.len(),
        after =~= before.transactions.update(
            i,
            TransactionRow {
                epoch_watermark: before.transactions[i].epoch_watermark + by,
                ..before.transactions[i]
            },
        ),
    ensures
        after == raised(before.transactions, before.transactions[i].transaction_id, by),
        (Journal { transactions: after, ..before }).well_formed(),
{
    let rows = before.transactions;
    let id = rows[i].transaction_id;
    let f = |row: TransactionRow| TransactionRow { epoch_watermark: row.epoch_watermark + by, ..row };
    assert forall|a: int, b: int|
        #![trigger rows[a], rows[b]]
        0 <= a < rows.len() && 0 <= b < rows.len() && is_transaction(id)(rows[a])
            && is_transaction(id)(rows[b]) implies a == b by {
        if a < b {
            assert(rows[a].transaction_id != rows[b].transaction_id);
        } else if b < a {
            assert(rows[b].transaction_id != rows[a].transaction_id);
        }
    }
    lemma_set_where_at(rows, is_transaction(id), f, i);
    lemma_transaction_update_keeps_well_formed(before, i, f(rows[i]));
}

/// Raises a transaction's epoch watermark for epochs about to be allocated.
/// Only a transaction at a working phase may receive any.
pub fn bump_epoch_watermark_if_not_completed(
    store: &mut TransactionStore,
    transaction_id: &str,
    by: i64,
) -> (result: Result<(), SyncSqliteError>)
    requires
        old(store)@.well_formed(),
        can_raise(old(store)@.transactions, transaction_id@, by as int),
    ensures
        final(store)@.well_formed(),
        carried_out(
            watermark_bump(old(store)@, transaction_id@, by as int),
            old(store)@,
            final(store)@,
            result,
        ),
{
    match check_allocation(store, transaction_id) {
        Ok(i) => {
            assert(store@.transactions[i as int] == store.transactions@[i as int]@);
            let watermark: i64 = store.transactions[i].epoch_watermark;
            store.transactions[i].epoch_watermark = watermark + by;
            proof {
                lemma_raised(old(store)@, store@.transactions, i as int, by as int);
                assert(store@ == (Journal { transactions: store@.transactions, ..old(store)@ }));
            }
            Ok(())
        },
        Err(error) => Err(error),
    }
}

/// Why an epoch row may not be inserted, if it may not.
pub open spec fn insertion_refusal(journal: Journal, new: NewEpoch) -> Option<Failure> {
    match transaction_of(journal.transactions, new.transaction_id@) {
        None => Some(no_such_transaction(new.transaction_id@)),
        Some(row) => if row.plan_revision != new.plan_revision {
            Some(
                Failure::TransitionRaced {
                    subject: "filesystem transaction "@ + new.transaction_id@
                        + " epoch allocation"@,
                    expected_state: "plan_revision "@ + decimal(new.plan_revision as int),
                    current_state: "plan_revision "@ + decimal(row.plan_revision),
                },
            )
        } else if epoch_of(journal.epochs, new.transaction_id@, new.epoch as int) is Some {
            Some(
                Failure::DuplicateKey(
                    "filesystem_transaction_epochs "@ + shown_epoch(
                        new.transaction_id@,
                        new.epoch as int,
                    ),
                ),
            )
        } else {
            None
        },
    }
}

/// What inserting an epoch row does.
pub open spec fn row_insertion(journal: Journal, new: NewEpoch, now: int) -> Result<
    Journal,
    Failure,
> {
    match insertion_refusal(journal, new) {
        Some(failure) => Err(failure),
        None => Ok(Journal { epochs: journal.epochs.push(allocated(new, now)), ..journal }),
    }
}

fn check_insertion(store: &TransactionStore, new: &NewEpoch) -> (result: Result<(), SyncSqliteError>)
    ensures
        match result {
            Ok(()) => insertion_refusal(store@, *new) is None,
            Err(error) => insertion_refusal(store@, *new) == Some(error@),
        },
{
    match store.position(new.transaction_id) {
        None => Err(SyncSqliteError::NotFound(join("filesystem transaction ", new.transaction_id))),
        Some(i) => {
            assert(store@.transactions[i as int] == store.transactions@[i as int]@);
            let current: i64 = store.transactions[i].plan_revision;
            if current != new.plan_revision {
                return Err(
                    SyncSqliteError::TransitionRaced {
                        subject: join3(
                            "filesystem transaction ",
                            new.transaction_id,
                            " epoch allocation",
                        ),
                        expected_state: join(
                            "plan_revision ",
                            decimal_text(new.plan_revision).as_str(),
                        ),
                        current_state: join("plan_revision ", decimal_text(current).as_str()),
                    },
                );
            }
            match store.epoch_position(new.transaction_id, new.epoch) {
                Some(_) => Err(
                    SyncSqliteError::DuplicateKey(
                        join(
                            "filesystem_transaction_epochs ",
                            show_epoch(new.transaction_id, new.epoch).as_str(),
                        ),
                    ),
                ),
                None => Ok(()),
            }
        },
    }
}

/// Appending an epoch whose key is free keeps the journal well formed.
proof fn lemma_epoch_push_keeps_well_formed(journal: Journal, row: EpochRow)
    requires
        journal.well_formed(),
        epoch_of(journal.epochs, row.transaction_id, row.epoch) is None,
    ensures
        (Journal { epochs: journal.epochs.push(row), ..journal }).well_formed(),
{
    let pred = is_epoch(row.transaction_id, row.epoch);
    crate::rows::lemma_first_where(journal.epochs, pred);
    let grown = journal.epochs.push(row);
    assert forall|a: int, b: int|
        #![trigger grown[a], grown[b]]
        0 <= a < b < grown.len() implies !(grown[a].transaction_id == grown[b].transaction_id
        && grown[a].epoch == grown[b].epoch) by {
        if b == journal.epochs.len() {
            assert(!pred(journal.epochs[a]));
        } else {
            assert(grown[a] == journal.epochs[a] && grown[b] == journal.epochs[b]);
        }
    }
}

/// The record was inserted as planned.
pub open spec fn epoch_inserted(
    plan: Result<Journal, Failure>,
    row: EpochRow,
    before: Journal,
    after: Journal,
    result: Result<EpochRecord, SyncSqliteError>,
) -> bool {
    match plan {
        Ok(journal) => result is Ok && result->Ok_0@ == row && after == journal,
        Err(failure) => result is Err && result->Err_0@ == failure && after == before,
    }
}

/// Inserts an epoch row under a transaction that is still at the epoch's plan
/// revision. The caller raises the watermark.
pub fn insert_epoch_row_unchecked(
    store: &mut TransactionStore,
    new: &NewEpoch,
    now_unix_nanos: i64,
) -> (result: Result<EpochRecord, SyncSqliteError>)
    requires
        old(store)@.well_formed(),
    ensures
        final(store)@.well_formed(),
        epoch_inserted(
            row_insertion(old(store)@, *new, now_unix_nanos as int),
            allocated(*new, now_unix_nanos as int),
            old(store)@,
            final(store)@,
            result,
        ),
{
    match check_insertion(store, new) {
        Ok(()) => {},
        Err(error) => {
            return Err(error);
        },
    }
    let record = allocated_record(new, now_unix_nanos);
    let copy = record.copy();
    store.epochs.push(record);
    proof {
        assert(store@.epochs =~= old(store)@.epochs.push(copy@));
        lemma_epoch_push_keeps_well_formed(old(store)@, copy@);
    }
    Ok(copy)
}

/// What allocating an epoch does: the fence must hold, the transaction must be
/// at a working phase and at the epoch's plan revision; then the watermark and
/// the row land together.
pub open spec fn epoch_allocation(
    journal: Journal,
    new: NewEpoch,
    expected_generation: int,
    now: int,
) -> Result<Journal, Failure> {
    match fence(journal.transactions, new.transaction_id@, expected_generation) {
        Err(failure) => Err(failure),
        Ok(()) => match allocation_refusal(journal.transactions, new.transaction_id@) {
            Some(failure) => Err(failure),
            None => match insertion_refusal(journal, new) {
                Some(failure) => Err(failure),
                None => Ok(
                    Journal {
                        transactions: raised(journal.transactions, new.transaction_id@, 1),
                        epochs: journal.epochs.push(allocated(new, now)),
                        ..journal
                    },
                ),
            },
        },
    }
}

/// Allocates an epoch under its transaction, whether or not execution is enabled.
pub fn insert_epoch_unchecked(
    store: &mut TransactionStore,
    new: &NewEpoch,
    expected_execution_generation: i64,
    now_unix_nanos: i64,
) -> (result: Result<EpochRecord, SyncSqliteError>)
    requires
        old(store)@.well_formed(),
        can_raise(old(store)@.transactions, new.transaction_id@, 1),
    ensures
        final(store)@.well_formed(),
        epoch_inserted(
            epoch_allocation(
                old(store)@,
                *new,
                expected_execution_generation as int,
                now_unix_nanos as int,
            ),
            allocated(*new, now_unix_nanos as int),
            old(store)@,
            final(store)@,
            result,
        ),
{
    match check_execution_generation(store, new.transaction_id, expected_execution_generation) {
        Ok(()) => {},
        Err(error) => {
            return Err(error);
        },
    }
    let i: usize = match check_allocation(store, new.transaction_id) {
        Ok(i) => i,
        Err(error) => {
            return Err(error);
        },
    };
    match check_insertion(store, new) {
        Ok(()) => {},
        Err(error) => {
            return Err(error);
        },
    }
    assert(store@.transactions[i as int] == store.transactions@[i as int]@);
    let watermark: i64 = store.transactions[i].epoch_watermark;
    store.transactions[i].epoch_watermark = watermark + 1;
    proof {
        lemma_raised(old(store)@, store@.transactions, i as int, 1);
        assert(store@ == (Journal { transactions: store@.transactions, ..old(store)@ }));
    }
    let ghost raised_journal = store@;
    let record = allocated_record(new, now_unix_nanos);
    let copy = record.copy();
    store.epochs.push(record);
    proof {
        assert(store@.epochs =~= old(store)@.epochs.push(copy@));
        lemma_epoch_push_keeps_well_formed(raised_journal, copy@);
    }
    Ok(copy)
}

/// Allocates an epoch under its transaction. Gated.
pub fn insert_epoch(
    store: &mut TransactionStore,
    new: &NewEpoch,
    expected_execution_generation: i64,
    now_unix_nanos: i64,
) -> (result: Result<EpochRecord, SyncSqliteError>)
    requires
        old(store)@.well_formed(),
        can_raise(old(store)@.transactions, new.transaction_id@, 1),
    ensures
        final(store)@.well_formed(),
        epoch_inserted(
            gated(
                epoch_allocation(
                    old(store)@,
                    *new,
                    expected_execution_generation as int,
                    now_unix_nanos as int,
                ),
            ),
            allocated(*new, now_unix_nanos as int),
            old(store)@,
            final(store)@,
            result,
        ),
{
    match require_execution_enabled() {
        Ok(()) => insert_epoch_unchecked(store, new, expected_execution_generation, now_unix_nanos),
        Err(error) => Err(error),
    }
}

/// That epoch of that transaction, if there is one.
pub fn lookup_epoch(store: &TransactionStore, transaction_id: &str, epoch: i64) -> (found: Option<
    EpochRecord,
>)
    ensures
        match found {
            Some(record) => epoch_of(store@.epochs, transaction_id@, epoch as int) == Some(record@),
            None => epoch_of(store@.epochs, transaction_id@, epoch as int) is None,
        },
{
    match store.epoch_position(transaction_id, epoch) {
        Some(i) => {
            assert(store@.epochs[i as int] == store.epochs@[i as int]@);
            Some(store.epochs[i].copy())
        },
        None => None,
    }
}

/// Epochs are listed by number.
pub open spec fn by_epoch() -> spec_fn(EpochRow, EpochRow) -> bool {
    |a: EpochRow, b: EpochRow| a.epoch < b.epoch
}

/// Every epoch of a transaction, by number.
pub fn list_epochs_for_transaction(store: &TransactionStore, transaction_id: &str) -> (listed: Vec<
    EpochRecord,
>)
    ensures
        listed_in_order(views(listed@), store@.epochs, is_epoch_of(transaction_id@), by_epoch()),
{
    let ghost rows = store@.epochs;
    let ghost pred = is_epoch_of(transaction_id@);
    let ghost before = by_epoch();
    let mut listed: Vec<EpochRecord> = Vec::new();
    let mut i: usize = 0;
    assert(rows.take(0).filter(pred) =~= Seq::<EpochRow>::empty());
    assert(views(listed@) =~= Seq::<EpochRow>::empty());
    while i < store.epochs.len()
        invariant
            i <= store.epochs@.len(),
            rows == store@.epochs,
            pred == is_epoch_of(transaction_id@),
            before == by_epoch(),
            in_order(views(listed@), before),
            views(listed@).to_multiset() == rows.take(i as int).filter(pred).to_multiset(),
        decreases store.epochs@.len() - i,
    {
        let row = &store.epochs[i];
        assert(rows[i as int] == row@);
        proof {
            lemma_filter_multiset_next(rows, pred, i as int);
        }
        if str_eq(row.transaction_id.as_str(), transaction_id) {
            let ghost sofar = views(listed@);
            let mut at: usize = 0;
            while at < listed.len() && row.epoch >= listed[at].epoch
                invariant
                    at <= listed@.len(),
                    sofar == views(listed@),
                    before == by_epoch(),
                    forall|j: int| 0 <= j < at ==> !before(row@, #[trigger] sofar[j]),
                decreases listed@.len() - at,
            {
                assert(sofar[at as int] == listed@[at as int]@);
                at += 1;
            }
            proof {
                if at < listed@.len() {
                    assert(sofar[at as int] == listed@[at as int]@);
                    assert(before(row@, sofar[at as int]));
                }
                assert forall|j: int| at <= j < sofar.len() implies !before(
                    #[trigger] sofar[j],
                    row@,
                ) by {
                    if before(sofar[j], row@) {
                        assert(before(sofar[j], sofar[at as int]));
                    }
                }
                lemma_insert_in_order(sofar, before, at as int, row@);
            }
            let copy = row.copy();
            listed.insert(at, copy);
            assert(views(listed@) =~= sofar.insert(at as int, row@));
        }
        i += 1;
    }
    assert(rows.take(rows.len() as int) =~= rows);
    listed
}

/// A new value where there is one, else the old.
pub open spec fn or_kept<T>(new: Option<T>, kept: Option<T>) -> Option<T> {
    match new {
        Some(value) => Some(value),
        None => kept,
    }
}

/// A row after a transition that learned what `update` holds.
pub open spec fn transitioned(row: EpochRow, to: EpochState, update: EpochUpdate, now: int) -> EpochRow {
    EpochRow {
        phase: to,
        displaced_generation_id: or_kept(
            match update.displaced_generation_id {
                Some(id) => Some(id.0@),
                None => None,
            },
            row.displaced_generation_id,
        ),
        displaced_snapshot: or_kept(
            match update.displaced_snapshot {
                Some(bytes) => Some(bytes@),
                None => None,
            },
            row.displaced_snapshot,
        ),
        stage_path: or_kept(opt_str(update.stage_path), row.stage_path),
        preimage_path: or_kept(opt_str(update.preimage_path), row.preimage_path),
        backup_path: or_kept(opt_str(update.backup_path), row.backup_path),
        staged_identity: or_kept(opt_identity(update.staged_identity), row.staged_identity),
        displaced_identity: or_kept(opt_identity(update.displaced_identity), row.displaced_identity),
        classification_result: or_kept(
            opt_str(update.classification_result),
            row.classification_result,
        ),
        captured_change_hash: or_kept(
            match update.captured_change_hash {
                Some(hash) => Some(*hash),
                None => None,
            },
            row.captured_change_hash,
        ),
        unresolved_block_reason: or_kept(
            opt_str(update.unresolved_block_reason),
            row.unresolved_block_reason,
        ),
        updated_at: now,
        ..row
    }
}

/// The identity behind an optional reference.
pub open spec fn opt_identity(identity: Option<&FileIdentity>) -> Option<FileIdentity> {
    match identity {
        Some(inner) => Some(*inner),
        None => None,
    }
}

/// What deciding on an epoch's transition answers: the state it was seen at, or
/// why it may not move.
pub open spec fn transition_decision(
    journal: Journal,
    id: Seq<char>,
    epoch: int,
    expected_generation: int,
    to: EpochState,
    moves: EpochMoves,
) -> Result<EpochState, Failure> {
    match fence(journal.transactions, id, expected_generation) {
        Err(failure) => Err(failure),
        Ok(()) => match epoch_of(journal.epochs, id, epoch) {
            None => Err(Failure::NotFound(shown_epoch(id, epoch))),
            Some(row) => if !moves.lists(row.phase, to) {
                Err(
                    Failure::InvalidInput(
                        shown_epoch(id, epoch) + ": "@ + row.phase.shown_name() + " -> "@
                            + to.shown_name() + " is not a legal transition"@,
                    ),
                )
            } else {
                Ok(row.phase)
            },
        },
    }
}

/// Decides on an epoch's transition: the fence must hold and the move must be
/// one the placement domain lists.
pub fn decide_transition(
    store: &TransactionStore,
    transaction_id: &str,
    epoch: i64,
    expected_execution_generation: i64,
    to: EpochState,
    moves: &EpochMoves,
) -> (result: Result<EpochState, SyncSqliteError>)
    ensures
        match result {
            Ok(seen) => transition_decision(
                store@,
                transaction_id@,
                epoch as int,
                expected_execution_generation as int,
                to,
                *moves,
            ) == Ok::<_, Failure>(seen),
            Err(error) => transition_decision(
                store@,
                transaction_id@,
                epoch as int,
                expected_execution_generation as int,
                to,
                *moves,
            ) == Err::<EpochState, _>(error@),
        },
{
    match check_execution_generation(store, transaction_id, expected_execution_generation) {
        Ok(()) => {},
        Err(error) => {
            return Err(error);
        },
    }
    match store.epoch_position(transaction_id, epoch) {
        None => Err(SyncSqliteError::NotFound(show_epoch(transaction_id, epoch))),
        Some(i) => {
            assert(store@.epochs[i as int] == store.epochs@[i as int]@);
            let seen = store.epochs[i].phase;
            if !moves.allows(seen, to) {
                let subject = show_epoch(transaction_id, epoch);
                let head = join3(subject.as_str(), ": ", seen.name());
                let arrow = join3(head.as_str(), " -> ", to.name());
                return Err(
                    SyncSqliteError::InvalidInput(
                        join(arrow.as_str(), " is not a legal transition"),
                    ),
                );
            }
            Ok(seen)
        },
    }
}

/// What writing a decided transition does: it lands only on an epoch still at
/// the state the decision saw, under a fence that still holds.
pub open spec fn transition_write(
    journal: Journal,
    id: Seq<char>,
    epoch: int,
    expected_generation: int,
    seen: EpochState,
    to: EpochState,
    update: EpochUpdate,
    now: int,
) -> Result<Journal, Failure> {
    match fence(journal.transactions, id, expected_generation) {
        Err(failure) => Err(failure),
        Ok(()) => match epoch_of(journal.epochs, id, epoch) {
            None => Err(Failure::NotFound(shown_epoch(id, epoch))),
            Some(row) => if row.phase != seen {
                Err(
                    Failure::TransitionRaced {
                        subject: shown_epoch(id, epoch),
                        expected_state: seen.stored_name(),
                        current_state: row.phase.stored_name(),
                    },
                )
            } else {
                Ok(
                    Journal {
                        epochs: set_where(
                            journal.epochs,
                            is_epoch(id, epoch),
                            |row: EpochRow| transitioned(row, to, update, now),
                        ),
                        ..journal
                    },
                )
            },
        },
    }
}

fn kept_or_owned(new: Option<&str>, kept: Option<String>) -> (value: Option<String>)
    ensures
        opt_text(value) == or_kept(
            opt_str(new),
            opt_text(kept),
        ),
{
    match new {
        Some(text) => Some(text.to_owned()),
        None => kept,
    }
}

fn transition_record(record: EpochRecord, to: EpochState, update: &EpochUpdate, now: i64) -> (moved:
    EpochRecord)
    ensures
        moved@ == transitioned(record@, to, *update, now as int),
{
    EpochRecord {
        transaction_id: record.transaction_id,
        epoch: record.epoch,
        plan_revision: record.plan_revision,
        target_path: record.target_path,
        placement_role: record.placement_role,
        phase: to,
        displaced_generation_id: match update.displaced_generation_id {
            Some(id) => Some(GenerationId(id.0.clone())),
            None => record.displaced_generation_id,
        },
        target_generation: record.target_generation,
        parent_directory_identity: record.parent_directory_identity,
        displaced_snapshot: match update.displaced_snapshot {
            Some(bytes) => Some(vstd::slice::slice_to_vec(bytes)),
            None => record.displaced_snapshot,
        },
        stage_path: kept_or_owned(update.stage_path, record.stage_path),
        preimage_path: kept_or_owned(update.preimage_path, record.preimage_path),
        backup_path: kept_or_owned(update.backup_path, record.backup_path),
        staged_identity: match update.staged_identity {
            Some(identity) => Some(*identity),
            None => record.staged_identity,
        },
        displaced_identity: match update.displaced_identity {
            Some(identity) => Some(*identity),
            None => record.displaced_identity,
        },
        capability_snapshot: record.capability_snapshot,
        durability_level: record.durability_level,
        classification_result: kept_or_owned(
            update.classification_result,
            record.classification_result,
        ),
        captured_change_hash: match update.captured_change_hash {
            Some(hash) => Some(*hash),
            None => record.captured_change_hash,
        },
        unresolved_block_reason: kept_or_owned(
            update.unresolved_block_reason,
            record.unresolved_block_reason,
        ),
        created_at_unix_nanos: record.created_at_unix_nanos,
        updated_at_unix_nanos: now,
    }
}

/// The epoch was moved as planned, and the answer is its row as it now is.
pub open spec fn epoch_moved(
    plan: Result<Journal, Failure>,
    id: Seq<char>,
    epoch: int,
    before: Journal,
    after: Journal,
    result: Result<EpochRecord, SyncSqliteError>,
) -> bool {
    match plan {
        Ok(journal) => {
            &&& result is Ok
            &&& after == journal
            &&& epoch_of(after.epochs, id, epoch) == Some(result->Ok_0@)
        },
        Err(failure) => result is Err && result->Err_0@ == failure && after == before,
    }
}

proof fn lemma_epoch_set(
    before: Journal,
    after: Journal,
    i: int,
    f: spec_fn(EpochRow) -> EpochRow,
)
    requires
        before.well_formed(),
        0 <= i < before.epochs.len(),
        f(before.epochs[i]).transaction_id == before.epochs[i].transaction_id,
        f(before.epochs[i]).epoch == before.epochs[i].epoch,
        after.epochs =~= before.epochs.update(i, f(before.epochs[i])),
        after.transactions =~= before.transactions,
        after.reservations =~= before.reservations,
    ensures
        after.well_formed(),
        after == (Journal {
            epochs: set_where(
                before.epochs,
                is_epoch(before.epochs[i].transaction_id, before.epochs[i].epoch),
                f,
            ),
            ..before
        }),
        epoch_of(after.epochs, before.epochs[i].transaction_id, before.epochs[i].epoch) == Some(
            f(before.epochs[i]),
        ),
{
    let rows = before.epochs;
    let pred = is_epoch(rows[i].transaction_id, rows[i].epoch);
    assert forall|a: int, b: int|
        #![trigger rows[a], rows[b]]
        0 <= a < rows.len() && 0 <= b < rows.len() && pred(rows[a]) && pred(rows[b]) implies a
        == b by {
        if a < b {
            assert(!(rows[a].transaction_id == rows[b].transaction_id && rows[a].epoch
                == rows[b].epoch));
        } else if b < a {
            assert(!(rows[b].transaction_id == rows[a].transaction_id && rows[b].epoch
                == rows[a].epoch));
        }
    }
    assert(at_most_one(rows, pred));
    lemma_set_where_at(rows, pred, f, i);
    assert forall|j: int| 0 <= j < i implies !pred(#[trigger] after.epochs[j]) by {
        assert(after.epochs[j] == rows[j]);
        assert(rows[i] == rows[i]);
    }
    lemma_first_where_at(after.epochs, pred, i);
    assert forall|a: int, b: int|
        #![trigger after.epochs[a], after.epochs[b]]
        0 <= a < b < after.epochs.len() implies !(after.epochs[a].transaction_id
        == after.epochs[b].transaction_id && after.epochs[a].epoch == after.epochs[b].epoch) by {
        assert(!(rows[a].transaction_id == rows[b].transaction_id && rows[a].epoch
            == rows[b].epoch));
    }
}

/// Writes a transition decided on the state `seen`, re-checking fence and state
/// against the rows as they are now.
pub fn write_transition(
    store: &mut TransactionStore,
    transaction_id: &str,
    epoch: i64,
    expected_execution_generation: i64,
    seen: EpochState,
    to: EpochState,
    update: &EpochUpdate,
    now_unix_nanos: i64,
) -> (result: Result<EpochRecord, SyncSqliteError>)
    requires
        old(store)@.well_formed(),
    ensures
        final(store)@.well_formed(),
        epoch_moved(
            transition_write(
                old(store)@,
                transaction_id@,
                epoch as int,
                expected_execution_generation as int,
                seen,
                to,
                *update,
                now_unix_nanos as int,
            ),
            transaction_id@,
            epoch as int,
            old(store)@,
            final(store)@,
            result,
        ),
{
    match check_execution_generation(store, transaction_id, expected_execution_generation) {
        Ok(()) => {},
        Err(error) => {
            return Err(error);
        },
    }
    match store.epoch_position(transaction_id, epoch) {
        None => Err(SyncSqliteError::NotFound(show_epoch(transaction_id, epoch))),
        Some(i) => {
            assert(store@.epochs[i as int] == store.epochs@[i as int]@);
            let current = store.epochs[i].phase;
            if current != seen {
                return Err(
                    SyncSqliteError::TransitionRaced {
                        subject: show_epoch(transaction_id, epoch),
                        expected_state: seen.db_str().to_owned(),
                        current_state: current.db_str().to_owned(),
                    },
                );
            }
            let ghost f = |row: EpochRow| transitioned(row, to, *update, now_unix_nanos as int);
            let moved = transition_record(store.epochs[i].copy(), to, update, now_unix_nanos);
            let copy = moved.copy();
            store.epochs.set(i, moved);
            proof {
                assert(store@.epochs =~= old(store)@.epochs.update(
                    i as int,
                    f(old(store)@.epochs[i as int]),
                ));
                lemma_epoch_set(old(store)@, store@, i as int, f);
            }
            Ok(copy)
        },
    }
}

/// What moving an epoch does when nothing comes between deciding and writing.
pub open spec fn transition(
    journal: Journal,
    id: Seq<char>,
    epoch: int,
    expected_generation: int,
    to: EpochState,
    update: EpochUpdate,
    now: int,
    moves: EpochMoves,
) -> Result<Journal, Failure> {
    match transition_decision(journal, id, epoch, expected_generation, to, moves) {
        Ok(seen) => transition_write(
            journal,
            id,
            epoch,
            expected_generation,
            seen,
            to,
            update,
            now,
        ),
        Err(failure) => Err(failure),
    }
}

/// Moves an epoch to another state and records what it learned, whether or
/// not execution is enabled.
pub fn transition_epoch_unchecked(
    store: &mut TransactionStore,
    transaction_id: &str,
    epoch: i64,
    expected_execution_generation: i64,
    to: EpochState,
    update: &EpochUpdate,
    now_unix_nanos: i64,
    moves: &EpochMoves,
) -> (result: Result<EpochRecord, SyncSqliteError>)
    requires
        old(store)@.well_formed(),
    ensures
        final(store)@.well_formed(),
        epoch_moved(
            transition(
                old(store)@,
                transaction_id@,
                epoch as int,
                expected_execution_generation as int,
                to,
                *update,
                now_unix_nanos as int,
                *moves,
            ),
            transaction_id@,
            epoch as int,
            old(store)@,
            final(store)@,
            result,
        ),
{
    match decide_transition(
        store,
        transaction_id,
        epoch,
        expected_execution_generation,
        to,
        moves,
    ) {
        Ok(seen) => write_transition(
            store,
            transaction_id,
            epoch,
            expected_execution_generation,
            seen,
            to,
            update,
            now_unix_nanos,
        ),
        Err(error) => Err(error),
    }
}

/// Moves an epoch to another state and records what it learned. Gated.
pub fn transition_epoch(
    store: &mut TransactionStore,
    transaction_id: &str,
    epoch: i64,
    expected_execution_generation: i64,
    to: EpochState,
    update: &EpochUpdate,
    now_unix_nanos: i64,
    moves: &EpochMoves,
) -> (result: Result<EpochRecord, SyncSqliteError>)
    requires
        old(store)@.well_formed(),
    ensures
        final(store)@.well_formed(),
        epoch_moved(
            gated(
                transition(
                    old(store)@,
                    transaction_id@,
                    epoch as int,
                    expected_execution_generation as int,
                    to,
                    *update,
                    now_unix_nanos as int,
                    *moves,
                ),
            ),
            transaction_id@,
            epoch as int,
            old(store)@,
            final(store)@,
            result,
        ),
{
    match require_execution_enabled() {
        Ok(()) => transition_epoch_unchecked(
            store,
            transaction_id,
            epoch,
            expected_execution_generation,
            to,
            update,
            now_unix_nanos,
            moves,
        ),
        Err(error) => Err(error),
    }
}

} // verus!
