//! The transaction journal's statements: starting a transaction, fencing it by
//! its execution generation, and moving it through its phases.

use vstd::prelude::*;

use crate::error::{outcome, Failure, SyncSqliteError};
use crate::fresh_id::{is_id, new_id};
use crate::phase::{is_settled, legal_phase_move};
use crate::rows::{
    at_most_one, first_where, in_order, lemma_filter_multiset_next, lemma_first_where_at,
    lemma_first_where_none, lemma_insert_in_order, lemma_set_where_at, listed_in_order, set_where,
    views,
};
use crate::text::{
    decimal, decimal_text, join, join3, lemma_text_chain, lemma_text_order, str_eq, str_less,
    text_lt,
};
use crate::transaction_rows::{
    is_transaction, opt_str, EpochRow, FilesystemTransactionRecord, Journal,
    NewFilesystemTransaction, TransactionRow, TransactionStore,
};
use crate::vocabulary::TransactionPhase;

verus! {

/// Whether filesystem transactions may be executed at all.
pub const EXECUTION_ENABLED: bool = false;

/// What the execution gate answers.
pub open spec fn gate() -> Result<(), Failure> {
    if EXECUTION_ENABLED {
        Ok(())
    } else {
        Err(
            Failure::NotImplemented(
                "filesystem transaction execution (behind a disabled gate for this phase)"@,
            ),
        )
    }
}

/// Refuses while execution is disabled.
pub fn require_execution_enabled() -> (result: Result<(), SyncSqliteError>)
    ensures
        outcome(result) == gate(),
{
    if EXECUTION_ENABLED {
        Ok(())
    } else {
        Err(
            SyncSqliteError::NotImplemented(
                "filesystem transaction execution (behind a disabled gate for this phase)",
            ),
        )
    }
}

/// What an operation that needs execution enabled answers, given what it
/// answers when it is.
pub open spec fn gated<T>(ungated: Result<T, Failure>) -> Result<T, Failure> {
    match gate() {
        Ok(()) => ungated,
        Err(failure) => Err(failure),
    }
}

/// A statement answered and changed the journal as planned: on success the
/// journal is the planned one, on refusal it is untouched.
pub open spec fn carried_out(
    plan: Result<Journal, Failure>,
    before: Journal,
    after: Journal,
    result: Result<(), SyncSqliteError>,
) -> bool {
    match plan {
        Ok(journal) => result is Ok && after == journal,
        Err(failure) => result is Err && result->Err_0@ == failure && after == before,
    }
}

/// The failure for a transaction that is not in the journal.
pub open spec fn no_such_transaction(id: Seq<char>) -> Failure {
    Failure::NotFound("filesystem transaction "@ + id)
}

fn transaction_not_found(id: &str) -> (error: SyncSqliteError)
    ensures
        error@ == no_such_transaction(id@),
{
    SyncSqliteError::NotFound(join("filesystem transaction ", id))
}

/// The transaction of that id.
pub open spec fn transaction_of(rows: Seq<TransactionRow>, id: Seq<char>) -> Option<
    TransactionRow,
> {
    first_where(rows, is_transaction(id))
}

/// What checking a caller's execution generation answers.
pub open spec fn fence(rows: Seq<TransactionRow>, id: Seq<char>, expected: int) -> Result<
    (),
    Failure,
> {
    match transaction_of(rows, id) {
        None => Err(no_such_transaction(id)),
        Some(row) => if row.execution_generation != expected {
            Err(
                Failure::ExecutionGenerationFenced {
                    transaction_id: id,
                    expected,
                    current: row.execution_generation,
                },
            )
        } else {
            Ok(())
        },
    }
}

/// A transaction as it begins.
pub open spec fn begun(new: NewFilesystemTransaction, id: Seq<char>, now: int) -> TransactionRow {
    TransactionRow {
        transaction_id: id,
        group_id: new.group_id@,
        source_path: new.source_path@,
        kind: new.kind,
        cause: new.cause,
        trigger_change_hash: match new.trigger_change_hash {
            Some(hash) => Some(*hash),
            None => None,
        },
        desired_frontier_hash: new.desired_frontier_hash,
        plan_revision: 0,
        execution_generation: 0,
        epoch_watermark: 0,
        phase: TransactionPhase::Planning,
        blocked_reason: None,
        created_at: now,
        updated_at: now,
    }
}

impl TransactionStore {
    /// An empty journal.
    pub fn new() -> (store: Self)
        ensures
            store@ == (Journal {
                transactions: Seq::empty(),
                epochs: Seq::empty(),
                reservations: Seq::empty(),
            }),
            store@.well_formed(),
    {
        let store = TransactionStore {
            transactions: Vec::new(),
            epochs: Vec::new(),
            reservations: Vec::new(),
        };
        assert(store@.transactions =~= Seq::empty());
        assert(store@.epochs =~= Seq::empty());
        assert(store@.reservations =~= Seq::empty());
        store
    }

    /// Where the transaction of that id stands.
    pub fn position(&self, id: &str) -> (found: Option<usize>)
        ensures
            match found {
                Some(i) => {
                    &&& i < self.transactions@.len()
                    &&& self@.transactions[i as int].transaction_id == id@
                    &&& transaction_of(self@.transactions, id@) == Some(
                        self@.transactions[i as int],
                    )
                },
                None => {
                    &&& transaction_of(self@.transactions, id@) is None
                    &&& forall|j: int|
                        0 <= j < self@.transactions.len()
                            ==> (#[trigger] self@.transactions[j]).transaction_id != id@
                },
            },
    {
        let ghost rows = self@.transactions;
        let ghost pred = is_transaction(id@);
        let mut i: usize = 0;
        while i < self.transactions.len()
            invariant
                i <= self.transactions@.len(),
                rows == self@.transactions,
                pred == is_transaction(id@),
                forall|j: int| 0 <= j < i ==> !pred(#[trigger] rows[j]),
            decreases self.transactions@.len() - i,
        {
            assert(rows[i as int] == self.transactions@[i as int]@);
            if str_eq(self.transactions[i].transaction_id.as_str(), id) {
                proof {
                    lemma_first_where_at(rows, pred, i as int);
                }
                return Some(i);
            }
            i += 1;
        }
        proof {
            lemma_first_where_none(rows, pred);
            assert forall|j: int| 0 <= j < rows.len() implies (#[trigger] rows[j]).transaction_id
                != id@ by {
                assert(!pred(rows[j]));
            }
        }
        None
    }
}

/// Only one row has the id.
proof fn lemma_one_transaction(journal: Journal, id: Seq<char>)
    requires
        journal.well_formed(),
    ensures
        at_most_one(journal.transactions, is_transaction(id)),
{
    let rows = journal.transactions;
    assert forall|i: int, j: int|
        #![trigger rows[i], rows[j]]
        0 <= i < rows.len() && 0 <= j < rows.len() && is_transaction(id)(rows[i])
            && is_transaction(id)(rows[j]) implies i == j by {
        if i < j {
            assert(rows[i].transaction_id != rows[j].transaction_id);
        } else if j < i {
            assert(rows[j].transaction_id != rows[i].transaction_id);
        }
    }
}

/// Replacing a transaction by one with the same id keeps the journal well
/// formed.
pub proof fn lemma_transaction_update_keeps_well_formed(
    journal: Journal,
    i: int,
    row: TransactionRow,
)
    requires
        journal.well_formed(),
        0 <= i < journal.transactions.len(),
        row.transaction_id == journal.transactions[i].transaction_id,
    ensures
        (Journal { transactions: journal.transactions.update(i, row), ..journal }).well_formed(),
{
    let before = journal.transactions;
    let after = before.update(i, row);
    assert forall|a: int, b: int|
        #![trigger after[a], after[b]]
        0 <= a < b < after.len() implies after[a].transaction_id != after[b].transaction_id by {
        assert(before[a].transaction_id != before[b].transaction_id);
    }
}

/// What starting a transaction under a given id does.
pub open spec fn beginning(
    journal: Journal,
    new: NewFilesystemTransaction,
    id: Seq<char>,
    now: int,
) -> Result<Journal, Failure> {
    if transaction_of(journal.transactions, id) is Some {
        Err(Failure::DuplicateKey("filesystem_transactions.transaction_id "@ + id))
    } else {
        Ok(Journal { transactions: journal.transactions.push(begun(new, id, now)), ..journal })
    }
}

/// The transaction was started as planned, and the answer is its row.
pub open spec fn transaction_begun(
    plan: Result<Journal, Failure>,
    row: TransactionRow,
    before: Journal,
    after: Journal,
    result: Result<FilesystemTransactionRecord, SyncSqliteError>,
) -> bool {
    match plan {
        Ok(journal) => result is Ok && result->Ok_0@ == row && after == journal,
        Err(failure) => result is Err && result->Err_0@ == failure && after == before,
    }
}

/// Starts a transaction under a given id.
pub fn begin_transaction_with_id(
    store: &mut TransactionStore,
    new: &NewFilesystemTransaction,
    transaction_id: String,
    now_unix_nanos: i64,
) -> (result: Result<FilesystemTransactionRecord, SyncSqliteError>)
    requires
        old(store)@.well_formed(),
    ensures
        final(store)@.well_formed(),
        transaction_begun(
            beginning(old(store)@, *new, transaction_id@, now_unix_nanos as int),
            begun(*new, transaction_id@, now_unix_nanos as int),
            old(store)@,
            final(store)@,
            result,
        ),
{
    match store.position(transaction_id.as_str()) {
        Some(_) => {
            return Err(
                SyncSqliteError::DuplicateKey(
                    join("filesystem_transactions.transaction_id ", transaction_id.as_str()),
                ),
            );
        },
        None => {},
    }
    let record = FilesystemTransactionRecord {
        transaction_id,
        group_id: new.group_id.to_owned(),
        source_path: new.source_path.to_owned(),
        kind: new.kind,
        cause: new.cause,
        trigger_change_hash: match new.trigger_change_hash {
            Some(hash) => Some(*hash),
            None => None,
        },
        desired_frontier_hash: new.desired_frontier_hash,
        plan_revision: 0,
        execution_generation: 0,
        epoch_watermark: 0,
        phase: TransactionPhase::Planning,
        blocked_reason: None,
        created_at_unix_nanos: now_unix_nanos,
        updated_at_unix_nanos: now_unix_nanos,
    };
    let copy = record.copy();
    store.transactions.push(record);
    assert(store@.transactions =~= old(store)@.transactions.push(copy@));
    Ok(copy)
}

/// Starts a transaction under a new random id, whether or not execution is enabled.
/// Whatever the id turns out to be, the transaction is started under it or
/// refused because it is taken.
pub fn begin_transaction_unchecked(
    store: &mut TransactionStore,
    new: &NewFilesystemTransaction,
    now_unix_nanos: i64,
) -> (result: Result<FilesystemTransactionRecord, SyncSqliteError>)
    requires
        old(store)@.well_formed(),
    ensures
        final(store)@.well_formed(),
        exists|id: Seq<char>|
            #![trigger is_id("fstx"@, id)]
            is_id("fstx"@, id) && transaction_begun(
                beginning(old(store)@, *new, id, now_unix_nanos as int),
                begun(*new, id, now_unix_nanos as int),
                old(store)@,
                final(store)@,
                result,
            ),
{
    let transaction_id = new_id("fstx");
    assert(is_id("fstx"@, transaction_id@));
    begin_transaction_with_id(store, new, transaction_id, now_unix_nanos)
}

/// Starts a transaction under a new random id. Gated.
pub fn begin_transaction(
    store: &mut TransactionStore,
    new: &NewFilesystemTransaction,
    now_unix_nanos: i64,
) -> (result: Result<FilesystemTransactionRecord, SyncSqliteError>)
    requires
        old(store)@.well_formed(),
    ensures
        final(store)@.well_formed(),
        gate() is Err ==> result is Err && result->Err_0@ == gate()->Err_0 && final(store)@ == old(
            store,
        )@,
        gate() is Ok ==> exists|id: Seq<char>|
            #![trigger is_id("fstx"@, id)]
            is_id("fstx"@, id) && transaction_begun(
                beginning(old(store)@, *new, id, now_unix_nanos as int),
                begun(*new, id, now_unix_nanos as int),
                old(store)@,
                final(store)@,
                result,
            ),
{
    match require_execution_enabled() {
        Ok(()) => begin_transaction_unchecked(store, new, now_unix_nanos),
        Err(error) => Err(error),
    }
}

/// The transaction of that id, if there is one.
pub fn lookup_transaction(store: &TransactionStore, transaction_id: &str) -> (found: Option<
    FilesystemTransactionRecord,
>)
    ensures
        match found {
            Some(record) => transaction_of(store@.transactions, transaction_id@) == Some(record@),
            None => transaction_of(store@.transactions, transaction_id@) is None,
        },
{
    match store.position(transaction_id) {
        Some(i) => {
            assert(store@.transactions[i as int] == store.transactions@[i as int]@);
            Some(store.transactions[i].copy())
        },
        None => None,
    }
}

/// Transactions are listed by id.
pub open spec fn by_transaction_id() -> spec_fn(TransactionRow, TransactionRow) -> bool {
    |a: TransactionRow, b: TransactionRow| text_lt(a.transaction_id, b.transaction_id)
}

/// A transaction startup recovery must still look at.
pub open spec fn is_incomplete() -> spec_fn(TransactionRow) -> bool {
    |row: TransactionRow| row.phase != TransactionPhase::Completed
}

/// Every transaction that has not completed, by id.
pub fn list_incomplete_transactions(store: &TransactionStore) -> (listed: Vec<
    FilesystemTransactionRecord,
>)
    ensures
        listed_in_order(
            views(listed@),
            store@.transactions,
            is_incomplete(),
            by_transaction_id(),
        ),
{
    let ghost rows = store@.transactions;
    let ghost pred = is_incomplete();
    let ghost before = by_transaction_id();
    let mut listed: Vec<FilesystemTransactionRecord> = Vec::new();
    let mut i: usize = 0;
    assert(rows.take(0).filter(pred) =~= Seq::<TransactionRow>::empty());
    assert(views(listed@) =~= Seq::<TransactionRow>::empty());
    while i < store.transactions.len()
        invariant
            i <= store.transactions@.len(),
            rows == store@.transactions,
            pred == is_incomplete(),
            before == by_transaction_id(),
            in_order(views(listed@), before),
            views(listed@).to_multiset() == rows.take(i as int).filter(pred).to_multiset(),
        decreases store.transactions@.len() - i,
    {
        let row = &store.transactions[i];
        assert(rows[i as int] == row@);
        proof {
            lemma_filter_multiset_next(rows, pred, i as int);
        }
        if row.phase != TransactionPhase::Completed {
            let ghost sofar = views(listed@);
            let mut at: usize = 0;
            while at < listed.len() && !str_less(
                row.transaction_id.as_str(),
                listed[at].transaction_id.as_str(),
            )
                invariant
                    at <= listed@.len(),
                    sofar == views(listed@),
                    before == by_transaction_id(),
                    forall|j: int| 0 <= j < at ==> !before(row@, #[trigger] sofar[j]),
                decreases listed@.len() - at,
            {
                assert(sofar[at as int] == listed@[at as int]@);
                at += 1;
            }
            proof {
                if at < listed@.len() {
                    assert(sofar[at as int] == listed@[at as int]@);
                    assert(before(row@, sofar[at as int]));
                }
                assert forall|j: int| at <= j < sofar.len() implies !before(
                    #[trigger] sofar[j],
                    row@,
                ) by {
                    if before(sofar[j], row@) {
                        lemma_text_order(sofar[j].transaction_id, row@.transaction_id);
                        lemma_text_chain(
                            sofar[j].transaction_id,
                            row@.transaction_id,
                            sofar[at as int].transaction_id,
                        );
                        assert(before(sofar[j], sofar[at as int]));
                    }
                }
                lemma_insert_in_order(sofar, before, at as int, row@);
            }
            let copy = row.copy();
            listed.insert(at, copy);
            assert(views(listed@) =~= sofar.insert(at as int, row@));
        }
        i += 1;
    }
    assert(rows.take(rows.len() as int) =~= rows);
    listed
}

/// Refuses a caller whose execution generation is not the transaction's.
pub fn check_execution_generation(
    store: &TransactionStore,
    transaction_id: &str,
    expected: i64,
) -> (result: Result<(), SyncSqliteError>)
    ensures
        outcome(result) == fence(store@.transactions, transaction_id@, expected as int),
{
    match store.position(transaction_id) {
        None => Err(transaction_not_found(transaction_id)),
        Some(i) => {
            assert(store@.transactions[i as int] == store.transactions@[i as int]@);
            let current: i64 = store.transactions[i].execution_generation;
            if current != expected {
                Err(
                    SyncSqliteError::ExecutionGenerationFenced {
                        transaction_id: transaction_id.to_owned(),
                        expected,
                        current,
                    },
                )
            } else {
                Ok(())
            }
        },
    }
}

/// The generation counter of that transaction can still be advanced.
pub open spec fn can_advance(rows: Seq<TransactionRow>, id: Seq<char>) -> bool {
    transaction_of(rows, id) matches Some(row) ==> row.execution_generation < i64::MAX
}

/// The rows after one transaction's fence advanced.
pub open spec fn advanced(rows: Seq<TransactionRow>, id: Seq<char>) -> Seq<TransactionRow> {
    set_where(
        rows,
        is_transaction(id),
        |row: TransactionRow|
            TransactionRow { execution_generation: row.execution_generation + 1, ..row },
    )
}

/// What advancing a transaction's fence does: the new generation and the
/// journal with it.
pub open spec fn fence_advance(journal: Journal, id: Seq<char>) -> Result<(int, Journal), Failure> {
    match transaction_of(journal.transactions, id) {
        None => Err(no_such_transaction(id)),
        Some(row) => Ok(
            (
                row.execution_generation + 1,
                Journal { transactions: advanced(journal.transactions, id), ..journal },
            ),
        ),
    }
}

/// The fence was advanced as planned.
pub open spec fn fence_advanced(
    plan: Result<(int, Journal), Failure>,
    before: Journal,
    after: Journal,
    result: Result<i64, SyncSqliteError>,
) -> bool {
    match plan {
        Ok((next, journal)) => result is Ok && result->Ok_0 == next && after == journal,
        Err(failure) => result is Err && result->Err_0@ == failure && after == before,
    }
}

/// Advances a transaction's execution generation, fencing out every holder of
/// the old one, whether or not execution is enabled.
pub fn increment_execution_generation_unchecked(
    store: &mut TransactionStore,
    transaction_id: &str,
) -> (result: Result<i64, SyncSqliteError>)
    requires
        old(store)@.well_formed(),
        can_advance(old(store)@.transactions, transaction_id@),
    ensures
        final(store)@.well_formed(),
        fence_advanced(
            fence_advance(old(store)@, transaction_id@),
            old(store)@,
            final(store)@,
            result,
        ),
{
    let ghost rows = store@.transactions;
    let ghost pred = is_transaction(transaction_id@);
    let ghost f = |row: TransactionRow|
        TransactionRow { execution_generation: row.execution_generation + 1, ..row };
    match store.position(transaction_id) {
        None => Err(transaction_not_found(transaction_id)),
        Some(i) => {
            assert(rows[i as int] == store.transactions@[i as int]@);
            let next: i64 = store.transactions[i].execution_generation + 1;
            store.transactions[i].execution_generation = next;
            proof {
                lemma_transaction_set(old(store)@, store@, i as int, f);
            }
            Ok(next)
        },
    }
}

/// One row of the transaction table was replaced, and nothing else moved: that
/// is what an update by id does.
proof fn lemma_transaction_set(
    before: Journal,
    after: Journal,
    i: int,
    f: spec_fn(TransactionRow) -> TransactionRow,
)
    requires
        before.well_formed(),
        0 <= i < before.transactions.len(),
        f(before.transactions[i]).transaction_id == before.transactions[i].transaction_id,
        after.transactions =~= before.transactions.update(i, f(before.transactions[i])),
        after.epochs =~= before.epochs,
        after.reservations =~= before.reservations,
    ensures
        after.well_formed(),
        after == (Journal {
            transactions: set_where(
                before.transactions,
                is_transaction(before.transactions[i].transaction_id),
                f,
            ),
            ..before
        }),
{
    let id = before.transactions[i].transaction_id;
    lemma_one_transaction(before, id);
    lemma_set_where_at(before.transactions, is_transaction(id), f, i);
    lemma_transaction_update_keeps_well_formed(before, i, f(before.transactions[i]));
}

/// Advances a transaction's execution generation. Gated.
pub fn increment_execution_generation(store: &mut TransactionStore, transaction_id: &str) -> (result:
    Result<i64, SyncSqliteError>)
    requires
        old(store)@.well_formed(),
        can_advance(old(store)@.transactions, transaction_id@),
    ensures
        final(store)@.well_formed(),
        fence_advanced(
            gated(fence_advance(old(store)@, transaction_id@)),
            old(store)@,
            final(store)@,
            result,
        ),
{
    match require_execution_enabled() {
        Ok(()) => increment_execution_generation_unchecked(store, transaction_id),
        Err(error) => Err(error),
    }
}

/// What setting a plan revision over an expected one does.
pub open spec fn plan_revision_change(
    journal: Journal,
    id: Seq<char>,
    expected: int,
    revision: int,
) -> Result<Journal, Failure> {
    match transaction_of(journal.transactions, id) {
        None => Err(no_such_transaction(id)),
        Some(row) => if row.plan_revision != expected {
            Err(
                Failure::TransitionRaced {
                    subject: "filesystem transaction "@ + id + " plan_revision"@,
                    expected_state: "plan_revision "@ + decimal(expected),
                    current_state: "plan_revision "@ + decimal(row.plan_revision),
                },
            )
        } else {
            Ok(
                Journal {
                    transactions: set_where(
                        journal.transactions,
                        is_transaction(id),
                        |row: TransactionRow| TransactionRow { plan_revision: revision, ..row },
                    ),
                    ..journal
                },
            )
        },
    }
}

/// Replaces the plan revision if it is still the expected one, whether or
/// not execution is enabled.
pub fn set_plan_revision_unchecked(
    store: &mut TransactionStore,
    transaction_id: &str,
    expected_plan_revision: i64,
    new_plan_revision: i64,
) -> (result: Result<(), SyncSqliteError>)
    requires
        old(store)@.well_formed(),
    ensures
        final(store)@.well_formed(),
        carried_out(
            plan_revision_change(
                old(store)@,
                transaction_id@,
                expected_plan_revision as int,
                new_plan_revision as int,
            ),
            old(store)@,
            final(store)@,
            result,
        ),
{
    let ghost rows = store@.transactions;
    let ghost f = |row: TransactionRow|
        TransactionRow { plan_revision: new_plan_revision as int, ..row };
    match store.position(transaction_id) {
        None => Err(transaction_not_found(transaction_id)),
        Some(i) => {
            assert(rows[i as int] == store.transactions@[i as int]@);
            let current: i64 = store.transactions[i].plan_revision;
            if current != expected_plan_revision {
                return Err(
                    SyncSqliteError::TransitionRaced {
                        subject: join3(
                            "filesystem transaction ",
                            transaction_id,
                            " plan_revision",
                        ),
                        expected_state: join(
                            "plan_revision ",
                            decimal_text(expected_plan_revision).as_str(),
                        ),
                        current_state: join("plan_revision ", decimal_text(current).as_str()),
                    },
                );
            }
            store.transactions[i].plan_revision = new_plan_revision;
            proof {
                lemma_transaction_set(old(store)@, store@, i as int, f);
            }
            Ok(())
        },
    }
}

/// Replaces the plan revision if it is still the expected one. Gated.
pub fn set_plan_revision(
    store: &mut TransactionStore,
    transaction_id: &str,
    expected_plan_revision: i64,
    new_plan_revision: i64,
) -> (result: Result<(), SyncSqliteError>)
    requires
        old(store)@.well_formed(),
    ensures
        final(store)@.well_formed(),
        carried_out(
            gated(
                plan_revision_change(
                    old(store)@,
                    transaction_id@,
                    expected_plan_revision as int,
                    new_plan_revision as int,
                ),
            ),
            old(store)@,
            final(store)@,
            result,
        ),
{
    match require_execution_enabled() {
        Ok(()) => set_plan_revision_unchecked(
            store,
            transaction_id,
            expected_plan_revision,
            new_plan_revision,
        ),
        Err(error) => Err(error),
    }
}

/// How a generation and a plan revision are shown together.
pub open spec fn shown_plan(generation: int, revision: int) -> Seq<char> {
    "execution_generation "@ + decimal(generation) + ", plan_revision "@ + decimal(revision)
}

fn show_plan(generation: i64, revision: i64) -> (shown: String)
    ensures
        shown@ == shown_plan(generation as int, revision as int),
{
    let head = join("execution_generation ", decimal_text(generation).as_str());
    join3(head.as_str(), ", plan_revision ", decimal_text(revision).as_str())
}

/// What recording a frontier hash for an expected plan does.
pub open spec fn frontier_change(
    journal: Journal,
    id: Seq<char>,
    expected_generation: int,
    expected_revision: int,
    hash: [u8; 32],
) -> Result<Journal, Failure> {
    match transaction_of(journal.transactions, id) {
        None => Err(no_such_transaction(id)),
        Some(row) => if row.execution_generation != expected_generation || row.plan_revision
            != expected_revision {
            Err(
                Failure::TransitionRaced {
                    subject: "filesystem transaction "@ + id + " desired_frontier_hash"@,
                    expected_state: shown_plan(expected_generation, expected_revision),
                    current_state: shown_plan(row.execution_generation, row.plan_revision),
                },
            )
        } else {
            Ok(
                Journal {
                    transactions: set_where(
                        journal.transactions,
                        is_transaction(id),
                        |row: TransactionRow| TransactionRow { desired_frontier_hash: hash, ..row },
                    ),
                    ..journal
                },
            )
        },
    }
}

/// Records the frontier hash of the plan the caller built, if the transaction
/// is still at that plan, whether or not execution is enabled.
pub fn set_desired_frontier_hash_unchecked(
    store: &mut TransactionStore,
    transaction_id: &str,
    expected_execution_generation: i64,
    expected_plan_revision: i64,
    desired_frontier_hash: [u8; 32],
) -> (result: Result<(), SyncSqliteError>)
    requires
        old(store)@.well_formed(),
    ensures
        final(store)@.well_formed(),
        carried_out(
            frontier_change(
                old(store)@,
                transaction_id@,
                expected_execution_generation as int,
                expected_plan_revision as int,
                desired_frontier_hash,
            ),
            old(store)@,
            final(store)@,
            result,
        ),
{
    let ghost rows = store@.transactions;
    let ghost f = |row: TransactionRow| TransactionRow { desired_frontier_hash, ..row };
    match store.position(transaction_id) {
        None => Err(transaction_not_found(transaction_id)),
        Some(i) => {
            assert(rows[i as int] == store.transactions@[i as int]@);
            let generation: i64 = store.transactions[i].execution_generation;
            let revision: i64 = store.transactions[i].plan_revision;
            if generation != expected_execution_generation || revision != expected_plan_revision {
                return Err(
                    SyncSqliteError::TransitionRaced {
                        subject: join3(
                            "filesystem transaction ",
                            transaction_id,
                            " desired_frontier_hash",
                        ),
                        expected_state: show_plan(
                            expected_execution_generation,
                            expected_plan_revision,
                        ),
                        current_state: show_plan(generation, revision),
                    },
                );
            }
            store.transactions[i].desired_frontier_hash = desired_frontier_hash;
            proof {
                lemma_transaction_set(old(store)@, store@, i as int, f);
            }
            Ok(())
        },
    }
}

/// Records the frontier hash of the plan the caller built. Gated.
pub fn set_desired_frontier_hash(
    store: &mut TransactionStore,
    transaction_id: &str,
    expected_execution_generation: i64,
    expected_plan_revision: i64,
    desired_frontier_hash: [u8; 32],
) -> (result: Result<(), SyncSqliteError>)
    requires
        old(store)@.well_formed(),
    ensures
        final(store)@.well_formed(),
        carried_out(
            gated(
                frontier_change(
                    old(store)@,
                    transaction_id@,
                    expected_execution_generation as int,
                    expected_plan_revision as int,
                    desired_frontier_hash,
                ),
            ),
            old(store)@,
            final(store)@,
            result,
        ),
{
    match require_execution_enabled() {
        Ok(()) => set_desired_frontier_hash_unchecked(
            store,
            transaction_id,
            expected_execution_generation,
            expected_plan_revision,
            desired_frontier_hash,
        ),
        Err(error) => Err(error),
    }
}

/// An epoch of that transaction nothing settled yet.
pub open spec fn is_in_flight(id: Seq<char>) -> spec_fn(EpochRow) -> bool {
    |row: EpochRow| row.transaction_id == id && !is_settled(row.phase)
}

/// The in-flight epoch of a transaction with the lowest number.
pub open spec fn first_in_flight(rows: Seq<EpochRow>, id: Seq<char>) -> Option<EpochRow>
    decreases rows.len(),
{
    if rows.len() == 0 {
        None
    } else {
        match first_in_flight(rows.drop_last(), id) {
            None => if is_in_flight(id)(rows.last()) {
                Some(rows.last())
            } else {
                None
            },
            Some(best) => if is_in_flight(id)(rows.last()) && rows.last().epoch < best.epoch {
                Some(rows.last())
            } else {
                Some(best)
            },
        }
    }
}

/// [`first_in_flight`] is an in-flight epoch of the transaction, none has a
/// lower number, and it is absent only where none is in flight.
pub proof fn lemma_first_in_flight(rows: Seq<EpochRow>, id: Seq<char>)
    ensures
        match first_in_flight(rows, id) {
            Some(first) => {
                &&& is_in_flight(id)(first)
                &&& rows.contains(first)
                &&& forall|i: int|
                    0 <= i < rows.len() && is_in_flight(id)(#[trigger] rows[i]) ==> first.epoch
                        <= rows[i].epoch
            },
            None => forall|i: int| 0 <= i < rows.len() ==> !is_in_flight(id)(#[trigger] rows[i]),
        },
    decreases rows.len(),
{
    if rows.len() > 0 {
        let shorter = rows.drop_last();
        lemma_first_in_flight(shorter, id);
        assert forall|i: int| 0 <= i < rows.len() - 1 implies #[trigger] rows[i] == shorter[i] by {}
        match first_in_flight(shorter, id) {
            Some(best) => {
                let k = choose|k: int| 0 <= k < shorter.len() && shorter[k] == best;
                assert(rows[k] == best);
            },
            None => {},
        }
        assert(rows[rows.len() - 1] == rows.last());
    }
}

fn find_first_in_flight(store: &TransactionStore, transaction_id: &str) -> (found: Option<usize>)
    ensures
        match found {
            Some(i) => i < store.epochs@.len() && first_in_flight(store@.epochs, transaction_id@)
                == Some(store@.epochs[i as int]),
            None => first_in_flight(store@.epochs, transaction_id@) is None,
        },
{
    let ghost rows = store@.epochs;
    let mut best: Option<usize> = None;
    let mut i: usize = 0;
    assert(rows.take(0) =~= Seq::<EpochRow>::empty());
    while i < store.epochs.len()
        invariant
            i <= store.epochs@.len(),
            rows == store@.epochs,
            match best {
                Some(b) => b < i && first_in_flight(rows.take(i as int), transaction_id@) == Some(
                    rows[b as int],
                ),
                None => first_in_flight(rows.take(i as int), transaction_id@) is None,
            },
        decreases store.epochs@.len() - i,
    {
        assert(rows.take(i + 1).drop_last() =~= rows.take(i as int));
        assert(rows[i as int] == store.epochs@[i as int]@);
        let row = &store.epochs[i];
        if str_eq(row.transaction_id.as_str(), transaction_id) && !row.phase.is_terminal() {
            match best {
                None => {
                    best = Some(i);
                },
                Some(b) => {
                    assert(rows[b as int] == store.epochs@[b as int]@);
                    if row.epoch < store.epochs[b].epoch {
                        best = Some(i);
                    }
                },
            }
        }
        i += 1;
    }
    assert(rows.take(rows.len() as int) =~= rows);
    best
}

/// What a caller saw of a transaction when it decided on a phase change.
#[derive(Debug, Clone, Copy, PartialEq, Eq)]
pub struct SeenPhase {
    pub phase: TransactionPhase,
    pub epoch_watermark: i64,
}

/// What deciding on a phase change answers: what was seen of the transaction,
/// or why it may not move.
pub open spec fn phase_decision(
    journal: Journal,
    id: Seq<char>,
    expected_generation: int,
    to: TransactionPhase,
) -> Result<(TransactionPhase, int), Failure> {
    match fence(journal.transactions, id, expected_generation) {
        Err(failure) => Err(failure),
        Ok(()) => {
            let row = transaction_of(journal.transactions, id)->0;
            if !legal_phase_move(row.phase, to) {
                Err(
                    Failure::InvalidInput(
                        "filesystem transaction "@ + id + ": "@ + row.phase.shown_name() + " -> "@
                            + to.shown_name() + " is not a legal phase transition"@,
                    ),
                )
            } else if to is Completed && first_in_flight(journal.epochs, id) is Some {
                let epoch = first_in_flight(journal.epochs, id)->0;
                Err(
                    Failure::InvalidInput(
                        "filesystem transaction "@ + id + ": cannot complete while epoch "@
                            + decimal(epoch.epoch) + " is at "@ + epoch.phase.shown_name()
                            + ", which is still in flight -- every epoch must reach a terminal state (Completed, Quarantined or Blocked) before its parent can, otherwise an in-flight epoch under a completed parent would never be found by startup recovery's incomplete-transaction sweep"@,
                    ),
                )
            } else {
                Ok((row.phase, row.epoch_watermark))
            }
        },
    }
}

/// Decides on a phase change: the fence must hold, the move must be legal, and
/// a transaction completes only once every epoch of it is settled.
pub fn decide_phase_change(
    store: &TransactionStore,
    transaction_id: &str,
    expected_execution_generation: i64,
    to: TransactionPhase,
) -> (result: Result<SeenPhase, SyncSqliteError>)
    ensures
        match result {
            Ok(seen) => phase_decision(
                store@,
                transaction_id@,
                expected_execution_generation as int,
                to,
            ) == Ok::<_, Failure>((seen.phase, seen.epoch_watermark as int)),
            Err(error) => phase_decision(
                store@,
                transaction_id@,
                expected_execution_generation as int,
                to,
            ) == Err::<(TransactionPhase, int), _>(error@),
        },
{
    match check_execution_generation(store, transaction_id, expected_execution_generation) {
        Ok(()) => {},
        Err(error) => {
            return Err(error);
        },
    }
    match store.position(transaction_id) {
        None => Err(transaction_not_found(transaction_id)),
        Some(i) => {
            assert(store@.transactions[i as int] == store.transactions@[i as int]@);
            let record = &store.transactions[i];
            if !record.phase.can_transition_to(to) {
                let head = join3("filesystem transaction ", transaction_id, ": ");
                let from = join3(head.as_str(), record.phase.name(), " -> ");
                return Err(
                    SyncSqliteError::InvalidInput(
                        join3(from.as_str(), to.name(), " is not a legal phase transition"),
                    ),
                );
            }
            if to == TransactionPhase::Completed {
                match find_first_in_flight(store, transaction_id) {
                    Some(e) => {
                        assert(store@.epochs[e as int] == store.epochs@[e as int]@);
                        let unfinished = &store.epochs[e];
                        let head = join3(
                            "filesystem transaction ",
                            transaction_id,
                            ": cannot complete while epoch ",
                        );
                        let at = join3(
                            head.as_str(),
                            decimal_text(unfinished.epoch).as_str(),
                            " is at ",
                        );
                        return Err(
                            SyncSqliteError::InvalidInput(
                                join3(
                                    at.as_str(),
                                    unfinished.phase.name(),
                                    ", which is still in flight -- every epoch must reach a terminal state (Completed, Quarantined or Blocked) before its parent can, otherwise an in-flight epoch under a completed parent would never be found by startup recovery's incomplete-transaction sweep",
                                ),
                            ),
                        );
                    },
                    None => {},
                }
            }
            Ok(SeenPhase { phase: record.phase, epoch_watermark: record.epoch_watermark })
        },
    }
}

/// What writing a decided phase change does: it lands only on the row the
/// decision saw, and for a completion only if no epoch was allocated since.
pub open spec fn phase_write(
    journal: Journal,
    id: Seq<char>,
    expected_generation: int,
    seen: (TransactionPhase, int),
    to: TransactionPhase,
    reason: Option<Seq<char>>,
    now: int,
) -> Result<Journal, Failure> {
    match fence(journal.transactions, id, expected_generation) {
        Err(failure) => Err(failure),
        Ok(()) => {
            let row = transaction_of(journal.transactions, id)->0;
            if row.phase != seen.0 {
                Err(
                    Failure::TransitionRaced {
                        subject: "filesystem transaction "@ + id,
                        expected_state: seen.0.stored_name(),
                        current_state: row.phase.stored_name(),
                    },
                )
            } else if to is Completed && row.epoch_watermark != seen.1 {
                Err(
                    Failure::TransitionRaced {
                        subject: "filesystem transaction "@ + id,
                        expected_state: "epoch_watermark "@ + decimal(seen.1),
                        current_state: "epoch_watermark "@ + decimal(row.epoch_watermark),
                    },
                )
            } else {
                Ok(
                    Journal {
                        transactions: set_where(
                            journal.transactions,
                            is_transaction(id),
                            |row: TransactionRow|
                                TransactionRow {
                                    phase: to,
                                    blocked_reason: reason,
                                    updated_at: now,
                                    ..row
                                },
                        ),
                        ..journal
                    },
                )
            }
        },
    }
}

/// Writes a phase change decided on what was `seen`, re-checking all of it
/// against the row as it is now.
pub fn write_phase_change(
    store: &mut TransactionStore,
    transaction_id: &str,
    expected_execution_generation: i64,
    seen: &SeenPhase,
    to: TransactionPhase,
    blocked_reason: Option<&str>,
    now_unix_nanos: i64,
) -> (result: Result<(), SyncSqliteError>)
    requires
        old(store)@.well_formed(),
    ensures
        final(store)@.well_formed(),
        carried_out(
            phase_write(
                old(store)@,
                transaction_id@,
                expected_execution_generation as int,
                (seen.phase, seen.epoch_watermark as int),
                to,
                opt_str(blocked_reason),
                now_unix_nanos as int,
            ),
            old(store)@,
            final(store)@,
            result,
        ),
{
    let ghost rows = store@.transactions;
    let ghost f = |row: TransactionRow|
        TransactionRow {
            phase: to,
            blocked_reason: opt_str(blocked_reason),
            updated_at: now_unix_nanos as int,
            ..row
        };
    match check_execution_generation(store, transaction_id, expected_execution_generation) {
        Ok(()) => {},
        Err(error) => {
            return Err(error);
        },
    }
    match store.position(transaction_id) {
        None => Err(transaction_not_found(transaction_id)),
        Some(i) => {
            assert(rows[i as int] == store.transactions@[i as int]@);
            let current = store.transactions[i].phase;
            if current != seen.phase {
                return Err(
                    SyncSqliteError::TransitionRaced {
                        subject: join("filesystem transaction ", transaction_id),
                        expected_state: seen.phase.as_db_str().to_owned(),
                        current_state: current.as_db_str().to_owned(),
                    },
                );
            }
            let watermark: i64 = store.transactions[i].epoch_watermark;
            if to == TransactionPhase::Completed && watermark != seen.epoch_watermark {
                return Err(
                    SyncSqliteError::TransitionRaced {
                        subject: join("filesystem transaction ", transaction_id),
                        expected_state: join(
                            "epoch_watermark ",
                            decimal_text(seen.epoch_watermark).as_str(),
                        ),
                        current_state: join("epoch_watermark ", decimal_text(watermark).as_str()),
                    },
                );
            }
            store.transactions[i].phase = to;
            store.transactions[i].blocked_reason = match blocked_reason {
                Some(reason) => Some(reason.to_owned()),
                None => None,
            };
            store.transactions[i].updated_at_unix_nanos = now_unix_nanos;
            proof {
                lemma_transaction_set(old(store)@, store@, i as int, f);
            }
            Ok(())
        },
    }
}

/// What setting a phase does when nothing comes between deciding and writing.
pub open spec fn phase_change(
    journal: Journal,
    id: Seq<char>,
    expected_generation: int,
    to: TransactionPhase,
    reason: Option<Seq<char>>,
    now: int,
) -> Result<Journal, Failure> {
    match phase_decision(journal, id, expected_generation, to) {
        Ok(seen) => phase_write(journal, id, expected_generation, seen, to, reason, now),
        Err(failure) => Err(failure),
    }
}

/// Moves a transaction to another phase, whether or not execution is enabled.
pub fn set_transaction_phase_unchecked(
    store: &mut TransactionStore,
    transaction_id: &str,
    expected_execution_generation: i64,
    to: TransactionPhase,
    blocked_reason: Option<&str>,
    now_unix_nanos: i64,
) -> (result: Result<(), SyncSqliteError>)
    requires
        old(store)@.well_formed(),
    ensures
        final(store)@.well_formed(),
        carried_out(
            phase_change(
                old(store)@,
                transaction_id@,
                expected_execution_generation as int,
                to,
                opt_str(blocked_reason),
                now_unix_nanos as int,
            ),
            old(store)@,
            final(store)@,
            result,
        ),
{
    match decide_phase_change(store, transaction_id, expected_execution_generation, to) {
        Ok(seen) => write_phase_change(
            store,
            transaction_id,
            expected_execution_generation,
            &seen,
            to,
            blocked_reason,
            now_unix_nanos,
        ),
        Err(error) => Err(error),
    }
}

/// Moves a transaction to another phase. Gated.
pub fn set_transaction_phase(
    store: &mut TransactionStore,
    transaction_id: &str,
    expected_execution_generation: i64,
    to: TransactionPhase,
    blocked_reason: Option<&str>,
    now_unix_nanos: i64,
) -> (result: Result<(), SyncSqliteError>)
    requires
        old(store)@.well_formed(),
    ensures
        final(store)@.well_formed(),
        carried_out(
            gated(
                phase_change(
                    old(store)@,
                    transaction_id@,
                    expected_execution_generation as int,
                    to,
                    opt_str(blocked_reason),
                    now_unix_nanos as int,
                ),
            ),
            old(store)@,
            final(store)@,
            result,
        ),
{
    match require_execution_enabled() {
        Ok(()) => set_transaction_phase_unchecked(
            store,
            transaction_id,
            expected_execution_generation,
            to,
            blocked_reason,
            now_unix_nanos,
        ),
        Err(error) => Err(error),
    }
}

} // verus!
