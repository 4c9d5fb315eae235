//! Reservations: taking hold of parts of a group's namespace for a
//! transaction, and fencing the holders of what a change touches.

use vstd::prelude::*;

use crate::error::{outcome, Failure, SyncSqliteError};
use crate::filesystem_transaction::{
    advanced, can_advance, fence, gate, increment_execution_generation_unchecked,
    no_such_transaction, require_execution_enabled, transaction_of,
};
use crate::fresh_id::{is_id, new_id};
use crate::path_key::{
    at_or_below, end_of, in_range, key_of, law_key_range_is_the_subtree,
    law_ranges_overlap_along_one_line_of_descent, overlapping, path_key, ranges_overlap,
    reservation_segments, subtree_end_key,
};
use crate::rows::{
    any, first_where, lemma_filter_members, lemma_filter_take_next, lemma_first_where,
    lemma_first_where_at, lemma_first_where_none, set_where, views,
};
use crate::text::{
    bytes_less, bytes_lt, join, lemma_bytes_lt_asymmetric, lemma_bytes_lt_irreflexive,
    lemma_bytes_lt_total, lemma_bytes_lt_transitive, str_eq,
};
use crate::transaction_rows::{
    copy_bytes, holds_its_range, is_held_by, HeldRow, Journal, ReservationRecord, ReservationRow,
    StoredReservation, TransactionRow, TransactionStore,
};
use crate::vocabulary::{ReservationRole, ReservationScope};

verus! {

/// A reservation asked for.
pub struct NewReservation<'a> {
    pub group_id: &'a str,
    pub transaction_id: &'a str,
    pub scope: ReservationScope,
    pub path: &'a str,
    pub role: ReservationRole,
}

/// Which scopes exclude each other on overlapping ranges, listed pair by pair:
/// the requested scope first, the held one second. The placement domain owns
/// this table; the reservations only consult it.
pub struct ScopeConflicts {
    pub pairs: Vec<(ReservationScope, ReservationScope)>,
}

impl ScopeConflicts {
    /// The table lists the pair.
    pub open spec fn lists(&self, requested: ReservationScope, held: ReservationScope) -> bool {
        self.pairs@.contains((requested, held))
    }

    /// Whether the table lists the pair.
    pub fn conflict(&self, requested: ReservationScope, held: ReservationScope) -> (listed: bool)
        ensures
            listed == self.lists(requested, held),
    {
        let mut i: usize = 0;
        while i < self.pairs.len()
            invariant
                i <= self.pairs@.len(),
                forall|j: int| 0 <= j < i ==> self.pairs@[j] != (requested, held),
            decreases self.pairs@.len() - i,
        {
            let pair = self.pairs[i];
            if pair.0 == requested && pair.1 == held {
                assert(self.pairs@[i as int] == (requested, held));
                return true;
            }
            i += 1;
        }
        false
    }
}

/// The model of a [`NewReservation`].
pub struct RequestRow {
    pub group_id: Seq<char>,
    pub transaction_id: Seq<char>,
    pub scope: ReservationScope,
    pub path: Seq<char>,
    pub role: ReservationRole,
}

impl<'a> View for NewReservation<'a> {
    type V = RequestRow;

    open spec fn view(&self) -> RequestRow {
        RequestRow {
            group_id: self.group_id@,
            transaction_id: self.transaction_id@,
            scope: self.scope,
            path: self.path@,
            role: self.role,
        }
    }
}

/// The held row stands in the way of the request.
pub open spec fn blocks(request: RequestRow, conflicts: ScopeConflicts) -> spec_fn(HeldRow) -> bool {
    |held: HeldRow|
        {
            &&& held.reservation.group_id == request.group_id
            &&& overlapping(
                key_of(request.path)->Ok_0,
                end_of(key_of(request.path)->Ok_0),
                held.start,
                held.end,
            )
            &&& conflicts.lists(request.scope, held.reservation.scope)
        }
}

/// The row a granted request becomes.
pub open spec fn granted(request: RequestRow, id: Seq<char>, now: int) -> HeldRow {
    HeldRow {
        reservation: ReservationRow {
            reservation_id: id,
            group_id: request.group_id,
            transaction_id: request.transaction_id,
            scope: request.scope,
            path: request.path,
            role: request.role,
            created_at: now,
        },
        start: key_of(request.path)->Ok_0,
        end: end_of(key_of(request.path)->Ok_0),
    }
}

/// Request `a` is taken up before request `b`: by key, equal keys in the order
/// they were asked for.
pub open spec fn taken_before(requests: Seq<RequestRow>, a: int, b: int) -> bool {
    let key_a = key_of(requests[a].path)->Ok_0;
    let key_b = key_of(requests[b].path)->Ok_0;
    bytes_lt(key_a, key_b) || (key_a == key_b && a < b)
}

/// `order` names every request once, in the order they are taken up.
pub open spec fn is_request_order(order: Seq<int>, requests: Seq<RequestRow>) -> bool {
    &&& order.len() == requests.len()
    &&& forall|k: int| 0 <= k < order.len() ==> 0 <= #[trigger] order[k] < requests.len()
    &&& forall|j: int, k: int|
        #![trigger order[j], order[k]]
        0 <= j < k < order.len() ==> taken_before(requests, order[j], order[k])
}

/// What acquiring reservations under given ids does, the requests taken up in
/// `order`: the first request whose path has no key refuses all, else the first
/// blocked one does, else all are granted together.
pub open spec fn acquisition(
    journal: Journal,
    requests: Seq<RequestRow>,
    ids: Seq<Seq<char>>,
    order: Seq<int>,
    now: int,
    conflicts: ScopeConflicts,
) -> Result<Journal, Failure> {
    match first_unkeyed(requests) {
        Some(failure) => Err(failure),
        None => match first_blocked(journal.reservations, requests, order, conflicts) {
            Some(failure) => Err(failure),
            None => match first_taken_id(journal.reservations, ids) {
                Some(id) => Err(
                    Failure::DuplicateKey(
                        "filesystem_transaction_reservations.reservation_id "@ + id,
                    ),
                ),
                None => Ok(
                    Journal {
                        reservations: journal.reservations + granted_rows(
                            requests,
                            ids,
                            order,
                            now,
                        ),
                        ..journal
                    },
                ),
            },
        },
    }
}

/// The rows granted, in the order the requests were taken up.
pub open spec fn granted_rows(
    requests: Seq<RequestRow>,
    ids: Seq<Seq<char>>,
    order: Seq<int>,
    now: int,
) -> Seq<HeldRow> {
    order.map_values(|i: int| granted(requests[i], ids[i], now))
}

/// Why the first request without a key has none.
pub open spec fn first_unkeyed(requests: Seq<RequestRow>) -> Option<Failure> {
    match first_where(requests, |request: RequestRow| key_of(request.path) is Err) {
        Some(request) => Some(key_of(request.path)->Err_0),
        None => None,
    }
}

/// The conflict of the first request, in the order taken up, that a held
/// reservation blocks; its earliest blocker is named.
pub open spec fn first_blocked(
    held: Seq<HeldRow>,
    requests: Seq<RequestRow>,
    order: Seq<int>,
    conflicts: ScopeConflicts,
) -> Option<Failure> {
    match first_where(order, |i: int| any(held, blocks(requests[i], conflicts))) {
        Some(i) => Some(
            Failure::ReservationConflict {
                transaction_id: requests[i].transaction_id,
                path: requests[i].path,
                blocking_transaction_id: first_where(
                    held,
                    blocks(requests[i], conflicts),
                )->0.reservation.transaction_id,
            },
        ),
        None => None,
    }
}

/// The first id that a held reservation, or an earlier one of the same batch,
/// already has.
pub open spec fn first_taken_id(held: Seq<HeldRow>, ids: Seq<Seq<char>>) -> Option<Seq<char>>
    decreases ids.len(),
{
    if ids.len() == 0 {
        None
    } else {
        match first_taken_id(held, ids.drop_last()) {
            Some(id) => Some(id),
            None => if id_is_taken(held, ids.drop_last(), ids.last()) {
                Some(ids.last())
            } else {
                None
            },
        }
    }
}

/// The id is that of a held reservation or among `ids`.
pub open spec fn id_is_taken(held: Seq<HeldRow>, ids: Seq<Seq<char>>, id: Seq<char>) -> bool {
    any(held, |row: HeldRow| row.reservation.reservation_id == id) || ids.contains(id)
}

/// The answer to an acquisition: all ids on success, in the order asked for,
/// and an untouched journal on refusal.
pub open spec fn answered(
    plan: Result<Journal, Failure>,
    ids: Seq<Seq<char>>,
    before: Journal,
    after: Journal,
    result: Result<Vec<String>, SyncSqliteError>,
) -> bool {
    match plan {
        Ok(journal) => result is Ok && views(result->Ok_0@) == ids && after == journal,
        Err(failure) => result is Err && result->Err_0@ == failure && after == before,
    }
}

/// The requests were answered under the given ids.
pub open spec fn acquired(
    before: Journal,
    requests: Seq<RequestRow>,
    ids: Seq<Seq<char>>,
    now: int,
    conflicts: ScopeConflicts,
    after: Journal,
    result: Result<Vec<String>, SyncSqliteError>,
) -> bool {
    match first_unkeyed(requests) {
        Some(failure) => result is Err && result->Err_0@ == failure && after == before,
        None => exists|order: Seq<int>| #[trigger]
            is_request_order(order, requests) && answered(
                acquisition(before, requests, ids, order, now, conflicts),
                ids,
                before,
                after,
                result,
            ),
    }
}

/// The positions in a vector of indices, as numbers.
spec fn indices(order: Seq<usize>) -> Seq<int> {
    order.map_values(|i: usize| i as int)
}

/// The keys of the requested paths, or why the first one without a key has
/// none.
fn request_keys(requests: &[NewReservation]) -> (result: Result<Vec<Vec<u8>>, SyncSqliteError>)
    ensures
        match result {
            Ok(keys) => {
                &&& first_unkeyed(views(requests@)) is None
                &&& keys@.len() == requests@.len()
                &&& forall|i: int|
                    0 <= i < keys@.len() ==> key_of(requests@[i]@.path) == Ok::<_, Failure>(
                        (#[trigger] keys@[i])@,
                    )
            },
            Err(error) => first_unkeyed(views(requests@)) == Some(error@),
        },
{
    let ghost rows = views(requests@);
    let ghost pred = |request: RequestRow| key_of(request.path) is Err;
    let mut keys: Vec<Vec<u8>> = Vec::new();
    let mut i: usize = 0;
    while i < requests.len()
        invariant
            i <= requests@.len(),
            rows == views(requests@),
            pred == (|request: RequestRow| key_of(request.path) is Err),
            keys@.len() == i,
            forall|j: int|
                0 <= j < i ==> key_of(requests@[j]@.path) == Ok::<_, Failure>(
                    (#[trigger] keys@[j])@,
                ),
            forall|j: int| 0 <= j < i ==> !pred(#[trigger] rows[j]),
        decreases requests@.len() - i,
    {
        assert(rows[i as int] == requests@[i as int]@);
        match path_key(requests[i].path) {
            Ok(key) => {
                keys.push(key);
            },
            Err(error) => {
                proof {
                    lemma_first_where_at(rows, pred, i as int);
                }
                return Err(error);
            },
        }
        i += 1;
    }
    proof {
        lemma_first_where_none(rows, pred);
    }
    Ok(keys)
}

/// The order in which requests are taken up.
fn request_order(requests: &[NewReservation], keys: &Vec<Vec<u8>>) -> (order: Vec<usize>)
    requires
        keys@.len() == requests@.len(),
        forall|i: int|
            0 <= i < keys@.len() ==> key_of(requests@[i]@.path) == Ok::<_, Failure>(
                (#[trigger] keys@[i])@,
            ),
    ensures
        is_request_order(indices(order@), views(requests@)),
{
    let ghost rows = views(requests@);
    let mut order: Vec<usize> = Vec::new();
    let mut n: usize = 0;
    while n < requests.len()
        invariant
            n <= requests@.len(),
            rows == views(requests@),
            keys@.len() == requests@.len(),
            forall|i: int|
                0 <= i < keys@.len() ==> key_of(requests@[i]@.path) == Ok::<_, Failure>(
                    (#[trigger] keys@[i])@,
                ),
            order@.len() == n,
            forall|k: int| 0 <= k < order@.len() ==> #[trigger] order@[k] < n,
            forall|j: int, k: int|
                #![trigger order@[j], order@[k]]
                0 <= j < k < order@.len() ==> taken_before(
                    rows,
                    order@[j] as int,
                    order@[k] as int,
                ),
        decreases requests@.len() - n,
    {
        let ghost sofar = order@;
        let mut at: usize = 0;
        while at < order.len() && !bytes_less(keys[n].as_slice(), keys[order[at]].as_slice())
            invariant
                at <= order@.len(),
                n < keys@.len(),
                order@ == sofar,
                forall|k: int| 0 <= k < order@.len() ==> #[trigger] order@[k] < n,
                forall|k: int|
                    0 <= k < at ==> !bytes_lt(
                        keys@[n as int]@,
                        keys@[#[trigger] sofar[k] as int]@,
                    ),
            decreases order@.len() - at,
        {
            at += 1;
        }
        order.insert(at, n);
        proof {
            assert(rows[n as int] == requests@[n as int]@);
            let key_n = keys@[n as int]@;
            assert forall|j: int, k: int|
                #![trigger order@[j], order@[k]]
                0 <= j < k < order@.len() implies taken_before(
                rows,
                order@[j] as int,
                order@[k] as int,
            ) by {
                if k < at {
                    assert(order@[j] == sofar[j] && order@[k] == sofar[k]);
                } else if j > at {
                    assert(order@[j] == sofar[j - 1] && order@[k] == sofar[k - 1]);
                } else if k == at {
                    let key_j = keys@[sofar[j] as int]@;
                    assert(rows[sofar[j] as int] == requests@[sofar[j] as int]@);
                    lemma_bytes_lt_total(key_j, key_n);
                } else if j == at {
                    let key_at = keys@[sofar[at as int] as int]@;
                    let key_k = keys@[sofar[k - 1] as int]@;
                    assert(bytes_lt(key_n, key_at));
                    assert(order@[k] == sofar[k - 1]);
                    assert(rows[sofar[k - 1] as int] == requests@[sofar[k - 1] as int]@);
                    assert(rows[sofar[at as int] as int] == requests@[sofar[at as int] as int]@);
                    if k - 1 > at {
                        assert(taken_before(rows, sofar[at as int] as int, sofar[k - 1] as int));
                        if bytes_lt(key_at, key_k) {
                            lemma_bytes_lt_transitive(key_n, key_at, key_k);
                        }
                    }
                    assert(bytes_lt(key_n, key_k));
                } else {
                    assert(order@[j] == sofar[j] && order@[k] == sofar[k - 1]);
                }
            }
        }
        n += 1;
    }
    proof {
        let numbers = indices(order@);
        assert forall|k: int| 0 <= k < numbers.len() implies 0 <= #[trigger] numbers[k] < rows.len() by {
            assert(order@[k] < n);
        }
        assert forall|j: int, k: int|
            #![trigger numbers[j], numbers[k]]
            0 <= j < k < numbers.len() implies taken_before(rows, numbers[j], numbers[k]) by {
            assert(taken_before(rows, order@[j] as int, order@[k] as int));
        }
    }
    order
}

/// The first held reservation that stands in the request's way.
fn first_blocker(
    store: &TransactionStore,
    request: &NewReservation,
    start: &[u8],
    conflicts: &ScopeConflicts,
) -> (found: Option<usize>)
    requires
        key_of(request@.path) == Ok::<_, Failure>(start@),
    ensures
        match found {
            Some(i) => {
                &&& i < store.reservations@.len()
                &&& any(store@.reservations, blocks(request@, *conflicts))
                &&& first_where(store@.reservations, blocks(request@, *conflicts)) == Some(
                    store@.reservations[i as int],
                )
            },
            None => !any(store@.reservations, blocks(request@, *conflicts)),
        },
{
    let ghost rows = store@.reservations;
    let ghost pred = blocks(request@, *conflicts);
    let end = subtree_end_key(start);
    let mut i: usize = 0;
    while i < store.reservations.len()
        invariant
            i <= store.reservations@.len(),
            rows == store@.reservations,
            pred == blocks(request@, *conflicts),
            key_of(request@.path) == Ok::<_, Failure>(start@),
            end@ == end_of(start@),
            forall|j: int| 0 <= j < i ==> !pred(#[trigger] rows[j]),
        decreases store.reservations@.len() - i,
    {
        assert(rows[i as int] == store.reservations@[i as int]@);
        let held = &store.reservations[i];
        if str_eq(held.record.group_id.as_str(), request.group_id) && ranges_overlap(
            start,
            end.as_slice(),
            held.path_key.as_slice(),
            held.subtree_end_key.as_slice(),
        ) && conflicts.conflict(request.scope, held.record.scope) {
            proof {
                lemma_first_where_at(rows, pred, i as int);
                assert(pred(rows[i as int]));
            }
            return Some(i);
        }
        i += 1;
    }
    None
}

/// Whether a held reservation has the id.
fn id_is_held(store: &TransactionStore, id: &str) -> (held: bool)
    ensures
        held == any(store@.reservations, |row: HeldRow| row.reservation.reservation_id == id@),
{
    let ghost rows = store@.reservations;
    let mut i: usize = 0;
    while i < store.reservations.len()
        invariant
            i <= store.reservations@.len(),
            rows == store@.reservations,
            forall|j: int|
                0 <= j < i ==> (#[trigger] rows[j]).reservation.reservation_id != id@,
        decreases store.reservations@.len() - i,
    {
        assert(rows[i as int] == store.reservations@[i as int]@);
        if str_eq(store.reservations[i].record.reservation_id.as_str(), id) {
            return true;
        }
        i += 1;
    }
    false
}

/// The first id that is already taken.
fn find_taken_id(store: &TransactionStore, ids: &Vec<String>) -> (found: Option<usize>)
    ensures
        match found {
            Some(i) => i < ids@.len() && first_taken_id(store@.reservations, views(ids@)) == Some(
                ids@[i as int]@,
            ),
            None => first_taken_id(store@.reservations, views(ids@)) is None,
        },
{
    let ghost held = store@.reservations;
    let ghost all = views(ids@);
    let mut i: usize = 0;
    assert(all.take(0) =~= Seq::<Seq<char>>::empty());
    while i < ids.len()
        invariant
            i <= ids@.len(),
            held == store@.reservations,
            all == views(ids@),
            first_taken_id(held, all.take(i as int)) is None,
        decreases ids@.len() - i,
    {
        proof {
            assert(all.take(i + 1).drop_last() =~= all.take(i as int));
            assert(all.take(i + 1).last() == ids@[i as int]@);
        }
        let mut taken = id_is_held(store, ids[i].as_str());
        let mut j: usize = 0;
        while j < i && !taken
            invariant
                j <= i < ids@.len(),
                all == views(ids@),
                held == store@.reservations,
                taken == (any(
                    held,
                    |row: HeldRow| row.reservation.reservation_id == ids@[i as int]@,
                ) || exists|k: int| 0 <= k < j && #[trigger] all[k] == ids@[i as int]@),
            decreases i - j,
        {
            assert(all[j as int] == ids@[j as int]@);
            if str_eq(ids[j].as_str(), ids[i].as_str()) {
                taken = true;
            }
            j += 1;
        }
        proof {
            let before = all.take(i as int);
            let id = ids@[i as int]@;
            assert(taken == id_is_taken(held, before, id)) by {
                if taken && !any(held, |row: HeldRow| row.reservation.reservation_id == id) {
                    let k = choose|k: int| 0 <= k < j && #[trigger] all[k] == id;
                    assert(before[k] == id);
                }
                if !taken && before.contains(id) {
                    let k = choose|k: int| 0 <= k < before.len() && before[k] == id;
                    assert(all[k] == id);
                }
            }
        }
        if taken {
            proof {
                lemma_taken_id_stays(held, all, i + 1);
            }
            return Some(i);
        }
        i += 1;
    }
    assert(all.take(all.len() as int) =~= all);
    None
}

proof fn lemma_taken_id_stays(held: Seq<HeldRow>, ids: Seq<Seq<char>>, n: int)
    requires
        0 <= n <= ids.len(),
        first_taken_id(held, ids.take(n)) is Some,
    ensures
        first_taken_id(held, ids) == first_taken_id(held, ids.take(n)),
    decreases ids.len() - n,
{
    if n == ids.len() {
        assert(ids.take(n) =~= ids);
    } else {
        assert(ids.take(n + 1).drop_last() =~= ids.take(n));
        lemma_taken_id_stays(held, ids, n + 1);
    }
}

/// With no id taken, the granted rows keep the ids of all reservations apart.
proof fn lemma_untaken_ids(held: Seq<HeldRow>, ids: Seq<Seq<char>>)
    requires
        first_taken_id(held, ids) is None,
    ensures
        forall|i: int|
            #![trigger ids[i]]
            0 <= i < ids.len() ==> !any(
                held,
                |row: HeldRow| row.reservation.reservation_id == ids[i],
            ),
        forall|i: int, j: int|
            #![trigger ids[i], ids[j]]
            0 <= i < j < ids.len() ==> ids[i] != ids[j],
    decreases ids.len(),
{
    if ids.len() > 0 {
        let shorter = ids.drop_last();
        lemma_untaken_ids(held, shorter);
        assert forall|i: int| #![trigger ids[i]] 0 <= i < ids.len() implies !any(
            held,
            |row: HeldRow| row.reservation.reservation_id == ids[i],
        ) by {
            if i < shorter.len() {
                assert(shorter[i] == ids[i]);
            }
        }
        assert forall|i: int, j: int|
            #![trigger ids[i], ids[j]]
            0 <= i < j < ids.len() implies ids[i] != ids[j] by {
            assert(shorter[i] == ids[i]);
            if j < shorter.len() {
                assert(shorter[j] == ids[j]);
            } else {
                assert(shorter.contains(ids[i]));
            }
        }
    }
}

/// Two places of a request order never name the same request.
proof fn lemma_order_is_distinct(order: Seq<int>, requests: Seq<RequestRow>, j: int, k: int)
    requires
        is_request_order(order, requests),
        0 <= j < k < order.len(),
    ensures
        order[j] != order[k],
{
    if order[j] == order[k] {
        assert(taken_before(requests, order[j], order[k]));
        lemma_bytes_lt_irreflexive(key_of(requests[order[j]].path)->Ok_0);
    }
}

proof fn lemma_grants_keep_well_formed(
    journal: Journal,
    requests: Seq<RequestRow>,
    ids: Seq<Seq<char>>,
    order: Seq<int>,
    now: int,
)
    requires
        journal.well_formed(),
        first_unkeyed(requests) is None,
        is_request_order(order, requests),
        ids.len() == requests.len(),
        first_taken_id(journal.reservations, ids) is None,
    ensures
        (Journal {
            reservations: journal.reservations + granted_rows(requests, ids, order, now),
            ..journal
        }).well_formed(),
{
    let held = journal.reservations;
    let grown = held + granted_rows(requests, ids, order, now);
    lemma_untaken_ids(held, ids);
    lemma_first_where(requests, |request: RequestRow| key_of(request.path) is Err);
    assert forall|i: int| #![trigger grown[i]] 0 <= i < grown.len() implies holds_its_range(
        grown[i],
    ) by {
        if i < held.len() {
            assert(grown[i] == held[i]);
        } else {
            let r = order[i - held.len()];
            assert(grown[i] == granted(requests[r], ids[r], now));
            assert(!(key_of(requests[r].path) is Err)) by {
                assert(!any(requests, |request: RequestRow| key_of(request.path) is Err));
            }
        }
    }
    assert forall|i: int, j: int|
        #![trigger grown[i], grown[j]]
        0 <= i < j < grown.len() implies grown[i].reservation.reservation_id
        != grown[j].reservation.reservation_id by {
        if j < held.len() {
            assert(grown[i] == held[i] && grown[j] == held[j]);
        } else {
            let b = order[j - held.len()];
            assert(grown[j] == granted(requests[b], ids[b], now));
            if i < held.len() {
                assert(grown[i] == held[i]);
                assert(!any(held, |row: HeldRow| row.reservation.reservation_id == ids[b]));
            } else {
                let a = order[i - held.len()];
                assert(grown[i] == granted(requests[a], ids[a], now));
                lemma_order_is_distinct(order, requests, i - held.len(), j - held.len());
                if a < b {
                    assert(ids[a] != ids[b]);
                } else {
                    assert(ids[b] != ids[a]);
                }
            }
        }
    }
}

/// Acquires reservations under given ids: all or none. The reservations held
/// before the call decide, so the members of one batch never block each other.
pub fn acquire_reservations_with_ids(
    store: &mut TransactionStore,
    requests: &[NewReservation],
    ids: Vec<String>,
    now_unix_nanos: i64,
    conflicts: &ScopeConflicts,
) -> (result: Result<Vec<String>, SyncSqliteError>)
    requires
        old(store)@.well_formed(),
        ids@.len() == requests@.len(),
    ensures
        final(store)@.well_formed(),
        acquired(
            old(store)@,
            views(requests@),
            views(ids@),
            now_unix_nanos as int,
            *conflicts,
            final(store)@,
            result,
        ),
{
    let ghost rows = views(requests@);
    let ghost held = store@.reservations;
    let ghost texts = views(ids@);
    let keys = match request_keys(requests) {
        Ok(keys) => keys,
        Err(error) => {
            return Err(error);
        },
    };
    let order = request_order(requests, &keys);
    let ghost numbers = indices(order@);
    let ghost blocked = |i: int| any(held, blocks(rows[i], *conflicts));
    let mut k: usize = 0;
    while k < order.len()
        invariant
            k <= order@.len(),
            *store == *old(store),
            store@.well_formed(),
            held == store@.reservations,
            rows == views(requests@),
            numbers == indices(order@),
            texts == views(ids@),
            is_request_order(numbers, rows),
            first_unkeyed(rows) is None,
            keys@.len() == requests@.len(),
            forall|i: int|
                0 <= i < keys@.len() ==> key_of(requests@[i]@.path) == Ok::<_, Failure>(
                    (#[trigger] keys@[i])@,
                ),
            blocked == (|i: int| any(held, blocks(rows[i], *conflicts))),
            forall|j: int| 0 <= j < k ==> !blocked(#[trigger] numbers[j]),
        decreases order@.len() - k,
    {
        let i: usize = order[k];
        assert(numbers[k as int] == i);
        assert(rows[i as int] == requests@[i as int]@);
        match first_blocker(store, &requests[i], keys[i].as_slice(), conflicts) {
            Some(b) => {
                assert(held[b as int] == store.reservations@[b as int]@);
                proof {
                    lemma_first_where_at(numbers, blocked, k as int);
                    assert(first_blocked(held, rows, numbers, *conflicts) is Some);
                }
                return Err(
                    SyncSqliteError::ReservationConflict {
                        transaction_id: requests[i].transaction_id.to_owned(),
                        path: requests[i].path.to_owned(),
                        blocking_transaction_id: store.reservations[b].record.transaction_id.clone(),
                    },
                );
            },
            None => {},
        }
        k += 1;
    }
    proof {
        lemma_first_where_none(numbers, blocked);
        assert(first_blocked(held, rows, numbers, *conflicts) is None);
    }
    match find_taken_id(store, &ids) {
        Some(i) => {
            return Err(
                SyncSqliteError::DuplicateKey(
                    join(
                        "filesystem_transaction_reservations.reservation_id ",
                        ids[i].as_str(),
                    ),
                ),
            );
        },
        None => {},
    }
    let ghost grants = granted_rows(rows, texts, numbers, now_unix_nanos as int);
    proof {
        lemma_grants_keep_well_formed(
            store@,
            rows,
            texts,
            numbers,
            now_unix_nanos as int,
        );
    }
    let mut k: usize = 0;
    assert(held + grants.take(0) =~= held);
    while k < order.len()
        invariant
            k <= order@.len(),
            numbers == indices(order@),
            rows == views(requests@),
            texts == views(ids@),
            ids@.len() == requests@.len(),
            is_request_order(numbers, rows),
            keys@.len() == requests@.len(),
            forall|i: int|
                0 <= i < keys@.len() ==> key_of(requests@[i]@.path) == Ok::<_, Failure>(
                    (#[trigger] keys@[i])@,
                ),
            grants == granted_rows(rows, texts, numbers, now_unix_nanos as int),
            store@.transactions == old(store)@.transactions,
            store@.epochs == old(store)@.epochs,
            store@.reservations == held + grants.take(k as int),
        decreases order@.len() - k,
    {
        let i: usize = order[k];
        assert(numbers[k as int] == i);
        assert(rows[i as int] == requests@[i as int]@);
        assert(texts[i as int] == ids@[i as int]@);
        let start = copy_bytes(&keys[i]);
        let end = subtree_end_key(start.as_slice());
        let request = &requests[i];
        let ghost before = store@.reservations;
        let row = StoredReservation {
            record: ReservationRecord {
                reservation_id: ids[i].clone(),
                group_id: request.group_id.to_owned(),
                transaction_id: request.transaction_id.to_owned(),
                scope: request.scope,
                path: request.path.to_owned(),
                role: request.role,
                created_at_unix_nanos: now_unix_nanos,
            },
            path_key: start,
            subtree_end_key: end,
        };
        let ghost row_view = row@;
        store.reservations.push(row);
        proof {
            assert(row_view == grants[k as int]);
            assert(store@.reservations =~= before.push(row_view));
            assert(held + grants.take(k + 1) =~= (held + grants.take(k as int)).push(
                grants[k as int],
            ));
        }
        k += 1;
    }
    assert(grants.take(grants.len() as int) =~= grants);
    proof {
        assert(answered(
            acquisition(
                old(store)@,
                rows,
                texts,
                numbers,
                now_unix_nanos as int,
                *conflicts,
            ),
            texts,
            old(store)@,
            store@,
            Ok(ids),
        ));
    }
    Ok(ids)
}

/// The requests were answered under some freshly drawn ids.
pub open spec fn acquired_under_new_ids(
    before: Journal,
    requests: Seq<RequestRow>,
    now: int,
    conflicts: ScopeConflicts,
    after: Journal,
    result: Result<Vec<String>, SyncSqliteError>,
) -> bool {
    exists|ids: Seq<Seq<char>>|
        {
            &&& ids.len() == requests.len()
            &&& forall|i: int| 0 <= i < ids.len() ==> is_id("fsres"@, #[trigger] ids[i])
            &&& #[trigger] acquired(before, requests, ids, now, conflicts, after, result)
        }
}

/// Acquires reservations inside a transaction the caller owns: all or none,
/// under new random ids.
pub fn acquire_reservations_in_open_transaction(
    store: &mut TransactionStore,
    requests: &[NewReservation],
    now_unix_nanos: i64,
    conflicts: &ScopeConflicts,
) -> (result: Result<Vec<String>, SyncSqliteError>)
    requires
        old(store)@.well_formed(),
    ensures
        final(store)@.well_formed(),
        acquired_under_new_ids(
            old(store)@,
            views(requests@),
            now_unix_nanos as int,
            *conflicts,
            final(store)@,
            result,
        ),
{
    let mut ids: Vec<String> = Vec::new();
    let mut i: usize = 0;
    while i < requests.len()
        invariant
            i <= requests@.len(),
            ids@.len() == i,
            forall|j: int| 0 <= j < i ==> is_id("fsres"@, #[trigger] views(ids@)[j]),
        decreases requests@.len() - i,
    {
        let ghost sofar = views(ids@);
        let id = new_id("fsres");
        ids.push(id);
        assert(views(ids@) =~= sofar.push(id@));
        i += 1;
    }
    acquire_reservations_with_ids(store, requests, ids, now_unix_nanos, conflicts)
}

/// Acquires reservations, whether or not execution is enabled: all or none.
pub fn acquire_reservations_unchecked(
    store: &mut TransactionStore,
    requests: &[NewReservation],
    now_unix_nanos: i64,
    conflicts: &ScopeConflicts,
) -> (result: Result<Vec<String>, SyncSqliteError>)
    requires
        old(store)@.well_formed(),
    ensures
        final(store)@.well_formed(),
        acquired_under_new_ids(
            old(store)@,
            views(requests@),
            now_unix_nanos as int,
            *conflicts,
            final(store)@,
            result,
        ),
{
    acquire_reservations_in_open_transaction(store, requests, now_unix_nanos, conflicts)
}

/// Acquires reservations: all or none. Gated.
pub fn acquire_reservations(
    store: &mut TransactionStore,
    requests: &[NewReservation],
    now_unix_nanos: i64,
    conflicts: &ScopeConflicts,
) -> (result: Result<Vec<String>, SyncSqliteError>)
    requires
        old(store)@.well_formed(),
    ensures
        final(store)@.well_formed(),
        gate() is Err ==> result is Err && result->Err_0@ == gate()->Err_0 && final(store)@ == old(
            store,
        )@,
        gate() is Ok ==> acquired_under_new_ids(
            old(store)@,
            views(requests@),
            now_unix_nanos as int,
            *conflicts,
            final(store)@,
            result,
        ),
{
    match require_execution_enabled() {
        Ok(()) => acquire_reservations_unchecked(store, requests, now_unix_nanos, conflicts),
        Err(error) => Err(error),
    }
}

/// The reservation a held row carries.
pub open spec fn reservations_of(held: Seq<HeldRow>) -> Seq<ReservationRow> {
    held.map_values(|row: HeldRow| row.reservation)
}

/// Every reservation a transaction holds.
pub fn list_reservations(store: &TransactionStore, transaction_id: &str) -> (listed: Vec<
    ReservationRecord,
>)
    ensures
        views(listed@) == reservations_of(store@.reservations.filter(is_held_by(transaction_id@))),
{
    let ghost rows = store@.reservations;
    let ghost pred = is_held_by(transaction_id@);
    let mut listed: Vec<ReservationRecord> = Vec::new();
    let mut i: usize = 0;
    assert(rows.take(0).filter(pred) =~= Seq::<HeldRow>::empty());
    assert(views(listed@) =~= reservations_of(rows.take(0).filter(pred)));
    while i < store.reservations.len()
        invariant
            i <= store.reservations@.len(),
            rows == store@.reservations,
            pred == is_held_by(transaction_id@),
            views(listed@) == reservations_of(rows.take(i as int).filter(pred)),
        decreases store.reservations@.len() - i,
    {
        let row = &store.reservations[i];
        assert(rows[i as int] == row@);
        proof {
            lemma_filter_take_next(rows, pred, i as int);
        }
        if str_eq(row.record.transaction_id.as_str(), transaction_id) {
            let ghost sofar = views(listed@);
            let copy = row.record.copy();
            listed.push(copy);
            assert(views(listed@) =~= sofar.push(row@.reservation));
            assert(reservations_of(rows.take(i + 1).filter(pred)) =~= sofar.push(
                row@.reservation,
            ));
        }
        i += 1;
    }
    assert(rows.take(rows.len() as int) =~= rows);
    listed
}

/// The journal without a transaction's reservations.
pub open spec fn released(journal: Journal, id: Seq<char>) -> Journal {
    Journal {
        reservations: journal.reservations.filter(|row: HeldRow| !is_held_by(id)(row)),
        ..journal
    }
}

proof fn lemma_filter_in_place<R>(rows: Seq<R>, keep: spec_fn(R) -> bool, n: int)
    requires
        0 <= n < rows.len(),
    ensures
        ({
            let sofar = rows.take(n).filter(keep);
            let current = sofar + rows.skip(n);
            &&& current[sofar.len() as int] == rows[n]
            &&& keep(rows[n]) ==> rows.take(n + 1).filter(keep).len() == sofar.len() + 1
                && current == rows.take(n + 1).filter(keep) + rows.skip(n + 1)
            &&& !keep(rows[n]) ==> rows.take(n + 1).filter(keep).len() == sofar.len()
                && current.remove(sofar.len() as int) == rows.take(n + 1).filter(keep) + rows.skip(
                n + 1,
            )
        }),
{
    let sofar = rows.take(n).filter(keep);
    let current = sofar + rows.skip(n);
    lemma_filter_take_next(rows, keep, n);
    assert(rows.skip(n)[0] == rows[n]);
    if keep(rows[n]) {
        assert(current =~= sofar.push(rows[n]) + rows.skip(n + 1));
    } else {
        assert(current.remove(sofar.len() as int) =~= sofar + rows.skip(n + 1));
    }
}

/// Releasing keeps the journal well formed.
proof fn lemma_release_keeps_well_formed(journal: Journal, id: Seq<char>)
    requires
        journal.well_formed(),
    ensures
        released(journal, id).well_formed(),
{
    let keep = |row: HeldRow| !is_held_by(id)(row);
    lemma_filter_keeps_ranges_and_ids(journal.reservations, keep);
}

proof fn lemma_filter_keeps_ranges_and_ids(rows: Seq<HeldRow>, keep: spec_fn(HeldRow) -> bool)
    requires
        forall|i: int|
            #![trigger rows[i]]
            0 <= i < rows.len() ==> holds_its_range(rows[i]),
        forall|i: int, j: int|
            #![trigger rows[i], rows[j]]
            0 <= i < j < rows.len() ==> rows[i].reservation.reservation_id
                != rows[j].reservation.reservation_id,
    ensures
        forall|i: int|
            #![trigger rows.filter(keep)[i]]
            0 <= i < rows.filter(keep).len() ==> holds_its_range(
                rows.filter(keep)[i],
            ) && rows.contains(rows.filter(keep)[i]),
        forall|i: int, j: int|
            #![trigger rows.filter(keep)[i], rows.filter(keep)[j]]
            0 <= i < j < rows.filter(keep).len() ==> rows.filter(keep)[i].reservation.reservation_id
                != rows.filter(keep)[j].reservation.reservation_id,
    decreases rows.len(),
{
    reveal(Seq::filter);
    if rows.len() > 0 {
        let shorter = rows.drop_last();
        assert forall|i: int| #![trigger shorter[i]] 0 <= i < shorter.len() implies holds_its_range(
            shorter[i],
        ) by {
            assert(shorter[i] == rows[i]);
        }
        assert forall|i: int, j: int|
            #![trigger shorter[i], shorter[j]]
            0 <= i < j < shorter.len() implies shorter[i].reservation.reservation_id
            != shorter[j].reservation.reservation_id by {
            assert(shorter[i] == rows[i] && shorter[j] == rows[j]);
        }
        lemma_filter_keeps_ranges_and_ids(shorter, keep);
        let kept = shorter.filter(keep);
        let all = rows.filter(keep);
        let last = rows[rows.len() - 1];
        assert forall|i: int| #![trigger all[i]] 0 <= i < all.len() implies holds_its_range(
            all[i],
        ) && rows.contains(all[i]) by {
            if i < kept.len() {
                assert(all[i] == kept[i]);
                let k = choose|k: int| 0 <= k < shorter.len() && shorter[k] == kept[i];
                assert(rows[k] == all[i]);
            } else {
                assert(all[i] == last);
            }
        }
        assert forall|i: int, j: int|
            #![trigger all[i], all[j]]
            0 <= i < j < all.len() implies all[i].reservation.reservation_id
            != all[j].reservation.reservation_id by {
            assert(all[i] == kept[i]);
            if j < kept.len() {
                assert(all[j] == kept[j]);
            } else {
                assert(all[j] == last);
                let k = choose|k: int| 0 <= k < shorter.len() && shorter[k] == kept[i];
                assert(rows[k] == all[i]);
                assert(rows[k].reservation.reservation_id
                    != rows[rows.len() - 1].reservation.reservation_id);
            }
        }
    }
}

/// Releases everything a transaction holds, whether or not execution is enabled.
pub fn release_reservations_unchecked(store: &mut TransactionStore, transaction_id: &str)
    requires
        old(store)@.well_formed(),
    ensures
        final(store)@.well_formed(),
        final(store)@ == released(old(store)@, transaction_id@),
{
    let ghost rows = store@.reservations;
    let ghost keep = |row: HeldRow| !is_held_by(transaction_id@)(row);
    let ghost mut n: int = 0;
    let mut i: usize = 0;
    proof {
        assert(rows.take(0).filter(keep) =~= Seq::<HeldRow>::empty());
        assert(rows.take(0).filter(keep) + rows.skip(0) =~= rows);
    }
    while i < store.reservations.len()
        invariant
            0 <= n <= rows.len(),
            keep == (|row: HeldRow| !is_held_by(transaction_id@)(row)),
            i == rows.take(n).filter(keep).len(),
            store@.reservations == rows.take(n).filter(keep) + rows.skip(n),
            store@.transactions == old(store)@.transactions,
            store@.epochs == old(store)@.epochs,
        decreases rows.len() - n,
    {
        proof {
            assert(n < rows.len());
            lemma_filter_in_place(rows, keep, n);
        }
        let ghost current = store@.reservations;
        assert(current[i as int] == store.reservations@[i as int]@);
        if str_eq(store.reservations[i].record.transaction_id.as_str(), transaction_id) {
            store.reservations.remove(i);
            assert(store@.reservations =~= current.remove(i as int));
        } else {
            i += 1;
        }
        proof {
            n = n + 1;
        }
    }
    proof {
        assert(n == rows.len()) by {
            if n < rows.len() {
                assert(store@.reservations.len() > i);
            }
        }
        assert(rows.take(n) =~= rows);
        assert(rows.filter(keep) + rows.skip(n) =~= rows.filter(keep));
        lemma_release_keeps_well_formed(old(store)@, transaction_id@);
    }
}

/// Releases everything a transaction holds. Gated.
pub fn release_reservations(store: &mut TransactionStore, transaction_id: &str) -> (result: Result<
    (),
    SyncSqliteError,
>)
    requires
        old(store)@.well_formed(),
    ensures
        final(store)@.well_formed(),
        outcome(result) == gate(),
        final(store)@ == match gate() {
            Ok(()) => released(old(store)@, transaction_id@),
            Err(_) => old(store)@,
        },
{
    match require_execution_enabled() {
        Ok(()) => {
            release_reservations_unchecked(store, transaction_id);
            Ok(())
        },
        Err(error) => Err(error),
    }
}

/// A change at the key touches the held row: one of the two lies at or below
/// the other.
pub open spec fn touches(key: Seq<u8>, row: HeldRow) -> bool {
    in_range(key, row.start, row.end) || in_range(row.start, key, end_of(key))
}

/// The transaction holds a reservation of the group that one of the paths
/// touches.
pub open spec fn holds_touched(
    held: Seq<HeldRow>,
    group: Seq<char>,
    paths: Seq<Seq<char>>,
    id: Seq<char>,
) -> bool {
    exists|p: int, h: int|
        #![trigger paths[p], held[h]]
        0 <= p < paths.len() && 0 <= h < held.len() && is_touched_holder(
            held[h],
            group,
            paths[p],
            id,
        )
}

/// The row is the transaction's, in the group, and a change at the path touches
/// it.
pub open spec fn is_touched_holder(
    row: HeldRow,
    group: Seq<char>,
    path: Seq<char>,
    id: Seq<char>,
) -> bool {
    &&& row.reservation.group_id == group
    &&& row.reservation.transaction_id == id
    &&& touches(key_of(path)->Ok_0, row)
}

/// Why the first touched path without a key has none.
pub open spec fn first_unkeyed_path(paths: Seq<Seq<char>>) -> Option<Failure> {
    match first_where(paths, |path: Seq<char>| key_of(path) is Err) {
        Some(path) => Some(key_of(path)->Err_0),
        None => None,
    }
}

/// `holders` names each transaction that holds something touched exactly once.
pub open spec fn is_holder_list(
    holders: Seq<Seq<char>>,
    held: Seq<HeldRow>,
    group: Seq<char>,
    paths: Seq<Seq<char>>,
) -> bool {
    &&& holders.no_duplicates()
    &&& forall|id: Seq<char>| #[trigger] holders.contains(id) <==> holds_touched(held, group, paths, id)
}

/// The texts of some string slices.
pub open spec fn str_texts(paths: Seq<&str>) -> Seq<Seq<char>> {
    paths.map_values(|path: &str| path@)
}

/// The transactions that hold a reservation one of the touched paths falls
/// into, or that falls under one of them.
pub fn transactions_holding_touched_paths(
    store: &TransactionStore,
    group_id: &str,
    touched_paths: &[&str],
) -> (result: Result<Vec<String>, SyncSqliteError>)
    ensures
        match result {
            Ok(holders) => {
                &&& first_unkeyed_path(str_texts(touched_paths@)) is None
                &&& is_holder_list(
                    views(holders@),
                    store@.reservations,
                    group_id@,
                    str_texts(touched_paths@),
                )
            },
            Err(error) => first_unkeyed_path(str_texts(touched_paths@)) == Some(error@),
        },
{
    let ghost held = store@.reservations;
    let ghost paths = str_texts(touched_paths@);
    let ghost pred = |path: Seq<char>| key_of(path) is Err;
    let mut holders: Vec<String> = Vec::new();
    let mut p: usize = 0;
    assert(views(holders@) =~= Seq::<Seq<char>>::empty());
    while p < touched_paths.len()
        invariant
            p <= touched_paths@.len(),
            held == store@.reservations,
            paths == str_texts(touched_paths@),
            pred == (|path: Seq<char>| key_of(path) is Err),
            forall|j: int| 0 <= j < p ==> !pred(#[trigger] paths[j]),
            is_holder_list(views(holders@), held, group_id@, paths.take(p as int)),
        decreases touched_paths@.len() - p,
    {
        assert(paths[p as int] == touched_paths@[p as int]@);
        let start = match path_key(touched_paths[p]) {
            Ok(start) => start,
            Err(error) => {
                proof {
                    lemma_first_where_at(paths, pred, p as int);
                }
                return Err(error);
            },
        };
        let end = subtree_end_key(start.as_slice());
        let ghost earlier = paths.take(p as int);
        let ghost path = paths[p as int];
        let mut h: usize = 0;
        while h < store.reservations.len()
            invariant
                h <= store.reservations@.len(),
                held == store@.reservations,
                key_of(path) == Ok::<_, Failure>(start@),
                end@ == end_of(start@),
                views(holders@).no_duplicates(),
                forall|id: Seq<char>| #[trigger]
                    views(holders@).contains(id) <==> (holds_touched(held, group_id@, earlier, id)
                        || exists|k: int|
                        0 <= k < h && is_touched_holder(#[trigger] held[k], group_id@, path, id)),
            decreases store.reservations@.len() - h,
        {
            let row = &store.reservations[h];
            assert(held[h as int] == row@);
            let below = !bytes_less(start.as_slice(), row.path_key.as_slice()) && bytes_less(
                start.as_slice(),
                row.subtree_end_key.as_slice(),
            );
            let above = !bytes_less(row.path_key.as_slice(), start.as_slice()) && bytes_less(
                row.path_key.as_slice(),
                end.as_slice(),
            );
            proof {
                lemma_bytes_lt_total(start@, row@.start);
                if bytes_lt(row@.start, start@) {
                    lemma_bytes_lt_asymmetric(row@.start, start@);
                }
                if bytes_lt(start@, row@.start) {
                    lemma_bytes_lt_asymmetric(start@, row@.start);
                }
                lemma_bytes_lt_irreflexive(start@);
                assert((below || above) == touches(start@, row@));
            }
            let ghost before = views(holders@);
            if str_eq(row.record.group_id.as_str(), group_id) && (below || above) {
                let id = &row.record.transaction_id;
                let known = contains_string(&holders, id.as_str());
                if !known {
                    holders.push(id.clone());
                    assert(views(holders@) =~= before.push(id@));
                }
                proof {
                    assert(is_touched_holder(held[h as int], group_id@, path, id@));
                    if known {
                        assert(views(holders@) == before);
                    } else {
                        lemma_push_contains(before, id@);
                    }
                    assert forall|other: Seq<char>| #[trigger] views(holders@).contains(other) <==> (
                    holds_touched(held, group_id@, earlier, other) || exists|k: int|
                        0 <= k < h + 1 && is_touched_holder(
                            #[trigger] held[k],
                            group_id@,
                            path,
                            other,
                        )) by {
                        assert(before.contains(other) || other == id@ <==> views(
                            holders@,
                        ).contains(other));
                        if exists|k: int|
                            0 <= k < h + 1 && is_touched_holder(
                                #[trigger] held[k],
                                group_id@,
                                path,
                                other,
                            ) {
                            let k = choose|k: int|
                                0 <= k < h + 1 && is_touched_holder(
                                    #[trigger] held[k],
                                    group_id@,
                                    path,
                                    other,
                                );
                            if k < h {
                                assert(before.contains(other));
                            }
                        }
                    }
                }
            } else {
                proof {
                    assert forall|other: Seq<char>| #[trigger] views(holders@).contains(other) <==> (
                    holds_touched(held, group_id@, earlier, other) || exists|k: int|
                        0 <= k < h + 1 && is_touched_holder(
                            #[trigger] held[k],
                            group_id@,
                            path,
                            other,
                        )) by {
                        assert(!is_touched_holder(held[h as int], group_id@, path, other));
                        if exists|k: int|
                            0 <= k < h + 1 && is_touched_holder(
                                #[trigger] held[k],
                                group_id@,
                                path,
                                other,
                            ) {
                            let k = choose|k: int|
                                0 <= k < h + 1 && is_touched_holder(
                                    #[trigger] held[k],
                                    group_id@,
                                    path,
                                    other,
                                );
                            assert(k < h);
                        }
                    }
                }
            }
            h += 1;
        }
        proof {
            let wider = paths.take(p + 1);
            assert forall|id: Seq<char>| #[trigger] views(holders@).contains(id) <==> holds_touched(
                held,
                group_id@,
                wider,
                id,
            ) by {
                lemma_one_path_more(held, group_id@, paths, p as int, id);
            }
        }
        p += 1;
    }
    proof {
        lemma_first_where_none(paths, pred);
        assert(paths.take(paths.len() as int) =~= paths);
    }
    Ok(holders)
}

proof fn lemma_push_contains(texts: Seq<Seq<char>>, text: Seq<char>)
    requires
        texts.no_duplicates(),
        !texts.contains(text),
    ensures
        texts.push(text).no_duplicates(),
        forall|other: Seq<char>| #[trigger]
            texts.push(text).contains(other) <==> texts.contains(other) || other == text,
{
    let grown = texts.push(text);
    assert forall|other: Seq<char>| #[trigger] grown.contains(other) <==> texts.contains(other)
        || other == text by {
        if texts.contains(other) {
            let k = choose|k: int| 0 <= k < texts.len() && texts[k] == other;
            assert(grown[k] == other);
        }
        if other == text {
            assert(grown[texts.len() as int] == text);
        }
    }
}

proof fn lemma_one_path_more(
    held: Seq<HeldRow>,
    group: Seq<char>,
    paths: Seq<Seq<char>>,
    p: int,
    id: Seq<char>,
)
    requires
        0 <= p < paths.len(),
    ensures
        holds_touched(held, group, paths.take(p + 1), id) <==> (holds_touched(
            held,
            group,
            paths.take(p),
            id,
        ) || exists|k: int|
            0 <= k < held.len() && is_touched_holder(#[trigger] held[k], group, paths[p], id)),
{
    let earlier = paths.take(p);
    let wider = paths.take(p + 1);
    if holds_touched(held, group, wider, id) {
        let (q, h) = choose|q: int, h: int|
            #![trigger wider[q], held[h]]
            0 <= q < wider.len() && 0 <= h < held.len() && is_touched_holder(
                held[h],
                group,
                wider[q],
                id,
            );
        if q < p {
            assert(earlier[q] == wider[q]);
        }
    }
    if holds_touched(held, group, earlier, id) {
        let (q, h) = choose|q: int, h: int|
            #![trigger earlier[q], held[h]]
            0 <= q < earlier.len() && 0 <= h < held.len() && is_touched_holder(
                held[h],
                group,
                earlier[q],
                id,
            );
        assert(wider[q] == earlier[q]);
    }
    if exists|k: int| 0 <= k < held.len() && is_touched_holder(#[trigger] held[k], group, paths[p], id) {
        let k = choose|k: int|
            0 <= k < held.len() && is_touched_holder(#[trigger] held[k], group, paths[p], id);
        assert(wider[p] == paths[p]);
    }
}

/// Whether a list holds a string.
pub fn contains_string(strings: &Vec<String>, text: &str) -> (found: bool)
    ensures
        found == views(strings@).contains(text@),
{
    let ghost all = views(strings@);
    let mut i: usize = 0;
    while i < strings.len()
        invariant
            i <= strings@.len(),
            all == views(strings@),
            forall|j: int| 0 <= j < i ==> #[trigger] all[j] != text@,
        decreases strings@.len() - i,
    {
        assert(all[i as int] == strings@[i as int]@);
        if str_eq(strings[i].as_str(), text) {
            assert(all[i as int] == text@);
            return true;
        }
        i += 1;
    }
    false
}

/// The rows with the fences of all the named transactions advanced once.
pub open spec fn advanced_all(rows: Seq<TransactionRow>, ids: Seq<Seq<char>>) -> Seq<
    TransactionRow,
> {
    set_where(
        rows,
        |row: TransactionRow| ids.contains(row.transaction_id),
        |row: TransactionRow|
            TransactionRow { execution_generation: row.execution_generation + 1, ..row },
    )
}

/// What advancing the fences of `holders` one after the other does: a holder
/// that is no transaction of the journal stops it there.
pub open spec fn holders_bumped(
    holders: Seq<Seq<char>>,
    before: Journal,
    after: Journal,
    result: Result<(), SyncSqliteError>,
) -> bool {
    match result {
        Ok(()) => {
            &&& forall|i: int|
                0 <= i < holders.len() ==> transaction_of(
                    before.transactions,
                    #[trigger] holders[i],
                ) is Some
            &&& after == (Journal {
                transactions: advanced_all(before.transactions, holders),
                ..before
            })
        },
        Err(error) => exists|k: int|
            #![trigger holders[k]]
            {
                &&& 0 <= k < holders.len()
                &&& transaction_of(before.transactions, holders[k]) is None
                &&& forall|i: int|
                    0 <= i < k ==> transaction_of(before.transactions, #[trigger] holders[i]) is Some
                &&& error@ == no_such_transaction(holders[k])
                &&& after == (Journal {
                    transactions: advanced_all(before.transactions, holders.take(k)),
                    ..before
                })
            },
    }
}

proof fn lemma_advance_one_more(rows: Seq<TransactionRow>, ids: Seq<Seq<char>>, k: int)
    requires
        0 <= k < ids.len(),
        ids.no_duplicates(),
    ensures
        advanced(advanced_all(rows, ids.take(k)), ids[k])
            == advanced_all(rows, ids.take(k + 1)),
{
    let earlier = ids.take(k);
    let wider = ids.take(k + 1);
    let left = advanced(advanced_all(rows, earlier), ids[k]);
    let right = advanced_all(rows, wider);
    assert forall|i: int| 0 <= i < rows.len() implies left[i] == right[i] by {
        let id = rows[i].transaction_id;
        if earlier.contains(id) {
            let j = choose|j: int| 0 <= j < earlier.len() && earlier[j] == id;
            assert(wider[j] == id);
            assert(ids[j] != ids[k]);
        }
        if id == ids[k] {
            assert(wider[k] == id);
        }
        if wider.contains(id) && id != ids[k] {
            let j = choose|j: int| 0 <= j < wider.len() && wider[j] == id;
            assert(earlier[j] == id);
        }
    }
    assert(left =~= right);
}

proof fn lemma_advanced_all_keeps_rows(rows: Seq<TransactionRow>, ids: Seq<Seq<char>>, id: Seq<char>)
    ensures
        match transaction_of(rows, id) {
            None => transaction_of(advanced_all(rows, ids), id) is None,
            Some(row) => transaction_of(advanced_all(rows, ids), id) == Some(
                if ids.contains(id) {
                    TransactionRow { execution_generation: row.execution_generation + 1, ..row }
                } else {
                    row
                },
            ),
        },
    decreases rows.len(),
{
    let after = advanced_all(rows, ids);
    if rows.len() > 0 {
        if rows[0].transaction_id != id {
            lemma_advanced_all_keeps_rows(rows.skip(1), ids, id);
            assert(after.skip(1) =~= advanced_all(rows.skip(1), ids));
        }
    }
}

/// Advances the fence of each holder once.
fn bump_holders_unchecked(store: &mut TransactionStore, holders: &Vec<String>) -> (result: Result<
    (),
    SyncSqliteError,
>)
    requires
        old(store)@.well_formed(),
        views(holders@).no_duplicates(),
        forall|i: int|
            0 <= i < holders@.len() ==> can_advance(
                old(store)@.transactions,
                #[trigger] views(holders@)[i],
            ),
    ensures
        final(store)@.well_formed(),
        holders_bumped(views(holders@), old(store)@, final(store)@, result),
{
    let ghost before = store@;
    let ghost ids = views(holders@);
    let mut k: usize = 0;
    proof {
        assert(advanced_all(before.transactions, ids.take(0)) =~= before.transactions);
    }
    while k < holders.len()
        invariant
            k <= holders@.len(),
            ids == views(holders@),
            ids.no_duplicates(),
            before == old(store)@,
            store@.well_formed(),
            forall|i: int|
                0 <= i < holders@.len() ==> can_advance(
                    before.transactions,
                    #[trigger] ids[i],
                ),
            forall|i: int|
                0 <= i < k ==> transaction_of(before.transactions, #[trigger] ids[i]) is Some,
            store@ == (Journal {
                transactions: advanced_all(before.transactions, ids.take(k as int)),
                ..before
            }),
        decreases holders@.len() - k,
    {
        assert(ids[k as int] == holders@[k as int]@);
        proof {
            lemma_advanced_all_keeps_rows(before.transactions, ids.take(k as int), ids[k as int]);
            lemma_advance_one_more(before.transactions, ids, k as int);
            assert(!ids.take(k as int).contains(ids[k as int])) by {
                if ids.take(k as int).contains(ids[k as int]) {
                    let j = choose|j: int|
                        0 <= j < k && ids.take(k as int)[j] == ids[k as int];
                    assert(ids[j] == ids[k as int]);
                }
            }
            assert(can_advance(before.transactions, ids[k as int]));
        }
        match increment_execution_generation_unchecked(store, holders[k].as_str()) {
            Ok(_) => {},
            Err(error) => {
                assert(transaction_of(before.transactions, ids[k as int]) is None);
                return Err(error);
            },
        }
        k += 1;
    }
    assert(ids.take(ids.len() as int) =~= ids);
    Ok(())
}

/// What fencing the holders of touched paths answers and does: the fence of
/// each holder advances once, and the holders are named.
pub open spec fn touched_bumped(
    before: Journal,
    group: Seq<char>,
    paths: Seq<Seq<char>>,
    after: Journal,
    result: Result<Vec<String>, SyncSqliteError>,
) -> bool {
    match first_unkeyed_path(paths) {
        Some(failure) => result is Err && result->Err_0@ == failure && after == before,
        None => exists|holders: Seq<Seq<char>>| #[trigger]
            is_holder_list(holders, before.reservations, group, paths) && match result {
                Ok(named) => views(named@) == holders && holders_bumped(
                    holders,
                    before,
                    after,
                    Ok(()),
                ),
                Err(error) => holders_bumped(holders, before, after, Err(error)),
            },
    }
}

/// Every holder's generation counter can still be advanced.
pub open spec fn holders_can_advance(
    journal: Journal,
    group: Seq<char>,
    paths: Seq<Seq<char>>,
) -> bool {
    forall|id: Seq<char>| #[trigger]
        holds_touched(journal.reservations, group, paths, id)
            ==> can_advance(journal.transactions, id)
}

/// Fences every transaction that holds part of what a change touches, whether or
/// not execution is enabled.
pub fn bump_transactions_for_touched_paths_unchecked(
    store: &mut TransactionStore,
    group_id: &str,
    touched_paths: &[&str],
) -> (result: Result<Vec<String>, SyncSqliteError>)
    requires
        old(store)@.well_formed(),
        holders_can_advance(old(store)@, group_id@, str_texts(touched_paths@)),
    ensures
        final(store)@.well_formed(),
        touched_bumped(
            old(store)@,
            group_id@,
            str_texts(touched_paths@),
            final(store)@,
            result,
        ),
{
    let holders = match transactions_holding_touched_paths(store, group_id, touched_paths) {
        Ok(holders) => holders,
        Err(error) => {
            return Err(error);
        },
    };
    proof {
        assert forall|i: int| 0 <= i < holders@.len() implies can_advance(
            old(store)@.transactions,
            #[trigger] views(holders@)[i],
        ) by {
            assert(views(holders@).contains(views(holders@)[i]));
        }
    }
    match bump_holders_unchecked(store, &holders) {
        Ok(()) => Ok(holders),
        Err(error) => Err(error),
    }
}

/// Fences every transaction that holds part of what a change touches. Where
/// nothing is held this needs no execution; otherwise execution must be enabled.
pub fn bump_transactions_for_touched_paths(
    store: &mut TransactionStore,
    group_id: &str,
    touched_paths: &[&str],
) -> (result: Result<Vec<String>, SyncSqliteError>)
    requires
        old(store)@.well_formed(),
        holders_can_advance(old(store)@, group_id@, str_texts(touched_paths@)),
    ensures
        final(store)@.well_formed(),
        ({
            let paths = str_texts(touched_paths@);
            if gate() is Err && first_unkeyed_path(paths) is None && exists|id: Seq<char>| #[trigger]
                holds_touched(old(store)@.reservations, group_id@, paths, id) {
                result is Err && result->Err_0@ == gate()->Err_0 && final(store)@ == old(store)@
            } else {
                touched_bumped(old(store)@, group_id@, paths, final(store)@, result)
            }
        }),
{
    let holders = match transactions_holding_touched_paths(store, group_id, touched_paths) {
        Ok(holders) => holders,
        Err(error) => {
            return Err(error);
        },
    };
    let ghost paths = str_texts(touched_paths@);
    let ghost ids = views(holders@);
    if holders.len() == 0 {
        proof {
            assert(ids =~= Seq::<Seq<char>>::empty());
            assert forall|id: Seq<char>| !(#[trigger] holds_touched(
                old(store)@.reservations,
                group_id@,
                paths,
                id,
            )) by {
                assert(!ids.contains(id));
            }
            assert(advanced_all(old(store)@.transactions, ids) =~= old(store)@.transactions);
            assert(holders_bumped(ids, old(store)@, store@, Ok(())));
        }
        return Ok(holders);
    }
    proof {
        assert(ids.contains(ids[0]));
        assert(holds_touched(old(store)@.reservations, group_id@, paths, ids[0]));
    }
    match require_execution_enabled() {
        Ok(()) => {},
        Err(error) => {
            return Err(error);
        },
    }
    proof {
        assert forall|i: int| 0 <= i < holders@.len() implies can_advance(
            old(store)@.transactions,
            #[trigger] ids[i],
        ) by {
            assert(ids.contains(ids[i]));
        }
    }
    match bump_holders_unchecked(store, &holders) {
        Ok(()) => Ok(holders),
        Err(error) => Err(error),
    }
}

/// Among the reservations held before a batch was granted, none excludes any
/// reservation of the batch: what is granted is free of conflict.
pub proof fn law_granted_reservations_conflict_with_nothing_held(
    journal: Journal,
    requests: Seq<RequestRow>,
    ids: Seq<Seq<char>>,
    order: Seq<int>,
    now: int,
    conflicts: ScopeConflicts,
    r: int,
    h: int,
)
    requires
        is_request_order(order, requests),
        acquisition(journal, requests, ids, order, now, conflicts) is Ok,
        0 <= r < requests.len(),
        0 <= h < journal.reservations.len(),
    ensures
        !blocks(requests[r], conflicts)(journal.reservations[h]),
{
    let held = journal.reservations;
    let blocked = |i: int| any(held, blocks(requests[i], conflicts));
    lemma_first_where(order, blocked);
    lemma_order_covers(order, requests, r);
    let k = choose|k: int| 0 <= k < order.len() && order[k] == r;
    assert(!blocked(order[k]));
}

/// An order over all requests names each of them.
pub proof fn lemma_order_covers(order: Seq<int>, requests: Seq<RequestRow>, r: int)
    requires
        is_request_order(order, requests),
        0 <= r < requests.len(),
    ensures
        exists|k: int| 0 <= k < order.len() && order[k] == r,
{
    assert(order.no_duplicates()) by {
        assert forall|j: int, k: int|
            0 <= j < order.len() && 0 <= k < order.len() && j != k implies order[j] != order[k] by {
            if j < k {
                lemma_order_is_distinct(order, requests, j, k);
            } else {
                lemma_order_is_distinct(order, requests, k, j);
            }
        }
    }
    let all = vstd::set_lib::set_int_range(0, requests.len() as int);
    let named = order.to_set();
    vstd::set_lib::lemma_int_range(0, requests.len() as int);
    order.unique_seq_to_set();
    assert(named.subset_of(all)) by {
        assert forall|i: int| named.contains(i) implies all.contains(i) by {
            let k = choose|k: int| 0 <= k < order.len() && order[k] == i;
            assert(0 <= order[k] < requests.len());
        }
    }
    vstd::set_lib::lemma_subset_equality(named, all);
    assert(all.contains(r));
    assert(named.contains(r));
}

/// A request that a held reservation excludes is never granted, and neither is
/// any other request of its batch.
pub proof fn law_an_excluded_request_refuses_its_whole_batch(
    journal: Journal,
    requests: Seq<RequestRow>,
    ids: Seq<Seq<char>>,
    order: Seq<int>,
    now: int,
    conflicts: ScopeConflicts,
    r: int,
    h: int,
)
    requires
        is_request_order(order, requests),
        0 <= r < requests.len(),
        0 <= h < journal.reservations.len(),
        blocks(requests[r], conflicts)(journal.reservations[h]),
    ensures
        acquisition(journal, requests, ids, order, now, conflicts) is Err,
{
    if acquisition(journal, requests, ids, order, now, conflicts) is Ok {
        law_granted_reservations_conflict_with_nothing_held(
            journal,
            requests,
            ids,
            order,
            now,
            conflicts,
            r,
            h,
        );
    }
}

/// A held reservation excludes a request, where the table says the scopes
/// exclude each other, exactly when one of the two paths is the other one or
/// lies below it, however the separators are written.
pub proof fn law_exclusion_follows_the_path_hierarchy(
    held: HeldRow,
    request: RequestRow,
    conflicts: ScopeConflicts,
)
    requires
        holds_its_range(held),
        key_of(request.path) is Ok,
        held.reservation.group_id == request.group_id,
        conflicts.lists(request.scope, held.reservation.scope),
    ensures
        blocks(request, conflicts)(held) <==> {
            ||| at_or_below(
                reservation_segments(request.path)->Ok_0,
                reservation_segments(held.reservation.path)->Ok_0,
            )
            ||| at_or_below(
                reservation_segments(held.reservation.path)->Ok_0,
                reservation_segments(request.path)->Ok_0,
            )
        },
{
    law_ranges_overlap_along_one_line_of_descent(
        request.path,
        held.reservation.path,
    );
}

/// A change touches a held reservation exactly when the changed path is the
/// reserved one, lies below it, or is an ancestor of it.
pub proof fn law_touching_follows_the_path_hierarchy(held: HeldRow, path: Seq<char>)
    requires
        holds_its_range(held),
        key_of(path) is Ok,
    ensures
        touches(key_of(path)->Ok_0, held) <==> {
            ||| at_or_below(
                reservation_segments(path)->Ok_0,
                reservation_segments(held.reservation.path)->Ok_0,
            )
            ||| at_or_below(
                reservation_segments(held.reservation.path)->Ok_0,
                reservation_segments(path)->Ok_0,
            )
        },
{
    law_key_range_is_the_subtree(held.reservation.path, path);
    law_key_range_is_the_subtree(path, held.reservation.path);
}

/// After a release nothing of the transaction is held, and every other
/// reservation still is.
pub proof fn law_release_frees_exactly_what_was_held(journal: Journal, id: Seq<char>, row: HeldRow)
    ensures
        released(journal, id).reservations.contains(row) <==> journal.reservations.contains(row)
            && row.reservation.transaction_id != id,
{
    let keep = |row: HeldRow| !is_held_by(id)(row);
    lemma_filter_members(journal.reservations, keep, row);
}

/// Once the holders of touched paths were fenced, a plan that holder built
/// before is refused, the plan at its new generation is not, and a transaction
/// that holds nothing touched keeps its fence.
pub proof fn law_a_bump_fences_every_holder_and_no_one_else(
    before: Journal,
    holders: Seq<Seq<char>>,
    group: Seq<char>,
    paths: Seq<Seq<char>>,
    after: Journal,
    id: Seq<char>,
)
    requires
        is_holder_list(holders, before.reservations, group, paths),
        holders_bumped(holders, before, after, Ok(())),
        transaction_of(before.transactions, id) is Some,
    ensures
        ({
            let generation = transaction_of(before.transactions, id)->0.execution_generation;
            if holds_touched(before.reservations, group, paths, id) {
                &&& fence(after.transactions, id, generation) is Err
                &&& fence(after.transactions, id, generation + 1) is Ok
            } else {
                fence(after.transactions, id, generation) is Ok
            }
        }),
{
    lemma_advanced_all_keeps_rows(before.transactions, holders, id);
    assert(holders.contains(id) <==> holds_touched(before.reservations, group, paths, id));
}

} // verus!
