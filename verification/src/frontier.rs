//! Frontiers: sets of changes, kept in byte order with each change once.

use vstd::prelude::*;

use crate::recursive_operation::is_unknown;
use crate::stored_rows::lemma_array32;
use crate::text::{
    bytes_less, bytes_lt, lemma_bytes_lt_asymmetric, lemma_bytes_lt_irreflexive,
    lemma_bytes_lt_total, lemma_bytes_lt_transitive,
};
use crate::transaction_rows::ChangeHash;

verus! {

/// The changes are in byte order, each once.
pub open spec fn is_sorted_set(hashes: Seq<ChangeHash>) -> bool {
    forall|i: int, j: int|
        #![trigger hashes[i], hashes[j]]
        0 <= i < j < hashes.len() ==> bytes_lt(hashes[i].0@, hashes[j].0@)
}

/// The list is a normal form of the given changes.
pub open spec fn is_normal_form(listed: Seq<ChangeHash>, given: Seq<ChangeHash>) -> bool {
    &&& is_sorted_set(listed)
    &&& forall|hash: ChangeHash| #[trigger] listed.contains(hash) <==> given.contains(hash)
}

/// Hashes of the same bytes are the same.
proof fn lemma_same_bytes(a: ChangeHash, b: ChangeHash)
    requires
        a.0@ == b.0@,
    ensures
        a == b,
{
    lemma_array32(a.0);
    lemma_array32(b.0);
}

/// Puts a change into the set, unless it is there.
fn insert_sorted(set: &mut Vec<ChangeHash>, hash: &ChangeHash)
    requires
        is_sorted_set(old(set)@),
    ensures
        is_sorted_set(final(set)@),
        forall|other: ChangeHash| #[trigger]
            final(set)@.contains(other) <==> old(set)@.contains(other) || other == *hash,
{
    let ghost before = set@;
    let mut at: usize = 0;
    while at < set.len() && bytes_less(
        vstd::array::array_as_slice(&set[at].0),
        vstd::array::array_as_slice(&hash.0),
    )
        invariant
            at <= set@.len(),
            set@ == before,
            forall|i: int| #![trigger before[i]] 0 <= i < at ==> bytes_lt(before[i].0@, hash.0@),
        decreases set@.len() - at,
    {
        at += 1;
    }
    if at < set.len() && !bytes_less(
        vstd::array::array_as_slice(&hash.0),
        vstd::array::array_as_slice(&set[at].0),
    ) {
        proof {
            lemma_bytes_lt_total(before[at as int].0@, hash.0@);
            lemma_same_bytes(before[at as int], *hash);
            assert(before.contains(*hash));
        }
        return;
    }
    set.insert(at, *hash);
    let ghost after = set@;
    proof {
        assert forall|i: int, j: int|
            #![trigger after[i], after[j]]
            0 <= i < j < after.len() implies bytes_lt(after[i].0@, after[j].0@) by {
            if j < at {
                assert(after[i] == before[i] && after[j] == before[j]);
            } else if j == at {
                assert(after[i] == before[i]);
            } else if i < at {
                assert(after[i] == before[i] && after[j] == before[j - 1]);
            } else if i == at {
                assert(after[j] == before[j - 1]);
                if j - 1 > at {
                    assert(bytes_lt(before[at as int].0@, before[j - 1].0@));
                    lemma_bytes_lt_transitive(hash.0@, before[at as int].0@, before[j - 1].0@);
                }
            } else {
                assert(after[i] == before[i - 1] && after[j] == before[j - 1]);
            }
        }
        assert forall|other: ChangeHash| #[trigger]
            after.contains(other) <==> before.contains(other) || other == *hash by {
            if before.contains(other) {
                let k = choose|k: int| 0 <= k < before.len() && before[k] == other;
                if k < at {
                    assert(after[k] == other);
                } else {
                    assert(after[k + 1] == other);
                }
            }
            if other == *hash {
                assert(after[at as int] == other);
            }
            if after.contains(other) {
                let k = choose|k: int| 0 <= k < after.len() && after[k] == other;
                if k < at {
                    assert(before[k] == other);
                } else if k > at {
                    assert(before[k - 1] == other);
                }
            }
        }
    }
}

/// Puts every change of a list into the set.
fn extend_sorted(set: &mut Vec<ChangeHash>, hashes: &[ChangeHash])
    requires
        is_sorted_set(old(set)@),
    ensures
        is_sorted_set(final(set)@),
        forall|other: ChangeHash| #[trigger]
            final(set)@.contains(other) <==> old(set)@.contains(other) || hashes@.contains(other),
{
    let ghost before = set@;
    let mut i: usize = 0;
    while i < hashes.len()
        invariant
            i <= hashes@.len(),
            is_sorted_set(set@),
            forall|other: ChangeHash| #[trigger]
                set@.contains(other) <==> before.contains(other) || hashes@.take(
                    i as int,
                ).contains(other),
        decreases hashes@.len() - i,
    {
        let ghost earlier = set@;
        insert_sorted(set, &hashes[i]);
        proof {
            let shorter = hashes@.take(i as int);
            let longer = hashes@.take(i + 1);
            assert(longer =~= shorter.push(hashes@[i as int]));
            assert forall|other: ChangeHash| #[trigger]
                set@.contains(other) <==> before.contains(other) || longer.contains(other) by {
                assert(earlier.contains(other) <==> before.contains(other) || shorter.contains(
                    other,
                ));
                if shorter.contains(other) {
                    let k = choose|k: int| 0 <= k < shorter.len() && shorter[k] == other;
                    assert(longer[k] == other);
                }
                assert(longer[i as int] == hashes@[i as int]);
                if longer.contains(other) && !shorter.contains(other) {
                    let k = choose|k: int| 0 <= k < longer.len() && longer[k] == other;
                    if k < i {
                        assert(shorter[k] == other);
                    }
                }
            }
        }
        i += 1;
    }
    assert(hashes@.take(hashes@.len() as int) =~= hashes@);
}

/// The normal form in which an acknowledged frontier is recorded: in byte
/// order, each change once.
pub fn normalized_frontier(frontier: &[ChangeHash]) -> (normalized: Vec<ChangeHash>)
    ensures
        is_normal_form(normalized@, frontier@),
{
    let mut normalized: Vec<ChangeHash> = Vec::new();
    extend_sorted(&mut normalized, frontier);
    normalized
}

/// A frontier has one normal form: two lists of the same changes, in whatever
/// order and however often they name each, are recorded alike.
pub proof fn law_a_frontier_has_one_normal_form(
    a: Seq<ChangeHash>,
    b: Seq<ChangeHash>,
    given_a: Seq<ChangeHash>,
    given_b: Seq<ChangeHash>,
)
    requires
        is_normal_form(a, given_a),
        is_normal_form(b, given_b),
        forall|hash: ChangeHash| #[trigger] given_a.contains(hash) <==> given_b.contains(hash),
    ensures
        a == b,
{
    lemma_sorted_sets_agree(a, b);
}

proof fn lemma_sorted_sets_agree(a: Seq<ChangeHash>, b: Seq<ChangeHash>)
    requires
        is_sorted_set(a),
        is_sorted_set(b),
        forall|hash: ChangeHash| #[trigger] a.contains(hash) <==> b.contains(hash),
    ensures
        a == b,
    decreases a.len(),
{
    if a.len() == 0 {
        if b.len() > 0 {
            assert(b.contains(b[0]));
            assert(a.contains(b[0]));
        }
        assert(a =~= b);
    } else if b.len() == 0 {
        assert(a.contains(a[0]));
        assert(b.contains(a[0]));
    } else {
        assert(a.contains(a[0]) && b.contains(b[0]));
        assert(b.contains(a[0]) && a.contains(b[0]));
        let i = choose|i: int| 0 <= i < b.len() && b[i] == a[0];
        let j = choose|j: int| 0 <= j < a.len() && a[j] == b[0];
        if i > 0 {
            assert(bytes_lt(b[0].0@, b[i].0@));
            if j > 0 {
                assert(bytes_lt(a[0].0@, a[j].0@));
                lemma_bytes_lt_asymmetric(a[0].0@, b[0].0@);
            } else {
                lemma_bytes_lt_irreflexive(a[0].0@);
            }
        }
        assert(a[0] == b[0]);
        let a1 = a.skip(1);
        let b1 = b.skip(1);
        assert forall|k: int, m: int|
            #![trigger a1[k], a1[m]]
            0 <= k < m < a1.len() implies bytes_lt(a1[k].0@, a1[m].0@) by {
            assert(a1[k] == a[k + 1] && a1[m] == a[m + 1]);
        }
        assert forall|k: int, m: int|
            #![trigger b1[k], b1[m]]
            0 <= k < m < b1.len() implies bytes_lt(b1[k].0@, b1[m].0@) by {
            assert(b1[k] == b[k + 1] && b1[m] == b[m + 1]);
        }
        assert forall|hash: ChangeHash| #[trigger] a1.contains(hash) <==> b1.contains(hash) by {
            if a1.contains(hash) {
                let k = choose|k: int| 0 <= k < a1.len() && a1[k] == hash;
                assert(a[k + 1] == hash);
                assert(a.contains(hash));
                assert(b.contains(hash));
                let m = choose|m: int| 0 <= m < b.len() && b[m] == hash;
                assert(bytes_lt(a[0].0@, a[k + 1].0@));
                lemma_bytes_lt_irreflexive(hash.0@);
                assert(m > 0);
                assert(b1[m - 1] == hash);
            }
            if b1.contains(hash) {
                let k = choose|k: int| 0 <= k < b1.len() && b1[k] == hash;
                assert(b[k + 1] == hash);
                assert(b.contains(hash));
                assert(a.contains(hash));
                let m = choose|m: int| 0 <= m < a.len() && a[m] == hash;
                assert(bytes_lt(b[0].0@, b[k + 1].0@));
                lemma_bytes_lt_irreflexive(hash.0@);
                assert(m > 0);
                assert(a1[m - 1] == hash);
            }
        }
        lemma_sorted_sets_agree(a1, b1);
        assert forall|k: int| 0 <= k < a.len() implies a[k] == b[k] by {
            if k > 0 {
                assert(a[k] == a1[k - 1] && b[k] == b1[k - 1]);
            }
        }
        assert(a.len() == b.len()) by {
            assert(a1.len() == b1.len());
        }
        assert(a =~= b);
    }
}

/// One of the known bases holds the change.
pub open spec fn in_a_basis(bases: Seq<Option<Vec<ChangeHash>>>, hash: ChangeHash) -> bool {
    exists|i: int|
        #![trigger bases[i]]
        0 <= i < bases.len() && (bases[i] matches Some(basis) && basis@.contains(hash))
}

/// Some basis is unknown.
pub open spec fn some_unknown(bases: Seq<Option<Vec<ChangeHash>>>) -> bool {
    exists|i: int| #![trigger bases[i]] 0 <= i < bases.len() && is_unknown(bases[i])
}

/// Whether the hash is a parent of a recursive operation's parts.
pub open spec fn is_parent(
    bases: Seq<Option<Vec<ChangeHash>>>,
    frontier: Seq<ChangeHash>,
    hash: ChangeHash,
) -> bool {
    in_a_basis(bases, hash) || (some_unknown(bases) && frontier.contains(hash))
}

/// The parents of a part of a recursive operation: every path's basis, and the
/// frontier beside them as soon as one of the bases is unknown.
pub fn recursive_part_parents(bases: &[Option<Vec<ChangeHash>>], frontier: &[ChangeHash]) -> (
parents: Vec<ChangeHash>)
    ensures
        is_sorted_set(parents@),
        forall|hash: ChangeHash| #[trigger]
            parents@.contains(hash) <==> is_parent(bases@, frontier@, hash),
{
    let mut parents: Vec<ChangeHash> = Vec::new();
    let mut unknown: bool = false;
    let mut i: usize = 0;
    while i < bases.len()
        invariant
            i <= bases@.len(),
            is_sorted_set(parents@),
            unknown == some_unknown(bases@.take(i as int)),
            forall|hash: ChangeHash| #[trigger]
                parents@.contains(hash) <==> in_a_basis(bases@.take(i as int), hash),
        decreases bases@.len() - i,
    {
        let ghost earlier = parents@;
        let ghost shorter = bases@.take(i as int);
        let ghost longer = bases@.take(i + 1);
        let ghost was_unknown = unknown;
        match &bases[i] {
            Some(basis) => {
                if basis.len() > 0 {
                    extend_sorted(&mut parents, basis.as_slice());
                } else {
                    unknown = true;
                }
            },
            None => {
                unknown = true;
            },
        }
        proof {
            assert(longer =~= shorter.push(bases@[i as int]));
            assert(longer[i as int] == bases@[i as int]);
            if some_unknown(shorter) {
                let k = choose|k: int|
                    #![trigger shorter[k]]
                    0 <= k < shorter.len() && is_unknown(shorter[k]);
                assert(longer[k] == shorter[k]);
            }
            if some_unknown(longer) && !is_unknown(bases@[i as int]) {
                let k = choose|k: int|
                    #![trigger longer[k]]
                    0 <= k < longer.len() && is_unknown(longer[k]);
                assert(shorter[k] == longer[k]);
            }
            assert forall|hash: ChangeHash| #[trigger]
                parents@.contains(hash) <==> in_a_basis(longer, hash) by {
                assert(earlier.contains(hash) <==> in_a_basis(shorter, hash));
                if in_a_basis(shorter, hash) {
                    let k = choose|k: int|
                        #![trigger shorter[k]]
                        0 <= k < shorter.len() && (shorter[k] matches Some(basis)
                            && basis@.contains(hash));
                    assert(longer[k] == shorter[k]);
                }
                if in_a_basis(longer, hash) {
                    let k = choose|k: int|
                        #![trigger longer[k]]
                        0 <= k < longer.len() && (longer[k] matches Some(basis)
                            && basis@.contains(hash));
                    if k < i {
                        assert(shorter[k] == longer[k]);
                    }
                }
            }
        }
        i += 1;
    }
    assert(bases@.take(bases@.len() as int) =~= bases@);
    if unknown {
        extend_sorted(&mut parents, frontier);
    }
    parents
}

} // verus!
