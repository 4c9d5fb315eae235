//! What the statements of a table do to its rows, stated over the sequence of
//! rows in insertion order.

use vstd::prelude::*;

verus! {

/// The rows of a table, each by its view.
pub open spec fn views<R: View>(rows: Seq<R>) -> Seq<R::V> {
    rows.map_values(|row: R| row@)
}

/// An `UPDATE`: every row that meets the condition is replaced, every other
/// one stays, and the order is kept.
pub open spec fn set_where<R>(rows: Seq<R>, pred: spec_fn(R) -> bool, f: spec_fn(R) -> R) -> Seq<
    R,
> {
    rows.map_values(
        |row: R|
            if pred(row) {
                f(row)
            } else {
                row
            },
    )
}

/// At most one row meets the condition.
pub open spec fn at_most_one<R>(rows: Seq<R>, pred: spec_fn(R) -> bool) -> bool {
    forall|i: int, j: int|
        #![trigger rows[i], rows[j]]
        0 <= i < rows.len() && 0 <= j < rows.len() && pred(rows[i]) && pred(rows[j]) ==> i == j
}

/// Some row meets the condition.
pub open spec fn any<R>(rows: Seq<R>, pred: spec_fn(R) -> bool) -> bool {
    exists|i: int| #![trigger rows[i]] 0 <= i < rows.len() && pred(rows[i])
}

/// The first row that meets the condition, in insertion order.
pub open spec fn first_where<R>(rows: Seq<R>, pred: spec_fn(R) -> bool) -> Option<R>
    decreases rows.len(),
{
    if rows.len() == 0 {
        None
    } else if pred(rows[0]) {
        Some(rows[0])
    } else {
        first_where(rows.skip(1), pred)
    }
}

/// `listed` holds exactly the rows that meet the condition, with their
/// multiplicity, ordered so that no row comes after one it must precede.
pub open spec fn listed_in_order<R>(
    listed: Seq<R>,
    rows: Seq<R>,
    pred: spec_fn(R) -> bool,
    before: spec_fn(R, R) -> bool,
) -> bool {
    &&& listed.to_multiset() == rows.filter(pred).to_multiset()
    &&& in_order(listed, before)
}

/// No element of `listed` must come before an earlier one.
pub open spec fn in_order<R>(listed: Seq<R>, before: spec_fn(R, R) -> bool) -> bool {
    forall|i: int, j: int|
        #![trigger listed[i], listed[j]]
        0 <= i < j < listed.len() ==> !before(listed[j], listed[i])
}

/// Where the first row that meets the condition stands fixes what
/// [`first_where`] is.
pub proof fn lemma_first_where_at<R>(rows: Seq<R>, pred: spec_fn(R) -> bool, i: int)
    requires
        0 <= i < rows.len(),
        pred(rows[i]),
        forall|j: int| 0 <= j < i ==> !pred(#[trigger] rows[j]),
    ensures
        first_where(rows, pred) == Some(rows[i]),
    decreases rows.len(),
{
    if i > 0 {
        assert(!pred(rows[0]));
        assert(rows.skip(1)[i - 1] == rows[i]);
        assert forall|j: int| 0 <= j < i - 1 implies !pred(#[trigger] rows.skip(1)[j]) by {
            assert(rows.skip(1)[j] == rows[j + 1]);
        }
        lemma_first_where_at(rows.skip(1), pred, i - 1);
    }
}

/// With no row that meets the condition there is no first one.
pub proof fn lemma_first_where_none<R>(rows: Seq<R>, pred: spec_fn(R) -> bool)
    requires
        forall|j: int| 0 <= j < rows.len() ==> !pred(#[trigger] rows[j]),
    ensures
        first_where(rows, pred) is None,
    decreases rows.len(),
{
    if rows.len() > 0 {
        assert(!pred(rows[0]));
        assert forall|j: int| 0 <= j < rows.skip(1).len() implies !pred(
            #[trigger] rows.skip(1)[j],
        ) by {
            assert(rows.skip(1)[j] == rows[j + 1]);
        }
        lemma_first_where_none(rows.skip(1), pred);
    }
}

/// [`first_where`] finds a row of the table that meets the condition, or
/// there is none.
pub proof fn lemma_first_where<R>(rows: Seq<R>, pred: spec_fn(R) -> bool)
    ensures
        first_where(rows, pred) is Some <==> any(rows, pred),
        first_where(rows, pred) is Some ==> pred(first_where(rows, pred)->0) && rows.contains(
            first_where(rows, pred)->0,
        ),
    decreases rows.len(),
{
    if rows.len() > 0 {
        if pred(rows[0]) {
            assert(any(rows, pred));
            assert(rows.contains(rows[0]));
        } else {
            let tail = rows.skip(1);
            lemma_first_where(tail, pred);
            if any(tail, pred) {
                let i = choose|i: int| #![trigger tail[i]] 0 <= i < tail.len() && pred(tail[i]);
                assert(rows[i + 1] == tail[i]);
                let found = first_where(tail, pred)->0;
                let k = choose|k: int| 0 <= k < tail.len() && tail[k] == found;
                assert(rows[k + 1] == found);
            }
            if any(rows, pred) {
                let i = choose|i: int| #![trigger rows[i]] 0 <= i < rows.len() && pred(rows[i]);
                assert(tail[i - 1] == rows[i]);
            }
        }
    }
}

/// Where only row `i` meets the condition, an `UPDATE` replaces that row.
pub proof fn lemma_set_where_at<R>(
    rows: Seq<R>,
    pred: spec_fn(R) -> bool,
    f: spec_fn(R) -> R,
    i: int,
)
    requires
        0 <= i < rows.len(),
        pred(rows[i]),
        at_most_one(rows, pred),
    ensures
        set_where(rows, pred, f) == rows.update(i, f(rows[i])),
{
    assert(set_where(rows, pred, f) =~= rows.update(i, f(rows[i])));
}

/// Where no row meets the condition, an `UPDATE` changes nothing.
pub proof fn lemma_set_where_none<R>(rows: Seq<R>, pred: spec_fn(R) -> bool, f: spec_fn(R) -> R)
    requires
        forall|j: int| 0 <= j < rows.len() ==> !pred(#[trigger] rows[j]),
    ensures
        set_where(rows, pred, f) == rows,
{
    assert(set_where(rows, pred, f) =~= rows);
}

/// Selecting from one row more.
pub proof fn lemma_filter_take_next<R>(rows: Seq<R>, pred: spec_fn(R) -> bool, i: int)
    requires
        0 <= i < rows.len(),
    ensures
        rows.take(i + 1).filter(pred) == if pred(rows[i]) {
            rows.take(i).filter(pred).push(rows[i])
        } else {
            rows.take(i).filter(pred)
        },
{
    assert(rows.take(i + 1) =~= rows.take(i).push(rows[i]));
    rows.take(i).lemma_filter_push(rows[i], pred);
}

/// Putting an element where it belongs keeps an ordered listing ordered.
pub proof fn lemma_insert_in_order<R>(
    listed: Seq<R>,
    before: spec_fn(R, R) -> bool,
    at: int,
    row: R,
)
    requires
        in_order(listed, before),
        0 <= at <= listed.len(),
        forall|i: int| 0 <= i < at ==> !before(row, #[trigger] listed[i]),
        forall|i: int| at <= i < listed.len() ==> !before(#[trigger] listed[i], row),
    ensures
        in_order(listed.insert(at, row), before),
        listed.insert(at, row).to_multiset() == listed.to_multiset().insert(row),
{
    let grown = listed.insert(at, row);
    assert forall|i: int, j: int|
        #![trigger grown[i], grown[j]]
        0 <= i < j < grown.len() implies !before(grown[j], grown[i]) by {
        if i < at {
            assert(grown[i] == listed[i]);
        } else if i > at {
            assert(grown[i] == listed[i - 1]);
        }
        if j < at {
            assert(grown[j] == listed[j]);
        } else if j > at {
            assert(grown[j] == listed[j - 1]);
        }
    }
    vstd::seq_lib::to_multiset_insert(listed, at, row);
}

/// Appending an element to the multiset of a selection.
pub proof fn lemma_filter_multiset_next<R>(rows: Seq<R>, pred: spec_fn(R) -> bool, i: int)
    requires
        0 <= i < rows.len(),
    ensures
        rows.take(i + 1).filter(pred).to_multiset() == if pred(rows[i]) {
            rows.take(i).filter(pred).to_multiset().insert(rows[i])
        } else {
            rows.take(i).filter(pred).to_multiset()
        },
{
    lemma_filter_take_next(rows, pred, i);
    if pred(rows[i]) {
        vstd::seq_lib::to_multiset_build(rows.take(i).filter(pred), rows[i]);
    }
}

/// Appending what an element stands for to the multiset of a selection.
pub proof fn lemma_filter_map_multiset_next<R, T>(
    rows: Seq<R>,
    pred: spec_fn(R) -> bool,
    f: spec_fn(R) -> T,
    i: int,
)
    requires
        0 <= i < rows.len(),
    ensures
        rows.take(i + 1).filter(pred).map_values(f).to_multiset() == if pred(rows[i]) {
            rows.take(i).filter(pred).map_values(f).to_multiset().insert(f(rows[i]))
        } else {
            rows.take(i).filter(pred).map_values(f).to_multiset()
        },
{
    lemma_filter_take_next(rows, pred, i);
    if pred(rows[i]) {
        let so_far = rows.take(i).filter(pred);
        assert(so_far.push(rows[i]).map_values(f) =~= so_far.map_values(f).push(f(rows[i])));
        vstd::seq_lib::to_multiset_build(so_far.map_values(f), f(rows[i]));
    }
}

/// A selection holds exactly the rows of the table that meet the condition.
pub proof fn lemma_filter_members<R>(rows: Seq<R>, pred: spec_fn(R) -> bool, row: R)
    ensures
        rows.filter(pred).contains(row) <==> rows.contains(row) && pred(row),
    decreases rows.len(),
{
    reveal(Seq::filter);
    if rows.len() > 0 {
        let shorter = rows.drop_last();
        lemma_filter_members(shorter, pred, row);
        let all = rows.filter(pred);
        let kept = shorter.filter(pred);
        if rows.contains(row) && pred(row) {
            let i = choose|i: int| 0 <= i < rows.len() && rows[i] == row;
            if i < shorter.len() {
                assert(shorter[i] == row);
                let k = choose|k: int| 0 <= k < kept.len() && kept[k] == row;
                assert(all[k] == row);
            } else {
                assert(all[all.len() - 1] == row);
            }
        }
        if all.contains(row) {
            let k = choose|k: int| 0 <= k < all.len() && all[k] == row;
            if k < kept.len() {
                assert(kept[k] == row);
                let i = choose|i: int| 0 <= i < shorter.len() && shorter[i] == row;
                assert(rows[i] == row);
            } else {
                assert(rows[rows.len() - 1] == row);
            }
        }
    }
}

} // verus!
