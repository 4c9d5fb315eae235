//! Lists of texts in the database's text order.

use vstd::prelude::*;
use vstd::relations::total_ordering;

use crate::error::texts;
use crate::rows::{in_order, lemma_insert_in_order};
use crate::text::{
    lemma_text_chain, lemma_text_lt_total, lemma_text_order, str_less, text_le, text_lt,
};

verus! {

/// Texts in order.
pub open spec fn text_order() -> spec_fn(Seq<char>, Seq<char>) -> bool {
    |a: Seq<char>, b: Seq<char>| text_lt(a, b)
}

/// The order of texts, equal ones taken for ordered.
pub open spec fn text_at_most() -> spec_fn(Seq<char>, Seq<char>) -> bool {
    |a: Seq<char>, b: Seq<char>| text_le(a, b)
}

/// The texts in order, each as often as the list holds it.
pub open spec fn sorted_texts(list: Seq<Seq<char>>) -> Seq<Seq<char>> {
    list.sort_by(text_at_most())
}

/// The order of texts is total.
pub proof fn lemma_text_order_is_total()
    ensures
        total_ordering(text_at_most()),
{
    let leq = text_at_most();
    assert forall|a: Seq<char>, b: Seq<char>| #[trigger] leq(a, b) && #[trigger] leq(b, a) implies a
        == b by {
        if text_lt(a, b) {
            lemma_text_order(a, b);
        }
    }
    assert forall|a: Seq<char>, b: Seq<char>, c: Seq<char>| #[trigger]
        leq(a, b) && #[trigger] leq(b, c) implies leq(a, c) by {
        if text_lt(a, b) && text_lt(b, c) {
            lemma_text_chain(a, b, c);
        }
    }
    assert forall|a: Seq<char>, b: Seq<char>| #[trigger] leq(a, b) || #[trigger] leq(b, a) by {
        lemma_text_lt_total(a, b);
    }
}

/// An ordered list of the same texts is the sorted one.
pub proof fn lemma_ordered_is_sorted(ordered: Seq<Seq<char>>, list: Seq<Seq<char>>)
    requires
        in_order(ordered, text_order()),
        ordered.to_multiset() == list.to_multiset(),
    ensures
        ordered == sorted_texts(list),
{
    let leq = text_at_most();
    lemma_text_order_is_total();
    list.lemma_sort_by_ensures(leq);
    assert forall|i: int, j: int| 0 <= i < j < ordered.len() implies #[trigger] leq(
        ordered[i],
        ordered[j],
    ) by {
        assert(!text_order()(ordered[j], ordered[i]));
        lemma_text_lt_total(ordered[i], ordered[j]);
    }
    vstd::seq_lib::lemma_sorted_unique(ordered, sorted_texts(list), leq);
}

/// The sorted list is ordered and holds the same texts.
pub proof fn lemma_sorted_is_ordered(list: Seq<Seq<char>>)
    ensures
        in_order(sorted_texts(list), text_order()),
        sorted_texts(list).to_multiset() == list.to_multiset(),
{
    let leq = text_at_most();
    let ordered = sorted_texts(list);
    lemma_text_order_is_total();
    list.lemma_sort_by_ensures(leq);
    assert forall|i: int, j: int|
        #![trigger ordered[i], ordered[j]]
        0 <= i < j < ordered.len() implies !text_order()(ordered[j], ordered[i]) by {
        assert(leq(ordered[i], ordered[j]));
        if text_lt(ordered[j], ordered[i]) {
            lemma_text_order(ordered[j], ordered[i]);
            if ordered[i] == ordered[j] {
                lemma_text_order(ordered[j], ordered[i]);
            }
        }
    }
}

/// Puts a text where it belongs.
pub(crate) fn insert_text(listed: &mut Vec<String>, text: String)
    requires
        in_order(texts(old(listed)@), text_order()),
    ensures
        in_order(texts(final(listed)@), text_order()),
        texts(final(listed)@).to_multiset() == texts(old(listed)@).to_multiset().insert(text@),
        texts(final(listed)@).len() == texts(old(listed)@).len() + 1,
{
    let ghost before = texts(listed@);
    let ghost made = text@;
    let mut at: usize = 0;
    while at < listed.len() && !str_less(text.as_str(), listed[at].as_str())
        invariant
            at <= listed@.len(),
            before == texts(listed@),
            made == text@,
            forall|i: int| 0 <= i < at ==> !text_order()(made, #[trigger] before[i]),
        decreases listed@.len() - at,
    {
        assert(before[at as int] == listed@[at as int]@);
        at += 1;
    }
    proof {
        assert forall|i: int| at <= i < before.len() implies !text_order()(
            #[trigger] before[i],
            made,
        ) by {
            assert(before[at as int] == listed@[at as int]@);
            if text_lt(before[i], made) {
                if i > at {
                    lemma_text_chain(before[i], made, before[at as int]);
                    assert(!text_order()(before[i], before[at as int]));
                } else {
                    lemma_text_order(before[i], made);
                }
            }
        }
        lemma_insert_in_order(before, text_order(), at as int, made);
    }
    listed.insert(at, text);
    assert(texts(listed@) =~= before.insert(at as int, made));
}

} // verus!
