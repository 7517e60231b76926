//! Sorting keys: a merge sort whose result is the one sorted arrangement of
//! its input.

use vstd::prelude::*;
use vstd::relations::sorted_by;
use vstd::seq_lib::{lemma_multiset_commutative, lemma_sorted_unique};
use crate::order::{
    key_le, key_order, lemma_key_le_total, lemma_key_le_transitive, lemma_key_order_is_total,
    precedes_or_equals, Key,
};

verus! {

/// The keys in ascending order. Equal keys are one and the same key, so
/// there is only one such arrangement.
pub open spec fn sorted_keys(keys: Seq<Key>) -> Seq<Key> {
    keys.sort_by(key_order())
}

/// Each key sorts at or before every key behind it.
pub open spec fn ascending(keys: Seq<Key>) -> bool {
    forall|i: int, j: int| 0 <= i < j < keys.len() ==> key_le(#[trigger] keys[i], #[trigger] keys[j])
}

/// Each key sorts at or after every key behind it.
spec fn descending(keys: Seq<Key>) -> bool {
    forall|i: int, j: int| 0 <= i < j < keys.len() ==> key_le(#[trigger] keys[j], #[trigger] keys[i])
}

/// Every key of `keys` sorts at or before `bound`.
spec fn all_at_most(keys: Seq<Key>, bound: Key) -> bool {
    forall|i: int| 0 <= i < keys.len() ==> key_le(#[trigger] keys[i], bound)
}

/// The sorted keys are in ascending order and are the given keys, each as
/// often as it was given.
pub proof fn lemma_sorted_keys(keys: Seq<Key>)
    ensures
        ascending(sorted_keys(keys)),
        sorted_keys(keys).to_multiset() == keys.to_multiset(),
        sorted_keys(keys).len() == keys.len(),
{
    lemma_key_order_is_total();
    keys.lemma_sort_by_ensures(key_order());
    let sorted = sorted_keys(keys);
    assert forall|i: int, j: int| 0 <= i < j < sorted.len() implies key_le(
        #[trigger] sorted[i],
        #[trigger] sorted[j],
    ) by {
        assert(key_order()(sorted[i], sorted[j]));
    }
    vstd::seq_lib::to_multiset_len(keys);
    vstd::seq_lib::to_multiset_len(sorted);
}

/// Whatever is in ascending order and holds the given keys, each as often as
/// it was given, is the sorted keys.
pub proof fn lemma_sorted_keys_unique(keys: Seq<Key>, arranged: Seq<Key>)
    requires
        ascending(arranged),
        arranged.to_multiset() == keys.to_multiset(),
    ensures
        arranged == sorted_keys(keys),
{
    lemma_key_order_is_total();
    keys.lemma_sort_by_ensures(key_order());
    assert(sorted_by(arranged, key_order())) by {
        assert forall|i: int, j: int| 0 <= i < j < arranged.len() implies #[trigger] key_order()(
            arranged[i],
            arranged[j],
        ) by {
            assert(key_le(arranged[i], arranged[j]));
        }
    }
    lemma_sorted_unique(arranged, sorted_keys(keys), key_order());
}

/// Keys that are in order already are their own sorted arrangement.
pub proof fn lemma_sorted_keys_of_ascending(keys: Seq<Key>)
    requires
        ascending(keys),
    ensures
        sorted_keys(keys) == keys,
{
    lemma_sorted_keys_unique(keys, keys);
}

/// Merges two ascending runs into one.
fn merge(left: Vec<String>, right: Vec<String>) -> (merged: Vec<String>)
    requires
        ascending(left.deep_view()),
        ascending(right.deep_view()),
    ensures
        ascending(merged.deep_view()),
        merged.deep_view().to_multiset() == left.deep_view().to_multiset().add(
            right.deep_view().to_multiset(),
        ),
{
    broadcast use vstd::multiset::group_multiset_axioms;
    broadcast use vstd::seq_lib::group_to_multiset_ensures;

    let ghost total = left.deep_view().to_multiset().add(right.deep_view().to_multiset());
    let mut left = left;
    let mut right = right;
    // The largest keys first: both runs are taken apart from their ends.
    let mut back: Vec<String> = Vec::new();
    assert(back.deep_view() =~= Seq::<Key>::empty());
    while left.len() > 0 || right.len() > 0
        invariant
            ascending(left.deep_view()),
            ascending(right.deep_view()),
            descending(back.deep_view()),
            back.len() > 0 ==> all_at_most(left.deep_view(), back.deep_view().last()),
            back.len() > 0 ==> all_at_most(right.deep_view(), back.deep_view().last()),
            left.deep_view().to_multiset().add(right.deep_view().to_multiset()).add(
                back.deep_view().to_multiset(),
            ) == total,
        decreases left.len() + right.len(),
    {
        let ghost l = left.deep_view();
        let ghost r = right.deep_view();
        let ghost b = back.deep_view();
        let from_right: bool = if left.len() == 0 {
            true
        } else if right.len() == 0 {
            false
        } else {
            precedes_or_equals(
                left[left.len() - 1].as_str(),
                right[right.len() - 1].as_str(),
            )
        };
        let taken = if from_right {
            right.pop().unwrap()
        } else {
            left.pop().unwrap()
        };
        back.push(taken);
        proof {
            let x = taken@;
            let l2 = left.deep_view();
            let r2 = right.deep_view();
            let b2 = back.deep_view();
            assert(b2 =~= b.push(x));
            if from_right {
                assert(l2 =~= l);
                assert(r2 =~= r.drop_last());
                assert(r =~= r2.push(x));
                assert(x == r.last());
            } else {
                assert(r2 =~= r);
                assert(l2 =~= l.drop_last());
                assert(l =~= l2.push(x));
                assert(x == l.last());
                if r.len() > 0 {
                    lemma_key_le_total(l.last(), r.last());
                }
            }
            assert forall|i: int| 0 <= i < l2.len() implies key_le(#[trigger] l2[i], x) by {
                if from_right {
                    assert(key_le(l.last(), r.last()));
                    if i < l.len() - 1 {
                        assert(key_le(l[i], l[l.len() - 1]));
                        lemma_key_le_transitive(l[i], l.last(), x);
                    }
                } else {
                    assert(key_le(l[i], l[l.len() - 1]));
                }
            }
            assert forall|i: int| 0 <= i < r2.len() implies key_le(#[trigger] r2[i], x) by {
                if from_right {
                    assert(key_le(r[i], r[r.len() - 1]));
                } else {
                    assert(key_le(r.last(), l.last()));
                    if i < r.len() - 1 {
                        assert(key_le(r[i], r[r.len() - 1]));
                        lemma_key_le_transitive(r[i], r.last(), x);
                    }
                }
            }
            assert forall|i: int, j: int| 0 <= i < j < b2.len() implies key_le(
                #[trigger] b2[j],
                #[trigger] b2[i],
            ) by {
                if j == b.len() {
                    if from_right {
                        assert(key_le(r[r.len() - 1], b.last()));
                    } else {
                        assert(key_le(l[l.len() - 1], b.last()));
                    }
                    if i < b.len() - 1 {
                        assert(key_le(b[b.len() - 1], b[i]));
                        lemma_key_le_transitive(x, b.last(), b[i]);
                    }
                } else {
                    assert(key_le(b[j], b[i]));
                }
            }
            assert(b2.to_multiset() =~= b.to_multiset().insert(x)) by {
                vstd::seq_lib::to_multiset_build(b, x);
            }
            if from_right {
                vstd::seq_lib::to_multiset_build(r2, x);
                assert(r.to_multiset() =~= r2.to_multiset().insert(x));
            } else {
                vstd::seq_lib::to_multiset_build(l2, x);
                assert(l.to_multiset() =~= l2.to_multiset().insert(x));
            }
            assert(l2.to_multiset().add(r2.to_multiset()).add(b2.to_multiset()) =~= l.to_multiset().add(
                r.to_multiset(),
            ).add(b.to_multiset()));
        }
    }
    // Turned round, they ascend.
    let mut merged: Vec<String> = Vec::new();
    assert(merged.deep_view() =~= Seq::<Key>::empty());
    assert(left.deep_view() =~= Seq::<Key>::empty());
    assert(right.deep_view() =~= Seq::<Key>::empty());
    while back.len() > 0
        invariant
            descending(back.deep_view()),
            ascending(merged.deep_view()),
            merged.len() > 0 ==> all_at_most_from(merged.deep_view().last(), back.deep_view()),
            merged.deep_view().to_multiset().add(back.deep_view().to_multiset()) == total,
        decreases back.len(),
    {
        let ghost b = back.deep_view();
        let ghost m = merged.deep_view();
        let taken = back.pop().unwrap();
        merged.push(taken);
        proof {
            let x = taken@;
            let b2 = back.deep_view();
            let m2 = merged.deep_view();
            assert(b2 =~= b.drop_last());
            assert(b =~= b2.push(x));
            assert(m2 =~= m.push(x));
            assert forall|i: int| 0 <= i < b2.len() implies key_le(x, #[trigger] b2[i]) by {
                assert(key_le(b[b.len() - 1], b[i]));
            }
            assert forall|i: int, j: int| 0 <= i < j < m2.len() implies key_le(
                #[trigger] m2[i],
                #[trigger] m2[j],
            ) by {
                if j == m.len() {
                    assert(key_le(m.last(), b[b.len() - 1]));
                    if i < m.len() - 1 {
                        assert(key_le(m[i], m[m.len() - 1]));
                        lemma_key_le_transitive(m[i], m.last(), x);
                    }
                } else {
                    assert(key_le(m[i], m[j]));
                }
            }
            assert(m2.to_multiset() =~= m.to_multiset().insert(x)) by {
                vstd::seq_lib::to_multiset_build(m, x);
            }
            assert(b.to_multiset() =~= b2.to_multiset().insert(x)) by {
                vstd::seq_lib::to_multiset_build(b2, x);
            }
            assert(m2.to_multiset().add(b2.to_multiset()) =~= m.to_multiset().add(b.to_multiset()));
        }
    }
    assert(back.deep_view() =~= Seq::<Key>::empty());
    assert(merged.deep_view().to_multiset() =~= total);
    merged
}

/// `bound` sorts at or before every key of `keys`.
spec fn all_at_most_from(bound: Key, keys: Seq<Key>) -> bool {
    forall|i: int| 0 <= i < keys.len() ==> key_le(bound, #[trigger] keys[i])
}

/// Sorts by halving, sorting the halves and merging them.
fn merge_sort(keys: Vec<String>) -> (sorted: Vec<String>)
    ensures
        ascending(sorted.deep_view()),
        sorted.deep_view().to_multiset() == keys.deep_view().to_multiset(),
    decreases keys.len(),
{
    if keys.len() <= 1 {
        return keys;
    }
    let ghost all = keys.deep_view();
    let mut left = keys;
    let middle: usize = left.len() / 2;
    let right = left.split_off(middle);
    proof {
        assert(all =~= left.deep_view() + right.deep_view());
        lemma_multiset_commutative(left.deep_view(), right.deep_view());
    }
    let left = merge_sort(left);
    let right = merge_sort(right);
    merge(left, right)
}

/// Puts the keys in ascending order.
pub fn sort_keys(keys: Vec<String>) -> (sorted: Vec<String>)
    ensures
        sorted.deep_view() == sorted_keys(keys.deep_view()),
{
    let sorted = merge_sort(keys);
    proof {
        lemma_sorted_keys_unique(keys.deep_view(), sorted.deep_view());
    }
    sorted
}

} // verus!
