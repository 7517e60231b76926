//! What holds of the reordering pass, proved once for every mirror and
//! target.
//!
//! The statements speak of collections that a machine can index: a move
//! names positions and a length as `usize`, so the mirror's length has to fit
//! that type.

use vstd::prelude::*;
use vstd::seq_lib::{lemma_multiset_commutative, to_multiset_contains, to_multiset_len};
use crate::moves::{
    apply_move, block_of, lemma_move_rearranges, lemma_pull_forward_shape, MoveOperation,
};
use crate::order::Key;
use crate::plan::{
    lemma_first_index_from, lemma_run_from, lookup, move_at, outcome, outcome_from, placed_until,
    plan, plan_from, run_from, same_items, stuck, stuck_from,
};
use crate::sort::{lemma_sorted_keys, sorted_keys};

verus! {

/// Where mirror and target hold the same items and agree before `t`, the
/// target's item of position `t` lies in the mirror at or after `t`.
pub proof fn lemma_lookup_succeeds<K>(mirror: Seq<K>, target: Seq<K>, t: int)
    requires
        same_items(mirror, target),
        placed_until(mirror, target, t),
        t < target.len(),
    ensures
        t <= lookup(mirror, target, t) < mirror.len(),
        mirror[lookup(mirror, target, t)] == target[t],
{
    broadcast use vstd::multiset::group_multiset_axioms;

    to_multiset_len(mirror);
    to_multiset_len(target);
    let key = target[t];
    let (mh, mt) = (mirror.take(t), mirror.skip(t));
    let (th, tt) = (target.take(t), target.skip(t));
    assert(mh =~= th);
    assert(mirror =~= mh + mt);
    assert(target =~= th + tt);
    lemma_multiset_commutative(mh, mt);
    lemma_multiset_commutative(th, tt);
    assert(mt.to_multiset().count(key) == tt.to_multiset().count(key)) by {
        assert(mh.to_multiset().add(mt.to_multiset()).count(key) == th.to_multiset().add(
            tt.to_multiset(),
        ).count(key));
    }
    assert(tt[0] == key);
    assert(tt.contains(key));
    to_multiset_contains(tt, key);
    to_multiset_contains(mt, key);
    assert(mt.contains(key));
    let j = choose|j: int| 0 <= j < mt.len() && mt[j] == key;
    assert(mirror[t + j] == key);
    lemma_first_index_from(mirror, key, t);
}

/// The move that the pass issues at position `t`, where the item is found
/// further back: it fits the mirror, pulls forward, carries exactly the items
/// that the target wants from `t` on, and leaves the placed part alone.
pub proof fn lemma_move_at<K>(mirror: Seq<K>, target: Seq<K>, t: int)
    requires
        mirror.len() == target.len(),
        mirror.len() <= usize::MAX,
        0 <= t < lookup(mirror, target, t) < mirror.len(),
    ensures
        ({
            let op = move_at(mirror, target, t);
            let after = apply_move(mirror, op);
            &&& op.source == lookup(mirror, target, t)
            &&& op.destination == t
            &&& op.length == run_from(mirror, target, lookup(mirror, target, t), t, 1)
            &&& op.fits(mirror.len())
            &&& op.pulls_forward()
            &&& block_of(mirror, op) == target.subrange(t, t + op.length)
            &&& after.len() == mirror.len()
            &&& after.to_multiset() == mirror.to_multiset()
            &&& after.subrange(0, t) == mirror.subrange(0, t)
            &&& after.subrange(t, t + op.length) == target.subrange(t, t + op.length)
            &&& after[t] == target[t]
        }),
{
    let c = lookup(mirror, target, t);
    lemma_first_index_from(mirror, target[t], t);
    assert(target.subrange(t, t + 1) =~= mirror.subrange(c, c + 1));
    lemma_run_from(mirror, target, c, t, 1);
    let op = move_at(mirror, target, t);
    let after = apply_move(mirror, op);
    lemma_move_rearranges(mirror, op);
    lemma_pull_forward_shape(mirror, op);
    assert(after.subrange(0, t) =~= mirror.subrange(0, t));
    assert(after.subrange(t, t + op.length) =~= block_of(mirror, op));
    assert(target.subrange(t, t + op.length)[0] == target[t]);
}

/// Placing one more item keeps what was placed: after the step at position
/// `t`, mirror and target agree before `t + 1`.
pub proof fn lemma_step_places<K>(mirror: Seq<K>, target: Seq<K>, t: int)
    requires
        mirror.len() == target.len(),
        mirror.len() <= usize::MAX,
        placed_until(mirror, target, t),
        t < lookup(mirror, target, t) < mirror.len(),
    ensures
        placed_until(apply_move(mirror, move_at(mirror, target, t)), target, t + 1),
{
    lemma_move_at(mirror, target, t);
    let after = apply_move(mirror, move_at(mirror, target, t));
    assert forall|i: int| 0 <= i < t + 1 implies after[i] == target[i] by {
        if i < t {
            assert(after.subrange(0, t)[i] == mirror.subrange(0, t)[i]);
        }
    }
}

/// A pass only rearranges the mirror, issues at most one move for each
/// position it visits, and either places every item or stops at a position
/// whose item the unplaced part of the mirror lacks.
pub proof fn lemma_pass<K>(mirror: Seq<K>, target: Seq<K>, t: int)
    requires
        mirror.len() <= usize::MAX,
        placed_until(mirror, target, t),
    ensures
        outcome_from(mirror, target, t).len() == mirror.len(),
        outcome_from(mirror, target, t).to_multiset() == mirror.to_multiset(),
        plan_from(mirror, target, t).len() <= target.len() - t,
        match stuck_from(mirror, target, t) {
            None => outcome_from(mirror, target, t) == target,
            Some(p) => {
                &&& t <= p
                &&& placed_until(outcome_from(mirror, target, t), target, p)
                &&& mirror.len() == target.len() ==> p < target.len() && lookup(
                    outcome_from(mirror, target, t),
                    target,
                    p,
                ) >= mirror.len()
            },
        },
    decreases target.len() - t,
{
    if mirror.len() != target.len() {
    } else if t >= target.len() {
        assert(mirror =~= target);
    } else {
        let c = lookup(mirror, target, t);
        lemma_first_index_from(mirror, target[t], t);
        if c >= mirror.len() {
        } else if c == t {
            lemma_pass(mirror, target, t + 1);
        } else {
            lemma_move_at(mirror, target, t);
            lemma_step_places(mirror, target, t);
            lemma_pass(apply_move(mirror, move_at(mirror, target, t)), target, t + 1);
        }
    }
}

/// Every move of `moves` fits a collection of `n` items and pulls its block
/// forward, to a position at or after `from`, and each move lands behind the
/// one before it.
pub open spec fn moves_in_order(moves: Seq<MoveOperation>, n: nat, from: int) -> bool {
    &&& forall|i: int|
        0 <= i < moves.len() ==> {
            &&& (#[trigger] moves[i]).fits(n)
            &&& moves[i].pulls_forward()
            &&& from <= moves[i].destination
        }
    &&& forall|i: int, j: int|
        0 <= i < j < moves.len() ==> (#[trigger] moves[i]).destination < (
        #[trigger] moves[j]).destination
}

/// The moves of a pass come in the order of the positions they serve, and
/// each of them fits the collection and pulls its block forward.
pub proof fn lemma_moves_in_order<K>(mirror: Seq<K>, target: Seq<K>, t: int)
    requires
        mirror.len() <= usize::MAX,
        placed_until(mirror, target, t),
    ensures
        moves_in_order(plan_from(mirror, target, t), mirror.len(), t),
    decreases target.len() - t,
{
    if mirror.len() == target.len() && t < target.len() {
        let c = lookup(mirror, target, t);
        lemma_first_index_from(mirror, target[t], t);
        if c >= mirror.len() {
        } else if c == t {
            lemma_moves_in_order(mirror, target, t + 1);
        } else {
            lemma_move_at(mirror, target, t);
            lemma_step_places(mirror, target, t);
            let op = move_at(mirror, target, t);
            let after = apply_move(mirror, op);
            lemma_moves_in_order(after, target, t + 1);
            let rest = plan_from(after, target, t + 1);
            let all = plan_from(mirror, target, t);
            assert(all == seq![op] + rest);
            assert forall|i: int| 0 <= i < all.len() implies {
                &&& (#[trigger] all[i]).fits(mirror.len())
                &&& all[i].pulls_forward()
                &&& t <= all[i].destination
            } by {
                if i > 0 {
                    assert(all[i] == rest[i - 1]);
                }
            }
            assert forall|i: int, j: int| 0 <= i < j < all.len() implies (#[trigger] all[i]).destination
                < (#[trigger] all[j]).destination by {
                assert(all[j] == rest[j - 1]);
                if i > 0 {
                    assert(all[i] == rest[i - 1]);
                }
            }
        }
    }
}

/// Where mirror and target hold the same items, the pass never gets stuck.
pub proof fn lemma_same_items_never_stuck<K>(mirror: Seq<K>, target: Seq<K>, t: int)
    requires
        mirror.len() <= usize::MAX,
        placed_until(mirror, target, t),
        same_items(mirror, target),
    ensures
        stuck_from(mirror, target, t) is None,
    decreases target.len() - t,
{
    to_multiset_len(mirror);
    to_multiset_len(target);
    if t < target.len() {
        lemma_lookup_succeeds(mirror, target, t);
        if lookup(mirror, target, t) == t {
            lemma_same_items_never_stuck(mirror, target, t + 1);
        } else {
            lemma_move_at(mirror, target, t);
            lemma_step_places(mirror, target, t);
            lemma_same_items_never_stuck(
                apply_move(mirror, move_at(mirror, target, t)),
                target,
                t + 1,
            );
        }
    }
}

/// From a cursor before which mirror and target agree, the pass issues no
/// move and reaches the end exactly if the mirror is the target already.
pub proof fn lemma_no_move_iff_in_order<K>(mirror: Seq<K>, target: Seq<K>, t: int)
    requires
        mirror.len() <= usize::MAX,
        placed_until(mirror, target, t),
    ensures
        (stuck_from(mirror, target, t) is None && plan_from(mirror, target, t).len() == 0) <==> mirror
            == target,
    decreases target.len() - t,
{
    if mirror.len() != target.len() {
    } else if t >= target.len() {
        assert(mirror =~= target);
    } else {
        lemma_first_index_from(mirror, target[t], t);
        if lookup(mirror, target, t) == t {
            lemma_no_move_iff_in_order(mirror, target, t + 1);
        } else {
            assert(mirror[t] != target[t]);
        }
    }
}

/// Positions at which mirror and target agree cost nothing: the pass from
/// `t` goes on as the pass from `u` does when the two agree from `t` up to
/// `u`.
pub proof fn lemma_skip_placed<K>(mirror: Seq<K>, target: Seq<K>, t: int, u: int)
    requires
        mirror.len() == target.len(),
        0 <= t <= u <= target.len(),
        mirror.subrange(t, u) == target.subrange(t, u),
    ensures
        plan_from(mirror, target, t) == plan_from(mirror, target, u),
        outcome_from(mirror, target, t) == outcome_from(mirror, target, u),
        stuck_from(mirror, target, t) == stuck_from(mirror, target, u),
    decreases u - t,
{
    if t < u {
        assert(mirror.subrange(t, u)[0] == mirror[t]);
        assert(target.subrange(t, u)[0] == target[t]);
        assert(mirror[t] == target[t]);
        assert(lookup(mirror, target, t) == t);
        assert(mirror.subrange(t + 1, u) =~= mirror.subrange(t, u).subrange(1, u - t));
        assert(target.subrange(t + 1, u) =~= target.subrange(t, u).subrange(1, u - t));
        lemma_skip_placed(mirror, target, t + 1, u);
    }
}

/// A mirror that is in the target's order already is left alone: no move is
/// issued, and the pass reaches the end.
pub proof fn lemma_in_order_issues_nothing<K>(keys: Seq<K>)
    requires
        keys.len() <= usize::MAX,
    ensures
        plan(keys, keys) == Seq::<MoveOperation>::empty(),
        stuck(keys, keys) is None,
        outcome(keys, keys) == keys,
{
    lemma_no_move_iff_in_order(keys, keys, 0);
    lemma_pass(keys, keys, 0);
    assert(plan(keys, keys) =~= Seq::<MoveOperation>::empty());
}

/// Whenever mirror and target hold the same items, the pass runs to the end
/// and leaves the mirror equal to the target.
pub proof fn lemma_pass_converges<K>(mirror: Seq<K>, target: Seq<K>)
    requires
        mirror.len() <= usize::MAX,
        same_items(mirror, target),
    ensures
        stuck(mirror, target) is None,
        outcome(mirror, target) == target,
{
    lemma_same_items_never_stuck(mirror, target, 0);
    lemma_pass(mirror, target, 0);
}

/// From any keys to the same keys sorted, the pass runs to the end, leaves
/// the keys sorted and issues no more moves than there are keys.
pub proof fn lemma_pass_sorts(keys: Seq<Key>)
    requires
        keys.len() <= usize::MAX,
    ensures
        stuck(keys, sorted_keys(keys)) is None,
        outcome(keys, sorted_keys(keys)) == sorted_keys(keys),
        plan(keys, sorted_keys(keys)).len() <= keys.len(),
{
    lemma_sorted_keys(keys);
    lemma_pass_converges(keys, sorted_keys(keys));
    lemma_pass(keys, sorted_keys(keys), 0);
}

/// The pass reaches the end for no other inputs: it gets stuck exactly if
/// mirror and target do not hold the same items.
pub proof fn lemma_stuck_iff_items_differ<K>(mirror: Seq<K>, target: Seq<K>)
    requires
        mirror.len() <= usize::MAX,
    ensures
        stuck(mirror, target) is None <==> same_items(mirror, target),
{
    lemma_pass(mirror, target, 0);
    if same_items(mirror, target) {
        lemma_same_items_never_stuck(mirror, target, 0);
    }
}

/// A pass over `n` items issues at most `n` moves, and none exactly if the
/// mirror is in the target's order already.
pub proof fn lemma_move_count<K>(mirror: Seq<K>, target: Seq<K>)
    requires
        mirror.len() <= usize::MAX,
        same_items(mirror, target),
    ensures
        plan(mirror, target).len() <= target.len(),
        plan(mirror, target).len() == 0 <==> mirror == target,
{
    lemma_pass(mirror, target, 0);
    lemma_same_items_never_stuck(mirror, target, 0);
    lemma_no_move_iff_in_order(mirror, target, 0);
}

/// With keys that occur once, the place where the pass finds an item is the
/// only place in the whole mirror that holds it.
pub proof fn lemma_lookup_is_the_index<K>(mirror: Seq<K>, target: Seq<K>, t: int, j: int)
    requires
        mirror.no_duplicates(),
        target.no_duplicates(),
        placed_until(mirror, target, t),
        t < target.len(),
        0 <= j < mirror.len(),
        mirror[j] == target[t],
    ensures
        lookup(mirror, target, t) == j,
{
    lemma_first_index_from(mirror, target[t], t);
    if j < t {
        assert(target[j] == target[t]);
    }
}

/// One block that stands too far back is brought home by one move.
///
/// The mirror is `before + displaced + block + after` where the target is
/// `before + block + displaced + after`, and no key occurs twice. The pass
/// then issues a single move, which pulls the whole block in front of the
/// displaced items.
pub proof fn lemma_single_block_single_move<K>(
    before: Seq<K>,
    displaced: Seq<K>,
    block: Seq<K>,
    after: Seq<K>,
)
    requires
        displaced.len() > 0,
        block.len() > 0,
        (before + displaced + block + after).len() <= usize::MAX,
        (before + displaced + block + after).no_duplicates(),
    ensures
        ({
            let mirror = before + displaced + block + after;
            let target = before + block + displaced + after;
            let op = MoveOperation {
                source: (before.len() + displaced.len()) as usize,
                destination: before.len() as usize,
                length: block.len() as usize,
            };
            &&& plan(mirror, target) == seq![op]
            &&& stuck(mirror, target) is None
            &&& outcome(mirror, target) == target
        }),
{
    let mirror = before + displaced + block + after;
    let target = before + block + displaced + after;
    let t = before.len() as int;
    let c = t + displaced.len();
    let n = mirror.len() as int;
    let op = MoveOperation { source: c as usize, destination: t as usize, length: block.len() as usize };
    assert(mirror.subrange(0, t) =~= target.subrange(0, t));
    lemma_skip_placed(mirror, target, 0, t);
    // The block's first item lies at `c` and nowhere else.
    assert(target[t] == block[0]);
    assert(mirror[c] == block[0]);
    lemma_first_index_from(mirror, target[t], t);
    assert(lookup(mirror, target, t) == c);
    // The agreeing run is the block, no shorter and no longer.
    assert(target.subrange(t, t + 1) =~= mirror.subrange(c, c + 1));
    lemma_run_from(mirror, target, c, t, 1);
    let r = run_from(mirror, target, c, t, 1);
    if r < block.len() {
        assert(target[t + r] == block[r]);
        assert(mirror[c + r] == block[r]);
    }
    if r > block.len() {
        assert(target.subrange(t, t + r)[block.len() as int] == mirror.subrange(c, c + r)[block.len() as int]);
        assert(target[t + block.len()] == displaced[0]);
        assert(mirror[t] == displaced[0]);
    }
    assert(r == block.len());
    assert(move_at(mirror, target, t) == op);
    lemma_pull_forward_shape(mirror, op);
    assert(apply_move(mirror, op) =~= target);
    lemma_no_move_iff_in_order(target, target, 0);
    lemma_pass(target, target, 0);
    lemma_skip_placed(target, target, 0, t + 1);
    assert(plan_from(target, target, t + 1) =~= Seq::<MoveOperation>::empty());
    assert(plan(mirror, target) =~= seq![op]);
}

} // verus!
