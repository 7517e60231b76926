//! The reordering procedure as mathematics: which moves a single pass from
//! the front issues to bring a mirror of the remote collection into the order
//! of the target, and what the mirror looks like afterwards.
//!
//! The pass keeps a cursor `t`. Everything before the cursor already agrees
//! with the target. At each position it looks for the target's item in the
//! part of the mirror that is not yet placed; an item found further back is
//! pulled to the cursor together with the items behind it that already follow
//! it in the target's order.

use vstd::prelude::*;
use crate::moves::{apply_move, MoveOperation};

verus! {

/// The least index at or after `from` at which `s` holds `key`, or the length
/// of `s` if there is none.
pub open spec fn first_index_from<K>(s: Seq<K>, key: K, from: int) -> int
    decreases s.len() - from,
{
    if from < 0 || from >= s.len() {
        s.len() as int
    } else if s[from] == key {
        from
    } else {
        first_index_from(s, key, from + 1)
    }
}

/// Where the item that the target wants at position `t` lies in the part of
/// the mirror that is not yet placed.
pub open spec fn lookup<K>(mirror: Seq<K>, target: Seq<K>, t: int) -> int {
    first_index_from(mirror, target[t], t)
}

/// The items `r` places behind mirror position `c` and target position `t`
/// both exist and are the same.
pub open spec fn run_extends<K>(mirror: Seq<K>, target: Seq<K>, c: int, t: int, r: int) -> bool {
    &&& 0 <= t + r < target.len()
    &&& 0 <= c + r < mirror.len()
    &&& target[t + r] == mirror[c + r]
}

/// The length of the longest run that starts at mirror position `c` and
/// target position `t` and agrees item for item, given that the first `r`
/// items are already known to agree.
pub open spec fn run_from<K>(mirror: Seq<K>, target: Seq<K>, c: int, t: int, r: int) -> int
    decreases target.len() - t - r,
{
    if run_extends(mirror, target, c, t, r) {
        run_from(mirror, target, c, t, r + 1)
    } else {
        r
    }
}

/// The move that places the target's item of position `t`: the block starts
/// where the item was found, has the length of the agreeing run, and lands at
/// `t`.
pub open spec fn move_at<K>(mirror: Seq<K>, target: Seq<K>, t: int) -> MoveOperation {
    let c = lookup(mirror, target, t);
    MoveOperation {
        source: c as usize,
        destination: t as usize,
        length: run_from(mirror, target, c, t, 1) as usize,
    }
}

/// The moves that the pass issues from cursor `t` on, in order.
///
/// Nothing is issued for collections of different lengths, and the pass stops
/// at the first position whose item the unplaced part of the mirror lacks.
pub open spec fn plan_from<K>(mirror: Seq<K>, target: Seq<K>, t: int) -> Seq<MoveOperation>
    decreases target.len() - t,
{
    if mirror.len() != target.len() || t < 0 || t >= target.len() {
        Seq::empty()
    } else {
        let c = lookup(mirror, target, t);
        if c >= mirror.len() {
            Seq::empty()
        } else if c == t {
            plan_from(mirror, target, t + 1)
        } else {
            let op = move_at(mirror, target, t);
            seq![op] + plan_from(apply_move(mirror, op), target, t + 1)
        }
    }
}

/// The mirror once the pass from cursor `t` has ended, whether it reached the
/// end of the target or stopped before.
pub open spec fn outcome_from<K>(mirror: Seq<K>, target: Seq<K>, t: int) -> Seq<K>
    decreases target.len() - t,
{
    if mirror.len() != target.len() || t < 0 || t >= target.len() {
        mirror
    } else {
        let c = lookup(mirror, target, t);
        if c >= mirror.len() {
            mirror
        } else if c == t {
            outcome_from(mirror, target, t + 1)
        } else {
            outcome_from(apply_move(mirror, move_at(mirror, target, t)), target, t + 1)
        }
    }
}

/// The position at which the pass from cursor `t` has to give up, if any: the
/// first position whose item the unplaced part of the mirror does not hold,
/// or `t` itself where the two collections differ in length.
pub open spec fn stuck_from<K>(mirror: Seq<K>, target: Seq<K>, t: int) -> Option<int>
    decreases target.len() - t,
{
    if mirror.len() != target.len() {
        Some(t)
    } else if t < 0 || t >= target.len() {
        None
    } else {
        let c = lookup(mirror, target, t);
        if c >= mirror.len() {
            Some(t)
        } else if c == t {
            stuck_from(mirror, target, t + 1)
        } else {
            stuck_from(apply_move(mirror, move_at(mirror, target, t)), target, t + 1)
        }
    }
}

/// The moves of a whole pass.
pub open spec fn plan<K>(mirror: Seq<K>, target: Seq<K>) -> Seq<MoveOperation> {
    plan_from(mirror, target, 0)
}

/// The mirror after a whole pass.
pub open spec fn outcome<K>(mirror: Seq<K>, target: Seq<K>) -> Seq<K> {
    outcome_from(mirror, target, 0)
}

/// Where a whole pass gives up, if it does.
pub open spec fn stuck<K>(mirror: Seq<K>, target: Seq<K>) -> Option<int> {
    stuck_from(mirror, target, 0)
}

/// The two collections hold the same items, each as often as the other.
pub open spec fn same_items<K>(mirror: Seq<K>, target: Seq<K>) -> bool {
    mirror.to_multiset() == target.to_multiset()
}

/// The mirror agrees with the target before position `t`.
pub open spec fn placed_until<K>(mirror: Seq<K>, target: Seq<K>, t: int) -> bool {
    &&& 0 <= t <= target.len()
    &&& t <= mirror.len()
    &&& forall|i: int| 0 <= i < t ==> mirror[i] == target[i]
}

/// What `first_index_from` finds: the returned index lies between `from` and
/// the length, holds the key unless it is the length, and no index between
/// `from` and it holds the key.
pub proof fn lemma_first_index_from<K>(s: Seq<K>, key: K, from: int)
    requires
        0 <= from <= s.len(),
    ensures
        from <= first_index_from(s, key, from) <= s.len(),
        first_index_from(s, key, from) < s.len() ==> s[first_index_from(s, key, from)] == key,
        forall|j: int| from <= j < first_index_from(s, key, from) ==> s[j] != key,
    decreases s.len() - from,
{
    if from < s.len() && s[from] != key {
        lemma_first_index_from(s, key, from + 1);
    }
}

/// What `run_from` finds: the run stays inside both collections, every
/// position inside it agrees, and the position just behind it does not.
pub proof fn lemma_run_from<K>(mirror: Seq<K>, target: Seq<K>, c: int, t: int, r: int)
    requires
        0 <= t,
        0 <= c,
        1 <= r,
        t + r <= target.len(),
        c + r <= mirror.len(),
        target.subrange(t, t + r) == mirror.subrange(c, c + r),
    ensures
        r <= run_from(mirror, target, c, t, r),
        t + run_from(mirror, target, c, t, r) <= target.len(),
        c + run_from(mirror, target, c, t, r) <= mirror.len(),
        target.subrange(t, t + run_from(mirror, target, c, t, r)) == mirror.subrange(
            c,
            c + run_from(mirror, target, c, t, r),
        ),
        !run_extends(mirror, target, c, t, run_from(mirror, target, c, t, r)),
    decreases target.len() - t - r,
{
    if run_extends(mirror, target, c, t, r) {
        assert(target.subrange(t, t + r + 1) =~= target.subrange(t, t + r).push(target[t + r]));
        assert(mirror.subrange(c, c + r + 1) =~= mirror.subrange(c, c + r).push(mirror[c + r]));
        lemma_run_from(mirror, target, c, t, r + 1);
    }
}

} // verus!
