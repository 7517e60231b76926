//! The reordering pass as code: a stepper that tells its caller which block
//! to move next on the remote store and mirrors each move that went through,
//! and a run of the whole pass on a local copy.

use vstd::prelude::*;
use crate::delay::DelayPolicy;
use crate::key::{append_decimal, decimal};
use crate::laws::{
    lemma_move_at, lemma_move_count, lemma_moves_in_order, lemma_pass, lemma_skip_placed,
    lemma_step_places, lemma_stuck_iff_items_differ, moves_in_order,
};
use crate::moves::{apply_move, lemma_move_commutes_with_map, MoveOperation};
use crate::order::Key;
use crate::plan::{
    first_index_from, lemma_first_index_from, lookup, move_at, outcome, outcome_from,
    placed_until, plan, plan_from, run_from, same_items, stuck, stuck_from,
};

verus! {

/// The pass met a position whose item the part of the mirror that is not yet
/// placed does not hold, so mirror and target were never arrangements of the
/// same items.
#[derive(Clone, Copy, Debug, PartialEq, Eq, Structural)]
pub struct InternalConsistencyError {
    /// The target position that could not be served.
    pub position: usize,
}

impl InternalConsistencyError {
    /// The sentence that tells a person about the error.
    pub open spec fn spec_message(self) -> Seq<char> {
        "The playlist and its sorted form do not hold the same musics: nothing fits position "@
            + decimal(self.position as nat)
    }

    /// The sentence that tells a person about the error.
    pub fn message(&self) -> (text: String)
        ensures
            text@ == self.spec_message(),
    {
        let mut text = String::from_str(
            "The playlist and its sorted form do not hold the same musics: nothing fits position ",
        );
        append_decimal(&mut text, self.position as u64);
        text
    }
}

/// The keys of `keys`, each as the sequence of its characters.
pub open spec fn key_views(keys: Seq<String>) -> Seq<Key> {
    keys.map_values(|k: String| k@)
}

/// The deep view of a vector of keys is the sequence of the keys' views.
pub proof fn lemma_deep_view_is_key_views(keys: &Vec<String>)
    ensures
        keys.deep_view() == key_views(keys@),
{
    assert(keys.deep_view() =~= key_views(keys@));
}

/// The least index at or after `from` at which `keys` holds `key`; the
/// length of `keys` if there is none.
fn find_from(keys: &Vec<String>, key: &String, from: usize) -> (index: usize)
    ensures
        index == first_index_from(keys.deep_view(), key@, from as int),
{
    let n: usize = keys.len();
    let mut i: usize = from;
    while i < n
        invariant
            n == keys.len(),
            from <= i,
            first_index_from(keys.deep_view(), key@, from as int) == first_index_from(
                keys.deep_view(),
                key@,
                i as int,
            ),
        decreases n - i,
    {
        if keys[i] == *key {
            return i;
        }
        i += 1;
    }
    n
}

/// The length of the longest run from mirror position `c` and target position
/// `t` in which the two collections agree item for item, counting the first
/// item in without looking at it.
fn run_length(mirror: &Vec<String>, target: &Vec<String>, c: usize, t: usize) -> (length: usize)
    ensures
        length == run_from(mirror.deep_view(), target.deep_view(), c as int, t as int, 1),
{
    if c >= mirror.len() || t >= target.len() {
        return 1;
    }
    let mut r: usize = 1;
    while r < target.len() - t && r < mirror.len() - c && target[t + r] == mirror[c + r]
        invariant
            c < mirror.len(),
            t < target.len(),
            1 <= r <= target.len() - t,
            r <= mirror.len() - c,
            run_from(mirror.deep_view(), target.deep_view(), c as int, t as int, 1) == run_from(
                mirror.deep_view(),
                target.deep_view(),
                c as int,
                t as int,
                r as int,
            ),
        decreases target.len() - t - r,
    {
        r += 1;
    }
    r
}

/// The first position at or after `from` at which mirror and target differ,
/// or the target's length if they agree from `from` on. Both collections have
/// the same length.
fn next_unplaced(mirror: &Vec<String>, target: &Vec<String>, from: usize) -> (t: usize)
    requires
        mirror.len() == target.len(),
        from <= target.len(),
    ensures
        from <= t <= target.len(),
        mirror.deep_view().subrange(from as int, t as int) == target.deep_view().subrange(
            from as int,
            t as int,
        ),
        t < target.len() ==> mirror[t as int]@ != target[t as int]@,
{
    let mut t: usize = from;
    while t < target.len() && mirror[t] == target[t]
        invariant
            mirror.len() == target.len(),
            from <= t <= target.len(),
            mirror.deep_view().subrange(from as int, t as int) == target.deep_view().subrange(
                from as int,
                t as int,
            ),
        decreases target.len() - t,
    {
        t += 1;
        assert(mirror.deep_view().subrange(from as int, t as int) =~= target.deep_view().subrange(
            from as int,
            t as int,
        ));
    }
    t
}

/// Runs the whole pass on a local copy: `current` is brought into the order
/// of `target` by block moves, and the moves are returned in the order in
/// which they were made.
///
/// The pass succeeds exactly if the two collections hold the same keys, each
/// as often as the other. It then leaves `current` equal to `target`, with at
/// most one move for each item and none where nothing was out of place. If it
/// fails, `current` holds what the moves made up to then have left, and the
/// error names the position that could not be served. The moves serve the
/// positions from the front to the back, and each pulls its block forward.
pub fn reconcile(current: &mut Vec<String>, target: &Vec<String>) -> (result: Result<
    Vec<MoveOperation>,
    InternalConsistencyError,
>)
    ensures
        final(current).deep_view() == outcome(old(current).deep_view(), target.deep_view()),
        result is Ok <==> same_items(old(current).deep_view(), target.deep_view()),
        match result {
            Ok(moves) => {
                &&& moves@ == plan(old(current).deep_view(), target.deep_view())
                &&& final(current).deep_view() == target.deep_view()
                &&& moves.len() <= target.len()
                &&& moves.len() == 0 <==> old(current).deep_view() == target.deep_view()
                &&& moves_in_order(moves@, target.len() as nat, 0)
            },
            Err(e) => stuck(old(current).deep_view(), target.deep_view()) == Some(e.position as int),
        },
{
    let ghost start = current.deep_view();
    let ghost goal = target.deep_view();
    proof {
        assert(start.len() == current.len());
        lemma_stuck_iff_items_differ(start, goal);
        lemma_pass(start, goal, 0);
        if same_items(start, goal) {
            lemma_move_count(start, goal);
            lemma_moves_in_order(start, goal, 0);
            vstd::seq_lib::to_multiset_len(start);
            vstd::seq_lib::to_multiset_len(goal);
        }
    }
    let mut moves: Vec<MoveOperation> = Vec::new();
    if current.len() != target.len() {
        return Err(InternalConsistencyError { position: 0 });
    }
    let n: usize = target.len();
    let mut t: usize = 0;
    while t < n
        invariant
            start == old(current).deep_view(),
            goal == target.deep_view(),
            stuck(start, goal) is None <==> same_items(start, goal),
            n == target.len(),
            current.len() == n,
            t <= n,
            placed_until(current.deep_view(), goal, t as int),
            plan(start, goal) == moves@ + plan_from(current.deep_view(), goal, t as int),
            outcome(start, goal) == outcome_from(current.deep_view(), goal, t as int),
            stuck(start, goal) == stuck_from(current.deep_view(), goal, t as int),
        decreases n - t,
    {
        let ghost mirror = current.deep_view();
        let c: usize = find_from(current, &target[t], t);
        proof {
            assert(goal[t as int] == target[t as int]@);
            assert(c == lookup(mirror, goal, t as int));
            lemma_first_index_from(mirror, goal[t as int], t as int);
        }
        if c >= n {
            return Err(InternalConsistencyError { position: t });
        }
        if c != t {
            let length: usize = run_length(current, target, c, t);
            let op = MoveOperation { source: c, destination: t, length };
            proof {
                lemma_move_at(mirror, goal, t as int);
                lemma_step_places(mirror, goal, t as int);
                lemma_deep_view_is_key_views(current);
                lemma_move_commutes_with_map(current@, |k: String| k@, op);
            }
            op.apply_to(current);
            proof {
                lemma_deep_view_is_key_views(current);
                assert(current.deep_view() == apply_move(mirror, op));
                assert(moves@.push(op) + plan_from(current.deep_view(), goal, t + 1) =~= moves@
                    + (seq![op] + plan_from(current.deep_view(), goal, t + 1)));
            }
            moves.push(op);
        }
        t += 1;
    }
    proof {
        assert(moves@ + plan_from(current.deep_view(), goal, t as int) =~= moves@);
    }
    Ok(moves)
}

/// The pass, one decision at a time, for a caller who carries the moves out
/// on the remote store.
///
/// The stepper holds the mirror of the remote collection, the target and the
/// cursor. `next_move` says which block to move next; once the remote store
/// has confirmed that move, `confirm` repeats it on the mirror. A move that
/// was never confirmed leaves the mirror as the remote store still is.
pub struct Reconciler {
    mirror: Vec<String>,
    target: Vec<String>,
    cursor: usize,
    pending: Option<MoveOperation>,
    delay: DelayPolicy,
}

impl Reconciler {
    /// The mirror of the remote collection.
    pub closed spec fn mirror_keys(&self) -> Seq<Key> {
        self.mirror.deep_view()
    }

    /// The order to reach.
    pub closed spec fn target_keys(&self) -> Seq<Key> {
        self.target.deep_view()
    }

    /// The cursor: mirror and target agree before it.
    pub closed spec fn position(&self) -> int {
        self.cursor as int
    }

    /// The move that was handed out and is not yet confirmed.
    pub closed spec fn awaited(&self) -> Option<MoveOperation> {
        self.pending
    }

    /// How long the caller is to wait after each move.
    pub closed spec fn delay(&self) -> DelayPolicy {
        self.delay
    }

    /// Everything before the cursor is placed, and a move that is awaited is
    /// the one the pass issues at the cursor.
    #[verifier::type_invariant]
    spec fn wf(&self) -> bool {
        &&& placed_until(self.mirror.deep_view(), self.target.deep_view(), self.cursor as int)
        &&& match self.pending {
            None => true,
            Some(op) => {
                &&& self.mirror.len() == self.target.len()
                &&& self.cursor < lookup(
                    self.mirror.deep_view(),
                    self.target.deep_view(),
                    self.cursor as int,
                ) < self.mirror.len()
                &&& op == move_at(
                    self.mirror.deep_view(),
                    self.target.deep_view(),
                    self.cursor as int,
                )
            },
        }
    }

    /// The moves still to come.
    pub open spec fn remaining(&self) -> Seq<MoveOperation> {
        plan_from(self.mirror_keys(), self.target_keys(), self.position())
    }

    /// The mirror as the pass will leave it.
    pub open spec fn final_mirror(&self) -> Seq<Key> {
        outcome_from(self.mirror_keys(), self.target_keys(), self.position())
    }

    /// The position at which the pass will give up, if it will.
    pub open spec fn stuck_at(&self) -> Option<int> {
        stuck_from(self.mirror_keys(), self.target_keys(), self.position())
    }

    /// A stepper at the start of the pass, with the cautious wait after each
    /// move.
    pub fn new(current: Vec<String>, target: Vec<String>) -> (fresh: Reconciler)
        ensures
            fresh.mirror_keys() == current.deep_view(),
            fresh.target_keys() == target.deep_view(),
            fresh.position() == 0,
            fresh.awaited() is None,
            fresh.delay().millis_per_item == 2,
    {
        Reconciler::with_delay(current, target, DelayPolicy::default())
    }

    /// A stepper at the start of the pass that has its caller wait after each
    /// move as `delay` says.
    pub fn with_delay(current: Vec<String>, target: Vec<String>, delay: DelayPolicy) -> (fresh:
        Reconciler)
        ensures
            fresh.mirror_keys() == current.deep_view(),
            fresh.target_keys() == target.deep_view(),
            fresh.position() == 0,
            fresh.awaited() is None,
            fresh.delay() == delay,
    {
        Reconciler { mirror: current, target, cursor: 0, pending: None, delay }
    }

    /// The wait after a move that went through, in milliseconds: what the
    /// policy asks for a collection as long as the target.
    pub fn pause_millis(&self) -> (millis: u64)
        ensures
            millis == self.delay().spec_pause_millis(self.target_keys().len()),
    {
        self.delay.pause_millis(self.target.len())
    }

    /// The mirror as it stands.
    pub fn mirror(&self) -> (keys: &Vec<String>)
        ensures
            keys.deep_view() == self.mirror_keys(),
    {
        &self.mirror
    }

    /// The order to reach.
    pub fn target(&self) -> (keys: &Vec<String>)
        ensures
            keys.deep_view() == self.target_keys(),
    {
        &self.target
    }

    /// The cursor. Before it, the mirror agrees with the target.
    pub fn cursor(&self) -> (t: usize)
        ensures
            t == self.position(),
            placed_until(self.mirror_keys(), self.target_keys(), t as int),
    {
        proof {
            use_type_invariant(self);
        }
        self.cursor
    }

    /// Gives the mirror back.
    pub fn into_mirror(self) -> (keys: Vec<String>)
        ensures
            keys.deep_view() == self.mirror_keys(),
    {
        self.mirror
    }

    /// Moves the cursor over the items that are in place and says what to do
    /// at the first that is not: `Ok(Some(op))` to have the block of `op`
    /// moved, `Ok(None)` when the mirror has reached the target, and the
    /// error when the target's item at the cursor is nowhere in the unplaced
    /// part of the mirror or the two collections differ in length.
    ///
    /// The mirror is not touched, and neither is what the pass has still to
    /// do. Asking again without confirming gives the same answer.
    pub fn next_move(&mut self) -> (result: Result<Option<MoveOperation>, InternalConsistencyError>)
        ensures
            final(self).mirror_keys() == old(self).mirror_keys(),
            final(self).target_keys() == old(self).target_keys(),
            final(self).delay() == old(self).delay(),
            final(self).remaining() == old(self).remaining(),
            final(self).final_mirror() == old(self).final_mirror(),
            final(self).stuck_at() == old(self).stuck_at(),
            old(self).position() <= final(self).position() <= old(self).target_keys().len(),
            placed_until(final(self).mirror_keys(), final(self).target_keys(), final(self).position()),
            old(self).mirror_keys().len() != old(self).target_keys().len() ==> {
                &&& result is Err
                &&& final(self).position() == old(self).position()
            },
            old(self).mirror_keys().subrange(old(self).position(), final(self).position()) == old(
                self,
            ).target_keys().subrange(old(self).position(), final(self).position()),
            match result {
                Ok(Some(op)) => {
                    &&& final(self).awaited() == Some(op)
                    &&& op == move_at(
                        final(self).mirror_keys(),
                        final(self).target_keys(),
                        final(self).position(),
                    )
                    &&& final(self).remaining().len() > 0
                    &&& op == final(self).remaining()[0]
                    &&& op.fits(final(self).mirror_keys().len())
                    &&& op.pulls_forward()
                    &&& op.destination == final(self).position()
                },
                Ok(None) => {
                    &&& final(self).awaited() is None
                    &&& final(self).mirror_keys() == final(self).target_keys()
                    &&& final(self).position() == final(self).target_keys().len()
                },
                Err(e) => {
                    &&& final(self).awaited() is None
                    &&& e.position == final(self).position()
                    &&& final(self).stuck_at() == Some(final(self).position())
                },
            },
    {
        proof {
            use_type_invariant(&*self);
        }
        self.pending = None;
        if self.mirror.len() != self.target.len() {
            return Err(InternalConsistencyError { position: self.cursor });
        }
        let ghost mirror = self.mirror.deep_view();
        let ghost goal = self.target.deep_view();
        let from: usize = self.cursor;
        let t: usize = next_unplaced(&self.mirror, &self.target, from);
        proof {
            lemma_skip_placed(mirror, goal, from as int, t as int);
            assert forall|i: int| 0 <= i < t implies mirror[i] == goal[i] by {
                if i >= from {
                    assert(mirror.subrange(from as int, t as int)[i - from] == goal.subrange(
                        from as int,
                        t as int,
                    )[i - from]);
                }
            }
        }
        self.cursor = t;
        if t == self.target.len() {
            assert(mirror =~= goal);
            return Ok(None);
        }
        let c: usize = find_from(&self.mirror, &self.target[t], t);
        proof {
            assert(goal[t as int] == self.target[t as int]@);
            assert(c == lookup(mirror, goal, t as int));
            lemma_first_index_from(mirror, goal[t as int], t as int);
        }
        if c >= self.mirror.len() {
            return Err(InternalConsistencyError { position: t });
        }
        let length: usize = run_length(&self.mirror, &self.target, c, t);
        let op = MoveOperation { source: c, destination: t, length };
        proof {
            assert(mirror[t as int] == self.mirror[t as int]@);
            lemma_move_at(mirror, goal, t as int);
        }
        self.pending = Some(op);
        Ok(Some(op))
    }

    /// Records that the remote store has not carried out the move that
    /// `next_move` handed out last: the move is no longer awaited, and the
    /// mirror stays as the remote store is. Says whether there was such a
    /// move.
    pub fn abandon(&mut self) -> (abandoned: bool)
        ensures
            final(self).mirror_keys() == old(self).mirror_keys(),
            final(self).target_keys() == old(self).target_keys(),
            final(self).delay() == old(self).delay(),
            final(self).position() == old(self).position(),
            final(self).awaited() is None,
            abandoned == old(self).awaited() is Some,
    {
        proof {
            use_type_invariant(&*self);
        }
        let abandoned = self.pending.is_some();
        self.pending = None;
        abandoned
    }

    /// Records that the remote store has carried out the move that
    /// `next_move` handed out last: the mirror makes the same move and the
    /// cursor steps on. Says whether there was such a move; without one,
    /// nothing changes.
    pub fn confirm(&mut self) -> (confirmed: bool)
        ensures
            final(self).target_keys() == old(self).target_keys(),
            final(self).delay() == old(self).delay(),
            final(self).awaited() is None,
            final(self).final_mirror() == old(self).final_mirror(),
            final(self).stuck_at() == old(self).stuck_at(),
            confirmed == old(self).awaited() is Some,
            match old(self).awaited() {
                Some(op) => {
                    &&& final(self).mirror_keys() == apply_move(old(self).mirror_keys(), op)
                    &&& final(self).position() == old(self).position() + 1
                    &&& old(self).remaining() == seq![op] + final(self).remaining()
                },
                None => {
                    &&& final(self).mirror_keys() == old(self).mirror_keys()
                    &&& final(self).position() == old(self).position()
                    &&& final(self).remaining() == old(self).remaining()
                },
            },
    {
        proof {
            use_type_invariant(&*self);
        }
        match self.pending {
            None => false,
            Some(op) => {
                // The mirror is taken out for the move and put back after it.
                let mut taken = Reconciler::new(Vec::new(), Vec::new());
                core::mem::swap(self, &mut taken);
                let Reconciler { mirror, target, cursor, pending: _, delay } = taken;
                let mut mirror = mirror;
                let ghost before = mirror.deep_view();
                let ghost goal = target.deep_view();
                proof {
                    lemma_move_at(before, goal, cursor as int);
                    lemma_step_places(before, goal, cursor as int);
                    lemma_deep_view_is_key_views(&mirror);
                    lemma_move_commutes_with_map(mirror@, |k: String| k@, op);
                }
                op.apply_to(&mut mirror);
                proof {
                    lemma_deep_view_is_key_views(&mirror);
                }
                *self = Reconciler { mirror, target, cursor: cursor + 1, pending: None, delay };
                true
            },
        }
    }
}

} // verus!
