//! The one mutation the remote store offers: lifting a contiguous block out
//! of the collection and setting it down at another position.

use vstd::prelude::*;

verus! {

/// "Take the `length` items that start at `source` out of the collection and
/// put them back, in the same order, so that the first of them lands at
/// position `destination`."
#[derive(Clone, Copy, Debug, PartialEq, Eq, Structural)]
pub struct MoveOperation {
    pub source: usize,
    pub destination: usize,
    pub length: usize,
}

impl MoveOperation {
    /// The move names a non-empty block inside a collection of `n` items and
    /// a landing position at which the whole block still fits.
    pub open spec fn fits(self, n: nat) -> bool {
        &&& self.length >= 1
        &&& self.source + self.length <= n
        &&& self.destination + self.length <= n
    }

    /// The move pulls a block towards the front.
    pub open spec fn pulls_forward(self) -> bool {
        self.destination < self.source
    }
}

/// What is left of `s` once the block of `op` is lifted out.
pub open spec fn without_block<K>(s: Seq<K>, op: MoveOperation) -> Seq<K> {
    s.subrange(0, op.source as int) + s.subrange(op.source + op.length, s.len() as int)
}

/// The block that `op` lifts out of `s`.
pub open spec fn block_of<K>(s: Seq<K>, op: MoveOperation) -> Seq<K> {
    s.subrange(op.source as int, op.source + op.length)
}

/// The collection after `op`: the block is removed, then put back so that it
/// starts at the destination.
pub open spec fn apply_move<K>(s: Seq<K>, op: MoveOperation) -> Seq<K>
    recommends
        op.fits(s.len()),
{
    let rest = without_block(s, op);
    rest.subrange(0, op.destination as int) + block_of(s, op) + rest.subrange(
        op.destination as int,
        rest.len() as int,
    )
}

/// A move rearranges: it keeps the number of items and how often each occurs.
pub proof fn lemma_move_rearranges<K>(s: Seq<K>, op: MoveOperation)
    requires
        op.fits(s.len()),
    ensures
        apply_move(s, op).len() == s.len(),
        apply_move(s, op).to_multiset() == s.to_multiset(),
{
    broadcast use vstd::multiset::group_multiset_axioms;

    let rest = without_block(s, op);
    let block = block_of(s, op);
    let head = rest.subrange(0, op.destination as int);
    let tail = rest.subrange(op.destination as int, rest.len() as int);
    let front = s.subrange(0, op.source as int);
    let back = s.subrange(op.source + op.length, s.len() as int);
    let (mh, mb, mt) = (head.to_multiset(), block.to_multiset(), tail.to_multiset());
    let (mf, mk) = (front.to_multiset(), back.to_multiset());
    vstd::seq_lib::lemma_multiset_commutative(head + block, tail);
    vstd::seq_lib::lemma_multiset_commutative(head, block);
    vstd::seq_lib::lemma_multiset_commutative(head, tail);
    assert(head + tail =~= rest);
    assert(rest == front + back);
    vstd::seq_lib::lemma_multiset_commutative(front, back);
    vstd::seq_lib::lemma_multiset_commutative(front + block, back);
    vstd::seq_lib::lemma_multiset_commutative(front, block);
    assert(front + block + back =~= s);
    assert(apply_move(s, op) == head + block + tail);
    assert(apply_move(s, op).to_multiset() =~= mh.add(mb).add(mt));
    assert(mh.add(mt) =~= mf.add(mk));
    assert(s.to_multiset() =~= mf.add(mb).add(mk));
    assert forall|v: K| #[trigger] mh.add(mb).add(mt).count(v) == mf.add(mb).add(mk).count(v) by {
        assert(mh.add(mt).count(v) == mf.add(mk).count(v));
    }
    assert(mh.add(mb).add(mt) =~= mf.add(mb).add(mk));
    assert(apply_move(s, op).to_multiset() =~= s.to_multiset());
}

/// A move that pulls a block forward leaves everything before the
/// destination and everything behind the block where it was, and shifts what
/// lay between the two back by the block's length.
pub proof fn lemma_pull_forward_shape<K>(s: Seq<K>, op: MoveOperation)
    requires
        op.fits(s.len()),
        op.destination <= op.source,
    ensures
        apply_move(s, op) == s.subrange(0, op.destination as int) + block_of(s, op) + s.subrange(
            op.destination as int,
            op.source as int,
        ) + s.subrange(op.source + op.length, s.len() as int),
{
    assert(apply_move(s, op) =~= s.subrange(0, op.destination as int) + block_of(s, op)
        + s.subrange(op.destination as int, op.source as int) + s.subrange(
        op.source + op.length,
        s.len() as int,
    ));
}

/// Moving a block and then looking at each item through `f` gives what
/// looking first and moving then gives.
pub proof fn lemma_move_commutes_with_map<A, B>(s: Seq<A>, f: spec_fn(A) -> B, op: MoveOperation)
    requires
        op.fits(s.len()),
    ensures
        apply_move(s.map_values(f), op) == apply_move(s, op).map_values(f),
{
    assert(apply_move(s.map_values(f), op) =~= apply_move(s, op).map_values(f));
}

impl MoveOperation {
    /// Carries the move out on `items` if it fits them, and says whether it
    /// did. A move that does not fit leaves the items untouched.
    pub fn apply_to<T>(self, items: &mut Vec<T>) -> (applied: bool)
        ensures
            applied == self.fits(old(items)@.len()),
            applied ==> final(items)@ == apply_move(old(items)@, self),
            !applied ==> final(items)@ == old(items)@,
    {
        let n: usize = items.len();
        if self.length == 0 || self.source > n || self.length > n - self.source
            || self.destination > n - self.length {
            return false;
        }
        let mut behind = items.split_off(self.source + self.length);
        let mut block = items.split_off(self.source);
        items.append(&mut behind);
        let mut rest = items.split_off(self.destination);
        items.append(&mut block);
        items.append(&mut rest);
        assert(items@ =~= apply_move(old(items)@, self));
        true
    }
}

} // verus!
