//! The total order on canonical keys: lexicographic comparison of the
//! characters' code points.

use vstd::prelude::*;
use vstd::relations::total_ordering;
use vstd::std_specs::iter::IteratorSpec;

verus! {

/// A canonical key as contracts see it: the sequence of its characters.
pub type Key = Seq<char>;

/// `a` sorts at or before `b`.
///
/// The first position at which the two keys differ decides; a key that is a
/// prefix of another sorts before it.
pub open spec fn key_le(a: Key, b: Key) -> bool
    decreases a.len(),
{
    if a.len() == 0 {
        true
    } else if b.len() == 0 {
        false
    } else if a[0] != b[0] {
        (a[0] as int) < (b[0] as int)
    } else {
        key_le(a.drop_first(), b.drop_first())
    }
}

/// `a` sorts strictly before `b`.
pub open spec fn key_lt(a: Key, b: Key) -> bool {
    key_le(a, b) && a != b
}

/// Decides `key_le` on two strings by walking both character by character.
pub fn precedes_or_equals(a: &str, b: &str) -> (r: bool)
    ensures
        r == key_le(a@, b@),
{
    let mut left = a.chars();
    let mut right = b.chars();
    loop
        invariant
            key_le(a@, b@) == key_le(left.remaining(), right.remaining()),
            left.decrease() is Some,
        decreases left.decrease()->0,
    {
        let x = left.next();
        let y = right.next();
        match x {
            None => {
                return true;
            },
            Some(cx) => {
                match y {
                    None => {
                        return false;
                    },
                    Some(cy) => {
                        if cx != cy {
                            return cx < cy;
                        }
                    },
                }
            },
        }
    }
}

/// The order on keys as a relation, in the form that the sequence library's
/// sorting specifications take.
pub open spec fn key_order() -> spec_fn(Key, Key) -> bool {
    |a: Key, b: Key| key_le(a, b)
}

/// Every key sorts at or before itself.
pub proof fn lemma_key_le_reflexive(a: Key)
    ensures
        key_le(a, a),
    decreases a.len(),
{
    if a.len() > 0 {
        lemma_key_le_reflexive(a.drop_first());
    }
}

/// Two keys that each sort at or before the other are the same key.
pub proof fn lemma_key_le_antisymmetric(a: Key, b: Key)
    requires
        key_le(a, b),
        key_le(b, a),
    ensures
        a == b,
    decreases a.len(),
{
    if a.len() == 0 || b.len() == 0 {
        assert(a =~= b);
    } else {
        lemma_key_le_antisymmetric(a.drop_first(), b.drop_first());
        assert(a =~= seq![a[0]] + a.drop_first());
        assert(b =~= seq![b[0]] + b.drop_first());
    }
}

/// The order is transitive.
pub proof fn lemma_key_le_transitive(a: Key, b: Key, c: Key)
    requires
        key_le(a, b),
        key_le(b, c),
    ensures
        key_le(a, c),
    decreases a.len(),
{
    if a.len() > 0 && b.len() > 0 && c.len() > 0 && a[0] == b[0] && b[0] == c[0] {
        lemma_key_le_transitive(a.drop_first(), b.drop_first(), c.drop_first());
    }
}

/// Any two keys are comparable.
pub proof fn lemma_key_le_total(a: Key, b: Key)
    ensures
        key_le(a, b) || key_le(b, a),
    decreases a.len(),
{
    if a.len() > 0 && b.len() > 0 {
        if a[0] == b[0] {
            lemma_key_le_total(a.drop_first(), b.drop_first());
        }
    }
}

/// The order on keys is a total order.
pub proof fn lemma_key_order_is_total()
    ensures
        total_ordering(key_order()),
{
    let r = key_order();
    assert forall|a: Key| #[trigger] r(a, a) by {
        lemma_key_le_reflexive(a);
    }
    assert forall|a: Key, b: Key| #[trigger] r(a, b) && #[trigger] r(b, a) implies a == b by {
        lemma_key_le_antisymmetric(a, b);
    }
    assert forall|a: Key, b: Key, c: Key| #[trigger] r(a, b) && #[trigger] r(b, c) implies r(
        a,
        c,
    ) by {
        lemma_key_le_transitive(a, b, c);
    }
    assert forall|a: Key, b: Key| #[trigger] r(a, b) || #[trigger] r(b, a) by {
        lemma_key_le_total(a, b);
    }
}

/// A key sorts at or before every key that it begins.
pub proof fn lemma_prefix_sorts_first(p: Key, rest: Key)
    ensures
        key_le(p, p + rest),
    decreases p.len(),
{
    if p.len() > 0 {
        assert((p + rest).drop_first() =~= p.drop_first() + rest);
        lemma_prefix_sorts_first(p.drop_first(), rest);
    }
}

/// A shared prefix does not take part in the comparison.
pub proof fn lemma_key_le_common_prefix(p: Key, a: Key, b: Key)
    ensures
        key_le(p + a, p + b) == key_le(a, b),
    decreases p.len(),
{
    if p.len() == 0 {
        assert(p + a =~= a);
        assert(p + b =~= b);
    } else {
        let q = p.drop_first();
        assert((p + a).drop_first() =~= q + a);
        assert((p + b).drop_first() =~= q + b);
        lemma_key_le_common_prefix(q, a, b);
    }
}

/// Two keys of which neither is a prefix of the other are ordered by the
/// first character in which they differ, whatever follows it.
pub proof fn lemma_key_le_first_difference(p: Key, x: char, y: char, a: Key, b: Key)
    requires
        x != y,
    ensures
        key_le(p + seq![x] + a, p + seq![y] + b) == ((x as int) < (y as int)),
{
    assert(p + seq![x] + a =~= p + (seq![x] + a));
    assert(p + seq![y] + b =~= p + (seq![y] + b));
    lemma_key_le_common_prefix(p, seq![x] + a, seq![y] + b);
}

/// Where two keys go on differently after a shared prefix, and the parts in
/// which they differ are equally long, those parts decide: what follows them
/// does not matter.
pub proof fn lemma_key_lt_decided(p: Key, x: Key, y: Key, a: Key, b: Key)
    requires
        x.len() == y.len(),
        key_lt(x, y),
    ensures
        key_lt(p + x + a, p + y + b),
    decreases x.len(),
{
    assert(p + x + a =~= p + (x + a));
    assert(p + y + b =~= p + (y + b));
    lemma_key_le_common_prefix(p, x + a, y + b);
    if x.len() == 0 {
        assert(x =~= y);
    } else if x[0] != y[0] {
        assert((x + a)[0] == x[0]);
        assert((y + b)[0] == y[0]);
        assert(key_le(x + a, y + b));
        assert((p + (x + a))[p.len() as int] != (p + (y + b))[p.len() as int]);
    } else {
        let (x1, y1) = (x.drop_first(), y.drop_first());
        assert(x1 != y1) by {
            if x1 == y1 {
                assert(x =~= seq![x[0]] + x1);
                assert(y =~= seq![y[0]] + y1);
            }
        }
        lemma_key_lt_decided(seq![x[0]], x1, y1, a, b);
        assert(seq![x[0]] + x1 + a =~= x + a);
        assert(seq![x[0]] + y1 + b =~= y + b);
        assert(p + (x + a) != p + (y + b)) by {
            if p + (x + a) == p + (y + b) {
                assert((p + (x + a)).subrange(p.len() as int, (p + (x + a)).len() as int) =~= x + a);
                assert((p + (y + b)).subrange(p.len() as int, (p + (y + b)).len() as int) =~= y + b);
            }
        }
    }
}

} // verus!
