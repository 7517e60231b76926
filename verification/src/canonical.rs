//! From the items of a collection to its keys: in the order in which the
//! collection holds them, and in the order in which it should.

use vstd::prelude::*;
use crate::error::{ValidationError, ValidationErrorView};
use crate::item::{Item, ItemView};
use crate::key::{build_key, key_of};
use crate::order::Key;
use crate::sort::{sort_keys, sorted_keys};

verus! {

/// The items as contracts see them.
pub open spec fn item_views(items: Seq<Item>) -> Seq<ItemView> {
    items.map_values(|item: Item| item@)
}

/// The keys of the items, in the items' order, or the error of the first
/// item that has no key.
pub open spec fn keys_of(items: Seq<ItemView>) -> Result<Seq<Key>, ValidationErrorView>
    decreases items.len(),
{
    if items.len() == 0 {
        Ok(Seq::empty())
    } else {
        match keys_of(items.drop_last()) {
            Err(e) => Err(e),
            Ok(keys) => match key_of(items.last()) {
                Err(e) => Err(e),
                Ok(key) => Ok(keys.push(key)),
            },
        }
    }
}

/// Where every item has a key, the keys are the items' keys, one for one.
pub proof fn lemma_keys_of_all(items: Seq<ItemView>)
    requires
        forall|i: int| 0 <= i < items.len() ==> (#[trigger] key_of(items[i])) is Ok,
    ensures
        keys_of(items) is Ok,
        keys_of(items)->Ok_0.len() == items.len(),
        forall|i: int|
            0 <= i < items.len() ==> (#[trigger] keys_of(items)->Ok_0[i]) == key_of(items[i])->Ok_0,
    decreases items.len(),
{
    if items.len() > 0 {
        let front = items.drop_last();
        assert forall|i: int| 0 <= i < front.len() implies (#[trigger] key_of(front[i])) is Ok by {
            assert(front[i] == items[i]);
        }
        lemma_keys_of_all(front);
        assert forall|i: int| 0 <= i < items.len() implies (#[trigger] keys_of(items)->Ok_0[i])
            == key_of(items[i])->Ok_0 by {
            if i < front.len() {
                assert(front[i] == items[i]);
                assert(keys_of(front)->Ok_0[i] == key_of(front[i])->Ok_0);
            }
        }
    }
}

/// One item without a key rejects the collection, and the error is that of
/// the first such item.
pub proof fn lemma_keys_of_first_failure(items: Seq<ItemView>, first: int)
    requires
        0 <= first < items.len(),
        key_of(items[first]) is Err,
        forall|i: int| 0 <= i < first ==> (#[trigger] key_of(items[i])) is Ok,
    ensures
        keys_of(items) == Err::<Seq<Key>, ValidationErrorView>(key_of(items[first])->Err_0),
    decreases items.len(),
{
    let front = items.drop_last();
    if first == items.len() - 1 {
        assert forall|i: int| 0 <= i < front.len() implies (#[trigger] key_of(front[i])) is Ok by {
            assert(front[i] == items[i]);
        }
        lemma_keys_of_all(front);
    } else {
        assert(front[first] == items[first]);
        assert forall|i: int| 0 <= i < first implies (#[trigger] key_of(front[i])) is Ok by {
            assert(front[i] == items[i]);
        }
        lemma_keys_of_first_failure(front, first);
    }
}

/// A collection that holds an entry that is no track, or a track from local
/// storage, has no keys, wherever the entry stands.
pub proof fn lemma_ineligible_item_rejects(items: Seq<ItemView>, at: int)
    requires
        0 <= at < items.len(),
        items[at] is Episode || (items[at] is Track && items[at]->Track_0.is_local),
    ensures
        keys_of(items) is Err,
    decreases items.len(),
{
    if at < items.len() - 1 {
        assert(items.drop_last()[at] == items[at]);
        lemma_ineligible_item_rejects(items.drop_last(), at);
    }
}

/// Gathers the keys of a collection whose items arrive one by one.
pub struct Canonicalizer {
    keys: Vec<String>,
}

impl Canonicalizer {
    /// The keys gathered so far, in the order of arrival.
    pub closed spec fn gathered(&self) -> Seq<Key> {
        self.keys.deep_view()
    }

    /// A gatherer that has seen no item yet.
    pub fn new() -> (fresh: Canonicalizer)
        ensures
            fresh.gathered() == Seq::<Key>::empty(),
    {
        let fresh = Canonicalizer { keys: Vec::new() };
        assert(fresh.keys.deep_view() =~= Seq::<Key>::empty());
        fresh
    }

    /// Takes the next item: its key joins the gathered keys, or its error is
    /// returned and nothing is gathered.
    pub fn accept(&mut self, item: &Item) -> (result: Result<(), ValidationError>)
        ensures
            match result {
                Ok(()) => {
                    &&& key_of(item@) is Ok
                    &&& final(self).gathered() == old(self).gathered().push(key_of(item@)->Ok_0)
                },
                Err(e) => {
                    &&& key_of(item@) == Err::<Key, ValidationErrorView>(e@)
                    &&& final(self).gathered() == old(self).gathered()
                },
            },
    {
        match build_key(item) {
            Ok(key) => {
                self.keys.push(key);
                assert(self.keys.deep_view() =~= old(self).keys.deep_view().push(key@));
                Ok(())
            },
            Err(e) => Err(e),
        }
    }

    /// The gathered keys twice: as they arrived, and sorted.
    pub fn finish(self) -> (orders: (Vec<String>, Vec<String>))
        ensures
            orders.0.deep_view() == self.gathered(),
            orders.1.deep_view() == sorted_keys(self.gathered()),
    {
        let target = sort_keys(copy_of(&self.keys));
        (self.keys, target)
    }
}

/// A copy of the keys.
fn copy_of(keys: &Vec<String>) -> (copy: Vec<String>)
    ensures
        copy.deep_view() == keys.deep_view(),
{
    let mut copy: Vec<String> = Vec::new();
    let mut i: usize = 0;
    while i < keys.len()
        invariant
            i <= keys.len(),
            copy.len() == i,
            forall|j: int| 0 <= j < i ==> copy[j]@ == keys[j]@,
        decreases keys.len() - i,
    {
        copy.push(keys[i].clone());
        i += 1;
    }
    assert(copy.deep_view() =~= keys.deep_view());
    copy
}

/// The keys of a collection, first in the collection's order and then
/// sorted, or the error of the first item that has no key.
pub fn canonicalize(items: &Vec<Item>) -> (result: Result<(Vec<String>, Vec<String>), ValidationError>)
    ensures
        match result {
            Ok((current, target)) => {
                &&& keys_of(item_views(items@)) == Ok::<Seq<Key>, ValidationErrorView>(
                    current.deep_view(),
                )
                &&& target.deep_view() == sorted_keys(current.deep_view())
            },
            Err(e) => keys_of(item_views(items@)) == Err::<Seq<Key>, ValidationErrorView>(e@),
        },
{
    let ghost views = item_views(items@);
    let mut gatherer = Canonicalizer::new();
    let mut i: usize = 0;
    while i < items.len()
        invariant
            i <= items.len(),
            views == item_views(items@),
            keys_of(views.take(i as int)) == Ok::<Seq<Key>, ValidationErrorView>(gatherer.gathered()),
        decreases items.len() - i,
    {
        proof {
            assert(views.take(i + 1).drop_last() =~= views.take(i as int));
            assert(views.take(i + 1).last() == items[i as int]@);
        }
        match gatherer.accept(&items[i]) {
            Ok(()) => {},
            Err(e) => {
                proof {
                    lemma_keys_of_prefix_failure(views, i + 1);
                }
                return Err(e);
            },
        }
        i += 1;
    }
    proof {
        assert(views.take(i as int) =~= views);
    }
    Ok(gatherer.finish())
}

/// A collection whose beginning has no keys has none either, for the same
/// reason.
proof fn lemma_keys_of_prefix_failure(items: Seq<ItemView>, n: int)
    requires
        0 <= n <= items.len(),
        keys_of(items.take(n)) is Err,
    ensures
        keys_of(items) == keys_of(items.take(n)),
    decreases items.len() - n,
{
    if n < items.len() {
        assert(items.take(n + 1).drop_last() =~= items.take(n));
        lemma_keys_of_prefix_failure(items, n + 1);
    } else {
        assert(items.take(n) =~= items);
    }
}

} // verus!
