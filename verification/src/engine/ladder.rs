use crate::engine::lemmas::{lemma_highest_is, lemma_lowest_is, lemma_no_best_of_empty};
use crate::engine::model::{highest, lowest};
use crate::inputs::{Order, Price};
use std::collections::BTreeMap;
use vstd::prelude::*;
use vstd::std_specs::btree::{
    axiom_increasing_seq_meaning, axiom_spec_keys_iter, group_btree_axioms, increasing_seq,
    spec_keys_iter,
};
use vstd::std_specs::cmp::OrdSpec;
use vstd::std_specs::iter::IteratorSpec;

verus! {

/// Each price is below all that follow it.
pub open spec fn strictly_ascending(prices: Seq<Price>) -> bool {
    forall|i: int, j: int| 0 <= i < j < prices.len() ==> prices[i] < prices[j]
}

/// The keys of a ladder come out of its key iterator in strictly ascending
/// order, each once, and they are all of its keys.
pub proof fn lemma_keys_ascending(ladder: &BTreeMap<Price, Vec<Order>>)
    ensures
        ({
            let keys = spec_keys_iter(ladder).remaining();
            &&& keys.unref().to_set() == ladder@.dom()
            &&& keys.len() == ladder@.dom().len()
            &&& strictly_ascending(keys.unref())
        }),
{
    broadcast use group_btree_axioms;
    broadcast use vstd::laws_cmp::lemma_ref_obeys_cmp_spec;

    let keys = spec_keys_iter(ladder).remaining();
    axiom_spec_keys_iter(ladder);
    assert(increasing_seq(keys));
    assert(vstd::laws_cmp::obeys_cmp::<&Price>());
    axiom_increasing_seq_meaning::<&Price>(keys);
    assert forall|i: int, j: int| 0 <= i < j < keys.len() implies keys.unref()[i]
        < keys.unref()[j] by {
        assert((&keys[i]).cmp_spec(&keys[j]) is Less);
    }
}

/// The prices of a ladder, lowest first.
pub fn ladder_prices(ladder: &BTreeMap<Price, Vec<Order>>) -> (prices: Vec<Price>)
    ensures
        prices@.to_set() == ladder@.dom(),
        prices@.len() == ladder@.dom().len(),
        strictly_ascending(prices@),
{
    let mut prices: Vec<Price> = Vec::new();
    let keys = ladder.keys();
    proof {
        broadcast use group_btree_axioms;

        lemma_keys_ascending(ladder);
    }
    let ghost all = keys.remaining();
    for price in it: keys
        invariant
            it.seq() == all,
            prices@.len() == it.index(),
            forall|j: int| 0 <= j < prices@.len() ==> prices@[j] == *all[j],
    {
        prices.push(*price);
    }
    assert(prices@ =~= all.unref());
    prices
}

/// The lowest price of a ladder, if it has any level.
pub fn lowest_price(ladder: &BTreeMap<Price, Vec<Order>>) -> (price: Option<Price>)
    ensures
        price == lowest(ladder@.dom()),
{
    let keys = ladder.keys();
    proof {
        broadcast use group_btree_axioms;

        lemma_keys_ascending(ladder);
    }
    let ghost all = keys.remaining();
    for price in it: keys
        invariant
            it.seq() == all,
            it.index() == 0,
            all.unref().to_set() == ladder@.dom(),
            strictly_ascending(all.unref()),
    {
        proof {
            assert(all.unref()[0] == *price);
            assert(all.unref().to_set().contains(*price));
            assert forall|q: Price| ladder@.dom().contains(q) implies *price <= q by {
                assert(all.unref().to_set().contains(q));
                let k = choose|k: int| 0 <= k < all.unref().len() && all.unref()[k] == q;
                assert(all.unref()[k] == q);
            }
            lemma_lowest_is(ladder@.dom(), *price);
        }
        return Some(*price);
    }
    proof {
        assert(all.len() == 0);
        assert(ladder@.dom().is_empty());
        lemma_no_best_of_empty(ladder@.dom());
    }
    None
}

/// The highest price of a ladder, if it has any level.
pub fn highest_price(ladder: &BTreeMap<Price, Vec<Order>>) -> (price: Option<Price>)
    ensures
        price == highest(ladder@.dom()),
{
    let mut last: Option<Price> = None;
    let keys = ladder.keys();
    proof {
        broadcast use group_btree_axioms;

        lemma_keys_ascending(ladder);
    }
    let ghost all = keys.remaining();
    for price in it: keys
        invariant
            it.seq() == all,
            it.index() == 0 ==> last is None,
            it.index() > 0 ==> last == Some(*all[it.index() - 1]),
    {
        last = Some(*price);
    }
    proof {
        match last {
            Some(top) => {
                let n = all.len() as int;
                assert(all.unref()[n - 1] == top);
                assert(all.unref().to_set().contains(top));
                assert forall|q: Price| ladder@.dom().contains(q) implies q <= top by {
                    assert(all.unref().to_set().contains(q));
                    let k = choose|k: int| 0 <= k < all.unref().len() && all.unref()[k] == q;
                    assert(all.unref()[k] == q);
                }
                lemma_highest_is(ladder@.dom(), top);
            },
            None => {
                assert(all.len() == 0);
                assert(ladder@.dom().is_empty());
                lemma_no_best_of_empty(ladder@.dom());
            },
        }
    }
    last
}

} // verus!
