//! The mathematical model of a coin bag.
//!
//! A bag is a finite map from denominations to positive amounts. A
//! denomination that the map does not hold counts as amount zero, so two bags
//! are equal exactly when they hold the same amount of every denomination.

use vstd::prelude::*;
use crate::denom::valid_denom;
use crate::fee::{fee_of, lemma_fee_and_net_make_amount, lemma_net_of_positive, net_of};

verus! {

/// A bag as contracts speak of it.
pub type Bag = Map<Seq<char>, nat>;

/// The bag that holds nothing.
pub open spec fn empty_bag() -> Bag {
    Map::empty()
}

/// How much of denomination `d` the bag holds.
pub open spec fn amount_of(b: Bag, d: Seq<char>) -> nat {
    if b.contains_key(d) {
        b[d]
    } else {
        0
    }
}

/// Whether every amount of `b` fits into 128 bits.
pub open spec fn bag_fits(b: Bag) -> bool {
    forall|d: Seq<char>| #[trigger] b.contains_key(d) ==> b[d] <= u128::MAX
}

/// The bags that a [`crate::coins::SomeCoins`] can hold: finitely many
/// denominations, each one valid and with a positive amount of at most
/// `u128::MAX`.
pub open spec fn bag_wf(b: Bag) -> bool {
    &&& b.dom().finite()
    &&& forall|d: Seq<char>| #[trigger]
            b.contains_key(d) ==> 0 < b[d] <= u128::MAX && valid_denom(d)
}

/// The bag `b` with `amount` more of denomination `d`.
pub open spec fn credited(b: Bag, d: Seq<char>, amount: nat) -> Bag {
    if amount == 0 {
        b
    } else {
        b.insert(d, amount_of(b, d) + amount)
    }
}

/// The sum of two bags, denomination by denomination.
pub open spec fn bag_add(a: Bag, b: Bag) -> Bag {
    Map::new(
        |d: Seq<char>| a.contains_key(d) || b.contains_key(d),
        |d: Seq<char>| amount_of(a, d) + amount_of(b, d),
    )
}

/// The recipient's share of a bag: the net share of each amount.
pub open spec fn bag_net(b: Bag) -> Bag {
    Map::new(|d: Seq<char>| b.contains_key(d) && net_of(b[d]) > 0, |d: Seq<char>| net_of(b[d]))
}

/// The fee on a bag: the fee on each amount, where it is not zero.
pub open spec fn bag_fee(b: Bag) -> Bag {
    Map::new(|d: Seq<char>| b.contains_key(d) && fee_of(b[d]) > 0, |d: Seq<char>| fee_of(b[d]))
}

/// Adding bags does not depend on their order.
pub proof fn lemma_bag_add_commutes(a: Bag, b: Bag)
    ensures
        bag_add(a, b) == bag_add(b, a),
{
    assert(bag_add(a, b) =~= bag_add(b, a));
}

/// Adding bags does not depend on how they are grouped.
pub proof fn lemma_bag_add_associates(a: Bag, b: Bag, c: Bag)
    ensures
        bag_add(bag_add(a, b), c) == bag_add(a, bag_add(b, c)),
{
    assert(bag_add(bag_add(a, b), c) =~= bag_add(a, bag_add(b, c)));
}

/// Crediting one amount after adding a bag is adding the bag that was
/// credited.
pub proof fn lemma_bag_add_credited(a: Bag, b: Bag, d: Seq<char>, amount: nat)
    ensures
        bag_add(a, credited(b, d, amount)) == credited(bag_add(a, b), d, amount),
{
    assert(bag_add(a, credited(b, d, amount)) =~= credited(bag_add(a, b), d, amount));
}

/// Net share and fee of a valid bag are valid bags, and together they make
/// the bag: no unit is lost and none is created.
pub proof fn lemma_net_and_fee_make_bag(b: Bag)
    requires
        bag_wf(b),
    ensures
        bag_wf(bag_net(b)),
        bag_wf(bag_fee(b)),
        bag_net(b).dom() == b.dom(),
        bag_add(bag_net(b), bag_fee(b)) == b,
{
    assert forall|d: Seq<char>| #[trigger] b.contains_key(d) implies net_of(b[d]) > 0
        && fee_of(b[d]) + net_of(b[d]) == b[d] by {
        lemma_net_of_positive(b[d]);
        lemma_fee_and_net_make_amount(b[d]);
    }
    assert(bag_net(b).dom() =~= b.dom());
    assert(bag_fee(b).dom().subset_of(b.dom()));
    vstd::set_lib::lemma_len_subset(bag_fee(b).dom(), b.dom());
    assert(bag_add(bag_net(b), bag_fee(b)) =~= b);
}

} // verus!
