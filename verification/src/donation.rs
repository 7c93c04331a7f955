//! One donation: who gave, and what was given before the fee.
//!
//! What reaches the project and what the fee collector gets are not stored:
//! both follow from the raw amount by the fee schedule, denomination by
//! denomination.

use vstd::prelude::*;
use crate::bag::{
    bag_fee, bag_net, bag_wf, credited, empty_bag, lemma_net_and_fee_make_bag, Bag,
};
use crate::coins::SomeCoins;
use crate::fee::{fee, fee_of, lemma_net_of_positive, net, net_of};
use crate::listing::{
    bag_of, coin_views, holds, is_listing, lemma_bag_of_listing, lemma_bag_of_next,
};

verus! {

/// A donation as contracts speak of it.
pub struct DonationView {
    pub donor: Seq<char>,
    pub raw_amount: Bag,
}

/// A donation as the ledger keeps it. It never changes once it is made.
#[derive(Debug, PartialEq, Eq)]
pub struct Donation {
    donor: String,
    raw_amount: SomeCoins,
}

impl View for Donation {
    type V = DonationView;

    closed spec fn view(&self) -> DonationView {
        DonationView { donor: self.donor@, raw_amount: self.raw_amount@ }
    }
}

impl Clone for Donation {
    fn clone(&self) -> (copy: Self)
        ensures
            copy@ == self@,
    {
        Donation { donor: self.donor.clone(), raw_amount: self.raw_amount.clone() }
    }
}

/// The donations of `v` as contracts speak of them.
pub open spec fn donation_views(v: Seq<Donation>) -> Seq<DonationView> {
    v.map_values(|d: Donation| d@)
}

/// Whether every donation of `v` holds a valid bag.
pub open spec fn all_wf(v: Seq<Donation>) -> bool {
    forall|i: int| 0 <= i < v.len() ==> (#[trigger] v[i]).wf()
}

/// Net share and fee of a bag with one more coin of a new denomination are
/// the net share and the fee of the bag, each with its part of that coin.
proof fn lemma_shares_of_credited(b: Bag, d: Seq<char>, amount: nat)
    requires
        !b.contains_key(d),
        amount > 0,
    ensures
        bag_net(credited(b, d, amount)) == credited(bag_net(b), d, net_of(amount)),
        bag_fee(credited(b, d, amount)) == credited(bag_fee(b), d, fee_of(amount)),
{
    lemma_net_of_positive(amount);
    assert(bag_net(credited(b, d, amount)) =~= credited(bag_net(b), d, net_of(amount)));
    assert(bag_fee(credited(b, d, amount)) =~= credited(bag_fee(b), d, fee_of(amount)));
}

impl Donation {
    /// A donation holds a valid bag.
    pub open spec fn wf(&self) -> bool {
        bag_wf(self@.raw_amount)
    }

    /// The donation of `raw_amount` by `donor`.
    pub fn new(donor: String, raw_amount: SomeCoins) -> (donation: Donation)
        requires
            raw_amount.wf(),
        ensures
            donation.wf(),
            donation@ == (DonationView { donor: donor@, raw_amount: raw_amount@ }),
    {
        Donation { donor, raw_amount }
    }

    /// Who gave.
    pub fn donor(&self) -> (donor: &String)
        ensures
            donor@ == self@.donor,
    {
        &self.donor
    }

    /// What was given, before the fee.
    pub fn raw_amount(&self) -> (raw: &SomeCoins)
        ensures
            raw@ == self@.raw_amount,
    {
        &self.raw_amount
    }

    /// What reaches the project and what the fee collector gets, in this
    /// order. Together they make the raw amount.
    pub fn shares(&self) -> (shares: (SomeCoins, SomeCoins))
        requires
            self.wf(),
        ensures
            shares.0.wf(),
            shares.1.wf(),
            shares.0@ == bag_net(self@.raw_amount),
            shares.1@ == bag_fee(self@.raw_amount),
    {
        let entries = self.raw_amount.entries();
        let ghost raw = self@.raw_amount;
        let ghost l = coin_views(entries@);
        let mut net_share = SomeCoins::new();
        let mut fee_share = SomeCoins::new();
        proof {
            lemma_net_and_fee_make_bag(empty_bag());
            assert(bag_net(empty_bag()) =~= empty_bag());
            assert(bag_fee(empty_bag()) =~= empty_bag());
        }
        let mut i: usize = 0;
        while i < entries.len()
            invariant
                i <= entries@.len(),
                l == coin_views(entries@),
                is_listing(l, raw),
                bag_wf(raw),
                net_share.wf(),
                fee_share.wf(),
                net_share@ == bag_net(bag_of(l.take(i as int))),
                fee_share@ == bag_fee(bag_of(l.take(i as int))),
            decreases entries@.len() - i,
        {
            let ghost seen = bag_of(l.take(i as int));
            let ghost coin = l[i as int];
            proof {
                assert(holds(raw, l[i as int]));
                lemma_bag_of_next(l, i as int);
                lemma_shares_of_credited(seen, coin.denom, coin.amount);
            }
            let amount = entries[i].amount;
            let net_added = net_share.add_coin(entries[i].denom.as_str(), net(amount));
            let fee_added = fee_share.add_coin(entries[i].denom.as_str(), fee(amount));
            assert(net_added is Ok && fee_added is Ok);
            i += 1;
        }
        proof {
            assert(l.take(i as int) =~= l);
            lemma_bag_of_listing(l, raw);
        }
        (net_share, fee_share)
    }

    /// What reaches the project: for each denomination the raw amount less
    /// the fee on it.
    pub fn net_amount(&self) -> (net_share: SomeCoins)
        requires
            self.wf(),
        ensures
            net_share.wf(),
            net_share@ == bag_net(self@.raw_amount),
    {
        self.shares().0
    }

    /// What the fee collector gets: for each denomination the fee on the raw
    /// amount, where it is not zero.
    pub fn fee_amount(&self) -> (fee_share: SomeCoins)
        requires
            self.wf(),
        ensures
            fee_share.wf(),
            fee_share@ == bag_fee(self@.raw_amount),
    {
        self.shares().1
    }
}

} // verus!
