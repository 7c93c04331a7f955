//! The totals of a list of donations: what was sent and what arrived.
//!
//! Both sums are folded from the left over the list, starting from the empty
//! bag. The net share of each donation is taken before it is added, so the
//! fee tier of an amount depends on the single donation and never on the sum.

use vstd::prelude::*;
use crate::bag::{
    amount_of, bag_add, bag_fits, bag_net, empty_bag, lemma_bag_add_associates,
    lemma_bag_add_commutes, lemma_net_and_fee_make_bag, Bag,
};
use crate::coins::SomeCoins;
use crate::donation::{all_wf, donation_views, Donation, DonationView};
use crate::error::LedgerError;
use crate::msg::{DonationsTotalResp, TotalsView};

verus! {

/// One step of summing raw amounts.
pub open spec fn add_raw() -> spec_fn(Bag, DonationView) -> Bag {
    |sum: Bag, d: DonationView| bag_add(sum, d.raw_amount)
}

/// One step of summing net amounts.
pub open spec fn add_net() -> spec_fn(Bag, DonationView) -> Bag {
    |sum: Bag, d: DonationView| bag_add(sum, bag_net(d.raw_amount))
}

/// The sum of the raw amounts of `ds`, folded from the left.
pub open spec fn sum_raw(ds: Seq<DonationView>) -> Bag {
    ds.fold_left(empty_bag(), add_raw())
}

/// The sum of the net amounts of `ds`, folded from the left.
pub open spec fn sum_net(ds: Seq<DonationView>) -> Bag {
    ds.fold_left(empty_bag(), add_net())
}

/// Whether `totals` are the totals of the donations `ds`.
pub open spec fn totals_of(ds: Seq<DonationView>, totals: TotalsView) -> bool {
    totals.raw_amount == sum_raw(ds) && totals.net_amount == sum_net(ds)
}

/// Whether `reply` is what a query for the totals of `ds` returns: the
/// totals where every sum of raw amounts fits into 128 bits, and
/// `ArithmeticOverflow` where one does not.
pub open spec fn is_totals_reply(
    ds: Seq<DonationView>,
    reply: Result<DonationsTotalResp, LedgerError>,
) -> bool {
    match reply {
        Ok(totals) => totals.wf() && totals_of(ds, totals@) && bag_fits(sum_raw(ds)),
        Err(e) => e == LedgerError::ArithmeticOverflow && !bag_fits(sum_raw(ds)),
    }
}

/// Summing one donation more adds its amounts to the sums.
pub proof fn lemma_sum_step(ds: Seq<DonationView>, k: int)
    requires
        0 <= k < ds.len(),
    ensures
        sum_raw(ds.take(k + 1)) == bag_add(sum_raw(ds.take(k)), ds[k].raw_amount),
        sum_net(ds.take(k + 1)) == bag_add(sum_net(ds.take(k)), bag_net(ds[k].raw_amount)),
{
    assert(ds.take(k + 1).drop_last() =~= ds.take(k));
}

/// A sum of raw amounts never shrinks when more donations are summed.
pub proof fn lemma_sum_raw_grows(ds: Seq<DonationView>, k: int, d: Seq<char>)
    requires
        0 <= k <= ds.len(),
    ensures
        amount_of(sum_raw(ds.take(k)), d) <= amount_of(sum_raw(ds), d),
    decreases ds.len() - k,
{
    if k < ds.len() {
        lemma_sum_step(ds, k);
        lemma_sum_raw_grows(ds, k + 1, d);
    } else {
        assert(ds.take(k) =~= ds);
    }
}

/// Once a sum of raw amounts is beyond 128 bits it stays there.
pub proof fn lemma_overflow_stays(ds: Seq<DonationView>, k: int)
    requires
        0 <= k <= ds.len(),
        !bag_fits(sum_raw(ds.take(k))),
    ensures
        !bag_fits(sum_raw(ds)),
{
    let part = sum_raw(ds.take(k));
    let d = choose|d: Seq<char>| #[trigger] part.contains_key(d) && part[d] > u128::MAX;
    lemma_sum_raw_grows(ds, k, d);
    assert(sum_raw(ds).contains_key(d));
}

/// What reaches a project is never more than what was sent to it.
pub proof fn lemma_sum_net_below_raw(ds: Seq<DonationView>, d: Seq<char>)
    ensures
        amount_of(sum_net(ds), d) <= amount_of(sum_raw(ds), d),
    decreases ds.len(),
{
    if ds.len() > 0 {
        lemma_sum_net_below_raw(ds.drop_last(), d);
    }
}

/// Two bags can be added to a sum in either order.
proof fn lemma_bag_add_swaps(sum: Bag, x: Bag, y: Bag)
    ensures
        bag_add(bag_add(sum, x), y) == bag_add(bag_add(sum, y), x),
{
    lemma_bag_add_associates(sum, x, y);
    lemma_bag_add_commutes(x, y);
    lemma_bag_add_associates(sum, y, x);
}

/// The totals do not depend on the order of the donations: two lists that
/// hold the same donations equally often have the same totals.
pub proof fn lemma_totals_ignore_order(a: Seq<DonationView>, b: Seq<DonationView>)
    requires
        a.to_multiset() == b.to_multiset(),
    ensures
        sum_raw(a) == sum_raw(b),
        sum_net(a) == sum_net(b),
        forall|totals: TotalsView| totals_of(a, totals) <==> totals_of(b, totals),
        forall|reply: Result<DonationsTotalResp, LedgerError>|
            is_totals_reply(a, reply) <==> is_totals_reply(b, reply),
{
    assert forall|x: DonationView, y: DonationView, v: Bag| #[trigger]
        add_raw()(add_raw()(v, x), y) == add_raw()(add_raw()(v, y), x) by {
        lemma_bag_add_swaps(v, x.raw_amount, y.raw_amount);
    }
    assert forall|x: DonationView, y: DonationView, v: Bag| #[trigger]
        add_net()(add_net()(v, x), y) == add_net()(add_net()(v, y), x) by {
        lemma_bag_add_swaps(v, bag_net(x.raw_amount), bag_net(y.raw_amount));
    }
    vstd::seq_lib::lemma_fold_left_permutation(a, b, add_raw(), empty_bag());
    vstd::seq_lib::lemma_fold_left_permutation(a, b, add_net(), empty_bag());
}

/// Sums up `donations`: the raw amounts and the net amounts. Where a sum of
/// raw amounts exceeds `u128::MAX` the reply is `ArithmeticOverflow`.
pub fn sum_donations(donations: &Vec<Donation>) -> (r: Result<DonationsTotalResp, LedgerError>)
    requires
        all_wf(donations@),
    ensures
        is_totals_reply(donation_views(donations@), r),
{
    let mut raw_sum = SomeCoins::new();
    let mut net_sum = SomeCoins::new();
    let ghost ds = donation_views(donations@);
    let mut k: usize = 0;
    while k < donations.len()
        invariant
            k <= donations@.len(),
            all_wf(donations@),
            ds == donation_views(donations@),
            raw_sum.wf(),
            net_sum.wf(),
            raw_sum@ == sum_raw(ds.take(k as int)),
            net_sum@ == sum_net(ds.take(k as int)),
        decreases donations@.len() - k,
    {
        let donation = &donations[k];
        proof {
            assert(donations@[k as int].wf());
            lemma_sum_step(ds, k as int);
            lemma_net_and_fee_make_bag(ds[k as int].raw_amount);
        }
        match raw_sum.add(donation.raw_amount()) {
            Ok(()) => {},
            Err(_) => {
                proof {
                    lemma_overflow_stays(ds, k + 1);
                }
                return Err(LedgerError::ArithmeticOverflow);
            },
        }
        let net_share = donation.net_amount();
        proof {
            let next = bag_add(net_sum@, net_share@);
            assert forall|d: Seq<char>| #[trigger] next.contains_key(d) implies next[d]
                <= u128::MAX by {
                lemma_sum_net_below_raw(ds.take(k + 1), d);
                assert(amount_of(raw_sum@, d) <= u128::MAX);
            }
        }
        let added = net_sum.add(&net_share);
        assert(added is Ok);
        k += 1;
    }
    proof {
        assert(ds.take(k as int) =~= ds);
    }
    Ok(DonationsTotalResp { net_amount: net_sum, raw_amount: raw_sum })
}

} // verus!
