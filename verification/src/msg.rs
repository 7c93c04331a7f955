//! Replies handed back to the caller of a query.

use vstd::prelude::*;
use crate::bag::{bag_wf, empty_bag, Bag};
use crate::coins::SomeCoins;

verus! {

/// The reply to a query that asks for a single number.
#[derive(Clone, Copy, Debug, PartialEq, Eq, Structural)]
pub struct ValueResp {
    pub value: u128,
}

/// Totals as contracts speak of them.
pub struct TotalsView {
    pub net_amount: Bag,
    pub raw_amount: Bag,
}

/// What a project was given in all: the sum of what reached it and the sum
/// of what the donors sent.
#[derive(Debug, PartialEq, Eq)]
pub struct DonationsTotalResp {
    pub net_amount: SomeCoins,
    pub raw_amount: SomeCoins,
}

impl View for DonationsTotalResp {
    type V = TotalsView;

    open spec fn view(&self) -> TotalsView {
        TotalsView { net_amount: self.net_amount@, raw_amount: self.raw_amount@ }
    }
}

impl DonationsTotalResp {
    /// Both sums are valid bags.
    pub open spec fn wf(&self) -> bool {
        bag_wf(self@.net_amount) && bag_wf(self@.raw_amount)
    }

    /// The totals of a project that was given nothing.
    pub fn zero() -> (totals: DonationsTotalResp)
        ensures
            totals.wf(),
            totals@.net_amount == empty_bag(),
            totals@.raw_amount == empty_bag(),
    {
        DonationsTotalResp { net_amount: SomeCoins::new(), raw_amount: SomeCoins::new() }
    }
}

impl Default for DonationsTotalResp {
    fn default() -> (totals: DonationsTotalResp)
        ensures
            totals.wf(),
            totals@.net_amount == empty_bag(),
            totals@.raw_amount == empty_bag(),
    {
        DonationsTotalResp::zero()
    }
}

impl Clone for DonationsTotalResp {
    fn clone(&self) -> (copy: Self)
        ensures
            copy@ == self@,
    {
        DonationsTotalResp {
            net_amount: self.net_amount.clone(),
            raw_amount: self.raw_amount.clone(),
        }
    }
}

/// An event as contracts speak of it.
pub struct EventView {
    pub key: Seq<char>,
    pub value: Seq<char>,
}

/// A transfer as contracts speak of it.
pub struct TransferView {
    pub to: Seq<char>,
    pub amount: Bag,
}

/// An outcome as contracts speak of it.
pub struct OutcomeView {
    pub events: Seq<EventView>,
    pub transfers: Seq<TransferView>,
}

/// One line of what an operation reports about itself.
#[derive(Debug, PartialEq, Eq)]
pub struct Event {
    pub key: String,
    pub value: String,
}

/// The instruction to move `amount` to the address `to`. The ledger only
/// states it; moving the coins is up to whoever runs the ledger.
#[derive(Debug, PartialEq, Eq)]
pub struct Transfer {
    pub to: String,
    pub amount: SomeCoins,
}

/// What an operation that succeeded hands back: its events and the
/// transfers that are to be made.
#[derive(Debug, PartialEq, Eq)]
pub struct Outcome {
    pub events: Vec<Event>,
    pub transfers: Vec<Transfer>,
}

impl View for Event {
    type V = EventView;

    open spec fn view(&self) -> EventView {
        EventView { key: self.key@, value: self.value@ }
    }
}

impl View for Transfer {
    type V = TransferView;

    open spec fn view(&self) -> TransferView {
        TransferView { to: self.to@, amount: self.amount@ }
    }
}

impl View for Outcome {
    type V = OutcomeView;

    open spec fn view(&self) -> OutcomeView {
        OutcomeView {
            events: self.events@.map_values(|e: Event| e@),
            transfers: self.transfers@.map_values(|t: Transfer| t@),
        }
    }
}

impl Outcome {
    /// Every transfer moves a valid bag.
    pub open spec fn wf(&self) -> bool {
        forall|i: int|
            0 <= i < self.transfers@.len() ==> bag_wf((#[trigger] self.transfers@[i]).amount@)
    }
}

} // verus!
