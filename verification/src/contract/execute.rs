//! The operations: donating to a project, and withdrawing the balance.

use vstd::prelude::*;
use crate::bag::{bag_fee, bag_net, empty_bag, Bag};
use crate::coins::SomeCoins;
use crate::donation::DonationView;
use crate::error::LedgerError;
use crate::ledger::{recorded, DonationLedger};
use crate::msg::{Event, EventView, Outcome, Transfer, TransferView};
use crate::strings::same_text;
use crate::text::bag_text;

verus! {

/// The events of a donation of `funds` by `donor` to `project`.
pub open spec fn donate_events(project: Seq<char>, donor: Seq<char>, funds: Bag) -> Seq<
    EventView,
> {
    seq![
        EventView { key: "action"@, value: "donate"@ },
        EventView { key: "sender"@, value: donor },
        EventView { key: "to"@, value: project },
        EventView { key: "net_amount"@, value: bag_text(bag_net(funds)) },
        EventView { key: "fee_amount"@, value: bag_text(bag_fee(funds)) },
    ]
}

/// The transfers of a donation of `funds` to `project`: the net share to the
/// project, then the fee to the fee collector.
pub open spec fn donate_transfers(project: Seq<char>, fee_collector: Seq<char>, funds: Bag) -> Seq<
    TransferView,
> {
    seq![
        TransferView { to: project, amount: bag_net(funds) },
        TransferView { to: fee_collector, amount: bag_fee(funds) },
    ]
}

/// The events of a withdrawal by `caller`.
pub open spec fn withdraw_events(caller: Seq<char>) -> Seq<EventView> {
    seq![
        EventView { key: "action"@, value: "withdraw"@ },
        EventView { key: "sender"@, value: caller },
    ]
}

/// The transfer of a withdrawal: the whole balance to the caller.
pub open spec fn withdraw_transfers(caller: Seq<char>, balance: Bag) -> Seq<TransferView> {
    seq![TransferView { to: caller, amount: balance }]
}

/// An event with the given key and value.
fn event(key: &str, value: String) -> (e: Event)
    ensures
        e@ == (EventView { key: key@, value: value@ }),
{
    Event { key: key.to_owned(), value }
}

/// Donates `funds` from `donor` to the project at `project_address`: the
/// donation is recorded, its net share goes to the project and the fee to
/// the fee collector.
///
/// Funds without any positive amount are refused with `NoFundsProvided`. A
/// ledger whose fee collector was never set answers `StorageNotFound`. In
/// both cases the ledger is left as it was and nothing is to be transferred.
pub fn donate(ledger: &mut DonationLedger, project_address: &str, donor: &str, funds: SomeCoins)
    -> (r: Result<Outcome, LedgerError>)
    requires
        old(ledger).wf(),
        funds.wf(),
    ensures
        final(ledger).wf(),
        match r {
            Ok(outcome) => {
                &&& funds@ != empty_bag()
                &&& old(ledger)@.fee_collector matches Some(collector)
                &&& final(ledger)@ == recorded(
                    old(ledger)@,
                    project_address@,
                    DonationView { donor: donor@, raw_amount: funds@ },
                )
                &&& outcome.wf()
                &&& outcome@.events == donate_events(project_address@, donor@, funds@)
                &&& outcome@.transfers == donate_transfers(project_address@, collector, funds@)
            },
            Err(e) => {
                &&& final(ledger)@ == old(ledger)@
                &&& funds@ == empty_bag() ==> e == LedgerError::NoFundsProvided
                &&& funds@ != empty_bag() ==> e == LedgerError::StorageNotFound && old(
                    ledger,
                )@.fee_collector is None
            },
        },
{
    if funds.is_empty() {
        return Err(LedgerError::NoFundsProvided);
    }
    let collector = match ledger.fee_collector() {
        Ok(c) => c,
        Err(e) => {
            return Err(e);
        },
    };
    let donation = match ledger.record_donation(project_address, donor, funds) {
        Ok(d) => d,
        Err(e) => {
            return Err(e);
        },
    };
    let (net_share, fee_share) = donation.shares();
    let mut events: Vec<Event> = Vec::new();
    events.push(event("action", "donate".to_owned()));
    events.push(event("sender", donor.to_owned()));
    events.push(event("to", project_address.to_owned()));
    events.push(event("net_amount", net_share.to_string()));
    events.push(event("fee_amount", fee_share.to_string()));
    let mut transfers: Vec<Transfer> = Vec::new();
    transfers.push(Transfer { to: project_address.to_owned(), amount: net_share });
    transfers.push(Transfer { to: collector, amount: fee_share });
    let outcome = Outcome { events, transfers };
    proof {
        assert(outcome@.events =~= donate_events(project_address@, donor@, funds@));
        assert(outcome@.transfers =~= donate_transfers(
            project_address@,
            collector@,
            funds@,
        ));
    }
    Ok(outcome)
}

/// Whether `caller` may withdraw: only the owner may.
pub fn authorize_withdraw(caller: &str, owner: &str) -> (r: Result<(), LedgerError>)
    ensures
        r is Ok <==> caller@ == owner@,
        r matches Err(e) ==> e == LedgerError::Unauthorized,
{
    if same_text(caller, owner) {
        Ok(())
    } else {
        Err(LedgerError::Unauthorized)
    }
}

/// Withdraws the whole of `current_balance` to `caller`, who must be the
/// owner. Anybody else is refused with `Unauthorized`, and nothing is then
/// to be transferred.
pub fn withdraw(caller: &str, owner: &str, current_balance: &SomeCoins) -> (r: Result<
    Outcome,
    LedgerError,
>)
    requires
        current_balance.wf(),
    ensures
        match r {
            Ok(outcome) => {
                &&& caller@ == owner@
                &&& outcome.wf()
                &&& outcome@.events == withdraw_events(caller@)
                &&& outcome@.transfers == withdraw_transfers(caller@, current_balance@)
            },
            Err(e) => e == LedgerError::Unauthorized && caller@ != owner@,
        },
{
    match authorize_withdraw(caller, owner) {
        Ok(()) => {},
        Err(e) => {
            return Err(e);
        },
    }
    let mut events: Vec<Event> = Vec::new();
    events.push(event("action", "withdraw".to_owned()));
    events.push(event("sender", caller.to_owned()));
    let mut transfers: Vec<Transfer> = Vec::new();
    transfers.push(Transfer { to: caller.to_owned(), amount: current_balance.clone() });
    let outcome = Outcome { events, transfers };
    proof {
        assert(outcome@.events =~= withdraw_events(caller@));
        assert(outcome@.transfers =~= withdraw_transfers(caller@, current_balance@));
    }
    Ok(outcome)
}

} // verus!
