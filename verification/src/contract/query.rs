//! The queries. None of them changes the ledger.

use vstd::prelude::*;
use crate::error::LedgerError;
use crate::ledger::{donations_of, DonationLedger};
use crate::msg::{DonationsTotalResp, ValueResp};
use crate::totals::is_totals_reply;

verus! {

/// The number after `n`.
pub fn value_incremented(n: u128) -> (resp: ValueResp)
    requires
        n < u128::MAX,
    ensures
        resp.value == n + 1,
{
    ValueResp { value: n + 1 }
}

/// What the project at `project_address` was given in all: the sums of the
/// raw and of the net amounts of its donations. A project that was never
/// given anything has totals of zero.
pub fn donations_sent_to_project(ledger: &DonationLedger, project_address: &str) -> (r: Result<
    DonationsTotalResp,
    LedgerError,
>)
    requires
        ledger.wf(),
    ensures
        is_totals_reply(donations_of(ledger@, project_address@), r),
{
    ledger.totals_for(project_address)
}

} // verus!
