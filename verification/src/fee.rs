//! The two-tier fee schedule.
//!
//! Amounts below [`TIER_THRESHOLD`] pay a tenth, larger amounts a twentieth.
//! Both divisions truncate, and what the fee does not take stays in the net
//! share: no unit is lost and none is created.

use vstd::prelude::*;

verus! {

/// The first amount that pays the lower rate.
pub const TIER_THRESHOLD: u128 = 10_000;

/// The fee owed on `amount` units of one denomination.
pub open spec fn fee_of(amount: nat) -> nat {
    if amount < 10_000 {
        amount / 10
    } else {
        amount / 20
    }
}

/// What is left of `amount` once the fee is taken.
pub open spec fn net_of(amount: nat) -> nat {
    (amount - fee_of(amount)) as nat
}

/// Computes the fee owed on `amount`.
pub fn fee(amount: u128) -> (f: u128)
    ensures
        f == fee_of(amount as nat),
        f <= amount,
{
    if amount < TIER_THRESHOLD {
        amount / 10
    } else {
        amount / 20
    }
}

/// Computes the recipient's share of `amount`.
pub fn net(amount: u128) -> (n: u128)
    ensures
        n == net_of(amount as nat),
        n + fee_of(amount as nat) == amount,
        n <= amount,
{
    amount - fee(amount)
}

/// Fee and net share add up to the amount, and the fee never exceeds it.
pub proof fn lemma_fee_and_net_make_amount(amount: nat)
    ensures
        fee_of(amount) + net_of(amount) == amount,
        fee_of(amount) <= amount,
        net_of(amount) <= amount,
{
}

/// A positive amount leaves a positive net share.
pub proof fn lemma_net_of_positive(amount: nat)
    requires
        amount > 0,
    ensures
        net_of(amount) > 0,
{
}

} // verus!
