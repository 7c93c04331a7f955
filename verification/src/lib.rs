//! A donation ledger with a tiered fee schedule.
//!
//! Donors send multi-denomination payments to projects. Each payment is split
//! into the project's share and a platform fee, recorded in an append-only
//! per-project list, and can later be summed up per project.
//!
//! The modules, from the leaves up:
//!
//! - [`fee`]: the fee on one amount;
//! - [`decimal`], [`denom`], [`strings`]: digits, denominations, characters;
//! - [`bag`], [`listing`]: the mathematical model of a coin bag;
//! - [`text`]: the text form of a bag and how it is read back;
//! - [`coins`]: the coin bag itself, kept in a `cosmwasm_std::Coins`;
//! - [`donation`], [`totals`], [`ledger`]: donations, their sums and the
//!   lists of them per project;
//! - [`msg`], [`error`]: what operations hand back;
//! - [`contract`]: the operations and queries offered to the outside.
//!
//! Every function is verified against its contract. The only statements
//! taken on trust are those about `cosmwasm_std::Coins` in [`coins`] and the
//! one about `String::push` in [`strings`].

pub mod bag;
pub mod coins;
pub mod contract;
pub mod decimal;
pub mod denom;
pub mod donation;
pub mod error;
pub mod fee;
pub mod ledger;
pub mod listing;
pub mod msg;
pub mod strings;
pub mod text;
pub mod totals;

pub use coins::SomeCoins;
pub use donation::Donation;
pub use error::LedgerError;
pub use ledger::DonationLedger;
pub use msg::{DonationsTotalResp, ValueResp};
