//! The coin bag: amounts of several denominations, at most one entry each.
//!
//! The bag is kept in a `cosmwasm_std::Coins`. What that collection does is
//! stated here as it is found in its source and taken on trust; everything
//! else in this crate is proved from these statements.

use vstd::prelude::*;
use cosmwasm_std::{Coin, Coins, StdError};
use crate::bag::{
    amount_of, bag_add, bag_fits, bag_wf, credited, empty_bag, lemma_bag_add_credited, Bag,
};
use crate::denom::{denom_is_valid, valid_denom};
use crate::error::LedgerError;
use crate::listing::{
    bag_of, coin_views, gather, holds, is_listing, lemma_bag_of_listing, lemma_bag_of_next,
    lemma_gather_prefix, lemma_listing_unique, listing_of, CoinEntry,
};
use crate::text::{
    bag_text, lemma_parsed_tokens_writable, parse_coins, parse_text, read_coins, render_entries,
    split_tokens, writable,
};

verus! {

/// `cosmwasm_std::Coins`, a map from denominations to coins that is ordered
/// by denomination. Nothing inside it is visible to the verifier.
#[verifier::external_type_specification]
#[verifier::external_body]
pub struct ExCoins(Coins);

/// `cosmwasm_std::StdError`, the error that `Coins::add` returns.
#[verifier::external_type_specification]
#[verifier::external_body]
pub struct ExStdError(StdError);

/// What a `Coins` holds: for each denomination that has an entry, the amount
/// stored under it.
pub uninterp spec fn coins_contents(coins: Coins) -> Map<Seq<char>, nat>;

/// `Coins::default`: a collection without entries.
#[verifier::external_body]
fn coins_new() -> (coins: Coins)
    ensures
        coins_contents(coins) == empty_bag(),
{
    Coins::default()
}

/// `Coins::add`: an amount of zero changes nothing; a new denomination gets
/// an entry; an amount for a denomination that has an entry is added to it
/// with a checked addition, which fails and leaves the entry as it was when
/// the sum exceeds `u128::MAX`. Nothing else makes it fail.
#[verifier::external_body]
fn coins_add(coins: &mut Coins, denom: &str, amount: u128) -> (r: Result<(), StdError>)
    ensures
        r is Err <==> amount > 0 && coins_contents(*old(coins)).contains_key(denom@)
            && coins_contents(*old(coins))[denom@] + amount > u128::MAX,
        r is Ok ==> coins_contents(*final(coins)) == credited(
            coins_contents(*old(coins)),
            denom@,
            amount as nat,
        ),
        r is Err ==> coins_contents(*final(coins)) == coins_contents(*old(coins)),
{
    coins.add(Coin::new(amount, denom))
}

/// `Coins::amount_of`: the amount stored under `denom`, zero where it has no
/// entry.
#[verifier::external_body]
fn coins_amount_of(coins: &Coins, denom: &str) -> (amount: u128)
    ensures
        amount == amount_of(coins_contents(*coins), denom@),
{
    coins.amount_of(denom).u128()
}

/// `Coins::is_empty`: whether the collection has no entry.
#[verifier::external_body]
fn coins_is_empty(coins: &Coins) -> (empty: bool)
    ensures
        empty <==> coins_contents(*coins) == empty_bag(),
{
    coins.is_empty()
}

/// `Coins::iter`: walks the entries of the underlying `BTreeMap` in the
/// ascending order of its keys. The key of an entry is the denomination of
/// its coin, a `String`; strings are ordered byte by byte, which for UTF-8 is
/// the order of [`crate::denom::denom_lt`]. Each coin is handed out as a
/// plain value.
#[verifier::external_body]
fn coins_entries(coins: &Coins) -> (entries: Vec<CoinEntry>)
    ensures
        is_listing(coin_views(entries@), coins_contents(*coins)),
{
    coins.iter().map(|c| CoinEntry { denom: c.denom.clone(), amount: c.amount.u128() }).collect()
}

/// `Coins::clone`: a collection with the same entries.
#[verifier::external_body]
fn coins_clone(coins: &Coins) -> (copy: Coins)
    ensures
        coins_contents(copy) == coins_contents(*coins),
{
    coins.clone()
}

/// A bag of coins: a positive amount for each of finitely many denominations.
#[derive(Debug, PartialEq, Eq)]
pub struct SomeCoins {
    coins: Coins,
}

impl View for SomeCoins {
    type V = Bag;

    closed spec fn view(&self) -> Bag {
        coins_contents(self.coins)
    }
}

impl Clone for SomeCoins {
    fn clone(&self) -> (copy: Self)
        ensures
            copy@ == self@,
    {
        SomeCoins { coins: coins_clone(&self.coins) }
    }
}

impl Default for SomeCoins {
    fn default() -> (bag: SomeCoins)
        ensures
            bag.wf(),
            bag@ == empty_bag(),
    {
        SomeCoins::new()
    }
}

impl SomeCoins {
    /// Every bag is a valid one: see [`bag_wf`].
    pub open spec fn wf(&self) -> bool {
        bag_wf(self@)
    }

    /// The empty bag.
    pub fn new() -> (bag: SomeCoins)
        ensures
            bag.wf(),
            bag@ == empty_bag(),
    {
        SomeCoins { coins: coins_new() }
    }

    /// Whether the bag holds nothing.
    pub fn is_empty(&self) -> (empty: bool)
        ensures
            empty <==> self@ == empty_bag(),
    {
        coins_is_empty(&self.coins)
    }

    /// The amount that the bag holds of `denom`, zero where it holds none.
    pub fn amount_of(&self, denom: &str) -> (amount: u128)
        ensures
            amount == amount_of(self@, denom@),
    {
        coins_amount_of(&self.coins, denom)
    }

    /// The coins of the bag in the order of their denominations.
    pub fn entries(&self) -> (entries: Vec<CoinEntry>)
        ensures
            is_listing(coin_views(entries@), self@),
    {
        coins_entries(&self.coins)
    }

    /// Puts `amount` more of `denom` into the bag. An amount of zero changes
    /// nothing. A denomination that cannot be serialized is refused with
    /// `InvalidFormat`, a sum beyond `u128::MAX` with `ArithmeticOverflow`;
    /// the bag is then left as it was.
    pub fn add_coin(&mut self, denom: &str, amount: u128) -> (r: Result<(), LedgerError>)
        requires
            old(self).wf(),
        ensures
            final(self).wf(),
            match r {
                Ok(()) => {
                    &&& valid_denom(denom@)
                    &&& amount_of(old(self)@, denom@) + amount <= u128::MAX
                    &&& final(self)@ == credited(old(self)@, denom@, amount as nat)
                },
                Err(e) => {
                    &&& final(self)@ == old(self)@
                    &&& !valid_denom(denom@) ==> e == LedgerError::InvalidFormat
                    &&& valid_denom(denom@) ==> e == LedgerError::ArithmeticOverflow && amount_of(
                        old(self)@,
                        denom@,
                    ) + amount > u128::MAX
                },
            },
    {
        if !denom_is_valid(denom) {
            return Err(LedgerError::InvalidFormat);
        }
        match coins_add(&mut self.coins, denom, amount) {
            Ok(()) => Ok(()),
            Err(_) => Err(LedgerError::ArithmeticOverflow),
        }
    }

    /// The text form of the bag: its coins in the order of their
    /// denominations, each as amount and denomination, one space between two.
    pub fn to_string(&self) -> (text: String)
        ensures
            text@ == bag_text(self@),
    {
        let entries = coins_entries(&self.coins);
        proof {
            lemma_listing_unique(coin_views(entries@), listing_of(self@), self@);
        }
        render_entries(&entries)
    }

    /// Reads a bag from its text form. The empty text is the empty bag. A
    /// text that does not stand for a bag is refused with `InvalidFormat`.
    pub fn parse(s: &str) -> (r: Result<SomeCoins, LedgerError>)
        ensures
            match parse_text(s@) {
                Some(b) => r matches Ok(bag) && bag@ == b && bag.wf(),
                None => r matches Err(e) && e == LedgerError::InvalidFormat,
            },
    {
        let entries = match read_coins(s) {
            Some(v) => v,
            None => {
                return Err(LedgerError::InvalidFormat);
            },
        };
        let ghost l = coin_views(entries@);
        proof {
            if s@.len() > 0 {
                lemma_parsed_tokens_writable(split_tokens(s@));
            }
        }
        let mut coins = coins_new();
        let mut i: usize = 0;
        while i < entries.len()
            invariant
                i <= entries@.len(),
                l == coin_views(entries@),
                parse_coins(s@) == Some(l),
                writable(l),
                bag_wf(coins_contents(coins)),
                gather(l.take(i as int)) == Some(coins_contents(coins)),
            decreases entries@.len() - i,
        {
            proof {
                assert(l.take(i + 1).drop_last() =~= l.take(i as int));
                assert(l.take(i + 1).last() == entries@[i as int]@);
                assert(valid_denom(l[i as int].denom));
            }
            if entries[i].amount != 0 {
                if coins_amount_of(&coins, entries[i].denom.as_str()) != 0 {
                    proof {
                        lemma_gather_prefix(l, i + 1);
                    }
                    return Err(LedgerError::InvalidFormat);
                }
                let added = coins_add(&mut coins, entries[i].denom.as_str(), entries[i].amount);
                assert(added is Ok);
            }
            i += 1;
        }
        proof {
            assert(l.take(i as int) =~= l);
        }
        Ok(SomeCoins { coins })
    }

    /// Merges `other` into the bag: every amount of `other` is added to the
    /// amount of the same denomination. Where a sum would exceed `u128::MAX`
    /// the bag is left as it was.
    pub fn add(&mut self, other: &SomeCoins) -> (r: Result<(), LedgerError>)
        requires
            old(self).wf(),
            other.wf(),
        ensures
            final(self).wf(),
            match r {
                Ok(()) => bag_fits(bag_add(old(self)@, other@)) && final(self)@ == bag_add(
                    old(self)@,
                    other@,
                ),
                Err(e) => {
                    &&& e == LedgerError::ArithmeticOverflow
                    &&& !bag_fits(bag_add(old(self)@, other@))
                    &&& final(self)@ == old(self)@
                },
            },
    {
        let entries = coins_entries(&other.coins);
        let mut sum = coins_clone(&self.coins);
        let ghost start = self@;
        let ghost listing = coin_views(entries@);
        let mut i: usize = 0;
        while i < entries.len()
            invariant
                i <= entries@.len(),
                listing == coin_views(entries@),
                is_listing(listing, other@),
                bag_wf(other@),
                bag_wf(start),
                start == old(self)@,
                *self == *old(self),
                bag_wf(coins_contents(sum)),
                coins_contents(sum) == bag_add(start, bag_of(listing.take(i as int))),
            decreases entries@.len() - i,
        {
            let ghost before = bag_of(listing.take(i as int));
            let ghost coin = listing[i as int];
            proof {
                assert(holds(other@, listing[i as int]));
                lemma_bag_of_next(listing, i as int);
                lemma_bag_add_credited(start, before, coin.denom, coin.amount);
            }
            match coins_add(&mut sum, entries[i].denom.as_str(), entries[i].amount) {
                Ok(()) => {},
                Err(_) => {
                    proof {
                        assert(bag_add(start, other@).contains_key(coin.denom));
                    }
                    return Err(LedgerError::ArithmeticOverflow);
                },
            }
            i += 1;
        }
        proof {
            assert(listing.take(i as int) =~= listing);
            lemma_bag_of_listing(listing, other@);
        }
        self.coins = sum;
        Ok(())
    }
}

} // verus!
