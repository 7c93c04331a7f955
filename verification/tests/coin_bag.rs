use donation_ledger::coins::SomeCoins;
use donation_ledger::denom::denom_is_valid;
use donation_ledger::listing::CoinEntry;
use donation_ledger::LedgerError;

fn bag(coins: &[(&str, u128)]) -> SomeCoins {
    let mut b = SomeCoins::new();
    for (denom, amount) in coins {
        b.add_coin(denom, *amount).unwrap();
    }
    b
}

fn entry(denom: &str, amount: u128) -> CoinEntry {
    CoinEntry { denom: denom.to_string(), amount }
}

#[test]
fn new_bag_is_empty() {
    let b = SomeCoins::new();
    assert!(b.is_empty());
    assert_eq!(b.amount_of("x"), 0);
    assert_eq!(b.entries(), vec![]);
}

#[test]
fn add_coin_creates_and_increases_entries() {
    let mut b = SomeCoins::new();
    assert_eq!(b.add_coin("x", 5), Ok(()));
    assert!(!b.is_empty());
    assert_eq!(b.amount_of("x"), 5);
    assert_eq!(b.amount_of("y"), 0);
    assert_eq!(b.add_coin("x", 7), Ok(()));
    assert_eq!(b.amount_of("x"), 12);
    assert_eq!(b.add_coin("y", 1), Ok(()));
    assert_eq!(b.entries(), vec![entry("x", 12), entry("y", 1)]);
}

#[test]
fn add_coin_of_zero_changes_nothing() {
    let mut b = SomeCoins::new();
    assert_eq!(b.add_coin("x", 0), Ok(()));
    assert!(b.is_empty());
    b.add_coin("x", 3).unwrap();
    assert_eq!(b.add_coin("x", 0), Ok(()));
    assert_eq!(b.add_coin("y", 0), Ok(()));
    assert_eq!(b, bag(&[("x", 3)]));
}

#[test]
fn add_coin_refuses_overflow_and_keeps_the_bag() {
    let mut b = bag(&[("x", u128::MAX - 1), ("y", 2)]);
    assert_eq!(b.add_coin("x", 2), Err(LedgerError::ArithmeticOverflow));
    assert_eq!(b, bag(&[("x", u128::MAX - 1), ("y", 2)]));
    assert_eq!(b.add_coin("x", 1), Ok(()));
    assert_eq!(b.amount_of("x"), u128::MAX);
}

#[test]
fn add_coin_refuses_denominations_that_cannot_be_written() {
    let mut b = SomeCoins::new();
    assert_eq!(b.add_coin("", 1), Err(LedgerError::InvalidFormat));
    assert_eq!(b.add_coin("1x", 1), Err(LedgerError::InvalidFormat));
    assert_eq!(b.add_coin("a b", 1), Err(LedgerError::InvalidFormat));
    assert_eq!(b.add_coin(" x", 1), Err(LedgerError::InvalidFormat));
    assert_eq!(b.add_coin("", 0), Err(LedgerError::InvalidFormat));
    assert!(b.is_empty());
    assert_eq!(b.add_coin("x1", 1), Ok(()));
    assert_eq!(b.add_coin("ibc/27394FB092D2ECCD", 1), Ok(()));
}

#[test]
fn denominations_are_checked_character_by_character() {
    assert!(denom_is_valid("x"));
    assert!(denom_is_valid("uatom"));
    assert!(denom_is_valid("x9"));
    assert!(denom_is_valid("\u{e9}cu"));
    assert!(!denom_is_valid(""));
    assert!(!denom_is_valid("9x"));
    assert!(!denom_is_valid("0"));
    assert!(!denom_is_valid("x y"));
    assert!(!denom_is_valid("x "));
}

#[test]
fn entries_come_in_the_order_of_their_denominations() {
    let b = bag(&[("y", 2), ("x", 1), ("xa", 4), ("B", 3)]);
    assert_eq!(b.entries(), vec![entry("B", 3), entry("x", 1), entry("xa", 4), entry("y", 2)]);
}

#[test]
fn add_merges_matching_denominations_and_keeps_the_others() {
    let mut a = bag(&[("x", 100), ("y", 5)]);
    let b = bag(&[("y", 7), ("z", 9)]);
    assert_eq!(a.add(&b), Ok(()));
    assert_eq!(a, bag(&[("x", 100), ("y", 12), ("z", 9)]));
    assert_eq!(b, bag(&[("y", 7), ("z", 9)]));
}

#[test]
fn add_of_the_empty_bag_changes_nothing() {
    let mut a = bag(&[("x", 1)]);
    assert_eq!(a.add(&SomeCoins::new()), Ok(()));
    assert_eq!(a, bag(&[("x", 1)]));
    let mut e = SomeCoins::new();
    assert_eq!(e.add(&a), Ok(()));
    assert_eq!(e, a);
}

#[test]
fn add_does_not_depend_on_the_order() {
    let a = bag(&[("x", 1), ("y", 2)]);
    let b = bag(&[("y", 3), ("z", 4)]);
    let mut ab = a.clone();
    ab.add(&b).unwrap();
    let mut ba = b.clone();
    ba.add(&a).unwrap();
    assert_eq!(ab, ba);
}

#[test]
fn add_refuses_overflow_and_keeps_the_bag() {
    let mut a = bag(&[("a", 1), ("x", u128::MAX)]);
    let b = bag(&[("a", 1), ("x", 1)]);
    assert_eq!(a.add(&b), Err(LedgerError::ArithmeticOverflow));
    assert_eq!(a, bag(&[("a", 1), ("x", u128::MAX)]));
}

#[test]
fn clone_is_equal_and_independent() {
    let a = bag(&[("x", 1)]);
    let mut c = a.clone();
    assert_eq!(a, c);
    c.add_coin("x", 1).unwrap();
    assert_eq!(a.amount_of("x"), 1);
    assert_eq!(c.amount_of("x"), 2);
    assert_ne!(a, c);
}
