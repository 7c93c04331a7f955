use donation_ledger::coins::SomeCoins;
use donation_ledger::donation::Donation;
use donation_ledger::ledger::DonationLedger;
use donation_ledger::msg::DonationsTotalResp;
use donation_ledger::totals::sum_donations;
use donation_ledger::LedgerError;

fn bag(coins: &[(&str, u128)]) -> SomeCoins {
    let mut b = SomeCoins::new();
    for (denom, amount) in coins {
        b.add_coin(denom, *amount).unwrap();
    }
    b
}

fn ledger() -> DonationLedger {
    DonationLedger::new(Some("owner".to_string()), Some("collector".to_string()))
}

fn totals(net: &[(&str, u128)], raw: &[(&str, u128)]) -> DonationsTotalResp {
    DonationsTotalResp { net_amount: bag(net), raw_amount: bag(raw) }
}

#[test]
fn donation_derives_net_and_fee_per_denomination() {
    let d = Donation::new("donor".to_string(), bag(&[("x", 10_000), ("y", 100), ("z", 5)]));
    assert_eq!(d.donor(), "donor");
    assert_eq!(d.raw_amount(), &bag(&[("x", 10_000), ("y", 100), ("z", 5)]));
    assert_eq!(d.net_amount(), bag(&[("x", 9_500), ("y", 90), ("z", 5)]));
    assert_eq!(d.fee_amount(), bag(&[("x", 500), ("y", 10)]));
    assert_eq!(
        d.shares(),
        (bag(&[("x", 9_500), ("y", 90), ("z", 5)]), bag(&[("x", 500), ("y", 10)]))
    );
}

#[test]
fn net_and_fee_make_the_raw_amount() {
    let raw = bag(&[("a", 1), ("b", 9_999), ("c", 10_000), ("d", u128::MAX)]);
    let d = Donation::new("donor".to_string(), raw.clone());
    let mut sum = d.net_amount();
    sum.add(&d.fee_amount()).unwrap();
    assert_eq!(sum, raw);
}

#[test]
fn donation_clone_is_equal() {
    let d = Donation::new("donor".to_string(), bag(&[("x", 3)]));
    assert_eq!(d.clone(), d);
}

#[test]
fn new_ledger_knows_no_project() {
    let l = ledger();
    assert_eq!(l.donations_for("p"), vec![]);
    assert_eq!(l.totals_for("p"), Ok(DonationsTotalResp::zero()));
    assert_eq!(l.owner(), Ok("owner".to_string()));
    assert_eq!(l.fee_collector(), Ok("collector".to_string()));
}

#[test]
fn unset_addresses_are_not_found() {
    let l = DonationLedger::new(None, None);
    assert_eq!(l.owner(), Err(LedgerError::StorageNotFound));
    assert_eq!(l.fee_collector(), Err(LedgerError::StorageNotFound));
    let l = DonationLedger::new(Some("o".to_string()), None);
    assert_eq!(l.owner(), Ok("o".to_string()));
    assert_eq!(l.fee_collector(), Err(LedgerError::StorageNotFound));
}

#[test]
fn record_donation_appends_in_order() {
    let mut l = ledger();
    let first = l.record_donation("p", "d1", bag(&[("x", 10)])).unwrap();
    assert_eq!(first, Donation::new("d1".to_string(), bag(&[("x", 10)])));
    assert_eq!(l.donations_for("p"), vec![first.clone()]);
    let second = l.record_donation("p", "d2", bag(&[("y", 20)])).unwrap();
    assert_eq!(l.donations_for("p"), vec![first.clone(), second.clone()]);
    let other = l.record_donation("q", "d1", bag(&[("x", 1)])).unwrap();
    assert_eq!(l.donations_for("p"), vec![first, second]);
    assert_eq!(l.donations_for("q"), vec![other]);
    assert_eq!(l.donations_for("r"), vec![]);
}

#[test]
fn record_donation_refuses_an_empty_bag() {
    let mut l = ledger();
    l.record_donation("p", "d", bag(&[("x", 1)])).unwrap();
    assert_eq!(l.record_donation("p", "d", SomeCoins::new()), Err(LedgerError::NoFundsProvided));
    assert_eq!(l.record_donation("q", "d", bag(&[("x", 0)])), Err(LedgerError::NoFundsProvided));
    assert_eq!(l.donations_for("p").len(), 1);
    assert_eq!(l.donations_for("q"), vec![]);
}

#[test]
fn totals_sum_raw_and_net_amounts() {
    let mut l = ledger();
    l.record_donation("p", "d1", bag(&[("x", 100)])).unwrap();
    l.record_donation("p", "d2", bag(&[("y", 50)])).unwrap();
    assert_eq!(l.totals_for("p"), Ok(totals(&[("x", 90), ("y", 45)], &[("x", 100), ("y", 50)])));
}

#[test]
fn totals_apply_the_tier_to_each_donation() {
    let mut l = ledger();
    l.record_donation("p", "d1", bag(&[("x", 6_000)])).unwrap();
    l.record_donation("p", "d2", bag(&[("x", 6_000)])).unwrap();
    assert_eq!(l.totals_for("p"), Ok(totals(&[("x", 10_800)], &[("x", 12_000)])));
}

#[test]
fn totals_do_not_depend_on_the_order_of_donations() {
    let d1 = bag(&[("x", 10_000), ("y", 3)]);
    let d2 = bag(&[("x", 9_999)]);
    let d3 = bag(&[("y", 100), ("z", 20_001)]);
    let orders: [[&SomeCoins; 3]; 6] = [
        [&d1, &d2, &d3],
        [&d1, &d3, &d2],
        [&d2, &d1, &d3],
        [&d2, &d3, &d1],
        [&d3, &d1, &d2],
        [&d3, &d2, &d1],
    ];
    let expected = totals(
        &[("x", 18_500), ("y", 93), ("z", 19_001)],
        &[("x", 19_999), ("y", 103), ("z", 20_001)],
    );
    for order in orders {
        let mut l = ledger();
        for raw in order {
            l.record_donation("p", "d", raw.clone()).unwrap();
        }
        assert_eq!(l.totals_for("p"), Ok(expected.clone()));
    }
}

#[test]
fn totals_report_overflow() {
    let mut l = ledger();
    l.record_donation("p", "d1", bag(&[("x", u128::MAX)])).unwrap();
    assert!(l.totals_for("p").is_ok());
    l.record_donation("p", "d2", bag(&[("x", 1)])).unwrap();
    assert_eq!(l.totals_for("p"), Err(LedgerError::ArithmeticOverflow));
    assert_eq!(l.donations_for("p").len(), 2);
}

#[test]
fn restore_holds_the_stored_list() {
    let stored = vec![
        Donation::new("d1".to_string(), bag(&[("x", 100)])),
        Donation::new("d2".to_string(), bag(&[("x", 10_000)])),
    ];
    let mut l =
        DonationLedger::restore(Some("o".to_string()), None, "p".to_string(), stored.clone());
    assert_eq!(l.donations_for("p"), stored);
    assert_eq!(l.donations_for("q"), vec![]);
    assert_eq!(l.owner(), Ok("o".to_string()));
    assert_eq!(l.fee_collector(), Err(LedgerError::StorageNotFound));
    assert_eq!(l.totals_for("p"), Ok(totals(&[("x", 9_590)], &[("x", 10_100)])));
    l.record_donation("p", "d3", bag(&[("x", 1)])).unwrap();
    assert_eq!(l.donations_for("p").len(), 3);
}

#[test]
fn zero_totals_are_the_default() {
    assert_eq!(DonationsTotalResp::default(), DonationsTotalResp::zero());
    assert_eq!(DonationsTotalResp::zero(), totals(&[], &[]));
    assert_eq!(SomeCoins::default(), SomeCoins::new());
    let t = totals(&[("x", 9)], &[("x", 10)]);
    assert_eq!(t.clone(), t);
}

#[test]
fn errors_are_reported_in_words() {
    assert_eq!(LedgerError::NoFundsProvided.message(), "No funds provided");
    assert_eq!(LedgerError::InvalidFormat.message(), "Invalid format");
    assert_eq!(LedgerError::ArithmeticOverflow.message(), "Arithmetic overflow");
    assert_eq!(LedgerError::Unauthorized.message(), "Unauthorized");
    assert_eq!(LedgerError::StorageNotFound.message(), "Storage not found");
}

#[test]
fn donations_are_summed_from_a_plain_list() {
    let list = vec![
        Donation::new("d1".to_string(), bag(&[("x", 9_999)])),
        Donation::new("d2".to_string(), bag(&[("x", 10_000), ("y", 1)])),
    ];
    assert_eq!(
        sum_donations(&list),
        Ok(totals(&[("x", 18_500), ("y", 1)], &[("x", 19_999), ("y", 1)]))
    );
    assert_eq!(sum_donations(&vec![]), Ok(DonationsTotalResp::zero()));
    let too_much = vec![
        Donation::new("d1".to_string(), bag(&[("x", u128::MAX - 1)])),
        Donation::new("d2".to_string(), bag(&[("x", 2)])),
    ];
    assert_eq!(sum_donations(&too_much), Err(LedgerError::ArithmeticOverflow));
}
