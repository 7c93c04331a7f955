use donation_ledger::coins::SomeCoins;
use donation_ledger::contract::execute;
use donation_ledger::contract::execute::{authorize_withdraw, donate};
use donation_ledger::contract::query::{donations_sent_to_project, value_incremented};
use donation_ledger::donation::Donation;
use donation_ledger::ledger::DonationLedger;
use donation_ledger::msg::{DonationsTotalResp, Event, Outcome, Transfer};
use donation_ledger::{LedgerError, ValueResp};

fn bag(coins: &[(&str, u128)]) -> SomeCoins {
    let mut b = SomeCoins::new();
    for (denom, amount) in coins {
        b.add_coin(denom, *amount).unwrap();
    }
    b
}

fn coins(amount: u128, denom: &str) -> SomeCoins {
    bag(&[(denom, amount)])
}

fn event(key: &str, value: &str) -> Event {
    Event { key: key.to_string(), value: value.to_string() }
}

fn transfer(to: &str, amount: SomeCoins) -> Transfer {
    Transfer { to: to.to_string(), amount }
}

fn ledger() -> DonationLedger {
    DonationLedger::new(Some("owner".to_string()), Some("fee_collector".to_string()))
}

#[test]
fn query_value_incremented() {
    let resp = value_incremented(0);
    assert_eq!(ValueResp { value: 1 }, resp)
}

#[test]
fn value_incremented_reaches_the_largest_number() {
    assert_eq!(value_incremented(41), ValueResp { value: 42 });
    assert_eq!(value_incremented(u128::MAX - 1), ValueResp { value: u128::MAX });
}

#[test]
fn donate_under_minimal_donation() {
    let mut l = ledger();
    let resp = donate(&mut l, "project", "sender", SomeCoins::new());
    assert_eq!(resp, Err(LedgerError::NoFundsProvided));
    assert_eq!(l.donations_for("project").len(), 0);
    let resp = donate(&mut l, "project", "sender", coins(0, "CAD"));
    assert_eq!(resp, Err(LedgerError::NoFundsProvided));
    assert_eq!(l.donations_for("project").len(), 0);
}

#[test]
fn donate_with_minimal_donation_amount() {
    let mut l = ledger();
    donate(&mut l, "project", "sender", coins(10u128, "CAD"))
        .expect("We should be able to donate ");
    assert_eq!(l.donations_for("project").len(), 1);
    donate(&mut l, "project", "sender", coins(10u128, "CAD")).unwrap();
    assert_eq!(l.donations_for("project").len(), 2);
    assert_eq!(
        donations_sent_to_project(&l, "project"),
        Ok(DonationsTotalResp { net_amount: coins(18, "CAD"), raw_amount: coins(20, "CAD") })
    );
}

#[test]
fn withdraw() {
    let owner = "cosmwasm19mfs8tl4s396u7vqw9rrnsmrrtca5r66p7v8jvwdxvjn3shcmllqupdgxu";
    let sender = "cosmwasm1uzyszmsnca8euusre35wuqj4el3hyj8jty84kwln7du5stwwxyns2z5hxp";
    let mut l = DonationLedger::new(Some(owner.to_string()), Some(owner.to_string()));

    donate(&mut l, "project", sender, coins(10, "atom")).unwrap();

    let balance = coins(10, "atom");
    let stored_owner = l.owner().unwrap();
    let resp = execute::withdraw(owner, &stored_owner, &balance).unwrap();

    assert_eq!(resp.transfers, vec![transfer(owner, coins(10, "atom"))]);
    assert_eq!(resp.events, vec![event("action", "withdraw"), event("sender", owner)]);
    assert_eq!(
        execute::withdraw(sender, &stored_owner, &balance),
        Err(LedgerError::Unauthorized)
    );
}

#[test]
fn withdraw_by_a_stranger_is_refused_and_moves_nothing() {
    let balance = bag(&[("atom", 10), ("x", 3)]);
    assert_eq!(execute::withdraw("stranger", "owner", &balance), Err(LedgerError::Unauthorized));
    assert_eq!(execute::withdraw("", "owner", &balance), Err(LedgerError::Unauthorized));
    assert_eq!(execute::withdraw("owner ", "owner", &balance), Err(LedgerError::Unauthorized));
    assert_eq!(balance, bag(&[("atom", 10), ("x", 3)]));
}

#[test]
fn withdraw_by_the_owner_moves_the_whole_balance() {
    let balance = bag(&[("atom", 10), ("x", 3)]);
    assert_eq!(
        execute::withdraw("owner", "owner", &balance),
        Ok(Outcome {
            events: vec![event("action", "withdraw"), event("sender", "owner")],
            transfers: vec![transfer("owner", bag(&[("atom", 10), ("x", 3)]))],
        })
    );
    assert_eq!(
        execute::withdraw("owner", "owner", &SomeCoins::new()),
        Ok(Outcome {
            events: vec![event("action", "withdraw"), event("sender", "owner")],
            transfers: vec![transfer("owner", SomeCoins::new())],
        })
    );
}

#[test]
fn only_the_owner_is_authorized() {
    assert_eq!(authorize_withdraw("owner", "owner"), Ok(()));
    assert_eq!(authorize_withdraw("other", "owner"), Err(LedgerError::Unauthorized));
}

#[test]
fn donate_ten_thousand_end_to_end() {
    let mut l = ledger();
    let resp = donate(&mut l, "P", "D", coins(10_000, "x"));
    assert_eq!(
        resp,
        Ok(Outcome {
            events: vec![
                event("action", "donate"),
                event("sender", "D"),
                event("to", "P"),
                event("net_amount", "9500x"),
                event("fee_amount", "500x"),
            ],
            transfers: vec![
                transfer("P", coins(9_500, "x")),
                transfer("fee_collector", coins(500, "x")),
            ],
        })
    );
    let held = l.donations_for("P");
    assert_eq!(held, vec![Donation::new("D".to_string(), coins(10_000, "x"))]);
    assert_eq!(held[0].raw_amount(), &coins(10_000, "x"));
    assert_eq!(held[0].net_amount(), coins(9_500, "x"));
    assert_eq!(
        donations_sent_to_project(&l, "P"),
        Ok(DonationsTotalResp { net_amount: coins(9_500, "x"), raw_amount: coins(10_000, "x") })
    );
}

#[test]
fn donate_two_denominations_end_to_end() {
    let mut l = ledger();
    donate(&mut l, "P", "D", coins(100, "x")).unwrap();
    donate(&mut l, "P", "D", coins(50, "y")).unwrap();
    assert_eq!(
        donations_sent_to_project(&l, "P"),
        Ok(DonationsTotalResp {
            net_amount: bag(&[("x", 90), ("y", 45)]),
            raw_amount: bag(&[("x", 100), ("y", 50)]),
        })
    );
}

#[test]
fn donate_of_a_small_amount_pays_no_fee() {
    let mut l = ledger();
    let resp = donate(&mut l, "P", "D", bag(&[("x", 9), ("y", 10)])).unwrap();
    assert_eq!(
        resp.events,
        vec![
            event("action", "donate"),
            event("sender", "D"),
            event("to", "P"),
            event("net_amount", "9x 9y"),
            event("fee_amount", "1y"),
        ]
    );
    assert_eq!(
        resp.transfers,
        vec![transfer("P", bag(&[("x", 9), ("y", 9)])), transfer("fee_collector", coins(1, "y"))]
    );
    let resp = donate(&mut l, "P", "D", coins(5, "x")).unwrap();
    assert_eq!(resp.events[4], event("fee_amount", ""));
    assert_eq!(resp.transfers[1], transfer("fee_collector", SomeCoins::new()));
}

#[test]
fn donate_without_a_fee_collector_changes_nothing() {
    let mut l = DonationLedger::new(Some("owner".to_string()), None);
    assert_eq!(donate(&mut l, "P", "D", coins(100, "x")), Err(LedgerError::StorageNotFound));
    assert_eq!(l.donations_for("P"), vec![]);
    assert_eq!(donate(&mut l, "P", "D", SomeCoins::new()), Err(LedgerError::NoFundsProvided));
}

#[test]
fn totals_of_an_unknown_project_are_zero() {
    let mut l = ledger();
    assert_eq!(donations_sent_to_project(&l, "unknown"), Ok(DonationsTotalResp::zero()));
    donate(&mut l, "P", "D", coins(100, "x")).unwrap();
    assert_eq!(
        donations_sent_to_project(&l, "unknown"),
        Ok(DonationsTotalResp { net_amount: SomeCoins::new(), raw_amount: SomeCoins::new() })
    );
}

#[test]
fn totals_read_twice_are_the_same() {
    let mut l = ledger();
    donate(&mut l, "P", "D1", bag(&[("x", 12_345), ("y", 7)])).unwrap();
    donate(&mut l, "P", "D2", coins(1, "y")).unwrap();
    let first = donations_sent_to_project(&l, "P");
    let second = donations_sent_to_project(&l, "P");
    assert_eq!(first, second);
    assert_eq!(
        first,
        Ok(DonationsTotalResp {
            net_amount: bag(&[("x", 11_728), ("y", 8)]),
            raw_amount: bag(&[("x", 12_345), ("y", 8)]),
        })
    );
}

#[test]
fn totals_report_overflow_of_the_raw_sum() {
    let mut l = ledger();
    donate(&mut l, "P", "D", coins(u128::MAX, "x")).unwrap();
    donate(&mut l, "P", "D", coins(1, "x")).unwrap();
    assert_eq!(donations_sent_to_project(&l, "P"), Err(LedgerError::ArithmeticOverflow));
}
