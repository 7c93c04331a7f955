use donation_ledger::fee::{fee, net, TIER_THRESHOLD};

#[test]
fn fee_is_a_tenth_below_the_threshold() {
    assert_eq!(fee(0), 0);
    assert_eq!(fee(9), 0);
    assert_eq!(fee(10), 1);
    assert_eq!(fee(19), 1);
    assert_eq!(fee(100), 10);
    assert_eq!(fee(9_999), 999);
}

#[test]
fn fee_is_a_twentieth_from_the_threshold_on() {
    assert_eq!(TIER_THRESHOLD, 10_000);
    assert_eq!(fee(10_000), 500);
    assert_eq!(fee(10_019), 500);
    assert_eq!(fee(10_020), 501);
    assert_eq!(fee(1_000_000), 50_000);
    assert_eq!(fee(u128::MAX), u128::MAX / 20);
}

#[test]
fn fee_drops_at_the_tier_boundary() {
    assert_eq!(fee(9_999), 999);
    assert_eq!(fee(10_000), 500);
    assert_eq!(net(9_999), 9_000);
    assert_eq!(net(10_000), 9_500);
}

#[test]
fn fee_and_net_make_the_amount() {
    let amounts: [u128; 12] =
        [0, 1, 9, 10, 11, 99, 9_999, 10_000, 10_001, 123_456_789, u128::MAX - 1, u128::MAX];
    for a in amounts {
        assert_eq!(fee(a) + net(a), a);
        assert!(fee(a) <= a);
        assert!(net(a) <= a);
    }
}

#[test]
fn what_the_fee_does_not_take_stays_in_the_net_share() {
    assert_eq!(fee(19), 1);
    assert_eq!(net(19), 18);
    assert_eq!(fee(10_039), 501);
    assert_eq!(net(10_039), 9_538);
}
