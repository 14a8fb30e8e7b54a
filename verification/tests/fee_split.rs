use proptest::test_runner::TestRunner;
use sharibo::apply_fee;

// For every (amount, fee_bps) in the valid domain the split is lossless:
// fee + net == amount exactly. The fee rounds down, and the remainder lands
// in `net`.
//   amount  : 0 ..= i128::MAX / 2
//   fee_bps : 0 ..= 10_000
#[test]
fn fee_plus_net_equals_amount() {
    let mut runner = TestRunner::default();
    let strategy = (0_i128..=(i128::MAX / 2), 0_u32..=10_000_u32);
    runner
        .run(&strategy, |(amount, fee_bps)| {
            let (fee, net) = apply_fee(fee_bps, amount);
            assert_eq!(fee + net, amount, "fee_bps={fee_bps} amount={amount} fee={fee} net={net}");
            Ok(())
        })
        .unwrap();
}

#[test]
fn fee_formula_exact_values() {
    assert_eq!(apply_fee(250, 1_000_000), (25_000, 975_000));
    assert_eq!(apply_fee(250, 399), (9, 390)); // 250 * 399 / 10_000 = 9.975, rounded down
    assert_eq!(apply_fee(1, 9_999), (0, 9_999));
    assert_eq!(apply_fee(1, 10_000), (1, 9_999));
    assert_eq!(apply_fee(0, 123_456), (0, 123_456));
    assert_eq!(apply_fee(10_000, 123_456), (123_456, 0));
}

#[test]
fn fee_on_zero_amount_is_zero() {
    assert_eq!(apply_fee(10_000, 0), (0, 0));
    assert_eq!(apply_fee(5_000, 0), (0, 0));
}

#[test]
fn fee_on_largest_amount_does_not_overflow() {
    let (fee, net) = apply_fee(10_000, i128::MAX);
    assert_eq!(fee, i128::MAX);
    assert_eq!(net, 0);
    let (fee, net) = apply_fee(3, i128::MAX);
    // 3 * i128::MAX / 10_000, computed without forming the product
    let q = i128::MAX / 10_000;
    let r = i128::MAX % 10_000;
    assert_eq!(fee, 3 * q + 3 * r / 10_000);
    assert_eq!(fee + net, i128::MAX);
}

#[test]
fn fee_rounds_toward_zero_on_negative_amounts() {
    // -399 * 250 / 10_000 = -9.975, rounded toward zero
    assert_eq!(apply_fee(250, -399), (-9, -390));
    let (fee, net) = apply_fee(700, -1_000_001);
    assert_eq!(fee, -70_000);
    assert_eq!(fee + net, -1_000_001);
}

#[test]
fn fee_above_full_rate_exceeds_amount() {
    // Values above 10_000 basis points are accepted and give a fee above the amount.
    assert_eq!(apply_fee(20_000, 100), (200, -100));
}
