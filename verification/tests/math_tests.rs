use carrot_amm::errors::CarrotAmmError;
use carrot_amm::math::{calc_token_amount, calc_usd_amount, shares_earned, usd_earned, PRECISION};

#[test]
fn usd_amount_of_one_token_at_one_dollar() {
    // 1 token with 6 decimals at 1.00000000 USD is 1 USD with 9 decimals
    assert_eq!(calc_usd_amount(1_000_000, 6, 100_000_000, -8, false), Some(1_000_000_000));
    assert_eq!(calc_usd_amount(1_000_000, 6, 100_000_000, -8, true), Some(1_000_000_000));
    assert_eq!(PRECISION, 9);
}

#[test]
fn usd_amount_rounds_down_or_up() {
    // 1 * 10^3 * 123_456_789 / 10^8 = 1234.56789
    assert_eq!(calc_usd_amount(1, 6, 123_456_789, -8, false), Some(1234));
    assert_eq!(calc_usd_amount(1, 6, 123_456_789, -8, true), Some(1235));
}

#[test]
fn usd_amount_uses_price_magnitude() {
    assert_eq!(calc_usd_amount(1_000_000, 6, -100_000_000, -8, false), Some(1_000_000_000));
    assert_eq!(calc_usd_amount(5, 9, i64::MIN, -1, false), Some(5 * (1u128 << 63) / 10));
}

#[test]
fn usd_amount_rejects_bad_inputs() {
    assert_eq!(calc_usd_amount(1, 6, 100, 0, false), None);
    assert_eq!(calc_usd_amount(1, 6, 100, 3, true), None);
    assert_eq!(calc_usd_amount(1, 10, 100, -2, false), None);
    assert_eq!(calc_usd_amount(1, 6, 100, i32::MIN, false), None);
    // 10^39 does not fit a u128
    assert_eq!(calc_usd_amount(1, 6, 100, -39, false), None);
    // 10^38 does
    assert_eq!(calc_usd_amount(1, 6, 100, -38, false), Some(0));
    assert_eq!(calc_usd_amount(1, 6, 100, -38, true), Some(1));
}

#[test]
fn usd_amount_overflow() {
    // u64::MAX * 10^9 * 2^63 exceeds u128::MAX
    assert_eq!(calc_usd_amount(u64::MAX, 0, i64::MAX, -1, false), None);
}

#[test]
fn token_amount_of_one_dollar() {
    assert_eq!(calc_token_amount(1_000_000_000, 6, 100_000_000, -8, false), Some(1_000_000));
    assert_eq!(calc_token_amount(1_000_000_000, 6, 100_000_000, -8, true), Some(1_000_000));
}

#[test]
fn token_amount_rounds_down_or_up() {
    // 1 * 10^8 / (3 * 10^8) then / 10^3
    assert_eq!(calc_token_amount(1, 6, 300_000_000, -8, false), Some(0));
    assert_eq!(calc_token_amount(1, 6, 300_000_000, -8, true), Some(1));
    // 2_500_000_000 * 10^2 / 200 = 1_250_000_000, / 10^3 = 1_250_000
    assert_eq!(calc_token_amount(2_500_000_000, 6, 200, -2, false), Some(1_250_000));
}

#[test]
fn token_amount_rejects_bad_inputs() {
    assert_eq!(calc_token_amount(1, 6, 100, 0, false), None);
    assert_eq!(calc_token_amount(1, 6, 0, -8, false), None);
    assert_eq!(calc_token_amount(1, 10, 100, -8, false), None);
    assert_eq!(calc_token_amount(1, 6, 100, i32::MIN, false), None);
    assert_eq!(calc_token_amount(1, 6, 100, -39, false), None);
    // the result does not fit a u64
    assert_eq!(calc_token_amount(10u128.pow(30), 9, 1, -1, false), None);
    // the intermediate product does not fit a u128
    assert_eq!(calc_token_amount(u128::MAX, 9, 1, -1, false), None);
}

#[test]
fn shares_for_a_deposit() {
    assert_eq!(shares_earned(50, 1000, 6, 100, false), Some(500));
    assert_eq!(shares_earned(1, 1, 6, 3, false), Some(0));
    assert_eq!(shares_earned(1, 1, 6, 3, true), Some(1));
}

#[test]
fn shares_are_capped_at_u64_max() {
    assert_eq!(shares_earned(10, u64::MAX, 6, 1, false), Some(u64::MAX));
    assert_eq!(shares_earned(u128::MAX, 2, 6, 1, false), None);
    // rounding up overflows when the product plus tvl - 1 does not fit
    assert_eq!(shares_earned(u128::MAX, 1, 6, 2, true), None);
    assert_eq!(shares_earned(u128::MAX, 1, 6, 2, false), Some(u64::MAX));
}

#[test]
fn empty_vault_mints_one_hundred_shares() {
    // 100 whole shares of 6 decimals
    assert_eq!(shares_earned(12345, 0, 6, 0, false), Some(100_000_000));
    assert_eq!(shares_earned(12345, 7, 6, 0, true), Some(100_000_000));
    assert_eq!(shares_earned(12345, 0, 0, 999, true), Some(100));
    assert_eq!(shares_earned(1000, 0, 9, 0, false), Some(100_000_000_000));
    assert_eq!(shares_earned(1, 0, 17, 1, false), Some(10_000_000_000_000_000_000));
    // 100 * 10^18 does not fit a u64
    assert_eq!(shares_earned(1, 0, 18, 1, false), None);
    assert_eq!(shares_earned(1, 0, 20, 1, false), None);
}

#[test]
fn usd_for_redeemed_shares() {
    assert_eq!(usd_earned(500, 1000, 100), Some(50));
    assert_eq!(usd_earned(1, 3, 2), Some(0));
    assert_eq!(usd_earned(500, 0, 100), Some(0));
    assert_eq!(usd_earned(500, 1000, 0), Some(0));
    assert_eq!(usd_earned(u64::MAX, 1, u128::MAX), None);
}

#[test]
fn rounding_up_never_gives_less() {
    for (amount, dec, price, expo) in [(1u64, 6u8, 123_456_789i64, -8i32), (7, 0, 3, -1), (999, 9, 1, -5)] {
        let down = calc_usd_amount(amount, dec, price, expo, false).unwrap();
        let up = calc_usd_amount(amount, dec, price, expo, true).unwrap();
        assert!(down <= up && up <= down + 1);
    }
    let down = calc_token_amount(12_345, 6, 300_000_000, -8, false).unwrap();
    let up = calc_token_amount(12_345, 6, 300_000_000, -8, true).unwrap();
    assert!(down <= up);
    let down = shares_earned(7, 11, 6, 13, false).unwrap();
    let up = shares_earned(7, 11, 6, 13, true).unwrap();
    assert_eq!((down, up), (5, 6));
}

#[test]
fn redeeming_a_fresh_deposit_returns_at_most_the_deposit() {
    let (usd, supply, tvl) = (1_000_003u128, 777u64, 999_999u128);
    let shares = shares_earned(usd, supply, 6, tvl, false).unwrap();
    let paid = usd_earned(shares, supply, tvl).unwrap();
    assert!(paid <= usd);
    assert_eq!(shares, 777);
    assert_eq!(paid, 999_999);
}

#[test]
fn token_usd_round_trip_never_gains() {
    let amount = 1_234_567u64;
    let usd = calc_usd_amount(amount, 6, 333_333_333, -8, false).unwrap();
    let back = calc_token_amount(usd, 6, 333_333_333, -8, false).unwrap();
    assert!(back <= amount);
    assert_eq!(back, 1_234_566);
}

#[test]
fn error_codes() {
    assert_eq!(CarrotAmmError::InvalidDestinationMint.code(), 0);
    assert_eq!(CarrotAmmError::AssetNotFound.code(), 3);
    assert_eq!(CarrotAmmError::OraclePriceStale.code(), 7);
}

#[test]
fn token_usd_round_trip_rounding_up_never_loses() {
    let amount = 1_234_567u64;
    let usd = calc_usd_amount(amount, 6, 333_333_333, -8, true).unwrap();
    let back = calc_token_amount(usd, 6, 333_333_333, -8, true).unwrap();
    assert!(back >= amount);
}

#[test]
fn larger_amounts_are_worth_more() {
    let small = calc_usd_amount(10, 6, 333_333_333, -8, true).unwrap();
    let large = calc_usd_amount(11, 6, 333_333_333, -8, true).unwrap();
    assert!(small <= large);
    assert!(shares_earned(10, 7, 6, 9, true).unwrap() <= shares_earned(11, 7, 6, 9, true).unwrap());
}
