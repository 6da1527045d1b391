use carrot_amm::errors::{CarrotAmmError, LoadError};
use carrot_amm::oracle::{PriceFeedMessage, PriceUpdateV2, RoundingMode, VerificationLevel, MAX_AGE};
use carrot_amm::pubkey::Pubkey;

fn update(publish_time: i64, ema_price: i64, ema_conf: u64) -> PriceUpdateV2 {
    PriceUpdateV2 {
        write_authority: Pubkey::new_from_array([0u8; 32]),
        verification_level: VerificationLevel::Full,
        price_message: PriceFeedMessage {
            feed_id: [9u8; 32],
            price: 0,
            conf: 0,
            exponent: -8,
            publish_time,
            prev_publish_time: 0,
            ema_price,
            ema_conf,
        },
        posted_slot: 0,
    }
}

#[test]
fn price_moves_by_confidence() {
    let u = update(1_000, 1_000, 10);
    assert_eq!(u.get_price_usd_from_pyth_oracle(1_100, MAX_AGE, RoundingMode::RoundUp), Ok((1_010, -8)));
    assert_eq!(u.get_price_usd_from_pyth_oracle(1_100, MAX_AGE, RoundingMode::RoundDown), Ok((990, -8)));
    assert_eq!(u.get_price_usd_from_pyth_oracle(1_100, MAX_AGE, RoundingMode::Avg), Ok((1_000, -8)));
    assert_eq!(u.get_price_usd_from_pyth_oracle(1_300, 300, RoundingMode::Avg), Ok((1_000, -8)));
}

#[test]
fn stale_price() {
    let u = update(1_000, 1_000, 10);
    assert_eq!(u.get_price_usd_from_pyth_oracle(1_301, 300, RoundingMode::Avg), Err(CarrotAmmError::OraclePriceStale));
    // a publish time in the future is a price zero seconds old
    assert_eq!(u.get_price_usd_from_pyth_oracle(999, 0, RoundingMode::Avg), Ok((1_000, -8)));
    assert_eq!(u.get_price_usd_from_pyth_oracle(i64::MIN, 0, RoundingMode::RoundUp), Ok((1_010, -8)));
    // the age saturates
    let old = update(i64::MIN, 1, 0);
    assert_eq!(old.get_price_usd_from_pyth_oracle(i64::MAX, i64::MAX as u64, RoundingMode::Avg), Ok((1, -8)));
}

#[test]
fn price_adjustment_saturates() {
    let u = update(0, i64::MAX, 10);
    assert_eq!(u.get_price_usd_from_pyth_oracle(0, 0, RoundingMode::RoundUp), Ok((i64::MAX, -8)));
    let u = update(0, i64::MIN + 5, 10);
    assert_eq!(u.get_price_usd_from_pyth_oracle(0, 0, RoundingMode::RoundDown), Ok((i64::MIN, -8)));
    // a confidence above i64::MAX reads as negative
    let u = update(0, 0, u64::MAX);
    assert_eq!(u.get_price_usd_from_pyth_oracle(0, 0, RoundingMode::RoundUp), Ok((-1, -8)));
}

#[test]
fn rounding_modes_are_ordered() {
    let u = update(0, 12_345, 678);
    let up = u.get_price_usd_from_pyth_oracle(0, 0, RoundingMode::RoundUp).unwrap().0;
    let avg = u.get_price_usd_from_pyth_oracle(0, 0, RoundingMode::Avg).unwrap().0;
    let down = u.get_price_usd_from_pyth_oracle(0, 0, RoundingMode::RoundDown).unwrap().0;
    assert!(down <= avg && avg <= up);
}

fn price_account(level: &[u8]) -> Vec<u8> {
    let mut b = vec![0u8; 8];
    b.extend_from_slice(&[7u8; 32]);
    b.extend_from_slice(level);
    b.extend_from_slice(&[8u8; 32]);
    b.extend_from_slice(&(-123i64).to_le_bytes());
    b.extend_from_slice(&45u64.to_le_bytes());
    b.extend_from_slice(&(-8i32).to_le_bytes());
    b.extend_from_slice(&1_700_000_000i64.to_le_bytes());
    b.extend_from_slice(&1_699_999_999i64.to_le_bytes());
    b.extend_from_slice(&6_789i64.to_le_bytes());
    b.extend_from_slice(&12u64.to_le_bytes());
    b.extend_from_slice(&555u64.to_le_bytes());
    b.resize(PriceUpdateV2::SPACE, 0);
    b
}

#[test]
fn price_account_partial() {
    let b = price_account(&[0, 3]);
    assert_eq!(b.len(), PriceUpdateV2::SPACE);
    let u = PriceUpdateV2::load(&b).unwrap();
    assert_eq!(u.write_authority.to_bytes(), [7u8; 32]);
    assert_eq!(u.verification_level, VerificationLevel::Partial { num_signatures: 3 });
    let m = u.price_message;
    assert_eq!(m.feed_id, [8u8; 32]);
    assert_eq!(m.price, -123);
    assert_eq!(m.conf, 45);
    assert_eq!(m.exponent, -8);
    assert_eq!(m.publish_time, 1_700_000_000);
    assert_eq!(m.prev_publish_time, 1_699_999_999);
    assert_eq!(m.ema_price, 6_789);
    assert_eq!(m.ema_conf, 12);
    assert_eq!(u.posted_slot, 555);
}

#[test]
fn price_account_full() {
    let b = price_account(&[1]);
    let u = PriceUpdateV2::load(&b).unwrap();
    assert_eq!(u.verification_level, VerificationLevel::Full);
    assert_eq!(u.price_message.price, -123);
    assert_eq!(u.price_message.ema_conf, 12);
    assert_eq!(u.posted_slot, 555);
}

#[test]
fn price_account_unknown_level() {
    let b = price_account(&[2, 0]);
    assert_eq!(PriceUpdateV2::load(&b).err(), Some(LoadError::UnknownVerificationLevel));
}
