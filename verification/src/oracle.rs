use vstd::prelude::*;

use crate::errors::{CarrotAmmError, LoadError};
use crate::le::{bytes_u32, bytes_u64, law_le_fields, le_i32, le_i64, le_u64, read_bytes32, read_i32_le, read_i64_le, read_u64_le, signed32, signed64};
use crate::pubkey::Pubkey;

verus! {

/// Identifier of a price feed.
pub type FeedId = [u8; 32];

/// Default maximum age, in seconds, of an oracle price.
pub const MAX_AGE: u64 = 300;

/// How many guardian signatures a price update was verified with.
#[derive(Clone, Copy, Debug, PartialEq, Eq, Structural)]
pub enum VerificationLevel {
    Partial { num_signatures: u8 },
    Full,
}

/// A price, its confidence and its exponentially-weighted moving average.
#[derive(Clone, Copy, Debug)]
pub struct PriceFeedMessage {
    pub feed_id: FeedId,
    pub price: i64,
    pub conf: u64,
    pub exponent: i32,
    pub publish_time: i64,
    pub prev_publish_time: i64,
    pub ema_price: i64,
    pub ema_conf: u64,
}

/// A posted price-feed account.
#[derive(Clone, Copy, Debug)]
pub struct PriceUpdateV2 {
    pub write_authority: Pubkey,
    pub verification_level: VerificationLevel,
    pub price_message: PriceFeedMessage,
    pub posted_slot: u64,
}

/// Which way to move the moving-average price by its confidence.
#[derive(Clone, Debug)]
pub enum RoundingMode {
    RoundUp,
    RoundDown,
    Avg,
}

/// `x` clamped into the range of `i64`.
pub open spec fn saturate_i64(x: int) -> i64 {
    if x > i64::MAX {
        i64::MAX
    } else if x < i64::MIN {
        i64::MIN
    } else {
        x as i64
    }
}

fn saturating_add_i64(a: i64, b: i64) -> (r: i64)
    ensures
        r == saturate_i64(a + b),
{
    match a.checked_add(b) {
        Some(v) => v,
        None => if b > 0 {
            i64::MAX
        } else {
            i64::MIN
        },
    }
}

fn saturating_sub_i64(a: i64, b: i64) -> (r: i64)
    ensures
        r == saturate_i64(a - b),
{
    match a.checked_sub(b) {
        Some(v) => v,
        None => if b < 0 {
            i64::MAX
        } else {
            i64::MIN
        },
    }
}

/// Offset of the feed id: past the verification level, which takes one byte
/// when full (1) and two (level and signature count) when partial (0).
pub open spec fn price_feed_offset(s: Seq<u8>) -> int {
    if s[40] == 1 {
        41
    } else {
        42
    }
}

impl PriceUpdateV2 {
    /// Size in bytes of a price-feed account.
    pub const SPACE: usize = 8 + 32 + 2 + 32 + 8 + 8 + 4 + 8 + 8 + 8 + 8 + 8;

    /// This update is the account `s` decoded.
    pub open spec fn decoded_from(&self, s: Seq<u8>) -> bool {
        let off = price_feed_offset(s);
        let m = self.price_message;
        &&& self.write_authority@ == s.subrange(8, 40)
        &&& self.verification_level == (if s[40] == 1 {
            VerificationLevel::Full
        } else {
            VerificationLevel::Partial { num_signatures: s[41] }
        })
        &&& m.feed_id@ == s.subrange(off, off + 32)
        &&& m.price == le_i64(s, off + 32)
        &&& m.conf == le_u64(s, off + 40)
        &&& m.exponent == le_i32(s, off + 48)
        &&& m.publish_time == le_i64(s, off + 52)
        &&& m.prev_publish_time == le_i64(s, off + 60)
        &&& m.ema_price == le_i64(s, off + 68)
        &&& m.ema_conf == le_u64(s, off + 76)
        &&& self.posted_slot == le_u64(s, off + 84)
    }

    /// Age in seconds of the price at `current_time`: the saturated difference,
    /// and zero for a publish time in the future.
    pub open spec fn price_age(&self, current_time: i64) -> u64 {
        let age = saturate_i64(current_time - self.price_message.publish_time);
        if age < 0 {
            0
        } else {
            age as u64
        }
    }

    /// The moving-average price moved up or down by its confidence, saturating.
    pub open spec fn adjusted_price(&self, rounding_mode: RoundingMode) -> i64 {
        let m = self.price_message;
        match rounding_mode {
            RoundingMode::RoundUp => saturate_i64(m.ema_price + (m.ema_conf as i64)),
            RoundingMode::RoundDown => saturate_i64(m.ema_price - (m.ema_conf as i64)),
            RoundingMode::Avg => m.ema_price,
        }
    }

    /// Decodes a price-feed account.
    pub fn load(account_data: &[u8]) -> (r: Result<PriceUpdateV2, LoadError>)
        requires
            account_data@.len() == Self::SPACE,
        ensures
            account_data@[40] == 0 || account_data@[40] == 1 ==> (r matches Ok(update)
                && update.decoded_from(account_data@)),
            !(account_data@[40] == 0 || account_data@[40] == 1) ==> r == Err::<
                PriceUpdateV2,
                LoadError,
            >(LoadError::UnknownVerificationLevel),
    {
        let write_authority = Pubkey::new_from_array(read_bytes32(account_data, 8));
        let verification_byte = account_data[40];
        let mut offset: usize = 41;
        let verification_level = if verification_byte == 1 {
            VerificationLevel::Full
        } else if verification_byte == 0 {
            // a partial verification is followed by the number of signatures
            let num_signatures = account_data[41];
            offset = 42;
            VerificationLevel::Partial { num_signatures }
        } else {
            return Err(LoadError::UnknownVerificationLevel);
        };
        let feed_id = read_bytes32(account_data, offset);
        let price = read_i64_le(account_data, offset + 32);
        let conf = read_u64_le(account_data, offset + 40);
        let exponent = read_i32_le(account_data, offset + 48);
        let publish_time = read_i64_le(account_data, offset + 52);
        let prev_publish_time = read_i64_le(account_data, offset + 60);
        let ema_price = read_i64_le(account_data, offset + 68);
        let ema_conf = read_u64_le(account_data, offset + 76);
        let posted_slot = read_u64_le(account_data, offset + 84);
        Ok(PriceUpdateV2 {
            write_authority,
            verification_level,
            price_message: PriceFeedMessage {
                feed_id,
                price,
                conf,
                exponent,
                publish_time,
                prev_publish_time,
                ema_price,
                ema_conf,
            },
            posted_slot,
        })
    }

    /// The price and exponent to use at `current_time`: fails when the price is
    /// older than `oracle_max_age` seconds; otherwise the moving-average price
    /// moved by its confidence as `rounding_mode` asks.
    pub fn get_price_usd_from_pyth_oracle(
        &self,
        current_time: i64,
        oracle_max_age: u64,
        rounding_mode: RoundingMode,
    ) -> (r: Result<(i64, i32), CarrotAmmError>)
        ensures
            r == (if self.price_age(current_time) > oracle_max_age {
                Err::<(i64, i32), CarrotAmmError>(CarrotAmmError::OraclePriceStale)
            } else {
                Ok((self.adjusted_price(rounding_mode), self.price_message.exponent))
            }),
    {
        // how old the price is in seconds
        let elapsed = saturating_sub_i64(current_time, self.price_message.publish_time);
        // a publish time ahead of the clock is a price zero seconds old
        let age: u64 = if elapsed < 0 {
            0
        } else {
            elapsed as u64
        };
        if age > oracle_max_age {
            return Err(CarrotAmmError::OraclePriceStale);
        }
        let adjusted_price = match rounding_mode {
            RoundingMode::RoundUp => saturating_add_i64(
                self.price_message.ema_price,
                self.price_message.ema_conf as i64,
            ),
            RoundingMode::RoundDown => saturating_sub_i64(
                self.price_message.ema_price,
                self.price_message.ema_conf as i64,
            ),
            RoundingMode::Avg => self.price_message.ema_price,
        };
        Ok((adjusted_price, self.price_message.exponent))
    }
}

/// Moving the price down by its confidence never exceeds the average, and
/// moving it up never falls below it, while the confidence reads as a
/// non-negative `i64`.
pub proof fn law_price_rounding_order(update: PriceUpdateV2)
    requires
        update.price_message.ema_conf <= i64::MAX,
    ensures
        update.adjusted_price(RoundingMode::RoundDown) <= update.adjusted_price(RoundingMode::Avg)
            <= update.adjusted_price(RoundingMode::RoundUp),
{
}

/// A price is fresh exactly when at most `oracle_max_age` seconds have passed
/// since it was published (a price published after `now` has age zero), for
/// any maximum age below `i64::MAX`. The price handed out is the moving average
/// moved up or down by its confidence, or the average itself, as long as that
/// stays within `i64` and the confidence reads as a non-negative `i64`.
pub proof fn law_oracle_price(update: PriceUpdateV2, now: i64, oracle_max_age: u64)
    ensures
        oracle_max_age < i64::MAX ==> (update.price_age(now) <= oracle_max_age <==> now
            - update.price_message.publish_time <= oracle_max_age),
        update.adjusted_price(RoundingMode::Avg) == update.price_message.ema_price,
        update.price_message.ema_conf <= i64::MAX && update.price_message.ema_price
            + update.price_message.ema_conf <= i64::MAX ==> update.adjusted_price(RoundingMode::RoundUp)
            == update.price_message.ema_price + update.price_message.ema_conf,
        update.price_message.ema_conf <= i64::MAX && update.price_message.ema_price
            - update.price_message.ema_conf >= i64::MIN ==> update.adjusted_price(RoundingMode::RoundDown)
            == update.price_message.ema_price - update.price_message.ema_conf,
{
}

/// A decoded price account: write authority at 8..40, the verification level
/// at 40 (1 full; 0 partial, with the signature count at 41), and then, from
/// 41 (full) or 42 (partial): feed id (32 bytes), price, confidence, exponent,
/// publish time, previous publish time, moving-average price, moving-average
/// confidence and posted slot, little-endian, signed where the field is signed.
pub proof fn law_price_update_layout(update: PriceUpdateV2, s: Seq<u8>)
    requires
        s.len() == PriceUpdateV2::SPACE,
        s[40] == 0 || s[40] == 1,
        update.decoded_from(s),
    ensures
        ({
            let off: int = if s[40] == 1 { 41 } else { 42 };
            let m = update.price_message;
            &&& update.write_authority@ == s.subrange(8, 40)
            &&& s[40] == 1 ==> update.verification_level == VerificationLevel::Full
            &&& s[40] == 0 ==> update.verification_level == VerificationLevel::Partial { num_signatures: s[41] }
            &&& m.feed_id@ == s.subrange(off, off + 32)
            &&& m.price == signed64(bytes_u64(s, off + 32))
            &&& m.conf == bytes_u64(s, off + 40)
            &&& m.exponent == signed32(bytes_u32(s, off + 48))
            &&& m.publish_time == signed64(bytes_u64(s, off + 52))
            &&& m.prev_publish_time == signed64(bytes_u64(s, off + 60))
            &&& m.ema_price == signed64(bytes_u64(s, off + 68))
            &&& m.ema_conf == bytes_u64(s, off + 76)
            &&& update.posted_slot == bytes_u64(s, off + 84)
        }),
{
    let off: int = if s[40] == 1 { 41 } else { 42 };
    law_le_fields(s, off + 32);
    law_le_fields(s, off + 40);
    law_le_fields(s, off + 48);
    law_le_fields(s, off + 52);
    law_le_fields(s, off + 60);
    law_le_fields(s, off + 68);
    law_le_fields(s, off + 76);
    law_le_fields(s, off + 84);
}

} // verus!
