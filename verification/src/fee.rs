use vstd::prelude::*;

use crate::errors::{CarrotAmmError, LoadError};
use crate::le::{bytes_u16, bytes_u64, law_le_fields, le_i64, le_u16, le_u64, lemma_field_in_subrange, read_i64_le, read_u16_le, read_u64_le, signed64};
use crate::math::{shares_earned, shares_for_usd, usd_amount, calc_usd_amount};
use crate::math::{abs_int, pow10};
use crate::math_laws::{cap_u64, ceil_div, law_shares_earned_value, law_shares_monotone, law_usd_amount_monotone, law_usd_amount_value};
use vstd::arithmetic::div_mod::lemma_div_is_ordered;
use vstd::arithmetic::mul::{lemma_mul_inequality, lemma_mul_nonnegative};

verus! {

/// Seconds in a Julian year (365.25 days).
pub const SECONDS_IN_YEAR: u128 = 31557600;

/// `amount * bps / 10_000`, rounded up; fails where `amount * bps + 9_999`
/// exceeds `max`.
pub open spec fn bps_fee(amount: int, bps: int, max: int) -> Option<int> {
    if amount * bps + 9_999 > max {
        None
    } else {
        Some((amount * bps + 9_999) / 10_000)
    }
}

/// The vault's fee configuration and the fees it has accumulated.
#[derive(Clone, Copy, Debug)]
pub struct Fee {
    pub redemption_fee_bps: u16,
    pub redemption_fee_accumulated: u64,
    pub management_fee_bps: u16,
    pub management_fee_last_update: i64,
    pub management_fee_accumulated: u64,
    pub performance_fee_bps: u16,
}

/// The fee record laid out little-endian in `s` from `off` on.
pub open spec fn fee_at(s: Seq<u8>, off: int) -> Fee {
    Fee {
        redemption_fee_bps: le_u16(s, off),
        redemption_fee_accumulated: le_u64(s, off + 2),
        management_fee_bps: le_u16(s, off + 10),
        management_fee_last_update: le_i64(s, off + 12),
        management_fee_accumulated: le_u64(s, off + 20),
        performance_fee_bps: le_u16(s, off + 28),
    }
}

/// Decodes the fee record at `off`.
pub(crate) fn read_fee(account_data: &[u8], off: usize) -> (r: Fee)
    requires
        off + Fee::SPACE <= account_data.len(),
    ensures
        r == fee_at(account_data@, off as int),
{
    let redemption_fee_bps = read_u16_le(account_data, off);
    let redemption_fee_accumulated = read_u64_le(account_data, off + 2);
    let management_fee_bps = read_u16_le(account_data, off + 10);
    let management_fee_last_update = read_i64_le(account_data, off + 12);
    let management_fee_accumulated = read_u64_le(account_data, off + 20);
    let performance_fee_bps = read_u16_le(account_data, off + 28);
    Fee {
        redemption_fee_bps,
        redemption_fee_accumulated,
        management_fee_bps,
        management_fee_last_update,
        management_fee_accumulated,
        performance_fee_bps,
    }
}

impl Fee {
    /// Size in bytes of the encoded fee record.
    pub const SPACE: usize = 30;

    /// The management fee in USD on `tvl`.
    pub open spec fn management_fee_usd(&self, tvl: u128) -> Result<u128, CarrotAmmError> {
        match bps_fee(tvl as int, self.management_fee_bps as int, u128::MAX as int) {
            None => Err(CarrotAmmError::InvalidFeeCalculation),
            Some(f) => Ok(f as u128),
        }
    }

    /// The performance fee in USD on earnings worth `net_earnings_usd`.
    pub open spec fn performance_fee_usd(&self, net_earnings_usd: u128) -> Result<u128, CarrotAmmError> {
        match bps_fee(net_earnings_usd as int, self.performance_fee_bps as int, u128::MAX as int) {
            None => Err(CarrotAmmError::InvalidFeeCalculation),
            Some(f) => Ok(f as u128),
        }
    }

    /// The split of a redemption into (amount left after the fee, fee).
    pub open spec fn redemption_split(&self, redemption_amount: u64) -> Result<(u64, u64), CarrotAmmError> {
        match bps_fee(redemption_amount as int, self.redemption_fee_bps as int, u64::MAX as int) {
            None => Err(CarrotAmmError::InvalidTokenCalculation),
            Some(f) => if f > redemption_amount {
                Err(CarrotAmmError::InvalidTokenCalculation)
            } else {
                Ok(((redemption_amount - f) as u64, f as u64))
            },
        }
    }

    /// What a redemption of `redemption_amount` splits into: all of it when no
    /// redemption fee is configured, else `redemption_split`.
    pub open spec fn redemption_fee(&self, redemption_amount: u64) -> Result<(u64, u64), CarrotAmmError> {
        if self.redemption_fee_bps == 0 {
            Ok((redemption_amount, 0))
        } else {
            self.redemption_split(redemption_amount)
        }
    }

    /// The shares minted as management fee at time `current_time`.
    pub open spec fn management_fee_shares(
        &self,
        current_time: i64,
        tvl: u128,
        shares_supply: u64,
        shares_decimals: u8,
    ) -> Result<u64, CarrotAmmError> {
        let time_delta = current_time - self.management_fee_last_update;
        if time_delta <= 60 {
            Ok(0)
        } else {
            match self.management_fee_usd(tvl) {
                Err(e) => Err(e),
                Ok(fee) => if fee * time_delta > u128::MAX {
                    Err(CarrotAmmError::InvalidFeeCalculation)
                } else {
                    let fee_usd = (fee * time_delta) / (SECONDS_IN_YEAR as int);
                    if fee_usd == 0 {
                        Ok(0)
                    } else {
                        match shares_for_usd(fee_usd as u128, shares_supply, shares_decimals, tvl, true) {
                            None => Err(CarrotAmmError::InvalidTokenCalculation),
                            Some(s) => Ok(s),
                        }
                    }
                },
            }
        }
    }

    /// The shares that `calculate_management_fee` returns and adds to the
    /// accumulated management fee: the fee due, failing where the sum would
    /// overflow a `u64`.
    pub open spec fn management_fee_accrual(
        &self,
        current_time: i64,
        tvl: u128,
        shares_supply: u64,
        shares_decimals: u8,
    ) -> Result<u64, CarrotAmmError> {
        match self.management_fee_shares(current_time, tvl, shares_supply, shares_decimals) {
            Err(e) => Err(e),
            Ok(s) => if self.management_fee_accumulated + s > u64::MAX {
                Err(CarrotAmmError::InvalidFeeCalculation)
            } else {
                Ok(s)
            },
        }
    }

    /// The shares minted as performance fee on `net_earnings` base units of an
    /// asset priced at `asset_price.0 * 10^asset_price.1` with `asset_price.2` decimals.
    pub open spec fn performance_fee_shares(
        &self,
        net_earnings: i64,
        asset_price: (i64, i32, u8),
        shares_supply: u64,
        shares_decimals: u8,
        vault_tvl: u128,
    ) -> Result<u64, CarrotAmmError> {
        if net_earnings <= 0 {
            Ok(0)
        } else {
            match usd_amount(net_earnings as u64, asset_price.2, asset_price.0, asset_price.1, true) {
                None => Err(CarrotAmmError::InvalidTokenCalculation),
                Some(usd) => match self.performance_fee_usd(usd) {
                    Err(e) => Err(e),
                    Ok(fee) => match shares_for_usd(fee, shares_supply, shares_decimals, vault_tvl, true) {
                        None => Err(CarrotAmmError::InvalidTokenCalculation),
                        Some(s) => Ok(s),
                    },
                },
            }
        }
    }

    /// Decodes a fee record.
    pub fn load(account_data: &[u8]) -> (r: Result<Fee, LoadError>)
        requires
            account_data@.len() == Self::SPACE,
        ensures
            r == Ok::<Fee, LoadError>(fee_at(account_data@, 0)),
    {
        Ok(read_fee(account_data, 0))
    }

    /// Returns the number of shares to mint to the fee account for the
    /// management fee accrued since the last update, given the current time,
    /// and adds them to the accumulated management fee; fails, leaving the
    /// record unchanged, where the computation fails or the sum overflows.
    /// Nothing accrues within 60 seconds of the last update.
    pub fn calculate_management_fee(
        &mut self,
        current_time: i64,
        tvl: u128,
        shares_supply: u64,
        shares_decimals: u8,
    ) -> (r: Result<u64, CarrotAmmError>)
        requires
            i64::MIN <= current_time - old(self).management_fee_last_update <= i64::MAX,
        ensures
            r == old(self).management_fee_accrual(current_time, tvl, shares_supply, shares_decimals),
            r matches Ok(s) ==> *final(self) == (Fee {
                management_fee_accumulated: (old(self).management_fee_accumulated + s) as u64,
                ..*old(self)
            }),
            r is Err ==> *final(self) == *old(self),
            current_time - old(self).management_fee_last_update <= 60 ==> r == Ok::<u64, CarrotAmmError>(0),
    {
        let shares = match self.management_fee_due(current_time, tvl, shares_supply, shares_decimals) {
            Ok(s) => s,
            Err(e) => return Err(e),
        };
        // increment the accumulated store
        match self.management_fee_accumulated.checked_add(shares) {
            Some(total) => {
                self.management_fee_accumulated = total;
                Ok(shares)
            },
            None => Err(CarrotAmmError::InvalidFeeCalculation),
        }
    }

    /// The management fee in shares due at `current_time`.
    fn management_fee_due(
        &self,
        current_time: i64,
        tvl: u128,
        shares_supply: u64,
        shares_decimals: u8,
    ) -> (r: Result<u64, CarrotAmmError>)
        requires
            i64::MIN <= current_time - self.management_fee_last_update <= i64::MAX,
        ensures
            r == self.management_fee_shares(current_time, tvl, shares_supply, shares_decimals),
    {
        // require a delta of over 60 seconds
        let time_delta = current_time - self.management_fee_last_update;
        if time_delta <= 60 {
            return Ok(0);
        }
        let elapsed_seconds = time_delta as u128;
        let fee = match self.calc_management_fee(tvl) {
            Ok(f) => f,
            Err(e) => return Err(e),
        };
        let fee_usd_cents = match fee.checked_mul(elapsed_seconds) {
            Some(prod) => prod / SECONDS_IN_YEAR,
            None => return Err(CarrotAmmError::InvalidFeeCalculation),
        };
        if fee_usd_cents == 0 {
            return Ok(0);
        }
        match shares_earned(fee_usd_cents, shares_supply, shares_decimals, tvl, true) {
            Some(s) => Ok(s),
            None => Err(CarrotAmmError::InvalidTokenCalculation),
        }
    }

    /// Returns the number of shares to mint to the fee account as performance
    /// fee on a strategy's `net_earnings`; losses and zero earnings pay no fee.
    pub fn calculate_performance_fee(
        &self,
        net_earnings: i64,
        asset_price: (i64, i32, u8),
        shares_supply: u64,
        shares_decimals: u8,
        vault_tvl: u128,
    ) -> (r: Result<u64, CarrotAmmError>)
        ensures
            r == self.performance_fee_shares(
                net_earnings,
                asset_price,
                shares_supply,
                shares_decimals,
                vault_tvl,
            ),
            net_earnings <= 0 ==> r == Ok::<u64, CarrotAmmError>(0),
    {
        let (asset_price_value, asset_price_expo, asset_decimals) = asset_price;
        // no fee without earnings
        if net_earnings <= 0 {
            return Ok(0);
        }
        let net_earnings_usd = match calc_usd_amount(
            net_earnings as u64,
            asset_decimals,
            asset_price_value,
            asset_price_expo,
            true,
        ) {
            Some(v) => v,
            None => return Err(CarrotAmmError::InvalidTokenCalculation),
        };
        let fee_amount_usd = match self.calc_performance_fee(net_earnings_usd) {
            Ok(f) => f,
            Err(e) => return Err(e),
        };
        match shares_earned(fee_amount_usd, shares_supply, shares_decimals, vault_tvl, true) {
            Some(s) => Ok(s),
            None => Err(CarrotAmmError::InvalidTokenCalculation),
        }
    }

    /// Returns (amount left after the redemption fee, fee amount); the two add
    /// up to `redemption_amount`.
    pub fn calculate_redemption_fee(&self, redemption_amount: u64) -> (r: Result<(u64, u64), CarrotAmmError>)
        ensures
            r == self.redemption_fee(redemption_amount),
            r matches Ok((remaining, fee)) ==> remaining + fee == redemption_amount,
    {
        if self.redemption_fee_bps == 0 {
            return Ok((redemption_amount, 0));
        }
        self.calc_redemption_fee(redemption_amount)
    }

    /// Inflates `shares_supply` by the fees accrued but not yet minted: the
    /// performance fees passed in plus the accumulated management and
    /// redemption fees.
    pub fn adjust_shares_by_fees(&self, shares_supply: u64, total_performance_fees_accumulated: u64) -> (r: Result<u64, CarrotAmmError>)
        ensures
            ({
                let total = shares_supply + total_performance_fees_accumulated
                    + self.management_fee_accumulated + self.redemption_fee_accumulated;
                r == if total > u64::MAX {
                    Err::<u64, CarrotAmmError>(CarrotAmmError::InvalidTokenCalculation)
                } else {
                    Ok::<u64, CarrotAmmError>(total as u64)
                }
            }),
            r matches Ok(adjusted) ==> adjusted >= shares_supply,
    {
        let sum = match shares_supply.checked_add(total_performance_fees_accumulated) {
            Some(s) => s,
            None => return Err(CarrotAmmError::InvalidTokenCalculation),
        };
        let sum = match sum.checked_add(self.management_fee_accumulated) {
            Some(s) => s,
            None => return Err(CarrotAmmError::InvalidTokenCalculation),
        };
        match sum.checked_add(self.redemption_fee_accumulated) {
            Some(s) => Ok(s),
            None => Err(CarrotAmmError::InvalidTokenCalculation),
        }
    }

    fn calc_management_fee(&self, tvl: u128) -> (r: Result<u128, CarrotAmmError>)
        ensures
            r == self.management_fee_usd(tvl),
    {
        match tvl.checked_mul(self.management_fee_bps as u128) {
            Some(prod) => match prod.checked_add(9_999) {
                Some(sum) => Ok(sum / 10_000),
                None => Err(CarrotAmmError::InvalidFeeCalculation),
            },
            None => Err(CarrotAmmError::InvalidFeeCalculation),
        }
    }

    fn calc_performance_fee(&self, net_earnings_usd: u128) -> (r: Result<u128, CarrotAmmError>)
        ensures
            r == self.performance_fee_usd(net_earnings_usd),
    {
        match net_earnings_usd.checked_mul(self.performance_fee_bps as u128) {
            Some(prod) => match prod.checked_add(9_999) {
                Some(sum) => Ok(sum / 10_000),
                None => Err(CarrotAmmError::InvalidFeeCalculation),
            },
            None => Err(CarrotAmmError::InvalidFeeCalculation),
        }
    }

    fn calc_redemption_fee(&self, redemption_amount: u64) -> (r: Result<(u64, u64), CarrotAmmError>)
        ensures
            r == self.redemption_split(redemption_amount),
    {
        let fee_amount = match redemption_amount.checked_mul(self.redemption_fee_bps as u64) {
            Some(prod) => match prod.checked_add(9_999) {
                Some(sum) => sum / 10_000,
                None => return Err(CarrotAmmError::InvalidTokenCalculation),
            },
            None => return Err(CarrotAmmError::InvalidTokenCalculation),
        };
        match redemption_amount.checked_sub(fee_amount) {
            Some(remaining_amount) => Ok((remaining_amount, fee_amount)),
            None => Err(CarrotAmmError::InvalidTokenCalculation),
        }
    }
}

/// The fee on a larger amount is never smaller.
proof fn lemma_bps_fee_monotone(a1: int, a2: int, bps: int, max: int)
    requires
        0 <= a1 <= a2,
        0 <= bps,
    ensures
        bps_fee(a1, bps, max) matches Some(f1) ==> (bps_fee(a2, bps, max) matches Some(f2) ==> f1
            <= f2),
{
    lemma_mul_inequality(a1, a2, bps);
    lemma_div_is_ordered(a1 * bps + 9_999, a2 * bps + 9_999, 10_000);
}

/// Larger net earnings never yield a smaller performance fee in shares.
pub proof fn law_performance_fee_monotone(
    fee: Fee,
    net_earnings1: i64,
    net_earnings2: i64,
    asset_price: (i64, i32, u8),
    shares_supply: u64,
    shares_decimals: u8,
    vault_tvl: u128,
)
    requires
        net_earnings1 <= net_earnings2,
    ensures
        fee.performance_fee_shares(net_earnings1, asset_price, shares_supply, shares_decimals, vault_tvl) matches Ok(f1)
            ==> (fee.performance_fee_shares(net_earnings2, asset_price, shares_supply, shares_decimals, vault_tvl) matches Ok(f2)
            ==> f1 <= f2),
{
    if net_earnings1 > 0 {
        let (price, expo, decimals) = asset_price;
        law_usd_amount_monotone(net_earnings1 as u64, net_earnings2 as u64, decimals, price, expo, true);
        if let (Some(u1), Some(u2)) = (
            usd_amount(net_earnings1 as u64, decimals, price, expo, true),
            usd_amount(net_earnings2 as u64, decimals, price, expo, true),
        ) {
            lemma_bps_fee_monotone(u1 as int, u2 as int, fee.performance_fee_bps as int, u128::MAX as int);
            if let (Ok(c1), Ok(c2)) = (fee.performance_fee_usd(u1), fee.performance_fee_usd(u2)) {
                law_shares_monotone(c1, c2, shares_supply, shares_decimals, vault_tvl, true);
            }
        }
    }
}

/// The management fee owed never shrinks as more time passes since the last
/// update.
pub proof fn law_management_fee_monotone(
    fee: Fee,
    time1: i64,
    time2: i64,
    tvl: u128,
    shares_supply: u64,
    shares_decimals: u8,
)
    requires
        time1 <= time2,
    ensures
        fee.management_fee_shares(time1, tvl, shares_supply, shares_decimals) matches Ok(s1) ==> (
        fee.management_fee_shares(time2, tvl, shares_supply, shares_decimals) matches Ok(s2) ==> s1
            <= s2),
{
    let delta1 = time1 - fee.management_fee_last_update;
    let delta2 = time2 - fee.management_fee_last_update;
    if delta1 > 60 {
        if let Ok(f) = fee.management_fee_usd(tvl) {
            lemma_mul_inequality(delta1, delta2, f as int);
            lemma_mul_nonnegative(delta1, f as int);
            assert(f * delta1 <= f * delta2) by {
                vstd::arithmetic::mul::lemma_mul_is_commutative(f as int, delta1);
                vstd::arithmetic::mul::lemma_mul_is_commutative(f as int, delta2);
            }
            lemma_div_is_ordered(f * delta1, f * delta2, SECONDS_IN_YEAR as int);
            if f * delta2 <= u128::MAX {
                let c1 = (f * delta1) / (SECONDS_IN_YEAR as int);
                let c2 = (f * delta2) / (SECONDS_IN_YEAR as int);
                vstd::arithmetic::div_mod::lemma_div_pos_is_pos(f * delta1, SECONDS_IN_YEAR as int);
                vstd::arithmetic::div_mod::lemma_div_is_ordered(f * delta2, u128::MAX as int, SECONDS_IN_YEAR as int);
                law_shares_monotone(c1 as u128, c2 as u128, shares_supply, shares_decimals, tvl, true);
            }
        }
    }
}

/// A redemption of `amount` at `redemption_fee_bps` (at most 10_000) takes the
/// fee `ceil(amount * bps / 10_000)` and leaves the rest, whenever
/// `amount * bps + 9_999` fits a `u64`; any other split is refused, and every
/// split that succeeds takes exactly that fee and adds up to the amount.
pub proof fn law_redemption_fee_value(fee: Fee, amount: u64)
    ensures
        ({
            let bps = fee.redemption_fee_bps as int;
            let f = ceil_div(amount * bps, 10_000);
            &&& (bps <= 10_000 && amount * bps + 9_999 <= u64::MAX) ==> fee.redemption_fee(amount) == Ok::<(u64, u64), CarrotAmmError>(((amount - f) as u64, f as u64))
            &&& fee.redemption_fee(amount) matches Ok((rest, taken)) ==> taken == f && rest + taken == amount
        }),
{
    let bps = fee.redemption_fee_bps as int;
    let x = amount * bps + 9_999;
    lemma_mul_nonnegative(amount as int, bps);
    vstd::arithmetic::div_mod::lemma_div_pos_is_pos(x, 10_000);
    if bps <= 10_000 {
        lemma_mul_inequality(bps, 10_000, amount as int);
        vstd::arithmetic::mul::lemma_mul_is_commutative(amount as int, bps);
        vstd::arithmetic::mul::lemma_mul_is_commutative(amount as int, 10_000);
        // x < 10_000 * (amount + 1), so x / 10_000 <= amount
        vstd::arithmetic::div_mod::lemma_fundamental_div_mod(x, 10_000);
        vstd::arithmetic::div_mod::lemma_mod_pos_bound(x, 10_000);
        let q = x / 10_000;
        assert(q <= amount) by (nonlinear_arith)
            requires
                x == 10_000 * q + x % 10_000,
                0 <= x % 10_000,
                x < 10_000 * amount + 10_000,
        ;
    }
}

/// The performance fee in shares on `net_earnings` of an asset priced at
/// `price * 10^expo` with `decimals` decimals, in a vault with value and shares:
/// the earnings' USD value `usd = ceil(net * 10^(9 - decimals) * |price| /
/// 10^(-expo))`, the fee `f = ceil(usd * bps / 10_000)`, and the shares
/// `ceil(f * supply / tvl)` capped at `u64::MAX`, whenever each of these steps
/// fits a `u128`; any other result is refused. No earnings, no fee.
pub proof fn law_performance_fee_value(
    fee: Fee,
    net_earnings: i64,
    price: i64,
    expo: i32,
    decimals: u8,
    shares_supply: u64,
    shares_decimals: u8,
    vault_tvl: u128,
)
    ensures
        net_earnings <= 0 ==> fee.performance_fee_shares(net_earnings, (price, expo, decimals), shares_supply, shares_decimals, vault_tvl)
            == Ok::<u64, CarrotAmmError>(0),
        net_earnings > 0 && shares_supply > 0 && vault_tvl > 0 && expo < 0 && expo != i32::MIN && decimals <= 9 ==> ({
            let n = net_earnings * pow10((9 - decimals) as nat) * abs_int(price as int);
            let d = pow10((-expo) as nat) as int;
            let usd = ceil_div(n, d);
            let f = ceil_div(usd * fee.performance_fee_bps, 10_000);
            let shares = cap_u64(ceil_div(f * shares_supply, vault_tvl as int));
            &&& (n <= u128::MAX && d <= u128::MAX && n + d - 1 <= u128::MAX && usd * fee.performance_fee_bps + 9_999 <= u128::MAX
                && f * shares_supply + vault_tvl - 1 <= u128::MAX)
                ==> fee.performance_fee_shares(net_earnings, (price, expo, decimals), shares_supply, shares_decimals, vault_tvl)
                    == Ok::<u64, CarrotAmmError>(shares as u64)
            &&& fee.performance_fee_shares(net_earnings, (price, expo, decimals), shares_supply, shares_decimals, vault_tvl) matches Ok(v)
                ==> v == shares
        }),
{
    if net_earnings > 0 {
        law_usd_amount_value(net_earnings as u64, decimals, price, expo);
        if let Some(usd) = usd_amount(net_earnings as u64, decimals, price, expo, true) {
            lemma_mul_nonnegative(usd as int, fee.performance_fee_bps as int);
            vstd::arithmetic::div_mod::lemma_div_pos_is_pos(usd * fee.performance_fee_bps + 9_999, 10_000);
            crate::math_laws::lemma_div_le_of_le_mul(
                usd * fee.performance_fee_bps + 9_999,
                usd * fee.performance_fee_bps + 9_999,
                10_000,
            );
            if let Ok(f) = fee.performance_fee_usd(usd) {
                law_shares_earned_value(f, shares_supply, shares_decimals, vault_tvl);
            }
        }
    }
}

/// The management fee in shares at time `now`: nothing within 60 seconds of
/// the last update; after that, in a vault with value and shares, the yearly
/// fee `f = ceil(tvl * bps / 10_000)` prorated to `usd = f * elapsed /
/// 31_557_600` (rounded down), and the shares `ceil(usd * supply / tvl)`
/// capped at `u64::MAX`, or none when `usd` is zero, whenever each step fits
/// a `u128`; any other result is refused.
pub proof fn law_management_fee_value(fee: Fee, now: i64, tvl: u128, shares_supply: u64, shares_decimals: u8)
    ensures
        now - fee.management_fee_last_update <= 60 ==> fee.management_fee_shares(now, tvl, shares_supply, shares_decimals)
            == Ok::<u64, CarrotAmmError>(0),
        now - fee.management_fee_last_update > 60 && shares_supply > 0 && tvl > 0 ==> ({
            let elapsed = now - fee.management_fee_last_update;
            let f = ceil_div(tvl * fee.management_fee_bps, 10_000);
            let usd = (f * elapsed) / 31_557_600;
            let shares = if usd == 0 {
                0
            } else {
                cap_u64(ceil_div(usd * shares_supply, tvl as int))
            };
            &&& (tvl * fee.management_fee_bps + 9_999 <= u128::MAX && f * elapsed <= u128::MAX
                && usd * shares_supply + tvl - 1 <= u128::MAX)
                ==> fee.management_fee_shares(now, tvl, shares_supply, shares_decimals) == Ok::<u64, CarrotAmmError>(shares as u64)
            &&& fee.management_fee_shares(now, tvl, shares_supply, shares_decimals) matches Ok(v) ==> v == shares
        }),
{
    let elapsed = now - fee.management_fee_last_update;
    if elapsed > 60 {
        lemma_mul_nonnegative(tvl as int, fee.management_fee_bps as int);
        crate::math_laws::lemma_div_le_of_le_mul(
            tvl * fee.management_fee_bps + 9_999,
            tvl * fee.management_fee_bps + 9_999,
            10_000,
        );
        vstd::arithmetic::div_mod::lemma_div_pos_is_pos(tvl * fee.management_fee_bps + 9_999, 10_000);
        if let Ok(f) = fee.management_fee_usd(tvl) {
            lemma_mul_nonnegative(f as int, elapsed);
            vstd::arithmetic::div_mod::lemma_div_pos_is_pos(f * elapsed, 31_557_600);
            crate::math_laws::lemma_div_le_of_le_mul(f * elapsed, f * elapsed, 31_557_600);
            let usd = (f * elapsed) / 31_557_600;
            if f * elapsed <= u128::MAX {
                law_shares_earned_value(usd as u128, shares_supply, shares_decimals, tvl);
            }
        }
    }
}

/// The fee record's fields, little-endian at fixed offsets: redemption bps
/// at 0..2, redemption accumulated at 2..10, management bps at 10..12,
/// management last update (signed) at 12..20, management accumulated at
/// 20..28, performance bps at 28..30. A record read inside a slice is the
/// record at the slice's start.
pub proof fn law_fee_layout(s: Seq<u8>, off: int)
    requires
        0 <= off,
        off + Fee::SPACE <= s.len(),
    ensures
        fee_at(s, off).redemption_fee_bps == bytes_u16(s, off),
        fee_at(s, off).redemption_fee_accumulated == bytes_u64(s, off + 2),
        fee_at(s, off).management_fee_bps == bytes_u16(s, off + 10),
        fee_at(s, off).management_fee_last_update == signed64(bytes_u64(s, off + 12)),
        fee_at(s, off).management_fee_accumulated == bytes_u64(s, off + 20),
        fee_at(s, off).performance_fee_bps == bytes_u16(s, off + 28),
        fee_at(s.subrange(off, off + Fee::SPACE), 0) == fee_at(s, off),
{
    law_le_fields(s, off);
    law_le_fields(s, off + 2);
    law_le_fields(s, off + 10);
    law_le_fields(s, off + 12);
    law_le_fields(s, off + 20);
    law_le_fields(s, off + 28);
    let hi = off + Fee::SPACE;
    lemma_field_in_subrange(s, off, hi, 0, 2);
    lemma_field_in_subrange(s, off, hi, 2, 8);
    lemma_field_in_subrange(s, off, hi, 10, 2);
    lemma_field_in_subrange(s, off, hi, 12, 8);
    lemma_field_in_subrange(s, off, hi, 20, 8);
    lemma_field_in_subrange(s, off, hi, 28, 2);
}

} // verus!
