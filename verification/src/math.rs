use vstd::prelude::*;

verus! {

/// Number of decimals of the USD amounts handled by this crate.
pub const PRECISION: u8 = 9;

/// `10^e`.
pub open spec fn pow10(e: nat) -> nat
    decreases e,
{
    if e == 0 {
        1
    } else {
        10 * pow10((e - 1) as nat)
    }
}

pub proof fn lemma_pow10_pos(e: nat)
    ensures
        pow10(e) >= 1,
    decreases e,
{
    if e > 0 {
        lemma_pow10_pos((e - 1) as nat);
    }
}

pub proof fn lemma_pow10_monotone(a: nat, b: nat)
    requires
        a <= b,
    ensures
        pow10(a) <= pow10(b),
    decreases b,
{
    if a < b {
        lemma_pow10_monotone(a, (b - 1) as nat);
        lemma_pow10_pos((b - 1) as nat);
    }
}

/// `10^e` as a `u128`, or `None` where it does not fit.
fn checked_pow10_u128(e: u32) -> (r: Option<u128>)
    ensures
        r == (if pow10(e as nat) <= u128::MAX {
            Some(pow10(e as nat) as u128)
        } else {
            None::<u128>
        }),
{
    let mut acc: u128 = 1;
    let mut i: u32 = 0;
    while i < e
        invariant
            i <= e,
            acc == pow10(i as nat),
        decreases e - i,
    {
        if acc > u128::MAX / 10 {
            proof {
                lemma_pow10_monotone((i + 1) as nat, e as nat);
            }
            return None;
        }
        acc = acc * 10;
        i = i + 1;
    }
    Some(acc)
}


/// `|x|`.
pub open spec fn abs_int(x: int) -> nat {
    if x < 0 {
        (-x) as nat
    } else {
        x as nat
    }
}

/// `n / d` rounded down, or rounded up when `ceiling`; rounding up adds `d - 1`
/// first, and fails where that sum does not fit a `u128`.
pub open spec fn rounded_div(n: int, d: int, ceiling: bool) -> Option<u128> {
    if ceiling {
        if n + d - 1 > u128::MAX {
            None
        } else {
            Some(((n + d - 1) / d) as u128)
        }
    } else {
        Some((n / d) as u128)
    }
}

/// The USD value (with `PRECISION` decimals) of `token_amount` base units of a
/// token with `token_decimal` decimals, priced at `price * 10^expo` USD per
/// token: `token_amount * 10^(PRECISION - token_decimal) * |price| / 10^(-expo)`,
/// rounded down or up. Defined only for a negative exponent, at most
/// `PRECISION` token decimals, and intermediate values that fit a `u128`.
pub open spec fn usd_amount(
    token_amount: u64,
    token_decimal: u8,
    price: i64,
    expo: i32,
    ceiling: bool,
) -> Option<u128> {
    if expo >= 0 || token_decimal > PRECISION || expo == i32::MIN {
        None
    } else {
        let numerator = token_amount * pow10((PRECISION - token_decimal) as nat) * abs_int(
            price as int,
        );
        let divisor = pow10((-expo) as nat);
        if numerator > u128::MAX || divisor > u128::MAX {
            None
        } else {
            rounded_div(numerator, divisor as int, ceiling)
        }
    }
}

/// `-x`, or `None` for `i32::MIN`.
fn checked_neg_i32(x: i32) -> (r: Option<i32>)
    ensures
        r == (if x == i32::MIN {
            None::<i32>
        } else {
            Some((-x) as i32)
        }),
{
    if x == i32::MIN {
        None
    } else {
        Some(-x)
    }
}

/// `|x|` as an unsigned integer.
fn unsigned_abs_i64(x: i64) -> (r: u64)
    ensures
        r == abs_int(x as int),
{
    if x >= 0 {
        x as u64
    } else {
        let y: i128 = -(x as i128);
        y as u64
    }
}

proof fn lemma_pow10_small()
    ensures
        pow10(9) == 1_000_000_000,
{
    reveal_with_fuel(pow10, 10);
}

/// `n / d` rounded as `rounded_div` says, computed with checked `u128` operations.
fn checked_rounded_div(n: u128, d: u128, ceiling: bool) -> (r: Option<u128>)
    requires
        d >= 1,
    ensures
        r == rounded_div(n as int, d as int, ceiling),
{
    if ceiling {
        match n.checked_add(d - 1) {
            Some(sum) => Some(sum / d),
            None => None,
        }
    } else {
        Some(n / d)
    }
}

/// Converts `token_amount` base units of a token into USD with `PRECISION`
/// decimals, at the oracle price `price_feed_price * 10^price_feed_expo`,
/// rounding down, or up when `ceiling`.
pub fn calc_usd_amount(
    token_amount: u64,
    token_decimal: u8,
    price_feed_price: i64,
    price_feed_expo: i32,
    ceiling: bool,
) -> (r: Option<u128>)
    ensures
        r == usd_amount(token_amount, token_decimal, price_feed_price, price_feed_expo, ceiling),
{
    if price_feed_expo >= 0 {
        return None;
    }
    let token_amount_wide = token_amount as u128;
    let price = unsigned_abs_i64(price_feed_price) as u128;

    // Scale the token amount to the base unit (USD with PRECISION decimals)
    let decimal_adjustment: u32 = match PRECISION.checked_sub(token_decimal) {
        Some(d) => d as u32,
        None => return None,
    };
    proof {
        lemma_pow10_monotone(decimal_adjustment as nat, 9);
        lemma_pow10_small();
    }
    let scale_multiplier = match checked_pow10_u128(decimal_adjustment) {
        Some(m) => m,
        None => return None,
    };
    proof {
        assert(token_amount * scale_multiplier <= u64::MAX * 1_000_000_000) by (nonlinear_arith)
            requires
                scale_multiplier <= 1_000_000_000,
        ;
    }
    let scaled_token_amount = match token_amount_wide.checked_mul(scale_multiplier) {
        Some(v) => v,
        None => return None,
    };
    let numerator = match scaled_token_amount.checked_mul(price) {
        Some(v) => v,
        None => return None,
    };
    let expo = match checked_neg_i32(price_feed_expo) {
        Some(e) => e as u32,
        None => return None,
    };
    let divisor = match checked_pow10_u128(expo) {
        Some(d) => d,
        None => return None,
    };
    proof {
        lemma_pow10_pos(expo as nat);
    }
    checked_rounded_div(numerator, divisor, ceiling)
}


/// The token amount (in base units of a token with `token_decimal` decimals)
/// worth `scaled_usd_amount` USD with `PRECISION` decimals, at the price
/// `price * 10^expo` USD per token:
/// `scaled_usd_amount * 10^(-expo) / |price| / 10^(PRECISION - token_decimal)`,
/// each division rounded down, or up when `ceiling`. Defined only for a negative
/// exponent, a nonzero price, at most `PRECISION` token decimals, intermediate
/// values that fit a `u128`, and a result that fits a `u64`.
pub open spec fn token_amount(
    scaled_usd_amount: u128,
    token_decimal: u8,
    price: i64,
    expo: i32,
    ceiling: bool,
) -> Option<u64> {
    if expo >= 0 || expo == i32::MIN || price == 0 || token_decimal > PRECISION {
        None
    } else {
        let multiplier = pow10((-expo) as nat);
        let temp = scaled_usd_amount * multiplier;
        if multiplier > u128::MAX || temp > u128::MAX {
            None
        } else {
            match rounded_div(temp, abs_int(price as int) as int, ceiling) {
                None => None,
                Some(result) => match rounded_div(
                    result as int,
                    pow10((PRECISION - token_decimal) as nat) as int,
                    ceiling,
                ) {
                    None => None,
                    Some(amount) => if amount > u64::MAX {
                        None
                    } else {
                        Some(amount as u64)
                    },
                },
            }
        }
    }
}

/// Converts `scaled_usd_amount` USD with `PRECISION` decimals into base units of
/// a token with `token_decimal` decimals, at the oracle price
/// `price_feed_price * 10^price_feed_expo`, rounding down, or up when `ceiling`.
pub fn calc_token_amount(
    scaled_usd_amount: u128,
    token_decimal: u8,
    price_feed_price: i64,
    price_feed_expo: i32,
    ceiling: bool,
) -> (r: Option<u64>)
    ensures
        r == token_amount(scaled_usd_amount, token_decimal, price_feed_price, price_feed_expo, ceiling),
{
    if price_feed_expo >= 0 {
        return None;
    }
    let price_exponent = match checked_neg_i32(price_feed_expo) {
        Some(e) => e as u32,
        None => return None,
    };
    let price = unsigned_abs_i64(price_feed_price) as u128;
    if price == 0 {
        return None;
    }
    let multiplier = match checked_pow10_u128(price_exponent) {
        Some(m) => m,
        None => return None,
    };
    let temp_result = match scaled_usd_amount.checked_mul(multiplier) {
        Some(v) => v,
        None => return None,
    };
    let result = match checked_rounded_div(temp_result, price, ceiling) {
        Some(v) => v,
        None => return None,
    };

    // Adjust for token decimals
    let decimal_adjustment: u32 = match PRECISION.checked_sub(token_decimal) {
        Some(d) => d as u32,
        None => return None,
    };
    proof {
        lemma_pow10_monotone(decimal_adjustment as nat, 9);
        lemma_pow10_small();
        lemma_pow10_pos(decimal_adjustment as nat);
    }
    let divisor = match checked_pow10_u128(decimal_adjustment) {
        Some(d) => d,
        None => return None,
    };
    let amount = match checked_rounded_div(result, divisor, ceiling) {
        Some(v) => v,
        None => return None,
    };

    // Ensure the result fits within u64
    if amount > u64::MAX as u128 {
        None
    } else {
        Some(amount as u64)
    }
}

/// `10^e` as a `u64`, or `None` where it does not fit.
fn checked_pow10_u64(e: u32) -> (r: Option<u64>)
    ensures
        r == (if pow10(e as nat) <= u64::MAX {
            Some(pow10(e as nat) as u64)
        } else {
            None::<u64>
        }),
{
    match checked_pow10_u128(e) {
        Some(v) => if v <= u64::MAX as u128 {
            Some(v as u64)
        } else {
            None
        },
        None => None,
    }
}

/// `ui` whole tokens in base units of a token with `decimal` decimals:
/// `ui * 10^decimal`, or `None` where that does not fit a `u64`.
pub open spec fn ui_amount(ui: u64, decimal: u8) -> Option<u64> {
    if ui * pow10(decimal as nat) > u64::MAX {
        None
    } else {
        Some((ui * pow10(decimal as nat)) as u64)
    }
}

/// Whole token units to base units, as `ui_amount` states.
fn ui_to_amount(ui: u64, decimal: u8) -> (r: Option<u64>)
    ensures
        r == ui_amount(ui, decimal),
{
    let multiplier = match checked_pow10_u64(decimal as u32) {
        Some(m) => m,
        None => {
            proof {
                if ui > 0 {
                    vstd::arithmetic::mul::lemma_mul_increases(ui as int, pow10(decimal as nat) as int);
                }
            }
            return if ui == 0 {
                Some(0)
            } else {
                None
            };
        },
    };
    ui.checked_mul(multiplier)
}

/// The shares minted for a deposit worth `usd_value`: `usd_value * shares_supply /
/// vault_tvl`, rounded down, or up when `round_up`, and capped at `u64::MAX`.
/// An empty vault (no TVL or no shares) mints 100 whole shares.
pub open spec fn shares_for_usd(
    usd_value: u128,
    shares_supply: u64,
    shares_decimals: u8,
    vault_tvl: u128,
    round_up: bool,
) -> Option<u64> {
    if vault_tvl == 0 || shares_supply == 0 {
        ui_amount(100, shares_decimals)
    } else if usd_value * shares_supply > u128::MAX {
        None
    } else {
        match rounded_div(usd_value * shares_supply, vault_tvl as int, round_up) {
            None => None,
            Some(shares) => Some(
                if shares > u64::MAX {
                    u64::MAX
                } else {
                    shares as u64
                },
            ),
        }
    }
}

/// Calculates the shares earned from depositing `usd_value` into a vault worth
/// `vault_tvl` with `shares_supply` shares outstanding.
pub fn shares_earned(
    usd_value: u128,
    shares_supply: u64,
    shares_decimals: u8,
    vault_tvl: u128,
    round_up: bool,
) -> (r: Option<u64>)
    ensures
        r == shares_for_usd(usd_value, shares_supply, shares_decimals, vault_tvl, round_up),
{
    if vault_tvl == 0 || shares_supply == 0 {
        // an empty vault mints 100 shares
        ui_to_amount(100, shares_decimals)
    } else {
        let prod = match usd_value.checked_mul(shares_supply as u128) {
            Some(p) => p,
            None => return None,
        };
        let shares = match checked_rounded_div(prod, vault_tvl, round_up) {
            Some(s) => s,
            None => return None,
        };
        if shares > u64::MAX as u128 {
            Some(u64::MAX)
        } else {
            Some(shares as u64)
        }
    }
}

/// The USD paid out for redeeming `shares_to_redeem` shares:
/// `shares_to_redeem * vault_tvl / shares_supply`, rounded down, and zero for
/// an empty vault.
pub open spec fn usd_for_shares(shares_to_redeem: u64, shares_supply: u64, vault_tvl: u128) -> Option<u128> {
    if vault_tvl == 0 || shares_supply == 0 {
        Some(0)
    } else if shares_to_redeem * vault_tvl > u128::MAX {
        None
    } else {
        Some(((shares_to_redeem * vault_tvl) / (shares_supply as int)) as u128)
    }
}

/// Calculates the USD earned from redeeming `shares_to_redeem` shares.
pub fn usd_earned(shares_to_redeem: u64, shares_supply: u64, vault_tvl: u128) -> (r: Option<u128>)
    ensures
        r == usd_for_shares(shares_to_redeem, shares_supply, vault_tvl),
{
    if vault_tvl == 0 || shares_supply == 0 {
        Some(0)
    } else {
        // rounds down
        match (shares_to_redeem as u128).checked_mul(vault_tvl) {
            Some(prod) => Some(prod / (shares_supply as u128)),
            None => None,
        }
    }
}

} // verus!
