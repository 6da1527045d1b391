use vstd::arithmetic::div_mod::*;
use vstd::arithmetic::mul::*;
use vstd::prelude::*;

use crate::math::{abs_int, lemma_pow10_pos, pow10, rounded_div, shares_for_usd, token_amount, usd_amount, usd_for_shares, PRECISION};

verus! {

/// `a <= b * d` gives `a / d <= b`.
pub(crate) proof fn lemma_div_le_of_le_mul(a: int, b: int, d: int)
    requires
        0 <= a,
        0 <= b,
        0 < d,
        a <= b * d,
    ensures
        a / d <= b,
{
    lemma_div_is_ordered(a, b * d, d);
    lemma_div_by_multiple(b, d);
}

/// Rounding a quotient up gives at least the rounded-down quotient, and at
/// most one more.
proof fn lemma_round_up_bounds(n: int, d: int)
    requires
        0 <= n,
        0 < d,
    ensures
        n / d <= (n + d - 1) / d <= n / d + 1,
{
    lemma_div_is_ordered(n, n + d - 1, d);
    lemma_div_is_ordered(n + d - 1, n + d, d);
    lemma_div_plus_one(n, d);
}

/// The quotient of `n / d` times `d` does not exceed `n`.
proof fn lemma_div_mul_le(n: int, d: int)
    requires
        0 <= n,
        0 < d,
    ensures
        (n / d) * d <= n,
{
    lemma_fundamental_div_mod(n, d);
    lemma_mod_pos_bound(n, d);
    lemma_mul_is_commutative(d, n / d);
}

proof fn lemma_rounded_div_bounds(n: int, d: int)
    requires
        0 <= n,
        0 < d,
        rounded_div(n, d, true) is Some,
    ensures
        rounded_div(n, d, false) is Some,
        rounded_div(n, d, false).unwrap() <= rounded_div(n, d, true).unwrap()
            <= rounded_div(n, d, false).unwrap() + 1,
{
    lemma_round_up_bounds(n, d);
    lemma_div_is_ordered(n, n + d - 1, d);
    lemma_mul_increases(d, u128::MAX as int);
    lemma_mul_is_commutative(d, u128::MAX as int);
    lemma_div_le_of_le_mul(n + d - 1, u128::MAX as int, d);
    lemma_div_le_of_le_mul(n, u128::MAX as int, d);
}

/// A USD value rounded up is at least the value rounded down and at most one
/// unit more; whenever the rounded-up value is defined, so is the other.
pub proof fn law_usd_amount_rounding(
    token_amount: u64,
    token_decimal: u8,
    price: i64,
    expo: i32,
)
    ensures
        usd_amount(token_amount, token_decimal, price, expo, true) matches Some(up) ==> {
            &&& usd_amount(token_amount, token_decimal, price, expo, false) matches Some(down)
            &&& down <= up <= down + 1
        },
{
    if usd_amount(token_amount, token_decimal, price, expo, true) is Some {
        let numerator = token_amount * pow10((PRECISION - token_decimal) as nat) * abs_int(
            price as int,
        );
        let divisor = pow10((-expo) as nat);
        lemma_pow10_pos((-expo) as nat);
        lemma_mul_nonnegative(token_amount as int, pow10((PRECISION - token_decimal) as nat) as int);
        lemma_mul_nonnegative(
            token_amount * pow10((PRECISION - token_decimal) as nat),
            abs_int(price as int) as int,
        );
        lemma_rounded_div_bounds(numerator, divisor as int);
    }
}

/// A token amount rounded up is at least the amount rounded down; whenever the
/// rounded-up amount is defined, so is the other.
pub proof fn law_token_amount_rounding(
    scaled_usd_amount: u128,
    token_decimal: u8,
    price: i64,
    expo: i32,
)
    ensures
        token_amount(scaled_usd_amount, token_decimal, price, expo, true) matches Some(up) ==> {
            &&& token_amount(scaled_usd_amount, token_decimal, price, expo, false) matches Some(
                down,
            )
            &&& down <= up
        },
{
    if token_amount(scaled_usd_amount, token_decimal, price, expo, true) is Some {
        let multiplier = pow10((-expo) as nat);
        let temp = scaled_usd_amount * multiplier;
        let p = abs_int(price as int) as int;
        let divisor = pow10((PRECISION - token_decimal) as nat) as int;
        lemma_pow10_pos((PRECISION - token_decimal) as nat);
        lemma_mul_nonnegative(scaled_usd_amount as int, multiplier as int);
        lemma_rounded_div_bounds(temp, p);
        let r_up = rounded_div(temp, p, true).unwrap();
        let r_down = rounded_div(temp, p, false).unwrap();
        lemma_rounded_div_bounds(r_up as int, divisor);
        lemma_div_is_ordered(r_down as int, r_up as int, divisor);
    }
}

/// Rounding the minted shares up gives at least as many shares as rounding
/// down; whenever the rounded-up count is defined, so is the other.
pub proof fn law_shares_rounding(
    usd_value: u128,
    shares_supply: u64,
    shares_decimals: u8,
    vault_tvl: u128,
)
    ensures
        shares_for_usd(usd_value, shares_supply, shares_decimals, vault_tvl, true) matches Some(
            up,
        ) ==> {
            &&& shares_for_usd(usd_value, shares_supply, shares_decimals, vault_tvl, false) matches Some(down)
            &&& down <= up
        },
{
    if vault_tvl != 0 && shares_supply != 0 && shares_for_usd(
        usd_value,
        shares_supply,
        shares_decimals,
        vault_tvl,
        true,
    ) is Some {
        lemma_mul_nonnegative(usd_value as int, shares_supply as int);
        lemma_rounded_div_bounds(usd_value * shares_supply, vault_tvl as int);
    }
}

/// Redeeming the shares that a deposit just minted (rounded down), at the same
/// supply and TVL, pays out no more USD than was deposited.
pub proof fn law_redeem_after_deposit_no_gain(
    usd_value: u128,
    shares_supply: u64,
    shares_decimals: u8,
    vault_tvl: u128,
)
    ensures
        shares_for_usd(usd_value, shares_supply, shares_decimals, vault_tvl, false) matches Some(
            shares,
        ) ==> (usd_for_shares(shares, shares_supply, vault_tvl) matches Some(paid) ==> paid
            <= usd_value),
{
    if vault_tvl != 0 && shares_supply != 0 && shares_for_usd(
        usd_value,
        shares_supply,
        shares_decimals,
        vault_tvl,
        false,
    ) is Some {
        let prod = usd_value * shares_supply;
        let shares = shares_for_usd(usd_value, shares_supply, shares_decimals, vault_tvl, false).unwrap();
        lemma_mul_nonnegative(usd_value as int, shares_supply as int);
        // shares <= prod / tvl, so shares * tvl <= prod
        assert(shares <= prod / (vault_tvl as int));
        lemma_div_mul_le(prod, vault_tvl as int);
        lemma_mul_inequality(shares as int, prod / (vault_tvl as int), vault_tvl as int);
        assert(shares * vault_tvl <= usd_value * shares_supply);
        lemma_mul_nonnegative(shares as int, vault_tvl as int);
        lemma_div_le_of_le_mul(shares * vault_tvl, usd_value as int, shares_supply as int);
    }
}

/// `a >= b * d` gives `a / d >= b`.
proof fn lemma_div_ge_of_ge_mul(a: int, b: int, d: int)
    requires
        0 <= b,
        0 < d,
        a >= b * d,
    ensures
        a / d >= b,
{
    lemma_div_is_ordered(b * d, a, d);
    lemma_div_by_multiple(b, d);
}

/// The rounded-up quotient times the divisor reaches the dividend.
proof fn lemma_round_up_mul_ge(n: int, d: int)
    requires
        0 <= n,
        0 < d,
    ensures
        ((n + d - 1) / d) * d >= n,
{
    lemma_fundamental_div_mod(n + d - 1, d);
    lemma_mod_pos_bound(n + d - 1, d);
    lemma_mul_is_commutative(d, (n + d - 1) / d);
}

/// Rounded division grows with the dividend.
proof fn lemma_rounded_div_monotone(n1: int, n2: int, d: int, ceiling: bool)
    requires
        0 <= n1 <= n2 <= u128::MAX,
        0 < d,
        rounded_div(n1, d, ceiling) is Some,
        rounded_div(n2, d, ceiling) is Some,
    ensures
        rounded_div(n1, d, ceiling).unwrap() <= rounded_div(n2, d, ceiling).unwrap(),
{
    lemma_mul_increases(d, u128::MAX as int);
    lemma_mul_is_commutative(d, u128::MAX as int);
    if ceiling {
        lemma_div_is_ordered(n1 + d - 1, n2 + d - 1, d);
        lemma_div_le_of_le_mul(n2 + d - 1, u128::MAX as int, d);
    } else {
        lemma_div_is_ordered(n1, n2, d);
        lemma_div_le_of_le_mul(n2, u128::MAX as int, d);
    }
}

/// The USD value of a larger token amount is never smaller, at the same
/// price and rounding.
pub proof fn law_usd_amount_monotone(
    amount1: u64,
    amount2: u64,
    token_decimal: u8,
    price: i64,
    expo: i32,
    ceiling: bool,
)
    requires
        amount1 <= amount2,
    ensures
        usd_amount(amount1, token_decimal, price, expo, ceiling) matches Some(u1) ==> (usd_amount(
            amount2,
            token_decimal,
            price,
            expo,
            ceiling,
        ) matches Some(u2) ==> u1 <= u2),
{
    if usd_amount(amount1, token_decimal, price, expo, ceiling) is Some && usd_amount(
        amount2,
        token_decimal,
        price,
        expo,
        ceiling,
    ) is Some {
        let k = pow10((PRECISION - token_decimal) as nat) as int;
        let p = abs_int(price as int) as int;
        let d = pow10((-expo) as nat) as int;
        lemma_pow10_pos((-expo) as nat);
        lemma_mul_inequality(amount1 as int, amount2 as int, k);
        lemma_mul_nonnegative(amount1 as int, k);
        lemma_mul_inequality(amount1 * k, amount2 * k, p);
        lemma_mul_nonnegative(amount1 * k, p);
        lemma_rounded_div_monotone(amount1 * k * p, amount2 * k * p, d, ceiling);
    }
}

/// A larger deposit never mints fewer shares, at the same supply, value and
/// rounding.
pub proof fn law_shares_monotone(
    usd1: u128,
    usd2: u128,
    shares_supply: u64,
    shares_decimals: u8,
    vault_tvl: u128,
    round_up: bool,
)
    requires
        usd1 <= usd2,
    ensures
        shares_for_usd(usd1, shares_supply, shares_decimals, vault_tvl, round_up) matches Some(s1)
            ==> (shares_for_usd(usd2, shares_supply, shares_decimals, vault_tvl, round_up) matches Some(
            s2,
        ) ==> s1 <= s2),
{
    if vault_tvl != 0 && shares_supply != 0 && shares_for_usd(
        usd1,
        shares_supply,
        shares_decimals,
        vault_tvl,
        round_up,
    ) is Some && shares_for_usd(usd2, shares_supply, shares_decimals, vault_tvl, round_up) is Some {
        lemma_mul_inequality(usd1 as int, usd2 as int, shares_supply as int);
        lemma_mul_nonnegative(usd1 as int, shares_supply as int);
        lemma_rounded_div_monotone(
            usd1 * shares_supply,
            usd2 * shares_supply,
            vault_tvl as int,
            round_up,
        );
    }
}

/// Converting a token amount to USD and the USD back to tokens at the same
/// (nonzero) price: rounding down both times always succeeds and never yields
/// more tokens than were started with; rounding up both times, where it
/// succeeds, never yields fewer.
pub proof fn law_token_usd_round_trip(
    amount: u64,
    token_decimal: u8,
    price: i64,
    expo: i32,
)
    requires
        price != 0,
    ensures
        usd_amount(amount, token_decimal, price, expo, false) matches Some(usd) ==> (token_amount(
            usd,
            token_decimal,
            price,
            expo,
            false,
        ) matches Some(back) && back <= amount),
        usd_amount(amount, token_decimal, price, expo, true) matches Some(usd) ==> (token_amount(
            usd,
            token_decimal,
            price,
            expo,
            true,
        ) matches Some(back) ==> back >= amount),
{
    let k = pow10((PRECISION - token_decimal) as nat) as int;
    let p = abs_int(price as int) as int;
    let d = pow10((-expo) as nat) as int;
    let xk = amount * k;
    let numerator = xk * p;
    lemma_pow10_pos((PRECISION - token_decimal) as nat);
    lemma_pow10_pos((-expo) as nat);
    lemma_mul_nonnegative(amount as int, k);
    lemma_mul_nonnegative(xk, p);
    lemma_mul_is_commutative(xk, p);
    lemma_mul_is_commutative(amount as int, k);
    if usd_amount(amount, token_decimal, price, expo, false) is Some {
        let usd = usd_amount(amount, token_decimal, price, expo, false).unwrap();
        // usd * d <= numerator <= u128::MAX
        assert(usd == numerator / d);
        lemma_div_mul_le(numerator, d);
        assert(usd * d <= xk * p);
        lemma_mul_nonnegative(usd as int, d);
        // (usd * d) / p <= xk
        lemma_div_le_of_le_mul(usd * d, xk, p);
        let result = (usd * d) / p;
        lemma_div_pos_is_pos(usd * d, p);
        // result / k <= amount
        lemma_div_le_of_le_mul(result, amount as int, k);
        assert(rounded_div(usd * d, p, false) == Some(result as u128));
    }
    if usd_amount(amount, token_decimal, price, expo, true) is Some && token_amount(
        usd_amount(amount, token_decimal, price, expo, true).unwrap(),
        token_decimal,
        price,
        expo,
        true,
    ) is Some {
        let usd = usd_amount(amount, token_decimal, price, expo, true).unwrap();
        // usd * d >= numerator
        assert(usd == (numerator + d - 1) / d);
        lemma_round_up_mul_ge(numerator, d);
        lemma_mul_nonnegative(usd as int, d);
        let temp = usd * d;
        // the rounded-up quotient temp / p reaches xk
        lemma_div_ge_of_ge_mul(temp, xk, p);
        lemma_div_is_ordered(temp, temp + p - 1, p);
        let result = (temp + p - 1) / p;
        // result / k reaches amount, and so does its rounded-up value
        lemma_div_ge_of_ge_mul(result, amount as int, k);
        lemma_div_is_ordered(result, result + k - 1, k);
    }
}

/// `a / b` rounded up.
pub open spec fn ceil_div(a: int, b: int) -> int {
    (a + b - 1) / b
}

/// `v` capped at `u64::MAX`.
pub open spec fn cap_u64(v: int) -> int {
    if v > u64::MAX {
        u64::MAX as int
    } else {
        v
    }
}

proof fn lemma_quotient_le(n: int, d: int)
    requires
        0 <= n,
        1 <= d,
    ensures
        0 <= n / d <= n,
        0 <= ceil_div(n, d) <= n + d - 1,
{
    lemma_div_pos_is_pos(n, d);
    lemma_div_pos_is_pos(n + d - 1, d);
    lemma_div_is_ordered_by_denominator(n, 1, d);
    lemma_div_is_ordered_by_denominator(n + d - 1, 1, d);
    lemma_div_basics(n);
    lemma_div_basics(n + d - 1);
}

/// The USD value of `amount` base units of a token with `token_decimal`
/// decimals at the price `price * 10^expo`: with `n = amount *
/// 10^(9 - token_decimal) * |price|` and `d = 10^(-expo)`, rounding down gives
/// `n / d` and rounding up `ceil(n / d)`, whenever `n`, `d` (and, rounding up,
/// `n + d - 1`) fit a `u128`; any other result is refused. A nonnegative
/// exponent or more than 9 token decimals give no value.
pub proof fn law_usd_amount_value(amount: u64, token_decimal: u8, price: i64, expo: i32)
    ensures
        expo >= 0 || expo == i32::MIN || token_decimal > 9 ==> usd_amount(
            amount,
            token_decimal,
            price,
            expo,
            false,
        ) is None && usd_amount(amount, token_decimal, price, expo, true) is None,
        expo < 0 && expo != i32::MIN && token_decimal <= 9 ==> ({
            let n = amount * pow10((9 - token_decimal) as nat) * abs_int(price as int);
            let d = pow10((-expo) as nat) as int;
            &&& (n <= u128::MAX && d <= u128::MAX) ==> usd_amount(amount, token_decimal, price, expo, false) == Some((n / d) as u128)
            &&& (n <= u128::MAX && d <= u128::MAX && n + d - 1 <= u128::MAX) ==> usd_amount(amount, token_decimal, price, expo, true) == Some(ceil_div(n, d) as u128)
            &&& usd_amount(amount, token_decimal, price, expo, false) matches Some(v) ==> v == n / d
            &&& usd_amount(amount, token_decimal, price, expo, true) matches Some(v) ==> v == ceil_div(n, d)
        }),
{
    if expo < 0 && expo != i32::MIN && token_decimal <= 9 {
        let k = pow10((9 - token_decimal) as nat) as int;
        let n = amount * pow10((9 - token_decimal) as nat) * abs_int(price as int);
        let d = pow10((-expo) as nat) as int;
        lemma_pow10_pos((-expo) as nat);
        lemma_mul_nonnegative(amount as int, k);
        lemma_mul_nonnegative(amount * k, abs_int(price as int) as int);
        lemma_quotient_le(n, d);
    }
}

/// The token amount worth `usd` USD (9 decimals) for a token with
/// `token_decimal` decimals at the price `price * 10^expo`: with `t = usd *
/// 10^(-expo)`, `p = |price|` and `k = 10^(9 - token_decimal)`, rounding down
/// gives `(t / p) / k` and rounding up `ceil(ceil(t / p) / k)`, whenever `t`
/// (rounding up: `t + p - 1` and `ceil(t / p) + k - 1`) fits a `u128` and the
/// amount fits a `u64`; any other result is refused.
pub proof fn law_token_amount_value(usd: u128, token_decimal: u8, price: i64, expo: i32)
    ensures
        expo >= 0 || expo == i32::MIN || price == 0 || token_decimal > 9 ==> token_amount(
            usd,
            token_decimal,
            price,
            expo,
            false,
        ) is None && token_amount(usd, token_decimal, price, expo, true) is None,
        expo < 0 && expo != i32::MIN && price != 0 && token_decimal <= 9 ==> ({
            let m = pow10((-expo) as nat) as int;
            let t = usd * m;
            let p = abs_int(price as int) as int;
            let k = pow10((9 - token_decimal) as nat) as int;
            let down = (t / p) / k;
            let up = ceil_div(ceil_div(t, p), k);
            &&& (m <= u128::MAX && t <= u128::MAX && down <= u64::MAX) ==> token_amount(usd, token_decimal, price, expo, false) == Some(down as u64)
            &&& (m <= u128::MAX && t + p - 1 <= u128::MAX && ceil_div(t, p) + k - 1 <= u128::MAX && up <= u64::MAX)
                ==> token_amount(usd, token_decimal, price, expo, true) == Some(up as u64)
            &&& token_amount(usd, token_decimal, price, expo, false) matches Some(v) ==> v == down
            &&& token_amount(usd, token_decimal, price, expo, true) matches Some(v) ==> v == up
        }),
{
    if expo < 0 && expo != i32::MIN && price != 0 && token_decimal <= 9 {
        let m = pow10((-expo) as nat) as int;
        let t = usd * m;
        let p = abs_int(price as int) as int;
        let k = pow10((9 - token_decimal) as nat) as int;
        lemma_pow10_pos((-expo) as nat);
        lemma_pow10_pos((9 - token_decimal) as nat);
        lemma_mul_nonnegative(usd as int, m);
        lemma_quotient_le(t, p);
        lemma_quotient_le(t / p, k);
        lemma_quotient_le(ceil_div(t, p), k);
    }
}

/// The shares minted for a deposit of `usd`: in a vault with value and
/// shares, `usd * supply / tvl` rounded down (or up), capped at `u64::MAX`,
/// whenever `usd * supply` (rounding up: plus `tvl - 1`) fits a `u128`; any
/// other result is refused. An empty vault mints 100 whole shares,
/// `100 * 10^shares_decimals`, where that fits a `u64`.
pub proof fn law_shares_earned_value(usd: u128, supply: u64, shares_decimals: u8, tvl: u128)
    ensures
        supply == 0 || tvl == 0 ==> ({
            let initial = 100 * pow10(shares_decimals as nat);
            &&& shares_for_usd(usd, supply, shares_decimals, tvl, false) == shares_for_usd(usd, supply, shares_decimals, tvl, true)
            &&& initial <= u64::MAX ==> shares_for_usd(usd, supply, shares_decimals, tvl, true) == Some(initial as u64)
            &&& initial > u64::MAX ==> shares_for_usd(usd, supply, shares_decimals, tvl, true) is None
        }),
        supply > 0 && tvl > 0 ==> ({
            let prod = usd * supply;
            &&& prod <= u128::MAX ==> shares_for_usd(usd, supply, shares_decimals, tvl, false) == Some(cap_u64(prod / (tvl as int)) as u64)
            &&& prod + tvl - 1 <= u128::MAX ==> shares_for_usd(usd, supply, shares_decimals, tvl, true) == Some(cap_u64(ceil_div(prod, tvl as int)) as u64)
            &&& shares_for_usd(usd, supply, shares_decimals, tvl, false) matches Some(v) ==> v == cap_u64(prod / (tvl as int))
            &&& shares_for_usd(usd, supply, shares_decimals, tvl, true) matches Some(v) ==> v == cap_u64(ceil_div(prod, tvl as int))
        }),
{
    if supply > 0 && tvl > 0 {
        lemma_mul_nonnegative(usd as int, supply as int);
        lemma_quotient_le(usd * supply, tvl as int);
    }
}

/// The USD paid for redeeming `shares` of a vault with value and shares is
/// `shares * tvl / supply` rounded down, whenever `shares * tvl` fits a `u128`,
/// and refused otherwise; an empty vault pays nothing.
pub proof fn law_usd_earned_value(shares: u64, supply: u64, tvl: u128)
    ensures
        supply == 0 || tvl == 0 ==> usd_for_shares(shares, supply, tvl) == Some(0u128),
        supply > 0 && tvl > 0 && shares * tvl <= u128::MAX ==> usd_for_shares(shares, supply, tvl)
            == Some(((shares * tvl) / (supply as int)) as u128),
        supply > 0 && tvl > 0 && shares * tvl > u128::MAX ==> usd_for_shares(shares, supply, tvl) is None,
        usd_for_shares(shares, supply, tvl) matches Some(v) ==> v <= shares * tvl,
{
    lemma_mul_nonnegative(shares as int, tvl as int);
    if supply > 0 && tvl > 0 {
        lemma_quotient_le(shares * tvl, supply as int);
    }
}

} // verus!
