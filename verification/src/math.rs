//! Fixed-point conventions of the pool and the arithmetic it is built on.

use vstd::prelude::*;

verus! {

/// One unit of a health factor (18 decimals).
pub const WAD: u128 = 1_000_000_000_000_000_000;

/// One whole in basis points.
pub const BPS: u128 = 10_000;

/// Health factor under which a single leg may repay the whole debt of an asset.
pub const PARTIAL_LIQUIDATION_THRESHOLD: u128 = 500_000_000_000_000_000;

/// Share of an asset's debt that one leg may repay above that threshold (basis points).
pub const PARTIAL_CLOSE_FACTOR: u128 = 5_000;

/// Share of an asset's debt that one leg may repay below that threshold (basis points).
pub const FULL_CLOSE_FACTOR: u128 = 10_000;

/// Largest number of token decimals whose scale fits in a `u128`.
pub const MAX_DECIMALS: u32 = 38;

/// Ten to the power `n`.
pub open spec fn pow10(n: nat) -> nat
    decreases n,
{
    if n == 0 {
        1
    } else {
        10 * pow10((n - 1) as nat)
    }
}

/// The base-currency value of `amount` tokens with `decimals` decimals at `price`.
pub open spec fn value_of(amount: nat, price: nat, decimals: nat) -> nat {
    amount * price / pow10(decimals)
}

/// `v` scaled by a factor given in basis points, rounded down.
pub open spec fn bps_of(v: nat, factor: nat) -> nat {
    v * factor / (BPS as nat)
}

/// `a * b / c` rounded up.
pub open spec fn ceil_mul_div(a: nat, b: nat, c: nat) -> nat {
    ((a * b + c - 1) as nat) / c
}

/// Powers of ten grow with their exponent.
pub proof fn lemma_pow10_monotone(m: nat, n: nat)
    requires
        m <= n,
    ensures
        1 <= pow10(m) <= pow10(n),
    decreases n,
{
    if n > m {
        lemma_pow10_monotone(m, (n - 1) as nat);
    } else if m > 0 {
        lemma_pow10_monotone((m - 1) as nat, (m - 1) as nat);
    }
}

/// The largest scale the pool accepts fits in a `u128`.
pub proof fn lemma_pow10_max_fits()
    ensures
        pow10(MAX_DECIMALS as nat) <= u128::MAX,
{
    reveal_with_fuel(pow10, 39);
    assert(pow10(38) == 100_000_000_000_000_000_000_000_000_000_000_000_000nat);
}

/// Computes `10^n`.
pub fn pow10_u128(n: u32) -> (p: u128)
    requires
        n <= MAX_DECIMALS,
    ensures
        p == pow10(n as nat),
{
    let mut p: u128 = 1;
    let mut i: u32 = 0;
    while i < n
        invariant
            i <= n <= MAX_DECIMALS,
            p == pow10(i as nat),
        decreases n - i,
    {
        proof {
            lemma_pow10_monotone((i + 1) as nat, MAX_DECIMALS as nat);
            lemma_pow10_max_fits();
        }
        p = p * 10;
        i = i + 1;
    }
    p
}

/// Values `amount` tokens at `price`; `None` when `amount * price` exceeds a `u128`.
pub fn value_in_base(amount: u128, price: u128, decimals: u32) -> (v: Option<u128>)
    requires
        decimals <= MAX_DECIMALS,
    ensures
        v is Some <==> amount * price <= u128::MAX,
        v matches Some(x) ==> x == value_of(amount as nat, price as nat, decimals as nat),
{
    match amount.checked_mul(price) {
        Some(prod) => {
            let scale = pow10_u128(decimals);
            proof {
                lemma_pow10_monotone(0, decimals as nat);
            }
            Some(prod / scale)
        },
        None => None,
    }
}

/// Scales `v` by `factor` basis points, rounding down; `None` when `v * factor` exceeds a `u128`.
pub fn apply_bps(v: u128, factor: u128) -> (r: Option<u128>)
    ensures
        r is Some <==> v * factor <= u128::MAX,
        r matches Some(x) ==> x == bps_of(v as nat, factor as nat),
{
    match v.checked_mul(factor) {
        Some(prod) => Some(prod / BPS),
        None => None,
    }
}

/// Computes `a * b / c` rounded up; `None` when `a * b + c - 1` exceeds a `u128`.
pub fn ceil_mul_div_u128(a: u128, b: u128, c: u128) -> (r: Option<u128>)
    requires
        c > 0,
    ensures
        r is Some <==> a * b + c - 1 <= u128::MAX,
        r matches Some(x) ==> x == ceil_mul_div(a as nat, b as nat, c as nat),
{
    match a.checked_mul(b) {
        Some(prod) => match prod.checked_add(c - 1) {
            Some(num) => Some(num / c),
            None => None,
        },
        None => {
            assert(a * b + c - 1 > u128::MAX);
            None
        },
    }
}

/// A factor of at most one whole never enlarges a value.
pub proof fn lemma_bps_le(v: nat, factor: nat)
    requires
        factor <= BPS,
    ensures
        bps_of(v, factor) <= v,
{
    assert(v * factor <= v * (BPS as nat)) by (nonlinear_arith)
        requires
            factor <= BPS,
    ;
    assert(v * (BPS as nat) / (BPS as nat) == v) by (nonlinear_arith);
    assert(v * factor / (BPS as nat) <= v * (BPS as nat) / (BPS as nat)) by (nonlinear_arith)
        requires
            v * factor <= v * (BPS as nat),
    ;
}

/// Scaling by basis points is monotone in the factor.
pub proof fn lemma_bps_monotone_factor(v: nat, f1: nat, f2: nat)
    requires
        f1 <= f2,
    ensures
        bps_of(v, f1) <= bps_of(v, f2),
        v * f1 <= v * f2,
{
    assert(v * f1 <= v * f2) by (nonlinear_arith)
        requires
            f1 <= f2,
    ;
    assert(v * f1 / (BPS as nat) <= v * f2 / (BPS as nat)) by (nonlinear_arith)
        requires
            v * f1 <= v * f2,
    ;
}

/// Scaling by basis points is monotone in the value.
pub proof fn lemma_bps_monotone_value(v1: nat, v2: nat, f: nat)
    requires
        v1 <= v2,
    ensures
        bps_of(v1, f) <= bps_of(v2, f),
        v1 * f <= v2 * f,
{
    assert(v1 * f <= v2 * f) by (nonlinear_arith)
        requires
            v1 <= v2,
    ;
    assert(v1 * f / (BPS as nat) <= v2 * f / (BPS as nat)) by (nonlinear_arith)
        requires
            v1 * f <= v2 * f,
    ;
}

/// Valuing tokens is monotone in the price.
pub proof fn lemma_value_monotone_price(amount: nat, p1: nat, p2: nat, decimals: nat)
    requires
        p1 <= p2,
    ensures
        value_of(amount, p1, decimals) <= value_of(amount, p2, decimals),
        amount * p1 <= amount * p2,
{
    lemma_pow10_monotone(0, decimals);
    let s = pow10(decimals);
    assert(amount * p1 <= amount * p2) by (nonlinear_arith)
        requires
            p1 <= p2,
    ;
    assert(amount * p1 / s <= amount * p2 / s) by (nonlinear_arith)
        requires
            amount * p1 <= amount * p2,
            s >= 1,
    ;
}

/// The rounded-up quotient of a scaled-down request never exceeds the request.
pub proof fn lemma_ceil_mul_div_le(a: nat, b: nat, c: nat)
    requires
        b < c,
    ensures
        ceil_mul_div(a, b, c) <= a,
{
    assert(a * b + c - 1 < a * c + c) by (nonlinear_arith)
        requires
            b < c,
    ;
    assert(((a * b + c - 1) as nat) / c <= a) by (nonlinear_arith)
        requires
            a * b + c - 1 < a * c + c,
            c > 0,
    ;
}

/// `pow10` is one at zero and grows tenfold per step.
pub proof fn law_pow10_steps(n: nat)
    ensures
        pow10(0) == 1,
        pow10(n + 1) == 10 * pow10(n),
{
}

/// A value is the quotient of `amount * price` by the token scale, rounded down.
pub proof fn law_value_of_rounds_down(amount: nat, price: nat, decimals: nat)
    ensures
        value_of(amount, price, decimals) * pow10(decimals) <= amount * price,
        amount * price < (value_of(amount, price, decimals) + 1) * pow10(decimals),
{
    lemma_pow10_monotone(0, decimals);
    let s = pow10(decimals);
    let q = amount * price / s;
    assert(q * s <= amount * price && amount * price < (q + 1) * s) by (nonlinear_arith)
        requires
            s >= 1,
            q == amount * price / s,
    ;
}

/// A factor in basis points scales down with rounding toward zero.
pub proof fn law_bps_of_rounds_down(v: nat, factor: nat)
    ensures
        bps_of(v, factor) * 10_000 <= v * factor,
        v * factor < (bps_of(v, factor) + 1) * 10_000,
{
    let q = v * factor / 10_000;
    assert(q * 10_000 <= v * factor && v * factor < (q + 1) * 10_000) by (nonlinear_arith)
        requires
            q == v * factor / 10_000,
    ;
}

/// The rounded-up quotient is the least `q` with `q * c >= a * b`.
pub proof fn law_ceil_mul_div_rounds_up(a: nat, b: nat, c: nat)
    requires
        c > 0,
    ensures
        ceil_mul_div(a, b, c) * c >= a * b,
        a * b > (ceil_mul_div(a, b, c) - 1) * c,
{
    let q = ((a * b + c - 1) as nat) / c;
    assert(q * c >= a * b && a * b > (q - 1) * c) by (nonlinear_arith)
        requires
            c > 0,
            q == ((a * b + c - 1) as nat) / c,
    ;
}

} // verus!
