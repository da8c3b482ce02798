use vstd::prelude::*;

verus! {

/// The fixed-point unit: a real quantity `x` is held as the integer `x * ONE`.
pub const ONE: u64 = 1_000_000;

/// `a * b` in fixed point, rounded down and saturated at `u64::MAX`.
pub open spec fn mul_rate_spec(a: int, b: int) -> int {
    let p = a * b / (ONE as int);
    if p > u64::MAX { u64::MAX as int } else { p }
}

/// Multiplies two fixed-point rates.
pub fn mul_rate(a: u64, b: u64) -> (r: u64)
    ensures
        r == mul_rate_spec(a as int, b as int),
{
    proof {
        assert((a as int) * (b as int) <= u128::MAX) by (nonlinear_arith)
            requires a <= u64::MAX, b <= u64::MAX;
    }
    let p: u128 = (a as u128) * (b as u128);
    let q: u128 = p / (ONE as u128);
    if q > u64::MAX as u128 {
        u64::MAX
    } else {
        q as u64
    }
}

/// `a * b` in fixed point for a mass `a` and a rate `b`, rounded down and
/// saturated at `u128::MAX`.
pub open spec fn mul_mass_spec(a: int, b: int) -> int {
    let p = a * b / (ONE as int);
    if p > u128::MAX { u128::MAX as int } else { p }
}

proof fn lemma_split_product(a: int, b: int, q: int, r: int)
    requires
        a == q * (ONE as int) + r,
        0 <= r < ONE as int,
        0 <= q,
        0 <= b,
    ensures
        a * b / (ONE as int) == q * b + r * b / (ONE as int),
{
    let one = ONE as int;
    assert(a * b == (q * b) * one + r * b) by (nonlinear_arith)
        requires a == q * one + r;
    let y = r * b;
    let x = q * b;
    vstd::arithmetic::div_mod::lemma_fundamental_div_mod(y, one);
    assert(x * one + y == one * (x + y / one) + y % one) by (nonlinear_arith)
        requires y == one * (y / one) + y % one;
    vstd::arithmetic::div_mod::lemma_div_multiples_vanish_fancy(x + y / one, y % one, one);
}

/// Scales a fixed-point mass by a fixed-point rate.
pub fn mul_mass(a: u128, b: u64) -> (r: u128)
    ensures
        r == mul_mass_spec(a as int, b as int),
{
    let q: u128 = a / (ONE as u128);
    let rem: u128 = a % (ONE as u128);
    proof {
        vstd::arithmetic::div_mod::lemma_fundamental_div_mod(a as int, ONE as int);
        assert(a as int == (q as int) * (ONE as int) + rem as int);
        lemma_split_product(a as int, b as int, q as int, rem as int);
        assert((rem as int) * (b as int) <= (ONE as int) * (u64::MAX as int)) by (nonlinear_arith)
            requires rem < ONE, b <= u64::MAX;
    }
    let low: u128 = rem * (b as u128) / (ONE as u128);
    if b != 0 && q > u128::MAX / (b as u128) {
        proof {
            assert((q as int) * (b as int) > u128::MAX) by (nonlinear_arith)
                requires q > u128::MAX / (b as u128), b > 0;
        }
        return u128::MAX;
    }
    proof {
        if b != 0 {
            assert((q as int) * (b as int) <= u128::MAX) by (nonlinear_arith)
                requires q <= u128::MAX / (b as u128), b > 0;
        }
    }
    let high: u128 = q * (b as u128);
    if high > u128::MAX - low {
        u128::MAX
    } else {
        high + low
    }
}

} // verus!
