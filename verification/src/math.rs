use vstd::prelude::*;
use vstd::arithmetic::div_mod::lemma_fundamental_div_mod;
use vstd::arithmetic::div_mod::lemma_mod_division_less_than_divisor;

verus! {

/// `r` is the square root of `n`, rounded down.
pub open spec fn is_floor_sqrt(n: int, r: int) -> bool {
    &&& 0 <= r
    &&& r * r <= n
    &&& n < (r + 1) * (r + 1)
}

/// The square root of `n`, rounded down; meaningful for every `n >= 0`
/// because exactly one value satisfies [`is_floor_sqrt`] there.
pub open spec fn spec_floor_sqrt(n: int) -> int {
    choose|r: int| is_floor_sqrt(n, r)
}

/// At most one value is a floor square root, so any witness pins
/// [`spec_floor_sqrt`] down.
pub proof fn lemma_floor_sqrt_unique(n: int, r: int)
    requires
        is_floor_sqrt(n, r),
    ensures
        spec_floor_sqrt(n) == r,
{
    assert(is_floor_sqrt(n, spec_floor_sqrt(n)));
    let c = spec_floor_sqrt(n);
    if c < r {
        assert((c + 1) * (c + 1) <= r * r) by (nonlinear_arith)
            requires
                0 <= c + 1,
                c + 1 <= r,
        ;
    }
    if r < c {
        assert((r + 1) * (r + 1) <= c * c) by (nonlinear_arith)
            requires
                0 <= r + 1,
                r + 1 <= c,
        ;
    }
}

/// Rounding down after dividing never overshoots: `(x / d) * d <= x`.
pub proof fn lemma_div_mul_le(x: int, d: int)
    requires
        0 < d,
        0 <= x,
    ensures
        (x / d) * d <= x,
        0 <= x / d,
{
    lemma_fundamental_div_mod(x, d);
    lemma_mod_division_less_than_divisor(x, d);
    assert((x / d) * d <= x) by (nonlinear_arith)
        requires
            x == d * (x / d) + x % d,
            0 <= x % d,
    ;
    assert(0 <= x / d) by (nonlinear_arith)
        requires
            x == d * (x / d) + x % d,
            x % d < d,
            0 < d,
            0 <= x,
    ;
}

/// A quotient is below `c` exactly when the dividend is below `c * d`.
pub proof fn lemma_div_lt_when_lt_mul(x: int, d: int, c: int)
    requires
        0 < d,
        0 <= x,
        x < c * d,
    ensures
        x / d < c,
{
    lemma_fundamental_div_mod(x, d);
    lemma_mod_division_less_than_divisor(x, d);
    let q = x / d;
    assert(q < c) by (nonlinear_arith)
        requires
            x == d * q + x % d,
            0 <= x % d,
            x < c * d,
            0 < d,
    ;
}

/// A quotient stays at or below `c` when the dividend is at most `c * d`.
pub proof fn lemma_div_le_when_le_mul(x: int, d: int, c: int)
    requires
        0 < d,
        0 <= x,
        x <= c * d,
    ensures
        x / d <= c,
{
    lemma_fundamental_div_mod(x, d);
    lemma_mod_division_less_than_divisor(x, d);
    let q = x / d;
    assert(q <= c) by (nonlinear_arith)
        requires
            x == d * q + x % d,
            0 <= x % d,
            x <= c * d,
            0 < d,
    ;
}

/// Dividing an exact multiple recovers the factor: `(c * d) / d == c`.
pub proof fn lemma_mul_div_exact(c: int, d: int)
    requires
        0 < d,
        0 <= c,
    ensures
        (c * d) / d == c,
{
    assert(0 <= c * d) by (nonlinear_arith)
        requires
            0 <= c,
            0 < d,
    ;
    lemma_div_le_when_le_mul(c * d, d, c);
    assert(c * d < (c + 1) * d) by (nonlinear_arith)
        requires
            0 < d,
    ;
    lemma_div_lt_when_lt_mul(c * d, d, c + 1);
    assert((c * d) / d >= c) by {
        if (c * d) / d < c {
            lemma_fundamental_div_mod(c * d, d);
            lemma_mod_division_less_than_divisor(c * d, d);
            let q = (c * d) / d;
            assert(false) by (nonlinear_arith)
                requires
                    c * d == d * q + (c * d) % d,
                    (c * d) % d < d,
                    q < c,
                    0 < d,
            ;
        }
    }
}

/// Multiplies two 64-bit amounts and divides by a nonzero third, rounding
/// down; the 128-bit intermediate makes the computation exact.
pub fn mul_div_u64(a: u64, b: u64, d: u64) -> (q: u128)
    requires
        d > 0,
    ensures
        q == a as int * b as int / d as int,
{
    proof {
        assert(a as int * b as int <= 0xffffffffffffffff * 0xffffffffffffffff) by (nonlinear_arith)
            requires
                0 <= a <= 0xffffffffffffffff,
                0 <= b <= 0xffffffffffffffff,
        ;
    }
    (a as u128) * (b as u128) / (d as u128)
}

/// The square root of any 128-bit value, rounded down. Found by binary
/// search on the invariant that the root lies in `lo ..= hi - 1`.
pub fn isqrt_u128(n: u128) -> (r: u64)
    ensures
        r as int == spec_floor_sqrt(n as int),
        is_floor_sqrt(n as int, r as int),
{
    let mut lo: u128 = 0;
    let mut hi: u128 = 0x10000000000000000;
    while lo + 1 < hi
        invariant
            lo < hi,
            hi <= 0x10000000000000000,
            lo * lo <= n,
            n < hi * hi,
        decreases hi - lo,
    {
        let mid: u128 = lo + (hi - lo) / 2;
        proof {
            assert(mid * mid <= 0xffffffffffffffff * 0xffffffffffffffff) by (nonlinear_arith)
                requires
                    0 <= mid,
                    mid <= 0xffffffffffffffff,
            ;
        }
        if mid * mid <= n {
            lo = mid;
        } else {
            hi = mid;
        }
    }
    proof {
        lemma_floor_sqrt_unique(n as int, lo as int);
    }
    lo as u64
}

} // verus!
