//! Fixed-point arithmetic in millionths.

use vstd::prelude::*;
use vstd::arithmetic::div_mod::lemma_fundamental_div_mod;
use vstd::arithmetic::div_mod::lemma_fundamental_div_mod_converse;

verus! {

/// The number of units that make up one whole.
pub const MICRO: i64 = 1_000_000;

/// `v` limited to the closed interval from `lo` to `hi`.
pub open spec fn clamp_spec(v: int, lo: int, hi: int) -> int {
    if v < lo {
        lo
    } else if v > hi {
        hi
    } else {
        v
    }
}

/// `v` limited to the closed interval from `lo` to `hi`.
pub fn clamp(v: i128, lo: i128, hi: i128) -> (r: i128)
    requires
        lo <= hi,
    ensures
        r == clamp_spec(v as int, lo as int, hi as int),
{
    if v < lo {
        lo
    } else if v > hi {
        hi
    } else {
        v
    }
}

/// The quotient of `a` by a positive `b`, rounded towards negative infinity.
pub fn floor_div(a: i128, b: i128) -> (q: i128)
    requires
        b > 0,
    ensures
        q == a as int / b as int,
{
    if a >= 0 {
        a / b
    } else {
        let t: i128 = a / b;
        let r: i128 = a % b;
        proof {
            let n: int = -(a as int);
            let d: int = b as int;
            lemma_fundamental_div_mod(n, d);
            assert(d * (n / d) == (n / d) * d) by (nonlinear_arith);
            if n % d == 0 {
                assert(a as int == (-(n / d)) * d + 0) by (nonlinear_arith)
                    requires
                        n == (n / d) * d + n % d,
                        n % d == 0,
                        a as int == -n,
                ;
                lemma_fundamental_div_mod_converse(a as int, d, -(n / d), 0);
            } else {
                assert(a as int == (-(n / d) - 1) * d + (d - n % d)) by (nonlinear_arith)
                    requires
                        n == (n / d) * d + n % d,
                        a as int == -n,
                ;
                lemma_fundamental_div_mod_converse(a as int, d, -(n / d) - 1, d - n % d);
            }
            // The quotient is not below the dividend, so one less still fits.
            let x: int = a as int;
            lemma_fundamental_div_mod(x, d);
            assert(x / d >= x) by (nonlinear_arith)
                requires
                    x == d * (x / d) + x % d,
                    0 <= x % d < d,
                    x < 0,
                    d > 0,
            ;
        }
        if r != 0 {
            t - 1
        } else {
            t
        }
    }
}

} // verus!
