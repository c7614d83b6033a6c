//! Fixed-point scalar arithmetic.
//!
//! Every coordinate, color channel and parametric distance in the engine is an
//! `Fx`: a signed binary fixed-point number with `SCALE` as its unit, stored in
//! an `i128`. Products and quotients round toward zero, mirroring hardware
//! integer division, and every operation carries an exact contract over the
//! spec-level functions `fmul`, `fdiv` and `sqrt_floor`.

use vstd::arithmetic::div_mod::lemma_div_is_ordered;
use vstd::arithmetic::div_mod::lemma_div_is_ordered_by_denominator;
use vstd::arithmetic::div_mod::lemma_div_multiples_vanish;
use vstd::arithmetic::div_mod::lemma_div_nonincreasing;
use vstd::arithmetic::div_mod::lemma_div_pos_is_pos;
use vstd::arithmetic::mul::lemma_mul_inequality;
use vstd::arithmetic::mul::lemma_mul_upper_bound;
use vstd::math::abs;
use vstd::prelude::*;

verus! {

/// The fixed-point unit: the representation of 1.0 is `SCALE` (2^32).
pub const SCALE: i128 = 4294967296;

/// Largest argument `int_sqrt` accepts (2^126 - 1), so that the square of the
/// search bound 2^63 still fits in the unsigned word used by the search.
pub const SQRT_ARG_MAX: i128 = 0x3fff_ffff_ffff_ffff_ffff_ffff_ffff_ffff;

/// A fixed-point scalar: the real value represented is `v / SCALE`.
#[derive(Clone, Copy, PartialEq, Eq, Structural, Debug)]
pub struct Fx {
    pub v: i128,
}

/// Holds when `x` fits in the `i128` word (symmetric range, so that negation
/// is always defined).
pub open spec fn fits(x: int) -> bool {
    -0x7fff_ffff_ffff_ffff_ffff_ffff_ffff_ffff <= x
        <= 0x7fff_ffff_ffff_ffff_ffff_ffff_ffff_ffff
}

/// Truncated (round-toward-zero) integer division, the rounding of hardware
/// signed division; written over Euclidean `/` on non-negative operands.
pub open spec fn tdiv(x: int, d: int) -> int
    recommends
        d != 0,
{
    if x == 0 {
        0
    } else if x > 0 && d > 0 {
        x / d
    } else if x < 0 && d < 0 {
        (x * -1) / (d * -1)
    } else if x < 0 {
        ((x * -1) / d) * -1
    } else {
        (x / (d * -1)) * -1
    }
}

/// The fixed-point product: exact product, scaled back, rounded toward zero.
pub open spec fn fmul(a: int, b: int) -> int {
    tdiv(a * b, SCALE as int)
}

/// The fixed-point quotient: numerator raised by one scale, rounded toward zero.
pub open spec fn fdiv(a: int, b: int) -> int
    recommends
        b != 0,
{
    tdiv(a * (SCALE as int), b)
}

/// `r` is the integer square root of `n`, rounded down.
pub open spec fn is_sqrt(n: int, r: int) -> bool {
    0 <= r && r * r <= n && n < (r + 1) * (r + 1)
}

/// The integer square root of `n`, rounded down (meaningful for `n >= 0`).
pub open spec fn sqrt_floor(n: int) -> int {
    choose|r: int| #[trigger] is_sqrt(n, r)
}

/// Truncated division keeps the sign rule of its operands and its magnitude
/// is the Euclidean quotient of the magnitudes.
pub proof fn lemma_tdiv_abs(x: int, d: int)
    requires
        d != 0,
    ensures
        abs(tdiv(x, d)) == abs(x) as int / abs(d) as int,
        x >= 0 && d > 0 ==> tdiv(x, d) >= 0,
        x <= 0 && d > 0 ==> tdiv(x, d) <= 0,
{
    if x == 0 {
        assert(0int / abs(d) as int == 0) by {
            vstd::arithmetic::div_mod::lemma_div_of0(abs(d) as int);
        }
    } else if x > 0 && d > 0 {
        lemma_div_pos_is_pos(x, d);
    } else if x < 0 && d < 0 {
        lemma_div_pos_is_pos(x * -1, d * -1);
    } else if x < 0 {
        lemma_div_pos_is_pos(x * -1, d);
    } else {
        lemma_div_pos_is_pos(x, d * -1);
    }
}

/// The magnitude of a truncated quotient is bounded by any bound on the
/// numerator's magnitude, divided (and in particular never exceeds it).
pub proof fn lemma_tdiv_bound(x: int, d: int, m: int)
    requires
        d > 0,
        abs(x) <= m,
    ensures
        abs(tdiv(x, d)) <= m / d,
        m / d <= m,
        abs(tdiv(x, d)) <= m,
{
    lemma_tdiv_abs(x, d);
    lemma_div_is_ordered(abs(x) as int, m, d);
    lemma_div_nonincreasing(m, d);
}

/// Bound on a fixed-point product from bounds on its factors.
pub proof fn lemma_fmul_bound(a: int, b: int, ma: int, mb: int)
    requires
        abs(a) <= ma,
        abs(b) <= mb,
    ensures
        abs(a * b) <= ma * mb,
        abs(fmul(a, b)) <= ma * mb / (SCALE as int),
        abs(fmul(a, b)) <= ma * mb,
{
    lemma_mul_upper_bound(abs(a) as int, ma, abs(b) as int, mb);
    assert(abs(a * b) == abs(a) * abs(b)) by {
        vstd::arithmetic::mul::lemma_mul_cancels_negatives(a, b);
        vstd::arithmetic::mul::lemma_mul_unary_negation(a, b);
    }
    lemma_tdiv_bound(a * b, SCALE as int, ma * mb);
}

/// Bound on a fixed-point quotient from a bound on the numerator; with a
/// positive lower bound on the divisor the quotient bound divides by it.
pub proof fn lemma_fdiv_bound(a: int, b: int, m: int, k: int)
    requires
        abs(a) <= m,
        abs(b) >= k,
        k >= 1,
    ensures
        abs(fdiv(a, b)) <= m * (SCALE as int) / k,
        abs(fdiv(a, b)) <= m * (SCALE as int),
{
    lemma_mul_upper_bound(abs(a) as int, m, SCALE as int, SCALE as int);
    assert(abs(a * (SCALE as int)) == abs(a) * (SCALE as int)) by {
        vstd::arithmetic::mul::lemma_mul_unary_negation(a, SCALE as int);
    }
    let s = SCALE as int;
    let dd = abs(b) as int;
    if a == 0 {
        assert(fdiv(a, b) == 0);
        assert(0int <= m * s / k) by {
            lemma_mul_upper_bound(0, m, 0, s);
            lemma_div_pos_is_pos(m * s, k);
        }
        lemma_div_nonincreasing(m * s, k);
    } else {
        lemma_tdiv_abs(a * s, b);
        assert(abs(tdiv(a * s, b)) == abs(a * s) as int / dd);
        lemma_div_is_ordered(abs(a * s) as int, m * s, dd);
        lemma_div_is_ordered_by_denominator(m * s, k, dd);
        lemma_div_nonincreasing(m * s, k);
    }
}

/// A fixed-point quotient bound stated without division: if the scaled
/// numerator bound is covered by `k * c`, the quotient is bounded by `c`.
pub proof fn lemma_fdiv_ratio_bound(a: int, b: int, m: int, k: int, c: int)
    requires
        abs(a) <= m,
        abs(b) >= k,
        k >= 1,
        m * SCALE <= k * c,
        0 <= c,
    ensures
        abs(fdiv(a, b)) <= c,
{
    let s = SCALE as int;
    lemma_tdiv_abs(a * s, b);
    assert(abs(a * s) == abs(a) * s) by {
        vstd::arithmetic::mul::lemma_mul_unary_negation(a, s);
    }
    lemma_mul_inequality(abs(a) as int, m, s);
    lemma_div_is_ordered(abs(a * s) as int, m * s, abs(b) as int);
    lemma_div_is_ordered_by_denominator(m * s, k, abs(b) as int);
    lemma_div_is_ordered(m * s, k * c, k);
    assert((k * c) / k == c) by {
        lemma_div_multiples_vanish(c, k);
        vstd::arithmetic::mul::lemma_mul_is_commutative(k, c);
    }
}

/// The remainder a truncated division drops is smaller than the divisor in
/// magnitude.
pub proof fn lemma_tdiv_rem(x: int, d: int)
    requires
        d > 0,
    ensures
        -(d - 1) <= x - d * tdiv(x, d) <= d - 1,
{
    if x == 0 {
    } else if x > 0 {
        vstd::arithmetic::div_mod::lemma_fundamental_div_mod(x, d);
        assert(0 <= x % d < d);
        assert(x == d * (x / d) + x % d);
    } else {
        let y = x * -1;
        vstd::arithmetic::div_mod::lemma_fundamental_div_mod(y, d);
        assert(0 <= y % d < d);
        assert(y == d * (y / d) + y % d);
        assert(tdiv(x, d) == (y / d) * -1);
        assert(x == d * ((y / d) * -1) - y % d) by (nonlinear_arith)
            requires
                y == d * (y / d) + y % d,
                x == -y,
        ;
    }
}

/// For a non-negative numerator the dropped remainder is non-negative.
pub proof fn lemma_tdiv_rem_nonneg(x: int, d: int)
    requires
        x >= 0,
        d > 0,
    ensures
        0 <= x - d * tdiv(x, d) <= d - 1,
{
    if x == 0 {
    } else {
        vstd::arithmetic::div_mod::lemma_fundamental_div_mod(x, d);
        assert(0 <= x % d < d);
        assert(x == d * (x / d) + x % d);
    }
}

/// Dividing an exact multiple of a positive divisor recovers the factor.
pub proof fn lemma_tdiv_exact(k: int, d: int)
    requires
        d > 0,
    ensures
        tdiv(k * d, d) == k,
{
    if k > 0 {
        assert(k * d > 0) by {
            vstd::arithmetic::mul::lemma_mul_strictly_positive(k, d);
        }
        assert((k * d) / d == k) by {
            lemma_div_multiples_vanish(k, d);
            vstd::arithmetic::mul::lemma_mul_is_commutative(k, d);
        }
    } else if k < 0 {
        let m = k * -1;
        assert((k * d) * -1 == m * d) by (nonlinear_arith)
            requires
                m == k * -1,
        ;
        assert(k * d < 0) by {
            vstd::arithmetic::mul::lemma_mul_strictly_positive(m, d);
        }
        assert((m * d) / d == m) by {
            lemma_div_multiples_vanish(m, d);
            vstd::arithmetic::mul::lemma_mul_is_commutative(m, d);
        }
    }
}

/// Truncated division by a positive divisor is monotone in the numerator.
pub proof fn lemma_tdiv_mono(x: int, y: int, d: int)
    requires
        x <= y,
        d > 0,
    ensures
        tdiv(x, d) <= tdiv(y, d),
{
    lemma_tdiv_abs(x, d);
    lemma_tdiv_abs(y, d);
    if x >= 0 {
        lemma_div_is_ordered(x, y, d);
    } else if y < 0 {
        lemma_div_is_ordered(y * -1, x * -1, d);
    }
}

/// Negating the divisor negates a truncated quotient.
pub proof fn lemma_tdiv_neg(x: int, d: int)
    requires
        d != 0,
    ensures
        tdiv(x, -d) == -tdiv(x, d),
{
    assert((-d) * -1 == d);
    assert(d * -1 == -d);
}

/// An integer square root exists for every non-negative argument.
proof fn lemma_sqrt_exists(n: int)
    requires
        n >= 0,
    ensures
        exists|r: int| #[trigger] is_sqrt(n, r),
    decreases n,
{
    if n == 0 {
        assert(is_sqrt(0, 0));
    } else {
        lemma_sqrt_exists(n - 1);
        let r = choose|r: int| #[trigger] is_sqrt(n - 1, r);
        if (r + 1) * (r + 1) <= n {
            assert(is_sqrt(n, r + 1)) by {
                assert(n == (r + 1) * (r + 1));
                assert((r + 1) * (r + 1) < (r + 2) * (r + 2)) by (nonlinear_arith)
                    requires
                        r >= 0,
                ;
            }
        } else {
            assert(is_sqrt(n, r));
        }
    }
}

/// The integer square root is unique.
pub proof fn lemma_sqrt_unique(n: int, r1: int, r2: int)
    requires
        is_sqrt(n, r1),
        is_sqrt(n, r2),
    ensures
        r1 == r2,
{
    if r1 < r2 {
        assert((r1 + 1) * (r1 + 1) <= r2 * r2) by (nonlinear_arith)
            requires
                0 <= r1,
                0 <= r2,
                r1 < r2,
        ;
    }
    if r2 < r1 {
        assert((r2 + 1) * (r2 + 1) <= r1 * r1) by (nonlinear_arith)
            requires
                0 <= r1,
                0 <= r2,
                r2 < r1,
        ;
    }
}

/// `sqrt_floor` satisfies the square-root property on non-negative arguments.
pub proof fn lemma_sqrt_floor(n: int)
    requires
        n >= 0,
    ensures
        is_sqrt(n, sqrt_floor(n)),
{
    lemma_sqrt_exists(n);
}

/// Truncated division of an `i128` by a non-zero `i128`.
///
/// Relies on `i128::checked_div` of std, whose rounding is toward zero; the
/// excluded corner case (`i128::MIN / -1`) is ruled out by the symmetric
/// range bound on the numerator.
fn tdiv_i128(a: i128, b: i128) -> (r: i128)
    requires
        b != 0,
        a > i128::MIN,
    ensures
        r as int == tdiv(a as int, b as int),
{
    proof {
        lemma_tdiv_abs(a as int, b as int);
        if b as int > 0 {
            lemma_div_nonincreasing(abs(a as int) as int, b as int);
        } else {
            lemma_div_nonincreasing(abs(a as int) as int, (b as int) * -1);
        }
    }
    let q = a.checked_div(b);
    q.unwrap()
}

/// Integer square root of a non-negative `i128`, by binary search.
pub fn int_sqrt(n: i128) -> (r: i128)
    requires
        0 <= n <= SQRT_ARG_MAX,
    ensures
        is_sqrt(n as int, r as int),
{
    let nn: u128 = n as u128;
    let mut lo: u128 = 0;
    let mut hi: u128 = 0x8000_0000_0000_0000;
    proof {
        assert((0x8000_0000_0000_0000u128 * 0x8000_0000_0000_0000u128) as int > nn as int);
    }
    while hi - lo > 1
        invariant
            lo < hi,
            hi <= 0x8000_0000_0000_0000u128,
            lo * lo <= nn,
            nn < hi * hi,
            nn == n as int,
        decreases hi - lo,
    {
        let mid = lo + (hi - lo) / 2;
        proof {
            assert(lo < mid < hi);
            assert(mid * mid <= 0x8000_0000_0000_0000u128 * 0x8000_0000_0000_0000u128) by {
                lemma_mul_upper_bound(
                    mid as int,
                    0x8000_0000_0000_0000u128 as int,
                    mid as int,
                    0x8000_0000_0000_0000u128 as int,
                );
            }
        }
        if mid * mid <= nn {
            lo = mid;
        } else {
            hi = mid;
        }
    }
    proof {
        assert(hi == lo + 1);
    }
    lo as i128
}

impl Fx {
    /// The fixed-point representation of the integer `n`.
    pub fn from_int(n: i64) -> (r: Fx)
        ensures
            r.v == n * SCALE,
    {
        proof {
            lemma_mul_upper_bound(abs(n as int) as int, 0x8000_0000_0000_0000, SCALE as int, SCALE as int);
        }
        Fx { v: (n as i128) * SCALE }
    }

    /// The fixed-point representation of the rational `n / d`.
    pub fn from_ratio(n: i64, d: i64) -> (r: Fx)
        requires
            d != 0,
        ensures
            r.v == tdiv(n * SCALE, d as int),
    {
        proof {
            lemma_mul_upper_bound(abs(n as int) as int, 0x8000_0000_0000_0000, SCALE as int, SCALE as int);
        }
        let num: i128 = (n as i64 as i128) * SCALE;
        tdiv_helper(num, d as i128)
    }

    /// Sum.
    pub fn add(self, rhs: Fx) -> (r: Fx)
        requires
            fits(self.v + rhs.v),
        ensures
            r.v == self.v + rhs.v,
    {
        Fx { v: self.v + rhs.v }
    }

    /// Difference.
    pub fn sub(self, rhs: Fx) -> (r: Fx)
        requires
            fits(self.v - rhs.v),
        ensures
            r.v == self.v - rhs.v,
    {
        Fx { v: self.v - rhs.v }
    }

    /// Negation.
    pub fn neg(self) -> (r: Fx)
        requires
            fits(self.v as int),
        ensures
            r.v == -self.v,
    {
        Fx { v: -self.v }
    }

    /// Fixed-point product, rounded toward zero.
    pub fn mul(self, rhs: Fx) -> (r: Fx)
        requires
            fits(self.v * rhs.v),
        ensures
            r.v == fmul(self.v as int, rhs.v as int),
    {
        let p: i128 = self.v * rhs.v;
        tdiv_helper(p, SCALE)
    }

    /// Fixed-point quotient, rounded toward zero.
    pub fn div(self, rhs: Fx) -> (r: Fx)
        requires
            rhs.v != 0,
            fits(self.v * SCALE),
        ensures
            r.v == fdiv(self.v as int, rhs.v as int),
    {
        let p: i128 = self.v * SCALE;
        tdiv_helper(p, rhs.v)
    }

    /// Truncated division by a plain integer (not a fixed-point value).
    pub fn div_int(self, d: i64) -> (r: Fx)
        requires
            d != 0,
            self.v > i128::MIN,
        ensures
            r.v == tdiv(self.v as int, d as int),
    {
        tdiv_helper(self.v, d as i128)
    }

    /// Fixed-point square root, rounded down; meaningful for non-negative
    /// arguments within the square-root range.
    pub fn sqrt(self) -> (r: Fx)
        requires
            0 <= self.v,
            self.v * SCALE <= SQRT_ARG_MAX,
        ensures
            r.v == sqrt_floor(self.v * SCALE),
            is_sqrt(self.v * SCALE, r.v as int),
    {
        proof {
            lemma_mul_upper_bound(self.v as int, SQRT_ARG_MAX as int, SCALE as int, SCALE as int);
        }
        let arg: i128 = self.v * SCALE;
        let r = int_sqrt(arg);
        proof {
            lemma_sqrt_floor(arg as int);
            lemma_sqrt_unique(arg as int, r as int, sqrt_floor(arg as int));
        }
        Fx { v: r }
    }
}

/// Truncated division wrapped for reuse by the `Fx` operations.
fn tdiv_helper(a: i128, b: i128) -> (r: Fx)
    requires
        b != 0,
        a > i128::MIN,
    ensures
        r.v == tdiv(a as int, b as int),
{
    Fx { v: tdiv_i128(a, b) }
}

} // verus!
