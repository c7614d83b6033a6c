//! Three-component fixed-point vectors.
//!
//! `Vec3` is the engine's value type for points, directions and colors. Its
//! mathematical model is `Vec3m`, a triple of raw fixed-point integers; every
//! executable operation is specified exactly against the spec-level operations
//! on `Vec3m`.

use crate::fixed::fdiv;
use crate::fixed::fmul;
use crate::fixed::is_sqrt;
use crate::fixed::lemma_fmul_bound;
use crate::fixed::lemma_sqrt_floor;
use crate::fixed::lemma_tdiv_abs;
use crate::fixed::sqrt_floor;
use crate::fixed::Fx;
use crate::fixed::SCALE;
use crate::fixed::SQRT_ARG_MAX;
use vstd::arithmetic::div_mod::lemma_div_is_ordered;
use vstd::arithmetic::div_mod::lemma_div_multiples_vanish;
use vstd::arithmetic::div_mod::lemma_fundamental_div_mod;
use vstd::math::abs;
use vstd::prelude::*;

verus! {

/// Largest component magnitude accepted by the general vector operations;
/// keeps every intermediate product inside the `i128` word.
pub const VEC_OP_MAX: i128 = 0x1000_0000_0000_0000;

/// Largest component magnitude accepted by `reflect`, whose intermediate
/// terms stack three products.
pub const REFLECT_MAX: i128 = 0x100_0000_0000;

/// Spec-level model of a vector: the three raw fixed-point components.
pub struct Vec3m {
    pub x: int,
    pub y: int,
    pub z: int,
}

/// A vector of three fixed-point scalars.
#[derive(Clone, Copy, PartialEq, Eq, Structural, Debug)]
pub struct Vec3 {
    pub x: Fx,
    pub y: Fx,
    pub z: Fx,
}

impl View for Vec3 {
    type V = Vec3m;

    open spec fn view(&self) -> Vec3m {
        Vec3m { x: self.x.v as int, y: self.y.v as int, z: self.z.v as int }
    }
}

/// All three components have magnitude at most `m`.
pub open spec fn in_range(a: Vec3m, m: int) -> bool {
    abs(a.x) <= m && abs(a.y) <= m && abs(a.z) <= m
}

/// Componentwise sum (exact).
pub open spec fn vm_add(a: Vec3m, b: Vec3m) -> Vec3m {
    Vec3m { x: a.x + b.x, y: a.y + b.y, z: a.z + b.z }
}

/// Componentwise difference (exact).
pub open spec fn vm_sub(a: Vec3m, b: Vec3m) -> Vec3m {
    Vec3m { x: a.x - b.x, y: a.y - b.y, z: a.z - b.z }
}

/// Componentwise negation (exact).
pub open spec fn vm_neg(a: Vec3m) -> Vec3m {
    Vec3m { x: -a.x, y: -a.y, z: -a.z }
}

/// Scale by a fixed-point scalar (each component rounded toward zero).
pub open spec fn vm_scale(a: Vec3m, s: int) -> Vec3m {
    Vec3m { x: fmul(a.x, s), y: fmul(a.y, s), z: fmul(a.z, s) }
}

/// Componentwise fixed-point product.
pub open spec fn vm_mul(a: Vec3m, b: Vec3m) -> Vec3m {
    Vec3m { x: fmul(a.x, b.x), y: fmul(a.y, b.y), z: fmul(a.z, b.z) }
}

/// Componentwise fixed-point quotient.
pub open spec fn vm_div(a: Vec3m, b: Vec3m) -> Vec3m
    recommends
        b.x != 0,
        b.y != 0,
        b.z != 0,
{
    Vec3m { x: fdiv(a.x, b.x), y: fdiv(a.y, b.y), z: fdiv(a.z, b.z) }
}

/// Divide by a fixed-point scalar (each component rounded toward zero).
pub open spec fn vm_div_s(a: Vec3m, s: int) -> Vec3m
    recommends
        s != 0,
{
    Vec3m { x: fdiv(a.x, s), y: fdiv(a.y, s), z: fdiv(a.z, s) }
}

/// Fixed-point dot product.
pub open spec fn vm_dot(a: Vec3m, b: Vec3m) -> int {
    fmul(a.x, b.x) + fmul(a.y, b.y) + fmul(a.z, b.z)
}

/// Fixed-point cross product, with the middle component written as its
/// negated minor.
pub open spec fn vm_cross(a: Vec3m, b: Vec3m) -> Vec3m {
    Vec3m {
        x: fmul(a.y, b.z) - fmul(a.z, b.y),
        y: -(fmul(a.x, b.z) - fmul(a.z, b.x)),
        z: fmul(a.x, b.y) - fmul(a.y, b.x),
    }
}

/// Fixed-point squared length.
pub open spec fn vm_sqlen(a: Vec3m) -> int {
    vm_dot(a, a)
}

/// Fixed-point length: square root of the squared length, raised by one
/// scale before the root so the result is again a fixed-point scalar.
pub open spec fn vm_len(a: Vec3m) -> int {
    sqrt_floor(vm_sqlen(a) * SCALE)
}

/// The unit vector: each component divided by the length.
pub open spec fn vm_normalize(a: Vec3m) -> Vec3m {
    vm_div_s(a, vm_len(a))
}

/// Reflection of `v` about `n`: `v - n*2*dot(v, n)`.
pub open spec fn vm_reflect(v: Vec3m, n: Vec3m) -> Vec3m {
    vm_sub(v, vm_scale(vm_scale(n, 2 * SCALE), vm_dot(v, n)))
}

/// A square is non-negative, so each dot-product term of a vector with
/// itself is non-negative.
pub proof fn lemma_sq_term_nonneg(x: int)
    ensures
        x * x >= 0,
        fmul(x, x) >= 0,
        fmul(x, x) == (x * x) / (SCALE as int),
{
    assert(x * x >= 0) by (nonlinear_arith);
    lemma_tdiv_abs(x * x, SCALE as int);
}

/// The squared length is non-negative.
pub proof fn lemma_sqlen_nonneg(a: Vec3m)
    ensures
        vm_sqlen(a) >= 0,
        fmul(a.x, a.x) <= vm_sqlen(a),
        fmul(a.y, a.y) <= vm_sqlen(a),
        fmul(a.z, a.z) <= vm_sqlen(a),
{
    lemma_sq_term_nonneg(a.x);
    lemma_sq_term_nonneg(a.y);
    lemma_sq_term_nonneg(a.z);
}

/// Bound on the squared length from a bound on the components.
pub proof fn lemma_sqlen_bound(a: Vec3m, m: int)
    requires
        in_range(a, m),
        0 <= m,
    ensures
        0 <= vm_sqlen(a) <= 3 * (m * m / (SCALE as int)),
{
    lemma_sqlen_nonneg(a);
    lemma_fmul_bound(a.x, a.x, m, m);
    lemma_fmul_bound(a.y, a.y, m, m);
    lemma_fmul_bound(a.z, a.z, m, m);
}

/// Bound on the dot product from bounds on the operands.
pub proof fn lemma_dot_bound(a: Vec3m, b: Vec3m, ma: int, mb: int)
    requires
        in_range(a, ma),
        in_range(b, mb),
    ensures
        abs(vm_dot(a, b)) <= 3 * (ma * mb / (SCALE as int)),
{
    lemma_fmul_bound(a.x, b.x, ma, mb);
    lemma_fmul_bound(a.y, b.y, ma, mb);
    lemma_fmul_bound(a.z, b.z, ma, mb);
}

/// Vector addition is commutative.
pub proof fn lemma_add_comm(a: Vec3m, b: Vec3m)
    ensures
        vm_add(a, b) == vm_add(b, a),
{
}

/// Vector addition is associative.
pub proof fn lemma_add_assoc(a: Vec3m, b: Vec3m, c: Vec3m)
    ensures
        vm_add(vm_add(a, b), c) == vm_add(a, vm_add(b, c)),
{
}

/// The dot product is symmetric.
pub proof fn lemma_dot_comm(a: Vec3m, b: Vec3m)
    ensures
        vm_dot(a, b) == vm_dot(b, a),
{
    assert(a.x * b.x == b.x * a.x) by (nonlinear_arith);
    assert(a.y * b.y == b.y * a.y) by (nonlinear_arith);
    assert(a.z * b.z == b.z * a.z) by (nonlinear_arith);
}

/// The cross product is antisymmetric, exactly, including the rounding of
/// each fixed-point product.
pub proof fn lemma_cross_antisym(a: Vec3m, b: Vec3m)
    ensures
        vm_cross(a, b) == vm_neg(vm_cross(b, a)),
{
    assert(a.y * b.z == b.z * a.y) by (nonlinear_arith);
    assert(a.z * b.y == b.y * a.z) by (nonlinear_arith);
    assert(a.x * b.z == b.z * a.x) by (nonlinear_arith);
    assert(a.z * b.x == b.x * a.z) by (nonlinear_arith);
    assert(a.x * b.y == b.y * a.x) by (nonlinear_arith);
    assert(a.y * b.x == b.x * a.y) by (nonlinear_arith);
}

/// Doubling through the fixed-point product is exact.
pub proof fn lemma_fmul_two(a: int)
    ensures
        fmul(a, 2 * SCALE) == 2 * a,
{
    assert(a * (2 * SCALE) == (2 * a) * (SCALE as int)) by (nonlinear_arith);
    crate::fixed::lemma_tdiv_exact(2 * a, SCALE as int);
}

/// The reflection law, up to rounding: about a normal whose fixed-point
/// squared length is exactly the unit, reflection reverses the component
/// along the normal to within one hundred raw units (about 2.3e-8 of the
/// unit, far inside a 1e-5 tolerance).
pub proof fn lemma_reflect_unit_normal(v: Vec3m, n: Vec3m)
    requires
        in_range(v, 2 * SCALE),
        in_range(n, 2 * SCALE),
        vm_dot(n, n) == SCALE,
    ensures
        abs(vm_dot(vm_reflect(v, n), n) + vm_dot(v, n)) <= 100,
{
    let s = SCALE as int;
    let n1 = n.x;
    let n2 = n.y;
    let n3 = n.z;
    let v1 = v.x;
    let v2 = v.y;
    let v3 = v.z;
    let d = vm_dot(v, n);
    lemma_dot_bound(v, n, 0x2_0000_0000int, 0x2_0000_0000int);
    lemma_fmul_two(n1);
    lemma_fmul_two(n2);
    lemma_fmul_two(n3);
    let q1 = fmul(2 * n1, d);
    let q2 = fmul(2 * n2, d);
    let q3 = fmul(2 * n3, d);
    let r = vm_reflect(v, n);
    assert(r.x == v1 - q1 && r.y == v2 - q2 && r.z == v3 - q3);
    crate::fixed::lemma_tdiv_rem((2 * n1) * d, s);
    crate::fixed::lemma_tdiv_rem((2 * n2) * d, s);
    crate::fixed::lemma_tdiv_rem((2 * n3) * d, s);
    let e1 = (2 * n1) * d - s * q1;
    let e2 = (2 * n2) * d - s * q2;
    let e3 = (2 * n3) * d - s * q3;
    let m1 = fmul(r.x, n1);
    let m2 = fmul(r.y, n2);
    let m3 = fmul(r.z, n3);
    crate::fixed::lemma_tdiv_rem(r.x * n1, s);
    crate::fixed::lemma_tdiv_rem(r.y * n2, s);
    crate::fixed::lemma_tdiv_rem(r.z * n3, s);
    let f1 = r.x * n1 - s * m1;
    let f2 = r.y * n2 - s * m2;
    let f3 = r.z * n3 - s * m3;
    let g1 = fmul(v1, n1);
    let g2 = fmul(v2, n2);
    let g3 = fmul(v3, n3);
    crate::fixed::lemma_tdiv_rem(v1 * n1, s);
    crate::fixed::lemma_tdiv_rem(v2 * n2, s);
    crate::fixed::lemma_tdiv_rem(v3 * n3, s);
    let gg1 = v1 * n1 - s * g1;
    let gg2 = v2 * n2 - s * g2;
    let gg3 = v3 * n3 - s * g3;
    let h1 = fmul(n1, n1);
    let h2 = fmul(n2, n2);
    let h3 = fmul(n3, n3);
    crate::fixed::lemma_tdiv_rem(n1 * n1, s);
    crate::fixed::lemma_tdiv_rem(n2 * n2, s);
    crate::fixed::lemma_tdiv_rem(n3 * n3, s);
    let hh1 = n1 * n1 - s * h1;
    let hh2 = n2 * n2 - s * h2;
    let hh3 = n3 * n3 - s * h3;
    assert(h1 + h2 + h3 == s);
    // each scanned component, expanded about its dropped remainders
    assert(s * (r.x * n1) == s * (v1 * n1) - s * (q1 * n1)) by (nonlinear_arith)
        requires
            r.x == v1 - q1,
    ;
    assert(s * (r.y * n2) == s * (v2 * n2) - s * (q2 * n2)) by (nonlinear_arith)
        requires
            r.y == v2 - q2,
    ;
    assert(s * (r.z * n3) == s * (v3 * n3) - s * (q3 * n3)) by (nonlinear_arith)
        requires
            r.z == v3 - q3,
    ;
    assert((s * q1) * n1 == ((2 * n1) * d - e1) * n1);
    assert((s * q2) * n2 == ((2 * n2) * d - e2) * n2);
    assert((s * q3) * n3 == ((2 * n3) * d - e3) * n3);
    assert((s * q1) * n1 == s * (q1 * n1)) by (nonlinear_arith);
    assert((s * q2) * n2 == s * (q2 * n2)) by (nonlinear_arith);
    assert((s * q3) * n3 == s * (q3 * n3)) by (nonlinear_arith);
    assert(((2 * n1) * d - e1) * n1 == 2 * d * (n1 * n1) - e1 * n1) by (nonlinear_arith);
    assert(((2 * n2) * d - e2) * n2 == 2 * d * (n2 * n2) - e2 * n2) by (nonlinear_arith);
    assert(((2 * n3) * d - e3) * n3 == 2 * d * (n3 * n3) - e3 * n3) by (nonlinear_arith);
    assert(s * (v1 * n1) == s * (s * g1) + s * gg1) by (nonlinear_arith)
        requires
            v1 * n1 == s * g1 + gg1,
    ;
    assert(s * (v2 * n2) == s * (s * g2) + s * gg2) by (nonlinear_arith)
        requires
            v2 * n2 == s * g2 + gg2,
    ;
    assert(s * (v3 * n3) == s * (s * g3) + s * gg3) by (nonlinear_arith)
        requires
            v3 * n3 == s * g3 + gg3,
    ;
    assert(2 * d * (n1 * n1) == 2 * d * (s * h1) + 2 * d * hh1) by (nonlinear_arith)
        requires
            n1 * n1 == s * h1 + hh1,
    ;
    assert(2 * d * (n2 * n2) == 2 * d * (s * h2) + 2 * d * hh2) by (nonlinear_arith)
        requires
            n2 * n2 == s * h2 + hh2,
    ;
    assert(2 * d * (n3 * n3) == 2 * d * (s * h3) + 2 * d * hh3) by (nonlinear_arith)
        requires
            n3 * n3 == s * h3 + hh3,
    ;
    assert(s * (s * m1) == s * (r.x * n1) - s * f1) by (nonlinear_arith)
        requires
            s * m1 == r.x * n1 - f1,
    ;
    assert(s * (s * m2) == s * (r.y * n2) - s * f2) by (nonlinear_arith)
        requires
            s * m2 == r.y * n2 - f2,
    ;
    assert(s * (s * m3) == s * (r.z * n3) - s * f3) by (nonlinear_arith)
        requires
            s * m3 == r.z * n3 - f3,
    ;
    // per component, over the named atoms
    assert(s * (s * m1) == s * (s * g1) + s * gg1 - 2 * d * (s * h1) - 2 * d * hh1 + e1 * n1 - s
        * f1);
    assert(s * (s * m2) == s * (s * g2) + s * gg2 - 2 * d * (s * h2) - 2 * d * hh2 + e2 * n2 - s
        * f2);
    assert(s * (s * m3) == s * (s * g3) + s * gg3 - 2 * d * (s * h3) - 2 * d * hh3 + e3 * n3 - s
        * f3);
    // summed; the leading terms cancel since the normal is exactly unit
    let t = (m1 + m2 + m3) + d;
    assert(s * (s * t) == s * (s * m1) + s * (s * m2) + s * (s * m3) + s * (s * d))
        by (nonlinear_arith)
        requires
            t == (m1 + m2 + m3) + d,
    ;
    assert(s * (s * g1) + s * (s * g2) + s * (s * g3) == s * (s * d)) by (nonlinear_arith)
        requires
            d == g1 + g2 + g3,
    ;
    assert(2 * d * (s * h1) + 2 * d * (s * h2) + 2 * d * (s * h3) == 2 * (s * (s * d)))
        by (nonlinear_arith)
        requires
            h1 + h2 + h3 == s,
    ;
    assert(s * (gg1 + gg2 + gg3) == s * gg1 + s * gg2 + s * gg3) by (nonlinear_arith);
    assert(s * (f1 + f2 + f3) == s * f1 + s * f2 + s * f3) by (nonlinear_arith);
    assert(2 * d * (hh1 + hh2 + hh3) == 2 * d * hh1 + 2 * d * hh2 + 2 * d * hh3)
        by (nonlinear_arith);
    assert(s * (s * t) == s * (gg1 + gg2 + gg3) - 2 * d * (hh1 + hh2 + hh3) + (e1 * n1 + e2 * n2
        + e3 * n3) - s * (f1 + f2 + f3));
    // bound every remainder term
    lemma_fmul_bound(e1, n1, s, 2 * s);
    lemma_fmul_bound(e2, n2, s, 2 * s);
    lemma_fmul_bound(e3, n3, s, 2 * s);
    assert(abs(s * (s * t)) <= 84 * (s * s)) by (nonlinear_arith)
        requires
            s * (s * t) == s * (gg1 + gg2 + gg3) - 2 * d * (hh1 + hh2 + hh3) + (e1 * n1 + e2 * n2
                + e3 * n3) - s * (f1 + f2 + f3),
            abs(gg1) <= s - 1,
            abs(gg2) <= s - 1,
            abs(gg3) <= s - 1,
            abs(f1) <= s - 1,
            abs(f2) <= s - 1,
            abs(f3) <= s - 1,
            abs(hh1) <= s - 1,
            abs(hh2) <= s - 1,
            abs(hh3) <= s - 1,
            abs(e1 * n1) <= s * (2 * s),
            abs(e2 * n2) <= s * (2 * s),
            abs(e3 * n3) <= s * (2 * s),
            abs(d) <= 12 * s,
            s == 4294967296,
    ;
    assert(abs(t) <= 100) by (nonlinear_arith)
        requires
            abs(s * (s * t)) <= 84 * (s * s),
            s == 4294967296,
    ;
    assert(vm_dot(r, n) == m1 + m2 + m3);
}

/// The unit-length law on the working band: for a vector of at least half a
/// unit of length (fixed-point squared length at least a quarter), the
/// normalized vector's squared length and length are the unit to within 64
/// raw units (about 1.5e-8 of the unit, far inside a 1e-5 tolerance).
/// Shorter vectors carry too few bits of direction for the law to hold and
/// are excluded.
pub proof fn lemma_normalize_unit(a: Vec3m)
    requires
        in_range(a, VEC_OP_MAX as int),
        vm_sqlen(a) >= SCALE / 4,
    ensures
        abs(vm_sqlen(vm_normalize(a)) - SCALE) <= 64,
        abs(vm_len(vm_normalize(a)) - SCALE) <= 64,
{
    let s = SCALE as int;
    let x1 = a.x;
    let x2 = a.y;
    let x3 = a.z;
    let q = vm_sqlen(a);
    let h1 = fmul(x1, x1);
    let h2 = fmul(x2, x2);
    let h3 = fmul(x3, x3);
    lemma_sq_term_nonneg(x1);
    lemma_sq_term_nonneg(x2);
    lemma_sq_term_nonneg(x3);
    crate::fixed::lemma_tdiv_rem_nonneg(x1 * x1, s);
    crate::fixed::lemma_tdiv_rem_nonneg(x2 * x2, s);
    crate::fixed::lemma_tdiv_rem_nonneg(x3 * x3, s);
    let sg = (x1 * x1 + x2 * x2 + x3 * x3) - s * q;
    assert(0 <= sg <= 3 * s - 3) by (nonlinear_arith)
        requires
            sg == (x1 * x1 + x2 * x2 + x3 * x3) - s * q,
            q == fmul(x1, x1) + fmul(x2, x2) + fmul(x3, x3),
            0 <= x1 * x1 - s * fmul(x1, x1) <= s - 1,
            0 <= x2 * x2 - s * fmul(x2, x2) <= s - 1,
            0 <= x3 * x3 - s * fmul(x3, x3) <= s - 1,
    ;
    // the length and the rounding it drops
    assert(q * s > 0) by (nonlinear_arith)
        requires
            q >= SCALE / 4,
            s == 4294967296,
    ;
    lemma_sqrt_floor(q * s);
    let lw = vm_len(a);
    assert(lw * lw <= q * s < (lw + 1) * (lw + 1));
    let tau = q * s - lw * lw;
    assert(0 <= tau <= 2 * lw) by (nonlinear_arith)
        requires
            tau == q * s - lw * lw,
            q * s < (lw + 1) * (lw + 1),
            lw * lw <= q * s,
    ;
    assert(lw >= 2147483648) by (nonlinear_arith)
        requires
            (lw + 1) * (lw + 1) > q * s,
            q >= SCALE / 4,
            s == 4294967296,
            SCALE == 4294967296i128,
            lw >= 0,
    ;
    // the normalized components and their dropped remainders
    let u = vm_normalize(a);
    let u1 = u.x;
    let u2 = u.y;
    let u3 = u.z;
    crate::fixed::lemma_tdiv_rem(x1 * s, lw);
    crate::fixed::lemma_tdiv_rem(x2 * s, lw);
    crate::fixed::lemma_tdiv_rem(x3 * s, lw);
    let r1 = x1 * s - lw * u1;
    let r2 = x2 * s - lw * u2;
    let r3 = x3 * s - lw * u3;
    assert(abs(r1) <= lw - 1 && abs(r2) <= lw - 1 && abs(r3) <= lw - 1);
    lemma_sq_term_nonneg(u1);
    lemma_sq_term_nonneg(u2);
    lemma_sq_term_nonneg(u3);
    crate::fixed::lemma_tdiv_rem_nonneg(u1 * u1, s);
    crate::fixed::lemma_tdiv_rem_nonneg(u2 * u2, s);
    crate::fixed::lemma_tdiv_rem_nonneg(u3 * u3, s);
    let w = vm_sqlen(u);
    let rho = (u1 * u1 + u2 * u2 + u3 * u3) - s * w;
    assert(0 <= rho <= 3 * s - 3) by (nonlinear_arith)
        requires
            rho == (u1 * u1 + u2 * u2 + u3 * u3) - s * w,
            w == fmul(u1, u1) + fmul(u2, u2) + fmul(u3, u3),
            0 <= u1 * u1 - s * fmul(u1, u1) <= s - 1,
            0 <= u2 * u2 - s * fmul(u2, u2) <= s - 1,
            0 <= u3 * u3 - s * fmul(u3, u3) <= s - 1,
    ;
    // each component squared, exactly: square the division identity and
    // expand both sides
    assert((lw * u1) * (lw * u1) == (x1 * s - r1) * (x1 * s - r1));
    assert((lw * u2) * (lw * u2) == (x2 * s - r2) * (x2 * s - r2));
    assert((lw * u3) * (lw * u3) == (x3 * s - r3) * (x3 * s - r3));
    assert((lw * u1) * (lw * u1) == lw * lw * (u1 * u1)) by (nonlinear_arith);
    assert((lw * u2) * (lw * u2) == lw * lw * (u2 * u2)) by (nonlinear_arith);
    assert((lw * u3) * (lw * u3) == lw * lw * (u3 * u3)) by (nonlinear_arith);
    assert((x1 * s - r1) * (x1 * s - r1) == s * s * (x1 * x1) - 2 * s * (x1 * r1) + r1 * r1)
        by (nonlinear_arith);
    assert((x2 * s - r2) * (x2 * s - r2) == s * s * (x2 * x2) - 2 * s * (x2 * r2) + r2 * r2)
        by (nonlinear_arith);
    assert((x3 * s - r3) * (x3 * s - r3) == s * s * (x3 * x3) - 2 * s * (x3 * r3) + r3 * r3)
        by (nonlinear_arith);
    // summed and regrouped about the dropped remainders
    let xr = x1 * r1 + x2 * r2 + x3 * r3;
    let rr = r1 * r1 + r2 * r2 + r3 * r3;
    assert(lw * lw * (u1 * u1 + u2 * u2 + u3 * u3) == lw * lw * (u1 * u1) + lw * lw * (u2 * u2)
        + lw * lw * (u3 * u3)) by (nonlinear_arith);
    assert(s * s * (x1 * x1 + x2 * x2 + x3 * x3) == s * s * (x1 * x1) + s * s * (x2 * x2) + s * s
        * (x3 * x3)) by (nonlinear_arith);
    assert(lw * lw * (u1 * u1 + u2 * u2 + u3 * u3) == s * s * (x1 * x1 + x2 * x2 + x3 * x3) - 2
        * s * xr + rr) by (nonlinear_arith)
        requires
            lw * lw * (u1 * u1) + lw * lw * (u2 * u2) + lw * lw * (u3 * u3) == s * s * (x1 * x1)
                + s * s * (x2 * x2) + s * s * (x3 * x3) - 2 * s * (x1 * r1) - 2 * s * (x2 * r2)
                - 2 * s * (x3 * r3) + r1 * r1 + r2 * r2 + r3 * r3,
            lw * lw * (u1 * u1 + u2 * u2 + u3 * u3) == lw * lw * (u1 * u1) + lw * lw * (u2 * u2)
                + lw * lw * (u3 * u3),
            s * s * (x1 * x1 + x2 * x2 + x3 * x3) == s * s * (x1 * x1) + s * s * (x2 * x2) + s
                * s * (x3 * x3),
            xr == x1 * r1 + x2 * r2 + x3 * r3,
            rr == r1 * r1 + r2 * r2 + r3 * r3,
    ;
    // the scaled defect of the law
    let dd = w - s;
    assert(lw * lw * (s * dd) == s * s * sg - 2 * s * xr + rr - lw * lw * rho + s * s * tau)
        by (nonlinear_arith)
        requires
            lw * lw * (u1 * u1 + u2 * u2 + u3 * u3) == s * s * (x1 * x1 + x2 * x2 + x3 * x3) - 2
                * s * xr + rr,
            u1 * u1 + u2 * u2 + u3 * u3 == s * w + rho,
            x1 * x1 + x2 * x2 + x3 * x3 == s * q + sg,
            lw * lw == q * s - tau,
            dd == w - s,
    ;
    // bounds on every remainder term, in units of lw * lw * s
    assert(x1 * x1 <= lw * lw + 2 * lw + s && x2 * x2 <= lw * lw + 2 * lw + s && x3 * x3 <= lw
        * lw + 2 * lw + s) by (nonlinear_arith)
        requires
            0 <= x1 * x1 - s * fmul(x1, x1) <= s - 1,
            0 <= x2 * x2 - s * fmul(x2, x2) <= s - 1,
            0 <= x3 * x3 - s * fmul(x3, x3) <= s - 1,
            fmul(x1, x1) >= 0,
            fmul(x2, x2) >= 0,
            fmul(x3, x3) >= 0,
            q == fmul(x1, x1) + fmul(x2, x2) + fmul(x3, x3),
            q * s - lw * lw == tau,
            0 <= tau <= 2 * lw,
            s == 4294967296,
    ;
    assert(abs(x1) <= lw + 131072) by (nonlinear_arith)
        requires
            x1 * x1 <= lw * lw + 2 * lw + 4294967296,
            lw >= 0,
    ;
    assert(abs(x2) <= lw + 131072) by (nonlinear_arith)
        requires
            x2 * x2 <= lw * lw + 2 * lw + 4294967296,
            lw >= 0,
    ;
    assert(abs(x3) <= lw + 131072) by (nonlinear_arith)
        requires
            x3 * x3 <= lw * lw + 2 * lw + 4294967296,
            lw >= 0,
    ;
    lemma_fmul_bound(x1, r1, lw + 131072, lw);
    lemma_fmul_bound(x2, r2, lw + 131072, lw);
    lemma_fmul_bound(x3, r3, lw + 131072, lw);
    assert(abs(xr) <= 3 * ((lw + 131072) * lw));
    assert(0 <= rr <= 3 * (lw * lw)) by (nonlinear_arith)
        requires
            abs(r1) <= lw - 1,
            abs(r2) <= lw - 1,
            abs(r3) <= lw - 1,
            rr == r1 * r1 + r2 * r2 + r3 * r3,
            lw >= 1,
    ;
    assert(s * s * sg <= 12 * (lw * lw * s)) by (nonlinear_arith)
        requires
            0 <= sg <= 3 * s,
            s <= 2 * lw,
            s == 4294967296,
            lw >= 1,
    ;
    assert(abs(2 * s * xr) <= 7 * (lw * lw * s)) by (nonlinear_arith)
        requires
            abs(xr) <= 3 * ((lw + 131072) * lw),
            s == 4294967296,
            lw >= 2147483648,
    ;
    assert(rr <= lw * lw * s) by (nonlinear_arith)
        requires
            0 <= rr <= 3 * (lw * lw),
            s == 4294967296,
            lw >= 1,
    ;
    assert(0 <= lw * lw * rho <= 3 * (lw * lw * s)) by (nonlinear_arith)
        requires
            0 <= rho <= 3 * s,
            lw >= 1,
            s == 4294967296,
    ;
    assert(0 <= s * s * tau <= 4 * (lw * lw * s)) by (nonlinear_arith)
        requires
            0 <= tau <= 2 * lw,
            s <= 2 * lw,
            s == 4294967296,
            lw >= 1,
    ;
    assert(abs(lw * lw * (s * dd)) <= 27 * (lw * lw * s)) by (nonlinear_arith)
        requires
            lw * lw * (s * dd) == s * s * sg - 2 * s * xr + rr - lw * lw * rho + s * s * tau,
            0 <= s * s * sg <= 12 * (lw * lw * s),
            abs(2 * s * xr) <= 7 * (lw * lw * s),
            0 <= rr <= lw * lw * s,
            0 <= lw * lw * rho <= 3 * (lw * lw * s),
            0 <= s * s * tau <= 4 * (lw * lw * s),
    ;
    assert(abs(dd) <= 32) by (nonlinear_arith)
        requires
            abs(lw * lw * (s * dd)) <= 27 * (lw * lw * s),
            lw >= 1,
            s == 4294967296,
    ;
    // the length of the normalized vector inherits the window
    assert(w * s > 0) by (nonlinear_arith)
        requires
            w >= s - 32,
            s == 4294967296,
    ;
    lemma_sqrt_floor(w * s);
    let lu = vm_len(u);
    assert(lu >= s - 33) by (nonlinear_arith)
        requires
            (lu + 1) * (lu + 1) > w * s,
            w >= s - 32,
            s == 4294967296,
            lu >= 0,
    ;
    assert(lu <= s + 16) by (nonlinear_arith)
        requires
            lu * lu <= w * s,
            w <= s + 32,
            s == 4294967296,
            lu >= 0,
    ;
}

impl Vec3 {
    /// Build a vector from its components.
    pub fn new(x: Fx, y: Fx, z: Fx) -> (r: Vec3)
        ensures
            r.x == x && r.y == y && r.z == z,
    {
        Vec3 { x, y, z }
    }

    /// The zero vector.
    pub fn zero() -> (r: Vec3)
        ensures
            r@ == (Vec3m { x: 0, y: 0, z: 0 }),
    {
        Vec3 { x: Fx { v: 0 }, y: Fx { v: 0 }, z: Fx { v: 0 } }
    }

    /// The all-ones vector.
    pub fn one() -> (r: Vec3)
        ensures
            r@ == (Vec3m { x: SCALE as int, y: SCALE as int, z: SCALE as int }),
    {
        Vec3 { x: Fx { v: SCALE }, y: Fx { v: SCALE }, z: Fx { v: SCALE } }
    }

    /// Componentwise sum.
    pub fn add(self, rhs: Vec3) -> (r: Vec3)
        requires
            in_range(self@, VEC_OP_MAX as int),
            in_range(rhs@, VEC_OP_MAX as int),
        ensures
            r@ == vm_add(self@, rhs@),
    {
        Vec3 { x: self.x.add(rhs.x), y: self.y.add(rhs.y), z: self.z.add(rhs.z) }
    }

    /// Componentwise difference.
    pub fn sub(self, rhs: Vec3) -> (r: Vec3)
        requires
            in_range(self@, VEC_OP_MAX as int),
            in_range(rhs@, VEC_OP_MAX as int),
        ensures
            r@ == vm_sub(self@, rhs@),
    {
        Vec3 { x: self.x.sub(rhs.x), y: self.y.sub(rhs.y), z: self.z.sub(rhs.z) }
    }

    /// Componentwise negation.
    pub fn neg(self) -> (r: Vec3)
        requires
            in_range(self@, VEC_OP_MAX as int),
        ensures
            r@ == vm_neg(self@),
    {
        Vec3 { x: self.x.neg(), y: self.y.neg(), z: self.z.neg() }
    }

    /// Scale by a fixed-point scalar.
    pub fn scale(self, s: Fx) -> (r: Vec3)
        requires
            in_range(self@, VEC_OP_MAX as int),
            abs(s.v as int) <= VEC_OP_MAX as int,
        ensures
            r@ == vm_scale(self@, s.v as int),
    {
        proof {
            lemma_fmul_bound(self@.x, s.v as int, VEC_OP_MAX as int, VEC_OP_MAX as int);
            lemma_fmul_bound(self@.y, s.v as int, VEC_OP_MAX as int, VEC_OP_MAX as int);
            lemma_fmul_bound(self@.z, s.v as int, VEC_OP_MAX as int, VEC_OP_MAX as int);
        }
        Vec3 { x: self.x.mul(s), y: self.y.mul(s), z: self.z.mul(s) }
    }

    /// Componentwise fixed-point product.
    pub fn mul(self, rhs: Vec3) -> (r: Vec3)
        requires
            in_range(self@, VEC_OP_MAX as int),
            in_range(rhs@, VEC_OP_MAX as int),
        ensures
            r@ == vm_mul(self@, rhs@),
    {
        proof {
            lemma_fmul_bound(self@.x, rhs@.x, VEC_OP_MAX as int, VEC_OP_MAX as int);
            lemma_fmul_bound(self@.y, rhs@.y, VEC_OP_MAX as int, VEC_OP_MAX as int);
            lemma_fmul_bound(self@.z, rhs@.z, VEC_OP_MAX as int, VEC_OP_MAX as int);
        }
        Vec3 { x: self.x.mul(rhs.x), y: self.y.mul(rhs.y), z: self.z.mul(rhs.z) }
    }

    /// Fixed-point cross product, with the middle component written as its
    /// negated minor, as in the componentwise definition.
    pub fn cross(self, rhs: Vec3) -> (r: Vec3)
        requires
            in_range(self@, VEC_OP_MAX as int),
            in_range(rhs@, VEC_OP_MAX as int),
        ensures
            r@ == vm_cross(self@, rhs@),
    {
        proof {
            lemma_fmul_bound(self@.y, rhs@.z, VEC_OP_MAX as int, VEC_OP_MAX as int);
            lemma_fmul_bound(self@.z, rhs@.y, VEC_OP_MAX as int, VEC_OP_MAX as int);
            lemma_fmul_bound(self@.x, rhs@.z, VEC_OP_MAX as int, VEC_OP_MAX as int);
            lemma_fmul_bound(self@.z, rhs@.x, VEC_OP_MAX as int, VEC_OP_MAX as int);
            lemma_fmul_bound(self@.x, rhs@.y, VEC_OP_MAX as int, VEC_OP_MAX as int);
            lemma_fmul_bound(self@.y, rhs@.x, VEC_OP_MAX as int, VEC_OP_MAX as int);
        }
        let cx = self.y.mul(rhs.z).sub(self.z.mul(rhs.y));
        let cy = self.x.mul(rhs.z).sub(self.z.mul(rhs.x)).neg();
        let cz = self.x.mul(rhs.y).sub(self.y.mul(rhs.x));
        Vec3 { x: cx, y: cy, z: cz }
    }

    /// Componentwise fixed-point quotient.
    pub fn div(self, rhs: Vec3) -> (r: Vec3)
        requires
            in_range(self@, VEC_OP_MAX as int),
            rhs.x.v != 0,
            rhs.y.v != 0,
            rhs.z.v != 0,
        ensures
            r@ == vm_div(self@, rhs@),
    {
        Vec3 { x: self.x.div(rhs.x), y: self.y.div(rhs.y), z: self.z.div(rhs.z) }
    }

    /// Divide by a fixed-point scalar.
    pub fn div_s(self, s: Fx) -> (r: Vec3)
        requires
            in_range(self@, VEC_OP_MAX as int),
            s.v != 0,
        ensures
            r@ == vm_div_s(self@, s.v as int),
    {
        Vec3 { x: self.x.div(s), y: self.y.div(s), z: self.z.div(s) }
    }

    /// Fixed-point dot product.
    pub fn dot(self, rhs: Vec3) -> (r: Fx)
        requires
            in_range(self@, VEC_OP_MAX as int),
            in_range(rhs@, VEC_OP_MAX as int),
        ensures
            r.v == vm_dot(self@, rhs@),
    {
        proof {
            lemma_fmul_bound(self@.x, rhs@.x, VEC_OP_MAX as int, VEC_OP_MAX as int);
            lemma_fmul_bound(self@.y, rhs@.y, VEC_OP_MAX as int, VEC_OP_MAX as int);
            lemma_fmul_bound(self@.z, rhs@.z, VEC_OP_MAX as int, VEC_OP_MAX as int);
        }
        let xx = self.x.mul(rhs.x);
        let yy = self.y.mul(rhs.y);
        let zz = self.z.mul(rhs.z);
        xx.add(yy).add(zz)
    }

    /// Fixed-point squared length.
    pub fn squared_length(self) -> (r: Fx)
        requires
            in_range(self@, VEC_OP_MAX as int),
        ensures
            r.v == vm_sqlen(self@),
            r.v >= 0,
    {
        proof {
            lemma_sqlen_nonneg(self@);
        }
        self.dot(self)
    }

    /// Fixed-point length.
    pub fn length(self) -> (r: Fx)
        requires
            in_range(self@, VEC_OP_MAX as int),
        ensures
            r.v == vm_len(self@),
            r.v >= 0,
            is_sqrt(vm_sqlen(self@) * SCALE, r.v as int),
    {
        proof {
            lemma_sqlen_bound(self@, VEC_OP_MAX as int);
        }
        let q = self.squared_length();
        q.sqrt()
    }

    /// The unit vector in the direction of `self`.
    ///
    /// The squared length must be non-zero in fixed-point terms; the result's
    /// components are bounded by twice the unit, and its squared length stays
    /// near the unit from below. On the working band — squared length at
    /// least a quarter of the unit — the result is unit length to within 64
    /// raw units; shorter vectors carry too few fraction bits for that and
    /// get only the coarse bounds.
    pub fn normalize(self) -> (r: Vec3)
        requires
            in_range(self@, VEC_OP_MAX as int),
            vm_sqlen(self@) >= 1,
        ensures
            r@ == vm_normalize(self@),
            in_range(r@, 2 * SCALE),
            vm_sqlen(r@) >= SCALE / 4,
            vm_len(self@) >= 65536,
            vm_sqlen(self@) >= SCALE / 4 ==> abs(vm_sqlen(r@) - SCALE) <= 64 && abs(
                vm_len(r@) - SCALE,
            ) <= 64,
    {
        proof {
            lemma_normalize_bounds(self@);
            if vm_sqlen(self@) >= SCALE / 4 {
                lemma_normalize_unit(self@);
            }
        }
        let len = self.length();
        self.div_s(len)
    }

    /// Test whether every component's magnitude is at most `m`.
    pub fn in_box(self, m: i128) -> (b: bool)
        requires
            0 <= m,
        ensures
            b == in_range(self@, m as int),
    {
        self.x.v <= m && self.x.v >= -m && self.y.v <= m && self.y.v >= -m && self.z.v <= m
            && self.z.v >= -m
    }

    /// Reflection of `self` about `rhs`.
    pub fn reflect(self, rhs: Vec3) -> (r: Vec3)
        requires
            in_range(self@, REFLECT_MAX as int),
            in_range(rhs@, REFLECT_MAX as int),
        ensures
            r@ == vm_reflect(self@, rhs@),
    {
        proof {
            lemma_reflect_range(self@, rhs@);
        }
        let d = self.dot(rhs);
        let two = Fx { v: 2 * SCALE };
        let n2 = rhs.scale(two);
        self.sub(n2.scale(d))
    }
}

/// The intermediates of `reflect` stay inside the ranges its vector
/// operations ask for.
proof fn lemma_reflect_range(v: Vec3m, n: Vec3m)
    requires
        in_range(v, REFLECT_MAX as int),
        in_range(n, REFLECT_MAX as int),
    ensures
        abs(vm_dot(v, n)) <= VEC_OP_MAX as int,
        in_range(vm_scale(n, 2 * SCALE), VEC_OP_MAX as int),
        in_range(vm_scale(vm_scale(n, 2 * SCALE), vm_dot(v, n)), VEC_OP_MAX as int),
{
    let m = REFLECT_MAX as int;
    let s = SCALE as int;
    lemma_fmul_bound(v.x, n.x, m, m);
    lemma_fmul_bound(v.y, n.y, m, m);
    lemma_fmul_bound(v.z, n.z, m, m);
    let d = vm_dot(v, n);
    assert(abs(d) <= 3 * (m * m / s));
    lemma_fmul_bound(n.x, 2 * s, m, 2 * s);
    lemma_fmul_bound(n.y, 2 * s, m, 2 * s);
    lemma_fmul_bound(n.z, 2 * s, m, 2 * s);
    let n2 = vm_scale(n, 2 * s);
    assert(m * (2 * s) == (2 * m) * s) by (nonlinear_arith);
    assert((2 * m) * s / s == 2 * m) by {
        lemma_div_multiples_vanish(2 * m, s);
        vstd::arithmetic::mul::lemma_mul_is_commutative(2 * m, s);
    }
    assert(m * m == 0x1_0000_0000_0000int * s) by (nonlinear_arith)
        requires
            m == 0x100_0000_0000int,
            s == 4294967296int,
    ;
    assert(0x1_0000_0000_0000int * s / s == 0x1_0000_0000_0000int) by {
        lemma_div_multiples_vanish(0x1_0000_0000_0000int, s);
        vstd::arithmetic::mul::lemma_mul_is_commutative(0x1_0000_0000_0000int, s);
    }
    lemma_fmul_bound(n2.x, d, 2 * m, 3 * 0x1_0000_0000_0000int);
    lemma_fmul_bound(n2.y, d, 2 * m, 3 * 0x1_0000_0000_0000int);
    lemma_fmul_bound(n2.z, d, 2 * m, 3 * 0x1_0000_0000_0000int);
    assert((2 * m) * (3 * 0x1_0000_0000_0000int) == 0x600_0000_0000_0000int * s) by (nonlinear_arith)
        requires
            m == 0x100_0000_0000int,
            s == 4294967296int,
    ;
    assert(0x600_0000_0000_0000int * s / s == 0x600_0000_0000_0000int) by {
        lemma_div_multiples_vanish(0x600_0000_0000_0000int, s);
        vstd::arithmetic::mul::lemma_mul_is_commutative(0x600_0000_0000_0000int, s);
    }
}

/// One component of a normalized vector: its magnitude stays below twice
/// the unit.
proof fn lemma_norm_comp_upper(x: int, q: int, len: int)
    requires
        q >= 1,
        fmul(x, x) <= q,
        len * len <= q * (SCALE as int),
        q * (SCALE as int) < (len + 1) * (len + 1),
        len >= 65536,
    ensures
        abs(fdiv(x, len)) < 2 * SCALE,
{
    let s = SCALE as int;
    // x * x < s * (q + 1): the rounded square loses less than one unit.
    assert(x * x == s * (fmul(x, x)) + (x * x) % s) by {
        lemma_tdiv_abs(x * x, s);
        lemma_sq_term_nonneg(x);
        lemma_fundamental_div_mod(x * x, s);
    }
    assert(x * x < s * (q + 1)) by (nonlinear_arith)
        requires
            x * x == s * (fmul(x, x)) + (x * x) % s,
            fmul(x, x) <= q,
            0 <= (x * x) % s < s,
    ;
    // hence |x| < 2 * len
    assert(x * x < 4 * (len * len)) by (nonlinear_arith)
        requires
            x * x < s * (q + 1),
            q * s < (len + 1) * (len + 1),
            len * len <= q * s,
            q >= 1,
            len >= 65536,
            s == 4294967296,
    ;
    assert(abs(x) < 2 * len) by (nonlinear_arith)
        requires
            x * x < 4 * (len * len),
            len >= 0,
    ;
    // and the floor quotient of x * s by len stays under 2 * s
    lemma_tdiv_abs(x * s, len);
    assert(abs(x * s) == abs(x) * s) by {
        vstd::arithmetic::mul::lemma_mul_unary_negation(x, s);
    }
    assert(abs(x) * s < (2 * s) * len) by (nonlinear_arith)
        requires
            abs(x) < 2 * len,
            s > 0,
            len > 0,
    ;
    assert(abs(x) as int * s / len < 2 * s) by {
        vstd::arithmetic::div_mod::lemma_multiply_divide_lt(abs(x) as int * s, len, 2 * s);
    }
}

/// The largest component of a normalized vector keeps at least half the
/// unit, so the normalized squared length keeps at least a quarter of it.
proof fn lemma_norm_comp_lower(x: int, q: int, len: int)
    requires
        q >= 1,
        len * len <= q * (SCALE as int),
        len >= 65536,
        3 * (x * x) >= q * (SCALE as int),
    ensures
        fmul(fdiv(x, len), fdiv(x, len)) >= SCALE / 4,
{
    let s = SCALE as int;
    let u = fdiv(x, len);
    // 2 * |x| >= len
    assert(4 * (x * x) > len * len) by (nonlinear_arith)
        requires
            3 * (x * x) >= q * s,
            len * len <= q * s,
            q >= 1,
            s > 0,
    ;
    assert(2 * abs(x) >= len) by (nonlinear_arith)
        requires
            4 * (x * x) > len * len,
            len >= 0,
    ;
    // |u| >= s / 2
    lemma_tdiv_abs(x * s, len);
    assert(abs(x * s) == abs(x) * s) by {
        vstd::arithmetic::mul::lemma_mul_unary_negation(x, s);
    }
    assert(abs(x) * s >= len * (s / 2)) by (nonlinear_arith)
        requires
            2 * abs(x) >= len,
            s == 4294967296,
            len >= 0,
    ;
    assert(len * (s / 2) / len == s / 2) by {
        lemma_div_multiples_vanish(s / 2, len);
        vstd::arithmetic::mul::lemma_mul_is_commutative(len, s / 2);
    }
    lemma_div_is_ordered(len * (s / 2), abs(x) as int * s, len);
    assert(abs(u) >= s / 2);
    // squared, scaled down: at least a quarter unit
    assert(u * u >= (s / 2) * (s / 2)) by (nonlinear_arith)
        requires
            abs(u) >= s / 2,
            s >= 2,
    ;
    lemma_tdiv_abs(u * u, s);
    lemma_sq_term_nonneg(u);
    assert(s / 2 == 2147483648int);
    assert(s / 4 == 1073741824int);
    assert(2147483648int * 2147483648int == 1073741824int * 4294967296int) by (nonlinear_arith);
    assert(1073741824int * 4294967296int / 4294967296int == 1073741824int) by {
        lemma_div_multiples_vanish(1073741824int, 4294967296int);
        vstd::arithmetic::mul::lemma_mul_is_commutative(1073741824int, 4294967296int);
    }
    lemma_div_is_ordered((s / 2) * (s / 2), u * u, s);
}

/// The rounded square undershoots: `SCALE * fmul(x, x) <= x * x`.
proof fn lemma_sq_lower(x: int)
    ensures
        (SCALE as int) * fmul(x, x) <= x * x,
{
    let s = SCALE as int;
    lemma_sq_term_nonneg(x);
    lemma_fundamental_div_mod(x * x, s);
    assert(s * fmul(x, x) <= x * x) by (nonlinear_arith)
        requires
            x * x == s * ((x * x) / s) + (x * x) % s,
            fmul(x, x) == (x * x) / s,
            0 <= (x * x) % s,
    ;
}

/// Bounds for the components and squared length of a normalized vector,
/// together with the positive floor on the length itself.
pub proof fn lemma_normalize_bounds(a: Vec3m)
    requires
        in_range(a, VEC_OP_MAX as int),
        vm_sqlen(a) >= 1,
    ensures
        in_range(vm_normalize(a), 2 * SCALE),
        vm_sqlen(vm_normalize(a)) >= SCALE / 4,
        vm_len(a) >= 65536,
{
    let s = SCALE as int;
    let q = vm_sqlen(a);
    let len = vm_len(a);
    lemma_sqlen_bound(a, VEC_OP_MAX as int);
    assert(q * s <= SQRT_ARG_MAX as int) by (nonlinear_arith)
        requires
            0 <= q <= 3 * ((VEC_OP_MAX as int) * (VEC_OP_MAX as int) / (SCALE as int)),
            s == SCALE as int,
            SCALE == 4294967296i128,
            VEC_OP_MAX == 0x1000_0000_0000_0000i128,
            SQRT_ARG_MAX == 0x3fff_ffff_ffff_ffff_ffff_ffff_ffff_ffffi128,
    ;
    assert(q * s >= s) by (nonlinear_arith)
        requires
            q >= 1,
            s > 0,
    ;
    lemma_sqrt_floor(q * s);
    assert(len * len <= q * s < (len + 1) * (len + 1));
    // len >= 2^16
    assert(len >= 65536) by (nonlinear_arith)
        requires
            (len + 1) * (len + 1) > q * s,
            q * s >= s,
            s == 4294967296,
            len >= 0,
    ;
    lemma_sqlen_nonneg(a);
    lemma_norm_comp_upper(a.x, q, len);
    lemma_norm_comp_upper(a.y, q, len);
    lemma_norm_comp_upper(a.z, q, len);
    // the largest component carries at least a third of the squared length
    lemma_sq_lower(a.x);
    lemma_sq_lower(a.y);
    lemma_sq_lower(a.z);
    let u = vm_normalize(a);
    lemma_sqlen_nonneg(u);
    if 3 * (a.x * a.x) >= q * s {
        lemma_norm_comp_lower(a.x, q, len);
    } else if 3 * (a.y * a.y) >= q * s {
        lemma_norm_comp_lower(a.y, q, len);
    } else {
        assert(3 * (a.z * a.z) >= q * s) by (nonlinear_arith)
            requires
                3 * (a.x * a.x) < q * s,
                3 * (a.y * a.y) < q * s,
                s * fmul(a.x, a.x) <= a.x * a.x,
                s * fmul(a.y, a.y) <= a.y * a.y,
                s * fmul(a.z, a.z) <= a.z * a.z,
                q == fmul(a.x, a.x) + fmul(a.y, a.y) + fmul(a.z, a.z),
                s == 4294967296,
                a.z * a.z >= 0,
        ;
        lemma_norm_comp_lower(a.z, q, len);
    }
}

} // verus!
