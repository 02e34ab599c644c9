use vstd::prelude::*;

use crate::scalar::{
    abs_int, div_to_zero, in_range, is_isqrt, isqrt, lemma_abs_mul_le, lemma_div_to_zero_in_bounds,
    lemma_isqrt, lemma_isqrt_monotonic, lemma_isqrt_unique, sdiv, smul, ssqrt, Scalar, MAX_UNITS,
    SCALE,
};

verus! {

/// A three-component vector of fixed-point scalars.
#[derive(Debug, Clone, Copy, PartialEq, Eq, Structural)]
pub struct Vec3 {
    pub x: Scalar,
    pub y: Scalar,
    pub z: Scalar,
}

/// Component bound on unit vectors: rounding can push a component slightly
/// past 1.0, but never past this many units.
pub const UNIT_BOUND: i128 = 2_002_000;

pub open spec fn tri_in_range(t: (int, int, int)) -> bool {
    in_range(t.0) && in_range(t.1) && in_range(t.2)
}

/// The triple fits the machine representation, though possibly outside the
/// well-formed range.
pub open spec fn tri_fits(t: (int, int, int)) -> bool {
    &&& i128::MIN as int <= t.0 <= i128::MAX as int
    &&& i128::MIN as int <= t.1 <= i128::MAX as int
    &&& i128::MIN as int <= t.2 <= i128::MAX as int
}

pub open spec fn tri_bounded(t: (int, int, int), bound: int) -> bool {
    &&& -bound <= t.0 <= bound
    &&& -bound <= t.1 <= bound
    &&& -bound <= t.2 <= bound
}

pub open spec fn vadd(a: (int, int, int), b: (int, int, int)) -> (int, int, int) {
    (a.0 + b.0, a.1 + b.1, a.2 + b.2)
}

pub open spec fn vsub(a: (int, int, int), b: (int, int, int)) -> (int, int, int) {
    (a.0 - b.0, a.1 - b.1, a.2 - b.2)
}

pub open spec fn vneg(a: (int, int, int)) -> (int, int, int) {
    (-a.0, -a.1, -a.2)
}

/// Componentwise product of two vectors.
pub open spec fn vmul(a: (int, int, int), b: (int, int, int)) -> (int, int, int) {
    (smul(a.0, b.0), smul(a.1, b.1), smul(a.2, b.2))
}

/// Componentwise quotient of two vectors.
pub open spec fn vdiv(a: (int, int, int), b: (int, int, int)) -> (int, int, int) {
    (sdiv(a.0, b.0), sdiv(a.1, b.1), sdiv(a.2, b.2))
}

/// A vector scaled by a scalar.
pub open spec fn vscale(a: (int, int, int), s: int) -> (int, int, int) {
    (smul(a.0, s), smul(a.1, s), smul(a.2, s))
}

pub open spec fn vdot(a: (int, int, int), b: (int, int, int)) -> int {
    smul(a.0, b.0) + smul(a.1, b.1) + smul(a.2, b.2)
}

pub open spec fn vcross(a: (int, int, int), b: (int, int, int)) -> (int, int, int) {
    (
        smul(a.1, b.2) - smul(a.2, b.1),
        -(smul(a.0, b.2) - smul(a.2, b.0)),
        smul(a.0, b.1) - smul(a.1, b.0),
    )
}

pub open spec fn vslen(a: (int, int, int)) -> int {
    vdot(a, a)
}

pub open spec fn vlen(a: (int, int, int)) -> int {
    ssqrt(vslen(a))
}

pub open spec fn vunit(a: (int, int, int)) -> (int, int, int) {
    (sdiv(a.0, vlen(a)), sdiv(a.1, vlen(a)), sdiv(a.2, vlen(a)))
}

/// The vector holding a triple of unit counts; meaningful when each count is
/// in range.
pub open spec fn spec_vec3(m: (int, int, int)) -> Vec3 {
    Vec3 { x: Scalar { v: m.0 as i128 }, y: Scalar { v: m.1 as i128 }, z: Scalar { v: m.2 as i128 } }
}

/// A scaled square is never negative.
pub proof fn lemma_smul_square_nonneg(a: int)
    ensures
        smul(a, a) >= 0,
        smul(a, a) <= a * a,
{
    assert(a * a >= 0) by (nonlinear_arith);
    lemma_div_to_zero_in_bounds(a * a, SCALE as int);
}

/// The squared length of any vector is nonnegative.
pub proof fn lemma_vslen_nonneg(a: (int, int, int))
    ensures
        vslen(a) >= 0,
{
    lemma_smul_square_nonneg(a.0);
    lemma_smul_square_nonneg(a.1);
    lemma_smul_square_nonneg(a.2);
}

impl Vec3 {
    /// The vector as a triple of unit counts, the form the contracts speak of.
    pub open spec fn model(self) -> (int, int, int) {
        (self.x.v as int, self.y.v as int, self.z.v as int)
    }

    pub open spec fn wf(self) -> bool {
        self.x.wf() && self.y.wf() && self.z.wf()
    }

    pub fn new(x: Scalar, y: Scalar, z: Scalar) -> (r: Vec3)
        ensures
            r.model() == (x.v as int, y.v as int, z.v as int),
            r.wf() <== x.wf() && y.wf() && z.wf(),
    {
        Vec3 { x, y, z }
    }

    pub fn add(self, other: Vec3) -> (r: Vec3)
        requires
            tri_fits(vadd(self.model(), other.model())),
        ensures
            r.model() == vadd(self.model(), other.model()),
            r.wf() <== tri_in_range(vadd(self.model(), other.model())),
    {
        Vec3 { x: self.x.add(other.x), y: self.y.add(other.y), z: self.z.add(other.z) }
    }

    pub fn sub(self, other: Vec3) -> (r: Vec3)
        requires
            tri_fits(vsub(self.model(), other.model())),
        ensures
            r.model() == vsub(self.model(), other.model()),
            r.wf() <== tri_in_range(vsub(self.model(), other.model())),
    {
        Vec3 { x: self.x.sub(other.x), y: self.y.sub(other.y), z: self.z.sub(other.z) }
    }

    pub fn neg(self) -> (r: Vec3)
        requires
            self.wf(),
        ensures
            r.model() == vneg(self.model()),
            r.wf(),
    {
        Vec3 { x: self.x.neg(), y: self.y.neg(), z: self.z.neg() }
    }

    /// Componentwise product.
    pub fn mul(self, other: Vec3) -> (r: Vec3)
        requires
            self.wf(),
            other.wf(),
        ensures
            r.model() == vmul(self.model(), other.model()),
            r.wf() <== tri_in_range(vmul(self.model(), other.model())),
    {
        Vec3 { x: self.x.mul(other.x), y: self.y.mul(other.y), z: self.z.mul(other.z) }
    }

    /// Componentwise quotient.
    pub fn div(self, other: Vec3) -> (r: Vec3)
        requires
            self.wf(),
            other.wf(),
            other.x.v != 0,
            other.y.v != 0,
            other.z.v != 0,
        ensures
            r.model() == vdiv(self.model(), other.model()),
            r.wf() <== tri_in_range(vdiv(self.model(), other.model())),
    {
        Vec3 { x: self.x.div(other.x), y: self.y.div(other.y), z: self.z.div(other.z) }
    }

    /// The vector scaled by `s`.
    pub fn scale(self, s: Scalar) -> (r: Vec3)
        requires
            self.wf(),
            s.wf(),
        ensures
            r.model() == vscale(self.model(), s.v as int),
            r.wf() <== tri_in_range(vscale(self.model(), s.v as int)),
    {
        Vec3 { x: self.x.mul(s), y: self.y.mul(s), z: self.z.mul(s) }
    }

    /// The vector divided by the scalar `s`.
    pub fn div_scalar(self, s: Scalar) -> (r: Vec3)
        requires
            -(i128::MAX as int) <= self.model().0 * SCALE <= i128::MAX as int,
            -(i128::MAX as int) <= self.model().1 * SCALE <= i128::MAX as int,
            -(i128::MAX as int) <= self.model().2 * SCALE <= i128::MAX as int,
            s.v != 0,
            s.v != i128::MIN,
        ensures
            r.model() == vdiv(self.model(), (s.v as int, s.v as int, s.v as int)),
            r.wf() <== tri_in_range(vdiv(self.model(), (s.v as int, s.v as int, s.v as int))),
    {
        Vec3 { x: self.x.div(s), y: self.y.div(s), z: self.z.div(s) }
    }

    pub fn dot(self, other: Vec3) -> (r: Scalar)
        requires
            self.wf(),
            other.wf(),
        ensures
            r.v == vdot(self.model(), other.model()),
            r.wf() <== in_range(vdot(self.model(), other.model())),
    {
        let px: Scalar = self.x.mul(other.x);
        let py: Scalar = self.y.mul(other.y);
        let pz: Scalar = self.z.mul(other.z);
        proof {
            lemma_vmul_term_bound(self.x.v as int, other.x.v as int);
            lemma_vmul_term_bound(self.y.v as int, other.y.v as int);
            lemma_vmul_term_bound(self.z.v as int, other.z.v as int);
        }
        px.add(py).add(pz)
    }

    pub fn cross(self, other: Vec3) -> (r: Vec3)
        requires
            self.wf(),
            other.wf(),
        ensures
            r.model() == vcross(self.model(), other.model()),
            r.wf() <== tri_in_range(vcross(self.model(), other.model())),
    {
        proof {
            lemma_vmul_term_bound(self.y.v as int, other.z.v as int);
            lemma_vmul_term_bound(self.z.v as int, other.y.v as int);
            lemma_vmul_term_bound(self.x.v as int, other.z.v as int);
            lemma_vmul_term_bound(self.z.v as int, other.x.v as int);
            lemma_vmul_term_bound(self.x.v as int, other.y.v as int);
            lemma_vmul_term_bound(self.y.v as int, other.x.v as int);
        }
        Vec3 {
            x: self.y.mul(other.z).sub(self.z.mul(other.y)),
            y: self.z.mul(other.x).sub(self.x.mul(other.z)),
            z: self.x.mul(other.y).sub(self.y.mul(other.x)),
        }
    }

    pub fn squared_length(self) -> (r: Scalar)
        requires
            self.wf(),
        ensures
            r.v == vslen(self.model()),
            r.v >= 0,
            r.wf() <== in_range(vslen(self.model())),
    {
        proof {
            lemma_vslen_nonneg(self.model());
        }
        self.dot(self)
    }

    pub fn length(self) -> (r: Scalar)
        requires
            self.wf(),
        ensures
            r.v == vlen(self.model()),
            r.v >= 0,
            r.wf() <== vslen(self.model()) <= MAX_UNITS,
    {
        let sl: Scalar = self.squared_length();
        proof {
            lemma_vslen_nonneg(self.model());
            lemma_vmul_term_bound(self.x.v as int, self.x.v as int);
            lemma_vmul_term_bound(self.y.v as int, self.y.v as int);
            lemma_vmul_term_bound(self.z.v as int, self.z.v as int);
            assert(sl.v * SCALE <= i128::MAX as int) by (nonlinear_arith)
                requires
                    0 <= sl.v <= 3 * MAX_UNITS as int * MAX_UNITS as int / (SCALE as int),
            ;
        }
        sl.sqrt()
    }

    /// Decides at run time whether every component lies within `limit` units.
    pub fn bounded_by(&self, limit: i128) -> (r: bool)
        requires
            limit >= 0,
        ensures
            r == tri_bounded(self.model(), limit as int),
    {
        self.x.v <= limit && self.x.v >= -limit && self.y.v <= limit && self.y.v >= -limit
            && self.z.v <= limit && self.z.v >= -limit
    }

    /// The vector scaled to unit length.  Rounding keeps each component within
    /// `UNIT_BOUND` units of zero.
    pub fn unit(self) -> (r: Vec3)
        requires
            self.wf(),
            vslen(self.model()) >= 1,
        ensures
            r.model() == vunit(self.model()),
            tri_bounded(r.model(), UNIT_BOUND as int),
            r.wf(),
    {
        let len: Scalar = self.length();
        proof {
            lemma_vlen_lower(self.model());
            lemma_vunit_bounds(self.model());
        }
        self.div_scalar(len)
    }
}

/// One scaled product of well-formed components stays well inside `i128`.
proof fn lemma_vmul_term_bound(a: int, b: int)
    requires
        in_range(a),
        in_range(b),
    ensures
        abs_int(smul(a, b)) <= MAX_UNITS as int * MAX_UNITS as int / (SCALE as int),
{
    lemma_abs_mul_le(a, b, MAX_UNITS as int, MAX_UNITS as int);
    crate::scalar::lemma_div_to_zero_le(a * b, MAX_UNITS as int * MAX_UNITS as int, SCALE as int);
}

/// Vector addition is commutative.
pub proof fn lemma_add_commutative(a: Vec3, b: Vec3)
    ensures
        vadd(a.model(), b.model()) == vadd(b.model(), a.model()),
{
}

/// Vector addition is associative.
pub proof fn lemma_add_associative(a: Vec3, b: Vec3, c: Vec3)
    ensures
        vadd(vadd(a.model(), b.model()), c.model()) == vadd(a.model(), vadd(b.model(), c.model())),
{
}

/// The dot product is symmetric.
pub proof fn lemma_dot_commutative(a: Vec3, b: Vec3)
    ensures
        vdot(a.model(), b.model()) == vdot(b.model(), a.model()),
{
    assert(a.model().0 * b.model().0 == b.model().0 * a.model().0) by (nonlinear_arith);
    assert(a.model().1 * b.model().1 == b.model().1 * a.model().1) by (nonlinear_arith);
    assert(a.model().2 * b.model().2 == b.model().2 * a.model().2) by (nonlinear_arith);
}

/// The cross product is anticommutative.
pub proof fn lemma_cross_anticommutative(a: Vec3, b: Vec3)
    ensures
        vcross(a.model(), b.model()) == vneg(vcross(b.model(), a.model())),
{
    let am = a.model();
    let bm = b.model();
    assert(am.0 * bm.1 == bm.1 * am.0) by (nonlinear_arith);
    assert(am.1 * bm.0 == bm.0 * am.1) by (nonlinear_arith);
    assert(am.0 * bm.2 == bm.2 * am.0) by (nonlinear_arith);
    assert(am.2 * bm.0 == bm.0 * am.2) by (nonlinear_arith);
    assert(am.1 * bm.2 == bm.2 * am.1) by (nonlinear_arith);
    assert(am.2 * bm.1 == bm.1 * am.2) by (nonlinear_arith);
}

/// Scaling by a whole number scales the length by its magnitude, whenever the
/// squared components and the squared length are exactly representable.
pub proof fn lemma_length_scales(a: Vec3, s: Scalar)
    requires
        s.v % SCALE == 0,
        (a.model().0 * a.model().0) % (SCALE as int) == 0,
        (a.model().1 * a.model().1) % (SCALE as int) == 0,
        (a.model().2 * a.model().2) % (SCALE as int) == 0,
        vlen(a.model()) * vlen(a.model()) == vslen(a.model()) * SCALE,
    ensures
        vlen(vscale(a.model(), s.v as int)) == smul(abs_int(s.v as int), vlen(a.model())),
{
    let am = a.model();
    let k = (s.v as int) / (SCALE as int);
    vstd::arithmetic::div_mod::lemma_fundamental_div_mod(s.v as int, SCALE as int);
    assert(s.v == k * SCALE);
    lemma_scaled_square(am.0, k);
    lemma_scaled_square(am.1, k);
    lemma_scaled_square(am.2, k);
    let sa = vscale(am, s.v as int);
    assert(vslen(sa) == k * k * vslen(am)) by (nonlinear_arith)
        requires
            smul(sa.0, sa.0) == k * k * smul(am.0, am.0),
            smul(sa.1, sa.1) == k * k * smul(am.1, am.1),
            smul(sa.2, sa.2) == k * k * smul(am.2, am.2),
            vslen(sa) == smul(sa.0, sa.0) + smul(sa.1, sa.1) + smul(sa.2, sa.2),
            vslen(am) == smul(am.0, am.0) + smul(am.1, am.1) + smul(am.2, am.2),
    ;
    let len = vlen(am);
    lemma_vslen_nonneg(am);
    crate::scalar::lemma_isqrt(vslen(am) * SCALE);
    assert(len >= 0);
    assert(abs_int(k) * abs_int(k) == k * k) by (nonlinear_arith);
    assert(vslen(sa) * SCALE == (abs_int(k) * len) * (abs_int(k) * len)) by (nonlinear_arith)
        requires
            vslen(sa) == k * k * vslen(am),
            len * len == vslen(am) * SCALE,
            abs_int(k) * abs_int(k) == k * k,
    ;
    assert(is_isqrt(vslen(sa) * SCALE, abs_int(k) * len)) by (nonlinear_arith)
        requires
            vslen(sa) * SCALE == (abs_int(k) * len) * (abs_int(k) * len),
            abs_int(k) >= 0,
            len >= 0,
    ;
    crate::scalar::lemma_isqrt_unique(vslen(sa) * SCALE, abs_int(k) * len);
    lemma_vslen_nonneg(sa);
    assert(vslen(sa) * SCALE >= 0) by (nonlinear_arith)
        requires
            vslen(sa) >= 0,
            SCALE as int > 0,
    ;
    crate::scalar::lemma_isqrt(vslen(sa) * SCALE);
    assert(vlen(sa) == abs_int(k) * len);
    // the right-hand side: scaling the length by the whole number is exact
    assert(abs_int(s.v as int) == abs_int(k) * SCALE) by (nonlinear_arith)
        requires
            s.v as int == k * SCALE,
            SCALE as int > 0,
    ;
    crate::scalar::lemma_smul_scale_exact(abs_int(k), len);
}

/// The square of one scaled component, when the squared component is exact.
proof fn lemma_scaled_square(x: int, k: int)
    requires
        (x * x) % (SCALE as int) == 0,
    ensures
        smul(smul(x, k * SCALE), smul(x, k * SCALE)) == k * k * smul(x, x),
{
    crate::scalar::lemma_smul_scale_exact(k, x);
    assert(x * (k * SCALE) == (k * SCALE) * x) by (nonlinear_arith);
    assert(smul(x, k * SCALE) == k * x);
    let q = (x * x) / (SCALE as int);
    vstd::arithmetic::div_mod::lemma_fundamental_div_mod(x * x, SCALE as int);
    assert(x * x == q * SCALE);
    assert((k * x) * (k * x) == (k * k * q) * SCALE) by (nonlinear_arith)
        requires
            x * x == q * SCALE,
    ;
    assert(((k * k * q) * SCALE) % (SCALE as int) == 0 && ((k * k * q) * SCALE) / (SCALE as int)
        == k * k * q) by {
        vstd::arithmetic::div_mod::lemma_div_multiples_vanish(k * k * q, SCALE as int);
        vstd::arithmetic::div_mod::lemma_mod_multiples_basic(k * k * q, SCALE as int);
        assert((k * k * q) * SCALE == (SCALE as int) * (k * k * q)) by (nonlinear_arith);
    }
    crate::scalar::lemma_sdiv_multiple_exact((k * x) * (k * x), 1);
    lemma_smul_exact_of_multiple(k * x, k * k * q);
    assert(smul(x, x) == q) by {
        lemma_smul_exact_of_multiple(x, q);
    }
}

/// When a product equals a known multiple of the scale, the scaled square is
/// that multiple.
proof fn lemma_smul_exact_of_multiple(x: int, q: int)
    requires
        x * x == q * SCALE,
    ensures
        smul(x, x) == q,
{
    assert(x * x >= 0) by (nonlinear_arith);
    assert(q >= 0) by (nonlinear_arith)
        requires
            x * x == q * SCALE,
            x * x >= 0,
            SCALE as int > 0,
    ;
    assert(abs_int(x * x) == (SCALE as int) * q) by (nonlinear_arith)
        requires
            x * x == q * SCALE,
            x * x >= 0,
    ;
    vstd::arithmetic::div_mod::lemma_div_multiples_vanish(q, SCALE as int);
}

/// Scaling a vector to unit length really gives length one, whenever every
/// division involved is exact: the squared components, the squared length,
/// the component quotients and their squares are all exactly representable.
pub proof fn lemma_unit_has_length_one(a: Vec3)
    requires
        vslen(a.model()) >= 1,
        (a.model().0 * a.model().0) % (SCALE as int) == 0,
        (a.model().1 * a.model().1) % (SCALE as int) == 0,
        (a.model().2 * a.model().2) % (SCALE as int) == 0,
        vlen(a.model()) * vlen(a.model()) == vslen(a.model()) * SCALE,
        (a.model().0 * SCALE) % vlen(a.model()) == 0,
        (a.model().1 * SCALE) % vlen(a.model()) == 0,
        (a.model().2 * SCALE) % vlen(a.model()) == 0,
        (vunit(a.model()).0 * vunit(a.model()).0) % (SCALE as int) == 0,
        (vunit(a.model()).1 * vunit(a.model()).1) % (SCALE as int) == 0,
        (vunit(a.model()).2 * vunit(a.model()).2) % (SCALE as int) == 0,
    ensures
        vlen(vunit(a.model())) == SCALE,
{
    let am = a.model();
    let len = vlen(am);
    let u = vunit(am);
    lemma_vlen_lower(am);
    lemma_unit_component_exact(am.0, len, u.0);
    lemma_unit_component_exact(am.1, len, u.1);
    lemma_unit_component_exact(am.2, len, u.2);
    lemma_slen_exact(am);
    // sum of the exact squared quotients: len^2 * sum(u_i^2) = S^2 * slen * S
    let l2 = len * len;
    assert(l2 * (u.0 * u.0) == (SCALE as int) * SCALE * (am.0 * am.0)) by (nonlinear_arith)
        requires
            len * u.0 == am.0 * SCALE,
            l2 == len * len,
    ;
    assert(l2 * (u.1 * u.1) == (SCALE as int) * SCALE * (am.1 * am.1)) by (nonlinear_arith)
        requires
            len * u.1 == am.1 * SCALE,
            l2 == len * len,
    ;
    assert(l2 * (u.2 * u.2) == (SCALE as int) * SCALE * (am.2 * am.2)) by (nonlinear_arith)
        requires
            len * u.2 == am.2 * SCALE,
            l2 == len * len,
    ;
    assert(l2 * (u.0 * u.0 + u.1 * u.1 + u.2 * u.2) == (SCALE as int) * SCALE * (am.0 * am.0 + am.1
        * am.1 + am.2 * am.2)) by (nonlinear_arith)
        requires
            l2 * (u.0 * u.0) == (SCALE as int) * SCALE * (am.0 * am.0),
            l2 * (u.1 * u.1) == (SCALE as int) * SCALE * (am.1 * am.1),
            l2 * (u.2 * u.2) == (SCALE as int) * SCALE * (am.2 * am.2),
    ;
    assert(u.0 * u.0 + u.1 * u.1 + u.2 * u.2 == (SCALE as int) * SCALE) by (nonlinear_arith)
        requires
            l2 * (u.0 * u.0 + u.1 * u.1 + u.2 * u.2) == (SCALE as int) * SCALE * (am.0 * am.0 + am.1
                * am.1 + am.2 * am.2),
            vslen(am) * SCALE == am.0 * am.0 + am.1 * am.1 + am.2 * am.2,
            l2 == vslen(am) * SCALE,
            len >= 1000,
            l2 == len * len,
    ;
    // hence the unit vector's squared length is exactly one
    lemma_smul_exact_of_multiple(u.0, (u.0 * u.0) / (SCALE as int));
    lemma_smul_exact_of_multiple(u.1, (u.1 * u.1) / (SCALE as int));
    lemma_smul_exact_of_multiple(u.2, (u.2 * u.2) / (SCALE as int));
    vstd::arithmetic::div_mod::lemma_fundamental_div_mod(u.0 * u.0, SCALE as int);
    vstd::arithmetic::div_mod::lemma_fundamental_div_mod(u.1 * u.1, SCALE as int);
    vstd::arithmetic::div_mod::lemma_fundamental_div_mod(u.2 * u.2, SCALE as int);
    assert(vslen(u) * SCALE == (SCALE as int) * SCALE) by (nonlinear_arith)
        requires
            u.0 * u.0 + u.1 * u.1 + u.2 * u.2 == (SCALE as int) * SCALE,
            u.0 * u.0 == (SCALE as int) * smul(u.0, u.0),
            u.1 * u.1 == (SCALE as int) * smul(u.1, u.1),
            u.2 * u.2 == (SCALE as int) * smul(u.2, u.2),
            vslen(u) == smul(u.0, u.0) + smul(u.1, u.1) + smul(u.2, u.2),
    ;
    assert(is_isqrt(vslen(u) * SCALE, SCALE as int)) by (nonlinear_arith)
        requires
            vslen(u) * SCALE == (SCALE as int) * SCALE,
            SCALE as int > 0,
    ;
    crate::scalar::lemma_isqrt_unique(vslen(u) * SCALE, SCALE as int);
    lemma_vslen_nonneg(u);
    assert(vslen(u) * SCALE >= 0) by (nonlinear_arith)
        requires
            vslen(u) >= 0,
            SCALE as int > 0,
    ;
    crate::scalar::lemma_isqrt(vslen(u) * SCALE);
}

/// An exact component quotient satisfies the defining product equation.
proof fn lemma_unit_component_exact(x: int, len: int, u: int)
    requires
        len >= 1,
        (x * SCALE) % len == 0,
        u == sdiv(x, len),
    ensures
        len * u == x * SCALE,
{
    let q = (x * SCALE) / len;
    vstd::arithmetic::div_mod::lemma_fundamental_div_mod(x * SCALE, len);
    assert(x * SCALE == len * q);
    if x >= 0 {
        assert(x * SCALE >= 0) by (nonlinear_arith)
            requires
                x >= 0,
                SCALE as int > 0,
        ;
        assert(u == q);
    } else {
        assert(x * SCALE < 0) by (nonlinear_arith)
            requires
                x < 0,
                SCALE as int > 0,
        ;
        assert(abs_int(x * SCALE) == len * (-q)) by (nonlinear_arith)
            requires
                x * SCALE == len * q,
                x * SCALE < 0,
                len >= 1,
        ;
        vstd::arithmetic::div_mod::lemma_div_multiples_vanish(-q, len);
        assert(abs_int(x) * SCALE == abs_int(x * SCALE)) by (nonlinear_arith)
            requires
                x < 0,
                SCALE as int > 0,
        ;
        assert(u == -(abs_int(x) * SCALE / len));
        assert(u == q);
    }
}

/// With every squared component exact, the squared length carries no rounding.
proof fn lemma_slen_exact(am: (int, int, int))
    requires
        (am.0 * am.0) % (SCALE as int) == 0,
        (am.1 * am.1) % (SCALE as int) == 0,
        (am.2 * am.2) % (SCALE as int) == 0,
    ensures
        vslen(am) * SCALE == am.0 * am.0 + am.1 * am.1 + am.2 * am.2,
{
    lemma_smul_exact_of_multiple(am.0, (am.0 * am.0) / (SCALE as int));
    lemma_smul_exact_of_multiple(am.1, (am.1 * am.1) / (SCALE as int));
    lemma_smul_exact_of_multiple(am.2, (am.2 * am.2) / (SCALE as int));
    vstd::arithmetic::div_mod::lemma_fundamental_div_mod(am.0 * am.0, SCALE as int);
    vstd::arithmetic::div_mod::lemma_fundamental_div_mod(am.1 * am.1, SCALE as int);
    vstd::arithmetic::div_mod::lemma_fundamental_div_mod(am.2 * am.2, SCALE as int);
    assert(vslen(am) * SCALE == am.0 * am.0 + am.1 * am.1 + am.2 * am.2) by (nonlinear_arith)
        requires
            am.0 * am.0 == (SCALE as int) * smul(am.0, am.0),
            am.1 * am.1 == (SCALE as int) * smul(am.1, am.1),
            am.2 * am.2 == (SCALE as int) * smul(am.2, am.2),
            vslen(am) == smul(am.0, am.0) + smul(am.1, am.1) + smul(am.2, am.2),
    ;
}

/// A dot product of bounded vectors is bounded.
pub proof fn lemma_vdot_bound(a: (int, int, int), b: (int, int, int), aa: int, bb: int)
    requires
        tri_bounded(a, aa),
        tri_bounded(b, bb),
        0 <= aa,
        0 <= bb,
    ensures
        abs_int(vdot(a, b)) <= 3 * (aa * bb / (SCALE as int)),
{
    crate::scalar::lemma_smul_bound(a.0, b.0, aa, bb);
    crate::scalar::lemma_smul_bound(a.1, b.1, aa, bb);
    crate::scalar::lemma_smul_bound(a.2, b.2, aa, bb);
}

/// A scaled vector of bounded components stays bounded.
pub proof fn lemma_vscale_bound(a: (int, int, int), s: int, aa: int, ss: int)
    requires
        tri_bounded(a, aa),
        -ss <= s <= ss,
        0 <= aa,
        0 <= ss,
    ensures
        tri_bounded(vscale(a, s), aa * ss / (SCALE as int)),
{
    crate::scalar::lemma_smul_bound(a.0, s, aa, ss);
    crate::scalar::lemma_smul_bound(a.1, s, aa, ss);
    crate::scalar::lemma_smul_bound(a.2, s, aa, ss);
}

/// A vector of squared length at least one has length at least 1000 units.
pub proof fn lemma_vlen_lower(a: (int, int, int))
    requires
        vslen(a) >= 1,
    ensures
        vlen(a) >= 1000,
{
    assert(is_isqrt(SCALE as int, 1000));
    lemma_isqrt_unique(SCALE as int, 1000);
    lemma_isqrt(SCALE as int);
    lemma_isqrt_monotonic(SCALE as int, vslen(a) * SCALE);
}

/// Each component of a unit vector is bounded: the component count divided by
/// the length can overshoot one full unit only by rounding slack.
pub proof fn lemma_vunit_bounds(a: (int, int, int))
    requires
        vslen(a) >= 1,
    ensures
        tri_bounded(vunit(a), UNIT_BOUND as int),
{
    lemma_vlen_lower(a);
    lemma_vunit_component(a, a.0, vunit(a).0);
    lemma_vunit_component(a, a.1, vunit(a).1);
    lemma_vunit_component(a, a.2, vunit(a).2);
}

/// A cross product of bounded vectors is bounded.
pub proof fn lemma_vcross_bound(a: (int, int, int), b: (int, int, int), aa: int, bb: int)
    requires
        tri_bounded(a, aa),
        tri_bounded(b, bb),
        0 <= aa,
        0 <= bb,
    ensures
        tri_bounded(vcross(a, b), 2 * (aa * bb / (SCALE as int))),
{
    crate::scalar::lemma_smul_bound(a.1, b.2, aa, bb);
    crate::scalar::lemma_smul_bound(a.2, b.1, aa, bb);
    crate::scalar::lemma_smul_bound(a.0, b.2, aa, bb);
    crate::scalar::lemma_smul_bound(a.2, b.0, aa, bb);
    crate::scalar::lemma_smul_bound(a.0, b.1, aa, bb);
    crate::scalar::lemma_smul_bound(a.1, b.0, aa, bb);
}

/// A unit vector is not degenerate: its squared length is at least one unit.
pub proof fn lemma_vunit_slen_lower(a: (int, int, int))
    requires
        vslen(a) >= 1,
    ensures
        vslen(vunit(a)) >= 1,
{
    lemma_vlen_lower(a);
    lemma_isqrt(vslen(a) * SCALE);
    lemma_smul_square_nonneg(a.0);
    lemma_smul_square_nonneg(a.1);
    lemma_smul_square_nonneg(a.2);
    let len = vlen(a);
    // the component of largest magnitude
    let m = if abs_int(a.0) >= abs_int(a.1) && abs_int(a.0) >= abs_int(a.2) {
        a.0
    } else if abs_int(a.1) >= abs_int(a.2) {
        a.1
    } else {
        a.2
    };
    let u = if abs_int(a.0) >= abs_int(a.1) && abs_int(a.0) >= abs_int(a.2) {
        vunit(a).0
    } else if abs_int(a.1) >= abs_int(a.2) {
        vunit(a).1
    } else {
        vunit(a).2
    };
    assert(u == sdiv(m, len));
    // every squared component is at most the square of the largest magnitude
    assert(a.0 * a.0 <= m * m && a.1 * a.1 <= m * m && a.2 * a.2 <= m * m) by (nonlinear_arith)
        requires
            abs_int(m) >= abs_int(a.0) && abs_int(m) >= abs_int(a.1) && abs_int(m) >= abs_int(a.2),
    ;
    vstd::arithmetic::div_mod::lemma_div_is_ordered(a.0 * a.0, m * m, SCALE as int);
    vstd::arithmetic::div_mod::lemma_div_is_ordered(a.1 * a.1, m * m, SCALE as int);
    vstd::arithmetic::div_mod::lemma_div_is_ordered(a.2 * a.2, m * m, SCALE as int);
    assert(m * m >= 0) by (nonlinear_arith);
    // so the largest magnitude is at least 1000 units
    let q0 = m * m / (SCALE as int);
    assert(smul(m, m) == q0);
    assert(3 * q0 >= vslen(a));
    assert(q0 >= 1);
    vstd::arithmetic::div_mod::lemma_fundamental_div_mod(m * m, SCALE as int);
    vstd::arithmetic::div_mod::lemma_mod_bound(m * m, SCALE as int);
    assert(m * m >= SCALE as int) by (nonlinear_arith)
        requires
            m * m == (SCALE as int) * q0 + (m * m) % (SCALE as int),
            (m * m) % (SCALE as int) >= 0,
            q0 >= 1,
            SCALE as int > 0,
    ;
    assert(abs_int(m) >= 1000) by (nonlinear_arith)
        requires
            m * m >= 1_000_000,
    ;
    // the length is below twice the largest magnitude
    assert(vslen(a) * SCALE <= 3 * (m * m)) by (nonlinear_arith)
        requires
            vslen(a) <= 3 * q0,
            m * m == (SCALE as int) * q0 + (m * m) % (SCALE as int),
            (m * m) % (SCALE as int) >= 0,
            SCALE as int > 0,
    ;
    assert(abs_int(m) * abs_int(m) == m * m) by (nonlinear_arith);
    assert(len < 2 * abs_int(m)) by (nonlinear_arith)
        requires
            len * len <= vslen(a) * SCALE,
            vslen(a) * SCALE <= 3 * (m * m),
            len >= 0,
            abs_int(m) >= 1000,
            abs_int(m) * abs_int(m) == m * m,
    ;
    // hence the matching unit component is at least half a unit vector long
    let q = abs_int(m) * SCALE / len;
    vstd::arithmetic::div_mod::lemma_div_is_ordered_by_denominator(
        abs_int(m) * SCALE,
        len,
        2 * abs_int(m),
    );
    vstd::arithmetic::div_mod::lemma_div_multiples_vanish(500_000, 2 * abs_int(m));
    assert(abs_int(m) * SCALE == 2 * abs_int(m) * 500_000) by (nonlinear_arith)
        requires
            SCALE as int == 1_000_000,
    ;
    assert(q >= 500_000);
    assert(abs_int(m * SCALE) == abs_int(m) * SCALE) by (nonlinear_arith)
        requires
            SCALE as int > 0,
    ;
    assert(abs_int(u) == q);
    // half a unit is plenty: its squared length alone reaches one unit
    assert(u * u >= 250_000_000_000) by (nonlinear_arith)
        requires
            abs_int(u) >= 500_000,
    ;
    vstd::arithmetic::div_mod::lemma_div_is_ordered(250_000_000_000, u * u, SCALE as int);
    assert(u * u >= 0) by (nonlinear_arith);
    assert(smul(u, u) >= 250_000);
    lemma_smul_square_nonneg(vunit(a).0);
    lemma_smul_square_nonneg(vunit(a).1);
    lemma_smul_square_nonneg(vunit(a).2);
}

/// Bound for one component `x` of `a`: from `x * x <= vslen(a) * SCALE + SCALE`
/// and the meaning of the integer square root, `abs(x) <= vlen(a) + 1001`, so
/// the quotient `x * SCALE / vlen(a)` stays within `UNIT_BOUND`.
proof fn lemma_vunit_component(a: (int, int, int), x: int, u: int)
    requires
        vslen(a) >= 1,
        x == a.0 || x == a.1 || x == a.2,
        u == sdiv(x, vlen(a)),
    ensures
        -(UNIT_BOUND as int) <= u <= UNIT_BOUND as int,
{
    let sl = vslen(a);
    let len = vlen(a);
    lemma_vlen_lower(a);
    lemma_isqrt(sl * SCALE);
    lemma_smul_square_nonneg(a.0);
    lemma_smul_square_nonneg(a.1);
    lemma_smul_square_nonneg(a.2);
    // x * x <= (smul(x, x) + 1) * SCALE <= (sl + 1) * SCALE
    assert(x * x < (smul(x, x) + 1) * SCALE) by (nonlinear_arith)
        requires
            SCALE as int > 0,
            smul(x, x) == div_to_zero(x * x, SCALE as int),
            x * x >= 0,
    ;
    assert(smul(x, x) <= sl);
    assert(x * x <= sl * SCALE + SCALE) by (nonlinear_arith)
        requires
            x * x < (smul(x, x) + 1) * SCALE,
            smul(x, x) <= sl,
            SCALE as int > 0,
    ;
    // sl * SCALE < (len + 1) * (len + 1), hence x * x < (len + 1001) * (len + 1001)
    assert(x * x < (len + 1001) * (len + 1001)) by (nonlinear_arith)
        requires
            x * x <= sl * SCALE + SCALE,
            sl * SCALE < (len + 1) * (len + 1),
            len >= 1000,
            SCALE as int == 1_000_000,
    ;
    assert(abs_int(x) <= len + 1000) by (nonlinear_arith)
        requires
            x * x < (len + 1001) * (len + 1001),
            len >= 1000,
    ;
    // abs(u) = abs(x) * SCALE / len <= (len + 1000) * SCALE / len <= UNIT_BOUND
    let q = abs_int(x * SCALE) / abs_int(len);
    assert(abs_int(x * SCALE) == abs_int(x) * SCALE) by (nonlinear_arith)
        requires
            SCALE as int > 0,
    ;
    assert(q * len <= abs_int(x) * SCALE) by (nonlinear_arith)
        requires
            len >= 1000,
            q == (abs_int(x) * SCALE) / len,
            abs_int(x) * SCALE >= 0,
    ;
    assert(q <= UNIT_BOUND as int) by (nonlinear_arith)
        requires
            q * len <= abs_int(x) * SCALE,
            abs_int(x) <= len + 1000,
            len >= 1000,
            q >= 0,
            SCALE as int == 1_000_000,
            UNIT_BOUND as int == 2_002_000,
    ;
    assert(u == q || u == -q);
}

} // verus!
