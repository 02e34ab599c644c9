use vstd::prelude::*;

verus! {

/// Number of fixed-point units that make up the value 1.0.  Scalars store an
/// exact count of decimal micro-units, so decimal literals such as 0.5 or 0.25
/// are represented exactly.
pub const SCALE: i128 = 1_000_000;

/// Largest magnitude, in units, that a well-formed scalar may hold.  The bound
/// is chosen so that the raw product of two well-formed scalars always fits in
/// an `i128`.
pub const MAX_UNITS: i128 = 1_000_000_000_000_000_000;

pub open spec fn in_range(x: int) -> bool {
    -MAX_UNITS <= x <= MAX_UNITS
}

pub open spec fn abs_int(a: int) -> int {
    if a >= 0 {
        a
    } else {
        -a
    }
}

/// Integer division rounding toward zero, as Rust's `/` does on signed
/// integers.
pub open spec fn div_to_zero(a: int, b: int) -> int
    recommends
        b != 0,
{
    let q = abs_int(a) / abs_int(b);
    if (0 <= a) == (0 <= b) {
        q
    } else {
        -q
    }
}

/// The product of two scalars, in units: the raw product carries a factor of
/// `SCALE * SCALE`, so one factor of `SCALE` is divided back out.
pub open spec fn smul(a: int, b: int) -> int {
    div_to_zero(a * b, SCALE as int)
}

/// The quotient of two scalars, in units.
pub open spec fn sdiv(a: int, b: int) -> int
    recommends
        b != 0,
{
    div_to_zero(a * SCALE, b)
}

/// `r` is the integer square root of `n`.
pub open spec fn is_isqrt(n: int, r: int) -> bool {
    &&& 0 <= r
    &&& r * r <= n
    &&& n < (r + 1) * (r + 1)
}

/// The integer square root, as a function.  `lemma_isqrt` shows that it
/// satisfies `is_isqrt` for every nonnegative argument.
pub open spec fn isqrt(n: int) -> int {
    choose|r: int| is_isqrt(n, r)
}

/// The square root of a scalar, in units: the argument carries one factor of
/// `SCALE`, so a further factor is multiplied in before the root is taken.
pub open spec fn ssqrt(a: int) -> int {
    isqrt(a * SCALE)
}

proof fn lemma_isqrt_exists(n: int) -> (r: int)
    requires
        n >= 0,
    ensures
        is_isqrt(n, r),
    decreases n,
{
    if n == 0 {
        assert(is_isqrt(0, 0));
        0
    } else {
        let p = lemma_isqrt_exists(n - 1);
        if n < (p + 1) * (p + 1) {
            assert(is_isqrt(n, p));
            p
        } else {
            assert(n == (p + 1) * (p + 1));
            assert((p + 1) * (p + 1) < (p + 1 + 1) * (p + 1 + 1)) by (nonlinear_arith)
                requires
                    p >= 0,
            ;
            assert(is_isqrt(n, p + 1));
            p + 1
        }
    }
}

pub proof fn lemma_isqrt_unique(n: int, r: int)
    requires
        is_isqrt(n, r),
    ensures
        forall|s: int| is_isqrt(n, s) ==> s == r,
{
    assert forall|s: int| is_isqrt(n, s) implies s == r by {
        assert(s == r) by (nonlinear_arith)
            requires
                0 <= r,
                r * r <= n,
                n < (r + 1) * (r + 1),
                0 <= s,
                s * s <= n,
                n < (s + 1) * (s + 1),
        ;
    }
}

/// `isqrt(n)` really is the integer square root of `n`.
pub proof fn lemma_isqrt(n: int)
    requires
        n >= 0,
    ensures
        is_isqrt(n, isqrt(n)),
{
    let r = lemma_isqrt_exists(n);
    assert(is_isqrt(n, r));
}

/// The integer square root does not decrease when its argument grows.
pub proof fn lemma_isqrt_monotonic(a: int, b: int)
    requires
        0 <= a <= b,
    ensures
        isqrt(a) <= isqrt(b),
{
    lemma_isqrt(a);
    lemma_isqrt(b);
    let ra = isqrt(a);
    let rb = isqrt(b);
    assert(ra <= rb) by (nonlinear_arith)
        requires
            a <= b,
            0 <= ra,
            ra * ra <= a,
            0 <= rb,
            b < (rb + 1) * (rb + 1),
    ;
}

/// Binary search for the integer square root of a `u128`.
fn isqrt_u128(n: u128) -> (r: u128)
    ensures
        is_isqrt(n as int, r as int),
        r as int == isqrt(n as int),
{
    let mut lo: u128 = 0;
    let mut hi: u128 = 18_446_744_073_709_551_616;
    assert((hi as int) * (hi as int) > u128::MAX as int) by (nonlinear_arith)
        requires
            hi as int == 18_446_744_073_709_551_616int,
    ;
    while lo + 1 < hi
        invariant
            0 <= lo < hi,
            hi <= 18_446_744_073_709_551_616u128,
            (lo as int) * (lo as int) <= n as int,
            (n as int) < (hi as int) * (hi as int),
        decreases hi - lo,
    {
        let mid: u128 = lo + (hi - lo) / 2;
        assert(lo < mid < hi);
        let q: u128 = n / mid;
        proof {
            vstd::arithmetic::div_mod::lemma_fundamental_div_mod(n as int, mid as int);
            let qq = (n as int) / (mid as int);
            let rr = (n as int) % (mid as int);
            if qq >= mid {
                assert((mid as int) * (mid as int) <= qq * (mid as int)) by (nonlinear_arith)
                    requires
                        qq >= mid as int,
                        mid as int > 0,
                ;
            } else {
                assert(qq * (mid as int) + rr < (mid as int) * (mid as int)) by (nonlinear_arith)
                    requires
                        qq < mid as int,
                        rr < mid as int,
                        0 <= rr,
                        mid as int > 0,
                        0 <= qq,
                ;
            }
        }
        if mid <= q {
            lo = mid;
        } else {
            hi = mid;
        }
    }
    proof {
        lemma_isqrt_unique(n as int, lo as int);
        lemma_isqrt(n as int);
    }
    lo
}

/// A fixed-point scalar: the real value `v / SCALE`, stored exactly as an
/// integer count of micro-units.
#[derive(Debug, Clone, Copy, PartialEq, Eq, Structural)]
pub struct Scalar {
    pub v: i128,
}

impl Scalar {
    pub open spec fn wf(self) -> bool {
        in_range(self.v as int)
    }

    /// The scalar holding `v` micro-units.
    pub fn from_units(v: i128) -> (r: Scalar)
        requires
            in_range(v as int),
        ensures
            r.v == v,
            r.wf(),
    {
        Scalar { v }
    }

    /// The scalar holding the integer value `i` exactly.
    pub fn from_int(i: i64) -> (r: Scalar)
        requires
            -1_000_000_000_000 <= i as int <= 1_000_000_000_000,
        ensures
            r.v == i as int * SCALE,
            r.wf(),
    {
        Scalar { v: (i as i128) * SCALE }
    }

    pub fn zero() -> (r: Scalar)
        ensures
            r.v == 0,
            r.wf(),
    {
        Scalar { v: 0 }
    }

    pub fn one() -> (r: Scalar)
        ensures
            r.v == SCALE,
            r.wf(),
    {
        Scalar { v: SCALE }
    }

    pub fn add(self, other: Scalar) -> (r: Scalar)
        requires
            i128::MIN as int <= self.v + other.v <= i128::MAX as int,
        ensures
            r.v == self.v + other.v,
            r.wf() <== in_range(self.v + other.v),
    {
        Scalar { v: self.v + other.v }
    }

    pub fn sub(self, other: Scalar) -> (r: Scalar)
        requires
            i128::MIN as int <= self.v - other.v <= i128::MAX as int,
        ensures
            r.v == self.v - other.v,
            r.wf() <== in_range(self.v - other.v),
    {
        Scalar { v: self.v - other.v }
    }

    pub fn neg(self) -> (r: Scalar)
        requires
            self.wf(),
        ensures
            r.v == -self.v,
            r.wf(),
    {
        Scalar { v: -self.v }
    }

    pub fn mul(self, other: Scalar) -> (r: Scalar)
        requires
            self.wf(),
            other.wf(),
        ensures
            r.v == smul(self.v as int, other.v as int),
            r.wf() <== in_range(smul(self.v as int, other.v as int)),
    {
        proof {
            lemma_abs_mul_le(self.v as int, other.v as int, MAX_UNITS as int, MAX_UNITS as int);
            lemma_div_to_zero_in_bounds(self.v as int * other.v as int, SCALE as int);
        }
        Scalar { v: (self.v * other.v) / SCALE }
    }

    pub fn div(self, other: Scalar) -> (r: Scalar)
        requires
            -(i128::MAX as int) <= self.v * SCALE <= i128::MAX as int,
            other.v != 0,
            other.v != i128::MIN,
        ensures
            r.v == sdiv(self.v as int, other.v as int),
            r.wf() <== in_range(sdiv(self.v as int, other.v as int)),
    {
        proof {
            lemma_div_to_zero_in_bounds(self.v as int * SCALE as int, other.v as int);
        }
        let num: i128 = self.v * SCALE;
        let an: i128 = if num < 0 {
            -num
        } else {
            num
        };
        let ad: i128 = if other.v < 0 {
            -other.v
        } else {
            other.v
        };
        let q: i128 = an / ad;
        if (num < 0) == (other.v < 0) {
            Scalar { v: q }
        } else {
            Scalar { v: -q }
        }
    }

    /// The square root, rounded down to the nearest representable scalar.
    pub fn sqrt(self) -> (r: Scalar)
        requires
            self.v >= 0,
            self.v * SCALE <= i128::MAX as int,
        ensures
            r.v == ssqrt(self.v as int),
            r.v >= 0,
            r.v * r.v <= self.v * SCALE,
            self.v * SCALE < (r.v + 1) * (r.v + 1),
            r.wf() <== self.v <= MAX_UNITS,
    {
        let n: u128 = (self.v * SCALE) as u128;
        let root: u128 = isqrt_u128(n);
        proof {
            lemma_isqrt_unique(n as int, root as int);
            lemma_isqrt(n as int);
            assert(root as int <= i128::MAX as int) by (nonlinear_arith)
                requires
                    root as int >= 0,
                    (root as int) * (root as int) <= i128::MAX as int,
            ;
            if self.v <= MAX_UNITS {
                assert(root as int <= MAX_UNITS as int) by (nonlinear_arith)
                    requires
                        (root as int) * (root as int) <= MAX_UNITS as int * (SCALE as int),
                        root as int >= 0,
                ;
            }
        }
        Scalar { v: root as i128 }
    }

    pub fn lt(self, other: Scalar) -> (r: bool)
        ensures
            r == (self.v < other.v),
    {
        self.v < other.v
    }

    pub fn gt(self, other: Scalar) -> (r: bool)
        ensures
            r == (self.v > other.v),
    {
        self.v > other.v
    }

}

/// Bounds on a product follow from bounds on its factors.
pub proof fn lemma_abs_mul_le(a: int, b: int, aa: int, bb: int)
    requires
        -aa <= a <= aa,
        -bb <= b <= bb,
        0 <= aa,
        0 <= bb,
    ensures
        -(aa * bb) <= a * b <= aa * bb,
    {
    assert(-(aa * bb) <= a * b <= aa * bb) by (nonlinear_arith)
        requires
            -aa <= a <= aa,
            -bb <= b <= bb,
            0 <= aa,
            0 <= bb,
    ;
}

/// Division toward zero never grows the magnitude of its dividend.
pub proof fn lemma_div_to_zero_in_bounds(a: int, b: int)
    requires
        b != 0,
    ensures
        abs_int(div_to_zero(a, b)) <= abs_int(a),
    {
    let q = abs_int(a) / abs_int(b);
    assert(0 <= q <= abs_int(a)) by (nonlinear_arith)
        requires
            abs_int(a) >= 0,
            abs_int(b) >= 1,
            q == abs_int(a) / abs_int(b),
    ;
}

/// Division toward zero by a divisor of known least magnitude: the quotient's
/// magnitude is bounded by the dividend bound over that least magnitude.
pub proof fn lemma_div_to_zero_denom(a: int, aa: int, b: int, bmin: int)
    requires
        abs_int(a) <= aa,
        0 < bmin,
        bmin <= abs_int(b),
    ensures
        abs_int(div_to_zero(a, b)) <= aa / bmin,
    {
    let q = abs_int(a) / abs_int(b);
    vstd::arithmetic::div_mod::lemma_div_is_ordered_by_denominator(abs_int(a), bmin, abs_int(b));
    vstd::arithmetic::div_mod::lemma_div_is_ordered(abs_int(a), aa, bmin);
    assert(q >= 0) by (nonlinear_arith)
        requires
            abs_int(a) >= 0,
            abs_int(b) >= 1,
            q == abs_int(a) / abs_int(b),
    ;
}

/// A scaled division by a whole number that divides the dividend is exact.
pub proof fn lemma_sdiv_multiple_exact(x: int, m: int)
    requires
        m >= 1,
        x % m == 0,
    ensures
        sdiv(x, m * SCALE) == x / m,
    {
    let q = x / m;
    vstd::arithmetic::div_mod::lemma_fundamental_div_mod(x, m);
    assert(x == m * q);
    assert(m * SCALE > 0) by (nonlinear_arith)
        requires
            m >= 1,
            SCALE as int > 0,
    ;
    if q >= 0 {
        assert(abs_int(x * SCALE) == (m * SCALE) * q) by (nonlinear_arith)
            requires
                x == m * q,
                q >= 0,
                m * SCALE > 0,
        ;
        vstd::arithmetic::div_mod::lemma_div_multiples_vanish(q, m * SCALE);
        assert(x * SCALE >= 0) by (nonlinear_arith)
            requires
                x == m * q,
                q >= 0,
                m >= 1,
                SCALE as int > 0,
        ;
    } else {
        assert(abs_int(x * SCALE) == (m * SCALE) * (-q)) by (nonlinear_arith)
            requires
                x == m * q,
                q < 0,
                m * SCALE > 0,
        ;
        vstd::arithmetic::div_mod::lemma_div_multiples_vanish(-q, m * SCALE);
        assert(x * SCALE < 0) by (nonlinear_arith)
            requires
                x == m * q,
                q < 0,
                m >= 1,
                SCALE as int > 0,
        ;
    }
}

/// A scaled product of bounded factors is bounded by the scaled product of the
/// bounds.
pub proof fn lemma_smul_bound(a: int, b: int, aa: int, bb: int)
    requires
        -aa <= a <= aa,
        -bb <= b <= bb,
        0 <= aa,
        0 <= bb,
    ensures
        abs_int(smul(a, b)) <= aa * bb / (SCALE as int),
    {
    lemma_abs_mul_le(a, b, aa, bb);
    lemma_div_to_zero_le(a * b, aa * bb, SCALE as int);
}

/// Scaling by a whole number of units is exact: no rounding happens.
pub proof fn lemma_smul_scale_exact(k: int, x: int)
    ensures
        smul(k * SCALE, x) == k * x,
    {
    assert(k * SCALE * x == (k * x) * SCALE) by (nonlinear_arith);
    let m = k * x;
    if m >= 0 {
        assert(abs_int(m * SCALE) == m * SCALE) by (nonlinear_arith)
            requires
                m >= 0,
                SCALE as int > 0,
        ;
        assert(m * SCALE / (SCALE as int) == m) by (nonlinear_arith)
            requires
                SCALE as int > 0,
        ;
    } else {
        assert(abs_int(m * SCALE) == (-m) * SCALE) by (nonlinear_arith)
            requires
                m < 0,
                SCALE as int > 0,
        ;
        assert((-m) * SCALE / (SCALE as int) == -m) by (nonlinear_arith)
            requires
                SCALE as int > 0,
        ;
    }
}

/// Scaling by a factor of magnitude at most one never grows a value.
pub proof fn lemma_smul_atten_bound(a: int, c: int, cb: int)
    requires
        -SCALE <= a <= SCALE,
        -cb <= c <= cb,
        0 <= cb,
    ensures
        abs_int(smul(a, c)) <= cb,
    {
    lemma_abs_mul_le(a, c, SCALE as int, cb);
    lemma_div_to_zero_le(a * c, (SCALE as int) * cb, SCALE as int);
    vstd::arithmetic::div_mod::lemma_div_multiples_vanish(cb, SCALE as int);
}

/// Division toward zero shrinks with the magnitude of its dividend: useful for
/// bounding scaled products.
pub proof fn lemma_div_to_zero_le(a: int, aa: int, b: int)
    requires
        b > 0,
        0 <= aa,
        -aa <= a <= aa,
    ensures
        -(aa / b) <= div_to_zero(a, b) <= aa / b,
    {
    assert(abs_int(a) / b <= aa / b) by (nonlinear_arith)
        requires
            b > 0,
            0 <= abs_int(a) <= aa,
    ;
}

} // verus!
