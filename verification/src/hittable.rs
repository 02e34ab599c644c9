use vstd::prelude::*;

use crate::material::{normal_ok, Material};
use crate::ray::{ray_at, ray_ok, Ray, ORIGIN_LIMIT, T_LIMIT};
use crate::scalar::{
    abs_int, is_isqrt, lemma_smul_bound, lemma_smul_scale_exact, sdiv, smul, ssqrt, Scalar, SCALE,
};
use crate::vec3::{
    lemma_vdot_bound, lemma_vscale_bound, lemma_vunit_bounds, lemma_vunit_slen_lower, tri_bounded,
    vdot, vslen, vsub, vunit, Vec3, UNIT_BOUND,
};

verus! {

/// Largest magnitude, in units, that scene geometry (sphere centers and radii,
/// camera vectors) may hold.
pub const SCENE_LIMIT: i128 = 1_000_000_000;

/// A successful intersection as the contracts speak of it: the parametric
/// distance, the normal ray anchored at the hit point, and the material.
pub struct HitModel {
    pub t: int,
    pub normal_origin: (int, int, int),
    pub normal_dir: (int, int, int),
    pub material: Material,
}

impl HitModel {
    /// The hit-point-anchored normal ray the model describes, as a value.
    pub open spec fn normal_ray(self) -> Ray {
        Ray {
            origin: crate::vec3::spec_vec3(self.normal_origin),
            direction: crate::vec3::spec_vec3(self.normal_dir),
        }
    }
}

pub open spec fn hit_model_ok(m: HitModel) -> bool {
    &&& -T_LIMIT <= m.t <= T_LIMIT
    &&& tri_bounded(m.normal_origin, ORIGIN_LIMIT as int)
    &&& tri_bounded(m.normal_dir, UNIT_BOUND as int)
    &&& vslen(m.normal_dir) >= 1
    &&& m.material.wf()
}

/// A usable parametric range for a hit query.
pub open spec fn trange_ok(min_t: Scalar, max_t: Scalar) -> bool {
    &&& -T_LIMIT <= min_t.v
    &&& max_t.v <= T_LIMIT
}

/// A successful intersection: the parametric distance, a ray whose origin is
/// the hit point and whose direction is the outward unit normal, and the
/// material that was struck.
pub struct Hit {
    pub t: Scalar,
    pub normal: Ray,
    pub material: Material,
}

impl Hit {
    pub open spec fn wf(self) -> bool {
        &&& self.t.wf()
        &&& normal_ok(self.normal)
        &&& self.material.wf()
    }

    /// The hit carries exactly the values of the model.
    pub open spec fn matches_model(self, m: HitModel) -> bool {
        &&& self.t.v == m.t
        &&& self.normal.origin.model() == m.normal_origin
        &&& self.normal.direction.model() == m.normal_dir
        &&& self.material == m.material
    }

    pub fn new(t: Scalar, normal: Ray, material: Material) -> (r: Hit)
        ensures
            r.t == t,
            r.normal == normal,
            r.material == material,
    {
        Hit { t, normal, material }
    }

    pub fn t(&self) -> (r: &Scalar)
        ensures
            *r == self.t,
    {
        &self.t
    }

    pub fn normal(&self) -> (r: &Ray)
        ensures
            *r == self.normal,
    {
        &self.normal
    }

    pub fn material(&self) -> (r: &Material)
        ensures
            *r == self.material,
    {
        &self.material
    }
}

/// What every hit query promises: the result carries exactly the model's
/// values, and a well-formed record when there is one.
pub open spec fn hit_matches(r: Option<Hit>, m: Option<HitModel>) -> bool {
    &&& (r is Some) == (m is Some)
    &&& r is Some ==> m is Some && r.unwrap().matches_model(m.unwrap()) && r.unwrap().wf()
        && hit_model_ok(m.unwrap())
}

/// The capability of being intersected by a ray.
pub trait Hittable: Sized {
    spec fn wf(&self) -> bool;

    /// The intersection the shape reports, as a function of the query.
    spec fn hit_model(&self, ray: Ray, min_t: int, max_t: int) -> Option<HitModel>;

    /// The nearest valid intersection within the strict range, or `None`.
    fn hit(&self, ray: Ray, min_t: Scalar, max_t: Scalar) -> (r: Option<Hit>)
        requires
            self.wf(),
            ray_ok(ray),
            trange_ok(min_t, max_t),
        ensures
            hit_matches(r, self.hit_model(ray, min_t.v as int, max_t.v as int)),
    ;
}

/// A sphere with its surface material.
pub struct Sphere {
    pub center: Vec3,
    pub radius: Scalar,
    pub material: Material,
}

impl Sphere {
    pub fn new(center: Vec3, radius: Scalar, material: Material) -> (r: Sphere)
        ensures
            r.center == center,
            r.radius == radius,
            r.material == material,
    {
        Sphere { center, radius, material }
    }

    pub fn center(&self) -> (r: &Vec3)
        ensures
            *r == self.center,
    {
        &self.center
    }

    pub fn radius(self) -> (r: Scalar)
        ensures
            r == self.radius,
    {
        self.radius
    }

    pub fn material(&self) -> (r: &Material)
        ensures
            *r == self.material,
    {
        &self.material
    }

    /// The smaller root of the ray/sphere quadratic, or `None` when the ray
    /// misses: `a t^2 + b t + c = 0` with `a = D.D`, `b = 2 (O-C).D`,
    /// `c = (O-C).(O-C) - r^2`.
    pub open spec fn hit_t(self, ray: Ray) -> Option<int> {
        let oc = vsub(ray.origin.model(), self.center.model());
        let d = ray.direction.model();
        let a = vdot(d, d);
        let b = 2 * vdot(oc, d);
        let c = vdot(oc, oc) - smul(self.radius.v as int, self.radius.v as int);
        let disc = smul(b, b) - 4 * smul(a, c);
        if disc < 0 {
            None
        } else {
            Some(sdiv(-b - ssqrt(disc), 2 * a))
        }
    }
}

impl Hittable for Sphere {
    open spec fn wf(&self) -> bool {
        &&& self.center.wf()
        &&& self.radius.wf()
        &&& tri_bounded(self.center.model(), SCENE_LIMIT as int)
        &&& abs_int(self.radius.v as int) <= SCENE_LIMIT
        &&& self.material.wf()
    }

    /// The root within the strict range becomes a hit, with two departures
    /// from the real-number description that fixed point forces: a hit point
    /// beyond `ORIGIN_LIMIT` is refused (it could not seed further rays), and
    /// a point-to-center offset of squared length zero is refused (it cannot
    /// be normalized) — so a sphere of radius under a thousandth is never
    /// reported hit.
    open spec fn hit_model(&self, ray: Ray, min_t: int, max_t: int) -> Option<HitModel> {
        match self.hit_t(ray) {
            None => None,
            Some(t) => if min_t < t && t < max_t {
                let hp = ray_at(ray.origin.model(), ray.direction.model(), t);
                let delta = vsub(hp, self.center.model());
                if tri_bounded(hp, ORIGIN_LIMIT as int) && vslen(delta) >= 1 {
                    Some(
                        HitModel {
                            t,
                            normal_origin: hp,
                            normal_dir: vunit(delta),
                            material: self.material,
                        },
                    )
                } else {
                    None
                }
            } else {
                None
            },
        }
    }

    fn hit(&self, ray: Ray, min_t: Scalar, max_t: Scalar) -> (r: Option<Hit>) {
        let oc: Vec3 = ray.origin.sub(self.center);
        proof {
            lemma_vdot_bound(
                ray.direction.model(),
                ray.direction.model(),
                10_000_000_000int,
                10_000_000_000int,
            );
            lemma_vdot_bound(oc.model(), ray.direction.model(), 11_000_000_000int,
                10_000_000_000int);
            lemma_vdot_bound(oc.model(), oc.model(), 11_000_000_000int, 11_000_000_000int);
            lemma_smul_bound(self.radius.v as int, self.radius.v as int, 1_000_000_000int,
                1_000_000_000int);
        }
        let a: Scalar = ray.direction.dot(ray.direction);
        let two: Scalar = Scalar::from_int(2);
        let ocd: Scalar = oc.dot(ray.direction);
        proof {
            lemma_smul_scale_exact(2, ocd.v as int);
        }
        let b: Scalar = two.mul(ocd);
        let c: Scalar = oc.dot(oc).sub(self.radius.mul(self.radius));
        proof {
            lemma_smul_bound(b.v as int, b.v as int, 660_000_000_000_000int, 660_000_000_000_000int);
            lemma_smul_bound(a.v as int, c.v as int, 300_000_000_000_000int, 370_000_000_000_000int);
        }
        let ac: Scalar = a.mul(c);
        let four_ac: Scalar = ac.add(ac).add(ac.add(ac));
        let discriminant: Scalar = b.mul(b).sub(four_ac);
        if discriminant.lt(Scalar::zero()) {
            None
        } else {
            proof {
                crate::scalar::lemma_isqrt((discriminant.v as int) * (SCALE as int));
                let sd = ssqrt(discriminant.v as int);
                assert(sd <= 1_000_000_000_000_000int) by (nonlinear_arith)
                    requires
                        sd >= 0,
                        sd * sd <= (discriminant.v as int) * (SCALE as int),
                        discriminant.v as int <= 880_000_000_000_000_000_000_000int,
                ;
            }
            let sd: Scalar = discriminant.sqrt();
            let num: Scalar = b.neg().sub(sd);
            proof {
                lemma_smul_scale_exact(2, a.v as int);
            }
            let den: Scalar = two.mul(a);
            let t: Scalar = num.div(den);
            if min_t.lt(t) && t.lt(max_t) {
                proof {
                    lemma_vscale_bound(
                        ray.direction.model(),
                        t.v as int,
                        10_000_000_000int,
                        1_000_000_000int,
                    );
                }
                let hit_point: Vec3 = ray.point_at_parameter(t);
                if hit_point.bounded_by(ORIGIN_LIMIT) {
                    let delta: Vec3 = hit_point.sub(*self.center());
                    let sl: Scalar = delta.squared_length();
                    if sl.v >= 1 {
                        proof {
                            lemma_vunit_bounds(delta.model());
                            lemma_vunit_slen_lower(delta.model());
                        }
                        let normal: Vec3 = delta.unit();
                        Some(Hit::new(t, Ray::new(hit_point, normal), *self.material()))
                    } else {
                        None
                    }
                } else {
                    None
                }
            } else {
                None
            }
        }
    }
}

/// A ray that starts outside a sphere, aimed straight at its center with a
/// unit direction, first meets the surface at `t = distance - radius`.  The
/// hypotheses say exactly that: the direction has unit length, the origin
/// stands `dist` along `-d` from the center under the fixed-point dot
/// products, and the squared distance and radius are exactly representable.
pub proof fn lemma_ray_at_center_hits(s: Sphere, ray: Ray, dist: int, rad: int)
    requires
        rad == s.radius.v,
        0 <= rad,
        rad < dist,
        vslen(ray.direction.model()) == SCALE,
        vdot(vsub(ray.origin.model(), s.center.model()), ray.direction.model()) == -dist,
        vdot(
            vsub(ray.origin.model(), s.center.model()),
            vsub(ray.origin.model(), s.center.model()),
        ) == smul(dist, dist),
        (dist * dist) % (SCALE as int) == 0,
        (rad * rad) % (SCALE as int) == 0,
    ensures
        s.hit_t(ray) == Some(dist - rad),
{
    let oc = vsub(ray.origin.model(), s.center.model());
    let d = ray.direction.model();
    let a = vdot(d, d);
    let b = 2 * vdot(oc, d);
    let c = vdot(oc, oc) - smul(rad, rad);
    assert(b == -2 * dist);
    // all four squared terms are exact, so the discriminant is four exact
    // squared radii
    let q_dist = (dist * dist) / (SCALE as int);
    let q_rad = (rad * rad) / (SCALE as int);
    vstd::arithmetic::div_mod::lemma_fundamental_div_mod(dist * dist, SCALE as int);
    vstd::arithmetic::div_mod::lemma_fundamental_div_mod(rad * rad, SCALE as int);
    lemma_smul_of_multiple(dist, q_dist);
    lemma_smul_of_multiple(rad, q_rad);
    assert(smul(b, b) == 4 * q_dist) by {
        assert(b * b == (4 * q_dist) * SCALE) by (nonlinear_arith)
            requires
                b == -2 * dist,
                dist * dist == (SCALE as int) * q_dist,
        ;
        lemma_smul_eq_of_multiple(b, 4 * q_dist);
    }
    assert(smul(a, c) == c) by {
        crate::scalar::lemma_smul_scale_exact(1, c);
        assert(a * c == (1 * SCALE) * c) by (nonlinear_arith)
            requires
                a == SCALE as int,
        ;
        assert(smul(a, c) == smul(1 * SCALE, c));
    }
    let disc = smul(b, b) - 4 * smul(a, c);
    assert(disc == 4 * q_rad);
    assert(disc >= 0) by (nonlinear_arith)
        requires
            disc == 4 * q_rad,
            rad * rad == (SCALE as int) * q_rad,
            rad * rad >= 0,
            SCALE as int > 0,
    ;
    // its root is exactly twice the radius
    assert(is_isqrt(disc * SCALE, 2 * rad)) by (nonlinear_arith)
        requires
            disc == 4 * q_rad,
            rad * rad == (SCALE as int) * q_rad,
            rad >= 0,
            SCALE as int > 0,
    ;
    crate::scalar::lemma_isqrt_unique(disc * SCALE, 2 * rad);
    assert(disc * SCALE >= 0) by (nonlinear_arith)
        requires
            disc >= 0,
            SCALE as int > 0,
    ;
    crate::scalar::lemma_isqrt(disc * SCALE);
    assert(ssqrt(disc) == 2 * rad);
    // and the smaller quadratic root is the distance minus the radius
    assert(-b - ssqrt(disc) == 2 * (dist - rad));
    assert((2 * (dist - rad)) % 2 == 0) by {
        vstd::arithmetic::div_mod::lemma_mod_multiples_basic(dist - rad, 2);
        assert(2 * (dist - rad) == (dist - rad) * 2) by (nonlinear_arith);
    }
    crate::scalar::lemma_sdiv_multiple_exact(2 * (dist - rad), 2);
    vstd::arithmetic::div_mod::lemma_div_multiples_vanish(dist - rad, 2);
    assert(2 * a == 2 * SCALE);
    assert(sdiv(-b - ssqrt(disc), 2 * a) == dist - rad);
}

/// The boundary policy for grazing rays: a discriminant of exactly zero still
/// reports a root, at the tangent point.
pub proof fn lemma_tangent_ray_has_root(s: Sphere, ray: Ray)
    requires
        ({
            let oc = vsub(ray.origin.model(), s.center.model());
            let d = ray.direction.model();
            let a = vdot(d, d);
            let b = 2 * vdot(oc, d);
            let c = vdot(oc, oc) - smul(s.radius.v as int, s.radius.v as int);
            smul(b, b) - 4 * smul(a, c) == 0
        }),
    ensures
        s.hit_t(ray) is Some,
{
}

/// A product known to be the scale times `q` has `q` as its scaled square.
proof fn lemma_smul_of_multiple(x: int, q: int)
    requires
        x * x == (SCALE as int) * q,
    ensures
        smul(x, x) == q,
{
    assert(x * x == q * SCALE) by (nonlinear_arith)
        requires
            x * x == (SCALE as int) * q,
    ;
    lemma_smul_eq_of_multiple(x, q);
}

/// A product of a number with itself that equals `q * SCALE` scales down to
/// exactly `q`.
proof fn lemma_smul_eq_of_multiple(x: int, q: int)
    requires
        x * x == q * SCALE,
    ensures
        smul(x, x) == q,
{
    assert(x * x >= 0) by (nonlinear_arith);
    assert(q >= 0) by (nonlinear_arith)
        requires
            x * x == q * SCALE,
            x * x >= 0,
            SCALE as int > 0,
    ;
    assert(crate::scalar::abs_int(x * x) == (SCALE as int) * q) by (nonlinear_arith)
        requires
            x * x == q * SCALE,
            x * x >= 0,
    ;
    vstd::arithmetic::div_mod::lemma_div_multiples_vanish(q, SCALE as int);
}

/// An aggregate of spheres, itself intersectable.
pub struct World {
    pub objects: Vec<Sphere>,
}

/// The nearest hit among the first `n` members, the earliest member winning
/// ties.
pub open spec fn best_prefix(
    objs: Seq<Sphere>,
    ray: Ray,
    min_t: int,
    max_t: int,
    n: int,
) -> Option<HitModel>
    decreases n,
{
    if n <= 0 {
        None
    } else {
        let prev = best_prefix(objs, ray, min_t, max_t, n - 1);
        let cur = objs[n - 1].hit_model(ray, min_t, max_t);
        match cur {
            None => prev,
            Some(c) => match prev {
                None => cur,
                Some(p) => if c.t < p.t {
                    cur
                } else {
                    prev
                },
            },
        }
    }
}

impl World {
    pub fn new(objects: Vec<Sphere>) -> (r: World)
        ensures
            r.objects == objects,
    {
        World { objects }
    }

    pub fn objects(&self) -> (r: &Vec<Sphere>)
        ensures
            r == &self.objects,
    {
        &self.objects
    }
}

impl Hittable for World {
    open spec fn wf(&self) -> bool {
        forall|i: int| 0 <= i < self.objects@.len() ==> #[trigger] self.objects@[i].wf()
    }

    open spec fn hit_model(&self, ray: Ray, min_t: int, max_t: int) -> Option<HitModel> {
        best_prefix(self.objects@, ray, min_t, max_t, self.objects@.len() as int)
    }

    fn hit(&self, ray: Ray, min_t: Scalar, max_t: Scalar) -> (r: Option<Hit>) {
        let mut best: Option<Hit> = None;
        let mut i: usize = 0;
        while i < self.objects.len()
            invariant
                0 <= i <= self.objects@.len(),
                self.wf(),
                ray_ok(ray),
                trange_ok(min_t, max_t),
                hit_matches(best, best_prefix(self.objects@, ray, min_t.v as int, max_t.v as int, i as int)),
            decreases self.objects@.len() - i,
        {
            let candidate: Option<Hit> = self.objects[i].hit(ray, min_t, max_t);
            match candidate {
                Some(h) => {
                    match &best {
                        Some(b) => {
                            if h.t.v < b.t.v {
                                best = Some(h);
                            }
                        },
                        None => {
                            best = Some(h);
                        },
                    }
                },
                None => {},
            }
            i = i + 1;
        }
        best
    }
}

/// The nearest-hit fold really is minimal: a world's hit, when there is one,
/// comes from a member and no member hits strictly closer; and a world with no
/// hitting member reports none.
pub proof fn lemma_world_hit_minimal(objs: Seq<Sphere>, ray: Ray, min_t: int, max_t: int, n: int)
    requires
        0 <= n <= objs.len(),
    ensures
        match best_prefix(objs, ray, min_t, max_t, n) {
            Some(m) => {
                &&& exists|i: int|
                    0 <= i < n && #[trigger] objs[i].hit_model(ray, min_t, max_t) == Some(m)
                &&& forall|i: int|
                    0 <= i < n && #[trigger] objs[i].hit_model(ray, min_t, max_t) is Some ==> m.t
                        <= objs[i].hit_model(ray, min_t, max_t).unwrap().t
            },
            None => forall|i: int|
                0 <= i < n ==> #[trigger] objs[i].hit_model(ray, min_t, max_t) is None,
        },
    decreases n,
{
    if n > 0 {
        lemma_world_hit_minimal(objs, ray, min_t, max_t, n - 1);
    }
}

} // verus!
