use vstd::prelude::*;

use crate::ray::{Ray, DIR_LIMIT, ORIGIN_LIMIT};
use crate::sampling::{random_fraction, random_in_unit_sphere};
use crate::scalar::{
    abs_int, is_isqrt, lemma_smul_bound, lemma_smul_scale_exact, sdiv, smul, ssqrt, Scalar, SCALE,
};
use crate::vec3::{
    lemma_vdot_bound, lemma_vscale_bound, tri_bounded, vadd, vdot, vneg, vscale, vslen, vsub,
    vunit, Vec3, UNIT_BOUND,
};

verus! {

/// What a surface hands back for one incoming ray: radiance it emits directly,
/// and the scattered rays that carry the rest of the light transport.
#[derive(Debug)]
pub struct LightInteraction {
    pub directly_emitted: Vec3,
    pub scattered_rays: Vec<ScatteredRay>,
}

impl LightInteraction {
    pub fn new(directly_emitted: Vec3, scattered_rays: Vec<ScatteredRay>) -> (r:
        LightInteraction)
        ensures
            r.directly_emitted == directly_emitted,
            r.scattered_rays == scattered_rays,
    {
        LightInteraction { directly_emitted, scattered_rays }
    }

    pub fn directly_emitted(&self) -> (r: Vec3)
        ensures
            r == self.directly_emitted,
    {
        self.directly_emitted
    }

    pub fn scattered_rays(&self) -> (r: &Vec<ScatteredRay>)
        ensures
            r == &self.scattered_rays,
    {
        &self.scattered_rays
    }
}

/// One outgoing ray together with the per-channel attenuation its radiance
/// contribution is multiplied by.
#[derive(Debug, Clone, Copy, PartialEq, Eq, Structural)]
pub struct ScatteredRay {
    pub ray: Ray,
    pub attenuation: Vec3,
}

impl ScatteredRay {
    pub fn new(ray: Ray, attenuation: Vec3) -> (r: ScatteredRay)
        ensures
            r.ray == ray,
            r.attenuation == attenuation,
    {
        ScatteredRay { ray, attenuation }
    }

    pub fn ray(self) -> (r: Ray)
        ensures
            r == self.ray,
    {
        self.ray
    }

    pub fn attenuation(self) -> (r: Vec3)
        ensures
            r == self.attenuation,
    {
        self.attenuation
    }
}

/// The closed set of surface behaviors.
#[derive(Debug, Clone, Copy, PartialEq, Eq, Structural)]
pub enum Material {
    Normal {},
    Lambertian { albedo: Vec3 },
    Metal { albedo: Vec3, fuzz: Scalar },
    Dielectric { refractive_index: Scalar },
}

/// An attenuation factor: each channel within [0, 1].
pub open spec fn albedo_ok(a: (int, int, int)) -> bool {
    &&& 0 <= a.0 <= SCALE
    &&& 0 <= a.1 <= SCALE
    &&& 0 <= a.2 <= SCALE
}

impl Material {
    pub open spec fn wf(self) -> bool {
        match self {
            Material::Normal {} => true,
            Material::Lambertian { albedo } => albedo_ok(albedo.model()),
            Material::Metal { albedo, fuzz } => albedo_ok(albedo.model()) && 0 <= fuzz.v <= SCALE,
            Material::Dielectric { refractive_index } => SCALE <= refractive_index.v <= 10
                * SCALE,
        }
    }
}

/// A hit normal as the geometry hands it out: anchored at the hit point, with
/// a direction of unit length up to rounding.
pub open spec fn normal_ok(n: Ray) -> bool {
    &&& n.wf()
    &&& tri_bounded(n.origin.model(), ORIGIN_LIMIT as int)
    &&& tri_bounded(n.direction.model(), UNIT_BOUND as int)
    &&& vslen(n.direction.model()) >= 1
}

/// The mirror image of `d` about the plane with normal `n`.
pub open spec fn reflect_m(d: (int, int, int), n: (int, int, int)) -> (int, int, int) {
    vsub(d, vscale(n, 2 * vdot(d, n)))
}

/// Snell refraction of `d` at a surface with outward unit normal `n`, for the
/// given ratio of refractive indices; `None` under total internal reflection.
pub open spec fn refract_m(d: (int, int, int), n: (int, int, int), ni_over_nt: int) -> Option<
    (int, int, int),
> {
    let u = vunit(d);
    let dt = vdot(u, n);
    let disc = SCALE - smul(smul(ni_over_nt, ni_over_nt), SCALE - smul(dt, dt));
    if disc > 0 {
        Some(vsub(vscale(vsub(u, vscale(n, dt)), ni_over_nt), vscale(n, ssqrt(disc))))
    } else {
        None
    }
}

/// The fifth power of a scalar, rounded as the chained products round.
pub open spec fn pow5_m(x: int) -> int {
    smul(smul(smul(smul(x, x), x), x), x)
}

/// Schlick's approximation of the Fresnel reflectance.
pub open spec fn schlick_m(cosine: int, refractive_index: int) -> int {
    let r0p = sdiv(SCALE - refractive_index, SCALE + refractive_index);
    let r0 = smul(r0p, r0p);
    r0 + smul(SCALE - r0, pow5_m(SCALE - cosine))
}

/// The debug material: emits the unit normal shifted into color range and
/// scatters nothing.
pub open spec fn is_normal_interaction(r: LightInteraction, hit_normal: Ray) -> bool {
    &&& r.directly_emitted.model() == vadd(
        hit_normal.direction.model(),
        (SCALE as int, SCALE as int, SCALE as int),
    )
    &&& r.scattered_rays@.len() == 0
}

/// Diffuse scatter toward `normal + sample`, attenuated by the albedo.
pub open spec fn is_lambertian_interaction(
    r: LightInteraction,
    hit_normal: Ray,
    albedo: Vec3,
    sample: (int, int, int),
) -> bool {
    &&& r.directly_emitted.model() == (0int, 0int, 0int)
    &&& r.scattered_rays@.len() == 1
    &&& r.scattered_rays@[0].ray.origin == hit_normal.origin
    &&& r.scattered_rays@[0].ray.direction.model() == vadd(hit_normal.direction.model(), sample)
    &&& r.scattered_rays@[0].attenuation == albedo
}

/// Mirror reflection perturbed by `fuzz * sample`; the ray is kept only when
/// it leaves the surface.
pub open spec fn is_metal_interaction(
    r: LightInteraction,
    ray: Ray,
    hit_normal: Ray,
    albedo: Vec3,
    fuzz: Scalar,
    sample: (int, int, int),
) -> bool {
    let dir = vadd(
        reflect_m(ray.direction.model(), hit_normal.direction.model()),
        vscale(sample, fuzz.v as int),
    );
    &&& r.directly_emitted.model() == (0int, 0int, 0int)
    &&& if vdot(dir, hit_normal.direction.model()) > 0 {
        &&& r.scattered_rays@.len() == 1
        &&& r.scattered_rays@[0].ray.origin == hit_normal.origin
        &&& r.scattered_rays@[0].ray.direction.model() == dir
        &&& r.scattered_rays@[0].attenuation == albedo
    } else {
        r.scattered_rays@.len() == 0
    }
}

/// Refraction when Snell's law allows it and the Schlick draw favors it,
/// otherwise mirror reflection; always colorless.
pub open spec fn is_dielectric_interaction(
    r: LightInteraction,
    ray: Ray,
    hit_normal: Ray,
    refractive_index: Scalar,
    draw: Scalar,
) -> bool {
    let refl = reflect_m(ray.direction.model(), hit_normal.direction.model());
    let u = vunit(ray.direction.model());
    let nu = vunit(hit_normal.direction.model());
    let cos0 = vdot(u, nu);
    let outward = if cos0 > 0 {
        vneg(nu)
    } else {
        nu
    };
    let eta = if cos0 > 0 {
        refractive_index.v as int
    } else {
        sdiv(SCALE as int, refractive_index.v as int)
    };
    let cosine = if cos0 > 0 {
        smul(refractive_index.v as int, cos0)
    } else {
        -cos0
    };
    let chosen = match refract_m(ray.direction.model(), outward, eta) {
        Some(rd) => if schlick_m(cosine, refractive_index.v as int) < draw.v {
            rd
        } else {
            refl
        },
        None => refl,
    };
    &&& r.directly_emitted.model() == (0int, 0int, 0int)
    &&& r.scattered_rays@.len() == 1
    &&& r.scattered_rays@[0].ray.origin == hit_normal.origin
    &&& r.scattered_rays@[0].ray.direction.model() == chosen
    &&& r.scattered_rays@[0].attenuation.model() == (SCALE as int, SCALE as int, SCALE as int)
}

/// What `Material::interact` promises: the interaction matches the material's
/// scattering rule for some admissible random draw.
pub open spec fn interact_ensures(m: Material, r: LightInteraction, ray: Ray, hit_normal: Ray) -> bool {
    match m {
        Material::Normal {} => is_normal_interaction(r, hit_normal),
        Material::Lambertian { albedo } => exists|s: (int, int, int)|
            tri_bounded(s, SCALE as int) && vslen(s) < SCALE && is_lambertian_interaction(
                r,
                hit_normal,
                albedo,
                s,
            ),
        Material::Metal { albedo, fuzz } => exists|s: (int, int, int)|
            tri_bounded(s, SCALE as int) && vslen(s) < SCALE && is_metal_interaction(
                r,
                ray,
                hit_normal,
                albedo,
                fuzz,
                s,
            ),
        Material::Dielectric { refractive_index } => exists|draw: Scalar|
            (0 <= draw.v < SCALE) && is_dielectric_interaction(
                r,
                ray,
                hit_normal,
                refractive_index,
                draw,
            ),
    }
}

/// Lambertian scatter always attenuates by exactly the albedo and emits no
/// direct radiance, whatever point the sampler drew.
pub proof fn lemma_lambertian_law(
    r: LightInteraction,
    hit_normal: Ray,
    albedo: Vec3,
    sample: (int, int, int),
)
    requires
        is_lambertian_interaction(r, hit_normal, albedo, sample),
    ensures
        r.directly_emitted.model() == (0int, 0int, 0int),
        forall|q: int|
            0 <= q < r.scattered_rays@.len() ==> (#[trigger] r.scattered_rays@[q]).attenuation
                == albedo,
{
}

/// Metal with zero fuzz is a perfect mirror: off a surface whose unit normal
/// points straight up, the scattered ray flips exactly the vertical component
/// of the incoming direction, and survives exactly when that points up.
pub proof fn lemma_metal_mirror(
    r: LightInteraction,
    ray: Ray,
    hit_normal: Ray,
    albedo: Vec3,
    sample: (int, int, int),
)
    requires
        is_metal_interaction(r, ray, hit_normal, albedo, (Scalar { v: 0 }), sample),
        hit_normal.direction.model() == (0int, SCALE as int, 0int),
    ensures
        ({
            let d = ray.direction.model();
            if d.1 < 0 {
                r.scattered_rays@.len() == 1 && r.scattered_rays@[0].ray.direction.model() == (
                    d.0,
                    -d.1,
                    d.2,
                )
            } else {
                r.scattered_rays@.len() == 0
            }
        }),
{
    let d = ray.direction.model();
    let n = hit_normal.direction.model();
    lemma_smul_zero(d.0);
    lemma_smul_zero(d.2);
    lemma_smul_zero(sample.0);
    lemma_smul_zero(sample.1);
    lemma_smul_zero(sample.2);
    lemma_smul_one_exact(d.1);
    lemma_smul_scale_exact(2, vdot(d, n));
    assert(vdot(d, n) == d.1);
    lemma_smul_one_exact(2 * d.1);
    assert(reflect_m(d, n) == (d.0, -d.1, d.2));
    let dir = vadd(reflect_m(d, n), vscale(sample, 0));
    assert(dir == (d.0, -d.1, d.2));
    lemma_smul_zero(dir.0);
    lemma_smul_one_exact(dir.1);
    lemma_smul_zero(dir.2);
    assert(vdot(dir, n) == -d.1);
}

/// Scaling by zero gives zero.
proof fn lemma_smul_zero(a: int)
    ensures
        smul(a, 0) == 0,
        smul(0, a) == 0,
{
    assert(a * 0 == 0) by (nonlinear_arith);
    assert(0 * a == 0) by (nonlinear_arith);
    vstd::arithmetic::div_mod::lemma_div_of0(SCALE as int);
}

/// Scaling by one is exact.
proof fn lemma_smul_one_exact(a: int)
    ensures
        smul(a, SCALE as int) == a,
        smul(SCALE as int, a) == a,
{
    assert(a * SCALE == SCALE as int * a) by (nonlinear_arith);
    lemma_smul_scale_exact(1, a);
    assert(1 * SCALE == SCALE);
    assert(smul(1 * SCALE, a) == 1 * a);
}

/// A dielectric with refractive index one bends nothing: whenever the Schlick
/// draw chooses refraction, the ray continues exactly along its own unit
/// direction, entering or exiting alike.  The rounding condition asks that
/// the square of the cosine be exactly representable.
pub proof fn lemma_dielectric_straight_through(
    r: LightInteraction,
    ray: Ray,
    hit_normal: Ray,
    draw: Scalar,
)
    requires
        is_dielectric_interaction(r, ray, hit_normal, (Scalar { v: SCALE }), draw),
        ({
            let dt = vdot(vunit(ray.direction.model()), vunit(hit_normal.direction.model()));
            &&& (dt * dt) % (SCALE as int) == 0
            &&& smul(dt, dt) >= 1
            &&& schlick_m(abs_int(dt), SCALE as int) < draw.v
        }),
    ensures
        r.scattered_rays@.len() == 1,
        r.scattered_rays@[0].ray.direction.model() == vunit(ray.direction.model()),
{
    let u = vunit(ray.direction.model());
    let nu = vunit(hit_normal.direction.model());
    let cos0 = vdot(u, nu);
    let outward = if cos0 > 0 {
        vneg(nu)
    } else {
        nu
    };
    // the cosine against the chosen outward normal is never positive
    lemma_smul_neg(u.0, nu.0);
    lemma_smul_neg(u.1, nu.1);
    lemma_smul_neg(u.2, nu.2);
    assert(u.0 * -nu.0 == -(u.0 * nu.0) && u.1 * -nu.1 == -(u.1 * nu.1) && u.2 * -nu.2 == -(u.2
        * nu.2)) by (nonlinear_arith);
    let dt = vdot(u, outward);
    assert(dt == -abs_int(cos0) || dt == cos0);
    assert(dt <= 0);
    assert(dt * dt == cos0 * cos0) by (nonlinear_arith)
        requires
            dt == cos0 || dt == -cos0,
    ;
    // with index one, both refraction ratios are exactly one
    vstd::arithmetic::div_mod::lemma_div_multiples_vanish(SCALE as int, SCALE as int);
    lemma_smul_one_exact(SCALE as int);
    assert(sdiv(SCALE as int, SCALE as int) == SCALE) by {
        assert(abs_int((SCALE as int) * SCALE) == (SCALE as int) * SCALE);
        assert(((SCALE as int) * SCALE) / (SCALE as int) == SCALE);
    }
    let eta = if cos0 > 0 {
        SCALE as int
    } else {
        sdiv(SCALE as int, SCALE as int)
    };
    assert(eta == SCALE);
    let dt2 = smul(dt, dt);
    assert(dt2 == smul(cos0, cos0));
    lemma_smul_one_exact(SCALE as int - dt2);
    // the refraction discriminant collapses to the squared cosine
    let disc = SCALE - smul(smul(eta, eta), SCALE - dt2);
    assert(disc == dt2);
    // its square root is exactly the cosine's magnitude
    vstd::arithmetic::div_mod::lemma_fundamental_div_mod(dt * dt, SCALE as int);
    assert(dt * dt >= 0) by (nonlinear_arith);
    assert(dt2 * SCALE == dt * dt);
    assert(is_isqrt(dt * dt, -dt)) by (nonlinear_arith)
        requires
            dt <= 0,
    ;
    crate::scalar::lemma_isqrt_unique(dt * dt, -dt);
    crate::scalar::lemma_isqrt(dt * dt);
    assert(ssqrt(disc) == -dt);
    // the Schlick comparison uses the cosine's magnitude in either branch
    lemma_smul_one_exact(cos0);
    assert((if cos0 > 0 {
        smul(SCALE as int, cos0)
    } else {
        -cos0
    }) == abs_int(cos0));
    // the refracted direction collapses to the incoming unit direction
    let inner = vsub(u, vscale(outward, dt));
    lemma_smul_one_exact(inner.0);
    lemma_smul_one_exact(inner.1);
    lemma_smul_one_exact(inner.2);
    assert(smul(outward.0, -dt) == -smul(outward.0, dt)) by {
        lemma_smul_neg(outward.0, dt);
    }
    assert(smul(outward.1, -dt) == -smul(outward.1, dt)) by {
        lemma_smul_neg(outward.1, dt);
    }
    assert(smul(outward.2, -dt) == -smul(outward.2, dt)) by {
        lemma_smul_neg(outward.2, dt);
    }
    assert(refract_m(ray.direction.model(), outward, eta) == Some(u));
}

/// Negating one factor negates the scaled product.
proof fn lemma_smul_neg(a: int, b: int)
    ensures
        smul(a, -b) == -smul(a, b),
{
    assert(a * (-b) == -(a * b)) by (nonlinear_arith);
}

/// What the radiance integrator needs of every interaction, whichever draw was
/// made: bounded direct emission, at most one scattered ray, and attenuation
/// factors within [0, 1].
pub proof fn lemma_interaction_facts(m: Material, r: LightInteraction, ray: Ray, hit_normal: Ray)
    requires
        m.wf(),
        normal_ok(hit_normal),
        interact_ensures(m, r, ray, hit_normal),
    ensures
        tri_bounded(r.directly_emitted.model(), 3_002_000int),
        r.scattered_rays@.len() <= 1,
        forall|q: int|
            0 <= q < r.scattered_rays@.len() ==> albedo_ok(
                #[trigger] r.scattered_rays@[q].attenuation.model(),
            ),
{
    match m {
        Material::Normal {} => {},
        Material::Lambertian { albedo } => {
            let s = choose|s: (int, int, int)|
                tri_bounded(s, SCALE as int) && vslen(s) < SCALE && is_lambertian_interaction(
                    r,
                    hit_normal,
                    albedo,
                    s,
                );
            assert(is_lambertian_interaction(r, hit_normal, albedo, s));
        },
        Material::Metal { albedo, fuzz } => {
            let s = choose|s: (int, int, int)|
                tri_bounded(s, SCALE as int) && vslen(s) < SCALE && is_metal_interaction(
                    r,
                    ray,
                    hit_normal,
                    albedo,
                    fuzz,
                    s,
                );
            assert(is_metal_interaction(r, ray, hit_normal, albedo, fuzz, s));
        },
        Material::Dielectric { refractive_index } => {
            let draw = choose|draw: Scalar|
                (0 <= draw.v < SCALE) && is_dielectric_interaction(
                    r,
                    ray,
                    hit_normal,
                    refractive_index,
                    draw,
                );
            assert(is_dielectric_interaction(r, ray, hit_normal, refractive_index, draw));
        },
    }
}

impl Material {
    /// The material's response to `ray` striking the surface described by
    /// `hit_normal`, with fresh random draws for the probabilistic choices.
    pub fn interact(&self, ray: Ray, hit_normal: &Ray) -> (r: LightInteraction)
        requires
            self.wf(),
            ray.wf(),
            tri_bounded(ray.direction.model(), DIR_LIMIT as int),
            vslen(ray.direction.model()) >= 1,
            normal_ok(*hit_normal),
        ensures
            interact_ensures(*self, r, ray, *hit_normal),
    {
        match self {
            Material::Normal {} => {
                let ones: Vec3 = Vec3::new(Scalar::one(), Scalar::one(), Scalar::one());
                LightInteraction::new(hit_normal.direction.add(ones), Vec::new())
            },
            Material::Lambertian { albedo } => {
                let sample: Vec3 = random_in_unit_sphere();
                interact_with_lambertian(hit_normal, albedo, sample)
            },
            Material::Metal { albedo, fuzz } => {
                let sample: Vec3 = random_in_unit_sphere();
                interact_with_metal(ray, hit_normal, albedo, fuzz, sample)
            },
            Material::Dielectric { refractive_index } => {
                let draw: Scalar = random_fraction();
                interact_with_dielectric(ray, hit_normal, refractive_index, draw)
            },
        }
    }
}

/// Diffuse scatter: aim at the hit point moved along the normal and jittered
/// by a point of the unit ball.
pub fn interact_with_lambertian(hit_normal: &Ray, albedo: &Vec3, sample: Vec3) -> (r:
    LightInteraction)
    requires
        normal_ok(*hit_normal),
        albedo_ok(albedo.model()),
        sample.wf(),
        tri_bounded(sample.model(), SCALE as int),
    ensures
        is_lambertian_interaction(r, *hit_normal, *albedo, sample.model()),
{
    let target: Vec3 = hit_normal.origin.add(hit_normal.direction).add(sample);
    let direction: Vec3 = target.sub(hit_normal.origin);
    let mut scattered_rays: Vec<ScatteredRay> = Vec::new();
    scattered_rays.push(ScatteredRay::new(Ray::new(hit_normal.origin, direction), *albedo));
    LightInteraction::new(Vec3::new(Scalar::zero(), Scalar::zero(), Scalar::zero()), scattered_rays)
}

/// Mirror reflection with fuzz; the ray is dropped when it would re-enter the
/// surface.
pub fn interact_with_metal(
    ray: Ray,
    hit_normal: &Ray,
    albedo: &Vec3,
    fuzz: &Scalar,
    sample: Vec3,
) -> (r: LightInteraction)
    requires
        ray.wf(),
        tri_bounded(ray.direction.model(), DIR_LIMIT as int),
        normal_ok(*hit_normal),
        albedo_ok(albedo.model()),
        0 <= fuzz.v <= SCALE,
        sample.wf(),
        tri_bounded(sample.model(), SCALE as int),
    ensures
        is_metal_interaction(r, ray, *hit_normal, *albedo, *fuzz, sample.model()),
{
    let reflected: Vec3 = reflect(ray.direction, &hit_normal.direction);
    proof {
        lemma_smul_bound(sample.x.v as int, fuzz.v as int, SCALE as int, SCALE as int);
        lemma_smul_bound(sample.y.v as int, fuzz.v as int, SCALE as int, SCALE as int);
        lemma_smul_bound(sample.z.v as int, fuzz.v as int, SCALE as int, SCALE as int);
    }
    let direction: Vec3 = reflected.add(sample.scale(*fuzz));
    proof {
        lemma_vdot_bound(
            direction.model(),
            hit_normal.direction.model(),
            401_000_000_000int,
            UNIT_BOUND as int,
        );
    }
    let keep: Scalar = direction.dot(hit_normal.direction);
    let mut scattered_rays: Vec<ScatteredRay> = Vec::new();
    if keep.gt(Scalar::zero()) {
        scattered_rays.push(ScatteredRay::new(Ray::new(hit_normal.origin, direction), *albedo));
    }
    LightInteraction::new(Vec3::new(Scalar::zero(), Scalar::zero(), Scalar::zero()), scattered_rays)
}

/// The mirror image of `inbound` about the plane with normal `normal`.
pub fn reflect(inbound: Vec3, normal: &Vec3) -> (r: Vec3)
    requires
        inbound.wf(),
        normal.wf(),
        tri_bounded(inbound.model(), DIR_LIMIT as int),
        tri_bounded(normal.model(), UNIT_BOUND as int),
    ensures
        r.model() == reflect_m(inbound.model(), normal.model()),
        tri_bounded(r.model(), 400_000_000_000int),
        r.wf(),
{
    proof {
        lemma_vdot_bound(inbound.model(), normal.model(), DIR_LIMIT as int, UNIT_BOUND as int);
    }
    let dn: Scalar = inbound.dot(*normal);
    let two: Scalar = Scalar::from_int(2);
    proof {
        lemma_smul_scale_exact(2, dn.v as int);
        lemma_vscale_bound(
            normal.model(),
            2 * (dn.v as int),
            UNIT_BOUND as int,
            130_000_000_000int,
        );
    }
    let twice: Scalar = two.mul(dn);
    inbound.sub(normal.scale(twice))
}

/// Snell refraction; `None` under total internal reflection.
pub fn refract(inbound: Vec3, normal: &Vec3, ni_over_nt: Scalar) -> (r: Option<Vec3>)
    requires
        inbound.wf(),
        tri_bounded(inbound.model(), DIR_LIMIT as int),
        vslen(inbound.model()) >= 1,
        normal.wf(),
        tri_bounded(normal.model(), UNIT_BOUND as int),
        0 <= ni_over_nt.v <= 10 * SCALE,
    ensures
        match r {
            Some(v) => refract_m(inbound.model(), normal.model(), ni_over_nt.v as int)
                == Some(v.model()) && v.wf() && tri_bounded(v.model(), 1_000_000_000int),
            None => refract_m(inbound.model(), normal.model(), ni_over_nt.v as int) is None,
        },
{
    let inbound_unit: Vec3 = inbound.unit();
    proof {
        lemma_vdot_bound(
            inbound_unit.model(),
            normal.model(),
            UNIT_BOUND as int,
            UNIT_BOUND as int,
        );
        lemma_smul_bound(ni_over_nt.v as int, ni_over_nt.v as int, 10_000_000int, 10_000_000int);
    }
    let dt: Scalar = inbound_unit.dot(*normal);
    let eta2: Scalar = ni_over_nt.mul(ni_over_nt);
    proof {
        lemma_smul_bound(dt.v as int, dt.v as int, 13_000_000int, 13_000_000int);
    }
    let dt2: Scalar = dt.mul(dt);
    let one: Scalar = Scalar::one();
    proof {
        lemma_smul_bound(eta2.v as int, one.v as int - dt2.v as int, 100_000_000int,
            170_000_000int);
    }
    let discriminant: Scalar = one.sub(eta2.mul(one.sub(dt2)));
    if discriminant.gt(Scalar::zero()) {
        proof {
            lemma_vscale_bound(normal.model(), dt.v as int, UNIT_BOUND as int, 13_000_000int);
            lemma_vscale_bound(
                vsub(inbound_unit.model(), vscale(normal.model(), dt.v as int)),
                ni_over_nt.v as int,
                29_000_000int,
                10 * SCALE as int,
            );
            crate::scalar::lemma_isqrt_monotonic(
                (discriminant.v as int) * SCALE,
                17_100_000_000int * SCALE,
            );
            crate::scalar::lemma_isqrt(17_100_000_000int * (SCALE as int));
            crate::scalar::lemma_isqrt((discriminant.v as int) * (SCALE as int));
            let rb = ssqrt(17_100_000_000int);
            assert(rb <= 131_000_000int) by (nonlinear_arith)
                requires
                    rb * rb <= 17_100_000_000int * 1_000_000int,
                    rb >= 0,
            ;
            lemma_vscale_bound(
                normal.model(),
                ssqrt(discriminant.v as int),
                UNIT_BOUND as int,
                131_000_000int,
            );
        }
        let sq: Scalar = discriminant.sqrt();
        let refracted: Vec3 = inbound_unit.sub(normal.scale(dt)).scale(ni_over_nt).sub(
            normal.scale(sq),
        );
        Some(refracted)
    } else {
        None
    }
}

/// Refraction when possible and favored by the Schlick draw, else reflection.
pub fn interact_with_dielectric(
    ray: Ray,
    hit_normal: &Ray,
    refractive_index: &Scalar,
    draw: Scalar,
) -> (r: LightInteraction)
    requires
        ray.wf(),
        tri_bounded(ray.direction.model(), DIR_LIMIT as int),
        vslen(ray.direction.model()) >= 1,
        normal_ok(*hit_normal),
        SCALE <= refractive_index.v <= 10 * SCALE,
    ensures
        is_dielectric_interaction(r, ray, *hit_normal, *refractive_index, draw),
{
    let reflected: Vec3 = reflect(ray.direction, &hit_normal.direction);
    let hit_normal_unit: Vec3 = hit_normal.direction.unit();
    let ray_unit: Vec3 = ray.direction.unit();
    proof {
        lemma_vdot_bound(
            ray_unit.model(),
            hit_normal_unit.model(),
            UNIT_BOUND as int,
            UNIT_BOUND as int,
        );
    }
    let cos0: Scalar = ray_unit.dot(hit_normal_unit);
    let one: Scalar = Scalar::one();
    let (outward, ni_over_nt, cosine): (Vec3, Scalar, Scalar) = if cos0.gt(Scalar::zero()) {
        proof {
            lemma_smul_bound(refractive_index.v as int, cos0.v as int, 10 * SCALE as int,
                13_000_000int);
        }
        (hit_normal_unit.neg(), *refractive_index, refractive_index.mul(cos0))
    } else {
        proof {
            crate::scalar::lemma_div_to_zero_denom(
                (SCALE as int) * SCALE,
                (SCALE as int) * SCALE,
                refractive_index.v as int,
                SCALE as int,
            );
            vstd::arithmetic::div_mod::lemma_div_of0(refractive_index.v as int);
            vstd::arithmetic::div_mod::lemma_div_is_ordered(
                0,
                (SCALE as int) * SCALE,
                refractive_index.v as int,
            );
        }
        (hit_normal_unit, one.div(*refractive_index), cos0.neg())
    };
    let refracted: Option<Vec3> = refract(ray.direction, &outward, ni_over_nt);
    let direction: Vec3 = match refracted {
        Some(rd) => {
            let s: Scalar = schlick(cosine, *refractive_index);
            if s.lt(draw) {
                rd
            } else {
                reflected
            }
        },
        None => reflected,
    };
    let mut scattered_rays: Vec<ScatteredRay> = Vec::new();
    scattered_rays.push(
        ScatteredRay::new(
            Ray::new(hit_normal.origin, direction),
            Vec3::new(Scalar::one(), Scalar::one(), Scalar::one()),
        ),
    );
    LightInteraction::new(Vec3::new(Scalar::zero(), Scalar::zero(), Scalar::zero()), scattered_rays)
}

/// Schlick's approximation of the Fresnel reflectance.
pub fn schlick(cosine: Scalar, refractive_index: Scalar) -> (r: Scalar)
    requires
        abs_int(cosine.v as int) <= 130_000_000,
        SCALE <= refractive_index.v <= 10 * SCALE,
    ensures
        r.v == schlick_m(cosine.v as int, refractive_index.v as int),
{
    let one: Scalar = Scalar::one();
    let r0p: Scalar = one.sub(refractive_index).div(one.add(refractive_index));
    proof {
        crate::scalar::lemma_div_to_zero_denom(
            (one.v as int - refractive_index.v as int) * SCALE,
            9 * (SCALE as int) * SCALE,
            one.v as int + refractive_index.v as int,
            2 * SCALE as int,
        );
        lemma_smul_bound(r0p.v as int, r0p.v as int, 4_500_000int, 4_500_000int);
    }
    let r0: Scalar = r0p.mul(r0p);
    let x: Scalar = one.sub(cosine);
    proof {
        lemma_smul_bound(x.v as int, x.v as int, 131_000_000int, 131_000_000int);
        lemma_smul_bound(smul(x.v as int, x.v as int), x.v as int, 17_200_000_000int,
            131_000_000int);
        lemma_smul_bound(
            smul(smul(x.v as int, x.v as int), x.v as int),
            x.v as int,
            2_253_300_000_000int,
            131_000_000int,
        );
        lemma_smul_bound(
            smul(smul(smul(x.v as int, x.v as int), x.v as int), x.v as int),
            x.v as int,
            295_200_000_000_000int,
            131_000_000int,
        );
    }
    let x5: Scalar = x.mul(x).mul(x).mul(x).mul(x);
    proof {
        lemma_smul_bound(
            one.v as int - r0.v as int,
            x5.v as int,
            82_000_000_000_000_000int,
            38_700_000_000_000_000_000int,
        );
    }
    r0.add(one.sub(r0).mul(x5))
}

} // verus!
