use vstd::prelude::*;

use crate::scalar::{Scalar, SCALE};
use crate::vec3::{tri_bounded, vdot, vslen, Vec3};

verus! {

/// Relies on `rand::thread_rng` and `rand::Rng::gen_range`: a draw from the
/// half-open range `0..bound`, which is nonempty because `bound > 0`.
#[verifier::external_body]
fn random_below(bound: u64) -> (r: u64)
    requires
        bound > 0,
    ensures
        r < bound,
{
    rand::Rng::gen_range(&mut rand::thread_rng(), 0..bound)
}

/// A fresh scalar draw from `[0, 1)`.
pub fn random_fraction() -> (r: Scalar)
    ensures
        0 <= r.v < SCALE,
        r.wf(),
{
    let u: u64 = random_below(1_000_000);
    Scalar::from_units(u as i128)
}

/// A fresh scalar draw from `(-1, 1)`: a point of `[0, 1)` stretched to the
/// symmetric interval, as the rejection samplers below need.
fn random_symmetric() -> (r: Scalar)
    ensures
        -SCALE < r.v < SCALE,
        r.wf(),
{
    let u: u64 = random_below(1_000_000);
    let d: i128 = 2 * (u as i128) - (SCALE - 1);
    Scalar::from_units(d)
}

/// A point drawn from the open unit ball: its squared length is below one.
/// Rejection sampling as the scatter formulas ask; if no draw lands inside
/// after many tries the center is taken, which also lies inside.
pub fn random_in_unit_sphere() -> (r: Vec3)
    ensures
        vslen(r.model()) < SCALE,
        tri_bounded(r.model(), SCALE as int),
        r.wf(),
{
    let mut tries: u32 = 64;
    while tries > 0
        invariant
            true,
        decreases tries,
    {
        let p: Vec3 = Vec3::new(random_symmetric(), random_symmetric(), random_symmetric());
        let sl: Scalar = p.squared_length();
        if sl.v < SCALE {
            return p;
        }
        tries = tries - 1;
    }
    Vec3::new(Scalar::zero(), Scalar::zero(), Scalar::zero())
}

/// A point drawn from the open unit disk in the xy-plane.
pub fn random_in_unit_disk() -> (r: Vec3)
    ensures
        vdot(r.model(), r.model()) < SCALE,
        tri_bounded(r.model(), SCALE as int),
        r.model().2 == 0,
        r.wf(),
{
    let mut tries: u32 = 64;
    while tries > 0
        invariant
            true,
        decreases tries,
    {
        let p: Vec3 = Vec3::new(random_symmetric(), random_symmetric(), Scalar::zero());
        let d: Scalar = p.dot(p);
        if d.v < SCALE {
            return p;
        }
        tries = tries - 1;
    }
    Vec3::new(Scalar::zero(), Scalar::zero(), Scalar::zero())
}

} // verus!
