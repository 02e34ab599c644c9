use vstd::prelude::*;

use crate::scalar::Scalar;
use crate::vec3::{tri_in_range, vadd, vscale, Vec3};

verus! {

/// Largest magnitude, in units, that a ray origin or a hit point may hold.
pub const ORIGIN_LIMIT: i128 = 10_000_000_000;

/// Largest magnitude, in units, that a ray direction component may hold.
pub const DIR_LIMIT: i128 = 10_000_000_000;

/// Largest magnitude, in units, of the parametric range a hit query may use.
pub const T_LIMIT: i128 = 1_000_000_000;

/// A half-line: all points `origin + direction * t` for `t >= 0`.
#[derive(Debug, Clone, Copy, PartialEq, Eq, Structural)]
pub struct Ray {
    pub origin: Vec3,
    pub direction: Vec3,
}

/// Where a ray reaches at parameter `t`.
pub open spec fn ray_at(origin: (int, int, int), direction: (int, int, int), t: int) -> (
    int,
    int,
    int,
) {
    vadd(origin, vscale(direction, t))
}

/// A ray the tracing pipeline can work on: origin and direction within the
/// geometric limits, and a direction long enough to normalize.
pub open spec fn ray_ok(r: Ray) -> bool {
    &&& r.wf()
    &&& crate::vec3::tri_bounded(r.origin.model(), ORIGIN_LIMIT as int)
    &&& crate::vec3::tri_bounded(r.direction.model(), DIR_LIMIT as int)
    &&& crate::vec3::vslen(r.direction.model()) >= 1
}

impl Ray {
    pub open spec fn wf(self) -> bool {
        self.origin.wf() && self.direction.wf()
    }

    /// Decides `ray_ok` at run time, so a caller can guard a hit query.
    pub fn within_limits(&self) -> (r: bool)
        ensures
            r == ray_ok(*self),
    {
        if self.origin.bounded_by(ORIGIN_LIMIT) && self.direction.bounded_by(DIR_LIMIT) {
            let sl: Scalar = self.direction.squared_length();
            sl.v >= 1
        } else {
            false
        }
    }

    pub fn new(origin: Vec3, direction: Vec3) -> (r: Ray)
        ensures
            r.origin == origin,
            r.direction == direction,
    {
        Ray { origin, direction }
    }

    pub fn origin(&self) -> (r: &Vec3)
        ensures
            *r == self.origin,
    {
        &self.origin
    }

    pub fn direction(&self) -> (r: &Vec3)
        ensures
            *r == self.direction,
    {
        &self.direction
    }

    pub fn point_at_parameter(self, t: Scalar) -> (r: Vec3)
        requires
            self.wf(),
            t.wf(),
            tri_in_range(vscale(self.direction.model(), t.v as int)),
        ensures
            r.model() == ray_at(self.origin.model(), self.direction.model(), t.v as int),
            r.wf() <== tri_in_range(
                ray_at(self.origin.model(), self.direction.model(), t.v as int),
            ),
    {
        let direction_with_magnitude: Vec3 = self.direction.scale(t);
        self.origin.add(direction_with_magnitude)
    }
}

} // verus!
