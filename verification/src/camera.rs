use vstd::prelude::*;

use crate::ray::{Ray, DIR_LIMIT, ORIGIN_LIMIT};
use crate::sampling::random_in_unit_disk;
use crate::scalar::{
    lemma_div_to_zero_denom, lemma_smul_bound, lemma_smul_scale_exact, sdiv, smul, Scalar, SCALE,
};
use crate::vec3::{
    lemma_vcross_bound, lemma_vscale_bound, lemma_vunit_bounds, spec_vec3, tri_bounded, vadd,
    vcross, vdot, vscale, vslen, vsub, vunit, Vec3,
};

verus! {

/// Largest magnitude, in units, of the camera's image-plane vectors.
pub const CAM_PLANE_LIMIT: i128 = 2_000_000_000;

/// Largest magnitude, in units, of the camera's basis vectors.
pub const CAM_AXIS_LIMIT: i128 = 9_000_000;

/// Maps normalized image-plane coordinates, and a lens-disk sample, to a
/// world-space ray.
#[derive(Debug, Clone, Copy, PartialEq, Eq, Structural)]
pub struct Camera {
    pub location: Vec3,
    pub lower_left: Vec3,
    pub horizontal: Vec3,
    pub vertical: Vec3,
    pub u: Vec3,
    pub v: Vec3,
    pub w: Vec3,
    pub lens_radius: Scalar,
}

/// Everything `Camera::new` computes, as a function of its arguments: the
/// orthonormal basis, the image-plane rectangle at the focal plane, and the
/// lens radius.
pub open spec fn camera_model(
    location: Vec3,
    look_at: Vec3,
    vup: Vec3,
    half_height: int,
    aspect: int,
    aperture: int,
    focus: int,
) -> Camera {
    let w = vunit(vsub(location.model(), look_at.model()));
    let u = vunit(vcross(vunit(vup.model()), w));
    let v = vcross(w, u);
    let half_width = smul(aspect, half_height);
    let hwf = smul(half_width, focus);
    let hhf = smul(half_height, focus);
    Camera {
        location,
        lower_left: spec_vec3(
            vsub(vsub(vsub(location.model(), vscale(u, hwf)), vscale(v, hhf)), vscale(w, focus)),
        ),
        horizontal: spec_vec3(vscale(u, smul(2 * half_width, focus))),
        vertical: spec_vec3(vscale(v, smul(2 * half_height, focus))),
        u: spec_vec3(u),
        v: spec_vec3(v),
        w: spec_vec3(w),
        lens_radius: Scalar { v: sdiv(aperture, 2 * SCALE) as i128 },
    }
}

/// The ray the camera emits for image fractions `(s, t)` and lens sample `rd`:
/// from the lens point through the image-plane point.
pub open spec fn camera_ray(c: Camera, s: int, t: int, rd: (int, int, int)) -> (
    (int, int, int),
    (int, int, int),
) {
    let scaled = vscale(rd, c.lens_radius.v as int);
    let offset = vsub(vscale(c.u.model(), scaled.0), vscale(c.v.model(), scaled.1));
    let origin = vadd(c.location.model(), offset);
    let direction = vsub(
        vsub(
            vadd(
                vadd(c.lower_left.model(), vscale(c.horizontal.model(), s)),
                vscale(c.vertical.model(), t),
            ),
            c.location.model(),
        ),
        offset,
    );
    (origin, direction)
}

impl Camera {
    pub open spec fn wf(self) -> bool {
        &&& self.location.wf() && tri_bounded(self.location.model(), 1_000_000_000int)
        &&& self.lower_left.wf() && tri_bounded(self.lower_left.model(), CAM_PLANE_LIMIT as int)
        &&& self.horizontal.wf() && tri_bounded(self.horizontal.model(), CAM_PLANE_LIMIT as int)
        &&& self.vertical.wf() && tri_bounded(self.vertical.model(), CAM_PLANE_LIMIT as int)
        &&& self.u.wf() && tri_bounded(self.u.model(), CAM_AXIS_LIMIT as int)
        &&& self.v.wf() && tri_bounded(self.v.model(), CAM_AXIS_LIMIT as int)
        &&& self.w.wf() && tri_bounded(self.w.model(), CAM_AXIS_LIMIT as int)
        &&& self.lens_radius.wf() && 0 <= self.lens_radius.v <= SCALE
    }

    /// Builds the camera from eye position, look-at target, view-up vector,
    /// the tangent of half the vertical field of view, aspect ratio, aperture
    /// and focus distance.  The caller supplies the tangent directly, in
    /// fixed point.
    pub fn new(
        location: Vec3,
        look_at: Vec3,
        vup: Vec3,
        half_height: Scalar,
        aspect: Scalar,
        aperture: Scalar,
        focus_distance: Scalar,
    ) -> (r: Camera)
        requires
            location.wf(),
            look_at.wf(),
            vup.wf(),
            tri_bounded(location.model(), 100_000_000int),
            tri_bounded(look_at.model(), 100_000_000int),
            vslen(vsub(location.model(), look_at.model())) >= 1,
            tri_bounded(vup.model(), 10_000_000int),
            vslen(vup.model()) >= 1,
            0 < half_height.v <= 3 * SCALE,
            0 < aspect.v <= 3 * SCALE,
            0 <= aperture.v <= 2 * SCALE,
            0 < focus_distance.v <= 8 * SCALE,
            vslen(
                vcross(vunit(vup.model()), vunit(vsub(location.model(), look_at.model()))),
            ) >= 1,
        ensures
            r == camera_model(
                location,
                look_at,
                vup,
                half_height.v as int,
                aspect.v as int,
                aperture.v as int,
                focus_distance.v as int,
            ),
            r.wf(),
    {
        proof {
            lemma_vunit_bounds(vsub(location.model(), look_at.model()));
            lemma_vunit_bounds(vup.model());
        }
        let w: Vec3 = location.sub(look_at).unit();
        let vup_unit: Vec3 = vup.unit();
        proof {
            lemma_vcross_bound(vup_unit.model(), w.model(), 2_002_000int, 2_002_000int);
            lemma_vunit_bounds(vcross(vup_unit.model(), w.model()));
        }
        let u: Vec3 = vup_unit.cross(w).unit();
        proof {
            lemma_vcross_bound(w.model(), u.model(), 2_002_000int, 2_002_000int);
        }
        let v: Vec3 = w.cross(u);
        proof {
            lemma_smul_bound(aspect.v as int, half_height.v as int, 3_000_000int, 3_000_000int);
        }
        let half_width: Scalar = aspect.mul(half_height);
        proof {
            lemma_smul_bound(half_width.v as int, focus_distance.v as int, 9_000_000int,
                8_000_000int);
            lemma_smul_bound(half_height.v as int, focus_distance.v as int, 3_000_000int,
                8_000_000int);
        }
        let hwf: Scalar = half_width.mul(focus_distance);
        let hhf: Scalar = half_height.mul(focus_distance);
        proof {
            lemma_vscale_bound(u.model(), hwf.v as int, 2_002_000int, 72_000_000int);
            lemma_vscale_bound(v.model(), hhf.v as int, 8_016_008int, 24_000_000int);
            lemma_vscale_bound(w.model(), focus_distance.v as int, 2_002_000int, 8_000_000int);
        }
        let lower_left: Vec3 = location.sub(u.scale(hwf)).sub(v.scale(hhf)).sub(
            w.scale(focus_distance),
        );
        let two: Scalar = Scalar::from_int(2);
        proof {
            lemma_smul_scale_exact(2, half_width.v as int);
            lemma_smul_scale_exact(2, half_height.v as int);
            lemma_smul_bound(2 * half_width.v as int, focus_distance.v as int, 18_000_000int,
                8_000_000int);
            lemma_smul_bound(2 * half_height.v as int, focus_distance.v as int, 6_000_000int,
                8_000_000int);
        }
        let twice_hwf: Scalar = two.mul(half_width).mul(focus_distance);
        let twice_hhf: Scalar = two.mul(half_height).mul(focus_distance);
        proof {
            lemma_vscale_bound(u.model(), twice_hwf.v as int, 2_002_000int, 144_000_000int);
            lemma_vscale_bound(v.model(), twice_hhf.v as int, 8_016_008int, 48_000_000int);
            lemma_div_to_zero_denom(
                (aperture.v as int) * SCALE,
                2_000_000_000_000int,
                2 * SCALE as int,
                2_000_000int,
            );
            vstd::arithmetic::div_mod::lemma_div_of0(2 * SCALE as int);
            vstd::arithmetic::div_mod::lemma_div_is_ordered(
                0,
                (aperture.v as int) * SCALE,
                2 * SCALE as int,
            );
        }
        let horizontal: Vec3 = u.scale(twice_hwf);
        let vertical: Vec3 = v.scale(twice_hhf);
        let lens_radius: Scalar = aperture.div(two);
        Camera { location, lower_left, horizontal, vertical, u, v, w, lens_radius }
    }

    pub fn location(self) -> (r: Vec3)
        ensures
            r == self.location,
    {
        self.location
    }

    /// The camera ray for image fractions `(s, t)`, with a fresh lens sample.
    pub fn get_ray(self, s: Scalar, t: Scalar) -> (r: Ray)
        requires
            self.wf(),
            0 <= s.v <= SCALE,
            0 <= t.v <= SCALE,
        ensures
            exists|rd: (int, int, int)|
                {
                    &&& #[trigger] vdot(rd, rd) < SCALE
                    &&& tri_bounded(rd, SCALE as int)
                    &&& rd.2 == 0
                    &&& (r.origin.model(), r.direction.model()) == camera_ray(
                        self,
                        s.v as int,
                        t.v as int,
                        rd,
                    )
                },
            tri_bounded(r.origin.model(), ORIGIN_LIMIT as int),
            tri_bounded(r.direction.model(), DIR_LIMIT as int),
            r.wf(),
    {
        let rd_sample: Vec3 = random_in_unit_disk();
        proof {
            lemma_vscale_bound(rd_sample.model(), self.lens_radius.v as int, 1_000_000int,
                1_000_000int);
        }
        let rd: Vec3 = rd_sample.scale(self.lens_radius);
        proof {
            lemma_vscale_bound(self.u.model(), rd.x.v as int, 9_000_000int, 1_000_000int);
            lemma_vscale_bound(self.v.model(), rd.y.v as int, 9_000_000int, 1_000_000int);
            lemma_vscale_bound(self.horizontal.model(), s.v as int, 2_000_000_000int,
                1_000_000int);
            lemma_vscale_bound(self.vertical.model(), t.v as int, 2_000_000_000int, 1_000_000int);
        }
        let offset: Vec3 = self.u.scale(rd.x).sub(self.v.scale(rd.y));
        let origin: Vec3 = self.location.add(offset);
        let direction: Vec3 = self.lower_left.add(self.horizontal.scale(s)).add(
            self.vertical.scale(t),
        ).sub(self.location).sub(offset);
        let r: Ray = Ray::new(origin, direction);
        proof {
            assert((r.origin.model(), r.direction.model()) == camera_ray(
                self,
                s.v as int,
                t.v as int,
                rd_sample.model(),
            ));
        }
        r
    }
}

} // verus!
