use vstd::prelude::*;

use crate::camera::Camera;
use crate::hittable::{trange_ok, Hittable};
use crate::image_data::ImageData;
use crate::material::{interact_ensures, lemma_interaction_facts, LightInteraction, ScatteredRay};
use crate::ray::{ray_ok, Ray, T_LIMIT};
use crate::sampling::random_fraction;
use crate::scalar::{
    in_range, lemma_smul_atten_bound, lemma_smul_scale_exact, sdiv, smul, Scalar, MAX_UNITS, SCALE,
};
use crate::vec3::{
    lemma_vscale_bound, lemma_vunit_bounds, tri_bounded, vadd, vmul, vscale, vslen, vunit, Vec3,
};

verus! {

/// One independent unit of rendering work: one scanline at one sample index.
#[derive(Debug, Clone, Copy, PartialEq, Eq, Structural)]
pub struct WorkItem {
    pub j: usize,
    pub x_size: usize,
    pub y_size: usize,
    pub sample: i32,
}

/// Componentwise bound the integrator guarantees at the given recursion
/// depth: the sky plus one bounded emission per bounce.
pub open spec fn color_bound(depth: int) -> int {
    5_000_000 + 3_100_000 * depth
}

/// Linear interpolation between two colors.
pub open spec fn interpolate_m(first: (int, int, int), second: (int, int, int), factor: int) -> (
    int,
    int,
    int,
) {
    vadd(vscale(first, factor), vscale(second, SCALE - factor))
}

/// The sky gradient: white blended toward sky blue by the ray's upward tilt.
pub open spec fn sky_model(ray: Ray) -> (int, int, int) {
    let u = vunit(ray.direction.model());
    let t = smul(500_000, u.1 + SCALE);
    interpolate_m(
        (SCALE as int, SCALE as int, SCALE as int),
        (500_000int, 700_000int, SCALE as int),
        t,
    )
}

/// Linear interpolation: `first * factor + second * (1 - factor)`.
pub fn interpolate(first: Vec3, second: Vec3, factor: Scalar) -> (r: Vec3)
    requires
        first.wf(),
        second.wf(),
        tri_bounded(first.model(), SCALE as int),
        tri_bounded(second.model(), SCALE as int),
        -2_000_000 <= factor.v <= 2_000_000,
    ensures
        r.model() == interpolate_m(first.model(), second.model(), factor.v as int),
        tri_bounded(r.model(), 5_000_000int),
        r.wf(),
{
    proof {
        lemma_vscale_bound(first.model(), factor.v as int, 1_000_000int, 2_000_000int);
        lemma_vscale_bound(second.model(), SCALE as int - factor.v as int, 1_000_000int,
            3_000_000int);
    }
    let one: Scalar = Scalar::one();
    first.scale(factor).add(second.scale(one.sub(factor)))
}

/// The background color for a ray that hits nothing.
pub fn sky_color(ray: Ray) -> (r: Vec3)
    requires
        ray.wf(),
        vslen(ray.direction.model()) >= 1,
    ensures
        r.model() == sky_model(ray),
        tri_bounded(r.model(), 5_000_000int),
        r.wf(),
{
    proof {
        lemma_vunit_bounds(ray.direction.model());
    }
    let unit_direction: Vec3 = ray.direction.unit();
    let half: Scalar = Scalar::from_units(500_000);
    let one: Scalar = Scalar::one();
    proof {
        crate::scalar::lemma_smul_bound(500_000int, unit_direction.y.v as int + SCALE as int,
            500_000int, 3_002_000int);
    }
    let t: Scalar = half.mul(unit_direction.y.add(one));
    let white: Vec3 = Vec3::new(Scalar::one(), Scalar::one(), Scalar::one());
    let sky_blue: Vec3 = Vec3::new(
        Scalar::from_units(500_000),
        Scalar::from_units(700_000),
        Scalar::one(),
    );
    interpolate(white, sky_blue, t)
}

/// What the radiance integrator returns, as a relation over a ghost trace
/// holding, per bounce, the interaction the material admitted
/// (`interact_ensures`) and the radiance the deeper trace returned: the sky
/// off a miss, nothing at the depth bound, and otherwise the interaction's
/// direct emission plus its scattered ray's attenuated radiance.  Recursive
/// rays use the fixed self-intersection epsilon and the large parametric
/// ceiling; a scattered ray outside the fixed-point ray limits is skipped and
/// contributes nothing.
pub open spec fn color_trace<H: Hittable>(
    hittable: H,
    ray: Ray,
    min_t: int,
    max_t: int,
    depth: nat,
    trace: Seq<(LightInteraction, (int, int, int))>,
    result: (int, int, int),
) -> bool
    decreases depth,
{
    match hittable.hit_model(ray, min_t, max_t) {
        None => result == sky_model(ray),
        Some(m) => if depth == 0 {
            result == (0int, 0int, 0int)
        } else {
            &&& trace.len() >= 1
            &&& interact_ensures(m.material, trace[0].0, ray, m.normal_ray())
            &&& if trace[0].0.scattered_rays@.len() == 0 || !ray_ok(
                trace[0].0.scattered_rays@[0].ray,
            ) {
                result == trace[0].0.directly_emitted.model()
            } else {
                &&& color_trace(
                    hittable,
                    trace[0].0.scattered_rays@[0].ray,
                    100,
                    T_LIMIT as int,
                    (depth - 1) as nat,
                    trace.subrange(1, trace.len() as int),
                    trace[0].1,
                )
                &&& result == vadd(
                    trace[0].0.directly_emitted.model(),
                    vmul(trace[0].0.scattered_rays@[0].attenuation.model(), trace[0].1),
                )
            }
        },
    }
}

/// The radiance arriving along `ray`: the sky when nothing is hit, and
/// otherwise the material's direct emission plus its scattered rays' radiance,
/// attenuated, down to the depth bound.
pub fn color<H: Hittable>(
    ray: Ray,
    hittable: &H,
    min_t: Scalar,
    max_t: Scalar,
    max_depth: u32,
) -> (r: Vec3)
    requires
        hittable.wf(),
        ray_ok(ray),
        trange_ok(min_t, max_t),
    ensures
        hittable.hit_model(ray, min_t.v as int, max_t.v as int) is None ==> r.model() == sky_model(
            ray,
        ),
        hittable.hit_model(ray, min_t.v as int, max_t.v as int) is Some && max_depth == 0
            ==> r.model() == (0int, 0int, 0int),
        hittable.hit_model(ray, min_t.v as int, max_t.v as int) matches Some(m) ==> (max_depth > 0
            && m.material is Normal ==> r.model() == vadd(
            m.normal_dir,
            (SCALE as int, SCALE as int, SCALE as int),
        )),
        exists|trace: Seq<(LightInteraction, (int, int, int))>|
            #[trigger] color_trace(
                *hittable,
                ray,
                min_t.v as int,
                max_t.v as int,
                max_depth as nat,
                trace,
                r.model(),
            ),
        tri_bounded(r.model(), color_bound(max_depth as int)),
        r.wf(),
    decreases max_depth,
{
    let hit_opt = hittable.hit(ray, min_t, max_t);
    match hit_opt {
        None => {
            let s: Vec3 = sky_color(ray);
            proof {
                let trace = Seq::<(LightInteraction, (int, int, int))>::empty();
                assert(color_trace(
                    *hittable,
                    ray,
                    min_t.v as int,
                    max_t.v as int,
                    max_depth as nat,
                    trace,
                    s.model(),
                ));
            }
            s
        },
        Some(hit) => {
            let interaction: LightInteraction = if max_depth == 0 {
                LightInteraction::new(
                    Vec3::new(Scalar::zero(), Scalar::zero(), Scalar::zero()),
                    Vec::new(),
                )
            } else {
                hit.material().interact(ray, hit.normal())
            };
            proof {
                if max_depth > 0 {
                    lemma_interaction_facts(hit.material, interaction, ray, hit.normal);
                }
            }
            let mut acc: Vec3 = interaction.directly_emitted();
            let rays: &Vec<ScatteredRay> = interaction.scattered_rays();
            let ghost mut sub_trace: Seq<(LightInteraction, (int, int, int))> = Seq::empty();
            let ghost mut sub_result: (int, int, int) = (0int, 0int, 0int);
            let mut k: usize = 0;
            while k < rays.len()
                invariant
                    0 <= k <= rays@.len(),
                    rays == &interaction.scattered_rays,
                    rays@.len() <= 1,
                    max_depth == 0 ==> rays@.len() == 0,
                    forall|q: int|
                        0 <= q < rays@.len() ==> crate::material::albedo_ok(
                            #[trigger] rays@[q].attenuation.model(),
                        ),
                    hittable.wf(),
                    acc.wf(),
                    k == 0 ==> acc == interaction.directly_emitted,
                    k == 0 ==> tri_bounded(acc.model(), 3_002_000int),
                    k > 0 ==> tri_bounded(
                        acc.model(),
                        3_002_000int + color_bound(max_depth as int - 1),
                    ),
                    k > 0 ==> if !ray_ok(rays@[0].ray) {
                        acc == interaction.directly_emitted
                    } else {
                        color_trace(
                            *hittable,
                            rays@[0].ray,
                            100,
                            T_LIMIT as int,
                            (max_depth - 1) as nat,
                            sub_trace,
                            sub_result,
                        ) && acc.model() == vadd(
                            interaction.directly_emitted.model(),
                            vmul(rays@[0].attenuation.model(), sub_result),
                        )
                    },
                    max_depth >= 1 || k == 0,
                decreases rays@.len() - k,
            {
                let scattered: ScatteredRay = rays[k];
                let scattered_ray: Ray = scattered.ray();
                if scattered_ray.within_limits() {
                    let recursive: Vec3 = color(
                        scattered_ray,
                        hittable,
                        Scalar::from_units(100),
                        Scalar::from_units(T_LIMIT),
                        max_depth - 1,
                    );
                    proof {
                        assert(crate::material::albedo_ok(
                            rays@[k as int].attenuation.model(),
                        ));
                        lemma_smul_atten_bound(
                            scattered.attenuation.x.v as int,
                            recursive.x.v as int,
                            color_bound(max_depth as int - 1),
                        );
                        lemma_smul_atten_bound(
                            scattered.attenuation.y.v as int,
                            recursive.y.v as int,
                            color_bound(max_depth as int - 1),
                        );
                        lemma_smul_atten_bound(
                            scattered.attenuation.z.v as int,
                            recursive.z.v as int,
                            color_bound(max_depth as int - 1),
                        );
                    }
                    let contribution: Vec3 = scattered.attenuation().mul(recursive);
                    acc = acc.add(contribution);
                    proof {
                        sub_trace = choose|t: Seq<(LightInteraction, (int, int, int))>|
                            #[trigger] color_trace(
                                *hittable,
                                scattered_ray,
                                100,
                                T_LIMIT as int,
                                (max_depth - 1) as nat,
                                t,
                                recursive.model(),
                            );
                        sub_result = recursive.model();
                    }
                }
                k = k + 1;
            }
            proof {
                let m = hittable.hit_model(ray, min_t.v as int, max_t.v as int).unwrap();
                assert(hit.normal == m.normal_ray());
                let trace: Seq<(LightInteraction, (int, int, int))> = if max_depth == 0 {
                    Seq::empty()
                } else {
                    seq![(interaction, sub_result)].add(sub_trace)
                };
                if max_depth > 0 && rays@.len() == 1 && ray_ok(rays@[0].ray) {
                    assert(trace.subrange(1, trace.len() as int) =~= sub_trace);
                }
                assert(color_trace(
                    *hittable,
                    ray,
                    min_t.v as int,
                    max_t.v as int,
                    max_depth as nat,
                    trace,
                    acc.model(),
                ));
            }
            acc
        },
    }
}

/// The image-plane fraction of pixel `i` of `nx`, without jitter.
pub fn get_pixel(i: usize, nx: usize) -> (r: Scalar)
    requires
        0 < nx,
        i < nx,
        nx <= 1_000_000_000_000,
    ensures
        r.v == (i as int) * SCALE / (nx as int),
        0 <= r.v < SCALE,
        r.wf(),
{
    proof {
        vstd::arithmetic::div_mod::lemma_div_of0(nx as int);
        vstd::arithmetic::div_mod::lemma_div_is_ordered(0, (i as int) * SCALE, nx as int);
        assert((i as int) * SCALE < (nx as int) * SCALE) by (nonlinear_arith)
            requires
                (i as int) < nx as int,
                SCALE as int > 0,
        ;
        vstd::arithmetic::div_mod::lemma_multiply_divide_lt((i as int) * SCALE, nx as int,
            SCALE as int);
    }
    Scalar { v: ((i as i128) * SCALE) / (nx as i128) }
}

/// The image-plane fraction of pixel `i` of `nx`, jittered within the pixel
/// for anti-aliasing: whatever the draw, the fraction stays inside pixel
/// `i`'s own interval of the image plane.
pub fn get_pixel_with_randomness(i: usize, nx: usize) -> (r: Scalar)
    requires
        0 < nx,
        i < nx,
        nx <= 1_000_000_000_000,
    ensures
        (i as int) * SCALE / (nx as int) <= r.v <= ((i as int) * SCALE + SCALE - 1) / (nx as int),
        0 <= r.v < SCALE,
        r.wf(),
{
    let u: Scalar = random_fraction();
    proof {
        vstd::arithmetic::div_mod::lemma_div_of0(nx as int);
        vstd::arithmetic::div_mod::lemma_div_is_ordered(
            0,
            (i as int) * SCALE + u.v,
            nx as int,
        );
        vstd::arithmetic::div_mod::lemma_div_is_ordered(
            (i as int) * SCALE,
            (i as int) * SCALE + u.v,
            nx as int,
        );
        vstd::arithmetic::div_mod::lemma_div_is_ordered(
            (i as int) * SCALE + u.v,
            (i as int) * SCALE + SCALE - 1,
            nx as int,
        );
        assert((i as int) * SCALE + u.v < (nx as int) * SCALE) by (nonlinear_arith)
            requires
                (i as int) < nx as int,
                0 <= u.v < SCALE as int,
                SCALE as int > 0,
        ;
        vstd::arithmetic::div_mod::lemma_multiply_divide_lt(
            (i as int) * SCALE + u.v,
            nx as int,
            SCALE as int,
        );
    }
    let r: Scalar = Scalar { v: ((i as i128) * SCALE + u.v) / (nx as i128) };
    proof {
        assert(((i as int) * SCALE + u.v as int) / (nx as int) == r.v);
    }
    r
}

/// The running per-pixel average after one more sample: sample index zero
/// overwrites, and index `k > 0` folds the new sample into the mean of the
/// first `k` samples.
pub open spec fn average_update_m(old: (int, int, int), c: (int, int, int), k: int) -> (
    int,
    int,
    int,
) {
    if k == 0 {
        c
    } else {
        (
            sdiv(k * old.0 + c.0, (k + 1) * SCALE),
            sdiv(k * old.1 + c.1, (k + 1) * SCALE),
            sdiv(k * old.2 + c.2, (k + 1) * SCALE),
        )
    }
}

/// Folds a new sample into a running average.
pub fn average_update(old_avg: Vec3, sample_color: Vec3, sample: i32) -> (r: Vec3)
    requires
        old_avg.wf(),
        sample_color.wf(),
        0 <= sample < i32::MAX,
    ensures
        r.model() == average_update_m(old_avg.model(), sample_color.model(), sample as int),
        r.wf(),
{
    if sample == 0 {
        sample_color
    } else {
        let k: Scalar = Scalar::from_int(sample as i64);
        let k1: Scalar = Scalar::from_int((sample + 1) as i64);
        proof {
            lemma_smul_scale_exact(sample as int, old_avg.x.v as int);
            lemma_smul_scale_exact(sample as int, old_avg.y.v as int);
            lemma_smul_scale_exact(sample as int, old_avg.z.v as int);
            lemma_average_component_bound(
                old_avg.x.v as int,
                sample_color.x.v as int,
                sample as int,
            );
            lemma_average_component_bound(
                old_avg.y.v as int,
                sample_color.y.v as int,
                sample as int,
            );
            lemma_average_component_bound(
                old_avg.z.v as int,
                sample_color.z.v as int,
                sample as int,
            );
        }
        old_avg.scale(k).add(sample_color).div_scalar(k1)
    }
}

/// The work items of a render: one per (sample index, scanline) pair, grouped
/// by sample index first so that same-pixel items run in increasing sample
/// order, scanlines from the top down within each sample.
pub fn work_items(x_size: usize, y_size: usize, samples: i32) -> (r: Vec<WorkItem>)
    requires
        0 <= samples,
        (samples as int) * (y_size as int) <= usize::MAX as int,
    ensures
        r@.len() == (samples as int) * (y_size as int),
        forall|k: int|
            0 <= k < r@.len() ==> {
                &&& (#[trigger] r@[k]).x_size == x_size
                &&& r@[k].y_size == y_size
                &&& r@[k].sample as int == k / (y_size as int)
                &&& r@[k].j as int == y_size as int - 1 - (k % (y_size as int))
            },
{
    let mut items: Vec<WorkItem> = Vec::new();
    let mut s: i32 = 0;
    if y_size == 0 {
        return items;
    }
    while s < samples
        invariant
            0 <= s <= samples,
            y_size >= 1,
            (samples as int) * (y_size as int) <= usize::MAX as int,
            items@.len() == (s as int) * (y_size as int),
            forall|k: int|
                0 <= k < items@.len() ==> {
                    &&& (#[trigger] items@[k]).x_size == x_size
                    &&& items@[k].y_size == y_size
                    &&& items@[k].sample as int == k / (y_size as int)
                    &&& items@[k].j as int == y_size as int - 1 - (k % (y_size as int))
                },
        decreases samples - s,
    {
        let mut jj: usize = 0;
        while jj < y_size
            invariant
                0 <= jj <= y_size,
                0 <= s < samples,
                y_size >= 1,
                (samples as int) * (y_size as int) <= usize::MAX as int,
                items@.len() == (s as int) * (y_size as int) + jj as int,
                forall|k: int|
                    0 <= k < items@.len() ==> {
                        &&& (#[trigger] items@[k]).x_size == x_size
                        &&& items@[k].y_size == y_size
                        &&& items@[k].sample as int == k / (y_size as int)
                        &&& items@[k].j as int == y_size as int - 1 - (k % (y_size as int))
                    },
            decreases y_size - jj,
        {
            proof {
                assert((s as int) * (y_size as int) + (y_size as int) <= (samples as int) * (
                y_size as int)) by (nonlinear_arith)
                    requires
                        0 <= s < samples as int,
                        y_size as int >= 1,
                ;
                vstd::arithmetic::div_mod::lemma_fundamental_div_mod_converse(
                    (s as int) * (y_size as int) + jj as int,
                    y_size as int,
                    s as int,
                    jj as int,
                );
            }
            items.push(WorkItem { j: y_size - 1 - jj, x_size, y_size, sample: s });
            jj = jj + 1;
        }
        proof {
            assert((s as int + 1) * (y_size as int) == (s as int) * (y_size as int) + (
            y_size as int)) by (nonlinear_arith);
        }
        s = s + 1;
    }
    items
}

/// Renders one pixel at one sample index: a jittered camera ray is traced and
/// folded into the pixel's running average.
pub fn draw_to_image_data_for_pixel<H: Hittable>(
    image_data: &ImageData,
    camera: &Camera,
    world: &H,
    i: usize,
    j: usize,
    sample: i32,
)
    requires
        image_data.wf(),
        camera.wf(),
        world.wf(),
        i < image_data.x_size,
        j < image_data.y_size,
        image_data.x_size <= 1_000_000_000_000,
        image_data.y_size <= 1_000_000_000_000,
        0 <= sample < i32::MAX,
{
    let s: Scalar = get_pixel_with_randomness(i, image_data.x_size());
    let t: Scalar = get_pixel_with_randomness(j, image_data.y_size());
    let ray: Ray = camera.get_ray(s, t);
    let pixel_colour: Vec3 = if ray.within_limits() {
        color(ray, world, Scalar::from_units(100), Scalar::from_units(T_LIMIT), 50)
    } else {
        Vec3::new(Scalar::zero(), Scalar::zero(), Scalar::zero())
    };
    if sample == 0 {
        let overwrite = |_old: Vec3| -> (nv: Vec3)
            ensures
                nv == pixel_colour,
            { pixel_colour };
        image_data.update_pixel(i, j, overwrite);
    } else {
        let fold_sample = |old_avg: Vec3| -> (nv: Vec3)
            requires
                old_avg.wf(),
            ensures
                nv.model() == average_update_m(
                    old_avg.model(),
                    pixel_colour.model(),
                    sample as int,
                ),
                nv.wf(),
            { average_update(old_avg, pixel_colour, sample) };
        image_data.update_pixel(i, j, fold_sample);
    }
}

/// Renders one work item: every pixel of its scanline at its sample index,
/// then advances the completion counter by the item's share.
pub fn render_work_item<H: Hittable>(
    image_data: &ImageData,
    camera: &Camera,
    world: &H,
    item: WorkItem,
    work_item_fraction_of_total: Scalar,
)
    requires
        image_data.wf(),
        camera.wf(),
        world.wf(),
        item.x_size == image_data.x_size,
        item.y_size == image_data.y_size,
        item.j < image_data.y_size,
        image_data.x_size <= 1_000_000_000_000,
        image_data.y_size <= 1_000_000_000_000,
        0 <= item.sample < i32::MAX,
        0 <= work_item_fraction_of_total.v <= SCALE,
{
    let mut i: usize = 0;
    while i < image_data.x_size()
        invariant
            image_data.wf(),
            camera.wf(),
            world.wf(),
            item.j < image_data.y_size,
            image_data.x_size <= 1_000_000_000_000,
            image_data.y_size <= 1_000_000_000_000,
            0 <= item.sample < i32::MAX,
        decreases image_data.x_size - i,
    {
        draw_to_image_data_for_pixel(image_data, camera, world, i, item.j, item.sample);
        i = i + 1;
    }
    let frac: Scalar = work_item_fraction_of_total;
    let advance = |prev: Scalar| -> (nv: Scalar)
        requires
            prev.wf(),
        ensures
            nv.v == if prev.v + frac.v <= MAX_UNITS {
                prev.v + frac.v
            } else {
                prev.v as int
            },
            nv.wf(),
        {
            let next: Scalar = prev.add(frac);
            if next.v <= MAX_UNITS {
                next
            } else {
                prev
            }
        };
    image_data.update_complete(advance);
}

/// Renders the whole image: `samples * y_size` work items, processed with
/// non-decreasing sample index so every running average sees its samples in
/// order.
pub fn draw_to_image_data<H: Hittable>(
    image_data: &ImageData,
    camera: &Camera,
    world: &H,
    samples: i32,
)
    requires
        image_data.wf(),
        camera.wf(),
        world.wf(),
        image_data.x_size <= 1_000_000_000_000,
        image_data.y_size <= 1_000_000_000_000,
        0 <= samples < i32::MAX,
        (samples as int) * (image_data.y_size as int) <= 1_000_000_000_000,
        (samples as int) * (image_data.y_size as int) <= usize::MAX as int,
    {
    let items: Vec<WorkItem> = work_items(image_data.x_size(), image_data.y_size(), samples);
    if items.len() == 0 {
        return ;
    }
    proof {
        assert(image_data.y_size as int >= 1 && samples as int >= 1) by (nonlinear_arith)
            requires
                items@.len() == (samples as int) * (image_data.y_size as int),
                items@.len() > 0,
                samples as int >= 0,
                image_data.y_size as int >= 0,
        ;
    }
    let total: i128 = items.len() as i128;
    let work_item_fraction_of_total: Scalar = Scalar::from_units(SCALE / total);
    proof {
        vstd::arithmetic::div_mod::lemma_div_of0(total as int);
        vstd::arithmetic::div_mod::lemma_div_is_ordered(0, SCALE as int, total as int);
        vstd::arithmetic::div_mod::lemma_div_is_ordered_by_denominator(SCALE as int, 1, total as int);
        vstd::arithmetic::div_mod::lemma_div_basics(SCALE as int);
    }
    let mut w: usize = 0;
    while w < items.len()
        invariant
            image_data.wf(),
            camera.wf(),
            world.wf(),
            image_data.x_size <= 1_000_000_000_000,
            image_data.y_size <= 1_000_000_000_000,
            image_data.y_size >= 1,
            1 <= samples < i32::MAX,
            0 <= work_item_fraction_of_total.v <= SCALE,
            items@.len() == (samples as int) * (image_data.y_size as int),
            forall|k: int|
                0 <= k < items@.len() ==> {
                    &&& (#[trigger] items@[k]).x_size == image_data.x_size
                    &&& items@[k].y_size == image_data.y_size
                    &&& items@[k].sample as int == k / (image_data.y_size as int)
                    &&& items@[k].j as int == image_data.y_size as int - 1 - (k % (
                    image_data.y_size as int))
                },
        decreases items@.len() - w,
    {
        let item: WorkItem = items[w];
        proof {
            vstd::arithmetic::div_mod::lemma_mod_bound(w as int, image_data.y_size as int);
            vstd::arithmetic::div_mod::lemma_div_of0(image_data.y_size as int);
            vstd::arithmetic::div_mod::lemma_div_is_ordered(0, w as int, image_data.y_size as int);
            assert((samples as int) * (image_data.y_size as int) == (image_data.y_size as int) * (
            samples as int)) by (nonlinear_arith);
            vstd::arithmetic::div_mod::lemma_multiply_divide_lt(
                w as int,
                image_data.y_size as int,
                samples as int,
            );
        }
        render_work_item(image_data, camera, world, item, work_item_fraction_of_total);
        w = w + 1;
    }
}

/// After all work items add their equal share, the completion fraction stands
/// within `total` units of one: the single rounding of the share is the only
/// loss.
pub proof fn lemma_completion_tolerance(total: int)
    requires
        1 <= total,
    ensures
        SCALE - total < total * ((SCALE as int) / total) <= SCALE,
{
    vstd::arithmetic::div_mod::lemma_fundamental_div_mod(SCALE as int, total);
    vstd::arithmetic::div_mod::lemma_mod_bound(SCALE as int, total);
}

/// One color channel of the three-sample average: folding the second sample
/// halves exactly, and folding the third reaches the mean.
proof fn lemma_avg3_component(p0: int, p1: int, p2: int)
    requires
        (p0 + p1) % 2 == 0,
        (p0 + p1 + p2) % 3 == 0,
    ensures
        sdiv(2 * sdiv(p0 + p1, 2 * SCALE) + p2, 3 * SCALE) == (p0 + p1 + p2) / 3,
{
    crate::scalar::lemma_sdiv_multiple_exact(p0 + p1, 2);
    let a1 = (p0 + p1) / 2;
    vstd::arithmetic::div_mod::lemma_fundamental_div_mod(p0 + p1, 2);
    assert(2 * a1 == p0 + p1);
    crate::scalar::lemma_sdiv_multiple_exact(p0 + p1 + p2, 3);
}

/// Progressive averaging: folding samples at indices 0, 1, 2 into a pixel
/// yields their mean, whatever the pixel held before, whenever the running
/// averages are exactly representable (each division leaves no remainder).
pub proof fn lemma_progressive_average(
    start: (int, int, int),
    v0: (int, int, int),
    v1: (int, int, int),
    v2: (int, int, int),
)
    requires
        (v0.0 + v1.0) % 2 == 0,
        (v0.1 + v1.1) % 2 == 0,
        (v0.2 + v1.2) % 2 == 0,
        (v0.0 + v1.0 + v2.0) % 3 == 0,
        (v0.1 + v1.1 + v2.1) % 3 == 0,
        (v0.2 + v1.2 + v2.2) % 3 == 0,
    ensures
        average_update_m(average_update_m(average_update_m(start, v0, 0), v1, 1), v2, 2) == (
            (v0.0 + v1.0 + v2.0) / 3,
            (v0.1 + v1.1 + v2.1) / 3,
            (v0.2 + v1.2 + v2.2) / 3,
        ),
{
    lemma_avg3_component(v0.0, v1.0, v2.0);
    lemma_avg3_component(v0.1, v1.1, v2.1);
    lemma_avg3_component(v0.2, v1.2, v2.2);
}

/// The folded average of well-formed colors is well-formed, and every
/// intermediate of its computation fits the machine representation.
proof fn lemma_average_component_bound(o: int, c: int, k: int)
    requires
        in_range(o),
        in_range(c),
        1 <= k < 0x8000_0000,
    ensures
        in_range(sdiv(k * o + c, (k + 1) * SCALE)),
        i128::MIN as int <= k * o + c <= i128::MAX as int,
        -(i128::MAX as int) <= (k * o + c) * SCALE <= i128::MAX as int,
{
    let num = k * o + c;
    let bound = (k + 1) * MAX_UNITS;
    assert(-bound <= num <= bound) by (nonlinear_arith)
        requires
            -(MAX_UNITS as int) <= o <= MAX_UNITS as int,
            -(MAX_UNITS as int) <= c <= MAX_UNITS as int,
            1 <= k,
            num == k * o + c,
            bound == (k + 1) * MAX_UNITS,
    ;
    assert(bound * SCALE <= 0x8000_0001 * (MAX_UNITS as int) * (SCALE as int) && bound <= 0x8000_0001
        * (MAX_UNITS as int)) by (nonlinear_arith)
        requires
            1 <= k < 0x8000_0000,
            MAX_UNITS as int > 0,
            SCALE as int > 0,
            bound == (k + 1) * MAX_UNITS,
    ;
    assert(-(bound * SCALE) <= num * SCALE <= bound * SCALE) by (nonlinear_arith)
        requires
            -bound <= num <= bound,
            SCALE as int > 0,
    ;
    assert((k + 1) * SCALE > 0) by (nonlinear_arith)
        requires
            k >= 1,
            SCALE as int > 0,
    ;
    crate::scalar::lemma_div_to_zero_denom(
        num * SCALE,
        bound * SCALE,
        (k + 1) * SCALE,
        (k + 1) * SCALE,
    );
    assert(bound * SCALE == (MAX_UNITS as int) * ((k + 1) * SCALE)) by (nonlinear_arith)
        requires
            bound == (k + 1) * MAX_UNITS,
    ;
    vstd::arithmetic::div_mod::lemma_div_multiples_vanish(MAX_UNITS as int, (k + 1) * SCALE);
}

} // verus!
