use rustray::{
    color, draw_to_image_data, get_pixel, work_items, Camera, ImageData, Material, Scalar, Sphere,
    Vec3, World,
};

fn v(x: i64, y: i64, z: i64) -> Vec3 {
    Vec3::new(Scalar::from_int(x), Scalar::from_int(y), Scalar::from_int(z))
}

fn units(x: i128, y: i128, z: i128) -> Vec3 {
    Vec3::new(Scalar::from_units(x), Scalar::from_units(y), Scalar::from_units(z))
}

fn t_eps() -> Scalar {
    Scalar::from_units(100)
}

fn t_big() -> Scalar {
    Scalar::from_units(1_000_000_000)
}

/// A pinhole camera at the origin looking down the negative z axis, with a
/// ninety-degree vertical field of view.
fn pinhole_camera() -> Camera {
    Camera::new(
        v(0, 0, 0),
        v(0, 0, -1),
        v(0, 1, 0),
        Scalar::one(),
        Scalar::one(),
        Scalar::zero(),
        Scalar::one(),
    )
}

fn single_sphere_world() -> World {
    World::new(vec![Sphere::new(
        units(0, 0, -1_000_000),
        Scalar::from_units(500_000),
        Material::Normal {},
    )])
}

#[test]
fn sky_is_returned_when_nothing_is_hit() {
    let world = World::new(Vec::new());
    let ray = rustray::Ray::new(v(0, 0, 0), v(0, 0, -1));
    let c = color(ray, &world, t_eps(), t_big(), 50);
    // straight ahead: halfway between white and sky blue
    assert_eq!(c, units(750_000, 850_000, 1_000_000));
}

#[test]
fn recursion_depth_zero_returns_zero_on_a_hit() {
    let world = single_sphere_world();
    let ray = rustray::Ray::new(v(0, 0, 0), v(0, 0, -1));
    let c = color(ray, &world, t_eps(), t_big(), 0);
    assert_eq!(c, v(0, 0, 0));
}

#[test]
fn center_ray_sees_the_shifted_normal() {
    // one sphere of radius one half, one normal-visualizing material: the
    // center ray hits at (0, 0, -0.5) with outward normal (0, 0, 1)
    let camera = pinhole_camera();
    let world = single_sphere_world();
    let ray = camera.get_ray(Scalar::from_units(500_000), Scalar::from_units(500_000));
    assert_eq!(*ray.origin(), v(0, 0, 0));
    assert_eq!(*ray.direction(), v(0, 0, -1));
    let c = color(ray, &world, t_eps(), t_big(), 50);
    assert_eq!(c, v(1, 1, 2));
}

#[test]
fn camera_basis_is_computed() {
    let camera = pinhole_camera();
    assert_eq!(camera.location(), v(0, 0, 0));
    assert_eq!(camera.w, v(0, 0, 1));
    assert_eq!(camera.u, v(1, 0, 0));
    assert_eq!(camera.v, v(0, 1, 0));
    assert_eq!(camera.lower_left, v(-1, -1, -1));
    assert_eq!(camera.horizontal, v(2, 0, 0));
    assert_eq!(camera.vertical, v(0, 2, 0));
    assert_eq!(camera.lens_radius, Scalar::zero());
}

#[test]
fn pixel_fractions_divide_the_image_plane() {
    assert_eq!(get_pixel(0, 4), Scalar::zero());
    assert_eq!(get_pixel(1, 4), Scalar::from_units(250_000));
    assert_eq!(get_pixel(3, 4), Scalar::from_units(750_000));
}

#[test]
fn work_items_group_by_sample_then_scanline() {
    let items = work_items(8, 3, 2);
    assert_eq!(items.len(), 6);
    assert_eq!(items[0].sample, 0);
    assert_eq!(items[0].j, 2);
    assert_eq!(items[1].j, 1);
    assert_eq!(items[2].j, 0);
    assert_eq!(items[3].sample, 1);
    assert_eq!(items[3].j, 2);
    assert_eq!(items[5].j, 0);
    for item in &items {
        assert_eq!(item.x_size, 8);
        assert_eq!(item.y_size, 3);
    }
}

#[test]
fn completion_reaches_one_after_a_full_render() {
    let image = ImageData::new_blank(2, 2, v(0, 0, 0));
    let camera = pinhole_camera();
    let world = single_sphere_world();
    // 2 samples over 2 scanlines: four work items, each a quarter
    draw_to_image_data(&image, &camera, &world, 2);
    assert_eq!(image.get_complete(), Scalar::one());
}

#[test]
fn rendered_pixels_hold_finite_colors() {
    let image = ImageData::new_blank(2, 2, v(0, 0, 0));
    let camera = pinhole_camera();
    let world = single_sphere_world();
    draw_to_image_data(&image, &camera, &world, 1);
    for y in 0..2 {
        for x in 0..2 {
            let p = image.get_pixel(x, y);
            assert!(p.x.v.abs() <= 110_000_000);
            assert!(p.y.v.abs() <= 110_000_000);
            assert!(p.z.v.abs() <= 110_000_000);
        }
    }
}
