use rustray::{Hit, Hittable, Material, Ray, Scalar, Sphere, Vec3, World};

fn v(x: i64, y: i64, z: i64) -> Vec3 {
    Vec3::new(Scalar::from_int(x), Scalar::from_int(y), Scalar::from_int(z))
}

fn units(x: i128, y: i128, z: i128) -> Vec3 {
    Vec3::new(Scalar::from_units(x), Scalar::from_units(y), Scalar::from_units(z))
}

fn t_eps() -> Scalar {
    Scalar::from_units(100)
}

fn t_big() -> Scalar {
    Scalar::from_units(1_000_000_000)
}

#[test]
fn test_point_at_parameter() {
    assert_eq!(
        Ray::new(v(1, 2, 3), v(2, 3, 4)).point_at_parameter(Scalar::from_int(2)),
        v(5, 8, 11)
    );
}

#[test]
fn ray_at_sphere_center_hits_at_distance_minus_radius() {
    // a unit ray from the origin aimed at a sphere two units away
    let sphere = Sphere::new(units(0, 0, -2_000_000), Scalar::from_units(500_000), Material::Normal {});
    let ray = Ray::new(v(0, 0, 0), v(0, 0, -1));
    let hit: Hit = sphere.hit(ray, t_eps(), t_big()).expect("the ray points at the center");
    assert_eq!(*hit.t(), Scalar::from_units(1_500_000));
    assert_eq!(*hit.normal().origin(), units(0, 0, -1_500_000));
    assert_eq!(*hit.normal().direction(), v(0, 0, 1));
}

#[test]
fn ray_that_misses_returns_no_hit() {
    let sphere = Sphere::new(units(0, 0, -2_000_000), Scalar::from_units(500_000), Material::Normal {});
    let ray = Ray::new(v(0, 0, 0), v(1, 0, 0));
    assert!(sphere.hit(ray, t_eps(), t_big()).is_none());
}

#[test]
fn tangent_ray_hits_at_tangent_point() {
    // grazing the sphere of radius one half: the discriminant is exactly zero
    let sphere = Sphere::new(units(0, 0, -2_000_000), Scalar::from_units(500_000), Material::Normal {});
    let ray = Ray::new(units(500_000, 0, 0), v(0, 0, -1));
    let hit: Hit = sphere.hit(ray, t_eps(), t_big()).expect("a tangent ray still hits");
    assert_eq!(*hit.t(), Scalar::from_int(2));
    assert_eq!(*hit.normal().origin(), units(500_000, 0, -2_000_000));
    assert_eq!(*hit.normal().direction(), v(1, 0, 0));
}

#[test]
fn world_returns_nearest_hit() {
    let near = Sphere::new(units(0, 0, -2_000_000), Scalar::from_units(500_000), Material::Normal {});
    let far = Sphere::new(units(0, 0, -5_000_000), Scalar::from_units(500_000), Material::Lambertian {
        albedo: units(500_000, 500_000, 500_000),
    });
    let world = World::new(vec![far, near]);
    let ray = Ray::new(v(0, 0, 0), v(0, 0, -1));
    let hit: Hit = world.hit(ray, t_eps(), t_big()).expect("both spheres lie on the ray");
    assert_eq!(*hit.t(), Scalar::from_units(1_500_000));
    assert!(matches!(hit.material(), Material::Normal {}));
}

#[test]
fn equal_hits_keep_the_first_member() {
    let first = Sphere::new(units(0, 0, -2_000_000), Scalar::from_units(500_000), Material::Normal {});
    let second = Sphere::new(units(0, 0, -2_000_000), Scalar::from_units(500_000), Material::Lambertian {
        albedo: units(500_000, 500_000, 500_000),
    });
    let world = World::new(vec![first, second]);
    let ray = Ray::new(v(0, 0, 0), v(0, 0, -1));
    let hit: Hit = world.hit(ray, t_eps(), t_big()).expect("both members hit");
    assert!(matches!(hit.material(), Material::Normal {}));
}

#[test]
fn empty_world_returns_no_hit() {
    let world = World::new(Vec::new());
    let ray = Ray::new(v(0, 0, 0), v(0, 0, -1));
    assert!(world.hit(ray, t_eps(), t_big()).is_none());
}
