use rustray::{
    interact_with_dielectric, interact_with_lambertian, interact_with_metal, random_fraction,
    random_in_unit_sphere, Material, Ray, Scalar, Vec3,
};

fn v(x: i64, y: i64, z: i64) -> Vec3 {
    Vec3::new(Scalar::from_int(x), Scalar::from_int(y), Scalar::from_int(z))
}

fn units(x: i128, y: i128, z: i128) -> Vec3 {
    Vec3::new(Scalar::from_units(x), Scalar::from_units(y), Scalar::from_units(z))
}

#[test]
fn lambertian_attenuation_is_albedo_and_emits_nothing() {
    let albedo = units(800_000, 300_000, 300_000);
    let hit_normal = Ray::new(units(0, 0, -1_500_000), v(0, 0, 1));
    let material = Material::Lambertian { albedo };
    let interaction = material.interact(Ray::new(v(0, 0, 0), v(0, 0, -1)), &hit_normal);
    assert_eq!(interaction.directly_emitted(), v(0, 0, 0));
    assert_eq!(interaction.scattered_rays().len(), 1);
    assert_eq!(interaction.scattered_rays()[0].attenuation(), albedo);
    assert_eq!(*interaction.scattered_rays()[0].ray().origin(), units(0, 0, -1_500_000));
}

#[test]
fn lambertian_scatters_toward_normal_plus_sample() {
    let albedo = units(500_000, 500_000, 500_000);
    let hit_normal = Ray::new(v(0, 0, 0), v(0, 1, 0));
    let sample = units(100_000, -200_000, 300_000);
    let interaction = interact_with_lambertian(&hit_normal, &albedo, sample);
    assert_eq!(
        *interaction.scattered_rays()[0].ray().direction(),
        units(100_000, 800_000, 300_000)
    );
}

#[test]
fn metal_with_zero_fuzz_is_a_mirror() {
    let albedo = units(800_000, 800_000, 800_000);
    let hit_normal = Ray::new(v(0, 0, 0), v(0, 1, 0));
    let incoming = Ray::new(v(-1, 1, 0), v(1, -1, 0));
    let sample = units(100_000, 200_000, 300_000);
    let interaction =
        interact_with_metal(incoming, &hit_normal, &albedo, &Scalar::zero(), sample);
    assert_eq!(interaction.directly_emitted(), v(0, 0, 0));
    assert_eq!(interaction.scattered_rays().len(), 1);
    assert_eq!(*interaction.scattered_rays()[0].ray().direction(), v(1, 1, 0));
    assert_eq!(interaction.scattered_rays()[0].attenuation(), albedo);
}

#[test]
fn metal_absorbs_rays_that_stay_inside() {
    let albedo = units(800_000, 800_000, 800_000);
    let hit_normal = Ray::new(v(0, 0, 0), v(0, 1, 0));
    // the mirror image of an outgoing ray points back into the surface
    let incoming = Ray::new(v(0, -1, 0), v(0, 1, 0));
    let interaction =
        interact_with_metal(incoming, &hit_normal, &albedo, &Scalar::zero(), v(0, 0, 0));
    assert_eq!(interaction.scattered_rays().len(), 0);
}

#[test]
fn dielectric_with_index_one_passes_straight_through() {
    let hit_normal = Ray::new(units(0, 0, -1_000_000), v(0, 0, 1));
    let incoming = Ray::new(v(0, 0, 0), v(0, 0, -1));
    let interaction =
        interact_with_dielectric(incoming, &hit_normal, &Scalar::one(), Scalar::from_units(500_000));
    assert_eq!(interaction.directly_emitted(), v(0, 0, 0));
    assert_eq!(interaction.scattered_rays().len(), 1);
    assert_eq!(*interaction.scattered_rays()[0].ray().direction(), v(0, 0, -1));
    assert_eq!(interaction.scattered_rays()[0].attenuation(), v(1, 1, 1));
}

#[test]
fn dielectric_with_index_one_passes_straight_through_when_exiting() {
    // the ray travels with the outward normal: the exiting branch
    let hit_normal = Ray::new(units(0, 0, 1_000_000), v(0, 0, 1));
    let incoming = Ray::new(v(0, 0, 0), v(0, 0, 1));
    let interaction =
        interact_with_dielectric(incoming, &hit_normal, &Scalar::one(), Scalar::from_units(500_000));
    assert_eq!(interaction.scattered_rays().len(), 1);
    assert_eq!(*interaction.scattered_rays()[0].ray().direction(), v(0, 0, 1));
}

#[test]
fn dielectric_attenuation_is_colorless() {
    let hit_normal = Ray::new(v(0, 0, 0), v(0, 0, 1));
    let incoming = Ray::new(v(0, 0, 1), v(0, 0, -1));
    let material = Material::Dielectric { refractive_index: Scalar::from_units(1_500_000) };
    let interaction = material.interact(incoming, &hit_normal);
    assert_eq!(interaction.directly_emitted(), v(0, 0, 0));
    assert_eq!(interaction.scattered_rays().len(), 1);
    assert_eq!(interaction.scattered_rays()[0].attenuation(), v(1, 1, 1));
}

#[test]
fn normal_material_emits_shifted_normal() {
    let hit_normal = Ray::new(units(0, 0, -1_500_000), v(0, 0, 1));
    let interaction =
        Material::Normal {}.interact(Ray::new(v(0, 0, 0), v(0, 0, -1)), &hit_normal);
    assert_eq!(interaction.directly_emitted(), v(1, 1, 2));
    assert_eq!(interaction.scattered_rays().len(), 0);
}

#[test]
fn random_draws_stay_in_their_ranges() {
    for _ in 0..64 {
        let f = random_fraction();
        assert!(0 <= f.v && f.v < 1_000_000);
        let p = random_in_unit_sphere();
        assert!(p.squared_length().v < 1_000_000);
    }
}
