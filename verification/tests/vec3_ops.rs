use rustray::{Scalar, Vec3};

fn v(x: i64, y: i64, z: i64) -> Vec3 {
    Vec3::new(Scalar::from_int(x), Scalar::from_int(y), Scalar::from_int(z))
}

fn units(x: i128, y: i128, z: i128) -> Vec3 {
    Vec3::new(Scalar::from_units(x), Scalar::from_units(y), Scalar::from_units(z))
}

#[test]
fn test_add() {
    assert_eq!(v(1, 0, -1).add(v(2, 3, 2)), v(3, 3, 1));
}

#[test]
fn test_sub() {
    assert_eq!(v(1, 0, -1).sub(v(2, 3, 2)), v(-1, -3, -3));
}

#[test]
fn test_mul() {
    assert_eq!(v(1, 0, -1).scale(Scalar::from_int(2)), v(2, 0, -2));
    assert_eq!(v(1, 0, -1).scale(Scalar::from_int(2)), v(2, 0, -2));
    assert_eq!(v(1, 0, -1).mul(v(4, 0, -2)), v(4, 0, 2));
}

#[test]
fn test_div() {
    assert_eq!(v(2, 4, -6).div_scalar(Scalar::from_int(2)), v(1, 2, -3));
    assert_eq!(v(6, 6, 6).div(v(1, 2, -3)), v(6, 3, -2));
    assert_eq!(v(2, 4, -6).div(v(2, 2, -3)), v(1, 2, 2));
}

#[test]
fn test_neg() {
    assert_eq!(v(2, 0, -6).neg(), v(-2, 0, 6));
}

#[test]
fn test_dot() {
    assert_eq!(v(1, 2, 3).dot(v(4, -5, 6)), Scalar::from_int(12));
}

#[test]
fn test_cross() {
    assert_eq!(v(3, -3, 1).cross(v(4, 9, 2)), v(-15, -2, 39));
}

#[test]
fn test_length() {
    assert_eq!(v(2, -2, 1).length(), Scalar::from_int(3));
}

#[test]
fn test_unit() {
    assert_eq!(v(2, 0, 0).unit(), v(1, 0, 0));
    assert_eq!(v(-2, 0, 0).unit(), v(-1, 0, 0));
    assert_eq!(v(0, 2, 0).unit(), v(0, 1, 0));
    assert_eq!(v(0, -2, 0).unit(), v(0, -1, 0));
    assert_eq!(v(0, 0, 2).unit(), v(0, 0, 1));
    assert_eq!(v(0, 0, -2).unit(), v(0, 0, -1));
    assert_eq!(v(3, 4, 0).unit(), units(600_000, 800_000, 0));
}

#[test]
fn vector_algebra_laws_on_values() {
    let a = v(1, -2, 3);
    let b = v(4, 5, -6);
    let c = v(-7, 8, 9);
    assert_eq!(a.add(b), b.add(a));
    assert_eq!(a.add(b).add(c), a.add(b.add(c)));
    assert_eq!(a.dot(b), b.dot(a));
    assert_eq!(a.cross(b), b.cross(a).neg());
}

#[test]
fn length_scales_with_scalar() {
    let a = v(3, 4, 0);
    let doubled = a.scale(Scalar::from_int(2));
    assert_eq!(a.length(), Scalar::from_int(5));
    assert_eq!(doubled.length(), Scalar::from_int(10));
}

#[test]
fn unit_vector_has_length_one() {
    let a = v(3, 4, 0);
    assert_eq!(a.unit().length(), Scalar::from_int(1));
}
