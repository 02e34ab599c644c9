use rustray::{average_update, Canvas, ImageData, Scalar, Vec3};

fn v(x: i64, y: i64, z: i64) -> Vec3 {
    Vec3::new(Scalar::from_int(x), Scalar::from_int(y), Scalar::from_int(z))
}

#[test]
fn canvas_test_blank_canvas() {
    assert_eq!(Canvas::new_blank(16, 9, v(0, 0, 0)).canvas.len(), 16 * 9);
}

#[test]
fn canvas_test_into_vec() {
    let canvas = Canvas::new_blank(2, 1, v(0, 0, 0));
    let as_vec: Vec<Vec3> = canvas.into_vec();
    assert_eq!(as_vec, vec![v(0, 0, 0), v(0, 0, 0)]);
    canvas.update_pixel(0, 0, |_| v(1, 1, 1));
    assert_eq!(canvas.read_pixel(0, 0), v(1, 1, 1));
    assert_eq!(canvas.read_pixel(1, 0), v(0, 0, 0));
    assert_eq!(as_vec, vec![v(0, 0, 0), v(0, 0, 0)]);
}

#[test]
fn image_data_test_blank_canvas() {
    assert_eq!(ImageData::new_blank(16, 9, v(0, 0, 0)).canvas.len(), 16 * 9);
}

#[test]
fn image_data_test_into_vec() {
    let canvas = ImageData::new_blank(2, 1, v(0, 0, 0));
    let as_vec: Vec<Vec3> = canvas.into_vec();
    assert_eq!(as_vec, vec![v(0, 0, 0), v(0, 0, 0)]);
    canvas.update_pixel(0, 0, |_| v(1, 1, 1));
    assert_eq!(canvas.get_pixel(0, 0), v(1, 1, 1));
    assert_eq!(canvas.get_pixel(1, 0), v(0, 0, 0));
    assert_eq!(as_vec, vec![v(0, 0, 0), v(0, 0, 0)]);
}

#[test]
fn canvas_sizes_are_kept() {
    let canvas = Canvas::new_blank(7, 5, v(0, 0, 0));
    assert_eq!(canvas.x_size(), 7);
    assert_eq!(canvas.y_size(), 5);
    let image = ImageData::new_blank(7, 5, v(0, 0, 0));
    assert_eq!(image.x_size(), 7);
    assert_eq!(image.y_size(), 5);
}

#[test]
fn completion_counter_starts_at_zero_and_updates() {
    let image = ImageData::new_blank(2, 2, v(0, 0, 0));
    assert_eq!(image.get_complete(), Scalar::zero());
    let half = Scalar::from_units(500_000);
    image.update_complete(|prev| prev.add(half));
    assert_eq!(image.get_complete(), half);
}

#[test]
fn progressive_average_of_three_samples() {
    let image = ImageData::new_blank(1, 1, v(0, 0, 0));
    let samples = [v(1, 1, 1), v(2, 2, 2), v(3, 3, 3)];
    for (k, sample) in samples.iter().enumerate() {
        let value = *sample;
        image.update_pixel(0, 0, move |old| average_update(old, value, k as i32));
    }
    assert_eq!(image.get_pixel(0, 0), v(2, 2, 2));
}
