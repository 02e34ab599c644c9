use vstd::prelude::*;

mod camera;
mod canvas;
mod hittable;
mod image_data;
mod material;
mod ray;
mod sampling;
mod scalar;
mod tracer;
mod vec3;

pub use camera::Camera;
pub use canvas::Canvas;
pub use hittable::{Hit, Hittable, Sphere, World};
pub use image_data::ImageData;
pub use material::{
    interact_with_dielectric, interact_with_lambertian, interact_with_metal, reflect, refract,
    schlick, LightInteraction, Material, ScatteredRay,
};
pub use ray::Ray;
pub use sampling::{random_fraction, random_in_unit_disk, random_in_unit_sphere};
pub use scalar::Scalar;
pub use tracer::{
    average_update, color, draw_to_image_data, draw_to_image_data_for_pixel, get_pixel,
    get_pixel_with_randomness, interpolate, render_work_item, sky_color, work_items, WorkItem,
};
pub use vec3::Vec3;

verus! {

} // verus!
