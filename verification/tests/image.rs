use pathtracer::hittable::HitRecord;
use pathtracer::image::{push_decimal, render_ppm, trace_path, PathEnd};
use pathtracer::material::Scatter;
use pathtracer::ray::Ray;
use pathtracer::scalar::Scalar;
use pathtracer::texture::Uv;
use pathtracer::vec3::Vec3;

fn s(x: f32) -> Scalar {
    Scalar::from_bits(x.to_bits())
}

fn back(x: Scalar) -> f32 {
    f32::from_bits(x.to_bits())
}

fn v(x: f32, y: f32, z: f32) -> Vec3 {
    Vec3::new(s(x), s(y), s(z))
}

fn decimal(n: u32) -> String {
    let mut out = String::new();
    push_decimal(&mut out, n);
    out
}

#[test]
fn decimal_writes_as_the_machine_does() {
    for n in [0u32, 1, 9, 10, 11, 99, 100, 101, 255, 256, 1000, 65535, 720, 1280, 4294967295] {
        assert_eq!(decimal(n), n.to_string());
    }
}

#[test]
fn decimal_is_written_at_the_end() {
    let mut out = String::from("x=");
    push_decimal(&mut out, 42);
    push_decimal(&mut out, 7);
    assert_eq!(out, "x=427");
}

#[test]
fn two_by_two_image_as_text() {
    let raster = vec![255, 0, 0, 0, 255, 0, 0, 0, 255, 12, 34, 56];
    assert_eq!(render_ppm([2, 2], &raster), "P3\n2 2\n255\n255 0 0 0 255 0\n0 0 255 12 34 56\n");
}

#[test]
fn one_pixel_image_as_text() {
    assert_eq!(render_ppm([1, 1], &vec![1, 20, 255]), "P3\n1 1\n255\n1 20 255\n");
}

#[test]
fn wide_and_tall_images_as_text() {
    assert_eq!(render_ppm([3, 1], &vec![1, 2, 3, 4, 5, 6, 7, 8, 9]), "P3\n3 1\n255\n1 2 3 4 5 6 7 8 9\n");
    assert_eq!(render_ppm([1, 3], &vec![1, 2, 3, 4, 5, 6, 7, 8, 9]), "P3\n1 3\n255\n1 2 3\n4 5 6\n7 8 9\n");
}

#[test]
fn empty_images_as_text() {
    assert_eq!(render_ppm([0, 0], &vec![]), "P3\n0 0\n255\n\n");
    assert_eq!(render_ppm([5, 0], &vec![]), "P3\n5 0\n255\n\n");
    assert_eq!(render_ppm([0, 3], &vec![]), "P3\n0 3\n255\n\n\n\n");
}

#[test]
fn large_image_has_one_line_for_each_scanline() {
    let width = 16u32;
    let height = 9u32;
    let raster: Vec<u8> = (0..3 * width * height).map(|k| (k % 256) as u8).collect();
    let text = render_ppm([width, height], &raster);
    let lines: Vec<&str> = text.split('\n').collect();
    assert_eq!(lines.len(), 3 + 9 + 1);
    assert_eq!(lines[0], "P3");
    assert_eq!(lines[1], "16 9");
    assert_eq!(lines[2], "255");
    assert_eq!(lines[12], "");
    let mut k = 0usize;
    for line in &lines[3..12] {
        let values: Vec<&str> = line.split(' ').collect();
        assert_eq!(values.len(), 48);
        for value in values {
            assert_eq!(value, raster[k].to_string());
            k += 1;
        }
    }
}

fn record(t: f32, material: usize) -> HitRecord {
    HitRecord { p: v(0.0, t, 0.0), normal: v(0.0, 1.0, 0.0), t: s(t), material, uv: Uv::new(s(0.0), s(0.0)) }
}

#[test]
fn path_without_budget_is_exhausted_at_once() {
    let ray = Ray::new(v(0.0, 0.0, 0.0), v(0.0, 0.0, -1.0));
    let path = trace_path(
        &ray,
        0,
        &|_r: &Ray| -> Option<HitRecord> { panic!("no ray is cast") },
        &|_r: &Ray, _h: &HitRecord| -> Option<Scatter> { panic!("no material is asked") },
    );
    assert_eq!(path.end, PathEnd::Exhausted);
    assert!(path.attenuations.is_empty());
    assert_eq!(path.last, ray);
}

#[test]
fn path_that_meets_nothing_escapes() {
    let ray = Ray::new(v(0.0, 0.0, 0.0), v(0.0, 0.0, -1.0));
    let path = trace_path(&ray, 5, &|_r: &Ray| None, &|_r: &Ray, _h: &HitRecord| -> Option<Scatter> {
        panic!("no material is asked")
    });
    assert_eq!(path.end, PathEnd::Escaped);
    assert!(path.attenuations.is_empty());
    assert_eq!(path.last, ray);
}

#[test]
fn path_that_is_absorbed_ends_there() {
    let ray = Ray::new(v(0.0, 0.0, 0.0), v(0.0, 0.0, -1.0));
    let path = trace_path(&ray, 5, &|_r: &Ray| Some(record(1.0, 0)), &|_r: &Ray, _h: &HitRecord| None);
    assert_eq!(path.end, PathEnd::Absorbed);
    assert!(path.attenuations.is_empty());
    assert_eq!(path.last, ray);
}

#[test]
fn path_bounces_until_it_escapes() {
    // the scene is met by rays that start below height 3; each bounce lifts the ray by one
    let meets = |r: &Ray| if back(r.origin.y) < 3.0 { Some(record(back(r.origin.y), 0)) } else { None };
    let scatters = |r: &Ray, h: &HitRecord| {
        let height = back(h.t) + 1.0;
        Some(Scatter::new(Ray::new(v(0.0, height, 0.0), r.direction), v(height, 0.5, 0.5)))
    };
    let ray = Ray::new(v(0.0, 0.0, 0.0), v(0.0, 1.0, 0.0));
    let path = trace_path(&ray, 10, &meets, &scatters);
    assert_eq!(path.end, PathEnd::Escaped);
    assert_eq!(path.attenuations, vec![v(1.0, 0.5, 0.5), v(2.0, 0.5, 0.5), v(3.0, 0.5, 0.5)]);
    assert_eq!(path.last, Ray::new(v(0.0, 3.0, 0.0), v(0.0, 1.0, 0.0)));
}

#[test]
fn path_stops_where_the_budget_is_spent() {
    let meets = |r: &Ray| Some(record(back(r.origin.y), 0));
    let scatters = |r: &Ray, h: &HitRecord| {
        let height = back(h.t) + 1.0;
        Some(Scatter::new(Ray::new(v(0.0, height, 0.0), r.direction), v(height, 0.5, 0.5)))
    };
    let ray = Ray::new(v(0.0, 0.0, 0.0), v(0.0, 1.0, 0.0));
    let path = trace_path(&ray, 2, &meets, &scatters);
    assert_eq!(path.end, PathEnd::Exhausted);
    assert_eq!(path.attenuations, vec![v(1.0, 0.5, 0.5), v(2.0, 0.5, 0.5)]);
    assert_eq!(path.last, Ray::new(v(0.0, 2.0, 0.0), v(0.0, 1.0, 0.0)));
}
