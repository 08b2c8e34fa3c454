use pathtracer::hittable::HitRecord;
use pathtracer::material::{Bounce, Dielectric, Lambertian, Metal, Scatter, Side};
use pathtracer::ray::Ray;
use pathtracer::scalar::Scalar;
use pathtracer::texture::Uv;
use pathtracer::vec3::Vec3;

fn s(x: f32) -> Scalar {
    Scalar::from_bits(x.to_bits())
}

fn back(x: Scalar) -> f32 {
    f32::from_bits(x.to_bits())
}

fn v(x: f32, y: f32, z: f32) -> Vec3 {
    Vec3::new(s(x), s(y), s(z))
}

fn hit_at(p: Vec3) -> HitRecord {
    HitRecord { p, normal: v(0.0, 1.0, 0.0), t: s(2.0), material: 0, uv: Uv::new(s(0.25), s(0.75)) }
}

#[test]
fn scatter_new_keeps_its_parts() {
    let ray = Ray::new(v(1.0, 2.0, 3.0), v(0.0, 0.0, -1.0));
    let scatter = Scatter::new(ray, v(0.1, 0.2, 0.3));
    assert_eq!(scatter.ray, ray);
    assert_eq!(scatter.attenuation, v(0.1, 0.2, 0.3));
}

#[test]
fn ray_new_is_cast_at_time_zero() {
    let ray = Ray::new(v(1.0, 2.0, 3.0), v(0.0, 0.0, -1.0));
    assert_eq!(ray.origin, v(1.0, 2.0, 3.0));
    assert_eq!(ray.direction, v(0.0, 0.0, -1.0));
    assert_eq!(ray.time.to_bits(), 0);
    let later = Ray::at_time(v(1.0, 2.0, 3.0), v(0.0, 0.0, -1.0), s(0.5));
    assert_eq!(later.time, s(0.5));
    assert_eq!(later.origin, ray.origin);
}

#[test]
fn lambertian_attenuates_by_its_albedo() {
    let albedo = v(0.5, 0.25, 0.125);
    let material = Lambertian::new(albedo);
    for p in [v(0.0, 0.0, 0.0), v(1.0, -2.0, 3.0), v(f32::NAN, f32::INFINITY, -0.0)] {
        for dir in [v(0.0, 1.0, 0.0), v(0.3, 0.9, -0.1), v(0.0, 0.0, 0.0)] {
            let scattered = material.scatter(&hit_at(p), dir).unwrap();
            assert_eq!(scattered.attenuation, albedo);
            assert_eq!(scattered.ray.origin, p);
            assert_eq!(scattered.ray.direction, dir);
        }
    }
}

#[test]
fn metal_clamps_its_fuzziness() {
    let albedo = v(0.7, 0.6, 0.5);
    assert_eq!(back(Metal::new(albedo, s(0.3)).fuzziness), 0.3);
    assert_eq!(back(Metal::new(albedo, s(0.0)).fuzziness), 0.0);
    assert_eq!(back(Metal::new(albedo, s(1.0)).fuzziness), 1.0);
    assert_eq!(back(Metal::new(albedo, s(1.5)).fuzziness), 1.0);
    assert_eq!(back(Metal::new(albedo, s(f32::INFINITY)).fuzziness), 1.0);
    assert_eq!(back(Metal::new(albedo, s(-0.5)).fuzziness), 0.0);
    assert_eq!(back(Metal::new(albedo, s(f32::NEG_INFINITY)).fuzziness), 0.0);
    assert_eq!(back(Metal::new(albedo, s(f32::NAN)).fuzziness), 1.0);
    assert_eq!(Metal::new(albedo, s(0.3)).albedo, albedo);
}

#[test]
fn metal_clamps_as_the_machine_does() {
    let albedo = v(0.7, 0.6, 0.5);
    for x in [0.3f32, 0.0, 1.0, 1.5, -0.5, f32::INFINITY, f32::NEG_INFINITY, f32::NAN, 1e-9, 0.999] {
        assert_eq!(back(Metal::new(albedo, s(x)).fuzziness), x.min(1.0).max(0.0));
    }
}

#[test]
fn metal_scatters_outwards_and_absorbs_inwards() {
    let albedo = v(0.7, 0.6, 0.5);
    let material = Metal::new(albedo, s(0.1));
    let hit = hit_at(v(1.0, 2.0, 3.0));
    let dir = v(0.5, 0.5, 0.0);
    let out = material.scatter(&hit, dir, s(0.5)).unwrap();
    assert_eq!(out.attenuation, albedo);
    assert_eq!(out.ray.origin, v(1.0, 2.0, 3.0));
    assert_eq!(out.ray.direction, dir);
    assert_eq!(material.scatter(&hit, dir, s(0.0)), None);
    assert_eq!(material.scatter(&hit, dir, s(-0.0)), None);
    assert_eq!(material.scatter(&hit, dir, s(-0.5)), None);
    assert_eq!(material.scatter(&hit, dir, s(f32::NAN)), None);
    assert!(material.scatter(&hit, dir, s(f32::MIN_POSITIVE)).is_some());
}

#[test]
fn dielectric_tells_the_side_by_the_sign() {
    assert_eq!(Dielectric::side(s(0.5)), Side::Inside);
    assert_eq!(Dielectric::side(s(-0.5)), Side::Outside);
    assert_eq!(Dielectric::side(s(0.0)), Side::Outside);
    assert_eq!(Dielectric::side(s(f32::NAN)), Side::Outside);
}

#[test]
fn dielectric_at_normal_incidence_is_not_forced_to_reflect() {
    for ior in [1.0001f32, 1.33, 1.5, 2.4, 100.0] {
        let ratio = 1.0 / ior;
        let sin_theta = 0.0f32;
        assert!(!Dielectric::cannot_refract(s(ratio * sin_theta)));
        // with a reflectance that the draw is not below, the ray is refracted
        assert_eq!(Dielectric::bounce(s(ratio * sin_theta), s(0.04), s(0.5)), Bounce::Refract);
        assert_eq!(Dielectric::bounce(s(ratio * sin_theta), s(0.5), s(0.5)), Bounce::Refract);
    }
    assert!(!Dielectric::cannot_refract(s(-0.0)));
}

#[test]
fn dielectric_beyond_the_critical_angle_reflects() {
    let ior = 1.5f32;
    let critical_sine = 1.0 / ior;
    for sin_theta in [critical_sine + 0.01, 0.8, 0.99, 1.0] {
        let scaled = ior * sin_theta;
        assert!(Dielectric::cannot_refract(s(scaled)));
        for reflectance in [0.0f32, 0.04, 1.0] {
            for drawn in [0.0f32, 0.5, 1.0] {
                assert_eq!(Dielectric::bounce(s(scaled), s(reflectance), s(drawn)), Bounce::Reflect);
            }
        }
    }
    assert!(!Dielectric::cannot_refract(s(1.0)));
    assert!(!Dielectric::cannot_refract(s(ior * (critical_sine - 0.01))));
}

#[test]
fn dielectric_reflects_where_the_draw_is_below_the_reflectance() {
    assert_eq!(Dielectric::bounce(s(0.5), s(0.3), s(0.2)), Bounce::Reflect);
    assert_eq!(Dielectric::bounce(s(0.5), s(0.3), s(0.3)), Bounce::Refract);
    assert_eq!(Dielectric::bounce(s(0.5), s(0.3), s(0.4)), Bounce::Refract);
    assert_eq!(Dielectric::bounce(s(0.5), s(f32::NAN), s(0.4)), Bounce::Refract);
}

#[test]
fn dielectric_keeps_all_light() {
    let material = Dielectric::new(s(1.5));
    assert_eq!(back(material.ir), 1.5);
    let hit = hit_at(v(1.0, 2.0, 3.0));
    let dir = v(0.0, -1.0, 0.0);
    let out = material.scatter(&hit, dir).unwrap();
    assert_eq!(out.attenuation, v(1.0, 1.0, 1.0));
    assert_eq!(out.ray.origin, v(1.0, 2.0, 3.0));
    assert_eq!(out.ray.direction, dir);
}
