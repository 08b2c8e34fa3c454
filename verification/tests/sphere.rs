use pathtracer::scalar::Scalar;
use pathtracer::sphere::nearest_root;

fn s(x: f32) -> Scalar {
    Scalar::from_bits(x.to_bits())
}

fn back(x: Scalar) -> f32 {
    f32::from_bits(x.to_bits())
}

fn dot(a: [f32; 3], b: [f32; 3]) -> f32 {
    a[0] * b[0] + a[1] * b[1] + a[2] * b[2]
}

/// Ray parameter and outward normal of the hit of a ray on a sphere.
fn sphere_hit(
    center: [f32; 3],
    radius: f32,
    origin: [f32; 3],
    direction: [f32; 3],
    t_min: f32,
    t_max: f32,
) -> Option<(f32, [f32; 3])> {
    let oc = [origin[0] - center[0], origin[1] - center[1], origin[2] - center[2]];
    let a = dot(direction, direction);
    let half_b = dot(oc, direction);
    let c = dot(oc, oc) - radius * radius;
    let discriminant = half_b * half_b - a * c;
    let sqrtd = discriminant.sqrt();
    let near = (-half_b - sqrtd) / a;
    let far = (-half_b + sqrtd) / a;
    let root = back(nearest_root(s(discriminant), s(near), s(far), s(t_min), s(t_max))?);
    let p = [origin[0] + root * direction[0], origin[1] + root * direction[1], origin[2] + root * direction[2]];
    Some((root, [(p[0] - center[0]) / radius, (p[1] - center[1]) / radius, (p[2] - center[2]) / radius]))
}

#[test]
fn ray_down_the_axis_meets_the_sphere_at_four() {
    let (t, normal) =
        sphere_hit([0.0, 0.0, -5.0], 1.0, [0.0, 0.0, 0.0], [0.0, 0.0, -1.0], 0.001, f32::INFINITY).unwrap();
    assert_eq!(t, 4.0);
    assert_eq!(normal, [0.0, 0.0, 1.0]);
}

#[test]
fn ray_from_inside_meets_the_far_side() {
    let (t, normal) =
        sphere_hit([0.0, 0.0, -5.0], 1.0, [0.0, 0.0, -5.0], [0.0, 0.0, -1.0], 0.001, f32::INFINITY).unwrap();
    assert_eq!(t, 1.0);
    assert_eq!(normal, [0.0, 0.0, -1.0]);
}

#[test]
fn ray_that_passes_by_meets_nothing() {
    assert_eq!(sphere_hit([0.0, 0.0, -5.0], 1.0, [0.0, 3.0, 0.0], [0.0, 0.0, -1.0], 0.001, f32::INFINITY), None);
    assert_eq!(sphere_hit([0.0, 0.0, -5.0], 1.0, [0.0, 0.0, 0.0], [0.0, 0.0, 1.0], 0.001, f32::INFINITY), None);
}

#[test]
fn hit_beyond_the_interval_is_no_hit() {
    assert_eq!(sphere_hit([0.0, 0.0, -5.0], 1.0, [0.0, 0.0, 0.0], [0.0, 0.0, -1.0], 0.001, 3.5), None);
    assert_eq!(sphere_hit([0.0, 0.0, -5.0], 1.0, [0.0, 0.0, 0.0], [0.0, 0.0, -1.0], 6.5, 100.0), None);
}

#[test]
fn negative_discriminant_gives_no_root() {
    assert_eq!(nearest_root(s(-1.0), s(1.0), s(2.0), s(0.0), s(10.0)), None);
    assert_eq!(nearest_root(s(-f32::MIN_POSITIVE), s(1.0), s(2.0), s(0.0), s(10.0)), None);
}

#[test]
fn zero_discriminant_gives_the_root() {
    assert_eq!(nearest_root(s(0.0), s(3.0), s(3.0), s(0.0), s(10.0)), Some(s(3.0)));
    assert_eq!(nearest_root(s(-0.0), s(3.0), s(3.0), s(0.0), s(10.0)), Some(s(3.0)));
}

#[test]
fn nearer_root_wins_where_it_is_in_range() {
    assert_eq!(nearest_root(s(1.0), s(4.0), s(6.0), s(0.001), s(f32::INFINITY)), Some(s(4.0)));
    assert_eq!(nearest_root(s(1.0), s(4.0), s(6.0), s(4.0), s(4.0)), Some(s(4.0)));
}

#[test]
fn farther_root_is_taken_where_the_nearer_is_out_of_range() {
    assert_eq!(nearest_root(s(1.0), s(-1.0), s(6.0), s(0.001), s(f32::INFINITY)), Some(s(6.0)));
    assert_eq!(nearest_root(s(1.0), s(4.0), s(6.0), s(5.0), s(6.0)), Some(s(6.0)));
}

#[test]
fn both_roots_out_of_range_give_none() {
    assert_eq!(nearest_root(s(1.0), s(-3.0), s(-1.0), s(0.001), s(f32::INFINITY)), None);
    assert_eq!(nearest_root(s(1.0), s(4.0), s(6.0), s(0.001), s(3.0)), None);
    assert_eq!(nearest_root(s(1.0), s(4.0), s(6.0), s(4.5), s(5.5)), None);
}

#[test]
fn root_that_is_not_a_number_is_out_of_no_range() {
    let root = nearest_root(s(f32::NAN), s(f32::NAN), s(f32::NAN), s(0.001), s(f32::INFINITY)).unwrap();
    assert!(back(root).is_nan());
}

#[test]
fn drawing_the_interval_in_keeps_or_drops_the_root() {
    let cases = [(1.0f32, 4.0f32, 6.0f32), (1.0, -1.0, 6.0), (0.0, 3.0, 3.0), (-1.0, 2.0, 3.0), (1.0, -5.0, -2.0)];
    for (d, near, far) in cases {
        for hi in [0.5f32, 3.0, 4.0, 5.0, 6.0, 100.0] {
            for closer in [0.5f32, 3.0, 4.0, 5.0, 6.0, 100.0] {
                if closer <= hi {
                    let wide = nearest_root(s(d), s(near), s(far), s(0.001), s(hi));
                    let narrow = nearest_root(s(d), s(near), s(far), s(0.001), s(closer));
                    let want = wide.filter(|t| back(*t) <= closer);
                    assert_eq!(narrow, want);
                }
            }
        }
    }
}
