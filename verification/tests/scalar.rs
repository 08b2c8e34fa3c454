use pathtracer::scalar::Scalar;

fn s(x: f32) -> Scalar {
    Scalar::from_bits(x.to_bits())
}

fn back(x: Scalar) -> f32 {
    f32::from_bits(x.to_bits())
}

fn samples() -> Vec<f32> {
    vec![
        0.0,
        -0.0,
        1.0,
        -1.0,
        0.5,
        -0.5,
        4.0,
        255.99,
        0.001,
        -1000.0,
        f32::MIN_POSITIVE,
        -f32::MIN_POSITIVE,
        f32::from_bits(1),
        f32::from_bits(0x8000_0001),
        f32::MAX,
        f32::MIN,
        f32::INFINITY,
        f32::NEG_INFINITY,
        f32::NAN,
        -f32::NAN,
        f32::from_bits(0x7f80_0001),
        f32::from_bits(0xffff_ffff),
    ]
}

#[test]
fn bits_round_trip() {
    for x in samples() {
        assert_eq!(s(x).to_bits(), x.to_bits());
        assert_eq!(back(s(x)).to_bits(), x.to_bits());
    }
}

#[test]
fn is_nan_agrees_with_the_machine() {
    for x in samples() {
        assert_eq!(s(x).is_nan(), x.is_nan(), "{x}");
    }
}

#[test]
fn comparisons_agree_with_the_machine() {
    for a in samples() {
        for b in samples() {
            assert_eq!(s(a).lt(s(b)), a < b, "{a} < {b}");
            assert_eq!(s(a).le(s(b)), a <= b, "{a} <= {b}");
            assert_eq!(s(a).gt(s(b)), a > b, "{a} > {b}");
            assert_eq!(s(a).ge(s(b)), a >= b, "{a} >= {b}");
        }
    }
}

#[test]
fn min_and_max_agree_with_the_machine_in_value() {
    for a in samples() {
        for b in samples() {
            let least = back(s(a).min(s(b)));
            let greatest = back(s(a).max(s(b)));
            let want_least = a.min(b);
            let want_greatest = a.max(b);
            assert_eq!(least.is_nan(), want_least.is_nan(), "min({a}, {b})");
            assert_eq!(greatest.is_nan(), want_greatest.is_nan(), "max({a}, {b})");
            if !want_least.is_nan() {
                assert!(least == want_least, "min({a}, {b})");
            }
            if !want_greatest.is_nan() {
                assert!(greatest == want_greatest, "max({a}, {b})");
            }
        }
    }
}

#[test]
fn min_of_a_number_and_no_number_is_the_number() {
    assert_eq!(s(f32::NAN).min(s(3.0)), s(3.0));
    assert_eq!(s(3.0).min(s(f32::NAN)), s(3.0));
    assert_eq!(s(f32::NAN).max(s(3.0)), s(3.0));
    assert_eq!(s(3.0).max(s(f32::NAN)), s(3.0));
}

#[test]
fn min_of_equal_places_is_the_receiver() {
    assert_eq!(s(0.0).min(s(-0.0)).to_bits(), 0);
    assert_eq!(s(-0.0).min(s(0.0)).to_bits(), 0x8000_0000);
    assert_eq!(s(0.0).max(s(-0.0)).to_bits(), 0);
    assert_eq!(s(-0.0).max(s(0.0)).to_bits(), 0x8000_0000);
}

#[test]
fn position_merges_the_zeros_and_orders_the_rest() {
    assert_eq!(s(0.0).position(), 0);
    assert_eq!(s(-0.0).position(), 0);
    assert_eq!(s(1.0).position(), 0x3f80_0000);
    assert_eq!(s(-1.0).position(), -0x3f80_0000);
    assert_eq!(s(f32::INFINITY).position(), 0x7f80_0000);
    assert_eq!(s(f32::NEG_INFINITY).position(), -0x7f80_0000);
    assert!(s(0.5).position() < s(4.0).position());
    assert!(s(-4.0).position() < s(-0.5).position());
}

#[test]
fn total_order_key_orders_as_the_total_order_of_the_machine() {
    for a in samples() {
        for b in samples() {
            let ka = s(a).total_order_key();
            let kb = s(b).total_order_key();
            assert_eq!(ka < kb, a.total_cmp(&b).is_lt(), "{a} vs {b}");
            assert_eq!(ka == kb, a.total_cmp(&b).is_eq(), "{a} vs {b}");
        }
    }
}

#[test]
fn total_order_key_of_the_landmarks() {
    assert_eq!(s(0.0).total_order_key(), 0);
    assert_eq!(s(-0.0).total_order_key(), -1);
    assert_eq!(s(1.0).total_order_key(), 0x3f80_0000);
    assert_eq!(s(-1.0).total_order_key(), -0x3f80_0001);
    assert_eq!(s(f32::from_bits(0x7fff_ffff)).total_order_key(), i32::MAX);
    assert_eq!(s(f32::from_bits(0xffff_ffff)).total_order_key(), i32::MIN);
}

#[test]
fn constants_hold_their_numbers() {
    assert_eq!(back(Scalar::zero()), 0.0);
    assert!(back(Scalar::zero()).is_sign_positive());
    assert_eq!(back(Scalar::one()), 1.0);
    assert_eq!(back(Scalar::infinity()), f32::INFINITY);
    assert_eq!(back(Scalar::neg_infinity()), f32::NEG_INFINITY);
}
