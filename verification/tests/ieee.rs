use gurukul::ieee::F32;

fn f(x: f32) -> F32 {
    F32 { bits: x.to_bits() }
}

const SAMPLES: [f32; 14] = [
    f32::NEG_INFINITY,
    f32::MIN,
    -440.5,
    -1.0,
    -f32::MIN_POSITIVE,
    -0.0,
    0.0,
    1e-45,
    f32::MIN_POSITIVE,
    0.5,
    1.0,
    261.63,
    f32::MAX,
    f32::INFINITY,
];

#[test]
fn comparisons_are_those_of_the_values() {
    for a in SAMPLES {
        for b in SAMPLES {
            assert_eq!(f(a).lt(f(b)), a < b, "{a} < {b}");
            assert_eq!(f(a).le(f(b)), a <= b, "{a} <= {b}");
            assert_eq!(f(a).equals(f(b)), a == b, "{a} == {b}");
            assert_eq!(
                f(a).total_order() < f(b).total_order(),
                a.total_cmp(&b).is_lt(),
                "total order of {a} and {b}"
            );
        }
    }
}

#[test]
fn what_is_no_number_compares_with_nothing() {
    let nan = f(f32::NAN);
    assert!(nan.is_nan());
    assert!(f(-f32::NAN).is_nan());
    for a in SAMPLES {
        assert!(!f(a).is_nan());
        assert!(!nan.lt(f(a)) && !f(a).lt(nan));
        assert!(!nan.le(f(a)) && !f(a).le(nan));
        assert!(!nan.equals(f(a)));
    }
    assert!(!nan.equals(nan));
}

#[test]
fn the_greater_and_the_lesser_pass_over_what_is_no_number() {
    let nan = f(f32::NAN);
    assert_eq!(nan.max(f(1.0)), f(1.0));
    assert_eq!(f(1.0).max(nan), f(1.0));
    assert_eq!(nan.min(f(1.0)), f(1.0));
    assert_eq!(f(1.0).min(nan), f(1.0));
    for a in SAMPLES {
        for b in SAMPLES {
            assert!(f(a).max(f(b)).equals(f(a.max(b))));
            assert!(f(a).min(f(b)).equals(f(a.min(b))));
        }
    }
}

#[test]
fn only_numbers_above_zero_are_positive() {
    for a in SAMPLES {
        assert_eq!(f(a).is_positive(), a > 0.0);
    }
    assert!(!f(f32::NAN).is_positive());
}

#[test]
fn the_total_order_tells_the_zeros_apart() {
    assert!(f(-0.0).total_order() < f(0.0).total_order());
    assert!(f(f32::INFINITY).total_order() < f(f32::NAN).total_order());
}
