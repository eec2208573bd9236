use g6_control::value::Value;

fn v(x: f32) -> Value {
    Value { bits: x.to_bits() }
}

fn same(a: Value, x: f32) -> bool {
    if x.is_nan() {
        a.not_a_number()
    } else {
        a.bits == x.to_bits()
    }
}

fn samples() -> Vec<f32> {
    let mut list: Vec<f32> = vec![
        0.0,
        -0.0,
        1.0,
        -1.0,
        1.5,
        0.1,
        0.06,
        0.94,
        100.0,
        150.0,
        32768.0,
        16777216.0,
        16777217.0,
        3.4e38,
        f32::MAX,
        f32::MIN_POSITIVE,
        1.0e-45,
        -1.0e-45,
        1.0e-38,
        f32::INFINITY,
        f32::NEG_INFINITY,
        f32::NAN,
        0.5,
        2.5,
        -2.5,
        0.49999997,
        8388607.5,
        8388608.5,
        1234.5678,
        -987.654,
    ];
    let mut seed: u32 = 12345;
    for _ in 0..120 {
        seed = seed.wrapping_mul(1664525).wrapping_add(1013904223);
        list.push(f32::from_bits(seed ^ (seed >> 7)));
    }
    list
}

#[test]
fn products_round_as_the_format_asks() {
    for a in samples() {
        for b in samples() {
            assert!(same(v(a).times(v(b)), a * b), "{} * {}", a, b);
        }
    }
}

#[test]
fn quotients_round_as_the_format_asks() {
    for a in samples() {
        for b in samples() {
            assert!(same(v(a).over(v(b)), a / b), "{} / {}", a, b);
        }
    }
}

#[test]
fn sums_round_as_the_format_asks() {
    for a in samples() {
        for b in samples() {
            assert!(same(v(a).plus(v(b)), a + b), "{} + {}", a, b);
            assert!(same(v(a).minus(v(b)), a - b), "{} - {}", a, b);
        }
    }
}

#[test]
fn whole_numbers_become_values() {
    for n in [0, 1, -1, 7, 16777216, 16777217, 16777219, i32::MAX, i32::MIN, 123456789] {
        assert_eq!(Value::of_int(n), v(n as f32));
    }
    for n in [0u128, 1, 1 << 31, (1 << 77) + 1, u128::MAX, (1 << 127) + (1 << 103)] {
        assert_eq!(Value::of_large(n), v(n as f32));
    }
}

#[test]
fn rounding_goes_away_from_zero_in_the_middle() {
    for a in samples() {
        assert!(same(v(a).round(), a.round()), "{}", a);
        assert_eq!(v(a).round_to_int(), a.round() as i32, "{}", a);
        assert_eq!(v(a).to_int(), a as i32, "{}", a);
        assert_eq!(v(a).to_byte(), a as u8, "{}", a);
    }
    assert_eq!(v(0.5).round_to_int(), 1);
    assert_eq!(v(-0.5).round_to_int(), -1);
    assert_eq!(v(0.49999997).round_to_int(), 0);
}

#[test]
fn bounds_hold_values_and_let_pass_what_is_no_number() {
    for a in samples() {
        assert!(same(v(a).within(v(0.0), v(1.5)), a.clamp(0.0, 1.5)), "{}", a);
    }
}

#[test]
fn comparisons_are_those_of_numbers() {
    for a in samples() {
        for b in samples() {
            assert_eq!(v(a).same_number(v(b)), a == b);
            assert_eq!(v(a).reaches(v(b)), a >= b);
            assert_eq!(v(a).exceeds(v(b)), a > b);
        }
    }
    assert!(v(0.0).same_number(v(-0.0)));
    assert!(!v(f32::NAN).same_number(v(f32::NAN)));
}

#[test]
fn bytes_travel_least_significant_first() {
    for a in samples() {
        assert_eq!(v(a).to_le(), a.to_le_bytes());
        let b = a.to_le_bytes();
        assert_eq!(Value::from_le(b[0], b[1], b[2], b[3]).bits, a.to_bits());
    }
}

#[test]
fn whole_numbers_are_recognised() {
    assert!(v(4.0).equals_whole(4));
    assert!(!v(4.5).equals_whole(4));
    assert!(v(-12.0).lies_between(-12, 12));
    assert!(v(12.0).lies_between(-12, 12));
    assert!(!v(12.000001).lies_between(-12, 12));
    assert!(!v(f32::NAN).lies_between(-12, 12));
    assert!(v(0.50000006).is_on());
    assert!(!v(0.5).is_on());
    assert!(v(1.0e-45).is_positive());
    assert!(!v(-0.0).is_positive());
    assert_eq!(Value::of_whole(-300), v(-300.0));
}
