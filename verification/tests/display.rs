use g6_control::display::{
    bubble_text, integer_text, pad, percent_text, tenths_text, volume_text, whole_text,
};
use g6_control::value::Value;

fn v(x: f32) -> Value {
    Value { bits: x.to_bits() }
}

fn samples() -> Vec<f32> {
    let mut list: Vec<f32> = vec![
        0.0,
        -0.0,
        0.5,
        1.5,
        2.5,
        -0.5,
        -1.5,
        0.25,
        0.35,
        -0.05,
        0.05,
        -12.0,
        12.0,
        4.5,
        300.0,
        99.95,
        1.0e9,
        3.4028235e38,
        1.0e-40,
        f32::INFINITY,
        f32::NEG_INFINITY,
        f32::NAN,
        8388608.0,
        8388607.5,
        16777217.0,
    ];
    let mut seed: u32 = 99;
    for _ in 0..200 {
        seed = seed.wrapping_mul(1664525).wrapping_add(1013904223);
        list.push((seed as f32) / 4294967296.0 * 40.0 - 20.0);
        list.push(f32::from_bits(seed));
    }
    list
}

#[test]
fn whole_values_print_without_a_point() {
    for x in samples() {
        assert_eq!(whole_text(v(x)), format!("{:.0}", x));
    }
    assert_eq!(whole_text(v(2.5)), "2");
    assert_eq!(whole_text(v(3.5)), "4");
}

#[test]
fn decibels_print_with_sign_and_one_place() {
    for x in samples() {
        assert_eq!(tenths_text(v(x)), format!("{:>+5.1}", x));
    }
    assert_eq!(tenths_text(v(4.5)), " +4.5");
    assert_eq!(tenths_text(v(-12.0)), "-12.0");
}

#[test]
fn percentages_print_on_three_places() {
    for x in samples() {
        assert_eq!(percent_text(v(x)), format!("{:>3}%", (x * 100.0).round() as i32));
    }
    assert_eq!(percent_text(v(0.07)), "  7%");
}

#[test]
fn bubbles_print_volumes_within_their_range() {
    for x in samples() {
        assert_eq!(bubble_text(v(x)), format!("{:.0}%", x.clamp(0.0, 1.5) * 100.0));
    }
    assert_eq!(bubble_text(v(0.94)), "94%");
    assert_eq!(bubble_text(v(7.0)), "150%");
}

#[test]
fn asked_volumes_stay_between_zero_and_one_fifty() {
    for x in samples() {
        let percent = (x * 100.0).round().clamp(0.0, 150.0) as u32;
        assert_eq!(volume_text(v(x)), format!("{percent}%"));
    }
}

#[test]
fn padding_never_cuts() {
    assert_eq!(pad("on", 3), " on");
    assert_eq!(pad("off", 3), "off");
    assert_eq!(pad("long", 3), "long");
    assert_eq!(integer_text(-2147483648), "-2147483648");
    assert_eq!(integer_text(0), "0");
}
