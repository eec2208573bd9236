use g6_control::equalizer::{band_centers, band_ids, response_at, shown_gains};
use g6_control::feature::FeatureId;
use g6_control::meter::{meter_color, peak, Meter};
use g6_control::table::FeatureTable;
use g6_control::value::Value;

fn v(x: f32) -> Value {
    Value { bits: x.to_bits() }
}

fn f(value: Value) -> f32 {
    f32::from_bits(value.bits)
}

fn sound(samples: &[i16]) -> Vec<u8> {
    samples.iter().flat_map(|s| s.to_le_bytes()).collect()
}

#[test]
fn peaks_are_the_loudest_samples() {
    assert_eq!(peak(&sound(&[])), 0);
    assert_eq!(peak(&sound(&[3, -7, 5])), 7);
    assert_eq!(peak(&sound(&[i16::MIN, i16::MAX])), 32768);
    assert_eq!(peak(&[0xff, 0x7f, 0x00]), 32767);
    assert_eq!(peak(&[0x01]), 0);
}

#[test]
fn meters_rise_at_once_and_fall_slowly() {
    let mut meter = Meter::new();
    let mut bar = 0.0f32;
    let mut hold = 0.0f32;
    let mut frames = 0u32;
    let mut seed: u32 = 5;
    for round in 0..400 {
        seed = seed.wrapping_mul(1664525).wrapping_add(1013904223);
        let top = if round % 120 == 3 { 32768 } else { (seed >> 20) as i32 };
        let sample = if top == 32768 { i16::MIN } else { top as i16 };
        let p = top as f32 / 32768.0;
        bar = if p >= bar { p } else { bar * 0.94 + p * 0.06 };
        if p >= hold {
            hold = p;
            frames = 0;
        } else if frames < 50 {
            frames += 1;
        } else {
            hold *= 0.94;
        }
        if hold < bar {
            hold = bar;
        }
        meter.feed(&sound(&[sample, 0]));
        assert_eq!(meter.bar.bits, bar.to_bits());
        assert_eq!(meter.hold.bits, hold.to_bits());
        assert_eq!(meter.frames, frames);
        assert!(f(meter.hold) >= f(meter.bar) && f(meter.hold) <= 1.0);
    }
}

fn mix(x: u8, y: u8, t: f32) -> u8 {
    (x as f32 + (y as f32 - x as f32) * t).round() as u8
}

#[test]
fn meter_colors_run_from_green_to_red() {
    for i in 0..=200 {
        let frac = i as f32 / 200.0;
        let (a, b, t) = if frac < 0.67 {
            ((70, 200, 70), (110, 210, 80), (frac / 0.67).clamp(0.0, 1.0))
        } else if frac < 0.85 {
            (
                (110, 210, 80),
                (220, 200, 60),
                ((frac - 0.67) / (0.85 - 0.67)).clamp(0.0, 1.0),
            )
        } else {
            (
                (220, 200, 60),
                (220, 70, 70),
                ((frac - 0.85) / (1.00 - 0.85)).clamp(0.0, 1.0),
            )
        };
        let color = meter_color(v(frac));
        assert_eq!(
            (color.red, color.green, color.blue),
            (mix(a.0, b.0, t), mix(a.1, b.1, t), mix(a.2, b.2, t))
        );
    }
    let start = meter_color(v(0.0));
    assert_eq!((start.red, start.green, start.blue), (70, 200, 70));
    let end = meter_color(v(1.0));
    assert_eq!((end.red, end.green, end.blue), (220, 70, 70));
}

#[test]
fn responses_add_the_bands() {
    let gains: [f32; 10] = [3.0, -2.5, 0.005, 0.0, 12.0, -12.0, 4.5, 1.0, -0.02, 6.0];
    let centers = band_centers();
    for step in 0..200 {
        let frequency = 20.0f32 * 1.035f32.powi(step);
        let mut db = 1.5f32;
        for (i, gain) in gains.iter().enumerate() {
            if gain.abs() < 0.01 {
                continue;
            }
            let fc = centers[i] as f32;
            let half_bw = fc / (2.0 * 1.41);
            let away = (frequency - fc) / half_bw;
            db += gain / (1.0 + away * away);
        }
        let list = gains.map(v);
        assert_eq!(
            response_at(v(1.5), &list, v(frequency)).bits,
            db.clamp(-12.0, 12.0).to_bits()
        );
    }
    let flat = [v(0.0); 10];
    assert_eq!(f(response_at(v(-3.0), &flat, v(440.0))), -3.0);
    assert_eq!(f(response_at(v(40.0), &flat, v(440.0))), 12.0);
}

#[test]
fn gains_are_those_of_the_bands() {
    let mut table = FeatureTable::new();
    table.insert(FeatureId::Eq1kHz, v(4.5));
    let gains = shown_gains(&table);
    assert_eq!(f(gains[5]), 4.5);
    assert_eq!(f(gains[4]), 0.0);
    assert_eq!(band_ids()[5], FeatureId::Eq1kHz);
    assert_eq!(band_centers()[5], 1000);
}
