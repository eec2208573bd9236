use g6_control::feature::{FeatureId, ValueError};
use g6_control::packet::{
    find_interface, no_response_text, probe_answered, probe_request, read_reply, read_request,
    unknown_mode_text, write_report, Attempt, InterfaceInfo, Question, Reading, INTERFACE,
    MAX_READ_ATTEMPTS, PRODUCT_ID, VENDOR_ID,
};
use g6_control::value::Value;

fn v(x: f32) -> Value {
    Value { bits: x.to_bits() }
}

fn starts(report: &[u8; 65], front: &[u8]) -> bool {
    report[..front.len()] == *front && report[front.len()..].iter().all(|b| *b == 0)
}

#[test]
fn writes_are_framed() {
    assert!(starts(
        &write_report(FeatureId::SurroundLevel, v(0.5)),
        &[0, 0x5a, 0x12, 0x07, 0x01, 0x96, 0x01, 0x00, 0x00, 0x00, 0x3f]
    ));
    assert!(starts(
        &write_report(FeatureId::Eq16kHz, v(-12.0)),
        &[0, 0x5a, 0x12, 0x07, 0x01, 0x96, 0x14, 0x00, 0x00, 0x40, 0xc1]
    ));
    assert!(starts(
        &write_report(FeatureId::SbxMaster, v(1.0)),
        &[0, 0x5a, 0x26, 0x05, 0x07, 0x01, 0x00, 0x01]
    ));
    assert!(starts(
        &write_report(FeatureId::ScoutMode, v(0.0)),
        &[0, 0x5a, 0x26, 0x05, 0x07, 0x02]
    ));
    assert!(starts(
        &write_report(FeatureId::Output, v(1.0)),
        &[0, 0x5a, 0x2c, 0x05, 0x00, 0x04]
    ));
    assert!(starts(
        &write_report(FeatureId::Output, v(0.0)),
        &[0, 0x5a, 0x2c, 0x05, 0x00, 0x02]
    ));
    assert!(starts(
        &write_report(FeatureId::DacFilter, v(4.0)),
        &[0, 0x5a, 0x6c, 0x03, 0x00, 0x05]
    ));
    assert!(starts(
        &write_report(FeatureId::DacFilter, v(300.0)),
        &[0, 0x5a, 0x6c, 0x03, 0x00, 0x05]
    ));
    assert!(starts(
        &write_report(FeatureId::DacFilter, v(-1.0)),
        &[0, 0x5a, 0x6c, 0x03, 0x00, 0x01]
    ));
}

#[test]
fn questions_are_framed() {
    assert!(starts(
        &read_request(FeatureId::BassLevel),
        &[0, 0x5a, 0x11, 0x03, 0x01, 0x96, 0x19]
    ));
    assert!(starts(
        &read_request(FeatureId::ScoutMode),
        &[0, 0x5a, 0x26, 0x03, 0x08, 0xff, 0xff]
    ));
    assert!(starts(
        &read_request(FeatureId::Output),
        &[0, 0x5a, 0x2c, 0x01, 0x01]
    ));
    assert!(starts(
        &read_request(FeatureId::DacFilter),
        &[0, 0x5a, 0x6c, 0x01, 0x01]
    ));
    assert_eq!(probe_request(), read_request(FeatureId::Output));
    assert!(probe_answered(true, Some(1)));
    assert!(!probe_answered(true, Some(0)));
    assert!(!probe_answered(true, None));
    assert!(!probe_answered(false, Some(1)));
}

fn reply(front: &[u8]) -> [u8; 64] {
    let mut bytes = [0u8; 64];
    bytes[..front.len()].copy_from_slice(front);
    bytes
}

#[test]
fn answers_are_read() {
    let level = reply(&[0x5a, 0x11, 0x08, 0x01, 0x00, 0x96, 0x01, 0x00, 0x00, 0x00, 0x3f]);
    assert_eq!(
        read_reply(FeatureId::SurroundLevel, &level),
        Reading::Known(v(0.5))
    );
    let flags = reply(&[0x5a, 0x26, 0, 0, 0, 0, 0x02]);
    assert_eq!(
        read_reply(FeatureId::SbxMaster, &flags),
        Reading::Known(v(0.0))
    );
    assert_eq!(
        read_reply(FeatureId::ScoutMode, &flags),
        Reading::Known(v(1.0))
    );
    for (mode, reading) in [
        (2, Reading::Known(v(0.0))),
        (4, Reading::Known(v(1.0))),
        (7, Reading::UnknownMode(7)),
    ] {
        assert_eq!(
            read_reply(FeatureId::Output, &reply(&[0x5a, 0x2c, 0, 0, mode])),
            reading
        );
    }
    for (number, value) in [(0, 0.0), (1, 0.0), (5, 4.0), (255, 254.0)] {
        assert_eq!(
            read_reply(FeatureId::DacFilter, &reply(&[0x5a, 0x6c, 0, 0, number])),
            Reading::Known(v(value))
        );
    }
    assert_eq!(unknown_mode_text(7), "unknown output mode 0x07");
}

#[test]
fn reads_wait_for_their_answer() {
    let mut question = Question::ask(FeatureId::SurroundLevel);
    let other = reply(&[0x5a, 0x11, 0x08, 0x01, 0x00, 0x96, 0x02]);
    let right = reply(&[0x5a, 0x11, 0x08, 0x01, 0x00, 0x96, 0x01, 0, 0, 0x80, 0x3f]);
    assert_eq!(question.receive(0, &right), Attempt::Again);
    assert_eq!(question.receive(64, &other), Attempt::Again);
    assert_eq!(
        question.receive(64, &right),
        Attempt::Answer(Reading::Known(v(1.0)))
    );
    assert_eq!(question.attempts_left, MAX_READ_ATTEMPTS - 3);
    let mut silent = Question::ask(FeatureId::Output);
    for _ in 1..MAX_READ_ATTEMPTS {
        assert_eq!(silent.receive(0, &[0u8; 64]), Attempt::Again);
    }
    assert_eq!(silent.receive(0, &[0u8; 64]), Attempt::NoResponse);
    assert_eq!(silent.receive(0, &[0u8; 64]), Attempt::NoResponse);
    assert_eq!(
        no_response_text(FeatureId::Output),
        "no response with cmd 0x2c"
    );
    assert_eq!(
        no_response_text(FeatureId::BassLevel),
        "no DSP response for 0x96:0x19"
    );
}

#[test]
fn read_gives_back_what_was_written() {
    for id in FeatureId::all() {
        for x in [0.0, 1.0] {
            let report = write_report(id, v(x));
            let answer = match id {
                FeatureId::SbxMaster => reply(&[0x5a, 0x26, 0, 0, 0, 0, report[7]]),
                FeatureId::ScoutMode => reply(&[0x5a, 0x26, 0, 0, 0, 0, 2 * report[7]]),
                FeatureId::Output => reply(&[0x5a, 0x2c, 0, 0, report[5]]),
                FeatureId::DacFilter => reply(&[0x5a, 0x6c, 0, 0, report[5]]),
                _ => reply(&[
                    0x5a, 0x11, 0, 0, 0, report[5], report[6], report[7], report[8], report[9],
                    report[10],
                ]),
            };
            assert_eq!(read_reply(id, &answer), Reading::Known(v(x)));
        }
    }
}

#[test]
fn control_interface_is_found() {
    let other = InterfaceInfo {
        vendor: VENDOR_ID,
        product: PRODUCT_ID,
        interface: 3,
    };
    let right = InterfaceInfo {
        interface: INTERFACE,
        ..other
    };
    assert_eq!(find_interface(&vec![other, right, right]), Some(1));
    assert_eq!(find_interface(&vec![other]), None);
    assert_eq!(find_interface(&Vec::new()), None);
}

#[test]
fn values_out_of_range_are_refused() {
    let cases = [
        (FeatureId::SbxMaster, vec![0.0, 1.0], vec![0.5, 2.0, -1.0]),
        (FeatureId::BassLevel, vec![0.0, 0.3, 1.0], vec![1.1, -0.1]),
        (FeatureId::EqPreAmp, vec![-6.0, 6.0], vec![6.5, -7.0]),
        (FeatureId::Eq1kHz, vec![-12.0, 4.5, 12.0], vec![12.1]),
        (FeatureId::SurroundDistance, vec![10.0, 300.0], vec![9.9, 301.0]),
        (FeatureId::SmartVolMode, vec![0.0, 1.0, 2.0], vec![3.0, 0.5]),
        (FeatureId::DacFilter, vec![0.0, 3.0, 4.0], vec![5.0, f32::INFINITY]),
    ];
    for (id, good, bad) in cases {
        for x in good {
            assert_eq!(id.validate_value(v(x)), Ok(()));
        }
        for x in bad {
            assert_eq!(
                id.validate_value(v(x)),
                Err(ValueError::OutOfRange { id, value: v(x) })
            );
        }
        assert_eq!(
            id.validate_value(v(f32::NAN)),
            Err(ValueError::NotANumber { id })
        );
    }
    let error = FeatureId::EqPreAmp.validate_value(v(9.0)).unwrap_err();
    assert_eq!(
        error.text("9"),
        "EqPreAmp: value 9 out of range, expected [-6.0, 6.0] dB"
    );
    let error = FeatureId::DacFilter.validate_value(v(f32::NAN)).unwrap_err();
    assert_eq!(error.text("NaN"), "DacFilter: value is NaN");
}

#[test]
fn features_are_listed_once_each() {
    let all = FeatureId::all();
    assert_eq!(all.len(), 28);
    for (i, id) in all.iter().enumerate() {
        assert_eq!(id.index(), i);
        assert_eq!(all.iter().filter(|other| *other == id).count(), 1);
        for other in &all[..i] {
            assert!(id.dsp_address().is_none() || id.dsp_address() != other.dsp_address());
            assert_ne!(id.name(), other.name());
        }
    }
    assert_eq!(FeatureId::SurroundDistance.dsp_address(), Some((0x96, 0x17)));
    assert_eq!(FeatureId::Output.dsp_address(), None);
}
