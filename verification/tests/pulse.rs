use g6_control::display::volume_text;
use g6_control::pulse::{
    default_sink_monitor, find_g6_node_in_listing, is_capture_event, loopback_module,
    parse_volume_percent, volume_event, volume_target, Side,
};
use g6_control::value::Value;

fn told(text: &str) -> Option<f32> {
    parse_volume_percent(text).map(|v| f32::from_bits(v.bits))
}

#[test]
fn selects_g6_nodes_instead_of_other_or_default_devices() {
    let sinks = "41\talsa_output.pci-0000_00_1f.3.analog-stereo\tPipeWire\n72\talsa_output.usb-Creative_Technology_Ltd_Sound_BlasterX_G6_ABC-00.analog-stereo\tPipeWire\n";
    let sources = "42\talsa_input.usb-Generic_USB_Audio-00.analog-stereo\tPipeWire\n73\talsa_input.usb-Creative_Technology_Ltd_Sound_BlasterX_G6_ABC-00.analog-stereo\tPipeWire\n";

    assert_eq!(
        find_g6_node_in_listing(sinks, "alsa_output.").as_deref(),
        Some("alsa_output.usb-Creative_Technology_Ltd_Sound_BlasterX_G6_ABC-00.analog-stereo")
    );
    assert_eq!(
        find_g6_node_in_listing(sources, "alsa_input.").as_deref(),
        Some("alsa_input.usb-Creative_Technology_Ltd_Sound_BlasterX_G6_ABC-00.analog-stereo")
    );
}

#[test]
fn volumes_are_read_back() {
    for n in 0..=150u32 {
        let asked = Value {
            bits: (n as f32 / 100.0).to_bits(),
        };
        assert_eq!(volume_text(asked), format!("{n}%"));
        let printed = format!(
            "Volume: front-left: {} / {:>4} / -3,00 dB,   front-right: 1 /  7% / 0 dB\n",
            n * 655,
            volume_text(asked)
        );
        assert_eq!(told(&printed), Some(n as f32 / 100.0));
    }
}

#[test]
fn listings_without_the_device_name_no_node() {
    assert_eq!(find_g6_node_in_listing("", "alsa_output."), None);
    assert_eq!(find_g6_node_in_listing("no tabs here\n", ""), None);
    assert_eq!(
        find_g6_node_in_listing("1\tSound_BlasterX_G6.analog-stereo", "alsa"),
        None
    );
    assert_eq!(
        find_g6_node_in_listing("1\ta.Sound_BlasterX_G6.iec958\r\n", "a."),
        None
    );
    // The first of two is taken, and the end of a line may be a carriage return and a feed.
    assert_eq!(
        find_g6_node_in_listing(
            "x\n1\ta.Sound_BlasterX_G6-1.analog-stereo\r\n2\ta.Sound_BlasterX_G6-2.analog-stereo",
            "a."
        )
        .as_deref(),
        Some("a.Sound_BlasterX_G6-1.analog-stereo")
    );
}

#[test]
fn volumes_are_read_before_the_first_percent_sign() {
    assert_eq!(
        told("Volume: front-left: 39322 /  60% / -13.31 dB,   front-right: 39322 /  61%"),
        Some(0.6)
    );
    assert_eq!(told("7%"), Some(7.0f32 / 100.0));
    assert_eq!(told("150%"), Some(1.5));
    assert_eq!(told("a000033%"), Some(33.0f32 / 100.0));
    assert_eq!(told("16777217%"), Some(16777217.0f32 / 100.0));
    assert_eq!(told("no percent"), None);
    assert_eq!(told("%"), None);
    assert_eq!(told("x %"), None);
    assert_eq!(told(""), None);
}

#[test]
fn long_volumes_are_the_nearest_numbers() {
    for digits in [
        "340282356779733661637539395458142568447",
        "340282356779733661637539395458142568448",
        "340282366920938463463374607431768211455",
        "340282366920938463463374607431768211456",
        "99999999999999999999999999999999999999999999",
        "123456789012345678901234567890",
        "79228162514264337593543950337",
    ] {
        let text = format!("{digits}%");
        let number: f32 = digits.parse().unwrap();
        assert_eq!(told(&text), Some(number / 100.0), "{}", digits);
    }
}

#[test]
fn wide_characters_may_stand_before_the_digits() {
    assert_eq!(told("\u{97f3}\u{91cf}\u{ff1a}60%"), Some(0.6));
    assert_eq!(told("\u{e9}5%"), Some(0.05));
    assert_eq!(told("\u{e9} 5%"), Some(0.05));
    assert_eq!(told("\u{e9}5"), None);
    assert_eq!(told("\u{e9}%"), None);
}

#[test]
fn events_tell_what_may_have_changed() {
    assert_eq!(volume_event("Event 'change' on sink #4"), Some(Side::Sink));
    assert_eq!(
        volume_event("Event 'change' on source #4"),
        Some(Side::Source)
    );
    assert_eq!(volume_event("Event 'new' on sink-input #4"), None);
    assert!(is_capture_event("Event 'change' on card #56"));
    assert!(is_capture_event("Event 'change' on source #134"));
    assert!(!is_capture_event("Event 'change' on sink #134"));
    assert!(!is_capture_event("An Event 'change' on card #56"));
}

#[test]
fn printed_names_and_numbers_are_trimmed() {
    assert_eq!(
        default_sink_monitor(" alsa_output.x\n").as_deref(),
        Some("alsa_output.x.monitor")
    );
    assert_eq!(default_sink_monitor(" \n"), None);
    assert_eq!(loopback_module("536870913\n"), Some(536870913));
    assert_eq!(loopback_module("+7"), Some(7));
    assert_eq!(loopback_module("4294967296"), None);
    assert_eq!(loopback_module(""), None);
    assert_eq!(loopback_module("7 8"), None);
}

#[test]
fn volumes_of_the_default_nodes_stand_in() {
    assert_eq!(volume_target(Some("x".to_string()), Side::Sink), "x");
    assert_eq!(volume_target(None, Side::Sink), "@DEFAULT_SINK@");
    assert_eq!(volume_target(None, Side::Source), "@DEFAULT_SOURCE@");
}
