use g6_control::invocation::{
    candidates, cli_invocation, find_on_path, is_executable, CliError, File, Found,
};
use g6_control::setup::{
    disable_args, elevation_tool, enable_args, has_card, install_text, is_affirmative,
    is_polkit_agent, is_process, list_args, loopback_args, raise_mic_args, record_args,
    reload_args, sample_path, select_mic_args, speaker_files, status_args, stream_args,
    udev_choice, udev_step, unit_text, unload_args, volume_args, Elevation, UdevChoice, UdevStep,
};
use g6_control::text::{contains, ends_with, parse_unsigned, split_lines, starts_with, trim};
use g6_control::value::Value;

#[test]
fn commands_have_their_arguments() {
    assert_eq!(
        select_mic_args(),
        ["-c", "G6", "-q", "sset", "PCM Capture Source", "External Mic"]
    );
    assert_eq!(
        raise_mic_args(),
        ["-c", "G6", "-q", "sset", "External Mic", "Capture", "100%", "cap"]
    );
    assert_eq!(reload_args(), ["--user", "daemon-reload"]);
    assert_eq!(
        enable_args(),
        ["--user", "enable", "--now", "g6-cli-watch.service"]
    );
    assert_eq!(
        disable_args(),
        ["--user", "disable", "--now", "g6-cli-watch.service"]
    );
    assert_eq!(
        status_args(),
        ["--user", "status", "g6-cli-watch.service", "--no-pager"]
    );
    assert_eq!(list_args("sinks"), ["list", "short", "sinks"]);
    assert_eq!(
        volume_args("set-sink-volume", "x", Value { bits: 0.6f32.to_bits() }),
        ["set-sink-volume", "x", "60%"]
    );
    assert_eq!(record_args(3), ["-d", "3", "-f", "cd", "-q"]);
    assert_eq!(
        loopback_args(),
        [
            "load-module",
            "module-loopback",
            "source=@DEFAULT_SOURCE@",
            "sink=@DEFAULT_SINK@",
            "latency_msec=50"
        ]
    );
    assert_eq!(unload_args(536870913), ["unload-module", "536870913"]);
    assert_eq!(
        stream_args(None),
        ["--format=s16le", "--rate=44100", "--channels=1", "--latency-msec=30"]
    );
    assert_eq!(stream_args(Some("a.monitor"))[4], "--device=a.monitor");
    assert_eq!(speaker_files(), ["Front_Left.wav", "Front_Right.wav"]);
    assert_eq!(
        sample_path("Front_Left.wav"),
        "/usr/share/sounds/alsa/Front_Left.wav"
    );
}

#[test]
fn written_files_name_their_program() {
    assert_eq!(
        unit_text("/usr/bin/g6-cli"),
        "[Unit]\nDescription=Sound BlasterX G6 -- keep capture source on External Mic\nAfter=pipewire-pulse.service pulseaudio.service\n\n[Service]\nType=simple\nExecStart=/usr/bin/g6-cli watch\nRestart=always\nRestartSec=2\n\n[Install]\nWantedBy=default.target\n"
    );
    assert_eq!(
        install_text("/tmp/r"),
        "/usr/bin/install -m644 '/tmp/r' '/etc/udev/rules.d/91-soundblaster-g6.rules' && /usr/bin/udevadm control --reload-rules && /usr/bin/udevadm trigger"
    );
}

#[test]
fn card_is_found_by_its_name() {
    assert!(has_card(" 2 [G6 ]: USB-Audio - Sound BlasterX G6\n"));
    assert!(!has_card(" 0 [PCH ]: HDA-Intel - HDA Intel PCH\n"));
}

#[test]
fn device_rule_is_installed_when_asked_for() {
    assert_eq!(udev_choice(true, false), UdevChoice::Yes);
    assert_eq!(udev_choice(false, true), UdevChoice::No);
    assert_eq!(udev_choice(false, false), UdevChoice::Ask);
    assert_eq!(udev_step(true, UdevChoice::Yes), UdevStep::Keep);
    assert_eq!(udev_step(false, UdevChoice::Yes), UdevStep::Install);
    assert_eq!(udev_step(false, UdevChoice::No), UdevStep::Skip);
    assert_eq!(udev_step(false, UdevChoice::Ask), UdevStep::Prompt);
    for yes in ["y", "Y\n", " yes ", "YES", "yEs\r\n"] {
        assert!(is_affirmative(yes), "{}", yes);
    }
    for no in ["", "n", "yess", "ye", "no", "y es", "ÿ"] {
        assert!(!is_affirmative(no), "{}", no);
    }
}

#[test]
fn rights_come_from_an_agent_or_a_terminal() {
    assert_eq!(elevation_tool(true, true, true), Some(Elevation::Pkexec));
    assert_eq!(elevation_tool(true, false, true), Some(Elevation::Sudo));
    assert_eq!(elevation_tool(false, true, true), Some(Elevation::Sudo));
    assert_eq!(elevation_tool(true, false, false), None);
    assert!(is_polkit_agent("lxqt-policykit-\n"));
    assert!(is_polkit_agent("hyprpolkitagent"));
    assert!(!is_polkit_agent("lxqt-policykit-agent"));
    assert!(is_process("1234"));
    assert!(is_process(""));
    assert!(!is_process("self"));
    assert!(!is_process("12a"));
}

fn file(path: &str) -> File {
    File {
        path: path.as_bytes().to_vec(),
        shown: path.to_string(),
    }
}

fn nothing() -> Found {
    Found {
        named: None,
        beside: None,
        on_path: None,
        manifest: None,
        cargo: None,
    }
}

#[test]
fn program_is_looked_for_in_order() {
    let all = Found {
        named: Some((file("/named"), true)),
        beside: Some(file("/beside")),
        on_path: Some(file("/path")),
        manifest: Some(file("/Cargo.toml")),
        cargo: Some(file("/cargo")),
    };
    assert_eq!(cli_invocation(all).ok().unwrap().display, "/named");
    let refused = Found {
        named: Some((file("/named"), false)),
        beside: Some(file("/beside")),
        ..nothing()
    };
    match cli_invocation(refused) {
        Err(error) => assert_eq!(
            error.message(),
            "G6_CLI_PATH points to a missing or non-executable file: /named"
        ),
        Ok(_) => panic!("the named file cannot be run"),
    }
    let beside = Found {
        beside: Some(file("/beside")),
        on_path: Some(file("/path")),
        ..nothing()
    };
    let invocation = cli_invocation(beside).ok().unwrap();
    assert_eq!(invocation.program, b"/beside");
    assert_eq!(invocation.prefix_args.len(), 0);
    let on_path = Found {
        on_path: Some(file("/path")),
        ..nothing()
    };
    assert_eq!(cli_invocation(on_path).ok().unwrap().display, "/path");
    let built = Found {
        manifest: Some(file("/Cargo.toml")),
        cargo: Some(file("/cargo")),
        ..nothing()
    };
    let invocation = cli_invocation(built).ok().unwrap();
    assert_eq!(invocation.program, b"/cargo");
    assert_eq!(
        invocation.prefix_args,
        ["run", "--quiet", "--manifest-path", "/Cargo.toml", "-p", "g6-cli", "--"]
    );
    assert_eq!(
        invocation.display,
        "/cargo run --quiet --manifest-path /Cargo.toml -p g6-cli --"
    );
    let only_sources = Found {
        manifest: Some(file("/Cargo.toml")),
        ..nothing()
    };
    match cli_invocation(only_sources) {
        Err(CliError::NotFound) => assert_eq!(
            CliError::NotFound.message(),
            "g6-cli was not found beside g6-gui or on PATH; build the full workspace or install the package"
        ),
        _ => panic!("there is no build tool"),
    }
}

#[test]
fn search_path_is_walked_in_order() {
    assert_eq!(
        candidates(&b"/usr/bin:/bin/::x".to_vec(), "g6-cli"),
        [
            b"/usr/bin/g6-cli".to_vec(),
            b"/bin/g6-cli".to_vec(),
            b"g6-cli".to_vec(),
            b"x/g6-cli".to_vec()
        ]
    );
    assert_eq!(candidates(&Vec::new(), "a"), [b"a".to_vec()]);
    assert_eq!(find_on_path(&vec![false, true, true]), Some(1));
    assert_eq!(find_on_path(&vec![false]), None);
    assert!(is_executable(true, 0o755));
    assert!(is_executable(true, 0o001));
    assert!(!is_executable(true, 0o644));
    assert!(!is_executable(false, 0o755));
}

#[test]
fn texts_are_taken_apart() {
    for text in ["", "\n", "a", "a\n", "a\r\nb", "a\r", "\r\n\r\n", "a\n\nb\r\n c"] {
        let expected: Vec<&str> = text.lines().collect();
        assert_eq!(split_lines(text), expected, "{:?}", text);
    }
    for text in ["", " ", " a ", "\u{a0}b\u{3000}", "\tx y\r\n", "é"] {
        assert_eq!(trim(text), text.trim());
    }
    for text in ["0", "42", "+42", "4294967295", "4294967296", "-1", "", "+", "4 2", "٣"] {
        assert_eq!(parse_unsigned(text), text.parse::<u32>().ok());
    }
    assert!(starts_with("abc", "ab") && !starts_with("abc", "b") && starts_with("abc", ""));
    assert!(ends_with("abc", "bc") && !ends_with("abc", "b") && ends_with("abc", ""));
    assert!(contains("abc", "b") && !contains("abc", "ca") && contains("", ""));
}
