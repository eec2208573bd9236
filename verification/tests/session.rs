use g6_control::feature::FeatureId;
use g6_control::profile::{FeatureEntry, Profile};
use g6_control::session::{
    can_save, cli_header, combo_choice, combo_index, combo_label, profile_row, result_banner,
    starts_hidden, CliEvent, CliOutput, LoadFailure, RemoveOutcome, SaveOutcome, Session, SetupCommand, Theme,
    TrayStep, WriteOutcome,
};
use g6_control::table::{find_unique_matching_profile, shown_profile, FeatureTable};
use g6_control::tray::TrayAction;
use g6_control::value::Value;

fn v(x: f32) -> Value {
    Value { bits: x.to_bits() }
}

fn entry(id: FeatureId, x: f32) -> FeatureEntry {
    FeatureEntry { id, value: v(x) }
}

fn readings(x: f32) -> Vec<Option<Value>> {
    (0..28).map(|i| if i == 3 { None } else { Some(v(x)) }).collect()
}

fn names() -> Vec<String> {
    vec!["default".to_string(), "mine".to_string()]
}

fn session() -> Session {
    Session::start(
        Some(readings(0.0)),
        names(),
        &vec![None, None],
        None,
        None,
        false,
    )
}

#[test]
fn saved_profile_says_what_is_shown() {
    let all = (0..28).map(|i| Some(v(i as f32 / 7.0))).collect();
    let mut shown = Session::start(Some(all), names(), &vec![None, None], None, None, false);
    let saved = shown_profile(&shown.values);
    assert_eq!(saved.features.len(), 28);
    assert_eq!(saved.features[0], entry(FeatureId::SurroundToggle, 0.0));
    assert_eq!(saved.features[27], entry(FeatureId::DacFilter, 27.0 / 7.0));
    assert!(shown.values.agrees_with(&saved));
    assert_eq!(shown.output_switch(&saved), None);
    assert!(shown.adopt("mine", &saved).is_empty());
    assert_eq!(shown.status, "mine: already at this state");
}

#[test]
fn profiles_match_only_if_they_say_every_value() {
    let mut values = FeatureTable::new();
    values.insert(FeatureId::SbxMaster, v(1.0));
    values.insert(FeatureId::ScoutMode, v(0.0));
    let half = || Profile {
        features: vec![entry(FeatureId::SbxMaster, 1.0)],
    };
    let whole = || Profile {
        features: vec![entry(FeatureId::ScoutMode, -0.0), entry(FeatureId::SbxMaster, 1.0)],
    };
    let more = || Profile {
        features: vec![
            entry(FeatureId::ScoutMode, 0.0),
            entry(FeatureId::SbxMaster, 1.0),
            entry(FeatureId::Output, 1.0),
        ],
    };
    let found = |profiles: Vec<Option<Profile>>| {
        let names = (0..profiles.len()).map(|i| i.to_string()).collect();
        find_unique_matching_profile(&names, &profiles, &values)
    };
    assert_eq!(found(vec![Some(half())]), None);
    assert_eq!(found(vec![Some(Profile { features: vec![] })]), None);
    assert_eq!(found(vec![Some(more())]), None);
    assert_eq!(
        found(vec![Some(half()), None, Some(whole()), Some(more())]).as_deref(),
        Some("2")
    );
    assert_eq!(found(vec![Some(whole()), Some(whole())]), None);
}

#[test]
fn window_can_be_left_out_at_the_start() {
    let none: Vec<String> = vec![];
    let asked = vec!["-v".to_string(), "--no-window".to_string()];
    assert!(starts_hidden(&asked, true));
    assert!(!starts_hidden(&asked, false));
    assert!(!starts_hidden(&none, true));
    assert!(!starts_hidden(&vec!["--no-windows".to_string()], true));
}

#[test]
fn first_status_counts_what_was_read() {
    assert_eq!(session().status, "Read 27 features from device");
    let marked = Session::start(
        Some(readings(0.0)),
        names(),
        &vec![
            None,
            Some(Profile {
                features: FeatureId::all()
                    .iter()
                    .enumerate()
                    .filter(|(i, _)| *i != 3)
                    .map(|(_, id)| entry(*id, 0.0))
                    .collect(),
            }),
        ],
        Some("System tray unavailable: x"),
        Some("G6 tray mixer unavailable: y"),
        true,
    );
    assert_eq!(
        marked.status,
        "Read 27 features from device (mine matches current state)  System tray unavailable: x  G6 tray mixer unavailable: y"
    );
    assert_eq!(marked.selected.as_deref(), Some("mine"));
    assert!(marked.watch_installed);
    let alone = Session::start(None, names(), &vec![None, None], None, None, false);
    assert_eq!(
        alone.status,
        "Device not connected. Run `g6-cli init` (or use the Setup card in the sidebar), then reopen."
    );
    assert_eq!(alone.values.len(), 0);
}

#[test]
fn writes_are_checked_and_shown() {
    let mut s = session();
    assert!(!s.check_write(FeatureId::BassLevel, v(2.0), "2"));
    assert_eq!(
        s.status,
        "Invalid: BassLevel: value 2 out of range, expected [0.0, 1.0]"
    );
    assert!(s.check_write(FeatureId::BassLevel, v(0.5), "0.5"));
    assert!(!s.finish_write(FeatureId::BassLevel, v(0.5), "0.5", WriteOutcome::Done));
    assert_eq!(s.status, "BassLevel = 0.5");
    assert_eq!(s.values.get(FeatureId::BassLevel), Some(v(0.5)));
    assert!(s.finish_write(FeatureId::Output, v(1.0), "1", WriteOutcome::Done));
    let error = WriteOutcome::Failed {
        error: "gone".to_string(),
    };
    assert!(!s.finish_write(FeatureId::Output, v(0.0), "0", error));
    assert_eq!(s.status, "Write failed: gone");
    assert_eq!(s.values.get(FeatureId::Output), Some(v(1.0)));
    s.finish_write(FeatureId::Output, v(0.0), "0", WriteOutcome::NoDevice);
    assert_eq!(s.status, "Device not connected");
    s.show_value(FeatureId::Eq1kHz, v(3.0));
    assert_eq!(s.values.get(FeatureId::Eq1kHz), Some(v(3.0)));
}

#[test]
fn refresh_keeps_what_could_not_be_read() {
    let mut s = session();
    s.show_value(FeatureId::DialogPlusToggle, v(1.0));
    s.refresh(&readings(0.25));
    assert_eq!(s.status, "Refreshed from device");
    assert_eq!(s.values.get(FeatureId::DialogPlusToggle), Some(v(1.0)));
    assert_eq!(s.values.get(FeatureId::DacFilter), Some(v(0.25)));
}

#[test]
fn profiles_are_taken_over() {
    let mut s = session();
    let profile = Profile {
        features: vec![
            entry(FeatureId::BassLevel, 0.5),
            entry(FeatureId::Output, 1.0),
            entry(FeatureId::SbxMaster, 0.0),
            entry(FeatureId::DialogPlusToggle, 0.0),
        ],
    };
    assert_eq!(s.output_switch(&profile), Some(v(1.0)));
    let writes = s.adopt("mine", &profile);
    let ids: Vec<FeatureId> = writes.iter().map(|e| e.id).collect();
    assert_eq!(ids, [FeatureId::BassLevel, FeatureId::DialogPlusToggle]);
    assert_eq!(s.status, "Applying mine (2/4 writes)");
    assert_eq!(s.values.get(FeatureId::BassLevel), Some(v(0.5)));
    assert_eq!(s.values.get(FeatureId::Output), Some(v(0.0)));
    // Loading it again writes nothing.
    assert_eq!(s.adopt("mine", &profile).len(), 0);
    assert_eq!(s.status, "mine: already at this state");
    let still = Profile {
        features: vec![entry(FeatureId::Output, -0.0)],
    };
    assert_eq!(s.output_switch(&still), None);
    assert_eq!(
        s.output_switch(&Profile {
            features: Vec::new()
        }),
        None
    );
}

#[test]
fn failed_loads_are_named() {
    let mut s = session();
    s.fail_load(LoadFailure::NoPath {
        error: "bad".to_string(),
    });
    assert_eq!(s.status, "bad");
    s.fail_load(LoadFailure::Read {
        error: "bad".to_string(),
    });
    assert_eq!(s.status, "Read failed: bad");
    s.fail_load(LoadFailure::Parse {
        error: "bad".to_string(),
    });
    assert_eq!(s.status, "Parse failed: bad");
}

#[test]
fn saves_refuse_builtin_names() {
    let mut s = session();
    assert!(!s.check_save("sbx"));
    assert_eq!(s.status, "sbx is a reserved built-in name");
    assert!(!s.check_save("default.json"));
    assert_eq!(s.status, "default.json is a reserved built-in name");
    assert!(s.check_save("mine") && s.check_save("mine.json"));
    let cases = [
        (
            SaveOutcome::NoDirectory {
                error: "e".to_string(),
            },
            "Profile dir: e",
        ),
        (
            SaveOutcome::NoPath {
                error: "e".to_string(),
            },
            "e",
        ),
        (
            SaveOutcome::Exists {
                path: "/p".to_string(),
            },
            "/p already exists",
        ),
        (
            SaveOutcome::NotSerialized {
                error: "e".to_string(),
            },
            "Serialize failed: e",
        ),
        (
            SaveOutcome::NotWritten {
                error: "e".to_string(),
            },
            "Write failed: e",
        ),
    ];
    for (outcome, status) in cases {
        s.finish_save("mine", outcome);
        assert_eq!(s.status, status);
        assert_eq!(s.profiles, names());
    }
    s.finish_save(
        "mine",
        SaveOutcome::Saved {
            profiles: vec!["new".to_string()],
            count: 28,
        },
    );
    assert_eq!(s.status, "Saved mine (28 features)");
    assert_eq!(s.profiles, ["new"]);
}

#[test]
fn removed_profiles_are_no_longer_marked() {
    let mut s = session();
    assert!(!s.check_remove("default"));
    assert_eq!(s.status, "Built-in profiles cannot be removed");
    s.status = String::new();
    assert!(!s.check_remove("scout.json"));
    assert_eq!(s.status, "Built-in profiles cannot be removed");
    assert!(s.check_remove("mine"));
    s.selected = Some("sbx.json".to_string());
    assert!(!s.can_remove());
    s.selected = Some("mine".to_string());
    assert!(s.is_selected("mine") && s.can_remove());
    s.finish_remove("mine", RemoveOutcome::Missing);
    assert!(s.is_selected("mine"));
    s.finish_remove(
        "mine",
        RemoveOutcome::Failed {
            error: "e".to_string(),
        },
    );
    assert_eq!(s.status, "Remove failed: e");
    s.finish_remove(
        "mine",
        RemoveOutcome::NoPath {
            error: "e".to_string(),
        },
    );
    assert_eq!(s.status, "e");
    s.finish_remove(
        "other",
        RemoveOutcome::Removed {
            profiles: names(),
        },
    );
    assert!(s.is_selected("mine"));
    s.finish_remove(
        "mine",
        RemoveOutcome::Removed {
            profiles: Vec::new(),
        },
    );
    assert_eq!(s.status, "Removed mine");
    assert_eq!(s.selected, None);
    assert!(!s.can_remove());
    s.selected = Some("default".to_string());
    assert!(!s.can_remove());
}

#[test]
fn setup_commands_run_one_at_a_time() {
    let mut s = session();
    assert_eq!(
        s.handle_tray(TrayAction::Initialize),
        TrayStep::Run {
            command: SetupCommand::Initialize
        }
    );
    let label = SetupCommand::InstallWatch.label();
    assert_eq!(label, "service install");
    assert_eq!(SetupCommand::RemoveWatch.args(), ["service", "uninstall"]);
    s.begin_cli(&label);
    assert_eq!(
        s.status,
        "running g6-cli service install (a polkit password prompt may appear)..."
    );
    assert!(!s.can_start());
    assert_eq!(s.handle_tray(TrayAction::Initialize), TrayStep::Nothing);
    assert_eq!(s.status, "A setup command is already running");
    assert!(!s.poll_pending(CliEvent::Running));
    let output = CliOutput {
        header: cli_header("/usr/bin/g6-cli", &label),
        stderr: "err\n".to_string(),
        stdout: "out\n".to_string(),
        success: false,
        exit_code: Some(-1),
    };
    assert!(s.poll_pending(CliEvent::Finished { output }));
    assert_eq!(s.last_output, "$ /usr/bin/g6-cli service install\nerr\nout\n");
    assert_eq!(s.status, "g6-cli service install failed (exit Some(-1))");
    assert!(s.show_output && !s.last_success && s.can_start());
    assert_eq!(s.last_label, "service install");
    s.begin_cli("init --yes");
    let output = CliOutput {
        header: String::new(),
        stderr: String::new(),
        stdout: String::new(),
        success: true,
        exit_code: Some(0),
    };
    assert!(!s.poll_pending(CliEvent::Finished { output }));
    assert_eq!(s.status, "g6-cli init --yes succeeded");
    s.begin_cli("init --yes");
    assert!(!s.poll_pending(CliEvent::Lost));
    assert_eq!(s.status, "subprocess thread vanished");
    s.begin_cli("init --yes");
    let output = CliOutput {
        header: String::new(),
        stderr: String::new(),
        stdout: String::new(),
        success: false,
        exit_code: None,
    };
    s.poll_pending(CliEvent::Finished { output });
    assert_eq!(s.status, "g6-cli init --yes failed (exit None)");
    s.fail_cli("init --yes", "no program");
    assert_eq!(s.last_output, "error: no program\n");
    assert_eq!(s.status, "could not run g6-cli init --yes");
}

#[test]
fn window_hides_while_the_tray_can_show_it() {
    let mut s = session();
    assert!(s.hides_on_close(true, true));
    assert!(!s.hides_on_close(true, false));
    assert!(!s.hides_on_close(false, true));
    assert_eq!(
        s.handle_tray(TrayAction::OpenMainWindow),
        TrayStep::ShowWindow
    );
    assert_eq!(s.handle_tray(TrayAction::Exit), TrayStep::CloseWindow);
    assert!(!s.hides_on_close(true, true));
}

#[test]
fn sidebar_names_what_it_offers() {
    let mut s = session();
    assert_eq!(s.watch_label(), "Watch Service: Not Installed");
    assert_eq!(s.watch_command(), SetupCommand::InstallWatch);
    s.watch_installed = true;
    assert_eq!(s.watch_label(), "Watch Service: Installed");
    assert_eq!(s.watch_command(), SetupCommand::RemoveWatch);
    assert!(can_save("mine"));
    assert!(!can_save("") && !can_save("sbx") && !can_save("sbx.json"));
    assert!(can_save("default.json.json"));
    assert_eq!(profile_row("sbx"), "* sbx");
    assert_eq!(profile_row("mine"), "  mine");
}

#[test]
fn banners_announce_outcomes() {
    let banner = result_banner("init --yes", true);
    assert_eq!(banner.heading, "Initialize Audio — Success");
    assert_eq!(banner.icon, "✔");
    assert_eq!(banner.color.green, 160);
    let banner = result_banner("service uninstall", false);
    assert_eq!(banner.heading, "Uninstall Watch Service — Failed");
    assert_eq!(banner.icon, "✖");
    assert_eq!(
        result_banner("service install", true).heading,
        "Install Watch Service — Success"
    );
    assert_eq!(result_banner("x", false).heading, "Run g6-cli — Failed");
}

#[test]
fn saved_themes_are_found() {
    for theme in [Theme::Light, Theme::Dark, Theme::System] {
        assert_eq!(Theme::parse(&theme.line()), Some(theme));
    }
    assert_eq!(Theme::parse(" dark\r\n"), Some(Theme::Dark));
    assert_eq!(Theme::parse("Dark"), None);
    assert_eq!(Theme::parse(""), None);
    assert_eq!(Theme::System.line(), "system\n");
}

#[test]
fn lists_show_the_entry_of_a_value() {
    let options = vec!["Normal", "Loud", "Night"];
    assert_eq!(combo_label(&options, v(0.0)), "Normal");
    assert_eq!(combo_label(&options, v(2.9)), "Night");
    assert_eq!(combo_label(&options, v(3.0)), "?");
    assert_eq!(combo_label(&options, v(f32::NAN)), "Normal");
    assert_eq!(combo_label(&options, v(-5.0)), "Normal");
    assert_eq!(combo_label(&options, v(1.0e30)), "?");
    assert_eq!(combo_index(v(1.0)), 1);
    for x in [0.5f32, 2_147_483_648.0, 9.223_372e18, 1.0e19, 1.0e20, f32::INFINITY, -1.0e20] {
        assert_eq!(combo_index(v(x)), x as usize);
        assert_eq!(combo_choice(v(x), x as usize), None);
    }
    assert_eq!(combo_index(v(9_223_372_036_854_775_808.0)) as u64, 1 << 63);
    assert_eq!(combo_choice(v(0.0), usize::MAX), Some(v(usize::MAX as f32)));
    assert_eq!(combo_choice(v(1.0), 1), None);
    assert_eq!(combo_choice(v(1.0), 2), Some(v(2.0)));
}
