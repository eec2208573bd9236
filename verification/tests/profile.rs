use g6_control::apply::{apply_by_name, load, nothing_named_text, plan_apply, snapshot, LoadError, Preset, Source};
use g6_control::feature::{FeatureId, ValueError};
use g6_control::lookup::{parse_feature_id, unknown_feature_text, UnknownFeature};
use g6_control::packet::write_report;
use g6_control::paths::{
    instance_socket_path, join, no_config_dir_text, profile_dir, service_file_path, Locations,
    NoConfigDir,
};
use g6_control::profile::{
    builtin_profile_json, builtins, invalid_name_text, is_builtin, list_profile_names,
    listing_mark, profile_path, profile_stem, reserved_remove_text, reserved_save_text,
    reserved_stem, BuiltinTexts, FeatureEntry, Profile, ProfileError,
};
use g6_control::status::{list_line, listed, status_lines};
use g6_control::table::{find_unique_matching_profile, shown_profile, FeatureTable};
use g6_control::value::Value;

fn v(x: f32) -> Value {
    Value { bits: x.to_bits() }
}

fn places() -> Locations {
    Locations {
        config_home: None,
        home: Some(b"/home/me".to_vec()),
    }
}

fn baked() -> BuiltinTexts<'static> {
    BuiltinTexts {
        default_json: "D",
        scout_json: "S",
        sbx_json: "X",
    }
}

fn entry(id: FeatureId, x: f32) -> FeatureEntry {
    FeatureEntry { id, value: v(x) }
}

fn strings(list: &[&str]) -> Vec<String> {
    list.iter().map(|s| s.to_string()).collect()
}

#[test]
fn features_are_found_by_their_names() {
    for id in FeatureId::all() {
        assert_eq!(parse_feature_id(id.name()), Ok(id));
    }
    assert_eq!(parse_feature_id("Eq1khz"), Err(UnknownFeature));
    assert_eq!(parse_feature_id(""), Err(UnknownFeature));
    assert_eq!(parse_feature_id("Eq\"1kHz"), Err(UnknownFeature));
    // An escape is read before the name is looked up.
    assert_eq!(parse_feature_id("\\u0045q1kHz"), Ok(FeatureId::Eq1kHz));
    assert_eq!(unknown_feature_text("Foo"), "unknown feature 'Foo'");
}

#[test]
fn profiles_live_in_the_configuration() {
    assert_eq!(
        profile_path("example", &places()),
        Ok(b"/home/me/.config/sound-blasterx-g6-control/example.json".to_vec())
    );
    assert_eq!(
        profile_path("example.json", &places()),
        profile_path("example", &places())
    );
    let named = Locations {
        config_home: Some(b"/cfg/".to_vec()),
        home: Some(b"/home/me".to_vec()),
    };
    assert_eq!(
        profile_path("a b", &named),
        Ok(b"/cfg/sound-blasterx-g6-control/a b.json".to_vec())
    );
    for bad in ["", ".json", ".hidden", "a/b", "..", "/etc/passwd"] {
        assert_eq!(
            profile_path(bad, &places()),
            Err(ProfileError::InvalidName),
            "{}",
            bad
        );
    }
    let nowhere = Locations {
        config_home: None,
        home: None,
    };
    assert_eq!(
        profile_path("example", &nowhere),
        Err(ProfileError::NoConfigDir)
    );
    assert_eq!(profile_dir(&nowhere), Err(NoConfigDir));
    assert_eq!(
        invalid_name_text("a/b"),
        "invalid name 'a/b': must be a simple filename, no '/' or leading '.'"
    );
    assert_eq!(
        no_config_dir_text(),
        "cannot resolve profile dir: neither XDG_CONFIG_HOME nor HOME is set"
    );
}

#[test]
fn other_files_have_their_places() {
    assert_eq!(join(&b"/a".to_vec(), "b"), b"/a/b");
    assert_eq!(join(&b"/a/".to_vec(), "b"), b"/a/b");
    assert_eq!(join(&Vec::new(), "b"), b"b");
    assert_eq!(
        instance_socket_path(Some(b"/run/user/1000".to_vec()), &b"/tmp".to_vec(), 1000),
        b"/run/user/1000/g6-gui.sock"
    );
    assert_eq!(
        instance_socket_path(Some(Vec::new()), &b"/tmp".to_vec(), 1000),
        b"/tmp/g6-gui-1000.sock"
    );
    assert_eq!(
        instance_socket_path(None, &b"/tmp".to_vec(), 0),
        b"/tmp/g6-gui-0.sock"
    );
    assert_eq!(
        service_file_path(Some("/cfg".to_string()), None),
        b"/cfg/systemd/user/g6-cli-watch.service"
    );
    assert_eq!(
        service_file_path(None, Some("/home/me".to_string())),
        b"/home/me/.config/systemd/user/g6-cli-watch.service"
    );
    assert_eq!(
        service_file_path(None, None),
        b"/.config/systemd/user/g6-cli-watch.service"
    );
}

#[test]
fn builtin_profiles_are_reserved() {
    assert_eq!(builtins(), ["default", "scout", "sbx"]);
    for name in builtins() {
        assert!(is_builtin(name));
        assert_eq!(listing_mark(name), "*");
    }
    assert!(!is_builtin("Default"));
    assert_eq!(listing_mark("mine"), " ");
    assert_eq!(builtin_profile_json("scout", &baked()), Some("S"));
    assert_eq!(builtin_profile_json("scout.json", &baked()), None);
    assert_eq!(profile_stem("scout.json"), "scout");
    assert_eq!(profile_stem("x.json.json"), "x.json");
    assert_eq!(reserved_stem("sbx.json"), Some("sbx"));
    assert_eq!(reserved_stem("mine"), None);
    assert_eq!(
        reserved_save_text("sbx"),
        "sbx is a reserved built-in profile name -- pick a different name"
    );
    assert_eq!(
        reserved_remove_text("sbx"),
        "sbx is a built-in profile and cannot be removed"
    );
}

#[test]
fn profiles_are_listed_in_order_and_once() {
    assert_eq!(list_profile_names(&Vec::new()), ["default", "sbx", "scout"]);
    let files = strings(&["zeta.json", "alpha.json", "theme", "sbx.json", "notes.txt", "alpha.json"]);
    assert_eq!(
        list_profile_names(&files),
        ["alpha", "default", "sbx", "scout", "zeta"]
    );
    let marked = listed(&strings(&["alpha", "sbx"]));
    assert_eq!((marked[0].name.as_str(), marked[0].builtin), ("alpha", false));
    assert_eq!((marked[1].name.as_str(), marked[1].builtin), ("sbx", true));
    assert_eq!(list_line("sbx"), "  * sbx");
    assert_eq!(list_line("alpha"), "    alpha");
}

#[test]
fn loads_prefer_names_and_builtin_profiles() {
    match load(Some("scout.json"), Some(Preset::Sbx), &baked(), &places()) {
        Ok(Source::Baked { stem, json }) => assert_eq!((stem.as_str(), json), ("scout", "S")),
        _ => panic!("a built-in profile"),
    }
    match load(None, Some(Preset::Default), &baked(), &places()) {
        Ok(Source::Baked { stem, json }) => assert_eq!((stem.as_str(), json), ("default", "D")),
        _ => panic!("a preset"),
    }
    match apply_by_name("mine.json", &baked(), &places()) {
        Ok(Source::Stored { stem, path }) => {
            assert_eq!(stem, "mine");
            assert_eq!(
                path,
                b"/home/me/.config/sound-blasterx-g6-control/mine.json"
            );
        }
        _ => panic!("a file"),
    }
    assert!(matches!(
        load(Some("a/b"), None, &baked(), &places()),
        Err(LoadError::NoPath(ProfileError::InvalidName))
    ));
    assert!(matches!(
        load(None, None, &baked(), &places()),
        Err(LoadError::NothingNamed)
    ));
    assert_eq!(
        nothing_named_text(),
        "specify a preset (default/scout/sbx) or -n <name>"
    );
}

#[test]
fn output_is_written_first() {
    let profile = Profile {
        features: vec![
            entry(FeatureId::BassLevel, 0.5),
            entry(FeatureId::Output, 1.0),
            entry(FeatureId::SbxMaster, 1.0),
        ],
    };
    let steps = match plan_apply(&profile) {
        Ok(steps) => steps,
        Err(_) => panic!("a plan"),
    };
    let order: Vec<FeatureId> = steps.iter().map(|step| step.entry.id).collect();
    assert_eq!(
        order,
        [FeatureId::Output, FeatureId::BassLevel, FeatureId::SbxMaster]
    );
    let waits: Vec<u64> = steps.iter().map(|step| step.wait_ms).collect();
    assert_eq!(waits, [60, 20, 20]);
    assert_eq!(steps[1].report, write_report(FeatureId::BassLevel, v(0.5)));
}

#[test]
fn profile_with_a_bad_value_is_refused_whole() {
    let profile = Profile {
        features: vec![
            entry(FeatureId::Output, 1.0),
            entry(FeatureId::BassLevel, 1.5),
            entry(FeatureId::EqPreAmp, f32::NAN),
        ],
    };
    assert!(matches!(
        plan_apply(&profile),
        Err(ValueError::OutOfRange {
            id: FeatureId::BassLevel,
            ..
        })
    ));
}

#[test]
fn snapshots_pair_features_and_readings() {
    let readings: Vec<Value> = (0..28).map(|i| v(i as f32)).collect();
    let profile = snapshot(&readings);
    assert_eq!(profile.features.len(), 28);
    for (i, id) in FeatureId::all().iter().enumerate() {
        assert_eq!(profile.features[i].id, *id);
        assert_eq!(profile.value_of(*id), Some(v(i as f32)));
    }
}

#[test]
fn tables_keep_the_last_value() {
    let mut table = FeatureTable::new();
    assert_eq!(table.len(), 0);
    table.insert(FeatureId::Output, v(0.0));
    table.insert(FeatureId::Output, v(1.0));
    table.insert(FeatureId::BassLevel, v(0.25));
    assert_eq!(table.len(), 2);
    assert_eq!(table.get(FeatureId::Output), Some(v(1.0)));
    assert_eq!(table.get(FeatureId::Eq1kHz), None);
    assert_eq!(table.value_or_zero(FeatureId::Eq1kHz), v(0.0));
    let copy = table.copy();
    assert_eq!(copy.get(FeatureId::BassLevel), Some(v(0.25)));
    assert!(table.holds(FeatureId::BassLevel, v(0.25)));
    assert!(!table.holds(FeatureId::Eq1kHz, v(0.0)));
    let profile = shown_profile(&table);
    assert_eq!(profile.features.len(), 28);
    assert_eq!(profile.value_of(FeatureId::Output), Some(v(1.0)));
    assert_eq!(profile.value_of(FeatureId::Eq1kHz), Some(v(0.0)));
}

#[test]
fn only_a_single_match_is_shown() {
    let mut table = FeatureTable::new();
    table.insert(FeatureId::Output, v(-0.0));
    table.insert(FeatureId::BassLevel, v(0.25));
    let hit = |x: f32| {
        Some(Profile {
            features: vec![entry(FeatureId::Output, 0.0), entry(FeatureId::BassLevel, x)],
        })
    };
    let names = strings(&["a", "b", "c"]);
    assert_eq!(
        find_unique_matching_profile(&names, &vec![hit(0.5), hit(0.25), None], &table).as_deref(),
        Some("b")
    );
    assert_eq!(
        find_unique_matching_profile(&names, &vec![hit(0.25), hit(0.25), None], &table),
        None
    );
    assert_eq!(
        find_unique_matching_profile(&names, &vec![None, hit(0.5), None], &table),
        None
    );
    let missing = Some(Profile {
        features: vec![entry(FeatureId::Eq1kHz, 0.0)],
    });
    assert_eq!(
        find_unique_matching_profile(&names, &vec![missing, None, None], &table),
        None
    );
}

#[test]
fn status_is_a_table() {
    let profile = Profile {
        features: vec![
            entry(FeatureId::SbxMaster, 1.0),
            entry(FeatureId::Output, 1.0),
            entry(FeatureId::DacFilter, 2.0),
            entry(FeatureId::SurroundToggle, 1.0),
            entry(FeatureId::SurroundLevel, 0.67),
            entry(FeatureId::SmartVolToggle, 0.0),
            entry(FeatureId::SmartVolLevel, 0.05),
            entry(FeatureId::SmartVolMode, 2.0),
            entry(FeatureId::SurroundDistance, 80.5),
            entry(FeatureId::EqToggle, 1.0),
            entry(FeatureId::EqPreAmp, -1.25),
            entry(FeatureId::Eq31Hz, 4.5),
            entry(FeatureId::Eq16kHz, -12.0),
        ],
    };
    let lines = status_lines(&profile);
    assert_eq!(lines.len(), 26);
    assert_eq!(lines[0], "");
    assert_eq!(lines[1], "  SBX Master:   on");
    assert_eq!(lines[2], "  Scout Mode:   off");
    assert_eq!(lines[3], "  Output:       Headphones");
    assert_eq!(lines[4], "  DAC Filter:   NOS (Non-Oversampling)");
    assert_eq!(lines[6], "  Surround:      on   67%");
    assert_eq!(lines[7], "  Dialog+:      off    0%");
    assert_eq!(lines[8], "  Smart Vol:    off    5%  (Night)");
    assert_eq!(lines[11], "  Surround Distance: 80 cm");
    assert_eq!(lines[13], "  Equalizer:    on");
    assert_eq!(lines[14], "    Pre-amp:  -1.2 dB");
    assert_eq!(lines[15], "     31 Hz:  +4.5 dB");
    assert_eq!(lines[16], "     62 Hz:   NaN dB");
    assert_eq!(lines[24], "    16 kHz: -12.0 dB");
    let empty = status_lines(&Profile {
        features: Vec::new(),
    });
    assert_eq!(empty[3], "  Output:       Speakers");
    assert_eq!(empty[11], "  Surround Distance: NaN cm");
    let odd = status_lines(&Profile {
        features: vec![entry(FeatureId::Output, 9.0), entry(FeatureId::SmartVolMode, -1.0)],
    });
    assert_eq!(odd[3], "  Output:       unknown");
    assert_eq!(odd[8], "  Smart Vol:    off    0%  (unknown)");
}
