//! The state of the device as a table.

use crate::arith::undefined;
use crate::display::pad;
use crate::display::padded;
use crate::display::percent_shown;
use crate::display::percent_text;
use crate::display::tenths_shown;
use crate::display::tenths_text;
use crate::display::whole_shown;
use crate::display::whole_text;
use crate::feature::lemma_decimals;
use crate::feature::FeatureId;
use crate::profile::first_value;
use crate::profile::is_builtin;
use crate::profile::is_reserved;
use crate::profile::FeatureEntry;
use crate::profile::Profile;
use crate::text::decimal;
use crate::text::texts;
use crate::value::Value;
use vstd::prelude::*;

verus! {

/// The value that is shown for a feature: what is not a number where there is none.
pub open spec fn shown_of(p: Seq<FeatureEntry>, id: FeatureId) -> Value {
    match first_value(p, id) {
        Some(value) => value,
        None => undefined(),
    }
}

fn value_shown(p: &Profile, id: FeatureId) -> (value: Value)
    ensures
        value == shown_of(p.features@, id),
{
    match p.value_of(id) {
        Some(value) => value,
        None => Value { bits: 0x7fc0_0000 },
    }
}

/// How a switch is shown.
pub open spec fn on_off(v: Value) -> Seq<char> {
    if v.reads_on() {
        "on"@
    } else {
        "off"@
    }
}

fn on_off_label(v: Value) -> (text: &'static str)
    ensures
        text@ == on_off(v),
{
    if v.is_on() {
        "on"
    } else {
        "off"
    }
}

/// The name of an output.
pub open spec fn output_name(v: Value) -> Seq<char> {
    let n = v.whole_part();
    if n == 0 {
        "Speakers"@
    } else if n == 1 {
        "Headphones"@
    } else {
        "unknown"@
    }
}

/// The name of an output.
pub fn output_name_label(v: Value) -> (text: &'static str)
    ensures
        text@ == output_name(v),
{
    let n: i32 = v.to_int();
    if n == 0 {
        "Speakers"
    } else if n == 1 {
        "Headphones"
    } else {
        "unknown"
    }
}

/// The name of a filter.
pub open spec fn filter_name(v: Value) -> Seq<char> {
    let n = v.whole_part();
    if n == 0 {
        "Fast Roll-off, Minimum Phase"@
    } else if n == 1 {
        "Slow Roll-off, Minimum Phase"@
    } else if n == 2 {
        "NOS (Non-Oversampling)"@
    } else if n == 3 {
        "Fast Roll-off, Linear Phase"@
    } else if n == 4 {
        "Slow Roll-off, Linear Phase"@
    } else {
        "unknown"@
    }
}

/// The name of a filter.
pub fn filter_name_label(v: Value) -> (text: &'static str)
    ensures
        text@ == filter_name(v),
{
    let n: i32 = v.to_int();
    if n == 0 {
        "Fast Roll-off, Minimum Phase"
    } else if n == 1 {
        "Slow Roll-off, Minimum Phase"
    } else if n == 2 {
        "NOS (Non-Oversampling)"
    } else if n == 3 {
        "Fast Roll-off, Linear Phase"
    } else if n == 4 {
        "Slow Roll-off, Linear Phase"
    } else {
        "unknown"
    }
}

/// The name of a mode of the volume control.
pub open spec fn mode_name(v: Value) -> Seq<char> {
    let n = v.whole_part();
    if n == 0 {
        "Normal"@
    } else if n == 1 {
        "Loud"@
    } else if n == 2 {
        "Night"@
    } else {
        "unknown"@
    }
}

/// The name of a mode of the volume control.
pub fn mode_name_label(v: Value) -> (text: &'static str)
    ensures
        text@ == mode_name(v),
{
    let n: i32 = v.to_int();
    if n == 0 {
        "Normal"
    } else if n == 1 {
        "Loud"
    } else if n == 2 {
        "Night"
    } else {
        "unknown"
    }
}

/// A row with a switch.
pub open spec fn switch_row(label: Seq<char>, v: Value) -> Seq<char> {
    label + on_off(v)
}

fn switch_line(label: &str, v: Value) -> (text: String)
    ensures
        text@ == switch_row(label@, v),
{
    labelled(label, on_off_label(v))
}

fn labelled(label: &str, rest: &str) -> (text: String)
    ensures
        text@ == label@ + rest@,
{
    let mut text = label.to_owned();
    text.append(rest);
    text
}

/// A row with an effect: its switch and its level.
pub open spec fn effect_row(label: Seq<char>, toggle: Value, level: Value) -> Seq<char> {
    label + padded(on_off(toggle), 3) + "  "@ + percent_shown(level)
}

fn effect_line(label: &str, toggle: Value, level: Value) -> (text: String)
    ensures
        text@ == effect_row(label@, toggle, level),
{
    let mut text = label.to_owned();
    text.append(pad(on_off_label(toggle), 3).as_str());
    text.append("  ");
    text.append(percent_text(level).as_str());
    text
}

fn smart_volume_line(p: &Profile) -> (text: String)
    ensures
        text@ == effect_row(
            "  Smart Vol:    "@,
            shown_of(p.features@, FeatureId::SmartVolToggle),
            shown_of(p.features@, FeatureId::SmartVolLevel),
        ) + "  ("@ + mode_name(shown_of(p.features@, FeatureId::SmartVolMode)) + ")"@,
{
    let mut text = effect_line(
        "  Smart Vol:    ",
        value_shown(p, FeatureId::SmartVolToggle),
        value_shown(p, FeatureId::SmartVolLevel),
    );
    text.append("  (");
    text.append(mode_name_label(value_shown(p, FeatureId::SmartVolMode)));
    text.append(")");
    text
}

fn distance_line(v: Value) -> (text: String)
    ensures
        text@ == "  Surround Distance: "@ + whole_shown(v) + " cm"@,
{
    let mut text = "  Surround Distance: ".to_owned();
    text.append(whole_text(v).as_str());
    text.append(" cm");
    text
}

fn preamp_line(v: Value) -> (text: String)
    ensures
        text@ == "    Pre-amp: "@ + tenths_shown(v) + " dB"@,
{
    let mut text = "    Pre-amp: ".to_owned();
    text.append(tenths_text(v).as_str());
    text.append(" dB");
    text
}

/// A row with a band of the equalizer.
pub open spec fn band_row(label: Seq<char>, v: Value) -> Seq<char> {
    "    "@ + padded(label, 6) + ": "@ + tenths_shown(v) + " dB"@
}

fn band_line(label: &str, v: Value) -> (text: String)
    ensures
        text@ == band_row(label@, v),
{
    let mut text = "    ".to_owned();
    text.append(pad(label, 6).as_str());
    text.append(": ");
    text.append(tenths_text(v).as_str());
    text.append(" dB");
    text
}

/// The rows of the table.
pub open spec fn status_rows(p: Seq<FeatureEntry>) -> Seq<Seq<char>> {
    seq![
        Seq::empty(),
        switch_row("  SBX Master:   "@, shown_of(p, FeatureId::SbxMaster)),
        switch_row("  Scout Mode:   "@, shown_of(p, FeatureId::ScoutMode)),
        "  Output:       "@ + output_name(shown_of(p, FeatureId::Output)),
        "  DAC Filter:   "@ + filter_name(shown_of(p, FeatureId::DacFilter)),
        Seq::empty(),
        effect_row(
            "  Surround:     "@,
            shown_of(p, FeatureId::SurroundToggle),
            shown_of(p, FeatureId::SurroundLevel),
        ),
        effect_row(
            "  Dialog+:      "@,
            shown_of(p, FeatureId::DialogPlusToggle),
            shown_of(p, FeatureId::DialogPlusLevel),
        ),
        effect_row(
            "  Smart Vol:    "@,
            shown_of(p, FeatureId::SmartVolToggle),
            shown_of(p, FeatureId::SmartVolLevel),
        ) + "  ("@ + mode_name(shown_of(p, FeatureId::SmartVolMode)) + ")"@,
        effect_row(
            "  Crystalizer:  "@,
            shown_of(p, FeatureId::CrystalizerToggle),
            shown_of(p, FeatureId::CrystalizerLevel),
        ),
        effect_row(
            "  Bass:         "@,
            shown_of(p, FeatureId::BassToggle),
            shown_of(p, FeatureId::BassLevel),
        ),
        "  Surround Distance: "@ + whole_shown(shown_of(p, FeatureId::SurroundDistance)) + " cm"@,
        Seq::empty(),
        switch_row("  Equalizer:    "@, shown_of(p, FeatureId::EqToggle)),
        "    Pre-amp: "@ + tenths_shown(shown_of(p, FeatureId::EqPreAmp)) + " dB"@,
        band_row("31 Hz"@, shown_of(p, FeatureId::Eq31Hz)),
        band_row("62 Hz"@, shown_of(p, FeatureId::Eq62Hz)),
        band_row("125 Hz"@, shown_of(p, FeatureId::Eq125Hz)),
        band_row("250 Hz"@, shown_of(p, FeatureId::Eq250Hz)),
        band_row("500 Hz"@, shown_of(p, FeatureId::Eq500Hz)),
        band_row("1 kHz"@, shown_of(p, FeatureId::Eq1kHz)),
        band_row("2 kHz"@, shown_of(p, FeatureId::Eq2kHz)),
        band_row("4 kHz"@, shown_of(p, FeatureId::Eq4kHz)),
        band_row("8 kHz"@, shown_of(p, FeatureId::Eq8kHz)),
        band_row("16 kHz"@, shown_of(p, FeatureId::Eq16kHz)),
        Seq::empty(),
    ]
}

/// The rows of the table that shows a profile.
pub fn status_lines(p: &Profile) -> (rows: Vec<String>)
    ensures
        texts(rows@) == status_rows(p.features@),
{
    let mut rows: Vec<String> = Vec::new();
    rows.push(String::new());
    rows.push(switch_line("  SBX Master:   ", value_shown(p, FeatureId::SbxMaster)));
    rows.push(switch_line("  Scout Mode:   ", value_shown(p, FeatureId::ScoutMode)));
    rows.push(labelled("  Output:       ", output_name_label(value_shown(p, FeatureId::Output))));
    rows.push(labelled("  DAC Filter:   ", filter_name_label(value_shown(p, FeatureId::DacFilter))));
    rows.push(String::new());
    rows.push(effect_line(
        "  Surround:     ",
        value_shown(p, FeatureId::SurroundToggle),
        value_shown(p, FeatureId::SurroundLevel),
    ));
    rows.push(effect_line(
        "  Dialog+:      ",
        value_shown(p, FeatureId::DialogPlusToggle),
        value_shown(p, FeatureId::DialogPlusLevel),
    ));
    rows.push(smart_volume_line(p));
    rows.push(effect_line(
        "  Crystalizer:  ",
        value_shown(p, FeatureId::CrystalizerToggle),
        value_shown(p, FeatureId::CrystalizerLevel),
    ));
    rows.push(effect_line(
        "  Bass:         ",
        value_shown(p, FeatureId::BassToggle),
        value_shown(p, FeatureId::BassLevel),
    ));
    rows.push(distance_line(value_shown(p, FeatureId::SurroundDistance)));
    rows.push(String::new());
    rows.push(switch_line("  Equalizer:    ", value_shown(p, FeatureId::EqToggle)));
    rows.push(preamp_line(value_shown(p, FeatureId::EqPreAmp)));
    rows.push(band_line("31 Hz", value_shown(p, FeatureId::Eq31Hz)));
    rows.push(band_line("62 Hz", value_shown(p, FeatureId::Eq62Hz)));
    rows.push(band_line("125 Hz", value_shown(p, FeatureId::Eq125Hz)));
    rows.push(band_line("250 Hz", value_shown(p, FeatureId::Eq250Hz)));
    rows.push(band_line("500 Hz", value_shown(p, FeatureId::Eq500Hz)));
    rows.push(band_line("1 kHz", value_shown(p, FeatureId::Eq1kHz)));
    rows.push(band_line("2 kHz", value_shown(p, FeatureId::Eq2kHz)));
    rows.push(band_line("4 kHz", value_shown(p, FeatureId::Eq4kHz)));
    rows.push(band_line("8 kHz", value_shown(p, FeatureId::Eq8kHz)));
    rows.push(band_line("16 kHz", value_shown(p, FeatureId::Eq16kHz)));
    rows.push(String::new());
    assert(texts(rows@) =~= status_rows(p.features@));
    rows
}

/// A profile in a list: its name, and whether it is built in.
pub struct ListedProfile {
    pub name: String,
    pub builtin: bool,
}

/// The profiles of a list.
pub fn listed(names: &Vec<String>) -> (list: Vec<ListedProfile>)
    ensures
        list@.len() == names@.len(),
        forall|i: int|
            0 <= i < names@.len() ==> (#[trigger] list@[i]).name@ == names@[i]@ && list@[i].builtin
                == is_reserved(names@[i]@),
{
    let mut list: Vec<ListedProfile> = Vec::new();
    let mut i: usize = 0;
    while i < names.len()
        invariant
            i <= names.len(),
            list@.len() == i,
            forall|j: int|
                0 <= j < i ==> (#[trigger] list@[j]).name@ == names@[j]@ && list@[j].builtin
                    == is_reserved(names@[j]@),
        decreases names.len() - i,
    {
        let name = names[i].as_str().to_owned();
        let builtin = is_builtin(names[i].as_str());
        list.push(ListedProfile { name, builtin });
        i += 1;
    }
    list
}

/// How a profile is shown in a list: the built-in ones carry a star.
pub open spec fn list_row(name: Seq<char>) -> Seq<char> {
    "  "@ + (if is_reserved(name) {
        "*"@
    } else {
        " "@
    }) + " "@ + name
}

/// How a profile is shown in a list.
pub fn list_line(name: &str) -> (text: String)
    ensures
        text@ == list_row(name@),
{
    let mut text = "  ".to_owned();
    text.append(
        if is_builtin(name) {
            "*"
        } else {
            " "
        },
    );
    text.append(" ");
    text.append(name);
    text
}

/// A text with blanks behind it, as many as it takes to fill `width` places.
pub open spec fn filled_up(s: Seq<char>, width: int) -> Seq<char> {
    s + Seq::new(
        (if s.len() < width {
            width - s.len()
        } else {
            0
        }) as nat,
        |i: int| ' ',
    )
}

/// The rows of the effects, each by its place.
#[verifier::spinoff_prover]
#[verifier::rlimit(60)]
proof fn lemma_effect_rows(p: Seq<FeatureEntry>)
    ensures
        status_rows(p)[6] == effect_row(
            "  Surround:     "@,
            shown_of(p, FeatureId::SurroundToggle),
            shown_of(p, FeatureId::SurroundLevel),
        ),
        status_rows(p)[7] == effect_row(
            "  Dialog+:      "@,
            shown_of(p, FeatureId::DialogPlusToggle),
            shown_of(p, FeatureId::DialogPlusLevel),
        ),
        status_rows(p)[9] == effect_row(
            "  Crystalizer:  "@,
            shown_of(p, FeatureId::CrystalizerToggle),
            shown_of(p, FeatureId::CrystalizerLevel),
        ),
        status_rows(p)[10] == effect_row(
            "  Bass:         "@,
            shown_of(p, FeatureId::BassToggle),
            shown_of(p, FeatureId::BassLevel),
        ),
        status_rows(p)[8] == effect_row(
            "  Smart Vol:    "@,
            shown_of(p, FeatureId::SmartVolToggle),
            shown_of(p, FeatureId::SmartVolLevel),
        ) + "  ("@ + mode_name(shown_of(p, FeatureId::SmartVolMode)) + ")"@,
{
}

/// The row of an effect bears its name and shows its own switch and its own level.
#[verifier::spinoff_prover]
#[verifier::rlimit(100)]
pub proof fn law_effect_rows_show_their_effect(p: Seq<FeatureEntry>, k: int)
    requires
        0 <= k < 5,
    ensures
        ({
            let name = seq![
                "Surround"@,
                "Dialog+"@,
                "Smart Vol"@,
                "Crystalizer"@,
                "Bass"@,
            ][k];
            let switch = seq![
                FeatureId::SurroundToggle,
                FeatureId::DialogPlusToggle,
                FeatureId::SmartVolToggle,
                FeatureId::CrystalizerToggle,
                FeatureId::BassToggle,
            ][k];
            let level = seq![
                FeatureId::SurroundLevel,
                FeatureId::DialogPlusLevel,
                FeatureId::SmartVolLevel,
                FeatureId::CrystalizerLevel,
                FeatureId::BassLevel,
            ][k];
            let row = filled_up("  "@ + name + ":"@, 16) + (if shown_of(p, switch).reads_on() {
                " on"@
            } else {
                "off"@
            }) + "  "@ + percent_shown(shown_of(p, level));
            status_rows(p)[6 + k] == row + (if k == 2 {
                "  ("@ + mode_name(shown_of(p, FeatureId::SmartVolMode)) + ")"@
            } else {
                Seq::empty()
            })
        }),
{
    reveal_strlit("  ");
    reveal_strlit(":");
    reveal_strlit("Surround");
    reveal_strlit("Dialog+");
    reveal_strlit("Smart Vol");
    reveal_strlit("Crystalizer");
    reveal_strlit("Bass");
    reveal_strlit("  Surround:     ");
    reveal_strlit("  Dialog+:      ");
    reveal_strlit("  Smart Vol:    ");
    reveal_strlit("  Crystalizer:  ");
    reveal_strlit("  Bass:         ");
    reveal_strlit("on");
    reveal_strlit(" on");
    reveal_strlit("off");
    assert(filled_up("  "@ + "Surround"@ + ":"@, 16) =~= "  Surround:     "@);
    assert(filled_up("  "@ + "Dialog+"@ + ":"@, 16) =~= "  Dialog+:      "@);
    assert(filled_up("  "@ + "Smart Vol"@ + ":"@, 16) =~= "  Smart Vol:    "@);
    assert(filled_up("  "@ + "Crystalizer"@ + ":"@, 16) =~= "  Crystalizer:  "@);
    assert(filled_up("  "@ + "Bass"@ + ":"@, 16) =~= "  Bass:         "@);
    assert(padded("on"@, 3) =~= " on"@);
    assert(padded("off"@, 3) =~= "off"@);
    lemma_effect_rows(p);
    if k == 2 {
        let row = effect_row(
            "  Smart Vol:    "@,
            shown_of(p, FeatureId::SmartVolToggle),
            shown_of(p, FeatureId::SmartVolLevel),
        );
        let mode = mode_name(shown_of(p, FeatureId::SmartVolMode));
        assert(row + "  ("@ + mode + ")"@ =~= row + ("  ("@ + mode + ")"@));
    } else {
        assert(status_rows(p)[6] + Seq::<char>::empty() =~= status_rows(p)[6]);
        assert(status_rows(p)[7] + Seq::<char>::empty() =~= status_rows(p)[7]);
        assert(status_rows(p)[9] + Seq::<char>::empty() =~= status_rows(p)[9]);
        assert(status_rows(p)[10] + Seq::<char>::empty() =~= status_rows(p)[10]);
    }
}

/// The rows of the bands, each by its place.
#[verifier::spinoff_prover]
#[verifier::rlimit(60)]
proof fn lemma_band_rows(p: Seq<FeatureEntry>)
    ensures
        status_rows(p)[15] == band_row("31 Hz"@, shown_of(p, FeatureId::Eq31Hz)),
        status_rows(p)[16] == band_row("62 Hz"@, shown_of(p, FeatureId::Eq62Hz)),
        status_rows(p)[17] == band_row("125 Hz"@, shown_of(p, FeatureId::Eq125Hz)),
        status_rows(p)[18] == band_row("250 Hz"@, shown_of(p, FeatureId::Eq250Hz)),
        status_rows(p)[19] == band_row("500 Hz"@, shown_of(p, FeatureId::Eq500Hz)),
        status_rows(p)[20] == band_row("1 kHz"@, shown_of(p, FeatureId::Eq1kHz)),
        status_rows(p)[21] == band_row("2 kHz"@, shown_of(p, FeatureId::Eq2kHz)),
        status_rows(p)[22] == band_row("4 kHz"@, shown_of(p, FeatureId::Eq4kHz)),
        status_rows(p)[23] == band_row("8 kHz"@, shown_of(p, FeatureId::Eq8kHz)),
        status_rows(p)[24] == band_row("16 kHz"@, shown_of(p, FeatureId::Eq16kHz)),
{
}

/// The frequencies of the bands as the table shows them.
proof fn lemma_band_names()
    ensures
        decimal(31) + " Hz"@ == "31 Hz"@,
        decimal(62) + " Hz"@ == "62 Hz"@,
        decimal(125) + " Hz"@ == "125 Hz"@,
        decimal(250) + " Hz"@ == "250 Hz"@,
        decimal(500) + " Hz"@ == "500 Hz"@,
        decimal(1) + " kHz"@ == "1 kHz"@,
        decimal(2) + " kHz"@ == "2 kHz"@,
        decimal(4) + " kHz"@ == "4 kHz"@,
        decimal(8) + " kHz"@ == "8 kHz"@,
        decimal(16) + " kHz"@ == "16 kHz"@,
{
    lemma_decimals();
    reveal_strlit(" Hz");
    reveal_strlit(" kHz");
    reveal_strlit("31 Hz");
    reveal_strlit("62 Hz");
    reveal_strlit("125 Hz");
    reveal_strlit("250 Hz");
    reveal_strlit("500 Hz");
    reveal_strlit("1 kHz");
    reveal_strlit("2 kHz");
    reveal_strlit("4 kHz");
    reveal_strlit("8 kHz");
    reveal_strlit("16 kHz");
    assert(seq!['3', '1'] + " Hz"@ =~= "31 Hz"@);
    assert(seq!['6', '2'] + " Hz"@ =~= "62 Hz"@);
    assert(seq!['1', '2', '5'] + " Hz"@ =~= "125 Hz"@);
    assert(seq!['2', '5', '0'] + " Hz"@ =~= "250 Hz"@);
    assert(seq!['5', '0', '0'] + " Hz"@ =~= "500 Hz"@);
    assert(seq!['1'] + " kHz"@ =~= "1 kHz"@);
    assert(seq!['2'] + " kHz"@ =~= "2 kHz"@);
    assert(seq!['4'] + " kHz"@ =~= "4 kHz"@);
    assert(seq!['8'] + " kHz"@ =~= "8 kHz"@);
    assert(seq!['1', '6'] + " kHz"@ =~= "16 kHz"@);
}

/// The row of each band bears its frequency and shows its own gain.
#[verifier::spinoff_prover]
#[verifier::rlimit(100)]
pub proof fn law_band_rows_show_their_band(p: Seq<FeatureEntry>)
    ensures
        status_rows(p)[15] == "    "@ + padded(decimal(31) + " Hz"@, 6) + ": "@ + tenths_shown(
            shown_of(p, FeatureId::Eq31Hz),
        ) + " dB"@,
        status_rows(p)[16] == "    "@ + padded(decimal(62) + " Hz"@, 6) + ": "@ + tenths_shown(
            shown_of(p, FeatureId::Eq62Hz),
        ) + " dB"@,
        status_rows(p)[17] == "    "@ + padded(decimal(125) + " Hz"@, 6) + ": "@ + tenths_shown(
            shown_of(p, FeatureId::Eq125Hz),
        ) + " dB"@,
        status_rows(p)[18] == "    "@ + padded(decimal(250) + " Hz"@, 6) + ": "@ + tenths_shown(
            shown_of(p, FeatureId::Eq250Hz),
        ) + " dB"@,
        status_rows(p)[19] == "    "@ + padded(decimal(500) + " Hz"@, 6) + ": "@ + tenths_shown(
            shown_of(p, FeatureId::Eq500Hz),
        ) + " dB"@,
        status_rows(p)[20] == "    "@ + padded(decimal(1) + " kHz"@, 6) + ": "@ + tenths_shown(
            shown_of(p, FeatureId::Eq1kHz),
        ) + " dB"@,
        status_rows(p)[21] == "    "@ + padded(decimal(2) + " kHz"@, 6) + ": "@ + tenths_shown(
            shown_of(p, FeatureId::Eq2kHz),
        ) + " dB"@,
        status_rows(p)[22] == "    "@ + padded(decimal(4) + " kHz"@, 6) + ": "@ + tenths_shown(
            shown_of(p, FeatureId::Eq4kHz),
        ) + " dB"@,
        status_rows(p)[23] == "    "@ + padded(decimal(8) + " kHz"@, 6) + ": "@ + tenths_shown(
            shown_of(p, FeatureId::Eq8kHz),
        ) + " dB"@,
        status_rows(p)[24] == "    "@ + padded(decimal(16) + " kHz"@, 6) + ": "@ + tenths_shown(
            shown_of(p, FeatureId::Eq16kHz),
        ) + " dB"@,
{
    lemma_band_names();
    lemma_band_rows(p);
}

/// The rows that are neither an effect's nor a band's.
#[verifier::spinoff_prover]
#[verifier::rlimit(100)]
pub proof fn law_other_rows(p: Seq<FeatureEntry>)
    ensures
        status_rows(p).len() == 26,
        status_rows(p)[0] == Seq::<char>::empty(),
        status_rows(p)[5] == Seq::<char>::empty(),
        status_rows(p)[12] == Seq::<char>::empty(),
        status_rows(p)[25] == Seq::<char>::empty(),
        status_rows(p)[1] == "  SBX Master:   "@ + (if shown_of(p, FeatureId::SbxMaster).reads_on() {
            "on"@
        } else {
            "off"@
        }),
        status_rows(p)[2] == "  Scout Mode:   "@ + (if shown_of(p, FeatureId::ScoutMode).reads_on() {
            "on"@
        } else {
            "off"@
        }),
        status_rows(p)[3] == "  Output:       "@ + output_name(shown_of(p, FeatureId::Output)),
        status_rows(p)[4] == "  DAC Filter:   "@ + filter_name(shown_of(p, FeatureId::DacFilter)),
        status_rows(p)[11] == "  Surround Distance: "@ + whole_shown(
            shown_of(p, FeatureId::SurroundDistance),
        ) + " cm"@,
        status_rows(p)[13] == "  Equalizer:    "@ + (if shown_of(p, FeatureId::EqToggle).reads_on() {
            "on"@
        } else {
            "off"@
        }),
        status_rows(p)[14] == "    Pre-amp: "@ + tenths_shown(shown_of(p, FeatureId::EqPreAmp))
            + " dB"@,
{
}

/// The rows that show a feature: the mode of the volume control stands beside its level.
pub open spec fn row_showing(id: FeatureId) -> int {
    match id {
        FeatureId::SbxMaster => 1,
        FeatureId::ScoutMode => 2,
        FeatureId::Output => 3,
        FeatureId::DacFilter => 4,
        FeatureId::SurroundToggle | FeatureId::SurroundLevel => 6,
        FeatureId::DialogPlusToggle | FeatureId::DialogPlusLevel => 7,
        FeatureId::SmartVolToggle | FeatureId::SmartVolLevel | FeatureId::SmartVolMode => 8,
        FeatureId::CrystalizerToggle | FeatureId::CrystalizerLevel => 9,
        FeatureId::BassToggle | FeatureId::BassLevel => 10,
        FeatureId::SurroundDistance => 11,
        FeatureId::EqToggle => 13,
        _ => id.position() + 1,
    }
}

/// Changing one feature changes no row but the one that shows it.
#[verifier::spinoff_prover]
#[verifier::rlimit(100)]
pub proof fn law_a_feature_shows_in_its_row_alone(
    p: Seq<FeatureEntry>,
    q: Seq<FeatureEntry>,
    id: FeatureId,
    i: int,
)
    requires
        forall|other: FeatureId| other != id ==> #[trigger] shown_of(p, other) == shown_of(q, other),
        0 <= i < 26,
        i != row_showing(id),
    ensures
        status_rows(p)[i] == status_rows(q)[i],
{
    lemma_effect_rows(p);
    lemma_effect_rows(q);
    lemma_band_rows(p);
    lemma_band_rows(q);
    law_other_rows(p);
    law_other_rows(q);
    assert(i == 0 || i == 1 || i == 2 || i == 3 || i == 4 || i == 5 || i == 6 || i == 7 || i == 8
        || i == 9 || i == 10 || i == 11 || i == 12 || i == 13 || i == 14 || i == 15 || i == 16 || i
        == 17 || i == 18 || i == 19 || i == 20 || i == 21 || i == 22 || i == 23 || i == 24 || i
        == 25);
}

/// What is shown of a feature is the value of its first entry; what is not a number where it has
/// none.
pub proof fn law_first_entry_is_shown(p: Seq<FeatureEntry>, id: FeatureId, i: int)
    requires
        0 <= i <= p.len(),
        forall|j: int| 0 <= j < i ==> (#[trigger] p[j]).id != id,
        i < p.len() ==> p[i].id == id,
    ensures
        i < p.len() ==> shown_of(p, id) == p[i].value && first_value(p, id) == Some(p[i].value),
        i == p.len() ==> shown_of(p, id).is_nan() && first_value(p, id) is None,
    decreases p.len(),
{
    if i > 0 {
        let rest = p.drop_first();
        assert(p[0].id != id);
        assert forall|j: int| 0 <= j < i - 1 implies (#[trigger] rest[j]).id != id by {
            assert(rest[j] == p[j + 1]);
        }
        law_first_entry_is_shown(rest, id, i - 1);
    }
}

/// The names of the outputs, the filters and the modes, by the whole part of the value.
pub proof fn law_names_go_by_number(v: Value)
    ensures
        ({
            let outputs = seq!["Speakers"@, "Headphones"@];
            let filters = seq![
                "Fast Roll-off, Minimum Phase"@,
                "Slow Roll-off, Minimum Phase"@,
                "NOS (Non-Oversampling)"@,
                "Fast Roll-off, Linear Phase"@,
                "Slow Roll-off, Linear Phase"@,
            ];
            let modes = seq!["Normal"@, "Loud"@, "Night"@];
            let n = v.whole_part();
            &&& output_name(v) == if 0 <= n < 2 {
                outputs[n]
            } else {
                "unknown"@
            }
            &&& filter_name(v) == if 0 <= n < 5 {
                filters[n]
            } else {
                "unknown"@
            }
            &&& mode_name(v) == if 0 <= n < 3 {
                modes[n]
            } else {
                "unknown"@
            }
        }),
{
}

} // verus!
