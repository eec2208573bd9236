//! What the main window knows and says: the values it shows, the profiles it lists, the
//! status line, and the setup command that it runs.

use crate::arith::lemma_whole;
use crate::arith::number;
use crate::canvas::Color;
use crate::display::integer;
use crate::display::integer_text;
use crate::feature::all_features;
use crate::feature::FeatureId;
use crate::profile::first_value;
use crate::profile::is_builtin;
use crate::profile::is_reserved;
use crate::profile::reserved_stem;
use crate::profile::stem_of;
use crate::profile::FeatureEntry;
use crate::profile::Profile;
use crate::table::find_unique_matching_profile;
use crate::table::has_number;
use crate::table::is_hit;
use crate::table::known_among;
use crate::table::lists;
use crate::table::matches_table;
use crate::table::shown_entries;
use crate::table::FeatureTable;
use crate::text::decimal;
use crate::text::decimal_text;
use crate::text::has_prefix;
use crate::text::same;
use crate::text::starts_with;
use crate::text::texts;
use crate::text::trim;
use crate::text::trimmed;
use crate::text::without_leading_white;
use crate::text::without_trailing_white;
use crate::tray::TrayAction;
use crate::value::clamped;
use crate::value::law_whole_part_leaves_less_than_one;
use crate::value::unit;
use crate::value::Value;
use vstd::arithmetic::power2::lemma_pow2_pos;
use vstd::prelude::*;
use vstd::string::*;

verus! {

/// What the main window knows and says.
pub struct Session {
    /// The values that are shown.
    pub values: FeatureTable,
    /// The names of the profiles.
    pub profiles: Vec<String>,
    /// The profile that is marked.
    pub selected: Option<String>,
    /// The status line.
    pub status: String,
    /// What the last setup command printed.
    pub last_output: String,
    /// Whether it succeeded.
    pub last_success: bool,
    /// What it was.
    pub last_label: String,
    /// Whether its output is shown.
    pub show_output: bool,
    /// The setup command that is running.
    pub pending: Option<String>,
    /// Whether the watch service is installed.
    pub watch_installed: bool,
    /// Whether the program is to end when the window closes.
    pub exit_requested: bool,
}

/// A warning at the end of a status line.
pub open spec fn warning(text: Option<&str>) -> Seq<char> {
    match text {
        Some(t) => "  "@ + t@,
        None => Seq::empty(),
    }
}

/// The first status line.
pub open spec fn first_status(
    connected: bool,
    count: nat,
    selected: Option<String>,
    tray: Option<&str>,
    mixer: Option<&str>,
) -> Seq<char> {
    (if !connected {
        "Device not connected. Run `g6-cli init` (or use the Setup card in the sidebar), then reopen."@
    } else {
        match selected {
            Some(name) => "Read "@ + decimal(count) + " features from device ("@ + name@
                + " matches current state)"@,
            None => "Read "@ + decimal(count) + " features from device"@,
        }
    }) + warning(tray) + warning(mixer)
}

/// Whether `name` is the name of the only profile that says what the values are; none if no
/// profile does, or more than one.
pub open spec fn is_unique_match(
    names: Seq<String>,
    candidates: Seq<Option<Profile>>,
    values: Map<FeatureId, Value>,
    name: Option<String>,
) -> bool {
    match name {
        Some(n) => exists|i: int|
            0 <= i < names.len() && #[trigger] is_hit(candidates, values, i) && n@ == names[i]@
                && forall|j: int|
                0 <= j < names.len() && #[trigger] is_hit(candidates, values, j) ==> j == i,
        None => (forall|i: int|
            0 <= i < names.len() ==> !#[trigger] is_hit(candidates, values, i)) || (exists|
            i: int,
            j: int,
        |
            0 <= i < j < names.len() && #[trigger] is_hit(candidates, values, i)
                && #[trigger] is_hit(candidates, values, j)),
    }
}

/// Takes over the values that were read: one for each feature in their order, none where the
/// read failed.
pub open spec fn taken_over(
    values: Map<FeatureId, Value>,
    readings: Seq<Option<Value>>,
    n: int,
) -> Map<FeatureId, Value>
    decreases n,
{
    if n <= 0 {
        values
    } else {
        let before = taken_over(values, readings, n - 1);
        match readings[n - 1] {
            Some(value) => before.insert(all_features()[n - 1], value),
            None => before,
        }
    }
}

fn take_over(values: &mut FeatureTable, readings: &Vec<Option<Value>>)
    requires
        readings@.len() == 28,
    ensures
        final(values)@ == taken_over(old(values)@, readings@, 28),
{
    let all = FeatureId::all();
    let ghost before = values@;
    let mut i: usize = 0;
    while i < 28
        invariant
            i <= 28,
            readings@.len() == 28,
            all@ == all_features(),
            values@ == taken_over(before, readings@, i as int),
        decreases 28 - i,
    {
        if let Some(value) = readings[i] {
            values.insert(all[i], value);
        }
        i += 1;
    }
}

/// Whether two tables say the same of `id`.
pub open spec fn agree_on(
    a: Map<FeatureId, Value>,
    b: Map<FeatureId, Value>,
    id: FeatureId,
) -> bool {
    a.contains_key(id) == b.contains_key(id) && a[id] == b[id]
}

proof fn lemma_taken_over(
    values: Map<FeatureId, Value>,
    readings: Seq<Option<Value>>,
    n: int,
    i: int,
)
    requires
        readings.len() == 28,
        0 <= i < 28,
        0 <= n <= 28,
    ensures
        i < n && readings[i] is Some ==> taken_over(values, readings, n).contains_key(
            all_features()[i],
        ) && taken_over(values, readings, n)[all_features()[i]] == readings[i]->0,
        i >= n || readings[i] is None ==> agree_on(
            taken_over(values, readings, n),
            values,
            all_features()[i],
        ),
    decreases n,
{
    if n > 0 {
        lemma_taken_over(values, readings, n - 1, i);
        assert(all_features()[i].position() == i);
        assert(all_features()[n - 1].position() == n - 1);
    }
}

/// After the values were taken over, every feature that could be read shows what was read,
/// and every other one what it showed before.
pub proof fn law_refresh_shows_readings(
    values: Map<FeatureId, Value>,
    readings: Seq<Option<Value>>,
    i: int,
)
    requires
        readings.len() == 28,
        0 <= i < 28,
    ensures
        match readings[i] {
            Some(value) => taken_over(values, readings, 28).contains_key(all_features()[i])
                && taken_over(values, readings, 28)[all_features()[i]] == value,
            None => agree_on(taken_over(values, readings, 28), values, all_features()[i]),
        },
{
    lemma_taken_over(values, readings, 28, i);
}

impl Session {
    /// The beginning. `readings` is what was read of the device, if it is connected;
    /// `candidates` are the profiles as far as they could be read.
    pub fn start(
        readings: Option<Vec<Option<Value>>>,
        profiles: Vec<String>,
        candidates: &Vec<Option<Profile>>,
        tray_warning: Option<&str>,
        mixer_warning: Option<&str>,
        watch_installed: bool,
    ) -> (session: Session)
        requires
            readings matches Some(r) ==> r@.len() == 28,
            profiles@.len() == candidates@.len(),
        ensures
            match readings {
                Some(r) => {
                    &&& session.values@ == taken_over(Map::empty(), r@, 28)
                    &&& is_unique_match(
                        profiles@,
                        candidates@,
                        session.values@,
                        session.selected,
                    )
                },
                None => session.values@ == Map::<FeatureId, Value>::empty() && session.selected
                    is None,
            },
            session.profiles == profiles,
            session.status@ == first_status(
                readings is Some,
                known_among(session.values@, 28),
                session.selected,
                tray_warning,
                mixer_warning,
            ),
            session.last_output@ == Seq::<char>::empty(),
            !session.last_success,
            session.last_label@ == Seq::<char>::empty(),
            !session.show_output,
            session.pending is None,
            session.watch_installed == watch_installed,
            !session.exit_requested,
    {
        let mut values = FeatureTable::new();
        let mut selected: Option<String> = None;
        let mut status: String;
        match readings {
            Some(r) => {
                take_over(&mut values, &r);
                selected = find_unique_matching_profile(&profiles, candidates, &values);
                status = "Read ".to_owned();
                status.append(decimal_text(values.len() as u128).as_str());
                match &selected {
                    Some(name) => {
                        status.append(" features from device (");
                        status.append(name.as_str());
                        status.append(" matches current state)");
                    },
                    None => {
                        status.append(" features from device");
                    },
                }
            },
            None => {
                status =
                "Device not connected. Run `g6-cli init` (or use the Setup card in the sidebar), then reopen.".to_owned();
            },
        }
        let ghost plain = status@;
        if let Some(text) = tray_warning {
            status.append("  ");
            status.append(text);
        }
        assert(status@ =~= plain + warning(tray_warning));
        if let Some(text) = mixer_warning {
            status.append("  ");
            status.append(text);
        }
        assert(status@ =~= plain + warning(tray_warning) + warning(mixer_warning));
        Session {
            values,
            profiles,
            selected,
            status,
            last_output: String::new(),
            last_success: false,
            last_label: String::new(),
            show_output: false,
            pending: None,
            watch_installed,
            exit_requested: false,
        }
    }

    /// Whether two sessions differ in the status line alone.
    pub open spec fn same_but_status(self, other: Session) -> bool {
        self == Session { status: self.status, ..other }
    }

    /// A slider was moved: its value is shown, and not written yet.
    pub fn show_value(&mut self, id: FeatureId, value: Value)
        ensures
            final(self).values@ == old(self).values@.insert(id, value),
            *final(self) == (Session { values: final(self).values, ..*old(self) }),
    {
        self.values.insert(id, value);
    }

    /// The device was read again.
    pub fn refresh(&mut self, readings: &Vec<Option<Value>>)
        requires
            readings@.len() == 28,
        ensures
            final(self).values@ == taken_over(old(self).values@, readings@, 28),
            final(self).status@ == "Refreshed from device"@,
            *final(self) == (Session {
                values: final(self).values,
                status: final(self).status,
                ..*old(self)
            }),
    {
        take_over(&mut self.values, readings);
        self.status = "Refreshed from device".to_owned();
    }

    /// Whether a value may be written. One that may not is named in the status line; `shown`
    /// is how it prints.
    pub fn check_write(&mut self, id: FeatureId, value: Value, shown: &str) -> (allowed: bool)
        ensures
            allowed == (id.verdict(value) is Ok),
            allowed ==> *final(self) == *old(self),
            id.verdict(value) matches Err(e) ==> {
                &&& final(self).same_but_status(*old(self))
                &&& final(self).status@ == "Invalid: "@ + e.message(shown@)
            },
    {
        match id.validate_value(value) {
            Ok(()) => true,
            Err(e) => {
                let mut status = "Invalid: ".to_owned();
                status.append(e.text(shown).as_str());
                self.status = status;
                false
            },
        }
    }

    /// A value was written, or was not. Whether the device is to be read again: it keeps its
    /// values for each output, so a new output shows other ones.
    pub fn finish_write(
        &mut self,
        id: FeatureId,
        value: Value,
        shown: &str,
        outcome: WriteOutcome,
    ) -> (reread: bool)
        ensures
            reread == (outcome is Done && id == FeatureId::Output),
            outcome is Done ==> {
                &&& final(self).values@ == old(self).values@.insert(id, value)
                &&& final(self).status@ == id.label() + " = "@ + shown@
                &&& *final(self) == (Session {
                    values: final(self).values,
                    status: final(self).status,
                    ..*old(self)
                })
            },
            outcome !is Done ==> final(self).same_but_status(*old(self)),
            outcome matches WriteOutcome::Failed { error } ==> final(self).status@
                == "Write failed: "@ + error@,
            outcome is NoDevice ==> final(self).status@ == "Device not connected"@,
    {
        match outcome {
            WriteOutcome::Done => {
                self.values.insert(id, value);
                let mut status = id.name().to_owned();
                status.append(" = ");
                status.append(shown);
                self.status = status;
                id == FeatureId::Output
            },
            WriteOutcome::Failed { error } => {
                let mut status = "Write failed: ".to_owned();
                status.append(error.as_str());
                self.status = status;
                false
            },
            WriteOutcome::NoDevice => {
                self.status = "Device not connected".to_owned();
                false
            },
        }
    }
}

/// How a write to the device ended.
pub enum WriteOutcome {
    Done,
    Failed { error: String },
    NoDevice,
}

/// The entries that are left to write: those whose number is not shown already. The output
/// is not among them; it is switched before.
pub open spec fn left_to_write(
    values: Map<FeatureId, Value>,
    entries: Seq<FeatureEntry>,
) -> Seq<FeatureEntry>
    decreases entries.len(),
{
    if entries.len() == 0 {
        Seq::empty()
    } else {
        let before = left_to_write(values, entries.drop_last());
        let last = entries.last();
        if last.id != FeatureId::Output && !has_number(values, last.id, last.value) {
            before.push(last)
        } else {
            before
        }
    }
}

/// The values after a profile was taken over, all but the output.
pub open spec fn adopted(
    values: Map<FeatureId, Value>,
    entries: Seq<FeatureEntry>,
) -> Map<FeatureId, Value>
    decreases entries.len(),
{
    if entries.len() == 0 {
        values
    } else {
        let before = adopted(values, entries.drop_last());
        let last = entries.last();
        if last.id != FeatureId::Output {
            before.insert(last.id, last.value)
        } else {
            before
        }
    }
}

/// What is left to write are entries of the profile that are no output and whose number is
/// not shown.
pub proof fn law_left_to_write(values: Map<FeatureId, Value>, entries: Seq<FeatureEntry>, e: FeatureEntry)
    ensures
        left_to_write(values, entries).contains(e) <==> entries.contains(e) && e.id
            != FeatureId::Output && !has_number(values, e.id, e.value),
        left_to_write(values, entries).len() <= entries.len(),
    decreases entries.len(),
{
    if entries.len() > 0 {
        let shorter = entries.drop_last();
        let last = entries.last();
        law_left_to_write(values, shorter, e);
        assert(entries =~= shorter.push(last));
        let before = left_to_write(values, shorter);
        if before.contains(e) {
            let i = choose|i: int| 0 <= i < before.len() && before[i] == e;
            assert(before.push(last)[i] == e);
        }
        assert(before.push(last)[before.len() as int] == last);
        if shorter.contains(e) {
            let i = choose|i: int| 0 <= i < shorter.len() && shorter[i] == e;
            assert(entries[i] == e);
        }
        assert(entries[entries.len() - 1] == last);
    }
}

/// After a profile was taken over, each of its values is shown that no later entry replaces.
pub proof fn law_adopted_values_are_shown(
    values: Map<FeatureId, Value>,
    entries: Seq<FeatureEntry>,
    i: int,
)
    requires
        0 <= i < entries.len(),
        entries[i].id != FeatureId::Output,
        forall|j: int| i < j < entries.len() ==> (#[trigger] entries[j]).id != entries[i].id,
    ensures
        adopted(values, entries).contains_key(entries[i].id),
        adopted(values, entries)[entries[i].id] == entries[i].value,
    decreases entries.len(),
{
    let shorter = entries.drop_last();
    if i < entries.len() - 1 {
        assert(shorter[i] == entries[i]);
        assert forall|j: int| i < j < shorter.len() implies (#[trigger] shorter[j]).id
            != shorter[i].id by {
            assert(shorter[j] == entries[j]);
        }
        law_adopted_values_are_shown(values, shorter, i);
        assert(entries[entries.len() - 1].id != entries[i].id);
    }
}

/// Loading a profile twice writes nothing the second time, if it has no feature twice and
/// only numbers.
pub proof fn law_loading_twice_writes_nothing(
    values: Map<FeatureId, Value>,
    entries: Seq<FeatureEntry>,
)
    requires
        forall|i: int, j: int|
            0 <= i < j < entries.len() ==> (#[trigger] entries[i]).id != (#[trigger] entries[j]).id,
        forall|i: int| 0 <= i < entries.len() ==> !(#[trigger] entries[i]).value.is_nan(),
    ensures
        left_to_write(adopted(values, entries), entries).len() == 0,
{
    let after = adopted(values, entries);
    let rest = left_to_write(after, entries);
    if rest.len() > 0 {
        let e = rest[0];
        law_left_to_write(after, entries, e);
        assert(rest.contains(e));
        let i = choose|i: int| 0 <= i < entries.len() && entries[i] == e;
        law_adopted_values_are_shown(values, entries, i);
    }
}

/// A profile that was saved from what is shown says what is shown, and loading it writes
/// nothing, if every feature is known to have a number.
pub proof fn law_saved_profile_is_current(values: Map<FeatureId, Value>)
    requires
        forall|id: FeatureId| #[trigger] values.contains_key(id) && !values[id].is_nan(),
    ensures
        matches_table(values, shown_entries(values)),
        left_to_write(values, shown_entries(values)).len() == 0,
{
    let entries = shown_entries(values);
    assert forall|i: int| 0 <= i < entries.len() implies has_number(
        values,
        (#[trigger] entries[i]).id,
        entries[i].value,
    ) by {
        assert(values.contains_key(entries[i].id));
    }
    assert forall|id: FeatureId| #[trigger] values.contains_key(id) implies lists(entries, id) by {
        assert(entries[id.position()].id == id);
    }
    let rest = left_to_write(values, entries);
    if rest.len() > 0 {
        law_left_to_write(values, entries, rest[0]);
        assert(rest.contains(rest[0]));
        let i = choose|i: int| 0 <= i < entries.len() && entries[i] == rest[0];
        assert(has_number(values, entries[i].id, entries[i].value));
    }
}

impl Session {
    /// The output that a profile switches to, if it is not the one that is shown. It is
    /// written before everything else.
    pub fn output_switch(&self, profile: &Profile) -> (output: Option<Value>)
        ensures
            output == match first_value(profile.features@, FeatureId::Output) {
                Some(value) => if has_number(self.values@, FeatureId::Output, value) {
                    None
                } else {
                    Some(value)
                },
                None => None,
            },
    {
        match profile.value_of(FeatureId::Output) {
            Some(value) => {
                if self.values.holds(FeatureId::Output, value) {
                    None
                } else {
                    Some(value)
                }
            },
            None => None,
        }
    }

    /// Takes over a profile, and says what is left to write.
    pub fn adopt(&mut self, name: &str, profile: &Profile) -> (writes: Vec<FeatureEntry>)
        ensures
            writes@ == left_to_write(old(self).values@, profile.features@),
            final(self).values@ == adopted(old(self).values@, profile.features@),
            final(self).status@ == (if writes@.len() == 0 {
                name@ + ": already at this state"@
            } else {
                "Applying "@ + name@ + " ("@ + decimal(writes@.len()) + "/"@ + decimal(
                    profile.features@.len(),
                ) + " writes)"@
            }),
            *final(self) == (Session {
                values: final(self).values,
                status: final(self).status,
                ..*old(self)
            }),
    {
        let mut writes: Vec<FeatureEntry> = Vec::new();
        let ghost entries = profile.features@;
        let ghost before = self.values@;
        let n: usize = profile.features.len();
        let mut i: usize = 0;
        assert(entries.take(0) =~= Seq::empty());
        while i < n
            invariant
                i <= n,
                n == entries.len(),
                entries == profile.features@,
                self.values@ == before,
                writes@ == left_to_write(before, entries.take(i as int)),
            decreases n - i,
        {
            assert(entries.take(i + 1).drop_last() =~= entries.take(i as int));
            let entry = profile.features[i];
            if entry.id != FeatureId::Output && !self.values.holds(entry.id, entry.value) {
                writes.push(entry);
            }
            i += 1;
        }
        assert(entries.take(i as int) =~= entries);
        let mut k: usize = 0;
        let ghost start = *self;
        while k < n
            invariant
                k <= n,
                n == entries.len(),
                entries == profile.features@,
                self.values@ == adopted(before, entries.take(k as int)),
                *self == (Session { values: self.values, ..start }),
            decreases n - k,
        {
            assert(entries.take(k + 1).drop_last() =~= entries.take(k as int));
            let entry = profile.features[k];
            if entry.id != FeatureId::Output {
                self.values.insert(entry.id, entry.value);
            }
            k += 1;
        }
        assert(entries.take(k as int) =~= entries);
        if writes.len() == 0 {
            let mut status = name.to_owned();
            status.append(": already at this state");
            self.status = status;
        } else {
            let mut status = "Applying ".to_owned();
            status.append(name);
            status.append(" (");
            status.append(decimal_text(writes.len() as u128).as_str());
            status.append("/");
            status.append(decimal_text(n as u128).as_str());
            status.append(" writes)");
            self.status = status;
        }
        writes
    }

    /// A profile could not be loaded.
    pub fn fail_load(&mut self, error: LoadFailure)
        ensures
            final(self).same_but_status(*old(self)),
            final(self).status@ == match error {
                LoadFailure::NoPath { error } => error@,
                LoadFailure::Read { error } => "Read failed: "@ + error@,
                LoadFailure::Parse { error } => "Parse failed: "@ + error@,
            },
    {
        self.status = match error {
            LoadFailure::NoPath { error } => error,
            LoadFailure::Read { error } => {
                let mut status = "Read failed: ".to_owned();
                status.append(error.as_str());
                status
            },
            LoadFailure::Parse { error } => {
                let mut status = "Parse failed: ".to_owned();
                status.append(error.as_str());
                status
            },
        };
    }

    /// Whether the shown values may be saved under a name: the names of the built-in profiles
    /// are taken, with and without the file extension.
    pub fn check_save(&mut self, name: &str) -> (allowed: bool)
        ensures
            allowed == !is_reserved(stem_of(name@)),
            allowed ==> *final(self) == *old(self),
            !allowed ==> final(self).same_but_status(*old(self)) && final(self).status@ == name@
                + " is a reserved built-in name"@,
    {
        if reserved_stem(name).is_some() {
            let mut status = name.to_owned();
            status.append(" is a reserved built-in name");
            self.status = status;
            return false;
        }
        true
    }

    /// A profile was saved, or was not.
    pub fn finish_save(&mut self, name: &str, outcome: SaveOutcome)
        ensures
            match outcome {
                SaveOutcome::Saved { profiles, count } => {
                    &&& final(self).profiles == profiles
                    &&& final(self).status@ == "Saved "@ + name@ + " ("@ + decimal(count as nat)
                        + " features)"@
                    &&& *final(self) == (Session {
                        profiles: final(self).profiles,
                        status: final(self).status,
                        ..*old(self)
                    })
                },
                SaveOutcome::NoDirectory { error } => final(self).same_but_status(*old(self))
                    && final(self).status@ == "Profile dir: "@ + error@,
                SaveOutcome::NoPath { error } => final(self).same_but_status(*old(self)) && final(self).status@ == error@,
                SaveOutcome::Exists { path } => final(self).same_but_status(*old(self)) && final(self).status@ == path@ + " already exists"@,
                SaveOutcome::NotSerialized { error } => final(self).same_but_status(*old(self))
                    && final(self).status@ == "Serialize failed: "@ + error@,
                SaveOutcome::NotWritten { error } => final(self).same_but_status(*old(self))
                    && final(self).status@ == "Write failed: "@ + error@,
            },
    {
        match outcome {
            SaveOutcome::Saved { profiles, count } => {
                self.profiles = profiles;
                let mut status = "Saved ".to_owned();
                status.append(name);
                status.append(" (");
                status.append(decimal_text(count as u128).as_str());
                status.append(" features)");
                self.status = status;
            },
            SaveOutcome::NoDirectory { error } => {
                let mut status = "Profile dir: ".to_owned();
                status.append(error.as_str());
                self.status = status;
            },
            SaveOutcome::NoPath { error } => {
                self.status = error;
            },
            SaveOutcome::Exists { path } => {
                let mut status = path;
                status.append(" already exists");
                self.status = status;
            },
            SaveOutcome::NotSerialized { error } => {
                let mut status = "Serialize failed: ".to_owned();
                status.append(error.as_str());
                self.status = status;
            },
            SaveOutcome::NotWritten { error } => {
                let mut status = "Write failed: ".to_owned();
                status.append(error.as_str());
                self.status = status;
            },
        }
    }

    /// Whether a profile may be removed: the built-in ones may not, with and without the file
    /// extension.
    pub fn check_remove(&mut self, name: &str) -> (allowed: bool)
        ensures
            allowed == !is_reserved(stem_of(name@)),
            allowed ==> *final(self) == *old(self),
            !allowed ==> final(self).same_but_status(*old(self)) && final(self).status@
                == "Built-in profiles cannot be removed"@,
    {
        if reserved_stem(name).is_some() {
            self.status = "Built-in profiles cannot be removed".to_owned();
            return false;
        }
        true
    }

    /// A profile was removed, or was not. One that is removed is no longer marked.
    pub fn finish_remove(&mut self, name: &str, outcome: RemoveOutcome)
        ensures
            match outcome {
                RemoveOutcome::Removed { profiles } => {
                    &&& final(self).profiles == profiles
                    &&& final(self).status@ == "Removed "@ + name@
                    &&& match old(self).selected {
                        Some(marked) => if marked@ == name@ {
                            final(self).selected is None
                        } else {
                            final(self).selected == old(self).selected
                        },
                        None => final(self).selected is None,
                    }
                    &&& *final(self) == (Session {
                        profiles: final(self).profiles,
                        selected: final(self).selected,
                        status: final(self).status,
                        ..*old(self)
                    })
                },
                RemoveOutcome::NoPath { error } => final(self).same_but_status(*old(self))
                    && final(self).status@ == error@,
                RemoveOutcome::Missing => *final(self) == *old(self),
                RemoveOutcome::Failed { error } => final(self).same_but_status(*old(self))
                    && final(self).status@ == "Remove failed: "@ + error@,
            },
    {
        match outcome {
            RemoveOutcome::Removed { profiles } => {
                self.profiles = profiles;
                let marked: bool = match &self.selected {
                    Some(selected) => same(selected.as_str(), name),
                    None => false,
                };
                if marked {
                    self.selected = None;
                }
                let mut status = "Removed ".to_owned();
                status.append(name);
                self.status = status;
            },
            RemoveOutcome::NoPath { error } => {
                self.status = error;
            },
            RemoveOutcome::Missing => {},
            RemoveOutcome::Failed { error } => {
                let mut status = "Remove failed: ".to_owned();
                status.append(error.as_str());
                self.status = status;
            },
        }
    }
}

/// Why a profile could not be loaded.
pub enum LoadFailure {
    NoPath { error: String },
    Read { error: String },
    Parse { error: String },
}

/// How saving a profile ended.
pub enum SaveOutcome {
    Saved { profiles: Vec<String>, count: u32 },
    NoDirectory { error: String },
    NoPath { error: String },
    Exists { path: String },
    NotSerialized { error: String },
    NotWritten { error: String },
}

/// How removing a profile ended.
pub enum RemoveOutcome {
    Removed { profiles: Vec<String> },
    NoPath { error: String },
    Missing,
    Failed { error: String },
}

/// A setup command that the main window can run.
#[derive(Clone, Copy, Debug, PartialEq, Eq, Structural)]
pub enum SetupCommand {
    Initialize,
    InstallWatch,
    RemoveWatch,
}

impl SetupCommand {
    /// The two words of the command.
    pub open spec fn words(self) -> Seq<Seq<char>> {
        match self {
            SetupCommand::Initialize => seq!["init"@, "--yes"@],
            SetupCommand::InstallWatch => seq!["service"@, "install"@],
            SetupCommand::RemoveWatch => seq!["service"@, "uninstall"@],
        }
    }

    /// The command as it is shown.
    pub open spec fn label_text(self) -> Seq<char> {
        self.words()[0] + " "@ + self.words()[1]
    }

    /// The two words of the command.
    pub fn args(self) -> (args: [&'static str; 2])
        ensures
            args@[0]@ == self.words()[0],
            args@[1]@ == self.words()[1],
    {
        match self {
            SetupCommand::Initialize => ["init", "--yes"],
            SetupCommand::InstallWatch => ["service", "install"],
            SetupCommand::RemoveWatch => ["service", "uninstall"],
        }
    }

    /// The command as it is shown.
    pub fn label(self) -> (label: String)
        ensures
            label@ == self.label_text(),
    {
        let args = self.args();
        let mut label = args[0].to_owned();
        label.append(" ");
        label.append(args[1]);
        label
    }
}

/// The first line of a command's output: how the command was started.
pub fn cli_header(display: &str, label: &str) -> (header: String)
    ensures
        header@ == "$ "@ + display@ + " "@ + label@ + "\n"@,
{
    let mut header = "$ ".to_owned();
    header.append(display);
    header.append(" ");
    header.append(label);
    header.append("\n");
    header
}

/// What a setup command left behind.
pub struct CliOutput {
    pub header: String,
    pub stderr: String,
    pub stdout: String,
    pub success: bool,
    pub exit_code: Option<i32>,
}

/// How an exit code is shown.
pub open spec fn exit_shown(code: Option<i32>) -> Seq<char> {
    match code {
        Some(n) => "Some("@ + integer(n as int) + ")"@,
        None => "None"@,
    }
}

/// What came of the running setup command.
pub enum CliEvent {
    /// It is still running.
    Running,
    /// It ended.
    Finished { output: CliOutput },
    /// Nobody runs it any more.
    Lost,
}

impl Session {
    /// A setup command could not be started.
    pub fn fail_cli(&mut self, label: &str, error: &str)
        ensures
            final(self).last_output@ == "error: "@ + error@ + "\n"@,
            !final(self).last_success,
            final(self).last_label@ == label@,
            final(self).show_output,
            final(self).status@ == "could not run g6-cli "@ + label@,
            *final(self) == (Session {
                last_output: final(self).last_output,
                last_success: false,
                last_label: final(self).last_label,
                show_output: true,
                status: final(self).status,
                ..*old(self)
            }),
    {
        let mut output = "error: ".to_owned();
        output.append(error);
        output.append("\n");
        self.last_output = output;
        self.last_success = false;
        self.last_label = label.to_owned();
        self.show_output = true;
        let mut status = "could not run g6-cli ".to_owned();
        status.append(label);
        self.status = status;
    }

    /// A setup command was started.
    pub fn begin_cli(&mut self, label: &str)
        ensures
            final(self).last_output@ == Seq::<char>::empty(),
            final(self).status@ == "running g6-cli "@ + label@
                + " (a polkit password prompt may appear)..."@,
            final(self).pending matches Some(pending) && pending@ == label@,
            *final(self) == (Session {
                last_output: final(self).last_output,
                status: final(self).status,
                pending: final(self).pending,
                ..*old(self)
            }),
    {
        self.last_output = String::new();
        let mut status = "running g6-cli ".to_owned();
        status.append(label);
        status.append(" (a polkit password prompt may appear)...");
        self.status = status;
        self.pending = Some(label.to_owned());
    }

    /// Looks after the running setup command. Whether it may have changed the watch service,
    /// so that one has to look whether the service is installed.
    pub fn poll_pending(&mut self, event: CliEvent) -> (look: bool)
        ensures
            old(self).pending is None || event is Running ==> !look && *final(self) == *old(self),
            old(self).pending is Some && event is Lost ==> {
                &&& !look
                &&& final(self).status@ == "subprocess thread vanished"@
                &&& final(self).pending is None
                &&& *final(self) == (Session {
                    status: final(self).status,
                    pending: None,
                    ..*old(self)
                })
            },
            match (old(self).pending, event) {
                (Some(label), CliEvent::Finished { output }) => {
                    &&& final(self).last_output@ == output.header@ + output.stderr@ + output.stdout@
                    &&& final(self).last_success == output.success
                    &&& final(self).last_label@ == label@
                    &&& final(self).show_output
                    &&& final(self).pending is None
                    &&& final(self).status@ == (if output.success {
                        "g6-cli "@ + label@ + " succeeded"@
                    } else {
                        "g6-cli "@ + label@ + " failed (exit "@ + exit_shown(output.exit_code)
                            + ")"@
                    })
                    &&& look == has_prefix(label@, "service "@)
                    &&& *final(self) == (Session {
                        last_output: final(self).last_output,
                        last_success: final(self).last_success,
                        last_label: final(self).last_label,
                        show_output: true,
                        status: final(self).status,
                        pending: None,
                        ..*old(self)
                    })
                },
                _ => true,
            },
    {
        let label = match &self.pending {
            Some(label) => label.as_str().to_owned(),
            None => {
                return false;
            },
        };
        match event {
            CliEvent::Running => false,
            CliEvent::Lost => {
                self.status = "subprocess thread vanished".to_owned();
                self.pending = None;
                false
            },
            CliEvent::Finished { output } => {
                let mut all = output.header;
                all.append(output.stderr.as_str());
                all.append(output.stdout.as_str());
                self.last_output = all;
                self.last_success = output.success;
                let mut status = "g6-cli ".to_owned();
                status.append(label.as_str());
                if output.success {
                    status.append(" succeeded");
                } else {
                    status.append(" failed (exit ");
                    match output.exit_code {
                        Some(n) => {
                            status.append("Some(");
                            status.append(integer_text(n).as_str());
                            status.append(")");
                        },
                        None => {
                            status.append("None");
                        },
                    }
                    status.append(")");
                    assert(status@ =~= "g6-cli "@ + label@ + " failed (exit "@ + exit_shown(
                        output.exit_code,
                    ) + ")"@);
                }
                self.status = status;
                let look = starts_with(label.as_str(), "service ");
                self.last_label = label;
                self.show_output = true;
                self.pending = None;
                look
            },
        }
    }

    /// What the tray asks for. A setup command is started only while none is running.
    pub fn handle_tray(&mut self, action: TrayAction) -> (step: TrayStep)
        ensures
            match action {
                TrayAction::Initialize => if old(self).pending is None {
                    step == (TrayStep::Run { command: SetupCommand::Initialize }) && *final(self)
                        == *old(self)
                } else {
                    &&& step is Nothing
                    &&& final(self).same_but_status(*old(self))
                    &&& final(self).status@ == "A setup command is already running"@
                },
                TrayAction::OpenMainWindow => step is ShowWindow && *final(self) == *old(self),
                TrayAction::Exit => step is CloseWindow && *final(self) == (Session {
                    exit_requested: true,
                    ..*old(self)
                }),
            },
    {
        match action {
            TrayAction::Initialize => {
                if self.pending.is_none() {
                    TrayStep::Run { command: SetupCommand::Initialize }
                } else {
                    self.status = "A setup command is already running".to_owned();
                    TrayStep::Nothing
                }
            },
            TrayAction::OpenMainWindow => TrayStep::ShowWindow,
            TrayAction::Exit => {
                self.exit_requested = true;
                TrayStep::CloseWindow
            },
        }
    }

    /// Whether the window hides in place of closing: the tray can show it again, and nobody
    /// asked for the end of the program.
    pub fn hides_on_close(&self, close_requested: bool, has_tray: bool) -> (hides: bool)
        ensures
            hides == (close_requested && !self.exit_requested && has_tray),
    {
        close_requested && !self.exit_requested && has_tray
    }

    /// Whether a setup command can be started.
    pub fn can_start(&self) -> (yes: bool)
        ensures
            yes == (self.pending is None),
    {
        self.pending.is_none()
    }

    /// The text on the button of the watch service.
    pub fn watch_label(&self) -> (label: &'static str)
        ensures
            label@ == (if self.watch_installed {
                "Watch Service: Installed"@
            } else {
                "Watch Service: Not Installed"@
            }),
    {
        if self.watch_installed {
            "Watch Service: Installed"
        } else {
            "Watch Service: Not Installed"
        }
    }

    /// What the button of the watch service does.
    pub fn watch_command(&self) -> (command: SetupCommand)
        ensures
            command == (if self.watch_installed {
                SetupCommand::RemoveWatch
            } else {
                SetupCommand::InstallWatch
            }),
    {
        if self.watch_installed {
            SetupCommand::RemoveWatch
        } else {
            SetupCommand::InstallWatch
        }
    }

    /// Whether a profile is marked.
    pub fn is_selected(&self, name: &str) -> (yes: bool)
        ensures
            yes == (self.selected matches Some(marked) && marked@ == name@),
    {
        match &self.selected {
            Some(marked) => same(marked.as_str(), name),
            None => false,
        }
    }

    /// Whether the marked profile can be removed.
    pub fn can_remove(&self) -> (yes: bool)
        ensures
            yes == (self.selected matches Some(marked) && !is_reserved(stem_of(marked@))),
    {
        match &self.selected {
            Some(marked) => reserved_stem(marked.as_str()).is_none(),
            None => false,
        }
    }
}

/// Whether the program starts in the tray alone, without its window: its arguments ask for it,
/// and there is a tray item that can show the window later.
pub fn starts_hidden(args: &Vec<String>, has_tray: bool) -> (hidden: bool)
    ensures
        hidden == (has_tray && texts(args@).contains("--no-window"@)),
{
    let mut i: usize = 0;
    while i < args.len()
        invariant
            i <= args.len(),
            forall|k: int| 0 <= k < i ==> (#[trigger] args@[k])@ != "--no-window"@,
        decreases args.len() - i,
    {
        if same(args[i].as_str(), "--no-window") {
            assert(texts(args@)[i as int] == "--no-window"@);
            return has_tray;
        }
        i += 1;
    }
    assert forall|k: int| 0 <= k < texts(args@).len() implies #[trigger] texts(args@)[k]
        != "--no-window"@ by {
        assert(args@[k]@ == texts(args@)[k]);
    }
    false
}

/// What the tray asks for.
#[derive(Clone, Copy, Debug, PartialEq, Eq, Structural)]
pub enum TrayStep {
    Run { command: SetupCommand },
    ShowWindow,
    CloseWindow,
    Nothing,
}

/// Whether a profile can be saved under a name.
pub fn can_save(name: &str) -> (yes: bool)
    ensures
        yes == (name@.len() > 0 && !is_reserved(stem_of(name@))),
{
    name.unicode_len() > 0 && reserved_stem(name).is_none()
}

/// How a profile is shown in the sidebar: the built-in ones carry a star.
pub fn profile_row(name: &str) -> (row: String)
    ensures
        row@ == (if is_reserved(name@) {
            "*"@
        } else {
            " "@
        }) + " "@ + name@,
{
    let mut row = if is_builtin(name) {
        "*".to_owned()
    } else {
        " ".to_owned()
    };
    row.append(" ");
    row.append(name);
    row
}

/// How the outcome of a setup command is announced.
pub struct Banner {
    pub icon: &'static str,
    pub color: Color,
    pub heading: String,
}

/// What a setup command does, in words.
pub open spec fn action_name(label: Seq<char>) -> Seq<char> {
    if label == "init --yes"@ {
        "Initialize Audio"@
    } else if label == "service install"@ {
        "Install Watch Service"@
    } else if label == "service uninstall"@ {
        "Uninstall Watch Service"@
    } else {
        "Run g6-cli"@
    }
}

/// How the outcome of a setup command is announced.
pub fn result_banner(label: &str, success: bool) -> (banner: Banner)
    ensures
        banner.icon@ == (if success {
            "\u{2714}"@
        } else {
            "\u{2716}"@
        }),
        banner.color == (if success {
            Color { red: 46, green: 160, blue: 67 }
        } else {
            Color { red: 218, green: 54, blue: 51 }
        }),
        banner.heading@ == action_name(label@) + (if success {
            " \u{2014} Success"@
        } else {
            " \u{2014} Failed"@
        }),
{
    let action = if same(label, "init --yes") {
        "Initialize Audio"
    } else if same(label, "service install") {
        "Install Watch Service"
    } else if same(label, "service uninstall") {
        "Uninstall Watch Service"
    } else {
        "Run g6-cli"
    };
    let mut heading = action.to_owned();
    if success {
        heading.append(" \u{2014} Success");
        Banner { icon: "\u{2714}", color: Color::rgb(46, 160, 67), heading }
    } else {
        heading.append(" \u{2014} Failed");
        Banner { icon: "\u{2716}", color: Color::rgb(218, 54, 51), heading }
    }
}

/// The look of the window.
#[derive(Clone, Copy, Debug, PartialEq, Eq, Structural)]
pub enum Theme {
    Light,
    Dark,
    System,
}

impl Theme {
    /// The word for a look.
    pub open spec fn word(self) -> Seq<char> {
        match self {
            Theme::Light => "light"@,
            Theme::Dark => "dark"@,
            Theme::System => "system"@,
        }
    }

    /// The look that a saved text names.
    pub fn parse(text: &str) -> (theme: Option<Theme>)
        ensures
            match theme {
                Some(t) => trimmed(text@) == t.word(),
                None => forall|t: Theme| trimmed(text@) != #[trigger] t.word(),
            },
    {
        let word = trim(text);
        if same(word, "light") {
            Some(Theme::Light)
        } else if same(word, "dark") {
            Some(Theme::Dark)
        } else if same(word, "system") {
            Some(Theme::System)
        } else {
            None
        }
    }

    /// The text that is saved for a look.
    pub fn line(self) -> (text: String)
        ensures
            text@ == self.word() + "\n"@,
    {
        let mut text = match self {
            Theme::Light => "light".to_owned(),
            Theme::Dark => "dark".to_owned(),
            Theme::System => "system".to_owned(),
        };
        text.append("\n");
        text
    }
}

/// Which entry of a list a value stands for.
pub open spec fn entry_of(v: Value) -> int {
    clamped(v.whole_part(), 0, usize::MAX as int)
}

/// Which entry of a list a value stands for.
pub fn combo_index(v: Value) -> (index: usize)
    ensures
        index == entry_of(v),
{
    v.to_index()
}

/// The text of the entry that a value stands for; a question mark where the list has none.
pub fn combo_label<'a>(options: &Vec<&'a str>, v: Value) -> (label: &'a str)
    ensures
        label@ == (if entry_of(v) < options@.len() {
            options@[entry_of(v)]@
        } else {
            "?"@
        }),
{
    let i: usize = combo_index(v);
    if i < options.len() {
        options[i]
    } else {
        "?"
    }
}

/// The value to write when an entry of a list was chosen: none if it was chosen already.
pub fn combo_choice(current: Value, chosen: usize) -> (value: Option<Value>)
    ensures
        value == (if entry_of(current) == chosen {
            None
        } else {
            Some(number(chosen as int))
        }),
{
    if combo_index(current) == chosen {
        None
    } else {
        Some(Value::of_large(chosen as u128))
    }
}

/// What is saved for a look names that look again.
pub proof fn law_saved_theme_is_found(theme: Theme, other: Theme)
    ensures
        trimmed(theme.word() + "\n"@) == theme.word(),
        theme.word() == other.word() ==> theme == other,
{
    reveal_strlit("light");
    reveal_strlit("dark");
    reveal_strlit("system");
    reveal_strlit("\n");
    let s = theme.word() + "\n"@;
    assert(s.drop_last() =~= theme.word());
    assert(theme.word().len() == (match theme {
        Theme::Light => 5nat,
        Theme::Dark => 4,
        Theme::System => 6,
    }));
    assert(without_leading_white(s) == s);
    assert(without_trailing_white(theme.word()) == theme.word());
}

/// Loading a profile leaves alone what the profile does not list, and the output.
pub proof fn law_loading_leaves_the_rest(
    values: Map<FeatureId, Value>,
    entries: Seq<FeatureEntry>,
    id: FeatureId,
)
    requires
        id == FeatureId::Output || !lists(entries, id),
    ensures
        agree_on(adopted(values, entries), values, id),
    decreases entries.len(),
{
    if entries.len() > 0 {
        let front = entries.drop_last();
        if id != FeatureId::Output {
            assert(entries[entries.len() - 1].id != id);
            assert forall|i: int| 0 <= i < front.len() implies (#[trigger] front[i]).id != id by {
                assert(front[i] == entries[i]);
            }
        }
        law_loading_leaves_the_rest(values, front, id);
    }
}

/// Loading a profile that matches what is shown writes nothing.
pub proof fn law_matching_profile_writes_nothing(
    values: Map<FeatureId, Value>,
    entries: Seq<FeatureEntry>,
)
    requires
        matches_table(values, entries),
    ensures
        left_to_write(values, entries).len() == 0,
{
    let rest = left_to_write(values, entries);
    if rest.len() > 0 {
        law_left_to_write(values, entries, rest[0]);
        assert(rest.contains(rest[0]));
        let i = choose|i: int| 0 <= i < entries.len() && entries[i] == rest[0];
        assert(has_number(values, entries[i].id, entries[i].value));
    }
}

/// The value that is written for an entry of a list stands for that entry.
pub proof fn law_chosen_entry_is_shown(k: int)
    requires
        0 <= k < 0x100_0000,
    ensures
        entry_of(number(k)) == k,
{
    lemma_whole(k);
    law_whole_part_leaves_less_than_one(number(k));
    let w = number(k).whole_part();
    let t = unit();
    lemma_pow2_pos(149);
    assert(k * t >= 0) by (nonlinear_arith)
        requires
            k >= 0,
            t > 0,
    ;
    assert(w == k) by (nonlinear_arith)
        requires
            w * t <= k * t < (w + 1) * t,
            t > 0,
    ;
}

/// Each setup command is one of the program's own, and its outcome is announced by what it does.
pub proof fn law_commands_are_announced(command: SetupCommand)
    ensures
        command.words().len() == 2,
        command.label_text() == match command {
            SetupCommand::Initialize => "init --yes"@,
            SetupCommand::InstallWatch => "service install"@,
            SetupCommand::RemoveWatch => "service uninstall"@,
        },
        action_name(command.label_text()) == match command {
            SetupCommand::Initialize => "Initialize Audio"@,
            SetupCommand::InstallWatch => "Install Watch Service"@,
            SetupCommand::RemoveWatch => "Uninstall Watch Service"@,
        },
        has_prefix(command.label_text(), "service "@) <==> command != SetupCommand::Initialize,
{
    reveal_strlit("init");
    reveal_strlit("--yes");
    reveal_strlit("service");
    reveal_strlit("install");
    reveal_strlit("uninstall");
    reveal_strlit(" ");
    reveal_strlit("service ");
    reveal_strlit("init --yes");
    reveal_strlit("service install");
    reveal_strlit("service uninstall");
    assert("init"@ + " "@ + "--yes"@ =~= "init --yes"@);
    assert("service"@ + " "@ + "install"@ =~= "service install"@);
    assert("service"@ + " "@ + "uninstall"@ =~= "service uninstall"@);
    assert("service install"@.subrange(0, 8) =~= "service "@);
    assert("service uninstall"@.subrange(0, 8) =~= "service "@);
    assert("init --yes"@.subrange(0, 8)[0] != "service "@[0]);
    assert("init --yes"@.len() != "service install"@.len());
    assert("service uninstall"@.len() != "service install"@.len());
    assert("init --yes"@.len() != "service uninstall"@.len());
}

/// The words for the looks of the window.
pub proof fn law_words_of_the_looks(theme: Theme)
    ensures
        theme.word() == "light"@ <==> theme == Theme::Light,
        theme.word() == "dark"@ <==> theme == Theme::Dark,
        theme.word() == "system"@ <==> theme == Theme::System,
{
    reveal_strlit("light");
    reveal_strlit("dark");
    reveal_strlit("system");
    assert("light"@.len() == 5 && "dark"@.len() == 4 && "system"@.len() == 6);
}

/// The first status line says whether the device is there, how much was read of it and which
/// profile says so, and ends in the warnings, the tray's first.
pub proof fn law_first_status_says_what_was_read(
    count: nat,
    name: String,
    tray: &str,
    mixer: &str,
)
    ensures
        first_status(true, count, None, None, None) == "Read "@ + decimal(count)
            + " features from device"@,
        first_status(true, count, Some(name), None, None) == "Read "@ + decimal(count)
            + " features from device ("@ + name@ + " matches current state)"@,
        first_status(true, count, None, Some(tray), Some(mixer)) == first_status(
            true,
            count,
            None,
            None,
            None,
        ) + "  "@ + tray@ + "  "@ + mixer@,
        first_status(false, count, None, None, Some(mixer)) == first_status(
            false,
            count,
            None,
            None,
            None,
        ) + "  "@ + mixer@,
        exit_shown(None) == "None"@,
        forall|code: i32|
            #[trigger] exit_shown(Some(code)) == "Some("@ + integer(code as int) + ")"@,
{
    let e = Seq::<char>::empty();
    let a = "Read "@ + decimal(count) + " features from device"@;
    let b = "Read "@ + decimal(count) + " features from device ("@ + name@
        + " matches current state)"@;
    assert(a + e + e =~= a);
    assert(b + e + e =~= b);
    assert(a + ("  "@ + tray@) + ("  "@ + mixer@) =~= a + e + e + "  "@ + tray@ + "  "@ + mixer@);
    let c = "Device not connected. Run `g6-cli init` (or use the Setup card in the sidebar), then reopen."@;
    assert(c + e + ("  "@ + mixer@) =~= c + e + e + "  "@ + mixer@);
}

} // verus!
