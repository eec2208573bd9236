//! Bringing a profile onto the device.
//!
//! The device keeps its signal processor settings separately for each output. So whatever
//! switches the output is written first, and everything else lands in the right place.

use crate::feature::all_features;
use crate::feature::FeatureId;
use crate::feature::ValueError;
use crate::packet::framed;
use crate::packet::read_body;
use crate::packet::write_body;
use crate::packet::write_report;
use crate::paths::Locations;
use crate::profile::builtin_profile_json;
use crate::profile::is_reserved;
use crate::profile::path_of;
use crate::profile::profile_path;
use crate::profile::profile_stem;
use crate::profile::stem_of;
use crate::profile::BuiltinTexts;
use crate::profile::FeatureEntry;
use crate::profile::Profile;
use crate::profile::ProfileError;
use crate::value::Value;
use vstd::prelude::*;

verus! {

/// How long the device needs after the output was switched, in milliseconds.
pub const OUTPUT_WAIT_MS: u64 = 60;

/// How long the device needs after any other write, in milliseconds.
pub const FEATURE_WAIT_MS: u64 = 20;

/// One write: what is set, the report that sets it, and how long to wait afterwards.
#[derive(Clone, Copy)]
pub struct ApplyStep {
    pub entry: FeatureEntry,
    pub report: [u8; 65],
    pub wait_ms: u64,
}

/// Those entries that switch the output (or those that do not), in their order.
pub open spec fn only(entries: Seq<FeatureEntry>, output: bool) -> Seq<FeatureEntry>
    decreases entries.len(),
{
    if entries.len() == 0 {
        Seq::empty()
    } else {
        let rest = only(entries.drop_last(), output);
        if (entries.last().id == FeatureId::Output) == output {
            rest.push(entries.last())
        } else {
            rest
        }
    }
}

/// The entries in the order in which they are written: those that switch the output first.
pub open spec fn write_order(entries: Seq<FeatureEntry>) -> Seq<FeatureEntry> {
    only(entries, true) + only(entries, false)
}

impl ApplyStep {
    /// Whether this step writes `entry`.
    pub open spec fn writes(self, entry: FeatureEntry) -> bool {
        &&& self.entry == entry
        &&& self.report@ == framed(write_body(entry.id, entry.value))
        &&& self.wait_ms == if entry.id == FeatureId::Output {
            OUTPUT_WAIT_MS
        } else {
            FEATURE_WAIT_MS
        }
    }

    /// The step that writes `entry`.
    pub fn of(entry: FeatureEntry) -> (step: ApplyStep)
        ensures
            step.writes(entry),
    {
        ApplyStep {
            entry,
            report: write_report(entry.id, entry.value),
            wait_ms: if entry.id == FeatureId::Output {
                OUTPUT_WAIT_MS
            } else {
                FEATURE_WAIT_MS
            },
        }
    }
}

/// Whether steps write entries, one for one.
pub open spec fn steps_write(steps: Seq<ApplyStep>, entries: Seq<FeatureEntry>) -> bool {
    &&& steps.len() == entries.len()
    &&& forall|i: int| 0 <= i < steps.len() ==> (#[trigger] steps[i]).writes(entries[i])
}

/// The first error among the entries of a profile.
pub open spec fn first_error(entries: Seq<FeatureEntry>) -> Option<ValueError>
    decreases entries.len(),
{
    if entries.len() == 0 {
        None
    } else {
        match first_error(entries.drop_last()) {
            Some(e) => Some(e),
            None => match entries.last().id.verdict(entries.last().value) {
                Ok(()) => None,
                Err(e) => Some(e),
            },
        }
    }
}

/// Whether every entry holds a value that its feature accepts.
pub open spec fn all_accepted(entries: Seq<FeatureEntry>) -> bool {
    forall|i: int| 0 <= i < entries.len() ==> (#[trigger] entries[i]).id.accepts(entries[i].value)
}

fn check_entries(entries: &Vec<FeatureEntry>) -> (error: Option<ValueError>)
    ensures
        error == first_error(entries@),
{
    let mut i: usize = 0;
    assert(entries@.take(0) =~= Seq::empty());
    while i < entries.len()
        invariant
            i <= entries.len(),
            first_error(entries@.take(i as int)) is None,
        decreases entries.len() - i,
    {
        let entry = entries[i];
        assert(entries@.take(i + 1).drop_last() =~= entries@.take(i as int));
        match entry.id.validate_value(entry.value) {
            Ok(()) => {},
            Err(e) => {
                proof {
                    lemma_first_error_kept(entries@, i + 1);
                }
                return Some(e);
            },
        }
        i += 1;
    }
    assert(entries@.take(i as int) =~= entries@);
    None
}

proof fn lemma_first_error_kept(entries: Seq<FeatureEntry>, n: int)
    requires
        0 <= n <= entries.len(),
        first_error(entries.take(n)) is Some,
    ensures
        first_error(entries) == first_error(entries.take(n)),
    decreases entries.len(),
{
    if n == entries.len() {
        assert(entries.take(n) =~= entries);
    } else {
        assert(entries.drop_last().take(n) =~= entries.take(n));
        lemma_first_error_kept(entries.drop_last(), n);
    }
}

fn push_steps(steps: &mut Vec<ApplyStep>, entries: &Vec<FeatureEntry>, output: bool)
    ensures
        forall|written: Seq<FeatureEntry>| #[trigger]
            steps_write(old(steps)@, written) ==> steps_write(
                final(steps)@,
                written + only(entries@, output),
            ),
        final(steps)@.len() == old(steps)@.len() + only(entries@, output).len(),
{
    let ghost start = steps@;
    let mut i: usize = 0;
    assert(entries@.take(0) =~= Seq::empty());
    while i < entries.len()
        invariant
            i <= entries.len(),
            steps@.len() == start.len() + only(entries@.take(i as int), output).len(),
            forall|k: int| 0 <= k < start.len() ==> steps@[k] == start[k],
            forall|k: int|
                start.len() <= k < steps@.len() ==> (#[trigger] steps@[k]).writes(
                    only(entries@.take(i as int), output)[k - start.len()],
                ),
        decreases entries.len() - i,
    {
        let entry = entries[i];
        assert(entries@.take(i + 1).drop_last() =~= entries@.take(i as int));
        if (entry.id == FeatureId::Output) == output {
            steps.push(ApplyStep::of(entry));
        }
        i += 1;
    }
    assert(entries@.take(i as int) =~= entries@);
    proof {
        let added = only(entries@, output);
        assert forall|written: Seq<FeatureEntry>| #[trigger]
            steps_write(start, written) implies steps_write(steps@, written + added) by {
            assert forall|k: int| 0 <= k < steps@.len() implies (#[trigger] steps@[k]).writes(
                (written + added)[k],
            ) by {
                if k < start.len() {
                    assert(start[k].writes(written[k]));
                }
            }
        }
    }
}

/// The writes that bring `profile` onto the device, or the first error among its values.
pub fn plan_apply(profile: &Profile) -> (plan: Result<Vec<ApplyStep>, ValueError>)
    ensures
        match plan {
            Ok(steps) => {
                &&& first_error(profile.features@) is None
                &&& steps_write(steps@, write_order(profile.features@))
                &&& steps@.len() == profile.features@.len()
                &&& forall|i: int|
                    0 <= i < steps@.len() ==> {
                        let step = #[trigger] steps@[i];
                        &&& step.entry == write_order(profile.features@)[i]
                        &&& step.report@ == framed(write_body(step.entry.id, step.entry.value))
                        &&& step.wait_ms == if step.entry.id == FeatureId::Output {
                            60u64
                        } else {
                            20u64
                        }
                    }
            },
            Err(e) => first_error(profile.features@) == Some(e),
        },
{
    match check_entries(&profile.features) {
        Some(e) => Err(e),
        None => {
            let mut steps: Vec<ApplyStep> = Vec::new();
            assert(steps_write(steps@, Seq::empty()));
            push_steps(&mut steps, &profile.features, true);
            assert(Seq::<FeatureEntry>::empty() + only(profile.features@, true) =~= only(
                profile.features@,
                true,
            ));
            push_steps(&mut steps, &profile.features, false);
            proof {
                law_write_order_keeps_entries(profile.features@);
                assert forall|i: int| 0 <= i < steps@.len() implies (#[trigger] steps@[i]).writes(
                    write_order(profile.features@)[i],
                ) by {}
            }
            Ok(steps)
        },
    }
}

/// A profile is applied exactly if every one of its values is accepted.
pub proof fn law_applied_iff_all_accepted(entries: Seq<FeatureEntry>)
    ensures
        first_error(entries) is None <==> all_accepted(entries),
    decreases entries.len(),
{
    if entries.len() > 0 {
        law_applied_iff_all_accepted(entries.drop_last());
        let last = entries.last();
        lemma_accepted_is_number(last.id, last.value);
        if all_accepted(entries) {
            assert(entries[entries.len() - 1].id.accepts(last.value));
            assert forall|i: int| 0 <= i < entries.len() - 1 implies (
            #[trigger] entries.drop_last()[i]).id.accepts(entries.drop_last()[i].value) by {
                assert(entries[i].id.accepts(entries[i].value));
            }
        }
        if all_accepted(entries.drop_last()) && last.id.accepts(last.value) {
            assert forall|i: int| 0 <= i < entries.len() implies (
            #[trigger] entries[i]).id.accepts(entries[i].value) by {
                if i < entries.len() - 1 {
                    assert(entries.drop_last()[i].id.accepts(entries.drop_last()[i].value));
                }
            }
        }
    }
}

proof fn lemma_accepted_is_number(id: FeatureId, value: Value)
    ensures
        id.accepts(value) ==> !value.is_nan(),
{
}

/// The written order leaves nothing out and adds nothing.
pub proof fn law_write_order_keeps_entries(entries: Seq<FeatureEntry>)
    ensures
        write_order(entries).to_multiset() == entries.to_multiset(),
        write_order(entries).len() == entries.len(),
    decreases entries.len(),
{
    broadcast use vstd::seq_lib::group_to_multiset_ensures;

    if entries.len() == 0 {
        assert(write_order(entries) =~= entries);
    } else {
        let rest = entries.drop_last();
        let last = entries.last();
        law_write_order_keeps_entries(rest);
        assert(entries =~= rest.push(last));
        let a = only(rest, true);
        let b = only(rest, false);
        if last.id == FeatureId::Output {
            assert(write_order(entries) =~= (a + b).insert(a.len() as int, last));
        } else {
            assert(write_order(entries) =~= (a + b).push(last));
        }
    }
}

/// Nothing else is written before what switches the output.
pub proof fn law_output_comes_first(entries: Seq<FeatureEntry>, i: int, j: int)
    requires
        0 <= i < j < write_order(entries).len(),
        write_order(entries)[j].id == FeatureId::Output,
    ensures
        write_order(entries)[i].id == FeatureId::Output,
{
    lemma_only_holds(entries, true);
    lemma_only_holds(entries, false);
    let first = only(entries, true);
    if i >= first.len() {
        assert(only(entries, false)[j - first.len()].id != FeatureId::Output);
    } else {
        assert(first[i].id == FeatureId::Output);
    }
}

/// Apart from that the order of the profile is kept: of two writes that both switch the
/// output, or both do not, the one that is written first stands first in the profile.
pub proof fn law_write_order_is_stable(entries: Seq<FeatureEntry>, i: int, j: int) -> (places: (
    int,
    int,
))
    requires
        0 <= i < j < write_order(entries).len(),
        (write_order(entries)[i].id == FeatureId::Output) == (write_order(entries)[j].id
            == FeatureId::Output),
    ensures
        0 <= places.0 < places.1 < entries.len(),
        entries[places.0] == write_order(entries)[i],
        entries[places.1] == write_order(entries)[j],
{
    lemma_only_holds(entries, true);
    lemma_only_holds(entries, false);
    let first = only(entries, true);
    if j < first.len() {
        lemma_only_is_ordered(entries, true, i, j)
    } else {
        if i < first.len() {
            assert(first[i].id == FeatureId::Output);
            assert(only(entries, false)[j - first.len()].id != FeatureId::Output);
        }
        lemma_only_is_ordered(entries, false, i - first.len(), j - first.len())
    }
}

proof fn lemma_only_has_place(entries: Seq<FeatureEntry>, output: bool, i: int) -> (place: int)
    requires
        0 <= i < only(entries, output).len(),
    ensures
        0 <= place < entries.len(),
        entries[place] == only(entries, output)[i],
    decreases entries.len(),
{
    let rest = entries.drop_last();
    if i < only(rest, output).len() {
        lemma_only_has_place(rest, output, i)
    } else {
        entries.len() - 1
    }
}

proof fn lemma_only_is_ordered(entries: Seq<FeatureEntry>, output: bool, i: int, j: int) -> (places:
    (int, int))
    requires
        0 <= i < j < only(entries, output).len(),
    ensures
        0 <= places.0 < places.1 < entries.len(),
        entries[places.0] == only(entries, output)[i],
        entries[places.1] == only(entries, output)[j],
    decreases entries.len(),
{
    let rest = entries.drop_last();
    if j < only(rest, output).len() {
        lemma_only_is_ordered(rest, output, i, j)
    } else {
        (lemma_only_has_place(rest, output, i), entries.len() - 1)
    }
}

proof fn lemma_only_holds(entries: Seq<FeatureEntry>, output: bool)
    ensures
        forall|k: int|
            0 <= k < only(entries, output).len() ==> ((#[trigger] only(entries, output)[k]).id
                == FeatureId::Output) == output,
    decreases entries.len(),
{
    if entries.len() > 0 {
        lemma_only_holds(entries.drop_last(), output);
    }
}

/// The presets that can be asked for by name.
#[derive(Clone, Copy, Debug, PartialEq, Eq, Structural)]
pub enum Preset {
    Default,
    Scout,
    Sbx,
}

impl Preset {
    /// The built-in profile of a preset.
    pub open spec fn stem_text(self) -> Seq<char> {
        match self {
            Preset::Default => "default"@,
            Preset::Scout => "scout"@,
            Preset::Sbx => "sbx"@,
        }
    }

    /// The built-in profile of this preset.
    pub fn stem(self) -> (stem: &'static str)
        ensures
            stem@ == self.stem_text(),
            is_reserved(stem@),
    {
        match self {
            Preset::Default => "default",
            Preset::Scout => "scout",
            Preset::Sbx => "sbx",
        }
    }
}

/// Where a profile comes from.
pub enum Source<'a> {
    /// It is built in: its name and its text.
    Baked { stem: String, json: &'a str },
    /// A file holds it: its name and the path of the file.
    Stored { stem: String, path: Vec<u8> },
}

/// Why there is nothing to load.
#[derive(Clone, Copy, Debug, PartialEq, Eq, Structural)]
pub enum LoadError {
    /// Neither a preset nor a name was given.
    NothingNamed,
    /// The name has no path.
    NoPath(ProfileError),
}

/// Whether `source` is where the profile called `name` comes from.
pub open spec fn is_source(
    name: Seq<char>,
    baked: BuiltinTexts,
    places: Locations,
    source: Result<Source, LoadError>,
) -> bool {
    match baked.text_of(stem_of(name)) {
        Some(text) => source matches Ok(Source::Baked { stem, json }) && stem@ == stem_of(name)
            && json == text,
        None => match path_of(name, places) {
            Ok(p) => source matches Ok(Source::Stored { stem, path }) && stem@ == stem_of(name)
                && path@ == p,
            Err(e) => source matches Err(LoadError::NoPath(error)) && error == e,
        },
    }
}

/// Where the profile called `name` comes from: a built-in profile wins over a file.
pub fn apply_by_name<'a>(name: &str, baked: &BuiltinTexts<'a>, places: &Locations) -> (source:
    Result<Source<'a>, LoadError>)
    ensures
        is_source(name@, *baked, *places, source),
{
    let stem = profile_stem(name);
    match builtin_profile_json(stem, baked) {
        Some(json) => Ok(Source::Baked { stem: stem.to_owned(), json }),
        None => match profile_path(name, places) {
            Ok(path) => Ok(Source::Stored { stem: stem.to_owned(), path }),
            Err(e) => Err(LoadError::NoPath(e)),
        },
    }
}

/// What to load: the profile that was named, else the preset.
pub fn load<'a>(
    name: Option<&str>,
    preset: Option<Preset>,
    baked: &BuiltinTexts<'a>,
    places: &Locations,
) -> (source: Result<Source<'a>, LoadError>)
    ensures
        match (name, preset) {
            (Some(n), _) => is_source(n@, *baked, *places, source),
            (None, Some(p)) => source matches Ok(Source::Baked { stem, json }) && stem@
                == p.stem_text() && Some(json) == baked.text_of(stem@),
            (None, None) => source matches Err(LoadError::NothingNamed),
        },
{
    match name {
        Some(n) => apply_by_name(n, baked, places),
        None => match preset {
            Some(p) => {
                let stem = p.stem();
                match builtin_profile_json(stem, baked) {
                    Some(json) => Ok(Source::Baked { stem: stem.to_owned(), json }),
                    None => Err(LoadError::NothingNamed),
                }
            },
            None => Err(LoadError::NothingNamed),
        },
    }
}

/// The message for a load that names nothing.
pub fn nothing_named_text() -> (text: &'static str)
    ensures
        text@ == "specify a preset (default/scout/sbx) or -n <name>"@,
{
    "specify a preset (default/scout/sbx) or -n <name>"
}

/// The profile that pairs every feature, in the order of all features, with its reading.
pub fn snapshot(readings: &Vec<Value>) -> (profile: Profile)
    requires
        readings.len() == 28,
    ensures
        profile.features@.len() == 28,
        forall|i: int|
            0 <= i < 28 ==> #[trigger] profile.features@[i] == (FeatureEntry {
                id: all_features()[i],
                value: readings@[i],
            }),
{
    let all = FeatureId::all();
    let mut features: Vec<FeatureEntry> = Vec::new();
    let mut i: usize = 0;
    while i < 28
        invariant
            i <= 28,
            readings.len() == 28,
            all@ == all_features(),
            features@.len() == i,
            forall|k: int|
                0 <= k < i ==> #[trigger] features@[k] == (FeatureEntry {
                    id: all_features()[k],
                    value: readings@[k],
                }),
        decreases 28 - i,
    {
        features.push(FeatureEntry { id: all[i], value: readings[i] });
        i += 1;
    }
    Profile { features }
}

/// A step that writes an entry carries the report that sets the entry's feature to the entry's
/// value, whichever feature it is: the bytes of such a report, never those of a question.
pub proof fn law_steps_carry_write_reports(step: ApplyStep, entry: FeatureEntry)
    requires
        step.writes(entry),
    ensures
        step.entry == entry,
        step.report@ == framed(write_body(entry.id, entry.value)),
        step.report@[0] == 0x00 && step.report@[1] == 0x5a,
        entry.id.address() matches Some((family, number)) ==> step.report@.subrange(2, 7) == seq![
            0x12u8,
            0x07,
            0x01,
            family,
            number,
        ],
        entry.id == FeatureId::SbxMaster ==> step.report@.subrange(2, 7) == seq![
            0x26u8,
            0x05,
            0x07,
            0x01,
            0x00,
        ],
        entry.id == FeatureId::ScoutMode ==> step.report@.subrange(2, 7) == seq![
            0x26u8,
            0x05,
            0x07,
            0x02,
            0x00,
        ],
        entry.id == FeatureId::Output ==> step.report@.subrange(2, 5) == seq![0x2cu8, 0x05, 0x00],
        entry.id == FeatureId::DacFilter ==> step.report@.subrange(2, 5) == seq![
            0x6cu8,
            0x03,
            0x00,
        ],
        step.report@ != framed(read_body(entry.id)),
        step.wait_ms == (if entry.id == FeatureId::Output {
            60u64
        } else {
            20u64
        }),
{
    let report = step.report@;
    assert(report =~= framed(write_body(entry.id, entry.value)));
    assert(framed(read_body(entry.id))[3] == read_body(entry.id)[1]);
    assert(report[3] == write_body(entry.id, entry.value)[1]);
    match entry.id.address() {
        Some((family, number)) => {
            assert(report.subrange(2, 7) =~= seq![0x12u8, 0x07, 0x01, family, number]);
        },
        None => {
            if entry.id == FeatureId::SbxMaster {
                assert(report.subrange(2, 7) =~= seq![0x26u8, 0x05, 0x07, 0x01, 0x00]);
            } else if entry.id == FeatureId::ScoutMode {
                assert(report.subrange(2, 7) =~= seq![0x26u8, 0x05, 0x07, 0x02, 0x00]);
            } else if entry.id == FeatureId::Output {
                assert(report.subrange(2, 5) =~= seq![0x2cu8, 0x05, 0x00]);
            } else {
                assert(report.subrange(2, 5) =~= seq![0x6cu8, 0x03, 0x00]);
            }
        },
    }
}

/// The steps of a plan write every entry of the profile: each entry is written by some step.
pub proof fn law_every_entry_is_written(
    steps: Seq<ApplyStep>,
    entries: Seq<FeatureEntry>,
    i: int,
) -> (at: int)
    requires
        steps_write(steps, write_order(entries)),
        0 <= i < entries.len(),
    ensures
        steps.len() == entries.len(),
        0 <= at < steps.len(),
        steps[at].entry == entries[i],
        steps[at].report@ == framed(write_body(entries[i].id, entries[i].value)),
{
    let order = write_order(entries);
    law_write_order_keeps_entries(entries);
    order.to_multiset_ensures();
    entries.to_multiset_ensures();
    assert(entries.contains(entries[i]));
    assert(order.to_multiset().count(entries[i]) > 0);
    assert(order.contains(entries[i]));
    let at = choose|at: int| 0 <= at < order.len() && order[at] == entries[i];
    assert(steps[at].writes(order[at]));
    at
}

/// The error of a profile is that of its first entry that validation refuses.
pub proof fn law_first_refusal_is_reported(entries: Seq<FeatureEntry>) -> (at: int)
    requires
        first_error(entries) is Some,
    ensures
        0 <= at < entries.len(),
        entries[at].id.verdict(entries[at].value) == Err::<(), ValueError>(
            first_error(entries)->0,
        ),
        forall|j: int| 0 <= j < at ==> (#[trigger] entries[j]).id.verdict(entries[j].value) is Ok,
    decreases entries.len(),
{
    let front = entries.drop_last();
    if first_error(front) is Some {
        let at = law_first_refusal_is_reported(front);
        assert forall|j: int| 0 <= j < at implies (#[trigger] entries[j]).id.verdict(
            entries[j].value,
        ) is Ok by {
            assert(front[j] == entries[j]);
        }
        at
    } else {
        let at = entries.len() - 1;
        law_applied_iff_all_accepted(front);
        assert forall|j: int| 0 <= j < at implies (#[trigger] entries[j]).id.verdict(
            entries[j].value,
        ) is Ok by {
            assert(front[j] == entries[j]);
            assert(front[j].id.accepts(front[j].value));
            lemma_accepted_is_number(front[j].id, front[j].value);
        }
        at
    }
}

/// A name of a built-in profile, with or without the file extension, loads the text of that
/// profile, and any other name the file of that name.
pub proof fn law_builtin_wins_over_file(
    name: Seq<char>,
    baked: BuiltinTexts,
    places: Locations,
    source: Result<Source, LoadError>,
)
    requires
        is_source(name, baked, places, source),
    ensures
        stem_of(name) == "default"@ ==> (source matches Ok(Source::Baked { stem, json }) && stem@
            == "default"@ && json == baked.default_json),
        stem_of(name) == "scout"@ ==> (source matches Ok(Source::Baked { stem, json }) && stem@
            == "scout"@ && json == baked.scout_json),
        stem_of(name) == "sbx"@ ==> (source matches Ok(Source::Baked { stem, json }) && stem@
            == "sbx"@ && json == baked.sbx_json),
        stem_of(name) != "default"@ && stem_of(name) != "scout"@ && stem_of(name) != "sbx"@
            ==> match source {
            Ok(Source::Baked { .. }) => false,
            Ok(Source::Stored { stem, path }) => stem@ == stem_of(name) && path_of(name, places)
                == Ok::<Seq<u8>, ProfileError>(path@),
            Err(LoadError::NoPath(error)) => path_of(name, places) == Err::<
                Seq<u8>,
                ProfileError,
            >(error),
            Err(LoadError::NothingNamed) => false,
        },
{
    reveal_strlit("default");
    reveal_strlit("scout");
    reveal_strlit("sbx");
}

} // verus!
