//! Finding a feature by the name that a user typed.

use crate::feature::all_features;
use crate::feature::feature_named;
use crate::feature::FeatureId;
use crate::text::same;
use vstd::prelude::*;

verus! {

/// The error of the JSON parser.
#[verifier::external_type_specification]
#[verifier::external_body]
pub struct ExJsonError(serde_json::Error);

/// No feature has the name that was asked for.
#[derive(Clone, Copy, Debug, PartialEq, Eq, Structural)]
pub struct UnknownFeature;

/// The string that a JSON text denotes, if the text is one JSON string.
pub uninterp spec fn json_string_of(text: Seq<char>) -> Option<Seq<char>>;

/// `body` between double quotes.
pub open spec fn quoted(body: Seq<char>) -> Seq<char> {
    seq!['"'] + body + seq!['"']
}

/// Whether a JSON string may hold the characters of `body` as they are: no double quote,
/// no backslash, no control character.
pub open spec fn is_plain(body: Seq<char>) -> bool {
    forall|i: int|
        0 <= i < body.len() ==> #[trigger] body[i] != '"' && body[i] != '\\' && body[i] as u32
            >= 0x20
}

/// Calls `serde_json::from_str` for a `String`. Claims that whether it succeeds, and with
/// which string, depends on the text alone, and that plain characters between double
/// quotes are read as they stand.
#[verifier::external_body]
fn json_string(text: &str) -> (parsed: Result<String, serde_json::Error>)
    ensures
        match parsed {
            Ok(s) => json_string_of(text@) == Some(s@),
            Err(_) => json_string_of(text@) is None,
        },
        forall|body: Seq<char>|
            text@ == #[trigger] quoted(body) && is_plain(body) ==> match parsed {
                Ok(s) => s@ == body,
                Err(_) => false,
            },
{
    serde_json::from_str::<String>(text)
}

/// Two features with the same name are the same feature.
pub proof fn law_names_are_distinct(a: FeatureId, b: FeatureId)
    requires
        a.label() == b.label(),
    ensures
        a == b,
{
    lemma_label_code(a);
    lemma_label_code(b);
}

/// A few characters of a name that tell it from every other name.
spec fn name_code(s: Seq<char>) -> (nat, char, char, char, char) {
    (s.len(), s[2], s[3], s[s.len() - 5], s[0])
}

proof fn lemma_label_code(id: FeatureId)
    ensures
        name_code(id.label()) == code_of(id),
{
    reveal_strlit("SurroundToggle");
    reveal_strlit("SurroundLevel");
    reveal_strlit("SurroundDistance");
    reveal_strlit("DialogPlusToggle");
    reveal_strlit("DialogPlusLevel");
    reveal_strlit("SmartVolToggle");
    reveal_strlit("SmartVolLevel");
    reveal_strlit("SmartVolMode");
    reveal_strlit("CrystalizerToggle");
    reveal_strlit("CrystalizerLevel");
    reveal_strlit("BassToggle");
    reveal_strlit("BassLevel");
    reveal_strlit("EqToggle");
    reveal_strlit("EqPreAmp");
    reveal_strlit("Eq31Hz");
    reveal_strlit("Eq62Hz");
    reveal_strlit("Eq125Hz");
    reveal_strlit("Eq250Hz");
    reveal_strlit("Eq500Hz");
    reveal_strlit("Eq1kHz");
    reveal_strlit("Eq2kHz");
    reveal_strlit("Eq4kHz");
    reveal_strlit("Eq8kHz");
    reveal_strlit("Eq16kHz");
    reveal_strlit("SbxMaster");
    reveal_strlit("ScoutMode");
    reveal_strlit("Output");
    reveal_strlit("DacFilter");
}

spec fn code_of(id: FeatureId) -> (nat, char, char, char, char) {
    match id {
        FeatureId::SurroundToggle => (14, 'r', 'r', 'o', 'S'),
        FeatureId::SurroundLevel => (13, 'r', 'r', 'L', 'S'),
        FeatureId::SurroundDistance => (16, 'r', 'r', 't', 'S'),
        FeatureId::DialogPlusToggle => (16, 'a', 'l', 'o', 'D'),
        FeatureId::DialogPlusLevel => (15, 'a', 'l', 'L', 'D'),
        FeatureId::SmartVolToggle => (14, 'a', 'r', 'o', 'S'),
        FeatureId::SmartVolLevel => (13, 'a', 'r', 'L', 'S'),
        FeatureId::SmartVolMode => (12, 'a', 'r', 'l', 'S'),
        FeatureId::CrystalizerToggle => (17, 'y', 's', 'o', 'C'),
        FeatureId::CrystalizerLevel => (16, 'y', 's', 'L', 'C'),
        FeatureId::BassToggle => (10, 's', 's', 'o', 'B'),
        FeatureId::BassLevel => (9, 's', 's', 'L', 'B'),
        FeatureId::EqToggle => (8, 'T', 'o', 'o', 'E'),
        FeatureId::EqPreAmp => (8, 'P', 'r', 'r', 'E'),
        FeatureId::Eq31Hz => (6, '3', '1', 'q', 'E'),
        FeatureId::Eq62Hz => (6, '6', '2', 'q', 'E'),
        FeatureId::Eq125Hz => (7, '1', '2', '1', 'E'),
        FeatureId::Eq250Hz => (7, '2', '5', '2', 'E'),
        FeatureId::Eq500Hz => (7, '5', '0', '5', 'E'),
        FeatureId::Eq1kHz => (6, '1', 'k', 'q', 'E'),
        FeatureId::Eq2kHz => (6, '2', 'k', 'q', 'E'),
        FeatureId::Eq4kHz => (6, '4', 'k', 'q', 'E'),
        FeatureId::Eq8kHz => (6, '8', 'k', 'q', 'E'),
        FeatureId::Eq16kHz => (7, '1', '6', '1', 'E'),
        FeatureId::SbxMaster => (9, 'x', 'M', 'a', 'S'),
        FeatureId::ScoutMode => (9, 'o', 'u', 't', 'S'),
        FeatureId::Output => (6, 't', 'p', 'u', 'O'),
        FeatureId::DacFilter => (9, 'c', 'F', 'i', 'D'),
    }
}

/// Whether every character of a name is plain.
proof fn lemma_names_are_plain(id: FeatureId)
    ensures
        is_plain(id.label()),
{
    reveal_strlit("SurroundToggle");
    reveal_strlit("SurroundLevel");
    reveal_strlit("SurroundDistance");
    reveal_strlit("DialogPlusToggle");
    reveal_strlit("DialogPlusLevel");
    reveal_strlit("SmartVolToggle");
    reveal_strlit("SmartVolLevel");
    reveal_strlit("SmartVolMode");
    reveal_strlit("CrystalizerToggle");
    reveal_strlit("CrystalizerLevel");
    reveal_strlit("BassToggle");
    reveal_strlit("BassLevel");
    reveal_strlit("EqToggle");
    reveal_strlit("EqPreAmp");
    reveal_strlit("Eq31Hz");
    reveal_strlit("Eq62Hz");
    reveal_strlit("Eq125Hz");
    reveal_strlit("Eq250Hz");
    reveal_strlit("Eq500Hz");
    reveal_strlit("Eq1kHz");
    reveal_strlit("Eq2kHz");
    reveal_strlit("Eq4kHz");
    reveal_strlit("Eq8kHz");
    reveal_strlit("Eq16kHz");
    reveal_strlit("SbxMaster");
    reveal_strlit("ScoutMode");
    reveal_strlit("Output");
    reveal_strlit("DacFilter");
}

impl FeatureId {
    /// The feature called `name`.
    pub fn from_name(name: &str) -> (id: Option<FeatureId>)
        ensures
            id == feature_named(name@),
    {
        let all = FeatureId::all();
        let mut i: usize = 0;
        while i < 28
            invariant
                i <= 28,
                all@ == all_features(),
                forall|k: int| 0 <= k < i ==> (#[trigger] all@[k]).label() != name@,
            decreases 28 - i,
        {
            let id = all[i];
            if same(id.name(), name) {
                proof {
                    assert(id.label() == name@);
                    law_names_are_distinct(id, feature_named(name@)->0);
                }
                return Some(id);
            }
            i += 1;
        }
        assert forall|id: FeatureId| #[trigger] id.label() != name@ by {
            assert(all@[id.position()] == id);
        }
        None
    }
}

/// What a typed name resolves to: the text between double quotes is read as a JSON string,
/// and that string has to be the name of a feature.
pub open spec fn resolved(label: Seq<char>) -> Result<FeatureId, UnknownFeature> {
    match json_string_of(quoted(label)) {
        Some(name) => match feature_named(name) {
            Some(id) => Ok(id),
            None => Err(UnknownFeature),
        },
        None => Err(UnknownFeature),
    }
}

/// The feature that `label` names.
pub fn parse_feature_id(label: &str) -> (found: Result<FeatureId, UnknownFeature>)
    ensures
        found == resolved(label@),
        is_plain(label@) ==> found == (match feature_named(label@) {
            Some(id) => Ok::<FeatureId, UnknownFeature>(id),
            None => Err(UnknownFeature),
        }),
        forall|id: FeatureId| label@ == #[trigger] id.label() ==> found == Ok::<
            FeatureId,
            UnknownFeature,
        >(id),
{
    proof {
        assert forall|id: FeatureId| label@ == #[trigger] id.label() implies feature_named(label@)
            == Some(id) && is_plain(label@) by {
            law_each_feature_is_found_by_name(id);
        }
    }
    let mut text = "\"".to_owned();
    text.append(label);
    text.append("\"");
    proof {
        reveal_strlit("\"");
    }
    assert(text@ =~= quoted(label@));
    match json_string(text.as_str()) {
        Ok(name) => match FeatureId::from_name(name.as_str()) {
            Some(id) => Ok(id),
            None => Err(UnknownFeature),
        },
        Err(_) => Err(UnknownFeature),
    }
}

/// The message for a name that no feature has.
pub fn unknown_feature_text(label: &str) -> (text: String)
    ensures
        text@ == "unknown feature '"@ + label@ + "'"@,
{
    let mut text = "unknown feature '".to_owned();
    text.append(label);
    text.append("'");
    text
}

/// Every feature is found under its own name.
pub proof fn law_each_feature_is_found_by_name(id: FeatureId)
    ensures
        feature_named(id.label()) == Some(id),
        is_plain(id.label()),
{
    law_names_are_distinct(id, feature_named(id.label())->0);
    lemma_names_are_plain(id);
}

} // verus!
