//! The features of the device: what they are called, where they live, what they accept.

use crate::text::decimal;
use crate::value::unit;
use crate::value::Value;
use vstd::prelude::*;

verus! {

/// How many features the device has.
pub const FEATURE_COUNT: usize = 28;

/// Every device feature that can be addressed. The variant names are the names that
/// profiles use.
#[derive(Clone, Copy, Debug, PartialEq, Eq, Hash, Structural)]
pub enum FeatureId {
    SurroundToggle,
    SurroundLevel,
    SurroundDistance,
    DialogPlusToggle,
    DialogPlusLevel,
    SmartVolToggle,
    SmartVolLevel,
    SmartVolMode,
    CrystalizerToggle,
    CrystalizerLevel,
    BassToggle,
    BassLevel,
    EqToggle,
    EqPreAmp,
    Eq31Hz,
    Eq62Hz,
    Eq125Hz,
    Eq250Hz,
    Eq500Hz,
    Eq1kHz,
    Eq2kHz,
    Eq4kHz,
    Eq8kHz,
    Eq16kHz,
    SbxMaster,
    ScoutMode,
    Output,
    DacFilter,
}

/// Why a value was refused.
#[derive(Clone, Copy, Debug, PartialEq, Eq, Structural)]
pub enum ValueError {
    /// The value is not a number.
    NotANumber { id: FeatureId },
    /// The value lies outside what the feature accepts.
    OutOfRange { id: FeatureId, value: Value },
}

/// What kind of value a feature takes.
#[derive(Clone, Copy, Debug, PartialEq, Eq, Structural)]
pub enum ValueKind {
    /// Off or on.
    Toggle,
    /// A fraction from nothing to all.
    Level,
    /// The pre-amplifier gain in decibels.
    PreAmp,
    /// The gain of an equalizer band in decibels.
    Band,
    /// The surround distance in centimetres.
    Distance,
    /// The smart volume mode.
    Mode,
    /// The index of a filter of the converter.
    Filter,
}

/// All features, in the order in which profiles list them.
pub open spec fn all_features() -> Seq<FeatureId> {
    seq![
        FeatureId::SurroundToggle,
        FeatureId::SurroundLevel,
        FeatureId::SurroundDistance,
        FeatureId::DialogPlusToggle,
        FeatureId::DialogPlusLevel,
        FeatureId::SmartVolToggle,
        FeatureId::SmartVolLevel,
        FeatureId::SmartVolMode,
        FeatureId::CrystalizerToggle,
        FeatureId::CrystalizerLevel,
        FeatureId::BassToggle,
        FeatureId::BassLevel,
        FeatureId::EqToggle,
        FeatureId::EqPreAmp,
        FeatureId::Eq31Hz,
        FeatureId::Eq62Hz,
        FeatureId::Eq125Hz,
        FeatureId::Eq250Hz,
        FeatureId::Eq500Hz,
        FeatureId::Eq1kHz,
        FeatureId::Eq2kHz,
        FeatureId::Eq4kHz,
        FeatureId::Eq8kHz,
        FeatureId::Eq16kHz,
        FeatureId::SbxMaster,
        FeatureId::ScoutMode,
        FeatureId::Output,
        FeatureId::DacFilter,
    ]
}

impl ValueKind {
    /// Whether a feature of this kind accepts `value`.
    pub open spec fn accepts(self, value: Value) -> bool {
        match self {
            ValueKind::Toggle => value.is_whole(0) || value.is_whole(1),
            ValueKind::Level => value.is_between(0, 1),
            ValueKind::PreAmp => value.is_between(-6, 6),
            ValueKind::Band => value.is_between(-12, 12),
            ValueKind::Distance => value.is_between(10, 300),
            ValueKind::Mode => value.is_whole(0) || value.is_whole(1) || value.is_whole(2),
            ValueKind::Filter => exists|k: int| 0 <= k <= 4 && #[trigger] value.is_whole(k),
        }
    }

    fn admits(self, value: Value) -> (yes: bool)
        ensures
            yes == self.accepts(value),
    {
        match self {
            ValueKind::Toggle => value.equals_whole(0) || value.equals_whole(1),
            ValueKind::Level => value.lies_between(0, 1),
            ValueKind::PreAmp => value.lies_between(-6, 6),
            ValueKind::Band => value.lies_between(-12, 12),
            ValueKind::Distance => value.lies_between(10, 300),
            ValueKind::Mode => value.equals_whole(0) || value.equals_whole(1)
                || value.equals_whole(2),
            ValueKind::Filter => value.equals_whole(0) || value.equals_whole(1)
                || value.equals_whole(2) || value.equals_whole(3) || value.equals_whole(4),
        }
    }

    /// What a feature of this kind accepts, in words.
    pub open spec fn wording(self) -> Seq<char> {
        match self {
            ValueKind::Toggle => "0 or 1"@,
            ValueKind::Level => "[0.0, 1.0]"@,
            ValueKind::PreAmp => "[-6.0, 6.0] dB"@,
            ValueKind::Band => "[-12.0, 12.0] dB"@,
            ValueKind::Distance => "[10, 300] cm"@,
            ValueKind::Mode => "0 (Normal), 1 (Loud), or 2 (Night)"@,
            ValueKind::Filter => "0..=4 (filter index)"@,
        }
    }

    /// What a feature of this kind accepts, in words.
    pub fn words(self) -> (text: &'static str)
        ensures
            text@ == self.wording(),
    {
        match self {
            ValueKind::Toggle => "0 or 1",
            ValueKind::Level => "[0.0, 1.0]",
            ValueKind::PreAmp => "[-6.0, 6.0] dB",
            ValueKind::Band => "[-12.0, 12.0] dB",
            ValueKind::Distance => "[10, 300] cm",
            ValueKind::Mode => "0 (Normal), 1 (Loud), or 2 (Night)",
            ValueKind::Filter => "0..=4 (filter index)",
        }
    }
}

impl FeatureId {
    /// The position of a feature in the list of all features.
    pub open spec fn position(self) -> int {
        match self {
            FeatureId::SurroundToggle => 0,
            FeatureId::SurroundLevel => 1,
            FeatureId::SurroundDistance => 2,
            FeatureId::DialogPlusToggle => 3,
            FeatureId::DialogPlusLevel => 4,
            FeatureId::SmartVolToggle => 5,
            FeatureId::SmartVolLevel => 6,
            FeatureId::SmartVolMode => 7,
            FeatureId::CrystalizerToggle => 8,
            FeatureId::CrystalizerLevel => 9,
            FeatureId::BassToggle => 10,
            FeatureId::BassLevel => 11,
            FeatureId::EqToggle => 12,
            FeatureId::EqPreAmp => 13,
            FeatureId::Eq31Hz => 14,
            FeatureId::Eq62Hz => 15,
            FeatureId::Eq125Hz => 16,
            FeatureId::Eq250Hz => 17,
            FeatureId::Eq500Hz => 18,
            FeatureId::Eq1kHz => 19,
            FeatureId::Eq2kHz => 20,
            FeatureId::Eq4kHz => 21,
            FeatureId::Eq8kHz => 22,
            FeatureId::Eq16kHz => 23,
            FeatureId::SbxMaster => 24,
            FeatureId::ScoutMode => 25,
            FeatureId::Output => 26,
            FeatureId::DacFilter => 27,
        }
    }

    /// The position of this feature in the list of all features.
    pub fn index(self) -> (i: usize)
        ensures
            i == self.position(),
            i < FEATURE_COUNT,
            all_features()[i as int] == self,
    {
        match self {
            FeatureId::SurroundToggle => 0,
            FeatureId::SurroundLevel => 1,
            FeatureId::SurroundDistance => 2,
            FeatureId::DialogPlusToggle => 3,
            FeatureId::DialogPlusLevel => 4,
            FeatureId::SmartVolToggle => 5,
            FeatureId::SmartVolLevel => 6,
            FeatureId::SmartVolMode => 7,
            FeatureId::CrystalizerToggle => 8,
            FeatureId::CrystalizerLevel => 9,
            FeatureId::BassToggle => 10,
            FeatureId::BassLevel => 11,
            FeatureId::EqToggle => 12,
            FeatureId::EqPreAmp => 13,
            FeatureId::Eq31Hz => 14,
            FeatureId::Eq62Hz => 15,
            FeatureId::Eq125Hz => 16,
            FeatureId::Eq250Hz => 17,
            FeatureId::Eq500Hz => 18,
            FeatureId::Eq1kHz => 19,
            FeatureId::Eq2kHz => 20,
            FeatureId::Eq4kHz => 21,
            FeatureId::Eq8kHz => 22,
            FeatureId::Eq16kHz => 23,
            FeatureId::SbxMaster => 24,
            FeatureId::ScoutMode => 25,
            FeatureId::Output => 26,
            FeatureId::DacFilter => 27,
        }
    }

    /// All features, in the order in which profiles list them.
    pub fn all() -> (list: [FeatureId; 28])
        ensures
            list@ == all_features(),
    {
        let list: [FeatureId; 28] = [
            FeatureId::SurroundToggle,
            FeatureId::SurroundLevel,
            FeatureId::SurroundDistance,
            FeatureId::DialogPlusToggle,
            FeatureId::DialogPlusLevel,
            FeatureId::SmartVolToggle,
            FeatureId::SmartVolLevel,
            FeatureId::SmartVolMode,
            FeatureId::CrystalizerToggle,
            FeatureId::CrystalizerLevel,
            FeatureId::BassToggle,
            FeatureId::BassLevel,
            FeatureId::EqToggle,
            FeatureId::EqPreAmp,
            FeatureId::Eq31Hz,
            FeatureId::Eq62Hz,
            FeatureId::Eq125Hz,
            FeatureId::Eq250Hz,
            FeatureId::Eq500Hz,
            FeatureId::Eq1kHz,
            FeatureId::Eq2kHz,
            FeatureId::Eq4kHz,
            FeatureId::Eq8kHz,
            FeatureId::Eq16kHz,
            FeatureId::SbxMaster,
            FeatureId::ScoutMode,
            FeatureId::Output,
            FeatureId::DacFilter,
        ];
        assert(list@ =~= all_features());
        list
    }

    /// The name of a feature.
    pub open spec fn label(self) -> Seq<char> {
        match self {
            FeatureId::SurroundToggle => "SurroundToggle"@,
            FeatureId::SurroundLevel => "SurroundLevel"@,
            FeatureId::SurroundDistance => "SurroundDistance"@,
            FeatureId::DialogPlusToggle => "DialogPlusToggle"@,
            FeatureId::DialogPlusLevel => "DialogPlusLevel"@,
            FeatureId::SmartVolToggle => "SmartVolToggle"@,
            FeatureId::SmartVolLevel => "SmartVolLevel"@,
            FeatureId::SmartVolMode => "SmartVolMode"@,
            FeatureId::CrystalizerToggle => "CrystalizerToggle"@,
            FeatureId::CrystalizerLevel => "CrystalizerLevel"@,
            FeatureId::BassToggle => "BassToggle"@,
            FeatureId::BassLevel => "BassLevel"@,
            FeatureId::EqToggle => "EqToggle"@,
            FeatureId::EqPreAmp => "EqPreAmp"@,
            FeatureId::Eq31Hz => "Eq31Hz"@,
            FeatureId::Eq62Hz => "Eq62Hz"@,
            FeatureId::Eq125Hz => "Eq125Hz"@,
            FeatureId::Eq250Hz => "Eq250Hz"@,
            FeatureId::Eq500Hz => "Eq500Hz"@,
            FeatureId::Eq1kHz => "Eq1kHz"@,
            FeatureId::Eq2kHz => "Eq2kHz"@,
            FeatureId::Eq4kHz => "Eq4kHz"@,
            FeatureId::Eq8kHz => "Eq8kHz"@,
            FeatureId::Eq16kHz => "Eq16kHz"@,
            FeatureId::SbxMaster => "SbxMaster"@,
            FeatureId::ScoutMode => "ScoutMode"@,
            FeatureId::Output => "Output"@,
            FeatureId::DacFilter => "DacFilter"@,
        }
    }

    /// The name of this feature.
    pub fn name(self) -> (text: &'static str)
        ensures
            text@ == self.label(),
    {
        match self {
            FeatureId::SurroundToggle => "SurroundToggle",
            FeatureId::SurroundLevel => "SurroundLevel",
            FeatureId::SurroundDistance => "SurroundDistance",
            FeatureId::DialogPlusToggle => "DialogPlusToggle",
            FeatureId::DialogPlusLevel => "DialogPlusLevel",
            FeatureId::SmartVolToggle => "SmartVolToggle",
            FeatureId::SmartVolLevel => "SmartVolLevel",
            FeatureId::SmartVolMode => "SmartVolMode",
            FeatureId::CrystalizerToggle => "CrystalizerToggle",
            FeatureId::CrystalizerLevel => "CrystalizerLevel",
            FeatureId::BassToggle => "BassToggle",
            FeatureId::BassLevel => "BassLevel",
            FeatureId::EqToggle => "EqToggle",
            FeatureId::EqPreAmp => "EqPreAmp",
            FeatureId::Eq31Hz => "Eq31Hz",
            FeatureId::Eq62Hz => "Eq62Hz",
            FeatureId::Eq125Hz => "Eq125Hz",
            FeatureId::Eq250Hz => "Eq250Hz",
            FeatureId::Eq500Hz => "Eq500Hz",
            FeatureId::Eq1kHz => "Eq1kHz",
            FeatureId::Eq2kHz => "Eq2kHz",
            FeatureId::Eq4kHz => "Eq4kHz",
            FeatureId::Eq8kHz => "Eq8kHz",
            FeatureId::Eq16kHz => "Eq16kHz",
            FeatureId::SbxMaster => "SbxMaster",
            FeatureId::ScoutMode => "ScoutMode",
            FeatureId::Output => "Output",
            FeatureId::DacFilter => "DacFilter",
        }
    }

    /// The kind of value that a feature takes.
    pub open spec fn kind_of(self) -> ValueKind {
        match self {
            FeatureId::SurroundToggle
            | FeatureId::DialogPlusToggle
            | FeatureId::SmartVolToggle
            | FeatureId::CrystalizerToggle
            | FeatureId::BassToggle
            | FeatureId::EqToggle
            | FeatureId::SbxMaster
            | FeatureId::ScoutMode
            | FeatureId::Output => ValueKind::Toggle,
            FeatureId::SurroundLevel
            | FeatureId::DialogPlusLevel
            | FeatureId::SmartVolLevel
            | FeatureId::CrystalizerLevel
            | FeatureId::BassLevel => ValueKind::Level,
            FeatureId::EqPreAmp => ValueKind::PreAmp,
            FeatureId::Eq31Hz
            | FeatureId::Eq62Hz
            | FeatureId::Eq125Hz
            | FeatureId::Eq250Hz
            | FeatureId::Eq500Hz
            | FeatureId::Eq1kHz
            | FeatureId::Eq2kHz
            | FeatureId::Eq4kHz
            | FeatureId::Eq8kHz
            | FeatureId::Eq16kHz => ValueKind::Band,
            FeatureId::SurroundDistance => ValueKind::Distance,
            FeatureId::SmartVolMode => ValueKind::Mode,
            FeatureId::DacFilter => ValueKind::Filter,
        }
    }

    /// The kind of value that this feature takes.
    pub fn kind(self) -> (kind: ValueKind)
        ensures
            kind == self.kind_of(),
    {
        match self {
            FeatureId::SurroundToggle
            | FeatureId::DialogPlusToggle
            | FeatureId::SmartVolToggle
            | FeatureId::CrystalizerToggle
            | FeatureId::BassToggle
            | FeatureId::EqToggle
            | FeatureId::SbxMaster
            | FeatureId::ScoutMode
            | FeatureId::Output => ValueKind::Toggle,
            FeatureId::SurroundLevel
            | FeatureId::DialogPlusLevel
            | FeatureId::SmartVolLevel
            | FeatureId::CrystalizerLevel
            | FeatureId::BassLevel => ValueKind::Level,
            FeatureId::EqPreAmp => ValueKind::PreAmp,
            FeatureId::Eq31Hz
            | FeatureId::Eq62Hz
            | FeatureId::Eq125Hz
            | FeatureId::Eq250Hz
            | FeatureId::Eq500Hz
            | FeatureId::Eq1kHz
            | FeatureId::Eq2kHz
            | FeatureId::Eq4kHz
            | FeatureId::Eq8kHz
            | FeatureId::Eq16kHz => ValueKind::Band,
            FeatureId::SurroundDistance => ValueKind::Distance,
            FeatureId::SmartVolMode => ValueKind::Mode,
            FeatureId::DacFilter => ValueKind::Filter,
        }
    }

    /// Whether the feature accepts `value`.
    pub open spec fn accepts(self, value: Value) -> bool {
        self.kind_of().accepts(value)
    }

    /// Checks that `value` lies in the documented range of this feature.
    pub fn validate_value(self, value: Value) -> (outcome: Result<(), ValueError>)
        ensures
            outcome == self.verdict(value),
    {
        if value.not_a_number() {
            return Err(ValueError::NotANumber { id: self });
        }
        if self.kind().admits(value) {
            Ok(())
        } else {
            Err(ValueError::OutOfRange { id: self, value })
        }
    }

    /// What validation says of `value`: it is accepted, or it is not a number, or it is a
    /// number outside the range of the feature.
    pub open spec fn verdict(self, value: Value) -> Result<(), ValueError> {
        if value.is_nan() {
            Err(ValueError::NotANumber { id: self })
        } else if self.accepts(value) {
            Ok(())
        } else {
            Err(ValueError::OutOfRange { id: self, value })
        }
    }

    /// The family and the number by which a feature of the signal processor is addressed.
    pub open spec fn address(self) -> Option<(u8, u8)> {
        match self {
            FeatureId::SurroundToggle => Some((0x96, 0x00)),
            FeatureId::SurroundLevel => Some((0x96, 0x01)),
            FeatureId::SurroundDistance => Some((0x96, 0x17)),
            FeatureId::DialogPlusToggle => Some((0x96, 0x02)),
            FeatureId::DialogPlusLevel => Some((0x96, 0x03)),
            FeatureId::SmartVolToggle => Some((0x96, 0x04)),
            FeatureId::SmartVolLevel => Some((0x96, 0x05)),
            FeatureId::SmartVolMode => Some((0x96, 0x06)),
            FeatureId::CrystalizerToggle => Some((0x96, 0x07)),
            FeatureId::CrystalizerLevel => Some((0x96, 0x08)),
            FeatureId::BassToggle => Some((0x96, 0x18)),
            FeatureId::BassLevel => Some((0x96, 0x19)),
            FeatureId::EqToggle => Some((0x96, 0x09)),
            FeatureId::EqPreAmp => Some((0x96, 0x0a)),
            FeatureId::Eq31Hz => Some((0x96, 0x0b)),
            FeatureId::Eq62Hz => Some((0x96, 0x0c)),
            FeatureId::Eq125Hz => Some((0x96, 0x0d)),
            FeatureId::Eq250Hz => Some((0x96, 0x0e)),
            FeatureId::Eq500Hz => Some((0x96, 0x0f)),
            FeatureId::Eq1kHz => Some((0x96, 0x10)),
            FeatureId::Eq2kHz => Some((0x96, 0x11)),
            FeatureId::Eq4kHz => Some((0x96, 0x12)),
            FeatureId::Eq8kHz => Some((0x96, 0x13)),
            FeatureId::Eq16kHz => Some((0x96, 0x14)),
            FeatureId::SbxMaster => None,
            FeatureId::ScoutMode => None,
            FeatureId::Output => None,
            FeatureId::DacFilter => None,
        }
    }

    /// The family and the number by which this feature is addressed, if it belongs to the
    /// signal processor.
    pub fn dsp_address(self) -> (pair: Option<(u8, u8)>)
        ensures
            pair == self.address(),
    {
        match self {
            FeatureId::SurroundToggle => Some((0x96, 0x00)),
            FeatureId::SurroundLevel => Some((0x96, 0x01)),
            FeatureId::SurroundDistance => Some((0x96, 0x17)),
            FeatureId::DialogPlusToggle => Some((0x96, 0x02)),
            FeatureId::DialogPlusLevel => Some((0x96, 0x03)),
            FeatureId::SmartVolToggle => Some((0x96, 0x04)),
            FeatureId::SmartVolLevel => Some((0x96, 0x05)),
            FeatureId::SmartVolMode => Some((0x96, 0x06)),
            FeatureId::CrystalizerToggle => Some((0x96, 0x07)),
            FeatureId::CrystalizerLevel => Some((0x96, 0x08)),
            FeatureId::BassToggle => Some((0x96, 0x18)),
            FeatureId::BassLevel => Some((0x96, 0x19)),
            FeatureId::EqToggle => Some((0x96, 0x09)),
            FeatureId::EqPreAmp => Some((0x96, 0x0a)),
            FeatureId::Eq31Hz => Some((0x96, 0x0b)),
            FeatureId::Eq62Hz => Some((0x96, 0x0c)),
            FeatureId::Eq125Hz => Some((0x96, 0x0d)),
            FeatureId::Eq250Hz => Some((0x96, 0x0e)),
            FeatureId::Eq500Hz => Some((0x96, 0x0f)),
            FeatureId::Eq1kHz => Some((0x96, 0x10)),
            FeatureId::Eq2kHz => Some((0x96, 0x11)),
            FeatureId::Eq4kHz => Some((0x96, 0x12)),
            FeatureId::Eq8kHz => Some((0x96, 0x13)),
            FeatureId::Eq16kHz => Some((0x96, 0x14)),
            FeatureId::SbxMaster
            | FeatureId::ScoutMode
            | FeatureId::Output
            | FeatureId::DacFilter => None,
        }
    }
}

/// The feature called `name`, if there is one.
pub open spec fn feature_named(name: Seq<char>) -> Option<FeatureId> {
    if exists|id: FeatureId| #[trigger] id.label() == name {
        Some(choose|id: FeatureId| #[trigger] id.label() == name)
    } else {
        None
    }
}

impl ValueError {
    /// The message of an error; `shown` is how the value prints.
    pub open spec fn message(self, shown: Seq<char>) -> Seq<char> {
        match self {
            ValueError::NotANumber { id } => id.label() + ": value is NaN"@,
            ValueError::OutOfRange { id, value } => id.label() + ": value "@ + shown
                + " out of range, expected "@ + id.kind_of().wording(),
        }
    }

    /// The message of this error; `shown` is how the value prints.
    pub fn text(self, shown: &str) -> (text: String)
        ensures
            text@ == self.message(shown@),
    {
        match self {
            ValueError::NotANumber { id } => {
                let mut text = id.name().to_owned();
                text.append(": value is NaN");
                text
            },
            ValueError::OutOfRange { id, value: _ } => {
                let mut text = id.name().to_owned();
                text.append(": value ");
                text.append(shown);
                text.append(" out of range, expected ");
                text.append(id.kind().words());
                text
            },
        }
    }
}

/// The list of all features holds each feature once, at its position.
pub proof fn law_all_lists_each_feature_once(id: FeatureId)
    ensures
        all_features().len() == FEATURE_COUNT,
        all_features()[id.position()] == id,
        forall|i: int|
            0 <= i < all_features().len() && #[trigger] all_features()[i] == id ==> i
                == id.position(),
{
}

/// No two features of the signal processor share an address.
pub proof fn law_addresses_are_distinct(a: FeatureId, b: FeatureId)
    requires
        a.address() is Some,
        a.address() == b.address(),
    ensures
        a == b,
{
}

/// The ten bands of the equalizer, from the lowest frequency to the highest, have the numbers
/// from 0x0b on, one after the other. Each accepts exactly the numbers from -12 to 12. Its
/// name is its frequency.
pub proof fn law_bands_count_up(k: int, value: Value)
    requires
        0 <= k < 10,
    ensures
        ({
            let band = seq![
                FeatureId::Eq31Hz,
                FeatureId::Eq62Hz,
                FeatureId::Eq125Hz,
                FeatureId::Eq250Hz,
                FeatureId::Eq500Hz,
                FeatureId::Eq1kHz,
                FeatureId::Eq2kHz,
                FeatureId::Eq4kHz,
                FeatureId::Eq8kHz,
                FeatureId::Eq16kHz,
            ][k];
            let hertz = seq![
                31nat,
                62,
                125,
                250,
                500,
                1_000,
                2_000,
                4_000,
                8_000,
                16_000,
            ][k];
            &&& band.address() == Some((0x96u8, (0x0b + k) as u8))
            &&& band.verdict(value) is Ok <==> !value.is_nan() && -12 * unit() <= value.scaled()
                <= 12 * unit()
            &&& band.label() == "Eq"@ + (if hertz < 1_000 {
                decimal(hertz) + "Hz"@
            } else {
                decimal(hertz / 1_000) + "kHz"@
            })
            &&& band.position() == 14 + k
            &&& all_features()[14 + k] == band
        }),
{
    lemma_decimals();
    reveal_strlit("Eq");
    reveal_strlit("Hz");
    reveal_strlit("kHz");
    reveal_strlit("Eq31Hz");
    reveal_strlit("Eq62Hz");
    reveal_strlit("Eq125Hz");
    reveal_strlit("Eq250Hz");
    reveal_strlit("Eq500Hz");
    reveal_strlit("Eq1kHz");
    reveal_strlit("Eq2kHz");
    reveal_strlit("Eq4kHz");
    reveal_strlit("Eq8kHz");
    reveal_strlit("Eq16kHz");
    assert("Eq31Hz"@ =~= "Eq"@ + (seq!['3', '1'] + "Hz"@));
    assert("Eq62Hz"@ =~= "Eq"@ + (seq!['6', '2'] + "Hz"@));
    assert("Eq125Hz"@ =~= "Eq"@ + (seq!['1', '2', '5'] + "Hz"@));
    assert("Eq250Hz"@ =~= "Eq"@ + (seq!['2', '5', '0'] + "Hz"@));
    assert("Eq500Hz"@ =~= "Eq"@ + (seq!['5', '0', '0'] + "Hz"@));
    assert("Eq1kHz"@ =~= "Eq"@ + (seq!['1'] + "kHz"@));
    assert("Eq2kHz"@ =~= "Eq"@ + (seq!['2'] + "kHz"@));
    assert("Eq4kHz"@ =~= "Eq"@ + (seq!['4'] + "kHz"@));
    assert("Eq8kHz"@ =~= "Eq"@ + (seq!['8'] + "kHz"@));
    assert("Eq16kHz"@ =~= "Eq"@ + (seq!['1', '6'] + "kHz"@));
}

/// The frequencies of the bands in decimal.
pub(crate) proof fn lemma_decimals()
    ensures
        decimal(31) == seq!['3', '1'],
        decimal(62) == seq!['6', '2'],
        decimal(125) == seq!['1', '2', '5'],
        decimal(250) == seq!['2', '5', '0'],
        decimal(500) == seq!['5', '0', '0'],
        decimal(1) == seq!['1'],
        decimal(2) == seq!['2'],
        decimal(4) == seq!['4'],
        decimal(8) == seq!['8'],
        decimal(16) == seq!['1', '6'],
{
    reveal_with_fuel(decimal, 3);
    assert(decimal(31) =~= seq!['3', '1']);
    assert(decimal(62) =~= seq!['6', '2']);
    assert(decimal(125) =~= seq!['1', '2', '5']);
    assert(decimal(250) =~= seq!['2', '5', '0']);
    assert(decimal(500) =~= seq!['5', '0', '0']);
    assert(decimal(16) =~= seq!['1', '6']);
}

/// Each of the five effects has a switch and a level. The switch accepts exactly zero and one,
/// the level exactly the numbers from zero to one. Both are named after the effect, and the
/// number of the level follows that of the switch.
pub proof fn law_effects_have_switch_and_level(k: int, value: Value)
    requires
        0 <= k < 5,
    ensures
        ({
            let switch = seq![
                FeatureId::SurroundToggle,
                FeatureId::DialogPlusToggle,
                FeatureId::SmartVolToggle,
                FeatureId::CrystalizerToggle,
                FeatureId::BassToggle,
            ][k];
            let level = seq![
                FeatureId::SurroundLevel,
                FeatureId::DialogPlusLevel,
                FeatureId::SmartVolLevel,
                FeatureId::CrystalizerLevel,
                FeatureId::BassLevel,
            ][k];
            let name = seq![
                "Surround"@,
                "DialogPlus"@,
                "SmartVol"@,
                "Crystalizer"@,
                "Bass"@,
            ][k];
            let first = seq![0x00u8, 0x02, 0x04, 0x07, 0x18][k];
            &&& switch.verdict(value) is Ok <==> !value.is_nan() && (value.scaled() == 0
                || value.scaled() == unit())
            &&& level.verdict(value) is Ok <==> !value.is_nan() && 0 <= value.scaled() <= unit()
            &&& switch.address() == Some((0x96u8, first))
            &&& level.address() == Some((0x96u8, (first + 1) as u8))
            &&& switch.label() == name + "Toggle"@
            &&& level.label() == name + "Level"@
            &&& level.position() == switch.position() + 1
            &&& switch.position() == seq![0int, 3, 5, 8, 10][k]
        }),
{
    assert(0 * unit() == 0 && 1 * unit() == unit());
    reveal_strlit("Toggle");
    reveal_strlit("Level");
    reveal_strlit("Surround");
    reveal_strlit("DialogPlus");
    reveal_strlit("SmartVol");
    reveal_strlit("Crystalizer");
    reveal_strlit("Bass");
    reveal_strlit("SurroundToggle");
    reveal_strlit("SurroundLevel");
    reveal_strlit("DialogPlusToggle");
    reveal_strlit("DialogPlusLevel");
    reveal_strlit("SmartVolToggle");
    reveal_strlit("SmartVolLevel");
    reveal_strlit("CrystalizerToggle");
    reveal_strlit("CrystalizerLevel");
    reveal_strlit("BassToggle");
    reveal_strlit("BassLevel");
    assert("SurroundToggle"@ =~= "Surround"@ + "Toggle"@);
    assert("SurroundLevel"@ =~= "Surround"@ + "Level"@);
    assert("DialogPlusToggle"@ =~= "DialogPlus"@ + "Toggle"@);
    assert("DialogPlusLevel"@ =~= "DialogPlus"@ + "Level"@);
    assert("SmartVolToggle"@ =~= "SmartVol"@ + "Toggle"@);
    assert("SmartVolLevel"@ =~= "SmartVol"@ + "Level"@);
    assert("CrystalizerToggle"@ =~= "Crystalizer"@ + "Toggle"@);
    assert("CrystalizerLevel"@ =~= "Crystalizer"@ + "Level"@);
    assert("BassToggle"@ =~= "Bass"@ + "Toggle"@);
    assert("BassLevel"@ =~= "Bass"@ + "Level"@);
}

/// The features that are neither an effect's nor a band: what they accept, where they live,
/// what they are called, and where they stand in a profile.
pub proof fn law_other_features(value: Value)
    ensures
        FeatureId::EqToggle.verdict(value) is Ok <==> !value.is_nan() && (value.scaled() == 0
            || value.scaled() == unit()),
        FeatureId::SbxMaster.verdict(value) is Ok <==> !value.is_nan() && (value.scaled() == 0
            || value.scaled() == unit()),
        FeatureId::ScoutMode.verdict(value) is Ok <==> !value.is_nan() && (value.scaled() == 0
            || value.scaled() == unit()),
        FeatureId::Output.verdict(value) is Ok <==> !value.is_nan() && (value.scaled() == 0
            || value.scaled() == unit()),
        FeatureId::EqPreAmp.verdict(value) is Ok <==> !value.is_nan() && -6 * unit()
            <= value.scaled() <= 6 * unit(),
        FeatureId::SurroundDistance.verdict(value) is Ok <==> !value.is_nan() && 10 * unit()
            <= value.scaled() <= 300 * unit(),
        FeatureId::SmartVolMode.verdict(value) is Ok <==> !value.is_nan() && (value.scaled() == 0
            || value.scaled() == unit() || value.scaled() == 2 * unit()),
        FeatureId::DacFilter.verdict(value) is Ok <==> !value.is_nan() && (value.scaled() == 0
            || value.scaled() == unit() || value.scaled() == 2 * unit() || value.scaled() == 3
            * unit() || value.scaled() == 4 * unit()),
        FeatureId::SmartVolMode.address() == Some((0x96u8, 0x06u8)),
        FeatureId::EqToggle.address() == Some((0x96u8, 0x09u8)),
        FeatureId::EqPreAmp.address() == Some((0x96u8, 0x0au8)),
        FeatureId::SurroundDistance.address() == Some((0x96u8, 0x17u8)),
        FeatureId::SbxMaster.address() is None,
        FeatureId::ScoutMode.address() is None,
        FeatureId::Output.address() is None,
        FeatureId::DacFilter.address() is None,
        FeatureId::SurroundDistance.label() == "SurroundDistance"@,
        FeatureId::SmartVolMode.label() == "SmartVolMode"@,
        FeatureId::EqToggle.label() == "EqToggle"@,
        FeatureId::EqPreAmp.label() == "EqPreAmp"@,
        FeatureId::SbxMaster.label() == "SbxMaster"@,
        FeatureId::ScoutMode.label() == "ScoutMode"@,
        FeatureId::Output.label() == "Output"@,
        FeatureId::DacFilter.label() == "DacFilter"@,
        FeatureId::SurroundDistance.position() == 2,
        FeatureId::SmartVolMode.position() == 7,
        FeatureId::EqToggle.position() == 12,
        FeatureId::EqPreAmp.position() == 13,
        FeatureId::SbxMaster.position() == 24,
        FeatureId::ScoutMode.position() == 25,
        FeatureId::Output.position() == 26,
        FeatureId::DacFilter.position() == 27,
{
    let u = unit();
    assert(0 * u == 0 && 1 * u == u);
    assert(FeatureId::DacFilter.accepts(value) <==> value.is_whole(0) || value.is_whole(1)
        || value.is_whole(2) || value.is_whole(3) || value.is_whole(4)) by {
        if FeatureId::DacFilter.accepts(value) {
            let k = choose|k: int| 0 <= k <= 4 && #[trigger] value.is_whole(k);
            assert(k == 0 || k == 1 || k == 2 || k == 3 || k == 4);
        }
    }
}

/// Validation names the feature that it looked at. What is not a number is refused as such,
/// and a number that is refused is handed back in the error.
pub proof fn law_refusals_name_their_cause(id: FeatureId, value: Value)
    ensures
        value.is_nan() <==> (id.verdict(value) matches Err(ValueError::NotANumber { .. })),
        match id.verdict(value) {
            Ok(()) => true,
            Err(ValueError::NotANumber { id: named }) => named == id,
            Err(ValueError::OutOfRange { id: named, value: refused }) => named == id && refused
                == value,
        },
{
}

/// The message of a refusal begins with the name of the feature, shows the value, and ends in
/// the range that the feature accepts.
pub proof fn law_refusals_tell_the_range(id: FeatureId, value: Value, shown: Seq<char>)
    ensures
        (ValueError::NotANumber { id }).message(shown) == id.label() + ": value is NaN"@,
        ({
            let message = (ValueError::OutOfRange { id, value }).message(shown);
            let start = id.label() + ": value "@ + shown + " out of range, expected "@;
            &&& id.position() == 13 ==> message == start + "[-6.0, 6.0] dB"@
            &&& 14 <= id.position() <= 23 ==> message == start + "[-12.0, 12.0] dB"@
            &&& id == FeatureId::SurroundDistance ==> message == start + "[10, 300] cm"@
            &&& id == FeatureId::SmartVolMode ==> message == start
                + "0 (Normal), 1 (Loud), or 2 (Night)"@
            &&& id == FeatureId::DacFilter ==> message == start + "0..=4 (filter index)"@
            &&& id == FeatureId::SurroundLevel || id == FeatureId::DialogPlusLevel || id
                == FeatureId::SmartVolLevel || id == FeatureId::CrystalizerLevel || id
                == FeatureId::BassLevel ==> message == start + "[0.0, 1.0]"@
            &&& id == FeatureId::SurroundToggle || id == FeatureId::DialogPlusToggle || id
                == FeatureId::SmartVolToggle || id == FeatureId::CrystalizerToggle || id
                == FeatureId::BassToggle || id == FeatureId::EqToggle || id == FeatureId::SbxMaster
                || id == FeatureId::ScoutMode || id == FeatureId::Output ==> message == start
                + "0 or 1"@
        }),
{
}

} // verus!
