//! The known value of each feature.

use crate::feature::all_features;
use crate::feature::FeatureId;
use crate::profile::FeatureEntry;
use crate::profile::Profile;
use crate::value::Value;
use vstd::prelude::*;

verus! {

/// A value for each of some features.
pub struct FeatureTable {
    slots: Vec<Option<Value>>,
}

/// How many of the first `n` features have a value.
pub open spec fn known_among(values: Map<FeatureId, Value>, n: int) -> nat
    decreases n,
{
    if n <= 0 {
        0
    } else {
        known_among(values, n - 1) + if values.contains_key(all_features()[n - 1]) {
            1nat
        } else {
            0nat
        }
    }
}

impl View for FeatureTable {
    type V = Map<FeatureId, Value>;

    closed spec fn view(&self) -> Map<FeatureId, Value> {
        Map::new(
            |id: FeatureId| self.slots@[id.position()] is Some,
            |id: FeatureId| self.slots@[id.position()]->0,
        )
    }
}

impl FeatureTable {
    /// Whether there is one slot for each feature.
    #[verifier::type_invariant]
    closed spec fn complete(self) -> bool {
        self.slots@.len() == 28
    }

    /// A table in which no feature has a value.
    pub fn new() -> (table: FeatureTable)
        ensures
            table@ == Map::<FeatureId, Value>::empty(),
    {
        let mut slots: Vec<Option<Value>> = Vec::new();
        let mut i: usize = 0;
        while i < 28
            invariant
                i <= 28,
                slots@.len() == i,
                forall|k: int| 0 <= k < i ==> slots@[k] is None,
            decreases 28 - i,
        {
            slots.push(None);
            i += 1;
        }
        let table = FeatureTable { slots };
        assert(table@ =~= Map::<FeatureId, Value>::empty());
        table
    }

    /// The value of `id`.
    pub fn get(&self, id: FeatureId) -> (value: Option<Value>)
        ensures
            value == (if self@.contains_key(id) {
                Some(self@[id])
            } else {
                None
            }),
    {
        proof {
            use_type_invariant(self);
        }
        self.slots[id.index()]
    }

    /// Sets the value of `id`.
    pub fn insert(&mut self, id: FeatureId, value: Value)
        ensures
            final(self)@ == old(self)@.insert(id, value),
    {
        proof {
            use_type_invariant(&*self);
        }
        let mut slots: Vec<Option<Value>> = Vec::new();
        let ghost before = self.slots@;
        let at = id.index();
        let mut i: usize = 0;
        while i < 28
            invariant
                i <= 28,
                self.slots@ == before,
                before.len() == 28,
                slots@.len() == i,
                forall|k: int|
                    0 <= k < i ==> #[trigger] slots@[k] == (if k == at {
                        Some(value)
                    } else {
                        before[k]
                    }),
            decreases 28 - i,
        {
            if i == at {
                slots.push(Some(value));
            } else {
                slots.push(self.slots[i]);
            }
            i += 1;
        }
        self.slots = slots;
        assert forall|other: FeatureId| #[trigger] other.position() == at implies other == id by {
            assert(all_features()[other.position()] == other);
        }
        assert(self@ =~= old(self)@.insert(id, value));
    }

    /// How many features have a value.
    pub fn len(&self) -> (n: usize)
        ensures
            n == known_among(self@, 28),
    {
        proof {
            use_type_invariant(self);
        }
        let mut n: usize = 0;
        let mut i: usize = 0;
        while i < 28
            invariant
                i <= 28,
                self.slots@.len() == 28,
                n == known_among(self@, i as int),
                n <= i,
            decreases 28 - i,
        {
            proof {
                let id = all_features()[i as int];
                assert(id.position() == i);
            }
            if self.slots[i].is_some() {
                n += 1;
            }
            i += 1;
        }
        n
    }

    /// The value of `id`, or zero where it has none.
    pub fn value_or_zero(&self, id: FeatureId) -> (value: Value)
        ensures
            value == shown_value(self@, id),
    {
        match self.get(id) {
            Some(value) => value,
            None => Value { bits: 0 },
        }
    }

    /// A copy of this table.
    pub fn copy(&self) -> (table: FeatureTable)
        ensures
            table@ == self@,
    {
        proof {
            use_type_invariant(self);
        }
        let mut slots: Vec<Option<Value>> = Vec::new();
        let mut i: usize = 0;
        while i < 28
            invariant
                i <= 28,
                self.slots@.len() == 28,
                slots@ == self.slots@.take(i as int),
            decreases 28 - i,
        {
            slots.push(self.slots[i]);
            i += 1;
        }
        assert(slots@ =~= self.slots@);
        let table = FeatureTable { slots };
        assert(table@ =~= self@);
        table
    }
}

/// The value that is shown for `id`: zero where none is known.
pub open spec fn shown_value(values: Map<FeatureId, Value>, id: FeatureId) -> Value {
    if values.contains_key(id) {
        values[id]
    } else {
        Value { bits: 0 }
    }
}

/// Whether a feature is known to have the number `value`.
pub open spec fn has_number(values: Map<FeatureId, Value>, id: FeatureId, value: Value) -> bool {
    values.contains_key(id) && values[id].equals(value)
}

impl FeatureTable {
    /// Whether `id` is known to have the number `value`.
    pub fn holds(&self, id: FeatureId, value: Value) -> (yes: bool)
        ensures
            yes == has_number(self@, id, value),
    {
        match self.get(id) {
            Some(known) => known.same_number(value),
            None => false,
        }
    }
}

/// Whether a profile has an entry for `id`.
pub open spec fn lists(entries: Seq<FeatureEntry>, id: FeatureId) -> bool {
    exists|i: int| 0 <= i < entries.len() && (#[trigger] entries[i]).id == id
}

/// Whether a profile says what the table shows: every entry of the profile is what the table
/// shows, and the profile has an entry for every feature that the table knows.
pub open spec fn matches_table(values: Map<FeatureId, Value>, entries: Seq<FeatureEntry>) -> bool {
    &&& forall|i: int|
        0 <= i < entries.len() ==> has_number(
            values,
            (#[trigger] entries[i]).id,
            entries[i].value,
        )
    &&& forall|id: FeatureId| #[trigger] values.contains_key(id) ==> lists(entries, id)
}

fn has_entry(entries: &Vec<FeatureEntry>, id: FeatureId) -> (yes: bool)
    ensures
        yes == lists(entries@, id),
{
    let mut i: usize = 0;
    while i < entries.len()
        invariant
            i <= entries.len(),
            forall|k: int| 0 <= k < i ==> (#[trigger] entries@[k]).id != id,
        decreases entries.len() - i,
    {
        if entries[i].id == id {
            assert(entries@[i as int].id == id);
            return true;
        }
        i += 1;
    }
    false
}

impl FeatureTable {
    /// Whether `profile` says what this table shows.
    pub fn agrees_with(&self, profile: &Profile) -> (yes: bool)
        ensures
            yes == matches_table(self@, profile.features@),
    {
        let mut i: usize = 0;
        while i < profile.features.len()
            invariant
                i <= profile.features.len(),
                forall|k: int|
                    0 <= k < i ==> has_number(
                        self@,
                        (#[trigger] profile.features@[k]).id,
                        profile.features@[k].value,
                    ),
            decreases profile.features.len() - i,
        {
            let entry = profile.features[i];
            if !self.holds(entry.id, entry.value) {
                return false;
            }
            i += 1;
        }
        let all = FeatureId::all();
        let mut n: usize = 0;
        while n < 28
            invariant
                n <= 28,
                all@ == all_features(),
                forall|k: int|
                    0 <= k < n && self@.contains_key(#[trigger] all_features()[k]) ==> lists(
                        profile.features@,
                        all_features()[k],
                    ),
            decreases 28 - n,
        {
            let id = all[n];
            if self.get(id).is_some() && !has_entry(&profile.features, id) {
                return false;
            }
            n += 1;
        }
        assert forall|id: FeatureId| #[trigger] self@.contains_key(id) implies lists(
            profile.features@,
            id,
        ) by {
            assert(all_features()[id.position()] == id);
        }
        true
    }
}

/// Whether the candidate at `i` could be read and says what the values are.
pub open spec fn is_hit(
    candidates: Seq<Option<Profile>>,
    values: Map<FeatureId, Value>,
    i: int,
) -> bool {
    candidates[i] matches Some(profile) && matches_table(values, profile.features@)
}

/// The name of the one profile that says every value that was read from the device, and no
/// other. `candidates` holds, for each name, the profile if it could be read. Two profiles that
/// do leave it open which one is active, so there is no answer then.
pub fn find_unique_matching_profile(
    names: &Vec<String>,
    candidates: &Vec<Option<Profile>>,
    values: &FeatureTable,
) -> (name: Option<String>)
    requires
        names.len() == candidates.len(),
    ensures
        match name {
            Some(n) => exists|i: int|
                0 <= i < names.len() && #[trigger] is_hit(candidates@, values@, i) && n@
                    == names@[i]@ && forall|j: int|
                    0 <= j < names.len() && #[trigger] is_hit(candidates@, values@, j) ==> j == i,
            None => (forall|i: int|
                0 <= i < names.len() ==> !#[trigger] is_hit(candidates@, values@, i)) || (exists|
                i: int,
                j: int,
            |
                0 <= i < j < names.len() && #[trigger] is_hit(candidates@, values@, i)
                    && #[trigger] is_hit(candidates@, values@, j)),
        },
{
    let mut hit: Option<usize> = None;
    let mut i: usize = 0;
    while i < names.len()
        invariant
            i <= names.len(),
            names.len() == candidates.len(),
            match hit {
                Some(h) => h < i && is_hit(candidates@, values@, h as int) && forall|j: int|
                    0 <= j < i && #[trigger] is_hit(candidates@, values@, j) ==> j == h,
                None => forall|j: int|
                    0 <= j < i ==> !#[trigger] is_hit(candidates@, values@, j),
            },
        decreases names.len() - i,
    {
        let agrees = match &candidates[i] {
            Some(profile) => values.agrees_with(profile),
            None => false,
        };
        assert(agrees == is_hit(candidates@, values@, i as int));
        if agrees {
            if hit.is_some() {
                return None;
            }
            hit = Some(i);
        }
        i += 1;
    }
    match hit {
        Some(h) => {
            assert(is_hit(candidates@, values@, h as int));
            Some(names[h].clone())
        },
        None => None,
    }
}

/// Every feature, in the order of all features, with the value that is shown for it.
pub open spec fn shown_entries(values: Map<FeatureId, Value>) -> Seq<FeatureEntry> {
    Seq::new(
        28,
        |i: int|
            FeatureEntry {
                id: all_features()[i],
                value: shown_value(values, all_features()[i]),
            },
    )
}

/// The profile that lists every feature with the value that is shown for it.
pub fn shown_profile(values: &FeatureTable) -> (profile: Profile)
    ensures
        profile.features@ == shown_entries(values@),
{
    let all = FeatureId::all();
    let mut features: Vec<FeatureEntry> = Vec::new();
    let mut i: usize = 0;
    while i < 28
        invariant
            i <= 28,
            all@ == all_features(),
            features@.len() == i,
            forall|k: int|
                0 <= k < i ==> #[trigger] features@[k] == shown_entries(values@)[k],
        decreases 28 - i,
    {
        features.push(FeatureEntry { id: all[i], value: values.value_or_zero(all[i]) });
        i += 1;
    }
    assert(features@ =~= shown_entries(values@));
    Profile { features }
}

proof fn lemma_known_after(values: Map<FeatureId, Value>, id: FeatureId, value: Value, n: int)
    requires
        0 <= n <= 28,
    ensures
        known_among(values.insert(id, value), n) == known_among(values, n) + (if id.position() < n
            && !values.contains_key(id) {
            1nat
        } else {
            0nat
        }),
        known_among(Map::<FeatureId, Value>::empty(), n) == 0,
    decreases n,
{
    if n > 0 {
        lemma_known_after(values, id, value, n - 1);
        assert(all_features()[n - 1].position() == n - 1);
        assert(all_features()[id.position()] == id);
    }
}

/// A table counts the features that it knows: none at first, one more for each that is new, and
/// no more for one that it knows already.
pub proof fn law_each_feature_counts_once(
    values: Map<FeatureId, Value>,
    id: FeatureId,
    value: Value,
)
    ensures
        known_among(Map::<FeatureId, Value>::empty(), 28) == 0,
        values.contains_key(id) ==> known_among(values.insert(id, value), 28) == known_among(
            values,
            28,
        ),
        !values.contains_key(id) ==> known_among(values.insert(id, value), 28) == known_among(
            values,
            28,
        ) + 1,
{
    lemma_known_after(values, id, value, 28);
}

/// A profile that matches says of every known feature its very number, and nothing of any other
/// feature; one that says nothing matches only where nothing is known.
pub proof fn law_match_says_every_value(
    values: Map<FeatureId, Value>,
    entries: Seq<FeatureEntry>,
    id: FeatureId,
)
    requires
        matches_table(values, entries),
    ensures
        values.contains_key(id) <==> exists|i: int|
            0 <= i < entries.len() && (#[trigger] entries[i]).id == id,
        forall|i: int|
            0 <= i < entries.len() && (#[trigger] entries[i]).id == id
                ==> !entries[i].value.is_nan() && values[id].scaled() == entries[i].value.scaled(),
        entries.len() == 0 ==> !values.contains_key(id),
{
    if values.contains_key(id) {
        assert(lists(entries, id));
    }
}

/// What is shown of a feature is what is known of it, and zero where nothing is.
pub proof fn law_unknown_features_show_zero(
    values: Map<FeatureId, Value>,
    id: FeatureId,
    value: Value,
)
    ensures
        shown_value(values.insert(id, value), id) == value,
        shown_value(values.remove(id), id).bits == 0,
        shown_entries(values).len() == 28,
        shown_entries(values)[id.position()] == (FeatureEntry {
            id,
            value: shown_value(values, id),
        }),
{
    assert(all_features()[id.position()] == id);
}

} // verus!
