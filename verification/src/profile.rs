//! Profiles: named sets of feature values, built in or saved by the user.

use crate::feature::FeatureId;
use crate::paths::join;
use crate::paths::joined;
use crate::paths::profile_dir;
use crate::paths::Locations;
use crate::paths::SLASH;
use crate::text::chars_of;
use crate::text::comes_before;
use crate::text::ends_with;
use crate::text::find_char;
use crate::text::has_suffix;
use crate::text::lemma_precedes_irreflexive;
use crate::text::lemma_precedes_total;
use crate::text::lemma_precedes_transitive;
use crate::text::occurs_at;
use crate::text::precedes;
use crate::text::same;
use crate::text::texts;
use crate::value::Value;
use vstd::prelude::*;
use vstd::utf8::encode_utf8;

verus! {

/// The value of one feature, as profiles store it and the device takes it.
#[derive(Clone, Copy, Debug, PartialEq, Eq, Structural)]
pub struct FeatureEntry {
    pub id: FeatureId,
    pub value: Value,
}

/// A snapshot of feature values.
pub struct Profile {
    pub features: Vec<FeatureEntry>,
}

/// The value of the first entry for `id`.
pub open spec fn first_value(entries: Seq<FeatureEntry>, id: FeatureId) -> Option<Value>
    decreases entries.len(),
{
    if entries.len() == 0 {
        None
    } else if entries[0].id == id {
        Some(entries[0].value)
    } else {
        first_value(entries.drop_first(), id)
    }
}

impl Profile {
    /// The value that this profile gives to `id`: that of the first entry for it.
    pub fn value_of(&self, id: FeatureId) -> (value: Option<Value>)
        ensures
            value == first_value(self.features@, id),
    {
        let mut i: usize = 0;
        assert(self.features@.skip(0) =~= self.features@);
        while i < self.features.len()
            invariant
                i <= self.features.len(),
                first_value(self.features@, id) == first_value(self.features@.skip(i as int), id),
            decreases self.features.len() - i,
        {
            if self.features[i].id == id {
                return Some(self.features[i].value);
            }
            assert(self.features@.skip(i as int).drop_first() =~= self.features@.skip(i + 1));
            i += 1;
        }
        None
    }
}

/// The three names that belong to the built-in profiles.
pub open spec fn is_reserved(name: Seq<char>) -> bool {
    name == "default"@ || name == "scout"@ || name == "sbx"@
}

/// The names of the built-in profiles.
pub fn builtins() -> (names: [&'static str; 3])
    ensures
        names@[0]@ == "default"@,
        names@[1]@ == "scout"@,
        names@[2]@ == "sbx"@,
{
    ["default", "scout", "sbx"]
}

/// Whether `name` belongs to a built-in profile. Such a profile can neither be saved nor
/// removed.
pub fn is_builtin(name: &str) -> (yes: bool)
    ensures
        yes == is_reserved(name@),
{
    same(name, "default") || same(name, "scout") || same(name, "sbx")
}

/// The texts of the built-in profiles.
#[derive(Clone, Copy)]
pub struct BuiltinTexts<'a> {
    pub default_json: &'a str,
    pub scout_json: &'a str,
    pub sbx_json: &'a str,
}

impl<'a> BuiltinTexts<'a> {
    /// The text of the built-in profile called `name`.
    pub open spec fn text_of(self, name: Seq<char>) -> Option<&'a str> {
        if name == "default"@ {
            Some(self.default_json)
        } else if name == "scout"@ {
            Some(self.scout_json)
        } else if name == "sbx"@ {
            Some(self.sbx_json)
        } else {
            None
        }
    }
}

/// The text of the built-in profile called `name`, or nothing for any other name.
pub fn builtin_profile_json<'a>(name: &str, baked: &BuiltinTexts<'a>) -> (json: Option<&'a str>)
    ensures
        json == baked.text_of(name@),
        json is Some <==> is_reserved(name@),
{
    if same(name, "default") {
        Some(baked.default_json)
    } else if same(name, "scout") {
        Some(baked.scout_json)
    } else if same(name, "sbx") {
        Some(baked.sbx_json)
    } else {
        None
    }
}

/// A profile name without the file extension that it may carry.
pub open spec fn stem_of(name: Seq<char>) -> Seq<char> {
    if has_suffix(name, ".json"@) {
        name.take(name.len() - 5)
    } else {
        name
    }
}

/// `name` without the file extension that it may carry.
pub fn profile_stem<'a>(name: &'a str) -> (stem: &'a str)
    ensures
        stem@ == stem_of(name@),
{
    proof {
        reveal_strlit(".json");
    }
    if ends_with(name, ".json") {
        let chars = chars_of(name);
        let stem = name.substring_char(0, chars.len() - 5);
        assert(stem@ =~= name@.take(name@.len() - 5));
        stem
    } else {
        name
    }
}

/// Whether a profile may be stored under the file name `stem`: it is not empty, does not
/// begin with a dot and holds no slash.
pub open spec fn is_simple(stem: Seq<char>) -> bool {
    &&& stem.len() > 0
    &&& stem[0] != '.'
    &&& forall|i: int| 0 <= i < stem.len() ==> #[trigger] stem[i] != '/'
}

fn simple(stem: &str) -> (yes: bool)
    ensures
        yes == is_simple(stem@),
{
    let chars = chars_of(stem);
    if chars.len() == 0 || chars[0] == '.' {
        return false;
    }
    let at = find_char(&chars, '/', 0);
    at == chars.len()
}

/// Why a profile has no path.
#[derive(Clone, Copy, Debug, PartialEq, Eq, Structural)]
pub enum ProfileError {
    /// The name cannot be a file name.
    InvalidName,
    /// The directory of the profiles is unknown.
    NoConfigDir,
}

/// The file of the profile called `name`.
pub open spec fn path_of(name: Seq<char>, places: Locations) -> Result<Seq<u8>, ProfileError> {
    if !is_simple(stem_of(name)) {
        Err(ProfileError::InvalidName)
    } else {
        match places.profiles() {
            Some(dir) => Ok(joined(dir, encode_utf8(stem_of(name) + ".json"@))),
            None => Err(ProfileError::NoConfigDir),
        }
    }
}

/// The file of the profile called `name`, which may carry the file extension. For a built-in
/// profile the file need not exist.
pub fn profile_path(name: &str, places: &Locations) -> (path: Result<Vec<u8>, ProfileError>)
    ensures
        match path {
            Ok(p) => path_of(name@, *places) == Ok::<Seq<u8>, ProfileError>(p@),
            Err(e) => path_of(name@, *places) == Err::<Seq<u8>, ProfileError>(e),
        },
{
    let stem = profile_stem(name);
    if !simple(stem) {
        return Err(ProfileError::InvalidName);
    }
    match profile_dir(places) {
        Ok(dir) => {
            let mut leaf = stem.to_owned();
            leaf.append(".json");
            Ok(join(&dir, leaf.as_str()))
        },
        Err(_) => Err(ProfileError::NoConfigDir),
    }
}

/// The message for a name that cannot be a file name.
pub fn invalid_name_text(name: &str) -> (text: String)
    ensures
        text@ == "invalid name '"@ + name@
            + "': must be a simple filename, no '/' or leading '.'"@,
{
    let mut text = "invalid name '".to_owned();
    text.append(name);
    text.append("': must be a simple filename, no '/' or leading '.'");
    text
}

/// The stem of `name`, if it belongs to a built-in profile and the profile can therefore
/// neither be saved nor removed.
pub fn reserved_stem<'a>(name: &'a str) -> (stem: Option<&'a str>)
    ensures
        match stem {
            Some(s) => s@ == stem_of(name@) && is_reserved(s@),
            None => !is_reserved(stem_of(name@)),
        },
{
    let stem = profile_stem(name);
    if is_builtin(stem) {
        Some(stem)
    } else {
        None
    }
}

/// The message for saving under the name of a built-in profile.
pub fn reserved_save_text(stem: &str) -> (text: String)
    ensures
        text@ == stem@ + " is a reserved built-in profile name -- pick a different name"@,
{
    let mut text = stem.to_owned();
    text.append(" is a reserved built-in profile name -- pick a different name");
    text
}

/// The message for removing a built-in profile.
pub fn reserved_remove_text(stem: &str) -> (text: String)
    ensures
        text@ == stem@ + " is a built-in profile and cannot be removed"@,
{
    let mut text = stem.to_owned();
    text.append(" is a built-in profile and cannot be removed");
    text
}

/// The mark in front of a name in the list of profiles.
pub fn listing_mark(name: &str) -> (mark: &'static str)
    ensures
        mark@ == (if is_reserved(name@) {
            "*"@
        } else {
            " "@
        }),
{
    if is_builtin(name) {
        "*"
    } else {
        " "
    }
}

/// The profile that a file holds, by the name of the file: what comes before the
/// extension `json`. A name that consists of the extension alone has none.
pub open spec fn stored_name(file: Seq<char>) -> Option<Seq<char>> {
    if has_suffix(file, ".json"@) && file.len() > 5 {
        Some(file.take(file.len() - 5))
    } else {
        None
    }
}

/// Whether a profile called `name` is available: it is built in or one of the files holds it.
pub open spec fn is_available(name: Seq<char>, files: Seq<Seq<char>>) -> bool {
    is_reserved(name) || exists|i: int|
        0 <= i < files.len() && #[trigger] stored_name(files[i]) == Some(name)
}

/// Whether names stand in alphabetical order, each once.
pub open spec fn is_sorted(names: Seq<Seq<char>>) -> bool {
    forall|i: int, j: int| 0 <= i < j < names.len() ==> #[trigger] precedes(names[i], names[j])
}

fn insert_name(names: &mut Vec<String>, name: &str)
    requires
        is_sorted(texts(old(names)@)),
    ensures
        is_sorted(texts(final(names)@)),
        forall|n: Seq<char>| #[trigger]
            texts(final(names)@).contains(n) <==> texts(old(names)@).contains(n) || n == name@,
{
    let ghost before = texts(names@);
    let mut at: usize = 0;
    while at < names.len() && comes_before(names[at].as_str(), name)
        invariant
            at <= names.len(),
            texts(names@) == before,
            is_sorted(before),
            forall|k: int| 0 <= k < at ==> precedes(#[trigger] before[k], name@),
        decreases names.len() - at,
    {
        assert(before[at as int] == names@[at as int]@);
        at += 1;
    }
    if at < names.len() && same(names[at].as_str(), name) {
        assert(before[at as int] == name@);
        return;
    }
    names.insert(at, name.to_owned());
    proof {
        let after = texts(names@);
        assert(after =~= before.insert(at as int, name@));
        assert forall|i: int, j: int| 0 <= i < j < after.len() implies #[trigger] precedes(
            after[i],
            after[j],
        ) by {
            if j < at {
                assert(precedes(before[i], before[j]));
            } else if j == at {
                assert(precedes(before[i], name@));
            } else if i < at {
                assert(precedes(before[i], before[j - 1]));
            } else {
                // Everything from `at` on comes after `name`.
                lemma_precedes_total(before[at as int], name@);
                if i == at {
                    if j - 1 > at {
                        assert(precedes(before[at as int], before[j - 1]));
                        lemma_precedes_transitive(name@, before[at as int], before[j - 1]);
                    }
                } else {
                    assert(precedes(before[i - 1], before[j - 1]));
                }
            }
        }
        assert forall|n: Seq<char>| #[trigger]
            after.contains(n) <==> before.contains(n) || n == name@ by {
            if before.contains(n) {
                let k = choose|k: int| 0 <= k < before.len() && before[k] == n;
                if k < at {
                    assert(after[k] == n);
                } else {
                    assert(after[k + 1] == n);
                }
            }
            if n == name@ {
                assert(after[at as int] == n);
            }
            if after.contains(n) {
                let k = choose|k: int| 0 <= k < after.len() && after[k] == n;
                if k < at {
                    assert(before[k] == n);
                } else if k > at {
                    assert(before[k - 1] == n);
                }
            }
        }
    }
}

/// The names of all available profiles, given the names of the files in the profile
/// directory: the built-in ones and those that a file holds, in alphabetical order, each once.
pub fn list_profile_names(files: &Vec<String>) -> (names: Vec<String>)
    ensures
        is_sorted(texts(names@)),
        forall|n: Seq<char>| #[trigger]
            texts(names@).contains(n) <==> is_available(n, texts(files@)),
{
    let mut names: Vec<String> = Vec::new();
    assert(is_sorted(texts(names@)));
    insert_name(&mut names, "default");
    insert_name(&mut names, "scout");
    insert_name(&mut names, "sbx");
    proof {
        reveal_strlit(".json");
    }
    let mut i: usize = 0;
    while i < files.len()
        invariant
            i <= files.len(),
            ".json"@.len() == 5,
            is_sorted(texts(names@)),
            forall|n: Seq<char>| #[trigger]
                texts(names@).contains(n) <==> is_available(n, texts(files@).take(i as int)),
        decreases files.len() - i,
    {
        let file = files[i].as_str();
        let ghost seen = texts(files@).take(i as int);
        let ghost more = texts(files@).take(i + 1);
        assert(more =~= seen.push(file@));
        let chars = chars_of(file);
        if chars.len() > 5 && ends_with(file, ".json") {
            let stem = file.substring_char(0, chars.len() - 5);
            assert(stem@ =~= file@.take(file@.len() - 5));
            insert_name(&mut names, stem);
        }
        proof {
            assert forall|n: Seq<char>| #[trigger]
                texts(names@).contains(n) <==> is_available(n, more) by {
                assert(is_available(n, more) <==> is_available(n, seen) || stored_name(file@)
                    == Some(n)) by {
                    assert(more[i as int] == file@);
                    if is_available(n, seen) && !is_reserved(n) {
                        let k = choose|k: int|
                            0 <= k < seen.len() && #[trigger] stored_name(seen[k]) == Some(n);
                        assert(more[k] == seen[k]);
                    }
                    if is_available(n, more) && !is_reserved(n) {
                        let k = choose|k: int|
                            0 <= k < more.len() && #[trigger] stored_name(more[k]) == Some(n);
                        if k < i {
                            assert(seen[k] == more[k]);
                        }
                    }
                }
            }
        }
        i += 1;
    }
    assert(texts(files@).take(i as int) =~= texts(files@));
    names
}

proof fn lemma_scalar_bytes(c: u32)
    by (bit_vector)
    ensures
        c <= 0x7f ==> (c & 0x7f) as u8 == c,
        (0xC0u8 | ((c >> 6) & 0x1F) as u8) >= 0x80,
        (0xE0u8 | ((c >> 12) & 0x0F) as u8) >= 0x80,
        (0xF0u8 | ((c >> 18) & 0x7) as u8) >= 0x80,
        (0x80u8 | (c & 0x3F) as u8) >= 0x80,
        (0x80u8 | ((c >> 6) & 0x3F) as u8) >= 0x80,
        (0x80u8 | ((c >> 12) & 0x3F) as u8) >= 0x80,
{
}

proof fn lemma_no_slash_bytes(s: Seq<char>)
    requires
        forall|i: int| 0 <= i < s.len() ==> #[trigger] s[i] != '/',
    ensures
        forall|k: int| 0 <= k < encode_utf8(s).len() ==> #[trigger] encode_utf8(s)[k] != SLASH,
    decreases s.len(),
{
    if s.len() > 0 {
        let rest = s.drop_first();
        assert forall|i: int| 0 <= i < rest.len() implies #[trigger] rest[i] != '/' by {
            assert(rest[i] == s[i + 1]);
        }
        lemma_no_slash_bytes(rest);
        let c = s[0] as u32;
        vstd::utf8::char_is_scalar(s[0]);
        vstd::utf8::char_u32_cast(s[0], c);
        vstd::utf8::char_u32_cast('/', 0x2f);
        lemma_scalar_bytes(c);
        let head = vstd::utf8::encode_scalar(c);
        assert(forall|k: int| 0 <= k < head.len() ==> #[trigger] head[k] != SLASH);
        assert forall|k: int| 0 <= k < encode_utf8(s).len() implies #[trigger] encode_utf8(s)[k]
            != SLASH by {
            if k >= head.len() {
                assert(encode_utf8(s)[k] == encode_utf8(rest)[k - head.len()]);
            } else {
                assert(encode_utf8(s)[k] == head[k]);
            }
        }
    }
}

/// The file of a profile lies directly in the profile directory: its path is that directory
/// and one file name, which holds no slash.
pub proof fn law_profile_stays_in_directory(name: Seq<char>, places: Locations)
    requires
        path_of(name, places) is Ok,
    ensures
        path_of(name, places)->Ok_0 == joined(
            places.profiles()->0,
            encode_utf8(stem_of(name) + ".json"@),
        ),
        forall|k: int|
            0 <= k < encode_utf8(stem_of(name) + ".json"@).len() ==> #[trigger] encode_utf8(
                stem_of(name) + ".json"@,
            )[k] != SLASH,
{
    reveal_strlit(".json");
    lemma_no_slash_bytes(stem_of(name) + ".json"@);
}

/// A name with the file extension and the same name without it mean the same profile.
pub proof fn law_extension_is_optional(name: Seq<char>, places: Locations)
    requires
        !has_suffix(name, ".json"@),
    ensures
        stem_of(name + ".json"@) == stem_of(name),
        path_of(name + ".json"@, places) == path_of(name, places),
        is_reserved(stem_of(name + ".json"@)) == is_reserved(name),
{
    reveal_strlit(".json");
    let long = name + ".json"@;
    assert(long.subrange(name.len() as int, (name.len() + 5) as int) =~= ".json"@);
    assert(long.take(long.len() - 5) =~= name);
}

/// The built-in names are always among the available ones, and a file that shares the name
/// of a built-in profile adds no second entry.
pub proof fn law_builtins_are_listed_once(names: Seq<Seq<char>>, files: Seq<Seq<char>>)
    requires
        is_sorted(names),
        forall|n: Seq<char>| #[trigger] names.contains(n) <==> is_available(n, files),
    ensures
        names.contains("default"@),
        names.contains("scout"@),
        names.contains("sbx"@),
        names.no_duplicates(),
{
    assert(is_available("default"@, files));
    assert(is_available("scout"@, files));
    assert(is_available("sbx"@, files));
    assert forall|i: int, j: int| 0 <= i < names.len() && 0 <= j < names.len() && i != j implies
        names[i] != names[j] by {
        if i < j {
            assert(precedes(names[i], names[j]));
        } else {
            assert(precedes(names[j], names[i]));
        }
        lemma_precedes_irreflexive(names[i]);
    }
}

/// A name is refused exactly where what is left without the extension is empty, begins with a
/// dot or holds a slash; any other name has a path wherever the directory is known.
pub proof fn law_which_names_are_refused(stem: Seq<char>, places: Locations)
    ensures
        path_of(stem + ".json"@, places) == Err::<Seq<u8>, ProfileError>(ProfileError::InvalidName)
            <==> (stem.len() == 0 || stem[0] == '.' || stem.contains('/')),
        path_of(stem + ".json"@, places) == Err::<Seq<u8>, ProfileError>(ProfileError::NoConfigDir)
            <==> (stem.len() > 0 && stem[0] != '.' && !stem.contains('/') && places.config_home
            is None && places.home is None),
{
    reveal_strlit(".json");
    let name = stem + ".json"@;
    assert(name.take(name.len() - 5) =~= stem);
    assert(name.subrange(name.len() - 5, name.len() as int) =~= ".json"@);
    assert(occurs_at(name, ".json"@, name.len() - 5));
    if !stem.contains('/') {
        assert forall|i: int| 0 <= i < stem.len() implies #[trigger] stem[i] != '/' by {}
    } else {
        let i = choose|i: int| 0 <= i < stem.len() && stem[i] == '/';
        assert(stem[i] == '/');
    }
}

/// A file lists as a profile exactly where its name is a name before the extension, and then
/// under that name.
pub proof fn law_stored_profile_is_listed(file: Seq<char>, stem: Seq<char>)
    ensures
        stored_name(file) == Some(stem) <==> stem.len() > 0 && file == stem + ".json"@,
{
    reveal_strlit(".json");
    if stem.len() > 0 && file == stem + ".json"@ {
        assert(file.take(file.len() - 5) =~= stem);
        assert(file.subrange(file.len() - 5, file.len() as int) =~= ".json"@);
        assert(occurs_at(file, ".json"@, file.len() - 5));
    }
    if stored_name(file) == Some(stem) {
        assert(file =~= stem + ".json"@);
    }
}

} // verus!
