//! What the sound server's tools print, and what it means.

use crate::arith::is_nearest;
use crate::arith::lemma_nearest_is;
use crate::arith::number;
use crate::arith::quotient;
use crate::display::volume_percent;
use crate::scale::hundredths;
use crate::scale::lemma_percent_again;
use crate::text::chars_of;
use crate::text::contains;
use crate::text::decimal;
use crate::text::digits_value;
use crate::text::ends_with;
use crate::text::find_char;
use crate::text::has_part;
use crate::text::has_prefix;
use crate::text::has_suffix;
use crate::text::law_decimal_is_read_back;
use crate::text::lemma_digits_value_prefix;
use crate::text::lines;
use crate::text::occurs_at;
use crate::text::parse_unsigned;
use crate::text::position_from;
use crate::text::slices;
use crate::text::split_lines;
use crate::text::starts_with;
use crate::text::trim;
use crate::text::trimmed;
use crate::text::unsigned_value;
use crate::value::lemma_units_increase;
use crate::value::magnitude_units;
use crate::value::unit;
use crate::value::Value;
use crate::value::HIDDEN;
use crate::value::INFINITE;
use vstd::arithmetic::power2::lemma_pow2_adds;
use vstd::arithmetic::power2::lemma_pow2_pos;
use vstd::prelude::*;
use vstd::string::*;

verus! {

/// The second of the fields that tabs divide a line into.
pub open spec fn second_field(line: Seq<char>) -> Option<Seq<char>> {
    let first = position_from(line, '\t', 0);
    if first >= line.len() {
        None
    } else {
        Some(line.subrange(first + 1, position_from(line, '\t', first + 1)))
    }
}

/// The second of the fields that tabs divide a line into.
fn field<'a>(line: &'a str) -> (name: Option<&'a str>)
    ensures
        match name {
            Some(n) => second_field(line@) == Some(n@),
            None => second_field(line@) is None,
        },
{
    let chars = chars_of(line);
    let first: usize = find_char(&chars, '\t', 0);
    if first == chars.len() {
        return None;
    }
    let second: usize = find_char(&chars, '\t', first + 1);
    Some(line.substring_char(first + 1, second))
}

/// Whether a node of the sound server belongs to the device.
pub open spec fn is_g6_node(name: Seq<char>, prefix: Seq<char>) -> bool {
    &&& has_prefix(name, prefix)
    &&& has_part(name, "Sound_BlasterX_G6"@)
    &&& has_suffix(name, "analog-stereo"@)
}

/// Whether a line lists a node of the device.
pub open spec fn lists_g6(line: Seq<char>, prefix: Seq<char>) -> bool {
    second_field(line) is Some && is_g6_node(second_field(line)->0, prefix)
}

/// Whether `name` is what the first of the lines lists that lists a node of the device.
pub open spec fn is_first_node(list: Seq<Seq<char>>, prefix: Seq<char>, name: Seq<char>) -> bool {
    exists|i: int|
        #![trigger list[i]]
        {
            &&& 0 <= i < list.len()
            &&& lists_g6(list[i], prefix)
            &&& second_field(list[i]) == Some(name)
            &&& forall|j: int| 0 <= j < i ==> !lists_g6(#[trigger] list[j], prefix)
        }
}

/// The first node of the device in a listing, among those with a prefix.
pub fn find_g6_node_in_listing(listing: &str, prefix: &str) -> (name: Option<String>)
    ensures
        match name {
            Some(n) => is_first_node(lines(listing@), prefix@, n@),
            None => forall|i: int|
                0 <= i < lines(listing@).len() ==> !lists_g6(#[trigger] lines(listing@)[i], prefix@),
        },
{
    let list = split_lines(listing);
    let ghost all = lines(listing@);
    let mut i: usize = 0;
    while i < list.len()
        invariant
            i <= list.len(),
            slices(list@) == all,
            all == lines(listing@),
            forall|j: int| 0 <= j < i ==> !lists_g6(#[trigger] all[j], prefix@),
        decreases list.len() - i,
    {
        assert(slices(list@)[i as int] == list@[i as int]@);
        if let Some(name) = field(list[i]) {
            if starts_with(name, prefix) && contains(name, "Sound_BlasterX_G6") && ends_with(
                name,
                "analog-stereo",
            ) {
                let found = name.to_owned();
                assert(lists_g6(all[i as int], prefix@) && second_field(all[i as int]) == Some(
                    found@,
                ));
                return Some(found);
            }
        }
        i += 1;
    }
    assert(slices(list@).len() == list@.len());
    None
}

/// The two directions of sound.
#[derive(Clone, Copy, Debug, PartialEq, Eq, Structural)]
pub enum Side {
    Sink,
    Source,
}

/// Which volume an event of the sound server may have changed.
pub fn volume_event(line: &str) -> (side: Option<Side>)
    ensures
        side == (if has_part(line@, " on sink #"@) {
            Some(Side::Sink)
        } else if has_part(line@, " on source #"@) {
            Some(Side::Source)
        } else {
            None
        }),
{
    if contains(line, " on sink #") {
        Some(Side::Sink)
    } else if contains(line, " on source #") {
        Some(Side::Source)
    } else {
        None
    }
}

/// The node whose volume is shown: the device's, or the default one where it has none.
pub fn volume_target(found: Option<String>, side: Side) -> (target: String)
    ensures
        target@ == match found {
            Some(name) => name@,
            None => match side {
                Side::Sink => "@DEFAULT_SINK@"@,
                Side::Source => "@DEFAULT_SOURCE@"@,
            },
        },
{
    match found {
        Some(name) => name,
        None => match side {
            Side::Sink => "@DEFAULT_SINK@".to_owned(),
            Side::Source => "@DEFAULT_SOURCE@".to_owned(),
        },
    }
}

/// Whether an event of the sound server may have changed the capture source.
pub fn is_capture_event(line: &str) -> (yes: bool)
    ensures
        yes == (has_prefix(line@, "Event "@) && (has_part(line@, "on card"@) || has_part(
            line@,
            "on source"@,
        ))),
{
    starts_with(line, "Event ") && (contains(line, "on card") || contains(line, "on source"))
}

/// Whether a character is one of the ten digits.
pub open spec fn is_digit(c: char) -> bool {
    '0' <= c <= '9'
}

/// Where the run of digits begins that ends before `end`.
pub open spec fn run_start(s: Seq<char>, end: int) -> int
    decreases end,
{
    if end <= 0 || !is_digit(s[end - 1]) {
        end
    } else {
        run_start(s, end - 1)
    }
}

/// Where the first sign of percent stands.
pub open spec fn percent_at(s: Seq<char>) -> int {
    position_from(s, '%', 0)
}

/// The volume that a text tells: the digits before its first sign of percent, in hundredths.
pub open spec fn volume_told(s: Seq<char>) -> Option<Value> {
    let end = percent_at(s);
    let start = run_start(s, end);
    if end >= s.len() || start == end {
        None
    } else {
        Some(quotient(number(digits_value(s.subrange(start, end))->0 as int), number(100)))
    }
}

proof fn lemma_run(s: Seq<char>, end: int)
    requires
        0 <= end <= s.len(),
    ensures
        0 <= run_start(s, end) <= end,
        digits_value(s.subrange(run_start(s, end), end)) is Some,
    decreases end,
{
    let start = run_start(s, end);
    if end > 0 && is_digit(s[end - 1]) {
        lemma_run(s, end - 1);
        assert(s.subrange(start, end).drop_last() =~= s.subrange(start, end - 1));
    }
}

/// A number of two to the 128th or more is too large for the format.
proof fn lemma_huge(n: int)
    requires
        n >= 0x1_0000_0000_0000_0000_0000_0000_0000_0000,
    ensures
        number(n) == (Value { bits: INFINITE }),
{
    let h = HIDDEN as int;
    let top = INFINITE as int;
    let t = unit();
    assert(top / h == 255 && top % h == 0);
    lemma_pow2_adds(64, 64);
    lemma_pow2_adds(128, 149);
    lemma_pow2_adds(23, 254);
    lemma_pow2_pos(149);
    vstd::arithmetic::power2::lemma2_to64();
    lemma_units_increase(top - 1, top);
    let w = magnitude_units(top);
    assert(w <= n * t) by (nonlinear_arith)
        requires
            w == 0x1_0000_0000_0000_0000_0000_0000_0000_0000 * t,
            n >= 0x1_0000_0000_0000_0000_0000_0000_0000_0000,
            t > 0,
    ;
    assert(is_nearest(top, n * t, 1));
    lemma_nearest_is(top, n * t, 1);
}

fn start_of_run(chars: &Vec<char>, end: usize) -> (start: usize)
    requires
        end <= chars@.len(),
    ensures
        start == run_start(chars@, end as int),
        start <= end,
        forall|i: int| start <= i < end ==> is_digit(#[trigger] chars@[i]),
{
    let mut start: usize = end;
    while start > 0 && '0' <= chars[start - 1] && chars[start - 1] <= '9'
        invariant
            start <= end <= chars@.len(),
            run_start(chars@, start as int) == run_start(chars@, end as int),
            forall|i: int| start <= i < end ==> is_digit(#[trigger] chars@[i]),
        decreases start,
    {
        start -= 1;
    }
    start
}

/// The number that a run of digits stands for.
fn number_of(chars: &Vec<char>, start: usize, end: usize) -> (v: Value)
    requires
        start <= end <= chars@.len(),
        forall|i: int| start <= i < end ==> is_digit(#[trigger] chars@[i]),
        digits_value(chars@.subrange(start as int, end as int)) is Some,
    ensures
        v == number(digits_value(chars@.subrange(start as int, end as int))->0 as int),
{
    let ghost digits = chars@.subrange(start as int, end as int);
    let mut n: u128 = 0;
    let mut i: usize = start;
    assert(digits.take(0) =~= Seq::<char>::empty());
    while i < end
        invariant
            start <= i <= end <= chars@.len(),
            forall|k: int| start <= k < end ==> is_digit(#[trigger] chars@[k]),
            digits == chars@.subrange(start as int, end as int),
            digits_value(digits) is Some,
            digits_value(digits.take(i - start)) == Some(n as nat),
        decreases end - i,
    {
        let c = chars[i];
        proof {
            let longer = digits.take(i - start + 1);
            assert(longer.drop_last() =~= digits.take(i - start));
            assert(longer.last() == c);
            lemma_digits_value_prefix(digits, i - start + 1);
        }
        let low: u128 = (c as u32 - 48) as u128;
        if n > 34028236692093846346337460743176821145 || (n
            == 34028236692093846346337460743176821145 && low > 5) {
            proof {
                lemma_huge(digits_value(digits)->0 as int);
            }
            return Value { bits: INFINITE };
        }
        n = 10 * n + low;
        i += 1;
    }
    assert(digits.take(i - start) =~= digits);
    Value::of_large(n)
}

/// The volume that a text tells.
pub fn parse_volume_percent(s: &str) -> (volume: Option<Value>)
    ensures
        volume == volume_told(s@),
{
    let chars = chars_of(s);
    let end: usize = find_char(&chars, '%', 0);
    if end == chars.len() {
        return None;
    }
    let start: usize = start_of_run(&chars, end);
    if start == end {
        return None;
    }
    proof {
        lemma_run(s@, end as int);
    }
    Some(number_of(&chars, start, end).over(Value::of_int(100)))
}

proof fn lemma_position(s: Seq<char>, c: char, from: int, at: int)
    requires
        0 <= from <= at < s.len(),
        forall|k: int| from <= k < at ==> #[trigger] s[k] != c,
        s[at] == c,
    ensures
        position_from(s, c, from) == at,
    decreases at - from,
{
    if from < at {
        lemma_position(s, c, from + 1, at);
    }
}

proof fn lemma_run_start(s: Seq<char>, start: int, end: int)
    requires
        0 <= start <= end <= s.len(),
        start == 0 || !is_digit(s[start - 1]),
        forall|k: int| start <= k < end ==> is_digit(#[trigger] s[k]),
    ensures
        run_start(s, end) == start,
    decreases end - start,
{
    if start < end {
        lemma_run_start(s, start, end - 1);
    }
}

/// A volume of whole percent that was asked of the sound server is found again in what the
/// server prints, and to ask for what was found asks for the same percent. The percent may
/// stand behind anything that holds no other one and does not end in a digit.
pub proof fn law_volume_is_read_back(n: int, before: Seq<char>, after: Seq<char>)
    requires
        0 <= n <= 150,
        !before.contains('%'),
        before.len() > 0 ==> !is_digit(before.last()),
    ensures
        volume_told(before + (decimal(n as nat) + "%"@) + after) == Some(
            hundredths(n),
        ),
        volume_percent(hundredths(n)) == n,
{
    reveal_strlit("%");
    let digits = decimal(n as nat);
    let s = before + (digits + "%"@) + after;
    let start = before.len() as int;
    let end = start + digits.len();
    law_decimal_is_read_back(n as nat);
    assert forall|k: int| 0 <= k < end implies #[trigger] s[k] != '%' by {
        if k < start {
            assert(s[k] == before[k]);
        } else {
            assert(s[k] == digits[k - start]);
        }
    }
    lemma_position(s, '%', 0, end);
    assert forall|k: int| start <= k < end implies is_digit(#[trigger] s[k]) by {
        assert(s[k] == digits[k - start]);
    }
    if start > 0 {
        assert(s[start - 1] == before.last());
    }
    lemma_run_start(s, start, end);
    assert(s.subrange(start, end) =~= digits);
    lemma_percent_again(n);
}

/// The name of the source that records what a sink plays.
pub open spec fn monitor_of(output: Seq<char>) -> Option<Seq<char>> {
    if trimmed(output).len() == 0 {
        None
    } else {
        Some(trimmed(output) + ".monitor"@)
    }
}

/// The name of the source that records what the default sink plays, from the name of the sink
/// as it is printed.
pub fn default_sink_monitor(output: &str) -> (name: Option<String>)
    ensures
        match name {
            Some(n) => monitor_of(output@) == Some(n@),
            None => monitor_of(output@) is None,
        },
{
    let core = trim(output);
    if core.unicode_len() == 0 {
        return None;
    }
    let mut name = core.to_owned();
    name.append(".monitor");
    Some(name)
}

/// The number of a module that was loaded, as it is printed.
pub fn loopback_module(output: &str) -> (id: Option<u32>)
    ensures
        id == unsigned_value(trimmed(output@)),
{
    parse_unsigned(trim(output))
}

/// The sound server lists a node in the second field of a line: a line that a number, a tab, a
/// name, a tab and more make up lists that name; a line without a tab lists none.
pub proof fn law_second_field_is_between_tabs(
    number: Seq<char>,
    name: Seq<char>,
    more: Seq<char>,
)
    requires
        !number.contains('\t'),
        !name.contains('\t'),
    ensures
        second_field(number + seq!['\t'] + name + seq!['\t'] + more) == Some(name),
        second_field(number) is None,
{
    let line = number + seq!['\t'] + name + seq!['\t'] + more;
    let (first, second) = (number.len() as int, (number.len() + 1 + name.len()) as int);
    assert forall|k: int| 0 <= k < first implies #[trigger] line[k] != '\t' by {
        assert(line[k] == number[k]);
    }
    assert forall|k: int| first + 1 <= k < second implies #[trigger] line[k] != '\t' by {
        assert(line[k] == name[k - first - 1]);
    }
    lemma_position(line, '\t', 0, first);
    lemma_position(line, '\t', first + 1, second);
    assert(line.subrange(first + 1, second) =~= name);
    lemma_nowhere(number, '\t', 0);
}

proof fn lemma_nowhere(s: Seq<char>, c: char, from: int)
    requires
        0 <= from <= s.len(),
        !s.contains(c),
    ensures
        position_from(s, c, from) == s.len(),
    decreases s.len() - from,
{
    if from < s.len() {
        assert(s[from] != c);
        lemma_nowhere(s, c, from + 1);
    }
}

/// A node belongs to the device where its name begins with the given prefix, tells the device
/// and ends in the analog stereo profile, whatever stands between; every node of the device has
/// all three.
pub proof fn law_nodes_of_the_device(prefix: Seq<char>, a: Seq<char>, b: Seq<char>, name: Seq<char>)
    ensures
        is_g6_node(prefix + a + "Sound_BlasterX_G6"@ + b + "analog-stereo"@, prefix),
        is_g6_node(name, prefix) ==> name.len() >= prefix.len() && name.take(prefix.len() as int)
            == prefix && has_part(name, "Sound_BlasterX_G6"@) && has_suffix(
            name,
            "analog-stereo"@,
        ),
{
    let (middle, tail) = ("Sound_BlasterX_G6"@, "analog-stereo"@);
    let whole = prefix + a + middle + b + tail;
    let at = (prefix + a).len() as int;
    assert(whole.subrange(0, prefix.len() as int) =~= prefix);
    assert(whole.subrange(at, at + middle.len()) =~= middle);
    assert(whole.subrange(whole.len() - tail.len(), whole.len() as int) =~= tail);
    assert(occurs_at(whole, prefix, 0));
    assert(occurs_at(whole, middle, at));
    assert(occurs_at(whole, tail, whole.len() - tail.len()));
    if is_g6_node(name, prefix) {
        assert(name.take(prefix.len() as int) =~= prefix);
    }
}

} // verus!
