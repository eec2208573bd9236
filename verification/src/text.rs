//! Text primitives over the characters of a string.

use vstd::prelude::*;

verus! {

/// The characters of `s`, in order.
pub fn chars_of(s: &str) -> (chars: Vec<char>)
    ensures
        chars@ == s@,
{
    let mut chars: Vec<char> = Vec::new();
    for c in it: s.chars()
        invariant
            it.seq() == s@,
            chars@ == s@.take(it.index() as int),
    {
        chars.push(c);
    }
    assert(s@.take(s@.len() as int) =~= s@);
    chars
}

/// Whether two strings hold the same characters.
pub fn same(a: &str, b: &str) -> (equal: bool)
    ensures
        equal == (a@ == b@),
{
    let left = chars_of(a);
    let right = chars_of(b);
    if left.len() != right.len() {
        return false;
    }
    let mut i: usize = 0;
    while i < left.len()
        invariant
            i <= left.len(),
            left@ == a@,
            right@ == b@,
            left.len() == right.len(),
            forall|k: int| 0 <= k < i ==> left@[k] == right@[k],
        decreases left.len() - i,
    {
        if left[i] != right[i] {
            return false;
        }
        i += 1;
    }
    assert(a@ =~= b@);
    true
}

/// Whether `part` stands in `whole` from position `at` on.
pub open spec fn occurs_at(whole: Seq<char>, part: Seq<char>, at: int) -> bool {
    &&& 0 <= at
    &&& at + part.len() <= whole.len()
    &&& whole.subrange(at, at + part.len()) == part
}

/// Whether `whole` begins with `part`.
pub open spec fn has_prefix(whole: Seq<char>, part: Seq<char>) -> bool {
    occurs_at(whole, part, 0)
}

/// Whether `whole` ends with `part`.
pub open spec fn has_suffix(whole: Seq<char>, part: Seq<char>) -> bool {
    occurs_at(whole, part, whole.len() - part.len())
}

/// Whether `part` stands anywhere in `whole`.
pub open spec fn has_part(whole: Seq<char>, part: Seq<char>) -> bool {
    exists|at: int| #[trigger] occurs_at(whole, part, at)
}

fn found_at(whole: &Vec<char>, part: &Vec<char>, at: usize) -> (found: bool)
    requires
        at + part.len() <= whole.len(),
    ensures
        found == occurs_at(whole@, part@, at as int),
{
    let mut i: usize = 0;
    while i < part.len()
        invariant
            i <= part.len(),
            at + part.len() <= whole.len(),
            forall|k: int| 0 <= k < i ==> whole@[at + k] == part@[k],
        decreases part.len() - i,
    {
        if whole[at + i] != part[i] {
            assert(whole@.subrange(at as int, at + part@.len())[i as int] == whole@[at + i]);
            return false;
        }
        i += 1;
    }
    assert(whole@.subrange(at as int, at + part@.len()) =~= part@);
    true
}

/// Whether `whole` begins with `part`.
pub fn starts_with(whole: &str, part: &str) -> (found: bool)
    ensures
        found == has_prefix(whole@, part@),
{
    let w = chars_of(whole);
    let p = chars_of(part);
    p.len() <= w.len() && found_at(&w, &p, 0)
}

/// Whether `whole` ends with `part`.
pub fn ends_with(whole: &str, part: &str) -> (found: bool)
    ensures
        found == has_suffix(whole@, part@),
{
    let w = chars_of(whole);
    let p = chars_of(part);
    p.len() <= w.len() && found_at(&w, &p, w.len() - p.len())
}

/// Whether `part` stands anywhere in `whole`.
pub fn contains(whole: &str, part: &str) -> (found: bool)
    ensures
        found == has_part(whole@, part@),
{
    let w = chars_of(whole);
    let p = chars_of(part);
    if p.len() > w.len() {
        return false;
    }
    let last: usize = w.len() - p.len();
    let mut at: usize = 0;
    while at <= last
        invariant
            w@ == whole@,
            p@ == part@,
            last == w.len() - p.len(),
            at <= last + 1,
            forall|k: int| 0 <= k < at ==> !occurs_at(w@, p@, k),
        decreases last + 1 - at,
    {
        if found_at(&w, &p, at) {
            return true;
        }
        if at == last {
            assert forall|k: int| !occurs_at(whole@, part@, k) by {
                if 0 <= k <= last {
                    assert(!occurs_at(w@, p@, k));
                }
            }
            return false;
        }
        at += 1;
    }
    false
}

/// Whether `c` has the Unicode property White_Space.
pub open spec fn is_white(c: char) -> bool {
    ||| '\u{9}' <= c <= '\u{d}'
    ||| c == '\u{20}'
    ||| c == '\u{85}'
    ||| c == '\u{a0}'
    ||| c == '\u{1680}'
    ||| '\u{2000}' <= c <= '\u{200a}'
    ||| c == '\u{2028}'
    ||| c == '\u{2029}'
    ||| c == '\u{202f}'
    ||| c == '\u{205f}'
    ||| c == '\u{3000}'
}

fn white(c: char) -> (yes: bool)
    ensures
        yes == is_white(c),
{
    ('\u{9}' <= c && c <= '\u{d}') || c == '\u{20}' || c == '\u{85}' || c == '\u{a0}' || c
        == '\u{1680}' || ('\u{2000}' <= c && c <= '\u{200a}') || c == '\u{2028}' || c
        == '\u{2029}' || c == '\u{202f}' || c == '\u{205f}' || c == '\u{3000}'
}

/// `s` without the white space that it begins with.
pub open spec fn without_leading_white(s: Seq<char>) -> Seq<char>
    decreases s.len(),
{
    if s.len() > 0 && is_white(s.first()) {
        without_leading_white(s.drop_first())
    } else {
        s
    }
}

/// `s` without the white space that it ends with.
pub open spec fn without_trailing_white(s: Seq<char>) -> Seq<char>
    decreases s.len(),
{
    if s.len() > 0 && is_white(s.last()) {
        without_trailing_white(s.drop_last())
    } else {
        s
    }
}

/// `s` without the white space at both its ends.
pub open spec fn trimmed(s: Seq<char>) -> Seq<char> {
    without_trailing_white(without_leading_white(s))
}

/// `s` without the white space at both its ends.
pub fn trim(s: &str) -> (core: &str)
    ensures
        core@ == trimmed(s@),
{
    let chars = chars_of(s);
    let mut from: usize = 0;
    assert(s@.subrange(0, s@.len() as int) =~= s@);
    while from < chars.len() && white(chars[from])
        invariant
            chars@ == s@,
            from <= chars.len(),
            without_leading_white(s@) == without_leading_white(
                s@.subrange(from as int, s@.len() as int),
            ),
        decreases chars.len() - from,
    {
        assert(s@.subrange(from as int, s@.len() as int).drop_first() =~= s@.subrange(
            from + 1,
            s@.len() as int,
        ));
        from += 1;
    }
    let ghost rest = s@.subrange(from as int, s@.len() as int);
    assert(without_leading_white(s@) == rest);
    let mut to: usize = chars.len();
    assert(rest.take(to - from) =~= rest);
    while from < to && white(chars[to - 1])
        invariant
            chars@ == s@,
            from <= to <= chars.len(),
            rest == s@.subrange(from as int, s@.len() as int),
            without_trailing_white(rest) == without_trailing_white(rest.take(to - from)),
        decreases to - from,
    {
        assert(rest.take(to - from).drop_last() =~= rest.take(to - from - 1));
        to -= 1;
    }
    assert(rest.take(to - from) =~= s@.subrange(from as int, to as int));
    s.substring_char(from, to)
}

/// Where `c` first stands in `s` from position `from` on, or the end of `s`.
pub open spec fn position_from(s: Seq<char>, c: char, from: int) -> int
    decreases s.len() - from,
{
    if from >= s.len() || s[from] == c {
        from
    } else {
        position_from(s, c, from + 1)
    }
}

/// Where `c` first stands in `s` from position `from` on, or the end of `s`.
pub fn find_char(s: &Vec<char>, c: char, from: usize) -> (at: usize)
    requires
        from <= s.len(),
    ensures
        at == position_from(s@, c, from as int),
        from <= at <= s.len(),
        at < s.len() ==> s@[at as int] == c,
        forall|k: int| from <= k < at ==> s@[k] != c,
{
    let mut at: usize = from;
    while at < s.len() && s[at] != c
        invariant
            from <= at <= s.len(),
            position_from(s@, c, from as int) == position_from(s@, c, at as int),
            forall|k: int| from <= k < at ==> s@[k] != c,
        decreases s.len() - at,
    {
        at += 1;
    }
    at
}

/// The decimal digit of `d`.
pub open spec fn digit(d: nat) -> char {
    ((d % 10) + 48) as char
}

/// `n` in decimal, without leading zeros.
pub open spec fn decimal(n: nat) -> Seq<char>
    decreases n,
{
    if n < 10 {
        seq![digit(n)]
    } else {
        decimal(n / 10).push(digit(n % 10))
    }
}

fn digit_text(d: u32) -> (text: &'static str)
    requires
        d < 10,
    ensures
        text@ == seq![digit(d as nat)],
{
    proof {
        reveal_strlit("0");
        reveal_strlit("1");
        reveal_strlit("2");
        reveal_strlit("3");
        reveal_strlit("4");
        reveal_strlit("5");
        reveal_strlit("6");
        reveal_strlit("7");
        reveal_strlit("8");
        reveal_strlit("9");
    }
    let text = match d {
        0 => "0",
        1 => "1",
        2 => "2",
        3 => "3",
        4 => "4",
        5 => "5",
        6 => "6",
        7 => "7",
        8 => "8",
        _ => "9",
    };
    assert(text@ =~= seq![digit(d as nat)]);
    text
}

/// `n` in decimal, without leading zeros.
pub fn decimal_text(n: u128) -> (text: String)
    ensures
        text@ == decimal(n as nat),
    decreases n,
{
    let mut text = if n < 10 {
        String::new()
    } else {
        decimal_text(n / 10)
    };
    text.append(digit_text((n % 10) as u32));
    assert(text@ =~= decimal(n as nat));
    text
}

/// The hexadecimal digit of `d`, in lower case.
pub open spec fn hex_digit(d: nat) -> char {
    if d % 16 < 10 {
        ((d % 16) + 48) as char
    } else {
        ((d % 16) + 87) as char
    }
}

/// A byte as it prints in hexadecimal, with its prefix.
pub open spec fn hex_byte(b: u8) -> Seq<char> {
    seq!['0', 'x', hex_digit((b / 16) as nat), hex_digit((b % 16) as nat)]
}

fn hex_digit_text(d: u8) -> (text: &'static str)
    requires
        d < 16,
    ensures
        text@ == seq![hex_digit(d as nat)],
{
    proof {
        reveal_strlit("a");
        reveal_strlit("b");
        reveal_strlit("c");
        reveal_strlit("d");
        reveal_strlit("e");
        reveal_strlit("f");
    }
    if d < 10 {
        return digit_text(d as u32);
    }
    let text = match d {
        10 => "a",
        11 => "b",
        12 => "c",
        13 => "d",
        14 => "e",
        _ => "f",
    };
    assert(text@ =~= seq![hex_digit(d as nat)]);
    text
}

/// `b` as it prints in hexadecimal, with its prefix.
pub fn hex_text(b: u8) -> (text: String)
    ensures
        text@ == hex_byte(b),
{
    let mut text = "0x".to_owned();
    text.append(hex_digit_text(b / 16));
    text.append(hex_digit_text(b % 16));
    proof {
        reveal_strlit("0x");
    }
    assert(text@ =~= hex_byte(b));
    text
}

/// The value of one decimal digit, if `c` is one.
pub open spec fn digit_value(c: char) -> Option<nat> {
    if '0' <= c <= '9' {
        Some((c as u32 - 48) as nat)
    } else {
        None
    }
}

/// The number that a run of decimal digits stands for.
pub open spec fn digits_value(s: Seq<char>) -> Option<nat>
    decreases s.len(),
{
    if s.len() == 0 {
        Some(0)
    } else {
        match (digits_value(s.drop_last()), digit_value(s.last())) {
            (Some(high), Some(low)) => Some(10 * high + low),
            _ => None,
        }
    }
}

/// The digits of an unsigned number: `s` without one leading plus sign.
pub open spec fn unsigned_digits(s: Seq<char>) -> Seq<char> {
    if s.len() > 0 && s.first() == '+' {
        s.drop_first()
    } else {
        s
    }
}

/// The `u32` that `s` writes in decimal: at least one digit, nothing but digits
/// after an optional plus sign, and a value that fits.
pub open spec fn unsigned_value(s: Seq<char>) -> Option<u32> {
    let digits = unsigned_digits(s);
    match digits_value(digits) {
        Some(n) => if digits.len() > 0 && n <= u32::MAX {
            Some(n as u32)
        } else {
            None
        },
        None => None,
    }
}

/// The first digits of a number stand for no more than the number.
pub proof fn lemma_digits_value_prefix(s: Seq<char>, n: int)
    requires
        0 <= n <= s.len(),
        digits_value(s) is Some,
    ensures
        digits_value(s.take(n)) is Some,
        digits_value(s.take(n))->0 <= digits_value(s)->0,
    decreases s.len(),
{
    if n == s.len() {
        assert(s.take(n) =~= s);
    } else {
        lemma_digits_value_prefix(s.drop_last(), n);
        assert(s.drop_last().take(n) =~= s.take(n));
    }
}

/// What a number looks like in decimal stands for that number again.
pub proof fn law_decimal_is_read_back(n: nat)
    ensures
        digits_value(decimal(n)) == Some(n),
        decimal(n).len() > 0,
        forall|i: int| 0 <= i < decimal(n).len() ==> '0' <= #[trigger] decimal(n)[i] <= '9',
    decreases n,
{
    let s = decimal(n);
    if n < 10 {
        assert(s.drop_last() =~= Seq::<char>::empty());
        assert(digits_value(s.drop_last()) == Some(0nat));
    } else {
        law_decimal_is_read_back(n / 10);
        assert(s.drop_last() =~= decimal(n / 10));
    }
}

/// Reads the `u32` that `s` writes in decimal.
pub fn parse_unsigned(s: &str) -> (value: Option<u32>)
    ensures
        value == unsigned_value(s@),
{
    let chars = chars_of(s);
    let from: usize = if chars.len() > 0 && chars[0] == '+' {
        1
    } else {
        0
    };
    let ghost digits = unsigned_digits(s@);
    assert(digits =~= chars@.skip(from as int));
    if from == chars.len() {
        return None;
    }
    let mut n: u32 = 0;
    let mut i: usize = from;
    assert(digits.take(0) =~= Seq::<char>::empty());
    while i < chars.len()
        invariant
            from <= i <= chars.len(),
            digits == chars@.skip(from as int),
            digits == unsigned_digits(s@),
            digits.len() > 0,
            digits_value(digits.take(i - from)) == Some(n as nat),
        decreases chars.len() - i,
    {
        let c = chars[i];
        proof {
            let longer = digits.take(i - from + 1);
            assert(longer.drop_last() =~= digits.take(i - from));
            assert(longer.last() == c);
            if digits_value(digits) is Some {
                lemma_digits_value_prefix(digits, i - from + 1);
            }
        }
        if !('0' <= c && c <= '9') {
            return None;
        }
        let low: u32 = c as u32 - 48;
        if n > 429496729 || (n == 429496729 && low > 5) {
            return None;
        }
        n = 10 * n + low;
        i += 1;
    }
    assert(digits.take(i - from) =~= digits);
    Some(n)
}

/// The strings of a list, each by its characters.
pub open spec fn texts(list: Seq<String>) -> Seq<Seq<char>> {
    list.map_values(|s: String| s@)
}

/// The string slices of a list, each by its characters.
pub open spec fn slices(list: Seq<&str>) -> Seq<Seq<char>> {
    list.map_values(|s: &str| s@)
}

/// A line without the carriage return that may close it.
pub open spec fn without_cr(line: Seq<char>) -> Seq<char> {
    if line.len() > 0 && line.last() == '\r' {
        line.drop_last()
    } else {
        line
    }
}

/// The lines of `s` from position `from` on: each ends at a line feed, a carriage return
/// right before which is dropped; what follows the last line feed is a line unless
/// it is empty, and is kept whole.
pub open spec fn lines_from(s: Seq<char>, from: int) -> Seq<Seq<char>>
    decreases s.len() - from, 1int,
{
    if from < 0 || from >= s.len() {
        Seq::empty()
    } else {
        lines_at(s, from, from)
    }
}

/// The lines of `s` from position `from` on, where no line feed stands before `at`.
pub open spec fn lines_at(s: Seq<char>, from: int, at: int) -> Seq<Seq<char>>
    decreases s.len() - at, 0int,
{
    if at < from || at >= s.len() {
        seq![s.subrange(from, s.len() as int)]
    } else if s[at] == '\n' {
        seq![without_cr(s.subrange(from, at))] + lines_from(s, at + 1)
    } else {
        lines_at(s, from, at + 1)
    }
}

/// The lines of `s`.
pub open spec fn lines(s: Seq<char>) -> Seq<Seq<char>> {
    lines_from(s, 0)
}

proof fn lemma_lines_at(s: Seq<char>, from: int, at: int, end: int)
    requires
        0 <= from <= at <= end <= s.len(),
        forall|k: int| at <= k < end ==> s[k] != '\n',
    ensures
        lines_at(s, from, at) == lines_at(s, from, end),
    decreases end - at,
{
    if at < end {
        lemma_lines_at(s, from, at + 1, end);
    }
}

/// The lines of `s`.
pub fn split_lines<'a>(s: &'a str) -> (list: Vec<&'a str>)
    ensures
        slices(list@) == lines(s@),
{
    let chars = chars_of(s);
    let mut list: Vec<&'a str> = Vec::new();
    let mut from: usize = 0;
    assert(slices(list@) + lines_from(s@, 0) =~= lines(s@));
    while from < chars.len()
        invariant
            chars@ == s@,
            from <= chars.len(),
            slices(list@) + lines_from(s@, from as int) == lines(s@),
        decreases chars.len() - from,
    {
        let end = find_char(&chars, '\n', from);
        proof {
            lemma_lines_at(s@, from as int, from as int, end as int);
        }
        let ghost before = list@;
        if end == chars.len() {
            let line = s.substring_char(from, end);
            list.push(line);
            assert(slices(list@) =~= slices(before) + seq![line@]);
            from = end;
            assert(lines_from(s@, end as int) =~= Seq::empty());
            assert(slices(list@) + lines_from(s@, end as int) =~= lines(s@));
        } else {
            let stop: usize = if end > from && chars[end - 1] == '\r' {
                end - 1
            } else {
                end
            };
            let line = s.substring_char(from, stop);
            assert(line@ =~= without_cr(s@.subrange(from as int, end as int)));
            list.push(line);
            assert(slices(list@) =~= slices(before) + seq![line@]);
            assert(slices(list@) + lines_from(s@, end + 1) =~= slices(before) + lines_from(
                s@,
                from as int,
            ));
            from = end + 1;
        }
    }
    assert(slices(list@) + Seq::<Seq<char>>::empty() =~= slices(list@));
    list
}

/// The alphabetical order of strings: by the first character in which they differ, a
/// string before every longer one that it begins.
pub open spec fn precedes(a: Seq<char>, b: Seq<char>) -> bool
    decreases a.len(),
{
    if b.len() == 0 {
        false
    } else if a.len() == 0 {
        true
    } else if a[0] == b[0] {
        precedes(a.drop_first(), b.drop_first())
    } else {
        a[0] < b[0]
    }
}

proof fn lemma_precedes_skip(a: Seq<char>, b: Seq<char>, n: int)
    requires
        0 <= n <= a.len(),
        n <= b.len(),
        forall|k: int| 0 <= k < n ==> a[k] == b[k],
    ensures
        precedes(a, b) == precedes(a.skip(n), b.skip(n)),
    decreases n,
{
    if n == 0 {
        assert(a.skip(0) =~= a);
        assert(b.skip(0) =~= b);
    } else {
        lemma_precedes_skip(a.drop_first(), b.drop_first(), n - 1);
        assert(a.drop_first().skip(n - 1) =~= a.skip(n));
        assert(b.drop_first().skip(n - 1) =~= b.skip(n));
    }
}

/// Whether `a` comes before `b` in alphabetical order.
pub fn comes_before(a: &str, b: &str) -> (before: bool)
    ensures
        before == precedes(a@, b@),
{
    let left = chars_of(a);
    let right = chars_of(b);
    let mut i: usize = 0;
    while i < left.len() && i < right.len() && left[i] == right[i]
        invariant
            left@ == a@,
            right@ == b@,
            i <= left.len(),
            i <= right.len(),
            forall|k: int| 0 <= k < i ==> left@[k] == right@[k],
        decreases left.len() - i,
    {
        i += 1;
    }
    proof {
        lemma_precedes_skip(a@, b@, i as int);
    }
    if i == right.len() {
        false
    } else if i == left.len() {
        true
    } else {
        left[i] < right[i]
    }
}

/// No string comes before itself.
pub proof fn lemma_precedes_irreflexive(a: Seq<char>)
    ensures
        !precedes(a, a),
    decreases a.len(),
{
    if a.len() > 0 {
        lemma_precedes_irreflexive(a.drop_first());
    }
}

/// The alphabetical order is transitive.
pub proof fn lemma_precedes_transitive(a: Seq<char>, b: Seq<char>, c: Seq<char>)
    requires
        precedes(a, b),
        precedes(b, c),
    ensures
        precedes(a, c),
    decreases a.len(),
{
    if a.len() > 0 && b.len() > 0 && c.len() > 0 && a[0] == b[0] && b[0] == c[0] {
        lemma_precedes_transitive(a.drop_first(), b.drop_first(), c.drop_first());
    }
}

/// Of two different strings one comes before the other.
pub proof fn lemma_precedes_total(a: Seq<char>, b: Seq<char>)
    ensures
        a == b || precedes(a, b) || precedes(b, a),
    decreases a.len(),
{
    if a.len() == 0 || b.len() == 0 {
        if a.len() == 0 && b.len() == 0 {
            assert(a =~= b);
        }
    } else if a[0] == b[0] {
        lemma_precedes_total(a.drop_first(), b.drop_first());
        if a.drop_first() == b.drop_first() {
            assert(a =~= seq![a[0]] + a.drop_first());
            assert(b =~= seq![b[0]] + b.drop_first());
        }
    }
}

proof fn lemma_leading_white(s: Seq<char>)
    ensures
        exists|n: int|
            {
                &&& 0 <= n <= s.len()
                &&& without_leading_white(s) == #[trigger] s.skip(n)
                &&& forall|i: int| 0 <= i < n ==> is_white(#[trigger] s[i])
                &&& n < s.len() ==> !is_white(s[n])
            },
    decreases s.len(),
{
    if s.len() > 0 && is_white(s.first()) {
        let t = s.drop_first();
        lemma_leading_white(t);
        let n = choose|n: int|
            {
                &&& 0 <= n <= t.len()
                &&& without_leading_white(t) == #[trigger] t.skip(n)
                &&& forall|i: int| 0 <= i < n ==> is_white(#[trigger] t[i])
                &&& n < t.len() ==> !is_white(t[n])
            };
        assert(t.skip(n) =~= s.skip(n + 1));
        assert forall|i: int| 0 <= i < n + 1 implies is_white(#[trigger] s[i]) by {
            if i > 0 {
                assert(t[i - 1] == s[i]);
            }
        }
        assert(without_leading_white(s) == s.skip(n + 1));
    } else {
        assert(s.skip(0) =~= s);
    }
}

proof fn lemma_trailing_white(s: Seq<char>)
    ensures
        exists|n: int|
            {
                &&& 0 <= n <= s.len()
                &&& without_trailing_white(s) == #[trigger] s.take(n)
                &&& forall|i: int| n <= i < s.len() ==> is_white(#[trigger] s[i])
                &&& n > 0 ==> !is_white(s[n - 1])
            },
    decreases s.len(),
{
    if s.len() > 0 && is_white(s.last()) {
        let t = s.drop_last();
        lemma_trailing_white(t);
        let n = choose|n: int|
            {
                &&& 0 <= n <= t.len()
                &&& without_trailing_white(t) == #[trigger] t.take(n)
                &&& forall|i: int| n <= i < t.len() ==> is_white(#[trigger] t[i])
                &&& n > 0 ==> !is_white(t[n - 1])
            };
        assert(t.take(n) =~= s.take(n));
        assert forall|i: int| n <= i < s.len() implies is_white(#[trigger] s[i]) by {
            if i < t.len() {
                assert(t[i] == s[i]);
            }
        }
        assert(without_trailing_white(s) == s.take(n));
    } else {
        assert(s.take(s.len() as int) =~= s);
    }
}

/// Trimming takes white space from both ends and nothing else: a text is white space, what is
/// left of it, and white space, and what is left neither begins nor ends in white space.
pub proof fn law_trimming_takes_white_space_only(s: Seq<char>)
    ensures
        exists|before: Seq<char>, after: Seq<char>|
            {
                &&& s == #[trigger] (before + trimmed(s) + after)
                &&& forall|i: int| 0 <= i < before.len() ==> is_white(#[trigger] before[i])
                &&& forall|i: int| 0 <= i < after.len() ==> is_white(#[trigger] after[i])
            },
        trimmed(s).len() > 0 ==> !is_white(trimmed(s).first()) && !is_white(trimmed(s).last()),
{
    lemma_leading_white(s);
    let n = choose|n: int|
        {
            &&& 0 <= n <= s.len()
            &&& without_leading_white(s) == #[trigger] s.skip(n)
            &&& forall|i: int| 0 <= i < n ==> is_white(#[trigger] s[i])
            &&& n < s.len() ==> !is_white(s[n])
        };
    let t = s.skip(n);
    lemma_trailing_white(t);
    let m = choose|m: int|
        {
            &&& 0 <= m <= t.len()
            &&& without_trailing_white(t) == #[trigger] t.take(m)
            &&& forall|i: int| m <= i < t.len() ==> is_white(#[trigger] t[i])
            &&& m > 0 ==> !is_white(t[m - 1])
        };
    let (before, after) = (s.take(n), t.skip(m));
    assert(trimmed(s) == t.take(m));
    assert forall|i: int| 0 <= i < after.len() implies is_white(#[trigger] after[i]) by {
        assert(after[i] == t[m + i]);
    }
    assert(s =~= before + trimmed(s) + after);
}

/// What white space is among the characters of a keyboard: the blank and the controls that move
/// on; no character that prints is.
pub proof fn law_printed_characters_are_not_white(c: char)
    ensures
        c == ' ' || c == '\t' || c == '\n' || c == '\r' ==> is_white(c),
        '!' <= c <= '~' ==> !is_white(c),
{
}

/// A byte prints as its two digits of base sixteen, behind a prefix, in small letters.
pub proof fn law_bytes_print_in_base_sixteen(b: u8)
    ensures
        hex_byte(b).len() == 4,
        hex_byte(b)[0] == '0' && hex_byte(b)[1] == 'x',
        forall|k: int|
            2 <= k < 4 ==> '0' <= #[trigger] hex_byte(b)[k] <= '9' || 'a' <= hex_byte(b)[k] <= 'f',
        ({
            let high = hex_byte(b)[2] as int - (if hex_byte(b)[2] <= '9' {
                48int
            } else {
                87int
            });
            let low = hex_byte(b)[3] as int - (if hex_byte(b)[3] <= '9' {
                48int
            } else {
                87int
            });
            16 * high + low == b
        }),
{
    let (h, l) = ((b / 16) as nat, (b % 16) as nat);
    assert(h < 16 && l < 16 && 16 * h + l == b);
}

/// The order of texts is that of a dictionary: texts that begin alike go by what follows, a text
/// goes before each that it begins, and else the first character decides.
pub proof fn law_order_is_that_of_a_dictionary(
    front: Seq<char>,
    a: Seq<char>,
    b: Seq<char>,
)
    ensures
        precedes(front + a, front + b) == precedes(a, b),
        b.len() > 0 ==> precedes(front, front + b),
        a.len() > 0 && b.len() > 0 && a[0] < b[0] ==> precedes(front + a, front + b),
    decreases front.len(),
{
    let e = Seq::<char>::empty();
    if front.len() == 0 {
        assert(front + a =~= a);
        assert(front + b =~= b);
    } else {
        assert((front + a).drop_first() =~= front.drop_first() + a);
        assert((front + b).drop_first() =~= front.drop_first() + b);
        law_order_is_that_of_a_dictionary(front.drop_first(), a, b);
    }
}

} // verus!
