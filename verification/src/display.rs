//! How numbers are shown: whole, with one place after the point, and in percent.

use crate::arith::bounded;
use crate::arith::infinite;
use crate::arith::lemma_whole;
use crate::arith::number;
use crate::arith::power;
use crate::arith::product;
use crate::arith::rounded_away;
use crate::arith::size;
use crate::arith::split;
use crate::scale::highest;
use crate::scale::hundredths;
use crate::scale::lemma_percent_again;
use crate::scale::HIGHEST;
use crate::text::decimal;
use crate::text::decimal_text;
use crate::value::clamped;
use crate::value::unit;
use crate::value::Value;
use crate::value::HIDDEN;
use crate::value::INFINITE;
use crate::value::SIGN;
use vstd::arithmetic::power2::lemma_pow2_adds;
use vstd::arithmetic::power2::lemma_pow2_pos;
use vstd::arithmetic::power2::lemma_pow2_strictly_increases;
use vstd::arithmetic::power2::pow2;
use vstd::prelude::*;

verus! {

/// The whole number nearest to `n / d`, the even one where it lies in the middle of two.
pub open spec fn half_even(n: int, d: int) -> int {
    let q = n / d;
    let r = n % d;
    if 2 * r > d || (2 * r == d && q % 2 == 1) {
        q + 1
    } else {
        q
    }
}

proof fn lemma_half_even_scaled(n: int, d: int, c: int)
    requires
        n >= 0,
        d > 0,
        c > 0,
    ensures
        half_even(n * c, d * c) == half_even(n, d),
{
    vstd::arithmetic::div_mod::lemma_fundamental_div_mod(n, d);
    let q = n / d;
    let r = n % d;
    assert(n * c == (d * c) * q + r * c) by (nonlinear_arith)
        requires
            n == d * q + r,
    ;
    assert(0 <= r * c < d * c) by (nonlinear_arith)
        requires
            0 <= r < d,
            c > 0,
    ;
    assert(q * (d * c) == (d * c) * q) by (nonlinear_arith);
    vstd::arithmetic::div_mod::lemma_fundamental_div_mod_converse(n * c, d * c, q, r * c);
    assert((2 * r > d <==> 2 * (r * c) > d * c) && (2 * r == d <==> 2 * (r * c) == d * c))
        by (nonlinear_arith)
        requires
            c > 0,
    ;
}

impl Value {
    /// The size of this value in units of one `k`th, rounded to a whole number.
    fn counted(self, k: u32) -> (n: u128)
        requires
            self.magnitude() < INFINITE,
            k == 1 || (k == 10 && self.magnitude() < 150 * HIDDEN),
        ensures
            n == half_even(k * size(self), unit()),
    {
        let (s, e) = split(self.bits % SIGN);
        let steps: u128 = k as u128 * s as u128;
        let ghost x = pow2(e as nat) as int;
        proof {
            lemma_pow2_pos(149);
            lemma_pow2_pos(e as nat);
            vstd::arithmetic::power2::lemma2_to64();
            assert((k * s) * x == k * size(self)) by (nonlinear_arith)
                requires
                    size(self) == s * x,
            ;
        }
        if e >= 149 {
            let by: u32 = e - 149;
            let factor = power_of(by);
            proof {
                let f = factor as int;
                lemma_pow2_adds(by as nat, 149);
                lemma_pow2_adds(32, 72);
                lemma_pow2_adds(64, 8);
                if by < 104 {
                    lemma_pow2_strictly_increases(by as nat, 104);
                }
                assert(steps * f <= 0xff_ffff * 0x100_0000_0000_0000_0000_0000_0000) by (nonlinear_arith)
                    requires
                        0 <= steps <= 0xff_ffff,
                        0 <= f <= 0x100_0000_0000_0000_0000_0000_0000,
                ;
                let t = unit();
                assert(k * size(self) == (steps * f) * t) by (nonlinear_arith)
                    requires
                        k * size(self) == steps * (f * t),
                ;
                assert((steps * f) * t == t * (steps * f)) by (nonlinear_arith);
                vstd::arithmetic::div_mod::lemma_fundamental_div_mod_converse(
                    (steps * f) * t,
                    t,
                    steps * f,
                    0,
                );
            }
            return steps * factor;
        }
        let drop: u32 = 149 - e;
        proof {
            lemma_pow2_adds(e as nat, drop as nat);
            lemma_pow2_pos(drop as nat);
            let g = pow2(drop as nat) as int;
            assert(x * g == g * x) by (nonlinear_arith);
            lemma_half_even_scaled(steps as int, g, x);
        }
        if drop >= 30 {
            proof {
                let g = pow2(drop as nat) as int;
                if drop > 30 {
                    lemma_pow2_strictly_increases(30, drop as nat);
                }
                vstd::arithmetic::div_mod::lemma_basic_div(steps as int, g);
                vstd::arithmetic::div_mod::lemma_small_mod(steps as nat, g as nat);
            }
            return 0;
        }
        let d: u128 = power(drop);
        let q: u128 = steps / d;
        let r: u128 = steps % d;
        proof {
            if drop < 30 {
                lemma_pow2_strictly_increases(drop as nat, 30);
            }
            vstd::arithmetic::div_mod::lemma_div_nonincreasing(steps as int, d as int);
        }
        if 2 * r > d || (2 * r == d && q % 2 == 1) {
            q + 1
        } else {
            q
        }
    }
}

fn power_of(n: u32) -> (p: u128)
    requires
        n <= 104,
    ensures
        p == pow2(n as nat),
{
    if n <= 52 {
        power(n)
    } else {
        proof {
            lemma_pow2_adds(52, (n - 52) as nat);
            lemma_pow2_adds(32, 20);
            vstd::arithmetic::power2::lemma2_to64();
            if n - 52 < 52 {
                lemma_pow2_strictly_increases((n - 52) as nat, 52);
            }
        }
        let a = power(52);
        let b = power(n - 52);
        assert(a * b <= 0x10_0000_0000_0000 * 0x10_0000_0000_0000) by (nonlinear_arith)
            requires
                0 <= a <= 0x10_0000_0000_0000,
                0 <= b <= 0x10_0000_0000_0000,
        ;
        a * b
    }
}

/// A text with blanks before it, as many as it takes to fill `width` places.
pub open spec fn padded(s: Seq<char>, width: int) -> Seq<char> {
    Seq::new(
        (if s.len() < width {
            width - s.len()
        } else {
            0
        }) as nat,
        |i: int| ' ',
    ) + s
}

/// A text with blanks before it, as many as it takes to fill `width` places.
pub fn pad(s: &str, width: usize) -> (text: String)
    ensures
        text@ == padded(s@, width as int),
{
    let len: usize = s.unicode_len();
    let mut text = String::new();
    let mut i: usize = len;
    let ghost blanks = Seq::new(
        (if len < width {
            width - len
        } else {
            0
        }) as nat,
        |j: int| ' ',
    );
    assert(text@ =~= blanks.take(0));
    while i < width
        invariant
            len <= i,
            i <= width || i == len,
            blanks.len() == (if len < width {
                width - len
            } else {
                0
            }),
            forall|j: int| 0 <= j < blanks.len() ==> blanks[j] == ' ',
            text@ == blanks.take(i - len),
        decreases width - i,
    {
        text.append(" ");
        proof {
            reveal_strlit(" ");
            assert(blanks.take(i + 1 - len) =~= blanks.take(i - len).push(' '));
            assert(blanks.take(i - len) + " "@ =~= blanks.take(i - len).push(' '));
        }
        i += 1;
    }
    assert(blanks.take(i - len) =~= blanks);
    text.append(s);
    text
}

/// A whole number in decimal.
pub open spec fn integer(n: int) -> Seq<char> {
    if n < 0 {
        "-"@ + decimal((-n) as nat)
    } else {
        decimal(n as nat)
    }
}

/// A whole number in decimal.
pub fn integer_text(n: i32) -> (text: String)
    ensures
        text@ == integer(n as int),
{
    if n < 0 {
        let mut text = "-".to_owned();
        text.append(decimal_text((-(n as i64)) as u128).as_str());
        text
    } else {
        decimal_text(n as u128)
    }
}

/// A value as it is shown without places after the point.
pub open spec fn whole_shown(v: Value) -> Seq<char> {
    if v.is_nan() {
        "NaN"@
    } else {
        (if v.negative() {
            "-"@
        } else {
            Seq::empty()
        }) + (if infinite(v) {
            "inf"@
        } else {
            decimal(half_even(size(v), unit()) as nat)
        })
    }
}

/// A value as it is shown without places after the point.
pub fn whole_text(v: Value) -> (text: String)
    ensures
        text@ == whole_shown(v),
{
    if v.not_a_number() {
        return "NaN".to_owned();
    }
    let mut text = String::new();
    if v.bits >= SIGN {
        text.append("-");
        assert(text@ =~= "-"@);
    }
    if v.bits % SIGN == INFINITE {
        text.append("inf");
    } else {
        text.append(decimal_text(v.counted(1)).as_str());
    }
    text
}

/// How many tenths a value is shown as.
pub open spec fn tenths(v: Value) -> int {
    half_even(10 * size(v), unit())
}

/// A value as it is shown with its sign and one place after the point, on five places.
pub open spec fn tenths_shown(v: Value) -> Seq<char> {
    padded(
        if v.is_nan() {
            "NaN"@
        } else {
            (if v.negative() {
                "-"@
            } else {
                "+"@
            }) + (if infinite(v) {
                "inf"@
            } else {
                decimal((tenths(v) / 10) as nat) + "."@ + decimal((tenths(v) % 10) as nat)
            })
        },
        5,
    )
}

/// From two to the 23rd on there are no tenths.
proof fn lemma_large_tenths(v: Value)
    requires
        v.magnitude() >= 150 * HIDDEN,
        v.magnitude() < INFINITE,
    ensures
        tenths(v) == 10 * half_even(size(v), unit()),
        half_even(size(v), unit()) >= 0,
{
    let t = unit();
    let m = v.magnitude();
    let e = m / (HIDDEN as int);
    let f = HIDDEN + m % (HIDDEN as int);
    let g = pow2((e - 150) as nat) as int;
    lemma_pow2_pos(149);
    lemma_pow2_pos((e - 150) as nat);
    lemma_pow2_adds((e - 150) as nat, 149);
    let y = f * g;
    assert(y >= 0) by (nonlinear_arith)
        requires
            y == f * g,
            f >= 0,
            g >= 0,
    ;
    assert(f * (g * t) == y * t && 10 * (y * t) == (10 * y) * t) by (nonlinear_arith)
        requires
            y == f * g,
    ;
    vstd::arithmetic::div_mod::lemma_fundamental_div_mod_converse(y * t, t, y, 0);
    vstd::arithmetic::div_mod::lemma_fundamental_div_mod_converse((10 * y) * t, t, 10 * y, 0);
}

/// A value as it is shown with its sign and one place after the point, on five places.
pub fn tenths_text(v: Value) -> (text: String)
    ensures
        text@ == tenths_shown(v),
{
    if v.not_a_number() {
        return pad("NaN", 5);
    }
    let m: u32 = v.bits % SIGN;
    let mut text = if v.bits >= SIGN {
        "-".to_owned()
    } else {
        "+".to_owned()
    };
    let ghost sign = text@;
    if m == INFINITE {
        text.append("inf");
        return pad(text.as_str(), 5);
    }
    let whole: u128;
    let part: u128;
    if m >= 150 * HIDDEN {
        proof {
            lemma_large_tenths(v);
        }
        whole = v.counted(1);
        part = 0;
    } else {
        let n: u128 = v.counted(10);
        whole = n / 10;
        part = n % 10;
    }
    text.append(decimal_text(whole).as_str());
    text.append(".");
    text.append(decimal_text(part).as_str());
    assert(text@ =~= sign + (decimal((tenths(v) / 10) as nat) + "."@ + decimal(
        (tenths(v) % 10) as nat,
    )));
    pad(text.as_str(), 5)
}

/// A value in whole percent, within the range of an `i32`.
pub open spec fn percent(v: Value) -> int {
    clamped(rounded_away(product(v, number(100))), i32::MIN as int, i32::MAX as int)
}

/// A value as it is shown in percent, on three places and the sign of percent.
pub open spec fn percent_shown(v: Value) -> Seq<char> {
    padded(integer(percent(v)), 3) + "%"@
}

/// A value as it is shown in percent, on three places and the sign of percent.
pub fn percent_text(v: Value) -> (text: String)
    ensures
        text@ == percent_shown(v),
{
    let n: i32 = v.times(Value::of_int(100)).round_to_int();
    let mut text = pad(integer_text(n).as_str(), 3);
    text.append("%");
    text
}

/// A volume as the mixer popup shows it beside its slider.
pub open spec fn bubble_shown(v: Value) -> Seq<char> {
    whole_shown(product(v, number(100))) + "%"@
}

/// A volume as the mixer popup shows it beside its slider.
pub fn bubble_text(v: Value) -> (text: String)
    ensures
        text@ == bubble_shown(bounded(v, number(0), highest())),
{
    let volume = v.within(Value::of_int(0), Value { bits: HIGHEST });
    let mut text = whole_text(volume.times(Value::of_int(100)));
    text.append("%");
    text
}

/// A volume as it is asked of the sound server: whole percent from 0 to 150.
pub open spec fn volume_percent(v: Value) -> int {
    clamped(rounded_away(product(v, number(100))), 0, 150)
}

/// A volume as it is asked of the sound server: whole percent from 0 to 150.
pub fn volume_text(v: Value) -> (text: String)
    ensures
        text@ == decimal(volume_percent(v) as nat) + "%"@,
{
    let n: i32 = v.times(Value::of_int(100)).round_to_int();
    let p: i32 = if n < 0 {
        0
    } else if n > 150 {
        150
    } else {
        n
    };
    let mut text = decimal_text(p as u128);
    text.append("%");
    text
}

/// Rounding for display moves a number by no more than one half, and from the middle of two
/// whole numbers to the even one.
pub proof fn law_shown_numbers_are_nearest(n: int, d: int)
    requires
        n >= 0,
        d > 0,
    ensures
        -d <= 2 * (half_even(n, d) * d - n) <= d,
        half_even(n, d) >= 0,
        2 * (half_even(n, d) * d - n) == d || 2 * (half_even(n, d) * d - n) == -d ==> half_even(n, d)
            % 2 == 0,
{
    vstd::arithmetic::div_mod::lemma_fundamental_div_mod(n, d);
    let q = n / d;
    let r = n % d;
    assert(q >= 0 && (q + 1) * d == d * q + d && q * d == d * q) by (nonlinear_arith)
        requires
            n == d * q + r,
            0 <= r < d,
            n >= 0,
            d > 0,
    ;
}

/// A padded text ends in the text and has nothing but blanks before it; it fills its width and
/// is never cut.
pub proof fn law_padding_goes_in_front(s: Seq<char>, width: int, i: int)
    ensures
        padded(s, width).len() == (if s.len() < width {
            width
        } else {
            s.len() as int
        }),
        padded(s, width).skip(padded(s, width).len() - s.len()) == s,
        0 <= i < padded(s, width).len() - s.len() ==> padded(s, width)[i] == ' ',
{
    assert(padded(s, width).skip(padded(s, width).len() - s.len()) =~= s);
}

/// A whole number shows as its digits, with a minus sign where it is negative; with one place
/// after the point that place is zero, and its sign is always shown.
pub proof fn law_whole_numbers_show_their_digits(n: int)
    requires
        0 <= n < 0x100_0000,
    ensures
        whole_shown(number(n)) == decimal(n as nat),
        n > 0 ==> whole_shown(number(-n)) == "-"@ + decimal(n as nat),
        tenths_shown(number(n)) == padded("+"@ + decimal(n as nat) + "."@ + "0"@, 5),
        n > 0 ==> tenths_shown(number(-n)) == padded("-"@ + decimal(n as nat) + "."@ + "0"@, 5),
        integer(n) == decimal(n as nat),
        n > 0 ==> integer(-n) == "-"@ + decimal(n as nat),
{
    let t = unit();
    lemma_pow2_pos(149);
    lemma_whole(n);
    lemma_whole(-n);
    assert(-(-n) * t == n * t) by (nonlinear_arith);
    vstd::arithmetic::div_mod::lemma_div_by_multiple(n, t);
    vstd::arithmetic::div_mod::lemma_mod_multiples_basic(n, t);
    vstd::arithmetic::div_mod::lemma_div_by_multiple(10 * n, t);
    vstd::arithmetic::div_mod::lemma_mod_multiples_basic(10 * n, t);
    assert(10 * (n * t) == (10 * n) * t) by (nonlinear_arith);
    assert(half_even(n * t, t) == n);
    assert(half_even(10 * (n * t), t) == 10 * n);
    assert((10 * n) / 10 == n && (10 * n) % 10 == 0);
    reveal_strlit("0");
    assert(decimal(0) =~= "0"@);
    assert(Seq::<char>::empty() + decimal(n as nat) =~= decimal(n as nat));
    assert("+"@ + (decimal(n as nat) + "."@ + "0"@) =~= "+"@ + decimal(n as nat) + "."@ + "0"@);
    assert("-"@ + (decimal(n as nat) + "."@ + "0"@) =~= "-"@ + decimal(n as nat) + "."@ + "0"@);
    assert(150 * HIDDEN < INFINITE && 151 * HIDDEN < INFINITE);
}

/// A level of `n` hundredths shows as `n` percent, in the table and beside a slider.
pub proof fn law_hundredths_show_as_percent(n: int)
    requires
        0 <= n <= 150,
    ensures
        percent(hundredths(n)) == n,
        percent_shown(hundredths(n)) == padded(decimal(n as nat), 3) + "%"@,
        volume_percent(hundredths(n)) == n,
{
    lemma_percent_again(n);
}

/// What is asked of the sound server is never more than 150 percent and never less than none.
pub proof fn law_asked_percent_is_bounded(v: Value)
    ensures
        0 <= volume_percent(v) <= 150,
        0 <= percent(v) <= 150 ==> volume_percent(v) == percent(v),
{
}

} // verus!
