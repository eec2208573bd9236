//! From the logical coordinates of the mixer popup to pixels, and from volumes to rows.

use crate::arith::absolute;
use crate::arith::bounded;
use crate::arith::infinite;
use crate::arith::is_nearest;
use crate::arith::lemma_exact;
use crate::arith::lemma_gap;
use crate::arith::lemma_nearest_exists;
use crate::arith::lemma_nearest_monotone;
use crate::arith::lemma_whole;
use crate::arith::nearest;
use crate::arith::number;
use crate::arith::product;
use crate::arith::quotient;
use crate::arith::rounded_away;
use crate::arith::rounded_value;
use crate::arith::size;
use crate::value::clamped;
use crate::value::lemma_units_increase;
use crate::value::lemma_units_nonnegative;
use crate::value::lemma_units_order;
use crate::value::magnitude_units;
use crate::value::unit;
use crate::value::Value;
use crate::value::HIDDEN;
use crate::value::INFINITE;
use vstd::arithmetic::power2::lemma_pow2_adds;
use vstd::arithmetic::power2::lemma_pow2_pos;
use vstd::arithmetic::power2::pow2;
use vstd::prelude::*;

verus! {

/// The largest logical coordinate: the height of the popup.
pub const LOGICAL_MAX: i32 = 320;

/// Whether a value can be the scale of the popup: from one to three, or not a number, which
/// shrinks everything to nothing.
pub open spec fn is_scale(v: Value) -> bool {
    v.is_nan() || v.is_between(1, 3)
}

/// How many pixels a logical length takes at a scale.
pub open spec fn pixels(logical: int, scale: Value) -> int {
    clamped(
        rounded_away(product(number(logical), scale)),
        i32::MIN as int,
        i32::MAX as int,
    )
}

/// The scale of the popup.
#[derive(Clone, Copy)]
pub struct Scale {
    factor: Value,
}

impl View for Scale {
    type V = Value;

    closed spec fn view(&self) -> Value {
        self.factor
    }
}

impl Scale {
    #[verifier::type_invariant]
    spec fn inv(self) -> bool {
        is_scale(self.factor)
    }

    /// The scale nearest to `factor` that the popup can have.
    pub fn new(factor: Value) -> (scale: Scale)
        ensures
            scale@ == bounded(factor, number(1), number(3)),
            is_scale(scale@),
    {
        proof {
            lemma_whole(1);
            lemma_whole(3);
            lemma_pow2_pos(149);
        }
        Scale { factor: factor.within(Value::of_int(1), Value::of_int(3)) }
    }

    /// The factor itself.
    pub fn factor(&self) -> (factor: Value)
        ensures
            factor == self@,
            is_scale(factor),
    {
        proof {
            use_type_invariant(self);
        }
        self.factor
    }

    /// How many pixels a logical length takes.
    pub fn px(&self, logical: i32) -> (n: i32)
        requires
            0 <= logical <= LOGICAL_MAX,
        ensures
            n == pixels(logical as int, self@),
            0 <= n <= 3 * logical,
            is_scale(self@),
    {
        proof {
            use_type_invariant(self);
            lemma_pixels(logical as int, self@);
        }
        Value::of_int(logical).times(self.factor).round_to_int()
    }
}

/// A length of pixels is the scaled length, up to a little more than a half.
pub proof fn lemma_pixels(l: int, s: Value)
    requires
        0 <= l <= LOGICAL_MAX,
        is_scale(s),
    ensures
        0 <= pixels(l, s) <= 3 * l,
        s.is_nan() ==> pixels(l, s) == 0,
        !s.is_nan() ==> -5 * unit() <= 8 * (pixels(l, s) * unit() - l * size(s)) <= 5 * unit(),
        !s.is_nan() ==> unit() <= size(s) <= 3 * unit(),
{
    let t = unit();
    lemma_pow2_pos(149);
    lemma_whole(l);
    if s.is_nan() {
        return;
    }
    let a = size(s);
    lemma_units_nonnegative(s.magnitude());
    assert(t <= a <= 3 * t);
    let n = (l * t) * a;
    let p = product(number(l), s);
    let m = nearest(n, t);
    lemma_nearest_exists(n, t);
    let x = l * a;
    assert(n == t * x) by (nonlinear_arith)
        requires
            n == (l * t) * a,
            x == l * a,
    ;
    assert(l * t <= x <= (3 * l) * t) by (nonlinear_arith)
        requires
            x == l * a,
            t <= a <= 3 * t,
            l >= 0,
    ;
    assert(!infinite(s)) by {
        lemma_units_order(s.magnitude(), INFINITE as int);
        lemma_top();
    }
    let z = magnitude_units(m);
    if l == 0 {
        assert(n == 0 && x == 0) by (nonlinear_arith)
            requires
                n == (l * t) * a,
                x == l * a,
                l == 0,
        ;
        assert(magnitude_units(0) == 0);
        assert(t * 0 == 0);
        lemma_exact(0, 0, t);
    } else {
        assert(t <= l * t && (3 * l) * t <= 1000 * t) by (nonlinear_arith)
            requires
                1 <= l <= 320,
                t > 0,
        ;
        lemma_near(m, x);
        // Rounding up to three times a whole number does not go beyond it.
        lemma_bound(m, x, 3 * l);
    }
    assert(m < INFINITE);
    assert(p.magnitude() == m && !p.negative() && size(p) == z);
    let r = rounded_away(p);
    vstd::arithmetic::div_mod::lemma_fundamental_div_mod(2 * z + t, 2 * t);
    let q = (2 * z + t) % (2 * t);
    assert(r * (2 * t) == (2 * t) * r) by (nonlinear_arith);
    assert((2 * t) * r == 2 * (r * t)) by (nonlinear_arith);
    assert(0 <= r <= 3 * l) by (nonlinear_arith)
        requires
            2 * z + t == (2 * t) * r + q,
            0 <= q < 2 * t,
            0 <= z <= (3 * l) * t,
            t > 0,
    ;
}

/// Infinity lies far beyond every number of pixels.
pub proof fn lemma_top()
    ensures
        magnitude_units(INFINITE as int) > 0x200_0000 * unit(),
        magnitude_units(INFINITE as int - 1) > 0x200_0000 * unit(),
{
    let h = HIDDEN as int;
    let top = INFINITE as int;
    assert(top / h == 255 && top % h == 0);
    assert((top - 1) / h == 254 && (top - 1) % h == h - 1);
    lemma_pow2_adds(104, 149);
    lemma_pow2_adds(32, 72);
    lemma_pow2_pos(72);
    vstd::arithmetic::power2::lemma2_to64();
    lemma_pow2_pos(149);
    let p = pow2(253) as int;
    let t = unit();
    assert(p > 0x200_0000 * t) by (nonlinear_arith)
        requires
            p == (0x1_0000_0000 * pow2(72)) * t,
            pow2(72) >= 1,
            t > 0,
    ;
    assert((h + (h - 1)) * p >= p) by (nonlinear_arith)
        requires
            h == 0x80_0000,
            p > 0,
    ;
    lemma_units_increase(top - 1, top);
}

/// The magnitude nearest to `x` units lies close to `x`.
proof fn lemma_near(m: int, x: int)
    requires
        is_nearest(m, unit() * x, unit()),
        unit() <= 2 * x <= 2000 * unit(),
    ensures
        HIDDEN < m < INFINITE,
        magnitude_units(m) <= 2 * x,
        -unit() <= 4096 * (x - magnitude_units(m)) <= unit(),
{
    let t = unit();
    let z = magnitude_units(m);
    let h = HIDDEN as int;
    lemma_pow2_pos(149);
    vstd::arithmetic::power2::lemma2_to64();
    lemma_pow2_adds(32, 117);
    lemma_pow2_pos(117);
    lemma_top();
    lemma_units_nonnegative(m);
    if m > 0 {
        let u = magnitude_units(m - 1);
        lemma_units_nonnegative(m - 1);
        assert(u + z <= 2 * x) by (nonlinear_arith)
            requires
                t * (u + z) <= 2 * (t * x),
                t > 0,
        ;
    }
    assert(m < INFINITE);
    let v = magnitude_units(m + 1);
    assert(2 * x <= z + v) by (nonlinear_arith)
        requires
            2 * (t * x) <= t * (z + v),
            t > 0,
    ;
    if m <= h {
        lemma_units_order(h + 1, m + 1);
        lemma_units_order(h, m);
        assert(h / h == 1 && h % h == 0 && (h + 1) / h == 1 && (h + 1) % h == 1);
        assert((h + 0) * pow2(0) == h && (h + 1) * pow2(0) == h + 1) by (nonlinear_arith)
            requires
                pow2(0) == 1,
        ;
        lemma_units_order(m + 1, h + 1);
    }
    lemma_gap(m);
    lemma_gap(m - 1);
    lemma_units_increase(m - 1, m);
}

/// The magnitude nearest to `x` units is at most `k` where `x` is.
proof fn lemma_bound(m: int, x: int, k: int)
    requires
        m == nearest(unit() * x, unit()),
        x <= k * unit(),
        0 <= k < 0x100_0000,
    ensures
        magnitude_units(m) <= k * unit(),
{
    let t = unit();
    lemma_pow2_pos(149);
    lemma_whole(k);
    let w = number(k).magnitude();
    lemma_exact(w, t * (k * t), t);
    assert(t * x <= t * (k * t)) by (nonlinear_arith)
        requires
            x <= k * t,
            t > 0,
    ;
    lemma_nearest_monotone(t * x, t * (k * t), t);
    lemma_nearest_exists(t * x, t);
    lemma_units_order(w, m);
}

/// The bit pattern of one and a half: the highest volume.
pub const HIGHEST: u32 = 0x3fc0_0000;

/// The highest volume, one and a half.
pub open spec fn highest() -> Value {
    Value { bits: HIGHEST }
}

proof fn lemma_highest()
    ensures
        2 * size(highest()) == 3 * unit(),
        !highest().is_nan(),
        !highest().negative(),
        !infinite(highest()),
        highest().magnitude() == HIGHEST,
        size(highest()) > 0,
{
    let h = HIDDEN as int;
    assert(highest().magnitude() / h == 127 && highest().magnitude() % h == 0x40_0000);
    lemma_pow2_adds(22, 126);
    lemma_pow2_adds(1, 148);
    lemma_pow2_pos(148);
    vstd::arithmetic::power2::lemma2_to64();
    let p = pow2(126) as int;
    assert((h + 0x40_0000) * p == 3 * (0x40_0000 * p)) by (nonlinear_arith)
        requires
            h == 0x80_0000,
    ;
}

/// Which part of the track a volume fills.
pub open spec fn fraction_of(value: Value) -> Value {
    bounded(quotient(value, highest()), number(0), number(1))
}

/// How many of `span` rows a volume fills.
pub open spec fn filled(value: Value, span: int) -> int {
    clamped(
        rounded_away(product(number(span), fraction_of(value))),
        i32::MIN as int,
        i32::MAX as int,
    )
}

/// The row of a volume on a track from `top` to `bottom`.
pub open spec fn row_of(value: Value, top: int, bottom: int) -> int {
    bottom - filled(value, bottom - top)
}

/// The row of a volume on a track from `top` to `bottom`.
pub fn value_y(value: Value, top: i32, bottom: i32) -> (y: i32)
    requires
        i32::MIN <= bottom - top <= i32::MAX,
        i32::MIN <= row_of(value, top as int, bottom as int) <= i32::MAX,
    ensures
        y == row_of(value, top as int, bottom as int),
{
    let fraction = value.over(Value { bits: HIGHEST }).within(Value::of_int(0), Value::of_int(1));
    bottom - Value::of_int(bottom - top).times(fraction).round_to_int()
}

/// Which part of the track lies below a row.
pub open spec fn part_below(y: int, top: int, bottom: int) -> Value {
    bounded(quotient(number(bottom - y), number(bottom - top)), number(0), number(1))
}

/// The volume of a part of the track, in whole hundredths.
pub open spec fn volume_of_part(part: Value) -> Value {
    quotient(rounded_value(product(product(part, highest()), number(100))), number(100))
}

/// The volume at a row of a track from `top` to `bottom`, in whole hundredths.
pub open spec fn volume_at(y: int, top: int, bottom: int) -> Value {
    volume_of_part(part_below(y, top, bottom))
}

/// The volume at a row of a track from `top` to `bottom`, in whole hundredths.
pub fn volume_from_y(y: i32, top: i32, bottom: i32) -> (volume: Value)
    requires
        i32::MIN <= bottom - y <= i32::MAX,
        i32::MIN <= bottom - top <= i32::MAX,
    ensures
        volume == volume_at(y as int, top as int, bottom as int),
{
    let part = Value::of_int(bottom - y).over(Value::of_int(bottom - top)).within(
        Value::of_int(0),
        Value::of_int(1),
    );
    part.times(Value { bits: HIGHEST }).times(Value::of_int(100)).round().over(Value::of_int(100))
}

/// A bounded part lies between zero and one, unless it is not a number.
proof fn lemma_part(v: Value)
    ensures
        ({
            let f = bounded(v, number(0), number(1));
            !f.is_nan() ==> 0 <= f.scaled() <= unit() && 0 <= size(f) <= unit() && !infinite(f) && (
            f.negative() ==> size(f) == 0)
        }),
        bounded(v, number(0), number(1)).is_nan() == v.is_nan(),
{
    lemma_whole(0);
    lemma_whole(1);
    lemma_pow2_pos(149);
    lemma_top();
    let f = bounded(v, number(0), number(1));
    lemma_units_nonnegative(f.magnitude());
    assert(0 * unit() == 0 && 1 * unit() == unit());
}

/// A volume fills no more rows than there are.
pub proof fn lemma_filled(value: Value, span: int)
    requires
        0 <= span < 0x100_0000,
    ensures
        0 <= filled(value, span) <= span,
{
    let f = fraction_of(value);
    let t = unit();
    lemma_pow2_pos(149);
    lemma_part(quotient(value, highest()));
    lemma_whole(span);
    lemma_top();
    if !f.is_nan() {
        let a = size(f);
        assert(span * a <= span * t) by (nonlinear_arith)
            requires
                a <= t,
                0 <= span,
        ;
        lemma_product_below(span, f, span);
    }
}

/// The product of a whole number and a value is rounded to at most `k` where it is at most `k`.
proof fn lemma_product_below(n: int, f: Value, k: int)
    requires
        0 <= n < 0x100_0000,
        0 <= k < 0x100_0000,
        !f.is_nan(),
        !infinite(f),
        f.negative() ==> size(f) == 0,
        n * size(f) <= k * unit(),
    ensures
        0 <= rounded_away(product(number(n), f)) <= k,
        !product(number(n), f).is_nan(),
        !infinite(product(number(n), f)),
        size(product(number(n), f)) <= k * unit(),
        product(number(n), f).negative() ==> size(product(number(n), f)) == 0,
{
    let t = unit();
    lemma_pow2_pos(149);
    lemma_whole(n);
    lemma_top();
    lemma_units_nonnegative(f.magnitude());
    let a = size(f);
    let x = n * a;
    let m = nearest((n * t) * a, t);
    assert((n * t) * a == t * x) by (nonlinear_arith)
        requires
            x == n * a,
    ;
    lemma_nearest_exists(t * x, t);
    lemma_bound(m, x, k);
    let z = magnitude_units(m);
    lemma_units_nonnegative(m);
    if a == 0 {
        assert(x == 0) by (nonlinear_arith)
            requires
                x == n * a,
                a == 0,
        ;
        assert(t * 0 == 0 && magnitude_units(0) == 0);
        lemma_exact(0, 0, t);
    }
    assert(k * t < 0x200_0000 * t) by (nonlinear_arith)
        requires
            k < 0x200_0000,
            t > 0,
    ;
    assert(m != INFINITE);
    let p = product(number(n), f);
    assert(p.magnitude() == m);
    vstd::arithmetic::div_mod::lemma_fundamental_div_mod(2 * z + t, 2 * t);
    let r = (2 * z + t) / (2 * t);
    let q = (2 * z + t) % (2 * t);
    assert(0 <= r <= k) by (nonlinear_arith)
        requires
            2 * z + t == (2 * t) * r + q,
            0 <= q < 2 * t,
            0 <= z <= k * t,
            t > 0,
    ;
    if p.negative() {
        assert(r == 0) by (nonlinear_arith)
            requires
                2 * z + t == (2 * t) * r + q,
                0 <= q < 2 * t,
                z == 0,
                t > 0,
        ;
    }
}

/// Whether a value is zero or a positive number: no infinity, and with a sign only as a zero.
pub open spec fn plain(v: Value) -> bool {
    !v.is_nan() && !infinite(v) && (v.negative() ==> size(v) == 0)
}

/// A product of two such values is at most what stands above the exact product.
pub proof fn lemma_product_at_most(a: Value, b: Value, w: int)
    requires
        plain(a),
        plain(b),
        0 <= w < INFINITE,
        size(a) * size(b) <= unit() * magnitude_units(w),
    ensures
        plain(product(a, b)),
        product(a, b).magnitude() <= w,
        size(product(a, b)) <= magnitude_units(w),
        product(a, b).negative() == (a.negative() != b.negative()),
{
    let t = unit();
    lemma_pow2_pos(149);
    let n = size(a) * size(b);
    lemma_nearest_exists(n, t);
    lemma_exact(w, t * magnitude_units(w), t);
    lemma_nearest_monotone(n, t * magnitude_units(w), t);
    let m = nearest(n, t);
    lemma_units_order(w, m);
    if size(a) == 0 || size(b) == 0 {
        assert(n == 0) by (nonlinear_arith)
            requires
                n == size(a) * size(b),
                size(a) == 0 || size(b) == 0,
        ;
        assert(t * 0 == 0 && magnitude_units(0) == 0);
        lemma_exact(0, 0, t);
    }
}

proof fn lemma_zero()
    ensures
        number(0) == (Value { bits: 0 }),
        magnitude_units(0) == 0,
        size(number(0)) == 0,
{
    lemma_whole(0);
    assert(0 * unit() == 0);
    lemma_units_order(number(0).magnitude(), 0);
}

/// The numbers that `i32` counts are finite, and only zero is zero.
proof fn lemma_number(n: int)
    requires
        i32::MIN <= n <= i32::MAX,
    ensures
        !number(n).is_nan(),
        !infinite(number(n)),
        number(n).magnitude() == 0 <==> n == 0,
        number(n).negative() == (n < 0),
        n != 0 ==> size(number(n)) >= unit(),
        size(number(n)) <= 0x8000_0000 * unit(),
{
    let t = unit();
    let h = HIDDEN as int;
    lemma_pow2_pos(149);
    lemma_zero();
    lemma_whole(1);
    assert(0 * t == 0);
    let a = absolute(n);
    lemma_nearest_exists(a * t, 1);
    if a > 0 {
        assert(1 * t <= a * t) by (nonlinear_arith)
            requires
                1 <= a,
                t > 0,
        ;
        lemma_nearest_monotone(1 * t, a * t, 1);
        assert(magnitude_units(0) == 0);
        assert(number(1).magnitude() > 0);
        lemma_units_order(number(1).magnitude(), nearest(a * t, 1));
    }
    let top = 158 * h;
    assert(top / h == 158 && top % h == 0);
    lemma_pow2_adds(23, 157);
    lemma_pow2_adds(31, 149);
    vstd::arithmetic::power2::lemma2_to64();
    lemma_exact(top, 0x8000_0000 * t, 1);
    assert(a * t <= 0x8000_0000 * t) by (nonlinear_arith)
        requires
            a <= 0x8000_0000,
            t > 0,
    ;
    lemma_nearest_monotone(a * t, 0x8000_0000 * t, 1);
    lemma_units_order(nearest(a * t, 1), top);
    assert(-n * t == -(n * t)) by (nonlinear_arith);
}

/// The volume of `n` hundredths.
pub open spec fn hundredths(n: int) -> Value {
    quotient(number(n), number(100))
}

/// A number of hundredths is rounded to itself, and the quotient is at most the highest volume.
proof fn lemma_hundredths(p: Value)
    requires
        plain(p),
        size(p) <= 150 * unit(),
    ensures
        plain(quotient(rounded_value(p), number(100))),
        size(quotient(rounded_value(p), number(100))) <= size(highest()),
        size(p) == 0 ==> quotient(rounded_value(p), number(100)).magnitude() == 0,
        size(p) == 150 * unit() ==> quotient(rounded_value(p), number(100)).magnitude() == HIGHEST,
        quotient(rounded_value(p), number(100)).negative() == p.negative(),
        !p.negative() ==> exists|n: int|
            0 <= n <= 150 && quotient(rounded_value(p), number(100)) == #[trigger] hundredths(n),
{
    let t = unit();
    let z = size(p);
    lemma_pow2_pos(149);
    lemma_units_nonnegative(p.magnitude());
    vstd::arithmetic::div_mod::lemma_fundamental_div_mod(2 * z + t, 2 * t);
    let r = (2 * z + t) / (2 * t);
    let q = (2 * z + t) % (2 * t);
    assert(0 <= r <= 150 && (z == 0 ==> r == 0) && (z == 150 * t ==> r == 150)) by (nonlinear_arith)
        requires
            2 * z + t == (2 * t) * r + q,
            0 <= q < 2 * t,
            0 <= z <= 150 * t,
            t > 0,
    ;
    assert(absolute(rounded_away(p)) == r);
    lemma_whole(r);
    lemma_whole(100);
    lemma_top();
    let v = rounded_value(p);
    assert(v.magnitude() == number(r).magnitude());
    assert(size(v) == r * t);
    if !p.negative() {
        assert(quotient(v, number(100)) == hundredths(r));
    }
    assert(!infinite(v)) by {
        assert(r * t < 0x200_0000 * t) by (nonlinear_arith)
            requires
                r <= 150,
                t > 0,
        ;
    }
    lemma_highest();
    let s = size(highest());
    let d = 100 * t;
    let n = (r * t) * t;
    assert(d * s == (150 * t) * t) by (nonlinear_arith)
        requires
            2 * s == 3 * t,
            d == 100 * t,
    ;
    lemma_exact(HIGHEST as int, (150 * t) * t, d);
    assert(n <= (150 * t) * t && (r == 0 ==> n == 0)) by (nonlinear_arith)
        requires
            n == (r * t) * t,
            0 <= r <= 150,
            t > 0,
    ;
    lemma_nearest_exists(n, d);
    lemma_nearest_monotone(n, (150 * t) * t, d);
    lemma_units_order(HIGHEST as int, nearest(n, d));
    if r == 0 {
        assert(d * 0 == 0 && magnitude_units(0) == 0);
        lemma_exact(0, 0, d);
    }
}

/// The volume of `n` hundredths is close to the exact one.
proof fn lemma_near_hundredths(n: int)
    requires
        1 <= n <= 150,
    ensures
        plain(hundredths(n)),
        !hundredths(n).negative(),
        -unit() <= 8 * (100 * size(hundredths(n)) - n * unit()) <= unit(),
{
    let t = unit();
    let h = HIDDEN as int;
    lemma_pow2_pos(149);
    vstd::arithmetic::power2::lemma2_to64();
    lemma_pow2_adds(32, 117);
    lemma_pow2_pos(117);
    lemma_whole(n);
    lemma_whole(100);
    lemma_top();
    let m = nearest((n * t) * t, 100 * t);
    let z = magnitude_units(m);
    lemma_nearest_exists((n * t) * t, 100 * t);
    lemma_units_nonnegative(m);
    assert(n * t > 0 && t <= n * t <= 150 * t) by (nonlinear_arith)
        requires
            1 <= n <= 150,
            t > 0,
    ;
    lemma_zero();
    if m > 0 {
        let u = magnitude_units(m - 1);
        lemma_units_nonnegative(m - 1);
        assert(100 * (u + z) <= 2 * (n * t)) by (nonlinear_arith)
            requires
                (100 * t) * (u + z) <= 2 * ((n * t) * t),
                t > 0,
        ;
    }
    assert(m < INFINITE);
    let v = magnitude_units(m + 1);
    assert(2 * (n * t) <= 100 * (z + v)) by (nonlinear_arith)
        requires
            2 * ((n * t) * t) <= (100 * t) * (z + v),
            t > 0,
    ;
    if m <= h {
        assert(h / h == 1 && h % h == 0 && (h + 1) / h == 1 && (h + 1) % h == 1);
        assert((h + 0) * pow2(0) == h && (h + 1) * pow2(0) == h + 1) by (nonlinear_arith)
            requires
                pow2(0) == 1,
        ;
        lemma_units_order(m + 1, h + 1);
        lemma_units_order(m, h);
    }
    lemma_gap(m);
    lemma_gap(m - 1);
    lemma_units_increase(m - 1, m);
}

/// A volume of whole hundredths is that many hundredths again when it is taken in percent.
pub proof fn lemma_percent_again(n: int)
    requires
        0 <= n <= 150,
    ensures
        rounded_away(product(hundredths(n), number(100))) == n,
{
    let t = unit();
    lemma_pow2_pos(149);
    lemma_whole(n);
    lemma_whole(100);
    lemma_top();
    lemma_zero();
    let q = hundredths(n);
    if n == 0 {
        assert(0 * t == 0 && (100 * t) * 0 == 0 && 0 * (100 * t) == 0 && t * 0 == 0);
        lemma_exact(0, 0, 100 * t);
        lemma_exact(0, 0, t);
        assert(t / (2 * t) == 0) by (nonlinear_arith)
            requires
                t > 0,
        ;
        return;
    }
    lemma_near_hundredths(n);
    let x = 100 * size(q);
    assert(size(q) * (100 * t) == t * x) by (nonlinear_arith)
        requires
            x == 100 * size(q),
    ;
    assert(t <= n * t <= 150 * t) by (nonlinear_arith)
        requires
            1 <= n <= 150,
            t > 0,
    ;
    let m = nearest(t * x, t);
    lemma_nearest_exists(t * x, t);
    lemma_near(m, x);
    let p = product(q, number(100));
    assert(p.magnitude() == m && !p.negative());
    let z = magnitude_units(m);
    vstd::arithmetic::div_mod::lemma_fundamental_div_mod(2 * z + t, 2 * t);
    let r = (2 * z + t) / (2 * t);
    let rest = (2 * z + t) % (2 * t);
    assert(r == n) by (nonlinear_arith)
        requires
            2 * z + t == (2 * t) * r + rest,
            0 <= rest < 2 * t,
            -t <= 2 * (z - n * t) < t,
            t > 0,
    ;
}

/// A row of a track that is not empty has a volume from zero to one and a half.
pub proof fn law_volume_in_range(y: int, top: int, bottom: int)
    requires
        i32::MIN <= bottom - y <= i32::MAX,
        i32::MIN <= bottom - top <= i32::MAX,
        bottom != top,
    ensures
        !volume_at(y, top, bottom).is_nan(),
        0 <= 2 * volume_at(y, top, bottom).scaled() <= 3 * unit(),
{
    let a = number(bottom - y);
    let b = number(bottom - top);
    lemma_number(bottom - y);
    lemma_number(bottom - top);
    let v = quotient(a, b);
    lemma_units_increase(0, b.magnitude());
    assert(magnitude_units(0) == 0);
    lemma_nearest_exists(size(a) * unit(), size(b));
    assert(!v.is_nan());
    lemma_part(v);
    lemma_volume(bounded(v, number(0), number(1)));
    let r = volume_at(y, top, bottom);
    lemma_units_nonnegative(r.magnitude());
    lemma_highest();
}

/// The volume at a row of a track that is not upside down is one of whole percent.
pub proof fn law_volume_is_whole_percent(y: int, top: int, bottom: int)
    requires
        i32::MIN <= bottom - y <= i32::MAX,
        top < bottom,
        bottom - top <= i32::MAX,
    ensures
        exists|n: int| 0 <= n <= 150 && volume_at(y, top, bottom) == #[trigger] hundredths(n),
{
    lemma_part_below(y, top, bottom);
    lemma_volume(part_below(y, top, bottom));
}

proof fn lemma_volume(f: Value)
    requires
        plain(f),
        size(f) <= unit(),
    ensures
        ({
            let r = volume_of_part(f);
            &&& plain(r)
            &&& size(r) <= size(highest())
            &&& size(f) == 0 ==> r.magnitude() == 0
            &&& size(f) == unit() ==> r == highest()
            &&& !f.negative() ==> !r.negative() && exists|n: int|
                0 <= n <= 150 && r == #[trigger] hundredths(n)
        }),
{
    let t = unit();
    lemma_pow2_pos(149);
    lemma_highest();
    lemma_units_nonnegative(f.magnitude());
    let s = size(highest());
    assert(size(f) * s <= t * s) by (nonlinear_arith)
        requires
            size(f) <= t,
            s >= 0,
    ;
    lemma_product_at_most(f, highest(), HIGHEST as int);
    let p = product(f, highest());
    lemma_whole(100);
    lemma_whole(150);
    lemma_top();
    let w = number(150).magnitude();
    assert(size(p) * (100 * t) <= t * (150 * t)) by (nonlinear_arith)
        requires
            size(p) <= s,
            2 * s == 3 * t,
            t > 0,
    ;
    lemma_product_at_most(p, number(100), w);
    let v = product(p, number(100));
    if size(f) == 0 {
        assert(0 * s == 0 && t * 0 == 0 && magnitude_units(0) == 0);
        lemma_exact(0, 0, t);
        assert(p.magnitude() == 0);
        assert(0 * (100 * t) == 0);
        assert(v.magnitude() == 0);
    }
    if size(f) == t {
        lemma_exact(HIGHEST as int, t * s, t);
        assert(p == highest());
        assert(s * (100 * t) == t * (150 * t)) by (nonlinear_arith)
            requires
                2 * s == 3 * t,
        ;
        lemma_exact(w, t * (150 * t), t);
        assert(v.magnitude() == w);
        assert(!v.negative());
    }
    lemma_hundredths(v);
}

/// The ends of a track are the volumes zero and one and a half, and these two volumes
/// lie at its ends.
pub proof fn law_track_ends(top: int, bottom: int)
    requires
        top < bottom,
        bottom - top < 0x100_0000,
    ensures
        volume_at(bottom, top, bottom) == number(0),
        volume_at(top, top, bottom) == highest(),
        row_of(number(0), top, bottom) == bottom,
        row_of(highest(), top, bottom) == top,
{
    let t = unit();
    let span = bottom - top;
    let n = number(span);
    lemma_pow2_pos(149);
    lemma_number(span);
    lemma_whole(span);
    lemma_zero();
    lemma_whole(1);
    lemma_highest();
    assert(0 * t == 0 && 1 * t == t && magnitude_units(0) == 0);
    let one = number(1).magnitude();
    lemma_units_increase(0, n.magnitude());
    // The part below the lower end is zero, the part below the upper end is one.
    let d = size(n);
    assert(0 * t == 0 && d * 0 == 0);
    lemma_exact(0, 0, d);
    lemma_exact(one, d * t, d);
    assert(part_below(bottom, top, bottom) == number(0));
    assert(part_below(top, top, bottom) == number(1));
    lemma_top();
    lemma_volume(number(0));
    lemma_volume(number(1));
    // The volume zero is no part of the highest one, and that is one of itself.
    let s = size(highest());
    assert(s * 0 == 0);
    lemma_exact(0, 0, s);
    lemma_exact(one, s * t, s);
    assert(fraction_of(number(0)) == number(0));
    assert(fraction_of(highest()) == number(1));
    assert((span * t) * 0 == 0 && t * 0 == 0);
    lemma_exact(0, 0, t);
    assert((span * t) * t == t * (span * t)) by (nonlinear_arith);
    lemma_exact(n.magnitude(), t * (span * t), t);
    assert(product(n, number(1)) == n);
    lemma_round_whole(span);
    lemma_round_whole(0);
}

proof fn lemma_round_whole(n: int)
    requires
        0 <= n < 0x100_0000,
    ensures
        rounded_away(number(n)) == n,
{
    let t = unit();
    lemma_pow2_pos(149);
    lemma_whole(n);
    assert(2 * (n * t) + t == (2 * t) * n + t) by (nonlinear_arith);
    vstd::arithmetic::div_mod::lemma_fundamental_div_mod_converse(
        2 * (n * t) + t,
        2 * t,
        n,
        t,
    );
}

/// A magnitude that is rounded to is close to what was rounded: the error is at most a part of
/// two to the 24th of the magnitude and one together.
proof fn lemma_error(n: int, d: int)
    requires
        d > 0,
        n >= 0,
        nearest(n, d) < INFINITE,
    ensures
        -(d * (magnitude_units(nearest(n, d)) + unit())) <= 0x100_0000 * (d * magnitude_units(
            nearest(n, d),
        ) - n) <= d * (magnitude_units(nearest(n, d)) + unit()),
{
    let t = unit();
    let h = HIDDEN as int;
    let m = nearest(n, d);
    let z = magnitude_units(m);
    let v = magnitude_units(m + 1);
    lemma_nearest_exists(n, d);
    lemma_pow2_pos(149);
    vstd::arithmetic::power2::lemma2_to64();
    lemma_pow2_adds(32, 117);
    lemma_pow2_pos(117);
    lemma_units_nonnegative(m);
    if m < h {
        assert(m / h == 0 && m % h == m);
        if m + 1 < h {
            assert((m + 1) / h == 0 && (m + 1) % h == m + 1);
        } else {
            assert(h / h == 1 && h % h == 0);
            assert((h + 0) * pow2(0) == h) by (nonlinear_arith)
                requires
                    pow2(0) == 1,
            ;
        }
    } else {
        lemma_gap(m);
    }
    assert(h * (v - z) <= z + t);
    assert(-(d * (z + t)) <= 0x100_0000 * (d * z - n)) by (nonlinear_arith)
        requires
            2 * n <= d * (z + v),
            h * (v - z) <= z + t,
            h == 0x80_0000,
            d > 0,
    ;
    if m > 0 {
        let u = magnitude_units(m - 1);
        if m <= h {
            assert((m - 1) / h == 0 && (m - 1) % h == m - 1);
            if m == h {
                assert(h / h == 1 && h % h == 0);
                assert((h + 0) * pow2(0) == h) by (nonlinear_arith)
                    requires
                        pow2(0) == 1,
                ;
            }
        } else {
            lemma_gap(m - 1);
            lemma_units_increase(m - 1, m);
        }
        assert(h * (z - u) <= z + t);
        assert(0x100_0000 * (d * z - n) <= d * (z + t)) by (nonlinear_arith)
            requires
                d * (u + z) <= 2 * n,
                h * (z - u) <= z + t,
                h == 0x80_0000,
                d > 0,
        ;
    } else {
        assert(magnitude_units(0) == 0);
        assert(d * z == 0 && d * (z + t) >= 0) by (nonlinear_arith)
            requires
                z == 0,
                d > 0,
                t > 0,
        ;
    }
}

/// How far a rounded value is from what was rounded.
proof fn lemma_round_error(p: Value)
    requires
        plain(p),
    ensures
        rounded_away(p) >= 0,
        absolute(rounded_away(p)) == rounded_away(p),
        -unit() <= 2 * (rounded_away(p) * unit() - size(p)) <= unit(),
{
    let t = unit();
    let z = size(p);
    lemma_pow2_pos(149);
    lemma_units_nonnegative(p.magnitude());
    vstd::arithmetic::div_mod::lemma_fundamental_div_mod(2 * z + t, 2 * t);
    let r = (2 * z + t) / (2 * t);
    let q = (2 * z + t) % (2 * t);
    assert(r >= 0 && (z == 0 ==> r == 0)) by (nonlinear_arith)
        requires
            2 * z + t == (2 * t) * r + q,
            0 <= q < 2 * t,
            z >= 0,
            t > 0,
    ;
    assert((2 * t) * r == 2 * (r * t)) by (nonlinear_arith);
}

/// The two products on the way from a part of the track to its volume.
proof fn lemma_products(f: Value)
    requires
        plain(f),
        !f.negative(),
        size(f) <= unit(),
    ensures
        ({
            let a = product(f, highest());
            let b = product(a, number(100));
            &&& plain(a) && !a.negative()
            &&& 2 * size(a) <= 3 * unit()
            &&& plain(b) && !b.negative()
            &&& size(b) <= 150 * unit()
            &&& a.magnitude() == nearest(size(f) * size(highest()), unit())
            &&& b.magnitude() == nearest(size(a) * (100 * unit()), unit())
        }),
{
    let t = unit();
    lemma_pow2_pos(149);
    lemma_highest();
    lemma_units_nonnegative(f.magnitude());
    let s = size(highest());
    assert(size(f) * s <= t * s) by (nonlinear_arith)
        requires
            size(f) <= t,
            s >= 0,
    ;
    lemma_product_at_most(f, highest(), HIGHEST as int);
    let a = product(f, highest());
    lemma_whole(100);
    lemma_whole(150);
    lemma_top();
    assert(size(a) * (100 * t) <= t * (150 * t)) by (nonlinear_arith)
        requires
            2 * size(a) <= 3 * t,
            t > 0,
    ;
    lemma_product_at_most(a, number(100), number(150).magnitude());
    lemma_nearest_exists(size(f) * s, t);
    lemma_nearest_exists(size(a) * (100 * t), t);
}

/// The volume of a part of the track comes from a whole number of hundredths.
proof fn lemma_volume_steps(f: Value)
    requires
        plain(f),
        !f.negative(),
        size(f) <= unit(),
    ensures
        ({
            let k = rounded_away(product(product(f, highest()), number(100)));
            &&& 0 <= k <= 150
            &&& volume_of_part(f) == hundredths(k)
            &&& plain(volume_of_part(f)) && !volume_of_part(f).negative()
            &&& size(volume_of_part(f)) <= size(highest())
            &&& volume_of_part(f).magnitude() == nearest((k * unit()) * unit(), 100 * unit())
        }),
{
    let t = unit();
    lemma_pow2_pos(149);
    lemma_products(f);
    lemma_volume(f);
    let b = product(product(f, highest()), number(100));
    let k = rounded_away(b);
    lemma_round_error(b);
    assert(k <= 150) by (nonlinear_arith)
        requires
            2 * (k * t - size(b)) <= t,
            size(b) <= 150 * t,
            t > 0,
    ;
    lemma_whole(k);
    lemma_whole(100);
    lemma_top();
    assert(k * t < 0x200_0000 * t) by (nonlinear_arith)
        requires
            k <= 150,
            t > 0,
    ;
    assert(rounded_value(b) == number(k));
    lemma_nearest_exists((k * t) * t, 100 * t);
}

/// A larger part of the track has no smaller volume.
proof fn lemma_volume_grows(f: Value, g: Value)
    requires
        plain(f),
        plain(g),
        !f.negative(),
        !g.negative(),
        size(f) <= size(g) <= unit(),
    ensures
        size(volume_of_part(f)) <= size(volume_of_part(g)),
{
    let t = unit();
    let s = size(highest());
    lemma_pow2_pos(149);
    lemma_highest();
    lemma_products(f);
    lemma_products(g);
    lemma_volume_steps(f);
    lemma_volume_steps(g);
    let (a, c) = (product(f, highest()), product(g, highest()));
    assert(size(f) * s <= size(g) * s) by (nonlinear_arith)
        requires
            size(f) <= size(g),
            s >= 0,
    ;
    lemma_nearest_monotone(size(f) * s, size(g) * s, t);
    lemma_units_order(c.magnitude(), a.magnitude());
    let (b, d) = (product(a, number(100)), product(c, number(100)));
    assert(size(a) * (100 * t) <= size(c) * (100 * t)) by (nonlinear_arith)
        requires
            size(a) <= size(c),
            t > 0,
    ;
    lemma_nearest_monotone(size(a) * (100 * t), size(c) * (100 * t), t);
    lemma_units_order(d.magnitude(), b.magnitude());
    let (k, l) = (rounded_away(b), rounded_away(d));
    vstd::arithmetic::div_mod::lemma_div_is_ordered(2 * size(b) + t, 2 * size(d) + t, 2 * t);
    assert(k <= l);
    assert((k * t) * t <= (l * t) * t) by (nonlinear_arith)
        requires
            k <= l,
            t > 0,
    ;
    lemma_nearest_monotone((k * t) * t, (l * t) * t, 100 * t);
    lemma_units_order(volume_of_part(g).magnitude(), volume_of_part(f).magnitude());
}

/// The part of a track below one of its rows, or below a row beyond its ends.
proof fn lemma_part_below(y: int, top: int, bottom: int)
    requires
        i32::MIN <= bottom - y <= i32::MAX,
        top < bottom,
        bottom - top <= i32::MAX,
    ensures
        plain(part_below(y, top, bottom)),
        !part_below(y, top, bottom).negative(),
        size(part_below(y, top, bottom)) <= unit(),
        y <= top ==> part_below(y, top, bottom) == number(1),
        y >= bottom ==> part_below(y, top, bottom) == number(0),
        top <= y <= bottom ==> part_below(y, top, bottom).magnitude() == nearest(
            size(number(bottom - y)) * unit(),
            size(number(bottom - top)),
        ),
{
    let t = unit();
    let a = number(bottom - y);
    let b = number(bottom - top);
    lemma_number(bottom - y);
    lemma_number(bottom - top);
    lemma_pow2_pos(149);
    lemma_zero();
    lemma_whole(0);
    lemma_whole(1);
    assert(1 * t == t && 0 * t == 0);
    lemma_top();
    let v = quotient(a, b);
    let d = size(b);
    let n = size(a) * t;
    let one = number(1).magnitude();
    lemma_units_nonnegative(a.magnitude());
    lemma_nearest_exists(n, d);
    lemma_units_nonnegative(nearest(n, d));
    lemma_part(v);
    lemma_exact(one, d * t, d);
    if a.negative() {
        vstd::arithmetic::power2::lemma2_to64();
        lemma_pow2_adds(32, 117);
        lemma_pow2_pos(117);
        assert(magnitude_units(1) == 1);
        lemma_exact(1, d * 1, d);
        assert(d * 1 <= n) by (nonlinear_arith)
            requires
                d <= 0x8000_0000 * t,
                0x8000_0000 <= t,
                n == size(a) * t,
                size(a) >= t,
        ;
        lemma_nearest_monotone(d * 1, n, d);
        lemma_units_increase(0, v.magnitude());
        assert(v.scaled() < 0);
    } else {
        assert(v.magnitude() == nearest(n, d) && !v.negative());
        if y == bottom {
            assert(size(a) == 0);
            assert(0 * t == 0 && d * 0 == 0);
            lemma_exact(0, 0, d);
        }
        if y <= top {
            lemma_number_grows(bottom - top, bottom - y);
            assert(d * t <= n) by (nonlinear_arith)
                requires
                    d <= size(a),
                    n == size(a) * t,
                    t > 0,
            ;
            lemma_nearest_monotone(d * t, n, d);
            lemma_units_order(v.magnitude(), one);
        }
        if y >= top {
            lemma_number_grows(bottom - y, bottom - top);
            assert(n <= d * t) by (nonlinear_arith)
                requires
                    size(a) <= d,
                    n == size(a) * t,
                    t > 0,
            ;
            lemma_nearest_monotone(n, d * t, d);
            lemma_units_order(one, v.magnitude());
        }
    }
}

/// A larger whole number is no smaller a value.
proof fn lemma_number_grows(n: int, k: int)
    requires
        0 <= n <= k,
    ensures
        size(number(n)) <= size(number(k)),
{
    let t = unit();
    lemma_pow2_pos(149);
    assert(n * t <= k * t) by (nonlinear_arith)
        requires
            n <= k,
            t > 0,
    ;
    lemma_nearest_exists(n * t, 1);
    lemma_nearest_exists(k * t, 1);
    lemma_nearest_monotone(n * t, k * t, 1);
    lemma_units_order(number(k).magnitude(), number(n).magnitude());
}

/// The further down a row lies, the smaller the part of the track below it.
proof fn lemma_part_falls(upper: int, lower: int, top: int, bottom: int)
    requires
        upper <= lower,
        i32::MIN <= bottom - lower,
        bottom - upper <= i32::MAX,
        top < bottom,
        bottom - top <= i32::MAX,
    ensures
        size(part_below(lower, top, bottom)) <= size(part_below(upper, top, bottom)),
{
    let t = unit();
    let f = part_below(lower, top, bottom);
    let g = part_below(upper, top, bottom);
    lemma_pow2_pos(149);
    lemma_part_below(lower, top, bottom);
    lemma_part_below(upper, top, bottom);
    lemma_zero();
    lemma_whole(1);
    assert(1 * t == t);
    lemma_units_nonnegative(g.magnitude());
    if top < upper && lower < bottom {
        let d = size(number(bottom - top));
        lemma_number(bottom - top);
        lemma_number_grows(bottom - lower, bottom - upper);
        let (n, k) = (size(number(bottom - lower)) * t, size(number(bottom - upper)) * t);
        assert(n <= k) by (nonlinear_arith)
            requires
                n == size(number(bottom - lower)) * t,
                k == size(number(bottom - upper)) * t,
                size(number(bottom - lower)) <= size(number(bottom - upper)),
                t > 0,
        ;
        lemma_nearest_exists(n, d);
        lemma_nearest_exists(k, d);
        lemma_nearest_monotone(n, k, d);
        lemma_units_order(g.magnitude(), f.magnitude());
    }
}

/// The further down a row lies, the lower its volume; above the track the volume is the
/// highest one, and below the track it is zero.
#[verifier::spinoff_prover]
#[verifier::rlimit(50)]
pub proof fn law_volume_falls(upper: int, lower: int, top: int, bottom: int)
    requires
        upper <= lower,
        i32::MIN <= bottom - lower,
        bottom - upper <= i32::MAX,
        top < bottom,
        bottom - top <= i32::MAX,
    ensures
        !volume_at(upper, top, bottom).is_nan(),
        !volume_at(lower, top, bottom).is_nan(),
        volume_at(upper, top, bottom).scaled() >= volume_at(lower, top, bottom).scaled(),
        upper <= top ==> volume_at(upper, top, bottom) == highest(),
        lower >= bottom ==> volume_at(lower, top, bottom) == number(0),
{
    let f = part_below(lower, top, bottom);
    let g = part_below(upper, top, bottom);
    lemma_part_below(lower, top, bottom);
    lemma_part_below(upper, top, bottom);
    lemma_part_falls(upper, lower, top, bottom);
    lemma_volume(f);
    lemma_volume(g);
    lemma_volume_grows(f, g);
    lemma_zero();
    lemma_whole(1);
    assert(1 * unit() == unit());
}

/// How far the volume of a part of the track is from the exact one: by half a hundredth, and a
/// little more for what is rounded on the way.
#[verifier::spinoff_prover]
#[verifier::rlimit(50)]
proof fn lemma_volume_error(f: Value)
    requires
        plain(f),
        !f.negative(),
        size(f) <= unit(),
    ensures
        -16_778_518 * unit() <= 0x100_0000 * (200 * size(volume_of_part(f)) - 300 * size(
            f,
        )) <= 16_778_518 * unit(),
{
    let t = unit();
    let s = size(highest());
    lemma_pow2_pos(149);
    lemma_highest();
    lemma_top();
    lemma_products(f);
    lemma_volume_steps(f);
    let a = product(f, highest());
    let b = product(a, number(100));
    let k = rounded_away(b);
    let g = size(f);
    let (x, y, z) = (size(a), size(b), size(volume_of_part(f)));
    lemma_units_nonnegative(f.magnitude());
    lemma_units_nonnegative(a.magnitude());
    assert(g * s >= 0 && x * (100 * t) >= 0) by (nonlinear_arith)
        requires
            g >= 0,
            s >= 0,
            x >= 0,
            t > 0,
    ;
    lemma_error(g * s, t);
    assert(-5 * t <= 0x100_0000 * (2 * x - 3 * g) <= 5 * t) by (nonlinear_arith)
        requires
            -(t * (x + t)) <= 0x100_0000 * (t * x - g * s) <= t * (x + t),
            2 * s == 3 * t,
            2 * x <= 3 * t,
            t > 0,
    ;
    lemma_error(x * (100 * t), t);
    assert(-151 * t <= 0x100_0000 * (y - 100 * x) <= 151 * t) by (nonlinear_arith)
        requires
            -(t * (y + t)) <= 0x100_0000 * (t * y - x * (100 * t)) <= t * (y + t),
            y <= 150 * t,
            t > 0,
    ;
    lemma_round_error(b);
    assert((k * t) * t >= 0) by (nonlinear_arith)
        requires
            k >= 0,
            t > 0,
    ;
    lemma_error((k * t) * t, 100 * t);
    let c = k * t;
    assert(-250 * t <= 0x100_0000 * (100 * z - c) <= 250 * t) by (nonlinear_arith)
        requires
            -((100 * t) * (z + t)) <= 0x100_0000 * ((100 * t) * z - c * t) <= (100 * t) * (z + t),
            2 * z <= 3 * t,
            t > 0,
    ;
}

/// How far the filled part of the track is from the exact one.
#[verifier::spinoff_prover]
#[verifier::rlimit(50)]
proof fn lemma_fraction_error(v: Value)
    requires
        plain(v),
        2 * size(v) <= 3 * unit(),
    ensures
        plain(fraction_of(v)),
        size(fraction_of(v)) <= unit(),
        -6 * unit() <= 0x100_0000 * (3 * size(fraction_of(v)) - 2 * size(v)) <= 6 * unit(),
{
    let t = unit();
    let s = size(highest());
    let n = size(v) * t;
    lemma_pow2_pos(149);
    lemma_highest();
    lemma_top();
    lemma_zero();
    lemma_whole(0);
    lemma_whole(1);
    assert(1 * t == t && 0 * t == 0);
    lemma_units_nonnegative(v.magnitude());
    let q = quotient(v, highest());
    let one = number(1).magnitude();
    lemma_nearest_exists(n, s);
    lemma_exact(one, s * t, s);
    assert(0 <= n <= s * t) by (nonlinear_arith)
        requires
            n == size(v) * t,
            0 <= 2 * size(v) <= 3 * t,
            2 * s == 3 * t,
            t > 0,
    ;
    lemma_nearest_monotone(n, s * t, s);
    lemma_units_order(one, nearest(n, s));
    assert(q.magnitude() == nearest(n, s) && q.negative() == v.negative());
    if v.negative() {
        assert(0 * t == 0 && s * 0 == 0);
        lemma_exact(0, 0, s);
    }
    lemma_units_nonnegative(q.magnitude());
    assert(fraction_of(v) == q);
    lemma_error(n, s);
    let f = size(q);
    assert(-6 * t <= 0x100_0000 * (3 * f - 2 * size(v)) <= 6 * t) by (nonlinear_arith)
        requires
            -(s * (f + t)) <= 0x100_0000 * (s * f - n) <= s * (f + t),
            n == size(v) * t,
            2 * s == 3 * t,
            f <= t,
            t > 0,
    ;
}

/// How far the number of filled rows is from the exact one.
#[verifier::spinoff_prover]
#[verifier::rlimit(50)]
proof fn lemma_rows_error(v: Value, span: int)
    requires
        plain(v),
        2 * size(v) <= 3 * unit(),
        1 <= span <= 10_000,
    ensures
        0 <= filled(v, span) <= span,
        -(0x80_0000 * unit() + 2 * (span * unit())) <= 0x100_0000 * (filled(v, span) * unit() - span
            * size(fraction_of(v))) <= 0x80_0000 * unit() + 2 * (span * unit()),
{
    let t = unit();
    let f = fraction_of(v);
    let a = size(f);
    lemma_pow2_pos(149);
    lemma_fraction_error(v);
    lemma_filled(v, span);
    lemma_units_nonnegative(f.magnitude());
    assert(0 <= span * a <= span * t) by (nonlinear_arith)
        requires
            0 <= a <= t,
            span > 0,
    ;
    lemma_product_below(span, f, span);
    lemma_whole(span);
    let p = product(number(span), f);
    let z = size(p);
    let n = (span * t) * a;
    assert(n == t * (span * a) && n >= 0) by (nonlinear_arith)
        requires
            n == (span * t) * a,
            a >= 0,
            span > 0,
            t > 0,
    ;
    lemma_nearest_exists(n, t);
    assert(p.magnitude() == nearest(n, t));
    lemma_error(n, t);
    let x = span * a;
    assert(-(z + t) <= 0x100_0000 * (z - x) <= z + t) by (nonlinear_arith)
        requires
            -(t * (z + t)) <= 0x100_0000 * (t * z - n) <= t * (z + t),
            n == t * x,
            t > 0,
    ;
    assert(t <= span * t) by (nonlinear_arith)
        requires
            span >= 1,
            t > 0,
    ;
    lemma_round_error(p);
    assert(filled(v, span) == rounded_away(p));
}

/// How far the part below a row is from the exact one.
#[verifier::spinoff_prover]
#[verifier::rlimit(50)]
proof fn lemma_part_error(r: int, top: int, bottom: int)
    requires
        0 < bottom - top <= 10_000,
        0 <= r <= bottom - top,
    ensures
        ({
            let g = part_below(bottom - r, top, bottom);
            &&& plain(g) && !g.negative() && size(g) <= unit()
            &&& -2 * ((bottom - top) * unit()) <= 0x100_0000 * ((bottom - top) * size(g) - r
                * unit()) <= 2 * ((bottom - top) * unit())
        }),
{
    let t = unit();
    let span = bottom - top;
    lemma_pow2_pos(149);
    lemma_top();
    lemma_part_below(bottom - r, top, bottom);
    lemma_whole(r);
    lemma_whole(span);
    let g = size(part_below(bottom - r, top, bottom));
    let n = (r * t) * t;
    let d = span * t;
    assert(n >= 0 && d > 0) by (nonlinear_arith)
        requires
            n == (r * t) * t,
            d == span * t,
            r >= 0,
            span > 0,
            t > 0,
    ;
    lemma_error(n, d);
    let x = span * g;
    let c = r * t;
    assert(-2 * d <= 0x100_0000 * (x - c) <= 2 * d) by (nonlinear_arith)
        requires
            -(d * (g + t)) <= 0x100_0000 * (d * g - n) <= d * (g + t),
            d == span * t,
            n == c * t,
            x == span * g,
            g <= t,
            span > 0,
            t > 0,
    ;
}

/// The volume at the row where a volume is shown is that volume again, up to half a row and
/// half a percent: the two differ by no more than three quarters of a row's share of the
/// track and 51 parts of ten thousand.
#[verifier::spinoff_prover]
#[verifier::rlimit(50)]
pub proof fn law_row_is_read_back(v: Value, top: int, bottom: int)
    requires
        !v.is_nan(),
        0 <= v.scaled(),
        2 * v.scaled() <= 3 * unit(),
        0 < bottom - top <= 10_000,
    ensures
        ({
            let back = volume_at(row_of(v, top, bottom), top, bottom);
            let most = 7_500 * unit() + 51 * ((bottom - top) * unit());
            &&& !back.is_nan()
            &&& -most <= 10_000 * ((bottom - top) * (back.scaled() - v.scaled())) <= most
        }),
{
    let t = unit();
    let span = bottom - top;
    lemma_pow2_pos(149);
    lemma_top();
    lemma_units_nonnegative(v.magnitude());
    lemma_units_order(v.magnitude(), INFINITE as int);
    assert(plain(v));
    assert(v.scaled() == size(v));
    let r = filled(v, span);
    let f = size(fraction_of(v));
    lemma_fraction_error(v);
    lemma_rows_error(v, span);
    lemma_part_error(r, top, bottom);
    let part = part_below(bottom - r, top, bottom);
    let g = size(part);
    lemma_volume_error(part);
    lemma_volume_steps(part);
    let z = size(volume_of_part(part));
    let s = size(v);
    // Each of the errors, taken as often as the track has rows.
    assert(-(16_778_518 * (span * t)) <= 0x100_0000 * (200 * (span * z) - 300 * (span * g)) <= 16_778_518 * (span
        * t)) by (nonlinear_arith)
        requires
            -16_778_518 * t <= 0x100_0000 * (200 * z - 300 * g) <= 16_778_518 * t,
            span > 0,
    ;
    assert(-6 * (span * t) <= 0x100_0000 * (3 * (span * f) - 2 * (span * s)) <= 6 * (span * t))
        by (nonlinear_arith)
        requires
            -6 * t <= 0x100_0000 * (3 * f - 2 * s) <= 6 * t,
            span > 0,
    ;
    assert(span * (z - s) == span * z - span * s) by (nonlinear_arith);
    assert(span * t > 0) by (nonlinear_arith)
        requires
            span > 0,
            t > 0,
    ;
}

/// At the scale one a logical pixel is a pixel, and the scale is kept between one and three.
pub proof fn law_scale_one_changes_nothing(l: int)
    requires
        0 <= l <= 320,
    ensures
        pixels(l, number(1)) == l,
        is_scale(number(1)),
        2 * size(highest()) == 3 * unit(),
{
    let t = unit();
    lemma_pow2_pos(149);
    lemma_whole(1);
    assert(1 * t == t && 3 * t >= t);
    lemma_pixels(l, number(1));
    lemma_highest();
    let p = pixels(l, number(1));
    assert(p == l) by (nonlinear_arith)
        requires
            -5 * t <= 8 * (p * t - l * t) <= 5 * t,
            t > 0,
    ;
}

} // verus!
