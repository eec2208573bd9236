//! The level meters: the loudest sample of each stretch of sound, a bar that falls slowly,
//! and a mark that holds the last peak.

use crate::arith::absolute;
use crate::arith::bounded;
use crate::arith::law_whole_rounding_is_to_the_nearest;
use crate::arith::lemma_exact;
use crate::arith::lemma_nearest_exists;
use crate::arith::lemma_nearest_monotone;
use crate::arith::lemma_whole;
use crate::arith::nearest;
use crate::arith::negated;
use crate::arith::number;
use crate::arith::product;
use crate::arith::quotient;
use crate::arith::rounded_away;
use crate::arith::size;
use crate::arith::sum;
use crate::canvas::Color;
use crate::scale::lemma_product_at_most;
use crate::scale::lemma_top;
use crate::scale::plain;
use crate::value::clamped;
use crate::value::lemma_units_nonnegative;
use crate::value::lemma_units_order;
use crate::value::magnitude_units;
use crate::value::unit;
use crate::value::Value;
use crate::value::HIDDEN;
use crate::value::INFINITE;
use vstd::arithmetic::power2::lemma_pow2_adds;
use vstd::arithmetic::power2::lemma_pow2_pos;
use vstd::arithmetic::power2::pow2;
use vstd::prelude::*;

verus! {

/// The bit pattern of 94 hundredths: what is kept of a level that falls.
pub const KEEP: u32 = 0x3f70_a3d7;

/// The bit pattern of 6 hundredths: what a falling bar takes of the new level.
pub const TAKE: u32 = 0x3d75_c28f;

/// For how many stretches a peak is held.
pub const HOLD_FRAMES: u32 = 50;

/// How loud the sample is whose two bytes are `low` and `high`.
pub open spec fn loudness(low: u8, high: u8) -> int {
    let n = low + 256 * high;
    if n < 0x8000 {
        n
    } else {
        0x1_0000 - n
    }
}

/// How loud sample `i` is.
pub open spec fn sample(bytes: Seq<u8>, i: int) -> int {
    loudness(bytes[2 * i], bytes[2 * i + 1])
}

/// The loudest of the first `count` samples.
pub open spec fn loudest(bytes: Seq<u8>, count: int) -> int
    decreases count,
{
    if count <= 0 {
        0
    } else {
        let last = sample(bytes, count - 1);
        if last > loudest(bytes, count - 1) {
            last
        } else {
            loudest(bytes, count - 1)
        }
    }
}

/// The loudest sample of a stretch of sound, two bytes each, the lower one first. A single
/// byte at the end is left out.
pub fn peak(bytes: &[u8]) -> (p: i32)
    ensures
        p == loudest(bytes@, bytes@.len() as int / 2),
        0 <= p <= 0x8000,
{
    let mut p: i32 = 0;
    let mut i: usize = 0;
    let len: usize = bytes.len();
    let n: usize = len / 2;
    while i < n
        invariant
            i <= n,
            n == len / 2,
            len == bytes@.len(),
            0 <= p <= 0x8000,
            p == loudest(bytes@, i as int),
        decreases n - i,
    {
        let raw: i32 = bytes[2 * i] as i32 + 256 * bytes[2 * i + 1] as i32;
        let s: i32 = if raw < 0x8000 {
            raw
        } else {
            0x1_0000 - raw
        };
        if s > p {
            p = s;
        }
        i += 1;
    }
    p
}

/// The peak of the first samples is the loudness of one of them, and no sample is louder.
pub proof fn law_peak_is_loudest(bytes: Seq<u8>, count: int, i: int)
    requires
        0 <= i < count,
        2 * count <= bytes.len(),
    ensures
        sample(bytes, i) <= loudest(bytes, count),
        exists|j: int| 0 <= j < count && loudest(bytes, count) == #[trigger] sample(bytes, j),
    decreases count,
{
    if count > 1 {
        if i < count - 1 {
            law_peak_is_loudest(bytes, count - 1, i);
        } else {
            law_peak_is_loudest(bytes, count - 1, 0);
        }
    }
    assert(loudest(bytes, 0) == 0);
    assert(sample(bytes, count - 1) >= 0);
}

/// Whether a value is a level: from zero to one.
pub open spec fn is_level(v: Value) -> bool {
    !v.is_nan() && !v.negative() && size(v) <= unit()
}

/// The level of a peak.
pub open spec fn level_of(peak: int) -> Value {
    quotient(number(peak), number(0x8000))
}

/// A bar that falls towards a level.
pub open spec fn fallen(bar: Value, level: Value) -> Value {
    sum(product(bar, Value { bits: KEEP }), product(level, Value { bits: TAKE }))
}

/// A meter: the bar, the held peak, and for how many stretches it was held.
#[derive(Clone, Copy, Debug, PartialEq, Eq, Structural)]
pub struct Meter {
    pub bar: Value,
    pub hold: Value,
    pub frames: u32,
}

impl Meter {
    /// Whether bar and mark are levels, and the mark is not below the bar.
    pub open spec fn wf(self) -> bool {
        &&& is_level(self.bar)
        &&& is_level(self.hold)
        &&& self.hold.at_least(self.bar)
        &&& self.frames <= HOLD_FRAMES
    }

    /// The bar after a level: it rises at once and falls slowly.
    pub open spec fn next_bar(self, level: Value) -> Value {
        if level.at_least(self.bar) {
            level
        } else {
            fallen(self.bar, level)
        }
    }

    /// The mark after a level, before it is raised to the bar: a new peak is taken at once, held
    /// for a while, and then falls slowly.
    pub open spec fn next_hold(self, level: Value) -> Value {
        if level.at_least(self.hold) {
            level
        } else if self.frames < HOLD_FRAMES {
            self.hold
        } else {
            product(self.hold, Value { bits: KEEP })
        }
    }

    /// The meter after a level.
    pub open spec fn after(self, level: Value) -> Meter {
        let bar = self.next_bar(level);
        let hold = self.next_hold(level);
        Meter {
            bar,
            hold: if bar.above(hold) {
                bar
            } else {
                hold
            },
            frames: if level.at_least(self.hold) {
                0
            } else if self.frames < HOLD_FRAMES {
                (self.frames + 1) as u32
            } else {
                self.frames
            },
        }
    }

    /// A meter that has seen nothing.
    pub fn new() -> (meter: Meter)
        ensures
            meter == (Meter { bar: Value { bits: 0 }, hold: Value { bits: 0 }, frames: 0 }),
            meter.wf(),
    {
        proof {
            lemma_pow2_pos(149);
            assert(magnitude_units(0) == 0);
        }
        Meter { bar: Value { bits: 0 }, hold: Value { bits: 0 }, frames: 0 }
    }

    /// Moves the meter on by a stretch of sound.
    pub fn feed(&mut self, bytes: &[u8])
        requires
            old(self).wf(),
        ensures
            *final(self) == old(self).after(level_of(loudest(bytes@, bytes@.len() as int / 2))),
            final(self).wf(),
    {
        let p: i32 = peak(bytes);
        let level = Value::of_int(p).over(Value::of_int(0x8000));
        proof {
            lemma_level(p as int);
            law_meter_stays_in_range(*self, level);
        }
        let bar = if level.reaches(self.bar) {
            level
        } else {
            self.bar.times(Value { bits: KEEP }).plus(level.times(Value { bits: TAKE }))
        };
        let mut hold = self.hold;
        let mut frames: u32 = self.frames;
        if level.reaches(self.hold) {
            hold = level;
            frames = 0;
        } else if frames < HOLD_FRAMES {
            frames += 1;
        } else {
            hold = self.hold.times(Value { bits: KEEP });
        }
        if bar.exceeds(hold) {
            hold = bar;
        }
        self.bar = bar;
        self.hold = hold;
        self.frames = frames;
    }
}

/// A peak is a level.
proof fn lemma_level(p: int)
    requires
        0 <= p <= 0x8000,
    ensures
        is_level(level_of(p)),
{
    let t = unit();
    lemma_pow2_pos(149);
    lemma_whole(p);
    lemma_whole(0x8000);
    lemma_whole(1);
    lemma_top();
    let d = 0x8000 * t;
    let n = (p * t) * t;
    assert(p * t < 0x200_0000 * t && 0x8000 * t < 0x200_0000 * t) by (nonlinear_arith)
        requires
            p <= 0x8000,
            t > 0,
    ;
    assert(number(0x8000).magnitude() != 0) by {
        assert(magnitude_units(0) == 0);
    }
    assert(n <= d * t) by (nonlinear_arith)
        requires
            n == (p * t) * t,
            d == 0x8000 * t,
            p <= 0x8000,
            t > 0,
    ;
    lemma_nearest_exists(n, d);
    let one = number(1).magnitude();
    assert(magnitude_units(one) == t);
    lemma_exact(one, d * t, d);
    lemma_nearest_monotone(n, d * t, d);
    lemma_units_order(one, nearest(n, d));
}

proof fn lemma_parts()
    ensures
        plain(Value { bits: KEEP }),
        plain(Value { bits: TAKE }),
        !(Value { bits: KEEP }).negative(),
        !(Value { bits: TAKE }).negative(),
        size(Value { bits: KEEP }) + size(Value { bits: TAKE }) <= unit(),
        size(Value { bits: KEEP }) > 0,
        size(Value { bits: TAKE }) > 0,
{
    let h = HIDDEN as int;
    assert(KEEP as int / h == 126 && KEEP as int % h == 0x70_a3d7);
    assert(TAKE as int / h == 122 && TAKE as int % h == 0x75_c28f);
    let p = pow2(121) as int;
    lemma_pow2_pos(121);
    lemma_pow2_adds(4, 121);
    lemma_pow2_adds(28, 121);
    vstd::arithmetic::power2::lemma2_to64();
    assert((h + 0x70_a3d7) * (16 * p) + (h + 0x75_c28f) * p <= 0x1000_0000 * p && (h + 0x70_a3d7)
        * (16 * p) > 0 && (h + 0x75_c28f) * p > 0) by (nonlinear_arith)
        requires
            h == 0x80_0000,
            p > 0,
    ;
}

/// The sum of two numbers that make at most one is a level.
proof fn lemma_sum_is_level(a: Value, b: Value)
    requires
        plain(a),
        plain(b),
        !a.negative(),
        !b.negative(),
        size(a) + size(b) <= unit(),
    ensures
        is_level(sum(a, b)),
{
    lemma_pow2_pos(149);
    lemma_whole(1);
    lemma_units_nonnegative(a.magnitude());
    lemma_units_nonnegative(b.magnitude());
    assert(magnitude_units(0) == 0);
    let n = size(a) + size(b);
    let one = number(1).magnitude();
    lemma_nearest_exists(n, 1);
    lemma_exact(one, unit(), 1);
    lemma_nearest_monotone(n, unit(), 1);
    lemma_units_order(one, nearest(n, 1));
}

/// Whatever level comes, bar and mark stay levels, and the mark is never below the bar.
pub proof fn law_meter_stays_in_range(meter: Meter, level: Value)
    requires
        meter.wf(),
        is_level(level),
    ensures
        meter.after(level).wf(),
{
    let keep = Value { bits: KEEP };
    let take = Value { bits: TAKE };
    let t = unit();
    lemma_parts();
    lemma_pow2_pos(149);
    lemma_top();
    lemma_product_level(meter.bar, keep);
    lemma_product_level(level, take);
    lemma_product_level(meter.hold, keep);
    lemma_sum_is_level(product(meter.bar, keep), product(level, take));
}

proof fn lemma_product_level(a: Value, c: Value)
    requires
        is_level(a),
        plain(c),
        !c.negative(),
        c.magnitude() < INFINITE,
    ensures
        plain(product(a, c)),
        !product(a, c).negative(),
        size(product(a, c)) <= size(c),
{
    lemma_top();
    lemma_pow2_pos(149);
    lemma_units_nonnegative(a.magnitude());
    lemma_units_nonnegative(c.magnitude());
    let t = unit();
    let x = size(a);
    let y = size(c);
    assert(x * y <= t * y) by (nonlinear_arith)
        requires
            x <= t,
            y >= 0,
    ;
    lemma_product_at_most(a, c, c.magnitude());
}

/// The bit pattern of 67 hundredths: up to there the meter is green.
pub const GREEN_END: u32 = 0x3f2b_851f;

/// The bit pattern of 85 hundredths: from there on the meter turns red.
pub const YELLOW_END: u32 = 0x3f59_999a;

/// One part of a colour on the way from `from` to `to`.
pub open spec fn between(from: u8, to: u8, t: Value) -> u8 {
    let way = sum(number(to as int), negated(number(from as int)));
    clamped(rounded_away(sum(number(from as int), product(way, t))), 0, 255) as u8
}

/// A colour on the way from `from` to `to`.
pub open spec fn color_between(from: Color, to: Color, t: Value) -> Color {
    let t = bounded(t, number(0), number(1));
    Color {
        red: between(from.red, to.red, t),
        green: between(from.green, to.green, t),
        blue: between(from.blue, to.blue, t),
    }
}

fn part_between(from: u8, to: u8, t: Value) -> (part: u8)
    ensures
        part == between(from, to, t),
{
    let start = Value::of_int(from as i32);
    let way = Value::of_int(to as i32).minus(start);
    let n: i32 = start.plus(way.times(t)).round_to_int();
    if n < 0 {
        0
    } else if n > 255 {
        255
    } else {
        n as u8
    }
}

fn lerp_rgb(from: Color, to: Color, t: Value) -> (color: Color)
    ensures
        color == color_between(from, to, t),
{
    let t = t.within(Value::of_int(0), Value::of_int(1));
    Color::rgb(
        part_between(from.red, to.red, t),
        part_between(from.green, to.green, t),
        part_between(from.blue, to.blue, t),
    )
}

/// How far a value has come on the way from `low` to `high`.
pub open spec fn progress(v: Value, low: Value, high: Value) -> Value {
    quotient(sum(v, negated(low)), sum(high, negated(low)))
}

/// The colour of the meter at a part of its length.
pub open spec fn color_at(part: Value) -> Color {
    let green_end = Value { bits: GREEN_END };
    let yellow_end = Value { bits: YELLOW_END };
    let warm = Color { red: 110, green: 210, blue: 80 };
    let yellow = Color { red: 220, green: 200, blue: 60 };
    if green_end.above(part) {
        color_between(
            Color { red: 70, green: 200, blue: 70 },
            warm,
            bounded(quotient(part, green_end), number(0), number(1)),
        )
    } else if yellow_end.above(part) {
        color_between(
            warm,
            yellow,
            bounded(progress(part, green_end, yellow_end), number(0), number(1)),
        )
    } else {
        color_between(
            yellow,
            Color { red: 220, green: 70, blue: 70 },
            bounded(progress(part, yellow_end, number(1)), number(0), number(1)),
        )
    }
}

/// The colour of the meter at a part of its length: green at first, then yellow, then red.
pub fn meter_color(part: Value) -> (color: Color)
    ensures
        color == color_at(part),
{
    let green_end = Value { bits: GREEN_END };
    let yellow_end = Value { bits: YELLOW_END };
    let warm = Color::rgb(110, 210, 80);
    let yellow = Color::rgb(220, 200, 60);
    let zero = Value::of_int(0);
    let one = Value::of_int(1);
    if green_end.exceeds(part) {
        lerp_rgb(Color::rgb(70, 200, 70), warm, part.over(green_end).within(zero, one))
    } else if yellow_end.exceeds(part) {
        let t = part.minus(green_end).over(yellow_end.minus(green_end));
        lerp_rgb(warm, yellow, t.within(zero, one))
    } else {
        let t = part.minus(yellow_end).over(one.minus(yellow_end));
        lerp_rgb(yellow, Color::rgb(220, 70, 70), t.within(zero, one))
    }
}

/// How loud a sample is: the size of the signed number that its two bytes stand for, the lower
/// one first.
pub proof fn law_loudness_is_the_size_of_a_sample(low: u8, high: u8)
    ensures
        ({
            let signed = low + 256 * high - (if high >= 0x80 {
                0x1_0000int
            } else {
                0
            });
            loudness(low, high) == if signed < 0 {
                -signed
            } else {
                signed
            }
        }),
{
}

/// A louder peak has no lower level; silence has the level zero, and the loudest sample one.
#[verifier::spinoff_prover]
#[verifier::rlimit(50)]
pub proof fn law_levels_follow_the_peak(p: int, q: int)
    requires
        0 <= p <= q <= 0x8000,
    ensures
        size(level_of(p)) <= size(level_of(q)),
        level_of(0) == number(0),
        level_of(0x8000) == number(1),
{
    let t = unit();
    lemma_pow2_pos(149);
    lemma_whole(p);
    lemma_whole(q);
    lemma_whole(0);
    lemma_whole(1);
    lemma_whole(0x8000);
    assert(1 * t == t && 0 * t == 0 && magnitude_units(0) == 0);
    let d = 0x8000 * t;
    assert(d * 0 == 0 && (0x8000 * t) * t == d * t);
    lemma_exact(0, 0, d);
    lemma_exact(number(1).magnitude(), d * t, d);
    assert((p * t) * t <= (q * t) * t) by (nonlinear_arith)
        requires
            p <= q,
            t > 0,
    ;
    lemma_nearest_exists((p * t) * t, d);
    lemma_nearest_exists((q * t) * t, d);
    lemma_nearest_monotone((p * t) * t, (q * t) * t, d);
    lemma_units_order(nearest((q * t) * t, d), nearest((p * t) * t, d));
    lemma_exact(0, 0, 1);
    assert(number(0) == (Value { bits: 0 }));
    assert(151 * HIDDEN < INFINITE);
    assert(number(0x8000).magnitude() != 0);
    assert(level_of(p).magnitude() == nearest((p * t) * t, d));
    assert(level_of(q).magnitude() == nearest((q * t) * t, d));
}

/// A meter rises at once to a new peak, and holds it for fifty stretches of sound before the
/// mark falls. The parts that are kept and taken are 94 and 6 hundredths.
pub proof fn law_meter_rises_at_once_and_holds(meter: Meter, level: Value)
    requires
        meter.wf(),
        is_level(level),
    ensures
        level.at_least(meter.bar) ==> meter.after(level).bar == level,
        level.at_least(meter.hold) ==> meter.after(level).hold == level && meter.after(level).frames
            == 0,
        !level.at_least(meter.hold) && meter.frames < 50 ==> meter.next_hold(level) == meter.hold
            && meter.after(level).frames == meter.frames + 1,
        !level.at_least(meter.hold) && meter.frames == 50 ==> meter.next_hold(level) == product(
            meter.hold,
            Value { bits: KEEP },
        ) && meter.after(level).frames == 50,
        !level.at_least(meter.bar) ==> meter.after(level).bar == sum(
            product(meter.bar, Value { bits: KEEP }),
            product(level, Value { bits: TAKE }),
        ),
        meter.after(level).hold.at_least(meter.after(level).bar),
        -unit() <= 0x10_0000 * (100 * size(Value { bits: KEEP }) - 94 * unit()) <= unit() * 0x10,
        -unit() <= 0x10_0000 * (100 * size(Value { bits: TAKE }) - 6 * unit()) <= unit(),
{
    law_meter_stays_in_range(meter, level);
    let h = HIDDEN as int;
    assert(KEEP as int / h == 126 && KEEP as int % h == 0x70_a3d7);
    assert(TAKE as int / h == 122 && TAKE as int % h == 0x75_c28f);
    let p = pow2(121) as int;
    lemma_pow2_pos(121);
    lemma_pow2_adds(4, 121);
    lemma_pow2_adds(28, 121);
    vstd::arithmetic::power2::lemma2_to64();
    assert((h + 0x70_a3d7) * (16 * p) == 0xf0a_3d70 * p && (h + 0x75_c28f) * p == 0xf5_c28f * p)
        by (nonlinear_arith)
        requires
            h == 0x80_0000,
    ;
}

/// One part of a colour begins where it comes from and ends where it goes.
#[verifier::spinoff_prover]
#[verifier::rlimit(80)]
proof fn lemma_way_ends(from: u8, to: u8)
    ensures
        between(from, to, number(0)) == from,
        between(from, to, number(1)) == to,
{
    let t = unit();
    lemma_pow2_pos(149);
    let (a, b) = (from as int, to as int);
    lemma_whole(a);
    lemma_whole(b);
    lemma_whole(b - a);
    lemma_whole(0);
    lemma_whole(1);
    assert(1 * t == t && 0 * t == 0 && magnitude_units(0) == 0);
    assert(151 * HIDDEN < INFINITE);
    let way = sum(number(b), negated(number(a)));
    assert((b - a) * t == b * t - a * t && -(b - a) * t == a * t - b * t) by (nonlinear_arith);
    assert(number(b).scaled() == b * t && number(a).scaled() == a * t);
    assert(negated(number(a)).scaled() == -(a * t));
    lemma_exact(0, 0, 1);
    if a == b {
        assert((b - a) * t == 0);
        assert(way.magnitude() == 0);
    } else {
        assert((b - a) * t != 0) by (nonlinear_arith)
            requires
                a != b,
                t > 0,
        ;
        assert(way == number(b - a));
    }
    let s = size(way);
    assert(s == size(number(b - a)));
    // Nothing of the way, and all of it.
    assert(s * 0 == 0 && t * 0 == 0);
    lemma_exact(0, 0, t);
    let none = product(way, number(0));
    assert(none.magnitude() == 0);
    lemma_exact(way.magnitude(), s * t, t);
    assert(t * s == s * t) by (nonlinear_arith);
    let all = product(way, number(1));
    assert(all.magnitude() == way.magnitude() && all.negative() == way.negative());
    lemma_exact(number(a).magnitude(), a * t, 1);
    lemma_exact(number(b).magnitude(), b * t, 1);
    assert(none.scaled() == 0);
    let start = sum(number(a), none);
    assert(start.magnitude() == number(a).magnitude());
    assert(a > 0 ==> a * t > 0) by (nonlinear_arith)
        requires
            t > 0,
    ;
    assert(b > 0 ==> b * t > 0) by (nonlinear_arith)
        requires
            t > 0,
    ;
    let end = sum(number(a), all);
    assert(all.scaled() == (b - a) * t);
    assert(end.magnitude() == number(b).magnitude());
    law_whole_rounding_is_to_the_nearest(start);
    law_whole_rounding_is_to_the_nearest(end);
    lemma_same_whole(rounded_away(start), a, t);
    lemma_same_whole(rounded_away(end), b, t);
}

proof fn lemma_same_whole(r: int, n: int, t: int)
    requires
        t > 0,
        n >= 0,
        2 * (n * t) - t < 2 * (absolute(r) * t) <= 2 * (n * t) + t,
    ensures
        absolute(r) == n,
{
    let a = absolute(r);
    assert(a == n) by (nonlinear_arith)
        requires
            t > 0,
            2 * (n * t) - t < 2 * (a * t) <= 2 * (n * t) + t,
    ;
}

/// A way between two colours begins with the first and ends with the second.
pub proof fn law_ways_between_colors_end(from: Color, to: Color)
    ensures
        color_between(from, to, number(0)) == from,
        color_between(from, to, number(1)) == to,
{
    lemma_way_ends(from.red, to.red);
    lemma_way_ends(from.green, to.green);
    lemma_way_ends(from.blue, to.blue);
    lemma_whole(0);
    lemma_whole(1);
    lemma_pow2_pos(149);
    assert(0 * unit() == 0 && 1 * unit() == unit());
}

} // verus!
