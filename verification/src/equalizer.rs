//! The bands of the equalizer, and how loud it makes a frequency.

use crate::arith::bounded;
use crate::arith::infinite;
use crate::arith::lemma_exact;
use crate::arith::lemma_nearest_exists;
use crate::arith::lemma_nearest_monotone;
use crate::arith::lemma_whole;
use crate::arith::nearest;
use crate::arith::negated;
use crate::arith::number;
use crate::arith::product;
use crate::arith::quotient;
use crate::arith::size;
use crate::arith::sum;
use crate::feature::FeatureId;
use crate::scale::lemma_top;
use crate::table::shown_value;
use crate::table::FeatureTable;
use crate::value::lemma_units_increase;
use crate::value::lemma_units_order;
use crate::value::magnitude_units;
use crate::value::unit;
use crate::value::Value;
use crate::value::HIDDEN;
use crate::value::INFINITE;
use crate::value::SIGN;
use vstd::arithmetic::power2::lemma_pow2_adds;
use vstd::arithmetic::power2::lemma_pow2_pos;
use vstd::arithmetic::power2::pow2;
use vstd::prelude::*;

verus! {

/// The bit pattern of 141 hundredths: how narrow the bands are.
pub const NARROWNESS: u32 = 0x3fb4_7ae1;

/// The bit pattern of one hundredth: a gain below it does nothing.
pub const LEAST_GAIN: u32 = 0x3c23_d70a;

/// The bands, from the lowest to the highest.
pub open spec fn bands() -> Seq<FeatureId> {
    seq![
        FeatureId::Eq31Hz,
        FeatureId::Eq62Hz,
        FeatureId::Eq125Hz,
        FeatureId::Eq250Hz,
        FeatureId::Eq500Hz,
        FeatureId::Eq1kHz,
        FeatureId::Eq2kHz,
        FeatureId::Eq4kHz,
        FeatureId::Eq8kHz,
        FeatureId::Eq16kHz,
    ]
}

/// The bands, from the lowest to the highest.
pub fn band_ids() -> (ids: [FeatureId; 10])
    ensures
        ids@ == bands(),
{
    let ids: [FeatureId; 10] = [
        FeatureId::Eq31Hz,
        FeatureId::Eq62Hz,
        FeatureId::Eq125Hz,
        FeatureId::Eq250Hz,
        FeatureId::Eq500Hz,
        FeatureId::Eq1kHz,
        FeatureId::Eq2kHz,
        FeatureId::Eq4kHz,
        FeatureId::Eq8kHz,
        FeatureId::Eq16kHz,
    ];
    assert(ids@ =~= bands());
    ids
}

/// The middle of each band in hertz.
pub open spec fn centers() -> Seq<i32> {
    seq![31, 62, 125, 250, 500, 1_000, 2_000, 4_000, 8_000, 16_000]
}

/// The middle of each band in hertz.
pub fn band_centers() -> (list: [i32; 10])
    ensures
        list@ == centers(),
{
    let list: [i32; 10] = [31, 62, 125, 250, 500, 1_000, 2_000, 4_000, 8_000, 16_000];
    assert(list@ =~= centers());
    list
}

/// Whether a gain is so small that it does nothing.
pub open spec fn negligible(gain: Value) -> bool {
    (Value { bits: LEAST_GAIN }).above(
        if gain.negative() {
            negated(gain)
        } else {
            gain
        },
    )
}

/// What a band with a gain adds at a frequency: most in its middle, and less the further away.
pub open spec fn contribution(gain: Value, center: int, frequency: Value) -> Value {
    let reach = quotient(number(center), product(number(2), Value { bits: NARROWNESS }));
    let away = quotient(sum(frequency, negated(number(center))), reach);
    quotient(gain, sum(number(1), product(away, away)))
}

/// The sum of a base and what the first `n` bands add to it.
pub open spec fn accumulated(base: Value, gains: Seq<Value>, frequency: Value, n: int) -> Value
    decreases n,
{
    if n <= 0 {
        base
    } else {
        let before = accumulated(base, gains, frequency, n - 1);
        if negligible(gains[n - 1]) {
            before
        } else {
            sum(before, contribution(gains[n - 1], centers()[n - 1] as int, frequency))
        }
    }
}

/// How much louder the equalizer makes a frequency, in decibels from -12 to 12.
pub open spec fn response(preamp: Value, gains: Seq<Value>, frequency: Value) -> Value {
    bounded(
        accumulated(preamp, gains, frequency, 10),
        number(-12),
        number(12),
    )
}

/// The gains of the bands that are shown.
pub fn shown_gains(values: &FeatureTable) -> (gains: [Value; 10])
    ensures
        forall|i: int| 0 <= i < 10 ==> #[trigger] gains@[i] == shown_value(values@, bands()[i]),
{
    let ids = band_ids();
    [
        values.value_or_zero(ids[0]),
        values.value_or_zero(ids[1]),
        values.value_or_zero(ids[2]),
        values.value_or_zero(ids[3]),
        values.value_or_zero(ids[4]),
        values.value_or_zero(ids[5]),
        values.value_or_zero(ids[6]),
        values.value_or_zero(ids[7]),
        values.value_or_zero(ids[8]),
        values.value_or_zero(ids[9]),
    ]
}

/// How much louder the equalizer makes a frequency, in decibels from -12 to 12.
pub fn response_at(preamp: Value, gains: &[Value; 10], frequency: Value) -> (level: Value)
    ensures
        level == response(preamp, gains@, frequency),
{
    let list = band_centers();
    let width = Value::of_int(2).times(Value { bits: NARROWNESS });
    let mut level = preamp;
    let mut i: usize = 0;
    while i < 10
        invariant
            i <= 10,
            list@ == centers(),
            width == product(number(2), Value { bits: NARROWNESS }),
            level == accumulated(preamp, gains@, frequency, i as int),
        decreases 10 - i,
    {
        let gain = gains[i];
        let strength = if gain.bits >= SIGN {
            gain.opposite()
        } else {
            gain
        };
        if !(Value { bits: LEAST_GAIN }).exceeds(strength) {
            let center = Value::of_int(list[i]);
            let reach = center.over(width);
            let away = frequency.minus(center).over(reach);
            let part = gain.over(Value::of_int(1).plus(away.times(away)));
            level = level.plus(part);
        }
        i += 1;
    }
    level.within(Value::of_int(-12), Value::of_int(12))
}

proof fn lemma_flat(base: Value, gains: Seq<Value>, frequency: Value, n: int)
    requires
        forall|i: int| 0 <= i < n ==> #[trigger] negligible(gains[i]),
    ensures
        accumulated(base, gains, frequency, n) == base,
    decreases n,
{
    if n > 0 {
        lemma_flat(base, gains, frequency, n - 1);
        assert(negligible(gains[n - 1]));
    }
}

/// With every band at zero the equalizer does the same to every frequency.
pub proof fn law_flat_equalizer(preamp: Value, gains: Seq<Value>, frequency: Value)
    requires
        forall|i: int| 0 <= i < 10 ==> (#[trigger] gains[i]).magnitude() == 0,
    ensures
        response(preamp, gains, frequency) == bounded(preamp, number(-12), number(12)),
{
    let least = Value { bits: LEAST_GAIN };
    assert(magnitude_units(0) == 0);
    lemma_units_order(0, least.magnitude());
    assert forall|i: int| 0 <= i < 10 implies #[trigger] negligible(gains[i]) by {
        assert(gains[i].magnitude() == 0);
    }
    lemma_flat(preamp, gains, frequency, 10);
}

/// The reach of a band is not nothing.
#[verifier::spinoff_prover]
#[verifier::rlimit(50)]
proof fn lemma_reach(center: int)
    requires
        0 < center < 0x100_0000,
    ensures
        ({
            let reach = quotient(
                number(center),
                product(number(2), Value { bits: NARROWNESS }),
            );
            1 <= reach.magnitude() <= INFINITE && !reach.negative()
        }),
{
    let t = unit();
    let c = number(center);
    let narrow = Value { bits: NARROWNESS };
    let w = size(narrow);
    lemma_pow2_pos(149);
    lemma_top();
    lemma_whole(center);
    lemma_whole(2);
    lemma_whole(1);
    lemma_whole(100);
    law_constants();
    assert(1 * t == t);
    let double = product(number(2), narrow);
    let m = nearest((2 * t) * w, t);
    lemma_nearest_exists((2 * t) * w, t);
    lemma_exact(number(100).magnitude(), t * (100 * t), t);
    assert((2 * t) * w <= t * (100 * t) && (2 * t) * w >= t * t) by (nonlinear_arith)
        requires
            t <= w <= 2 * t,
            t > 0,
    ;
    lemma_nearest_monotone((2 * t) * w, t * (100 * t), t);
    lemma_exact(number(1).magnitude(), t * t, t);
    lemma_nearest_monotone(t * t, (2 * t) * w, t);
    assert(double.magnitude() == m && !double.negative());
    lemma_units_order(m, number(1).magnitude());
    lemma_units_order(number(100).magnitude(), m);
    let d = size(double);
    assert(t <= d <= 100 * t);
    assert(magnitude_units(0) == 0);
    assert(m != 0 && m < INFINITE);
    let n = (center * t) * t;
    lemma_nearest_exists(n, d);
    vstd::arithmetic::power2::lemma2_to64();
    lemma_pow2_adds(32, 117);
    lemma_pow2_pos(117);
    assert(magnitude_units(1) == 1);
    lemma_exact(1, d * 1, d);
    assert(d * 1 <= n) by (nonlinear_arith)
        requires
            n == (center * t) * t,
            d <= 100 * t,
            t >= 100,
            center >= 1,
    ;
    lemma_nearest_monotone(d * 1, n, d);
    assert(quotient(c, double).magnitude() == nearest(n, d));
}

/// In its middle a band adds its whole gain.
#[verifier::spinoff_prover]
#[verifier::rlimit(50)]
pub proof fn law_band_adds_its_gain_in_its_middle(gain: Value, center: int)
    requires
        0 < center < 0x100_0000,
        !gain.is_nan(),
        !infinite(gain),
    ensures
        contribution(gain, center, number(center)) == gain,
{
    let t = unit();
    let c = number(center);
    let zero = Value { bits: 0 };
    let one = number(1);
    lemma_pow2_pos(149);
    lemma_whole(center);
    lemma_whole(1);
    assert(1 * t == t && 0 * t == 0 && magnitude_units(0) == 0);
    assert(151 * HIDDEN < INFINITE);
    // The middle lies no way from itself.
    assert(negated(c).scaled() == -c.scaled());
    assert(sum(c, negated(c)) == zero);
    lemma_reach(center);
    let reach = quotient(c, product(number(2), Value { bits: NARROWNESS }));
    lemma_units_increase(0, reach.magnitude());
    let e = size(reach);
    assert(e * 0 == 0 && t * 0 == 0);
    lemma_exact(0, 0, e);
    assert(quotient(zero, reach) == zero);
    lemma_exact(0, 0, t);
    assert(zero.magnitude() == 0 && size(zero) == 0);
    assert(size(zero) * size(zero) == 0);
    assert(product(zero, zero) == zero);
    // So the gain is divided by one.
    lemma_exact(one.magnitude(), t, 1);
    assert(sum(one, zero) == one);
    assert(t * size(gain) == size(gain) * t) by (nonlinear_arith);
    lemma_exact(gain.magnitude(), size(gain) * t, t);
    assert(one.magnitude() != 0);
    assert(quotient(gain, one).magnitude() == gain.magnitude());
}

/// The two constants of the curve: the bands have the quality 1.41, and a gain below one
/// hundredth does nothing.
pub proof fn law_constants()
    ensures
        unit() <= size(Value { bits: NARROWNESS }) <= 2 * unit(),
        -4 * unit() <= 0x10_0000 * (100 * size(Value { bits: NARROWNESS }) - 141 * unit()) <= 4
            * unit(),
        -unit() <= 0x10_0000 * (100 * size(Value { bits: LEAST_GAIN }) - unit()) <= unit(),
        !(Value { bits: NARROWNESS }).is_nan(),
        !(Value { bits: NARROWNESS }).negative(),
        !infinite(Value { bits: NARROWNESS }),
{
    let h = HIDDEN as int;
    assert(NARROWNESS as int / h == 127 && NARROWNESS as int % h == 0x34_7ae1);
    assert(LEAST_GAIN as int / h == 120 && LEAST_GAIN as int % h == 0x23_d70a);
    let p = pow2(119) as int;
    lemma_pow2_pos(119);
    lemma_pow2_adds(7, 119);
    lemma_pow2_adds(30, 119);
    vstd::arithmetic::power2::lemma2_to64();
    assert((h + 0x34_7ae1) * (128 * p) == 0x5a_3d70_80 * p && (h + 0x23_d70a) * p == 0xa3_d70a * p)
        by (nonlinear_arith)
        requires
            h == 0x80_0000,
    ;
}

proof fn lemma_one_band(base: Value, gains: Seq<Value>, frequency: Value, k: int, n: int)
    requires
        0 <= k < 10,
        0 <= n <= 10,
        forall|i: int| 0 <= i < 10 && i != k ==> #[trigger] negligible(gains[i]),
        !negligible(gains[k]),
    ensures
        n <= k ==> accumulated(base, gains, frequency, n) == base,
        n > k ==> accumulated(base, gains, frequency, n) == sum(
            base,
            contribution(gains[k], centers()[k] as int, frequency),
        ),
    decreases n,
{
    if n > 0 {
        lemma_one_band(base, gains, frequency, k, n - 1);
        if n - 1 != k {
            assert(negligible(gains[n - 1]));
        }
    }
}

/// Where one band alone has a gain, the equalizer adds that gain to the pre-amplification in the
/// middle of that band: at 31, 62, 125, 250, 500, 1000, 2000, 4000, 8000 or 16000 hertz.
pub proof fn law_each_band_has_its_middle(preamp: Value, gains: Seq<Value>, k: int)
    requires
        0 <= k < 10,
        forall|i: int| 0 <= i < 10 && i != k ==> #[trigger] negligible(gains[i]),
        !negligible(gains[k]),
        !gains[k].is_nan(),
        !infinite(gains[k]),
    ensures
        ({
            let hertz = seq![31int, 62, 125, 250, 500, 1_000, 2_000, 4_000, 8_000, 16_000][k];
            response(preamp, gains, number(hertz)) == bounded(
                sum(preamp, gains[k]),
                number(-12),
                number(12),
            )
        }),
{
    let hertz = seq![31int, 62, 125, 250, 500, 1_000, 2_000, 4_000, 8_000, 16_000][k];
    assert(centers()[k] == hertz);
    lemma_one_band(preamp, gains, number(hertz), k, 10);
    law_band_adds_its_gain_in_its_middle(gains[k], hertz);
}

/// The bands stand in the order of their frequency, and band `k` is the feature at place 14 + k.
pub proof fn law_bands_stand_in_order(k: int)
    requires
        0 <= k < 10,
    ensures
        bands().len() == 10,
        centers().len() == 10,
        bands()[k].position() == 14 + k,
        k > 0 ==> centers()[k - 1] < centers()[k],
{
}

} // verus!
