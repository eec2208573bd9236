//! Arithmetic on feature values, rounded as the format asks: to the nearest number that the
//! format can hold, and of two that are equally near to the one with the even bit pattern.

use crate::value::clamped;
use crate::value::lemma_units_increase;
use crate::value::lemma_units_nonnegative;
use crate::value::lemma_units_order;
use crate::value::magnitude_units;
use crate::value::unit;
use crate::value::Value;
use crate::value::HIDDEN;
use crate::value::INFINITE;
use crate::value::SIGN;
use vstd::arithmetic::power2::lemma_pow2_adds;
use vstd::arithmetic::power2::lemma_pow2_pos;
use vstd::arithmetic::power2::pow2;
use vstd::prelude::*;

verus! {

/// Whether `m` is the magnitude nearest to `n / d` units: `n / d` lies between the middle of
/// `m` and the magnitude before it and the middle of `m` and the magnitude after it, and
/// in neither middle unless `m` is even. Infinity takes part as the number that follows
/// the largest finite one.
pub open spec fn is_nearest(m: int, n: int, d: int) -> bool {
    &&& 0 <= m <= INFINITE
    &&& m > 0 ==> {
        let low = d * (magnitude_units(m - 1) + magnitude_units(m));
        low < 2 * n || (low == 2 * n && m % 2 == 0)
    }
    &&& m < INFINITE ==> {
        let high = d * (magnitude_units(m) + magnitude_units(m + 1));
        2 * n < high || (2 * n == high && m % 2 == 0)
    }
}

/// The magnitude nearest to `n / d` units.
pub open spec fn nearest(n: int, d: int) -> int {
    choose|m: int| is_nearest(m, n, d)
}

proof fn lemma_nearest_excludes(m: int, k: int, n: int, d: int)
    requires
        d > 0,
        m < k,
        is_nearest(m, n, d),
    ensures
        !is_nearest(k, n, d),
{
    if k <= INFINITE {
        let a = magnitude_units(m) + magnitude_units(m + 1);
        let b = magnitude_units(k - 1) + magnitude_units(k);
        lemma_units_order(k - 1, m);
        lemma_units_order(k, m + 1);
        assert(d * a <= d * b) by (nonlinear_arith)
            requires
                d > 0,
                a <= b,
        ;
        if m + 1 < k {
            lemma_units_increase(m, k - 1);
            assert(d * a < d * b) by (nonlinear_arith)
                requires
                    d > 0,
                    a < b,
            ;
        }
    }
}

/// There is only one nearest magnitude.
pub proof fn lemma_nearest_is(m: int, n: int, d: int)
    requires
        d > 0,
        is_nearest(m, n, d),
    ensures
        nearest(n, d) == m,
{
    let k = nearest(n, d);
    if m < k {
        lemma_nearest_excludes(m, k, n, d);
    } else if k < m {
        lemma_nearest_excludes(k, m, n, d);
    }
}

proof fn lemma_nearest_from(m: int, n: int, d: int)
    requires
        d > 0,
        0 <= m <= INFINITE,
        m > 0 ==> {
            let low = d * (magnitude_units(m - 1) + magnitude_units(m));
            low < 2 * n || (low == 2 * n && m % 2 == 0)
        },
    ensures
        is_nearest(nearest(n, d), n, d),
    decreases INFINITE - m,
{
    if !is_nearest(m, n, d) {
        lemma_nearest_from(m + 1, n, d);
    }
}

/// There is a nearest magnitude.
pub proof fn lemma_nearest_exists(n: int, d: int)
    requires
        d > 0,
    ensures
        is_nearest(nearest(n, d), n, d),
{
    lemma_nearest_from(0, n, d);
}

/// What is larger is not rounded to less.
pub proof fn lemma_nearest_monotone(n: int, k: int, d: int)
    requires
        d > 0,
        n <= k,
    ensures
        nearest(n, d) <= nearest(k, d),
{
    lemma_nearest_exists(n, d);
    lemma_nearest_exists(k, d);
    let a = nearest(n, d);
    let b = nearest(k, d);
    if b < a {
        let x = magnitude_units(b) + magnitude_units(b + 1);
        let y = magnitude_units(a - 1) + magnitude_units(a);
        lemma_units_order(a - 1, b);
        lemma_units_order(a, b + 1);
        assert(d * x <= d * y) by (nonlinear_arith)
            requires
                d > 0,
                x <= y,
        ;
        lemma_nearest_excludes(b, a, n, d);
    }
}

/// A magnitude that stands for exactly `n / d` units is the nearest one.
pub proof fn lemma_exact(m: int, n: int, d: int)
    requires
        d > 0,
        0 <= m <= INFINITE,
        n == d * magnitude_units(m),
    ensures
        is_nearest(m, n, d),
        nearest(n, d) == m,
{
    if m > 0 {
        lemma_units_increase(m - 1, m);
        let a = magnitude_units(m - 1);
        let b = magnitude_units(m);
        assert(d * (a + b) < 2 * (d * b)) by (nonlinear_arith)
            requires
                d > 0,
                a < b,
        ;
    }
    lemma_units_increase(m, m + 1);
    let a = magnitude_units(m);
    let b = magnitude_units(m + 1);
    assert(2 * (d * a) < d * (a + b)) by (nonlinear_arith)
        requires
            d > 0,
            a < b,
    ;
    lemma_nearest_is(m, n, d);
}

/// The number with the given sign and magnitude.
pub open spec fn signed(negative: bool, magnitude: int) -> Value {
    Value {
        bits: (if negative {
            SIGN + magnitude
        } else {
            magnitude
        }) as u32,
    }
}

/// The units of a value without its sign.
pub open spec fn size(v: Value) -> int {
    magnitude_units(v.magnitude())
}

/// Whether a value is an infinity.
pub open spec fn infinite(v: Value) -> bool {
    v.magnitude() == INFINITE
}

/// What stands for a result that is not a number.
pub open spec fn undefined() -> Value {
    Value { bits: 0x7fc0_0000 }
}

/// The product of two values.
pub open spec fn product(a: Value, b: Value) -> Value {
    let negative = a.negative() != b.negative();
    if a.is_nan() || b.is_nan() {
        undefined()
    } else if infinite(a) || infinite(b) {
        if a.magnitude() == 0 || b.magnitude() == 0 {
            undefined()
        } else {
            signed(negative, INFINITE as int)
        }
    } else {
        signed(negative, nearest(size(a) * size(b), unit()))
    }
}

/// The quotient of two values.
pub open spec fn quotient(a: Value, b: Value) -> Value {
    let negative = a.negative() != b.negative();
    if a.is_nan() || b.is_nan() || (infinite(a) && infinite(b)) || (a.magnitude() == 0
        && b.magnitude() == 0) {
        undefined()
    } else if infinite(a) || b.magnitude() == 0 {
        signed(negative, INFINITE as int)
    } else if infinite(b) {
        signed(negative, 0)
    } else {
        signed(negative, nearest(size(a) * unit(), size(b)))
    }
}

/// The sum of two values.
pub open spec fn sum(a: Value, b: Value) -> Value {
    let total = a.scaled() + b.scaled();
    if a.is_nan() || b.is_nan() || (infinite(a) && infinite(b) && a.negative() != b.negative()) {
        undefined()
    } else if infinite(a) {
        a
    } else if infinite(b) {
        b
    } else if total == 0 {
        signed(a.negative() && b.negative(), 0)
    } else {
        signed(
            total < 0,
            nearest(
                if total < 0 {
                    -total
                } else {
                    total
                },
                1,
            ),
        )
    }
}

/// The value with the other sign.
pub open spec fn negated(v: Value) -> Value {
    signed(!v.negative(), v.magnitude())
}

/// The number nearest to the whole number `n`.
pub open spec fn number(n: int) -> Value {
    if n < 0 {
        signed(true, nearest(-n * unit(), 1))
    } else {
        signed(false, nearest(n * unit(), 1))
    }
}

/// A value brought between two bounds. What is not a number stays what it is.
pub open spec fn bounded(v: Value, low: Value, high: Value) -> Value {
    if low.above(v) {
        low
    } else if v.above(high) {
        high
    } else {
        v
    }
}

/// The whole number nearest to a value, away from zero where it lies in the middle of two;
/// zero for what is not a number.
pub open spec fn rounded_away(v: Value) -> int {
    let n = (2 * size(v) + unit()) / (2 * unit());
    if v.is_nan() {
        0
    } else if v.negative() {
        -n
    } else {
        n
    }
}

/// A number without its sign.
pub open spec fn absolute(n: int) -> int {
    if n < 0 {
        -n
    } else {
        n
    }
}

/// A value rounded to the nearest whole number, away from zero where it lies in the middle of
/// two. The sign stays, also that of a zero.
pub open spec fn rounded_value(v: Value) -> Value {
    if v.is_nan() {
        undefined()
    } else if infinite(v) {
        v
    } else {
        signed(v.negative(), nearest(absolute(rounded_away(v)) * unit(), 1))
    }
}

/// Two to the `k`th where that is whole, else one.
spec fn up(k: int) -> int {
    if k >= 0 {
        pow2(k as nat) as int
    } else {
        1
    }
}

/// Two to the minus `k`th where that is whole, else one.
spec fn down(k: int) -> int {
    if k < 0 {
        pow2((-k) as nat) as int
    } else {
        1
    }
}

proof fn lemma_up_down(k: int)
    ensures
        up(k) > 0,
        down(k) > 0,
        up(k) * down(k - 1) == 2 * up(k - 1) * down(k),
        k >= 1 ==> up(k) == 2 * up(k - 1) && down(k) == down(k - 1),
        k <= 0 ==> up(k) == up(k - 1) && down(k - 1) == 2 * down(k),
{
    vstd::arithmetic::power2::lemma2_to64();
    if k >= 1 {
        lemma_pow2_adds(1, (k - 1) as nat);
        lemma_pow2_pos((k - 1) as nat);
    } else {
        lemma_pow2_adds(1, (-k) as nat);
        lemma_pow2_pos((-k) as nat);
    }
}

proof fn lemma_aligned(a: int, b: int, k: int)
    requires
        a >= 0,
        b >= 0,
        k == b - a,
    ensures
        pow2(a as nat) * up(k) == pow2(b as nat) * down(k),
{
    if k >= 0 {
        lemma_pow2_adds(a as nat, k as nat);
    } else {
        lemma_pow2_adds(b as nat, (-k) as nat);
    }
}

/// The units of a magnitude, as a significand and the number of times it is doubled.
pub(crate) fn split(magnitude: u32) -> (r: (u32, u32))
    requires
        magnitude < INFINITE,
    ensures
        magnitude_units(magnitude as int) == r.0 * pow2(r.1 as nat),
        r.0 < 0x100_0000,
        r.1 <= 253,
        r.0 == 0 <==> magnitude == 0,
        r.1 == (if magnitude < HIDDEN {
            0int
        } else {
            magnitude as int / (HIDDEN as int) - 1
        }),
{
    let e: u32 = magnitude / HIDDEN;
    proof {
        vstd::arithmetic::power2::lemma2_to64();
    }
    if e == 0 {
        let f: u32 = magnitude % HIDDEN;
        assert(f * pow2(0) == f) by (nonlinear_arith)
            requires
                pow2(0) == 1,
        ;
        (f, 0)
    } else {
        (HIDDEN + magnitude % HIDDEN, e - 1)
    }
}

proof fn lemma_next_units(m: int)
    requires
        m >= HIDDEN,
    ensures
        magnitude_units(m + 1) == magnitude_units(m) + pow2(
            (m / (HIDDEN as int) - 1) as nat,
        ),
{
    let h = HIDDEN as int;
    let e = m / h;
    let f = m % h;
    let p = pow2((e - 1) as nat) as int;
    if f == h - 1 {
        assert((m + 1) / h == e + 1 && (m + 1) % h == 0);
        lemma_pow2_adds(1, (e - 1) as nat);
        vstd::arithmetic::power2::lemma2_to64();
        assert((h + 0) * (2 * p) == (h + f) * p + p) by (nonlinear_arith)
            requires
                f == h - 1,
        ;
    } else {
        assert((m + 1) / h == e && (m + 1) % h == f + 1);
        assert((h + (f + 1)) * p == (h + f) * p + p) by (nonlinear_arith);
    }
}

/// The magnitude made of a significand below two to the 24th and a number of doublings.
proof fn lemma_joined(q: int, e: int)
    requires
        0 <= q < 0x100_0000,
        0 <= e,
        e == 0 || q >= HIDDEN,
    ensures
        magnitude_units(e * HIDDEN + q) == q * pow2(e as nat),
        magnitude_units(e * HIDDEN + q + 1) == (q + 1) * pow2(e as nat),
{
    let h = HIDDEN as int;
    let m = e * h + q;
    let p = pow2(e as nat) as int;
    vstd::arithmetic::power2::lemma2_to64();
    if q < h {
        assert(m == q);
        if q + 1 == h {
            assert((m + 1) / h == 1 && (m + 1) % h == 0);
        }
    } else {
        assert(m / h == e + 1 && m % h == q - h);
        lemma_next_units(m);
        assert(q * p + p == (q + 1) * p) by (nonlinear_arith);
    }
}

/// The step that decides between a magnitude and the next one. The exact value is `n / d`, and
/// lies between `q * w + r` and `q * w + r + 1` steps of `s / c` units; the two magnitudes
/// stand for `q * w` and `(q + 1) * w` of those steps.
proof fn lemma_round(
    n: int,
    d: int,
    q: int,
    w: int,
    r: int,
    s: int,
    c: int,
    more: bool,
    m: int,
    away: bool,
)
    requires
        d > 0,
        s > 0,
        c > 0,
        q >= 0,
        w >= 2,
        w % 2 == 0,
        0 <= r < w,
        0 <= m < INFINITE,
        c * magnitude_units(m) == (q * w) * s,
        c * magnitude_units(m + 1) == ((q + 1) * w) * s,
        m % 2 == q % 2,
        d * ((q * w + r) * s) <= n * c,
        n * c < d * ((q * w + r + 1) * s),
        more <==> n * c != d * ((q * w + r) * s),
        away <==> 2 * r > w || (2 * r == w && (more || q % 2 == 1)),
    ensures
        is_nearest(
            if away {
                m + 1
            } else {
                m
            },
            n,
            d,
        ),
{
    let u0 = magnitude_units(m);
    let u1 = magnitude_units(m + 1);
    let t = 2 * (q * w) + w;
    assert(c * (u0 + u1) == t * s) by (nonlinear_arith)
        requires
            c * u0 == (q * w) * s,
            c * u1 == ((q + 1) * w) * s,
            t == 2 * (q * w) + w,
    ;
    assert(c * (d * (u0 + u1)) == d * (t * s)) by (nonlinear_arith)
        requires
            c * (u0 + u1) == t * s,
    ;
    let p = q * w + r;
    assert(2 * (d * (p * s)) == d * ((2 * p) * s)) by (nonlinear_arith);
    assert(2 * (d * ((p + 1) * s)) == d * ((2 * p + 2) * s)) by (nonlinear_arith);
    assert((2 * n) * c == 2 * (n * c)) by (nonlinear_arith);
    let mid = d * (u0 + u1);
    if 2 * r < w {
        assert(d * ((2 * p + 2) * s) <= d * (t * s)) by (nonlinear_arith)
            requires
                2 * p + 2 <= t,
                d > 0,
                s > 0,
        ;
        assert(2 * n < mid) by (nonlinear_arith)
            requires
                (2 * n) * c < c * mid,
                c > 0,
        ;
    } else if 2 * r > w {
        assert(d * (t * s) < d * ((2 * p) * s)) by (nonlinear_arith)
            requires
                t < 2 * p,
                d > 0,
                s > 0,
        ;
        assert(mid < 2 * n) by (nonlinear_arith)
            requires
                (2 * n) * c > c * mid,
                c > 0,
        ;
    } else {
        assert(2 * p == t);
        assert(mid <= 2 * n && (mid == 2 * n <==> !more)) by (nonlinear_arith)
            requires
                (2 * n) * c >= c * mid,
                (2 * n) * c == c * mid <==> !more,
                c > 0,
        ;
    }
    if away {
        // Above the upper magnitude there is only room.
        lemma_units_increase(m + 1, m + 2);
        let u2 = magnitude_units(m + 2);
        assert(p + 1 <= (q + 1) * w) by (nonlinear_arith)
            requires
                p == q * w + r,
                r < w,
        ;
        assert((p + 1) * s <= c * u1) by (nonlinear_arith)
            requires
                p + 1 <= (q + 1) * w,
                c * u1 == ((q + 1) * w) * s,
                s > 0,
        ;
        assert(d * ((p + 1) * s) <= d * (c * u1)) by (nonlinear_arith)
            requires
                (p + 1) * s <= c * u1,
                d > 0,
        ;
        assert(n < d * u1) by (nonlinear_arith)
            requires
                n * c < d * (c * u1),
                c > 0,
        ;
        assert(2 * n < d * (u1 + u2)) by (nonlinear_arith)
            requires
                n < d * u1,
                u1 < u2,
                d > 0,
        ;
    } else if m > 0 {
        lemma_units_increase(m - 1, m);
        let ub = magnitude_units(m - 1);
        assert(c * u0 <= p * s) by (nonlinear_arith)
            requires
                q * w <= p,
                c * u0 == (q * w) * s,
                s > 0,
        ;
        assert(d * (c * u0) <= d * (p * s)) by (nonlinear_arith)
            requires
                c * u0 <= p * s,
                d > 0,
        ;
        assert(d * u0 <= n) by (nonlinear_arith)
            requires
                d * (c * u0) <= n * c,
                c > 0,
        ;
        assert(d * (ub + u0) < 2 * n) by (nonlinear_arith)
            requires
                d * u0 <= n,
                ub < u0,
                d > 0,
        ;
    }
}

proof fn lemma_pow2_large()
    ensures
        pow2(79) == 0x8000_0000_0000_0000_0000,
        pow2(80) == 0x1_0000_0000_0000_0000_0000,
{
    vstd::arithmetic::power2::lemma2_to64();
    lemma_pow2_adds(64, 15);
    lemma_pow2_adds(64, 16);
}

proof fn lemma_whole_from(q: int, e: int, n: int) -> (m: int)
    requires
        0 < q < 0x100_0000,
        0 <= e <= 149,
        q * pow2(e as nat) == n * unit(),
    ensures
        0 < m < 151 * HIDDEN,
        magnitude_units(m) == n * unit(),
    decreases e,
{
    if q >= HIDDEN || e == 0 {
        lemma_joined(q, e);
        e * HIDDEN + q
    } else {
        lemma_pow2_adds(1, (e - 1) as nat);
        vstd::arithmetic::power2::lemma2_to64();
        let p = pow2((e - 1) as nat) as int;
        assert((2 * q) * p == q * (2 * p)) by (nonlinear_arith);
        lemma_whole_from(2 * q, e - 1, n)
    }
}

/// Every whole number below two to the 24th is a number of the format.
pub proof fn lemma_whole(n: int)
    requires
        -0x100_0000 < n < 0x100_0000,
    ensures
        number(n).is_whole(n),
        number(n).magnitude() < 151 * HIDDEN,
        number(n).negative() == (n < 0),
        size(number(n)) == (if n < 0 {
            -n * unit()
        } else {
            n * unit()
        }),
        nearest(absolute(n) * unit(), 1) == number(n).magnitude(),
{
    let a = absolute(n);
    assert(magnitude_units(0) == 0);
    let m = if n == 0 {
        assert(0 * unit() == 0);
        0
    } else {
        lemma_whole_from(a, 149, a)
    };
    lemma_exact(m, a * unit(), 1);
    assert(-a * unit() == -(a * unit())) by (nonlinear_arith);
}

/// Two neighbours among the magnitudes differ by less than a part of two to the 23rd.
pub proof fn lemma_gap(m: int)
    requires
        m >= HIDDEN,
    ensures
        HIDDEN * (magnitude_units(m + 1) - magnitude_units(m)) <= magnitude_units(m),
{
    lemma_next_units(m);
    let h = HIDDEN as int;
    let f = m % h;
    let p = pow2((m / h - 1) as nat) as int;
    lemma_pow2_pos((m / h - 1) as nat);
    assert(h * p <= (h + f) * p) by (nonlinear_arith)
        requires
            f >= 0,
            p > 0,
    ;
}

/// Whether `p` steps of two to the `k`th units make exactly `n / d` units.
spec fn exact_steps(p: int, k: int, n: int, d: int) -> bool {
    d * (p * up(k)) == n * down(k)
}

/// Doubles a number of steps, and halves the step, until there are more than two to the 24th.
fn refined(p: u128, k: i32, Ghost(n): Ghost<int>, Ghost(d): Ghost<int>) -> (r: (u128, i32))
    requires
        0 < p < 0x1000_0000_0000_0000_0000,
        -400 <= k <= 400,
        exact_steps(p as int, k as int, n, d),
    ensures
        0x100_0000 <= r.0 < 0x1000_0000_0000_0000_0000,
        -430 <= r.1 <= 400,
        exact_steps(r.0 as int, r.1 as int, n, d),
{
    let mut q: u128 = p;
    let mut j: i32 = k;
    let ghost mut c: int = 1;
    proof {
        vstd::arithmetic::power2::lemma2_to64();
    }
    while q < 0x100_0000
        invariant
            0 < q < 0x1000_0000_0000_0000_0000,
            -400 <= k <= 400,
            k - 24 <= j <= k,
            q >= c,
            c >= 1,
            c == pow2((k - j) as nat),
            exact_steps(q as int, j as int, n, d),
        decreases j - k + 24,
    {
        proof {
            vstd::arithmetic::power2::lemma2_to64();
            lemma_up_down(j as int);
            lemma_pow2_adds(1, (k - j) as nat);
            if k - j == 24 {
                assert(c == 0x100_0000);
            }
            let u = up(j - 1);
            let v = down(j as int);
            assert(d * ((2 * q) * u) == 2 * (d * (q * u))) by (nonlinear_arith);
            assert(d * (q * (2 * u)) == 2 * (d * (q * u))) by (nonlinear_arith);
            assert(n * (2 * v) == 2 * (n * v)) by (nonlinear_arith);
            c = 2 * c;
        }
        q = 2 * q;
        j = j - 1;
    }
    (q, j)
}

/// Rounds the value `n / d`, which lies between `p` and `p + 1` steps of two to the `k`th units,
/// and is more than `p` of them exactly if `more` says so.
#[verifier::rlimit(30)]
fn rounded(p: u128, more: bool, k: i32, Ghost(n): Ghost<int>, Ghost(d): Ghost<int>) -> (m: u32)
    requires
        0x100_0000 <= p < 0x1000_0000_0000_0000_0000,
        -430 <= k <= 430,
        d > 0,
        d * (p * up(k as int)) <= n * down(k as int),
        n * down(k as int) < d * ((p + 1) * up(k as int)),
        more <==> !exact_steps(p as int, k as int, n, d),
    ensures
        m == nearest(n, d),
        is_nearest(m as int, n, d),
        m <= INFINITE,
{
    let ghost s = up(k as int);
    let ghost c = down(k as int);
    proof {
        lemma_up_down(k as int);
        vstd::arithmetic::power2::lemma2_to64();
    }
    if k < -80 {
        // Less than a half of the smallest magnitude.
        proof {
            vstd::arithmetic::power2::lemma_pow2_strictly_increases(80, (-k) as nat);
            lemma_pow2_large();
            assert(2 * n < d) by (nonlinear_arith)
                requires
                    n * c < d * ((p + 1) * s),
                    s == 1,
                    p + 1 <= 0x1000_0000_0000_0000_0000,
                    c > 0x1_0000_0000_0000_0000_0000,
                    d > 0,
            ;
            assert(magnitude_units(0) == 0 && magnitude_units(1) == 1);
            lemma_nearest_is(0, n, d);
        }
        return 0;
    }
    let mut w: u128 = 1;
    let mut lost: i32 = 0;
    while p / w >= 0x100_0000 || k + lost < 0
        invariant
            0x100_0000 <= p < 0x1000_0000_0000_0000_0000,
            -80 <= k <= 430,
            0 <= lost <= 80,
            w == pow2(lost as nat),
            1 <= w,
            lost == 0 ==> w == 1,
            lost > 0 ==> w % 2 == 0,
            lost > 0 ==> k + lost <= 0 || p / w >= HIDDEN,
        decreases 100 - lost,
    {
        proof {
            vstd::arithmetic::power2::lemma2_to64();
            lemma_pow2_adds(lost as nat, 1);
            vstd::arithmetic::div_mod::lemma_div_denominator(p as int, w as int, 2);
            lemma_pow2_large();
            if lost == 80 {
                // So many steps in one leave nothing of `p`.
                vstd::arithmetic::div_mod::lemma_basic_div(p as int, w as int);
            } else if lost < 79 {
                vstd::arithmetic::power2::lemma_pow2_strictly_increases(lost as nat, 79);
            }
        }
        w = 2 * w;
        lost = lost + 1;
    }
    let q: u128 = p / w;
    let r: u128 = p % w;
    proof {
        lemma_pow2_large();
        if lost < 80 {
            vstd::arithmetic::power2::lemma_pow2_strictly_increases(lost as nat, 80);
        }
    }
    let away: bool = 2 * r > w || (2 * r == w && (more || q % 2 == 1));
    let e: u32 = (k + lost) as u32;
    let m: u32 = e * HIDDEN + q as u32;
    proof {
        vstd::arithmetic::div_mod::lemma_fundamental_div_mod(p as int, w as int);
        assert(q * w + r == p) by (nonlinear_arith)
            requires
                p == w * q + r,
        ;
        lemma_joined(q as int, e as int);
        let x = pow2(e as nat) as int;
        assert(c * x == w * s) by {
            if k >= 0 {
                lemma_pow2_adds(lost as nat, k as nat);
            } else {
                lemma_pow2_adds((-k) as nat, e as nat);
            }
        }
        let ghost qi = q as int;
        let ghost wi = w as int;
        assert(c * (qi * x) == (qi * wi) * s && c * ((qi + 1) * x) == ((qi + 1) * wi) * s)
            by (nonlinear_arith)
            requires
                c * x == wi * s,
        ;
        if m < INFINITE {
            lemma_round(n, d, qi, wi, r as int, s, c, more, m as int, away);
            lemma_nearest_is(
                if away {
                    m + 1
                } else {
                    m as int
                },
                n,
                d,
            );
        } else {
            let top = INFINITE as int;
            lemma_units_order(top, m as int);
            lemma_units_order(m as int, top);
            lemma_units_increase(top - 1, top);
            let a = magnitude_units(top - 1);
            let b = magnitude_units(top);
            let u = magnitude_units(m as int);
            assert(d * (c * u) <= d * (p * s)) by (nonlinear_arith)
                requires
                    c * u == (qi * wi) * s,
                    qi * wi <= p,
                    s > 0,
                    d > 0,
            ;
            assert(d * (a + b) < 2 * n) by (nonlinear_arith)
                requires
                    d * (c * u) <= n * c,
                    a < b <= u,
                    c > 0,
                    d > 0,
            ;
            lemma_nearest_is(top, n, d);
        }
    }
    if m >= INFINITE {
        INFINITE
    } else if away {
        m + 1
    } else {
        m
    }
}

/// From two to the 23rd on every number is whole.
proof fn lemma_large_is_whole(v: Value)
    requires
        v.magnitude() >= 150 * HIDDEN,
        !v.is_nan(),
    ensures
        rounded_away(v) == v.whole_part(),
        size(v) == absolute(rounded_away(v)) * unit(),
{
    let z = size(v);
    let t = unit();
    let m = v.magnitude();
    lemma_pow2_pos(149);
    let e = m / (HIDDEN as int);
    let f = HIDDEN + m % (HIDDEN as int);
    let g = pow2((e - 150) as nat) as int;
    lemma_pow2_pos((e - 150) as nat);
    lemma_pow2_adds((e - 150) as nat, 149);
    let y = f * g;
    assert(y >= 0) by (nonlinear_arith)
        requires
            y == f * g,
            f >= 0,
            g >= 0,
    ;
    assert(f * (g * t) == t * (f * g)) by (nonlinear_arith);
    vstd::arithmetic::div_mod::lemma_div_multiples_vanish(y, t);
    assert((2 * y + 1) * t == 2 * z + t && z == y * t) by (nonlinear_arith)
        requires
            z == t * y,
    ;
    vstd::arithmetic::div_mod::lemma_div_denominator(2 * z + t, t, 2);
    vstd::arithmetic::div_mod::lemma_div_by_multiple(2 * y + 1, t);
    assert((2 * z + t) / (2 * t) == y) by {
        assert(t * 2 == 2 * t);
    }
}

/// A number below two to the 23rd is rounded to at most that.
proof fn lemma_small_rounds(v: Value)
    requires
        v.magnitude() < 150 * HIDDEN,
    ensures
        -HIDDEN <= rounded_away(v) <= HIDDEN,
{
    let z = size(v);
    let t = unit();
    let h = HIDDEN as int;
    lemma_pow2_pos(149);
    lemma_units_increase(v.magnitude(), 150 * h);
    lemma_units_nonnegative(v.magnitude());
    assert((150 * h) / h == 150 && (150 * h) % h == 0);
    assert(z < h * t);
    assert(2 * z + t <= (2 * h + 1) * t) by (nonlinear_arith)
        requires
            z < h * t,
    ;
    vstd::arithmetic::div_mod::lemma_div_is_ordered(2 * z + t, (2 * h + 1) * t, 2 * t);
    vstd::arithmetic::div_mod::lemma_div_denominator((2 * h + 1) * t, t, 2);
    vstd::arithmetic::div_mod::lemma_div_by_multiple(2 * h + 1, t);
    vstd::arithmetic::div_mod::lemma_div_pos_is_pos(2 * z + t, 2 * t);
    assert(t * 2 == 2 * t);
}

fn with_sign(negative: bool, magnitude: u32) -> (v: Value)
    requires
        magnitude <= INFINITE,
    ensures
        v == signed(negative, magnitude as int),
{
    if negative {
        Value { bits: SIGN + magnitude }
    } else {
        Value { bits: magnitude }
    }
}

fn not_defined() -> (v: Value)
    ensures
        v == undefined(),
{
    Value { bits: 0x7fc0_0000 }
}

/// Rounds the value `n / d` that is exactly `p` steps of two to the `k`th units.
fn rounded_exact(p: u128, k: i32, Ghost(n): Ghost<int>, Ghost(d): Ghost<int>) -> (m: u32)
    requires
        0 < p < 0x1000_0000_0000_0000_0000,
        -400 <= k <= 400,
        d > 0,
        exact_steps(p as int, k as int, n, d),
    ensures
        m == nearest(n, d),
        m <= INFINITE,
{
    let (q, j) = refined(p, k, Ghost(n), Ghost(d));
    proof {
        lemma_up_down(j as int);
        let u = up(j as int);
        assert(d * (q * u) < d * ((q + 1) * u)) by (nonlinear_arith)
            requires
                u > 0,
                d > 0,
        ;
    }
    rounded(q, false, j, Ghost(n), Ghost(d))
}

/// Rounds the sum of two magnitudes, or their difference.
fn combined(a: u32, b: u32, apart: bool) -> (m: u32)
    requires
        b <= a < INFINITE,
        a > 0,
        apart ==> b < a,
    ensures
        m == nearest(
            if apart {
                magnitude_units(a as int) - magnitude_units(b as int)
            } else {
                magnitude_units(a as int) + magnitude_units(b as int)
            },
            1,
        ),
        m <= INFINITE,
{
    let (sa, ea) = split(a);
    let (sb, eb) = split(b);
    let ghost x = magnitude_units(a as int);
    let ghost y = magnitude_units(b as int);
    let ghost n = if apart {
        x - y
    } else {
        x + y
    };
    proof {
        lemma_pow2_pos(ea as nat);
        lemma_pow2_pos(eb as nat);
        assert(ea >= eb);
        lemma_units_order(b as int, a as int);
        lemma_units_nonnegative(b as int);
    }
    let gap: u32 = ea - eb;
    if gap <= 50 {
        proof {
            lemma_pow2_adds(gap as nat, eb as nat);
            vstd::arithmetic::power2::lemma2_to64();
            vstd::arithmetic::power2::lemma2_to64_rest();
            if gap < 50 {
                vstd::arithmetic::power2::lemma_pow2_strictly_increases(gap as nat, 50);
            }
        }
        let shift: u128 = power(gap);
        assert(sa * shift <= 0x100_0000 * 0x4_0000_0000_0000) by (nonlinear_arith)
            requires
                0 <= sa <= 0x100_0000,
                0 <= shift <= 0x4_0000_0000_0000,
        ;
        let lifted: u128 = sa as u128 * shift;
        proof {
            let g = pow2(eb as nat) as int;
            let l = lifted as int;
            assert(x == l * g) by (nonlinear_arith)
                requires
                    x == sa * (shift * g),
                    l == sa * shift,
            ;
            assert((l + sb) * g == x + y && (l - sb) * g == x - y) by (nonlinear_arith)
                requires
                    x == l * g,
                    y == sb * g,
            ;
            if apart {
                assert(l > sb) by (nonlinear_arith)
                    requires
                        (l - sb) * g > 0,
                        g > 0,
                ;
            }
            assert(l >= sa) by (nonlinear_arith)
                requires
                    l == sa * shift,
                    shift >= 1,
                    sa >= 0,
            ;
        }
        let p: u128 = if apart {
            lifted - sb as u128
        } else {
            lifted + sb as u128
        };
        assert(exact_steps(p as int, eb as int, n, 1));
        rounded_exact(p, eb as i32, Ghost(n), Ghost(1))
    } else {
        let lifted: u128 = sa as u128 * 0x400_0000;
        let p: u128 = if apart && b != 0 {
            lifted - 1
        } else {
            lifted
        };
        let k: i32 = ea as i32 - 26;
        proof {
            let s = pow2(k as nat) as int;
            let l = lifted as int;
            vstd::arithmetic::power2::lemma2_to64();
            lemma_pow2_adds(26, k as nat);
            lemma_pow2_pos(k as nat);
            assert(x == l * s) by (nonlinear_arith)
                requires
                    x == sa * (0x400_0000 * s),
                    l == sa * 0x400_0000,
            ;
            // The smaller magnitude is less than one step.
            lemma_pow2_adds(24, eb as nat);
            if eb + 24 < k {
                vstd::arithmetic::power2::lemma_pow2_strictly_increases(
                    (eb + 24) as nat,
                    k as nat,
                );
            }
            let g = pow2(eb as nat) as int;
            assert(y < 0x100_0000 * g) by (nonlinear_arith)
                requires
                    y == sb * g,
                    sb < 0x100_0000,
                    g > 0,
            ;
            assert(y < s);
            let pi = p as int;
            assert((l + 1) * s == l * s + s && (l - 1) * s == l * s - s) by (nonlinear_arith);
            assert(b != 0 <==> y != 0) by {
                lemma_units_order(b as int, 0);
                assert(magnitude_units(0) == 0);
            }
            if apart && b != 0 {
                assert(pi == l - 1);
                assert((pi + 1) * s == l * s);
            } else {
                assert(pi == l);
            }
            assert(pi * s <= n < (pi + 1) * s);
            assert(1 * (pi * s) == pi * s && 1 * ((pi + 1) * s) == (pi + 1) * s && n * 1 == n);
        }
        rounded(p, b != 0, k, Ghost(n), Ghost(1))
    }
}

/// Two to the `n`th.
pub(crate) fn power(n: u32) -> (p: u128)
    requires
        n <= 100,
    ensures
        p == pow2(n as nat),
{
    let mut p: u128 = 1;
    let mut i: u32 = 0;
    proof {
        vstd::arithmetic::power2::lemma2_to64();
    }
    while i < n
        invariant
            i <= n <= 100,
            p == pow2(i as nat),
        decreases n - i,
    {
        proof {
            vstd::arithmetic::power2::lemma2_to64();
            lemma_pow2_adds(1, i as nat);
            lemma_pow2_adds(64, 36);
            lemma_pow2_adds(32, 4);
            if i < 100 {
                vstd::arithmetic::power2::lemma_pow2_strictly_increases(i as nat, 100);
            }
        }
        p = 2 * p;
        i += 1;
    }
    p
}

impl Value {
    /// The product of two values.
    pub fn times(self, other: Value) -> (r: Value)
        ensures
            r == product(self, other),
    {
        let a: u32 = self.bits % SIGN;
        let b: u32 = other.bits % SIGN;
        let negative: bool = (self.bits >= SIGN) != (other.bits >= SIGN);
        if a > INFINITE || b > INFINITE {
            return not_defined();
        }
        if a == INFINITE || b == INFINITE {
            return if a == 0 || b == 0 {
                not_defined()
            } else {
                with_sign(negative, INFINITE)
            };
        }
        let (sa, ea) = split(a);
        let (sb, eb) = split(b);
        let ghost n = size(self) * size(other);
        proof {
            lemma_pow2_pos(149);
        }
        if a == 0 || b == 0 {
            proof {
                assert(magnitude_units(0) == 0);
                assert(n == 0) by (nonlinear_arith)
                    requires
                        n == size(self) * size(other),
                        size(self) == 0 || size(other) == 0,
                ;
                assert(unit() * 0 == 0);
                lemma_exact(0, n, unit());
            }
            return with_sign(negative, 0);
        }
        assert(0 < sa * sb < 0x1_0000_0000_0000) by (nonlinear_arith)
            requires
                0 < sa < 0x100_0000,
                0 < sb < 0x100_0000,
        ;
        let p: u64 = sa as u64 * sb as u64;
        let k: i32 = ea as i32 + eb as i32 - 149;
        proof {
            let x = pow2(ea as nat) as int;
            let y = pow2(eb as nat) as int;
            let pi = p as int;
            lemma_pow2_adds(ea as nat, eb as nat);
            assert((sa * x) * (sb * y) == (sa * sb) * (x * y)) by (nonlinear_arith);
            assert(n == pi * (x * y));
            let u = up(k as int);
            let v = down(k as int);
            lemma_aligned(149, ea + eb, k as int);
            let t = unit();
            assert(t * (pi * u) == (pi * (x * y)) * v) by (nonlinear_arith)
                requires
                    t * u == (x * y) * v,
            ;
        }
        with_sign(negative, rounded_exact(p as u128, k, Ghost(n), Ghost(unit())))
    }

    /// The quotient of two values.
    pub fn over(self, other: Value) -> (r: Value)
        ensures
            r == quotient(self, other),
    {
        let a: u32 = self.bits % SIGN;
        let b: u32 = other.bits % SIGN;
        let negative: bool = (self.bits >= SIGN) != (other.bits >= SIGN);
        if a > INFINITE || b > INFINITE || (a == INFINITE && b == INFINITE) || (a == 0 && b == 0) {
            return not_defined();
        }
        if a == INFINITE || b == 0 {
            return with_sign(negative, INFINITE);
        }
        if b == INFINITE {
            return with_sign(negative, 0);
        }
        let (sa, ea) = split(a);
        let (sb, eb) = split(b);
        let ghost n = size(self) * unit();
        let ghost d = size(other);
        proof {
            lemma_units_increase(0, b as int);
            assert(magnitude_units(0) == 0);
        }
        if a == 0 {
            proof {
                assert(n == 0) by (nonlinear_arith)
                    requires
                        n == size(self) * unit(),
                        size(self) == 0,
                ;
                assert(d * 0 == 0);
                lemma_exact(0, n, d);
            }
            return with_sign(negative, 0);
        }
        let numerator: u128 = sa as u128 * 0x4_0000_0000_0000;
        let p: u128 = numerator / sb as u128;
        let rest: u128 = numerator % sb as u128;
        let k: i32 = 99 + ea as i32 - eb as i32;
        proof {
            let pi = p as int;
            let si = sb as int;
            let ri = rest as int;
            let x = pow2(ea as nat) as int;
            let y = pow2(eb as nat) as int;
            let u = up(k as int);
            let v = down(k as int);
            lemma_up_down(k as int);
            vstd::arithmetic::div_mod::lemma_fundamental_div_mod(numerator as int, si);
            // `n` is the numerator times two to the `ea + 99`th.
            let z = pow2((ea + 99) as nat) as int;
            vstd::arithmetic::power2::lemma2_to64();
            vstd::arithmetic::power2::lemma2_to64_rest();
            lemma_pow2_adds(50, 99);
            lemma_pow2_adds(ea as nat, 99);
            let f = pow2(99) as int;
            assert(n == numerator * z) by {
                assert((sa * x) * (0x4_0000_0000_0000 * f) == (sa * 0x4_0000_0000_0000) * (x * f))
                    by (nonlinear_arith);
            }
            let w = y * u;
            lemma_aligned(eb as int, ea + 99, k as int);
            lemma_pow2_pos(eb as nat);
            assert(w > 0) by (nonlinear_arith)
                requires
                    w == y * u,
                    y > 0,
                    u > 0,
            ;
            assert(d * (pi * u) == (si * pi) * w && d * ((pi + 1) * u) == (si * pi + si) * w)
                by (nonlinear_arith)
                requires
                    d == si * y,
                    w == y * u,
            ;
            let ni = numerator as int;
            assert(n * v == ni * w) by (nonlinear_arith)
                requires
                    n == ni * z,
                    w == z * v,
            ;
            assert((si * pi) * w <= ni * w < (si * pi + si) * w && (ri != 0 <==> ni * w != (si * pi)
                * w)) by (nonlinear_arith)
                requires
                    ni == si * pi + ri,
                    0 <= ri < si,
                    w > 0,
            ;
            assert(si * pi <= 0x100_0000 * pi) by (nonlinear_arith)
                requires
                    si <= 0x100_0000,
                    0 <= pi,
            ;
            assert(pi <= ni) by (nonlinear_arith)
                requires
                    ni == si * pi + ri,
                    0 <= ri,
                    1 <= si,
                    0 <= pi,
            ;
        }
        with_sign(negative, rounded(p, rest != 0, k, Ghost(n), Ghost(d)))
    }

    /// The number nearest to the whole number `n`.
    pub fn of_int(n: i32) -> (r: Value)
        ensures
            r == number(n as int),
    {
        if n == 0 {
            proof {
                assert(0 * unit() == 0);
                assert(magnitude_units(0) == 0);
                lemma_exact(0, 0, 1);
            }
            return with_sign(false, 0);
        }
        let p: u64 = if n < 0 {
            (-(n as i64)) as u64
        } else {
            n as u64
        };
        assert(exact_steps(p as int, 149, p * unit(), 1)) by {
            let x = p * unit();
            assert(1 * x == x * 1);
        }
        with_sign(n < 0, rounded_exact(p as u128, 149, Ghost(p * unit()), Ghost(1)))
    }

    /// The number nearest to the whole number `n`; infinity for one that is too large.
    pub fn of_large(n: u128) -> (r: Value)
        ensures
            r == number(n as int),
    {
        if n <= 0x7fff_ffff {
            return Value::of_int(n as i32);
        }
        proof {
            lemma_pow2_pos(149);
        }
        if n < 0x1000_0000_0000_0000_0000 {
            assert(exact_steps(n as int, 149, n * unit(), 1)) by {
                let x = n * unit();
                assert(1 * x == x * 1);
            }
            return with_sign(false, rounded_exact(n, 149, Ghost(n * unit()), Ghost(1)));
        }
        let p: u128 = n / 0x10_0000_0000_0000;
        let rest: u128 = n % 0x10_0000_0000_0000;
        proof {
            let t = unit();
            let s = up(201);
            vstd::arithmetic::power2::lemma2_to64();
            vstd::arithmetic::power2::lemma2_to64_rest();
            lemma_pow2_adds(52, 149);
            let pi = p as int;
            let ni = n as int;
            let ri = rest as int;
            assert(pi * s <= ni * t < (pi + 1) * s && (ri != 0 <==> ni * t != pi * s))
                by (nonlinear_arith)
                requires
                    s == 0x10_0000_0000_0000 * t,
                    ni == 0x10_0000_0000_0000 * pi + ri,
                    0 <= ri < 0x10_0000_0000_0000,
                    t > 0,
            ;
            let x = ni * t;
            assert(1 * (pi * s) == pi * s && 1 * ((pi + 1) * s) == (pi + 1) * s && x * 1 == x);
        }
        with_sign(false, rounded(p, rest != 0, 201, Ghost(n * unit()), Ghost(1)))
    }

    /// The sum of two values.
    pub fn plus(self, other: Value) -> (r: Value)
        ensures
            r == sum(self, other),
    {
        let a: u32 = self.bits % SIGN;
        let b: u32 = other.bits % SIGN;
        let negative_a: bool = self.bits >= SIGN;
        let negative_b: bool = other.bits >= SIGN;
        if a > INFINITE || b > INFINITE || (a == INFINITE && b == INFINITE && negative_a
            != negative_b) {
            return not_defined();
        }
        if a == INFINITE {
            return self;
        }
        if b == INFINITE {
            return other;
        }
        proof {
            lemma_units_order(a as int, b as int);
            lemma_units_nonnegative(a as int);
            lemma_units_nonnegative(b as int);
            lemma_units_order(a as int, 0);
            lemma_units_order(b as int, 0);
            assert(magnitude_units(0) == 0);
        }
        if a == b && negative_a != negative_b {
            return with_sign(false, 0);
        }
        if a == 0 && b == 0 {
            return with_sign(negative_a, 0);
        }
        if a >= b {
            with_sign(negative_a, combined(a, b, negative_a != negative_b))
        } else {
            with_sign(negative_b, combined(b, a, negative_a != negative_b))
        }
    }

    /// The difference of two values.
    pub fn minus(self, other: Value) -> (r: Value)
        ensures
            r == sum(self, negated(other)),
    {
        self.plus(other.opposite())
    }

    /// The value with the other sign.
    pub fn opposite(self) -> (r: Value)
        ensures
            r == negated(self),
    {
        if self.bits >= SIGN {
            Value { bits: self.bits - SIGN }
        } else {
            Value { bits: self.bits + SIGN }
        }
    }

    /// This value, brought between two bounds.
    pub fn within(self, low: Value, high: Value) -> (r: Value)
        ensures
            r == bounded(self, low, high),
    {
        if low.exceeds(self) {
            low
        } else if self.exceeds(high) {
            high
        } else {
            self
        }
    }

    /// This value, rounded to the nearest whole number.
    pub fn round(self) -> (r: Value)
        ensures
            r == rounded_value(self),
    {
        let m: u32 = self.bits % SIGN;
        if m > INFINITE {
            return not_defined();
        }
        if m >= 150 * HIDDEN {
            proof {
                lemma_large_is_whole(self);
                if m < INFINITE {
                    lemma_exact(m as int, size(self), 1);
                }
            }
            return self;
        }
        proof {
            lemma_small_rounds(self);
        }
        let n: i32 = self.round_to_int();
        let whole = Value::of_int(
            if n < 0 {
                -n
            } else {
                n
            },
        );
        proof {
            lemma_whole(absolute(n as int));
        }
        with_sign(self.bits >= SIGN, whole.bits)
    }

    /// The nearest whole number, brought into the range of an `i32`.
    pub fn round_to_int(self) -> (n: i32)
        ensures
            n == clamped(rounded_away(self), i32::MIN as int, i32::MAX as int),
    {
        let m: u32 = self.bits % SIGN;
        if m > INFINITE {
            return 0;
        }
        let ghost z = size(self);
        let ghost t = unit();
        proof {
            lemma_pow2_pos(149);
            vstd::arithmetic::power2::lemma2_to64();
        }
        if m >= 150 * HIDDEN {
            proof {
                lemma_large_is_whole(self);
            }
            return self.to_int();
        }
        let (s, e) = split(m);
        let drop: u64 = 149 - e as u64;
        proof {
            let x = pow2(e as nat) as int;
            let g = pow2(drop as nat) as int;
            lemma_pow2_pos(e as nat);
            lemma_pow2_pos(drop as nat);
            lemma_pow2_adds(e as nat, drop as nat);
            let y = 2 * s + g;
            assert(x * y == 2 * z + t && (2 * g) * x == 2 * t) by (nonlinear_arith)
                requires
                    z == s * x,
                    t == x * g,
                    y == 2 * s + g,
            ;
            assert(x * (2 * g) == (2 * g) * x) by (nonlinear_arith);
            vstd::arithmetic::div_mod::lemma_div_denominator(2 * z + t, x, 2 * g);
            vstd::arithmetic::div_mod::lemma_div_multiples_vanish(y, x);
            assert((2 * z + t) / (2 * t) == y / (2 * g));
            if drop >= 26 {
                if drop > 26 {
                    vstd::arithmetic::power2::lemma_pow2_strictly_increases(26, drop as nat);
                }
                vstd::arithmetic::div_mod::lemma_basic_div(y, 2 * g);
            }
        }
        if drop >= 26 {
            return 0;
        }
        proof {
            let g = pow2(drop as nat) as int;
            if drop < 25 {
                vstd::arithmetic::power2::lemma_pow2_strictly_increases(drop as nat, 25);
            }
            lemma_pow2_adds(1, drop as nat);
            vstd::bits::lemma_u64_shl_is_mul(1, drop);
        }
        let half: u64 = 1u64 << drop;
        let w: u64 = (2 * s as u64 + half) / (2 * half);
        proof {
            vstd::arithmetic::div_mod::lemma_div_pos_is_pos(2 * s + half, 2 * half);
            assert(w <= 0x400_0000) by {
                vstd::arithmetic::div_mod::lemma_div_nonincreasing(2 * s + half, 2 * half);
            }
        }
        if self.bits >= SIGN {
            -(w as i32)
        } else {
            w as i32
        }
    }
}

/// Rounding finds the magnitude that lies nearest: none lies nearer, and of two that are equally
/// near it is the one with the even bit pattern.
pub proof fn law_rounding_is_to_the_nearest(n: int, d: int, m: int)
    requires
        d > 0,
        0 <= m <= INFINITE,
    ensures
        absolute(d * magnitude_units(nearest(n, d)) - n) <= absolute(d * magnitude_units(m) - n),
        m != nearest(n, d) && absolute(d * magnitude_units(nearest(n, d)) - n) == absolute(
            d * magnitude_units(m) - n,
        ) ==> nearest(n, d) % 2 == 0,
{
    let k = nearest(n, d);
    lemma_nearest_exists(n, d);
    let z = magnitude_units(k);
    let u = magnitude_units(m);
    if m > k {
        let v = magnitude_units(k + 1);
        if m > k + 1 {
            lemma_units_increase(k + 1, m);
        }
        lemma_units_increase(k, k + 1);
        assert(d * v <= d * u && d * z < d * v && d * (z + v) == d * z + d * v && (v < u ==> d * v
            < d * u)) by (nonlinear_arith)
            requires
                v <= u,
                z < v,
                d > 0,
        ;
    } else if m < k {
        let v = magnitude_units(k - 1);
        if m < k - 1 {
            lemma_units_increase(m, k - 1);
        }
        lemma_units_increase(k - 1, k);
        assert(d * u <= d * v && d * v < d * z && d * (v + z) == d * v + d * z && (u < v ==> d * u
            < d * v)) by (nonlinear_arith)
            requires
                u <= v,
                v < z,
                d > 0,
        ;
    }
}

/// Rounding to a whole number moves a number by no more than one half, and by one half only
/// away from zero.
pub proof fn law_whole_rounding_is_to_the_nearest(v: Value)
    ensures
        v.is_nan() ==> rounded_away(v) == 0,
        !v.is_nan() ==> 2 * size(v) - unit() < 2 * (absolute(rounded_away(v)) * unit()) <= 2 * size(
            v,
        ) + unit(),
        v.negative() ==> rounded_away(v) <= 0,
        !v.negative() ==> rounded_away(v) >= 0,
{
    let t = unit();
    let z = size(v);
    lemma_pow2_pos(149);
    lemma_units_nonnegative(v.magnitude());
    vstd::arithmetic::div_mod::lemma_fundamental_div_mod(2 * z + t, 2 * t);
    let r = (2 * z + t) / (2 * t);
    let q = (2 * z + t) % (2 * t);
    assert(r >= 0) by (nonlinear_arith)
        requires
            2 * z + t == (2 * t) * r + q,
            0 <= q < 2 * t,
            z >= 0,
            t > 0,
    ;
    assert((2 * t) * r == 2 * (r * t)) by (nonlinear_arith);
}

/// A bounded value lies between the bounds, and is the value itself where that does.
pub proof fn law_bounds_hold(v: Value, low: Value, high: Value)
    requires
        !v.is_nan(),
        !low.is_nan(),
        !high.is_nan(),
        low.scaled() <= high.scaled(),
    ensures
        low.scaled() <= bounded(v, low, high).scaled() <= high.scaled(),
        low.scaled() <= v.scaled() <= high.scaled() ==> bounded(v, low, high) == v,
        v.scaled() < low.scaled() ==> bounded(v, low, high) == low,
        v.scaled() > high.scaled() ==> bounded(v, low, high) == high,
{
}

/// Sums and products do not depend on the order of their parts, and the value with the other
/// sign counts the same units the other way.
pub proof fn law_order_of_parts_does_not_matter(a: Value, b: Value)
    ensures
        product(a, b) == product(b, a),
        !a.is_nan() && !b.is_nan() ==> sum(a, b) == sum(b, a) || infinite(a) && infinite(b),
        !a.is_nan() ==> negated(a).scaled() == -a.scaled() && negated(negated(a)) == a,
{
    assert(size(a) * size(b) == size(b) * size(a)) by (nonlinear_arith);
}

} // verus!
