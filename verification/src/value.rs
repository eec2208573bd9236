//! Feature values: single-precision numbers, kept as their IEEE 754 bit patterns.
//!
//! The device speaks in single-precision numbers, and profiles store them. Everything
//! that is decided about such a number here (its order, its range, its whole part) is
//! decided on the bit pattern. The model is an integer: every number of this format
//! is a whole multiple of two to the minus 149th, and [`Value::scaled`] counts those units.

use vstd::arithmetic::power2::lemma_pow2_adds;
use vstd::arithmetic::power2::lemma_pow2_pos;
use vstd::arithmetic::power2::lemma_pow2_strictly_increases;
use vstd::arithmetic::power2::pow2;
use vstd::prelude::*;

verus! {

/// The sign bit.
pub const SIGN: u32 = 0x8000_0000;

/// The smallest magnitude that has exponent one; also the unit of the exponent field.
pub const HIDDEN: u32 = 0x80_0000;

/// The magnitude of infinity; every larger magnitude is not a number.
pub const INFINITE: u32 = 0x7f80_0000;

/// A single-precision number.
#[derive(Clone, Copy, Debug, PartialEq, Eq, Structural)]
pub struct Value {
    pub bits: u32,
}

/// How many units make one.
pub open spec fn unit() -> int {
    pow2(149) as int
}

/// How many units a magnitude (a bit pattern without its sign) stands for.
pub open spec fn magnitude_units(magnitude: int) -> int {
    let exponent = magnitude / (HIDDEN as int);
    let fraction = magnitude % (HIDDEN as int);
    if exponent == 0 {
        fraction
    } else {
        (HIDDEN + fraction) * pow2((exponent - 1) as nat)
    }
}

impl Value {
    /// The bit pattern without its sign.
    pub open spec fn magnitude(self) -> int {
        self.bits as int % (SIGN as int)
    }

    /// Whether the sign bit is set.
    pub open spec fn negative(self) -> bool {
        self.bits >= SIGN
    }

    /// Whether this is not a number.
    pub open spec fn is_nan(self) -> bool {
        self.magnitude() > INFINITE
    }

    /// How many units of two to the minus 149th this number is. An infinity counts as the
    /// number that would follow the largest finite one.
    pub open spec fn scaled(self) -> int {
        if self.negative() {
            -magnitude_units(self.magnitude())
        } else {
            magnitude_units(self.magnitude())
        }
    }

    /// Whether this number equals the whole number `n`.
    pub open spec fn is_whole(self, n: int) -> bool {
        !self.is_nan() && self.scaled() == n * unit()
    }

    /// Whether this number lies between the whole numbers `low` and `high`, both included.
    pub open spec fn is_between(self, low: int, high: int) -> bool {
        !self.is_nan() && low * unit() <= self.scaled() <= high * unit()
    }

    /// Whether two values are the same number: zero equals minus zero, and what is not a
    /// number equals nothing.
    pub open spec fn equals(self, other: Value) -> bool {
        !self.is_nan() && !other.is_nan() && self.scaled() == other.scaled()
    }

    /// Whether this number is at least `other`. What is not a number is not.
    pub open spec fn at_least(self, other: Value) -> bool {
        !self.is_nan() && !other.is_nan() && self.scaled() >= other.scaled()
    }

    /// Whether this number is above `other`. What is not a number is not.
    pub open spec fn above(self, other: Value) -> bool {
        !self.is_nan() && !other.is_nan() && self.scaled() > other.scaled()
    }

    /// The whole part, rounded towards zero; zero for what is not a number.
    pub open spec fn whole_part(self) -> int {
        if self.is_nan() {
            0
        } else if self.negative() {
            -(magnitude_units(self.magnitude()) / unit())
        } else {
            magnitude_units(self.magnitude()) / unit()
        }
    }
}

/// No magnitude stands for fewer than zero units.
pub proof fn lemma_units_nonnegative(m: int)
    requires
        0 <= m,
    ensures
        magnitude_units(m) >= 0,
{
    let exponent = m / (HIDDEN as int);
    let fraction = m % (HIDDEN as int);
    if exponent != 0 {
        lemma_pow2_pos((exponent - 1) as nat);
        assert((HIDDEN + fraction) * pow2((exponent - 1) as nat) >= 0) by (nonlinear_arith)
            requires
                fraction >= 0,
                pow2((exponent - 1) as nat) > 0,
        ;
    }
}

/// A larger magnitude stands for more units.
pub proof fn lemma_units_increase(m: int, n: int)
    requires
        0 <= m < n,
    ensures
        magnitude_units(m) < magnitude_units(n),
{
    let h = HIDDEN as int;
    let em = m / h;
    let fm = m % h;
    let en = n / h;
    let fn_ = n % h;
    if em == en {
        if em > 0 {
            let p = pow2((em - 1) as nat) as int;
            lemma_pow2_pos((em - 1) as nat);
            assert((h + fm) * p < (h + fn_) * p) by (nonlinear_arith)
                requires
                    fm < fn_,
                    p > 0,
            ;
        }
    } else {
        let p = pow2((en - 1) as nat) as int;
        lemma_pow2_pos((en - 1) as nat);
        assert((h + fn_) * p >= h * p) by (nonlinear_arith)
            requires
                fn_ >= 0,
                p > 0,
        ;
        if em == 0 {
            assert(h * p >= h) by (nonlinear_arith)
                requires
                    p >= 1,
                    h >= 0,
            ;
        } else {
            let q = pow2((em - 1) as nat) as int;
            lemma_pow2_pos((em - 1) as nat);
            lemma_pow2_adds(1, (em - 1) as nat);
            assert(pow2(1) == 2) by {
                vstd::arithmetic::power2::lemma2_to64();
            }
            assert(pow2(em as nat) == 2 * q);
            assert(pow2(em as nat) <= p) by {
                if em < en - 1 {
                    lemma_pow2_strictly_increases(em as nat, (en - 1) as nat);
                }
            }
            assert((h + fm) * q < h * p) by (nonlinear_arith)
                requires
                    fm < h,
                    q > 0,
                    2 * q <= p,
                    h > 0,
            ;
        }
    }
}

/// Magnitudes are ordered as the units that they stand for.
pub proof fn lemma_units_order(m: int, n: int)
    requires
        0 <= m,
        0 <= n,
    ensures
        magnitude_units(m) < magnitude_units(n) <==> m < n,
        magnitude_units(m) == magnitude_units(n) <==> m == n,
{
    if m < n {
        lemma_units_increase(m, n);
    } else if n < m {
        lemma_units_increase(n, m);
    }
}

/// The position of a number in the order of all numbers: its magnitude, with its sign.
spec fn rank_of(v: Value) -> int {
    if v.negative() {
        -v.magnitude()
    } else {
        v.magnitude()
    }
}

proof fn lemma_rank_order(a: Value, b: Value)
    ensures
        a.scaled() < b.scaled() <==> rank_of(a) < rank_of(b),
        a.scaled() == b.scaled() <==> rank_of(a) == rank_of(b),
{
    let m = a.magnitude();
    let n = b.magnitude();
    lemma_units_order(m, n);
    lemma_units_order(n, m);
    lemma_units_order(0, m);
    lemma_units_order(0, n);
}

impl Value {
    fn rank(self) -> (r: i64)
        ensures
            r == rank_of(self),
    {
        if self.bits >= SIGN {
            -((self.bits - SIGN) as i64)
        } else {
            self.bits as i64
        }
    }

    /// Whether this is not a number.
    pub fn not_a_number(self) -> (yes: bool)
        ensures
            yes == self.is_nan(),
    {
        self.bits % SIGN > INFINITE
    }

    /// Whether two values are the same number.
    pub fn same_number(self, other: Value) -> (yes: bool)
        ensures
            yes == self.equals(other),
    {
        proof {
            lemma_rank_order(self, other);
        }
        !self.not_a_number() && !other.not_a_number() && self.rank() == other.rank()
    }

    /// Whether this number is at least `other`.
    pub fn reaches(self, other: Value) -> (yes: bool)
        ensures
            yes == self.at_least(other),
    {
        proof {
            lemma_rank_order(self, other);
        }
        !self.not_a_number() && !other.not_a_number() && self.rank() >= other.rank()
    }

    /// Whether this number is above `other`.
    pub fn exceeds(self, other: Value) -> (yes: bool)
        ensures
            yes == self.above(other),
    {
        proof {
            lemma_rank_order(self, other);
        }
        !self.not_a_number() && !other.not_a_number() && self.rank() > other.rank()
    }
}

proof fn lemma_pow2_small()
    ensures
        pow2(0) == 1,
        pow2(1) == 2,
        pow2(8) == 256,
        pow2(23) == HIDDEN,
        pow2(24) == 2 * HIDDEN,
{
    vstd::arithmetic::power2::lemma2_to64();
}

impl Value {
    /// The number `n` itself.
    pub fn of_whole(n: i32) -> (v: Value)
        requires
            -0x100_0000 < n < 0x100_0000,
        ensures
            v.is_whole(n as int),
            v.negative() <==> n < 0,
    {
        if n == 0 {
            assert(0 * unit() == 0);
            return Value { bits: 0 };
        }
        let size: u32 = if n < 0 {
            (-n) as u32
        } else {
            n as u32
        };
        proof {
            lemma_pow2_small();
        }
        let mut significand: u32 = size;
        let mut exponent: u32 = 150;
        while significand < HIDDEN
            invariant
                0 < significand < 2 * HIDDEN,
                127 <= exponent <= 150,
                exponent == 127 ==> significand >= HIDDEN,
                significand >= pow2((150 - exponent) as nat),
                significand * pow2((exponent - 1) as nat) == size * unit(),
            decreases exponent,
        {
            proof {
                lemma_pow2_small();
                lemma_pow2_adds(1, (exponent - 2) as nat);
                lemma_pow2_adds(1, (150 - exponent) as nat);
                lemma_pow2_pos((150 - exponent) as nat);
                let p = pow2((exponent - 2) as nat) as int;
                assert((2 * significand) * p == significand * (2 * p)) by (nonlinear_arith);
            }
            significand = 2 * significand;
            exponent = exponent - 1;
        }
        let magnitude: u32 = exponent * HIDDEN + (significand - HIDDEN);
        proof {
            assert(magnitude as int / (HIDDEN as int) == exponent);
            assert(magnitude as int % (HIDDEN as int) == significand - HIDDEN);
            assert(magnitude_units(magnitude as int) == size * unit());
            assert((-(size as int)) * unit() == -(size * unit())) by (nonlinear_arith);
        }
        if n < 0 {
            Value { bits: SIGN + magnitude }
        } else {
            Value { bits: magnitude }
        }
    }

    /// Whether this number equals the whole number `n`.
    pub fn equals_whole(self, n: i32) -> (yes: bool)
        requires
            -0x100_0000 < n < 0x100_0000,
        ensures
            yes == self.is_whole(n as int),
    {
        self.same_number(Value::of_whole(n))
    }

    /// Whether this number lies between the whole numbers `low` and `high`, both included.
    pub fn lies_between(self, low: i32, high: i32) -> (yes: bool)
        requires
            -0x100_0000 < low < 0x100_0000,
            -0x100_0000 < high < 0x100_0000,
        ensures
            yes == self.is_between(low as int, high as int),
    {
        self.reaches(Value::of_whole(low)) && Value::of_whole(high).reaches(self)
    }

    /// Whether this number is above zero.
    pub fn is_positive(self) -> (yes: bool)
        ensures
            yes == (!self.is_nan() && self.scaled() > 0),
    {
        assert(0 * unit() == 0);
        self.exceeds(Value::of_whole(0))
    }

    /// Whether this number is above one half.
    pub fn is_on(self) -> (yes: bool)
        ensures
            yes == self.reads_on(),
    {
        proof {
            lemma_pow2_small();
            lemma_pow2_adds(23, 125);
            lemma_pow2_adds(1, 148);
            let half = Value { bits: 0x3f00_0000 };
            assert(half.magnitude() / (HIDDEN as int) == 126);
            assert(half.magnitude() % (HIDDEN as int) == 0);
            assert(2 * half.scaled() == unit());
        }
        self.exceeds(Value { bits: 0x3f00_0000 })
    }

    /// Whether a toggle with this value reads as switched on: above one half.
    pub open spec fn reads_on(self) -> bool {
        !self.is_nan() && 2 * self.scaled() > unit()
    }

    /// The whole part without its sign, or the largest `u64` where it does not fit.
    fn whole_magnitude(self) -> (w: u64)
        requires
            !self.is_nan(),
        ensures
            w == (if magnitude_units(self.magnitude()) / unit() <= u64::MAX {
                magnitude_units(self.magnitude()) / unit()
            } else {
                u64::MAX as int
            }),
    {
        let magnitude: u32 = self.bits % SIGN;
        let exponent: u32 = magnitude / HIDDEN;
        let significand: u64 = HIDDEN as u64 + (magnitude % HIDDEN) as u64;
        let ghost units = magnitude_units(magnitude as int);
        proof {
            lemma_pow2_small();
            lemma_units_nonnegative(magnitude as int);
            lemma_pow2_pos(149);
        }
        if exponent < 127 {
            proof {
                // The smallest magnitude with exponent 127 is one.
                let one: int = 127 * HIDDEN;
                lemma_units_increase(magnitude as int, one);
                assert(one / (HIDDEN as int) == 127 && one % (HIDDEN as int) == 0);
                lemma_pow2_adds(23, 126);
                assert(units < unit());
                vstd::arithmetic::div_mod::lemma_basic_div(units, unit());
            }
            0
        } else if exponent < 150 {
            let shift: u64 = 150 - exponent as u64;
            proof {
                let p = pow2((exponent - 1) as nat) as int;
                let q = pow2(shift as nat) as int;
                lemma_pow2_pos((exponent - 1) as nat);
                lemma_pow2_pos(shift as nat);
                lemma_pow2_adds((exponent - 1) as nat, shift as nat);
                vstd::bits::lemma_u64_shr_is_div(significand, shift);
                assert(units == p * significand) by {
                    assert(significand * p == p * significand) by (nonlinear_arith);
                }
                vstd::arithmetic::div_mod::lemma_div_denominator(units, p, q);
                vstd::arithmetic::div_mod::lemma_div_multiples_vanish(significand as int, p);
                vstd::arithmetic::div_mod::lemma_div_nonincreasing(significand as int, q);
            }
            significand >> shift
        } else if exponent < 191 {
            let shift: u64 = exponent as u64 - 150;
            proof {
                let q = pow2(shift as nat) as int;
                lemma_pow2_pos(shift as nat);
                lemma_pow2_adds(shift as nat, 149);
                vstd::arithmetic::power2::lemma2_to64_rest();
                if shift < 40 {
                    lemma_pow2_strictly_increases(shift as nat, 40);
                }
                assert(significand * q <= u64::MAX) by (nonlinear_arith)
                    requires
                        significand <= 2 * HIDDEN - 1,
                        0 < q <= 0x100_0000_0000,
                ;
                vstd::bits::lemma_u64_shl_is_mul(significand, shift);
                assert(units == unit() * (significand * q)) by {
                    let u = unit();
                    assert(significand * (q * u) == u * (significand * q)) by (nonlinear_arith);
                }
                vstd::arithmetic::div_mod::lemma_div_multiples_vanish(significand * q, unit());
            }
            significand << shift
        } else {
            proof {
                let large: int = 191 * HIDDEN;
                lemma_units_order(large, magnitude as int);
                lemma_units_order(magnitude as int, large);
                assert(large / (HIDDEN as int) == 191 && large % (HIDDEN as int) == 0);
                lemma_pow2_adds(23, 190);
                lemma_pow2_adds(64, 149);
                vstd::arithmetic::power2::lemma2_to64();
                assert(units >= 0x1_0000_0000_0000_0000 * unit());
                vstd::arithmetic::div_mod::lemma_div_is_ordered(
                    0x1_0000_0000_0000_0000 * unit(),
                    units,
                    unit(),
                );
                vstd::arithmetic::div_mod::lemma_div_by_multiple(0x1_0000_0000_0000_0000, unit());
            }
            u64::MAX
        }
    }

    /// The whole part, brought into the range of a byte.
    pub fn to_byte(self) -> (b: u8)
        ensures
            b == clamped(self.whole_part(), 0, 255),
    {
        if self.not_a_number() {
            return 0;
        }
        let w = self.whole_magnitude();
        proof {
            lemma_pow2_pos(149);
            lemma_units_nonnegative(self.magnitude());
            vstd::arithmetic::div_mod::lemma_div_pos_is_pos(
                magnitude_units(self.magnitude()),
                unit(),
            );
        }
        if self.bits >= SIGN {
            0
        } else if w > 255 {
            255
        } else {
            w as u8
        }
    }

    /// The whole part, brought into the range of an `i32`.
    pub fn to_int(self) -> (n: i32)
        ensures
            n == clamped(self.whole_part(), i32::MIN as int, i32::MAX as int),
    {
        if self.not_a_number() {
            return 0;
        }
        let w = self.whole_magnitude();
        proof {
            lemma_pow2_pos(149);
            lemma_units_nonnegative(self.magnitude());
            vstd::arithmetic::div_mod::lemma_div_pos_is_pos(
                magnitude_units(self.magnitude()),
                unit(),
            );
        }
        if self.bits >= SIGN {
            if w > 0x7fff_ffff {
                i32::MIN
            } else {
                -(w as i32)
            }
        } else if w > 0x7fff_ffff {
            i32::MAX
        } else {
            w as i32
        }
    }

    /// The whole part, brought into the range of a `usize`.
    pub fn to_index(self) -> (n: usize)
        ensures
            n == clamped(self.whole_part(), 0, usize::MAX as int),
    {
        if self.not_a_number() {
            return 0;
        }
        let w = self.whole_magnitude();
        proof {
            lemma_pow2_pos(149);
            lemma_units_nonnegative(self.magnitude());
            vstd::arithmetic::div_mod::lemma_div_pos_is_pos(
                magnitude_units(self.magnitude()),
                unit(),
            );
        }
        if self.bits >= SIGN {
            0
        } else if w > usize::MAX as u64 {
            usize::MAX
        } else {
            w as usize
        }
    }
}

/// `n`, or the bound of the range that it lies beyond.
pub open spec fn clamped(n: int, low: int, high: int) -> int {
    if n < low {
        low
    } else if n > high {
        high
    } else {
        n
    }
}

/// The four bytes of a bit pattern, least significant first.
pub open spec fn le_bytes(bits: u32) -> Seq<u8> {
    seq![
        (bits % 256) as u8,
        ((bits / 256) % 256) as u8,
        ((bits / 65536) % 256) as u8,
        (bits / 16777216) as u8,
    ]
}

proof fn lemma_bytes_of_sum(bits: u32, b0: u8, b1: u8, b2: u8, b3: u8)
    by (bit_vector)
    requires
        bits == b0 + 256 * b1 + 65536 * b2 + 16777216 * b3,
    ensures
        bits % 256 == b0,
        (bits / 256) % 256 == b1,
        (bits / 65536) % 256 == b2,
        bits / 16777216 == b3,
{
}

impl Value {
    /// The bytes of this value as they travel, least significant first.
    pub fn to_le(self) -> (bytes: [u8; 4])
        ensures
            bytes@ == le_bytes(self.bits),
    {
        let bytes: [u8; 4] = [
            (self.bits % 256) as u8,
            ((self.bits / 256) % 256) as u8,
            ((self.bits / 65536) % 256) as u8,
            (self.bits / 16777216) as u8,
        ];
        assert(bytes@ =~= le_bytes(self.bits));
        bytes
    }

    /// The value whose bytes travel as `b0`, `b1`, `b2`, `b3`.
    pub fn from_le(b0: u8, b1: u8, b2: u8, b3: u8) -> (v: Value)
        ensures
            le_bytes(v.bits) == seq![b0, b1, b2, b3],
            v.bits == b0 + 256 * b1 + 65536 * b2 + 16777216 * b3,
    {
        let v = Value {
            bits: b0 as u32 + 256 * (b1 as u32) + 65536 * (b2 as u32) + 16777216 * (b3 as u32),
        };
        proof {
            lemma_bytes_of_sum(v.bits, b0, b1, b2, b3);
        }
        assert(le_bytes(v.bits) =~= seq![b0, b1, b2, b3]);
        v
    }
}

/// The four bytes of a value tell which value it is.
pub proof fn law_bytes_identify_value(a: Value, b: Value)
    requires
        le_bytes(a.bits) == le_bytes(b.bits),
    ensures
        a == b,
{
    assert(le_bytes(a.bits)[0] == le_bytes(b.bits)[0]);
    assert(le_bytes(a.bits)[1] == le_bytes(b.bits)[1]);
    assert(le_bytes(a.bits)[2] == le_bytes(b.bits)[2]);
    assert(le_bytes(a.bits)[3] == le_bytes(b.bits)[3]);
}

/// A switch is on exactly if its number is above one half.
pub proof fn law_on_means_above_one_half(v: Value)
    ensures
        v.reads_on() <==> v.above(Value { bits: 0x3f00_0000 }),
{
    let half = Value { bits: 0x3f00_0000 };
    assert(half.magnitude() / (HIDDEN as int) == 126 && half.magnitude() % (HIDDEN as int) == 0);
    lemma_pow2_small();
    lemma_pow2_adds(23, 125);
    lemma_pow2_adds(1, 148);
}

/// The four bytes of a bit pattern make it up again, each worth 256 times the one before it.
pub proof fn law_bytes_make_up_the_bits(bits: u32)
    ensures
        le_bytes(bits).len() == 4,
        le_bytes(bits)[0] + 0x100 * le_bytes(bits)[1] + 0x1_0000 * le_bytes(bits)[2] + 0x100_0000
            * le_bytes(bits)[3] == bits,
{
}

/// The whole part leaves less than one, and lies no further from zero than the number.
pub proof fn law_whole_part_leaves_less_than_one(v: Value)
    ensures
        v.is_nan() ==> v.whole_part() == 0,
        !v.is_nan() && v.scaled() >= 0 ==> v.whole_part() * unit() <= v.scaled() < (v.whole_part()
            + 1) * unit(),
        !v.is_nan() && v.scaled() <= 0 ==> (v.whole_part() - 1) * unit() < v.scaled()
            <= v.whole_part() * unit(),
{
    let u = unit();
    let m = magnitude_units(v.magnitude());
    lemma_pow2_pos(149);
    lemma_units_nonnegative(v.magnitude());
    vstd::arithmetic::div_mod::lemma_fundamental_div_mod(m, u);
    let w = m / u;
    let r = m % u;
    assert(w * u <= m < (w + 1) * u && (-w - 1) * u < -m <= (-w) * u && (m == 0 ==> w == 0))
        by (nonlinear_arith)
        requires
            m == u * w + r,
            0 <= r < u,
            m >= 0,
    ;
    assert(0 * u == 0 && 1 * u == u && -1 * u == -u);
}

} // verus!
