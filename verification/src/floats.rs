//! Double-precision numbers carried by their bit patterns.
//!
//! A measured value travels through the library as the 64 bits of an IEEE 754 binary64
//! number. Classifying and comparing such numbers is integer arithmetic on the bits.

use vstd::arithmetic::power2::{
    lemma2_to64, lemma2_to64_rest, lemma_pow2_adds, lemma_pow2_pos, lemma_pow2_unfold, pow2,
};
use vstd::prelude::*;

verus! {

/// The bits of positive infinity; every larger magnitude is not a number.
pub const INFINITY_BITS: u64 = 0x7ff0_0000_0000_0000;

/// The bit that holds the sign.
pub const SIGN_BIT: u64 = 0x8000_0000_0000_0000;

/// Two to the power of 52: the weight of the implicit leading bit of a significand.
pub const HIDDEN_BIT: u64 = 0x10_0000_0000_0000;

/// Two to the power of 53: the first integer whose successor is no double.
pub const EXACT_LIMIT: u64 = 0x20_0000_0000_0000;

/// A binary64 number, given by its bits.
#[derive(Debug, Clone, Copy, PartialEq, Eq, Structural)]
pub struct FloatBits {
    pub bits: u64,
}

impl FloatBits {
    /// The bits without the sign.
    pub open spec fn magnitude(self) -> int {
        self.bits as int % SIGN_BIT as int
    }

    /// Whether this is no number.
    pub open spec fn is_nan(self) -> bool {
        self.magnitude() > INFINITY_BITS
    }

    /// Whether this is a number and not infinite.
    pub open spec fn finite(self) -> bool {
        self.magnitude() < INFINITY_BITS
    }

    /// An integer that orders numbers by value; both zeros have 0.
    pub open spec fn signed(self) -> int {
        if self.bits >= SIGN_BIT {
            -self.magnitude()
        } else {
            self.magnitude()
        }
    }

    /// Whether this number is smaller than another one; false where either is no number.
    pub open spec fn below(self, other: FloatBits) -> bool {
        !self.is_nan() && !other.is_nan() && self.signed() < other.signed()
    }

    /// Whether this number is at least another one; false where either is no number.
    pub open spec fn at_least(self, other: FloatBits) -> bool {
        !self.is_nan() && !other.is_nan() && self.signed() >= other.signed()
    }

    /// The place of these bits in the IEEE 754 total order, counted from zero.
    pub open spec fn rank_view(self) -> int {
        if self.bits >= SIGN_BIT {
            u64::MAX - self.bits
        } else {
            self.bits + SIGN_BIT
        }
    }

    /// The bits at a place of the IEEE 754 total order.
    pub open spec fn at_rank(rank: u64) -> FloatBits {
        if rank >= SIGN_BIT {
            FloatBits { bits: (rank - SIGN_BIT) as u64 }
        } else {
            FloatBits { bits: (u64::MAX - rank) as u64 }
        }
    }

    /// Whether these bits denote exactly the non-negative integer `value`.
    pub open spec fn denotes(self, value: int) -> bool {
        let exponent = self.bits as int / HIDDEN_BIT as int;
        let significand = HIDDEN_BIT as int + self.bits as int % HIDDEN_BIT as int;
        if value == 0 {
            self.bits == 0
        } else if exponent >= 1075 {
            exponent < 2047 && value == significand * pow2((exponent - 1075) as nat)
        } else {
            exponent > 0 && significand == value * pow2((1075 - exponent) as nat)
        }
    }

    /// The double nearest to an integer.
    pub open spec fn of_count(value: u64) -> FloatBits {
        choose|result: FloatBits| result.denotes(nearest_double(value as nat) as int)
    }

    /// Whether this is not a number.
    pub fn is_not_a_number(&self) -> (result: bool)
        ensures
            result == self.is_nan(),
    {
        self.bits % SIGN_BIT > INFINITY_BITS
    }

    /// Whether this is a number and not infinite.
    pub fn is_finite(&self) -> (result: bool)
        ensures
            result == self.finite(),
    {
        self.bits % SIGN_BIT < INFINITY_BITS
    }

    /// Whether this number is smaller than another one.
    pub fn is_below(&self, other: &FloatBits) -> (result: bool)
        ensures
            result == self.below(*other),
    {
        let left: u64 = self.bits % SIGN_BIT;
        let right: u64 = other.bits % SIGN_BIT;
        if left > INFINITY_BITS || right > INFINITY_BITS {
            return false;
        }
        let left_negative: bool = self.bits >= SIGN_BIT;
        let right_negative: bool = other.bits >= SIGN_BIT;
        if left_negative && right_negative {
            left > right
        } else if left_negative {
            left > 0 || right > 0
        } else if right_negative {
            false
        } else {
            left < right
        }
    }

    /// Whether this number is at least another one.
    pub fn is_at_least(&self, other: &FloatBits) -> (result: bool)
        ensures
            result == self.at_least(*other),
    {
        if self.bits % SIGN_BIT > INFINITY_BITS || other.bits % SIGN_BIT > INFINITY_BITS {
            return false;
        }
        !self.is_below(other)
    }

    /// The place of these bits in the IEEE 754 total order.
    pub fn rank(&self) -> (rank: u64)
        ensures
            rank == self.rank_view(),
    {
        if self.bits >= SIGN_BIT {
            u64::MAX - self.bits
        } else {
            self.bits + SIGN_BIT
        }
    }

    /// The bits that stand at a place of the IEEE 754 total order.
    pub fn from_rank(rank: u64) -> (result: FloatBits)
        ensures
            result == FloatBits::at_rank(rank),
            result.rank_view() == rank,
    {
        if rank >= SIGN_BIT {
            FloatBits { bits: rank - SIGN_BIT }
        } else {
            FloatBits { bits: u64::MAX - rank }
        }
    }

    /// The double nearest to an integer; of two equally near ones the even one.
    pub fn from_u64(value: u64) -> (result: FloatBits)
        ensures
            result.denotes(nearest_double(value as nat) as int),
            result == FloatBits::of_count(value),
    {
        let result = FloatBits::nearest(value);
        proof {
            law_one_double_per_integer(result, FloatBits::of_count(value), nearest_double(value as nat) as int);
        }
        result
    }

    fn nearest(value: u64) -> (result: FloatBits)
        ensures
            result.denotes(nearest_double(value as nat) as int),
    {
        proof {
            if value < EXACT_LIMIT {
                lemma_nearest_double_exact(value as nat);
            }
        }
        if value == 0 {
            return FloatBits { bits: 0 };
        }
        if value < EXACT_LIMIT {
            let mut significand: u64 = value;
            let mut exponent: u64 = 1075;
            proof {
                lemma2_to64();
                assert(value * pow2(0) == value) by (nonlinear_arith)
                    requires
                        pow2(0) == 1,
                ;
            }
            while significand < HIDDEN_BIT
                invariant
                    0 < significand < EXACT_LIMIT,
                    exponent <= 1075,
                    significand == value * pow2((1075 - exponent) as nat),
                    significand >= pow2((1075 - exponent) as nat),
                    1023 <= exponent,
                decreases exponent,
            {
                proof {
                    if exponent == 1023 {
                        lemma2_to64_rest();
                    }
                    lemma_pow2_unfold((1075 - exponent + 1) as nat);
                    assert(significand * 2 == value * (2 * pow2((1075 - exponent) as nat)))
                        by (nonlinear_arith)
                        requires
                            significand == value * pow2((1075 - exponent) as nat),
                    ;
                }
                significand = significand * 2;
                exponent = exponent - 1;
            }
            let bits: u64 = exponent * HIDDEN_BIT + (significand - HIDDEN_BIT);
            proof {
                lemma_split(exponent as int, significand as int);
                if exponent == 1075 {
                    lemma2_to64();
                    assert(significand * pow2(0) == significand) by (nonlinear_arith)
                        requires
                            pow2(0) == 1,
                    ;
                }
            }
            FloatBits { bits }
        } else {
            let (mut significand, unit, steps) = round_significand(value);
            let mut exponent: u64 = 1075 + steps as u64;
            let ghost count = significand as int;
            if significand == EXACT_LIMIT {
                proof {
                    lemma_pow2_unfold((exponent + 1 - 1075) as nat);
                    assert(EXACT_LIMIT * unit == HIDDEN_BIT * (2 * unit)) by (nonlinear_arith)
                        requires
                            EXACT_LIMIT == 2 * HIDDEN_BIT,
                    ;
                }
                significand = HIDDEN_BIT;
                exponent = exponent + 1;
            }
            let bits: u64 = exponent * HIDDEN_BIT + (significand - HIDDEN_BIT);
            proof {
                lemma_split(exponent as int, significand as int);
                assert(count * unit == significand * pow2((exponent - 1075) as nat));
                assert(nearest_double(value as nat) == count * unit);
                assert(count * unit > 0) by (nonlinear_arith)
                    requires
                        count > 0,
                        unit > 0,
                ;
            }
            FloatBits { bits }
        }
    }
}

proof fn lemma_scaled(number: FloatBits, value: int)
    requires
        value > 0,
        number.denotes(value),
    ensures
        ({
            let exponent = number.bits as int / HIDDEN_BIT as int;
            let significand = HIDDEN_BIT as int + number.bits as int % HIDDEN_BIT as int;
            value * pow2(1075) == significand * pow2(exponent as nat)
        }),
{
    let exponent = number.bits as int / HIDDEN_BIT as int;
    let significand = HIDDEN_BIT as int + number.bits as int % HIDDEN_BIT as int;
    if exponent >= 1075 {
        let rest = (exponent - 1075) as nat;
        lemma_pow2_adds(rest, 1075);
        assert(value * pow2(1075) == significand * (pow2(rest) * pow2(1075))) by (nonlinear_arith)
            requires
                value == significand * pow2(rest),
        ;
    } else {
        let rest = (1075 - exponent) as nat;
        lemma_pow2_adds(rest, exponent as nat);
        assert(significand * pow2(exponent as nat) == value * (pow2(rest) * pow2(exponent as nat)))
            by (nonlinear_arith)
            requires
                significand == value * pow2(rest),
        ;
    }
}

proof fn lemma_larger_exponent(a: int, low: nat, b: int, high: nat)
    requires
        0 < a < EXACT_LIMIT,
        HIDDEN_BIT <= b,
        low < high,
    ensures
        a * pow2(low) < b * pow2(high),
{
    let gap = (high - low) as nat;
    lemma_pow2_adds(low, gap);
    lemma_pow2_pos(low);
    lemma_pow2_unfold(gap);
    lemma_pow2_pos((gap - 1) as nat);
    assert(b * pow2(gap) >= EXACT_LIMIT) by (nonlinear_arith)
        requires
            b >= HIDDEN_BIT,
            pow2(gap) >= 2,
            EXACT_LIMIT == 2 * HIDDEN_BIT,
    ;
    assert(b * (pow2(low) * pow2(gap)) == (b * pow2(gap)) * pow2(low)) by (nonlinear_arith);
    assert(a * pow2(low) < (b * pow2(gap)) * pow2(low)) by (nonlinear_arith)
        requires
            a < b * pow2(gap),
            pow2(low) > 0,
    ;
}

/// No two doubles denote the same non-negative integer.
pub proof fn law_one_double_per_integer(left: FloatBits, right: FloatBits, value: int)
    requires
        value >= 0,
        left.denotes(value),
        right.denotes(value),
    ensures
        left == right,
{
    if value > 0 {
        let low = left.bits as int / HIDDEN_BIT as int;
        let high = right.bits as int / HIDDEN_BIT as int;
        let a = HIDDEN_BIT as int + left.bits as int % HIDDEN_BIT as int;
        let b = HIDDEN_BIT as int + right.bits as int % HIDDEN_BIT as int;
        lemma_scaled(left, value);
        lemma_scaled(right, value);
        if low < high {
            lemma_larger_exponent(a, low as nat, b, high as nat);
        } else if high < low {
            lemma_larger_exponent(b, high as nat, a, low as nat);
        } else {
            lemma_pow2_pos(low as nat);
            assert(a == b) by (nonlinear_arith)
                requires
                    a * pow2(low as nat) == b * pow2(low as nat),
                    pow2(low as nat) > 0,
            ;
            assert(left.bits == right.bits);
        }
    }
}

proof fn lemma_split(exponent: int, significand: int)
    requires
        0 <= exponent < 2047,
        HIDDEN_BIT <= significand < EXACT_LIMIT,
    ensures
        (exponent * HIDDEN_BIT + (significand - HIDDEN_BIT)) / HIDDEN_BIT as int == exponent,
        (exponent * HIDDEN_BIT + (significand - HIDDEN_BIT)) % HIDDEN_BIT as int == significand - HIDDEN_BIT,
        exponent * HIDDEN_BIT + (significand - HIDDEN_BIT) < INFINITY_BITS,
{
}

/// The spacing of doubles around an integer: one below 2 to the 53rd, doubled from there on
/// for each further binary digit.
pub open spec fn spacing(value: nat) -> nat
    decreases value,
{
    if value < EXACT_LIMIT {
        1
    } else {
        2 * spacing(value / 2)
    }
}

/// How many spacings of doubles fit into an integer, rounded to the nearest count, ties to even.
pub open spec fn nearest_count(value: nat) -> nat {
    let unit = spacing(value);
    let count = value / unit;
    let rest = value % unit;
    if 2 * rest > unit || (2 * rest == unit && count % 2 == 1) {
        count + 1
    } else {
        count
    }
}

/// The integer that the double nearest to `value` denotes.
pub open spec fn nearest_double(value: nat) -> nat {
    nearest_count(value) * spacing(value)
}

/// Integers below 2 to the 53rd are doubles themselves.
pub proof fn lemma_nearest_double_exact(value: nat)
    requires
        value < EXACT_LIMIT,
    ensures
        nearest_double(value) == value,
{
    assert(spacing(value) == 1);
    assert(value / 1 == value && value % 1 == 0);
    assert(nearest_count(value) == value);
    assert(value * 1 == value);
}

fn round_significand(value: u64) -> (result: (u64, u64, u32))
    requires
        value >= EXACT_LIMIT,
    ensures
        result.0 == nearest_count(value as nat),
        result.1 == spacing(value as nat),
        result.1 == pow2(result.2 as nat),
        HIDDEN_BIT <= result.0 <= EXACT_LIMIT,
        1 <= result.2 <= 11,
        result.1 > 0,
{
    let mut unit: u64 = 1;
    let mut steps: u32 = 0;
    let mut reduced: u64 = value;
    proof {
        lemma2_to64();
    }
    while reduced >= EXACT_LIMIT
        invariant
            steps <= 11,
            unit == pow2(steps as nat),
            1 <= unit <= 2048,
            reduced >= HIDDEN_BIT,
            reduced * unit <= value < (reduced + 1) * unit,
            spacing(value as nat) == unit * spacing(reduced as nat),
            value >= EXACT_LIMIT,
            steps == 0 ==> reduced == value,
        decreases reduced,
    {
        proof {
            lemma_pow2_unfold((steps + 1) as nat);
            lemma2_to64();
            assert(steps < 11 && unit <= 1024) by {
                if steps == 11 {
                    assert(unit == 2048);
                    assert(reduced * unit >= EXACT_LIMIT * 2048) by (nonlinear_arith)
                        requires
                            unit == 2048,
                            reduced >= EXACT_LIMIT,
                    ;
                }
                if steps < 11 {
                    vstd::arithmetic::power2::lemma_pow2_strictly_increases(steps as nat, 11);
                    vstd::arithmetic::power2::lemma_pow2_unfold(11);
                    lemma_pow2_at_most_half(steps as nat);
                }
            }
            let half = reduced as int / 2;
            assert(half * (2 * unit) <= value && value < (half + 1) * (2 * unit)) by (nonlinear_arith)
                requires
                    reduced * unit <= value,
                    value < (reduced + 1) * unit,
                    2 * half <= reduced,
                    reduced <= 2 * half + 1,
                    unit >= 1,
            ;
            assert(unit * (2 * spacing(half as nat)) == 2 * unit * spacing(half as nat)) by (nonlinear_arith);
        }
        reduced = reduced / 2;
        unit = unit * 2;
        steps = steps + 1;
    }
    let count: u64 = value / unit;
    let rest: u64 = value % unit;
    proof {
        assert(count == reduced) by (nonlinear_arith)
            requires
                reduced * unit <= value,
                value < (reduced + 1) * unit,
                unit >= 1,
                count == value / unit,
        ;
        assert(unit * 1 == unit);
        assert(0 <= rest < unit);
    }
    let rounded: u64 = if 2 * rest > unit || (2 * rest == unit && count % 2 == 1) {
        count + 1
    } else {
        count
    };
    (rounded, unit, steps)
}

proof fn lemma_pow2_at_most_half(steps: nat)
    requires
        steps < 11,
    ensures
        pow2(steps) <= 1024,
{
    lemma2_to64();
}

/// The integer that the double nearest to `value` denotes.
pub fn round_to_double(value: u64) -> (result: u128)
    ensures
        result == nearest_double(value as nat),
        result <= 0x1_0000_0000_0000_0000,
{
    if value < EXACT_LIMIT {
        proof {
            lemma_nearest_double_exact(value as nat);
        }
        return value as u128;
    }
    let (count, unit, _steps) = round_significand(value);
    proof {
        lemma2_to64();
        lemma_pow2_at_most(_steps as nat);
        assert(count as int * unit as int <= EXACT_LIMIT * 2048) by (nonlinear_arith)
            requires
                count <= EXACT_LIMIT,
                unit <= 2048,
        ;
    }
    (count as u128) * (unit as u128)
}

proof fn lemma_pow2_at_most(steps: nat)
    requires
        steps <= 11,
    ensures
        pow2(steps) <= 2048,
{
    lemma2_to64();
}

} // verus!
