//! Floating-point numbers carried as bit patterns.
//!
//! The library computes nothing with floating-point numbers, but it keeps some, compares them and
//! picks among them. It holds each one as the 64 bits of its IEEE 754 binary64 encoding and gives
//! those bits their meaning here, so that every comparison is proved against the numbers that the
//! bits stand for.

use vstd::arithmetic::power2::{
    lemma2_to64, lemma2_to64_rest, lemma_pow2_adds, lemma_pow2_pos, lemma_pow2_strictly_increases,
    pow2,
};
use vstd::prelude::*;

verus! {

/// The weight of the sign bit.
pub const SIGN_WEIGHT: u64 = 0x8000_0000_0000_0000;

/// The weight of the lowest exponent bit.
pub const EXPONENT_WEIGHT: u64 = 0x0010_0000_0000_0000;

/// The bit pattern of positive infinity. A pattern beyond it, sign aside, is not a number.
pub const INFINITY_BITS: u64 = 0x7ff0_0000_0000_0000;

/// The size of the number behind a pattern without its sign bit, in units of the smallest positive
/// number that the encoding has. Infinity counts as larger than every finite number.
pub open spec fn size_in_units(pattern: nat) -> nat {
    let exponent = pattern / (EXPONENT_WEIGHT as nat);
    let fraction = pattern % (EXPONENT_WEIGHT as nat);
    if exponent == 0 {
        fraction
    } else {
        (EXPONENT_WEIGHT as nat + fraction) * pow2((exponent - 1) as nat)
    }
}

/// A floating-point number, as its bit pattern.
#[derive(Clone, Copy, PartialEq, Eq, Structural, Debug)]
pub struct Binary64 {
    pub bits: u64,
}

impl Binary64 {
    /// Whether the sign bit is set.
    pub open spec fn is_negative(self) -> bool {
        self.bits >= SIGN_WEIGHT
    }

    /// The pattern without its sign bit.
    pub open spec fn pattern(self) -> nat {
        (self.bits % SIGN_WEIGHT) as nat
    }

    /// Whether the bits stand for no number.
    pub open spec fn is_nan(self) -> bool {
        self.pattern() > INFINITY_BITS
    }

    /// The number behind the bits, in units of the smallest positive number.
    pub open spec fn units(self) -> int {
        if self.is_negative() {
            -(size_in_units(self.pattern()) as int)
        } else {
            size_in_units(self.pattern()) as int
        }
    }

    /// Whether the number is greater than the other. False where either is no number.
    pub open spec fn greater(self, other: Binary64) -> bool {
        !self.is_nan() && !other.is_nan() && self.units() > other.units()
    }

    /// Whether the number is greater than or equal to the other. False where either is no number.
    pub open spec fn greater_or_equal(self, other: Binary64) -> bool {
        !self.is_nan() && !other.is_nan() && self.units() >= other.units()
    }

    /// The whole part of the number: zero for a negative number and for what is no number, the
    /// greatest 32-bit number where it is larger.
    pub open spec fn whole(self) -> u32 {
        let whole = size_in_units(self.pattern()) / pow2(1074);
        if self.is_nan() || self.is_negative() {
            0
        } else if whole > u32::MAX {
            u32::MAX
        } else {
            whole as u32
        }
    }

    /// The number with these bits.
    pub fn from_bits(bits: u64) -> (number: Binary64)
        ensures
            number.bits == bits,
    {
        Binary64 { bits }
    }

    /// Tests whether the bits stand for no number.
    pub fn nan(self) -> (answer: bool)
        ensures
            answer == self.is_nan(),
    {
        self.bits % SIGN_WEIGHT > INFINITY_BITS
    }

    /// Tests whether this number is greater than the other.
    pub fn exceeds(self, other: Binary64) -> (answer: bool)
        ensures
            answer == self.greater(other),
    {
        if self.nan() || other.nan() {
            return false;
        }
        let mine: u64 = self.bits % SIGN_WEIGHT;
        let theirs: u64 = other.bits % SIGN_WEIGHT;
        proof {
            lemma_sizes_ordered(mine as nat, theirs as nat);
            lemma_sizes_ordered(theirs as nat, mine as nat);
            lemma_sizes_ordered(0, mine as nat);
            lemma_sizes_ordered(0, theirs as nat);
        }
        if self.bits >= SIGN_WEIGHT {
            other.bits >= SIGN_WEIGHT && theirs > mine
        } else if other.bits >= SIGN_WEIGHT {
            mine > 0 || theirs > 0
        } else {
            mine > theirs
        }
    }

    /// Tests whether this number is greater than or equal to the other.
    pub fn at_least(self, other: Binary64) -> (answer: bool)
        ensures
            answer == self.greater_or_equal(other),
    {
        !self.nan() && !other.nan() && !other.exceeds(self)
    }

    /// Takes the whole part of the number.
    pub fn whole_part(self) -> (whole: u32)
        ensures
            whole == self.whole(),
    {
        if self.nan() || self.bits >= SIGN_WEIGHT {
            return 0;
        }
        let exponent: u64 = self.bits / EXPONENT_WEIGHT;
        let fraction: u64 = self.bits % EXPONENT_WEIGHT;
        proof {
            lemma_whole(self.bits as nat);
        }
        if exponent < 1023 {
            0
        } else if exponent >= 1055 {
            u32::MAX
        } else {
            let significand: u64 = EXPONENT_WEIGHT + fraction;
            let shift: u64 = 1075 - exponent;
            proof {
                vstd::bits::lemma_u64_shr_is_div(significand, shift);
            }
            (significand >> shift) as u32
        }
    }

    /// The smaller of two numbers; where one is no number, the other.
    pub fn smaller(self, other: Binary64) -> (least: Binary64)
        ensures
            self.is_nan() ==> least == other,
            !self.is_nan() && other.is_nan() ==> least == self,
            !self.is_nan() && !other.is_nan() ==> least == if self.units() <= other.units() {
                self
            } else {
                other
            },
    {
        if self.nan() || self.exceeds(other) {
            other
        } else {
            self
        }
    }

    /// The larger of two numbers; where one is no number, the other.
    pub fn larger(self, other: Binary64) -> (most: Binary64)
        ensures
            self.is_nan() ==> most == other,
            !self.is_nan() && other.is_nan() ==> most == self,
            !self.is_nan() && !other.is_nan() ==> most == if self.units() >= other.units() {
                self
            } else {
                other
            },
    {
        if self.nan() || other.exceeds(self) {
            other
        } else {
            self
        }
    }
}

/// The whole part of the number behind a pattern, by the pattern's exponent.
proof fn lemma_whole(pattern: nat)
    requires
        pattern < SIGN_WEIGHT,
    ensures
        ({
            let w = EXPONENT_WEIGHT as nat;
            let exponent = pattern / w;
            let whole = size_in_units(pattern) / pow2(1074);
            &&& exponent < 1023 ==> whole == 0
            &&& exponent >= 1055 ==> whole > u32::MAX
            &&& 1023 <= exponent < 1055 ==> {
                &&& whole == (w + pattern % w) / pow2((1075 - exponent) as nat)
                &&& whole <= u32::MAX
            }
        }),
{
    let w = EXPONENT_WEIGHT as nat;
    let exponent = pattern / w;
    let fraction = pattern % w;
    let size = size_in_units(pattern);
    let unit = pow2(1074);
    lemma_pow2_pos(1074);
    lemma2_to64();
    lemma2_to64_rest();
    assert(w == pow2(52));
    if exponent < 1023 {
        let one = 1023 * w;
        assert(one / w == 1023 && one % w == 0) by (nonlinear_arith)
            requires
                one == 1023 * w,
                w == 0x0010_0000_0000_0000,
        ;
        lemma_sizes_ordered(pattern, one);
        lemma_pow2_adds(52, 1022);
        vstd::arithmetic::div_mod::lemma_basic_div(size as int, unit as int);
    } else if exponent >= 1055 {
        let large = 1055 * w;
        assert(large / w == 1055 && large % w == 0) by (nonlinear_arith)
            requires
                large == 1055 * w,
                w == 0x0010_0000_0000_0000,
        ;
        lemma_sizes_ordered(large, pattern);
        lemma_pow2_adds(52, 1054);
        lemma_pow2_adds(32, 1074);
        assert(size >= pow2(32) * unit);
        vstd::arithmetic::div_mod::lemma_div_is_ordered(
            (pow2(32) * unit) as int,
            size as int,
            unit as int,
        );
        vstd::arithmetic::div_mod::lemma_div_by_multiple(pow2(32) as int, unit as int);
    } else {
        let m = w + fraction;
        let low = pow2((exponent - 1) as nat);
        let shift = (1075 - exponent) as nat;
        lemma_pow2_pos((exponent - 1) as nat);
        lemma_pow2_pos(shift);
        lemma_pow2_adds((exponent - 1) as nat, shift);
        vstd::arithmetic::div_mod::lemma_div_denominator(
            (m * low) as int,
            low as int,
            pow2(shift) as int,
        );
        vstd::arithmetic::div_mod::lemma_div_by_multiple(m as int, low as int);
        if shift > 21 {
            lemma_pow2_strictly_increases(21, shift);
        }
        assert(m / pow2(shift) <= u32::MAX) by (nonlinear_arith)
            requires
                m < 0x0020_0000_0000_0000,
                pow2(shift) >= 0x20_0000,
        ;
    }
}

/// Patterns without a sign bit are ordered as the numbers that they stand for.
pub proof fn lemma_sizes_ordered(a: nat, b: nat)
    requires
        a < SIGN_WEIGHT,
        b < SIGN_WEIGHT,
    ensures
        a < b ==> size_in_units(a) < size_in_units(b),
        a == b ==> size_in_units(a) == size_in_units(b),
{
    if a < b {
        let w = EXPONENT_WEIGHT as nat;
        let (ea, fa) = (a / w, a % w);
        let (eb, fb) = (b / w, b % w);
        assert(ea <= eb) by (nonlinear_arith)
            requires
                a < b,
                w > 0,
                ea == a / w,
                eb == b / w,
        ;
        lemma_pow2_pos((ea - 1) as nat);
        lemma_pow2_pos((eb - 1) as nat);
        if ea == eb {
            if ea > 0 {
                let p = pow2((ea - 1) as nat);
                assert((w + fa) * p < (w + fb) * p) by (nonlinear_arith)
                    requires
                        fa < fb,
                        p > 0,
                ;
            }
        } else {
            let q = pow2((eb - 1) as nat);
            assert((w + fb) * q >= w * q) by (nonlinear_arith)
                requires
                    fb >= 0,
                    q > 0,
            ;
            if ea == 0 {
                assert(w * q >= w) by (nonlinear_arith)
                    requires
                        q >= 1,
                ;
            } else {
                let p = pow2((ea - 1) as nat);
                vstd::arithmetic::power2::lemma_pow2_unfold(ea);
                assert(pow2(ea) == 2 * p);
                if ea < eb - 1 {
                    lemma_pow2_strictly_increases(ea, (eb - 1) as nat);
                }
                assert((w + fa) * p < w * q) by (nonlinear_arith)
                    requires
                        fa < w,
                        p > 0,
                        2 * p <= q,
                ;
            }
        }
    }
}

/// The sizes are those of the encoding: patterns up to the second power of two count up one by one,
/// from there on the same fraction under the next exponent is twice as much, and the sign turns a
/// number into its opposite.
pub proof fn law_patterns_are_numbers(bits: u64)
    requires
        bits < 0x8000_0000_0000_0000,
    ensures
        bits < 0x0020_0000_0000_0000 ==> size_in_units(bits as nat) == bits,
        0x0010_0000_0000_0000 <= bits && bits + 0x0010_0000_0000_0000 < 0x8000_0000_0000_0000
            ==> size_in_units(bits as nat + 0x0010_0000_0000_0000) == 2 * size_in_units(
            bits as nat,
        ),
        (Binary64 { bits }).units() == size_in_units(bits as nat),
        (Binary64 { bits: (bits + 0x8000_0000_0000_0000) as u64 }).units() == -(
        size_in_units(bits as nat) as int),
        (Binary64 { bits }).is_nan() <==> bits > 0x7ff0_0000_0000_0000,
        (Binary64 { bits: (bits + 0x8000_0000_0000_0000) as u64 }).is_nan() <==> bits
            > 0x7ff0_0000_0000_0000,
{
    lemma2_to64();
    let pattern = bits as nat;
    let w = EXPONENT_WEIGHT as nat;
    let exponent = pattern / w;
    let fraction = pattern % w;
    if exponent == 1 {
        assert((w + fraction) * pow2(0) == w + fraction) by (nonlinear_arith)
            requires
                pow2(0) == 1,
        ;
    }
    if exponent >= 1 {
        assert((pattern + w) / w == exponent + 1 && (pattern + w) % w == fraction);
        vstd::arithmetic::power2::lemma_pow2_unfold(exponent);
        let half = pow2((exponent - 1) as nat);
        assert((w + fraction) * (2 * half) == 2 * ((w + fraction) * half)) by (nonlinear_arith);
    }
}

/// The whole part of a number is the greatest number of ones that it holds, as long as 32 bits are
/// enough for it.
pub proof fn law_whole_part_is_counted_in_ones(number: Binary64)
    requires
        !number.is_nan(),
        !number.is_negative(),
        number.whole() < u32::MAX,
    ensures
        ({
            let one = (Binary64 { bits: 0x3ff0_0000_0000_0000 }).units();
            &&& one > 0
            &&& number.whole() * one <= number.units()
            &&& number.units() < (number.whole() + 1) * one
        }),
{
    let size = size_in_units(number.pattern()) as int;
    let unit = pow2(1074) as int;
    lemma_pow2_pos(1074);
    lemma2_to64();
    lemma2_to64_rest();
    lemma_pow2_adds(52, 1022);
    assert(0x3ff0_0000_0000_0000nat / 0x0010_0000_0000_0000nat == 1023);
    assert(0x3ff0_0000_0000_0000nat % 0x0010_0000_0000_0000nat == 0);
    assert(pow2(52) == 0x0010_0000_0000_0000);
    assert((Binary64 { bits: 0x3ff0_0000_0000_0000 }).units() == unit);
    vstd::arithmetic::div_mod::lemma_fundamental_div_mod(size, unit);
    let whole = size / unit;
    assert(whole * unit <= size && size < (whole + 1) * unit) by (nonlinear_arith)
        requires
            size == unit * whole + size % unit,
            0 <= size % unit < unit,
    ;
}

} // verus!
