//! IEEE 754 double precision numbers, kept as their bit patterns.
//!
//! The library carries such numbers from the instrument to the output files
//! and decides by their class; arithmetic on them is not its business.
use vstd::arithmetic::power2;
use vstd::prelude::*;

verus! {

/// A double precision number by its bit pattern.
#[derive(Clone, Copy, Debug, PartialEq, Eq, Structural)]
pub struct Binary64 {
    pub bits: u64,
}

/// The bit pattern of positive infinity. A pattern without sign bit stands
/// for a finite number if it is below this one, and for no number if it is
/// above.
pub const INFINITY_BITS: u64 = 0x7ff0_0000_0000_0000;

/// The bit pattern of negative zero: the sign bit alone.
pub const SIGN_BIT: u64 = 0x8000_0000_0000_0000;

/// The least magnitude that rounds to infinity in single precision.
pub const SINGLE_OVERFLOW_BITS: u64 = 0x47ef_ffff_f000_0000;

impl Binary64 {
    /// The sign bit is set.
    pub open spec fn negative(self) -> bool {
        self.bits >= SIGN_BIT
    }

    /// The bit pattern without its sign bit.
    pub open spec fn magnitude(self) -> int {
        if self.negative() {
            self.bits - SIGN_BIT
        } else {
            self.bits as int
        }
    }

    pub open spec fn finite(self) -> bool {
        self.magnitude() < INFINITY_BITS
    }

    pub open spec fn infinite(self) -> bool {
        self.magnitude() == INFINITY_BITS
    }

    pub open spec fn nan(self) -> bool {
        self.magnitude() > INFINITY_BITS
    }

    /// The number compares greater than or equal to zero.
    pub open spec fn at_least_zero(self) -> bool {
        !self.nan() && (!self.negative() || self.magnitude() == 0)
    }

    /// The biased exponent.
    pub open spec fn exponent(self) -> nat {
        (self.magnitude() / 0x10_0000_0000_0000) as nat
    }

    /// The fraction field.
    pub open spec fn fraction(self) -> nat {
        (self.magnitude() % 0x10_0000_0000_0000) as nat
    }

    /// The number is exactly `n` halves: with `e` the biased exponent, a
    /// normal number is its significand times two to the power `e - 1075`.
    pub open spec fn is_halves(self, n: int) -> bool {
        if n == 0 {
            self.bits == 0
        } else {
            &&& self.negative() == (n < 0)
            &&& 0 < self.exponent() < 0x7ff
            &&& (0x10_0000_0000_0000 + self.fraction()) * power2::pow2(self.exponent()) == (if n < 0 {
                -n
            } else {
                n
            }) * power2::pow2(1074)
        }
    }

    pub fn is_sign_negative(self) -> (answer: bool)
        ensures
            answer == self.negative(),
    {
        self.bits >= SIGN_BIT
    }

    fn magnitude_bits(self) -> (bits: u64)
        ensures
            bits == self.magnitude(),
    {
        if self.bits >= SIGN_BIT {
            self.bits - SIGN_BIT
        } else {
            self.bits
        }
    }

    pub fn is_finite(self) -> (answer: bool)
        ensures
            answer == self.finite(),
    {
        self.magnitude_bits() < INFINITY_BITS
    }

    pub fn is_infinite(self) -> (answer: bool)
        ensures
            answer == self.infinite(),
    {
        self.magnitude_bits() == INFINITY_BITS
    }

    pub fn is_nan(self) -> (answer: bool)
        ensures
            answer == self.nan(),
    {
        self.magnitude_bits() > INFINITY_BITS
    }

    pub fn is_at_least_zero(self) -> (answer: bool)
        ensures
            answer == self.at_least_zero(),
    {
        !self.is_nan() && (!self.is_sign_negative() || self.magnitude_bits() == 0)
    }

    /// Whether the number stays finite when it is rounded to single precision.
    pub fn fits_single(self) -> (answer: bool)
        ensures
            answer == (self.magnitude() < SINGLE_OVERFLOW_BITS),
    {
        self.magnitude_bits() < SINGLE_OVERFLOW_BITS
    }

    /// The number of `n` halves, which is exact.
    pub fn from_halves(n: i32) -> (number: Binary64)
        requires
            -0x100_0000 < n < 0x100_0000,
        ensures
            number == halves(n as int),
            number.is_halves(n as int),
    {
        if n == 0 {
            assert(Binary64 { bits: 0 }.is_halves(0));
            proof {
                law_halves_are_unique(halves(0), Binary64 { bits: 0 }, 0);
            }
            return Binary64 { bits: 0 };
        }
        let magnitude: u64 = if n < 0 {
            (-n) as u64
        } else {
            n as u64
        };
        let mut significand: u64 = magnitude;
        let mut exponent: u64 = 1074;
        assert(magnitude * 1 == significand);
        proof {
            power2::lemma2_to64();
        }
        while significand < 0x10_0000_0000_0000
            invariant
                0 < magnitude < 0x100_0000,
                0 < significand < 0x20_0000_0000_0000,
                1022 <= exponent <= 1074,
                significand == magnitude * power2::pow2((1074 - exponent) as nat),
            decreases 0x20_0000_0000_0000 - significand,
        {
            proof {
                assert(magnitude * power2::pow2((1075 - exponent) as nat) == 2 * significand) by {
                    power2::lemma_pow2_adds(1, (1074 - exponent) as nat);
                    power2::lemma2_to64();
                    assert(magnitude * (2 * power2::pow2((1074 - exponent) as nat)) == 2 * (magnitude
                        * power2::pow2((1074 - exponent) as nat))) by (nonlinear_arith);
                }
                if exponent == 1022 {
                    power2::lemma2_to64_rest();
                    assert(significand >= power2::pow2(52)) by (nonlinear_arith)
                        requires
                            significand == magnitude * power2::pow2(52),
                            magnitude >= 1,
                    ;
                }
            }
            significand = significand * 2;
            exponent = exponent - 1;
        }
        let fraction: u64 = significand - 0x10_0000_0000_0000;
        let unsigned: u64 = exponent * 0x10_0000_0000_0000 + fraction;
        let number: Binary64 = if n < 0 {
            Binary64 { bits: unsigned + SIGN_BIT }
        } else {
            Binary64 { bits: unsigned }
        };
        proof {
            assert(number.magnitude() == unsigned);
            assert(number.exponent() == exponent && number.fraction() == fraction) by {
                assert(unsigned == exponent * 0x10_0000_0000_0000 + fraction && fraction
                    < 0x10_0000_0000_0000);
            }
            power2::lemma_pow2_adds((1074 - exponent) as nat, exponent as nat);
            assert(significand * power2::pow2(exponent as nat) == magnitude * power2::pow2(1074)) by (nonlinear_arith)
                requires
                    significand == magnitude * power2::pow2((1074 - exponent) as nat),
                    power2::pow2((1074 - exponent) as nat) * power2::pow2(exponent as nat) == power2::pow2(1074),
            ;
            assert(number.is_halves(n as int));
            law_halves_are_unique(halves(n as int), number, n as int);
        }
        number
    }
}

/// The number of `n` halves.
pub open spec fn halves(n: int) -> Binary64 {
    choose|number: Binary64| number.is_halves(n)
}

/// One bit pattern at most stands for a given number of halves.
pub proof fn law_halves_are_unique(left: Binary64, right: Binary64, n: int)
    requires
        left.is_halves(n),
        right.is_halves(n),
    ensures
        left == right,
{
    if n != 0 {
        if left.exponent() < right.exponent() {
            lemma_exponents_agree(left, right, n);
        } else if right.exponent() < left.exponent() {
            lemma_exponents_agree(right, left, n);
        }
        let scale = power2::pow2(left.exponent());
        power2::lemma_pow2_pos(left.exponent());
        let a = 0x10_0000_0000_0000 + left.fraction();
        let b = 0x10_0000_0000_0000 + right.fraction();
        assert(a == b) by (nonlinear_arith)
            requires
                a * scale == b * scale,
                scale > 0,
        ;
        assert(left.magnitude() == right.magnitude());
    }
}

/// A positive `significand` below the normal range, doubled until it is in
/// it, with the exponent that makes up for the doubling.
spec fn normalized(significand: int, exponent: int) -> (int, int)
    decreases 0x20_0000_0000_0000 - significand,
{
    if 0 < significand < 0x10_0000_0000_0000 {
        normalized(significand * 2, exponent - 1)
    } else {
        (significand, exponent)
    }
}

proof fn lemma_normalized(significand: int, exponent: nat, room: nat)
    requires
        0 < significand < 0x20_0000_0000_0000,
        significand * power2::pow2(room) >= 0x10_0000_0000_0000,
        room <= exponent,
    ensures
        0x10_0000_0000_0000 <= normalized(significand, exponent as int).0 < 0x20_0000_0000_0000,
        exponent - room <= normalized(significand, exponent as int).1 <= exponent,
        normalized(significand, exponent as int).0 * power2::pow2(
            normalized(significand, exponent as int).1 as nat,
        ) == significand * power2::pow2(exponent),
    decreases room,
{
    power2::lemma2_to64();
    if significand < 0x10_0000_0000_0000 {
        assert(significand * 1 == significand);
        power2::lemma_pow2_adds(1, (room - 1) as nat);
        power2::lemma_pow2_adds(1, (exponent - 1) as nat);
        assert((significand * 2) * power2::pow2((room - 1) as nat) == significand * power2::pow2(
            room,
        )) by (nonlinear_arith)
            requires
                power2::pow2(room) == 2 * power2::pow2((room - 1) as nat),
        ;
        assert((significand * 2) * power2::pow2((exponent - 1) as nat) == significand
            * power2::pow2(exponent)) by (nonlinear_arith)
            requires
                power2::pow2(exponent) == 2 * power2::pow2((exponent - 1) as nat),
        ;
        lemma_normalized(significand * 2, (exponent - 1) as nat, (room - 1) as nat);
    }
}

/// Any number of halves below two to the power 24 is some double precision
/// number.
pub proof fn lemma_halves_exist(n: int)
    requires
        -0x100_0000 < n < 0x100_0000,
    ensures
        halves(n).is_halves(n),
{
    if n == 0 {
        assert((Binary64 { bits: 0 }).is_halves(0));
    } else {
        let magnitude = if n < 0 {
            -n
        } else {
            n
        };
        power2::lemma2_to64_rest();
        assert(magnitude * power2::pow2(52) >= power2::pow2(52)) by (nonlinear_arith)
            requires
                magnitude >= 1,
        ;
        lemma_normalized(magnitude, 1074, 52);
        let (significand, exponent) = normalized(magnitude, 1074);
        let unsigned = exponent * 0x10_0000_0000_0000 + (significand - 0x10_0000_0000_0000);
        let number = Binary64 {
            bits: (if n < 0 {
                unsigned + SIGN_BIT
            } else {
                unsigned
            }) as u64,
        };
        assert(number.magnitude() == unsigned);
        assert(number.exponent() == exponent);
        assert(number.is_halves(n));
    }
}

proof fn lemma_exponents_agree(left: Binary64, right: Binary64, n: int)
    requires
        left.is_halves(n),
        right.is_halves(n),
        n != 0,
    ensures
        left.exponent() >= right.exponent(),
{
    if left.exponent() < right.exponent() {
        let gap = (right.exponent() - left.exponent()) as nat;
        let scale = power2::pow2(left.exponent());
        let factor = power2::pow2(gap);
        power2::lemma_pow2_pos(left.exponent());
        power2::lemma_pow2_adds(left.exponent(), gap);
        power2::lemma_pow2_adds(1, (gap - 1) as nat);
        power2::lemma_pow2_pos((gap - 1) as nat);
        power2::lemma2_to64();
        let a = 0x10_0000_0000_0000 + left.fraction();
        let b = 0x10_0000_0000_0000 + right.fraction();
        assert(a == b * factor) by (nonlinear_arith)
            requires
                a * scale == b * (scale * factor),
                scale > 0,
        ;
        assert(factor >= 2);
        assert(b * factor >= b * 2) by (nonlinear_arith)
            requires
                factor >= 2,
                b >= 0,
        ;
    }
}

/// The class of a number, read off its fields: with all exponent bits set it is
/// infinite or no number, depending on its fraction, and the highest bit is its
/// sign.
pub proof fn law_classes(number: Binary64)
    ensures
        ({
            let exponent = (number.bits as int / 0x10_0000_0000_0000) % 0x800;
            let fraction = number.bits as int % 0x10_0000_0000_0000;
            let sign = number.bits as int / 0x8000_0000_0000_0000;
            &&& number.finite() <==> exponent < 0x7ff
            &&& number.infinite() <==> exponent == 0x7ff && fraction == 0
            &&& number.nan() <==> exponent == 0x7ff && fraction != 0
            &&& number.negative() <==> sign == 1
            &&& number.at_least_zero() <==> !number.nan() && (sign == 0 || number.bits as int
                == 0x8000_0000_0000_0000)
            &&& number.exponent() == exponent
            &&& number.fraction() == fraction
        }),
{
}

/// A number rounds to a finite one in single precision exactly if it is nearer
/// to the largest of those than to the next power of two.
pub proof fn law_single_precision_range(number: Binary64)
    ensures
        number.magnitude() < SINGLE_OVERFLOW_BITS <==> number.exponent() < 1023 + 127 || (
        number.exponent() == 1023 + 127 && number.fraction() < 0x10_0000_0000_0000 - 0x1000_0000),
{
}

/// Two halves are one, and twice as many halves are twice the number: the
/// exponent is one more, the fraction and the sign are the same.
pub proof fn law_halves_double(n: int)
    requires
        -0x80_0000 < n < 0x80_0000,
        n != 0,
    ensures
        halves(2).bits == 0x3ff0_0000_0000_0000,
        halves(0).bits == 0,
        halves(2 * n).exponent() == halves(n).exponent() + 1,
        halves(2 * n).fraction() == halves(n).fraction(),
        halves(2 * n).negative() == halves(n).negative(),
        halves(n).negative() <==> n < 0,
        halves(-n).magnitude() == halves(n).magnitude(),
{
    lemma_halves_exist(n);
    lemma_halves_exist(2 * n);
    lemma_halves_exist(-n);
    lemma_halves_exist(0);
    let one = Binary64 { bits: 0x3ff0_0000_0000_0000 };
    assert(one.is_halves(2)) by {
        assert(one.exponent() == 1023 && one.fraction() == 0);
        power2::lemma_pow2_adds(1023, 51);
        power2::lemma_pow2_adds(1, 51);
        power2::lemma_pow2_adds(1, 1023);
        power2::lemma2_to64();
        power2::lemma2_to64_rest();
        let a = power2::pow2(1023) as int;
        assert(0x10_0000_0000_0000 * a == 2 * (a * 0x8_0000_0000_0000)) by (nonlinear_arith);
    }
    lemma_halves_exist(2);
    law_halves_are_unique(halves(2), one, 2);
    let number = halves(n);
    let bits = if number.negative() {
        number.bits + 0x10_0000_0000_0000
    } else {
        number.bits + 0x10_0000_0000_0000
    };
    lemma_small_halves(number, n);
    let doubled = Binary64 { bits: bits as u64 };
    assert(doubled.exponent() == number.exponent() + 1 && doubled.fraction() == number.fraction()
        && doubled.negative() == number.negative());
    assert(doubled.is_halves(2 * n)) by {
        power2::lemma_pow2_adds(1, number.exponent());
        power2::lemma2_to64();
        let s = 0x10_0000_0000_0000 + number.fraction();
        let p = power2::pow2(number.exponent()) as int;
        let m = if n < 0 {
            -n
        } else {
            n
        };
        let q = power2::pow2(1074) as int;
        assert(s * (2 * p) == (2 * m) * q) by (nonlinear_arith)
            requires
                s * p == m * q,
        ;
    }
    law_halves_are_unique(halves(2 * n), doubled, 2 * n);
    let flipped = Binary64 {
        bits: if number.negative() {
            (number.bits - SIGN_BIT) as u64
        } else {
            (number.bits + SIGN_BIT) as u64
        },
    };
    assert(flipped.magnitude() == number.magnitude());
    assert(flipped.is_halves(-n));
    law_halves_are_unique(halves(-n), flipped, -n);
}

/// So few halves are far below the largest exponent.
proof fn lemma_small_halves(number: Binary64, n: int)
    requires
        number.is_halves(n),
        n != 0,
        -0x100_0000 < n < 0x100_0000,
    ensures
        number.exponent() < 0x7fe,
{
    if number.exponent() >= 0x7fe {
        let m = if n < 0 {
            -n
        } else {
            n
        };
        let e = number.exponent();
        power2::lemma_pow2_adds((e - 1074) as nat, 1074);
        power2::lemma2_to64();
        if e - 1074 > 24 {
            power2::lemma_pow2_strictly_increases(24, (e - 1074) as nat);
        }
        power2::lemma_pow2_pos(1074);
        let s = 0x10_0000_0000_0000 + number.fraction();
        let a = power2::pow2((e - 1074) as nat) as int;
        let q = power2::pow2(1074) as int;
        assert(s * (a * q) == m * q);
        assert(s * a == m) by (nonlinear_arith)
            requires
                s * (a * q) == m * q,
                q > 0,
        ;
        assert(s * a > 0x100_0000) by (nonlinear_arith)
            requires
                s >= 0x10_0000_0000_0000,
                a >= 1,
        ;
    }
}

} // verus!
