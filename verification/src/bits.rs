//! IEEE 754 numbers, held by their bit patterns.
//!
//! The rules of this library compare, select, clamp and store numbers that the
//! audio code computes. None of that needs arithmetic: the order of two such
//! numbers can be read off their bits. A number is worth an integer multiple
//! of the smallest positive one, and the contracts here speak of that integer.

use vstd::arithmetic::div_mod;
use vstd::arithmetic::power2;
use vstd::bits;
use vstd::prelude::*;

verus! {

/// What a magnitude (all bits but the sign) is worth, counted in the smallest
/// positive number of a format with `frac` fraction bits.
///
/// Infinity takes the place after the largest finite magnitude.
pub open spec fn magnitude_worth(mag: nat, frac: nat) -> nat {
    let unit = power2::pow2(frac);
    let e = mag / unit;
    let m = mag % unit;
    if e == 0 {
        m
    } else {
        (unit + m) * power2::pow2((e - 1) as nat)
    }
}

/// A larger magnitude is worth more.
pub proof fn law_magnitudes_are_in_order(a: nat, b: nat, frac: nat)
    requires
        a < b,
    ensures
        magnitude_worth(a, frac) < magnitude_worth(b, frac),
{
    let unit = power2::pow2(frac);
    power2::lemma_pow2_pos(frac);
    let e1 = a / unit;
    let m1 = a % unit;
    let e2 = b / unit;
    let m2 = b % unit;
    div_mod::lemma_fundamental_div_mod(a as int, unit as int);
    div_mod::lemma_fundamental_div_mod(b as int, unit as int);
    div_mod::lemma_div_is_ordered(a as int, b as int, unit as int);
    assert(e1 <= e2);
    assert(0 <= m1 < unit && 0 <= m2 < unit) by {
        div_mod::lemma_mod_bound(a as int, unit as int);
        div_mod::lemma_mod_bound(b as int, unit as int);
    }
    if e1 == e2 {
        assert(m1 < m2);
        if e1 > 0 {
            let p = power2::pow2((e1 - 1) as nat);
            power2::lemma_pow2_pos((e1 - 1) as nat);
            assert((unit + m1) * p < (unit + m2) * p) by (nonlinear_arith)
                requires
                    m1 < m2,
                    p > 0,
            ;
        }
    } else {
        let q = power2::pow2((e2 - 1) as nat);
        power2::lemma_pow2_pos((e2 - 1) as nat);
        assert((unit + m2) * q >= unit * q) by (nonlinear_arith)
            requires
                m2 >= 0,
                q > 0,
        ;
        if e1 == 0 {
            assert(unit * q >= unit) by (nonlinear_arith)
                requires
                    q >= 1,
                    unit >= 0,
            ;
        } else {
            let p = power2::pow2((e1 - 1) as nat);
            power2::lemma_pow2_pos((e1 - 1) as nat);
            power2::lemma_pow2_adds((e1 - 1) as nat, 1);
            power2::lemma2_to64();
            assert(power2::pow2(e1) == p * 2);
            if e1 < e2 - 1 {
                power2::lemma_pow2_strictly_increases(e1, (e2 - 1) as nat);
            }
            assert(q >= p * 2);
            assert((unit + m1) * p < unit * q) by (nonlinear_arith)
                requires
                    m1 < unit,
                    p > 0,
                    q >= p * 2,
            ;
        }
    }
}

/// Zero.
pub open spec fn zero() -> Bits32 {
    Bits32 { bits: 0 }
}

/// One.
pub open spec fn one() -> Bits32 {
    Bits32 { bits: 0x3f80_0000 }
}

/// A number with 32 bits: a sign, 8 exponent bits and 23 fraction bits.
#[derive(Clone, Copy, Debug, PartialEq, Eq, Structural)]
pub struct Bits32 {
    pub bits: u32,
}

impl Bits32 {
    /// The bits without the sign.
    pub open spec fn magnitude(self) -> nat {
        if self.bits >= 0x8000_0000 {
            (self.bits - 0x8000_0000) as nat
        } else {
            self.bits as nat
        }
    }

    /// Not a number.
    pub open spec fn is_nan(self) -> bool {
        self.magnitude() > 0x7f80_0000
    }

    /// Neither infinite nor not a number.
    pub open spec fn is_finite(self) -> bool {
        self.magnitude() < 0x7f80_0000
    }

    /// What the number is worth, counted in the smallest positive one, which is
    /// two to the power of minus 149.
    pub open spec fn worth(self) -> int {
        let w = magnitude_worth(self.magnitude(), 23) as int;
        if self.bits >= 0x8000_0000 {
            -w
        } else {
            w
        }
    }

    /// The magnitude with its sign, as an integer: the place of the number in
    /// the order of all numbers.
    pub open spec fn rank(self) -> int {
        if self.bits >= 0x8000_0000 {
            -(self.magnitude() as int)
        } else {
            self.magnitude() as int
        }
    }

    /// `self < other`, which nothing that is not a number takes part in.
    pub open spec fn is_below(self, other: Bits32) -> bool {
        !self.is_nan() && !other.is_nan() && self.worth() < other.worth()
    }

    /// The nearest number to `self` from `lo` up to `hi`. What is not a number
    /// stays as it is.
    pub open spec fn clamped(self, lo: Bits32, hi: Bits32) -> Bits32 {
        if self.is_below(lo) {
            lo
        } else if hi.is_below(self) {
            hi
        } else {
            self
        }
    }

    /// The number without its sign.
    pub open spec fn absolute(self) -> Bits32 {
        Bits32 { bits: self.magnitude() as u32 }
    }

    /// The larger of two numbers. What is not a number gives way to the other.
    pub open spec fn larger(self, other: Bits32) -> Bits32 {
        if self.is_nan() || self.is_below(other) {
            other
        } else {
            self
        }
    }

    /// The whole part of the number, as far as 64 bits hold it: none of what is
    /// below zero or not a number.
    pub open spec fn truncated(self) -> nat {
        if self.is_nan() || self.worth() < 0 {
            0
        } else {
            let q = self.worth() as nat / power2::pow2(149);
            if q > u64::MAX {
                u64::MAX as nat
            } else {
                q
            }
        }
    }

    /// `lo <= self <= hi`, as numbers.
    pub open spec fn is_within(self, lo: Bits32, hi: Bits32) -> bool {
        !self.is_nan() && !lo.is_nan() && !hi.is_nan() && lo.worth() <= self.worth() <= hi.worth()
    }

    /// Is the number neither infinite nor not a number?
    pub fn finite(self) -> (r: bool)
        ensures
            r == self.is_finite(),
    {
        self.abs().bits < 0x7f80_0000
    }

    /// Is it not a number?
    pub fn nan(self) -> (r: bool)
        ensures
            r == self.is_nan(),
    {
        self.abs().bits > 0x7f80_0000
    }

    /// The number without its sign.
    pub fn abs(self) -> (r: Bits32)
        ensures
            r == self.absolute(),
    {
        if self.bits >= 0x8000_0000 {
            Bits32 { bits: self.bits - 0x8000_0000 }
        } else {
            self
        }
    }

    /// `self < other`.
    pub fn below(self, other: Bits32) -> (r: bool)
        ensures
            r == self.is_below(other),
    {
        proof {
            law_rank_is_the_order(self, other);
        }
        if self.nan() || other.nan() {
            return false;
        }
        let a = self.abs().bits;
        let b = other.abs().bits;
        if self.bits >= 0x8000_0000 {
            if other.bits >= 0x8000_0000 {
                b < a
            } else {
                a > 0 || b > 0
            }
        } else {
            other.bits < 0x8000_0000 && a < b
        }
    }

    /// The nearest number from `lo` up to `hi`.
    pub fn clamp(self, lo: Bits32, hi: Bits32) -> (r: Bits32)
        ensures
            r == self.clamped(lo, hi),
    {
        if self.below(lo) {
            lo
        } else if hi.below(self) {
            hi
        } else {
            self
        }
    }
}

impl Bits32 {
    /// The larger of two numbers.
    pub fn max(self, other: Bits32) -> (r: Bits32)
        ensures
            r == self.larger(other),
    {
        if self.nan() || self.below(other) {
            other
        } else {
            self
        }
    }

    /// The whole part of the number.
    pub fn whole(self) -> (r: u64)
        ensures
            r == self.truncated(),
    {
        proof {
            lemma_nothing(23);
            law_rank_is_the_order(self, Bits32 { bits: 0 });
            power2::lemma_pow2_pos(149);
            div_mod::lemma_basic_div(0, power2::pow2(149) as int);
        }
        if self.nan() || self.bits >= 0x8000_0000 {
            return 0;
        }
        let e = self.bits / 0x80_0000;
        let m = self.bits % 0x80_0000;
        let parts = 0x80_0000 + m as u64;
        proof {
            lemma_whole_of_parts(e as nat, m as nat);
        }
        if e < 127 {
            0
        } else if e < 150 {
            let s = (150 - e) as u64;
            proof {
                bits::lemma_u64_shr_is_div(parts, s);
            }
            parts >> s
        } else if e <= 190 {
            let s = (e - 150) as u64;
            proof {
                power2::lemma2_to64_rest();
                if s < 40 {
                    power2::lemma_pow2_strictly_increases(s as nat, 40);
                }
                let p = power2::pow2(s as nat);
                assert(parts * p <= 0xff_ffff * 0x100_0000_0000) by (nonlinear_arith)
                    requires
                        parts <= 0xff_ffff,
                        p <= 0x100_0000_0000,
                ;
                bits::lemma_u64_shl_is_mul(parts, s);
            }
            parts << s
        } else {
            proof {
                power2::lemma2_to64_rest();
                if e > 191 {
                    power2::lemma_pow2_strictly_increases(41, (e - 150) as nat);
                }
                let p = power2::pow2((e - 150) as nat);
                assert(parts * p >= 0x80_0000 * 0x200_0000_0000) by (nonlinear_arith)
                    requires
                        parts >= 0x80_0000,
                        p >= 0x200_0000_0000,
                ;
            }
            u64::MAX
        }
    }
}

/// The whole part of a magnitude with the exponent bits `e` and the fraction
/// bits `m`.
pub proof fn lemma_whole_of_parts(e: nat, m: nat)
    requires
        m < 0x80_0000,
    ensures
        e < 127 ==> magnitude_worth(e * 0x80_0000 + m, 23) / power2::pow2(149) == 0,
        127 <= e < 150 ==> magnitude_worth(e * 0x80_0000 + m, 23) / power2::pow2(149) == (0x80_0000
            + m) / power2::pow2((150 - e) as nat),
        150 <= e ==> magnitude_worth(e * 0x80_0000 + m, 23) / power2::pow2(149) == (0x80_0000 + m)
            * power2::pow2((e - 150) as nat),
{
    let all = power2::pow2(149);
    let w = magnitude_worth(e * 0x80_0000 + m, 23);
    power2::lemma2_to64();
    power2::lemma_pow2_pos(149);
    power2::lemma_pow2_adds(24, 125);
    if e == 0 {
        power2::lemma_pow2_strictly_increases(23, 149);
        assert(power2::pow2(23) == 0x80_0000);
        assert(m / 0x80_0000 == 0 && m % 0x80_0000 == m);
        assert(w < all);
        div_mod::lemma_basic_div(w as int, all as int);
    } else {
        lemma_worth_of_parts(e, m);
        let p = power2::pow2((e - 1) as nat);
        power2::lemma_pow2_pos((e - 1) as nat);
        let f = 0x80_0000 + m;
        if e < 127 {
            if e < 126 {
                power2::lemma_pow2_strictly_increases((e - 1) as nat, 125);
            }
            assert(f * p < 0x100_0000 * power2::pow2(125)) by (nonlinear_arith)
                requires
                    f < 0x100_0000,
                    0 < p <= power2::pow2(125),
            ;
            div_mod::lemma_basic_div(w as int, all as int);
        } else if e < 150 {
            let q = power2::pow2((150 - e) as nat);
            power2::lemma_pow2_pos((150 - e) as nat);
            power2::lemma_pow2_adds((e - 1) as nat, (150 - e) as nat);
            div_mod::lemma_div_denominator(w as int, p as int, q as int);
            div_mod::lemma_div_by_multiple(f as int, p as int);
        } else {
            let q = power2::pow2((e - 150) as nat);
            power2::lemma_pow2_pos((e - 150) as nat);
            power2::lemma_pow2_adds((e - 150) as nat, 149);
            assert(f * (q * all) == (f * q) * all) by (nonlinear_arith);
            div_mod::lemma_div_by_multiple((f * q) as int, all as int);
        }
    }
}

/// A larger number has no smaller whole part.
pub proof fn law_whole_parts_are_in_order(a: Bits32, b: Bits32)
    requires
        !a.is_nan(),
        !b.is_nan(),
        a.worth() <= b.worth(),
    ensures
        a.truncated() <= b.truncated(),
{
    power2::lemma_pow2_pos(149);
    if a.worth() >= 0 {
        div_mod::lemma_div_is_ordered(a.worth(), b.worth(), power2::pow2(149) as int);
    }
}

/// A number with 64 bits: a sign, 11 exponent bits and 52 fraction bits.
#[derive(Clone, Copy, Debug, PartialEq, Eq, Structural)]
pub struct Bits64 {
    pub bits: u64,
}

impl Bits64 {
    /// The bits without the sign.
    pub open spec fn magnitude(self) -> nat {
        if self.bits >= 0x8000_0000_0000_0000 {
            (self.bits - 0x8000_0000_0000_0000) as nat
        } else {
            self.bits as nat
        }
    }

    /// Not a number.
    pub open spec fn is_nan(self) -> bool {
        self.magnitude() > 0x7ff0_0000_0000_0000
    }

    /// What the number is worth, counted in the smallest positive one.
    pub open spec fn worth(self) -> int {
        let w = magnitude_worth(self.magnitude(), 52) as int;
        if self.bits >= 0x8000_0000_0000_0000 {
            -w
        } else {
            w
        }
    }

    /// `self < other`, which nothing that is not a number takes part in.
    pub open spec fn is_below(self, other: Bits64) -> bool {
        !self.is_nan() && !other.is_nan() && self.worth() < other.worth()
    }

    /// The bits without the sign.
    fn size(self) -> (r: u64)
        ensures
            r == self.magnitude(),
    {
        if self.bits >= 0x8000_0000_0000_0000 {
            self.bits - 0x8000_0000_0000_0000
        } else {
            self.bits
        }
    }

    /// Is it not a number?
    pub fn nan(self) -> (r: bool)
        ensures
            r == self.is_nan(),
    {
        self.size() > 0x7ff0_0000_0000_0000
    }

    /// `self < other`.
    pub fn below(self, other: Bits64) -> (r: bool)
        ensures
            r == self.is_below(other),
    {
        proof {
            lemma_order(self.magnitude(), other.magnitude(), 52);
            lemma_nothing(52);
        }
        if self.nan() || other.nan() {
            return false;
        }
        let a = self.size();
        let b = other.size();
        if self.bits >= 0x8000_0000_0000_0000 {
            if other.bits >= 0x8000_0000_0000_0000 {
                b < a
            } else {
                a > 0 || b > 0
            }
        } else {
            other.bits < 0x8000_0000_0000_0000 && a < b
        }
    }
}

/// The number that bits stand for.
pub open spec fn value(x: Bits32) -> real {
    x.worth() as real / power2::pow2(149) as real
}

/// Numbers are in the order of what their bits stand for.
pub proof fn law_values_are_in_order(a: Bits32, b: Bits32)
    ensures
        a.worth() < b.worth() <==> value(a) < value(b),
        a.worth() == b.worth() <==> value(a) == value(b),
{
    let p = power2::pow2(149) as real;
    power2::lemma_pow2_pos(149);
    let x = a.worth() as real;
    let y = b.worth() as real;
    assert(x < y <==> x / p < y / p) by (nonlinear_arith)
        requires
            p > 0 as real,
    ;
    assert(x == y <==> x / p == y / p) by (nonlinear_arith)
        requires
            p > 0 as real,
    ;
}

/// What some bits stand for: zero, a quarter, a half, three quarters, one, and
/// less than nothing by one.
pub proof fn lemma_values()
    ensures
        value(zero()) == 0 as real,
        value(Bits32 { bits: 0x3e80_0000 }) == 1 as real / 4 as real,
        value(Bits32 { bits: 0x3f00_0000 }) == 1 as real / 2 as real,
        value(Bits32 { bits: 0x3f40_0000 }) == 3 as real / 4 as real,
        value(one()) == 1 as real,
        value(Bits32 { bits: 0xbf80_0000 }) == -1 as real,
        zero().worth() == 0,
        one().worth() == power2::pow2(149),
{
    power2::lemma2_to64();
    power2::lemma_pow2_pos(147);
    power2::lemma_pow2_pos(149);
    power2::lemma_pow2_adds(2, 147);
    power2::lemma_pow2_adds(23, 124);
    power2::lemma_pow2_adds(22, 125);
    power2::lemma_pow2_adds(1, 124);
    power2::lemma_pow2_adds(2, 124);
    lemma_worth_of_parts(125, 0);
    lemma_worth_of_parts(126, 0);
    lemma_worth_of_parts(126, 0x40_0000);
    lemma_worth_of_parts(127, 0);
    assert(power2::pow2(23) == 0x80_0000);
    let q = power2::pow2(147);
    let p = power2::pow2(124);
    assert(power2::pow2(149) == 4 * q && q == 0x80_0000 * p);
    assert(power2::pow2(125) == 2 * p && power2::pow2(126) == 4 * p);
    let h = power2::pow2(125);
    assert((0x80_0000 + 0x40_0000) * h == 3 * (0x80_0000 * p)) by (nonlinear_arith)
        requires
            h == 2 * p,
    ;
    assert(zero().worth() == 0);
    assert((Bits32 { bits: 0x3e80_0000 }).magnitude() == 125 * 0x80_0000 + 0);
    assert((Bits32 { bits: 0x3f00_0000 }).magnitude() == 126 * 0x80_0000 + 0);
    assert((Bits32 { bits: 0x3f40_0000 }).magnitude() == 126 * 0x80_0000 + 0x40_0000);
    assert(one().magnitude() == 127 * 0x80_0000 + 0);
    assert((Bits32 { bits: 0xbf80_0000 }).magnitude() == 127 * 0x80_0000 + 0);
    assert((Bits32 { bits: 0x3e80_0000 }).worth() == q);
    assert((Bits32 { bits: 0x3f00_0000 }).worth() == 2 * q);
    assert((Bits32 { bits: 0x3f40_0000 }).worth() == 3 * q);
    assert(one().worth() == 4 * q);
    assert((Bits32 { bits: 0xbf80_0000 }).worth() == -(4 * q));
    let r = q as real;
    let f = 4 as real * r;
    assert(power2::pow2(149) as real == f);
    assert(0 as real / f == 0 as real && r / f == 1 as real / 4 as real && (2 as real * r) / f
        == 1 as real / 2 as real && (3 as real * r) / f == 3 as real / 4 as real && f / f
        == 1 as real && (-f) / f == -1 as real) by (nonlinear_arith)
        requires
            r > 0 as real,
            f == 4 as real * r,
    ;
}

/// Numbers are in the order of their ranks, and equal where their ranks are.
pub proof fn law_rank_is_the_order(a: Bits32, b: Bits32)
    ensures
        a.rank() < b.rank() <==> a.worth() < b.worth(),
        a.rank() == b.rank() <==> a.worth() == b.worth(),
{
    lemma_order(a.magnitude(), b.magnitude(), 23);
    lemma_nothing(23);
}

/// Two magnitudes and what they are worth stand in the same order.
proof fn lemma_order(a: nat, b: nat, frac: nat)
    ensures
        a < b <==> magnitude_worth(a, frac) < magnitude_worth(b, frac),
        b < a <==> magnitude_worth(b, frac) < magnitude_worth(a, frac),
{
    if a < b {
        law_magnitudes_are_in_order(a, b, frac);
    } else if b < a {
        law_magnitudes_are_in_order(b, a, frac);
    }
}

/// What a magnitude with the exponent bits `e` and the fraction bits `m` is
/// worth.
pub proof fn lemma_worth_of_parts(e: nat, m: nat)
    requires
        e > 0,
        m < 0x80_0000,
    ensures
        magnitude_worth(e * 0x80_0000 + m, 23) == (0x80_0000 + m) * power2::pow2((e - 1) as nat),
{
    power2::lemma2_to64();
    assert(power2::pow2(23) == 0x80_0000);
    assert((e * 0x80_0000 + m) / 0x80_0000 == e);
    assert((e * 0x80_0000 + m) % 0x80_0000 == m);
}

/// Only the magnitude zero is worth nothing.
proof fn lemma_nothing(frac: nat)
    ensures
        magnitude_worth(0, frac) == 0,
        forall|a: nat| a > 0 ==> #[trigger] magnitude_worth(a, frac) > 0,
{
    power2::lemma_pow2_pos(frac);
    assert(0nat / power2::pow2(frac) == 0 && 0nat % power2::pow2(frac) == 0) by {
        div_mod::lemma_div_basics(power2::pow2(frac) as int);
        div_mod::lemma_small_mod(0, power2::pow2(frac));
    }
    assert forall|a: nat| a > 0 implies #[trigger] magnitude_worth(a, frac) > 0 by {
        law_magnitudes_are_in_order(0, a, frac);
    }
}

/// What bits stand for, as the format has it: with exponent bits `e` that are
/// neither all zero nor all one and fraction bits `m`, the fraction with a one in
/// front of it, times two to the power of `e - 150`, with the sign of the top bit.
pub proof fn law_bits_stand_for_numbers(x: Bits32)
    ensures
        ({
            let e = x.bits as int / 0x80_0000 % 256;
            let m = x.bits as int % 0x80_0000;
            let size = if e == 0 {
                m
            } else {
                (0x80_0000 + m) * power2::pow2((e - 1) as nat) as int
            };
            &&& x.bits < 0x8000_0000 ==> value(x) == size as real / power2::pow2(149) as real
            &&& x.bits >= 0x8000_0000 ==> value(x) == -(size as real / power2::pow2(149) as real)
            &&& x.is_nan() <==> e == 255 && m > 0
            &&& x.is_finite() <==> e < 255
        }),
{
    let e = x.bits as int / 0x80_0000 % 256;
    let m = x.bits as int % 0x80_0000;
    let mag = x.magnitude();
    assert(mag == e * 0x80_0000 + m);
    power2::lemma2_to64();
    power2::lemma_pow2_pos(149);
    assert(power2::pow2(23) == 0x80_0000);
    if e > 0 {
        lemma_worth_of_parts(e as nat, m as nat);
    } else {
        assert(mag / 0x80_0000 == 0 && mag % 0x80_0000 == mag);
    }
    let p = power2::pow2(149) as real;
    let w = magnitude_worth(mag, 23) as real;
    assert((-w) / p == -(w / p)) by (nonlinear_arith)
        requires
            p > 0 as real,
    ;
}

/// A number is below another where it stands for less, and nothing that is not a
/// number takes part.
pub proof fn law_below_is_less(a: Bits32, b: Bits32)
    ensures
        a.is_below(b) <==> !a.is_nan() && !b.is_nan() && value(a) < value(b),
{
    law_values_are_in_order(a, b);
}

/// A clamped number lies between the ends, and is the number itself where that
/// does; below the lower end it is the lower end, above the upper one the upper
/// one. What is not a number stays as it is.
pub proof fn law_a_clamped_number_lies_between(x: Bits32, lo: Bits32, hi: Bits32)
    requires
        !lo.is_nan(),
        !hi.is_nan(),
        value(lo) <= value(hi),
    ensures
        x.is_nan() ==> x.clamped(lo, hi) == x,
        !x.is_nan() ==> value(lo) <= value(x.clamped(lo, hi)) <= value(hi),
        !x.is_nan() && value(lo) <= value(x) <= value(hi) ==> x.clamped(lo, hi) == x,
        !x.is_nan() && value(x) < value(lo) ==> x.clamped(lo, hi) == lo,
        !x.is_nan() && value(hi) < value(x) ==> x.clamped(lo, hi) == hi,
{
    law_values_are_in_order(x, lo);
    law_values_are_in_order(hi, x);
    law_values_are_in_order(lo, x);
    law_values_are_in_order(x, hi);
}

/// The larger of two numbers is one of them and less than neither; what is not a
/// number gives way.
pub proof fn law_the_larger_is_no_less(a: Bits32, b: Bits32)
    ensures
        a.larger(b) == a || a.larger(b) == b,
        a.is_nan() ==> a.larger(b) == b,
        b.is_nan() && !a.is_nan() ==> a.larger(b) == a,
        !a.is_nan() && !b.is_nan() ==> value(a.larger(b)) >= value(a) && value(a.larger(b))
            >= value(b),
{
    law_values_are_in_order(a, b);
}

/// A number without its sign is as far from nothing, and not below it.
pub proof fn law_a_size_has_no_sign(x: Bits32)
    ensures
        value(x.absolute()) == (if value(x) < 0 as real {
            -value(x)
        } else {
            value(x)
        }),
        x.absolute().is_nan() == x.is_nan(),
        x.absolute().is_finite() == x.is_finite(),
        x.absolute().bits < 0x8000_0000,
{
    let y = x.absolute();
    assert(y.magnitude() == x.magnitude());
    power2::lemma_pow2_pos(149);
    let p = power2::pow2(149) as real;
    let w = magnitude_worth(x.magnitude(), 23) as real;
    assert((-w) / p == -(w / p)) by (nonlinear_arith)
        requires
            p > 0 as real,
    ;
    assert(w / p >= 0 as real) by (nonlinear_arith)
        requires
            p > 0 as real,
            w >= 0 as real,
    ;
}

/// The whole part of a number from nothing up is the last whole number that is not
/// more than it, as far as 64 bits hold it; below nothing there is none.
pub proof fn law_a_whole_part_is_the_last_not_more(x: Bits32)
    ensures
        x.is_nan() || value(x) < 0 as real ==> x.truncated() == 0,
        !x.is_nan() && value(x) >= 0 as real && x.truncated() < u64::MAX ==> x.truncated() as real
            <= value(x) < x.truncated() as real + 1 as real,
        !x.is_nan() && x.truncated() == u64::MAX ==> value(x) >= u64::MAX as real,
        x.truncated() <= u64::MAX,
{
    power2::lemma_pow2_pos(149);
    lemma_values();
    law_values_are_in_order(x, zero());
    let d = power2::pow2(149) as int;
    let w = x.worth();
    if !x.is_nan() && w >= 0 {
        let q = w / d;
        div_mod::lemma_fundamental_div_mod(w, d);
        div_mod::lemma_mod_bound(w, d);
        div_mod::lemma_div_pos_is_pos(w, d);
        assert(q * d <= w < (q + 1) * d) by (nonlinear_arith)
            requires
                w == d * q + w % d,
                0 <= w % d < d,
        ;
        let (wr, dr, qr) = (w as real, d as real, q as real);
        lemma_product(q, d as nat);
        lemma_product(q + 1, d as nat);
        let v = wr / dr;
        assert(v * dr == wr) by (nonlinear_arith)
            requires
                v == wr / dr,
                dr > 0 as real,
        ;
        assert(qr <= v) by (nonlinear_arith)
            requires
                dr > 0 as real,
                qr * dr <= wr,
                v * dr == wr,
        ;
        let next = qr + 1 as real;
        assert(v < next) by (nonlinear_arith)
            requires
                dr > 0 as real,
                wr < next * dr,
                v * dr == wr,
        ;
    }
}

/// The product of two whole numbers is that of the numbers.
pub proof fn lemma_product(a: int, b: nat)
    ensures
        (a * b) as real == a as real * b as real,
    decreases b,
{
    let x = a as real;
    if b == 0 {
        assert(a * b == 0);
        assert(x * (0 as real) == 0 as real) by (nonlinear_arith);
    } else {
        let c = (b - 1) as nat;
        lemma_product(a, c);
        assert(a * b == a * c + a) by (nonlinear_arith)
            requires
                b == c + 1,
        ;
        let y = c as real;
        let z = b as real;
        assert(x * z == x * y + x) by (nonlinear_arith)
            requires
                z == y + 1 as real,
        ;
    }
}

/// A quotient is what gives the number again.
proof fn lemma_quotient(a: real, b: real, q: real)
    requires
        b > 0 as real,
        q * b == a,
    ensures
        a / b == q,
{
    let v = a / b;
    assert(v * b == a) by (nonlinear_arith)
        requires
            v == a / b,
            b > 0 as real,
    ;
    assert(v == q) by (nonlinear_arith)
        requires
            v * b == q * b,
            b > 0 as real,
    ;
}

/// What bits with a size from about two to the power of minus 126 up to two to the
/// power of 23 stand for: so many parts of a power of two.
pub proof fn lemma_value_of_parts(x: Bits32, e: nat, m: nat)
    requires
        0 < e <= 150,
        m < 0x80_0000,
        x.magnitude() == e * 0x80_0000 + m,
    ensures
        ({
            let v = (0x80_0000 + m) as real / power2::pow2((150 - e) as nat) as real;
            value(x) == (if x.bits >= 0x8000_0000 {
                -v
            } else {
                v
            })
        }),
{
    lemma_worth_of_parts(e, m);
    power2::lemma_pow2_adds((e - 1) as nat, (150 - e) as nat);
    power2::lemma_pow2_pos((e - 1) as nat);
    power2::lemma_pow2_pos((150 - e) as nat);
    let f = (0x80_0000 + m) as real;
    let p = power2::pow2((e - 1) as nat) as real;
    let q = power2::pow2((150 - e) as nat) as real;
    let w = magnitude_worth(x.magnitude(), 23) as real;
    let all = power2::pow2(149) as real;
    lemma_product((0x80_0000 + m) as int, power2::pow2((e - 1) as nat));
    lemma_product(power2::pow2((e - 1) as nat) as int, power2::pow2((150 - e) as nat));
    assert(w == f * p);
    assert(all == p * q);
    let v = f / q;
    assert(v * q == f) by (nonlinear_arith)
        requires
            v == f / q,
            q > 0 as real,
    ;
    assert(v * all == w) by (nonlinear_arith)
        requires
            v * q == f,
            all == p * q,
            w == f * p,
    ;
    let n = -v;
    let u = -w;
    assert(n * all == u) by (nonlinear_arith)
        requires
            v * all == w,
            n == -v,
            u == -w,
    ;
    power2::lemma_pow2_pos(149);
    lemma_quotient(w, all, v);
    lemma_quotient(u, all, n);
}

/// Whether bits stand for a decimal number, `n` parts out of `d`, as nearly as a
/// ten-thousandth of such a part.
pub open spec fn stands_for(x: Bits32, n: int, d: int) -> bool {
    &&& x.is_finite()
    &&& -1 as real <= (value(x) * d as real - n as real) * 10_000 as real <= 1 as real
}

/// What bits stand for, out of their parts.
pub proof fn lemma_stands_for(x: Bits32, e: nat, m: nat, n: int, d: int)
    requires
        0 < e <= 150,
        m < 0x80_0000,
        d > 0,
        x.magnitude() == e * 0x80_0000 + m,
        ({
            let q = power2::pow2((150 - e) as nat) as int;
            let f = if x.bits >= 0x8000_0000 {
                -(0x80_0000 + m)
            } else {
                (0x80_0000 + m) as int
            };
            -q <= (f * d - n * q) * 10_000 <= q
        }),
    ensures
        stands_for(x, n, d),
{
    lemma_value_of_parts(x, e, m);
    let qi = power2::pow2((150 - e) as nat) as int;
    power2::lemma_pow2_pos((150 - e) as nat);
    let fi = if x.bits >= 0x8000_0000 {
        -(0x80_0000 + m)
    } else {
        (0x80_0000 + m) as int
    };
    let (f, q, nr, dr) = (fi as real, qi as real, n as real, d as real);
    let pos = (0x80_0000 + m) as real;
    let v = value(x);
    let half = pos / q;
    assert(half * q == pos) by (nonlinear_arith)
        requires
            half == pos / q,
            q > 0 as real,
    ;
    assert(v * q == f) by (nonlinear_arith)
        requires
            half * q == pos,
            (v == half && f == pos) || (v == -half && f == -pos),
    ;
    let many = 10_000 as real;
    let big = (fi * d - n * qi) * 10_000;
    lemma_product(fi, d as nat);
    lemma_product(n, qi as nat);
    let rest = f * dr - nr * q;
    assert((fi * d - n * qi) as real == rest);
    assert(big as real == rest * many);
    let s = v * dr - nr;
    assert(s * q == rest) by (nonlinear_arith)
        requires
            v * q == f,
            s == v * dr - nr,
            rest == f * dr - nr * q,
    ;
    let t = s * many;
    assert(t * q == rest * many) by (nonlinear_arith)
        requires
            s * q == rest,
            t == s * many,
    ;
    assert(t <= 1 as real) by (nonlinear_arith)
        requires
            t * q <= q,
            q > 0 as real,
    ;
    assert(t >= -1 as real) by (nonlinear_arith)
        requires
            t * q >= -q,
            q > 0 as real,
    ;
}

/// What 64 bits stand for, counted in the smallest positive number there is: as for
/// 32 bits, with 11 exponent bits and 52 fraction bits.
pub proof fn law_longer_bits_stand_for_numbers(x: Bits64)
    ensures
        ({
            let unit = 0x10_0000_0000_0000int;
            let e = x.bits as int / unit % 2048;
            let m = x.bits as int % unit;
            let size = if e == 0 {
                m
            } else {
                (unit + m) * power2::pow2((e - 1) as nat) as int
            };
            &&& x.bits < 0x8000_0000_0000_0000 ==> x.worth() == size
            &&& x.bits >= 0x8000_0000_0000_0000 ==> x.worth() == -size
            &&& x.is_nan() <==> e == 2047 && m > 0
        }),
{
    let unit = 0x10_0000_0000_0000int;
    let e = x.bits as int / unit % 2048;
    let m = x.bits as int % unit;
    let mag = x.magnitude();
    assert(mag == e * unit + m);
    power2::lemma2_to64_rest();
    assert(power2::pow2(52) == unit);
    assert(mag as int / unit == e);
    assert(mag as int % unit == m);
}

/// A number with 64 bits is below another where it is worth less, and nothing that is
/// not a number takes part.
pub proof fn law_below_is_worth_less(a: Bits64, b: Bits64)
    ensures
        a.is_nan() || b.is_nan() ==> !a.is_below(b),
        !a.is_nan() && !b.is_nan() ==> (a.is_below(b) <==> b.worth() - a.worth() >= 1),
        !(a.is_below(b) && b.is_below(a)),
{
}

}
