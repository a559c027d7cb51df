//! Rounding, in exact numbers: what the audio code works out is the number
//! nearest to the exact result of each operation.
//!
//! The levels of the envelope and of the detector move towards a target by a
//! share of the way. The laws here say where such a step leads, however its
//! operations are rounded.

use vstd::arithmetic::power2;
use vstd::prelude::*;

use crate::bits;
use crate::bits::Bits32;

verus! {

/// How far apart two numbers are.
pub open spec fn distance(a: real, b: real) -> real {
    if a < b {
        b - a
    } else {
        a - b
    }
}

/// No finite number is nearer to an exact one than `x`.
pub open spec fn is_nearest(x: Bits32, exact: real) -> bool {
    &&& x.is_finite()
    &&& forall|b: Bits32| #[trigger]
        b.is_finite() ==> distance(bits::value(x), exact) <= distance(bits::value(b), exact)
}

/// A step of a level towards a target by the share `c` of the way, in exact
/// numbers.
pub open spec fn exact_step(level: real, c: real, target: real) -> real {
    level + c * (target - level)
}

/// A step of a level towards a target by the share `c` of the way, with every
/// operation rounded.
pub open spec fn is_step(level: Bits32, c: Bits32, target: Bits32, after: Bits32) -> bool {
    exists|way: Bits32, part: Bits32| #[trigger] leads(level, c, target, way, part, after)
}

/// A step, with what is between: the way to the target, and the part of it that
/// is gone.
pub open spec fn leads(
    level: Bits32,
    c: Bits32,
    target: Bits32,
    way: Bits32,
    part: Bits32,
    after: Bits32,
) -> bool {
    &&& is_nearest(way, bits::value(target) - bits::value(level))
    &&& is_nearest(part, bits::value(c) * bits::value(way))
    &&& is_nearest(after, bits::value(level) + bits::value(part))
}

/// From 0 to 1.
pub open spec fn is_share(x: Bits32) -> bool {
    x.is_within(bits::zero(), bits::one())
}

/// Rounding passes no number: what is nearest to an exact number lies on the same
/// side of every number as it does.
pub proof fn law_rounding_passes_no_number(x: Bits32, exact: real, b: Bits32)
    requires
        is_nearest(x, exact),
        b.is_finite(),
    ensures
        exact <= bits::value(b) ==> bits::value(x) <= bits::value(b),
        bits::value(b) <= exact ==> bits::value(b) <= bits::value(x),
{
}

/// A step leads from the level towards the target and not past it, in exact
/// numbers.
pub proof fn law_an_exact_step_leads_towards_its_target(level: real, c: real, target: real)
    requires
        0 as real <= c <= 1 as real,
    ensures
        level <= target ==> level <= exact_step(level, c, target) <= target,
        target <= level ==> target <= exact_step(level, c, target) <= level,
{
    assert(level <= target ==> level <= level + c * (target - level) <= target)
        by (nonlinear_arith)
        requires
            0 as real <= c <= 1 as real,
    ;
    assert(target <= level ==> target <= level + c * (target - level) <= level)
        by (nonlinear_arith)
        requires
            0 as real <= c <= 1 as real,
    ;
}

/// The number with the other sign.
spec fn negated(x: Bits32) -> Bits32 {
    if x.bits >= 0x8000_0000 {
        Bits32 { bits: (x.bits - 0x8000_0000) as u32 }
    } else {
        Bits32 { bits: (x.bits + 0x8000_0000) as u32 }
    }
}

proof fn lemma_negated(x: Bits32)
    requires
        x.is_finite(),
    ensures
        negated(x).is_finite(),
        bits::value(negated(x)) == -bits::value(x),
{
    let y = negated(x);
    assert(y.magnitude() == x.magnitude());
    assert(y.worth() == -x.worth());
    let p = power2::pow2(149) as real;
    power2::lemma_pow2_pos(149);
    let w = x.worth() as real;
    assert((-w) / p == -(w / p)) by (nonlinear_arith)
        requires
            p > 0 as real,
    ;
}

/// A share as a number.
proof fn lemma_share(x: Bits32)
    requires
        is_share(x),
    ensures
        x.is_finite(),
        0 as real <= bits::value(x) <= 1 as real,
{
    bits::lemma_values();
    bits::law_values_are_in_order(x, bits::zero());
    bits::law_values_are_in_order(bits::one(), x);
    bits::law_rank_is_the_order(bits::one(), x);
    bits::law_rank_is_the_order(x, bits::zero());
    assert(x.rank() <= 0x3f80_0000);
}

/// A number from 0 to 1 is a share.
proof fn lemma_is_share(x: Bits32)
    requires
        x.is_finite(),
        0 as real <= bits::value(x) <= 1 as real,
    ensures
        is_share(x),
{
    bits::lemma_values();
    bits::law_values_are_in_order(x, bits::zero());
    bits::law_values_are_in_order(bits::one(), x);
}

/// The number below one with a positive magnitude.
spec fn before(x: Bits32) -> Bits32 {
    Bits32 { bits: (x.bits - 1) as u32 }
}

/// What lies between a magnitude and the one before it.
proof fn lemma_gap(e: nat, f: nat)
    requires
        f < 0x80_0000,
        e * 0x80_0000 + f > 0,
    ensures
        ({
            let m = (e * 0x80_0000 + f) as nat;
            let gap = bits::magnitude_worth(m, 23) - bits::magnitude_worth((m - 1) as nat, 23);
            &&& gap > 0
            &&& e == 0 ==> gap == 1
            &&& e > 0 ==> gap <= power2::pow2((e - 1) as nat)
            &&& e > 1 && f == 0 ==> gap == power2::pow2((e - 2) as nat)
            &&& e > 0 ==> gap * 0x80_0000 <= bits::magnitude_worth(m, 23)
        }),
{
    let m = (e * 0x80_0000 + f) as nat;
    power2::lemma2_to64();
    assert(power2::pow2(23) == 0x80_0000);
    bits::law_magnitudes_are_in_order((m - 1) as nat, m, 23);
    if e == 0 {
        assert(m / 0x80_0000 == 0 && m % 0x80_0000 == m);
        let n = (m - 1) as nat;
        assert(n / 0x80_0000 == 0 && n % 0x80_0000 == n);
    } else {
        let p = power2::pow2((e - 1) as nat);
        power2::lemma_pow2_pos((e - 1) as nat);
        bits::lemma_worth_of_parts(e, f);
        if f > 0 {
            bits::lemma_worth_of_parts(e, (f - 1) as nat);
            assert(e * 0x80_0000 + (f - 1) as nat == m - 1);
            assert((0x80_0000 + f) * p - (0x80_0000 + (f - 1)) * p == p) by (nonlinear_arith);
        } else if e == 1 {
            let n = (m - 1) as nat;
            assert(n == 0x7f_ffff);
            assert(n / 0x80_0000 == 0 && n % 0x80_0000 == n);
            assert(bits::magnitude_worth(n, 23) == n);
            assert(p == 1);
            assert((0x80_0000 + f) * p == 0x80_0000 + f) by (nonlinear_arith)
                requires
                    p == 1,
            ;
            assert(bits::magnitude_worth(m, 23) == 0x80_0000);
        } else {
            let q = power2::pow2((e - 2) as nat);
            power2::lemma_pow2_pos((e - 2) as nat);
            power2::lemma_pow2_adds((e - 2) as nat, 1);
            assert(p == 2 * q);
            bits::lemma_worth_of_parts((e - 1) as nat, 0x7f_ffff);
            assert((e - 1) * 0x80_0000 + 0x7f_ffff == m - 1);
            assert((0x80_0000 + 0) * p - (0x80_0000 + 0x7f_ffff) * q == q) by (nonlinear_arith)
                requires
                    p == 2 * q,
            ;
        }
        let w = bits::magnitude_worth(m, 23);
        let gap = w - bits::magnitude_worth((m - 1) as nat, 23);
        assert(gap * 0x80_0000 <= w) by (nonlinear_arith)
            requires
                gap <= p,
                w == (0x80_0000 + f) * p,
                f >= 0,
                p > 0,
        ;
    }
}

/// A number from 0 to 1 lies no further from the one before it than two to the
/// power of minus 24.
proof fn lemma_gap_of_a_share(x: Bits32)
    requires
        is_share(x),
        bits::value(x) > 0 as real,
    ensures
        before(x).is_finite(),
        0 as real <= bits::value(before(x)) < bits::value(x),
        bits::value(x) - bits::value(before(x)) <= 1 as real / 0x100_0000 as real,
{
    bits::lemma_values();
    lemma_share(x);
    bits::law_values_are_in_order(bits::zero(), x);
    bits::law_rank_is_the_order(bits::zero(), x);
    bits::law_rank_is_the_order(bits::one(), x);
    let m = x.magnitude();
    assert(0 < m <= 0x3f80_0000);
    assert(x.bits < 0x8000_0000);
    let e = m / 0x80_0000;
    let f = m % 0x80_0000;
    lemma_gap(e, f);
    assert(e <= 127 && (e == 127 ==> f == 0));
    let b = before(x);
    assert(b.magnitude() == m - 1);
    let gap = x.worth() - b.worth();
    power2::lemma2_to64();
    if e < 126 && e > 0 {
        power2::lemma_pow2_strictly_increases((e - 1) as nat, 125);
    }
    if e == 0 {
        power2::lemma_pow2_strictly_increases(0, 125);
        assert(power2::pow2(0) == 1);
    }
    assert(gap <= power2::pow2(125));
    power2::lemma_pow2_adds(24, 125);
    power2::lemma_pow2_pos(125);
    let u = power2::pow2(125) as real;
    let p = power2::pow2(149) as real;
    assert(p == 0x100_0000 as real * u);
    bits::law_values_are_in_order(b, x);
    bits::law_rank_is_the_order(bits::zero(), b);
    bits::law_values_are_in_order(b, bits::zero());
    let (xw, bw) = (x.worth() as real, b.worth() as real);
    assert(xw - bw <= u);
    assert(xw / p - bw / p <= 1 as real / 0x100_0000 as real) by (nonlinear_arith)
        requires
            xw - bw <= u,
            p == 0x100_0000 as real * u,
            u > 0 as real,
    ;
}

/// Rounding a number from 0 to 1 moves it up by no more than two to the power of
/// minus 25.
proof fn lemma_rounded_up(x: Bits32, exact: real)
    requires
        is_nearest(x, exact),
        0 as real <= exact <= 1 as real,
    ensures
        is_share(x),
        bits::value(x) - exact <= 1 as real / 0x200_0000 as real,
{
    bits::lemma_values();
    law_rounding_passes_no_number(x, exact, bits::zero());
    law_rounding_passes_no_number(x, exact, bits::one());
    lemma_is_share(x);
    if bits::value(x) > exact {
        lemma_gap_of_a_share(x);
        law_rounding_passes_no_number(x, exact, before(x));
    }
}

/// No number lies between one and one and two to the power of minus 23.
proof fn lemma_after_one(x: Bits32)
    requires
        x.is_finite(),
        bits::value(x) > 1 as real,
    ensures
        bits::value(x) >= 1 as real + 1 as real / 0x80_0000 as real,
{
    let next = Bits32 { bits: 0x3f80_0001 };
    bits::lemma_values();
    bits::law_values_are_in_order(bits::one(), x);
    bits::law_rank_is_the_order(bits::one(), x);
    bits::law_rank_is_the_order(x, next);
    bits::law_values_are_in_order(x, next);
    assert(next.magnitude() == 127 * 0x80_0000 + 1);
    bits::lemma_worth_of_parts(127, 1);
    power2::lemma2_to64();
    power2::lemma_pow2_adds(23, 126);
    power2::lemma_pow2_pos(126);
    let u = power2::pow2(126) as real;
    let p = power2::pow2(149) as real;
    assert(p == 0x80_0000 as real * u);
    let w = next.worth() as real;
    assert((0x80_0000 + 1) * power2::pow2(126) == power2::pow2(149) + power2::pow2(126))
        by (nonlinear_arith)
        requires
            power2::pow2(149) == 0x80_0000 * power2::pow2(126),
    ;
    assert(w == p + u);
    assert(w / p == 1 as real + 1 as real / 0x80_0000 as real) by (nonlinear_arith)
        requires
            w == p + u,
            p == 0x80_0000 as real * u,
            u > 0 as real,
    ;
}

/// A step between levels from 0 to 1 by a share of the way leads to a level from
/// 0 to 1, however it is rounded.
pub proof fn law_a_step_stays_in_range(level: Bits32, c: Bits32, target: Bits32, after: Bits32)
    requires
        is_share(level),
        is_share(c),
        is_share(target),
        is_step(level, c, target, after),
    ensures
        is_share(after),
{
    let (way, part) = choose|way: Bits32, part: Bits32| #[trigger]
        leads(level, c, target, way, part, after);
    bits::lemma_values();
    lemma_share(level);
    lemma_share(c);
    lemma_share(target);
    lemma_negated(level);
    let x = bits::value(level);
    let s = bits::value(c);
    let t = bits::value(target);
    let w = bits::value(way);
    let p = bits::value(part);
    law_rounding_passes_no_number(way, t - x, bits::zero());
    law_rounding_passes_no_number(way, t - x, negated(level));
    assert(0 as real <= w ==> 0 as real <= s * w <= w) by (nonlinear_arith)
        requires
            0 as real <= s <= 1 as real,
    ;
    assert(w <= 0 as real ==> w <= s * w <= 0 as real) by (nonlinear_arith)
        requires
            0 as real <= s <= 1 as real,
    ;
    law_rounding_passes_no_number(part, s * w, bits::zero());
    law_rounding_passes_no_number(part, s * w, way);
    law_rounding_passes_no_number(part, s * w, negated(level));
    law_rounding_passes_no_number(after, x + p, bits::zero());
    law_rounding_passes_no_number(after, x + p, bits::one());
    if t >= x {
        lemma_rounded_up(way, t - x);
        if bits::value(after) > 1 as real {
            lemma_after_one(after);
            assert(bits::one().is_finite());
        }
    }
    lemma_is_share(after);
}

/// A step towards nothing never raises a level, and never leads below nothing.
pub proof fn law_a_step_to_nothing_never_rises(level: Bits32, c: Bits32, after: Bits32)
    requires
        is_share(level),
        is_share(c),
        is_step(level, c, bits::zero(), after),
    ensures
        is_share(after),
        !level.is_below(after),
{
    let (way, part) = choose|way: Bits32, part: Bits32| #[trigger]
        leads(level, c, bits::zero(), way, part, after);
    bits::lemma_values();
    bits::law_values_are_in_order(bits::zero(), bits::one());
    law_a_step_stays_in_range(level, c, bits::zero(), after);
    lemma_share(level);
    lemma_share(c);
    let x = bits::value(level);
    let s = bits::value(c);
    let w = bits::value(way);
    law_rounding_passes_no_number(way, 0 as real - x, bits::zero());
    assert(w <= 0 as real ==> s * w <= 0 as real) by (nonlinear_arith)
        requires
            0 as real <= s <= 1 as real,
    ;
    law_rounding_passes_no_number(part, s * w, bits::zero());
    law_rounding_passes_no_number(after, x + bits::value(part), level);
    bits::law_values_are_in_order(level, after);
}

/// Two to the power of minus 23: the least share that every step still shows.
pub open spec fn least_share() -> Bits32 {
    Bits32 { bits: 0x3400_0000 }
}

/// Two to the power of minus 103.
pub open spec fn least_level() -> Bits32 {
    Bits32 { bits: 0x0c00_0000 }
}

/// The number times two to the power of minus 23.
spec fn scaled_down(x: Bits32) -> Bits32 {
    Bits32 { bits: (x.bits - 23 * 0x80_0000) as u32 }
}

/// The least share, and the number times it, which is no less than what lies
/// between the number and the one before it.
proof fn lemma_least(level: Bits32)
    requires
        is_share(level),
        least_level().worth() <= level.worth(),
    ensures
        bits::value(least_share()) == 1 as real / 0x80_0000 as real,
        scaled_down(level).is_finite(),
        bits::value(scaled_down(level)) == bits::value(level) / 0x80_0000 as real,
        before(level).is_finite(),
        bits::value(before(level)) < bits::value(level),
        bits::value(level) - bits::value(before(level)) <= bits::value(scaled_down(level)),
{
    bits::lemma_values();
    bits::law_rank_is_the_order(level, least_level());
    bits::law_rank_is_the_order(bits::one(), level);
    let m = level.magnitude();
    let small = scaled_down(level);
    let b = before(level);
    assert(0x0c00_0000 <= m <= 0x3f80_0000 && level.bits < 0x8000_0000);
    let e = m / 0x80_0000;
    let f = m % 0x80_0000;
    assert(e >= 24);
    assert(small.magnitude() == (e - 23) * 0x80_0000 + f);
    assert(b.magnitude() == m - 1);
    lemma_gap(e, f);
    bits::lemma_worth_of_parts(e, f);
    bits::lemma_worth_of_parts((e - 23) as nat, f);
    power2::lemma2_to64();
    power2::lemma_pow2_adds(23, (e - 24) as nat);
    let h = power2::pow2((e - 24) as nat);
    assert(power2::pow2((e - 1) as nat) == 0x80_0000 * h);
    assert((0x80_0000 + f) * (0x80_0000 * h) == 0x80_0000 * ((0x80_0000 + f) * h))
        by (nonlinear_arith);
    assert(level.worth() == 0x80_0000 * small.worth());
    bits::law_values_are_in_order(b, level);
    power2::lemma_pow2_pos(149);
    let p = power2::pow2(149) as real;
    let (x, y, z) = (level.worth() as real, small.worth() as real, b.worth() as real);
    assert(y / p == (x / p) / 0x80_0000 as real) by (nonlinear_arith)
        requires
            x == 0x80_0000 as real * y,
            p > 0 as real,
    ;
    assert(level.worth() - b.worth() <= small.worth());
    assert(x - z <= y);
    assert(x / p - z / p <= y / p) by (nonlinear_arith)
        requires
            x - z <= y,
            p > 0 as real,
    ;
    assert(least_share().magnitude() == 104 * 0x80_0000 + 0);
    bits::lemma_worth_of_parts(104, 0);
    power2::lemma_pow2_adds(23, 103);
    power2::lemma_pow2_adds(23, 126);
    let k = power2::pow2(126) as real;
    power2::lemma_pow2_pos(126);
    let w = least_share().worth() as real;
    assert(w == k);
    assert(p == 0x80_0000 as real * k);
    assert(w / p == 1 as real / 0x80_0000 as real) by (nonlinear_arith)
        requires
            w == k,
            p == 0x80_0000 as real * k,
            k > 0 as real,
    ;
}

/// A step towards nothing by at least the least share lowers the level: rounding
/// never holds it where it was.
pub proof fn law_a_step_to_nothing_falls(level: Bits32, c: Bits32, after: Bits32)
    requires
        is_share(level),
        is_share(c),
        least_level().worth() <= level.worth(),
        least_share().worth() <= c.worth(),
        is_step(level, c, bits::zero(), after),
    ensures
        after.is_below(level),
{
    let (way, part) = choose|way: Bits32, part: Bits32| #[trigger]
        leads(level, c, bits::zero(), way, part, after);
    bits::lemma_values();
    lemma_share(level);
    lemma_share(c);
    lemma_least(level);
    lemma_negated(level);
    let small = scaled_down(level);
    lemma_negated(small);
    bits::law_values_are_in_order(c, least_share());
    let x = bits::value(level);
    let s = bits::value(c);
    let w = bits::value(way);
    law_rounding_passes_no_number(way, 0 as real - x, negated(level));
    assert(w == -x);
    assert(s * w <= -(x / 0x80_0000 as real)) by (nonlinear_arith)
        requires
            w == -x,
            x >= 0 as real,
            s >= 1 as real / 0x80_0000 as real,
    ;
    law_rounding_passes_no_number(part, s * w, negated(small));
    law_rounding_passes_no_number(after, x + bits::value(part), before(level));
    bits::law_values_are_in_order(after, level);
}

/// A number times a share of it is no more than the number.
pub proof fn law_a_share_is_no_more(x: Bits32, c: Bits32, after: Bits32)
    requires
        x.is_finite(),
        bits::zero().worth() <= x.worth(),
        is_share(c),
        is_nearest(after, bits::value(x) * bits::value(c)),
    ensures
        after.is_finite(),
        bits::zero().worth() <= after.worth() <= x.worth(),
{
    bits::lemma_values();
    lemma_share(c);
    let v = bits::value(x);
    let s = bits::value(c);
    bits::law_values_are_in_order(x, bits::zero());
    assert(0 as real <= v * s <= v) by (nonlinear_arith)
        requires
            0 as real <= v,
            0 as real <= s <= 1 as real,
    ;
    law_rounding_passes_no_number(after, v * s, bits::zero());
    law_rounding_passes_no_number(after, v * s, x);
    bits::law_values_are_in_order(after, bits::zero());
    bits::law_values_are_in_order(x, after);
}

/// A step towards one never lowers a level.
pub proof fn law_a_step_to_one_never_falls(level: Bits32, c: Bits32, after: Bits32)
    requires
        is_share(level),
        is_share(c),
        is_step(level, c, bits::one(), after),
    ensures
        is_share(after),
        !after.is_below(level),
{
    let (way, part) = choose|way: Bits32, part: Bits32| #[trigger]
        leads(level, c, bits::one(), way, part, after);
    bits::lemma_values();
    bits::law_values_are_in_order(bits::zero(), bits::one());
    law_a_step_stays_in_range(level, c, bits::one(), after);
    lemma_share(level);
    lemma_share(c);
    let x = bits::value(level);
    let s = bits::value(c);
    let w = bits::value(way);
    law_rounding_passes_no_number(way, 1 as real - x, bits::zero());
    assert(w >= 0 as real ==> s * w >= 0 as real) by (nonlinear_arith)
        requires
            0 as real <= s,
    ;
    law_rounding_passes_no_number(part, s * w, bits::zero());
    law_rounding_passes_no_number(after, x + bits::value(part), level);
    bits::law_values_are_in_order(after, level);
}

}
