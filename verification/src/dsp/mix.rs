//! How much of the wet signal the mix control lets through.

use vstd::prelude::*;

use crate::bits;
use crate::bits::Bits32;

verus! {

/// The share of the wet signal: the mix, from 0 to 1, whatever automation asks
/// for.
pub fn wet_share(mix: Bits32) -> (r: Bits32)
    ensures
        r == mix.clamped(bits::zero(), bits::one()),
{
    mix.clamp(Bits32 { bits: 0 }, Bits32 { bits: 0x3f80_0000 })
}

/// Dry and wet blended by the mix control, in exact numbers: as much less of the
/// dry signal as there is of the wet one.
pub open spec fn blended(dry: real, wet: real, mix: Bits32) -> real {
    let m = bits::value(mix.clamped(bits::zero(), bits::one()));
    dry * (1 as real - m) + wet * m
}

/// The share is from 0 to 1, and at its ends exactly that.
proof fn lemma_share(mix: Bits32)
    requires
        !mix.is_nan(),
    ensures
        0 as real <= bits::value(mix.clamped(bits::zero(), bits::one())) <= 1 as real,
        mix.worth() <= 0 ==> bits::value(mix.clamped(bits::zero(), bits::one())) == 0 as real,
        mix.worth() >= bits::one().worth() ==> bits::value(mix.clamped(bits::zero(), bits::one())) == 1 as real,
{
    let share = mix.clamped(bits::zero(), bits::one());
    bits::lemma_values();
    bits::law_values_are_in_order(bits::zero(), bits::one());
    bits::law_values_are_in_order(bits::zero(), share);
    bits::law_values_are_in_order(share, bits::one());
    bits::law_values_are_in_order(mix, bits::zero());
    bits::law_values_are_in_order(mix, bits::one());
}

/// The mix control trades dry for wet: at nothing or less it is the dry signal,
/// at one or more the wet one, and in between it is never louder than the louder
/// of the two.
pub proof fn law_the_mix_is_a_crossfade(dry: real, wet: real, mix: Bits32)
    requires
        !mix.is_nan(),
    ensures
        mix.worth() <= 0 ==> blended(dry, wet, mix) == dry,
        mix.worth() >= bits::one().worth() ==> blended(dry, wet, mix) == wet,
        dry <= wet ==> dry <= blended(dry, wet, mix) <= wet,
        wet <= dry ==> wet <= blended(dry, wet, mix) <= dry,
{
    lemma_share(mix);
    let m = bits::value(mix.clamped(bits::zero(), bits::one()));
    let one = 1 as real;
    let zero = 0 as real;
    assert(m == zero ==> dry * (one - m) + wet * m == dry) by (nonlinear_arith)
        requires
            one == 1 as real,
            zero == 0 as real,
    ;
    assert(m == one ==> dry * (one - m) + wet * m == wet) by (nonlinear_arith)
        requires
            one == 1 as real,
    ;
    assert(dry <= wet ==> dry <= dry * (one - m) + wet * m <= wet) by (nonlinear_arith)
        requires
            one == 1 as real,
            0 as real <= m <= one,
    ;
    assert(wet <= dry ==> wet <= dry * (one - m) + wet * m <= dry) by (nonlinear_arith)
        requires
            one == 1 as real,
            0 as real <= m <= one,
    ;
}

/// Turning the mix up moves the blend from dry to wet, never back: towards the
/// wet signal, whichever of the two is the larger.
pub proof fn law_the_mix_moves_from_dry_to_wet(dry: real, wet: real, mix: Bits32, more: Bits32)
    requires
        !mix.is_nan(),
        !more.is_nan(),
        mix.worth() <= more.worth(),
    ensures
        dry <= wet ==> blended(dry, wet, mix) <= blended(dry, wet, more),
        wet <= dry ==> blended(dry, wet, more) <= blended(dry, wet, mix),
{
    lemma_share(mix);
    lemma_share(more);
    let a = mix.clamped(bits::zero(), bits::one());
    let b = more.clamped(bits::zero(), bits::one());
    bits::lemma_values();
    bits::law_values_are_in_order(bits::zero(), bits::one());
    bits::law_values_are_in_order(b, a);
    let m = bits::value(a);
    let n = bits::value(b);
    let one = 1 as real;
    assert(dry <= wet ==> dry * (one - m) + wet * m <= dry * (one - n) + wet * n)
        by (nonlinear_arith)
        requires
            m <= n,
            one == 1 as real,
    ;
    assert(wet <= dry ==> dry * (one - n) + wet * n <= dry * (one - m) + wet * m)
        by (nonlinear_arith)
        requires
            m <= n,
            one == 1 as real,
    ;
}

}
