//! When a second-order filter has to work its coefficients out again.

use vstd::arithmetic::power2;
use vstd::prelude::*;

use crate::bits;
use crate::bits::Bits32;

verus! {

/// What a filter lets pass.
#[derive(Clone, Copy, Debug, PartialEq, Eq, Structural)]
pub enum FilterType {
    HighPass,
    LowPass,
}

/// The frequency that a filter starts with: 80 Hertz for a high-pass, 18
/// kilohertz for a low-pass.
pub open spec fn first_freq(t: FilterType) -> Bits32 {
    match t {
        FilterType::HighPass => Bits32 { bits: 0x42a0_0000 },
        FilterType::LowPass => Bits32 { bits: 0x468c_a000 },
    }
}

/// The frequency that a filter can be tuned to, up to `ceiling`.
pub open spec fn reach(wanted: Bits32, ceiling: Bits32) -> Bits32 {
    wanted.clamped(Bits32 { bits: 0x41a0_0000 }, ceiling)
}

/// A filter after it was asked to be tuned to `freq`, which is `gap` away.
pub open spec fn tuned(t: BiquadTuning, freq: Bits32, gap: Bits32) -> BiquadTuning {
    if (Bits32 { bits: 0x3c23_d70a }).is_below(gap) {
        BiquadTuning { freq, ..t }
    } else {
        t
    }
}

/// What a filter is tuned to.
#[derive(Clone, Copy, Debug, PartialEq, Eq, Structural)]
pub struct BiquadTuning {
    pub filter_type: FilterType,
    pub freq: Bits32,
}

impl BiquadTuning {
    /// The tuning that a filter starts with.
    pub fn new(filter_type: FilterType) -> (r: BiquadTuning)
        ensures
            r == (BiquadTuning { filter_type, freq: first_freq(filter_type) }),
    {
        let freq = match filter_type {
            FilterType::HighPass => Bits32 { bits: 0x42a0_0000 },
            FilterType::LowPass => Bits32 { bits: 0x468c_a000 },
        };
        BiquadTuning { filter_type, freq }
    }

    /// The frequency nearest to the wanted one, from 20 Hertz up to `ceiling`.
    pub fn reachable(wanted: Bits32, ceiling: Bits32) -> (r: Bits32)
        requires
            !ceiling.is_nan() && !ceiling.is_below(Bits32 { bits: 0x41a0_0000 }),
        ensures
            r == wanted.clamped(Bits32 { bits: 0x41a0_0000 }, ceiling),
            r == reach(wanted, ceiling),
    {
        wanted.clamp(Bits32 { bits: 0x41a0_0000 }, ceiling)
    }

    /// Tune to `freq`, which is `gap` away from the frequency of now, unless
    /// that is no more than a hundredth of a Hertz. Is the filter tuned anew?
    pub fn set_freq(&mut self, freq: Bits32, gap: Bits32) -> (anew: bool)
        ensures
            anew == (Bits32 { bits: 0x3c23_d70a }).is_below(gap),
            *final(self) == tuned(*old(self), freq, gap),
            *final(self) == (if anew {
                BiquadTuning { freq, ..*old(self) }
            } else {
                *old(self)
            }),
    {
        let anew = (Bits32 { bits: 0x3c23_d70a }).below(gap);
        if anew {
            self.freq = freq;
        }
        anew
    }
}

/// What the bits of the three round frequencies stand for.
proof fn lemma_round_freqs()
    ensures
        bits::value(Bits32 { bits: 0x41a0_0000 }) == 20 as real,
        bits::value(Bits32 { bits: 0x42a0_0000 }) == 80 as real,
        bits::value(Bits32 { bits: 0x468c_a000 }) == 18_000 as real,
{
    power2::lemma2_to64();
    bits::lemma_value_of_parts(Bits32 { bits: 0x41a0_0000 }, 131, 0x20_0000);
    bits::lemma_value_of_parts(Bits32 { bits: 0x42a0_0000 }, 133, 0x20_0000);
    bits::lemma_value_of_parts(Bits32 { bits: 0x468c_a000 }, 141, 0x0c_a000);
    assert(10_485_760 as real / 524_288 as real == 20 as real) by (nonlinear_arith);
    assert(10_485_760 as real / 131_072 as real == 80 as real) by (nonlinear_arith);
    assert(9_216_000 as real / 512 as real == 18_000 as real) by (nonlinear_arith);
}

/// A filter starts at 80 Hertz where it lets the highs pass, at 18 kilohertz where
/// it lets the lows pass.
pub proof fn law_a_filter_starts_at_the_edge(t: FilterType)
    ensures
        bits::value(first_freq(t)) == (if t == FilterType::HighPass {
            80 as real
        } else {
            18_000 as real
        }),
{
    lemma_round_freqs();
}

/// A filter is tuned from 20 Hertz up to the ceiling, and as it was asked for where
/// that lies between the two.
pub proof fn law_a_filter_is_tuned_within_reach(wanted: Bits32, ceiling: Bits32)
    requires
        !wanted.is_nan(),
        !ceiling.is_nan(),
        bits::value(ceiling) >= 20 as real,
    ensures
        ({
            let r = bits::value(reach(wanted, ceiling));
            let v = bits::value(wanted);
            let c = bits::value(ceiling);
            let lowest = 20 as real;
            &&& v < lowest ==> r == lowest
            &&& lowest <= v <= c ==> reach(wanted, ceiling) == wanted
            &&& c < v ==> reach(wanted, ceiling) == ceiling
        }),
{
    lemma_round_freqs();
    bits::law_a_clamped_number_lies_between(wanted, Bits32 { bits: 0x41a0_0000 }, ceiling);
}

/// A filter follows a frequency that is more than a hundredth of a Hertz away, and
/// stays where it is for one that is nearer; what it lets pass stays either way.
/// The hundredth is the nearest there is, a part in ten thousand off at most.
pub proof fn law_a_filter_follows_a_real_change(t: BiquadTuning, freq: Bits32, gap: Bits32)
    requires
        !gap.is_nan(),
    ensures
        ({
            let parts = bits::value(gap) * 1_000_000 as real;
            &&& tuned(t, freq, gap).filter_type == t.filter_type
            &&& parts > 10_001 as real ==> tuned(t, freq, gap).freq == freq
            &&& parts < 9_999 as real ==> tuned(t, freq, gap) == t
        }),
{
    let step = Bits32 { bits: 0x3c23_d70a };
    power2::lemma2_to64();
    bits::lemma_stands_for(step, 120, 0x23_d70a, 1, 100);
    bits::law_below_is_less(step, gap);
    let v = bits::value(step);
    let g = bits::value(gap);
    let million = 1_000_000 as real;
    let hundred = 100 as real;
    let many = 10_000 as real;
    let one = 1 as real;
    assert((v * hundred - one) * many == v * million - many) by (nonlinear_arith)
        requires
            million == 1_000_000 as real,
            hundred == 100 as real,
            many == 10_000 as real,
            one == 1 as real,
    ;
    assert(v < g <==> v * million < g * million) by (nonlinear_arith)
        requires
            million == 1_000_000 as real,
    ;
}

}
