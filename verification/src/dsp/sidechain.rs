//! The sidechain: when the key ducks the wet signal, and what the meter shows.
//!
//! Whether the key is over the threshold, whether the hold still runs, and
//! whether the meter rises are decided here. What a level becomes when it rises
//! or falls by one step is worked out by the caller and handed in.

use vstd::arithmetic::power2;
use vstd::prelude::*;

use crate::bits;
use crate::bits::Bits32;
use crate::rounding;

verus! {

/// What ducks the wet signal.
#[derive(Clone, Copy, Debug, PartialEq, Eq, Structural)]
pub struct SidechainDetector {
    /// How far the wet signal is ducked, from 0 to 1.
    pub envelope: Bits32,
    /// How many samples the hold still runs.
    pub hold_counter: Bits32,
    /// The level of the key, which rises at once and falls at a readable rate.
    pub key_level: Bits32,
    /// The level that the key has to pass.
    pub threshold_lin: Bits32,
    /// How many samples the hold runs.
    pub hold_samples: Bits32,
}

/// What the envelope does.
#[derive(Clone, Copy, Debug, PartialEq, Eq, Structural)]
pub enum DuckStage {
    /// The key is over the threshold: it rises.
    Attack,
    /// The hold still runs: it stays.
    Hold,
    /// It falls.
    Release,
}

/// What the levels are one step on.
#[derive(Clone, Copy, Debug, PartialEq, Eq, Structural)]
pub struct NextLevels {
    /// The level of the key, fallen by one step.
    pub key_fallen: Bits32,
    /// The envelope, risen by one step of the attack.
    pub risen: Bits32,
    /// The envelope, fallen by one step of the release.
    pub fallen: Bits32,
    /// The hold counter, less one.
    pub counted: Bits32,
}

impl SidechainDetector {
    /// What the envelope does at this level of the key.
    pub open spec fn stage_at(self, level: Bits32) -> DuckStage {
        if self.threshold_lin.is_below(level) {
            DuckStage::Attack
        } else if bits::zero().is_below(self.hold_counter) {
            DuckStage::Hold
        } else {
            DuckStage::Release
        }
    }

    /// One sample of the key on.
    pub open spec fn after(self, sample: Bits32, next: NextLevels) -> SidechainDetector {
        let level = sample.absolute();
        let stage = self.stage_at(level);
        let envelope = match stage {
            DuckStage::Attack => next.risen,
            DuckStage::Hold => self.envelope,
            DuckStage::Release => next.fallen,
        };
        SidechainDetector {
            envelope: envelope.clamped(bits::zero(), bits::one()),
            hold_counter: match stage {
                DuckStage::Attack => self.hold_samples,
                DuckStage::Hold => next.counted,
                DuckStage::Release => self.hold_counter,
            },
            key_level: if self.key_level.is_below(level) {
                level
            } else {
                next.key_fallen
            },
            ..self
        }
    }

    /// A detector that hears nothing.
    pub fn new(threshold_lin: Bits32, hold_samples: Bits32) -> (r: SidechainDetector)
        ensures
            r.in_range(),
            r == (SidechainDetector {
                envelope: bits::zero(),
                hold_counter: bits::zero(),
                key_level: bits::zero(),
                threshold_lin,
                hold_samples,
            }),
    {
        proof {
            lemma_levels();
        }
        let zero = Bits32 { bits: 0 };
        SidechainDetector {
            envelope: zero,
            hold_counter: zero,
            key_level: zero,
            threshold_lin,
            hold_samples,
        }
    }

    /// Set the threshold, linear, and the hold, in samples.
    pub fn set_params(&mut self, threshold_lin: Bits32, hold_samples: Bits32)
        ensures
            *final(self) == called(*old(self), Call::Params { threshold_lin, hold_samples }),
            *final(self) == (SidechainDetector { threshold_lin, hold_samples, ..*old(self) }),
    {
        self.threshold_lin = threshold_lin;
        self.hold_samples = hold_samples;
    }

    /// What the envelope does at this level of the key.
    pub fn stage(&self, level: Bits32) -> (r: DuckStage)
        ensures
            r == self.stage_at(level),
    {
        if self.threshold_lin.below(level) {
            DuckStage::Attack
        } else if (Bits32 { bits: 0 }).below(self.hold_counter) {
            DuckStage::Hold
        } else {
            DuckStage::Release
        }
    }

    /// Take one sample of the key. The result is how far the wet signal is
    /// ducked: 0 is not at all, 1 is altogether.
    pub fn process(&mut self, sample: Bits32, next: &NextLevels) -> (depth: Bits32)
        ensures
            *final(self) == old(self).after(sample, *next),
            depth == final(self).envelope,
    {
        let level = sample.abs();
        if self.key_level.below(level) {
            self.key_level = level;
        } else {
            self.key_level = next.key_fallen;
        }
        match self.stage(level) {
            DuckStage::Attack => {
                self.envelope = next.risen;
                self.hold_counter = self.hold_samples;
            },
            DuckStage::Hold => {
                self.hold_counter = next.counted;
            },
            DuckStage::Release => {
                self.envelope = next.fallen;
            },
        }
        self.envelope = self.envelope.clamp(Bits32 { bits: 0 }, Bits32 { bits: 0x3f80_0000 });
        self.envelope
    }

    /// How far the wet signal is ducked.
    pub fn current_depth(&self) -> (r: Bits32)
        ensures
            r == self.envelope,
    {
        self.envelope
    }

    /// The level of the key, linear, for the meter.
    pub fn key_level(&self) -> (r: Bits32)
        ensures
            r == self.key_level,
    {
        self.key_level
    }

    /// The level that the key has to pass, linear.
    pub fn threshold_linear(&self) -> (r: Bits32)
        ensures
            r == self.threshold_lin,
    {
        self.threshold_lin
    }

    /// Forget what was heard. The meter goes back to nothing too.
    pub fn reset(&mut self)
        ensures
            *final(self) == called(*old(self), Call::Reset),
            *final(self) == (SidechainDetector {
                envelope: bits::zero(),
                hold_counter: bits::zero(),
                key_level: bits::zero(),
                ..*old(self)
            }),
    {
        let zero = Bits32 { bits: 0 };
        self.envelope = zero;
        self.hold_counter = zero;
        self.key_level = zero;
    }
}

/// What nothing and one are worth.
proof fn lemma_levels()
    ensures
        bits::zero().worth() == 0,
        0 < bits::one().worth(),
        bits::zero().is_within(bits::zero(), bits::one()),
{
    power2::lemma2_to64();
    assert(power2::pow2(23) == 0x80_0000);
    assert(bits::zero().worth() == 0);
    bits::law_rank_is_the_order(bits::zero(), bits::one());
}

/// The depth is never less than nothing nor more than everything.
pub proof fn law_the_depth_has_bounds(d: SidechainDetector, sample: Bits32, next: NextLevels)
    ensures
        ({
            let depth = d.after(sample, next).envelope;
            depth.is_nan() || depth.is_within(bits::zero(), bits::one())
        }),
{
    lemma_levels();
}

/// The meter rises at once: after a key that is louder than what it shows, it
/// shows the level of that key.
pub proof fn law_the_meter_rises_at_once(d: SidechainDetector, sample: Bits32, next: NextLevels)
    requires
        d.key_level.is_below(sample.absolute()),
    ensures
        d.after(sample, next).key_level == sample.absolute(),
{
}

/// The shares of the way that the depth goes in one sample, and of itself that the
/// meter keeps.
pub struct Shares {
    pub attack: Bits32,
    pub release: Bits32,
    pub kept: Bits32,
}

/// The next levels are worked out from the detector with shares from 0 to 1, every
/// operation rounded.
pub open spec fn worked_out(d: SidechainDetector, shares: Shares, next: NextLevels) -> bool {
    &&& rounding::is_share(shares.attack)
    &&& rounding::is_share(shares.release)
    &&& rounding::is_share(shares.kept)
    &&& rounding::is_step(d.envelope, shares.attack, bits::one(), next.risen)
    &&& rounding::is_step(d.envelope, shares.release, bits::zero(), next.fallen)
    &&& rounding::is_nearest(
        next.key_fallen,
        bits::value(d.key_level) * bits::value(shares.kept),
    )
}

impl SidechainDetector {
    /// The depth is from 0 to 1, and the meter shows a number from 0 up.
    pub open spec fn in_range(self) -> bool {
        &&& self.envelope.is_within(bits::zero(), bits::one())
        &&& self.key_level.is_finite()
        &&& bits::zero().worth() <= self.key_level.worth()
    }
}

/// The depth stays from 0 to 1, and the meter from 0 up.
pub proof fn law_the_levels_stay_in_range(
    d: SidechainDetector,
    sample: Bits32,
    shares: Shares,
    next: NextLevels,
)
    requires
        d.in_range(),
        sample.is_finite(),
        worked_out(d, shares, next),
    ensures
        d.after(sample, next).in_range(),
{
    lemma_levels();
    rounding::law_a_step_stays_in_range(d.envelope, shares.attack, bits::one(), next.risen);
    rounding::law_a_step_stays_in_range(d.envelope, shares.release, bits::zero(), next.fallen);
    rounding::law_a_share_is_no_more(d.key_level, shares.kept, next.key_fallen);
    bits::law_rank_is_the_order(bits::zero(), sample.absolute());
}

/// It ducks only once the key is over the threshold: a detector that has not
/// ducked and whose hold does not run has not ducked after a key that does not
/// pass the threshold.
pub proof fn law_a_quiet_key_does_not_duck(
    d: SidechainDetector,
    sample: Bits32,
    shares: Shares,
    next: NextLevels,
)
    requires
        d.in_range(),
        worked_out(d, shares, next),
        !d.threshold_lin.is_below(sample.absolute()),
        d.envelope.worth() == 0,
        !bits::zero().is_below(d.hold_counter),
    ensures
        d.after(sample, next).envelope.worth() == 0,
        d.after(sample, next).hold_counter == d.hold_counter,
{
    lemma_levels();
    rounding::law_a_step_to_nothing_never_rises(d.envelope, shares.release, next.fallen);
}

/// It rises only once the key is over the threshold: the depth after a key that
/// does not pass the threshold is no more than before.
pub proof fn law_the_depth_rises_only_over_the_threshold(
    d: SidechainDetector,
    sample: Bits32,
    shares: Shares,
    next: NextLevels,
)
    requires
        d.in_range(),
        worked_out(d, shares, next),
        !d.threshold_lin.is_below(sample.absolute()),
    ensures
        !d.envelope.is_below(d.after(sample, next).envelope),
{
    lemma_levels();
    rounding::law_a_step_to_nothing_never_rises(d.envelope, shares.release, next.fallen);
}

/// The meter falls by its share after a key that is no louder than what it shows,
/// and never rises then.
pub proof fn law_the_meter_falls_after_a_quiet_key(
    d: SidechainDetector,
    sample: Bits32,
    shares: Shares,
    next: NextLevels,
)
    requires
        d.in_range(),
        worked_out(d, shares, next),
        !d.key_level.is_below(sample.absolute()),
    ensures
        rounding::is_nearest(
            d.after(sample, next).key_level,
            bits::value(d.key_level) * bits::value(shares.kept),
        ),
        !d.key_level.is_below(d.after(sample, next).key_level),
{
    rounding::law_a_share_is_no_more(d.key_level, shares.kept, next.key_fallen);
}

/// What a meter shows after some quiet samples, in exact numbers.
pub open spec fn faded(level: real, kept: real, samples: nat) -> real
    decreases samples,
{
    if samples == 0 {
        level
    } else {
        faded(level, kept, (samples - 1) as nat) * kept
    }
}

/// The meter falls by 20 dB in a second, which is to a tenth, where its share is
/// such that a meter at one does so, from wherever it stands, in exact numbers.
pub proof fn law_the_meter_falls_to_a_tenth(level: real, kept: real, rate: nat)
    requires
        faded(1 as real, kept, rate) == 1 as real / 10 as real,
    ensures
        faded(level, kept, rate) == level / 10 as real,
{
    lemma_faded(level, kept, rate);
    let one = faded(1 as real, kept, rate);
    assert(level * one == level / 10 as real) by (nonlinear_arith)
        requires
            one == 1 as real / 10 as real,
    ;
}

proof fn lemma_faded(level: real, kept: real, samples: nat)
    ensures
        faded(level, kept, samples) == level * faded(1 as real, kept, samples),
    decreases samples,
{
    if samples > 0 {
        lemma_faded(level, kept, (samples - 1) as nat);
        let f = faded(1 as real, kept, (samples - 1) as nat);
        assert((level * f) * kept == level * (f * kept)) by (nonlinear_arith);
    } else {
        assert(level * (1 as real) == level) by (nonlinear_arith);
    }
}

/// One call of the detector.
pub enum Call {
    Process { sample: Bits32, shares: Shares, next: NextLevels },
    Params { threshold_lin: Bits32, hold_samples: Bits32 },
    Reset,
}

/// The detector after a call.
pub open spec fn called(d: SidechainDetector, call: Call) -> SidechainDetector {
    match call {
        Call::Process { sample, shares, next } => d.after(sample, next),
        Call::Params { threshold_lin, hold_samples } => SidechainDetector {
            threshold_lin,
            hold_samples,
            ..d
        },
        Call::Reset => SidechainDetector {
            envelope: bits::zero(),
            hold_counter: bits::zero(),
            key_level: bits::zero(),
            ..d
        },
    }
}

/// The detector after some calls.
pub open spec fn called_all(d: SidechainDetector, calls: Seq<Call>) -> SidechainDetector
    decreases calls.len(),
{
    if calls.len() == 0 {
        d
    } else {
        called(called_all(d, calls.drop_last()), calls.last())
    }
}

/// Each sample is finite, with next levels that are worked out.
pub open spec fn is_played(d: SidechainDetector, calls: Seq<Call>) -> bool
    decreases calls.len(),
{
    calls.len() == 0 || {
        &&& is_played(d, calls.drop_last())
        &&& match calls.last() {
            Call::Process { sample, shares, next } => sample.is_finite() && worked_out(
                called_all(d, calls.drop_last()),
                shares,
                next,
            ),
            _ => true,
        }
    }
}

/// Whatever is called, and however often, the depth stays from 0 to 1 and the
/// meter shows a number from 0 up.
pub proof fn law_a_detector_stays_in_range(d: SidechainDetector, calls: Seq<Call>)
    requires
        d.in_range(),
        is_played(d, calls),
    ensures
        called_all(d, calls).in_range(),
    decreases calls.len(),
{
    if calls.len() > 0 {
        lemma_levels();
        law_a_detector_stays_in_range(d, calls.drop_last());
        match calls.last() {
            Call::Process { sample, shares, next } => {
                law_the_levels_stay_in_range(
                    called_all(d, calls.drop_last()),
                    sample,
                    shares,
                    next,
                );
            },
            _ => {},
        }
    }
}

/// A key over the threshold ducks, at any level: the depth goes a step of the attack
/// towards one, never back, and the hold starts anew.
pub proof fn law_a_loud_key_ducks(
    d: SidechainDetector,
    sample: Bits32,
    shares: Shares,
    next: NextLevels,
)
    requires
        d.in_range(),
        sample.is_finite(),
        worked_out(d, shares, next),
        !d.threshold_lin.is_nan(),
        bits::value(d.threshold_lin) < bits::value(sample) || bits::value(d.threshold_lin)
            < -bits::value(sample),
    ensures
        ({
            let after = d.after(sample, next);
            &&& after.envelope == next.risen
            &&& rounding::is_step(d.envelope, shares.attack, bits::one(), after.envelope)
            &&& bits::value(after.envelope) >= bits::value(d.envelope)
            &&& after.hold_counter == d.hold_samples
        }),
{
    lemma_levels();
    bits::lemma_values();
    bits::law_a_size_has_no_sign(sample);
    bits::law_below_is_less(d.threshold_lin, sample.absolute());
    rounding::law_a_step_to_one_never_falls(d.envelope, shares.attack, next.risen);
    bits::law_values_are_in_order(next.risen, d.envelope);
}

/// After a loud key the depth is held as long as the hold runs: it stays where it
/// is, and the hold counts down.
pub proof fn law_the_hold_keeps_the_depth(
    d: SidechainDetector,
    sample: Bits32,
    next: NextLevels,
)
    requires
        d.in_range(),
        sample.is_finite(),
        !d.threshold_lin.is_nan(),
        bits::value(sample) <= bits::value(d.threshold_lin),
        -bits::value(sample) <= bits::value(d.threshold_lin),
        !d.hold_counter.is_nan(),
        bits::value(d.hold_counter) > 0 as real,
    ensures
        d.after(sample, next).envelope == d.envelope,
        d.after(sample, next).hold_counter == next.counted,
{
    lemma_levels();
    bits::lemma_values();
    bits::law_a_size_has_no_sign(sample);
    bits::law_below_is_less(d.threshold_lin, sample.absolute());
    bits::law_below_is_less(bits::zero(), d.hold_counter);
}

/// Once the hold has run out, a key that does not pass the threshold lets the depth
/// go a step of the release towards nothing.
pub proof fn law_the_depth_is_released_after_the_hold(
    d: SidechainDetector,
    sample: Bits32,
    shares: Shares,
    next: NextLevels,
)
    requires
        d.in_range(),
        sample.is_finite(),
        worked_out(d, shares, next),
        !d.threshold_lin.is_nan(),
        bits::value(sample) <= bits::value(d.threshold_lin),
        -bits::value(sample) <= bits::value(d.threshold_lin),
        !d.hold_counter.is_nan(),
        bits::value(d.hold_counter) <= 0 as real,
    ensures
        ({
            let after = d.after(sample, next);
            &&& after.envelope == next.fallen
            &&& rounding::is_step(d.envelope, shares.release, bits::zero(), after.envelope)
            &&& bits::value(after.envelope) <= bits::value(d.envelope)
            &&& after.hold_counter == d.hold_counter
        }),
{
    lemma_levels();
    bits::lemma_values();
    bits::law_a_size_has_no_sign(sample);
    bits::law_below_is_less(d.threshold_lin, sample.absolute());
    bits::law_below_is_less(bits::zero(), d.hold_counter);
    rounding::law_a_step_to_nothing_never_rises(d.envelope, shares.release, next.fallen);
    bits::law_values_are_in_order(d.envelope, next.fallen);
}

/// The meter shows the size of a louder sample at once, and falls by its share
/// otherwise; the threshold and the hold are changed by no sample.
pub proof fn law_the_meter_follows_the_key(
    d: SidechainDetector,
    sample: Bits32,
    next: NextLevels,
)
    requires
        d.in_range(),
        sample.is_finite(),
    ensures
        ({
            let after = d.after(sample, next);
            let size = if bits::value(sample) < 0 as real {
                -bits::value(sample)
            } else {
                bits::value(sample)
            };
            &&& size > bits::value(d.key_level) ==> bits::value(after.key_level) == size
            &&& size <= bits::value(d.key_level) ==> after.key_level == next.key_fallen
            &&& after.threshold_lin == d.threshold_lin
            &&& after.hold_samples == d.hold_samples
        }),
{
    bits::law_a_size_has_no_sign(sample);
    bits::law_below_is_less(d.key_level, sample.absolute());
}

}
