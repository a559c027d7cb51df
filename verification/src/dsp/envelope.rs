//! An envelope with attack, decay, sustain and release.
//!
//! When the signal passes a threshold it rises, falls to the sustain level and
//! stays there; when the signal drops under it again it dies away. What the
//! level becomes one step on is worked out by the caller and handed in.

use vstd::arithmetic::power2;
use vstd::prelude::*;

use crate::bits;
use crate::bits::Bits32;
use crate::rounding;

verus! {

/// Where the envelope stands.
#[derive(Clone, Copy, Debug, PartialEq, Eq, Structural)]
pub enum Stage {
    Idle,
    Attack,
    Decay,
    Sustain,
    Release,
}

/// What the level is one step on.
#[derive(Clone, Copy, Debug, PartialEq, Eq, Structural)]
pub struct NextLevel {
    /// Risen by one step of the attack.
    pub risen: Bits32,
    /// Moved towards the sustain level by one step of the decay.
    pub decayed: Bits32,
    /// How far that is from the sustain level.
    pub gap: Bits32,
    /// Fallen by one step of the release.
    pub released: Bits32,
}

/// An envelope. The times are in milliseconds.
#[derive(Clone, Copy, Debug, PartialEq, Eq, Structural)]
pub struct AdsrEnvelope {
    pub stage: Stage,
    pub level: Bits32,
    pub attack_ms: Bits32,
    pub decay_ms: Bits32,
    pub sustain_level: Bits32,
    pub release_ms: Bits32,
}

/// The threshold: 0.001, which is about -60 dB. What is this near counts as
/// arrived.
pub open spec fn threshold() -> Bits32 {
    Bits32 { bits: 0x3a83_126f }
}

/// 0.999: as good as one.
pub open spec fn as_good_as_one() -> Bits32 {
    Bits32 { bits: 0x3f7f_be77 }
}

/// The shortest time, 0.1 milliseconds.
pub open spec fn shortest_ms() -> Bits32 {
    Bits32 { bits: 0x3dcc_cccd }
}

/// `a >= b`, which nothing that is not a number takes part in.
pub open spec fn at_least(a: Bits32, b: Bits32) -> bool {
    !a.is_nan() && !b.is_nan() && !a.is_below(b)
}

impl AdsrEnvelope {
    /// Where the envelope stands, and how high, one sample on.
    pub open spec fn after(self, input_abs: Bits32, next: NextLevel) -> (Stage, Bits32) {
        let open = threshold().is_below(input_abs);
        match self.stage {
            Stage::Idle => if open {
                (Stage::Attack, self.level)
            } else {
                (Stage::Idle, self.level)
            },
            Stage::Attack => if !open {
                (Stage::Release, self.level)
            } else if at_least(next.risen, as_good_as_one()) {
                (Stage::Decay, bits::one())
            } else {
                (Stage::Attack, next.risen)
            },
            Stage::Decay => if !open {
                (Stage::Release, self.level)
            } else if next.gap.is_below(threshold()) {
                (Stage::Sustain, self.sustain_level)
            } else {
                (Stage::Decay, next.decayed)
            },
            Stage::Sustain => if !open {
                (Stage::Release, self.sustain_level)
            } else {
                (Stage::Sustain, self.sustain_level)
            },
            Stage::Release => if open {
                (Stage::Attack, self.level)
            } else if next.released.is_below(threshold()) {
                (Stage::Idle, bits::zero())
            } else {
                (Stage::Release, next.released)
            },
        }
    }

    /// An idle envelope stands at nothing.
    pub open spec fn wf(self) -> bool {
        self.stage == Stage::Idle ==> self.level == bits::zero()
    }

    /// An idle envelope: 10, 100 and 200 milliseconds, and a sustain level of
    /// 0.7.
    pub fn new() -> (r: AdsrEnvelope)
        ensures
            r.in_range(),
            r == (AdsrEnvelope {
                stage: Stage::Idle,
                level: bits::zero(),
                attack_ms: Bits32 { bits: 0x4120_0000 },
                decay_ms: Bits32 { bits: 0x42c8_0000 },
                sustain_level: Bits32 { bits: 0x3f33_3333 },
                release_ms: Bits32 { bits: 0x4348_0000 },
            }),
    {
        proof {
            lemma_marks();
            let sustain = Bits32 { bits: 0x3f33_3333 };
            bits::law_rank_is_the_order(bits::zero(), sustain);
            bits::law_rank_is_the_order(bits::one(), sustain);
        }
        AdsrEnvelope {
            stage: Stage::Idle,
            level: Bits32 { bits: 0 },
            attack_ms: Bits32 { bits: 0x4120_0000 },
            decay_ms: Bits32 { bits: 0x42c8_0000 },
            sustain_level: Bits32 { bits: 0x3f33_3333 },
            release_ms: Bits32 { bits: 0x4348_0000 },
        }
    }

    /// Set the time of the attack.
    pub fn set_attack(&mut self, ms: Bits32)
        ensures
            *final(self) == called(*old(self), Call::Attack(ms)),
            *final(self) == (AdsrEnvelope { attack_ms: ms.larger(shortest_ms()), ..*old(self) }),
    {
        self.attack_ms = ms.max(Bits32 { bits: 0x3dcc_cccd });
    }

    /// Set the time of the decay.
    pub fn set_decay(&mut self, ms: Bits32)
        ensures
            *final(self) == called(*old(self), Call::Decay(ms)),
            *final(self) == (AdsrEnvelope { decay_ms: ms.larger(shortest_ms()), ..*old(self) }),
    {
        self.decay_ms = ms.max(Bits32 { bits: 0x3dcc_cccd });
    }

    /// Set the sustain level, from 0 to 1.
    pub fn set_sustain(&mut self, level: Bits32)
        ensures
            *final(self) == called(*old(self), Call::Sustain(level)),
            *final(self) == (AdsrEnvelope {
                sustain_level: level.clamped(bits::zero(), bits::one()),
                ..*old(self)
            }),
    {
        self.sustain_level = level.clamp(Bits32 { bits: 0 }, Bits32 { bits: 0x3f80_0000 });
    }

    /// Set the time of the release.
    pub fn set_release(&mut self, ms: Bits32)
        ensures
            *final(self) == called(*old(self), Call::Release(ms)),
            *final(self) == (AdsrEnvelope { release_ms: ms.larger(shortest_ms()), ..*old(self) }),
    {
        self.release_ms = ms.max(Bits32 { bits: 0x3dcc_cccd });
    }

    /// Go back to idle.
    pub fn reset(&mut self)
        ensures
            *final(self) == called(*old(self), Call::Reset),
            final(self).wf(),
            *final(self) == (AdsrEnvelope { stage: Stage::Idle, level: bits::zero(), ..*old(self) }),
    {
        self.stage = Stage::Idle;
        self.level = Bits32 { bits: 0 };
    }

    /// Take the size of one sample. The result is the level, from 0 to 1, that
    /// the signal is multiplied by.
    pub fn process(&mut self, input_abs: Bits32, next: &NextLevel) -> (level: Bits32)
        ensures
            *final(self) == (AdsrEnvelope {
                stage: old(self).after(input_abs, *next).0,
                level: old(self).after(input_abs, *next).1,
                ..*old(self)
            }),
            level == final(self).level,
            old(self).wf() ==> final(self).wf(),
    {
        let small = Bits32 { bits: 0x3a83_126f };
        let open = small.below(input_abs);
        match self.stage {
            Stage::Idle => {
                if open {
                    self.stage = Stage::Attack;
                }
            },
            Stage::Attack => {
                if !open {
                    self.stage = Stage::Release;
                } else {
                    self.level = next.risen;
                    let top = Bits32 { bits: 0x3f7f_be77 };
                    if !self.level.nan() && !self.level.below(top) {
                        self.level = Bits32 { bits: 0x3f80_0000 };
                        self.stage = Stage::Decay;
                    }
                }
            },
            Stage::Decay => {
                if !open {
                    self.stage = Stage::Release;
                } else {
                    self.level = next.decayed;
                    if next.gap.below(small) {
                        self.level = self.sustain_level;
                        self.stage = Stage::Sustain;
                    }
                }
            },
            Stage::Sustain => {
                if !open {
                    self.stage = Stage::Release;
                }
                self.level = self.sustain_level;
            },
            Stage::Release => {
                if open {
                    self.stage = Stage::Attack;
                } else {
                    self.level = next.released;
                    if self.level.below(small) {
                        self.level = Bits32 { bits: 0 };
                        self.stage = Stage::Idle;
                    }
                }
            },
        }
        self.level
    }
}

/// A signal under the threshold leaves the envelope released or idle, whatever
/// stage it was in.
pub proof fn law_a_quiet_signal_releases(env: AdsrEnvelope, input_abs: Bits32, next: NextLevel)
    requires
        !threshold().is_below(input_abs),
    ensures
        ({
            let stage = env.after(input_abs, next).0;
            stage == Stage::Release || stage == Stage::Idle
        }),
{
}

/// A signal over the threshold never leaves the envelope idle or released.
pub proof fn law_a_loud_signal_sounds(env: AdsrEnvelope, input_abs: Bits32, next: NextLevel)
    requires
        threshold().is_below(input_abs),
    ensures
        ({
            let stage = env.after(input_abs, next).0;
            stage == Stage::Attack || stage == Stage::Decay || stage == Stage::Sustain
        }),
{
}

/// From 0 to 1.
pub open spec fn is_level(x: Bits32) -> bool {
    x.is_within(bits::zero(), bits::one())
}

/// What zero, one and the threshold are worth, in order.
proof fn lemma_marks()
    ensures
        is_level(bits::zero()),
        is_level(bits::one()),
        bits::zero().worth() < threshold().worth(),
        bits::zero().worth() == 0,
{
    bits::lemma_values();
    bits::law_values_are_in_order(bits::zero(), bits::one());
    bits::law_rank_is_the_order(bits::zero(), threshold());
    assert(bits::zero().rank() == 0 && threshold().rank() > 0);
}

/// The shares of the way that the level goes in one sample.
pub struct Shares {
    pub attack: Bits32,
    pub decay: Bits32,
    pub release: Bits32,
}

/// The next levels are worked out from the envelope with shares from 0 to 1, every
/// operation rounded.
pub open spec fn worked_out(env: AdsrEnvelope, shares: Shares, next: NextLevel) -> bool {
    &&& rounding::is_share(shares.attack)
    &&& rounding::is_share(shares.decay)
    &&& rounding::is_share(shares.release)
    &&& rounding::is_step(env.level, shares.attack, bits::one(), next.risen)
    &&& rounding::is_step(env.level, shares.decay, env.sustain_level, next.decayed)
    &&& rounding::is_step(env.level, shares.release, bits::zero(), next.released)
}

impl AdsrEnvelope {
    /// Its levels are from 0 to 1.
    pub open spec fn in_range(self) -> bool {
        self.wf() && is_level(self.level) && is_level(self.sustain_level)
    }
}

/// The level stays from 0 to 1.
pub proof fn law_the_level_stays_in_range(
    env: AdsrEnvelope,
    input_abs: Bits32,
    shares: Shares,
    next: NextLevel,
)
    requires
        env.in_range(),
        worked_out(env, shares, next),
    ensures
        is_level(env.after(input_abs, next).1),
{
    lemma_marks();
    rounding::law_a_step_stays_in_range(env.level, shares.attack, bits::one(), next.risen);
    rounding::law_a_step_stays_in_range(
        env.level,
        shares.decay,
        env.sustain_level,
        next.decayed,
    );
    rounding::law_a_step_stays_in_range(env.level, shares.release, bits::zero(), next.released);
}

/// A signal under the threshold never raises the level, where the sustain level
/// was not changed while it was held.
pub proof fn law_a_quiet_signal_never_raises_the_level(
    env: AdsrEnvelope,
    input_abs: Bits32,
    shares: Shares,
    next: NextLevel,
)
    requires
        env.in_range(),
        worked_out(env, shares, next),
        !threshold().is_below(input_abs),
        env.stage == Stage::Sustain ==> env.sustain_level == env.level,
    ensures
        !env.level.is_below(env.after(input_abs, next).1),
{
    lemma_marks();
    rounding::law_a_step_to_nothing_never_rises(env.level, shares.release, next.released);
}

/// One call of the envelope.
pub enum Call {
    Process { input_abs: Bits32, shares: Shares, next: NextLevel },
    Attack(Bits32),
    Decay(Bits32),
    Sustain(Bits32),
    Release(Bits32),
    Reset,
}

/// The envelope after a call.
pub open spec fn called(env: AdsrEnvelope, call: Call) -> AdsrEnvelope {
    match call {
        Call::Process { input_abs, shares, next } => {
            let (stage, level) = env.after(input_abs, next);
            AdsrEnvelope { stage, level, ..env }
        },
        Call::Attack(ms) => AdsrEnvelope { attack_ms: ms.larger(shortest_ms()), ..env },
        Call::Decay(ms) => AdsrEnvelope { decay_ms: ms.larger(shortest_ms()), ..env },
        Call::Sustain(level) => AdsrEnvelope {
            sustain_level: level.clamped(bits::zero(), bits::one()),
            ..env
        },
        Call::Release(ms) => AdsrEnvelope { release_ms: ms.larger(shortest_ms()), ..env },
        Call::Reset => AdsrEnvelope { stage: Stage::Idle, level: bits::zero(), ..env },
    }
}

/// The envelope after some calls.
pub open spec fn called_all(env: AdsrEnvelope, calls: Seq<Call>) -> AdsrEnvelope
    decreases calls.len(),
{
    if calls.len() == 0 {
        env
    } else {
        called(called_all(env, calls.drop_last()), calls.last())
    }
}

/// Each call is given numbers, and next levels that are worked out.
pub open spec fn is_played(env: AdsrEnvelope, calls: Seq<Call>) -> bool
    decreases calls.len(),
{
    calls.len() == 0 || {
        &&& is_played(env, calls.drop_last())
        &&& match calls.last() {
            Call::Process { input_abs, shares, next } => worked_out(
                called_all(env, calls.drop_last()),
                shares,
                next,
            ),
            Call::Sustain(level) => !level.is_nan(),
            _ => true,
        }
    }
}

/// Whatever is called, and however often, the level stays from 0 to 1.
pub proof fn law_an_envelope_stays_in_range(env: AdsrEnvelope, calls: Seq<Call>)
    requires
        env.in_range(),
        is_played(env, calls),
    ensures
        called_all(env, calls).in_range(),
    decreases calls.len(),
{
    if calls.len() > 0 {
        lemma_marks();
        law_an_envelope_stays_in_range(env, calls.drop_last());
        let e = called_all(env, calls.drop_last());
        match calls.last() {
            Call::Process { input_abs, shares, next } => {
                law_the_level_stays_in_range(e, input_abs, shares, next);
            },
            _ => {},
        }
    }
}

/// A signal that passes the threshold again does not make the level jump: from
/// idle and from the release it goes on from where it was.
pub proof fn law_the_level_does_not_jump(env: AdsrEnvelope, input_abs: Bits32, next: NextLevel)
    requires
        threshold().is_below(input_abs),
        env.stage == Stage::Idle || env.stage == Stage::Release,
    ensures
        env.after(input_abs, next) == (Stage::Attack, env.level),
{
}

/// One sample, with what the level would be one step on.
pub struct Step {
    pub input_abs: Bits32,
    pub shares: Shares,
    pub next: NextLevel,
}

/// The envelope after some samples.
pub open spec fn after_all(env: AdsrEnvelope, steps: Seq<Step>) -> AdsrEnvelope
    decreases steps.len(),
{
    if steps.len() == 0 {
        env
    } else {
        let e = after_all(env, steps.drop_last());
        let (stage, level) = e.after(steps.last().input_abs, steps.last().next);
        AdsrEnvelope { stage, level, ..e }
    }
}

/// Every sample is under the threshold.
pub open spec fn all_quiet(steps: Seq<Step>) -> bool {
    forall|i: int|
        0 <= i < steps.len() ==> !threshold().is_below((#[trigger] steps[i]).input_abs)
}

/// An idle envelope stays idle, at nothing, until the signal passes the
/// threshold.
pub proof fn law_an_idle_envelope_stays_silent(env: AdsrEnvelope, steps: Seq<Step>)
    requires
        env.wf(),
        env.stage == Stage::Idle,
        all_quiet(steps),
    ensures
        after_all(env, steps).stage == Stage::Idle,
        after_all(env, steps).level == bits::zero(),
    decreases steps.len(),
{
    if steps.len() > 0 {
        let less = steps.drop_last();
        assert(all_quiet(less)) by {
            assert forall|i: int| 0 <= i < less.len() implies !threshold().is_below(
                (#[trigger] less[i]).input_abs,
            ) by {
                assert(less[i] == steps[i]);
            }
        }
        law_an_idle_envelope_stays_silent(env, less);
        assert(!threshold().is_below(steps[steps.len() - 1].input_abs));
    }
}

/// Every step is worked out, with a release that shows.
pub open spec fn all_worked_out(env: AdsrEnvelope, steps: Seq<Step>) -> bool {
    forall|i: int|
        #![trigger steps[i]]
        0 <= i < steps.len() ==> worked_out(
            after_all(env, steps.take(i)),
            steps[i].shares,
            steps[i].next,
        ) && rounding::least_share().worth() <= steps[i].shares.release.worth()
}

/// Every step of the release lowers the level, or leads under the threshold.
spec fn falls(env: AdsrEnvelope, steps: Seq<Step>) -> bool {
    forall|i: int|
        #![trigger steps[i]]
        0 <= i < steps.len() && after_all(env, steps.take(i)).stage == Stage::Release ==> {
            let released = steps[i].next.released;
            released.is_below(after_all(env, steps.take(i)).level) || released.is_below(threshold())
        }
}

/// One sample on, the levels are from 0 to 1.
proof fn lemma_one_step_in_range(e: AdsrEnvelope, s: Step)
    requires
        e.in_range(),
        worked_out(e, s.shares, s.next),
    ensures
        ({
            let (stage, level) = e.after(s.input_abs, s.next);
            (AdsrEnvelope { stage, level, ..e }).in_range()
        }),
{
    lemma_marks();
    law_the_level_stays_in_range(e, s.input_abs, s.shares, s.next);
}

/// The levels on the way are from 0 to 1.
#[verifier::spinoff_prover]
proof fn lemma_in_range(env: AdsrEnvelope, steps: Seq<Step>, n: int)
    requires
        env.in_range(),
        all_worked_out(env, steps),
        0 <= n <= steps.len(),
    ensures
        after_all(env, steps.take(n)).in_range(),
    decreases n,
{
    if n > 0 {
        lemma_in_range(env, steps, n - 1);
        let s = steps[n - 1];
        let less = steps.take(n - 1);
        let more = steps.take(n);
        assert(more.drop_last() =~= less);
        assert(more.last() == s);
        let e = after_all(env, less);
        assert(worked_out(e, s.shares, s.next));
        lemma_one_step_in_range(e, s);
    } else {
        assert(steps.take(0).len() == 0);
    }
}

proof fn lemma_falls(env: AdsrEnvelope, steps: Seq<Step>)
    requires
        env.in_range(),
        all_worked_out(env, steps),
    ensures
        falls(env, steps),
{
    assert forall|i: int|
        #![trigger steps[i]]
        0 <= i < steps.len() && after_all(env, steps.take(i)).stage == Stage::Release implies ({
        let released = steps[i].next.released;
        released.is_below(after_all(env, steps.take(i)).level) || released.is_below(threshold())
    }) by {
        let e = after_all(env, steps.take(i));
        let s = steps[i];
        lemma_marks();
        lemma_in_range(env, steps, i);
        rounding::law_a_step_to_nothing_never_rises(e.level, s.shares.release, s.next.released);
        if rounding::least_level().worth() <= e.level.worth() {
            rounding::law_a_step_to_nothing_falls(e.level, s.shares.release, s.next.released);
        } else {
            bits::law_rank_is_the_order(rounding::least_level(), threshold());
        }
    }
}

/// A signal that stays under the threshold dies away: the level reaches nothing,
/// exactly, and the envelope is idle, after no more samples than there are
/// numbers from nothing up to the level, and two. Every release shorter than forty
/// seconds shows, at any sample rate up to 192 kHz.
pub proof fn law_a_quiet_signal_dies_away(env: AdsrEnvelope, steps: Seq<Step>)
    requires
        env.in_range(),
        env.stage == Stage::Sustain ==> env.sustain_level == env.level,
        all_quiet(steps),
        all_worked_out(env, steps),
        steps.len() >= env.level.rank() + 2,
    ensures
        after_all(env, steps).stage == Stage::Idle,
        after_all(env, steps).level == bits::zero(),
{
    lemma_marks();
    lemma_falls(env, steps);
    bits::law_rank_is_the_order(bits::zero(), env.level);
    bits::law_rank_is_the_order(bits::zero(), threshold());
    lemma_dying(env, steps);
    bits::law_rank_is_the_order(after_all(env, steps).level, threshold());
}

/// Where an envelope stands on its way down.
proof fn lemma_dying(env: AdsrEnvelope, steps: Seq<Step>)
    requires
        env.wf(),
        is_level(env.level),
        env.stage == Stage::Sustain ==> env.sustain_level == env.level,
        all_quiet(steps),
        falls(env, steps),
        steps.len() >= 1,
    ensures
        ({
            let e = after_all(env, steps);
            ||| e.stage == Stage::Idle && e.level == bits::zero()
            ||| {
                &&& e.stage == Stage::Release
                &&& !e.level.is_nan()
                &&& e.level.rank() <= env.level.rank() - (steps.len() - 1)
                &&& steps.len() >= 2 ==> !e.level.is_below(threshold())
            }
        }),
    decreases steps.len(),
{
    lemma_marks();
    let less = steps.drop_last();
    let last = steps[steps.len() - 1];
    assert(!threshold().is_below(last.input_abs));
    if steps.len() == 1 {
        assert(less =~= Seq::empty());
        assert(after_all(env, less) == env);
        assert(steps.take(0) =~= less);
        if env.stage == Stage::Release {
            bits::law_rank_is_the_order(last.next.released, env.level);
            bits::law_rank_is_the_order(last.next.released, threshold());
        }
    } else {
        assert forall|i: int| 0 <= i < less.len() implies !threshold().is_below(
            (#[trigger] less[i]).input_abs,
        ) by {
            assert(less[i] == steps[i]);
        }
        assert forall|i: int|
            #![trigger less[i]]
            0 <= i < less.len() && after_all(env, less.take(i)).stage == Stage::Release implies ({
            let released = less[i].next.released;
            released.is_below(after_all(env, less.take(i)).level) || released.is_below(threshold())
        }) by {
            assert(less.take(i) =~= steps.take(i));
            assert(less[i] == steps[i]);
        }
        lemma_dying(env, less);
        assert(steps.take(steps.len() - 1) =~= less);
        bits::law_rank_is_the_order(last.next.released, after_all(env, less).level);
    }
}

/// The threshold stands for 0.001, and what is as good as one for 0.999.
proof fn lemma_threshold_values()
    ensures
        bits::stands_for(threshold(), 1, 1000),
        bits::stands_for(as_good_as_one(), 999, 1000),
{
    power2::lemma2_to64();
    power2::lemma2_to64_rest();
    bits::lemma_stands_for(threshold(), 117, 0x03_126f, 1, 1000);
    bits::lemma_stands_for(as_good_as_one(), 126, 0x7f_be77, 999, 1000);
}

/// While the signal is over the threshold, 0.001, the envelope goes its way: from
/// idle and from the release into the attack where it stands, in the attack a step
/// towards one until 0.999 and then one and the decay, in the decay a step towards
/// the sustain level until less than 0.001 is missing and then the sustain, which
/// holds that level.
pub proof fn law_an_open_envelope_goes_its_way(
    env: AdsrEnvelope,
    input_abs: Bits32,
    next: NextLevel,
)
    requires
        !input_abs.is_nan(),
        bits::value(input_abs) > bits::value(threshold()),
        !next.risen.is_nan(),
        !next.gap.is_nan(),
    ensures
        bits::stands_for(threshold(), 1, 1000),
        bits::stands_for(as_good_as_one(), 999, 1000),
        ({
            let (stage, level) = env.after(input_abs, next);
            match env.stage {
                Stage::Idle => stage == Stage::Attack && level == env.level,
                Stage::Release => stage == Stage::Attack && level == env.level,
                Stage::Attack => if bits::value(next.risen) >= bits::value(as_good_as_one()) {
                    stage == Stage::Decay && bits::value(level) == 1 as real
                } else {
                    stage == Stage::Attack && level == next.risen
                },
                Stage::Decay => if bits::value(next.gap) < bits::value(threshold()) {
                    stage == Stage::Sustain && level == env.sustain_level
                } else {
                    stage == Stage::Decay && level == next.decayed
                },
                Stage::Sustain => stage == Stage::Sustain && level == env.sustain_level,
            }
        }),
{
    lemma_threshold_values();
    bits::lemma_values();
    bits::law_below_is_less(threshold(), input_abs);
    bits::law_below_is_less(next.risen, as_good_as_one());
    bits::law_below_is_less(next.gap, threshold());
}

/// While the signal is not over the threshold, an idle envelope stays where it is,
/// one that sounds is released from where it stands, and one that is released goes a
/// step towards nothing until it is under 0.001 and then is idle, at nothing.
pub proof fn law_a_shut_envelope_goes_its_way(
    env: AdsrEnvelope,
    input_abs: Bits32,
    next: NextLevel,
)
    requires
        !input_abs.is_nan(),
        bits::value(input_abs) <= bits::value(threshold()),
        !next.released.is_nan(),
    ensures
        ({
            let (stage, level) = env.after(input_abs, next);
            match env.stage {
                Stage::Idle => stage == Stage::Idle && level == env.level,
                Stage::Attack => stage == Stage::Release && level == env.level,
                Stage::Decay => stage == Stage::Release && level == env.level,
                Stage::Sustain => stage == Stage::Release && level == env.sustain_level,
                Stage::Release => if bits::value(next.released) < bits::value(threshold()) {
                    stage == Stage::Idle && level.bits == 0
                } else {
                    stage == Stage::Release && level == next.released
                },
            }
        }),
{
    bits::law_below_is_less(threshold(), input_abs);
    bits::law_below_is_less(next.released, threshold());
}

/// A time is what was asked for, and at least a tenth of a millisecond; a sustain
/// level is what was asked for, from 0 to 1.
pub proof fn law_a_setting_is_what_was_asked_for(env: AdsrEnvelope, x: Bits32)
    requires
        !x.is_nan(),
    ensures
        bits::stands_for(shortest_ms(), 1, 10),
        bits::value(x) >= bits::value(shortest_ms()) ==> called(env, Call::Attack(x)).attack_ms == x
            && called(env, Call::Decay(x)).decay_ms == x && called(env, Call::Release(x)).release_ms
            == x,
        bits::value(x) < bits::value(shortest_ms()) ==> called(env, Call::Attack(x)).attack_ms
            == shortest_ms() && called(env, Call::Decay(x)).decay_ms == shortest_ms() && called(
            env,
            Call::Release(x),
        ).release_ms == shortest_ms(),
        0 as real <= bits::value(x) <= 1 as real ==> called(env, Call::Sustain(x)).sustain_level
            == x,
        bits::value(x) < 0 as real ==> bits::value(called(env, Call::Sustain(x)).sustain_level)
            == 0 as real,
        bits::value(x) > 1 as real ==> bits::value(called(env, Call::Sustain(x)).sustain_level)
            == 1 as real,
{
    power2::lemma2_to64();
    bits::lemma_stands_for(shortest_ms(), 123, 0x4c_cccd, 1, 10);
    bits::lemma_values();
    bits::law_values_are_in_order(x, shortest_ms());
    bits::law_a_clamped_number_lies_between(x, bits::zero(), bits::one());
}

}
