//! The stereo delay: two lines of samples, where they are read, and what is fed
//! back into which of them.
//!
//! A ping-pong is one time bouncing between the speakers: it reads both lines at
//! the time of the left one and feeds each into the other. Without it the two
//! sides are independent.

use vstd::arithmetic::div_mod;
use vstd::arithmetic::power2;
use vstd::prelude::*;

use crate::bits;
use crate::bits::Bits32;
use crate::dsp::ring;
use crate::dsp::ring::Ring;

verus! {

/// How many samples a line holds: about four seconds at 88.2 kHz.
pub const MAX_DELAY_SAMPLES: usize = 352_800;

/// What the controls of the delay are set to. The times are in samples.
#[derive(Clone, Copy, Debug, PartialEq, Eq, Structural)]
pub struct DelaySettings {
    pub time_l: Bits32,
    pub time_r: Bits32,
    /// How much of what was read is written again, from 0 to 0.95.
    pub feedback: Bits32,
    pub ping_pong: bool,
    pub hp_freq: Bits32,
    pub lp_freq: Bits32,
    /// In Hertz, from 0.01 to 10.
    pub mod_rate: Bits32,
    /// From 0 to 100.
    pub mod_depth: Bits32,
    /// From 0 to 100.
    pub saturation: Bits32,
}

/// One sample: the shortest time.
pub open spec fn shortest() -> Bits32 {
    Bits32 { bits: 0x3f80_0000 }
}

/// One sample less than a line holds: the longest time.
pub open spec fn longest() -> Bits32 {
    Bits32 { bits: 0x48ac_43e0 }
}

/// A time that a line can be read at.
pub open spec fn playable(time: Bits32) -> Bits32 {
    time.clamped(shortest(), longest())
}

/// The time that a side is read at, before it is modulated.
pub open spec fn time_of(s: DelaySettings, right: bool) -> Bits32 {
    if right && !s.ping_pong {
        s.time_r
    } else {
        s.time_l
    }
}

/// Is it the right side that is fed back into this side?
pub open spec fn fed_from(s: DelaySettings, right: bool) -> bool {
    right != s.ping_pong
}

/// Where one line is read: between two samples that follow each other.
#[derive(Clone, Copy, Debug, PartialEq, Eq, Structural)]
pub struct Tap {
    /// The time, kept to what the line can be read at.
    pub time: Bits32,
    /// Its whole part, in samples.
    pub whole: u64,
    /// The sample that long ago.
    pub sample: Bits32,
    /// The sample before that one.
    pub before: Bits32,
}

/// The two samples of a line around a time. What is not a number counts as no
/// time at all, and no time ago is once round: the oldest sample.
pub open spec fn tap_of(history: Seq<Bits32>, time: Bits32) -> Tap {
    let t = playable(time);
    let n = t.truncated();
    Tap {
        time: t,
        whole: n as u64,
        sample: if n == 0 {
            history[0]
        } else {
            history[history.len() - n]
        },
        before: history[history.len() - n - 1],
    }
}

/// A delay with two lines.
#[derive(Clone, Debug)]
pub struct StereoDelay {
    settings: DelaySettings,
    left: Ring,
    right: Ring,
}

/// A time that is playable leaves a sample before it.
proof fn lemma_playable(time: Bits32)
    ensures
        playable(time).truncated() < MAX_DELAY_SAMPLES,
        !time.is_nan() ==> playable(time).truncated() >= 1,
{
    let t = playable(time);
    lemma_ends();
    if !t.is_nan() {
        bits::law_whole_parts_are_in_order(t, longest());
        bits::law_whole_parts_are_in_order(shortest(), t);
    }
}

/// The whole parts of the shortest and the longest time.
proof fn lemma_ends()
    ensures
        shortest().truncated() == 1,
        longest().truncated() == MAX_DELAY_SAMPLES - 1,
        shortest().worth() < longest().worth(),
{
    power2::lemma2_to64();
    bits::lemma_whole_of_parts(127, 0);
    bits::lemma_whole_of_parts(145, 0x2c_43e0);
    bits::lemma_worth_of_parts(127, 0);
    bits::lemma_worth_of_parts(145, 0x2c_43e0);
    bits::law_rank_is_the_order(shortest(), longest());
    assert(power2::pow2(23) == 0x80_0000 && power2::pow2(5) == 32);
    assert(0x80_0000nat / 0x80_0000nat == 1);
    assert(0xac_43e0nat / 32nat == 352_799);
    assert(shortest().magnitude() == 127 * 0x80_0000 + 0);
    assert(longest().magnitude() == 145 * 0x80_0000 + 0x2c_43e0);
}

impl StereoDelay {
    /// What the controls are set to.
    pub closed spec fn set_to(&self) -> DelaySettings {
        self.settings
    }

    /// What was written on the left, the oldest sample first.
    pub closed spec fn left(&self) -> Seq<Bits32> {
        self.left.history()
    }

    /// What was written on the right, the oldest sample first.
    pub closed spec fn right(&self) -> Seq<Bits32> {
        self.right.history()
    }

    /// Both lines are as long as the longest time asks for.
    pub closed spec fn wf(&self) -> bool {
        &&& self.left.wf()
        &&& self.right.wf()
        &&& self.left.slots().len() == MAX_DELAY_SAMPLES
        &&& self.right.slots().len() == MAX_DELAY_SAMPLES
    }

    /// A silent delay with these times, in samples: a ping-pong with a third of
    /// the signal fed back, without modulation or saturation.
    pub fn new(time_l: Bits32, time_r: Bits32) -> (r: StereoDelay)
        ensures
            r.wf(),
            r.left() == ring::quiet(MAX_DELAY_SAMPLES as nat),
            r.right() == ring::quiet(MAX_DELAY_SAMPLES as nat),
            r.set_to() == (DelaySettings {
                time_l,
                time_r,
                feedback: Bits32 { bits: 0x3eb3_3333 },
                ping_pong: true,
                hp_freq: Bits32 { bits: 0x42f0_0000 },
                lp_freq: Bits32 { bits: 0x45fa_0000 },
                mod_rate: Bits32 { bits: 0x3f00_0000 },
                mod_depth: Bits32 { bits: 0 },
                saturation: Bits32 { bits: 0 },
            }),
    {
        StereoDelay {
            settings: DelaySettings {
                time_l,
                time_r,
                feedback: Bits32 { bits: 0x3eb3_3333 },
                ping_pong: true,
                hp_freq: Bits32 { bits: 0x42f0_0000 },
                lp_freq: Bits32 { bits: 0x45fa_0000 },
                mod_rate: Bits32 { bits: 0x3f00_0000 },
                mod_depth: Bits32 { bits: 0 },
                saturation: Bits32 { bits: 0 },
            },
            left: Ring::new(MAX_DELAY_SAMPLES),
            right: Ring::new(MAX_DELAY_SAMPLES),
        }
    }

    /// Set the times, in samples, as near as the lines can be read at them.
    pub fn set_times(&mut self, time_l: Bits32, time_r: Bits32)
        ensures
            final(self).set_to() == (DelaySettings {
                time_l: playable(time_l),
                time_r: playable(time_r),
                ..old(self).set_to()
            }),
            final(self).same_lines(old(self)),
    {
        let lo = Bits32 { bits: 0x3f80_0000 };
        let hi = Bits32 { bits: 0x48ac_43e0 };
        self.settings.time_l = time_l.clamp(lo, hi);
        self.settings.time_r = time_r.clamp(lo, hi);
    }

    /// As `set_times`, with times that come from a tempo. A tempo of nothing or
    /// less leaves the times as they are.
    pub fn set_time_sync(&mut self, bpm: Bits32, time_l: Bits32, time_r: Bits32)
        ensures
            final(self).set_to() == (if !bpm.is_nan() && bpm.worth() <= 0 {
                old(self).set_to()
            } else {
                DelaySettings {
                    time_l: playable(time_l),
                    time_r: playable(time_r),
                    ..old(self).set_to()
                }
            }),
            final(self).same_lines(old(self)),
    {
        let nothing = Bits32 { bits: 0 };
        proof {
            bits::law_rank_is_the_order(bpm, nothing);
            bits::law_rank_is_the_order(nothing, nothing);
            lemma_nothing_is_worth_nothing();
        }
        if nothing.below(bpm) || bpm.nan() {
            self.set_times(time_l, time_r);
        }
    }

    /// Set how much is fed back, from 0 to 0.95.
    pub fn set_feedback(&mut self, share: Bits32)
        ensures
            final(self).set_to() == (DelaySettings {
                feedback: share.clamped(Bits32 { bits: 0 }, Bits32 { bits: 0x3f73_3333 }),
                ..old(self).set_to()
            }),
            final(self).same_lines(old(self)),
    {
        self.settings.feedback = share.clamp(Bits32 { bits: 0 }, Bits32 { bits: 0x3f73_3333 });
    }

    /// Set the filter that what is fed back goes through.
    pub fn set_filter(&mut self, hp: Bits32, lp: Bits32)
        ensures
            final(self).set_to() == (DelaySettings {
                hp_freq: hp,
                lp_freq: lp,
                ..old(self).set_to()
            }),
            final(self).same_lines(old(self)),
    {
        self.settings.hp_freq = hp;
        self.settings.lp_freq = lp;
    }

    /// Let the echoes bounce from side to side, or not.
    pub fn set_ping_pong(&mut self, enabled: bool)
        ensures
            final(self).set_to() == (DelaySettings { ping_pong: enabled, ..old(self).set_to() }),
            final(self).same_lines(old(self)),
    {
        self.settings.ping_pong = enabled;
    }

    /// Set the modulation of the times: its rate from 0.01 to 10 Hertz, its
    /// depth from 0 to 100.
    pub fn set_modulation(&mut self, rate: Bits32, depth: Bits32)
        ensures
            final(self).set_to() == (DelaySettings {
                mod_rate: rate.clamped(
                    Bits32 { bits: 0x3c23_d70a },
                    Bits32 { bits: 0x4120_0000 },
                ),
                mod_depth: depth.clamped(Bits32 { bits: 0 }, Bits32 { bits: 0x42c8_0000 }),
                ..old(self).set_to()
            }),
            final(self).same_lines(old(self)),
    {
        self.settings.mod_rate = rate.clamp(
            Bits32 { bits: 0x3c23_d70a },
            Bits32 { bits: 0x4120_0000 },
        );
        self.settings.mod_depth = depth.clamp(Bits32 { bits: 0 }, Bits32 { bits: 0x42c8_0000 });
    }

    /// Set the saturation of what is fed back, from 0 to 100.
    pub fn set_saturation(&mut self, amount: Bits32)
        ensures
            final(self).set_to() == (DelaySettings {
                saturation: amount.clamped(Bits32 { bits: 0 }, Bits32 { bits: 0x42c8_0000 }),
                ..old(self).set_to()
            }),
            final(self).same_lines(old(self)),
    {
        self.settings.saturation = amount.clamp(Bits32 { bits: 0 }, Bits32 { bits: 0x42c8_0000 });
    }

    /// What the controls are set to.
    pub fn settings(&self) -> (r: DelaySettings)
        ensures
            r == self.set_to(),
    {
        self.settings
    }

    /// The lines are those of another delay.
    pub open spec fn same_lines(&self, other: &StereoDelay) -> bool {
        &&& self.left() == other.left()
        &&& self.right() == other.right()
        &&& self.wf() == other.wf()
    }

    /// The times that the two lines are read at, before they are modulated.
    pub fn times(&self) -> (r: (Bits32, Bits32))
        ensures
            r.0 == time_of(self.set_to(), false),
            r.1 == time_of(self.set_to(), true),
    {
        let s = self.settings;
        (
            s.time_l,
            if s.ping_pong {
                s.time_l
            } else {
                s.time_r
            },
        )
    }

    /// Read both lines, each at a time in samples.
    pub fn taps(&self, time_l: Bits32, time_r: Bits32) -> (r: (Tap, Tap))
        requires
            self.wf(),
        ensures
            r.0 == tap_of(self.left(), time_l),
            r.1 == tap_of(self.right(), time_r),
    {
        (tap(&self.left, time_l), tap(&self.right, time_r))
    }

    /// What is fed back into each side, given what came out of each.
    pub fn feedback_into(&self, from_l: Bits32, from_r: Bits32) -> (r: (Bits32, Bits32))
        ensures
            r.0 == (if fed_from(self.set_to(), false) {
                from_r
            } else {
                from_l
            }),
            r.1 == (if fed_from(self.set_to(), true) {
                from_r
            } else {
                from_l
            }),
    {
        if self.settings.ping_pong {
            (from_r, from_l)
        } else {
            (from_l, from_r)
        }
    }

    /// Write one sample on each side.
    pub fn write(&mut self, l: Bits32, r: Bits32)
        requires
            old(self).wf(),
        ensures
            final(self).wf(),
            final(self).set_to() == old(self).set_to(),
            final(self).left() == old(self).left().drop_first().push(l),
            final(self).right() == old(self).right().drop_first().push(r),
    {
        self.left.push(l);
        self.right.push(r);
    }

    /// Make both lines silent.
    pub fn reset(&mut self)
        requires
            old(self).wf(),
        ensures
            final(self).wf(),
            final(self).set_to() == old(self).set_to(),
            final(self).left() == ring::quiet(MAX_DELAY_SAMPLES as nat),
            final(self).right() == ring::quiet(MAX_DELAY_SAMPLES as nat),
    {
        self.left.restart();
        self.right.restart();
    }
}

/// Zero is worth nothing.
proof fn lemma_nothing_is_worth_nothing()
    ensures
        (Bits32 { bits: 0 }).worth() == 0,
{
    power2::lemma2_to64();
    assert(power2::pow2(23) == 0x80_0000);
}

/// Read a line at a time in samples.
fn tap(line: &Ring, time: Bits32) -> (r: Tap)
    requires
        line.wf(),
        line.slots().len() == MAX_DELAY_SAMPLES,
    ensures
        r == tap_of(line.history(), time),
{
    let t = time.clamp(Bits32 { bits: 0x3f80_0000 }, Bits32 { bits: 0x48ac_43e0 });
    let n = t.whole();
    proof {
        lemma_playable(time);
    }
    let sample = if n == 0 {
        line.oldest()
    } else {
        line.back(n as usize)
    };
    Tap { time: t, whole: n, sample, before: line.back(n as usize + 1) }
}

/// `gain`, `n` times over.
pub open spec fn faded(gain: real, n: nat) -> real
    decreases n,
{
    if n == 0 {
        1 as real
    } else {
        gain * faded(gain, (n - 1) as nat)
    }
}

/// The time of a side in whole samples.
pub open spec fn samples_of(s: DelaySettings, right: bool) -> int {
    playable(time_of(s, right)).truncated() as int
}

/// What stands on a line `t` samples after a single sample of one was written on
/// a side (`struck`), with nothing before it or after it: what was written there
/// itself, and `gain` times what came out of the side that is fed back into it.
///
/// This is the delay in exact numbers, with its times in whole samples and with
/// nothing done to what is fed back.
pub open spec fn on_the_line(s: DelaySettings, gain: real, struck: bool, right: bool, t: int) -> real
    decreases
            if t < 0 {
                0
            } else {
                t + 1
            },
{
    let from = fed_from(s, right);
    let time = samples_of(s, from);
    if t < 0 || time <= 0 {
        0 as real
    } else {
        (if t == 0 && right == struck {
            1 as real
        } else {
            0 as real
        }) + gain * on_the_line(s, gain, struck, from, t - time)
    }
}

/// What is heard on a side after that: what stands on its line, at its time.
pub open spec fn heard(s: DelaySettings, gain: real, struck: bool, right: bool, t: int) -> real {
    on_the_line(s, gain, struck, right, t - samples_of(s, right))
}

/// A ping-pong bounces evenly: the repeats of a sample come at every multiple of
/// one time and at no other moment, each on the other side than the one before
/// and quieter by the feedback, the first one on the side of the sample,
/// whatever the time of the right side says.
pub proof fn law_a_ping_pong_bounces_evenly(
    s: DelaySettings,
    gain: real,
    struck: bool,
    right: bool,
    t: int,
)
    requires
        s.ping_pong,
        !s.time_l.is_nan(),
    ensures
        ({
            let time = playable(s.time_l).truncated() as int;
            heard(s, gain, struck, right, t) == (if t > 0 && t % time == 0 && ((t / time) % 2 == 1)
                == (right == struck) {
                faded(gain, (t / time - 1) as nat)
            } else {
                0 as real
            })
        }),
{
    let time = playable(s.time_l).truncated() as int;
    lemma_playable(s.time_l);
    lemma_bounce(s, gain, struck, right, t - time);
    lemma_one_time_on(t, time);
}

/// One time less: the place between two multiples stays, and there is one
/// multiple less.
proof fn lemma_one_time_on(t: int, time: int)
    requires
        time >= 1,
    ensures
        (t - time) % time == t % time,
        (t - time) / time == t / time - 1,
        0 < t < time ==> t % time == t && t / time == 0,
        t == 0 ==> t % time == 0 && t / time == 0,
        t >= time ==> t / time >= 1,
{
    div_mod::lemma_div_minus_one(t, time);
    div_mod::lemma_mod_sub_multiples_vanish(t, time);
    if 0 <= t < time {
        div_mod::lemma_small_mod(t as nat, time as nat);
        div_mod::lemma_basic_div(t, time);
    }
    if t >= time {
        div_mod::lemma_div_is_ordered(time, t, time);
        div_mod::lemma_div_by_self(time);
    }
}

/// Nothing of anything is nothing.
proof fn lemma_nothing_fed_back(gain: real)
    ensures
        gain * (0 as real) == 0 as real,
{
    assert(gain * (0 as real) == 0 as real) by (nonlinear_arith);
}

/// The same of what is written.
proof fn lemma_bounce(s: DelaySettings, gain: real, struck: bool, right: bool, t: int)
    requires
        s.ping_pong,
        !s.time_l.is_nan(),
    ensures
        ({
            let time = playable(s.time_l).truncated() as int;
            on_the_line(s, gain, struck, right, t) == (if t >= 0 && t % time == 0 && ((t / time) % 2
                == 0) == (right == struck) {
                faded(gain, (t / time) as nat)
            } else {
                0 as real
            })
        }),
    decreases
            if t < 0 {
                0
            } else {
                t + 1
            },
{
    let time = playable(s.time_l).truncated() as int;
    lemma_playable(s.time_l);
    if t >= 0 {
        lemma_bounce(s, gain, struck, !right, t - time);
        lemma_one_time_on(t, time);
        lemma_nothing_fed_back(gain);
        let then = on_the_line(s, gain, struck, !right, t - time);
        assert(on_the_line(s, gain, struck, right, t) == (if t == 0 && right == struck {
            1 as real
        } else {
            0 as real
        }) + gain * then);
    }
}

/// Without ping-pong the two sides are independent: a sample on one side is
/// never heard on the other, and comes back at the time of its own side and its
/// multiples, quieter by the feedback each time.
pub proof fn law_the_sides_are_independent(s: DelaySettings, gain: real, struck: bool, t: int)
    requires
        !s.ping_pong,
        !time_of(s, struck).is_nan(),
    ensures
        heard(s, gain, struck, !struck, t) == 0 as real,
        ({
            let time = playable(
                if struck {
                    s.time_r
                } else {
                    s.time_l
                },
            ).truncated() as int;
            heard(s, gain, struck, struck, t) == (if t > 0 && t % time == 0 {
                faded(gain, (t / time - 1) as nat)
            } else {
                0 as real
            })
        }),
{
    let time = playable(time_of(s, struck)).truncated() as int;
    lemma_playable(time_of(s, struck));
    lemma_stays(s, gain, struck, t - time);
    lemma_silent_side(s, gain, struck, t - samples_of(s, !struck));
    lemma_one_time_on(t, time);
}

/// The side that nothing is written on stays silent.
proof fn lemma_silent_side(s: DelaySettings, gain: real, struck: bool, t: int)
    requires
        !s.ping_pong,
    ensures
        on_the_line(s, gain, struck, !struck, t) == 0 as real,
    decreases
            if t < 0 {
                0
            } else {
                t + 1
            },
{
    let time = samples_of(s, !struck);
    if t >= 0 && time > 0 {
        lemma_silent_side(s, gain, struck, t - time);
        lemma_nothing_fed_back(gain);
    }
}

/// What stands on the side that a sample was written on.
proof fn lemma_stays(s: DelaySettings, gain: real, struck: bool, t: int)
    requires
        !s.ping_pong,
        !time_of(s, struck).is_nan(),
    ensures
        ({
            let time = playable(time_of(s, struck)).truncated() as int;
            on_the_line(s, gain, struck, struck, t) == (if t >= 0 && t % time == 0 {
                faded(gain, (t / time) as nat)
            } else {
                0 as real
            })
        }),
    decreases
            if t < 0 {
                0
            } else {
                t + 1
            },
{
    let time = playable(time_of(s, struck)).truncated() as int;
    lemma_playable(time_of(s, struck));
    if t >= 0 {
        lemma_stays(s, gain, struck, t - time);
        lemma_one_time_on(t, time);
        lemma_nothing_fed_back(gain);
        let then = on_the_line(s, gain, struck, struck, t - time);
        assert(on_the_line(s, gain, struck, struck, t) == (if t == 0 {
            1 as real
        } else {
            0 as real
        }) + gain * then);
    }
}

/// The shortest and the longest time are one sample and 352799 samples.
pub proof fn lemma_end_values()
    ensures
        bits::value(shortest()) == 1 as real,
        bits::value(longest()) == 352_799 as real,
        !shortest().is_nan(),
        !longest().is_nan(),
{
    bits::lemma_values();
    power2::lemma2_to64();
    bits::lemma_value_of_parts(longest(), 145, 0x2c_43e0);
    assert(power2::pow2(5) == 32);
    let f = (0x80_0000 + 0x2c_43e0) as real;
    let q = power2::pow2(5) as real;
    let n = 352_799 as real;
    assert(f / q == n) by (nonlinear_arith)
        requires
            q == 32 as real,
            f == n * 32 as real,
    ;
}

/// A line is read exactly as many samples back as the time says: of the samples
/// that were written, the one `n` samples ago and the one before it, where `n` is
/// the whole part of the time. That is from one sample up to one less than the
/// line holds, 352799, and a time beyond either end is that end.
pub proof fn law_a_line_is_read_at_its_time(
    history: Seq<Bits32>,
    xs: Seq<Bits32>,
    time: Bits32,
    n: int,
)
    requires
        history.len() == 352_800,
        !time.is_nan(),
        1 <= n <= 352_799,
        n < xs.len(),
        bits::value(time) < 1 as real ==> n == 1,
        bits::value(time) > 352_799 as real ==> n == 352_799,
        1 as real <= bits::value(time) <= 352_799 as real ==> n as real <= bits::value(time)
            && bits::value(time) < n as real + 1 as real,
    ensures
        ({
            let tap = tap_of(ring::written(history, xs), time);
            &&& tap.sample == xs[xs.len() - n]
            &&& tap.before == xs[xs.len() - n - 1]
            &&& tap.whole == n
            &&& 1 as real <= bits::value(time) <= 352_799 as real ==> tap.time == time
            &&& bits::value(time) < 1 as real ==> bits::value(tap.time) == 1 as real
            &&& bits::value(time) > 352_799 as real ==> bits::value(tap.time) == 352_799 as real
        }),
{
    let now = ring::written(history, xs);
    let t = playable(time);
    lemma_end_values();
    bits::law_a_clamped_number_lies_between(time, shortest(), longest());
    bits::law_a_whole_part_is_the_last_not_more(t);
    lemma_playable(time);
    assert(t.truncated() == n);
    ring::law_what_is_written_is_last(history, xs, 352_800 - n);
    ring::law_what_is_written_is_last(history, xs, 352_800 - n - 1);
}

/// A time that is not a number reads the oldest sample, and the newest one as the
/// one before it.
pub proof fn law_no_time_is_once_round(history: Seq<Bits32>, xs: Seq<Bits32>, time: Bits32)
    requires
        history.len() == 352_800,
        time.is_nan(),
        xs.len() > 0,
    ensures
        ({
            let tap = tap_of(ring::written(history, xs), time);
            &&& tap.sample == ring::written(history, xs)[0]
            &&& tap.before == xs.last()
            &&& tap.whole == 0
            &&& tap.time == time
        }),
{
    lemma_end_values();
    bits::law_a_clamped_number_lies_between(time, shortest(), longest());
    bits::law_a_whole_part_is_the_last_not_more(time);
    ring::law_what_is_written_is_last(history, xs, 352_799);
}

/// A ping-pong feeds each side into the other and reads both at the time of the
/// left one; without it each side is fed into itself and read at its own time.
pub proof fn law_a_ping_pong_crosses(s: DelaySettings)
    ensures
        fed_from(s, false) == s.ping_pong,
        fed_from(s, true) == !s.ping_pong,
        time_of(s, false) == s.time_l,
        s.ping_pong ==> time_of(s, true) == s.time_l,
        !s.ping_pong ==> time_of(s, true) == s.time_r,
{
}

/// The lines that the echoes are read from are those that the delay writes: any
/// two lines on which a single sample of one is written on one side, and from then
/// on `gain` times what is read from the side that is fed back, each side at its
/// time, hold what the echoes are made from.
pub proof fn law_the_echoes_are_those_of_the_lines(
    s: DelaySettings,
    gain: real,
    struck: bool,
    left: spec_fn(int) -> real,
    right: spec_fn(int) -> real,
    n_left: int,
    n_right: int,
    t: int,
)
    requires
        !s.time_l.is_nan(),
        !s.time_r.is_nan(),
        n_left == playable(s.time_l).truncated(),
        n_right == playable(s.time_r).truncated(),
        forall|i: int| i < 0 ==> #[trigger] left(i) == 0 as real,
        forall|i: int| i < 0 ==> #[trigger] right(i) == 0 as real,
        s.ping_pong ==> forall|i: int|
            0 <= i ==> #[trigger] left(i) == (if i == 0 && !struck {
                1 as real
            } else {
                0 as real
            }) + gain * right(i - n_left),
        s.ping_pong ==> forall|i: int|
            0 <= i ==> #[trigger] right(i) == (if i == 0 && struck {
                1 as real
            } else {
                0 as real
            }) + gain * left(i - n_left),
        !s.ping_pong ==> forall|i: int|
            0 <= i ==> #[trigger] left(i) == (if i == 0 && !struck {
                1 as real
            } else {
                0 as real
            }) + gain * left(i - n_left),
        !s.ping_pong ==> forall|i: int|
            0 <= i ==> #[trigger] right(i) == (if i == 0 && struck {
                1 as real
            } else {
                0 as real
            }) + gain * right(i - n_right),
    ensures
        left(t) == on_the_line(s, gain, struck, false, t),
        right(t) == on_the_line(s, gain, struck, true, t),
    decreases
            if t < 0 {
                0
            } else {
                t + 1
            },
{
    lemma_playable(s.time_l);
    lemma_playable(s.time_r);
    if t >= 0 {
        law_the_echoes_are_those_of_the_lines(
            s,
            gain,
            struck,
            left,
            right,
            n_left,
            n_right,
            t - n_left,
        );
        law_the_echoes_are_those_of_the_lines(
            s,
            gain,
            struck,
            left,
            right,
            n_left,
            n_right,
            t - n_right,
        );
        if s.ping_pong {
            let a = left(t - n_left);
            let b = right(t - n_left);
        }
    }
}

/// What is heard on a side is what stands on its line, as long ago as its time
/// says.
pub proof fn law_a_side_is_heard_at_its_time(
    s: DelaySettings,
    gain: real,
    struck: bool,
    right: bool,
    t: int,
)
    ensures
        heard(s, gain, struck, right, t) == on_the_line(
            s,
            gain,
            struck,
            right,
            t - playable(
                if right && !s.ping_pong {
                    s.time_r
                } else {
                    s.time_l
                },
            ).truncated(),
        ),
{
}

}
