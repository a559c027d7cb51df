//! An instance of the plug-in: what it remembers and its effects, from getting
//! ready to play to the end of a buffer.

use vstd::arithmetic::div_mod;
use vstd::arithmetic::power2;
use vstd::prelude::*;

use crate::bits;
use crate::bits::{Bits32, Bits64};
use crate::dsp::delay;
use crate::dsp::delay::{DelaySettings, StereoDelay, MAX_DELAY_SAMPLES};
use crate::dsp::lfo::{Lfo, Shape};
use crate::dsp::reverb;
use crate::dsp::reverb::{Lengths, Reverb, ReverbMode, ReverbType};
use crate::dsp::ring;
use crate::dsp::ring::Ring;
use crate::dsp::sidechain::{DuckStage, NextLevels, SidechainDetector};
use crate::engine::{Engine, Peaks};

verus! {

/// An instance of the plug-in.
#[derive(Clone, Debug)]
pub struct Instance {
    pub engine: Engine,
    pub reverb: Reverb,
    pub delay: StereoDelay,
    pub sidechain: SidechainDetector,
    pub lfo: Lfo,
}

/// What the controls ask of the effects, in samples and shares.
pub struct Controls<'a> {
    pub reverb_type: ReverbType,
    pub freeze: bool,
    /// The lengths of the combs of that type at the size that was set before.
    pub before_l: &'a [Bits32],
    pub before_r: &'a [Bits32],
    /// The lengths of all lines of that type at the size that is asked for.
    pub lengths: Lengths<'a>,
    pub predelay: Bits32,
    pub threshold_lin: Bits32,
    pub hold_samples: Bits32,
    /// The times come from the tempo.
    pub synced: bool,
    pub time_l: Bits32,
    pub time_r: Bits32,
    pub feedback: Bits32,
    pub hp: Bits32,
    pub lp: Bits32,
    pub ping_pong: bool,
    pub mod_rate: Bits32,
    pub mod_depth: Bits32,
    pub saturation: Bits32,
    pub lfo_rate: Bits32,
    pub lfo_offset: Bits32,
    pub shape: Shape,
}

impl<'a> Controls<'a> {
    /// There is a length for every line.
    pub open spec fn wf(&self) -> bool {
        &&& self.before_l@.len() == reverb::NUM_COMBS
        &&& self.before_r@.len() == reverb::NUM_COMBS
        &&& self.lengths.wf()
    }
}

/// Silent lines of these lengths, whose places to write are where they were.
pub open spec fn hushed(before: Seq<Ring>, after: Seq<Ring>, scaled: Seq<Bits32>) -> bool {
    &&& after.len() == before.len()
    &&& forall|i: int|
        #![trigger after[i]]
        0 <= i < after.len() ==> after[i].slots() == ring::quiet(reverb::length_of(scaled[i]))
            && after[i].at() == before[i].at() % (reverb::length_of(scaled[i]) as int)
}

/// All lines are brought to one length and then to another.
pub open spec fn refitted_twice(
    before: Seq<Ring>,
    after: Seq<Ring>,
    first: Seq<Bits32>,
    scaled: Seq<Bits32>,
) -> bool {
    &&& after.len() == before.len()
    &&& forall|i: int|
        #![trigger after[i]]
        0 <= i < after.len() ==> after[i].slots() == ring::fitted(
            ring::fitted(before[i].slots(), reverb::length_of(first[i])),
            reverb::length_of(scaled[i]),
        ) && after[i].at() == (before[i].at() % (reverb::length_of(first[i]) as int)) % (
        reverb::length_of(scaled[i]) as int)
}

/// The detector with nothing heard.
pub open spec fn unheard(d: SidechainDetector) -> SidechainDetector {
    SidechainDetector {
        envelope: bits::zero(),
        hold_counter: bits::zero(),
        key_level: bits::zero(),
        ..d
    }
}

/// The LFO at the start of its wave.
pub open spec fn rewound(l: Lfo) -> Lfo {
    Lfo {
        phase: Bits64 { bits: 0 },
        sh_value: Bits32 { bits: 0 },
        sh_last_phase: Bits64 { bits: 0 },
        ..l
    }
}

/// The effects are reset: silent, with their controls as they were.
pub open spec fn cleared(before: &Instance, after: &Instance) -> bool {
    &&& after.reverb.mode == before.reverb.mode
    &&& after.reverb.predelay.delay() == before.reverb.predelay.delay()
    &&& after.reverb.predelay.at() == 0
    &&& after.reverb.predelay.slots() == ring::quiet(before.reverb.predelay.slots().len())
    &&& reverb::silenced(before.reverb.left.combs(), after.reverb.left.combs())
    &&& reverb::silenced(before.reverb.left.allpasses(), after.reverb.left.allpasses())
    &&& reverb::silenced(before.reverb.right.combs(), after.reverb.right.combs())
    &&& reverb::silenced(before.reverb.right.allpasses(), after.reverb.right.allpasses())
    &&& after.delay.set_to() == before.delay.set_to()
    &&& after.delay.left() == ring::quiet(MAX_DELAY_SAMPLES as nat)
    &&& after.delay.right() == ring::quiet(MAX_DELAY_SAMPLES as nat)
    &&& after.sidechain == unheard(before.sidechain)
    &&& after.lfo == rewound(before.lfo)
}

/// An instance that is ready to play at a sample rate.
pub open spec fn initialized(
    before: &Instance,
    after: &Instance,
    rate: Bits32,
    lengths: &Lengths,
) -> bool {
    let (old_reverb, new_reverb) = (before.reverb, after.reverb);
    &&& after.engine == (Engine {
        duck_depth: bits::zero(),
        lfo_value: bits::zero(),
        nan_detected: false,
        ..before.engine
    })
    &&& new_reverb.mode == old_reverb.mode
    &&& new_reverb.predelay.at() == 0
    &&& new_reverb.predelay.slots() == ring::quiet(reverb::length_of(rate))
    &&& new_reverb.predelay.delay() == (if old_reverb.predelay.delay() < reverb::length_of(rate) {
        old_reverb.predelay.delay()
    } else {
        reverb::length_of(rate) - 1
    })
    &&& hushed(old_reverb.left.combs(), new_reverb.left.combs(), lengths.combs_l@)
    &&& hushed(old_reverb.right.combs(), new_reverb.right.combs(), lengths.combs_r@)
    &&& hushed(old_reverb.left.allpasses(), new_reverb.left.allpasses(), lengths.allpasses_l@)
    &&& hushed(old_reverb.right.allpasses(), new_reverb.right.allpasses(), lengths.allpasses_r@)
    &&& after.delay.set_to() == before.delay.set_to()
    &&& after.delay.left() == ring::quiet(MAX_DELAY_SAMPLES as nat)
    &&& after.delay.right() == ring::quiet(MAX_DELAY_SAMPLES as nat)
    &&& after.sidechain == unheard(before.sidechain)
    &&& after.lfo == rewound(before.lfo)
}

/// What the delay is set to.
pub open spec fn delay_set(s: DelaySettings, bpm: Bits32, c: &Controls) -> DelaySettings {
    let still = c.synced && !bpm.is_nan() && bpm.worth() <= 0;
    DelaySettings {
        time_l: if still {
            s.time_l
        } else {
            delay::playable(c.time_l)
        },
        time_r: if still {
            s.time_r
        } else {
            delay::playable(c.time_r)
        },
        feedback: c.feedback.clamped(Bits32 { bits: 0 }, Bits32 { bits: 0x3f73_3333 }),
        ping_pong: c.ping_pong,
        hp_freq: c.hp,
        lp_freq: c.lp,
        mod_rate: c.mod_rate.clamped(Bits32 { bits: 0x3c23_d70a }, Bits32 { bits: 0x4120_0000 }),
        mod_depth: c.mod_depth.clamped(Bits32 { bits: 0 }, Bits32 { bits: 0x42c8_0000 }),
        saturation: c.saturation.clamped(Bits32 { bits: 0 }, Bits32 { bits: 0x42c8_0000 }),
    }
}

/// An instance whose effects are set up for a buffer. Their lines are as long as
/// the type and the size ask for, and hold what they held as far as it fits.
pub open spec fn is_set_up(before: &Instance, after: &Instance, c: &Controls) -> bool {
    let (old_reverb, new_reverb) = (before.reverb, after.reverb);
    let changed = c.reverb_type != old_reverb.mode.reverb_type;
    &&& after.engine == before.engine
    &&& new_reverb.mode == (ReverbMode { reverb_type: c.reverb_type, frozen: c.freeze })
    &&& new_reverb.predelay.slots() == old_reverb.predelay.slots()
    &&& new_reverb.predelay.at() == old_reverb.predelay.at()
    &&& new_reverb.predelay.delay() == (if c.predelay.truncated()
        < old_reverb.predelay.slots().len() {
        c.predelay.truncated() as int
    } else {
        old_reverb.predelay.slots().len() - 1
    })
    &&& if changed {
        &&& refitted_twice(
            old_reverb.left.combs(),
            new_reverb.left.combs(),
            c.before_l@,
            c.lengths.combs_l@,
        )
        &&& refitted_twice(
            old_reverb.right.combs(),
            new_reverb.right.combs(),
            c.before_r@,
            c.lengths.combs_r@,
        )
    } else {
        &&& reverb::refitted(
            old_reverb.left.combs(),
            new_reverb.left.combs(),
            c.lengths.combs_l@,
        )
        &&& reverb::refitted(
            old_reverb.right.combs(),
            new_reverb.right.combs(),
            c.lengths.combs_r@,
        )
    }
    &&& reverb::refitted(
        old_reverb.left.allpasses(),
        new_reverb.left.allpasses(),
        c.lengths.allpasses_l@,
    )
    &&& reverb::refitted(
        old_reverb.right.allpasses(),
        new_reverb.right.allpasses(),
        c.lengths.allpasses_r@,
    )
    &&& after.delay.set_to() == delay_set(before.delay.set_to(), before.engine.bpm, c)
    &&& after.delay.same_lines(&before.delay)
    &&& after.sidechain == (SidechainDetector {
        threshold_lin: c.threshold_lin,
        hold_samples: c.hold_samples,
        ..before.sidechain
    })
    &&& after.lfo == (Lfo {
        rate: c.lfo_rate.larger(Bits32 { bits: 0x3a83_126f }),
        phase_offset: c.lfo_offset,
        shape: c.shape,
        ..before.lfo
    })
}

impl Instance {
    /// All parts are in order.
    pub open spec fn wf(&self) -> bool {
        &&& self.engine.wf()
        &&& self.reverb.wf()
        &&& self.delay.wf()
        &&& self.lfo.wf()
    }

    /// An instance that has heard nothing: a room with lines of these lengths, a
    /// delay with these times, in samples, and a detector with this threshold
    /// and this hold.
    pub fn new(
        lengths: &Lengths,
        time_l: Bits32,
        time_r: Bits32,
        threshold_lin: Bits32,
        hold_samples: Bits32,
    ) -> (r: Instance)
        requires
            lengths.wf(),
        ensures
            r.wf(),
            r.engine == (Engine {
                bpm: Bits32 { bits: 0x4316_0000 },
                duck_depth: bits::zero(),
                lfo_value: bits::zero(),
                nan_detected: false,
                peaks: Peaks {
                    input_l: bits::zero(),
                    input_r: bits::zero(),
                    output_l: bits::zero(),
                    output_r: bits::zero(),
                },
                update_counter: 0,
            }),
            r.reverb.mode == (ReverbMode { reverb_type: ReverbType::Room, frozen: false }),
            r.reverb.predelay.delay() == 0,
            r.reverb.predelay.at() == 0,
            r.reverb.predelay.slots() == ring::quiet(reverb::MAX_PREDELAY_SAMPLES as nat),
            r.reverb.predelay.slots().len() == 44_100,
            all_quiet(r.reverb.left.combs(), lengths.combs_l@),
            all_quiet(r.reverb.right.combs(), lengths.combs_r@),
            all_quiet(r.reverb.left.allpasses(), lengths.allpasses_l@),
            all_quiet(r.reverb.right.allpasses(), lengths.allpasses_r@),
            r.delay.set_to() == (DelaySettings {
                time_l,
                time_r,
                feedback: Bits32 { bits: 0x3eb3_3333 },
                ping_pong: true,
                hp_freq: Bits32 { bits: 0x42f0_0000 },
                lp_freq: Bits32 { bits: 0x45fa_0000 },
                mod_rate: Bits32 { bits: 0x3f00_0000 },
                mod_depth: Bits32 { bits: 0 },
                saturation: Bits32 { bits: 0 },
            }),
            r.delay.left() == ring::quiet(MAX_DELAY_SAMPLES as nat),
            r.delay.right() == ring::quiet(MAX_DELAY_SAMPLES as nat),
            r.sidechain == (SidechainDetector {
                envelope: bits::zero(),
                hold_counter: bits::zero(),
                key_level: bits::zero(),
                threshold_lin,
                hold_samples,
            }),
            r.lfo == (Lfo {
                phase: Bits64 { bits: 0 },
                rate: Bits32 { bits: 0x4000_0000 },
                phase_offset: Bits32 { bits: 0 },
                shape: Shape::Sine,
                sh_value: Bits32 { bits: 0 },
                sh_last_phase: Bits64 { bits: 0 },
            }),
    {
        Instance {
            engine: Engine::new(),
            reverb: Reverb::new(lengths),
            delay: StereoDelay::new(time_l, time_r),
            sidechain: SidechainDetector::new(threshold_lin, hold_samples),
            lfo: Lfo::new(),
        }
    }

    /// Make the effects silent. Their controls stay.
    pub fn reset_effects(&mut self)
        requires
            old(self).wf(),
        ensures
            final(self).wf(),
            final(self).engine == old(self).engine,
            cleared(old(self), final(self)),
    {
        self.reverb.reset();
        self.delay.reset();
        self.sidechain.reset();
        self.lfo.reset();
    }

    /// Get ready to play at a sample rate, with lines of these lengths. Some
    /// hosts use an instance again: nothing is left of what it played before.
    pub fn initialize(&mut self, rate: Bits32, lengths: &Lengths)
        requires
            old(self).wf(),
            lengths.wf(),
        ensures
            final(self).wf(),
            initialized(old(self), final(self), rate, lengths),
    {
        let ghost start = *self;
        self.reverb.rebuild_for_type(lengths);
        self.reverb.predelay.set_sample_rate(rate);
        let ghost fitted = *self;
        self.reset_effects();
        self.engine.initialize();
        proof {
            lemma_hushed(
                start.reverb.left.combs(),
                fitted.reverb.left.combs(),
                self.reverb.left.combs(),
                lengths.combs_l@,
            );
            lemma_hushed(
                start.reverb.right.combs(),
                fitted.reverb.right.combs(),
                self.reverb.right.combs(),
                lengths.combs_r@,
            );
            lemma_hushed(
                start.reverb.left.allpasses(),
                fitted.reverb.left.allpasses(),
                self.reverb.left.allpasses(),
                lengths.allpasses_l@,
            );
            lemma_hushed(
                start.reverb.right.allpasses(),
                fitted.reverb.right.allpasses(),
                self.reverb.right.allpasses(),
                lengths.allpasses_r@,
            );
        }
    }

    /// Forget what was played. The meters go back to nothing too.
    pub fn reset(&mut self)
        requires
            old(self).wf(),
        ensures
            final(self).wf(),
            cleared(old(self), final(self)),
            final(self).engine == (Engine {
                duck_depth: bits::zero(),
                lfo_value: bits::zero(),
                peaks: Peaks {
                    input_l: bits::zero(),
                    input_r: bits::zero(),
                    output_l: bits::zero(),
                    output_r: bits::zero(),
                },
                ..old(self).engine
            }),
    {
        self.reset_effects();
        self.engine.reset();
    }

    /// End a buffer. The effects are reset where a frame of it came out of them
    /// as no sound, so that the next buffer starts clean.
    pub fn end_buffer(&mut self) -> (r: bool)
        requires
            old(self).wf(),
        ensures
            final(self).wf(),
            r == old(self).engine.nan_detected,
            r ==> cleared(old(self), final(self)) && final(self).engine == (Engine {
                duck_depth: bits::zero(),
                lfo_value: bits::zero(),
                nan_detected: false,
                ..old(self).engine
            }),
            !r ==> *final(self) == *old(self),
    {
        let r = self.engine.end_buffer();
        if r {
            self.reset_effects();
        }
        r
    }

    /// Set the effects up for a buffer.
    pub fn set_up(&mut self, c: &Controls)
        requires
            old(self).wf(),
            c.wf(),
        ensures
            final(self).wf(),
            is_set_up(old(self), final(self), c),
    {
        if self.reverb.mode.set_type(c.reverb_type) {
            self.reverb.left.refit_combs(c.before_l);
            self.reverb.right.refit_combs(c.before_r);
        }
        self.reverb.mode.set_freeze(c.freeze);
        self.reverb.left.refit_combs(c.lengths.combs_l);
        self.reverb.right.refit_combs(c.lengths.combs_r);
        self.reverb.left.refit_allpasses(c.lengths.allpasses_l);
        self.reverb.right.refit_allpasses(c.lengths.allpasses_r);
        self.reverb.predelay.set_delay(c.predelay);
        self.sidechain.set_params(c.threshold_lin, c.hold_samples);
        if c.synced {
            self.delay.set_time_sync(self.engine.bpm, c.time_l, c.time_r);
        } else {
            self.delay.set_times(c.time_l, c.time_r);
        }
        self.delay.set_feedback(c.feedback);
        self.delay.set_filter(c.hp, c.lp);
        self.delay.set_ping_pong(c.ping_pong);
        self.delay.set_modulation(c.mod_rate, c.mod_depth);
        self.delay.set_saturation(c.saturation);
        self.lfo.set_rate(c.lfo_rate);
        self.lfo.set_phase_offset(c.lfo_offset);
        self.lfo.set_shape(c.shape);
    }
}

/// Silent lines of these lengths, which are written from their first places on.
pub open spec fn all_quiet(lines: Seq<Ring>, scaled: Seq<Bits32>) -> bool {
    &&& lines.len() == scaled.len()
    &&& forall|i: int|
        #![trigger lines[i]]
        0 <= i < lines.len() ==> lines[i].slots() == ring::quiet(reverb::length_of(scaled[i]))
            && lines[i].at() == 0
}

proof fn lemma_hushed(
    before: Seq<Ring>,
    fitted: Seq<Ring>,
    after: Seq<Ring>,
    scaled: Seq<Bits32>,
)
    requires
        reverb::refitted(before, fitted, scaled),
        reverb::silenced(fitted, after),
    ensures
        hushed(before, after, scaled),
{
    assert forall|i: int| #![trigger after[i]] 0 <= i < after.len() implies after[i].slots()
        == ring::quiet(reverb::length_of(scaled[i])) && after[i].at() == before[i].at() % (
    reverb::length_of(scaled[i]) as int) by {
        assert(fitted[i].slots().len() == reverb::length_of(scaled[i]));
    }
}

/// What lines hold, the oldest samples first.
pub open spec fn histories(lines: Seq<Ring>) -> Seq<Seq<Bits32>> {
    Seq::new(lines.len(), |i: int| lines[i].history())
}

/// All that the sound of an instance is made from: what its lines hold, what its
/// controls are set to, and how far its detector and its LFO have got.
#[verifier::ext_equal]
pub struct Sound {
    pub duck_depth: Bits32,
    pub lfo_value: Bits32,
    pub nan_detected: bool,
    pub mode: ReverbMode,
    pub predelay: Seq<Bits32>,
    pub predelay_time: int,
    pub combs: (Seq<Seq<Bits32>>, Seq<Seq<Bits32>>),
    pub allpasses: (Seq<Seq<Bits32>>, Seq<Seq<Bits32>>),
    pub delay: DelaySettings,
    pub delay_left: Seq<Bits32>,
    pub delay_right: Seq<Bits32>,
    pub sidechain: SidechainDetector,
    pub lfo: Lfo,
}

/// All that the sound of an instance is made from.
pub open spec fn sound(a: &Instance) -> Sound {
    Sound {
        duck_depth: a.engine.duck_depth,
        lfo_value: a.engine.lfo_value,
        nan_detected: a.engine.nan_detected,
        mode: a.reverb.mode,
        predelay: a.reverb.predelay.history(),
        predelay_time: a.reverb.predelay.delay(),
        combs: (histories(a.reverb.left.combs()), histories(a.reverb.right.combs())),
        allpasses: (histories(a.reverb.left.allpasses()), histories(a.reverb.right.allpasses())),
        delay: a.delay.set_to(),
        delay_left: a.delay.left(),
        delay_right: a.delay.right(),
        sidechain: a.sidechain,
        lfo: a.lfo,
    }
}

/// Silent lines of given lengths.
pub open spec fn silences(scaled: Seq<Bits32>, n: nat) -> Seq<Seq<Bits32>> {
    Seq::new(n, |i: int| ring::quiet(reverb::length_of(scaled[i])))
}

proof fn lemma_quiet_refitted(
    before: Seq<Ring>,
    start: Seq<Ring>,
    after: Seq<Ring>,
    lengths: Seq<Bits32>,
    first: Seq<Bits32>,
    scaled: Seq<Bits32>,
)
    requires
        hushed(before, start, lengths),
        reverb::refitted(start, after, scaled) || refitted_twice(start, after, first, scaled),
        reverb::all_wf(after),
    ensures
        histories(after) == silences(scaled, after.len()),
{
    assert forall|i: int| 0 <= i < after.len() implies #[trigger] histories(after)[i] == silences(
        scaled,
        after.len(),
    )[i] by {
        let n = reverb::length_of(scaled[i]);
        assert(after[i].wf());
        assert(start[i].slots() == ring::quiet(reverb::length_of(lengths[i])));
        assert(after[i].slots() =~= ring::quiet(n));
        assert(after[i].history() =~= ring::quiet(n));
    }
    assert(histories(after) =~= silences(scaled, after.len()));
}

/// An instance that is used again plays as a new one: once both are ready to
/// play at one sample rate and are set up with one set of controls at one tempo,
/// all that their sound is made from is the same, whatever the used one played
/// and was set to before. A tempo of nothing or less with times that come from
/// it is left out, because it leaves the times of the delay as they were.
pub proof fn law_an_instance_that_is_used_again_plays_as_a_new_one(
    used: &Instance,
    used_ready: &Instance,
    used_set: &Instance,
    used_lengths: &Lengths,
    new: &Instance,
    new_ready: &Instance,
    new_set: &Instance,
    new_lengths: &Lengths,
    rate: Bits32,
    bpm: Bits32,
    c: &Controls,
)
    requires
        used_set.wf(),
        new_set.wf(),
        initialized(used, used_ready, rate, used_lengths),
        initialized(new, new_ready, rate, new_lengths),
        is_set_up(
            &(Instance { engine: Engine { bpm, ..used_ready.engine }, ..*used_ready }),
            used_set,
            c,
        ),
        is_set_up(
            &(Instance { engine: Engine { bpm, ..new_ready.engine }, ..*new_ready }),
            new_set,
            c,
        ),
        c.synced ==> bpm.is_nan() || bpm.worth() > 0,
    ensures
        sound(used_set) == sound(new_set),
{
    lemma_quiet_setup(used, used_ready, used_set, used_lengths, rate, bpm, c);
    lemma_quiet_setup(new, new_ready, new_set, new_lengths, rate, bpm, c);
    assert(sound(used_set) =~= sound(new_set));
}

proof fn lemma_quiet_setup(
    before: &Instance,
    ready: &Instance,
    set: &Instance,
    lengths: &Lengths,
    rate: Bits32,
    bpm: Bits32,
    c: &Controls,
)
    requires
        set.wf(),
        initialized(before, ready, rate, lengths),
        is_set_up(&(Instance { engine: Engine { bpm, ..ready.engine }, ..*ready }), set, c),
    ensures
        set.reverb.predelay.history() == ring::quiet(reverb::length_of(rate)),
        histories(set.reverb.left.combs()) == silences(
            c.lengths.combs_l@,
            reverb::NUM_COMBS as nat,
        ),
        histories(set.reverb.right.combs()) == silences(
            c.lengths.combs_r@,
            reverb::NUM_COMBS as nat,
        ),
        histories(set.reverb.left.allpasses()) == silences(
            c.lengths.allpasses_l@,
            reverb::NUM_ALLPASS as nat,
        ),
        histories(set.reverb.right.allpasses()) == silences(
            c.lengths.allpasses_r@,
            reverb::NUM_ALLPASS as nat,
        ),
{
    assert(set.reverb.predelay.history() =~= ring::quiet(reverb::length_of(rate)));
    lemma_quiet_refitted(
        before.reverb.left.combs(),
        ready.reverb.left.combs(),
        set.reverb.left.combs(),
        lengths.combs_l@,
        c.before_l@,
        c.lengths.combs_l@,
    );
    lemma_quiet_refitted(
        before.reverb.right.combs(),
        ready.reverb.right.combs(),
        set.reverb.right.combs(),
        lengths.combs_r@,
        c.before_r@,
        c.lengths.combs_r@,
    );
    lemma_quiet_refitted(
        before.reverb.left.allpasses(),
        ready.reverb.left.allpasses(),
        set.reverb.left.allpasses(),
        lengths.allpasses_l@,
        lengths.allpasses_l@,
        c.lengths.allpasses_l@,
    );
    lemma_quiet_refitted(
        before.reverb.right.allpasses(),
        ready.reverb.right.allpasses(),
        set.reverb.right.allpasses(),
        lengths.allpasses_r@,
        lengths.allpasses_r@,
        c.lengths.allpasses_r@,
    );
}

/// Whether lines have these lengths.
pub open spec fn fits(lines: Seq<Ring>, scaled: Seq<Bits32>) -> bool {
    forall|i: int|
        #![trigger lines[i]]
        0 <= i < lines.len() ==> lines[i].slots().len() == reverb::length_of(scaled[i])
}

proof fn lemma_refitted_as_it_was(before: Seq<Ring>, after: Seq<Ring>, scaled: Seq<Bits32>)
    requires
        reverb::all_wf(before),
        fits(before, scaled),
        reverb::refitted(before, after, scaled),
    ensures
        histories(after) == histories(before),
{
    assert forall|i: int| 0 <= i < after.len() implies #[trigger] histories(after)[i]
        == histories(before)[i] by {
        assert(before[i].wf());
        assert(after[i].slots() =~= before[i].slots());
        div_mod::lemma_small_mod(before[i].at() as nat, reverb::length_of(scaled[i]));
    }
    assert(histories(after) =~= histories(before));
}

/// Setting the effects up again for another buffer cuts no tail: where the type
/// and the lengths are those of before, every line holds what it held.
pub proof fn law_a_set_up_keeps_the_tail(before: &Instance, after: &Instance, c: &Controls)
    requires
        before.wf(),
        is_set_up(before, after, c),
        c.reverb_type == before.reverb.mode.reverb_type,
        fits(before.reverb.left.combs(), c.lengths.combs_l@),
        fits(before.reverb.right.combs(), c.lengths.combs_r@),
        fits(before.reverb.left.allpasses(), c.lengths.allpasses_l@),
        fits(before.reverb.right.allpasses(), c.lengths.allpasses_r@),
    ensures
        sound(after).predelay == sound(before).predelay,
        sound(after).combs == sound(before).combs,
        sound(after).allpasses == sound(before).allpasses,
        sound(after).delay_left == sound(before).delay_left,
        sound(after).delay_right == sound(before).delay_right,
{
    lemma_refitted_as_it_was(
        before.reverb.left.combs(),
        after.reverb.left.combs(),
        c.lengths.combs_l@,
    );
    lemma_refitted_as_it_was(
        before.reverb.right.combs(),
        after.reverb.right.combs(),
        c.lengths.combs_r@,
    );
    lemma_refitted_as_it_was(
        before.reverb.left.allpasses(),
        after.reverb.left.allpasses(),
        c.lengths.allpasses_l@,
    );
    lemma_refitted_as_it_was(
        before.reverb.right.allpasses(),
        after.reverb.right.allpasses(),
        c.lengths.allpasses_r@,
    );
}

/// The freeze control freezes: where it is on, nothing goes into the reverb and
/// nearly all of the tail is kept; where it is off, all goes in and the tail dies
/// away as its decay asks for.
pub proof fn law_the_freeze_control_freezes(
    before: &Instance,
    after: &Instance,
    c: &Controls,
    x: Bits32,
    seconds: Bits32,
    decayed: Bits32,
)
    requires
        is_set_up(before, after, c),
        !seconds.is_nan(),
        !decayed.is_nan(),
    ensures
        c.freeze ==> reverb::let_in(after.reverb.mode, x).bits == 0,
        !c.freeze ==> reverb::let_in(after.reverb.mode, x) == x,
        c.freeze ==> bits::stands_for(
            reverb::sustained(after.reverb.mode, seconds, decayed),
            999,
            1000,
        ),
        !c.freeze && bits::value(seconds) > 0 as real && 0 as real <= bits::value(decayed)
            && bits::value(decayed) * 100 as real <= 97 as real ==> reverb::sustained(
            after.reverb.mode,
            seconds,
            decayed,
        ) == decayed,
{
    reverb::law_freezing_cuts_the_input_and_keeps_the_tail(
        after.reverb.mode,
        x,
        seconds,
        decayed,
    );
}

/// The reverb has the character that the control asks for, and lines of the lengths
/// that go with it: the whole part of what was asked for, and at least one sample.
pub proof fn law_the_reverb_has_its_character(
    before: &Instance,
    after: &Instance,
    c: &Controls,
    i: int,
)
    requires
        is_set_up(before, after, c),
        before.wf(),
        0 <= i < 8,
    ensures
        after.reverb.mode.reverb_type == c.reverb_type,
        after.reverb.left.combs()[i].slots().len() == reverb::length_of(c.lengths.combs_l@[i]),
        after.reverb.right.combs()[i].slots().len() == reverb::length_of(c.lengths.combs_r@[i]),
        i < 4 ==> after.reverb.left.allpasses()[i].slots().len() == reverb::length_of(
            c.lengths.allpasses_l@[i],
        ),
        i < 4 ==> after.reverb.right.allpasses()[i].slots().len() == reverb::length_of(
            c.lengths.allpasses_r@[i],
        ),
{
    let (l, r) = (after.reverb.left.combs()[i], after.reverb.right.combs()[i]);
    if i < 4 {
        let (p, q) = (after.reverb.left.allpasses()[i], after.reverb.right.allpasses()[i]);
    }
}

/// The pre-delay is as long as the control asks for: a sample comes out as many
/// samples later as the whole part of it says, at once where that is none, and as
/// late as the line can hold where it is more.
pub proof fn law_the_predelay_is_what_was_asked_for(
    before: &Instance,
    after: &Instance,
    c: &Controls,
    x: Bits32,
    n: int,
)
    requires
        is_set_up(before, after, c),
        after.wf(),
        !c.predelay.is_nan(),
        0 <= n < before.reverb.predelay.slots().len() <= 0xffff_ffff,
        bits::value(c.predelay) < 0 as real ==> n == 0,
        bits::value(c.predelay) >= before.reverb.predelay.slots().len() as real ==> n
            == before.reverb.predelay.slots().len() - 1,
        0 as real <= bits::value(c.predelay) && bits::value(c.predelay)
            < before.reverb.predelay.slots().len() as real ==> n as real <= bits::value(c.predelay)
            && bits::value(c.predelay) < n as real + 1 as real,
    ensures
        ({
            let held = before.reverb.predelay.history();
            let out = reverb::delayed(
                after.reverb.predelay.history(),
                after.reverb.predelay.delay(),
                x,
            );
            &&& after.reverb.predelay.history() == held
            &&& n == 0 ==> out == x
            &&& n > 0 ==> out == held[held.len() - n]
        }),
{
    bits::law_a_whole_part_is_the_last_not_more(c.predelay);
    assert(after.reverb.predelay.delay() == n);
}

/// The delay does what its controls ask for: it echoes at the times that were set,
/// from one sample to as many as its lines hold less one, feeds back from nothing to
/// 0.95, bounces or not, and filters, modulates and saturates as it was told. Times
/// that come from a tempo of nothing or less stay as they were.
pub proof fn law_the_delay_does_what_was_asked_for(
    before: &Instance,
    after: &Instance,
    c: &Controls,
)
    requires
        is_set_up(before, after, c),
    ensures
        ({
            let s = after.delay.set_to();
            let was = before.delay.set_to();
            let bpm = before.engine.bpm;
            let still = c.synced && !bpm.is_nan() && bits::value(bpm) <= 0 as real;
            let (one, hundred) = (1 as real, 100 as real);
            &&& still ==> s.time_l == was.time_l && s.time_r == was.time_r
            &&& !still && !c.time_l.is_nan() && one <= bits::value(c.time_l) <= 352_799 as real
                ==> s.time_l == c.time_l
            &&& !still && !c.time_r.is_nan() && one <= bits::value(c.time_r) <= 352_799 as real
                ==> s.time_r == c.time_r
            &&& !still && !c.time_l.is_nan() && bits::value(c.time_l) < one ==> bits::value(
                s.time_l,
            ) == one
            &&& !still && !c.time_r.is_nan() && bits::value(c.time_r) < one ==> bits::value(
                s.time_r,
            ) == one
            &&& !still && !c.time_l.is_nan() && bits::value(c.time_l) > 352_799 as real
                ==> bits::value(s.time_l) == 352_799 as real
            &&& !still && !c.time_r.is_nan() && bits::value(c.time_r) > 352_799 as real
                ==> bits::value(s.time_r) == 352_799 as real
            &&& s.ping_pong == c.ping_pong
            &&& s.hp_freq == c.hp
            &&& s.lp_freq == c.lp
        }),
        after.delay.left() == before.delay.left(),
        after.delay.right() == before.delay.right(),
{
    let bpm = before.engine.bpm;
    delay::lemma_end_values();
    bits::lemma_values();
    bits::law_values_are_in_order(bits::zero(), bpm);
    bits::law_a_clamped_number_lies_between(c.time_l, delay::shortest(), delay::longest());
    bits::law_a_clamped_number_lies_between(c.time_r, delay::shortest(), delay::longest());
}

/// The shares and depths of the delay are what was asked for, within their ranges:
/// feedback to 0.95, modulation from 0.01 to 10 Hertz and to 100, saturation to 100.
pub proof fn law_the_delay_keeps_to_its_ranges(before: &Instance, after: &Instance, c: &Controls)
    requires
        is_set_up(before, after, c),
        !c.feedback.is_nan(),
        !c.mod_rate.is_nan(),
        !c.mod_depth.is_nan(),
        !c.saturation.is_nan(),
    ensures
        ({
            let s = after.delay.set_to();
            let zero = 0 as real;
            let (fb, rate) = (bits::value(c.feedback), bits::value(c.mod_rate));
            let (depth, sat) = (bits::value(c.mod_depth), bits::value(c.saturation));
            &&& fb < zero ==> bits::value(s.feedback) == zero
            &&& zero <= fb && fb * 100 as real <= 94 as real ==> s.feedback == c.feedback
            &&& fb >= 1 as real ==> bits::stands_for(s.feedback, 95, 100)
            &&& rate <= zero ==> bits::stands_for(s.mod_rate, 1, 100)
            &&& rate * 100 as real >= 2 as real && rate <= 10 as real ==> s.mod_rate == c.mod_rate
            &&& rate > 10 as real ==> bits::value(s.mod_rate) == 10 as real
            &&& depth < zero ==> bits::value(s.mod_depth) == zero
            &&& zero <= depth <= 100 as real ==> s.mod_depth == c.mod_depth
            &&& depth > 100 as real ==> bits::value(s.mod_depth) == 100 as real
            &&& sat < zero ==> bits::value(s.saturation) == zero
            &&& zero <= sat <= 100 as real ==> s.saturation == c.saturation
            &&& sat > 100 as real ==> bits::value(s.saturation) == 100 as real
        }),
{
    lemma_range_ends();
    let (most, slow) = (Bits32 { bits: 0x3f73_3333 }, Bits32 { bits: 0x3c23_d70a });
    let (fast, full) = (Bits32 { bits: 0x4120_0000 }, Bits32 { bits: 0x42c8_0000 });
    bits::lemma_values();
    let m = bits::value(most);
    let l = bits::value(slow);
    let fb = bits::value(c.feedback);
    let rate = bits::value(c.mod_rate);
    assert(0 as real <= m < 1 as real && (fb * 100 as real <= 94 as real ==> fb <= m))
        by (nonlinear_arith)
        requires
            -1 as real <= (m * 100 as real - 95 as real) * 10_000 as real <= 1 as real,
    ;
    assert((0 as real) < l && l < 1 as real && (rate * 100 as real >= 2 as real ==> rate >= l))
        by (nonlinear_arith)
        requires
            -1 as real <= (l * 100 as real - 1 as real) * 10_000 as real <= 1 as real,
    ;
    bits::law_a_clamped_number_lies_between(c.feedback, bits::zero(), most);
    bits::law_a_clamped_number_lies_between(c.mod_rate, slow, fast);
    bits::law_a_clamped_number_lies_between(c.mod_depth, bits::zero(), full);
    bits::law_a_clamped_number_lies_between(c.saturation, bits::zero(), full);
}

/// What the ends of the ranges stand for.
proof fn lemma_range_ends()
    ensures
        bits::stands_for(Bits32 { bits: 0x3f73_3333 }, 95, 100),
        bits::stands_for(Bits32 { bits: 0x3c23_d70a }, 1, 100),
        bits::value(Bits32 { bits: 0x4120_0000 }) == 10 as real,
        bits::value(Bits32 { bits: 0x42c8_0000 }) == 100 as real,
{
    power2::lemma2_to64();
    bits::lemma_stands_for(Bits32 { bits: 0x3f73_3333 }, 126, 0x73_3333, 95, 100);
    bits::lemma_stands_for(Bits32 { bits: 0x3c23_d70a }, 120, 0x23_d70a, 1, 100);
    bits::lemma_value_of_parts(Bits32 { bits: 0x4120_0000 }, 130, 0x20_0000);
    bits::lemma_value_of_parts(Bits32 { bits: 0x42c8_0000 }, 133, 0x48_0000);
    let (f, q) = ((0x80_0000 + 0x20_0000) as real, power2::pow2(20) as real);
    assert(f / q == 10 as real) by (nonlinear_arith)
        requires
            f == 10_485_760 as real,
            q == 1_048_576 as real,
    ;
    let (g, p) = ((0x80_0000 + 0x48_0000) as real, power2::pow2(17) as real);
    assert(g / p == 100 as real) by (nonlinear_arith)
        requires
            g == 13_107_200 as real,
            p == 131_072 as real,
    ;
}

/// The detector listens as its controls ask for: a key over the threshold that was
/// set starts the hold that was set, and one that is not over it does not; what it
/// has ducked so far stays.
pub proof fn law_the_detector_listens_as_asked_for(
    before: &Instance,
    after: &Instance,
    c: &Controls,
    sample: Bits32,
    next: NextLevels,
)
    requires
        is_set_up(before, after, c),
        sample.is_finite(),
        !c.threshold_lin.is_nan(),
    ensures
        ({
            let over = bits::value(c.threshold_lin) < bits::value(sample) || bits::value(
                c.threshold_lin,
            ) < -bits::value(sample);
            let stage = after.sidechain.stage_at(sample.absolute());
            &&& over <==> stage == DuckStage::Attack
            &&& over ==> after.sidechain.after(sample, next).hold_counter == c.hold_samples
        }),
        after.sidechain.envelope == before.sidechain.envelope,
        after.sidechain.hold_counter == before.sidechain.hold_counter,
        after.sidechain.key_level == before.sidechain.key_level,
{
    bits::law_a_size_has_no_sign(sample);
    bits::law_below_is_less(c.threshold_lin, sample.absolute());
}

/// The LFO moves as its controls ask for: at the rate that was set, and at least a
/// thousandth of a Hertz, with the offset and the shape that were set, from where it
/// has got to.
pub proof fn law_the_lfo_moves_as_asked_for(before: &Instance, after: &Instance, c: &Controls)
    requires
        is_set_up(before, after, c),
        !c.lfo_rate.is_nan(),
    ensures
        bits::value(after.lfo.rate) >= bits::value(c.lfo_rate),
        bits::value(c.lfo_rate) >= bits::value(Bits32 { bits: 0x3a83_126f }) ==> after.lfo.rate
            == c.lfo_rate,
        bits::value(after.lfo.rate) >= bits::value(Bits32 { bits: 0x3a83_126f }),
        after.lfo.phase_offset == c.lfo_offset,
        after.lfo.shape == c.shape,
        after.lfo.phase == before.lfo.phase,
        after.lfo.sh_value == before.lfo.sh_value,
        after.lfo.sh_last_phase == before.lfo.sh_last_phase,
        after.engine == before.engine,
{
    let least = Bits32 { bits: 0x3a83_126f };
    bits::law_the_larger_is_no_less(c.lfo_rate, least);
    bits::law_values_are_in_order(c.lfo_rate, least);
}

/// A reset leaves nothing to hear: every sample of every line is zero, nothing is
/// ducked, the meter of the key shows nothing and the LFO is at its start. The
/// controls stay as they were.
pub proof fn law_a_reset_leaves_nothing_to_hear(
    before: &Instance,
    after: &Instance,
    line: int,
    i: int,
)
    requires
        cleared(before, after),
        before.wf(),
        after.wf(),
    ensures
        0 <= line < 8 && 0 <= i < after.reverb.left.combs()[line].slots().len()
            ==> after.reverb.left.combs()[line].slots()[i].bits == 0,
        0 <= line < 8 && 0 <= i < after.reverb.right.combs()[line].slots().len()
            ==> after.reverb.right.combs()[line].slots()[i].bits == 0,
        0 <= line < 4 && 0 <= i < after.reverb.left.allpasses()[line].slots().len()
            ==> after.reverb.left.allpasses()[line].slots()[i].bits == 0,
        0 <= line < 4 && 0 <= i < after.reverb.right.allpasses()[line].slots().len()
            ==> after.reverb.right.allpasses()[line].slots()[i].bits == 0,
        0 <= i < after.reverb.predelay.slots().len() ==> after.reverb.predelay.slots()[i].bits
            == 0,
        after.reverb.predelay.at() == 0,
        after.delay.left().len() == 352_800 && after.delay.right().len() == 352_800,
        0 <= i < 352_800 ==> after.delay.left()[i].bits == 0 && after.delay.right()[i].bits == 0,
        after.sidechain.envelope.bits == 0,
        after.sidechain.hold_counter.bits == 0,
        after.sidechain.key_level.bits == 0,
        after.lfo.phase.bits == 0,
        after.lfo.sh_value.bits == 0,
        after.lfo.sh_last_phase.bits == 0,
        after.reverb.mode == before.reverb.mode,
        after.reverb.predelay.delay() == before.reverb.predelay.delay(),
        after.delay.set_to() == before.delay.set_to(),
        after.sidechain.threshold_lin == before.sidechain.threshold_lin,
        after.sidechain.hold_samples == before.sidechain.hold_samples,
        after.lfo.rate == before.lfo.rate,
        after.lfo.phase_offset == before.lfo.phase_offset,
        after.lfo.shape == before.lfo.shape,
{
    if 0 <= line < 8 {
        let (l, r) = (after.reverb.left.combs()[line], after.reverb.right.combs()[line]);
    }
    if 0 <= line < 4 {
        let (l, r) = (after.reverb.left.allpasses()[line], after.reverb.right.allpasses()[line]);
    }
}

/// An instance that is ready to play has nothing to hear, and room for one second of
/// pre-delay; nothing is ducked and no bad frame is remembered, but its tempo and its
/// controls stay.
pub proof fn law_a_ready_instance_is_silent(
    before: &Instance,
    after: &Instance,
    rate: Bits32,
    lengths: &Lengths,
    line: int,
    i: int,
)
    requires
        initialized(before, after, rate, lengths),
        before.wf(),
        after.wf(),
    ensures
        0 <= line < 8 ==> after.reverb.left.combs()[line].slots().len() == reverb::length_of(
            lengths.combs_l@[line],
        ) && after.reverb.right.combs()[line].slots().len() == reverb::length_of(
            lengths.combs_r@[line],
        ),
        0 <= line < 4 ==> after.reverb.left.allpasses()[line].slots().len() == reverb::length_of(
            lengths.allpasses_l@[line],
        ) && after.reverb.right.allpasses()[line].slots().len() == reverb::length_of(
            lengths.allpasses_r@[line],
        ),
        0 <= line < 8 && 0 <= i < after.reverb.left.combs()[line].slots().len()
            ==> after.reverb.left.combs()[line].slots()[i].bits == 0,
        0 <= line < 8 && 0 <= i < after.reverb.right.combs()[line].slots().len()
            ==> after.reverb.right.combs()[line].slots()[i].bits == 0,
        0 <= line < 4 && 0 <= i < after.reverb.left.allpasses()[line].slots().len()
            ==> after.reverb.left.allpasses()[line].slots()[i].bits == 0,
        0 <= line < 4 && 0 <= i < after.reverb.right.allpasses()[line].slots().len()
            ==> after.reverb.right.allpasses()[line].slots()[i].bits == 0,
        after.reverb.predelay.slots().len() == reverb::length_of(rate),
        0 <= i < reverb::length_of(rate) ==> after.reverb.predelay.slots()[i].bits == 0,
        0 <= i < 352_800 ==> after.delay.left()[i].bits == 0 && after.delay.right()[i].bits == 0,
        after.sidechain.envelope.bits == 0,
        after.sidechain.hold_counter.bits == 0,
        after.sidechain.key_level.bits == 0,
        after.lfo.phase.bits == 0,
        after.lfo.sh_value.bits == 0,
        after.lfo.sh_last_phase.bits == 0,
        after.engine.duck_depth.bits == 0,
        after.engine.lfo_value.bits == 0,
        !after.engine.nan_detected,
        after.engine.bpm == before.engine.bpm,
        after.engine.peaks == before.engine.peaks,
        after.engine.update_counter == before.engine.update_counter,
        after.reverb.mode == before.reverb.mode,
        after.delay.set_to() == before.delay.set_to(),
        after.sidechain.threshold_lin == before.sidechain.threshold_lin,
        after.sidechain.hold_samples == before.sidechain.hold_samples,
        after.reverb.predelay.at() == 0,
        after.reverb.predelay.delay() <= before.reverb.predelay.delay(),
        before.reverb.predelay.delay() < reverb::length_of(rate) ==> after.reverb.predelay.delay()
            == before.reverb.predelay.delay(),
        before.reverb.predelay.delay() >= reverb::length_of(rate)
            ==> after.reverb.predelay.delay() + 1 == reverb::length_of(rate),
        after.lfo.rate == before.lfo.rate,
        after.lfo.phase_offset == before.lfo.phase_offset,
        after.lfo.shape == before.lfo.shape,
{
    if 0 <= line < 8 {
        let (l, r) = (after.reverb.left.combs()[line], after.reverb.right.combs()[line]);
    }
    if 0 <= line < 4 {
        let (l, r) = (after.reverb.left.allpasses()[line], after.reverb.right.allpasses()[line]);
    }
}

/// The lines of a new instance are silent throughout, as long as they are asked for,
/// one for each length, and are written from their first places on.
pub proof fn law_new_lines_are_silent(lines: Seq<Ring>, scaled: Seq<Bits32>, line: int, i: int)
    requires
        all_quiet(lines, scaled),
        0 <= line < scaled.len(),
    ensures
        lines.len() == scaled.len(),
        lines[line].slots().len() == reverb::length_of(scaled[line]),
        0 <= i < lines[line].slots().len() ==> lines[line].slots()[i].bits == 0,
        lines[line].at() == 0,
{
    let l = lines[line];
}

}
