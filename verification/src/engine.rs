//! What the plug-in decides for every buffer and every frame of audio, around
//! the arithmetic of its effects: what is skipped, which signal is the key,
//! what the LFO moves, what may leave the plug-in, and when the editor hears of
//! it.

use vstd::arithmetic::power2;
use vstd::prelude::*;

use crate::bits;
use crate::bits::Bits32;
use crate::dsp::lfo;
use crate::dsp::lfo::Shape;
use crate::dsp::reverb;
use crate::dsp::reverb::ReverbType;
use crate::params;
use crate::params::{LfoTarget, ScSource, WettBoiParams};
use crate::protocol::WbPacket;

verus! {

/// A packet goes to the editor once in so many buffers: about 15 times a second.
pub const BUFFERS_PER_PACKET: u32 = 4;

/// What the meters show.
#[derive(Clone, Copy, Debug, PartialEq, Eq, Structural)]
pub struct Peaks {
    pub input_l: Bits32,
    pub input_r: Bits32,
    pub output_l: Bits32,
    pub output_r: Bits32,
}

/// What the plug-in remembers from buffer to buffer, besides its effects.
#[derive(Clone, Copy, Debug, PartialEq, Eq, Structural)]
pub struct Engine {
    pub bpm: Bits32,
    pub duck_depth: Bits32,
    pub lfo_value: Bits32,
    /// A frame of this buffer came out of the effects as something that is not
    /// a finite number.
    pub nan_detected: bool,
    pub peaks: Peaks,
    /// Buffers since the last packet.
    pub update_counter: u32,
}

/// The delay times that the controls ask for.
#[derive(Clone, Copy, Debug, PartialEq, Eq, Structural)]
pub enum DelayTimes {
    /// In beats, at the tempo of the host.
    Beats { l: Bits32, r: Bits32 },
    /// In milliseconds.
    Millis { l: Bits32, r: Bits32 },
}

/// How the effects are set up for a buffer.
#[derive(Clone, Copy, Debug, PartialEq, Eq, Structural)]
pub struct Setup {
    pub reverb_type: ReverbType,
    pub freeze: bool,
    pub shape: Shape,
    pub ping_pong: bool,
    pub times: DelayTimes,
}

/// A set-up that does what the parameters ask for.
pub open spec fn is_setup(p: WettBoiParams, r: Setup) -> bool {
    &&& r.reverb_type == reverb::same_type(p.rev_type)
    &&& r.freeze == p.rev_freeze
    &&& r.shape == lfo::same_shape(p.lfo_shape)
    &&& r.ping_pong == p.dly_ping_pong
    &&& match r.times {
        DelayTimes::Beats { l, r } => {
            &&& p.dly_sync
            &&& l.worth() * 4 == p.dly_note_l.sixteenths() * bits::one().worth()
            &&& r.worth() * 4 == p.dly_note_r.sixteenths() * bits::one().worth()
        },
        DelayTimes::Millis { l, r } => !p.dly_sync && l == p.dly_time_l && r == p.dly_time_r,
    }
}

/// How the effects are set up for a buffer.
pub fn set_up(p: &WettBoiParams) -> (r: Setup)
    ensures
        is_setup(*p, r),
        r.reverb_type == reverb::same_type(p.rev_type),
        r.freeze == p.rev_freeze,
        r.shape == lfo::same_shape(p.lfo_shape),
        r.ping_pong == p.dly_ping_pong,
        match r.times {
            DelayTimes::Beats { l, r } => {
                &&& p.dly_sync
                &&& l.worth() * 4 == p.dly_note_l.sixteenths() * bits::one().worth()
                &&& r.worth() * 4 == p.dly_note_r.sixteenths() * bits::one().worth()
            },
            DelayTimes::Millis { l, r } => !p.dly_sync && l == p.dly_time_l && r == p.dly_time_r,
        },
{
    let times = if p.dly_sync {
        DelayTimes::Beats { l: p.dly_note_l.beats(), r: p.dly_note_r.beats() }
    } else {
        DelayTimes::Millis { l: p.dly_time_l, r: p.dly_time_r }
    };
    Setup {
        reverb_type: reverb::reverb_type_of(p.rev_type),
        freeze: p.rev_freeze,
        shape: lfo::shape_of(p.lfo_shape),
        ping_pong: p.dly_ping_pong,
        times,
    }
}

/// The host gives the plug-in a key.
pub open spec fn gives_a_key(ports: int, channels: int) -> bool {
    ports > 0 && channels >= 2
}

/// The pair of samples whose mean is the key.
pub open spec fn key_of(
    source: ScSource,
    connected: bool,
    side: (Option<Bits32>, Option<Bits32>),
    dry: (Bits32, Bits32),
) -> (Bits32, Bits32) {
    if source == ScSource::Sidechain && connected {
        (
            match side.0 {
                Some(x) => x,
                None => bits::zero(),
            },
            match side.1 {
                Some(x) => x,
                None => bits::zero(),
            },
        )
    } else {
        dry
    }
}

/// Does the host give the plug-in a key? It takes a port with both channels.
pub fn has_sidechain(ports: usize, channels: usize) -> (r: bool)
    ensures
        r == gives_a_key(ports as int, channels as int),
        r == (ports > 0 && channels >= 2),
{
    ports > 0 && channels >= 2
}

/// The pair of samples whose mean is the key: those of the sidechain where it
/// is chosen and there is one, with silence for a sample it lacks, and otherwise
/// those of the input.
pub fn key_pair(
    source: ScSource,
    connected: bool,
    side: (Option<Bits32>, Option<Bits32>),
    dry: (Bits32, Bits32),
) -> (r: (Bits32, Bits32))
    ensures
        r == key_of(source, connected, side, dry),
        source == ScSource::Sidechain && connected ==> r.0 == (match side.0 {
            Some(x) => x,
            None => bits::zero(),
        }) && r.1 == (match side.1 {
            Some(x) => x,
            None => bits::zero(),
        }),
        !(source == ScSource::Sidechain && connected) ==> r == dry,
{
    match source {
        ScSource::Sidechain => {
            if connected {
                let l = match side.0 {
                    Some(x) => x,
                    None => Bits32 { bits: 0 },
                };
                let r = match side.1 {
                    Some(x) => x,
                    None => Bits32 { bits: 0 },
                };
                (l, r)
            } else {
                dry
            }
        },
        ScSource::Internal => dry,
    }
}

/// What the LFO can move, each moved as far as the LFO asks for.
#[derive(Clone, Copy, Debug, PartialEq, Eq, Structural)]
pub struct Moved {
    pub rev_wet: Bits32,
    pub dly_wet: Bits32,
    pub feedback: Bits32,
    pub lowpass: Bits32,
}

/// What the LFO moves.
#[derive(Clone, Copy, Debug, PartialEq, Eq, Structural)]
pub struct Modulation {
    pub rev_wet: Bits32,
    pub dly_wet: Bits32,
    /// The feedback of the delay in percent, where it is moved.
    pub feedback: Option<Bits32>,
    /// The low-pass of the delay in Hertz, where it is moved.
    pub lowpass: Option<Bits32>,
}

/// What the LFO moves: its target and nothing else. A level is kept from 0 to 1,
/// the feedback from 0 to 95 percent, the low-pass from 1 to 20 kilohertz.
pub open spec fn modulation_of(
    target: LfoTarget,
    rev_wet: Bits32,
    dly_wet: Bits32,
    moved: Moved,
) -> Modulation {
    Modulation {
        rev_wet: if target == LfoTarget::RevWet {
            moved.rev_wet.clamped(bits::zero(), bits::one())
        } else {
            rev_wet
        },
        dly_wet: if target == LfoTarget::DlyWet {
            moved.dly_wet.clamped(bits::zero(), bits::one())
        } else {
            dly_wet
        },
        feedback: if target == LfoTarget::DlyFeedback {
            Some(moved.feedback.clamped(bits::zero(), Bits32 { bits: 0x42be_0000 }))
        } else {
            None
        },
        lowpass: if target == LfoTarget::Filter {
            Some(
                moved.lowpass.clamped(Bits32 { bits: 0x447a_0000 }, Bits32 { bits: 0x469c_4000 }),
            )
        } else {
            None
        },
    }
}

/// What the LFO moves.
pub fn modulate(target: LfoTarget, rev_wet: Bits32, dly_wet: Bits32, moved: &Moved) -> (r:
    Modulation)
    ensures
        r == modulation_of(target, rev_wet, dly_wet, *moved),
{
    let none = Bits32 { bits: 0 };
    let one = Bits32 { bits: 0x3f80_0000 };
    let mut r = Modulation { rev_wet, dly_wet, feedback: None, lowpass: None };
    match target {
        LfoTarget::RevWet => {
            r.rev_wet = moved.rev_wet.clamp(none, one);
        },
        LfoTarget::DlyWet => {
            r.dly_wet = moved.dly_wet.clamp(none, one);
        },
        LfoTarget::DlyFeedback => {
            r.feedback = Some(moved.feedback.clamp(none, Bits32 { bits: 0x42be_0000 }));
        },
        LfoTarget::Filter => {
            r.lowpass = Some(
                moved.lowpass.clamp(Bits32 { bits: 0x447a_0000 }, Bits32 { bits: 0x469c_4000 }),
            );
        },
    }
    r
}

/// The lowest sample that leaves the plug-in, -10.
pub open spec fn floor() -> Bits32 {
    Bits32 { bits: 0xc120_0000 }
}

/// The highest sample that leaves the plug-in, 10.
pub open spec fn ceiling() -> Bits32 {
    Bits32 { bits: 0x4120_0000 }
}

/// What leaves the plug-in: what the effects made of a frame, from -10 to 10,
/// or the dry frame where that is not a pair of finite numbers.
pub open spec fn guarded(dry: (Bits32, Bits32), out: (Bits32, Bits32)) -> (Bits32, Bits32) {
    if out.0.is_finite() && out.1.is_finite() {
        (out.0.clamped(floor(), ceiling()), out.1.clamped(floor(), ceiling()))
    } else {
        dry
    }
}

impl Engine {
    /// The packet is never overdue.
    pub open spec fn wf(self) -> bool {
        self.update_counter < BUFFERS_PER_PACKET
    }

    /// One frame later: whether it was no sound is remembered, and the output is
    /// measured.
    pub open spec fn after_leaving(self, dry: (Bits32, Bits32), out: (Bits32, Bits32)) -> Engine {
        let r = guarded(dry, out);
        Engine {
            nan_detected: self.nan_detected || !out.0.is_finite() || !out.1.is_finite(),
            peaks: Peaks {
                output_l: self.peaks.output_l.larger(r.0.absolute()),
                output_r: self.peaks.output_r.larger(r.1.absolute()),
                ..self.peaks
            },
            ..self
        }
    }

    /// One frame taken in: it is measured where it has both channels.
    pub open spec fn after_entering(self, channels: int, dry: (Bits32, Bits32)) -> Engine {
        if channels < 2 {
            self
        } else {
            Engine {
                peaks: Peaks {
                    input_l: self.peaks.input_l.larger(dry.0.absolute()),
                    input_r: self.peaks.input_r.larger(dry.1.absolute()),
                    ..self.peaks
                },
                ..self
            }
        }
    }

    /// What the sidechain and the LFO did is noted.
    pub open spec fn after_observing(self, duck: Bits32, lfo: Option<Bits32>) -> Engine {
        Engine {
            duck_depth: duck,
            lfo_value: match lfo {
                Some(x) => x,
                None => bits::zero(),
            },
            ..self
        }
    }

    /// A plug-in that has heard nothing, at 150 beats a minute.
    pub fn new() -> (r: Engine)
        ensures
            r.wf(),
            r == (Engine {
                bpm: Bits32 { bits: 0x4316_0000 },
                duck_depth: bits::zero(),
                lfo_value: bits::zero(),
                nan_detected: false,
                peaks: Peaks {
                    input_l: bits::zero(),
                    input_r: bits::zero(),
                    output_l: bits::zero(),
                    output_r: bits::zero(),
                },
                update_counter: 0,
            }),
    {
        let none = Bits32 { bits: 0 };
        Engine {
            bpm: Bits32 { bits: 0x4316_0000 },
            duck_depth: none,
            lfo_value: none,
            nan_detected: false,
            peaks: Peaks { input_l: none, input_r: none, output_l: none, output_r: none },
            update_counter: 0,
        }
    }

    /// Get ready to play, with nothing left of what was played before.
    pub fn initialize(&mut self)
        ensures
            *final(self) == (Engine {
                duck_depth: bits::zero(),
                lfo_value: bits::zero(),
                nan_detected: false,
                ..*old(self)
            }),
    {
        self.duck_depth = Bits32 { bits: 0 };
        self.lfo_value = Bits32 { bits: 0 };
        self.nan_detected = false;
    }

    /// Forget what was played. The meters go back to nothing too.
    pub fn reset(&mut self)
        ensures
            *final(self) == (Engine {
                duck_depth: bits::zero(),
                lfo_value: bits::zero(),
                peaks: Peaks {
                    input_l: bits::zero(),
                    input_r: bits::zero(),
                    output_l: bits::zero(),
                    output_r: bits::zero(),
                },
                ..*old(self)
            }),
    {
        let none = Bits32 { bits: 0 };
        self.duck_depth = none;
        self.lfo_value = none;
        self.peaks = Peaks { input_l: none, input_r: none, output_l: none, output_r: none };
    }

    /// Follow the tempo of the host, where it has one.
    pub fn set_tempo(&mut self, tempo: Option<Bits32>)
        ensures
            *final(self) == (match tempo {
                Some(bpm) => Engine { bpm, ..*old(self) },
                None => *old(self),
            }),
    {
        if let Some(bpm) = tempo {
            self.bpm = bpm;
        }
    }

    /// Let the meters fall, to what the caller worked out.
    pub fn fade(&mut self, faded: Peaks)
        ensures
            *final(self) == (Engine { peaks: faded, ..*old(self) }),
    {
        self.peaks = faded;
    }

    /// Take one frame in. Is it to be processed? A frame of fewer than two
    /// channels is not even measured; while bypassed, a frame is only measured.
    pub fn enter(&mut self, channels: usize, dry: (Bits32, Bits32), bypass: bool) -> (r: bool)
        ensures
            r == is_processed(channels as int, bypass),
            *final(self) == old(self).after_entering(channels as int, dry),
            r == (channels >= 2 && !bypass),
            *final(self) == (if channels < 2 {
                *old(self)
            } else {
                Engine {
                    peaks: Peaks {
                        input_l: old(self).peaks.input_l.larger(dry.0.absolute()),
                        input_r: old(self).peaks.input_r.larger(dry.1.absolute()),
                        ..old(self).peaks
                    },
                    ..*old(self)
                }
            }),
    {
        if channels < 2 {
            return false;
        }
        self.peaks.input_l = self.peaks.input_l.max(dry.0.abs());
        self.peaks.input_r = self.peaks.input_r.max(dry.1.abs());
        !bypass
    }

    /// Note what the sidechain and the LFO did. An LFO that is switched off does
    /// nothing. The result is what the LFO did.
    pub fn observe(&mut self, duck: Bits32, lfo: Option<Bits32>) -> (r: Bits32)
        ensures
            *final(self) == old(self).after_observing(duck, lfo),
            r == final(self).lfo_value,
            r == (match lfo {
                Some(x) => x,
                None => bits::zero(),
            }),
            *final(self) == (Engine { duck_depth: duck, lfo_value: r, ..*old(self) }),
    {
        let value = match lfo {
            Some(x) => x,
            None => Bits32 { bits: 0 },
        };
        self.duck_depth = duck;
        self.lfo_value = value;
        value
    }

    /// Let one frame out: what the effects made of it, or the dry frame where
    /// that is no sound.
    pub fn leave(&mut self, dry: (Bits32, Bits32), out: (Bits32, Bits32)) -> (r: (Bits32, Bits32))
        ensures
            r == guarded(dry, out),
            *final(self) == old(self).after_leaving(dry, out),
    {
        let r = if out.0.finite() && out.1.finite() {
            let lo = Bits32 { bits: 0xc120_0000 };
            let hi = Bits32 { bits: 0x4120_0000 };
            (out.0.clamp(lo, hi), out.1.clamp(lo, hi))
        } else {
            self.nan_detected = true;
            dry
        };
        self.peaks.output_l = self.peaks.output_l.max(r.0.abs());
        self.peaks.output_r = self.peaks.output_r.max(r.1.abs());
        r
    }

    /// End a buffer. Are the effects to be reset? They are where a frame of it
    /// came out of them as no sound, so that the next buffer starts clean.
    pub fn end_buffer(&mut self) -> (r: bool)
        ensures
            r == old(self).nan_detected,
            *final(self) == (if r {
                Engine {
                    duck_depth: bits::zero(),
                    lfo_value: bits::zero(),
                    nan_detected: false,
                    ..*old(self)
                }
            } else {
                *old(self)
            }),
            !final(self).nan_detected,
    {
        let r = self.nan_detected;
        if r {
            self.initialize();
        }
        r
    }

    /// Count a buffer. Is a packet due?
    pub fn count(&mut self) -> (r: bool)
        requires
            old(self).wf(),
        ensures
            final(self).wf(),
            r == is_due(old(self).update_counter as int),
            r == (old(self).update_counter + 1 == BUFFERS_PER_PACKET),
            *final(self) == (Engine {
                update_counter: counted(old(self).update_counter as int) as u32,
                ..*old(self)
            }),
    {
        self.update_counter = self.update_counter + 1;
        if self.update_counter >= BUFFERS_PER_PACKET {
            self.update_counter = 0;
            true
        } else {
            false
        }
    }

    /// A packet with everything that was measured since it was drawn up.
    pub fn complete(&self, packet: WbPacket, key_level: Bits32, threshold_lin: Bits32) -> (r:
        WbPacket)
        ensures
            r == (WbPacket {
                sc_duck_depth: self.duck_depth,
                sc_key_level: key_level,
                sc_threshold_lin: threshold_lin,
                lfo_value: self.lfo_value,
                input_peak_l: self.peaks.input_l,
                input_peak_r: self.peaks.input_r,
                output_peak_l: self.peaks.output_l,
                output_peak_r: self.peaks.output_r,
                ..packet
            }),
    {
        let mut r = packet;
        r.sc_duck_depth = self.duck_depth;
        r.sc_key_level = key_level;
        r.sc_threshold_lin = threshold_lin;
        r.lfo_value = self.lfo_value;
        r.input_peak_l = self.peaks.input_l;
        r.input_peak_r = self.peaks.input_r;
        r.output_peak_l = self.peaks.output_l;
        r.output_peak_r = self.peaks.output_r;
        r
    }
}

/// A frame goes through the effects.
pub open spec fn is_processed(channels: int, bypass: bool) -> bool {
    channels >= 2 && !bypass
}

/// A packet goes out with this buffer.
pub open spec fn is_due(n: int) -> bool {
    n + 1 == BUFFERS_PER_PACKET
}

/// Buffers since the last packet, one buffer on.
pub open spec fn counted(n: int) -> int {
    if n + 1 >= BUFFERS_PER_PACKET {
        0
    } else {
        n + 1
    }
}

/// Buffers since the last packet, `more` buffers on.
pub open spec fn counted_on(n: int, more: nat) -> int
    decreases more,
{
    if more == 0 {
        n
    } else {
        counted(counted_on(n, (more - 1) as nat))
    }
}

/// A packet goes out with every fourth buffer, and with no other.
pub proof fn law_every_fourth_buffer_sends(more: nat)
    ensures
        counted_on(0, more) == more % 4,
    decreases more,
{
    if more > 0 {
        law_every_fourth_buffer_sends((more - 1) as nat);
    }
}

/// A frame: what came in, and what the effects made of it.
pub struct Frame {
    pub dry: (Bits32, Bits32),
    pub out: (Bits32, Bits32),
}

/// After some frames.
pub open spec fn after_frames(e: Engine, frames: Seq<Frame>) -> Engine
    decreases frames.len(),
{
    if frames.len() == 0 {
        e
    } else {
        after_frames(e, frames.drop_last()).after_leaving(frames.last().dry, frames.last().out)
    }
}

/// The effects made no sound of a frame.
pub open spec fn is_bad(frame: Frame) -> bool {
    !frame.out.0.is_finite() || !frame.out.1.is_finite()
}

/// One bad frame is enough to have the effects reset at the end of the buffer,
/// and without one they are not.
pub proof fn law_one_bad_frame_is_enough(e: Engine, frames: Seq<Frame>)
    requires
        !e.nan_detected,
    ensures
        after_frames(e, frames).nan_detected <==> exists|i: int|
            0 <= i < frames.len() && is_bad(#[trigger] frames[i]),
    decreases frames.len(),
{
    if frames.len() > 0 {
        let less = frames.drop_last();
        law_one_bad_frame_is_enough(e, less);
        if exists|i: int| 0 <= i < less.len() && is_bad(#[trigger] less[i]) {
            let i = choose|i: int| 0 <= i < less.len() && is_bad(#[trigger] less[i]);
            assert(frames[i] == less[i]);
        }
        if exists|i: int| 0 <= i < frames.len() && is_bad(#[trigger] frames[i]) {
            let i = choose|i: int| 0 <= i < frames.len() && is_bad(#[trigger] frames[i]);
            if i < less.len() {
                assert(less[i] == frames[i]);
            }
        }
        assert(frames[frames.len() - 1] == frames.last());
    }
}

/// The meters show the loudest: no frame of a buffer left the plug-in louder
/// than they say at its end.
pub proof fn law_the_meters_show_the_loudest(e: Engine, frames: Seq<Frame>, i: int)
    requires
        !e.peaks.output_l.is_nan(),
        !e.peaks.output_r.is_nan(),
        0 <= i < frames.len(),
    ensures
        ({
            let peaks = after_frames(e, frames).peaks;
            let left = guarded(frames[i].dry, frames[i].out);
            &&& !peaks.output_l.is_below(left.0.absolute())
            &&& !peaks.output_r.is_below(left.1.absolute())
        }),
    decreases frames.len(),
{
    let less = frames.drop_last();
    lemma_meters_are_numbers(e, less);
    if i < less.len() {
        law_the_meters_show_the_loudest(e, less, i);
    }
}

/// A meter never shows what is not a number.
proof fn lemma_meters_are_numbers(e: Engine, frames: Seq<Frame>)
    requires
        !e.peaks.output_l.is_nan(),
        !e.peaks.output_r.is_nan(),
    ensures
        !after_frames(e, frames).peaks.output_l.is_nan(),
        !after_frames(e, frames).peaks.output_r.is_nan(),
    decreases frames.len(),
{
    if frames.len() > 0 {
        lemma_meters_are_numbers(e, frames.drop_last());
    }
}

/// Nothing but sound leaves the plug-in: where the dry frame is finite, so is
/// what leaves, and it is no louder than 10 or it is the dry frame itself.
pub proof fn law_nothing_but_sound_leaves(dry: (Bits32, Bits32), out: (Bits32, Bits32))
    requires
        dry.0.is_finite(),
        dry.1.is_finite(),
    ensures
        guarded(dry, out).0.is_finite(),
        guarded(dry, out).1.is_finite(),
        guarded(dry, out) == dry || (guarded(dry, out).0.is_within(floor(), ceiling()) && guarded(
            dry,
            out,
        ).1.is_within(floor(), ceiling())),
{
    bits::law_rank_is_the_order(floor(), ceiling());
    assert(floor().rank() < ceiling().rank());
}

/// What the effects made of a frame leaves untouched where it is finite and no
/// louder than 10.
pub proof fn law_sound_leaves_untouched(dry: (Bits32, Bits32), out: (Bits32, Bits32))
    requires
        out.0.is_finite(),
        out.1.is_finite(),
        out.0.is_within(floor(), ceiling()),
        out.1.is_within(floor(), ceiling()),
    ensures
        guarded(dry, out) == out,
{
}

/// What the ends stand for.
proof fn lemma_ends()
    ensures
        bits::value(floor()) == -10 as real,
        bits::value(ceiling()) == 10 as real,
        bits::value(Bits32 { bits: 0x42be_0000 }) == 95 as real,
        bits::value(Bits32 { bits: 0x447a_0000 }) == 1000 as real,
        bits::value(Bits32 { bits: 0x469c_4000 }) == 20_000 as real,
{
    power2::lemma2_to64();
    bits::lemma_value_of_parts(floor(), 130, 0x20_0000);
    bits::lemma_value_of_parts(ceiling(), 130, 0x20_0000);
    bits::lemma_value_of_parts(Bits32 { bits: 0x42be_0000 }, 133, 0x3e_0000);
    bits::lemma_value_of_parts(Bits32 { bits: 0x447a_0000 }, 136, 0x7a_0000);
    bits::lemma_value_of_parts(Bits32 { bits: 0x469c_4000 }, 141, 0x1c_4000);
    let (a, p) = ((0x80_0000 + 0x20_0000) as real, power2::pow2(20) as real);
    assert(a / p == 10 as real) by (nonlinear_arith)
        requires
            a == 10_485_760 as real,
            p == 1_048_576 as real,
    ;
    let (b, q) = ((0x80_0000 + 0x3e_0000) as real, power2::pow2(17) as real);
    assert(b / q == 95 as real) by (nonlinear_arith)
        requires
            b == 12_451_840 as real,
            q == 131_072 as real,
    ;
    let (c, r) = ((0x80_0000 + 0x7a_0000) as real, power2::pow2(14) as real);
    assert(c / r == 1000 as real) by (nonlinear_arith)
        requires
            c == 16_384_000 as real,
            r == 16_384 as real,
    ;
    let (d, s) = ((0x80_0000 + 0x1c_4000) as real, power2::pow2(9) as real);
    assert(d / s == 20_000 as real) by (nonlinear_arith)
        requires
            d == 10_240_000 as real,
            s == 512 as real,
    ;
}

/// What leaves on a side is what the effects made, from -10 to 10: itself where it
/// lies there, and the nearer end where it does not. Where either side is no number,
/// or infinite, both sides are the dry ones.
pub proof fn law_what_leaves_is_what_was_made(dry: (Bits32, Bits32), out: (Bits32, Bits32))
    ensures
        ({
            let r = guarded(dry, out);
            let ten = 10 as real;
            let (l, x) = (bits::value(out.0), bits::value(out.1));
            &&& !out.0.is_finite() || !out.1.is_finite() ==> r == dry
            &&& out.0.is_finite() && out.1.is_finite() ==> {
                &&& -ten <= l <= ten ==> r.0 == out.0
                &&& -ten <= x <= ten ==> r.1 == out.1
                &&& l > ten ==> bits::value(r.0) == ten
                &&& l < -ten ==> bits::value(r.0) == -ten
                &&& x > ten ==> bits::value(r.1) == ten
                &&& x < -ten ==> bits::value(r.1) == -ten
            }
        }),
{
    lemma_ends();
    bits::law_a_clamped_number_lies_between(out.0, floor(), ceiling());
    bits::law_a_clamped_number_lies_between(out.1, floor(), ceiling());
}

/// A meter shows the larger of what it showed and the size of the sample: the output
/// meters that of what leaves, the input meters that of what comes in. A frame of
/// fewer than two channels is not measured, and no frame changes anything else but
/// whether a bad one was seen.
pub proof fn law_a_meter_shows_the_larger(
    e: Engine,
    channels: int,
    dry: (Bits32, Bits32),
    out: (Bits32, Bits32),
)
    ensures
        ({
            let i = e.after_entering(channels, dry);
            let o = e.after_leaving(dry, out);
            let r = guarded(dry, out);
            &&& channels < 2 ==> i == e
            &&& channels >= 2 ==> i.peaks.input_l == e.peaks.input_l.larger(dry.0.absolute())
                && i.peaks.input_r == e.peaks.input_r.larger(dry.1.absolute())
            &&& i.peaks.output_l == e.peaks.output_l && i.peaks.output_r == e.peaks.output_r
            &&& o.peaks.output_l == e.peaks.output_l.larger(r.0.absolute())
            &&& o.peaks.output_r == e.peaks.output_r.larger(r.1.absolute())
            &&& o.peaks.input_l == e.peaks.input_l && o.peaks.input_r == e.peaks.input_r
            &&& i.bpm == e.bpm && i.duck_depth == e.duck_depth && i.lfo_value == e.lfo_value
                && i.nan_detected == e.nan_detected && i.update_counter == e.update_counter
            &&& o.bpm == e.bpm && o.duck_depth == e.duck_depth && o.lfo_value == e.lfo_value
                && o.update_counter == e.update_counter
            &&& o.nan_detected <==> e.nan_detected || !out.0.is_finite() || !out.1.is_finite()
        }),
{
}

/// A frame is processed where it has two channels or more and the plug-in is not
/// bypassed, and a packet goes out with every fourth buffer.
pub proof fn law_bypass_and_mono_pass_by(channels: int, bypass: bool, n: int)
    ensures
        bypass ==> !is_processed(channels, bypass),
        channels < 2 ==> !is_processed(channels, bypass),
        channels >= 2 && !bypass ==> is_processed(channels, bypass),
        0 <= n < 3 ==> !is_due(n) && counted(n) == n + 1,
        n == 3 ==> is_due(n) && counted(n) == 0,
{
}

/// The key is the sidechain where it is chosen and there is one, sample for sample,
/// and silence where it lacks one; otherwise it is the input itself.
pub proof fn law_the_key_is_what_was_chosen(
    source: ScSource,
    connected: bool,
    l: Bits32,
    r: Bits32,
    side: (Option<Bits32>, Option<Bits32>),
    dry: (Bits32, Bits32),
    ports: int,
    channels: int,
)
    ensures
        key_of(ScSource::Internal, connected, side, dry) == dry,
        key_of(source, false, side, dry) == dry,
        key_of(ScSource::Sidechain, true, (Some(l), Some(r)), dry) == (l, r),
        key_of(ScSource::Sidechain, true, (None, Some(r)), dry).0.bits == 0,
        key_of(ScSource::Sidechain, true, (Some(l), None), dry).1.bits == 0,
        key_of(ScSource::Sidechain, true, (None, None), dry).0.bits == 0,
        key_of(ScSource::Sidechain, true, (None, None), dry).1.bits == 0,
        key_of(ScSource::Sidechain, true, (None, Some(r)), dry).1 == r,
        key_of(ScSource::Sidechain, true, (Some(l), None), dry).0 == l,
        gives_a_key(ports, channels) ==> ports >= 1 && channels >= 2,
        ports >= 1 && channels >= 2 ==> gives_a_key(ports, channels),
{
}

/// The depth that ducks is the one that was observed, and the LFO is what it did, or
/// nothing where it is off; nothing else is changed.
pub proof fn law_what_is_observed_is_noted(e: Engine, duck: Bits32, x: Bits32)
    ensures
        e.after_observing(duck, Some(x)).lfo_value == x,
        e.after_observing(duck, None).lfo_value.bits == 0,
        e.after_observing(duck, Some(x)).duck_depth == duck,
        e.after_observing(duck, None).duck_depth == duck,
        e.after_observing(duck, Some(x)).peaks == e.peaks,
        e.after_observing(duck, Some(x)).bpm == e.bpm,
        e.after_observing(duck, Some(x)).nan_detected == e.nan_detected,
        e.after_observing(duck, Some(x)).update_counter == e.update_counter,
{
}

/// The LFO moves its target and nothing else, and moves it no further than it can
/// go: the levels from 0 to 1, the feedback from 0 to 95 percent, the low-pass from
/// 1000 to 20000 Hertz.
pub proof fn law_the_lfo_moves_its_target(
    target: LfoTarget,
    rev_wet: Bits32,
    dly_wet: Bits32,
    moved: Moved,
)
    requires
        !moved.rev_wet.is_nan(),
        !moved.dly_wet.is_nan(),
        !moved.feedback.is_nan(),
        !moved.lowpass.is_nan(),
    ensures
        ({
            let m = modulation_of(target, rev_wet, dly_wet, moved);
            let (zero, one) = (0 as real, 1 as real);
            &&& target != LfoTarget::RevWet ==> m.rev_wet == rev_wet
            &&& target != LfoTarget::DlyWet ==> m.dly_wet == dly_wet
            &&& target != LfoTarget::DlyFeedback ==> m.feedback is None
            &&& target != LfoTarget::Filter ==> m.lowpass is None
            &&& target == LfoTarget::RevWet ==> is_kept(m.rev_wet, moved.rev_wet, zero, one)
            &&& target == LfoTarget::DlyWet ==> is_kept(m.dly_wet, moved.dly_wet, zero, one)
            &&& target == LfoTarget::DlyFeedback ==> m.feedback is Some && is_kept(
                m.feedback->Some_0,
                moved.feedback,
                zero,
                95 as real,
            )
            &&& target == LfoTarget::Filter ==> m.lowpass is Some && is_kept(
                m.lowpass->Some_0,
                moved.lowpass,
                1000 as real,
                20_000 as real,
            )
        }),
{
    lemma_ends();
    bits::lemma_values();
    bits::law_a_clamped_number_lies_between(moved.rev_wet, bits::zero(), bits::one());
    bits::law_a_clamped_number_lies_between(moved.dly_wet, bits::zero(), bits::one());
    bits::law_a_clamped_number_lies_between(
        moved.feedback,
        bits::zero(),
        Bits32 { bits: 0x42be_0000 },
    );
    bits::law_a_clamped_number_lies_between(
        moved.lowpass,
        Bits32 { bits: 0x447a_0000 },
        Bits32 { bits: 0x469c_4000 },
    );
}

/// A number kept between two others: itself where it lies there, else the nearer end.
pub open spec fn is_kept(r: Bits32, x: Bits32, lo: real, hi: real) -> bool {
    &&& lo <= bits::value(x) <= hi ==> r == x
    &&& bits::value(x) < lo ==> bits::value(r) == lo
    &&& bits::value(x) > hi ==> bits::value(r) == hi
}

/// The effects are set up as the parameters ask for: the reverb and the LFO with the
/// character and the shape of the same name, the freeze and the ping-pong as they are
/// switched, and the times in beats where they follow the tempo, in milliseconds
/// where they do not.
pub proof fn law_a_set_up_is_what_was_asked_for(p: WettBoiParams, s: Setup)
    requires
        is_setup(p, s),
    ensures
        s.freeze <==> p.rev_freeze,
        s.ping_pong <==> p.dly_ping_pong,
        p.rev_type == params::ReverbType::Room <==> s.reverb_type == ReverbType::Room,
        p.rev_type == params::ReverbType::Hall <==> s.reverb_type == ReverbType::Hall,
        p.rev_type == params::ReverbType::Plate <==> s.reverb_type == ReverbType::Plate,
        p.rev_type == params::ReverbType::Spring <==> s.reverb_type == ReverbType::Spring,
        p.lfo_shape == params::LfoShape::Sine <==> s.shape == Shape::Sine,
        p.lfo_shape == params::LfoShape::Tri <==> s.shape == Shape::Tri,
        p.lfo_shape == params::LfoShape::Saw <==> s.shape == Shape::Saw,
        p.lfo_shape == params::LfoShape::Square <==> s.shape == Shape::Square,
        p.lfo_shape == params::LfoShape::SampleAndHold <==> s.shape == Shape::SampleAndHold,
        p.dly_sync <==> s.times is Beats,
        !p.dly_sync ==> s.times == (DelayTimes::Millis { l: p.dly_time_l, r: p.dly_time_r }),
        p.dly_sync ==> bits::value(s.times->Beats_l) * 4 as real == params::quarters(
            p.dly_note_l,
        ) as real && bits::value(s.times->Beats_r) * 4 as real == params::quarters(
            p.dly_note_r,
        ) as real,
{
    if p.dly_sync {
        params::lemma_note_value(p.dly_note_l, s.times->Beats_l);
        params::lemma_note_value(p.dly_note_r, s.times->Beats_r);
    }
}

}
