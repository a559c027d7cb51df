//! The low frequency oscillator: its cycle, and the piece of its wave that a
//! phase lies in.

use vstd::arithmetic::power2;
use vstd::prelude::*;

use crate::bits;
use crate::bits::{Bits32, Bits64};
use crate::params;
use crate::rounding;

verus! {

/// The shape of a wave.
#[derive(Clone, Copy, Debug, PartialEq, Eq, Structural)]
pub enum Shape {
    Sine,
    Tri,
    Saw,
    Square,
    SampleAndHold,
}

/// The shape of the same name.
pub open spec fn same_shape(s: params::LfoShape) -> Shape {
    match s {
        params::LfoShape::Sine => Shape::Sine,
        params::LfoShape::Tri => Shape::Tri,
        params::LfoShape::Saw => Shape::Saw,
        params::LfoShape::Square => Shape::Square,
        params::LfoShape::SampleAndHold => Shape::SampleAndHold,
    }
}

/// The shape that the parameter stands for.
pub fn shape_of(s: params::LfoShape) -> (r: Shape)
    ensures
        r == same_shape(s),
{
    match s {
        params::LfoShape::Sine => Shape::Sine,
        params::LfoShape::Tri => Shape::Tri,
        params::LfoShape::Saw => Shape::Saw,
        params::LfoShape::Square => Shape::Square,
        params::LfoShape::SampleAndHold => Shape::SampleAndHold,
    }
}

/// How the value of the wave follows from the phase `p`, from 0 to 1.
#[derive(Clone, Copy, Debug, PartialEq, Eq, Structural)]
pub enum Piece {
    /// The sine of the whole circle times `p`.
    Sine,
    /// `4 p`.
    Rise,
    /// `2 - 4 p`.
    Fall,
    /// `4 p - 4`.
    Climb,
    /// `2 p - 1`.
    Saw,
    /// This value.
    Level(Bits32),
}

/// An oscillator. The phase runs from 0 to 1.
#[derive(Clone, Copy, Debug, PartialEq, Eq, Structural)]
pub struct Lfo {
    pub phase: Bits64,
    /// In Hertz, at least 0.001.
    pub rate: Bits32,
    /// In turns.
    pub phase_offset: Bits32,
    pub shape: Shape,
    /// The value that is held.
    pub sh_value: Bits32,
    /// The phase at which it was last held.
    pub sh_last_phase: Bits64,
}

/// One whole turn.
pub open spec fn turn() -> Bits64 {
    Bits64 { bits: 0x3ff0_0000_0000_0000 }
}

/// `p < x`, where `x` is a quarter, a half or three quarters.
pub open spec fn before(p: Bits32, x: u32) -> bool {
    p.is_below(Bits32 { bits: x })
}

/// Less than nothing by one.
pub open spec fn minus_one() -> Bits32 {
    Bits32 { bits: 0xbf80_0000 }
}

/// A phase from 0 to 1: what is left of a phase beside its whole turns, or where
/// that is below zero, one turn more.
pub open spec fn within_a_turn(rest: Bits32, lifted: Bits32) -> Bits32 {
    if rest.is_below(bits::zero()) {
        lifted
    } else {
        rest
    }
}

/// A phase from 0 to 1, from what is left of a phase beside its whole turns and
/// from `lifted`, which is one turn more.
pub fn fold(rest: Bits32, lifted: Bits32) -> (r: Bits32)
    ensures
        r == within_a_turn(rest, lifted),
{
    if rest.below(Bits32 { bits: 0 }) {
        lifted
    } else {
        rest
    }
}

/// The value of a piece at the phase `p`, in exact numbers. `sine` is the sine of
/// the whole circle times a phase.
pub open spec fn value_at(piece: Piece, p: real, sine: spec_fn(real) -> real) -> real {
    match piece {
        Piece::Sine => sine(p),
        Piece::Rise => 4 as real * p,
        Piece::Fall => 2 as real - 4 as real * p,
        Piece::Climb => 4 as real * p - 4 as real,
        Piece::Saw => 2 as real * p - 1 as real,
        Piece::Level(x) => bits::value(x),
    }
}

impl Lfo {
    /// The value that is held is from -1 to 1.
    pub open spec fn wf(self) -> bool {
        self.sh_value.is_within(minus_one(), bits::one())
    }

    /// A wave has begun again since a value was last held.
    pub open spec fn came_round(self) -> bool {
        self.phase.is_below(self.sh_last_phase)
    }

    /// The piece of the wave at the phase `p`. A value that is held changes once
    /// a turn, to the value that is drawn then.
    pub open spec fn piece_at(self, p: Bits32, drawn: Bits32) -> Piece {
        match self.shape {
            Shape::Sine => Piece::Sine,
            Shape::Tri => if before(p, 0x3e80_0000) {
                Piece::Rise
            } else if before(p, 0x3f40_0000) {
                Piece::Fall
            } else {
                Piece::Climb
            },
            Shape::Saw => Piece::Saw,
            Shape::Square => if before(p, 0x3f00_0000) {
                Piece::Level(Bits32 { bits: 0x3f80_0000 })
            } else {
                Piece::Level(Bits32 { bits: 0xbf80_0000 })
            },
            Shape::SampleAndHold => if self.came_round() {
                Piece::Level(drawn)
            } else {
                Piece::Level(self.sh_value)
            },
        }
    }

    /// A sine of two Hertz at its start.
    pub fn new() -> (r: Lfo)
        ensures
            r.wf(),
            r == (Lfo {
                phase: Bits64 { bits: 0 },
                rate: Bits32 { bits: 0x4000_0000 },
                phase_offset: Bits32 { bits: 0 },
                shape: Shape::Sine,
                sh_value: Bits32 { bits: 0 },
                sh_last_phase: Bits64 { bits: 0 },
            }),
    {
        proof {
            lemma_range();
        }
        Lfo {
            phase: Bits64 { bits: 0 },
            rate: Bits32 { bits: 0x4000_0000 },
            phase_offset: Bits32 { bits: 0 },
            shape: Shape::Sine,
            sh_value: Bits32 { bits: 0 },
            sh_last_phase: Bits64 { bits: 0 },
        }
    }

    /// Set the rate in Hertz, at least 0.001.
    pub fn set_rate(&mut self, hz: Bits32)
        ensures
            *final(self) == called(*old(self), Call::Rate(hz)),
            *final(self) == (Lfo {
                rate: hz.larger(Bits32 { bits: 0x3a83_126f }),
                ..*old(self)
            }),
    {
        self.rate = hz.max(Bits32 { bits: 0x3a83_126f });
    }

    /// Set how far ahead of the phase the wave is, in turns.
    pub fn set_phase_offset(&mut self, turns: Bits32)
        ensures
            *final(self) == called(*old(self), Call::Offset(turns)),
            *final(self) == (Lfo { phase_offset: turns, ..*old(self) }),
    {
        self.phase_offset = turns;
    }

    /// Set the shape of the wave.
    pub fn set_shape(&mut self, shape: Shape)
        ensures
            *final(self) == called(*old(self), Call::Shape(shape)),
            *final(self) == (Lfo { shape, ..*old(self) }),
    {
        self.shape = shape;
    }

    /// Go on by one step, to the phase `ahead`, or where that is a turn or more,
    /// to the phase `wrapped`, which is one turn less.
    pub fn advance(&mut self, ahead: Bits64, wrapped: Bits64)
        ensures
            *final(self) == called(*old(self), Call::Advance { ahead, wrapped }),
            *final(self) == (Lfo {
                phase: if !ahead.is_nan() && !ahead.is_below(turn()) {
                    wrapped
                } else {
                    ahead
                },
                ..*old(self)
            }),
    {
        let whole = Bits64 { bits: 0x3ff0_0000_0000_0000 };
        self.phase = if !ahead.nan() && !ahead.below(whole) {
            wrapped
        } else {
            ahead
        };
    }

    /// The piece of the wave at the phase `p`. `drawn` is the value to hold
    /// where the wave begins again.
    pub fn piece(&mut self, p: Bits32, drawn: Bits32) -> (r: Piece)
        ensures
            *final(self) == called(*old(self), Call::Piece { drawn }),
            r == old(self).piece_at(p, drawn),
            *final(self) == (if old(self).shape == Shape::SampleAndHold {
                Lfo {
                    sh_value: if old(self).came_round() {
                        drawn
                    } else {
                        old(self).sh_value
                    },
                    sh_last_phase: old(self).phase,
                    ..*old(self)
                }
            } else {
                *old(self)
            }),
            old(self).wf() && drawn.is_within(minus_one(), bits::one()) ==> final(self).wf(),
    {
        match self.shape {
            Shape::Sine => Piece::Sine,
            Shape::Tri => {
                if p.below(Bits32 { bits: 0x3e80_0000 }) {
                    Piece::Rise
                } else if p.below(Bits32 { bits: 0x3f40_0000 }) {
                    Piece::Fall
                } else {
                    Piece::Climb
                }
            },
            Shape::Saw => Piece::Saw,
            Shape::Square => {
                if p.below(Bits32 { bits: 0x3f00_0000 }) {
                    Piece::Level(Bits32 { bits: 0x3f80_0000 })
                } else {
                    Piece::Level(Bits32 { bits: 0xbf80_0000 })
                }
            },
            Shape::SampleAndHold => {
                if self.phase.below(self.sh_last_phase) {
                    self.sh_value = drawn;
                }
                self.sh_last_phase = self.phase;
                Piece::Level(self.sh_value)
            },
        }
    }

    /// Go back to the start of the wave.
    pub fn reset(&mut self)
        ensures
            *final(self) == called(*old(self), Call::Reset),
            final(self).wf(),
            *final(self) == (Lfo {
                phase: Bits64 { bits: 0 },
                sh_value: Bits32 { bits: 0 },
                sh_last_phase: Bits64 { bits: 0 },
                ..*old(self)
            }),
    {
        proof {
            lemma_range();
        }
        self.phase = Bits64 { bits: 0 };
        self.sh_value = Bits32 { bits: 0 };
        self.sh_last_phase = Bits64 { bits: 0 };
    }
}

/// Nothing lies between -1 and 1.
proof fn lemma_range()
    ensures
        bits::zero().is_within(minus_one(), bits::one()),
        bits::value(minus_one()) == -1 as real,
        bits::value(bits::one()) == 1 as real,
{
    bits::lemma_values();
    bits::law_values_are_in_order(minus_one(), bits::zero());
    bits::law_values_are_in_order(bits::zero(), bits::one());
}

/// A phase is never below zero nor more than a turn: not where it is what is left
/// of a phase beside its whole turns, rounded, and where that is below zero one
/// turn more, rounded again.
pub proof fn law_a_phase_lies_within_a_turn(left: real, rest: Bits32, lifted: Bits32)
    requires
        (-1 as real) < left,
        left < 1 as real,
        rounding::is_nearest(rest, left),
        rounding::is_nearest(lifted, bits::value(rest) + 1 as real),
    ensures
        within_a_turn(rest, lifted).is_within(bits::zero(), bits::one()),
{
    bits::lemma_values();
    lemma_range();
    rounding::law_rounding_passes_no_number(rest, left, minus_one());
    rounding::law_rounding_passes_no_number(rest, left, bits::one());
    rounding::law_rounding_passes_no_number(lifted, bits::value(rest) + 1 as real, bits::zero());
    bits::law_values_are_in_order(rest, bits::zero());
    bits::law_values_are_in_order(bits::one(), rest);
    bits::law_values_are_in_order(lifted, bits::zero());
    bits::law_values_are_in_order(bits::one(), lifted);
    if rest.is_below(bits::zero()) {
        rounding::law_rounding_passes_no_number(
            lifted,
            bits::value(rest) + 1 as real,
            bits::one(),
        );
    }
}

/// A value that is drawn is from -1 to 1: it is twice a share, less one, each
/// rounded.
pub proof fn law_a_drawn_value_is_in_range(share: Bits32, twice: Bits32, drawn: Bits32)
    requires
        rounding::is_share(share),
        rounding::is_nearest(twice, bits::value(share) * 2 as real),
        rounding::is_nearest(drawn, bits::value(twice) - 1 as real),
    ensures
        drawn.is_within(minus_one(), bits::one()),
{
    let two = Bits32 { bits: 0x4000_0000 };
    lemma_two();
    bits::lemma_values();
    lemma_range();
    bits::law_values_are_in_order(share, bits::zero());
    bits::law_values_are_in_order(bits::one(), share);
    rounding::law_rounding_passes_no_number(twice, bits::value(share) * 2 as real, bits::zero());
    rounding::law_rounding_passes_no_number(twice, bits::value(share) * 2 as real, two);
    rounding::law_rounding_passes_no_number(drawn, bits::value(twice) - 1 as real, minus_one());
    rounding::law_rounding_passes_no_number(drawn, bits::value(twice) - 1 as real, bits::one());
    bits::law_values_are_in_order(drawn, minus_one());
    bits::law_values_are_in_order(bits::one(), drawn);
}

/// What two stands for.
proof fn lemma_two()
    ensures
        bits::value(Bits32 { bits: 0x4000_0000 }) == 2 as real,
{
    let two = Bits32 { bits: 0x4000_0000 };
    assert(two.magnitude() == 128 * 0x80_0000 + 0);
    bits::lemma_worth_of_parts(128, 0);
    power2::lemma2_to64();
    power2::lemma_pow2_adds(23, 127);
    power2::lemma_pow2_adds(1, 149);
    power2::lemma_pow2_pos(149);
    let p = power2::pow2(149) as real;
    let w = two.worth() as real;
    assert(w == 2 as real * p);
    assert(w / p == 2 as real) by (nonlinear_arith)
        requires
            w == 2 as real * p,
            p > 0 as real,
    ;
}

/// The wave stays from -1 to 1 at every phase, whatever its shape, where the
/// values to hold are drawn from there.
pub proof fn law_the_wave_stays_in_range(
    lfo: Lfo,
    p: Bits32,
    drawn: Bits32,
    sine: spec_fn(real) -> real,
)
    requires
        lfo.wf(),
        p.is_within(bits::zero(), bits::one()),
        drawn.is_within(minus_one(), bits::one()),
        -1 as real <= sine(bits::value(p)) <= 1 as real,
    ensures
        -1 as real <= value_at(lfo.piece_at(p, drawn), bits::value(p), sine) <= 1 as real,
{
    let quarter = Bits32 { bits: 0x3e80_0000 };
    let three = Bits32 { bits: 0x3f40_0000 };
    bits::lemma_values();
    lemma_range();
    bits::law_values_are_in_order(p, bits::zero());
    bits::law_values_are_in_order(p, bits::one());
    bits::law_values_are_in_order(p, quarter);
    bits::law_values_are_in_order(p, three);
    bits::law_values_are_in_order(lfo.sh_value, minus_one());
    bits::law_values_are_in_order(lfo.sh_value, bits::one());
    bits::law_values_are_in_order(drawn, minus_one());
    bits::law_values_are_in_order(drawn, bits::one());
}

/// What comes out stays from -1 to 1, once it is rounded.
pub proof fn law_what_comes_out_stays_in_range(
    lfo: Lfo,
    p: Bits32,
    drawn: Bits32,
    sine: spec_fn(real) -> real,
    out: Bits32,
)
    requires
        lfo.wf(),
        p.is_within(bits::zero(), bits::one()),
        drawn.is_within(minus_one(), bits::one()),
        -1 as real <= sine(bits::value(p)) <= 1 as real,
        rounding::is_nearest(out, value_at(lfo.piece_at(p, drawn), bits::value(p), sine)),
    ensures
        out.is_within(minus_one(), bits::one()),
{
    let exact = value_at(lfo.piece_at(p, drawn), bits::value(p), sine);
    law_the_wave_stays_in_range(lfo, p, drawn, sine);
    bits::lemma_values();
    lemma_range();
    rounding::law_rounding_passes_no_number(out, exact, minus_one());
    rounding::law_rounding_passes_no_number(out, exact, bits::one());
    bits::law_values_are_in_order(out, minus_one());
    bits::law_values_are_in_order(bits::one(), out);
}

/// One call of the LFO.
pub enum Call {
    Advance { ahead: Bits64, wrapped: Bits64 },
    Piece { drawn: Bits32 },
    Rate(Bits32),
    Offset(Bits32),
    Shape(Shape),
    Reset,
}

/// The LFO after a call.
pub open spec fn called(lfo: Lfo, call: Call) -> Lfo {
    match call {
        Call::Advance { ahead, wrapped } => Lfo {
            phase: if !ahead.is_nan() && !ahead.is_below(turn()) {
                wrapped
            } else {
                ahead
            },
            ..lfo
        },
        Call::Piece { drawn } => if lfo.shape == Shape::SampleAndHold {
            Lfo {
                sh_value: if lfo.came_round() {
                    drawn
                } else {
                    lfo.sh_value
                },
                sh_last_phase: lfo.phase,
                ..lfo
            }
        } else {
            lfo
        },
        Call::Rate(hz) => Lfo { rate: hz.larger(Bits32 { bits: 0x3a83_126f }), ..lfo },
        Call::Offset(turns) => Lfo { phase_offset: turns, ..lfo },
        Call::Shape(shape) => Lfo { shape, ..lfo },
        Call::Reset => Lfo {
            phase: Bits64 { bits: 0 },
            sh_value: Bits32 { bits: 0 },
            sh_last_phase: Bits64 { bits: 0 },
            ..lfo
        },
    }
}

/// The LFO after some calls.
pub open spec fn called_all(lfo: Lfo, calls: Seq<Call>) -> Lfo
    decreases calls.len(),
{
    if calls.len() == 0 {
        lfo
    } else {
        called(called_all(lfo, calls.drop_last()), calls.last())
    }
}

/// Whatever is called, and however often, the value that is held stays from -1 to
/// 1, where all that are drawn are.
pub proof fn law_a_held_value_stays_in_range(lfo: Lfo, calls: Seq<Call>)
    requires
        lfo.wf(),
        forall|i: int|
            0 <= i < calls.len() ==> ((#[trigger] calls[i]) matches Call::Piece { drawn }
                ==> drawn.is_within(minus_one(), bits::one())),
    ensures
        called_all(lfo, calls).wf(),
    decreases calls.len(),
{
    if calls.len() > 0 {
        lemma_range();
        let less = calls.drop_last();
        assert forall|i: int| 0 <= i < less.len() implies ((#[trigger] less[i]) matches Call::Piece {
            drawn,
        } ==> drawn.is_within(minus_one(), bits::one())) by {
            assert(less[i] == calls[i]);
        }
        law_a_held_value_stays_in_range(lfo, less);
        assert(calls.last() == calls[calls.len() - 1]);
    }
}

/// A wave has its shape at every phase, in exact numbers: a sine is a sine, a
/// triangle rises, falls and rises again, a saw rises all the way, a square is up
/// and then down, and a held value is held until the wave comes round.
pub proof fn law_a_wave_has_its_shape(
    lfo: Lfo,
    p: Bits32,
    drawn: Bits32,
    sine: spec_fn(real) -> real,
)
    requires
        rounding::is_share(p),
    ensures
        ({
            let v = bits::value(p);
            let wave = value_at(lfo.piece_at(p, drawn), v, sine);
            let one = 1 as real;
            let four = 4 as real;
            match lfo.shape {
                Shape::Sine => wave == sine(v),
                Shape::Tri => {
                    &&& v < one / four ==> wave == four * v
                    &&& one / four <= v < 3 as real / four ==> wave == 2 as real - four * v
                    &&& 3 as real / four <= v ==> wave == four * v - four
                },
                Shape::Saw => wave == 2 as real * v - one,
                Shape::Square => {
                    &&& v < one / 2 as real ==> wave == one
                    &&& one / 2 as real <= v ==> wave == -one
                },
                Shape::SampleAndHold => {
                    let round = !lfo.phase.is_nan() && !lfo.sh_last_phase.is_nan()
                        && lfo.phase.worth() < lfo.sh_last_phase.worth();
                    &&& round ==> wave == bits::value(drawn)
                    &&& !round ==> wave == bits::value(lfo.sh_value)
                },
            }
        }),
{
    bits::lemma_values();
    bits::law_values_are_in_order(p, Bits32 { bits: 0x3e80_0000 });
    bits::law_values_are_in_order(p, Bits32 { bits: 0x3f00_0000 });
    bits::law_values_are_in_order(p, Bits32 { bits: 0x3f40_0000 });
}

/// Half a turn on, a triangle and a square are the other way up, and so is a sine.
pub proof fn law_half_a_turn_on_the_wave_is_turned_over(
    lfo: Lfo,
    p: Bits32,
    q: Bits32,
    drawn: Bits32,
    sine: spec_fn(real) -> real,
)
    requires
        rounding::is_share(p),
        rounding::is_share(q),
        bits::value(p) < 1 as real / 2 as real,
        bits::value(q) == bits::value(p) + 1 as real / 2 as real,
        sine(bits::value(q)) == -sine(bits::value(p)),
        lfo.shape == Shape::Sine || lfo.shape == Shape::Tri || lfo.shape == Shape::Square,
    ensures
        value_at(lfo.piece_at(q, drawn), bits::value(q), sine) == -value_at(
            lfo.piece_at(p, drawn),
            bits::value(p),
            sine,
        ),
{
    law_a_wave_has_its_shape(lfo, p, drawn, sine);
    law_a_wave_has_its_shape(lfo, q, drawn, sine);
    bits::lemma_values();
    bits::law_values_are_in_order(bits::zero(), p);
}

/// A saw rises as far as the phase goes on, twice as fast.
pub proof fn law_a_saw_rises(
    lfo: Lfo,
    p: Bits32,
    q: Bits32,
    drawn: Bits32,
    sine: spec_fn(real) -> real,
)
    requires
        rounding::is_share(p),
        rounding::is_share(q),
        lfo.shape == Shape::Saw,
    ensures
        value_at(lfo.piece_at(q, drawn), bits::value(q), sine) - value_at(
            lfo.piece_at(p, drawn),
            bits::value(p),
            sine,
        ) == 2 as real * (bits::value(q) - bits::value(p)),
{
    law_a_wave_has_its_shape(lfo, p, drawn, sine);
    law_a_wave_has_its_shape(lfo, q, drawn, sine);
}

/// A phase that is folded is the rest itself, or one turn more where that is below
/// zero.
pub proof fn law_a_phase_is_folded_once(rest: Bits32, lifted: Bits32)
    requires
        !rest.is_nan(),
    ensures
        bits::value(rest) < 0 as real ==> within_a_turn(rest, lifted) == lifted,
        bits::value(rest) >= 0 as real ==> within_a_turn(rest, lifted) == rest,
{
    bits::lemma_values();
    bits::law_below_is_less(rest, bits::zero());
}

/// A turn is one.
pub proof fn law_a_turn_is_one()
    ensures
        turn().worth() == power2::pow2(1074),
        !turn().is_nan(),
{
    power2::lemma2_to64();
    power2::lemma2_to64_rest();
    power2::lemma_pow2_adds(52, 1022);
    assert(power2::pow2(52) == 0x10_0000_0000_0000);
    let m = 0x3ff0_0000_0000_0000nat;
    assert(turn().magnitude() == m);
    assert(m / 0x10_0000_0000_0000 == 1023 && m % 0x10_0000_0000_0000 == 0);
}

/// The rate is what was asked for, and never less than a thousandth of a Hertz; the
/// phase goes on by what it is given, and a turn less where that is a turn or more.
pub proof fn law_a_call_does_what_it_says(lfo: Lfo, hz: Bits32, ahead: Bits64, wrapped: Bits64)
    ensures
        !hz.is_nan() ==> bits::value(called(lfo, Call::Rate(hz)).rate) >= bits::value(hz),
        bits::stands_for(Bits32 { bits: 0x3a83_126f }, 1, 1000),
        !hz.is_nan() && bits::value(hz) >= bits::value(Bits32 { bits: 0x3a83_126f }) ==> called(
            lfo,
            Call::Rate(hz),
        ).rate == hz,
        bits::value(called(lfo, Call::Rate(hz)).rate) >= bits::value(Bits32 { bits: 0x3a83_126f }),
        !ahead.is_nan() && ahead.worth() >= power2::pow2(1074) ==> called(
            lfo,
            Call::Advance { ahead, wrapped },
        ).phase == wrapped,
        !ahead.is_nan() && ahead.worth() < power2::pow2(1074) ==> called(
            lfo,
            Call::Advance { ahead, wrapped },
        ).phase == ahead,
{
    let least = Bits32 { bits: 0x3a83_126f };
    law_a_turn_is_one();
    bits::law_the_larger_is_no_less(hz, least);
    bits::law_values_are_in_order(hz, least);
    power2::lemma2_to64();
    assert(least.magnitude() == 117 * 0x80_0000 + 0x03_126f);
    assert(power2::pow2(33) == 0x2_0000_0000) by {
        power2::lemma2_to64_rest();
    }
    bits::lemma_stands_for(least, 117, 0x03_126f, 1, 1000);
}

/// The shape is the one of the same name.
pub proof fn law_a_shape_keeps_its_name(s: params::LfoShape)
    ensures
        s == params::LfoShape::Sine <==> same_shape(s) == Shape::Sine,
        s == params::LfoShape::Tri <==> same_shape(s) == Shape::Tri,
        s == params::LfoShape::Saw <==> same_shape(s) == Shape::Saw,
        s == params::LfoShape::Square <==> same_shape(s) == Shape::Square,
        s == params::LfoShape::SampleAndHold <==> same_shape(s) == Shape::SampleAndHold,
{
}

/// A value that is held is drawn anew when the wave has come round, and only then;
/// the place it was asked for at is noted. Of any other wave nothing is noted.
pub proof fn law_a_held_value_is_drawn_once_a_turn(lfo: Lfo, drawn: Bits32)
    ensures
        ({
            let next = called(lfo, Call::Piece { drawn });
            let round = !lfo.phase.is_nan() && !lfo.sh_last_phase.is_nan() && lfo.phase.worth()
                < lfo.sh_last_phase.worth();
            &&& next.phase == lfo.phase && next.phase_offset == lfo.phase_offset
            &&& next.rate == lfo.rate && next.shape == lfo.shape
            &&& lfo.shape != Shape::SampleAndHold ==> next == lfo
            &&& lfo.shape == Shape::SampleAndHold ==> next.sh_last_phase == lfo.phase
            &&& lfo.shape == Shape::SampleAndHold && round ==> next.sh_value == drawn
            &&& lfo.shape == Shape::SampleAndHold && !round ==> next.sh_value == lfo.sh_value
        }),
{
}

/// A reset goes back to the start of the wave, holds nothing, and keeps what was
/// asked for.
pub proof fn law_a_reset_keeps_what_was_asked_for(lfo: Lfo)
    ensures
        ({
            let next = called(lfo, Call::Reset);
            &&& next.phase.worth() == 0 && next.sh_last_phase.worth() == 0
            &&& bits::value(next.sh_value) == 0 as real
            &&& next.rate == lfo.rate && next.shape == lfo.shape
            &&& next.phase_offset == lfo.phase_offset
        }),
{
    bits::lemma_values();
    bits::law_longer_bits_stand_for_numbers(Bits64 { bits: 0 });
}

/// A setting is taken as it is and moves nothing else.
pub proof fn law_a_setting_moves_nothing_else(
    lfo: Lfo,
    hz: Bits32,
    turns: Bits32,
    shape: Shape,
    ahead: Bits64,
    wrapped: Bits64,
)
    ensures
        called(lfo, Call::Offset(turns)) == (Lfo { phase_offset: turns, ..lfo }),
        called(lfo, Call::Shape(shape)) == (Lfo { shape, ..lfo }),
        called(lfo, Call::Rate(hz)) == (Lfo { rate: called(lfo, Call::Rate(hz)).rate, ..lfo }),
        ({
            let next = called(lfo, Call::Advance { ahead, wrapped });
            next == (Lfo { phase: next.phase, ..lfo })
        }),
{
}

}
