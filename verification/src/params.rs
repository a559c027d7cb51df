//! The parameters a host sees: their ids, ranges and defaults, and the values a
//! running plug-in holds.

use vstd::arithmetic::power2;
use vstd::prelude::*;

use crate::bits;
use crate::bits::Bits32;
use crate::text;

verus! {

/// Reverb algorithm type.
#[derive(Clone, Copy, Debug, PartialEq, Eq, Structural)]
pub enum ReverbType {
    Room,
    Hall,
    Plate,
    Spring,
}

impl ReverbType {
    /// The place of the variant among the others.
    pub open spec fn position(self) -> int {
        match self {
            ReverbType::Room => 0,
            ReverbType::Hall => 1,
            ReverbType::Plate => 2,
            ReverbType::Spring => 3,
        }
    }

    /// The place of the variant among the others.
    pub fn index(self) -> (i: u32)
        ensures
            i == self.position(),
    {
        match self {
            ReverbType::Room => 0,
            ReverbType::Hall => 1,
            ReverbType::Plate => 2,
            ReverbType::Spring => 3,
        }
    }
}

/// Sidechain source.
#[derive(Clone, Copy, Debug, PartialEq, Eq, Structural)]
pub enum ScSource {
    Internal,
    Sidechain,
}

impl ScSource {
    /// The place of the variant among the others.
    pub open spec fn position(self) -> int {
        match self {
            ScSource::Internal => 0,
            ScSource::Sidechain => 1,
        }
    }

    /// The place of the variant among the others.
    pub fn index(self) -> (i: u32)
        ensures
            i == self.position(),
    {
        match self {
            ScSource::Internal => 0,
            ScSource::Sidechain => 1,
        }
    }
}

/// LFO waveform shape.
#[derive(Clone, Copy, Debug, PartialEq, Eq, Structural)]
pub enum LfoShape {
    Sine,
    Tri,
    Saw,
    Square,
    SampleAndHold,
}

impl LfoShape {
    /// The place of the variant among the others.
    pub open spec fn position(self) -> int {
        match self {
            LfoShape::Sine => 0,
            LfoShape::Tri => 1,
            LfoShape::Saw => 2,
            LfoShape::Square => 3,
            LfoShape::SampleAndHold => 4,
        }
    }

    /// The place of the variant among the others.
    pub fn index(self) -> (i: u32)
        ensures
            i == self.position(),
    {
        match self {
            LfoShape::Sine => 0,
            LfoShape::Tri => 1,
            LfoShape::Saw => 2,
            LfoShape::Square => 3,
            LfoShape::SampleAndHold => 4,
        }
    }
}

/// LFO modulation target.
#[derive(Clone, Copy, Debug, PartialEq, Eq, Structural)]
pub enum LfoTarget {
    RevWet,
    DlyWet,
    DlyFeedback,
    Filter,
}

impl LfoTarget {
    /// The place of the variant among the others.
    pub open spec fn position(self) -> int {
        match self {
            LfoTarget::RevWet => 0,
            LfoTarget::DlyWet => 1,
            LfoTarget::DlyFeedback => 2,
            LfoTarget::Filter => 3,
        }
    }

    /// The place of the variant among the others.
    pub fn index(self) -> (i: u32)
        ensures
            i == self.position(),
    {
        match self {
            LfoTarget::RevWet => 0,
            LfoTarget::DlyWet => 1,
            LfoTarget::DlyFeedback => 2,
            LfoTarget::Filter => 3,
        }
    }
}

/// Signal routing mode.
#[derive(Clone, Copy, Debug, PartialEq, Eq, Structural)]
pub enum RoutingMode {
    Parallel,
    ReverbToDelay,
    DelayToReverb,
}

impl RoutingMode {
    /// The place of the variant among the others.
    pub open spec fn position(self) -> int {
        match self {
            RoutingMode::Parallel => 0,
            RoutingMode::ReverbToDelay => 1,
            RoutingMode::DelayToReverb => 2,
        }
    }

    /// The place of the variant among the others.
    pub fn index(self) -> (i: u32)
        ensures
            i == self.position(),
    {
        match self {
            RoutingMode::Parallel => 0,
            RoutingMode::ReverbToDelay => 1,
            RoutingMode::DelayToReverb => 2,
        }
    }
}

/// Delay note division for tempo sync.
#[derive(Clone, Copy, Debug, PartialEq, Eq, Structural)]
pub enum NoteDiv {
    Sixteenth,
    Eighth,
    DottedEighth,
    Quarter,
    DottedQuarter,
    Half,
    DottedHalf,
    Whole,
}

impl NoteDiv {
    /// The place of the variant among the others.
    pub open spec fn position(self) -> int {
        match self {
            NoteDiv::Sixteenth => 0,
            NoteDiv::Eighth => 1,
            NoteDiv::DottedEighth => 2,
            NoteDiv::Quarter => 3,
            NoteDiv::DottedQuarter => 4,
            NoteDiv::Half => 5,
            NoteDiv::DottedHalf => 6,
            NoteDiv::Whole => 7,
        }
    }

    /// The place of the variant among the others.
    pub fn index(self) -> (i: u32)
        ensures
            i == self.position(),
    {
        match self {
            NoteDiv::Sixteenth => 0,
            NoteDiv::Eighth => 1,
            NoteDiv::DottedEighth => 2,
            NoteDiv::Quarter => 3,
            NoteDiv::DottedQuarter => 4,
            NoteDiv::Half => 5,
            NoteDiv::DottedHalf => 6,
            NoteDiv::Whole => 7,
        }
    }

    /// The length of the note in sixteenths.
    pub open spec fn sixteenths(self) -> int {
        match self {
            NoteDiv::Sixteenth => 1,
            NoteDiv::Eighth => 2,
            NoteDiv::DottedEighth => 3,
            NoteDiv::Quarter => 4,
            NoteDiv::DottedQuarter => 6,
            NoteDiv::Half => 8,
            NoteDiv::DottedHalf => 12,
            NoteDiv::Whole => 16,
        }
    }

    /// The note length as a fraction of a beat, where a quarter note is one.
    pub fn beats(&self) -> (r: Bits32)
        ensures
            r.is_finite(),
            r.worth() * 4 == self.sixteenths() * bits::one().worth(),
    {
        proof {
            lemma_beats();
        }
        match self {
            NoteDiv::Sixteenth => Bits32 { bits: 0x3e80_0000 },
            NoteDiv::Eighth => Bits32 { bits: 0x3f00_0000 },
            NoteDiv::DottedEighth => Bits32 { bits: 0x3f40_0000 },
            NoteDiv::Quarter => Bits32 { bits: 0x3f80_0000 },
            NoteDiv::DottedQuarter => Bits32 { bits: 0x3fc0_0000 },
            NoteDiv::Half => Bits32 { bits: 0x4000_0000 },
            NoteDiv::DottedHalf => Bits32 { bits: 0x4040_0000 },
            NoteDiv::Whole => Bits32 { bits: 0x4080_0000 },
        }
    }
}

/// What the note lengths are worth.
proof fn lemma_beats()
    ensures
        ({
            let one = bits::one().worth();
            &&& Bits32 { bits: 0x3e80_0000 }.worth() * 4 == one
            &&& Bits32 { bits: 0x3f00_0000 }.worth() * 2 == one
            &&& Bits32 { bits: 0x3f40_0000 }.worth() * 4 == one * 3
            &&& Bits32 { bits: 0x3fc0_0000 }.worth() * 2 == one * 3
            &&& Bits32 { bits: 0x4000_0000 }.worth() == one * 2
            &&& Bits32 { bits: 0x4040_0000 }.worth() == one * 3
            &&& Bits32 { bits: 0x4080_0000 }.worth() == one * 4
        }),
{
    let p = power2::pow2(124);
    power2::lemma_pow2_unfold(125);
    power2::lemma_pow2_unfold(126);
    power2::lemma_pow2_unfold(127);
    power2::lemma_pow2_unfold(128);
    assert(power2::pow2(125) == 2 * p);
    assert(power2::pow2(126) == 4 * p);
    assert(power2::pow2(127) == 8 * p);
    assert(power2::pow2(128) == 16 * p);
    bits::lemma_worth_of_parts(125, 0);
    bits::lemma_worth_of_parts(126, 0);
    bits::lemma_worth_of_parts(126, 0x40_0000);
    bits::lemma_worth_of_parts(127, 0);
    bits::lemma_worth_of_parts(127, 0x40_0000);
    bits::lemma_worth_of_parts(128, 0);
    bits::lemma_worth_of_parts(128, 0x40_0000);
    bits::lemma_worth_of_parts(129, 0);
    assert(Bits32 { bits: 0x3e80_0000 }.worth() == 0x80_0000 * p);
    assert(Bits32 { bits: 0x3f00_0000 }.worth() == 0x80_0000 * (2 * p));
    assert(Bits32 { bits: 0x3f40_0000 }.worth() == 0xc0_0000 * (2 * p));
    assert(Bits32 { bits: 0x3f80_0000 }.worth() == 0x80_0000 * (4 * p));
    assert(Bits32 { bits: 0x3fc0_0000 }.worth() == 0xc0_0000 * (4 * p));
    assert(Bits32 { bits: 0x4000_0000 }.worth() == 0x80_0000 * (8 * p));
    assert(Bits32 { bits: 0x4040_0000 }.worth() == 0xc0_0000 * (8 * p));
    assert(Bits32 { bits: 0x4080_0000 }.worth() == 0x80_0000 * (16 * p));
}

/// A parameter that runs over a range of numbers.
#[derive(Clone, Copy)]
pub struct RangeInfo {
    pub min: Bits32,
    pub max: Bits32,
    pub default: Bits32,
    /// How far the middle of the control leans towards the lower end, as a
    /// power of two; evenly spread without it.
    pub skew: Option<Bits32>,
    pub unit: &'static str,
    /// Printed as a whole number.
    pub rounded: bool,
}

/// What a parameter holds.
#[derive(Clone, Copy)]
pub enum ParamKind {
    Switch { on: bool },
    Choice { variants: u32, variant: u32 },
    Range(RangeInfo),
}

/// A parameter as the host is told about it.
#[derive(Clone, Copy)]
pub struct ParamInfo {
    pub id: &'static str,
    pub name: &'static str,
    pub kind: ParamKind,
}

/// Every parameter.
#[derive(Clone, Copy, Debug, PartialEq, Eq, Structural)]
pub enum ParamId {
    RevEnabled,
    RevType,
    RevPredelay,
    RevSize,
    RevDecay,
    RevDamp,
    RevWidth,
    RevWet,
    RevFreeze,
    RevEqHp,
    RevEqLp,
    ScThreshold,
    ScAttack,
    ScHold,
    ScRelease,
    ScSource,
    LfoEnabled,
    LfoRate,
    LfoDepth,
    LfoPhase,
    LfoShape,
    LfoTarget,
    DlyEnabled,
    DlySync,
    DlyTimeL,
    DlyTimeR,
    DlyNoteL,
    DlyNoteR,
    DlyFeedback,
    DlyHp,
    DlyLp,
    DlyPingPong,
    DlyWet,
    DlyModRate,
    DlyModDepth,
    DlySaturation,
    Mix,
    Bypass,
    Routing,
}

/// Every parameter, in the order the host lists them.
pub const ALL_PARAMS: [ParamId; 39] = [
    ParamId::RevEnabled,
    ParamId::RevType,
    ParamId::RevPredelay,
    ParamId::RevSize,
    ParamId::RevDecay,
    ParamId::RevDamp,
    ParamId::RevWidth,
    ParamId::RevWet,
    ParamId::RevFreeze,
    ParamId::RevEqHp,
    ParamId::RevEqLp,
    ParamId::ScThreshold,
    ParamId::ScAttack,
    ParamId::ScHold,
    ParamId::ScRelease,
    ParamId::ScSource,
    ParamId::LfoEnabled,
    ParamId::LfoRate,
    ParamId::LfoDepth,
    ParamId::LfoPhase,
    ParamId::LfoShape,
    ParamId::LfoTarget,
    ParamId::DlyEnabled,
    ParamId::DlySync,
    ParamId::DlyTimeL,
    ParamId::DlyTimeR,
    ParamId::DlyNoteL,
    ParamId::DlyNoteR,
    ParamId::DlyFeedback,
    ParamId::DlyHp,
    ParamId::DlyLp,
    ParamId::DlyPingPong,
    ParamId::DlyWet,
    ParamId::DlyModRate,
    ParamId::DlyModDepth,
    ParamId::DlySaturation,
    ParamId::Mix,
    ParamId::Bypass,
    ParamId::Routing,
];

impl ParamId {
    /// The parameter as the host is told about it.
    pub open spec fn described(self) -> ParamInfo {
        match self {
            ParamId::RevEnabled => ParamInfo {
                id: "rev_enabled",
                name: "Reverb On",
                kind: ParamKind::Switch { on: true },
            },
            ParamId::RevType => ParamInfo {
                id: "rev_type",
                name: "Reverb Type",
                kind: ParamKind::Choice { variants: 4, variant: 0 },
            },
            ParamId::RevPredelay => ParamInfo {
                id: "rev_predelay",
                name: "Pre-Delay",
                kind: ParamKind::Range(
                    RangeInfo {
                        min: Bits32 { bits: 0x0000_0000 },
                        max: Bits32 { bits: 0x4348_0000 },
                        default: Bits32 { bits: 0x4190_0000 },
                        skew: None,
                        unit: " ms",
                        rounded: false,
                    },
                ),
            },
            ParamId::RevSize => ParamInfo {
                id: "rev_size",
                name: "Size",
                kind: ParamKind::Range(
                    RangeInfo {
                        min: Bits32 { bits: 0x0000_0000 },
                        max: Bits32 { bits: 0x42c8_0000 },
                        default: Bits32 { bits: 0x4282_0000 },
                        skew: None,
                        unit: " %",
                        rounded: true,
                    },
                ),
            },
            ParamId::RevDecay => ParamInfo {
                id: "rev_decay",
                name: "Decay",
                kind: ParamKind::Range(
                    RangeInfo {
                        min: Bits32 { bits: 0x3dcc_cccd },
                        max: Bits32 { bits: 0x41a0_0000 },
                        default: Bits32 { bits: 0x4019_999a },
                        skew: Some(Bits32 { bits: 0xc000_0000 }),
                        unit: " s",
                        rounded: false,
                    },
                ),
            },
            ParamId::RevDamp => ParamInfo {
                id: "rev_damp",
                name: "Damp",
                kind: ParamKind::Range(
                    RangeInfo {
                        min: Bits32 { bits: 0x0000_0000 },
                        max: Bits32 { bits: 0x42c8_0000 },
                        default: Bits32 { bits: 0x4220_0000 },
                        skew: None,
                        unit: " %",
                        rounded: true,
                    },
                ),
            },
            ParamId::RevWidth => ParamInfo {
                id: "rev_width",
                name: "Width",
                kind: ParamKind::Range(
                    RangeInfo {
                        min: Bits32 { bits: 0x0000_0000 },
                        max: Bits32 { bits: 0x4348_0000 },
                        default: Bits32 { bits: 0x42f0_0000 },
                        skew: None,
                        unit: " %",
                        rounded: true,
                    },
                ),
            },
            ParamId::RevWet => ParamInfo {
                id: "rev_wet",
                name: "Rev Wet",
                kind: ParamKind::Range(
                    RangeInfo {
                        min: Bits32 { bits: 0x0000_0000 },
                        max: Bits32 { bits: 0x42c8_0000 },
                        default: Bits32 { bits: 0x428c_0000 },
                        skew: None,
                        unit: " %",
                        rounded: true,
                    },
                ),
            },
            ParamId::RevFreeze => ParamInfo {
                id: "rev_freeze",
                name: "Freeze",
                kind: ParamKind::Switch { on: false },
            },
            ParamId::RevEqHp => ParamInfo {
                id: "rev_eq_hp",
                name: "Rev EQ HP",
                kind: ParamKind::Range(
                    RangeInfo {
                        min: Bits32 { bits: 0x41a0_0000 },
                        max: Bits32 { bits: 0x44fa_0000 },
                        default: Bits32 { bits: 0x41a0_0000 },
                        skew: Some(Bits32 { bits: 0xbfc0_0000 }),
                        unit: " Hz",
                        rounded: false,
                    },
                ),
            },
            ParamId::RevEqLp => ParamInfo {
                id: "rev_eq_lp",
                name: "Rev EQ LP",
                kind: ParamKind::Range(
                    RangeInfo {
                        min: Bits32 { bits: 0x447a_0000 },
                        max: Bits32 { bits: 0x469c_4000 },
                        default: Bits32 { bits: 0x468c_a000 },
                        skew: Some(Bits32 { bits: 0xbf80_0000 }),
                        unit: " Hz",
                        rounded: false,
                    },
                ),
            },
            ParamId::ScThreshold => ParamInfo {
                id: "sc_threshold",
                name: "SC Threshold",
                kind: ParamKind::Range(
                    RangeInfo {
                        min: Bits32 { bits: 0xc270_0000 },
                        max: Bits32 { bits: 0x0000_0000 },
                        default: Bits32 { bits: 0xc190_0000 },
                        skew: None,
                        unit: " dB",
                        rounded: false,
                    },
                ),
            },
            ParamId::ScAttack => ParamInfo {
                id: "sc_attack",
                name: "SC Attack",
                kind: ParamKind::Range(
                    RangeInfo {
                        min: Bits32 { bits: 0x3dcc_cccd },
                        max: Bits32 { bits: 0x4248_0000 },
                        default: Bits32 { bits: 0x4020_0000 },
                        skew: Some(Bits32 { bits: 0xc000_0000 }),
                        unit: " ms",
                        rounded: false,
                    },
                ),
            },
            ParamId::ScHold => ParamInfo {
                id: "sc_hold",
                name: "SC Hold",
                kind: ParamKind::Range(
                    RangeInfo {
                        min: Bits32 { bits: 0x0000_0000 },
                        max: Bits32 { bits: 0x43fa_0000 },
                        default: Bits32 { bits: 0x4270_0000 },
                        skew: None,
                        unit: " ms",
                        rounded: false,
                    },
                ),
            },
            ParamId::ScRelease => ParamInfo {
                id: "sc_release",
                name: "SC Release",
                kind: ParamKind::Range(
                    RangeInfo {
                        min: Bits32 { bits: 0x4120_0000 },
                        max: Bits32 { bits: 0x44fa_0000 },
                        default: Bits32 { bits: 0x438c_0000 },
                        skew: Some(Bits32 { bits: 0xbfc0_0000 }),
                        unit: " ms",
                        rounded: false,
                    },
                ),
            },
            ParamId::ScSource => ParamInfo {
                id: "sc_source",
                name: "SC Source",
                kind: ParamKind::Choice { variants: 2, variant: 1 },
            },
            ParamId::LfoEnabled => ParamInfo {
                id: "lfo_enabled",
                name: "LFO On",
                kind: ParamKind::Switch { on: true },
            },
            ParamId::LfoRate => ParamInfo {
                id: "lfo_rate",
                name: "LFO Rate",
                kind: ParamKind::Range(
                    RangeInfo {
                        min: Bits32 { bits: 0x3c23_d70a },
                        max: Bits32 { bits: 0x41a0_0000 },
                        default: Bits32 { bits: 0x4000_0000 },
                        skew: Some(Bits32 { bits: 0xc000_0000 }),
                        unit: " Hz",
                        rounded: false,
                    },
                ),
            },
            ParamId::LfoDepth => ParamInfo {
                id: "lfo_depth",
                name: "LFO Depth",
                kind: ParamKind::Range(
                    RangeInfo {
                        min: Bits32 { bits: 0x0000_0000 },
                        max: Bits32 { bits: 0x42c8_0000 },
                        default: Bits32 { bits: 0x4248_0000 },
                        skew: None,
                        unit: " %",
                        rounded: true,
                    },
                ),
            },
            ParamId::LfoPhase => ParamInfo {
                id: "lfo_phase",
                name: "LFO Phase",
                kind: ParamKind::Range(
                    RangeInfo {
                        min: Bits32 { bits: 0x0000_0000 },
                        max: Bits32 { bits: 0x43b4_0000 },
                        default: Bits32 { bits: 0x0000_0000 },
                        skew: None,
                        unit: "°",
                        rounded: true,
                    },
                ),
            },
            ParamId::LfoShape => ParamInfo {
                id: "lfo_shape",
                name: "LFO Shape",
                kind: ParamKind::Choice { variants: 5, variant: 0 },
            },
            ParamId::LfoTarget => ParamInfo {
                id: "lfo_target",
                name: "LFO Target",
                kind: ParamKind::Choice { variants: 4, variant: 0 },
            },
            ParamId::DlyEnabled => ParamInfo {
                id: "dly_enabled",
                name: "Delay On",
                kind: ParamKind::Switch { on: true },
            },
            ParamId::DlySync => ParamInfo {
                id: "dly_sync",
                name: "Delay Sync",
                kind: ParamKind::Switch { on: true },
            },
            ParamId::DlyTimeL => ParamInfo {
                id: "dly_time_l",
                name: "Delay L",
                kind: ParamKind::Range(
                    RangeInfo {
                        min: Bits32 { bits: 0x3f80_0000 },
                        max: Bits32 { bits: 0x44fa_0000 },
                        default: Bits32 { bits: 0x43c8_0000 },
                        skew: Some(Bits32 { bits: 0xbfc0_0000 }),
                        unit: " ms",
                        rounded: false,
                    },
                ),
            },
            ParamId::DlyTimeR => ParamInfo {
                id: "dly_time_r",
                name: "Delay R",
                kind: ParamKind::Range(
                    RangeInfo {
                        min: Bits32 { bits: 0x3f80_0000 },
                        max: Bits32 { bits: 0x44fa_0000 },
                        default: Bits32 { bits: 0x4416_0000 },
                        skew: Some(Bits32 { bits: 0xbfc0_0000 }),
                        unit: " ms",
                        rounded: false,
                    },
                ),
            },
            ParamId::DlyNoteL => ParamInfo {
                id: "dly_note_l",
                name: "Note L",
                kind: ParamKind::Choice { variants: 8, variant: 1 },
            },
            ParamId::DlyNoteR => ParamInfo {
                id: "dly_note_r",
                name: "Note R",
                kind: ParamKind::Choice { variants: 8, variant: 2 },
            },
            ParamId::DlyFeedback => ParamInfo {
                id: "dly_feedback",
                name: "Feedback",
                kind: ParamKind::Range(
                    RangeInfo {
                        min: Bits32 { bits: 0x0000_0000 },
                        max: Bits32 { bits: 0x42be_0000 },
                        default: Bits32 { bits: 0x420c_0000 },
                        skew: None,
                        unit: " %",
                        rounded: true,
                    },
                ),
            },
            ParamId::DlyHp => ParamInfo {
                id: "dly_hp",
                name: "Delay HP",
                kind: ParamKind::Range(
                    RangeInfo {
                        min: Bits32 { bits: 0x41a0_0000 },
                        max: Bits32 { bits: 0x44fa_0000 },
                        default: Bits32 { bits: 0x42f0_0000 },
                        skew: Some(Bits32 { bits: 0xbfc0_0000 }),
                        unit: " Hz",
                        rounded: false,
                    },
                ),
            },
            ParamId::DlyLp => ParamInfo {
                id: "dly_lp",
                name: "Delay LP",
                kind: ParamKind::Range(
                    RangeInfo {
                        min: Bits32 { bits: 0x447a_0000 },
                        max: Bits32 { bits: 0x469c_4000 },
                        default: Bits32 { bits: 0x45fa_0000 },
                        skew: Some(Bits32 { bits: 0xbf80_0000 }),
                        unit: " Hz",
                        rounded: false,
                    },
                ),
            },
            ParamId::DlyPingPong => ParamInfo {
                id: "dly_ping_pong",
                name: "Ping Pong",
                kind: ParamKind::Switch { on: true },
            },
            ParamId::DlyWet => ParamInfo {
                id: "dly_wet",
                name: "Dly Wet",
                kind: ParamKind::Range(
                    RangeInfo {
                        min: Bits32 { bits: 0x0000_0000 },
                        max: Bits32 { bits: 0x42c8_0000 },
                        default: Bits32 { bits: 0x425c_0000 },
                        skew: None,
                        unit: " %",
                        rounded: true,
                    },
                ),
            },
            ParamId::DlyModRate => ParamInfo {
                id: "dly_mod_rate",
                name: "Mod Rate",
                kind: ParamKind::Range(
                    RangeInfo {
                        min: Bits32 { bits: 0x3c23_d70a },
                        max: Bits32 { bits: 0x4120_0000 },
                        default: Bits32 { bits: 0x3f00_0000 },
                        skew: Some(Bits32 { bits: 0xc000_0000 }),
                        unit: " Hz",
                        rounded: false,
                    },
                ),
            },
            ParamId::DlyModDepth => ParamInfo {
                id: "dly_mod_depth",
                name: "Mod Depth",
                kind: ParamKind::Range(
                    RangeInfo {
                        min: Bits32 { bits: 0x0000_0000 },
                        max: Bits32 { bits: 0x42c8_0000 },
                        default: Bits32 { bits: 0x0000_0000 },
                        skew: None,
                        unit: " %",
                        rounded: true,
                    },
                ),
            },
            ParamId::DlySaturation => ParamInfo {
                id: "dly_saturation",
                name: "Saturation",
                kind: ParamKind::Range(
                    RangeInfo {
                        min: Bits32 { bits: 0x0000_0000 },
                        max: Bits32 { bits: 0x42c8_0000 },
                        default: Bits32 { bits: 0x0000_0000 },
                        skew: None,
                        unit: " %",
                        rounded: true,
                    },
                ),
            },
            ParamId::Mix => ParamInfo {
                id: "mix",
                name: "Mix",
                kind: ParamKind::Range(
                    RangeInfo {
                        min: Bits32 { bits: 0x0000_0000 },
                        max: Bits32 { bits: 0x42c8_0000 },
                        default: Bits32 { bits: 0x4296_0000 },
                        skew: None,
                        unit: " %",
                        rounded: true,
                    },
                ),
            },
            ParamId::Bypass => ParamInfo {
                id: "bypass",
                name: "Bypass",
                kind: ParamKind::Switch { on: false },
            },
            ParamId::Routing => ParamInfo {
                id: "routing",
                name: "Routing",
                kind: ParamKind::Choice { variants: 3, variant: 0 },
            },
        }
    }

    /// The parameter as the host is told about it.
    pub fn info(self) -> (r: ParamInfo)
        ensures
            r == self.described(),
    {
        match self {
            ParamId::RevEnabled => ParamInfo {
                id: "rev_enabled",
                name: "Reverb On",
                kind: ParamKind::Switch { on: true },
            },
            ParamId::RevType => ParamInfo {
                id: "rev_type",
                name: "Reverb Type",
                kind: ParamKind::Choice { variants: 4, variant: 0 },
            },
            ParamId::RevPredelay => ParamInfo {
                id: "rev_predelay",
                name: "Pre-Delay",
                kind: ParamKind::Range(
                    RangeInfo {
                        min: Bits32 { bits: 0x0000_0000 },
                        max: Bits32 { bits: 0x4348_0000 },
                        default: Bits32 { bits: 0x4190_0000 },
                        skew: None,
                        unit: " ms",
                        rounded: false,
                    },
                ),
            },
            ParamId::RevSize => ParamInfo {
                id: "rev_size",
                name: "Size",
                kind: ParamKind::Range(
                    RangeInfo {
                        min: Bits32 { bits: 0x0000_0000 },
                        max: Bits32 { bits: 0x42c8_0000 },
                        default: Bits32 { bits: 0x4282_0000 },
                        skew: None,
                        unit: " %",
                        rounded: true,
                    },
                ),
            },
            ParamId::RevDecay => ParamInfo {
                id: "rev_decay",
                name: "Decay",
                kind: ParamKind::Range(
                    RangeInfo {
                        min: Bits32 { bits: 0x3dcc_cccd },
                        max: Bits32 { bits: 0x41a0_0000 },
                        default: Bits32 { bits: 0x4019_999a },
                        skew: Some(Bits32 { bits: 0xc000_0000 }),
                        unit: " s",
                        rounded: false,
                    },
                ),
            },
            ParamId::RevDamp => ParamInfo {
                id: "rev_damp",
                name: "Damp",
                kind: ParamKind::Range(
                    RangeInfo {
                        min: Bits32 { bits: 0x0000_0000 },
                        max: Bits32 { bits: 0x42c8_0000 },
                        default: Bits32 { bits: 0x4220_0000 },
                        skew: None,
                        unit: " %",
                        rounded: true,
                    },
                ),
            },
            ParamId::RevWidth => ParamInfo {
                id: "rev_width",
                name: "Width",
                kind: ParamKind::Range(
                    RangeInfo {
                        min: Bits32 { bits: 0x0000_0000 },
                        max: Bits32 { bits: 0x4348_0000 },
                        default: Bits32 { bits: 0x42f0_0000 },
                        skew: None,
                        unit: " %",
                        rounded: true,
                    },
                ),
            },
            ParamId::RevWet => ParamInfo {
                id: "rev_wet",
                name: "Rev Wet",
                kind: ParamKind::Range(
                    RangeInfo {
                        min: Bits32 { bits: 0x0000_0000 },
                        max: Bits32 { bits: 0x42c8_0000 },
                        default: Bits32 { bits: 0x428c_0000 },
                        skew: None,
                        unit: " %",
                        rounded: true,
                    },
                ),
            },
            ParamId::RevFreeze => ParamInfo {
                id: "rev_freeze",
                name: "Freeze",
                kind: ParamKind::Switch { on: false },
            },
            ParamId::RevEqHp => ParamInfo {
                id: "rev_eq_hp",
                name: "Rev EQ HP",
                kind: ParamKind::Range(
                    RangeInfo {
                        min: Bits32 { bits: 0x41a0_0000 },
                        max: Bits32 { bits: 0x44fa_0000 },
                        default: Bits32 { bits: 0x41a0_0000 },
                        skew: Some(Bits32 { bits: 0xbfc0_0000 }),
                        unit: " Hz",
                        rounded: false,
                    },
                ),
            },
            ParamId::RevEqLp => ParamInfo {
                id: "rev_eq_lp",
                name: "Rev EQ LP",
                kind: ParamKind::Range(
                    RangeInfo {
                        min: Bits32 { bits: 0x447a_0000 },
                        max: Bits32 { bits: 0x469c_4000 },
                        default: Bits32 { bits: 0x468c_a000 },
                        skew: Some(Bits32 { bits: 0xbf80_0000 }),
                        unit: " Hz",
                        rounded: false,
                    },
                ),
            },
            ParamId::ScThreshold => ParamInfo {
                id: "sc_threshold",
                name: "SC Threshold",
                kind: ParamKind::Range(
                    RangeInfo {
                        min: Bits32 { bits: 0xc270_0000 },
                        max: Bits32 { bits: 0x0000_0000 },
                        default: Bits32 { bits: 0xc190_0000 },
                        skew: None,
                        unit: " dB",
                        rounded: false,
                    },
                ),
            },
            ParamId::ScAttack => ParamInfo {
                id: "sc_attack",
                name: "SC Attack",
                kind: ParamKind::Range(
                    RangeInfo {
                        min: Bits32 { bits: 0x3dcc_cccd },
                        max: Bits32 { bits: 0x4248_0000 },
                        default: Bits32 { bits: 0x4020_0000 },
                        skew: Some(Bits32 { bits: 0xc000_0000 }),
                        unit: " ms",
                        rounded: false,
                    },
                ),
            },
            ParamId::ScHold => ParamInfo {
                id: "sc_hold",
                name: "SC Hold",
                kind: ParamKind::Range(
                    RangeInfo {
                        min: Bits32 { bits: 0x0000_0000 },
                        max: Bits32 { bits: 0x43fa_0000 },
                        default: Bits32 { bits: 0x4270_0000 },
                        skew: None,
                        unit: " ms",
                        rounded: false,
                    },
                ),
            },
            ParamId::ScRelease => ParamInfo {
                id: "sc_release",
                name: "SC Release",
                kind: ParamKind::Range(
                    RangeInfo {
                        min: Bits32 { bits: 0x4120_0000 },
                        max: Bits32 { bits: 0x44fa_0000 },
                        default: Bits32 { bits: 0x438c_0000 },
                        skew: Some(Bits32 { bits: 0xbfc0_0000 }),
                        unit: " ms",
                        rounded: false,
                    },
                ),
            },
            ParamId::ScSource => ParamInfo {
                id: "sc_source",
                name: "SC Source",
                kind: ParamKind::Choice { variants: 2, variant: 1 },
            },
            ParamId::LfoEnabled => ParamInfo {
                id: "lfo_enabled",
                name: "LFO On",
                kind: ParamKind::Switch { on: true },
            },
            ParamId::LfoRate => ParamInfo {
                id: "lfo_rate",
                name: "LFO Rate",
                kind: ParamKind::Range(
                    RangeInfo {
                        min: Bits32 { bits: 0x3c23_d70a },
                        max: Bits32 { bits: 0x41a0_0000 },
                        default: Bits32 { bits: 0x4000_0000 },
                        skew: Some(Bits32 { bits: 0xc000_0000 }),
                        unit: " Hz",
                        rounded: false,
                    },
                ),
            },
            ParamId::LfoDepth => ParamInfo {
                id: "lfo_depth",
                name: "LFO Depth",
                kind: ParamKind::Range(
                    RangeInfo {
                        min: Bits32 { bits: 0x0000_0000 },
                        max: Bits32 { bits: 0x42c8_0000 },
                        default: Bits32 { bits: 0x4248_0000 },
                        skew: None,
                        unit: " %",
                        rounded: true,
                    },
                ),
            },
            ParamId::LfoPhase => ParamInfo {
                id: "lfo_phase",
                name: "LFO Phase",
                kind: ParamKind::Range(
                    RangeInfo {
                        min: Bits32 { bits: 0x0000_0000 },
                        max: Bits32 { bits: 0x43b4_0000 },
                        default: Bits32 { bits: 0x0000_0000 },
                        skew: None,
                        unit: "°",
                        rounded: true,
                    },
                ),
            },
            ParamId::LfoShape => ParamInfo {
                id: "lfo_shape",
                name: "LFO Shape",
                kind: ParamKind::Choice { variants: 5, variant: 0 },
            },
            ParamId::LfoTarget => ParamInfo {
                id: "lfo_target",
                name: "LFO Target",
                kind: ParamKind::Choice { variants: 4, variant: 0 },
            },
            ParamId::DlyEnabled => ParamInfo {
                id: "dly_enabled",
                name: "Delay On",
                kind: ParamKind::Switch { on: true },
            },
            ParamId::DlySync => ParamInfo {
                id: "dly_sync",
                name: "Delay Sync",
                kind: ParamKind::Switch { on: true },
            },
            ParamId::DlyTimeL => ParamInfo {
                id: "dly_time_l",
                name: "Delay L",
                kind: ParamKind::Range(
                    RangeInfo {
                        min: Bits32 { bits: 0x3f80_0000 },
                        max: Bits32 { bits: 0x44fa_0000 },
                        default: Bits32 { bits: 0x43c8_0000 },
                        skew: Some(Bits32 { bits: 0xbfc0_0000 }),
                        unit: " ms",
                        rounded: false,
                    },
                ),
            },
            ParamId::DlyTimeR => ParamInfo {
                id: "dly_time_r",
                name: "Delay R",
                kind: ParamKind::Range(
                    RangeInfo {
                        min: Bits32 { bits: 0x3f80_0000 },
                        max: Bits32 { bits: 0x44fa_0000 },
                        default: Bits32 { bits: 0x4416_0000 },
                        skew: Some(Bits32 { bits: 0xbfc0_0000 }),
                        unit: " ms",
                        rounded: false,
                    },
                ),
            },
            ParamId::DlyNoteL => ParamInfo {
                id: "dly_note_l",
                name: "Note L",
                kind: ParamKind::Choice { variants: 8, variant: 1 },
            },
            ParamId::DlyNoteR => ParamInfo {
                id: "dly_note_r",
                name: "Note R",
                kind: ParamKind::Choice { variants: 8, variant: 2 },
            },
            ParamId::DlyFeedback => ParamInfo {
                id: "dly_feedback",
                name: "Feedback",
                kind: ParamKind::Range(
                    RangeInfo {
                        min: Bits32 { bits: 0x0000_0000 },
                        max: Bits32 { bits: 0x42be_0000 },
                        default: Bits32 { bits: 0x420c_0000 },
                        skew: None,
                        unit: " %",
                        rounded: true,
                    },
                ),
            },
            ParamId::DlyHp => ParamInfo {
                id: "dly_hp",
                name: "Delay HP",
                kind: ParamKind::Range(
                    RangeInfo {
                        min: Bits32 { bits: 0x41a0_0000 },
                        max: Bits32 { bits: 0x44fa_0000 },
                        default: Bits32 { bits: 0x42f0_0000 },
                        skew: Some(Bits32 { bits: 0xbfc0_0000 }),
                        unit: " Hz",
                        rounded: false,
                    },
                ),
            },
            ParamId::DlyLp => ParamInfo {
                id: "dly_lp",
                name: "Delay LP",
                kind: ParamKind::Range(
                    RangeInfo {
                        min: Bits32 { bits: 0x447a_0000 },
                        max: Bits32 { bits: 0x469c_4000 },
                        default: Bits32 { bits: 0x45fa_0000 },
                        skew: Some(Bits32 { bits: 0xbf80_0000 }),
                        unit: " Hz",
                        rounded: false,
                    },
                ),
            },
            ParamId::DlyPingPong => ParamInfo {
                id: "dly_ping_pong",
                name: "Ping Pong",
                kind: ParamKind::Switch { on: true },
            },
            ParamId::DlyWet => ParamInfo {
                id: "dly_wet",
                name: "Dly Wet",
                kind: ParamKind::Range(
                    RangeInfo {
                        min: Bits32 { bits: 0x0000_0000 },
                        max: Bits32 { bits: 0x42c8_0000 },
                        default: Bits32 { bits: 0x425c_0000 },
                        skew: None,
                        unit: " %",
                        rounded: true,
                    },
                ),
            },
            ParamId::DlyModRate => ParamInfo {
                id: "dly_mod_rate",
                name: "Mod Rate",
                kind: ParamKind::Range(
                    RangeInfo {
                        min: Bits32 { bits: 0x3c23_d70a },
                        max: Bits32 { bits: 0x4120_0000 },
                        default: Bits32 { bits: 0x3f00_0000 },
                        skew: Some(Bits32 { bits: 0xc000_0000 }),
                        unit: " Hz",
                        rounded: false,
                    },
                ),
            },
            ParamId::DlyModDepth => ParamInfo {
                id: "dly_mod_depth",
                name: "Mod Depth",
                kind: ParamKind::Range(
                    RangeInfo {
                        min: Bits32 { bits: 0x0000_0000 },
                        max: Bits32 { bits: 0x42c8_0000 },
                        default: Bits32 { bits: 0x0000_0000 },
                        skew: None,
                        unit: " %",
                        rounded: true,
                    },
                ),
            },
            ParamId::DlySaturation => ParamInfo {
                id: "dly_saturation",
                name: "Saturation",
                kind: ParamKind::Range(
                    RangeInfo {
                        min: Bits32 { bits: 0x0000_0000 },
                        max: Bits32 { bits: 0x42c8_0000 },
                        default: Bits32 { bits: 0x0000_0000 },
                        skew: None,
                        unit: " %",
                        rounded: true,
                    },
                ),
            },
            ParamId::Mix => ParamInfo {
                id: "mix",
                name: "Mix",
                kind: ParamKind::Range(
                    RangeInfo {
                        min: Bits32 { bits: 0x0000_0000 },
                        max: Bits32 { bits: 0x42c8_0000 },
                        default: Bits32 { bits: 0x4296_0000 },
                        skew: None,
                        unit: " %",
                        rounded: true,
                    },
                ),
            },
            ParamId::Bypass => ParamInfo {
                id: "bypass",
                name: "Bypass",
                kind: ParamKind::Switch { on: false },
            },
            ParamId::Routing => ParamInfo {
                id: "routing",
                name: "Routing",
                kind: ParamKind::Choice { variants: 3, variant: 0 },
            },
        }
    }

    /// The place of the parameter among the others.
    pub open spec fn position(self) -> int {
        match self {
            ParamId::RevEnabled => 0,
            ParamId::RevType => 1,
            ParamId::RevPredelay => 2,
            ParamId::RevSize => 3,
            ParamId::RevDecay => 4,
            ParamId::RevDamp => 5,
            ParamId::RevWidth => 6,
            ParamId::RevWet => 7,
            ParamId::RevFreeze => 8,
            ParamId::RevEqHp => 9,
            ParamId::RevEqLp => 10,
            ParamId::ScThreshold => 11,
            ParamId::ScAttack => 12,
            ParamId::ScHold => 13,
            ParamId::ScRelease => 14,
            ParamId::ScSource => 15,
            ParamId::LfoEnabled => 16,
            ParamId::LfoRate => 17,
            ParamId::LfoDepth => 18,
            ParamId::LfoPhase => 19,
            ParamId::LfoShape => 20,
            ParamId::LfoTarget => 21,
            ParamId::DlyEnabled => 22,
            ParamId::DlySync => 23,
            ParamId::DlyTimeL => 24,
            ParamId::DlyTimeR => 25,
            ParamId::DlyNoteL => 26,
            ParamId::DlyNoteR => 27,
            ParamId::DlyFeedback => 28,
            ParamId::DlyHp => 29,
            ParamId::DlyLp => 30,
            ParamId::DlyPingPong => 31,
            ParamId::DlyWet => 32,
            ParamId::DlyModRate => 33,
            ParamId::DlyModDepth => 34,
            ParamId::DlySaturation => 35,
            ParamId::Mix => 36,
            ParamId::Bypass => 37,
            ParamId::Routing => 38,
        }
    }

    /// The parameter with this id.
    pub fn find(id: &str) -> (r: Option<ParamId>)
        ensures
            match r {
                Some(p) => p.described().id@ == id@,
                None => forall|p: ParamId| (#[trigger] p.described()).id@ != id@,
            },
    {
        let mut i: usize = 0;
        while i < 39
            invariant
                i <= 39,
                forall|j: int| 0 <= j < i ==> (#[trigger] ALL_PARAMS@[j]).described().id@ != id@,
            decreases 39 - i,
        {
            let p = ALL_PARAMS[i];
            if text::same_text(p.info().id, id) {
                return Some(p);
            }
            i += 1;
        }
        assert forall|p: ParamId| (#[trigger] p.described()).id@ != id@ by {
            law_every_parameter_is_listed(p);
            assert(ALL_PARAMS@[p.position()] == p);
        }
        None
    }

    /// The number a range parameter starts from.
    pub open spec fn default_number(self) -> Bits32
        recommends
            self.described().kind is Range,
    {
        self.described().kind->Range_0.default
    }

    /// The position a switch starts from.
    pub open spec fn default_switch(self) -> bool
        recommends
            self.described().kind is Switch,
    {
        self.described().kind->on
    }

    /// The variant a choice starts from.
    pub open spec fn default_choice(self) -> u32
        recommends
            self.described().kind is Choice,
    {
        self.described().kind->variant
    }
}

/// The values of all parameters at one moment.
#[derive(Clone, Copy)]
pub struct WettBoiParams {
    pub rev_enabled: bool,
    pub rev_type: ReverbType,
    pub rev_predelay: Bits32,
    pub rev_size: Bits32,
    pub rev_decay: Bits32,
    pub rev_damp: Bits32,
    pub rev_width: Bits32,
    pub rev_wet: Bits32,
    pub rev_freeze: bool,
    pub rev_eq_hp: Bits32,
    pub rev_eq_lp: Bits32,
    pub sc_threshold: Bits32,
    pub sc_attack: Bits32,
    pub sc_hold: Bits32,
    pub sc_release: Bits32,
    pub sc_source: ScSource,
    pub lfo_enabled: bool,
    pub lfo_rate: Bits32,
    pub lfo_depth: Bits32,
    pub lfo_phase: Bits32,
    pub lfo_shape: LfoShape,
    pub lfo_target: LfoTarget,
    pub dly_enabled: bool,
    pub dly_sync: bool,
    pub dly_time_l: Bits32,
    pub dly_time_r: Bits32,
    pub dly_note_l: NoteDiv,
    pub dly_note_r: NoteDiv,
    pub dly_feedback: Bits32,
    pub dly_hp: Bits32,
    pub dly_lp: Bits32,
    pub dly_ping_pong: bool,
    pub dly_wet: Bits32,
    pub dly_mod_rate: Bits32,
    pub dly_mod_depth: Bits32,
    pub dly_saturation: Bits32,
    pub mix: Bits32,
    pub bypass: bool,
    pub routing: RoutingMode,
}

impl Default for WettBoiParams {
    /// Every parameter at its default.
    fn default() -> (r: Self)
        ensures
            r.rev_enabled == ParamId::RevEnabled.default_switch(),
            r.rev_type.position() == ParamId::RevType.default_choice(),
            r.rev_predelay == ParamId::RevPredelay.default_number(),
            r.rev_size == ParamId::RevSize.default_number(),
            r.rev_decay == ParamId::RevDecay.default_number(),
            r.rev_damp == ParamId::RevDamp.default_number(),
            r.rev_width == ParamId::RevWidth.default_number(),
            r.rev_wet == ParamId::RevWet.default_number(),
            r.rev_freeze == ParamId::RevFreeze.default_switch(),
            r.rev_eq_hp == ParamId::RevEqHp.default_number(),
            r.rev_eq_lp == ParamId::RevEqLp.default_number(),
            r.sc_threshold == ParamId::ScThreshold.default_number(),
            r.sc_attack == ParamId::ScAttack.default_number(),
            r.sc_hold == ParamId::ScHold.default_number(),
            r.sc_release == ParamId::ScRelease.default_number(),
            r.sc_source.position() == ParamId::ScSource.default_choice(),
            r.lfo_enabled == ParamId::LfoEnabled.default_switch(),
            r.lfo_rate == ParamId::LfoRate.default_number(),
            r.lfo_depth == ParamId::LfoDepth.default_number(),
            r.lfo_phase == ParamId::LfoPhase.default_number(),
            r.lfo_shape.position() == ParamId::LfoShape.default_choice(),
            r.lfo_target.position() == ParamId::LfoTarget.default_choice(),
            r.dly_enabled == ParamId::DlyEnabled.default_switch(),
            r.dly_sync == ParamId::DlySync.default_switch(),
            r.dly_time_l == ParamId::DlyTimeL.default_number(),
            r.dly_time_r == ParamId::DlyTimeR.default_number(),
            r.dly_note_l.position() == ParamId::DlyNoteL.default_choice(),
            r.dly_note_r.position() == ParamId::DlyNoteR.default_choice(),
            r.dly_feedback == ParamId::DlyFeedback.default_number(),
            r.dly_hp == ParamId::DlyHp.default_number(),
            r.dly_lp == ParamId::DlyLp.default_number(),
            r.dly_ping_pong == ParamId::DlyPingPong.default_switch(),
            r.dly_wet == ParamId::DlyWet.default_number(),
            r.dly_mod_rate == ParamId::DlyModRate.default_number(),
            r.dly_mod_depth == ParamId::DlyModDepth.default_number(),
            r.dly_saturation == ParamId::DlySaturation.default_number(),
            r.mix == ParamId::Mix.default_number(),
            r.bypass == ParamId::Bypass.default_switch(),
            r.routing.position() == ParamId::Routing.default_choice(),
    {
        WettBoiParams {
            rev_enabled: true,
            rev_type: ReverbType::Room,
            rev_predelay: Bits32 { bits: 0x4190_0000 },
            rev_size: Bits32 { bits: 0x4282_0000 },
            rev_decay: Bits32 { bits: 0x4019_999a },
            rev_damp: Bits32 { bits: 0x4220_0000 },
            rev_width: Bits32 { bits: 0x42f0_0000 },
            rev_wet: Bits32 { bits: 0x428c_0000 },
            rev_freeze: false,
            rev_eq_hp: Bits32 { bits: 0x41a0_0000 },
            rev_eq_lp: Bits32 { bits: 0x468c_a000 },
            sc_threshold: Bits32 { bits: 0xc190_0000 },
            sc_attack: Bits32 { bits: 0x4020_0000 },
            sc_hold: Bits32 { bits: 0x4270_0000 },
            sc_release: Bits32 { bits: 0x438c_0000 },
            sc_source: ScSource::Sidechain,
            lfo_enabled: true,
            lfo_rate: Bits32 { bits: 0x4000_0000 },
            lfo_depth: Bits32 { bits: 0x4248_0000 },
            lfo_phase: Bits32 { bits: 0x0000_0000 },
            lfo_shape: LfoShape::Sine,
            lfo_target: LfoTarget::RevWet,
            dly_enabled: true,
            dly_sync: true,
            dly_time_l: Bits32 { bits: 0x43c8_0000 },
            dly_time_r: Bits32 { bits: 0x4416_0000 },
            dly_note_l: NoteDiv::Eighth,
            dly_note_r: NoteDiv::DottedEighth,
            dly_feedback: Bits32 { bits: 0x420c_0000 },
            dly_hp: Bits32 { bits: 0x42f0_0000 },
            dly_lp: Bits32 { bits: 0x45fa_0000 },
            dly_ping_pong: true,
            dly_wet: Bits32 { bits: 0x425c_0000 },
            dly_mod_rate: Bits32 { bits: 0x3f00_0000 },
            dly_mod_depth: Bits32 { bits: 0x0000_0000 },
            dly_saturation: Bits32 { bits: 0x0000_0000 },
            mix: Bits32 { bits: 0x4296_0000 },
            bypass: false,
            routing: RoutingMode::Parallel,
        }
    }
}

/// A range runs upwards over finite numbers and starts inside; a choice starts
/// from one of its variants.
pub proof fn law_defaults_are_in_range(p: ParamId)
    ensures
        match p.described().kind {
            ParamKind::Switch { on } => true,
            ParamKind::Choice { variants, variant } => variant < variants,
            ParamKind::Range(range) => {
                &&& range.min.is_finite()
                &&& range.max.is_finite()
                &&& range.min.is_below(range.max)
                &&& range.default.is_within(range.min, range.max)
            },
        },
{
    if let ParamKind::Range(range) = p.described().kind {
        bits::law_rank_is_the_order(range.min, range.max);
        bits::law_rank_is_the_order(range.min, range.default);
        bits::law_rank_is_the_order(range.default, range.max);
    }
}

/// The list holds every parameter, each at its own place.
pub proof fn law_every_parameter_is_listed(p: ParamId)
    ensures
        0 <= p.position() < ALL_PARAMS@.len(),
        ALL_PARAMS@[p.position()] == p,
{
}

/// The length and four characters of an id, which tell it from all others.
spec fn mark(p: ParamId) -> (int, char, char, char, char) {
    match p {
        ParamId::RevEnabled => (11, 'r', 'e', 'e', 'd'),
        ParamId::RevType => (8, 'r', 't', 'p', 'e'),
        ParamId::RevPredelay => (12, 'r', 'p', 'a', 'y'),
        ParamId::RevSize => (8, 'r', 's', 'z', 'e'),
        ParamId::RevDecay => (9, 'r', 'd', 'a', 'y'),
        ParamId::RevDamp => (8, 'r', 'd', 'm', 'p'),
        ParamId::RevWidth => (9, 'r', 'w', 't', 'h'),
        ParamId::RevWet => (7, 'r', 'w', 'e', 't'),
        ParamId::RevFreeze => (10, 'r', 'f', 'z', 'e'),
        ParamId::RevEqHp => (9, 'r', 'e', 'h', 'p'),
        ParamId::RevEqLp => (9, 'r', 'e', 'l', 'p'),
        ParamId::ScThreshold => (12, 's', 'h', 'l', 'd'),
        ParamId::ScAttack => (9, 's', 't', 'c', 'k'),
        ParamId::ScHold => (7, 's', 'o', 'l', 'd'),
        ParamId::ScRelease => (10, 's', 'e', 's', 'e'),
        ParamId::ScSource => (9, 's', 'o', 'c', 'e'),
        ParamId::LfoEnabled => (11, 'l', 'e', 'e', 'd'),
        ParamId::LfoRate => (8, 'l', 'r', 't', 'e'),
        ParamId::LfoDepth => (9, 'l', 'd', 't', 'h'),
        ParamId::LfoPhase => (9, 'l', 'p', 's', 'e'),
        ParamId::LfoShape => (9, 'l', 's', 'p', 'e'),
        ParamId::LfoTarget => (10, 'l', 't', 'e', 't'),
        ParamId::DlyEnabled => (11, 'd', 'e', 'e', 'd'),
        ParamId::DlySync => (8, 'd', 's', 'n', 'c'),
        ParamId::DlyTimeL => (10, 'd', 't', '_', 'l'),
        ParamId::DlyTimeR => (10, 'd', 't', '_', 'r'),
        ParamId::DlyNoteL => (10, 'd', 'n', '_', 'l'),
        ParamId::DlyNoteR => (10, 'd', 'n', '_', 'r'),
        ParamId::DlyFeedback => (12, 'd', 'f', 'c', 'k'),
        ParamId::DlyHp => (6, 'd', 'h', 'h', 'p'),
        ParamId::DlyLp => (6, 'd', 'l', 'l', 'p'),
        ParamId::DlyPingPong => (13, 'd', 'p', 'n', 'g'),
        ParamId::DlyWet => (7, 'd', 'w', 'e', 't'),
        ParamId::DlyModRate => (12, 'd', 'm', 't', 'e'),
        ParamId::DlyModDepth => (13, 'd', 'm', 't', 'h'),
        ParamId::DlySaturation => (14, 'd', 's', 'o', 'n'),
        ParamId::Mix => (3, 'm', ' ', 'i', 'x'),
        ParamId::Bypass => (6, 'b', 's', 's', 's'),
        ParamId::Routing => (7, 'r', 'i', 'n', 'g'),
    }
}

/// The mark can be read off the id.
proof fn lemma_mark(p: ParamId)
    ensures
        ({
            let id = p.described().id@;
            let n = id.len() as int;
            &&& n == mark(p).0
            &&& id[0] == mark(p).1
            &&& n > 4 ==> id[4] == mark(p).2
            &&& id[n - 2] == mark(p).3
            &&& id[n - 1] == mark(p).4
        }),
{
    match p {
        ParamId::RevEnabled => reveal_strlit("rev_enabled"),
        ParamId::RevType => reveal_strlit("rev_type"),
        ParamId::RevPredelay => reveal_strlit("rev_predelay"),
        ParamId::RevSize => reveal_strlit("rev_size"),
        ParamId::RevDecay => reveal_strlit("rev_decay"),
        ParamId::RevDamp => reveal_strlit("rev_damp"),
        ParamId::RevWidth => reveal_strlit("rev_width"),
        ParamId::RevWet => reveal_strlit("rev_wet"),
        ParamId::RevFreeze => reveal_strlit("rev_freeze"),
        ParamId::RevEqHp => reveal_strlit("rev_eq_hp"),
        ParamId::RevEqLp => reveal_strlit("rev_eq_lp"),
        ParamId::ScThreshold => reveal_strlit("sc_threshold"),
        ParamId::ScAttack => reveal_strlit("sc_attack"),
        ParamId::ScHold => reveal_strlit("sc_hold"),
        ParamId::ScRelease => reveal_strlit("sc_release"),
        ParamId::ScSource => reveal_strlit("sc_source"),
        ParamId::LfoEnabled => reveal_strlit("lfo_enabled"),
        ParamId::LfoRate => reveal_strlit("lfo_rate"),
        ParamId::LfoDepth => reveal_strlit("lfo_depth"),
        ParamId::LfoPhase => reveal_strlit("lfo_phase"),
        ParamId::LfoShape => reveal_strlit("lfo_shape"),
        ParamId::LfoTarget => reveal_strlit("lfo_target"),
        ParamId::DlyEnabled => reveal_strlit("dly_enabled"),
        ParamId::DlySync => reveal_strlit("dly_sync"),
        ParamId::DlyTimeL => reveal_strlit("dly_time_l"),
        ParamId::DlyTimeR => reveal_strlit("dly_time_r"),
        ParamId::DlyNoteL => reveal_strlit("dly_note_l"),
        ParamId::DlyNoteR => reveal_strlit("dly_note_r"),
        ParamId::DlyFeedback => reveal_strlit("dly_feedback"),
        ParamId::DlyHp => reveal_strlit("dly_hp"),
        ParamId::DlyLp => reveal_strlit("dly_lp"),
        ParamId::DlyPingPong => reveal_strlit("dly_ping_pong"),
        ParamId::DlyWet => reveal_strlit("dly_wet"),
        ParamId::DlyModRate => reveal_strlit("dly_mod_rate"),
        ParamId::DlyModDepth => reveal_strlit("dly_mod_depth"),
        ParamId::DlySaturation => reveal_strlit("dly_saturation"),
        ParamId::Mix => reveal_strlit("mix"),
        ParamId::Bypass => reveal_strlit("bypass"),
        ParamId::Routing => reveal_strlit("routing"),
    }
}

/// No two parameters have the same id.
pub proof fn law_ids_are_distinct(a: ParamId, b: ParamId)
    requires
        a.described().id@ == b.described().id@,
    ensures
        a == b,
{
    lemma_mark(a);
    lemma_mark(b);
}

/// The length of a note in quarters of a beat: a sixteenth is one, an eighth two, a
/// quarter four and so on, and a dotted note is half as long again.
pub open spec fn quarters(n: NoteDiv) -> int {
    match n {
        NoteDiv::Sixteenth => 1,
        NoteDiv::Eighth => 2,
        NoteDiv::DottedEighth => 2int + 1,
        NoteDiv::Quarter => 4,
        NoteDiv::DottedQuarter => 4int + 2,
        NoteDiv::Half => 8,
        NoteDiv::DottedHalf => 8int + 4,
        NoteDiv::Whole => 16,
    }
}

/// What a note length stands for.
pub proof fn lemma_note_value(n: NoteDiv, beats: Bits32)
    requires
        beats.worth() * 4 == n.sixteenths() * bits::one().worth(),
    ensures
        bits::value(beats) * 4 as real == quarters(n) as real,
{
    bits::lemma_values();
    power2::lemma_pow2_pos(149);
    let p = power2::pow2(149) as real;
    let w = beats.worth() as real;
    let k = quarters(n) as real;
    assert(beats.worth() * 4 == quarters(n) * power2::pow2(149));
    bits::lemma_product(beats.worth(), 4);
    bits::lemma_product(quarters(n), power2::pow2(149));
    assert(w * 4 as real == k * p);
    let v = w / p;
    assert(v * p == w) by (nonlinear_arith)
        requires
            v == w / p,
            p > 0 as real,
    ;
    assert(v * 4 as real == k) by (nonlinear_arith)
        requires
            v * p == w,
            w * 4 as real == k * p,
            p > 0 as real,
    ;
}

/// Doubling a note doubles its length, and a dot makes it half as long again; a
/// quarter is one beat.
pub proof fn law_notes_double_and_dots_add_half(beats: Bits32)
    ensures
        NoteDiv::Eighth.sixteenths() == 2 * NoteDiv::Sixteenth.sixteenths(),
        NoteDiv::Quarter.sixteenths() == 2 * NoteDiv::Eighth.sixteenths(),
        NoteDiv::Half.sixteenths() == 2 * NoteDiv::Quarter.sixteenths(),
        NoteDiv::Whole.sixteenths() == 2 * NoteDiv::Half.sixteenths(),
        2 * NoteDiv::DottedEighth.sixteenths() == 3 * NoteDiv::Eighth.sixteenths(),
        2 * NoteDiv::DottedQuarter.sixteenths() == 3 * NoteDiv::Quarter.sixteenths(),
        2 * NoteDiv::DottedHalf.sixteenths() == 3 * NoteDiv::Half.sixteenths(),
        NoteDiv::Quarter.sixteenths() == 4,
        beats.worth() * 4 == NoteDiv::Quarter.sixteenths() * bits::one().worth() ==> bits::value(
            beats,
        ) == 1 as real,
{
    if beats.worth() * 4 == NoteDiv::Quarter.sixteenths() * bits::one().worth() {
        bits::lemma_values();
        bits::law_values_are_in_order(beats, bits::one());
    }
}

}
