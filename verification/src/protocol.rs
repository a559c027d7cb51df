//! What the plug-in and the page of its editor send each other.

use vstd::prelude::*;

use crate::bits::Bits32;

verus! {

/// The version of the plug-in.
pub const VERSION: &'static str = "0.4.4";

/// Everything the page shows, pushed to it again and again while it is open.
#[derive(Clone, Debug)]
pub struct WbPacket {
    pub bpm: Bits32,
    pub rev_enabled: bool,
    pub rev_predelay: Bits32,
    pub rev_size: Bits32,
    pub rev_decay: Bits32,
    pub rev_damp: Bits32,
    pub rev_width: Bits32,
    pub rev_wet: Bits32,
    pub rev_type: String,
    pub rev_freeze: bool,
    pub rev_eq_hp: Bits32,
    pub rev_eq_lp: Bits32,
    pub sc_threshold: Bits32,
    /// Current level of the key signal, linear.
    pub sc_key_level: Bits32,
    /// The threshold the key is compared against, linear.
    pub sc_threshold_lin: Bits32,
    pub sc_attack: Bits32,
    pub sc_hold: Bits32,
    pub sc_release: Bits32,
    pub sc_source: String,
    /// Current duck depth (0 = no duck, 1 = fully ducked).
    pub sc_duck_depth: Bits32,
    pub lfo_enabled: bool,
    pub lfo_rate: Bits32,
    pub lfo_depth: Bits32,
    pub lfo_phase: Bits32,
    pub lfo_shape: String,
    pub lfo_target: String,
    pub lfo_value: Bits32,
    pub dly_enabled: bool,
    pub dly_sync: bool,
    pub dly_time_l: Bits32,
    pub dly_time_r: Bits32,
    pub dly_note_l: String,
    pub dly_note_r: String,
    pub dly_feedback: Bits32,
    pub dly_hp: Bits32,
    pub dly_lp: Bits32,
    pub dly_ping_pong: bool,
    pub dly_wet: Bits32,
    pub dly_mod_rate: Bits32,
    pub dly_mod_depth: Bits32,
    pub dly_saturation: Bits32,
    pub mix: Bits32,
    pub bypass: bool,
    pub routing: String,
    pub preset: String,
    pub input_peak_l: Bits32,
    pub input_peak_r: Bits32,
    pub output_peak_l: Bits32,
    pub output_peak_r: Bits32,
}

}
