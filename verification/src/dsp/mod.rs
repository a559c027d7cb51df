//! The state of the audio code and its decisions. The arithmetic on samples
//! stands outside this library: a number here is held by its bits.

pub mod biquad;
pub mod delay;
pub mod envelope;
pub mod lfo;
pub mod mix;
pub mod reverb;
pub mod ring;
pub mod sidechain;
