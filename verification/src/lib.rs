//! Hardwave WettBoi: a sidechain reverb and delay plug-in.
//!
//! This library holds what the plug-in decides: which saved states it accepts,
//! what its controls are and how the page of its editor names them, what a
//! message from that page asks for, how its two effects are wired together, what
//! its delay and its reverb remember, when the sidechain ducks, what may leave
//! the plug-in, whether its interface can be reached, and what is written down
//! when something goes wrong.
//!
//! Sound is arithmetic on floating point numbers, and stands outside. The
//! library holds such a number by its bits (see [`bits`]): it stores, compares,
//! clamps and selects them exactly, and takes what only arithmetic can give as
//! an argument.

pub mod auth;
pub mod bits;
pub mod clap_export;
pub mod crash_log;
pub mod crash_reporter;
pub mod diag;
pub mod dsp;
pub mod editor;
pub mod engine;
pub mod instance;
pub mod ipc;
pub mod page;
pub mod params;
pub mod probe;
pub mod protocol;
pub mod rounding;
pub mod routing;
pub mod state;
pub mod text;
