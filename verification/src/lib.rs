//! Core of a terminal multiplexer: pane layout as a binary split tree,
//! window and session state, a leader-key input interpreter, a framed
//! message codec, and status-bar content generation.
//!
//! The crate is independent of any rendering, PTY or socket layer: it
//! works on plain values (cell rectangles, byte buffers, key events
//! already reduced to characters and modifier flags) so that every
//! operation can be specified and verified.

pub mod cli;
pub mod command;
pub mod config;
pub mod error;
pub mod fmt;
pub mod json;
pub mod layout;
pub mod mux_input;
pub mod pane;
pub mod persistence;
pub mod protocol;
pub mod rect;
pub mod render;
pub mod resize;
pub mod server;
pub mod session;
pub mod socket;
pub mod split;
pub mod statusbar;
pub mod window;

use vstd::prelude::*;

verus! {

/// Smallest ratio (in thousandths) a split may hold after a resize.
pub const MIN_RATIO: u16 = 100;

/// Largest ratio (in thousandths) a split may hold after a resize.
pub const MAX_RATIO: u16 = 900;

/// Denominator of the ratio scale: a ratio of `RATIO_UNIT` assigns the
/// whole parent dimension to the first child.
pub const RATIO_UNIT: u16 = 1000;

} // verus!
