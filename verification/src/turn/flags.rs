//! Bit-flag constants for the capture, check, and checkmate marks of a turn.
use vstd::prelude::*;

verus! {

/// No special flags
pub const NONE: u8 = 0;

/// The move gives check
pub const CHECK: u8 = 1;

/// The move gives checkmate
pub const CHECKMATE: u8 = 2;

/// The move captures a piece
pub const CAPTURE: u8 = 4;

} // verus!
