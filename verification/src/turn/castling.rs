//! The two ways of castling.
use vstd::prelude::*;

verus! {

/// The type of castling
#[derive(Clone, Copy, Debug, PartialEq, Eq, Structural)]
pub enum CastlingType {
    /// Queenside castling
    Long,
    /// Kingside castling
    Short,
}

} // verus!
