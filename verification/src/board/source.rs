//! The source of a move, as given by disambiguation notation.
use vstd::prelude::*;

use super::line::Line;
use super::square::Square;

verus! {

/// The origin of a moving piece, as far as the notation pins it down.
#[derive(Clone, Copy, Debug, PartialEq, Eq, Structural)]
pub enum Source {
    /// A line source, which can be a file or a rank
    Line(Line),
    /// An exact square source
    Square(Square),
}

} // verus!
