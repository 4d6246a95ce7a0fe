//! The description of a single piece move.
use vstd::prelude::*;

use crate::board::{Source, Square};
use crate::pieces::PieceType;

verus! {

/// The information specifying a piece move
#[derive(Clone, Copy, Debug, PartialEq, Eq, Structural)]
pub struct Move {
    /// The kind of piece that is moving
    pub piece: PieceType,
    /// The destination square of the move
    pub dst: Square,
    /// The capture/check/checkmate flags for the move
    pub flags: u8,
    /// The source of the piece for disambiguation
    pub src: Option<Source>,
    /// The piece that a pawn promotes to
    pub promotion: Option<PieceType>,
}

impl Move {
    /// Every square the move names lies on the board.
    pub open spec fn wf(self) -> bool {
        &&& self.dst.wf()
        &&& match self.src {
            Some(Source::Square(sq)) => sq.wf(),
            _ => true,
        }
    }

    /// The move names an exact source square.
    pub open spec fn has_square_src(self) -> bool {
        self.src matches Some(Source::Square(_))
    }
}

} // verus!
