//! The piece model: a piece kind together with its owner.
mod piece_type;
pub use piece_type::PieceType;

use vstd::prelude::*;

verus! {

/// A chess piece: its kind and the player that owns it.
#[derive(Clone, Copy, Debug, PartialEq, Eq, Structural)]
pub struct Piece {
    /// The kind of piece
    pub piece: PieceType,
    /// Whether the piece is owned by the white player
    pub is_white: bool,
}

impl Piece {
    /// Creates a new chess piece from its kind and its owner.
    pub fn new(piece: PieceType, is_white: bool) -> (r: Piece)
        ensures
            r == (Piece { piece, is_white }),
    {
        Piece { piece, is_white }
    }

    /// The single-letter code of the piece: uppercase for white, lowercase
    /// for black.
    pub open spec fn spec_letter(self) -> char {
        if self.is_white {
            self.piece.spec_letter()
        } else {
            self.piece.spec_lower_letter()
        }
    }

    /// Returns the single-letter code of the piece, uppercase for white and
    /// lowercase for black.
    pub fn letter(&self) -> (c: char)
        ensures
            c == self.spec_letter(),
    {
        if self.is_white {
            self.piece.letter()
        } else {
            self.piece.lower_letter()
        }
    }

    /// The chess figurine symbol for the piece.
    pub open spec fn spec_symbol(self) -> char {
        match (self.piece, self.is_white) {
            (PieceType::King, true) => '\u{2654}',
            (PieceType::Queen, true) => '\u{2655}',
            (PieceType::Rook, true) => '\u{2656}',
            (PieceType::Bishop, true) => '\u{2657}',
            (PieceType::Knight, true) => '\u{2658}',
            (PieceType::Pawn, true) => '\u{2659}',
            (PieceType::King, false) => '\u{265A}',
            (PieceType::Queen, false) => '\u{265B}',
            (PieceType::Rook, false) => '\u{265C}',
            (PieceType::Bishop, false) => '\u{265D}',
            (PieceType::Knight, false) => '\u{265E}',
            (PieceType::Pawn, false) => '\u{265F}',
        }
    }

    /// Returns the chess figurine symbol for the piece.
    pub fn symbol(&self) -> (c: char)
        ensures
            c == self.spec_symbol(),
    {
        match (self.piece, self.is_white) {
            (PieceType::King, true) => '\u{2654}',
            (PieceType::Queen, true) => '\u{2655}',
            (PieceType::Rook, true) => '\u{2656}',
            (PieceType::Bishop, true) => '\u{2657}',
            (PieceType::Knight, true) => '\u{2658}',
            (PieceType::Pawn, true) => '\u{2659}',
            (PieceType::King, false) => '\u{265A}',
            (PieceType::Queen, false) => '\u{265B}',
            (PieceType::Rook, false) => '\u{265C}',
            (PieceType::Bishop, false) => '\u{265D}',
            (PieceType::Knight, false) => '\u{265E}',
            (PieceType::Pawn, false) => '\u{265F}',
        }
    }
}

} // verus!
