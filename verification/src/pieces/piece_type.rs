//! The six kinds of chess piece and their single-letter codes.
use vstd::prelude::*;

verus! {

/// The kind of a piece
#[derive(Clone, Copy, Debug, PartialEq, Eq, Structural)]
pub enum PieceType {
    /// The king
    King,
    /// The queen
    Queen,
    /// A rook
    Rook,
    /// A bishop
    Bishop,
    /// A knight
    Knight,
    /// A pawn
    Pawn,
}

impl PieceType {
    /// The uppercase single-letter code of the piece kind.
    pub open spec fn spec_letter(self) -> char {
        match self {
            PieceType::King => 'K',
            PieceType::Queen => 'Q',
            PieceType::Rook => 'R',
            PieceType::Bishop => 'B',
            PieceType::Knight => 'N',
            PieceType::Pawn => 'P',
        }
    }

    /// The lowercase single-letter code of the piece kind.
    pub open spec fn spec_lower_letter(self) -> char {
        match self {
            PieceType::King => 'k',
            PieceType::Queen => 'q',
            PieceType::Rook => 'r',
            PieceType::Bishop => 'b',
            PieceType::Knight => 'n',
            PieceType::Pawn => 'p',
        }
    }

    /// The piece kind encoded by an uppercase letter, if any.
    pub open spec fn spec_from_letter(c: char) -> Option<PieceType> {
        match c {
            'K' => Some(PieceType::King),
            'Q' => Some(PieceType::Queen),
            'R' => Some(PieceType::Rook),
            'B' => Some(PieceType::Bishop),
            'N' => Some(PieceType::Knight),
            'P' => Some(PieceType::Pawn),
            _ => None,
        }
    }

    /// Returns the uppercase single-letter code of the piece kind.
    pub fn letter(&self) -> (c: char)
        ensures
            c == self.spec_letter(),
    {
        match self {
            PieceType::King => 'K',
            PieceType::Queen => 'Q',
            PieceType::Rook => 'R',
            PieceType::Bishop => 'B',
            PieceType::Knight => 'N',
            PieceType::Pawn => 'P',
        }
    }

    /// Returns the lowercase single-letter code of the piece kind.
    pub fn lower_letter(&self) -> (c: char)
        ensures
            c == self.spec_lower_letter(),
    {
        match self {
            PieceType::King => 'k',
            PieceType::Queen => 'q',
            PieceType::Rook => 'r',
            PieceType::Bishop => 'b',
            PieceType::Knight => 'n',
            PieceType::Pawn => 'p',
        }
    }

    /// Decodes an uppercase letter into the piece kind it names.
    pub fn from_letter(c: char) -> (r: Option<PieceType>)
        ensures
            r == PieceType::spec_from_letter(c),
    {
        match c {
            'K' => Some(PieceType::King),
            'Q' => Some(PieceType::Queen),
            'R' => Some(PieceType::Rook),
            'B' => Some(PieceType::Bishop),
            'N' => Some(PieceType::Knight),
            'P' => Some(PieceType::Pawn),
            _ => None,
        }
    }
}

} // verus!
