//! The board engine: state, move generation, legality, termination
//! detection, and the board serialization codec.
pub mod default;
pub mod fen;
mod line;
pub mod model;
mod moves;
pub mod render;
mod rules;
mod source;
mod square;

pub use fen::FenError;
pub use line::Line;
pub use model::BoardView;
pub use source::Source;
pub use square::Square;

use vstd::prelude::*;

use crate::pieces::Piece;

verus! {

/// Ways that a turn can be incorrect
#[derive(Clone, Copy, Debug, PartialEq, Eq, Structural)]
pub enum TurnError {
    /// No piece can move to the specified destination
    NoTarget,
    /// Need a line disambiguation to determine which piece moves
    NeedLine,
    /// Need a file disambiguation to determine which piece moves
    NeedFile,
    /// Need a square disambiguation to determine which piece moves
    NeedSquare,
    /// A disambiguation was provided that was overspecific and unneeded
    OverSpecification,
    /// There is no eligible piece at the specified source square
    MissingAtSquare,
    /// There is no eligible piece at the specified source line
    MissingInLine,
    /// There are multiple eligible pieces in the specified source line
    BothInLine,
    /// The move specified leaves the king in check
    KingInCheck,
    /// Cannot castle due to losing the rights
    CastleLostRights,
    /// Cannot castle due to pieces being in the way
    CastlePathBlocked,
    /// Cannot castle due to opposing pieces targetting the castling squares
    CastleThroughCheck,
    /// Need to add the `+` flag for a check
    NeedCheckSpecifier,
    /// Need to add the `#` flag for a checkmate
    NeedCheckmateSpecifier,
    /// Need to add the `x` flag for a capture
    NeedCaptureSpecifier,
    /// Need to remove the `#` flag for a non-checkmate
    RemoveCheckmateSpecifier,
    /// Need to remove the `+` flag for a non-check
    RemoveCheckSpecifier,
    /// Need to remove the `x` flag for a non-capture
    RemoveCaptureSpecifier,
}

/// The current game state
#[derive(Clone, Copy, Debug, PartialEq, Eq, Structural)]
pub enum GameState {
    /// Game is still in play
    Continue,
    /// Game has been won by some player
    Win(Win),
    /// Game has been drawn
    Draw(DrawType),
    /// Game has been aborted
    Stop,
}

/// The information describing the win state
#[derive(Clone, Copy, Debug, PartialEq, Eq, Structural)]
pub struct Win {
    /// The player who won, true if white
    pub is_white: bool,
    /// The type of win
    pub kind: WinType,
}

/// The type of win
#[derive(Clone, Copy, Debug, PartialEq, Eq, Structural)]
pub enum WinType {
    /// Win by checkmate
    Checkmate,
    /// Win by resignation
    Resign,
    /// Win by timeout
    Timeout,
}

/// The type of draw
#[derive(Clone, Copy, Debug, PartialEq, Eq, Structural)]
pub enum DrawType {
    /// Draw by stalemate
    Stalemate,
    /// Draw by the fifty move rule
    FiftyMove,
    /// Draw by threefold repetition
    ThreefoldRepitition,
    /// Draw by insufficient material
    InsufficientMaterial,
    /// Draw by draw offer
    Offer,
}

/// The four castling rights, one per corner rook.
#[derive(Clone, Copy, Debug, PartialEq, Eq, Structural)]
pub struct CastlingRights {
    /// White may still castle short
    pub white_kingside: bool,
    /// White may still castle long
    pub white_queenside: bool,
    /// Black may still castle short
    pub black_kingside: bool,
    /// Black may still castle long
    pub black_queenside: bool,
}

/// Stores the current board state
///
/// Includes the piece locations, current turn, castling rights, en passant
/// rights, half move clock, and the full move number
#[derive(Debug)]
pub struct ChessBoard {
    squares: Vec<Option<Piece>>,
    is_white: bool,
    castling: CastlingRights,
    en_passant: Option<Square>,
    half_move_clock: u8,
    full_move_number: u16,
}

impl View for ChessBoard {
    type V = BoardView;

    closed spec fn view(&self) -> BoardView {
        BoardView {
            squares: self.squares@,
            white_to_move: self.is_white,
            castling: self.castling,
            en_passant: self.en_passant,
            half_move_clock: self.half_move_clock,
            full_move_number: self.full_move_number,
        }
    }
}

impl ChessBoard {
    /// The board state is well-formed: one slot for each of the 64 squares,
    /// and the en-passant target, if any, on the board.
    pub open spec fn wf(self) -> bool {
        self@.wf()
    }

    /// Assembles a board from its parts.
    pub(crate) fn assemble(
        squares: Vec<Option<Piece>>,
        is_white: bool,
        castling: CastlingRights,
        en_passant: Option<Square>,
        half_move_clock: u8,
        full_move_number: u16,
    ) -> (r: ChessBoard)
        requires
            squares@.len() == 64,
            en_passant matches Some(sq) ==> sq.wf(),
        ensures
            r@ == (BoardView {
                squares: squares@,
                white_to_move: is_white,
                castling,
                en_passant,
                half_move_clock,
                full_move_number,
            }),
            r.wf(),
    {
        ChessBoard { squares, is_white, castling, en_passant, half_move_clock, full_move_number }
    }

    /// Returns whether the current player is white.
    pub fn is_white(&self) -> (r: bool)
        ensures
            r == self@.white_to_move,
    {
        self.is_white
    }

    /// Returns the piece standing on the given square, if any.
    pub fn get(&self, sq: &Square) -> (r: Option<&Piece>)
        requires
            self.wf(),
            sq.wf(),
        ensures
            match r {
                Some(pc) => self@.at(*sq) == Some(*pc),
                None => self@.at(*sq) is None,
            },
    {
        match &self.squares[sq.index()] {
            Some(pc) => Some(pc),
            None => None,
        }
    }

    /// Puts a piece on a square, replacing whatever stood there.
    fn insert(&mut self, piece: (Square, Piece))
        requires
            old(self).wf(),
            piece.0.wf(),
        ensures
            final(self)@ == (BoardView {
                squares: old(self)@.squares.update(piece.0.idx(), Some(piece.1)),
                ..old(self)@
            }),
            final(self).wf(),
    {
        let i = piece.0.index();
        self.squares[i] = Some(piece.1);
    }

    /// Clears a square.
    fn remove(&mut self, sq: &Square)
        requires
            old(self).wf(),
            sq.wf(),
        ensures
            final(self)@ == (BoardView {
                squares: old(self)@.squares.update(sq.idx(), None),
                ..old(self)@
            }),
            final(self).wf(),
    {
        let i = sq.index();
        self.squares[i] = None;
    }
}

/// Returns whether the given flag bit is set in the flag set.
pub fn is_flag_set(flags: u8, check_flag: u8) -> (r: bool)
    ensures
        r == (flags & check_flag != 0),
{
    flags & check_flag != 0
}

} // verus!
