//! The turn model: a piece move or a castling, with its flags.
mod castling;
mod chess_move;
pub mod flags;

pub use castling::CastlingType;
pub use chess_move::Move;

use vstd::prelude::*;

use crate::board::fen::square_name;
use crate::board::{Source, Square};
use crate::pieces::{Piece, PieceType};
use crate::text::chars_to_string;

verus! {

/// The check or checkmate mark a flag set earns: the checkmate mark wins.
pub open spec fn flag_suffix(f: u8) -> Seq<char> {
    if f & flags::CHECKMATE != 0 {
        seq!['#']
    } else if f & flags::CHECK != 0 {
        seq!['+']
    } else {
        Seq::empty()
    }
}

/// The notation of a source disambiguation: nothing, a line character, or
/// a square name.
pub open spec fn src_chars(src: Option<Source>) -> Seq<char> {
    match src {
        None => Seq::empty(),
        Some(Source::Line(l)) => seq![l.spec_char()],
        Some(Source::Square(sq)) => square_name(sq),
    }
}

/// The notation of a whole turn: the castling token or the piece letter,
/// disambiguation, capture mark, destination, promotion, and check mark.
pub open spec fn notation_spec(t: Turn) -> Seq<char> {
    match t {
        Turn::Castling(ct, f) => (if ct == CastlingType::Long {
            seq!['0', '-', '0', '-', '0']
        } else {
            seq!['0', '-', '0']
        }) + flag_suffix(f),
        Turn::Move(m) => (if m.piece == PieceType::Pawn {
            Seq::empty()
        } else {
            seq![m.piece.spec_letter()]
        }) + src_chars(m.src) + (if m.flags & flags::CAPTURE != 0 {
            seq!['x']
        } else {
            Seq::empty()
        }) + square_name(m.dst) + (match m.promotion {
            Some(p) => seq!['=', p.spec_letter()],
            None => Seq::empty(),
        }) + flag_suffix(m.flags),
    }
}

/// The type of turn
#[derive(Clone, Copy, Debug, PartialEq, Eq, Structural)]
pub enum Turn {
    /// A castling turn, with its flags
    Castling(CastlingType, u8),
    /// A piece move turn
    Move(Move),
}

/// The turn that moves the given piece from `loc` to `dst`: a king stepping
/// two files from its home square becomes a castling, anything else a plain
/// move with an exact source and no flags or promotion.
pub open spec fn spec_turn_of(loc: Square, piece: Piece, dst: Square) -> Turn {
    if piece.piece == PieceType::King && (loc == (Square { file: 4, rank: 0 }) || loc == (Square {
        file: 4,
        rank: 7,
    })) {
        if dst == (Square { file: 6, rank: 0 }) || dst == (Square { file: 6, rank: 7 }) {
            Turn::Castling(CastlingType::Short, 0)
        } else if dst == (Square { file: 2, rank: 0 }) || dst == (Square { file: 2, rank: 7 }) {
            Turn::Castling(CastlingType::Long, 0)
        } else {
            Turn::Move(
                Move { piece: piece.piece, dst, flags: 0, src: Some(Source::Square(loc)), promotion: None },
            )
        }
    } else {
        Turn::Move(
            Move { piece: piece.piece, dst, flags: 0, src: Some(Source::Square(loc)), promotion: None },
        )
    }
}

impl Turn {
    /// Every square the turn names lies on the board.
    pub open spec fn wf(self) -> bool {
        match self {
            Turn::Castling(_, _) => true,
            Turn::Move(m) => m.wf(),
        }
    }

    /// The turn is fully qualified: a move must name its exact source
    /// square.
    pub open spec fn fully_specified(self) -> bool {
        match self {
            Turn::Castling(_, _) => true,
            Turn::Move(m) => m.has_square_src(),
        }
    }

    /// Returns the notation of the turn, as [notation_spec] describes.
    #[verifier::rlimit(100)]
    pub fn notation(&self) -> (r: String)
        requires
            self.wf(),
        ensures
            r@ == notation_spec(*self),
    {
        let mut out: Vec<char> = Vec::new();
        match self {
            Turn::Castling(ct, f) => {
                out.push('0');
                out.push('-');
                out.push('0');
                if matches!(ct, CastlingType::Long) {
                    out.push('-');
                    out.push('0');
                }
                push_flag_suffix(*f, &mut out);
            },
            Turn::Move(m) => {
                if !matches!(m.piece, PieceType::Pawn) {
                    out.push(m.piece.letter());
                }
                let ghost c1 = out@;
                match m.src {
                    None => {},
                    Some(Source::Line(l)) => {
                        out.push(l.to_char());
                    },
                    Some(Source::Square(sq)) => {
                        out.push(sq.file().to_char());
                        out.push(sq.rank().to_char());
                    },
                }
                proof {
                    assert(out@ =~= c1 + src_chars(m.src));
                }
                if is_flag_bit(m.flags, flags::CAPTURE) {
                    out.push('x');
                }
                let ghost c2 = out@;
                out.push(m.dst.file().to_char());
                out.push(m.dst.rank().to_char());
                proof {
                    assert(out@ =~= c2 + square_name(m.dst));
                }
                match m.promotion {
                    Some(p) => {
                        out.push('=');
                        out.push(p.letter());
                    },
                    None => {},
                }
                let ghost c3 = out@;
                push_flag_suffix(m.flags, &mut out);
                proof {
                    assert(out@ =~= c3 + flag_suffix(m.flags));
                }
            },
        }
        proof {
            assert(out@ =~= notation_spec(*self));
        }
        chars_to_string(out)
    }

    /// Creates a new turn from a piece, its location, and the destination
    /// square.
    pub fn new(full_piece: (Square, Piece), dst: Square) -> (r: Turn)
        ensures
            r == spec_turn_of(full_piece.0, full_piece.1, dst),
    {
        let (loc, piece) = full_piece;
        if piece.piece == PieceType::King && loc.file == 4 && (loc.rank == 0 || loc.rank == 7) {
            if dst.file == 6 && (dst.rank == 0 || dst.rank == 7) {
                return Turn::Castling(CastlingType::Short, 0);
            }
            if dst.file == 2 && (dst.rank == 0 || dst.rank == 7) {
                return Turn::Castling(CastlingType::Long, 0);
            }
            Turn::Move(
                Move { piece: piece.piece, dst, flags: 0, src: Some(Source::Square(loc)), promotion: None },
            )
        } else {
            Turn::Move(
                Move { piece: piece.piece, dst, flags: 0, src: Some(Source::Square(loc)), promotion: None },
            )
        }
    }
}

/// Appends the check or checkmate mark the flags earn.
fn push_flag_suffix(f: u8, out: &mut Vec<char>)
    ensures
        final(out)@ == old(out)@ + flag_suffix(f),
{
    if is_flag_bit(f, flags::CHECKMATE) {
        out.push('#');
    } else if is_flag_bit(f, flags::CHECK) {
        out.push('+');
    }
    proof {
        assert(out@ =~= old(out)@ + flag_suffix(f));
    }
}

/// Returns whether the flag bit is set.
fn is_flag_bit(f: u8, bit: u8) -> (r: bool)
    ensures
        r == (f & bit != 0),
{
    f & bit != 0
}

} // verus!
