//! The standard starting position.
use vstd::prelude::*;

use crate::pieces::{Piece, PieceType};

use super::model::BoardView;
use super::square::Square;
use super::{CastlingRights, ChessBoard};

verus! {

/// The piece kind standing on the given file in each side's back rank at
/// the start of a game.
pub open spec fn back_rank_kind(file: int) -> PieceType {
    if file == 0 || file == 7 {
        PieceType::Rook
    } else if file == 1 || file == 6 {
        PieceType::Knight
    } else if file == 2 || file == 5 {
        PieceType::Bishop
    } else if file == 3 {
        PieceType::Queen
    } else {
        PieceType::King
    }
}

/// What stands on each square of the standard starting position: the white
/// pieces on the first rank, the white pawns on the second, the black pawns
/// on the seventh, and the black pieces on the eighth.
pub open spec fn starting_square(i: int) -> Option<Piece> {
    let file = i % 8;
    let rank = i / 8;
    if rank == 0 {
        Some(Piece { piece: back_rank_kind(file), is_white: true })
    } else if rank == 1 {
        Some(Piece { piece: PieceType::Pawn, is_white: true })
    } else if rank == 6 {
        Some(Piece { piece: PieceType::Pawn, is_white: false })
    } else if rank == 7 {
        Some(Piece { piece: back_rank_kind(file), is_white: false })
    } else {
        None
    }
}

/// The standard starting position: white to move, every castling right
/// held, no en-passant target, a fresh half-move clock, and move number
/// one.
pub open spec fn starting_board() -> BoardView {
    BoardView {
        squares: Seq::new(64, |i: int| starting_square(i)),
        white_to_move: true,
        castling: CastlingRights {
            white_kingside: true,
            white_queenside: true,
            black_kingside: true,
            black_queenside: true,
        },
        en_passant: None,
        half_move_clock: 0,
        full_move_number: 1,
    }
}

/// Returns the piece kind of each side's back rank on the given file.
fn back_rank_piece(file: u8) -> (r: PieceType)
    requires
        file < 8,
    ensures
        r == back_rank_kind(file as int),
{
    if file == 0 || file == 7 {
        PieceType::Rook
    } else if file == 1 || file == 6 {
        PieceType::Knight
    } else if file == 2 || file == 5 {
        PieceType::Bishop
    } else if file == 3 {
        PieceType::Queen
    } else {
        PieceType::King
    }
}

impl Default for ChessBoard {
    /// Returns the standard starting position.
    fn default() -> (r: ChessBoard)
        ensures
            r@ == starting_board(),
            r.wf(),
    {
        let mut squares: Vec<Option<Piece>> = Vec::new();
        let mut i: usize = 0;
        while i < 64
            invariant
                i <= 64,
                squares@.len() == i,
                forall|j: int| 0 <= j < i ==> squares@[j] == starting_square(j),
            decreases 64 - i,
        {
            let sq = Square::from_idx(i);
            let piece = if sq.rank == 0 {
                Some(Piece { piece: back_rank_piece(sq.file), is_white: true })
            } else if sq.rank == 1 {
                Some(Piece { piece: PieceType::Pawn, is_white: true })
            } else if sq.rank == 6 {
                Some(Piece { piece: PieceType::Pawn, is_white: false })
            } else if sq.rank == 7 {
                Some(Piece { piece: back_rank_piece(sq.file), is_white: false })
            } else {
                None
            };
            squares.push(piece);
            i += 1;
        }
        let r = ChessBoard::assemble(
            squares,
            true,
            CastlingRights {
                white_kingside: true,
                white_queenside: true,
                black_kingside: true,
                black_queenside: true,
            },
            None,
            0,
            1,
        );
        proof {
            assert(r@.squares =~= starting_board().squares);
            assert(r@ =~= starting_board());
        }
        r
    }
}

} // verus!
