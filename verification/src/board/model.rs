//! The mathematical model of the board and of the rules of play.
//!
//! Everything the engine promises is stated over these specification
//! functions: the board transition relation, the attack and move relations,
//! move disambiguation, and game termination.
use vstd::prelude::*;

use crate::pieces::{Piece, PieceType};
use crate::turn::flags::{CAPTURE, CHECK, CHECKMATE};
use crate::turn::{spec_turn_of, CastlingType, Move, Turn};

use super::line::Line;
use super::source::Source;
use super::square::{spec_shift, spec_shift_n, Square};
use super::{CastlingRights, DrawType, GameState, TurnError, Win, WinType};

verus! {

/// The abstract state of a chess board: what stands on each of the 64
/// squares, whose turn it is, the castling rights, the en-passant target,
/// and the two move counters.
pub ghost struct BoardView {
    /// The contents of the 64 squares, ordered rank by rank from a1.
    pub squares: Seq<Option<Piece>>,
    /// Whether white is the side to move.
    pub white_to_move: bool,
    /// The castling rights still held.
    pub castling: CastlingRights,
    /// The square a pawn just passed over, if the last move was a pawn's
    /// two-square advance.
    pub en_passant: Option<Square>,
    /// Half moves since the last pawn move or capture.
    pub half_move_clock: u8,
    /// The full move number, starting at 1.
    pub full_move_number: u16,
}

impl BoardView {
    /// One slot for each of the 64 squares, and the en-passant target, if
    /// any, on the board.
    pub open spec fn wf(self) -> bool {
        &&& self.squares.len() == 64
        &&& match self.en_passant {
            Some(sq) => sq.wf(),
            None => true,
        }
    }

    /// The piece standing on the given square, if any.
    pub open spec fn at(self, sq: Square) -> Option<Piece> {
        if sq.wf() && self.squares.len() == 64 {
            self.squares[sq.idx()]
        } else {
            None
        }
    }

    /// The square holds a piece of the side to move.
    pub open spec fn friendly_at(self, sq: Square) -> bool {
        self.at(sq) matches Some(pc) && pc.is_white == self.white_to_move
    }

    /// The square holds a piece of the side not to move.
    pub open spec fn enemy_at(self, sq: Square) -> bool {
        self.at(sq) matches Some(pc) && pc.is_white != self.white_to_move
    }
}

/// All squares strictly between a square and its `n`-th step along a
/// direction are empty.
pub open spec fn between_empty(bv: BoardView, loc: Square, df: int, dr: int, n: nat) -> bool {
    forall|j: nat|
        1 <= j < n ==> match #[trigger] spec_shift_n(loc, df, dr, j) {
            Some(s) => bv.at(s) is None,
            None => true,
        }
}

/// A sliding piece on `loc` reaches `sq` along the direction: some number
/// of steps lands on `sq` and every square strictly before it is empty.
pub open spec fn ray_hit(bv: BoardView, loc: Square, df: int, dr: int, sq: Square) -> bool {
    exists|n: nat|
        1 <= n && #[trigger] spec_shift_n(loc, df, dr, n) == Some(sq) && between_empty(
            bv,
            loc,
            df,
            dr,
            n,
        )
}

/// The destination is one king step away.
pub open spec fn king_offset(loc: Square, sq: Square) -> bool {
    ||| spec_shift(loc, 0, 1) == Some(sq)
    ||| spec_shift(loc, 0, -1) == Some(sq)
    ||| spec_shift(loc, 1, 0) == Some(sq)
    ||| spec_shift(loc, -1, 0) == Some(sq)
    ||| spec_shift(loc, 1, 1) == Some(sq)
    ||| spec_shift(loc, -1, 1) == Some(sq)
    ||| spec_shift(loc, 1, -1) == Some(sq)
    ||| spec_shift(loc, -1, -1) == Some(sq)
}

/// The destination is one knight jump away.
pub open spec fn knight_offset(loc: Square, sq: Square) -> bool {
    ||| spec_shift(loc, 1, 2) == Some(sq)
    ||| spec_shift(loc, -1, 2) == Some(sq)
    ||| spec_shift(loc, 2, 1) == Some(sq)
    ||| spec_shift(loc, 2, -1) == Some(sq)
    ||| spec_shift(loc, 1, -2) == Some(sq)
    ||| spec_shift(loc, -1, -2) == Some(sq)
    ||| spec_shift(loc, -2, 1) == Some(sq)
    ||| spec_shift(loc, -2, -1) == Some(sq)
}

/// The destination is one of the two squares a pawn attacks, the diagonals
/// ahead of it.
pub open spec fn pawn_attack(loc: Square, is_white: bool, sq: Square) -> bool {
    let dr: int = if is_white {
        1
    } else {
        -1
    };
    spec_shift(loc, 1, dr) == Some(sq) || spec_shift(loc, -1, dr) == Some(sq)
}

/// A rook on `loc` reaches `sq`: a straight ray, stopping at the first
/// occupied square inclusively.
pub open spec fn rook_hit(bv: BoardView, loc: Square, sq: Square) -> bool {
    ||| ray_hit(bv, loc, 0, 1, sq)
    ||| ray_hit(bv, loc, 0, -1, sq)
    ||| ray_hit(bv, loc, 1, 0, sq)
    ||| ray_hit(bv, loc, -1, 0, sq)
}

/// A bishop on `loc` reaches `sq`: a diagonal ray, stopping at the first
/// occupied square inclusively.
pub open spec fn bishop_hit(bv: BoardView, loc: Square, sq: Square) -> bool {
    ||| ray_hit(bv, loc, 1, 1, sq)
    ||| ray_hit(bv, loc, -1, 1, sq)
    ||| ray_hit(bv, loc, 1, -1, sq)
    ||| ray_hit(bv, loc, -1, -1, sq)
}

/// The piece standing on `loc` targets `sq`: the square is attacked, with
/// no regard to what stands on it.
pub open spec fn is_target(bv: BoardView, loc: Square, pc: Piece, sq: Square) -> bool {
    match pc.piece {
        PieceType::King => king_offset(loc, sq),
        PieceType::Knight => knight_offset(loc, sq),
        PieceType::Queen => rook_hit(bv, loc, sq) || bishop_hit(bv, loc, sq),
        PieceType::Rook => rook_hit(bv, loc, sq),
        PieceType::Bishop => bishop_hit(bv, loc, sq),
        PieceType::Pawn => pawn_attack(loc, pc.is_white, sq),
    }
}

/// The piece standing on `loc` may move to `sq`, ignoring king safety: a
/// target square not held by a friendly piece; for a pawn, a diagonal only
/// when capturing an enemy piece or the en-passant target, a one-square
/// advance onto an empty square, or a two-square advance from its starting
/// rank across empty squares.
pub open spec fn is_move(bv: BoardView, loc: Square, pc: Piece, sq: Square) -> bool {
    if pc.piece == PieceType::Pawn {
        let fwd: int = if pc.is_white {
            1
        } else {
            -1
        };
        let start_rank: int = if pc.is_white {
            1
        } else {
            6
        };
        ||| (pawn_attack(loc, pc.is_white, sq) && !bv.friendly_at(sq) && (bv.enemy_at(sq)
            || bv.en_passant == Some(sq)))
        ||| (spec_shift(loc, 0, fwd) == Some(sq) && bv.at(sq) is None)
        ||| (loc.rank_i() == start_rank && spec_shift(loc, 0, 2 * fwd) == Some(sq) && bv.at(sq) is None
            && (spec_shift(loc, 0, fwd) matches Some(mid) && bv.at(mid) is None))
    } else {
        is_target(bv, loc, pc, sq) && !bv.friendly_at(sq)
    }
}

/// Some piece of the given color attacks the square.
pub open spec fn attacked(bv: BoardView, sq: Square, by_white: bool) -> bool {
    exists|loc: Square|
        #[trigger] bv.at(loc) matches Some(pc) && pc.is_white == by_white && is_target(
            bv,
            loc,
            pc,
            sq,
        )
}

/// The first square, in canonical order starting from `i`, holding a piece
/// of the given color and kind.
pub open spec fn first_piece_from(bv: BoardView, is_white: bool, kind: PieceType, i: int) -> Option<
    Square,
>
    decreases 64 - i,
{
    if i < 0 || i >= 64 {
        None
    } else {
        let sq = Square::spec_from_idx(i);
        if bv.at(sq) matches Some(pc) && pc.is_white == is_white && pc.piece == kind {
            Some(sq)
        } else {
            first_piece_from(bv, is_white, kind, i + 1)
        }
    }
}

/// The square of the first king of the given color, in canonical order.
pub open spec fn king_square(bv: BoardView, is_white: bool) -> Option<Square> {
    first_piece_from(bv, is_white, PieceType::King, 0)
}

/// The given side's king stands attacked; a side without a king is never in
/// check.
pub open spec fn in_check(bv: BoardView, is_white: bool) -> bool {
    match king_square(bv, is_white) {
        Some(k) => attacked(bv, k, !is_white),
        None => false,
    }
}

/// The half-move clock after one more half move, capped at its largest
/// value.
pub open spec fn tick8(c: u8) -> u8 {
    if c == 255 {
        255
    } else {
        (c + 1) as u8
    }
}

/// The full-move number after black's move, capped at its largest value.
pub open spec fn tick16(c: u16) -> u16 {
    if c == 65535 {
        65535
    } else {
        (c + 1) as u16
    }
}

/// The castling rights left after a piece moves away from the given square:
/// leaving a corner forfeits that rook's right, leaving a king's home
/// square both of that side's rights.
pub open spec fn clear_rights_from(c: CastlingRights, sq: Square) -> CastlingRights {
    if sq == (Square { file: 0, rank: 0 }) {
        CastlingRights { white_queenside: false, ..c }
    } else if sq == (Square { file: 4, rank: 0 }) {
        CastlingRights { white_kingside: false, white_queenside: false, ..c }
    } else if sq == (Square { file: 7, rank: 0 }) {
        CastlingRights { white_kingside: false, ..c }
    } else if sq == (Square { file: 0, rank: 7 }) {
        CastlingRights { black_queenside: false, ..c }
    } else if sq == (Square { file: 4, rank: 7 }) {
        CastlingRights { black_kingside: false, black_queenside: false, ..c }
    } else if sq == (Square { file: 7, rank: 7 }) {
        CastlingRights { black_kingside: false, ..c }
    } else {
        c
    }
}

/// The castling rights left after a move onto the given square: a move onto
/// a corner forfeits that rook's right.
pub open spec fn clear_rights_to(c: CastlingRights, sq: Square) -> CastlingRights {
    if sq == (Square { file: 0, rank: 0 }) {
        CastlingRights { white_queenside: false, ..c }
    } else if sq == (Square { file: 7, rank: 0 }) {
        CastlingRights { white_kingside: false, ..c }
    } else if sq == (Square { file: 0, rank: 7 }) {
        CastlingRights { black_queenside: false, ..c }
    } else if sq == (Square { file: 7, rank: 7 }) {
        CastlingRights { black_kingside: false, ..c }
    } else {
        c
    }
}

/// The castling rights left for the given side after it castles: both of
/// its rights are spent.
pub open spec fn clear_rights_color(c: CastlingRights, is_white: bool) -> CastlingRights {
    if is_white {
        CastlingRights { white_kingside: false, white_queenside: false, ..c }
    } else {
        CastlingRights { black_kingside: false, black_queenside: false, ..c }
    }
}

/// The board after the side to move castles: king and rook go to their
/// fixed squares, the side's castling rights are spent, the en-passant
/// target is cleared, and the clocks advance.
pub open spec fn apply_castling(bv: BoardView, ct: CastlingType) -> BoardView {
    let white = bv.white_to_move;
    let rank: int = if white {
        0
    } else {
        7
    };
    let king_from: int = rank * 8 + 4;
    let rook_from: int = if ct == CastlingType::Short {
        rank * 8 + 7
    } else {
        rank * 8
    };
    let king_to: int = if ct == CastlingType::Short {
        rank * 8 + 6
    } else {
        rank * 8 + 2
    };
    let rook_to: int = if ct == CastlingType::Short {
        rank * 8 + 5
    } else {
        rank * 8 + 3
    };
    let sqs = bv.squares.update(king_from, None).update(rook_from, None).update(
        king_to,
        Some(Piece { piece: PieceType::King, is_white: white }),
    ).update(rook_to, Some(Piece { piece: PieceType::Rook, is_white: white }));
    BoardView {
        squares: sqs,
        white_to_move: !white,
        castling: clear_rights_color(bv.castling, white),
        en_passant: None,
        half_move_clock: tick8(bv.half_move_clock),
        full_move_number: if white {
            bv.full_move_number
        } else {
            tick16(bv.full_move_number)
        },
    }
}

/// The board after the side to move plays a fully qualified piece move:
/// the piece (or its promotion) relocates, a pawn capturing the en-passant
/// target removes the passed pawn, castling rights touched by the move are
/// spent, the en-passant target is recomputed, and the clocks advance.
pub open spec fn apply_move(bv: BoardView, m: Move) -> BoardView {
    match m.src {
        Some(Source::Square(src)) => {
            let white = bv.white_to_move;
            let fwd: int = if white {
                1
            } else {
                -1
            };
            let capture = bv.at(m.dst) is Some;
            let moved = Piece {
                piece: match m.promotion {
                    Some(prom) => prom,
                    None => m.piece,
                },
                is_white: white,
            };
            let sqs0 = bv.squares.update(src.idx(), None).update(m.dst.idx(), Some(moved));
            let sqs = if m.piece == PieceType::Pawn && bv.en_passant == Some(m.dst) {
                match spec_shift(m.dst, 0, -fwd) {
                    Some(passed) => sqs0.update(passed.idx(), None),
                    None => sqs0,
                }
            } else {
                sqs0
            };
            let new_ep = if m.piece == PieceType::Pawn && ((white && src.rank_i() == 1
                && m.dst.rank_i() == 3) || (!white && src.rank_i() == 6 && m.dst.rank_i() == 4)) {
                spec_shift(src, 0, fwd)
            } else {
                None
            };
            BoardView {
                squares: sqs,
                white_to_move: !white,
                castling: clear_rights_to(clear_rights_from(bv.castling, src), m.dst),
                en_passant: new_ep,
                half_move_clock: if m.piece == PieceType::Pawn || capture {
                    0
                } else {
                    tick8(bv.half_move_clock)
                },
                full_move_number: if white {
                    bv.full_move_number
                } else {
                    tick16(bv.full_move_number)
                },
            }
        },
        _ => bv,
    }
}

/// The board transition relation: what applying a fully qualified turn does
/// to the board.
pub open spec fn apply_turn(bv: BoardView, turn: Turn) -> BoardView {
    match turn {
        Turn::Castling(ct, _) => apply_castling(bv, ct),
        Turn::Move(m) => apply_move(bv, m),
    }
}

/// Applying the turn leaves the given side's king attacked.
pub open spec fn causes_check_spec(bv: BoardView, turn: Turn, is_white: bool) -> bool {
    in_check(apply_turn(bv, turn), is_white)
}

/// Moving the piece on `loc` to `dst` is an escape for the side to move:
/// the move is playable and does not leave its own king in check.
pub open spec fn candidate_escape(bv: BoardView, loc: Square, dst: Square) -> bool {
    &&& bv.at(loc) matches Some(pc)
    &&& bv.at(loc)->Some_0.is_white == bv.white_to_move
    &&& is_move(bv, loc, bv.at(loc)->Some_0, dst)
    &&& !causes_check_spec(bv, spec_turn_of(loc, bv.at(loc)->Some_0, dst), bv.white_to_move)
}

/// The side to move has some legal move left.
pub open spec fn escape_exists(bv: BoardView) -> bool {
    exists|loc: Square, dst: Square| #[trigger] candidate_escape(bv, loc, dst)
}

/// How many pieces of the given color stand on the first `n` squares.
pub open spec fn count_color_upto(bv: BoardView, is_white: bool, n: nat) -> nat
    decreases n,
{
    if n == 0 {
        0
    } else {
        let prev = count_color_upto(bv, is_white, (n - 1) as nat);
        if bv.at(Square::spec_from_idx(n - 1)) matches Some(pc) && pc.is_white == is_white {
            prev + 1
        } else {
            prev
        }
    }
}

/// How many minor pieces (bishops and knights) of the given color stand on
/// the first `n` squares.
pub open spec fn count_minor_upto(bv: BoardView, is_white: bool, n: nat) -> nat
    decreases n,
{
    if n == 0 {
        0
    } else {
        let prev = count_minor_upto(bv, is_white, (n - 1) as nat);
        if bv.at(Square::spec_from_idx(n - 1)) matches Some(pc) && pc.is_white == is_white && (
        pc.piece == PieceType::Bishop || pc.piece == PieceType::Knight) {
            prev + 1
        } else {
            prev
        }
    }
}

/// Each side's first bishop, in canonical order, exists and the two stand
/// on same-colored squares.
pub open spec fn same_color_bishops(bv: BoardView) -> bool {
    match (first_piece_from(bv, true, PieceType::Bishop, 0), first_piece_from(
        bv,
        false,
        PieceType::Bishop,
        0,
    )) {
        (Some(wb), Some(bb)) => wb.spec_is_light() == bb.spec_is_light(),
        _ => false,
    }
}

/// Neither side has enough material to give mate: king against king, king
/// against king and one minor piece, or king and bishop each when both
/// bishops stand on same-colored squares.
pub open spec fn insufficient_material_spec(bv: BoardView) -> bool {
    let w = count_color_upto(bv, true, 64);
    let b = count_color_upto(bv, false, 64);
    ||| (w == 1 && b == 1)
    ||| (b == 1 && w == 2 && count_minor_upto(bv, true, 64) == 1)
    ||| (w == 1 && b == 2 && count_minor_upto(bv, false, 64) == 1)
    ||| (w == 2 && b == 2 && same_color_bishops(bv))
}

/// Some position has been reached at least three times.
pub open spec fn threefold_spec(hist: Seq<(Seq<char>, int)>) -> bool {
    exists|i: int| 0 <= i < hist.len() && #[trigger] hist[i].1 >= 3
}

/// The state of the game for the side to move: checkmate or stalemate when
/// no legal move is left, else the draws in their fixed order, else play
/// goes on.
pub open spec fn gamestate_spec(bv: BoardView, hist: Seq<(Seq<char>, int)>) -> GameState {
    if !escape_exists(bv) {
        if in_check(bv, bv.white_to_move) {
            GameState::Win(Win { is_white: !bv.white_to_move, kind: WinType::Checkmate })
        } else {
            GameState::Draw(DrawType::Stalemate)
        }
    } else if insufficient_material_spec(bv) {
        GameState::Draw(DrawType::InsufficientMaterial)
    } else if threefold_spec(hist) {
        GameState::Draw(DrawType::ThreefoldRepitition)
    } else if bv.half_move_clock >= 100 {
        GameState::Draw(DrawType::FiftyMove)
    } else {
        GameState::Continue
    }
}

/// Applying the turn ends the game with a win for the mover.
pub open spec fn causes_checkmate_spec(bv: BoardView, turn: Turn) -> bool {
    gamestate_spec(apply_turn(bv, turn), Seq::empty()) matches GameState::Win(_)
}

/// The square can supply the requested move: it holds a piece of the side
/// to move and of the stated kind, the piece can reach the destination, and
/// moving it there does not leave the mover's own king in check.
pub open spec fn is_candidate(bv: BoardView, m: Move, loc: Square) -> bool {
    &&& bv.at(loc) matches Some(pc)
    &&& bv.at(loc)->Some_0.piece == m.piece
    &&& bv.at(loc)->Some_0.is_white == bv.white_to_move
    &&& is_move(bv, loc, bv.at(loc)->Some_0, m.dst)
    &&& !causes_check_spec(bv, spec_turn_of(loc, bv.at(loc)->Some_0, m.dst), bv.white_to_move)
}

/// The candidate squares among the first `n`, in canonical order.
pub open spec fn cand_upto(bv: BoardView, m: Move, n: nat) -> Seq<Square>
    decreases n,
{
    if n == 0 {
        Seq::empty()
    } else {
        let prev = cand_upto(bv, m, (n - 1) as nat);
        if is_candidate(bv, m, Square::spec_from_idx(n - 1)) {
            prev.push(Square::spec_from_idx(n - 1))
        } else {
            prev
        }
    }
}

/// Which squares are candidates depends only on the piece kind and the
/// destination the move asks for, never on its disambiguation.
pub proof fn lemma_cand_upto_src_irrelevant(bv: BoardView, a: Move, b: Move, n: nat)
    requires
        a.piece == b.piece,
        a.dst == b.dst,
    ensures
        cand_upto(bv, a, n) == cand_upto(bv, b, n),
    decreases n,
{
    if n > 0 {
        lemma_cand_upto_src_irrelevant(bv, a, b, (n - 1) as nat);
    }
}

/// All candidate squares for the requested move, in canonical order.
pub open spec fn candidates(bv: BoardView, m: Move) -> Seq<Square> {
    cand_upto(bv, m, 64)
}

/// The candidate squares lying on the given line, in canonical order.
pub open spec fn cands_on_line(bv: BoardView, m: Move, line: Line) -> Seq<Square> {
    candidates(bv, m).filter(|sq: Square| line.spec_contains(sq))
}

/// The source square the requested move resolves to, by the count of
/// candidate pieces: none is an error; with one, a given disambiguation
/// must match it and a pawn capture must name its file; with two, a line
/// must pick exactly one; with three or more, an exact square must name
/// one.
pub open spec fn resolve_move_spec(bv: BoardView, m: Move) -> Result<Source, TurnError> {
    let cands = candidates(bv, m);
    if cands.len() == 0 {
        Err(TurnError::NoTarget)
    } else if cands.len() == 1 {
        let source = cands[0];
        match m.src {
            None => if m.piece != PieceType::Pawn || m.dst.file_i() == source.file_i() {
                Ok(Source::Square(source))
            } else {
                Err(TurnError::NeedFile)
            },
            Some(Source::Square(sq)) => if sq == source {
                Ok(Source::Square(source))
            } else {
                Err(TurnError::MissingAtSquare)
            },
            Some(Source::Line(ln)) => if m.piece == PieceType::Pawn {
                if ln.spec_is_file() {
                    Ok(Source::Square(source))
                } else {
                    Err(TurnError::NeedFile)
                }
            } else {
                Err(TurnError::OverSpecification)
            },
        }
    } else if cands.len() == 2 {
        match m.src {
            Some(Source::Line(ln)) => {
                let matching = cands_on_line(bv, m, ln);
                if matching.len() == 0 {
                    Err(TurnError::MissingInLine)
                } else if matching.len() == 2 {
                    Err(TurnError::BothInLine)
                } else {
                    Ok(Source::Square(matching[0]))
                }
            },
            _ => Err(TurnError::NeedLine),
        }
    } else {
        match m.src {
            Some(Source::Square(square)) => if cands.contains(square) {
                Ok(Source::Square(square))
            } else {
                Err(TurnError::MissingAtSquare)
            },
            _ => Err(TurnError::NeedSquare),
        }
    }
}

/// The squares the king passes through or lands on while castling, which
/// must not be attacked.
pub open spec fn castle_pass_squares(ct: CastlingType, is_white: bool) -> Seq<Square> {
    let rank: u8 = if is_white {
        0
    } else {
        7
    };
    if ct == CastlingType::Short {
        seq![Square { file: 5, rank }, Square { file: 6, rank }]
    } else {
        seq![Square { file: 3, rank }, Square { file: 2, rank }]
    }
}

/// The squares between king and rook, which must be empty.
pub open spec fn castle_empty_squares(ct: CastlingType, is_white: bool) -> Seq<Square> {
    let rank: u8 = if is_white {
        0
    } else {
        7
    };
    if ct == CastlingType::Short {
        seq![Square { file: 5, rank }, Square { file: 6, rank }]
    } else {
        seq![Square { file: 3, rank }, Square { file: 2, rank }, Square { file: 1, rank }]
    }
}

/// The right the side to move needs for the given castling.
pub open spec fn castle_right(bv: BoardView, ct: CastlingType) -> bool {
    match (ct, bv.white_to_move) {
        (CastlingType::Short, true) => bv.castling.white_kingside,
        (CastlingType::Short, false) => bv.castling.black_kingside,
        (CastlingType::Long, true) => bv.castling.white_queenside,
        (CastlingType::Long, false) => bv.castling.black_queenside,
    }
}

/// Whether the side to move may castle, checked in priority order: not
/// out of or through check, the path between king and rook clear, and the
/// right still held.
pub open spec fn validate_castling_spec(bv: BoardView, ct: CastlingType) -> Result<
    (),
    TurnError,
> {
    let white = bv.white_to_move;
    let pass = castle_pass_squares(ct, white);
    let empty = castle_empty_squares(ct, white);
    if in_check(bv, white) || exists|i: int|
        0 <= i < pass.len() && attacked(bv, #[trigger] pass[i], !white) {
        Err(TurnError::CastleThroughCheck)
    } else if exists|i: int| 0 <= i < empty.len() && bv.at(#[trigger] empty[i]) is Some {
        Err(TurnError::CastlePathBlocked)
    } else if !castle_right(bv, ct) {
        Err(TurnError::CastleLostRights)
    } else {
        Ok(())
    }
}

/// The fully qualified turn the requested turn resolves to: a move gets its
/// source square filled in, a castling is checked for legality.
pub open spec fn complete_turn_spec(bv: BoardView, turn: Turn) -> Result<Turn, TurnError> {
    match turn {
        Turn::Move(m) => match resolve_move_spec(bv, m) {
            Ok(src) => Ok(Turn::Move(Move { src: Some(src), ..m })),
            Err(e) => Err(e),
        },
        Turn::Castling(ct, _) => match validate_castling_spec(bv, ct) {
            Ok(_) => Ok(turn),
            Err(e) => Err(e),
        },
    }
}

/// The flags the turn truly earns: checkmate, else check, together with
/// capture when the destination is occupied.
pub open spec fn gen_flags_spec(bv: BoardView, turn: Turn) -> u8 {
    let check_part: u8 = if causes_checkmate_spec(bv, turn) {
        CHECKMATE
    } else if causes_check_spec(bv, turn, !bv.white_to_move) {
        CHECK
    } else {
        0
    };
    let capture_part: u8 = match turn {
        Turn::Move(m) => if bv.at(m.dst) is Some {
            CAPTURE
        } else {
            0
        },
        _ => 0,
    };
    check_part | capture_part
}

/// Whether the flags written on the turn agree with what the turn truly
/// does, checked in priority order: capture, checkmate, check, and finally
/// that the mover's own king is left safe.
pub open spec fn enforce_flags_spec(bv: BoardView, turn: Turn) -> Result<(), TurnError> {
    let flags = match turn {
        Turn::Castling(_, flag) => flag,
        Turn::Move(m) => m.flags,
    };
    let capture_wrong: Option<TurnError> = match turn {
        Turn::Move(m) => if bv.at(m.dst) is Some && flags & CAPTURE == 0 {
            Some(TurnError::NeedCaptureSpecifier)
        } else if bv.at(m.dst) is None && flags & CAPTURE != 0 {
            Some(TurnError::RemoveCaptureSpecifier)
        } else {
            None
        },
        _ => None,
    };
    if capture_wrong is Some {
        Err(capture_wrong->Some_0)
    } else if causes_checkmate_spec(bv, turn) {
        if flags & CHECKMATE != 0 {
            Ok(())
        } else {
            Err(TurnError::NeedCheckmateSpecifier)
        }
    } else if flags & CHECKMATE != 0 {
        Err(TurnError::RemoveCheckmateSpecifier)
    } else if causes_check_spec(bv, turn, !bv.white_to_move) && flags & CHECK
        == 0 {
        Err(TurnError::NeedCheckSpecifier)
    } else if !causes_check_spec(bv, turn, !bv.white_to_move) && flags & CHECK
        != 0 {
        Err(TurnError::RemoveCheckSpecifier)
    } else if causes_check_spec(bv, turn, bv.white_to_move) {
        Err(TurnError::KingInCheck)
    } else {
        Ok(())
    }
}

/// The turn with its flag set replaced.
pub open spec fn with_flags(turn: Turn, flags: u8) -> Turn {
    match turn {
        Turn::Castling(ct, _) => Turn::Castling(ct, flags),
        Turn::Move(m) => Turn::Move(Move { flags, ..m }),
    }
}

/// The squares among the first `n` holding a piece of the given color, and
/// of the given kind when one is asked for, paired with their pieces, in
/// canonical order.
pub open spec fn pieces_matching_upto(
    bv: BoardView,
    kind: Option<PieceType>,
    is_white: bool,
    n: nat,
) -> Seq<(Square, Piece)>
    decreases n,
{
    if n == 0 {
        Seq::empty()
    } else {
        let prev = pieces_matching_upto(bv, kind, is_white, (n - 1) as nat);
        let sq = Square::spec_from_idx(n - 1);
        if bv.at(sq) matches Some(pc) && pc.is_white == is_white && (kind is None || Some(pc.piece)
            == kind) {
            prev.push((sq, bv.at(sq)->Some_0))
        } else {
            prev
        }
    }
}

/// The shortest form of a fully qualified move that still resolves back to
/// it: no disambiguation, then the file, then the rank, then the exact
/// square.
pub open spec fn minimum_move_spec(bv: BoardView, turn: Turn) -> Turn {
    match turn {
        Turn::Castling(_, _) => turn,
        Turn::Move(m) => match m.src {
            Some(Source::Square(s)) => {
                let bare = Move { src: None, ..m };
                let by_file = Move { src: Some(Source::Line(Line::spec_file(s.file_i()))), ..m };
                let by_rank = Move { src: Some(Source::Line(Line::spec_rank(s.rank_i()))), ..m };
                if resolve_move_spec(bv, bare) == Ok::<Source, TurnError>(Source::Square(s)) {
                    Turn::Move(bare)
                } else if resolve_move_spec(bv, by_file) == Ok::<Source, TurnError>(
                    Source::Square(s),
                ) {
                    Turn::Move(by_file)
                } else if resolve_move_spec(bv, by_rank) == Ok::<Source, TurnError>(
                    Source::Square(s),
                ) {
                    Turn::Move(by_rank)
                } else {
                    turn
                }
            },
            _ => turn,
        },
    }
}

} // verus!
