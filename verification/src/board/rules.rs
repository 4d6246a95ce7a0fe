//! Move validation, board mutation, and termination detection.
use vstd::prelude::*;

use crate::pieces::{Piece, PieceType};
use crate::turn::{CastlingType, Turn};

use crate::turn::flags;
use crate::turn::{spec_turn_of, Move};
use crate::utils::Counter;

use super::line::Line;
use super::model::{
    apply_castling, apply_move, apply_turn, attacked, cand_upto, candidates, cands_on_line,
    castle_empty_squares, castle_pass_squares, causes_check_spec, clear_rights_from,
    clear_rights_to, complete_turn_spec, first_piece_from, in_check, is_candidate, is_target,
    king_square, minimum_move_spec, pieces_matching_upto, resolve_move_spec,
    validate_castling_spec, tick16, tick8, candidate_escape, causes_checkmate_spec,
    count_color_upto, count_minor_upto, enforce_flags_spec, escape_exists, gamestate_spec,
    gen_flags_spec, insufficient_material_spec, is_move, same_color_bishops, threefold_spec,
    with_flags,
};
use super::moves::contains_sq;
use super::square::lemma_from_idx_of_idx;
use super::{
    is_flag_set, CastlingRights, ChessBoard, DrawType, GameState, Source, Square, TurnError, Win,
    WinType,
};

verus! {

/// The castling rights left after a move from `src` to `dst`.
fn rights_after(c: CastlingRights, src: Square, dst: Square) -> (r: CastlingRights)
    ensures
        r == clear_rights_to(clear_rights_from(c, src), dst),
{
    let c1 = if src.file == 0 && src.rank == 0 {
        CastlingRights { white_queenside: false, ..c }
    } else if src.file == 4 && src.rank == 0 {
        CastlingRights { white_kingside: false, white_queenside: false, ..c }
    } else if src.file == 7 && src.rank == 0 {
        CastlingRights { white_kingside: false, ..c }
    } else if src.file == 0 && src.rank == 7 {
        CastlingRights { black_queenside: false, ..c }
    } else if src.file == 4 && src.rank == 7 {
        CastlingRights { black_kingside: false, black_queenside: false, ..c }
    } else if src.file == 7 && src.rank == 7 {
        CastlingRights { black_kingside: false, ..c }
    } else {
        c
    };
    if dst.file == 0 && dst.rank == 0 {
        CastlingRights { white_queenside: false, ..c1 }
    } else if dst.file == 7 && dst.rank == 0 {
        CastlingRights { white_kingside: false, ..c1 }
    } else if dst.file == 0 && dst.rank == 7 {
        CastlingRights { black_queenside: false, ..c1 }
    } else if dst.file == 7 && dst.rank == 7 {
        CastlingRights { black_kingside: false, ..c1 }
    } else {
        c1
    }
}

impl Clone for ChessBoard {
    /// Copies the board state exactly.
    fn clone(&self) -> (r: Self)
        ensures
            r@ == self@,
    {
        let mut squares: Vec<Option<Piece>> = Vec::new();
        let mut i: usize = 0;
        while i < self.squares.len()
            invariant
                i <= self.squares@.len(),
                squares@ == self.squares@.take(i as int),
            decreases self.squares@.len() - i,
        {
            squares.push(self.squares[i]);
            proof {
                assert(squares@ =~= self.squares@.take(i + 1));
            }
            i += 1;
        }
        proof {
            assert(self.squares@.take(self.squares@.len() as int) =~= self.squares@);
        }
        let r = ChessBoard {
            squares,
            is_white: self.is_white,
            castling: self.castling,
            en_passant: self.en_passant,
            half_move_clock: self.half_move_clock,
            full_move_number: self.full_move_number,
        };
        proof {
            assert(r@ =~= self@);
        }
        r
    }
}

impl ChessBoard {
    /// Updates the board state by applying a fully qualified turn: the turn
    /// of a move must carry its exact source square.
    ///
    /// Relocates the pieces, revokes castling rights spent by the turn,
    /// recomputes the en-passant target, advances the clocks, and passes
    /// the move to the other player.
    pub fn update_board(&mut self, turn: &Turn)
        requires
            old(self).wf(),
            turn.wf(),
            turn.fully_specified(),
        ensures
            final(self).wf(),
            final(self)@ == apply_turn(old(self)@, *turn),
    {
        match turn {
            Turn::Castling(ct, _) => {
                let white = self.is_white;
                let rank: u8 = if white {
                    0
                } else {
                    7
                };
                let short = matches!(ct, CastlingType::Short);
                let king_from = Square { file: 4, rank };
                let rook_from = Square {
                    file: if short {
                        7
                    } else {
                        0
                    },
                    rank,
                };
                let king_to = Square {
                    file: if short {
                        6
                    } else {
                        2
                    },
                    rank,
                };
                let rook_to = Square {
                    file: if short {
                        5
                    } else {
                        3
                    },
                    rank,
                };
                self.remove(&king_from);
                self.remove(&rook_from);
                self.insert((king_to, Piece { piece: PieceType::King, is_white: white }));
                self.insert((rook_to, Piece { piece: PieceType::Rook, is_white: white }));
                self.castling = if white {
                    CastlingRights { white_kingside: false, white_queenside: false, ..self.castling }
                } else {
                    CastlingRights { black_kingside: false, black_queenside: false, ..self.castling }
                };
                self.en_passant = None;
                self.half_move_clock = if self.half_move_clock == 255 {
                    255
                } else {
                    self.half_move_clock + 1
                };
                if !white {
                    self.full_move_number = if self.full_move_number == 65535 {
                        65535
                    } else {
                        self.full_move_number + 1
                    };
                }
                self.is_white = !white;
                proof {
                    assert(self@ =~= apply_castling(old(self)@, *ct));
                }
            },
            Turn::Move(m) => {
                let src = if let Some(Source::Square(s)) = m.src {
                    s
                } else {
                    proof {
                        assert(false);
                    }
                    Square { file: 0, rank: 0 }
                };
                let white = self.is_white;
                let old_ep = self.en_passant;
                let capture = self.get(&m.dst).is_some();
                self.castling = rights_after(self.castling, src, m.dst);
                let fwd: i8 = if white {
                    1
                } else {
                    -1
                };
                let is_pawn = matches!(m.piece, PieceType::Pawn);
                let double = is_pawn && ((white && src.rank == 1 && m.dst.rank == 3) || (!white
                    && src.rank == 6 && m.dst.rank == 4));
                self.en_passant = if double {
                    src.offset(0, fwd)
                } else {
                    None
                };
                let kind = match m.promotion {
                    Some(p) => p,
                    None => m.piece,
                };
                self.remove(&src);
                self.insert((m.dst, Piece { piece: kind, is_white: white }));
                let ep_capture = is_pawn && match old_ep {
                    Some(ep) => ep == m.dst,
                    None => false,
                };
                if ep_capture {
                    if let Some(passed) = m.dst.offset(0, -fwd) {
                        self.remove(&passed);
                    }
                }
                self.half_move_clock = if is_pawn || capture {
                    0
                } else if self.half_move_clock == 255 {
                    255
                } else {
                    self.half_move_clock + 1
                };
                if !white {
                    self.full_move_number = if self.full_move_number == 65535 {
                        65535
                    } else {
                        self.full_move_number + 1
                    };
                }
                self.is_white = !white;
                proof {
                    assert(self@ =~= apply_move(old(self)@, *m));
                }
            },
        }
    }

    /// Returns the first square, in canonical order, holding a piece of the
    /// given color and kind.
    fn find_first(&self, is_white: bool, kind: PieceType) -> (r: Option<Square>)
        requires
            self.wf(),
        ensures
            r == first_piece_from(self@, is_white, kind, 0),
            r matches Some(sq) ==> sq.wf(),
    {
        let mut i: usize = 0;
        while i < 64
            invariant
                self.wf(),
                i <= 64,
                first_piece_from(self@, is_white, kind, 0) == first_piece_from(
                    self@,
                    is_white,
                    kind,
                    i as int,
                ),
            decreases 64 - i,
        {
            let sq = Square::from_idx(i);
            match self.get(&sq) {
                Some(pc) => {
                    if pc.is_white == is_white && pc.piece == kind {
                        return Some(sq);
                    }
                },
                None => {},
            }
            i += 1;
        }
        None
    }

    /// Returns whether any piece of the given color attacks the square.
    fn is_attacked(&self, sq: Square, by_white: bool) -> (r: bool)
        requires
            self.wf(),
            sq.wf(),
        ensures
            r == attacked(self@, sq, by_white),
    {
        let mut i: usize = 0;
        while i < 64
            invariant
                self.wf(),
                sq.wf(),
                i <= 64,
                forall|j: int|
                    0 <= j < i ==> !(#[trigger] self@.at(Square::spec_from_idx(j)) matches Some(pc)
                        && pc.is_white == by_white && is_target(
                        self@,
                        Square::spec_from_idx(j),
                        pc,
                        sq,
                    )),
            decreases 64 - i,
        {
            let loc = Square::from_idx(i);
            match self.get(&loc) {
                Some(pc) => {
                    if pc.is_white == by_white {
                        let piece = *pc;
                        let targets = self.gen_targets((loc, piece));
                        if contains_sq(&targets, &sq) {
                            proof {
                                assert(self@.at(loc) matches Some(p) && p.is_white == by_white
                                    && is_target(self@, loc, p, sq));
                            }
                            return true;
                        }
                    }
                },
                None => {},
            }
            i += 1;
        }
        proof {
            if attacked(self@, sq, by_white) {
                let loc = choose|loc: Square|
                    #[trigger] self@.at(loc) matches Some(pc) && pc.is_white == by_white
                        && is_target(self@, loc, pc, sq);
                assert(loc.wf());
                lemma_from_idx_of_idx(loc);
                assert(self@.at(Square::spec_from_idx(loc.idx())) matches Some(pc) && pc.is_white
                    == by_white && is_target(self@, Square::spec_from_idx(loc.idx()), pc, sq));
            }
        }
        false
    }

    /// Returns whether the given side's king stands attacked; a side
    /// without a king is never in check.
    pub fn is_in_check(&self, is_white: bool) -> (r: bool)
        requires
            self.wf(),
        ensures
            r == in_check(self@, is_white),
    {
        match self.find_first(is_white, PieceType::King) {
            Some(king) => self.is_attacked(king, !is_white),
            None => false,
        }
    }

    /// Returns whether applying the turn leaves the given side's king
    /// attacked, by playing the turn out on a copy of the board.
    pub fn causes_check(&self, turn: &Turn, is_white: bool) -> (r: bool)
        requires
            self.wf(),
            turn.wf(),
            turn.fully_specified(),
        ensures
            r == causes_check_spec(self@, *turn, is_white),
    {
        let mut test_board = self.clone();
        test_board.update_board(turn);
        test_board.is_in_check(is_white)
    }
}

impl ChessBoard {
    /// Returns the squares holding a piece equal to the given one, with
    /// their pieces, in canonical order.
    pub fn find_pieces(&self, piece: Piece) -> (r: Vec<(Square, Piece)>)
        requires
            self.wf(),
        ensures
            r@ == pieces_matching_upto(self@, Some(piece.piece), piece.is_white, 64),
    {
        let mut r: Vec<(Square, Piece)> = Vec::new();
        let mut i: usize = 0;
        while i < 64
            invariant
                self.wf(),
                i <= 64,
                r@ == pieces_matching_upto(self@, Some(piece.piece), piece.is_white, i as nat),
            decreases 64 - i,
        {
            let sq = Square::from_idx(i);
            match self.get(&sq) {
                Some(pc) => {
                    if pc.is_white == piece.is_white && pc.piece == piece.piece {
                        let p = *pc;
                        r.push((sq, p));
                    }
                },
                None => {},
            }
            i += 1;
        }
        r
    }

    /// Returns the squares holding the given player's pieces, with their
    /// pieces, in canonical order.
    pub fn get_player_pieces(&self, is_white: bool) -> (r: Vec<(Square, Piece)>)
        requires
            self.wf(),
        ensures
            r@ == pieces_matching_upto(self@, None, is_white, 64),
    {
        let mut r: Vec<(Square, Piece)> = Vec::new();
        let mut i: usize = 0;
        while i < 64
            invariant
                self.wf(),
                i <= 64,
                r@ == pieces_matching_upto(self@, None, is_white, i as nat),
            decreases 64 - i,
        {
            let sq = Square::from_idx(i);
            match self.get(&sq) {
                Some(pc) => {
                    if pc.is_white == is_white {
                        let p = *pc;
                        r.push((sq, p));
                    }
                },
                None => {},
            }
            i += 1;
        }
        r
    }

    /// Resolves the source square of the requested move, as
    /// [resolve_move_spec] describes.
    fn validate_move(&self, m: &Move) -> (r: Result<Source, TurnError>)
        requires
            self.wf(),
            m.wf(),
        ensures
            r == resolve_move_spec(self@, *m),
            r matches Ok(src) ==> src matches Source::Square(s) && s.wf(),
    {
        let mut cands: Vec<Square> = Vec::new();
        let mut i: usize = 0;
        while i < 64
            invariant
                self.wf(),
                m.wf(),
                i <= 64,
                cands@ == cand_upto(self@, *m, i as nat),
                forall|j: int| 0 <= j < cands@.len() ==> (#[trigger] cands@[j]).wf(),
            decreases 64 - i,
        {
            let loc = Square::from_idx(i);
            let mut is_cand = false;
            match self.get(&loc) {
                Some(pc) => {
                    if pc.piece == m.piece && pc.is_white == self.is_white {
                        let piece = *pc;
                        let mvs = self.gen_moves((loc, piece));
                        if contains_sq(&mvs, &m.dst) {
                            let t = Turn::new((loc, piece), m.dst);
                            if !self.causes_check(&t, self.is_white) {
                                is_cand = true;
                            }
                        }
                    }
                },
                None => {},
            }
            proof {
                assert(is_cand == is_candidate(self@, *m, Square::spec_from_idx(i as int)));
            }
            if is_cand {
                cands.push(loc);
            }
            i += 1;
        }
        if cands.len() == 0 {
            Err(TurnError::NoTarget)
        } else if cands.len() == 1 {
            let source = cands[0];
            match m.src {
                None => {
                    if !matches!(m.piece, PieceType::Pawn) || m.dst.file == source.file {
                        Ok(Source::Square(source))
                    } else {
                        Err(TurnError::NeedFile)
                    }
                },
                Some(Source::Square(sq)) => {
                    if sq == source {
                        Ok(Source::Square(source))
                    } else {
                        Err(TurnError::MissingAtSquare)
                    }
                },
                Some(Source::Line(ln)) => {
                    if matches!(m.piece, PieceType::Pawn) {
                        if ln.is_file() {
                            Ok(Source::Square(source))
                        } else {
                            Err(TurnError::NeedFile)
                        }
                    } else {
                        Err(TurnError::OverSpecification)
                    }
                },
            }
        } else if cands.len() == 2 {
            match m.src {
                Some(Source::Line(ln)) => {
                    let c0 = cands[0];
                    let c1 = cands[1];
                    let b0 = ln.has_square(&c0);
                    let b1 = ln.has_square(&c1);
                    proof {
                        let cs = candidates(self@, *m);
                        let pred = |sq: Square| ln.spec_contains(sq);
                        reveal_with_fuel(Seq::filter, 4);
                        assert(cs.drop_last().drop_last() =~= Seq::<Square>::empty());
                        assert(cs.drop_last().len() == 1);
                        assert(cs.drop_last().last() == c0);
                        assert(cs.last() == c1);
                        if b0 && b1 {
                            assert(cands_on_line(self@, *m, ln) =~= seq![c0, c1]);
                        } else if b0 {
                            assert(cands_on_line(self@, *m, ln) =~= seq![c0]);
                        } else if b1 {
                            assert(cands_on_line(self@, *m, ln) =~= seq![c1]);
                        } else {
                            assert(cands_on_line(self@, *m, ln) =~= Seq::<Square>::empty());
                        }
                    }
                    if !b0 && !b1 {
                        Err(TurnError::MissingInLine)
                    } else if b0 && b1 {
                        Err(TurnError::BothInLine)
                    } else if b0 {
                        Ok(Source::Square(c0))
                    } else {
                        Ok(Source::Square(c1))
                    }
                },
                _ => Err(TurnError::NeedLine),
            }
        } else {
            match m.src {
                Some(Source::Square(square)) => {
                    if contains_sq(&cands, &square) {
                        Ok(Source::Square(square))
                    } else {
                        Err(TurnError::MissingAtSquare)
                    }
                },
                _ => Err(TurnError::NeedSquare),
            }
        }
    }

    /// Checks that the side to move may castle the given way, as
    /// [validate_castling_spec] describes.
    fn validate_castling(&self, castling: &CastlingType, _flags: &u8) -> (r: Result<
        (),
        TurnError,
    >)
        requires
            self.wf(),
        ensures
            r == validate_castling_spec(self@, *castling),
    {
        let white = self.is_white;
        let rank: u8 = if white {
            0
        } else {
            7
        };
        let short = matches!(castling, CastlingType::Short);
        let p0 = Square {
            file: if short {
                5
            } else {
                3
            },
            rank,
        };
        let p1 = Square {
            file: if short {
                6
            } else {
                2
            },
            rank,
        };
        let ghost pass = castle_pass_squares(*castling, white);
        proof {
            assert(pass.len() == 2 && pass[0] == p0 && pass[1] == p1);
        }
        let through = self.is_in_check(white) || self.is_attacked(p0, !white) || self.is_attacked(
            p1,
            !white,
        );
        proof {
            if attacked(self@, p0, !white) {
                assert(0 <= 0 < pass.len() && attacked(self@, pass[0], !white));
            }
            if attacked(self@, p1, !white) {
                assert(0 <= 1 < pass.len() && attacked(self@, pass[1], !white));
            }
            if exists|i: int| 0 <= i < pass.len() && attacked(self@, #[trigger] pass[i], !white) {
                let i = choose|i: int|
                    0 <= i < pass.len() && attacked(self@, #[trigger] pass[i], !white);
                assert(i == 0 || i == 1);
            }
        }
        if through {
            return Err(TurnError::CastleThroughCheck);
        }
        let ghost empty = castle_empty_squares(*castling, white);
        let b1_sq = Square { file: 1, rank };
        let blocked = self.get(&p0).is_some() || self.get(&p1).is_some() || (!short && self.get(
            &b1_sq,
        ).is_some());
        proof {
            assert(empty[0] == p0 && empty[1] == p1);
            if !short {
                assert(empty.len() == 3 && empty[2] == b1_sq);
            } else {
                assert(empty.len() == 2);
            }
            if self@.at(p0) is Some {
                assert(0 <= 0 < empty.len() && self@.at(empty[0]) is Some);
            }
            if self@.at(p1) is Some {
                assert(0 <= 1 < empty.len() && self@.at(empty[1]) is Some);
            }
            if !short && self@.at(b1_sq) is Some {
                assert(0 <= 2 < empty.len() && self@.at(empty[2]) is Some);
            }
            if exists|i: int| 0 <= i < empty.len() && self@.at(#[trigger] empty[i]) is Some {
                let i = choose|i: int| 0 <= i < empty.len() && self@.at(#[trigger] empty[i]) is Some;
                assert(i == 0 || i == 1 || i == 2);
            }
        }
        if blocked {
            return Err(TurnError::CastlePathBlocked);
        }
        let right = match (short, white) {
            (true, true) => self.castling.white_kingside,
            (true, false) => self.castling.black_kingside,
            (false, true) => self.castling.white_queenside,
            (false, false) => self.castling.black_queenside,
        };
        if !right {
            return Err(TurnError::CastleLostRights);
        }
        Ok(())
    }

    /// Returns the fully qualified turn by determining the source of the
    /// piece, as [complete_turn_spec] describes.
    ///
    /// # Errors
    ///
    /// Returns an error if the move is illegal or if the source cannot be
    /// determined.
    pub fn validate_and_complete_turn(&self, turn: Turn) -> (r: Result<Turn, TurnError>)
        requires
            self.wf(),
            turn.wf(),
        ensures
            r == complete_turn_spec(self@, turn),
            r matches Ok(t) ==> t.wf() && t.fully_specified(),
    {
        match turn {
            Turn::Move(m) => {
                match self.validate_move(&m) {
                    Ok(src) => Ok(Turn::Move(Move { src: Some(src), ..m })),
                    Err(e) => Err(e),
                }
            },
            Turn::Castling(castling, fl) => {
                match self.validate_castling(&castling, &fl) {
                    Ok(_) => Ok(turn),
                    Err(e) => Err(e),
                }
            },
        }
    }

    /// Returns the turn with the least amount of information that still
    /// resolves to the same fully qualified move, as [minimum_move_spec]
    /// describes: no disambiguation, then the file, then the rank, then the
    /// exact square.
    pub fn get_minimum_move(&self, turn: &Turn) -> (r: Turn)
        requires
            self.wf(),
            turn.wf(),
            turn.fully_specified(),
        ensures
            r == minimum_move_spec(self@, *turn),
            r.wf(),
    {
        match turn {
            Turn::Castling(_, _) => *turn,
            Turn::Move(m) => {
                let s = if let Some(Source::Square(s)) = m.src {
                    s
                } else {
                    proof {
                        assert(false);
                    }
                    Square { file: 0, rank: 0 }
                };
                let bare = Move { src: None, ..*m };
                if let Ok(Source::Square(x)) = self.validate_move(&bare) {
                    if x == s {
                        return Turn::Move(bare);
                    }
                }
                let by_file = Move { src: Some(Source::Line(Line::file_of_index(s.file))), ..*m };
                if let Ok(Source::Square(x)) = self.validate_move(&by_file) {
                    if x == s {
                        return Turn::Move(by_file);
                    }
                }
                let by_rank = Move { src: Some(Source::Line(Line::rank_of_index(s.rank))), ..*m };
                if let Ok(Source::Square(x)) = self.validate_move(&by_rank) {
                    if x == s {
                        return Turn::Move(by_rank);
                    }
                }
                *turn
            },
        }
    }
}

impl ChessBoard {
    /// Returns whether the side to move has any legal move left.
    fn has_escape(&self) -> (r: bool)
        requires
            self.wf(),
        ensures
            r == escape_exists(self@),
    {
        let mut i: usize = 0;
        while i < 64
            invariant
                self.wf(),
                i <= 64,
                forall|j: int, dst: Square|
                    0 <= j < i ==> !#[trigger] candidate_escape(self@, Square::spec_from_idx(j), dst),
            decreases 64 - i,
        {
            let loc = Square::from_idx(i);
            match self.get(&loc) {
                Some(pc) => {
                    if pc.is_white == self.is_white {
                        let piece = *pc;
                        let mvs = self.gen_moves((loc, piece));
                        let mut d: usize = 0;
                        while d < mvs.len()
                            invariant
                                self.wf(),
                                loc.wf(),
                                d <= mvs@.len(),
                                self@.at(loc) == Some(piece),
                                piece.is_white == self@.white_to_move,
                                forall|sq: Square|
                                    #[trigger] mvs@.contains(sq) <==> is_move(self@, loc, piece, sq),
                                forall|sq: Square| #[trigger] mvs@.contains(sq) ==> sq.wf(),
                                forall|di: int|
                                    0 <= di < d ==> causes_check_spec(
                                        self@,
                                        spec_turn_of(loc, piece, #[trigger] mvs@[di]),
                                        self@.white_to_move,
                                    ),
                            decreases mvs@.len() - d,
                        {
                            let dst = mvs[d];
                            proof {
                                assert(mvs@.contains(mvs@[d as int]));
                            }
                            let t = Turn::new((loc, piece), dst);
                            if !self.causes_check(&t, self.is_white) {
                                proof {
                                    assert(candidate_escape(self@, loc, dst));
                                }
                                return true;
                            }
                            d += 1;
                        }
                        proof {
                            assert forall|dst: Square| !candidate_escape(self@, loc, dst) by {
                                if candidate_escape(self@, loc, dst) {
                                    assert(mvs@.contains(dst));
                                    let di = choose|di: int|
                                        0 <= di < mvs@.len() && mvs@[di] == dst;
                                    assert(causes_check_spec(
                                        self@,
                                        spec_turn_of(loc, piece, mvs@[di]),
                                        self@.white_to_move,
                                    ));
                                }
                            }
                        }
                    } else {
                        proof {
                            assert forall|dst: Square| !candidate_escape(self@, loc, dst) by {}
                        }
                    }
                },
                None => {
                    proof {
                        assert forall|dst: Square| !candidate_escape(self@, loc, dst) by {}
                    }
                },
            }
            i += 1;
        }
        proof {
            if escape_exists(self@) {
                let (loc, dst) = choose|loc: Square, dst: Square|
                    #[trigger] candidate_escape(self@, loc, dst);
                assert(loc.wf());
                lemma_from_idx_of_idx(loc);
                assert(!candidate_escape(self@, Square::spec_from_idx(loc.idx()), dst));
            }
        }
        false
    }

    /// Returns how many pieces of the given color stand on the board.
    fn count_color(&self, is_white: bool) -> (r: usize)
        requires
            self.wf(),
        ensures
            r as nat == count_color_upto(self@, is_white, 64),
    {
        let mut count: usize = 0;
        let mut i: usize = 0;
        while i < 64
            invariant
                self.wf(),
                i <= 64,
                count <= i,
                count as nat == count_color_upto(self@, is_white, i as nat),
            decreases 64 - i,
        {
            let sq = Square::from_idx(i);
            match self.get(&sq) {
                Some(pc) => {
                    if pc.is_white == is_white {
                        count += 1;
                    }
                },
                None => {},
            }
            i += 1;
        }
        count
    }

    /// Returns how many minor pieces (bishops and knights) of the given
    /// color stand on the board.
    fn count_minor(&self, is_white: bool) -> (r: usize)
        requires
            self.wf(),
        ensures
            r as nat == count_minor_upto(self@, is_white, 64),
    {
        let mut count: usize = 0;
        let mut i: usize = 0;
        while i < 64
            invariant
                self.wf(),
                i <= 64,
                count <= i,
                count as nat == count_minor_upto(self@, is_white, i as nat),
            decreases 64 - i,
        {
            let sq = Square::from_idx(i);
            match self.get(&sq) {
                Some(pc) => {
                    if pc.is_white == is_white && (matches!(pc.piece, PieceType::Bishop)
                        || matches!(pc.piece, PieceType::Knight)) {
                        count += 1;
                    }
                },
                None => {},
            }
            i += 1;
        }
        count
    }

    /// Returns whether neither side has enough material to give mate.
    fn is_insufficient_material(&self) -> (r: bool)
        requires
            self.wf(),
        ensures
            r == insufficient_material_spec(self@),
    {
        let w = self.count_color(true);
        let b = self.count_color(false);
        if w == 1 && b == 1 {
            return true;
        }
        if b == 1 && w == 2 && self.count_minor(true) == 1 {
            return true;
        }
        if w == 1 && b == 2 && self.count_minor(false) == 1 {
            return true;
        }
        if w == 2 && b == 2 {
            match (self.find_first(true, PieceType::Bishop), self.find_first(
                false,
                PieceType::Bishop,
            )) {
                (Some(wb), Some(bb)) => {
                    return wb.is_light() == bb.is_light();
                },
                _ => {
                    return false;
                },
            }
        }
        false
    }

    /// Returns whether the position history records some position reached
    /// at least three times.
    fn is_threefold_repitition(&self, position_hist: &Counter) -> (r: bool)
        ensures
            r == threefold_spec(position_hist@),
    {
        let counts = position_hist.counts();
        let mut i: usize = 0;
        while i < counts.len()
            invariant
                i <= counts@.len(),
                counts@.len() == position_hist@.len(),
                forall|j: int|
                    0 <= j < counts@.len() ==> #[trigger] counts@[j] as int == position_hist@[j].1,
                forall|j: int| 0 <= j < i ==> !(#[trigger] position_hist@[j].1 >= 3),
            decreases counts@.len() - i,
        {
            if counts[i] >= 3 {
                return true;
            }
            i += 1;
        }
        false
    }

    /// Returns what the gamestate is based on the board state and the
    /// position history, as [gamestate_spec] describes.
    ///
    /// The current player must be the player who will play next, rather
    /// than the player who just made the move, so this function must be run
    /// after [ChessBoard::update_board].
    pub fn check_gamestate(&self, position_hist: &Counter) -> (r: GameState)
        requires
            self.wf(),
        ensures
            r == gamestate_spec(self@, position_hist@),
    {
        let escape = self.has_escape();
        if !escape {
            if self.is_in_check(self.is_white) {
                return GameState::Win(Win { is_white: !self.is_white, kind: WinType::Checkmate });
            } else {
                return GameState::Draw(DrawType::Stalemate);
            }
        }
        if self.is_insufficient_material() {
            return GameState::Draw(DrawType::InsufficientMaterial);
        }
        if self.is_threefold_repitition(position_hist) {
            return GameState::Draw(DrawType::ThreefoldRepitition);
        }
        if self.half_move_clock >= 100 {
            return GameState::Draw(DrawType::FiftyMove);
        }
        GameState::Continue
    }

    /// Returns whether applying the turn ends the game with a win, by
    /// playing the turn out on a copy of the board.
    fn causes_checkmate(&self, turn: &Turn) -> (r: bool)
        requires
            self.wf(),
            turn.wf(),
            turn.fully_specified(),
        ensures
            r == causes_checkmate_spec(self@, *turn),
    {
        let mut test_board = self.clone();
        test_board.update_board(turn);
        let empty = Counter::new();
        matches!(test_board.check_gamestate(&empty), GameState::Win(_))
    }

    /// Returns the inputted turn with the flags it truly earns set, as
    /// [gen_flags_spec] describes.
    pub fn gen_flags(&self, turn: Turn) -> (r: Turn)
        requires
            self.wf(),
            turn.wf(),
            turn.fully_specified(),
        ensures
            r == with_flags(turn, gen_flags_spec(self@, turn)),
    {
        let check_part: u8 = if self.causes_checkmate(&turn) {
            flags::CHECKMATE
        } else if self.causes_check(&turn, !self.is_white) {
            flags::CHECK
        } else {
            0
        };
        let capture_part: u8 = match &turn {
            Turn::Move(m) => {
                if self.get(&m.dst).is_some() {
                    flags::CAPTURE
                } else {
                    0
                }
            },
            _ => 0,
        };
        let fl = check_part | capture_part;
        match turn {
            Turn::Castling(castling_type, _) => Turn::Castling(castling_type, fl),
            Turn::Move(m) => Turn::Move(Move { flags: fl, ..m }),
        }
    }

    /// Checks the flags written on the turn against what the turn truly
    /// does, as [enforce_flags_spec] describes.
    ///
    /// # Errors
    ///
    /// Returns an error naming the first flag found wrong, or the check the
    /// move leaves its own king in.
    pub fn enforce_flags(&self, turn: &Turn) -> (r: Result<(), TurnError>)
        requires
            self.wf(),
            turn.wf(),
            turn.fully_specified(),
        ensures
            r == enforce_flags_spec(self@, *turn),
    {
        let fl = match turn {
            Turn::Castling(_, flag) => *flag,
            Turn::Move(m) => m.flags,
        };
        if let Turn::Move(m) = turn {
            match (self.get(&m.dst).is_some(), is_flag_set(fl, flags::CAPTURE)) {
                (true, false) => {
                    return Err(TurnError::NeedCaptureSpecifier);
                },
                (false, true) => {
                    return Err(TurnError::RemoveCaptureSpecifier);
                },
                _ => {},
            }
        }
        match (self.causes_checkmate(turn), is_flag_set(fl, flags::CHECKMATE)) {
            (true, true) => {
                return Ok(());
            },
            (true, false) => {
                return Err(TurnError::NeedCheckmateSpecifier);
            },
            (false, true) => {
                return Err(TurnError::RemoveCheckmateSpecifier);
            },
            (false, false) => {},
        }
        match (self.causes_check(turn, !self.is_white), is_flag_set(fl, flags::CHECK)) {
            (true, false) => {
                return Err(TurnError::NeedCheckSpecifier);
            },
            (false, true) => {
                return Err(TurnError::RemoveCheckSpecifier);
            },
            _ => {},
        }
        if self.causes_check(turn, self.is_white) {
            return Err(TurnError::KingInCheck);
        }
        Ok(())
    }
}

} // verus!
