//! Move and target generation for each piece kind, with the ray walk for
//! the sliding pieces.
use vstd::prelude::*;

use crate::pieces::{Piece, PieceType};

use super::model::{between_empty, is_move, is_target, ray_hit, BoardView};
use super::square::{
    lemma_from_idx_of_idx, lemma_shift_n_bound, lemma_shift_n_none, spec_shift, spec_shift_n,
    Square,
};
use super::ChessBoard;

verus! {

/// Appends a square to a target list.
pub(crate) fn push_sq(moves: &mut Vec<Square>, sq: Square)
    ensures
        final(moves)@ == old(moves)@.push(sq),
        forall|y: Square|
            #[trigger] final(moves)@.contains(y) <==> (old(moves)@.contains(y) || y == sq),
{
    moves.push(sq);
    proof {
        assert forall|y: Square| #[trigger] moves@.contains(y) implies (old(moves)@.contains(y)
            || y == sq) by {
            let i = choose|i: int| 0 <= i < moves@.len() && moves@[i] == y;
            if i < moves@.len() - 1 {
                assert(old(moves)@[i] == y);
            }
        }
        assert forall|y: Square| old(moves)@.contains(y) implies #[trigger] moves@.contains(y) by {
            let i = choose|i: int| 0 <= i < old(moves)@.len() && old(moves)@[i] == y;
            assert(moves@[i] == y);
        }
        assert(moves@[moves@.len() - 1] == sq);
        assert(moves@.contains(sq));
    }
}

/// Appends a square if the step stayed on the board.
pub(crate) fn push_opt(moves: &mut Vec<Square>, sq: Option<Square>)
    ensures
        forall|y: Square|
            #[trigger] final(moves)@.contains(y) <==> (old(moves)@.contains(y) || Some(y) == sq),
{
    if let Some(s) = sq {
        push_sq(moves, s);
    }
}

/// Returns whether the list holds the square.
pub(crate) fn contains_sq(v: &Vec<Square>, sq: &Square) -> (r: bool)
    ensures
        r == v@.contains(*sq),
{
    let mut i: usize = 0;
    while i < v.len()
        invariant
            i <= v@.len(),
            forall|j: int| 0 <= j < i ==> v@[j] != *sq,
        decreases v@.len() - i,
    {
        if v[i].file == sq.file && v[i].rank == sq.rank {
            assert(v@[i as int] == *sq);
            return true;
        }
        i += 1;
    }
    false
}

impl ChessBoard {
    /// Appends every square a sliding piece on `loc` reaches along one
    /// direction: the walk stops at the board edge or at the first occupied
    /// square, which is still included.
    fn push_ray(&self, loc: Square, df: i8, dr: i8, moves: &mut Vec<Square>)
        requires
            self.wf(),
            loc.wf(),
            -1 <= df <= 1,
            -1 <= dr <= 1,
            !(df == 0 && dr == 0),
        ensures
            forall|sq: Square|
                #[trigger] final(moves)@.contains(sq) <==> (old(moves)@.contains(sq) || ray_hit(
                    self@,
                    loc,
                    df as int,
                    dr as int,
                    sq,
                )),
    {
        let ghost dfi = df as int;
        let ghost dri = dr as int;
        let ghost m0 = moves@;
        let mut cur = loc;
        let ghost mut k: nat = 0nat;
        let mut going = true;
        while going
            invariant
                self.wf(),
                loc.wf(),
                cur.wf(),
                -1 <= df <= 1,
                -1 <= dr <= 1,
                !(df == 0 && dr == 0),
                dfi == df as int,
                dri == dr as int,
                k <= 7,
                spec_shift_n(loc, dfi, dri, k) == Some(cur),
                between_empty(self@, loc, dfi, dri, k),
                going ==> (k == 0 || self@.at(cur) is None),
                !going ==> (spec_shift(cur, dfi, dri) is None || (k >= 1 && self@.at(cur) is Some)),
                forall|sq: Square|
                    #[trigger] moves@.contains(sq) <==> (m0.contains(sq) || (exists|j: nat|
                        1 <= j <= k && #[trigger] spec_shift_n(loc, dfi, dri, j) == Some(sq))),
            decreases 8 - k + if going {
                1int
            } else {
                0int
            },
        {
            match cur.offset(df, dr) {
                None => {
                    going = false;
                },
                Some(next) => {
                    push_sq(moves, next);
                    proof {
                        assert(spec_shift_n(loc, dfi, dri, (k + 1) as nat) == Some(next));
                        k = k + 1;
                        lemma_shift_n_bound(loc, dfi, dri, k);
                        assert forall|sq: Square| #[trigger] moves@.contains(sq) implies (
                        m0.contains(sq) || (exists|j: nat|
                            1 <= j <= k && #[trigger] spec_shift_n(loc, dfi, dri, j) == Some(
                                sq,
                            ))) by {
                            if !m0.contains(sq) {
                                if sq == next {
                                    assert(spec_shift_n(loc, dfi, dri, k) == Some(sq));
                                } else {
                                    let j = choose|j: nat|
                                        1 <= j <= k - 1 && #[trigger] spec_shift_n(
                                            loc,
                                            dfi,
                                            dri,
                                            j,
                                        ) == Some(sq);
                                    assert(spec_shift_n(loc, dfi, dri, j) == Some(sq));
                                }
                            }
                        }
                    }
                    let occupied = self.get(&next).is_some();
                    cur = next;
                    if occupied {
                        going = false;
                    }
                },
            }
        }
        proof {
            assert forall|sq: Square| #[trigger] moves@.contains(sq) implies (m0.contains(sq)
                || ray_hit(self@, loc, dfi, dri, sq)) by {
                if !m0.contains(sq) {
                    let j = choose|j: nat|
                        1 <= j <= k && #[trigger] spec_shift_n(loc, dfi, dri, j) == Some(sq);
                    assert(between_empty(self@, loc, dfi, dri, j));
                }
            }
            assert forall|sq: Square| ray_hit(self@, loc, dfi, dri, sq) implies #[trigger] moves@
                .contains(sq) by {
                let n = choose|n: nat|
                    1 <= n && #[trigger] spec_shift_n(loc, dfi, dri, n) == Some(sq)
                        && between_empty(self@, loc, dfi, dri, n);
                if n > k {
                    if spec_shift(cur, dfi, dri) is None {
                        assert(spec_shift_n(loc, dfi, dri, (k + 1) as nat) is None);
                        lemma_shift_n_none(loc, dfi, dri, (k + 1) as nat, n);
                    } else {
                        assert(1 <= k < n);
                        assert(match spec_shift_n(loc, dfi, dri, k) {
                            Some(s) => self@.at(s) is None,
                            None => true,
                        });
                    }
                }
            }
        }
    }

    /// Returns every square the given piece on its square targets: the
    /// squares it attacks, with no regard to what stands on them.
    pub fn gen_targets(&self, full_piece: (Square, Piece)) -> (r: Vec<Square>)
        requires
            self.wf(),
            full_piece.0.wf(),
        ensures
            forall|sq: Square|
                #[trigger] r@.contains(sq) <==> is_target(self@, full_piece.0, full_piece.1, sq),
            forall|sq: Square| #[trigger] r@.contains(sq) ==> sq.wf(),
    {
        let (loc, piece) = full_piece;
        let mut moves: Vec<Square> = Vec::new();
        match piece.piece {
            PieceType::King => {
                push_opt(&mut moves, loc.offset(0, 1));
                push_opt(&mut moves, loc.offset(0, -1));
                push_opt(&mut moves, loc.offset(1, 0));
                push_opt(&mut moves, loc.offset(-1, 0));
                push_opt(&mut moves, loc.offset(1, 1));
                push_opt(&mut moves, loc.offset(-1, 1));
                push_opt(&mut moves, loc.offset(1, -1));
                push_opt(&mut moves, loc.offset(-1, -1));
            },
            PieceType::Knight => {
                push_opt(&mut moves, loc.offset(1, 2));
                push_opt(&mut moves, loc.offset(-1, 2));
                push_opt(&mut moves, loc.offset(2, 1));
                push_opt(&mut moves, loc.offset(2, -1));
                push_opt(&mut moves, loc.offset(1, -2));
                push_opt(&mut moves, loc.offset(-1, -2));
                push_opt(&mut moves, loc.offset(-2, 1));
                push_opt(&mut moves, loc.offset(-2, -1));
            },
            PieceType::Queen => {
                self.push_ray(loc, 0, 1, &mut moves);
                self.push_ray(loc, 0, -1, &mut moves);
                self.push_ray(loc, 1, 0, &mut moves);
                self.push_ray(loc, -1, 0, &mut moves);
                self.push_ray(loc, 1, 1, &mut moves);
                self.push_ray(loc, -1, 1, &mut moves);
                self.push_ray(loc, 1, -1, &mut moves);
                self.push_ray(loc, -1, -1, &mut moves);
            },
            PieceType::Rook => {
                self.push_ray(loc, 0, 1, &mut moves);
                self.push_ray(loc, 0, -1, &mut moves);
                self.push_ray(loc, 1, 0, &mut moves);
                self.push_ray(loc, -1, 0, &mut moves);
            },
            PieceType::Bishop => {
                self.push_ray(loc, 1, 1, &mut moves);
                self.push_ray(loc, -1, 1, &mut moves);
                self.push_ray(loc, 1, -1, &mut moves);
                self.push_ray(loc, -1, -1, &mut moves);
            },
            PieceType::Pawn => {
                if piece.is_white {
                    push_opt(&mut moves, loc.offset(1, 1));
                    push_opt(&mut moves, loc.offset(-1, 1));
                } else {
                    push_opt(&mut moves, loc.offset(1, -1));
                    push_opt(&mut moves, loc.offset(-1, -1));
                }
            },
        }
        proof {
            assert forall|sq: Square| #[trigger] moves@.contains(sq) implies sq.wf() by {
                assert(is_target(self@, loc, piece, sq));
                if ray_hit(self@, loc, 0, 1, sq) || ray_hit(self@, loc, 0, -1, sq) || ray_hit(
                    self@,
                    loc,
                    1,
                    0,
                    sq,
                ) || ray_hit(self@, loc, -1, 0, sq) || ray_hit(self@, loc, 1, 1, sq) || ray_hit(
                    self@,
                    loc,
                    -1,
                    1,
                    sq,
                ) || ray_hit(self@, loc, 1, -1, sq) || ray_hit(self@, loc, -1, -1, sq) {
                }
            }
        }
        moves
    }

    /// Returns every square the given piece on its square may move to,
    /// ignoring king safety.
    pub fn gen_moves(&self, full_piece: (Square, Piece)) -> (r: Vec<Square>)
        requires
            self.wf(),
            full_piece.0.wf(),
        ensures
            forall|sq: Square|
                #[trigger] r@.contains(sq) <==> is_move(self@, full_piece.0, full_piece.1, sq),
            forall|sq: Square| #[trigger] r@.contains(sq) ==> sq.wf(),
    {
        let (loc, piece) = full_piece;
        let targets = self.gen_targets(full_piece);
        let is_pawn = matches!(piece.piece, PieceType::Pawn);
        let mut moves: Vec<Square> = Vec::new();
        let mut i: usize = 0;
        while i < targets.len()
            invariant
                self.wf(),
                loc.wf(),
                i <= targets@.len(),
                is_pawn == (piece.piece == PieceType::Pawn),
                forall|sq: Square|
                    #[trigger] targets@.contains(sq) <==> is_target(self@, loc, piece, sq),
                forall|sq: Square| #[trigger] targets@.contains(sq) ==> sq.wf(),
                forall|sq: Square|
                    #[trigger] moves@.contains(sq) <==> (targets@.take(i as int).contains(sq)
                        && keep_target(self@, piece, sq)),
            decreases targets@.len() - i,
        {
            let sq = targets[i];
            proof {
                assert(targets@.contains(targets@[i as int]));
            }
            let keep = match self.get(&sq) {
                Some(pc) => pc.is_white != self.is_white,
                None => true,
            };
            let keep = if is_pawn {
                keep && (match self.get(&sq) {
                    Some(pc) => pc.is_white != self.is_white,
                    None => false,
                } || match &self.en_passant {
                    Some(ep) => ep.file == sq.file && ep.rank == sq.rank,
                    None => false,
                })
            } else {
                keep
            };
            if keep {
                push_sq(&mut moves, sq);
            }
            proof {
                assert(targets@.take(i + 1) =~= targets@.take(i as int).push(targets@[i as int]));
                assert forall|y: Square| #[trigger] targets@.take(i + 1).contains(y) implies (
                targets@.take(i as int).contains(y) || y == sq) by {
                    let j = choose|j: int| 0 <= j < i + 1 && #[trigger] targets@.take(i + 1)[j] == y;
                    if j < i {
                        assert(targets@.take(i as int)[j] == y);
                    }
                }
                assert forall|y: Square| targets@.take(i as int).contains(y) implies #[trigger]
                    targets@.take(i + 1).contains(y) by {
                    let j = choose|j: int| 0 <= j < i && #[trigger] targets@.take(i as int)[j] == y;
                    assert(targets@.take(i + 1)[j] == y);
                }
                assert(targets@.take(i + 1)[i as int] == sq);
                assert(targets@.take(i + 1).contains(sq));
            }
            i += 1;
        }
        proof {
            assert(targets@.take(targets@.len() as int) =~= targets@);
        }
        if is_pawn {
            let fwd: i8 = if piece.is_white {
                1
            } else {
                -1
            };
            let start_rank: u8 = if piece.is_white {
                1
            } else {
                6
            };
            if let Some(one) = loc.offset(0, fwd) {
                if self.get(&one).is_none() {
                    push_sq(&mut moves, one);
                }
            }
            if loc.rank == start_rank {
                if let Some(two) = loc.offset(0, 2 * fwd) {
                    let mid = loc.offset(0, fwd);
                    if let Some(mid_sq) = mid {
                        if self.get(&two).is_none() && self.get(&mid_sq).is_none() {
                            push_sq(&mut moves, two);
                        }
                    }
                }
            }
        }
        proof {
            assert forall|sq: Square| #[trigger] moves@.contains(sq) implies sq.wf() by {}
        }
        moves
    }
}

/// A generated target square is kept as a move: it must not hold a friendly
/// piece, and a pawn's diagonal only captures an enemy piece or the
/// en-passant target.
pub open spec fn keep_target(bv: BoardView, piece: Piece, sq: Square) -> bool {
    if piece.piece == PieceType::Pawn {
        !bv.friendly_at(sq) && (bv.enemy_at(sq) || bv.en_passant == Some(sq))
    } else {
        !bv.friendly_at(sq)
    }
}

} // verus!
