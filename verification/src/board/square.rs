//! The 64 squares of the board, addressed by file and rank coordinates.
use vstd::prelude::*;

use super::line::Line;

verus! {

/// One of the 64 positions of the board, stored as a file (0 = a .. 7 = h)
/// and a rank (0 = first rank .. 7 = eighth rank) coordinate pair.
#[derive(Clone, Copy, Debug, PartialEq, Eq, Structural)]
pub struct Square {
    /// The file coordinate: 0 = the a file .. 7 = the h file
    pub file: u8,
    /// The rank coordinate: 0 = the first rank .. 7 = the eighth rank
    pub rank: u8,
}

impl Square {
    /// Both coordinates stay on the board.
    pub open spec fn wf(self) -> bool {
        self.file < 8 && self.rank < 8
    }

    /// The file coordinate, as a mathematical integer.
    pub open spec fn file_i(self) -> int {
        self.file as int
    }

    /// The rank coordinate, as a mathematical integer.
    pub open spec fn rank_i(self) -> int {
        self.rank as int
    }

    /// The position of the square in the canonical square ordering.
    pub open spec fn idx(self) -> int {
        self.rank_i() * 8 + self.file_i()
    }

    /// The square with the given coordinates, when they are on the board.
    pub open spec fn spec_new(file: int, rank: int) -> Option<Square> {
        if 0 <= file < 8 && 0 <= rank < 8 {
            Some(Square { file: file as u8, rank: rank as u8 })
        } else {
            None
        }
    }

    /// Creates the square with the given file and rank coordinates, or
    /// nothing when either coordinate is off the board.
    pub fn new(file: u8, rank: u8) -> (r: Option<Square>)
        ensures
            r == Square::spec_new(file as int, rank as int),
    {
        if file < 8 && rank < 8 {
            Some(Square { file, rank })
        } else {
            None
        }
    }

    /// The square at the given position of the canonical square ordering.
    pub open spec fn spec_from_idx(i: int) -> Square {
        Square { file: (i % 8) as u8, rank: (i / 8) as u8 }
    }

    /// Returns the square at the given position of the canonical ordering.
    pub(crate) fn from_idx(i: usize) -> (r: Square)
        requires
            i < 64,
        ensures
            r == Square::spec_from_idx(i as int),
            r.idx() == i,
    {
        let r = Square { file: (i % 8) as u8, rank: (i / 8) as u8 };
        r
    }

    /// Returns the position of the square in the canonical ordering.
    pub(crate) fn index(&self) -> (i: usize)
        requires
            self.wf(),
        ensures
            i == self.idx(),
            i < 64,
    {
        (self.rank * 8 + self.file) as usize
    }

    /// Returns the file of the square as a [Line].
    pub fn file(&self) -> (r: Line)
        requires
            self.wf(),
        ensures
            r == Line::spec_file(self.file_i()),
    {
        Line::file_of_index(self.file)
    }

    /// Returns the rank of the square as a [Line].
    pub fn rank(&self) -> (r: Line)
        requires
            self.wf(),
        ensures
            r == Line::spec_rank(self.rank_i()),
    {
        Line::rank_of_index(self.rank)
    }

    /// A square is light exactly when its file and rank coordinates have
    /// different parity.
    pub open spec fn spec_is_light(self) -> bool {
        (self.file_i() + self.rank_i()) % 2 == 1
    }

    /// Returns whether the square is one of the light-colored squares.
    pub fn is_light(&self) -> (r: bool)
        requires
            self.wf(),
        ensures
            r == self.spec_is_light(),
    {
        (self.file + self.rank) % 2 == 1
    }

    /// The square one step up from this one (towards the eighth rank).
    pub fn up(&self) -> (r: Option<Square>)
        requires
            self.wf(),
        ensures
            r == spec_shift(*self, 0, 1),
    {
        self.offset(0, 1)
    }

    /// The square one step down from this one (towards the first rank).
    pub fn down(&self) -> (r: Option<Square>)
        requires
            self.wf(),
        ensures
            r == spec_shift(*self, 0, -1),
    {
        self.offset(0, -1)
    }

    /// The square one step to the right of this one (towards the h file).
    pub fn right(&self) -> (r: Option<Square>)
        requires
            self.wf(),
        ensures
            r == spec_shift(*self, 1, 0),
    {
        self.offset(1, 0)
    }

    /// The square one step to the left of this one (towards the a file).
    pub fn left(&self) -> (r: Option<Square>)
        requires
            self.wf(),
        ensures
            r == spec_shift(*self, -1, 0),
    {
        self.offset(-1, 0)
    }

    /// The square diagonally up and to the right.
    pub fn up_right(&self) -> (r: Option<Square>)
        requires
            self.wf(),
        ensures
            r == spec_shift(*self, 1, 1),
    {
        self.offset(1, 1)
    }

    /// The square diagonally up and to the left.
    pub fn up_left(&self) -> (r: Option<Square>)
        requires
            self.wf(),
        ensures
            r == spec_shift(*self, -1, 1),
    {
        self.offset(-1, 1)
    }

    /// The square diagonally down and to the right.
    pub fn down_right(&self) -> (r: Option<Square>)
        requires
            self.wf(),
        ensures
            r == spec_shift(*self, 1, -1),
    {
        self.offset(1, -1)
    }

    /// The square diagonally down and to the left.
    pub fn down_left(&self) -> (r: Option<Square>)
        requires
            self.wf(),
        ensures
            r == spec_shift(*self, -1, -1),
    {
        self.offset(-1, -1)
    }

    /// Steps the square by the given file and rank offsets, returning
    /// nothing when the step leaves the board.
    pub(crate) fn offset(&self, df: i8, dr: i8) -> (r: Option<Square>)
        requires
            self.wf(),
            -2 <= df <= 2,
            -2 <= dr <= 2,
        ensures
            r == spec_shift(*self, df as int, dr as int),
    {
        let nf = self.file as i8 + df;
        let nr = self.rank as i8 + dr;
        if 0 <= nf && nf < 8 && 0 <= nr && nr < 8 {
            Some(Square { file: nf as u8, rank: nr as u8 })
        } else {
            None
        }
    }
}

/// A well-formed square is recovered from its position in the canonical
/// ordering.
pub proof fn lemma_from_idx_of_idx(sq: Square)
    requires
        sq.wf(),
    ensures
        Square::spec_from_idx(sq.idx()) == sq,
        0 <= sq.idx() < 64,
{
    vstd::arithmetic::div_mod::lemma_fundamental_div_mod_converse(
        sq.idx(),
        8,
        sq.rank_i(),
        sq.file_i(),
    );
}

/// The square reached by stepping the given file and rank offsets, or
/// nothing when the step leaves the board.
pub open spec fn spec_shift(sq: Square, df: int, dr: int) -> Option<Square> {
    if sq.wf() && 0 <= sq.file_i() + df < 8 && 0 <= sq.rank_i() + dr < 8 {
        Some(Square { file: (sq.file_i() + df) as u8, rank: (sq.rank_i() + dr) as u8 })
    } else {
        None
    }
}

/// The square reached by `n` steps of the given offset, or nothing when any
/// of the steps leaves the board.
pub open spec fn spec_shift_n(sq: Square, df: int, dr: int, n: nat) -> Option<Square>
    decreases n,
{
    if n == 0 {
        Some(sq)
    } else {
        match spec_shift_n(sq, df, dr, (n - 1) as nat) {
            Some(s) => spec_shift(s, df, dr),
            None => None,
        }
    }
}

/// Each step moves the coordinates by exactly the offset, so `n` steps move
/// them by `n` times the offset.
pub proof fn lemma_shift_n_coords(sq: Square, df: int, dr: int, n: nat)
    requires
        sq.wf(),
        spec_shift_n(sq, df, dr, n) is Some,
    ensures
        spec_shift_n(sq, df, dr, n)->Some_0.wf(),
        spec_shift_n(sq, df, dr, n)->Some_0.file_i() == sq.file_i() + n * df,
        spec_shift_n(sq, df, dr, n)->Some_0.rank_i() == sq.rank_i() + n * dr,
    decreases n,
{
    if n == 0 {
        assert(n * df == 0) by (nonlinear_arith)
            requires
                n == 0,
        ;
        assert(n * dr == 0) by (nonlinear_arith)
            requires
                n == 0,
        ;
    } else {
        lemma_shift_n_coords(sq, df, dr, (n - 1) as nat);
        assert((n - 1) * df + df == n * df) by (nonlinear_arith);
        assert((n - 1) * dr + dr == n * dr) by (nonlinear_arith);
    }
}

/// A step sequence that has left the board never comes back.
pub proof fn lemma_shift_n_none(sq: Square, df: int, dr: int, m: nat, n: nat)
    requires
        spec_shift_n(sq, df, dr, m) is None,
        m <= n,
    ensures
        spec_shift_n(sq, df, dr, n) is None,
    decreases n,
{
    if n > m {
        lemma_shift_n_none(sq, df, dr, m, (n - 1) as nat);
    }
}

/// Along a direction that moves at least one coordinate, no more than seven
/// steps stay on the board.
pub proof fn lemma_shift_n_bound(sq: Square, df: int, dr: int, n: nat)
    requires
        -1 <= df <= 1,
        -1 <= dr <= 1,
        !(df == 0 && dr == 0),
        spec_shift_n(sq, df, dr, n) is Some,
    ensures
        n <= 7,
{
    if n == 0 {
        return ;
    }
    if !sq.wf() {
        assert(spec_shift_n(sq, df, dr, 0nat) == Some(sq));
        assert(spec_shift_n(sq, df, dr, 1nat) is None);
        lemma_shift_n_none(sq, df, dr, 1nat, n);
    }
    lemma_shift_n_coords(sq, df, dr, n);
    let dst = spec_shift_n(sq, df, dr, n)->Some_0;
    if df != 0 {
        assert(n * df == dst.file_i() - sq.file_i());
        if df == 1 {
            assert(n * df == n) by (nonlinear_arith)
                requires
                    df == 1,
            ;
        } else {
            assert(n * df == -(n as int)) by (nonlinear_arith)
                requires
                    df == -1,
            ;
        }
    } else {
        assert(n * dr == dst.rank_i() - sq.rank_i());
        if dr == 1 {
            assert(n * dr == n) by (nonlinear_arith)
                requires
                    dr == 1,
            ;
        } else {
            assert(n * dr == -(n as int)) by (nonlinear_arith)
                requires
                    dr == -1,
            ;
        }
    }
}

} // verus!
