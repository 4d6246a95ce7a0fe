//! Ranks and files: the sixteen lines of the board.
use vstd::prelude::*;

use super::square::Square;

verus! {

/// A rank or a file of the board, each a set of eight squares.
#[derive(Clone, Copy, Debug, PartialEq, Eq, Structural)]
pub enum Line {
    /// The first rank
    Rank1,
    /// The second rank
    Rank2,
    /// The third rank
    Rank3,
    /// The fourth rank
    Rank4,
    /// The fifth rank
    Rank5,
    /// The sixth rank
    Rank6,
    /// The seventh rank
    Rank7,
    /// The eighth rank
    Rank8,
    /// The a file
    FileA,
    /// The b file
    FileB,
    /// The c file
    FileC,
    /// The d file
    FileD,
    /// The e file
    FileE,
    /// The f file
    FileF,
    /// The g file
    FileG,
    /// The h file
    FileH,
}

impl Line {
    /// Whether the line is one of the eight files.
    pub open spec fn spec_is_file(self) -> bool {
        match self {
            Line::FileA | Line::FileB | Line::FileC | Line::FileD | Line::FileE | Line::FileF
                | Line::FileG | Line::FileH => true,
            _ => false,
        }
    }

    /// Whether the line is one of the eight ranks.
    pub open spec fn spec_is_rank(self) -> bool {
        !self.spec_is_file()
    }

    /// The coordinate of the line: the rank index of a rank, the file index
    /// of a file.
    pub open spec fn index(self) -> int {
        match self {
            Line::Rank1 => 0,
            Line::Rank2 => 1,
            Line::Rank3 => 2,
            Line::Rank4 => 3,
            Line::Rank5 => 4,
            Line::Rank6 => 5,
            Line::Rank7 => 6,
            Line::Rank8 => 7,
            Line::FileA => 0,
            Line::FileB => 1,
            Line::FileC => 2,
            Line::FileD => 3,
            Line::FileE => 4,
            Line::FileF => 5,
            Line::FileG => 6,
            Line::FileH => 7,
        }
    }

    /// The rank with the given rank coordinate.
    pub open spec fn spec_rank(i: int) -> Line {
        if i == 0 {
            Line::Rank1
        } else if i == 1 {
            Line::Rank2
        } else if i == 2 {
            Line::Rank3
        } else if i == 3 {
            Line::Rank4
        } else if i == 4 {
            Line::Rank5
        } else if i == 5 {
            Line::Rank6
        } else if i == 6 {
            Line::Rank7
        } else {
            Line::Rank8
        }
    }

    /// The file with the given file coordinate.
    pub open spec fn spec_file(i: int) -> Line {
        if i == 0 {
            Line::FileA
        } else if i == 1 {
            Line::FileB
        } else if i == 2 {
            Line::FileC
        } else if i == 3 {
            Line::FileD
        } else if i == 4 {
            Line::FileE
        } else if i == 5 {
            Line::FileF
        } else if i == 6 {
            Line::FileG
        } else {
            Line::FileH
        }
    }

    /// Whether the square lies on the line.
    pub open spec fn spec_contains(self, sq: Square) -> bool {
        if self.spec_is_rank() {
            sq.rank_i() == self.index()
        } else {
            sq.file_i() == self.index()
        }
    }

    /// The character that names the line: a digit for a rank, a letter for a
    /// file.
    pub open spec fn spec_char(self) -> char {
        match self {
            Line::Rank1 => '1',
            Line::Rank2 => '2',
            Line::Rank3 => '3',
            Line::Rank4 => '4',
            Line::Rank5 => '5',
            Line::Rank6 => '6',
            Line::Rank7 => '7',
            Line::Rank8 => '8',
            Line::FileA => 'a',
            Line::FileB => 'b',
            Line::FileC => 'c',
            Line::FileD => 'd',
            Line::FileE => 'e',
            Line::FileF => 'f',
            Line::FileG => 'g',
            Line::FileH => 'h',
        }
    }

    /// The line named by a rank digit or a file letter, if any.
    pub open spec fn spec_new(c: char) -> Option<Line> {
        match c {
            '1' => Some(Line::Rank1),
            '2' => Some(Line::Rank2),
            '3' => Some(Line::Rank3),
            '4' => Some(Line::Rank4),
            '5' => Some(Line::Rank5),
            '6' => Some(Line::Rank6),
            '7' => Some(Line::Rank7),
            '8' => Some(Line::Rank8),
            'a' => Some(Line::FileA),
            'b' => Some(Line::FileB),
            'c' => Some(Line::FileC),
            'd' => Some(Line::FileD),
            'e' => Some(Line::FileE),
            'f' => Some(Line::FileF),
            'g' => Some(Line::FileG),
            'h' => Some(Line::FileH),
            _ => None,
        }
    }

    /// Creates the line named by a rank digit `'1'..='8'` or a file letter
    /// `'a'..='h'`.
    pub fn new(rank_or_file: char) -> (r: Result<Line, ()>)
        ensures
            match r {
                Ok(line) => Line::spec_new(rank_or_file) == Some(line),
                Err(_) => Line::spec_new(rank_or_file) is None,
            },
    {
        match rank_or_file {
            '1' => Ok(Line::Rank1),
            '2' => Ok(Line::Rank2),
            '3' => Ok(Line::Rank3),
            '4' => Ok(Line::Rank4),
            '5' => Ok(Line::Rank5),
            '6' => Ok(Line::Rank6),
            '7' => Ok(Line::Rank7),
            '8' => Ok(Line::Rank8),
            'a' => Ok(Line::FileA),
            'b' => Ok(Line::FileB),
            'c' => Ok(Line::FileC),
            'd' => Ok(Line::FileD),
            'e' => Ok(Line::FileE),
            'f' => Ok(Line::FileF),
            'g' => Ok(Line::FileG),
            'h' => Ok(Line::FileH),
            _ => Err(()),
        }
    }

    /// Returns the rank with the given rank coordinate.
    pub(crate) fn rank_of_index(i: u8) -> (r: Line)
        requires
            i < 8,
        ensures
            r == Line::spec_rank(i as int),
            r.spec_is_rank(),
            r.index() == i,
    {
        match i {
            0 => Line::Rank1,
            1 => Line::Rank2,
            2 => Line::Rank3,
            3 => Line::Rank4,
            4 => Line::Rank5,
            5 => Line::Rank6,
            6 => Line::Rank7,
            _ => Line::Rank8,
        }
    }

    /// Returns the file with the given file coordinate.
    pub(crate) fn file_of_index(i: u8) -> (r: Line)
        requires
            i < 8,
        ensures
            r == Line::spec_file(i as int),
            r.spec_is_file(),
            r.index() == i,
    {
        match i {
            0 => Line::FileA,
            1 => Line::FileB,
            2 => Line::FileC,
            3 => Line::FileD,
            4 => Line::FileE,
            5 => Line::FileF,
            6 => Line::FileG,
            _ => Line::FileH,
        }
    }

    /// Returns the coordinate of the line.
    pub(crate) fn index_exec(&self) -> (i: u8)
        ensures
            i == self.index(),
            i < 8,
    {
        match self {
            Line::Rank1 => 0,
            Line::Rank2 => 1,
            Line::Rank3 => 2,
            Line::Rank4 => 3,
            Line::Rank5 => 4,
            Line::Rank6 => 5,
            Line::Rank7 => 6,
            Line::Rank8 => 7,
            Line::FileA => 0,
            Line::FileB => 1,
            Line::FileC => 2,
            Line::FileD => 3,
            Line::FileE => 4,
            Line::FileF => 5,
            Line::FileG => 6,
            Line::FileH => 7,
        }
    }

    /// Returns the character that names the line.
    pub fn to_char(&self) -> (c: char)
        ensures
            c == self.spec_char(),
    {
        match self {
            Line::Rank1 => '1',
            Line::Rank2 => '2',
            Line::Rank3 => '3',
            Line::Rank4 => '4',
            Line::Rank5 => '5',
            Line::Rank6 => '6',
            Line::Rank7 => '7',
            Line::Rank8 => '8',
            Line::FileA => 'a',
            Line::FileB => 'b',
            Line::FileC => 'c',
            Line::FileD => 'd',
            Line::FileE => 'e',
            Line::FileF => 'f',
            Line::FileG => 'g',
            Line::FileH => 'h',
        }
    }

    /// The square of the line at the given position: squares of a rank are
    /// ordered by file, squares of a file by rank.
    pub open spec fn spec_sq(self, i: int) -> Square {
        if self.spec_is_rank() {
            Square { file: i as u8, rank: self.index() as u8 }
        } else {
            Square { file: self.index() as u8, rank: i as u8 }
        }
    }

    /// Returns the eight squares of the line: a rank from the a file to the
    /// h file, a file from the first rank to the eighth.
    pub fn to_vec(self) -> (r: Vec<Square>)
        ensures
            r@.len() == 8,
            forall|i: int| 0 <= i < 8 ==> r@[i] == self.spec_sq(i),
            forall|sq: Square| #[trigger] r@.contains(sq) <==> (sq.wf() && self.spec_contains(sq)),
    {
        let mut r: Vec<Square> = Vec::new();
        let idx = self.index_exec();
        let is_rank = self.is_rank();
        for i in 0..8u8
            invariant
                idx == self.index(),
                idx < 8,
                is_rank == self.spec_is_rank(),
                r@.len() == i,
                forall|j: int| 0 <= j < i ==> r@[j] == self.spec_sq(j),
        {
            if is_rank {
                r.push(Square { file: i, rank: idx });
            } else {
                r.push(Square { file: idx, rank: i });
            }
        }
        proof {
            assert forall|sq: Square| #[trigger] r@.contains(sq) implies (sq.wf()
                && self.spec_contains(sq)) by {
                let j = choose|j: int| 0 <= j < r@.len() && r@[j] == sq;
                assert(r@[j] == self.spec_sq(j));
            }
            assert forall|sq: Square| sq.wf() && self.spec_contains(sq) implies #[trigger] r@
                .contains(sq) by {
                let j = if self.spec_is_rank() {
                    sq.file_i()
                } else {
                    sq.rank_i()
                };
                assert(r@[j] == self.spec_sq(j));
                assert(self.spec_sq(j).file == sq.file);
                assert(self.spec_sq(j).rank == sq.rank);
                assert(r@[j] == sq);
            }
        }
        r
    }

    /// The single square shared by a rank and a file; two ranks or two files
    /// share none.
    pub open spec fn spec_intersection(self, other: Line) -> Option<Square> {
        if self.spec_is_rank() && other.spec_is_file() {
            Some(Square { file: other.index() as u8, rank: self.index() as u8 })
        } else if self.spec_is_file() && other.spec_is_rank() {
            Some(Square { file: self.index() as u8, rank: other.index() as u8 })
        } else {
            None
        }
    }

    /// Returns the square where this line crosses a perpendicular one, or
    /// nothing when the lines run in the same direction.
    pub fn intersection(&self, line: &Line) -> (r: Option<Square>)
        ensures
            r == self.spec_intersection(*line),
    {
        let self_rank = self.is_rank();
        let other_rank = line.is_rank();
        if self_rank && !other_rank {
            Some(Square { file: line.index_exec(), rank: self.index_exec() })
        } else if !self_rank && other_rank {
            Some(Square { file: self.index_exec(), rank: line.index_exec() })
        } else {
            None
        }
    }

    /// Returns whether the square lies on the line.
    pub(crate) fn has_square(&self, sq: &Square) -> (r: bool)
        ensures
            r == self.spec_contains(*sq),
    {
        if self.is_rank() {
            sq.rank == self.index_exec()
        } else {
            sq.file == self.index_exec()
        }
    }

    /// Returns whether the line is one of the eight files.
    pub fn is_file(&self) -> (r: bool)
        ensures
            r == self.spec_is_file(),
    {
        match self {
            Line::FileA | Line::FileB | Line::FileC | Line::FileD | Line::FileE | Line::FileF
                | Line::FileG | Line::FileH => true,
            _ => false,
        }
    }

    /// Returns whether the line is one of the eight ranks.
    pub fn is_rank(&self) -> (r: bool)
        ensures
            r == self.spec_is_rank(),
    {
        match self {
            Line::Rank1 | Line::Rank2 | Line::Rank3 | Line::Rank4 | Line::Rank5 | Line::Rank6
                | Line::Rank7 | Line::Rank8 => true,
            _ => false,
        }
    }
}

} // verus!
