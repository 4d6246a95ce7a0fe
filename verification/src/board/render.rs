//! The visual rendering of the board as text, from either player's side.
use vstd::prelude::*;

use crate::text::{chars_to_string, digit_char};

use super::model::BoardView;
use super::square::Square;
use super::ChessBoard;

verus! {

/// The character shown for a square: the piece's figurine, or a blank.
pub open spec fn cell_char(bv: BoardView, f: int, r: int) -> char {
    match bv.at(Square { file: f as u8, rank: r as u8 }) {
        Some(pc) => pc.spec_symbol(),
        None => ' ',
    }
}

/// One rendered rank from the given file on: each cell followed by a
/// blank, walking the files upward or downward.
pub open spec fn row_cells(bv: BoardView, r: int, f: int, ascending: bool) -> Seq<char>
    decreases if ascending {
        8 - f
    } else {
        f + 1
    },
{
    if ascending {
        if f >= 8 {
            Seq::empty()
        } else {
            seq![cell_char(bv, f, r), ' '] + row_cells(bv, r, f + 1, true)
        }
    } else {
        if f < 0 {
            Seq::empty()
        } else {
            seq![cell_char(bv, f, r), ' '] + row_cells(bv, r, f - 1, false)
        }
    }
}

/// One rendered board line: a tab, the rank digit, a blank, the cells, and
/// a line break.
pub open spec fn row_line(bv: BoardView, r: int, ascending: bool) -> Seq<char> {
    seq!['\t', digit_char(r + 1), ' '] + row_cells(
        bv,
        r,
        if ascending {
            0
        } else {
            7
        },
        ascending,
    ) + seq!['\n']
}

/// The rendered ranks from `r` down to the first, from white's side.
pub open spec fn rows_white(bv: BoardView, r: int) -> Seq<char>
    decreases r + 1,
{
    if r < 0 {
        Seq::empty()
    } else {
        row_line(bv, r, true) + rows_white(bv, r - 1)
    }
}

/// The rendered ranks from `r` up to the eighth, from black's side.
pub open spec fn rows_black(bv: BoardView, r: int) -> Seq<char>
    decreases 8 - r,
{
    if r >= 8 {
        Seq::empty()
    } else {
        row_line(bv, r, false) + rows_black(bv, r + 1)
    }
}

/// The file letters under the board, from white's side.
pub open spec fn footer_white() -> Seq<char> {
    seq![
        '\t', ' ', ' ', 'a', ' ', 'b', ' ', 'c', ' ', 'd', ' ', 'e', ' ', 'f', ' ', 'g', ' ',
        'h', '\n',
    ]
}

/// The file letters under the board, from black's side.
pub open spec fn footer_black() -> Seq<char> {
    seq![
        '\t', ' ', ' ', 'h', ' ', 'g', ' ', 'f', ' ', 'e', ' ', 'd', ' ', 'c', ' ', 'b', ' ',
        'a', '\n',
    ]
}

/// The whole rendered board: from white's side the eighth rank is printed
/// first, from black's side the first.
pub open spec fn board_render(bv: BoardView, from_black: bool) -> Seq<char> {
    if from_black {
        rows_black(bv, 0) + footer_black()
    } else {
        rows_white(bv, 7) + footer_white()
    }
}

impl ChessBoard {
    /// Returns the visual state of the board: each rank on its own line
    /// with its digit, and the file letters underneath; seen from black's
    /// side when asked.
    pub fn render(&self, from_black: bool) -> (r: String)
        requires
            self.wf(),
        ensures
            r@ == board_render(self@, from_black),
    {
        let mut out: Vec<char> = Vec::new();
        let mut i: usize = 0;
        while i < 8
            invariant
                self.wf(),
                i <= 8,
                !from_black ==> out@ + rows_white(self@, 7 - i as int) == rows_white(self@, 7),
                from_black ==> out@ + rows_black(self@, i as int) == rows_black(self@, 0),
            decreases 8 - i,
        {
            let r: u8 = if from_black {
                i as u8
            } else {
                7 - i as u8
            };
            let ghost out_row = out@;
            out.push('\t');
            out.push(digit_to_char_render((r + 1) as u8));
            out.push(' ');
            let ghost out_cells = out@;
            let mut j: usize = 0;
            while j < 8
                invariant
                    self.wf(),
                    j <= 8,
                    r < 8,
                    from_black ==> out@ + row_cells(self@, r as int, 7 - j as int, false)
                        == out_cells + row_cells(self@, r as int, 7, false),
                    !from_black ==> out@ + row_cells(self@, r as int, j as int, true) == out_cells
                        + row_cells(self@, r as int, 0, true),
                decreases 8 - j,
            {
                let f: u8 = if from_black {
                    7 - j as u8
                } else {
                    j as u8
                };
                let sq = Square { file: f, rank: r };
                match self.get(&sq) {
                    Some(pc) => {
                        out.push(pc.symbol());
                    },
                    None => {
                        out.push(' ');
                    },
                }
                out.push(' ');
                proof {
                    if from_black {
                        assert(out@ + row_cells(self@, r as int, 7 - j - 1, false) =~= (out_cells
                            + row_cells(self@, r as int, 7, false)));
                    } else {
                        assert(out@ + row_cells(self@, r as int, j + 1, true) =~= (out_cells
                            + row_cells(self@, r as int, 0, true)));
                    }
                }
                j += 1;
            }
            out.push('\n');
            proof {
                if from_black {
                    assert(out@ + row_cells(self@, r as int, -1, false) =~= out@);
                    assert(out@ =~= out_row + row_line(self@, r as int, false));
                    assert(rows_black(self@, r as int) == row_line(self@, r as int, false)
                        + rows_black(self@, r + 1));
                    assert(out@ + rows_black(self@, i + 1) =~= out_row + rows_black(
                        self@,
                        i as int,
                    ));
                } else {
                    assert(out@ + row_cells(self@, r as int, 8, true) =~= out@);
                    assert(out@ =~= out_row + row_line(self@, r as int, true));
                    assert(rows_white(self@, r as int) == row_line(self@, r as int, true)
                        + rows_white(self@, r - 1));
                    assert(out@ + rows_white(self@, 7 - i - 1) =~= out_row + rows_white(
                        self@,
                        7 - i as int,
                    ));
                }
            }
            i += 1;
        }
        proof {
            if from_black {
                assert(out@ =~= out@ + rows_black(self@, 8));
            } else {
                assert(out@ =~= out@ + rows_white(self@, -1));
            }
        }
        if from_black {
            out.push('\t');
            out.push(' ');
            out.push(' ');
            out.push('h');
            out.push(' ');
            out.push('g');
            out.push(' ');
            out.push('f');
            out.push(' ');
            out.push('e');
            out.push(' ');
            out.push('d');
            out.push(' ');
            out.push('c');
            out.push(' ');
            out.push('b');
            out.push(' ');
            out.push('a');
            out.push('\n');
        } else {
            out.push('\t');
            out.push(' ');
            out.push(' ');
            out.push('a');
            out.push(' ');
            out.push('b');
            out.push(' ');
            out.push('c');
            out.push(' ');
            out.push('d');
            out.push(' ');
            out.push('e');
            out.push(' ');
            out.push('f');
            out.push(' ');
            out.push('g');
            out.push(' ');
            out.push('h');
            out.push('\n');
        }
        proof {
            assert(out@ =~= board_render(self@, from_black));
        }
        chars_to_string(out)
    }
}

/// Returns the character for a single decimal digit.
fn digit_to_char_render(d: u8) -> (r: char)
    requires
        d < 10,
    ensures
        r == digit_char(d as int),
{
    match d {
        0 => '0',
        1 => '1',
        2 => '2',
        3 => '3',
        4 => '4',
        5 => '5',
        6 => '6',
        7 => '7',
        8 => '8',
        _ => '9',
    }
}

} // verus!
