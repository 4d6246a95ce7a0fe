//! The compact board serialization and its parser.
//!
//! A board serializes as six space-separated fields: the piece placement
//! (eight ranks from the eighth down, each run-length encoding its empty
//! squares), the side to move, the castling rights, the en-passant target,
//! the half-move clock, and the full move number.
use vstd::prelude::*;

use crate::pieces::{Piece, PieceType};
use crate::text::{
    char_digit, char_to_digit, chars_to_string, dec_digits, dec_value, digit_char, parse_u16_chars,
    parse_u8_chars, push_dec, split_drop, split_drop_exec, split_keep, split_keep_exec,
    str_to_chars,
};

use super::line::Line;
use super::model::BoardView;
use super::square::Square;
use super::{CastlingRights, ChessBoard};

verus! {

/// Ways that a serialized board state can be malformed
#[derive(Clone, Copy, Debug, PartialEq, Eq, Structural)]
pub enum FenError {
    /// The string does not hold exactly six fields
    FieldCount,
    /// The board field does not hold exactly eight ranks
    BadRanks,
    /// A character in the board field names no piece
    BadPiece,
    /// A rank does not describe exactly eight squares
    RankCount,
    /// The side-to-move field is neither `w` nor `b`
    BadPlayer,
    /// The castling field has a bad character, a duplicate, or a bad order
    BadCastling,
    /// The en-passant field is neither `-` nor a square
    BadEnPassant,
    /// A clock field is not a number of the right size
    BadClock,
}

/// The two characters naming a square: its file letter and its rank digit.
pub open spec fn square_name(sq: Square) -> Seq<char> {
    seq![
        Line::spec_file(sq.file_i()).spec_char(),
        Line::spec_rank(sq.rank_i()).spec_char(),
    ]
}

/// The run-length encoding of one rank, walking from the given file with
/// the given count of empty squares pending.
pub open spec fn rle_from(bv: BoardView, r: int, f: int, pending: int) -> Seq<char>
    decreases 8 - f,
{
    if f >= 8 {
        if pending > 0 {
            seq![digit_char(pending)]
        } else {
            Seq::empty()
        }
    } else {
        match bv.at(Square { file: f as u8, rank: r as u8 }) {
            Some(pc) => {
                let lead = if pending > 0 {
                    seq![digit_char(pending)]
                } else {
                    Seq::<char>::empty()
                };
                lead + seq![pc.spec_letter()] + rle_from(bv, r, f + 1, 0)
            },
            None => rle_from(bv, r, f + 1, pending + 1),
        }
    }
}

/// The run-length encoding of one rank of the board.
pub open spec fn rank_rle(bv: BoardView, r: int) -> Seq<char> {
    rle_from(bv, r, 0, 0)
}

/// The piece-placement field: the ranks from the eighth down to the first,
/// separated by slashes.
pub open spec fn ranks_down_from(bv: BoardView, r: int) -> Seq<char>
    decreases r + 1,
{
    if r < 0 {
        Seq::empty()
    } else if r == 0 {
        rank_rle(bv, 0)
    } else {
        rank_rle(bv, r) + seq!['/'] + ranks_down_from(bv, r - 1)
    }
}

/// The castling-rights field: the rights still held in canonical order, or
/// a dash when none is.
pub open spec fn castling_field(c: CastlingRights) -> Seq<char> {
    let s = (if c.white_kingside {
        seq!['K']
    } else {
        Seq::<char>::empty()
    }) + (if c.white_queenside {
        seq!['Q']
    } else {
        Seq::<char>::empty()
    }) + (if c.black_kingside {
        seq!['k']
    } else {
        Seq::<char>::empty()
    }) + (if c.black_queenside {
        seq!['q']
    } else {
        Seq::<char>::empty()
    });
    if s.len() == 0 {
        seq!['-']
    } else {
        s
    }
}

/// The en-passant field: the target square's name, or a dash.
pub open spec fn ep_field(ep: Option<Square>) -> Seq<char> {
    match ep {
        Some(sq) => square_name(sq),
        None => seq!['-'],
    }
}

/// The full serialization of a board: its six fields separated by single
/// spaces.
pub open spec fn fen_of(bv: BoardView) -> Seq<char> {
    ranks_down_from(bv, 7) + seq![' '] + (if bv.white_to_move {
        seq!['w']
    } else {
        seq!['b']
    }) + seq![' '] + castling_field(bv.castling) + seq![' '] + ep_field(bv.en_passant) + seq![' ']
        + dec_digits(bv.half_move_clock as int) + seq![' '] + dec_digits(
        bv.full_move_number as int,
    )
}

/// The first four fields of the serialization: the position itself,
/// without the two clocks. It is the key a position is counted under for
/// the repetition rule.
pub open spec fn position_key(bv: BoardView) -> Seq<char> {
    ranks_down_from(bv, 7) + seq![' '] + (if bv.white_to_move {
        seq!['w']
    } else {
        seq!['b']
    }) + seq![' '] + castling_field(bv.castling) + seq![' '] + ep_field(bv.en_passant)
}

/// The piece named by one board-field character: an uppercase letter for a
/// white piece, a lowercase one for a black piece.
pub open spec fn piece_of_char(c: char) -> Option<Piece> {
    match c {
        'K' => Some(Piece { piece: PieceType::King, is_white: true }),
        'Q' => Some(Piece { piece: PieceType::Queen, is_white: true }),
        'R' => Some(Piece { piece: PieceType::Rook, is_white: true }),
        'B' => Some(Piece { piece: PieceType::Bishop, is_white: true }),
        'N' => Some(Piece { piece: PieceType::Knight, is_white: true }),
        'P' => Some(Piece { piece: PieceType::Pawn, is_white: true }),
        'k' => Some(Piece { piece: PieceType::King, is_white: false }),
        'q' => Some(Piece { piece: PieceType::Queen, is_white: false }),
        'r' => Some(Piece { piece: PieceType::Rook, is_white: false }),
        'b' => Some(Piece { piece: PieceType::Bishop, is_white: false }),
        'n' => Some(Piece { piece: PieceType::Knight, is_white: false }),
        'p' => Some(Piece { piece: PieceType::Pawn, is_white: false }),
        _ => None,
    }
}

/// The squares one rank token describes: a digit stands for that many
/// empty squares, a letter for a piece; any other character fails.
pub open spec fn rank_cells(t: Seq<char>) -> Option<Seq<Option<Piece>>>
    decreases t.len(),
{
    if t.len() == 0 {
        Some(Seq::empty())
    } else {
        let c = t[0];
        if char_digit(c) >= 0 {
            match rank_cells(t.skip(1)) {
                Some(rest) => Some(Seq::new(char_digit(c) as nat, |i: int| None) + rest),
                None => None,
            }
        } else {
            match piece_of_char(c) {
                Some(pc) => match rank_cells(t.skip(1)) {
                    Some(rest) => Some(seq![Some(pc)] + rest),
                    None => None,
                },
                None => None,
            }
        }
    }
}

/// One rank token checked: its cells must cover exactly eight squares.
pub open spec fn rank_row(t: Seq<char>) -> Result<Seq<Option<Piece>>, FenError> {
    match rank_cells(t) {
        None => Err(FenError::BadPiece),
        Some(cells) => if cells.len() == 8 {
            Ok(cells)
        } else {
            Err(FenError::RankCount)
        },
    }
}

/// The rank tokens from position `i` on, parsed and concatenated in the
/// order given: the eighth rank first.
pub open spec fn rows_from(ranks: Seq<Seq<char>>, i: int) -> Result<Seq<Option<Piece>>, FenError>
    decreases 8 - i,
{
    if i >= 8 {
        Ok(Seq::empty())
    } else {
        match rank_row(ranks[i]) {
            Err(e) => Err(e),
            Ok(cells) => match rows_from(ranks, i + 1) {
                Err(e) => Err(e),
                Ok(rest) => Ok(cells + rest),
            },
        }
    }
}

/// The piece-placement field parsed into the 64 squares in canonical
/// order.
pub open spec fn parse_board_field(t: Seq<char>) -> Result<Seq<Option<Piece>>, FenError> {
    let ranks = split_keep(t, '/');
    if ranks.len() != 8 {
        Err(FenError::BadRanks)
    } else {
        match rows_from(ranks, 0) {
            Err(e) => Err(e),
            Ok(rows) => Ok(Seq::new(64, |i: int| rows[(7 - i / 8) * 8 + i % 8])),
        }
    }
}

/// The castling field parsed against the remaining canonical template
/// `KQkq` from position `ti` on: each present right must appear in order,
/// at most once.
pub open spec fn cast_from(t: Seq<char>, ti: int) -> Option<CastlingRights>
    decreases 4 - ti,
{
    if t.len() == 0 {
        Some(
            CastlingRights {
                white_kingside: false,
                white_queenside: false,
                black_kingside: false,
                black_queenside: false,
            },
        )
    } else if ti >= 4 {
        None
    } else {
        let c = if ti == 0 {
            'K'
        } else if ti == 1 {
            'Q'
        } else if ti == 2 {
            'k'
        } else {
            'q'
        };
        if t[0] == c {
            match cast_from(t.skip(1), ti + 1) {
                Some(rest) => Some(
                    if ti == 0 {
                        CastlingRights { white_kingside: true, ..rest }
                    } else if ti == 1 {
                        CastlingRights { white_queenside: true, ..rest }
                    } else if ti == 2 {
                        CastlingRights { black_kingside: true, ..rest }
                    } else {
                        CastlingRights { black_queenside: true, ..rest }
                    },
                ),
                None => None,
            }
        } else {
            cast_from(t, ti + 1)
        }
    }
}

/// The castling field parsed: a dash means no rights at all.
pub open spec fn parse_castling_field(t: Seq<char>) -> Option<CastlingRights> {
    if t == seq!['-'] {
        Some(
            CastlingRights {
                white_kingside: false,
                white_queenside: false,
                black_kingside: false,
                black_queenside: false,
            },
        )
    } else {
        cast_from(t, 0)
    }
}

/// The en-passant field parsed: a dash or the name of a square.
pub open spec fn parse_ep_field(t: Seq<char>) -> Result<Option<Square>, FenError> {
    if t == seq!['-'] {
        Ok(None)
    } else if t.len() == 2 {
        match (Line::spec_new(t[0]), Line::spec_new(t[1])) {
            (Some(fl), Some(rl)) => if fl.spec_is_file() && rl.spec_is_rank() {
                Ok(Some(Square { file: fl.index() as u8, rank: rl.index() as u8 }))
            } else {
                Err(FenError::BadEnPassant)
            },
            _ => Err(FenError::BadEnPassant),
        }
    } else {
        Err(FenError::BadEnPassant)
    }
}

/// A serialized board parsed: six fields, checked left to right.
pub open spec fn parse_fen_spec(s: Seq<char>) -> Result<BoardView, FenError> {
    let fields = split_drop(s, ' ');
    if fields.len() != 6 {
        Err(FenError::FieldCount)
    } else {
        match parse_board_field(fields[0]) {
            Err(e) => Err(e),
            Ok(squares) => {
                if fields[1] != seq!['w'] && fields[1] != seq!['b'] {
                    Err(FenError::BadPlayer)
                } else {
                    let white = fields[1] == seq!['w'];
                    match parse_castling_field(fields[2]) {
                        None => Err(FenError::BadCastling),
                        Some(castling) => match parse_ep_field(fields[3]) {
                            Err(e) => Err(e),
                            Ok(en_passant) => {
                                let clock = fields[4];
                                let number = fields[5];
                                if !(crate::text::all_digits(clock) && dec_value(clock)
                                    <= u8::MAX) {
                                    Err(FenError::BadClock)
                                } else if !(crate::text::all_digits(number) && dec_value(number)
                                    <= u16::MAX) {
                                    Err(FenError::BadClock)
                                } else {
                                    Ok(
                                        BoardView {
                                            squares,
                                            white_to_move: white,
                                            castling,
                                            en_passant,
                                            half_move_clock: dec_value(clock) as u8,
                                            full_move_number: dec_value(number) as u16,
                                        },
                                    )
                                }
                            },
                        },
                    }
                }
            },
        }
    }
}

impl Square {
    /// Returns the two-character name of the square: its file letter and
    /// its rank digit.
    pub fn name(&self) -> (r: String)
        requires
            self.wf(),
        ensures
            r@ == square_name(*self),
    {
        let mut out: Vec<char> = Vec::new();
        out.push(self.file().to_char());
        out.push(self.rank().to_char());
        proof {
            assert(out@ =~= square_name(*self));
        }
        chars_to_string(out)
    }
}

impl ChessBoard {
    /// Appends the piece-placement field: the eight ranks from the eighth
    /// down, slash-separated, each run-length encoded.
    fn push_board_field(&self, out: &mut Vec<char>)
        requires
            self.wf(),
        ensures
            final(out)@ == old(out)@ + ranks_down_from(self@, 7),
    {
        let mut rr: usize = 0;
        while rr < 8
            invariant
                self.wf(),
                rr <= 8,
                out@ + ranks_down_from(self@, 7 - rr as int) == old(out)@ + ranks_down_from(
                    self@,
                    7,
                ),
            decreases 8 - rr,
        {
            let r = 7 - rr;
            let mut pending: u8 = 0;
            let mut f: usize = 0;
            let ghost out_before = out@;
            while f < 8
                invariant
                    self.wf(),
                    f <= 8,
                    pending <= f,
                    r == 7 - rr,
                    rr < 8,
                    out_before + rank_rle(self@, r as int) == out@ + rle_from(
                        self@,
                        r as int,
                        f as int,
                        pending as int,
                    ),
                decreases 8 - f,
            {
                let sq = Square { file: f as u8, rank: r as u8 };
                match self.get(&sq) {
                    Some(pc) => {
                        if pending > 0 {
                            out.push(digit_to_char_local(pending));
                        }
                        out.push(pc.letter());
                        pending = 0;
                    },
                    None => {
                        pending += 1;
                    },
                }
                f += 1;
            }
            if pending > 0 {
                out.push(digit_to_char_local(pending));
            }
            proof {
                assert(rle_from(self@, r as int, 8, pending as int) == if pending > 0 {
                    seq![digit_char(pending as int)]
                } else {
                    Seq::<char>::empty()
                });
                assert(out@ =~= out_before + rank_rle(self@, r as int));
            }
            if rr < 7 {
                out.push('/');
                proof {
                    assert(ranks_down_from(self@, 7 - rr as int) == rank_rle(self@, 7 - rr as int)
                        + seq!['/'] + ranks_down_from(self@, 6 - rr as int));
                    assert(out@ + ranks_down_from(self@, 6 - rr as int) =~= out_before
                        + ranks_down_from(self@, 7 - rr as int));
                }
            } else {
                proof {
                    assert(ranks_down_from(self@, 0) == rank_rle(self@, 0));
                    assert(ranks_down_from(self@, -1) == Seq::<char>::empty());
                    assert(out@ + ranks_down_from(self@, -1) =~= out_before + ranks_down_from(
                        self@,
                        0,
                    ));
                }
            }
            rr += 1;
        }
        proof {
            assert(out@ =~= out@ + ranks_down_from(self@, -1));
        }
    }

    /// Returns the first four fields of the serialization: the position
    /// without the clocks, as counted for the repetition rule.
    pub fn position_fields(&self) -> (r: String)
        requires
            self.wf(),
        ensures
            r@ == position_key(self@),
    {
        let mut out: Vec<char> = Vec::new();
        self.push_board_field(&mut out);
        let ghost c1 = out@;
        out.push(' ');
        if self.is_white {
            out.push('w');
        } else {
            out.push('b');
        }
        let ghost c2 = out@;
        proof {
            assert(c2 =~= c1 + seq![' '] + (if self@.white_to_move {
                seq!['w']
            } else {
                seq!['b']
            }));
        }
        out.push(' ');
        push_castling_chars(&self.castling, &mut out);
        let ghost c3 = out@;
        proof {
            assert(c3 =~= c2 + seq![' '] + castling_field(self@.castling));
        }
        out.push(' ');
        match &self.en_passant {
            Some(sq) => {
                let fl = sq.file();
                let rl = sq.rank();
                out.push(fl.to_char());
                out.push(rl.to_char());
            },
            None => {
                out.push('-');
            },
        }
        proof {
            assert(out@ =~= c3 + seq![' '] + ep_field(self@.en_passant));
            assert(out@ =~= position_key(self@));
        }
        chars_to_string(out)
    }

    /// Returns the serialization of the current board state.
    pub fn gen_fen(&self) -> (r: String)
        requires
            self.wf(),
        ensures
            r@ == fen_of(self@),
    {
        let mut out: Vec<char> = Vec::new();
        self.push_board_field(&mut out);
        let ghost c1 = out@;
        out.push(' ');
        if self.is_white {
            out.push('w');
        } else {
            out.push('b');
        }
        let ghost c2 = out@;
        proof {
            assert(c2 =~= c1 + seq![' '] + (if self@.white_to_move {
                seq!['w']
            } else {
                seq!['b']
            }));
        }
        out.push(' ');
        push_castling_chars(&self.castling, &mut out);
        let ghost c3 = out@;
        proof {
            assert(c3 =~= c2 + seq![' '] + castling_field(self@.castling));
        }
        out.push(' ');
        match &self.en_passant {
            Some(sq) => {
                let fl = sq.file();
                let rl = sq.rank();
                out.push(fl.to_char());
                out.push(rl.to_char());
            },
            None => {
                out.push('-');
            },
        }
        let ghost c4 = out@;
        proof {
            assert(c4 =~= c3 + seq![' '] + ep_field(self@.en_passant));
        }
        out.push(' ');
        push_dec(self.half_move_clock as u16, &mut out);
        let ghost c5 = out@;
        proof {
            assert(c5 =~= c4 + seq![' '] + dec_digits(self@.half_move_clock as int));
        }
        out.push(' ');
        push_dec(self.full_move_number, &mut out);
        proof {
            assert(out@ =~= c5 + seq![' '] + dec_digits(self@.full_move_number as int));
            assert(out@ =~= fen_of(self@));
        }
        chars_to_string(out)
    }
}

/// Appends the castling-rights field.
fn push_castling_chars(c: &CastlingRights, out: &mut Vec<char>)
    ensures
        final(out)@ == old(out)@ + castling_field(*c),
{
    let mut wrote = false;
    if c.white_kingside {
        out.push('K');
        wrote = true;
    }
    if c.white_queenside {
        out.push('Q');
        wrote = true;
    }
    if c.black_kingside {
        out.push('k');
        wrote = true;
    }
    if c.black_queenside {
        out.push('q');
        wrote = true;
    }
    if !wrote {
        out.push('-');
    }
    proof {
        assert(out@ =~= old(out)@ + castling_field(*c));
    }
}


/// Returns the piece a board-field character names, if any.
fn piece_from_char(c: char) -> (r: Option<Piece>)
    ensures
        r == piece_of_char(c),
{
    match c {
        'K' => Some(Piece { piece: PieceType::King, is_white: true }),
        'Q' => Some(Piece { piece: PieceType::Queen, is_white: true }),
        'R' => Some(Piece { piece: PieceType::Rook, is_white: true }),
        'B' => Some(Piece { piece: PieceType::Bishop, is_white: true }),
        'N' => Some(Piece { piece: PieceType::Knight, is_white: true }),
        'P' => Some(Piece { piece: PieceType::Pawn, is_white: true }),
        'k' => Some(Piece { piece: PieceType::King, is_white: false }),
        'q' => Some(Piece { piece: PieceType::Queen, is_white: false }),
        'r' => Some(Piece { piece: PieceType::Rook, is_white: false }),
        'b' => Some(Piece { piece: PieceType::Bishop, is_white: false }),
        'n' => Some(Piece { piece: PieceType::Knight, is_white: false }),
        'p' => Some(Piece { piece: PieceType::Pawn, is_white: false }),
        _ => None,
    }
}

/// Parses one rank token into the squares it describes.
fn parse_rank_cells(t: &Vec<char>) -> (r: Option<Vec<Option<Piece>>>)
    ensures
        match r {
            Some(cells) => rank_cells(t@) == Some(cells@),
            None => rank_cells(t@) is None,
        },
{
    let mut cells: Vec<Option<Piece>> = Vec::new();
    let mut j: usize = 0;
    proof {
        assert(t@.skip(0) =~= t@);
        if rank_cells(t@) is Some {
            assert(Seq::<Option<Piece>>::empty() + rank_cells(t@)->Some_0 =~= rank_cells(
                t@,
            )->Some_0);
        }
    }
    while j < t.len()
        invariant
            j <= t@.len(),
            rank_cells(t@) == (match rank_cells(t@.skip(j as int)) {
                Some(rest) => Some(cells@ + rest),
                None => None::<Seq<Option<Piece>>>,
            }),
        decreases t@.len() - j,
    {
        let c = t[j];
        proof {
            assert(t@.skip(j as int)[0] == t@[j as int]);
            assert(t@.skip(j as int).skip(1) =~= t@.skip(j + 1));
        }
        let ghost rest2 = rank_cells(t@.skip(j + 1));
        match char_to_digit(c) {
            Some(d) => {
                let ghost before = cells@;
                let ghost rep = Seq::new(char_digit(c) as nat, |i: int| None::<Piece>);
                let mut e: u8 = 0;
                while e < d
                    invariant
                        e <= d,
                        cells@ == before + Seq::new(e as nat, |i: int| None::<Piece>),
                    decreases d - e,
                {
                    cells.push(None);
                    proof {
                        assert(cells@ =~= before + Seq::new((e + 1) as nat, |i: int| None::<Piece>));
                    }
                    e += 1;
                }
                proof {
                    assert(cells@ =~= before + rep);
                    if rest2 is Some {
                        assert(before + (rep + rest2->Some_0) =~= cells@ + rest2->Some_0);
                    }
                }
            },
            None => {
                match piece_from_char(c) {
                    Some(pc) => {
                        let ghost before = cells@;
                        cells.push(Some(pc));
                        proof {
                            if rest2 is Some {
                                assert(before + (seq![Some(pc)] + rest2->Some_0) =~= cells@
                                    + rest2->Some_0);
                            }
                        }
                    },
                    None => {
                        return None;
                    },
                }
            },
        }
        j += 1;
    }
    proof {
        assert(t@.skip(t@.len() as int) =~= Seq::<char>::empty());
        assert(cells@ + Seq::<Option<Piece>>::empty() =~= cells@);
    }
    Some(cells)
}

/// Returns the character for a single decimal digit.
fn digit_to_char_local(d: u8) -> (r: char)
    requires
        d < 10,
    ensures
        r == digit_char(d as int),
{
    match d {
        0 => '0',
        1 => '1',
        2 => '2',
        3 => '3',
        4 => '4',
        5 => '5',
        6 => '6',
        7 => '7',
        8 => '8',
        _ => '9',
    }
}

/// Walks the castling field against the canonical template from the given
/// positions on.
fn cast_walk(t: &Vec<char>, pos: usize, ti: u8) -> (r: Option<CastlingRights>)
    requires
        pos <= t@.len(),
        ti <= 4,
    ensures
        r == cast_from(t@.skip(pos as int), ti as int),
    decreases 4 - ti,
{
    if pos == t.len() {
        proof {
            assert(t@.skip(pos as int) =~= Seq::<char>::empty());
        }
        return Some(
            CastlingRights {
                white_kingside: false,
                white_queenside: false,
                black_kingside: false,
                black_queenside: false,
            },
        );
    }
    if ti >= 4 {
        return None;
    }
    let c: char = if ti == 0 {
        'K'
    } else if ti == 1 {
        'Q'
    } else if ti == 2 {
        'k'
    } else {
        'q'
    };
    proof {
        assert(t@.skip(pos as int)[0] == t@[pos as int]);
        assert(t@.skip(pos as int).skip(1) =~= t@.skip(pos + 1));
    }
    if t[pos] == c {
        match cast_walk(t, pos + 1, ti + 1) {
            Some(rest) => {
                if ti == 0 {
                    Some(CastlingRights { white_kingside: true, ..rest })
                } else if ti == 1 {
                    Some(CastlingRights { white_queenside: true, ..rest })
                } else if ti == 2 {
                    Some(CastlingRights { black_kingside: true, ..rest })
                } else {
                    Some(CastlingRights { black_queenside: true, ..rest })
                }
            },
            None => None,
        }
    } else {
        cast_walk(t, pos, ti + 1)
    }
}

impl ChessBoard {
    /// Parses a serialized board state, as [parse_fen_spec] describes.
    ///
    /// # Errors
    ///
    /// Returns an error naming the first malformed field.
    pub fn from_fen(s: &str) -> (r: Result<ChessBoard, FenError>)
        ensures
            match r {
                Ok(b) => b.wf() && (parse_fen_spec(s@) matches Ok(bv) && b@ == bv),
                Err(e) => parse_fen_spec(s@) matches Err(e2) && e == e2,
            },
    {
        let chars = str_to_chars(s);
        let fields = split_drop_exec(&chars, ' ');
        let ghost fv = split_drop(s@, ' ');
        proof {
            assert(fields@.map_values(|t: Vec<char>| t@) == fv);
        }
        if fields.len() != 6 {
            return Err(FenError::FieldCount);
        }
        proof {
            assert forall|i: int| 0 <= i < 6 implies (#[trigger] fields@[i])@ == fv[i] by {
                assert(fields@.map_values(|t: Vec<char>| t@)[i] == fields@[i]@);
            }
        }
        // the piece placement
        let ranks = split_keep_exec(&fields[0], '/');
        let ghost rv = split_keep(fv[0], '/');
        proof {
            assert(ranks@.map_values(|t: Vec<char>| t@) == rv);
        }
        if ranks.len() != 8 {
            return Err(FenError::BadRanks);
        }
        proof {
            assert forall|i: int| 0 <= i < 8 implies (#[trigger] ranks@[i])@ == rv[i] by {
                assert(ranks@.map_values(|t: Vec<char>| t@)[i] == ranks@[i]@);
            }
        }
        let mut rows: Vec<Option<Piece>> = Vec::new();
        let mut i: usize = 0;
        while i < 8
            invariant
                i <= 8,
                ranks@.len() == 8,
                rv.len() == 8,
                fv == split_drop(s@, ' '),
                fv.len() == 6,
                rv == split_keep(fv[0], '/'),
                forall|k: int| 0 <= k < 8 ==> (#[trigger] ranks@[k])@ == rv[k],
                rows@.len() == 8 * i,
                rows_from(rv, 0) == (match rows_from(rv, i as int) {
                    Ok(rest) => Ok(rows@ + rest),
                    Err(e) => Err::<Seq<Option<Piece>>, FenError>(e),
                }),
            decreases 8 - i,
        {
            let ghost rest2 = rows_from(rv, i + 1);
            proof {
                assert(ranks@[i as int]@ == rv[i as int]);
            }
            match parse_rank_cells(&ranks[i]) {
                None => {
                    proof {
                        assert(rank_row(rv[i as int]) == Err::<Seq<Option<Piece>>, FenError>(
                            FenError::BadPiece,
                        ));
                        assert(rows_from(rv, i as int) == Err::<Seq<Option<Piece>>, FenError>(
                            FenError::BadPiece,
                        ));
                    }
                    return Err(FenError::BadPiece);
                },
                Some(cells) => {
                    if cells.len() != 8 {
                        proof {
                            assert(rank_row(rv[i as int]) == Err::<Seq<Option<Piece>>, FenError>(
                                FenError::RankCount,
                            ));
                            assert(rows_from(rv, i as int) == Err::<Seq<Option<Piece>>, FenError>(
                                FenError::RankCount,
                            ));
                        }
                        return Err(FenError::RankCount);
                    }
                    let ghost before = rows@;
                    let mut cs = cells;
                    rows.append(&mut cs);
                    proof {
                        if rest2 is Ok {
                            assert(before + (rank_row(rv[i as int])->Ok_0 + rest2->Ok_0) =~= rows@
                                + rest2->Ok_0);
                        }
                    }
                },
            }
            i += 1;
        }
        proof {
            assert(rows_from(rv, 8) == Ok::<Seq<Option<Piece>>, FenError>(Seq::empty()));
            assert(rows@ + Seq::<Option<Piece>>::empty() =~= rows@);
            assert(rows_from(rv, 0) == Ok::<Seq<Option<Piece>>, FenError>(rows@));
        }
        let mut squares: Vec<Option<Piece>> = Vec::new();
        let mut idx: usize = 0;
        while idx < 64
            invariant
                idx <= 64,
                rows@.len() == 64,
                squares@.len() == idx,
                forall|k: int| 0 <= k < idx ==> squares@[k] == rows@[(7 - k / 8) * 8 + k % 8],
            decreases 64 - idx,
        {
            let r = idx / 8;
            let f = idx % 8;
            squares.push(rows[(7 - r) * 8 + f]);
            idx += 1;
        }
        proof {
            assert(squares@ =~= Seq::new(64, |k: int| rows@[(7 - k / 8) * 8 + k % 8]));
        }
        // the side to move
        let f1 = &fields[1];
        let white = if f1.len() == 1 {
            let c = f1[0];
            proof {
                if c == 'w' {
                    assert(f1@ =~= seq!['w']);
                }
                if c == 'b' {
                    assert(f1@ =~= seq!['b']);
                }
            }
            if c == 'w' {
                true
            } else if c == 'b' {
                false
            } else {
                proof {
                    assert(f1@ != seq!['w'] && f1@ != seq!['b']);
                }
                return Err(FenError::BadPlayer);
            }
        } else {
            proof {
                assert(f1@ != seq!['w'] && f1@ != seq!['b']);
            }
            return Err(FenError::BadPlayer);
        };
        // the castling rights
        let f2 = &fields[2];
        let castling = if f2.len() == 1 && f2[0] == '-' {
            proof {
                assert(f2@ =~= seq!['-']);
            }
            CastlingRights {
                white_kingside: false,
                white_queenside: false,
                black_kingside: false,
                black_queenside: false,
            }
        } else {
            proof {
                if f2@ == seq!['-'] {
                    assert(f2@.len() == 1 && f2@[0] == '-');
                }
                assert(f2@.skip(0) =~= f2@);
            }
            match cast_walk(f2, 0, 0) {
                Some(c) => c,
                None => {
                    return Err(FenError::BadCastling);
                },
            }
        };
        // the en-passant target
        let f3 = &fields[3];
        let en_passant = if f3.len() == 1 && f3[0] == '-' {
            proof {
                assert(f3@ =~= seq!['-']);
            }
            None
        } else {
            proof {
                if f3@ == seq!['-'] {
                    assert(f3@.len() == 1 && f3@[0] == '-');
                }
            }
            if f3.len() != 2 {
                return Err(FenError::BadEnPassant);
            }
            let lf = Line::new(f3[0]);
            let lr = Line::new(f3[1]);
            match (lf, lr) {
                (Ok(fl), Ok(rl)) => {
                    if fl.is_file() && rl.is_rank() {
                        Some(Square { file: fl.index_exec(), rank: rl.index_exec() })
                    } else {
                        return Err(FenError::BadEnPassant);
                    }
                },
                _ => {
                    return Err(FenError::BadEnPassant);
                },
            }
        };
        // the clocks
        let half_move_clock = match parse_u8_chars(&fields[4]) {
            Some(n) => n,
            None => {
                return Err(FenError::BadClock);
            },
        };
        let full_move_number = match parse_u16_chars(&fields[5]) {
            Some(n) => n,
            None => {
                return Err(FenError::BadClock);
            },
        };
        let b = ChessBoard::assemble(
            squares,
            white,
            castling,
            en_passant,
            half_move_clock,
            full_move_number,
        );
        Ok(b)
    }
}

} // verus!
