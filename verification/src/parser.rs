//! The notation parser: text into a partially specified [Turn].
use vstd::prelude::*;

use crate::board::{Line, Source, Square};
use crate::pieces::PieceType;
use crate::text::str_to_chars;
use crate::turn::flags::{CAPTURE, CHECK, CHECKMATE};
use crate::turn::{CastlingType, Move, Turn};

verus! {

/// Error type for parsing into a [Turn]
#[derive(Debug)]
pub struct ChessParseError {
    /// Character that the error occured at
    pub character: char,
    /// Kind of error
    pub kind: ParseErrorKind,
}

/// Kind of parse error
#[derive(Debug)]
pub enum ParseErrorKind {
    /// Invalid characters in the input string
    InvalidChars,
    /// More than one uppercase piece character
    ExcessPieces,
    /// More than 4 square characters
    ExcessSquares,
    /// Not enough square characters
    NeedSquare,
    /// Invalid promotion
    PromotionError(PromotionError),
    /// Fail to convert a square or line
    ConversionError(ConversionError),
    /// Failed to parse a serialized board state
    InvalidFen,
}

/// Types of promotion errors
#[derive(Clone, Copy, Debug, PartialEq, Eq, Structural)]
pub enum PromotionError {
    /// A pawn has reached the final rank and must promote, but wasn't specified
    Must,
    /// A pawn was specified to promote, but hasn't reached the final rank
    Cant,
    /// A pawn was specified to promote to an invalid piece
    Invalid(PieceType),
}

/// Error returned when trying to convert a string into a type
#[derive(Debug)]
pub struct ConversionError {
    /// Input string for conversion
    pub input: String,
    /// Output target, represents the name of the type
    pub target: String,
}

/// The kind of a parse error, with its text payloads as character
/// sequences.
pub ghost enum ParseKindView {
    /// Invalid characters in the input string
    InvalidChars,
    /// More than one uppercase piece character
    ExcessPieces,
    /// More than 4 square characters
    ExcessSquares,
    /// Not enough square characters
    NeedSquare,
    /// Invalid promotion
    Promotion(PromotionError),
    /// Fail to convert, with the input and the name of the target type
    Conversion(Seq<char>, Seq<char>),
    /// Failed to parse a serialized board state
    InvalidFen,
}

/// A parse error: the character it occurred at and its kind.
pub ghost struct ParseErrView {
    /// Character that the error occured at
    pub character: char,
    /// Kind of error
    pub kind: ParseKindView,
}

impl View for ParseErrorKind {
    type V = ParseKindView;

    open spec fn view(&self) -> ParseKindView {
        match self {
            ParseErrorKind::InvalidChars => ParseKindView::InvalidChars,
            ParseErrorKind::ExcessPieces => ParseKindView::ExcessPieces,
            ParseErrorKind::ExcessSquares => ParseKindView::ExcessSquares,
            ParseErrorKind::NeedSquare => ParseKindView::NeedSquare,
            ParseErrorKind::PromotionError(p) => ParseKindView::Promotion(*p),
            ParseErrorKind::ConversionError(c) => ParseKindView::Conversion(c.input@, c.target@),
            ParseErrorKind::InvalidFen => ParseKindView::InvalidFen,
        }
    }
}

impl View for ChessParseError {
    type V = ParseErrView;

    open spec fn view(&self) -> ParseErrView {
        ParseErrView { character: self.character, kind: self.kind@ }
    }
}

/// The characters that may appear in move notation.
pub open spec fn allowed_char(c: char) -> bool {
    ||| c == 'a' || c == 'b' || c == 'c' || c == 'd' || c == 'e' || c == 'f' || c == 'g' || c
        == 'h'
    ||| c == '1' || c == '2' || c == '3' || c == '4' || c == '5' || c == '6' || c == '7' || c
        == '8'
    ||| c == '+' || c == '#' || c == 'x' || c == '=' || c == '-' || c == 'O' || c == '0'
    ||| c == 'K' || c == 'Q' || c == 'R' || c == 'B' || c == 'N'
}

/// The first character not allowed in move notation, looking from position
/// `i` on.
pub open spec fn first_bad_from(s: Seq<char>, i: int) -> Option<char>
    decreases s.len() - i,
{
    if i < 0 || i >= s.len() {
        None
    } else if !allowed_char(s[i]) {
        Some(s[i])
    } else {
        first_bad_from(s, i + 1)
    }
}

/// The pattern appears as a contiguous substring.
pub open spec fn has_substring(s: Seq<char>, pat: Seq<char>) -> bool {
    exists|i: int| 0 <= i <= s.len() - pat.len() && #[trigger] s.subrange(i, i + pat.len()) == pat
}

/// The uppercase characters of the notation alphabet: the piece letters
/// and the castling `O`.
pub open spec fn upper_char(c: char) -> bool {
    c == 'K' || c == 'Q' || c == 'R' || c == 'B' || c == 'N' || c == 'O'
}

/// The characters that can name a square: a file letter or a rank digit.
pub open spec fn square_char(c: char) -> bool {
    ||| c == 'a' || c == 'b' || c == 'c' || c == 'd' || c == 'e' || c == 'f' || c == 'g' || c
        == 'h'
    ||| c == '1' || c == '2' || c == '3' || c == '4' || c == '5' || c == '6' || c == '7' || c
        == '8'
}

/// The characters among the first `i` satisfying the uppercase test, in
/// order.
pub open spec fn uppers_upto(s: Seq<char>, i: int) -> Seq<char>
    decreases i,
{
    if i <= 0 {
        Seq::empty()
    } else {
        let prev = uppers_upto(s, i - 1);
        if upper_char(s[i - 1]) {
            prev.push(s[i - 1])
        } else {
            prev
        }
    }
}

/// The characters among the first `i` that can name a square, in order.
pub open spec fn squares_upto(s: Seq<char>, i: int) -> Seq<char>
    decreases i,
{
    if i <= 0 {
        Seq::empty()
    } else {
        let prev = squares_upto(s, i - 1);
        if square_char(s[i - 1]) {
            prev.push(s[i - 1])
        } else {
            prev
        }
    }
}

/// The flags the notation carries: `x` marks a capture, and a `#` beats a
/// `+`.
pub open spec fn flags_of(s: Seq<char>) -> u8 {
    let capture: u8 = if s.contains('x') {
        CAPTURE
    } else {
        0
    };
    let check: u8 = if s.contains('#') {
        CHECKMATE
    } else if s.contains('+') {
        CHECK
    } else {
        0
    };
    capture | check
}

/// The name of the file type, for conversion errors.
pub open spec fn target_file() -> Seq<char> {
    seq!['F', 'i', 'l', 'e']
}

/// The name of the rank type, for conversion errors.
pub open spec fn target_rank() -> Seq<char> {
    seq!['R', 'a', 'n', 'k']
}

/// The name of the piece type, for conversion errors.
pub open spec fn target_piece() -> Seq<char> {
    seq!['P', 'i', 'e', 'c', 'e']
}

/// A two-character square name parsed: the file letter and the rank digit.
pub open spec fn square_of_chars(a: char, b: char) -> Result<Square, ParseKindView> {
    match Line::spec_new(a) {
        Some(fl) => if fl.spec_is_file() {
            match Line::spec_new(b) {
                Some(rl) => if rl.spec_is_rank() {
                    Ok(Square { file: fl.index() as u8, rank: rl.index() as u8 })
                } else {
                    Err(ParseKindView::Conversion(seq![a, b], target_rank()))
                },
                None => Err(ParseKindView::Conversion(seq![a, b], target_rank())),
            }
        } else {
            Err(ParseKindView::Conversion(seq![a, b], target_file()))
        },
        None => Err(ParseKindView::Conversion(seq![a, b], target_file())),
    }
}

/// The piece letter parsed, or the single letter that is no piece.
pub open spec fn piece_of_letter(c: char) -> Result<PieceType, ParseErrView> {
    match PieceType::spec_from_letter(c) {
        Some(p) => Ok(p),
        None => Err(
            ParseErrView {
                character: c,
                kind: ParseKindView::Conversion(seq![c], target_piece()),
            },
        ),
    }
}

/// The destination and source the square characters of the notation name:
/// the last two name the destination, and zero, one, or two leading
/// characters name the source.
pub open spec fn squares_of_notation(sq: Seq<char>) -> Result<
    (Square, Option<Source>),
    ParseErrView,
> {
    if sq.len() <= 1 {
        Err(ParseErrView { character: ' ', kind: ParseKindView::NeedSquare })
    } else if sq.len() == 2 {
        match square_of_chars(sq[0], sq[1]) {
            Ok(dst) => Ok((dst, None)),
            Err(k) => Err(ParseErrView { character: sq[0], kind: k }),
        }
    } else if sq.len() == 3 {
        match square_of_chars(sq[1], sq[2]) {
            Ok(dst) => Ok((dst, Some(Source::Line(Line::spec_new(sq[0])->Some_0)))),
            Err(k) => Err(ParseErrView { character: sq[1], kind: k }),
        }
    } else if sq.len() == 4 {
        match square_of_chars(sq[2], sq[3]) {
            Ok(dst) => match square_of_chars(sq[0], sq[1]) {
                Ok(src) => Ok((dst, Some(Source::Square(src)))),
                Err(k) => Err(ParseErrView { character: sq[0], kind: k }),
            },
            Err(k) => Err(ParseErrView { character: sq[2], kind: k }),
        }
    } else {
        Err(ParseErrView { character: sq[4], kind: ParseKindView::ExcessSquares })
    }
}

/// A move checked for its promotion rules: a promotion must be to neither
/// king nor pawn and must land on a final rank, and a pawn reaching a
/// final rank must promote.
pub open spec fn verify_move_spec(m: Move) -> Result<Turn, PromotionError> {
    match m.promotion {
        Some(p) => if p == PieceType::King || p == PieceType::Pawn {
            Err(PromotionError::Invalid(p))
        } else if m.dst.rank_i() == 0 || m.dst.rank_i() == 7 {
            Ok(Turn::Move(m))
        } else {
            Err(PromotionError::Cant)
        },
        None => if m.piece == PieceType::Pawn && (m.dst.rank_i() == 0 || m.dst.rank_i() == 7) {
            Err(PromotionError::Must)
        } else {
            Ok(Turn::Move(m))
        },
    }
}

/// Move notation parsed: the character set checked first, then the
/// castling tokens, then the piece letter, the square characters, the
/// flags, and the promotion rules.
pub open spec fn parse_move_spec(s: Seq<char>) -> Result<Turn, ParseErrView> {
    if first_bad_from(s, 0) is Some {
        Err(
            ParseErrView {
                character: first_bad_from(s, 0)->Some_0,
                kind: ParseKindView::InvalidChars,
            },
        )
    } else if has_substring(s, seq!['0', '-', '0', '-', '0']) || has_substring(
        s,
        seq!['O', '-', 'O', '-', 'O'],
    ) {
        Ok(Turn::Castling(CastlingType::Long, flags_of(s)))
    } else if has_substring(s, seq!['0', '-', '0']) || has_substring(s, seq!['O', '-', 'O']) {
        Ok(Turn::Castling(CastlingType::Short, flags_of(s)))
    } else {
        let uppers = uppers_upto(s, s.len() as int);
        if uppers.len() > 1 {
            Err(ParseErrView { character: uppers[1], kind: ParseKindView::ExcessPieces })
        } else {
            let letter = if uppers.len() == 1 {
                uppers[0]
            } else {
                'P'
            };
            match piece_of_letter(letter) {
                Err(e) => Err(e),
                Ok(piece0) => match squares_of_notation(squares_upto(s, s.len() as int)) {
                    Err(e) => Err(e),
                    Ok((dst, src)) => {
                        let flags = flags_of(s);
                        let (piece, promotion) = if s.contains('=') {
                            (PieceType::Pawn, Some(piece0))
                        } else {
                            (piece0, None::<PieceType>)
                        };
                        match verify_move_spec(Move { piece, dst, flags, src, promotion }) {
                            Ok(t) => Ok(t),
                            Err(pe) => Err(
                                ParseErrView {
                                    character: '=',
                                    kind: ParseKindView::Promotion(pe),
                                },
                            ),
                        }
                    },
                },
            }
        }
    }
}

/// Returns whether the character may appear in move notation.
fn allowed_char_exec(c: char) -> (r: bool)
    ensures
        r == allowed_char(c),
{
    match c {
        'a' | 'b' | 'c' | 'd' | 'e' | 'f' | 'g' | 'h' => true,
        '1' | '2' | '3' | '4' | '5' | '6' | '7' | '8' => true,
        '+' | '#' | 'x' | '=' | '-' | 'O' | '0' => true,
        'K' | 'Q' | 'R' | 'B' | 'N' => true,
        _ => false,
    }
}

/// Returns whether the list holds the pattern as a contiguous run.
fn has_substring_exec(v: &Vec<char>, pat: &Vec<char>) -> (r: bool)
    ensures
        r == has_substring(v@, pat@),
{
    if pat.len() > v.len() {
        proof {
            if has_substring(v@, pat@) {
                let i = choose|i: int|
                    0 <= i <= v@.len() - pat@.len() && #[trigger] v@.subrange(i, i + pat@.len())
                        == pat@;
            }
        }
        return false;
    }
    let mut i: usize = 0;
    while i <= v.len() - pat.len()
        invariant
            pat@.len() <= v@.len(),
            i <= v@.len() - pat@.len() + 1,
            forall|k: int| 0 <= k < i ==> #[trigger] v@.subrange(k, k + pat@.len()) != pat@,
        decreases v@.len() + 1 - pat@.len() - i,
    {
        let mut j: usize = 0;
        let mut same = true;
        while j < pat.len()
            invariant
                pat@.len() <= v@.len(),
                v@.len() <= usize::MAX,
                i + pat@.len() <= v@.len(),
                j <= pat@.len(),
                same == (v@.subrange(i as int, i + j as int) =~= pat@.take(j as int)),
            decreases pat@.len() - j,
        {
            proof {
                assert(i + j < v@.len());
            }
            let idx: usize = i + j;
            let matches_here = v[idx] == pat[j];
            proof {
                assert(v@.subrange(i as int, i + j + 1).drop_last() =~= v@.subrange(
                    i as int,
                    i + j as int,
                ));
                assert(pat@.take(j + 1).drop_last() =~= pat@.take(j as int));
                assert(v@.subrange(i as int, i + j + 1).last() == v@[i + j]);
                assert(pat@.take(j + 1).last() == pat@[j as int]);
            }
            same = same && matches_here;
            j += 1;
        }
        proof {
            assert(pat@.take(pat@.len() as int) =~= pat@);
        }
        if same {
            proof {
                assert(v@.subrange(i as int, i + pat@.len()) == pat@);
            }
            return true;
        }
        i += 1;
    }
    proof {
        if has_substring(v@, pat@) {
            let k = choose|k: int|
                0 <= k <= v@.len() - pat@.len() && #[trigger] v@.subrange(k, k + pat@.len())
                    == pat@;
        }
    }
    false
}

/// Returns whether the list holds the character.
fn contains_char(v: &Vec<char>, c: char) -> (r: bool)
    ensures
        r == v@.contains(c),
{
    let mut i: usize = 0;
    while i < v.len()
        invariant
            i <= v@.len(),
            forall|j: int| 0 <= j < i ==> v@[j] != c,
        decreases v@.len() - i,
    {
        if v[i] == c {
            assert(v@[i as int] == c);
            return true;
        }
        i += 1;
    }
    false
}

/// Parses a two-character square name.
fn square_from_chars(a: char, b: char) -> (r: Result<Square, ParseErrorKind>)
    ensures
        match r {
            Ok(sq) => square_of_chars(a, b) == Ok::<Square, ParseKindView>(sq) && sq.wf(),
            Err(k) => square_of_chars(a, b) matches Err(kv) && k@ == kv,
        },
{
    let fl = match Line::new(a) {
        Ok(l) => l,
        Err(_) => {
            return Err(
                ParseErrorKind::ConversionError(
                    ConversionError {
                        input: chars_pair_string(a, b),
                        target: make_string_file(),
                    },
                ),
            );
        },
    };
    if !fl.is_file() {
        return Err(
            ParseErrorKind::ConversionError(
                ConversionError { input: chars_pair_string(a, b), target: make_string_file() },
            ),
        );
    }
    let rl = match Line::new(b) {
        Ok(l) => l,
        Err(_) => {
            return Err(
                ParseErrorKind::ConversionError(
                    ConversionError {
                        input: chars_pair_string(a, b),
                        target: make_string_rank(),
                    },
                ),
            );
        },
    };
    if !rl.is_rank() {
        return Err(
            ParseErrorKind::ConversionError(
                ConversionError { input: chars_pair_string(a, b), target: make_string_rank() },
            ),
        );
    }
    Ok(Square { file: fl.index_exec(), rank: rl.index_exec() })
}

/// Returns the two characters as a string.
fn chars_pair_string(a: char, b: char) -> (r: String)
    ensures
        r@ == seq![a, b],
{
    let mut v: Vec<char> = Vec::new();
    v.push(a);
    v.push(b);
    proof {
        assert(v@ =~= seq![a, b]);
    }
    crate::text::chars_to_string(v)
}

/// Returns the name of the file type.
fn make_string_file() -> (r: String)
    ensures
        r@ == target_file(),
{
    proof {
        reveal_strlit("File");
    }
    let r = String::from_str("File");
    proof {
        assert(r@ =~= target_file());
    }
    r
}

/// Returns the name of the rank type.
fn make_string_rank() -> (r: String)
    ensures
        r@ == target_rank(),
{
    proof {
        reveal_strlit("Rank");
    }
    let r = String::from_str("Rank");
    proof {
        assert(r@ =~= target_rank());
    }
    r
}

/// Returns the name of the piece type.
fn make_string_piece() -> (r: String)
    ensures
        r@ == target_piece(),
{
    proof {
        reveal_strlit("Piece");
    }
    let r = String::from_str("Piece");
    proof {
        assert(r@ =~= target_piece());
    }
    r
}

/// Parses a move from an algebraic chess notation string, as
/// [parse_move_spec] describes.
///
/// # Errors
///
/// Returns an error if the input string is not valid algebraic notation.
pub fn parse_move(input: &str) -> (r: Result<Turn, ChessParseError>)
    ensures
        match r {
            Ok(t) => parse_move_spec(input@) == Ok::<Turn, ParseErrView>(t) && t.wf(),
            Err(e) => parse_move_spec(input@) matches Err(ev) && e@ == ev,
        },
{
    let v = str_to_chars(input);
    // the character set
    let mut i: usize = 0;
    while i < v.len()
        invariant
            v@ == input@,
            i <= v@.len(),
            first_bad_from(v@, 0) == first_bad_from(v@, i as int),
        decreases v@.len() - i,
    {
        if !allowed_char_exec(v[i]) {
            return Err(
                ChessParseError { character: v[i], kind: ParseErrorKind::InvalidChars },
            );
        }
        i += 1;
    }
    // the castling tokens
    let long_zero = vec!['0', '-', '0', '-', '0'];
    let long_oh = vec!['O', '-', 'O', '-', 'O'];
    let short_zero = vec!['0', '-', '0'];
    let short_oh = vec!['O', '-', 'O'];
    proof {
        assert(long_zero@ =~= seq!['0', '-', '0', '-', '0']);
        assert(long_oh@ =~= seq!['O', '-', 'O', '-', 'O']);
        assert(short_zero@ =~= seq!['0', '-', '0']);
        assert(short_oh@ =~= seq!['O', '-', 'O']);
    }
    let fl = get_flags(&v);
    if has_substring_exec(&v, &long_zero) || has_substring_exec(&v, &long_oh) {
        return Ok(Turn::Castling(CastlingType::Long, fl));
    }
    if has_substring_exec(&v, &short_zero) || has_substring_exec(&v, &short_oh) {
        return Ok(Turn::Castling(CastlingType::Short, fl));
    }
    // the piece letter
    let mut uppers: Vec<char> = Vec::new();
    let mut i: usize = 0;
    while i < v.len()
        invariant
            i <= v@.len(),
            uppers@ == uppers_upto(v@, i as int),
        decreases v@.len() - i,
    {
        let c = v[i];
        if c == 'K' || c == 'Q' || c == 'R' || c == 'B' || c == 'N' || c == 'O' {
            uppers.push(c);
        }
        i += 1;
    }
    if uppers.len() > 1 {
        return Err(
            ChessParseError { character: uppers[1], kind: ParseErrorKind::ExcessPieces },
        );
    }
    let letter = if uppers.len() == 1 {
        uppers[0]
    } else {
        'P'
    };
    let piece0 = match PieceType::from_letter(letter) {
        Some(p) => p,
        None => {
            return Err(
                ChessParseError {
                    character: letter,
                    kind: ParseErrorKind::ConversionError(
                        ConversionError {
                            input: single_char_string(letter),
                            target: make_string_piece(),
                        },
                    ),
                },
            );
        },
    };
    // the squares
    let mut sq: Vec<char> = Vec::new();
    let mut i: usize = 0;
    while i < v.len()
        invariant
            i <= v@.len(),
            sq@ == squares_upto(v@, i as int),
            forall|j: int| 0 <= j < sq@.len() ==> square_char(#[trigger] sq@[j]),
        decreases v@.len() - i,
    {
        let c = v[i];
        let is_square = match c {
            'a' | 'b' | 'c' | 'd' | 'e' | 'f' | 'g' | 'h' => true,
            '1' | '2' | '3' | '4' | '5' | '6' | '7' | '8' => true,
            _ => false,
        };
        if is_square {
            sq.push(c);
        }
        i += 1;
    }
    let (dst, src) = if sq.len() <= 1 {
        return Err(ChessParseError { character: ' ', kind: ParseErrorKind::NeedSquare });
    } else if sq.len() == 2 {
        match square_from_chars(sq[0], sq[1]) {
            Ok(dst) => (dst, None),
            Err(k) => {
                return Err(ChessParseError { character: sq[0], kind: k });
            },
        }
    } else if sq.len() == 3 {
        let dst = match square_from_chars(sq[1], sq[2]) {
            Ok(dst) => dst,
            Err(k) => {
                return Err(ChessParseError { character: sq[1], kind: k });
            },
        };
        let line = match Line::new(sq[0]) {
            Ok(l) => l,
            Err(_) => {
                proof {
                    assert(square_char(sq@[0]));
                    assert(false);
                }
                return Err(ChessParseError { character: sq[0], kind: ParseErrorKind::NeedSquare });
            },
        };
        (dst, Some(Source::Line(line)))
    } else if sq.len() == 4 {
        let dst = match square_from_chars(sq[2], sq[3]) {
            Ok(dst) => dst,
            Err(k) => {
                return Err(ChessParseError { character: sq[2], kind: k });
            },
        };
        match square_from_chars(sq[0], sq[1]) {
            Ok(src) => (dst, Some(Source::Square(src))),
            Err(k) => {
                return Err(ChessParseError { character: sq[0], kind: k });
            },
        }
    } else {
        return Err(ChessParseError { character: sq[4], kind: ParseErrorKind::ExcessSquares });
    };
    // the promotion
    let (piece, promotion) = if contains_char(&v, '=') {
        (PieceType::Pawn, Some(piece0))
    } else {
        (piece0, None)
    };
    let m = Move { piece, dst, flags: fl, src, promotion };
    match verify_move(m) {
        Ok(t) => Ok(t),
        Err(pe) => Err(
            ChessParseError { character: '=', kind: ParseErrorKind::PromotionError(pe) },
        ),
    }
}

/// Returns the character as a string.
fn single_char_string(c: char) -> (r: String)
    ensures
        r@ == seq![c],
{
    let mut v: Vec<char> = Vec::new();
    v.push(c);
    proof {
        assert(v@ =~= seq![c]);
    }
    crate::text::chars_to_string(v)
}

/// Checks the promotion rules of a parsed move, as [verify_move_spec]
/// describes.
fn verify_move(m: Move) -> (r: Result<Turn, PromotionError>)
    requires
        m.wf(),
    ensures
        r == verify_move_spec(m),
{
    match m.promotion {
        Some(p) => {
            if matches!(p, PieceType::King) || matches!(p, PieceType::Pawn) {
                Err(PromotionError::Invalid(p))
            } else if m.dst.rank == 0 || m.dst.rank == 7 {
                Ok(Turn::Move(m))
            } else {
                Err(PromotionError::Cant)
            }
        },
        None => {
            if matches!(m.piece, PieceType::Pawn) && (m.dst.rank == 0 || m.dst.rank == 7) {
                Err(PromotionError::Must)
            } else {
                Ok(Turn::Move(m))
            }
        },
    }
}

/// Reads the capture, check, and checkmate marks of the notation.
fn get_flags(v: &Vec<char>) -> (r: u8)
    ensures
        r == flags_of(v@),
{
    let capture: u8 = if contains_char(v, 'x') {
        CAPTURE
    } else {
        0
    };
    let check: u8 = if contains_char(v, '#') {
        CHECKMATE
    } else if contains_char(v, '+') {
        CHECK
    } else {
        0
    };
    capture | check
}

} // verus!
