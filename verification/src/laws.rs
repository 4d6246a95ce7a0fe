//! The laws the engine is held to: round trips between boards, moves, and
//! their textual forms.
use vstd::prelude::*;

use crate::board::model::{complete_turn_spec, minimum_move_spec, resolve_move_spec, BoardView};
use crate::board::{CastlingRights, Line, Source, Square, TurnError};
use crate::pieces::PieceType;
use crate::board::fen::{
    castling_field, cast_from, ep_field, fen_of, parse_board_field, parse_castling_field,
    parse_ep_field, parse_fen_spec, piece_of_char, position_key, rank_cells, rank_rle, rank_row,
    ranks_down_from, rle_from, rows_from, square_name, FenError,
};
use crate::parser::{
    allowed_char, first_bad_from, flags_of, has_substring, parse_move_spec, square_char,
    square_of_chars, squares_of_notation, squares_upto, upper_char, uppers_upto, verify_move_spec,
    ParseErrView, ParseKindView,
};
use crate::pieces::Piece;
use crate::text::{
    char_digit, dec_digits, dec_value, digit_char, lemma_token_len, split_drop, split_keep,
    token_len,
};
use crate::parser::PromotionError;
use crate::turn::{flag_suffix, notation_spec, src_chars, CastlingType, Move, Turn};

verus! {

/// A run of characters free of the separator, followed by the separator,
/// is exactly the leading token.
proof fn lemma_token_prefix(a: Seq<char>, rest: Seq<char>, sep: char)
    requires
        forall|i: int| 0 <= i < a.len() ==> a[i] != sep,
    ensures
        token_len(a + seq![sep] + rest, sep) == a.len(),
{
    let s = a + seq![sep] + rest;
    lemma_token_len(s, sep);
    let n = token_len(s, sep) as int;
    if n < a.len() {
        assert(s[n] == a[n]);
        assert(false);
    }
    if n > a.len() {
        assert(s[a.len() as int] == sep);
        assert(false);
    }
}

/// A sequence free of the separator is one whole token.
proof fn lemma_token_whole(a: Seq<char>, sep: char)
    requires
        forall|i: int| 0 <= i < a.len() ==> a[i] != sep,
    ensures
        token_len(a, sep) == a.len(),
{
    lemma_token_len(a, sep);
    let n = token_len(a, sep) as int;
    if n < a.len() {
        assert(a[n] == sep);
        assert(false);
    }
}

/// Splitting at a separator peels off a nonempty separator-free field.
proof fn lemma_split_drop_field(a: Seq<char>, rest: Seq<char>, sep: char)
    requires
        a.len() > 0,
        forall|i: int| 0 <= i < a.len() ==> a[i] != sep,
    ensures
        split_drop(a + seq![sep] + rest, sep) == seq![a] + split_drop(rest, sep),
{
    let s = a + seq![sep] + rest;
    lemma_token_prefix(a, rest, sep);
    let n = a.len() as int;
    assert(s[0] == a[0]);
    assert(s.take(n) =~= a);
    assert(s.skip(n) =~= seq![sep] + rest);
    assert(s.skip(n)[0] == sep);
    assert(s.skip(n).skip(1) =~= rest);
    assert(split_drop(s, sep) == seq![s.take(n)] + split_drop(s.skip(n), sep));
    assert(split_drop(s.skip(n), sep) == split_drop(s.skip(n).skip(1), sep));
    assert(seq![s.take(n)] =~= seq![a]);
}

/// A final separator-free field splits to itself alone.
proof fn lemma_split_drop_whole(a: Seq<char>, sep: char)
    requires
        a.len() > 0,
        forall|i: int| 0 <= i < a.len() ==> a[i] != sep,
    ensures
        split_drop(a, sep) == seq![a],
{
    lemma_token_whole(a, sep);
    let n = a.len() as int;
    assert(a.take(n) =~= a);
    assert(a.skip(n) =~= Seq::<char>::empty());
    assert(split_drop(a, sep) =~= seq![a.take(n)] + split_drop(a.skip(n), sep));
    assert(seq![a.take(n)] + split_drop(a.skip(n), sep) =~= seq![a]);
}

/// Splitting with empty fields kept peels off a separator-free field.
proof fn lemma_split_keep_field(a: Seq<char>, rest: Seq<char>, sep: char)
    requires
        forall|i: int| 0 <= i < a.len() ==> a[i] != sep,
    ensures
        split_keep(a + seq![sep] + rest, sep) == seq![a] + split_keep(rest, sep),
{
    let s = a + seq![sep] + rest;
    lemma_token_prefix(a, rest, sep);
    let n = a.len() as int;
    assert(s.take(n) =~= a);
    assert(s.skip(n + 1) =~= rest);
}

/// A final separator-free field splits to itself alone.
proof fn lemma_split_keep_whole(a: Seq<char>, sep: char)
    requires
        forall|i: int| 0 <= i < a.len() ==> a[i] != sep,
    ensures
        split_keep(a, sep) == seq![a],
{
    lemma_token_whole(a, sep);
}

/// Reading the digits of a number back gives the number, and every
/// character written is a digit.
proof fn lemma_dec_round(n: int)
    requires
        n >= 0,
    ensures
        dec_value(dec_digits(n)) == n,
        dec_digits(n).len() > 0,
        forall|i: int| 0 <= i < dec_digits(n).len() ==> char_digit(#[trigger] dec_digits(n)[i]) >= 0,
    decreases n,
{
    if n < 10 {
        let d = dec_digits(n);
        assert(d == seq![digit_char(n)]);
        assert(d.drop_last() =~= Seq::<char>::empty());
        assert(d.last() == digit_char(n));
        assert(dec_value(Seq::<char>::empty()) == 0);
        assert(char_digit(digit_char(n)) == n);
        assert(dec_value(d) == dec_value(d.drop_last()) * 10 + char_digit(d.last()));
    } else {
        lemma_dec_round(n / 10);
        let d = dec_digits(n);
        assert(d.drop_last() =~= dec_digits(n / 10));
        assert(d.last() == digit_char(n % 10));
        assert(char_digit(digit_char(n % 10)) == n % 10);
        assert(dec_value(d) == dec_value(d.drop_last()) * 10 + char_digit(d.last()));
        assert(dec_value(d) == (n / 10) * 10 + n % 10);
        assert forall|i: int| 0 <= i < d.len() implies char_digit(#[trigger] d[i]) >= 0 by {
            if i < d.len() - 1 {
                assert(d[i] == dec_digits(n / 10)[i]);
            }
        }
    }
}

/// The characters a board rank encodes with: a nonzero digit or a piece
/// letter.
pub open spec fn board_char(c: char) -> bool {
    char_digit(c) >= 1 || piece_of_char(c) is Some
}

/// The cells of one rank from the given file on.
pub open spec fn cells_of(bv: BoardView, r: int, f: int) -> Seq<Option<Piece>> {
    Seq::new((8 - f) as nat, |i: int| bv.at(Square { file: (f + i) as u8, rank: r as u8 }))
}

/// A piece letter names the piece back.
proof fn lemma_piece_letter_round(pc: Piece)
    ensures
        piece_of_char(pc.spec_letter()) == Some(pc),
        char_digit(pc.spec_letter()) == -1,
{
}

/// Decoding a rank's run-length encoding from the given file, with the
/// given count of empty squares pending, yields those pending empties and
/// the cells from that file on; and every character written is a board
/// character.
proof fn lemma_rle_cells(bv: BoardView, r: int, f: int, pending: int)
    requires
        bv.wf(),
        0 <= r < 8,
        0 <= f <= 8,
        0 <= pending <= f,
    ensures
        rank_cells(rle_from(bv, r, f, pending)) == Some(
            Seq::new(pending as nat, |i: int| None::<Piece>) + cells_of(bv, r, f),
        ),
        forall|i: int|
            0 <= i < rle_from(bv, r, f, pending).len() ==> board_char(
                #[trigger] rle_from(bv, r, f, pending)[i],
            ),
    decreases 8 - f,
{
    let t = rle_from(bv, r, f, pending);
    let rep = Seq::new(pending as nat, |i: int| None::<Piece>);
    if f >= 8 {
        assert(cells_of(bv, r, f) =~= Seq::<Option<Piece>>::empty());
        if pending > 0 {
            assert(t == seq![digit_char(pending)]);
            assert(char_digit(digit_char(pending)) == pending);
            assert(t.skip(1) =~= Seq::<char>::empty());
            assert(rank_cells(t.skip(1)) == Some(Seq::<Option<Piece>>::empty()));
            assert(rank_cells(t) == Some(
                Seq::new(pending as nat, |i: int| None::<Piece>) + rank_cells(t.skip(1))->Some_0,
            ));
            assert(rep + cells_of(bv, r, f) =~= Seq::new(pending as nat, |i: int| None::<Piece>)
                + Seq::<Option<Piece>>::empty());
        } else {
            assert(t == Seq::<char>::empty());
            assert(rank_cells(t) == Some(Seq::<Option<Piece>>::empty()));
            assert(rep + cells_of(bv, r, f) =~= Seq::<Option<Piece>>::empty());
        }
    } else {
        let sq = Square { file: f as u8, rank: r as u8 };
        match bv.at(sq) {
            Some(pc) => {
                lemma_rle_cells(bv, r, f + 1, 0);
                lemma_piece_letter_round(pc);
                let rest = rle_from(bv, r, f + 1, 0);
                assert(rank_cells(rest) == Some(
                    Seq::new(0nat, |i: int| None::<Piece>) + cells_of(bv, r, f + 1),
                ));
                assert(Seq::new(0nat, |i: int| None::<Piece>) + cells_of(bv, r, f + 1)
                    =~= cells_of(bv, r, f + 1));
                let with_letter = seq![pc.spec_letter()] + rest;
                assert(with_letter[0] == pc.spec_letter());
                assert(with_letter.skip(1) =~= rest);
                assert(rank_cells(with_letter) == Some(
                    seq![Some(pc)] + cells_of(bv, r, f + 1),
                ));
                if pending > 0 {
                    assert(t == seq![digit_char(pending)] + seq![pc.spec_letter()] + rest);
                    assert(t[0] == digit_char(pending));
                    assert(char_digit(digit_char(pending)) == pending);
                    assert(t.skip(1) =~= with_letter);
                    assert(rank_cells(t) == Some(
                        Seq::new(pending as nat, |i: int| None::<Piece>) + (seq![Some(pc)]
                            + cells_of(bv, r, f + 1)),
                    ));
                } else {
                    assert(t =~= with_letter);
                }
                assert(rep + cells_of(bv, r, f) =~= rep + (seq![Some(pc)] + cells_of(
                    bv,
                    r,
                    f + 1,
                )));
                assert forall|i: int| 0 <= i < t.len() implies board_char(#[trigger] t[i]) by {
                    if pending > 0 && i == 0 {
                        assert(t[i] == digit_char(pending));
                    } else if (pending > 0 && i == 1) || (pending == 0 && i == 0) {
                        assert(t[i] == pc.spec_letter());
                    } else {
                        let base: int = if pending > 0 {
                            2
                        } else {
                            1
                        };
                        assert(t[i] == rest[i - base]);
                    }
                }
            },
            None => {
                lemma_rle_cells(bv, r, f + 1, pending + 1);
                assert(t == rle_from(bv, r, f + 1, pending + 1));
                assert(rank_cells(t) == Some(
                    Seq::new((pending + 1) as nat, |i: int| None::<Piece>) + cells_of(
                        bv,
                        r,
                        f + 1,
                    ),
                ));
                assert(rep + cells_of(bv, r, f) =~= Seq::new(
                    (pending + 1) as nat,
                    |i: int| None::<Piece>,
                ) + cells_of(bv, r, f + 1));
            },
        }
    }
}

/// The serialized board field splits back into the eight rank encodings,
/// from the eighth rank down; and every character of the field is a board
/// character or a slash.
proof fn lemma_split_ranks(bv: BoardView, r: int)
    requires
        bv.wf(),
        0 <= r <= 7,
    ensures
        split_keep(ranks_down_from(bv, r), '/') == Seq::new(
            (r + 1) as nat,
            |i: int| rank_rle(bv, r - i),
        ),
    decreases r,
{
    lemma_rle_cells(bv, r, 0, 0);
    assert forall|i: int|
        0 <= i < rank_rle(bv, r).len() implies rank_rle(bv, r)[i] != '/' by {
        assert(board_char(rank_rle(bv, r)[i]));
    }
    if r == 0 {
        lemma_split_keep_whole(rank_rle(bv, 0), '/');
        assert(split_keep(ranks_down_from(bv, 0), '/') =~= Seq::new(
            1nat,
            |i: int| rank_rle(bv, 0 - i),
        ));
    } else {
        lemma_split_ranks(bv, r - 1);
        lemma_split_keep_field(rank_rle(bv, r), ranks_down_from(bv, r - 1), '/');
        assert(ranks_down_from(bv, r) == rank_rle(bv, r) + seq!['/'] + ranks_down_from(bv, r - 1));
        assert(split_keep(ranks_down_from(bv, r), '/') =~= Seq::new(
            (r + 1) as nat,
            |i: int| rank_rle(bv, r - i),
        ));
    }
}

/// The castling field parses back to the rights it was written from, and
/// never holds a blank.
#[verifier::rlimit(100)]
#[verifier::spinoff_prover]
proof fn lemma_castling_round(c: CastlingRights)
    ensures
        parse_castling_field(castling_field(c)) == Some(c),
        castling_field(c).len() > 0,
        forall|i: int| 0 <= i < castling_field(c).len() ==> castling_field(c)[i] != ' ',
{
    reveal_with_fuel(cast_from, 10);
    if c.white_kingside == true && c.white_queenside == true && c.black_kingside == true && c.black_queenside == true {
        assert(castling_field(c) =~= seq!['K', 'Q', 'k', 'q']);
        assert(seq!['K', 'Q', 'k', 'q'].skip(1) =~= seq!['Q', 'k', 'q']);
        assert(seq!['Q', 'k', 'q'].skip(1) =~= seq!['k', 'q']);
        assert(seq!['k', 'q'].skip(1) =~= seq!['q']);
        assert(seq!['q'].skip(1) =~= Seq::<char>::empty());
        assert(parse_castling_field(castling_field(c)) == Some(c));
    }
    if c.white_kingside == true && c.white_queenside == true && c.black_kingside == true && c.black_queenside == false {
        assert(castling_field(c) =~= seq!['K', 'Q', 'k']);
        assert(seq!['K', 'Q', 'k'].skip(1) =~= seq!['Q', 'k']);
        assert(seq!['Q', 'k'].skip(1) =~= seq!['k']);
        assert(seq!['k'].skip(1) =~= Seq::<char>::empty());
        assert(parse_castling_field(castling_field(c)) == Some(c));
    }
    if c.white_kingside == true && c.white_queenside == true && c.black_kingside == false && c.black_queenside == true {
        assert(castling_field(c) =~= seq!['K', 'Q', 'q']);
        assert(seq!['K', 'Q', 'q'].skip(1) =~= seq!['Q', 'q']);
        assert(seq!['Q', 'q'].skip(1) =~= seq!['q']);
        assert(seq!['q'].skip(1) =~= Seq::<char>::empty());
        assert(parse_castling_field(castling_field(c)) == Some(c));
    }
    if c.white_kingside == true && c.white_queenside == true && c.black_kingside == false && c.black_queenside == false {
        assert(castling_field(c) =~= seq!['K', 'Q']);
        assert(seq!['K', 'Q'].skip(1) =~= seq!['Q']);
        assert(seq!['Q'].skip(1) =~= Seq::<char>::empty());
        assert(parse_castling_field(castling_field(c)) == Some(c));
    }
    if c.white_kingside == true && c.white_queenside == false && c.black_kingside == true && c.black_queenside == true {
        assert(castling_field(c) =~= seq!['K', 'k', 'q']);
        assert(seq!['K', 'k', 'q'].skip(1) =~= seq!['k', 'q']);
        assert(seq!['k', 'q'].skip(1) =~= seq!['q']);
        assert(seq!['q'].skip(1) =~= Seq::<char>::empty());
        assert(parse_castling_field(castling_field(c)) == Some(c));
    }
    if c.white_kingside == true && c.white_queenside == false && c.black_kingside == true && c.black_queenside == false {
        assert(castling_field(c) =~= seq!['K', 'k']);
        assert(seq!['K', 'k'].skip(1) =~= seq!['k']);
        assert(seq!['k'].skip(1) =~= Seq::<char>::empty());
        assert(parse_castling_field(castling_field(c)) == Some(c));
    }
    if c.white_kingside == true && c.white_queenside == false && c.black_kingside == false && c.black_queenside == true {
        assert(castling_field(c) =~= seq!['K', 'q']);
        assert(seq!['K', 'q'].skip(1) =~= seq!['q']);
        assert(seq!['q'].skip(1) =~= Seq::<char>::empty());
        assert(parse_castling_field(castling_field(c)) == Some(c));
    }
    if c.white_kingside == true && c.white_queenside == false && c.black_kingside == false && c.black_queenside == false {
        assert(castling_field(c) =~= seq!['K']);
        assert(seq!['K'].skip(1) =~= Seq::<char>::empty());
        assert(parse_castling_field(castling_field(c)) == Some(c));
    }
    if c.white_kingside == false && c.white_queenside == true && c.black_kingside == true && c.black_queenside == true {
        assert(castling_field(c) =~= seq!['Q', 'k', 'q']);
        assert(seq!['Q', 'k', 'q'].skip(1) =~= seq!['k', 'q']);
        assert(seq!['k', 'q'].skip(1) =~= seq!['q']);
        assert(seq!['q'].skip(1) =~= Seq::<char>::empty());
        assert(parse_castling_field(castling_field(c)) == Some(c));
    }
    if c.white_kingside == false && c.white_queenside == true && c.black_kingside == true && c.black_queenside == false {
        assert(castling_field(c) =~= seq!['Q', 'k']);
        assert(seq!['Q', 'k'].skip(1) =~= seq!['k']);
        assert(seq!['k'].skip(1) =~= Seq::<char>::empty());
        assert(parse_castling_field(castling_field(c)) == Some(c));
    }
    if c.white_kingside == false && c.white_queenside == true && c.black_kingside == false && c.black_queenside == true {
        assert(castling_field(c) =~= seq!['Q', 'q']);
        assert(seq!['Q', 'q'].skip(1) =~= seq!['q']);
        assert(seq!['q'].skip(1) =~= Seq::<char>::empty());
        assert(parse_castling_field(castling_field(c)) == Some(c));
    }
    if c.white_kingside == false && c.white_queenside == true && c.black_kingside == false && c.black_queenside == false {
        assert(castling_field(c) =~= seq!['Q']);
        assert(seq!['Q'].skip(1) =~= Seq::<char>::empty());
        assert(parse_castling_field(castling_field(c)) == Some(c));
    }
    if c.white_kingside == false && c.white_queenside == false && c.black_kingside == true && c.black_queenside == true {
        assert(castling_field(c) =~= seq!['k', 'q']);
        assert(seq!['k', 'q'].skip(1) =~= seq!['q']);
        assert(seq!['q'].skip(1) =~= Seq::<char>::empty());
        assert(parse_castling_field(castling_field(c)) == Some(c));
    }
    if c.white_kingside == false && c.white_queenside == false && c.black_kingside == true && c.black_queenside == false {
        assert(castling_field(c) =~= seq!['k']);
        assert(seq!['k'].skip(1) =~= Seq::<char>::empty());
        assert(parse_castling_field(castling_field(c)) == Some(c));
    }
    if c.white_kingside == false && c.white_queenside == false && c.black_kingside == false && c.black_queenside == true {
        assert(castling_field(c) =~= seq!['q']);
        assert(seq!['q'].skip(1) =~= Seq::<char>::empty());
        assert(parse_castling_field(castling_field(c)) == Some(c));
    }
    if c.white_kingside == false && c.white_queenside == false && c.black_kingside == false && c.black_queenside == false {
        assert(castling_field(c) =~= seq!['-']);
        assert(parse_castling_field(castling_field(c)) == Some(c));
    }
}

/// Every character of the serialized board field is a board character or
/// a slash; in particular none is a blank. The field is never empty.
proof fn lemma_ranks_chars(bv: BoardView, r: int)
    requires
        bv.wf(),
        0 <= r <= 7,
    ensures
        ranks_down_from(bv, r).len() > 0,
        forall|i: int|
            0 <= i < ranks_down_from(bv, r).len() ==> (board_char(
                #[trigger] ranks_down_from(bv, r)[i],
            ) || ranks_down_from(bv, r)[i] == '/'),
    decreases r,
{
    lemma_rle_cells(bv, r, 0, 0);
    let rle = rank_rle(bv, r);
    if rle.len() == 0 {
        assert(rank_cells(rle) == Some(Seq::<Option<Piece>>::empty()));
        assert(rank_cells(rle)->Some_0.len() == 8);
        assert(false);
    }
    if r == 0 {
    } else {
        lemma_ranks_chars(bv, r - 1);
        let s = ranks_down_from(bv, r);
        assert forall|i: int|
            0 <= i < s.len() implies (board_char(#[trigger] s[i]) || s[i] == '/') by {
            if i < rle.len() {
                assert(s[i] == rle[i]);
            } else if i == rle.len() {
                assert(s[i] == '/');
            } else {
                assert(s[i] == ranks_down_from(bv, r - 1)[i - rle.len() - 1]);
            }
        }
    }
}

/// The rank encodings parse and concatenate back into the cells of the
/// board, rank by rank from the eighth down.
proof fn lemma_rows(bv: BoardView, ranks: Seq<Seq<char>>, i: int)
    requires
        bv.wf(),
        ranks == Seq::new(8nat, |k: int| rank_rle(bv, 7 - k)),
        0 <= i <= 8,
    ensures
        rows_from(ranks, i) is Ok,
        rows_from(ranks, i)->Ok_0.len() == 8 * (8 - i),
        forall|k: int, f: int|
            i <= k < 8 && 0 <= f < 8 ==> #[trigger] rows_from(ranks, i)->Ok_0[(k - i) * 8 + f]
                == bv.at(Square { file: f as u8, rank: (7 - k) as u8 }),
    decreases 8 - i,
{
    if i < 8 {
        lemma_rle_cells(bv, 7 - i, 0, 0);
        assert(ranks[i] == rank_rle(bv, 7 - i));
        let cells = rank_cells(ranks[i])->Some_0;
        assert(cells =~= cells_of(bv, 7 - i, 0));
        assert(cells.len() == 8);
        assert(rank_row(ranks[i]) == Ok::<Seq<Option<Piece>>, FenError>(cells));
        lemma_rows(bv, ranks, i + 1);
        let rest = rows_from(ranks, i + 1)->Ok_0;
        let rows = rows_from(ranks, i)->Ok_0;
        assert(rows == cells + rest);
        assert forall|k: int, f: int|
            i <= k < 8 && 0 <= f < 8 implies #[trigger] rows[(k - i) * 8 + f] == bv.at(
            Square { file: f as u8, rank: (7 - k) as u8 },
        ) by {
            if k == i {
                assert(rows[(k - i) * 8 + f] == cells[f]);
                assert(cells_of(bv, 7 - i, 0)[f] == bv.at(
                    Square { file: f as u8, rank: (7 - i) as u8 },
                ));
            } else {
                assert((k - i) * 8 + f - 8 == (k - (i + 1)) * 8 + f) by (nonlinear_arith);
                assert(rows[(k - i) * 8 + f] == rest[(k - (i + 1)) * 8 + f]) by {
                    assert((k - (i + 1)) * 8 + f < 8 * (8 - (i + 1)) && (k - (i + 1)) * 8 + f
                        >= 0) by (nonlinear_arith)
                        requires
                            i + 1 <= k < 8 && 0 <= f < 8,
                    ;
                };
                assert(rest[(k - (i + 1)) * 8 + f] == bv.at(
                    Square { file: f as u8, rank: (7 - k) as u8 },
                ));
            }
        }
    }
}

/// The en-passant field parses back to the target it was written from,
/// and never holds a blank.
proof fn lemma_ep_round(ep: Option<Square>)
    requires
        ep matches Some(sq) ==> sq.wf(),
    ensures
        parse_ep_field(ep_field(ep)) == Ok::<Option<Square>, FenError>(ep),
        ep_field(ep).len() > 0,
        forall|i: int| 0 <= i < ep_field(ep).len() ==> ep_field(ep)[i] != ' ',
{
    match ep {
        None => {},
        Some(sq) => {
            let t = ep_field(ep);
            assert(t == square_name(sq));
            assert(t.len() == 2);
            assert(t[0] == Line::spec_file(sq.file_i()).spec_char());
            assert(t[1] == Line::spec_rank(sq.rank_i()).spec_char());
            assert(Line::spec_new(t[0]) == Some(Line::spec_file(sq.file_i())));
            assert(Line::spec_new(t[1]) == Some(Line::spec_rank(sq.rank_i())));
            assert(Line::spec_file(sq.file_i()).index() == sq.file_i());
            assert(Line::spec_rank(sq.rank_i()).index() == sq.rank_i());
            assert(t != seq!['-']);
        },
    }
}

/// Parsing the serialized form of any board reproduces an equal board:
/// the serialization round trip.
#[verifier::rlimit(100)]
#[verifier::spinoff_prover]
pub proof fn lemma_fen_round_trip(bv: BoardView)
    requires
        bv.wf(),
    ensures
        parse_fen_spec(fen_of(bv)) == Ok::<BoardView, FenError>(bv),
{
    let s = fen_of(bv);
    let f1 = ranks_down_from(bv, 7);
    let f2: Seq<char> = if bv.white_to_move {
        seq!['w']
    } else {
        seq!['b']
    };
    let f3 = castling_field(bv.castling);
    let f4 = ep_field(bv.en_passant);
    let f5 = dec_digits(bv.half_move_clock as int);
    let f6 = dec_digits(bv.full_move_number as int);
    lemma_ranks_chars(bv, 7);
    lemma_castling_round(bv.castling);
    lemma_ep_round(bv.en_passant);
    lemma_dec_round(bv.half_move_clock as int);
    lemma_dec_round(bv.full_move_number as int);
    assert forall|i: int| 0 <= i < f1.len() implies f1[i] != ' ' by {
        assert(board_char(f1[i]) || f1[i] == '/');
    }
    assert forall|i: int| 0 <= i < f5.len() implies f5[i] != ' ' by {
        assert(char_digit(f5[i]) >= 0);
    }
    assert forall|i: int| 0 <= i < f6.len() implies f6[i] != ' ' by {
        assert(char_digit(f6[i]) >= 0);
    }
    let r6 = f6;
    let r5 = f5 + seq![' '] + r6;
    let r4 = f4 + seq![' '] + r5;
    let r3 = f3 + seq![' '] + r4;
    let r2 = f2 + seq![' '] + r3;
    assert(s =~= f1 + seq![' '] + r2);
    lemma_split_drop_field(f1, r2, ' ');
    assert(r2 =~= f2 + seq![' '] + r3);
    lemma_split_drop_field(f2, r3, ' ');
    lemma_split_drop_field(f3, r4, ' ');
    lemma_split_drop_field(f4, r5, ' ');
    lemma_split_drop_field(f5, r6, ' ');
    lemma_split_drop_whole(f6, ' ');
    let fields = split_drop(s, ' ');
    assert(fields =~= seq![f1, f2, f3, f4, f5, f6]);
    // the board field
    lemma_split_ranks(bv, 7);
    let ranks = split_keep(f1, '/');
    assert(ranks == Seq::new(8nat, |k: int| rank_rle(bv, 7 - k)));
    lemma_rows(bv, ranks, 0);
    let rows = rows_from(ranks, 0)->Ok_0;
    let squares = parse_board_field(f1)->Ok_0;
    assert(squares == Seq::new(64, |i: int| rows[(7 - i / 8) * 8 + i % 8]));
    assert forall|idx: int| 0 <= idx < 64 implies squares[idx] == bv.squares[idx] by {
        let r = idx / 8;
        let f = idx % 8;
        assert(0 <= r < 8 && 0 <= f < 8);
        let k = 7 - r;
        assert(rows[(k - 0) * 8 + f] == bv.at(Square { file: f as u8, rank: (7 - k) as u8 }));
        assert(squares[idx] == rows[(7 - idx / 8) * 8 + idx % 8]);
        let sq = Square { file: f as u8, rank: r as u8 };
        assert(bv.at(sq) == bv.squares[sq.idx()]);
        assert(sq.idx() == r * 8 + f);
        assert(r * 8 + f == idx);
    }
    assert(squares =~= bv.squares);
    // the other fields
    assert(f2 == seq!['w'] <==> bv.white_to_move) by {
        if !bv.white_to_move {
            assert(f2[0] == 'b');
        }
    }
    assert(bv.half_move_clock as int <= u8::MAX);
    assert(bv.full_move_number as int <= u16::MAX);
    let parsed = parse_fen_spec(s)->Ok_0;
    assert(parsed.squares == bv.squares && parsed.white_to_move == bv.white_to_move
        && parsed.castling == bv.castling && parsed.en_passant == bv.en_passant
        && parsed.half_move_clock == bv.half_move_clock && parsed.full_move_number
        == bv.full_move_number);
}

/// The constant facts about the three flag bits.
proof fn lemma_flag_bits()
    ensures
        0u8 | 0u8 == 0u8,
        0u8 | 1u8 == 1u8,
        0u8 | 2u8 == 2u8,
        4u8 | 0u8 == 4u8,
        4u8 | 1u8 == 5u8,
        4u8 | 2u8 == 6u8,
        0u8 & 1u8 == 0u8,
        0u8 & 2u8 == 0u8,
        0u8 & 4u8 == 0u8,
        1u8 & 1u8 == 1u8,
        1u8 & 2u8 == 0u8,
        1u8 & 4u8 == 0u8,
        2u8 & 1u8 == 0u8,
        2u8 & 2u8 == 2u8,
        2u8 & 4u8 == 0u8,
        4u8 & 1u8 == 0u8,
        4u8 & 2u8 == 0u8,
        4u8 & 4u8 == 4u8,
        5u8 & 1u8 == 1u8,
        5u8 & 2u8 == 0u8,
        5u8 & 4u8 == 4u8,
        6u8 & 1u8 == 0u8,
        6u8 & 2u8 == 2u8,
        6u8 & 4u8 == 4u8,
{
    assert(0u8 | 0u8 == 0u8 && 0u8 | 1u8 == 1u8 && 0u8 | 2u8 == 2u8 && 4u8 | 0u8 == 4u8 && 4u8
        | 1u8 == 5u8 && 4u8 | 2u8 == 6u8 && 0u8 & 1u8 == 0u8 && 0u8 & 2u8 == 0u8 && 0u8 & 4u8
        == 0u8 && 1u8 & 1u8 == 1u8 && 1u8 & 2u8 == 0u8 && 1u8 & 4u8 == 0u8 && 2u8 & 1u8 == 0u8
        && 2u8 & 2u8 == 2u8 && 2u8 & 4u8 == 0u8 && 4u8 & 1u8 == 0u8 && 4u8 & 2u8 == 0u8 && 4u8
        & 4u8 == 4u8 && 5u8 & 1u8 == 1u8 && 5u8 & 2u8 == 0u8 && 5u8 & 4u8 == 4u8 && 6u8 & 1u8
        == 0u8 && 6u8 & 2u8 == 2u8 && 6u8 & 4u8 == 4u8) by (bit_vector);
}

/// A flag set a turn's notation can carry faithfully: only the three flag
/// bits, and never check and checkmate together.
pub open spec fn flag_bits_ok(f: u8) -> bool {
    f == 0 || f == 1 || f == 2 || f == 4 || f == 5 || f == 6
}

/// A turn whose notation names it back exactly: its squares lie on the
/// board, its flags are faithful, and its promotion obeys the final-rank
/// rules.
pub open spec fn notation_wf(t: Turn) -> bool {
    match t {
        Turn::Castling(_, f) => f == 0 || f == 1 || f == 2,
        Turn::Move(m) => {
            &&& m.wf()
            &&& flag_bits_ok(m.flags)
            &&& match m.promotion {
                Some(p) => m.piece == PieceType::Pawn && p != PieceType::King && p
                    != PieceType::Pawn && (m.dst.rank_i() == 0 || m.dst.rank_i() == 7),
                None => !(m.piece == PieceType::Pawn && (m.dst.rank_i() == 0 || m.dst.rank_i()
                    == 7)),
            }
        },
    }
}

/// Prefix-stable scans read equal prefixes equally.
proof fn lemma_uppers_prefix_eq(a: Seq<char>, b: Seq<char>, k: int)
    requires
        0 <= k <= a.len(),
        k <= b.len(),
        forall|j: int| 0 <= j < k ==> a[j] == b[j],
    ensures
        uppers_upto(a, k) == uppers_upto(b, k),
    decreases k,
{
    if k > 0 {
        lemma_uppers_prefix_eq(a, b, k - 1);
    }
}

/// Prefix-stable scans read equal prefixes equally.
proof fn lemma_squares_prefix_eq(a: Seq<char>, b: Seq<char>, k: int)
    requires
        0 <= k <= a.len(),
        k <= b.len(),
        forall|j: int| 0 <= j < k ==> a[j] == b[j],
    ensures
        squares_upto(a, k) == squares_upto(b, k),
    decreases k,
{
    if k > 0 {
        lemma_squares_prefix_eq(a, b, k - 1);
    }
}

/// The uppercase characters of a concatenation are those of its parts, in
/// order.
proof fn lemma_uppers_concat(a: Seq<char>, b: Seq<char>)
    ensures
        uppers_upto(a + b, (a + b).len() as int) == uppers_upto(a, a.len() as int) + uppers_upto(
            b,
            b.len() as int,
        ),
    decreases b.len(),
{
    let s = a + b;
    if b.len() == 0 {
        assert(s =~= a);
        lemma_uppers_prefix_eq(s, a, a.len() as int);
        assert(uppers_upto(b, 0) =~= Seq::<char>::empty());
        assert(uppers_upto(a, a.len() as int) + uppers_upto(b, 0) =~= uppers_upto(
            a,
            a.len() as int,
        ));
    } else {
        lemma_uppers_concat(a, b.drop_last());
        let s0 = a + b.drop_last();
        assert(s[s.len() - 1] == b.last());
        lemma_uppers_prefix_eq(s0, s, s0.len() as int);
        assert(uppers_upto(s, s.len() as int - 1) == uppers_upto(s0, s0.len() as int));
        lemma_uppers_prefix_eq(b.drop_last(), b, b.len() as int - 1);
        assert(uppers_upto(b.drop_last(), b.len() as int - 1) == uppers_upto(
            b,
            b.len() as int - 1,
        ));
        if upper_char(b.last()) {
            assert(uppers_upto(b, b.len() as int) == uppers_upto(
                b,
                b.len() as int - 1,
            ).push(b.last()));
            assert((uppers_upto(a, a.len() as int) + uppers_upto(b, b.len() as int - 1)).push(
                b.last(),
            ) =~= uppers_upto(a, a.len() as int) + uppers_upto(b, b.len() as int));
        }
    }
}

/// The square characters of a concatenation are those of its parts, in
/// order.
proof fn lemma_squares_concat(a: Seq<char>, b: Seq<char>)
    ensures
        squares_upto(a + b, (a + b).len() as int) == squares_upto(a, a.len() as int)
            + squares_upto(b, b.len() as int),
    decreases b.len(),
{
    let s = a + b;
    if b.len() == 0 {
        assert(s =~= a);
        lemma_squares_prefix_eq(s, a, a.len() as int);
        assert(squares_upto(b, 0) =~= Seq::<char>::empty());
        assert(squares_upto(a, a.len() as int) + squares_upto(b, 0) =~= squares_upto(
            a,
            a.len() as int,
        ));
    } else {
        lemma_squares_concat(a, b.drop_last());
        let s0 = a + b.drop_last();
        assert(s[s.len() - 1] == b.last());
        lemma_squares_prefix_eq(s0, s, s0.len() as int);
        assert(squares_upto(s, s.len() as int - 1) == squares_upto(s0, s0.len() as int));
        lemma_squares_prefix_eq(b.drop_last(), b, b.len() as int - 1);
        assert(squares_upto(b.drop_last(), b.len() as int - 1) == squares_upto(
            b,
            b.len() as int - 1,
        ));
        if square_char(b.last()) {
            assert(squares_upto(b, b.len() as int) == squares_upto(
                b,
                b.len() as int - 1,
            ).push(b.last()));
            assert((squares_upto(a, a.len() as int) + squares_upto(b, b.len() as int - 1)).push(
                b.last(),
            ) =~= squares_upto(a, a.len() as int) + squares_upto(b, b.len() as int));
        }
    }
}

/// A string of allowed characters has no first bad character.
proof fn lemma_all_allowed(s: Seq<char>, i: int)
    requires
        0 <= i <= s.len(),
        forall|j: int| 0 <= j < s.len() ==> allowed_char(#[trigger] s[j]),
    ensures
        first_bad_from(s, i) is None,
    decreases s.len() - i,
{
    if i < s.len() {
        lemma_all_allowed(s, i + 1);
    }
}

/// A character occurs in a concatenation exactly when it occurs in one of
/// the parts.
proof fn lemma_contains_concat(a: Seq<char>, b: Seq<char>, c: char)
    ensures
        (a + b).contains(c) <==> (a.contains(c) || b.contains(c)),
{
    let s = a + b;
    if a.contains(c) {
        let i = choose|i: int| 0 <= i < a.len() && a[i] == c;
        assert(s[i] == c);
        assert(s.contains(c));
    }
    if b.contains(c) {
        let i = choose|i: int| 0 <= i < b.len() && b[i] == c;
        assert(s[a.len() + i] == c);
        assert(s.contains(c));
    }
    if s.contains(c) {
        let i = choose|i: int| 0 <= i < s.len() && s[i] == c;
        if i < a.len() {
            assert(a[i] == c);
        } else {
            assert(b[i - a.len()] == c);
        }
    }
}

/// Appending keeps every character allowed.
proof fn lemma_allowed_concat(a: Seq<char>, b: Seq<char>)
    requires
        forall|j: int| 0 <= j < a.len() ==> allowed_char(#[trigger] a[j]),
        forall|j: int| 0 <= j < b.len() ==> allowed_char(#[trigger] b[j]),
    ensures
        forall|j: int| 0 <= j < (a + b).len() ==> allowed_char(#[trigger] (a + b)[j]),
{
    assert forall|j: int| 0 <= j < (a + b).len() implies allowed_char(#[trigger] (a + b)[j]) by {
        if j < a.len() {
            assert((a + b)[j] == a[j]);
        } else {
            assert((a + b)[j] == b[j - a.len()]);
        }
    }
}

/// A piece letter names the piece kind back.
proof fn lemma_letter_round(k: PieceType)
    requires
        k != PieceType::Pawn,
    ensures
        PieceType::spec_from_letter(k.spec_letter()) == Some(k),
        upper_char(k.spec_letter()),
        !square_char(k.spec_letter()),
        allowed_char(k.spec_letter()),
        k.spec_letter() != 'x' && k.spec_letter() != '=' && k.spec_letter() != '#'
            && k.spec_letter() != '+' && k.spec_letter() != '-',
{
}

/// A line's character names the line back.
proof fn lemma_line_char_round(l: Line)
    ensures
        Line::spec_new(l.spec_char()) == Some(l),
        square_char(l.spec_char()),
        !upper_char(l.spec_char()),
        allowed_char(l.spec_char()),
        l.spec_char() != 'x' && l.spec_char() != '=' && l.spec_char() != '#' && l.spec_char()
            != '+' && l.spec_char() != '-',
{
}

/// A square's two-character name parses back to the square.
proof fn lemma_square_name_round(sq: Square)
    requires
        sq.wf(),
    ensures
        square_of_chars(square_name(sq)[0], square_name(sq)[1]) == Ok::<Square, ParseKindView>(
            sq,
        ),
        square_name(sq).len() == 2,
        forall|i: int| 0 <= i < 2 ==> square_char(#[trigger] square_name(sq)[i]),
        forall|i: int| 0 <= i < 2 ==> !upper_char(#[trigger] square_name(sq)[i]),
        forall|i: int| 0 <= i < 2 ==> allowed_char(#[trigger] square_name(sq)[i]),
        forall|i: int|
            0 <= i < 2 ==> square_name(sq)[i] != 'x' && square_name(sq)[i] != '='
                && square_name(sq)[i] != '#' && square_name(sq)[i] != '+' && square_name(sq)[i]
                != '-',
{
    let fl = Line::spec_file(sq.file_i());
    let rl = Line::spec_rank(sq.rank_i());
    lemma_line_char_round(fl);
    lemma_line_char_round(rl);
    assert(fl.index() == sq.file_i());
    assert(rl.index() == sq.rank_i());
}

/// A string without a dash holds no castling token.
proof fn lemma_no_dash_no_castle(s: Seq<char>)
    requires
        forall|j: int| 0 <= j < s.len() ==> s[j] != '-',
    ensures
        !has_substring(s, seq!['0', '-', '0', '-', '0']),
        !has_substring(s, seq!['O', '-', 'O', '-', 'O']),
        !has_substring(s, seq!['0', '-', '0']),
        !has_substring(s, seq!['O', '-', 'O']),
{
    if has_substring(s, seq!['0', '-', '0', '-', '0']) {
        let i = choose|i: int|
            0 <= i <= s.len() - 5 && #[trigger] s.subrange(i, i + 5) == seq![
                '0', '-', '0', '-', '0',
            ];
        assert(s[i + 1] == s.subrange(i, i + 5)[1]);
        assert(false);
    }
    if has_substring(s, seq!['O', '-', 'O', '-', 'O']) {
        let i = choose|i: int|
            0 <= i <= s.len() - 5 && #[trigger] s.subrange(i, i + 5) == seq![
                'O', '-', 'O', '-', 'O',
            ];
        assert(s[i + 1] == s.subrange(i, i + 5)[1]);
        assert(false);
    }
    if has_substring(s, seq!['0', '-', '0']) {
        let i = choose|i: int|
            0 <= i <= s.len() - 3 && #[trigger] s.subrange(i, i + 3) == seq!['0', '-', '0'];
        assert(s[i + 1] == s.subrange(i, i + 3)[1]);
        assert(false);
    }
    if has_substring(s, seq!['O', '-', 'O']) {
        let i = choose|i: int|
            0 <= i <= s.len() - 3 && #[trigger] s.subrange(i, i + 3) == seq!['O', '-', 'O'];
        assert(s[i + 1] == s.subrange(i, i + 3)[1]);
        assert(false);
    }
}

/// The scans of a move's rendered notation: its uppercase characters are
/// the piece and promotion letters, and its square characters are the
/// source and destination names.
#[verifier::rlimit(100)]
#[verifier::spinoff_prover]
proof fn lemma_move_scans(m: Move)
    requires
        notation_wf(Turn::Move(m)),
    ensures
        ({
            let s = notation_spec(Turn::Move(m));
            &&& uppers_upto(s, s.len() as int) == (if m.piece == PieceType::Pawn {
                Seq::<char>::empty()
            } else {
                seq![m.piece.spec_letter()]
            }) + (match m.promotion {
                Some(p) => seq![p.spec_letter()],
                None => Seq::<char>::empty(),
            })
            &&& squares_upto(s, s.len() as int) == src_chars(m.src) + square_name(m.dst)
            &&& forall|j: int| 0 <= j < s.len() ==> allowed_char(#[trigger] s[j])
            &&& forall|j: int| 0 <= j < s.len() ==> s[j] != '-'
        }),
{
    reveal_with_fuel(uppers_upto, 6);
    reveal_with_fuel(squares_upto, 6);
    let s = notation_spec(Turn::Move(m));
    let pawn = m.piece == PieceType::Pawn;
    let p1: Seq<char> = if pawn {
        Seq::empty()
    } else {
        seq![m.piece.spec_letter()]
    };
    let p2 = src_chars(m.src);
    let p3: Seq<char> = if m.flags & 4u8 != 0 {
        seq!['x']
    } else {
        Seq::empty()
    };
    let p4 = square_name(m.dst);
    let p5: Seq<char> = match m.promotion {
        Some(p) => seq!['=', p.spec_letter()],
        None => Seq::empty(),
    };
    let p6 = flag_suffix(m.flags);
    assert(s == p1 + p2 + p3 + p4 + p5 + p6);
    lemma_square_name_round(m.dst);
    if !pawn {
        lemma_letter_round(m.piece);
    }
    match m.promotion {
        Some(p) => {
            lemma_letter_round(p);
        },
        None => {},
    }
    match m.src {
        Some(Source::Line(l)) => {
            lemma_line_char_round(l);
        },
        Some(Source::Square(x)) => {
            lemma_square_name_round(x);
        },
        None => {},
    }
    let e = Seq::<char>::empty();
    assert(uppers_upto(p1, p1.len() as int) == if pawn {
        e
    } else {
        seq![m.piece.spec_letter()]
    });
    assert(squares_upto(p1, p1.len() as int) == e) by {
        if !pawn {
            assert(!square_char(p1[0]));
        }
    }
    assert(uppers_upto(p2, p2.len() as int) == e && squares_upto(p2, p2.len() as int) == p2) by {
        match m.src {
            None => {},
            Some(Source::Line(l)) => {
                assert(p2 == seq![l.spec_char()]);
                assert(squares_upto(p2, 1) =~= p2);
            },
            Some(Source::Square(x)) => {
                assert(p2 == square_name(x));
                assert(squares_upto(p2, 2) =~= p2);
            },
        }
    }
    assert(uppers_upto(p3, p3.len() as int) == e && squares_upto(p3, p3.len() as int) == e);
    assert(uppers_upto(p4, p4.len() as int) == e && squares_upto(p4, p4.len() as int) == p4) by {
        assert(squares_upto(p4, 2) =~= p4);
    }
    assert(squares_upto(p5, p5.len() as int) == e);
    assert(uppers_upto(p5, p5.len() as int) == (match m.promotion {
        Some(p) => seq![p.spec_letter()],
        None => e,
    })) by {
        match m.promotion {
            Some(p) => {
                assert(!upper_char('='));
                assert(uppers_upto(p5, 2) =~= seq![p.spec_letter()]);
            },
            None => {},
        }
    }
    assert(uppers_upto(p6, p6.len() as int) == e && squares_upto(p6, p6.len() as int) == e);
    let s12 = p1 + p2;
    let s13 = s12 + p3;
    let s14 = s13 + p4;
    let s15 = s14 + p5;
    lemma_uppers_concat(p1, p2);
    lemma_uppers_concat(s12, p3);
    lemma_uppers_concat(s13, p4);
    lemma_uppers_concat(s14, p5);
    lemma_uppers_concat(s15, p6);
    lemma_squares_concat(p1, p2);
    lemma_squares_concat(s12, p3);
    lemma_squares_concat(s13, p4);
    lemma_squares_concat(s14, p5);
    lemma_squares_concat(s15, p6);
    assert(uppers_upto(s, s.len() as int) =~= (if pawn {
        e
    } else {
        seq![m.piece.spec_letter()]
    }) + (match m.promotion {
        Some(p) => seq![p.spec_letter()],
        None => e,
    }));
    assert(squares_upto(s, s.len() as int) =~= p2 + p4);
    assert forall|j: int| 0 <= j < s.len() implies allowed_char(#[trigger] s[j]) by {
        frag_index(p1, p2, p3, p4, p5, p6, j);
    }
    assert forall|j: int| 0 <= j < s.len() implies s[j] != '-' by {
        frag_index(p1, p2, p3, p4, p5, p6, j);
    }
}

/// Parsing the rendered notation of a turn gives the very turn back: the
/// notation round trip.
#[verifier::rlimit(100)]
#[verifier::spinoff_prover]
pub proof fn lemma_notation_round_trip(t: Turn)
    requires
        notation_wf(t),
    ensures
        parse_move_spec(notation_spec(t)) == Ok::<Turn, ParseErrView>(t),
{
    lemma_flag_bits();
    reveal_with_fuel(uppers_upto, 6);
    reveal_with_fuel(squares_upto, 6);
    let s = notation_spec(t);
    match t {
        Turn::Castling(ct, f) => {
            let base: Seq<char> = if ct == CastlingType::Long {
                seq!['0', '-', '0', '-', '0']
            } else {
                seq!['0', '-', '0']
            };
            let p6 = flag_suffix(f);
            assert(s == base + p6);
            assert forall|j: int| 0 <= j < s.len() implies allowed_char(#[trigger] s[j]) by {
                if j < base.len() {
                    assert(s[j] == base[j]);
                } else {
                    assert(s[j] == p6[j - base.len()]);
                }
            }
            lemma_all_allowed(s, 0);
            assert forall|j: int| 0 <= j < s.len() implies s[j] != 'x' by {
                if j < base.len() {
                    assert(s[j] == base[j]);
                } else {
                    assert(s[j] == p6[j - base.len()]);
                }
            }
            assert(!s.contains('x'));
            lemma_contains_concat(base, p6, '#');
            lemma_contains_concat(base, p6, '+');
            assert(!base.contains('#')) by {
                assert forall|j: int| 0 <= j < base.len() implies base[j] != '#' by {}
            }
            assert(!base.contains('+')) by {
                assert forall|j: int| 0 <= j < base.len() implies base[j] != '+' by {}
            }
            if f == 2 {
                assert(p6 == seq!['#']);
                assert(p6.contains('#')) by {
                    assert(p6[0] == '#');
                }
                assert(!p6.contains('+')) by {
                    assert forall|j: int| 0 <= j < p6.len() implies p6[j] != '+' by {}
                }
            } else if f == 1 {
                assert(p6 == seq!['+']);
                assert(p6.contains('+')) by {
                    assert(p6[0] == '+');
                }
                assert(!p6.contains('#')) by {
                    assert forall|j: int| 0 <= j < p6.len() implies p6[j] != '#' by {}
                }
            } else {
                assert(p6 =~= Seq::<char>::empty());
                assert(!p6.contains('#') && !p6.contains('+'));
            }
            assert(flags_of(s) == f);
            if ct == CastlingType::Long {
                let pat5 = seq!['0', '-', '0', '-', '0'];
                assert(s.subrange(0int, 0int + pat5.len()) =~= pat5);
                assert(has_substring(s, pat5));
            } else {
                assert(s.len() <= 4);
                if has_substring(s, seq!['0', '-', '0', '-', '0']) {
                    let i = choose|i: int|
                        0 <= i <= s.len() - 5 && #[trigger] s.subrange(i, i + 5) == seq![
                            '0', '-', '0', '-', '0',
                        ];
                    assert(false);
                }
                if has_substring(s, seq!['O', '-', 'O', '-', 'O']) {
                    let i = choose|i: int|
                        0 <= i <= s.len() - 5 && #[trigger] s.subrange(i, i + 5) == seq![
                            'O', '-', 'O', '-', 'O',
                        ];
                    assert(false);
                }
                let pat3 = seq!['0', '-', '0'];
                assert(s.subrange(0int, 0int + pat3.len()) =~= pat3);
                assert(has_substring(s, pat3));
            }
        },
        Turn::Move(m) => {
            let pawn = m.piece == PieceType::Pawn;
            let p1: Seq<char> = if pawn {
                Seq::empty()
            } else {
                seq![m.piece.spec_letter()]
            };
            let p2 = src_chars(m.src);
            let p3: Seq<char> = if m.flags & 4u8 != 0 {
                seq!['x']
            } else {
                Seq::empty()
            };
            let p4 = square_name(m.dst);
            let p5: Seq<char> = match m.promotion {
                Some(p) => seq!['=', p.spec_letter()],
                None => Seq::empty(),
            };
            let p6 = flag_suffix(m.flags);
            assert(s == p1 + p2 + p3 + p4 + p5 + p6);
            lemma_square_name_round(m.dst);
            if !pawn {
                lemma_letter_round(m.piece);
            }
            match m.promotion {
                Some(p) => {
                    lemma_letter_round(p);
                },
                None => {},
            }
            match m.src {
                Some(Source::Line(l)) => {
                    lemma_line_char_round(l);
                },
                Some(Source::Square(x)) => {
                    lemma_square_name_round(x);
                },
                None => {},
            }
            lemma_move_scans(m);
            let e = Seq::<char>::empty();
            let uppers = uppers_upto(s, s.len() as int);
            let sqchars = squares_upto(s, s.len() as int);
            lemma_all_allowed(s, 0);
            lemma_no_dash_no_castle(s);
            let letter_expected: Seq<char> = (if pawn {
                e
            } else {
                seq![m.piece.spec_letter()]
            }) + (match m.promotion {
                Some(p) => seq![p.spec_letter()],
                None => e,
            });
            assert(uppers == letter_expected);
            lemma_special_contains(p1, p2, p3, p4, p5, p6, m);
            assert(flags_of(s) == m.flags);
            match m.src {
                None => {
                    assert(sqchars =~= square_name(m.dst));
                    assert(squares_of_notation(sqchars) == Ok::<(Square, Option<Source>),
                    ParseErrView>((m.dst, None)));
                },
                Some(Source::Line(l)) => {
                    assert(sqchars.len() == 3);
                    assert(sqchars[0] == l.spec_char());
                    assert(sqchars[1] == square_name(m.dst)[0] && sqchars[2] == square_name(
                        m.dst,
                    )[1]);
                    assert(squares_of_notation(sqchars) == Ok::<(Square, Option<Source>),
                    ParseErrView>((m.dst, Some(Source::Line(l)))));
                },
                Some(Source::Square(x)) => {
                    assert(sqchars.len() == 4);
                    assert(sqchars[0] == square_name(x)[0] && sqchars[1] == square_name(x)[1]);
                    assert(sqchars[2] == square_name(m.dst)[0] && sqchars[3] == square_name(
                        m.dst,
                    )[1]);
                    assert(squares_of_notation(sqchars) == Ok::<(Square, Option<Source>),
                    ParseErrView>((m.dst, Some(Source::Square(x)))));
                },
            }
            match m.promotion {
                Some(p) => {
                    assert(uppers =~= seq![p.spec_letter()]);
                    assert(s.contains('='));
                    assert(verify_move_spec(
                        Move {
                            piece: PieceType::Pawn,
                            dst: m.dst,
                            flags: m.flags,
                            src: m.src,
                            promotion: Some(p),
                        },
                    ) == Ok::<Turn, PromotionError>(Turn::Move(m)));
                },
                None => {
                    assert(!s.contains('='));
                    if pawn {
                        assert(uppers =~= e);
                    } else {
                        assert(uppers =~= seq![m.piece.spec_letter()]);
                    }
                    assert(verify_move_spec(
                        Move {
                            piece: m.piece,
                            dst: m.dst,
                            flags: m.flags,
                            src: m.src,
                            promotion: None,
                        },
                    ) == Ok::<Turn, PromotionError>(Turn::Move(m)));
                },
            }
        },
    }
}

/// An index into the six joined fragments of a move's notation lands in
/// one of them.
proof fn frag_index(
    p1: Seq<char>,
    p2: Seq<char>,
    p3: Seq<char>,
    p4: Seq<char>,
    p5: Seq<char>,
    p6: Seq<char>,
    j: int,
)
    requires
        0 <= j < (p1 + p2 + p3 + p4 + p5 + p6).len(),
    ensures
        ({
            let s = p1 + p2 + p3 + p4 + p5 + p6;
            ||| (exists|k: int| 0 <= k < p1.len() && s[j] == #[trigger] p1[k])
            ||| (exists|k: int| 0 <= k < p2.len() && s[j] == #[trigger] p2[k])
            ||| (exists|k: int| 0 <= k < p3.len() && s[j] == #[trigger] p3[k])
            ||| (exists|k: int| 0 <= k < p4.len() && s[j] == #[trigger] p4[k])
            ||| (exists|k: int| 0 <= k < p5.len() && s[j] == #[trigger] p5[k])
            ||| (exists|k: int| 0 <= k < p6.len() && s[j] == #[trigger] p6[k])
        }),
{
    let s = p1 + p2 + p3 + p4 + p5 + p6;
    let n1 = p1.len() as int;
    let n2 = n1 + p2.len();
    let n3 = n2 + p3.len();
    let n4 = n3 + p4.len();
    let n5 = n4 + p5.len();
    if j < n1 {
        assert(s[j] == p1[j]);
    } else if j < n2 {
        assert(s[j] == p2[j - n1]);
    } else if j < n3 {
        assert(s[j] == p3[j - n2]);
    } else if j < n4 {
        assert(s[j] == p4[j - n3]);
    } else if j < n5 {
        assert(s[j] == p5[j - n4]);
    } else {
        assert(s[j] == p6[j - n5]);
    }
}

/// What the special characters of a move's notation say: the capture mark
/// appears exactly for the capture flag, the promotion mark exactly for a
/// promotion, and the check marks exactly for their flags.
proof fn lemma_special_contains(
    p1: Seq<char>,
    p2: Seq<char>,
    p3: Seq<char>,
    p4: Seq<char>,
    p5: Seq<char>,
    p6: Seq<char>,
    m: Move,
)
    requires
        notation_wf(Turn::Move(m)),
        p1 == (if m.piece == PieceType::Pawn {
            Seq::<char>::empty()
        } else {
            seq![m.piece.spec_letter()]
        }),
        p2 == src_chars(m.src),
        p3 == (if m.flags & 4u8 != 0 {
            seq!['x']
        } else {
            Seq::<char>::empty()
        }),
        p4 == square_name(m.dst),
        p5 == (match m.promotion {
            Some(p) => seq!['=', p.spec_letter()],
            None => Seq::<char>::empty(),
        }),
        p6 == flag_suffix(m.flags),
    ensures
        (p1 + p2 + p3 + p4 + p5 + p6).contains('x') == (m.flags & 4u8 != 0),
        (p1 + p2 + p3 + p4 + p5 + p6).contains('=') == (m.promotion is Some),
        (p1 + p2 + p3 + p4 + p5 + p6).contains('#') == (m.flags & 2u8 != 0),
        (p1 + p2 + p3 + p4 + p5 + p6).contains('+') == (m.flags & 2u8 == 0 && m.flags & 1u8
            != 0),
{
    lemma_flag_bits();
    let s = p1 + p2 + p3 + p4 + p5 + p6;
    lemma_square_name_round(m.dst);
    if m.piece != PieceType::Pawn {
        lemma_letter_round(m.piece);
    }
    match m.promotion {
        Some(p) => {
            lemma_letter_round(p);
        },
        None => {},
    }
    match m.src {
        Some(Source::Line(l)) => {
            lemma_line_char_round(l);
        },
        Some(Source::Square(x)) => {
            lemma_square_name_round(x);
        },
        None => {},
    }
    if m.flags & 4u8 != 0 {
        assert(s[p1.len() + p2.len() as int] == 'x');
        assert(s.contains('x'));
    } else {
        assert forall|j: int| 0 <= j < s.len() implies s[j] != 'x' by {
            frag_index(p1, p2, p3, p4, p5, p6, j);
        }
        if s.contains('x') {
            let j = choose|j: int| 0 <= j < s.len() && s[j] == 'x';
            assert(false);
        }
    }
    if m.promotion is Some {
        assert(p5[0] == '=');
        assert(s[p1.len() + p2.len() + p3.len() + p4.len() as int] == '=');
        assert(s.contains('='));
    } else {
        assert forall|j: int| 0 <= j < s.len() implies s[j] != '=' by {
            frag_index(p1, p2, p3, p4, p5, p6, j);
        }
        if s.contains('=') {
            let j = choose|j: int| 0 <= j < s.len() && s[j] == '=';
            assert(false);
        }
    }
    if m.flags & 2u8 != 0 {
        assert(p6 == seq!['#']);
        assert(s[s.len() - 1] == '#');
        assert(s.contains('#'));
    } else {
        assert forall|j: int| 0 <= j < s.len() implies s[j] != '#' by {
            frag_index(p1, p2, p3, p4, p5, p6, j);
        }
        if s.contains('#') {
            let j = choose|j: int| 0 <= j < s.len() && s[j] == '#';
            assert(false);
        }
    }
    if m.flags & 2u8 == 0 && m.flags & 1u8 != 0 {
        assert(p6 == seq!['+']);
        assert(s[s.len() - 1] == '+');
        assert(s.contains('+'));
    } else {
        assert forall|j: int| 0 <= j < s.len() implies s[j] != '+' by {
            frag_index(p1, p2, p3, p4, p5, p6, j);
        }
        if s.contains('+') {
            let j = choose|j: int| 0 <= j < s.len() && s[j] == '+';
            assert(false);
        }
    }
}

/// A file line through a square is that square's file, and a rank line
/// through it is that square's rank.
proof fn lemma_line_through(l: Line, s: Square)
    requires
        s.wf(),
        l.spec_contains(s),
    ensures
        l.spec_is_file() ==> l == Line::spec_file(s.file_i()),
        l.spec_is_rank() ==> l == Line::spec_rank(s.rank_i()),
{
}

/// The shortest form of a fully qualified move still resolves back to the
/// very same move: completing the minimum move yields the turn itself.
///
/// The move must itself have been derived by completing some request: some
/// disambiguation of it resolves to its source square.
pub proof fn lemma_minimum_move_revalidates(bv: BoardView, m: Move, s: Square)
    requires
        m.src == Some(Source::Square(s)),
        s.wf(),
        exists|src0: Option<Source>|
            resolve_move_spec(bv, Move { src: src0, ..m }) == Ok::<Source, TurnError>(
                Source::Square(s),
            ),
    ensures
        complete_turn_spec(bv, minimum_move_spec(bv, Turn::Move(m))) == Ok::<Turn, TurnError>(
            Turn::Move(m),
        ),
{
    let bare = Move { src: None, ..m };
    let by_file = Move { src: Some(Source::Line(Line::spec_file(s.file_i()))), ..m };
    let by_rank = Move { src: Some(Source::Line(Line::spec_rank(s.rank_i()))), ..m };
    let ok = Ok::<Source, TurnError>(Source::Square(s));
    if resolve_move_spec(bv, bare) == ok {
        assert(minimum_move_spec(bv, Turn::Move(m)) == Turn::Move(bare));
        assert(Move { src: Some(Source::Square(s)), ..bare } == m);
    } else if resolve_move_spec(bv, by_file) == ok {
        assert(Move { src: Some(Source::Square(s)), ..by_file } == m);
    } else if resolve_move_spec(bv, by_rank) == ok {
        assert(Move { src: Some(Source::Square(s)), ..by_rank } == m);
    } else {
        let src0 = choose|src0: Option<Source>|
            resolve_move_spec(bv, Move { src: src0, ..m }) == Ok::<Source, TurnError>(
                Source::Square(s),
            );
        let m0 = Move { src: src0, ..m };
        let cands = crate::board::model::candidates(bv, m0);
        match src0 {
            None => {
                assert(m0 == bare);
                assert(false);
            },
            Some(Source::Square(x)) => {
                if cands.len() == 1 {
                    assert(x == s);
                    assert(m0 == m);
                } else {
                    assert(cands.len() >= 3);
                    assert(x == s);
                    assert(m0 == m);
                }
                assert(resolve_move_spec(bv, m) == ok);
                assert(minimum_move_spec(bv, Turn::Move(m)) == Turn::Move(m));
                assert(Move { src: Some(Source::Square(s)), ..m } == m);
            },
            Some(Source::Line(l)) => {
                if cands.len() == 1 {
                    // a pawn with any file hint resolves to the one
                    // candidate, so its own file hint does too
                    assert(m0.piece == PieceType::Pawn && l.spec_is_file());
                    assert(cands[0] == s);
                    crate::board::model::lemma_cand_upto_src_irrelevant(bv, by_file, m0, 64);
                    assert(resolve_move_spec(bv, by_file) == ok);
                    assert(false);
                } else {
                    assert(cands.len() == 2);
                    let matching = crate::board::model::cands_on_line(bv, m0, l);
                    assert(matching.len() == 1 && matching[0] == s);
                    assert(matching == cands.filter(|sq: Square| l.spec_contains(sq)));
                    cands.lemma_filter_pred(|sq: Square| l.spec_contains(sq), 0);
                    assert(l.spec_contains(s));
                    lemma_line_through(l, s);
                    if l.spec_is_file() {
                        assert(by_file == m0);
                        assert(false);
                    } else {
                        assert(by_rank == m0);
                        assert(false);
                    }
                }
            },
        }
    }
}

} // verus!
