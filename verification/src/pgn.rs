//! Game-record text extraction: splitting record lists, reading tag pairs,
//! and scraping the move text clean of comments.
use vstd::prelude::*;

use crate::parser::parse_move_spec;
use crate::text::{chars_to_string, split_keep, str_to_chars, token_len};
use crate::turn::Turn;

verus! {

/// The characters left by walking the text against a delimiter pair: the
/// delimiters themselves always go, and what stands between them is kept
/// or dropped as asked.
pub open spec fn scan_spec(
    s: Seq<char>,
    open: char,
    close: char,
    keep: bool,
    between: bool,
) -> Seq<char>
    decreases s.len(),
{
    if s.len() == 0 {
        Seq::empty()
    } else {
        let c = s[0];
        let rest = s.skip(1);
        if open == close && c == open {
            scan_spec(rest, open, close, keep, !between)
        } else if c == open {
            scan_spec(rest, open, close, keep, true)
        } else if c == close {
            scan_spec(rest, open, close, keep, false)
        } else if between == keep {
            seq![c] + scan_spec(rest, open, close, keep, between)
        } else {
            scan_spec(rest, open, close, keep, between)
        }
    }
}

/// Walks the text against a delimiter pair, keeping either what stands
/// between the delimiters or what stands outside them.
pub fn scan_between(v: &Vec<char>, open: char, close: char, keep: bool) -> (r: Vec<char>)
    ensures
        r@ == scan_spec(v@, open, close, keep, false),
{
    proof {
        assert(v@.skip(0) =~= v@);
    }
    scan_from(v, open, close, keep, false, 0)
}

/// Walks the text from the given position on, with the given
/// inside-the-delimiters state.
fn scan_from(v: &Vec<char>, open: char, close: char, keep: bool, between: bool, i: usize) -> (r:
    Vec<char>)
    requires
        i <= v@.len(),
    ensures
        r@ == scan_spec(v@.skip(i as int), open, close, keep, between),
    decreases v@.len() - i,
{
    if i == v.len() {
        let r: Vec<char> = Vec::new();
        proof {
            assert(v@.skip(i as int) =~= Seq::<char>::empty());
            assert(r@ =~= scan_spec(v@.skip(i as int), open, close, keep, between));
        }
        return r;
    }
    let c = v[i];
    proof {
        assert(v@.skip(i as int)[0] == v@[i as int]);
        assert(v@.skip(i as int).skip(1) =~= v@.skip(i + 1));
    }
    if open == close && c == open {
        scan_from(v, open, close, keep, !between, i + 1)
    } else if c == open {
        scan_from(v, open, close, keep, true, i + 1)
    } else if c == close {
        scan_from(v, open, close, keep, false, i + 1)
    } else if between == keep {
        let rest = scan_from(v, open, close, keep, between, i + 1);
        let mut r: Vec<char> = Vec::new();
        r.push(c);
        let mut tail = rest;
        r.append(&mut tail);
        proof {
            assert(r@ =~= seq![c] + scan_spec(v@.skip(i + 1), open, close, keep, between));
        }
        r
    } else {
        scan_from(v, open, close, keep, between, i + 1)
    }
}

/// The line opens a tag pair.
pub open spec fn starts_bracket(line: Seq<char>) -> bool {
    line.len() > 0 && line[0] == '['
}

/// The tag-pair lines at the head of a record, each with a line break in
/// front of it.
pub open spec fn info_part(lines: Seq<Seq<char>>, i: int) -> Seq<char>
    decreases lines.len() - i,
{
    if i < 0 || i >= lines.len() || !starts_bracket(lines[i]) {
        Seq::empty()
    } else {
        seq!['\n'] + lines[i] + info_part(lines, i + 1)
    }
}

/// The rest of the lines joined, each with a line break in front of it.
pub open spec fn join_lines(lines: Seq<Seq<char>>, i: int) -> Seq<char>
    decreases lines.len() - i,
{
    if i < 0 || i >= lines.len() {
        Seq::empty()
    } else {
        seq!['\n'] + lines[i] + join_lines(lines, i + 1)
    }
}

/// Everything after the leading tag-pair and empty lines, joined with a
/// line break in front of each line.
pub open spec fn moves_part(lines: Seq<Seq<char>>, i: int) -> Seq<char>
    decreases lines.len() - i,
{
    if i < 0 || i >= lines.len() {
        Seq::empty()
    } else if starts_bracket(lines[i]) || lines[i].len() == 0 {
        moves_part(lines, i + 1)
    } else {
        join_lines(lines, i)
    }
}

/// Splits a record into its tag-pair text and its move text.
pub fn split_pgn_string(pgn_string: &str) -> (r: (String, String))
    ensures
        r.0@ == info_part(split_keep(pgn_string@, '\n'), 0),
        r.1@ == moves_part(split_keep(pgn_string@, '\n'), 0),
{
    let chars = str_to_chars(pgn_string);
    let lines = crate::text::split_keep_exec(&chars, '\n');
    let ghost lv = split_keep(pgn_string@, '\n');
    proof {
        assert(lines@.map_values(|t: Vec<char>| t@) == lv);
        assert forall|i: int| 0 <= i < lines@.len() implies (#[trigger] lines@[i])@ == lv[i] by {
            assert(lines@.map_values(|t: Vec<char>| t@)[i] == lines@[i]@);
        }
    }
    let mut info: Vec<char> = Vec::new();
    let mut i: usize = 0;
    while i < lines.len() && lines[i].len() > 0 && lines[i][0] == '['
        invariant
            lines@.map_values(|t: Vec<char>| t@) == lv,
            forall|k: int| 0 <= k < lines@.len() ==> (#[trigger] lines@[k])@ == lv[k],
            i <= lines@.len(),
            forall|k: int| 0 <= k < i ==> starts_bracket(lv[k]),
            info@ + info_part(lv, i as int) == info_part(lv, 0),
        decreases lines@.len() - i,
    {
        let ghost before = info@;
        info.push('\n');
        let mut line = clone_chars(&lines[i]);
        info.append(&mut line);
        proof {
            assert(info@ =~= before + (seq!['\n'] + lv[i as int]));
            assert(info@ + info_part(lv, i + 1) =~= before + info_part(lv, i as int));
        }
        i += 1;
    }
    proof {
        if i < lines@.len() {
            assert(!starts_bracket(lv[i as int]));
        }
        assert(info_part(lv, i as int) =~= Seq::<char>::empty());
        assert(info@ =~= info@ + info_part(lv, i as int));
    }
    let mut j: usize = 0;
    while j < lines.len() && (lines[j].len() == 0 || lines[j][0] == '[')
        invariant
            lines@.map_values(|t: Vec<char>| t@) == lv,
            forall|k: int| 0 <= k < lines@.len() ==> (#[trigger] lines@[k])@ == lv[k],
            j <= lines@.len(),
            moves_part(lv, 0) == moves_part(lv, j as int),
        decreases lines@.len() - j,
    {
        j += 1;
    }
    let mut moves: Vec<char> = Vec::new();
    proof {
        if j < lines@.len() {
            assert(moves_part(lv, j as int) == join_lines(lv, j as int));
        }
    }
    let mut k: usize = j;
    while k < lines.len()
        invariant
            lines@.map_values(|t: Vec<char>| t@) == lv,
            forall|q: int| 0 <= q < lines@.len() ==> (#[trigger] lines@[q])@ == lv[q],
            j <= k <= lines@.len(),
            moves@ + join_lines(lv, k as int) == join_lines(lv, j as int),
        decreases lines@.len() - k,
    {
        let ghost before = moves@;
        moves.push('\n');
        let mut line = clone_chars(&lines[k]);
        moves.append(&mut line);
        proof {
            assert(moves@ =~= before + (seq!['\n'] + lv[k as int]));
            assert(moves@ + join_lines(lv, k + 1) =~= before + join_lines(lv, k as int));
        }
        k += 1;
    }
    proof {
        assert(join_lines(lv, lines@.len() as int) =~= Seq::<char>::empty());
        assert(moves@ =~= moves@ + join_lines(lv, lines@.len() as int));
        if j >= lines@.len() {
            assert(moves_part(lv, j as int) =~= Seq::<char>::empty());
            assert(join_lines(lv, j as int) =~= Seq::<char>::empty());
        }
    }
    (chars_to_string(info), chars_to_string(moves))
}

/// Copies a list of characters.
fn clone_chars(v: &Vec<char>) -> (r: Vec<char>)
    ensures
        r@ == v@,
{
    let mut r: Vec<char> = Vec::new();
    let mut i: usize = 0;
    while i < v.len()
        invariant
            i <= v@.len(),
            r@ == v@.take(i as int),
        decreases v@.len() - i,
    {
        r.push(v[i]);
        proof {
            assert(r@ =~= v@.take(i + 1));
        }
        i += 1;
    }
    proof {
        assert(v@.take(v@.len() as int) =~= v@);
    }
    r
}

/// The name of a tag-pair line: what stands between its opening bracket
/// and the first blank after it.
pub open spec fn tag_name(line: Seq<char>) -> Seq<char> {
    let open = token_len(line, '[') as int;
    if open >= line.len() {
        Seq::empty()
    } else {
        let rest = line.skip(open + 1);
        rest.take(token_len(rest, ' ') as int)
    }
}

/// The value of a tag-pair line: what stands between its first pair of
/// quotes.
pub open spec fn tag_value(line: Seq<char>) -> Seq<char> {
    let open = token_len(line, '"') as int;
    if open >= line.len() {
        Seq::empty()
    } else {
        let rest = line.skip(open + 1);
        rest.take(token_len(rest, '"') as int)
    }
}

/// The tag pairs of the given lines, in order, lines without a name
/// dropped.
pub open spec fn info_pairs(lines: Seq<Seq<char>>, i: int) -> Seq<(Seq<char>, Seq<char>)>
    decreases lines.len() - i,
{
    if i < 0 || i >= lines.len() {
        Seq::empty()
    } else {
        let rest = info_pairs(lines, i + 1);
        if tag_name(lines[i]).len() > 0 {
            seq![(tag_name(lines[i]), tag_value(lines[i]))] + rest
        } else {
            rest
        }
    }
}

/// Returns what stands after the first occurrence of the separator, or
/// nothing when the separator is absent.
fn after_first(v: &Vec<char>, from: usize, sep: char) -> (r: Option<usize>)
    requires
        from <= v@.len(),
    ensures
        match r {
            Some(p) => from <= p < v@.len() && token_len(v@.skip(from as int), sep) == p - from,
            None => token_len(v@.skip(from as int), sep) >= v@.skip(from as int).len(),
        },
{
    let mut j: usize = from;
    while j < v.len() && v[j] != sep
        invariant
            from <= j <= v@.len(),
            forall|k: int| from <= k < j ==> v@[k] != sep,
        decreases v@.len() - j,
    {
        j += 1;
    }
    proof {
        crate::text::lemma_token_len(v@.skip(from as int), sep);
        assert forall|k: int| 0 <= k < j - from implies v@.skip(from as int)[k] != sep by {
            assert(v@.skip(from as int)[k] == v@[from + k]);
        }
        if (j - from) < v@.skip(from as int).len() {
            assert(v@.skip(from as int)[j - from] == v@[j as int]);
        }
    }
    if j == v.len() {
        None
    } else {
        Some(j)
    }
}

/// Reads one delimited piece of a line: the characters after the first
/// occurrence of the opening character, up to the first closing character.
fn read_piece(line: &Vec<char>, open: char, close: char) -> (r: Vec<char>)
    ensures
        r@ == ({
            let o = token_len(line@, open) as int;
            if o >= line@.len() {
                Seq::<char>::empty()
            } else {
                let rest = line@.skip(o + 1);
                rest.take(token_len(rest, close) as int)
            }
        }),
{
    proof {
        assert(line@.skip(0) =~= line@);
    }
    match after_first(line, 0, open) {
        None => {
            let r: Vec<char> = Vec::new();
            proof {
                crate::text::lemma_token_len(line@, open);
                assert(r@ =~= Seq::<char>::empty());
            }
            r
        },
        Some(p) => {
            let n = line.len();
            assert(p < n);
            let start = p + 1;
            let ghost rest = line@.skip(start as int);
            let stop = match after_first(line, start, close) {
                None => line.len(),
                Some(q) => q,
            };
            proof {
                crate::text::lemma_token_len(rest, close);
            }
            let mut r: Vec<char> = Vec::new();
            let mut k: usize = start;
            while k < stop
                invariant
                    start <= k <= stop <= line@.len(),
                    rest == line@.skip(start as int),
                    r@ == rest.take(k - start),
                decreases stop - k,
            {
                r.push(line[k]);
                proof {
                    assert(rest[k - start] == line@[k as int]);
                    assert(r@ =~= rest.take(k + 1 - start));
                }
                k += 1;
            }
            proof {
                assert(r@ =~= rest.take(stop - start as int));
                assert(token_len(line@, open) == p);
                if token_len(rest, close) >= rest.len() {
                    assert(rest.take(rest.len() as int) =~= rest);
                    assert(rest.take(token_len(rest, close) as int) =~= rest);
                }
            }
            r
        },
    }
}

/// Reads the tag pairs out of the tag-pair text: one name and value per
/// line, lines without a name dropped.
pub fn parse_pgn_info(info_string: &str) -> (r: Vec<(String, String)>)
    ensures
        r@.map_values(|p: (String, String)| (p.0@, p.1@)) == info_pairs(
            split_keep(info_string@, '\n'),
            0,
        ),
{
    let chars = str_to_chars(info_string);
    let lines = crate::text::split_keep_exec(&chars, '\n');
    let ghost lv = split_keep(info_string@, '\n');
    proof {
        assert(lines@.map_values(|t: Vec<char>| t@) == lv);
        assert forall|i: int| 0 <= i < lines@.len() implies (#[trigger] lines@[i])@ == lv[i] by {
            assert(lines@.map_values(|t: Vec<char>| t@)[i] == lines@[i]@);
        }
    }
    let mut out: Vec<(String, String)> = Vec::new();
    let mut i: usize = lines.len();
    proof {
        assert(info_pairs(lv, lines@.len() as int) =~= Seq::<(Seq<char>, Seq<char>)>::empty());
        assert(out@.map_values(|p: (String, String)| (p.0@, p.1@)) =~= info_pairs(
            lv,
            lines@.len() as int,
        ));
    }
    while i > 0
        invariant
            lines@.map_values(|t: Vec<char>| t@) == lv,
            forall|k: int| 0 <= k < lines@.len() ==> (#[trigger] lines@[k])@ == lv[k],
            i <= lines@.len(),
            out@.map_values(|p: (String, String)| (p.0@, p.1@)) == info_pairs(lv, i as int),
        decreases i,
    {
        i -= 1;
        let name = read_piece(&lines[i], '[', ' ');
        let value = read_piece(&lines[i], '"', '"');
        proof {
            assert(name@ == tag_name(lv[i as int]));
            assert(value@ == tag_value(lv[i as int]));
        }
        if name.len() > 0 {
            let ghost before = out@;
            let pair = (chars_to_string(name), chars_to_string(value));
            out.insert(0, pair);
            proof {
                assert(out@.map_values(|p: (String, String)| (p.0@, p.1@)) =~= seq![
                    (tag_name(lv[i as int]), tag_value(lv[i as int])),
                ] + before.map_values(|p: (String, String)| (p.0@, p.1@)));
            }
        }
    }
    out
}

/// The move text scraped of comments and split into its words.
pub open spec fn move_tokens(moves: Seq<char>) -> Seq<Seq<char>> {
    crate::text::split_drop(scan_spec(moves, '{', '}', false, false), ' ')
}

/// What stands after the last dot of a word: the bare move of a numbered
/// token.
pub open spec fn after_last_dot(s: Seq<char>) -> Seq<char>
    decreases s.len(),
    via after_last_dot_decreases
{
    if token_len(s, '.') >= s.len() {
        s
    } else {
        after_last_dot(s.skip(token_len(s, '.') as int + 1))
    }
}

#[via_fn]
proof fn after_last_dot_decreases(s: Seq<char>) {
    crate::text::lemma_token_len(s, '.');
}

/// The turns the words of the move text parse to, words that are no move
/// dropped.
pub open spec fn turns_of_tokens(tokens: Seq<Seq<char>>, i: int) -> Seq<Turn>
    decreases tokens.len() - i,
{
    if i < 0 || i >= tokens.len() {
        Seq::empty()
    } else {
        let rest = turns_of_tokens(tokens, i + 1);
        match parse_move_spec(after_last_dot(tokens[i])) {
            Ok(t) => seq![t] + rest,
            Err(_) => rest,
        }
    }
}

/// Returns the word after its last dot.
fn after_last_dot_exec(v: Vec<char>) -> (r: Vec<char>)
    ensures
        r@ == after_last_dot(v@),
    decreases v@.len(),
{
    proof {
        assert(v@.skip(0) =~= v@);
    }
    match after_first(&v, 0, '.') {
        None => v,
        Some(p) => {
            let n = v.len();
            assert(p < n);
            let mut rest: Vec<char> = Vec::new();
            let mut k: usize = p + 1;
            while k < v.len()
                invariant
                    p + 1 <= k <= v@.len(),
                    rest@ == v@.skip(p + 1).take(k - p - 1),
                decreases v@.len() - k,
            {
                rest.push(v[k]);
                proof {
                    assert(v@.skip(p + 1)[k - p - 1] == v@[k as int]);
                    assert(rest@ =~= v@.skip(p + 1).take(k - p));
                }
                k += 1;
            }
            proof {
                assert(rest@ =~= v@.skip(p + 1));
            }
            after_last_dot_exec(rest)
        },
    }
}

/// Reads the playable turns out of the move text: comments in braces are
/// dropped, move numbers are stripped, and words that parse as moves are
/// kept in order.
pub fn parse_pgn_moves(moves_string: &str) -> (r: Vec<Turn>)
    ensures
        r@ == turns_of_tokens(move_tokens(moves_string@), 0),
        forall|i: int| 0 <= i < r@.len() ==> (#[trigger] r@[i]).wf(),
{
    let chars = str_to_chars(moves_string);
    let stripped = scan_between(&chars, '{', '}', false);
    let tokens = crate::text::split_drop_exec(&stripped, ' ');
    let ghost tv = move_tokens(moves_string@);
    proof {
        assert(tokens@.map_values(|t: Vec<char>| t@) == tv);
        assert forall|i: int| 0 <= i < tokens@.len() implies (#[trigger] tokens@[i])@ == tv[i] by {
            assert(tokens@.map_values(|t: Vec<char>| t@)[i] == tokens@[i]@);
        }
    }
    let mut out: Vec<Turn> = Vec::new();
    let mut i: usize = tokens.len();
    proof {
        assert(turns_of_tokens(tv, tokens@.len() as int) =~= Seq::<Turn>::empty());
        assert(out@ =~= turns_of_tokens(tv, tokens@.len() as int));
    }
    while i > 0
        invariant
            tokens@.map_values(|t: Vec<char>| t@) == tv,
            forall|k: int| 0 <= k < tokens@.len() ==> (#[trigger] tokens@[k])@ == tv[k],
            i <= tokens@.len(),
            out@ == turns_of_tokens(tv, i as int),
            forall|k: int| 0 <= k < out@.len() ==> (#[trigger] out@[k]).wf(),
        decreases i,
    {
        i -= 1;
        let word = clone_chars(&tokens[i]);
        let bare = after_last_dot_exec(word);
        let text = chars_to_string(bare);
        match crate::parser::parse_move(text.as_str()) {
            Ok(t) => {
                let ghost before = out@;
                out.insert(0, t);
                proof {
                    assert(out@ =~= seq![t] + before);
                }
            },
            Err(_) => {},
        }
    }
    out
}

/// Reads one record: its tag pairs and its playable turns.
pub fn read_pgn(pgn_string: &str) -> (r: (Vec<(String, String)>, Vec<Turn>))
    ensures
        r.0@.map_values(|p: (String, String)| (p.0@, p.1@)) == info_pairs(
            split_keep(info_part(split_keep(pgn_string@, '\n'), 0), '\n'),
            0,
        ),
        r.1@ == turns_of_tokens(
            move_tokens(moves_part(split_keep(pgn_string@, '\n'), 0)),
            0,
        ),
        forall|i: int| 0 <= i < r.1@.len() ==> (#[trigger] r.1@[i]).wf(),
{
    let (info, moves) = split_pgn_string(pgn_string);
    (parse_pgn_info(info.as_str()), parse_pgn_moves(moves.as_str()))
}

/// The whitespace-separated words of a text: line breaks count as blanks.
pub open spec fn whitespace_words(s: Seq<char>) -> Seq<Seq<char>> {
    crate::text::split_drop(
        s.map_values(
            |c: char|
                if c == '\n' {
                    ' '
                } else {
                    c
                },
        ),
        ' ',
    )
}

/// Returns the last whitespace-separated word of a record, where its
/// result token stands.
pub fn get_game_result(pgn_string: &str) -> (r: Option<String>)
    ensures
        match r {
            Some(w) => whitespace_words(pgn_string@).len() > 0 && w@ == whitespace_words(
                pgn_string@,
            ).last(),
            None => whitespace_words(pgn_string@).len() == 0,
        },
{
    let chars = str_to_chars(pgn_string);
    let mut norm: Vec<char> = Vec::new();
    let mut i: usize = 0;
    while i < chars.len()
        invariant
            chars@ == pgn_string@,
            i <= chars@.len(),
            norm@ == chars@.take(i as int).map_values(
                |c: char|
                    if c == '\n' {
                        ' '
                    } else {
                        c
                    },
            ),
        decreases chars@.len() - i,
    {
        let c = chars[i];
        norm.push(
            if c == '\n' {
                ' '
            } else {
                c
            },
        );
        proof {
            assert(norm@ =~= chars@.take(i + 1).map_values(
                |c: char|
                    if c == '\n' {
                        ' '
                    } else {
                        c
                    },
            ));
        }
        i += 1;
    }
    proof {
        assert(chars@.take(chars@.len() as int) =~= chars@);
    }
    let words = crate::text::split_drop_exec(&norm, ' ');
    let ghost wv = whitespace_words(pgn_string@);
    proof {
        assert(words@.map_values(|t: Vec<char>| t@) == wv);
    }
    if words.len() == 0 {
        None
    } else {
        proof {
            assert(words@.map_values(|t: Vec<char>| t@)[words@.len() - 1] == words@[words@.len()
                - 1]@);
        }
        let last = clone_chars(&words[words.len() - 1]);
        Some(chars_to_string(last))
    }
}

/// The first position at or after `i` where a blank line breaks the text:
/// two line breaks in a row.
pub open spec fn blank_from(s: Seq<char>, i: int) -> int
    decreases s.len() - i,
{
    if i < 0 || i + 1 >= s.len() {
        s.len() as int
    } else if s[i] == '\n' && s[i + 1] == '\n' {
        i
    } else {
        blank_from(s, i + 1)
    }
}

/// A blank line is never found before where the search began.
proof fn lemma_blank_from(s: Seq<char>, i: int)
    requires
        0 <= i <= s.len(),
    ensures
        i <= blank_from(s, i) <= s.len(),
        blank_from(s, i) < s.len() ==> blank_from(s, i) + 1 < s.len(),
    decreases s.len() - i,
{
    if !(i + 1 >= s.len()) && !(s[i] == '\n' && s[i + 1] == '\n') {
        lemma_blank_from(s, i + 1);
    }
}

/// The pieces of a text between blank lines, from position `i` on.
pub open spec fn split_blank(s: Seq<char>, i: int) -> Seq<Seq<char>>
    decreases s.len() - i,
    via split_blank_decreases
{
    if i < 0 || i > s.len() {
        Seq::empty()
    } else {
        let p = blank_from(s, i);
        if p >= s.len() {
            seq![s.subrange(i, s.len() as int)]
        } else {
            seq![s.subrange(i, p)] + split_blank(s, p + 2)
        }
    }
}

#[via_fn]
proof fn split_blank_decreases(s: Seq<char>, i: int) {
    if 0 <= i <= s.len() {
        lemma_blank_from(s, i);
    }
}

/// The records of a record list, paired back together: pieces are joined
/// two at a time with a line break.
pub open spec fn pair_join(parts: Seq<Seq<char>>, i: int) -> Seq<Seq<char>>
    decreases parts.len() - i,
{
    if i < 0 || i >= parts.len() {
        Seq::empty()
    } else if i + 1 < parts.len() {
        seq![parts[i] + seq!['\n'] + parts[i + 1]] + pair_join(parts, i + 2)
    } else {
        seq![parts[i]]
    }
}

/// Splits a list of records separated by blank lines into one text per
/// record: each tag-pair piece joined back to its move piece.
pub fn split_pgn_list(pgn_list_string: &str) -> (r: Vec<String>)
    ensures
        r@.map_values(|t: String| t@) == pair_join(split_blank(pgn_list_string@, 0), 0),
{
    let chars = str_to_chars(pgn_list_string);
    let mut parts: Vec<Vec<char>> = Vec::new();
    let mut from: usize = 0;
    loop
        invariant_except_break
            parts@.map_values(|t: Vec<char>| t@) + split_blank(chars@, from as int) == split_blank(
                chars@,
                0,
            ),
        invariant
            chars@ == pgn_list_string@,
            from <= chars@.len(),
        ensures
            parts@.map_values(|t: Vec<char>| t@) == split_blank(chars@, 0),
        decreases chars@.len() - from,
    {
        proof {
            lemma_blank_from(chars@, from as int);
        }
        let mut j: usize = from;
        while chars.len() > 0 && j < chars.len() - 1 && !(chars[j] == '\n' && chars[j + 1]
            == '\n')
            invariant
                from <= j,
                j <= chars@.len(),
                blank_from(chars@, from as int) == blank_from(chars@, j as int),
            decreases chars@.len() - j,
        {
            j += 1;
        }
        let p = if chars.len() == 0 || j >= chars.len() - 1 {
            chars.len()
        } else {
            j
        };
        let mut piece: Vec<char> = Vec::new();
        let mut k: usize = from;
        while k < p
            invariant
                from <= k <= p <= chars@.len(),
                piece@ == chars@.subrange(from as int, k as int),
            decreases p - k,
        {
            piece.push(chars[k]);
            proof {
                assert(piece@ =~= chars@.subrange(from as int, k + 1));
            }
            k += 1;
        }
        let ghost before = parts@;
        parts.push(piece);
        proof {
            assert(parts@.map_values(|t: Vec<char>| t@) =~= before.map_values(|t: Vec<char>| t@)
                + seq![piece@]);
        }
        if p == chars.len() {
            proof {
                assert(blank_from(chars@, from as int) >= chars@.len());
                assert(split_blank(chars@, from as int) == seq![
                    chars@.subrange(from as int, chars@.len() as int),
                ]);
                assert(parts@.map_values(|t: Vec<char>| t@) =~= before.map_values(
                    |t: Vec<char>| t@,
                ) + split_blank(chars@, from as int));
                assert(parts@.map_values(|t: Vec<char>| t@) =~= split_blank(chars@, 0));
            }
            break ;
        }
        proof {
            assert(p as int == blank_from(chars@, from as int));
            assert(split_blank(chars@, from as int) == seq![chars@.subrange(from as int, p as int)]
                + split_blank(chars@, p + 2));
            assert(parts@.map_values(|t: Vec<char>| t@) + split_blank(chars@, p + 2)
                =~= before.map_values(|t: Vec<char>| t@) + split_blank(chars@, from as int));
        }
        from = p + 2;
    }
    proof {
        assert forall|k: int|
            0 <= k < parts@.len() implies (#[trigger] parts@[k])@ == split_blank(chars@, 0)[k] by {
            assert(parts@.map_values(|t: Vec<char>| t@)[k] == parts@[k]@);
        }
    }
    let ghost pv = split_blank(chars@, 0);
    let mut out: Vec<String> = Vec::new();
    let mut i: usize = 0;
    while i + 1 < parts.len()
        invariant
            parts@.map_values(|t: Vec<char>| t@) == pv,
            forall|k: int| 0 <= k < parts@.len() ==> (#[trigger] parts@[k])@ == pv[k],
            i <= parts@.len() + 1,
            i % 2 == 0,
            out@.map_values(|t: String| t@) + pair_join(pv, i as int) == pair_join(pv, 0),
        decreases parts@.len() - i,
    {
        let ghost before = out@;
        let mut joined = clone_chars(&parts[i]);
        joined.push('\n');
        let mut second = clone_chars(&parts[i + 1]);
        joined.append(&mut second);
        proof {
            assert(joined@ =~= pv[i as int] + seq!['\n'] + pv[i + 1]);
        }
        out.push(chars_to_string(joined));
        proof {
            assert(out@.map_values(|t: String| t@) + pair_join(pv, i + 2) =~= before.map_values(
                |t: String| t@,
            ) + pair_join(pv, i as int));
        }
        i += 2;
    }
    if i < parts.len() {
        let ghost before = out@;
        let piece = clone_chars(&parts[i]);
        out.push(chars_to_string(piece));
        proof {
            assert(pair_join(pv, i as int) == seq![pv[i as int]]);
            assert(out@.map_values(|t: String| t@) =~= before.map_values(|t: String| t@)
                + pair_join(pv, i as int));
            assert(out@.map_values(|t: String| t@) =~= pair_join(pv, 0));
        }
    } else {
        proof {
            assert(pair_join(pv, i as int) =~= Seq::<Seq<char>>::empty());
            assert(out@.map_values(|t: String| t@) =~= pair_join(pv, 0));
        }
    }
    out
}

/// What one record's text carries: its tag pairs and its playable turns.
pub open spec fn record_of(chunk: Seq<char>) -> (Seq<(Seq<char>, Seq<char>)>, Seq<Turn>) {
    (
        info_pairs(split_keep(info_part(split_keep(chunk, '\n'), 0), '\n'), 0),
        turns_of_tokens(move_tokens(moves_part(split_keep(chunk, '\n'), 0)), 0),
    )
}

/// Reads a list of records separated by blank lines: the tag pairs and
/// playable turns of each.
pub fn read_pgn_list(pgn_list_string: &str) -> (r: Vec<(Vec<(String, String)>, Vec<Turn>)>)
    ensures
        ({
            let chunks = pair_join(split_blank(pgn_list_string@, 0), 0);
            &&& r@.len() == chunks.len()
            &&& forall|i: int|
                0 <= i < r@.len() ==> ((#[trigger] r@[i]).0@.map_values(
                    |p: (String, String)| (p.0@, p.1@),
                ) == record_of(chunks[i]).0 && r@[i].1@ == record_of(chunks[i]).1)
        }),
{
    let chunks = split_pgn_list(pgn_list_string);
    let ghost cv = pair_join(split_blank(pgn_list_string@, 0), 0);
    proof {
        assert(chunks@.map_values(|t: String| t@) == cv);
        assert forall|i: int| 0 <= i < chunks@.len() implies (#[trigger] chunks@[i])@ == cv[i] by {
            assert(chunks@.map_values(|t: String| t@)[i] == chunks@[i]@);
        }
    }
    let mut out: Vec<(Vec<(String, String)>, Vec<Turn>)> = Vec::new();
    let mut i: usize = 0;
    while i < chunks.len()
        invariant
            chunks@.map_values(|t: String| t@) == cv,
            forall|k: int| 0 <= k < chunks@.len() ==> (#[trigger] chunks@[k])@ == cv[k],
            i <= chunks@.len(),
            out@.len() == i,
            forall|k: int|
                0 <= k < i ==> ((#[trigger] out@[k]).0@.map_values(
                    |p: (String, String)| (p.0@, p.1@),
                ) == record_of(cv[k]).0 && out@[k].1@ == record_of(cv[k]).1),
        decreases chunks@.len() - i,
    {
        let record = read_pgn(chunks[i].as_str());
        out.push(record);
        i += 1;
    }
    out
}

} // verus!
