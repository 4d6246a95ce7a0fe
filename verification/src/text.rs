//! Character-sequence helpers: conversion between strings and character
//! lists, splitting, and the decimal codec for the clock fields.
use vstd::prelude::*;

verus! {

/// Relies on `String::from_iter` over `char`: collecting characters builds
/// the string holding exactly those characters in order.
#[verifier::external_body]
pub fn chars_to_string(v: Vec<char>) -> (r: String)
    ensures
        r@ == v@,
{
    v.into_iter().collect()
}

/// Returns the characters of a string as a list.
pub fn str_to_chars(s: &str) -> (r: Vec<char>)
    ensures
        r@ == s@,
{
    let n = s.unicode_len();
    let mut r: Vec<char> = Vec::new();
    let mut i: usize = 0;
    while i < n
        invariant
            n == s@.len(),
            i <= n,
            r@ == s@.take(i as int),
        decreases n - i,
    {
        r.push(s.get_char(i));
        proof {
            assert(r@ =~= s@.take(i + 1));
        }
        i += 1;
    }
    proof {
        assert(s@.take(n as int) =~= s@);
    }
    r
}

/// The length of the leading run of characters other than the separator.
pub open spec fn token_len(s: Seq<char>, sep: char) -> nat
    decreases s.len(),
{
    if s.len() == 0 || s[0] == sep {
        0
    } else {
        (1 + token_len(s.skip(1), sep)) as nat
    }
}

/// The leading token is never longer than the sequence.
pub proof fn lemma_token_len(s: Seq<char>, sep: char)
    ensures
        token_len(s, sep) <= s.len(),
        forall|j: int| 0 <= j < token_len(s, sep) ==> s[j] != sep,
        token_len(s, sep) < s.len() ==> s[token_len(s, sep) as int] == sep,
    decreases s.len(),
{
    if s.len() > 0 && s[0] != sep {
        lemma_token_len(s.skip(1), sep);
        let n = token_len(s, sep) as int;
        assert forall|j: int| 0 <= j < n implies s[j] != sep by {
            if j >= 1 {
                assert(s.skip(1)[j - 1] == s[j]);
            }
        }
        if n < s.len() {
            assert(s.skip(1)[n - 1] == s[n]);
        }
    }
}

/// The tokens of the sequence between separators, empty tokens dropped.
pub open spec fn split_drop(s: Seq<char>, sep: char) -> Seq<Seq<char>>
    decreases s.len(),
    via split_drop_decreases
{
    if s.len() == 0 {
        Seq::empty()
    } else if s[0] == sep {
        split_drop(s.skip(1), sep)
    } else {
        let n = token_len(s, sep) as int;
        seq![s.take(n)] + split_drop(s.skip(n), sep)
    }
}

#[via_fn]
proof fn split_drop_decreases(s: Seq<char>, sep: char) {
    lemma_token_len(s, sep);
}

/// The tokens of the sequence between separators, empty tokens kept: one
/// token more than there are separators.
pub open spec fn split_keep(s: Seq<char>, sep: char) -> Seq<Seq<char>>
    decreases s.len(),
    via split_keep_decreases
{
    let n = token_len(s, sep) as int;
    if n == s.len() {
        seq![s]
    } else {
        seq![s.take(n)] + split_keep(s.skip(n + 1), sep)
    }
}

#[via_fn]
proof fn split_keep_decreases(s: Seq<char>, sep: char) {
    lemma_token_len(s, sep);
}

/// Returns the tokens of the list between separators, dropping empty
/// tokens.
pub fn split_drop_exec(v: &Vec<char>, sep: char) -> (r: Vec<Vec<char>>)
    ensures
        r@.map_values(|t: Vec<char>| t@) == split_drop(v@, sep),
{
    let r = split_drop_from(v, sep, 0);
    proof {
        assert(v@.skip(0) =~= v@);
    }
    r
}

/// Returns the tokens of the list from the given position on, dropping
/// empty tokens.
fn split_drop_from(v: &Vec<char>, sep: char, from: usize) -> (r: Vec<Vec<char>>)
    requires
        from <= v@.len(),
    ensures
        r@.map_values(|t: Vec<char>| t@) == split_drop(v@.skip(from as int), sep),
    decreases v@.len() - from,
{
    if from == v.len() {
        let r: Vec<Vec<char>> = Vec::new();
        proof {
            assert(v@.skip(from as int) =~= Seq::<char>::empty());
            assert(r@.map_values(|t: Vec<char>| t@) =~= split_drop(v@.skip(from as int), sep));
        }
        return r;
    }
    if v[from] == sep {
        let r = split_drop_from(v, sep, from + 1);
        proof {
            assert(v@.skip(from as int).skip(1) =~= v@.skip(from + 1));
        }
        return r;
    }
    let mut j: usize = from;
    while j < v.len() && v[j] != sep
        invariant
            from <= j <= v@.len(),
            forall|k: int| from <= k < j ==> v@[k] != sep,
        decreases v@.len() - j,
    {
        j += 1;
    }
    proof {
        lemma_token_len(v@.skip(from as int), sep);
        assert forall|k: int|
            0 <= k < j - from implies v@.skip(from as int)[k] != sep by {
            assert(v@.skip(from as int)[k] == v@[from + k]);
        }
        if (j - from) < v@.skip(from as int).len() {
            assert(v@.skip(from as int)[j - from] == v@[j as int]);
        }
        assert(token_len(v@.skip(from as int), sep) == j - from);
    }
    let mut token: Vec<char> = Vec::new();
    let mut k: usize = from;
    while k < j
        invariant
            from <= k <= j <= v@.len(),
            token@ == v@.subrange(from as int, k as int),
        decreases j - k,
    {
        token.push(v[k]);
        proof {
            assert(token@ =~= v@.subrange(from as int, k + 1));
        }
        k += 1;
    }
    let mut rest = split_drop_from(v, sep, j);
    let mut r: Vec<Vec<char>> = Vec::new();
    r.push(token);
    r.append(&mut rest);
    proof {
        let f = |t: Vec<char>| t@;
        let s = v@.skip(from as int);
        let n = token_len(s, sep) as int;
        assert(s.take(n) =~= v@.subrange(from as int, j as int));
        assert(s.skip(n) =~= v@.skip(j as int));
        assert(r@.map_values(f) =~= seq![s.take(n)] + split_drop(s.skip(n), sep));
    }
    r
}

/// Returns the tokens of the list between separators, keeping empty
/// tokens.
pub fn split_keep_exec(v: &Vec<char>, sep: char) -> (r: Vec<Vec<char>>)
    ensures
        r@.map_values(|t: Vec<char>| t@) == split_keep(v@, sep),
{
    let r = split_keep_from(v, sep, 0);
    proof {
        assert(v@.skip(0) =~= v@);
    }
    r
}

/// Returns the tokens of the list from the given position on, keeping
/// empty tokens.
fn split_keep_from(v: &Vec<char>, sep: char, from: usize) -> (r: Vec<Vec<char>>)
    requires
        from <= v@.len(),
    ensures
        r@.map_values(|t: Vec<char>| t@) == split_keep(v@.skip(from as int), sep),
    decreases v@.len() - from,
{
    let mut j: usize = from;
    while j < v.len() && v[j] != sep
        invariant
            from <= j <= v@.len(),
            forall|k: int| from <= k < j ==> v@[k] != sep,
        decreases v@.len() - j,
    {
        j += 1;
    }
    proof {
        lemma_token_len(v@.skip(from as int), sep);
        assert forall|k: int|
            0 <= k < j - from implies v@.skip(from as int)[k] != sep by {
            assert(v@.skip(from as int)[k] == v@[from + k]);
        }
        if (j - from) < v@.skip(from as int).len() {
            assert(v@.skip(from as int)[j - from] == v@[j as int]);
        }
        assert(token_len(v@.skip(from as int), sep) == j - from);
    }
    let mut token: Vec<char> = Vec::new();
    let mut k: usize = from;
    while k < j
        invariant
            from <= k <= j <= v@.len(),
            token@ == v@.subrange(from as int, k as int),
        decreases j - k,
    {
        token.push(v[k]);
        proof {
            assert(token@ =~= v@.subrange(from as int, k + 1));
        }
        k += 1;
    }
    let ghost s = v@.skip(from as int);
    let ghost n = token_len(s, sep) as int;
    if j == v.len() {
        let mut r: Vec<Vec<char>> = Vec::new();
        proof {
            assert(s.take(n) =~= s);
            assert(token@ =~= s);
        }
        r.push(token);
        proof {
            assert(r@.map_values(|t: Vec<char>| t@) =~= seq![s]);
        }
        r
    } else {
        let mut rest = split_keep_from(v, sep, j + 1);
        let mut r: Vec<Vec<char>> = Vec::new();
        r.push(token);
        r.append(&mut rest);
        proof {
            let f = |t: Vec<char>| t@;
            assert(s.take(n) =~= v@.subrange(from as int, j as int));
            assert(s.skip(n + 1) =~= v@.skip(j + 1));
            assert(r@.map_values(f) =~= seq![s.take(n)] + split_keep(s.skip(n + 1), sep));
        }
        r
    }
}

/// The character for a single decimal digit.
pub open spec fn digit_char(d: int) -> char {
    if d == 0 {
        '0'
    } else if d == 1 {
        '1'
    } else if d == 2 {
        '2'
    } else if d == 3 {
        '3'
    } else if d == 4 {
        '4'
    } else if d == 5 {
        '5'
    } else if d == 6 {
        '6'
    } else if d == 7 {
        '7'
    } else if d == 8 {
        '8'
    } else {
        '9'
    }
}

/// The decimal digit a character stands for, or -1.
pub open spec fn char_digit(c: char) -> int {
    if c == '0' {
        0
    } else if c == '1' {
        1
    } else if c == '2' {
        2
    } else if c == '3' {
        3
    } else if c == '4' {
        4
    } else if c == '5' {
        5
    } else if c == '6' {
        6
    } else if c == '7' {
        7
    } else if c == '8' {
        8
    } else if c == '9' {
        9
    } else {
        -1
    }
}

/// The decimal digits of a nonnegative number, most significant first and
/// without leading zeros.
pub open spec fn dec_digits(n: int) -> Seq<char>
    decreases n,
{
    if n < 10 {
        seq![digit_char(n)]
    } else {
        dec_digits(n / 10).push(digit_char(n % 10))
    }
}

/// The number a digit sequence stands for, read most significant first;
/// meaningful only when every character is a digit.
pub open spec fn dec_value(s: Seq<char>) -> int
    decreases s.len(),
{
    if s.len() == 0 {
        0
    } else {
        dec_value(s.drop_last()) * 10 + char_digit(s.last())
    }
}

/// Every character of the sequence is a decimal digit, and there is at
/// least one.
pub open spec fn all_digits(s: Seq<char>) -> bool {
    s.len() > 0 && forall|i: int| 0 <= i < s.len() ==> char_digit(#[trigger] s[i]) >= 0
}

/// Returns the character for a single decimal digit.
fn digit_to_char(d: u8) -> (r: char)
    requires
        d < 10,
    ensures
        r == digit_char(d as int),
{
    match d {
        0 => '0',
        1 => '1',
        2 => '2',
        3 => '3',
        4 => '4',
        5 => '5',
        6 => '6',
        7 => '7',
        8 => '8',
        _ => '9',
    }
}

/// Returns the decimal digit the character stands for, or nothing.
pub(crate) fn char_to_digit(c: char) -> (r: Option<u8>)
    ensures
        match r {
            Some(d) => d < 10 && char_digit(c) == d as int,
            None => char_digit(c) == -1,
        },
{
    match c {
        '0' => Some(0),
        '1' => Some(1),
        '2' => Some(2),
        '3' => Some(3),
        '4' => Some(4),
        '5' => Some(5),
        '6' => Some(6),
        '7' => Some(7),
        '8' => Some(8),
        '9' => Some(9),
        _ => None,
    }
}

/// Appends the decimal digits of the number.
pub fn push_dec(n: u16, out: &mut Vec<char>)
    ensures
        final(out)@ == old(out)@ + dec_digits(n as int),
    decreases n,
{
    if n < 10 {
        out.push(digit_to_char(n as u8));
        proof {
            assert(out@ =~= old(out)@ + dec_digits(n as int));
        }
    } else {
        push_dec(n / 10, out);
        out.push(digit_to_char((n % 10) as u8));
        proof {
            assert(out@ =~= old(out)@ + dec_digits(n as int));
        }
    }
}

/// Parses a digit sequence as a number, refusing any other character and
/// any value that does not fit.
pub fn parse_u16_chars(v: &Vec<char>) -> (r: Option<u16>)
    ensures
        match r {
            Some(n) => all_digits(v@) && dec_value(v@) == n as int,
            None => !all_digits(v@) || dec_value(v@) > u16::MAX,
        },
{
    if v.len() == 0 {
        return None;
    }
    let mut acc: u16 = 0;
    let mut i: usize = 0;
    while i < v.len()
        invariant
            i <= v@.len(),
            v@.len() > 0,
            forall|j: int| 0 <= j < i ==> char_digit(#[trigger] v@[j]) >= 0,
            acc as int == dec_value(v@.take(i as int)),
            dec_value(v@.take(i as int)) >= 0,
        decreases v@.len() - i,
    {
        let c = v[i];
        match char_to_digit(c) {
            None => {
                return None;
            },
            Some(d) => {
                proof {
                    assert(v@.take(i + 1).drop_last() =~= v@.take(i as int));
                    assert(v@.take(i + 1).last() == v@[i as int]);
                }
                if acc > (u16::MAX - d as u16) / 10 {
                    proof {
                        lemma_dec_value_grows(v@, i as int);
                    }
                    return None;
                }
                acc = acc * 10 + d as u16;
            },
        }
        i += 1;
    }
    proof {
        assert(v@.take(v@.len() as int) =~= v@);
    }
    Some(acc)
}

/// Once a prefix stands for a value past the largest `u16`, the digits that
/// follow only grow it.
proof fn lemma_dec_value_grows(s: Seq<char>, i: int)
    requires
        0 <= i < s.len(),
        forall|j: int| 0 <= j <= i ==> char_digit(#[trigger] s[j]) >= 0,
        dec_value(s.take(i + 1)) > u16::MAX,
    ensures
        dec_value(s) > u16::MAX || !all_digits(s),
    decreases s.len() - i,
{
    if i + 1 == s.len() {
        assert(s.take(i + 1) =~= s);
    } else {
        if char_digit(s[i + 1]) >= 0 {
            assert(s.take(i + 2).drop_last() =~= s.take(i + 1));
            assert(char_digit(s.take(i + 2).last()) >= 0);
            lemma_dec_value_grows(s, i + 1);
        }
    }
}

/// Parses a digit sequence as a number, refusing any other character and
/// any value that does not fit.
pub fn parse_u8_chars(v: &Vec<char>) -> (r: Option<u8>)
    ensures
        match r {
            Some(n) => all_digits(v@) && dec_value(v@) == n as int,
            None => !all_digits(v@) || dec_value(v@) > u8::MAX,
        },
{
    match parse_u16_chars(v) {
        Some(n) => {
            if n <= 255 {
                Some(n as u8)
            } else {
                proof {
                    lemma_dec_value_nonneg(v@);
                }
                None
            }
        },
        None => {
            proof {
                if all_digits(v@) {
                    lemma_dec_value_nonneg(v@);
                }
            }
            None
        },
    }
}

/// A digit sequence never stands for a negative number.
proof fn lemma_dec_value_nonneg(s: Seq<char>)
    requires
        forall|i: int| 0 <= i < s.len() ==> char_digit(#[trigger] s[i]) >= 0,
    ensures
        dec_value(s) >= 0,
    decreases s.len(),
{
    if s.len() > 0 {
        lemma_dec_value_nonneg(s.drop_last());
    }
}

} // verus!
