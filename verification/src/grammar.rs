//! The source grammar, as functions of the source text.
//!
//! A token is described by where it begins, what it is and where it ends.
//! [`token_at`] gives the token that begins at an offset, and [`next_token`]
//! the token that follows an offset once whitespace is passed over. The
//! contracts of the lexer are stated over these functions.

use crate::chars::{digit_value, is_digit, is_letter, is_name_char, is_space, lowered, Radix};
use crate::position::position_at;
use crate::token::{Kind, Lexeme};
use vstd::prelude::*;

verus! {

/// The kinds of character runs that the grammar reads greedily.
#[derive(Clone, Copy, Debug, PartialEq, Eq)]
pub enum Run {
    /// Whitespace between tokens.
    Blank,
    /// The digits of an integer literal in some base.
    Digits(Radix),
    /// The characters of a name.
    Name,
}

/// Whether `c` continues a run of kind `k`.
pub open spec fn in_run(k: Run, c: char) -> bool {
    match k {
        Run::Blank => is_space(c),
        Run::Digits(radix) => radix.has_digit(c),
        Run::Name => is_name_char(c),
    }
}

/// The offset at which the longest run of kind `k` that begins at `from`
/// ends: the first offset from `from` on whose character is not of the run, or
/// the length of `s`.
pub open spec fn run_end(s: Seq<char>, from: int, k: Run) -> int
    decreases s.len() - from,
{
    if 0 <= from < s.len() && in_run(k, s[from]) {
        run_end(s, from + 1, k)
    } else {
        from
    }
}

/// The number that `digits` write in base `radix`, most significant digit
/// first.
pub open spec fn numeral(digits: Seq<char>, radix: int) -> int
    decreases digits.len(),
{
    if digits.len() == 0 {
        0
    } else {
        numeral(digits.drop_last(), radix) * radix + digit_value(digits.last())
    }
}

/// The value that an integer token carries for a literal that writes `n`: the
/// number itself, or the largest `i64` where the number is beyond it.
pub open spec fn saturated(n: int) -> int {
    if n > i64::MAX {
        i64::MAX as int
    } else {
        n
    }
}

/// The reserved word, in lower case.
pub const ABSTRACT: &'static str = "abstract";

/// The message of the token for text that begins like an identifier and is
/// none.
pub const INVALID_IDENTIFIER: &'static str = "Invalid Identifier";

/// The message of the token for a hexadecimal prefix without digits.
pub const INVALID_HEXADECIMAL: &'static str = "Invalid hexadecimal literal";

/// The beginning of the message of the token for a character that begins no
/// token. The character and a closing quote follow it.
pub const UNEXPECTED_CHARACTER: &'static str = "Unexpected character '";

/// The keyword table: the kind of token that a name stands for when it is
/// reserved. Case is ignored.
pub open spec fn keyword(name: Seq<char>) -> Option<Kind> {
    if lowered(name) == ABSTRACT@ {
        Some(Kind::Abstract)
    } else {
        None
    }
}

/// The message of the token for a character that begins no token. It names
/// the character between quotes.
pub open spec fn unexpected_character(c: char) -> Seq<char> {
    UNEXPECTED_CHARACTER@.push(c).push('\'')
}

/// What was read from some offset: the kind of token, and the offset at which
/// reading stopped.
pub struct Scan {
    pub kind: Kind,
    pub end: int,
}

/// The integer whose digits, in base `radix`, begin at `from`: it reads the
/// longest run of such digits, and its value is the number that they write,
/// held at the largest `i64`.
pub open spec fn integer_at(s: Seq<char>, from: int, radix: Radix) -> Scan {
    let end = run_end(s, from, Run::Digits(radix));
    Scan { kind: Kind::Integer(saturated(numeral(s.subrange(from, end), radix.base()))), end }
}

/// The numeric literal at `p`, where `s[p]` is a digit.
///
/// `0x` or `0X` begins a hexadecimal literal, whose digits follow the
/// prefix; without a digit there the prefix is invalid by itself. Any other
/// `0` begins an octal literal, which ends before the first character that is
/// no octal digit. Every other digit begins a decimal literal.
pub open spec fn number_at(s: Seq<char>, p: int) -> Scan
    recommends
        0 <= p < s.len(),
        is_digit(s[p]),
{
    if s[p] == '0' && p + 1 < s.len() && (s[p + 1] == 'x' || s[p + 1] == 'X') {
        if p + 2 < s.len() && Radix::Hexadecimal.has_digit(s[p + 2]) {
            integer_at(s, p + 2, Radix::Hexadecimal)
        } else {
            Scan { kind: Kind::Invalid(INVALID_HEXADECIMAL@), end: p + 2 }
        }
    } else if s[p] == '0' {
        integer_at(s, p, Radix::Octal)
    } else {
        integer_at(s, p, Radix::Decimal)
    }
}

/// The offset at which the name of the identifier at `p` begins: after the
/// escaping underscore, where there is one.
pub open spec fn name_start(s: Seq<char>, p: int) -> int {
    if 0 <= p < s.len() && s[p] == '_' {
        p + 1
    } else {
        p
    }
}

/// Whether a name begins at `first`: a letter is there.
pub open spec fn starts_name(s: Seq<char>, first: int) -> bool {
    0 <= first < s.len() && is_letter(s[first])
}

/// The identifier or keyword at `p`.
///
/// An underscore at `p` escapes the name after it: it is read, it is no part
/// of the name, and the name is an identifier even where it is spelled like a
/// keyword. The name begins with a letter and runs on over letters, digits and
/// underscores. Where it does not begin with a letter the text is invalid,
/// and nothing but the escape is read.
pub open spec fn identifier_at(s: Seq<char>, p: int) -> Scan {
    let first = name_start(s, p);
    let escaped = first != p;
    if starts_name(s, first) {
        let end = run_end(s, first, Run::Name);
        let name = s.subrange(first, end);
        let kind = if escaped {
            Kind::Identifier(name)
        } else {
            match keyword(name) {
                Some(reserved) => reserved,
                None => Kind::Identifier(name),
            }
        };
        Scan { kind, end }
    } else {
        Scan { kind: Kind::Invalid(INVALID_IDENTIFIER@), end: first }
    }
}

/// The token that begins at `p`.
///
/// At the end of the input it is the end-of-input token, which reads nothing.
/// Otherwise the character at `p` decides: a comma, a digit for a number, a
/// letter or an underscore for an identifier or keyword. Any other character
/// is invalid by itself, and is read.
pub open spec fn token_at(s: Seq<char>, p: int) -> Scan {
    if !(0 <= p < s.len()) {
        Scan { kind: Kind::EOF, end: p }
    } else if s[p] == ',' {
        Scan { kind: Kind::Comma, end: p + 1 }
    } else if is_digit(s[p]) {
        number_at(s, p)
    } else if is_letter(s[p]) || s[p] == '_' {
        identifier_at(s, p)
    } else {
        Scan { kind: Kind::Invalid(unexpected_character(s[p])), end: p + 1 }
    }
}

/// The token for what was read from `p`: its literal is the text from `p` to
/// where reading stopped, it starts at the place of `p` and ends at the place
/// of the last character read. A token for which nothing was read ends where
/// it starts.
pub open spec fn spanning(s: Seq<char>, p: int, scan: Scan) -> Lexeme {
    Lexeme {
        kind: scan.kind,
        literal: s.subrange(p, scan.end),
        start: position_at(s, p),
        end: if scan.end > p {
            position_at(s, scan.end - 1)
        } else {
            position_at(s, p)
        },
    }
}

/// The offset at which the token that follows `from` begins: the end of the
/// whitespace at `from`.
pub open spec fn token_start(s: Seq<char>, from: int) -> int {
    run_end(s, from, Run::Blank)
}

/// The token that follows offset `from`.
pub open spec fn next_token(s: Seq<char>, from: int) -> Lexeme {
    let p = token_start(s, from);
    spanning(s, p, token_at(s, p))
}

/// The offset just after the token that follows offset `from`.
pub open spec fn next_offset(s: Seq<char>, from: int) -> int {
    token_at(s, token_start(s, from)).end
}

/// A run ends inside the text, holds only characters of its kind, and stops
/// at the first character that is not of its kind.
pub proof fn lemma_run_end(s: Seq<char>, from: int, k: Run)
    requires
        0 <= from <= s.len(),
    ensures
        from <= run_end(s, from, k) <= s.len(),
        forall|i: int| from <= i < run_end(s, from, k) ==> in_run(k, #[trigger] s[i]),
        run_end(s, from, k) < s.len() ==> !in_run(k, s[run_end(s, from, k)]),
    decreases s.len() - from,
{
    if from < s.len() && in_run(k, s[from]) {
        lemma_run_end(s, from + 1, k);
    }
}

/// An offset that a run reaches and cannot pass is the end of the run.
pub proof fn lemma_run_end_unique(s: Seq<char>, from: int, k: Run, end: int)
    requires
        0 <= from <= end <= s.len(),
        forall|i: int| from <= i < end ==> in_run(k, #[trigger] s[i]),
        end < s.len() ==> !in_run(k, s[end]),
    ensures
        run_end(s, from, k) == end,
    decreases end - from,
{
    if from < end {
        lemma_run_end_unique(s, from + 1, k, end);
    }
}

/// A numeral with one more digit at its end.
pub proof fn lemma_numeral_push(digits: Seq<char>, c: char, radix: int)
    ensures
        numeral(digits.push(c), radix) == numeral(digits, radix) * radix + digit_value(c),
{
    assert(digits.push(c).drop_last() =~= digits);
}

/// No numeral is negative.
pub proof fn lemma_numeral_nonnegative(digits: Seq<char>, radix: int)
    requires
        0 <= radix,
    ensures
        0 <= numeral(digits, radix),
    decreases digits.len(),
{
    if digits.len() > 0 {
        lemma_numeral_nonnegative(digits.drop_last(), radix);
        assert(0 <= numeral(digits.drop_last(), radix) * radix) by (nonlinear_arith)
            requires
                0 <= numeral(digits.drop_last(), radix),
                0 <= radix,
        ;
    }
}

} // verus!
