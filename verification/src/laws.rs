//! What holds of every source text: laws of the grammar, proved from its
//! definitions.
//!
//! The lexer returns exactly the token that [`next_token`] describes and
//! moves to exactly the offset that [`next_offset`] gives, so each law stated
//! here of those functions holds of every call of the lexer.

use crate::chars::{digit_value, is_digit, is_letter, is_space, lowered, Radix};
use crate::grammar::{
    identifier_at, keyword, lemma_numeral_nonnegative, lemma_numeral_push, lemma_run_end,
    lemma_run_end_unique, name_start, next_offset, next_token, number_at, numeral, run_end,
    starts_name, token_at, token_start, unexpected_character, Run, Scan, ABSTRACT,
    INVALID_HEXADECIMAL, INVALID_IDENTIFIER,
};
use crate::position::{
    lemma_position_bounds, lemma_position_monotonic, lemma_position_within_line, position_at,
};
use crate::token::Kind;
use vstd::prelude::*;

verus! {

/// The next token is the end-of-input token exactly where nothing but
/// whitespace is left, and the lexer is then at the end of the text.
pub proof fn lemma_end_of_input(s: Seq<char>, from: int)
    requires
        0 <= from <= s.len(),
    ensures
        next_token(s, from).kind is EOF <==> (forall|i: int|
            from <= i < s.len() ==> is_space(#[trigger] s[i])),
        next_token(s, from).kind is EOF ==> next_offset(s, from) == s.len(),
{
    lemma_run_end(s, from, Run::Blank);
}

/// At the end of the text every call gives the same end-of-input token, with
/// an empty literal, and leaves the lexer where it is.
pub proof fn lemma_end_of_input_stays(s: Seq<char>, from: int)
    requires
        0 <= from <= s.len(),
        next_token(s, from).kind is EOF,
    ensures
        next_token(s, next_offset(s, from)) == next_token(s, from),
        next_offset(s, next_offset(s, from)) == next_offset(s, from),
        next_token(s, from).literal.len() == 0,
{
    lemma_end_of_input(s, from);
}

/// Every token but the end-of-input token reads at least one character, and
/// no token reads beyond the end of the text. So a caller that asks for tokens
/// until the end-of-input token comes is done after at most as many tokens as
/// the text has characters.
pub proof fn lemma_progress(s: Seq<char>, from: int)
    requires
        0 <= from <= s.len(),
    ensures
        from <= token_start(s, from) <= next_offset(s, from) <= s.len(),
        !(next_token(s, from).kind is EOF) ==> token_start(s, from) < next_offset(s, from),
        next_token(s, from).literal.len() == next_offset(s, from) - token_start(s, from),
{
    lemma_run_end(s, from, Run::Blank);
    let p = token_start(s, from);
    if p < s.len() {
        lemma_token_extent(s, p);
    }
}

/// A character that begins no token is an invalid token by itself: the
/// message names it, the literal is the character, and the lexer continues
/// after it.
pub proof fn lemma_unexpected_character(s: Seq<char>, from: int)
    requires
        0 <= from <= s.len(),
        token_start(s, from) < s.len(),
        ({
            let c = s[token_start(s, from)];
            c != ',' && !is_digit(c) && !is_letter(c) && c != '_'
        }),
    ensures
        next_token(s, from).kind == Kind::Invalid(unexpected_character(s[token_start(s, from)])),
        next_token(s, from).literal == seq![s[token_start(s, from)]],
        next_offset(s, from) == token_start(s, from) + 1,
{
    lemma_run_end(s, from, Run::Blank);
}

/// No token holds whitespace, so none holds a line feed: a token ends on the
/// line on which it starts, not before its start, and as many columns after it
/// as it has characters beyond the first.
pub proof fn lemma_token_span(s: Seq<char>, from: int)
    requires
        0 <= from <= s.len(),
    ensures
        forall|i: int|
            0 <= i < next_token(s, from).literal.len() ==> !is_space(
                #[trigger] next_token(s, from).literal[i],
            ),
        1 <= next_token(s, from).start.line == next_token(s, from).end.line,
        1 <= next_token(s, from).start.column <= next_token(s, from).end.column,
        next_token(s, from).literal.len() > 0 ==> next_token(s, from).end.column == next_token(
            s,
            from,
        ).start.column + next_token(s, from).literal.len() - 1,
{
    lemma_run_end(s, from, Run::Blank);
    let p = token_start(s, from);
    let end = token_at(s, p).end;
    lemma_position_bounds(s, p);
    if p < s.len() {
        lemma_token_extent(s, p);
        lemma_position_within_line(s, p, end - 1);
    }
}

/// Tokens come in reading order: a token starts at the place of the cursor or
/// after it, and the cursor is then moved to a place after the end of the
/// token, or left at it where nothing was read.
pub proof fn lemma_tokens_in_order(s: Seq<char>, from: int)
    requires
        0 <= from <= s.len(),
    ensures
        position_at(s, from).not_after(next_token(s, from).start),
        next_token(s, from).end.not_after(position_at(s, next_offset(s, from))),
{
    lemma_progress(s, from);
    lemma_position_monotonic(s, from, token_start(s, from));
}

/// The keyword table ignores case: names that are equal in lower case stand
/// for the same.
pub proof fn lemma_keyword_ignores_case(a: Seq<char>, b: Seq<char>)
    requires
        lowered(a) == lowered(b),
    ensures
        keyword(a) == keyword(b),
{
}

/// A name that is not escaped is the keyword token exactly where it spells the
/// reserved word in some mix of upper and lower case, and else the identifier
/// of that name.
pub proof fn lemma_reserved_word(s: Seq<char>, p: int)
    requires
        0 <= p < s.len(),
        is_letter(s[p]),
    ensures
        ({
            let name = s.subrange(p, run_end(s, p, Run::Name));
            token_at(s, p).kind == if lowered(name) == ABSTRACT@ {
                Kind::Abstract
            } else {
                Kind::Identifier(name)
            }
        }),
{
}

/// An escaped name is an identifier whatever it spells, and the escape is no
/// part of the name.
pub proof fn lemma_escaped_name(s: Seq<char>, p: int)
    requires
        0 <= p,
        p + 1 < s.len(),
        s[p] == '_',
        is_letter(s[p + 1]),
    ensures
        token_at(s, p).kind == Kind::Identifier(s.subrange(p + 1, run_end(s, p + 1, Run::Name))),
        token_at(s, p).end == run_end(s, p + 1, Run::Name),
{
}

/// An underscore that no letter follows is invalid, and only the underscore
/// is read.
pub proof fn lemma_escape_without_name(s: Seq<char>, p: int)
    requires
        0 <= p < s.len(),
        s[p] == '_',
        p + 1 < s.len() ==> !is_letter(s[p + 1]),
    ensures
        token_at(s, p) == (Scan { kind: Kind::Invalid(INVALID_IDENTIFIER@), end: p + 1 }),
{
}

/// The keyword table holds one word: a name is reserved exactly where it is
/// `abstract` in lower case, and it then stands for the keyword token.
pub proof fn lemma_keyword_table(name: Seq<char>)
    ensures
        ABSTRACT@ == seq!['a', 'b', 's', 't', 'r', 'a', 'c', 't'],
        keyword(name) is Some <==> lowered(name) == ABSTRACT@,
        keyword(name) matches Some(kind) ==> kind == Kind::Abstract,
{
    reveal_strlit("abstract");
}

/// The text at `p` is an invalid identifier exactly where no letter follows
/// the optional escape, and then nothing but the escape is read. Otherwise
/// the name that is read begins with a letter.
pub proof fn lemma_identifier_needs_letter(s: Seq<char>, p: int)
    requires
        0 <= p <= s.len(),
    ensures
        identifier_at(s, p).kind == Kind::Invalid(INVALID_IDENTIFIER@) <==> !starts_name(
            s,
            name_start(s, p),
        ),
        !starts_name(s, name_start(s, p)) ==> identifier_at(s, p).end == name_start(s, p),
        p <= name_start(s, p) <= p + 1,
        starts_name(s, name_start(s, p)) ==> name_start(s, p) < identifier_at(s, p).end
            <= s.len(),
        identifier_at(s, p).kind matches Kind::Identifier(name) ==> name.len() > 0 && is_letter(
            name[0],
        ),
{
    let first = name_start(s, p);
    if starts_name(s, first) {
        lemma_run_end(s, first + 1, Run::Name);
    }
}

/// A digit begins a number and never an identifier: the token is an integer
/// that is not negative and not beyond the largest `i64`, or it is the invalid
/// token of a hexadecimal prefix without digits.
pub proof fn lemma_digit_begins_number(s: Seq<char>, p: int)
    requires
        0 <= p < s.len(),
        is_digit(s[p]),
    ensures
        token_at(s, p) == number_at(s, p),
        match token_at(s, p).kind {
            Kind::Integer(value) => 0 <= value <= i64::MAX,
            Kind::Invalid(message) => message == INVALID_HEXADECIMAL@ && token_at(s, p).end == p
                + 2,
            _ => false,
        },
{
    lemma_numeral_nonnegative(
        s.subrange(p + 2, run_end(s, p + 2, Run::Digits(Radix::Hexadecimal))),
        16,
    );
    lemma_numeral_nonnegative(s.subrange(p, run_end(s, p, Run::Digits(Radix::Octal))), 8);
    lemma_numeral_nonnegative(s.subrange(p, run_end(s, p, Run::Digits(Radix::Decimal))), 10);
}

/// The digit of value `d`, for `d` from 0 to 15. The letters among the digits
/// are in upper case where `upper` is set.
pub open spec fn digit_char(d: int, upper: bool) -> char {
    if d < 10 {
        ('0' as int + d) as char
    } else if upper {
        ('A' as int + d - 10) as char
    } else {
        ('a' as int + d - 10) as char
    }
}

/// The digits that write `n` in base `radix`, without a leading zero; the
/// single digit `0` for zero.
pub open spec fn digits_of(n: int, radix: Radix, upper: bool) -> Seq<char>
    decreases n,
{
    if n < radix.base() {
        seq![digit_char(n, upper)]
    } else {
        digits_of(n / radix.base(), radix, upper).push(digit_char(n % radix.base(), upper))
    }
}

/// The literal that writes `n` in base `radix`: the digits alone in base 10,
/// behind `0` in base 8, and behind `0x`, or `0X` with upper-case digits, in
/// base 16.
pub open spec fn printed(n: int, radix: Radix, upper: bool) -> Seq<char> {
    match radix {
        Radix::Decimal => digits_of(n, radix, upper),
        Radix::Octal => seq!['0'] + digits_of(n, radix, upper),
        Radix::Hexadecimal => seq![
            '0',
            if upper {
                'X'
            } else {
                'x'
            },
        ] + digits_of(n, radix, upper),
    }
}

/// Reading inverts writing: the literal that writes a number in base 10, 8 or
/// 16 is, as a whole, one integer token of that number, for every number from
/// zero to the largest `i64`.
pub proof fn lemma_round_trip(n: int, radix: Radix, upper: bool)
    requires
        0 <= n <= i64::MAX,
    ensures
        next_token(printed(n, radix, upper), 0).kind == Kind::Integer(n),
        next_token(printed(n, radix, upper), 0).literal == printed(n, radix, upper),
        next_offset(printed(n, radix, upper), 0) == printed(n, radix, upper).len(),
{
    let digits = digits_of(n, radix, upper);
    let s = printed(n, radix, upper);
    let k = Run::Digits(radix);
    lemma_digits_of(n, radix, upper);
    match radix {
        Radix::Decimal => {
            if n == 0 {
                lemma_run_end_unique(s, 0, Run::Digits(Radix::Octal), 1);
                assert(s.subrange(0, 1) =~= s);
                assert(numeral(s.drop_last(), 8) == 0);
            } else {
                lemma_run_end_unique(s, 0, k, s.len() as int);
                assert(s.subrange(0, s.len() as int) =~= s);
            }
        },
        Radix::Octal => {
            lemma_run_end_unique(s, 0, k, s.len() as int);
            assert(s.subrange(0, s.len() as int) =~= s);
            lemma_numeral_leading_zero(digits, radix.base());
        },
        Radix::Hexadecimal => {
            lemma_run_end_unique(s, 2, k, s.len() as int);
            assert(s.subrange(2, s.len() as int) =~= digits);
        },
    }
}

/// A digit character is a digit of every base above its value, and has that
/// value.
proof fn lemma_digit_char(d: int, radix: Radix, upper: bool)
    requires
        0 <= d < radix.base(),
    ensures
        radix.has_digit(digit_char(d, upper)),
        digit_value(digit_char(d, upper)) == d,
{
}

/// The digits that write a number are digits of the base, begin with no zero
/// unless the number is zero, and write that number.
proof fn lemma_digits_of(n: int, radix: Radix, upper: bool)
    requires
        0 <= n,
    ensures
        digits_of(n, radix, upper).len() >= 1,
        forall|i: int|
            0 <= i < digits_of(n, radix, upper).len() ==> radix.has_digit(
                #[trigger] digits_of(n, radix, upper)[i],
            ),
        n > 0 ==> digits_of(n, radix, upper)[0] != '0',
        n == 0 ==> digits_of(n, radix, upper) == seq!['0'],
        numeral(digits_of(n, radix, upper), radix.base()) == n,
    decreases n,
{
    let base = radix.base();
    if n < base {
        let digits = seq![digit_char(n, upper)];
        assert(numeral(digits.drop_last(), base) == 0);
    } else {
        let rest = digits_of(n / base, radix, upper);
        lemma_digits_of(n / base, radix, upper);
        lemma_numeral_push(rest, digit_char(n % base, upper), base);
    }
}

/// A zero before the digits changes nothing of the number that they write.
proof fn lemma_numeral_leading_zero(digits: Seq<char>, radix: int)
    ensures
        numeral(seq!['0'] + digits, radix) == numeral(digits, radix),
    decreases digits.len(),
{
    let zero = seq!['0'];
    if digits.len() == 0 {
        assert(numeral(zero.drop_last(), radix) == 0);
    } else {
        lemma_numeral_leading_zero(digits.drop_last(), radix);
        assert((zero + digits).drop_last() =~= zero + digits.drop_last());
    }
}

/// The token at an offset inside the text reads at least one character, ends
/// inside the text, and reads no whitespace after its first character.
proof fn lemma_token_extent(s: Seq<char>, p: int)
    requires
        0 <= p < s.len(),
    ensures
        p < token_at(s, p).end <= s.len(),
        forall|i: int| p < i < token_at(s, p).end ==> !is_space(#[trigger] s[i]),
{
    if is_digit(s[p]) {
        if s[p] == '0' && p + 1 < s.len() && (s[p + 1] == 'x' || s[p + 1] == 'X') {
            lemma_run_end(s, p + 2, Run::Digits(Radix::Hexadecimal));
        } else if s[p] == '0' {
            lemma_run_end(s, p + 1, Run::Digits(Radix::Octal));
        } else {
            lemma_run_end(s, p + 1, Run::Digits(Radix::Decimal));
        }
    } else if is_letter(s[p]) {
        lemma_run_end(s, p + 1, Run::Name);
    } else if s[p] == '_' {
        if p + 1 < s.len() && is_letter(s[p + 1]) {
            lemma_run_end(s, p + 2, Run::Name);
        }
    }
}

} // verus!
