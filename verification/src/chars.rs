//! Character classes of the source grammar, and the values of digits.
//!
//! Only ASCII characters belong to any class: every other character is
//! unexpected wherever it occurs.

use vstd::prelude::*;

verus! {

/// ASCII whitespace: space, horizontal tab, line feed, form feed and carriage
/// return.
pub open spec fn is_space(c: char) -> bool {
    c == ' ' || c == '\t' || c == '\n' || c == '\x0C' || c == '\r'
}

/// The decimal digits `0` to `9`.
pub open spec fn is_digit(c: char) -> bool {
    '0' <= c <= '9'
}

/// The hexadecimal digits, in either case.
pub open spec fn is_hex_digit(c: char) -> bool {
    is_digit(c) || 'a' <= c <= 'f' || 'A' <= c <= 'F'
}

/// The letters `a` to `z` and `A` to `Z`.
pub open spec fn is_letter(c: char) -> bool {
    'a' <= c <= 'z' || 'A' <= c <= 'Z'
}

/// The characters that may follow the first letter of a name.
pub open spec fn is_name_char(c: char) -> bool {
    is_letter(c) || is_digit(c) || c == '_'
}

/// The value of a hexadecimal digit; `0` for any other character.
pub open spec fn digit_value(c: char) -> int {
    if is_digit(c) {
        c as int - '0' as int
    } else if 'a' <= c <= 'f' {
        c as int - 'a' as int + 10
    } else if 'A' <= c <= 'F' {
        c as int - 'A' as int + 10
    } else {
        0
    }
}

/// The bases in which integer literals are written.
#[derive(Clone, Copy, Debug, PartialEq, Eq)]
pub enum Radix {
    Octal,
    Decimal,
    Hexadecimal,
}

impl Radix {
    /// The base as a number: 8, 10 or 16.
    pub open spec fn base(self) -> int {
        match self {
            Radix::Octal => 8,
            Radix::Decimal => 10,
            Radix::Hexadecimal => 16,
        }
    }

    /// Whether `c` is a digit of this base: a hexadecimal digit whose value
    /// is below the base.
    pub open spec fn has_digit(self, c: char) -> bool {
        is_hex_digit(c) && digit_value(c) < self.base()
    }

    /// The base as a number.
    pub fn number(self) -> (base: i64)
        ensures
            base == self.base(),
    {
        match self {
            Radix::Octal => 8,
            Radix::Decimal => 10,
            Radix::Hexadecimal => 16,
        }
    }

    /// Whether `c` is a digit of this base.
    pub fn is_digit(self, c: char) -> (b: bool)
        ensures
            b == self.has_digit(c),
    {
        is_ascii_hexdigit(c) && to_digit(c) < self.number()
    }
}

/// The lower-case form of an ASCII letter; any other character unchanged.
pub open spec fn lower(c: char) -> char {
    if 'A' <= c <= 'Z' {
        (c as int + 32) as char
    } else {
        c
    }
}

/// A sequence of characters with each ASCII letter in lower case.
pub open spec fn lowered(s: Seq<char>) -> Seq<char> {
    Seq::new(s.len(), |i: int| lower(s[i]))
}

pub fn is_ascii_whitespace(c: char) -> (b: bool)
    ensures
        b == is_space(c),
{
    c == ' ' || c == '\t' || c == '\n' || c == '\x0C' || c == '\r'
}

pub fn is_ascii_digit(c: char) -> (b: bool)
    ensures
        b == is_digit(c),
{
    '0' <= c && c <= '9'
}

pub fn is_ascii_hexdigit(c: char) -> (b: bool)
    ensures
        b == is_hex_digit(c),
{
    ('0' <= c && c <= '9') || ('a' <= c && c <= 'f') || ('A' <= c && c <= 'F')
}

pub fn is_ascii_alphabetic(c: char) -> (b: bool)
    ensures
        b == is_letter(c),
{
    ('a' <= c && c <= 'z') || ('A' <= c && c <= 'Z')
}

/// Whether `c` may stand inside a name: a letter, a digit or an underscore.
pub fn is_name_continue(c: char) -> (b: bool)
    ensures
        b == is_name_char(c),
{
    is_ascii_alphabetic(c) || is_ascii_digit(c) || c == '_'
}

/// The value of `c` as a hexadecimal digit, and `0` where it is none.
pub fn to_digit(c: char) -> (d: i64)
    ensures
        d == digit_value(c),
        0 <= d < 16,
{
    let code: u32 = c as u32;
    if '0' <= c && c <= '9' {
        (code - 48) as i64
    } else if 'a' <= c && c <= 'f' {
        (code - 97 + 10) as i64
    } else if 'A' <= c && c <= 'F' {
        (code - 65 + 10) as i64
    } else {
        0
    }
}

pub fn to_ascii_lowercase(c: char) -> (l: char)
    ensures
        l == lower(c),
{
    if 'A' <= c && c <= 'Z' {
        let code: u8 = c as u8;
        (code + 32) as char
    } else {
        c
    }
}

} // verus!
