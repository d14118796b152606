//! The lexer: a cursor over the source text, and the scanner built on it.

use crate::chars::{
    is_ascii_alphabetic, is_ascii_digit, is_ascii_whitespace, is_digit, is_letter,
    is_name_continue, is_space, lowered, to_digit, Radix,
};
use crate::grammar::{
    identifier_at, in_run, integer_at, keyword, lemma_numeral_nonnegative, lemma_numeral_push,
    lemma_run_end, lemma_run_end_unique, name_start, next_offset, next_token, number_at, numeral,
    saturated, spanning, starts_name, token_start, unexpected_character, Run, Scan, ABSTRACT,
    INVALID_HEXADECIMAL, INVALID_IDENTIFIER, UNEXPECTED_CHARACTER,
};
use crate::position::{lemma_position_bounds, lemma_position_within_line, position_at, Position};
use crate::text::to_lowercase;
use crate::token::{Kind, Token, TokenType};
use vstd::prelude::*;
use vstd::string::StringExecFns;

verus! {

/// A lexer over one source text.
///
/// It is made for a text once and returns the tokens of the text one after
/// the other. The text is never changed; only the cursor moves.
pub struct Lexer {
    /// The source text, followed by one end marker. The marker is never read
    /// as a character: it gives the buffer a slot for the end of the text, so
    /// that the offset and the place just after the last character can always
    /// be counted.
    input: Vec<char>,
    /// The offset of the current character.
    pos: usize,
    /// The current character, or `None` at the end of the text.
    ch: Option<char>,
    /// The characters read for the token in progress.
    literal: String,
    /// The place at which the token in progress began.
    start: Position,
    /// The place of the current character.
    current: Position,
}

/// The mathematical value of a [`Lexer`] between two tokens: the text that
/// it reads and how far it has read.
pub struct Cursor {
    /// The source text.
    pub source: Seq<char>,
    /// The number of characters of the source text that were read.
    pub offset: int,
}

impl View for Lexer {
    type V = Cursor;

    closed spec fn view(&self) -> Cursor {
        Cursor { source: self.source(), offset: self.pos as int }
    }
}

impl Lexer {
    /// The source text: the buffer without its end marker.
    spec fn source(&self) -> Seq<char> {
        self.input@.drop_last()
    }

    /// The cursor is inside the text or at its end, and the current character
    /// and place are those of its offset.
    spec fn anchored(&self) -> bool {
        &&& self.input@.len() > 0
        &&& self.pos < self.input@.len()
        &&& self.ch == if self.pos + 1 < self.input@.len() {
            Some(self.input@[self.pos as int])
        } else {
            None::<char>
        }
        &&& self.current@ == position_at(self.source(), self.pos as int)
    }

    /// The lexer is between two tokens: no token is in progress.
    pub closed spec fn wf(&self) -> bool {
        &&& self.anchored()
        &&& self.literal@.len() == 0
    }

    /// A lexer between two tokens is inside its text or at the end of it.
    pub proof fn lemma_offset_in_source(&self)
        requires
            self.wf(),
        ensures
            0 <= self@.offset <= self@.source.len(),
    {
    }

    /// The offset at which the token in progress began: the literal holds
    /// what was read since.
    spec fn mark(&self) -> int {
        self.pos - self.literal@.len()
    }

    /// A token is in progress: the start marker is set to the place of
    /// [`Self::mark`], the literal holds the text read since, and no line feed
    /// is part of it.
    spec fn scanning(&self) -> bool {
        &&& self.anchored()
        &&& 0 <= self.mark()
        &&& self.start@ == position_at(self.source(), self.mark())
        &&& self.literal@ == self.source().subrange(self.mark(), self.pos as int)
        &&& forall|i: int| self.mark() <= i < self.pos ==> self.source()[i] != '\n'
    }

    /// A lexer for `src`, before its first character.
    pub fn new(src: &str) -> (lexer: Lexer)
        ensures
            lexer.wf(),
            lexer@.source == src@,
            lexer@.offset == 0,
    {
        let mut input: Vec<char> = Vec::new();
        for c in it: src.chars()
            invariant
                it.seq() == src@,
                input@ == src@.take(it.index()),
        {
            input.push(c);
        }
        input.push('\0');
        let ch = if input.len() > 1 {
            Some(input[0])
        } else {
            None
        };
        Lexer {
            input,
            pos: 0,
            ch,
            literal: String::new(),
            start: Position { line: 1, column: 1 },
            current: Position { line: 1, column: 1 },
        }
    }

    /// The next token of the text.
    ///
    /// Whitespace before the token is passed over and belongs to no token.
    /// At the end of the text the token is the end-of-input token, and so it is
    /// at every later call. Text that is no token comes back as an invalid
    /// token, after which the lexer continues: it never fails.
    pub fn next(&mut self) -> (token: Token)
        requires
            old(self).wf(),
        ensures
            final(self).wf(),
            final(self)@.source == old(self)@.source,
            final(self)@.offset == next_offset(old(self)@.source, old(self)@.offset),
            0 <= old(self)@.offset <= final(self)@.offset <= final(self)@.source.len(),
            token@ == next_token(old(self)@.source, old(self)@.offset),
    {
        self.skip_whitespace();
        match self.ch {
            None => {
                self.mark_start();
                self.advance();
                self.emit(TokenType::EOF)
            },
            Some(c) => {
                if c == ',' {
                    self.mark_start();
                    self.consume();
                    self.emit(TokenType::Comma)
                } else if is_ascii_digit(c) {
                    self.number()
                } else if is_ascii_alphabetic(c) || c == '_' {
                    self.identifier()
                } else {
                    proof {
                        lemma_run_end(self.source(), old(self).pos as int, Run::Blank);
                    }
                    self.mark_start();
                    self.consume();
                    self.emit(TokenType::Invalid(unexpected_character_message(c)))
                }
            },
        }
    }

    /// Sets the start marker to the place of the current character. A token
    /// begins here.
    fn mark_start(&mut self)
        requires
            old(self).wf(),
        ensures
            final(self).scanning(),
            final(self).mark() == old(self).pos,
            final(self).start == old(self).current,
            final(self).current == old(self).current,
            final(self).literal == old(self).literal,
            final(self).pos == old(self).pos,
            final(self).ch == old(self).ch,
            final(self).input == old(self).input,
    {
        self.start = self.current;
        proof {
            assert(self.literal@ =~= self.source().subrange(self.pos as int, self.pos as int));
        }
    }

    /// Moves the cursor over the current character: to the next column, or to
    /// the beginning of the next line after a line feed. At the end of the
    /// text the cursor stays.
    fn advance(&mut self)
        requires
            old(self).anchored(),
        ensures
            final(self).anchored(),
            final(self).input == old(self).input,
            final(self).literal == old(self).literal,
            final(self).start == old(self).start,
            final(self).pos == if old(self).ch is Some {
                old(self).pos + 1
            } else {
                old(self).pos as int
            },
            final(self).current@ == match old(self).ch {
                Some(c) => old(self).current@.after(c),
                None => old(self).current@,
            },
    {
        match self.ch {
            None => {},
            Some(c) => {
                proof {
                    lemma_position_bounds(self.source(), self.pos as int);
                    assert(self.pos + 1 < self.input.len());
                }
                if c == '\n' {
                    self.current.line += 1;
                    self.current.column = 1;
                } else {
                    self.current.column += 1;
                }
                self.pos += 1;
                if self.pos + 1 < self.input.len() {
                    self.ch = Some(self.input[self.pos]);
                } else {
                    self.ch = None;
                }
            },
        }
    }

    /// Reads the current character into the literal of the token in progress.
    /// At the end of the text nothing is read.
    fn consume(&mut self)
        requires
            old(self).scanning(),
            old(self).ch != Some('\n'),
        ensures
            final(self).scanning(),
            final(self).mark() == old(self).mark(),
            final(self).input == old(self).input,
            final(self).start == old(self).start,
            final(self).literal@ == match old(self).ch {
                Some(c) => old(self).literal@.push(c),
                None => old(self).literal@,
            },
            final(self).pos == if old(self).ch is Some {
                old(self).pos + 1
            } else {
                old(self).pos as int
            },
    {
        match self.ch {
            None => {},
            Some(c) => {
                self.literal.push(c);
                self.advance();
                proof {
                    let src = self.source();
                    assert(self.literal@ =~= src.subrange(self.mark(), self.pos as int));
                }
            },
        }
    }

    /// The character after the current one, if there is one.
    fn peek(&self) -> (next: Option<char>)
        requires
            self.anchored(),
        ensures
            next == if self.pos + 1 < self.source().len() {
                Some(self.source()[self.pos + 1])
            } else {
                None::<char>
            },
    {
        if self.input.len() - self.pos > 2 {
            Some(self.input[self.pos + 1])
        } else {
            None
        }
    }

    /// Whether the current character continues a run of kind `k`.
    fn at(&self, k: Run) -> (b: bool)
        requires
            self.anchored(),
        ensures
            b == (self.pos < self.source().len() && in_run(k, self.source()[self.pos as int])),
    {
        match self.ch {
            None => false,
            Some(c) => match k {
                Run::Blank => is_ascii_whitespace(c),
                Run::Digits(radix) => radix.is_digit(c),
                Run::Name => is_name_continue(c),
            },
        }
    }

    /// Ends the token in progress: returns it as a token of type `t` and
    /// empties the literal for the next one.
    fn emit(&mut self, t: TokenType) -> (token: Token)
        requires
            old(self).scanning(),
        ensures
            token@ == spanning(
                old(self).source(),
                old(self).mark(),
                Scan { kind: t@, end: old(self).pos as int },
            ),
            final(self).wf(),
            final(self).input == old(self).input,
            final(self).start == old(self).start,
            final(self).pos == old(self).pos,
    {
        proof {
            let src = self.source();
            lemma_position_within_line(src, self.mark(), self.pos as int);
        }
        let end = if self.current == self.start {
            self.start
        } else {
            Position { line: self.current.line, column: self.current.column - 1 }
        };
        let token = Token { token_type: t, literal: self.literal.clone(), start: self.start, end };
        self.literal = String::new();
        token
    }

    /// Moves the cursor over the whitespace before the next token.
    fn skip_whitespace(&mut self)
        requires
            old(self).wf(),
        ensures
            final(self).wf(),
            final(self).input == old(self).input,
            final(self).start == old(self).start,
            final(self).literal == old(self).literal,
            final(self).pos == token_start(old(self).source(), old(self).pos as int),
            old(self).pos <= final(self).pos,
            forall|i: int|
                old(self).pos <= i < final(self).pos ==> is_space(#[trigger] old(self).source()[i]),
            final(self).ch matches Some(c) ==> !is_space(c),
    {
        let ghost src = self.source();
        let ghost from = self.pos as int;
        while self.at(Run::Blank)
            invariant
                self.wf(),
                self.input == old(self).input,
                self.start == old(self).start,
                self.literal == old(self).literal,
                src == self.source(),
                0 <= from <= self.pos <= src.len(),
                forall|i: int| from <= i < self.pos ==> in_run(Run::Blank, #[trigger] src[i]),
            decreases src.len() - self.pos,
        {
            self.advance();
        }
        proof {
            lemma_run_end_unique(src, from, Run::Blank, self.pos as int);
        }
    }

    /// Looks `ident` up in the keyword table: the type of token that it
    /// stands for where it is reserved, whatever its case.
    fn lookup_keyword(&self, ident: &str) -> (found: Option<TokenType>)
        ensures
            found is Some <==> lowered(ident@) == ABSTRACT@,
            found matches Some(reserved) ==> reserved@ == Kind::Abstract,
            match found {
                Some(reserved) => keyword(ident@) == Some(reserved@),
                None => keyword(ident@) is None,
            },
    {
        let lowercase_ident = to_lowercase(ident);
        let reserved = String::from_str(ABSTRACT);
        if lowercase_ident == reserved {
            Some(TokenType::Abstract)
        } else {
            None
        }
    }

    /// Reads the name at the cursor into the token in progress, which begins
    /// here, and gives the name without its escape. Where no letter begins
    /// the name, the name is empty and only the escape is read.
    fn read_identifier(&mut self) -> (ident: String)
        requires
            old(self).wf(),
        ensures
            final(self).scanning(),
            final(self).mark() == old(self).pos,
            final(self).input == old(self).input,
            final(self).start == old(self).current,
            final(self).pos == identifier_at(old(self).source(), old(self).pos as int).end,
            ident@ == old(self).source().subrange(
                name_start(old(self).source(), old(self).pos as int),
                final(self).pos as int,
            ),
            ident@.len() == 0 <==> !starts_name(
                old(self).source(),
                name_start(old(self).source(), old(self).pos as int),
            ),
            ident@.len() == 0 ==> final(self).pos == name_start(
                old(self).source(),
                old(self).pos as int,
            ),
            ident@.len() > 0 ==> is_letter(ident@[0]),
    {
        let ghost src = self.source();
        let mut ident = String::new();
        self.mark_start();
        if self.ch == Some('_') {
            self.consume();
        }
        let ghost first = self.pos as int;
        if self.at_letter() {
            while self.at(Run::Name)
                invariant
                    self.scanning(),
                    self.mark() == old(self).pos,
                    self.input == old(self).input,
                    src == self.source(),
                    0 <= first <= self.pos <= src.len(),
                    forall|i: int| first <= i < self.pos ==> in_run(Run::Name, #[trigger] src[i]),
                    ident@ == src.subrange(first, self.pos as int),
                decreases src.len() - self.pos,
            {
                let c = self.ch.unwrap();
                ident.push(c);
                self.consume();
            }
            proof {
                lemma_run_end_unique(src, first, Run::Name, self.pos as int);
            }
        }
        ident
    }

    /// Whether the current character is a letter.
    fn at_letter(&self) -> (b: bool)
        requires
            self.anchored(),
        ensures
            b == (self.pos < self.source().len() && is_letter(self.source()[self.pos as int])),
    {
        match self.ch {
            None => false,
            Some(c) => is_ascii_alphabetic(c),
        }
    }

    /// Reads the identifier or keyword at the cursor.
    ///
    /// A leading underscore escapes the name: it belongs to the literal and
    /// not to the name, and the name is an identifier whatever it spells.
    /// Where no letter begins the name the token is invalid.
    pub fn identifier(&mut self) -> (token: Token)
        requires
            old(self).wf(),
        ensures
            final(self).wf(),
            final(self)@.source == old(self)@.source,
            final(self)@.offset == identifier_at(old(self)@.source, old(self)@.offset).end,
            0 <= old(self)@.offset <= final(self)@.offset <= final(self)@.source.len(),
            token@ == spanning(
                old(self)@.source,
                old(self)@.offset,
                identifier_at(old(self)@.source, old(self)@.offset),
            ),
    {
        let match_keyword = self.ch != Some('_');
        let ident = self.read_identifier();
        if ident.as_str().is_empty() {
            return self.emit(TokenType::Invalid(String::from_str(INVALID_IDENTIFIER)));
        }
        if match_keyword {
            match self.lookup_keyword(ident.as_str()) {
                None => self.emit(TokenType::Identifier(ident)),
                Some(t) => self.emit(t),
            }
        } else {
            self.emit(TokenType::Identifier(ident))
        }
    }

    /// Reads the digits of base `radix` at the cursor and gives the number
    /// that they write, or the largest `i64` where the number is beyond it.
    fn read_digits(&mut self, radix: Radix) -> (value: i64)
        requires
            old(self).scanning(),
        ensures
            final(self).scanning(),
            final(self).mark() == old(self).mark(),
            final(self).input == old(self).input,
            final(self).start == old(self).start,
            integer_at(old(self).source(), old(self).pos as int, radix) == (Scan {
                kind: Kind::Integer(value as int),
                end: final(self).pos as int,
            }),
            old(self).pos <= final(self).pos,
    {
        let ghost src = self.source();
        let ghost from = self.pos as int;
        let base = radix.number();
        let mut value: i64 = 0;
        while self.at(Run::Digits(radix))
            invariant
                self.scanning(),
                self.mark() == old(self).mark(),
                self.input == old(self).input,
                src == self.source(),
                base == radix.base(),
                0 <= from <= self.pos <= src.len(),
                forall|i: int| from <= i < self.pos ==> radix.has_digit(#[trigger] src[i]),
                value == saturated(numeral(src.subrange(from, self.pos as int), base as int)),
            decreases src.len() - self.pos,
        {
            let c = self.ch.unwrap();
            proof {
                let digits = src.subrange(from, self.pos as int);
                assert(src.subrange(from, self.pos + 1) =~= digits.push(c));
                lemma_numeral_push(digits, c, base as int);
                lemma_numeral_nonnegative(digits, base as int);
            }
            value = shift_in(value, base, to_digit(c));
            self.consume();
        }
        proof {
            lemma_run_end_unique(src, from, Run::Digits(radix), self.pos as int);
        }
        value
    }

    /// Reads the numeric literal at the cursor, which is at a digit.
    ///
    /// A literal whose number is beyond the largest `i64` is an integer token
    /// of that largest value.
    fn number(&mut self) -> (token: Token)
        requires
            old(self).wf(),
            old(self).pos < old(self).source().len(),
            is_digit(old(self).source()[old(self).pos as int]),
        ensures
            final(self).wf(),
            final(self).input == old(self).input,
            token@ == spanning(
                old(self).source(),
                old(self).pos as int,
                number_at(old(self).source(), old(self).pos as int),
            ),
            final(self).pos == number_at(old(self).source(), old(self).pos as int).end,
            old(self).pos < final(self).pos,
            final(self).start == old(self).current,
    {
        let ghost src = self.source();
        let ghost p = self.pos as int;
        let zero = self.ch == Some('0');
        let next = self.peek();
        self.mark_start();
        if zero && (next == Some('x') || next == Some('X')) {
            self.consume();
            self.consume();
            if !self.at(Run::Digits(Radix::Hexadecimal)) {
                return self.emit(TokenType::Invalid(String::from_str(INVALID_HEXADECIMAL)));
            }
            let value = self.read_digits(Radix::Hexadecimal);
            self.emit(TokenType::Integer(value))
        } else if zero {
            proof {
                lemma_run_end(src, p + 1, Run::Digits(Radix::Octal));
            }
            let value = self.read_digits(Radix::Octal);
            self.emit(TokenType::Integer(value))
        } else {
            proof {
                lemma_run_end(src, p + 1, Run::Digits(Radix::Decimal));
            }
            let value = self.read_digits(Radix::Decimal);
            self.emit(TokenType::Integer(value))
        }
    }
}

/// The message for a character that begins no token. It names the character.
fn unexpected_character_message(c: char) -> (message: String)
    ensures
        message@ == unexpected_character(c),
{
    let mut message = String::from_str(UNEXPECTED_CHARACTER);
    message.push(c);
    message.push('\'');
    message
}

/// The value with one more digit appended, held at the largest `i64`.
fn shift_in(value: i64, radix: i64, digit: i64) -> (shifted: i64)
    requires
        0 <= value,
        1 <= radix,
        0 <= digit,
    ensures
        shifted == saturated(value * radix + digit),
        0 <= shifted,
{
    assert(0 <= value * radix) by (nonlinear_arith)
        requires
            0 <= value,
            1 <= radix,
    ;
    match value.checked_mul(radix) {
        Some(scaled) => match scaled.checked_add(digit) {
            Some(sum) => sum,
            None => i64::MAX,
        },
        None => i64::MAX,
    }
}

} // verus!
