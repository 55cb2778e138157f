//! The scanner: it owns the source text and a cursor into it, and hands out
//! one token per call.

use vstd::prelude::*;
use vstd::slice::slice_subrange;
use vstd::string::*;
use vstd::utf8::*;
use crate::bytes::{
    digit, letter, whitespace, ByteClass, ASTERISK, BANG, COMMA, DIGIT_0, DIGIT_9, EQUALS,
    GREATER_THAN, LEFT_BRACE, LEFT_PAREN, LESS_THAN, LOWER_A, LOWER_Z, MINUS, NUL, PLUS,
    RIGHT_BRACE, RIGHT_PAREN, SEMICOLON, SLASH, UNDERSCORE, UPPER_A, UPPER_Z,
};
use crate::grammar::{
    ascii_text, byte_at, lemma_eof_repeats, lemma_run_end, lemma_step_bounds, next_step, run_end,
};
use crate::token::{Token, TokenView};

verus! {

/// A scanner over one source text.
///
/// Every scanner that [`Lexer::new`] or [`Lexer::from_bytes`] hands out is
/// well formed, and every method keeps it so.
pub struct Lexer {
    /// The source text; it never changes.
    input: Vec<u8>,
    /// Index of the current byte. Each advance raises it by one, also
    /// behind the end of the text.
    position: usize,
    /// Index of the next byte to read: always one more than `position`.
    read_position: usize,
    /// The current byte; the end-of-input byte behind the end of the text.
    ch: u8,
}

/// Calls `String::from_utf8_lossy` and takes the text out of what it returns.
/// Bytes that are valid UTF-8 are claimed to come back as the characters
/// that they encode. Of other bytes nothing is claimed.
#[verifier::external_body]
fn lossy_text(bytes: &[u8]) -> (text: String)
    ensures
        valid_utf8(bytes@) ==> text@ == decode_utf8(bytes@),
{
    String::from_utf8_lossy(bytes).into_owned()
}

/// ASCII bytes are valid UTF-8 and encode the characters that they spell.
proof fn lemma_ascii_decodes(bytes: Seq<u8>)
    requires
        forall|i: int| 0 <= i < bytes.len() ==> bytes[i] < 128,
    ensures
        valid_utf8(bytes),
        decode_utf8(bytes) == ascii_text(bytes),
{
    let chars = ascii_text(bytes);
    assert(is_ascii_chars(chars));
    is_ascii_chars_encode_utf8(chars);
    assert forall|i: int| 0 <= i < bytes.len() implies encode_utf8(chars)[i] == bytes[i] by {
        assert(chars[i] as u8 == bytes[i]);
    }
    assert(encode_utf8(chars) =~= bytes);
    encode_utf8_valid_utf8(chars);
    encode_utf8_decode_utf8(chars);
}

impl Lexer {
    /// The source text.
    pub closed spec fn text(&self) -> Seq<u8> {
        self.input@
    }

    /// The index of the current byte: the place at which the scan stands.
    pub closed spec fn cursor(&self) -> int {
        self.position as int
    }

    /// The index of the next byte to read.
    pub closed spec fn next_index(&self) -> int {
        self.read_position as int
    }

    /// The current byte.
    pub closed spec fn current(&self) -> u8 {
        self.ch
    }

    /// The three cursor fields agree with each other and with the text: the
    /// next index is one more than the cursor, and the current byte is the
    /// byte of the text under the cursor, or the end-of-input byte behind
    /// the end of the text.
    pub open spec fn wf(&self) -> bool {
        &&& 0 <= self.cursor()
        &&& self.next_index() == self.cursor() + 1
        &&& self.next_index() <= usize::MAX
        &&& self.current() == byte_at(self.text(), self.cursor())
    }

    /// A scanner over `input` with its first byte loaded.
    pub fn from_bytes(input: Vec<u8>) -> (lexer: Lexer)
        ensures
            lexer.wf(),
            lexer.text() == input@,
            lexer.cursor() == 0,
            lexer.next_index() == 1,
            lexer.current() == byte_at(input@, 0),
    {
        let ch = if input.len() > 0 {
            input[0]
        } else {
            NUL
        };
        Lexer { input, position: 0, read_position: 1, ch }
    }

    /// A scanner over the UTF-8 bytes of `input` with the first loaded.
    pub fn new(input: String) -> (lexer: Lexer)
        ensures
            lexer.wf(),
            lexer.text() == encode_utf8(input@),
            lexer.cursor() == 0,
            lexer.next_index() == 1,
            lexer.current() == byte_at(encode_utf8(input@), 0),
    {
        Lexer::from_bytes(input.as_str().as_bytes_vec())
    }

    /// The index of the current byte.
    pub fn position(&self) -> (index: usize)
        ensures
            index == self.cursor(),
    {
        self.position
    }

    /// The index of the next byte to read.
    pub fn read_position(&self) -> (index: usize)
        ensures
            index == self.next_index(),
    {
        self.read_position
    }

    /// The current byte.
    pub fn ch(&self) -> (b: u8)
        ensures
            b == self.current(),
    {
        self.ch
    }

    /// Moves the cursor on by one byte, also behind the end of the text,
    /// where the current byte is the end-of-input byte. The next index
    /// after the move must fit in `usize`.
    pub fn read_char(&mut self)
        requires
            old(self).wf(),
            old(self).cursor() + 1 < usize::MAX,
        ensures
            final(self).wf(),
            final(self).text() == old(self).text(),
            final(self).cursor() == old(self).cursor() + 1,
            final(self).next_index() == old(self).cursor() + 2,
            final(self).current() == byte_at(old(self).text(), old(self).cursor() + 1),
    {
        if self.read_position >= self.input.len() {
            self.ch = NUL
        } else {
            self.ch = self.input[self.read_position];
        }
        self.position = self.read_position;
        self.read_position += 1;
    }

    /// The byte after the current one; the cursor does not move.
    pub fn peek_char(&self) -> (b: u8)
        requires
            self.wf(),
        ensures
            b == byte_at(self.text(), self.cursor() + 1),
    {
        if self.read_position >= self.input.len() {
            NUL
        } else {
            self.input[self.read_position]
        }
    }

    /// Moves the cursor past the whitespace it stands on, if any. The text
    /// must be short enough for the index behind its end to fit in `usize`.
    pub fn skip_whitespace(&mut self)
        requires
            old(self).wf(),
            old(self).text().len() < usize::MAX,
        ensures
            final(self).wf(),
            final(self).text() == old(self).text(),
            final(self).cursor() == run_end(
                old(self).text(),
                old(self).cursor(),
                ByteClass::Whitespace,
            ),
            final(self).next_index() == final(self).cursor() + 1,
            final(self).current() == byte_at(final(self).text(), final(self).cursor()),
    {
        while whitespace(self.ch)
            invariant
                self.wf(),
                self.input@ == old(self).input@,
                self.input.len() < usize::MAX,
                run_end(self.input@, self.position as int, ByteClass::Whitespace) == run_end(
                    old(self).input@,
                    old(self).position as int,
                    ByteClass::Whitespace,
                ),
            decreases self.input.len() - self.position,
        {
            self.read_char();
        }
    }

    /// Moves the cursor past the letters it stands on, and returns them.
    /// The cursor must stand inside the text or at its end, and the text
    /// must be short enough for the index behind its end to fit in `usize`.
    pub fn read_identifier(&mut self) -> (word: String)
        requires
            old(self).wf(),
            old(self).cursor() <= old(self).text().len(),
            old(self).text().len() < usize::MAX,
        ensures
            final(self).wf(),
            final(self).text() == old(self).text(),
            final(self).cursor() == run_end(old(self).text(), old(self).cursor(), ByteClass::Letter),
            final(self).next_index() == final(self).cursor() + 1,
            final(self).current() == byte_at(final(self).text(), final(self).cursor()),
            word@ == ascii_text(old(self).text().subrange(old(self).cursor(), final(self).cursor())),
    {
        let position = self.position;
        while letter(self.ch)
            invariant
                self.wf(),
                self.input@ == old(self).input@,
                self.input.len() < usize::MAX,
                position == old(self).position,
                position <= self.position <= self.input.len(),
                run_end(self.input@, self.position as int, ByteClass::Letter) == run_end(
                    old(self).input@,
                    position as int,
                    ByteClass::Letter,
                ),
            decreases self.input.len() - self.position,
        {
            self.read_char();
        }
        proof {
            lemma_run_end(self.input@, position as int, ByteClass::Letter);
            lemma_ascii_decodes(self.input@.subrange(position as int, self.position as int));
        }
        lossy_text(slice_subrange(self.input.as_slice(), position, self.position))
    }

    /// Moves the cursor past the digits it stands on, and returns them.
    /// The cursor must stand inside the text or at its end, and the text
    /// must be short enough for the index behind its end to fit in `usize`.
    pub fn read_number(&mut self) -> (digits: String)
        requires
            old(self).wf(),
            old(self).cursor() <= old(self).text().len(),
            old(self).text().len() < usize::MAX,
        ensures
            final(self).wf(),
            final(self).text() == old(self).text(),
            final(self).cursor() == run_end(old(self).text(), old(self).cursor(), ByteClass::Digit),
            final(self).next_index() == final(self).cursor() + 1,
            final(self).current() == byte_at(final(self).text(), final(self).cursor()),
            digits@ == ascii_text(
                old(self).text().subrange(old(self).cursor(), final(self).cursor()),
            ),
    {
        let position = self.position;
        while digit(self.ch)
            invariant
                self.wf(),
                self.input@ == old(self).input@,
                self.input.len() < usize::MAX,
                position == old(self).position,
                position <= self.position <= self.input.len(),
                run_end(self.input@, self.position as int, ByteClass::Digit) == run_end(
                    old(self).input@,
                    position as int,
                    ByteClass::Digit,
                ),
            decreases self.input.len() - self.position,
        {
            self.read_char();
        }
        proof {
            lemma_run_end(self.input@, position as int, ByteClass::Digit);
            lemma_ascii_decodes(self.input@.subrange(position as int, self.position as int));
        }
        lossy_text(slice_subrange(self.input.as_slice(), position, self.position))
    }

    /// Passes over whitespace, reads one token and moves the cursor behind
    /// it. On the end-of-input byte the token is `Eof` and the cursor
    /// stays, so every later call returns `Eof` again. The text must be
    /// short enough for the index behind its end to fit in `usize`.
    pub fn next_token(&mut self) -> (token: Token)
        requires
            old(self).wf(),
            old(self).text().len() < usize::MAX,
        ensures
            final(self).wf(),
            final(self).text() == old(self).text(),
            token@ == next_step(old(self).text(), old(self).cursor()).token,
            final(self).cursor() == next_step(old(self).text(), old(self).cursor()).end,
            final(self).next_index() == final(self).cursor() + 1,
            final(self).current() == byte_at(final(self).text(), final(self).cursor()),
            old(self).cursor() <= final(self).cursor(),
            old(self).cursor() <= old(self).text().len() ==> final(self).cursor()
                <= old(self).text().len(),
            token@ == TokenView::Eof ==> next_step(final(self).text(), final(self).cursor()).token
                == TokenView::Eof,
            token@ == TokenView::Eof ==> next_step(final(self).text(), final(self).cursor()).end
                == final(self).cursor(),
    {
        proof {
            lemma_step_bounds(self.input@, self.position as int);
            lemma_eof_repeats(self.input@, self.position as int);
        }
        self.skip_whitespace();
        let token = match self.ch {
            EQUALS => {
                if self.peek_char() == EQUALS {
                    self.read_char();
                    Token::Eq
                } else {
                    Token::Assign
                }
            },
            PLUS => Token::Plus,
            MINUS => Token::Minus,
            BANG => {
                if self.peek_char() == EQUALS {
                    self.read_char();
                    Token::NotEq
                } else {
                    Token::Bang
                }
            },
            SLASH => Token::Slash,
            ASTERISK => Token::Asterisk,
            LESS_THAN => Token::Lt,
            GREATER_THAN => Token::Gt,
            COMMA => Token::Comma,
            SEMICOLON => Token::Semicolon,
            LEFT_PAREN => Token::LParen,
            RIGHT_PAREN => Token::RParen,
            LEFT_BRACE => Token::LBrace,
            RIGHT_BRACE => Token::RBrace,
            LOWER_A..=LOWER_Z | UPPER_A..=UPPER_Z | UNDERSCORE => {
                let word = self.read_identifier();
                return Token::from_word(word);
            },
            DIGIT_0..=DIGIT_9 => {
                return Token::Int(self.read_number());
            },
            NUL => {
                return Token::Eof;
            },
            _ => Token::Illegal,
        };
        self.read_char();
        token
    }
}

} // verus!
