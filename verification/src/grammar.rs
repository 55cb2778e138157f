//! The lexical grammar, as mathematics: which token begins at a place in a
//! text, and where the scan stands afterwards.

use vstd::prelude::*;
use crate::bytes::{
    in_class, is_digit, is_letter, is_whitespace, ByteClass, ASTERISK, BANG, COMMA, EQUALS, GREATER_THAN,
    LEFT_BRACE, LEFT_PAREN, LESS_THAN, MINUS, NUL, PLUS, RIGHT_BRACE, RIGHT_PAREN, SEMICOLON,
    SLASH,
};
use crate::token::TokenView;

verus! {

/// The byte at index `i` of `text`; past either end, the end-of-input byte.
pub open spec fn byte_at(text: Seq<u8>, i: int) -> u8 {
    if 0 <= i < text.len() {
        text[i]
    } else {
        NUL
    }
}

/// Where the maximal run of bytes of `class` that begins at `from` ends:
/// the first index at or after `from` whose byte is not of that class.
pub open spec fn run_end(text: Seq<u8>, from: int, class: ByteClass) -> int
    decreases text.len() - from,
{
    if 0 <= from < text.len() && in_class(class, text[from]) {
        run_end(text, from + 1, class)
    } else {
        from
    }
}

/// The characters that a sequence of ASCII bytes spells.
pub open spec fn ascii_text(bytes: Seq<u8>) -> Seq<char> {
    Seq::new(bytes.len(), |i: int| bytes[i] as char)
}

/// The token for a run of letters: a keyword where the run spells one, else
/// a name that carries the run.
pub open spec fn word_token(word: Seq<char>) -> TokenView {
    if word == "fn"@ {
        TokenView::Function
    } else if word == "let"@ {
        TokenView::Let
    } else if word == "true"@ {
        TokenView::True
    } else if word == "false"@ {
        TokenView::False
    } else if word == "if"@ {
        TokenView::If
    } else if word == "else"@ {
        TokenView::Else
    } else if word == "return"@ {
        TokenView::Return
    } else {
        TokenView::Ident(word)
    }
}

/// The token that a byte forms by itself, for the twelve bytes that do so
/// whatever follows them.
pub open spec fn symbol_token(b: u8) -> Option<TokenView> {
    if b == PLUS {
        Some(TokenView::Plus)
    } else if b == MINUS {
        Some(TokenView::Minus)
    } else if b == SLASH {
        Some(TokenView::Slash)
    } else if b == ASTERISK {
        Some(TokenView::Asterisk)
    } else if b == LESS_THAN {
        Some(TokenView::Lt)
    } else if b == GREATER_THAN {
        Some(TokenView::Gt)
    } else if b == COMMA {
        Some(TokenView::Comma)
    } else if b == SEMICOLON {
        Some(TokenView::Semicolon)
    } else if b == LEFT_PAREN {
        Some(TokenView::LParen)
    } else if b == RIGHT_PAREN {
        Some(TokenView::RParen)
    } else if b == LEFT_BRACE {
        Some(TokenView::LBrace)
    } else if b == RIGHT_BRACE {
        Some(TokenView::RBrace)
    } else {
        None
    }
}

/// One step of the scan: the token found, the index of its first byte, and
/// the index at which the scan stands after it.
pub struct Step {
    pub token: TokenView,
    pub start: int,
    pub end: int,
}

/// The token that begins at `start`, where `start` is not on whitespace.
///
/// The rules, in order: `==` and `!=` before `=` and `!`; the single
/// symbols; a maximal run of letters; a maximal run of digits; the end of
/// the input, which consumes nothing; any other byte is illegal and is
/// consumed alone.
pub open spec fn token_at(text: Seq<u8>, start: int) -> Step {
    let b = byte_at(text, start);
    if b == EQUALS {
        if byte_at(text, start + 1) == EQUALS {
            Step { token: TokenView::Eq, start, end: start + 2 }
        } else {
            Step { token: TokenView::Assign, start, end: start + 1 }
        }
    } else if b == BANG {
        if byte_at(text, start + 1) == EQUALS {
            Step { token: TokenView::NotEq, start, end: start + 2 }
        } else {
            Step { token: TokenView::Bang, start, end: start + 1 }
        }
    } else if symbol_token(b) is Some {
        Step { token: symbol_token(b)->0, start, end: start + 1 }
    } else if is_letter(b) {
        let end = run_end(text, start, ByteClass::Letter);
        Step { token: word_token(ascii_text(text.subrange(start, end))), start, end }
    } else if is_digit(b) {
        let end = run_end(text, start, ByteClass::Digit);
        Step { token: TokenView::Int(ascii_text(text.subrange(start, end))), start, end }
    } else if b == NUL {
        Step { token: TokenView::Eof, start, end: start }
    } else {
        Step { token: TokenView::Illegal, start, end: start + 1 }
    }
}

/// The step that a scan standing at `from` takes: it passes over the
/// whitespace there and reads the token behind it.
pub open spec fn next_step(text: Seq<u8>, from: int) -> Step {
    token_at(text, run_end(text, from, ByteClass::Whitespace))
}

/// Where a scan that began at the front of `text` stands after `n` steps.
pub open spec fn cursor_after(text: Seq<u8>, n: nat) -> int
    decreases n,
{
    if n == 0 {
        0
    } else {
        next_step(text, cursor_after(text, (n - 1) as nat)).end
    }
}

/// The token that step `n` of a scan of `text` yields, counted from 0.
pub open spec fn nth_token(text: Seq<u8>, n: nat) -> TokenView {
    next_step(text, cursor_after(text, n)).token
}

/// A run stays inside the text, holds only bytes of its class, and stops
/// at a byte that is not of its class.
pub proof fn lemma_run_end(text: Seq<u8>, from: int, class: ByteClass)
    requires
        0 <= from,
    ensures
        from <= run_end(text, from, class),
        from <= text.len() ==> run_end(text, from, class) <= text.len(),
        text.len() <= from ==> run_end(text, from, class) == from,
        forall|k: int| from <= k < run_end(text, from, class) ==> in_class(class, #[trigger] text[k]),
        !in_class(class, byte_at(text, run_end(text, from, class))),
    decreases text.len() - from,
{
    if from < text.len() && in_class(class, text[from]) {
        lemma_run_end(text, from + 1, class);
    }
}

/// The end of a run is the only index with the properties that
/// [`lemma_run_end`] states.
pub proof fn lemma_run_end_unique(text: Seq<u8>, from: int, class: ByteClass, end: int)
    requires
        0 <= from <= end <= text.len(),
        forall|k: int| from <= k < end ==> in_class(class, #[trigger] text[k]),
        !in_class(class, byte_at(text, end)),
    ensures
        run_end(text, from, class) == end,
    decreases end - from,
{
    if from < end {
        lemma_run_end_unique(text, from + 1, class, end);
    }
}

/// A step begins at or after the place it was taken from and ends at or
/// after its beginning. Taken inside the text, it stays inside the text;
/// taken behind its end, it stays where it is.
pub proof fn lemma_step_bounds(text: Seq<u8>, from: int)
    requires
        0 <= from,
    ensures
        from <= next_step(text, from).start <= next_step(text, from).end,
        from <= text.len() ==> next_step(text, from).end <= text.len(),
        text.len() <= from ==> next_step(text, from).end == from,
{
    let start = run_end(text, from, ByteClass::Whitespace);
    lemma_run_end(text, from, ByteClass::Whitespace);
    lemma_run_end(text, start, ByteClass::Letter);
    lemma_run_end(text, start, ByteClass::Digit);
}

/// Every step but the one at the end of the input consumes at least one
/// byte, and its token begins with a byte of the text. A step that yields
/// `Eof` consumes nothing and stands on the end-of-input byte.
pub proof fn lemma_step_progress(text: Seq<u8>, from: int)
    requires
        0 <= from,
    ensures
        next_step(text, from).token != TokenView::Eof ==> next_step(text, from).start
            < next_step(text, from).end,
        next_step(text, from).token == TokenView::Eof ==> next_step(text, from).start
            == next_step(text, from).end,
        next_step(text, from).token == TokenView::Eof <==> byte_at(
            text,
            next_step(text, from).start,
        ) == NUL,
{
    let start = run_end(text, from, ByteClass::Whitespace);
    lemma_run_end(text, from, ByteClass::Whitespace);
    let first = byte_at(text, start);
    if is_letter(first) {
        lemma_run_end(text, start + 1, ByteClass::Letter);
        lemma_word_token_not_eof(ascii_text(text.subrange(start, next_step(text, from).end)));
    } else if is_digit(first) {
        lemma_run_end(text, start + 1, ByteClass::Digit);
    }
}

/// After a step that yields `Eof`, the next step yields `Eof` too and
/// stands where it began.
pub proof fn lemma_eof_repeats(text: Seq<u8>, from: int)
    requires
        0 <= from,
    ensures
        next_step(text, from).token == TokenView::Eof ==> next_step(
            text,
            next_step(text, from).end,
        ) == (Step {
            token: TokenView::Eof,
            start: next_step(text, from).end,
            end: next_step(text, from).end,
        }),
{
    lemma_step_bounds(text, from);
    lemma_step_progress(text, from);
    lemma_run_end(text, from, ByteClass::Whitespace);
    let start = next_step(text, from).start;
    assert(run_end(text, start, ByteClass::Whitespace) == start);
}

/// A run of letters never yields `Eof` or `Illegal`.
pub proof fn lemma_word_token_not_eof(word: Seq<char>)
    ensures
        word_token(word) != TokenView::Eof,
        word_token(word) != TokenView::Illegal,
{
}

/// A run that is entered in its middle ends where it would have ended.
pub proof fn lemma_run_end_join(text: Seq<u8>, from: int, mid: int, class: ByteClass)
    requires
        0 <= from <= mid <= text.len(),
        forall|k: int| from <= k < mid ==> in_class(class, #[trigger] text[k]),
    ensures
        run_end(text, from, class) == run_end(text, mid, class),
    decreases mid - from,
{
    if from < mid {
        lemma_run_end_join(text, from + 1, mid, class);
    }
}

/// A run depends only on its own bytes and on the byte that stops it:
/// where another text holds the same bytes `shift` places on, and a byte
/// outside the class behind them, the run there is the same, `shift`
/// places on.
pub proof fn lemma_run_end_local(a: Seq<u8>, b: Seq<u8>, from: int, shift: int, class: ByteClass)
    requires
        0 <= from <= a.len(),
        0 <= from + shift,
        run_end(a, from, class) + shift <= b.len(),
        forall|i: int| from <= i < run_end(a, from, class) ==> #[trigger] b[i + shift] == a[i],
        !in_class(class, byte_at(b, run_end(a, from, class) + shift)),
    ensures
        run_end(b, from + shift, class) == run_end(a, from, class) + shift,
        b.subrange(from + shift, run_end(a, from, class) + shift) == a.subrange(
            from,
            run_end(a, from, class),
        ),
{
    let end = run_end(a, from, class);
    lemma_run_end(a, from, class);
    assert forall|k: int| from + shift <= k < end + shift implies in_class(
        class,
        #[trigger] b[k],
    ) by {
        assert(b[(k - shift) + shift] == a[k - shift]);
    }
    lemma_run_end_unique(b, from + shift, class, end + shift);
    assert forall|k: int| 0 <= k < end - from implies #[trigger] b.subrange(
        from + shift,
        end + shift,
    )[k] == a.subrange(from, end)[k] by {
        assert(b[(from + k) + shift] == a[from + k]);
    }
    assert(b.subrange(from + shift, end + shift) =~= a.subrange(from, end));
}

/// A step depends only on the bytes it passes over and on the byte it
/// stops at: where another text holds the same bytes `shift` places on,
/// and stops the step with the same byte or with whitespace, the step
/// there is the same, `shift` places on.
pub proof fn lemma_step_local(a: Seq<u8>, b: Seq<u8>, from: int, shift: int)
    requires
        0 <= from <= a.len(),
        0 <= from + shift,
        next_step(a, from).end + shift <= b.len(),
        forall|i: int|
            from <= i < next_step(a, from).end ==> #[trigger] b[i + shift] == a[i],
        byte_at(b, next_step(a, from).end + shift) == byte_at(a, next_step(a, from).end) || (
        is_whitespace(byte_at(b, next_step(a, from).end + shift)) && next_step(a, from).token
            != TokenView::Eof),
    ensures
        next_step(b, from + shift) == (Step {
            token: next_step(a, from).token,
            start: next_step(a, from).start + shift,
            end: next_step(a, from).end + shift,
        }),
{
    let start = next_step(a, from).start;
    let end = next_step(a, from).end;
    lemma_step_bounds(a, from);
    lemma_step_progress(a, from);
    lemma_run_end(a, from, ByteClass::Whitespace);
    assert(byte_at(b, start + shift) == byte_at(a, start)) by {
        if start < end {
            assert(b[start + shift] == a[start]);
        }
    }
    lemma_run_end_local(a, b, from, shift, ByteClass::Whitespace);
    let first = byte_at(a, start);
    if first == EQUALS || first == BANG {
        if end == start + 2 {
            assert(b[(start + 1) + shift] == a[start + 1]);
        }
    } else if symbol_token(first) is Some {
    } else if is_letter(first) {
        lemma_run_end(a, start, ByteClass::Letter);
        lemma_run_end_local(a, b, start, shift, ByteClass::Letter);
    } else if is_digit(first) {
        lemma_run_end(a, start, ByteClass::Digit);
        lemma_run_end_local(a, b, start, shift, ByteClass::Digit);
    }
}

} // verus!
