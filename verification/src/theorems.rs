//! What holds of every scan: it ends, its steps tile the text, keywords
//! and two-byte operators are told apart from their neighbours, and
//! whitespace between tokens does not matter.

use vstd::prelude::*;
use crate::bytes::{in_class, is_digit, is_letter, is_whitespace, ByteClass, BANG, EQUALS, NUL};
use crate::grammar::{
    ascii_text, byte_at, cursor_after, lemma_eof_repeats, lemma_run_end, lemma_run_end_join,
    lemma_step_bounds, lemma_step_local, lemma_step_progress, next_step, nth_token,
    symbol_token, word_token,
};
use crate::token::TokenView;

verus! {

/// A scan never leaves the text.
pub proof fn lemma_cursor_in_text(text: Seq<u8>, n: nat)
    ensures
        0 <= cursor_after(text, n) <= text.len(),
    decreases n,
{
    if n > 0 {
        lemma_cursor_in_text(text, (n - 1) as nat);
        lemma_step_bounds(text, cursor_after(text, (n - 1) as nat));
    }
}

/// A scan never moves backwards.
pub proof fn lemma_cursor_monotone(text: Seq<u8>, m: nat, n: nat)
    requires
        m <= n,
    ensures
        cursor_after(text, m) <= cursor_after(text, n),
    decreases n - m,
{
    if m < n {
        lemma_cursor_monotone(text, m, (n - 1) as nat);
        lemma_cursor_in_text(text, (n - 1) as nat);
        lemma_step_bounds(text, cursor_after(text, (n - 1) as nat));
    }
}

/// The steps of a scan tile the text: each begins where the one before it
/// ended, passes over whitespace only, and then holds its token's bytes.
pub proof fn theorem_steps_tile(text: Seq<u8>, n: nat)
    ensures
        ({
            let step = next_step(text, cursor_after(text, n));
            &&& 0 <= cursor_after(text, n) <= step.start <= step.end <= text.len()
            &&& step.end == cursor_after(text, n + 1)
            &&& forall|k: int|
                cursor_after(text, n) <= k < step.start ==> is_whitespace(#[trigger] text[k])
            &&& !is_whitespace(byte_at(text, step.start))
            &&& step.token != TokenView::Eof ==> step.start < step.end
        }),
{
    let from = cursor_after(text, n);
    lemma_cursor_in_text(text, n);
    lemma_step_bounds(text, from);
    lemma_step_progress(text, from);
    lemma_run_end(text, from, ByteClass::Whitespace);
    assert(cursor_after(text, n + 1) == next_step(text, cursor_after(text, n)).end);
}

/// Once a scan has yielded `Eof` it stands still and yields `Eof` for ever.
pub proof fn lemma_eof_is_final(text: Seq<u8>, n: nat, m: nat)
    requires
        nth_token(text, n) == TokenView::Eof,
        n <= m,
    ensures
        nth_token(text, m) == TokenView::Eof,
        cursor_after(text, m + 1) == cursor_after(text, n + 1),
    decreases m - n,
{
    lemma_cursor_in_text(text, n);
    assert(cursor_after(text, n + 1) == next_step(text, cursor_after(text, n)).end);
    if n < m {
        lemma_eof_is_final(text, n, (m - 1) as nat);
        lemma_eof_repeats(text, cursor_after(text, n));
        assert(cursor_after(text, m + 1) == next_step(text, cursor_after(text, m)).end);
    }
}

/// The steps before the first `Eof`, counted from step `k` on, given that
/// none of the first `k` steps yields `Eof`.
proof fn lemma_first_eof_from(text: Seq<u8>, k: nat) -> (n: nat)
    requires
        forall|j: nat| j < k ==> nth_token(text, j) != TokenView::Eof,
        k <= cursor_after(text, k),
    ensures
        k <= n <= text.len(),
        forall|j: nat| j < n ==> nth_token(text, j) != TokenView::Eof,
        nth_token(text, n) == TokenView::Eof,
    decreases text.len() - cursor_after(text, k),
{
    lemma_cursor_in_text(text, k);
    if nth_token(text, k) == TokenView::Eof {
        k
    } else {
        lemma_step_progress(text, cursor_after(text, k));
        lemma_step_bounds(text, cursor_after(text, k));
        assert(cursor_after(text, k + 1) == next_step(text, cursor_after(text, k)).end);
        lemma_cursor_in_text(text, k + 1);
        lemma_first_eof_from(text, k + 1)
    }
}

/// Every scan ends: there is a step `n`, no later than the length of the
/// text, before which no step yields `Eof` and from which on every step
/// does.
pub proof fn theorem_scan_ends(text: Seq<u8>) -> (n: nat)
    ensures
        n <= text.len(),
        forall|k: nat| k < n ==> nth_token(text, k) != TokenView::Eof,
        forall|k: nat| n <= k ==> nth_token(text, k) == TokenView::Eof,
{
    let n = lemma_first_eof_from(text, 0);
    assert forall|k: nat| n <= k implies nth_token(text, k) == TokenView::Eof by {
        lemma_eof_is_final(text, n, k);
    }
    n
}

/// `text` with `filler` put in before index `at`.
pub open spec fn with_inserted(text: Seq<u8>, at: int, filler: Seq<u8>) -> Seq<u8> {
    text.subrange(0, at) + filler + text.subrange(at, text.len() as int)
}

/// Whether index `at` of `text` lies between two tokens: at or behind the
/// place where a scan stands after `n` steps, and at or before the first
/// byte of the token that the next step reads.
pub open spec fn between_tokens(text: Seq<u8>, n: nat, at: int) -> bool {
    cursor_after(text, n) <= at <= next_step(text, cursor_after(text, n)).start
}

/// How a scan of a text with whitespace put in at index `at` stands to a
/// scan of the text itself: on the same place as long as that is before
/// `at`, and the length of the filler further on behind it.
spec fn in_step(at: int, filler: Seq<u8>, cursor: int, other: int) -> bool {
    (other == cursor && cursor <= at) || (other == cursor + filler.len() && cursor >= at)
}

/// One step keeps the two scans in step, and both yield the same token.
proof fn lemma_whitespace_step(text: Seq<u8>, n: nat, at: int, filler: Seq<u8>, k: nat)
    requires
        forall|j: int| 0 <= j < filler.len() ==> is_whitespace(#[trigger] filler[j]),
        between_tokens(text, n, at),
        in_step(
            at,
            filler,
            cursor_after(text, k),
            cursor_after(with_inserted(text, at, filler), k),
        ),
    ensures
        nth_token(with_inserted(text, at, filler), k) == nth_token(text, k),
        in_step(
            at,
            filler,
            cursor_after(text, k + 1),
            cursor_after(with_inserted(text, at, filler), k + 1),
        ),
{
    let gap = cursor_after(text, n);
    let wide = filler.len() as int;
    let other = with_inserted(text, at, filler);
    let from = cursor_after(text, k);
    let step = next_step(text, from);
    lemma_cursor_in_text(text, n);
    lemma_cursor_in_text(text, k);
    lemma_step_bounds(text, gap);
    lemma_step_bounds(text, from);
    lemma_step_progress(text, from);
    lemma_run_end(text, from, ByteClass::Whitespace);
    assert(cursor_after(text, k + 1) == step.end);
    assert(cursor_after(text, n + 1) == next_step(text, gap).end);
    assert(cursor_after(other, k + 1) == next_step(other, cursor_after(other, k)).end);
    assert(other.len() == text.len() + wide);
    assert forall|i: int| 0 <= i < at implies #[trigger] other[i] == text[i] by {}
    assert forall|j: int| 0 <= j < wide implies #[trigger] other[at + j] == filler[j] by {}
    assert forall|i: int| at <= i < text.len() implies #[trigger] other[i + wide] == text[i] by {}
    if cursor_after(other, k) == from + wide && from >= at {
        // Both scans are behind the filler: the same bytes lie ahead.
        lemma_step_local(text, other, from, wide);
    } else if step.start >= at {
        // The step passes over the filler while it passes over whitespace.
        lemma_run_end_join(text, from, at, ByteClass::Whitespace);
        assert forall|i: int| from <= i < at + wide implies in_class(
            ByteClass::Whitespace,
            #[trigger] other[i],
        ) by {
            if i < at {
                assert(other[i] == text[i]);
            } else {
                assert(other[at + (i - at)] == filler[i - at]);
            }
        }
        lemma_run_end_join(other, from, at + wide, ByteClass::Whitespace);
        lemma_step_bounds(text, at);
        lemma_step_local(text, other, at, wide);
    } else {
        // The token begins before the filler, so it is one of the first
        // `n` and ends before the filler too.
        if k > n {
            lemma_cursor_monotone(text, n + 1, k);
        }
        lemma_cursor_monotone(text, k + 1, n);
        if step.token == TokenView::Eof {
            lemma_eof_is_final(text, k, (n - 1) as nat);
        }
        assert(byte_at(other, step.end) == byte_at(text, step.end) || is_whitespace(
            byte_at(other, step.end),
        )) by {
            if step.end < at {
                assert(other[step.end] == text[step.end]);
            } else if wide > 0 {
                assert(other[at + 0] == filler[0]);
            } else if at < text.len() {
                assert(other[at + wide] == text[at]);
            }
        }
        lemma_step_local(text, other, from, 0);
    }
}

/// The two scans are in step after any number of steps.
proof fn lemma_whitespace_steps(text: Seq<u8>, n: nat, at: int, filler: Seq<u8>, k: nat)
    requires
        forall|j: int| 0 <= j < filler.len() ==> is_whitespace(#[trigger] filler[j]),
        between_tokens(text, n, at),
    ensures
        in_step(
            at,
            filler,
            cursor_after(text, k),
            cursor_after(with_inserted(text, at, filler), k),
        ),
    decreases k,
{
    lemma_cursor_in_text(text, n);
    if k > 0 {
        lemma_whitespace_steps(text, n, at, filler, (k - 1) as nat);
        lemma_whitespace_step(text, n, at, filler, (k - 1) as nat);
    }
}

/// Whitespace between tokens does not matter: where any run of whitespace
/// bytes is put into a text between two of its tokens, before the first
/// or behind the last, a scan yields the same tokens in the same order.
pub proof fn theorem_whitespace_between_tokens(
    text: Seq<u8>,
    n: nat,
    at: int,
    filler: Seq<u8>,
    k: nat,
)
    requires
        forall|j: int| 0 <= j < filler.len() ==> is_whitespace(#[trigger] filler[j]),
        between_tokens(text, n, at),
    ensures
        nth_token(with_inserted(text, at, filler), k) == nth_token(text, k),
{
    lemma_whitespace_steps(text, n, at, filler, k);
    lemma_whitespace_step(text, n, at, filler, k);
}

/// Whether `word` is one of the seven keyword spellings.
pub open spec fn is_keyword(word: Seq<char>) -> bool {
    word == "fn"@ || word == "let"@ || word == "true"@ || word == "false"@ || word == "if"@
        || word == "else"@ || word == "return"@
}

/// Each keyword spelling yields its own token, never a name; every other
/// run of letters yields a name that carries exactly that run.
pub proof fn theorem_keywords(word: Seq<char>)
    ensures
        word_token("fn"@) == TokenView::Function,
        word_token("let"@) == TokenView::Let,
        word_token("true"@) == TokenView::True,
        word_token("false"@) == TokenView::False,
        word_token("if"@) == TokenView::If,
        word_token("else"@) == TokenView::Else,
        word_token("return"@) == TokenView::Return,
        is_keyword(word) ==> !(word_token(word) is Ident),
        !is_keyword(word) ==> word_token(word) == TokenView::Ident(word),
{
    reveal_strlit("fn");
    reveal_strlit("let");
    reveal_strlit("true");
    reveal_strlit("false");
    reveal_strlit("if");
    reveal_strlit("else");
    reveal_strlit("return");
    assert("fn"@.len() == 2 && "fn"@[0] == 'f');
    assert("let"@.len() == 3);
    assert("true"@.len() == 4 && "true"@[0] == 't');
    assert("false"@.len() == 5);
    assert("if"@.len() == 2 && "if"@[0] == 'i');
    assert("else"@.len() == 4 && "else"@[0] == 'e');
    assert("return"@.len() == 6);
}

/// A step that begins on a letter takes the whole run of letters, no more
/// and no less, and yields the token of that run.
pub proof fn theorem_words(text: Seq<u8>, from: int)
    requires
        0 <= from,
        is_letter(byte_at(text, next_step(text, from).start)),
    ensures
        ({
            let step = next_step(text, from);
            &&& step.start < step.end <= text.len()
            &&& forall|k: int| step.start <= k < step.end ==> is_letter(#[trigger] text[k])
            &&& !is_letter(byte_at(text, step.end))
            &&& step.token == word_token(ascii_text(text.subrange(step.start, step.end)))
        }),
{
    lemma_step_bounds(text, from);
    lemma_step_progress(text, from);
    lemma_run_end(text, next_step(text, from).start, ByteClass::Letter);
}

/// A step that begins on a digit takes the whole run of digits, no more
/// and no less, and yields one integer literal that carries them all.
pub proof fn theorem_integers(text: Seq<u8>, from: int)
    requires
        0 <= from,
        is_digit(byte_at(text, next_step(text, from).start)),
    ensures
        ({
            let step = next_step(text, from);
            &&& step.start < step.end <= text.len()
            &&& forall|k: int| step.start <= k < step.end ==> is_digit(#[trigger] text[k])
            &&& !is_digit(byte_at(text, step.end))
            &&& step.token == TokenView::Int(ascii_text(text.subrange(step.start, step.end)))
        }),
{
    lemma_step_bounds(text, from);
    lemma_step_progress(text, from);
    lemma_run_end(text, next_step(text, from).start, ByteClass::Digit);
}

/// `==` and `!=` are one token of two bytes each; `=` and `!` before any
/// other byte are one token of one byte each. No other bytes yield these
/// four tokens.
pub proof fn theorem_two_byte_operators(text: Seq<u8>, from: int)
    requires
        0 <= from,
    ensures
        ({
            let step = next_step(text, from);
            let first = byte_at(text, step.start);
            let second = byte_at(text, step.start + 1);
            &&& (first == EQUALS && second == EQUALS) <==> step.token == TokenView::Eq
            &&& (first == EQUALS && second != EQUALS) <==> step.token == TokenView::Assign
            &&& (first == BANG && second == EQUALS) <==> step.token == TokenView::NotEq
            &&& (first == BANG && second != EQUALS) <==> step.token == TokenView::Bang
            &&& (step.token == TokenView::Eq || step.token == TokenView::NotEq) ==> step.end
                == step.start + 2
            &&& (step.token == TokenView::Assign || step.token == TokenView::Bang) ==> step.end
                == step.start + 1
        }),
{
}

/// A byte that begins no token yields `Illegal` and is consumed alone, so
/// that the scan goes on with the byte behind it; no other byte yields
/// `Illegal`.
pub proof fn theorem_illegal_bytes(text: Seq<u8>, from: int)
    requires
        0 <= from,
    ensures
        ({
            let step = next_step(text, from);
            let first = byte_at(text, step.start);
            &&& step.token == TokenView::Illegal <==> !(first == EQUALS || first == BANG
                || symbol_token(first) is Some || is_letter(first) || is_digit(first) || first
                == NUL)
            &&& step.token == TokenView::Illegal ==> step.end == step.start + 1
        }),
{
}

/// How a token is written in source text. `Eof` is written with no bytes;
/// `Illegal` does not keep the byte it stands for, so any one byte that
/// begins no token is its spelling.
pub open spec fn spelling(token: TokenView) -> Seq<char> {
    match token {
        TokenView::Illegal => Seq::empty(),
        TokenView::Eof => Seq::empty(),
        TokenView::Ident(name) => name,
        TokenView::Int(digits) => digits,
        TokenView::Assign => "="@,
        TokenView::Plus => "+"@,
        TokenView::Minus => "-"@,
        TokenView::Bang => "!"@,
        TokenView::Asterisk => "*"@,
        TokenView::Slash => "/"@,
        TokenView::Lt => "<"@,
        TokenView::Gt => ">"@,
        TokenView::Eq => "=="@,
        TokenView::NotEq => "!="@,
        TokenView::Comma => ","@,
        TokenView::Semicolon => ";"@,
        TokenView::LParen => "("@,
        TokenView::RParen => ")"@,
        TokenView::LBrace => "{"@,
        TokenView::RBrace => "}"@,
        TokenView::Function => "fn"@,
        TokenView::Let => "let"@,
        TokenView::True => "true"@,
        TokenView::False => "false"@,
        TokenView::If => "if"@,
        TokenView::Else => "else"@,
        TokenView::Return => "return"@,
    }
}

/// The bytes that a step consumes behind the whitespace are the spelling
/// of its token, for every token but `Illegal`, which consumes one byte
/// and does not keep it. So the tokens of a scan, spelled out one after
/// the other, are the text without its whitespace and illegal bytes.
pub proof fn theorem_tokens_spell_the_text(text: Seq<u8>, from: int)
    requires
        0 <= from <= text.len(),
    ensures
        ({
            let step = next_step(text, from);
            step.token != TokenView::Illegal ==> ascii_text(text.subrange(step.start, step.end))
                == spelling(step.token)
        }),
{
    let step = next_step(text, from);
    let first = byte_at(text, step.start);
    let bytes = text.subrange(step.start, step.end);
    lemma_step_bounds(text, from);
    lemma_step_progress(text, from);
    reveal_strlit("=");
    reveal_strlit("+");
    reveal_strlit("-");
    reveal_strlit("!");
    reveal_strlit("*");
    reveal_strlit("/");
    reveal_strlit("<");
    reveal_strlit(">");
    reveal_strlit("==");
    reveal_strlit("!=");
    reveal_strlit(",");
    reveal_strlit(";");
    reveal_strlit("(");
    reveal_strlit(")");
    reveal_strlit("{");
    reveal_strlit("}");
    if is_letter(first) || is_digit(first) {
    } else if step.token != TokenView::Illegal {
        assert(ascii_text(bytes).len() == step.end - step.start);
        if step.end > step.start {
            assert(ascii_text(bytes)[0] == text[step.start] as char);
        }
        if step.end == step.start + 2 {
            assert(ascii_text(bytes)[1] == text[step.start + 1] as char);
        }
        assert(ascii_text(bytes) =~= spelling(step.token));
    }
}

} // verus!
