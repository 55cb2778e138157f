//! The parser's window onto a scanner: the current token and the one after
//! it.

use vstd::prelude::*;
use crate::grammar::next_step;
use crate::lexer::Lexer;
use crate::token::{Token, TokenView};

verus! {

/// A window of two tokens over a scanner, which it owns. The scanner
/// always stands behind the second token of the window.
pub struct Parser {
    lexer: Lexer,
    current_token: Option<Token>,
    peek_token: Option<Token>,
}

/// The view of a token that may be absent.
pub open spec fn view_of(token: Option<Token>) -> Option<TokenView> {
    match token {
        Some(token) => Some(token@),
        None => None,
    }
}

impl Parser {
    /// The source text of the scanner.
    pub closed spec fn text(&self) -> Seq<u8> {
        self.lexer.text()
    }

    /// The index in the text at which the scanner stands.
    pub closed spec fn cursor(&self) -> int {
        self.lexer.cursor()
    }

    /// The scanner is well formed, and its text is short enough for the
    /// index behind its end to fit in `usize`.
    pub closed spec fn wf(&self) -> bool {
        self.lexer.wf() && self.lexer.text().len() < usize::MAX
    }

    /// The first token of the window.
    pub closed spec fn current(&self) -> Option<TokenView> {
        view_of(self.current_token)
    }

    /// The second token of the window.
    pub closed spec fn peek(&self) -> Option<TokenView> {
        view_of(self.peek_token)
    }

    /// A window over the next two tokens of `lexer`. The text must be short
    /// enough for the index behind its end to fit in `usize`.
    pub fn new(lexer: Lexer) -> (parser: Parser)
        requires
            lexer.wf(),
            lexer.text().len() < usize::MAX,
        ensures
            parser.wf(),
            parser.text() == lexer.text(),
            parser.current() == Some(next_step(lexer.text(), lexer.cursor()).token),
            parser.peek() == Some(
                next_step(lexer.text(), next_step(lexer.text(), lexer.cursor()).end).token,
            ),
            parser.cursor() == next_step(
                lexer.text(),
                next_step(lexer.text(), lexer.cursor()).end,
            ).end,
    {
        let mut parser = Parser { lexer, current_token: None, peek_token: None };
        parser.next_token();
        parser.next_token();
        parser
    }

    /// Moves the window on by one token: the second token becomes the
    /// first, and the scanner supplies the new second.
    pub fn next_token(&mut self)
        requires
            old(self).wf(),
        ensures
            final(self).wf(),
            final(self).text() == old(self).text(),
            final(self).current() == old(self).peek(),
            final(self).peek() == Some(next_step(old(self).text(), old(self).cursor()).token),
            final(self).cursor() == next_step(old(self).text(), old(self).cursor()).end,
    {
        let token = self.lexer.next_token();
        self.current_token = self.peek_token.take();
        self.peek_token = Some(token);
    }

    /// The first token of the window.
    pub fn current_token(&self) -> (token: &Option<Token>)
        ensures
            view_of(*token) == self.current(),
    {
        &self.current_token
    }

    /// The second token of the window.
    pub fn peek_token(&self) -> (token: &Option<Token>)
        ensures
            view_of(*token) == self.peek(),
    {
        &self.peek_token
    }
}

} // verus!
