//! Tokens, their mathematical view, and their printed form.

use vstd::prelude::*;
use vstd::string::*;
use vstd::utf8::{encode_utf8, encode_utf8_decode_utf8};
use crate::grammar::word_token;

verus! {

/// One lexical unit of the language.
#[derive(PartialEq, Debug)]
pub enum Token {
    /// A byte that begins no token.
    Illegal,
    /// The end of the input.
    Eof,
    /// A name, with its text.
    Ident(String),
    /// An integer literal, with its digits as written.
    Int(String),
    Assign,
    Plus,
    Minus,
    Bang,
    Asterisk,
    Slash,
    Lt,
    Gt,
    Eq,
    NotEq,
    Comma,
    Semicolon,
    LParen,
    RParen,
    LBrace,
    RBrace,
    Function,
    Let,
    True,
    False,
    If,
    Else,
    Return,
}

/// What a [`Token`] stands for in contracts: the same variants, with the
/// text of a name or a literal as a sequence of characters.
pub enum TokenView {
    Illegal,
    Eof,
    Ident(Seq<char>),
    Int(Seq<char>),
    Assign,
    Plus,
    Minus,
    Bang,
    Asterisk,
    Slash,
    Lt,
    Gt,
    Eq,
    NotEq,
    Comma,
    Semicolon,
    LParen,
    RParen,
    LBrace,
    RBrace,
    Function,
    Let,
    True,
    False,
    If,
    Else,
    Return,
}

impl View for Token {
    type V = TokenView;

    open spec fn view(&self) -> TokenView {
        match self {
            Token::Illegal => TokenView::Illegal,
            Token::Eof => TokenView::Eof,
            Token::Ident(name) => TokenView::Ident(name@),
            Token::Int(digits) => TokenView::Int(digits@),
            Token::Assign => TokenView::Assign,
            Token::Plus => TokenView::Plus,
            Token::Minus => TokenView::Minus,
            Token::Bang => TokenView::Bang,
            Token::Asterisk => TokenView::Asterisk,
            Token::Slash => TokenView::Slash,
            Token::Lt => TokenView::Lt,
            Token::Gt => TokenView::Gt,
            Token::Eq => TokenView::Eq,
            Token::NotEq => TokenView::NotEq,
            Token::Comma => TokenView::Comma,
            Token::Semicolon => TokenView::Semicolon,
            Token::LParen => TokenView::LParen,
            Token::RParen => TokenView::RParen,
            Token::LBrace => TokenView::LBrace,
            Token::RBrace => TokenView::RBrace,
            Token::Function => TokenView::Function,
            Token::Let => TokenView::Let,
            Token::True => TokenView::True,
            Token::False => TokenView::False,
            Token::If => TokenView::If,
            Token::Else => TokenView::Else,
            Token::Return => TokenView::Return,
        }
    }
}

/// The printed form of a token: the variant's name, and for a name or a
/// literal its text in parentheses. Three forms end in a space.
pub open spec fn printed(token: TokenView) -> Seq<char> {
    match token {
        TokenView::Ident(name) => "Ident("@ + name + ")"@,
        TokenView::Int(digits) => "Int("@ + digits + ")"@,
        TokenView::Illegal => "Illegal"@,
        TokenView::Eof => "Eof"@,
        TokenView::Assign => "Assign"@,
        TokenView::Bang => "Bang"@,
        TokenView::Minus => "Minus"@,
        TokenView::Slash => "Slash"@,
        TokenView::Asterisk => "Asterisk"@,
        TokenView::Eq => "Eq"@,
        TokenView::NotEq => "NotEq "@,
        TokenView::Lt => "Lt "@,
        TokenView::Gt => "Gt"@,
        TokenView::Plus => "Plus"@,
        TokenView::Comma => "Comma"@,
        TokenView::Semicolon => "Semicolon"@,
        TokenView::LParen => "LParen"@,
        TokenView::RParen => "RParen"@,
        TokenView::LBrace => "LBrace "@,
        TokenView::RBrace => "RBrace"@,
        TokenView::Function => "Function"@,
        TokenView::Let => "Let"@,
        TokenView::If => "If"@,
        TokenView::Else => "Else"@,
        TokenView::Return => "Return"@,
        TokenView::True => "True"@,
        TokenView::False => "False"@,
    }
}

/// Whether two texts are equal, read off their UTF-8 bytes.
fn spells(text: &str, word: &str) -> (same: bool)
    ensures
        same == (text@ == word@),
{
    let a = text.as_bytes();
    let b = word.as_bytes();
    proof {
        encode_utf8_decode_utf8(text@);
        encode_utf8_decode_utf8(word@);
    }
    if a.len() != b.len() {
        return false;
    }
    let mut i: usize = 0;
    while i < a.len()
        invariant
            i <= a.len(),
            a.len() == b.len(),
            forall|k: int| 0 <= k < i ==> a@[k] == b@[k],
            a@ == encode_utf8(text@),
            b@ == encode_utf8(word@),
            a@ != b@ ==> text@ != word@,
        decreases a.len() - i,
    {
        if a[i] != b[i] {
            return false;
        }
        i += 1;
    }
    assert(a@ =~= b@);
    true
}

impl Token {
    /// The token for a run of letters: the keyword that `word` spells, or
    /// else the name `word`.
    pub fn from_word(word: String) -> (token: Token)
        ensures
            token@ == word_token(word@),
    {
        let text = word.as_str();
        if spells(text, "fn") {
            Token::Function
        } else if spells(text, "let") {
            Token::Let
        } else if spells(text, "true") {
            Token::True
        } else if spells(text, "false") {
            Token::False
        } else if spells(text, "if") {
            Token::If
        } else if spells(text, "else") {
            Token::Else
        } else if spells(text, "return") {
            Token::Return
        } else {
            Token::Ident(word)
        }
    }

    /// The token's printed form.
    pub fn to_string(&self) -> (text: String)
        ensures
            text@ == printed(self@),
    {
        match self {
            Token::Ident(name) => {
                let mut text = String::from_str("Ident(");
                text.append(name.as_str());
                text.append(")");
                text
            },
            Token::Int(digits) => {
                let mut text = String::from_str("Int(");
                text.append(digits.as_str());
                text.append(")");
                text
            },
            Token::Illegal => String::from_str("Illegal"),
            Token::Eof => String::from_str("Eof"),
            Token::Assign => String::from_str("Assign"),
            Token::Bang => String::from_str("Bang"),
            Token::Minus => String::from_str("Minus"),
            Token::Slash => String::from_str("Slash"),
            Token::Asterisk => String::from_str("Asterisk"),
            Token::Eq => String::from_str("Eq"),
            Token::NotEq => String::from_str("NotEq "),
            Token::Lt => String::from_str("Lt "),
            Token::Gt => String::from_str("Gt"),
            Token::Plus => String::from_str("Plus"),
            Token::Comma => String::from_str("Comma"),
            Token::Semicolon => String::from_str("Semicolon"),
            Token::LParen => String::from_str("LParen"),
            Token::RParen => String::from_str("RParen"),
            Token::LBrace => String::from_str("LBrace "),
            Token::RBrace => String::from_str("RBrace"),
            Token::Function => String::from_str("Function"),
            Token::Let => String::from_str("Let"),
            Token::If => String::from_str("If"),
            Token::Else => String::from_str("Else"),
            Token::Return => String::from_str("Return"),
            Token::True => String::from_str("True"),
            Token::False => String::from_str("False"),
        }
    }
}

} // verus!
