use monkey::bytes::{digit, letter, whitespace};
use monkey::lexer::Lexer;
use monkey::parser::Parser;
use monkey::token::Token;

#[test]
fn peek_does_not_move_the_cursor() {
    let mut lexer = Lexer::new(String::from("ab"));
    assert_eq!(lexer.peek_char(), b'b');
    assert_eq!(lexer.peek_char(), b'b');
    assert_eq!(lexer.next_token(), Token::Ident(String::from("ab")));
}

#[test]
fn peek_past_the_end_is_nul() {
    let lexer = Lexer::new(String::from("a"));
    assert_eq!(lexer.peek_char(), 0);
    let lexer = Lexer::new(String::new());
    assert_eq!(lexer.peek_char(), 0);
}

#[test]
fn read_char_moves_one_byte() {
    let mut lexer = Lexer::new(String::from("abc"));
    assert_eq!(lexer.peek_char(), b'b');
    lexer.read_char();
    assert_eq!(lexer.peek_char(), b'c');
    lexer.read_char();
    assert_eq!(lexer.peek_char(), 0);
    assert_eq!(lexer.next_token(), Token::Ident(String::from("c")));
    assert_eq!(lexer.next_token(), Token::Eof);
}

#[test]
fn read_char_goes_on_behind_the_end() {
    let mut lexer = Lexer::new(String::from("a"));
    for step in 1..=1000usize {
        lexer.read_char();
        assert_eq!(lexer.ch(), 0);
        assert_eq!(lexer.position(), step);
        assert_eq!(lexer.read_position(), step + 1);
        assert_eq!(lexer.peek_char(), 0);
    }
    assert_eq!(lexer.next_token(), Token::Eof);
    assert_eq!(lexer.position(), 1000);
    let mut lexer = Lexer::from_bytes(Vec::new());
    lexer.read_char();
    assert_eq!((lexer.ch(), lexer.position(), lexer.read_position()), (0, 1, 2));
    assert_eq!(lexer.next_token(), Token::Eof);
}

fn fields(lexer: &Lexer) -> (u8, usize, usize) {
    (lexer.ch(), lexer.position(), lexer.read_position())
}

#[test]
fn new_loads_the_first_byte() {
    assert_eq!(fields(&Lexer::new(String::from("ab"))), (b'a', 0, 1));
    assert_eq!(fields(&Lexer::new(String::new())), (0, 0, 1));
    assert_eq!(fields(&Lexer::from_bytes(vec![0x80, 0x81])), (0x80, 0, 1));
    assert_eq!(fields(&Lexer::from_bytes(Vec::new())), (0, 0, 1));
    assert_eq!(fields(&Lexer::new(String::from("\u{e9}"))), (0xc3, 0, 1));
}

#[test]
fn read_char_steps_one_byte_at_a_time() {
    let mut lexer = Lexer::new(String::from("ab"));
    lexer.read_char();
    assert_eq!(fields(&lexer), (b'b', 1, 2));
    lexer.read_char();
    assert_eq!(fields(&lexer), (0, 2, 3));
    lexer.read_char();
    assert_eq!(fields(&lexer), (0, 3, 4));
}

#[test]
fn runs_that_reach_the_end_leave_the_next_index_one_ahead() {
    let mut lexer = Lexer::new(String::from("12345"));
    assert_eq!(lexer.read_number(), "12345");
    assert_eq!(fields(&lexer), (0, 5, 6));
    let mut lexer = Lexer::new(String::from("abc"));
    assert_eq!(lexer.read_identifier(), "abc");
    assert_eq!(fields(&lexer), (0, 3, 4));
    let mut lexer = Lexer::new(String::from("   "));
    lexer.skip_whitespace();
    assert_eq!(fields(&lexer), (0, 3, 4));
}

#[test]
fn skip_whitespace_leaves_the_cursor_on_the_token() {
    let mut a = Lexer::new(String::from(" \t\n\rx"));
    a.skip_whitespace();
    assert_eq!(fields(&a), (b'x', 4, 5));
    let mut c = Lexer::new(String::from("x "));
    c.skip_whitespace();
    assert_eq!(fields(&c), (b'x', 0, 1));
}

#[test]
fn next_token_leaves_the_cursor_behind_the_token() {
    let mut lexer = Lexer::new(String::from("== ab 12"));
    assert_eq!(lexer.next_token(), Token::Eq);
    assert_eq!(fields(&lexer), (b' ', 2, 3));
    assert_eq!(lexer.next_token(), Token::Ident(String::from("ab")));
    assert_eq!(fields(&lexer), (b' ', 5, 6));
    assert_eq!(lexer.next_token(), Token::Int(String::from("12")));
    assert_eq!(fields(&lexer), (0, 8, 9));
}

#[test]
fn next_token_does_not_move_on_eof() {
    let mut lexer = Lexer::new(String::from("+ "));
    assert_eq!(lexer.next_token(), Token::Plus);
    assert_eq!(fields(&lexer), (b' ', 1, 2));
    for _ in 0..5 {
        assert_eq!(lexer.next_token(), Token::Eof);
        assert_eq!(fields(&lexer), (0, 2, 3));
    }
    let mut lexer = Lexer::new(String::from("a\0b"));
    assert_eq!(lexer.next_token(), Token::Ident(String::from("a")));
    for _ in 0..5 {
        assert_eq!(lexer.next_token(), Token::Eof);
        assert_eq!(fields(&lexer), (0, 1, 2));
    }
}

#[test]
fn skip_whitespace_stops_at_the_token() {
    let mut lexer = Lexer::new(String::from(" \t\r\n=="));
    lexer.skip_whitespace();
    assert_eq!(lexer.peek_char(), b'=');
    lexer.skip_whitespace();
    assert_eq!(lexer.peek_char(), b'=');
    assert_eq!(lexer.next_token(), Token::Eq);
}

#[test]
fn read_identifier_takes_the_whole_run() {
    let mut lexer = Lexer::new(String::from("foo_Bar9 baz"));
    assert_eq!(lexer.read_identifier(), "foo_Bar");
    assert_eq!(lexer.read_identifier(), "");
    assert_eq!(lexer.next_token(), Token::Int(String::from("9")));
    assert_eq!(lexer.read_identifier(), "");
    assert_eq!(lexer.next_token(), Token::Ident(String::from("baz")));
    assert_eq!(lexer.read_identifier(), "");
}

#[test]
fn read_identifier_does_not_classify() {
    let mut lexer = Lexer::new(String::from("let"));
    assert_eq!(lexer.read_identifier(), "let");
}

#[test]
fn read_number_takes_the_whole_run() {
    let mut lexer = Lexer::new(String::from("0123456789a"));
    assert_eq!(lexer.read_number(), "0123456789");
    assert_eq!(lexer.read_number(), "");
    assert_eq!(lexer.next_token(), Token::Ident(String::from("a")));
}

#[test]
fn byte_classes() {
    for b in 0..=255u8 {
        assert_eq!(whitespace(b), b == b' ' || b == b'\t' || b == b'\n' || b == b'\r');
        assert_eq!(letter(b), b.is_ascii_alphabetic() || b == b'_');
        assert_eq!(digit(b), b.is_ascii_digit());
    }
}

#[test]
fn parser_window_holds_the_first_two_tokens() {
    let parser = Parser::new(Lexer::new(String::from("let x = 5;")));
    assert_eq!(parser.current_token(), &Some(Token::Let));
    assert_eq!(parser.peek_token(), &Some(Token::Ident(String::from("x"))));
}

#[test]
fn parser_window_moves_by_one_token() {
    let mut parser = Parser::new(Lexer::new(String::from("a = 1")));
    parser.next_token();
    assert_eq!(parser.current_token(), &Some(Token::Assign));
    assert_eq!(parser.peek_token(), &Some(Token::Int(String::from("1"))));
    parser.next_token();
    assert_eq!(parser.current_token(), &Some(Token::Int(String::from("1"))));
    assert_eq!(parser.peek_token(), &Some(Token::Eof));
    parser.next_token();
    assert_eq!(parser.current_token(), &Some(Token::Eof));
    assert_eq!(parser.peek_token(), &Some(Token::Eof));
}

#[test]
fn parser_window_over_empty_input() {
    let parser = Parser::new(Lexer::new(String::new()));
    assert_eq!(parser.current_token(), &Some(Token::Eof));
    assert_eq!(parser.peek_token(), &Some(Token::Eof));
}
