//! The bytes that the lexical grammar names, and the three classes of byte
//! that form runs: whitespace, letters and digits.

use vstd::prelude::*;

verus! {

/// Stands for "past the end of the input"; it begins no token.
pub const NUL: u8 = 0x00;

pub const TAB: u8 = 0x09;

pub const LINE_FEED: u8 = 0x0a;

pub const CARRIAGE_RETURN: u8 = 0x0d;

pub const SPACE: u8 = 0x20;

pub const BANG: u8 = 0x21;

pub const LEFT_PAREN: u8 = 0x28;

pub const RIGHT_PAREN: u8 = 0x29;

pub const ASTERISK: u8 = 0x2a;

pub const PLUS: u8 = 0x2b;

pub const COMMA: u8 = 0x2c;

pub const MINUS: u8 = 0x2d;

pub const SLASH: u8 = 0x2f;

pub const DIGIT_0: u8 = 0x30;

pub const DIGIT_9: u8 = 0x39;

pub const SEMICOLON: u8 = 0x3b;

pub const LESS_THAN: u8 = 0x3c;

pub const EQUALS: u8 = 0x3d;

pub const GREATER_THAN: u8 = 0x3e;

pub const UPPER_A: u8 = 0x41;

pub const UPPER_Z: u8 = 0x5a;

pub const UNDERSCORE: u8 = 0x5f;

pub const LOWER_A: u8 = 0x61;

pub const LOWER_Z: u8 = 0x7a;

pub const LEFT_BRACE: u8 = 0x7b;

pub const RIGHT_BRACE: u8 = 0x7d;

/// A class of bytes of which the scanner consumes maximal runs.
pub enum ByteClass {
    /// Space, tab, line feed and carriage return.
    Whitespace,
    /// The ASCII letters and the underscore.
    Letter,
    /// The ASCII digits.
    Digit,
}

/// Space, tab, line feed or carriage return.
pub open spec fn is_whitespace(b: u8) -> bool {
    b == SPACE || b == TAB || b == LINE_FEED || b == CARRIAGE_RETURN
}

/// An ASCII letter or the underscore.
pub open spec fn is_letter(b: u8) -> bool {
    LOWER_A <= b <= LOWER_Z || UPPER_A <= b <= UPPER_Z || b == UNDERSCORE
}

/// An ASCII digit.
pub open spec fn is_digit(b: u8) -> bool {
    DIGIT_0 <= b <= DIGIT_9
}

/// Whether `b` belongs to `class`.
pub open spec fn in_class(class: ByteClass, b: u8) -> bool {
    match class {
        ByteClass::Whitespace => is_whitespace(b),
        ByteClass::Letter => is_letter(b),
        ByteClass::Digit => is_digit(b),
    }
}

/// Decides [`is_whitespace`].
pub fn whitespace(b: u8) -> (r: bool)
    ensures
        r == is_whitespace(b),
{
    b == SPACE || b == TAB || b == LINE_FEED || b == CARRIAGE_RETURN
}

/// Decides [`is_letter`].
pub fn letter(b: u8) -> (r: bool)
    ensures
        r == is_letter(b),
{
    (LOWER_A <= b && b <= LOWER_Z) || (UPPER_A <= b && b <= UPPER_Z) || b == UNDERSCORE
}

/// Decides [`is_digit`].
pub fn digit(b: u8) -> (r: bool)
    ensures
        r == is_digit(b),
{
    DIGIT_0 <= b && b <= DIGIT_9
}

} // verus!
