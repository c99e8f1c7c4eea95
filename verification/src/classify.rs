//! Classification of the characters that take part in escape sequences:
//! hex digits and the letters of the simple two-character escapes.

use vstd::prelude::*;

verus! {

/// The escape introducer, `\`.
pub const BACKSLASH: u8 = 92;

/// The letter `x`, opening a hex-byte escape.
pub const LETTER_X: u8 = 120;

/// The letter `u`, opening a Unicode scalar escape.
pub const LETTER_U: u8 = 117;

/// The opening brace of a `\u{...}` escape.
pub const OPEN_BRACE: u8 = 123;

/// The closing brace of a `\u{...}` escape.
pub const CLOSE_BRACE: u8 = 125;

/// True when the byte is the ASCII code of a hex digit
/// (`0`-`9`, `a`-`f` or `A`-`F`).
pub open spec fn is_hex_digit(b: u8) -> bool {
    (48 <= b <= 57) || (97 <= b <= 102) || (65 <= b <= 70)
}

/// The numeric value (0-15) of a hex digit given by its ASCII code.
pub open spec fn hex_digit_value(b: u8) -> int
    recommends
        is_hex_digit(b),
{
    if 48 <= b <= 57 {
        b - 48
    } else if 97 <= b <= 102 {
        b - 87
    } else {
        b - 55
    }
}

/// True when `b` is the second byte of a simple two-byte escape under
/// dialect `d`: one of `n`, `t`, `r`, `\`, `0`, and under the `Quote`
/// dialect also `'` and `"`.
pub open spec fn is_simple_escape_byte(b: u8, d: crate::dialect::Dialect) -> bool {
    ||| b == 110  // n
    ||| b == 116  // t
    ||| b == 114  // r
    ||| b == 92  // backslash
    ||| b == 48  // 0
    ||| (d is Quote && (b == 39 || b == 34))  // ' and "
}

/// The literal byte a simple escape resolves to: `n`, `t`, `r` map to the
/// control characters they name, `\` to itself, `0` to NUL, and the quote
/// characters to themselves.
pub open spec fn simple_escape_value(b: u8) -> u8
    recommends
        exists|d: crate::dialect::Dialect| is_simple_escape_byte(b, d),
{
    if b == 110 {
        10
    } else if b == 116 {
        9
    } else if b == 114 {
        13
    } else if b == 48 {
        0
    } else {
        b
    }
}

/// The character a simple escape letter stands for, and every other
/// character unchanged.
pub open spec fn simple_escape_char(c: char) -> char {
    match c {
        'n' => '\n',
        't' => '\t',
        'r' => '\r',
        '\\' => '\\',
        '0' => '\0',
        _ => c,
    }
}

/// Maps a simple escape letter to the character it denotes
/// (`n` to newline, `t` to tab, `r` to carriage return, `\` to itself,
/// `0` to NUL); any other character is returned unchanged.
pub fn char_to_escape_sequence(chr: char) -> (r: char)
    ensures
        r == simple_escape_char(chr),
{
    match chr {
        'n' => '\n',
        't' => '\t',
        'r' => '\r',
        '\\' => '\\',
        '0' => '\0',
        _ => chr,
    }
}

/// True when `chr` is the letter of a simple escape common to every
/// dialect: `n`, `t`, `r`, `\` or `0`.
pub fn is_simple_escape(chr: char) -> (r: bool)
    ensures
        r == (chr == 'n' || chr == 't' || chr == 'r' || chr == '\\' || chr == '0'),
{
    match chr {
        'n' | 't' | 'r' | '\\' | '0' => true,
        _ => false,
    }
}

/// True when `chr` opens one of the escapes with a numeric operand:
/// `x` (hex byte) or `u` (Unicode scalar).
pub fn is_complex_escape(chr: char) -> (r: bool)
    ensures
        r == (chr == 'x' || chr == 'u'),
{
    match chr {
        'x' | 'u' => true,
        _ => false,
    }
}

/// True when `b` is the second byte of a simple two-byte escape under
/// dialect `d`.
pub fn classify_simple_escape(b: u8, d: crate::dialect::Dialect) -> (r: bool)
    ensures
        r == is_simple_escape_byte(b, d),
{
    b == 110 || b == 116 || b == 114 || b == 92 || b == 48 || (d == crate::dialect::Dialect::Quote
        && (b == 39 || b == 34))
}

/// The literal byte a simple escape resolves to.
pub fn resolve_simple_escape(b: u8) -> (r: u8)
    ensures
        r == simple_escape_value(b),
{
    if b == 110 {
        10
    } else if b == 116 {
        9
    } else if b == 114 {
        13
    } else if b == 48 {
        0
    } else {
        b
    }
}

/// True when the byte is the ASCII code of a hex digit.  The validation
/// half of the hex lookup pair; [`ascii_to_hex`] is the lookup half.
pub fn is_hex_digit_byte(b: u8) -> (r: bool)
    ensures
        r == is_hex_digit(b),
{
    (48 <= b && b <= 57) || (97 <= b && b <= 102) || (65 <= b && b <= 70)
}

/// The numeric value of a hex digit given by its ASCII code.
/// The caller must have checked the byte with [`is_hex_digit_byte`].
pub fn ascii_to_hex(x: u8) -> (r: u8)
    requires
        is_hex_digit(x),
    ensures
        r as int == hex_digit_value(x),
{
    if 48 <= x && x <= 57 {
        x - 48
    } else if 97 <= x && x <= 102 {
        x - 87
    } else {
        x - 55
    }
}

} // verus!
