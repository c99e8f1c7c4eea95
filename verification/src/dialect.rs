//! The escape dialects the resolver understands, and the errors it reports.

use vstd::prelude::*;

verus! {

/// Selects which escape kinds are legal in a resolution call and what
/// numeric range a hex-byte escape may take.
///
/// Every dialect accepts the simple escapes `\n`, `\t`, `\r`, `\\` and `\0`.
/// `Ascii` and `Byte` add `\xHH` with ceilings 0x7F and 0xFF respectively;
/// `Unicode` is a superset grammar that adds `\u{...}` on top of the byte
/// forms; `Quote` adds `\'` and `\"` passing the quote through.
/// An escape letter a dialect does not know is treated permissively: the
/// introducer is kept literally and scanning resumes at the letter.
#[derive(Clone, Copy, Debug, PartialEq, Eq, Structural)]
pub enum Dialect {
    Ascii,
    Byte,
    Unicode,
    Quote,
}

/// Why a resolution call failed.  Any of these aborts the whole call;
/// no partial output is returned.
#[derive(Clone, Copy, Debug, PartialEq, Eq, Structural)]
pub enum EscapeError {
    /// The spliced output bytes do not form valid UTF-8 text.
    InvalidUtf8,
    /// Fewer than two bytes remain after `\x` before the end of input.
    IncompleteHexEscape,
    /// A position that must hold a hex digit holds something else.
    InvalidHexDigit,
    /// A `\xHH` value exceeds the dialect's ceiling.
    HexValueOutOfRange,
    /// A `\u{...}` escape with a missing brace or a digit count of 0 or more than 6.
    MalformedUnicodeEscape,
    /// A `\u{...}` value above 0x10FFFF or inside the surrogate range.
    InvalidScalarValue,
}

impl Dialect {
    /// True when the dialect accepts `\xHH` hex-byte escapes.
    pub open spec fn allows_hex_escape(self) -> bool {
        self is Ascii || self is Byte || self is Unicode
    }

    /// The largest value a `\xHH` escape may denote under this dialect.
    /// `Unicode` accepts the whole byte range, as a superset of `Byte`.
    pub open spec fn hex_ceiling(self) -> int {
        if self is Ascii {
            0x7f
        } else {
            0xff
        }
    }

    /// True when the dialect accepts `\xHH` hex-byte escapes.
    pub fn allows_hex(&self) -> (r: bool)
        ensures
            r == self.allows_hex_escape(),
    {
        match self {
            Dialect::Ascii | Dialect::Byte | Dialect::Unicode => true,
            Dialect::Quote => false,
        }
    }

    /// The largest value a `\xHH` escape may denote under this dialect.
    pub fn hex_max(&self) -> (r: u8)
        ensures
            r as int == self.hex_ceiling(),
    {
        match self {
            Dialect::Ascii => 0x7f,
            _ => 0xff,
        }
    }
}

} // verus!
