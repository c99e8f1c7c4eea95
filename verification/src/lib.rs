//! Resolver for backslash escape sequences in text.
//!
//! The library scans a string for escape tokens such as `\n`, `\x7F` and
//! `\u{1F980}` and replaces each with the literal bytes it denotes, leaving
//! all other content untouched.  Which escape kinds are legal, and the
//! numeric ceiling of a hex escape, are chosen by a [`Dialect`].  Malformed
//! escapes fail the whole call with an [`EscapeError`]; no partial output is
//! ever returned.

pub mod classify;
pub mod dialect;
pub mod resolve;
pub mod scan;

pub use classify::ascii_to_hex;
pub use classify::char_to_escape_sequence;
pub use classify::is_complex_escape;
pub use classify::is_simple_escape;
pub use dialect::Dialect;
pub use dialect::EscapeError;
pub use resolve::escape_ascii;
pub use resolve::escape_bytes;
pub use resolve::escape_quotes;
pub use resolve::escape_unicode;
pub use resolve::resolve;
