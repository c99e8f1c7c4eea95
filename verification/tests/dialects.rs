use escape_resolver::escape_ascii;
use escape_resolver::escape_bytes;
use escape_resolver::escape_quotes;
use escape_resolver::escape_unicode;
use escape_resolver::EscapeError;

#[test]
fn test_newline() {
    assert_eq!(
        String::from("hello\nworld"),
        escape_ascii(r"hello\nworld").unwrap()
    );
}

#[test]
fn test_carriage_return() {
    assert_eq!(
        String::from("hello\rworld"),
        escape_ascii(r"hello\rworld").unwrap()
    );
}

#[test]
fn test_tab() {
    assert_eq!(
        String::from("hello\tworld"),
        escape_ascii(r"hello\tworld").unwrap()
    );
}

#[test]
fn test_backslash() {
    assert_eq!(
        String::from("hello\\world"),
        escape_ascii(r"hello\\world").unwrap()
    );
}

#[test]
fn test_null() {
    assert_eq!(
        String::from("hello\0world"),
        escape_ascii(r"hello\0world").unwrap()
    );
}

#[test]
fn test_ascii_byte() {
    assert_eq!(
        String::from("hello\x20world"),
        escape_ascii(r"hello\x20world").unwrap()
    );
}

#[test]
fn test_newline_bytes() {
    assert_eq!(
        String::from("hello\nworld"),
        escape_bytes(r"hello\nworld").unwrap()
    );
}

#[test]
fn test_carriage_return_bytes() {
    assert_eq!(
        String::from("hello\rworld"),
        escape_bytes(r"hello\rworld").unwrap()
    );
}

#[test]
fn test_tab_bytes() {
    assert_eq!(
        String::from("hello\tworld"),
        escape_bytes(r"hello\tworld").unwrap()
    );
}

#[test]
fn test_backslash_bytes() {
    assert_eq!(
        String::from("hello\\world"),
        escape_bytes(r"hello\\world").unwrap()
    );
}

#[test]
fn test_null_bytes() {
    assert_eq!(
        String::from("hello\0world"),
        escape_bytes(r"hello\0world").unwrap()
    );
}

#[test]
fn test_non_ascii_byte() {
    assert_eq!(
        String::from("hello\x7fworld"),
        escape_bytes(r"hello\x7fworld").unwrap()
    );
}

#[test]
fn test_unicode_u7fff() {
    assert_eq!(
        String::from("Hello\u{7fff}world"),
        escape_unicode(r"Hello\u{7fff}world").unwrap()
    );
}

#[test]
fn test_unicode_crab_emoji() {
    assert_eq!(
        String::from("Hello\u{1f980}world"),
        escape_unicode(r"Hello\u{1f980}world").unwrap()
    );
}

#[test]
fn test_escape_at_end() {
    assert_eq!(
        String::from("Hello world\n"),
        escape_ascii(r"Hello world\n").unwrap()
    );
}

#[test]
fn test_complex_escape_at_end() {
    assert_eq!(
        String::from("Hello world\x20"),
        escape_ascii(r"Hello world\x20").unwrap()
    );
}

#[test]
fn test_trailing_backslash() {
    assert_eq!(
        String::from("Hello world\\"),
        escape_ascii(r"Hello world\").unwrap()
    );
}

#[test]
fn empty_input_every_dialect() {
    assert_eq!(String::new(), escape_ascii("").unwrap());
    assert_eq!(String::new(), escape_bytes("").unwrap());
    assert_eq!(String::new(), escape_unicode("").unwrap());
    assert_eq!(String::new(), escape_quotes("").unwrap());
}

#[test]
fn identity_without_introducer() {
    let plain = "no escapes here: just text, quotes ' \" and braces {7f}.";
    assert_eq!(plain, escape_ascii(plain).unwrap());
    assert_eq!(plain, escape_bytes(plain).unwrap());
    assert_eq!(plain, escape_unicode(plain).unwrap());
    assert_eq!(plain, escape_quotes(plain).unwrap());
    let wide = "caf\u{e9} \u{1f980} multi-byte text";
    assert_eq!(wide, escape_unicode(wide).unwrap());
    assert_eq!(wide, escape_ascii(wide).unwrap());
}

#[test]
fn resolving_twice_differs() {
    // resolving is not idempotent: `\\n` resolves to `\n`, which a second
    // call turns into a newline
    let first = escape_ascii(r"a\\nb").unwrap();
    assert_eq!(String::from(r"a\nb"), first);
    let second = escape_ascii(&first).unwrap();
    assert_eq!(String::from("a\nb"), second);
    assert_ne!(first, second);
}

#[test]
fn simple_escapes_exact() {
    assert_eq!(String::from("a\nb"), escape_ascii(r"a\nb").unwrap());
    assert_eq!(String::from("a\tb"), escape_ascii(r"a\tb").unwrap());
    assert_eq!(String::from("a\rb"), escape_ascii(r"a\rb").unwrap());
    assert_eq!(String::from("a\\b"), escape_ascii(r"a\\b").unwrap());
    assert_eq!(String::from("a\0b"), escape_ascii(r"a\0b").unwrap());
}

#[test]
fn ascii_hex_boundary() {
    // 0x7F is the Ascii ceiling and must succeed; 0x80 must not
    assert_eq!(
        String::from("hello\x7fworld"),
        escape_ascii(r"hello\x7fworld").unwrap()
    );
    assert_eq!(
        EscapeError::HexValueOutOfRange,
        escape_ascii(r"\x80").unwrap_err()
    );
}

#[test]
fn byte_hex_splices_multibyte_utf8() {
    // two byte escapes forming one valid two-byte encoded character
    assert_eq!(String::from("\u{e9}"), escape_bytes(r"\xc3\xa9").unwrap());
}

#[test]
fn byte_hex_invalid_utf8() {
    // a lone 0xFF byte is not valid UTF-8, so the whole call fails
    assert_eq!(EscapeError::InvalidUtf8, escape_bytes(r"\xff").unwrap_err());
}

#[test]
fn incomplete_hex_escape() {
    assert_eq!(
        EscapeError::IncompleteHexEscape,
        escape_ascii(r"\x2").unwrap_err()
    );
}

#[test]
fn invalid_hex_digit() {
    assert_eq!(
        EscapeError::InvalidHexDigit,
        escape_ascii(r"\xzz").unwrap_err()
    );
}

#[test]
fn unicode_empty_braces() {
    assert_eq!(
        EscapeError::MalformedUnicodeEscape,
        escape_unicode(r"\u{}").unwrap_err()
    );
}

#[test]
fn unicode_value_too_large() {
    assert_eq!(
        EscapeError::InvalidScalarValue,
        escape_unicode(r"\u{110000}").unwrap_err()
    );
}

#[test]
fn unicode_surrogate_rejected() {
    assert_eq!(
        EscapeError::InvalidScalarValue,
        escape_unicode(r"\u{d800}").unwrap_err()
    );
}

#[test]
fn unicode_missing_open_brace() {
    assert_eq!(
        EscapeError::MalformedUnicodeEscape,
        escape_unicode(r"\u41").unwrap_err()
    );
}

#[test]
fn unicode_missing_close_brace() {
    assert_eq!(
        EscapeError::MalformedUnicodeEscape,
        escape_unicode(r"\u{41").unwrap_err()
    );
}

#[test]
fn unicode_too_many_digits() {
    assert_eq!(
        EscapeError::MalformedUnicodeEscape,
        escape_unicode(r"\u{0000041}").unwrap_err()
    );
}

#[test]
fn unicode_bad_digit_in_braces() {
    assert_eq!(
        EscapeError::InvalidHexDigit,
        escape_unicode(r"\u{4z}").unwrap_err()
    );
}

#[test]
fn unicode_digit_counts() {
    // one hex digit up to six hex digits are all accepted
    assert_eq!(String::from("\t"), escape_unicode(r"\u{9}").unwrap());
    assert_eq!(
        String::from("\u{1f980}"),
        escape_unicode(r"\u{01f980}").unwrap()
    );
}

#[test]
fn unicode_accepts_byte_forms() {
    // the Unicode dialect is a superset grammar: byte escapes still work
    assert_eq!(String::from("aAb"), escape_unicode(r"a\x41b").unwrap());
    assert_eq!(String::from("\u{e9}"), escape_unicode(r"\xc3\xa9").unwrap());
}

#[test]
fn quote_dialect_passthrough() {
    assert_eq!(String::from("'\""), escape_quotes(r#"\'\""#).unwrap());
    assert_eq!(String::from("a\nb"), escape_quotes(r"a\nb").unwrap());
}

#[test]
fn quote_dialect_leaves_hex_alone() {
    // the Quote dialect has no hex escapes: the introducer stays literal
    assert_eq!(String::from(r"\x41"), escape_quotes(r"\x41").unwrap());
}

#[test]
fn unknown_letter_kept_verbatim() {
    // permissive policy: an unrecognized escape letter keeps the introducer
    assert_eq!(String::from(r"a\qb"), escape_ascii(r"a\qb").unwrap());
    assert_eq!(String::from(r"\u{41}"), escape_ascii(r"\u{41}").unwrap());
}

#[test]
fn hex_null_byte() {
    assert_eq!(String::from("\0"), escape_ascii(r"\x00").unwrap());
}
