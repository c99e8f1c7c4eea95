//! The public face of the resolver: [`resolve`] runs the escape scan over
//! a string under a chosen dialect and returns the unescaped text, and the
//! per-dialect entry points parameterize it.  The laws at the end state
//! what the resolver does on inputs without escapes.

use crate::classify::BACKSLASH;
use crate::dialect::Dialect;
use crate::dialect::EscapeError;
use crate::scan::scan_escapes;
use crate::scan::scan_exec;
use crate::scan::scan_from;
use vstd::prelude::*;
use vstd::string::StrSliceExecFns;
use vstd::utf8::decode_utf8;
use vstd::utf8::encode_scalar;
use vstd::utf8::encode_utf8;
use vstd::utf8::encode_utf8_decode_utf8;
use vstd::utf8::encode_utf8_valid_utf8;
use vstd::utf8::has_width_1_encoding;
use vstd::utf8::is_scalar;
use vstd::utf8::valid_utf8;

verus! {

/// What resolving the character sequence `s` under dialect `d` yields:
/// the characters of the spliced output when the scan succeeds and its
/// bytes form valid UTF-8 text, and the failure otherwise.
pub open spec fn resolve_spec(s: Seq<char>, d: Dialect) -> Result<Seq<char>, EscapeError> {
    match scan_escapes(encode_utf8(s), d) {
        Ok(b) => if valid_utf8(b) {
            Ok(decode_utf8(b))
        } else {
            Err(EscapeError::InvalidUtf8)
        },
        Err(e) => Err(e),
    }
}

/// Relies on `String::from_utf8`: it returns the string made of the given
/// bytes exactly when they are a valid UTF-8 encoding, and fails otherwise.
#[verifier::external_body]
fn utf8_to_string(bytes: Vec<u8>) -> (r: Option<String>)
    ensures
        r is Some <==> valid_utf8(bytes@),
        r matches Some(out) ==> encode_utf8(out@) == bytes@,
{
    String::from_utf8(bytes).ok()
}

/// Resolves every escape token in `source` under `dialect` and returns the
/// unescaped text, or the error of the first malformed escape operand.
pub fn resolve(source: &str, dialect: Dialect) -> (r: Result<String, EscapeError>)
    ensures
        match r {
            Ok(out) => resolve_spec(source@, dialect) == Ok::<Seq<char>, EscapeError>(out@),
            Err(e) => resolve_spec(source@, dialect) == Err::<Seq<char>, EscapeError>(e),
        },
{
    let bytes: Vec<u8> = source.as_bytes_vec();
    match scan_exec(&bytes, dialect) {
        Ok(resolved) => {
            match utf8_to_string(resolved) {
                Some(out) => {
                    proof {
                        encode_utf8_decode_utf8(out@);
                    }
                    Ok(out)
                },
                None => Err(EscapeError::InvalidUtf8),
            }
        },
        Err(e) => Err(e),
    }
}

/// Resolves escapes under the `Ascii` dialect: the simple escapes and
/// `\xHH` with values up to 0x7F.
pub fn escape_ascii(input: &str) -> (r: Result<String, EscapeError>)
    ensures
        match r {
            Ok(out) => resolve_spec(input@, Dialect::Ascii) == Ok::<Seq<char>, EscapeError>(out@),
            Err(e) => resolve_spec(input@, Dialect::Ascii) == Err::<Seq<char>, EscapeError>(e),
        },
{
    resolve(input, Dialect::Ascii)
}

/// Resolves escapes under the `Byte` dialect: the simple escapes and
/// `\xHH` over the whole byte range.
pub fn escape_bytes(input: &str) -> (r: Result<String, EscapeError>)
    ensures
        match r {
            Ok(out) => resolve_spec(input@, Dialect::Byte) == Ok::<Seq<char>, EscapeError>(out@),
            Err(e) => resolve_spec(input@, Dialect::Byte) == Err::<Seq<char>, EscapeError>(e),
        },
{
    resolve(input, Dialect::Byte)
}

/// Resolves escapes under the `Unicode` dialect, a superset grammar that
/// also accepts the byte forms: the simple escapes, `\xHH`, and
/// `\u{...}` with 1-6 hex digits naming a Unicode scalar.
pub fn escape_unicode(input: &str) -> (r: Result<String, EscapeError>)
    ensures
        match r {
            Ok(out) => resolve_spec(input@, Dialect::Unicode) == Ok::<Seq<char>, EscapeError>(
                out@,
            ),
            Err(e) => resolve_spec(input@, Dialect::Unicode) == Err::<Seq<char>, EscapeError>(e),
        },
{
    resolve(input, Dialect::Unicode)
}

/// Resolves escapes under the `Quote` dialect: the simple escapes plus
/// `\'` and `\"`, each passing the quote character through.
pub fn escape_quotes(input: &str) -> (r: Result<String, EscapeError>)
    ensures
        match r {
            Ok(out) => resolve_spec(input@, Dialect::Quote) == Ok::<Seq<char>, EscapeError>(out@),
            Err(e) => resolve_spec(input@, Dialect::Quote) == Err::<Seq<char>, EscapeError>(e),
        },
{
    resolve(input, Dialect::Quote)
}

/// A scan over bytes holding no escape introducer copies them verbatim.
proof fn lemma_scan_no_introducer(b: Seq<u8>, i: int, d: Dialect)
    requires
        0 <= i <= b.len(),
        forall|m: int| 0 <= m < b.len() ==> b[m] != BACKSLASH,
    ensures
        scan_from(b, i, d) == Ok::<Seq<u8>, EscapeError>(b.subrange(i, b.len() as int)),
    decreases b.len() - i,
{
    if i >= b.len() {
        assert(b.subrange(i, b.len() as int) =~= Seq::empty());
    } else {
        lemma_scan_no_introducer(b, i + 1, d);
        assert(seq![b[i]] + b.subrange(i + 1, b.len() as int) =~= b.subrange(i, b.len() as int));
    }
}

/// The UTF-8 encoding of a scalar other than the backslash holds no
/// backslash byte: a one-byte encoding is the scalar itself, and every
/// byte of a longer encoding is at least 0x80.
proof fn lemma_encode_scalar_no_introducer(c: u32)
    requires
        is_scalar(c),
        c != 92,
    ensures
        forall|m: int|
            0 <= m < encode_scalar(c).len() ==> #[trigger] encode_scalar(c)[m] != BACKSLASH,
{
    if has_width_1_encoding(c) {
        assert(((c & 0x7F) as u8) != 92u8) by (bit_vector)
            requires
                c <= 0x7F && c != 92,
        ;
    } else {
        assert((0xC0u8 | (((c >> 6) & 0x1F) as u8)) != 92u8) by (bit_vector);
        assert((0xE0u8 | (((c >> 12) & 0x0F) as u8)) != 92u8) by (bit_vector);
        assert((0xF0u8 | (((c >> 18) & 0x7) as u8)) != 92u8) by (bit_vector);
        assert((0x80u8 | ((c & 0x3F) as u8)) != 92u8) by (bit_vector);
        assert((0x80u8 | (((c >> 6) & 0x3F) as u8)) != 92u8) by (bit_vector);
        assert((0x80u8 | (((c >> 12) & 0x3F) as u8)) != 92u8) by (bit_vector);
    }
}

/// The UTF-8 encoding of characters other than the backslash holds no
/// backslash byte.
proof fn lemma_encode_no_introducer(s: Seq<char>)
    requires
        forall|m: int| 0 <= m < s.len() ==> s[m] != '\\',
    ensures
        forall|m: int|
            0 <= m < encode_utf8(s).len() ==> #[trigger] encode_utf8(s)[m] != BACKSLASH,
    decreases s.len(),
{
    if s.len() > 0 {
        let c = s[0] as u32;
        vstd::utf8::char_is_scalar(s[0]);
        assert(c != 92) by {
            if c == 92 {
                vstd::utf8::char_u32_cast(s[0], c);
                assert(s[0] == 92u32 as char);
            }
        }
        lemma_encode_scalar_no_introducer(c);
        lemma_encode_no_introducer(s.drop_first());
        assert forall|m: int|
            0 <= m < encode_utf8(s).len() implies #[trigger] encode_utf8(s)[m] != BACKSLASH by {
            if m >= encode_scalar(c).len() {
                assert(encode_utf8(s)[m] == encode_utf8(s.drop_first())[m - encode_scalar(
                    c,
                ).len()]);
            }
        }
    }
}

/// Identity law: an input holding no escape introducer resolves to itself
/// under every dialect.
pub proof fn lemma_resolve_identity(s: Seq<char>, d: Dialect)
    requires
        forall|m: int| 0 <= m < s.len() ==> s[m] != '\\',
    ensures
        resolve_spec(s, d) == Ok::<Seq<char>, EscapeError>(s),
{
    let b = encode_utf8(s);
    lemma_encode_no_introducer(s);
    lemma_scan_no_introducer(b, 0, d);
    assert(b.subrange(0, b.len() as int) =~= b);
    encode_utf8_valid_utf8(s);
    encode_utf8_decode_utf8(s);
}

/// Empty-input law: the empty input resolves to the empty output under
/// every dialect.
pub proof fn lemma_resolve_empty(d: Dialect)
    ensures
        resolve_spec(Seq::empty(), d) == Ok::<Seq<char>, EscapeError>(Seq::<char>::empty()),
{
    lemma_resolve_identity(Seq::empty(), d);
}

} // verus!
