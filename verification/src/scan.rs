//! The escape scan: a single left-to-right pass over the input bytes that
//! copies unescaped content verbatim and splices in the value of each
//! recognized escape token, or fails on a malformed operand.
//!
//! [`scan_from`] is the mathematical description of the pass from a given
//! offset; [`scan_escapes`] runs it over a whole byte sequence.  The
//! executable scanner [`scan_exec`] is proved to return exactly what
//! [`scan_escapes`] describes.

use crate::classify::ascii_to_hex;
use crate::classify::classify_simple_escape;
use crate::classify::hex_digit_value;
use crate::classify::is_hex_digit;
use crate::classify::is_hex_digit_byte;
use crate::classify::is_simple_escape_byte;
use crate::classify::resolve_simple_escape;
use crate::classify::simple_escape_value;
use crate::classify::BACKSLASH;
use crate::classify::CLOSE_BRACE;
use crate::classify::LETTER_U;
use crate::classify::LETTER_X;
use crate::classify::OPEN_BRACE;
use crate::dialect::Dialect;
use crate::dialect::EscapeError;
use vstd::prelude::*;
use vstd::utf8::encode_scalar;
use vstd::utf8::is_scalar;

verus! {

/// Prepends literal bytes to the output of the rest of a scan, or passes
/// the rest's failure through.
pub open spec fn emit(bytes: Seq<u8>, rest: Result<Seq<u8>, EscapeError>) -> Result<
    Seq<u8>,
    EscapeError,
> {
    match rest {
        Ok(r) => Ok(bytes + r),
        Err(e) => Err(e),
    }
}

/// Length of the run of hex digits in `s` starting at offset `i`.
pub open spec fn hex_run_len(s: Seq<u8>, i: int) -> int
    decreases s.len() - i,
    when 0 <= i <= s.len()
{
    if i >= s.len() || !is_hex_digit(s[i]) {
        0
    } else {
        1 + hex_run_len(s, i + 1)
    }
}

/// The value of a sequence of hex digits, most significant first.
pub open spec fn hex_seq_value(s: Seq<u8>) -> int
    decreases s.len(),
{
    if s.len() == 0 {
        0
    } else {
        hex_seq_value(s.drop_last()) * 16 + hex_digit_value(s.last())
    }
}

/// What the scan yields from offset `i` of `s` to the end, under dialect
/// `d`: the spliced output bytes, or the error of the first malformed
/// escape operand.
///
/// At each step: a byte other than the introducer is copied; an introducer
/// that ends the input is copied literally; a recognized escape is consumed
/// whole and replaced by its value, with a malformed operand failing the
/// scan; an introducer before an escape letter the dialect does not know is
/// copied literally, and the scan resumes at the letter.
pub open spec fn scan_from(s: Seq<u8>, i: int, d: Dialect) -> Result<Seq<u8>, EscapeError>
    decreases s.len() - i,
    when 0 <= i <= s.len()
{
    if i >= s.len() {
        Ok(Seq::empty())
    } else if s[i] != BACKSLASH {
        emit(seq![s[i]], scan_from(s, i + 1, d))
    } else if i + 1 >= s.len() {
        // a lone trailing introducer is kept literally
        Ok(seq![BACKSLASH])
    } else if is_simple_escape_byte(s[i + 1], d) {
        emit(seq![simple_escape_value(s[i + 1])], scan_from(s, i + 2, d))
    } else if s[i + 1] == LETTER_X && d.allows_hex_escape() {
        if i + 4 > s.len() {
            Err(EscapeError::IncompleteHexEscape)
        } else if !is_hex_digit(s[i + 2]) || !is_hex_digit(s[i + 3]) {
            Err(EscapeError::InvalidHexDigit)
        } else if hex_digit_value(s[i + 2]) * 16 + hex_digit_value(s[i + 3]) > d.hex_ceiling() {
            Err(EscapeError::HexValueOutOfRange)
        } else {
            emit(
                seq![(hex_digit_value(s[i + 2]) * 16 + hex_digit_value(s[i + 3])) as u8],
                scan_from(s, i + 4, d),
            )
        }
    } else if s[i + 1] == LETTER_U && d is Unicode {
        if i + 2 >= s.len() || s[i + 2] != OPEN_BRACE {
            Err(EscapeError::MalformedUnicodeEscape)
        } else {
            let k = hex_run_len(s, i + 3);
            if i + 3 + k >= s.len() {
                // the digits run off the end: no closing brace
                Err(EscapeError::MalformedUnicodeEscape)
            } else if s[i + 3 + k] != CLOSE_BRACE {
                // a character that is neither a hex digit nor the brace
                Err(EscapeError::InvalidHexDigit)
            } else if k <= 0 || k > 6 {
                // a run is never negative; `<=` keeps that visible to the
                // termination check of the recursive call below
                Err(EscapeError::MalformedUnicodeEscape)
            } else {
                let v = hex_seq_value(s.subrange(i + 3, i + 3 + k));
                if !is_scalar(v as u32) {
                    Err(EscapeError::InvalidScalarValue)
                } else {
                    emit(encode_scalar(v as u32), scan_from(s, i + 4 + k, d))
                }
            }
        }
    } else {
        // unrecognized escape letter: keep the introducer, rescan from the letter
        emit(seq![BACKSLASH], scan_from(s, i + 1, d))
    }
}

/// The whole scan of `s` under dialect `d`.
pub open spec fn scan_escapes(s: Seq<u8>, d: Dialect) -> Result<Seq<u8>, EscapeError> {
    scan_from(s, 0, d)
}

/// A maximal all-hex run of length `k` starting at `i` is exactly what
/// [`hex_run_len`] counts.
proof fn lemma_hex_run_len_eq(s: Seq<u8>, i: int, k: int)
    requires
        0 <= i,
        0 <= k,
        i + k <= s.len(),
        forall|m: int| i <= m < i + k ==> is_hex_digit(#[trigger] s[m]),
        i + k < s.len() ==> !is_hex_digit(s[i + k]),
    ensures
        hex_run_len(s, i) == k,
    decreases k,
{
    if k > 0 {
        lemma_hex_run_len_eq(s, i + 1, k - 1);
    }
}

/// Sixteen to the power `n`.
spec fn pow16(n: nat) -> int
    decreases n,
{
    if n == 0 {
        1
    } else {
        16 * pow16((n - 1) as nat)
    }
}

proof fn lemma_pow16_pos(n: nat)
    ensures
        pow16(n) >= 1,
    decreases n,
{
    if n > 0 {
        lemma_pow16_pos((n - 1) as nat);
    }
}

proof fn lemma_pow16_mono(a: nat, b: nat)
    requires
        a <= b,
    ensures
        pow16(a) <= pow16(b),
    decreases b - a,
{
    if a < b {
        lemma_pow16_mono(a, (b - 1) as nat);
        lemma_pow16_pos((b - 1) as nat);
    }
}

proof fn lemma_pow16_small()
    ensures
        pow16(5) == 0x100000,
        pow16(6) == 0x1000000,
{
    reveal_with_fuel(pow16, 7);
}

/// The value of an all-hex digit sequence is bounded by sixteen to the
/// power of its length.
proof fn lemma_hex_seq_value_bound(s: Seq<u8>)
    requires
        forall|m: int| 0 <= m < s.len() ==> is_hex_digit(#[trigger] s[m]),
    ensures
        0 <= hex_seq_value(s),
        hex_seq_value(s) < pow16(s.len()),
    decreases s.len(),
{
    if s.len() > 0 {
        lemma_hex_seq_value_bound(s.drop_last());
    }
}

proof fn lemma_emit_empty(r: Result<Seq<u8>, EscapeError>)
    ensures
        emit(Seq::empty(), r) == r,
{
    match r {
        Ok(x) => {
            assert(Seq::empty() + x =~= x);
        },
        Err(_) => {},
    }
}

proof fn lemma_emit_assoc(a: Seq<u8>, b: Seq<u8>, r: Result<Seq<u8>, EscapeError>)
    ensures
        emit(a, emit(b, r)) == emit(a + b, r),
{
    match r {
        Ok(x) => {
            assert(a + (b + x) =~= (a + b) + x);
        },
        Err(_) => {},
    }
}

/// Appends the UTF-8 encoding of the scalar `v` to `out`.
fn push_scalar(out: &mut Vec<u8>, v: u32)
    requires
        is_scalar(v),
    ensures
        final(out)@ == old(out)@ + encode_scalar(v),
{
    if v <= 0x7F {
        out.push((v & 0x7F) as u8);
        proof {
            assert(out@ =~= old(out)@ + encode_scalar(v));
        }
    } else if v <= 0x7FF {
        out.push(0xC0 | (((v >> 6) & 0x1F) as u8));
        out.push(0x80 | ((v & 0x3F) as u8));
        proof {
            assert(out@ =~= old(out)@ + encode_scalar(v));
        }
    } else if v <= 0xFFFF {
        out.push(0xE0 | (((v >> 12) & 0x0F) as u8));
        out.push(0x80 | (((v >> 6) & 0x3F) as u8));
        out.push(0x80 | ((v & 0x3F) as u8));
        proof {
            assert(out@ =~= old(out)@ + encode_scalar(v));
        }
    } else {
        out.push(0xF0 | (((v >> 18) & 0x7) as u8));
        out.push(0x80 | (((v >> 12) & 0x3F) as u8));
        out.push(0x80 | (((v >> 6) & 0x3F) as u8));
        out.push(0x80 | ((v & 0x3F) as u8));
        proof {
            assert(out@ =~= old(out)@ + encode_scalar(v));
        }
    }
}

/// The executable scan: returns exactly what [`scan_escapes`] describes
/// for the input bytes and dialect.
pub fn scan_exec(src: &Vec<u8>, d: Dialect) -> (r: Result<Vec<u8>, EscapeError>)
    ensures
        r matches Ok(out) ==> scan_escapes(src@, d) == Ok::<Seq<u8>, EscapeError>(out@),
        r matches Err(e) ==> scan_escapes(src@, d) == Err::<Seq<u8>, EscapeError>(e),
{
    let ghost s = src@;
    let mut out: Vec<u8> = Vec::new();
    let mut i: usize = 0;
    proof {
        lemma_emit_empty(scan_from(s, 0, d));
    }
    while i < src.len()
        invariant
            i <= src.len(),
            s == src@,
            scan_escapes(s, d) == emit(out@, scan_from(s, i as int, d)),
        decreases src.len() - i,
    {
        let ghost pre_i = i as int;
        let ghost pre_out = out@;
        let b: u8 = src[i];
        if b != BACKSLASH {
            out.push(b);
            i = i + 1;
            proof {
                assert(out@ =~= pre_out + seq![s[pre_i]]);
                lemma_emit_assoc(pre_out, seq![s[pre_i]], scan_from(s, pre_i + 1, d));
            }
        } else if src.len() - i == 1 {
            out.push(BACKSLASH);
            i = i + 1;
            proof {
                assert(scan_from(s, pre_i, d) == Ok::<Seq<u8>, EscapeError>(seq![BACKSLASH]));
                assert(out@ + Seq::<u8>::empty() =~= pre_out + seq![BACKSLASH]);
            }
        } else {
            let c: u8 = src[i + 1];
            if classify_simple_escape(c, d) {
                let rb: u8 = resolve_simple_escape(c);
                out.push(rb);
                i = i + 2;
                proof {
                    assert(out@ =~= pre_out + seq![simple_escape_value(s[pre_i + 1])]);
                    lemma_emit_assoc(
                        pre_out,
                        seq![simple_escape_value(s[pre_i + 1])],
                        scan_from(s, pre_i + 2, d),
                    );
                }
            } else if c == LETTER_X && d.allows_hex() {
                if src.len() - i < 4 {
                    return Err(EscapeError::IncompleteHexEscape);
                }
                let d1: u8 = src[i + 2];
                let d2: u8 = src[i + 3];
                if !is_hex_digit_byte(d1) || !is_hex_digit_byte(d2) {
                    return Err(EscapeError::InvalidHexDigit);
                }
                let hv: u8 = ascii_to_hex(d1) * 16 + ascii_to_hex(d2);
                if hv > d.hex_max() {
                    return Err(EscapeError::HexValueOutOfRange);
                }
                out.push(hv);
                i = i + 4;
                proof {
                    assert(out@ =~= pre_out + seq![hv]);
                    lemma_emit_assoc(pre_out, seq![hv], scan_from(s, pre_i + 4, d));
                }
            } else if c == LETTER_U && d == Dialect::Unicode {
                if src.len() - i < 3 {
                    return Err(EscapeError::MalformedUnicodeEscape);
                }
                if src[i + 2] != OPEN_BRACE {
                    return Err(EscapeError::MalformedUnicodeEscape);
                }
                let mut k: usize = 0;
                while i + 3 + k < src.len() && is_hex_digit_byte(src[i + 3 + k])
                    invariant
                        s == src@,
                        i + 3 <= src.len(),
                        i + 3 + k <= src.len(),
                        forall|m: int| i + 3 <= m < i + 3 + k ==> is_hex_digit(#[trigger] s[m]),
                    decreases src.len() - (i + 3 + k),
                {
                    k = k + 1;
                }
                proof {
                    lemma_hex_run_len_eq(s, pre_i + 3, k as int);
                }
                if i + 3 + k == src.len() {
                    return Err(EscapeError::MalformedUnicodeEscape);
                }
                if src[i + 3 + k] != CLOSE_BRACE {
                    return Err(EscapeError::InvalidHexDigit);
                }
                if k == 0 || k > 6 {
                    return Err(EscapeError::MalformedUnicodeEscape);
                }
                let mut v: u32 = 0;
                let mut j: usize = 0;
                while j < k
                    invariant
                        s == src@,
                        j <= k,
                        1 <= k <= 6,
                        i + 3 + k < src.len(),
                        forall|m: int| i + 3 <= m < i + 3 + k ==> is_hex_digit(#[trigger] s[m]),
                        v as int == hex_seq_value(s.subrange(i + 3, i + 3 + j)),
                    decreases k - j,
                {
                    proof {
                        let part = s.subrange(i + 3, i + 3 + j);
                        assert(forall|m: int| 0 <= m < part.len() ==> is_hex_digit(#[trigger] part[m]));
                        lemma_hex_seq_value_bound(part);
                        lemma_pow16_mono(j as nat, 5);
                        lemma_pow16_small();
                    }
                    let dgt: u8 = ascii_to_hex(src[i + 3 + j]);
                    v = v * 16 + dgt as u32;
                    j = j + 1;
                    proof {
                        let whole = s.subrange(i + 3, i + 3 + j);
                        assert(whole.drop_last() =~= s.subrange(i + 3, i + 3 + j - 1));
                        assert(whole.last() == s[i + 3 + j - 1]);
                    }
                }
                proof {
                    let digits = s.subrange(pre_i + 3, pre_i + 3 + k as int);
                    assert(forall|m: int|
                        0 <= m < digits.len() ==> is_hex_digit(#[trigger] digits[m]));
                    lemma_hex_seq_value_bound(digits);
                    lemma_pow16_mono(k as nat, 6);
                    lemma_pow16_small();
                }
                if v > 0x10FFFF || (0xD800 <= v && v <= 0xDFFF) {
                    return Err(EscapeError::InvalidScalarValue);
                }
                proof {
                    assert(is_scalar(v));
                    assert(hex_seq_value(s.subrange(pre_i + 3, pre_i + 3 + k as int)) as u32 == v);
                }
                push_scalar(&mut out, v);
                i = i + 4 + k;
                proof {
                    assert(scan_from(s, pre_i, d) == emit(
                        encode_scalar(v),
                        scan_from(s, i as int, d),
                    ));
                    lemma_emit_assoc(pre_out, encode_scalar(v), scan_from(s, i as int, d));
                }
            } else {
                out.push(BACKSLASH);
                i = i + 1;
                proof {
                    assert(out@ =~= pre_out + seq![BACKSLASH]);
                    lemma_emit_assoc(pre_out, seq![BACKSLASH], scan_from(s, pre_i + 1, d));
                }
            }
        }
    }
    proof {
        assert(out@ + Seq::<u8>::empty() =~= out@);
    }
    Ok(out)
}

} // verus!
