//! Encoding of file paths as database strings.
//!
//! A path whose bytes are UTF-8 is stored as its text (behind a `utf8:`
//! marker when the text itself starts with one of the markers); any other path
//! is stored as `osbytes:` followed by the lowercase hex of its bytes.

use vstd::prelude::*;
use vstd::utf8::{decode_utf8, encode_utf8, valid_utf8};
use crate::chars::push_char;
use crate::strs::{chars_of, starts_with, starts_with_chars, string_of};

verus! {

broadcast use vstd::seq_lib::group_seq_properties;

pub open spec fn hex_digit(n: u8) -> char
    recommends
        n < 16,
{
    if n < 10 {
        (('0' as u8) + n) as char
    } else {
        (('a' as u8) + (n - 10)) as char
    }
}

/// Lowercase hex of `bytes`, two digits per byte, high nibble first.
pub open spec fn hex_enc(bytes: Seq<u8>) -> Seq<char>
    decreases bytes.len(),
{
    if bytes.len() == 0 {
        seq![]
    } else {
        let b = bytes.last();
        hex_enc(bytes.drop_last()) + seq![hex_digit(b / 16), hex_digit(b % 16)]
    }
}

/// Value of a hex digit of either case.
pub open spec fn hex_val(c: char) -> Option<u8> {
    if '0' <= c <= '9' {
        Some(((c as u32) - ('0' as u32)) as u8)
    } else if 'a' <= c <= 'f' {
        Some(((c as u32) - ('a' as u32) + 10) as u8)
    } else if 'A' <= c <= 'F' {
        Some(((c as u32) - ('A' as u32) + 10) as u8)
    } else {
        None
    }
}

/// Decoding of an even-length run of hex digit pairs.
pub open spec fn hex_pairs(s: Seq<char>) -> Option<Seq<u8>>
    decreases s.len(),
{
    if s.len() < 2 {
        Some(seq![])
    } else {
        match (hex_pairs(s.take(s.len() - 2)), hex_val(s[s.len() - 2]), hex_val(s[s.len() - 1])) {
            (Some(prev), Some(hi), Some(lo)) => Some(prev.push((hi * 16 + lo) as u8)),
            _ => None,
        }
    }
}

/// Hex decoding: `None` for an odd length or any char that is not a hex digit.
pub open spec fn hex_dec(s: Seq<char>) -> Option<Seq<u8>> {
    if s.len() % 2 != 0 {
        None
    } else {
        hex_pairs(s)
    }
}

fn hex_digit_exec(n: u8) -> (c: char)
    requires
        n < 16,
    ensures
        c == hex_digit(n),
{
    if n < 10 {
        (48u8 + n) as char
    } else {
        (97u8 + (n - 10)) as char
    }
}

fn hex_val_exec(c: char) -> (r: Option<u8>)
    ensures
        r == hex_val(c),
{
    if '0' <= c && c <= '9' {
        Some(((c as u32) - ('0' as u32)) as u8)
    } else if 'a' <= c && c <= 'f' {
        Some(((c as u32) - ('a' as u32) + 10) as u8)
    } else if 'A' <= c && c <= 'F' {
        Some(((c as u32) - ('A' as u32) + 10) as u8)
    } else {
        None
    }
}

/// Lowercase hex of `bytes`.
pub fn hex_encode(bytes: &[u8]) -> (s: String)
    ensures
        s@ == hex_enc(bytes@),
{
    let mut out = String::new();
    let mut i: usize = 0;
    while i < bytes.len()
        invariant
            i <= bytes.len(),
            out@ == hex_enc(bytes@.take(i as int)),
        decreases bytes.len() - i,
    {
        let b = bytes[i];
        assert(bytes@.take(i + 1).drop_last() =~= bytes@.take(i as int));
        push_char(&mut out, hex_digit_exec(b / 16));
        push_char(&mut out, hex_digit_exec(b % 16));
        assert(out@ =~= hex_enc(bytes@.take(i + 1)));
        i += 1;
    }
    assert(bytes@.take(bytes.len() as int) =~= bytes@);
    out
}

/// Hex decoding of either case; `None` for an odd length or a char that is
/// not a hex digit.
pub fn hex_decode(hex: &str) -> (r: Option<Vec<u8>>)
    ensures
        r matches Some(v) ==> hex_dec(hex@) == Some(v@),
        r is None ==> hex_dec(hex@) is None,
{
    let s = chars_of(hex);
    if s.len() % 2 != 0 {
        return None;
    }
    let mut out: Vec<u8> = Vec::new();
    let mut i: usize = 0;
    while i < s.len()
        invariant
            i <= s.len(),
            i % 2 == 0,
            s.len() % 2 == 0,
            s@ == hex@,
            hex_pairs(s@.take(i as int)) == Some(out@),
        decreases s.len() - i,
    {
        let ghost t = s@.take(i + 2);
        assert(t.take(t.len() - 2) =~= s@.take(i as int));
        assert(t[t.len() - 2] == s@[i as int]);
        assert(t[t.len() - 1] == s@[i + 1]);
        let hi = hex_val_exec(s[i]);
        let lo = hex_val_exec(s[i + 1]);
        match (hi, lo) {
            (Some(h), Some(l)) => {
                assert(h < 16 && l < 16);
                out.push(h * 16 + l);
            },
            _ => {
                proof {
                    lemma_hex_pairs_none_extends(s@, i as int + 2);
                }
                return None;
            },
        }
        i += 2;
    }
    assert(s@.take(s.len() as int) =~= s@);
    Some(out)
}

proof fn lemma_hex_pairs_none_extends(s: Seq<char>, i: int)
    requires
        2 <= i <= s.len(),
        i % 2 == 0,
        s.len() % 2 == 0,
        hex_pairs(s.take(i)) is None,
    ensures
        hex_pairs(s) is None,
    decreases s.len() - i,
{
    if i < s.len() {
        let t = s.take(i + 2);
        assert(t.take(t.len() - 2) =~= s.take(i));
        lemma_hex_pairs_none_extends(s, i + 2);
    } else {
        assert(s.take(i) =~= s);
    }
}

/// Hex decoding undoes hex encoding.
pub proof fn lemma_hex_roundtrip(bytes: Seq<u8>)
    ensures
        hex_enc(bytes).len() == 2 * bytes.len(),
        hex_dec(hex_enc(bytes)) == Some(bytes),
    decreases bytes.len(),
{
    if bytes.len() > 0 {
        lemma_hex_roundtrip(bytes.drop_last());
        let e = hex_enc(bytes);
        let b = bytes.last();
        assert(e.take(e.len() - 2) =~= hex_enc(bytes.drop_last()));
        let hi = b / 16;
        let lo = b % 16;
        assert(hex_val(hex_digit(hi)) == Some(hi)) by {
            lemma_hex_digit_val(hi);
        }
        assert(hex_val(hex_digit(lo)) == Some(lo)) by {
            lemma_hex_digit_val(lo);
        }
        assert(e[e.len() - 2] == hex_digit(hi));
        assert(e[e.len() - 1] == hex_digit(lo));
        assert((hi * 16 + lo) as u8 == b);
        assert(bytes.drop_last().push(b) =~= bytes);
    }
}

proof fn lemma_hex_digit_val(n: u8)
    requires
        n < 16,
    ensures
        hex_val(hex_digit(n)) == Some(n),
{
}

/// The text of a UTF-8 path, or `None` when its bytes are not UTF-8
/// (`std::str::from_utf8`). Its contract states what the documentation of
/// `from_utf8` promises: success exactly on valid UTF-8, decoded as such.
#[verifier::external_body]
fn utf8_text(bytes: &[u8]) -> (r: Option<String>)
    ensures
        r is Some <==> valid_utf8(bytes@),
        r matches Some(s) ==> s@ == decode_utf8(bytes@),
{
    match std::str::from_utf8(bytes) {
        Ok(s) => Some(s.to_string()),
        Err(_) => None,
    }
}

/// The text of arbitrary bytes with each invalid sequence replaced by
/// U+FFFD (`String::from_utf8_lossy`).
pub uninterp spec fn utf8_lossy(bytes: Seq<u8>) -> Seq<char>;

/// `String::from_utf8_lossy`. Its contract names the result and states the one
/// fact its documentation gives plainly: valid UTF-8 is decoded unchanged.
#[verifier::external_body]
pub(crate) fn lossy_text(bytes: &[u8]) -> (s: String)
    ensures
        s@ == utf8_lossy(bytes@),
        valid_utf8(bytes@) ==> s@ == decode_utf8(bytes@),
{
    String::from_utf8_lossy(bytes).into_owned()
}

/// The stored form of a path given by its bytes.
pub open spec fn encoded_path(bytes: Seq<u8>) -> Seq<char> {
    if valid_utf8(bytes) {
        let s = decode_utf8(bytes);
        if starts_with(s, "utf8:"@) || starts_with(s, "osbytes:"@) {
            "utf8:"@ + s
        } else {
            s
        }
    } else {
        "osbytes:"@ + hex_enc(bytes)
    }
}

/// The path bytes that a stored string stands for.
pub open spec fn decoded_path(e: Seq<char>) -> Seq<u8> {
    if starts_with(e, "utf8:"@) {
        encode_utf8(e.skip(5))
    } else if starts_with(e, "osbytes:"@) && hex_dec(e.skip(8)) is Some {
        hex_dec(e.skip(8))->0
    } else {
        encode_utf8(e)
    }
}

fn append_str(out: &mut String, s: &str)
    ensures
        final(out)@ == old(out)@ + s@,
{
    let v = chars_of(s);
    let ghost start = out@;
    let mut i: usize = 0;
    while i < v.len()
        invariant
            i <= v.len(),
            v@ == s@,
            out@ == start + v@.take(i as int),
        decreases v.len() - i,
    {
        push_char(out, v[i]);
        assert(v@.take(i + 1) =~= v@.take(i as int).push(v@[i as int]));
        i += 1;
    }
    assert(v@.take(v.len() as int) =~= v@);
}

fn utf8_bytes(s: &str) -> (v: Vec<u8>)
    ensures
        v@ == encode_utf8(s@),
{
    vstd::slice::slice_to_vec(s.as_bytes())
}

/// Encodes a path given by its bytes for storage.
pub fn encode_path(bytes: &[u8]) -> (s: String)
    ensures
        s@ == encoded_path(bytes@),
{
    match utf8_text(bytes) {
        Some(text) => {
            let c = chars_of(text.as_str());
            let p1 = chars_of("utf8:");
            let p2 = chars_of("osbytes:");
            if starts_with_chars(c.as_slice(), p1.as_slice()) || starts_with_chars(
                c.as_slice(),
                p2.as_slice(),
            ) {
                let mut out = String::new();
                append_str(&mut out, "utf8:");
                append_str(&mut out, text.as_str());
                out
            } else {
                text
            }
        },
        None => {
            let mut out = String::new();
            append_str(&mut out, "osbytes:");
            let hex = hex_encode(bytes);
            append_str(&mut out, hex.as_str());
            out
        },
    }
}

/// The path bytes that a stored string stands for.
pub fn decode_path(encoded: &str) -> (v: Vec<u8>)
    ensures
        v@ == decoded_path(encoded@),
{
    let c = chars_of(encoded);
    let p1 = chars_of("utf8:");
    let p2 = chars_of("osbytes:");
    if starts_with_chars(c.as_slice(), p1.as_slice()) {
        proof {
            reveal_strlit("utf8:");
        }
        let rest = string_of(vstd::slice::slice_subrange(c.as_slice(), 5, c.len()));
        return utf8_bytes(rest.as_str());
    }
    if starts_with_chars(c.as_slice(), p2.as_slice()) {
        proof {
            reveal_strlit("osbytes:");
        }
        let rest = string_of(vstd::slice::slice_subrange(c.as_slice(), 8, c.len()));
        if let Some(bytes) = hex_decode(rest.as_str()) {
            return bytes;
        }
    }
    utf8_bytes(encoded)
}

/// How a stored path is shown: the text of its bytes, invalid UTF-8 replaced.
pub fn display_path(encoded: &str) -> (s: String)
    ensures
        s@ == utf8_lossy(decoded_path(encoded@)),
        valid_utf8(decoded_path(encoded@)) ==> s@ == decode_utf8(decoded_path(encoded@)),
{
    let bytes = decode_path(encoded);
    lossy_text(bytes.as_slice())
}

/// Decoding a stored path gives back the bytes it was encoded from, for
/// every path, UTF-8 or not.
pub proof fn lemma_path_roundtrip(bytes: Seq<u8>)
    ensures
        decoded_path(encoded_path(bytes)) == bytes,
{
    reveal_strlit("utf8:");
    reveal_strlit("osbytes:");
    let e = encoded_path(bytes);
    if valid_utf8(bytes) {
        let s = decode_utf8(bytes);
        vstd::utf8::decode_utf8_encode_utf8(bytes);
        if starts_with(s, "utf8:"@) || starts_with(s, "osbytes:"@) {
            assert(starts_with(e, "utf8:"@)) by {
                assert(e.subrange(0, 5) =~= "utf8:"@);
            }
            assert(e.skip(5) =~= s);
        } else {
            assert(e == s);
        }
    } else {
        lemma_hex_roundtrip(bytes);
        assert(e[0] == 'o');
        assert(!starts_with(e, "utf8:"@)) by {
            if starts_with(e, "utf8:"@) {
                assert(e.subrange(0, 5)[0] == 'u');
            }
        }
        assert(e.subrange(0, 8) =~= "osbytes:"@);
        assert(e.skip(8) =~= hex_enc(bytes));
    }
}

} // verus!
