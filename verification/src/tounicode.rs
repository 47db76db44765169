//! Decoding of PDF string bytes through a font's ToUnicode map.

use vstd::prelude::*;
use crate::chars::push_char;
use crate::strs::chars_of;
use crate::text::byte_len_of;
use pdf::font::ToUnicodeMap;

verus! {

#[verifier::external_type_specification]
#[verifier::external_body]
pub struct ExToUnicodeMap(pdf::font::ToUnicodeMap);

/// The entries of a ToUnicode map: character code to text.
pub uninterp spec fn tounicode_entries(m: ToUnicodeMap) -> Map<u16, Seq<char>>;

/// `ToUnicodeMap::get`: the text the map holds for `code`, copied out. Its
/// contract ties the result to the map's entries (named `tounicode_entries`):
/// `Some` exactly for a code with an entry, with that entry's text.
#[verifier::external_body]
fn tounicode_get(map: &ToUnicodeMap, code: u16) -> (r: Option<String>)
    ensures
        r is Some <==> tounicode_entries(*map).contains_key(code),
        r matches Some(s) ==> s@ == tounicode_entries(*map)[code],
{
    map.get(code).map(|s| s.to_string())
}

/// The character codes of a string read `width` bytes at a time (big
/// endian); a trailing odd byte is dropped for width 2. Other widths give
/// no codes.
pub open spec fn char_codes(bytes: Seq<u8>, width: nat) -> Seq<u16> {
    if width == 1 {
        Seq::new(bytes.len(), |i: int| bytes[i] as u16)
    } else if width == 2 {
        Seq::new(bytes.len() / 2, |i: int| (bytes[2 * i] as int * 256 + bytes[2 * i + 1] as int) as u16)
    } else {
        seq![]
    }
}

/// The text of the codes through the map, U+FFFD for a code it lacks, and how
/// many codes it had.
pub open spec fn decoded_codes(codes: Seq<u16>, m: Map<u16, Seq<char>>) -> (Seq<char>, nat)
    decreases codes.len(),
{
    if codes.len() == 0 {
        (seq![], 0)
    } else {
        let (s, n) = decoded_codes(codes.drop_last(), m);
        let c = codes.last();
        if m.contains_key(c) {
            (s + m[c], n + 1)
        } else {
            (s.push('\u{FFFD}'), n)
        }
    }
}

/// Decoding goes code by code: decoding two runs of codes one after the other
/// gives the two texts one after the other, the matches adding up; no more
/// codes match than were read.
pub proof fn lemma_decoded_codes_concat(a: Seq<u16>, b: Seq<u16>, m: Map<u16, Seq<char>>)
    ensures
        decoded_codes(a + b, m).0 == decoded_codes(a, m).0 + decoded_codes(b, m).0,
        decoded_codes(a + b, m).1 == decoded_codes(a, m).1 + decoded_codes(b, m).1,
        decoded_codes(a, m).1 <= a.len(),
    decreases b.len(),
{
    if b.len() == 0 {
        assert(a + b =~= a);
        assert(decoded_codes(a, m).0 + Seq::<char>::empty() =~= decoded_codes(a, m).0);
        lemma_decoded_count_bound(a, m);
    } else {
        assert((a + b).drop_last() =~= a + b.drop_last());
        assert((a + b).last() == b.last());
        lemma_decoded_codes_concat(a, b.drop_last(), m);
        let x = decoded_codes(a, m).0;
        let y = decoded_codes(b.drop_last(), m).0;
        let c = b.last();
        if m.contains_key(c) {
            assert(x + y + m[c] =~= x + (y + m[c]));
        } else {
            assert((x + y).push('\u{FFFD}') =~= x + y.push('\u{FFFD}'));
        }
    }
}

proof fn lemma_decoded_count_bound(a: Seq<u16>, m: Map<u16, Seq<char>>)
    ensures
        decoded_codes(a, m).1 <= a.len(),
    decreases a.len(),
{
    if a.len() > 0 {
        lemma_decoded_count_bound(a.drop_last(), m);
    }
}

/// `(text, codes found in the map, codes read)` for a string read `width`
/// bytes at a time; nothing for a width other than 1 or 2.
pub open spec fn decoded_bytes(bytes: Seq<u8>, width: nat, m: Map<u16, Seq<char>>) -> (Seq<char>, nat, nat) {
    let codes = char_codes(bytes, width);
    let (s, n) = decoded_codes(codes, m);
    (s, n, codes.len())
}

/// Decodes string bytes through a ToUnicode map (see `decoded_bytes`).
pub fn decode_bytes(bytes: &[u8], width: usize, map: &ToUnicodeMap) -> (r: (String, usize, usize))
    ensures
        (r.0@, r.1 as nat, r.2 as nat) == decoded_bytes(bytes@, width as nat, tounicode_entries(*map)),
{
    let ghost m = tounicode_entries(*map);
    let ghost codes = char_codes(bytes@, width as nat);
    let total: usize = if width == 1 {
        bytes.len()
    } else if width == 2 {
        bytes.len() / 2
    } else {
        0
    };
    let mut out = String::new();
    let mut matches: usize = 0;
    let mut i: usize = 0;
    while i < total
        invariant
            i <= total,
            total == codes.len(),
            width == 1 ==> total == bytes@.len(),
            width == 2 ==> total == bytes@.len() / 2,
            width != 1 && width != 2 ==> total == 0,
            codes == char_codes(bytes@, width as nat),
            m == tounicode_entries(*map),
            (out@, matches as nat) == decoded_codes(codes.take(i as int), m),
            matches <= i,
        decreases total - i,
    {
        let code: u16 = if width == 1 {
            bytes[i] as u16
        } else {
            assert(width == 2);
            assert(i < bytes@.len() / 2);
            assert(2 * i + 1 < bytes@.len());
            let n = bytes.len();
            assert(2 * i + 1 < n);
            let j: usize = 2 * i;
            (bytes[j] as u16) * 256 + bytes[j + 1] as u16
        };
        assert(code == codes[i as int]);
        assert(codes.take(i + 1).drop_last() =~= codes.take(i as int));
        match tounicode_get(map, code) {
            Some(s) => {
                let sc = chars_of(s.as_str());
                let ghost before = out@;
                let mut k: usize = 0;
                while k < sc.len()
                    invariant
                        k <= sc.len(),
                        out@ == before + sc@.take(k as int),
                    decreases sc.len() - k,
                {
                    push_char(&mut out, sc[k]);
                    assert(sc@.take(k + 1) =~= sc@.take(k as int).push(sc@[k as int]));
                    k += 1;
                }
                assert(sc@.take(sc.len() as int) =~= sc@);
                matches += 1;
            },
            None => {
                push_char(&mut out, '\u{FFFD}');
            },
        }
        i += 1;
    }
    assert(codes.take(total as int) =~= codes);
    (out, matches, total)
}

/// Of the one-byte and (for an even length) two-byte readings, the one with
/// more codes found, the longer text breaking a tie (in bytes); the one-byte
/// reading when neither wins.
pub open spec fn better_reading(one: (Seq<char>, nat, nat), two: (Seq<char>, nat, nat), even: bool, one_len: nat, two_len: nat) -> bool {
    even && (two.1 > one.1 || (two.1 == one.1 && two_len > one_len))
}

/// Decodes string bytes both ways and keeps the better reading (see
/// `better_reading`); the text's length is compared in UTF-8 bytes.
pub fn best_reading(bytes: &[u8], map: &ToUnicodeMap) -> (r: (String, usize, usize))
    ensures
        ({
            let m = tounicode_entries(*map);
            let one = decoded_bytes(bytes@, 1, m);
            let two = decoded_bytes(bytes@, 2, m);
            let pick_two = bytes@.len() % 2 == 0 && (two.1 > one.1 || (two.1 == one.1
                && crate::chars::byte_len(two.0) > crate::chars::byte_len(one.0)));
            (r.0@, r.1 as nat, r.2 as nat) == if pick_two {
                two
            } else {
                one
            }
        }),
{
    let first = decode_bytes(bytes, 1, map);
    if bytes.len() % 2 == 0 {
        let second = decode_bytes(bytes, 2, map);
        let l1 = byte_len_of(chars_of(first.0.as_str()).as_slice());
        let l2 = byte_len_of(chars_of(second.0.as_str()).as_slice());
        if second.1 > first.1 || (second.1 == first.1 && l2 > l1) {
            return second;
        }
    }
    first
}

} // verus!
