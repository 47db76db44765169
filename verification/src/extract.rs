//! Assembly of page text from the text-showing operations of a PDF content
//! stream, once each operation has been decoded to a string.

use vstd::prelude::*;
use crate::chars::{is_whitespace, is_ws, push_char};
use crate::chars::char_from_ascii;
use crate::num::{decimal, decimal_string};
use crate::strs::{chars_of, extend_chars, string_of};
use crate::text::{sanitize_char, sanitize_chars, sanitized};

verus! {

broadcast use vstd::seq_lib::group_seq_properties;

/// One step of a content stream, as far as text assembly is concerned.
#[derive(Debug, Clone, PartialEq, Eq)]
pub enum TextRun {
    /// Decoded text of a `Tj` string or of a string inside `TJ`.
    Text(String),
    /// A `TJ` spacing adjustment wide enough to stand for a word space.
    WideGap,
    /// A line break: `T*`, or a text move downwards.
    LineBreak,
}

/// Punctuation before which no word space is inserted.
pub open spec fn closing_punct(c: char) -> bool {
    c == ',' || c == '.' || c == ';' || c == ':' || c == '!' || c == '?' || c == ')' || c == ']'
        || c == '}'
}

/// The first char that is not white space.
pub open spec fn first_non_ws(s: Seq<char>) -> Option<char>
    decreases s.len(),
{
    if s.len() == 0 {
        None
    } else if !is_ws(s[0]) {
        Some(s[0])
    } else {
        first_non_ws(s.drop_first())
    }
}

/// Appending one decoded piece: it is sanitised; an empty piece changes
/// nothing; after a wide gap a space goes between the text so far and the
/// piece, unless the text is empty or already ends in white space, or the
/// piece starts with white space or with closing punctuation.
pub open spec fn appended_piece(out: Seq<char>, s: Seq<char>, pending: bool) -> (Seq<char>, bool) {
    let t = sanitized(s);
    if t.len() == 0 {
        (out, pending)
    } else if pending {
        let suppress = match first_non_ws(t) {
            Some(c) => closing_punct(c),
            None => false,
        };
        let space = out.len() > 0 && !suppress && !(out.last() == ' ' || out.last() == '\n'
            || out.last() == '\t') && !is_ws(t[0]);
        ((if space {
            out.push(' ')
        } else {
            out
        }) + t, false)
    } else {
        (out + t, false)
    }
}

/// Appending a piece keeps the text so far and puts the sanitised piece
/// after it, with at most one space between them, and that only after a
/// wide gap and never after white space; an empty piece changes nothing and
/// a non-empty one uses up the pending gap.
pub proof fn lemma_appended_piece_extends(out: Seq<char>, s: Seq<char>, pending: bool)
    ensures
        ({
            let (r, p) = appended_piece(out, s, pending);
            let t = sanitized(s);
            &&& r == out + t || (pending && r == out.push(' ') + t)
            &&& r.len() == out.len() + 1 + t.len() ==> pending && out.len() > 0 && out.last() != ' ' && out.last()
                != '\n' && out.last() != '\t'
            &&& t.len() > 0 ==> !p
            &&& t.len() == 0 ==> r == out && p == pending
        }),
{
}

proof fn lemma_sanitized_no_nul(s: Seq<char>)
    ensures
        !sanitized(s).contains('\0'),
    decreases s.len(),
{
    if s.len() > 0 {
        lemma_sanitized_no_nul(s.drop_last());
        let a = sanitized(s.drop_last());
        let b = sanitize_char(s.last());
        assert(!b.contains('\0'));
        if (a + b).contains('\0') {
            let k = choose|k: int| 0 <= k < (a + b).len() && (a + b)[k] == '\0';
            if k < a.len() {
                assert(a[k] == '\0');
            } else {
                assert(b[k - a.len()] == '\0');
            }
        }
    }
}

/// Appends one decoded text piece to the page text (see `appended_piece`).
/// Sanitised text holds no NUL, so no NUL is left to strip from its ends.
pub fn append_text_piece(out: &mut String, s: &str, pending_space: &mut bool)
    ensures
        (final(out)@, *final(pending_space)) == appended_piece(old(out)@, s@, *old(pending_space)),
{
    proof {
        lemma_sanitized_no_nul(s@);
    }
    let sc = chars_of(s);
    let t = sanitize_chars(sc.as_slice());
    if t.len() == 0 {
        return;
    }
    let ghost o = out@;
    if *pending_space {
        let mut i: usize = 0;
        while i < t.len() && is_whitespace(t[i])
            invariant
                i <= t.len(),
                first_non_ws(t@) == first_non_ws(t@.skip(i as int)),
            decreases t.len() - i,
        {
            assert(t@.skip(i as int).drop_first() =~= t@.skip(i + 1));
            i += 1;
        }
        let suppress = if i < t.len() {
            assert(t@.skip(i as int)[0] == t@[i as int]);
            let c = t[i];
            c == ',' || c == '.' || c == ';' || c == ':' || c == '!' || c == '?' || c == ')' || c
                == ']' || c == '}'
        } else {
            false
        };
        let oc = chars_of(out.as_str());
        let ends_ws = oc.len() > 0 && (oc[oc.len() - 1] == ' ' || oc[oc.len() - 1] == '\n'
            || oc[oc.len() - 1] == '\t');
        if oc.len() > 0 && !suppress && !ends_ws && !is_whitespace(t[0]) {
            push_char(out, ' ');
        }
        *pending_space = false;
    }
    let ghost mid = out@;
    let mut k: usize = 0;
    while k < t.len()
        invariant
            k <= t.len(),
            out@ == mid + t@.take(k as int),
        decreases t.len() - k,
    {
        push_char(out, t[k]);
        assert(t@.take(k + 1) =~= t@.take(k as int).push(t@[k as int]));
        k += 1;
    }
    assert(t@.take(t.len() as int) =~= t@);
}

/// Text assembled from the first runs, and whether a word space is pending.
pub open spec fn runs_state(runs: Seq<TextRun>) -> (Seq<char>, bool)
    decreases runs.len(),
{
    if runs.len() == 0 {
        (seq![], false)
    } else {
        let (out, pending) = runs_state(runs.drop_last());
        match runs.last() {
            TextRun::Text(s) => appended_piece(out, s@, pending),
            TextRun::WideGap => (out, true),
            TextRun::LineBreak => (out.push('\n'), false),
        }
    }
}

/// The text of a page from its decoded runs: pieces are appended as
/// `append_text_piece` does, a wide gap makes a word space pending, and a
/// line break appends a line feed and drops a pending space.
pub fn text_from_runs(runs: &Vec<TextRun>) -> (s: String)
    ensures
        s@ == runs_state(runs@).0,
{
    let mut out = String::new();
    let mut pending = false;
    let mut i: usize = 0;
    while i < runs.len()
        invariant
            i <= runs.len(),
            (out@, pending) == runs_state(runs@.take(i as int)),
        decreases runs.len() - i,
    {
        assert(runs@.take(i + 1).drop_last() =~= runs@.take(i as int));
        assert(runs@.take(i + 1).last() == runs@[i as int]);
        match &runs[i] {
            TextRun::Text(s) => {
                append_text_piece(&mut out, s.as_str(), &mut pending);
            },
            TextRun::WideGap => {
                pending = true;
            },
            TextRun::LineBreak => {
                push_char(&mut out, '\n');
                pending = false;
            },
        }
        i += 1;
    }
    assert(runs@.take(runs.len() as int) =~= runs@);
    out
}

/// An uppercase hexadecimal digit.
pub open spec fn hex_upper(n: u8) -> char {
    if n < 10 {
        (48 + n) as char
    } else {
        (55 + n) as char
    }
}

/// A byte as two uppercase hexadecimal digits.
pub open spec fn byte_hex(b: u8) -> Seq<char> {
    seq![hex_upper(b / 16), hex_upper(b % 16)]
}

/// Bytes as uppercase hexadecimal pairs separated by single spaces.
pub open spec fn hex_pairs(bs: Seq<u8>) -> Seq<char>
    decreases bs.len(),
{
    if bs.len() == 0 {
        seq![]
    } else if bs.len() == 1 {
        byte_hex(bs[0])
    } else {
        hex_pairs(bs.drop_last()) + seq![' '] + byte_hex(bs.last())
    }
}

/// Most bytes of a string the debug listing shows.
pub const BYTES_PREVIEW_MAX: usize = 64;

/// The bytes of a PDF string as the debug listing shows them: the first 64
/// as hexadecimal pairs, then ` …(+<n> bytes)` for the `n` left out.
pub open spec fn bytes_preview(bs: Seq<u8>) -> Seq<char> {
    if bs.len() <= BYTES_PREVIEW_MAX {
        hex_pairs(bs)
    } else {
        hex_pairs(bs.take(BYTES_PREVIEW_MAX as int)) + " \u{2026}(+"@ + decimal((bs.len() - BYTES_PREVIEW_MAX) as nat)
            + " bytes)"@
    }
}

fn hex_char(n: u8) -> (c: char)
    requires
        n < 16,
    ensures
        c == hex_upper(n),
{
    if n < 10 {
        char_from_ascii((48 + n) as u32)
    } else {
        char_from_ascii((55 + n) as u32)
    }
}

pub fn bytes_preview_text(bytes: &[u8]) -> (s: String)
    ensures
        s@ == bytes_preview(bytes@),
{
    let n: usize = if bytes.len() <= BYTES_PREVIEW_MAX {
        bytes.len()
    } else {
        BYTES_PREVIEW_MAX
    };
    let mut v: Vec<char> = Vec::new();
    let mut i: usize = 0;
    while i < n
        invariant
            i <= n <= bytes@.len(),
            n == (if bytes@.len() <= BYTES_PREVIEW_MAX { bytes@.len() } else { BYTES_PREVIEW_MAX as nat }),
            v@ == hex_pairs(bytes@.take(i as int)),
        decreases n - i,
    {
        let b = bytes[i];
        assert(bytes@.take(i + 1).drop_last() =~= bytes@.take(i as int));
        assert(bytes@.take(i + 1).last() == b);
        if i > 0 {
            v.push(' ');
        }
        v.push(hex_char(b / 16));
        v.push(hex_char(b % 16));
        proof {
            if i == 0 {
                assert(bytes@.take(1) =~= seq![b]);
            }
        }
        assert(v@ =~= hex_pairs(bytes@.take(i + 1)));
        i += 1;
    }
    if bytes.len() > BYTES_PREVIEW_MAX {
        let rest = decimal_string((bytes.len() - BYTES_PREVIEW_MAX) as u64);
        extend_chars(&mut v, chars_of(" \u{2026}(+").as_slice());
        extend_chars(&mut v, chars_of(rest.as_str()).as_slice());
        extend_chars(&mut v, chars_of(" bytes)").as_slice());
    } else {
        assert(bytes@.take(i as int) =~= bytes@);
    }
    string_of(v.as_slice())
}

} // verus!
