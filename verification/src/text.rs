//! Clean-up of text extracted from PDF pages: sanitising, line
//! normalisation, and the paragraph reflow of the reader's text mode.

use vstd::prelude::*;
use crate::chars::{
    alphabetic, byte_len, char_utf8_width, is_alphabetic, is_cc, is_control, is_uppercase,
    is_whitespace, is_ws, uppercase, utf8_width,
};
use crate::strs::{
    extend_chars, is_blank, lines, split_chars, split_on, starts_with, starts_with_chars, trim,
    trim_chars, trim_end, trim_start, views,
};

verus! {

broadcast use vstd::seq_lib::group_seq_properties;

/// Private Use Area code points (BMP, plane 15 and plane 16).
pub open spec fn private_use(code: u32) -> bool {
    (0xE000 <= code <= 0xF8FF) || (0xF0000 <= code <= 0xFFFFD) || (0x100000 <= code <= 0x10FFFD)
}

/// Unicode noncharacters: U+FDD0..U+FDEF and the last two code points of every plane.
pub open spec fn noncharacter(code: u32) -> bool {
    (0xFDD0 <= code <= 0xFDEF) || code % 0x10000 == 0xFFFE || code % 0x10000 == 0xFFFF
}

pub fn is_private_use(code: u32) -> (b: bool)
    ensures
        b == private_use(code),
{
    (0xE000 <= code && code <= 0xF8FF) || (0xF0000 <= code && code <= 0xFFFFD) || (0x100000
        <= code && code <= 0x10FFFD)
}

pub fn is_noncharacter(code: u32) -> (b: bool)
    ensures
        b == noncharacter(code),
{
    (0xFDD0 <= code && code <= 0xFDEF) || code % 0x10000 == 0xFFFE || code % 0x10000 == 0xFFFF
}

/// What sanitising keeps of one char: line feeds and tabs stay, a carriage
/// return becomes a line feed, and the replacement char, other control chars,
/// private-use chars and noncharacters are dropped.
pub open spec fn sanitize_char(c: char) -> Seq<char> {
    if c == '\n' || c == '\t' {
        seq![c]
    } else if c == '\r' {
        seq!['\n']
    } else if c == '\u{FFFD}' {
        seq![]
    } else if is_cc(c) {
        seq![]
    } else if private_use(c as u32) || noncharacter(c as u32) {
        seq![]
    } else {
        seq![c]
    }
}

pub open spec fn sanitized(s: Seq<char>) -> Seq<char>
    decreases s.len(),
{
    if s.len() == 0 {
        seq![]
    } else {
        sanitized(s.drop_last()) + sanitize_char(s.last())
    }
}

pub fn sanitize_chars(s: &[char]) -> (r: Vec<char>)
    ensures
        r@ == sanitized(s@),
{
    let mut out: Vec<char> = Vec::new();
    let mut i: usize = 0;
    while i < s.len()
        invariant
            i <= s.len(),
            out@ == sanitized(s@.take(i as int)),
        decreases s.len() - i,
    {
        let ch = s[i];
        assert(s@.take(i + 1).drop_last() =~= s@.take(i as int));
        let ghost before = out@;
        if ch == '\n' || ch == '\t' {
            out.push(ch);
        } else if ch == '\r' {
            out.push('\n');
        } else if ch == '\u{FFFD}' {
        } else if is_control(ch) {
        } else {
            let code = ch as u32;
            if !(is_private_use(code) || is_noncharacter(code)) {
                out.push(ch);
            }
        }
        assert(out@ =~= before + sanitize_char(ch));
        i += 1;
    }
    assert(s@.take(s.len() as int) =~= s@);
    out
}

/// Drops chars that only disturb reading: control chars other than line feed
/// and tab, the replacement char, private-use chars and noncharacters; a
/// carriage return becomes a line feed.
pub fn sanitize_extracted_text(s: &str) -> (r: String)
    ensures
        r@ == sanitized(s@),
{
    let c = crate::strs::chars_of(s);
    let out = sanitize_chars(c.as_slice());
    crate::strs::string_of(out.as_slice())
}

/// Left-to-right pass of line normalisation: soft hyphens are dropped and
/// each run of white space becomes one space.
pub open spec fn collapse_state(s: Seq<char>) -> (Seq<char>, bool)
    decreases s.len(),
{
    if s.len() == 0 {
        (seq![], false)
    } else {
        let (out, last_space) = collapse_state(s.drop_last());
        let c = s.last();
        if c == '\u{AD}' {
            (out, last_space)
        } else if is_ws(c) {
            if !last_space {
                (out.push(' '), true)
            } else {
                (out, true)
            }
        } else {
            (out.push(c), false)
        }
    }
}

/// A line with soft hyphens removed, white-space runs collapsed to one space,
/// and trimmed.
pub open spec fn normalized_line(s: Seq<char>) -> Seq<char> {
    trim(collapse_state(s).0)
}

/// No soft hyphen, white space only as single spaces.
pub open spec fn single_spaced(s: Seq<char>) -> bool {
    &&& forall|i: int| 0 <= i < s.len() ==> #[trigger] s[i] != '\u{AD}' && (is_ws(s[i]) ==> s[i] == ' ')
    &&& forall|i: int| 0 <= i && i + 1 < s.len() && #[trigger] s[i] == ' ' ==> s[i + 1] != ' '
}

proof fn lemma_collapse_shape(s: Seq<char>)
    ensures
        single_spaced(collapse_state(s).0),
        collapse_state(s).1 ==> collapse_state(s).0.len() > 0 && collapse_state(s).0.last() == ' ',
        !collapse_state(s).1 && collapse_state(s).0.len() > 0 ==> collapse_state(s).0.last() != ' ',
    decreases s.len(),
{
    if s.len() > 0 {
        lemma_collapse_shape(s.drop_last());
        let (out, last_space) = collapse_state(s.drop_last());
        let c = s.last();
        assert(is_ws(' '));
        let o2 = collapse_state(s).0;
        if o2.len() == out.len() + 1 {
            assert forall|i: int| 0 <= i < o2.len() implies #[trigger] o2[i] != '\u{AD}' && (is_ws(o2[i]) ==> o2[i]
                == ' ') by {
                if i < out.len() {
                    assert(o2[i] == out[i]);
                }
            }
            assert forall|i: int| 0 <= i && i + 1 < o2.len() && #[trigger] o2[i] == ' ' implies o2[i + 1] != ' ' by {
                assert(o2[i] == out[i]);
                if i + 1 < out.len() {
                    assert(o2[i + 1] == out[i + 1]);
                }
            }
        }
    }
}

proof fn lemma_trim_start_suffix(s: Seq<char>)
    ensures
        trim_start(s).len() <= s.len(),
        trim_start(s) == s.subrange(s.len() - trim_start(s).len(), s.len() as int),
    decreases s.len(),
{
    if s.len() > 0 && is_ws(s[0]) {
        lemma_trim_start_suffix(s.drop_first());
        let t = trim_start(s);
        assert(s.drop_first().subrange(s.len() - 1 - t.len(), s.len() - 1) =~= s.subrange(
            s.len() - t.len(),
            s.len() as int,
        ));
    } else {
        assert(s.subrange(0, s.len() as int) =~= s);
    }
}

proof fn lemma_trim_end_prefix(s: Seq<char>)
    ensures
        trim_end(s).len() <= s.len(),
        trim_end(s) == s.subrange(0, trim_end(s).len() as int),
    decreases s.len(),
{
    if s.len() > 0 && is_ws(s.last()) {
        lemma_trim_end_prefix(s.drop_last());
        assert(s.drop_last().subrange(0, trim_end(s).len() as int) =~= s.subrange(0, trim_end(s).len() as int));
    } else {
        assert(s.subrange(0, s.len() as int) =~= s);
    }
}

/// A normalised line has no soft hyphen, no white space but single spaces
/// between words, and starts and ends with a char that is not white space.
pub proof fn lemma_normalized_line_shape(s: Seq<char>)
    ensures
        single_spaced(normalized_line(s)),
        normalized_line(s).len() > 0 ==> !is_ws(normalized_line(s)[0]) && !is_ws(normalized_line(s).last()),
{
    let c = collapse_state(s).0;
    lemma_collapse_shape(s);
    lemma_trim_start_suffix(c);
    let a = crate::strs::trim_start(c);
    lemma_trim_end_prefix(a);
    let r = normalized_line(s);
    let k = c.len() - a.len();
    assert forall|i: int| 0 <= i < r.len() implies r[i] == c[i + k] by {
        assert(r[i] == a[i]);
        assert(a[i] == c[i + k]);
    }
    assert forall|i: int| 0 <= i < r.len() implies #[trigger] r[i] != '\u{AD}' && (is_ws(r[i]) ==> r[i] == ' ') by {
        assert(r[i] == c[i + k]);
    }
    assert forall|i: int| 0 <= i && i + 1 < r.len() && #[trigger] r[i] == ' ' implies r[i + 1] != ' ' by {
        assert(r[i] == c[i + k]);
        assert(r[i + 1] == c[i + 1 + k]);
    }
    crate::strs::lemma_trim_shape(c);
}

pub fn normalize_line_chars(line: &[char]) -> (r: Vec<char>)
    ensures
        r@ == normalized_line(line@),
{
    let mut out: Vec<char> = Vec::new();
    let mut last_was_space = false;
    let mut i: usize = 0;
    while i < line.len()
        invariant
            i <= line.len(),
            (out@, last_was_space) == collapse_state(line@.take(i as int)),
        decreases line.len() - i,
    {
        let ch = line[i];
        assert(line@.take(i + 1).drop_last() =~= line@.take(i as int));
        if ch == '\u{AD}' {
        } else if is_whitespace(ch) {
            if !last_was_space {
                out.push(' ');
                last_was_space = true;
            }
        } else {
            out.push(ch);
            last_was_space = false;
        }
        i += 1;
    }
    assert(line@.take(line.len() as int) =~= line@);
    trim_chars(out.as_slice())
}

/// Normalises a line for comparisons and reflow: soft hyphens removed,
/// white-space runs collapsed to one space, trimmed.
pub fn normalize_line_for_reflow(line: &str) -> (r: String)
    ensures
        r@ == normalized_line(line@),
{
    let c = crate::strs::chars_of(line);
    let out = normalize_line_chars(c.as_slice());
    crate::strs::string_of(out.as_slice())
}

/// Chars that open a bulleted line when a space follows them.
pub open spec fn bullet_char(c: char) -> bool {
    c == '\u{2022}' || c == '-' || c == '*' || c == '\u{2013}' || c == '\u{2014}'
}

/// Number of leading ASCII digits.
pub open spec fn leading_digits(s: Seq<char>) -> nat
    decreases s.len(),
{
    if s.len() > 0 && '0' <= s[0] <= '9' {
        1 + leading_digits(s.drop_first())
    } else {
        0
    }
}

/// A bulleted (`- x`, `* x`, `• x`, ...) or numbered (`1. x`, `2) x`) line.
pub open spec fn bullet_start(line: Seq<char>) -> bool {
    let l = crate::strs::trim_start(line);
    if l.len() > 0 && bullet_char(l[0]) {
        l.len() > 1 && is_ws(l[1])
    } else {
        let d = leading_digits(l);
        d > 0 && d + 1 < l.len() && (l[d as int] == '.' || l[d as int] == ')') && is_ws(
            l[d + 1 as int],
        )
    }
}

/// The first alphabetic char of the line exists and is uppercase.
pub open spec fn uppercase_word_start(line: Seq<char>) -> bool
    decreases line.len(),
{
    if line.len() == 0 {
        false
    } else if alphabetic(line[0]) {
        uppercase(line[0])
    } else {
        uppercase_word_start(line.drop_first())
    }
}

proof fn lemma_leading_digits(s: Seq<char>, i: int)
    requires
        0 <= i <= s.len(),
        forall|k: int| 0 <= k < i ==> '0' <= #[trigger] s[k] <= '9',
    ensures
        leading_digits(s) == i + leading_digits(s.skip(i)),
    decreases i,
{
    if i > 0 {
        assert(s.drop_first().skip(i - 1) =~= s.skip(i));
        assert forall|k: int| 0 <= k < i - 1 implies '0' <= #[trigger] s.drop_first()[k] <= '9' by {
            assert(s.drop_first()[k] == s[k + 1]);
        }
        lemma_leading_digits(s.drop_first(), i - 1);
    } else {
        assert(s.skip(0) =~= s);
    }
}

fn is_bullet_start(line: &[char]) -> (b: bool)
    ensures
        b == bullet_start(line@),
{
    let mut st: usize = 0;
    while st < line.len() && is_whitespace(line[st])
        invariant
            st <= line.len(),
            forall|j: int| 0 <= j < st ==> is_ws(#[trigger] line@[j]),
        decreases line.len() - st,
    {
        st += 1;
    }
    let ghost l = line@.skip(st as int);
    proof {
        crate::strs::lemma_trim_start_skip(line@, st as int);
        assert(line@.subrange(st as int, line@.len() as int) =~= l);
        if l.len() > 0 {
            assert(l[0] == line@[st as int]);
        }
        assert(crate::strs::trim_start(l) == l);
    }
    let n = line.len();
    if st < n && (line[st] == '\u{2022}' || line[st] == '-' || line[st] == '*' || line[st]
        == '\u{2013}' || line[st] == '\u{2014}') {
        assert(l[0] == line@[st as int]);
        if st + 1 < n {
            assert(l[1] == line@[st + 1]);
            return is_whitespace(line[st + 1]);
        }
        return false;
    }
    let mut i = st;
    while i < n && '0' <= line[i] && line[i] <= '9'
        invariant
            st <= i <= n,
            n == line.len(),
            forall|k: int| st <= k < i ==> '0' <= #[trigger] line@[k] <= '9',
        decreases n - i,
    {
        i += 1;
    }
    proof {
        assert forall|k: int| 0 <= k < i - st implies '0' <= #[trigger] l[k] <= '9' by {
            assert(l[k] == line@[st + k]);
        }
        lemma_leading_digits(l, i - st);
        let rest = l.skip(i - st);
        if rest.len() > 0 {
            assert(rest[0] == line@[i as int]);
        }
        assert(leading_digits(rest) == 0);
    }
    if i == st {
        return false;
    }
    if i < n && n - i > 1 && (line[i] == '.' || line[i] == ')') {
        assert(l[i - st] == line@[i as int]);
        assert(l[i - st + 1] == line@[i + 1]);
        is_whitespace(line[i + 1])
    } else {
        if i < n {
            assert(l[i - st] == line@[i as int]);
        }
        false
    }
}

fn starts_with_uppercase_word(line: &[char]) -> (b: bool)
    ensures
        b == uppercase_word_start(line@),
{
    let mut i: usize = 0;
    while i < line.len()
        invariant
            i <= line.len(),
            uppercase_word_start(line@) == uppercase_word_start(line@.skip(i as int)),
        decreases line.len() - i,
    {
        let ghost t = line@.skip(i as int);
        assert(t[0] == line@[i as int]);
        assert(t.drop_first() =~= line@.skip(i + 1));
        if is_alphabetic(line[i]) {
            return is_uppercase(line[i]);
        }
        i += 1;
    }
    false
}

/// Whether a line ending in `-` is joined to the next without the hyphen:
/// not after `--`, and only between two letters.
pub open spec fn dehyphenates(paragraph: Seq<char>, next: Seq<char>) -> bool {
    !crate::strs::ends_with(paragraph, "--"@) && paragraph.len() >= 2 && alphabetic(
        paragraph[paragraph.len() - 2],
    ) && next.len() > 0 && alphabetic(next[0])
}

/// A paragraph with one more normalised line appended.
pub open spec fn appended_line(paragraph: Seq<char>, line: Seq<char>) -> Seq<char> {
    if paragraph.len() == 0 {
        line
    } else if paragraph.last() == '-' && dehyphenates(paragraph, line) {
        paragraph.drop_last() + line
    } else if paragraph.last() == ' ' {
        paragraph + line
    } else {
        paragraph.push(' ') + line
    }
}

fn append_reflow_line(paragraph: &mut Vec<char>, line: &[char])
    ensures
        final(paragraph)@ == appended_line(old(paragraph)@, line@),
{
    if paragraph.len() == 0 {
        extend_chars(paragraph, line);
        return;
    }
    let n = paragraph.len();
    if paragraph[n - 1] == '-' {
        let dash2 = ['-', '-'];
        proof {
            reveal_strlit("--");
            assert(dash2@ =~= "--"@);
        }
        let ends2 = crate::strs::ends_with_chars(paragraph.as_slice(), dash2.as_slice());
        let dehyph = !ends2 && n >= 2 && is_alphabetic(paragraph[n - 2]) && line.len() > 0
            && is_alphabetic(line[0]);
        if dehyph {
            paragraph.pop();
            extend_chars(paragraph, line);
            return;
        }
    }
    if paragraph[n - 1] != ' ' {
        paragraph.push(' ');
    }
    extend_chars(paragraph, line);
}

/// Closing a paragraph: its trimmed text is appended after a blank line (no
/// blank line before the first one); an empty paragraph changes nothing.
pub open spec fn flushed(out: Seq<char>, paragraph: Seq<char>, prev_blank: bool) -> (
    Seq<char>,
    Seq<char>,
    bool,
) {
    let t = trim(paragraph);
    if t.len() == 0 {
        (out, paragraph, prev_blank)
    } else if out.len() > 0 {
        (out + seq!['\n', '\n'] + t, seq![], true)
    } else {
        (out + t, seq![], true)
    }
}

fn flush_paragraph(out: &mut Vec<char>, paragraph: &mut Vec<char>, prev_blank: &mut bool)
    ensures
        (final(out)@, final(paragraph)@, *final(prev_blank)) == flushed(
            old(out)@,
            old(paragraph)@,
            *old(prev_blank),
        ),
{
    let text = trim_chars(paragraph.as_slice());
    if text.len() == 0 {
        return;
    }
    if out.len() > 0 {
        out.push('\n');
        out.push('\n');
    }
    extend_chars(out, text.as_slice());
    paragraph.clear();
    *prev_blank = true;
}

/// Count of entries below `v`.
pub open spec fn count_lt(s: Seq<u128>, v: int) -> nat
    decreases s.len(),
{
    if s.len() == 0 {
        0
    } else {
        count_lt(s.drop_last(), v) + if (s.last() as int) < v {
            1nat
        } else {
            0nat
        }
    }
}

/// Count of entries at or below `v`.
pub open spec fn count_le(s: Seq<u128>, v: int) -> nat
    decreases s.len(),
{
    if s.len() == 0 {
        0
    } else {
        count_le(s.drop_last(), v) + if (s.last() as int) <= v {
            1nat
        } else {
            0nat
        }
    }
}

/// `v` is the entry at position `k` of `s` once sorted.
pub open spec fn is_order_stat(s: Seq<u128>, k: int, v: u128) -> bool {
    s.contains(v) && count_lt(s, v as int) <= k < count_le(s, v as int)
}

/// The middle entry (position `len / 2`) of `s` once sorted; 0 when empty.
pub open spec fn median(s: Seq<u128>) -> u128 {
    if s.len() == 0 {
        0
    } else {
        choose|v: u128| #[trigger] is_order_stat(s, (s.len() / 2) as int, v)
    }
}

proof fn lemma_count_lt_le(s: Seq<u128>, v: int)
    ensures
        count_lt(s, v) == count_le(s, v - 1),
        count_lt(s, v) <= count_le(s, v),
        count_le(s, v) > count_lt(s, v) ==> s.contains(v as u128) && v >= 0,
        count_le(s, v) <= s.len(),
    decreases s.len(),
{
    if s.len() > 0 {
        lemma_count_lt_le(s.drop_last(), v);
        if count_le(s, v) > count_lt(s, v) && count_le(s.drop_last(), v) > count_lt(s.drop_last(), v) {
            let i = choose|i: int| 0 <= i < s.drop_last().len() && s.drop_last()[i] == v as u128;
            assert(s[i] == v as u128);
        }
        if count_le(s, v) > count_lt(s, v) && !(count_le(s.drop_last(), v) > count_lt(s.drop_last(), v)) {
            assert(s[s.len() - 1] == v as u128);
        }
    }
}

proof fn lemma_count_le_mono(s: Seq<u128>, a: int, b: int)
    requires
        a <= b,
    ensures
        count_le(s, a) <= count_le(s, b),
        count_le(s, a) <= count_lt(s, b + 1),
    decreases s.len(),
{
    if s.len() > 0 {
        lemma_count_le_mono(s.drop_last(), a, b);
    }
}

proof fn lemma_count_le_all(s: Seq<u128>, m: int)
    requires
        forall|j: int| 0 <= j < s.len() ==> (s[j] as int) <= m,
    ensures
        count_le(s, m) == s.len(),
    decreases s.len(),
{
    if s.len() > 0 {
        lemma_count_le_all(s.drop_last(), m);
    }
}

proof fn lemma_count_lt_zero(s: Seq<u128>)
    ensures
        count_lt(s, 0) == 0,
    decreases s.len(),
{
    if s.len() > 0 {
        lemma_count_lt_zero(s.drop_last());
    }
}

proof fn lemma_max_bound(s: Seq<u128>) -> (m: int)
    ensures
        forall|j: int| 0 <= j < s.len() ==> (s[j] as int) <= m,
        0 <= m <= u128::MAX,
    decreases s.len(),
{
    if s.len() == 0 {
        0
    } else {
        let m0 = lemma_max_bound(s.drop_last());
        let m = if (s.last() as int) > m0 {
            s.last() as int
        } else {
            m0
        };
        assert forall|j: int| 0 <= j < s.len() implies (s[j] as int) <= m by {
            if j < s.len() - 1 {
                assert(s[j] == s.drop_last()[j]);
            }
        }
        m
    }
}

proof fn lemma_order_stat_scan(s: Seq<u128>, k: int, c: int, m: int)
    requires
        0 <= k < s.len(),
        0 <= c <= m,
        m <= u128::MAX,
        count_le(s, m) == s.len(),
        c == 0 || count_le(s, c - 1) <= k,
    ensures
        exists|v: u128| #[trigger] is_order_stat(s, k, v),
    decreases m - c,
{
    lemma_count_lt_le(s, c);
    if count_le(s, c) > k {
        if c == 0 {
            lemma_count_lt_zero(s);
        }
        assert(is_order_stat(s, k, c as u128));
    } else {
        if c == m {
            assert(false);
        }
        lemma_order_stat_scan(s, k, c + 1, m);
    }
}

proof fn lemma_order_stat_unique(s: Seq<u128>, k: int, v1: u128, v2: u128)
    requires
        is_order_stat(s, k, v1),
        is_order_stat(s, k, v2),
    ensures
        v1 == v2,
{
    if v1 < v2 {
        lemma_count_le_mono(s, v1 as int, v2 as int - 1);
        lemma_count_lt_le(s, v2 as int);
    } else if v2 < v1 {
        lemma_count_le_mono(s, v2 as int, v1 as int - 1);
        lemma_count_lt_le(s, v1 as int);
    }
}

fn count_below(s: &Vec<u128>, v: u128) -> (r: (usize, usize))
    ensures
        r.0 == count_lt(s@, v as int),
        r.1 == count_le(s@, v as int),
{
    let mut lt: usize = 0;
    let mut le: usize = 0;
    let mut i: usize = 0;
    while i < s.len()
        invariant
            i <= s.len(),
            lt == count_lt(s@.take(i as int), v as int),
            le == count_le(s@.take(i as int), v as int),
        decreases s.len() - i,
    {
        assert(s@.take(i + 1).drop_last() =~= s@.take(i as int));
        proof {
            lemma_count_lt_le(s@.take(i as int), v as int);
        }
        if s[i] < v {
            lt += 1;
        }
        if s[i] <= v {
            le += 1;
        }
        i += 1;
    }
    assert(s@.take(s.len() as int) =~= s@);
    (lt, le)
}

/// The middle value of `s` once sorted (the entry at position `len / 2`).
fn median_of(s: &Vec<u128>) -> (m: u128)
    ensures
        m == median(s@),
{
    if s.len() == 0 {
        return 0;
    }
    let k = s.len() / 2;
    proof {
        let mx = lemma_max_bound(s@);
        lemma_count_le_all(s@, mx);
        lemma_order_stat_scan(s@, k as int, 0, mx);
    }
    let mut i: usize = 0;
    while i < s.len()
        invariant
            i <= s.len(),
            k == s.len() / 2,
            s.len() > 0,
            forall|j: int| 0 <= j < i ==> !is_order_stat(s@, k as int, #[trigger] s@[j]),
            exists|v: u128| #[trigger] is_order_stat(s@, k as int, v),
        decreases s.len() - i,
    {
        let (lt, le) = count_below(s, s[i]);
        if lt <= k && k < le {
            proof {
                assert(s@.contains(s@[i as int]));
                assert(is_order_stat(s@, k as int, s@[i as int]));
                let w = choose|v: u128| #[trigger] is_order_stat(s@, k as int, v);
                lemma_order_stat_unique(s@, k as int, w, s@[i as int]);
            }
            return s[i];
        }
        i += 1;
    }
    proof {
        let w = choose|v: u128| #[trigger] is_order_stat(s@, k as int, v);
        let j = choose|j: int| 0 <= j < s@.len() && s@[j] == w;
        assert(!is_order_stat(s@, k as int, s@[j]));
    }
    0
}

/// Lines with trailing blank lines removed.
pub open spec fn drop_trailing_blank(ls: Seq<Seq<char>>) -> Seq<Seq<char>>
    decreases ls.len(),
{
    if ls.len() > 0 && trim(ls.last()).len() == 0 {
        drop_trailing_blank(ls.drop_last())
    } else {
        ls
    }
}

/// UTF-8 lengths of the trimmed lines that are not blank.
pub open spec fn trimmed_lens(ls: Seq<Seq<char>>) -> Seq<u128>
    decreases ls.len(),
{
    if ls.len() == 0 {
        seq![]
    } else {
        let n = byte_len(trim(ls.last()));
        if n > 0 {
            trimmed_lens(ls.drop_last()).push(n as u128)
        } else {
            trimmed_lens(ls.drop_last())
        }
    }
}

/// `round(0.6 * typical)`: a line at most this long ends a paragraph when the
/// next line starts with an uppercase word.
pub open spec fn short_threshold(typical: u128) -> nat {
    ((6 * typical + 5) / 10) as nat
}

/// A line that starts with two spaces or a tab.
pub open spec fn indented(raw: Seq<char>) -> bool {
    starts_with(raw, seq![' ', ' ']) || (raw.len() > 0 && raw[0] == '\t')
}

/// Reflow state: text so far, open paragraph, UTF-8 length of the last
/// non-blank line, and whether a paragraph was just closed.
pub type ReflowState = (Seq<char>, Seq<char>, nat, bool);

/// One line of the reflow pass.
pub open spec fn reflow_step(st: ReflowState, raw: Seq<char>, short: nat) -> ReflowState {
    let (out, para, prev_len, prev_blank) = st;
    let line = normalized_line(raw);
    if line.len() == 0 {
        let f = flushed(out, para, prev_blank);
        (f.0, f.1, prev_len, f.2)
    } else {
        let starts_new = para.len() > 0 && (bullet_start(line) || (indented(raw) && !prev_blank) || (
        prev_len > 0 && short > 0 && prev_len <= short && uppercase_word_start(line)));
        let f = if starts_new {
            flushed(out, para, prev_blank)
        } else {
            (out, para, prev_blank)
        };
        (f.0, appended_line(f.1, line), byte_len(line), false)
    }
}

pub open spec fn reflow_fold(ls: Seq<Seq<char>>, short: nat) -> ReflowState
    decreases ls.len(),
{
    if ls.len() == 0 {
        (seq![], seq![], 0, true)
    } else {
        reflow_step(reflow_fold(ls.drop_last(), short), ls.last(), short)
    }
}

/// The reader's reflowed text: sanitised, split into lines, trailing blank
/// lines dropped, then lines joined into paragraphs separated by one blank
/// line. A blank line, a bullet, an indented line after text, or an uppercase
/// word after a short line starts a new paragraph; a hyphen between two
/// letters at a line end is removed when the lines are joined.
pub open spec fn reflowed(raw: Seq<char>) -> Seq<char> {
    let ls = drop_trailing_blank(split_on(sanitized(raw), '\n'));
    let short = short_threshold(median(trimmed_lens(ls)));
    let st = reflow_fold(ls, short);
    flushed(st.0, st.1, st.3).0
}

proof fn lemma_byte_len_bound(s: Seq<char>)
    ensures
        byte_len(s) <= 4 * s.len(),
    decreases s.len(),
{
    if s.len() > 0 {
        lemma_byte_len_bound(s.drop_last());
    }
}

/// UTF-8 length of `s` (what `str::len` gives).
pub(crate) fn byte_len_of(s: &[char]) -> (n: u128)
    ensures
        n == byte_len(s@),
{
    let mut n: u128 = 0;
    let mut i: usize = 0;
    while i < s.len()
        invariant
            i <= s.len(),
            n == byte_len(s@.take(i as int)),
            n <= 4 * i,
        decreases s.len() - i,
    {
        assert(s@.take(i + 1).drop_last() =~= s@.take(i as int));
        n = n + char_utf8_width(s[i]) as u128;
        i += 1;
    }
    assert(s@.take(s.len() as int) =~= s@);
    n
}

/// Reflows extracted page text into paragraphs for reading.
pub fn reflow_reader_text(raw: &str) -> (r: String)
    ensures
        r@ == reflowed(raw@),
{
    let rc = crate::strs::chars_of(raw);
    let sanitized_text = sanitize_chars(rc.as_slice());
    let mut ls = split_chars(sanitized_text.as_slice(), '\n');
    let ghost all = views(ls@);
    while ls.len() > 0 && is_blank(ls[ls.len() - 1].as_slice())
        invariant
            drop_trailing_blank(views(ls@)) == drop_trailing_blank(all),
        decreases ls.len(),
    {
        let ghost before = views(ls@);
        ls.pop();
        assert(views(ls@) =~= before.drop_last());
    }
    let ghost lsv = views(ls@);
    assert(drop_trailing_blank(lsv) == lsv);
    assert(lsv == drop_trailing_blank(split_on(sanitized(raw@), '\n')));

    let mut lens: Vec<u128> = Vec::new();
    let mut i: usize = 0;
    while i < ls.len()
        invariant
            i <= ls.len(),
            lsv == views(ls@),
            lens@ == trimmed_lens(lsv.take(i as int)),
        decreases ls.len() - i,
    {
        assert(lsv.take(i + 1).drop_last() =~= lsv.take(i as int));
        let t = trim_chars(ls[i].as_slice());
        let n = byte_len_of(t.as_slice());
        if n > 0 {
            lens.push(n);
        }
        i += 1;
    }
    assert(lsv.take(ls.len() as int) =~= lsv);
    let typical = median_of(&lens);
    let q = typical / 10;
    let rem = typical % 10;
    let short = 6 * q + (6 * rem + 5) / 10;
    assert(short == (6 * typical + 5) / 10) by (nonlinear_arith)
        requires
            q == typical / 10,
            rem == typical % 10,
            short == 6 * q + (6 * rem + 5) / 10,
    ;

    let mut out: Vec<char> = Vec::new();
    let mut paragraph: Vec<char> = Vec::new();
    let mut prev_len: u128 = 0;
    let mut prev_blank = true;
    let ghost sh = short_threshold(typical);
    let mut j: usize = 0;
    while j < ls.len()
        invariant
            j <= ls.len(),
            lsv == views(ls@),
            sh == short as nat,
            (out@, paragraph@, prev_len as nat, prev_blank) == reflow_fold(lsv.take(j as int), sh),
        decreases ls.len() - j,
    {
        assert(lsv.take(j + 1).drop_last() =~= lsv.take(j as int));
        let raw_line = ls[j].as_slice();
        let sp = [' ', ' '];
        assert(sp@ =~= seq![' ', ' ']);
        let had_indent = starts_with_chars(raw_line, sp.as_slice()) || (raw_line.len() > 0
            && raw_line[0] == '\t');
        let line = normalize_line_chars(raw_line);
        if line.len() == 0 {
            flush_paragraph(&mut out, &mut paragraph, &mut prev_blank);
        } else {
            if paragraph.len() > 0 {
                let starts_new = is_bullet_start(line.as_slice()) || (had_indent
                    && !prev_blank) || (prev_len > 0 && short > 0 && prev_len <= short
                    && starts_with_uppercase_word(line.as_slice()));
                if starts_new {
                    flush_paragraph(&mut out, &mut paragraph, &mut prev_blank);
                }
            }
            append_reflow_line(&mut paragraph, line.as_slice());
            prev_len = byte_len_of(line.as_slice());
            prev_blank = false;
        }
        j += 1;
    }
    assert(lsv.take(ls.len() as int) =~= lsv);
    flush_paragraph(&mut out, &mut paragraph, &mut prev_blank);
    crate::strs::string_of(out.as_slice())
}

proof fn lemma_sanitized_concat(a: Seq<char>, b: Seq<char>)
    ensures
        sanitized(a + b) == sanitized(a) + sanitized(b),
    decreases b.len(),
{
    if b.len() == 0 {
        assert(a + b =~= a);
        assert(sanitized(a) + sanitized(b) =~= sanitized(a));
    } else {
        lemma_sanitized_concat(a, b.drop_last());
        assert((a + b).drop_last() =~= a + b.drop_last());
        assert((a + b).last() == b.last());
        assert(sanitized(a + b) =~= sanitized(a) + sanitized(b));
    }
}

/// Sanitising is idempotent: text already sanitised (as page text is, piece
/// by piece, before the reflow sanitises it again) comes out unchanged.
pub proof fn lemma_sanitize_idempotent(s: Seq<char>)
    ensures
        sanitized(sanitized(s)) == sanitized(s),
    decreases s.len(),
{
    if s.len() > 0 {
        let init = s.drop_last();
        let c = s.last();
        lemma_sanitize_idempotent(init);
        lemma_sanitized_concat(sanitized(init), sanitize_char(c));
        let sc = sanitize_char(c);
        assert(sanitized(sc) == sc) by {
            if sc.len() == 1 {
                assert(sc.drop_last() =~= Seq::<char>::empty());
                assert(sanitized(sc) =~= sanitized(Seq::<char>::empty()) + sanitize_char(sc[0]));
            } else {
                assert(sc =~= Seq::<char>::empty());
            }
        }
    }
}

/// No line feed in `s`.
pub open spec fn nl_free(s: Seq<char>) -> bool {
    forall|i: int| 0 <= i < s.len() ==> s[i] != '\n'
}

/// Text made of paragraphs without line breaks, separated by single blank
/// lines: every line feed is one of a pair `\n\n` with other chars on both
/// sides, so the text neither starts nor ends with one.
pub open spec fn blank_line_separated(r: Seq<char>) -> bool {
    forall|i: int|
        0 <= i < r.len() && #[trigger] r[i] == '\n' ==> (0 < i && i + 2 < r.len() && r[i + 1] == '\n' && r[i
            - 1] != '\n' && r[i + 2] != '\n') || (1 < i && i + 1 < r.len() && r[i - 1] == '\n' && r[i - 2]
            != '\n' && r[i + 1] != '\n')
}

proof fn lemma_trim_start_nl_free(s: Seq<char>)
    requires
        nl_free(s),
    ensures
        nl_free(crate::strs::trim_start(s)),
    decreases s.len(),
{
    if s.len() > 0 && is_ws(s[0]) {
        let t = s.drop_first();
        assert forall|i: int| 0 <= i < t.len() implies t[i] != '\n' by {
            assert(t[i] == s[i + 1]);
        }
        lemma_trim_start_nl_free(t);
    }
}

proof fn lemma_trim_end_nl_free(s: Seq<char>)
    requires
        nl_free(s),
    ensures
        nl_free(crate::strs::trim_end(s)),
    decreases s.len(),
{
    if s.len() > 0 && is_ws(s.last()) {
        let t = s.drop_last();
        assert forall|i: int| 0 <= i < t.len() implies t[i] != '\n' by {
            assert(t[i] == s[i]);
        }
        lemma_trim_end_nl_free(t);
    }
}

proof fn lemma_trim_nl_free(s: Seq<char>)
    requires
        nl_free(s),
    ensures
        nl_free(trim(s)),
{
    lemma_trim_start_nl_free(s);
    lemma_trim_end_nl_free(crate::strs::trim_start(s));
}

proof fn lemma_collapse_nl_free(s: Seq<char>)
    ensures
        nl_free(collapse_state(s).0),
    decreases s.len(),
{
    if s.len() > 0 {
        lemma_collapse_nl_free(s.drop_last());
        let c = s.last();
        if !is_ws(c) {
            assert(c != '\n');
        }
        let prev = collapse_state(s.drop_last()).0;
        let now = collapse_state(s).0;
        assert forall|i: int| 0 <= i < now.len() implies now[i] != '\n' by {
            if i < prev.len() {
                assert(now[i] == prev[i]);
            }
        }
    }
}

proof fn lemma_normalized_nl_free(s: Seq<char>)
    ensures
        nl_free(normalized_line(s)),
{
    lemma_collapse_nl_free(s);
    lemma_trim_nl_free(collapse_state(s).0);
}

proof fn lemma_appended_nl_free(p: Seq<char>, l: Seq<char>)
    requires
        nl_free(p),
        nl_free(l),
    ensures
        nl_free(appended_line(p, l)),
{
    let r = appended_line(p, l);
    if p.len() == 0 {
    } else if p.last() == '-' && dehyphenates(p, l) {
        let q = p.drop_last();
        assert forall|i: int| 0 <= i < r.len() implies r[i] != '\n' by {
            if i < q.len() {
                assert(r[i] == p[i]);
            } else {
                assert(r[i] == l[i - q.len()]);
            }
        }
    } else if p.last() == ' ' {
        assert forall|i: int| 0 <= i < r.len() implies r[i] != '\n' by {
            if i < p.len() {
                assert(r[i] == p[i]);
            } else {
                assert(r[i] == l[i - p.len()]);
            }
        }
    } else {
        let q = p.push(' ');
        assert forall|i: int| 0 <= i < r.len() implies r[i] != '\n' by {
            if i < p.len() {
                assert(r[i] == p[i]);
            } else if i == p.len() {
                assert(r[i] == ' ');
            } else {
                assert(r[i] == l[i - q.len()]);
            }
        }
    }
}

proof fn lemma_flushed_separated(out: Seq<char>, para: Seq<char>, prev_blank: bool)
    requires
        blank_line_separated(out),
        nl_free(para),
    ensures
        blank_line_separated(flushed(out, para, prev_blank).0),
        nl_free(flushed(out, para, prev_blank).1),
{
    let t = trim(para);
    lemma_trim_nl_free(para);
    crate::strs::lemma_trim_shape(para);
    if t.len() > 0 {
        assert(t[0] != '\n' && t.last() != '\n') by {
            assert(is_ws('\n'));
        }
        let r = flushed(out, para, prev_blank).0;
        if out.len() > 0 {
            let n = out.len() as int;
            assert(out[n - 1] != '\n') by {
                if out[n - 1] == '\n' {
                    assert(out[n - 1] == '\n');
                }
            }
            assert(r == out + seq!['\n', '\n'] + t);
            assert forall|i: int|
                0 <= i < r.len() && #[trigger] r[i] == '\n' implies (0 < i && i + 2 < r.len() && r[i + 1] == '\n' && r[i
                    - 1] != '\n' && r[i + 2] != '\n') || (1 < i && i + 1 < r.len() && r[i - 1] == '\n' && r[i - 2]
                    != '\n' && r[i + 1] != '\n') by {
                if i < n {
                    assert(r[i] == out[i]);
                    assert(out[i] == '\n');
                    if i + 1 < n {
                        assert(r[i + 1] == out[i + 1]);
                    }
                    if i + 2 < n {
                        assert(r[i + 2] == out[i + 2]);
                    }
                    if i > 0 {
                        assert(r[i - 1] == out[i - 1]);
                    }
                    if i > 1 {
                        assert(r[i - 2] == out[i - 2]);
                    }
                } else if i == n {
                    assert(r[i + 1] == '\n');
                    assert(r[i - 1] == out[n - 1]);
                    assert(r[i + 2] == t[0]);
                } else if i == n + 1 {
                    assert(r[i - 1] == '\n');
                    assert(r[i - 2] == out[n - 1]);
                    assert(r[i + 1] == t[0]);
                } else {
                    assert(r[i] == t[i - n - 2]);
                }
            }
        } else {
            assert(r =~= t);
        }
    }
}

proof fn lemma_reflow_fold_separated(ls: Seq<Seq<char>>, short: nat)
    ensures
        blank_line_separated(reflow_fold(ls, short).0),
        nl_free(reflow_fold(ls, short).1),
    decreases ls.len(),
{
    if ls.len() > 0 {
        lemma_reflow_fold_separated(ls.drop_last(), short);
        let st = reflow_fold(ls.drop_last(), short);
        let raw = ls.last();
        let line = normalized_line(raw);
        lemma_normalized_nl_free(raw);
        lemma_flushed_separated(st.0, st.1, st.3);
        let f = flushed(st.0, st.1, st.3);
        lemma_appended_nl_free(f.1, line);
        lemma_appended_nl_free(st.1, line);
    }
}

/// Reflowed text is made of paragraphs without line breaks inside them,
/// separated by single blank lines: lines are joined into paragraphs, and
/// where the text breaks it breaks by one blank line.
pub proof fn lemma_reflow_paragraphs(raw: Seq<char>)
    ensures
        blank_line_separated(reflowed(raw)),
{
    let ls = drop_trailing_blank(split_on(sanitized(raw), '\n'));
    let short = short_threshold(median(trimmed_lens(ls)));
    lemma_reflow_fold_separated(ls, short);
    let st = reflow_fold(ls, short);
    lemma_flushed_separated(st.0, st.1, st.3);
}

/// A blank line is a hard paragraph break: after it no paragraph is open,
/// and an open paragraph with text is written out, after a blank line when
/// text came before.
pub proof fn lemma_blank_line_breaks_paragraph(st: ReflowState, raw: Seq<char>, short: nat)
    requires
        normalized_line(raw).len() == 0,
    ensures
        trim(reflow_step(st, raw, short).1).len() == 0,
        trim(st.1).len() > 0 && st.0.len() > 0 ==> reflow_step(st, raw, short).0 == st.0 + seq!['\n', '\n']
            + trim(st.1),
        trim(st.1).len() > 0 && st.0.len() == 0 ==> reflow_step(st, raw, short).0 == trim(st.1),
{
    if trim(st.1).len() > 0 && st.0.len() == 0 {
        assert(st.0 + trim(st.1) =~= trim(st.1));
    }
}

/// While a paragraph is open, no paragraph has just been closed.
proof fn lemma_reflow_open_not_blank(ls: Seq<Seq<char>>, short: nat)
    ensures
        reflow_fold(ls, short).1.len() > 0 ==> !reflow_fold(ls, short).3,
    decreases ls.len(),
{
    if ls.len() > 0 {
        lemma_reflow_open_not_blank(ls.drop_last(), short);
    }
}

/// An indented line after text starts a new paragraph: when a paragraph with
/// text is open and the next line starts with two spaces or a tab, the open
/// paragraph is written out (after a blank line when text came before) and
/// the line alone opens the next one.
pub proof fn lemma_indented_line_starts_paragraph(ls: Seq<Seq<char>>, raw: Seq<char>, short: nat)
    requires
        trim(reflow_fold(ls, short).1).len() > 0,
        normalized_line(raw).len() > 0,
        indented(raw),
    ensures
        ({
            let st = reflow_fold(ls, short);
            let next = reflow_fold(ls.push(raw), short);
            &&& next.1 == normalized_line(raw)
            &&& st.0.len() > 0 ==> next.0 == st.0 + seq!['\n', '\n'] + trim(st.1)
            &&& st.0.len() == 0 ==> next.0 == trim(st.1)
        }),
{
    let st = reflow_fold(ls, short);
    assert(ls.push(raw).drop_last() =~= ls);
    lemma_reflow_open_not_blank(ls, short);
    if st.1.len() == 0 {
        assert(st.1 =~= Seq::<char>::empty());
        assert(trim(st.1).len() == 0);
    }
    if st.0.len() == 0 {
        assert(st.0 + trim(st.1) =~= trim(st.1));
    }
}

/// Where a line goes while a paragraph with text is open: a bullet, an
/// indented line, or an uppercase word after a short line starts a new
/// paragraph (the open one is written out, after a blank line when text came
/// before); any other line is joined to the open paragraph and nothing is
/// written out.
pub proof fn lemma_line_starts_or_joins_paragraph(ls: Seq<Seq<char>>, raw: Seq<char>, short: nat)
    requires
        trim(reflow_fold(ls, short).1).len() > 0,
        normalized_line(raw).len() > 0,
    ensures
        ({
            let st = reflow_fold(ls, short);
            let line = normalized_line(raw);
            let next = reflow_fold(ls.push(raw), short);
            let breaks = bullet_start(line) || indented(raw) || (st.2 > 0 && short > 0 && st.2 <= short
                && uppercase_word_start(line));
            &&& breaks ==> next.1 == line
            &&& breaks && st.0.len() > 0 ==> next.0 == st.0 + seq!['\n', '\n'] + trim(st.1)
            &&& breaks && st.0.len() == 0 ==> next.0 == trim(st.1)
            &&& !breaks ==> next.0 == st.0 && next.1 == appended_line(st.1, line)
        }),
{
    let st = reflow_fold(ls, short);
    assert(ls.push(raw).drop_last() =~= ls);
    lemma_reflow_open_not_blank(ls, short);
    if st.1.len() == 0 {
        assert(st.1 =~= Seq::<char>::empty());
        assert(trim(st.1).len() == 0);
    }
    if st.0.len() == 0 {
        assert(st.0 + trim(st.1) =~= trim(st.1));
    }
}

/// Hyphenation is undone: a paragraph ending in a letter and a hyphen (not
/// `--`) joined with a line that starts with a letter loses the hyphen, and
/// no space is put between them.
pub proof fn lemma_line_end_hyphen_joined(p: Seq<char>, l: Seq<char>)
    requires
        p.len() >= 2,
        p.last() == '-',
        p[p.len() - 2] != '-',
        alphabetic(p[p.len() - 2]),
        l.len() > 0,
        alphabetic(l[0]),
    ensures
        appended_line(p, l) == p.drop_last() + l,
{
    assert(!crate::strs::ends_with(p, "--"@)) by {
        reveal_strlit("--");
        assert(p.subrange(p.len() - 2, p.len() as int)[0] == p[p.len() - 2]);
    }
}

} // verus!
