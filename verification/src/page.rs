//! What the reader shows for a page in text mode.

use vstd::prelude::*;
use crate::chars::push_char;
use crate::furniture::{no_text, trim_page_furniture, trimmed_page, is_no_text, PageFurniture};
use crate::model::ReaderTextMode;
use crate::strs::{chars_of, lines, lines_chars, string_of, trim, trim_chars};
use crate::text::{reflow_reader_text, reflowed};
use crate::wrap::{wrap_preserving_lines, wrap_reflow_text, wrapped_preserving, wrapped_reflow};

verus! {

broadcast use vstd::seq_lib::group_seq_properties;

/// Text a page gets when nothing could be extracted from it.
pub open spec fn no_text_marker() -> Seq<char> {
    "no text found"@
}

/// Extracted page text, trimmed; the "no text found" marker when blank.
pub fn finish_page_text(text: &str) -> (r: String)
    ensures
        r@ == if trim(text@).len() == 0 {
            no_text_marker()
        } else {
            trim(text@)
        },
{
    let c = chars_of(text);
    let t = trim_chars(c.as_slice());
    if t.len() == 0 {
        let m = chars_of("no text found");
        string_of(m.as_slice())
    } else {
        string_of(t.as_slice())
    }
}

/// The page text the reader lays out: furniture is trimmed except in raw
/// mode (when some is known), then reflow mode reflows it.
pub open spec fn reader_text(
    raw: Seq<char>,
    mode: ReaderTextMode,
    furniture: Option<(Seq<Seq<char>>, Seq<Seq<char>>)>,
) -> Seq<char> {
    let trimmed = if mode == ReaderTextMode::Raw {
        raw
    } else {
        match furniture {
            Some((h, f)) => if h.len() == 0 && f.len() == 0 {
                raw
            } else {
                trimmed_page(raw, h, f)
            },
            None => raw,
        }
    };
    match mode {
        ReaderTextMode::Reflow => reflowed(trimmed),
        _ => trimmed,
    }
}

pub open spec fn furniture_view(f: Option<&PageFurniture>) -> Option<(Seq<Seq<char>>, Seq<Seq<char>>)> {
    match f {
        Some(p) => Some((p.headers(), p.footers())),
        None => None,
    }
}

/// Page text for the reader (see `reader_text`).
pub fn text_for_reader(raw: &str, text_mode: ReaderTextMode, furniture: Option<&PageFurniture>) -> (r:
    String)
    ensures
        r@ == reader_text(raw@, text_mode, furniture_view(furniture)),
{
    let trimmed = if text_mode == ReaderTextMode::Raw {
        string_of(chars_of(raw).as_slice())
    } else {
        match furniture {
            Some(f) => if f.is_empty() {
                string_of(chars_of(raw).as_slice())
            } else {
                trim_page_furniture(raw, f)
            },
            None => string_of(chars_of(raw).as_slice()),
        }
    };
    match text_mode {
        ReaderTextMode::Reflow => reflow_reader_text(trimmed.as_str()),
        _ => trimmed,
    }
}

/// A page is treated as image-only when its text is blank or the marker.
pub fn is_non_text_page(text: &str) -> (b: bool)
    ensures
        b == no_text(text@),
{
    let c = chars_of(text);
    is_no_text(c.as_slice())
}

pub open spec fn repeat(c: char, n: nat) -> Seq<char> {
    Seq::new(n, |i: int| c)
}

/// The label shown in the placeholder: trimmed, `image/chart` when blank,
/// cut to the inner width.
pub open spec fn placeholder_label(label: Seq<char>, inner_w: nat) -> Seq<char> {
    let t = trim(label);
    let l = if t.len() == 0 {
        "image/chart"@
    } else {
        t
    };
    if l.len() > inner_w {
        l.take(inner_w as int)
    } else {
        l
    }
}

/// Row `y` of the placeholder's inside, with its leading line feed and side
/// borders; the middle row carries the centred label.
pub open spec fn placeholder_row(y: nat, inner_w: nat, inner_h: nat, lab: Seq<char>) -> Seq<char> {
    let pad_left = ((inner_w - lab.len()) / 2) as nat;
    let pad_right = (inner_w - lab.len() - pad_left) as nat;
    seq!['\n', '\u{2502}'] + (if y == inner_h / 2 {
        repeat('\u{2591}', pad_left) + lab + repeat('\u{2591}', pad_right)
    } else {
        repeat('\u{2591}', inner_w)
    }) + seq!['\u{2502}']
}

pub open spec fn placeholder_rows(n: nat, inner_w: nat, inner_h: nat, lab: Seq<char>) -> Seq<char>
    decreases n,
{
    if n == 0 {
        seq![]
    } else {
        placeholder_rows((n - 1) as nat, inner_w, inner_h, lab) + placeholder_row(
            (n - 1) as nat,
            inner_w,
            inner_h,
            lab,
        )
    }
}

/// A box the size of the viewport (at least 10 by 5) filled with a light
/// shade, with `label` centred on its middle row.
pub open spec fn placeholder(width: u16, height: u16, label: Seq<char>) -> Seq<char> {
    let w: nat = if width < 10 {
        10
    } else {
        width as nat
    };
    let h: nat = if height < 5 {
        5
    } else {
        height as nat
    };
    let inner_w = (w - 2) as nat;
    let inner_h = (h - 2) as nat;
    let lab = placeholder_label(label, inner_w);
    seq!['\u{250C}'] + repeat('\u{2500}', inner_w) + seq!['\u{2510}'] + placeholder_rows(
        inner_h,
        inner_w,
        inner_h,
        lab,
    ) + seq!['\n', '\u{2514}'] + repeat('\u{2500}', inner_w) + seq!['\u{2518}']
}

proof fn lemma_placeholder_row_len(y: nat, inner_w: nat, inner_h: nat, lab: Seq<char>)
    requires
        lab.len() <= inner_w,
    ensures
        placeholder_row(y, inner_w, inner_h, lab).len() == inner_w + 3,
{
}

proof fn lemma_placeholder_rows_len(n: nat, inner_w: nat, inner_h: nat, lab: Seq<char>)
    requires
        lab.len() <= inner_w,
    ensures
        placeholder_rows(n, inner_w, inner_h, lab).len() == n * (inner_w + 3),
    decreases n,
{
    let k = inner_w + 3;
    if n > 0 {
        let m = (n - 1) as nat;
        lemma_placeholder_rows_len(m, inner_w, inner_h, lab);
        lemma_placeholder_row_len(m, inner_w, inner_h, lab);
        assert(m * k + k == n * k) by (nonlinear_arith)
            requires
                m == n - 1,
        ;
    } else {
        assert(n * k == 0) by (nonlinear_arith)
            requires
                n == 0,
        ;
    }
}

/// The placeholder box fills the viewport (at least 10 by 5): its `h` rows
/// of `w` chars each are separated by line breaks, and its label is centred,
/// the space left of it and right of it differing by at most one.
pub proof fn lemma_placeholder_fills_box(width: u16, height: u16, label: Seq<char>)
    ensures
        ({
            let w: nat = if width < 10 { 10 } else { width as nat };
            let h: nat = if height < 5 { 5 } else { height as nat };
            let lab = placeholder_label(label, (w - 2) as nat);
            let pad_left = (((w - 2) as nat - lab.len()) / 2) as nat;
            let pad_right = ((w - 2) as nat - lab.len() - pad_left) as nat;
            &&& placeholder(width, height, label).len() == h * (w + 1) - 1
            &&& lab.len() <= w - 2
            &&& pad_left + lab.len() + pad_right == w - 2
            &&& pad_left <= pad_right <= pad_left + 1
        }),
{
    let w: nat = if width < 10 { 10 } else { width as nat };
    let h: nat = if height < 5 { 5 } else { height as nat };
    let iw = (w - 2) as nat;
    let ih = (h - 2) as nat;
    let lab = placeholder_label(label, iw);
    lemma_placeholder_rows_len(ih, iw, ih, lab);
    assert(ih * (iw + 3) + 2 * iw + 5 == h * (w + 1) - 1) by (nonlinear_arith)
        requires
            iw == w - 2,
            ih == h - 2,
            h >= 5,
            w >= 10,
    ;
}

fn push_repeat(out: &mut String, c: char, n: usize)
    ensures
        final(out)@ == old(out)@ + repeat(c, n as nat),
{
    let ghost start = out@;
    let mut i: usize = 0;
    while i < n
        invariant
            i <= n,
            out@ == start + repeat(c, i as nat),
        decreases n - i,
    {
        push_char(out, c);
        assert(repeat(c, (i + 1) as nat) =~= repeat(c, i as nat).push(c));
        i += 1;
    }
}

fn push_all(out: &mut String, s: &[char])
    ensures
        final(out)@ == old(out)@ + s@,
{
    let ghost start = out@;
    let mut i: usize = 0;
    while i < s.len()
        invariant
            i <= s.len(),
            out@ == start + s@.take(i as int),
        decreases s.len() - i,
    {
        push_char(out, s[i]);
        assert(s@.take(i + 1) =~= s@.take(i as int).push(s@[i as int]));
        i += 1;
    }
    assert(s@.take(s.len() as int) =~= s@);
}

fn label_chars(label: &str, inner_w: usize) -> (lab: Vec<char>)
    ensures
        lab@ == placeholder_label(label@, inner_w as nat),
{
    let lc = chars_of(label);
    let t = trim_chars(lc.as_slice());
    let l = if t.len() == 0 {
        chars_of("image/chart")
    } else {
        t
    };
    let mut lab: Vec<char> = Vec::new();
    let mut k: usize = 0;
    let take = if l.len() > inner_w {
        inner_w
    } else {
        l.len()
    };
    while k < take
        invariant
            k <= take <= l.len(),
            lab@ == l@.take(k as int),
        decreases take - k,
    {
        lab.push(l[k]);
        assert(l@.take(k + 1) =~= l@.take(k as int).push(l@[k as int]));
        k += 1;
    }
    proof {
        if l@.len() <= inner_w {
            assert(l@.take(l.len() as int) =~= l@);
        }
    }
    lab
}

fn push_placeholder_row(out: &mut String, y: usize, inner_w: usize, inner_h: usize, lab: &Vec<char>)
    requires
        lab.len() <= inner_w,
    ensures
        final(out)@ == old(out)@ + placeholder_row(y as nat, inner_w as nat, inner_h as nat, lab@),
{
    let pad_left = (inner_w - lab.len()) / 2;
    let pad_right = inner_w - lab.len() - pad_left;
    push_char(out, '\n');
    push_char(out, '\u{2502}');
    if y == inner_h / 2 {
        push_repeat(out, '\u{2591}', pad_left);
        push_all(out, lab.as_slice());
        push_repeat(out, '\u{2591}', pad_right);
    } else {
        push_repeat(out, '\u{2591}', inner_w);
    }
    push_char(out, '\u{2502}');
    assert(final(out)@ =~= old(out)@ + placeholder_row(y as nat, inner_w as nat, inner_h as nat, lab@));
}

/// Placeholder drawn in text mode for a page with no text (see `placeholder`).
pub fn non_text_placeholder(width: u16, height: u16, label: &str) -> (r: String)
    ensures
        r@ == placeholder(width, height, label@),
{
    let width = if width < 10 {
        10
    } else {
        width
    };
    let height = if height < 5 {
        5
    } else {
        height
    };
    let inner_w = (width - 2) as usize;
    let inner_h = (height - 2) as usize;
    let lab = label_chars(label, inner_w);
    let mut out = String::new();
    push_char(&mut out, '\u{250C}');
    push_repeat(&mut out, '\u{2500}', inner_w);
    push_char(&mut out, '\u{2510}');
    let ghost head = out@;
    let mut y: usize = 0;
    while y < inner_h
        invariant
            y <= inner_h,
            lab.len() <= inner_w,
            out@ == head + placeholder_rows(y as nat, inner_w as nat, inner_h as nat, lab@),
        decreases inner_h - y,
    {
        push_placeholder_row(&mut out, y, inner_w, inner_h, &lab);
        y += 1;
    }
    push_char(&mut out, '\n');
    push_char(&mut out, '\u{2514}');
    push_repeat(&mut out, '\u{2500}', inner_w);
    push_char(&mut out, '\u{2518}');
    out
}

/// Hint shown in the placeholder of a page without text.
pub open spec fn placeholder_hint(kitty_ok: bool) -> Seq<char> {
    if kitty_ok {
        "image/chart (m: image mode)"@
    } else {
        "image/chart (k: kitty-reader)"@
    }
}

/// How the reader lays out page text for a viewport: a placeholder for a page
/// with no text, otherwise the text as is (raw), wrapped line by line (wrap)
/// or wrapped by paragraph (reflow).
pub open spec fn laid_out(text: Seq<char>, mode: ReaderTextMode, kitty_ok: bool, width: u16, height: u16) -> Seq<char> {
    if no_text(text) {
        placeholder(width, height, placeholder_hint(kitty_ok))
    } else {
        match mode {
            ReaderTextMode::Raw => text,
            ReaderTextMode::Wrap => wrapped_preserving(text, width as nat),
            ReaderTextMode::Reflow => wrapped_reflow(text, width as nat),
        }
    }
}

/// Lays out page text for a viewport (see `laid_out`).
pub fn layout_page_text(text: &str, text_mode: ReaderTextMode, kitty_ok: bool, width: u16, height: u16) -> (r: String)
    ensures
        r@ == laid_out(text@, text_mode, kitty_ok, width, height),
{
    if is_non_text_page(text) {
        let hint = if kitty_ok {
            "image/chart (m: image mode)"
        } else {
            "image/chart (k: kitty-reader)"
        };
        non_text_placeholder(width, height, hint)
    } else {
        match text_mode {
            ReaderTextMode::Raw => string_of(chars_of(text).as_slice()),
            ReaderTextMode::Wrap => wrap_preserving_lines(text, width as usize),
            ReaderTextMode::Reflow => wrap_reflow_text(text, width as usize),
        }
    }
}

/// Number of lines of `text` as a `u16` (the count modulo 65536).
pub open spec fn line_count16(text: Seq<char>) -> u16 {
    (lines(text).len() % 65536) as u16
}

pub fn line_count_u16(text: &str) -> (n: u16)
    ensures
        n == line_count16(text@),
{
    let c = chars_of(text);
    let ls = lines_chars(c.as_slice());
    (ls.len() % 65536) as u16
}

/// Scroll offset kept inside the text: at most its last line, 0 for no lines.
pub open spec fn clamped_scroll(scroll: u16, text: Seq<char>) -> u16 {
    let n = line_count16(text);
    if n == 0 {
        0
    } else if scroll < n - 1 {
        scroll
    } else {
        (n - 1) as u16
    }
}

pub fn clamp_scroll(scroll: u16, text: &str) -> (r: u16)
    ensures
        r == clamped_scroll(scroll, text@),
{
    let n = line_count_u16(text);
    if n == 0 {
        0
    } else if scroll < n - 1 {
        scroll
    } else {
        n - 1
    }
}

} // verus!
