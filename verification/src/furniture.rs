//! Repeated page headers and footers ("page furniture"): their detection on
//! sample pages and their removal from a page's text.

use vstd::prelude::*;
use crate::settings::string_views;
use crate::chars::is_ws;
use crate::strs::{
    chars_of, eq_chars, is_blank, join, join_chars, lines, lines_chars, lines_state, lower_ascii,
    lower_ascii_chars, string_of, strip_cr, trim, trim_chars, views,
};
use crate::text::{collapse_state, normalize_line_chars, normalized_line};

verus! {

broadcast use vstd::seq_lib::group_seq_properties;

/// Lines at the top of a page that are compared with the header lines.
pub const PAGE_FURNITURE_TOP_K: usize = 3;

/// Lines at the bottom of a page that are compared with the footer lines.
pub const PAGE_FURNITURE_BOTTOM_K: usize = 3;

/// Pages sampled when detecting furniture.
pub const PAGE_FURNITURE_SAMPLE_PAGES: u32 = 8;

/// The normalised lines that are not empty, in order.
pub open spec fn nonempty_normalized(ls: Seq<Seq<char>>) -> Seq<Seq<char>>
    decreases ls.len(),
{
    if ls.len() == 0 {
        seq![]
    } else {
        let n = normalized_line(ls.last());
        if n.len() > 0 {
            nonempty_normalized(ls.drop_last()).push(n)
        } else {
            nonempty_normalized(ls.drop_last())
        }
    }
}

/// The normalised non-empty lines of a page's text.
pub open spec fn boundary_candidates(text: Seq<char>) -> Seq<Seq<char>> {
    nonempty_normalized(lines(text))
}

pub open spec fn min_nat(a: nat, b: nat) -> nat {
    if a <= b {
        a
    } else {
        b
    }
}

/// The first `k` normalised non-empty lines.
pub open spec fn top_lines(text: Seq<char>, k: nat) -> Seq<Seq<char>> {
    let c = boundary_candidates(text);
    c.take(min_nat(k, c.len()) as int)
}

/// The last `k` normalised non-empty lines, in page order.
pub open spec fn bottom_lines(text: Seq<char>, k: nat) -> Seq<Seq<char>> {
    let c = boundary_candidates(text);
    c.skip(c.len() - min_nat(k, c.len()))
}

fn boundary_lines(text: &[char]) -> (r: Vec<Vec<char>>)
    ensures
        views(r@) == boundary_candidates(text@),
{
    let ls = lines_chars(text);
    let ghost lv = views(ls@);
    let mut out: Vec<Vec<char>> = Vec::new();
    let mut i: usize = 0;
    while i < ls.len()
        invariant
            i <= ls.len(),
            lv == views(ls@),
            views(out@) == nonempty_normalized(lv.take(i as int)),
        decreases ls.len() - i,
    {
        assert(lv.take(i + 1).drop_last() =~= lv.take(i as int));
        let n = normalize_line_chars(ls[i].as_slice());
        if n.len() > 0 {
            out.push(n);
            assert(views(out@) =~= nonempty_normalized(lv.take(i as int)).push(
                normalized_line(lv[i as int]),
            ));
        }
        i += 1;
    }
    assert(lv.take(ls.len() as int) =~= lv);
    out
}

fn strings_of(v: &Vec<Vec<char>>, from: usize, to: usize) -> (r: Vec<String>)
    requires
        from <= to <= v.len(),
    ensures
        string_views(r@) == views(v@).subrange(from as int, to as int),
{
    let mut r: Vec<String> = Vec::new();
    let mut i = from;
    while i < to
        invariant
            from <= i <= to <= v.len(),
            string_views(r@) == views(v@).subrange(from as int, i as int),
        decreases to - i,
    {
        let ghost before = string_views(r@);
        let item = string_of(v[i].as_slice());
        assert(item@ == views(v@)[i as int]);
        r.push(item);
        assert(string_views(r@) =~= before.push(item@));
        assert(string_views(r@) =~= views(v@).subrange(from as int, i + 1));
        i += 1;
    }
    r
}

/// The first `k` non-empty lines of `text`, normalised.
pub fn take_top_boundary_lines(text: &str, k: usize) -> (r: Vec<String>)
    ensures
        string_views(r@) == top_lines(text@, k as nat),
{
    let c = chars_of(text);
    let all = boundary_lines(c.as_slice());
    let n = if k < all.len() {
        k
    } else {
        all.len()
    };
    let r = strings_of(&all, 0, n);
    assert(views(all@).subrange(0, n as int) =~= views(all@).take(n as int));
    r
}

/// The last `k` non-empty lines of `text`, normalised, in page order.
pub fn take_bottom_boundary_lines(text: &str, k: usize) -> (r: Vec<String>)
    ensures
        string_views(r@) == bottom_lines(text@, k as nat),
{
    let c = chars_of(text);
    let all = boundary_lines(c.as_slice());
    let n = if k < all.len() {
        k
    } else {
        all.len()
    };
    let r = strings_of(&all, all.len() - n, all.len());
    assert(views(all@).subrange((all.len() - n) as int, all.len() as int) =~= views(all@).skip(
        all.len() - n,
    ));
    r
}

/// Header and footer lines that repeat across the pages of a book.
#[derive(Debug, Clone)]
pub struct PageFurniture {
    header_lines: Vec<String>,
    footer_lines: Vec<String>,
}

impl PageFurniture {
    pub closed spec fn headers(&self) -> Seq<Seq<char>> {
        string_views(self.header_lines@)
    }

    pub closed spec fn footers(&self) -> Seq<Seq<char>> {
        string_views(self.footer_lines@)
    }

    /// No header and no footer lines.
    pub fn new() -> (f: PageFurniture)
        ensures
            f.headers().len() == 0,
            f.footers().len() == 0,
    {
        PageFurniture { header_lines: Vec::new(), footer_lines: Vec::new() }
    }

}

impl Default for PageFurniture {
    /// No header and no footer lines.
    fn default() -> (f: PageFurniture)
        ensures
            f.headers().len() == 0,
            f.footers().len() == 0,
    {
        PageFurniture::new()
    }
}

impl PageFurniture {
    /// Adds a header line (as a set: a line already there is not repeated).
    pub fn insert_header_line(&mut self, line: String)
        ensures
            forall|l: Seq<char>|
                final(self).headers().contains(l) <==> (old(self).headers().contains(l) || l
                    == line@),
            old(self).headers().no_duplicates() ==> final(self).headers().no_duplicates(),
            final(self).footers() == old(self).footers(),
    {
        insert_unique(&mut self.header_lines, line);
    }

    /// Adds a footer line (as a set: a line already there is not repeated).
    pub fn insert_footer_line(&mut self, line: String)
        ensures
            forall|l: Seq<char>|
                final(self).footers().contains(l) <==> (old(self).footers().contains(l) || l
                    == line@),
            old(self).footers().no_duplicates() ==> final(self).footers().no_duplicates(),
            final(self).headers() == old(self).headers(),
    {
        insert_unique(&mut self.footer_lines, line);
    }

    pub fn header_lines(&self) -> (r: &Vec<String>)
        ensures
            string_views(r@) == self.headers(),
    {
        &self.header_lines
    }

    pub fn footer_lines(&self) -> (r: &Vec<String>)
        ensures
            string_views(r@) == self.footers(),
    {
        &self.footer_lines
    }

    /// Neither header nor footer lines.
    pub fn is_empty(&self) -> (b: bool)
        ensures
            b == (self.headers().len() == 0 && self.footers().len() == 0),
    {
        self.header_lines.len() == 0 && self.footer_lines.len() == 0
    }
}

/// Whether `x` is one of `list`.
pub fn contains_string(list: &Vec<String>, x: &[char]) -> (b: bool)
    ensures
        b == string_views(list@).contains(x@),
{
    let mut i: usize = 0;
    while i < list.len()
        invariant
            i <= list.len(),
            forall|j: int| 0 <= j < i ==> string_views(list@)[j] != x@,
        decreases list.len() - i,
    {
        let c = chars_of(list[i].as_str());
        if eq_chars(c.as_slice(), x) {
            assert(string_views(list@)[i as int] == x@);
            return true;
        }
        i += 1;
    }
    false
}

fn insert_unique(list: &mut Vec<String>, x: String)
    ensures
        forall|l: Seq<char>|
            string_views(final(list)@).contains(l) <==> (string_views(old(list)@).contains(l) || l
                == x@),
        string_views(old(list)@).no_duplicates() ==> string_views(final(list)@).no_duplicates(),
{
    let xc = chars_of(x.as_str());
    if contains_string(list, xc.as_slice()) {
        return;
    }
    let ghost before = string_views(list@);
    list.push(x);
    assert(string_views(list@) =~= before.push(x@));
}

/// The normalised form of every line.
pub open spec fn normalized_all(ls: Seq<Seq<char>>) -> Seq<Seq<char>>
    decreases ls.len(),
{
    if ls.len() == 0 {
        seq![]
    } else {
        normalized_all(ls.drop_last()).push(normalized_line(ls.last()))
    }
}

/// Number of non-empty entries.
pub open spec fn count_nonempty(ns: Seq<Seq<char>>) -> nat
    decreases ns.len(),
{
    if ns.len() == 0 {
        0
    } else {
        count_nonempty(ns.drop_last()) + if ns.last().len() > 0 {
            1nat
        } else {
            0nat
        }
    }
}

/// Whether line `i` (by its normalised form in `ns`) is removed: a non-empty
/// line among the first three non-empty ones that is a header line, or among
/// the last three non-empty ones that is a footer line.
pub open spec fn furniture_removes(
    ns: Seq<Seq<char>>,
    headers: Seq<Seq<char>>,
    footers: Seq<Seq<char>>,
    i: int,
) -> bool {
    ns[i].len() > 0 && ((count_nonempty(ns.take(i)) < PAGE_FURNITURE_TOP_K && headers.contains(
        ns[i],
    )) || (count_nonempty(ns.skip(i + 1)) < PAGE_FURNITURE_BOTTOM_K && footers.contains(ns[i])))
}

/// The first `n` lines of `ls` that are not removed.
pub open spec fn kept_lines(
    ls: Seq<Seq<char>>,
    ns: Seq<Seq<char>>,
    headers: Seq<Seq<char>>,
    footers: Seq<Seq<char>>,
    n: int,
) -> Seq<Seq<char>>
    decreases n,
{
    if n <= 0 {
        seq![]
    } else if furniture_removes(ns, headers, footers, n - 1) {
        kept_lines(ls, ns, headers, footers, n - 1)
    } else {
        kept_lines(ls, ns, headers, footers, n - 1).push(ls[n - 1])
    }
}

/// ASCII-case-insensitive equality (`str::eq_ignore_ascii_case`).
pub open spec fn eq_ignore_case(a: Seq<char>, b: Seq<char>) -> bool {
    lower_ascii(a) == lower_ascii(b)
}

/// A page with no text: blank, or the "no text found" marker.
pub open spec fn no_text(t: Seq<char>) -> bool {
    trim(t).len() == 0 || eq_ignore_case(trim(t), "no text found"@)
}

/// A page's text with its furniture lines removed. Lines are those of
/// `str::lines` joined again by `\n`; the page is returned unchanged when it
/// has no text, when nothing is removed, or when removal would leave it blank.
pub open spec fn trimmed_page(t: Seq<char>, headers: Seq<Seq<char>>, footers: Seq<Seq<char>>) -> Seq<
    char,
> {
    let ls = lines(t);
    let ns = normalized_all(ls);
    let out = join(kept_lines(ls, ns, headers, footers, ls.len() as int), "\n"@);
    if no_text(t) || ls.len() == 0 {
        t
    } else if !(exists|i: int| 0 <= i < ls.len() && #[trigger] furniture_removes(ns, headers, footers, i)) {
        t
    } else if trim(out).len() == 0 {
        t
    } else {
        out
    }
}

proof fn lemma_count_nonempty_concat(a: Seq<Seq<char>>, b: Seq<Seq<char>>)
    ensures
        count_nonempty(a + b) == count_nonempty(a) + count_nonempty(b),
    decreases b.len(),
{
    if b.len() > 0 {
        assert((a + b).drop_last() =~= a + b.drop_last());
        lemma_count_nonempty_concat(a, b.drop_last());
    } else {
        assert(a + b =~= a);
    }
}

proof fn lemma_lines_state_after_newline(t: Seq<char>)
    ensures
        lines_state(seq!['\n'] + t).0 == seq![Seq::<char>::empty()] + lines_state(t).0,
        lines_state(seq!['\n'] + t).1 == lines_state(t).1,
    decreases t.len(),
{
    if t.len() == 0 {
        let s = seq!['\n'] + t;
        assert(s.drop_last() =~= Seq::<char>::empty());
        assert(strip_cr(Seq::<char>::empty()) =~= Seq::<char>::empty());
    } else {
        let s = seq!['\n'] + t;
        assert(s.drop_last() =~= seq!['\n'] + t.drop_last());
        lemma_lines_state_after_newline(t.drop_last());
        assert(s.last() == t.last());
        let (d, c) = lines_state(t.drop_last());
        if t.last() == '\n' {
            assert((seq![Seq::<char>::empty()] + d).push(strip_cr(c)) =~= seq![Seq::<char>::empty()] + d.push(
                strip_cr(c),
            ));
        }
    }
}

/// A leading line break adds one empty line in front.
proof fn lemma_lines_after_newline(t: Seq<char>)
    ensures
        lines(seq!['\n'] + t) == seq![Seq::<char>::empty()] + lines(t),
{
    lemma_lines_state_after_newline(t);
    let (d, c) = lines_state(t);
    if c.len() > 0 {
        assert((seq![Seq::<char>::empty()] + d).push(c) =~= seq![Seq::<char>::empty()] + d.push(c));
    }
}

proof fn lemma_normalized_all_prepend(x: Seq<char>, ls: Seq<Seq<char>>)
    ensures
        normalized_all(seq![x] + ls) == seq![normalized_line(x)] + normalized_all(ls),
    decreases ls.len(),
{
    if ls.len() == 0 {
        assert(seq![x] + ls =~= seq![x]);
        assert(seq![x].drop_last() =~= Seq::<Seq<char>>::empty());
        assert(seq![normalized_line(x)] + normalized_all(ls) =~= seq![normalized_line(x)]);
    } else {
        assert((seq![x] + ls).drop_last() =~= seq![x] + ls.drop_last());
        lemma_normalized_all_prepend(x, ls.drop_last());
        assert((seq![normalized_line(x)] + normalized_all(ls.drop_last())).push(normalized_line(ls.last()))
            =~= seq![normalized_line(x)] + normalized_all(ls));
    }
}

/// A line in front that normalises to nothing moves every line one place on
/// and changes nothing about which lines are removed.
proof fn lemma_removes_after_empty(ns: Seq<Seq<char>>, headers: Seq<Seq<char>>, footers: Seq<Seq<char>>)
    ensures
        !furniture_removes(seq![Seq::<char>::empty()] + ns, headers, footers, 0),
        forall|j: int|
            0 <= j < ns.len() ==> #[trigger] furniture_removes(seq![Seq::<char>::empty()] + ns, headers, footers, j + 1)
                == furniture_removes(ns, headers, footers, j),
{
    let e = seq![Seq::<char>::empty()];
    let ns2 = e + ns;
    assert(count_nonempty(e) == 0) by {
        assert(e.drop_last() =~= Seq::<Seq<char>>::empty());
        assert(count_nonempty(e.drop_last()) == 0);
        assert(e.last().len() == 0);
    }
    assert forall|j: int| 0 <= j < ns.len() implies #[trigger] furniture_removes(ns2, headers, footers, j + 1)
        == furniture_removes(ns, headers, footers, j) by {
        assert(ns2.take(j + 1) =~= e + ns.take(j));
        lemma_count_nonempty_concat(e, ns.take(j));
        assert(ns2.skip(j + 2) =~= ns.skip(j + 1));
        assert(ns2[j + 1] == ns[j]);
    }
}

/// Blank lines count toward neither window: an empty normalised line put
/// before all lines, or after all lines, is not removed itself and changes
/// nothing about which of the other lines are removed.
pub proof fn lemma_blank_lines_outside_windows(
    ns: Seq<Seq<char>>,
    headers: Seq<Seq<char>>,
    footers: Seq<Seq<char>>,
)
    ensures
        !furniture_removes(seq![Seq::<char>::empty()] + ns, headers, footers, 0),
        forall|j: int|
            0 <= j < ns.len() ==> #[trigger] furniture_removes(seq![Seq::<char>::empty()] + ns, headers, footers, j + 1)
                == furniture_removes(ns, headers, footers, j),
        !furniture_removes(ns.push(Seq::<char>::empty()), headers, footers, ns.len() as int),
        forall|j: int|
            0 <= j < ns.len() ==> #[trigger] furniture_removes(ns.push(Seq::<char>::empty()), headers, footers, j)
                == furniture_removes(ns, headers, footers, j),
{
    lemma_removes_after_empty(ns, headers, footers);
    let e = seq![Seq::<char>::empty()];
    let ns2 = ns.push(Seq::<char>::empty());
    assert(count_nonempty(e) == 0) by {
        assert(e.drop_last() =~= Seq::<Seq<char>>::empty());
        assert(count_nonempty(e.drop_last()) == 0);
        assert(e.last().len() == 0);
    }
    assert forall|j: int| 0 <= j < ns.len() implies #[trigger] furniture_removes(ns2, headers, footers, j)
        == furniture_removes(ns, headers, footers, j) by {
        assert(ns2.take(j) =~= ns.take(j));
        assert(ns2.skip(j + 1) =~= ns.skip(j + 1) + e);
        lemma_count_nonempty_concat(ns.skip(j + 1), e);
        assert(ns2[j] == ns[j]);
    }
}

proof fn lemma_kept_after_empty(
    ls: Seq<Seq<char>>,
    ns: Seq<Seq<char>>,
    headers: Seq<Seq<char>>,
    footers: Seq<Seq<char>>,
    n: int,
)
    requires
        0 <= n <= ls.len(),
        n <= ns.len(),
    ensures
        kept_lines(seq![Seq::<char>::empty()] + ls, seq![Seq::<char>::empty()] + ns, headers, footers, n + 1)
            == seq![Seq::<char>::empty()] + kept_lines(ls, ns, headers, footers, n),
    decreases n,
{
    let e = seq![Seq::<char>::empty()];
    lemma_removes_after_empty(ns, headers, footers);
    if n == 0 {
        assert(kept_lines(e + ls, e + ns, headers, footers, 0) =~= Seq::<Seq<char>>::empty());
        assert((e + ls)[0] == Seq::<char>::empty());
        assert(Seq::<Seq<char>>::empty().push(Seq::<char>::empty()) =~= e + kept_lines(ls, ns, headers, footers, 0));
    } else {
        lemma_kept_after_empty(ls, ns, headers, footers, n - 1);
        assert(furniture_removes(e + ns, headers, footers, (n - 1) + 1) == furniture_removes(ns, headers, footers, n - 1));
        assert((e + ls)[n] == ls[n - 1]);
        let k = kept_lines(ls, ns, headers, footers, n - 1);
        assert((e + k).push(ls[n - 1]) =~= e + k.push(ls[n - 1]));
    }
}

proof fn lemma_join_after_empty(xs: Seq<Seq<char>>)
    ensures
        join(seq![Seq::<char>::empty()] + xs, "\n"@) == (if xs.len() == 0 {
            Seq::<char>::empty()
        } else {
            "\n"@ + join(xs, "\n"@)
        }),
    decreases xs.len(),
{
    let e = seq![Seq::<char>::empty()];
    if xs.len() == 0 {
        assert(e + xs =~= e);
        assert(join(e, "\n"@) == e[0]);
    } else if xs.len() == 1 {
        assert((e + xs).drop_last() =~= e);
        assert((e + xs).last() == xs[0]);
        assert(join(e, "\n"@) == e[0]);
        assert(join(xs, "\n"@) == xs[0]);
        assert(Seq::<char>::empty() + "\n"@ + xs[0] =~= "\n"@ + xs[0]);
    } else {
        assert((e + xs).drop_last() =~= e + xs.drop_last());
        assert((e + xs).last() == xs.last());
        lemma_join_after_empty(xs.drop_last());
        assert(("\n"@ + join(xs.drop_last(), "\n"@)) + "\n"@ + xs.last() =~= "\n"@ + (join(
            xs.drop_last(),
            "\n"@,
        ) + "\n"@ + xs.last()));
    }
}

proof fn lemma_trim_after_newline(s: Seq<char>)
    ensures
        trim(seq!['\n'] + s) == trim(s),
{
    let t = seq!['\n'] + s;
    assert(is_ws('\n'));
    assert(t.drop_first() =~= s);
}

proof fn lemma_lines_nonempty(t: Seq<char>)
    requires
        t.len() > 0,
    ensures
        lines(t).len() > 0,
{
    let (d, c) = lines_state(t.drop_last());
    if t.last() != '\n' {
        assert(lines_state(t).1.len() > 0);
    }
}

proof fn lemma_normalized_all_len(ls: Seq<Seq<char>>)
    ensures
        normalized_all(ls).len() == ls.len(),
    decreases ls.len(),
{
    if ls.len() > 0 {
        lemma_normalized_all_len(ls.drop_last());
    }
}

/// Blank lines above the text do not move the header window: a page with an
/// empty line put in front is trimmed exactly as the page itself, with that
/// line kept in front. Header lines are sought among the first non-empty
/// lines, however many blank lines come before them.
#[verifier::rlimit(60)]
pub proof fn lemma_trim_ignores_leading_blank_line(
    t: Seq<char>,
    headers: Seq<Seq<char>>,
    footers: Seq<Seq<char>>,
)
    ensures
        trimmed_page(seq!['\n'] + t, headers, footers) == seq!['\n'] + trimmed_page(t, headers, footers),
{
    let e = seq![Seq::<char>::empty()];
    let t2 = seq!['\n'] + t;
    lemma_trim_after_newline(t);
    lemma_lines_after_newline(t);
    let ls = lines(t);
    let ls2 = lines(t2);
    assert(ls2 == e + ls);
    let ns = normalized_all(ls);
    lemma_normalized_all_prepend(Seq::<char>::empty(), ls);
    assert(normalized_line(Seq::<char>::empty()) =~= Seq::<char>::empty()) by {
        assert(collapse_state(Seq::<char>::empty()).0 =~= Seq::<char>::empty());
    }
    let ns2 = normalized_all(ls2);
    assert(ns2 == e + ns);
    lemma_normalized_all_len(ls);
    lemma_removes_after_empty(ns, headers, footers);
    lemma_kept_after_empty(ls, ns, headers, footers, ls.len() as int);
    let k = kept_lines(ls, ns, headers, footers, ls.len() as int);
    assert(kept_lines(ls2, ns2, headers, footers, ls2.len() as int) == e + k);
    lemma_join_after_empty(k);
    let out = join(k, "\n"@);
    let out2 = join(e + k, "\n"@);
    reveal_strlit("\n");
    assert("\n"@ =~= seq!['\n']);
    if !no_text(t) && ls.len() > 0 {
        let ex = exists|i: int| 0 <= i < ls.len() && #[trigger] furniture_removes(ns, headers, footers, i);
        let ex2 = exists|i: int| 0 <= i < ls2.len() && #[trigger] furniture_removes(ns2, headers, footers, i);
        if ex {
            let i = choose|i: int| 0 <= i < ls.len() && #[trigger] furniture_removes(ns, headers, footers, i);
            assert(furniture_removes(ns2, headers, footers, i + 1));
        }
        if ex2 {
            let i = choose|i: int| 0 <= i < ls2.len() && #[trigger] furniture_removes(ns2, headers, footers, i);
            assert(i > 0);
            assert(furniture_removes(ns, headers, footers, i - 1));
        }
        assert(ex == ex2);
        if k.len() > 0 {
            lemma_trim_after_newline(out);
        }
    } else if !no_text(t) {
        if t.len() == 0 {
            assert(trim(t) =~= Seq::<char>::empty());
        }
        lemma_lines_nonempty(t);
    }
}

/// Whether a page's text counts as having no text.
/// Whether a page's text counts as having no text.
pub fn is_no_text(t: &[char]) -> (b: bool)
    ensures
        b == no_text(t@),
{
    let tt = trim_chars(t);
    if tt.len() == 0 {
        return true;
    }
    let marker = chars_of("no text found");
    let a = lower_ascii_chars(tt.as_slice());
    let b = lower_ascii_chars(marker.as_slice());
    eq_chars(a.as_slice(), b.as_slice())
}

/// Removes furniture lines at the page boundaries: among the first three
/// non-empty lines those that are header lines, among the last three those
/// that are footer lines. A page with no text, or one that would become
/// blank, is returned unchanged.
pub fn trim_page_furniture(text: &str, furniture: &PageFurniture) -> (r: String)
    ensures
        r@ == trimmed_page(text@, furniture.headers(), furniture.footers()),
        trim(text@).len() > 0 ==> trim(r@).len() > 0,
{
    let t = chars_of(text);
    if is_no_text(t.as_slice()) {
        return string_of(t.as_slice());
    }
    let ls = lines_chars(t.as_slice());
    let ghost lv = views(ls@);
    if ls.len() == 0 {
        return string_of(t.as_slice());
    }
    let mut ns: Vec<Vec<char>> = Vec::new();
    let mut i: usize = 0;
    while i < ls.len()
        invariant
            i <= ls.len(),
            lv == views(ls@),
            views(ns@) == normalized_all(lv.take(i as int)),
            ns@.len() == i,
        decreases ls.len() - i,
    {
        assert(lv.take(i + 1).drop_last() =~= lv.take(i as int));
        let n = normalize_line_chars(ls[i].as_slice());
        let ghost before = views(ns@);
        ns.push(n);
        assert(views(ns@) =~= before.push(n@));
        i += 1;
    }
    assert(lv.take(ls.len() as int) =~= lv);
    let ghost nv = views(ns@);
    let ghost hs = furniture.headers();
    let ghost fs = furniture.footers();
    let n = ns.len();

    // header pass: count of non-empty lines before each index
    let mut remove: Vec<bool> = Vec::new();
    let mut seen: usize = 0;
    let mut idx: usize = 0;
    while idx < n
        invariant
            idx <= n,
            n == ns.len(),
            nv == views(ns@),
            hs == furniture.headers(),
            fs == furniture.footers(),
            remove.len() == idx,
            seen == count_nonempty(nv.take(idx as int)),
            seen <= idx,
            forall|j: int|
                0 <= j < idx ==> remove@[j] == (nv[j].len() > 0 && count_nonempty(nv.take(j))
                    < PAGE_FURNITURE_TOP_K && hs.contains(nv[j])),
        decreases n - idx,
    {
        assert(nv.take(idx + 1).drop_last() =~= nv.take(idx as int));
        let mut mark = false;
        if ns[idx].len() > 0 {
            if seen < PAGE_FURNITURE_TOP_K {
                let c = contains_string(&furniture.header_lines, ns[idx].as_slice());
                mark = c;
            }
            seen += 1;
        }
        remove.push(mark);
        idx += 1;
    }

    // footer pass: count of non-empty lines after each index
    let mut seen_after: usize = 0;
    let mut k: usize = n;
    while k > 0
        invariant
            k <= n,
            n == ns.len(),
            nv == views(ns@),
            hs == furniture.headers(),
            fs == furniture.footers(),
            remove.len() == n,
            seen_after == count_nonempty(nv.skip(k as int)),
            seen_after <= n - k,
            forall|j: int|
                0 <= j < k ==> remove@[j] == (nv[j].len() > 0 && count_nonempty(nv.take(j))
                    < PAGE_FURNITURE_TOP_K && hs.contains(nv[j])),
            forall|j: int|
                k <= j < n ==> remove@[j] == furniture_removes(nv, hs, fs, j),
        decreases k,
    {
        let j = k - 1;
        proof {
            assert(nv.skip(j as int) =~= seq![nv[j as int]] + nv.skip(k as int));
            lemma_count_nonempty_concat(seq![nv[j as int]], nv.skip(k as int));
            assert(seq![nv[j as int]].drop_last() =~= Seq::<Seq<char>>::empty());
            assert(count_nonempty(seq![nv[j as int]]) == count_nonempty(Seq::<Seq<char>>::empty())
                + if nv[j as int].len() > 0 {
                1nat
            } else {
                0nat
            });
        }
        if ns[j].len() > 0 {
            if seen_after < PAGE_FURNITURE_BOTTOM_K {
                let c = contains_string(&furniture.footer_lines, ns[j].as_slice());
                if c {
                    remove.set(j, true);
                }
            }
            seen_after += 1;
        }
        k -= 1;
    }

    let mut any = false;
    let mut kept: Vec<Vec<char>> = Vec::new();
    let mut m: usize = 0;
    while m < n
        invariant
            m <= n,
            n == ns.len(),
            n == ls.len(),
            lv == views(ls@),
            nv == views(ns@),
            remove.len() == n,
            forall|j: int| 0 <= j < n ==> remove@[j] == furniture_removes(nv, hs, fs, j),
            any == (exists|j: int| 0 <= j < m && #[trigger] furniture_removes(nv, hs, fs, j)),
            views(kept@) == kept_lines(lv, nv, hs, fs, m as int),
        decreases n - m,
    {
        if remove[m] {
            any = true;
        } else {
            let ghost before = views(kept@);
            kept.push(ls[m].clone());
            assert(views(kept@) =~= before.push(lv[m as int]));
        }
        m += 1;
    }
    if !any {
        return string_of(t.as_slice());
    }
    let nl = ['\n'];
    proof {
        reveal_strlit("\n");
        assert(nl@ =~= "\n"@);
    }
    let out = join_chars(&kept, nl.as_slice());
    if is_blank(out.as_slice()) {
        string_of(t.as_slice())
    } else {
        string_of(out.as_slice())
    }
}

/// How many times `x` occurs in `ls`.
pub open spec fn occurrences(ls: Seq<Seq<char>>, x: Seq<char>) -> nat
    decreases ls.len(),
{
    if ls.len() == 0 {
        0
    } else {
        occurrences(ls.drop_last(), x) + if ls.last() == x {
            1nat
        } else {
            0nat
        }
    }
}

/// Total occurrences of `x` over groups of lines.
pub open spec fn tally(groups: Seq<Seq<Seq<char>>>, x: Seq<char>) -> nat
    decreases groups.len(),
{
    if groups.len() == 0 {
        0
    } else {
        tally(groups.drop_last(), x) + occurrences(groups.last(), x)
    }
}

/// The texts of the sampled pages that have text (`None` is a page whose text
/// could not be extracted).
pub open spec fn sampled_texts(pages: Seq<Option<Seq<char>>>) -> Seq<Seq<char>>
    decreases pages.len(),
{
    if pages.len() == 0 {
        seq![]
    } else {
        match pages.last() {
            Some(t) => if no_text(t) {
                sampled_texts(pages.drop_last())
            } else {
                sampled_texts(pages.drop_last()).push(t)
            },
            None => sampled_texts(pages.drop_last()),
        }
    }
}

pub open spec fn page_views(pages: Seq<Option<String>>) -> Seq<Option<Seq<char>>> {
    pages.map_values(|p: Option<String>| match p {
        Some(s) => Some(s@),
        None => None,
    })
}

/// Top boundary lines of each text.
pub open spec fn top_groups(texts: Seq<Seq<char>>) -> Seq<Seq<Seq<char>>> {
    texts.map_values(|t: Seq<char>| top_lines(t, PAGE_FURNITURE_TOP_K as nat))
}

/// Bottom boundary lines of each text.
pub open spec fn bottom_groups(texts: Seq<Seq<char>>) -> Seq<Seq<Seq<char>>> {
    texts.map_values(|t: Seq<char>| bottom_lines(t, PAGE_FURNITURE_BOTTOM_K as nat))
}

/// `max(ceil(0.6 * n), 2)`: how many sampled pages must repeat a line.
pub open spec fn min_repeats(n: nat) -> nat {
    let c = (3 * n + 4) / 5;
    if c < 2 {
        2
    } else {
        c
    }
}

/// The repeat threshold is the least count of at least two that reaches
/// three fifths of the sampled pages, and never exceeds the number of pages
/// when at least two were sampled.
pub proof fn lemma_min_repeats_is_three_fifths(n: nat)
    ensures
        min_repeats(n) >= 2,
        5 * min_repeats(n) >= 3 * n,
        min_repeats(n) > 2 ==> 5 * (min_repeats(n) - 1) < 3 * n,
        n >= 2 ==> min_repeats(n) <= n,
{
}

proof fn lemma_occurrences_contains(ls: Seq<Seq<char>>, x: Seq<char>)
    ensures
        ls.contains(x) ==> occurrences(ls, x) >= 1,
    decreases ls.len(),
{
    if ls.len() > 0 {
        lemma_occurrences_contains(ls.drop_last(), x);
        if ls.contains(x) && ls.last() != x {
            let k = choose|k: int| 0 <= k < ls.len() && ls[k] == x;
            assert(ls.drop_last()[k] == x);
        }
    }
}

proof fn lemma_tally_everywhere(groups: Seq<Seq<Seq<char>>>, x: Seq<char>)
    requires
        forall|j: int| 0 <= j < groups.len() ==> (#[trigger] groups[j]).contains(x),
    ensures
        tally(groups, x) >= groups.len(),
    decreases groups.len(),
{
    if groups.len() > 0 {
        let g = groups.drop_last();
        assert forall|j: int| 0 <= j < g.len() implies (#[trigger] g[j]).contains(x) by {
            assert(g[j] == groups[j]);
        }
        lemma_tally_everywhere(g, x);
        assert(groups.last() == groups[groups.len() - 1]);
        lemma_occurrences_contains(groups.last(), x);
    }
}

/// A line among the top lines of every sampled page reaches the repeat
/// threshold (and so is a header line when at least two pages were
/// sampled); likewise at the bottom for footer lines.
pub proof fn lemma_line_on_every_page_repeats(samples: Seq<Seq<char>>, x: Seq<char>)
    requires
        samples.len() >= 2,
    ensures
        (forall|j: int| 0 <= j < samples.len() ==> #[trigger] top_lines(samples[j], PAGE_FURNITURE_TOP_K as nat).contains(x))
            ==> tally(top_groups(samples), x) >= min_repeats(samples.len()),
        (forall|j: int|
            0 <= j < samples.len() ==> #[trigger] bottom_lines(samples[j], PAGE_FURNITURE_BOTTOM_K as nat).contains(x))
            ==> tally(bottom_groups(samples), x) >= min_repeats(samples.len()),
{
    lemma_min_repeats_is_three_fifths(samples.len());
    let tg = top_groups(samples);
    let bg = bottom_groups(samples);
    if forall|j: int| 0 <= j < samples.len() ==> #[trigger] top_lines(samples[j], PAGE_FURNITURE_TOP_K as nat).contains(x) {
        assert forall|j: int| 0 <= j < tg.len() implies (#[trigger] tg[j]).contains(x) by {
            assert(tg[j] == top_lines(samples[j], PAGE_FURNITURE_TOP_K as nat));
        }
        lemma_tally_everywhere(tg, x);
    }
    if forall|j: int|
        0 <= j < samples.len() ==> #[trigger] bottom_lines(samples[j], PAGE_FURNITURE_BOTTOM_K as nat).contains(x) {
        assert forall|j: int| 0 <= j < bg.len() implies (#[trigger] bg[j]).contains(x) by {
            assert(bg[j] == bottom_lines(samples[j], PAGE_FURNITURE_BOTTOM_K as nat));
        }
        lemma_tally_everywhere(bg, x);
    }
}

/// Count stored for `x` in a table of keys and counts.
pub open spec fn lookup(keys: Seq<Seq<char>>, counts: Seq<u32>, x: Seq<char>) -> nat
    decreases keys.len(),
{
    if keys.len() == 0 || counts.len() == 0 {
        0
    } else if keys.last() == x {
        counts.last() as nat
    } else {
        lookup(keys.drop_last(), counts.drop_last(), x)
    }
}

proof fn lemma_lookup_index(keys: Seq<Seq<char>>, counts: Seq<u32>, i: int)
    requires
        keys.no_duplicates(),
        keys.len() == counts.len(),
        0 <= i < keys.len(),
    ensures
        lookup(keys, counts, keys[i]) == counts[i],
    decreases keys.len(),
{
    if i < keys.len() - 1 {
        assert(keys.last() != keys[i]);
        lemma_lookup_index(keys.drop_last(), counts.drop_last(), i);
    }
}

proof fn lemma_lookup_absent(keys: Seq<Seq<char>>, counts: Seq<u32>, x: Seq<char>)
    requires
        !keys.contains(x),
    ensures
        lookup(keys, counts, x) == 0,
    decreases keys.len(),
{
    if keys.len() > 0 && counts.len() > 0 {
        assert(keys.last() != x);
        assert(!keys.drop_last().contains(x)) by {
            if keys.drop_last().contains(x) {
                let k = choose|k: int| 0 <= k < keys.drop_last().len() && keys.drop_last()[k] == x;
                assert(keys[k] == x);
            }
        }
        lemma_lookup_absent(keys.drop_last(), counts.drop_last(), x);
    }
}

proof fn lemma_lookup_update(keys: Seq<Seq<char>>, counts: Seq<u32>, i: int, c: u32, x: Seq<char>)
    requires
        keys.no_duplicates(),
        keys.len() == counts.len(),
        0 <= i < keys.len(),
    ensures
        lookup(keys, counts.update(i, c), x) == if x == keys[i] {
            c as nat
        } else {
            lookup(keys, counts, x)
        },
    decreases keys.len(),
{
    if i == keys.len() - 1 {
        assert(counts.update(i, c).drop_last() =~= counts.drop_last());
        if x != keys[i] {
        }
    } else {
        assert(counts.update(i, c).drop_last() =~= counts.drop_last().update(i, c));
        assert(keys.last() != keys[i]);
        lemma_lookup_update(keys.drop_last(), counts.drop_last(), i, c, x);
    }
}

/// Adds one occurrence of `x` to the table.
fn bump(keys: &mut Vec<Vec<char>>, counts: &mut Vec<u32>, x: &Vec<char>)
    requires
        views(old(keys)@).no_duplicates(),
        old(keys)@.len() == old(counts)@.len(),
        forall|j: int| 0 <= j < old(counts)@.len() ==> old(counts)@[j] < 1000,
    ensures
        views(final(keys)@).no_duplicates(),
        final(keys)@.len() == final(counts)@.len(),
        final(counts)@.len() >= old(counts)@.len(),
        forall|j: int|
            old(counts)@.len() <= j < final(counts)@.len() ==> final(counts)@[j] == 1,
        forall|y: Seq<char>|
            lookup(views(final(keys)@), final(counts)@, y) == lookup(views(old(keys)@), old(counts)@, y)
                + if y == x@ {
                1nat
            } else {
                0nat
            },
        forall|y: Seq<char>|
            views(final(keys)@).contains(y) <==> (views(old(keys)@).contains(y) || y == x@),
        forall|j: int|
            0 <= j < old(counts)@.len() ==> final(counts)@[j] <= old(counts)@[j] + 1,
{
    let ghost kv = views(keys@);
    let mut i: usize = 0;
    while i < keys.len()
        invariant
            i <= keys.len(),
            kv == views(keys@),
            kv.no_duplicates(),
            counts@ == old(counts)@,
            keys@.len() == counts@.len(),
            forall|j: int| 0 <= j < counts@.len() ==> counts@[j] < 1000,
            keys@.len() == counts@.len(),
            forall|j: int| 0 <= j < i ==> kv[j] != x@,
        decreases keys.len() - i,
    {
        if eq_chars(keys[i].as_slice(), x.as_slice()) {
            let c = counts[i];
            proof {
                assert forall|y: Seq<char>|
                    lookup(kv, counts@.update(i as int, (c + 1) as u32), y) == lookup(kv, counts@, y)
                        + if y == x@ {
                        1nat
                    } else {
                        0nat
                    } by {
                    lemma_lookup_update(kv, counts@, i as int, (c + 1) as u32, y);
                    lemma_lookup_index(kv, counts@, i as int);
                }
                assert(kv.contains(x@)) by {
                    assert(kv[i as int] == x@);
                }
            }
            counts.set(i, c + 1);
            return;
        }
        i += 1;
    }
    proof {
        assert(!kv.contains(x@));
        lemma_lookup_absent(kv, counts@, x@);
    }
    let ghost old_counts = counts@;
    keys.push(x.clone());
    counts.push(1);
    proof {
        assert(views(keys@) =~= kv.push(x@));
        assert(counts@.drop_last() =~= old_counts);
        assert(views(keys@).drop_last() =~= kv);
        assert forall|y: Seq<char>|
            lookup(views(keys@), counts@, y) == lookup(kv, old_counts, y) + if y == x@ {
                1nat
            } else {
                0nat
            } by {
            lemma_lookup_absent(kv, old_counts, x@);
            assert(views(keys@).last() == x@);
            assert(counts@.last() == 1);
        }
        assert forall|y: Seq<char>|
            views(keys@).contains(y) <==> (kv.contains(y) || y == x@) by {
            if views(keys@).contains(y) && y != x@ {
                let k = choose|k: int| 0 <= k < views(keys@).len() && views(keys@)[k] == y;
                assert(kv[k] == y);
            }
            if kv.contains(y) {
                let k = choose|k: int| 0 <= k < kv.len() && kv[k] == y;
                assert(views(keys@)[k] == y);
            }
            if y == x@ {
                assert(views(keys@)[kv.len() as int] == y);
            }
        }
        assert forall|a: int, b: int|
            0 <= a < b < views(keys@).len() implies views(keys@)[a] != views(keys@)[b] by {
            if b == kv.len() {
                assert(views(keys@)[a] == kv[a]);
            }
        }
    }
}

/// For each line, how many times it occurs over all groups: the lines with
/// at least `min` occurrences.
fn frequent_lines(groups: &Vec<Vec<Vec<char>>>, min: usize) -> (r: Vec<String>)
    requires
        groups.len() <= 8,
        forall|g: int| 0 <= g < groups.len() ==> (#[trigger] groups@[g]).len() <= 3,
        min >= 1,
    ensures
        string_views(r@).no_duplicates(),
        forall|x: Seq<char>|
            string_views(r@).contains(x) <==> tally(group_views(groups@), x) >= min,
{
    let ghost gv = group_views(groups@);
    let mut keys: Vec<Vec<char>> = Vec::new();
    let mut counts: Vec<u32> = Vec::new();
    let mut g: usize = 0;
    while g < groups.len()
        invariant
            g <= groups.len() <= 8,
            gv == group_views(groups@),
            forall|h: int| 0 <= h < groups.len() ==> (#[trigger] groups@[h]).len() <= 3,
            views(keys@).no_duplicates(),
            keys@.len() == counts@.len(),
            forall|j: int| 0 <= j < counts@.len() ==> counts@[j] <= 3 * g,
            forall|y: Seq<char>| lookup(views(keys@), counts@, y) == tally(gv.take(g as int), y),
            forall|y: Seq<char>| tally(gv.take(g as int), y) > 0 ==> views(keys@).contains(y),
        decreases groups.len() - g,
    {
        assert(gv.take(g + 1).drop_last() =~= gv.take(g as int));
        assert(gv.take(g + 1).last() == views(groups@[g as int]@));
        let group = &groups[g];
        let ghost lv = views(group@);
        let ghost base_keys = views(keys@);
        let ghost base_counts = counts@;
        let mut m: usize = 0;
        while m < group.len()
            invariant
                m <= group.len() <= 3,
                g < groups.len() <= 8,
                lv == views(group@),
                views(keys@).no_duplicates(),
                keys@.len() == counts@.len(),
                forall|j: int| 0 <= j < counts@.len() ==> counts@[j] <= 3 * g + m,
                forall|y: Seq<char>|
                    lookup(views(keys@), counts@, y) == lookup(base_keys, base_counts, y)
                        + occurrences(lv.take(m as int), y),
                forall|y: Seq<char>|
                    #![trigger views(keys@).contains(y)]
                    (base_keys.contains(y) || occurrences(lv.take(m as int), y) > 0)
                        ==> views(keys@).contains(y),
            decreases group.len() - m,
        {
            assert(lv.take(m + 1).drop_last() =~= lv.take(m as int));
            let ghost kb = views(keys@);
            let ghost cb = counts@;
            bump(&mut keys, &mut counts, &group[m]);
            proof {
                assert forall|j: int| 0 <= j < counts@.len() implies counts@[j] <= 3 * g + m + 1 by {
                    if j < cb.len() {
                        assert(counts@[j] <= cb[j] + 1);
                    }
                }
                assert forall|y: Seq<char>|
                    (base_keys.contains(y) || occurrences(lv.take(m + 1), y) > 0)
                        implies views(keys@).contains(y) by {
                    assert(occurrences(lv.take(m + 1), y) == occurrences(lv.take(m as int), y)
                        + if lv.take(m + 1).last() == y {
                        1nat
                    } else {
                        0nat
                    });
                    assert(lv.take(m + 1).last() == group@[m as int]@);
                    if occurrences(lv.take(m as int), y) > 0 || base_keys.contains(y) {
                        assert(kb.contains(y));
                    }
                }
            }
            m += 1;
        }
        assert(lv.take(group.len() as int) =~= lv);
        assert(gv[g as int] == lv);
        assert(gv.take(g + 1).last() == lv);
        assert forall|y: Seq<char>| lookup(views(keys@), counts@, y) == tally(gv.take(g + 1), y) by {
            assert(tally(gv.take(g + 1), y) == tally(gv.take(g as int), y) + occurrences(lv, y));
        }
        assert forall|y: Seq<char>| tally(gv.take(g + 1), y) > 0 implies views(keys@).contains(y) by {
            assert(tally(gv.take(g + 1), y) == tally(gv.take(g as int), y) + occurrences(lv, y));
            if tally(gv.take(g as int), y) > 0 {
                assert(base_keys.contains(y));
            }
        }
        g += 1;
    }
    assert(gv.take(groups.len() as int) =~= gv);
    let mut out: Vec<String> = Vec::new();
    let ghost kv = views(keys@);
    let mut j: usize = 0;
    while j < keys.len()
        invariant
            j <= keys.len(),
            kv == views(keys@),
            kv.no_duplicates(),
            keys@.len() == counts@.len(),
            min >= 1,
            forall|y: Seq<char>| lookup(kv, counts@, y) == tally(gv, y),
            forall|y: Seq<char>| tally(gv, y) > 0 ==> kv.contains(y),
            string_views(out@).no_duplicates(),
            forall|y: Seq<char>|
                string_views(out@).contains(y) <==> (exists|k: int|
                    0 <= k < j && kv[k] == y && counts@[k] >= min),
        decreases keys.len() - j,
    {
        if counts[j] as usize >= min {
            let ghost before = string_views(out@);
            let item = string_of(keys[j].as_slice());
            proof {
                assert(!before.contains(kv[j as int])) by {
                    if before.contains(kv[j as int]) {
                        let k = choose|k: int| 0 <= k < j && kv[k] == kv[j as int] && counts@[k] >= min;
                    }
                }
            }
            out.push(item);
            proof {
                assert(string_views(out@) =~= before.push(kv[j as int]));
                assert forall|a: int, b: int|
                    0 <= a < b < string_views(out@).len() implies string_views(out@)[a]
                        != string_views(out@)[b] by {
                    if b == before.len() {
                        assert(string_views(out@)[a] == before[a]);
                        assert(before.contains(before[a]));
                    }
                }
                assert forall|y: Seq<char>|
                    string_views(out@).contains(y) <==> (exists|k: int|
                        0 <= k < j + 1 && kv[k] == y && counts@[k] >= min) by {
                    if string_views(out@).contains(y) && y != kv[j as int] {
                        let k = choose|k: int| 0 <= k < string_views(out@).len() && string_views(out@)[k] == y;
                        assert(before[k] == y);
                        assert(before.contains(y));
                    }
                    if exists|k: int| 0 <= k < j + 1 && kv[k] == y && counts@[k] >= min {
                        let k = choose|k: int| 0 <= k < j + 1 && kv[k] == y && counts@[k] >= min;
                        if k < j {
                            assert(before.contains(y));
                            let q = choose|q: int| 0 <= q < before.len() && before[q] == y;
                            assert(string_views(out@)[q] == y);
                        } else {
                            assert(string_views(out@)[before.len() as int] == y);
                        }
                    }
                }
            }
        }
        j += 1;
    }
    proof {
        assert forall|x: Seq<char>| string_views(out@).contains(x) <==> tally(gv, x) >= min by {
            if string_views(out@).contains(x) {
                let k = choose|k: int| 0 <= k < keys.len() && kv[k] == x && counts@[k] >= min;
                lemma_lookup_index(kv, counts@, k);
            }
            if tally(gv, x) >= min {
                assert(kv.contains(x));
                let k = choose|k: int| 0 <= k < kv.len() && kv[k] == x;
                lemma_lookup_index(kv, counts@, k);
            }
        }
    }
    out
}

pub open spec fn group_views(g: Seq<Vec<Vec<char>>>) -> Seq<Seq<Seq<char>>> {
    g.map_values(|v: Vec<Vec<char>>| views(v@))
}

fn boundary_slice(text: &[char], top: bool, k: usize) -> (r: Vec<Vec<char>>)
    ensures
        views(r@) == if top {
            top_lines(text@, k as nat)
        } else {
            bottom_lines(text@, k as nat)
        },
        r@.len() <= k,
{
    let all = boundary_lines(text);
    let n = if k < all.len() {
        k
    } else {
        all.len()
    };
    let (from, to) = if top {
        (0, n)
    } else {
        (all.len() - n, all.len())
    };
    let mut r: Vec<Vec<char>> = Vec::new();
    let mut i = from;
    while i < to
        invariant
            from <= i <= to <= all.len(),
            to - from == n,
            views(r@) == views(all@).subrange(from as int, i as int),
        decreases to - i,
    {
        let ghost before = views(r@);
        r.push(all[i].clone());
        assert(views(r@) =~= before.push(views(all@)[i as int]));
        assert(views(r@) =~= views(all@).subrange(from as int, i + 1));
        i += 1;
    }
    if top {
        assert(views(all@).subrange(0, n as int) =~= views(all@).take(n as int));
    } else {
        assert(views(all@).subrange((all.len() - n) as int, all.len() as int) =~= views(
            all@,
        ).skip(all.len() - n));
    }
    r
}

/// Pages to sample: the page count capped at eight, eight when the count is
/// unknown, and at least one.
pub fn sample_page_count(total_pages: Option<u32>) -> (n: u32)
    ensures
        n == match total_pages {
            Some(t) => if t == 0 {
                1
            } else if t < PAGE_FURNITURE_SAMPLE_PAGES {
                t
            } else {
                PAGE_FURNITURE_SAMPLE_PAGES
            },
            None => PAGE_FURNITURE_SAMPLE_PAGES,
        },
        1 <= n <= PAGE_FURNITURE_SAMPLE_PAGES,
{
    let total = match total_pages {
        Some(t) => t,
        None => PAGE_FURNITURE_SAMPLE_PAGES,
    };
    let capped = if total < PAGE_FURNITURE_SAMPLE_PAGES {
        total
    } else {
        PAGE_FURNITURE_SAMPLE_PAGES
    };
    if capped < 1 {
        1
    } else {
        capped
    }
}

/// Furniture of a book from the extracted text of its first pages (`None`
/// for a page whose text could not be extracted). With fewer than two pages
/// that have text there is none; otherwise a header (footer) line is one that
/// occurs among the top (bottom) three lines of at least `max(ceil(0.6 n), 2)`
/// of the `n` pages with text, each occurrence counted.
pub fn detect_page_furniture(pages: &Vec<Option<String>>) -> (f: PageFurniture)
    requires
        pages.len() <= PAGE_FURNITURE_SAMPLE_PAGES,
    ensures
        ({
            let samples = sampled_texts(page_views(pages@));
            &&& samples.len() < 2 ==> f.headers().len() == 0 && f.footers().len() == 0
            &&& samples.len() >= 2 ==> forall|x: Seq<char>|
                f.headers().contains(x) <==> tally(top_groups(samples), x) >= min_repeats(
                    samples.len(),
                )
            &&& samples.len() >= 2 ==> forall|x: Seq<char>|
                f.footers().contains(x) <==> tally(bottom_groups(samples), x) >= min_repeats(
                    samples.len(),
                )
        }),
        f.headers().no_duplicates(),
        f.footers().no_duplicates(),
{
    let ghost pv = page_views(pages@);
    let mut tops: Vec<Vec<Vec<char>>> = Vec::new();
    let mut bottoms: Vec<Vec<Vec<char>>> = Vec::new();
    let mut sampled: usize = 0;
    let mut i: usize = 0;
    while i < pages.len()
        invariant
            i <= pages.len() <= 8,
            pv == page_views(pages@),
            sampled == sampled_texts(pv.take(i as int)).len(),
            sampled <= i,
            tops@.len() == sampled,
            bottoms@.len() == sampled,
            group_views(tops@) == top_groups(sampled_texts(pv.take(i as int))),
            group_views(bottoms@) == bottom_groups(sampled_texts(pv.take(i as int))),
            forall|g: int| 0 <= g < tops@.len() ==> (#[trigger] tops@[g]).len() <= 3,
            forall|g: int| 0 <= g < bottoms@.len() ==> (#[trigger] bottoms@[g]).len() <= 3,
        decreases pages.len() - i,
    {
        assert(pv.take(i + 1).drop_last() =~= pv.take(i as int));
        assert(pv.take(i + 1).last() == pv[i as int]);
        let ghost prev = sampled_texts(pv.take(i as int));
        match &pages[i] {
            Some(text) => {
                let t = chars_of(text.as_str());
                assert(pv[i as int] == Some(t@));
                if !is_no_text(t.as_slice()) {
                    let top = boundary_slice(t.as_slice(), true, PAGE_FURNITURE_TOP_K);
                    let bottom = boundary_slice(t.as_slice(), false, PAGE_FURNITURE_BOTTOM_K);
                    let ghost gt = group_views(tops@);
                    let ghost gb = group_views(bottoms@);
                    tops.push(top);
                    bottoms.push(bottom);
                    sampled += 1;
                    proof {
                        assert(group_views(tops@) =~= gt.push(views(top@)));
                        assert(group_views(bottoms@) =~= gb.push(views(bottom@)));
                        assert(top_groups(prev.push(t@)) =~= top_groups(prev).push(
                            top_lines(t@, PAGE_FURNITURE_TOP_K as nat),
                        ));
                        assert(bottom_groups(prev.push(t@)) =~= bottom_groups(prev).push(
                            bottom_lines(t@, PAGE_FURNITURE_BOTTOM_K as nat),
                        ));
                    }
                }
            },
            None => {
                assert(pv[i as int] == None::<Seq<char>>);
            },
        }
        i += 1;
    }
    assert(pv.take(pages.len() as int) =~= pv);
    if sampled < 2 {
        return PageFurniture::new();
    }
    let min = (3 * sampled + 4) / 5;
    let min = if min < 2 {
        2
    } else {
        min
    };
    let header_lines = frequent_lines(&tops, min);
    let footer_lines = frequent_lines(&bottoms, min);
    PageFurniture { header_lines, footer_lines }
}

} // verus!
