//! Reader settings and the ordering of library roots.

use vstd::prelude::*;
use crate::model::{KittyImageQuality, ReaderMode, ReaderTextMode, ScanScope};
use crate::strs::{chars_of, eq_chars, string_of, trim, trim_chars};

verus! {

/// Strict lexicographic order of char sequences by code point: the order of
/// `String` (the order of the UTF-8 bytes).
pub open spec fn str_lt(a: Seq<char>, b: Seq<char>) -> bool
    decreases a.len(),
{
    if a.len() == 0 {
        b.len() > 0
    } else if b.len() == 0 {
        false
    } else if a[0] != b[0] {
        (a[0] as u32) < (b[0] as u32)
    } else {
        str_lt(a.drop_first(), b.drop_first())
    }
}

pub proof fn lemma_str_lt_irreflexive(a: Seq<char>)
    ensures
        !str_lt(a, a),
    decreases a.len(),
{
    if a.len() > 0 {
        lemma_str_lt_irreflexive(a.drop_first());
    }
}

pub proof fn lemma_str_lt_transitive(a: Seq<char>, b: Seq<char>, c: Seq<char>)
    requires
        str_lt(a, b),
        str_lt(b, c),
    ensures
        str_lt(a, c),
    decreases a.len(),
{
    if a.len() > 0 && b.len() > 0 && c.len() > 0 {
        if a[0] == b[0] && b[0] == c[0] {
            lemma_str_lt_transitive(a.drop_first(), b.drop_first(), c.drop_first());
        }
    }
}

pub proof fn lemma_str_lt_total(a: Seq<char>, b: Seq<char>)
    requires
        a != b,
    ensures
        str_lt(a, b) || str_lt(b, a),
    decreases a.len(),
{
    if a.len() > 0 && b.len() > 0 && a[0] != b[0] {
        vstd::utf8::char_u32_cast(a[0], a[0] as u32);
        vstd::utf8::char_u32_cast(b[0], b[0] as u32);
    }
    if a.len() > 0 && b.len() > 0 && a[0] == b[0] {
        if a.drop_first() == b.drop_first() {
            assert(a =~= seq![a[0]] + a.drop_first());
            assert(b =~= seq![b[0]] + b.drop_first());
        }
        lemma_str_lt_total(a.drop_first(), b.drop_first());
    }
    if a.len() == 0 && b.len() == 0 {
        assert(a =~= b);
    }
}

pub proof fn lemma_str_lt_asymmetric(a: Seq<char>, b: Seq<char>)
    requires
        str_lt(a, b),
    ensures
        !str_lt(b, a),
{
    if str_lt(b, a) {
        lemma_str_lt_transitive(a, b, a);
        lemma_str_lt_irreflexive(a);
    }
}

/// `a < b` on strings, as `String`'s `Ord` compares them.
pub fn less_than(a: &[char], b: &[char]) -> (r: bool)
    ensures
        r == str_lt(a@, b@),
{
    let mut i: usize = 0;
    assert(a@.skip(0) =~= a@);
    assert(b@.skip(0) =~= b@);
    while i < a.len() && i < b.len() && a[i] == b[i]
        invariant
            i <= a.len(),
            i <= b.len(),
            str_lt(a@, b@) == str_lt(a@.skip(i as int), b@.skip(i as int)),
        decreases a.len() - i,
    {
        proof {
            let sa = a@.skip(i as int);
            let sb = b@.skip(i as int);
            assert(sa.drop_first() =~= a@.skip(i + 1));
            assert(sb.drop_first() =~= b@.skip(i + 1));
        }
        i += 1;
    }
    if i == a.len() {
        i < b.len()
    } else if i == b.len() {
        false
    } else {
        assert(a@.skip(i as int)[0] == a@[i as int]);
        assert(b@.skip(i as int)[0] == b@[i as int]);
        (a[i] as u32) < (b[i] as u32)
    }
}

pub open spec fn string_views(v: Seq<String>) -> Seq<Seq<char>> {
    v.map_values(|s: String| s@)
}

/// Strictly increasing in the string order: sorted with no repeats.
pub open spec fn strictly_sorted(s: Seq<Seq<char>>) -> bool {
    forall|i: int, j: int| 0 <= i < j < s.len() ==> str_lt(#[trigger] s[i], #[trigger] s[j])
}

/// Whether `t` is the trimmed form of one of `roots`, and not empty.
pub open spec fn is_clean_root(roots: Seq<Seq<char>>, t: Seq<char>) -> bool {
    t.len() > 0 && exists|i: int| 0 <= i < roots.len() && t == trim(#[trigger] roots[i])
}

/// Two strictly sorted lists with the same members are equal.
pub proof fn lemma_sorted_unique(a: Seq<Seq<char>>, b: Seq<Seq<char>>)
    requires
        strictly_sorted(a),
        strictly_sorted(b),
        forall|t: Seq<char>| a.contains(t) <==> b.contains(t),
    ensures
        a == b,
    decreases a.len() + b.len(),
{
    if a.len() == 0 && b.len() == 0 {
        assert(a =~= b);
    } else if a.len() == 0 {
        assert(b.contains(b[0]));
    } else if b.len() == 0 {
        assert(a.contains(a[0]));
    } else {
        assert(a.contains(a[0]));
        assert(b.contains(b[0]));
        let j = choose|j: int| 0 <= j < b.len() && b[j] == a[0];
        let i = choose|i: int| 0 <= i < a.len() && a[i] == b[0];
        if a[0] != b[0] {
            if j > 0 {
                assert(str_lt(b[0], b[j]));
                if i > 0 {
                    assert(str_lt(a[0], a[i]));
                    lemma_str_lt_asymmetric(b[0], a[0]);
                }
            } else {
                assert(b[0] == a[0]);
            }
        }
        assert(a[0] == b[0]);
        let a1 = a.drop_first();
        let b1 = b.drop_first();
        assert forall|t: Seq<char>| a1.contains(t) <==> b1.contains(t) by {
            if a1.contains(t) {
                let k = choose|k: int| 0 <= k < a1.len() && a1[k] == t;
                assert(a[k + 1] == t);
                assert(str_lt(a[0], a[k + 1]));
                assert(b.contains(t));
                let m = choose|m: int| 0 <= m < b.len() && b[m] == t;
                if m == 0 {
                    lemma_str_lt_irreflexive(t);
                }
                assert(b1[m - 1] == t);
            }
            if b1.contains(t) {
                let k = choose|k: int| 0 <= k < b1.len() && b1[k] == t;
                assert(b[k + 1] == t);
                assert(str_lt(b[0], b[k + 1]));
                assert(a.contains(t));
                let m = choose|m: int| 0 <= m < a.len() && a[m] == t;
                if m == 0 {
                    lemma_str_lt_irreflexive(t);
                }
                assert(a1[m - 1] == t);
            }
        }
        assert forall|x: int, y: int| 0 <= x < y < a1.len() implies str_lt(#[trigger] a1[x], #[trigger] a1[y]) by {
            assert(a1[x] == a[x + 1] && a1[y] == a[y + 1]);
        }
        assert forall|x: int, y: int| 0 <= x < y < b1.len() implies str_lt(#[trigger] b1[x], #[trigger] b1[y]) by {
            assert(b1[x] == b[x + 1] && b1[y] == b[y + 1]);
        }
        lemma_sorted_unique(a1, b1);
        assert(a =~= seq![a[0]] + a1);
        assert(b =~= seq![b[0]] + b1);
    }
}

/// Normalizing roots twice gives what normalizing once gave: the roots of
/// a normalized list are already trimmed, non-blank, sorted and distinct.
pub proof fn lemma_normalize_roots_idempotent(roots: Seq<Seq<char>>, once: Seq<Seq<char>>, twice: Seq<Seq<char>>)
    requires
        strictly_sorted(once),
        forall|t: Seq<char>| once.contains(t) <==> is_clean_root(roots, t),
        strictly_sorted(twice),
        forall|t: Seq<char>| twice.contains(t) <==> is_clean_root(once, t),
    ensures
        twice == once,
{
    assert forall|t: Seq<char>| twice.contains(t) <==> once.contains(t) by {
        if once.contains(t) {
            assert(is_clean_root(roots, t));
            let k = choose|k: int| 0 <= k < roots.len() && t == trim(#[trigger] roots[k]);
            crate::strs::lemma_trim_idempotent(roots[k]);
            let i = choose|i: int| 0 <= i < once.len() && once[i] == t;
            assert(t == trim(once[i]));
            assert(is_clean_root(once, t));
        }
        if twice.contains(t) {
            assert(is_clean_root(once, t));
            let i = choose|i: int| 0 <= i < once.len() && t == trim(#[trigger] once[i]);
            assert(once.contains(once[i]));
            assert(is_clean_root(roots, once[i]));
            let k = choose|k: int| 0 <= k < roots.len() && once[i] == trim(#[trigger] roots[k]);
            crate::strs::lemma_trim_idempotent(roots[k]);
            assert(t == once[i]);
        }
    }
    lemma_sorted_unique(twice, once);
}

/// Inserts `x` into a strictly sorted list unless it is there already.
pub fn insert_sorted(v: &mut Vec<String>, x: String)
    requires
        strictly_sorted(string_views(old(v)@)),
    ensures
        strictly_sorted(string_views(final(v)@)),
        forall|t: Seq<char>|
            string_views(final(v)@).contains(t) <==> (string_views(old(v)@).contains(t) || t
                == x@),
{
    let ghost old_v = string_views(v@);
    let xc = chars_of(x.as_str());
    let mut pos: usize = 0;
    while pos < v.len() && less_than(chars_of(v[pos].as_str()).as_slice(), xc.as_slice())
        invariant
            pos <= v.len(),
            string_views(v@) == old_v,
            xc@ == x@,
            forall|k: int| 0 <= k < pos ==> str_lt(#[trigger] old_v[k], x@),
        decreases v.len() - pos,
    {
        pos += 1;
    }
    if pos < v.len() {
        let cur = chars_of(v[pos].as_str());
        if eq_chars(cur.as_slice(), xc.as_slice()) {
            assert(old_v.contains(x@)) by {
                assert(old_v[pos as int] == x@);
            }
            return;
        }
        proof {
            lemma_str_lt_total(old_v[pos as int], x@);
        }
    }
    proof {
        assert forall|j: int| pos <= j < old_v.len() implies str_lt(x@, #[trigger] old_v[j]) by {
            if j > pos {
                lemma_str_lt_transitive(x@, old_v[pos as int], old_v[j]);
            }
        }
    }
    v.insert(pos, x);
    proof {
        let nv = string_views(v@);
        assert(nv =~= old_v.insert(pos as int, x@));
        assert forall|i: int, j: int| 0 <= i < j < nv.len() implies str_lt(
            #[trigger] nv[i],
            #[trigger] nv[j],
        ) by {
            if j < pos {
            } else if j == pos {
            } else if i < pos {
                lemma_str_lt_transitive(nv[i], x@, nv[j]);
            } else if i == pos {
            } else {
                assert(nv[i] == old_v[i - 1]);
                assert(nv[j] == old_v[j - 1]);
            }
        }
        assert forall|t: Seq<char>| nv.contains(t) <==> (old_v.contains(t) || t == x@) by {
            if nv.contains(t) {
                let k = choose|k: int| 0 <= k < nv.len() && nv[k] == t;
                if k < pos {
                    assert(old_v[k] == t);
                } else if k > pos {
                    assert(old_v[k - 1] == t);
                }
            }
            if old_v.contains(t) {
                let k = choose|k: int| 0 <= k < old_v.len() && old_v[k] == t;
                if k < pos {
                    assert(nv[k] == t);
                } else {
                    assert(nv[k + 1] == t);
                }
            }
            if t == x@ {
                assert(nv[pos as int] == t);
            }
        }
    }
}

/// Trims each root, drops empty ones, sorts and removes repeats.
pub fn normalize_roots(roots: &Vec<String>) -> (r: Vec<String>)
    ensures
        strictly_sorted(string_views(r@)),
        forall|t: Seq<char>|
            string_views(r@).contains(t) <==> is_clean_root(string_views(roots@), t),
{
    let ghost rs = string_views(roots@);
    let mut out: Vec<String> = Vec::new();
    let mut i: usize = 0;
    while i < roots.len()
        invariant
            i <= roots.len(),
            rs == string_views(roots@),
            strictly_sorted(string_views(out@)),
            forall|t: Seq<char>|
                string_views(out@).contains(t) <==> is_clean_root(rs.take(i as int), t),
        decreases roots.len() - i,
    {
        let c = chars_of(roots[i].as_str());
        let t = trim_chars(c.as_slice());
        let ghost before = string_views(out@);
        if t.len() > 0 {
            insert_sorted(&mut out, string_of(t.as_slice()));
        }
        proof {
            assert forall|u: Seq<char>|
                string_views(out@).contains(u) <==> is_clean_root(
                    rs.take(i + 1),
                    u,
                ) by {
                if is_clean_root(rs.take(i + 1), u) {
                    let k = choose|k: int| 0 <= k < i + 1 && u == trim(#[trigger] rs.take(i + 1)[k]);
                    if k < i {
                        assert(rs.take(i as int)[k] == rs.take(i + 1)[k]);
                        assert(is_clean_root(rs.take(i as int), u));
                    }
                }
                if is_clean_root(rs.take(i as int), u) {
                    let k = choose|k: int| 0 <= k < i && u == trim(#[trigger] rs.take(i as int)[k]);
                    assert(rs.take(i + 1)[k] == rs.take(i as int)[k]);
                }
                if u == t@ && t@.len() > 0 {
                    assert(rs.take(i + 1)[i as int] == rs[i as int]);
                }
            }
        }
        i += 1;
    }
    assert(rs.take(roots.len() as int) =~= rs);
    out
}

/// The reader's persisted settings.
#[derive(Debug, Clone)]
pub struct Settings {
    pub reader_mode: ReaderMode,
    pub reader_text_mode: ReaderTextMode,
    pub reader_trim_headers_footers: bool,
    pub kitty_image_quality: KittyImageQuality,
    pub scan_scope: ScanScope,
    pub library_roots: Vec<String>,
}

impl Settings {
    /// Text mode, reflowed text with headers and footers trimmed, balanced
    /// kitty quality, recursive scans and no roots.
    pub fn default_settings() -> (s: Settings)
        ensures
            s.reader_mode == ReaderMode::Text,
            s.reader_text_mode == ReaderTextMode::Reflow,
            s.reader_trim_headers_footers,
            s.kitty_image_quality == KittyImageQuality::Balanced,
            s.scan_scope == ScanScope::Recursive,
            s.library_roots@.len() == 0,
    {
        Settings {
            reader_mode: ReaderMode::Text,
            reader_text_mode: ReaderTextMode::Reflow,
            reader_trim_headers_footers: true,
            kitty_image_quality: KittyImageQuality::Balanced,
            scan_scope: ScanScope::Recursive,
            library_roots: Vec::new(),
        }
    }

    /// Trims the library roots, drops empty ones, sorts them and removes
    /// repeats; every other field is kept.
    pub fn normalize(&mut self)
        ensures
            strictly_sorted(string_views(final(self).library_roots@)),
            forall|t: Seq<char>|
                string_views(final(self).library_roots@).contains(t) <==> is_clean_root(
                    string_views(old(self).library_roots@),
                    t,
                ),
            final(self).reader_mode == old(self).reader_mode,
            final(self).reader_text_mode == old(self).reader_text_mode,
            final(self).reader_trim_headers_footers == old(self).reader_trim_headers_footers,
            final(self).kitty_image_quality == old(self).kitty_image_quality,
            final(self).scan_scope == old(self).scan_scope,
    {
        let roots = normalize_roots(&self.library_roots);
        self.library_roots = roots;
    }

    /// Switches between text and image mode.
    pub fn cycle_reader_mode(&mut self)
        ensures
            final(self).reader_mode == old(self).reader_mode.toggled(),
            final(self).reader_text_mode == old(self).reader_text_mode,
            final(self).reader_trim_headers_footers == old(self).reader_trim_headers_footers,
            final(self).kitty_image_quality == old(self).kitty_image_quality,
            final(self).scan_scope == old(self).scan_scope,
            final(self).library_roots == old(self).library_roots,
    {
        self.reader_mode = match self.reader_mode {
            ReaderMode::Text => ReaderMode::Image,
            ReaderMode::Image => ReaderMode::Text,
        };
    }

    /// `raw -> wrap -> reflow -> raw`.
    pub fn cycle_reader_text_mode(&mut self)
        ensures
            final(self).reader_text_mode == old(self).reader_text_mode.following(),
            final(self).reader_mode == old(self).reader_mode,
            final(self).reader_trim_headers_footers == old(self).reader_trim_headers_footers,
            final(self).kitty_image_quality == old(self).kitty_image_quality,
            final(self).scan_scope == old(self).scan_scope,
            final(self).library_roots == old(self).library_roots,
    {
        self.reader_text_mode = self.reader_text_mode.next();
    }

    pub fn cycle_kitty_image_quality_next(&mut self)
        ensures
            final(self).kitty_image_quality == old(self).kitty_image_quality.following(),
            final(self).reader_mode == old(self).reader_mode,
            final(self).reader_text_mode == old(self).reader_text_mode,
            final(self).reader_trim_headers_footers == old(self).reader_trim_headers_footers,
            final(self).scan_scope == old(self).scan_scope,
            final(self).library_roots == old(self).library_roots,
    {
        self.kitty_image_quality = self.kitty_image_quality.next();
    }

    pub fn cycle_kitty_image_quality_prev(&mut self)
        ensures
            final(self).kitty_image_quality == old(self).kitty_image_quality.preceding(),
            final(self).reader_mode == old(self).reader_mode,
            final(self).reader_text_mode == old(self).reader_text_mode,
            final(self).reader_trim_headers_footers == old(self).reader_trim_headers_footers,
            final(self).scan_scope == old(self).scan_scope,
            final(self).library_roots == old(self).library_roots,
    {
        self.kitty_image_quality = self.kitty_image_quality.prev();
    }

    /// Switches between direct and recursive scans.
    pub fn cycle_scan_scope(&mut self)
        ensures
            final(self).scan_scope == old(self).scan_scope.toggled(),
            final(self).reader_mode == old(self).reader_mode,
            final(self).reader_text_mode == old(self).reader_text_mode,
            final(self).reader_trim_headers_footers == old(self).reader_trim_headers_footers,
            final(self).kitty_image_quality == old(self).kitty_image_quality,
            final(self).library_roots == old(self).library_roots,
    {
        self.scan_scope = match self.scan_scope {
            ScanScope::Direct => ScanScope::Recursive,
            ScanScope::Recursive => ScanScope::Direct,
        };
    }
}

impl Default for Settings {
    fn default() -> (s: Settings)
        ensures
            s.reader_mode == ReaderMode::Text,
            s.reader_text_mode == ReaderTextMode::Reflow,
            s.reader_trim_headers_footers,
            s.kitty_image_quality == KittyImageQuality::Balanced,
            s.scan_scope == ScanScope::Recursive,
            s.library_roots@.len() == 0,
    {
        Settings::default_settings()
    }
}

/// Settings as the test fixtures build them: text mode, reflowed text with
/// trimming, balanced quality, recursive scans and no roots.
pub fn make_settings() -> (s: Settings)
    ensures
        s.reader_mode == ReaderMode::Text,
        s.reader_text_mode == ReaderTextMode::Reflow,
        s.reader_trim_headers_footers,
        s.kitty_image_quality == KittyImageQuality::Balanced,
        s.scan_scope == ScanScope::Recursive,
        s.library_roots@.len() == 0,
{
    Settings {
        reader_mode: ReaderMode::Text,
        reader_text_mode: ReaderTextMode::Reflow,
        reader_trim_headers_footers: true,
        kitty_image_quality: KittyImageQuality::Balanced,
        scan_scope: ScanScope::Recursive,
        library_roots: Vec::new(),
    }
}

} // verus!
