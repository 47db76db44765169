//! Bookmarks and notes kept in order of page, then text.

use vstd::prelude::*;
use crate::model::{Bookmark, Note};
use crate::settings::{
    less_than, lemma_str_lt_asymmetric, lemma_str_lt_total, lemma_str_lt_transitive, str_lt,
};
use crate::strs::chars_of;

verus! {

/// A bookmark or note as its page and text.
pub type Mark = (u32, Seq<char>);

/// Whether `a` sorts after `b`: a later page, or the same page and a text
/// that is greater.
pub open spec fn mark_gt(a: Mark, b: Mark) -> bool {
    a.0 > b.0 || (a.0 == b.0 && str_lt(b.1, a.1))
}

/// Where `x` goes in a sorted list: before the first entry that sorts after
/// it, so that equal entries keep their order.
pub open spec fn insert_pos(s: Seq<Mark>, x: Mark) -> int
    decreases s.len(),
{
    if s.len() == 0 {
        0
    } else if mark_gt(s[0], x) {
        0
    } else {
        1 + insert_pos(s.drop_first(), x)
    }
}

/// `s` in order of page, then text, equal entries in their original order
/// (what a stable sort by the key `(page, text)` gives).
pub open spec fn sorted_marks(s: Seq<Mark>) -> Seq<Mark>
    decreases s.len(),
{
    if s.len() == 0 {
        s
    } else {
        let t = sorted_marks(s.drop_last());
        t.insert(insert_pos(t, s.last()), s.last())
    }
}

pub open spec fn bookmark_marks(s: Seq<Bookmark>) -> Seq<Mark> {
    s.map_values(|b: Bookmark| (b.page, b.label@))
}

pub open spec fn note_marks(s: Seq<Note>) -> Seq<Mark> {
    s.map_values(|n: Note| (n.page, n.body@))
}

proof fn lemma_insert_pos_bounds(s: Seq<Mark>, x: Mark)
    ensures
        0 <= insert_pos(s, x) <= s.len(),
    decreases s.len(),
{
    if s.len() > 0 {
        lemma_insert_pos_bounds(s.drop_first(), x);
    }
}

proof fn lemma_insert_pos_scan(s: Seq<Mark>, x: Mark, i: int)
    requires
        0 <= i <= s.len(),
        forall|j: int| 0 <= j < i ==> !mark_gt(#[trigger] s[j], x),
        i < s.len() ==> mark_gt(s[i], x),
    ensures
        insert_pos(s, x) == i,
    decreases i,
{
    if i > 0 {
        let t = s.drop_first();
        assert forall|j: int| 0 <= j < i - 1 implies !mark_gt(#[trigger] t[j], x) by {
            assert(t[j] == s[j + 1]);
        }
        lemma_insert_pos_scan(t, x, i - 1);
        assert(!mark_gt(s[0], x));
    }
}

proof fn lemma_sorted_len(s: Seq<Mark>)
    ensures
        sorted_marks(s).len() == s.len(),
    decreases s.len(),
{
    if s.len() > 0 {
        lemma_sorted_len(s.drop_last());
        lemma_insert_pos_bounds(sorted_marks(s.drop_last()), s.last());
    }
}

fn mark_gt_exec(a_page: u32, a_text: &String, b_page: u32, b_text: &String) -> (r: bool)
    ensures
        r == mark_gt((a_page, a_text@), (b_page, b_text@)),
{
    if a_page > b_page {
        true
    } else if a_page == b_page {
        let a = chars_of(a_text.as_str());
        let b = chars_of(b_text.as_str());
        less_than(b.as_slice(), a.as_slice())
    } else {
        false
    }
}

/// `sort_by_key(|b| (b.page, b.label.clone()))`: stable, by page then label.
pub fn sort_bookmarks(v: Vec<Bookmark>) -> (r: Vec<Bookmark>)
    ensures
        bookmark_marks(r@) == sorted_marks(bookmark_marks(v@)),
{
    let ghost orig = bookmark_marks(v@);
    let mut rest = v;
    let mut out: Vec<Bookmark> = Vec::new();
    let ghost mut k: int = 0;
    while rest.len() > 0
        invariant
            0 <= k <= orig.len(),
            bookmark_marks(rest@) == orig.skip(k),
            bookmark_marks(out@) == sorted_marks(orig.take(k)),
        decreases rest.len(),
    {
        let ghost before = rest@;
        let x = rest.remove(0);
        let ghost xm = (x.page, x.label@);
        proof {
            assert(x == before[0]);
            assert(bookmark_marks(before)[0] == (before[0].page, before[0].label@));
            assert(before.len() > 0);
            assert(orig.skip(k).len() == before.len());
            assert(k < orig.len());
            assert(orig.skip(k)[0] == orig[k]);
            assert(orig[k] == xm);
            assert forall|j: int| 0 <= j < rest@.len() implies #[trigger] bookmark_marks(rest@)[j] == orig.skip(k + 1)[j] by {
                assert(rest@[j] == before[j + 1]);
                assert(orig.skip(k + 1)[j] == orig[k + 1 + j]);
                assert(orig.skip(k)[j + 1] == orig[k + 1 + j]);
                assert(bookmark_marks(before)[j + 1] == orig.skip(k)[j + 1]);
            }
            assert(bookmark_marks(rest@) =~= orig.skip(k + 1));
        }
        let ghost om = bookmark_marks(out@);
        let mut i: usize = 0;
        while i < out.len()
            invariant
                i <= out@.len(),
                om == bookmark_marks(out@),
                forall|j: int| 0 <= j < i ==> !mark_gt(#[trigger] om[j], xm),
                xm == (x.page, x.label@),
            ensures
                i <= out@.len(),
                forall|j: int| 0 <= j < i ==> !mark_gt(#[trigger] om[j], xm),
                i < out@.len() ==> mark_gt(om[i as int], xm),
            decreases out.len() - i,
        {
            if mark_gt_exec(out[i].page, &out[i].label, x.page, &x.label) {
                break;
            }
            assert(!mark_gt(om[i as int], xm));
            i += 1;
        }
        proof {
            lemma_insert_pos_scan(om, xm, i as int);
            assert(orig.take(k + 1).drop_last() =~= orig.take(k));
        }
        out.insert(i, x);
        proof {
            assert(bookmark_marks(out@) =~= om.insert(i as int, xm));
            k = k + 1;
        }
    }
    assert(orig.take(k) =~= orig);
    out
}

/// `sort_by_key(|n| (n.page, n.body.clone()))`: stable, by page then body.
pub fn sort_notes(v: Vec<Note>) -> (r: Vec<Note>)
    ensures
        note_marks(r@) == sorted_marks(note_marks(v@)),
{
    let ghost orig = note_marks(v@);
    let mut rest = v;
    let mut out: Vec<Note> = Vec::new();
    let ghost mut k: int = 0;
    while rest.len() > 0
        invariant
            0 <= k <= orig.len(),
            note_marks(rest@) == orig.skip(k),
            note_marks(out@) == sorted_marks(orig.take(k)),
        decreases rest.len(),
    {
        let ghost before = rest@;
        let x = rest.remove(0);
        let ghost xm = (x.page, x.body@);
        proof {
            assert(x == before[0]);
            assert(note_marks(before)[0] == (before[0].page, before[0].body@));
            assert(before.len() > 0);
            assert(orig.skip(k).len() == before.len());
            assert(k < orig.len());
            assert(orig.skip(k)[0] == orig[k]);
            assert(orig[k] == xm);
            assert forall|j: int| 0 <= j < rest@.len() implies #[trigger] note_marks(rest@)[j] == orig.skip(k + 1)[j] by {
                assert(rest@[j] == before[j + 1]);
                assert(orig.skip(k + 1)[j] == orig[k + 1 + j]);
                assert(orig.skip(k)[j + 1] == orig[k + 1 + j]);
                assert(note_marks(before)[j + 1] == orig.skip(k)[j + 1]);
            }
            assert(note_marks(rest@) =~= orig.skip(k + 1));
        }
        let ghost om = note_marks(out@);
        let mut i: usize = 0;
        while i < out.len()
            invariant
                i <= out@.len(),
                om == note_marks(out@),
                forall|j: int| 0 <= j < i ==> !mark_gt(#[trigger] om[j], xm),
                xm == (x.page, x.body@),
            ensures
                i <= out@.len(),
                forall|j: int| 0 <= j < i ==> !mark_gt(#[trigger] om[j], xm),
                i < out@.len() ==> mark_gt(om[i as int], xm),
            decreases out.len() - i,
        {
            if mark_gt_exec(out[i].page, &out[i].body, x.page, &x.body) {
                break;
            }
            assert(!mark_gt(om[i as int], xm));
            i += 1;
        }
        proof {
            lemma_insert_pos_scan(om, xm, i as int);
            assert(orig.take(k + 1).drop_last() =~= orig.take(k));
        }
        out.insert(i, x);
        proof {
            assert(note_marks(out@) =~= om.insert(i as int, xm));
            k = k + 1;
        }
    }
    assert(orig.take(k) =~= orig);
    out
}

proof fn lemma_mark_gt_transitive(a: Mark, b: Mark, c: Mark)
    requires
        mark_gt(a, b),
        mark_gt(b, c),
    ensures
        mark_gt(a, c),
{
    if a.0 == b.0 && b.0 == c.0 {
        lemma_str_lt_transitive(c.1, b.1, a.1);
    }
}

proof fn lemma_mark_gt_asymmetric(a: Mark, b: Mark)
    requires
        mark_gt(a, b),
    ensures
        !mark_gt(b, a),
{
    if a.0 == b.0 {
        lemma_str_lt_asymmetric(b.1, a.1);
    }
}

proof fn lemma_mark_total(a: Mark, b: Mark)
    requires
        a != b,
    ensures
        mark_gt(a, b) || mark_gt(b, a),
{
    if a.0 == b.0 {
        if a.1 == b.1 {
            assert(a == b);
        }
        lemma_str_lt_total(a.1, b.1);
    }
}

/// In order of page, then text.
pub open spec fn marks_sorted(s: Seq<Mark>) -> bool {
    forall|i: int, j: int| 0 <= i < j < s.len() ==> !mark_gt(#[trigger] s[i], #[trigger] s[j])
}

proof fn lemma_insert_pos_props(s: Seq<Mark>, x: Mark)
    ensures
        0 <= insert_pos(s, x) <= s.len(),
        forall|j: int| 0 <= j < insert_pos(s, x) ==> !mark_gt(#[trigger] s[j], x),
        insert_pos(s, x) < s.len() ==> mark_gt(s[insert_pos(s, x)], x),
    decreases s.len(),
{
    if s.len() > 0 && !mark_gt(s[0], x) {
        let t = s.drop_first();
        lemma_insert_pos_props(t, x);
        assert forall|j: int| 0 <= j < insert_pos(s, x) implies !mark_gt(#[trigger] s[j], x) by {
            if j > 0 {
                assert(s[j] == t[j - 1]);
            }
        }
    }
}

/// The order bookmarks and notes are kept in: `sorted_marks` puts them in
/// order of page, then text, and keeps each exactly as often as it was there.
pub proof fn lemma_sorted_marks(s: Seq<Mark>)
    ensures
        marks_sorted(sorted_marks(s)),
        sorted_marks(s).to_multiset() == s.to_multiset(),
    decreases s.len(),
{
    broadcast use vstd::seq_lib::group_to_multiset_ensures;

    if s.len() == 0 {
        assert(sorted_marks(s) == s);
    } else {
        let t = sorted_marks(s.drop_last());
        let x = s.last();
        lemma_sorted_marks(s.drop_last());
        lemma_insert_pos_props(t, x);
        let p = insert_pos(t, x);
        let r = t.insert(p, x);
        assert(r == sorted_marks(s));
        assert forall|i: int, j: int| 0 <= i < j < r.len() implies !mark_gt(#[trigger] r[i], #[trigger] r[j]) by {
            if j < p {
                assert(r[i] == t[i] && r[j] == t[j]);
            } else if i > p {
                assert(r[i] == t[i - 1] && r[j] == t[j - 1]);
            } else if j == p {
                assert(r[i] == t[i] && r[j] == x);
            } else if i == p {
                assert(r[i] == x && r[j] == t[j - 1]);
                assert(!mark_gt(t[p], t[j - 1]) || p == j - 1);
                if mark_gt(x, t[j - 1]) {
                    lemma_mark_gt_asymmetric(t[p], x);
                    if t[p] != t[j - 1] {
                        lemma_mark_total(t[p], t[j - 1]);
                        lemma_mark_gt_transitive(x, t[j - 1], t[p]);
                    }
                }
            } else {
                assert(r[i] == t[i] && r[j] == t[j - 1]);
            }
        }
        vstd::seq_lib::to_multiset_insert(t, p, x);
        vstd::seq_lib::to_multiset_build(s.drop_last(), x);
        assert(s.drop_last().push(x) =~= s);
    }
}

/// A list with `m` added in order, unless it holds `m` already.
pub open spec fn with_mark(l: Seq<Mark>, m: Mark) -> Seq<Mark> {
    if l.contains(m) {
        l
    } else {
        sorted_marks(l.push(m))
    }
}

/// Adding a mark holds it afterwards, and adding it again changes nothing.
pub proof fn lemma_with_mark_idempotent(l: Seq<Mark>, m: Mark)
    ensures
        with_mark(l, m).contains(m),
        with_mark(with_mark(l, m), m) == with_mark(l, m),
{
    broadcast use vstd::seq_lib::group_to_multiset_ensures;

    if !l.contains(m) {
        lemma_sorted_marks(l.push(m));
        assert(l.push(m).contains(m)) by {
            assert(l.push(m)[l.len() as int] == m);
        }
        assert(l.push(m).to_multiset().count(m) > 0);
        assert(sorted_marks(l.push(m)).to_multiset().count(m) > 0);
    }
}

} // verus!
