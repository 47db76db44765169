//! The table of contents of a book, from its outline.

use vstd::prelude::*;
use crate::model::TocItem;
use crate::strs::{chars_of, string_of};

verus! {

/// A page object of a PDF: object number and generation.
#[derive(Debug, Clone, Copy, PartialEq, Eq, Structural)]
pub struct PageRef {
    pub id: u64,
    pub gen: u64,
}

/// Where an outline entry points, as far as the reader follows it.
#[derive(Debug, Clone)]
pub enum OutlineTarget {
    /// A named destination.
    Named(String),
    /// A page object.
    Page(PageRef),
    /// Anything else.
    Other,
}

/// An outline entry as read from the file: its title (already decoded), its
/// destination, the destination of its go-to action, and its children.
#[derive(Debug)]
pub struct OutlineEntry {
    pub title: Option<String>,
    pub dest: OutlineTarget,
    pub action: OutlineTarget,
    pub children: Vec<OutlineEntry>,
}

/// The pages of a book in page-tree order, and its named destinations.
pub struct PageIndex {
    pub pages: Vec<PageRef>,
    pub named: Vec<(String, PageRef)>,
}

/// The last position of `r` among the first `n` pages.
pub open spec fn last_position(pages: Seq<PageRef>, r: PageRef, n: nat) -> Option<int>
    decreases n,
{
    if n == 0 {
        None
    } else if pages[n - 1] == r {
        Some(n - 1)
    } else {
        last_position(pages, r, (n - 1) as nat)
    }
}

/// The 1-based page number of a page object: its (last) position in the
/// page tree plus one, when that position fits in a `u32`.
pub open spec fn page_of_ref(pages: Seq<PageRef>, r: PageRef) -> Option<u32> {
    match last_position(pages, r, pages.len()) {
        Some(i) => if i <= u32::MAX {
            Some(if i == u32::MAX { u32::MAX } else { (i + 1) as u32 })
        } else {
            None
        },
        None => None,
    }
}

/// The page object of a named destination (the last one of that name).
pub open spec fn named_ref(named: Seq<(String, PageRef)>, name: Seq<char>, n: nat) -> Option<PageRef>
    decreases n,
{
    if n == 0 {
        None
    } else if named[n - 1].0@ == name {
        Some(named[n - 1].1)
    } else {
        named_ref(named, name, (n - 1) as nat)
    }
}

pub open spec fn page_of_target(idx: PageIndex, t: OutlineTarget) -> Option<u32> {
    match t {
        OutlineTarget::Named(s) => match named_ref(idx.named@, s@, idx.named@.len()) {
            Some(r) => page_of_ref(idx.pages@, r),
            None => None,
        },
        OutlineTarget::Page(r) => page_of_ref(idx.pages@, r),
        OutlineTarget::Other => None,
    }
}

/// The page of an entry: that of its destination, else that of its action.
pub open spec fn entry_page(idx: PageIndex, e: OutlineEntry) -> Option<u32> {
    match page_of_target(idx, e.dest) {
        Some(p) => Some(p),
        None => page_of_target(idx, e.action),
    }
}

pub open spec fn entry_title(e: OutlineEntry) -> Seq<char> {
    match e.title {
        Some(t) => t@,
        None => "(untitled)"@,
    }
}

pub open spec fn deeper(depth: usize) -> usize {
    if depth == usize::MAX {
        depth
    } else {
        (depth + 1) as usize
    }
}

/// An outline entry as title, page and depth.
pub type TocView = (Seq<char>, Option<u32>, usize);

/// The entries of `es` and below, depth first, at `depth` and deeper.
pub open spec fn flatten_list(idx: PageIndex, es: Seq<OutlineEntry>, depth: usize) -> Seq<TocView>
    decreases es, 0int,
{
    if es.len() == 0 {
        seq![]
    } else {
        flatten_entry(idx, es[0], depth) + flatten_list(idx, es.subrange(1, es.len() as int), depth)
    }
}

/// An entry, then its children one level deeper.
pub open spec fn flatten_entry(idx: PageIndex, e: OutlineEntry, depth: usize) -> Seq<TocView>
    decreases e, 1int,
{
    seq![(entry_title(e), entry_page(idx, e), depth)] + flatten_list(idx, e.children@, deeper(depth))
}

pub open spec fn toc_views(items: Seq<TocItem>) -> Seq<TocView> {
    items.map_values(|t: TocItem| (t.title@, t.page, t.depth))
}

fn page_number(idx: &PageIndex, r: PageRef) -> (p: Option<u32>)
    ensures
        p == page_of_ref(idx.pages@, r),
{
    let mut i = idx.pages.len();
    while i > 0
        invariant
            i <= idx.pages@.len(),
            last_position(idx.pages@, r, idx.pages@.len()) == last_position(idx.pages@, r, i as nat),
        decreases i,
    {
        if idx.pages[i - 1] == r {
            let k = i - 1;
            if k > 0xffff_ffff {
                return None;
            }
            return Some(if k == 0xffff_ffff { u32::MAX } else { (k + 1) as u32 });
        }
        i -= 1;
    }
    None
}

fn target_page(idx: &PageIndex, t: &OutlineTarget) -> (p: Option<u32>)
    ensures
        p == page_of_target(*idx, *t),
{
    match t {
        OutlineTarget::Named(s) => {
            let mut i = idx.named.len();
            while i > 0
                invariant
                    i <= idx.named@.len(),
                    *t == OutlineTarget::Named(*s),
                    named_ref(idx.named@, s@, idx.named@.len()) == named_ref(idx.named@, s@, i as nat),
                decreases i,
            {
                if idx.named[i - 1].0 == *s {
                    return page_number(idx, idx.named[i - 1].1);
                }
                i -= 1;
            }
            None
        },
        OutlineTarget::Page(r) => page_number(idx, *r),
        OutlineTarget::Other => None,
    }
}

fn push_entries(idx: &PageIndex, es: &Vec<OutlineEntry>, depth: usize, out: &mut Vec<TocItem>)
    ensures
        toc_views(final(out)@) == toc_views(old(out)@) + flatten_list(*idx, es@, depth),
    decreases es@,
{
    let ghost start = toc_views(out@);
    let mut i: usize = 0;
    while i < es.len()
        invariant
            i <= es@.len(),
            toc_views(out@) == start + flatten_list(*idx, es@.subrange(0, i as int), depth),
        decreases es.len() - i,
    {
        let e = &es[i];
        let title = match &e.title {
            Some(t) => t.clone(),
            None => string_of(chars_of("(untitled)").as_slice()),
        };
        let page = match target_page(idx, &e.dest) {
            Some(p) => Some(p),
            None => target_page(idx, &e.action),
        };
        let ghost before = out@;
        out.push(TocItem { title, page, depth });
        assert(toc_views(out@) =~= toc_views(before).push((entry_title(*e), entry_page(*idx, *e), depth)));
        let d = if depth == usize::MAX {
            depth
        } else {
            depth + 1
        };
        assert(decreases_to!(es@ => es@[i as int]));
        push_entries(idx, &e.children, d, out);
        proof {
            lemma_flatten_split(*idx, es@, i as int, depth);
        }
        i += 1;
    }
    assert(es@.subrange(0, es@.len() as int) =~= es@);
}

proof fn lemma_flatten_split(idx: PageIndex, es: Seq<OutlineEntry>, i: int, depth: usize)
    requires
        0 <= i < es.len(),
    ensures
        flatten_list(idx, es.subrange(0, i + 1), depth) == flatten_list(idx, es.subrange(0, i), depth)
            + flatten_entry(idx, es[i], depth),
    decreases i,
{
    let a = es.subrange(0, i + 1);
    if i == 0 {
        assert(a.subrange(1, a.len() as int) =~= Seq::<OutlineEntry>::empty());
        assert(es.subrange(0, 0) =~= Seq::<OutlineEntry>::empty());
    } else {
        let t = es.subrange(1, es.len() as int);
        lemma_flatten_split(idx, t, i - 1, depth);
        assert(a.subrange(1, a.len() as int) =~= t.subrange(0, i));
        assert(es.subrange(0, i).subrange(1, i) =~= t.subrange(0, i - 1));
        assert(a[0] == es[0]);
        assert(es.subrange(0, i)[0] == es[0]);
        assert(t[i - 1] == es[i]);
    }
}

/// The table of contents of an outline: every entry depth first, the top
/// level at depth 0, each titled (`(untitled)` when it has none) and given
/// the page its destination or action leads to.
pub fn toc_items(idx: &PageIndex, outline: &Vec<OutlineEntry>) -> (r: Vec<TocItem>)
    ensures
        toc_views(r@) == flatten_list(*idx, outline@, 0),
{
    let mut out: Vec<TocItem> = Vec::new();
    push_entries(idx, outline, 0, &mut out);
    assert(toc_views(out@) =~= flatten_list(*idx, outline@, 0));
    out
}

} // verus!
