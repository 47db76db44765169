//! The text of the interface's titles and list lines: the library and search
//! titles, the go-to box title, bookmark and note lines, and the outline
//! panel's title and entries.

use vstd::prelude::*;
use crate::model::{Bookmark, Note, TocItem};
use crate::num::{decimal, decimal_string};
use crate::settings::string_views;
use crate::strs::{chars_of, extend_chars, string_of, trim, trim_chars};
use crate::ui::{lemma_toc_listed_bounds, open_bookmarks, open_notes, toc_listed, UiState};

verus! {

broadcast use vstd::seq_lib::group_seq_properties;

fn push_str(v: &mut Vec<char>, s: &str)
    ensures
        final(v)@ == old(v)@ + s@,
{
    extend_chars(v, chars_of(s).as_slice());
}

fn push_number(v: &mut Vec<char>, n: u64)
    ensures
        final(v)@ == old(v)@ + decimal(n as nat),
{
    let d = decimal_string(n);
    extend_chars(v, chars_of(d.as_str()).as_slice());
}

/// A bookmark or note line: `Page <n>`, followed by ` — <text>` when the
/// text is not blank (surrounding white space dropped).
pub open spec fn mark_line(page: u32, text: Seq<char>) -> Seq<char> {
    if trim(text).len() == 0 {
        "Page "@ + decimal(page as nat)
    } else {
        "Page "@ + decimal(page as nat) + " \u{2014} "@ + trim(text)
    }
}

pub fn mark_line_text(page: u32, text: &str) -> (s: String)
    ensures
        s@ == mark_line(page, text@),
{
    let t = trim_chars(chars_of(text).as_slice());
    let mut v = chars_of("Page ");
    push_number(&mut v, page as u64);
    if t.len() > 0 {
        push_str(&mut v, " \u{2014} ");
        extend_chars(&mut v, t.as_slice());
    }
    string_of(v.as_slice())
}

/// Two spaces per level of depth, at most twelve levels.
pub open spec fn indent(depth: nat) -> Seq<char>
    decreases depth,
{
    if depth == 0 || depth > 12 {
        if depth > 12 {
            indent(12)
        } else {
            seq![]
        }
    } else {
        indent((depth - 1) as nat) + "  "@
    }
}

/// An outline entry: indented by its depth, its title, then `[p<n>]` for
/// the page it leads to, or `[-]`.
pub open spec fn toc_line(item: TocItem) -> Seq<char> {
    indent(item.depth as nat) + item.title@ + "  ["@ + match item.page {
        Some(p) => "p"@ + decimal(p as nat),
        None => "-"@,
    } + "]"@
}

pub fn toc_line_text(item: &TocItem) -> (s: String)
    ensures
        s@ == toc_line(*item),
{
    let levels: usize = if item.depth > 12 {
        12
    } else {
        item.depth
    };
    let mut v: Vec<char> = Vec::new();
    let mut i: usize = 0;
    while i < levels
        invariant
            i <= levels <= 12,
            levels == (if item.depth > 12 { 12 } else { item.depth }),
            v@ == indent(i as nat),
        decreases levels - i,
    {
        push_str(&mut v, "  ");
        i += 1;
    }
    assert(v@ == indent(item.depth as nat));
    push_str(&mut v, item.title.as_str());
    push_str(&mut v, "  [");
    match item.page {
        Some(p) => {
            push_str(&mut v, "p");
            push_number(&mut v, p as u64);
        },
        None => {
            push_str(&mut v, "-");
        },
    }
    push_str(&mut v, "]");
    assert(v@ =~= toc_line(*item));
    string_of(v.as_slice())
}

/// The outline panel's title: says so on an error, else gives the number of
/// entries, or how many of them the filter shows.
pub open spec fn toc_title(error: bool, query: Seq<char>, shown: nat, total: nat) -> Seq<char> {
    if error {
        "Table of Contents (error)"@
    } else if trim(query).len() == 0 {
        "Table of Contents \u{2014} "@ + decimal(total)
    } else {
        "Table of Contents \u{2014} "@ + decimal(shown) + "/"@ + decimal(total)
    }
}

/// The library list's title: with a search query, how many books match.
pub open spec fn library_title(query: Seq<char>, shown: nat, total: nat) -> Seq<char> {
    if trim(query).len() == 0 {
        "Library"@
    } else {
        "Library \u{2014} "@ + decimal(shown) + "/"@ + decimal(total) + " matches"@
    }
}

/// The search box's title: with a query, how many books match.
pub open spec fn search_title(query: Seq<char>, shown: nat, total: nat) -> Seq<char> {
    if trim(query).len() == 0 {
        "Search"@
    } else {
        "Search \u{2014} "@ + decimal(shown) + "/"@ + decimal(total)
    }
}

/// The go-to box's title, with the range of pages when the count is known.
pub open spec fn goto_title(total: Option<u32>) -> Seq<char> {
    match total {
        Some(t) => "Go to page (1..="@ + decimal(t as nat) + ")"@,
        None => "Go to page"@,
    }
}

/// `<prefix><shown>/<total><suffix>`.
fn count_text(prefix: &str, shown: usize, total: usize, suffix: &str) -> (s: String)
    ensures
        s@ == prefix@ + decimal(shown as nat) + "/"@ + decimal(total as nat) + suffix@,
{
    let mut v = chars_of(prefix);
    push_number(&mut v, shown as u64);
    push_str(&mut v, "/");
    push_number(&mut v, total as u64);
    push_str(&mut v, suffix);
    proof {
        reveal_strlit("/");
    }
    string_of(v.as_slice())
}

fn is_blank_query(q: &String) -> (b: bool)
    ensures
        b == (trim(q@).len() == 0),
{
    trim_chars(chars_of(q.as_str()).as_slice()).len() == 0
}

impl<T, P> UiState<T, P> {
    /// The lines of the open book's bookmark list (see `mark_line`).
    pub fn bookmark_lines(&self) -> (r: Vec<String>)
        ensures
            string_views(r@) == open_bookmarks(self.ctx, self.reader.book_path).map_values(
                |b: Bookmark| mark_line(b.page, b.label@),
            ),
    {
        let mut out: Vec<String> = Vec::new();
        let ghost marks = open_bookmarks(self.ctx, self.reader.book_path);
        let list: &Vec<Bookmark> = match &self.reader.book_path {
            Some(p) => match self.ctx.bookmarks_by_path.get(p) {
                Some(v) => v,
                None => {
                    assert(string_views(out@) =~= marks.map_values(|b: Bookmark| mark_line(b.page, b.label@)));
                    return out;
                },
            },
            None => {
                assert(string_views(out@) =~= marks.map_values(|b: Bookmark| mark_line(b.page, b.label@)));
                return out;
            },
        };
        assert(list@ == marks);
        let mut i: usize = 0;
        while i < list.len()
            invariant
                i <= list@.len(),
                list@ == marks,
                string_views(out@) == marks.take(i as int).map_values(|b: Bookmark| mark_line(b.page, b.label@)),
            decreases list.len() - i,
        {
            let line = mark_line_text(list[i].page, list[i].label.as_str());
            let ghost before = string_views(out@);
            out.push(line);
            assert(string_views(out@) =~= before.push(line@));
            assert(marks.take(i + 1).map_values(|b: Bookmark| mark_line(b.page, b.label@)) =~= marks.take(
                i as int,
            ).map_values(|b: Bookmark| mark_line(b.page, b.label@)).push(line@));
            i += 1;
        }
        assert(marks.take(i as int) =~= marks);
        out
    }

    /// The lines of the open book's note list (see `mark_line`).
    pub fn note_lines(&self) -> (r: Vec<String>)
        ensures
            string_views(r@) == open_notes(self.ctx, self.reader.book_path).map_values(
                |n: Note| mark_line(n.page, n.body@),
            ),
    {
        let mut out: Vec<String> = Vec::new();
        let ghost notes = open_notes(self.ctx, self.reader.book_path);
        let list: &Vec<Note> = match &self.reader.book_path {
            Some(p) => match self.ctx.notes_by_path.get(p) {
                Some(v) => v,
                None => {
                    assert(string_views(out@) =~= notes.map_values(|n: Note| mark_line(n.page, n.body@)));
                    return out;
                },
            },
            None => {
                assert(string_views(out@) =~= notes.map_values(|n: Note| mark_line(n.page, n.body@)));
                return out;
            },
        };
        assert(list@ == notes);
        let mut i: usize = 0;
        while i < list.len()
            invariant
                i <= list@.len(),
                list@ == notes,
                string_views(out@) == notes.take(i as int).map_values(|n: Note| mark_line(n.page, n.body@)),
            decreases list.len() - i,
        {
            let line = mark_line_text(list[i].page, list[i].body.as_str());
            let ghost before = string_views(out@);
            out.push(line);
            assert(string_views(out@) =~= before.push(line@));
            assert(notes.take(i + 1).map_values(|n: Note| mark_line(n.page, n.body@)) =~= notes.take(
                i as int,
            ).map_values(|n: Note| mark_line(n.page, n.body@)).push(line@));
            i += 1;
        }
        assert(notes.take(i as int) =~= notes);
        out
    }

    /// The lines of the outline entries the filter shows (see `toc_line`).
    pub fn toc_lines(&self) -> (r: Vec<String>)
        ensures
            ({
                let items = self.toc_panel.items@;
                let v = toc_listed(items, self.toc_panel.query@);
                &&& forall|i: int| 0 <= i < v.len() ==> #[trigger] v[i] < items.len()
                &&& string_views(r@) == v.map_values(|k: usize| toc_line(items[k as int]))
            }),
    {
        let v = self.toc_visible_indices();
        let ghost items = self.toc_panel.items@;
        proof {
            lemma_toc_listed_bounds(items, crate::ui::toc_query(self.toc_panel.query@), items.len());
        }
        let mut out: Vec<String> = Vec::new();
        let mut i: usize = 0;
        while i < v.len()
            invariant
                i <= v@.len(),
                items == self.toc_panel.items@,
                v@ == toc_listed(items, self.toc_panel.query@),
                forall|j: int| 0 <= j < v@.len() ==> #[trigger] v@[j] < items.len(),
                string_views(out@) == v@.take(i as int).map_values(|k: usize| toc_line(items[k as int])),
            decreases v.len() - i,
        {
            let k = v[i];
            let line = toc_line_text(&self.toc_panel.items[k]);
            let ghost before = string_views(out@);
            out.push(line);
            assert(string_views(out@) =~= before.push(line@));
            assert(v@.take(i + 1).map_values(|k: usize| toc_line(items[k as int])) =~= v@.take(
                i as int,
            ).map_values(|k: usize| toc_line(items[k as int])).push(line@));
            i += 1;
        }
        assert(v@.take(i as int) =~= v@);
        out
    }

    /// The outline panel's title (see `toc_title`).
    pub fn toc_title(&self) -> (s: String)
        ensures
            s@ == toc_title(
                self.toc_panel.error is Some,
                self.toc_panel.query@,
                toc_listed(self.toc_panel.items@, self.toc_panel.query@).len(),
                self.toc_panel.items@.len(),
            ),
    {
        if self.toc_panel.error.is_some() {
            return string_of(chars_of("Table of Contents (error)").as_slice());
        }
        let total = self.toc_panel.items.len();
        if is_blank_query(&self.toc_panel.query) {
            let mut v = chars_of("Table of Contents \u{2014} ");
            push_number(&mut v, total as u64);
            return string_of(v.as_slice());
        }
        let shown = self.toc_visible_indices().len();
        let r = count_text("Table of Contents \u{2014} ", shown, total, "");
        proof {
            reveal_strlit("");
            assert(r@ =~= "Table of Contents \u{2014} "@ + decimal(shown as nat) + "/"@ + decimal(total as nat));
        }
        r
    }

    /// The library list's title (see `library_title`).
    pub fn library_title(&self) -> (s: String)
        ensures
            s@ == library_title(
                self.search_panel.query@,
                crate::library::listed_books(self.ctx, self.search_panel.query@).len(),
                self.ctx.books@.len(),
            ),
    {
        if is_blank_query(&self.search_panel.query) {
            return string_of(chars_of("Library").as_slice());
        }
        let shown = self.visible_indices().len();
        count_text("Library \u{2014} ", shown, self.ctx.books.len(), " matches")
    }

    /// The search box's title (see `search_title`).
    pub fn search_title(&self) -> (s: String)
        ensures
            s@ == search_title(
                self.search_panel.query@,
                crate::library::listed_books(self.ctx, self.search_panel.query@).len(),
                self.ctx.books@.len(),
            ),
    {
        if is_blank_query(&self.search_panel.query) {
            return string_of(chars_of("Search").as_slice());
        }
        let shown = self.visible_indices().len();
        let r = count_text("Search \u{2014} ", shown, self.ctx.books.len(), "");
        proof {
            reveal_strlit("");
            assert(r@ =~= "Search \u{2014} "@ + decimal(shown as nat) + "/"@ + decimal(self.ctx.books@.len()));
        }
        r
    }

    /// The go-to box's title (see `goto_title`).
    pub fn goto_title(&self) -> (s: String)
        ensures
            s@ == goto_title(self.reader.total_pages),
    {
        match self.reader.total_pages {
            Some(t) => {
                let mut v = chars_of("Go to page (1..=");
                push_number(&mut v, t as u64);
                push_str(&mut v, ")");
                string_of(v.as_slice())
            },
            None => string_of(chars_of("Go to page").as_slice()),
        }
    }
}

} // verus!
