//! The library: its books, their labels and the per-book reading data.

use vstd::prelude::*;
use crate::chars::push_char;
use crate::model::{Book, Bookmark, Note};
use crate::num::decimal;
use crate::num::decimal_string;
use crate::path::{decoded_path, display_path, lossy_text, utf8_lossy};
use crate::pathmap::{PathMap, PathSet};
use crate::settings::{is_clean_root, normalize_roots, strictly_sorted, string_views, Settings};
use crate::strs::{
    chars_of, contains_chars, contains_sub, ends_with, ends_with_chars, join, join_chars,
    lemma_trim_lower, lower_ascii, lower_ascii_chars, split_chars, split_on, split_state, string_of, trim,
    trim_chars, views,
};

verus! {

/// How several tag filters combine.
#[derive(Debug, Clone, Copy, PartialEq, Eq, Structural)]
pub enum TagMatchMode {
    /// A book must carry every selected tag.
    And,
    /// A book must carry at least one selected tag.
    Or,
}

impl Default for TagMatchMode {
    fn default() -> (m: Self)
        ensures
            m == TagMatchMode::Or,
    {
        TagMatchMode::Or
    }
}

/// Which collection the library list is restricted to.
#[derive(Debug, Clone, PartialEq, Eq)]
pub enum CollectionFilter {
    /// Books in any collection or none.
    Any,
    /// Books without a collection.
    NoCollection,
    /// Books in the named collection.
    Selected(String),
}

impl Default for CollectionFilter {
    fn default() -> (f: Self)
        ensures
            f is Any,
    {
        CollectionFilter::Any
    }
}

/// The labels of a book: any number of tags and at most one collection.
#[derive(Debug, Clone, PartialEq, Eq)]
pub struct BookLabels {
    pub tags: Vec<String>,
    pub collection: Option<String>,
}

/// A collection name after trimming; no collection when it is blank.
pub open spec fn clean_collection(c: Option<String>) -> Option<Seq<char>> {
    match c {
        Some(s) => if trim(s@).len() == 0 {
            None
        } else {
            Some(trim(s@))
        },
        None => None,
    }
}

pub open spec fn collection_view(c: Option<String>) -> Option<Seq<char>> {
    match c {
        Some(s) => Some(s@),
        None => None,
    }
}

impl BookLabels {
    /// No tags and no collection.
    pub fn new() -> (l: BookLabels)
        ensures
            l.tags@.len() == 0,
            l.collection is None,
    {
        BookLabels { tags: Vec::new(), collection: None }
    }

    /// Trims the tags, drops blank ones, sorts them and removes repeats; the
    /// collection is trimmed and dropped when blank.
    pub fn normalize(&mut self)
        ensures
            strictly_sorted(string_views(final(self).tags@)),
            forall|t: Seq<char>|
                string_views(final(self).tags@).contains(t) <==> is_clean_root(
                    string_views(old(self).tags@),
                    t,
                ),
            collection_view(final(self).collection) == clean_collection(old(self).collection),
    {
        let tags = normalize_roots(&self.tags);
        self.tags = tags;
        let c = match &self.collection {
            Some(s) => {
                let t = trim_chars(chars_of(s.as_str()).as_slice());
                if t.len() == 0 {
                    None
                } else {
                    Some(string_of(t.as_slice()))
                }
            },
            None => None,
        };
        self.collection = c;
    }
}

/// Computes reading progress in percent (outside the library: it is a float).
#[derive(Debug, Default)]
pub struct ProgressTracker;

/// Everything the interface shows and edits: settings, the books, the current
/// selection and filters, and per-book data with the paths whose data changed.
#[derive(Debug, Clone)]
pub struct AppContext {
    pub settings: Settings,
    pub cwd: String,
    pub books: Vec<Book>,
    pub selected: usize,
    pub library_query: String,
    pub favorites_only: bool,
    pub collection_filter: CollectionFilter,
    pub tag_filters: Vec<String>,
    pub tag_match_mode: TagMatchMode,
    pub progress_by_path: PathMap<u32>,
    pub opened_at_by_path: PathMap<i64>,
    pub labels_by_path: PathMap<BookLabels>,
    pub bookmarks_by_path: PathMap<Vec<Bookmark>>,
    pub notes_by_path: PathMap<Vec<Note>>,
    pub dirty_favorite_paths: PathSet,
    pub dirty_label_paths: PathSet,
    pub dirty_bookmark_paths: PathSet,
    pub dirty_note_paths: PathSet,
}

impl AppContext {
    /// A context with `settings`, no books, no filters and no per-book data.
    pub fn new(settings: Settings) -> (c: AppContext)
        ensures
            c.settings == settings,
            c.cwd@.len() == 0,
            c.books@.len() == 0,
            c.selected == 0,
            c.library_query@.len() == 0,
            !c.favorites_only,
            c.collection_filter is Any,
            c.tag_filters@.len() == 0,
            c.tag_match_mode == TagMatchMode::Or,
            c.progress_by_path@ == Map::<Seq<char>, u32>::empty(),
            c.opened_at_by_path@ == Map::<Seq<char>, i64>::empty(),
            c.labels_by_path@ == Map::<Seq<char>, BookLabels>::empty(),
            c.bookmarks_by_path@ == Map::<Seq<char>, Vec<Bookmark>>::empty(),
            c.notes_by_path@ == Map::<Seq<char>, Vec<Note>>::empty(),
            c.dirty_favorite_paths@ == Set::<Seq<char>>::empty(),
            c.dirty_label_paths@ == Set::<Seq<char>>::empty(),
            c.dirty_bookmark_paths@ == Set::<Seq<char>>::empty(),
            c.dirty_note_paths@ == Set::<Seq<char>>::empty(),
    {
        AppContext {
            settings,
            cwd: String::new(),
            books: Vec::new(),
            selected: 0,
            library_query: String::new(),
            favorites_only: false,
            collection_filter: CollectionFilter::Any,
            tag_filters: Vec::new(),
            tag_match_mode: TagMatchMode::Or,
            progress_by_path: PathMap::new(),
            opened_at_by_path: PathMap::new(),
            labels_by_path: PathMap::new(),
            bookmarks_by_path: PathMap::new(),
            notes_by_path: PathMap::new(),
            dirty_favorite_paths: PathSet::new(),
            dirty_label_paths: PathSet::new(),
            dirty_bookmark_paths: PathSet::new(),
            dirty_note_paths: PathSet::new(),
        }
    }

    /// Sets the working directory and the books; the selection is kept when
    /// it still points at a book, else moved to the last one (0 when none).
    /// Everything else is kept.
    pub fn with_library(self, cwd: String, books: Vec<Book>) -> (c: AppContext)
        ensures
            c.cwd == cwd,
            c.books == books,
            c.selected == (if self.selected < books@.len() {
                self.selected as int
            } else if books@.len() == 0 {
                0
            } else {
                books@.len() - 1
            }),
            c == (AppContext { cwd: c.cwd, books: c.books, selected: c.selected, ..self }),
    {
        let mut c = self;
        c.cwd = cwd;
        c.books = books;
        let last = if c.books.len() == 0 {
            0
        } else {
            c.books.len() - 1
        };
        if c.selected > last {
            c.selected = last;
        }
        c
    }

    /// Sets the last page read of each book (1-based).
    pub fn with_progress(self, progress_by_path: PathMap<u32>) -> (c: AppContext)
        ensures
            c == (AppContext { progress_by_path: progress_by_path, ..self }),
    {
        let mut c = self;
        c.progress_by_path = progress_by_path;
        c
    }

    /// Sets the labels of each book.
    pub fn with_labels(self, labels_by_path: PathMap<BookLabels>) -> (c: AppContext)
        ensures
            c == (AppContext { labels_by_path: labels_by_path, ..self }),
    {
        let mut c = self;
        c.labels_by_path = labels_by_path;
        c
    }

    /// Sets the bookmarks of each book.
    pub fn with_bookmarks(self, bookmarks_by_path: PathMap<Vec<Bookmark>>) -> (c: AppContext)
        ensures
            c == (AppContext { bookmarks_by_path: bookmarks_by_path, ..self }),
    {
        let mut c = self;
        c.bookmarks_by_path = bookmarks_by_path;
        c
    }

    /// Sets the notes of each book.
    pub fn with_notes(self, notes_by_path: PathMap<Vec<Note>>) -> (c: AppContext)
        ensures
            c == (AppContext { notes_by_path: notes_by_path, ..self }),
    {
        let mut c = self;
        c.notes_by_path = notes_by_path;
        c
    }
}

/// How a stored path is shown.
pub open spec fn shown_path(path: Seq<char>) -> Seq<char> {
    utf8_lossy(decoded_path(path))
}

/// Whether a book matches a search query (given trimmed and lowercased): its
/// title or its shown path contains it, ignoring ASCII case.
pub open spec fn matches_query(book: Book, q: Seq<char>) -> bool {
    contains_sub(lower_ascii(book.title@), q) || contains_sub(lower_ascii(shown_path(book.path@)), q)
}

pub fn book_matches_query(book: &Book, q: &[char]) -> (b: bool)
    ensures
        b == matches_query(*book, q@),
{
    let title = lower_ascii_chars(chars_of(book.title.as_str()).as_slice());
    if contains_chars(title.as_slice(), q) {
        return true;
    }
    let shown = display_path(book.path.as_str());
    let path = lower_ascii_chars(chars_of(shown.as_str()).as_slice());
    contains_chars(path.as_slice(), q)
}

/// The labels recorded for a path, if any.
pub open spec fn labels_for(ctx: AppContext, path: Seq<char>) -> Option<BookLabels> {
    if ctx.labels_by_path@.contains_key(path) {
        Some(ctx.labels_by_path@[path])
    } else {
        None
    }
}

pub open spec fn book_collection(ctx: AppContext, path: Seq<char>) -> Option<Seq<char>> {
    match labels_for(ctx, path) {
        Some(l) => collection_view(l.collection),
        None => None,
    }
}

pub open spec fn book_tags(ctx: AppContext, path: Seq<char>) -> Seq<Seq<char>> {
    match labels_for(ctx, path) {
        Some(l) => string_views(l.tags@),
        None => seq![],
    }
}

/// Whether a book passes the favourites, collection and tag filters.
pub open spec fn passes_filters(ctx: AppContext, book: Book) -> bool {
    let tags = book_tags(ctx, book.path@);
    let filters = string_views(ctx.tag_filters@);
    &&& (!ctx.favorites_only || book.favorite)
    &&& match ctx.collection_filter {
        CollectionFilter::Any => true,
        CollectionFilter::NoCollection => book_collection(ctx, book.path@) is None,
        CollectionFilter::Selected(c) => book_collection(ctx, book.path@) == Some(c@),
    }
    &&& tags_match(tags, filters, ctx.tag_match_mode)
}

/// Whether the book at `i` is listed for `query`.
pub open spec fn listed(ctx: AppContext, query: Seq<char>, i: int) -> bool {
    let q = trim(query);
    passes_filters(ctx, ctx.books@[i]) && (q.len() == 0 || matches_query(
        ctx.books@[i],
        lower_ascii(q),
    ))
}

/// The indices of the listed books among the first `n`, in order.
pub open spec fn listed_upto(ctx: AppContext, query: Seq<char>, n: nat) -> Seq<usize>
    decreases n,
{
    if n == 0 {
        seq![]
    } else {
        let r = listed_upto(ctx, query, (n - 1) as nat);
        if listed(ctx, query, n - 1) {
            r.push((n - 1) as usize)
        } else {
            r
        }
    }
}

/// The indices of the books the library list shows for `query`.
pub open spec fn listed_books(ctx: AppContext, query: Seq<char>) -> Seq<usize> {
    listed_upto(ctx, query, ctx.books@.len())
}

/// The listed indices come in increasing order, each below `n`.
pub proof fn lemma_listed_upto_increasing(ctx: AppContext, query: Seq<char>, n: nat)
    requires
        n <= usize::MAX + 1,
    ensures
        forall|i: int, j: int|
            0 <= i < j < listed_upto(ctx, query, n).len() ==> #[trigger] listed_upto(ctx, query, n)[i]
                < #[trigger] listed_upto(ctx, query, n)[j],
        forall|i: int| 0 <= i < listed_upto(ctx, query, n).len() ==> #[trigger] listed_upto(ctx, query, n)[i] < n,
    decreases n,
{
    if n > 0 {
        lemma_listed_upto_increasing(ctx, query, (n - 1) as nat);
        let r = listed_upto(ctx, query, (n - 1) as nat);
        let x = (n - 1) as usize;
        assert(x == n - 1);
        if listed(ctx, query, n - 1) {
            let r2 = r.push(x);
            assert forall|i: int, j: int| 0 <= i < j < r2.len() implies #[trigger] r2[i] < #[trigger] r2[j] by {
                if j < r.len() {
                    assert(r2[i] == r[i] && r2[j] == r[j]);
                } else {
                    assert(r2[i] == r[i]);
                }
            }
            assert forall|i: int| 0 <= i < r2.len() implies #[trigger] r2[i] < n by {
                if i < r.len() {
                    assert(r2[i] == r[i]);
                }
            }
        }
    }
}

/// The library list shows exactly the books that pass the filters and match
/// the query: an index is listed if and only if it is a book's index and that
/// book is listed.
pub proof fn lemma_listed_books_are_matches(ctx: AppContext, query: Seq<char>)
    ensures
        forall|i: int|
            0 <= i < ctx.books@.len() ==> (listed_books(ctx, query).contains(i as usize) <==> listed(
                ctx,
                query,
                i,
            )),
        forall|k: int|
            0 <= k < listed_books(ctx, query).len() ==> #[trigger] listed_books(ctx, query)[k] < ctx.books@.len()
                && listed(ctx, query, listed_books(ctx, query)[k] as int),
{
    assert(ctx.books@.len() == ctx.books.len());
    lemma_listed_upto_members(ctx, query, ctx.books@.len());
}

proof fn lemma_listed_upto_members(ctx: AppContext, query: Seq<char>, n: nat)
    requires
        n <= usize::MAX + 1,
    ensures
        forall|i: int| 0 <= i < n ==> (listed_upto(ctx, query, n).contains(i as usize) <==> listed(ctx, query, i)),
        forall|k: int|
            0 <= k < listed_upto(ctx, query, n).len() ==> #[trigger] listed_upto(ctx, query, n)[k] < n && listed(
                ctx,
                query,
                listed_upto(ctx, query, n)[k] as int,
            ),
    decreases n,
{
    if n > 0 {
        lemma_listed_upto_members(ctx, query, (n - 1) as nat);
        lemma_listed_upto_increasing(ctx, query, (n - 1) as nat);
        let r = listed_upto(ctx, query, (n - 1) as nat);
        let x = (n - 1) as usize;
        assert(x == n - 1);
        let r2 = listed_upto(ctx, query, n);
        assert forall|k: int| 0 <= k < r2.len() implies #[trigger] r2[k] < n && listed(ctx, query, r2[k] as int) by {
            if k < r.len() {
                assert(r2[k] == r[k]);
            }
        }
        assert forall|i: int| 0 <= i < n implies (r2.contains(i as usize) <==> listed(ctx, query, i)) by {
            if i < n - 1 {
                if r2.contains(i as usize) {
                    let k = choose|k: int| 0 <= k < r2.len() && r2[k] == i as usize;
                    if k < r.len() {
                        assert(r2[k] == r[k]);
                        assert(r.contains(i as usize));
                    }
                }
                if r.contains(i as usize) {
                    let k = choose|k: int| 0 <= k < r.len() && r[k] == i as usize;
                    if listed(ctx, query, n - 1) {
                        assert(r2[k] == r[k]);
                    }
                    assert(r2.contains(i as usize));
                }
            } else {
                if listed(ctx, query, n - 1) {
                    assert(r2[r.len() as int] == x);
                }
                if r2.contains(i as usize) {
                    let k = choose|k: int| 0 <= k < r2.len() && r2[k] == i as usize;
                    if k < r.len() {
                        assert(r2[k] == r[k]);
                    }
                }
            }
        }
    }
}

/// With no filter set and a blank query, every book is listed, in order.
pub proof fn lemma_unfiltered_lists_all(ctx: AppContext, query: Seq<char>)
    requires
        !ctx.favorites_only,
        ctx.collection_filter is Any,
        ctx.tag_filters@.len() == 0,
        trim(query).len() == 0,
    ensures
        listed_books(ctx, query) == Seq::new(ctx.books@.len(), |i: int| i as usize),
{
    assert(ctx.books@.len() == ctx.books.len());
    lemma_listed_upto_all(ctx, query, ctx.books@.len());
}

proof fn lemma_listed_upto_all(ctx: AppContext, query: Seq<char>, n: nat)
    requires
        !ctx.favorites_only,
        ctx.collection_filter is Any,
        ctx.tag_filters@.len() == 0,
        trim(query).len() == 0,
        n <= usize::MAX + 1,
    ensures
        listed_upto(ctx, query, n) == Seq::new(n, |i: int| i as usize),
    decreases n,
{
    if n > 0 {
        lemma_listed_upto_all(ctx, query, (n - 1) as nat);
        assert(string_views(ctx.tag_filters@).len() == 0);
        assert(listed(ctx, query, n - 1));
        assert(Seq::new((n - 1) as nat, |i: int| i as usize).push((n - 1) as usize) =~= Seq::new(
            n,
            |i: int| i as usize,
        ));
    }
}

/// Filters only narrow the list: turning on "favourites only" lists no book
/// that was not listed before, and requiring all filter tags lists no book
/// that requiring any one of them does not.
pub proof fn lemma_filters_narrow_listing(ctx: AppContext, query: Seq<char>, i: usize)
    ensures
        listed_books(AppContext { favorites_only: true, ..ctx }, query).contains(i) ==> listed_books(
            ctx,
            query,
        ).contains(i),
        listed_books(AppContext { tag_match_mode: TagMatchMode::And, ..ctx }, query).contains(i) ==> listed_books(
            AppContext { tag_match_mode: TagMatchMode::Or, ..ctx },
            query,
        ).contains(i),
{
    let fav = AppContext { favorites_only: true, ..ctx };
    let all = AppContext { tag_match_mode: TagMatchMode::And, ..ctx };
    let any = AppContext { tag_match_mode: TagMatchMode::Or, ..ctx };
    lemma_listed_books_are_matches(ctx, query);
    lemma_listed_books_are_matches(fav, query);
    lemma_listed_books_are_matches(all, query);
    lemma_listed_books_are_matches(any, query);
    if listed_books(fav, query).contains(i) {
        let k = choose|k: int| 0 <= k < listed_books(fav, query).len() && listed_books(fav, query)[k] == i;
        assert(listed_books(fav, query)[k] < fav.books@.len());
        assert(listed(ctx, query, i as int));
    }
    if listed_books(all, query).contains(i) {
        let k = choose|k: int| 0 <= k < listed_books(all, query).len() && listed_books(all, query)[k] == i;
        assert(listed_books(all, query)[k] < all.books@.len());
        let filters = string_views(ctx.tag_filters@);
        let tags = book_tags(ctx, ctx.books@[i as int].path@);
        if filters.len() > 0 {
            assert(tags.contains(filters[0]));
        }
        assert(listed(any, query, i as int));
    }
}

/// Search ignores ASCII case: a query lists the same books as its lowercase
/// form.
pub proof fn lemma_search_ignores_case(ctx: AppContext, query: Seq<char>)
    ensures
        listed_books(ctx, lower_ascii(query)) == listed_books(ctx, query),
{
    lemma_trim_lower(query);
    lemma_trim_lower(trim(query));
    lemma_listed_upto_same_query(ctx, lower_ascii(query), query, ctx.books@.len());
}

proof fn lemma_listed_upto_same_query(ctx: AppContext, a: Seq<char>, b: Seq<char>, n: nat)
    requires
        trim(a).len() == trim(b).len(),
        lower_ascii(trim(a)) == lower_ascii(trim(b)),
    ensures
        listed_upto(ctx, a, n) == listed_upto(ctx, b, n),
    decreases n,
{
    if n > 0 {
        lemma_listed_upto_same_query(ctx, a, b, (n - 1) as nat);
    }
}

/// The listing reads the books, their labels and the filters, nothing else.
pub open spec fn same_listing(a: AppContext, b: AppContext) -> bool {
    &&& a.books == b.books
    &&& a.labels_by_path == b.labels_by_path
    &&& a.favorites_only == b.favorites_only
    &&& a.collection_filter == b.collection_filter
    &&& a.tag_filters == b.tag_filters
    &&& a.tag_match_mode == b.tag_match_mode
}

pub proof fn lemma_same_listing(a: AppContext, b: AppContext, query: Seq<char>, n: nat)
    requires
        same_listing(a, b),
    ensures
        listed_upto(a, query, n) == listed_upto(b, query, n),
    decreases n,
{
    if n > 0 {
        lemma_same_listing(a, b, query, (n - 1) as nat);
    }
}

fn contains_string(v: &Vec<String>, x: &String) -> (b: bool)
    ensures
        b == string_views(v@).contains(x@),
{
    let mut i: usize = 0;
    while i < v.len()
        invariant
            i <= v@.len(),
            forall|j: int| 0 <= j < i ==> #[trigger] v@[j]@ != x@,
        decreases v.len() - i,
    {
        if v[i] == *x {
            assert(string_views(v@)[i as int] == x@);
            return true;
        }
        i += 1;
    }
    proof {
        if string_views(v@).contains(x@) {
            let j = choose|j: int| 0 <= j < string_views(v@).len() && string_views(v@)[j] == x@;
            assert(v@[j]@ == x@);
        }
    }
    false
}

/// Whether a book passes the favourites, collection and tag filters.
pub fn book_passes_filters(ctx: &AppContext, book: &Book) -> (b: bool)
    ensures
        b == passes_filters(*ctx, *book),
{
    if ctx.favorites_only && !book.favorite {
        return false;
    }
    let labels = ctx.labels_by_path.get(&book.path);
    let ghost tags = book_tags(*ctx, book.path@);
    let empty: Vec<String> = Vec::new();
    let tag_list: &Vec<String> = match labels {
        Some(l) => &l.tags,
        None => &empty,
    };
    assert(string_views(tag_list@) =~= tags);
    let collection_ok = match &ctx.collection_filter {
        CollectionFilter::Any => true,
        CollectionFilter::NoCollection => match labels {
            Some(l) => l.collection.is_none(),
            None => true,
        },
        CollectionFilter::Selected(c) => match labels {
            Some(l) => match &l.collection {
                Some(lc) => *lc == *c,
                None => false,
            },
            None => false,
        },
    };
    if !collection_ok {
        return false;
    }
    tags_pass(tag_list, &ctx.tag_filters, ctx.tag_match_mode)
}

/// Whether tags pass tag filters combined by `mode` (always, with no filters).
pub open spec fn tags_match(tags: Seq<Seq<char>>, filters: Seq<Seq<char>>, mode: TagMatchMode) -> bool {
    filters.len() == 0 || match mode {
        TagMatchMode::And => forall|i: int| 0 <= i < filters.len() ==> tags.contains(#[trigger] filters[i]),
        TagMatchMode::Or => exists|i: int| 0 <= i < filters.len() && tags.contains(#[trigger] filters[i]),
    }
}

fn tags_pass(tag_list: &Vec<String>, tag_filters: &Vec<String>, mode: TagMatchMode) -> (b: bool)
    ensures
        b == tags_match(string_views(tag_list@), string_views(tag_filters@), mode),
{
    let n = tag_filters.len();
    if n == 0 {
        return true;
    }
    let ghost tags = string_views(tag_list@);
    let ghost filters = string_views(tag_filters@);
    match mode {
        TagMatchMode::And => {
            let mut i: usize = 0;
            while i < n
                invariant
                    n == tag_filters@.len(),
                    n > 0,
                    mode == TagMatchMode::And,
                    filters == string_views(tag_filters@),
                    string_views(tag_list@) == tags,
                    i <= n,
                    forall|j: int| 0 <= j < i ==> tags.contains(#[trigger] filters[j]),
                decreases n - i,
            {
                if !contains_string(tag_list, &tag_filters[i]) {
                    assert(!tags.contains(filters[i as int]));
                    return false;
                }
                i += 1;
            }
            true
        },
        TagMatchMode::Or => {
            let mut i: usize = 0;
            while i < n
                invariant
                    n == tag_filters@.len(),
                    n > 0,
                    mode == TagMatchMode::Or,
                    filters == string_views(tag_filters@),
                    string_views(tag_list@) == tags,
                    i <= n,
                    forall|j: int| 0 <= j < i ==> !tags.contains(#[trigger] filters[j]),
                decreases n - i,
            {
                if contains_string(tag_list, &tag_filters[i]) {
                    assert(tags.contains(filters[i as int]));
                    return true;
                }
                i += 1;
            }
            false
        },
    }
}

/// The indices of the books the library list shows for `query`, in order.
pub fn listed_indices(ctx: &AppContext, query: &str) -> (r: Vec<usize>)
    ensures
        r@ == listed_books(*ctx, query@),
{
    let q = trim_chars(chars_of(query).as_slice());
    let ql = lower_ascii_chars(q.as_slice());
    let mut out: Vec<usize> = Vec::new();
    let mut i: usize = 0;
    while i < ctx.books.len()
        invariant
            i <= ctx.books@.len(),
            q@ == trim(query@),
            ql@ == lower_ascii(q@),
            out@ == listed_upto(*ctx, query@, i as nat),
        decreases ctx.books.len() - i,
    {
        let book = &ctx.books[i];
        if book_passes_filters(ctx, book) && (q.len() == 0 || book_matches_query(book, ql.as_slice())) {
            out.push(i);
        }
        i += 1;
    }
    out
}

/// The roots as the scan panel shows them: joined with `;`.
pub open spec fn joined_roots(roots: Seq<Seq<char>>) -> Seq<char> {
    join(roots, seq![';'])
}

pub fn join_roots(settings: &Settings) -> (s: String)
    ensures
        s@ == joined_roots(string_views(settings.library_roots@)),
{
    let mut parts: Vec<Vec<char>> = Vec::new();
    let mut i: usize = 0;
    while i < settings.library_roots.len()
        invariant
            i <= settings.library_roots@.len(),
            views(parts@) == string_views(settings.library_roots@).take(i as int),
        decreases settings.library_roots.len() - i,
    {
        let r = chars_of(settings.library_roots[i].as_str());
        assert(r@ == settings.library_roots@[i as int]@);
        let ghost before = parts@;
        parts.push(r);
        assert(parts@ == before.push(r));
        assert(views(parts@) =~= views(before).push(r@));
        assert(string_views(settings.library_roots@).take(i + 1) =~= string_views(settings.library_roots@).take(i as int).push(settings.library_roots@[i as int]@));
        assert(views(parts@) =~= string_views(settings.library_roots@).take(i + 1));
        i += 1;
    }
    assert(string_views(settings.library_roots@).take(i as int) =~= string_views(settings.library_roots@));
    let sep = vec![';'];
    let j = join_chars(&parts, sep.as_slice());
    assert(sep@ =~= seq![';']);
    string_of(j.as_slice())
}

/// `,` read as `;`.
pub open spec fn comma_as_semicolon(s: Seq<char>) -> Seq<char> {
    s.map_values(|c: char| if c == ',' { ';' } else { c })
}

/// The trimmed, non-blank pieces among `parts`, in order.
pub open spec fn nonblank_trimmed(parts: Seq<Seq<char>>) -> Seq<Seq<char>>
    decreases parts.len(),
{
    if parts.len() == 0 {
        seq![]
    } else {
        let r = nonblank_trimmed(parts.drop_last());
        if trim(parts.last()).len() == 0 {
            r
        } else {
            r.push(trim(parts.last()))
        }
    }
}

/// The roots typed into the scan panel: split at `;` and `,`, each piece
/// trimmed, blank pieces dropped.
pub open spec fn roots_input(s: Seq<char>) -> Seq<Seq<char>> {
    nonblank_trimmed(split_on(comma_as_semicolon(s), ';'))
}

pub fn parse_roots_input(input: &str) -> (r: Vec<String>)
    ensures
        string_views(r@) == roots_input(input@),
{
    let c = chars_of(input);
    let mut m: Vec<char> = Vec::new();
    let mut i: usize = 0;
    while i < c.len()
        invariant
            i <= c@.len(),
            c@ == input@,
            m@ == comma_as_semicolon(c@.take(i as int)),
        decreases c.len() - i,
    {
        if c[i] == ',' {
            m.push(';');
        } else {
            m.push(c[i]);
        }
        assert(comma_as_semicolon(c@.take(i + 1)) =~= comma_as_semicolon(c@.take(i as int)).push(
            if c@[i as int] == ',' { ';' } else { c@[i as int] },
        ));
        i += 1;
    }
    assert(c@.take(i as int) =~= c@);
    let parts = split_chars(m.as_slice(), ';');
    let ghost ps = views(parts@);
    let mut out: Vec<String> = Vec::new();
    let mut k: usize = 0;
    while k < parts.len()
        invariant
            k <= parts@.len(),
            ps == views(parts@),
            string_views(out@) == nonblank_trimmed(ps.take(k as int)),
        decreases parts.len() - k,
    {
        assert(ps.take(k + 1).drop_last() =~= ps.take(k as int));
        let t = trim_chars(parts[k].as_slice());
        if t.len() > 0 {
            out.push(string_of(t.as_slice()));
            assert(string_views(out@) =~= nonblank_trimmed(ps.take(k as int)).push(t@));
        }
        k += 1;
    }
    assert(ps.take(k as int) =~= ps);
    out
}

/// "never", "just now" (under ten seconds), or the time since `last_opened`
/// in seconds, minutes, hours or days, whichever unit first fits.
pub open spec fn last_opened_text(now: i64, last_opened: Option<i64>) -> Seq<char> {
    match last_opened {
        None => "never"@,
        Some(t) => {
            let d0 = now - t;
            let d: int = if d0 < i64::MIN {
                i64::MIN as int
            } else if d0 > i64::MAX {
                i64::MAX as int
            } else {
                d0
            };
            if d < 10 {
                "just now"@
            } else if d < 60 {
                decimal(d as nat) + "s ago"@
            } else if d < 3600 {
                decimal((d / 60) as nat) + "m ago"@
            } else if d < 86400 {
                decimal((d / 3600) as nat) + "h ago"@
            } else {
                decimal((d / 86400) as nat) + "d ago"@
            }
        },
    }
}

fn with_suffix(n: u64, suffix: &str) -> (s: String)
    ensures
        s@ == decimal(n as nat) + suffix@,
{
    let d = decimal_string(n);
    let mut v = chars_of(d.as_str());
    let sc = chars_of(suffix);
    crate::strs::extend_chars(&mut v, sc.as_slice());
    string_of(v.as_slice())
}

/// How long ago a book was opened, as of `now` (seconds since the epoch).
pub fn format_last_opened(now: i64, last_opened: Option<i64>) -> (s: String)
    ensures
        s@ == last_opened_text(now, last_opened),
{
    let t = match last_opened {
        None => {
            return string_of(chars_of("never").as_slice());
        },
        Some(t) => t,
    };
    let wide: i128 = now as i128 - t as i128;
    let delta: i64 = if wide < -0x8000_0000_0000_0000 {
        i64::MIN
    } else if wide > 0x7fff_ffff_ffff_ffff {
        i64::MAX
    } else {
        wide as i64
    };
    if delta < 10 {
        string_of(chars_of("just now").as_slice())
    } else if delta < 60 {
        with_suffix(delta as u64, "s ago")
    } else if delta < 3600 {
        with_suffix((delta / 60) as u64, "m ago")
    } else if delta < 86400 {
        with_suffix((delta / 3600) as u64, "h ago")
    } else {
        with_suffix((delta / 86400) as u64, "d ago")
    }
}

/// Position of the last `.` in a file name, if any.
pub open spec fn last_dot(name: Seq<u8>) -> Option<int> {
    if exists|i: int| 0 <= i < name.len() && name[i] == 46u8 {
        Some(choose|i: int| 0 <= i < name.len() && name[i] == 46u8 && forall|j: int| i < j < name.len() ==> name[j] != 46u8)
    } else {
        None
    }
}

/// `Path::extension` of a path whose file name is `name`: the part after the
/// last `.`, unless the name is `..`, has no `.`, or its only `.` leads it.
pub open spec fn extension_of(name: Seq<u8>) -> Option<Seq<u8>> {
    if name == seq![46u8, 46u8] {
        None
    } else {
        match last_dot(name) {
            Some(i) => if i == 0 {
                None
            } else {
                Some(name.skip(i + 1))
            },
            None => None,
        }
    }
}

/// `Path::file_stem` of a path whose file name is `name`: the part before the
/// last `.`, or the whole name where `extension_of` finds none.
pub open spec fn stem_of(name: Seq<u8>) -> Seq<u8> {
    if name == seq![46u8, 46u8] {
        name
    } else {
        match last_dot(name) {
            Some(i) => if i == 0 {
                name
            } else {
                name.take(i)
            },
            None => name,
        }
    }
}

pub open spec fn ascii_lower_byte(b: u8) -> u8 {
    if 65 <= b <= 90 {
        (b + 32) as u8
    } else {
        b
    }
}

/// Whether a file with this name is taken for a PDF: its extension is `pdf`
/// in any ASCII case.
pub open spec fn pdf_name(name: Seq<u8>) -> bool {
    match extension_of(name) {
        Some(e) => e.len() == 3 && ascii_lower_byte(e[0]) == 112u8 && ascii_lower_byte(e[1]) == 100u8
            && ascii_lower_byte(e[2]) == 102u8,
        None => false,
    }
}

fn find_last_dot(name: &[u8]) -> (r: Option<usize>)
    ensures
        r matches Some(i) ==> i < name@.len() && last_dot(name@) == Some(i as int),
        r is None ==> last_dot(name@) is None,
{
    let mut i = name.len();
    while i > 0
        invariant
            i <= name@.len(),
            forall|j: int| i <= j < name@.len() ==> name@[j] != 46u8,
        decreases i,
    {
        if name[i - 1] == 46u8 {
            let ghost k = (i - 1) as int;
            proof {
                let c = choose|c: int| 0 <= c < name@.len() && name@[c] == 46u8 && forall|j: int| c < j < name@.len() ==> name@[j] != 46u8;
                assert(c == k) by {
                    if c < k {
                        assert(name@[k] != 46u8);
                    } else if c > k {
                        assert(name@[c] != 46u8);
                    }
                }
            }
            return Some(i - 1);
        }
        i -= 1;
    }
    None
}

fn is_dot_dot(name: &[u8]) -> (b: bool)
    ensures
        b == (name@ == seq![46u8, 46u8]),
{
    let b = name.len() == 2 && name[0] == 46u8 && name[1] == 46u8;
    if b {
        assert(name@ =~= seq![46u8, 46u8]);
    }
    b
}

fn lower_byte(b: u8) -> (r: u8)
    ensures
        r == ascii_lower_byte(b),
{
    if 65 <= b && b <= 90 {
        b + 32
    } else {
        b
    }
}

/// Whether a file with this name is taken for a PDF (see `pdf_name`).
pub fn is_pdf(name: &[u8]) -> (b: bool)
    ensures
        b == pdf_name(name@),
{
    if is_dot_dot(name) {
        return false;
    }
    match find_last_dot(name) {
        Some(i) => {
            if i == 0 {
                return false;
            }
            if name.len() - (i + 1) != 3 {
                return false;
            }
            lower_byte(name[i + 1]) == 112u8 && lower_byte(name[i + 2]) == 100u8 && lower_byte(
                name[i + 3],
            ) == 102u8
        },
        None => false,
    }
}

/// The title given to a book found on disk: its file stem, invalid UTF-8
/// replaced, or `untitled` when the path has no file name.
pub open spec fn book_title(name: Option<Seq<u8>>) -> Seq<char> {
    match name {
        Some(n) => utf8_lossy(stem_of(n)),
        None => "untitled"@,
    }
}

pub fn title_from_file_name(name: Option<&[u8]>) -> (t: String)
    ensures
        t@ == book_title(match name {
            Some(n) => Some(n@),
            None => None,
        }),
{
    match name {
        Some(n) => {
            let stem: &[u8] = if is_dot_dot(n) {
                n
            } else {
                match find_last_dot(n) {
                    Some(i) => if i == 0 {
                        n
                    } else {
                        vstd::slice::slice_subrange(n, 0, i)
                    },
                    None => n,
                }
            };
            assert(stem@ == stem_of(n@));
            lossy_text(stem)
        },
        None => string_of(chars_of("untitled").as_slice()),
    }
}

/// Whether some scanned book has path `p`.
pub open spec fn scanned_has(scanned: Seq<Book>, p: Seq<char>) -> bool {
    exists|i: int| 0 <= i < scanned.len() && #[trigger] scanned[i].path@ == p
}

/// The paths of the stored books that a scan no longer finds, in order.
pub open spec fn stale(scanned: Seq<Book>, existing: Seq<Book>) -> Seq<Seq<char>>
    decreases existing.len(),
{
    if existing.len() == 0 {
        seq![]
    } else {
        let r = stale(scanned, existing.drop_last());
        if scanned_has(scanned, existing.last().path@) {
            r
        } else {
            r.push(existing.last().path@)
        }
    }
}

/// The paths to delete after a scan (see `stale`).
pub fn stale_paths(scanned: &Vec<Book>, existing: &Vec<Book>) -> (r: Vec<String>)
    ensures
        string_views(r@) == stale(scanned@, existing@),
{
    let mut out: Vec<String> = Vec::new();
    let mut i: usize = 0;
    while i < existing.len()
        invariant
            i <= existing@.len(),
            string_views(out@) == stale(scanned@, existing@.take(i as int)),
        decreases existing.len() - i,
    {
        assert(existing@.take(i + 1).drop_last() =~= existing@.take(i as int));
        let p = &existing[i].path;
        let mut found = false;
        let mut j: usize = 0;
        while j < scanned.len()
            invariant
                j <= scanned@.len(),
                found == exists|k: int| 0 <= k < j && #[trigger] scanned@[k].path@ == p@,
            decreases scanned.len() - j,
        {
            if scanned[j].path == *p {
                found = true;
            }
            j += 1;
        }
        if !found {
            let ghost before = out@;
            out.push(p.clone());
            assert(string_views(out@) =~= string_views(before).push(p@));
        }
        i += 1;
    }
    assert(existing@.take(i as int) =~= existing@);
    out
}

proof fn lemma_split_no_sep(s: Seq<char>, b: Seq<char>, sep: char)
    requires
        !b.contains(sep),
    ensures
        split_state(s + b, sep) == (split_state(s, sep).0, split_state(s, sep).1 + b),
    decreases b.len(),
{
    if b.len() > 0 {
        let b1 = b.drop_last();
        assert(!b1.contains(sep)) by {
            if b1.contains(sep) {
                let k = choose|k: int| 0 <= k < b1.len() && b1[k] == sep;
                assert(b[k] == sep);
            }
        }
        lemma_split_no_sep(s, b1, sep);
        assert((s + b).drop_last() =~= s + b1);
        assert((s + b).last() == b.last());
        assert(b.last() != sep) by {
            assert(b[b.len() - 1] == b.last());
        }
        assert((split_state(s, sep).1 + b1).push(b.last()) =~= split_state(s, sep).1 + b);
    } else {
        assert(s + b =~= s);
        assert(split_state(s, sep).1 + b =~= split_state(s, sep).1);
    }
}

proof fn lemma_split_join(parts: Seq<Seq<char>>, sep: char)
    requires
        parts.len() >= 1,
        forall|i: int| 0 <= i < parts.len() ==> !(#[trigger] parts[i]).contains(sep),
    ensures
        split_state(join(parts, seq![sep]), sep) == (parts.drop_last(), parts.last()),
    decreases parts.len(),
{
    if parts.len() == 1 {
        lemma_split_no_sep(seq![], parts[0], sep);
        assert(Seq::<char>::empty() + parts[0] =~= parts[0]);
        assert(split_state(Seq::<char>::empty(), sep) == (Seq::<Seq<char>>::empty(), Seq::<char>::empty()));
        assert(Seq::<char>::empty() + parts[0] =~= parts[0]);
        assert(parts.drop_last() =~= Seq::<Seq<char>>::empty());
    } else {
        let dl = parts.drop_last();
        assert forall|i: int| 0 <= i < dl.len() implies !(#[trigger] dl[i]).contains(sep) by {
            assert(dl[i] == parts[i]);
        }
        lemma_split_join(dl, sep);
        let j0 = join(dl, seq![sep]);
        assert(!parts.last().contains(sep)) by {
            assert(parts[parts.len() - 1] == parts.last());
        }
        lemma_split_no_sep(j0 + seq![sep], parts.last(), sep);
        assert((j0 + seq![sep]).drop_last() =~= j0);
        assert((j0 + seq![sep]).last() == sep);
        assert(join(parts, seq![sep]) == j0 + seq![sep] + parts.last());
        assert(Seq::<char>::empty() + parts.last() =~= parts.last());
        assert(dl.drop_last().push(dl.last()) =~= dl);
    }
}

proof fn lemma_join_lacks(parts: Seq<Seq<char>>, sep: char, c: char)
    requires
        c != sep,
        forall|i: int| 0 <= i < parts.len() ==> !(#[trigger] parts[i]).contains(c),
    ensures
        !join(parts, seq![sep]).contains(c),
    decreases parts.len(),
{
    if parts.len() == 1 {
        assert(!parts[0].contains(c));
    } else if parts.len() > 1 {
        let dl = parts.drop_last();
        assert forall|i: int| 0 <= i < dl.len() implies !(#[trigger] dl[i]).contains(c) by {
            assert(dl[i] == parts[i]);
        }
        lemma_join_lacks(dl, sep, c);
        let j = join(parts, seq![sep]);
        let a = join(dl, seq![sep]);
        let l = parts.last();
        assert(!l.contains(c)) by {
            assert(parts[parts.len() - 1] == l);
        }
        if j.contains(c) {
            let k = choose|k: int| 0 <= k < j.len() && j[k] == c;
            assert(j == a + seq![sep] + l);
            if k < a.len() {
                assert(j[k] == a[k]);
            } else if k == a.len() {
                assert(j[k] == sep);
            } else {
                assert(j[k] == l[k - a.len() - 1]);
            }
        }
    }
}

proof fn lemma_nonblank_trimmed_keeps(parts: Seq<Seq<char>>)
    requires
        forall|i: int| 0 <= i < parts.len() ==> trim(#[trigger] parts[i]) == parts[i] && parts[i].len() > 0,
    ensures
        nonblank_trimmed(parts) == parts,
    decreases parts.len(),
{
    if parts.len() > 0 {
        let dl = parts.drop_last();
        assert forall|i: int| 0 <= i < dl.len() implies trim(#[trigger] dl[i]) == dl[i] && dl[i].len() > 0 by {
            assert(dl[i] == parts[i]);
        }
        lemma_nonblank_trimmed_keeps(dl);
        assert(parts[parts.len() - 1] == parts.last());
        assert(dl.push(parts.last()) =~= parts);
    }
}

/// The scan panel shows the roots joined with `;`, and reading that text
/// back gives the same roots, for roots that are trimmed, not blank and hold
/// no `;` or `,` (normalized roots are trimmed and not blank).
pub proof fn lemma_roots_text_roundtrip(roots: Seq<Seq<char>>)
    requires
        forall|i: int| 0 <= i < roots.len() ==> trim(#[trigger] roots[i]) == roots[i] && roots[i].len() > 0
            && !roots[i].contains(';') && !roots[i].contains(','),
    ensures
        roots_input(joined_roots(roots)) == roots,
{
    let j = joined_roots(roots);
    assert forall|i: int| 0 <= i < roots.len() implies !(#[trigger] roots[i]).contains(',') by {}
    lemma_join_lacks(roots, ';', ',');
    assert(comma_as_semicolon(j) =~= j) by {
        assert forall|k: int| 0 <= k < j.len() implies comma_as_semicolon(j)[k] == j[k] by {
            if j[k] == ',' {
                assert(j.contains(','));
            }
        }
    }
    lemma_nonblank_trimmed_keeps(roots);
    if roots.len() == 0 {
        assert(j =~= Seq::<char>::empty());
        assert(split_on(j, ';') =~= seq![Seq::<char>::empty()]);
        assert(trim(Seq::<char>::empty()).len() == 0);
        assert(seq![Seq::<char>::empty()].drop_last() =~= Seq::<Seq<char>>::empty());
        assert(nonblank_trimmed(seq![Seq::<char>::empty()]) =~= roots);
    } else {
        assert forall|i: int| 0 <= i < roots.len() implies !(#[trigger] roots[i]).contains(';') by {}
        lemma_split_join(roots, ';');
        assert(roots.drop_last().push(roots.last()) =~= roots);
    }
}

} // verus!
