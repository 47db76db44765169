//! The interface's state and its key handling.
//!
//! Each handler takes a key and the facts it needs about the outside (the
//! time, whether kitty graphics work, the font size), changes the state and
//! returns what is left to do outside: open a book, load an outline, write a
//! debug dump, start kitty, or leave.

use vstd::prelude::*;
use crate::chars::{is_cc, is_control, push_char};
use crate::library::{
    joined_roots, join_roots, lemma_same_listing, listed_books, listed_indices, parse_roots_input, roots_input,
    AppContext,
};
use crate::settings::{is_clean_root, strictly_sorted, string_views};
use crate::marks::{bookmark_marks, note_marks, sort_bookmarks, sort_notes, sorted_marks, with_mark, Mark};
use crate::model::{Book, Bookmark, Note, TocItem};
use crate::model::{ReaderMode, ReaderTextMode};
use crate::num::add_signed;
use crate::page::line_count16;
use crate::reader::{
    clamp_zoom, opening_page, opt_view, saturating_i32, zoom_notice, ReaderPanel, ReaderRenderKey, ZOOM_MAX,
    ZOOM_MIN, ZOOM_STEP,
};
use crate::num::{decimal, decimal_string, parse_u32, u32_text};
use crate::strs::{
    chars_of, contains_chars, contains_sub, eq_chars, extend_chars, lines, lines_chars, lower_ascii,
    lower_ascii_chars, string_of, to_lowercase, trim, trim_chars, unicode_lower, views,
};

verus! {

/// Why the interface stopped.
#[derive(Debug, Clone, Copy, PartialEq, Eq, Structural)]
pub enum UiExit {
    Quit,
    /// The library roots changed: scan again, then come back.
    Rescan,
}

/// The state the interface stopped in, and why.
#[derive(Debug, Clone)]
pub struct UiOutcome {
    pub ctx: AppContext,
    pub exit: UiExit,
}

/// A key as the interface sees it.
#[derive(Debug, Clone, Copy, PartialEq, Eq, Structural)]
pub enum Key {
    Esc,
    Enter,
    Backspace,
    Up,
    Down,
    Left,
    Right,
    PageUp,
    PageDown,
    Char(char),
    Other,
}

/// A key press with the modifiers the interface reads.
#[derive(Debug, Clone, Copy, PartialEq, Eq, Structural)]
pub struct KeyPress {
    pub key: Key,
    pub ctrl: bool,
    pub shift: bool,
}

/// The scan-path panel: roots typed as text, and the scan scope.
#[derive(Debug, Clone)]
pub struct ScanPathPanel {
    pub open: bool,
    pub selected: usize,
    pub input: String,
    pub error: Option<String>,
}

impl ScanPathPanel {
    /// A closed panel holding `input`.
    pub fn new(input: String) -> (p: ScanPathPanel)
        ensures
            !p.open,
            p.selected == 0,
            p.input == input,
            p.error is None,
    {
        ScanPathPanel { open: false, selected: 0, input, error: None }
    }
}

/// The settings menu.
#[derive(Debug, Clone, Default)]
pub struct SettingsPanel {
    pub open: bool,
    pub selected: usize,
}

/// Rows of the settings menu.
pub const SETTINGS_MENU_SCAN_PATHS: usize = 0;
pub const SETTINGS_MENU_KITTY_IMAGE_QUALITY: usize = 1;
pub const SETTINGS_MENU_ITEM_COUNT: usize = 2;

/// The library search box.
#[derive(Debug, Clone)]
pub struct SearchPanel {
    pub open: bool,
    pub query: String,
}

/// The go-to-page box.
#[derive(Debug, Clone)]
pub struct GotoPanel {
    pub open: bool,
    pub input: String,
    pub error: Option<String>,
}

/// The bookmark list of the open book.
#[derive(Debug, Clone, Default)]
pub struct BookmarksPanel {
    pub open: bool,
    pub selected: usize,
}

/// The outline of the open book, with a filter.
#[derive(Debug, Clone)]
pub struct TocPanel {
    pub open: bool,
    pub selected: usize,
    pub query: String,
    pub path: Option<String>,
    pub items: Vec<TocItem>,
    pub error: Option<String>,
}

/// The notes of the open book, and the box a new note is typed in.
#[derive(Debug, Clone)]
pub struct NotesPanel {
    pub open: bool,
    pub selected: usize,
    pub input_open: bool,
    pub input_page: u32,
    pub input: String,
    pub error: Option<String>,
}

impl SettingsPanel {
    pub fn new() -> (p: SettingsPanel)
        ensures
            !p.open,
            p.selected == 0,
    {
        SettingsPanel { open: false, selected: 0 }
    }
}

impl SearchPanel {
    pub fn new() -> (p: SearchPanel)
        ensures
            !p.open,
            p.query@.len() == 0,
    {
        SearchPanel { open: false, query: String::new() }
    }
}

impl GotoPanel {
    /// As `new` makes it: closed, empty, without an error.
    pub open spec fn is_fresh(self) -> bool {
        !self.open && self.input@.len() == 0 && self.error is None
    }

    pub fn new() -> (p: GotoPanel)
        ensures
            p.is_fresh(),
    {
        GotoPanel { open: false, input: String::new(), error: None }
    }
}

impl BookmarksPanel {
    /// As `new` makes it: closed, the first entry selected.
    pub open spec fn is_fresh(self) -> bool {
        !self.open && self.selected == 0
    }

    pub fn new() -> (p: BookmarksPanel)
        ensures
            p.is_fresh(),
    {
        BookmarksPanel { open: false, selected: 0 }
    }
}

impl TocPanel {
    /// As `new` makes it: closed, nothing loaded, blank filter, no error.
    pub open spec fn is_fresh(self) -> bool {
        &&& !self.open
        &&& self.selected == 0
        &&& self.query@.len() == 0
        &&& self.path is None
        &&& self.items@.len() == 0
        &&& self.error is None
    }

    pub fn new() -> (p: TocPanel)
        ensures
            p.is_fresh(),
    {
        TocPanel {
            open: false,
            selected: 0,
            query: String::new(),
            path: None,
            items: Vec::new(),
            error: None,
        }
    }
}

impl NotesPanel {
    /// As `new` makes it: closed, no input open, the input page at 1.
    pub open spec fn is_fresh(self) -> bool {
        &&& !self.open
        &&& self.selected == 0
        &&& !self.input_open
        &&& self.input_page == 1
        &&& self.input@.len() == 0
        &&& self.error is None
    }

    /// Closed, with the input page at 1.
    pub fn new() -> (p: NotesPanel)
        ensures
            p.is_fresh(),
    {
        NotesPanel {
            open: false,
            selected: 0,
            input_open: false,
            input_page: 1,
            input: String::new(),
            error: None,
        }
    }
}

/// What a key leaves to be done outside the interface state.
pub enum UiAction {
    Nothing,
    /// Stop the interface.
    Exit(UiExit),
    /// Open the book at this index: read its page count, then call
    /// `UiState::open_book_at`.
    OpenBook(usize),
    /// Read the outline of this book, then call `UiState::finish_toc_load`.
    LoadToc(Book),
    /// Write the debug dump of this zero-based page of this book.
    WriteDebug(Book, u32),
    /// Start a kitty window on this book and zero-based page (or on none).
    SpawnKitty(Option<String>, u32),
}

/// The string `s` without its last char (unchanged when empty).
pub open spec fn popped(s: Seq<char>) -> Seq<char> {
    if s.len() == 0 {
        s
    } else {
        s.drop_last()
    }
}

/// `String::pop`, ignoring the char.
pub fn pop_char(s: &mut String)
    ensures
        final(s)@ == popped(old(s)@),
{
    let c = chars_of(s.as_str());
    if c.len() > 0 {
        let t = string_of(vstd::slice::slice_subrange(c.as_slice(), 0, c.len() - 1));
        assert(t@ =~= old(s)@.drop_last());
        *s = t;
    }
}

/// Index of the first `x` in `v`.
pub open spec fn first_index_of(v: Seq<usize>, x: usize) -> Option<int>
    decreases v.len(),
{
    if v.len() == 0 {
        None
    } else if v[0] == x {
        Some(0)
    } else {
        match first_index_of(v.drop_first(), x) {
            Some(i) => Some(i + 1),
            None => None,
        }
    }
}

proof fn lemma_first_index_of(v: Seq<usize>, x: usize, i: int)
    requires
        0 <= i <= v.len(),
        forall|j: int| 0 <= j < i ==> #[trigger] v[j] != x,
        i < v.len() ==> v[i] == x,
    ensures
        i < v.len() ==> first_index_of(v, x) == Some(i),
        i == v.len() ==> first_index_of(v, x) is None,
    decreases i,
{
    if i > 0 {
        let t = v.drop_first();
        assert forall|j: int| 0 <= j < i - 1 implies #[trigger] t[j] != x by {
            assert(t[j] == v[j + 1]);
        }
        lemma_first_index_of(t, x, i - 1);
    }
}

/// `Iterator::position` of `x` in `v`.
pub fn position_of(v: &Vec<usize>, x: usize) -> (r: Option<usize>)
    ensures
        match first_index_of(v@, x) {
            Some(i) => r == Some(i as usize) && 0 <= i < v@.len(),
            None => r is None,
        },
{
    let mut i: usize = 0;
    while i < v.len()
        invariant
            i <= v@.len(),
            forall|j: int| 0 <= j < i ==> #[trigger] v@[j] != x,
        decreases v.len() - i,
    {
        if v[i] == x {
            proof {
                lemma_first_index_of(v@, x, i as int);
            }
            return Some(i);
        }
        i += 1;
    }
    proof {
        lemma_first_index_of(v@, x, i as int);
    }
    None
}

/// The interface's state: the library context, every panel and the reader
/// (whose rasterized pages have type `T` and terminal images type `P`).
pub struct UiState<T, P> {
    pub ctx: AppContext,
    pub settings_panel: SettingsPanel,
    pub scan_panel: ScanPathPanel,
    pub search_panel: SearchPanel,
    pub goto_panel: GotoPanel,
    pub bookmarks_panel: BookmarksPanel,
    pub notes_panel: NotesPanel,
    pub toc_panel: TocPanel,
    pub reader: ReaderPanel<T, P>,
    pub boot_reader_session: bool,
    pub ignore_next_esc_quit: bool,
}

/// Where the library selection goes when the list changes: to the first
/// listed book unless the selection (0 when out of range) is listed.
pub open spec fn normalized_selection(ctx: AppContext, query: Seq<char>) -> usize {
    let n = ctx.books@.len();
    let v = listed_books(ctx, query);
    if n == 0 {
        0
    } else {
        let s: usize = if ctx.selected >= n {
            0
        } else {
            ctx.selected
        };
        if v.len() == 0 {
            0
        } else if v.contains(s) {
            s
        } else {
            v[0]
        }
    }
}

/// The book the library acts on: the selection (kept within the books) when
/// listed, else the first listed book; none when nothing is listed.
pub open spec fn selected_listed(ctx: AppContext, query: Seq<char>) -> Option<usize> {
    let v = listed_books(ctx, query);
    let n = ctx.books@.len();
    if v.len() == 0 {
        None
    } else {
        let s: usize = if n == 0 {
            0
        } else if ctx.selected > n - 1 {
            (n - 1) as usize
        } else {
            ctx.selected
        };
        if v.contains(s) {
            Some(s)
        } else {
            Some(v[0])
        }
    }
}

/// The selection after moving down the list: the next listed book, or the
/// first listed one when the selection is not listed.
pub open spec fn selection_after_next(ctx: AppContext, query: Seq<char>) -> usize {
    let v = listed_books(ctx, query);
    if v.len() == 0 {
        ctx.selected
    } else {
        match first_index_of(v, ctx.selected) {
            None => v[0],
            Some(p) => if p + 1 < v.len() {
                v[p + 1]
            } else {
                ctx.selected
            },
        }
    }
}

/// The selection after moving up the list.
pub open spec fn selection_after_prev(ctx: AppContext, query: Seq<char>) -> usize {
    let v = listed_books(ctx, query);
    if v.len() == 0 {
        ctx.selected
    } else {
        match first_index_of(v, ctx.selected) {
            None => v[0],
            Some(p) => if p > 0 {
                v[p - 1]
            } else {
                ctx.selected
            },
        }
    }
}

proof fn lemma_first_index_of_found(v: Seq<usize>, x: usize)
    ensures
        match first_index_of(v, x) {
            Some(p) => 0 <= p < v.len() && v[p] == x,
            None => !v.contains(x),
        },
    decreases v.len(),
{
    if v.len() > 0 && v[0] != x {
        lemma_first_index_of_found(v.drop_first(), x);
        if v.contains(x) {
            let k = choose|k: int| 0 <= k < v.len() && v[k] == x;
            assert(v.drop_first()[k - 1] == x);
        }
    }
}

/// In a list of distinct increasing indices, an entry is found at its own
/// position.
proof fn lemma_listed_position(ctx: AppContext, query: Seq<char>, i: int)
    requires
        0 <= i < listed_books(ctx, query).len(),
    ensures
        first_index_of(listed_books(ctx, query), listed_books(ctx, query)[i]) == Some(i),
{
    let v = listed_books(ctx, query);
    assert(ctx.books@.len() == ctx.books.len());
    crate::library::lemma_listed_upto_increasing(ctx, query, ctx.books@.len());
    lemma_first_index_of(v, v[i], i);
}

/// Moving down the list keeps the selection on a listed book: from a listed
/// book it goes to the one listed right after it (staying on the last), and
/// from a book that is not listed to the first listed one.
pub proof fn lemma_next_selection_listed(ctx: AppContext, query: Seq<char>)
    ensures
        ({
            let v = listed_books(ctx, query);
            let r = selection_after_next(ctx, query);
            &&& v.len() > 0 ==> v.contains(r)
            &&& forall|i: int| 0 <= i && i + 1 < v.len() && #[trigger] v[i] == ctx.selected ==> r == v[i + 1]
            &&& v.len() > 0 && v.last() == ctx.selected ==> r == ctx.selected
            &&& v.len() > 0 && !v.contains(ctx.selected) ==> r == v[0]
            &&& v.len() == 0 ==> r == ctx.selected
        }),
{
    let v = listed_books(ctx, query);
    lemma_first_index_of_found(v, ctx.selected);
    assert forall|i: int| 0 <= i && i + 1 < v.len() && #[trigger] v[i] == ctx.selected implies selection_after_next(
        ctx,
        query,
    ) == v[i + 1] by {
        lemma_listed_position(ctx, query, i);
    }
    if v.len() > 0 && v.last() == ctx.selected {
        lemma_listed_position(ctx, query, v.len() - 1);
    }
    if v.len() > 0 {
        assert(v.contains(v[0]));
        match first_index_of(v, ctx.selected) {
            Some(p) => {
                if p + 1 < v.len() {
                    assert(v.contains(v[p + 1]));
                } else {
                    assert(v.contains(v[p]));
                }
            },
            None => {},
        }
    }
}

/// Moving up the list keeps the selection on a listed book: from a listed
/// book it goes to the one listed right before it (staying on the first),
/// and from a book that is not listed to the first listed one.
pub proof fn lemma_prev_selection_listed(ctx: AppContext, query: Seq<char>)
    ensures
        ({
            let v = listed_books(ctx, query);
            let r = selection_after_prev(ctx, query);
            &&& v.len() > 0 ==> v.contains(r)
            &&& forall|i: int| 0 < i < v.len() && #[trigger] v[i] == ctx.selected ==> r == v[i - 1]
            &&& v.len() > 0 && v[0] == ctx.selected ==> r == ctx.selected
            &&& v.len() > 0 && !v.contains(ctx.selected) ==> r == v[0]
            &&& v.len() == 0 ==> r == ctx.selected
        }),
{
    let v = listed_books(ctx, query);
    lemma_first_index_of_found(v, ctx.selected);
    assert forall|i: int| 0 < i < v.len() && #[trigger] v[i] == ctx.selected implies selection_after_prev(
        ctx,
        query,
    ) == v[i - 1] by {
        lemma_listed_position(ctx, query, i);
    }
    if v.len() > 0 && v[0] == ctx.selected {
        lemma_listed_position(ctx, query, 0);
    }
    if v.len() > 0 {
        assert(v.contains(v[0]));
        match first_index_of(v, ctx.selected) {
            Some(p) => {
                if p > 0 {
                    assert(v.contains(v[p - 1]));
                } else {
                    assert(v.contains(v[p]));
                }
            },
            None => {},
        }
    }
}

fn vec_contains(v: &Vec<usize>, x: usize) -> (b: bool)
    ensures
        b == v@.contains(x),
{
    let mut i: usize = 0;
    while i < v.len()
        invariant
            i <= v@.len(),
            forall|j: int| 0 <= j < i ==> v@[j] != x,
        decreases v.len() - i,
    {
        if v[i] == x {
            assert(v@[i as int] == x);
            return true;
        }
        i += 1;
    }
    false
}

/// Equal contexts but for the selection.
pub open spec fn ctx_but_selection(a: AppContext, b: AppContext) -> bool {
    &&& a.settings == b.settings
    &&& a.cwd == b.cwd
    &&& a.books == b.books
    &&& a.library_query == b.library_query
    &&& a.favorites_only == b.favorites_only
    &&& a.collection_filter == b.collection_filter
    &&& a.tag_filters == b.tag_filters
    &&& a.tag_match_mode == b.tag_match_mode
    &&& a.progress_by_path == b.progress_by_path
    &&& a.opened_at_by_path == b.opened_at_by_path
    &&& a.labels_by_path == b.labels_by_path
    &&& a.bookmarks_by_path == b.bookmarks_by_path
    &&& a.notes_by_path == b.notes_by_path
    &&& a.dirty_favorite_paths == b.dirty_favorite_paths
    &&& a.dirty_label_paths == b.dirty_label_paths
    &&& a.dirty_bookmark_paths == b.dirty_bookmark_paths
    &&& a.dirty_note_paths == b.dirty_note_paths
}

impl<T, P> UiState<T, P> {
    /// The panels other than search, and the boot flags, are as in `other`.
    pub open spec fn same_panels(self, other: Self) -> bool {
        &&& self.settings_panel == other.settings_panel
        &&& self.scan_panel == other.scan_panel
        &&& self.goto_panel == other.goto_panel
        &&& self.bookmarks_panel == other.bookmarks_panel
        &&& self.notes_panel == other.notes_panel
        &&& self.toc_panel == other.toc_panel
        &&& self.boot_reader_session == other.boot_reader_session
        &&& self.ignore_next_esc_quit == other.ignore_next_esc_quit
    }

    /// Everything but the library selection is as in `other`.
    pub open spec fn same_but_selection(self, other: Self) -> bool {
        &&& ctx_but_selection(self.ctx, other.ctx)
        &&& self.search_panel == other.search_panel
        &&& self.reader == other.reader
        &&& self.same_panels(other)
    }

    /// The indices of the books the library list shows.
    pub fn visible_indices(&self) -> (r: Vec<usize>)
        ensures
            r@ == listed_books(self.ctx, self.search_panel.query@),
    {
        listed_indices(&self.ctx, self.search_panel.query.as_str())
    }

    /// Moves the selection onto a listed book (see `normalized_selection`).
    pub fn normalize_selection_to_visible(&mut self)
        ensures
            final(self).ctx.selected == normalized_selection(old(self).ctx, old(self).search_panel.query@),
            final(self).same_but_selection(*old(self)),
    {
        if self.ctx.books.len() == 0 {
            self.ctx.selected = 0;
            return;
        }
        let ghost c0 = self.ctx;
        if self.ctx.selected >= self.ctx.books.len() {
            self.ctx.selected = 0;
        }
        let visible = self.visible_indices();
        proof {
            lemma_same_listing(self.ctx, c0, self.search_panel.query@, c0.books@.len());
        }
        if visible.len() == 0 {
            self.ctx.selected = 0;
            return;
        }
        if !vec_contains(&visible, self.ctx.selected) {
            self.ctx.selected = visible[0];
        }
    }

    /// The book the library acts on (see `selected_listed`).
    pub fn selected_visible_index(&self) -> (r: Option<usize>)
        ensures
            r == selected_listed(self.ctx, self.search_panel.query@),
    {
        let visible = self.visible_indices();
        if visible.len() == 0 {
            return None;
        }
        let n = self.ctx.books.len();
        let last = if n == 0 {
            0
        } else {
            n - 1
        };
        let selected = if self.ctx.selected > last {
            last
        } else {
            self.ctx.selected
        };
        if vec_contains(&visible, selected) {
            Some(selected)
        } else {
            Some(visible[0])
        }
    }

    /// Selects the next listed book.
    pub fn select_next_visible(&mut self)
        ensures
            final(self).ctx.selected == selection_after_next(old(self).ctx, old(self).search_panel.query@),
            final(self).same_but_selection(*old(self)),
    {
        let visible = self.visible_indices();
        if visible.len() == 0 {
            return;
        }
        match position_of(&visible, self.ctx.selected) {
            None => {
                self.ctx.selected = visible[0];
            },
            Some(pos) => {
                if pos + 1 < visible.len() {
                    self.ctx.selected = visible[pos + 1];
                }
            },
        }
    }

    /// Selects the previous listed book.
    pub fn select_prev_visible(&mut self)
        ensures
            final(self).ctx.selected == selection_after_prev(old(self).ctx, old(self).search_panel.query@),
            final(self).same_but_selection(*old(self)),
    {
        let visible = self.visible_indices();
        if visible.len() == 0 {
            return;
        }
        match position_of(&visible, self.ctx.selected) {
            None => {
                self.ctx.selected = visible[0];
            },
            Some(pos) => {
                if pos > 0 {
                    self.ctx.selected = visible[pos - 1];
                }
            },
        }
    }
}

impl<T, P> UiState<T, P> {
    /// Opens the book at `idx`, read at `now`, with `total_pages` read from
    /// its file: its last-opened time is set and recorded as changed.
    pub fn open_book_at(&mut self, idx: usize, now: i64, total_pages: Option<u32>)
        requires
            idx < old(self).ctx.books@.len(),
        ensures
            ({
                let b = old(self).ctx.books@[idx as int];
                &&& final(self).ctx.books@.len() == old(self).ctx.books@.len()
                &&& final(self).ctx.books@[idx as int].path@ == b.path@
                &&& final(self).ctx.books@[idx as int].title@ == b.title@
                &&& final(self).ctx.books@[idx as int].favorite == b.favorite
                &&& final(self).ctx.books@[idx as int].last_opened == Some(now)
                &&& forall|j: int| 0 <= j < old(self).ctx.books@.len() && j != idx ==> #[trigger] final(self).ctx.books@[j] == old(self).ctx.books@[j]
                &&& final(self).ctx.opened_at_by_path@ == old(self).ctx.opened_at_by_path@.insert(b.path@, now)
                &&& final(self).reader.open
                &&& opt_view(final(self).reader.book_path) == Some(b.path@)
                &&& opt_view(final(self).reader.book_title) == Some(b.title@)
                &&& final(self).reader.page == opening_page(
                    if old(self).ctx.progress_by_path@.contains_key(b.path@) {
                        Some(old(self).ctx.progress_by_path@[b.path@])
                    } else {
                        None
                    },
                    total_pages,
                )
                &&& final(self).reader.total_pages == total_pages
                &&& final(self).reader.render_cleared()
                &&& final(self).reader.page_image_cache@.len() == 0
            }),
            final(self).ctx.progress_by_path == old(self).ctx.progress_by_path,
            final(self).ctx.selected == old(self).ctx.selected,
            final(self).search_panel == old(self).search_panel,
            final(self).same_panels(*old(self)),
    {
        let b = &self.ctx.books[idx];
        let nb = Book { path: b.path.clone(), title: b.title.clone(), last_opened: Some(now), favorite: b.favorite };
        let path = b.path.clone();
        self.ctx.books.set(idx, nb);
        self.ctx.opened_at_by_path.insert(path, now);
        let book = &self.ctx.books[idx];
        self.reader.open_book(book, &self.ctx, total_pages);
    }

    /// The library list: Esc quits (once ignored after a boot into the
    /// reader), `/` opens the search, `s` the settings, Enter opens the
    /// selected book, Up and Down move the selection.
    pub fn handle_main_key(&mut self, key: KeyPress) -> (a: UiAction)
        ensures
            match key.key {
                Key::Esc => if old(self).boot_reader_session && old(self).ignore_next_esc_quit {
                    a is Nothing && !final(self).ignore_next_esc_quit && final(self).ctx == old(self).ctx
                        && final(self).reader == old(self).reader
                } else {
                    a matches UiAction::Exit(e) && e == UiExit::Quit && *final(self) == *old(self)
                },
                Key::Char('/') => {
                    &&& a is Nothing
                    &&& final(self).search_panel.open
                    &&& final(self).search_panel.query == old(self).search_panel.query
                    &&& final(self).ctx.selected == normalized_selection(old(self).ctx, old(self).search_panel.query@)
                    &&& ctx_but_selection(final(self).ctx, old(self).ctx)
                    &&& final(self).reader == old(self).reader
                    &&& final(self).same_panels(*old(self))
                },
                Key::Char('s') => {
                    &&& a is Nothing
                    &&& final(self).settings_panel.open
                    &&& final(self).settings_panel.selected == 0
                    &&& final(self).ctx == old(self).ctx
                    &&& final(self).reader == old(self).reader
                    &&& final(self).search_panel == old(self).search_panel
                },
                Key::Enter => {
                    &&& *final(self) == *old(self)
                    &&& match selected_listed(old(self).ctx, old(self).search_panel.query@) {
                        Some(i) => a matches UiAction::OpenBook(j) && j == i,
                        None => a is Nothing,
                    }
                },
                Key::Down => a is Nothing && final(self).ctx.selected == selection_after_next(
                    old(self).ctx,
                    old(self).search_panel.query@,
                ) && final(self).same_but_selection(*old(self)),
                Key::Up => a is Nothing && final(self).ctx.selected == selection_after_prev(
                    old(self).ctx,
                    old(self).search_panel.query@,
                ) && final(self).same_but_selection(*old(self)),
                _ => a is Nothing && *final(self) == *old(self),
            },
    {
        match key.key {
            Key::Esc => {
                if self.boot_reader_session && self.ignore_next_esc_quit {
                    self.ignore_next_esc_quit = false;
                    return UiAction::Nothing;
                }
                UiAction::Exit(UiExit::Quit)
            },
            Key::Char('/') => {
                self.search_panel.open = true;
                self.normalize_selection_to_visible();
                UiAction::Nothing
            },
            Key::Char('s') => {
                self.settings_panel.open = true;
                self.settings_panel.selected = 0;
                UiAction::Nothing
            },
            Key::Enter => match self.selected_visible_index() {
                Some(idx) => UiAction::OpenBook(idx),
                None => UiAction::Nothing,
            },
            Key::Down => {
                self.select_next_visible();
                UiAction::Nothing
            },
            Key::Up => {
                self.select_prev_visible();
                UiAction::Nothing
            },
            _ => UiAction::Nothing,
        }
    }

    /// The search box: Esc closes it, Enter opens the selected book and
    /// closes it, typing edits the query (Backspace, Ctrl+u clears) and moves
    /// the selection onto a listed book, Up and Down move the selection.
    pub fn handle_search_panel_key(&mut self, key: KeyPress) -> (a: UiAction)
        ensures
            match key.key {
                Key::Esc => a is Nothing && !final(self).search_panel.open && final(self).search_panel.query
                    == old(self).search_panel.query && final(self).ctx == old(self).ctx && final(self).reader
                    == old(self).reader && final(self).same_panels(*old(self)),
                Key::Enter => match selected_listed(old(self).ctx, old(self).search_panel.query@) {
                    Some(i) => a matches UiAction::OpenBook(j) && j == i && !final(self).search_panel.open
                        && final(self).search_panel.query == old(self).search_panel.query
                        && final(self).ctx == old(self).ctx && final(self).reader == old(self).reader
                        && final(self).same_panels(*old(self)),
                    None => a is Nothing && *final(self) == *old(self),
                },
                Key::Backspace => a is Nothing && edited_query(*old(self), *final(self), popped(old(self).search_panel.query@)),
                Key::Up => a is Nothing && final(self).ctx.selected == selection_after_prev(
                    old(self).ctx,
                    old(self).search_panel.query@,
                ) && final(self).same_but_selection(*old(self)),
                Key::Down => a is Nothing && final(self).ctx.selected == selection_after_next(
                    old(self).ctx,
                    old(self).search_panel.query@,
                ) && final(self).same_but_selection(*old(self)),
                Key::Char(c) => a is Nothing && if c == 'u' && key.ctrl {
                    edited_query(*old(self), *final(self), seq![])
                } else if !is_cc(c) {
                    edited_query(*old(self), *final(self), old(self).search_panel.query@.push(c))
                } else {
                    *final(self) == *old(self)
                },
                _ => a is Nothing && *final(self) == *old(self),
            },
    {
        match key.key {
            Key::Esc => {
                self.search_panel.open = false;
                UiAction::Nothing
            },
            Key::Enter => match self.selected_visible_index() {
                Some(idx) => {
                    self.search_panel.open = false;
                    UiAction::OpenBook(idx)
                },
                None => UiAction::Nothing,
            },
            Key::Backspace => {
                pop_char(&mut self.search_panel.query);
                self.normalize_selection_to_visible();
                UiAction::Nothing
            },
            Key::Up => {
                self.select_prev_visible();
                UiAction::Nothing
            },
            Key::Down => {
                self.select_next_visible();
                UiAction::Nothing
            },
            Key::Char(c) => {
                if c == 'u' && key.ctrl {
                    self.search_panel.query = String::new();
                    self.normalize_selection_to_visible();
                } else if !is_control(c) {
                    push_char(&mut self.search_panel.query, c);
                    self.normalize_selection_to_visible();
                }
                UiAction::Nothing
            },
            _ => UiAction::Nothing,
        }
    }
}

/// The search query of `b` is `q`, the selection moved onto a book listed for
/// it, and nothing else changed from `a`.
pub open spec fn edited_query<T, P>(a: UiState<T, P>, b: UiState<T, P>, q: Seq<char>) -> bool {
    &&& b.search_panel.query@ == q
    &&& b.search_panel.open == a.search_panel.open
    &&& b.ctx.selected == normalized_selection(a.ctx, q)
    &&& ctx_but_selection(b.ctx, a.ctx)
    &&& b.reader == a.reader
    &&& b.same_panels(a)
}

/// The go-to box's message for a page past the end.
pub open spec fn out_of_range_text(total: u32) -> Seq<char> {
    "Page out of range (1..="@ + decimal(total as nat) + ")"@
}

/// The reader's notice after a jump.
pub open spec fn jumped_text(page: u32) -> Seq<char> {
    "jumped to page "@ + decimal(page as nat)
}

fn text_with_number(prefix: &str, n: u32, suffix: &str) -> (s: String)
    ensures
        s@ == prefix@ + decimal(n as nat) + suffix@,
{
    let mut v = chars_of(prefix);
    let d = decimal_string(n as u64);
    extend_chars(&mut v, chars_of(d.as_str()).as_slice());
    extend_chars(&mut v, chars_of(suffix).as_slice());
    string_of(v.as_slice())
}

/// Why Enter in the go-to box does not jump, if it does not: the input is
/// blank, not a page number of at least 1, or past the page count.
pub open spec fn goto_refusal(input: Seq<char>, total: Option<u32>) -> Option<Seq<char>> {
    let t = trim(input);
    if t.len() == 0 {
        Some("Enter a page number"@)
    } else {
        match u32_text(t) {
            Some(p) => if p < 1 {
                Some("Invalid page number"@)
            } else {
                match total {
                    Some(n) => if p > n {
                        Some(out_of_range_text(n))
                    } else {
                        None
                    },
                    None => None,
                }
            },
            None => Some("Invalid page number"@),
        }
    }
}

/// The 1-based page the go-to box jumps to.
pub open spec fn goto_target(input: Seq<char>) -> u32 {
    u32_text(trim(input))->0
}

/// The zero-based page the go-to box lands on: the page typed, minus one.
pub open spec fn goto_page(input: Seq<char>) -> int {
    goto_target(input) - 1
}

/// The go-to box takes exactly the pages of the book: a typed page number
/// `p` is accepted when `1 <= p` and, for a book of known length `t`,
/// `p <= t`; an accepted number lands on page index `p - 1`.
pub proof fn lemma_goto_lands_on_typed_page(p: u32, total: Option<u32>)
    ensures
        goto_refusal(decimal(p as nat), total) is None <==> (p >= 1 && (total matches Some(t) ==> p <= t)),
        goto_page(decimal(p as nat)) == p - 1,
{
    crate::num::lemma_decimal_parses(p);
}

impl<T, P> UiState<T, P> {
    /// Only the go-to box changed from `other`.
    pub open spec fn only_goto_changed(self, other: Self) -> bool {
        &&& self.ctx == other.ctx
        &&& self.reader == other.reader
        &&& self.search_panel == other.search_panel
        &&& self.settings_panel == other.settings_panel
        &&& self.scan_panel == other.scan_panel
        &&& self.bookmarks_panel == other.bookmarks_panel
        &&& self.notes_panel == other.notes_panel
        &&& self.toc_panel == other.toc_panel
        &&& self.boot_reader_session == other.boot_reader_session
        &&& self.ignore_next_esc_quit == other.ignore_next_esc_quit
    }

    /// The go-to box: digits are typed (Backspace, Ctrl+u clears), Esc closes
    /// and clears it, Enter jumps to the page typed or says why it cannot.
    pub fn handle_goto_panel_key(&mut self, key: KeyPress) -> (a: UiAction)
        ensures
            a is Nothing,
            match key.key {
                Key::Esc => !final(self).goto_panel.open && final(self).goto_panel.input@.len() == 0
                    && final(self).goto_panel.error is None && final(self).only_goto_changed(*old(self)),
                Key::Enter => match goto_refusal(old(self).goto_panel.input@, old(self).reader.total_pages) {
                    Some(m) => opt_view(final(self).goto_panel.error) == Some(m)
                        && final(self).goto_panel.open == old(self).goto_panel.open
                        && final(self).goto_panel.input == old(self).goto_panel.input
                        && final(self).only_goto_changed(*old(self)),
                    None => {
                        let p = goto_target(old(self).goto_panel.input@);
                        &&& final(self).reader.page == p - 1
                        &&& final(self).reader.page == goto_page(old(self).goto_panel.input@)
                        &&& opt_view(final(self).reader.notice) == Some(jumped_text(p))
                        &&& final(self).reader.current_text is None
                        &&& final(self).reader.current_image is None
                        &&& final(self).reader.render_key is None
                        &&& final(self).reader.scroll == 0
                        &&& final(self).reader.same_place_but_page(old(self).reader)
                        &&& !final(self).goto_panel.open
                        &&& final(self).goto_panel.error is None
                        &&& final(self).goto_panel.input == old(self).goto_panel.input
                        &&& final(self).ctx == old(self).ctx
                    },
                },
                Key::Backspace => final(self).goto_panel.input@ == popped(old(self).goto_panel.input@)
                    && final(self).goto_panel.open == old(self).goto_panel.open
                    && final(self).goto_panel.error == old(self).goto_panel.error
                    && final(self).only_goto_changed(*old(self)),
                Key::Char(c) => if c == 'u' && key.ctrl {
                    final(self).goto_panel.input@.len() == 0
                        && final(self).goto_panel.open == old(self).goto_panel.open
                        && final(self).goto_panel.error == old(self).goto_panel.error
                        && final(self).only_goto_changed(*old(self))
                } else if '0' <= c <= '9' {
                    final(self).goto_panel.input@ == old(self).goto_panel.input@.push(c)
                        && final(self).goto_panel.open == old(self).goto_panel.open
                        && final(self).goto_panel.error == old(self).goto_panel.error
                        && final(self).only_goto_changed(*old(self))
                } else {
                    *final(self) == *old(self)
                },
                _ => *final(self) == *old(self),
            },
    {
        match key.key {
            Key::Esc => {
                self.goto_panel.open = false;
                self.goto_panel.input = String::new();
                self.goto_panel.error = None;
            },
            Key::Enter => {
                let t = trim_chars(chars_of(self.goto_panel.input.as_str()).as_slice());
                if t.len() == 0 {
                    self.goto_panel.error = Some(string_of(chars_of("Enter a page number").as_slice()));
                    return UiAction::Nothing;
                }
                let ts = string_of(t.as_slice());
                let page = match parse_u32(ts.as_str()) {
                    Some(p) => {
                        if p < 1 {
                            self.goto_panel.error = Some(string_of(chars_of("Invalid page number").as_slice()));
                            return UiAction::Nothing;
                        }
                        p
                    },
                    None => {
                        self.goto_panel.error = Some(string_of(chars_of("Invalid page number").as_slice()));
                        return UiAction::Nothing;
                    },
                };
                if let Some(total) = self.reader.total_pages {
                    if page > total {
                        self.goto_panel.error = Some(text_with_number("Page out of range (1..=", total, ")"));
                        return UiAction::Nothing;
                    }
                }
                self.reader.page = page - 1;
                self.reader.invalidate_render();
                self.reader.notice = Some(text_with_number("jumped to page ", page, ""));
                proof {
                    reveal_strlit("");
                }
                assert(self.reader.notice->0@ =~= jumped_text(page));
                self.goto_panel.open = false;
                self.goto_panel.error = None;
            },
            Key::Backspace => {
                pop_char(&mut self.goto_panel.input);
            },
            Key::Char(c) => {
                if c == 'u' && key.ctrl {
                    self.goto_panel.input = String::new();
                } else if '0' <= c && c <= '9' {
                    push_char(&mut self.goto_panel.input, c);
                }
            },
            _ => {},
        }
        UiAction::Nothing
    }
}

/// The filter of the outline: trimmed, then lowercased.
pub open spec fn toc_query(query: Seq<char>) -> Seq<char> {
    unicode_lower(trim(query))
}

/// The outline entries among the first `n` shown for a lowercased filter.
pub open spec fn toc_listed_upto(items: Seq<TocItem>, q: Seq<char>, n: nat) -> Seq<usize>
    decreases n,
{
    if n == 0 {
        seq![]
    } else {
        let r = toc_listed_upto(items, q, (n - 1) as nat);
        if q.len() == 0 || contains_sub(unicode_lower(items[n - 1].title@), q) {
            r.push((n - 1) as usize)
        } else {
            r
        }
    }
}

/// The indices of the outline entries the panel shows: all of them for a
/// blank filter, else those whose lowercased title contains it.
pub open spec fn toc_listed(items: Seq<TocItem>, query: Seq<char>) -> Seq<usize> {
    toc_listed_upto(items, toc_query(query), items.len())
}

/// The last entry among the first `n` that points at or before `page`
/// (1-based); 0 when none does.
pub open spec fn toc_best_upto(items: Seq<TocItem>, page: u32, n: nat) -> usize
    decreases n,
{
    if n == 0 {
        0
    } else {
        match items[n - 1].page {
            Some(p) => if p <= page {
                (n - 1) as usize
            } else {
                toc_best_upto(items, page, (n - 1) as nat)
            },
            None => toc_best_upto(items, page, (n - 1) as nat),
        }
    }
}

/// The entry of the page being read: the last one at or before it.
pub open spec fn toc_best(items: Seq<TocItem>, page: u32) -> usize {
    toc_best_upto(items, page, items.len())
}

/// Whether outline entry `k` points at or before the 1-based `page`.
pub open spec fn toc_at_or_before(items: Seq<TocItem>, page: u32, k: int) -> bool {
    items[k].page matches Some(p) && p <= page
}

proof fn lemma_toc_best_upto(items: Seq<TocItem>, page: u32, n: nat)
    requires
        n <= items.len(),
        n <= usize::MAX + 1,
    ensures
        ({
            let b = toc_best_upto(items, page, n) as int;
            &&& (exists|k: int| 0 <= k < n && #[trigger] toc_at_or_before(items, page, k)) ==> b < n
                && toc_at_or_before(items, page, b) && forall|k: int|
                b < k < n ==> !#[trigger] toc_at_or_before(items, page, k)
            &&& !(exists|k: int| 0 <= k < n && #[trigger] toc_at_or_before(items, page, k)) ==> b == 0
        }),
    decreases n,
{
    if n > 0 {
        lemma_toc_best_upto(items, page, (n - 1) as nat);
        let m = (n - 1) as int;
        assert(((n - 1) as usize) as int == m);
        if !toc_at_or_before(items, page, m) {
            if exists|k: int| 0 <= k < n && #[trigger] toc_at_or_before(items, page, k) {
                let k = choose|k: int| 0 <= k < n && #[trigger] toc_at_or_before(items, page, k);
                assert(k < m);
            }
        }
    }
}

/// The outline entry of the page being read is the last entry that points
/// at or before that page (entries later in the outline all point after
/// it); with no such entry it is the first entry.
pub proof fn lemma_toc_best_is_last_at_or_before(items: Seq<TocItem>, page: u32)
    requires
        items.len() <= usize::MAX,
    ensures
        ({
            let b = toc_best(items, page) as int;
            &&& (exists|k: int| 0 <= k < items.len() && #[trigger] toc_at_or_before(items, page, k)) ==> b
                < items.len() && toc_at_or_before(items, page, b) && forall|k: int|
                b < k < items.len() ==> !#[trigger] toc_at_or_before(items, page, k)
            &&& !(exists|k: int| 0 <= k < items.len() && #[trigger] toc_at_or_before(items, page, k)) ==> b == 0
        }),
{
    lemma_toc_best_upto(items, page, items.len());
}

/// The outline selection for the page being read: that entry's place among
/// the shown entries, 0 when it is not shown.
pub open spec fn toc_selection(items: Seq<TocItem>, query: Seq<char>, page: u32) -> usize {
    let cur: u32 = if page == u32::MAX {
        u32::MAX
    } else {
        (page + 1) as u32
    };
    match first_index_of(toc_listed(items, query), toc_best(items, cur)) {
        Some(i) => i as usize,
        None => 0,
    }
}

fn toc_listed_indices(items: &Vec<TocItem>, query: &String) -> (r: Vec<usize>)
    ensures
        r@ == toc_listed(items@, query@),
{
    let t = trim_chars(chars_of(query.as_str()).as_slice());
    let ts = string_of(t.as_slice());
    let ql = to_lowercase(ts.as_str());
    let q = chars_of(ql.as_str());
    let mut out: Vec<usize> = Vec::new();
    let mut i: usize = 0;
    while i < items.len()
        invariant
            i <= items@.len(),
            q@ == toc_query(query@),
            out@ == toc_listed_upto(items@, q@, i as nat),
        decreases items.len() - i,
    {
        if q.len() == 0 {
            out.push(i);
        } else {
            let title = to_lowercase(items[i].title.as_str());
            if contains_chars(chars_of(title.as_str()).as_slice(), q.as_slice()) {
                out.push(i);
            }
        }
        i += 1;
    }
    out
}

fn toc_best_index(items: &Vec<TocItem>, page: u32) -> (r: usize)
    ensures
        r == toc_best(items@, page),
{
    let mut best: usize = 0;
    let mut i: usize = 0;
    while i < items.len()
        invariant
            i <= items@.len(),
            best == toc_best_upto(items@, page, i as nat),
        decreases items.len() - i,
    {
        match items[i].page {
            Some(p) => {
                if p <= page {
                    best = i;
                }
            },
            None => {},
        }
        i += 1;
    }
    best
}

impl<T, P> UiState<T, P> {
    /// Only the outline panel and the go-to, bookmark and note panels' `open`
    /// flags may differ from `other`.
    pub open spec fn same_outside_toc(self, other: Self) -> bool {
        &&& self.ctx == other.ctx
        &&& self.reader == other.reader
        &&& self.search_panel == other.search_panel
        &&& self.settings_panel == other.settings_panel
        &&& self.scan_panel == other.scan_panel
        &&& self.boot_reader_session == other.boot_reader_session
        &&& self.ignore_next_esc_quit == other.ignore_next_esc_quit
    }

    /// The indices of the outline entries the panel shows.
    pub fn toc_visible_indices(&self) -> (r: Vec<usize>)
        ensures
            r@ == toc_listed(self.toc_panel.items@, self.toc_panel.query@),
    {
        toc_listed_indices(&self.toc_panel.items, &self.toc_panel.query)
    }

    /// Selects the outline entry of the page being read (see `toc_selection`).
    pub fn select_current_toc_entry(&mut self)
        ensures
            final(self).toc_panel.selected == toc_selection(
                old(self).toc_panel.items@,
                old(self).toc_panel.query@,
                old(self).reader.page,
            ),
            final(self).toc_panel.open == old(self).toc_panel.open,
            final(self).toc_panel.items == old(self).toc_panel.items,
            final(self).toc_panel.query == old(self).toc_panel.query,
            final(self).toc_panel.path == old(self).toc_panel.path,
            final(self).toc_panel.error == old(self).toc_panel.error,
            final(self).goto_panel == old(self).goto_panel,
            final(self).bookmarks_panel == old(self).bookmarks_panel,
            final(self).notes_panel == old(self).notes_panel,
            final(self).same_outside_toc(*old(self)),
    {
        let current = self.reader.page.saturating_add(1);
        let best = toc_best_index(&self.toc_panel.items, current);
        let visible = self.toc_visible_indices();
        self.toc_panel.selected = match position_of(&visible, best) {
            Some(i) => i,
            None => 0,
        };
    }

    /// What opening the outline does (`self` before, `s` after, `a` the
    /// action): the outline opens with a blank filter and the go-to, bookmark
    /// and note panels close, nothing else outside the outline changes.
    /// Without a book the outline is emptied and says `no book`; for a book
    /// whose outline is not loaded it asks for it (`LoadToc` of the open
    /// book); else it selects the entry of the page being read.
    pub open spec fn toc_opened(self, s: Self, a: UiAction) -> bool {
        &&& s.toc_panel.open
        &&& s.toc_panel.query@.len() == 0
        &&& !s.goto_panel.open && s.goto_panel.input == self.goto_panel.input && s.goto_panel.error == self.goto_panel.error
        &&& !s.bookmarks_panel.open && s.bookmarks_panel.selected == self.bookmarks_panel.selected
        &&& !s.notes_panel.open && s.notes_panel.selected == self.notes_panel.selected
            && s.notes_panel.input_open == self.notes_panel.input_open
            && s.notes_panel.input_page == self.notes_panel.input_page
            && s.notes_panel.input == self.notes_panel.input && s.notes_panel.error == self.notes_panel.error
        &&& s.same_outside_toc(self)
        &&& !self.reader.has_book() ==> a is Nothing && s.toc_panel.items@.len() == 0 && s.toc_panel.path is None
            && opt_view(s.toc_panel.error) == Some("no book"@) && s.toc_panel.selected == self.toc_panel.selected
        &&& self.reader.has_book() && opt_view(self.toc_panel.path) != opt_view(self.reader.book_path)
            ==> (a matches UiAction::LoadToc(b) && self.reader.is_open_book(b)) && s.toc_panel.error is None
            && s.toc_panel.items == self.toc_panel.items && s.toc_panel.path == self.toc_panel.path
            && s.toc_panel.selected == self.toc_panel.selected
        &&& self.reader.has_book() && opt_view(self.toc_panel.path) == opt_view(self.reader.book_path)
            ==> a is Nothing && s.toc_panel.error is None && s.toc_panel.items == self.toc_panel.items
            && s.toc_panel.path == self.toc_panel.path
            && s.toc_panel.selected == toc_selection(self.toc_panel.items@, seq![], self.reader.page)
    }

    /// Opens the outline (see `toc_opened`).
    pub fn open_toc_panel(&mut self) -> (a: UiAction)
        ensures
            old(self).toc_opened(*final(self), a),
    {
        self.toc_panel.open = true;
        self.toc_panel.error = None;
        self.toc_panel.query = String::new();
        self.goto_panel.open = false;
        self.bookmarks_panel.open = false;
        self.notes_panel.open = false;
        let book = match self.reader.current_book() {
            Some(b) => b,
            None => {
                self.toc_panel.items = Vec::new();
                self.toc_panel.path = None;
                self.toc_panel.error = Some(string_of(chars_of("no book").as_slice()));
                return UiAction::Nothing;
            },
        };
        let same = match &self.toc_panel.path {
            Some(p) => *p == book.path,
            None => false,
        };
        if !same {
            return UiAction::LoadToc(book);
        }
        self.select_current_toc_entry();
        UiAction::Nothing
    }

    /// Stores the outline read for `path` (or why it could not be read) and
    /// selects the entry of the page being read.
    pub fn finish_toc_load(&mut self, path: String, result: Result<Vec<TocItem>, String>)
        ensures
            opt_view(final(self).toc_panel.path) == Some(path@),
            match result {
                Ok(items) => final(self).toc_panel.items == items && final(self).toc_panel.error is None,
                Err(e) => final(self).toc_panel.items@.len() == 0 && opt_view(final(self).toc_panel.error) == Some(e@),
            },
            final(self).toc_panel.selected == toc_selection(
                final(self).toc_panel.items@,
                old(self).toc_panel.query@,
                old(self).reader.page,
            ),
            final(self).toc_panel.open == old(self).toc_panel.open,
            final(self).toc_panel.query == old(self).toc_panel.query,
            final(self).goto_panel == old(self).goto_panel,
            final(self).bookmarks_panel == old(self).bookmarks_panel,
            final(self).notes_panel == old(self).notes_panel,
            final(self).same_outside_toc(*old(self)),
    {
        match result {
            Ok(items) => {
                self.toc_panel.items = items;
                self.toc_panel.path = Some(path);
                self.toc_panel.error = None;
            },
            Err(e) => {
                self.toc_panel.items = Vec::new();
                self.toc_panel.path = Some(path);
                self.toc_panel.error = Some(e);
            },
        }
        self.select_current_toc_entry();
    }

    /// The outline panel: Esc closes it, Up and Down move within the shown
    /// entries, Enter jumps to the selected entry's page, typing edits the
    /// filter (Backspace, Ctrl+u clears) and selects the first entry.
    pub fn handle_toc_panel_key(&mut self, key: KeyPress) -> (a: UiAction)
        requires
            key.key is Down ==> old(self).toc_panel.selected < usize::MAX,
        ensures
            a is Nothing,
            ({
                let v = toc_listed(old(self).toc_panel.items@, old(self).toc_panel.query@);
                match key.key {
                    Key::Esc => !final(self).toc_panel.open && final(self).toc_panel.selected == old(self).toc_panel.selected
                        && final(self).toc_panel.query == old(self).toc_panel.query && final(self).reader == old(self).reader,
                    Key::Up => final(self).toc_panel.selected == (if old(self).toc_panel.selected == 0 {
                        0
                    } else {
                        (old(self).toc_panel.selected - 1) as usize
                    }) && final(self).toc_panel.open == old(self).toc_panel.open && final(self).reader == old(self).reader,
                    Key::Down => final(self).toc_panel.selected == (if v.len() == 0 {
                        old(self).toc_panel.selected as int
                    } else if old(self).toc_panel.selected + 1 < v.len() - 1 {
                        old(self).toc_panel.selected + 1
                    } else {
                        v.len() - 1
                    }) && final(self).toc_panel.open == old(self).toc_panel.open && final(self).reader == old(self).reader,
                    Key::Enter => if old(self).toc_panel.selected < v.len() {
                        match old(self).toc_panel.items@[v[old(self).toc_panel.selected as int] as int].page {
                            Some(p) => final(self).reader.page == (if p == 0 {
                                0
                            } else {
                                (p - 1) as u32
                            }) && final(self).reader.render_cleared() && final(self).reader.same_place_but_page(old(self).reader)
                                && !final(self).toc_panel.open,
                            None => opt_view(final(self).reader.notice) == Some("TOC entry has no page"@)
                                && final(self).reader.page == old(self).reader.page
                                && final(self).toc_panel.open == old(self).toc_panel.open,
                        }
                    } else {
                        *final(self) == *old(self)
                    },
                    Key::Backspace => final(self).toc_panel.query@ == popped(old(self).toc_panel.query@)
                        && final(self).toc_panel.selected == 0 && final(self).reader == old(self).reader,
                    Key::Char(c) => if c == 'u' && key.ctrl {
                        final(self).toc_panel.query@.len() == 0 && final(self).toc_panel.selected == 0
                            && final(self).reader == old(self).reader
                    } else if !is_cc(c) {
                        final(self).toc_panel.query@ == old(self).toc_panel.query@.push(c)
                            && final(self).toc_panel.selected == 0 && final(self).reader == old(self).reader
                    } else {
                        *final(self) == *old(self)
                    },
                    _ => *final(self) == *old(self),
                }
            }),
            final(self).ctx == old(self).ctx,
            final(self).toc_panel.items == old(self).toc_panel.items,
            final(self).toc_panel.path == old(self).toc_panel.path,
            final(self).goto_panel == old(self).goto_panel,
            final(self).bookmarks_panel == old(self).bookmarks_panel,
            final(self).notes_panel == old(self).notes_panel,
            final(self).search_panel == old(self).search_panel,
            final(self).settings_panel == old(self).settings_panel,
            final(self).scan_panel == old(self).scan_panel,
    {
        let visible = self.toc_visible_indices();
        match key.key {
            Key::Esc => {
                self.toc_panel.open = false;
            },
            Key::Up => {
                self.toc_panel.selected = self.toc_panel.selected.saturating_sub(1);
            },
            Key::Down => {
                let len = visible.len();
                if len > 0 {
                    let next = self.toc_panel.selected + 1;
                    self.toc_panel.selected = if next < len - 1 {
                        next
                    } else {
                        len - 1
                    };
                }
            },
            Key::Enter => {
                if self.toc_panel.selected >= visible.len() {
                    return UiAction::Nothing;
                }
                let item_idx = visible[self.toc_panel.selected];
                assert(toc_listed_upto(self.toc_panel.items@, toc_query(self.toc_panel.query@), self.toc_panel.items@.len()) == visible@);
                proof {
                    lemma_toc_listed_bounds(self.toc_panel.items@, toc_query(self.toc_panel.query@), self.toc_panel.items@.len());
                }
                let page = self.toc_panel.items[item_idx].page;
                match page {
                    Some(p) => {
                        self.reader.page = p.saturating_sub(1);
                        self.reader.invalidate_render();
                        self.toc_panel.open = false;
                    },
                    None => {
                        self.reader.notice = Some(string_of(chars_of("TOC entry has no page").as_slice()));
                    },
                }
            },
            Key::Backspace => {
                pop_char(&mut self.toc_panel.query);
                self.toc_panel.selected = 0;
            },
            Key::Char(c) => {
                if c == 'u' && key.ctrl {
                    self.toc_panel.query = String::new();
                    self.toc_panel.selected = 0;
                } else if !is_control(c) {
                    push_char(&mut self.toc_panel.query, c);
                    self.toc_panel.selected = 0;
                }
            },
            _ => {},
        }
        UiAction::Nothing
    }
}

pub(crate) proof fn lemma_toc_listed_bounds(items: Seq<TocItem>, q: Seq<char>, n: nat)
    requires
        n <= items.len(),
    ensures
        forall|i: int| 0 <= i < toc_listed_upto(items, q, n).len() ==> #[trigger] toc_listed_upto(items, q, n)[i] < n,
    decreases n,
{
    if n > 0 {
        lemma_toc_listed_bounds(items, q, (n - 1) as nat);
        let r = toc_listed_upto(items, q, (n - 1) as nat);
        assert forall|i: int| 0 <= i < toc_listed_upto(items, q, n).len() implies #[trigger] toc_listed_upto(items, q, n)[i] < n by {
            if i < r.len() {
                assert(toc_listed_upto(items, q, n)[i] == r[i]);
            }
        }
    }
}

/// The bookmarks of the open book (none when no book is open).
pub open spec fn open_bookmarks(ctx: AppContext, path: Option<String>) -> Seq<Bookmark> {
    match path {
        Some(p) => if ctx.bookmarks_by_path@.contains_key(p@) {
            ctx.bookmarks_by_path@[p@]@
        } else {
            seq![]
        },
        None => seq![],
    }
}

/// The notes of the open book (none when no book is open).
pub open spec fn open_notes(ctx: AppContext, path: Option<String>) -> Seq<Note> {
    match path {
        Some(p) => if ctx.notes_by_path@.contains_key(p@) {
            ctx.notes_by_path@[p@]@
        } else {
            seq![]
        },
        None => seq![],
    }
}

/// Index of the first `m` in `s`.
pub open spec fn first_mark_index(s: Seq<Mark>, m: Mark) -> Option<int>
    decreases s.len(),
{
    if s.len() == 0 {
        None
    } else if s[0] == m {
        Some(0)
    } else {
        match first_mark_index(s.drop_first(), m) {
            Some(i) => Some(i + 1),
            None => None,
        }
    }
}

proof fn lemma_first_mark_index(s: Seq<Mark>, m: Mark, i: int)
    requires
        0 <= i <= s.len(),
        forall|j: int| 0 <= j < i ==> #[trigger] s[j] != m,
        i < s.len() ==> s[i] == m,
    ensures
        i < s.len() ==> first_mark_index(s, m) == Some(i),
        i == s.len() ==> first_mark_index(s, m) is None,
    decreases i,
{
    if i > 0 {
        let t = s.drop_first();
        assert forall|j: int| 0 <= j < i - 1 implies #[trigger] t[j] != m by {
            assert(t[j] == s[j + 1]);
        }
        lemma_first_mark_index(t, m, i - 1);
    }
}

/// The selection after a deletion: kept, but within the shortened list.
pub open spec fn kept_selection(selected: usize, len: int) -> usize {
    if len == 0 {
        0
    } else if selected < len - 1 {
        selected
    } else {
        (len - 1) as usize
    }
}

/// The selection after moving down a list of `len` entries.
pub open spec fn selection_down(selected: usize, len: int) -> usize {
    if len == 0 {
        selected
    } else if selected + 1 < len - 1 {
        (selected + 1) as usize
    } else {
        (len - 1) as usize
    }
}

pub open spec fn selection_up(selected: usize) -> usize {
    if selected == 0 {
        0
    } else {
        (selected - 1) as usize
    }
}

/// The reader's notice after adding a bookmark.
pub open spec fn bookmarked_text(page: u32) -> Seq<char> {
    "bookmarked page "@ + decimal(page as nat)
}

pub open spec fn next_page_number(page: u32) -> u32 {
    if page == u32::MAX {
        u32::MAX
    } else {
        (page + 1) as u32
    }
}

/// Leaving the reader saves the 1-based number of the page shown, and opening
/// the book again with that saved page returns to the same page index.
pub proof fn lemma_reopen_returns_to_page(page: u32, total: Option<u32>)
    requires
        match total {
            Some(t) => page < t,
            None => page < u32::MAX,
        },
    ensures
        opening_page(Some(next_page_number(page)), total) == page,
{
}

fn find_mark(list: &Vec<Bookmark>, page: u32) -> (r: Option<usize>)
    ensures
        match first_mark_index(bookmark_marks(list@), (page, seq![])) {
            Some(i) => r == Some(i as usize),
            None => r is None,
        },
{
    let ghost ms = bookmark_marks(list@);
    let mut i: usize = 0;
    while i < list.len()
        invariant
            i <= list@.len(),
            ms == bookmark_marks(list@),
            forall|j: int| 0 <= j < i ==> #[trigger] ms[j] != (page, Seq::<char>::empty()),
        decreases list.len() - i,
    {
        if list[i].page == page && list[i].label.as_str().is_empty() {
            assert(ms[i as int] =~= (page, Seq::<char>::empty()));
            proof {
                lemma_first_mark_index(ms, (page, seq![]), i as int);
            }
            return Some(i);
        }
        assert(ms[i as int] != (page, Seq::<char>::empty())) by {
            if ms[i as int] == (page, Seq::<char>::empty()) {
                assert(list@[i as int].label@.len() == 0);
            }
        }
        i += 1;
    }
    proof {
        lemma_first_mark_index(ms, (page, seq![]), i as int);
    }
    None
}

impl<T, P> UiState<T, P> {
    /// Unchanged from `other`: every panel but bookmarks and notes, the boot
    /// flags, and the context but for bookmarks, notes and their change sets.
    pub open spec fn frame_marks(self, other: Self) -> bool {
        &&& self.search_panel == other.search_panel
        &&& self.settings_panel == other.settings_panel
        &&& self.scan_panel == other.scan_panel
        &&& self.goto_panel == other.goto_panel
        &&& self.toc_panel == other.toc_panel
        &&& self.boot_reader_session == other.boot_reader_session
        &&& self.ignore_next_esc_quit == other.ignore_next_esc_quit
        &&& self.ctx.settings == other.ctx.settings
        &&& self.ctx.books == other.ctx.books
        &&& self.ctx.selected == other.ctx.selected
        &&& self.ctx.progress_by_path == other.ctx.progress_by_path
        &&& self.ctx.opened_at_by_path == other.ctx.opened_at_by_path
        &&& self.ctx.labels_by_path == other.ctx.labels_by_path
        &&& self.ctx.dirty_favorite_paths == other.ctx.dirty_favorite_paths
        &&& self.ctx.dirty_label_paths == other.ctx.dirty_label_paths
    }

    /// Number of bookmarks of the open book.
    pub fn bookmark_count(&self) -> (n: usize)
        ensures
            n == open_bookmarks(self.ctx, self.reader.book_path).len(),
    {
        match &self.reader.book_path {
            Some(p) => match self.ctx.bookmarks_by_path.get(p) {
                Some(v) => v.len(),
                None => 0,
            },
            None => 0,
        }
    }

    /// Number of notes of the open book.
    pub fn note_count(&self) -> (n: usize)
        ensures
            n == open_notes(self.ctx, self.reader.book_path).len(),
    {
        match &self.reader.book_path {
            Some(p) => match self.ctx.notes_by_path.get(p) {
                Some(v) => v.len(),
                None => 0,
            },
            None => 0,
        }
    }

    /// The bookmark list: Esc closes it, Up and Down move, Enter jumps to the
    /// selected bookmark, `a` bookmarks the page being read (once), `d`
    /// deletes the selected bookmark. A change is recorded for saving.
    pub fn handle_bookmarks_panel_key(&mut self, key: KeyPress) -> (a: UiAction)
        requires
            key.key is Down ==> old(self).bookmarks_panel.selected < usize::MAX,
        ensures
            a is Nothing,
            final(self).frame_marks(*old(self)),
            final(self).notes_panel == old(self).notes_panel,
            final(self).ctx.notes_by_path == old(self).ctx.notes_by_path,
            final(self).ctx.dirty_note_paths == old(self).ctx.dirty_note_paths,
            ({
                let l = open_bookmarks(old(self).ctx, old(self).reader.book_path);
                let sel = old(self).bookmarks_panel.selected;
                match key.key {
                    Key::Esc => !final(self).bookmarks_panel.open && final(self).bookmarks_panel.selected == sel
                        && final(self).ctx == old(self).ctx && final(self).reader == old(self).reader,
                    Key::Up => final(self).bookmarks_panel.selected == selection_up(sel)
                        && final(self).bookmarks_panel.open == old(self).bookmarks_panel.open
                        && final(self).ctx == old(self).ctx && final(self).reader == old(self).reader,
                    Key::Down => final(self).bookmarks_panel.selected == selection_down(sel, l.len() as int)
                        && final(self).bookmarks_panel.open == old(self).bookmarks_panel.open
                        && final(self).ctx == old(self).ctx && final(self).reader == old(self).reader,
                    Key::Enter => if sel < l.len() {
                        &&& final(self).reader.page == (if l[sel as int].page == 0 {
                            0
                        } else {
                            (l[sel as int].page - 1) as u32
                        })
                        &&& final(self).reader.render_cleared()
                        &&& final(self).reader.same_place_but_page(old(self).reader)
                        &&& !final(self).bookmarks_panel.open
                        &&& final(self).ctx == old(self).ctx
                    } else {
                        *final(self) == *old(self)
                    },
                    Key::Char('a') => match old(self).reader.book_path {
                        None => *final(self) == *old(self),
                        Some(p) => {
                            let page = next_page_number(old(self).reader.page);
                            let m: Mark = (page, seq![]);
                            &&& final(self).ctx.bookmarks_by_path@.contains_key(p@)
                            &&& bookmark_marks(final(self).ctx.bookmarks_by_path@[p@]@) == with_mark(bookmark_marks(l), m)
                            &&& final(self).ctx.bookmarks_by_path@.remove(p@) == old(self).ctx.bookmarks_by_path@.remove(p@)
                            &&& if bookmark_marks(l).contains(m) {
                                &&& bookmark_marks(final(self).ctx.bookmarks_by_path@[p@]@) == bookmark_marks(l)
                                &&& final(self).ctx.dirty_bookmark_paths == old(self).ctx.dirty_bookmark_paths
                                &&& final(self).reader == old(self).reader
                                &&& final(self).bookmarks_panel == old(self).bookmarks_panel
                            } else {
                                let nl = sorted_marks(bookmark_marks(l).push(m));
                                &&& bookmark_marks(final(self).ctx.bookmarks_by_path@[p@]@) == nl
                                &&& final(self).ctx.dirty_bookmark_paths@ == old(self).ctx.dirty_bookmark_paths@.insert(p@)
                                &&& opt_view(final(self).reader.notice) == Some(bookmarked_text(page))
                                &&& final(self).reader.page == old(self).reader.page
                                &&& final(self).reader.book_path == old(self).reader.book_path
                                &&& final(self).bookmarks_panel.selected == match first_mark_index(nl, m) {
                                    Some(i) => i as usize,
                                    None => 0,
                                }
                                &&& final(self).bookmarks_panel.open == old(self).bookmarks_panel.open
                            }
                        },
                    },
                    Key::Char('d') => match old(self).reader.book_path {
                        None => *final(self) == *old(self),
                        Some(p) => {
                            &&& final(self).ctx.bookmarks_by_path@.contains_key(p@)
                            &&& final(self).ctx.bookmarks_by_path@.remove(p@) == old(self).ctx.bookmarks_by_path@.remove(p@)
                            &&& final(self).reader == old(self).reader
                            &&& final(self).bookmarks_panel.open == old(self).bookmarks_panel.open
                            &&& if sel < l.len() {
                                let nl = sorted_marks(bookmark_marks(l).remove(sel as int));
                                &&& bookmark_marks(final(self).ctx.bookmarks_by_path@[p@]@) == nl
                                &&& final(self).ctx.dirty_bookmark_paths@ == old(self).ctx.dirty_bookmark_paths@.insert(p@)
                                &&& final(self).bookmarks_panel.selected == kept_selection(sel, nl.len() as int)
                            } else {
                                &&& bookmark_marks(final(self).ctx.bookmarks_by_path@[p@]@) == bookmark_marks(l)
                                &&& final(self).ctx.dirty_bookmark_paths == old(self).ctx.dirty_bookmark_paths
                                &&& final(self).bookmarks_panel.selected == sel
                            }
                        },
                    },
                    _ => *final(self) == *old(self),
                }
            }),
    {
        match key.key {
            Key::Esc => {
                self.bookmarks_panel.open = false;
            },
            Key::Up => {
                self.bookmarks_panel.selected = self.bookmarks_panel.selected.saturating_sub(1);
            },
            Key::Down => {
                let len = self.bookmark_count();
                if len > 0 {
                    let next = self.bookmarks_panel.selected + 1;
                    self.bookmarks_panel.selected = if next < len - 1 {
                        next
                    } else {
                        len - 1
                    };
                }
            },
            Key::Enter => {
                let page = match &self.reader.book_path {
                    Some(p) => match self.ctx.bookmarks_by_path.get(p) {
                        Some(v) => if self.bookmarks_panel.selected < v.len() {
                            Some(v[self.bookmarks_panel.selected].page)
                        } else {
                            None
                        },
                        None => None,
                    },
                    None => None,
                };
                if let Some(p) = page {
                    self.reader.page = p.saturating_sub(1);
                    self.reader.invalidate_render();
                    self.bookmarks_panel.open = false;
                }
            },
            Key::Char('a') => {
                let path = match &self.reader.book_path {
                    Some(p) => p.clone(),
                    None => {
                        return UiAction::Nothing;
                    },
                };
                let page = self.reader.page.saturating_add(1);
                let ghost l = open_bookmarks(self.ctx, self.reader.book_path);
                let mut list: Vec<Bookmark> = match self.ctx.bookmarks_by_path.take(&path) {
                    Some(v) => v,
                    None => Vec::new(),
                };
                assert(list@ == l);
                match find_mark(&list, page) {
                    Some(_) => {
                        proof {
                            let i = first_mark_index(bookmark_marks(l), (page, seq![]))->0;
                            lemma_first_mark_some(bookmark_marks(l), (page, seq![]));
                        }
                    },
                    None => {
                        proof {
                            lemma_first_mark_none(bookmark_marks(l), (page, seq![]));
                        }
                        let ghost before = list@;
                        list.push(Bookmark { page, label: String::new() });
                        assert(bookmark_marks(list@) =~= bookmark_marks(before).push((page, Seq::<char>::empty())));
                        list = sort_bookmarks(list);
                        self.ctx.dirty_bookmark_paths.insert(path.clone());
                        self.reader.notice = Some(text_with_number("bookmarked page ", page, ""));
                        proof {
                            reveal_strlit("");
                        }
                        assert(self.reader.notice->0@ =~= bookmarked_text(page));
                        self.bookmarks_panel.selected = match find_mark(&list, page) {
                            Some(i) => i,
                            None => 0,
                        };
                    },
                }
                self.ctx.bookmarks_by_path.insert(path, list);
                assert(self.ctx.bookmarks_by_path@.remove(self.reader.book_path->0@) =~= old(self).ctx.bookmarks_by_path@.remove(self.reader.book_path->0@));
            },
            Key::Char('d') => {
                let path = match &self.reader.book_path {
                    Some(p) => p.clone(),
                    None => {
                        return UiAction::Nothing;
                    },
                };
                let ghost l = open_bookmarks(self.ctx, self.reader.book_path);
                let mut list: Vec<Bookmark> = match self.ctx.bookmarks_by_path.take(&path) {
                    Some(v) => v,
                    None => Vec::new(),
                };
                assert(list@ == l);
                let sel = self.bookmarks_panel.selected;
                if sel < list.len() {
                    let ghost before = list@;
                    let _ = list.remove(sel);
                    assert(bookmark_marks(list@) =~= bookmark_marks(before).remove(sel as int));
                    list = sort_bookmarks(list);
                    self.ctx.dirty_bookmark_paths.insert(path.clone());
                    let n = list.len();
                    self.bookmarks_panel.selected = if n == 0 {
                        0
                    } else if sel < n - 1 {
                        sel
                    } else {
                        n - 1
                    };
                }
                self.ctx.bookmarks_by_path.insert(path, list);
                assert(self.ctx.bookmarks_by_path@.remove(self.reader.book_path->0@) =~= old(self).ctx.bookmarks_by_path@.remove(self.reader.book_path->0@));
            },
            _ => {},
        }
        UiAction::Nothing
    }
}

proof fn lemma_first_mark_some(s: Seq<Mark>, m: Mark)
    requires
        first_mark_index(s, m) is Some,
    ensures
        s.contains(m),
    decreases s.len(),
{
    if s[0] != m {
        lemma_first_mark_some(s.drop_first(), m);
        let j = choose|j: int| 0 <= j < s.drop_first().len() && s.drop_first()[j] == m;
        assert(s[j + 1] == m);
    }
}

proof fn lemma_first_mark_none(s: Seq<Mark>, m: Mark)
    requires
        first_mark_index(s, m) is None,
    ensures
        !s.contains(m),
    decreases s.len(),
{
    if s.len() > 0 {
        lemma_first_mark_none(s.drop_first(), m);
        if s.contains(m) {
            let j = choose|j: int| 0 <= j < s.len() && s[j] == m;
            if j > 0 {
                assert(s.drop_first()[j - 1] == m);
            }
        }
    }
}

impl<T, P> UiState<T, P> {
    /// The note list, or the note box when it is open: Esc closes, Up and
    /// Down move, Enter jumps to the selected note, `a` opens the box for the
    /// page being read, `d` deletes the selected note.
    pub fn handle_notes_panel_key(&mut self, key: KeyPress) -> (a: UiAction)
        requires
            key.key is Down ==> old(self).notes_panel.selected < usize::MAX,
        ensures
            a is Nothing,
            final(self).frame_marks(*old(self)),
            final(self).bookmarks_panel == old(self).bookmarks_panel,
            final(self).ctx.bookmarks_by_path == old(self).ctx.bookmarks_by_path,
            final(self).ctx.dirty_bookmark_paths == old(self).ctx.dirty_bookmark_paths,
            old(self).notes_panel.input_open ==> notes_input_step(*old(self), *final(self), key),
            !old(self).notes_panel.input_open ==> ({
                let l = open_notes(old(self).ctx, old(self).reader.book_path);
                let sel = old(self).notes_panel.selected;
                match key.key {
                    Key::Esc => !final(self).notes_panel.open && final(self).notes_panel.error is None
                        && final(self).notes_panel.selected == sel && final(self).notes_panel.input_open
                        == old(self).notes_panel.input_open && final(self).ctx == old(self).ctx
                        && final(self).reader == old(self).reader,
                    Key::Up => final(self).notes_panel.selected == selection_up(sel)
                        && final(self).notes_panel.open == old(self).notes_panel.open
                        && final(self).notes_panel.error == old(self).notes_panel.error
                        && final(self).ctx == old(self).ctx && final(self).reader == old(self).reader,
                    Key::Down => final(self).notes_panel.selected == selection_down(sel, l.len() as int)
                        && final(self).notes_panel.open == old(self).notes_panel.open
                        && final(self).notes_panel.error == old(self).notes_panel.error
                        && final(self).ctx == old(self).ctx && final(self).reader == old(self).reader,
                    Key::Enter => if sel < l.len() {
                        &&& final(self).reader.page == (if l[sel as int].page == 0 {
                            0
                        } else {
                            (l[sel as int].page - 1) as u32
                        })
                        &&& final(self).reader.render_cleared()
                        &&& final(self).reader.same_place_but_page(old(self).reader)
                        &&& !final(self).notes_panel.open
                        &&& final(self).ctx == old(self).ctx
                    } else {
                        *final(self) == *old(self)
                    },
                    Key::Char('a') => {
                        &&& final(self).notes_panel.input_open
                        &&& final(self).notes_panel.input_page == next_page_number(old(self).reader.page)
                        &&& final(self).notes_panel.input@.len() == 0
                        &&& final(self).notes_panel.error is None
                        &&& final(self).notes_panel.open == old(self).notes_panel.open
                        &&& final(self).notes_panel.selected == sel
                        &&& final(self).ctx == old(self).ctx
                        &&& final(self).reader == old(self).reader
                    },
                    Key::Char('d') => match old(self).reader.book_path {
                        None => *final(self) == *old(self),
                        Some(p) => {
                            &&& final(self).ctx.notes_by_path@.contains_key(p@)
                            &&& final(self).ctx.notes_by_path@.remove(p@) == old(self).ctx.notes_by_path@.remove(p@)
                            &&& final(self).reader == old(self).reader
                            &&& final(self).notes_panel.open == old(self).notes_panel.open
                            &&& final(self).notes_panel.input_open == old(self).notes_panel.input_open
                            &&& if sel < l.len() {
                                let nl = sorted_marks(note_marks(l).remove(sel as int));
                                &&& note_marks(final(self).ctx.notes_by_path@[p@]@) == nl
                                &&& final(self).ctx.dirty_note_paths@ == old(self).ctx.dirty_note_paths@.insert(p@)
                                &&& final(self).notes_panel.selected == kept_selection(sel, nl.len() as int)
                            } else {
                                &&& note_marks(final(self).ctx.notes_by_path@[p@]@) == note_marks(l)
                                &&& final(self).ctx.dirty_note_paths == old(self).ctx.dirty_note_paths
                                &&& final(self).notes_panel.selected == sel
                            }
                        },
                    },
                    _ => *final(self) == *old(self),
                }
            }),
    {
        if self.notes_panel.input_open {
            return self.handle_notes_input_key(key);
        }
        match key.key {
            Key::Esc => {
                self.notes_panel.open = false;
                self.notes_panel.error = None;
            },
            Key::Up => {
                self.notes_panel.selected = self.notes_panel.selected.saturating_sub(1);
            },
            Key::Down => {
                let len = self.note_count();
                if len > 0 {
                    let next = self.notes_panel.selected + 1;
                    self.notes_panel.selected = if next < len - 1 {
                        next
                    } else {
                        len - 1
                    };
                }
            },
            Key::Enter => {
                let page = match &self.reader.book_path {
                    Some(p) => match self.ctx.notes_by_path.get(p) {
                        Some(v) => if self.notes_panel.selected < v.len() {
                            Some(v[self.notes_panel.selected].page)
                        } else {
                            None
                        },
                        None => None,
                    },
                    None => None,
                };
                if let Some(p) = page {
                    self.reader.page = p.saturating_sub(1);
                    self.reader.invalidate_render();
                    self.notes_panel.open = false;
                }
            },
            Key::Char('a') => {
                self.notes_panel.input_open = true;
                self.notes_panel.input_page = self.reader.page.saturating_add(1);
                self.notes_panel.input = String::new();
                self.notes_panel.error = None;
            },
            Key::Char('d') => {
                let path = match &self.reader.book_path {
                    Some(p) => p.clone(),
                    None => {
                        return UiAction::Nothing;
                    },
                };
                let ghost l = open_notes(self.ctx, self.reader.book_path);
                let mut list: Vec<Note> = match self.ctx.notes_by_path.take(&path) {
                    Some(v) => v,
                    None => Vec::new(),
                };
                assert(list@ == l);
                let sel = self.notes_panel.selected;
                if sel < list.len() {
                    let ghost before = list@;
                    let _ = list.remove(sel);
                    assert(note_marks(list@) =~= note_marks(before).remove(sel as int));
                    list = sort_notes(list);
                    self.ctx.dirty_note_paths.insert(path.clone());
                    let n = list.len();
                    self.notes_panel.selected = if n == 0 {
                        0
                    } else if sel < n - 1 {
                        sel
                    } else {
                        n - 1
                    };
                }
                self.ctx.notes_by_path.insert(path, list);
                assert(self.ctx.notes_by_path@.remove(self.reader.book_path->0@) =~= old(self).ctx.notes_by_path@.remove(self.reader.book_path->0@));
            },
            _ => {},
        }
        UiAction::Nothing
    }

    /// The note box: Esc closes and clears it, Enter adds the trimmed note
    /// (refused when blank) for its page, typing edits it.
    pub fn handle_notes_input_key(&mut self, key: KeyPress) -> (a: UiAction)
        ensures
            a is Nothing,
            notes_input_step(*old(self), *final(self), key),
            final(self).frame_marks(*old(self)),
            final(self).bookmarks_panel == old(self).bookmarks_panel,
            final(self).ctx.bookmarks_by_path == old(self).ctx.bookmarks_by_path,
            final(self).ctx.dirty_bookmark_paths == old(self).ctx.dirty_bookmark_paths,
    {
        match key.key {
            Key::Esc => {
                self.notes_panel.input_open = false;
                self.notes_panel.input = String::new();
                self.notes_panel.error = None;
            },
            Key::Enter => {
                let body = string_of(trim_chars(chars_of(self.notes_panel.input.as_str()).as_slice()).as_slice());
                if body.as_str().is_empty() {
                    self.notes_panel.error = Some(string_of(chars_of("Note cannot be empty").as_slice()));
                    return UiAction::Nothing;
                }
                let path = match &self.reader.book_path {
                    Some(p) => p.clone(),
                    None => {
                        return UiAction::Nothing;
                    },
                };
                let page = if self.notes_panel.input_page < 1 {
                    1
                } else {
                    self.notes_panel.input_page
                };
                let ghost l = open_notes(self.ctx, self.reader.book_path);
                let mut list: Vec<Note> = match self.ctx.notes_by_path.take(&path) {
                    Some(v) => v,
                    None => Vec::new(),
                };
                assert(list@ == l);
                let ghost before = list@;
                let ghost bv = body@;
                list.push(Note { page, body });
                assert(note_marks(list@) =~= note_marks(before).push((page, bv)));
                list = sort_notes(list);
                self.ctx.dirty_note_paths.insert(path.clone());
                self.ctx.notes_by_path.insert(path, list);
                assert(self.ctx.notes_by_path@.remove(self.reader.book_path->0@) =~= old(self).ctx.notes_by_path@.remove(self.reader.book_path->0@));
                self.notes_panel.input_open = false;
                self.notes_panel.input = String::new();
                self.notes_panel.error = None;
            },
            Key::Backspace => {
                pop_char(&mut self.notes_panel.input);
            },
            Key::Char(c) => {
                if !is_control(c) {
                    push_char(&mut self.notes_panel.input, c);
                }
            },
            _ => {},
        }
        UiAction::Nothing
    }
}

/// One key in the note box, from `a` to `b`.
pub open spec fn notes_input_step<T, P>(a: UiState<T, P>, b: UiState<T, P>, key: KeyPress) -> bool {
    let np = a.notes_panel;
    let nb = b.notes_panel;
    match key.key {
        Key::Esc => !nb.input_open && nb.input@.len() == 0 && nb.error is None && nb.open == np.open
            && nb.selected == np.selected && nb.input_page == np.input_page && b.ctx == a.ctx && b.reader == a.reader,
        Key::Enter => {
            let body = trim(np.input@);
            if body.len() == 0 {
                opt_view(nb.error) == Some("Note cannot be empty"@) && nb.input == np.input && nb.input_open
                    == np.input_open && nb.open == np.open && nb.selected == np.selected && b.ctx == a.ctx
                    && b.reader == a.reader
            } else {
                match a.reader.book_path {
                    None => b == a,
                    Some(p) => {
                        let page: u32 = if np.input_page < 1 {
                            1
                        } else {
                            np.input_page
                        };
                        &&& b.ctx.notes_by_path@.contains_key(p@)
                        &&& note_marks(b.ctx.notes_by_path@[p@]@) == sorted_marks(
                            note_marks(open_notes(a.ctx, a.reader.book_path)).push((page, body)),
                        )
                        &&& b.ctx.notes_by_path@.remove(p@) == a.ctx.notes_by_path@.remove(p@)
                        &&& b.ctx.dirty_note_paths@ == a.ctx.dirty_note_paths@.insert(p@)
                        &&& !nb.input_open
                        &&& nb.input@.len() == 0
                        &&& nb.error is None
                        &&& nb.open == np.open
                        &&& nb.selected == np.selected
                        &&& b.reader == a.reader
                    },
                }
            }
        },
        Key::Backspace => nb.input@ == popped(np.input@) && nb.input_open == np.input_open && nb.open == np.open
            && nb.error == np.error && nb.selected == np.selected && b.ctx == a.ctx && b.reader == a.reader,
        Key::Char(c) => if !is_cc(c) {
            nb.input@ == np.input@.push(c) && nb.input_open == np.input_open && nb.open == np.open && nb.error
                == np.error && nb.selected == np.selected && b.ctx == a.ctx && b.reader == a.reader
        } else {
            b == a
        },
        _ => b == a,
    }
}

impl<T, P> UiState<T, P> {
    /// Unchanged from `other`: the reader, the boot flags, and every panel but
    /// the settings and scan-path panels.
    pub open spec fn frame_settings(self, other: Self) -> bool {
        &&& self.reader == other.reader
        &&& self.search_panel == other.search_panel
        &&& self.goto_panel == other.goto_panel
        &&& self.bookmarks_panel == other.bookmarks_panel
        &&& self.notes_panel == other.notes_panel
        &&& self.toc_panel == other.toc_panel
        &&& self.boot_reader_session == other.boot_reader_session
        &&& self.ignore_next_esc_quit == other.ignore_next_esc_quit
    }

    /// Unchanged from `other` but for the settings.
    pub open spec fn ctx_but_settings(self, other: Self) -> bool {
        &&& self.ctx.cwd == other.ctx.cwd
        &&& self.ctx.books == other.ctx.books
        &&& self.ctx.selected == other.ctx.selected
        &&& self.ctx.progress_by_path == other.ctx.progress_by_path
        &&& self.ctx.bookmarks_by_path == other.ctx.bookmarks_by_path
        &&& self.ctx.notes_by_path == other.ctx.notes_by_path
        &&& self.ctx.labels_by_path == other.ctx.labels_by_path
        &&& self.ctx.opened_at_by_path == other.ctx.opened_at_by_path
    }

    /// The settings menu: Esc closes it, Up and Down move over its two rows,
    /// Left and Right change the kitty quality on its row, Enter opens the
    /// scan-path panel (first row) or steps the quality (second row).
    pub fn handle_settings_panel_key(&mut self, key: KeyPress) -> (a: UiAction)
        requires
            key.key is Down ==> old(self).settings_panel.selected < usize::MAX,
        ensures
            a is Nothing,
            final(self).frame_settings(*old(self)),
            final(self).ctx_but_settings(*old(self)),
            ({
                let sel = old(self).settings_panel.selected;
                let q = old(self).ctx.settings.kitty_image_quality;
                match key.key {
                    Key::Esc => !final(self).settings_panel.open && final(self).settings_panel.selected == sel
                        && final(self).ctx == old(self).ctx && final(self).scan_panel == old(self).scan_panel,
                    Key::Up => final(self).settings_panel.selected == selection_up(sel) && final(self).settings_panel.open
                        == old(self).settings_panel.open && final(self).ctx == old(self).ctx && final(self).scan_panel
                        == old(self).scan_panel,
                    Key::Down => final(self).settings_panel.selected == (if sel + 1 < SETTINGS_MENU_ITEM_COUNT - 1 {
                        (sel + 1) as usize
                    } else {
                        (SETTINGS_MENU_ITEM_COUNT - 1) as usize
                    }) && final(self).settings_panel.open == old(self).settings_panel.open && final(self).ctx
                        == old(self).ctx && final(self).scan_panel == old(self).scan_panel,
                    Key::Left => final(self).settings_panel == old(self).settings_panel && final(self).scan_panel
                        == old(self).scan_panel && final(self).ctx.settings.kitty_image_quality == (if sel
                        == SETTINGS_MENU_KITTY_IMAGE_QUALITY {
                        q.preceding()
                    } else {
                        q
                    }) && final(self).ctx.settings.library_roots == old(self).ctx.settings.library_roots,
                    Key::Right => final(self).settings_panel == old(self).settings_panel && final(self).scan_panel
                        == old(self).scan_panel && final(self).ctx.settings.kitty_image_quality == (if sel
                        == SETTINGS_MENU_KITTY_IMAGE_QUALITY {
                        q.following()
                    } else {
                        q
                    }) && final(self).ctx.settings.library_roots == old(self).ctx.settings.library_roots,
                    Key::Enter => if sel == SETTINGS_MENU_SCAN_PATHS {
                        &&& final(self).scan_panel.open
                        &&& final(self).scan_panel.selected == 0
                        &&& final(self).scan_panel.input@ == joined_roots(string_views(old(self).ctx.settings.library_roots@))
                        &&& final(self).scan_panel.error is None
                        &&& !final(self).settings_panel.open
                        &&& final(self).ctx == old(self).ctx
                    } else if sel == SETTINGS_MENU_KITTY_IMAGE_QUALITY {
                        &&& final(self).ctx.settings.kitty_image_quality == q.following()
                        &&& final(self).ctx.settings.library_roots == old(self).ctx.settings.library_roots
                        &&& final(self).settings_panel == old(self).settings_panel
                        &&& final(self).scan_panel == old(self).scan_panel
                    } else {
                        *final(self) == *old(self)
                    },
                    _ => *final(self) == *old(self),
                }
            }),
    {
        match key.key {
            Key::Esc => {
                self.settings_panel.open = false;
            },
            Key::Up => {
                self.settings_panel.selected = self.settings_panel.selected.saturating_sub(1);
            },
            Key::Down => {
                let next = self.settings_panel.selected + 1;
                self.settings_panel.selected = if next < SETTINGS_MENU_ITEM_COUNT - 1 {
                    next
                } else {
                    SETTINGS_MENU_ITEM_COUNT - 1
                };
            },
            Key::Left => {
                if self.settings_panel.selected == SETTINGS_MENU_KITTY_IMAGE_QUALITY {
                    self.ctx.settings.cycle_kitty_image_quality_prev();
                }
            },
            Key::Right => {
                if self.settings_panel.selected == SETTINGS_MENU_KITTY_IMAGE_QUALITY {
                    self.ctx.settings.cycle_kitty_image_quality_next();
                }
            },
            Key::Enter => {
                if self.settings_panel.selected == SETTINGS_MENU_SCAN_PATHS {
                    self.scan_panel.open = true;
                    self.scan_panel.selected = 0;
                    self.scan_panel.input = join_roots(&self.ctx.settings);
                    self.scan_panel.error = None;
                    self.settings_panel.open = false;
                } else if self.settings_panel.selected == SETTINGS_MENU_KITTY_IMAGE_QUALITY {
                    self.ctx.settings.cycle_kitty_image_quality_next();
                }
            },
            _ => {},
        }
        UiAction::Nothing
    }

    /// The scan-path panel: Ctrl+u clears the roots typed, Esc closes, Up and
    /// Down move over its two rows, Left and Right switch the scan scope on
    /// its row, typing edits the roots on the first row, and Enter stores the
    /// roots typed (refused when there are none) and asks for a rescan.
    pub fn handle_scan_panel_key(&mut self, key: KeyPress) -> (a: UiAction)
        requires
            key.key is Down ==> old(self).scan_panel.selected < usize::MAX,
        ensures
            final(self).frame_settings(*old(self)),
            final(self).ctx_but_settings(*old(self)),
            final(self).settings_panel == old(self).settings_panel,
            ({
                let sp = old(self).scan_panel;
                let fp = final(self).scan_panel;
                if key.ctrl && key.key == Key::Char('u') {
                    a is Nothing && fp.input@.len() == 0 && fp.open == sp.open && fp.selected == sp.selected
                        && fp.error == sp.error && final(self).ctx == old(self).ctx
                } else {
                    match key.key {
                        Key::Esc => a is Nothing && !fp.open && fp.error is None && fp.input == sp.input
                            && fp.selected == sp.selected && final(self).ctx == old(self).ctx,
                        Key::Up => a is Nothing && fp.selected == selection_up(sp.selected) && fp.open == sp.open
                            && fp.input == sp.input && fp.error == sp.error && final(self).ctx == old(self).ctx,
                        Key::Down => a is Nothing && fp.selected == (if sp.selected + 1 < 1 {
                            (sp.selected + 1) as usize
                        } else {
                            1
                        }) && fp.open == sp.open && fp.input == sp.input && fp.error == sp.error
                            && final(self).ctx == old(self).ctx,
                        Key::Left | Key::Right => a is Nothing && fp == sp && final(self).ctx.settings.scan_scope == (
                        if sp.selected == 1 {
                            old(self).ctx.settings.scan_scope.toggled()
                        } else {
                            old(self).ctx.settings.scan_scope
                        }) && final(self).ctx.settings.library_roots == old(self).ctx.settings.library_roots
                            && final(self).ctx.settings.kitty_image_quality == old(self).ctx.settings.kitty_image_quality,
                        Key::Enter => {
                            let roots = roots_input(sp.input@);
                            if roots.len() == 0 {
                                a is Nothing && opt_view(fp.error) == Some("Enter at least one path"@) && fp.open
                                    == sp.open && fp.input == sp.input && fp.selected == sp.selected
                                    && final(self).ctx == old(self).ctx
                            } else {
                                &&& a matches UiAction::Exit(e) && e == UiExit::Rescan
                                &&& strictly_sorted(string_views(final(self).ctx.settings.library_roots@))
                                &&& forall|t: Seq<char>| string_views(final(self).ctx.settings.library_roots@).contains(t)
                                    <==> is_clean_root(roots, t)
                                &&& final(self).ctx.settings.scan_scope == old(self).ctx.settings.scan_scope
                                &&& final(self).ctx.settings.reader_mode == old(self).ctx.settings.reader_mode
                                &&& final(self).ctx.settings.kitty_image_quality == old(self).ctx.settings.kitty_image_quality
                                &&& !fp.open
                                &&& fp.error is None
                                &&& fp.input == sp.input
                            }
                        },
                        Key::Backspace => a is Nothing && fp.input@ == (if sp.selected == 0 {
                            popped(sp.input@)
                        } else {
                            sp.input@
                        }) && fp.open == sp.open && fp.selected == sp.selected && fp.error == sp.error
                            && final(self).ctx == old(self).ctx,
                        Key::Char(c) => a is Nothing && fp.input@ == (if sp.selected == 0 && !is_cc(c) {
                            sp.input@.push(c)
                        } else {
                            sp.input@
                        }) && fp.open == sp.open && fp.selected == sp.selected && fp.error == sp.error
                            && final(self).ctx == old(self).ctx,
                        _ => a is Nothing && *final(self) == *old(self),
                    }
                }
            }),
    {
        if key.ctrl && key.key == Key::Char('u') {
            self.scan_panel.input = String::new();
            return UiAction::Nothing;
        }
        match key.key {
            Key::Esc => {
                self.scan_panel.open = false;
                self.scan_panel.error = None;
            },
            Key::Up => {
                self.scan_panel.selected = self.scan_panel.selected.saturating_sub(1);
            },
            Key::Down => {
                let next = self.scan_panel.selected + 1;
                self.scan_panel.selected = if next < 1 {
                    next
                } else {
                    1
                };
            },
            Key::Left | Key::Right => {
                if self.scan_panel.selected == 1 {
                    self.ctx.settings.cycle_scan_scope();
                }
            },
            Key::Enter => {
                let roots = parse_roots_input(self.scan_panel.input.as_str());
                if roots.len() == 0 {
                    self.scan_panel.error = Some(string_of(chars_of("Enter at least one path").as_slice()));
                    return UiAction::Nothing;
                }
                let ghost rv = string_views(roots@);
                self.ctx.settings.library_roots = roots;
                self.ctx.settings.normalize();
                self.scan_panel.open = false;
                self.scan_panel.error = None;
                return UiAction::Exit(UiExit::Rescan);
            },
            Key::Backspace => {
                if self.scan_panel.selected == 0 {
                    pop_char(&mut self.scan_panel.input);
                }
            },
            Key::Char(c) => {
                if self.scan_panel.selected == 0 && !is_control(c) {
                    push_char(&mut self.scan_panel.input, c);
                }
            },
            _ => {},
        }
        UiAction::Nothing
    }
}

/// What the reader's keys need to know about the terminal.
#[derive(Debug, Clone, Copy)]
pub struct ReaderEnv {
    /// Whether kitty graphics can be shown here.
    pub kitty_ok: bool,
    /// Whether the interface runs inside tmux.
    pub in_tmux: bool,
    /// The size of a cell in pixels.
    pub font_w: u16,
    pub font_h: u16,
}

/// Scroll after `n` steps down through text of `lines` lines (a `u16`
/// count): one line each, stopping at the last line.
pub open spec fn scroll_down_steps(scroll: u16, lines: u16, n: nat) -> u16
    decreases n,
{
    if n == 0 {
        scroll
    } else {
        let s = scroll_down_steps(scroll, lines, (n - 1) as nat);
        let last: int = if lines == 0 {
            0
        } else {
            lines - 1
        };
        if s + 1 < last {
            (s + 1) as u16
        } else {
            last as u16
        }
    }
}

/// The page-up and page-down step of the image view, in rows: the viewport
/// height less two, or 10 when nothing was laid out.
pub open spec fn image_page_rows(key: Option<ReaderRenderKey>) -> u16 {
    match key {
        Some(k) => if k.height < 2 {
            0
        } else {
            (k.height - 2) as u16
        },
        None => 10,
    }
}

/// The notice when image mode cannot be used.
pub open spec fn no_image_mode_text(in_tmux: bool) -> Seq<char> {
    if in_tmux {
        "image mode needs kitty + tmux allow-passthrough; press k to open kitty reader"@
    } else {
        "image mode requires kitty graphics; press k to open kitty reader"@
    }
}

impl<T, P> UiState<T, P> {
    /// The reader's counters a key would step past their limit: the page,
    /// when Right turns it in a book of known length, and the scroll, when
    /// Down or PageDown scrolls laid-out text in text mode.
    pub open spec fn reader_key_safe(self, key: KeyPress) -> bool {
        let image = self.ctx.settings.reader_mode == ReaderMode::Image;
        &&& (key.key is Right && !(image && key.shift)) ==> (self.reader.total_pages matches Some(t) && t > 0
            ==> self.reader.page < u32::MAX)
        &&& ((key.key is Down || key.key is PageDown) && !image && self.reader.current_text is Some)
            ==> self.reader.scroll < u16::MAX
    }

    /// Whether `key` keeps the reader's counters within their limits (see
    /// `reader_key_safe`).
    pub fn is_reader_key_safe(&self, key: KeyPress) -> (b: bool)
        ensures
            b == self.reader_key_safe(key),
    {
        let image = match self.ctx.settings.reader_mode {
            ReaderMode::Image => true,
            ReaderMode::Text => false,
        };
        let right = match key.key {
            Key::Right => true,
            _ => false,
        };
        let down = match key.key {
            Key::Down => true,
            Key::PageDown => true,
            _ => false,
        };
        let page_ok = match self.reader.total_pages {
            Some(t) => t == 0 || self.reader.page < u32::MAX,
            None => true,
        };
        let scroll_ok = self.reader.current_text.is_none() || self.reader.scroll < u16::MAX;
        (!right || (image && key.shift) || page_ok) && (!down || image || scroll_ok)
    }

    /// From `self` to `s` only the settings changed, of the context and the
    /// reader's panels.
    pub open spec fn only_settings_changed(self, s: Self) -> bool {
        &&& s.ctx == (AppContext { settings: s.ctx.settings, ..self.ctx })
        &&& s.goto_panel == self.goto_panel
        &&& s.bookmarks_panel == self.bookmarks_panel
        &&& s.notes_panel == self.notes_panel
        &&& s.toc_panel == self.toc_panel
    }

    /// Unchanged from `other`: the library list's panels, the boot flags, and
    /// the context but for progress, settings and the per-book marks.
    pub open spec fn frame_reader(self, other: Self) -> bool {
        &&& self.search_panel == other.search_panel
        &&& self.settings_panel == other.settings_panel
        &&& self.scan_panel == other.scan_panel
        &&& self.boot_reader_session == other.boot_reader_session
        &&& self.ignore_next_esc_quit == other.ignore_next_esc_quit
        &&& self.ctx.books == other.ctx.books
        &&& self.ctx.selected == other.ctx.selected
        &&& self.ctx.bookmarks_by_path == other.ctx.bookmarks_by_path
        &&& self.ctx.notes_by_path == other.ctx.notes_by_path
        &&& self.ctx.settings.library_roots == other.ctx.settings.library_roots
        &&& self.ctx.settings.kitty_image_quality == other.ctx.settings.kitty_image_quality
        &&& self.ctx.settings.scan_scope == other.ctx.settings.scan_scope
    }

    /// The reader: Esc saves the page and closes the book (or leaves, after
    /// a boot into the reader); `g`, `b`, `n`, `t` open the go-to box, the
    /// bookmarks, the notes and the outline; `d` asks for a debug dump; `m`
    /// switches between text and image mode (image mode only where kitty
    /// graphics work); `r` steps the text layout; arrows and page keys turn
    /// pages and scroll in text mode and pan in image mode (Shift with Left
    /// and Right pans); `h` turns the trimming of repeated headers and
    /// footers on or off in text mode; `k` asks for a kitty window; `+`,
    /// `=`, `-` and `0` zoom in image mode.
    #[verifier::rlimit(50)]
    pub fn handle_reader_key(&mut self, key: KeyPress, env: ReaderEnv) -> (a: UiAction)
        requires
            old(self).reader_key_safe(key),
        ensures
            final(self).frame_reader(*old(self)),
            ({
                let r = old(self).reader;
                let fr = final(self).reader;
                let image = old(self).ctx.settings.reader_mode == ReaderMode::Image;
                let same_else = final(self).ctx == old(self).ctx && final(self).goto_panel == old(self).goto_panel
                    && final(self).bookmarks_panel == old(self).bookmarks_panel && final(self).notes_panel
                    == old(self).notes_panel && final(self).toc_panel == old(self).toc_panel;
                match key.key {
                    Key::Esc => {
                        &&& (match r.book_path {
                            Some(p) => final(self).ctx.progress_by_path@ == old(self).ctx.progress_by_path@.insert(
                                p@,
                                next_page_number(r.page),
                            ),
                            None => final(self).ctx.progress_by_path == old(self).ctx.progress_by_path,
                        })
                        &&& final(self).ctx == (AppContext {
                            progress_by_path: final(self).ctx.progress_by_path,
                            ..old(self).ctx
                        })
                        &&& if old(self).boot_reader_session {
                            &&& a matches UiAction::Exit(e) && e == UiExit::Quit
                            &&& fr == r
                            &&& final(self).goto_panel == old(self).goto_panel
                            &&& final(self).bookmarks_panel == old(self).bookmarks_panel
                            &&& final(self).notes_panel == old(self).notes_panel
                            &&& final(self).toc_panel == old(self).toc_panel
                        } else {
                            &&& a is Nothing
                            &&& fr.is_fresh()
                            &&& final(self).goto_panel.is_fresh()
                            &&& final(self).bookmarks_panel.is_fresh()
                            &&& final(self).notes_panel.is_fresh()
                            &&& final(self).toc_panel.is_fresh()
                        }
                    },
                    Key::Char('g') => {
                        &&& a is Nothing
                        &&& final(self).goto_panel.open
                        &&& final(self).goto_panel.error is None
                        &&& final(self).goto_panel.input@ == decimal(next_page_number(r.page) as nat)
                        &&& !final(self).bookmarks_panel.open
                        &&& !final(self).notes_panel.open
                        &&& !final(self).toc_panel.open
                        &&& fr == r
                        &&& final(self).ctx == old(self).ctx
                    },
                    Key::Char('d') => *final(self) == *old(self) && if r.has_book() {
                        a matches UiAction::WriteDebug(b, pg) && r.is_open_book(b) && pg == r.page
                    } else {
                        a is Nothing
                    },
                    Key::Char('b') => {
                        &&& a is Nothing
                        &&& final(self).bookmarks_panel.open
                        &&& final(self).bookmarks_panel.selected == 0
                        &&& !final(self).goto_panel.open
                        &&& !final(self).notes_panel.open
                        &&& !final(self).toc_panel.open
                        &&& fr == r
                        &&& final(self).ctx == old(self).ctx
                    },
                    Key::Char('n') => {
                        &&& a is Nothing
                        &&& final(self).notes_panel.open
                        &&& final(self).notes_panel.selected == 0
                        &&& final(self).notes_panel.error is None
                        &&& !final(self).goto_panel.open
                        &&& !final(self).bookmarks_panel.open
                        &&& !final(self).toc_panel.open
                        &&& fr == r
                        &&& final(self).ctx == old(self).ctx
                    },
                    Key::Char('t') => old(self).toc_opened(*final(self), a),
                    Key::Char('m') => {
                        &&& a is Nothing
                        &&& old(self).only_settings_changed(*final(self))
                        &&& final(self).ctx.settings == (crate::settings::Settings {
                            reader_mode: final(self).ctx.settings.reader_mode,
                            ..old(self).ctx.settings
                        })
                        &&& if !image {
                            if env.kitty_ok {
                                &&& final(self).ctx.settings.reader_mode == ReaderMode::Image
                                &&& fr.same_place(r)
                                &&& opt_view(fr.notice) == Some("mode: image (kitty)"@)
                                &&& fr.render_cleared_but_notice()
                            } else {
                                &&& final(self).ctx.settings.reader_mode == ReaderMode::Text
                                &&& opt_view(fr.notice) == Some(no_image_mode_text(env.in_tmux))
                                &&& fr.same_view_but_notice(r)
                            }
                        } else {
                            &&& final(self).ctx.settings.reader_mode == ReaderMode::Text
                            &&& fr.same_place(r)
                            &&& opt_view(fr.notice) == Some("mode: text"@)
                            &&& fr.render_cleared_but_notice()
                        }
                    },
                    Key::Char('r') => a is Nothing && old(self).only_settings_changed(*final(self))
                        && final(self).ctx.settings == (crate::settings::Settings {
                            reader_text_mode: final(self).ctx.settings.reader_text_mode,
                            ..old(self).ctx.settings
                        })
                        && if image {
                        final(self).ctx.settings == old(self).ctx.settings && fr == r
                    } else {
                        &&& final(self).ctx.settings.reader_text_mode == old(self).ctx.settings.reader_text_mode.following()
                        &&& fr.same_place(r)
                        &&& opt_view(fr.notice) == Some("text: "@ + final(self).ctx.settings.reader_text_mode.name())
                        &&& fr.render_cleared_but_notice()
                    },
                    Key::Char('h') => a is Nothing && old(self).only_settings_changed(*final(self))
                        && final(self).ctx.settings == (crate::settings::Settings {
                            reader_trim_headers_footers: final(self).ctx.settings.reader_trim_headers_footers,
                            ..old(self).ctx.settings
                        })
                        && if image {
                        final(self).ctx.settings == old(self).ctx.settings && fr == r
                    } else {
                        &&& final(self).ctx.settings.reader_trim_headers_footers == !old(self).ctx.settings.reader_trim_headers_footers
                        &&& final(self).ctx.settings.reader_text_mode == old(self).ctx.settings.reader_text_mode
                        &&& fr.same_place(r)
                        &&& fr.render_cleared()
                    },
                    Key::Left => a is Nothing && same_else && if image && key.shift {
                        fr.image_pan_x_px == add_signed(r.image_pan_x_px, saturating_i32(-5 * (if env.font_w == 0 { 1 } else { env.font_w as int })))
                            && fr.image_pan_y_px == add_signed(r.image_pan_y_px, 0) && fr.same_place(r)
                            && fr.current_image is None && fr.render_key is None
                    } else {
                        fr.page == (if r.page == 0 { 0 } else { (r.page - 1) as u32 }) && fr.render_cleared()
                            && fr.same_place_but_page(r)
                    },
                    Key::Right => a is Nothing && same_else && if image && key.shift {
                        fr.image_pan_x_px == add_signed(r.image_pan_x_px, saturating_i32(5 * (if env.font_w == 0 { 1 } else { env.font_w as int })))
                            && fr.image_pan_y_px == add_signed(r.image_pan_y_px, 0) && fr.same_place(r)
                            && fr.current_image is None && fr.render_key is None
                    } else {
                        match r.total_pages {
                            None => fr.page == next_page_number(r.page) && fr.render_cleared()
                                && fr.same_place_but_page(r),
                            Some(t) => if t == 0 {
                                fr == r
                            } else {
                                fr.page == (if r.page + 1 < t - 1 { (r.page + 1) as u32 } else { (t - 1) as u32 })
                                    && fr.render_cleared() && fr.same_place_but_page(r)
                            },
                        }
                    },
                    Key::Up => a is Nothing && same_else && if image {
                        fr.image_pan_y_px == add_signed(r.image_pan_y_px, saturating_i32(-3 * (if env.font_h == 0 { 1 } else { env.font_h as int })))
                            && fr.image_pan_x_px == add_signed(r.image_pan_x_px, 0) && fr.same_place(r)
                            && fr.current_image is None && fr.render_key is None
                    } else {
                        fr.scroll == (if r.scroll == 0 { 0 } else { (r.scroll - 1) as u16 }) && fr.same_place(r)
                            && fr.current_text == r.current_text
                    },
                    Key::Down => a is Nothing && same_else && if image {
                        fr.image_pan_y_px == add_signed(r.image_pan_y_px, saturating_i32(3 * (if env.font_h == 0 { 1 } else { env.font_h as int })))
                            && fr.image_pan_x_px == add_signed(r.image_pan_x_px, 0) && fr.same_place(r)
                            && fr.current_image is None && fr.render_key is None
                    } else {
                        fr.scroll == (match r.current_text {
                            Some(t) => scroll_down_steps(r.scroll, line_count16(t@), 1),
                            None => r.scroll,
                        }) && fr.same_place(r) && fr.current_text == r.current_text
                    },
                    Key::PageUp => a is Nothing && same_else && if image {
                        fr.image_pan_y_px == add_signed(r.image_pan_y_px, saturating_i32(-(image_page_rows(r.render_key) as int) * (if env.font_h == 0 { 1 } else { env.font_h as int })))
                            && fr.image_pan_x_px == add_signed(r.image_pan_x_px, 0) && fr.same_place(r)
                            && fr.current_image is None && fr.render_key is None
                    } else {
                        fr.scroll == (if r.scroll < 10 { 0 } else { (r.scroll - 10) as u16 }) && fr.same_place(r)
                            && fr.current_text == r.current_text
                    },
                    Key::PageDown => a is Nothing && same_else && if image {
                        fr.image_pan_y_px == add_signed(r.image_pan_y_px, saturating_i32((image_page_rows(r.render_key) as int) * (if env.font_h == 0 { 1 } else { env.font_h as int })))
                            && fr.image_pan_x_px == add_signed(r.image_pan_x_px, 0) && fr.same_place(r)
                            && fr.current_image is None && fr.render_key is None
                    } else {
                        fr.scroll == (match r.current_text {
                            Some(t) => scroll_down_steps(r.scroll, line_count16(t@), 10),
                            None => r.scroll,
                        }) && fr.same_place(r) && fr.current_text == r.current_text
                    },
                    Key::Char('k') => *final(self) == *old(self) && if !image && !env.kitty_ok {
                        a matches UiAction::SpawnKitty(p, pg) && opt_view(p) == opt_view(r.book_path) && pg == r.page
                    } else {
                        a is Nothing
                    },
                    Key::Char(c) => a is Nothing && same_else && if (c == '+' || c == '=') && image {
                        fr.image_zoom_percent == clamp_zoom(if r.image_zoom_percent + ZOOM_STEP > ZOOM_MAX {
                            ZOOM_MAX
                        } else {
                            (r.image_zoom_percent + ZOOM_STEP) as u16
                        }) && fr.page == r.page && fr.book_path == r.book_path
                    } else if c == '-' && image {
                        fr.image_zoom_percent == clamp_zoom(if r.image_zoom_percent < ZOOM_MIN + ZOOM_STEP {
                            ZOOM_MIN
                        } else {
                            (r.image_zoom_percent - ZOOM_STEP) as u16
                        }) && fr.page == r.page && fr.book_path == r.book_path
                    } else if c == '0' && image {
                        fr.image_zoom_percent == 100 && fr.image_pan_x_px == 0 && fr.image_pan_y_px == 0
                            && opt_view(fr.notice) == Some(zoom_notice(100)) && fr.page == r.page
                            && fr.book_path == r.book_path
                    } else {
                        fr == r
                    },
                    _ => a is Nothing && *final(self) == *old(self),
                }
            }),
    {
        match key.key {
            Key::Esc => {
                if let Some(path) = &self.reader.book_path {
                    let page = self.reader.page.saturating_add(1);
                    self.ctx.progress_by_path.insert(path.clone(), page);
                }
                if self.boot_reader_session {
                    return UiAction::Exit(UiExit::Quit);
                }
                self.reader = ReaderPanel::new();
                self.goto_panel = GotoPanel::new();
                self.bookmarks_panel = BookmarksPanel::new();
                self.notes_panel = NotesPanel::new();
                self.toc_panel = TocPanel::new();
                UiAction::Nothing
            },
            Key::Char('g') => {
                self.goto_panel.open = true;
                self.goto_panel.error = None;
                self.goto_panel.input = decimal_string(self.reader.page.saturating_add(1) as u64);
                self.bookmarks_panel.open = false;
                self.notes_panel.open = false;
                self.toc_panel.open = false;
                UiAction::Nothing
            },
            Key::Char('d') => match self.reader.current_book() {
                Some(book) => UiAction::WriteDebug(book, self.reader.page),
                None => UiAction::Nothing,
            },
            Key::Char('b') => {
                self.bookmarks_panel.open = true;
                self.bookmarks_panel.selected = 0;
                self.goto_panel.open = false;
                self.notes_panel.open = false;
                self.toc_panel.open = false;
                UiAction::Nothing
            },
            Key::Char('n') => {
                self.notes_panel.open = true;
                self.notes_panel.selected = 0;
                self.notes_panel.error = None;
                self.goto_panel.open = false;
                self.bookmarks_panel.open = false;
                self.toc_panel.open = false;
                UiAction::Nothing
            },
            Key::Char('t') => self.open_toc_panel(),
            Key::Char('m') => {
                match self.ctx.settings.reader_mode {
                    ReaderMode::Text => {
                        if env.kitty_ok {
                            self.ctx.settings.reader_mode = ReaderMode::Image;
                            self.reader.invalidate_render();
                            self.reader.notice = Some(string_of(chars_of("mode: image (kitty)").as_slice()));
                        } else {
                            self.ctx.settings.reader_mode = ReaderMode::Text;
                            self.reader.notice = Some(
                                if env.in_tmux {
                                    string_of(
                                        chars_of(
                                            "image mode needs kitty + tmux allow-passthrough; press k to open kitty reader",
                                        ).as_slice(),
                                    )
                                } else {
                                    string_of(
                                        chars_of("image mode requires kitty graphics; press k to open kitty reader").as_slice(),
                                    )
                                },
                            );
                        }
                    },
                    ReaderMode::Image => {
                        self.ctx.settings.reader_mode = ReaderMode::Text;
                        self.reader.invalidate_render();
                        self.reader.notice = Some(string_of(chars_of("mode: text").as_slice()));
                    },
                }
                UiAction::Nothing
            },
            Key::Char('r') => {
                if self.ctx.settings.reader_mode == ReaderMode::Text {
                    self.ctx.settings.cycle_reader_text_mode();
                    self.reader.invalidate_render();
                    let mut v = chars_of("text: ");
                    extend_chars(&mut v, chars_of(self.ctx.settings.reader_text_mode.as_str()).as_slice());
                    self.reader.notice = Some(string_of(v.as_slice()));
                }
                UiAction::Nothing
            },
            Key::Char('h') => {
                if self.ctx.settings.reader_mode == ReaderMode::Text {
                    self.ctx.settings.reader_trim_headers_footers = !self.ctx.settings.reader_trim_headers_footers;
                    self.reader.invalidate_render();
                }
                UiAction::Nothing
            },
            Key::Left => {
                if self.ctx.settings.reader_mode == ReaderMode::Image && key.shift {
                    self.reader.pan_image_by_cells(env.font_w, env.font_h, -5, 0);
                } else {
                    self.reader.prev_page();
                }
                UiAction::Nothing
            },
            Key::Right => {
                if self.ctx.settings.reader_mode == ReaderMode::Image && key.shift {
                    self.reader.pan_image_by_cells(env.font_w, env.font_h, 5, 0);
                } else {
                    self.reader.next_page();
                }
                UiAction::Nothing
            },
            Key::Up => {
                if self.ctx.settings.reader_mode == ReaderMode::Image {
                    self.reader.pan_image_by_cells(env.font_w, env.font_h, 0, -3);
                } else {
                    self.reader.scroll_up();
                }
                UiAction::Nothing
            },
            Key::Down => {
                if self.ctx.settings.reader_mode == ReaderMode::Image {
                    self.reader.pan_image_by_cells(env.font_w, env.font_h, 0, 3);
                } else {
                    self.reader.scroll_down();
                    proof {
                        reveal_with_fuel(scroll_down_steps, 2);
                    }
                }
                UiAction::Nothing
            },
            Key::PageUp => {
                if self.ctx.settings.reader_mode == ReaderMode::Image {
                    let step = image_rows_step(self.reader.render_key);
                    self.reader.pan_image_by_cells(env.font_w, env.font_h, 0, -(step as i32));
                } else {
                    let mut i: u32 = 0;
                    while i < 10
                        invariant
                            i <= 10,
                            self.reader.scroll == (if old(self).reader.scroll < i { 0 } else { (old(self).reader.scroll - i) as u16 }),
                            self.reader.same_place(old(self).reader),
                            self.reader.current_text == old(self).reader.current_text,
                            self.ctx == old(self).ctx,
                            self.goto_panel == old(self).goto_panel,
                            self.bookmarks_panel == old(self).bookmarks_panel,
                            self.notes_panel == old(self).notes_panel,
                            self.toc_panel == old(self).toc_panel,
                            self.search_panel == old(self).search_panel,
                            self.settings_panel == old(self).settings_panel,
                            self.scan_panel == old(self).scan_panel,
                            self.boot_reader_session == old(self).boot_reader_session,
                            self.ignore_next_esc_quit == old(self).ignore_next_esc_quit,
                        decreases 10 - i,
                    {
                        self.reader.scroll_up();
                        i += 1;
                    }
                }
                UiAction::Nothing
            },
            Key::PageDown => {
                if self.ctx.settings.reader_mode == ReaderMode::Image {
                    let step = image_rows_step(self.reader.render_key);
                    self.reader.pan_image_by_cells(env.font_w, env.font_h, 0, step as i32);
                } else {
                    let mut i: u32 = 0;
                    while i < 10
                        invariant
                            i <= 10,
                            self.reader.current_text is Some ==> self.reader.scroll < u16::MAX,
                            self.reader.scroll == (match old(self).reader.current_text {
                                Some(t) => scroll_down_steps(old(self).reader.scroll, line_count16(t@), i as nat),
                                None => old(self).reader.scroll,
                            }),
                            self.reader.same_place(old(self).reader),
                            self.reader.current_text == old(self).reader.current_text,
                            self.ctx == old(self).ctx,
                            self.goto_panel == old(self).goto_panel,
                            self.bookmarks_panel == old(self).bookmarks_panel,
                            self.notes_panel == old(self).notes_panel,
                            self.toc_panel == old(self).toc_panel,
                            self.search_panel == old(self).search_panel,
                            self.settings_panel == old(self).settings_panel,
                            self.scan_panel == old(self).scan_panel,
                            self.boot_reader_session == old(self).boot_reader_session,
                            self.ignore_next_esc_quit == old(self).ignore_next_esc_quit,
                        decreases 10 - i,
                    {
                        self.reader.scroll_down();
                        i += 1;
                    }
                }
                UiAction::Nothing
            },
            Key::Char('k') => {
                if self.ctx.settings.reader_mode == ReaderMode::Text && !env.kitty_ok {
                    let path = match &self.reader.book_path {
                        Some(p) => Some(p.clone()),
                        None => None,
                    };
                    UiAction::SpawnKitty(path, self.reader.page)
                } else {
                    UiAction::Nothing
                }
            },
            Key::Char(c) => {
                if self.ctx.settings.reader_mode == ReaderMode::Image {
                    if c == '+' || c == '=' {
                        self.reader.zoom_image_in();
                    } else if c == '-' {
                        self.reader.zoom_image_out();
                    } else if c == '0' {
                        self.reader.reset_image_view();
                    }
                }
                UiAction::Nothing
            },
            _ => UiAction::Nothing,
        }
    }
}

fn image_rows_step(key: Option<ReaderRenderKey>) -> (r: u16)
    ensures
        r == image_page_rows(key),
{
    match key {
        Some(k) => k.height.saturating_sub(2),
        None => 10,
    }
}

/// From `a` to `b` only the settings, the reader, the go-to, bookmark, note
/// and outline panels changed... except none of those but the settings and
/// the reader; the library data is untouched.
pub open spec fn same_else_but_settings<T, P>(a: UiState<T, P>, b: UiState<T, P>) -> bool {
    &&& b.ctx.progress_by_path == a.ctx.progress_by_path
    &&& b.goto_panel == a.goto_panel
    &&& b.bookmarks_panel == a.bookmarks_panel
    &&& b.notes_panel == a.notes_panel
    &&& b.toc_panel == a.toc_panel
}

/// Which handler a key goes to.
#[derive(Debug, Clone, Copy, PartialEq, Eq, Structural)]
pub enum KeyTarget {
    Settings,
    Search,
    Bookmarks,
    Goto,
    Toc,
    Notes,
    Reader,
    Scan,
    Main,
}

/// The settings menu and the search box come first; with a book open, its
/// bookmark list, go-to box, outline and notes, then the reader; then the
/// scan-path panel; else the library list.
pub open spec fn key_target<T, P>(s: UiState<T, P>) -> KeyTarget {
    if s.settings_panel.open {
        KeyTarget::Settings
    } else if s.search_panel.open {
        KeyTarget::Search
    } else if s.reader.open && s.bookmarks_panel.open {
        KeyTarget::Bookmarks
    } else if s.reader.open && s.goto_panel.open {
        KeyTarget::Goto
    } else if s.reader.open && s.toc_panel.open {
        KeyTarget::Toc
    } else if s.reader.open && s.notes_panel.open {
        KeyTarget::Notes
    } else if s.reader.open {
        KeyTarget::Reader
    } else if s.scan_panel.open {
        KeyTarget::Scan
    } else {
        KeyTarget::Main
    }
}

/// A book's title for the reader header.
pub open spec fn reader_title_text(title: Option<Seq<char>>) -> Seq<char> {
    match title {
        Some(t) => "Reader \u{2014} "@ + t,
        None => "Reader"@,
    }
}

/// The reader's page title: `p<page>/<total> · <layout>` in text mode,
/// `p<page>/<total> · kitty <zoom>% · <w>x<h>px` in image mode (the total only
/// when known).
pub open spec fn page_title_text(
    page: u32,
    total: Option<u32>,
    mode: ReaderMode,
    text_mode: ReaderTextMode,
    zoom: u16,
    font_w: u16,
    font_h: u16,
) -> Seq<char> {
    let page_part = "p"@ + decimal(next_page_number(page) as nat) + match total {
        Some(t) => "/"@ + decimal(t as nat),
        None => seq![],
    };
    let mode_part = match mode {
        ReaderMode::Text => text_mode.name(),
        ReaderMode::Image => "kitty "@ + decimal(zoom as nat) + "% \u{00B7} "@ + decimal(font_w as nat) + "x"@
            + decimal(font_h as nat) + "px"@,
    };
    page_part + " \u{00B7} "@ + mode_part
}

fn push_str(v: &mut Vec<char>, s: &str)
    ensures
        final(v)@ == old(v)@ + s@,
{
    extend_chars(v, chars_of(s).as_slice());
}

fn push_number(v: &mut Vec<char>, n: u64)
    ensures
        final(v)@ == old(v)@ + decimal(n as nat),
{
    let d = decimal_string(n);
    extend_chars(v, chars_of(d.as_str()).as_slice());
}

impl<T, P> UiState<T, P> {
    /// The interface over `ctx`, its settings normalized, every panel closed,
    /// the scan-path panel holding the roots.
    pub fn new(ctx: AppContext, reader: ReaderPanel<T, P>) -> (s: UiState<T, P>)
        ensures
            s.ctx.books == ctx.books,
            s.ctx.selected == ctx.selected,
            s.ctx.progress_by_path == ctx.progress_by_path,
            s.ctx.bookmarks_by_path == ctx.bookmarks_by_path,
            s.ctx.notes_by_path == ctx.notes_by_path,
            strictly_sorted(string_views(s.ctx.settings.library_roots@)),
            forall|t: Seq<char>| string_views(s.ctx.settings.library_roots@).contains(t) <==> is_clean_root(
                string_views(ctx.settings.library_roots@),
                t,
            ),
            s.ctx.settings.reader_mode == ctx.settings.reader_mode,
            s.scan_panel.input@ == joined_roots(string_views(s.ctx.settings.library_roots@)),
            !s.scan_panel.open,
            !s.settings_panel.open,
            !s.search_panel.open && s.search_panel.query@.len() == 0,
            !s.goto_panel.open,
            !s.bookmarks_panel.open,
            !s.notes_panel.open && s.notes_panel.input_page == 1,
            !s.toc_panel.open,
            s.reader == reader,
            !s.boot_reader_session,
            !s.ignore_next_esc_quit,
    {
        let mut ctx = ctx;
        ctx.settings.normalize();
        let roots = join_roots(&ctx.settings);
        UiState {
            ctx,
            settings_panel: SettingsPanel::new(),
            scan_panel: ScanPathPanel::new(roots),
            search_panel: SearchPanel::new(),
            goto_panel: GotoPanel::new(),
            bookmarks_panel: BookmarksPanel::new(),
            notes_panel: NotesPanel::new(),
            toc_panel: TocPanel::new(),
            reader,
            boot_reader_session: false,
            ignore_next_esc_quit: false,
        }
    }

    /// Which handler the next key goes to (see `key_target`).
    pub fn route(&self) -> (t: KeyTarget)
        ensures
            t == key_target(*self),
    {
        if self.settings_panel.open {
            KeyTarget::Settings
        } else if self.search_panel.open {
            KeyTarget::Search
        } else if self.reader.open && self.bookmarks_panel.open {
            KeyTarget::Bookmarks
        } else if self.reader.open && self.goto_panel.open {
            KeyTarget::Goto
        } else if self.reader.open && self.toc_panel.open {
            KeyTarget::Toc
        } else if self.reader.open && self.notes_panel.open {
            KeyTarget::Notes
        } else if self.reader.open {
            KeyTarget::Reader
        } else if self.scan_panel.open {
            KeyTarget::Scan
        } else {
            KeyTarget::Main
        }
    }

    /// The book a boot into the reader opens: the library's book with that
    /// path, or a new one titled `fallback_title`.
    pub fn boot_book(&self, path: String, fallback_title: String) -> (b: Book)
        ensures
            b.path@ == path@,
            (exists|i: int| 0 <= i < self.ctx.books@.len() && self.ctx.books@[i].path@ == path@) ==> exists|i: int|
                0 <= i < self.ctx.books@.len() && self.ctx.books@[i].path@ == path@ && b.title@
                == self.ctx.books@[i].title@ && b.last_opened == self.ctx.books@[i].last_opened && b.favorite
                == self.ctx.books@[i].favorite,
            !(exists|i: int| 0 <= i < self.ctx.books@.len() && self.ctx.books@[i].path@ == path@) ==> b.title@
                == fallback_title@ && b.last_opened is None && !b.favorite,
    {
        let mut i: usize = 0;
        while i < self.ctx.books.len()
            invariant
                i <= self.ctx.books@.len(),
                forall|j: int| 0 <= j < i ==> self.ctx.books@[j].path@ != path@,
            decreases self.ctx.books.len() - i,
        {
            if self.ctx.books[i].path == path {
                let b = &self.ctx.books[i];
                return Book {
                    path: b.path.clone(),
                    title: b.title.clone(),
                    last_opened: b.last_opened,
                    favorite: b.favorite,
                };
            }
            i += 1;
        }
        Book { path, title: fallback_title, last_opened: None, favorite: false }
    }

    /// Opens `book` for a boot into the reader: the mode named (`image` or
    /// `text`, any ASCII case, trimmed) is taken, and the reader goes to the
    /// zero-based page index given (0 when missing or not a number), kept
    /// below the page count when known.
    pub fn boot_into_reader(&mut self, book: &Book, page_index: Option<String>, mode: Option<String>, total_pages: Option<u32>)
        ensures
            final(self).ctx.settings.reader_mode == (match mode {
                Some(m) => if lower_ascii(trim(m@)) == "image"@ {
                    ReaderMode::Image
                } else if lower_ascii(trim(m@)) == "text"@ {
                    ReaderMode::Text
                } else {
                    old(self).ctx.settings.reader_mode
                },
                None => old(self).ctx.settings.reader_mode,
            }),
            final(self).reader.open,
            final(self).reader.is_open_book(*book) || (opt_view(final(self).reader.book_path) == Some(book.path@)
                && opt_view(final(self).reader.book_title) == Some(book.title@)),
            final(self).reader.total_pages == total_pages,
            final(self).reader.render_cleared(),
            final(self).reader.page == ({
                let p: u32 = match page_index {
                    Some(s) => match u32_text(trim(s@)) {
                        Some(n) => n,
                        None => 0,
                    },
                    None => 0,
                };
                match total_pages {
                    Some(t) => if t > 0 && p > t - 1 {
                        (t - 1) as u32
                    } else {
                        p
                    },
                    None => p,
                }
            }),
            final(self).ctx.books == old(self).ctx.books,
            final(self).ctx.progress_by_path == old(self).ctx.progress_by_path,
    {
        if let Some(m) = &mode {
            let key = lower_ascii_chars(trim_chars(chars_of(m.as_str()).as_slice()).as_slice());
            if eq_chars(key.as_slice(), chars_of("image").as_slice()) {
                self.ctx.settings.reader_mode = ReaderMode::Image;
            } else if eq_chars(key.as_slice(), chars_of("text").as_slice()) {
                self.ctx.settings.reader_mode = ReaderMode::Text;
            }
        }
        self.reader.open_book(book, &self.ctx, total_pages);
        let p: u32 = match &page_index {
            Some(s) => {
                let t = string_of(trim_chars(chars_of(s.as_str()).as_slice()).as_slice());
                match parse_u32(t.as_str()) {
                    Some(n) => n,
                    None => 0,
                }
            },
            None => 0,
        };
        self.reader.page = p;
        if let Some(total) = total_pages {
            if total > 0 && self.reader.page > total - 1 {
                self.reader.page = total - 1;
            }
        }
        self.reader.invalidate_render();
    }

    /// Image mode without kitty graphics falls back to text mode, saying so.
    pub fn check_image_mode(&mut self, kitty_ok: bool)
        ensures
            old(self).ctx.settings.reader_mode == ReaderMode::Image && !kitty_ok ==> {
                &&& final(self).ctx.settings.reader_mode == ReaderMode::Text
                &&& final(self).reader.current_image is None
                &&& final(self).reader.render_key is None
                &&& opt_view(final(self).reader.notice) == Some(
                    "kitty graphics protocol not detected; image mode disabled"@,
                )
                &&& final(self).reader.same_place(old(self).reader)
                &&& final(self).reader.current_text == old(self).reader.current_text
            },
            !(old(self).ctx.settings.reader_mode == ReaderMode::Image && !kitty_ok) ==> *final(self) == *old(self),
    {
        if self.ctx.settings.reader_mode == ReaderMode::Image && !kitty_ok {
            self.ctx.settings.reader_mode = ReaderMode::Text;
            self.reader.current_image = None;
            self.reader.render_key = None;
            self.reader.notice = Some(
                string_of(chars_of("kitty graphics protocol not detected; image mode disabled").as_slice()),
            );
        }
    }

    /// The reader header: `Reader — <title>`, or `Reader` with no book.
    pub fn reader_title(&self) -> (s: String)
        ensures
            s@ == reader_title_text(opt_view(self.reader.book_title)),
    {
        match &self.reader.book_title {
            Some(t) => {
                let mut v = chars_of("Reader \u{2014} ");
                push_str(&mut v, t.as_str());
                string_of(v.as_slice())
            },
            None => string_of(chars_of("Reader").as_slice()),
        }
    }

    /// The reader's page title (see `page_title_text`) for a cell of
    /// `font_w` by `font_h` pixels.
    pub fn page_title(&self, font_w: u16, font_h: u16) -> (s: String)
        ensures
            s@ == page_title_text(
                self.reader.page,
                self.reader.total_pages,
                self.ctx.settings.reader_mode,
                self.ctx.settings.reader_text_mode,
                self.reader.image_zoom_percent,
                font_w,
                font_h,
            ),
    {
        let mut v = chars_of("p");
        push_number(&mut v, self.reader.page.saturating_add(1) as u64);
        match self.reader.total_pages {
            Some(t) => {
                push_str(&mut v, "/");
                push_number(&mut v, t as u64);
            },
            None => {},
        }
        push_str(&mut v, " \u{00B7} ");
        match self.ctx.settings.reader_mode {
            ReaderMode::Text => {
                push_str(&mut v, self.ctx.settings.reader_text_mode.as_str());
            },
            ReaderMode::Image => {
                push_str(&mut v, "kitty ");
                push_number(&mut v, self.reader.image_zoom_percent as u64);
                push_str(&mut v, "% \u{00B7} ");
                push_number(&mut v, font_w as u64);
                push_str(&mut v, "x");
                push_number(&mut v, font_h as u64);
                push_str(&mut v, "px");
            },
        }
        proof {
            reveal_strlit("/");
        }
        let ghost tp = match self.reader.total_pages {
            Some(t) => "/"@ + decimal(t as nat),
            None => Seq::<char>::empty(),
        };
        assert(v@ =~= page_title_text(
            self.reader.page,
            self.reader.total_pages,
            self.ctx.settings.reader_mode,
            self.ctx.settings.reader_text_mode,
            self.reader.image_zoom_percent,
            font_w,
            font_h,
        ));
        string_of(v.as_slice())
    }
}

/// What the reader body shows: the laid-out text, else the error, else
/// `loading...`.
pub open spec fn reader_body_text<T, P>(r: ReaderPanel<T, P>) -> Seq<char> {
    match r.current_text {
        Some(t) => t@,
        None => match r.last_error {
            Some(e) => e@,
            None => "loading..."@,
        },
    }
}

/// The lines of the reader body from the scroll position on.
pub open spec fn reader_visible_lines<T, P>(r: ReaderPanel<T, P>) -> Seq<Seq<char>> {
    let ls = lines(reader_body_text(r));
    if r.scroll >= ls.len() {
        seq![]
    } else {
        ls.skip(r.scroll as int)
    }
}

impl<T, P> ReaderPanel<T, P> {
    /// The lines the reader body shows (see `reader_visible_lines`).
    pub fn visible_lines(&self) -> (r: Vec<String>)
        ensures
            string_views(r@) == reader_visible_lines(*self),
    {
        let body: Vec<char> = match &self.current_text {
            Some(t) => chars_of(t.as_str()),
            None => match &self.last_error {
                Some(e) => chars_of(e.as_str()),
                None => chars_of("loading..."),
            },
        };
        let ls = lines_chars(body.as_slice());
        let ghost lv = views(ls@);
        let mut out: Vec<String> = Vec::new();
        let mut i: usize = self.scroll as usize;
        let start = i;
        if i >= ls.len() {
            assert(string_views(out@) =~= reader_visible_lines(*self));
            return out;
        }
        while i < ls.len()
            invariant
                start <= i <= ls@.len(),
                start == self.scroll,
                lv == views(ls@),
                string_views(out@) == lv.subrange(start as int, i as int),
            decreases ls.len() - i,
        {
            let s = string_of(ls[i].as_slice());
            assert(s@ == lv[i as int]);
            let ghost before = out@;
            out.push(s);
            assert(string_views(out@) =~= string_views(before).push(s@));
            assert(string_views(out@) =~= lv.subrange(start as int, i + 1));
            i += 1;
        }
        out
    }
}

/// The go-to box opens holding the number of the page being read, and Enter
/// on it jumps to that same page: it is accepted whenever the page lies
/// within the book.
pub proof fn lemma_goto_prefill_keeps_page(page: u32, total: Option<u32>)
    requires
        page < u32::MAX,
        total matches Some(t) ==> page < t,
    ensures
        goto_refusal(decimal(next_page_number(page) as nat), total) is None,
        goto_target(decimal(next_page_number(page) as nat)) - 1 == page,
{
    crate::num::lemma_decimal_parses((page + 1) as u32);
}

/// The library acts on a listed book: after moving the selection onto the
/// list, the selection is listed whenever anything is, and the book the
/// library opens is always a listed one.
pub proof fn lemma_selection_is_listed(ctx: AppContext, query: Seq<char>)
    ensures
        listed_books(ctx, query).len() > 0 ==> listed_books(ctx, query).contains(
            normalized_selection(ctx, query),
        ),
        selected_listed(ctx, query) matches Some(i) ==> listed_books(ctx, query).contains(i),
{
    let v = listed_books(ctx, query);
    if v.len() > 0 {
        assert(v.contains(v[0]));
        if ctx.books@.len() == 0 {
            assert(v == Seq::<usize>::empty());
        }
    }
}

} // verus!
