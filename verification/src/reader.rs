//! The reader: which page of which book is open, how it is scrolled, zoomed
//! and panned, and what was last laid out for the viewport.

use vstd::prelude::*;
use std::collections::VecDeque;
use crate::library::AppContext;
use crate::model::{Book, ReaderMode, ReaderTextMode};
use crate::num::{add_signed, add_signed_u32, decimal, decimal_string};
use crate::page::{laid_out, layout_page_text, line_count16, line_count_u16};
use crate::strs::{chars_of, extend_chars, string_of};

verus! {

/// What a laid-out page depends on: page, modes and viewport size.
#[derive(Debug, Clone, Copy, PartialEq, Eq, Structural)]
pub struct ReaderRenderKey {
    pub page: u32,
    pub mode: ReaderMode,
    pub text_mode: ReaderTextMode,
    pub width: u16,
    pub height: u16,
}

/// A rasterized page, with what it was rasterized for.
#[derive(Debug, Clone)]
pub struct CachedPageImage<T> {
    pub page: u32,
    pub zoom_percent: u16,
    pub render_width_px: u32,
    pub font_w: u16,
    pub font_h: u16,
    pub image: T,
}

/// Whether a cached image was rasterized for these parameters.
pub open spec fn rasterized_for<T>(
    c: CachedPageImage<T>,
    page: u32,
    zoom: u16,
    width: u32,
    font_w: u16, font_h: u16,
) -> bool {
    c.page == page && c.zoom_percent == zoom && c.render_width_px == width && c.font_w == font_w && c.font_h == font_h
}

/// How long the last image render took, and at what sizes.
#[derive(Debug, Clone, Copy, Default)]
pub struct ReaderImageTimings {
    pub total_ms: u128,
    pub rasterize_ms: Option<u128>,
    pub viewport_ms: u128,
    pub downscale_ms: u128,
    pub protocol_ms: u128,
    pub viewport_w_px: u32,
    pub viewport_h_px: u32,
    pub transmit_w_px: u32,
    pub transmit_h_px: u32,
    pub render_width_px: u32,
}

/// Most images the page image cache holds.
pub const PAGE_IMAGE_CACHE_MAX: usize = 3;

/// `s` without its first entry rasterized for the given parameters.
pub open spec fn without_first_match<T>(
    s: Seq<CachedPageImage<T>>,
    page: u32,
    zoom: u16,
    width: u32,
    font_w: u16, font_h: u16,
) -> Seq<CachedPageImage<T>>
    decreases s.len(),
{
    if s.len() == 0 {
        s
    } else if rasterized_for(s[0], page, zoom, width, font_w, font_h) {
        s.drop_first()
    } else {
        seq![s[0]] + without_first_match(s.drop_first(), page, zoom, width, font_w, font_h)
    }
}

/// Index of the first entry rasterized for the given parameters.
pub open spec fn first_match<T>(
    s: Seq<CachedPageImage<T>>,
    page: u32,
    zoom: u16,
    width: u32,
    font_w: u16, font_h: u16,
) -> Option<int>
    decreases s.len(),
{
    if s.len() == 0 {
        None
    } else if rasterized_for(s[0], page, zoom, width, font_w, font_h) {
        Some(0)
    } else {
        match first_match(s.drop_first(), page, zoom, width, font_w, font_h) {
            Some(i) => Some(i + 1),
            None => None,
        }
    }
}

/// The cache after inserting `image`: it goes in front, an older image
/// rasterized for the same parameters leaves, and the newest three stay.
pub open spec fn cache_inserted<T>(c: Seq<CachedPageImage<T>>, image: CachedPageImage<T>) -> Seq<CachedPageImage<T>> {
    let s = seq![image] + without_first_match(
        c,
        image.page,
        image.zoom_percent,
        image.render_width_px,
        image.font_w,
        image.font_h,
    );
    if s.len() > PAGE_IMAGE_CACHE_MAX {
        s.take(PAGE_IMAGE_CACHE_MAX as int)
    } else {
        s
    }
}

/// What an image was rasterized for: page, zoom, width and font size.
pub open spec fn params_of<T>(c: CachedPageImage<T>) -> (u32, u16, u32, u16, u16) {
    (c.page, c.zoom_percent, c.render_width_px, c.font_w, c.font_h)
}

/// No two images were rasterized for the same parameters.
pub open spec fn distinct_params<T>(s: Seq<CachedPageImage<T>>) -> bool {
    forall|i: int, j: int| 0 <= i < j < s.len() ==> params_of(#[trigger] s[i]) != params_of(#[trigger] s[j])
}

proof fn lemma_first_match<T>(s: Seq<CachedPageImage<T>>, page: u32, zoom: u16, width: u32, font_w: u16, font_h: u16, i: int)
    requires
        0 <= i <= s.len(),
        forall|j: int| 0 <= j < i ==> !rasterized_for(#[trigger] s[j], page, zoom, width, font_w, font_h),
        i < s.len() ==> rasterized_for(s[i], page, zoom, width, font_w, font_h),
    ensures
        i < s.len() ==> first_match(s, page, zoom, width, font_w, font_h) == Some(i) && without_first_match(s, page, zoom, width, font_w, font_h) == s.remove(i),
        i == s.len() ==> first_match(s, page, zoom, width, font_w, font_h) is None && without_first_match(s, page, zoom, width, font_w, font_h) == s,
    decreases i,
{
    if i > 0 {
        let t = s.drop_first();
        assert forall|j: int| 0 <= j < i - 1 implies !rasterized_for(#[trigger] t[j], page, zoom, width, font_w, font_h) by {
            assert(t[j] == s[j + 1]);
        }
        lemma_first_match(t, page, zoom, width, font_w, font_h, i - 1);
        assert(!rasterized_for(s[0], page, zoom, width, font_w, font_h));
        if i < s.len() {
            assert(seq![s[0]] + t.remove(i - 1) =~= s.remove(i));
        } else {
            assert(seq![s[0]] + t =~= s);
        }
    } else if s.len() > 0 {
        assert(s.drop_first() =~= s.remove(0));
    }
}

/// The few page images rasterized last, the newest first.
#[derive(Debug, Clone)]
pub struct PageImageCache<T> {
    entries: VecDeque<CachedPageImage<T>>,
}

impl<T> PageImageCache<T> {
    pub closed spec fn view(&self) -> Seq<CachedPageImage<T>> {
        self.entries@
    }

    /// An empty cache.
    pub fn new() -> (c: PageImageCache<T>)
        ensures
            c@ == Seq::<CachedPageImage<T>>::empty(),
    {
        PageImageCache { entries: VecDeque::new() }
    }

    pub fn len(&self) -> (n: usize)
        ensures
            n == self@.len(),
    {
        self.entries.len()
    }

    /// Drops every image.
    pub fn clear(&mut self)
        ensures
            final(self)@ == Seq::<CachedPageImage<T>>::empty(),
    {
        self.entries.clear();
    }

    fn position(&self, page: u32, zoom: u16, width: u32, font_w: u16, font_h: u16) -> (r: Option<usize>)
        ensures
            r matches Some(i) ==> i < self@.len() && first_match(self@, page, zoom, width, font_w, font_h) == Some(i as int)
                && without_first_match(self@, page, zoom, width, font_w, font_h) == self@.remove(i as int),
            r is None ==> first_match(self@, page, zoom, width, font_w, font_h) is None
                && without_first_match(self@, page, zoom, width, font_w, font_h) == self@,
    {
        let mut i: usize = 0;
        while i < self.entries.len()
            invariant
                i <= self@.len(),
                forall|j: int| 0 <= j < i ==> !rasterized_for(#[trigger] self@[j], page, zoom, width, font_w, font_h),
            decreases self.entries.len() - i,
        {
            let c = &self.entries[i];
            if c.page == page && c.zoom_percent == zoom && c.render_width_px == width && c.font_w
                == font_w && c.font_h == font_h {
                proof {
                    lemma_first_match(self@, page, zoom, width, font_w, font_h, i as int);
                }
                return Some(i);
            }
            i += 1;
        }
        proof {
            lemma_first_match(self@, page, zoom, width, font_w, font_h, i as int);
        }
        None
    }

    /// Removes and returns the first image rasterized for these parameters.
    pub fn take(&mut self, page: u32, zoom: u16, width: u32, font_w: u16, font_h: u16) -> (r: Option<CachedPageImage<T>>)
        ensures
            final(self)@ == without_first_match(old(self)@, page, zoom, width, font_w, font_h),
            match first_match(old(self)@, page, zoom, width, font_w, font_h) {
                Some(i) => 0 <= i < old(self)@.len() && r == Some(old(self)@[i]),
                None => r is None && final(self)@ == old(self)@,
            },
    {
        match self.position(page, zoom, width, font_w, font_h) {
            Some(i) => self.entries.remove(i),
            None => None,
        }
    }

    /// Puts `image` in front, drops an older image rasterized for the same
    /// parameters, and keeps the newest three.
    pub fn insert(&mut self, image: CachedPageImage<T>)
        ensures
            final(self)@ == cache_inserted(old(self)@, image),
    {
        let _ = self.take(image.page, image.zoom_percent, image.render_width_px, image.font_w, image.font_h);
        let ghost rest = self@;
        self.entries.push_front(image);
        let ghost s = self@;
        assert(s =~= seq![image] + rest);
        while self.entries.len() > PAGE_IMAGE_CACHE_MAX
            invariant
                self@.len() <= s.len(),
                self@ == s.take(self@.len() as int),
                s.len() > PAGE_IMAGE_CACHE_MAX ==> self@.len() >= PAGE_IMAGE_CACHE_MAX,
                s.len() <= PAGE_IMAGE_CACHE_MAX ==> self@ == s,
            decreases self.entries.len(),
        {
            let _ = self.entries.pop_back();
            assert(self@ =~= s.take(self@.len() as int));
        }
        assert(s.len() <= PAGE_IMAGE_CACHE_MAX ==> s.take(s.len() as int) =~= s);
    }
}

/// The reader: the open book and page, scroll, zoom and pan, and what was last
/// laid out (text or an image of type `P`, rasterized pages of type `T`).
pub struct ReaderPanel<T, P> {
    pub open: bool,
    pub book_path: Option<String>,
    pub book_title: Option<String>,
    pub page: u32,
    pub total_pages: Option<u32>,
    pub scroll: u16,
    pub image_zoom_percent: u16,
    pub image_pan_x_px: u32,
    pub image_pan_y_px: u32,
    pub page_image: Option<CachedPageImage<T>>,
    pub page_image_cache: PageImageCache<T>,
    pub current_text: Option<String>,
    pub current_image: Option<P>,
    pub last_error: Option<String>,
    pub notice: Option<String>,
    pub render_key: Option<ReaderRenderKey>,
    pub last_image_timings: Option<ReaderImageTimings>,
    pub next_kitty_image_id: u32,
}

/// Zoom limits and step, in percent.
pub const ZOOM_MIN: u16 = 50;
pub const ZOOM_MAX: u16 = 400;
pub const ZOOM_STEP: u16 = 25;

pub open spec fn opt_view(o: Option<String>) -> Option<Seq<char>> {
    match o {
        Some(s) => Some(s@),
        None => None,
    }
}

/// The zero-based page a book opens at: the saved 1-based page (1 when none
/// is saved) minus one, kept below the page count when that is known.
pub open spec fn opening_page(saved: Option<u32>, total: Option<u32>) -> u32 {
    let s: u32 = match saved {
        Some(p) => p,
        None => 1,
    };
    let p: u32 = if s == 0 {
        0
    } else {
        (s - 1) as u32
    };
    match total {
        Some(t) => if t > 0 && p > t - 1 {
            (t - 1) as u32
        } else {
            p
        },
        None => p,
    }
}

/// The page after turning forward: one on, at most the last page when the
/// page count is known (unchanged for a book of no pages).
pub open spec fn next_page_of(page: u32, total: Option<u32>) -> u32 {
    match total {
        None => if page == u32::MAX {
            u32::MAX
        } else {
            (page + 1) as u32
        },
        Some(t) => if t == 0 {
            page
        } else if page + 1 < t - 1 {
            (page + 1) as u32
        } else {
            (t - 1) as u32
        },
    }
}

/// The page after turning back: one back, stopping at the first.
pub open spec fn prev_page_of(page: u32) -> u32 {
    if page == 0 {
        0
    } else {
        (page - 1) as u32
    }
}

/// The scroll after one line up: one less, stopping at the top.
pub open spec fn scrolled_up(scroll: u16) -> u16 {
    if scroll == 0 {
        0
    } else {
        (scroll - 1) as u16
    }
}

/// The scroll after one line down in a text of `n` lines: one more, at most
/// the last line.
pub open spec fn scrolled_down(scroll: u16, n: u16) -> u16 {
    let last: int = if n == 0 {
        0
    } else {
        n - 1
    };
    if scroll + 1 < last {
        (scroll + 1) as u16
    } else {
        last as u16
    }
}

/// The zoom after zooming in: 25% more, at most 400%.
pub open spec fn zoom_in_of(z: u16) -> u16 {
    clamp_zoom(if z + ZOOM_STEP > ZOOM_MAX {
        ZOOM_MAX
    } else {
        (z + ZOOM_STEP) as u16
    })
}

/// The zoom after zooming out: 25% less, at least 50%.
pub open spec fn zoom_out_of(z: u16) -> u16 {
    clamp_zoom(if z < ZOOM_MIN + ZOOM_STEP {
        ZOOM_MIN
    } else {
        (z - ZOOM_STEP) as u16
    })
}

/// `z` kept within the zoom limits.
pub open spec fn clamp_zoom(z: u16) -> u16 {
    if z < ZOOM_MIN {
        ZOOM_MIN
    } else if z > ZOOM_MAX {
        ZOOM_MAX
    } else {
        z
    }
}

/// The notice shown after a zoom change.
pub open spec fn zoom_notice(z: u16) -> Seq<char> {
    "zoom: "@ + decimal(z as nat) + "%"@
}

impl<T, P> ReaderPanel<T, P> {
    /// Nothing laid out, nothing scrolled or panned, no messages.
    pub open spec fn render_cleared(self) -> bool {
        &&& self.scroll == 0
        &&& self.image_pan_x_px == 0
        &&& self.image_pan_y_px == 0
        &&& self.page_image is None
        &&& self.current_text is None
        &&& self.current_image is None
        &&& self.last_error is None
        &&& self.notice is None
        &&& self.render_key is None
        &&& self.last_image_timings is None
    }

    /// Nothing laid out, no pan, no scroll, no error, no timings; the notice
    /// is left free (see `render_cleared`).
    pub open spec fn render_cleared_but_notice(self) -> bool {
        &&& self.scroll == 0
        &&& self.image_pan_x_px == 0
        &&& self.image_pan_y_px == 0
        &&& self.page_image is None
        &&& self.current_text is None
        &&& self.current_image is None
        &&& self.last_error is None
        &&& self.render_key is None
        &&& self.last_image_timings is None
    }

    /// Same book, page, zoom and image cache.
    pub open spec fn same_place(self, other: Self) -> bool {
        &&& self.open == other.open
        &&& self.book_path == other.book_path
        &&& self.book_title == other.book_title
        &&& self.page == other.page
        &&& self.total_pages == other.total_pages
        &&& self.image_zoom_percent == other.image_zoom_percent
        &&& self.page_image_cache@ == other.page_image_cache@
        &&& self.next_kitty_image_id == other.next_kitty_image_id
    }

    /// Same book, zoom and image cache; the page may differ.
    pub open spec fn same_place_but_page(self, other: Self) -> bool {
        &&& self.open == other.open
        &&& self.book_path == other.book_path
        &&& self.book_title == other.book_title
        &&& self.total_pages == other.total_pages
        &&& self.image_zoom_percent == other.image_zoom_percent
        &&& self.page_image_cache@ == other.page_image_cache@
        &&& self.next_kitty_image_id == other.next_kitty_image_id
    }

    /// Equal in everything but the notice.
    pub open spec fn same_view_but_notice(self, other: Self) -> bool {
        &&& self.same_place(other)
        &&& self.scroll == other.scroll
        &&& self.image_pan_x_px == other.image_pan_x_px
        &&& self.image_pan_y_px == other.image_pan_y_px
        &&& self.page_image == other.page_image
        &&& self.current_text == other.current_text
        &&& self.current_image == other.current_image
        &&& self.last_error == other.last_error
        &&& self.render_key == other.render_key
        &&& self.last_image_timings == other.last_image_timings
    }

    /// Equal in everything but what was laid out.
    pub open spec fn same_view(self, other: Self) -> bool {
        &&& self.same_place(other)
        &&& self.scroll == other.scroll
        &&& self.image_pan_x_px == other.image_pan_x_px
        &&& self.image_pan_y_px == other.image_pan_y_px
        &&& self.page_image == other.page_image
        &&& self.notice == other.notice
    }

    /// As `new` makes it: closed, no book, page 0, zoom 100%, an empty image
    /// cache, the first kitty image id, nothing laid out.
    pub open spec fn is_fresh(self) -> bool {
        &&& !self.open
        &&& self.book_path is None
        &&& self.book_title is None
        &&& self.page == 0
        &&& self.total_pages is None
        &&& self.image_zoom_percent == 100
        &&& self.page_image_cache@.len() == 0
        &&& self.next_kitty_image_id == 1
        &&& self.render_cleared()
    }

    /// A closed reader at page 0, zoom 100%, with nothing laid out.
    pub fn new() -> (r: Self)
        ensures
            r.is_fresh(),
    {
        ReaderPanel {
            open: false,
            book_path: None,
            book_title: None,
            page: 0,
            total_pages: None,
            scroll: 0,
            image_zoom_percent: 100,
            image_pan_x_px: 0,
            image_pan_y_px: 0,
            page_image: None,
            page_image_cache: PageImageCache::new(),
            current_text: None,
            current_image: None,
            last_error: None,
            notice: None,
            render_key: None,
            last_image_timings: None,
            next_kitty_image_id: 1,
        }
    }

    /// Forgets what was laid out, the scroll, the pan and any message.
    pub fn invalidate_render(&mut self)
        ensures
            final(self).render_cleared(),
            final(self).same_place(*old(self)),
    {
        self.scroll = 0;
        self.image_pan_x_px = 0;
        self.image_pan_y_px = 0;
        self.page_image = None;
        self.current_text = None;
        self.current_image = None;
        self.last_error = None;
        self.notice = None;
        self.render_key = None;
        self.last_image_timings = None;
    }

    /// Opens `book` at its saved page; `total_pages` is its page count when
    /// that could be read.
    pub fn open_book(&mut self, book: &Book, ctx: &AppContext, total_pages: Option<u32>)
        ensures
            final(self).open,
            opt_view(final(self).book_path) == Some(book.path@),
            opt_view(final(self).book_title) == Some(book.title@),
            final(self).page_image_cache@.len() == 0,
            final(self).page == opening_page(
                if ctx.progress_by_path@.contains_key(book.path@) {
                    Some(ctx.progress_by_path@[book.path@])
                } else {
                    None
                },
                total_pages,
            ),
            final(self).total_pages == total_pages,
            final(self).image_zoom_percent == old(self).image_zoom_percent,
            final(self).next_kitty_image_id == old(self).next_kitty_image_id,
            final(self).render_cleared(),
    {
        self.open = true;
        self.book_path = Some(book.path.clone());
        self.book_title = Some(book.title.clone());
        self.page_image_cache.clear();
        let saved: u32 = match ctx.progress_by_path.get(&book.path) {
            Some(p) => *p,
            None => 1,
        };
        self.page = if saved == 0 {
            0
        } else {
            saved - 1
        };
        self.total_pages = total_pages;
        if let Some(total) = total_pages {
            if total > 0 && self.page > total - 1 {
                self.page = total - 1;
            }
        }
        self.invalidate_render();
    }

    /// The open book, when there is one.
    pub fn current_book(&self) -> (r: Option<Book>)
        ensures
            match (self.book_path, self.book_title) {
                (Some(p), Some(t)) => r matches Some(b) && b.path@ == p@ && b.title@ == t@
                    && b.last_opened is None && !b.favorite,
                _ => r is None,
            },
    {
        match (&self.book_path, &self.book_title) {
            (Some(p), Some(t)) => Some(
                Book { path: p.clone(), title: t.clone(), last_opened: None, favorite: false },
            ),
            _ => None,
        }
    }

    /// Keeps a rasterized page in the cache (see `PageImageCache::insert`).
    pub fn cache_page_image(&mut self, image: CachedPageImage<T>)
        ensures
            final(self).page_image_cache@ == cache_inserted(old(self).page_image_cache@, image),
            final(self).page_image == old(self).page_image,
            final(self).current_text == old(self).current_text,
            final(self).page == old(self).page,
    {
        self.page_image_cache.insert(image);
    }

    /// Next page: one on, at most the last page when the count is known
    /// (nothing happens for a book of no pages).
    pub fn next_page(&mut self)
        requires
            old(self).total_pages matches Some(t) && t > 0 ==> old(self).page < u32::MAX,
        ensures
            match old(self).total_pages {
                None => final(self).page == (if old(self).page == u32::MAX {
                    u32::MAX
                } else {
                    (old(self).page + 1) as u32
                }) && final(self).render_cleared(),
                Some(t) => if t == 0 {
                    *final(self) == *old(self)
                } else {
                    final(self).page == (if old(self).page + 1 < t - 1 {
                        (old(self).page + 1) as u32
                    } else {
                        (t - 1) as u32
                    }) && final(self).render_cleared()
                },
            },
            final(self).page == next_page_of(old(self).page, old(self).total_pages),
            final(self).same_place_but_page(*old(self)),
    {
        match self.total_pages {
            None => {
                self.page = self.page.saturating_add(1);
                self.invalidate_render();
            },
            Some(total) => {
                if total == 0 {
                    return;
                }
                let next = self.page + 1;
                self.page = if next < total - 1 {
                    next
                } else {
                    total - 1
                };
                self.invalidate_render();
            },
        }
    }

    /// Previous page, stopping at the first.
    pub fn prev_page(&mut self)
        ensures
            final(self).page == prev_page_of(old(self).page),
            final(self).page == (if old(self).page == 0 {
                0
            } else {
                (old(self).page - 1) as u32
            }),
            final(self).render_cleared(),
            final(self).same_place_but_page(*old(self)),
    {
        self.page = self.page.saturating_sub(1);
        self.invalidate_render();
    }

    /// One line up, stopping at the top.
    pub fn scroll_up(&mut self)
        ensures
            final(self).scroll == (if old(self).scroll == 0 {
                0
            } else {
                (old(self).scroll - 1) as u16
            }),
            final(self).scroll == scrolled_up(old(self).scroll),
            final(self).same_place(*old(self)),
            final(self).current_text == old(self).current_text,
    {
        self.scroll = self.scroll.saturating_sub(1);
    }

    /// One line down, stopping at the last line of the laid-out text; nothing
    /// happens without laid-out text.
    pub fn scroll_down(&mut self)
        requires
            old(self).current_text is Some ==> old(self).scroll < u16::MAX,
        ensures
            final(self).scroll == match old(self).current_text {
                Some(t) => {
                    let n = line_count16(t@);
                    let last: int = if n == 0 {
                        0
                    } else {
                        n - 1
                    };
                    if old(self).scroll + 1 < last {
                        (old(self).scroll + 1) as u16
                    } else {
                        last as u16
                    }
                },
                None => old(self).scroll,
            },
            final(self).scroll == match old(self).current_text {
                Some(t) => scrolled_down(old(self).scroll, line_count16(t@)),
                None => old(self).scroll,
            },
            final(self).same_place(*old(self)),
            final(self).current_text == old(self).current_text,
    {
        let lines = match &self.current_text {
            Some(text) => line_count_u16(text.as_str()),
            None => {
                return;
            },
        };
        let last = if lines == 0 {
            0
        } else {
            lines - 1
        };
        let next = self.scroll + 1;
        self.scroll = if next < last {
            next
        } else {
            last
        };
    }

    /// Moves the image view by whole pixels, saturating at zero and at the
    /// `u32` limit; the image is laid out again.
    pub fn pan_image_by_pixels(&mut self, dx_px: i32, dy_px: i32)
        ensures
            final(self).image_pan_x_px == add_signed(old(self).image_pan_x_px, dx_px),
            final(self).image_pan_y_px == add_signed(old(self).image_pan_y_px, dy_px),
            final(self).current_image is None,
            final(self).render_key is None,
            final(self).same_place(*old(self)),
            final(self).page_image == old(self).page_image,
            final(self).current_text == old(self).current_text,
            final(self).scroll == old(self).scroll,
            final(self).notice == old(self).notice,
    {
        self.image_pan_x_px = add_signed_u32(self.image_pan_x_px, dx_px);
        self.image_pan_y_px = add_signed_u32(self.image_pan_y_px, dy_px);
        self.current_image = None;
        self.render_key = None;
    }

    /// Moves the image view by whole cells of the given font size (at least
    /// one pixel each way).
    pub fn pan_image_by_cells(&mut self, font_w: u16, font_h: u16, dx_cols: i32, dy_rows: i32)
        ensures
            final(self).image_pan_x_px == add_signed(
                old(self).image_pan_x_px,
                saturating_i32(dx_cols * (if font_w == 0 { 1 } else { font_w as int })),
            ),
            final(self).image_pan_y_px == add_signed(
                old(self).image_pan_y_px,
                saturating_i32(dy_rows * (if font_h == 0 { 1 } else { font_h as int })),
            ),
            final(self).current_image is None,
            final(self).render_key is None,
            final(self).same_place(*old(self)),
            final(self).page_image == old(self).page_image,
            final(self).current_text == old(self).current_text,
    {
        let fw: i64 = if font_w == 0 {
            1
        } else {
            font_w as i64
        };
        let fh: i64 = if font_h == 0 {
            1
        } else {
            font_h as i64
        };
        assert(-0x8000_0000 * 0xffff <= dx_cols as i64 * fw <= 0x7fff_ffff * 0xffff) by (nonlinear_arith)
            requires
                1 <= fw <= 0xffff,
                -0x8000_0000 <= dx_cols <= 0x7fff_ffff,
        ;
        assert(-0x8000_0000 * 0xffff <= dy_rows as i64 * fh <= 0x7fff_ffff * 0xffff) by (nonlinear_arith)
            requires
                1 <= fh <= 0xffff,
                -0x8000_0000 <= dy_rows <= 0x7fff_ffff,
        ;
        let dx = clamp_i32(dx_cols as i64 * fw);
        let dy = clamp_i32(dy_rows as i64 * fh);
        self.pan_image_by_pixels(dx, dy);
    }

    /// Sets the zoom, kept within 50% and 400%. A change resets the pan,
    /// drops the rasterized page and the image, and says the new zoom.
    pub fn set_image_zoom_percent(&mut self, zoom_percent: u16)
        ensures
            clamp_zoom(zoom_percent) == old(self).image_zoom_percent ==> *final(self) == *old(self),
            clamp_zoom(zoom_percent) != old(self).image_zoom_percent ==> {
                &&& final(self).image_zoom_percent == clamp_zoom(zoom_percent)
                &&& final(self).image_pan_x_px == 0
                &&& final(self).image_pan_y_px == 0
                &&& final(self).page_image is None
                &&& final(self).current_image is None
                &&& final(self).render_key is None
                &&& opt_view(final(self).notice) == Some(zoom_notice(clamp_zoom(zoom_percent)))
                &&& final(self).current_text == old(self).current_text
                &&& final(self).scroll == old(self).scroll
                &&& final(self).page == old(self).page
                &&& final(self).book_path == old(self).book_path
                &&& final(self).open == old(self).open
            },
    {
        let z = if zoom_percent < ZOOM_MIN {
            ZOOM_MIN
        } else if zoom_percent > ZOOM_MAX {
            ZOOM_MAX
        } else {
            zoom_percent
        };
        if z == self.image_zoom_percent {
            return;
        }
        self.image_zoom_percent = z;
        self.image_pan_x_px = 0;
        self.image_pan_y_px = 0;
        self.page_image = None;
        self.current_image = None;
        self.render_key = None;
        self.notice = Some(zoom_text(z));
    }

    /// Zooms in by 25%, up to 400%.
    pub fn zoom_image_in(&mut self)
        ensures
            final(self).image_zoom_percent == zoom_in_of(old(self).image_zoom_percent),
            final(self).image_zoom_percent == clamp_zoom(
                if old(self).image_zoom_percent + ZOOM_STEP > ZOOM_MAX {
                    ZOOM_MAX
                } else {
                    (old(self).image_zoom_percent + ZOOM_STEP) as u16
                },
            ),
            final(self).page == old(self).page,
            final(self).book_path == old(self).book_path,
    {
        let z = if self.image_zoom_percent > ZOOM_MAX - ZOOM_STEP {
            ZOOM_MAX
        } else {
            self.image_zoom_percent + ZOOM_STEP
        };
        self.set_image_zoom_percent(z);
    }

    /// Zooms out by 25%, down to 50%.
    pub fn zoom_image_out(&mut self)
        ensures
            final(self).image_zoom_percent == zoom_out_of(old(self).image_zoom_percent),
            final(self).image_zoom_percent == clamp_zoom(
                if old(self).image_zoom_percent < ZOOM_MIN + ZOOM_STEP {
                    ZOOM_MIN
                } else {
                    (old(self).image_zoom_percent - ZOOM_STEP) as u16
                },
            ),
            final(self).page == old(self).page,
            final(self).book_path == old(self).book_path,
    {
        let z = if self.image_zoom_percent < ZOOM_MIN + ZOOM_STEP {
            ZOOM_MIN
        } else {
            self.image_zoom_percent - ZOOM_STEP
        };
        self.set_image_zoom_percent(z);
    }

    /// Back to 100% with no pan, saying so.
    pub fn reset_image_view(&mut self)
        ensures
            final(self).image_zoom_percent == 100,
            final(self).image_pan_x_px == 0,
            final(self).image_pan_y_px == 0,
            opt_view(final(self).notice) == Some(zoom_notice(100)),
            final(self).page == old(self).page,
            final(self).book_path == old(self).book_path,
            old(self).image_zoom_percent != 100 ==> final(self).page_image is None
                && final(self).current_image is None && final(self).render_key is None,
    {
        self.image_pan_x_px = 0;
        self.image_pan_y_px = 0;
        self.set_image_zoom_percent(100);
        self.notice = Some(zoom_text(100));
    }
}

/// `x` kept within the `i32` range.
pub open spec fn saturating_i32(x: int) -> i32 {
    if x < i32::MIN {
        i32::MIN
    } else if x > i32::MAX {
        i32::MAX
    } else {
        x as i32
    }
}

fn clamp_i32(x: i64) -> (r: i32)
    ensures
        r == saturating_i32(x as int),
{
    if x < -0x8000_0000 {
        i32::MIN
    } else if x > 0x7fff_ffff {
        i32::MAX
    } else {
        x as i32
    }
}

/// `zoom: N%`.
pub fn zoom_text(z: u16) -> (s: String)
    ensures
        s@ == zoom_notice(z),
{
    let mut v = chars_of("zoom: ");
    let d = decimal_string(z as u64);
    extend_chars(&mut v, chars_of(d.as_str()).as_slice());
    v.push('%');
    proof {
        reveal_strlit("%");
    }
    assert(v@ =~= zoom_notice(z));
    string_of(v.as_slice())
}

/// What `begin_render` leaves to the caller.
pub enum RenderStep {
    /// The viewport shows what it should; nothing to do.
    Ready,
    /// Lay out the text of the book's page for this key.
    Text(ReaderRenderKey, Book),
    /// Show the book's page as an image for this key.
    Image(ReaderRenderKey, Book),
}

pub open spec fn at_least_one(x: u16) -> u16 {
    if x == 0 {
        1
    } else {
        x
    }
}

/// The two messages shown in place of an image that could not be made.
pub open spec fn image_failure_text(protocol: bool, err: Seq<char>, fallback: Seq<char>) -> Seq<char> {
    (if protocol {
        "(image protocol failed; showing text)\n(error: "@
    } else {
        "(image render failed; showing text)\n(error: "@
    }) + err + ")\n\n"@ + fallback
}

fn failure_text(protocol: bool, err: &str, fallback: &str) -> (s: String)
    ensures
        s@ == image_failure_text(protocol, err@, fallback@),
{
    let mut v = if protocol {
        chars_of("(image protocol failed; showing text)\n(error: ")
    } else {
        chars_of("(image render failed; showing text)\n(error: ")
    };
    extend_chars(&mut v, chars_of(err).as_slice());
    extend_chars(&mut v, chars_of(")\n\n").as_slice());
    extend_chars(&mut v, chars_of(fallback).as_slice());
    string_of(v.as_slice())
}

impl<T, P> ReaderPanel<T, P> {
    /// The key the viewport is laid out for with these settings and size
    /// (each side at least 1).
    pub open spec fn key_for(self, mode: ReaderMode, text_mode: ReaderTextMode, width: u16, height: u16) -> ReaderRenderKey {
        ReaderRenderKey {
            page: self.page,
            mode,
            text_mode,
            width: at_least_one(width),
            height: at_least_one(height),
        }
    }

    pub open spec fn has_book(self) -> bool {
        self.book_path is Some && self.book_title is Some
    }

    /// The viewport already shows the open book's page for this mode, layout
    /// and size: something is laid out, for exactly this key.
    pub open spec fn render_ready(self, mode: ReaderMode, text_mode: ReaderTextMode, width: u16, height: u16) -> bool {
        &&& self.has_book()
        &&& (self.current_text is Some || self.current_image is Some)
        &&& self.render_key == Some(self.key_for(mode, text_mode, width, height))
    }

    /// Same book and page.
    pub open spec fn same_book_page(self, other: Self) -> bool {
        &&& self.book_path == other.book_path
        &&& self.book_title == other.book_title
        &&& self.page == other.page
    }

    /// Whether `b` is the open book.
    pub open spec fn is_open_book(self, b: Book) -> bool {
        &&& opt_view(self.book_path) == Some(b.path@)
        &&& opt_view(self.book_title) == Some(b.title@)
        &&& b.last_opened is None
        &&& !b.favorite
    }

    /// First step of laying out the viewport: records `no book` when none is
    /// open, does nothing when the viewport already shows this key, else says
    /// whether text or an image is to be made.
    pub fn begin_render(&mut self, mode: ReaderMode, text_mode: ReaderTextMode, width: u16, height: u16) -> (step: RenderStep)
        ensures
            ({
                let key = old(self).key_for(mode, text_mode, width, height);
                if !old(self).has_book() {
                    &&& step is Ready
                    &&& final(self).current_text is None
                    &&& opt_view(final(self).last_error) == Some("no book"@)
                    &&& final(self).render_key == Some(key)
                    &&& final(self).same_view(*old(self))
                    &&& final(self).current_image == old(self).current_image
                    &&& final(self).last_image_timings == old(self).last_image_timings
                } else if old(self).render_ready(mode, text_mode, width, height) {
                    step is Ready && *final(self) == *old(self)
                } else {
                    &&& *final(self) == *old(self)
                    &&& mode == ReaderMode::Image ==> (step matches RenderStep::Image(k, b) && k == key
                        && old(self).is_open_book(b))
                    &&& mode == ReaderMode::Text ==> (step matches RenderStep::Text(k, b) && k == key
                        && old(self).is_open_book(b))
                }
            }),
    {
        let width = if width == 0 {
            1
        } else {
            width
        };
        let height = if height == 0 {
            1
        } else {
            height
        };
        let key = ReaderRenderKey { page: self.page, mode, text_mode, width, height };
        let book = match self.current_book() {
            Some(b) => b,
            None => {
                self.current_text = None;
                self.last_error = Some(string_of(chars_of("no book").as_slice()));
                self.render_key = Some(key);
                return RenderStep::Ready;
            },
        };
        if self.current_text.is_some() || self.current_image.is_some() {
            match self.render_key {
                Some(k) => {
                    if k == key {
                        return RenderStep::Ready;
                    }
                },
                None => {},
            }
        }
        match mode {
            ReaderMode::Image => RenderStep::Image(key, book),
            ReaderMode::Text => RenderStep::Text(key, book),
        }
    }

    /// Last step of laying out text: the page's text (or why it could not be
    /// had) is laid out for `key`, and the scroll kept within its lines.
    pub fn finish_text_render(&mut self, key: ReaderRenderKey, result: Result<String, String>, kitty_ok: bool)
        ensures
            match result {
                Ok(text) => {
                    let laid = laid_out(text@, key.text_mode, kitty_ok, key.width, key.height);
                    let n = line_count16(laid);
                    &&& opt_view(final(self).current_text) == Some(laid)
                    &&& final(self).scroll == (if n == 0 {
                        0
                    } else if old(self).scroll < n - 1 {
                        old(self).scroll as int
                    } else {
                        n - 1
                    })
                    &&& final(self).last_error is None
                },
                Err(e) => {
                    &&& final(self).current_text is None
                    &&& opt_view(final(self).last_error) == Some(e@)
                    &&& final(self).scroll == old(self).scroll
                },
            },
            final(self).current_image is None,
            final(self).last_image_timings is None,
            final(self).render_key == Some(key),
            final(self).same_place(*old(self)),
            final(self).page_image == old(self).page_image,
            final(self).notice == old(self).notice,
            final(self).image_pan_x_px == old(self).image_pan_x_px,
            final(self).image_pan_y_px == old(self).image_pan_y_px,
    {
        match result {
            Ok(text) => {
                let laid = layout_page_text(text.as_str(), key.text_mode, kitty_ok, key.width, key.height);
                let lines = line_count_u16(laid.as_str());
                if lines == 0 {
                    self.scroll = 0;
                } else if self.scroll > lines - 1 {
                    self.scroll = lines - 1;
                }
                self.current_text = Some(laid);
                self.current_image = None;
                self.last_error = None;
                self.last_image_timings = None;
            },
            Err(e) => {
                self.current_text = None;
                self.current_image = None;
                self.last_error = Some(e);
                self.last_image_timings = None;
            },
        }
        self.render_key = Some(key);
    }

    /// Whether the page is shown whole: 100% zoom and no pan.
    pub fn fits_page_to_frame(&self) -> (b: bool)
        ensures
            b == (self.image_zoom_percent == 100 && self.image_pan_x_px == 0 && self.image_pan_y_px == 0),
    {
        self.image_zoom_percent == 100 && self.image_pan_x_px == 0 && self.image_pan_y_px == 0
    }

    /// Whether the page must be rasterized (again) for this width and font.
    pub fn needs_page_image(&self, render_width_px: u32, font_w: u16, font_h: u16) -> (b: bool)
        ensures
            b == match self.page_image {
                None => true,
                Some(c) => !rasterized_for(c, self.page, self.image_zoom_percent, render_width_px, font_w, font_h),
            },
    {
        match &self.page_image {
            None => true,
            Some(c) => !(c.page == self.page && c.zoom_percent == self.image_zoom_percent
                && c.render_width_px == render_width_px && c.font_w == font_w && c.font_h == font_h),
        }
    }

    /// Takes the page image for this width and font from the cache, if it is
    /// there; says whether it was.
    pub fn reuse_cached_image(&mut self, render_width_px: u32, font_w: u16, font_h: u16) -> (found: bool)
        ensures
            found == (first_match(old(self).page_image_cache@, old(self).page, old(self).image_zoom_percent, render_width_px, font_w, font_h) is Some),
            found ==> final(self).page_image == Some(old(self).page_image_cache@[first_match(old(self).page_image_cache@, old(self).page, old(self).image_zoom_percent, render_width_px, font_w, font_h)->0])
                && final(self).page_image_cache@ == without_first_match(old(self).page_image_cache@, old(self).page, old(self).image_zoom_percent, render_width_px, font_w, font_h),
            !found ==> final(self).page_image == old(self).page_image
                && final(self).page_image_cache@ == old(self).page_image_cache@,
            final(self).page == old(self).page,
            final(self).same_book_page(*old(self)),
            final(self).current_text == old(self).current_text,
            final(self).render_key == old(self).render_key,
    {
        let page = self.page;
        let zoom = self.image_zoom_percent;
        let ghost before = self.page_image_cache@;
        match self.page_image_cache.take(page, zoom, render_width_px, font_w, font_h) {
            Some(c) => {
                self.page_image = Some(c);
                true
            },
            None => false,
        }
    }

    /// Makes a freshly rasterized page the page image and caches a copy.
    pub fn keep_page_image(&mut self, render_width_px: u32, font_w: u16, font_h: u16, image: T)
        where T: Clone,
        ensures
            final(self).page_image == Some(
                CachedPageImage {
                    page: old(self).page,
                    zoom_percent: old(self).image_zoom_percent,
                    render_width_px,
                    font_w,
                    font_h,
                    image,
                },
            ),
            final(self).page_image_cache@ == cache_inserted(
                old(self).page_image_cache@,
                CachedPageImage {
                    page: old(self).page,
                    zoom_percent: old(self).image_zoom_percent,
                    render_width_px,
                    font_w,
                    font_h,
                    image: final(self).page_image_cache@[0].image,
                },
            ),
            final(self).page == old(self).page,
            final(self).same_book_page(*old(self)),
            final(self).current_text == old(self).current_text,
            final(self).render_key == old(self).render_key,
    {
        let copy = CachedPageImage {
            page: self.page,
            zoom_percent: self.image_zoom_percent,
            render_width_px,
            font_w,
            font_h,
            image: image.clone(),
        };
        self.page_image_cache.insert(copy);
        self.page_image = Some(
            CachedPageImage {
                page: self.page,
                zoom_percent: self.image_zoom_percent,
                render_width_px,
                font_w,
                font_h,
                image,
            },
        );
    }

    /// The page could not be rasterized: its text is shown instead.
    pub fn fail_image_render(&mut self, key: ReaderRenderKey, err: &str, fallback: &str)
        ensures
            final(self).page_image is None,
            opt_view(final(self).current_text) == Some(image_failure_text(false, err@, fallback@)),
            final(self).current_image is None,
            final(self).last_error is None,
            final(self).render_key == Some(key),
            final(self).same_place(*old(self)),
            final(self).scroll == old(self).scroll,
            final(self).notice == old(self).notice,
            final(self).last_image_timings == old(self).last_image_timings,
    {
        self.page_image = None;
        self.current_text = Some(failure_text(false, err, fallback));
        self.current_image = None;
        self.last_error = None;
        self.render_key = Some(key);
    }

    /// No page image to show: says so.
    pub fn miss_page_image(&mut self, key: ReaderRenderKey)
        ensures
            opt_view(final(self).current_text) == Some("no image cached"@),
            final(self).current_image is None,
            final(self).last_error is None,
            final(self).render_key == Some(key),
            final(self).same_place(*old(self)),
            final(self).page_image == old(self).page_image,
            final(self).scroll == old(self).scroll,
            final(self).notice == old(self).notice,
    {
        self.current_text = Some(string_of(chars_of("no image cached").as_slice()));
        self.current_image = None;
        self.last_error = None;
        self.render_key = Some(key);
    }

    /// The image shown for `key` is ready.
    pub fn finish_image_render(&mut self, key: ReaderRenderKey, image: P, timings: ReaderImageTimings)
        ensures
            final(self).current_text is None,
            final(self).current_image == Some(image),
            final(self).last_error is None,
            final(self).last_image_timings == Some(timings),
            final(self).render_key == Some(key),
            final(self).same_place(*old(self)),
            final(self).page_image == old(self).page_image,
            final(self).scroll == old(self).scroll,
            final(self).notice == old(self).notice,
    {
        self.current_text = None;
        self.current_image = Some(image);
        self.last_error = None;
        self.last_image_timings = Some(timings);
        self.render_key = Some(key);
    }

    /// The image could not be prepared for the terminal: its text is shown
    /// instead.
    pub fn fail_image_protocol(&mut self, key: ReaderRenderKey, err: &str, fallback: &str, timings: ReaderImageTimings)
        ensures
            opt_view(final(self).current_text) == Some(image_failure_text(true, err@, fallback@)),
            final(self).current_image is None,
            final(self).last_error is None,
            final(self).last_image_timings == Some(timings),
            final(self).render_key == Some(key),
            final(self).same_place(*old(self)),
            final(self).page_image == old(self).page_image,
            final(self).scroll == old(self).scroll,
            final(self).notice == old(self).notice,
    {
        self.current_text = Some(failure_text(true, err, fallback));
        self.current_image = None;
        self.last_error = None;
        self.last_image_timings = Some(timings);
        self.render_key = Some(key);
    }

    /// Hands out the next kitty image id; ids wrap around and skip 0.
    pub fn take_kitty_image_id(&mut self) -> (id: u32)
        ensures
            id == old(self).next_kitty_image_id,
            final(self).next_kitty_image_id == (if old(self).next_kitty_image_id == u32::MAX {
                1
            } else {
                (old(self).next_kitty_image_id + 1) as u32
            }),
            final(self).page == old(self).page,
            final(self).same_book_page(*old(self)),
            final(self).current_text == old(self).current_text,
            final(self).render_key == old(self).render_key,
    {
        let id = self.next_kitty_image_id;
        self.next_kitty_image_id = if id == u32::MAX {
            1
        } else {
            id + 1
        };
        id
    }
}

/// The viewport in pixels: cells times font size, each at least 1.
pub open spec fn viewport_px(width: u16, height: u16, font_w: u16, font_h: u16) -> (u32, u32) {
    (
        (at_least_one(width) * at_least_one(font_w)) as u32,
        (at_least_one(height) * at_least_one(font_h)) as u32,
    )
}

pub fn viewport_size_px(width: u16, height: u16, font_w: u16, font_h: u16) -> (r: (u32, u32))
    ensures
        r == viewport_px(width, height, font_w, font_h),
{
    let w = if width == 0 { 1 } else { width } as u32;
    let h = if height == 0 { 1 } else { height } as u32;
    let fw = if font_w == 0 { 1 } else { font_w } as u32;
    let fh = if font_h == 0 { 1 } else { font_h } as u32;
    assert(w * fw <= 0xffff * 0xffff) by (nonlinear_arith)
        requires
            w <= 0xffff,
            fw <= 0xffff,
    ;
    assert(h * fh <= 0xffff * 0xffff) by (nonlinear_arith)
        requires
            h <= 0xffff,
            fh <= 0xffff,
    ;
    (w * fw, h * fh)
}

/// Widest raster the reader asks for, in pixels.
pub const MAX_RENDER_WIDTH_PX: u32 = 8192;

/// The raster width for a page: the base width scaled by the zoom, then
/// kept within 1, `i32::MAX`, 8192 and the width the pixel budget allows.
pub open spec fn render_width(base: u32, zoom: u16, max_by_pixels: u32) -> u32 {
    let z: int = if zoom == 0 {
        1
    } else {
        zoom as int
    };
    let w0 = base * z / 100;
    let w1: int = if w0 < 1 {
        1
    } else if w0 > i32::MAX {
        i32::MAX as int
    } else {
        w0
    };
    let w2 = if w1 > MAX_RENDER_WIDTH_PX {
        MAX_RENDER_WIDTH_PX as int
    } else {
        w1
    };
    let w3 = if w2 > max_by_pixels {
        max_by_pixels as int
    } else {
        w2
    };
    if w3 < 1 {
        1
    } else {
        w3 as u32
    }
}

pub fn render_width_px(base: u32, zoom: u16, max_by_pixels: u32) -> (w: u32)
    ensures
        w == render_width(base, zoom, max_by_pixels),
{
    let z: u64 = if zoom == 0 {
        1
    } else {
        zoom as u64
    };
    assert(base as u64 * z <= 0xffff_ffff * 0xffff) by (nonlinear_arith)
        requires
            base <= 0xffff_ffff,
            z <= 0xffff,
    ;
    let w0 = (base as u64 * z) / 100;
    let w1: u64 = if w0 < 1 {
        1
    } else if w0 > 0x7fff_ffff {
        0x7fff_ffff
    } else {
        w0
    };
    let w2 = if w1 > MAX_RENDER_WIDTH_PX as u64 {
        MAX_RENDER_WIDTH_PX as u64
    } else {
        w1
    };
    let w3 = if w2 > max_by_pixels as u64 {
        max_by_pixels as u64
    } else {
        w2
    };
    if w3 < 1 {
        1
    } else {
        w3 as u32
    }
}

/// Cells needed for `px` pixels at `font_px` per cell (rounded up, the sum
/// saturating), at least 1 and at most `limit`.
pub open spec fn cells(px: u32, font_px: u16, limit: u16) -> u16 {
    let sum: int = if px + (font_px - 1) > u32::MAX {
        u32::MAX as int
    } else {
        px + (font_px - 1)
    };
    let n = sum / (font_px as int);
    let c: int = if n > u16::MAX {
        limit as int
    } else {
        n
    };
    let c1 = if c < 1 {
        1
    } else {
        c
    };
    if c1 > limit {
        limit
    } else {
        c1 as u16
    }
}

pub fn cells_for(px: u32, font_px: u16, limit: u16) -> (c: u16)
    requires
        font_px >= 1,
    ensures
        c == cells(px, font_px, limit),
{
    let sum: u32 = px.saturating_add((font_px - 1) as u32);
    let n: u32 = sum / (font_px as u32);
    let c: u16 = if n > 0xffff {
        limit
    } else {
        n as u16
    };
    let c1 = if c < 1 {
        1
    } else {
        c
    };
    if c1 > limit {
        limit
    } else {
        c1
    }
}

/// Where a panned, possibly smaller image sits in the viewport.
#[derive(Debug, Clone, Copy, PartialEq, Eq)]
pub struct ViewportGeometry {
    /// The pan, kept so that the viewport stays within the image.
    pub pan_x_px: u32,
    pub pan_y_px: u32,
    /// The part of the image that is shown.
    pub crop_w: u32,
    pub crop_h: u32,
    /// Where it is drawn: centred when the image is narrower or shorter.
    pub dest_x: u32,
    pub dest_y: u32,
}

pub open spec fn sat_sub(a: u32, b: u32) -> u32 {
    if a < b {
        0
    } else {
        (a - b) as u32
    }
}

pub open spec fn min_u32(a: u32, b: u32) -> u32 {
    if a < b {
        a
    } else {
        b
    }
}

pub open spec fn geometry(img_w: u32, img_h: u32, vw0: u32, vh0: u32, pan_x: u32, pan_y: u32) -> ViewportGeometry {
    let vw = if vw0 == 0 { 1 } else { vw0 };
    let vh = if vh0 == 0 { 1 } else { vh0 };
    let px = min_u32(pan_x, sat_sub(img_w, vw));
    let py = min_u32(pan_y, sat_sub(img_h, vh));
    ViewportGeometry {
        pan_x_px: px,
        pan_y_px: py,
        crop_w: min_u32(vw, sat_sub(img_w, px)),
        crop_h: min_u32(vh, sat_sub(img_h, py)),
        dest_x: if img_w < vw { ((vw - img_w) / 2) as u32 } else { 0 },
        dest_y: if img_h < vh { ((vh - img_h) / 2) as u32 } else { 0 },
    }
}

/// Places an image of `img_w` by `img_h` pixels in a viewport of `vw` by `vh`
/// (each at least 1) panned by `pan_x`, `pan_y` (see `geometry`).
pub fn viewport_geometry(img_w: u32, img_h: u32, vw: u32, vh: u32, pan_x: u32, pan_y: u32) -> (g: ViewportGeometry)
    ensures
        g == geometry(img_w, img_h, vw, vh, pan_x, pan_y),
{
    let vw = if vw == 0 { 1 } else { vw };
    let vh = if vh == 0 { 1 } else { vh };
    let max_x = img_w.saturating_sub(vw);
    let max_y = img_h.saturating_sub(vh);
    let px = if pan_x < max_x { pan_x } else { max_x };
    let py = if pan_y < max_y { pan_y } else { max_y };
    let rest_w = img_w.saturating_sub(px);
    let rest_h = img_h.saturating_sub(py);
    ViewportGeometry {
        pan_x_px: px,
        pan_y_px: py,
        crop_w: if vw < rest_w { vw } else { rest_w },
        crop_h: if vh < rest_h { vh } else { rest_h },
        dest_x: if img_w < vw { (vw - img_w) / 2 } else { 0 },
        dest_y: if img_h < vh { (vh - img_h) / 2 } else { 0 },
    }
}

/// An image placed in the viewport: the shown part lies within the image and
/// is drawn within the viewport; an image at least as large as the viewport
/// fills it; a pan that keeps the viewport within the image is kept as it is.
pub proof fn lemma_geometry_within(img_w: u32, img_h: u32, vw0: u32, vh0: u32, pan_x: u32, pan_y: u32)
    ensures
        ({
            let g = geometry(img_w, img_h, vw0, vh0, pan_x, pan_y);
            let vw: int = if vw0 == 0 { 1 } else { vw0 as int };
            let vh: int = if vh0 == 0 { 1 } else { vh0 as int };
            &&& g.pan_x_px + g.crop_w <= img_w
            &&& g.pan_y_px + g.crop_h <= img_h
            &&& g.dest_x + g.crop_w <= vw
            &&& g.dest_y + g.crop_h <= vh
            &&& img_w >= vw ==> g.crop_w == vw
            &&& img_h >= vh ==> g.crop_h == vh
            &&& pan_x + vw <= img_w ==> g.pan_x_px == pan_x
            &&& pan_y + vh <= img_h ==> g.pan_y_px == pan_y
        }),
{
}

/// Cells round up: the count of cells is the least one whose pixels cover
/// `px`, whenever that count lies between 1 and `limit`.
pub proof fn lemma_cells_cover(px: u32, font_px: u16, limit: u16)
    requires
        font_px >= 1,
        px >= 1,
        px + font_px - 1 <= u32::MAX,
    ensures
        ({
            let c = cells(px, font_px, limit) as int;
            let f = font_px as int;
            let q = (px + f - 1) / f;
            &&& q <= limit ==> (c - 1) * f < px <= c * f
            &&& q > limit ==> c == limit
        }),
{
    let f = font_px as int;
    let x = px + f - 1;
    let q = x / f;
    vstd::arithmetic::div_mod::lemma_fundamental_div_mod(x, f);
    let r = x % f;
    assert(q * f + r == x);
    assert(0 <= r < f);
    assert((q - 1) * f == q * f - f) by (nonlinear_arith);
    assert(q >= 1) by (nonlinear_arith)
        requires
            q * f + r == x,
            0 <= r < f,
            x >= f,
    ;
}

/// At 100% zoom a base width within the limits is kept as it is, and any
/// raster width lies between 1 and 8192 pixels and within a non-zero pixel
/// budget.
pub proof fn lemma_render_width_bounds(base: u32, zoom: u16, max_by_pixels: u32)
    ensures
        1 <= render_width(base, zoom, max_by_pixels) <= MAX_RENDER_WIDTH_PX,
        max_by_pixels >= 1 ==> render_width(base, zoom, max_by_pixels) <= max_by_pixels,
        1 <= base <= MAX_RENDER_WIDTH_PX && base <= max_by_pixels ==> render_width(base, 100, max_by_pixels) == base,
{
    let b = base as int;
    assert(b * 100 / 100 == b) by (nonlinear_arith);
    assert(b * (100u16 as int) / 100 == b);
}

/// Turning pages keeps the reader within a book of known length: from a page
/// of the book, the next and the previous page are pages of the book.
pub proof fn lemma_pages_stay_in_book(page: u32, t: u32)
    requires
        t > 0,
        page < t,
    ensures
        next_page_of(page, Some(t)) < t,
        prev_page_of(page) < t,
{
}

/// A page turn moves by exactly one page: forward to the following page while
/// there is one, back to the preceding page past the first; on the last page
/// of a book of known length turning forward stays put.
pub proof fn lemma_page_turn_moves_one(page: u32, total: Option<u32>)
    ensures
        (match total {
            Some(t) => page + 1 < t,
            None => page < u32::MAX,
        }) ==> next_page_of(page, total) == page + 1,
        total matches Some(t) && page + 1 == t ==> next_page_of(page, total) == page,
        page > 0 ==> prev_page_of(page) == page - 1,
        prev_page_of(0) == 0,
{
}

/// Scrolling moves by one line and stays within the text: down to the next
/// line while there is one and never past the last line, up to the line
/// before past the top; scrolling up after scrolling down returns to the
/// line, unless it was already the last one.
pub proof fn lemma_scroll_moves_one(scroll: u16, n: u16)
    ensures
        scroll + 1 < n ==> scrolled_down(scroll, n) == scroll + 1,
        n > 0 ==> scrolled_down(scroll, n) < n,
        n == 0 ==> scrolled_down(scroll, n) == 0,
        scroll + 1 < n ==> scrolled_up(scrolled_down(scroll, n)) == scroll,
        scroll > 0 ==> scrolled_up(scroll) == scroll - 1,
        scrolled_up(0) == 0,
{
}

/// Turning back after turning forward returns to the page, unless the page
/// was already the last one.
pub proof fn lemma_prev_undoes_next(page: u32, total: Option<u32>)
    requires
        match total {
            Some(t) => page + 1 < t,
            None => page < u32::MAX,
        },
    ensures
        prev_page_of(next_page_of(page, total)) == page,
{
}

/// A book opens at a page of the book when its page count is known.
pub proof fn lemma_opening_page_in_book(saved: Option<u32>, t: u32)
    requires
        t > 0,
    ensures
        opening_page(saved, Some(t)) < t,
{
}

/// A book resumes where its saved 1-based page says: a saved page `p` of a
/// book of `t` pages opens at index `p - 1`, and a book with nothing saved
/// opens at its first page.
pub proof fn lemma_opening_page_resumes_saved(p: u32, total: Option<u32>)
    requires
        1 <= p,
        match total {
            Some(t) => p <= t,
            None => true,
        },
    ensures
        opening_page(Some(p), total) == p - 1,
        opening_page(None, total) == 0,
{
}

/// Zooming keeps within 50% and 400%, and zooming out undoes zooming in
/// below the top of the range.
pub proof fn lemma_zoom_steps(z: u16)
    ensures
        ZOOM_MIN <= zoom_in_of(z) <= ZOOM_MAX,
        ZOOM_MIN <= zoom_out_of(z) <= ZOOM_MAX,
        ZOOM_MIN <= z <= ZOOM_MAX - ZOOM_STEP ==> zoom_out_of(zoom_in_of(z)) == z,
        ZOOM_MIN + ZOOM_STEP <= z <= ZOOM_MAX ==> zoom_in_of(zoom_out_of(z)) == z,
{
}

/// Removing the first image rasterized for `key` from images with distinct
/// parameters leaves images with distinct parameters, none rasterized for
/// `key`, each one of the images given.
proof fn lemma_without_match_distinct<T>(s: Seq<CachedPageImage<T>>, key: CachedPageImage<T>)
    requires
        distinct_params(s),
    ensures
        ({
            let r = without_first_match(s, key.page, key.zoom_percent, key.render_width_px, key.font_w, key.font_h);
            &&& distinct_params(r)
            &&& forall|k: int| 0 <= k < r.len() ==> params_of(#[trigger] r[k]) != params_of(key)
            &&& forall|k: int| 0 <= k < r.len() ==> s.contains(#[trigger] r[k])
        }),
    decreases s.len(),
{
    if s.len() > 0 {
        let t = s.drop_first();
        assert forall|i: int, j: int| 0 <= i < j < t.len() implies params_of(#[trigger] t[i]) != params_of(#[trigger] t[j]) by {
            assert(t[i] == s[i + 1] && t[j] == s[j + 1]);
        }
        let r = without_first_match(s, key.page, key.zoom_percent, key.render_width_px, key.font_w, key.font_h);
        if rasterized_for(s[0], key.page, key.zoom_percent, key.render_width_px, key.font_w, key.font_h) {
            assert(r == t);
            assert forall|k: int| 0 <= k < r.len() implies params_of(#[trigger] r[k]) != params_of(key) by {
                assert(r[k] == s[k + 1]);
                assert(params_of(s[0]) != params_of(s[k + 1]));
            }
            assert forall|k: int| 0 <= k < r.len() implies s.contains(#[trigger] r[k]) by {
                assert(r[k] == s[k + 1]);
            }
        } else {
            lemma_without_match_distinct(t, key);
            let rt = without_first_match(t, key.page, key.zoom_percent, key.render_width_px, key.font_w, key.font_h);
            assert(r == seq![s[0]] + rt);
            assert forall|k: int| 0 <= k < r.len() implies s.contains(#[trigger] r[k]) by {
                if k == 0 {
                    assert(s[0] == r[0]);
                } else {
                    assert(r[k] == rt[k - 1]);
                    assert(t.contains(rt[k - 1]));
                    let j = choose|j: int| 0 <= j < t.len() && t[j] == rt[k - 1];
                    assert(s[j + 1] == r[k]);
                }
            }
            assert forall|k: int| 0 <= k < r.len() implies params_of(#[trigger] r[k]) != params_of(key) by {
                if k > 0 {
                    assert(r[k] == rt[k - 1]);
                }
            }
            assert forall|i: int, j: int| 0 <= i < j < r.len() implies params_of(#[trigger] r[i]) != params_of(#[trigger] r[j]) by {
                assert(r[j] == rt[j - 1]);
                if i == 0 {
                    assert(t.contains(rt[j - 1]));
                    let m = choose|m: int| 0 <= m < t.len() && t[m] == rt[j - 1];
                    assert(s[m + 1] == r[j]);
                } else {
                    assert(r[i] == rt[i - 1]);
                }
            }
        }
    }
}

/// The page image cache keeps its shape: after an image is put in, it holds
/// at most three images, the new one first, each of the others one it held
/// before, and, when no two of its images were rasterized for the same page,
/// zoom, width and font size, that still holds.
pub proof fn lemma_cache_insert_shape<T>(c: Seq<CachedPageImage<T>>, image: CachedPageImage<T>)
    requires
        distinct_params(c),
    ensures
        cache_inserted(c, image).len() <= PAGE_IMAGE_CACHE_MAX,
        cache_inserted(c, image)[0] == image,
        distinct_params(cache_inserted(c, image)),
        forall|k: int| 1 <= k < cache_inserted(c, image).len() ==> c.contains(#[trigger] cache_inserted(c, image)[k]),
{
    lemma_without_match_distinct(c, image);
    let w = without_first_match(c, image.page, image.zoom_percent, image.render_width_px, image.font_w, image.font_h);
    let s = seq![image] + w;
    let r = cache_inserted(c, image);
    assert(forall|k: int| 0 <= k < r.len() ==> r[k] == s[k]);
    assert forall|k: int| 1 <= k < r.len() implies c.contains(#[trigger] r[k]) by {
        assert(r[k] == w[k - 1]);
    }
    assert forall|i: int, j: int| 0 <= i < j < r.len() implies params_of(#[trigger] r[i]) != params_of(#[trigger] r[j]) by {
        assert(r[j] == w[j - 1]);
        if i > 0 {
            assert(r[i] == w[i - 1]);
        }
    }
}

/// Rendering is cached by key: once a render begun on a book's page has
/// laid out something for the key `begin_render` gave (every finishing step
/// records that key, and no step between them changes the book or page), the
/// viewport is ready for that mode, layout and size, so the next
/// `begin_render` with them returns `Ready` and changes nothing.
pub proof fn lemma_render_cache_hit<T, P>(
    start: ReaderPanel<T, P>,
    done: ReaderPanel<T, P>,
    mode: ReaderMode,
    text_mode: ReaderTextMode,
    width: u16,
    height: u16,
)
    requires
        start.has_book(),
        done.same_book_page(start),
        done.render_key == Some(start.key_for(mode, text_mode, width, height)),
        done.current_text is Some || done.current_image is Some,
    ensures
        done.render_ready(mode, text_mode, width, height),
        done.key_for(mode, text_mode, width, height) == start.key_for(mode, text_mode, width, height),
{
}

} // verus!
