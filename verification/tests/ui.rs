use bookshelf::library::AppContext;
use bookshelf::model::{Book, Bookmark, ReaderMode, ReaderTextMode, TocItem};
use bookshelf::page::{clamp_scroll, layout_page_text, non_text_placeholder};
use bookshelf::pathmap::PathMap;
use bookshelf::reader::{
    cells_for, render_width_px, viewport_geometry, viewport_size_px, zoom_text, CachedPageImage,
    PageImageCache, ReaderPanel, ReaderRenderKey, RenderStep,
};
use bookshelf::settings::make_settings;
use bookshelf::toc::{toc_items, OutlineEntry, OutlineTarget, PageIndex, PageRef};
use bookshelf::ui::{
    Key, KeyPress, KeyTarget, ReaderEnv, UiAction, UiExit, UiState,
};
use bookshelf::wrap::{looks_preformatted, wrap_preserving_lines, wrap_reflow_text, wrap_text};

fn key(k: Key) -> KeyPress {
    KeyPress { key: k, ctrl: false, shift: false }
}

fn ch(c: char) -> KeyPress {
    key(Key::Char(c))
}

fn env() -> ReaderEnv {
    ReaderEnv { kitty_ok: false, in_tmux: false, font_w: 8, font_h: 16 }
}

fn book(path: &str, title: &str) -> Book {
    Book { path: path.to_string(), title: title.to_string(), last_opened: None, favorite: false }
}

fn state() -> UiState<(), ()> {
    let ctx = AppContext::new(make_settings()).with_library(
        "/home".to_string(),
        vec![book("/lib/a.pdf", "Alpha"), book("/lib/b.pdf", "Beta"), book("/lib/c.pdf", "Gamma")],
    );
    UiState::new(ctx, ReaderPanel::new())
}

fn reading() -> UiState<(), ()> {
    let mut ui = state();
    ui.open_book_at(1, 500, Some(10));
    ui
}

#[test]
fn library_keys_move_open_and_quit() {
    let mut ui = state();
    assert_eq!(ui.route(), KeyTarget::Main);
    ui.handle_main_key(key(Key::Down));
    assert_eq!(ui.ctx.selected, 1);
    ui.handle_main_key(key(Key::Down));
    ui.handle_main_key(key(Key::Down));
    assert_eq!(ui.ctx.selected, 2);
    ui.handle_main_key(key(Key::Up));
    assert_eq!(ui.ctx.selected, 1);
    match ui.handle_main_key(key(Key::Enter)) {
        UiAction::OpenBook(i) => assert_eq!(i, 1),
        _ => panic!("expected OpenBook"),
    }
    match ui.handle_main_key(key(Key::Esc)) {
        UiAction::Exit(e) => assert_eq!(e, UiExit::Quit),
        _ => panic!("expected Exit"),
    }
    ui.handle_main_key(ch('s'));
    assert_eq!(ui.route(), KeyTarget::Settings);
}

#[test]
fn search_filters_and_moves_selection() {
    let mut ui = state();
    ui.ctx.selected = 2;
    ui.handle_main_key(ch('/'));
    assert_eq!(ui.route(), KeyTarget::Search);
    ui.handle_search_panel_key(ch('b'));
    assert_eq!(ui.search_panel.query, "b");
    assert_eq!(ui.visible_indices(), vec![0, 1, 2]);
    ui.handle_search_panel_key(ch('e'));
    assert_eq!(ui.visible_indices(), vec![1]);
    assert_eq!(ui.ctx.selected, 1);
    ui.handle_search_panel_key(key(Key::Backspace));
    assert_eq!(ui.search_panel.query, "b");
    ui.handle_search_panel_key(KeyPress { key: Key::Char('u'), ctrl: true, shift: false });
    assert_eq!(ui.search_panel.query, "");
    ui.handle_search_panel_key(ch('\u{7}'));
    assert_eq!(ui.search_panel.query, "");
    match ui.handle_search_panel_key(key(Key::Enter)) {
        UiAction::OpenBook(i) => assert_eq!(i, 1),
        _ => panic!("expected OpenBook"),
    }
    assert!(!ui.search_panel.open);
}

#[test]
fn opening_a_book_uses_saved_progress() {
    let mut ui = state();
    let mut progress = PathMap::new();
    progress.insert("/lib/b.pdf".to_string(), 25);
    ui.ctx = ui.ctx.clone().with_progress(progress);
    ui.open_book_at(1, 777, Some(10));
    assert!(ui.reader.open);
    assert_eq!(ui.reader.page, 9);
    assert_eq!(ui.ctx.books[1].last_opened, Some(777));
    assert_eq!(ui.ctx.opened_at_by_path.get(&"/lib/b.pdf".to_string()), Some(&777));
    assert_eq!(ui.route(), KeyTarget::Reader);
    ui.handle_reader_key(key(Key::Esc), env());
    assert!(!ui.reader.open);
    assert_eq!(ui.ctx.progress_by_path.get(&"/lib/b.pdf".to_string()), Some(&10));
}

#[test]
fn reader_turns_pages_within_the_book() {
    let mut ui = reading();
    assert_eq!(ui.reader.page, 0);
    ui.handle_reader_key(key(Key::Left), env());
    assert_eq!(ui.reader.page, 0);
    for _ in 0..12 {
        ui.handle_reader_key(key(Key::Right), env());
    }
    assert_eq!(ui.reader.page, 9);
    ui.handle_reader_key(key(Key::Left), env());
    assert_eq!(ui.reader.page, 8);
}

#[test]
fn goto_box_jumps_or_explains() {
    let mut ui = reading();
    ui.reader.page = 3;
    ui.handle_reader_key(ch('g'), env());
    assert_eq!(ui.goto_panel.input, "4");
    assert_eq!(ui.route(), KeyTarget::Goto);
    ui.handle_goto_panel_key(key(Key::Enter));
    assert_eq!(ui.reader.page, 3);
    assert_eq!(ui.reader.notice.as_deref(), Some("jumped to page 4"));
    ui.handle_reader_key(ch('g'), env());
    ui.handle_goto_panel_key(key(Key::Backspace));
    ui.handle_goto_panel_key(ch('x'));
    ui.handle_goto_panel_key(key(Key::Enter));
    assert_eq!(ui.goto_panel.error.as_deref(), Some("Enter a page number"));
    ui.handle_goto_panel_key(ch('0'));
    ui.handle_goto_panel_key(key(Key::Enter));
    assert_eq!(ui.goto_panel.error.as_deref(), Some("Invalid page number"));
    ui.handle_goto_panel_key(KeyPress { key: Key::Char('u'), ctrl: true, shift: false });
    ui.handle_goto_panel_key(ch('1'));
    ui.handle_goto_panel_key(ch('1'));
    ui.handle_goto_panel_key(key(Key::Enter));
    assert_eq!(ui.goto_panel.error.as_deref(), Some("Page out of range (1..=10)"));
    ui.handle_goto_panel_key(key(Key::Backspace));
    ui.handle_goto_panel_key(key(Key::Enter));
    assert_eq!(ui.reader.page, 0);
    assert!(!ui.goto_panel.open);
}

#[test]
fn bookmarks_are_added_once_and_kept_sorted() {
    let mut ui = reading();
    ui.reader.page = 4;
    ui.handle_reader_key(ch('b'), env());
    assert_eq!(ui.route(), KeyTarget::Bookmarks);
    ui.handle_bookmarks_panel_key(ch('a'));
    ui.handle_bookmarks_panel_key(ch('a'));
    ui.reader.page = 1;
    ui.handle_bookmarks_panel_key(ch('a'));
    let path = "/lib/b.pdf".to_string();
    assert_eq!(
        ui.ctx.bookmarks_by_path.get(&path),
        Some(&vec![Bookmark { page: 2, label: String::new() }, Bookmark { page: 5, label: String::new() }])
    );
    assert_eq!(ui.bookmarks_panel.selected, 0);
    assert!(ui.ctx.dirty_bookmark_paths.contains(&path));
    assert_eq!(ui.reader.notice.as_deref(), Some("bookmarked page 2"));
    ui.handle_bookmarks_panel_key(key(Key::Down));
    ui.handle_bookmarks_panel_key(key(Key::Down));
    assert_eq!(ui.bookmarks_panel.selected, 1);
    ui.handle_bookmarks_panel_key(key(Key::Enter));
    assert_eq!(ui.reader.page, 4);
    assert!(!ui.bookmarks_panel.open);
    ui.handle_reader_key(ch('b'), env());
    ui.handle_bookmarks_panel_key(ch('d'));
    assert_eq!(ui.bookmark_count(), 1);
}

#[test]
fn notes_are_trimmed_and_refused_when_blank() {
    let mut ui = reading();
    ui.reader.page = 2;
    ui.handle_reader_key(ch('n'), env());
    assert_eq!(ui.route(), KeyTarget::Notes);
    ui.handle_notes_panel_key(ch('a'));
    assert!(ui.notes_panel.input_open);
    assert_eq!(ui.notes_panel.input_page, 3);
    ui.handle_notes_panel_key(ch(' '));
    ui.handle_notes_panel_key(key(Key::Enter));
    assert_eq!(ui.notes_panel.error.as_deref(), Some("Note cannot be empty"));
    for c in "hi there ".chars() {
        ui.handle_notes_panel_key(ch(c));
    }
    ui.handle_notes_panel_key(key(Key::Enter));
    assert!(!ui.notes_panel.input_open);
    let notes = ui.ctx.notes_by_path.get(&"/lib/b.pdf".to_string()).unwrap();
    assert_eq!(notes.len(), 1);
    assert_eq!(notes[0].page, 3);
    assert_eq!(notes[0].body, "hi there");
    assert_eq!(ui.note_count(), 1);
}

#[test]
fn outline_panel_selects_the_current_entry() {
    let mut ui = reading();
    ui.reader.page = 5;
    let action = ui.handle_reader_key(ch('t'), env());
    let b = match action {
        UiAction::LoadToc(b) => b,
        _ => panic!("expected LoadToc"),
    };
    assert_eq!(b.path, "/lib/b.pdf");
    let items = vec![
        TocItem { title: "Intro".to_string(), page: Some(1), depth: 0 },
        TocItem { title: "ÉTUDE".to_string(), page: Some(4), depth: 0 },
        TocItem { title: "Later".to_string(), page: Some(9), depth: 1 },
    ];
    ui.finish_toc_load(b.path.clone(), Ok(items));
    assert_eq!(ui.toc_panel.selected, 1);
    for c in "étu".chars() {
        ui.handle_toc_panel_key(ch(c));
    }
    assert_eq!(ui.toc_visible_indices(), vec![1]);
    ui.handle_toc_panel_key(key(Key::Enter));
    assert_eq!(ui.reader.page, 3);
    assert!(!ui.toc_panel.open);
    match ui.open_toc_panel() {
        UiAction::Nothing => {}
        _ => panic!("outline is loaded"),
    }
    assert_eq!(ui.toc_panel.selected, 1);
}

#[test]
fn settings_and_scan_panels() {
    let mut ui = state();
    ui.handle_main_key(ch('s'));
    ui.handle_settings_panel_key(key(Key::Down));
    ui.handle_settings_panel_key(key(Key::Right));
    assert_eq!(ui.ctx.settings.kitty_image_quality, bookshelf::model::KittyImageQuality::Sharp);
    ui.handle_settings_panel_key(key(Key::Up));
    ui.handle_settings_panel_key(key(Key::Enter));
    assert_eq!(ui.route(), KeyTarget::Scan);
    ui.handle_scan_panel_key(key(Key::Enter));
    assert_eq!(ui.scan_panel.error.as_deref(), Some("Enter at least one path"));
    for c in "/b;/a, /b".chars() {
        ui.handle_scan_panel_key(ch(c));
    }
    match ui.handle_scan_panel_key(key(Key::Enter)) {
        UiAction::Exit(e) => assert_eq!(e, UiExit::Rescan),
        _ => panic!("expected Rescan"),
    }
    assert_eq!(ui.ctx.settings.library_roots, vec!["/a".to_string(), "/b".to_string()]);
}

#[test]
fn mode_keys_follow_kitty_support() {
    let mut ui = reading();
    ui.handle_reader_key(ch('m'), env());
    assert_eq!(ui.ctx.settings.reader_mode, ReaderMode::Text);
    assert_eq!(
        ui.reader.notice.as_deref(),
        Some("image mode requires kitty graphics; press k to open kitty reader")
    );
    match ui.handle_reader_key(ch('k'), env()) {
        UiAction::SpawnKitty(p, page) => {
            assert_eq!(p.as_deref(), Some("/lib/b.pdf"));
            assert_eq!(page, 0);
        }
        _ => panic!("expected SpawnKitty"),
    }
    ui.handle_reader_key(ch('r'), env());
    assert_eq!(ui.ctx.settings.reader_text_mode, ReaderTextMode::Raw);
    assert_eq!(ui.reader.notice.as_deref(), Some("text: raw"));
    let kitty = ReaderEnv { kitty_ok: true, ..env() };
    ui.handle_reader_key(ch('m'), kitty);
    assert_eq!(ui.ctx.settings.reader_mode, ReaderMode::Image);
    ui.handle_reader_key(ch('+'), kitty);
    assert_eq!(ui.reader.image_zoom_percent, 125);
    assert_eq!(ui.reader.notice.as_deref(), Some("zoom: 125%"));
    ui.handle_reader_key(KeyPress { key: Key::Right, ctrl: false, shift: true }, kitty);
    assert_eq!(ui.reader.image_pan_x_px, 40);
    ui.handle_reader_key(ch('0'), kitty);
    assert_eq!(ui.reader.image_zoom_percent, 100);
    assert_eq!(ui.reader.image_pan_x_px, 0);
    assert_eq!(ui.page_title(8, 16), "p1/10 \u{00B7} kitty 100% \u{00B7} 8x16px");
    assert_eq!(ui.reader_title(), "Reader \u{2014} Beta");
    ui.check_image_mode(false);
    assert_eq!(ui.ctx.settings.reader_mode, ReaderMode::Text);
    assert_eq!(ui.page_title(8, 16), "p1/10 \u{00B7} raw");
}

#[test]
fn boot_opens_the_named_book() {
    let mut ui = state();
    let b = ui.boot_book("/elsewhere/x.pdf".to_string(), "x".to_string());
    assert_eq!(b.title, "x");
    let b = ui.boot_book("/lib/c.pdf".to_string(), "fallback".to_string());
    assert_eq!(b.title, "Gamma");
    ui.boot_into_reader(&b, Some(" 42 ".to_string()), Some("IMAGE".to_string()), Some(7));
    assert_eq!(ui.ctx.settings.reader_mode, ReaderMode::Image);
    assert_eq!(ui.reader.page, 6);
    assert!(ui.reader.open);
}

#[test]
fn text_render_lays_out_and_clamps_scroll() {
    let mut r: ReaderPanel<(), ()> = ReaderPanel::new();
    match r.begin_render(ReaderMode::Text, ReaderTextMode::Wrap, 20, 5) {
        RenderStep::Ready => {}
        _ => panic!("no book yet"),
    }
    assert_eq!(r.last_error.as_deref(), Some("no book"));
    let ctx = AppContext::new(make_settings());
    r.open_book(&book("/b.pdf", "B"), &ctx, Some(3));
    r.scroll = 50;
    let k = match r.begin_render(ReaderMode::Text, ReaderTextMode::Wrap, 2, 5) {
        RenderStep::Text(k, b) => {
            assert_eq!(b.path, "/b.pdf");
            k
        }
        _ => panic!("expected Text"),
    };
    assert_eq!(k, ReaderRenderKey { page: 0, mode: ReaderMode::Text, text_mode: ReaderTextMode::Wrap, width: 2, height: 5 });
    r.finish_text_render(k, Ok("ab cd".to_string()), false);
    assert_eq!(r.current_text.as_deref(), Some("ab\ncd"));
    assert_eq!(r.scroll, 1);
    match r.begin_render(ReaderMode::Text, ReaderTextMode::Wrap, 2, 5) {
        RenderStep::Ready => {}
        _ => panic!("already laid out"),
    }
    match r.begin_render(ReaderMode::Text, ReaderTextMode::Wrap, 0, 5) {
        RenderStep::Text(k0, _) => assert_eq!(k0.width, 1),
        _ => panic!("another width"),
    }
    r.scroll_down();
    assert_eq!(r.scroll, 1);
    r.scroll_up();
    assert_eq!(r.visible_lines(), vec!["ab".to_string(), "cd".to_string()]);
    r.finish_text_render(k, Err("broken".to_string()), false);
    assert_eq!(r.last_error.as_deref(), Some("broken"));
    assert_eq!(r.visible_lines(), vec!["broken".to_string()]);
}

#[test]
fn image_cache_keeps_three_newest() {
    let mut c: PageImageCache<u8> = PageImageCache::new();
    for p in 0..5u32 {
        c.insert(CachedPageImage { page: p, zoom_percent: 100, render_width_px: 10, font_w: 8, font_h: 16, image: p as u8 });
    }
    assert_eq!(c.len(), 3);
    assert!(c.take(0, 100, 10, 8, 16).is_none());
    let got = c.take(3, 100, 10, 8, 16).unwrap();
    assert_eq!(got.image, 3);
    assert_eq!(c.len(), 2);
    let mut r: ReaderPanel<u8, u8> = ReaderPanel::new();
    r.keep_page_image(640, 8, 16, 9);
    assert!(!r.needs_page_image(640, 8, 16));
    assert!(r.needs_page_image(641, 8, 16));
    r.page_image = None;
    assert!(r.reuse_cached_image(640, 8, 16));
    assert_eq!(r.page_image.as_ref().unwrap().image, 9);
    assert_eq!(r.take_kitty_image_id(), 1);
    assert_eq!(r.next_kitty_image_id, 2);
}

#[test]
fn image_failures_show_text() {
    let mut r: ReaderPanel<u8, u8> = ReaderPanel::new();
    let k = ReaderRenderKey { page: 0, mode: ReaderMode::Image, text_mode: ReaderTextMode::Raw, width: 10, height: 10 };
    r.fail_image_render(k, "boom", "body");
    assert_eq!(r.current_text.as_deref(), Some("(image render failed; showing text)\n(error: boom)\n\nbody"));
    r.miss_page_image(k);
    assert_eq!(r.current_text.as_deref(), Some("no image cached"));
    assert!(r.fits_page_to_frame());
    r.pan_image_by_pixels(-3, 7);
    assert_eq!((r.image_pan_x_px, r.image_pan_y_px), (0, 7));
    assert!(!r.fits_page_to_frame());
    assert_eq!(zoom_text(50), "zoom: 50%");
    r.set_image_zoom_percent(10);
    assert_eq!(r.image_zoom_percent, 50);
    r.zoom_image_out();
    assert_eq!(r.image_zoom_percent, 50);
    r.set_image_zoom_percent(999);
    assert_eq!(r.image_zoom_percent, 400);
    r.zoom_image_in();
    assert_eq!(r.image_zoom_percent, 400);
}

#[test]
fn image_geometry() {
    assert_eq!(viewport_size_px(0, 10, 8, 0), (8, 10));
    assert_eq!(render_width_px(800, 150, 100_000), 1200);
    assert_eq!(render_width_px(800, 100, 500), 500);
    assert_eq!(render_width_px(100_000, 400, u32::MAX), 8192);
    assert_eq!(render_width_px(0, 100, 10), 1);
    assert_eq!(cells_for(17, 8, 100), 3);
    assert_eq!(cells_for(0, 8, 100), 1);
    assert_eq!(cells_for(1000, 8, 10), 10);
    let g = viewport_geometry(100, 50, 40, 80, 90, 7);
    assert_eq!((g.pan_x_px, g.pan_y_px), (60, 0));
    assert_eq!((g.crop_w, g.crop_h), (40, 50));
    assert_eq!((g.dest_x, g.dest_y), (0, 15));
}

#[test]
fn text_layouts() {
    assert_eq!(wrap_text("hello big world", 9), vec!["hello big".to_string(), "world".to_string()]);
    assert_eq!(wrap_text("abcdefgh", 3), vec!["abc".to_string(), "def".to_string(), "gh".to_string()]);
    assert_eq!(wrap_text("漢字漢字", 4), vec!["漢字".to_string(), "漢字".to_string()]);
    assert!(looks_preformatted("    code"));
    assert!(!looks_preformatted("text"));
    assert_eq!(wrap_preserving_lines("aa bb\n\ncc", 2), "aa\nbb\n\ncc");
    assert_eq!(wrap_reflow_text("one two\nthree\n\nfour", 9), "one two\nthree\n\nfour");
    assert_eq!(clamp_scroll(9, "a\nb\nc"), 2);
    assert_eq!(clamp_scroll(1, ""), 0);
    let p = non_text_placeholder(10, 5, " hi ");
    assert_eq!(p, "┌────────┐\n│░░░░░░░░│\n│░░░hi░░░│\n│░░░░░░░░│\n└────────┘");
    assert_eq!(layout_page_text("no text found", ReaderTextMode::Raw, true, 10, 5).lines().count(), 5);
    assert_eq!(layout_page_text("raw  text", ReaderTextMode::Raw, true, 3, 5), "raw  text");
}

#[test]
fn outline_is_flattened_depth_first() {
    let p0 = PageRef { id: 10, gen: 0 };
    let p1 = PageRef { id: 11, gen: 0 };
    let idx = PageIndex { pages: vec![p0, p1], named: vec![("ch2".to_string(), p1)] };
    let outline = vec![
        OutlineEntry {
            title: Some("One".to_string()),
            dest: OutlineTarget::Page(p0),
            action: OutlineTarget::Other,
            children: vec![OutlineEntry {
                title: None,
                dest: OutlineTarget::Other,
                action: OutlineTarget::Named("ch2".to_string()),
                children: vec![],
            }],
        },
        OutlineEntry {
            title: Some("Two".to_string()),
            dest: OutlineTarget::Named("missing".to_string()),
            action: OutlineTarget::Page(PageRef { id: 99, gen: 0 }),
            children: vec![],
        },
    ];
    let items = toc_items(&idx, &outline);
    assert_eq!(
        items,
        vec![
            TocItem { title: "One".to_string(), page: Some(1), depth: 0 },
            TocItem { title: "(untitled)".to_string(), page: Some(2), depth: 1 },
            TocItem { title: "Two".to_string(), page: None, depth: 0 },
        ]
    );
}

#[test]
fn header_trim_toggles_in_text_mode_only() {
    let mut ui = reading();
    assert!(ui.ctx.settings.reader_trim_headers_footers);
    ui.handle_reader_key(ch('h'), env());
    assert!(!ui.ctx.settings.reader_trim_headers_footers);
    assert!(ui.reader.render_key.is_none());
    ui.handle_reader_key(ch('h'), env());
    assert!(ui.ctx.settings.reader_trim_headers_footers);
    let kitty = ReaderEnv { kitty_ok: true, ..env() };
    ui.handle_reader_key(ch('m'), kitty);
    ui.handle_reader_key(ch('h'), kitty);
    assert!(ui.ctx.settings.reader_trim_headers_footers);
}

#[test]
fn titles_and_list_lines() {
    let mut ui = reading();
    assert_eq!(ui.library_title(), "Library");
    assert_eq!(ui.search_title(), "Search");
    assert_eq!(ui.goto_title(), "Go to page (1..=10)");
    ui.search_panel.query = " ga ".to_string();
    assert_eq!(ui.library_title(), "Library \u{2014} 1/3 matches");
    assert_eq!(ui.search_title(), "Search \u{2014} 1/3");
    ui.search_panel.query = String::new();

    ui.reader.page = 4;
    ui.handle_reader_key(ch('b'), env());
    ui.handle_bookmarks_panel_key(ch('a'));
    assert_eq!(ui.bookmark_lines(), vec!["Page 5".to_string()]);
    ui.ctx.bookmarks_by_path.insert(
        "/lib/b.pdf".to_string(),
        vec![Bookmark { page: 7, label: "  start ".to_string() }],
    );
    assert_eq!(ui.bookmark_lines(), vec!["Page 7 \u{2014} start".to_string()]);
    assert!(ui.note_lines().is_empty());

    let items = vec![
        TocItem { title: "Intro".to_string(), page: Some(1), depth: 0 },
        TocItem { title: "Deep".to_string(), page: None, depth: 14 },
    ];
    ui.finish_toc_load("/lib/b.pdf".to_string(), Ok(items));
    assert_eq!(ui.toc_title(), "Table of Contents \u{2014} 2");
    assert_eq!(
        ui.toc_lines(),
        vec!["Intro  [p1]".to_string(), format!("{}Deep  [-]", " ".repeat(24))]
    );
    ui.toc_panel.query = "deep".to_string();
    assert_eq!(ui.toc_title(), "Table of Contents \u{2014} 1/2");
    assert_eq!(ui.toc_lines().len(), 1);
    ui.finish_toc_load("/lib/b.pdf".to_string(), Err("bad file".to_string()));
    assert_eq!(ui.toc_title(), "Table of Contents (error)");
}

#[test]
fn esc_in_the_reader_saves_and_resets_every_panel() {
    let mut ui = reading();
    ui.reader.page = 3;
    ui.reader.next_kitty_image_id = 9;
    ui.goto_panel.error = Some("x".to_string());
    ui.toc_panel.query = "q".to_string();
    ui.notes_panel.input = "draft".to_string();
    match ui.handle_reader_key(key(Key::Esc), env()) {
        UiAction::Nothing => {}
        _ => panic!("a plain session stays open"),
    }
    assert_eq!(ui.ctx.progress_by_path.get(&"/lib/b.pdf".to_string()), Some(&4));
    assert!(!ui.reader.open);
    assert_eq!(ui.reader.book_title, None);
    assert_eq!(ui.reader.total_pages, None);
    assert_eq!(ui.reader.next_kitty_image_id, 1);
    assert_eq!(ui.goto_panel.error, None);
    assert_eq!(ui.toc_panel.query, "");
    assert_eq!(ui.notes_panel.input, "");
}

#[test]
fn only_stepping_keys_need_room() {
    let mut ui = reading();
    ui.reader.page = u32::MAX;
    assert!(!ui.is_reader_key_safe(key(Key::Right)));
    assert!(ui.is_reader_key_safe(key(Key::Left)));
    assert!(ui.is_reader_key_safe(key(Key::Esc)));
    ui.reader.page = 0;
    ui.reader.current_text = Some("a\nb".to_string());
    ui.reader.scroll = u16::MAX;
    assert!(!ui.is_reader_key_safe(key(Key::Down)));
    assert!(!ui.is_reader_key_safe(key(Key::PageDown)));
    assert!(ui.is_reader_key_safe(key(Key::Up)));
}

#[test]
fn mode_switch_clears_the_whole_render() {
    let mut ui = reading();
    ui.reader.image_pan_x_px = 30;
    ui.reader.last_error = Some("old".to_string());
    ui.reader.render_key = Some(ReaderRenderKey {
        page: 0,
        mode: ReaderMode::Text,
        text_mode: ReaderTextMode::Reflow,
        width: 10,
        height: 5,
    });
    let kitty = ReaderEnv { kitty_ok: true, ..env() };
    ui.handle_reader_key(ch('m'), kitty);
    assert_eq!(ui.reader.image_pan_x_px, 0);
    assert_eq!(ui.reader.last_error, None);
    assert!(ui.reader.render_key.is_none());
    assert_eq!(ui.ctx.cwd, "/home");
}

#[test]
fn a_finished_render_is_a_cache_hit() {
    let mut ui = reading();
    let step = ui.reader.begin_render(ReaderMode::Text, ReaderTextMode::Raw, 20, 5);
    let key = match step {
        RenderStep::Text(k, _) => k,
        _ => panic!("expected a text render"),
    };
    ui.reader.finish_text_render(key, Ok("hello".to_string()), false);
    match ui.reader.begin_render(ReaderMode::Text, ReaderTextMode::Raw, 20, 5) {
        RenderStep::Ready => {}
        _ => panic!("expected a cache hit"),
    }
}
