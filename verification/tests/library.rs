use bookshelf::library::{
    format_last_opened, is_pdf, join_roots, listed_indices, parse_roots_input, stale_paths,
    title_from_file_name, AppContext, BookLabels, CollectionFilter, TagMatchMode,
};
use bookshelf::model::{Book, Bookmark, Note};
use bookshelf::num::{add_signed_u32, decimal_string, parse_u32};
use bookshelf::pathmap::{PathMap, PathSet};
use bookshelf::settings::make_settings;
use bookshelf::store::{
    bookmarks_from_rows, default_stored_settings, labels_from_rows, notes_from_rows,
    progress_from_rows, settings_from_stored, stored_page, stored_settings,
};
use bookshelf::model::{KittyImageQuality, ReaderMode, ReaderTextMode, ScanScope};

fn book(path: &str, title: &str) -> Book {
    Book { path: path.to_string(), title: title.to_string(), last_opened: None, favorite: false }
}

fn library() -> AppContext {
    AppContext::new(make_settings()).with_library(
        "/home".to_string(),
        vec![book("/lib/rust.pdf", "Rust Book"), book("/lib/tui/guide.pdf", "Guide"), book("/x/other.pdf", "Other")],
    )
}

#[test]
fn settings_roundtrip() {
    let mut settings = settings_from_stored(&default_stored_settings());
    settings.reader_mode = ReaderMode::Image;
    settings.reader_text_mode = ReaderTextMode::Raw;
    settings.reader_trim_headers_footers = false;
    settings.kitty_image_quality = KittyImageQuality::Sharp;
    settings.scan_scope = ScanScope::Direct;
    settings.library_roots = vec!["/tmp".to_string()];
    let row = stored_settings(&settings).unwrap();

    let settings2 = settings_from_stored(&row);
    assert_eq!(settings2.reader_mode, ReaderMode::Image);
    assert_eq!(settings2.reader_text_mode, ReaderTextMode::Raw);
    assert!(!settings2.reader_trim_headers_footers);
    assert_eq!(settings2.kitty_image_quality, KittyImageQuality::Sharp);
    assert_eq!(settings2.scan_scope, ScanScope::Direct);
    assert_eq!(settings2.library_roots, vec!["/tmp".to_string()]);
}

#[test]
fn default_row_reads_as_default_settings() {
    let s = settings_from_stored(&default_stored_settings());
    assert_eq!(s.reader_mode, ReaderMode::Text);
    assert_eq!(s.reader_text_mode, ReaderTextMode::Reflow);
    assert!(s.reader_trim_headers_footers);
    assert_eq!(s.kitty_image_quality, KittyImageQuality::Balanced);
    assert_eq!(s.scan_scope, ScanScope::Recursive);
    assert!(s.library_roots.is_empty());
}

#[test]
fn unreadable_columns_fall_back() {
    let mut row = default_stored_settings();
    row.reader_mode = "sideways".to_string();
    row.scan_scope = " DIRECT ".to_string();
    row.library_roots_json = "not json".to_string();
    let s = settings_from_stored(&row);
    assert_eq!(s.reader_mode, ReaderMode::Text);
    assert_eq!(s.scan_scope, ScanScope::Direct);
    assert!(s.library_roots.is_empty());
    row.library_roots_json = "[\" /b\", \"/a\", \"\", \"/b\"]".to_string();
    let s = settings_from_stored(&row);
    assert_eq!(s.library_roots, vec!["/a".to_string(), "/b".to_string()]);
}

#[test]
fn stored_roots_are_normalized_json() {
    let mut s = make_settings();
    s.library_roots = vec![" /z ".to_string(), "/a\"q".to_string()];
    let row = stored_settings(&s).unwrap();
    assert_eq!(row.library_roots_json, "[\"/a\\\"q\",\"/z\"]");
    assert_eq!(row.reader_text_mode, "reflow");
    assert_eq!(row.reader_trim_headers_footers, 1);
}

#[test]
fn pages_read_from_the_database_are_at_least_one() {
    assert_eq!(stored_page(3), 3);
    assert_eq!(stored_page(0), 1);
    assert_eq!(stored_page(-4), 1);
    assert_eq!(stored_page(1 << 40), 1);
    assert_eq!(stored_page(4_294_967_295), u32::MAX);
}

#[test]
fn rows_are_grouped_by_path() {
    let p = "/a/b.pdf".to_string();
    let progress = progress_from_rows(&vec![(p.clone(), 3), ("/c".to_string(), 0), (p.clone(), 5)]);
    assert_eq!(progress.get(&p), Some(&5));
    assert_eq!(progress.get(&"/c".to_string()), Some(&1));
    let bookmarks = bookmarks_from_rows(&vec![(p.clone(), 2, "start".to_string()), (p.clone(), 9, String::new())]);
    assert_eq!(
        bookmarks.get(&p),
        Some(&vec![Bookmark { page: 2, label: "start".to_string() }, Bookmark { page: 9, label: String::new() }])
    );
    let notes = notes_from_rows(&vec![(p.clone(), 2, "hello".to_string())]);
    assert_eq!(notes.get(&p), Some(&vec![Note { page: 2, body: "hello".to_string() }]));
    assert!(notes.get(&"/none".to_string()).is_none());
}

#[test]
fn labels_rows_read_back_normalized() {
    let p = "/a/b.pdf".to_string();
    let rows = vec![
        (p.clone(), "work".to_string(), "collection".to_string()),
        (p.clone(), "tui".to_string(), "tag".to_string()),
        (p.clone(), " rust".to_string(), "tag".to_string()),
        (p.clone(), "home".to_string(), "collection".to_string()),
        (p.clone(), "tui".to_string(), "odd".to_string()),
    ];
    let labels = labels_from_rows(&rows);
    assert_eq!(
        labels.get(&p),
        Some(&BookLabels { tags: vec!["rust".to_string(), "tui".to_string()], collection: Some("work".to_string()) })
    );
}

#[test]
fn labels_normalize_blank_collection() {
    let mut l = BookLabels { tags: vec!["b".to_string(), " a ".to_string(), "  ".to_string()], collection: Some("  ".to_string()) };
    l.normalize();
    assert_eq!(l, BookLabels { tags: vec!["a".to_string(), "b".to_string()], collection: None });
}

#[test]
fn roots_join_and_parse() {
    let mut s = make_settings();
    s.library_roots = vec!["/a".to_string(), "/b c".to_string()];
    assert_eq!(join_roots(&s), "/a;/b c");
    assert_eq!(parse_roots_input(&join_roots(&s)), s.library_roots);
    assert_eq!(parse_roots_input(" /x ; ,/y,, "), vec!["/x".to_string(), "/y".to_string()]);
    assert!(parse_roots_input(" ; , ").is_empty());
    s.library_roots = vec![];
    assert_eq!(join_roots(&s), "");
}

#[test]
fn last_opened_is_described_in_the_largest_unit() {
    assert_eq!(format_last_opened(1000, None), "never");
    assert_eq!(format_last_opened(1000, Some(995)), "just now");
    assert_eq!(format_last_opened(1000, Some(2000)), "just now");
    assert_eq!(format_last_opened(1000, Some(959)), "41s ago");
    assert_eq!(format_last_opened(10_000, Some(10_000 - 125)), "2m ago");
    assert_eq!(format_last_opened(100_000, Some(100_000 - 7_300)), "2h ago");
    assert_eq!(format_last_opened(1_000_000, Some(0)), "11d ago");
    assert_eq!(format_last_opened(i64::MAX, Some(i64::MIN)), "106751991167300d ago");
}

#[test]
fn pdf_names_and_titles() {
    assert!(is_pdf(b"a.pdf"));
    assert!(is_pdf(b"A.PdF"));
    assert!(is_pdf(b"x.y.pdf"));
    assert!(!is_pdf(b".pdf"));
    assert!(!is_pdf(b"pdf"));
    assert!(!is_pdf(b"a.pdfx"));
    assert!(!is_pdf(b".."));
    assert_eq!(title_from_file_name(Some(b"report.final.pdf")), "report.final");
    assert_eq!(title_from_file_name(Some(b".hidden")), ".hidden");
    assert_eq!(title_from_file_name(Some(&[b'a', 0xff, b'.', b'p'])), "a\u{FFFD}");
    assert_eq!(title_from_file_name(None), "untitled");
}

#[test]
fn numbers_format_and_parse() {
    assert_eq!(decimal_string(0), "0");
    assert_eq!(decimal_string(1234567890123), "1234567890123");
    assert_eq!(parse_u32("42"), Some(42));
    assert_eq!(parse_u32("+7"), Some(7));
    assert_eq!(parse_u32("4294967295"), Some(u32::MAX));
    assert_eq!(parse_u32("4294967296"), None);
    assert_eq!(parse_u32(""), None);
    assert_eq!(parse_u32("+"), None);
    assert_eq!(parse_u32("-1"), None);
    assert_eq!(parse_u32("1a"), None);
    assert_eq!(add_signed_u32(5, -7), 0);
    assert_eq!(add_signed_u32(5, 7), 12);
    assert_eq!(add_signed_u32(u32::MAX - 1, 5), u32::MAX);
    assert_eq!(add_signed_u32(10, i32::MIN), 0);
}

#[test]
fn with_library_keeps_selection_in_range() {
    let mut ctx = library();
    ctx.selected = 7;
    let ctx = ctx.with_library("/h".to_string(), vec![book("/a.pdf", "a"), book("/b.pdf", "b")]);
    assert_eq!(ctx.selected, 1);
    let mut ctx = ctx.with_library("/h".to_string(), vec![]);
    assert_eq!(ctx.selected, 0);
    ctx.library_query = "q".to_string();
    ctx.favorites_only = true;
    let ctx = ctx.with_library("/k".to_string(), vec![book("/c.pdf", "c")]);
    assert_eq!(ctx.library_query, "q");
    assert!(ctx.favorites_only);
    assert_eq!(ctx.cwd, "/k");
}

#[test]
fn listing_matches_title_or_path_ignoring_case() {
    let ctx = library();
    assert_eq!(listed_indices(&ctx, "  "), vec![0, 1, 2]);
    assert_eq!(listed_indices(&ctx, " RUST "), vec![0]);
    assert_eq!(listed_indices(&ctx, "tui"), vec![1]);
    assert_eq!(listed_indices(&ctx, "zzz"), Vec::<usize>::new());
}

#[test]
fn listing_applies_label_filters() {
    let mut ctx = library();
    let mut labels = PathMap::new();
    labels.insert("/lib/rust.pdf".to_string(), BookLabels { tags: vec!["lang".to_string(), "work".to_string()], collection: Some("dev".to_string()) });
    labels.insert("/lib/tui/guide.pdf".to_string(), BookLabels { tags: vec!["work".to_string()], collection: None });
    ctx = ctx.with_labels(labels);
    ctx.tag_filters = vec!["lang".to_string(), "work".to_string()];
    ctx.tag_match_mode = TagMatchMode::And;
    assert_eq!(listed_indices(&ctx, ""), vec![0]);
    ctx.tag_match_mode = TagMatchMode::Or;
    assert_eq!(listed_indices(&ctx, ""), vec![0, 1]);
    ctx.tag_filters = vec![];
    ctx.collection_filter = CollectionFilter::NoCollection;
    assert_eq!(listed_indices(&ctx, ""), vec![1, 2]);
    ctx.collection_filter = CollectionFilter::Selected("dev".to_string());
    assert_eq!(listed_indices(&ctx, ""), vec![0]);
    ctx.collection_filter = CollectionFilter::Any;
    ctx.favorites_only = true;
    ctx.books[2].favorite = true;
    assert_eq!(listed_indices(&ctx, ""), vec![2]);
}

#[test]
fn stale_books_are_those_not_scanned() {
    let scanned = vec![book("/a.pdf", "a"), book("/c.pdf", "c")];
    let existing = vec![book("/a.pdf", "a"), book("/b.pdf", "b"), book("/d.pdf", "d")];
    assert_eq!(stale_paths(&scanned, &existing), vec!["/b.pdf".to_string(), "/d.pdf".to_string()]);
}

#[test]
fn path_maps_and_sets() {
    let mut m: PathMap<u32> = PathMap::new();
    m.insert("/a".to_string(), 1);
    m.insert("/b".to_string(), 2);
    m.insert("/a".to_string(), 3);
    assert_eq!(m.get(&"/a".to_string()), Some(&3));
    assert_eq!(m.entries().len(), 2);
    assert_eq!(m.take(&"/a".to_string()), Some(3));
    assert!(!m.contains_key(&"/a".to_string()));
    assert_eq!(m.keys(), vec!["/b".to_string()]);
    m.clear();
    assert!(m.entries().is_empty());
    let mut s = PathSet::new();
    s.insert("/x".to_string());
    s.insert("/x".to_string());
    s.insert("/y".to_string());
    assert_eq!(s.to_vec(), vec!["/x".to_string(), "/y".to_string()]);
    s.remove(&"/x".to_string());
    assert!(!s.contains(&"/x".to_string()));
    s.clear();
    assert!(s.to_vec().is_empty());
}
