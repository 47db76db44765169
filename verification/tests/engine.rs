use bookshelf::extract::{append_text_piece, bytes_preview_text, text_from_runs, TextRun};
use bookshelf::furniture::{
    detect_page_furniture, sample_page_count, take_bottom_boundary_lines, take_top_boundary_lines,
    trim_page_furniture, PageFurniture,
};
use bookshelf::model::ReaderTextMode;
use bookshelf::page::{finish_page_text, is_non_text_page, text_for_reader};
use bookshelf::text::{
    is_noncharacter, is_private_use, normalize_line_for_reflow, reflow_reader_text,
    sanitize_extracted_text,
};
use bookshelf::tounicode::{best_reading, decode_bytes};
use pdf::font::ToUnicodeMap;

#[test]
fn reflow_joins_lines() {
    let input = "Hello\nworld\n";
    assert_eq!(reflow_reader_text(input), "Hello world");
}

#[test]
fn reflow_preserves_blank_lines() {
    let input = "Hello\n\nWorld\n";
    assert_eq!(reflow_reader_text(input), "Hello\n\nWorld");
}

#[test]
fn reflow_dehyphenates_line_breaks() {
    let input = "micro-\nscopic\n";
    assert_eq!(reflow_reader_text(input), "microscopic");
}

#[test]
fn reflow_breaks_on_short_line_then_caps() {
    let input = "This is a longer line with words\nShort.\nNext Paragraph starts here\n";
    assert_eq!(
        reflow_reader_text(input),
        "This is a longer line with words Short.\n\nNext Paragraph starts here"
    );
}

#[test]
fn trim_page_furniture_removes_repeated_boundary_lines() {
    let mut furniture = PageFurniture::new();
    furniture.insert_header_line("Bookshelf".to_string());
    furniture.insert_footer_line("Confidential".to_string());

    let input = "Bookshelf\n\nHello world\n\nConfidential";
    assert_eq!(trim_page_furniture(input, &furniture), "\nHello world\n");
}

#[test]
fn trim_page_furniture_does_not_blank_entire_page() {
    let mut furniture = PageFurniture::new();
    furniture.insert_header_line("Header".to_string());
    furniture.insert_footer_line("Footer".to_string());

    let input = "Header\n\nFooter";
    assert_eq!(trim_page_furniture(input, &furniture), input);
}

#[test]
fn boundary_lines_skip_blank_lines() {
    let input = "\n\nTop\n\nBody\n\nBottom\n\n";
    assert_eq!(
        take_top_boundary_lines(input, 2),
        vec!["Top".to_string(), "Body".to_string()]
    );
    assert_eq!(
        take_bottom_boundary_lines(input, 2),
        vec!["Body".to_string(), "Bottom".to_string()]
    );
}

#[test]
fn ops_to_text_does_not_insert_spaces_between_single_chars() {
    let runs = vec![
        TextRun::Text("M".to_string()),
        TextRun::Text("a".to_string()),
        TextRun::Text("t".to_string()),
    ];
    assert_eq!(text_from_runs(&runs), "Mat");
}

#[test]
fn ops_to_text_inserts_space_on_large_tj_spacing() {
    let runs = vec![
        TextRun::Text("Hello".to_string()),
        TextRun::WideGap,
        TextRun::Text("world".to_string()),
    ];
    assert_eq!(text_from_runs(&runs), "Hello world");
}

#[test]
fn wide_gap_before_punctuation_or_after_space_adds_nothing() {
    let runs = vec![
        TextRun::Text("Hello".to_string()),
        TextRun::WideGap,
        TextRun::Text(", there".to_string()),
        TextRun::LineBreak,
        TextRun::WideGap,
        TextRun::Text("next".to_string()),
    ];
    assert_eq!(text_from_runs(&runs), "Hello, there\nnext");
}

#[test]
fn appending_pieces_tracks_the_pending_space() {
    let mut out = String::new();
    let mut pending = true;
    append_text_piece(&mut out, "\u{0}", &mut pending);
    assert_eq!(out, "");
    assert!(pending);
    append_text_piece(&mut out, "a", &mut pending);
    assert_eq!(out, "a");
    assert!(!pending);
    pending = true;
    append_text_piece(&mut out, "b", &mut pending);
    assert_eq!(out, "a b");
}

#[test]
fn sanitizing_drops_controls_and_private_use() {
    assert_eq!(sanitize_extracted_text("a\r\u{1}b\u{FFFD}\u{E000}c\td\n"), "a\nbc\td\n");
    assert!(is_private_use(0xE000));
    assert!(is_private_use(0xF0000));
    assert!(!is_private_use(0x41));
    assert!(is_noncharacter(0xFDD0));
    assert!(is_noncharacter(0x1FFFE));
    assert!(!is_noncharacter(0xFFFD));
}

#[test]
fn sanitizing_twice_changes_nothing() {
    let once = sanitize_extracted_text("x\r\r\u{7}y\u{FFFF}\u{10FFFD}z\u{2028}");
    assert_eq!(once, "x\n\nyz\u{2028}");
    assert_eq!(sanitize_extracted_text(&once), once);
}

#[test]
fn reflow_lines_are_normalized() {
    assert_eq!(normalize_line_for_reflow("  a \t  b  "), "a b");
    assert_eq!(normalize_line_for_reflow("   "), "");
}

#[test]
fn reflow_keeps_bullets_on_their_own_lines() {
    let input = "A long enough line of text here\n- first item\n- second item\n";
    assert_eq!(
        reflow_reader_text(input),
        "A long enough line of text here\n\n- first item\n\n- second item"
    );
}

#[test]
fn page_text_is_trimmed_or_marked_empty() {
    assert_eq!(finish_page_text("  hi \n"), "hi");
    assert_eq!(finish_page_text(" \n\t"), "no text found");
    assert!(is_non_text_page("  No Text Found "));
    assert!(is_non_text_page("\n"));
    assert!(!is_non_text_page("text"));
}

#[test]
fn reader_text_trims_furniture_except_raw() {
    let mut furniture = PageFurniture::new();
    furniture.insert_header_line("Head".to_string());
    let raw = "Head\nBody line\nmore";
    assert_eq!(text_for_reader(raw, ReaderTextMode::Raw, Some(&furniture)), raw);
    assert_eq!(text_for_reader(raw, ReaderTextMode::Wrap, Some(&furniture)), "Body line\nmore");
    assert_eq!(text_for_reader(raw, ReaderTextMode::Wrap, None), raw);
    assert_eq!(text_for_reader(raw, ReaderTextMode::Reflow, Some(&furniture)), "Body line more");
}

#[test]
fn furniture_is_detected_from_repeated_lines() {
    let pages = vec![
        Some("Journal\nIntro text\np1".to_string()),
        Some("Journal\nMiddle text\np2".to_string()),
        None,
        Some("Journal\nEnd text\np3".to_string()),
        Some("no text found".to_string()),
    ];
    let f = detect_page_furniture(&pages);
    assert!(f.header_lines().contains(&"Journal".to_string()));
    assert!(f.footer_lines().contains(&"Journal".to_string()));
    assert!(!f.header_lines().contains(&"p1".to_string()));
    let single = vec![Some("Journal\nx".to_string())];
    assert!(detect_page_furniture(&single).is_empty());
    assert_eq!(sample_page_count(None), 8);
    assert_eq!(sample_page_count(Some(0)), 1);
    assert_eq!(sample_page_count(Some(3)), 3);
    assert_eq!(sample_page_count(Some(30)), 8);
}

#[test]
fn tounicode_decoding_counts_matches() {
    let mut map = ToUnicodeMap::new();
    map.insert(0x41, "x".into());
    map.insert(0x0102, "yz".into());
    let (text, found, total) = decode_bytes(&[0x41, 0x42], 1, &map);
    assert_eq!(text, "x\u{FFFD}");
    assert_eq!((found, total), (1, 2));
    let (text2, found2, total2) = decode_bytes(&[0x01, 0x02, 0x00, 0x41], 2, &map);
    assert_eq!(text2, "yzx");
    assert_eq!((found2, total2), (2, 2));
    assert_eq!(decode_bytes(&[1, 2], 3, &map), (String::new(), 0, 0));
    let best = best_reading(&[0x01, 0x02, 0x00, 0x41], &map);
    assert_eq!(best, ("yzx".to_string(), 2, 2));
    let odd = best_reading(&[0x41, 0x41, 0x41], &map);
    assert_eq!(odd, ("xxx".to_string(), 3, 3));
}

#[test]
fn string_bytes_are_previewed_in_hex() {
    assert_eq!(bytes_preview_text(&[]), "");
    assert_eq!(bytes_preview_text(&[0x0A, 0xFF, 0x3c]), "0A FF 3C");
    let long: Vec<u8> = (0..70).collect();
    let shown = bytes_preview_text(&long);
    assert!(shown.starts_with("00 01 02"));
    assert!(shown.ends_with("3E 3F \u{2026}(+6 bytes)"));
}

#[test]
fn reflow_separates_paragraphs_by_one_blank_line() {
    assert_eq!(reflow_reader_text("a\nb\n\n\n\nc\n"), "a b\n\nc");
}
