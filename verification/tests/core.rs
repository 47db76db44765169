use bookshelf::model::{KittyImageQuality, ReaderMode, ReaderTextMode, ScanScope, TagKind};
use bookshelf::path::{decode_path, display_path, encode_path, hex_decode, hex_encode};
use bookshelf::settings::{make_settings, Settings};

#[test]
fn non_utf8_paths_roundtrip_through_encoding() {
    let original = vec![b'a', 0xa1, 0xaf, b'b'];
    let encoded = encode_path(&original);
    let decoded = decode_path(&encoded);
    assert_eq!(decoded, original);
}

#[test]
fn cycle_reader_mode_rotates() {
    let mut settings = Settings::default();
    assert_eq!(settings.reader_mode, ReaderMode::Text);
    settings.cycle_reader_mode();
    assert_eq!(settings.reader_mode, ReaderMode::Image);
    settings.cycle_reader_mode();
    assert_eq!(settings.reader_mode, ReaderMode::Text);
}

#[test]
fn reader_mode_parses_strings() {
    assert_eq!("text".parse::<ReaderMode>().unwrap(), ReaderMode::Text);
    assert_eq!(" IMAGE ".parse::<ReaderMode>().unwrap(), ReaderMode::Image);
    assert!("nope".parse::<ReaderMode>().is_err());
}

#[test]
fn scan_scope_parses_strings() {
    assert_eq!("direct".parse::<ScanScope>().unwrap(), ScanScope::Direct);
    assert_eq!(
        "Recursive".parse::<ScanScope>().unwrap(),
        ScanScope::Recursive
    );
    assert!("nope".parse::<ScanScope>().is_err());
}

#[test]
fn settings_normalizes_depth() {
    let mut settings = Settings {
        reader_mode: ReaderMode::Text,
        reader_text_mode: ReaderTextMode::Reflow,
        reader_trim_headers_footers: true,
        kitty_image_quality: KittyImageQuality::Balanced,
        scan_scope: ScanScope::Direct,
        library_roots: vec![
            " ".to_string(),
            "/a".to_string(),
            "/a".to_string(),
            " /b ".to_string(),
        ],
    };
    settings.normalize();
    assert_eq!(
        settings.library_roots,
        vec!["/a".to_string(), "/b".to_string()]
    );
}

#[test]
fn kitty_image_quality_parses_strings() {
    assert_eq!(
        "fast".parse::<KittyImageQuality>().unwrap(),
        KittyImageQuality::Fast
    );
    assert_eq!(
        " Sharp ".parse::<KittyImageQuality>().unwrap(),
        KittyImageQuality::Sharp
    );
    assert!("nope".parse::<KittyImageQuality>().is_err());
}

#[test]
fn builds_settings() {
    let settings = make_settings();
    assert_eq!(settings.reader_mode, ReaderMode::Text);
}

#[test]
fn parse_errors_name_the_field() {
    assert_eq!(ReaderMode::parse("x"), Err("unknown reader mode"));
    assert_eq!(ReaderTextMode::parse("x"), Err("unknown reader text mode"));
    assert_eq!(KittyImageQuality::parse("x"), Err("unknown kitty image quality"));
    assert_eq!(ScanScope::parse("x"), Err("unknown scan scope"));
    assert_eq!(TagKind::parse("x"), Err("unknown tag kind"));
    assert_eq!(TagKind::parse(" Collection"), Ok(TagKind::Collection));
    assert_eq!(ReaderTextMode::parse("WRAP\t"), Ok(ReaderTextMode::Wrap));
}

#[test]
fn names_parse_back() {
    for m in [ReaderMode::Text, ReaderMode::Image] {
        assert_eq!(ReaderMode::parse(m.as_str()), Ok(m));
    }
    for m in [ReaderTextMode::Raw, ReaderTextMode::Wrap, ReaderTextMode::Reflow] {
        assert_eq!(ReaderTextMode::parse(m.as_str()), Ok(m));
    }
    for q in [KittyImageQuality::Fast, KittyImageQuality::Balanced, KittyImageQuality::Sharp] {
        assert_eq!(KittyImageQuality::parse(q.as_str()), Ok(q));
    }
    for s in [ScanScope::Direct, ScanScope::Recursive] {
        assert_eq!(ScanScope::parse(s.as_str()), Ok(s));
    }
}

#[test]
fn kitty_quality_steps_and_caps() {
    assert_eq!(KittyImageQuality::Fast.next(), KittyImageQuality::Balanced);
    assert_eq!(KittyImageQuality::Sharp.next(), KittyImageQuality::Fast);
    assert_eq!(KittyImageQuality::Fast.prev(), KittyImageQuality::Sharp);
    assert_eq!(KittyImageQuality::Balanced.next().prev(), KittyImageQuality::Balanced);
    assert_eq!(KittyImageQuality::Fast.max_transmit_pixels(), 750_000);
    assert_eq!(KittyImageQuality::Balanced.max_transmit_pixels(), 1_250_000);
    assert_eq!(KittyImageQuality::Sharp.max_transmit_pixels(), 2_500_000);
}

#[test]
fn text_mode_cycles_in_three_steps() {
    let mut settings = make_settings();
    assert_eq!(settings.reader_text_mode, ReaderTextMode::Reflow);
    settings.cycle_reader_text_mode();
    assert_eq!(settings.reader_text_mode, ReaderTextMode::Raw);
    settings.cycle_reader_text_mode();
    assert_eq!(settings.reader_text_mode, ReaderTextMode::Wrap);
    settings.cycle_reader_text_mode();
    assert_eq!(settings.reader_text_mode, ReaderTextMode::Reflow);
}

#[test]
fn scan_scope_and_quality_cycles() {
    let mut settings = Settings::default();
    assert_eq!(settings.scan_scope, ScanScope::Recursive);
    settings.cycle_scan_scope();
    assert_eq!(settings.scan_scope, ScanScope::Direct);
    settings.cycle_scan_scope();
    assert_eq!(settings.scan_scope, ScanScope::Recursive);
    settings.cycle_kitty_image_quality_next();
    assert_eq!(settings.kitty_image_quality, KittyImageQuality::Sharp);
    settings.cycle_kitty_image_quality_prev();
    settings.cycle_kitty_image_quality_prev();
    assert_eq!(settings.kitty_image_quality, KittyImageQuality::Fast);
}

#[test]
fn normalizing_twice_changes_nothing() {
    let mut settings = make_settings();
    settings.library_roots = vec!["  /z".to_string(), "".to_string(), "/a ".to_string(), "/z".to_string()];
    settings.normalize();
    let once = settings.library_roots.clone();
    assert_eq!(once, vec!["/a".to_string(), "/z".to_string()]);
    settings.normalize();
    assert_eq!(settings.library_roots, once);
}

#[test]
fn utf8_paths_are_stored_as_is_unless_prefixed() {
    assert_eq!(encode_path(b"/books/a.pdf"), "/books/a.pdf");
    assert_eq!(encode_path(b"utf8:x"), "utf8:utf8:x");
    assert_eq!(encode_path(b"osbytes:x"), "utf8:osbytes:x");
    assert_eq!(decode_path("utf8:utf8:x"), b"utf8:x".to_vec());
    assert_eq!(encode_path(&[0xff]), "osbytes:ff");
    assert_eq!(decode_path("osbytes:zz"), b"osbytes:zz".to_vec());
    for bytes in [b"plain".to_vec(), vec![0x80, 0x41], b"utf8:".to_vec(), vec![]] {
        assert_eq!(decode_path(&encode_path(&bytes)), bytes);
    }
}

#[test]
fn display_path_replaces_invalid_bytes() {
    assert_eq!(display_path("/a/b.pdf"), "/a/b.pdf");
    assert_eq!(display_path("osbytes:61ff62"), "a\u{FFFD}b");
}

#[test]
fn hex_codec_roundtrips() {
    assert_eq!(hex_encode(&[0x00, 0xab, 0x10]), "00ab10");
    assert_eq!(hex_decode("00AB10"), Some(vec![0x00, 0xab, 0x10]));
    assert_eq!(hex_decode("abc"), None);
    assert_eq!(hex_decode("0g"), None);
    assert_eq!(hex_decode(""), Some(vec![]));
}
