use bookshelf::bitmap::bgra_to_rgba;
use bookshelf::furniture::PageFurniture;

#[test]
fn bgra_rows_become_rgba() {
    let b = bgra_to_rgba(&[1, 2, 3, 4, 5, 6, 7, 8], 2, 1);
    assert_eq!(b.width, 2);
    assert_eq!(b.height, 1);
    assert_eq!(b.stride, 8);
    assert_eq!(b.pixels, vec![3, 2, 1, 4, 7, 6, 5, 8]);
}

#[test]
fn padded_rows_are_skipped_and_missing_bytes_are_white() {
    // Two rows of one pixel each, rows ten bytes apart.
    let mut src = vec![10, 20, 30, 40, 0, 0, 0, 0, 0, 0];
    src.extend_from_slice(&[50, 60, 70, 80, 0, 0, 0, 0, 0, 0]);
    let b = bgra_to_rgba(&src, 1, 2);
    assert_eq!(b.pixels, vec![30, 20, 10, 40, 70, 60, 50, 80]);
    let short = bgra_to_rgba(&[1, 2], 1, 1);
    assert_eq!(short.pixels, vec![255, 2, 1, 255]);
    assert!(bgra_to_rgba(&[], 0, 0).pixels.is_empty());
}

#[test]
fn default_furniture_is_empty() {
    assert!(PageFurniture::default().is_empty());
}
