# bookshelf

A terminal PDF library and reader: it scans folders for PDFs, keeps them in a
SQLite database with reading progress, bookmarks and notes, and shows pages as
reflowed text or, in kitty, as images.

- `src/` is the library, verified with Verus: settings and their storage form,
  the path codec, text extraction post-processing (sanitising, reflow,
  header/footer trimming, wrapping), the outline, library listing and
  filters, reader navigation, zoom and image cache, the BGRA-to-RGBA conversion of
  rendered pages, the key handling of every
  panel, and the captions the interface shows.
- `app/` is the program around it: the SQLite database, the file system scan,
  reading PDFs with the `pdf` crate and Pdfium, the terminal session with
  crossterm and ratatui, kitty images, and starting kitty windows.
- `tests/` runs the library on concrete values.
