//! What the database holds and how it is read back: settings as text
//! columns, pages as integers, and per-book rows grouped by path.

use vstd::prelude::*;
use crate::library::{clean_collection, collection_view, BookLabels};
use crate::marks::{bookmark_marks, note_marks, Mark};
use crate::model::{Book, Bookmark, KittyImageQuality, Note, ReaderMode, ReaderTextMode, ScanScope, TagKind};
use crate::pathmap::PathMap;
use crate::settings::{is_clean_root, strictly_sorted, string_views, Settings};
use crate::strs::{chars_of, string_of, trim};

verus! {

#[verifier::external_type_specification]
#[verifier::external_body]
pub struct ExJsonError(serde_json::Error);

/// The list of strings a JSON text holds, when it is a JSON array of strings.
pub uninterp spec fn json_string_list(text: Seq<char>) -> Option<Seq<Seq<char>>>;

/// The JSON text `serde_json` writes for a list of strings.
pub uninterp spec fn json_of_strings(v: Seq<Seq<char>>) -> Seq<char>;

/// `serde_json::from_str::<Vec<String>>`. Its contract names the result
/// (`json_string_list`) and states nothing of the JSON grammar.
#[verifier::external_body]
fn parse_json_strings(text: &str) -> (r: Result<Vec<String>, serde_json::Error>)
    ensures
        r is Ok <==> json_string_list(text@) is Some,
        r matches Ok(v) ==> string_views(v@) == json_string_list(text@)->0,
{
    serde_json::from_str(text)
}

/// `serde_json::to_string` of a list of strings. Its contract names the text
/// written (`json_of_strings`), states that reading it back gives the same
/// strings, and that writing succeeds: the crate documents as its only
/// failures a `Serialize` impl that decides to fail and a map with non-string
/// keys, and a list of strings has neither.
#[verifier::external_body]
fn write_json_strings(v: &Vec<String>) -> (r: Result<String, serde_json::Error>)
    ensures
        r is Ok,
        r matches Ok(s) ==> s@ == json_of_strings(string_views(v@)) && json_string_list(s@) == Some(
            string_views(v@),
        ),
{
    serde_json::to_string(v)
}

/// Why settings could not be stored.
#[derive(Debug, Clone, Copy, PartialEq, Eq, Structural)]
pub enum StoreError {
    /// The library roots could not be written as JSON.
    RootsNotEncoded,
}

/// The settings row as the database holds it.
#[derive(Debug, Clone)]
pub struct StoredSettings {
    pub reader_mode: String,
    pub reader_text_mode: String,
    pub reader_trim_headers_footers: i64,
    pub kitty_image_quality: String,
    pub scan_scope: String,
    pub library_roots_json: String,
}

/// The settings row of a new database.
pub fn default_stored_settings() -> (s: StoredSettings)
    ensures
        s.reader_mode@ == "text"@,
        s.reader_text_mode@ == "reflow"@,
        s.reader_trim_headers_footers == 1,
        s.kitty_image_quality@ == "balanced"@,
        s.scan_scope@ == "recursive"@,
        s.library_roots_json@ == "[]"@,
{
    StoredSettings {
        reader_mode: string_of(chars_of("text").as_slice()),
        reader_text_mode: string_of(chars_of("reflow").as_slice()),
        reader_trim_headers_footers: 1,
        kitty_image_quality: string_of(chars_of("balanced").as_slice()),
        scan_scope: string_of(chars_of("recursive").as_slice()),
        library_roots_json: string_of(chars_of("[]").as_slice()),
    }
}

/// `s` is what a row reads back as, with `roots` the roots read from its
/// JSON column (`None` when that failed).
pub open spec fn loaded_as(s: Settings, row: StoredSettings, roots: Option<Seq<Seq<char>>>) -> bool {
    &&& s.reader_mode == (match ReaderMode::parsed(row.reader_mode@) {
        Some(m) => m,
        None => ReaderMode::Text,
    })
    &&& s.reader_text_mode == (match ReaderTextMode::parsed(row.reader_text_mode@) {
        Some(m) => m,
        None => ReaderTextMode::Reflow,
    })
    &&& s.reader_trim_headers_footers == (row.reader_trim_headers_footers != 0)
    &&& s.kitty_image_quality == (match KittyImageQuality::parsed(row.kitty_image_quality@) {
        Some(q) => q,
        None => KittyImageQuality::Balanced,
    })
    &&& s.scan_scope == (match ScanScope::parsed(row.scan_scope@) {
        Some(q) => q,
        None => ScanScope::Recursive,
    })
    &&& strictly_sorted(string_views(s.library_roots@))
    &&& forall|t: Seq<char>|
        string_views(s.library_roots@).contains(t) <==> is_clean_root(
            match roots {
                Some(v) => v,
                None => seq![],
            },
            t,
        )
}

/// `row` is how `s` is stored: each mode by its name, the flag as 0 or 1,
/// the normalized roots as JSON.
pub open spec fn stored_as(row: StoredSettings, s: Settings) -> bool {
    &&& row.reader_mode@ == s.reader_mode.name()
    &&& row.reader_text_mode@ == s.reader_text_mode.name()
    &&& row.reader_trim_headers_footers == (if s.reader_trim_headers_footers { 1int } else { 0int })
    &&& row.kitty_image_quality@ == s.kitty_image_quality.name()
    &&& row.scan_scope@ == s.scan_scope.name()
    &&& json_string_list(row.library_roots_json@) matches Some(v) && strictly_sorted(v) && forall|t: Seq<char>|
        v.contains(t) <==> is_clean_root(string_views(s.library_roots@), t)
}

/// Settings read from their text columns and the roots read from their
/// JSON (`None` when that failed): an unknown mode, layout, quality or scope
/// falls back to text, reflow, balanced and recursive, unreadable roots to
/// none; a nonzero flag turns trimming on; the roots are normalized.
pub fn settings_from_fields(row: &StoredSettings, roots: Option<Vec<String>>) -> (s: Settings)
    ensures
        loaded_as(s, *row, match roots {
            Some(v) => Some(string_views(v@)),
            None => None,
        }),
{
    let reader_mode = match ReaderMode::parse(row.reader_mode.as_str()) {
        Ok(m) => m,
        Err(_) => ReaderMode::Text,
    };
    let reader_text_mode = match ReaderTextMode::parse(row.reader_text_mode.as_str()) {
        Ok(m) => m,
        Err(_) => ReaderTextMode::Reflow,
    };
    let kitty_image_quality = match KittyImageQuality::parse(row.kitty_image_quality.as_str()) {
        Ok(q) => q,
        Err(_) => KittyImageQuality::Balanced,
    };
    let scan_scope = match ScanScope::parse(row.scan_scope.as_str()) {
        Ok(q) => q,
        Err(_) => ScanScope::Recursive,
    };
    let library_roots = match roots {
        Some(v) => v,
        None => Vec::new(),
    };
    let mut settings = Settings {
        reader_mode,
        reader_text_mode,
        reader_trim_headers_footers: row.reader_trim_headers_footers != 0,
        kitty_image_quality,
        scan_scope,
        library_roots,
    };
    settings.normalize();
    settings
}

/// Settings read from their row (see `settings_from_fields`), the roots
/// taken from the JSON column.
pub fn settings_from_stored(row: &StoredSettings) -> (s: Settings)
    ensures
        loaded_as(s, *row, json_string_list(row.library_roots_json@)),
{
    let roots = match parse_json_strings(row.library_roots_json.as_str()) {
        Ok(v) => Some(v),
        Err(_) => None,
    };
    settings_from_fields(row, roots)
}

/// The row settings are stored as: normalized, each mode by its name, the
/// flag as 0 or 1, the roots as JSON. Writing a list of strings as JSON does
/// not fail, so this always succeeds.
pub fn stored_settings(settings: &Settings) -> (r: Result<StoredSettings, StoreError>)
    ensures
        r matches Ok(row) && stored_as(row, *settings),
{
    let mut s = Settings {
        reader_mode: settings.reader_mode,
        reader_text_mode: settings.reader_text_mode,
        reader_trim_headers_footers: settings.reader_trim_headers_footers,
        kitty_image_quality: settings.kitty_image_quality,
        scan_scope: settings.scan_scope,
        library_roots: crate::settings::normalize_roots(&settings.library_roots),
    };
    let json = match write_json_strings(&s.library_roots) {
        Ok(j) => j,
        Err(_) => {
            return Err(StoreError::RootsNotEncoded);
        },
    };
    Ok(
        StoredSettings {
            reader_mode: string_of(chars_of(s.reader_mode.as_str()).as_slice()),
            reader_text_mode: string_of(chars_of(s.reader_text_mode.as_str()).as_slice()),
            reader_trim_headers_footers: if s.reader_trim_headers_footers {
                1
            } else {
                0
            },
            kitty_image_quality: string_of(chars_of(s.kitty_image_quality.as_str()).as_slice()),
            scan_scope: string_of(chars_of(s.scan_scope.as_str()).as_slice()),
            library_roots_json: json,
        },
    )
}

/// A page number read from the database: kept when it is a `u32` of at
/// least 1, else 1.
pub open spec fn page_from_db(raw: i64) -> u32 {
    if 1 <= raw <= u32::MAX {
        raw as u32
    } else {
        1
    }
}

pub fn stored_page(raw: i64) -> (p: u32)
    ensures
        p == page_from_db(raw),
{
    if raw >= 1 && raw <= 0xffff_ffff {
        raw as u32
    } else {
        1
    }
}

/// The last page read of each book, from `(path, page)` rows; a later row
/// for a path wins.
pub open spec fn progress_rows(rows: Seq<(String, i64)>) -> Map<Seq<char>, u32>
    decreases rows.len(),
{
    if rows.len() == 0 {
        Map::empty()
    } else {
        progress_rows(rows.drop_last()).insert(rows.last().0@, page_from_db(rows.last().1))
    }
}

pub fn progress_from_rows(rows: &Vec<(String, i64)>) -> (m: PathMap<u32>)
    ensures
        m@ == progress_rows(rows@),
{
    let mut m: PathMap<u32> = PathMap::new();
    let mut i: usize = 0;
    while i < rows.len()
        invariant
            i <= rows@.len(),
            m@ == progress_rows(rows@.take(i as int)),
        decreases rows.len() - i,
    {
        assert(rows@.take(i + 1).drop_last() =~= rows@.take(i as int));
        let p = stored_page(rows[i].1);
        m.insert(rows[i].0.clone(), p);
        i += 1;
    }
    assert(rows@.take(i as int) =~= rows@);
    m
}

/// The bookmarks or notes of each book, from `(path, page, text)` rows in
/// order.
pub open spec fn mark_rows(rows: Seq<(String, i64, String)>) -> Map<Seq<char>, Seq<Mark>>
    decreases rows.len(),
{
    if rows.len() == 0 {
        Map::empty()
    } else {
        let m = mark_rows(rows.drop_last());
        let r = rows.last();
        let cur = if m.contains_key(r.0@) {
            m[r.0@]
        } else {
            seq![]
        };
        m.insert(r.0@, cur.push((page_from_db(r.1), r.2@)))
    }
}

pub fn bookmarks_from_rows(rows: &Vec<(String, i64, String)>) -> (m: PathMap<Vec<Bookmark>>)
    ensures
        m@.dom() == mark_rows(rows@).dom(),
        forall|k: Seq<char>| #[trigger] m@.contains_key(k) ==> bookmark_marks(m@[k]@) == mark_rows(rows@)[k],
{
    let mut m: PathMap<Vec<Bookmark>> = PathMap::new();
    let mut i: usize = 0;
    while i < rows.len()
        invariant
            i <= rows@.len(),
            m@.dom() == mark_rows(rows@.take(i as int)).dom(),
            forall|k: Seq<char>| #[trigger] m@.contains_key(k) ==> bookmark_marks(m@[k]@) == mark_rows(rows@.take(i as int))[k],
        decreases rows.len() - i,
    {
        let ghost prev = rows@.take(i as int);
        assert(rows@.take(i + 1).drop_last() =~= prev);
        let path = rows[i].0.clone();
        let mut list = match m.take(&path) {
            Some(v) => v,
            None => Vec::new(),
        };
        let ghost before = list@;
        list.push(Bookmark { page: stored_page(rows[i].1), label: rows[i].2.clone() });
        assert(bookmark_marks(list@) =~= bookmark_marks(before).push((page_from_db(rows@[i as int].1), rows@[i as int].2@)));
        m.insert(path, list);
        proof {
            let nm = mark_rows(rows@.take(i + 1));
            assert(m@.dom() =~= nm.dom());
        }
        i += 1;
    }
    assert(rows@.take(i as int) =~= rows@);
    m
}

pub fn notes_from_rows(rows: &Vec<(String, i64, String)>) -> (m: PathMap<Vec<Note>>)
    ensures
        m@.dom() == mark_rows(rows@).dom(),
        forall|k: Seq<char>| #[trigger] m@.contains_key(k) ==> note_marks(m@[k]@) == mark_rows(rows@)[k],
{
    let mut m: PathMap<Vec<Note>> = PathMap::new();
    let mut i: usize = 0;
    while i < rows.len()
        invariant
            i <= rows@.len(),
            m@.dom() == mark_rows(rows@.take(i as int)).dom(),
            forall|k: Seq<char>| #[trigger] m@.contains_key(k) ==> note_marks(m@[k]@) == mark_rows(rows@.take(i as int))[k],
        decreases rows.len() - i,
    {
        let ghost prev = rows@.take(i as int);
        assert(rows@.take(i + 1).drop_last() =~= prev);
        let path = rows[i].0.clone();
        let mut list = match m.take(&path) {
            Some(v) => v,
            None => Vec::new(),
        };
        let ghost before = list@;
        list.push(Note { page: stored_page(rows[i].1), body: rows[i].2.clone() });
        assert(note_marks(list@) =~= note_marks(before).push((page_from_db(rows@[i as int].1), rows@[i as int].2@)));
        m.insert(path, list);
        proof {
            let nm = mark_rows(rows@.take(i + 1));
            assert(m@.dom() =~= nm.dom());
        }
        i += 1;
    }
    assert(rows@.take(i as int) =~= rows@);
    m
}

/// The tags and collection of each book as rows `(path, name, kind)` list
/// them: a tag row (or a row of unknown kind) adds a tag, a collection row
/// sets the collection unless one is set.
pub open spec fn label_rows(rows: Seq<(String, String, String)>) -> Map<Seq<char>, (Seq<Seq<char>>, Option<Seq<char>>)>
    decreases rows.len(),
{
    if rows.len() == 0 {
        Map::empty()
    } else {
        let m = label_rows(rows.drop_last());
        let r = rows.last();
        let cur = if m.contains_key(r.0@) {
            m[r.0@]
        } else {
            (seq![], None)
        };
        let kind = match TagKind::parsed(r.2@) {
            Some(k) => k,
            None => TagKind::Tag,
        };
        let next = match kind {
            TagKind::Tag => (cur.0.push(r.1@), cur.1),
            TagKind::Collection => (cur.0, if cur.1 is None {
                Some(r.1@)
            } else {
                cur.1
            }),
        };
        m.insert(r.0@, next)
    }
}

/// A collection name trimmed, none when blank.
pub open spec fn clean_name(c: Option<Seq<char>>) -> Option<Seq<char>> {
    match c {
        Some(s) => if trim(s).len() == 0 {
            None
        } else {
            Some(trim(s))
        },
        None => None,
    }
}

pub open spec fn labels_view(l: BookLabels) -> (Seq<Seq<char>>, Option<Seq<char>>) {
    (string_views(l.tags@), collection_view(l.collection))
}

/// Labels as normalized from raw tags and collection.
pub open spec fn normalized_labels(l: BookLabels, raw: (Seq<Seq<char>>, Option<Seq<char>>)) -> bool {
    &&& strictly_sorted(string_views(l.tags@))
    &&& forall|t: Seq<char>| string_views(l.tags@).contains(t) <==> is_clean_root(raw.0, t)
    &&& collection_view(l.collection) == clean_name(raw.1)
}

/// The labels of each book from `(path, name, kind)` rows (see
/// `label_rows`), each normalized.
pub fn labels_from_rows(rows: &Vec<(String, String, String)>) -> (m: PathMap<BookLabels>)
    ensures
        m@.dom() == label_rows(rows@).dom(),
        forall|k: Seq<char>| #[trigger] m@.contains_key(k) ==> normalized_labels(m@[k], label_rows(rows@)[k]),
{
    let mut m: PathMap<BookLabels> = PathMap::new();
    let mut i: usize = 0;
    while i < rows.len()
        invariant
            i <= rows@.len(),
            m@.dom() == label_rows(rows@.take(i as int)).dom(),
            forall|k: Seq<char>| #[trigger] m@.contains_key(k) ==> labels_view(m@[k]) == label_rows(rows@.take(i as int))[k],
        decreases rows.len() - i,
    {
        let ghost prev = rows@.take(i as int);
        assert(rows@.take(i + 1).drop_last() =~= prev);
        let path = rows[i].0.clone();
        let mut labels = match m.take(&path) {
            Some(l) => l,
            None => BookLabels::new(),
        };
        let kind = match TagKind::parse(rows[i].2.as_str()) {
            Ok(k) => k,
            Err(_) => TagKind::Tag,
        };
        match kind {
            TagKind::Tag => {
                let ghost before = labels.tags@;
                labels.tags.push(rows[i].1.clone());
                assert(string_views(labels.tags@) =~= string_views(before).push(rows@[i as int].1@));
            },
            TagKind::Collection => {
                if labels.collection.is_none() {
                    labels.collection = Some(rows[i].1.clone());
                }
            },
        }
        m.insert(path, labels);
        proof {
            let nm = label_rows(rows@.take(i + 1));
            assert(m@.dom() =~= nm.dom());
        }
        i += 1;
    }
    assert(rows@.take(i as int) =~= rows@);
    let ghost raw = label_rows(rows@);
    let keys = m.keys();
    let ghost dom = m@.dom();
    proof {
        assert forall|a: int| 0 <= a < keys@.len() implies labels_view(m@[#[trigger] keys@[a]@]) == raw[keys@[a]@] by {
            assert(m@.contains_key(keys@[a]@));
        }
    }
    let mut j: usize = 0;
    while j < keys.len()
        invariant
            j <= keys@.len(),
            m@.dom() == dom,
            dom == raw.dom(),
            forall|q: Seq<char>| dom.contains(q) <==> exists|a: int| 0 <= a < keys@.len() && #[trigger] keys@[a]@ == q,
            forall|a: int, b: int| 0 <= a < keys@.len() && 0 <= b < keys@.len() && #[trigger] keys@[a]@ == #[trigger] keys@[b]@ ==> a == b,
            forall|a: int| 0 <= a < j ==> normalized_labels(m@[#[trigger] keys@[a]@], raw[keys@[a]@]),
            forall|a: int| j <= a < keys@.len() ==> labels_view(m@[#[trigger] keys@[a]@]) == raw[keys@[a]@],
        decreases keys.len() - j,
    {
        let k = keys[j].clone();
        assert(dom.contains(k@));
        let ghost before_map = m@;
        let mut l = match m.take(&k) {
            Some(l) => l,
            None => BookLabels::new(),
        };
        let ghost rawl = raw[k@];
        assert(labels_view(l) == rawl);
        l.normalize();
        assert(clean_collection(before_map[k@].collection) == clean_name(rawl.1));
        m.insert(k, l);
        proof {
            assert(m@.dom() =~= dom);
            assert forall|a: int| 0 <= a < j + 1 implies normalized_labels(m@[#[trigger] keys@[a]@], raw[keys@[a]@]) by {
                if a < j {
                    assert(keys@[a]@ != keys@[j as int]@);
                    assert(m@[keys@[a]@] == before_map[keys@[a]@]);
                }
            }
            assert forall|a: int| j + 1 <= a < keys@.len() implies labels_view(m@[#[trigger] keys@[a]@]) == raw[keys@[a]@] by {
                assert(keys@[a]@ != keys@[j as int]@);
                assert(m@[keys@[a]@] == before_map[keys@[a]@]);
            }
        }
        j += 1;
    }
    proof {
        assert forall|q: Seq<char>| #[trigger] m@.contains_key(q) implies normalized_labels(m@[q], raw[q]) by {
            let a = choose|a: int| 0 <= a < keys@.len() && #[trigger] keys@[a]@ == q;
            assert(normalized_labels(m@[keys@[a]@], raw[keys@[a]@]));
        }
    }
    m
}

/// Settings stored and read back are the settings normalized: the same
/// modes, layout, flag, quality and scope, and the roots trimmed, without
/// blanks, sorted and without repeats, in the order they were stored.
pub proof fn lemma_settings_roundtrip(s: Settings, row: StoredSettings, back: Settings)
    requires
        stored_as(row, s),
        loaded_as(back, row, json_string_list(row.library_roots_json@)),
    ensures
        back.reader_mode == s.reader_mode,
        back.reader_text_mode == s.reader_text_mode,
        back.reader_trim_headers_footers == s.reader_trim_headers_footers,
        back.kitty_image_quality == s.kitty_image_quality,
        back.scan_scope == s.scan_scope,
        string_views(back.library_roots@) == json_string_list(row.library_roots_json@)->0,
        forall|t: Seq<char>| string_views(back.library_roots@).contains(t) <==> is_clean_root(string_views(s.library_roots@), t),
{
    crate::model::lemma_reader_mode_name_parses(s.reader_mode);
    crate::model::lemma_reader_text_mode_name_parses(s.reader_text_mode);
    crate::model::lemma_kitty_quality_name_parses(s.kitty_image_quality);
    crate::model::lemma_scan_scope_name_parses(s.scan_scope);
    let v = json_string_list(row.library_roots_json@)->0;
    crate::settings::lemma_normalize_roots_idempotent(string_views(s.library_roots@), v, string_views(back.library_roots@));
}

} // verus!
