//! Domain types of the library and the reader settings.

use vstd::prelude::*;
use crate::chars::is_ws;
use crate::strs::{chars_of, eq_chars, lower_ascii, lower_ascii_chars, trim, trim_chars, trim_end, trim_start};

verus! {

/// Identifier of a book: its encoded path.
#[derive(Debug, Clone, PartialEq, Eq)]
pub struct BookId(pub String);

/// How the reader shows a page.
#[derive(Debug, Clone, Copy, PartialEq, Eq, Structural)]
pub enum ReaderMode {
    Text,
    Image,
}

/// How extracted page text is laid out in text mode.
#[derive(Debug, Clone, Copy, PartialEq, Eq, Structural)]
pub enum ReaderTextMode {
    Raw,
    Wrap,
    Reflow,
}

/// Trade-off between sharpness and speed of kitty image transfers.
#[derive(Debug, Clone, Copy, PartialEq, Eq, Structural)]
pub enum KittyImageQuality {
    Fast,
    Balanced,
    Sharp,
}

/// Whether a library root is scanned with or without its subdirectories.
#[derive(Debug, Clone, Copy, PartialEq, Eq, Structural)]
pub enum ScanScope {
    Direct,
    Recursive,
}

/// Kind of a label attached to a book.
#[derive(Debug, Clone, Copy, PartialEq, Eq, Structural)]
pub enum TagKind {
    Tag,
    Collection,
}

/// `lower_ascii(trim(value))`: what the parsers compare with their names.
pub open spec fn parse_key(value: Seq<char>) -> Seq<char> {
    lower_ascii(trim(value))
}

fn parse_key_exec(value: &str) -> (r: Vec<char>)
    ensures
        r@ == parse_key(value@),
{
    let v = chars_of(value);
    let t = trim_chars(v.as_slice());
    lower_ascii_chars(t.as_slice())
}

fn is_name(key: &Vec<char>, name: &str) -> (b: bool)
    ensures
        b == (key@ == name@),
{
    let n = chars_of(name);
    eq_chars(key.as_slice(), n.as_slice())
}

impl ReaderMode {
    pub open spec fn name(self) -> Seq<char> {
        match self {
            ReaderMode::Text => "text"@,
            ReaderMode::Image => "image"@,
        }
    }

    pub fn as_str(&self) -> (s: &'static str)
        ensures
            s@ == self.name(),
    {
        match self {
            ReaderMode::Text => "text",
            ReaderMode::Image => "image",
        }
    }

    /// Parses a mode name, ignoring surrounding white space and ASCII case.
    /// The value `parse` gives for a text, if any.
    pub open spec fn parsed(value: Seq<char>) -> Option<ReaderMode> {
        if parse_key(value) == "text"@ {
            Some(ReaderMode::Text)
        } else if parse_key(value) == "image"@ {
            Some(ReaderMode::Image)
        } else {
            None
        }
    }

    pub fn parse(value: &str) -> (r: Result<ReaderMode, &'static str>)
        ensures
            r is Ok <==> Self::parsed(value@) is Some,
            r matches Ok(m) ==> Self::parsed(value@) == Some(m),
            r matches Ok(m) ==> parse_key(value@) == m.name(),
            r is Err <==> (parse_key(value@) != "text"@ && parse_key(value@) != "image"@),
            r matches Err(e) ==> e@ == "unknown reader mode"@,
    {
        let key = parse_key_exec(value);
        if is_name(&key, "text") {
            Ok(ReaderMode::Text)
        } else if is_name(&key, "image") {
            Ok(ReaderMode::Image)
        } else {
            Err("unknown reader mode")
        }
    }

    /// The other mode.
    pub open spec fn toggled(self) -> ReaderMode {
        match self {
            ReaderMode::Text => ReaderMode::Image,
            ReaderMode::Image => ReaderMode::Text,
        }
    }
}

impl ReaderTextMode {
    pub open spec fn name(self) -> Seq<char> {
        match self {
            ReaderTextMode::Raw => "raw"@,
            ReaderTextMode::Wrap => "wrap"@,
            ReaderTextMode::Reflow => "reflow"@,
        }
    }

    pub fn as_str(&self) -> (s: &'static str)
        ensures
            s@ == self.name(),
    {
        match self {
            ReaderTextMode::Raw => "raw",
            ReaderTextMode::Wrap => "wrap",
            ReaderTextMode::Reflow => "reflow",
        }
    }

    /// Parses a text mode name, ignoring surrounding white space and ASCII case.
    /// The value `parse` gives for a text, if any.
    pub open spec fn parsed(value: Seq<char>) -> Option<ReaderTextMode> {
        if parse_key(value) == "raw"@ {
            Some(ReaderTextMode::Raw)
        } else if parse_key(value) == "wrap"@ {
            Some(ReaderTextMode::Wrap)
        } else if parse_key(value) == "reflow"@ {
            Some(ReaderTextMode::Reflow)
        } else {
            None
        }
    }

    pub fn parse(value: &str) -> (r: Result<ReaderTextMode, &'static str>)
        ensures
            r is Ok <==> Self::parsed(value@) is Some,
            r matches Ok(m) ==> Self::parsed(value@) == Some(m),
            r matches Ok(m) ==> parse_key(value@) == m.name(),
            r is Err <==> (parse_key(value@) != "raw"@ && parse_key(value@) != "wrap"@
                && parse_key(value@) != "reflow"@),
            r matches Err(e) ==> e@ == "unknown reader text mode"@,
    {
        let key = parse_key_exec(value);
        if is_name(&key, "raw") {
            Ok(ReaderTextMode::Raw)
        } else if is_name(&key, "wrap") {
            Ok(ReaderTextMode::Wrap)
        } else if is_name(&key, "reflow") {
            Ok(ReaderTextMode::Reflow)
        } else {
            Err("unknown reader text mode")
        }
    }

    /// `raw -> wrap -> reflow -> raw`.
    pub open spec fn following(self) -> ReaderTextMode {
        match self {
            ReaderTextMode::Raw => ReaderTextMode::Wrap,
            ReaderTextMode::Wrap => ReaderTextMode::Reflow,
            ReaderTextMode::Reflow => ReaderTextMode::Raw,
        }
    }

    pub fn next(&self) -> (r: ReaderTextMode)
        ensures
            r == self.following(),
    {
        match self {
            ReaderTextMode::Raw => ReaderTextMode::Wrap,
            ReaderTextMode::Wrap => ReaderTextMode::Reflow,
            ReaderTextMode::Reflow => ReaderTextMode::Raw,
        }
    }
}

impl KittyImageQuality {
    pub open spec fn name(self) -> Seq<char> {
        match self {
            KittyImageQuality::Fast => "fast"@,
            KittyImageQuality::Balanced => "balanced"@,
            KittyImageQuality::Sharp => "sharp"@,
        }
    }

    pub open spec fn transmit_cap(self) -> u64 {
        match self {
            KittyImageQuality::Fast => 750_000,
            KittyImageQuality::Balanced => 1_250_000,
            KittyImageQuality::Sharp => 2_500_000,
        }
    }

    /// `fast -> balanced -> sharp -> fast`.
    pub open spec fn following(self) -> KittyImageQuality {
        match self {
            KittyImageQuality::Fast => KittyImageQuality::Balanced,
            KittyImageQuality::Balanced => KittyImageQuality::Sharp,
            KittyImageQuality::Sharp => KittyImageQuality::Fast,
        }
    }

    /// `fast -> sharp -> balanced -> fast`.
    pub open spec fn preceding(self) -> KittyImageQuality {
        match self {
            KittyImageQuality::Fast => KittyImageQuality::Sharp,
            KittyImageQuality::Balanced => KittyImageQuality::Fast,
            KittyImageQuality::Sharp => KittyImageQuality::Balanced,
        }
    }

    pub fn as_str(&self) -> (s: &'static str)
        ensures
            s@ == self.name(),
    {
        match self {
            KittyImageQuality::Fast => "fast",
            KittyImageQuality::Balanced => "balanced",
            KittyImageQuality::Sharp => "sharp",
        }
    }

    /// Most pixels sent to the terminal for one kitty image.
    pub fn max_transmit_pixels(&self) -> (n: u64)
        ensures
            n == self.transmit_cap(),
    {
        match self {
            KittyImageQuality::Fast => 750_000,
            KittyImageQuality::Balanced => 1_250_000,
            KittyImageQuality::Sharp => 2_500_000,
        }
    }

    pub fn next(&self) -> (r: KittyImageQuality)
        ensures
            r == self.following(),
    {
        match self {
            KittyImageQuality::Fast => KittyImageQuality::Balanced,
            KittyImageQuality::Balanced => KittyImageQuality::Sharp,
            KittyImageQuality::Sharp => KittyImageQuality::Fast,
        }
    }

    pub fn prev(&self) -> (r: KittyImageQuality)
        ensures
            r == self.preceding(),
    {
        match self {
            KittyImageQuality::Fast => KittyImageQuality::Sharp,
            KittyImageQuality::Balanced => KittyImageQuality::Fast,
            KittyImageQuality::Sharp => KittyImageQuality::Balanced,
        }
    }

    /// Parses a quality name, ignoring surrounding white space and ASCII case.
    /// The value `parse` gives for a text, if any.
    pub open spec fn parsed(value: Seq<char>) -> Option<KittyImageQuality> {
        if parse_key(value) == "fast"@ {
            Some(KittyImageQuality::Fast)
        } else if parse_key(value) == "balanced"@ {
            Some(KittyImageQuality::Balanced)
        } else if parse_key(value) == "sharp"@ {
            Some(KittyImageQuality::Sharp)
        } else {
            None
        }
    }

    pub fn parse(value: &str) -> (r: Result<KittyImageQuality, &'static str>)
        ensures
            r is Ok <==> Self::parsed(value@) is Some,
            r matches Ok(m) ==> Self::parsed(value@) == Some(m),
            r matches Ok(q) ==> parse_key(value@) == q.name(),
            r is Err <==> (parse_key(value@) != "fast"@ && parse_key(value@) != "balanced"@
                && parse_key(value@) != "sharp"@),
            r matches Err(e) ==> e@ == "unknown kitty image quality"@,
    {
        let key = parse_key_exec(value);
        if is_name(&key, "fast") {
            Ok(KittyImageQuality::Fast)
        } else if is_name(&key, "balanced") {
            Ok(KittyImageQuality::Balanced)
        } else if is_name(&key, "sharp") {
            Ok(KittyImageQuality::Sharp)
        } else {
            Err("unknown kitty image quality")
        }
    }
}

impl ScanScope {
    pub open spec fn name(self) -> Seq<char> {
        match self {
            ScanScope::Direct => "direct"@,
            ScanScope::Recursive => "recursive"@,
        }
    }

    pub open spec fn toggled(self) -> ScanScope {
        match self {
            ScanScope::Direct => ScanScope::Recursive,
            ScanScope::Recursive => ScanScope::Direct,
        }
    }

    pub fn as_str(&self) -> (s: &'static str)
        ensures
            s@ == self.name(),
    {
        match self {
            ScanScope::Direct => "direct",
            ScanScope::Recursive => "recursive",
        }
    }

    /// Parses a scope name, ignoring surrounding white space and ASCII case.
    /// The value `parse` gives for a text, if any.
    pub open spec fn parsed(value: Seq<char>) -> Option<ScanScope> {
        if parse_key(value) == "direct"@ {
            Some(ScanScope::Direct)
        } else if parse_key(value) == "recursive"@ {
            Some(ScanScope::Recursive)
        } else {
            None
        }
    }

    pub fn parse(value: &str) -> (r: Result<ScanScope, &'static str>)
        ensures
            r is Ok <==> Self::parsed(value@) is Some,
            r matches Ok(m) ==> Self::parsed(value@) == Some(m),
            r matches Ok(m) ==> parse_key(value@) == m.name(),
            r is Err <==> (parse_key(value@) != "direct"@ && parse_key(value@) != "recursive"@),
            r matches Err(e) ==> e@ == "unknown scan scope"@,
    {
        let key = parse_key_exec(value);
        if is_name(&key, "direct") {
            Ok(ScanScope::Direct)
        } else if is_name(&key, "recursive") {
            Ok(ScanScope::Recursive)
        } else {
            Err("unknown scan scope")
        }
    }
}

impl TagKind {
    pub open spec fn name(self) -> Seq<char> {
        match self {
            TagKind::Tag => "tag"@,
            TagKind::Collection => "collection"@,
        }
    }

    pub fn as_str(&self) -> (s: &'static str)
        ensures
            s@ == self.name(),
    {
        match self {
            TagKind::Tag => "tag",
            TagKind::Collection => "collection",
        }
    }

    /// Parses a label kind name, ignoring surrounding white space and ASCII case.
    /// The value `parse` gives for a text, if any.
    pub open spec fn parsed(value: Seq<char>) -> Option<TagKind> {
        if parse_key(value) == "tag"@ {
            Some(TagKind::Tag)
        } else if parse_key(value) == "collection"@ {
            Some(TagKind::Collection)
        } else {
            None
        }
    }

    pub fn parse(value: &str) -> (r: Result<TagKind, &'static str>)
        ensures
            r is Ok <==> Self::parsed(value@) is Some,
            r matches Ok(m) ==> Self::parsed(value@) == Some(m),
            r matches Ok(m) ==> parse_key(value@) == m.name(),
            r is Err <==> (parse_key(value@) != "tag"@ && parse_key(value@) != "collection"@),
            r matches Err(e) ==> e@ == "unknown tag kind"@,
    {
        let key = parse_key_exec(value);
        if is_name(&key, "tag") {
            Ok(TagKind::Tag)
        } else if is_name(&key, "collection") {
            Ok(TagKind::Collection)
        } else {
            Err("unknown tag kind")
        }
    }
}

impl std::str::FromStr for ReaderMode {
    type Err = &'static str;

    /// `ReaderMode::parse`.
    fn from_str(value: &str) -> (r: Result<Self, Self::Err>)
        ensures
            r is Ok <==> ReaderMode::parsed(value@) is Some,
            r matches Ok(m) ==> ReaderMode::parsed(value@) == Some(m),
            r matches Err(e) ==> e@ == "unknown reader mode"@,
    {
        ReaderMode::parse(value)
    }
}

impl std::str::FromStr for ReaderTextMode {
    type Err = &'static str;

    /// `ReaderTextMode::parse`.
    fn from_str(value: &str) -> (r: Result<Self, Self::Err>)
        ensures
            r is Ok <==> ReaderTextMode::parsed(value@) is Some,
            r matches Ok(m) ==> ReaderTextMode::parsed(value@) == Some(m),
            r matches Err(e) ==> e@ == "unknown reader text mode"@,
    {
        ReaderTextMode::parse(value)
    }
}

impl std::str::FromStr for KittyImageQuality {
    type Err = &'static str;

    /// `KittyImageQuality::parse`.
    fn from_str(value: &str) -> (r: Result<Self, Self::Err>)
        ensures
            r is Ok <==> KittyImageQuality::parsed(value@) is Some,
            r matches Ok(m) ==> KittyImageQuality::parsed(value@) == Some(m),
            r matches Err(e) ==> e@ == "unknown kitty image quality"@,
    {
        KittyImageQuality::parse(value)
    }
}

impl std::str::FromStr for ScanScope {
    type Err = &'static str;

    /// `ScanScope::parse`.
    fn from_str(value: &str) -> (r: Result<Self, Self::Err>)
        ensures
            r is Ok <==> ScanScope::parsed(value@) is Some,
            r matches Ok(m) ==> ScanScope::parsed(value@) == Some(m),
            r matches Err(e) ==> e@ == "unknown scan scope"@,
    {
        ScanScope::parse(value)
    }
}

impl std::str::FromStr for TagKind {
    type Err = &'static str;

    /// `TagKind::parse`.
    fn from_str(value: &str) -> (r: Result<Self, Self::Err>)
        ensures
            r is Ok <==> TagKind::parsed(value@) is Some,
            r matches Ok(m) ==> TagKind::parsed(value@) == Some(m),
            r matches Err(e) ==> e@ == "unknown tag kind"@,
    {
        TagKind::parse(value)
    }
}

/// A name of lowercase ASCII letters is its own parse key.
proof fn lemma_plain_name(s: Seq<char>)
    requires
        s.len() > 0,
        forall|i: int| 0 <= i < s.len() ==> 'a' <= #[trigger] s[i] <= 'z',
    ensures
        parse_key(s) == s,
{
    assert(!is_ws(s[0]));
    assert(!is_ws(s.last()));
    assert(trim_start(s) == s);
    assert(trim_end(s) == s);
    assert(lower_ascii(s) =~= s);
}

/// Each reader mode's name parses back to it.
pub proof fn lemma_reader_mode_name_parses(m: ReaderMode)
    ensures
        ReaderMode::parsed(m.name()) == Some(m),
{
    reveal_strlit("text");
    reveal_strlit("image");
    lemma_plain_name(m.name());
}

/// Each text layout's name parses back to it.
pub proof fn lemma_reader_text_mode_name_parses(m: ReaderTextMode)
    ensures
        ReaderTextMode::parsed(m.name()) == Some(m),
{
    reveal_strlit("raw");
    reveal_strlit("wrap");
    reveal_strlit("reflow");
    lemma_plain_name(m.name());
}

/// Each kitty quality's name parses back to it.
pub proof fn lemma_kitty_quality_name_parses(q: KittyImageQuality)
    ensures
        KittyImageQuality::parsed(q.name()) == Some(q),
{
    reveal_strlit("fast");
    reveal_strlit("balanced");
    reveal_strlit("sharp");
    lemma_plain_name(q.name());
}

/// Each scan scope's name parses back to it.
pub proof fn lemma_scan_scope_name_parses(s: ScanScope)
    ensures
        ScanScope::parsed(s.name()) == Some(s),
{
    reveal_strlit("direct");
    reveal_strlit("recursive");
    lemma_plain_name(s.name());
}

/// Each tag kind's name parses back to it.
pub proof fn lemma_tag_kind_name_parses(k: TagKind)
    ensures
        TagKind::parsed(k.name()) == Some(k),
{
    reveal_strlit("tag");
    reveal_strlit("collection");
    lemma_plain_name(k.name());
}

/// Switching the reader mode twice restores it.
pub proof fn lemma_reader_mode_toggle_twice(m: ReaderMode)
    ensures
        m.toggled().toggled() == m,
{
}

/// Switching the scan scope twice restores it.
pub proof fn lemma_scan_scope_toggle_twice(s: ScanScope)
    ensures
        s.toggled().toggled() == s,
{
}

/// Three steps of the text layout cycle come back to the start.
pub proof fn lemma_text_mode_cycle(m: ReaderTextMode)
    ensures
        m.following().following().following() == m,
        m.following() != m,
{
}

/// The kitty quality steps undo each other, and three steps come back.
pub proof fn lemma_kitty_quality_cycle(q: KittyImageQuality)
    ensures
        q.following().preceding() == q,
        q.preceding().following() == q,
        q.following().following().following() == q,
{
}

/// A PDF in the library.
#[derive(Debug, Clone, PartialEq, Eq)]
pub struct Book {
    pub path: String,
    pub title: String,
    pub last_opened: Option<i64>,
    pub favorite: bool,
}

/// A saved position in a book; pages are 1-based.
#[derive(Debug, Clone, PartialEq, Eq)]
pub struct Bookmark {
    pub page: u32,
    pub label: String,
}

/// A one-line note on a page of a book; pages are 1-based.
#[derive(Debug, Clone, PartialEq, Eq)]
pub struct Note {
    pub page: u32,
    pub body: String,
}

/// An entry of a book's outline.
#[derive(Debug, Clone, PartialEq, Eq)]
pub struct TocItem {
    pub title: String,
    pub page: Option<u32>,
    pub depth: usize,
}

/// Reading position within a book.
#[derive(Debug, Clone, PartialEq, Eq)]
pub struct Progress {
    pub current_page: u32,
    pub total_pages: u32,
}

} // verus!
