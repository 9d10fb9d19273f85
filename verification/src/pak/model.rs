//! The kinds, formats and output options of a PAK archive, with the labels
//! and selector codes the workspace shows for them.
use vstd::prelude::*;

use crate::text::{
    after_last, chars_of, decimal, holds_any, last_segment_start, push_decimal, push_str, string_of, string_of_all,
    CharSet,
};

verus! {

/// What an archive entry is.
#[derive(Clone, Copy, Debug, PartialEq, Eq, Structural)]
pub enum PakEntryKind {
    File,
    Directory,
    Symlink,
}

/// The header and obfuscation layout of a flat PopCap archive.
#[derive(Clone, Copy, Debug, PartialEq, Eq, Structural)]
pub enum FlatProfile {
    PcXor,
    Plain,
    Xbox360,
}

/// How a flat archive stores entry data.
#[derive(Clone, Copy, Debug, PartialEq, Eq, Structural)]
pub enum PakCompression {
    Raw,
    Zlib,
}

/// How a TV ZIP archive stores entry data.
#[derive(Clone, Copy, Debug, PartialEq, Eq, Structural)]
pub enum ZipCompression {
    Stored,
    Deflated,
}

/// The container an archive is written as.
#[derive(Clone, Copy, Debug, PartialEq, Eq, Structural)]
pub enum PakFormat {
    Flat { profile: FlatProfile, compression: PakCompression },
    TvZip { compression: ZipCompression },
}

/// How hard the encoder compresses.
#[derive(Clone, Copy, Debug, PartialEq, Eq, Structural)]
pub enum CompressionLevel {
    Fast,
    Default,
    Best,
}

/// Which separator entry paths are written with.
#[derive(Clone, Copy, Debug, PartialEq, Eq, Structural)]
pub enum PathSeparator {
    Preserve,
    ForwardSlash,
    Backslash,
}

pub open spec fn spec_format_label(format: PakFormat) -> Seq<char> {
    match format {
        PakFormat::Flat { profile: FlatProfile::PcXor, compression: PakCompression::Raw } => "PC XOR · Raw"@,
        PakFormat::Flat { profile: FlatProfile::PcXor, compression: PakCompression::Zlib } => "PC XOR · zlib"@,
        PakFormat::Flat { profile: FlatProfile::Plain, compression: PakCompression::Raw } => "Plain · Raw"@,
        PakFormat::Flat { profile: FlatProfile::Plain, compression: PakCompression::Zlib } => "Plain · zlib"@,
        PakFormat::Flat { profile: FlatProfile::Xbox360, compression: PakCompression::Raw } => "Xbox 360 · Raw"@,
        PakFormat::Flat { profile: FlatProfile::Xbox360, compression: PakCompression::Zlib } => "Xbox 360 · zlib"@,
        PakFormat::TvZip { compression: ZipCompression::Stored } => "TV ZIP · Stored"@,
        PakFormat::TvZip { compression: ZipCompression::Deflated } => "TV ZIP · Deflate"@,
    }
}

pub open spec fn spec_format_code(format: PakFormat) -> Seq<char> {
    match format {
        PakFormat::Flat { profile: FlatProfile::PcXor, compression: PakCompression::Raw } => "pc-raw"@,
        PakFormat::Flat { profile: FlatProfile::PcXor, compression: PakCompression::Zlib } => "pc-zlib"@,
        PakFormat::Flat { profile: FlatProfile::Plain, compression: PakCompression::Raw } => "plain-raw"@,
        PakFormat::Flat { profile: FlatProfile::Plain, compression: PakCompression::Zlib } => "plain-zlib"@,
        PakFormat::Flat { profile: FlatProfile::Xbox360, compression: PakCompression::Raw } => "xbox-raw"@,
        PakFormat::Flat { profile: FlatProfile::Xbox360, compression: PakCompression::Zlib } => "xbox-zlib"@,
        PakFormat::TvZip { compression: ZipCompression::Stored } => "tv-store"@,
        PakFormat::TvZip { compression: ZipCompression::Deflated } => "tv-deflate"@,
    }
}

/// The name the workspace shows for a format.
pub fn format_label(format: PakFormat) -> (s: &'static str)
    ensures
        s@ == spec_format_label(format),
{
    match format {
        PakFormat::Flat { profile: FlatProfile::PcXor, compression: PakCompression::Raw } => "PC XOR · Raw",
        PakFormat::Flat { profile: FlatProfile::PcXor, compression: PakCompression::Zlib } => "PC XOR · zlib",
        PakFormat::Flat { profile: FlatProfile::Plain, compression: PakCompression::Raw } => "Plain · Raw",
        PakFormat::Flat { profile: FlatProfile::Plain, compression: PakCompression::Zlib } => "Plain · zlib",
        PakFormat::Flat { profile: FlatProfile::Xbox360, compression: PakCompression::Raw } => "Xbox 360 · Raw",
        PakFormat::Flat { profile: FlatProfile::Xbox360, compression: PakCompression::Zlib } => "Xbox 360 · zlib",
        PakFormat::TvZip { compression: ZipCompression::Stored } => "TV ZIP · Stored",
        PakFormat::TvZip { compression: ZipCompression::Deflated } => "TV ZIP · Deflate",
    }
}

/// The selector value of a format.
pub fn format_code(format: PakFormat) -> (s: &'static str)
    ensures
        s@ == spec_format_code(format),
{
    match format {
        PakFormat::Flat { profile: FlatProfile::PcXor, compression: PakCompression::Raw } => "pc-raw",
        PakFormat::Flat { profile: FlatProfile::PcXor, compression: PakCompression::Zlib } => "pc-zlib",
        PakFormat::Flat { profile: FlatProfile::Plain, compression: PakCompression::Raw } => "plain-raw",
        PakFormat::Flat { profile: FlatProfile::Plain, compression: PakCompression::Zlib } => "plain-zlib",
        PakFormat::Flat { profile: FlatProfile::Xbox360, compression: PakCompression::Raw } => "xbox-raw",
        PakFormat::Flat { profile: FlatProfile::Xbox360, compression: PakCompression::Zlib } => "xbox-zlib",
        PakFormat::TvZip { compression: ZipCompression::Stored } => "tv-store",
        PakFormat::TvZip { compression: ZipCompression::Deflated } => "tv-deflate",
    }
}

/// Whether `value` spells `word`.
fn spells(value: &str, word: &str) -> (r: bool)
    ensures
        r == (value@ == word@),
{
    let v = crate::text::chars_of(value);
    let w = crate::text::chars_of(word);
    assert(v@.subrange(0, v@.len() as int) =~= v@);
    crate::text::range_equals(&v, 0, v.len(), &w)
}

/// The format a selector value names.
pub fn parse_format(value: &str) -> (r: Option<PakFormat>)
    ensures
        r matches Some(f) ==> spec_format_code(f) == value@,
        r is None ==> forall|f: PakFormat| spec_format_code(f) != value@,
{
    if spells(value, "pc-raw") {
        Some(PakFormat::Flat { profile: FlatProfile::PcXor, compression: PakCompression::Raw })
    } else if spells(value, "pc-zlib") {
        Some(PakFormat::Flat { profile: FlatProfile::PcXor, compression: PakCompression::Zlib })
    } else if spells(value, "plain-raw") {
        Some(PakFormat::Flat { profile: FlatProfile::Plain, compression: PakCompression::Raw })
    } else if spells(value, "plain-zlib") {
        Some(PakFormat::Flat { profile: FlatProfile::Plain, compression: PakCompression::Zlib })
    } else if spells(value, "xbox-raw") {
        Some(PakFormat::Flat { profile: FlatProfile::Xbox360, compression: PakCompression::Raw })
    } else if spells(value, "xbox-zlib") {
        Some(PakFormat::Flat { profile: FlatProfile::Xbox360, compression: PakCompression::Zlib })
    } else if spells(value, "tv-store") {
        Some(PakFormat::TvZip { compression: ZipCompression::Stored })
    } else if spells(value, "tv-deflate") {
        Some(PakFormat::TvZip { compression: ZipCompression::Deflated })
    } else {
        None
    }
}

/// Different formats have different selector values, so reading back a
/// format's selector value gives that format.
pub proof fn lemma_format_code_roundtrip(f: PakFormat, g: PakFormat)
    ensures
        spec_format_code(f) == spec_format_code(g) ==> f == g,
{
    reveal_strlit("pc-raw");
    reveal_strlit("pc-zlib");
    reveal_strlit("plain-raw");
    reveal_strlit("plain-zlib");
    reveal_strlit("xbox-raw");
    reveal_strlit("xbox-zlib");
    reveal_strlit("tv-store");
    reveal_strlit("tv-deflate");
    if spec_format_code(f) == spec_format_code(g) && f != g {
        let a = spec_format_code(f);
        let b = spec_format_code(g);
        assert(a.len() == b.len());
        assert(a[0] == b[0]);
        assert(a[a.len() - 1] == b[b.len() - 1]);
        assert(a[a.len() - 2] == b[b.len() - 2]);
    }
}

pub open spec fn spec_level_code(level: CompressionLevel) -> Seq<char> {
    match level {
        CompressionLevel::Fast => "fast"@,
        CompressionLevel::Default => "default"@,
        CompressionLevel::Best => "best"@,
    }
}

/// The selector value of a compression level.
pub fn compression_level_code(level: CompressionLevel) -> (s: &'static str)
    ensures
        s@ == spec_level_code(level),
{
    match level {
        CompressionLevel::Fast => "fast",
        CompressionLevel::Default => "default",
        CompressionLevel::Best => "best",
    }
}

/// The compression level a selector value names; anything unknown is the default.
pub fn parse_compression_level(value: &str) -> (level: CompressionLevel)
    ensures
        value@ == "fast"@ ==> level == CompressionLevel::Fast,
        value@ == "best"@ ==> level == CompressionLevel::Best,
        value@ != "fast"@ && value@ != "best"@ ==> level == CompressionLevel::Default,
{
    proof {
        reveal_strlit("fast");
        reveal_strlit("best");
        assert("fast"@[0] != "best"@[0]);
    }
    if spells(value, "fast") {
        CompressionLevel::Fast
    } else if spells(value, "best") {
        CompressionLevel::Best
    } else {
        CompressionLevel::Default
    }
}

/// Reading back a level's selector value gives that level.
pub proof fn lemma_level_code_roundtrip(level: CompressionLevel)
    ensures
        spec_level_code(level) == "fast"@ <==> level == CompressionLevel::Fast,
        spec_level_code(level) == "best"@ <==> level == CompressionLevel::Best,
{
    reveal_strlit("fast");
    reveal_strlit("default");
    reveal_strlit("best");
    assert("fast"@[0] != "best"@[0]);
    assert("default"@.len() != "fast"@.len());
}

pub open spec fn spec_separator_code(separator: PathSeparator) -> Seq<char> {
    match separator {
        PathSeparator::Preserve => "preserve"@,
        PathSeparator::ForwardSlash => "forward"@,
        PathSeparator::Backslash => "backward"@,
    }
}

/// The selector value of a path separator choice.
pub fn separator_code(separator: PathSeparator) -> (s: &'static str)
    ensures
        s@ == spec_separator_code(separator),
{
    match separator {
        PathSeparator::Preserve => "preserve",
        PathSeparator::ForwardSlash => "forward",
        PathSeparator::Backslash => "backward",
    }
}

/// The separator choice a selector value names; anything unknown preserves.
pub fn parse_separator(value: &str) -> (separator: PathSeparator)
    ensures
        value@ == "forward"@ ==> separator == PathSeparator::ForwardSlash,
        value@ == "backward"@ ==> separator == PathSeparator::Backslash,
        value@ != "forward"@ && value@ != "backward"@ ==> separator == PathSeparator::Preserve,
{
    proof {
        reveal_strlit("forward");
        reveal_strlit("backward");
        assert("forward"@[0] != "backward"@[0]);
    }
    if spells(value, "forward") {
        PathSeparator::ForwardSlash
    } else if spells(value, "backward") {
        PathSeparator::Backslash
    } else {
        PathSeparator::Preserve
    }
}

/// Reading back a separator's selector value gives that separator.
pub proof fn lemma_separator_code_roundtrip(separator: PathSeparator)
    ensures
        spec_separator_code(separator) == "forward"@ <==> separator == PathSeparator::ForwardSlash,
        spec_separator_code(separator) == "backward"@ <==> separator == PathSeparator::Backslash,
{
    reveal_strlit("preserve");
    reveal_strlit("forward");
    reveal_strlit("backward");
    assert("forward"@[0] != "backward"@[0]);
    assert("preserve"@[0] != "forward"@[0]);
    assert("preserve"@[0] != "backward"@[0]);
}

pub open spec fn spec_kind_label(kind: PakEntryKind) -> Seq<char> {
    match kind {
        PakEntryKind::File => "文件"@,
        PakEntryKind::Directory => "文件夹"@,
        PakEntryKind::Symlink => "符号链接"@,
    }
}

/// The name the Type column shows for an entry kind.
pub fn kind_label(kind: PakEntryKind) -> (s: &'static str)
    ensures
        s@ == spec_kind_label(kind),
{
    match kind {
        PakEntryKind::File => "文件",
        PakEntryKind::Directory => "文件夹",
        PakEntryKind::Symlink => "符号链接",
    }
}

/// The row class of an entry kind.
pub fn kind_class(kind: PakEntryKind) -> (s: &'static str)
    ensures
        kind == PakEntryKind::File ==> s@ == "file"@,
        kind == PakEntryKind::Directory ==> s@ == "folder"@,
        kind == PakEntryKind::Symlink ==> s@ == "link"@,
{
    match kind {
        PakEntryKind::File => "file",
        PakEntryKind::Directory => "folder",
        PakEntryKind::Symlink => "link",
    }
}

/// The icon of an entry kind.
pub fn kind_glyph(kind: PakEntryKind) -> (s: &'static str)
    ensures
        kind == PakEntryKind::File ==> s@ == "file"@,
        kind == PakEntryKind::Directory ==> s@ == "folder"@,
        kind == PakEntryKind::Symlink ==> s@ == "link"@,
{
    match kind {
        PakEntryKind::File => "file",
        PakEntryKind::Directory => "folder",
        PakEntryKind::Symlink => "link",
    }
}

pub open spec fn spec_zip_compression_label(value: ZipCompression) -> Seq<char> {
    match value {
        ZipCompression::Stored => "Stored"@,
        ZipCompression::Deflated => "Deflate"@,
    }
}

/// The name shown for a ZIP entry's compression.
pub fn zip_compression_label(value: ZipCompression) -> (s: &'static str)
    ensures
        s@ == spec_zip_compression_label(value),
{
    match value {
        ZipCompression::Stored => "Stored",
        ZipCompression::Deflated => "Deflate",
    }
}

/// The format shown for an archive: its source format, or a new archive's label.
pub fn source_format_label(source: Option<PakFormat>) -> (s: &'static str)
    ensures
        source matches Some(f) ==> s@ == spec_format_label(f),
        source is None ==> s@ == "新归档"@,
{
    match source {
        Some(f) => format_label(f),
        None => "新归档",
    }
}

/// The class of a tab in the tab strip.
pub fn tab_class(active: bool, dirty: bool) -> (c: &'static str)
    ensures
        active && dirty ==> c@ == "pak-tab ui-document-tab is-active has-changes"@,
        active && !dirty ==> c@ == "pak-tab ui-document-tab is-active"@,
        !active && dirty ==> c@ == "pak-tab ui-document-tab has-changes"@,
        !active && !dirty ==> c@ == "pak-tab ui-document-tab"@,
{
    if active {
        if dirty {
            "pak-tab ui-document-tab is-active has-changes"
        } else {
            "pak-tab ui-document-tab is-active"
        }
    } else if dirty {
        "pak-tab ui-document-tab has-changes"
    } else {
        "pak-tab ui-document-tab"
    }
}

/// The octal digits of `n`.
pub open spec fn octal(n: nat) -> Seq<char>
    decreases n,
{
    if n < 8 {
        seq![crate::text::digit_char(n)]
    } else {
        octal(n / 8).push(crate::text::digit_char(n % 8))
    }
}

/// Appends the octal digits of `n` to `out`.
fn push_octal(out: &mut Vec<char>, n: u32)
    ensures
        final(out)@ == old(out)@ + octal(n as nat),
    decreases n,
{
    if n < 8 {
        out.push(crate::text::digit(n as u64));
        assert(octal(n as nat) =~= seq![crate::text::digit_char(n as nat)]);
    } else {
        let ghost before = out@;
        push_octal(out, n / 8);
        out.push(crate::text::digit((n % 8) as u64));
        assert(out@ =~= before + octal(n as nat));
    }
}

/// A Unix mode in octal, or a dash when the entry has none.
pub fn unix_mode_label(mode: Option<u32>) -> (s: String)
    ensures
        mode matches Some(m) ==> s@ == octal(m as nat),
        mode is None ==> s@ == "—"@,
{
    let mut v: Vec<char> = Vec::new();
    match mode {
        Some(m) => {
            push_octal(&mut v, m);
            assert(v@ =~= octal(m as nat));
        },
        None => {
            push_str(&mut v, "—");
            assert(v@ =~= "—"@);
        },
    }
    string_of_all(&v)
}

/// The file name an archive is saved under: `.pak` is added unless the name
/// already ends in `.pak` or `.zip`, in any case.
pub fn normalized_pak_name(name: &str) -> (out: String)
    ensures
        ({
            let l = crate::text::lower(name@);
            if crate::text::has_suffix(l, ".pak"@) || crate::text::has_suffix(l, ".zip"@) {
                out@ == name@
            } else {
                out@ == name@ + ".pak"@
            }
        }),
{
    let v = crate::text::chars_of(name);
    if crate::text::ends_with_lower(&v, ".pak") || crate::text::ends_with_lower(&v, ".zip") {
        string_of_all(&v)
    } else {
        let mut w = v;
        push_str(&mut w, ".pak");
        string_of_all(&w)
    }
}


/// `name` up to its last dot, or all of it when it has none.
pub open spec fn spec_archive_stem(name: Seq<char>) -> Seq<char> {
    if holds_any(name, CharSet::Dot) {
        name.subrange(0, name.len() - after_last(name, CharSet::Dot).len() - 1)
    } else {
        name
    }
}

/// `name` without its last extension, used to name the ZIP of extracted entries.
pub fn archive_stem(name: &str) -> (out: String)
    ensures
        out@ == spec_archive_stem(name@),
{
    let v = chars_of(name);
    let i = last_segment_start(&v, 0, v.len(), CharSet::Dot);
    assert(v@.subrange(0, v@.len() as int) =~= v@);
    if i > 0 {
        assert(holds_any(v@, CharSet::Dot)) by {
            assert(CharSet::Dot.has(v@[i - 1]));
        }
        string_of(&v, 0, i - 1)
    } else {
        string_of_all(&v)
    }
}


/// The class of the browser grid, by which side panels are shown.
pub fn grid_class(tree_visible: bool, inspector_visible: bool) -> (c: &'static str)
    ensures
        tree_visible && inspector_visible ==> c@ == "pak-browser-grid"@,
        tree_visible && !inspector_visible ==> c@ == "pak-browser-grid no-inspector"@,
        !tree_visible && inspector_visible ==> c@ == "pak-browser-grid no-tree"@,
        !tree_visible && !inspector_visible ==> c@ == "pak-browser-grid no-tree no-inspector"@,
{
    if tree_visible {
        if inspector_visible {
            "pak-browser-grid"
        } else {
            "pak-browser-grid no-inspector"
        }
    } else if inspector_visible {
        "pak-browser-grid no-tree"
    } else {
        "pak-browser-grid no-tree no-inspector"
    }
}

} // verus!
