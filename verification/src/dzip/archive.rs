//! The editable model of a DZip archive: its entries, their compression and
//! volume, and the archive-wide settings, with the checks run before saving.
use vstd::prelude::*;

use crate::text::{chars_of, has_prefix, parse_u32, parse_usize, range_equals, trim_set, unsigned_text_value, CharSet};

verus! {

/// The compression algorithms a DZip entry can use.
#[derive(Clone, Copy, Debug, PartialEq, Eq, Structural)]
pub enum Compression {
    Dz,
    Zlib,
    Bzip,
    Lzma,
    Copy,
    Zero,
}

pub open spec fn spec_compression_label(c: Compression) -> Seq<char> {
    match c {
        Compression::Dz => "DZ"@,
        Compression::Zlib => "Zlib"@,
        Compression::Bzip => "BZip"@,
        Compression::Lzma => "LZMA"@,
        Compression::Copy => "Copy"@,
        Compression::Zero => "Zero"@,
    }
}

pub open spec fn spec_compression_code(c: Compression) -> Seq<char> {
    match c {
        Compression::Dz => "dz"@,
        Compression::Zlib => "zlib"@,
        Compression::Bzip => "bzip"@,
        Compression::Lzma => "lzma"@,
        Compression::Copy => "copy"@,
        Compression::Zero => "zero"@,
    }
}

/// The name the browser shows for a compression.
pub fn compression_label(c: Compression) -> (s: &'static str)
    ensures
        s@ == spec_compression_label(c),
{
    match c {
        Compression::Dz => "DZ",
        Compression::Zlib => "Zlib",
        Compression::Bzip => "BZip",
        Compression::Lzma => "LZMA",
        Compression::Copy => "Copy",
        Compression::Zero => "Zero",
    }
}

/// The value under which a compression is offered in the selectors.
pub fn compression_code(c: Compression) -> (s: &'static str)
    ensures
        s@ == spec_compression_code(c),
{
    match c {
        Compression::Dz => "dz",
        Compression::Zlib => "zlib",
        Compression::Bzip => "bzip",
        Compression::Lzma => "lzma",
        Compression::Copy => "copy",
        Compression::Zero => "zero",
    }
}

/// Whether `v` spells `word`.
fn spells(v: &Vec<char>, word: &str) -> (r: bool)
    ensures
        r == (v@ == word@),
{
    let w = chars_of(word);
    assert(v@.subrange(0, v@.len() as int) =~= v@);
    range_equals(v, 0, v.len(), &w)
}

/// The compression a selector value names.
pub fn parse_compression(value: &str) -> (c: Option<Compression>)
    ensures
        c matches Some(k) ==> spec_compression_code(k) == value@,
        c is None ==> forall|k: Compression| spec_compression_code(k) != value@,
{
    let v = chars_of(value);
    if spells(&v, "dz") {
        Some(Compression::Dz)
    } else if spells(&v, "zlib") {
        Some(Compression::Zlib)
    } else if spells(&v, "bzip") {
        Some(Compression::Bzip)
    } else if spells(&v, "lzma") {
        Some(Compression::Lzma)
    } else if spells(&v, "copy") {
        Some(Compression::Copy)
    } else if spells(&v, "zero") {
        Some(Compression::Zero)
    } else {
        None
    }
}

/// Reading back the selector value of a compression gives that compression.
pub proof fn lemma_compression_code_roundtrip(c: Compression, d: Compression)
    ensures
        spec_compression_code(c) == spec_compression_code(d) ==> c == d,
{
    reveal_strlit("dz");
    reveal_strlit("zlib");
    reveal_strlit("bzip");
    reveal_strlit("lzma");
    reveal_strlit("copy");
    reveal_strlit("zero");
    if spec_compression_code(c) == spec_compression_code(d) && c != d {
        let a = spec_compression_code(c);
        let b = spec_compression_code(d);
        assert(a.len() == b.len());
        assert(a[0] == b[0]);
        assert(a[1] == b[1]);
    }
}

/// How one stored segment of an entry is rebuilt.
#[derive(Clone, Copy, Debug, PartialEq, Eq, Structural)]
pub struct SegmentRecipe {
    pub length: usize,
    pub raw_flags: u16,
    pub volume: u16,
}

/// An entry of an opened archive as the backend describes it.
pub struct EntrySummary {
    pub id: usize,
    pub path: String,
    pub size: u64,
    pub packed_size: Option<u64>,
    pub compression: Compression,
    pub volume: u16,
    pub chunks: usize,
    pub segments: Vec<SegmentRecipe>,
}

/// An entry of the archive being edited: taken from the source archive
/// (`source_id`) or supplied as new bytes.
pub struct DraftEntry {
    pub id: u64,
    pub source_id: Option<usize>,
    pub path: String,
    pub bytes: Option<Vec<u8>>,
    pub size: u64,
    pub packed_size: Option<u64>,
    pub compression: Compression,
    pub volume: u16,
    pub segments: Option<Vec<SegmentRecipe>>,
}

impl DraftEntry {
    /// An entry kept from the source archive, rebuilt segment by segment.
    pub fn from_summary(entry: EntrySummary) -> (d: Self)
        requires
            entry.id < u64::MAX,
        ensures
            d.id == entry.id + 1,
            d.source_id == Some(entry.id),
            d.path@ == entry.path@,
            d.bytes is None,
            d.size == entry.size,
            d.packed_size == entry.packed_size,
            d.compression == entry.compression,
            d.volume == entry.volume,
            d.segments matches Some(s) && s@ == entry.segments@,
    {
        DraftEntry {
            id: entry.id as u64 + 1,
            source_id: Some(entry.id),
            path: entry.path,
            bytes: None,
            size: entry.size,
            packed_size: entry.packed_size,
            compression: entry.compression,
            volume: entry.volume,
            segments: Some(entry.segments),
        }
    }

    /// A new entry holding `bytes`, placed in the main volume.
    pub fn replacement(id: u64, path: String, bytes: Vec<u8>, compression: Compression) -> (d: Self)
        ensures
            d.id == id,
            d.source_id is None,
            d.path == path,
            d.bytes matches Some(b) && b@ == bytes@,
            d.size == bytes@.len(),
            d.packed_size is None,
            d.compression == compression,
            d.volume == 0,
            d.segments is None,
    {
        let size = bytes.len() as u64;
        DraftEntry {
            id,
            source_id: None,
            path,
            bytes: Some(bytes),
            size,
            packed_size: None,
            compression,
            volume: 0,
            segments: None,
        }
    }

    /// Replaces the content; the packed size and segment layout are then unknown.
    pub fn replace_bytes(&mut self, bytes: Vec<u8>)
        ensures
            final(self).id == old(self).id,
            final(self).source_id == old(self).source_id,
            final(self).path == old(self).path,
            final(self).bytes matches Some(b) && b@ == bytes@,
            final(self).size == bytes@.len(),
            final(self).packed_size is None,
            final(self).compression == old(self).compression,
            final(self).volume == old(self).volume,
            final(self).segments is None,
    {
        self.size = bytes.len() as u64;
        self.bytes = Some(bytes);
        self.packed_size = None;
        self.segments = None;
    }

    /// Changes the compression; a real change forgets the packed size and layout.
    pub fn replace_compression(&mut self, compression: Compression)
        ensures
            final(self).compression == compression,
            old(self).compression == compression ==> *final(self) == *old(self),
            old(self).compression != compression ==> final(self).packed_size is None
                && final(self).segments is None,
            final(self).id == old(self).id,
            final(self).source_id == old(self).source_id,
            final(self).path == old(self).path,
            final(self).bytes == old(self).bytes,
            final(self).size == old(self).size,
            final(self).volume == old(self).volume,
    {
        if self.compression != compression {
            self.compression = compression;
            self.packed_size = None;
            self.segments = None;
        }
    }

    /// Moves the entry to another volume; a real move forgets the packed size and layout.
    pub fn replace_volume(&mut self, volume: u16)
        ensures
            final(self).volume == volume,
            old(self).volume == volume ==> *final(self) == *old(self),
            old(self).volume != volume ==> final(self).packed_size is None && final(self).segments is None,
            final(self).id == old(self).id,
            final(self).source_id == old(self).source_id,
            final(self).path == old(self).path,
            final(self).bytes == old(self).bytes,
            final(self).size == old(self).size,
            final(self).compression == old(self).compression,
    {
        if self.volume != volume {
            self.volume = volume;
            self.packed_size = None;
            self.segments = None;
        }
    }
}

/// What the pre-save check of an archive found.
#[derive(Clone, Copy, Debug, PartialEq, Eq, Structural)]
pub enum ArchiveCheck {
    /// Entry `usize` has the same path key as an earlier entry.
    DuplicatePath(usize),
    /// Entry `usize` lies in a volume the archive does not have.
    MissingVolume(usize),
    /// The archive has no entries.
    Empty,
    /// Paths, volumes and contents are consistent.
    Passed,
}

/// Whether key `j` repeats a key that comes before it.
pub open spec fn repeats_earlier(keys: Seq<Seq<u8>>, j: int) -> bool {
    exists|i: int| 0 <= i < j && keys[i] == keys[j]
}

/// Whether `a` and `b` hold the same bytes.
pub(crate) fn same_bytes(a: &Vec<u8>, b: &Vec<u8>) -> (r: bool)
    ensures
        r == (a@ == b@),
{
    if a.len() != b.len() {
        return false;
    }
    let mut i: usize = 0;
    while i < a.len()
        invariant
            a@.len() == b@.len(),
            i <= a@.len(),
            forall|k: int| 0 <= k < i ==> a@[k] == b@[k],
        decreases a@.len() - i,
    {
        if a[i] != b[i] {
            return false;
        }
        i = i + 1;
    }
    assert(a@ =~= b@);
    true
}

/// The pre-save check: the first entry whose path key repeats an earlier one,
/// then the first entry placed beyond the archive's volumes, then emptiness.
/// `path_keys[i]` is the normalized path key of entry `i`.
pub fn check_archive(entries: &Vec<DraftEntry>, path_keys: &Vec<Vec<u8>>, volume_count: usize) -> (r: ArchiveCheck)
    requires
        path_keys@.len() == entries@.len(),
    ensures
        ({
            let keys = path_keys.deep_view();
            match r {
                ArchiveCheck::DuplicatePath(j) => j < keys.len() && repeats_earlier(keys, j as int)
                    && forall|i: int| 0 <= i < j ==> !repeats_earlier(keys, i),
                ArchiveCheck::MissingVolume(j) => (forall|i: int| 0 <= i < keys.len() ==> !repeats_earlier(keys, i))
                    && j < entries@.len() && entries@[j as int].volume >= volume_count
                    && forall|i: int| 0 <= i < j ==> entries@[i].volume < volume_count,
                ArchiveCheck::Empty => entries@.len() == 0,
                ArchiveCheck::Passed => entries@.len() > 0
                    && (forall|i: int| 0 <= i < keys.len() ==> !repeats_earlier(keys, i))
                    && forall|i: int| 0 <= i < entries@.len() ==> entries@[i].volume < volume_count,
            }
        }),
{
    let ghost keys = path_keys.deep_view();
    assert forall|i: int| 0 <= i < keys.len() implies #[trigger] keys[i] == path_keys@[i]@ by {}
    let n = path_keys.len();
    let mut j: usize = 0;
    while j < n
        invariant
            n == path_keys@.len(),
            keys == path_keys.deep_view(),
            keys.len() == n,
            forall|i: int| 0 <= i < n ==> #[trigger] keys[i] == path_keys@[i]@,
            j <= n,
            forall|i: int| 0 <= i < j ==> !repeats_earlier(keys, i),
        decreases n - j,
    {
        let mut i: usize = 0;
        while i < j
            invariant
                n == path_keys@.len(),
                keys.len() == n,
                forall|i: int| 0 <= i < n ==> #[trigger] keys[i] == path_keys@[i]@,
                j < n,
                i <= j,
                forall|k: int| 0 <= k < i ==> keys[k] != keys[j as int],
                forall|k: int| 0 <= k < j ==> !repeats_earlier(keys, k),
                keys == path_keys.deep_view(),
            decreases j - i,
        {
            if same_bytes(&path_keys[i], &path_keys[j]) {
                assert(keys[i as int] == keys[j as int]);
                assert(repeats_earlier(keys, j as int));
                return ArchiveCheck::DuplicatePath(j);
            }
            i = i + 1;
        }
        j = j + 1;
    }
    let mut k: usize = 0;
    while k < entries.len()
        invariant
            k <= entries@.len(),
            forall|i: int| 0 <= i < k ==> entries@[i].volume < volume_count,
            forall|i: int| 0 <= i < keys.len() ==> !repeats_earlier(keys, i),
            keys == path_keys.deep_view(),
        decreases entries@.len() - k,
    {
        if entries[k].volume as usize >= volume_count {
            return ArchiveCheck::MissingVolume(k);
        }
        k = k + 1;
    }
    if entries.len() == 0 {
        ArchiveCheck::Empty
    } else {
        ArchiveCheck::Passed
    }
}

/// Why edited archive settings were rejected.
#[derive(Clone, Copy, Debug, PartialEq, Eq, Structural)]
pub enum SettingsError {
    InvalidAlignment,
    InvalidVolumeCount,
    VolumeCountOutOfRange,
    InvalidCompression,
}

/// The settings an archive is rebuilt with.
#[derive(Clone, Copy, Debug, PartialEq, Eq, Structural)]
pub struct ArchiveSettings {
    pub alignment: u32,
    pub volume_count: usize,
    pub default_compression: Compression,
    pub use_common_buffer: bool,
}

/// Reads the settings dialog: an alignment (`u32`), a volume count in
/// `1..=65535` and a compression code, checked in that order.
pub fn parse_archive_settings(alignment: &str, volumes: &str, compression: &str, common_buffer: bool) -> (r:
    Result<ArchiveSettings, SettingsError>)
    ensures
        ({
            let a = unsigned_text_value(alignment@);
            let v = unsigned_text_value(volumes@);
            if !(a is Some && a->0 <= u32::MAX) {
                r == Err::<ArchiveSettings, SettingsError>(SettingsError::InvalidAlignment)
            } else if !(v is Some && v->0 <= usize::MAX) {
                r == Err::<ArchiveSettings, SettingsError>(SettingsError::InvalidVolumeCount)
            } else if !(1 <= v->0 <= 65535) {
                r == Err::<ArchiveSettings, SettingsError>(SettingsError::VolumeCountOutOfRange)
            } else if forall|k: Compression| spec_compression_code(k) != compression@ {
                r == Err::<ArchiveSettings, SettingsError>(SettingsError::InvalidCompression)
            } else {
                r matches Ok(s) && s.alignment == a->0 && s.volume_count == v->0
                    && spec_compression_code(s.default_compression) == compression@
                    && s.use_common_buffer == common_buffer
            }
        }),
{
    let alignment = match parse_u32(alignment) {
        Some(a) => a,
        None => {
            return Err(SettingsError::InvalidAlignment);
        },
    };
    let volume_count = match parse_usize(volumes) {
        Some(v) => v,
        None => {
            return Err(SettingsError::InvalidVolumeCount);
        },
    };
    if !(1 <= volume_count && volume_count <= 65535) {
        return Err(SettingsError::VolumeCountOutOfRange);
    }
    let default_compression = match parse_compression(compression) {
        Some(c) => c,
        None => {
            return Err(SettingsError::InvalidCompression);
        },
    };
    Ok(ArchiveSettings { alignment, volume_count, default_compression, use_common_buffer: common_buffer })
}

/// The first entry that lies in a volume at or beyond `volume_count`.
pub fn first_entry_beyond(entries: &Vec<DraftEntry>, volume_count: usize) -> (r: Option<usize>)
    ensures
        r matches Some(j) ==> j < entries@.len() && entries@[j as int].volume >= volume_count && forall|i: int|
            0 <= i < j ==> entries@[i].volume < volume_count,
        r is None ==> forall|i: int| 0 <= i < entries@.len() ==> entries@[i].volume < volume_count,
{
    let mut k: usize = 0;
    while k < entries.len()
        invariant
            k <= entries@.len(),
            forall|i: int| 0 <= i < k ==> entries@[i].volume < volume_count,
        decreases entries@.len() - k,
    {
        if entries[k].volume as usize >= volume_count {
            return Some(k);
        }
        k = k + 1;
    }
    None
}

/// Applies new settings; returns whether anything changed.
pub fn apply_settings(current: &mut ArchiveSettings, next: ArchiveSettings) -> (changed: bool)
    ensures
        *final(current) == next,
        changed == (*old(current) != next),
{
    let changed = current.alignment != next.alignment || current.volume_count != next.volume_count
        || current.default_compression != next.default_compression || current.use_common_buffer
        != next.use_common_buffer;
    *current = next;
    changed
}

/// Whether `path`, trimmed of slashes, starts with `prefix`.
fn within_prefix(path: &str, prefix: &Vec<char>) -> (r: bool)
    ensures
        r == has_prefix(trim_set(path@, CharSet::Slash), prefix@),
{
    let p = chars_of(path);
    let t = crate::text::trimmed(&p, CharSet::Slash);
    crate::text::starts_with(&t, prefix)
}

/// Whether an entry at `path` lies inside the directory `d` (already
/// trimmed of slashes); every entry lies inside the root.
pub open spec fn in_directory(path: Seq<char>, d: Seq<char>) -> bool {
    d.len() == 0 || has_prefix(trim_set(path, CharSet::Slash), d + "/"@)
}

/// The entries of `entries` inside `directory` (all entries for the root),
/// by their positions, in order.
pub fn entries_in_directory(entries: &Vec<DraftEntry>, directory: &str) -> (r: Vec<usize>)
    ensures
        forall|k: int| 0 <= k < r@.len() ==> #[trigger] r@[k] < entries@.len(),
        forall|k: int, l: int| 0 <= k < l < r@.len() ==> r@[k] < r@[l],
        forall|k: int| 0 <= k < r@.len() ==> in_directory(
            entries@[#[trigger] r@[k] as int].path@,
            trim_set(directory@, CharSet::Slash),
        ),
        forall|i: int|
            0 <= i < entries@.len() && in_directory(#[trigger] entries@[i].path@, trim_set(directory@, CharSet::Slash))
                ==> r@.contains(i as usize),
{
    let dv = chars_of(directory);
    let (a, b) = crate::text::trim_bounds(&dv, CharSet::Slash);
    let mut prefix: Vec<char> = Vec::new();
    crate::text::push_range(&mut prefix, &dv, a, b);
    let root = prefix.len() == 0;
    prefix.push('/');
    let ghost d = trim_set(directory@, CharSet::Slash);
    proof {
        reveal_strlit("/");
        assert(prefix@ =~= d + "/"@);
    }
    let mut r: Vec<usize> = Vec::new();
    let mut i: usize = 0;
    while i < entries.len()
        invariant
            i <= entries@.len(),
            d == trim_set(directory@, CharSet::Slash),
            prefix@ == d + "/"@,
            root == (d.len() == 0),
            forall|k: int| 0 <= k < r@.len() ==> #[trigger] r@[k] < i,
            forall|k: int, l: int| 0 <= k < l < r@.len() ==> r@[k] < r@[l],
            forall|k: int| 0 <= k < r@.len() ==> in_directory(entries@[#[trigger] r@[k] as int].path@, d),
            forall|x: int| 0 <= x < i && in_directory(#[trigger] entries@[x].path@, d) ==> r@.contains(x as usize),
        decreases entries@.len() - i,
    {
        let inside = root || within_prefix(entries[i].path.as_str(), &prefix);
        let ghost before = r@;
        if inside {
            r.push(i);
            proof {
                assert(r@[before.len() as int] == i);
                assert forall|x: int| 0 <= x < i && in_directory(#[trigger] entries@[x].path@, d)
                    implies r@.contains(x as usize) by {
                    let w = choose|w: int| 0 <= w < before.len() && before[w] == x as usize;
                    assert(r@[w] == x as usize);
                }
            }
        }
        i = i + 1;
    }
    r
}


/// Where the bytes of an entry come from when an archive is built or files
/// are extracted.
#[derive(Clone, Copy, Debug, PartialEq, Eq, Structural)]
pub enum EntrySource {
    /// The entry holds its own bytes.
    Inline,
    /// The entry is read from the opened archive `session` by its index there.
    Session(u64, usize),
}

/// Why an entry's bytes cannot be found.
#[derive(Clone, Copy, Debug, PartialEq, Eq, Structural)]
pub enum EntrySourceError {
    /// The entry holds no bytes and there is no source archive.
    NoSourceArchive,
    /// The entry holds no bytes and does not come from the source archive.
    NoSourceEntry,
}

/// Where the bytes of `entry` come from: its own bytes, else the entry it was
/// drafted from in the archive opened as `source_session`.
pub fn entry_source(entry: &DraftEntry, source_session: Option<u64>) -> (r: Result<EntrySource, EntrySourceError>)
    ensures
        entry.bytes is Some ==> r == Ok::<EntrySource, EntrySourceError>(EntrySource::Inline),
        entry.bytes is None && source_session is None ==> r == Err::<EntrySource, EntrySourceError>(
            EntrySourceError::NoSourceArchive,
        ),
        entry.bytes is None && source_session is Some && entry.source_id is None ==> r == Err::<
            EntrySource,
            EntrySourceError,
        >(EntrySourceError::NoSourceEntry),
        entry.bytes is None && source_session is Some && entry.source_id is Some ==> r == Ok::<
            EntrySource,
            EntrySourceError,
        >(EntrySource::Session(source_session->0, entry.source_id->0)),
{
    if entry.bytes.is_some() {
        return Ok(EntrySource::Inline);
    }
    match source_session {
        None => Err(EntrySourceError::NoSourceArchive),
        Some(session) => match entry.source_id {
            None => Err(EntrySourceError::NoSourceEntry),
            Some(id) => Ok(EntrySource::Session(session, id)),
        },
    }
}

/// Which entries lie inside a folder other than the root: those whose path,
/// trimmed of slashes, starts with the folder's path and then a slash. An
/// entry whose first component merely begins with the folder's name (a
/// `database/b.bin` for the folder `data`) is not inside it.
pub proof fn lemma_in_directory_meaning(path: Seq<char>, d: Seq<char>)
    requires
        d.len() > 0,
    ensures
        in_directory(path, d) <==> ({
            let t = trim_set(path, CharSet::Slash);
            &&& t.len() > d.len()
            &&& t.subrange(0, d.len() as int) == d
            &&& t[d.len() as int] == '/'
        }),
{
    reveal_strlit("/");
    let t = trim_set(path, CharSet::Slash);
    let p = d + "/"@;
    if in_directory(path, d) {
        assert(t.subrange(0, p.len() as int) == p);
        assert(t.subrange(0, d.len() as int) =~= p.subrange(0, d.len() as int));
        assert(p.subrange(0, d.len() as int) =~= d);
        assert(t[d.len() as int] == t.subrange(0, p.len() as int)[d.len() as int]);
    }
    if t.len() > d.len() && t.subrange(0, d.len() as int) == d && t[d.len() as int] == '/' {
        assert(t.subrange(0, p.len() as int) =~= p) by {
            assert forall|k: int| 0 <= k < p.len() implies t.subrange(0, p.len() as int)[k] == p[k] by {
                if k < d.len() {
                    assert(t.subrange(0, d.len() as int)[k] == d[k]);
                }
            }
        }
    }
}

/// What `entries_in_directory` picks for a folder other than the root: of
/// the entries, exactly those whose path, trimmed of slashes, starts with the
/// folder's path (trimmed too) and then a slash.
pub proof fn lemma_folder_entries_meaning(entries: Seq<DraftEntry>, directory: Seq<char>, r: Seq<usize>)
    requires
        trim_set(directory, CharSet::Slash).len() > 0,
        entries.len() <= usize::MAX,
        forall|k: int| 0 <= k < r.len() ==> #[trigger] r[k] < entries.len(),
        forall|k: int| 0 <= k < r.len() ==> in_directory(
            entries[#[trigger] r[k] as int].path@,
            trim_set(directory, CharSet::Slash),
        ),
        forall|i: int|
            0 <= i < entries.len() && in_directory(#[trigger] entries[i].path@, trim_set(directory, CharSet::Slash))
                ==> r.contains(i as usize),
    ensures
        forall|i: int|
            0 <= i < entries.len() ==> (r.contains(i as usize) <==> ({
                let d = trim_set(directory, CharSet::Slash);
                let t = trim_set(#[trigger] entries[i].path@, CharSet::Slash);
                &&& t.len() > d.len()
                &&& t.subrange(0, d.len() as int) == d
                &&& t[d.len() as int] == '/'
            })),
{
    let d = trim_set(directory, CharSet::Slash);
    assert forall|i: int| 0 <= i < entries.len() implies (r.contains(i as usize) <==> ({
        let t = trim_set(#[trigger] entries[i].path@, CharSet::Slash);
        &&& t.len() > d.len()
        &&& t.subrange(0, d.len() as int) == d
        &&& t[d.len() as int] == '/'
    })) by {
        lemma_in_directory_meaning(entries[i].path@, d);
        if r.contains(i as usize) {
            let k = choose|k: int| 0 <= k < r.len() && r[k] == i as usize;
            assert(r[k] as int == i);
            assert(in_directory(entries[r[k] as int].path@, d));
        } else {
            assert(!in_directory(entries[i].path@, d));
        }
    }
}

} // verus!
