//! The BNK browser lists: the embedded media found through each media index
//! chunk, the byte range of one medium, the search and paging of a section's
//! rows, and how rows are labelled.
use vstd::prelude::*;

use crate::bnk::labels::{
    hex_byte, hierarchy_kind_label, push_hex_byte, spec_hierarchy_kind_label, BankSelection, BrowserSection, HierarchyKind,
};
use crate::text::{
    chars_of, decimal, has_infix, parse_u32, push_decimal, push_str, string_of_all, trim, trimmed, CharSet,
};

verus! {

/// What `str::to_lowercase` gives for a text: its Unicode lower-case form.
pub uninterp spec fn unicode_lowercase(s: Seq<char>) -> Seq<char>;

/// `str::to_lowercase`: the Unicode lower-case form of `s`, as the standard
/// library computes it. Nothing is claimed of it beyond being that function
/// of `s`.
#[verifier::external_body]
fn lowercase(s: &str) -> (r: String)
    ensures
        r@ == unicode_lowercase(s@),
{
    s.to_lowercase()
}

/// One entry of a media index chunk.
#[derive(Clone, Copy, Debug, PartialEq, Eq, Structural)]
pub struct MediaIndexEntry {
    pub id: u32,
    pub offset: u32,
    pub size: u32,
}

/// What the hierarchy listing reads of one hierarchy (HIRC) object; `detail`
/// is the description of its body as the workspace writes it.
pub struct HierarchyObjectInfo {
    pub kind: HierarchyKind,
    pub type_code: u8,
    pub id: u32,
    pub detail: String,
}

/// What the browser listings read of a chunk.
pub enum ChunkInfo {
    /// A media index (DIDX) with its entries.
    MediaIndex(Vec<MediaIndexEntry>),
    /// Media data (DATA) of the given length.
    MediaData(usize),
    /// A hierarchy (HIRC) with its objects.
    Hierarchy(Vec<HierarchyObjectInfo>),
    /// Any other chunk.
    Other,
}

/// One embedded medium as the browser lists it.
pub struct MediaSummary {
    pub index_chunk: usize,
    pub entry_index: usize,
    pub id: u32,
    pub offset: u32,
    pub size: u32,
    /// The data chunk right after the index chunk, if there is one.
    pub data_chunk: Option<usize>,
    /// The text a search is matched against.
    pub search: String,
}

/// The lower-case hexadecimal digit of `d`.
pub open spec fn lower_hex_digit(d: nat) -> char {
    if d < 10 {
        crate::text::digit_char(d)
    } else {
        ((d - 10) + 97) as char
    }
}

/// `n` in lower-case hexadecimal, padded to `width` digits.
pub open spec fn lower_hex(n: nat, width: nat) -> Seq<char>
    decreases width,
{
    if width == 0 {
        Seq::empty()
    } else {
        lower_hex(n / 16, (width - 1) as nat).push(lower_hex_digit(n % 16))
    }
}

/// Appends `n` in lower-case hexadecimal, padded to `width` digits.
fn push_lower_hex(out: &mut Vec<char>, n: u32, width: usize)
    ensures
        final(out)@ == old(out)@ + lower_hex(n as nat, width as nat),
    decreases width,
{
    if width > 0 {
        let ghost before = out@;
        push_lower_hex(out, n / 16, width - 1);
        let d = (n % 16) as u8;
        if d < 10 {
            out.push(crate::text::digit(d as u64));
        } else {
            out.push((d - 10 + 97) as char);
        }
        assert(out@ =~= before + lower_hex(n as nat, width as nat));
    } else {
        assert(out@ =~= old(out)@ + lower_hex(n as nat, width as nat));
    }
}

/// The search text of a medium: its identifier in decimal, `wem`, and the
/// identifier in eight hexadecimal digits.
pub open spec fn media_search(id: u32) -> Seq<char> {
    decimal(id as nat) + " wem "@ + lower_hex(id as nat, 8)
}

/// A `MediaSummary` as plain values.
pub struct MediaView {
    pub index_chunk: usize,
    pub entry_index: usize,
    pub id: u32,
    pub offset: u32,
    pub size: u32,
    pub data_chunk: Option<usize>,
    pub search: Seq<char>,
}

impl View for MediaSummary {
    type V = MediaView;

    open spec fn view(&self) -> MediaView {
        MediaView {
            index_chunk: self.index_chunk,
            entry_index: self.entry_index,
            id: self.id,
            offset: self.offset,
            size: self.size,
            data_chunk: self.data_chunk,
            search: self.search@,
        }
    }
}

/// The data chunk that serves the index chunk `i`: the next chunk, when it
/// holds media data.
pub open spec fn data_chunk_for(chunks: Seq<ChunkInfo>, i: int) -> Option<usize> {
    if i + 1 < chunks.len() && chunks[i + 1] is MediaData {
        Some((i + 1) as usize)
    } else {
        None
    }
}

/// The media listed for chunk `i`.
pub open spec fn media_of_chunk(chunks: Seq<ChunkInfo>, i: int) -> Seq<MediaView> {
    match chunks[i] {
        ChunkInfo::MediaIndex(entries) => Seq::new(
            entries@.len(),
            |j: int|
                MediaView {
                    index_chunk: i as usize,
                    entry_index: j as usize,
                    id: entries@[j].id,
                    offset: entries@[j].offset,
                    size: entries@[j].size,
                    data_chunk: data_chunk_for(chunks, i),
                    search: media_search(entries@[j].id),
                },
        ),
        _ => Seq::empty(),
    }
}

/// The media listed for the first `n` chunks, chunk by chunk.
pub open spec fn media_upto(chunks: Seq<ChunkInfo>, n: int) -> Seq<MediaView>
    decreases n,
{
    if n <= 0 {
        Seq::empty()
    } else {
        media_upto(chunks, n - 1) + media_of_chunk(chunks, n - 1)
    }
}

/// Every embedded medium, in chunk and entry order.
pub fn summarize_media(chunks: &Vec<ChunkInfo>) -> (r: Vec<MediaSummary>)
    ensures
        r@.len() == media_upto(chunks@, chunks@.len() as int).len(),
        forall|k: int| 0 <= k < r@.len() ==> #[trigger] r@[k]@ == media_upto(chunks@, chunks@.len() as int)[k],
{
    let mut r: Vec<MediaSummary> = Vec::new();
    let mut i: usize = 0;
    while i < chunks.len()
        invariant
            i <= chunks@.len(),
            r@.len() == media_upto(chunks@, i as int).len(),
            forall|k: int| 0 <= k < r@.len() ==> #[trigger] r@[k]@ == media_upto(chunks@, i as int)[k],
        decreases chunks@.len() - i,
    {
        let ghost before = r@;
        let ghost prefix = media_upto(chunks@, i as int);
        match &chunks[i] {
            ChunkInfo::MediaIndex(entries) => {
                let data_chunk = if i + 1 < chunks.len() {
                    match &chunks[i + 1] {
                        ChunkInfo::MediaData(_) => Some(i + 1),
                        _ => None,
                    }
                } else {
                    None
                };
                assert(data_chunk == data_chunk_for(chunks@, i as int));
                let mut j: usize = 0;
                while j < entries.len()
                    invariant
                        i < chunks@.len(),
                        chunks@[i as int] == ChunkInfo::MediaIndex(*entries),
                        data_chunk == data_chunk_for(chunks@, i as int),
                        j <= entries@.len(),
                        r@.len() == prefix.len() + j,
                        forall|k: int| 0 <= k < prefix.len() ==> #[trigger] r@[k]@ == prefix[k],
                        forall|k: int| 0 <= k < j ==> #[trigger] r@[prefix.len() + k]@ == media_of_chunk(chunks@, i as int)[k],
                    decreases entries@.len() - j,
                {
                    let e = entries[j];
                    let mut search: Vec<char> = Vec::new();
                    push_decimal(&mut search, e.id as u64);
                    push_str(&mut search, " wem ");
                    push_lower_hex(&mut search, e.id, 8);
                    assert(search@ =~= media_search(e.id));
                    r.push(
                        MediaSummary {
                            index_chunk: i,
                            entry_index: j,
                            id: e.id,
                            offset: e.offset,
                            size: e.size,
                            data_chunk,
                            search: string_of_all(&search),
                        },
                    );
                    j = j + 1;
                }
            },
            _ => {},
        }
        proof {
            let next = media_upto(chunks@, i + 1);
            assert(next == prefix + media_of_chunk(chunks@, i as int));
            assert forall|k: int| 0 <= k < r@.len() implies #[trigger] r@[k]@ == next[k] by {
                if k >= prefix.len() {
                    assert(r@[prefix.len() + (k - prefix.len())]@ == media_of_chunk(chunks@, i as int)[k - prefix.len()]);
                }
            }
        }
        i = i + 1;
    }
    r
}

/// One chunk as the browser lists it: its position, its label and detail
/// as the workspace writes them, and the text a search is matched against.
pub struct ChunkSummary {
    pub index: usize,
    pub title: String,
    pub detail: String,
    pub search: String,
}

/// The label and detail the workspace writes for one chunk.
pub struct ChunkText {
    pub title: String,
    pub detail: String,
}

/// Every chunk, in order, with its search text (see `chunk_search`).
pub fn summarize_chunks(chunks: &Vec<ChunkText>) -> (r: Vec<ChunkSummary>)
    ensures
        r@.len() == chunks@.len(),
        forall|k: int| #![trigger r@[k]] 0 <= k < r@.len() ==> {
            &&& r@[k].index == k
            &&& r@[k].title@ == chunks@[k].title@
            &&& r@[k].detail@ == chunks@[k].detail@
            &&& r@[k].search@ == unicode_lowercase(chunks@[k].title@) + " "@ + unicode_lowercase(chunks@[k].detail@)
        },
{
    let mut r: Vec<ChunkSummary> = Vec::new();
    let mut i: usize = 0;
    while i < chunks.len()
        invariant
            i <= chunks@.len(),
            r@.len() == i,
            forall|k: int| #![trigger r@[k]] 0 <= k < i ==> {
                &&& r@[k].index == k
                &&& r@[k].title@ == chunks@[k].title@
                &&& r@[k].detail@ == chunks@[k].detail@
                &&& r@[k].search@ == unicode_lowercase(chunks@[k].title@) + " "@ + unicode_lowercase(chunks@[k].detail@)
            },
        decreases chunks@.len() - i,
    {
        let c = &chunks[i];
        let search = chunk_search(c.title.as_str(), c.detail.as_str());
        r.push(ChunkSummary { index: i, title: c.title.clone(), detail: c.detail.clone(), search });
        i = i + 1;
    }
    r
}

/// One hierarchy object as the browser lists it.
pub struct HierarchySummary {
    pub chunk_index: usize,
    pub object_index: usize,
    pub type_code: u8,
    pub kind: HierarchyKind,
    pub title: String,
    pub detail: String,
    /// The text a search is matched against.
    pub search: String,
}

/// A `HierarchySummary` as plain values.
pub struct HierarchyView {
    pub chunk_index: usize,
    pub object_index: usize,
    pub type_code: u8,
    pub kind: HierarchyKind,
    pub title: Seq<char>,
    pub detail: Seq<char>,
    pub search: Seq<char>,
}

impl View for HierarchySummary {
    type V = HierarchyView;

    open spec fn view(&self) -> HierarchyView {
        HierarchyView {
            chunk_index: self.chunk_index,
            object_index: self.object_index,
            type_code: self.type_code,
            kind: self.kind,
            title: self.title@,
            detail: self.detail@,
            search: self.search@,
        }
    }
}

/// How object `j` of hierarchy chunk `i` is listed: titled by its kind and
/// identifier, searched by its kind, identifier, type code and detail.
pub open spec fn hierarchy_entry(i: int, j: int, o: HierarchyObjectInfo) -> HierarchyView {
    let kind = spec_hierarchy_kind_label(o.kind);
    HierarchyView {
        chunk_index: i as usize,
        object_index: j as usize,
        type_code: o.type_code,
        kind: o.kind,
        title: kind + " #"@ + decimal(o.id as nat),
        detail: o.detail@,
        search: unicode_lowercase(kind) + " "@ + decimal(o.id as nat) + " "@ + lower_hex(o.type_code as nat, 2) + " "@
            + unicode_lowercase(o.detail@),
    }
}

/// The objects listed for chunk `i`.
pub open spec fn hierarchy_of_chunk(chunks: Seq<ChunkInfo>, i: int) -> Seq<HierarchyView> {
    match chunks[i] {
        ChunkInfo::Hierarchy(objects) => Seq::new(objects@.len(), |j: int| hierarchy_entry(i, j, objects@[j])),
        _ => Seq::empty(),
    }
}

/// The objects listed for the first `n` chunks, chunk by chunk.
pub open spec fn hierarchy_upto(chunks: Seq<ChunkInfo>, n: int) -> Seq<HierarchyView>
    decreases n,
{
    if n <= 0 {
        Seq::empty()
    } else {
        hierarchy_upto(chunks, n - 1) + hierarchy_of_chunk(chunks, n - 1)
    }
}

/// Every hierarchy object, in chunk and object order.
pub fn summarize_hierarchy(chunks: &Vec<ChunkInfo>) -> (r: Vec<HierarchySummary>)
    ensures
        r@.len() == hierarchy_upto(chunks@, chunks@.len() as int).len(),
        forall|k: int| 0 <= k < r@.len() ==> #[trigger] r@[k]@ == hierarchy_upto(chunks@, chunks@.len() as int)[k],
{
    let mut r: Vec<HierarchySummary> = Vec::new();
    let mut i: usize = 0;
    while i < chunks.len()
        invariant
            i <= chunks@.len(),
            r@.len() == hierarchy_upto(chunks@, i as int).len(),
            forall|k: int| 0 <= k < r@.len() ==> #[trigger] r@[k]@ == hierarchy_upto(chunks@, i as int)[k],
        decreases chunks@.len() - i,
    {
        let ghost prefix = hierarchy_upto(chunks@, i as int);
        match &chunks[i] {
            ChunkInfo::Hierarchy(objects) => {
                let mut j: usize = 0;
                while j < objects.len()
                    invariant
                        i < chunks@.len(),
                        chunks@[i as int] == ChunkInfo::Hierarchy(*objects),
                        j <= objects@.len(),
                        r@.len() == prefix.len() + j,
                        forall|k: int| 0 <= k < prefix.len() ==> #[trigger] r@[k]@ == prefix[k],
                        forall|k: int| 0 <= k < j ==> #[trigger] r@[prefix.len() + k]@ == hierarchy_of_chunk(chunks@, i as int)[k],
                    decreases objects@.len() - j,
                {
                    let o = &objects[j];
                    let kind = hierarchy_kind_label(o.kind);
                    let summary = HierarchySummary {
                        chunk_index: i,
                        object_index: j,
                        type_code: o.type_code,
                        kind: o.kind,
                        title: hierarchy_title(kind, o.id),
                        detail: o.detail.clone(),
                        search: hierarchy_search(kind, o.id, o.type_code, o.detail.as_str()),
                    };
                    assert(summary@ == hierarchy_of_chunk(chunks@, i as int)[j as int]);
                    r.push(summary);
                    j = j + 1;
                }
            },
            _ => {},
        }
        proof {
            let next = hierarchy_upto(chunks@, i + 1);
            assert(next == prefix + hierarchy_of_chunk(chunks@, i as int));
            assert forall|k: int| 0 <= k < r@.len() implies #[trigger] r@[k]@ == next[k] by {
                if k >= prefix.len() {
                    assert(r@[prefix.len() + (k - prefix.len())]@ == hierarchy_of_chunk(chunks@, i as int)[k - prefix.len()]);
                }
            }
        }
        i = i + 1;
    }
    r
}

/// Where a medium's bytes are.
#[derive(Clone, Copy, Debug, PartialEq, Eq, Structural)]
pub enum MediaSpan {
    /// The placeholder entry for a medium without data.
    Empty,
    /// `begin..end` of the data chunk `data_chunk`.
    Range { data_chunk: usize, begin: usize, end: usize },
}

/// Why a medium's bytes cannot be found.
#[derive(Clone, Copy, Debug, PartialEq, Eq, Structural)]
pub enum MediaError {
    IndexChunkMissing,
    NotIndexChunk,
    EntryMissing,
    NoDataChunk,
    DataChunkMissing,
    NotDataChunk,
    RangeOverflow,
    RangeOutside,
}

/// Where the bytes of `media` are, checked against the chunks as they are now.
pub fn media_span(chunks: &Vec<ChunkInfo>, media: &MediaSummary) -> (r: Result<MediaSpan, MediaError>)
    ensures
        media.index_chunk >= chunks@.len() ==> r == Err::<MediaSpan, MediaError>(MediaError::IndexChunkMissing),
        media.index_chunk < chunks@.len() ==> match chunks@[media.index_chunk as int] {
            ChunkInfo::MediaIndex(entries) => if media.entry_index >= entries@.len() {
                r == Err::<MediaSpan, MediaError>(MediaError::EntryMissing)
            } else {
                let e = entries@[media.entry_index as int];
                if e.id == 0 && e.offset == 1 && e.size == 0 {
                    r == Ok::<MediaSpan, MediaError>(MediaSpan::Empty)
                } else {
                    match media.data_chunk {
                        None => r == Err::<MediaSpan, MediaError>(MediaError::NoDataChunk),
                        Some(d) => if d >= chunks@.len() {
                            r == Err::<MediaSpan, MediaError>(MediaError::DataChunkMissing)
                        } else {
                            match chunks@[d as int] {
                                ChunkInfo::MediaData(len) => if e.offset + e.size > usize::MAX {
                                    r == Err::<MediaSpan, MediaError>(MediaError::RangeOverflow)
                                } else if e.offset + e.size > len {
                                    r == Err::<MediaSpan, MediaError>(MediaError::RangeOutside)
                                } else {
                                    r == Ok::<MediaSpan, MediaError>(
                                        MediaSpan::Range {
                                            data_chunk: d,
                                            begin: e.offset as usize,
                                            end: (e.offset + e.size) as usize,
                                        },
                                    )
                                },
                                _ => r == Err::<MediaSpan, MediaError>(MediaError::NotDataChunk),
                            }
                        },
                    }
                }
            },
            _ => r == Err::<MediaSpan, MediaError>(MediaError::NotIndexChunk),
        },
{
    if media.index_chunk >= chunks.len() {
        return Err(MediaError::IndexChunkMissing);
    }
    let entries = match &chunks[media.index_chunk] {
        ChunkInfo::MediaIndex(entries) => entries,
        _ => {
            return Err(MediaError::NotIndexChunk);
        },
    };
    if media.entry_index >= entries.len() {
        return Err(MediaError::EntryMissing);
    }
    let e = entries[media.entry_index];
    if e.id == 0 && e.offset == 1 && e.size == 0 {
        return Ok(MediaSpan::Empty);
    }
    let data_chunk = match media.data_chunk {
        Some(d) => d,
        None => {
            return Err(MediaError::NoDataChunk);
        },
    };
    if data_chunk >= chunks.len() {
        return Err(MediaError::DataChunkMissing);
    }
    let len = match &chunks[data_chunk] {
        ChunkInfo::MediaData(len) => *len,
        _ => {
            return Err(MediaError::NotDataChunk);
        },
    };
    let begin = e.offset as usize;
    let end = match begin.checked_add(e.size as usize) {
        Some(end) => end,
        None => {
            return Err(MediaError::RangeOverflow);
        },
    };
    if end > len {
        return Err(MediaError::RangeOutside);
    }
    Ok(MediaSpan::Range { data_chunk, begin, end })
}

/// How many rows a browser page holds.
pub const ROW_PAGE_SIZE: usize = 160;

/// The positions of the search texts that hold `q` (all of them when `q`
/// is empty), in order.
pub open spec fn matching_positions(searches: Seq<Seq<char>>, q: Seq<char>) -> Seq<usize>
    decreases searches.len(),
{
    if searches.len() == 0 {
        Seq::empty()
    } else {
        let prev = matching_positions(searches.drop_last(), q);
        if q.len() == 0 || has_infix(searches.last(), q) {
            prev.push((searches.len() - 1) as usize)
        } else {
            prev
        }
    }
}

/// The rows of page `page`: ranks `page * 160 .. page * 160 + 160` of the
/// matches, both ends saturating.
pub open spec fn page_bounds(page: usize) -> (int, int) {
    let start = if page * ROW_PAGE_SIZE > usize::MAX {
        usize::MAX as int
    } else {
        page * ROW_PAGE_SIZE
    };
    let end = if start + ROW_PAGE_SIZE > usize::MAX {
        usize::MAX as int
    } else {
        start + ROW_PAGE_SIZE
    };
    (start, end)
}

/// The matches of the lower-case query `q` shown on page `page`, by
/// position, and how many matches there are in all.
pub fn visible_window(searches: &Vec<String>, q: &str, page: usize) -> (r: (Vec<usize>, usize))
    ensures
        ({
            let m = matching_positions(crate::text::views(searches@), q@);
            let (start, end) = page_bounds(page);
            &&& r.1 == m.len()
            &&& r.0@ == m.subrange(
                if start < m.len() {
                    start
                } else {
                    m.len() as int
                },
                if end < m.len() {
                    end
                } else {
                    m.len() as int
                },
            )
        }),
{
    let ghost all = crate::text::views(searches@);
    let qv = chars_of(q);
    let start = if page > usize::MAX / ROW_PAGE_SIZE {
        usize::MAX
    } else {
        page * ROW_PAGE_SIZE
    };
    let end = start.saturating_add(ROW_PAGE_SIZE);
    assert(start == page_bounds(page).0 && end == page_bounds(page).1);
    let mut shown: Vec<usize> = Vec::new();
    let mut total: usize = 0;
    let mut i: usize = 0;
    while i < searches.len()
        invariant
            i <= searches@.len(),
            all == crate::text::views(searches@),
            qv@ == q@,
            start <= end,
            total == matching_positions(all.take(i as int), q@).len(),
            total <= i,
            shown@ == matching_positions(all.take(i as int), q@).subrange(
                if start < total {
                    start as int
                } else {
                    total as int
                },
                if end < total {
                    end as int
                } else {
                    total as int
                },
            ),
        decreases searches@.len() - i,
    {
        let ghost m0 = matching_positions(all.take(i as int), q@);
        assert(all.take(i + 1).drop_last() =~= all.take(i as int));
        assert(all.take(i + 1).last() == searches@[i as int]@);
        let text = chars_of(searches[i].as_str());
        let matched = qv.len() == 0 || crate::text::contains_infix(&text, &qv);
        if matched {
            if start <= total && total < end {
                shown.push(i);
            }
            proof {
                let m1 = m0.push(i as usize);
                assert(matching_positions(all.take(i + 1), q@) == m1);
                let lo1 = if start < total + 1 { start as int } else { total + 1 };
                let hi1 = if end < total + 1 { end as int } else { total + 1 };
                let lo0 = if start < total { start as int } else { total as int };
                let hi0 = if end < total { end as int } else { total as int };
                if start <= total && total < end {
                    assert(m1.subrange(lo1, hi1) =~= m0.subrange(lo0, hi0).push(i as usize));
                } else {
                    assert(m1.subrange(lo1, hi1) =~= m0.subrange(lo0, hi0));
                }
            }
            total = total + 1;
        }
        i = i + 1;
    }
    assert(all.take(searches@.len() as int) =~= all);
    (shown, total)
}

/// The matches of `query` (trimmed and lower-cased) on page `page`, and how
/// many matches there are.
pub fn visible_indices(searches: &Vec<String>, query: &str, page: usize) -> (r: (Vec<usize>, usize))
    ensures
        ({
            let m = matching_positions(crate::text::views(searches@), unicode_lowercase(trim(query@)));
            let (start, end) = page_bounds(page);
            &&& r.1 == m.len()
            &&& r.0@ == m.subrange(
                if start < m.len() {
                    start
                } else {
                    m.len() as int
                },
                if end < m.len() {
                    end
                } else {
                    m.len() as int
                },
            )
        }),
{
    let raw = chars_of(query);
    let t = string_of_all(&trimmed(&raw, CharSet::Whitespace));
    let q = lowercase(t.as_str());
    visible_window(searches, q.as_str(), page)
}

/// The number of pages for `total` rows (at least one), and `page` moved
/// onto the last page when it lies beyond.
pub fn page_clamp(total: usize, page: usize) -> (r: (usize, usize))
    ensures
        r.1 == if total == 0 {
            1
        } else {
            (total + ROW_PAGE_SIZE - 1) / ROW_PAGE_SIZE as int
        },
        r.0 == if page < r.1 {
            page as int
        } else {
            r.1 - 1
        },
{
    let count = if total == 0 {
        1
    } else {
        total / ROW_PAGE_SIZE + if total % ROW_PAGE_SIZE == 0 {
            0
        } else {
            1
        }
    };
    assert(total > 0 ==> count == (total + ROW_PAGE_SIZE - 1) / ROW_PAGE_SIZE as int) by (nonlinear_arith)
        requires
            total > 0 ==> count == total / 160 + if total % 160 == 0 {
                0int
            } else {
                1int
            },
    ;
    let page = if page < count {
        page
    } else {
        count - 1
    };
    (page, count)
}

/// What a browser row shows.
pub struct RowModel {
    pub key: String,
    pub selection: BankSelection,
    pub glyph: &'static str,
    pub title: String,
    pub detail: String,
    pub meta: String,
}

/// The row of chunk `index`.
pub fn chunk_row(index: usize, title: String, detail: String) -> (r: RowModel)
    requires
        index < usize::MAX,
    ensures
        r.key@ == "chunk-"@ + decimal(index as nat),
        r.selection == BankSelection::Chunk(index),
        r.glyph@ == "chunks"@,
        r.title@ == title@,
        r.detail@ == detail@,
        r.meta@ == "#"@ + decimal((index + 1) as nat),
{
    let mut key: Vec<char> = Vec::new();
    push_str(&mut key, "chunk-");
    push_decimal(&mut key, index as u64);
    let mut meta: Vec<char> = Vec::new();
    push_str(&mut meta, "#");
    push_decimal(&mut meta, (index + 1) as u64);
    RowModel {
        key: string_of_all(&key),
        selection: BankSelection::Chunk(index),
        glyph: "chunks",
        title,
        detail,
        meta: string_of_all(&meta),
    }
}

/// The row of object `object_index` of hierarchy chunk `chunk_index`.
pub fn hierarchy_row(chunk_index: usize, object_index: usize, type_code: u8, title: String, detail: String) -> (r: RowModel)
    ensures
        r.key@ == "hirc-"@ + decimal(chunk_index as nat) + "-"@ + decimal(object_index as nat),
        r.selection == (BankSelection::Hierarchy { chunk_index, object_index }),
        r.glyph@ == "hierarchy"@,
        r.title@ == title@,
        r.detail@ == detail@,
        r.meta@ == "0x"@ + hex_byte(type_code),
{
    let mut key: Vec<char> = Vec::new();
    push_str(&mut key, "hirc-");
    push_decimal(&mut key, chunk_index as u64);
    push_str(&mut key, "-");
    push_decimal(&mut key, object_index as u64);
    let mut meta: Vec<char> = Vec::new();
    push_str(&mut meta, "0x");
    push_hex_byte(&mut meta, type_code);
    RowModel {
        key: string_of_all(&key),
        selection: BankSelection::Hierarchy { chunk_index, object_index },
        glyph: "hierarchy",
        title,
        detail,
        meta: string_of_all(&meta),
    }
}

/// The row of a medium; `size_text` is its size as the workspace writes it.
pub fn media_row(media: &MediaSummary, size_text: String) -> (r: RowModel)
    ensures
        r.key@ == "media-"@ + decimal(media.index_chunk as nat) + "-"@ + decimal(media.entry_index as nat),
        r.selection == (BankSelection::Media { index_chunk: media.index_chunk, entry_index: media.entry_index }),
        r.glyph@ == "audio"@,
        r.title@ == decimal(media.id as nat) + ".wem"@,
        r.detail@ == "DATA + "@ + decimal(media.offset as nat),
        r.meta@ == size_text@,
{
    let mut key: Vec<char> = Vec::new();
    push_str(&mut key, "media-");
    push_decimal(&mut key, media.index_chunk as u64);
    push_str(&mut key, "-");
    push_decimal(&mut key, media.entry_index as u64);
    let mut title: Vec<char> = Vec::new();
    push_decimal(&mut title, media.id as u64);
    push_str(&mut title, ".wem");
    let mut detail: Vec<char> = Vec::new();
    push_str(&mut detail, "DATA + ");
    push_decimal(&mut detail, media.offset as u64);
    RowModel {
        key: string_of_all(&key),
        selection: BankSelection::Media { index_chunk: media.index_chunk, entry_index: media.entry_index },
        glyph: "audio",
        title: string_of_all(&title),
        detail: string_of_all(&detail),
        meta: size_text,
    }
}

/// The search text of a chunk: its title and detail, lower-cased.
pub fn chunk_search(title: &str, detail: &str) -> (s: String)
    ensures
        s@ == unicode_lowercase(title@) + " "@ + unicode_lowercase(detail@),
{
    let t = lowercase(title);
    let d = lowercase(detail);
    let mut v = chars_of(t.as_str());
    push_str(&mut v, " ");
    push_str(&mut v, d.as_str());
    string_of_all(&v)
}

/// The title of a hierarchy object: its kind and identifier.
pub fn hierarchy_title(kind: &str, id: u32) -> (s: String)
    ensures
        s@ == kind@ + " #"@ + decimal(id as nat),
{
    let mut v = chars_of(kind);
    push_str(&mut v, " #");
    push_decimal(&mut v, id as u64);
    string_of_all(&v)
}

/// The search text of a hierarchy object: its kind, identifier, type code
/// in two hexadecimal digits and detail, the texts lower-cased.
pub fn hierarchy_search(kind: &str, id: u32, type_code: u8, detail: &str) -> (s: String)
    ensures
        s@ == unicode_lowercase(kind@) + " "@ + decimal(id as nat) + " "@ + lower_hex(type_code as nat, 2) + " "@
            + unicode_lowercase(detail@),
{
    let k = lowercase(kind);
    let d = lowercase(detail);
    let mut v = chars_of(k.as_str());
    push_str(&mut v, " ");
    push_decimal(&mut v, id as u64);
    push_str(&mut v, " ");
    push_lower_hex(&mut v, type_code as u32, 2);
    push_str(&mut v, " ");
    push_str(&mut v, d.as_str());
    string_of_all(&v)
}

/// The selection after switching to `section`: the overview, or the first
/// item of the section when it has one.
pub fn section_selection(
    section: BrowserSection,
    first_chunk: Option<usize>,
    first_object: Option<(usize, usize)>,
    first_media: Option<(usize, usize)>,
) -> (s: BankSelection)
    ensures
        section == BrowserSection::Overview ==> s == BankSelection::Overview,
        section == BrowserSection::Chunks ==> s == match first_chunk {
            Some(i) => BankSelection::Chunk(i),
            None => BankSelection::Overview,
        },
        section == BrowserSection::Hierarchy ==> s == match first_object {
            Some((c, o)) => BankSelection::Hierarchy { chunk_index: c, object_index: o },
            None => BankSelection::Overview,
        },
        section == BrowserSection::Media ==> s == match first_media {
            Some((c, e)) => BankSelection::Media { index_chunk: c, entry_index: e },
            None => BankSelection::Overview,
        },
{
    match section {
        BrowserSection::Overview => BankSelection::Overview,
        BrowserSection::Chunks => match first_chunk {
            Some(i) => BankSelection::Chunk(i),
            None => BankSelection::Overview,
        },
        BrowserSection::Hierarchy => match first_object {
            Some((c, o)) => BankSelection::Hierarchy { chunk_index: c, object_index: o },
            None => BankSelection::Overview,
        },
        BrowserSection::Media => match first_media {
            Some((c, e)) => BankSelection::Media { index_chunk: c, entry_index: e },
            None => BankSelection::Overview,
        },
    }
}

/// Which header field was not a `u32`.
#[derive(Clone, Copy, Debug, PartialEq, Eq, Structural)]
pub enum HeaderError {
    BankId,
    Language,
}

/// The start of the message for a header field that is not a `u32`: which
/// field, and the range it must lie in.
pub open spec fn header_error_prefix(e: HeaderError) -> Seq<char> {
    match e {
        HeaderError::BankId => "Bank ID 必须是 0–4294967295 的整数："@,
        HeaderError::Language => "Language ID 必须是 0–4294967295 的整数："@,
    }
}

impl HeaderError {
    /// The message shown for a header field that is not a `u32`: the field
    /// and its range, then `detail`, the reason the number could not be read
    /// (the text of the standard library's parse error).
    pub fn message(self, detail: &str) -> (s: String)
        ensures
            s@ == header_error_prefix(self) + detail@,
    {
        let mut v = match self {
            HeaderError::BankId => chars_of("Bank ID 必须是 0–4294967295 的整数："),
            HeaderError::Language => chars_of("Language ID 必须是 0–4294967295 的整数："),
        };
        push_str(&mut v, detail);
        string_of_all(&v)
    }
}

/// The bank and language identifiers typed into the header editor, each
/// trimmed and read as a `u32`, the bank identifier first.
pub fn parse_header_fields(bank_id: &str, language: &str) -> (r: Result<(u32, u32), HeaderError>)
    ensures
        ({
            let b = crate::text::unsigned_text_value(trim(bank_id@));
            let l = crate::text::unsigned_text_value(trim(language@));
            if !(b is Some && b->0 <= u32::MAX) {
                r == Err::<(u32, u32), HeaderError>(HeaderError::BankId)
            } else if !(l is Some && l->0 <= u32::MAX) {
                r == Err::<(u32, u32), HeaderError>(HeaderError::Language)
            } else {
                r matches Ok((x, y)) && x == b->0 && y == l->0
            }
        }),
{
    let braw = chars_of(bank_id);
    let btext = string_of_all(&trimmed(&braw, CharSet::Whitespace));
    let b = match parse_u32(btext.as_str()) {
        Some(v) => v,
        None => {
            return Err(HeaderError::BankId);
        },
    };
    let lraw = chars_of(language);
    let ltext = string_of_all(&trimmed(&lraw, CharSet::Whitespace));
    let l = match parse_u32(ltext.as_str()) {
        Some(v) => v,
        None => {
            return Err(HeaderError::Language);
        },
    };
    Ok((b, l))
}


/// The reason a media file cannot be found, as the status bar words it.
pub open spec fn media_error_text(e: MediaError) -> Seq<char> {
    match e {
        MediaError::IndexChunkMissing => "DIDX 块已经不存在"@,
        MediaError::NotIndexChunk => "所选块不再是 DIDX"@,
        MediaError::EntryMissing => "媒体索引已经不存在"@,
        MediaError::NoDataChunk => "DIDX 后没有相邻 DATA 块"@,
        MediaError::DataChunkMissing => "DATA 块已经不存在"@,
        MediaError::NotDataChunk => "所选数据块不再是 DATA"@,
        MediaError::RangeOverflow => "媒体范围溢出"@,
        MediaError::RangeOutside => "媒体范围超出 DATA 块"@,
    }
}

impl MediaError {
    /// The reason shown when a media file cannot be read.
    pub fn message(self) -> (s: String)
        ensures
            s@ == media_error_text(self),
    {
        match self {
            MediaError::IndexChunkMissing => "DIDX 块已经不存在".to_string(),
            MediaError::NotIndexChunk => "所选块不再是 DIDX".to_string(),
            MediaError::EntryMissing => "媒体索引已经不存在".to_string(),
            MediaError::NoDataChunk => "DIDX 后没有相邻 DATA 块".to_string(),
            MediaError::DataChunkMissing => "DATA 块已经不存在".to_string(),
            MediaError::NotDataChunk => "所选数据块不再是 DATA".to_string(),
            MediaError::RangeOverflow => "媒体范围溢出".to_string(),
            MediaError::RangeOutside => "媒体范围超出 DATA 块".to_string(),
        }
    }
}

} // verus!
