//! The figures shown for an opened DZip archive: unpacked and packed sizes
//! and how many of its volumes are loaded.
use vstd::prelude::*;

use crate::dzip::archive::DraftEntry;

verus! {

/// The sum of entry sizes, stopping at `u64::MAX`.
pub open spec fn saturating_total(sizes: Seq<u64>) -> int
    decreases sizes.len(),
{
    if sizes.len() == 0 {
        0
    } else {
        let rest = saturating_total(sizes.drop_last());
        if rest + sizes.last() > u64::MAX {
            u64::MAX as int
        } else {
            rest + sizes.last()
        }
    }
}

/// The unpacked size of an archive: its entries' sizes added up, stopping
/// at `u64::MAX`.
pub fn unpacked_size(sizes: &Vec<u64>) -> (total: u64)
    ensures
        total == saturating_total(sizes@),
{
    let mut total: u64 = 0;
    let mut i: usize = 0;
    while i < sizes.len()
        invariant
            i <= sizes@.len(),
            total == saturating_total(sizes@.take(i as int)),
        decreases sizes@.len() - i,
    {
        assert(sizes@.take(i + 1).drop_last() =~= sizes@.take(i as int));
        total = if total > u64::MAX - sizes[i] {
            u64::MAX
        } else {
            total + sizes[i]
        };
        i = i + 1;
    }
    assert(sizes@.take(i as int) =~= sizes@);
    total
}

/// The stored length of the chunks an entry uses: the physical length of each
/// of its chunk ids that the index has, added up.
pub open spec fn chunk_total(ids: Seq<u32>, lengths: Seq<u32>) -> int
    decreases ids.len(),
{
    if ids.len() == 0 {
        0
    } else {
        chunk_total(ids.drop_last(), lengths) + if (ids.last() as int) < lengths.len() {
            lengths[ids.last() as int] as int
        } else {
            0
        }
    }
}

proof fn lemma_chunk_total_prefix(ids: Seq<u32>, lengths: Seq<u32>, i: int)
    requires
        0 <= i <= ids.len(),
    ensures
        chunk_total(ids.take(i), lengths) <= chunk_total(ids, lengths),
    decreases ids.len(),
{
    if i < ids.len() {
        assert(ids.drop_last().take(i) =~= ids.take(i));
        lemma_chunk_total_prefix(ids.drop_last(), lengths, i);
    } else {
        assert(ids.take(i) =~= ids);
    }
}

/// The packed size of an entry, known only when every volume holding one of
/// its segments is loaded (`segments_loaded[k]` for segment `k`): the stored
/// lengths of its chunks (`chunk_ids`, looked up in the index's `chunk_lengths`).
pub fn packed_size(segments_loaded: &Vec<bool>, chunk_ids: &Vec<u32>, chunk_lengths: &Vec<u32>) -> (r: Option<u64>)
    requires
        chunk_total(chunk_ids@, chunk_lengths@) <= u64::MAX,
    ensures
        (forall|k: int| 0 <= k < segments_loaded@.len() ==> #[trigger] segments_loaded@[k]) ==> r == Some(
            chunk_total(chunk_ids@, chunk_lengths@) as u64,
        ),
        !(forall|k: int| 0 <= k < segments_loaded@.len() ==> #[trigger] segments_loaded@[k]) ==> r is None,
{
    let mut k: usize = 0;
    while k < segments_loaded.len()
        invariant
            k <= segments_loaded@.len(),
            forall|j: int| 0 <= j < k ==> #[trigger] segments_loaded@[j],
        decreases segments_loaded@.len() - k,
    {
        if !segments_loaded[k] {
            return None;
        }
        k = k + 1;
    }
    let mut total: u64 = 0;
    let mut i: usize = 0;
    while i < chunk_ids.len()
        invariant
            i <= chunk_ids@.len(),
            total == chunk_total(chunk_ids@.take(i as int), chunk_lengths@),
            chunk_total(chunk_ids@, chunk_lengths@) <= u64::MAX,
        decreases chunk_ids@.len() - i,
    {
        assert(chunk_ids@.take(i + 1).drop_last() =~= chunk_ids@.take(i as int));
        proof {
            lemma_chunk_total_prefix(chunk_ids@, chunk_lengths@, i + 1);
        }
        let id = chunk_ids[i] as usize;
        if id < chunk_lengths.len() {
            total = total + chunk_lengths[id] as u64;
        }
        i = i + 1;
    }
    assert(chunk_ids@.take(i as int) =~= chunk_ids@);
    Some(total)
}

/// How complete an opened archive is, from the number of auxiliary volumes
/// its index lists and the number loaded: whether all are loaded, and the
/// volume counts shown, which include the main volume.
pub fn volume_counts(listed: usize, loaded: usize) -> (r: (bool, usize, usize))
    requires
        listed < usize::MAX,
        loaded < usize::MAX,
    ensures
        r.0 == (loaded == listed),
        r.1 == listed + 1,
        r.2 == loaded + 1,
{
    (loaded == listed, listed + 1, loaded + 1)
}


/// The sizes of the entries being edited, added up.
pub open spec fn draft_size(entries: Seq<DraftEntry>) -> int
    decreases entries.len(),
{
    if entries.len() == 0 {
        0
    } else {
        draft_size(entries.drop_last()) + entries.last().size
    }
}

/// Whether every entry knows its packed size.
pub open spec fn all_packed(entries: Seq<DraftEntry>) -> bool {
    forall|i: int| 0 <= i < entries.len() ==> (#[trigger] entries[i]).packed_size is Some
}

/// The packed sizes of the entries added up in order, up to the first entry
/// whose packed size is unknown.
pub open spec fn draft_packed(entries: Seq<DraftEntry>) -> int
    decreases entries.len(),
{
    if entries.len() == 0 {
        0
    } else if !all_packed(entries.drop_last()) {
        draft_packed(entries.drop_last())
    } else {
        draft_packed(entries.drop_last()) + match entries.last().packed_size {
            Some(p) => p as int,
            None => 0,
        }
    }
}

proof fn lemma_draft_prefix(entries: Seq<DraftEntry>, i: int)
    requires
        0 <= i <= entries.len(),
    ensures
        draft_size(entries.take(i)) <= draft_size(entries),
        draft_packed(entries.take(i)) <= draft_packed(entries),
    decreases entries.len(),
{
    if i < entries.len() {
        assert(entries.drop_last().take(i) =~= entries.take(i));
        lemma_draft_prefix(entries.drop_last(), i);
    } else {
        assert(entries.take(i) =~= entries);
    }
}

/// The unpacked size of the archive being edited, and its packed size when
/// every entry knows its own (else it is known only after a rebuild).
pub fn draft_totals(entries: &Vec<DraftEntry>) -> (r: (u64, Option<u64>))
    requires
        draft_size(entries@) <= u64::MAX,
        draft_packed(entries@) <= u64::MAX,
    ensures
        r.0 == draft_size(entries@),
        all_packed(entries@) ==> r.1 == Some(draft_packed(entries@) as u64),
        !all_packed(entries@) ==> r.1 is None,
{
    let mut size: u64 = 0;
    let mut packed: u64 = 0;
    let mut known = true;
    let mut i: usize = 0;
    while i < entries.len()
        invariant
            i <= entries@.len(),
            size == draft_size(entries@.take(i as int)),
            packed == draft_packed(entries@.take(i as int)),
            known == all_packed(entries@.take(i as int)),
            draft_size(entries@) <= u64::MAX,
            draft_packed(entries@) <= u64::MAX,
        decreases entries@.len() - i,
    {
        let ghost before = entries@.take(i as int);
        assert(entries@.take(i + 1).drop_last() =~= before);
        assert(entries@.take(i + 1).last() == entries@[i as int]);
        proof {
            lemma_draft_prefix(entries@, i + 1);
        }
        size = size + entries[i].size;
        if known {
            match entries[i].packed_size {
                Some(p) => {
                    packed = packed + p;
                },
                None => {
                    known = false;
                },
            }
        }
        assert(all_packed(entries@.take(i + 1)) == (all_packed(before) && entries@[i as int].packed_size is Some)) by {
            let s1 = entries@.take(i + 1);
            if all_packed(before) && entries@[i as int].packed_size is Some {
                assert forall|k: int| 0 <= k < s1.len() implies (#[trigger] s1[k]).packed_size is Some by {
                    if k < i {
                        assert(s1[k] == before[k]);
                    }
                }
            }
            if all_packed(s1) {
                assert forall|k: int| 0 <= k < before.len() implies (#[trigger] before[k]).packed_size is Some by {
                    assert(s1[k] == before[k]);
                }
                assert(s1[i as int] == entries@[i as int]);
            }
        }
        i = i + 1;
    }
    assert(entries@.take(i as int) =~= entries@);
    if known {
        (size, Some(packed))
    } else {
        (size, None)
    }
}

} // verus!
