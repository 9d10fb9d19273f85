//! Searching and paging the group and record lists of the NEWTON manifest
//! editor: a record is shown when the search is empty or one of its texts
//! holds it (ASCII letters compared case-insensitively), and the matches are
//! shown a page at a time.
use vstd::prelude::*;

use crate::text::{chars_of, has_infix, lower, lower_vec, trim, trimmed, contains_infix, CharSet};

verus! {

/// How many records the record panel shows per page.
pub const RECORD_PAGE_SIZE: usize = 160;

/// The search as it is matched: trimmed and ASCII lower-case.
pub open spec fn search_key(query: Seq<char>) -> Seq<char> {
    lower(trim(query))
}

/// A record with the texts `texts` is shown for the search key `key`.
pub open spec fn record_shown(texts: Seq<Seq<char>>, key: Seq<char>) -> bool {
    key.len() == 0 || exists|j: int| 0 <= j < texts.len() && has_infix(lower(#[trigger] texts[j]), key)
}

/// The texts of a record, as character sequences.
pub open spec fn record_texts(texts: Seq<String>) -> Seq<Seq<char>> {
    Seq::new(texts.len(), |j: int| texts[j]@)
}

/// The positions of the records shown for `key`, in order.
pub open spec fn shown_positions(records: Seq<Vec<String>>, key: Seq<char>) -> Seq<usize>
    decreases records.len(),
{
    if records.len() == 0 {
        Seq::empty()
    } else {
        let prev = shown_positions(records.drop_last(), key);
        if record_shown(record_texts(records.last()@), key) {
            prev.push((records.len() - 1) as usize)
        } else {
            prev
        }
    }
}

/// The page of a listing that is shown.
#[derive(Clone, Copy, Debug, PartialEq, Eq, Structural)]
pub struct PageWindow {
    /// How many pages there are (at least one).
    pub page_count: usize,
    /// The page shown: the requested one, or the last when it lies beyond.
    pub page: usize,
    /// The rank of the first match on the page.
    pub start: usize,
    /// One past the rank of the last match on the page.
    pub end: usize,
    /// The first rank shown in the footer, counted from 1 (0 when there is
    /// no match).
    pub first_shown: usize,
}

/// The page of `total` matches shown when page `requested` is asked for,
/// `page_size` matches a page.
pub open spec fn spec_page_window(total: int, requested: int, page_size: int) -> PageWindow {
    let count = if total == 0 {
        1
    } else {
        (total + page_size - 1) / page_size
    };
    let page = if requested < count {
        requested
    } else {
        count - 1
    };
    let start = page * page_size;
    PageWindow {
        page_count: count as usize,
        page: page as usize,
        start: start as usize,
        end: (if start + page_size < total {
            start + page_size
        } else {
            total
        }) as usize,
        first_shown: (if start + 1 < total {
            start + 1
        } else {
            total
        }) as usize,
    }
}

/// The page of `total` matches shown when page `requested` is asked for.
pub fn page_window(total: usize, requested: usize, page_size: usize) -> (w: PageWindow)
    requires
        page_size > 0,
    ensures
        w == spec_page_window(total as int, requested as int, page_size as int),
        w.start <= w.end <= total,
        w.page < w.page_count,
{
    assert(total % page_size != 0 ==> total / page_size < usize::MAX) by (nonlinear_arith)
        requires
            page_size > 0,
            total <= usize::MAX,
    {
        if total % page_size != 0 {
            assert(page_size >= 2);
        }
    }
    let count = if total == 0 {
        1
    } else {
        total / page_size + if total % page_size == 0 {
            0
        } else {
            1
        }
    };
    assert(total > 0 ==> count == (total + page_size - 1) / page_size as int) by (nonlinear_arith)
        requires
            page_size > 0,
            total > 0 ==> count == total / page_size + if total % page_size == 0 { 0int } else { 1int },
    ;
    assert(count >= 1) by (nonlinear_arith)
        requires
            page_size > 0,
            total == 0 ==> count == 1,
            total > 0 ==> count == (total + page_size - 1) / page_size as int,
    ;
    let page = if requested < count {
        requested
    } else {
        count - 1
    };
    assert(page * page_size <= total) by (nonlinear_arith)
        requires
            page_size > 0,
            page < count,
            total == 0 ==> count == 1,
            total > 0 ==> count == (total + page_size - 1) / page_size as int,
    ;
    let start = page * page_size;
    let room = total - start;
    let end = if page_size < room {
        start + page_size
    } else {
        total
    };
    let first_shown = if start < total {
        start + 1
    } else {
        total
    };
    PageWindow { page_count: count, page, start, end, first_shown }
}

/// Whether one of `texts` holds the lower-case key `key`.
fn any_text_holds(texts: &Vec<String>, key: &Vec<char>) -> (r: bool)
    ensures
        r == (exists|j: int| 0 <= j < texts@.len() && has_infix(lower(#[trigger] record_texts(texts@)[j]), key@)),
{
    let ghost t = record_texts(texts@);
    let mut j: usize = 0;
    while j < texts.len()
        invariant
            j <= texts@.len(),
            t == record_texts(texts@),
            forall|k: int| 0 <= k < j ==> !has_infix(lower(#[trigger] t[k]), key@),
        decreases texts@.len() - j,
    {
        let text = lower_vec(&chars_of(texts[j].as_str()));
        assert(t[j as int] == texts@[j as int]@);
        if contains_infix(&text, key) {
            return true;
        }
        j = j + 1;
    }
    false
}

/// The records shown for `query` on page `requested`: their positions, how
/// many records match in all, and the page. `records[i]` holds the texts the
/// search looks at: a group's or subgroup's identifier; a resource's
/// identifier, path and type label.
pub fn listing_page(records: &Vec<Vec<String>>, query: &str, requested: usize, page_size: usize) -> (r: (
    Vec<usize>,
    usize,
    PageWindow,
))
    requires
        page_size > 0,
    ensures
        ({
            let m = shown_positions(records@, search_key(query@));
            &&& r.1 == m.len()
            &&& r.2 == spec_page_window(m.len() as int, requested as int, page_size as int)
            &&& r.0@ == m.subrange(r.2.start as int, r.2.end as int)
        }),
{
    let ghost key_view = search_key(query@);
    let key = lower_vec(&trimmed(&chars_of(query), CharSet::Whitespace));
    assert(key@ == key_view);
    let mut matches: Vec<usize> = Vec::new();
    let mut i: usize = 0;
    while i < records.len()
        invariant
            i <= records@.len(),
            key@ == key_view,
            matches@ == shown_positions(records@.take(i as int), key_view),
            matches@.len() <= i,
        decreases records@.len() - i,
    {
        let ghost before = records@.take(i as int);
        assert(records@.take(i + 1).drop_last() =~= before);
        assert(records@.take(i + 1).last() == records@[i as int]);
        let shown = key.len() == 0 || any_text_holds(&records[i], &key);
        if shown {
            matches.push(i);
        }
        i = i + 1;
    }
    assert(records@.take(i as int) =~= records@);
    let total = matches.len();
    let w = page_window(total, requested, page_size);
    let mut page: Vec<usize> = Vec::new();
    let mut k: usize = w.start;
    while k < w.end
        invariant
            w.start <= k <= w.end <= matches@.len(),
            page@ == matches@.subrange(w.start as int, k as int),
        decreases w.end - k,
    {
        page.push(matches[k]);
        assert(page@ =~= matches@.subrange(w.start as int, k + 1));
        k = k + 1;
    }
    (page, total, w)
}

} // verus!
