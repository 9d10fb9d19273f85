//! Tab-level rules of the DZip workspace: which dropped files open an
//! archive, identifiers for new tabs and entries, the folder tree, adding
//! files, and the tab strip's classes.
use vstd::prelude::*;

use crate::browser::{lemma_lex_less_transitive, lemma_lex_order_antisymmetric, lex_order};
use crate::dzip::archive::{Compression, DraftEntry, EntrySummary};
use crate::dzip::paths::{breadcrumbs, join_path, spec_join_path, spec_path_components};
use crate::dzip::service::{has_archive_extension, is_main_archive_name, is_volume_name, spec_is_volume_name};
use crate::tabs::{advance_id, spec_advance_id};
use crate::text::{chars_of, join_with, lower, lower_vec, views};

verus! {

/// The class of a tab in the tab strip.
pub fn tab_class(active: bool, dirty: bool) -> (c: &'static str)
    ensures
        active && dirty ==> c@ == "dzip-tab ui-document-tab is-active is-dirty"@,
        active && !dirty ==> c@ == "dzip-tab ui-document-tab is-active"@,
        !active && dirty ==> c@ == "dzip-tab ui-document-tab is-dirty"@,
        !active && !dirty ==> c@ == "dzip-tab ui-document-tab"@,
{
    if active {
        if dirty {
            "dzip-tab ui-document-tab is-active is-dirty"
        } else {
            "dzip-tab ui-document-tab is-active"
        }
    } else if dirty {
        "dzip-tab ui-document-tab is-dirty"
    } else {
        "dzip-tab ui-document-tab"
    }
}

/// Why a set of dropped files cannot be opened.
#[derive(Clone, Copy, Debug, PartialEq, Eq, Structural)]
pub enum OpenError {
    /// No `.dz` or `.dzip` main file among them.
    NoMainArchive,
    /// More than one main file.
    SeveralMainArchives,
}

/// The positions of the names that are main archive files, in order.
pub open spec fn main_positions(names: Seq<Seq<char>>) -> Seq<usize>
    decreases names.len(),
{
    if names.len() == 0 {
        Seq::empty()
    } else {
        let prev = main_positions(names.drop_last());
        if has_archive_extension(names.last()) {
            prev.push((names.len() - 1) as usize)
        } else {
            prev
        }
    }
}

/// The positions of the names that are auxiliary volumes (and not main
/// files), in order.
pub open spec fn volume_positions(names: Seq<Seq<char>>) -> Seq<usize>
    decreases names.len(),
{
    if names.len() == 0 {
        Seq::empty()
    } else {
        let prev = volume_positions(names.drop_last());
        if !has_archive_extension(names.last()) && spec_is_volume_name(names.last()) {
            prev.push((names.len() - 1) as usize)
        } else {
            prev
        }
    }
}

/// Which dropped files open an archive: exactly one main file, and the
/// volumes among the rest, ordered by their lower-case names. Other files
/// are ignored.
pub fn select_archive_files(names: &Vec<String>) -> (r: Result<(usize, Vec<usize>), OpenError>)
    ensures
        ({
            let mains = main_positions(views(names@));
            let volumes = volume_positions(views(names@));
            &&& mains.len() == 0 ==> r == Err::<(usize, Vec<usize>), OpenError>(OpenError::NoMainArchive)
            &&& mains.len() > 1 ==> r == Err::<(usize, Vec<usize>), OpenError>(
                OpenError::SeveralMainArchives,
            )
            &&& mains.len() == 1 ==> (r matches Ok((main, aux)) && main == mains[0] && aux@.to_multiset()
                == volumes.to_multiset() && forall|k: int, l: int|
                0 <= k < l < aux@.len() ==> lex_order(
                    lower(names@[#[trigger] aux@[k] as int]@),
                    lower(names@[#[trigger] aux@[l] as int]@),
                ) <= 0 && (lex_order(lower(names@[aux@[k] as int]@), lower(names@[aux@[l] as int]@)) == 0 ==> aux@[k]
                    < aux@[l]))
        }),
{
    let ghost all = views(names@);
    let mut mains: Vec<usize> = Vec::new();
    let mut volumes: Vec<usize> = Vec::new();
    let mut i: usize = 0;
    while i < names.len()
        invariant
            i <= names@.len(),
            all == views(names@),
            mains@ == main_positions(all.take(i as int)),
            volumes@ == volume_positions(all.take(i as int)),
            forall|k: int| 0 <= k < volumes@.len() ==> #[trigger] volumes@[k] < i,
            forall|k: int, l: int| 0 <= k < l < volumes@.len() ==> #[trigger] volumes@[k] < #[trigger] volumes@[l],
        decreases names@.len() - i,
    {
        assert(all.take(i + 1).drop_last() =~= all.take(i as int));
        assert(all.take(i + 1).last() == names@[i as int]@);
        if is_main_archive_name(names[i].as_str()) {
            mains.push(i);
        } else if is_volume_name(names[i].as_str()) {
            volumes.push(i);
        }
        i = i + 1;
    }
    assert(all.take(names@.len() as int) =~= all);
    if mains.len() == 0 {
        return Err(OpenError::NoMainArchive);
    }
    if mains.len() > 1 {
        return Err(OpenError::SeveralMainArchives);
    }
    let aux = order_by_lower_name(names, &volumes);
    Ok((mains[0], aux))
}

/// `picked` rearranged so that the lower-case names come in order; names
/// equal in lower case keep their order.
fn order_by_lower_name(names: &Vec<String>, picked: &Vec<usize>) -> (out: Vec<usize>)
    requires
        forall|k: int| 0 <= k < picked@.len() ==> #[trigger] picked@[k] < names@.len(),
        forall|k: int, l: int| 0 <= k < l < picked@.len() ==> #[trigger] picked@[k] < #[trigger] picked@[l],
    ensures
        forall|k: int, l: int|
            0 <= k < l < out@.len() ==> (lex_order(
                lower(names@[#[trigger] out@[k] as int]@),
                lower(names@[#[trigger] out@[l] as int]@),
            ) == 0 ==> out@[k] < out@[l]),
        out@.to_multiset() == picked@.to_multiset(),
        forall|k: int| 0 <= k < out@.len() ==> #[trigger] out@[k] < names@.len(),
        forall|k: int, l: int|
            0 <= k < l < out@.len() ==> lex_order(
                lower(names@[#[trigger] out@[k] as int]@),
                lower(names@[#[trigger] out@[l] as int]@),
            ) <= 0,
{
    let mut out: Vec<usize> = Vec::new();
    let mut i: usize = 0;
    assert(out@ =~= picked@.take(0));
    while i < picked.len()
        invariant
            i <= picked@.len(),
            forall|k: int| 0 <= k < picked@.len() ==> #[trigger] picked@[k] < names@.len(),
            forall|k: int, l: int| 0 <= k < l < picked@.len() ==> #[trigger] picked@[k] < #[trigger] picked@[l],
            i > 0 ==> forall|k: int| 0 <= k < out@.len() ==> #[trigger] out@[k] <= picked@[i - 1],
            forall|k: int, l: int|
                0 <= k < l < out@.len() ==> (lex_order(
                    lower(names@[#[trigger] out@[k] as int]@),
                    lower(names@[#[trigger] out@[l] as int]@),
                ) == 0 ==> out@[k] < out@[l]),
            out@.len() == i,
            out@.to_multiset() == picked@.take(i as int).to_multiset(),
            forall|k: int| 0 <= k < out@.len() ==> #[trigger] out@[k] < names@.len(),
            forall|k: int, l: int|
                0 <= k < l < out@.len() ==> lex_order(
                    lower(names@[#[trigger] out@[k] as int]@),
                    lower(names@[#[trigger] out@[l] as int]@),
                ) <= 0,
        decreases picked@.len() - i,
    {
        let x = picked[i];
        let key = lower_vec(&chars_of(names[x].as_str()));
        let mut p = out.len();
        while p > 0 && crate::browser::lex_sign(&lower_vec(&chars_of(names[out[p - 1]].as_str())), &key) > 0
            invariant
                p <= out@.len(),
                x < names@.len(),
                key@ == lower(names@[x as int]@),
                forall|k: int| 0 <= k < out@.len() ==> #[trigger] out@[k] < names@.len(),
                forall|q: int| p <= q < out@.len() ==> lex_order(lower(names@[#[trigger] out@[q] as int]@), key@) > 0,
            decreases p,
        {
            p = p - 1;
        }
        let ghost before = out@;
        out.insert(p, x);
        proof {
            let kx = lower(names@[x as int]@);
            assert forall|k: int, l: int|
                0 <= k < l < out@.len() implies lex_order(
                lower(names@[#[trigger] out@[k] as int]@),
                lower(names@[#[trigger] out@[l] as int]@),
            ) <= 0 by {
                if l < p {
                    assert(out@[k] == before[k] && out@[l] == before[l]);
                } else if l == p {
                    assert(out@[k] == before[k]);
                    let kk = lower(names@[before[k] as int]@);
                    let kp = lower(names@[before[p - 1] as int]@);
                    lemma_lex_order_antisymmetric(kk, kp);
                    lemma_lex_order_antisymmetric(kp, kx);
                    crate::browser::lemma_lex_order_chains(kk, kp, kx);
                } else if k == p {
                    assert(out@[l] == before[l - 1]);
                    lemma_lex_order_antisymmetric(lower(names@[before[l - 1] as int]@), kx);
                } else if k < p {
                    assert(out@[k] == before[k] && out@[l] == before[l - 1]);
                } else {
                    assert(out@[k] == before[k - 1] && out@[l] == before[l - 1]);
                }
            }
            assert(i > 0 ==> x > picked@[i - 1]);
            assert forall|k: int| 0 <= k < out@.len() implies #[trigger] out@[k] <= picked@[i as int] by {
                if k < p {
                    assert(out@[k] == before[k]);
                } else if k > p {
                    assert(out@[k] == before[k - 1]);
                }
            }
            assert forall|k: int, l: int|
                0 <= k < l < out@.len() && lex_order(
                    lower(names@[#[trigger] out@[k] as int]@),
                    lower(names@[#[trigger] out@[l] as int]@),
                ) == 0 implies out@[k] < out@[l] by {
                if l < p {
                    assert(out@[k] == before[k] && out@[l] == before[l]);
                } else if l == p {
                    assert(out@[k] == before[k]);
                } else if k == p {
                    assert(out@[l] == before[l - 1]);
                    lemma_lex_order_antisymmetric(lower(names@[before[l - 1] as int]@), kx);
                } else if k < p {
                    assert(out@[k] == before[k] && out@[l] == before[l - 1]);
                } else {
                    assert(out@[k] == before[k - 1] && out@[l] == before[l - 1]);
                }
            }
            assert(picked@.take(i + 1) =~= picked@.take(i as int).push(x));
            assert(out@ =~= before.insert(p as int, x));
            vstd::seq_lib::to_multiset_insert(before, p as int, x);
            vstd::seq_lib::to_multiset_build(picked@.take(i as int), x);
        }
        i = i + 1;
    }
    assert(picked@.take(picked@.len() as int) =~= picked@);
    out
}

/// Whether `x` is the path of a folder that holds some entry: the first
/// `n` components of an entry's path, short of the whole path.
pub open spec fn is_directory_of(entries: Seq<DraftEntry>, x: Seq<char>) -> bool {
    exists|i: int, n: int|
        0 <= i < entries.len() && 1 <= n < spec_path_components(entries[i].path@).len() && x == join_with(
            #[trigger] spec_path_components(entries[i].path@).take(n),
            '/',
        )
}

/// Whether `v` is strictly increasing.
pub open spec fn strictly_increasing(v: Seq<Seq<char>>) -> bool {
    forall|k: int, l: int| 0 <= k < l < v.len() ==> lex_order(#[trigger] v[k], #[trigger] v[l]) == -1
}

/// Adds `s` to the strictly increasing `set`, unless it is there already.
pub(crate) fn insert_sorted(set: &mut Vec<String>, s: String)
    requires
        strictly_increasing(views(old(set)@)),
    ensures
        strictly_increasing(views(final(set)@)),
        forall|x: Seq<char>| views(final(set)@).contains(x) <==> (views(old(set)@).contains(x) || x == s@),
{
    let ghost old_views = views(set@);
    let key = chars_of(s.as_str());
    let mut p: usize = 0;
    let mut here_sign: i8 = -1;
    while p < set.len()
        invariant
            p <= set@.len(),
            key@ == s@,
            old_views == views(set@),
            strictly_increasing(old_views),
            forall|q: int| 0 <= q < p ==> lex_order(#[trigger] old_views[q], key@) == -1,
        ensures
            p <= set@.len(),
            forall|q: int| 0 <= q < p ==> lex_order(#[trigger] old_views[q], key@) == -1,
            p < set@.len() ==> here_sign == lex_order(old_views[p as int], key@) && here_sign >= 0,
        decreases set@.len() - p,
    {
        let here = chars_of(set[p].as_str());
        assert(here@ == old_views[p as int]);
        proof {
            lemma_lex_order_antisymmetric(here@, key@);
        }
        let c = crate::browser::lex_sign(&here, &key);
        if c >= 0 {
            here_sign = c;
            break;
        }
        p = p + 1;
    }
    assert(old_views.len() == set@.len());
    proof {
        if p < old_views.len() {
            lemma_lex_order_antisymmetric(old_views[p as int], s@);
        }
    }
    if p < set.len() && here_sign == 0 {
        proof {
            lemma_lex_order_antisymmetric(old_views[p as int], s@);
        }
        assert(old_views[p as int] == s@);
        assert(old_views.contains(s@));
        return;
    }
    set.insert(p, s);
    proof {
        let nv = views(set@);
        assert(nv =~= old_views.insert(p as int, s@));
        assert forall|k: int, l: int| 0 <= k < l < nv.len() implies lex_order(#[trigger] nv[k], #[trigger] nv[l]) == -1 by {
            if l < p {
                assert(nv[k] == old_views[k] && nv[l] == old_views[l]);
            } else if l == p {
                assert(nv[k] == old_views[k]);
            } else if k == p {
                assert(nv[l] == old_views[l - 1]);
                lemma_lex_order_antisymmetric(old_views[p as int], s@);
                if l - 1 > p {
                    lemma_lex_less_transitive(s@, old_views[p as int], old_views[l - 1]);
                }
            } else if k < p {
                assert(nv[k] == old_views[k] && nv[l] == old_views[l - 1]);
            } else {
                assert(nv[k] == old_views[k - 1] && nv[l] == old_views[l - 1]);
            }
        }
        assert forall|x: Seq<char>| nv.contains(x) <==> (old_views.contains(x) || x == s@) by {
            if nv.contains(x) {
                let w = choose|w: int| 0 <= w < nv.len() && nv[w] == x;
                if w < p {
                    assert(old_views[w] == x);
                } else if w > p {
                    assert(old_views[w - 1] == x);
                }
            }
            if old_views.contains(x) {
                let w = choose|w: int| 0 <= w < old_views.len() && old_views[w] == x;
                if w < p {
                    assert(nv[w] == x);
                } else {
                    assert(nv[w + 1] == x);
                }
            }
            if x == s@ {
                assert(nv[p as int] == x);
            }
        }
    }
}

/// Whether `x` joins the first `n` of `parts`, for some `n` in `1..=j`.
pub open spec fn short_prefix(parts: Seq<Seq<char>>, j: int, x: Seq<char>) -> bool {
    exists|n: int| 1 <= n <= j && x == join_with(#[trigger] parts.take(n), '/')
}

/// One more allowed length adds exactly the next joined prefix.
proof fn lemma_short_prefix_step(parts: Seq<Seq<char>>, j: int, x: Seq<char>)
    requires
        j >= 0,
    ensures
        short_prefix(parts, j + 1, x) <==> (short_prefix(parts, j, x) || x == join_with(parts.take(j + 1), '/')),
{
    if short_prefix(parts, j + 1, x) {
        let n = choose|n: int| 1 <= n <= j + 1 && x == join_with(#[trigger] parts.take(n), '/');
        if n <= j {
            assert(short_prefix(parts, j, x));
        }
    }
    if short_prefix(parts, j, x) {
        let n = choose|n: int| 1 <= n <= j && x == join_with(#[trigger] parts.take(n), '/');
        assert(1 <= n <= j + 1);
    }
    if x == join_with(parts.take(j + 1), '/') {
        assert(1 <= j + 1 <= j + 1);
    }
}

/// The folders of the archive, each once, in ascending order: every proper
/// prefix of an entry's path components, joined with `/`.
pub fn all_directories(entries: &Vec<DraftEntry>) -> (dirs: Vec<String>)
    ensures
        strictly_increasing(views(dirs@)),
        forall|x: Seq<char>| views(dirs@).contains(x) <==> is_directory_of(entries@, x),
{
    let mut dirs: Vec<String> = Vec::new();
    let mut i: usize = 0;
    while i < entries.len()
        invariant
            i <= entries@.len(),
            strictly_increasing(views(dirs@)),
            forall|x: Seq<char>| #[trigger] views(dirs@).contains(x) <==> is_directory_of(entries@.take(i as int), x),
        decreases entries@.len() - i,
    {
        let crumbs = breadcrumbs(entries[i].path.as_str());
        let ghost parts = spec_path_components(entries@[i as int].path@);
        assert forall|k: int| 0 <= k < crumbs@.len() implies #[trigger] crumbs@[k].1@ == join_with(parts.take(k + 1), '/') by {
            assert(crumbs@[k].0@ == parts[k]);
        }
        let ghost before = views(dirs@);
        let mut j: usize = 0;
        assert forall|x: Seq<char>| #[trigger] views(dirs@).contains(x) <==> (before.contains(x) || short_prefix(parts, 0, x)) by {}
        let last = if crumbs.len() > 0 {
            crumbs.len() - 1
        } else {
            0
        };
        while j < last
            invariant
                i < entries@.len(),
                j <= last,
                last == if parts.len() > 0 {
                    parts.len() - 1
                } else {
                    0
                },
                crumbs@.len() == parts.len(),
                forall|k: int| 0 <= k < crumbs@.len() ==> #[trigger] crumbs@[k].1@ == join_with(parts.take(k + 1), '/'),
                strictly_increasing(views(dirs@)),
                forall|x: Seq<char>|
                    #[trigger] views(dirs@).contains(x) <==> (before.contains(x) || short_prefix(parts, j as int, x)),
            decreases last - j,
        {
            let ghost prev = views(dirs@);
            let dir = crumbs[j].1.clone();
            assert(dir@ == join_with(parts.take(j + 1), '/'));
            insert_sorted(&mut dirs, dir);
            assert forall|x: Seq<char>|
                #[trigger] views(dirs@).contains(x) <==> (before.contains(x) || short_prefix(parts, j + 1, x)) by {
                lemma_short_prefix_step(parts, j as int, x);
                assert(prev.contains(x) <==> (before.contains(x) || short_prefix(parts, j as int, x)));
            }
            j = j + 1;
        }
        proof {
            let s0 = entries@.take(i as int);
            let s1 = entries@.take(i + 1);
            assert(j == last);
            assert forall|x: Seq<char>| #[trigger] views(dirs@).contains(x) <==> is_directory_of(s1, x) by {
                assert(before.contains(x) <==> is_directory_of(s0, x));
                if is_directory_of(s1, x) {
                    let (a, n) = choose|a: int, n: int|
                        0 <= a < s1.len() && 1 <= n < spec_path_components(s1[a].path@).len() && x == join_with(
                            #[trigger] spec_path_components(s1[a].path@).take(n),
                            '/',
                        );
                    if a < i {
                        assert(s0[a] == s1[a]);
                        assert(is_directory_of(s0, x));
                    } else {
                        assert(s1[a] == entries@[i as int]);
                        assert(short_prefix(parts, last as int, x));
                    }
                }
                if is_directory_of(s0, x) {
                    let (a, n) = choose|a: int, n: int|
                        0 <= a < s0.len() && 1 <= n < spec_path_components(s0[a].path@).len() && x == join_with(
                            #[trigger] spec_path_components(s0[a].path@).take(n),
                            '/',
                        );
                    assert(s1[a] == s0[a]);
                    assert(is_directory_of(s1, x));
                }
                if short_prefix(parts, last as int, x) {
                    let n = choose|n: int| 1 <= n <= last && x == join_with(#[trigger] parts.take(n), '/');
                    assert(s1[i as int] == entries@[i as int]);
                    assert(x == join_with(spec_path_components(s1[i as int].path@).take(n), '/'));
                    assert(is_directory_of(s1, x));
                }
            }
        }
        i = i + 1;
    }
    assert(entries@.take(entries@.len() as int) =~= entries@);
    dirs
}

/// The position of the first key equal to `key`, or -1.
pub open spec fn first_key(keys: Seq<Vec<u8>>, key: Seq<u8>) -> int
    decreases keys.len(),
{
    if keys.len() == 0 {
        -1
    } else if keys[0]@ == key {
        0
    } else {
        let r = first_key(keys.drop_first(), key);
        if r < 0 {
            -1
        } else {
            r + 1
        }
    }
}

/// `first_key` finds the first equal key.
proof fn lemma_first_key(keys: Seq<Vec<u8>>, key: Seq<u8>)
    ensures
        -1 <= first_key(keys, key) < keys.len(),
        first_key(keys, key) >= 0 ==> keys[first_key(keys, key)]@ == key,
        first_key(keys, key) >= 0 ==> forall|j: int| 0 <= j < first_key(keys, key) ==> keys[j]@ != key,
        first_key(keys, key) < 0 ==> forall|j: int| 0 <= j < keys.len() ==> keys[j]@ != key,
    decreases keys.len(),
{
    if keys.len() > 0 {
        lemma_first_key(keys.drop_first(), key);
        assert forall|j: int| 1 <= j < keys.len() implies keys[j] == keys.drop_first()[j - 1] by {}
    }
}

/// Whether `a` and `b` hold the same bytes.
fn same_bytes(a: &Vec<u8>, b: &Vec<u8>) -> (r: bool)
    ensures
        r == (a@ == b@),
{
    if a.len() != b.len() {
        return false;
    }
    let mut i: usize = 0;
    while i < a.len()
        invariant
            a@.len() == b@.len(),
            i <= a@.len(),
            forall|k: int| 0 <= k < i ==> a@[k] == b@[k],
        decreases a@.len() - i,
    {
        if a[i] != b[i] {
            return false;
        }
        i = i + 1;
    }
    assert(a@ =~= b@);
    true
}

/// Adds the file `name` with `bytes` to `directory`. `keys[i]` is the
/// normalized path key of entry `i` and `key` that of the new path: an
/// entry with an equal key gets the new content, otherwise a new entry is
/// appended under the next identifier. Returns the replaced entry's position.
pub fn import_file(
    entries: &mut Vec<DraftEntry>,
    next_entry_id: &mut u64,
    keys: &Vec<Vec<u8>>,
    directory: &str,
    name: &str,
    key: &Vec<u8>,
    bytes: Vec<u8>,
    compression: Compression,
) -> (replaced: Option<usize>)
    requires
        keys@.len() == old(entries)@.len(),
    ensures
        ({
            let k = first_key(keys@, key@);
            &&& k >= 0 ==> {
                let (o, n) = (old(entries)@[k], final(entries)@[k]);
                &&& replaced == Some(k as usize)
                &&& *final(next_entry_id) == *old(next_entry_id)
                &&& final(entries)@ == old(entries)@.update(k, n)
                &&& n.bytes matches Some(b) && b@ == bytes@
                &&& n.size == bytes@.len() && n.packed_size is None && n.segments is None
                &&& n.id == o.id && n.source_id == o.source_id && n.path == o.path
                    && n.compression == o.compression && n.volume == o.volume
            }
            &&& k < 0 ==> {
                let n = final(entries)@.last();
                &&& replaced is None
                &&& *final(next_entry_id) == spec_advance_id(*old(next_entry_id))
                &&& final(entries)@ == old(entries)@.push(n)
                &&& n.id == *old(next_entry_id) && n.source_id is None
                &&& n.path@ == spec_join_path(directory@, name@)
                &&& n.bytes matches Some(b) && b@ == bytes@
                &&& n.size == bytes@.len() && n.packed_size is None && n.segments is None
                &&& n.compression == compression && n.volume == 0
            }
        }),
{
    proof {
        lemma_first_key(keys@, key@);
    }
    let mut k: usize = 0;
    while k < keys.len()
        invariant
            k <= keys@.len(),
            keys@.len() == entries@.len(),
            *entries == *old(entries),
            *next_entry_id == *old(next_entry_id),
            forall|j: int| 0 <= j < k ==> keys@[j]@ != key@,
            -1 <= first_key(keys@, key@) < keys@.len(),
            first_key(keys@, key@) >= 0 ==> keys@[first_key(keys@, key@)]@ == key@,
            first_key(keys@, key@) >= 0 ==> forall|j: int| 0 <= j < first_key(keys@, key@) ==> keys@[j]@ != key@,
            first_key(keys@, key@) < 0 ==> forall|j: int| 0 <= j < keys@.len() ==> keys@[j]@ != key@,
        decreases keys@.len() - k,
    {
        if same_bytes(&keys[k], key) {
            proof {
                let f = first_key(keys@, key@);
                if f < 0 {
                    assert(keys@[k as int]@ != key@);
                } else if f < k {
                    assert(keys@[f]@ != key@);
                } else if f > k {
                    assert(keys@[k as int]@ != key@);
                }
            }
            entries[k].replace_bytes(bytes);
            return Some(k);
        }
        k = k + 1;
    }
    let id = *next_entry_id;
    *next_entry_id = advance_id(id);
    let path = join_path(directory, name);
    entries.push(DraftEntry::replacement(id, path, bytes, compression));
    None
}

/// Whether `d` is the draft of the opened entry `e`.
pub open spec fn drafted_from(d: DraftEntry, e: EntrySummary) -> bool {
    &&& d.id == e.id + 1 && d.source_id == Some(e.id) && d.path@ == e.path@ && d.bytes is None
    &&& d.size == e.size && d.packed_size == e.packed_size && d.compression == e.compression
    &&& d.volume == e.volume
    &&& d.segments matches Some(s) && s@ == e.segments@
}

/// The entries of a freshly opened archive and the identifier for the next
/// added file: one past the number of entries.
pub fn opened_entries(summaries: Vec<EntrySummary>) -> (r: (Vec<DraftEntry>, u64))
    requires
        summaries@.len() < u64::MAX,
        forall|i: int| 0 <= i < summaries@.len() ==> #[trigger] summaries@[i].id < u64::MAX,
    ensures
        r.0@.len() == summaries@.len(),
        r.1 == summaries@.len() + 1,
        forall|i: int|
            0 <= i < r.0@.len() ==> drafted_from(#[trigger] r.0@[i], summaries@[i]),
{
    let n = summaries.len();
    let ghost all = summaries@;
    let mut rest = summaries;
    let mut reversed: Vec<DraftEntry> = Vec::new();
    while rest.len() > 0
        invariant
            rest@.len() + reversed@.len() == n,
            n == all.len(),
            rest@ == all.take(rest@.len() as int),
            forall|i: int| 0 <= i < all.len() ==> #[trigger] all[i].id < u64::MAX,
            forall|j: int|
                0 <= j < reversed@.len() ==> drafted_from(#[trigger] reversed@[j], all[n - 1 - j]),
        decreases rest@.len(),
    {
        let ghost len = rest@.len();
        let e = rest.pop().unwrap();
        assert(e == all[len - 1]);
        assert(rest@ =~= all.take(len - 1));
        reversed.push(DraftEntry::from_summary(e));
    }
    let mut out: Vec<DraftEntry> = Vec::new();
    while reversed.len() > 0
        invariant
            reversed@.len() + out@.len() == n,
            n == all.len(),
            forall|j: int|
                0 <= j < reversed@.len() ==> drafted_from(#[trigger] reversed@[j], all[n - 1 - j]),
            forall|i: int|
                0 <= i < out@.len() ==> drafted_from(#[trigger] out@[i], all[i]),
        decreases reversed@.len(),
    {
        let ghost snapshot = reversed@;
        let d = reversed.pop().unwrap();
        assert(d == snapshot[snapshot.len() - 1]);
        assert(reversed@ =~= snapshot.drop_last());
        out.push(d);
    }
    (out, n as u64 + 1)
}


/// The class of the browser grid, by which side panels are shown.
pub fn grid_class(tree_visible: bool, inspector_visible: bool) -> (c: &'static str)
    ensures
        tree_visible && inspector_visible ==> c@ == "dzip-browser-grid"@,
        tree_visible && !inspector_visible ==> c@ == "dzip-browser-grid no-inspector"@,
        !tree_visible && inspector_visible ==> c@ == "dzip-browser-grid no-tree"@,
        !tree_visible && !inspector_visible ==> c@ == "dzip-browser-grid no-tree no-inspector"@,
{
    if tree_visible {
        if inspector_visible {
            "dzip-browser-grid"
        } else {
            "dzip-browser-grid no-inspector"
        }
    } else if inspector_visible {
        "dzip-browser-grid no-tree"
    } else {
        "dzip-browser-grid no-tree no-inspector"
    }
}


impl OpenError {
    /// The message shown when the dropped files cannot be opened.
    pub fn message(self) -> (s: String)
        ensures
            self == OpenError::NoMainArchive ==> s@ == "请选择一个 .dz 或 .dzip 主文件"@,
            self == OpenError::SeveralMainArchives ==> s@ == "一次只能打开一个 DZip 主文件；请分别打开多个归档"@,
    {
        match self {
            OpenError::NoMainArchive => "请选择一个 .dz 或 .dzip 主文件".to_string(),
            OpenError::SeveralMainArchives => "一次只能打开一个 DZip 主文件；请分别打开多个归档".to_string(),
        }
    }
}

} // verus!
