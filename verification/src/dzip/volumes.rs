//! Pairing the auxiliary volume files a user supplies with the volume names
//! an archive's index expects, and the checks made before an archive is built.
use vstd::prelude::*;

use crate::dzip::archive::{repeats_earlier, same_bytes, DraftEntry};
use crate::dzip::service::{basename, normalized_name, spec_basename, spec_normalized_name};
use crate::dzip::workspace::{insert_sorted, strictly_increasing};
use crate::text::{chars_of, push_str, string_of_all, trim, trim_bounds, views, CharSet};

verus! {

/// The matching keys of the supplied files, in the order they were supplied.
pub open spec fn supplied_keys(supplied: Seq<String>) -> Seq<Seq<char>> {
    Seq::new(supplied.len(), |j: int| spec_normalized_name(supplied[j]@))
}

/// Whether an earlier file has the same key as file `j`.
pub open spec fn has_earlier(keys: Seq<Seq<char>>, j: int) -> bool {
    exists|k: int| 0 <= k < j && keys[k] == keys[j]
}

/// `j` is the first file whose key repeats an earlier one.
pub open spec fn first_duplicate_at(keys: Seq<Seq<char>>, j: int) -> bool {
    &&& 0 <= j < keys.len()
    &&& has_earlier(keys, j)
    &&& forall|i: int| 0 <= i < j ==> !#[trigger] has_earlier(keys, i)
}

/// No two supplied files share a key.
pub open spec fn keys_distinct(keys: Seq<Seq<char>>) -> bool {
    forall|j: int| 0 <= j < keys.len() ==> !#[trigger] has_earlier(keys, j)
}

/// File `j` is still unclaimed and has exactly the key `key`.
pub open spec fn exact_at(keys: Seq<Seq<char>>, taken: Seq<bool>, key: Seq<char>, j: int) -> bool {
    0 <= j < keys.len() && j < taken.len() && !taken[j] && keys[j] == key
}

/// File `j` is still unclaimed and its key ends in the component `base`.
pub open spec fn base_at(keys: Seq<Seq<char>>, taken: Seq<bool>, base: Seq<char>, j: int) -> bool {
    0 <= j < keys.len() && j < taken.len() && !taken[j] && spec_basename(keys[j]) == base
}

/// The first unclaimed file with key `key`, or -1.
pub open spec fn first_exact(keys: Seq<Seq<char>>, taken: Seq<bool>, key: Seq<char>) -> int {
    if exists|j: int| exact_at(keys, taken, key, j) && forall|k: int| 0 <= k < j ==> !#[trigger] exact_at(keys, taken, key, k) {
        choose|j: int| exact_at(keys, taken, key, j) && forall|k: int| 0 <= k < j ==> !#[trigger] exact_at(keys, taken, key, k)
    } else {
        -1
    }
}

/// The first unclaimed file whose key ends in `base`, or -1.
pub open spec fn first_base(keys: Seq<Seq<char>>, taken: Seq<bool>, base: Seq<char>) -> int {
    if exists|j: int| base_at(keys, taken, base, j) && forall|k: int| 0 <= k < j ==> !#[trigger] base_at(keys, taken, base, k) {
        choose|j: int| base_at(keys, taken, base, j) && forall|k: int| 0 <= k < j ==> !#[trigger] base_at(keys, taken, base, k)
    } else {
        -1
    }
}

/// How many of the first `n` files are unclaimed and end in `base`.
pub open spec fn base_count(keys: Seq<Seq<char>>, taken: Seq<bool>, base: Seq<char>, n: int) -> nat
    decreases n,
{
    if n <= 0 {
        0
    } else {
        base_count(keys, taken, base, n - 1) + if base_at(keys, taken, base, n - 1) { 1nat } else { 0nat }
    }
}

/// Where matching the expected volumes stands: every volume from some point
/// on was settled (pairs of volume number and supplied file, and which files
/// are claimed), or two candidates matched one volume by file name, or a
/// volume number does not fit in 16 bits.
pub enum MatchOutcome {
    Done(Seq<(int, int)>, Seq<bool>),
    Ambiguous(int),
    Overflow,
}

/// `pairs` put in front of what an outcome settled.
pub open spec fn after_pairs(pairs: Seq<(int, int)>, o: MatchOutcome) -> MatchOutcome {
    match o {
        MatchOutcome::Done(rest, taken) => MatchOutcome::Done(pairs + rest, taken),
        other => other,
    }
}

/// Matching expected volume `e` (numbered `e + 1`) and all after it, with the
/// files in `taken` already claimed: a file with exactly the volume's key
/// wins; failing that, the one unclaimed file with the same last component;
/// with none the volume stays missing, with several the match is ambiguous.
pub open spec fn match_from(expected: Seq<Seq<char>>, keys: Seq<Seq<char>>, taken: Seq<bool>, e: int) -> MatchOutcome
    decreases expected.len() - e,
{
    if e < 0 || e >= expected.len() {
        MatchOutcome::Done(seq![], taken)
    } else if e + 1 > 65535 {
        MatchOutcome::Overflow
    } else {
        let key = spec_normalized_name(expected[e]);
        let x = first_exact(keys, taken, key);
        if x >= 0 {
            after_pairs(seq![(e + 1, x)], match_from(expected, keys, taken.update(x, true), e + 1))
        } else {
            let base = spec_basename(key);
            let c = base_count(keys, taken, base, keys.len() as int);
            if c == 0 {
                match_from(expected, keys, taken, e + 1)
            } else if c == 1 {
                let y = first_base(keys, taken, base);
                after_pairs(seq![(e + 1, y)], match_from(expected, keys, taken.update(y, true), e + 1))
            } else {
                MatchOutcome::Ambiguous(e)
            }
        }
    }
}

proof fn lemma_base_count_zero(keys: Seq<Seq<char>>, taken: Seq<bool>, base: Seq<char>, n: int)
    requires
        base_count(keys, taken, base, n) == 0,
    ensures
        forall|k: int| 0 <= k < n ==> !#[trigger] base_at(keys, taken, base, k),
    decreases n,
{
    if n > 0 {
        lemma_base_count_zero(keys, taken, base, n - 1);
    }
}

proof fn lemma_base_count_first(keys: Seq<Seq<char>>, taken: Seq<bool>, base: Seq<char>, n: int)
    requires
        base_count(keys, taken, base, n) > 0,
    ensures
        exists|j: int| base_at(keys, taken, base, j) && forall|k: int| 0 <= k < j ==> !#[trigger] base_at(keys, taken, base, k),
    decreases n,
{
    if base_count(keys, taken, base, n - 1) > 0 {
        lemma_base_count_first(keys, taken, base, n - 1);
    } else {
        lemma_base_count_zero(keys, taken, base, n - 1);
        assert(base_at(keys, taken, base, n - 1));
    }
}

/// What a settled match from volume `e` on promises about its pairs, given
/// the files already claimed in `taken`.
pub open spec fn pairs_sound(pairs: Seq<(int, int)>, taken: Seq<bool>, claimed: Seq<bool>, e: int, n: int) -> bool {
    &&& claimed.len() == n
    &&& forall|k: int| 0 <= k < n && taken[k] ==> #[trigger] claimed[k]
    &&& forall|i: int|
        0 <= i < pairs.len() ==> 0 <= #[trigger] pairs[i].1 < n && !taken[pairs[i].1] && claimed[pairs[i].1] && e
            < pairs[i].0
    &&& forall|i: int, j: int|
        0 <= i < j < pairs.len() ==> #[trigger] pairs[i].1 != #[trigger] pairs[j].1 && pairs[i].0 < pairs[j].0
}

proof fn lemma_match_from_sound(expected: Seq<Seq<char>>, keys: Seq<Seq<char>>, taken: Seq<bool>, e: int)
    requires
        0 <= e,
        taken.len() == keys.len(),
    ensures
        match_from(expected, keys, taken, e) matches MatchOutcome::Done(p, t) ==> pairs_sound(
            p,
            taken,
            t,
            e,
            keys.len() as int,
        ),
    decreases expected.len() - e,
{
    if e < expected.len() && e + 1 <= 65535 {
        let key = spec_normalized_name(expected[e]);
        let x = first_exact(keys, taken, key);
        if x >= 0 {
            assert(exact_at(keys, taken, key, x));
            let next = taken.update(x, true);
            lemma_match_from_sound(expected, keys, next, e + 1);
            if let MatchOutcome::Done(rest, t) = match_from(expected, keys, next, e + 1) {
                let p = seq![(e + 1, x)] + rest;
                assert(match_from(expected, keys, taken, e) == MatchOutcome::Done(p, t));
                assert(pairs_sound(p, taken, t, e, keys.len() as int)) by {
                    assert forall|i: int| 0 <= i < p.len() implies 0 <= #[trigger] p[i].1 < keys.len() && !taken[p[i].1]
                        && t[p[i].1] && e < p[i].0 by {
                        if i > 0 {
                            assert(p[i] == rest[i - 1]);
                        }
                    }
                    assert forall|i: int, j: int| 0 <= i < j < p.len() implies #[trigger] p[i].1 != #[trigger] p[j].1
                        && p[i].0 < p[j].0 by {
                        assert(p[j] == rest[j - 1]);
                        assert(0 <= rest[j - 1].1 < keys.len() && !next[rest[j - 1].1] && e + 1 < rest[j - 1].0);
                        if i > 0 {
                            assert(p[i] == rest[i - 1]);
                            assert(rest[i - 1].1 != rest[j - 1].1);
                        }
                    }
                }
            }
        } else {
            let base = spec_basename(key);
            let c = base_count(keys, taken, base, keys.len() as int);
            if c == 0 {
                lemma_match_from_sound(expected, keys, taken, e + 1);
            } else if c == 1 {
                lemma_base_count_first(keys, taken, base, keys.len() as int);
                let y = first_base(keys, taken, base);
                assert(base_at(keys, taken, base, y));
                let next = taken.update(y, true);
                lemma_match_from_sound(expected, keys, next, e + 1);
                if let MatchOutcome::Done(rest, t) = match_from(expected, keys, next, e + 1) {
                    let p = seq![(e + 1, y)] + rest;
                    assert(match_from(expected, keys, taken, e) == MatchOutcome::Done(p, t));
                    assert(pairs_sound(p, taken, t, e, keys.len() as int)) by {
                        assert forall|i: int| 0 <= i < p.len() implies 0 <= #[trigger] p[i].1 < keys.len()
                            && !taken[p[i].1] && t[p[i].1] && e < p[i].0 by {
                            if i > 0 {
                                assert(p[i] == rest[i - 1]);
                            }
                        }
                        assert forall|i: int, j: int| 0 <= i < j < p.len() implies #[trigger] p[i].1
                            != #[trigger] p[j].1 && p[i].0 < p[j].0 by {
                            assert(p[j] == rest[j - 1]);
                            assert(0 <= rest[j - 1].1 < keys.len() && !next[rest[j - 1].1] && e + 1 < rest[j - 1].0);
                            if i > 0 {
                                assert(p[i] == rest[i - 1]);
                                assert(rest[i - 1].1 != rest[j - 1].1);
                            }
                        }
                    }
                }
            }
        }
    }
}

/// A settled match pairs each supplied file with at most one volume, each
/// volume with at most one file, and lists the volumes in ascending order.
pub proof fn lemma_volume_match_pairs_distinct(expected: Seq<String>, supplied: Seq<String>)
    ensures
        volume_match(expected, supplied) matches MatchOutcome::Done(pairs, t) ==> {
            &&& forall|i: int| 0 <= i < pairs.len() ==> 0 <= #[trigger] pairs[i].1 < supplied.len() && 1 <= pairs[i].0
            &&& forall|i: int, j: int|
                0 <= i < j < pairs.len() ==> #[trigger] pairs[i].1 != #[trigger] pairs[j].1 && pairs[i].0 < pairs[j].0
        },
{
    let keys = supplied_keys(supplied);
    lemma_match_from_sound(views(expected), keys, none_taken(keys.len()), 0);
}

/// No file claimed yet.
pub open spec fn none_taken(n: nat) -> Seq<bool> {
    Seq::new(n, |j: int| false)
}

/// The whole match of `expected` against `supplied`.
pub open spec fn volume_match(expected: Seq<String>, supplied: Seq<String>) -> MatchOutcome {
    let keys = supplied_keys(supplied);
    match_from(views(expected), keys, none_taken(keys.len()), 0)
}

/// Volume numbers and supplied-file indices as integers.
pub open spec fn pair_view(v: Seq<(u16, usize)>) -> Seq<(int, int)> {
    Seq::new(v.len(), |i: int| (v[i].0 as int, v[i].1 as int))
}

/// Why supplied volume files cannot be used with an archive.
#[derive(Clone, Debug, PartialEq, Eq)]
pub enum VolumeMatchError {
    /// The supplied file at this index has the same key as an earlier one.
    DuplicateVolume(usize),
    /// The archive lists more volumes than 16-bit numbers can name.
    VolumeIdOverflow,
    /// Several supplied files match the expected volume at this index by file name.
    Ambiguous(usize),
    /// Keys of supplied files that no volume claimed, in order.
    Unexpected(Vec<String>),
}

/// The first unclaimed file with key `key`.
fn find_exact(keys: &Vec<String>, taken: &Vec<bool>, key: &String) -> (r: Option<usize>)
    requires
        keys@.len() == taken@.len(),
    ensures
        match r {
            Some(x) => x as int == first_exact(views(keys@), taken@, key@) && x < keys@.len(),
            None => first_exact(views(keys@), taken@, key@) == -1,
        },
{
    let ghost k = views(keys@);
    let mut j: usize = 0;
    while j < keys.len()
        invariant
            j <= keys@.len(),
            keys@.len() == taken@.len(),
            k == views(keys@),
            forall|i: int| 0 <= i < j ==> !#[trigger] exact_at(k, taken@, key@, i),
        decreases keys@.len() - j,
    {
        assert(k[j as int] == keys@[j as int]@);
        if !taken[j] && keys[j] == *key {
            assert(exact_at(k, taken@, key@, j as int));
            proof {
                let c = choose|c: int| exact_at(k, taken@, key@, c) && forall|i: int| 0 <= i < c ==> !#[trigger] exact_at(k, taken@, key@, i);
                if c < j {
                } else if c > j {
                    assert(!exact_at(k, taken@, key@, j as int));
                }
            }
            return Some(j);
        }
        j = j + 1;
    }
    proof {
        assert forall|c: int| !(exact_at(k, taken@, key@, c) && forall|i: int| 0 <= i < c ==> !#[trigger] exact_at(k, taken@, key@, i)) by {
            if exact_at(k, taken@, key@, c) {
                assert(0 <= c < j);
            }
        }
    }
    None
}

/// How many unclaimed files end in `base`, and the first of them.
fn count_base(keys: &Vec<String>, taken: &Vec<bool>, base: &String) -> (r: (usize, usize))
    requires
        keys@.len() == taken@.len(),
    ensures
        r.0 as nat == base_count(views(keys@), taken@, base@, keys@.len() as int),
        r.0 > 0 ==> r.1 as int == first_base(views(keys@), taken@, base@) && r.1 < keys@.len(),
{
    let ghost k = views(keys@);
    let mut count: usize = 0;
    let mut first: usize = 0;
    let mut j: usize = 0;
    while j < keys.len()
        invariant
            j <= keys@.len(),
            keys@.len() == taken@.len(),
            k == views(keys@),
            count <= j,
            count as nat == base_count(k, taken@, base@, j as int),
            count == 0 ==> forall|i: int| 0 <= i < j ==> !#[trigger] base_at(k, taken@, base@, i),
            count > 0 ==> first < j && base_at(k, taken@, base@, first as int) && forall|i: int|
                0 <= i < first ==> !#[trigger] base_at(k, taken@, base@, i),
        decreases keys@.len() - j,
    {
        assert(k[j as int] == keys@[j as int]@);
        let here = !taken[j] && basename(keys[j].as_str()) == *base;
        if here {
            assert(base_at(k, taken@, base@, j as int));
            if count == 0 {
                first = j;
            }
            count = count + 1;
        } else {
            assert(!base_at(k, taken@, base@, j as int));
        }
        j = j + 1;
    }
    proof {
        if count > 0 {
            let c = choose|c: int| base_at(k, taken@, base@, c) && forall|i: int| 0 <= i < c ==> !#[trigger] base_at(k, taken@, base@, i);
            assert(base_at(k, taken@, base@, first as int));
            if c < first {
            } else if c > first {
                assert(!base_at(k, taken@, base@, first as int));
            }
        }
    }
    (count, first)
}


/// The keys of `supplied`, or the index of the first file whose key repeats
/// an earlier one.
fn distinct_keys(supplied: &Vec<String>) -> (r: Result<Vec<String>, usize>)
    ensures
        match r {
            Ok(keys) => views(keys@) == supplied_keys(supplied@) && keys_distinct(supplied_keys(supplied@)),
            Err(j) => first_duplicate_at(supplied_keys(supplied@), j as int),
        },
{
    let ghost all = supplied_keys(supplied@);
    let mut keys: Vec<String> = Vec::new();
    let mut j: usize = 0;
    while j < supplied.len()
        invariant
            j <= supplied@.len(),
            all == supplied_keys(supplied@),
            all.len() == supplied@.len(),
            keys@.len() == j,
            views(keys@) == all.take(j as int),
            forall|i: int| 0 <= i < j ==> !#[trigger] has_earlier(all, i),
        decreases supplied@.len() - j,
    {
        let key = normalized_name(supplied[j].as_str());
        assert(key@ == all[j as int]);
        let mut k: usize = 0;
        while k < keys.len()
            invariant
                k <= keys@.len(),
                keys@.len() == j,
                j < supplied@.len(),
                all == supplied_keys(supplied@),
                all.len() == supplied@.len(),
                forall|i: int| 0 <= i < j ==> !#[trigger] has_earlier(all, i),
                views(keys@) == all.take(j as int),
                key@ == all[j as int],
                forall|i: int| 0 <= i < k ==> all[i] != all[j as int],
            decreases keys@.len() - k,
        {
            assert(views(keys@)[k as int] == keys@[k as int]@);
            if keys[k] == key {
                assert(all[k as int] == all[j as int]);
                assert(has_earlier(all, j as int));
                return Err(j);
            }
            k = k + 1;
        }
        assert(!has_earlier(all, j as int));
        keys.push(key);
        assert(views(keys@) =~= all.take(j + 1));
        j = j + 1;
    }
    assert(all.take(j as int) =~= all);
    Ok(keys)
}

/// Pairs each auxiliary volume an archive expects (`expected`, in volume
/// order) with a supplied file (`supplied`, by name). Files are matched by
/// their trimmed, slash-normalized, ASCII lower-case names; a volume without
/// an exact match takes the single unclaimed file with the same last
/// component. Each pair is the volume's number (its position plus one) and
/// the index of the supplied file; volumes without a file are left out.
/// Every supplied file must be claimed.
pub fn match_auxiliary_volumes(expected: &Vec<String>, supplied: &Vec<String>) -> (r: Result<
    Vec<(u16, usize)>,
    VolumeMatchError,
>)
    ensures
        match r {
            Ok(pairs) => keys_distinct(supplied_keys(supplied@)) && (volume_match(expected@, supplied@) matches MatchOutcome::Done(p, t)
                && p == pair_view(pairs@) && forall|j: int| 0 <= j < t.len() ==> #[trigger] t[j]),
            Err(VolumeMatchError::DuplicateVolume(j)) => first_duplicate_at(supplied_keys(supplied@), j as int),
            Err(VolumeMatchError::VolumeIdOverflow) => keys_distinct(supplied_keys(supplied@))
                && volume_match(expected@, supplied@) == MatchOutcome::Overflow,
            Err(VolumeMatchError::Ambiguous(e)) => keys_distinct(supplied_keys(supplied@))
                && volume_match(expected@, supplied@) == MatchOutcome::Ambiguous(e as int),
            Err(VolumeMatchError::Unexpected(names)) => keys_distinct(supplied_keys(supplied@)) && (volume_match(expected@, supplied@) matches MatchOutcome::Done(p, t)
                && names@.len() > 0 && strictly_increasing(views(names@)) && forall|y: Seq<char>|
                #[trigger] views(names@).contains(y) <==> exists|j: int|
                    0 <= j < t.len() && !t[j] && supplied_keys(supplied@)[j] == y),
        },
        r matches Ok(pairs) ==> {
            &&& forall|i: int|
                0 <= i < pairs@.len() ==> (#[trigger] pairs@[i]).1 < supplied@.len() && 1 <= pairs@[i].0
            &&& forall|i: int, j: int|
                0 <= i < j < pairs@.len() ==> (#[trigger] pairs@[i]).1 != (#[trigger] pairs@[j]).1 && pairs@[i].0
                    < pairs@[j].0
        },
{
    let keys = match distinct_keys(supplied) {
        Ok(keys) => keys,
        Err(j) => {
            return Err(VolumeMatchError::DuplicateVolume(j));
        },
    };
    let ghost k = views(keys@);
    let ghost x = views(expected@);
    let mut taken: Vec<bool> = Vec::new();
    let mut i: usize = 0;
    while i < keys.len()
        invariant
            i <= keys@.len(),
            taken@ =~= none_taken(i as nat),
        decreases keys@.len() - i,
    {
        taken.push(false);
        i = i + 1;
    }
    let ghost full = match_from(x, k, taken@, 0);
    assert(full == volume_match(expected@, supplied@));
    let mut pairs: Vec<(u16, usize)> = Vec::new();
    let mut e: usize = 0;
    assert(pair_view(pairs@) =~= seq![]);
    assert(full == after_pairs(pair_view(pairs@), match_from(x, k, taken@, e as int))) by {
        let m = match_from(x, k, taken@, 0);
        if let MatchOutcome::Done(s, t) = m {
            assert(seq![] + s =~= s);
        }
    }
    while e < expected.len()
        invariant
            e <= expected@.len(),
            x == views(expected@),
            k == views(keys@),
            k == supplied_keys(supplied@),
            keys_distinct(k),
            full == volume_match(expected@, supplied@),
            taken@.len() == keys@.len(),
            full == after_pairs(pair_view(pairs@), match_from(x, k, taken@, e as int)),
        decreases expected@.len() - e,
    {
        if e >= 65535 {
            return Err(VolumeMatchError::VolumeIdOverflow);
        }
        let key = normalized_name(expected[e].as_str());
        assert(key@ == spec_normalized_name(x[e as int]));
        let ghost before = taken@;
        let ghost rest_before = match_from(x, k, before, e as int);
        let claimed = match find_exact(&keys, &taken, &key) {
            Some(j) => Some(j),
            None => {
                let base = basename(key.as_str());
                let (count, first) = count_base(&keys, &taken, &base);
                if count > 1 {
                    return Err(VolumeMatchError::Ambiguous(e));
                }
                if count == 1 {
                    Some(first)
                } else {
                    None
                }
            },
        };
        match claimed {
            Some(j) => {
                taken.set(j, true);
                let ghost p = pair_view(pairs@);
                pairs.push(((e + 1) as u16, j));
                proof {
                    assert(rest_before == after_pairs(seq![(e + 1, j as int)], match_from(x, k, taken@, e + 1)));
                    assert(pair_view(pairs@) =~= p.push((e + 1, j as int)));
                    let m = match_from(x, k, taken@, e + 1);
                    if let MatchOutcome::Done(s, t) = m {
                        assert(p + (seq![(e + 1, j as int)] + s) =~= p.push((e + 1, j as int)) + s);
                    }
                }
            },
            None => {
                assert(rest_before == match_from(x, k, taken@, e + 1));
            },
        }
        e = e + 1;
    }
    let mut left: Vec<String> = Vec::new();
    let mut j: usize = 0;
    while j < keys.len()
        invariant
            j <= keys@.len(),
            k == views(keys@),
            k == supplied_keys(supplied@),
            keys_distinct(k),
            taken@.len() == keys@.len(),
            strictly_increasing(views(left@)),
            forall|y: Seq<char>|
                views(left@).contains(y) <==> exists|i: int| 0 <= i < j && !taken@[i] && #[trigger] k[i] == y,
        decreases keys@.len() - j,
    {
        assert(k[j as int] == keys@[j as int]@);
        if !taken[j] {
            let name = keys[j].clone();
            insert_sorted(&mut left, name);
        }
        assert forall|y: Seq<char>|
            views(left@).contains(y) <==> exists|i: int| 0 <= i < j + 1 && !taken@[i] && #[trigger] k[i] == y by {
            if exists|i: int| 0 <= i < j + 1 && !taken@[i] && #[trigger] k[i] == y {
                let i = choose|i: int| 0 <= i < j + 1 && !taken@[i] && #[trigger] k[i] == y;
                if i < j {
                    assert(exists|i: int| 0 <= i < j && !taken@[i] && #[trigger] k[i] == y);
                }
            }
        }
        j = j + 1;
    }
    assert(match_from(x, k, taken@, e as int) == MatchOutcome::Done(seq![], taken@));
    assert(pair_view(pairs@) + seq![] =~= pair_view(pairs@));
    assert(full == MatchOutcome::Done(pair_view(pairs@), taken@));
    if left.len() > 0 {
        assert(forall|y: Seq<char>|
            views(left@).contains(y) <==> exists|i: int|
                0 <= i < taken@.len() && !taken@[i] && supplied_keys(supplied@)[i] == y);
        Err(VolumeMatchError::Unexpected(left))
    } else {
        assert forall|i: int| 0 <= i < taken@.len() implies #[trigger] taken@[i] by {
            if !taken@[i] {
                assert(views(left@).contains(k[i]));
            }
        }
        proof {
            lemma_volume_match_pairs_distinct(expected@, supplied@);
            assert forall|i: int| 0 <= i < pairs@.len() implies (#[trigger] pairs@[i]).1 < supplied@.len() && 1
                <= pairs@[i].0 by {
                assert(pair_view(pairs@)[i] == (pairs@[i].0 as int, pairs@[i].1 as int));
            }
            assert forall|i: int, j: int| 0 <= i < j < pairs@.len() implies (#[trigger] pairs@[i]).1 != (
            #[trigger] pairs@[j]).1 && pairs@[i].0 < pairs@[j].0 by {
                assert(pair_view(pairs@)[i] == (pairs@[i].0 as int, pairs@[i].1 as int));
                assert(pair_view(pairs@)[j] == (pairs@[j].0 as int, pairs@[j].1 as int));
            }
        }
        Ok(pairs)
    }
}


/// Why an archive cannot be built from its entries.
#[derive(Clone, Copy, Debug, PartialEq, Eq, Structural)]
pub enum BuildError {
    /// There is no entry.
    NoEntries,
    /// The entry at this index has a blank path.
    BlankPath(usize),
    /// The entry at this index has the same path key as an earlier one.
    DuplicatePath(usize),
    /// More than 65535 volumes would be needed.
    TooManyVolumes,
}

/// Entry `i` is refused: its path is blank or its key repeats an earlier one.
pub open spec fn refused_at(entries: Seq<DraftEntry>, keys: Seq<Seq<u8>>, i: int) -> bool {
    trim(entries[i].path@).len() == 0 || repeats_earlier(keys, i)
}

/// `i` is the first refused entry.
pub open spec fn first_refused(entries: Seq<DraftEntry>, keys: Seq<Seq<u8>>, i: int) -> bool {
    &&& 0 <= i < entries.len()
    &&& refused_at(entries, keys, i)
    &&& forall|k: int| 0 <= k < i ==> !#[trigger] refused_at(entries, keys, k)
}

/// The volumes the first `n` entries need: one past the highest volume any
/// of them uses, and at least one.
pub open spec fn needed_volumes(entries: Seq<DraftEntry>, n: int) -> int
    decreases n,
{
    if n <= 0 {
        1
    } else {
        let rest = needed_volumes(entries, n - 1);
        let here = entries[n - 1].volume + 1;
        if here > rest {
            here
        } else {
            rest
        }
    }
}

/// The number of volumes an archive is built with: the requested count,
/// raised to what the entries need.
pub open spec fn build_volume_count(entries: Seq<DraftEntry>, requested: int) -> int {
    let needed = needed_volumes(entries, entries.len() as int);
    if requested > needed {
        requested
    } else {
        needed
    }
}

/// The checks made before an archive is built: at least one entry; then,
/// entry by entry, a non-blank path whose key (`path_keys[i]`, the key of
/// the trimmed path of entry `i`) no earlier entry has; then a volume count
/// of at most 65535, which is returned.
pub fn check_build_entries(entries: &Vec<DraftEntry>, path_keys: &Vec<Vec<u8>>, requested: usize) -> (r: Result<
    usize,
    BuildError,
>)
    requires
        path_keys@.len() == entries@.len(),
    ensures
        ({
            let keys = path_keys.deep_view();
            match r {
                Err(BuildError::NoEntries) => entries@.len() == 0,
                Err(BuildError::BlankPath(i)) => entries@.len() > 0 && first_refused(entries@, keys, i as int)
                    && trim(entries@[i as int].path@).len() == 0,
                Err(BuildError::DuplicatePath(i)) => entries@.len() > 0 && first_refused(entries@, keys, i as int)
                    && trim(entries@[i as int].path@).len() > 0,
                Err(BuildError::TooManyVolumes) => entries@.len() > 0 && (forall|k: int|
                    0 <= k < entries@.len() ==> !#[trigger] refused_at(entries@, keys, k)) && build_volume_count(
                    entries@,
                    requested as int,
                ) > 65535,
                Ok(count) => entries@.len() > 0 && (forall|k: int|
                    0 <= k < entries@.len() ==> !#[trigger] refused_at(entries@, keys, k)) && count
                    == build_volume_count(entries@, requested as int) && count <= 65535,
            }
        }),
{
    if entries.len() == 0 {
        return Err(BuildError::NoEntries);
    }
    let ghost keys = path_keys.deep_view();
    assert forall|i: int| 0 <= i < keys.len() implies #[trigger] keys[i] == path_keys@[i]@ by {}
    let n = entries.len();
    let mut j: usize = 0;
    while j < n
        invariant
            n == entries@.len(),
            n == path_keys@.len(),
            keys == path_keys.deep_view(),
            keys.len() == n,
            forall|i: int| 0 <= i < n ==> #[trigger] keys[i] == path_keys@[i]@,
            j <= n,
            forall|k: int| 0 <= k < j ==> !#[trigger] refused_at(entries@, keys, k),
        decreases n - j,
    {
        let path = chars_of(entries[j].path.as_str());
        let (lo, hi) = trim_bounds(&path, CharSet::Whitespace);
        if lo == hi {
            assert(trim(entries@[j as int].path@).len() == 0);
            return Err(BuildError::BlankPath(j));
        }
        let mut i: usize = 0;
        while i < j
            invariant
                n == path_keys@.len(),
                n == entries@.len(),
                keys.len() == n,
                forall|i: int| 0 <= i < n ==> #[trigger] keys[i] == path_keys@[i]@,
                j < n,
                i <= j,
                trim(entries@[j as int].path@).len() > 0,
                forall|k: int| 0 <= k < i ==> keys[k] != keys[j as int],
                forall|k: int| 0 <= k < j ==> !#[trigger] refused_at(entries@, keys, k),
                keys == path_keys.deep_view(),
            decreases j - i,
        {
            if same_bytes(&path_keys[i], &path_keys[j]) {
                assert(keys[i as int] == keys[j as int]);
                assert(repeats_earlier(keys, j as int));
                return Err(BuildError::DuplicatePath(j));
            }
            i = i + 1;
        }
        assert(!refused_at(entries@, keys, j as int));
        j = j + 1;
    }
    let mut needed: usize = 1;
    let mut k: usize = 0;
    while k < n
        invariant
            n == entries@.len(),
            k <= n,
            needed as int == needed_volumes(entries@, k as int),
            needed <= 65536,
        decreases n - k,
    {
        let here = entries[k].volume as usize + 1;
        if here > needed {
            needed = here;
        }
        k = k + 1;
    }
    let count = if requested > needed { requested } else { needed };
    if count > 65535 {
        return Err(BuildError::TooManyVolumes);
    }
    Ok(count)
}

/// The sum of segment lengths.
pub open spec fn length_sum(lengths: Seq<usize>) -> int
    decreases lengths.len(),
{
    if lengths.len() == 0 {
        0
    } else {
        length_sum(lengths.drop_last()) + lengths.last()
    }
}

proof fn lemma_length_sum_prefix(lengths: Seq<usize>, i: int)
    requires
        0 <= i <= lengths.len(),
    ensures
        length_sum(lengths.take(i)) <= length_sum(lengths),
    decreases lengths.len(),
{
    if i < lengths.len() {
        assert(lengths.drop_last().take(i) =~= lengths.take(i));
        lemma_length_sum_prefix(lengths.drop_last(), i);
    } else {
        assert(lengths.take(i) =~= lengths);
    }
}

/// The byte spans of an entry's segments, when their lengths add up to the
/// entry's size `total`; each span is a start and an end, the first starting
/// at 0 and each next one where the one before ended.
pub fn segment_spans(lengths: &Vec<usize>, total: usize) -> (r: Option<Vec<(usize, usize)>>)
    ensures
        r is Some <==> length_sum(lengths@) == total,
        r matches Some(spans) ==> spans@.len() == lengths@.len() && forall|i: int|
            0 <= i < spans@.len() ==> #[trigger] spans@[i].0 == length_sum(lengths@.take(i)) && spans@[i].1
                == spans@[i].0 + lengths@[i],
{
    let mut spans: Vec<(usize, usize)> = Vec::new();
    let mut offset: usize = 0;
    let mut i: usize = 0;
    assert(lengths@.take(0) =~= seq![]);
    while i < lengths.len()
        invariant
            i <= lengths@.len(),
            spans@.len() == i,
            offset as int == length_sum(lengths@.take(i as int)),
            forall|k: int|
                0 <= k < i ==> #[trigger] spans@[k].0 == length_sum(lengths@.take(k)) && spans@[k].1 == spans@[k].0
                    + lengths@[k],
        decreases lengths@.len() - i,
    {
        assert(lengths@.take(i + 1).drop_last() =~= lengths@.take(i as int));
        if lengths[i] > total || offset > total - lengths[i] {
            proof {
                lemma_length_sum_prefix(lengths@, i + 1);
            }
            return None;
        }
        let end = offset + lengths[i];
        spans.push((offset, end));
        offset = end;
        i = i + 1;
    }
    assert(lengths@.take(i as int) =~= lengths@);
    if offset == total {
        Some(spans)
    } else {
        None
    }
}

/// The sum of file sizes.
pub open spec fn size_sum(sizes: Seq<u64>) -> int
    decreases sizes.len(),
{
    if sizes.len() == 0 {
        0
    } else {
        size_sum(sizes.drop_last()) + sizes.last()
    }
}

proof fn lemma_size_sum_prefix(sizes: Seq<u64>, i: int)
    requires
        0 <= i <= sizes.len(),
    ensures
        size_sum(sizes.take(i)) <= size_sum(sizes),
    decreases sizes.len(),
{
    if i < sizes.len() {
        assert(sizes.drop_last().take(i) =~= sizes.take(i));
        lemma_size_sum_prefix(sizes.drop_last(), i);
    } else {
        assert(sizes.take(i) =~= sizes);
    }
}

/// The total size of an archive's files: `main` plus every volume size, or
/// `None` when it does not fit in 64 bits.
pub fn source_size(main: u64, volumes: &Vec<u64>) -> (r: Option<u64>)
    ensures
        match r {
            Some(total) => total == main + size_sum(volumes@),
            None => main + size_sum(volumes@) > u64::MAX,
        },
{
    let mut total: u64 = main;
    let mut i: usize = 0;
    assert(volumes@.take(0) =~= seq![]);
    while i < volumes.len()
        invariant
            i <= volumes@.len(),
            total == main + size_sum(volumes@.take(i as int)),
        decreases volumes@.len() - i,
    {
        assert(volumes@.take(i + 1).drop_last() =~= volumes@.take(i as int));
        match total.checked_add(volumes[i]) {
            Some(t) => {
                total = t;
            },
            None => {
                proof {
                    lemma_size_sum_prefix(volumes@, i + 1);
                }
                return None;
            },
        }
        i = i + 1;
    }
    assert(volumes@.take(i as int) =~= volumes@);
    Some(total)
}


/// `parts` with `sep` between each two of them.
pub open spec fn join_text(parts: Seq<Seq<char>>, sep: Seq<char>) -> Seq<char>
    decreases parts.len(),
{
    if parts.len() == 0 {
        Seq::empty()
    } else if parts.len() == 1 {
        parts[0]
    } else {
        join_text(parts.drop_last(), sep) + sep + parts.last()
    }
}

/// The message that reports a refused set of volume files; `expected` and
/// `supplied` are the names the match was made from.
pub open spec fn volume_error_text(e: VolumeMatchError, expected: Seq<String>, supplied: Seq<String>) -> Seq<char> {
    match e {
        VolumeMatchError::DuplicateVolume(j) => "存在重复分卷："@ + supplied[j as int]@,
        VolumeMatchError::VolumeIdOverflow => "分卷编号溢出"@,
        VolumeMatchError::Ambiguous(i) => "分卷名称不明确："@ + expected[i as int]@,
        VolumeMatchError::Unexpected(keys) => "包含不属于该归档的分卷："@ + join_text(views(keys@), ", "@),
    }
}

impl VolumeMatchError {
    /// The message shown when the supplied volume files are refused.
    pub fn message(&self, expected: &Vec<String>, supplied: &Vec<String>) -> (s: String)
        requires
            *self matches VolumeMatchError::DuplicateVolume(j) ==> j < supplied@.len(),
            *self matches VolumeMatchError::Ambiguous(i) ==> i < expected@.len(),
        ensures
            s@ == volume_error_text(*self, expected@, supplied@),
    {
        match self {
            VolumeMatchError::DuplicateVolume(j) => {
                let mut v = chars_of("存在重复分卷：");
                push_str(&mut v, supplied[*j].as_str());
                string_of_all(&v)
            },
            VolumeMatchError::VolumeIdOverflow => "分卷编号溢出".to_string(),
            VolumeMatchError::Ambiguous(i) => {
                let mut v = chars_of("分卷名称不明确：");
                push_str(&mut v, expected[*i].as_str());
                string_of_all(&v)
            },
            VolumeMatchError::Unexpected(keys) => {
                let ghost all = views(keys@);
                let mut v = chars_of("包含不属于该归档的分卷：");
                let ghost head = v@;
                let mut k: usize = 0;
                while k < keys.len()
                    invariant
                        k <= keys@.len(),
                        all == views(keys@),
                        all.len() == keys@.len(),
                        v@ == head + join_text(all.take(k as int), ", "@),
                    decreases keys@.len() - k,
                {
                    let ghost before = v@;
                    if k > 0 {
                        push_str(&mut v, ", ");
                    }
                    push_str(&mut v, keys[k].as_str());
                    proof {
                        let t = all.take(k + 1);
                        assert(t.drop_last() =~= all.take(k as int));
                        assert(t.last() == keys@[k as int]@);
                        if k == 0 {
                            assert(all.take(0) =~= Seq::<Seq<char>>::empty());
                            assert(v@ =~= head + t[0]);
                        } else {
                            assert(v@ =~= head + (join_text(all.take(k as int), ", "@) + ", "@ + t.last()));
                        }
                    }
                    k = k + 1;
                }
                assert(all.take(keys@.len() as int) =~= all);
                string_of_all(&v)
            },
        }
    }
}

/// The message that reports a refused build; `entries` are the entries the
/// check was made on.
pub open spec fn build_error_text(e: BuildError, entries: Seq<DraftEntry>) -> Seq<char> {
    match e {
        BuildError::NoEntries => "请先向归档中添加至少一个文件"@,
        BuildError::BlankPath(_) => "归档路径不能为空"@,
        BuildError::DuplicatePath(i) => "归档中存在重复路径："@ + entries[i as int].path@,
        BuildError::TooManyVolumes => "归档分卷数量超过 65535"@,
    }
}

impl BuildError {
    /// The message shown when a build is refused.
    pub fn message(self, entries: &Vec<DraftEntry>) -> (s: String)
        requires
            self matches BuildError::DuplicatePath(i) ==> i < entries@.len(),
        ensures
            s@ == build_error_text(self, entries@),
    {
        match self {
            BuildError::NoEntries => "请先向归档中添加至少一个文件".to_string(),
            BuildError::BlankPath(_) => "归档路径不能为空".to_string(),
            BuildError::DuplicatePath(i) => {
                let mut v = chars_of("归档中存在重复路径：");
                push_str(&mut v, entries[i].path.as_str());
                string_of_all(&v)
            },
            BuildError::TooManyVolumes => "归档分卷数量超过 65535".to_string(),
        }
    }
}

} // verus!
