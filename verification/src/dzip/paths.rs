//! Entry paths inside a DZip archive: components, parents, file names and
//! joins, always written with `/` between components.
use vstd::prelude::*;

use crate::text::{
    after_last, chars_of, components_of, holds_any, join_with, last_segment_start, push_range,
    replace_char, replaced, skip_trailing, split_components, string_of, string_of_all, strip_leading,
    strip_trailing, trim_bounds, trim_set, views, CharSet, lemma_trim_set_ends,
};

verus! {

/// The components of a path, split at either separator, empty ones dropped.
pub open spec fn spec_path_components(path: Seq<char>) -> Seq<Seq<char>> {
    split_components(path, CharSet::Separators)
}

/// The directory holding `path`: everything before its last `/` once outer
/// slashes are trimmed, or the root (empty) when there is none.
pub open spec fn spec_parent_directory(path: Seq<char>) -> Seq<char> {
    let t = trim_set(path, CharSet::Slash);
    if holds_any(t, CharSet::Slash) {
        t.subrange(0, t.len() - after_last(t, CharSet::Slash).len() - 1)
    } else {
        Seq::empty()
    }
}

/// The last component of a path, trailing separators ignored.
pub open spec fn spec_file_name(path: Seq<char>) -> Seq<char> {
    after_last(strip_trailing(path, CharSet::Separators), CharSet::Separators)
}

/// `directory/name` with separators trimmed from both parts; an empty part is left out.
pub open spec fn spec_join_path(directory: Seq<char>, name: Seq<char>) -> Seq<char> {
    let d = trim_set(directory, CharSet::Separators);
    let n = trim_set(name, CharSet::Separators);
    if d.len() == 0 {
        n
    } else if n.len() == 0 {
        d
    } else {
        d + "/"@ + n
    }
}

/// `path` with its last component replaced by `name`.
pub open spec fn spec_replace_file_name(path: Seq<char>, name: Seq<char>) -> Seq<char> {
    spec_join_path(spec_parent_directory(replace_char(path, '\\', '/')), name)
}

/// The components of a path.
pub fn path_components(path: &str) -> (out: Vec<String>)
    ensures
        views(out@) == spec_path_components(path@),
{
    let v = chars_of(path);
    components_of(&v, CharSet::Separators)
}

/// How many components a path has.
pub fn path_depth(path: &str) -> (n: usize)
    ensures
        n == spec_path_components(path@).len(),
{
    let parts = path_components(path);
    assert(views(parts@).len() == parts@.len());
    parts.len()
}

fn parent_of(v: &Vec<char>) -> (out: Vec<char>)
    ensures
        out@ == spec_parent_directory(v@),
{
    let (a, b) = trim_bounds(v, CharSet::Slash);
    let ghost t = v@.subrange(a as int, b as int);
    let start = last_segment_start(v, a, b, CharSet::Slash);
    let mut out: Vec<char> = Vec::new();
    if start > a {
        assert(t[start - 1 - a] == v@[start - 1]);
        assert(holds_any(t, CharSet::Slash));
        push_range(&mut out, v, a, start - 1);
        assert(Seq::<char>::empty() + v@.subrange(a as int, start - 1) =~= t.subrange(
            0,
            t.len() - after_last(t, CharSet::Slash).len() - 1,
        ));
    }
    out
}

/// The directory holding `path`.
pub fn parent_directory(path: &str) -> (out: String)
    ensures
        out@ == spec_parent_directory(path@),
{
    let v = chars_of(path);
    let p = parent_of(&v);
    string_of_all(&p)
}

/// The last component of `path`.
pub fn file_name(path: &str) -> (out: String)
    ensures
        out@ == spec_file_name(path@),
{
    let v = chars_of(path);
    let end = skip_trailing(&v, 0, v.len(), CharSet::Separators);
    assert(v@.subrange(0, v@.len() as int) =~= v@);
    let start = last_segment_start(&v, 0, end, CharSet::Separators);
    string_of(&v, start, end)
}

/// `d/n` as characters.
pub fn join_chars(d: &Vec<char>, n: &Vec<char>) -> (out: Vec<char>)
    ensures
        out@ == spec_join_path(d@, n@),
{
    let (da, db) = trim_bounds(d, CharSet::Separators);
    let (na, nb) = trim_bounds(n, CharSet::Separators);
    let mut out: Vec<char> = Vec::new();
    if da == db {
        push_range(&mut out, n, na, nb);
    } else if na == nb {
        push_range(&mut out, d, da, db);
    } else {
        push_range(&mut out, d, da, db);
        out.push('/');
        push_range(&mut out, n, na, nb);
        proof {
            reveal_strlit("/");
        }
    }
    assert(out@ =~= spec_join_path(d@, n@));
    out
}

/// `directory/name`.
pub fn join_path(directory: &str, name: &str) -> (out: String)
    ensures
        out@ == spec_join_path(directory@, name@),
{
    let d = chars_of(directory);
    let n = chars_of(name);
    let j = join_chars(&d, &n);
    string_of_all(&j)
}

/// `path` with its last component renamed to `name`.
pub fn replace_file_name(path: &str, name: &str) -> (out: String)
    ensures
        out@ == spec_replace_file_name(path@, name@),
{
    let v = chars_of(path);
    let r = replaced(&v, '\\', '/');
    let parent = parent_of(&r);
    let n = chars_of(name);
    let j = join_chars(&parent, &n);
    string_of_all(&j)
}

/// The breadcrumb trail of a directory: each component with the path that
/// leads to it.
pub fn breadcrumbs(path: &str) -> (out: Vec<(String, String)>)
    ensures
        out@.len() == spec_path_components(path@).len(),
        forall|i: int|
            0 <= i < out@.len() ==> #[trigger] out@[i].0@ == spec_path_components(path@)[i]
                && out@[i].1@ == join_with(spec_path_components(path@).take(i + 1), '/'),
{
    let parts = path_components(path);
    let ghost spec_parts = spec_path_components(path@);
    let mut out: Vec<(String, String)> = Vec::new();
    let mut current: Vec<char> = Vec::new();
    let mut i: usize = 0;
    while i < parts.len()
        invariant
            views(parts@) == spec_parts,
            i <= parts@.len(),
            out@.len() == i,
            i > 0 ==> current@ == join_with(spec_parts.take(i as int), '/'),
            i == 0 ==> current@.len() == 0,
            forall|j: int|
                0 <= j < i ==> #[trigger] out@[j].0@ == spec_parts[j] && out@[j].1@ == join_with(
                    spec_parts.take(j + 1),
                    '/',
                ),
        decreases parts@.len() - i,
    {
        let part = chars_of(parts[i].as_str());
        assert(part@ == spec_parts[i as int]);
        if i > 0 {
            current.push('/');
        }
        push_range(&mut current, &part, 0, part.len());
        proof {
            assert(part@.subrange(0, part@.len() as int) =~= part@);
            assert(spec_parts.take(i + 1).drop_last() =~= spec_parts.take(i as int));
            if i == 0 {
                assert(spec_parts.take(1)[0] == spec_parts[0]);
                assert(current@ =~= part@);
                assert(current@ =~= join_with(spec_parts.take(1), '/'));
            } else {
                assert(current@ =~= join_with(spec_parts.take(i + 1), '/'));
            }
        }
        out.push((string_of_all(&part), string_of_all(&current)));
        i = i + 1;
    }
    assert(views(parts@).len() == parts@.len());
    out
}


proof fn lemma_after_last_append(s: Seq<char>, b: Seq<char>, set: CharSet)
    requires
        !holds_any(b, set),
    ensures
        after_last(s + b, set) == after_last(s, set) + b,
    decreases b.len(),
{
    if b.len() == 0 {
        assert(s + b =~= s);
        assert(after_last(s, set) + b =~= after_last(s, set));
    } else {
        assert((s + b).drop_last() =~= s + b.drop_last());
        assert(!set.has(b[b.len() - 1]));
        assert(!holds_any(b.drop_last(), set)) by {
            if holds_any(b.drop_last(), set) {
                let i = choose|i: int| 0 <= i < b.drop_last().len() && set.has(#[trigger] b.drop_last()[i]);
                assert(b[i] == b.drop_last()[i]);
            }
        }
        lemma_after_last_append(s, b.drop_last(), set);
        assert(after_last(s, set) + b =~= (after_last(s, set) + b.drop_last()).push(b.last()));
    }
}

proof fn lemma_trim_set_unchanged(s: Seq<char>, set: CharSet)
    requires
        !holds_any(s, set),
    ensures
        trim_set(s, set) == s,
{
    if s.len() > 0 {
        assert(!set.has(s[0]));
        assert(!set.has(s[s.len() - 1]));
    }
}

/// Joining a name to a directory and splitting the result gives both back:
/// the file name is the name, and the parent is the directory without outer
/// separators. The name is one non-empty component without separators.
pub proof fn lemma_join_then_split(directory: Seq<char>, name: Seq<char>)
    requires
        name.len() > 0,
        !holds_any(name, CharSet::Separators),
    ensures
        spec_file_name(spec_join_path(directory, name)) == name,
        spec_parent_directory(spec_join_path(directory, name)) == trim_set(directory, CharSet::Separators),
{
    let d = trim_set(directory, CharSet::Separators);
    lemma_trim_set_unchanged(name, CharSet::Separators);
    assert(!holds_any(name, CharSet::Slash)) by {
        if holds_any(name, CharSet::Slash) {
            let i = choose|i: int| 0 <= i < name.len() && CharSet::Slash.has(#[trigger] name[i]);
            assert(CharSet::Separators.has(name[i]));
        }
    }
    assert(!CharSet::Separators.has(name.last()));
    lemma_after_last_append(Seq::empty(), name, CharSet::Separators);
    lemma_after_last_append(Seq::empty(), name, CharSet::Slash);
    assert(Seq::<char>::empty() + name =~= name);
    if d.len() == 0 {
        assert(spec_join_path(directory, name) == name);
        lemma_trim_set_unchanged(name, CharSet::Slash);
    } else {
        lemma_trim_set_ends(directory, CharSet::Separators);
        reveal_strlit("/");
        let t = d + "/"@ + name;
        assert(spec_join_path(directory, name) == t);
        assert(t.last() == name.last());
        assert(t[0] == d[0]);
        assert(!CharSet::Slash.has(t[0]));
        assert(strip_leading(t, CharSet::Slash) == t);
        assert(strip_trailing(t, CharSet::Slash) == t);
        assert(strip_trailing(t, CharSet::Separators) == t);
        let ds = d + "/"@;
        assert(t =~= ds + name);
        assert(ds.last() == '/');
        assert(after_last(ds, CharSet::Separators) == Seq::<char>::empty());
        assert(after_last(ds, CharSet::Slash) == Seq::<char>::empty());
        lemma_after_last_append(ds, name, CharSet::Separators);
        lemma_after_last_append(ds, name, CharSet::Slash);
        assert(Seq::<char>::empty() + name =~= name);
        assert(holds_any(t, CharSet::Slash)) by {
            assert(CharSet::Slash.has(t[d.len() as int]));
        }
        assert(t.subrange(0, t.len() - name.len() - 1) =~= d);
    }
}

} // verus!
