//! Archive and volume naming used when DZip archives are opened and rebuilt.
use vstd::prelude::*;

use crate::text::{
    after_last, chars_of, ends_with_lower, has_suffix, holds_any, last_segment_start,
    lemma_lower_len, lower, lower_vec, push_decimal_padded, push_range, push_str, replace_char,
    replaced, string_of, string_of_all, trim, trimmed, CharSet, decimal_padded, lemma_trim_set_ends,
    lemma_trim_set_fixed, lemma_lower_idempotent, is_unicode_whitespace, lower_char,
};

verus! {

/// The key under which a supplied volume file is matched: trimmed, with
/// backslashes turned into slashes, ASCII lower-case.
pub open spec fn spec_normalized_name(name: Seq<char>) -> Seq<char> {
    lower(replace_char(trim(name), '\\', '/'))
}

/// The last `/`-separated component of a name.
pub open spec fn spec_basename(name: Seq<char>) -> Seq<char> {
    after_last(name, CharSet::Slash)
}

/// Whether a name carries a main-archive extension (`.dz` or `.dzip`, any case).
pub open spec fn has_archive_extension(name: Seq<char>) -> bool {
    has_suffix(lower(name), ".dz"@) || has_suffix(lower(name), ".dzip"@)
}

/// The archive name used when saving: trimmed, `archive` when blank, and given
/// `.dz` unless it already ends with `.dz` or `.dzip`.
pub open spec fn spec_normalize_archive_name(value: Seq<char>) -> Seq<char> {
    let name = if trim(value).len() == 0 { "archive"@ } else { trim(value) };
    if has_archive_extension(name) {
        name
    } else {
        name + ".dz"@
    }
}

/// The length of the archive extension that a normalized main name carries.
pub open spec fn archive_extension_length(main: Seq<char>) -> int {
    if has_suffix(lower(main), ".dzip"@) {
        5
    } else {
        3
    }
}

/// The name of volume `index` (`index >= 1`) of an archive whose main file is `main`:
/// the stem, a dot, and the index with at least three digits.
pub open spec fn volume_name(main: Seq<char>, index: nat) -> Seq<char> {
    main.subrange(0, main.len() - archive_extension_length(main)) + "."@ + decimal_padded(index, 3)
}

/// The file names of all `count` volumes (at least the main one).
pub open spec fn spec_archive_volume_names(archive_name: Seq<char>, count: nat) -> Seq<Seq<char>> {
    let main = spec_normalize_archive_name(archive_name);
    Seq::new(
        if count == 0 { 1 } else { count },
        |i: int| if i == 0 { main } else { volume_name(main, i as nat) },
    )
}

/// `name` without a trailing `.dz`/`.dzip` extension (any case).
pub open spec fn spec_dzip_archive_stem(name: Seq<char>) -> Seq<char> {
    if has_suffix(lower(name), ".dzip"@) {
        name.subrange(0, name.len() - 5)
    } else if has_suffix(lower(name), ".dz"@) {
        name.subrange(0, name.len() - 3)
    } else {
        name
    }
}

/// Whether a numeric extension of at least three digits ends the name.
pub open spec fn spec_is_volume_name(name: Seq<char>) -> bool {
    holds_any(name, CharSet::Dot) && {
        let ext = after_last(name, CharSet::Dot);
        ext.len() >= 3 && forall|i: int| 0 <= i < ext.len() ==> '0' <= #[trigger] ext[i] <= '9'
    }
}

proof fn lemma_lower_suffix_len(s: Seq<char>, suffix: Seq<char>)
    requires
        has_suffix(lower(s), suffix),
    ensures
        suffix.len() <= s.len(),
{
    lemma_lower_len(s);
}

/// Lower-cased names of volume files as they are matched against an archive's index.
pub fn normalized_name(name: &str) -> (out: String)
    ensures
        out@ == spec_normalized_name(name@),
{
    let v = chars_of(name);
    let t = trimmed(&v, CharSet::Whitespace);
    let r = replaced(&t, '\\', '/');
    let l = lower_vec(&r);
    string_of_all(&l)
}

/// The last `/`-separated component of `name`.
pub fn basename(name: &str) -> (out: String)
    ensures
        out@ == spec_basename(name@),
{
    let v = chars_of(name);
    let start = last_segment_start(&v, 0, v.len(), CharSet::Slash);
    assert(v@.subrange(0, v@.len() as int) =~= v@);
    string_of(&v, start, v.len())
}

/// An entry path in portable form: every backslash becomes a slash.
pub fn portable_path(path: &str) -> (out: String)
    ensures
        out@ == replace_char(path@, '\\', '/'),
{
    let v = chars_of(path);
    let r = replaced(&v, '\\', '/');
    string_of_all(&r)
}

fn archive_name_chars(value: &str) -> (out: Vec<char>)
    ensures
        out@ == spec_normalize_archive_name(value@),
{
    let v = chars_of(value);
    let t = trimmed(&v, CharSet::Whitespace);
    let mut name = if t.len() == 0 {
        chars_of("archive")
    } else {
        t
    };
    if !(ends_with_lower(&name, ".dz") || ends_with_lower(&name, ".dzip")) {
        push_str(&mut name, ".dz");
    }
    name
}

/// The archive name under which a DZip archive is saved.
pub fn normalize_archive_name(value: &str) -> (out: String)
    ensures
        out@ == spec_normalize_archive_name(value@),
{
    let name = archive_name_chars(value);
    string_of_all(&name)
}

/// The file names of the `count` volumes of an archive named `archive_name`:
/// the normalized main name first, then `stem.001`, `stem.002`, ...
pub fn archive_volume_names(archive_name: &str, count: usize) -> (names: Vec<String>)
    requires
        count <= u64::MAX,
    ensures
        names.len() == spec_archive_volume_names(archive_name@, count as nat).len(),
        forall|i: int|
            0 <= i < names.len() ==> #[trigger] names[i]@ == spec_archive_volume_names(
                archive_name@,
                count as nat,
            )[i],
{
    let main = archive_name_chars(archive_name);
    let ghost main_spec = spec_normalize_archive_name(archive_name@);
    proof {
        reveal_strlit(".dz");
        reveal_strlit(".dzip");
        reveal_strlit("archive");
        lemma_lower_len(main@);
        if !has_suffix(lower(main@), ".dzip"@) {
            let t = trim(archive_name@);
            if t.len() == 0 {
                assert(has_suffix(lower("archive"@ + ".dz"@), ".dz"@)) by {
                    lemma_lower_len("archive"@ + ".dz"@);
                    assert(lower("archive"@ + ".dz"@).subrange(7, 10) =~= ".dz"@);
                }
            } else if !has_archive_extension(t) {
                assert(has_suffix(lower(t + ".dz"@), ".dz"@)) by {
                    lemma_lower_len(t + ".dz"@);
                    lemma_lower_len(t);
                    assert(lower(t + ".dz"@).subrange(t.len() as int, t.len() + 3int) =~= ".dz"@);
                }
            }
            assert(has_suffix(lower(main@), ".dz"@));
        }
    }
    let extension_length: usize = if ends_with_lower(&main, ".dzip") {
        5
    } else {
        3
    };
    let stem_end = main.len() - extension_length;
    let mut names: Vec<String> = Vec::new();
    names.push(string_of_all(&main));
    let mut index: usize = 1;
    while index < count
        invariant
            1 <= index,
            index <= count || count == 0,
            count <= u64::MAX,
            count == 0 ==> index == 1,
            main@ == main_spec,
            stem_end == main@.len() - archive_extension_length(main_spec),
            names.len() == index,
            forall|i: int|
                0 <= i < names.len() ==> #[trigger] names[i]@ == (if i == 0 {
                    main_spec
                } else {
                    volume_name(main_spec, i as nat)
                }),
        decreases count - index,
    {
        let mut name: Vec<char> = Vec::new();
        push_range(&mut name, &main, 0, stem_end);
        name.push('.');
        push_decimal_padded(&mut name, index as u64, 3);
        proof {
            reveal_strlit(".");
            assert(name@ =~= volume_name(main_spec, index as nat));
        }
        names.push(string_of_all(&name));
        index = index + 1;
    }
    proof {
        let expected = spec_archive_volume_names(archive_name@, count as nat);
        assert(index == count || count == 0);
        assert(expected.len() == (if count == 0 { 1 } else { count as nat }));
        assert(expected.len() == names.len());
        assert forall|i: int| 0 <= i < names.len() implies #[trigger] names[i]@ == expected[i] by {
        }
    }
    names
}

/// `name` without its `.dz`/`.dzip` extension, used to name the bundle that
/// packs several volumes for download.
pub fn archive_stem(name: &str) -> (out: String)
    ensures
        out@ == spec_dzip_archive_stem(name@),
{
    let v = chars_of(name);
    if ends_with_lower(&v, ".dzip") {
        proof {
            reveal_strlit(".dzip");
            lemma_lower_suffix_len(v@, ".dzip"@);
        }
        string_of(&v, 0, v.len() - 5)
    } else if ends_with_lower(&v, ".dz") {
        proof {
            reveal_strlit(".dz");
            lemma_lower_suffix_len(v@, ".dz"@);
        }
        string_of(&v, 0, v.len() - 3)
    } else {
        string_of_all(&v)
    }
}

/// Whether a dropped file is a DZip main archive (`.dz` or `.dzip`, any case).
pub fn is_main_archive_name(name: &str) -> (r: bool)
    ensures
        r == has_archive_extension(name@),
{
    let v = chars_of(name);
    ends_with_lower(&v, ".dz") || ends_with_lower(&v, ".dzip")
}

/// Whether a dropped file is an auxiliary volume: its extension has at least
/// three characters, all ASCII digits.
pub fn is_volume_name(name: &str) -> (r: bool)
    ensures
        r == spec_is_volume_name(name@),
{
    let v = chars_of(name);
    let start = last_segment_start(&v, 0, v.len(), CharSet::Dot);
    assert(v@.subrange(0, v@.len() as int) =~= v@);
    if start == 0 {
        return false;
    }
    if v.len() - start < 3 {
        return false;
    }
    let mut i = start;
    while i < v.len()
        invariant
            start <= i <= v@.len(),
            forall|k: int| start <= k < i ==> '0' <= #[trigger] v@[k] <= '9',
            after_last(v@, CharSet::Dot) == v@.subrange(start as int, v@.len() as int),
            v@ == name@,
            start > 0,
            v@.len() - start >= 3,
        decreases v@.len() - i,
    {
        if !('0' <= v[i] && v[i] <= '9') {
            assert(v@.subrange(start as int, v@.len() as int)[i - start] == v@[i as int]);
            proof {
                let ext = after_last(v@, CharSet::Dot);
                let k = i - start;
                assert(ext[k] == v@[i as int]);
                assert(!('0' <= ext[k] <= '9'));
            }
            return false;
        }
        i = i + 1;
    }
    proof {
        assert(CharSet::Dot.has(v@[start - 1]));
        let ext = after_last(v@, CharSet::Dot);
        assert forall|k: int| 0 <= k < ext.len() implies '0' <= #[trigger] ext[k] <= '9' by {
            assert(v@.subrange(start as int, v@.len() as int)[k] == v@[start + k]);
        }
    }
    true
}


proof fn lemma_lower_append(a: Seq<char>, b: Seq<char>)
    ensures
        lower(a + b) == lower(a) + lower(b),
{
    assert(lower(a + b) =~= lower(a) + lower(b));
}

/// Normalizing an archive name twice gives the same name as normalizing it
/// once.
pub proof fn lemma_normalize_archive_name_idempotent(value: Seq<char>)
    ensures
        spec_normalize_archive_name(spec_normalize_archive_name(value)) == spec_normalize_archive_name(value),
{
    reveal_strlit("archive");
    reveal_strlit(".dz");
    reveal_strlit(".dzip");
    lemma_trim_set_ends(value, CharSet::Whitespace);
    let name = if trim(value).len() == 0 { "archive"@ } else { trim(value) };
    assert(name.len() > 0);
    assert(!is_unicode_whitespace(name[0]) && !is_unicode_whitespace(name.last()));
    let n = spec_normalize_archive_name(value);
    if has_archive_extension(name) {
        assert(n == name);
    } else {
        assert(n == name + ".dz"@);
        assert(n[0] == name[0]);
        assert(n.last() == 'z');
        lemma_lower_append(name, ".dz"@);
        assert(lower(".dz"@) =~= ".dz"@);
        assert(lower(n).subrange(lower(n).len() - 3, lower(n).len() as int) =~= ".dz"@);
        assert(has_archive_extension(n));
    }
    lemma_trim_set_fixed(n, CharSet::Whitespace);
    assert(trim(n) == n);
}

/// The key a volume file is matched by is already normalized: trimmed, with
/// no backslash and no upper-case ASCII letter, so normalizing it again
/// changes nothing.
pub proof fn lemma_normalized_name_shape(name: Seq<char>)
    ensures
        ({
            let key = spec_normalized_name(name);
            &&& forall|i: int| 0 <= i < key.len() ==> #[trigger] key[i] != '\\' && !('A' <= key[i] <= 'Z')
            &&& trim(key) == key
            &&& spec_normalized_name(key) == key
        }),
{
    let t = trim(name);
    let r = replace_char(t, '\\', '/');
    let key = lower(r);
    lemma_lower_idempotent(r);
    assert forall|i: int| 0 <= i < key.len() implies #[trigger] key[i] != '\\' && !('A' <= key[i] <= 'Z') by {
        assert(r[i] != '\\');
        assert(key[i] == lower_char(r[i]));
    }
    lemma_trim_set_ends(name, CharSet::Whitespace);
    if key.len() > 0 {
        assert(key[0] == lower_char(r[0]));
        assert(key.last() == lower_char(r.last()));
        assert(!is_unicode_whitespace(key[0]));
        assert(!is_unicode_whitespace(key.last()));
    }
    lemma_trim_set_fixed(key, CharSet::Whitespace);
    assert(replace_char(key, '\\', '/') =~= key);
    assert(lower(key) =~= key);
}

} // verus!
