//! Character-level helpers shared by the name and path rules of every tool.
//!
//! Names are modelled as `Seq<char>` (the view of `String` and `&str`); the
//! executable helpers work on `Vec<char>` copies of the text.
use vstd::prelude::*;

verus! {

pub assume_specification[ String::push ](string: &mut String, ch: char)
    ensures
        final(string)@ == old(string)@.push(ch),
;

/// The characters that `char::is_whitespace` accepts (Unicode `White_Space`).
pub open spec fn is_unicode_whitespace(c: char) -> bool {
    ||| ('\u{9}' <= c && c <= '\u{d}')
    ||| c == ' '
    ||| c == '\u{85}'
    ||| c == '\u{a0}'
    ||| c == '\u{1680}'
    ||| ('\u{2000}' <= c && c <= '\u{200a}')
    ||| c == '\u{2028}'
    ||| c == '\u{2029}'
    ||| c == '\u{202f}'
    ||| c == '\u{205f}'
    ||| c == '\u{3000}'
}

/// A class of characters that the trimming and splitting helpers act on.
#[derive(Clone, Copy, Debug, PartialEq, Eq)]
pub enum CharSet {
    /// Unicode whitespace, as trimmed by `str::trim`.
    Whitespace,
    /// The forward slash alone.
    Slash,
    /// Both path separators, `/` and `\`.
    Separators,
    /// The full stop that starts an extension.
    Dot,
    /// The byte-order mark, U+FEFF.
    Bom,
}

impl CharSet {
    pub open spec fn has(self, c: char) -> bool {
        match self {
            CharSet::Whitespace => is_unicode_whitespace(c),
            CharSet::Slash => c == '/',
            CharSet::Separators => c == '/' || c == '\\',
            CharSet::Dot => c == '.',
            CharSet::Bom => c == '\u{feff}',
        }
    }

    pub fn contains(self, c: char) -> (r: bool)
        ensures
            r == self.has(c),
    {
        match self {
            CharSet::Whitespace => {
                ('\u{9}' <= c && c <= '\u{d}') || c == ' ' || c == '\u{85}' || c == '\u{a0}'
                    || c == '\u{1680}' || ('\u{2000}' <= c && c <= '\u{200a}') || c == '\u{2028}'
                    || c == '\u{2029}' || c == '\u{202f}' || c == '\u{205f}' || c == '\u{3000}'
            },
            CharSet::Slash => c == '/',
            CharSet::Separators => c == '/' || c == '\\',
            CharSet::Dot => c == '.',
            CharSet::Bom => c == '\u{feff}',
        }
    }
}

/// `s` without the leading characters of `set` (`str::trim_start_matches`).
pub open spec fn strip_leading(s: Seq<char>, set: CharSet) -> Seq<char>
    decreases s.len(),
{
    if s.len() > 0 && set.has(s[0]) {
        strip_leading(s.drop_first(), set)
    } else {
        s
    }
}

/// `s` without the trailing characters of `set` (`str::trim_end_matches`).
pub open spec fn strip_trailing(s: Seq<char>, set: CharSet) -> Seq<char>
    decreases s.len(),
{
    if s.len() > 0 && set.has(s.last()) {
        strip_trailing(s.drop_last(), set)
    } else {
        s
    }
}

/// `s` without the characters of `set` at either end (`str::trim_matches`).
pub open spec fn trim_set(s: Seq<char>, set: CharSet) -> Seq<char> {
    strip_trailing(strip_leading(s, set), set)
}

/// `str::trim`.
pub open spec fn trim(s: Seq<char>) -> Seq<char> {
    trim_set(s, CharSet::Whitespace)
}

/// ASCII lower-casing of one character (`char::to_ascii_lowercase`).
pub open spec fn lower_char(c: char) -> char {
    if 'A' <= c && c <= 'Z' {
        ((c as u32) + 32) as char
    } else {
        c
    }
}

/// ASCII lower-casing of a text (`str::to_ascii_lowercase`).
pub open spec fn lower(s: Seq<char>) -> Seq<char> {
    s.map_values(|c: char| lower_char(c))
}

/// `s` ends with `suffix`.
pub open spec fn has_suffix(s: Seq<char>, suffix: Seq<char>) -> bool {
    suffix.len() <= s.len() && s.subrange(s.len() - suffix.len(), s.len() as int) == suffix
}

/// `s` starts with `prefix`.
pub open spec fn has_prefix(s: Seq<char>, prefix: Seq<char>) -> bool {
    prefix.len() <= s.len() && s.subrange(0, prefix.len() as int) == prefix
}

/// Every occurrence of `from` replaced by `to` (`str::replace` with single characters).
pub open spec fn replace_char(s: Seq<char>, from: char, to: char) -> Seq<char> {
    s.map_values(|c: char| if c == from { to } else { c })
}

/// The text after the last character of `set` (`str::rsplit(..).next()`).
pub open spec fn after_last(s: Seq<char>, set: CharSet) -> Seq<char>
    decreases s.len(),
{
    if s.len() == 0 {
        s
    } else if set.has(s.last()) {
        Seq::empty()
    } else {
        after_last(s.drop_last(), set).push(s.last())
    }
}

/// `s` holds a character of `set`.
pub open spec fn holds_any(s: Seq<char>, set: CharSet) -> bool {
    exists|i: int| 0 <= i < s.len() && set.has(#[trigger] s[i])
}

pub fn to_lower_char(c: char) -> (r: char)
    ensures
        r == lower_char(c),
{
    if 'A' <= c && c <= 'Z' {
        let b: u8 = c as u8;
        let r = (b + 32) as char;
        assert(r == ((c as u32) + 32) as char);
        r
    } else {
        c
    }
}

/// The characters of `s`, in order.
pub fn chars_of(s: &str) -> (out: Vec<char>)
    ensures
        out@ == s@,
{
    let mut out: Vec<char> = Vec::new();
    for c in it: s.chars()
        invariant
            out@ == it.seq().take(it.index() as int),
    {
        out.push(c);
    }
    out
}

/// A `String` holding `v[lo..hi]`.
pub fn string_of(v: &Vec<char>, lo: usize, hi: usize) -> (out: String)
    requires
        lo <= hi <= v@.len(),
    ensures
        out@ == v@.subrange(lo as int, hi as int),
{
    let mut out = String::new();
    let mut i = lo;
    while i < hi
        invariant
            lo <= i <= hi <= v@.len(),
            out@ == v@.subrange(lo as int, i as int),
        decreases hi - i,
    {
        out.push(v[i]);
        assert(v@.subrange(lo as int, i + 1) =~= v@.subrange(lo as int, i as int).push(v@[i as int]));
        i = i + 1;
    }
    out
}

/// A `String` holding all of `v`.
pub fn string_of_all(v: &Vec<char>) -> (out: String)
    ensures
        out@ == v@,
{
    let out = string_of(v, 0, v.len());
    assert(v@.subrange(0, v@.len() as int) =~= v@);
    out
}

/// Appends `v[lo..hi]` to `out`.
pub fn push_range(out: &mut Vec<char>, v: &Vec<char>, lo: usize, hi: usize)
    requires
        lo <= hi <= v@.len(),
    ensures
        final(out)@ == old(out)@ + v@.subrange(lo as int, hi as int),
{
    let ghost start = out@;
    let mut i = lo;
    while i < hi
        invariant
            lo <= i <= hi <= v@.len(),
            out@ == start + v@.subrange(lo as int, i as int),
        decreases hi - i,
    {
        out.push(v[i]);
        assert(v@.subrange(lo as int, i + 1) =~= v@.subrange(lo as int, i as int).push(v@[i as int]));
        assert(start + v@.subrange(lo as int, i + 1) =~= (start + v@.subrange(lo as int, i as int)).push(v@[i as int]));
        i = i + 1;
    }
}

/// Appends the characters of `s` to `out`.
pub fn push_str(out: &mut Vec<char>, s: &str)
    ensures
        final(out)@ == old(out)@ + s@,
{
    let v = chars_of(s);
    push_range(out, &v, 0, v.len());
    assert(v@.subrange(0, v@.len() as int) =~= v@);
}

/// The ASCII lower-case copy of `v`.
pub fn lower_vec(v: &Vec<char>) -> (out: Vec<char>)
    ensures
        out@ == lower(v@),
{
    let mut out: Vec<char> = Vec::new();
    let mut i: usize = 0;
    while i < v.len()
        invariant
            i <= v@.len(),
            out@ == lower(v@.subrange(0, i as int)),
        decreases v@.len() - i,
    {
        out.push(to_lower_char(v[i]));
        assert(lower(v@.subrange(0, i + 1)) =~= lower(v@.subrange(0, i as int)).push(
            lower_char(v@[i as int]),
        ));
        i = i + 1;
    }
    assert(v@.subrange(0, v@.len() as int) =~= v@);
    out
}

pub proof fn lemma_lower_len(s: Seq<char>)
    ensures
        lower(s).len() == s.len(),
        forall|i: int| 0 <= i < s.len() ==> #[trigger] lower(s)[i] == lower_char(s[i]),
{
}

/// Whether `v[lo..hi]` equals the characters of `pattern`.
pub fn range_equals(v: &Vec<char>, lo: usize, hi: usize, pattern: &Vec<char>) -> (r: bool)
    requires
        lo <= hi <= v@.len(),
    ensures
        r == (v@.subrange(lo as int, hi as int) == pattern@),
{
    if hi - lo != pattern.len() {
        return false;
    }
    let mut i: usize = 0;
    while i < pattern.len()
        invariant
            hi - lo == pattern@.len(),
            lo <= hi <= v@.len(),
            i <= pattern@.len(),
            forall|j: int| 0 <= j < i ==> v@[lo + j] == pattern@[j],
        decreases pattern@.len() - i,
    {
        if v[lo + i] != pattern[i] {
            assert(v@.subrange(lo as int, hi as int)[i as int] != pattern@[i as int]);
            return false;
        }
        i = i + 1;
    }
    assert(v@.subrange(lo as int, hi as int) =~= pattern@);
    true
}

/// The position of the first `c` in `s`, or -1.
pub open spec fn first_index(s: Seq<char>, c: char) -> int
    decreases s.len(),
{
    if s.len() == 0 {
        -1
    } else if s[0] == c {
        0
    } else {
        let r = first_index(s.drop_first(), c);
        if r < 0 {
            -1
        } else {
            r + 1
        }
    }
}

/// `first_index` finds the first occurrence, and -1 means there is none.
pub proof fn lemma_first_index(s: Seq<char>, c: char)
    ensures
        -1 <= first_index(s, c) < s.len(),
        first_index(s, c) >= 0 ==> s[first_index(s, c)] == c,
        first_index(s, c) >= 0 ==> forall|j: int| 0 <= j < first_index(s, c) ==> s[j] != c,
        first_index(s, c) < 0 ==> forall|j: int| 0 <= j < s.len() ==> s[j] != c,
    decreases s.len(),
{
    if s.len() > 0 {
        lemma_first_index(s.drop_first(), c);
        assert forall|j: int| 1 <= j < s.len() implies s[j] == s.drop_first()[j - 1] by {}
    }
}

/// Where the first `c` in `v` is.
pub fn position_of(v: &Vec<char>, c: char) -> (r: Option<usize>)
    ensures
        r matches Some(k) ==> k == first_index(v@, c),
        r is None ==> first_index(v@, c) == -1,
{
    proof {
        lemma_first_index(v@, c);
    }
    let mut i: usize = 0;
    while i < v.len()
        invariant
            i <= v@.len(),
            forall|j: int| 0 <= j < i ==> v@[j] != c,
            -1 <= first_index(v@, c) < v@.len(),
            first_index(v@, c) >= 0 ==> v@[first_index(v@, c)] == c,
            first_index(v@, c) >= 0 ==> forall|j: int| 0 <= j < first_index(v@, c) ==> v@[j] != c,
            first_index(v@, c) < 0 ==> forall|j: int| 0 <= j < v@.len() ==> v@[j] != c,
        decreases v@.len() - i,
    {
        if v[i] == c {
            proof {
                let f = first_index(v@, c);
                if f < 0 {
                    assert(v@[i as int] != c);
                } else if f < i {
                    assert(v@[f] != c);
                } else if f > i {
                    assert(v@[i as int] != c);
                }
            }
            return Some(i);
        }
        i = i + 1;
    }
    None
}

/// Whether `part` occurs in `s`.
pub open spec fn has_infix(s: Seq<char>, part: Seq<char>) -> bool {
    exists|k: int| 0 <= k && k + part.len() <= s.len() && #[trigger] s.subrange(k, k + part.len()) == part
}

/// Whether `part` occurs in `v`.
pub fn contains_infix(v: &Vec<char>, part: &Vec<char>) -> (r: bool)
    ensures
        r == has_infix(v@, part@),
{
    if part.len() > v.len() {
        return false;
    }
    let vl = v.len();
    let n = part.len();
    let last = vl - n;
    let mut k: usize = 0;
    loop
        invariant
            vl == v@.len(),
            n == part@.len(),
            last + n == vl,
            k <= last,
            forall|j: int| 0 <= j < k ==> #[trigger] v@.subrange(j, j + part@.len()) != part@,
        decreases last - k,
    {
        if range_equals(v, k, k + n, part) {
            return true;
        }
        if k == last {
            return false;
        }
        k = k + 1;
    }
}

/// `s` with every occurrence of `pat` replaced by `rep`, scanning left to
/// right without overlaps (`str::replace` for a non-empty pattern).
pub open spec fn replace_all(s: Seq<char>, pat: Seq<char>, rep: Seq<char>) -> Seq<char>
    recommends
        pat.len() > 0,
    decreases s.len(),
{
    if s.len() == 0 || pat.len() == 0 {
        s
    } else if has_prefix(s, pat) {
        rep + replace_all(s.skip(pat.len() as int), pat, rep)
    } else {
        seq![s[0]] + replace_all(s.drop_first(), pat, rep)
    }
}

/// `s` with every occurrence of `pat` replaced by `rep`.
pub fn replace_text(s: &str, pat: &str, rep: &str) -> (out: String)
    requires
        pat@.len() > 0,
    ensures
        out@ == replace_all(s@, pat@, rep@),
{
    let v = chars_of(s);
    let p = chars_of(pat);
    let mut out: Vec<char> = Vec::new();
    let mut i: usize = 0;
    assert(v@.skip(0) =~= v@);
    while i < v.len()
        invariant
            i <= v@.len(),
            p@ == pat@,
            p@.len() > 0,
            out@ + replace_all(v@.skip(i as int), pat@, rep@) == replace_all(s@, pat@, rep@),
            v@ == s@,
        decreases v@.len() - i,
    {
        let ghost rest = v@.skip(i as int);
        if p.len() <= v.len() - i && range_equals(&v, i, i + p.len(), &p) {
            assert(rest.subrange(0, p@.len() as int) =~= v@.subrange(i as int, i + p@.len()));
            assert(rest.skip(p@.len() as int) =~= v@.skip(i + p@.len()));
            let ghost before = out@;
            push_str(&mut out, rep);
            assert(replace_all(rest, pat@, rep@) == rep@ + replace_all(rest.skip(p@.len() as int), pat@, rep@));
            assert(out@ + replace_all(v@.skip(i + p@.len()), pat@, rep@) =~= before + replace_all(rest, pat@, rep@));
            i = i + p.len();
        } else {
            proof {
                if rest.len() >= p@.len() && rest.subrange(0, p@.len() as int) == p@ {
                    assert(rest.subrange(0, p@.len() as int) =~= v@.subrange(i as int, i + p@.len()));
                }
                assert(!has_prefix(rest, pat@));
                assert(rest.drop_first() =~= v@.skip(i + 1));
                assert(rest[0] == v@[i as int]);
            }
            let ghost before = out@;
            out.push(v[i]);
            assert(replace_all(rest, pat@, rep@) == seq![rest[0]] + replace_all(rest.drop_first(), pat@, rep@));
            assert(out@ + replace_all(v@.skip(i + 1), pat@, rep@) =~= before + replace_all(rest, pat@, rep@));
            i = i + 1;
        }
    }
    assert(v@.skip(i as int) =~= Seq::<char>::empty());
    assert(out@ =~= replace_all(s@, pat@, rep@));
    string_of_all(&out)
}

/// Whether `v` ends with `suffix`.
pub fn ends_with(v: &Vec<char>, suffix: &Vec<char>) -> (r: bool)
    ensures
        r == has_suffix(v@, suffix@),
{
    if suffix.len() > v.len() {
        return false;
    }
    range_equals(v, v.len() - suffix.len(), v.len(), suffix)
}

/// Whether `v` starts with `prefix`.
pub fn starts_with(v: &Vec<char>, prefix: &Vec<char>) -> (r: bool)
    ensures
        r == has_prefix(v@, prefix@),
{
    if prefix.len() > v.len() {
        return false;
    }
    range_equals(v, 0, prefix.len(), prefix)
}

/// Whether the ASCII lower-case form of `v` ends with `suffix`.
pub fn ends_with_lower(v: &Vec<char>, suffix: &str) -> (r: bool)
    ensures
        r == has_suffix(lower(v@), suffix@),
{
    let l = lower_vec(v);
    let s = chars_of(suffix);
    ends_with(&l, &s)
}

/// Where the leading characters of `set` in `v[lo..hi]` end.
pub fn skip_leading(v: &Vec<char>, lo: usize, hi: usize, set: CharSet) -> (i: usize)
    requires
        lo <= hi <= v@.len(),
    ensures
        lo <= i <= hi,
        strip_leading(v@.subrange(lo as int, hi as int), set) == v@.subrange(i as int, hi as int),
{
    let mut i = lo;
    while i < hi && set.contains(v[i])
        invariant
            lo <= i <= hi <= v@.len(),
            strip_leading(v@.subrange(lo as int, hi as int), set) == strip_leading(
                v@.subrange(i as int, hi as int),
                set,
            ),
        decreases hi - i,
    {
        assert(v@.subrange(i as int, hi as int).drop_first() =~= v@.subrange(i + 1, hi as int));
        i = i + 1;
    }
    i
}

/// Where the trailing characters of `set` in `v[lo..hi]` begin.
pub fn skip_trailing(v: &Vec<char>, lo: usize, hi: usize, set: CharSet) -> (j: usize)
    requires
        lo <= hi <= v@.len(),
    ensures
        lo <= j <= hi,
        strip_trailing(v@.subrange(lo as int, hi as int), set) == v@.subrange(lo as int, j as int),
{
    let mut j = hi;
    while j > lo && set.contains(v[j - 1])
        invariant
            lo <= j <= hi <= v@.len(),
            strip_trailing(v@.subrange(lo as int, hi as int), set) == strip_trailing(
                v@.subrange(lo as int, j as int),
                set,
            ),
        decreases j - lo,
    {
        assert(v@.subrange(lo as int, j as int).drop_last() =~= v@.subrange(lo as int, j - 1));
        j = j - 1;
    }
    j
}

/// The bounds of `v` once the characters of `set` are trimmed at both ends.
pub fn trim_bounds(v: &Vec<char>, set: CharSet) -> (r: (usize, usize))
    ensures
        r.0 <= r.1 <= v@.len(),
        trim_set(v@, set) == v@.subrange(r.0 as int, r.1 as int),
{
    let a = skip_leading(v, 0, v.len(), set);
    let b = skip_trailing(v, a, v.len(), set);
    assert(v@.subrange(0, v@.len() as int) =~= v@);
    (a, b)
}

/// The characters of `v` trimmed of `set` at both ends.
pub fn trimmed(v: &Vec<char>, set: CharSet) -> (out: Vec<char>)
    ensures
        out@ == trim_set(v@, set),
{
    let (a, b) = trim_bounds(v, set);
    let mut out: Vec<char> = Vec::new();
    push_range(&mut out, v, a, b);
    assert(Seq::<char>::empty() + v@.subrange(a as int, b as int) =~= v@.subrange(a as int, b as int));
    out
}

/// Where the text after the last character of `set` in `v[lo..hi]` begins.
pub fn last_segment_start(v: &Vec<char>, lo: usize, hi: usize, set: CharSet) -> (i: usize)
    requires
        lo <= hi <= v@.len(),
    ensures
        lo <= i <= hi,
        after_last(v@.subrange(lo as int, hi as int), set) == v@.subrange(i as int, hi as int),
        i > lo ==> set.has(v@[i - 1]),
        i == lo ==> !holds_any(v@.subrange(lo as int, hi as int), set),
{
    let mut i = hi;
    while i > lo && !set.contains(v[i - 1])
        invariant
            lo <= i <= hi <= v@.len(),
            forall|k: int| i <= k < hi ==> !set.has(#[trigger] v@[k]),
            after_last(v@.subrange(lo as int, hi as int), set) == after_last(
                v@.subrange(lo as int, i as int),
                set,
            ) + v@.subrange(i as int, hi as int),
        decreases i - lo,
    {
        let ghost s = v@.subrange(lo as int, i as int);
        assert(s.drop_last() =~= v@.subrange(lo as int, i - 1));
        assert(v@.subrange(i - 1, hi as int) =~= seq![v@[i - 1]] + v@.subrange(i as int, hi as int));
        assert(after_last(s, set) == after_last(s.drop_last(), set).push(s.last()));
        assert(after_last(s.drop_last(), set).push(s.last()) + v@.subrange(i as int, hi as int)
            =~= after_last(s.drop_last(), set) + v@.subrange(i - 1, hi as int));
        i = i - 1;
    }
    let ghost s = v@.subrange(lo as int, i as int);
    if i > lo {
        assert(s.last() == v@[i - 1]);
        assert(after_last(s, set) =~= Seq::<char>::empty());
    } else {
        assert(s =~= Seq::<char>::empty());
        assert(!holds_any(v@.subrange(lo as int, hi as int), set)) by {
            assert forall|k: int| 0 <= k < hi - lo implies !set.has(
                #[trigger] v@.subrange(lo as int, hi as int)[k],
            ) by {
                assert(v@.subrange(lo as int, hi as int)[k] == v@[lo + k]);
            }
        }
    }
    assert(Seq::<char>::empty() + v@.subrange(i as int, hi as int) =~= v@.subrange(
        i as int,
        hi as int,
    ));
    i
}

/// A copy of `v` in which every `from` becomes `to`.
pub fn replaced(v: &Vec<char>, from: char, to: char) -> (out: Vec<char>)
    ensures
        out@ == replace_char(v@, from, to),
{
    let mut out: Vec<char> = Vec::new();
    let mut i: usize = 0;
    while i < v.len()
        invariant
            i <= v@.len(),
            out@ == replace_char(v@.subrange(0, i as int), from, to),
        decreases v@.len() - i,
    {
        let c = v[i];
        out.push(if c == from { to } else { c });
        assert(replace_char(v@.subrange(0, i + 1), from, to) =~= replace_char(
            v@.subrange(0, i as int),
            from,
            to,
        ).push(if c == from { to } else { c }));
        i = i + 1;
    }
    assert(v@.subrange(0, v@.len() as int) =~= v@);
    out
}

/// Whether `v` holds a character of `set`.
pub fn contains_any(v: &Vec<char>, set: CharSet) -> (r: bool)
    ensures
        r == holds_any(v@, set),
{
    let mut i: usize = 0;
    while i < v.len()
        invariant
            i <= v@.len(),
            forall|k: int| 0 <= k < i ==> !set.has(#[trigger] v@[k]),
        decreases v@.len() - i,
    {
        if set.contains(v[i]) {
            return true;
        }
        i = i + 1;
    }
    false
}

/// The decimal digit character for `d < 10`.
pub open spec fn digit_char(d: nat) -> char {
    ((d + 48) as u32) as char
}

/// The decimal notation of `n`, without leading zeros.
pub open spec fn decimal(n: nat) -> Seq<char>
    decreases n,
{
    if n < 10 {
        seq![digit_char(n)]
    } else {
        decimal(n / 10).push(digit_char(n % 10))
    }
}

/// `count` copies of `c`.
pub open spec fn repeat_char(c: char, count: nat) -> Seq<char> {
    Seq::new(count, |_i: int| c)
}

/// The decimal notation of `n`, left-padded with zeros to `width` digits (`{n:0width$}`).
pub open spec fn decimal_padded(n: nat, width: nat) -> Seq<char> {
    let d = decimal(n);
    if d.len() < width {
        repeat_char('0', (width - d.len()) as nat) + d
    } else {
        d
    }
}

pub fn digit(d: u64) -> (c: char)
    requires
        d < 10,
    ensures
        c == digit_char(d as nat),
{
    let b: u8 = (d as u8) + 48;
    b as char
}

/// Appends the decimal notation of `n` to `out`.
pub fn push_decimal(out: &mut Vec<char>, n: u64)
    ensures
        final(out)@ == old(out)@ + decimal(n as nat),
    decreases n,
{
    if n < 10 {
        out.push(digit(n));
        assert(decimal(n as nat) =~= seq![digit_char(n as nat)]);
    } else {
        let ghost before = out@;
        push_decimal(out, n / 10);
        out.push(digit(n % 10));
        assert(decimal(n as nat) == decimal((n / 10) as nat).push(digit_char((n % 10) as nat)));
        assert(out@ =~= before + decimal(n as nat));
    }
}

/// Appends the zero-padded decimal notation of `n` to `out`.
pub fn push_decimal_padded(out: &mut Vec<char>, n: u64, width: usize)
    ensures
        final(out)@ == old(out)@ + decimal_padded(n as nat, width as nat),
{
    let ghost before = out@;
    let mut digits: Vec<char> = Vec::new();
    push_decimal(&mut digits, n);
    assert(digits@ =~= decimal(n as nat));
    if digits.len() < width {
        let mut k: usize = 0;
        let pad = width - digits.len();
        while k < pad
            invariant
                k <= pad,
                out@ == before + repeat_char('0', k as nat),
            decreases pad - k,
        {
            out.push('0');
            assert(repeat_char('0', (k + 1) as nat) =~= repeat_char('0', k as nat).push('0'));
            k = k + 1;
        }
    }
    let ghost mid = out@;
    push_range(out, &digits, 0, digits.len());
    assert(digits@.subrange(0, digits@.len() as int) =~= digits@);
    assert(out@ =~= before + decimal_padded(n as nat, width as nat));
}

/// The non-empty runs of characters outside `set`, in order
/// (`str::split(..).filter(|part| !part.is_empty())`).
pub open spec fn split_components(s: Seq<char>, set: CharSet) -> Seq<Seq<char>>
    decreases s.len(),
{
    if s.len() == 0 {
        Seq::empty()
    } else if set.has(s.last()) {
        split_components(s.drop_last(), set)
    } else {
        let c = split_components(s.drop_last(), set);
        if after_last(s.drop_last(), set).len() > 0 {
            c.update(c.len() - 1, c.last().push(s.last()))
        } else {
            c.push(seq![s.last()])
        }
    }
}

/// The parts joined with `sep` between them (`[..].join("/")`).
pub open spec fn join_with(parts: Seq<Seq<char>>, sep: char) -> Seq<char>
    decreases parts.len(),
{
    if parts.len() == 0 {
        Seq::empty()
    } else if parts.len() == 1 {
        parts[0]
    } else {
        join_with(parts.drop_last(), sep).push(sep) + parts.last()
    }
}

/// The views of a sequence of strings.
pub open spec fn views(v: Seq<String>) -> Seq<Seq<char>> {
    v.map_values(|x: String| x@)
}

/// The strings of `parts` joined with `sep` between them.
pub fn join_parts(parts: &Vec<String>, sep: char) -> (out: String)
    ensures
        out@ == join_with(views(parts@), sep),
{
    let ghost all = views(parts@);
    let mut v: Vec<char> = Vec::new();
    let mut k: usize = 0;
    while k < parts.len()
        invariant
            k <= parts@.len(),
            all == views(parts@),
            all.len() == parts@.len(),
            v@ == join_with(all.take(k as int), sep),
        decreases parts@.len() - k,
    {
        let ghost before = v@;
        if k > 0 {
            v.push(sep);
        }
        push_str(&mut v, parts[k].as_str());
        proof {
            let t = all.take(k + 1);
            assert(t.drop_last() =~= all.take(k as int));
            assert(t.last() == parts@[k as int]@);
            if k == 0 {
                assert(all.take(0) =~= Seq::<Seq<char>>::empty());
                assert(v@ =~= t[0]);
            } else {
                assert(v@ =~= before.push(sep) + t.last());
            }
        }
        k = k + 1;
    }
    assert(all.take(parts@.len() as int) =~= all);
    string_of_all(&v)
}

/// The non-empty runs of `v` between characters of `set`.
pub fn components_of(v: &Vec<char>, set: CharSet) -> (out: Vec<String>)
    ensures
        views(out@) == split_components(v@, set),
{
    let mut out: Vec<String> = Vec::new();
    let mut cur: Vec<char> = Vec::new();
    let mut i: usize = 0;
    while i < v.len()
        invariant
            i <= v@.len(),
            cur@ == after_last(v@.take(i as int), set),
            split_components(v@.take(i as int), set) == if cur@.len() > 0 {
                views(out@).push(cur@)
            } else {
                views(out@)
            },
        decreases v@.len() - i,
    {
        let c = v[i];
        let ghost s = v@.take(i + 1);
        assert(s.drop_last() =~= v@.take(i as int));
        assert(s.last() == c);
        if set.contains(c) {
            if cur.len() > 0 {
                let ghost prev = out@;
                out.push(string_of_all(&cur));
                assert(views(out@) =~= views(prev).push(cur@));
            }
            cur = Vec::new();
            assert(after_last(s, set) =~= Seq::<char>::empty());
            assert(split_components(s, set) == split_components(s.drop_last(), set));
        } else {
            let ghost before = cur@;
            cur.push(c);
            assert(after_last(s, set) == after_last(s.drop_last(), set).push(c));
            proof {
                if before.len() > 0 {
                    assert(split_components(s, set) =~= views(out@).push(before).update(
                        views(out@).len() as int,
                        before.push(c),
                    ));
                    assert(views(out@).push(before).update(views(out@).len() as int, before.push(c))
                        =~= views(out@).push(cur@));
                } else {
                    assert(cur@ =~= seq![c]);
                    assert(split_components(s, set) == split_components(s.drop_last(), set).push(seq![c]));
                }
                assert(split_components(s, set) == views(out@).push(cur@));
            }
        }
        i = i + 1;
    }
    assert(v@.take(v@.len() as int) =~= v@);
    if cur.len() > 0 {
        let ghost prev = out@;
        out.push(string_of_all(&cur));
        assert(views(out@) =~= views(prev).push(cur@));
    }
    out
}

/// All characters are ASCII digits.
pub open spec fn all_digits(s: Seq<char>) -> bool {
    forall|i: int| 0 <= i < s.len() ==> '0' <= #[trigger] s[i] <= '9'
}

/// The number that a run of ASCII digits denotes.
pub open spec fn digits_value(s: Seq<char>) -> nat
    decreases s.len(),
{
    if s.len() == 0 {
        0
    } else {
        digits_value(s.drop_last()) * 10 + ((s.last() as u32) - 48) as nat
    }
}

/// The digits after an optional leading `+`.
pub open spec fn unsigned_body(s: Seq<char>) -> Seq<char> {
    if s.len() > 0 && s[0] == '+' {
        s.drop_first()
    } else {
        s
    }
}

/// The value of a decimal unsigned integer as `FromStr` for the unsigned
/// integer types reads it: an optional `+`, then one or more ASCII digits.
pub open spec fn unsigned_text_value(s: Seq<char>) -> Option<nat> {
    let body = unsigned_body(s);
    if body.len() > 0 && all_digits(body) {
        Some(digits_value(body))
    } else {
        None
    }
}

/// The value of a decimal signed integer as `FromStr` for the signed integer
/// types reads it: an optional `+` or `-`, then one or more ASCII digits.
pub open spec fn signed_text_value(s: Seq<char>) -> Option<int> {
    if s.len() > 0 && s[0] == '-' {
        let body = s.drop_first();
        if body.len() > 0 && all_digits(body) {
            Some(-(digits_value(body) as int))
        } else {
            None
        }
    } else {
        match unsigned_text_value(s) {
            Some(v) => Some(v as int),
            None => None,
        }
    }
}

proof fn lemma_digits_value_mono(s: Seq<char>, j: int, k: int)
    requires
        0 <= j <= k <= s.len(),
        all_digits(s),
    ensures
        digits_value(s.take(j)) <= digits_value(s.take(k)),
    decreases k - j,
{
    if j < k {
        lemma_digits_value_mono(s, j, k - 1);
        assert(s.take(k).drop_last() =~= s.take(k - 1));
    }
}

/// The value of the ASCII digits `v[lo..hi]`, or `None` when there are none,
/// one is not a digit, or the value exceeds `u64::MAX`.
fn digits_u64(v: &Vec<char>, lo: usize, hi: usize) -> (r: Option<u64>)
    requires
        lo <= hi <= v@.len(),
    ensures
        ({
            let body = v@.subrange(lo as int, hi as int);
            r == if body.len() > 0 && all_digits(body) && digits_value(body) <= u64::MAX {
                Some(digits_value(body) as u64)
            } else {
                None::<u64>
            }
        }),
{
    let ghost body = v@.subrange(lo as int, hi as int);
    if lo == hi {
        return None;
    }
    let mut i = lo;
    let mut value: u64 = 0;
    while i < hi
        invariant
            lo <= i <= hi <= v@.len(),
            body == v@.subrange(lo as int, hi as int),
            all_digits(body.take(i - lo)),
            value == digits_value(body.take(i - lo)),
        decreases hi - i,
    {
        let c = v[i];
        assert(body[i - lo] == c);
        if !('0' <= c && c <= '9') {
            assert(!all_digits(body));
            return None;
        }
        let d: u64 = (c as u32 - 48) as u64;
        assert(body.take(i - lo + 1).drop_last() =~= body.take(i - lo));
        assert(all_digits(body.take(i - lo + 1)));
        if value > (u64::MAX - d) / 10 {
            proof {
                assert(value * 10 + d > u64::MAX) by (nonlinear_arith)
                    requires
                        value > (u64::MAX - d) / 10,
                        d <= 9,
                ;
                if all_digits(body) {
                    lemma_digits_value_mono(body, i - lo + 1, body.len() as int);
                    assert(body.take(body.len() as int) =~= body);
                }
            }
            return None;
        }
        value = value * 10 + d;
        i = i + 1;
    }
    assert(body.take(hi - lo) =~= body);
    Some(value)
}

/// `FromStr` for `u64`.
pub fn parse_u64(s: &str) -> (r: Option<u64>)
    ensures
        r == match unsigned_text_value(s@) {
            Some(v) => if v <= u64::MAX {
                Some(v as u64)
            } else {
                None
            },
            None => None,
        },
{
    let v = chars_of(s);
    let lo: usize = if v.len() > 0 && v[0] == '+' {
        1
    } else {
        0
    };
    assert(unsigned_body(v@) =~= v@.subrange(lo as int, v@.len() as int));
    digits_u64(&v, lo, v.len())
}

/// `FromStr` for `u32`.
pub fn parse_u32(s: &str) -> (r: Option<u32>)
    ensures
        r == match unsigned_text_value(s@) {
            Some(v) => if v <= u32::MAX {
                Some(v as u32)
            } else {
                None
            },
            None => None,
        },
{
    match parse_u64(s) {
        Some(v) => if v <= u32::MAX as u64 {
            Some(v as u32)
        } else {
            None
        },
        None => None,
    }
}

/// `FromStr` for `usize`.
pub fn parse_usize(s: &str) -> (r: Option<usize>)
    ensures
        r == match unsigned_text_value(s@) {
            Some(v) => if v <= usize::MAX {
                Some(v as usize)
            } else {
                None
            },
            None => None,
        },
{
    match parse_u64(s) {
        Some(v) => if v <= usize::MAX as u64 {
            Some(v as usize)
        } else {
            None
        },
        None => None,
    }
}

/// `FromStr` for `i32`.
pub fn parse_i32(s: &str) -> (r: Option<i32>)
    ensures
        r == match signed_text_value(s@) {
            Some(v) => if i32::MIN <= v <= i32::MAX {
                Some(v as i32)
            } else {
                None
            },
            None => None,
        },
{
    let v = chars_of(s);
    if v.len() > 0 && v[0] == '-' {
        assert(v@.drop_first() =~= v@.subrange(1, v@.len() as int));
        match digits_u64(&v, 1, v.len()) {
            Some(m) => if m <= 2147483648 {
                Some((0 - (m as i64)) as i32)
            } else {
                None
            },
            None => None,
        }
    } else {
        assert(unsigned_body(v@) =~= v@.subrange(
            if v@.len() > 0 && v@[0] == '+' { 1 } else { 0 },
            v@.len() as int,
        ));
        let lo: usize = if v.len() > 0 && v[0] == '+' {
            1
        } else {
            0
        };
        match digits_u64(&v, lo, v.len()) {
            Some(m) => if m <= 2147483647 {
                Some(m as i32)
            } else {
                None
            },
            None => None,
        }
    }
}

/// Stripping leaves no character of the set at the front, and keeps the end.
pub proof fn lemma_strip_leading_ends(s: Seq<char>, set: CharSet)
    ensures
        strip_leading(s, set).len() > 0 ==> !set.has(strip_leading(s, set)[0]),
        strip_leading(s, set).len() <= s.len(),
        strip_leading(s, set).len() > 0 ==> strip_leading(s, set).last() == s.last(),
    decreases s.len(),
{
    if s.len() > 0 && set.has(s[0]) {
        lemma_strip_leading_ends(s.drop_first(), set);
    }
}

/// Stripping leaves no character of the set at the end, and keeps the front.
pub proof fn lemma_strip_trailing_ends(s: Seq<char>, set: CharSet)
    ensures
        strip_trailing(s, set).len() > 0 ==> !set.has(strip_trailing(s, set).last()),
        strip_trailing(s, set).len() > 0 ==> strip_trailing(s, set)[0] == s[0],
    decreases s.len(),
{
    if s.len() > 0 && set.has(s.last()) {
        lemma_strip_trailing_ends(s.drop_last(), set);
    }
}

/// A trimmed text neither starts nor ends with a character of the set.
pub proof fn lemma_trim_set_ends(s: Seq<char>, set: CharSet)
    ensures
        trim_set(s, set).len() > 0 ==> !set.has(trim_set(s, set)[0]) && !set.has(trim_set(s, set).last()),
{
    lemma_strip_leading_ends(s, set);
    lemma_strip_trailing_ends(strip_leading(s, set), set);
}

/// A text that neither starts nor ends with a character of the set is its
/// own trim.
pub proof fn lemma_trim_set_fixed(s: Seq<char>, set: CharSet)
    requires
        s.len() > 0 ==> !set.has(s[0]) && !set.has(s.last()),
    ensures
        trim_set(s, set) == s,
{
}

/// ASCII lower-casing twice is lower-casing once, and leaves no upper-case
/// ASCII letter.
pub proof fn lemma_lower_idempotent(s: Seq<char>)
    ensures
        lower(lower(s)) == lower(s),
        forall|i: int| 0 <= i < s.len() ==> !('A' <= #[trigger] lower(s)[i] <= 'Z'),
{
    assert forall|i: int| 0 <= i < s.len() implies !('A' <= #[trigger] lower(s)[i] <= 'Z') by {
        let c = s[i];
        if 'A' <= c && c <= 'Z' {
            assert((c as u32) + 32 >= 97);
        }
    }
    assert(lower(lower(s)) =~= lower(s));
}


} // verus!
