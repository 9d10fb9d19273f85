//! Rules of the Compiled Text workspace: recognising compiled files by name
//! or by their Base64 shape, export names, the compression setting, and
//! whether the encoded output still matches the edited document.
use vstd::prelude::*;

use crate::text::{chars_of, has_suffix, lower, lower_char, push_str, string_of, string_of_all};

verus! {

/// Whether a file holds plain text or a compiled document.
#[derive(Clone, Copy, Debug, PartialEq, Eq, Structural)]
pub enum SourceKind {
    Plain,
    Compiled,
}

impl SourceKind {
    /// The name shown for a source kind.
    pub fn label(self) -> (s: &'static str)
        ensures
            self == SourceKind::Plain ==> s@ == "原始文本"@,
            self == SourceKind::Compiled ==> s@ == "Compiled Text"@,
    {
        match self {
            SourceKind::Plain => "原始文本",
            SourceKind::Compiled => "Compiled Text",
        }
    }
}

/// `u8::is_ascii_whitespace`: space, tab, line feed, form feed, carriage return.
pub open spec fn is_ascii_space(b: u8) -> bool {
    b == 0x20 || b == 0x09 || b == 0x0a || b == 0x0c || b == 0x0d
}

/// A Base64 alphabet byte, padding included.
pub open spec fn is_base64_byte(b: u8) -> bool {
    (0x30 <= b <= 0x39) || (0x41 <= b <= 0x5a) || (0x61 <= b <= 0x7a) || b == 0x2b || b == 0x2f || b == 0x3d
}

/// The bytes that are not ASCII whitespace, in order.
pub open spec fn compact(data: Seq<u8>) -> Seq<u8>
    decreases data.len(),
{
    if data.len() == 0 {
        Seq::empty()
    } else if is_ascii_space(data.last()) {
        compact(data.drop_last())
    } else {
        compact(data.drop_last()).push(data.last())
    }
}

/// How many `=` end `s`.
pub open spec fn trailing_padding(s: Seq<u8>) -> nat
    decreases s.len(),
{
    if s.len() == 0 || s.last() != 0x3d {
        0
    } else {
        1 + trailing_padding(s.drop_last())
    }
}

/// Whether the compacted data has the Base64 shape the shape test looks at:
/// a non-empty multiple of four bytes, all from the alphabet.
pub open spec fn base64_shaped(c: Seq<u8>) -> bool {
    c.len() > 0 && c.len() % 4 == 0 && forall|i: int| 0 <= i < c.len() ==> is_base64_byte(#[trigger] c[i])
}

/// Inputs the shape test can handle: when the data has the Base64 shape, its
/// padding does not exceed the decoded length it would give.
pub open spec fn shape_test_defined(name: Seq<char>, data: Seq<u8>) -> bool {
    let l = lower(name);
    let c = compact(data);
    (has_suffix(l, ".compiled"@) || has_suffix(l, ".compiled.txt"@) || !base64_shaped(c)) || trailing_padding(c)
        <= c.len() / 4 * 3
}

/// How a file is classified: by a `.compiled` or `.compiled.txt` name (in
/// any case); otherwise as compiled when, ignoring ASCII whitespace, it is
/// Base64 whose decoded length is a positive multiple of 24.
pub open spec fn spec_detect(name: Seq<char>, data: Seq<u8>) -> SourceKind {
    let l = lower(name);
    let c = compact(data);
    if has_suffix(l, ".compiled"@) || has_suffix(l, ".compiled.txt"@) {
        SourceKind::Compiled
    } else if !base64_shaped(c) {
        SourceKind::Plain
    } else {
        let decoded = c.len() / 4 * 3 - trailing_padding(c);
        if decoded > 0 && decoded % 24 == 0 {
            SourceKind::Compiled
        } else {
            SourceKind::Plain
        }
    }
}

/// Whether a file is compiled text.
pub fn detect_source_kind(name: &str, data: &[u8]) -> (k: SourceKind)
    requires
        shape_test_defined(name@, data@),
    ensures
        k == spec_detect(name@, data@),
{
    let v = chars_of(name);
    if crate::text::ends_with_lower(&v, ".compiled") || crate::text::ends_with_lower(&v, ".compiled.txt") {
        return SourceKind::Compiled;
    }
    let mut c: Vec<u8> = Vec::new();
    let mut i: usize = 0;
    while i < data.len()
        invariant
            i <= data@.len(),
            c@ == compact(data@.take(i as int)),
        decreases data@.len() - i,
    {
        assert(data@.take(i + 1).drop_last() =~= data@.take(i as int));
        let b = data[i];
        if !(b == 0x20 || b == 0x09 || b == 0x0a || b == 0x0c || b == 0x0d) {
            c.push(b);
        }
        i = i + 1;
    }
    assert(data@.take(data@.len() as int) =~= data@);
    if c.len() == 0 || c.len() % 4 != 0 {
        return SourceKind::Plain;
    }
    let ghost cv = compact(data@);
    let mut k: usize = 0;
    while k < c.len()
        invariant
            c@ == cv,
            cv == compact(data@),
            !(has_suffix(lower(name@), ".compiled"@) || has_suffix(lower(name@), ".compiled.txt"@)),
            c@.len() > 0 && c@.len() % 4 == 0,
            k <= c@.len(),
            forall|j: int| 0 <= j < k ==> is_base64_byte(#[trigger] c@[j]),
        decreases c@.len() - k,
    {
        let b = c[k];
        if !((0x30 <= b && b <= 0x39) || (0x41 <= b && b <= 0x5a) || (0x61 <= b && b <= 0x7a) || b == 0x2b || b
            == 0x2f || b == 0x3d) {
            assert(!is_base64_byte(c@[k as int]));
            return SourceKind::Plain;
        }
        k = k + 1;
    }
    let mut padding: usize = 0;
    let cl = c.len();
    let mut j: usize = cl;
    assert(c@.take(c@.len() as int) =~= c@);
    while j > 0 && c[j - 1] == 0x3d
        invariant
            c@ == cv,
            cl == c@.len(),
            j <= c@.len(),
            padding + j == c@.len(),
            trailing_padding(c@) == padding + trailing_padding(c@.take(j as int)),
        decreases j,
    {
        assert(c@.take(j as int).drop_last() =~= c@.take(j - 1));
        padding = padding + 1;
        j = j - 1;
    }
    assert(trailing_padding(c@.take(j as int)) == 0);
    let decoded = c.len() / 4 * 3 - padding;
    if decoded > 0 && decoded % 24 == 0 {
        SourceKind::Compiled
    } else {
        SourceKind::Plain
    }
}

/// The name the decoded text is exported under: `.compiled.txt` becomes
/// `.txt`, `.compiled` is dropped, and an empty result is `decoded.txt`.
pub open spec fn spec_plain_output_name(name: Seq<char>) -> Seq<char> {
    let l = lower(name);
    if has_suffix(l, ".compiled.txt"@) {
        let stem = name.subrange(0, name.len() - 13);
        if stem.len() == 0 {
            "decoded.txt"@
        } else {
            stem + ".txt"@
        }
    } else if has_suffix(l, ".compiled"@) {
        let stem = name.subrange(0, name.len() - 9);
        if stem.len() == 0 {
            "decoded.txt"@
        } else {
            stem
        }
    } else if name.len() == 0 {
        "decoded.txt"@
    } else {
        name
    }
}

/// The name the decoded text is exported under.
pub fn plain_output_name(name: &str) -> (s: String)
    ensures
        s@ == spec_plain_output_name(name@),
{
    let v = chars_of(name);
    proof {
        reveal_strlit(".compiled.txt");
        reveal_strlit(".compiled");
        crate::text::lemma_lower_len(name@);
    }
    if crate::text::ends_with_lower(&v, ".compiled.txt") {
        if v.len() == 13 {
            return "decoded.txt".to_owned();
        }
        let mut w: Vec<char> = Vec::new();
        crate::text::push_range(&mut w, &v, 0, v.len() - 13);
        push_str(&mut w, ".txt");
        return string_of_all(&w);
    }
    if crate::text::ends_with_lower(&v, ".compiled") {
        if v.len() == 9 {
            return "decoded.txt".to_owned();
        }
        return string_of(&v, 0, v.len() - 9);
    }
    if v.len() == 0 {
        "decoded.txt".to_owned()
    } else {
        string_of_all(&v)
    }
}

/// The name the compiled document is exported under: `.compiled` is added
/// unless present (in any case); an empty name gives `untitled.txt.compiled`.
pub open spec fn spec_compiled_output_name(name: Seq<char>) -> Seq<char> {
    if has_suffix(lower(name), ".compiled"@) {
        name
    } else if name.len() == 0 {
        "untitled.txt.compiled"@
    } else {
        name + ".compiled"@
    }
}

/// The name the compiled document is exported under.
pub fn compiled_output_name(name: &str) -> (s: String)
    ensures
        s@ == spec_compiled_output_name(name@),
{
    let v = chars_of(name);
    if crate::text::ends_with_lower(&v, ".compiled") {
        string_of_all(&v)
    } else if v.len() == 0 {
        "untitled.txt.compiled".to_owned()
    } else {
        let mut w = v;
        push_str(&mut w, ".compiled");
        string_of_all(&w)
    }
}

/// The compression level typed into the settings: a `u32` of at most 9.
pub fn parse_compression_level(value: &str) -> (r: Option<u32>)
    ensures
        ({
            let v = crate::text::unsigned_text_value(value@);
            if v is Some && v->0 <= 9 {
                r == Some(v->0 as u32)
            } else {
                r is None
            }
        }),
{
    match crate::text::parse_u32(value) {
        Some(v) => if v <= 9 {
            Some(v)
        } else {
            None
        },
        None => None,
    }
}

/// Which edit of the document the encoded output was built from.
#[derive(Clone, Copy, Debug, PartialEq, Eq, Structural)]
pub struct EncodeState {
    /// Counts the edits of the document, wrapping.
    pub generation: u64,
    /// Whether there is encoded output.
    pub has_encoded: bool,
    /// The generation the encoded output was built from.
    pub encoded_generation: Option<u64>,
}

impl EncodeState {
    /// Whether the encoded output matches the document as it is now.
    pub open spec fn spec_current(self) -> bool {
        self.has_encoded && self.encoded_generation == Some(self.generation)
    }

    /// Whether the encoded output matches the document as it is now.
    pub fn current(&self) -> (r: bool)
        ensures
            r == self.spec_current(),
    {
        self.has_encoded && match self.encoded_generation {
            Some(g) => g == self.generation,
            None => false,
        }
    }

    /// The document changed.
    pub fn edited(&mut self)
        ensures
            final(self).generation == old(self).generation.wrapping_add(1),
            final(self).has_encoded == old(self).has_encoded,
            final(self).encoded_generation == old(self).encoded_generation,
    {
        self.generation = self.generation.wrapping_add(1);
    }

    /// A tab just opened from a source of kind `kind`: a compiled source is
    /// its own current output; a plain one has none yet.
    pub fn opened(kind: SourceKind) -> (s: Self)
        ensures
            s.generation == 0,
            s.has_encoded == (kind == SourceKind::Compiled),
            s.encoded_generation == if kind == SourceKind::Compiled { Some(0u64) } else { None },
    {
        match kind {
            SourceKind::Compiled => EncodeState { generation: 0, has_encoded: true, encoded_generation: Some(0) },
            SourceKind::Plain => EncodeState { generation: 0, has_encoded: false, encoded_generation: None },
        }
    }

    /// The source was declared to be of another kind: a new generation
    /// starts; a compiled source becomes the current output, a plain one
    /// drops the output.
    pub fn source_kind_changed(&mut self, kind: SourceKind)
        ensures
            final(self).generation == old(self).generation.wrapping_add(1),
            kind == SourceKind::Compiled ==> final(self).spec_current(),
            kind == SourceKind::Plain ==> !final(self).has_encoded && final(self).encoded_generation is None,
    {
        self.generation = self.generation.wrapping_add(1);
        match kind {
            SourceKind::Compiled => {
                self.has_encoded = true;
                self.encoded_generation = Some(self.generation);
            },
            SourceKind::Plain => {
                self.has_encoded = false;
                self.encoded_generation = None;
            },
        }
    }

    /// Output was encoded from generation `generation`.
    pub fn encoded(&mut self, generation: u64)
        ensures
            final(self).generation == old(self).generation,
            final(self).has_encoded,
            final(self).encoded_generation == Some(generation),
    {
        self.has_encoded = true;
        self.encoded_generation = Some(generation);
    }
}

/// Output encoded from the current document is current, and any edit after
/// it makes it stale.
pub proof fn lemma_edit_makes_output_stale(s: EncodeState)
    ensures
        (EncodeState { has_encoded: true, encoded_generation: Some(s.generation), ..s }).spec_current(),
        !(EncodeState { generation: s.generation.wrapping_add(1), has_encoded: true, encoded_generation: Some(s.generation), ..s }).spec_current(),
{
    let g = s.generation;
    assert(g.wrapping_add(1) != g);
}

/// Exporting a decoded name as compiled and then as plain text gives the
/// name back: for a non-empty name that does not already end in
/// `.compiled` (in any case), `.compiled` is added and then dropped again.
pub proof fn lemma_output_names_round_trip(name: Seq<char>)
    requires
        name.len() > 0,
        !has_suffix(lower(name), ".compiled"@),
    ensures
        spec_plain_output_name(spec_compiled_output_name(name)) == name,
{
    reveal_strlit(".compiled");
    reveal_strlit(".compiled.txt");
    let compiled = name + ".compiled"@;
    assert(spec_compiled_output_name(name) == compiled);
    let l = lower(compiled);
    assert(l.len() == compiled.len());
    assert(l.subrange(l.len() - 9, l.len() as int) =~= ".compiled"@) by {
        assert forall|k: int| 0 <= k < 9 implies l.subrange(l.len() - 9, l.len() as int)[k] == ".compiled"@[k] by {
            assert(l[name.len() + k] == lower_char(compiled[name.len() + k]));
            assert(compiled[name.len() + k] == ".compiled"@[k]);
        }
    }
    assert(has_suffix(l, ".compiled"@));
    assert(!has_suffix(l, ".compiled.txt"@)) by {
        assert(l[l.len() - 1] == 'd');
        assert(".compiled.txt"@[12] == 't');
        if has_suffix(l, ".compiled.txt"@) {
            assert(l.subrange(l.len() - 13, l.len() as int)[12] == l[l.len() - 1]);
        }
    }
    assert(compiled.subrange(0, compiled.len() - 9) =~= name);
}

} // verus!
