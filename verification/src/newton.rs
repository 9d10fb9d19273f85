//! Rules of the NEWTON resource manifest editor: the text formats a
//! manifest is read and written as, export names, fresh group and record
//! identifiers, the optional number fields, and resource types.
use vstd::prelude::*;

use crate::text::{
    after_last, chars_of, decimal, digit_char, holds_any, lower, push_decimal, push_str, string_of, string_of_all,
    trim, trimmed, views, CharSet,
};

verus! {

/// The formats a manifest is read from and written to.
#[derive(Clone, Copy, Debug, PartialEq, Eq, Structural)]
pub enum ManifestFormat {
    Newton,
    Json,
    Yaml,
    Toml,
}

/// The extension of a file name: what follows its last `.`, if it has one.
pub open spec fn extension_of(name: Seq<char>) -> Option<Seq<char>> {
    if holds_any(name, CharSet::Dot) {
        Some(after_last(name, CharSet::Dot))
    } else {
        None
    }
}

/// The format a file name announces, by its extension in any case; the
/// binary format otherwise.
pub open spec fn spec_format_from_name(name: Seq<char>) -> ManifestFormat {
    match extension_of(name) {
        Some(e) => if lower(e) == "json"@ {
            ManifestFormat::Json
        } else if lower(e) == "yaml"@ || lower(e) == "yml"@ {
            ManifestFormat::Yaml
        } else if lower(e) == "toml"@ {
            ManifestFormat::Toml
        } else {
            ManifestFormat::Newton
        },
        None => ManifestFormat::Newton,
    }
}

/// Whether the characters of `v` spell `word`.
fn spells(v: &Vec<char>, word: &str) -> (r: bool)
    ensures
        r == (v@ == word@),
{
    let w = chars_of(word);
    assert(v@.subrange(0, v@.len() as int) =~= v@);
    crate::text::range_equals(v, 0, v.len(), &w)
}

impl ManifestFormat {
    /// The format's name.
    pub fn label(self) -> (s: &'static str)
        ensures
            self == ManifestFormat::Newton ==> s@ == "NEWTON"@,
            self == ManifestFormat::Json ==> s@ == "JSON"@,
            self == ManifestFormat::Yaml ==> s@ == "YAML"@,
            self == ManifestFormat::Toml ==> s@ == "TOML"@,
    {
        match self {
            ManifestFormat::Newton => "NEWTON",
            ManifestFormat::Json => "JSON",
            ManifestFormat::Yaml => "YAML",
            ManifestFormat::Toml => "TOML",
        }
    }

    /// What the format is, in a few words.
    pub fn description(self) -> (s: &'static str)
        ensures
            self == ManifestFormat::Newton ==> s@ == "官方二进制清单"@,
            self == ManifestFormat::Json ==> s@ == "格式化 JSON 文本"@,
            self == ManifestFormat::Yaml ==> s@ == "易读 YAML 文本"@,
            self == ManifestFormat::Toml ==> s@ == "TOML 配置文本"@,
    {
        match self {
            ManifestFormat::Newton => "官方二进制清单",
            ManifestFormat::Json => "格式化 JSON 文本",
            ManifestFormat::Yaml => "易读 YAML 文本",
            ManifestFormat::Toml => "TOML 配置文本",
        }
    }

    pub open spec fn spec_extension(self) -> Seq<char> {
        match self {
            ManifestFormat::Newton => "newton"@,
            ManifestFormat::Json => "json"@,
            ManifestFormat::Yaml => "yaml"@,
            ManifestFormat::Toml => "toml"@,
        }
    }

    /// The usual extension of the format.
    pub fn extension(self) -> (s: &'static str)
        ensures
            s@ == self.spec_extension(),
    {
        match self {
            ManifestFormat::Newton => "newton",
            ManifestFormat::Json => "json",
            ManifestFormat::Yaml => "yaml",
            ManifestFormat::Toml => "toml",
        }
    }

    /// The name of the save dialog's filter.
    pub fn filter_name(self) -> (s: &'static str)
        ensures
            self == ManifestFormat::Newton ==> s@ == "NEWTON manifest"@,
            self == ManifestFormat::Json ==> s@ == "JSON document"@,
            self == ManifestFormat::Yaml ==> s@ == "YAML document"@,
            self == ManifestFormat::Toml ==> s@ == "TOML document"@,
    {
        match self {
            ManifestFormat::Newton => "NEWTON manifest",
            ManifestFormat::Json => "JSON document",
            ManifestFormat::Yaml => "YAML document",
            ManifestFormat::Toml => "TOML document",
        }
    }

    /// The extensions the save dialog's filter accepts.
    pub fn filter_extensions(self) -> (v: Vec<&'static str>)
        ensures
            self == ManifestFormat::Yaml ==> v@.len() == 2 && v@[0]@ == "yaml"@ && v@[1]@ == "yml"@,
            self != ManifestFormat::Yaml ==> v@.len() == 1 && v@[0]@ == self.spec_extension(),
    {
        let mut v: Vec<&'static str> = Vec::new();
        v.push(self.extension());
        if let ManifestFormat::Yaml = self {
            v.push("yml");
        }
        v
    }

    pub open spec fn spec_export_extension(self) -> Seq<char> {
        match self {
            ManifestFormat::Newton => "NEWTON"@,
            _ => self.spec_extension(),
        }
    }

    /// The extension exports are written with: upper case for the binary format.
    pub fn export_extension(self) -> (s: &'static str)
        ensures
            s@ == self.spec_export_extension(),
    {
        match self {
            ManifestFormat::Newton => "NEWTON",
            _ => self.extension(),
        }
    }

    /// The format a file name announces.
    pub fn from_file_name(name: &str) -> (f: Self)
        ensures
            f == spec_format_from_name(name@),
    {
        let v = chars_of(name);
        if !crate::text::contains_any(&v, CharSet::Dot) {
            return ManifestFormat::Newton;
        }
        let start = crate::text::last_segment_start(&v, 0, v.len(), CharSet::Dot);
        assert(v@.subrange(0, v@.len() as int) =~= v@);
        let mut ext: Vec<char> = Vec::new();
        crate::text::push_range(&mut ext, &v, start, v.len());
        let e = crate::text::lower_vec(&ext);
        if spells(&e, "json") {
            ManifestFormat::Json
        } else if spells(&e, "yaml") || spells(&e, "yml") {
            ManifestFormat::Yaml
        } else if spells(&e, "toml") {
            ManifestFormat::Toml
        } else {
            ManifestFormat::Newton
        }
    }
}

/// The name a manifest is exported under: the last component of its source
/// name without its extension (`RESOURCES` when nothing is left or there is
/// no extension), with the format's export extension.
pub open spec fn spec_export_name(source: Seq<char>, format: ManifestFormat) -> Seq<char> {
    let leaf = after_last(source, CharSet::Separators);
    let stem = if holds_any(leaf, CharSet::Dot) && leaf.len() - after_last(leaf, CharSet::Dot).len() - 1 > 0 {
        leaf.subrange(0, leaf.len() - after_last(leaf, CharSet::Dot).len() - 1)
    } else {
        "RESOURCES"@
    };
    stem + "."@ + format.spec_export_extension()
}

/// The name a manifest is exported under.
pub fn manifest_export_name(source_name: &str, format: ManifestFormat) -> (s: String)
    ensures
        s@ == spec_export_name(source_name@, format),
{
    let v = chars_of(source_name);
    let leaf_start = crate::text::last_segment_start(&v, 0, v.len(), CharSet::Separators);
    assert(v@.subrange(0, v@.len() as int) =~= v@);
    let mut leaf: Vec<char> = Vec::new();
    crate::text::push_range(&mut leaf, &v, leaf_start, v.len());
    let dot = crate::text::last_segment_start(&leaf, 0, leaf.len(), CharSet::Dot);
    assert(leaf@.subrange(0, leaf@.len() as int) =~= leaf@);
    let mut out: Vec<char> = Vec::new();
    if dot > 1 {
        crate::text::push_range(&mut out, &leaf, 0, dot - 1);
    } else {
        push_str(&mut out, "RESOURCES");
    }
    push_str(&mut out, ".");
    push_str(&mut out, format.export_extension());
    string_of_all(&out)
}

/// The decimal notation of a number has at least one digit.
proof fn lemma_decimal_nonempty(n: nat)
    ensures
        decimal(n).len() >= 1,
    decreases n,
{
    if n >= 10 {
        lemma_decimal_nonempty(n / 10);
    }
}

/// Different numbers have different decimal notations.
pub proof fn lemma_decimal_injective(a: nat, b: nat)
    ensures
        decimal(a) == decimal(b) ==> a == b,
    decreases a,
{
    if decimal(a) == decimal(b) {
        if a < 10 && b < 10 {
            assert(decimal(a)[0] == digit_char(a));
            assert(decimal(b)[0] == digit_char(b));
        } else if a < 10 {
            lemma_decimal_nonempty(b / 10);
            assert(decimal(b).len() >= 2);
        } else if b < 10 {
            lemma_decimal_nonempty(a / 10);
            assert(decimal(a).len() >= 2);
        } else {
            assert(decimal(a).last() == digit_char(a % 10));
            assert(decimal(b).last() == digit_char(b % 10));
            assert(decimal(a).drop_last() =~= decimal(a / 10));
            assert(decimal(b).drop_last() =~= decimal(b / 10));
            lemma_decimal_injective(a / 10, b / 10);
        }
    }
}

/// The `k`-th alternative to a taken identifier.
pub open spec fn numbered_id(base: Seq<char>, k: nat) -> Seq<char> {
    base + "_"@ + decimal(k)
}

/// Whether `ids` holds `s`.
fn holds_id(ids: &Vec<String>, s: &String) -> (r: bool)
    ensures
        r == views(ids@).contains(s@),
{
    let mut i: usize = 0;
    while i < ids.len()
        invariant
            i <= ids@.len(),
            forall|j: int| 0 <= j < i ==> ids@[j]@ != s@,
        decreases ids@.len() - i,
    {
        if ids[i] == *s {
            assert(views(ids@)[i as int] == s@);
            return true;
        }
        i = i + 1;
    }
    proof {
        if views(ids@).contains(s@) {
            let w = choose|w: int| 0 <= w < views(ids@).len() && views(ids@)[w] == s@;
            assert(ids@[w]@ == s@);
        }
    }
    false
}

/// Numbered alternatives `2..=n+2` cannot all be taken among `n` identifiers.
proof fn lemma_some_number_free(ids: Seq<Seq<char>>, base: Seq<char>)
    ensures
        exists|k: nat| 2 <= k <= ids.len() + 2 && !ids.contains(#[trigger] numbered_id(base, k)),
{
    if forall|k: nat| 2 <= k <= ids.len() + 2 ==> ids.contains(#[trigger] numbered_id(base, k)) {
        let cand = Seq::new((ids.len() + 1) as nat, |i: int| numbered_id(base, (i + 2) as nat));
        assert forall|i: int, j: int| 0 <= i < cand.len() && 0 <= j < cand.len() && i != j implies cand[i] != cand[j] by {
            if cand[i] == cand[j] {
                let p = base + "_"@;
                assert(cand[i].subrange(p.len() as int, cand[i].len() as int) =~= decimal((i + 2) as nat));
                assert(cand[j].subrange(p.len() as int, cand[j].len() as int) =~= decimal((j + 2) as nat));
                lemma_decimal_injective((i + 2) as nat, (j + 2) as nat);
            }
        }
        assert(cand.no_duplicates());
        cand.unique_seq_to_set();
        ids.lemma_cardinality_of_set();
        assert forall|x: Seq<char>| cand.to_set().contains(x) implies ids.to_set().contains(x) by {
            let w = choose|w: int| 0 <= w < cand.len() && cand[w] == x;
            assert(ids.contains(numbered_id(base, (w + 2) as nat)));
        }
        vstd::set_lib::lemma_len_subset(cand.to_set(), ids.to_set());
    }
}

/// A group identifier not yet taken: `base` itself, or else `base_k` for
/// the least `k` from 2 on that is free.
pub fn unique_group_id(ids: &Vec<String>, base: &str) -> (r: String)
    requires
        ids@.len() + 2 <= usize::MAX,
    ensures
        !views(ids@).contains(r@),
        !views(ids@).contains(base@) ==> r@ == base@,
        views(ids@).contains(base@) ==> exists|k: nat|
            2 <= k && r@ == numbered_id(base@, k) && forall|j: nat| 2 <= j < k ==> views(ids@).contains(
                #[trigger] numbered_id(base@, j),
            ),
{
    let plain = base.to_owned();
    if !holds_id(ids, &plain) {
        return plain;
    }
    let ghost all = views(ids@);
    proof {
        lemma_some_number_free(all, base@);
    }
    let n = ids.len();
    let mut k: usize = 2;
    loop
        invariant
            all == views(ids@),
            n == ids@.len(),
            n == all.len(),
            all.contains(base@),
            n + 2 <= usize::MAX,
            2 <= k <= n + 2,
            forall|j: nat| 2 <= j < k ==> all.contains(#[trigger] numbered_id(base@, j)),
            exists|m: nat| k <= m <= all.len() + 2 && !all.contains(#[trigger] numbered_id(base@, m)),
        decreases n + 2 - k,
    {
        let mut v = chars_of(base);
        push_str(&mut v, "_");
        push_decimal(&mut v, k as u64);
        let candidate = string_of_all(&v);
        assert(candidate@ == numbered_id(base@, k as nat));
        if !holds_id(ids, &candidate) {
            return candidate;
        }
        proof {
            let m = choose|m: nat| k <= m <= all.len() + 2 && !all.contains(#[trigger] numbered_id(base@, m));
            assert(m != k);
        }
        k = k + 1;
    }
}

/// A text field's value, unless it is blank.
pub fn nonempty(value: String) -> (r: Option<String>)
    ensures
        trim(value@).len() == 0 ==> r is None,
        trim(value@).len() > 0 ==> r == Some(value),
{
    let v = chars_of(value.as_str());
    let t = trimmed(&v, CharSet::Whitespace);
    if t.len() == 0 {
        None
    } else {
        Some(value)
    }
}

/// An optional number as its text field shows it: blank when absent.
pub fn optional_u32_text(value: Option<u32>) -> (s: String)
    ensures
        value matches Some(v) ==> s@ == decimal(v as nat),
        value is None ==> s@ == Seq::<char>::empty(),
{
    let mut out: Vec<char> = Vec::new();
    if let Some(v) = value {
        push_decimal(&mut out, v as u64);
    }
    string_of_all(&out)
}

/// An optional `u32` field: absent when blank or not a `u32`.
pub fn parse_optional_u32(value: &str) -> (r: Option<u32>)
    ensures
        trim(value@).len() == 0 ==> r is None,
        trim(value@).len() > 0 ==> r == match crate::text::unsigned_text_value(value@) {
            Some(v) => if v <= u32::MAX {
                Some(v as u32)
            } else {
                None
            },
            None => None,
        },
{
    let v = chars_of(value);
    let t = trimmed(&v, CharSet::Whitespace);
    if t.len() == 0 {
        return None;
    }
    crate::text::parse_u32(value)
}

/// An optional `i32` field: absent when blank or not an `i32`.
pub fn parse_optional_i32(value: &str) -> (r: Option<i32>)
    ensures
        trim(value@).len() == 0 ==> r is None,
        trim(value@).len() > 0 ==> r == match crate::text::signed_text_value(value@) {
            Some(v) => if i32::MIN <= v <= i32::MAX {
                Some(v as i32)
            } else {
                None
            },
            None => None,
        },
{
    let v = chars_of(value);
    let t = trimmed(&v, CharSet::Whitespace);
    if t.len() == 0 {
        return None;
    }
    crate::text::parse_i32(value)
}

/// The kinds of resources a manifest lists.
#[derive(Clone, Copy, Debug, PartialEq, Eq, Structural)]
pub enum ResourceType {
    Image,
    PopAnim,
    SoundBank,
    File,
    PrimeFont,
    RenderEffect,
    DecodedSoundBank,
}

pub open spec fn spec_resource_type_label(t: ResourceType) -> Seq<char> {
    match t {
        ResourceType::Image => "Image"@,
        ResourceType::PopAnim => "PopAnim"@,
        ResourceType::SoundBank => "SoundBank"@,
        ResourceType::File => "File"@,
        ResourceType::PrimeFont => "PrimeFont"@,
        ResourceType::RenderEffect => "RenderEffect"@,
        ResourceType::DecodedSoundBank => "DecodedSoundBank"@,
    }
}

/// The name of a resource type, also its selector value.
pub fn resource_type_label(t: ResourceType) -> (s: &'static str)
    ensures
        s@ == spec_resource_type_label(t),
{
    match t {
        ResourceType::Image => "Image",
        ResourceType::PopAnim => "PopAnim",
        ResourceType::SoundBank => "SoundBank",
        ResourceType::File => "File",
        ResourceType::PrimeFont => "PrimeFont",
        ResourceType::RenderEffect => "RenderEffect",
        ResourceType::DecodedSoundBank => "DecodedSoundBank",
    }
}

/// The short badge of a resource type.
pub fn resource_type_short(t: ResourceType) -> (s: &'static str)
    ensures
        t == ResourceType::Image ==> s@ == "IMG"@,
        t == ResourceType::PopAnim ==> s@ == "PAM"@,
        t == ResourceType::SoundBank ==> s@ == "BNK"@,
        t == ResourceType::File ==> s@ == "FILE"@,
        t == ResourceType::PrimeFont ==> s@ == "FONT"@,
        t == ResourceType::RenderEffect ==> s@ == "FX"@,
        t == ResourceType::DecodedSoundBank ==> s@ == "WEM"@,
{
    match t {
        ResourceType::Image => "IMG",
        ResourceType::PopAnim => "PAM",
        ResourceType::SoundBank => "BNK",
        ResourceType::File => "FILE",
        ResourceType::PrimeFont => "FONT",
        ResourceType::RenderEffect => "FX",
        ResourceType::DecodedSoundBank => "WEM",
    }
}

/// The selector value of a resource type: its name.
pub fn resource_type_key(t: ResourceType) -> (s: &'static str)
    ensures
        s@ == spec_resource_type_label(t),
{
    resource_type_label(t)
}

/// The resource type a selector value names.
pub fn resource_type_from_key(value: &str) -> (r: Option<ResourceType>)
    ensures
        r matches Some(t) ==> spec_resource_type_label(t) == value@,
        r is None ==> forall|t: ResourceType| spec_resource_type_label(t) != value@,
{
    let v = chars_of(value);
    if spells(&v, "Image") {
        Some(ResourceType::Image)
    } else if spells(&v, "PopAnim") {
        Some(ResourceType::PopAnim)
    } else if spells(&v, "SoundBank") {
        Some(ResourceType::SoundBank)
    } else if spells(&v, "File") {
        Some(ResourceType::File)
    } else if spells(&v, "PrimeFont") {
        Some(ResourceType::PrimeFont)
    } else if spells(&v, "RenderEffect") {
        Some(ResourceType::RenderEffect)
    } else if spells(&v, "DecodedSoundBank") {
        Some(ResourceType::DecodedSoundBank)
    } else {
        None
    }
}

/// Different resource types have different names, so reading back a
/// type's selector value gives that type.
pub proof fn lemma_resource_type_key_roundtrip(a: ResourceType, b: ResourceType)
    ensures
        spec_resource_type_label(a) == spec_resource_type_label(b) ==> a == b,
{
    reveal_strlit("Image");
    reveal_strlit("PopAnim");
    reveal_strlit("SoundBank");
    reveal_strlit("File");
    reveal_strlit("PrimeFont");
    reveal_strlit("RenderEffect");
    reveal_strlit("DecodedSoundBank");
    if spec_resource_type_label(a) == spec_resource_type_label(b) && a != b {
        let x = spec_resource_type_label(a);
        let y = spec_resource_type_label(b);
        assert(x.len() == y.len());
        assert(x[0] == y[0]);
    }
}

/// The resource types offered in the type selector, as value and label.
pub fn resource_type_options() -> (v: Vec<(&'static str, &'static str)>)
    ensures
        v@.len() == 7,
        forall|i: int| 0 <= i < 7 ==> #[trigger] v@[i].0@ == v@[i].1@,
        v@[0].0@ == "Image"@ && v@[1].0@ == "PopAnim"@ && v@[2].0@ == "SoundBank"@ && v@[3].0@ == "File"@
            && v@[4].0@ == "PrimeFont"@ && v@[5].0@ == "RenderEffect"@ && v@[6].0@ == "DecodedSoundBank"@,
{
    let mut v: Vec<(&'static str, &'static str)> = Vec::new();
    v.push(("Image", "Image"));
    v.push(("PopAnim", "PopAnim"));
    v.push(("SoundBank", "SoundBank"));
    v.push(("File", "File"));
    v.push(("PrimeFont", "PrimeFont"));
    v.push(("RenderEffect", "RenderEffect"));
    v.push(("DecodedSoundBank", "DecodedSoundBank"));
    v
}

/// The class of a tab in the tab strip.
pub fn manifest_tab_class(active: bool, dirty: bool) -> (c: &'static str)
    ensures
        active && dirty ==> c@ == "newton-tab ui-document-tab is-active is-dirty"@,
        active && !dirty ==> c@ == "newton-tab ui-document-tab is-active"@,
        !active && dirty ==> c@ == "newton-tab ui-document-tab is-dirty"@,
        !active && !dirty ==> c@ == "newton-tab ui-document-tab"@,
{
    if active {
        if dirty {
            "newton-tab ui-document-tab is-active is-dirty"
        } else {
            "newton-tab ui-document-tab is-active"
        }
    } else if dirty {
        "newton-tab ui-document-tab is-dirty"
    } else {
        "newton-tab ui-document-tab"
    }
}

/// How many groups the navigator shows per page.
pub const GROUP_PAGE_SIZE: usize = 120;

/// The group selected after group `deleted` is removed from a list that
/// now holds `remaining` groups, and the navigator page it is on.
pub fn selection_after_group_delete(deleted: usize, remaining: usize) -> (r: (usize, usize))
    ensures
        r.0 == if remaining == 0 {
            0
        } else if deleted < remaining {
            deleted as int
        } else {
            remaining - 1
        },
        r.1 == r.0 / GROUP_PAGE_SIZE,
{
    let last = if remaining == 0 {
        0
    } else {
        remaining - 1
    };
    let selected = if deleted < last {
        deleted
    } else {
        last
    };
    (selected, selected / GROUP_PAGE_SIZE)
}

/// The identifier of the `index`-th new record of a group (counting from 0):
/// a subgroup reference in a composite group, a resource otherwise.
pub fn new_record_id(composite: bool, index: usize) -> (s: String)
    requires
        index < usize::MAX,
    ensures
        composite ==> s@ == "NEW_SUBGROUP_"@ + decimal((index + 1) as nat),
        !composite ==> s@ == "NEW_RESOURCE_"@ + decimal((index + 1) as nat),
{
    let mut v: Vec<char> = Vec::new();
    if composite {
        push_str(&mut v, "NEW_SUBGROUP_");
    } else {
        push_str(&mut v, "NEW_RESOURCE_");
    }
    push_decimal(&mut v, (index + 1) as u64);
    string_of_all(&v)
}

} // verus!
