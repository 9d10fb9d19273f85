//! Rules of the Particle workspace: how an opened file is routed to the
//! right decoder, export names, output layouts, and the emitter selection.
use vstd::prelude::*;

use crate::text::{
    chars_of, decimal, has_infix, has_prefix, has_suffix, lower, push_decimal, push_str, string_of, string_of_all,
    strip_leading, CharSet,
};

verus! {

/// What a document holds.
#[derive(Clone, Copy, Debug, PartialEq, Eq, Structural)]
pub enum DocumentKind {
    Particle,
    Trail,
}

/// The badge of a document kind.
pub fn kind_label(kind: DocumentKind) -> (s: &'static str)
    ensures
        kind == DocumentKind::Particle ==> s@ == "PARTICLE"@,
        kind == DocumentKind::Trail ==> s@ == "TRAIL"@,
{
    match kind {
        DocumentKind::Particle => "PARTICLE",
        DocumentKind::Trail => "TRAIL",
    }
}

/// The binary layouts a particle document is written in.
#[derive(Clone, Copy, Debug, PartialEq, Eq, Structural)]
pub enum ParticlesVersion {
    Pc,
    Phone32,
    Phone64,
}

pub open spec fn spec_version_code(v: ParticlesVersion) -> Seq<char> {
    match v {
        ParticlesVersion::Pc => "pc"@,
        ParticlesVersion::Phone32 => "phone32"@,
        ParticlesVersion::Phone64 => "phone64"@,
    }
}

/// The selector value of a layout.
pub fn version_code(v: ParticlesVersion) -> (s: &'static str)
    ensures
        s@ == spec_version_code(v),
{
    match v {
        ParticlesVersion::Pc => "pc",
        ParticlesVersion::Phone32 => "phone32",
        ParticlesVersion::Phone64 => "phone64",
    }
}

/// The name shown for a layout.
pub fn version_label(v: ParticlesVersion) -> (s: &'static str)
    ensures
        v == ParticlesVersion::Pc ==> s@ == "PC · 32-bit"@,
        v == ParticlesVersion::Phone32 ==> s@ == "Mobile · 32-bit"@,
        v == ParticlesVersion::Phone64 ==> s@ == "Mobile · 64-bit"@,
{
    match v {
        ParticlesVersion::Pc => "PC · 32-bit",
        ParticlesVersion::Phone32 => "Mobile · 32-bit",
        ParticlesVersion::Phone64 => "Mobile · 64-bit",
    }
}

/// Whether the characters of `v` spell `word`.
fn spells(v: &Vec<char>, word: &str) -> (r: bool)
    ensures
        r == (v@ == word@),
{
    let w = chars_of(word);
    assert(v@.subrange(0, v@.len() as int) =~= v@);
    crate::text::range_equals(v, 0, v.len(), &w)
}

/// The layout a selector value names; anything unknown is the PC layout.
pub fn parse_version(value: &str) -> (v: ParticlesVersion)
    ensures
        value@ == "phone32"@ ==> v == ParticlesVersion::Phone32,
        value@ == "phone64"@ ==> v == ParticlesVersion::Phone64,
        value@ != "phone32"@ && value@ != "phone64"@ ==> v == ParticlesVersion::Pc,
{
    proof {
        reveal_strlit("phone32");
        reveal_strlit("phone64");
        assert("phone32"@[5] != "phone64"@[5]);
    }
    let c = chars_of(value);
    if spells(&c, "phone32") {
        ParticlesVersion::Phone32
    } else if spells(&c, "phone64") {
        ParticlesVersion::Phone64
    } else {
        ParticlesVersion::Pc
    }
}

/// Reading back a layout's selector value gives that layout.
pub proof fn lemma_version_code_roundtrip(v: ParticlesVersion)
    ensures
        spec_version_code(v) == "phone32"@ <==> v == ParticlesVersion::Phone32,
        spec_version_code(v) == "phone64"@ <==> v == ParticlesVersion::Phone64,
{
    reveal_strlit("pc");
    reveal_strlit("phone32");
    reveal_strlit("phone64");
    assert("phone32"@[5] != "phone64"@[5]);
    assert("pc"@.len() != "phone32"@.len());
}

/// The byte-order mark and Unicode whitespace an XML text may start with.
pub open spec fn xml_start(text: Seq<char>) -> Seq<char> {
    strip_leading(strip_leading(text, CharSet::Bom), CharSet::Whitespace)
}

/// Whether a text looks like XML: after byte-order marks and whitespace, it
/// starts with `<`.
pub fn looks_like_xml(text: &str) -> (r: bool)
    ensures
        r == (xml_start(text@).len() > 0 && xml_start(text@)[0] == '<'),
{
    let v = chars_of(text);
    let a = crate::text::skip_leading(&v, 0, v.len(), CharSet::Bom);
    let mut rest: Vec<char> = Vec::new();
    crate::text::push_range(&mut rest, &v, a, v.len());
    let b = crate::text::skip_leading(&rest, 0, rest.len(), CharSet::Whitespace);
    proof {
        assert(v@.subrange(0, v@.len() as int) =~= v@);
        assert(rest@.subrange(0, rest@.len() as int) =~= rest@);
    }
    b < rest.len() && rest[b] == '<'
}

/// Whether a text names one of the trail's tags.
pub open spec fn spec_looks_like_trail(text: Seq<char>) -> bool {
    has_infix(text, "<MaxPoints"@) || has_infix(text, "<MinPointDistance"@) || has_infix(text, "<WidthOverLength"@)
        || has_infix(text, "<WidthOverLife"@) || has_infix(text, "<AlphaOverLength"@) || has_infix(
        text,
        "<AlphaOverLife"@,
    )
}

/// Whether `v` holds the characters of `tag`.
fn mentions(v: &Vec<char>, tag: &str) -> (r: bool)
    ensures
        r == has_infix(v@, tag@),
{
    let t = chars_of(tag);
    crate::text::contains_infix(v, &t)
}

/// Whether an XML text describes a trail.
pub fn looks_like_trail_xml(text: &str) -> (r: bool)
    ensures
        r == spec_looks_like_trail(text@),
{
    let v = chars_of(text);
    mentions(&v, "<MaxPoints") || mentions(&v, "<MinPointDistance") || mentions(&v, "<WidthOverLength") || mentions(
        &v,
        "<WidthOverLife",
    ) || mentions(&v, "<AlphaOverLength") || mentions(&v, "<AlphaOverLife")
}

/// Which decoder an opened file goes to.
#[derive(Clone, Copy, Debug, PartialEq, Eq, Structural)]
pub enum DecodeRoute {
    /// Particle XML.
    ParticleXml,
    /// Trail XML.
    TrailXml,
    /// XML that is neither.
    UnknownXml,
    /// A compiled trail.
    TrailBinary,
    /// A compiled particle document in one of its layouts, else a compiled trail.
    ParticleOrTrailBinary,
}

/// How an opened file is routed: text that looks like XML by its tags and
/// name; anything else by whether its name mentions a trail. `text` is the
/// file's contents when they are valid UTF-8.
pub open spec fn spec_route(name: Seq<char>, text: Option<Seq<char>>) -> DecodeRoute {
    let trail_name = has_infix(lower(name), "trail"@);
    match text {
        Some(t) if xml_start(t).len() > 0 && xml_start(t)[0] == '<' => if has_infix(t, "<Emitter"@) {
            DecodeRoute::ParticleXml
        } else if trail_name || spec_looks_like_trail(t) {
            DecodeRoute::TrailXml
        } else {
            DecodeRoute::UnknownXml
        },
        _ => if trail_name {
            DecodeRoute::TrailBinary
        } else {
            DecodeRoute::ParticleOrTrailBinary
        },
    }
}

/// Which decoder an opened file goes to.
pub fn decode_route(name: &str, text: Option<&str>) -> (r: DecodeRoute)
    ensures
        r == spec_route(name@, match text {
            Some(t) => Some(t@),
            None => None,
        }),
{
    let lowered = crate::text::lower_vec(&chars_of(name));
    let trail_name = mentions(&lowered, "trail");
    if let Some(t) = text {
        if looks_like_xml(t) {
            let tv = chars_of(t);
            if mentions(&tv, "<Emitter") {
                return DecodeRoute::ParticleXml;
            }
            if trail_name || looks_like_trail_xml(t) {
                return DecodeRoute::TrailXml;
            }
            return DecodeRoute::UnknownXml;
        }
    }
    if trail_name {
        DecodeRoute::TrailBinary
    } else {
        DecodeRoute::ParticleOrTrailBinary
    }
}

/// The suffixes a document name loses, tried in this order.
pub open spec fn stem_suffix(k: int) -> Seq<char> {
    if k == 0 {
        ".particle.compiled"@
    } else if k == 1 {
        ".trail.compiled"@
    } else if k == 2 {
        ".particle.xml"@
    } else if k == 3 {
        ".trail.xml"@
    } else if k == 4 {
        ".compiled"@
    } else {
        ".xml"@
    }
}

/// The first of the suffixes that the lower-case name ends with, or 6.
pub open spec fn first_stem_suffix(name: Seq<char>, k: int) -> int
    decreases 6 - k,
{
    if k >= 6 {
        6
    } else if has_suffix(lower(name), stem_suffix(k)) {
        k
    } else {
        first_stem_suffix(name, k + 1)
    }
}

/// The stem of a document name: without the first of its known suffixes
/// it ends with (in any case), `untitled` when nothing is left.
pub open spec fn spec_document_stem(name: Seq<char>) -> Seq<char> {
    let k = first_stem_suffix(name, 0);
    let stem = if k < 6 {
        name.subrange(0, name.len() - stem_suffix(k).len())
    } else {
        name
    };
    if stem.len() == 0 {
        "untitled"@
    } else {
        stem
    }
}

/// The stem of a document name.
pub fn document_stem(name: &str) -> (s: String)
    ensures
        s@ == spec_document_stem(name@),
{
    let v = chars_of(name);
    proof {
        crate::text::lemma_lower_len(name@);
        reveal_strlit(".particle.compiled");
        reveal_strlit(".trail.compiled");
        reveal_strlit(".particle.xml");
        reveal_strlit(".trail.xml");
        reveal_strlit(".compiled");
        reveal_strlit(".xml");
    }
    let cut: usize = if crate::text::ends_with_lower(&v, ".particle.compiled") {
        18
    } else if crate::text::ends_with_lower(&v, ".trail.compiled") {
        15
    } else if crate::text::ends_with_lower(&v, ".particle.xml") {
        13
    } else if crate::text::ends_with_lower(&v, ".trail.xml") {
        10
    } else if crate::text::ends_with_lower(&v, ".compiled") {
        9
    } else if crate::text::ends_with_lower(&v, ".xml") {
        4
    } else {
        0
    };
    proof {
        reveal_with_fuel(first_stem_suffix, 7);
        assert(first_stem_suffix(name@, 6) == 6);
        let k = first_stem_suffix(name@, 0);
        assert(k < 6 ==> cut == stem_suffix(k).len());
        assert(k == 6 ==> cut == 0);
    }
    if v.len() == cut {
        "untitled".to_owned()
    } else {
        string_of(&v, 0, v.len() - cut)
    }
}

/// The XML export name: the stem with `.particle.xml` or `.trail.xml`.
pub fn xml_output_name(name: &str, kind: DocumentKind) -> (s: String)
    ensures
        kind == DocumentKind::Particle ==> s@ == spec_document_stem(name@) + ".particle.xml"@,
        kind == DocumentKind::Trail ==> s@ == spec_document_stem(name@) + ".trail.xml"@,
{
    let stem = document_stem(name);
    let mut v = chars_of(stem.as_str());
    match kind {
        DocumentKind::Particle => push_str(&mut v, ".particle.xml"),
        DocumentKind::Trail => push_str(&mut v, ".trail.xml"),
    }
    string_of_all(&v)
}

/// The compiled export name: the stem with `.particle.compiled` or
/// `.trail.compiled`.
pub fn binary_output_name(name: &str, kind: DocumentKind) -> (s: String)
    ensures
        kind == DocumentKind::Particle ==> s@ == spec_document_stem(name@) + ".particle.compiled"@,
        kind == DocumentKind::Trail ==> s@ == spec_document_stem(name@) + ".trail.compiled"@,
{
    let stem = document_stem(name);
    let mut v = chars_of(stem.as_str());
    match kind {
        DocumentKind::Particle => push_str(&mut v, ".particle.compiled"),
        DocumentKind::Trail => push_str(&mut v, ".trail.compiled"),
    }
    string_of_all(&v)
}

/// Whether a document has changes not yet exported: it was edited, or the
/// XML draft differs from the applied XML.
pub fn unsaved(dirty: bool, draft_xml: &str, applied_xml: &str) -> (r: bool)
    ensures
        r == (dirty || draft_xml@ != applied_xml@),
{
    let a = chars_of(draft_xml);
    let b = chars_of(applied_xml);
    assert(a@.subrange(0, a@.len() as int) =~= a@);
    dirty || !(a.len() == b.len() && crate::text::range_equals(&a, 0, a.len(), &b))
}

/// The name of the emitter added at position `index`.
pub fn new_emitter_name(index: usize) -> (s: String)
    requires
        index < usize::MAX,
    ensures
        s@ == "Emitter "@ + decimal((index + 1) as nat),
{
    let mut v: Vec<char> = Vec::new();
    push_str(&mut v, "Emitter ");
    push_decimal(&mut v, (index + 1) as u64);
    string_of_all(&v)
}

/// Removing the selected emitter from `count > 0` emitters: the position
/// removed (the selection, kept in range) and the selection afterwards.
pub fn emitter_removal(selected: usize, count: usize) -> (r: (usize, usize))
    requires
        count > 0,
    ensures
        r.0 == if selected < count {
            selected as int
        } else {
            count - 1
        },
        r.1 == if r.0 < count - 1 {
            r.0 as int
        } else if count >= 2 {
            count - 2
        } else {
            0
        },
{
    let index = if selected < count - 1 {
        selected
    } else {
        count - 1
    };
    let remaining = count - 1;
    let last = if remaining == 0 {
        0
    } else {
        remaining - 1
    };
    let next = if index < last {
        index
    } else {
        last
    };
    (index, next)
}


/// The animated properties of an emitter, in the order the inspector lists them.
pub open spec fn spec_emitter_track_names() -> Seq<Seq<char>> {
    seq![
        "SystemDuration"@,
        "CrossFadeDuration"@,
        "SpawnRate"@,
        "SpawnMinActive"@,
        "SpawnMaxActive"@,
        "SpawnMaxLaunched"@,
        "EmitterRadius"@,
        "EmitterOffsetX"@,
        "EmitterOffsetY"@,
        "EmitterBoxX"@,
        "EmitterBoxY"@,
        "EmitterPath"@,
        "EmitterSkewX"@,
        "EmitterSkewY"@,
        "ParticleDuration"@,
        "SystemRed"@,
        "SystemGreen"@,
        "SystemBlue"@,
        "SystemAlpha"@,
        "SystemBrightness"@,
        "LaunchSpeed"@,
        "LaunchAngle"@,
        "ParticleRed"@,
        "ParticleGreen"@,
        "ParticleBlue"@,
        "ParticleAlpha"@,
        "ParticleBrightness"@,
        "ParticleSpinAngle"@,
        "ParticleSpinSpeed"@,
        "ParticleScale"@,
        "ParticleStretch"@,
        "CollisionReflect"@,
        "CollisionSpin"@,
        "ClipTop"@,
        "ClipBottom"@,
        "ClipLeft"@,
        "ClipRight"@,
        "AnimationRate"@,
    ]
}

/// The animated properties of a trail, in the order the inspector lists them.
pub open spec fn spec_trail_track_names() -> Seq<Seq<char>> {
    seq![
        "WidthOverLength"@,
        "WidthOverLife"@,
        "AlphaOverLength"@,
        "AlphaOverLife"@,
    ]
}

/// The names of a list of static strings.
pub open spec fn str_views(v: Seq<&'static str>) -> Seq<Seq<char>> {
    Seq::new(v.len(), |i: int| v[i]@)
}

/// The emitter's animated properties, in the inspector's order.
pub fn emitter_track_names() -> (names: Vec<&'static str>)
    ensures
        str_views(names@) == spec_emitter_track_names(),
{
    let mut names: Vec<&'static str> = Vec::new();
    names.push("SystemDuration");
    names.push("CrossFadeDuration");
    names.push("SpawnRate");
    names.push("SpawnMinActive");
    names.push("SpawnMaxActive");
    names.push("SpawnMaxLaunched");
    names.push("EmitterRadius");
    names.push("EmitterOffsetX");
    names.push("EmitterOffsetY");
    names.push("EmitterBoxX");
    names.push("EmitterBoxY");
    names.push("EmitterPath");
    names.push("EmitterSkewX");
    names.push("EmitterSkewY");
    names.push("ParticleDuration");
    names.push("SystemRed");
    names.push("SystemGreen");
    names.push("SystemBlue");
    names.push("SystemAlpha");
    names.push("SystemBrightness");
    names.push("LaunchSpeed");
    names.push("LaunchAngle");
    names.push("ParticleRed");
    names.push("ParticleGreen");
    names.push("ParticleBlue");
    names.push("ParticleAlpha");
    names.push("ParticleBrightness");
    names.push("ParticleSpinAngle");
    names.push("ParticleSpinSpeed");
    names.push("ParticleScale");
    names.push("ParticleStretch");
    names.push("CollisionReflect");
    names.push("CollisionSpin");
    names.push("ClipTop");
    names.push("ClipBottom");
    names.push("ClipLeft");
    names.push("ClipRight");
    names.push("AnimationRate");
    assert(str_views(names@) =~= spec_emitter_track_names());
    names
}

/// The trail's animated properties, in the inspector's order.
pub fn trail_track_names() -> (names: Vec<&'static str>)
    ensures
        str_views(names@) == spec_trail_track_names(),
{
    let mut names: Vec<&'static str> = Vec::new();
    names.push("WidthOverLength");
    names.push("WidthOverLife");
    names.push("AlphaOverLength");
    names.push("AlphaOverLife");
    assert(str_views(names@) =~= spec_trail_track_names());
    names
}

/// A track is listed when it is present and has at least one node.
pub open spec fn track_shown(nodes: Option<usize>) -> bool {
    nodes matches Some(n) && n > 0
}

/// How many of the tracks are listed.
pub open spec fn shown_count(tracks: Seq<Option<usize>>) -> nat
    decreases tracks.len(),
{
    if tracks.len() == 0 {
        0
    } else {
        shown_count(tracks.drop_last()) + if track_shown(tracks.last()) { 1nat } else { 0nat }
    }
}

/// The nodes of the listed tracks, in all.
pub open spec fn shown_nodes(tracks: Seq<Option<usize>>) -> nat
    decreases tracks.len(),
{
    if tracks.len() == 0 {
        0
    } else {
        shown_nodes(tracks.drop_last()) + match tracks.last() {
            Some(n) => n as nat,
            None => 0nat,
        }
    }
}

/// The positions of the listed tracks, in order. `tracks[i]` is the number of
/// nodes of track `i` when the document has it.
pub fn shown_tracks(tracks: &Vec<Option<usize>>) -> (r: Vec<usize>)
    ensures
        r@.len() == shown_count(tracks@),
        forall|k: int| 0 <= k < r@.len() ==> #[trigger] r@[k] < tracks@.len() && track_shown(tracks@[r@[k] as int]),
        forall|k: int, l: int| 0 <= k < l < r@.len() ==> #[trigger] r@[k] < #[trigger] r@[l],
        forall|i: int| 0 <= i < tracks@.len() && track_shown(#[trigger] tracks@[i]) ==> r@.contains(i as usize),
{
    let mut r: Vec<usize> = Vec::new();
    let mut i: usize = 0;
    while i < tracks.len()
        invariant
            i <= tracks@.len(),
            r@.len() == shown_count(tracks@.take(i as int)),
            forall|k: int| 0 <= k < r@.len() ==> #[trigger] r@[k] < i && track_shown(tracks@[r@[k] as int]),
            forall|k: int, l: int| 0 <= k < l < r@.len() ==> #[trigger] r@[k] < #[trigger] r@[l],
            forall|j: int| 0 <= j < i && track_shown(#[trigger] tracks@[j]) ==> r@.contains(j as usize),
        decreases tracks@.len() - i,
    {
        assert(tracks@.take(i + 1).drop_last() =~= tracks@.take(i as int));
        let shown = match tracks[i] {
            Some(n) => n > 0,
            None => false,
        };
        if shown {
            let ghost before = r@;
            r.push(i);
            assert forall|j: int| 0 <= j < i + 1 && track_shown(#[trigger] tracks@[j]) implies r@.contains(j as usize) by {
                if j < i {
                    let w = choose|w: int| 0 <= w < before.len() && before[w] == j as usize;
                    assert(r@[w] == j as usize);
                } else {
                    assert(r@[before.len() as int] == i);
                }
            }
        }
        i = i + 1;
    }
    assert(tracks@.take(i as int) =~= tracks@);
    r
}

/// How many tracks an emitter lists.
pub fn emitter_track_count(tracks: &Vec<Option<usize>>) -> (n: usize)
    ensures
        n == shown_count(tracks@),
{
    let mut n: usize = 0;
    let mut i: usize = 0;
    while i < tracks.len()
        invariant
            i <= tracks@.len(),
            n == shown_count(tracks@.take(i as int)),
            n <= i,
        decreases tracks@.len() - i,
    {
        assert(tracks@.take(i + 1).drop_last() =~= tracks@.take(i as int));
        match tracks[i] {
            Some(k) => {
                if k > 0 {
                    n = n + 1;
                }
            },
            None => {},
        }
        i = i + 1;
    }
    assert(tracks@.take(i as int) =~= tracks@);
    n
}

proof fn lemma_shown_nodes_prefix(tracks: Seq<Option<usize>>, i: int)
    requires
        0 <= i <= tracks.len(),
    ensures
        shown_nodes(tracks.take(i)) <= shown_nodes(tracks),
    decreases tracks.len(),
{
    if i < tracks.len() {
        assert(tracks.drop_last().take(i) =~= tracks.take(i));
        lemma_shown_nodes_prefix(tracks.drop_last(), i);
    } else {
        assert(tracks.take(i) =~= tracks);
    }
}

/// The nodes of all listed tracks of a trail, or of an emitter's tracks
/// without its fields.
pub fn track_node_count(tracks: &Vec<Option<usize>>) -> (n: usize)
    requires
        shown_nodes(tracks@) <= usize::MAX,
    ensures
        n == shown_nodes(tracks@),
{
    let mut n: usize = 0;
    let mut i: usize = 0;
    while i < tracks.len()
        invariant
            i <= tracks@.len(),
            n == shown_nodes(tracks@.take(i as int)),
            shown_nodes(tracks@) <= usize::MAX,
        decreases tracks@.len() - i,
    {
        assert(tracks@.take(i + 1).drop_last() =~= tracks@.take(i as int));
        proof {
            lemma_shown_nodes_prefix(tracks@, i + 1);
        }
        match tracks[i] {
            Some(k) => {
                n = n + k;
            },
            None => {},
        }
        i = i + 1;
    }
    assert(tracks@.take(i as int) =~= tracks@);
    n
}

/// The nodes an emitter shows in all: those of its listed tracks and the
/// `x` and `y` nodes of its fields and system fields (`fields` holds, field
/// by field, the node counts of `x` and of `y` where present).
pub fn emitter_track_node_count(tracks: &Vec<Option<usize>>, fields: &Vec<Option<usize>>) -> (n: usize)
    requires
        shown_nodes(tracks@) + shown_nodes(fields@) <= usize::MAX,
    ensures
        n == shown_nodes(tracks@) + shown_nodes(fields@),
{
    let a = track_node_count(tracks);
    let b = track_node_count(fields);
    a + b
}


/// The label of an output layout, as a sequence.
pub open spec fn spec_version_label(v: ParticlesVersion) -> Seq<char> {
    match v {
        ParticlesVersion::Pc => "PC · 32-bit"@,
        ParticlesVersion::Phone32 => "Mobile · 32-bit"@,
        ParticlesVersion::Phone64 => "Mobile · 64-bit"@,
    }
}

/// A signed number in decimal, with a minus sign when negative.
pub open spec fn signed_decimal(n: int) -> Seq<char> {
    if n < 0 {
        "-"@ + decimal((-n) as nat)
    } else {
        decimal(n as nat)
    }
}

/// The overview cards of an opened document.
pub struct DocumentSummary {
    pub subtitle: String,
    pub primary_label: &'static str,
    pub primary_value: String,
    pub track_nodes: usize,
    pub images: usize,
    pub format_label: String,
}

/// What the overview needs of one emitter: the nodes it shows and whether it
/// names an image (inline or by path).
pub struct EmitterOverview {
    pub track_nodes: usize,
    pub has_image: bool,
}

/// The nodes of all emitters.
pub open spec fn emitter_nodes(emitters: Seq<EmitterOverview>) -> nat
    decreases emitters.len(),
{
    if emitters.len() == 0 {
        0
    } else {
        emitter_nodes(emitters.drop_last()) + emitters.last().track_nodes as nat
    }
}

/// How many emitters name an image.
pub open spec fn emitter_images(emitters: Seq<EmitterOverview>) -> nat
    decreases emitters.len(),
{
    if emitters.len() == 0 {
        0
    } else {
        emitter_images(emitters.drop_last()) + if emitters.last().has_image { 1nat } else { 0nat }
    }
}

proof fn lemma_emitter_nodes_prefix(emitters: Seq<EmitterOverview>, i: int)
    requires
        0 <= i <= emitters.len(),
    ensures
        emitter_nodes(emitters.take(i)) <= emitter_nodes(emitters),
    decreases emitters.len(),
{
    if i < emitters.len() {
        assert(emitters.drop_last().take(i) =~= emitters.take(i));
        lemma_emitter_nodes_prefix(emitters.drop_last(), i);
    } else {
        assert(emitters.take(i) =~= emitters);
    }
}

/// The overview of a particle system: its emitter count, all their nodes,
/// how many name an image, and its output layout.
pub fn particle_summary(emitters: &Vec<EmitterOverview>, version: ParticlesVersion) -> (r: DocumentSummary)
    requires
        emitter_nodes(emitters@) <= usize::MAX,
    ensures
        r.subtitle@ == decimal(emitters@.len()) + " 个发射器"@,
        r.primary_label@ == "发射器"@,
        r.primary_value@ == decimal(emitters@.len()),
        r.track_nodes == emitter_nodes(emitters@),
        r.images == emitter_images(emitters@),
        r.format_label@ == spec_version_label(version),
{
    let mut nodes: usize = 0;
    let mut images: usize = 0;
    let mut i: usize = 0;
    while i < emitters.len()
        invariant
            i <= emitters@.len(),
            nodes == emitter_nodes(emitters@.take(i as int)),
            images == emitter_images(emitters@.take(i as int)),
            images <= i,
            emitter_nodes(emitters@) <= usize::MAX,
        decreases emitters@.len() - i,
    {
        assert(emitters@.take(i + 1).drop_last() =~= emitters@.take(i as int));
        proof {
            lemma_emitter_nodes_prefix(emitters@, i + 1);
        }
        nodes = nodes + emitters[i].track_nodes;
        if emitters[i].has_image {
            images = images + 1;
        }
        i = i + 1;
    }
    assert(emitters@.take(i as int) =~= emitters@);
    let mut count: Vec<char> = Vec::new();
    push_decimal(&mut count, emitters.len() as u64);
    let mut subtitle = count.clone();
    push_str(&mut subtitle, " 个发射器");
    let label = version_label(version);
    DocumentSummary {
        subtitle: string_of_all(&subtitle),
        primary_label: "发射器",
        primary_value: string_of_all(&count),
        track_nodes: nodes,
        images,
        format_label: label.to_string(),
    }
}

/// `n` in decimal, with a minus sign when negative.
fn push_signed(out: &mut Vec<char>, n: i32)
    ensures
        final(out)@ == old(out)@ + signed_decimal(n as int),
{
    if n < 0 {
        push_str(out, "-");
        let magnitude: u64 = (0 - (n as i64)) as u64;
        push_decimal(out, magnitude);
        assert(final(out)@ =~= old(out)@ + signed_decimal(n as int));
    } else {
        push_decimal(out, n as u64);
    }
}

/// The overview of a trail: its point limit (shown as at least 0 on the
/// card), its track nodes and whether it names an image.
pub fn trail_summary(max_points: i32, track_nodes: usize, has_image: bool) -> (r: DocumentSummary)
    ensures
        r.subtitle@ == "最多 "@ + signed_decimal(max_points as int) + " 个轨迹点"@,
        r.primary_label@ == "轨迹点"@,
        r.primary_value@ == decimal(if max_points < 0 { 0nat } else { max_points as nat }),
        r.track_nodes == track_nodes,
        r.images == if has_image { 1usize } else { 0usize },
        r.format_label@ == "Trail"@,
{
    let mut subtitle: Vec<char> = Vec::new();
    push_str(&mut subtitle, "最多 ");
    push_signed(&mut subtitle, max_points);
    push_str(&mut subtitle, " 个轨迹点");
    let shown: u64 = if max_points < 0 {
        0
    } else {
        max_points as u64
    };
    let mut value: Vec<char> = Vec::new();
    push_decimal(&mut value, shown);
    DocumentSummary {
        subtitle: string_of_all(&subtitle),
        primary_label: "轨迹点",
        primary_value: string_of_all(&value),
        track_nodes,
        images: if has_image { 1 } else { 0 },
        format_label: "Trail".to_string(),
    }
}

/// An emitter's name, or `Emitter` and its position counted from 1.
pub fn emitter_name(name: &Option<String>, index: usize) -> (r: String)
    requires
        index < usize::MAX,
    ensures
        match name {
            Some(n) => r@ == n@,
            None => r@ == "Emitter "@ + decimal(index as nat + 1),
        },
{
    match name {
        Some(n) => n.clone(),
        None => {
            let mut v: Vec<char> = Vec::new();
            push_str(&mut v, "Emitter ");
            push_decimal(&mut v, (index + 1) as u64);
            string_of_all(&v)
        },
    }
}

/// The image an emitter shows: inline, else by path, else `No image`.
pub fn emitter_image_label(image: &Option<String>, image_path: &Option<String>) -> (r: String)
    ensures
        match (image, image_path) {
            (Some(i), _) => r@ == i@,
            (None, Some(p)) => r@ == p@,
            (None, None) => r@ == "No image"@,
        },
{
    match image {
        Some(i) => i.clone(),
        None => match image_path {
            Some(p) => p.clone(),
            None => "No image".to_string(),
        },
    }
}

} // verus!
