//! What the BNK workspace shows for a bank: parse modes, browser sections,
//! selections, chunk identifiers, export names, and which files it accepts
//! as replacement media.
use vstd::prelude::*;

use crate::browser::lex_order;
use crate::dzip::workspace::{insert_sorted, strictly_increasing};
use crate::text::{
    after_last, chars_of, holds_any, push_str, replace_all, replace_text, string_of, string_of_all, views, CharSet,
};

verus! {

/// How a bank was read.
#[derive(Clone, Copy, Debug, PartialEq, Eq, Structural)]
pub enum ParseMode {
    /// Every chunk was understood.
    Strict,
    /// Unknown structures were kept as raw bytes.
    LosslessFallback,
}

impl ParseMode {
    /// The badge text of the mode.
    pub fn label(self) -> (s: &'static str)
        ensures
            self == ParseMode::Strict ==> s@ == "严格模式"@,
            self == ParseMode::LosslessFallback ==> s@ == "保留模式"@,
    {
        match self {
            ParseMode::Strict => "严格模式",
            ParseMode::LosslessFallback => "保留模式",
        }
    }

    /// The badge class of the mode.
    pub fn class(self) -> (s: &'static str)
        ensures
            self == ParseMode::Strict ==> s@ == "strict"@,
            self == ParseMode::LosslessFallback ==> s@ == "fallback"@,
    {
        match self {
            ParseMode::Strict => "strict",
            ParseMode::LosslessFallback => "fallback",
        }
    }
}

/// The parts of a bank the browser lists.
#[derive(Clone, Copy, Debug, PartialEq, Eq, Structural)]
pub enum BrowserSection {
    Overview,
    Chunks,
    Hierarchy,
    Media,
}

impl BrowserSection {
    /// The section's heading.
    pub fn label(self) -> (s: &'static str)
        ensures
            self == BrowserSection::Overview ==> s@ == "概览"@,
            self == BrowserSection::Chunks ==> s@ == "数据块"@,
            self == BrowserSection::Hierarchy ==> s@ == "HIRC 对象"@,
            self == BrowserSection::Media ==> s@ == "内嵌媒体"@,
    {
        match self {
            BrowserSection::Overview => "概览",
            BrowserSection::Chunks => "数据块",
            BrowserSection::Hierarchy => "HIRC 对象",
            BrowserSection::Media => "内嵌媒体",
        }
    }

    /// The section's icon.
    pub fn glyph(self) -> (s: &'static str)
        ensures
            self == BrowserSection::Overview ==> s@ == "bank"@,
            self == BrowserSection::Chunks ==> s@ == "chunks"@,
            self == BrowserSection::Hierarchy ==> s@ == "hierarchy"@,
            self == BrowserSection::Media ==> s@ == "audio"@,
    {
        match self {
            BrowserSection::Overview => "bank",
            BrowserSection::Chunks => "chunks",
            BrowserSection::Hierarchy => "hierarchy",
            BrowserSection::Media => "audio",
        }
    }
}

/// What the inspector shows.
#[derive(Clone, Copy, Debug, PartialEq, Eq, Structural)]
pub enum BankSelection {
    Overview,
    Chunk(usize),
    Hierarchy { chunk_index: usize, object_index: usize },
    Media { index_chunk: usize, entry_index: usize },
}

/// The inspector's title for a selection.
pub fn inspector_title(selection: BankSelection) -> (s: &'static str)
    ensures
        selection is Overview ==> s@ == "SoundBank"@,
        selection is Chunk ==> s@ == "数据块"@,
        selection is Hierarchy ==> s@ == "HIRC 对象"@,
        selection is Media ==> s@ == "内嵌媒体"@,
{
    match selection {
        BankSelection::Overview => "SoundBank",
        BankSelection::Chunk(_) => "数据块",
        BankSelection::Hierarchy { .. } => "HIRC 对象",
        BankSelection::Media { .. } => "内嵌媒体",
    }
}

/// The class of a tab in the tab strip.
pub fn bank_tab_class(active: bool, dirty: bool) -> (c: &'static str)
    ensures
        active && dirty ==> c@ == "bnk-tab ui-document-tab is-active has-changes"@,
        active && !dirty ==> c@ == "bnk-tab ui-document-tab is-active"@,
        !active && dirty ==> c@ == "bnk-tab ui-document-tab has-changes"@,
        !active && !dirty ==> c@ == "bnk-tab ui-document-tab"@,
{
    if active {
        if dirty {
            "bnk-tab ui-document-tab is-active has-changes"
        } else {
            "bnk-tab ui-document-tab is-active"
        }
    } else if dirty {
        "bnk-tab ui-document-tab has-changes"
    } else {
        "bnk-tab ui-document-tab"
    }
}

/// A name without its extension: the part before the last `.`, unless that
/// part is empty or there is no `.`.
pub open spec fn spec_stem(name: Seq<char>) -> Seq<char> {
    let ext = after_last(name, CharSet::Dot);
    if holds_any(name, CharSet::Dot) && name.len() - ext.len() - 1 > 0 {
        name.subrange(0, name.len() - ext.len() - 1)
    } else {
        name
    }
}

/// The part of `name` before its last `.`, when that is not empty.
pub fn stem_of(name: &str) -> (s: String)
    ensures
        s@ == spec_stem(name@),
{
    let v = chars_of(name);
    let start = crate::text::last_segment_start(&v, 0, v.len(), CharSet::Dot);
    assert(v@.subrange(0, v@.len() as int) =~= v@);
    if start > 1 {
        string_of(&v, 0, start - 1)
    } else {
        string_of_all(&v)
    }
}

/// The export name of a bank: its stem with the `.bnk` extension.
pub fn normalized_bnk_name(name: &str) -> (s: String)
    ensures
        s@ == spec_stem(name@) + ".bnk"@,
{
    let stem = stem_of(name);
    let mut v = chars_of(stem.as_str());
    push_str(&mut v, ".bnk");
    string_of_all(&v)
}

/// Whether `bytes` start like a WEM file: a `RIFF` or `RIFX` header whose
/// form type at offset 8 is `WAVE`.
pub open spec fn spec_looks_like_wem(bytes: Seq<u8>) -> bool {
    &&& bytes.len() >= 12
    &&& bytes[0] == 0x52 && bytes[1] == 0x49 && bytes[2] == 0x46 && (bytes[3] == 0x46 || bytes[3] == 0x58)
    &&& bytes[8] == 0x57 && bytes[9] == 0x41 && bytes[10] == 0x56 && bytes[11] == 0x45
}

/// Whether a replacement file is a WEM audio container.
pub fn looks_like_wem(bytes: &[u8]) -> (r: bool)
    ensures
        r == spec_looks_like_wem(bytes@),
{
    bytes.len() >= 12 && bytes[0] == 0x52 && bytes[1] == 0x49 && bytes[2] == 0x46 && (bytes[3] == 0x46
        || bytes[3] == 0x58) && bytes[8] == 0x57 && bytes[9] == 0x41 && bytes[10] == 0x56 && bytes[11] == 0x45
}

/// The upper-case hexadecimal digit of `d`.
pub open spec fn hex_digit(d: nat) -> char {
    if d < 10 {
        crate::text::digit_char(d)
    } else {
        ((d - 10) + 65) as char
    }
}

/// A byte as two upper-case hexadecimal digits.
pub open spec fn hex_byte(b: u8) -> Seq<char> {
    seq![hex_digit((b / 16) as nat), hex_digit((b % 16) as nat)]
}

/// Appends the upper-case hexadecimal digit of `d`.
fn push_hex_digit(out: &mut Vec<char>, d: u8)
    requires
        d < 16,
    ensures
        final(out)@ == old(out)@.push(hex_digit(d as nat)),
{
    if d < 10 {
        out.push(crate::text::digit(d as u64));
    } else {
        let c = (d - 10 + 65) as char;
        out.push(c);
    }
}

/// Appends a byte as two upper-case hexadecimal digits.
pub fn push_hex_byte(out: &mut Vec<char>, b: u8)
    ensures
        final(out)@ == old(out)@ + hex_byte(b),
{
    let ghost before = out@;
    push_hex_digit(out, b / 16);
    push_hex_digit(out, b % 16);
    assert(out@ =~= before + hex_byte(b));
}

/// Whether `b` is a printable ASCII character other than space.
pub open spec fn is_ascii_graphic(b: u8) -> bool {
    0x21 <= b <= 0x7e
}

/// The bytes spaced out in hexadecimal: `AA BB CC DD`.
pub open spec fn spaced_hex(bytes: Seq<u8>) -> Seq<char>
    decreases bytes.len(),
{
    if bytes.len() == 0 {
        Seq::empty()
    } else if bytes.len() == 1 {
        hex_byte(bytes[0])
    } else {
        spaced_hex(bytes.drop_last()) + " "@ + hex_byte(bytes.last())
    }
}

/// The characters of ASCII bytes.
pub open spec fn ascii_chars(bytes: Seq<u8>) -> Seq<char> {
    bytes.map_values(|b: u8| b as char)
}

/// How a chunk identifier is shown: its known name; else its four bytes as
/// text when all are printable ASCII; else the bytes in hexadecimal.
pub fn chunk_id_label(known: Option<&str>, id: &[u8]) -> (s: String)
    ensures
        known matches Some(k) ==> s@ == k@,
        known is None && (forall|i: int| 0 <= i < id@.len() ==> is_ascii_graphic(#[trigger] id@[i])) ==> s@
            == ascii_chars(id@),
        known is None && !(forall|i: int| 0 <= i < id@.len() ==> is_ascii_graphic(#[trigger] id@[i])) ==> s@
            == spaced_hex(id@),
{
    if let Some(k) = known {
        return k.to_owned();
    }
    let mut graphic = true;
    let mut i: usize = 0;
    while i < id.len()
        invariant
            i <= id@.len(),
            graphic == forall|j: int| 0 <= j < i ==> is_ascii_graphic(#[trigger] id@[j]),
        decreases id@.len() - i,
    {
        if !(0x21 <= id[i] && id[i] <= 0x7e) {
            graphic = false;
        }
        i = i + 1;
    }
    let mut v: Vec<char> = Vec::new();
    let mut k: usize = 0;
    if graphic {
        while k < id.len()
            invariant
                k <= id@.len(),
                v@ == ascii_chars(id@.take(k as int)),
            decreases id@.len() - k,
        {
            v.push(id[k] as char);
            assert(ascii_chars(id@.take(k + 1)) =~= ascii_chars(id@.take(k as int)).push(id@[k as int] as char));
            k = k + 1;
        }
        assert(id@.take(id@.len() as int) =~= id@);
    } else {
        while k < id.len()
            invariant
                k <= id@.len(),
                v@ == spaced_hex(id@.take(k as int)),
            decreases id@.len() - k,
        {
            let ghost before = v@;
            if k > 0 {
                push_str(&mut v, " ");
            }
            push_hex_byte(&mut v, id[k]);
            proof {
                let t = id@.take(k + 1);
                assert(t.drop_last() =~= id@.take(k as int));
                if k == 0 {
                    assert(id@.take(0) =~= Seq::<u8>::empty());
                    assert(v@ =~= hex_byte(t[0]));
                } else {
                    assert(v@ =~= before + " "@ + hex_byte(t.last()));
                }
            }
            k = k + 1;
        }
        assert(id@.take(id@.len() as int) =~= id@);
    }
    string_of_all(&v)
}

/// A validation message with the word `Twinning` replaced by neutral
/// wording, the longer phrases first.
pub open spec fn spec_user_facing(message: Seq<char>) -> Seq<char> {
    let a = replace_all(message, "Twinning chunk sequence"@, "strict chunk sequence"@);
    let b = replace_all(a, "Twinning's model"@, "the strict format model"@);
    let c = replace_all(b, "Twinning requires"@, "the format specification requires"@);
    let d = replace_all(c, "Twinning's"@, "the format specification's"@);
    replace_all(d, "Twinning"@, "the format specification"@)
}

/// A validation message as the workspace shows it.
pub fn user_facing_validation_error(message: &str) -> (s: String)
    ensures
        s@ == spec_user_facing(message@),
{
    proof {
        reveal_strlit("Twinning chunk sequence");
        reveal_strlit("Twinning's model");
        reveal_strlit("Twinning requires");
        reveal_strlit("Twinning's");
        reveal_strlit("Twinning");
    }
    let a = replace_text(message, "Twinning chunk sequence", "strict chunk sequence");
    let b = replace_text(a.as_str(), "Twinning's model", "the strict format model");
    let c = replace_text(b.as_str(), "Twinning requires", "the format specification requires");
    let d = replace_text(c.as_str(), "Twinning's", "the format specification's");
    replace_text(d.as_str(), "Twinning", "the format specification")
}

/// The kinds of hierarchy (HIRC) objects.
#[derive(Clone, Copy, Debug, PartialEq, Eq, Structural)]
pub enum HierarchyKind {
    Unknown,
    StatefulPropertySetting,
    EventAction,
    Event,
    DialogueEvent,
    Attenuation,
    LowFrequencyOscillatorModulator,
    EnvelopeModulator,
    TimeModulator,
    Effect,
    Source,
    AudioDevice,
    AudioBus,
    AuxiliaryAudioBus,
    Sound,
    SoundPlaylistContainer,
    SoundSwitchContainer,
    SoundBlendContainer,
    ActorMixer,
    MusicTrack,
    MusicSegment,
    MusicPlaylistContainer,
    MusicSwitchContainer,
}

pub open spec fn spec_hierarchy_kind_label(kind: HierarchyKind) -> Seq<char> {
    match kind {
        HierarchyKind::Unknown => "Unknown"@,
        HierarchyKind::StatefulPropertySetting => "Stateful Property"@,
        HierarchyKind::EventAction => "Event Action"@,
        HierarchyKind::Event => "Event"@,
        HierarchyKind::DialogueEvent => "Dialogue Event"@,
        HierarchyKind::Attenuation => "Attenuation"@,
        HierarchyKind::LowFrequencyOscillatorModulator => "LFO Modulator"@,
        HierarchyKind::EnvelopeModulator => "Envelope Modulator"@,
        HierarchyKind::TimeModulator => "Time Modulator"@,
        HierarchyKind::Effect => "Effect"@,
        HierarchyKind::Source => "Source"@,
        HierarchyKind::AudioDevice => "Audio Device"@,
        HierarchyKind::AudioBus => "Audio Bus"@,
        HierarchyKind::AuxiliaryAudioBus => "Auxiliary Bus"@,
        HierarchyKind::Sound => "Sound"@,
        HierarchyKind::SoundPlaylistContainer => "Playlist Container"@,
        HierarchyKind::SoundSwitchContainer => "Switch Container"@,
        HierarchyKind::SoundBlendContainer => "Blend Container"@,
        HierarchyKind::ActorMixer => "Actor Mixer"@,
        HierarchyKind::MusicTrack => "Music Track"@,
        HierarchyKind::MusicSegment => "Music Segment"@,
        HierarchyKind::MusicPlaylistContainer => "Music Playlist"@,
        HierarchyKind::MusicSwitchContainer => "Music Switch"@,
    }
}

/// The name the browser shows for a hierarchy object kind.
pub fn hierarchy_kind_label(kind: HierarchyKind) -> (s: &'static str)
    ensures
        s@ == spec_hierarchy_kind_label(kind),
{
    match kind {
        HierarchyKind::Unknown => "Unknown",
        HierarchyKind::StatefulPropertySetting => "Stateful Property",
        HierarchyKind::EventAction => "Event Action",
        HierarchyKind::Event => "Event",
        HierarchyKind::DialogueEvent => "Dialogue Event",
        HierarchyKind::Attenuation => "Attenuation",
        HierarchyKind::LowFrequencyOscillatorModulator => "LFO Modulator",
        HierarchyKind::EnvelopeModulator => "Envelope Modulator",
        HierarchyKind::TimeModulator => "Time Modulator",
        HierarchyKind::Effect => "Effect",
        HierarchyKind::Source => "Source",
        HierarchyKind::AudioDevice => "Audio Device",
        HierarchyKind::AudioBus => "Audio Bus",
        HierarchyKind::AuxiliaryAudioBus => "Auxiliary Bus",
        HierarchyKind::Sound => "Sound",
        HierarchyKind::SoundPlaylistContainer => "Playlist Container",
        HierarchyKind::SoundSwitchContainer => "Switch Container",
        HierarchyKind::SoundBlendContainer => "Blend Container",
        HierarchyKind::ActorMixer => "Actor Mixer",
        HierarchyKind::MusicTrack => "Music Track",
        HierarchyKind::MusicSegment => "Music Segment",
        HierarchyKind::MusicPlaylistContainer => "Music Playlist",
        HierarchyKind::MusicSwitchContainer => "Music Switch",
    }
}


/// How many of `kinds` carry the label `label`.
pub open spec fn label_count(kinds: Seq<HierarchyKind>, label: Seq<char>) -> nat
    decreases kinds.len(),
{
    if kinds.len() == 0 {
        0
    } else {
        label_count(kinds.drop_last(), label) + if spec_hierarchy_kind_label(kinds.last()) == label {
            1nat
        } else {
            0nat
        }
    }
}

/// Some object of `kinds` carries the label `label`.
pub open spec fn label_present(kinds: Seq<HierarchyKind>, label: Seq<char>) -> bool {
    exists|j: int| 0 <= j < kinds.len() && spec_hierarchy_kind_label(#[trigger] kinds[j]) == label
}

/// How many kinds the overview lists.
pub const COMPOSITION_LIMIT: usize = 12;

/// The composition the overview shows of a bank's hierarchy: each kind label
/// present with the number of objects carrying it, in label order, the first
/// twelve labels only.
pub fn kind_composition(kinds: &Vec<HierarchyKind>) -> (r: Vec<(String, usize)>)
    ensures
        r@.len() <= COMPOSITION_LIMIT,
        strictly_increasing(Seq::new(r@.len(), |i: int| r@[i].0@)),
        forall|i: int| 0 <= i < r@.len() ==> label_present(kinds@, #[trigger] r@[i].0@) && r@[i].1 == label_count(
            kinds@,
            r@[i].0@,
        ),
        forall|x: Seq<char>|
            label_present(kinds@, x) && !(exists|i: int| 0 <= i < r@.len() && #[trigger] r@[i].0@ == x) ==> r@.len()
                == COMPOSITION_LIMIT && lex_order(r@[COMPOSITION_LIMIT - 1].0@, x) == -1,
{
    let mut labels: Vec<String> = Vec::new();
    let mut i: usize = 0;
    while i < kinds.len()
        invariant
            i <= kinds@.len(),
            strictly_increasing(views(labels@)),
            forall|x: Seq<char>| views(labels@).contains(x) <==> label_present(kinds@.take(i as int), x),
        decreases kinds@.len() - i,
    {
        let label = hierarchy_kind_label(kinds[i]).to_string();
        let ghost before = kinds@.take(i as int);
        let ghost after = kinds@.take(i + 1);
        insert_sorted(&mut labels, label);
        assert forall|x: Seq<char>| views(labels@).contains(x) <==> label_present(after, x) by {
            if label_present(after, x) {
                let j = choose|j: int| 0 <= j < after.len() && spec_hierarchy_kind_label(#[trigger] after[j]) == x;
                if j < i {
                    assert(before[j] == after[j]);
                    assert(label_present(before, x));
                }
            }
            if label_present(before, x) {
                let j = choose|j: int| 0 <= j < before.len() && spec_hierarchy_kind_label(#[trigger] before[j]) == x;
                assert(after[j] == before[j]);
            }
            if x == spec_hierarchy_kind_label(kinds@[i as int]) {
                assert(after[i as int] == kinds@[i as int]);
            }
        }
        i = i + 1;
    }
    assert(kinds@.take(i as int) =~= kinds@);
    let ghost all = views(labels@);
    let shown = if labels.len() < COMPOSITION_LIMIT {
        labels.len()
    } else {
        COMPOSITION_LIMIT
    };
    let mut r: Vec<(String, usize)> = Vec::new();
    let mut k: usize = 0;
    while k < shown
        invariant
            k <= shown <= labels@.len(),
            shown <= COMPOSITION_LIMIT,
            shown == labels@.len() || shown == COMPOSITION_LIMIT,
            all == views(labels@),
            strictly_increasing(all),
            forall|x: Seq<char>| all.contains(x) <==> label_present(kinds@, x),
            r@.len() == k,
            forall|q: int| 0 <= q < k ==> #[trigger] r@[q].0@ == all[q],
            forall|q: int| 0 <= q < k ==> #[trigger] r@[q].1 == label_count(kinds@, all[q]),
        decreases shown - k,
    {
        let label = labels[k].clone();
        let mut count: usize = 0;
        let mut j: usize = 0;
        while j < kinds.len()
            invariant
                j <= kinds@.len(),
                count <= j,
                count == label_count(kinds@.take(j as int), label@),
            decreases kinds@.len() - j,
        {
            assert(kinds@.take(j + 1).drop_last() =~= kinds@.take(j as int));
            let here = hierarchy_kind_label(kinds[j]).to_string();
            if here == label {
                count = count + 1;
            }
            j = j + 1;
        }
        assert(kinds@.take(j as int) =~= kinds@);
        assert(label@ == all[k as int]);
        r.push((label, count));
        k = k + 1;
    }
    proof {
        let names = Seq::new(r@.len(), |i: int| r@[i].0@);
        assert(names =~= all.take(shown as int));
        assert forall|i: int| 0 <= i < r@.len() implies label_present(kinds@, #[trigger] r@[i].0@) by {
            assert(all.contains(all[i]));
        }
        assert forall|x: Seq<char>|
            label_present(kinds@, x) && !(exists|i: int| 0 <= i < r@.len() && #[trigger] r@[i].0@ == x) implies r@.len()
                == COMPOSITION_LIMIT && lex_order(r@[COMPOSITION_LIMIT - 1].0@, x) == -1 by {
            assert(all.contains(x));
            let m = choose|m: int| 0 <= m < all.len() && all[m] == x;
            if m < shown {
                assert(r@[m].0@ == x);
            }
            assert(m >= shown);
            if shown == labels@.len() {
                assert(false);
            }
            assert(r@[COMPOSITION_LIMIT - 1].0@ == all[COMPOSITION_LIMIT - 1]);
        }
    }
    r
}

} // verus!
