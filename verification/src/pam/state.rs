//! Viewer preferences and the bookkeeping of an open PAM document: which sprite
//! is active, which frames are shown, which layers are visible.
use vstd::prelude::*;

use crate::text::{after_last, chars_of, last_segment_start, string_of, CharSet};

verus! {

/// The interface language.
#[derive(Clone, Copy, Debug, PartialEq, Eq, Structural)]
pub enum Locale {
    ZhCn,
    En,
}

impl Default for Locale {
    fn default() -> (l: Self)
        ensures
            l == Locale::ZhCn,
    {
        Locale::ZhCn
    }
}

/// The colour theme.
#[derive(Clone, Copy, Debug, PartialEq, Eq, Structural)]
pub enum Theme {
    System,
    Light,
    Dark,
}

impl Default for Theme {
    fn default() -> (t: Self)
        ensures
            t == Theme::System,
    {
        Theme::System
    }
}

/// Saved viewer preferences.
#[derive(Clone, Copy, Debug)]
pub struct Preferences {
    pub locale: Locale,
    pub theme: Theme,
    pub loop_playback: bool,
    pub reverse: bool,
    pub autoplay: bool,
    pub keep_speed: bool,
    pub boundary: bool,
    pub speed_fps: Option<u32>,
}

impl Default for Preferences {
    /// Chinese interface, system theme, looping playback with the stage
    /// boundary shown, everything else off.
    fn default() -> (p: Self)
        ensures
            p.locale == Locale::ZhCn,
            p.theme == Theme::System,
            p.loop_playback,
            !p.reverse,
            !p.autoplay,
            !p.keep_speed,
            p.boundary,
            p.speed_fps is None,
    {
        Preferences {
            locale: Locale::ZhCn,
            theme: Theme::System,
            loop_playback: true,
            reverse: false,
            autoplay: false,
            keep_speed: false,
            boundary: true,
            speed_fps: None,
        }
    }
}

/// The frames of the active sprite that playback and export cover, both ends included.
#[derive(Clone, Copy, Debug, PartialEq, Eq, Structural)]
pub struct FrameRange {
    pub begin: usize,
    pub end: usize,
}

/// Which sprite of a document is shown: the main sprite or one of the sprites.
#[derive(Clone, Copy, Debug, PartialEq, Eq, Structural)]
pub enum SpriteKey {
    Main,
    Sprite(usize),
}

/// Whether the image and sprite panels start open: a compact layout starts
/// with both closed, a wide one keeps the saved choice.
pub fn initial_panel_state(compact_layout: bool, images_open: bool, sprites_open: bool) -> (r: (bool, bool))
    ensures
        r == (if compact_layout {
            (false, false)
        } else {
            (images_open, sprites_open)
        }),
{
    if compact_layout {
        (false, false)
    } else {
        (images_open, sprites_open)
    }
}

/// The panels to keep open after the layout changes: a compact layout shows
/// at most one panel, keeping the image (left) panel when both were open.
pub fn panel_state_for_layout(compact_layout: bool, images_open: bool, sprites_open: bool) -> (r: (bool, bool))
    ensures
        r == (if compact_layout && images_open && sprites_open {
            (true, false)
        } else {
            (images_open, sprites_open)
        }),
{
    if compact_layout && images_open && sprites_open {
        (true, false)
    } else {
        (images_open, sprites_open)
    }
}

/// Whether layer `i` is hidden by default: listed among the default-hidden
/// layers or the zombie-state layers.
pub open spec fn hidden_by_default(i: int, hidden: Seq<usize>, zombie_states: Seq<usize>) -> bool {
    hidden.contains(i as usize) || zombie_states.contains(i as usize)
}

fn hide_listed(filter: &mut Vec<bool>, listed: &Vec<usize>)
    ensures
        final(filter)@.len() == old(filter)@.len(),
        forall|i: int|
            0 <= i < old(filter)@.len() ==> #[trigger] final(filter)@[i] == (old(filter)@[i]
                && !listed@.contains(i as usize)),
{
    let mut j: usize = 0;
    while j < listed.len()
        invariant
            j <= listed@.len(),
            filter@.len() == old(filter)@.len(),
            forall|i: int|
                0 <= i < filter@.len() ==> #[trigger] filter@[i] == (old(filter)@[i]
                    && !listed@.take(j as int).contains(i as usize)),
        decreases listed@.len() - j,
    {
        let index = listed[j];
        if index < filter.len() {
            filter.set(index, false);
        }
        proof {
            assert forall|i: int| 0 <= i < filter@.len() implies #[trigger] filter@[i] == (old(filter)@[i]
                && !listed@.take(j + 1).contains(i as usize)) by {
                assert(listed@.take(j + 1) =~= listed@.take(j as int).push(index));
                if listed@.take(j as int).contains(i as usize) {
                    let w = choose|w: int| 0 <= w < j && #[trigger] listed@.take(j as int)[w] == i as usize;
                    assert(listed@.take(j + 1)[w] == i as usize);
                }
                if listed@.take(j + 1).contains(i as usize) {
                    let w = choose|w: int| 0 <= w < j + 1 && #[trigger] listed@.take(j + 1)[w] == i as usize;
                    if w < j {
                        assert(listed@.take(j as int)[w] == i as usize);
                    }
                }
                if index == i as usize {
                    assert(listed@.take(j + 1)[j as int] == index);
                }
            }
        }
        j = j + 1;
    }
    assert(listed@.take(listed@.len() as int) =~= listed@);
}

/// Shows every layer except those hidden by default.
pub fn apply_default_sprite_visibility(
    sprite_filter: &mut Vec<bool>,
    default_hidden_layers: &Vec<usize>,
    zombie_state_layers: &Vec<usize>,
)
    ensures
        final(sprite_filter)@.len() == old(sprite_filter)@.len(),
        forall|i: int|
            0 <= i < old(sprite_filter)@.len() ==> #[trigger] final(sprite_filter)@[i] == !hidden_by_default(
                i,
                default_hidden_layers@,
                zombie_state_layers@,
            ),
{
    let n = sprite_filter.len();
    let mut i: usize = 0;
    while i < n
        invariant
            i <= n,
            sprite_filter@.len() == n,
            forall|j: int| 0 <= j < i ==> #[trigger] sprite_filter@[j],
        decreases n - i,
    {
        sprite_filter.set(i, true);
        i = i + 1;
    }
    hide_listed(sprite_filter, default_hidden_layers);
    hide_listed(sprite_filter, zombie_state_layers);
}

/// The sprite shown when a document opens: the main sprite if there is one.
pub fn initial_sprite(has_main_sprite: bool) -> (key: SpriteKey)
    ensures
        key == (if has_main_sprite {
            SpriteKey::Main
        } else {
            SpriteKey::Sprite(0)
        }),
{
    if has_main_sprite {
        SpriteKey::Main
    } else {
        SpriteKey::Sprite(0)
    }
}

/// The frame range and current frame when a document opens: the whole
/// sprite, starting at its last frame when playback runs in reverse.
pub fn initial_frames(frame_count: usize, reverse: bool) -> (r: (FrameRange, usize))
    ensures
        r.0 == (FrameRange { begin: 0, end: if frame_count == 0 { 0 } else { (frame_count - 1) as usize } }),
        r.1 == if reverse {
            r.0.end
        } else {
            r.0.begin
        },
{
    let range = FrameRange { begin: 0, end: frame_count.saturating_sub(1) };
    (range, if reverse {
        range.end
    } else {
        range.begin
    })
}

/// The playback speed of a newly opened document: the saved speed when the
/// viewer keeps speeds (the document's own when none was saved), else the
/// document's own.
pub fn initial_speed(keep_speed: bool, saved_fps: Option<u32>, native_fps: u32) -> (fps: u32)
    ensures
        fps == (if keep_speed {
            match saved_fps {
                Some(s) => s,
                None => native_fps,
            }
        } else {
            native_fps
        }),
{
    if keep_speed {
        match saved_fps {
            Some(s) => s,
            None => native_fps,
        }
    } else {
        native_fps
    }
}

/// The active sprite after an edit: the main sprite falls back to the first
/// sprite when it is gone, and a vanished sprite falls back to the main
/// sprite, or else to the last sprite.
pub open spec fn spec_settle_sprite(key: SpriteKey, has_main: bool, sprite_count: nat) -> SpriteKey {
    let key = if key == SpriteKey::Main && !has_main {
        SpriteKey::Sprite(0)
    } else {
        key
    };
    match key {
        SpriteKey::Sprite(index) => if index >= sprite_count {
            if has_main {
                SpriteKey::Main
            } else {
                SpriteKey::Sprite(if sprite_count == 0 { 0 } else { (sprite_count - 1) as usize })
            }
        } else {
            key
        },
        SpriteKey::Main => key,
    }
}

pub fn settle_sprite(key: SpriteKey, has_main: bool, sprite_count: usize) -> (r: SpriteKey)
    ensures
        r == spec_settle_sprite(key, has_main, sprite_count as nat),
{
    let key = if key == SpriteKey::Main && !has_main {
        SpriteKey::Sprite(0)
    } else {
        key
    };
    match key {
        SpriteKey::Sprite(index) => if index >= sprite_count {
            if has_main {
                SpriteKey::Main
            } else {
                SpriteKey::Sprite(sprite_count.saturating_sub(1))
            }
        } else {
            key
        },
        SpriteKey::Main => key,
    }
}

/// The current frame and frame range after the frame count changed: all are
/// clamped into `0..frame_count` and the range is kept non-empty.
pub fn clamp_frames(current_frame: usize, range: FrameRange, frame_count: usize) -> (r: (usize, FrameRange))
    ensures
        ({
            let last = if frame_count == 0 { 0 } else { frame_count - 1 };
            let begin = if range.begin < last { range.begin as int } else { last };
            let end = if range.end < last { range.end as int } else { last };
            &&& r.0 == if current_frame < last { current_frame as int } else { last }
            &&& r.1.end == end
            &&& r.1.begin == if begin > end { end } else { begin }
        }),
        r.1.begin <= r.1.end,
{
    let last = frame_count.saturating_sub(1);
    let current = if current_frame < last { current_frame } else { last };
    let mut begin = if range.begin < last { range.begin } else { last };
    let end = if range.end < last { range.end } else { last };
    if begin > end {
        begin = end;
    }
    (current, FrameRange { begin, end })
}

/// The image selected after an edit: kept while it exists, else the first
/// image when there is one.
pub fn settle_selected_image(selected: Option<usize>, image_count: usize) -> (r: Option<usize>)
    ensures
        r == (match selected {
            Some(i) if i < image_count => Some(i),
            _ => if image_count > 0 {
                Some(0usize)
            } else {
                None
            },
        }),
{
    match selected {
        Some(i) if i < image_count => Some(i),
        _ => if image_count > 0 {
            Some(0)
        } else {
            None
        },
    }
}

/// Where a new frame goes: right after the current frame (or after the last
/// frame when the current one is past the end).
pub fn frame_insert_position(frame_index: usize, frame_count: usize) -> (at: usize)
    ensures
        at == ({
            let last = if frame_count == 0 { 0 } else { frame_count - 1 };
            let after = (if frame_index < last { frame_index as int } else { last }) + 1;
            if after < frame_count { after } else { frame_count as int }
        }),
        at <= frame_count,
{
    let last = frame_count.saturating_sub(1);
    let after = (if frame_index < last {
        frame_index
    } else {
        last
    }) + 1;
    if after < frame_count {
        after
    } else {
        frame_count
    }
}

/// The end of a sprite's work area for a sprite of `frame_count` frames,
/// capped at `i16::MAX`.
pub fn work_area_end(frame_count: usize) -> (end: i32)
    ensures
        end == (if frame_count < 32767 { frame_count as int } else { 32767 }),
{
    if frame_count < 32767 {
        frame_count as i32
    } else {
        32767
    }
}

/// The name a document tab shows: the last path component of its source.
pub fn display_name(source_name: &str) -> (out: String)
    ensures
        out@ == after_last(source_name@, CharSet::Separators),
{
    let v = chars_of(source_name);
    let start = last_segment_start(&v, 0, v.len(), CharSet::Separators);
    assert(v@.subrange(0, v@.len() as int) =~= v@);
    string_of(&v, start, v.len())
}

/// Whether the current frame can be deleted: a sprite keeps at least one
/// frame, and the frame must exist.
pub fn can_delete_frame(frame_index: usize, frame_count: usize) -> (r: bool)
    ensures
        r == (frame_count > 1 && frame_index < frame_count),
{
    frame_count > 1 && frame_index < frame_count
}

/// A sprite's work area once it has `frame_count` frames after a deletion:
/// the start kept within the frames, the end at the frame count (capped at
/// `i16::MAX`).
pub fn work_area_after_delete(start: i32, frame_count: usize) -> (r: (i32, i32))
    requires
        frame_count <= i32::MAX,
    ensures
        r.0 == (if start < (if frame_count == 0 { 0 } else { frame_count - 1 }) { start as int } else { if frame_count == 0 { 0 } else { frame_count - 1 } }),
        r.1 == (if frame_count < 32767 { frame_count as int } else { 32767 }),
{
    let last = frame_count.saturating_sub(1) as i32;
    let s = if start < last {
        start
    } else {
        last
    };
    (s, work_area_end(frame_count))
}

/// The current frame after a frame is added: one further on, within the
/// `frame_count` frames there are now.
pub fn frame_after_add(current: usize, frame_count: usize) -> (r: usize)
    requires
        current < usize::MAX,
    ensures
        r == (if current + 1 < (if frame_count == 0 { 0 } else { frame_count - 1 }) { current + 1 } else { if frame_count == 0 { 0 } else { frame_count - 1 } }),
{
    let last = frame_count.saturating_sub(1);
    if current + 1 < last {
        current + 1
    } else {
        last
    }
}

/// Where the keyframe of layer `layer` is among a frame's changes (the last
/// change of that layer), if the frame has one.
pub fn keyframe_slot(change_layers: &Vec<u32>, layer: u32) -> (r: Option<usize>)
    ensures
        r matches Some(k) ==> k < change_layers@.len() && change_layers@[k as int] == layer && forall|j: int|
            k < j < change_layers@.len() ==> change_layers@[j] != layer,
        r is None ==> forall|j: int| 0 <= j < change_layers@.len() ==> change_layers@[j] != layer,
{
    let mut k = change_layers.len();
    while k > 0
        invariant
            k <= change_layers@.len(),
            forall|j: int| k <= j < change_layers@.len() ==> change_layers@[j] != layer,
        decreases k,
    {
        if change_layers[k - 1] == layer {
            return Some(k - 1);
        }
        k = k - 1;
    }
    None
}

} // verus!
