//! Structural edits of a PAM document: adding sprites, removing a sprite and
//! re-pointing the instances that referenced the sprites after it.
use vstd::prelude::*;

use crate::pam::state::SpriteKey;
use crate::pam::validate::AppendRef;
use crate::text::{decimal, push_decimal, push_str, string_of_all};

verus! {

/// The appends left after sprite `removed` is deleted: appends of that sprite
/// are dropped and references to later sprites move down by one.
pub open spec fn reindexed(appends: Seq<AppendRef>, removed: u32) -> Seq<AppendRef>
    decreases appends.len(),
{
    if appends.len() == 0 {
        Seq::empty()
    } else {
        let rest = reindexed(appends.drop_last(), removed);
        let a = appends.last();
        if a.sprite && a.resource == removed {
            rest
        } else if a.sprite && a.resource > removed {
            rest.push(AppendRef { index: a.index, sprite: a.sprite, resource: (a.resource - 1) as u32 })
        } else {
            rest.push(a)
        }
    }
}

/// Removes the references to sprite `removed` from one frame's appends and
/// shifts references to later sprites down by one.
pub fn remove_sprite_references(appends: &mut Vec<AppendRef>, removed: u32)
    ensures
        final(appends)@ == reindexed(old(appends)@, removed),
{
    let mut out: Vec<AppendRef> = Vec::new();
    let mut i: usize = 0;
    while i < appends.len()
        invariant
            appends@ == old(appends)@,
            i <= appends@.len(),
            out@ == reindexed(appends@.take(i as int), removed),
        decreases appends@.len() - i,
    {
        let a = appends[i];
        assert(appends@.take(i + 1).drop_last() =~= appends@.take(i as int));
        if a.sprite && a.resource == removed {
        } else if a.sprite && a.resource > removed {
            out.push(AppendRef { index: a.index, sprite: a.sprite, resource: a.resource - 1 });
        } else {
            out.push(a);
        }
        i = i + 1;
    }
    assert(appends@.take(appends@.len() as int) =~= appends@);
    *appends = out;
}

/// The sprite shown after sprite `removed` was deleted and `remaining` sprites
/// are left: the main sprite when none is left, else the sprite now at the
/// removed position (the last one when the removed sprite was last).
pub fn sprite_after_removal(removed: usize, remaining: usize) -> (key: SpriteKey)
    ensures
        key == (if remaining == 0 {
            SpriteKey::Main
        } else {
            SpriteKey::Sprite(if removed < remaining - 1 { removed } else { (remaining - 1) as usize })
        }),
{
    if remaining == 0 {
        SpriteKey::Main
    } else {
        SpriteKey::Sprite(if removed < remaining - 1 {
            removed
        } else {
            remaining - 1
        })
    }
}

/// The name given to a new sprite at position `index`: `sprite_<index>` from
/// PAM version 4 on, none before.
pub fn new_sprite_name(version: i32, index: usize) -> (name: Option<String>)
    ensures
        version >= 4 ==> name is Some && name->0@ == "sprite_"@ + decimal(index as nat),
        version < 4 ==> name is None,
{
    if version >= 4 {
        let mut v: Vec<char> = Vec::new();
        push_str(&mut v, "sprite_");
        push_decimal(&mut v, index as u64);
        Some(string_of_all(&v))
    } else {
        None
    }
}

/// Whether a new sprite of this PAM version carries a work area.
pub fn new_sprite_has_work_area(version: i32) -> (r: bool)
    ensures
        r == (version >= 5),
{
    version >= 5
}

/// The PAM version a conversion targets: clamped into `1..=6`.
pub fn clamp_version(version: i32) -> (v: i32)
    ensures
        v == (if version < 1 {
            1
        } else if version > 6 {
            6
        } else {
            version
        }),
{
    if version < 1 {
        1
    } else if version > 6 {
        6
    } else {
        version
    }
}

/// Which fields a conversion to `version` fills in where they are missing.
#[derive(Clone, Copy, Debug, PartialEq, Eq)]
pub struct MigrationPlan {
    /// Image transforms are stored as rotation triples (version 1) rather than matrices.
    pub rotation_transforms: bool,
    /// Images get a size, sprites a name and a frame rate (version 4 on).
    pub names_and_sizes: bool,
    /// Sprites get a work area (version 5 on).
    pub work_areas: bool,
    /// A main sprite is created when missing (versions up to 3).
    pub main_sprite: bool,
}

/// The conversion of a document at `current` to the requested version, or
/// none when the clamped target equals `current`.
pub fn migration_plan(current: i32, requested: i32) -> (plan: Option<(i32, MigrationPlan)>)
    ensures
        ({
            let v = if requested < 1 {
                1
            } else if requested > 6 {
                6
            } else {
                requested
            };
            if v == current {
                plan is None
            } else {
                plan == Some((
                    v as i32,
                    MigrationPlan {
                        rotation_transforms: v == 1,
                        names_and_sizes: v >= 4,
                        work_areas: v >= 5,
                        main_sprite: v <= 3,
                    },
                ))
            }
        }),
{
    let v = clamp_version(requested);
    if v == current {
        return None;
    }
    Some((
        v,
        MigrationPlan {
            rotation_transforms: v == 1,
            names_and_sizes: v >= 4,
            work_areas: v >= 5,
            main_sprite: v <= 3,
        },
    ))
}

/// Where a new frame goes among `frame_count` frames: right after the
/// current frame, or after the last frame when the current one is past it.
pub open spec fn spec_insert_position(frame_index: int, frame_count: int) -> int {
    let last = if frame_count == 0 { 0 } else { frame_count - 1 };
    let after = (if frame_index < last { frame_index } else { last }) + 1;
    if after < frame_count { after } else { frame_count }
}

/// The end of a work area for `frame_count` frames, capped at `i16::MAX`.
pub open spec fn spec_work_area_end(frame_count: int) -> int {
    if frame_count < 32767 { frame_count } else { 32767 }
}

/// Which frame a new frame copies: the current one when asked to duplicate
/// it and it exists; otherwise the new frame is empty (`None`).
pub fn new_frame_source(duplicate_current: bool, frame_index: usize, frame_count: usize) -> (r: Option<usize>)
    ensures
        r == (if duplicate_current && frame_index < frame_count { Some(frame_index) } else { None::<usize> }),
{
    if duplicate_current && frame_index < frame_count {
        Some(frame_index)
    } else {
        None
    }
}

/// Adds `frame` to a sprite after its current frame (see
/// `spec_insert_position`); a work area then ends at the new frame count.
pub fn insert_frame<T>(frames: &mut Vec<T>, work_area: &mut Option<(i32, i32)>, frame_index: usize, frame: T)
    requires
        old(frames)@.len() < usize::MAX,
    ensures
        final(frames)@ == old(frames)@.insert(spec_insert_position(frame_index as int, old(frames)@.len() as int), frame),
        *final(work_area) == (match *old(work_area) {
            Some((start, _)) => Some((start, spec_work_area_end(old(frames)@.len() as int + 1) as i32)),
            None => None::<(i32, i32)>,
        }),
{
    let at = crate::pam::state::frame_insert_position(frame_index, frames.len());
    frames.insert(at, frame);
    let end = crate::pam::state::work_area_end(frames.len());
    *work_area = match *work_area {
        Some((start, _)) => Some((start, end)),
        None => None,
    };
}

/// Deletes the current frame of a sprite when it exists and is not the
/// sprite's only frame; a work area then stays within the frames left and
/// ends at their count. Returns whether a frame was deleted.
pub fn delete_frame<T>(frames: &mut Vec<T>, work_area: &mut Option<(i32, i32)>, frame_index: usize) -> (r: bool)
    requires
        old(frames)@.len() <= i32::MAX,
    ensures
        r == (old(frames)@.len() > 1 && frame_index < old(frames)@.len()),
        r ==> final(frames)@ == old(frames)@.remove(frame_index as int) && *final(work_area) == (match *old(work_area) {
            Some((start, _)) => {
                let last = old(frames)@.len() - 2;
                Some(((if start < last { start as int } else { last }) as i32, spec_work_area_end(old(frames)@.len() as int - 1) as i32))
            },
            None => None::<(i32, i32)>,
        }),
        !r ==> final(frames)@ == old(frames)@ && *final(work_area) == *old(work_area),
{
    if !crate::pam::state::can_delete_frame(frame_index, frames.len()) {
        return false;
    }
    frames.remove(frame_index);
    *work_area = match *work_area {
        Some((start, _)) => Some(crate::pam::state::work_area_after_delete(start, frames.len())),
        None => None,
    };
    true
}

/// The appends of each frame once sprite `removed` is deleted. A sprite
/// position past every `u32` resource leaves them as they are.
pub open spec fn frames_after_removal(frames: Seq<Vec<AppendRef>>, removed: int) -> Seq<Seq<AppendRef>> {
    Seq::new(
        frames.len(),
        |f: int|
            if removed <= u32::MAX {
                reindexed(frames[f]@, removed as u32)
            } else {
                frames[f]@
            },
    )
}

/// The appends of one sprite's frames, frame by frame.
pub open spec fn frame_views(frames: Seq<Vec<AppendRef>>) -> Seq<Seq<AppendRef>> {
    Seq::new(frames.len(), |f: int| frames[f]@)
}

/// Removes sprite `removed` from references held frame by frame: every
/// frame's appends lose that sprite and point to the later ones one lower.
fn remove_references_in_frames(frames: &mut Vec<Vec<AppendRef>>, removed: usize)
    ensures
        frame_views(final(frames)@) == frames_after_removal(old(frames)@, removed as int),
{
    let ghost before = frames@;
    let mut out: Vec<Vec<AppendRef>> = Vec::new();
    let mut f: usize = 0;
    while f < frames.len()
        invariant
            frames@ == before,
            f <= before.len(),
            out@.len() == f,
            forall|g: int| #![trigger out@[g]] 0 <= g < f ==> out@[g]@ == frames_after_removal(before, removed as int)[g],
        decreases before.len() - f,
    {
        let mut appends = frames[f].clone();
        assert(appends@ == before[f as int]@);
        if removed <= u32::MAX as usize {
            remove_sprite_references(&mut appends, removed as u32);
        }
        out.push(appends);
        f = f + 1;
    }
    assert(frame_views(out@) =~= frames_after_removal(before, removed as int));
    *frames = out;
}

/// Deletes sprite `removed` from a document's sprites, where each sprite is
/// given by the appends of its frames, and re-points the references of the
/// sprites left and of the main sprite. Returns the sprite shown afterwards,
/// or `None` (nothing changed) when there is no such sprite.
pub fn delete_sprite(
    sprites: &mut Vec<Vec<Vec<AppendRef>>>,
    main_sprite: &mut Option<Vec<Vec<AppendRef>>>,
    removed: usize,
) -> (r: Option<SpriteKey>)
    ensures
        removed >= old(sprites)@.len() ==> r is None && final(sprites)@ == old(sprites)@ && *final(main_sprite) == *old(main_sprite),
        removed < old(sprites)@.len() ==> {
            let left = old(sprites)@.remove(removed as int);
            &&& r == Some(if left.len() == 0 {
                SpriteKey::Main
            } else {
                SpriteKey::Sprite(if removed < left.len() - 1 { removed } else { (left.len() - 1) as usize })
            })
            &&& final(sprites)@.len() == left.len()
            &&& forall|k: int| #![trigger final(sprites)@[k]] 0 <= k < left.len() ==>
                frame_views(final(sprites)@[k]@) == frames_after_removal(left[k]@, removed as int)
            &&& match *old(main_sprite) {
                Some(frames) => *final(main_sprite) matches Some(after) && frame_views(after@) == frames_after_removal(frames@, removed as int),
                None => *final(main_sprite) is None,
            }
        },
{
    if removed >= sprites.len() {
        return None;
    }
    sprites.remove(removed);
    let ghost left = sprites@;
    let mut out: Vec<Vec<Vec<AppendRef>>> = Vec::new();
    while sprites.len() > 0
        invariant
            out@.len() + sprites@.len() == left.len(),
            sprites@ == left.subrange(out@.len() as int, left.len() as int),
            forall|j: int| #![trigger out@[j]] 0 <= j < out@.len() ==> frame_views(out@[j]@) == frames_after_removal(left[j]@, removed as int),
        decreases sprites@.len(),
    {
        let ghost k = out@.len() as int;
        let mut frames = sprites.remove(0);
        assert(frames == left[k]);
        remove_references_in_frames(&mut frames, removed);
        out.push(frames);
        assert(sprites@ =~= left.subrange(out@.len() as int, left.len() as int));
    }
    *sprites = out;
    match main_sprite {
        Some(frames) => remove_references_in_frames(frames, removed),
        None => {},
    }
    Some(sprite_after_removal(removed, sprites.len()))
}

/// Where the keyframe of layer `layer` is among a frame's changes, given by
/// the layer of each change: the last change of that layer, or a new change
/// for the layer added at the end when the frame has none.
pub fn instance_keyframe(change_layers: &mut Vec<u32>, layer: u32) -> (k: usize)
    ensures
        (exists|j: int| 0 <= j < old(change_layers)@.len() && old(change_layers)@[j] == layer) ==> {
            &&& final(change_layers)@ == old(change_layers)@
            &&& k < old(change_layers)@.len() && old(change_layers)@[k as int] == layer
            &&& forall|j: int| k < j < old(change_layers)@.len() ==> old(change_layers)@[j] != layer
        },
        !(exists|j: int| 0 <= j < old(change_layers)@.len() && old(change_layers)@[j] == layer) ==> {
            &&& final(change_layers)@ == old(change_layers)@.push(layer)
            &&& k == old(change_layers)@.len()
        },
{
    match crate::pam::state::keyframe_slot(change_layers, layer) {
        Some(k) => k,
        None => {
            change_layers.push(layer);
            change_layers.len() - 1
        },
    }
}

} // verus!
