//! The checks that every PAM edit must pass before it is committed.
//!
//! The floating-point limits of the canvas and of instance transforms are
//! decided by the caller and handed in as flags; this module decides the rest
//! in the order the editor reports problems: canvas, then each frame of each
//! sprite (the main sprite last), then cycles among sprite references.
use vstd::prelude::*;

use crate::pam::graph::{acyclic, edge_total, sprite_references_acyclic, targets_in_range};
use crate::text::{push_decimal, push_str};

verus! {

/// One instance appended by a frame: `resource` indexes the sprites when
/// `sprite` is set, the images otherwise.
#[derive(Clone, Copy, Debug, PartialEq, Eq)]
pub struct AppendRef {
    pub index: u32,
    pub sprite: bool,
    pub resource: u32,
}

/// What the reference checks read of one frame; `changes_valid` tells whether
/// every instance change of the frame has finite transforms and colour
/// channels within `0..=1`.
#[derive(Debug)]
pub struct FrameRefs {
    pub appends: Vec<AppendRef>,
    pub changes_valid: bool,
}

/// Why an edit was rejected.
#[derive(Clone, Copy, Debug, PartialEq, Eq)]
pub enum EditError {
    /// The frame rate is outside `1..=255` or the canvas size or position exceed PAM limits.
    CanvasOutOfRange,
    /// The instance with this index references a sprite or image that does not exist.
    MissingResource { index: u32 },
    /// An instance change carries a non-finite transform or a colour channel outside `0..=1`.
    InvalidChange,
    /// Sprites reference each other in a cycle.
    SpriteCycle,
}

pub open spec fn append_is_missing(a: AppendRef, sprite_count: nat, image_count: nat) -> bool {
    a.resource >= if a.sprite {
        sprite_count
    } else {
        image_count
    }
}

/// The first append of `appends` whose resource does not exist.
pub open spec fn first_missing(appends: Seq<AppendRef>, sprite_count: nat, image_count: nat) -> Option<AppendRef>
    decreases appends.len(),
{
    if appends.len() == 0 {
        None
    } else if append_is_missing(appends[0], sprite_count, image_count) {
        Some(appends[0])
    } else {
        first_missing(appends.drop_first(), sprite_count, image_count)
    }
}

/// The problem a single frame reports, if any: a missing resource before an invalid change.
pub open spec fn frame_error(frame: FrameRefs, sprite_count: nat, image_count: nat) -> Option<EditError> {
    match first_missing(frame.appends@, sprite_count, image_count) {
        Some(a) => Some(EditError::MissingResource { index: a.index }),
        None => if frame.changes_valid {
            None
        } else {
            Some(EditError::InvalidChange)
        },
    }
}

/// The first problem among `frames`, in order.
pub open spec fn frames_error(frames: Seq<FrameRefs>, sprite_count: nat, image_count: nat) -> Option<EditError>
    decreases frames.len(),
{
    if frames.len() == 0 {
        None
    } else {
        match frame_error(frames[0], sprite_count, image_count) {
            Some(e) => Some(e),
            None => frames_error(frames.drop_first(), sprite_count, image_count),
        }
    }
}

/// The first problem among the frames of `sprites`, sprite by sprite.
pub open spec fn sprites_error(sprites: Seq<Vec<FrameRefs>>, sprite_count: nat, image_count: nat) -> Option<EditError>
    decreases sprites.len(),
{
    if sprites.len() == 0 {
        None
    } else {
        match frames_error(sprites[0]@, sprite_count, image_count) {
            Some(e) => Some(e),
            None => sprites_error(sprites.drop_first(), sprite_count, image_count),
        }
    }
}

/// The sprites that `appends` reference, in order.
pub open spec fn append_targets(appends: Seq<AppendRef>) -> Seq<usize>
    decreases appends.len(),
{
    if appends.len() == 0 {
        Seq::empty()
    } else if appends.last().sprite {
        append_targets(appends.drop_last()).push(appends.last().resource as usize)
    } else {
        append_targets(appends.drop_last())
    }
}

/// The sprites that the frames of one sprite reference, frame by frame.
pub open spec fn frame_targets(frames: Seq<FrameRefs>) -> Seq<usize>
    decreases frames.len(),
{
    if frames.len() == 0 {
        Seq::empty()
    } else {
        frame_targets(frames.drop_last()) + append_targets(frames.last().appends@)
    }
}

/// The reference graph of the (non-main) sprites.
pub open spec fn sprite_graph(sprites: Seq<Vec<FrameRefs>>) -> Seq<Seq<usize>> {
    Seq::new(sprites.len(), |i: int| frame_targets(sprites[i]@))
}

/// What the editor answers to an edit.
pub open spec fn edit_verdict(
    frame_rate: i32,
    canvas_valid: bool,
    sprites: Seq<Vec<FrameRefs>>,
    main_sprite: Option<Vec<FrameRefs>>,
    image_count: nat,
) -> Result<(), EditError> {
    let sprite_count = sprites.len();
    if !(1 <= frame_rate <= 255) || !canvas_valid {
        Err(EditError::CanvasOutOfRange)
    } else {
        match sprites_error(sprites, sprite_count, image_count) {
            Some(e) => Err(e),
            None => match (match main_sprite {
                Some(m) => frames_error(m@, sprite_count, image_count),
                None => None,
            }) {
                Some(e) => Err(e),
                None => if acyclic(sprite_graph(sprites)) {
                    Ok(())
                } else {
                    Err(EditError::SpriteCycle)
                },
            },
        }
    }
}

/// The text the editor shows for an error.
pub open spec fn error_message(e: EditError) -> Seq<char> {
    match e {
        EditError::CanvasOutOfRange => "Canvas dimensions, position or frame rate exceed PAM limits"@,
        EditError::MissingResource { index } => "Instance #"@ + crate::text::decimal(index as nat)
            + " references a missing resource"@,
        EditError::InvalidChange => "Transforms must be finite and RGBA channels must be between 0 and 1"@,
        EditError::SpriteCycle => "Sprite references cannot form a cycle"@,
    }
}

impl EditError {
    /// The message shown in the status bar.
    pub fn message(&self) -> (out: String)
        ensures
            out@ == error_message(*self),
    {
        let mut v: Vec<char> = Vec::new();
        match self {
            EditError::CanvasOutOfRange => push_str(
                &mut v,
                "Canvas dimensions, position or frame rate exceed PAM limits",
            ),
            EditError::MissingResource { index } => {
                push_str(&mut v, "Instance #");
                push_decimal(&mut v, *index as u64);
                push_str(&mut v, " references a missing resource");
            },
            EditError::InvalidChange => push_str(
                &mut v,
                "Transforms must be finite and RGBA channels must be between 0 and 1",
            ),
            EditError::SpriteCycle => push_str(&mut v, "Sprite references cannot form a cycle"),
        }
        assert(v@ =~= error_message(*self));
        crate::text::string_of_all(&v)
    }
}

/// No append of `appends` references a missing resource, so every sprite it
/// references exists.
proof fn lemma_targets_exist(appends: Seq<AppendRef>, sprite_count: nat, image_count: nat)
    requires
        forall|j: int| 0 <= j < appends.len() ==> !append_is_missing(#[trigger] appends[j], sprite_count, image_count),
    ensures
        forall|j: int| 0 <= j < append_targets(appends).len() ==> #[trigger] append_targets(appends)[j] < sprite_count,
    decreases appends.len(),
{
    if appends.len() > 0 {
        assert forall|j: int| 0 <= j < appends.drop_last().len() implies !append_is_missing(
            #[trigger] appends.drop_last()[j],
            sprite_count,
            image_count,
        ) by {
            assert(appends.drop_last()[j] == appends[j]);
        }
        lemma_targets_exist(appends.drop_last(), sprite_count, image_count);
        let last = appends[appends.len() - 1];
        assert(!append_is_missing(last, sprite_count, image_count));
        let rest = append_targets(appends.drop_last());
        if last.sprite {
            assert forall|j: int| 0 <= j < rest.push(last.resource as usize).len() implies #[trigger] rest.push(
                last.resource as usize,
            )[j] < sprite_count by {
                if j < rest.len() {
                    assert(rest.push(last.resource as usize)[j] == rest[j]);
                }
            }
        }
    }
}

/// The first missing append of `appends`, scanned in order.
fn find_missing(appends: &Vec<AppendRef>, sprite_count: usize, image_count: usize) -> (r: Option<AppendRef>)
    ensures
        r == first_missing(appends@, sprite_count as nat, image_count as nat),
        r is None ==> forall|j: int|
            0 <= j < appends@.len() ==> !append_is_missing(#[trigger] appends@[j], sprite_count as nat, image_count as nat),
{
    let mut i: usize = 0;
    assert(appends@.subrange(0, appends@.len() as int) =~= appends@);
    while i < appends.len()
        invariant
            i <= appends@.len(),
            first_missing(appends@, sprite_count as nat, image_count as nat) == first_missing(
                appends@.subrange(i as int, appends@.len() as int),
                sprite_count as nat,
                image_count as nat,
            ),
            forall|j: int|
                0 <= j < i ==> !append_is_missing(#[trigger] appends@[j], sprite_count as nat, image_count as nat),
        decreases appends@.len() - i,
    {
        let a = appends[i];
        let bound = if a.sprite {
            sprite_count
        } else {
            image_count
        };
        assert(appends@.subrange(i as int, appends@.len() as int)[0] == a);
        if a.resource as usize >= bound {
            return Some(a);
        }
        assert(appends@.subrange(i as int, appends@.len() as int).drop_first() =~= appends@.subrange(
            i + 1,
            appends@.len() as int,
        ));
        i = i + 1;
    }
    None
}

/// The first problem among `frames`.
fn check_frames(frames: &Vec<FrameRefs>, sprite_count: usize, image_count: usize) -> (r: Result<(), EditError>)
    ensures
        r == (match frames_error(frames@, sprite_count as nat, image_count as nat) {
            Some(e) => Err(e),
            None => Ok(()),
        }),
        r is Ok ==> forall|f: int, j: int|
            0 <= f < frames@.len() && 0 <= j < frames@[f].appends@.len() ==> !append_is_missing(
                #[trigger] frames@[f].appends@[j],
                sprite_count as nat,
                image_count as nat,
            ),
{
    let mut i: usize = 0;
    assert(frames@.subrange(0, frames@.len() as int) =~= frames@);
    while i < frames.len()
        invariant
            i <= frames@.len(),
            frames_error(frames@, sprite_count as nat, image_count as nat) == frames_error(
                frames@.subrange(i as int, frames@.len() as int),
                sprite_count as nat,
                image_count as nat,
            ),
            forall|f: int, j: int|
                0 <= f < i && 0 <= j < frames@[f].appends@.len() ==> !append_is_missing(
                    #[trigger] frames@[f].appends@[j],
                    sprite_count as nat,
                    image_count as nat,
                ),
        decreases frames@.len() - i,
    {
        let frame = &frames[i];
        assert(frames@.subrange(i as int, frames@.len() as int)[0] == *frame);
        match find_missing(&frame.appends, sprite_count, image_count) {
            Some(a) => {
                return Err(EditError::MissingResource { index: a.index });
            },
            None => {},
        }
        if !frame.changes_valid {
            return Err(EditError::InvalidChange);
        }
        assert(frames@.subrange(i as int, frames@.len() as int).drop_first() =~= frames@.subrange(
            i + 1,
            frames@.len() as int,
        ));
        i = i + 1;
    }
    Ok(())
}

/// The sprites that `frames` reference, frame by frame.
fn collect_targets(frames: &Vec<FrameRefs>) -> (out: Vec<usize>)
    ensures
        out@ == frame_targets(frames@),
{
    let mut out: Vec<usize> = Vec::new();
    let mut f: usize = 0;
    while f < frames.len()
        invariant
            f <= frames@.len(),
            out@ == frame_targets(frames@.take(f as int)),
        decreases frames@.len() - f,
    {
        let appends = &frames[f].appends;
        let ghost before = out@;
        let mut j: usize = 0;
        while j < appends.len()
            invariant
                j <= appends@.len(),
                out@ == before + append_targets(appends@.take(j as int)),
            decreases appends@.len() - j,
        {
            let a = appends[j];
            assert(appends@.take(j + 1).drop_last() =~= appends@.take(j as int));
            if a.sprite {
                out.push(a.resource as usize);
                assert(before + append_targets(appends@.take(j + 1)) =~= (before + append_targets(
                    appends@.take(j as int),
                )).push(a.resource as usize));
            }
            j = j + 1;
        }
        assert(appends@.take(appends@.len() as int) =~= appends@);
        assert(frames@.take(f + 1).drop_last() =~= frames@.take(f as int));
        f = f + 1;
    }
    assert(frames@.take(frames@.len() as int) =~= frames@);
    out
}

proof fn lemma_frame_targets_exist(frames: Seq<FrameRefs>, sprite_count: nat, image_count: nat)
    requires
        forall|f: int, j: int|
            0 <= f < frames.len() && 0 <= j < frames[f].appends@.len() ==> !append_is_missing(
                #[trigger] frames[f].appends@[j],
                sprite_count,
                image_count,
            ),
    ensures
        forall|j: int| 0 <= j < frame_targets(frames).len() ==> #[trigger] frame_targets(frames)[j] < sprite_count,
    decreases frames.len(),
{
    if frames.len() > 0 {
        let last = frames.last();
        assert forall|f: int, j: int|
            0 <= f < frames.drop_last().len() && 0 <= j < frames.drop_last()[f].appends@.len() implies !append_is_missing(
            #[trigger] frames.drop_last()[f].appends@[j],
            sprite_count,
            image_count,
        ) by {
            assert(frames.drop_last()[f] == frames[f]);
        }
        lemma_frame_targets_exist(frames.drop_last(), sprite_count, image_count);
        assert forall|j: int| 0 <= j < last.appends@.len() implies !append_is_missing(
            #[trigger] last.appends@[j],
            sprite_count,
            image_count,
        ) by {
            assert(frames[frames.len() - 1].appends@[j] == last.appends@[j]);
        }
        lemma_targets_exist(last.appends@, sprite_count, image_count);
        let a = frame_targets(frames.drop_last());
        let b = append_targets(last.appends@);
        assert forall|j: int| 0 <= j < (a + b).len() implies #[trigger] (a + b)[j] < sprite_count by {
            if j < a.len() {
                assert((a + b)[j] == a[j]);
            } else {
                assert((a + b)[j] == b[j - a.len()]);
            }
        }
    }
}

/// Decides whether an edit of a PAM document may be committed, and if not,
/// which problem is reported: the canvas, then the first frame that appends a
/// missing resource or carries an invalid change (sprites in order, the main
/// sprite last), then a cycle among sprite references.
pub fn validate_edit(
    frame_rate: i32,
    canvas_valid: bool,
    sprites: &Vec<Vec<FrameRefs>>,
    main_sprite: &Option<Vec<FrameRefs>>,
    image_count: usize,
) -> (r: Result<(), EditError>)
    requires
        edge_total(sprite_graph(sprites@), sprites@.len() as int) <= usize::MAX,
    ensures
        r == edit_verdict(frame_rate, canvas_valid, sprites@, *main_sprite, image_count as nat),
{
    if !(1 <= frame_rate && frame_rate <= 255) || !canvas_valid {
        return Err(EditError::CanvasOutOfRange);
    }
    let n = sprites.len();
    let ghost g = sprite_graph(sprites@);
    let mut edges: Vec<Vec<usize>> = Vec::new();
    let mut i: usize = 0;
    assert(sprites@.subrange(0, n as int) =~= sprites@);
    while i < n
        invariant
            n == sprites@.len(),
            1 <= frame_rate <= 255,
            canvas_valid,
            g == sprite_graph(sprites@),
            i <= n,
            sprites_error(sprites@, n as nat, image_count as nat) == sprites_error(
                sprites@.subrange(i as int, n as int),
                n as nat,
                image_count as nat,
            ),
            edges@.len() == i,
            forall|s: int| 0 <= s < i ==> #[trigger] edges@[s]@ == g[s],
            forall|s: int, j: int| 0 <= s < i && 0 <= j < g[s].len() ==> #[trigger] g[s][j] < n,
        decreases n - i,
    {
        assert(sprites@.subrange(i as int, n as int)[0] == sprites@[i as int]);
        match check_frames(&sprites[i], n, image_count) {
            Err(e) => {
                return Err(e);
            },
            Ok(()) => {},
        }
        proof {
            lemma_frame_targets_exist(sprites@[i as int]@, n as nat, image_count as nat);
        }
        edges.push(collect_targets(&sprites[i]));
        assert(sprites@.subrange(i as int, n as int).drop_first() =~= sprites@.subrange(i + 1, n as int));
        i = i + 1;
    }
    match main_sprite {
        Some(frames) => {
            match check_frames(frames, n, image_count) {
                Err(e) => {
                    return Err(e);
                },
                Ok(()) => {},
            }
        },
        None => {},
    }
    proof {
        assert(sprites@.subrange(n as int, n as int) =~= Seq::<Vec<FrameRefs>>::empty());
        assert(edges.deep_view() =~= g) by {
            assert forall|s: int| 0 <= s < n implies #[trigger] edges.deep_view()[s] == g[s] by {
                assert(edges.deep_view()[s] =~= edges@[s]@);
            }
        }
        assert(targets_in_range(g));
    }
    if sprite_references_acyclic(&edges) {
        Ok(())
    } else {
        Err(EditError::SpriteCycle)
    }
}

} // verus!
