use toolkit_logic::pam::flow::{apply_edit_step, EditOutcome};
use toolkit_logic::pam::edit::{
    clamp_version, delete_frame, delete_sprite, insert_frame, instance_keyframe, migration_plan, new_frame_source,
    new_sprite_name, remove_sprite_references, sprite_after_removal,
};
use toolkit_logic::pam::graph::sprite_references_acyclic;
use toolkit_logic::pam::history::EditHistory;
use toolkit_logic::pam::state::{
    apply_default_sprite_visibility, clamp_frames, display_name, initial_frames, initial_panel_state,
    initial_speed, initial_sprite, panel_state_for_layout, settle_selected_image, settle_sprite,
    FrameRange, Locale, Preferences, SpriteKey, Theme,
};
use toolkit_logic::pam::validate::{validate_edit, AppendRef, EditError, FrameRefs};

#[test]
fn mobile_panels_start_closed_without_overwriting_desktop_defaults() {
    assert_eq!(initial_panel_state(true, true, true), (false, false));
    assert_eq!(initial_panel_state(false, true, true), (true, true));
    assert_eq!(initial_panel_state(false, false, true), (false, true));
}

#[test]
fn entering_mobile_layout_keeps_the_left_panel_when_both_are_open() {
    assert_eq!(panel_state_for_layout(true, true, true), (true, false));
    assert_eq!(panel_state_for_layout(true, false, true), (false, true));
    assert_eq!(panel_state_for_layout(false, true, true), (true, true));
}

#[test]
fn preferences_default_to_looping_chinese_system_theme() {
    let p = Preferences::default();
    assert_eq!(p.locale, Locale::ZhCn);
    assert_eq!(p.theme, Theme::System);
    assert!(p.loop_playback && p.boundary);
    assert!(!p.reverse && !p.autoplay && !p.keep_speed);
    assert_eq!(p.speed_fps, None);
    assert_eq!(Locale::default(), Locale::ZhCn);
    assert_eq!(Theme::default(), Theme::System);
}

#[test]
fn cycle_detection_on_sprite_references() {
    assert!(sprite_references_acyclic(&vec![]));
    assert!(sprite_references_acyclic(&vec![vec![1, 2], vec![2], vec![]]));
    assert!(!sprite_references_acyclic(&vec![vec![1], vec![0]]));
    assert!(!sprite_references_acyclic(&vec![vec![0]]));
    assert!(!sprite_references_acyclic(&vec![vec![], vec![2], vec![3], vec![1]]));
    assert!(sprite_references_acyclic(&vec![vec![1, 1, 1], vec![]]));
}

fn frame(appends: Vec<AppendRef>, changes_valid: bool) -> FrameRefs {
    FrameRefs { appends, changes_valid }
}

fn sprite_ref(index: u32, resource: u32) -> AppendRef {
    AppendRef { index, sprite: true, resource }
}

fn image_ref(index: u32, resource: u32) -> AppendRef {
    AppendRef { index, sprite: false, resource }
}

#[test]
fn edits_are_checked_canvas_frames_then_cycles() {
    let ok = vec![vec![frame(vec![image_ref(0, 0)], true)], vec![frame(vec![sprite_ref(1, 0)], true)]];
    assert_eq!(validate_edit(30, true, &ok, &None, 1), Ok(()));
    assert_eq!(validate_edit(0, true, &ok, &None, 1), Err(EditError::CanvasOutOfRange));
    assert_eq!(validate_edit(256, true, &ok, &None, 1), Err(EditError::CanvasOutOfRange));
    assert_eq!(validate_edit(30, false, &ok, &None, 1), Err(EditError::CanvasOutOfRange));
    assert_eq!(
        validate_edit(30, true, &ok, &None, 0),
        Err(EditError::MissingResource { index: 0 })
    );
    let bad_change = vec![vec![frame(vec![], false)]];
    assert_eq!(validate_edit(30, true, &bad_change, &None, 0), Err(EditError::InvalidChange));
    let main = Some(vec![frame(vec![sprite_ref(7, 5)], true)]);
    assert_eq!(
        validate_edit(30, true, &ok, &main, 1),
        Err(EditError::MissingResource { index: 7 })
    );
    let cycle = vec![vec![frame(vec![sprite_ref(1, 1)], true)], vec![frame(vec![sprite_ref(2, 0)], true)]];
    assert_eq!(validate_edit(30, true, &cycle, &None, 0), Err(EditError::SpriteCycle));
}

#[test]
fn edit_error_messages() {
    assert_eq!(
        EditError::MissingResource { index: 12 }.message(),
        "Instance #12 references a missing resource"
    );
    assert_eq!(EditError::SpriteCycle.message(), "Sprite references cannot form a cycle");
}

#[test]
fn undo_and_redo_restore_states() {
    let mut h: EditHistory<u32> = EditHistory::new();
    assert_eq!(h.undo(5), Err(5));
    h.commit(1);
    h.commit(2);
    assert_eq!(h.undo(3), Ok(2));
    assert_eq!(h.redo(2), Ok(3));
    assert_eq!(h.undo_len(), 2);
    assert_eq!(h.redo_len(), 0);
    assert_eq!(h.undo(3), Ok(2));
    h.commit(9);
    assert_eq!(h.redo_len(), 0);
}

#[test]
fn history_keeps_the_newest_hundred_states() {
    let mut h: EditHistory<u32> = EditHistory::new();
    for i in 0..150 {
        h.commit(i);
    }
    assert_eq!(h.undo_len(), 100);
    let mut last = 1000;
    let mut seen = Vec::new();
    while let Ok(previous) = h.undo(last) {
        seen.push(previous);
        last = previous;
    }
    assert_eq!(seen.first(), Some(&149));
    assert_eq!(seen.last(), Some(&50));
}

#[test]
fn gestures_commit_once() {
    let mut h: EditHistory<u32> = EditHistory::new();
    h.gesture_step(1);
    h.gesture_step(2);
    assert!(h.has_pending());
    h.finish_gesture(true);
    assert!(!h.has_pending());
    assert_eq!(h.undo(7), Ok(1));
    h.gesture_step(4);
    h.finish_gesture(false);
    assert_eq!(h.undo_len(), 0);
}

#[test]
fn default_visibility_hides_listed_layers() {
    let mut filter = vec![false; 5];
    apply_default_sprite_visibility(&mut filter, &vec![1, 9], &vec![3]);
    assert_eq!(filter, vec![true, false, true, false, true]);
}

#[test]
fn tab_bookkeeping_after_edits() {
    assert_eq!(initial_sprite(true), SpriteKey::Main);
    assert_eq!(initial_sprite(false), SpriteKey::Sprite(0));
    assert_eq!(initial_frames(10, true), (FrameRange { begin: 0, end: 9 }, 9));
    assert_eq!(initial_frames(0, false), (FrameRange { begin: 0, end: 0 }, 0));
    assert_eq!(initial_speed(true, Some(12), 30), 12);
    assert_eq!(initial_speed(true, None, 30), 30);
    assert_eq!(initial_speed(false, Some(12), 30), 30);
    assert_eq!(settle_sprite(SpriteKey::Main, false, 3), SpriteKey::Sprite(0));
    assert_eq!(settle_sprite(SpriteKey::Sprite(5), true, 3), SpriteKey::Main);
    assert_eq!(settle_sprite(SpriteKey::Sprite(5), false, 3), SpriteKey::Sprite(2));
    assert_eq!(
        clamp_frames(8, FrameRange { begin: 6, end: 9 }, 4),
        (3, FrameRange { begin: 3, end: 3 })
    );
    assert_eq!(settle_selected_image(Some(4), 2), Some(0));
    assert_eq!(settle_selected_image(None, 0), None);
    assert_eq!(display_name("a/b\\c.pam"), "c.pam");
}

#[test]
fn sprite_removal_reindexes_references() {
    let mut appends = vec![sprite_ref(0, 0), sprite_ref(1, 1), image_ref(2, 1), sprite_ref(3, 2)];
    remove_sprite_references(&mut appends, 1);
    assert_eq!(appends, vec![sprite_ref(0, 0), image_ref(2, 1), sprite_ref(3, 1)]);
    assert_eq!(sprite_after_removal(2, 0), SpriteKey::Main);
    assert_eq!(sprite_after_removal(2, 2), SpriteKey::Sprite(1));
    assert_eq!(new_sprite_name(6, 3).as_deref(), Some("sprite_3"));
    assert_eq!(new_sprite_name(3, 3), None);
    assert_eq!(clamp_version(9), 6);
    assert_eq!(migration_plan(6, 6), None);
    let (v, plan) = migration_plan(1, 6).unwrap();
    assert_eq!(v, 6);
    assert!(plan.names_and_sizes && plan.work_areas && !plan.main_sprite && !plan.rotation_transforms);
}

#[test]
fn edits_are_kept_refused_or_recorded() {
    let mut history: EditHistory<u32> = EditHistory::new();
    let mut revision: u64 = 7;
    assert_eq!(apply_edit_step(&mut history, &mut revision, 1, false, Ok(()), true, false), EditOutcome::Unchanged);
    assert_eq!(
        apply_edit_step(&mut history, &mut revision, 1, true, Err(EditError::SpriteCycle), true, false),
        EditOutcome::Rejected(EditError::SpriteCycle)
    );
    assert_eq!(apply_edit_step(&mut history, &mut revision, 1, true, Ok(()), false, false), EditOutcome::Unencodable);
    assert_eq!(revision, 7);
    assert_eq!(history.undo_len(), 0);
    assert_eq!(apply_edit_step(&mut history, &mut revision, 1, true, Ok(()), true, false), EditOutcome::Applied);
    assert_eq!(revision, 8);
    assert_eq!(history.undo_len(), 1);
    assert_eq!(apply_edit_step(&mut history, &mut revision, 2, true, Ok(()), true, true), EditOutcome::Applied);
    assert_eq!(apply_edit_step(&mut history, &mut revision, 3, true, Ok(()), true, true), EditOutcome::Applied);
    assert!(history.has_pending());
    history.finish_gesture(true);
    assert_eq!(history.undo_len(), 2);
    let mut last: u64 = u64::MAX;
    apply_edit_step(&mut history, &mut last, 4, true, Ok(()), true, false);
    assert_eq!(last, 1);
}

#[test]
fn added_frames_follow_the_current_frame_and_extend_the_work_area() {
    let mut frames = vec!['a', 'b', 'c'];
    let mut area = Some((0, 3));
    insert_frame(&mut frames, &mut area, 0, 'x');
    assert_eq!(frames, vec!['a', 'x', 'b', 'c']);
    assert_eq!(area, Some((0, 4)));
    insert_frame(&mut frames, &mut area, 99, 'y');
    assert_eq!(frames, vec!['a', 'x', 'b', 'c', 'y']);
    assert_eq!(area, Some((0, 5)));
    let mut empty: Vec<char> = Vec::new();
    let mut none = None;
    insert_frame(&mut empty, &mut none, 5, 'z');
    assert_eq!(empty, vec!['z']);
    assert_eq!(none, None);
    assert_eq!(new_frame_source(true, 1, 3), Some(1));
    assert_eq!(new_frame_source(true, 3, 3), None);
    assert_eq!(new_frame_source(false, 1, 3), None);
}

#[test]
fn a_sprite_keeps_its_last_frame() {
    let mut frames = vec![1, 2, 3];
    let mut area = Some((2, 3));
    assert!(delete_frame(&mut frames, &mut area, 1));
    assert_eq!(frames, vec![1, 3]);
    assert_eq!(area, Some((1, 2)));
    assert!(!delete_frame(&mut frames, &mut area, 2));
    assert!(delete_frame(&mut frames, &mut area, 0));
    assert!(!delete_frame(&mut frames, &mut area, 0));
    assert_eq!(frames, vec![3]);
    assert_eq!(area, Some((0, 1)));
}

#[test]
fn deleting_a_sprite_repoints_every_reference() {
    let mut sprites = vec![
        vec![vec![sprite_ref(1, 2)]],
        vec![vec![image_ref(2, 0)]],
        vec![vec![sprite_ref(3, 1), sprite_ref(4, 0)], vec![]],
    ];
    let mut main = Some(vec![vec![sprite_ref(5, 1), sprite_ref(6, 2), image_ref(7, 1)]]);
    assert_eq!(delete_sprite(&mut sprites, &mut main, 1), Some(SpriteKey::Sprite(1)));
    assert_eq!(sprites, vec![vec![vec![sprite_ref(1, 1)]], vec![vec![sprite_ref(4, 0)], vec![]]]);
    assert_eq!(main, Some(vec![vec![sprite_ref(6, 1), image_ref(7, 1)]]));
    assert_eq!(delete_sprite(&mut sprites, &mut main, 5), None);
    assert_eq!(delete_sprite(&mut sprites, &mut main, 1), Some(SpriteKey::Sprite(0)));
    assert_eq!(delete_sprite(&mut sprites, &mut main, 0), Some(SpriteKey::Main));
    assert!(sprites.is_empty());
}

#[test]
fn a_keyframe_is_found_or_added_once() {
    let mut layers = vec![7, 3, 7];
    assert_eq!(instance_keyframe(&mut layers, 7), 2);
    assert_eq!(instance_keyframe(&mut layers, 9), 3);
    assert_eq!(instance_keyframe(&mut layers, 9), 3);
    assert_eq!(layers, vec![7, 3, 7, 9]);
}

#[test]
fn hold_frame_edit_creates_one_keyframe_with_inherited_transform() {
    let mut change_layers: Vec<u32> = Vec::new();
    assert_eq!(instance_keyframe(&mut change_layers, 7), 0);
    assert_eq!(instance_keyframe(&mut change_layers, 7), 0);
    assert_eq!(change_layers.len(), 1);
    assert_eq!(change_layers, vec![7]);
}

#[test]
fn updating_an_existing_keyframe_preserves_crop_and_sprite_frame() {
    let mut change_layers: Vec<u32> = vec![7];
    assert_eq!(instance_keyframe(&mut change_layers, 7), 0);
    assert_eq!(change_layers, vec![7]);
}
