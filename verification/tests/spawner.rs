use piano_flow::notes::ActiveNotes;
use piano_flow::spawner::{last_matching_index, plan_frame};

#[test]
fn a_frame_sorts_notes_into_pressed_held_and_released() {
    let mut active = ActiveNotes { active_notes: vec![60, 62, 64] };
    let plan = plan_frame(&mut active, vec![64, 65, 60, 67]);
    assert_eq!(plan.pressed, vec![65, 67]);
    assert_eq!(plan.held, vec![60, 64]);
    assert_eq!(plan.released, vec![62]);
    assert_eq!(active.active_notes, vec![64, 65, 60, 67]);
}

#[test]
fn a_first_frame_presses_every_note() {
    let mut active = ActiveNotes::new();
    let plan = plan_frame(&mut active, vec![60, 60]);
    assert_eq!(plan.pressed, vec![60, 60]);
    assert!(plan.held.is_empty());
    assert!(plan.released.is_empty());
}

#[test]
fn an_empty_frame_releases_every_note() {
    let mut active = ActiveNotes { active_notes: vec![1, 2] };
    let plan = plan_frame(&mut active, vec![]);
    assert!(plan.pressed.is_empty());
    assert!(plan.held.is_empty());
    assert_eq!(plan.released, vec![1, 2]);
    assert!(active.active_notes.is_empty());
}

#[test]
fn the_last_drawn_note_grows() {
    assert_eq!(last_matching_index(&vec![60, 61, 60, 62], 60), 2);
    assert_eq!(last_matching_index(&vec![60, 61, 60, 62], 62), 3);
}

#[test]
fn without_a_drawn_note_the_first_grows() {
    assert_eq!(last_matching_index(&vec![60, 61], 70), 0);
    assert_eq!(last_matching_index(&vec![], 70), 0);
}
