use piano_flow::keyboard::{animate_key, keyboard_keys, KeyColor, KeyNote, KeyboardNoteMeshes};
use piano_flow::notes::ActiveNotes;
use piano_flow::placement::{note_placement, NotePlacemnt};

fn filled() -> NotePlacemnt {
    let mut p = NotePlacemnt::new();
    note_placement(&mut p);
    p
}

fn meshes() -> KeyboardNoteMeshes<&'static str> {
    KeyboardNoteMeshes { keyboard_handles: vec![(60, "a"), (61, "b"), (60, "c")] }
}

#[test]
fn keys_cover_the_range() {
    let p = filled();
    let keys = keyboard_keys(21, 24, &p);
    let shape: Vec<(u8, bool, bool)> = keys.iter().map(|k| (k.id, k.white, k.active)).collect();
    assert_eq!(shape, vec![(21, true, false), (22, false, false), (23, true, false), (24, true, false)]);
}

#[test]
fn an_empty_range_draws_no_key() {
    let p = filled();
    assert!(keyboard_keys(10, 5, &p).is_empty());
}

#[test]
fn keys_above_the_table_are_white() {
    let p = filled();
    let keys = keyboard_keys(120, 127, &p);
    assert_eq!(keys.len(), 8);
    assert!(keys.iter().all(|k| k.white));
    assert_eq!(keys[7].id, 127);
}

#[test]
fn a_full_piano_has_eighty_eight_keys() {
    let p = filled();
    let keys = keyboard_keys(21, 108, &p);
    assert_eq!(keys.len(), 88);
    assert_eq!(keys.iter().filter(|k| k.white).count(), 52);
}

#[test]
fn a_pressed_key_lights_up_once() {
    let p = filled();
    let m = meshes();
    let active = ActiveNotes { active_notes: vec![60] };
    let mut key = KeyNote { active: false, white: true, id: 60 };
    let r = animate_key(&mut key, &active, &m, &p).unwrap();
    assert_eq!(r.color, KeyColor::WhiteActive);
    assert_eq!(r.handle_indices, vec![0, 2]);
    assert!(key.active);
    assert!(animate_key(&mut key, &active, &m, &p).is_none());
    assert!(key.active);
}

#[test]
fn a_released_key_goes_idle() {
    let p = filled();
    let m = meshes();
    let active = ActiveNotes { active_notes: vec![] };
    let mut key = KeyNote { active: true, white: true, id: 60 };
    let r = animate_key(&mut key, &active, &m, &p).unwrap();
    assert_eq!(r.color, KeyColor::WhiteIdle);
    assert_eq!(r.handle_indices, vec![0, 2]);
    assert!(!key.active);
}

#[test]
fn black_keys_get_black_colours() {
    let p = filled();
    let m = meshes();
    let mut key = KeyNote { active: false, white: false, id: 61 };
    let r = animate_key(&mut key, &ActiveNotes { active_notes: vec![61] }, &m, &p).unwrap();
    assert_eq!(r.color, KeyColor::BlackActive);
    assert_eq!(r.handle_indices, vec![1]);
    let r = animate_key(&mut key, &ActiveNotes { active_notes: vec![] }, &m, &p).unwrap();
    assert_eq!(r.color, KeyColor::BlackIdle);
}

#[test]
fn a_key_without_mesh_is_left_alone() {
    let p = filled();
    let m = meshes();
    let mut key = KeyNote { active: false, white: true, id: 62 };
    assert!(animate_key(&mut key, &ActiveNotes { active_notes: vec![62] }, &m, &p).is_none());
    assert!(!key.active);
}

#[test]
fn a_new_mesh_list_is_empty() {
    let m: KeyboardNoteMeshes<u32> = KeyboardNoteMeshes::new();
    assert!(m.keyboard_handles.is_empty());
}
