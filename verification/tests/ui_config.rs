use piano_flow::placement::{note_placement, NotePlacemnt};
use piano_flow::ui_config::{keyboard_span, save_file_path, sync_colors, PickedColors};

fn colors() -> PickedColors {
    PickedColors {
        white_top: [1, 1, 1, 1],
        white_bottom: [2, 2, 2, 2],
        black_top: [3, 3, 3, 3],
        black_bottom: [4, 4, 4, 4],
        keyboard_white: [5, 5, 5, 5],
        keyboard_white_active: [6, 6, 6, 6],
        keyboard_black: [7, 7, 7, 7],
        keyboard_black_active: [8, 8, 8, 8],
        keyboard_felt: [9, 9, 9, 9],
        background: [10, 10, 10, 10],
        keyboard_filler: [11, 11, 11, 11],
    }
}

#[test]
fn synced_colours_follow_their_partner() {
    let mut c = colors();
    sync_colors(&mut c, true, true, true);
    assert_eq!(c.white_bottom, [1, 1, 1, 1]);
    assert_eq!(c.black_bottom, [3, 3, 3, 3]);
    assert_eq!(c.keyboard_black_active, [6, 6, 6, 6]);
    assert_eq!(c.keyboard_black, [7, 7, 7, 7]);
    assert_eq!(c.keyboard_filler, [11, 11, 11, 11]);
}

#[test]
fn unsynced_colours_stay() {
    let mut c = colors();
    sync_colors(&mut c, false, false, false);
    assert_eq!(c.white_bottom, [2, 2, 2, 2]);
    assert_eq!(c.black_bottom, [4, 4, 4, 4]);
    assert_eq!(c.keyboard_black_active, [8, 8, 8, 8]);
}

#[test]
fn saves_go_to_the_saves_folder() {
    assert_eq!(save_file_path("song"), Some("./saves/song.sav".to_string()));
    assert_eq!(save_file_path("é"), Some("./saves/é.sav".to_string()));
    assert_eq!(save_file_path(""), None);
}

#[test]
fn the_span_counts_white_keys() {
    let mut p = NotePlacemnt::new();
    note_placement(&mut p);
    let full = keyboard_span(&p, 21, 108);
    assert_eq!((full.offset, full.whites_count), (0, 52));
    let part = keyboard_span(&p, 60, 72);
    assert_eq!((part.offset, part.whites_count), (23, 8));
    let low = keyboard_span(&p, 10, 20);
    assert_eq!((low.offset, low.whites_count), (0, 6));
}
