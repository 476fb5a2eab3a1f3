//! The decisions of the settings window: which colours follow which when
//! synced, where a save goes, and how much keyboard to draw.

use vstd::prelude::*;

use crate::placement::{count_whites, whites_between, NotePlacemnt};

verus! {

/// The colours picked in the settings window, as RGBA bytes.
#[derive(Clone, Copy, Debug)]
pub struct PickedColors {
    pub white_top: [u8; 4],
    pub white_bottom: [u8; 4],
    pub black_top: [u8; 4],
    pub black_bottom: [u8; 4],
    pub keyboard_white: [u8; 4],
    pub keyboard_white_active: [u8; 4],
    pub keyboard_black: [u8; 4],
    pub keyboard_black_active: [u8; 4],
    pub keyboard_felt: [u8; 4],
    pub background: [u8; 4],
    pub keyboard_filler: [u8; 4],
}

/// Applies the sync switches: synced white notes are one solid colour (the
/// bottom takes the top's), likewise black notes, and a synced active black
/// key takes the active white key's colour. Every other colour stays.
pub fn sync_colors(
    colors: &mut PickedColors,
    sync_white_notes: bool,
    sync_black_notes: bool,
    sync_keyboard_active_color: bool,
)
    ensures
        final(colors).white_bottom == if sync_white_notes {
            old(colors).white_top
        } else {
            old(colors).white_bottom
        },
        final(colors).black_bottom == if sync_black_notes {
            old(colors).black_top
        } else {
            old(colors).black_bottom
        },
        final(colors).keyboard_black_active == if sync_keyboard_active_color {
            old(colors).keyboard_white_active
        } else {
            old(colors).keyboard_black_active
        },
        final(colors).white_top == old(colors).white_top,
        final(colors).black_top == old(colors).black_top,
        final(colors).keyboard_white == old(colors).keyboard_white,
        final(colors).keyboard_white_active == old(colors).keyboard_white_active,
        final(colors).keyboard_black == old(colors).keyboard_black,
        final(colors).keyboard_felt == old(colors).keyboard_felt,
        final(colors).background == old(colors).background,
        final(colors).keyboard_filler == old(colors).keyboard_filler,
{
    if sync_white_notes {
        colors.white_bottom = colors.white_top;
    }
    if sync_black_notes {
        colors.black_bottom = colors.black_top;
    }
    if sync_keyboard_active_color {
        colors.keyboard_black_active = colors.keyboard_white_active;
    }
}

/// Where a save named `name` is written.
pub open spec fn save_path(name: Seq<char>) -> Seq<char> {
    "./saves/"@ + name + ".sav"@
}

/// The file a save named `name` goes to; none for an empty name.
pub fn save_file_path(name: &str) -> (path: Option<String>)
    ensures
        name@.len() == 0 ==> path is None,
        name@.len() > 0 ==> (path matches Some(p) && p@ == save_path(name@)),
{
    if name.unicode_len() == 0 {
        return None;
    }
    let mut path = String::from_str("./saves/");
    path.append(name);
    path.append(".sav");
    Some(path)
}

/// How much of the keyboard is drawn: how many white keys lie left of the
/// first drawn note (from note 21, the lowest piano key), and how many are
/// drawn.
#[derive(Clone, Copy, Debug)]
pub struct KeyboardSpan {
    pub offset: u32,
    pub whites_count: u32,
}

/// The span of the keyboard from `starting_note` to `ending_note`.
pub fn keyboard_span(notes_placement: &NotePlacemnt, starting_note: i8, ending_note: i8) -> (span: KeyboardSpan)
    requires
        ending_note < 127,
    ensures
        span.offset == whites_between(21, starting_note as int, notes_placement.blacks@),
        span.whites_count == whites_between(
            starting_note as int,
            ending_note + 1,
            notes_placement.blacks@,
        ),
{
    let offset = count_whites(21, starting_note, &notes_placement.blacks);
    let whites_count = count_whites(starting_note, ending_note + 1, &notes_placement.blacks);
    KeyboardSpan { offset, whites_count }
}

} // verus!
