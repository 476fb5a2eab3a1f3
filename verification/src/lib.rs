//! Verified core of a MIDI piano visualiser: the set of held notes, the text
//! file that carries it from the MIDI thread to the renderer, the keyboard
//! layout, the per-frame note plan, the key animation, and the settings file.

use vstd::prelude::*;

pub mod config;
pub mod decimal;
pub mod keyboard;
pub mod midi_flow;
pub mod notes;
pub mod placement;
pub mod spawner;
pub mod text;
pub mod ui_config;

pub use keyboard::{animate_key, keyboard_keys, KeyNote, KeyboardElement, KeyboardNoteMeshes};
pub use midi_flow::{MidiAction, MidiFlow};
pub use notes::{board_line, format_notes, handle_note, parse_notes, ActiveNotes};
pub use placement::{count_whites, note_placement, NotePlacemnt};
pub use spawner::{plan_frame, NoteEdge};

verus! {

} // verus!
