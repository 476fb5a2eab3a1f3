//! The on-screen keyboard: which keys it draws, and how a key changes colour
//! when its note is pressed or released.

use vstd::prelude::*;

use crate::notes::{list_contains, ActiveNotes};
use crate::placement::{contains_note, NotePlacemnt};

verus! {

/// One key of the on-screen keyboard.
#[derive(Clone, Copy, Debug)]
pub struct KeyNote {
    pub active: bool,
    pub white: bool,
    pub id: u8,
}

/// Marks everything that belongs to the drawn keyboard.
#[derive(Clone, Copy, Debug)]
pub struct KeyboardElement {}

/// The mesh handle of each drawn key, with the key's note.
pub struct KeyboardNoteMeshes<H> {
    pub keyboard_handles: Vec<(i32, H)>,
}

impl<H> KeyboardNoteMeshes<H> {
    /// No key drawn yet.
    pub fn new() -> (r: KeyboardNoteMeshes<H>)
        ensures
            r.keyboard_handles@.len() == 0,
    {
        KeyboardNoteMeshes { keyboard_handles: Vec::new() }
    }
}

/// The keys drawn for the notes `start..=end`: each idle, white unless
/// `blacks` lists its note, with the note (as a `u8`) as its id.
pub open spec fn keyboard_layout(start: int, end: int, blacks: Seq<i8>) -> Seq<KeyNote> {
    Seq::new(
        if end >= start {
            (end - start + 1) as nat
        } else {
            0nat
        },
        |k: int| KeyNote { active: false, white: !blacks.contains((start + k) as i8), id: (start + k) as u8 },
    )
}

/// The keys to draw for the notes `starting_note..=ending_note`.
pub fn keyboard_keys(starting_note: i8, ending_note: i8, notes_placement: &NotePlacemnt) -> (keys: Vec<KeyNote>)
    ensures
        keys@ == keyboard_layout(starting_note as int, ending_note as int, notes_placement.blacks@),
        keys@.len() == if ending_note >= starting_note {
            ending_note - starting_note + 1
        } else {
            0
        },
        forall|k: int| 0 <= k < keys@.len() ==> keys@[k].id as i8 == starting_note + k,
        forall|k: int| 0 <= k < keys@.len() ==> keys@[k].white == !notes_placement.blacks@.contains(
            keys@[k].id as i8,
        ),
        forall|k: int| 0 <= k < keys@.len() ==> !keys@[k].active,
{
    let mut keys: Vec<KeyNote> = Vec::new();
    let mut i: i16 = starting_note as i16;
    while i <= ending_note as i16
        invariant
            starting_note <= i <= 128,
            i <= ending_note + 1 || ending_note < starting_note,
            ending_note < starting_note ==> i == starting_note,
            keys@.len() == i - starting_note,
            forall|k: int| 0 <= k < keys@.len() ==> #[trigger] keys@[k] == keyboard_layout(
                starting_note as int,
                ending_note as int,
                notes_placement.blacks@,
            )[k],
        decreases 128 - i,
    {
        let note = i as i8;
        let white = !contains_note(&notes_placement.blacks, note);
        keys.push(KeyNote { active: false, white, id: note as u8 });
        i = i + 1;
    }
    assert(keys@ =~= keyboard_layout(starting_note as int, ending_note as int, notes_placement.blacks@));
    proof {
        assert forall|k: int| 0 <= k < keys@.len() implies keys@[k].id as i8 == starting_note + k
            && keys@[k].white == !notes_placement.blacks@.contains(keys@[k].id as i8)
            && !keys@[k].active by {
            lemma_keyboard_layout(
                starting_note as int,
                ending_note as int,
                notes_placement.blacks@,
                k,
            );
        }
    }
    keys
}

/// The keyboard has one key per note from `start` to `end`, in order; each
/// key is idle and is white exactly when `blacks` does not list its note.
pub proof fn lemma_keyboard_layout(start: int, end: int, blacks: Seq<i8>, k: int)
    requires
        -128 <= start <= 127,
        -128 <= end <= 127,
        0 <= k < keyboard_layout(start, end, blacks).len(),
    ensures
        keyboard_layout(start, end, blacks).len() == if end >= start {
            end - start + 1
        } else {
            0
        },
        keyboard_layout(start, end, blacks)[k].id as i8 == start + k,
        keyboard_layout(start, end, blacks)[k].white == !blacks.contains(
            keyboard_layout(start, end, blacks)[k].id as i8,
        ),
        !keyboard_layout(start, end, blacks)[k].active,
{
    let x: int = start + k;
    assert(-128 <= x <= 127);
    let y: i8 = x as i8;
    assert(y as u8 as i8 == y) by (bit_vector);
    assert(x as u8 == y as u8);
}

/// The colour a key is repainted with.
#[derive(Clone, Copy, Debug, PartialEq, Eq, Structural)]
pub enum KeyColor {
    WhiteIdle,
    WhiteActive,
    BlackIdle,
    BlackActive,
}

/// A repaint of a key: the colour, and which entries of the mesh list get it.
pub struct KeyRepaint {
    pub color: KeyColor,
    pub handle_indices: Vec<usize>,
}

/// The colour of a black or white key that is held or idle.
pub open spec fn key_color(black: bool, held: bool) -> KeyColor {
    if black {
        if held {
            KeyColor::BlackActive
        } else {
            KeyColor::BlackIdle
        }
    } else {
        if held {
            KeyColor::WhiteActive
        } else {
            KeyColor::WhiteIdle
        }
    }
}

/// The positions in `notes` that hold `id`, in increasing order.
pub open spec fn matching_positions(notes: Seq<i32>, id: i32) -> Seq<usize>
    decreases notes.len(),
{
    if notes.len() == 0 {
        Seq::<usize>::empty()
    } else if notes.last() == id {
        matching_positions(notes.drop_last(), id).push((notes.len() - 1) as usize)
    } else {
        matching_positions(notes.drop_last(), id)
    }
}

/// The matching positions are exactly the positions of `notes` that hold
/// `id`, each once, in increasing order: every mesh of the key is
/// repainted, and no mesh of another key.
pub proof fn lemma_matching_positions(notes: Seq<i32>, id: i32)
    requires
        notes.len() <= usize::MAX,
    ensures
        forall|i: int| 0 <= i < matching_positions(notes, id).len() ==> (#[trigger] matching_positions(
            notes,
            id,
        )[i]) < notes.len() && notes[matching_positions(notes, id)[i] as int] == id,
        forall|j: int| 0 <= j < notes.len() && notes[j] == id ==> #[trigger] matching_positions(
            notes,
            id,
        ).contains(j as usize),
        forall|i: int, k: int| 0 <= i < k < matching_positions(notes, id).len() ==> #[trigger] matching_positions(
            notes,
            id,
        )[i] < #[trigger] matching_positions(notes, id)[k],
    decreases notes.len(),
{
    if notes.len() > 0 {
        let init = notes.drop_last();
        lemma_matching_positions(init, id);
        let m = matching_positions(init, id);
        let last = (notes.len() - 1) as usize;
        assert forall|i: int| 0 <= i < m.len() implies m[i] < init.len() && notes[m[i] as int] == id by {
            assert(init[m[i] as int] == notes[m[i] as int]);
        }
        if notes.last() == id {
            let r = m.push(last);
            assert forall|i: int, k: int| 0 <= i < k < r.len() implies #[trigger] r[i] < #[trigger] r[k] by {
                if k == m.len() {
                    assert(m[i] < init.len());
                }
            }
        }
        assert forall|j: int| 0 <= j < notes.len() && notes[j] == id implies #[trigger] matching_positions(
            notes,
            id,
        ).contains(j as usize) by {
            if j < notes.len() - 1 {
                assert(init[j] == id);
                assert(m.contains(j as usize));
                let q = choose|q: int| 0 <= q < m.len() && m[q] == j as usize;
                if notes.last() == id {
                    assert(m.push(last)[q] == j as usize);
                }
            } else {
                assert(m.push(last)[m.len() as int] == last);
            }
        }
    }
}

/// The notes of a mesh list.
pub open spec fn handle_notes<H>(handles: Seq<(i32, H)>) -> Seq<i32> {
    handles.map_values(|p: (i32, H)| p.0)
}

/// The key after a frame: when it has a mesh and its held state differs
/// from whether its note is held, it follows the note.
pub open spec fn animated(key: KeyNote, held: bool, has_mesh: bool) -> KeyNote {
    if has_mesh && held != key.active {
        KeyNote { active: held, ..key }
    } else {
        key
    }
}

/// The colour the key is repainted with in that frame, if it is.
pub open spec fn repaint_color(key: KeyNote, held: bool, has_mesh: bool, black: bool) -> Option<KeyColor> {
    if has_mesh && held != key.active {
        Some(key_color(black, held))
    } else {
        None
    }
}

/// Follows one key through a frame: a key whose note was pressed turns
/// active, a key whose note was released turns idle, and every mesh of the
/// key gets the new colour. Nothing happens to a key without a mesh.
pub fn animate_key<H>(
    key_note: &mut KeyNote,
    active_notes: &ActiveNotes,
    keyboard_note_meshes: &KeyboardNoteMeshes<H>,
    notes_placement: &NotePlacemnt,
) -> (r: Option<KeyRepaint>)
    ensures
        ({
            let held = active_notes.active_notes@.contains(old(key_note).id as i32);
            let positions = matching_positions(
                handle_notes(keyboard_note_meshes.keyboard_handles@),
                old(key_note).id as i32,
            );
            let black = notes_placement.blacks@.contains(old(key_note).id as i8);
            &&& *final(key_note) == animated(*old(key_note), held, positions.len() > 0)
            &&& match r {
                Some(p) => repaint_color(*old(key_note), held, positions.len() > 0, black) == Some(
                    p.color,
                ) && p.handle_indices@ == positions,
                None => repaint_color(*old(key_note), held, positions.len() > 0, black) is None,
            }
        }),
{
    let id = key_note.id;
    let held = list_contains(&active_notes.active_notes, id as i32);
    let ghost hn = handle_notes(keyboard_note_meshes.keyboard_handles@);
    let mut indices: Vec<usize> = Vec::new();
    let mut i: usize = 0;
    let n = keyboard_note_meshes.keyboard_handles.len();
    while i < n
        invariant
            0 <= i <= n,
            n == keyboard_note_meshes.keyboard_handles@.len(),
            hn == handle_notes(keyboard_note_meshes.keyboard_handles@),
            indices@ == matching_positions(hn.take(i as int), id as i32),
        decreases n - i,
    {
        proof {
            assert(hn.take(i + 1).drop_last() =~= hn.take(i as int));
            assert(hn.take(i + 1).last() == hn[i as int]);
        }
        if keyboard_note_meshes.keyboard_handles[i].0 == id as i32 {
            indices.push(i);
        }
        i = i + 1;
    }
    proof {
        assert(hn.take(n as int) =~= hn);
    }
    if indices.len() == 0 || held == key_note.active {
        return None;
    }
    let black = contains_note(&notes_placement.blacks, id as i8);
    let color = if black {
        if held {
            KeyColor::BlackActive
        } else {
            KeyColor::BlackIdle
        }
    } else {
        if held {
            KeyColor::WhiteActive
        } else {
            KeyColor::WhiteIdle
        }
    };
    key_note.active = held;
    Some(KeyRepaint { color, handle_indices: indices })
}

/// After a frame, a key with a mesh is active exactly when its note is held.
pub proof fn lemma_animated_follows_note(key: KeyNote, held: bool)
    ensures
        animated(key, held, true).active == held,
        animated(key, held, true).id == key.id,
        animated(key, held, true).white == key.white,
{
}

/// A second frame with the same held notes changes nothing and repaints
/// nothing.
pub proof fn lemma_animate_settles(key: KeyNote, held: bool, has_mesh: bool, black: bool)
    ensures
        animated(animated(key, held, has_mesh), held, has_mesh) == animated(key, held, has_mesh),
        repaint_color(animated(key, held, has_mesh), held, has_mesh, black) is None,
{
}

} // verus!
