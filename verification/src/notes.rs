//! The list of notes currently held down, and how a key press toggles it.

use vstd::prelude::*;

use crate::decimal::{
    int_text, is_digit, lemma_nat_digits, lemma_parse_int_text, nat_digits, parse_signed,
    parse_signed_bytes, push_int_text,
};
use crate::text::{
    free_of, lemma_split_append_free, lemma_split_append_sep, lemma_split_nonempty, split_bytes,
    split_on, views,
};

verus! {

/// The held notes after `note` was struck: a held note is released (its
/// first occurrence leaves the list), a free note is appended.
pub open spec fn toggled(held: Seq<i32>, note: i32) -> Seq<i32> {
    if held.contains(note) {
        held.remove_value(note)
    } else {
        held.push(note)
    }
}

/// Position of the first occurrence of `note` in `notes`, if any.
fn find_note(notes: &Vec<i32>, note: i32) -> (found: Option<usize>)
    ensures
        match found {
            Some(i) => notes@.index_of_first(note) == Some(i as int),
            None => !notes@.contains(note),
        },
{
    let mut i: usize = 0;
    while i < notes.len()
        invariant
            0 <= i <= notes.len(),
            forall|j: int| 0 <= j < i ==> notes@[j] != note,
        decreases notes.len() - i,
    {
        if notes[i] == note {
            proof {
                assert(notes@[i as int] == note);
                notes@.index_of_first_ensures(note);
                let k = notes@.index_of_first(note).unwrap();
                assert(k == i as int) by {
                    if k < i as int {
                    } else if k > i as int {
                    }
                }
            }
            return Some(i);
        }
        i = i + 1;
    }
    None
}

/// Toggles `note` in the list of held notes.
pub fn handle_note(note: i32, act_notes: &mut Vec<i32>)
    ensures
        final(act_notes)@ == toggled(old(act_notes)@, note),
{
    match find_note(act_notes, note) {
        Some(i) => {
            proof {
                old(act_notes)@.index_of_first_ensures(note);
            }
            act_notes.remove(i);
        },
        None => {
            act_notes.push(note);
        },
    }
}


/// The notes that the renderer last saw held.
pub struct ActiveNotes {
    pub active_notes: Vec<i32>,
}

impl ActiveNotes {
    /// No note is held.
    pub fn new() -> (r: ActiveNotes)
        ensures
            r.active_notes@ == Seq::<i32>::empty(),
    {
        ActiveNotes { active_notes: Vec::new() }
    }
}

/// The text that carries the held notes to the renderer: each note's
/// decimal text followed by a newline.
pub open spec fn notes_text(notes: Seq<i32>) -> Seq<u8>
    decreases notes.len(),
{
    if notes.len() == 0 {
        Seq::<u8>::empty()
    } else {
        notes_text(notes.drop_last()) + int_text(notes.last() as int) + seq![10u8]
    }
}

/// The lines of a notes text: its pieces between newlines, without the last
/// piece (the empty one after the final newline).
pub open spec fn note_lines(text: Seq<u8>) -> Seq<Seq<u8>> {
    split_on(text, 10u8).drop_last()
}

/// The value of one line of a notes text, if it is a decimal `i32`.
pub open spec fn note_value(line: Seq<u8>) -> Option<int> {
    parse_signed(line, i32::MIN as int, i32::MAX as int)
}

/// The notes that a notes text names, or `None` when a line is not a
/// decimal `i32`.
pub open spec fn parsed_notes(text: Seq<u8>) -> Option<Seq<i32>> {
    let lines = note_lines(text);
    if forall|i: int| 0 <= i < lines.len() ==> (#[trigger] note_value(lines[i])) is Some {
        Some(Seq::new(lines.len(), |i: int| note_value(lines[i])->0 as i32))
    } else {
        None
    }
}

/// The board shown on the console: one column per piano key from note 21
/// to note 108, `X` where the note is held and a blank elsewhere.
pub open spec fn board(notes: Seq<i32>) -> Seq<u8> {
    Seq::new(88, |k: int| if notes.contains((21 + k) as i32) { 88u8 } else { 32u8 })
}

/// The text written for the renderer: each held note on a line of its own.
pub fn format_notes(act_notes: &Vec<i32>) -> (out: Vec<u8>)
    ensures
        out@ == notes_text(act_notes@),
{
    let mut out: Vec<u8> = Vec::new();
    let mut i: usize = 0;
    while i < act_notes.len()
        invariant
            0 <= i <= act_notes.len(),
            out@ == notes_text(act_notes@.take(i as int)),
        decreases act_notes.len() - i,
    {
        let n = act_notes[i];
        push_int_text(&mut out, n as i64);
        out.push(10u8);
        proof {
            assert(act_notes@.take(i + 1).drop_last() =~= act_notes@.take(i as int));
            assert(act_notes@.take(i + 1).last() == n);
            assert(notes_text(act_notes@.take(i + 1)) =~= notes_text(act_notes@.take(i as int))
                + int_text(n as int) + seq![10u8]);
        }
        i = i + 1;
    }
    proof {
        assert(act_notes@.take(act_notes@.len() as int) =~= act_notes@);
    }
    out
}

/// Reads the notes back from the renderer's text; `None` when a line is not
/// a decimal `i32`.
pub fn parse_notes(contents: &[u8]) -> (r: Option<Vec<i32>>)
    ensures
        r matches Some(v) ==> parsed_notes(contents@) == Some(v@),
        r is None ==> parsed_notes(contents@) is None,
{
    let mut lines = split_bytes(contents, 10u8);
    proof {
        lemma_split_nonempty(contents@, 10u8);
    }
    let ghost all = views(lines@);
    lines.pop();
    let ghost ls = note_lines(contents@);
    assert(views(lines@) =~= ls);
    let mut notes: Vec<i32> = Vec::new();
    let mut i: usize = 0;
    while i < lines.len()
        invariant
            0 <= i <= lines.len(),
            views(lines@) == ls,
            ls == note_lines(contents@),
            notes@.len() == i,
            forall|j: int| 0 <= j < i ==> #[trigger] note_value(ls[j]) == Some(notes@[j] as int),
        decreases lines.len() - i,
    {
        let line = &lines[i];
        assert(line@ == ls[i as int]);
        match parse_signed_bytes(line.as_slice(), i32::MIN as i64, i32::MAX as i64) {
            Some(v) => {
                notes.push(v as i32);
            },
            None => {
                assert(note_value(ls[i as int]) is None);
                return None;
            },
        }
        i = i + 1;
    }
    assert(notes@ =~= Seq::new(ls.len(), |k: int| note_value(ls[k])->0 as i32));
    Some(notes)
}

/// `note` occurs in `notes`.
pub fn list_contains(notes: &Vec<i32>, note: i32) -> (r: bool)
    ensures
        r == notes@.contains(note),
{
    let mut i: usize = 0;
    while i < notes.len()
        invariant
            0 <= i <= notes.len(),
            forall|j: int| 0 <= j < i ==> notes@[j] != note,
        decreases notes.len() - i,
    {
        if notes[i] == note {
            assert(notes@[i as int] == note);
            return true;
        }
        i = i + 1;
    }
    false
}

/// The console board for the held notes.
pub fn board_line(act_notes: &Vec<i32>) -> (line: Vec<u8>)
    ensures
        line@ == board(act_notes@),
        line@.len() == 88,
        forall|k: int| 0 <= k < 88 ==> (line@[k] == 88u8) == act_notes@.contains((21 + k) as i32),
        forall|k: int| 0 <= k < 88 ==> (line@[k] == 32u8) == !act_notes@.contains((21 + k) as i32),
{
    let mut line: Vec<u8> = Vec::new();
    let mut note: i32 = 21;
    while note <= 108
        invariant
            21 <= note <= 109,
            line@.len() == note - 21,
            forall|k: int| 0 <= k < line@.len() ==> line@[k] == board(act_notes@)[k],
        decreases 109 - note,
    {
        if list_contains(act_notes, note) {
            line.push(88u8);
        } else {
            line.push(32u8);
        }
        note = note + 1;
    }
    assert(line@ =~= board(act_notes@));
    proof {
        assert forall|k: int| 0 <= k < 88 implies (line@[k] == 88u8) == act_notes@.contains((21 + k) as i32)
            && (line@[k] == 32u8) == !act_notes@.contains((21 + k) as i32) by {
            lemma_board_columns(act_notes@, k);
        }
    }
    line
}

/// The board has one column per key from note 21 to note 108, and column `k`
/// shows `X` exactly when note `21 + k` is held, and a blank exactly when it
/// is not, whatever the colour of that key.
pub proof fn lemma_board_columns(notes: Seq<i32>, k: int)
    requires
        0 <= k < 88,
    ensures
        board(notes).len() == 88,
        (board(notes)[k] == 88u8) == notes.contains((21 + k) as i32),
        (board(notes)[k] == 32u8) == !notes.contains((21 + k) as i32),
{
    assert(((21 + k) as i32) as int == 21 + k);
}


/// Striking a note flips whether that note is held and leaves every other
/// note held or free as it was, when no note is listed twice.
pub proof fn lemma_toggle_flips(held: Seq<i32>, note: i32, other: i32)
    requires
        held.no_duplicates(),
    ensures
        toggled(held, note).contains(note) == !held.contains(note),
        other != note ==> toggled(held, note).contains(other) == held.contains(other),
{
    if held.contains(note) {
        held.index_of_first_ensures(note);
        let k = held.index_of_first(note)->0;
        let r = held.remove(k);
        assert(toggled(held, note) == r);
        assert forall|i: int| 0 <= i < r.len() implies r[i] != note by {
            if i < k {
                assert(r[i] == held[i]);
            } else {
                assert(r[i] == held[i + 1]);
            }
        }
        if held.contains(other) && other != note {
            let j = choose|j: int| 0 <= j < held.len() && held[j] == other;
            if j < k {
                assert(r[j] == other);
            } else {
                assert(j != k);
                assert(r[j - 1] == other);
            }
        }
        if r.contains(other) {
            let j = choose|j: int| 0 <= j < r.len() && r[j] == other;
            if j < k {
                assert(held[j] == other);
            } else {
                assert(held[j + 1] == other);
            }
        }
    } else {
        let r = held.push(note);
        assert(r[held.len() as int] == note);
        if held.contains(other) {
            let j = choose|j: int| 0 <= j < held.len() && held[j] == other;
            assert(r[j] == other);
        }
        if r.contains(other) && other != note {
            let j = choose|j: int| 0 <= j < r.len() && r[j] == other;
            assert(held[j] == other);
        }
    }
}

/// Striking a note keeps a list without repeated notes free of repeats.
pub proof fn lemma_toggle_no_duplicates(held: Seq<i32>, note: i32)
    requires
        held.no_duplicates(),
    ensures
        toggled(held, note).no_duplicates(),
{
    if held.contains(note) {
        held.index_of_first_ensures(note);
        let k = held.index_of_first(note)->0;
        let r = held.remove(k);
        assert forall|a: int, b: int| 0 <= a < r.len() && 0 <= b < r.len() && a != b implies r[a]
            != r[b] by {
            let ia = if a < k { a } else { a + 1 };
            let ib = if b < k { b } else { b + 1 };
            assert(r[a] == held[ia]);
            assert(r[b] == held[ib]);
        }
    } else {
        let r = held.push(note);
        assert forall|a: int, b: int| 0 <= a < r.len() && 0 <= b < r.len() && a != b implies r[a]
            != r[b] by {
            if a < held.len() && b < held.len() {
            } else if a < held.len() {
                assert(r[a] == held[a]);
            } else if b < held.len() {
                assert(r[b] == held[b]);
            }
        }
    }
}

/// Striking a free note twice (pressed, then released) gives back exactly
/// the list of held notes.
pub proof fn lemma_toggle_twice(held: Seq<i32>, note: i32)
    requires
        !held.contains(note),
    ensures
        toggled(toggled(held, note), note) == held,
{
    let p = held.push(note);
    assert(p[held.len() as int] == note);
    assert(p.contains(note));
    p.index_of_first_ensures(note);
    let k = p.index_of_first(note)->0;
    assert(k == held.len()) by {
        if k < held.len() {
            assert(held[k] == note);
        }
    }
    assert(p.remove(k) =~= held);
}

/// Striking the same note twice gives back the same set of held notes,
/// when no note is listed twice.
pub proof fn lemma_toggle_twice_same_notes(held: Seq<i32>, note: i32)
    requires
        held.no_duplicates(),
    ensures
        toggled(toggled(held, note), note).to_set() == held.to_set(),
{
    lemma_toggle_no_duplicates(held, note);
    let once = toggled(held, note);
    let twice = toggled(once, note);
    assert forall|x: i32| twice.contains(x) == held.contains(x) by {
        lemma_toggle_flips(held, note, x);
        lemma_toggle_flips(once, note, x);
    }
    assert(twice.to_set() =~= held.to_set());
}

/// Decimal texts of integers hold no newline.
proof fn lemma_int_text_one_line(n: int)
    ensures
        free_of(int_text(n), 10u8),
        int_text(n).len() > 0,
{
    if n < 0 {
        lemma_nat_digits((-n) as nat);
        let d = nat_digits((-n) as nat);
        assert forall|i: int| 0 <= i < int_text(n).len() implies #[trigger] int_text(n)[i] != 10u8 by {
            if i > 0 {
                assert(int_text(n)[i] == d[i - 1]);
                assert(is_digit(d[i - 1]));
            }
        }
    } else {
        lemma_nat_digits(n as nat);
        let d = nat_digits(n as nat);
        assert forall|i: int| 0 <= i < int_text(n).len() implies #[trigger] int_text(n)[i] != 10u8 by {
            assert(is_digit(d[i]));
        }
    }
}

/// The pieces of a notes text: one per note, then the empty piece after
/// the final newline.
proof fn lemma_split_notes_text(notes: Seq<i32>)
    ensures
        split_on(notes_text(notes), 10u8) == Seq::new(
            notes.len() + 1,
            |i: int| if i < notes.len() { int_text(notes[i] as int) } else { Seq::<u8>::empty() },
        ),
    decreases notes.len(),
{
    if notes.len() == 0 {
        assert(split_on(notes_text(notes), 10u8) =~= Seq::new(
            notes.len() + 1,
            |i: int| if i < notes.len() { int_text(notes[i] as int) } else { Seq::<u8>::empty() },
        ));
    } else {
        let init = notes.drop_last();
        let n = notes.last();
        lemma_split_notes_text(init);
        let t = notes_text(init);
        let w = int_text(n as int);
        lemma_int_text_one_line(n as int);
        lemma_split_append_free(t, w, 10u8);
        lemma_split_append_sep(t + w, 10u8);
        assert(notes_text(notes) =~= (t + w).push(10u8));
        let p = split_on(t, 10u8);
        assert(p.last() =~= Seq::<u8>::empty());
        assert(p.last() + w =~= w);
        assert(split_on(notes_text(notes), 10u8) =~= Seq::new(
            notes.len() + 1,
            |i: int| if i < notes.len() { int_text(notes[i] as int) } else { Seq::<u8>::empty() },
        ));
    }
}

/// What the note stream writes, the renderer reads back unchanged.
pub proof fn lemma_notes_round_trip(notes: Seq<i32>)
    ensures
        parsed_notes(notes_text(notes)) == Some(notes),
{
    lemma_split_notes_text(notes);
    let lines = note_lines(notes_text(notes));
    assert(lines =~= Seq::new(notes.len(), |i: int| int_text(notes[i] as int)));
    assert forall|i: int| 0 <= i < lines.len() implies (#[trigger] note_value(lines[i])) == Some(
        notes[i] as int,
    ) by {
        lemma_parse_int_text(notes[i] as int, i32::MIN as int, i32::MAX as int);
    }
    assert(Seq::new(lines.len(), |i: int| note_value(lines[i])->0 as i32) =~= notes);
}

} // verus!
