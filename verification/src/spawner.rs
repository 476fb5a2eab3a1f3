//! What the note renderer does in one frame, given the notes held now and
//! the notes it saw held in the frame before.

use vstd::prelude::*;

use crate::notes::{list_contains, ActiveNotes};

verus! {

/// Marks the round cap drawn where a falling note starts or ends.
#[derive(Clone, Copy, Debug)]
pub struct NoteEdge {}

/// The notes of `s`, in order, whose presence in `other` is `inside`.
pub open spec fn select(s: Seq<i32>, other: Seq<i32>, inside: bool) -> Seq<i32>
    decreases s.len(),
{
    if s.len() == 0 {
        Seq::<i32>::empty()
    } else if other.contains(s.last()) == inside {
        select(s.drop_last(), other, inside).push(s.last())
    } else {
        select(s.drop_last(), other, inside)
    }
}

/// The work of one frame.
pub struct FramePlan {
    /// Notes held now that were not held before: each starts a new note.
    pub pressed: Vec<i32>,
    /// Notes held before and still held: each grows its note.
    pub held: Vec<i32>,
    /// Notes held before and no longer held: each gets an end cap.
    pub released: Vec<i32>,
}

/// The notes of `s` whose presence in `other` is `inside`.
fn select_notes(s: &Vec<i32>, other: &Vec<i32>, inside: bool) -> (r: Vec<i32>)
    ensures
        r@ == select(s@, other@, inside),
{
    let mut r: Vec<i32> = Vec::new();
    let mut i: usize = 0;
    while i < s.len()
        invariant
            0 <= i <= s.len(),
            r@ == select(s@.take(i as int), other@, inside),
        decreases s.len() - i,
    {
        proof {
            assert(s@.take(i + 1).drop_last() =~= s@.take(i as int));
            assert(s@.take(i + 1).last() == s@[i as int]);
        }
        if list_contains(other, s[i]) == inside {
            r.push(s[i]);
        }
        i = i + 1;
    }
    proof {
        assert(s@.take(s@.len() as int) =~= s@);
    }
    r
}

/// Plans a frame from the notes held now, and records them as the notes
/// seen held.
pub fn plan_frame(active_notes: &mut ActiveNotes, notes: Vec<i32>) -> (plan: FramePlan)
    ensures
        plan.pressed@ == select(notes@, old(active_notes).active_notes@, false),
        plan.held@ == select(old(active_notes).active_notes@, notes@, true),
        plan.released@ == select(old(active_notes).active_notes@, notes@, false),
        final(active_notes).active_notes@ == notes@,
        forall|x: i32| #[trigger] plan.pressed@.contains(x) <==> (notes@.contains(x) && !old(
            active_notes,
        ).active_notes@.contains(x)),
        forall|x: i32| #[trigger] plan.held@.contains(x) <==> (old(active_notes).active_notes@.contains(
            x,
        ) && notes@.contains(x)),
        forall|x: i32| #[trigger] plan.released@.contains(x) <==> (old(
            active_notes,
        ).active_notes@.contains(x) && !notes@.contains(x)),
{
    proof {
        lemma_select_members(notes@, old(active_notes).active_notes@, false);
        lemma_select_members(old(active_notes).active_notes@, notes@, true);
        lemma_select_members(old(active_notes).active_notes@, notes@, false);
    }
    let pressed = select_notes(&notes, &active_notes.active_notes, false);
    let held = select_notes(&active_notes.active_notes, &notes, true);
    let released = select_notes(&active_notes.active_notes, &notes, false);
    active_notes.active_notes = notes;
    FramePlan { pressed, held, released }
}

/// The last position in `ids` that holds `note`, or 0 when none does.
pub open spec fn last_match(ids: Seq<i32>, note: i32) -> int
    decreases ids.len(),
{
    if ids.len() == 0 {
        0
    } else if ids.last() == note {
        ids.len() - 1
    } else {
        last_match(ids.drop_last(), note)
    }
}

/// The position, among the drawn notes, of the note that grows while `note`
/// stays held: the last one drawn for `note`, or the first one when there is
/// none.
pub fn last_matching_index(ids: &Vec<i32>, note: i32) -> (n: usize)
    ensures
        n == last_match(ids@, note),
        ids@.contains(note) ==> n < ids@.len() && ids@[n as int] == note,
        ids@.contains(note) ==> forall|j: int| n < j < ids@.len() ==> ids@[j] != note,
        !ids@.contains(note) ==> n == 0,
{
    let mut n: usize = 0;
    let mut i: usize = 0;
    while i < ids.len()
        invariant
            0 <= i <= ids.len(),
            n == last_match(ids@.take(i as int), note),
        decreases ids.len() - i,
    {
        proof {
            assert(ids@.take(i + 1).drop_last() =~= ids@.take(i as int));
        }
        if ids[i] == note {
            n = i;
        }
        i = i + 1;
    }
    proof {
        assert(ids@.take(ids@.len() as int) =~= ids@);
        lemma_last_match(ids@, note);
    }
    n
}

/// The grown note is the last one drawn for `note`: when `note` occurs in
/// `ids`, `last_match` is a position that holds it and no later position
/// does; when it does not occur, it is 0.
pub proof fn lemma_last_match(ids: Seq<i32>, note: i32)
    ensures
        ids.contains(note) ==> 0 <= last_match(ids, note) < ids.len() && ids[last_match(
            ids,
            note,
        )] == note,
        ids.contains(note) ==> forall|j: int| last_match(ids, note) < j < ids.len() ==> ids[j] != note,
        !ids.contains(note) ==> last_match(ids, note) == 0,
    decreases ids.len(),
{
    if ids.len() > 0 {
        let init = ids.drop_last();
        lemma_last_match(init, note);
        if ids.last() == note {
            assert(ids.contains(note)) by {
                assert(ids[ids.len() - 1] == note);
            }
        } else {
            assert(ids.contains(note) == init.contains(note)) by {
                if ids.contains(note) {
                    let j = choose|j: int| 0 <= j < ids.len() && ids[j] == note;
                    assert(init[j] == note);
                }
                if init.contains(note) {
                    let j = choose|j: int| 0 <= j < init.len() && init[j] == note;
                    assert(ids[j] == note);
                }
            }
            assert forall|j: int| last_match(ids, note) < j < ids.len() implies ids[j] != note by {
                if j < ids.len() - 1 {
                    assert(ids[j] == init[j]);
                }
            }
        }
    }
}

/// Every note held in the frame before is either still held or released,
/// and not both.
pub proof fn lemma_held_or_released(before: Seq<i32>, now: Seq<i32>)
    ensures
        select(before, now, true).len() + select(before, now, false).len() == before.len(),
        forall|x: i32| #[trigger] select(before, now, true).contains(x) ==> now.contains(x),
        forall|x: i32| #[trigger] select(before, now, false).contains(x) ==> !now.contains(x),
    decreases before.len(),
{
    if before.len() > 0 {
        lemma_held_or_released(before.drop_last(), now);
        lemma_select_members(before, now, true);
        lemma_select_members(before, now, false);
    }
}

/// A selected note comes from `s` and has the asked presence in `other`;
/// every such note of `s` is selected.
pub proof fn lemma_select_members(s: Seq<i32>, other: Seq<i32>, inside: bool)
    ensures
        forall|x: i32| #[trigger] select(s, other, inside).contains(x) <==> (s.contains(x)
            && other.contains(x) == inside),
    decreases s.len(),
{
    if s.len() > 0 {
        let init = s.drop_last();
        lemma_select_members(init, other, inside);
        let r = select(init, other, inside);
        assert forall|x: i32| #[trigger] select(s, other, inside).contains(x) <==> (s.contains(x)
            && other.contains(x) == inside) by {
            if s.contains(x) && other.contains(x) == inside {
                let j = choose|j: int| 0 <= j < s.len() && s[j] == x;
                if j < s.len() - 1 {
                    assert(init[j] == x);
                    assert(init.contains(x));
                }
            }
            if select(s, other, inside).contains(x) {
                if other.contains(s.last()) == inside {
                    let q = r.push(s.last());
                    let j = choose|j: int| 0 <= j < q.len() && q[j] == x;
                    if j < r.len() {
                        assert(r[j] == x);
                        assert(r.contains(x));
                        let m = choose|m: int| 0 <= m < init.len() && init[m] == x;
                        assert(s[m] == x);
                    } else {
                        assert(s[s.len() - 1] == x);
                    }
                } else {
                    assert(r.contains(x));
                    let m = choose|m: int| 0 <= m < init.len() && init[m] == x;
                    assert(s[m] == x);
                }
            }
            if s.contains(x) && other.contains(x) == inside && other.contains(s.last()) == inside {
                let q = r.push(s.last());
                if x == s.last() {
                    assert(q[r.len() as int] == x);
                } else {
                    let j = choose|j: int| 0 <= j < s.len() && s[j] == x;
                    assert(init[j] == x);
                    assert(init.contains(x));
                    assert(r.contains(x));
                    let k = choose|k: int| 0 <= k < r.len() && r[k] == x;
                    assert(q[k] == x);
                }
            }
        }
    }
}

} // verus!
