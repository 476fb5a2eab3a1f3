//! Where each note's key stands on the keyboard, and which notes are black.
//!
//! Positions are counted in half key widths: the n-th white key from note 0
//! stands at `2 n`, a black key half a white key to the left of the next
//! white key, at `2 n - 1`.

use vstd::prelude::*;

use bevy_utils::HashMap;

verus! {

/// The pitch classes of the black keys (C# D# F# G# A#).
pub open spec fn is_black_pitch(pc: int) -> bool {
    pc == 1 || pc == 3 || pc == 6 || pc == 8 || pc == 10
}

/// Note `n` is played on a black key.
pub open spec fn is_black_note(n: int) -> bool {
    is_black_pitch(n % 12)
}

/// The number of white keys among notes `0..n`.
pub open spec fn whites_before(n: int) -> int
    decreases n,
{
    if n <= 0 {
        0
    } else {
        whites_before(n - 1) + if is_black_note(n - 1) {
            0int
        } else {
            1int
        }
    }
}

/// The position of note `n`'s key, in half key widths.
pub open spec fn key_position(n: int) -> int {
    if is_black_note(n) {
        2 * whites_before(n) - 1
    } else {
        2 * whites_before(n)
    }
}

/// The black notes among `0..n`, in increasing order.
pub open spec fn black_notes_before(n: int) -> Seq<i8>
    decreases n,
{
    if n <= 0 {
        Seq::<i8>::empty()
    } else if is_black_note(n - 1) {
        black_notes_before(n - 1).push((n - 1) as i8)
    } else {
        black_notes_before(n - 1)
    }
}

/// Each black note among `0..n`, raised by three, in increasing order.
pub open spec fn raised_blacks_before(n: int) -> Seq<i8>
    decreases n,
{
    if n <= 0 {
        Seq::<i8>::empty()
    } else if is_black_note(n - 1) {
        raised_blacks_before(n - 1).push((n + 2) as i8)
    } else {
        raised_blacks_before(n - 1)
    }
}

/// The number of notes the table covers: ten octaves, notes `0..120`.
pub open spec fn table_size() -> int {
    120
}

/// The positions of the notes `0..n`.
pub open spec fn table_up_to(n: int) -> Map<i8, i32> {
    Map::new(|k: i8| 0 <= k < n, |k: i8| key_position(k as int) as i32)
}

/// A table with no entry.
pub open spec fn empty_table() -> Map<i8, i32> {
    Map::empty()
}

/// The key positions, kept in a `bevy_utils::HashMap` from note to position.
/// Verus does not see into the map: `position_entries` names what it holds,
/// and the three methods below state what `new`, `insert` and `get` do to it.
#[verifier::external_body]
#[derive(Debug)]
pub struct NotePositions {
    map: HashMap<i8, i32>,
}

/// The note-to-position pairs that a `NotePositions` holds (the entries of
/// its hash map).
pub uninterp spec fn position_entries(positions: NotePositions) -> Map<i8, i32>;

impl NotePositions {
    /// Calls `HashMap::new`, which makes an empty map.
    #[verifier::external_body]
    pub(crate) fn new() -> (r: NotePositions)
        ensures
            position_entries(r) == empty_table(),
    {
        NotePositions { map: HashMap::new() }
    }

    /// Calls `HashMap::insert`: afterwards `note` maps to `half_steps` and
    /// every other entry is unchanged; the value `note` had before, if any,
    /// is returned.
    #[verifier::external_body]
    pub(crate) fn insert(&mut self, note: i8, half_steps: i32) -> (previous: Option<i32>)
        ensures
            position_entries(*final(self)) == position_entries(*old(self)).insert(note, half_steps),
            previous == (if position_entries(*old(self)).dom().contains(note) {
                Some(position_entries(*old(self))[note])
            } else {
                None
            }),
    {
        self.map.insert(note, half_steps)
    }

    /// Calls `HashMap::get`: the value `note` maps to, if any.
    #[verifier::external_body]
    pub(crate) fn get(&self, note: i8) -> (r: Option<i32>)
        ensures
            r == (if position_entries(*self).dom().contains(note) {
                Some(position_entries(*self)[note])
            } else {
                None
            }),
    {
        self.map.get(&note).copied()
    }
}

/// The keyboard layout: each note's key position, and the black notes.
#[derive(Debug)]
pub struct NotePlacemnt {
    pub notes_position: NotePositions,
    pub blacks: Vec<i8>,
    pub blacks2: Vec<i8>,
}

impl NotePlacemnt {
    /// An empty layout, before `note_placement` fills it.
    pub fn new() -> (r: NotePlacemnt)
        ensures
            position_entries(r.notes_position) == empty_table(),
            r.blacks@ == Seq::<i8>::empty(),
            r.blacks2@ == Seq::<i8>::empty(),
    {
        NotePlacemnt { notes_position: NotePositions::new(), blacks: Vec::new(), blacks2: Vec::new() }
    }

    /// The key position of `note` (taken as an `i8`), in half key widths,
    /// if the table has it.
    pub fn note_position(&self, note: i32) -> (r: Option<i32>)
        ensures
            r == (if position_entries(self.notes_position).dom().contains(note as i8) {
                Some(position_entries(self.notes_position)[note as i8])
            } else {
                None
            }),
    {
        self.notes_position.get(note as i8)
    }

    /// `note` (taken as an `i8`) is listed as black.
    pub fn is_black(&self, note: i32) -> (r: bool)
        ensures
            r == self.blacks@.contains(note as i8),
    {
        contains_note(&self.blacks, note as i8)
    }
}

/// `note` occurs in `notes`.
pub fn contains_note(notes: &Vec<i8>, note: i8) -> (r: bool)
    ensures
        r == notes@.contains(note),
{
    let mut i: usize = 0;
    while i < notes.len()
        invariant
            0 <= i <= notes.len(),
            forall|j: int| 0 <= j < i ==> notes@[j] != note,
        decreases notes.len() - i,
    {
        if notes[i] == note {
            assert(notes@[i as int] == note);
            return true;
        }
        i = i + 1;
    }
    false
}

/// Fills the layout: the positions of notes `0..120` (added to what the
/// table held), the black notes among them, and the black notes of
/// `0..=88` raised by three after a leading `1`.
pub fn note_placement(notes_placement: &mut NotePlacemnt)
    ensures
        position_entries(final(notes_placement).notes_position) == position_entries(
            old(notes_placement).notes_position,
        ).union_prefer_right(table_up_to(table_size())),
        final(notes_placement).blacks@ == black_notes_before(table_size()),
        final(notes_placement).blacks2@ == seq![1i8] + raised_blacks_before(89),
{
    let ghost start = position_entries(notes_placement.notes_position);
    let mut blacks: Vec<i8> = Vec::new();
    let mut n: i32 = 0;
    let mut k: i8 = 0;
    while k < 120
        invariant
            0 <= k <= 120,
            n == whites_before(k as int),
            0 <= n <= k,
            blacks@ == black_notes_before(k as int),
            position_entries(notes_placement.notes_position) == start.union_prefer_right(
                table_up_to(k as int),
            ),
        decreases 120 - k,
    {
        let j = k % 12;
        let ghost before = position_entries(notes_placement.notes_position);
        if j == 1 || j == 3 || j == 6 || j == 8 || j == 10 {
            blacks.push(k);
            notes_placement.notes_position.insert(k, 2 * n - 1);
        } else {
            notes_placement.notes_position.insert(k, 2 * n);
            n = n + 1;
        }
        proof {
            assert(position_entries(notes_placement.notes_position) =~= start.union_prefer_right(
                table_up_to(k + 1),
            ));
        }
        k = k + 1;
    }
    notes_placement.blacks = blacks;
    let mut blacks2: Vec<i8> = Vec::new();
    blacks2.push(1i8);
    let mut i: i8 = 0;
    while i <= 88
        invariant
            0 <= i <= 89,
            blacks2@ == seq![1i8] + raised_blacks_before(i as int),
        decreases 89 - i,
    {
        let x = i % 12;
        if x == 1 || x == 3 || x == 6 || x == 8 || x == 10 {
            blacks2.push(i + 3);
        }
        proof {
            assert(blacks2@ =~= seq![1i8] + raised_blacks_before(i + 1));
        }
        i = i + 1;
    }
    notes_placement.blacks2 = blacks2;
}

/// The number of white keys among `start..end`: the notes that `blacks`
/// does not list.
pub open spec fn whites_between(start: int, end: int, blacks: Seq<i8>) -> int
    decreases end - start,
{
    if end <= start {
        0
    } else {
        whites_between(start, end - 1, blacks) + if blacks.contains((end - 1) as i8) {
            0int
        } else {
            1int
        }
    }
}

/// Counts the white keys among the notes `start..end`.
pub fn count_whites(start: i8, end: i8, blacks: &Vec<i8>) -> (count: u32)
    ensures
        count == whites_between(start as int, end as int, blacks@),
{
    let mut count: u32 = 0;
    let mut i: i16 = start as i16;
    if end <= start {
        return 0;
    }
    while i < end as i16
        invariant
            start <= i <= end,
            count == whites_between(start as int, i as int, blacks@),
            0 <= count <= i - start,
        decreases end - i,
    {
        if !contains_note(blacks, i as i8) {
            count = count + 1;
        }
        i = i + 1;
    }
    count
}


/// Counting white keys over two adjacent ranges adds up to counting over
/// their union.
pub proof fn lemma_whites_between_split(a: int, b: int, c: int, blacks: Seq<i8>)
    requires
        a <= b <= c,
    ensures
        whites_between(a, b, blacks) + whites_between(b, c, blacks) == whites_between(a, c, blacks),
    decreases c - b,
{
    if b < c {
        lemma_whites_between_split(a, b, c - 1, blacks);
    }
}

/// Along the keyboard, each key stands strictly right of the one before.
pub proof fn lemma_key_positions_increase(n: int)
    requires
        0 <= n,
    ensures
        key_position(n) < key_position(n + 1),
{
    assert(whites_before(n + 1) == whites_before(n) + if is_black_note(n) {
        0int
    } else {
        1int
    });
    assert(n % 12 == 11 ==> (n + 1) % 12 == 0);
    assert(n % 12 != 11 ==> (n + 1) % 12 == n % 12 + 1);
}

/// The keyboard repeats every octave: twelve notes on from any note, the
/// key has the same colour; each octave holds seven white keys (so five
/// black ones); and no two neighbouring notes both lie on black keys.
pub proof fn lemma_octave_shape(n: int)
    requires
        0 <= n,
    ensures
        is_black_note(n + 12) == is_black_note(n),
        whites_before(n + 12) == whites_before(n) + 7,
        is_black_note(n) ==> !is_black_note(n + 1),
{
    let r = n % 12;
    assert((n + 12) % 12 == r);
    assert(forall|i: int| 0 <= i < 12 ==> #[trigger] ((n + i) % 12) == (if r + i < 12 {
        r + i
    } else {
        r + i - 12
    }));
    assert(whites_before(n + 1) == whites_before(n) + if is_black_note(n) { 0int } else { 1int });
    assert(whites_before(n + 2) == whites_before(n + 1) + if is_black_note(n + 1) { 0int } else { 1int });
    assert(whites_before(n + 3) == whites_before(n + 2) + if is_black_note(n + 2) { 0int } else { 1int });
    assert(whites_before(n + 4) == whites_before(n + 3) + if is_black_note(n + 3) { 0int } else { 1int });
    assert(whites_before(n + 5) == whites_before(n + 4) + if is_black_note(n + 4) { 0int } else { 1int });
    assert(whites_before(n + 6) == whites_before(n + 5) + if is_black_note(n + 5) { 0int } else { 1int });
    assert(whites_before(n + 7) == whites_before(n + 6) + if is_black_note(n + 6) { 0int } else { 1int });
    assert(whites_before(n + 8) == whites_before(n + 7) + if is_black_note(n + 7) { 0int } else { 1int });
    assert(whites_before(n + 9) == whites_before(n + 8) + if is_black_note(n + 8) { 0int } else { 1int });
    assert(whites_before(n + 10) == whites_before(n + 9) + if is_black_note(n + 9) { 0int } else { 1int });
    assert(whites_before(n + 11) == whites_before(n + 10) + if is_black_note(n + 10) { 0int } else { 1int });
    assert(whites_before(n + 12) == whites_before(n + 11) + if is_black_note(n + 11) { 0int } else { 1int });
}

/// A key stands at a half key width exactly when it is black.
pub proof fn lemma_black_iff_half_step(n: int)
    requires
        0 <= n,
    ensures
        (key_position(n) % 2 != 0) == is_black_note(n),
{
}

/// The black notes listed for `0..n` are exactly the black notes below `n`.
pub proof fn lemma_black_notes_listed(n: int, x: i8)
    requires
        0 <= n <= 128,
    ensures
        black_notes_before(n).contains(x) == (0 <= x < n && is_black_note(x as int)),
    decreases n,
{
    if n > 0 {
        lemma_black_notes_listed(n - 1, x);
        let prev = black_notes_before(n - 1);
        if is_black_note(n - 1) {
            let cur = prev.push((n - 1) as i8);
            assert(cur[prev.len() as int] == (n - 1) as i8);
            if prev.contains(x) {
                let j = choose|j: int| 0 <= j < prev.len() && prev[j] == x;
                assert(cur[j] == x);
            }
            if cur.contains(x) && x != (n - 1) as i8 {
                let j = choose|j: int| 0 <= j < cur.len() && cur[j] == x;
                assert(prev[j] == x);
            }
        }
    }
}

/// Counting the white keys of `a..b` with the filled layout's black list
/// gives the difference of their white-key ranks: the keys between two notes
/// take exactly the room that their positions leave.
pub proof fn lemma_whites_between_table(a: int, b: int)
    requires
        0 <= a <= b <= table_size(),
    ensures
        whites_between(a, b, black_notes_before(table_size())) == whites_before(b) - whites_before(a),
    decreases b - a,
{
    if a < b {
        lemma_whites_between_table(a, b - 1);
        lemma_black_notes_listed(table_size(), (b - 1) as i8);
    }
}

} // verus!
