//! The MIDI side: which messages toggle notes, when the board is shown,
//! debug mode, and the choice of input port.

use vstd::prelude::*;

use crate::decimal::{all_digits, digits_value, parse_unsigned_digits};
use crate::notes::{
    handle_note, lemma_notes_round_trip, lemma_toggle_no_duplicates, notes_text, parsed_notes,
    toggled,
};

verus! {

/// The command-line arguments turn on debug mode: one of them is `debug`
/// or `d`.
pub open spec fn debug_requested(args: Seq<String>) -> bool {
    exists|i: int| 0 <= i < args.len() && (args[i]@ == "debug"@ || args[i]@ == "d"@)
}

/// Whether the arguments ask for debug mode.
pub fn is_debug_mode(args: &Vec<String>) -> (r: bool)
    ensures
        r == debug_requested(args@),
{
    let debug = String::from_str("debug");
    let short = String::from_str("d");
    let mut i: usize = 0;
    while i < args.len()
        invariant
            0 <= i <= args.len(),
            debug@ == "debug"@,
            short@ == "d"@,
            forall|j: int| 0 <= j < i ==> !(args@[j]@ == "debug"@ || args@[j]@ == "d"@),
        decreases args.len() - i,
    {
        if args[i] == debug || args[i] == short {
            assert(args@[i as int]@ == "debug"@ || args@[i as int]@ == "d"@);
            return true;
        }
        i = i + 1;
    }
    false
}

/// What the MIDI handler does with one incoming message.
#[derive(Clone, Copy, Debug, PartialEq, Eq, Structural)]
pub enum MidiAction {
    /// Not a three-byte message: nothing.
    Skip,
    /// A channel message: echo it in debug mode, and when its status is
    /// whitelisted its note was toggled (the notes file is rewritten).
    Message { echo: bool, toggled: bool },
    /// A message whose second byte is 1: show the board and rewrite the
    /// notes file.
    Board,
}

/// The state that the MIDI input callback carries.
pub struct MidiFlow {
    pub is_debug: bool,
    pub whitelist: Vec<u8>,
    pub active_notes: Vec<i32>,
}

/// The statuses whose messages toggle a note: note off and note on on the
/// first channel.
pub open spec fn note_statuses() -> Seq<u8> {
    seq![128u8, 144u8]
}

impl MidiFlow {
    /// The handler's state at start: debug mode from the arguments, the two
    /// note statuses whitelisted, no note held.
    pub fn new(args: &Vec<String>) -> (r: MidiFlow)
        ensures
            r.is_debug == debug_requested(args@),
            r.whitelist@ == note_statuses(),
            r.active_notes@ == Seq::<i32>::empty(),
    {
        let is_debug = is_debug_mode(args);
        let mut whitelist: Vec<u8> = Vec::new();
        whitelist.push(128u8);
        whitelist.push(144u8);
        assert(whitelist@ =~= note_statuses());
        MidiFlow { is_debug, whitelist, active_notes: Vec::new() }
    }

    /// Handles one MIDI message.
    pub fn handle_message(&mut self, message: &[u8]) -> (action: MidiAction)
        ensures
            final(self).is_debug == old(self).is_debug,
            final(self).whitelist@ == old(self).whitelist@,
            final(self).active_notes@ == notes_after(
                old(self).active_notes@,
                old(self).whitelist@,
                message@,
            ),
            action == message_action(old(self).is_debug, old(self).whitelist@, message@),
            message@.len() != 3 ==> action == MidiAction::Skip,
            message@.len() == 3 && message@[1] == 1 ==> action == MidiAction::Board,
            message@.len() == 3 && message@[1] != 1 ==> action == (MidiAction::Message {
                echo: old(self).is_debug,
                toggled: old(self).whitelist@.contains(message@[0]),
            }),
            final(self).active_notes@ != old(self).active_notes@ ==> rewrites_file(action),
    {
        proof {
            lemma_note_change_rewrites_file(
                old(self).is_debug,
                old(self).active_notes@,
                old(self).whitelist@,
                message@,
            );
        }
        if message.len() != 3 {
            return MidiAction::Skip;
        }
        if message[1] == 1 {
            return MidiAction::Board;
        }
        let listed = status_listed(&self.whitelist, message[0]);
        if listed {
            handle_note(message[1] as i32, &mut self.active_notes);
        }
        MidiAction::Message { echo: self.is_debug, toggled: listed }
    }
}

/// What the handler does with `message`: nothing unless it has three bytes;
/// a second byte of 1 shows the board; otherwise the message is echoed in
/// debug mode and, when its status is whitelisted, its note is toggled.
pub open spec fn message_action(is_debug: bool, whitelist: Seq<u8>, message: Seq<u8>) -> MidiAction {
    if message.len() != 3 {
        MidiAction::Skip
    } else if message[1] == 1 {
        MidiAction::Board
    } else {
        MidiAction::Message { echo: is_debug, toggled: whitelist.contains(message[0]) }
    }
}

/// The held notes after `message`: the note of a three-byte message with a
/// whitelisted status and a second byte other than 1 is toggled.
pub open spec fn notes_after(active: Seq<i32>, whitelist: Seq<u8>, message: Seq<u8>) -> Seq<i32> {
    if message.len() == 3 && message[1] != 1 && whitelist.contains(message[0]) {
        toggled(active, message[1] as i32)
    } else {
        active
    }
}

/// A message that changes the held notes always makes the handler rewrite
/// the notes file: toggling a note never leaves the list as it was, and the
/// handler reports every toggle.
pub proof fn lemma_note_change_rewrites_file(
    is_debug: bool,
    active: Seq<i32>,
    whitelist: Seq<u8>,
    message: Seq<u8>,
)
    ensures
        notes_after(active, whitelist, message) != active ==> rewrites_file(
            message_action(is_debug, whitelist, message),
        ),
        message.len() == 3 && message[1] != 1 && whitelist.contains(message[0]) ==> notes_after(
            active,
            whitelist,
            message,
        ) != active,
{
    if message.len() == 3 && message[1] != 1 && whitelist.contains(message[0]) {
        let note = message[1] as i32;
        if active.contains(note) {
            active.index_of_first_ensures(note);
            assert(toggled(active, note).len() == active.len() - 1);
        } else {
            assert(toggled(active, note).len() == active.len() + 1);
        }
    }
}

/// The handler never lists a note twice: whatever messages arrive, a list
/// of held notes without repeats stays without repeats.
pub proof fn lemma_handler_keeps_notes_distinct(active: Seq<i32>, whitelist: Seq<u8>, message: Seq<u8>)
    requires
        active.no_duplicates(),
    ensures
        notes_after(active, whitelist, message).no_duplicates(),
{
    if message.len() == 3 && message[1] != 1 && whitelist.contains(message[0]) {
        lemma_toggle_no_duplicates(active, message[1] as i32);
    }
}

/// `status` occurs in `whitelist`.
fn status_listed(whitelist: &Vec<u8>, status: u8) -> (r: bool)
    ensures
        r == whitelist@.contains(status),
{
    let mut i: usize = 0;
    while i < whitelist.len()
        invariant
            0 <= i <= whitelist.len(),
            forall|j: int| 0 <= j < i ==> whitelist@[j] != status,
        decreases whitelist.len() - i,
    {
        if whitelist[i] == status {
            assert(whitelist@[i as int] == status);
            return true;
        }
        i = i + 1;
    }
    false
}

/// Why no input port could be chosen.
#[derive(Clone, Copy, Debug, PartialEq, Eq, Structural)]
pub enum PortError {
    /// There is no MIDI input port.
    NoPorts,
    /// The answer is not a number.
    NotANumber,
    /// The number names no port.
    NoSuchPort,
}

/// The port chosen without asking: an error when there is none, the only
/// one when there is one, and `None` (ask the user) when there are several.
pub fn port_without_prompt(port_count: usize) -> (r: Result<Option<usize>, PortError>)
    ensures
        port_count == 0 ==> r == Err::<Option<usize>, PortError>(PortError::NoPorts),
        port_count == 1 ==> r == Ok::<Option<usize>, PortError>(Some(0usize)),
        port_count > 1 ==> r == Ok::<Option<usize>, PortError>(None),
{
    if port_count == 0 {
        Err(PortError::NoPorts)
    } else if port_count == 1 {
        Ok(Some(0))
    } else {
        Ok(None)
    }
}

/// Unicode white space (the `White_Space` property), as `char::is_whitespace`
/// tests it.
pub open spec fn is_white_space(c: char) -> bool {
    let u = c as u32;
    (9 <= u <= 13) || u == 32 || u == 0x85 || u == 0xA0 || u == 0x1680 || (0x2000 <= u <= 0x200A)
        || u == 0x2028 || u == 0x2029 || u == 0x202F || u == 0x205F || u == 0x3000
}

/// The number of white-space characters at the start of `s`.
pub open spec fn leading_space(s: Seq<char>) -> int
    decreases s.len(),
{
    if s.len() > 0 && is_white_space(s[0]) {
        1 + leading_space(s.drop_first())
    } else {
        0
    }
}

/// The number of white-space characters at the end of `s`.
pub open spec fn trailing_space(s: Seq<char>) -> int
    decreases s.len(),
{
    if s.len() > 0 && is_white_space(s.last()) {
        1 + trailing_space(s.drop_last())
    } else {
        0
    }
}

/// `s` without white space at either end, as `str::trim` gives it.
pub open spec fn trimmed(s: Seq<char>) -> Seq<char> {
    if leading_space(s) >= s.len() {
        Seq::<char>::empty()
    } else {
        s.subrange(leading_space(s), s.len() - trailing_space(s))
    }
}

/// The ASCII bytes of the characters of `s`.
pub open spec fn char_bytes(s: Seq<char>) -> Seq<u8> {
    s.map_values(|c: char| c as u8)
}

/// `c` is one of the ASCII digits.
pub open spec fn is_digit_char(c: char) -> bool {
    '0' <= c <= '9'
}

/// Every character of `s` is an ASCII digit.
pub open spec fn all_digit_chars(s: Seq<char>) -> bool {
    forall|i: int| 0 <= i < s.len() ==> is_digit_char(#[trigger] s[i])
}

/// What `str::parse::<usize>` gives: an optional `+`, then one or more ASCII
/// digits, and a value that fits.
pub open spec fn parse_usize_text(t: Seq<char>) -> Option<int> {
    let body = if t.len() > 0 && t[0] == '+' {
        t.drop_first()
    } else {
        t
    };
    if body.len() > 0 && all_digit_chars(body) && digits_value(char_bytes(body)) <= usize::MAX {
        Some(digits_value(char_bytes(body)))
    } else {
        None
    }
}

/// The port that an answer names, among `port_count` ports.
pub open spec fn port_choice(port_count: int, answer: Seq<char>) -> Result<int, PortError> {
    match parse_usize_text(trimmed(answer)) {
        None => Err(PortError::NotANumber),
        Some(i) => if i < port_count {
            Ok(i)
        } else {
            Err(PortError::NoSuchPort)
        },
    }
}

/// A port choice with the index as an integer.
pub open spec fn port_result(r: Result<usize, PortError>) -> Result<int, PortError> {
    match r {
        Ok(i) => Ok(i as int),
        Err(e) => Err(e),
    }
}

/// If the first `lo` characters of `s` are white space and the next is not
/// (or there is none), `s` starts with `lo` white-space characters.
proof fn lemma_leading_space(s: Seq<char>, lo: int)
    requires
        0 <= lo <= s.len(),
        forall|j: int| 0 <= j < lo ==> is_white_space(#[trigger] s[j]),
        lo == s.len() || !is_white_space(s[lo]),
    ensures
        leading_space(s) == lo,
    decreases lo,
{
    if lo > 0 {
        let t = s.drop_first();
        assert forall|j: int| 0 <= j < lo - 1 implies is_white_space(#[trigger] t[j]) by {
            assert(t[j] == s[j + 1]);
        }
        if lo < s.len() {
            assert(t[lo - 1] == s[lo]);
        }
        lemma_leading_space(t, lo - 1);
        assert(is_white_space(s[0]));
    }
}

/// If the characters of `s` from `hi` on are white space and the one before
/// is not (or there is none), `s` ends with `s.len() - hi` white-space
/// characters.
proof fn lemma_trailing_space(s: Seq<char>, hi: int)
    requires
        0 <= hi <= s.len(),
        forall|j: int| hi <= j < s.len() ==> is_white_space(#[trigger] s[j]),
        hi == 0 || !is_white_space(s[hi - 1]),
    ensures
        trailing_space(s) == s.len() - hi,
    decreases s.len() - hi,
{
    if hi < s.len() {
        let t = s.drop_last();
        assert forall|j: int| hi <= j < t.len() implies is_white_space(#[trigger] t[j]) by {
            assert(t[j] == s[j]);
        }
        if hi > 0 {
            assert(t[hi - 1] == s[hi - 1]);
        }
        lemma_trailing_space(t, hi);
        assert(is_white_space(s[s.len() - 1]));
    }
}

/// Tests `c` for white space.
fn white_space(c: char) -> (r: bool)
    ensures
        r == is_white_space(c),
{
    let u = c as u32;
    (9 <= u && u <= 13) || u == 32 || u == 0x85 || u == 0xA0 || u == 0x1680 || (0x2000 <= u && u
        <= 0x200A) || u == 0x2028 || u == 0x2029 || u == 0x202F || u == 0x205F || u == 0x3000
}

/// Reads the user's answer to the port prompt: the trimmed answer must be
/// a number below `port_count`.
pub fn parse_port_choice(port_count: usize, answer: &str) -> (r: Result<usize, PortError>)
    ensures
        port_result(r) == port_choice(port_count as int, answer@),
{
    let ghost s = answer@;
    let len = answer.unicode_len();
    let mut lo: usize = 0;
    while lo < len && white_space(answer.get_char(lo))
        invariant
            0 <= lo <= len,
            len == s.len(),
            s == answer@,
            forall|j: int| 0 <= j < lo ==> is_white_space(#[trigger] s[j]),
        decreases len - lo,
    {
        lo = lo + 1;
    }
    proof {
        lemma_leading_space(s, lo as int);
    }
    let mut hi: usize = len;
    while hi > lo && white_space(answer.get_char(hi - 1))
        invariant
            lo <= hi <= len,
            len == s.len(),
            s == answer@,
            forall|j: int| hi <= j < len ==> is_white_space(#[trigger] s[j]),
        decreases hi,
    {
        hi = hi - 1;
    }
    let ghost t = trimmed(s);
    proof {
        if lo < len {
            assert(!is_white_space(s[lo as int]));
            assert(hi > lo) by {
                if hi == lo {
                    assert(is_white_space(s[lo as int]));
                }
            }
            lemma_trailing_space(s, hi as int);
            assert(t =~= s.subrange(lo as int, hi as int));
        } else {
            assert(t =~= s.subrange(lo as int, hi as int));
        }
    }
    let mut start: usize = lo;
    if start < hi && answer.get_char(start) == '+' {
        start = start + 1;
    }
    let ghost body = if t.len() > 0 && t[0] == '+' { t.drop_first() } else { t };
    assert(body =~= s.subrange(start as int, hi as int));
    if start >= hi {
        return Err(PortError::NotANumber);
    }
    let mut digits: Vec<u8> = Vec::new();
    let mut k: usize = start;
    while k < hi
        invariant
            start <= k <= hi <= len,
            len == s.len(),
            s == answer@,
            body == s.subrange(start as int, hi as int),
            t == trimmed(s),
            body == (if t.len() > 0 && t[0] == '+' {
                t.drop_first()
            } else {
                t
            }),
            digits@.len() == k - start,
            forall|j: int| 0 <= j < k - start ==> is_digit_char(#[trigger] body[j]),
            digits@ == char_bytes(body.take(k - start)),
            all_digits(digits@),
        decreases hi - k,
    {
        let c = answer.get_char(k);
        assert(c == body[k - start]);
        if !('0' <= c && c <= '9') {
            assert(!is_digit_char(body[k - start]));
            assert(0 <= k - start < body.len());
            assert(!all_digit_chars(body));
            assert(parse_usize_text(t) is None);
            return Err(PortError::NotANumber);
        }
        let b: u8 = (c as u32) as u8;
        digits.push(b);
        proof {
            assert(char_bytes(body.take(k + 1 - start)) =~= char_bytes(body.take(k - start)).push(b));
            assert forall|j: int| 0 <= j < digits@.len() implies crate::decimal::is_digit(#[trigger] digits@[j]) by {
                if j < digits@.len() - 1 {
                    assert(digits@[j] == char_bytes(body.take(k - start))[j]);
                }
            }
        }
        k = k + 1;
    }
    assert(body.take(hi - start) =~= body);
    match parse_unsigned_digits(digits.as_slice()) {
        None => Err(PortError::NotANumber),
        Some(i) => {
            if i < port_count {
                Ok(i)
            } else {
                Err(PortError::NoSuchPort)
            }
        },
    }
}

/// A message that toggles a note: three bytes, a second byte other than 1,
/// and a note-off or note-on status of the first channel.
pub open spec fn is_note_message(m: Seq<u8>) -> bool {
    m.len() == 3 && m[1] != 1 && (m[0] == 128u8 || m[0] == 144u8)
}

/// The held notes after `msgs`, from none: each note message toggles its
/// note in turn, and no other message changes the list.
pub open spec fn held_after(msgs: Seq<Seq<u8>>) -> Seq<i32>
    decreases msgs.len(),
{
    if msgs.len() == 0 {
        Seq::<i32>::empty()
    } else if is_note_message(msgs.last()) {
        toggled(held_after(msgs.drop_last()), msgs.last()[1] as i32)
    } else {
        held_after(msgs.drop_last())
    }
}

/// The message makes the handler rewrite the notes file: a toggled note,
/// or the board.
pub open spec fn rewrites_file(action: MidiAction) -> bool {
    action == MidiAction::Board || action matches MidiAction::Message { toggled: true, .. }
}

/// The notes a fresh handler (whitelist from `MidiFlow::new`) holds after
/// handling `msgs` one by one, and the text of the notes file then: empty at
/// the start, rewritten with the held notes after each message that rewrites
/// it.
pub open spec fn stream_state(is_debug: bool, msgs: Seq<Seq<u8>>) -> (Seq<i32>, Seq<u8>)
    decreases msgs.len(),
{
    if msgs.len() == 0 {
        (Seq::<i32>::empty(), Seq::<u8>::empty())
    } else {
        let prev = stream_state(is_debug, msgs.drop_last());
        let held = notes_after(prev.0, note_statuses(), msgs.last());
        if rewrites_file(message_action(is_debug, note_statuses(), msgs.last())) {
            (held, notes_text(held))
        } else {
            (held, prev.1)
        }
    }
}

/// The notes file always mirrors the held notes: after any sequence of
/// messages handed to a fresh handler, the file holds the text of exactly
/// the notes then held.
pub proof fn lemma_file_mirrors_held_notes(is_debug: bool, msgs: Seq<Seq<u8>>)
    ensures
        stream_state(is_debug, msgs).1 == notes_text(stream_state(is_debug, msgs).0),
    decreases msgs.len(),
{
    if msgs.len() > 0 {
        let prev = stream_state(is_debug, msgs.drop_last());
        lemma_file_mirrors_held_notes(is_debug, msgs.drop_last());
        lemma_note_change_rewrites_file(is_debug, prev.0, note_statuses(), msgs.last());
    }
}

/// Over any sequence of messages, the handler holds exactly the notes that
/// toggling each note message in turn gives, never lists a note twice, and
/// when the last message rewrote the notes file, the file holds the text of
/// those notes, which the renderer reads back unchanged.
pub proof fn lemma_stream_notes_file(is_debug: bool, msgs: Seq<Seq<u8>>)
    ensures
        stream_state(is_debug, msgs).0 == held_after(msgs),
        held_after(msgs).no_duplicates(),
        msgs.len() > 0 && rewrites_file(message_action(is_debug, note_statuses(), msgs.last()))
            ==> stream_state(is_debug, msgs).1 == notes_text(held_after(msgs)),
        msgs.len() > 0 && rewrites_file(message_action(is_debug, note_statuses(), msgs.last()))
            ==> parsed_notes(stream_state(is_debug, msgs).1) == Some(held_after(msgs)),
    decreases msgs.len(),
{
    if msgs.len() > 0 {
        let init = msgs.drop_last();
        let m = msgs.last();
        lemma_stream_notes_file(is_debug, init);
        assert(note_statuses().contains(m[0]) <==> (m[0] == 128u8 || m[0] == 144u8)) by {
            if m[0] == 128u8 {
                assert(note_statuses()[0] == 128u8);
            }
            if m[0] == 144u8 {
                assert(note_statuses()[1] == 144u8);
            }
        }
        if is_note_message(m) {
            lemma_toggle_no_duplicates(held_after(init), m[1] as i32);
        }
        lemma_notes_round_trip(held_after(msgs));
    }
}

} // verus!
