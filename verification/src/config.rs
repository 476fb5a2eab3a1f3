//! The settings file: one `key:value` line per setting.

use vstd::prelude::*;

use crate::decimal::{
    int_text, is_digit, lemma_nat_digits, lemma_parse_int_text, nat_digits, parse_signed,
    parse_signed_bytes, push_int_text,
};
use crate::text::{
    free_of, joined, lemma_split_append_free, lemma_split_append_sep, lemma_split_free,
    lemma_split_joined, lemma_split_terminated, split_bytes, split_on, strip_cr, terminated,
    text_lines, views,
};

verus! {

broadcast use vstd::string::group_string_axioms;

/// The bytes of an ASCII text.
pub open spec fn ascii(s: &str) -> Seq<u8> {
    s@.map_values(|c: char| c as u8)
}

/// The bytes of a literal ASCII text.
fn literal_bytes(s: &'static str) -> (b: &'static [u8])
    requires
        s.is_ascii(),
    ensures
        b@ == ascii(s),
{
    let b = s.as_bytes();
    assert(b@ =~= ascii(s));
    b
}

/// The settings that hold a colour.
#[derive(Clone, Copy, Debug, PartialEq, Eq, Structural)]
pub enum ColorSlot {
    WhiteTop,
    WhiteBottom,
    BlackTop,
    BlackBottom,
    KeyboardBlack,
    KeyboardBlackActive,
    KeyboardWhite,
    KeyboardWhiteActive,
    KeyboardFelt,
    KeyboardFiller,
    Background,
}

/// The settings that hold a decimal number with a fraction.
#[derive(Clone, Copy, Debug, PartialEq, Eq, Structural)]
pub enum NumberSlot {
    NoteSpeed,
    BloomIntensity,
    NoteWidth,
    KeyboardHeight,
}

/// The settings that hold a `true` or `false`.
#[derive(Clone, Copy, Debug, PartialEq, Eq, Structural)]
pub enum FlagSlot {
    EnableBloom,
    SyncWhiteNotes,
    SyncBlackNotes,
    SyncKeyboardActiveColor,
    ShowKeyboard,
}

/// The settings that hold a note number.
#[derive(Clone, Copy, Debug, PartialEq, Eq, Structural)]
pub enum NoteSlot {
    StartingNote,
    EndingNote,
}

/// How bloom is composited.
#[derive(Clone, Copy, Debug, PartialEq, Eq, Structural)]
pub enum BloomMode {
    Additive,
    EnergyConserving,
}

/// A key of the settings file.
#[derive(Clone, Copy, Debug, PartialEq, Eq, Structural)]
pub enum ConfigKey {
    Color(ColorSlot),
    Number(NumberSlot),
    Flag(FlagSlot),
    Note(NoteSlot),
    BloomCompositeMode,
}

/// The text of a key.
pub open spec fn key_text(key: ConfigKey) -> Seq<u8> {
    match key {
        ConfigKey::Color(ColorSlot::WhiteTop) => ascii("white_top"),
        ConfigKey::Color(ColorSlot::WhiteBottom) => ascii("white_bottom"),
        ConfigKey::Color(ColorSlot::BlackTop) => ascii("black_top"),
        ConfigKey::Color(ColorSlot::BlackBottom) => ascii("black_bottom"),
        ConfigKey::Color(ColorSlot::KeyboardBlack) => ascii("keyboard_black"),
        ConfigKey::Color(ColorSlot::KeyboardBlackActive) => ascii("keyboard_black_active"),
        ConfigKey::Color(ColorSlot::KeyboardWhite) => ascii("keyboard_white"),
        ConfigKey::Color(ColorSlot::KeyboardWhiteActive) => ascii("keyboard_white_active"),
        ConfigKey::Color(ColorSlot::KeyboardFelt) => ascii("keyboard_felt"),
        ConfigKey::Color(ColorSlot::KeyboardFiller) => ascii("keyboard_filler"),
        ConfigKey::Color(ColorSlot::Background) => ascii("background_color"),
        ConfigKey::Number(NumberSlot::NoteSpeed) => ascii("note_speed"),
        ConfigKey::Number(NumberSlot::BloomIntensity) => ascii("bloom_intensity"),
        ConfigKey::Number(NumberSlot::NoteWidth) => ascii("note_width"),
        ConfigKey::Number(NumberSlot::KeyboardHeight) => ascii("keyboard_height"),
        ConfigKey::Flag(FlagSlot::EnableBloom) => ascii("enable_bloom"),
        ConfigKey::Flag(FlagSlot::SyncWhiteNotes) => ascii("sync_white_notes"),
        ConfigKey::Flag(FlagSlot::SyncBlackNotes) => ascii("sync_black_notes"),
        ConfigKey::Flag(FlagSlot::SyncKeyboardActiveColor) => ascii("sync_keyboard_active_color"),
        ConfigKey::Flag(FlagSlot::ShowKeyboard) => ascii("show_keyboard"),
        ConfigKey::Note(NoteSlot::StartingNote) => ascii("starting_note"),
        ConfigKey::Note(NoteSlot::EndingNote) => ascii("ending_note"),
        ConfigKey::BloomCompositeMode => ascii("bloom_composite_mode"),
    }
}

/// The text that names a bloom mode in the file.
pub open spec fn bloom_mode_text(mode: BloomMode) -> Seq<u8> {
    match mode {
        BloomMode::Additive => ascii("additive"),
        BloomMode::EnergyConserving => ascii("efficent"),
    }
}

/// The text of a flag.
pub open spec fn flag_text(value: bool) -> Seq<u8> {
    if value {
        ascii("true")
    } else {
        ascii("false")
    }
}

/// The key whose text is `t`, if any, tried in the order the file
/// is read against.
pub open spec fn key_named(t: Seq<u8>) -> Option<ConfigKey> {
    if t == key_text(ConfigKey::Color(ColorSlot::WhiteTop)) {
        Some(ConfigKey::Color(ColorSlot::WhiteTop))
    } else if t == key_text(ConfigKey::Color(ColorSlot::WhiteBottom)) {
        Some(ConfigKey::Color(ColorSlot::WhiteBottom))
    } else if t == key_text(ConfigKey::Color(ColorSlot::BlackTop)) {
        Some(ConfigKey::Color(ColorSlot::BlackTop))
    } else if t == key_text(ConfigKey::Color(ColorSlot::BlackBottom)) {
        Some(ConfigKey::Color(ColorSlot::BlackBottom))
    } else if t == key_text(ConfigKey::Color(ColorSlot::KeyboardWhite)) {
        Some(ConfigKey::Color(ColorSlot::KeyboardWhite))
    } else if t == key_text(ConfigKey::Color(ColorSlot::KeyboardWhiteActive)) {
        Some(ConfigKey::Color(ColorSlot::KeyboardWhiteActive))
    } else if t == key_text(ConfigKey::Color(ColorSlot::KeyboardBlack)) {
        Some(ConfigKey::Color(ColorSlot::KeyboardBlack))
    } else if t == key_text(ConfigKey::Color(ColorSlot::KeyboardBlackActive)) {
        Some(ConfigKey::Color(ColorSlot::KeyboardBlackActive))
    } else if t == key_text(ConfigKey::Color(ColorSlot::KeyboardFelt)) {
        Some(ConfigKey::Color(ColorSlot::KeyboardFelt))
    } else if t == key_text(ConfigKey::Color(ColorSlot::KeyboardFiller)) {
        Some(ConfigKey::Color(ColorSlot::KeyboardFiller))
    } else if t == key_text(ConfigKey::Color(ColorSlot::Background)) {
        Some(ConfigKey::Color(ColorSlot::Background))
    } else if t == key_text(ConfigKey::Number(NumberSlot::NoteSpeed)) {
        Some(ConfigKey::Number(NumberSlot::NoteSpeed))
    } else if t == key_text(ConfigKey::Note(NoteSlot::StartingNote)) {
        Some(ConfigKey::Note(NoteSlot::StartingNote))
    } else if t == key_text(ConfigKey::Number(NumberSlot::BloomIntensity)) {
        Some(ConfigKey::Number(NumberSlot::BloomIntensity))
    } else if t == key_text(ConfigKey::Number(NumberSlot::KeyboardHeight)) {
        Some(ConfigKey::Number(NumberSlot::KeyboardHeight))
    } else if t == key_text(ConfigKey::Note(NoteSlot::EndingNote)) {
        Some(ConfigKey::Note(NoteSlot::EndingNote))
    } else if t == key_text(ConfigKey::Flag(FlagSlot::EnableBloom)) {
        Some(ConfigKey::Flag(FlagSlot::EnableBloom))
    } else if t == key_text(ConfigKey::Number(NumberSlot::NoteWidth)) {
        Some(ConfigKey::Number(NumberSlot::NoteWidth))
    } else if t == key_text(ConfigKey::Flag(FlagSlot::SyncWhiteNotes)) {
        Some(ConfigKey::Flag(FlagSlot::SyncWhiteNotes))
    } else if t == key_text(ConfigKey::Flag(FlagSlot::SyncBlackNotes)) {
        Some(ConfigKey::Flag(FlagSlot::SyncBlackNotes))
    } else if t == key_text(ConfigKey::Flag(FlagSlot::ShowKeyboard)) {
        Some(ConfigKey::Flag(FlagSlot::ShowKeyboard))
    } else if t == key_text(ConfigKey::Flag(FlagSlot::SyncKeyboardActiveColor)) {
        Some(ConfigKey::Flag(FlagSlot::SyncKeyboardActiveColor))
    } else if t == key_text(ConfigKey::BloomCompositeMode) {
        Some(ConfigKey::BloomCompositeMode)
    } else {
        None
    }
}

/// The key texts are pairwise different, so each names exactly its key.
pub proof fn lemma_key_named(key: ConfigKey)
    ensures
        key_named(key_text(key)) == Some(key),
{
    reveal_strlit("white_top");
    reveal_strlit("white_bottom");
    reveal_strlit("black_top");
    reveal_strlit("black_bottom");
    reveal_strlit("keyboard_white");
    reveal_strlit("keyboard_white_active");
    reveal_strlit("keyboard_black");
    reveal_strlit("keyboard_black_active");
    reveal_strlit("keyboard_felt");
    reveal_strlit("keyboard_filler");
    reveal_strlit("background_color");
    reveal_strlit("note_speed");
    reveal_strlit("starting_note");
    reveal_strlit("bloom_intensity");
    reveal_strlit("keyboard_height");
    reveal_strlit("ending_note");
    reveal_strlit("enable_bloom");
    reveal_strlit("note_width");
    reveal_strlit("sync_white_notes");
    reveal_strlit("sync_black_notes");
    reveal_strlit("show_keyboard");
    reveal_strlit("sync_keyboard_active_color");
    reveal_strlit("bloom_composite_mode");
    assert(ascii("white_top").len() == 9);
    assert(ascii("white_bottom").len() == 12);
    assert(ascii("black_top").len() == 9);
    assert(ascii("black_bottom").len() == 12);
    assert(ascii("keyboard_white").len() == 14);
    assert(ascii("keyboard_white_active").len() == 21);
    assert(ascii("keyboard_black").len() == 14);
    assert(ascii("keyboard_black_active").len() == 21);
    assert(ascii("keyboard_felt").len() == 13);
    assert(ascii("keyboard_filler").len() == 15);
    assert(ascii("background_color").len() == 16);
    assert(ascii("note_speed").len() == 10);
    assert(ascii("starting_note").len() == 13);
    assert(ascii("bloom_intensity").len() == 15);
    assert(ascii("keyboard_height").len() == 15);
    assert(ascii("ending_note").len() == 11);
    assert(ascii("enable_bloom").len() == 12);
    assert(ascii("note_width").len() == 10);
    assert(ascii("sync_white_notes").len() == 16);
    assert(ascii("sync_black_notes").len() == 16);
    assert(ascii("show_keyboard").len() == 13);
    assert(ascii("sync_keyboard_active_color").len() == 26);
    assert(ascii("bloom_composite_mode").len() == 20);
    assert(ascii("white_top")[0] != ascii("black_top")[0]);
    assert(ascii("white_bottom")[0] != ascii("black_bottom")[0]);
    assert(ascii("white_bottom")[0] != ascii("enable_bloom")[0]);
    assert(ascii("black_bottom")[0] != ascii("enable_bloom")[0]);
    assert(ascii("keyboard_white")[9] != ascii("keyboard_black")[9]);
    assert(ascii("keyboard_white_active")[9] != ascii("keyboard_black_active")[9]);
    assert(ascii("keyboard_felt")[0] != ascii("starting_note")[0]);
    assert(ascii("keyboard_felt")[0] != ascii("show_keyboard")[0]);
    assert(ascii("keyboard_filler")[0] != ascii("bloom_intensity")[0]);
    assert(ascii("keyboard_filler")[9] != ascii("keyboard_height")[9]);
    assert(ascii("background_color")[0] != ascii("sync_white_notes")[0]);
    assert(ascii("background_color")[0] != ascii("sync_black_notes")[0]);
    assert(ascii("note_speed")[5] != ascii("note_width")[5]);
    assert(ascii("starting_note")[1] != ascii("show_keyboard")[1]);
    assert(ascii("bloom_intensity")[0] != ascii("keyboard_height")[0]);
    assert(ascii("sync_white_notes")[5] != ascii("sync_black_notes")[5]);
}


/// A byte of a word of the file: a lower-case ASCII letter or `_`.
pub open spec fn is_word_byte(b: u8) -> bool {
    (97 <= b <= 122) || b == 95
}

/// A non-empty text of word bytes.
pub open spec fn is_word(t: Seq<u8>) -> bool {
    t.len() > 0 && forall|i: int| 0 <= i < t.len() ==> is_word_byte(#[trigger] t[i])
}

/// Key texts are words.
pub proof fn lemma_key_text_word(key: ConfigKey)
    ensures
        is_word(key_text(key)),
{
    match key {
        ConfigKey::Color(ColorSlot::WhiteTop) => {
            reveal_strlit("white_top");
            assert(ascii("white_top").len() == 9);
            assert(forall|i: int| 0 <= i < 9 ==> is_word_byte(#[trigger] ascii("white_top")[i]));
        },
        ConfigKey::Color(ColorSlot::WhiteBottom) => {
            reveal_strlit("white_bottom");
            assert(ascii("white_bottom").len() == 12);
            assert(forall|i: int| 0 <= i < 12 ==> is_word_byte(#[trigger] ascii("white_bottom")[i]));
        },
        ConfigKey::Color(ColorSlot::BlackTop) => {
            reveal_strlit("black_top");
            assert(ascii("black_top").len() == 9);
            assert(forall|i: int| 0 <= i < 9 ==> is_word_byte(#[trigger] ascii("black_top")[i]));
        },
        ConfigKey::Color(ColorSlot::BlackBottom) => {
            reveal_strlit("black_bottom");
            assert(ascii("black_bottom").len() == 12);
            assert(forall|i: int| 0 <= i < 12 ==> is_word_byte(#[trigger] ascii("black_bottom")[i]));
        },
        ConfigKey::Color(ColorSlot::KeyboardWhite) => {
            reveal_strlit("keyboard_white");
            assert(ascii("keyboard_white").len() == 14);
            assert(forall|i: int| 0 <= i < 14 ==> is_word_byte(#[trigger] ascii("keyboard_white")[i]));
        },
        ConfigKey::Color(ColorSlot::KeyboardWhiteActive) => {
            reveal_strlit("keyboard_white_active");
            assert(ascii("keyboard_white_active").len() == 21);
            assert(forall|i: int| 0 <= i < 21 ==> is_word_byte(#[trigger] ascii("keyboard_white_active")[i]));
        },
        ConfigKey::Color(ColorSlot::KeyboardBlack) => {
            reveal_strlit("keyboard_black");
            assert(ascii("keyboard_black").len() == 14);
            assert(forall|i: int| 0 <= i < 14 ==> is_word_byte(#[trigger] ascii("keyboard_black")[i]));
        },
        ConfigKey::Color(ColorSlot::KeyboardBlackActive) => {
            reveal_strlit("keyboard_black_active");
            assert(ascii("keyboard_black_active").len() == 21);
            assert(forall|i: int| 0 <= i < 21 ==> is_word_byte(#[trigger] ascii("keyboard_black_active")[i]));
        },
        ConfigKey::Color(ColorSlot::KeyboardFelt) => {
            reveal_strlit("keyboard_felt");
            assert(ascii("keyboard_felt").len() == 13);
            assert(forall|i: int| 0 <= i < 13 ==> is_word_byte(#[trigger] ascii("keyboard_felt")[i]));
        },
        ConfigKey::Color(ColorSlot::KeyboardFiller) => {
            reveal_strlit("keyboard_filler");
            assert(ascii("keyboard_filler").len() == 15);
            assert(forall|i: int| 0 <= i < 15 ==> is_word_byte(#[trigger] ascii("keyboard_filler")[i]));
        },
        ConfigKey::Color(ColorSlot::Background) => {
            reveal_strlit("background_color");
            assert(ascii("background_color").len() == 16);
            assert(forall|i: int| 0 <= i < 16 ==> is_word_byte(#[trigger] ascii("background_color")[i]));
        },
        ConfigKey::Number(NumberSlot::NoteSpeed) => {
            reveal_strlit("note_speed");
            assert(ascii("note_speed").len() == 10);
            assert(forall|i: int| 0 <= i < 10 ==> is_word_byte(#[trigger] ascii("note_speed")[i]));
        },
        ConfigKey::Note(NoteSlot::StartingNote) => {
            reveal_strlit("starting_note");
            assert(ascii("starting_note").len() == 13);
            assert(forall|i: int| 0 <= i < 13 ==> is_word_byte(#[trigger] ascii("starting_note")[i]));
        },
        ConfigKey::Number(NumberSlot::BloomIntensity) => {
            reveal_strlit("bloom_intensity");
            assert(ascii("bloom_intensity").len() == 15);
            assert(forall|i: int| 0 <= i < 15 ==> is_word_byte(#[trigger] ascii("bloom_intensity")[i]));
        },
        ConfigKey::Number(NumberSlot::KeyboardHeight) => {
            reveal_strlit("keyboard_height");
            assert(ascii("keyboard_height").len() == 15);
            assert(forall|i: int| 0 <= i < 15 ==> is_word_byte(#[trigger] ascii("keyboard_height")[i]));
        },
        ConfigKey::Note(NoteSlot::EndingNote) => {
            reveal_strlit("ending_note");
            assert(ascii("ending_note").len() == 11);
            assert(forall|i: int| 0 <= i < 11 ==> is_word_byte(#[trigger] ascii("ending_note")[i]));
        },
        ConfigKey::Flag(FlagSlot::EnableBloom) => {
            reveal_strlit("enable_bloom");
            assert(ascii("enable_bloom").len() == 12);
            assert(forall|i: int| 0 <= i < 12 ==> is_word_byte(#[trigger] ascii("enable_bloom")[i]));
        },
        ConfigKey::Number(NumberSlot::NoteWidth) => {
            reveal_strlit("note_width");
            assert(ascii("note_width").len() == 10);
            assert(forall|i: int| 0 <= i < 10 ==> is_word_byte(#[trigger] ascii("note_width")[i]));
        },
        ConfigKey::Flag(FlagSlot::SyncWhiteNotes) => {
            reveal_strlit("sync_white_notes");
            assert(ascii("sync_white_notes").len() == 16);
            assert(forall|i: int| 0 <= i < 16 ==> is_word_byte(#[trigger] ascii("sync_white_notes")[i]));
        },
        ConfigKey::Flag(FlagSlot::SyncBlackNotes) => {
            reveal_strlit("sync_black_notes");
            assert(ascii("sync_black_notes").len() == 16);
            assert(forall|i: int| 0 <= i < 16 ==> is_word_byte(#[trigger] ascii("sync_black_notes")[i]));
        },
        ConfigKey::Flag(FlagSlot::ShowKeyboard) => {
            reveal_strlit("show_keyboard");
            assert(ascii("show_keyboard").len() == 13);
            assert(forall|i: int| 0 <= i < 13 ==> is_word_byte(#[trigger] ascii("show_keyboard")[i]));
        },
        ConfigKey::Flag(FlagSlot::SyncKeyboardActiveColor) => {
            reveal_strlit("sync_keyboard_active_color");
            assert(ascii("sync_keyboard_active_color").len() == 26);
            assert(forall|i: int| 0 <= i < 26 ==> is_word_byte(#[trigger] ascii("sync_keyboard_active_color")[i]));
        },
        ConfigKey::BloomCompositeMode => {
            reveal_strlit("bloom_composite_mode");
            assert(ascii("bloom_composite_mode").len() == 20);
            assert(forall|i: int| 0 <= i < 20 ==> is_word_byte(#[trigger] ascii("bloom_composite_mode")[i]));
        },
    }
}

/// Mode and flag texts are words.
pub proof fn lemma_value_words()
    ensures
        is_word(bloom_mode_text(BloomMode::Additive)),
        is_word(bloom_mode_text(BloomMode::EnergyConserving)),
        is_word(flag_text(true)),
        is_word(flag_text(false)),
        bloom_mode_text(BloomMode::Additive) != bloom_mode_text(BloomMode::EnergyConserving),
        flag_text(true) != flag_text(false),
{
    reveal_strlit("additive");
    assert(ascii("additive").len() == 8);
    assert(forall|i: int| 0 <= i < 8 ==> is_word_byte(#[trigger] ascii("additive")[i]));
    reveal_strlit("efficent");
    assert(ascii("efficent").len() == 8);
    assert(forall|i: int| 0 <= i < 8 ==> is_word_byte(#[trigger] ascii("efficent")[i]));
    reveal_strlit("true");
    assert(ascii("true").len() == 4);
    assert(forall|i: int| 0 <= i < 4 ==> is_word_byte(#[trigger] ascii("true")[i]));
    reveal_strlit("false");
    assert(ascii("false").len() == 5);
    assert(forall|i: int| 0 <= i < 5 ==> is_word_byte(#[trigger] ascii("false")[i]));
    assert(ascii("additive")[0] != ascii("efficent")[0]);
}

/// The bytes of a key's text.
pub fn key_bytes(key: ConfigKey) -> (b: &'static [u8])
    ensures
        b@ == key_text(key),
{
    match key {
        ConfigKey::Color(ColorSlot::WhiteTop) => {
            proof {
                reveal_strlit("white_top");
            }
            literal_bytes("white_top")
        },
        ConfigKey::Color(ColorSlot::WhiteBottom) => {
            proof {
                reveal_strlit("white_bottom");
            }
            literal_bytes("white_bottom")
        },
        ConfigKey::Color(ColorSlot::BlackTop) => {
            proof {
                reveal_strlit("black_top");
            }
            literal_bytes("black_top")
        },
        ConfigKey::Color(ColorSlot::BlackBottom) => {
            proof {
                reveal_strlit("black_bottom");
            }
            literal_bytes("black_bottom")
        },
        ConfigKey::Color(ColorSlot::KeyboardWhite) => {
            proof {
                reveal_strlit("keyboard_white");
            }
            literal_bytes("keyboard_white")
        },
        ConfigKey::Color(ColorSlot::KeyboardWhiteActive) => {
            proof {
                reveal_strlit("keyboard_white_active");
            }
            literal_bytes("keyboard_white_active")
        },
        ConfigKey::Color(ColorSlot::KeyboardBlack) => {
            proof {
                reveal_strlit("keyboard_black");
            }
            literal_bytes("keyboard_black")
        },
        ConfigKey::Color(ColorSlot::KeyboardBlackActive) => {
            proof {
                reveal_strlit("keyboard_black_active");
            }
            literal_bytes("keyboard_black_active")
        },
        ConfigKey::Color(ColorSlot::KeyboardFelt) => {
            proof {
                reveal_strlit("keyboard_felt");
            }
            literal_bytes("keyboard_felt")
        },
        ConfigKey::Color(ColorSlot::KeyboardFiller) => {
            proof {
                reveal_strlit("keyboard_filler");
            }
            literal_bytes("keyboard_filler")
        },
        ConfigKey::Color(ColorSlot::Background) => {
            proof {
                reveal_strlit("background_color");
            }
            literal_bytes("background_color")
        },
        ConfigKey::Number(NumberSlot::NoteSpeed) => {
            proof {
                reveal_strlit("note_speed");
            }
            literal_bytes("note_speed")
        },
        ConfigKey::Note(NoteSlot::StartingNote) => {
            proof {
                reveal_strlit("starting_note");
            }
            literal_bytes("starting_note")
        },
        ConfigKey::Number(NumberSlot::BloomIntensity) => {
            proof {
                reveal_strlit("bloom_intensity");
            }
            literal_bytes("bloom_intensity")
        },
        ConfigKey::Number(NumberSlot::KeyboardHeight) => {
            proof {
                reveal_strlit("keyboard_height");
            }
            literal_bytes("keyboard_height")
        },
        ConfigKey::Note(NoteSlot::EndingNote) => {
            proof {
                reveal_strlit("ending_note");
            }
            literal_bytes("ending_note")
        },
        ConfigKey::Flag(FlagSlot::EnableBloom) => {
            proof {
                reveal_strlit("enable_bloom");
            }
            literal_bytes("enable_bloom")
        },
        ConfigKey::Number(NumberSlot::NoteWidth) => {
            proof {
                reveal_strlit("note_width");
            }
            literal_bytes("note_width")
        },
        ConfigKey::Flag(FlagSlot::SyncWhiteNotes) => {
            proof {
                reveal_strlit("sync_white_notes");
            }
            literal_bytes("sync_white_notes")
        },
        ConfigKey::Flag(FlagSlot::SyncBlackNotes) => {
            proof {
                reveal_strlit("sync_black_notes");
            }
            literal_bytes("sync_black_notes")
        },
        ConfigKey::Flag(FlagSlot::ShowKeyboard) => {
            proof {
                reveal_strlit("show_keyboard");
            }
            literal_bytes("show_keyboard")
        },
        ConfigKey::Flag(FlagSlot::SyncKeyboardActiveColor) => {
            proof {
                reveal_strlit("sync_keyboard_active_color");
            }
            literal_bytes("sync_keyboard_active_color")
        },
        ConfigKey::BloomCompositeMode => {
            proof {
                reveal_strlit("bloom_composite_mode");
            }
            literal_bytes("bloom_composite_mode")
        },
    }
}

/// The bytes of a bloom mode's text.
pub fn bloom_mode_bytes(mode: BloomMode) -> (b: &'static [u8])
    ensures
        b@ == bloom_mode_text(mode),
{
    match mode {
        BloomMode::Additive => {
            proof {
                reveal_strlit("additive");
            }
            literal_bytes("additive")
        },
        BloomMode::EnergyConserving => {
            proof {
                reveal_strlit("efficent");
            }
            literal_bytes("efficent")
        },
    }
}

/// The bytes of a flag's text.
pub fn flag_bytes(value: bool) -> (b: &'static [u8])
    ensures
        b@ == flag_text(value),
{
    if value {
        proof {
            reveal_strlit("true");
        }
        literal_bytes("true")
    } else {
        proof {
            reveal_strlit("false");
        }
        literal_bytes("false")
    }
}

/// The two texts are equal.
pub fn bytes_equal(a: &[u8], b: &[u8]) -> (r: bool)
    ensures
        r == (a@ == b@),
{
    if a.len() != b.len() {
        return false;
    }
    let mut i: usize = 0;
    while i < a.len()
        invariant
            0 <= i <= a.len(),
            a.len() == b.len(),
            forall|j: int| 0 <= j < i ==> a@[j] == b@[j],
        decreases a.len() - i,
    {
        if a[i] != b[i] {
            return false;
        }
        i = i + 1;
    }
    assert(a@ =~= b@);
    true
}

/// The key named by `t`, if any.
pub fn config_key(t: &[u8]) -> (r: Option<ConfigKey>)
    ensures
        r == key_named(t@),
{
    if bytes_equal(t, key_bytes(ConfigKey::Color(ColorSlot::WhiteTop))) {
        return Some(ConfigKey::Color(ColorSlot::WhiteTop));
    }
    if bytes_equal(t, key_bytes(ConfigKey::Color(ColorSlot::WhiteBottom))) {
        return Some(ConfigKey::Color(ColorSlot::WhiteBottom));
    }
    if bytes_equal(t, key_bytes(ConfigKey::Color(ColorSlot::BlackTop))) {
        return Some(ConfigKey::Color(ColorSlot::BlackTop));
    }
    if bytes_equal(t, key_bytes(ConfigKey::Color(ColorSlot::BlackBottom))) {
        return Some(ConfigKey::Color(ColorSlot::BlackBottom));
    }
    if bytes_equal(t, key_bytes(ConfigKey::Color(ColorSlot::KeyboardWhite))) {
        return Some(ConfigKey::Color(ColorSlot::KeyboardWhite));
    }
    if bytes_equal(t, key_bytes(ConfigKey::Color(ColorSlot::KeyboardWhiteActive))) {
        return Some(ConfigKey::Color(ColorSlot::KeyboardWhiteActive));
    }
    if bytes_equal(t, key_bytes(ConfigKey::Color(ColorSlot::KeyboardBlack))) {
        return Some(ConfigKey::Color(ColorSlot::KeyboardBlack));
    }
    if bytes_equal(t, key_bytes(ConfigKey::Color(ColorSlot::KeyboardBlackActive))) {
        return Some(ConfigKey::Color(ColorSlot::KeyboardBlackActive));
    }
    if bytes_equal(t, key_bytes(ConfigKey::Color(ColorSlot::KeyboardFelt))) {
        return Some(ConfigKey::Color(ColorSlot::KeyboardFelt));
    }
    if bytes_equal(t, key_bytes(ConfigKey::Color(ColorSlot::KeyboardFiller))) {
        return Some(ConfigKey::Color(ColorSlot::KeyboardFiller));
    }
    if bytes_equal(t, key_bytes(ConfigKey::Color(ColorSlot::Background))) {
        return Some(ConfigKey::Color(ColorSlot::Background));
    }
    if bytes_equal(t, key_bytes(ConfigKey::Number(NumberSlot::NoteSpeed))) {
        return Some(ConfigKey::Number(NumberSlot::NoteSpeed));
    }
    if bytes_equal(t, key_bytes(ConfigKey::Note(NoteSlot::StartingNote))) {
        return Some(ConfigKey::Note(NoteSlot::StartingNote));
    }
    if bytes_equal(t, key_bytes(ConfigKey::Number(NumberSlot::BloomIntensity))) {
        return Some(ConfigKey::Number(NumberSlot::BloomIntensity));
    }
    if bytes_equal(t, key_bytes(ConfigKey::Number(NumberSlot::KeyboardHeight))) {
        return Some(ConfigKey::Number(NumberSlot::KeyboardHeight));
    }
    if bytes_equal(t, key_bytes(ConfigKey::Note(NoteSlot::EndingNote))) {
        return Some(ConfigKey::Note(NoteSlot::EndingNote));
    }
    if bytes_equal(t, key_bytes(ConfigKey::Flag(FlagSlot::EnableBloom))) {
        return Some(ConfigKey::Flag(FlagSlot::EnableBloom));
    }
    if bytes_equal(t, key_bytes(ConfigKey::Number(NumberSlot::NoteWidth))) {
        return Some(ConfigKey::Number(NumberSlot::NoteWidth));
    }
    if bytes_equal(t, key_bytes(ConfigKey::Flag(FlagSlot::SyncWhiteNotes))) {
        return Some(ConfigKey::Flag(FlagSlot::SyncWhiteNotes));
    }
    if bytes_equal(t, key_bytes(ConfigKey::Flag(FlagSlot::SyncBlackNotes))) {
        return Some(ConfigKey::Flag(FlagSlot::SyncBlackNotes));
    }
    if bytes_equal(t, key_bytes(ConfigKey::Flag(FlagSlot::ShowKeyboard))) {
        return Some(ConfigKey::Flag(FlagSlot::ShowKeyboard));
    }
    if bytes_equal(t, key_bytes(ConfigKey::Flag(FlagSlot::SyncKeyboardActiveColor))) {
        return Some(ConfigKey::Flag(FlagSlot::SyncKeyboardActiveColor));
    }
    if bytes_equal(t, key_bytes(ConfigKey::BloomCompositeMode)) {
        return Some(ConfigKey::BloomCompositeMode);
    }
    None
}


/// One setting as the file stores it. Colours and fractional numbers keep
/// their text: a colour its comma-separated components, a number its digits.
pub enum Setting {
    Color { color: ColorSlot, components: Vec<Vec<u8>> },
    Number { number: NumberSlot, text: Vec<u8> },
    Flag { flag: FlagSlot, on: bool },
    Note { note: NoteSlot, value: i8 },
    Bloom { mode: BloomMode },
}

/// A setting with its texts as sequences.
pub enum SettingView {
    Color { color: ColorSlot, components: Seq<Seq<u8>> },
    Number { number: NumberSlot, text: Seq<u8> },
    Flag { flag: FlagSlot, on: bool },
    Note { note: NoteSlot, value: i8 },
    Bloom { mode: BloomMode },
}

impl View for Setting {
    type V = SettingView;

    open spec fn view(&self) -> SettingView {
        match self {
            Setting::Color { color, components } => SettingView::Color {
                color: *color,
                components: components@.map_values(|c: Vec<u8>| c@),
            },
            Setting::Number { number, text } => SettingView::Number { number: *number, text: text@ },
            Setting::Flag { flag, on } => SettingView::Flag { flag: *flag, on: *on },
            Setting::Note { note, value } => SettingView::Note { note: *note, value: *value },
            Setting::Bloom { mode } => SettingView::Bloom { mode: *mode },
        }
    }
}

/// What a line of the file says.
pub enum ConfigEntry {
    /// A setting.
    Setting(Setting),
    /// The bloom mode line names no known mode.
    BadBloomMode,
    /// The key is not one of the file's keys.
    UnknownKey,
}

/// A line's meaning with its texts as sequences.
pub enum EntryView {
    Setting(SettingView),
    BadBloomMode,
    UnknownKey,
}

impl View for ConfigEntry {
    type V = EntryView;

    open spec fn view(&self) -> EntryView {
        match self {
            ConfigEntry::Setting(s) => EntryView::Setting(s@),
            ConfigEntry::BadBloomMode => EntryView::BadBloomMode,
            ConfigEntry::UnknownKey => EntryView::UnknownKey,
        }
    }
}

/// A read line: its key text, its value text, and what it says.
pub struct ConfigLine {
    pub key: Vec<u8>,
    pub value: Vec<u8>,
    pub entry: ConfigEntry,
}

/// What a value says for a key, or `None` when the value cannot be read
/// for that key (a flag that is not `true`/`false`, a note that is not a
/// decimal `i8`).
pub open spec fn value_entry(key: Option<ConfigKey>, v: Seq<u8>) -> Option<EntryView> {
    match key {
        None => Some(EntryView::UnknownKey),
        Some(ConfigKey::Color(slot)) => Some(
            EntryView::Setting(SettingView::Color { color: slot, components: split_on(v, 44u8) }),
        ),
        Some(ConfigKey::Number(slot)) => Some(EntryView::Setting(SettingView::Number { number: slot, text: v })),
        Some(ConfigKey::Flag(slot)) => if v == flag_text(true) {
            Some(EntryView::Setting(SettingView::Flag { flag: slot, on: true }))
        } else if v == flag_text(false) {
            Some(EntryView::Setting(SettingView::Flag { flag: slot, on: false }))
        } else {
            None
        },
        Some(ConfigKey::Note(slot)) => match parse_signed(v, -128, 127) {
            Some(n) => Some(EntryView::Setting(SettingView::Note { note: slot, value: n as i8 })),
            None => None,
        },
        Some(ConfigKey::BloomCompositeMode) => if v == bloom_mode_text(BloomMode::EnergyConserving) {
            Some(EntryView::Setting(SettingView::Bloom { mode: BloomMode::EnergyConserving }))
        } else if v == bloom_mode_text(BloomMode::Additive) {
            Some(EntryView::Setting(SettingView::Bloom { mode: BloomMode::Additive }))
        } else {
            Some(EntryView::BadBloomMode)
        },
    }
}

/// What a line says: its text before the first `:` is the key, the text
/// from there to the next `:` (or the end) is the value. `None` when the
/// line has no `:` or its value cannot be read for its key.
pub open spec fn line_entry(line: Seq<u8>) -> Option<EntryView> {
    let fields = split_on(line, 58u8);
    if fields.len() < 2 {
        None
    } else {
        value_entry(key_named(fields[0]), fields[1])
    }
}

/// What each line of a settings text says.
pub open spec fn text_entries(text: Seq<u8>) -> Seq<Option<EntryView>> {
    text_lines(text).map_values(|l: Seq<u8>| line_entry(l))
}

/// Reads one line of the settings file; `None` when the line has no `:` or
/// its value cannot be read for its key.
pub fn parse_config_line(line: &[u8]) -> (r: Option<ConfigLine>)
    ensures
        r is None <==> line_entry(line@) is None,
        r matches Some(l) ==> {
            &&& line_entry(line@) == Some(l.entry@)
            &&& l.key@ == split_on(line@, 58u8)[0]
            &&& l.value@ == split_on(line@, 58u8)[1]
        },
{
    let mut fields = split_bytes(line, 58u8);
    if fields.len() < 2 {
        return None;
    }
    let ghost fs = views(fields@);
    let value = fields.remove(1);
    let key = fields.remove(0);
    assert(key@ == fs[0]);
    assert(value@ == fs[1]);
    let entry = match config_key(key.as_slice()) {
        None => ConfigEntry::UnknownKey,
        Some(ConfigKey::Color(slot)) => {
            let components = split_bytes(value.as_slice(), 44u8);
            ConfigEntry::Setting(Setting::Color { color: slot, components })
        },
        Some(ConfigKey::Number(slot)) => ConfigEntry::Setting(Setting::Number { number: slot, text: value.clone() }),
        Some(ConfigKey::Flag(slot)) => {
            if bytes_equal(value.as_slice(), flag_bytes(true)) {
                ConfigEntry::Setting(Setting::Flag { flag: slot, on: true })
            } else if bytes_equal(value.as_slice(), flag_bytes(false)) {
                ConfigEntry::Setting(Setting::Flag { flag: slot, on: false })
            } else {
                return None;
            }
        },
        Some(ConfigKey::Note(slot)) => {
            match parse_signed_bytes(value.as_slice(), -128, 127) {
                Some(n) => ConfigEntry::Setting(Setting::Note { note: slot, value: n as i8 }),
                None => {
                    return None;
                },
            }
        },
        Some(ConfigKey::BloomCompositeMode) => {
            if bytes_equal(value.as_slice(), bloom_mode_bytes(BloomMode::EnergyConserving)) {
                ConfigEntry::Setting(Setting::Bloom { mode: BloomMode::EnergyConserving })
            } else if bytes_equal(value.as_slice(), bloom_mode_bytes(BloomMode::Additive)) {
                ConfigEntry::Setting(Setting::Bloom { mode: BloomMode::Additive })
            } else {
                ConfigEntry::BadBloomMode
            }
        },
    };
    Some(ConfigLine { key, value, entry })
}


/// The key of a setting.
pub open spec fn setting_key(s: SettingView) -> ConfigKey {
    match s {
        SettingView::Color { color, .. } => ConfigKey::Color(color),
        SettingView::Number { number, .. } => ConfigKey::Number(number),
        SettingView::Flag { flag, .. } => ConfigKey::Flag(flag),
        SettingView::Note { note, .. } => ConfigKey::Note(note),
        SettingView::Bloom { .. } => ConfigKey::BloomCompositeMode,
    }
}

/// The value text the file stores for a setting.
pub open spec fn value_text(s: SettingView) -> Seq<u8> {
    match s {
        SettingView::Color { components, .. } => joined(components, 44u8),
        SettingView::Number { text, .. } => text,
        SettingView::Flag { on, .. } => flag_text(on),
        SettingView::Note { value, .. } => int_text(value as int),
        SettingView::Bloom { mode } => bloom_mode_text(mode),
    }
}

/// The line the file stores for a setting (without its newline).
pub open spec fn setting_line(s: SettingView) -> Seq<u8> {
    key_text(setting_key(s)).push(58u8) + value_text(s)
}

/// The settings text: one line per setting, each ended by a newline.
pub open spec fn settings_text(settings: Seq<SettingView>) -> Seq<u8> {
    terminated(settings.map_values(|s: SettingView| setting_line(s)), 10u8)
}

/// Appends `b` to `out`.
fn push_all(out: &mut Vec<u8>, b: &[u8])
    ensures
        final(out)@ == old(out)@ + b@,
{
    let mut i: usize = 0;
    while i < b.len()
        invariant
            0 <= i <= b.len(),
            out@ == old(out)@ + b@.take(i as int),
        decreases b.len() - i,
    {
        out.push(b[i]);
        assert(old(out)@ + b@.take(i + 1) =~= (old(out)@ + b@.take(i as int)).push(b@[i as int]));
        i = i + 1;
    }
    assert(b@.take(b@.len() as int) =~= b@);
}

/// Appends a setting's value text to `out`.
fn push_value(out: &mut Vec<u8>, setting: &Setting)
    ensures
        final(out)@ == old(out)@ + value_text(setting@),
{
    match setting {
        Setting::Color { components, .. } => {
            let ghost cs = components@.map_values(|c: Vec<u8>| c@);
            let mut i: usize = 0;
            while i < components.len()
                invariant
                    0 <= i <= components.len(),
                    cs == components@.map_values(|c: Vec<u8>| c@),
                    out@ == old(out)@ + joined(cs.take(i as int), 44u8),
                decreases components.len() - i,
            {
                let ghost before = out@;
                if i > 0 {
                    out.push(44u8);
                }
                push_all(out, components[i].as_slice());
                proof {
                    let t = cs.take(i + 1);
                    assert(t.drop_last() =~= cs.take(i as int));
                    assert(t.last() == components@[i as int]@);
                    if i == 0 {
                        assert(joined(t, 44u8) == t[0]);
                        assert(joined(cs.take(0), 44u8) =~= Seq::<u8>::empty());
                        assert(out@ =~= old(out)@ + joined(t, 44u8));
                    } else {
                        assert(out@ =~= old(out)@ + joined(t, 44u8));
                    }
                }
                i = i + 1;
            }
            assert(cs.take(components@.len() as int) =~= cs);
        },
        Setting::Number { text, .. } => {
            push_all(out, text.as_slice());
        },
        Setting::Flag { on, .. } => {
            push_all(out, flag_bytes(*on));
        },
        Setting::Note { value, .. } => {
            push_int_text(out, *value as i64);
        },
        Setting::Bloom { mode } => {
            push_all(out, bloom_mode_bytes(*mode));
        },
    }
}

/// The key of a setting.
fn key_of_setting(setting: &Setting) -> (k: ConfigKey)
    ensures
        k == setting_key(setting@),
{
    match setting {
        Setting::Color { color, .. } => ConfigKey::Color(*color),
        Setting::Number { number, .. } => ConfigKey::Number(*number),
        Setting::Flag { flag, .. } => ConfigKey::Flag(*flag),
        Setting::Note { note, .. } => ConfigKey::Note(*note),
        Setting::Bloom { .. } => ConfigKey::BloomCompositeMode,
    }
}

/// The settings file text for `settings`, one `key:value` line each.
pub fn format_config(settings: &Vec<Setting>) -> (out: Vec<u8>)
    ensures
        out@ == settings_text(settings@.map_values(|s: Setting| s@)),
{
    let ghost ss = settings@.map_values(|s: Setting| s@);
    let ghost ls = ss.map_values(|s: SettingView| setting_line(s));
    let mut out: Vec<u8> = Vec::new();
    let mut i: usize = 0;
    while i < settings.len()
        invariant
            0 <= i <= settings.len(),
            ss == settings@.map_values(|s: Setting| s@),
            ls == ss.map_values(|s: SettingView| setting_line(s)),
            out@ == terminated(ls.take(i as int), 10u8),
        decreases settings.len() - i,
    {
        let ghost before = out@;
        push_all(&mut out, key_bytes(key_of_setting(&settings[i])));
        out.push(58u8);
        push_value(&mut out, &settings[i]);
        out.push(10u8);
        proof {
            let t = ls.take(i + 1);
            assert(t.drop_last() =~= ls.take(i as int));
            assert(t.last() == setting_line(settings@[i as int]@));
            assert(out@ =~= before + setting_line(settings@[i as int]@).push(10u8));
        }
        i = i + 1;
    }
    assert(ls.take(settings@.len() as int) =~= ls);
    out
}


/// Text that fits in one value of the file: no `:` and no newline, and
/// no carriage return at its end.
pub open spec fn plain_value(t: Seq<u8>) -> bool {
    free_of(t, 58u8) && free_of(t, 10u8) && strip_cr(t) == t
}

/// A setting that the file stores and reads back unchanged: colour
/// components and number texts are plain values, and colour components
/// hold no comma; a colour has at least one component.
pub open spec fn savable(s: SettingView) -> bool {
    match s {
        SettingView::Color { components, .. } => {
            &&& components.len() > 0
            &&& forall|i: int|
                0 <= i < components.len() ==> free_of(#[trigger] components[i], 44u8) && free_of(
                    components[i],
                    58u8,
                ) && free_of(components[i], 10u8)
            &&& strip_cr(components.last()) == components.last()
        },
        SettingView::Number { text, .. } => plain_value(text),
        _ => true,
    }
}

/// A word holds none of the separators of the file.
proof fn lemma_word_plain(t: Seq<u8>)
    requires
        is_word(t),
    ensures
        plain_value(t),
        free_of(t, 44u8),
        t.len() > 0 && t.last() != 13u8,
{
    assert(is_word_byte(t[t.len() - 1]));
}

/// Joining texts free of a byte `x` with a separator other than `x` gives a
/// text free of `x`.
proof fn lemma_joined_free(ps: Seq<Seq<u8>>, sep: u8, x: u8)
    requires
        sep != x,
        forall|i: int| 0 <= i < ps.len() ==> free_of(#[trigger] ps[i], x),
    ensures
        free_of(joined(ps, sep), x),
    decreases ps.len(),
{
    if ps.len() == 1 {
        assert(free_of(ps[0], x));
    } else if ps.len() > 1 {
        let init = ps.drop_last();
        assert forall|i: int| 0 <= i < init.len() implies free_of(#[trigger] init[i], x) by {
            assert(init[i] == ps[i]);
        }
        lemma_joined_free(init, sep, x);
        assert(free_of(ps[ps.len() - 1], x));
        let j = joined(ps, sep);
        let a = joined(init, sep).push(sep);
        assert forall|i: int| 0 <= i < j.len() implies #[trigger] j[i] != x by {
            if i < a.len() {
                if i < a.len() - 1 {
                    assert(j[i] == joined(init, sep)[i]);
                }
            } else {
                assert(j[i] == ps.last()[i - a.len()]);
            }
        }
    }
}

/// Joined texts end as their last text does, when it is not empty.
proof fn lemma_joined_end(ps: Seq<Seq<u8>>, sep: u8)
    requires
        ps.len() > 0,
        sep != 13u8,
        strip_cr(ps.last()) == ps.last(),
    ensures
        strip_cr(joined(ps, sep)) == joined(ps, sep),
{
    let j = joined(ps, sep);
    if ps.len() > 1 {
        let a = joined(ps.drop_last(), sep).push(sep);
        assert(j == a + ps.last());
        if ps.last().len() == 0 {
            assert(j =~= a);
        } else {
            assert(j.last() == ps.last().last());
            if ps.last().last() == 13u8 {
                assert(strip_cr(ps.last()) != ps.last()) by {
                    assert(strip_cr(ps.last()).len() != ps.last().len());
                }
            }
        }
    }
}

/// Decimal texts are plain values.
proof fn lemma_int_text_plain(n: int)
    ensures
        plain_value(int_text(n)),
        int_text(n).len() > 0,
{
    let t = int_text(n);
    if n < 0 {
        lemma_nat_digits((-n) as nat);
        let d = nat_digits((-n) as nat);
        assert forall|i: int| 0 <= i < t.len() implies is_digit(#[trigger] t[i]) || t[i] == 45u8 by {
            if i > 0 {
                assert(t[i] == d[i - 1]);
            }
        }
    } else {
        lemma_nat_digits(n as nat);
    }
    assert(t[t.len() - 1] != 13u8) by {
        if n < 0 {
            let d = nat_digits((-n) as nat);
            assert(t[t.len() - 1] == d[d.len() - 1]);
        }
    }
}

/// A setting's value text is a plain value, and its line ends as a line of
/// the file can.
proof fn lemma_value_plain(s: SettingView)
    requires
        savable(s),
    ensures
        plain_value(value_text(s)),
{
    lemma_value_words();
    match s {
        SettingView::Color { components, .. } => {
            lemma_joined_free(components, 44u8, 58u8);
            lemma_joined_free(components, 44u8, 10u8);
            lemma_joined_end(components, 44u8);
        },
        SettingView::Number { .. } => {},
        SettingView::Flag { on, .. } => {
            lemma_word_plain(flag_text(on));
        },
        SettingView::Note { value, .. } => {
            lemma_int_text_plain(value as int);
        },
        SettingView::Bloom { mode } => {
            lemma_word_plain(bloom_mode_text(mode));
        },
    }
}

/// A setting's line splits at its colon into its key and value texts, and
/// holds no newline.
proof fn lemma_line_fields(s: SettingView)
    requires
        savable(s),
    ensures
        split_on(setting_line(s), 58u8) == seq![key_text(setting_key(s)), value_text(s)],
        free_of(setting_line(s), 10u8),
        strip_cr(setting_line(s)) == setting_line(s),
{
    let k = key_text(setting_key(s));
    let v = value_text(s);
    lemma_key_text_word(setting_key(s));
    lemma_word_plain(k);
    lemma_value_plain(s);
    lemma_split_free(k, 58u8);
    lemma_split_append_sep(k, 58u8);
    lemma_split_append_free(k.push(58u8), v, 58u8);
    assert(seq![k].push(Seq::<u8>::empty()).update(1, Seq::<u8>::empty() + v) =~= seq![k, v]);
    assert(Seq::<u8>::empty() + v =~= v);
    let line = setting_line(s);
    assert forall|i: int| 0 <= i < line.len() implies #[trigger] line[i] != 10u8 by {
        if i < k.len() {
            assert(line[i] == k[i]);
        } else if i > k.len() {
            assert(line[i] == v[i - k.len() - 1]);
        }
    }
    if v.len() == 0 {
        assert(line.last() == 58u8);
    } else {
        assert(line.last() == v.last());
    }
}

/// A setting's line reads back as that setting.
proof fn lemma_line_entry(s: SettingView)
    requires
        savable(s),
    ensures
        line_entry(setting_line(s)) == Some(EntryView::Setting(s)),
{
    lemma_line_fields(s);
    lemma_key_named(setting_key(s));
    lemma_value_words();
    match s {
        SettingView::Color { components, .. } => {
            lemma_split_joined(components, 44u8);
        },
        SettingView::Note { value, .. } => {
            lemma_parse_int_text(value as int, -128, 127);
        },
        _ => {},
    }
}

/// Settings saved to the file are read back unchanged: each line of the
/// saved text says the setting it was written for.
pub proof fn lemma_settings_round_trip(settings: Seq<SettingView>)
    requires
        forall|i: int| 0 <= i < settings.len() ==> savable(#[trigger] settings[i]),
    ensures
        text_entries(settings_text(settings)) == settings.map_values(
            |s: SettingView| Some(EntryView::Setting(s)),
        ),
{
    let ls = settings.map_values(|s: SettingView| setting_line(s));
    assert forall|i: int| 0 <= i < ls.len() implies free_of(#[trigger] ls[i], 10u8) by {
        lemma_line_fields(settings[i]);
    }
    lemma_split_terminated(ls, 10u8);
    let parts = split_on(settings_text(settings), 10u8);
    assert(parts.drop_last() =~= ls);
    assert(text_lines(settings_text(settings)) =~= ls) by {
        assert forall|i: int| 0 <= i < ls.len() implies strip_cr(ls[i]) == ls[i] by {
            lemma_line_fields(settings[i]);
        }
        assert(ls.map_values(|l: Seq<u8>| strip_cr(l)) =~= ls);
    }
    assert forall|i: int| 0 <= i < settings.len() implies line_entry(ls[i]) == Some(
        EntryView::Setting(settings[i]),
    ) by {
        lemma_line_entry(settings[i]);
    }
    assert(text_entries(settings_text(settings)) =~= settings.map_values(
        |s: SettingView| Some(EntryView::Setting(s)),
    ));
}

/// The values of all saved settings; fractional numbers and colour
/// components already written as text.
pub struct SavedValues {
    pub note_speed: Vec<u8>,
    pub starting_note: i8,
    pub ending_note: i8,
    pub enable_bloom: bool,
    pub bloom_intensity: Vec<u8>,
    pub note_width: Vec<u8>,
    pub sync_white_notes: bool,
    pub sync_black_notes: bool,
    pub sync_keyboard_active_color: bool,
    pub keyboard_height: Vec<u8>,
    pub show_keyboard: bool,
    pub white_top: Vec<Vec<u8>>,
    pub white_bottom: Vec<Vec<u8>>,
    pub black_top: Vec<Vec<u8>>,
    pub black_bottom: Vec<Vec<u8>>,
    pub keyboard_black: Vec<Vec<u8>>,
    pub keyboard_black_active: Vec<Vec<u8>>,
    pub keyboard_white: Vec<Vec<u8>>,
    pub keyboard_white_active: Vec<Vec<u8>>,
    pub keyboard_felt: Vec<Vec<u8>>,
    pub keyboard_filler: Vec<Vec<u8>>,
    pub background_color: Vec<Vec<u8>>,
    pub bloom_composite_mode: BloomMode,
}

/// The texts held by a list of colour components.
pub open spec fn components_view(c: Seq<Vec<u8>>) -> Seq<Seq<u8>> {
    c.map_values(|x: Vec<u8>| x@)
}

/// The settings file saves, in the order it saves them: the numbers and
/// switches first, then the eleven colours, then the bloom mode.
pub open spec fn saved_settings(v: SavedValues) -> Seq<SettingView> {
    seq![
        SettingView::Number { number: NumberSlot::NoteSpeed, text: v.note_speed@ },
        SettingView::Note { note: NoteSlot::StartingNote, value: v.starting_note },
        SettingView::Note { note: NoteSlot::EndingNote, value: v.ending_note },
        SettingView::Flag { flag: FlagSlot::EnableBloom, on: v.enable_bloom },
        SettingView::Number { number: NumberSlot::BloomIntensity, text: v.bloom_intensity@ },
        SettingView::Number { number: NumberSlot::NoteWidth, text: v.note_width@ },
        SettingView::Flag { flag: FlagSlot::SyncWhiteNotes, on: v.sync_white_notes },
        SettingView::Flag { flag: FlagSlot::SyncBlackNotes, on: v.sync_black_notes },
        SettingView::Flag { flag: FlagSlot::SyncKeyboardActiveColor, on: v.sync_keyboard_active_color },
        SettingView::Number { number: NumberSlot::KeyboardHeight, text: v.keyboard_height@ },
        SettingView::Flag { flag: FlagSlot::ShowKeyboard, on: v.show_keyboard },
        SettingView::Color { color: ColorSlot::WhiteTop, components: components_view(v.white_top@) },
        SettingView::Color { color: ColorSlot::WhiteBottom, components: components_view(v.white_bottom@) },
        SettingView::Color { color: ColorSlot::BlackTop, components: components_view(v.black_top@) },
        SettingView::Color { color: ColorSlot::BlackBottom, components: components_view(v.black_bottom@) },
        SettingView::Color { color: ColorSlot::KeyboardBlack, components: components_view(v.keyboard_black@) },
        SettingView::Color { color: ColorSlot::KeyboardBlackActive, components: components_view(v.keyboard_black_active@) },
        SettingView::Color { color: ColorSlot::KeyboardWhite, components: components_view(v.keyboard_white@) },
        SettingView::Color { color: ColorSlot::KeyboardWhiteActive, components: components_view(v.keyboard_white_active@) },
        SettingView::Color { color: ColorSlot::KeyboardFelt, components: components_view(v.keyboard_felt@) },
        SettingView::Color { color: ColorSlot::KeyboardFiller, components: components_view(v.keyboard_filler@) },
        SettingView::Color { color: ColorSlot::Background, components: components_view(v.background_color@) },
        SettingView::Bloom { mode: v.bloom_composite_mode },
    ]
}

/// The switch that each flag setting names.
pub open spec fn flag_field(v: SavedValues, flag: FlagSlot) -> bool {
    match flag {
        FlagSlot::EnableBloom => v.enable_bloom,
        FlagSlot::SyncWhiteNotes => v.sync_white_notes,
        FlagSlot::SyncBlackNotes => v.sync_black_notes,
        FlagSlot::SyncKeyboardActiveColor => v.sync_keyboard_active_color,
        FlagSlot::ShowKeyboard => v.show_keyboard,
    }
}

/// The note that each note setting names.
pub open spec fn note_field(v: SavedValues, note: NoteSlot) -> i8 {
    match note {
        NoteSlot::StartingNote => v.starting_note,
        NoteSlot::EndingNote => v.ending_note,
    }
}

/// The number text that each number setting names.
pub open spec fn number_field(v: SavedValues, number: NumberSlot) -> Seq<u8> {
    match number {
        NumberSlot::NoteSpeed => v.note_speed@,
        NumberSlot::BloomIntensity => v.bloom_intensity@,
        NumberSlot::NoteWidth => v.note_width@,
        NumberSlot::KeyboardHeight => v.keyboard_height@,
    }
}

/// The colour components that each colour setting names.
pub open spec fn color_field(v: SavedValues, color: ColorSlot) -> Seq<Vec<u8>> {
    match color {
        ColorSlot::WhiteTop => v.white_top@,
        ColorSlot::WhiteBottom => v.white_bottom@,
        ColorSlot::BlackTop => v.black_top@,
        ColorSlot::BlackBottom => v.black_bottom@,
        ColorSlot::KeyboardBlack => v.keyboard_black@,
        ColorSlot::KeyboardBlackActive => v.keyboard_black_active@,
        ColorSlot::KeyboardWhite => v.keyboard_white@,
        ColorSlot::KeyboardWhiteActive => v.keyboard_white_active@,
        ColorSlot::KeyboardFelt => v.keyboard_felt@,
        ColorSlot::KeyboardFiller => v.keyboard_filler@,
        ColorSlot::Background => v.background_color@,
    }
}

/// A saved setting carries the value of the field of its own name.
pub open spec fn carries_own_field(v: SavedValues, s: SettingView) -> bool {
    match s {
        SettingView::Color { color, components } => components == components_view(color_field(v, color)),
        SettingView::Number { number, text } => text == number_field(v, number),
        SettingView::Flag { flag, on } => on == flag_field(v, flag),
        SettingView::Note { note, value } => value == note_field(v, note),
        SettingView::Bloom { mode } => mode == v.bloom_composite_mode,
    }
}

/// The line of the settings file that holds each key.
pub open spec fn save_index(key: ConfigKey) -> int {
    match key {
        ConfigKey::Number(NumberSlot::NoteSpeed) => 0,
        ConfigKey::Note(NoteSlot::StartingNote) => 1,
        ConfigKey::Note(NoteSlot::EndingNote) => 2,
        ConfigKey::Flag(FlagSlot::EnableBloom) => 3,
        ConfigKey::Number(NumberSlot::BloomIntensity) => 4,
        ConfigKey::Number(NumberSlot::NoteWidth) => 5,
        ConfigKey::Flag(FlagSlot::SyncWhiteNotes) => 6,
        ConfigKey::Flag(FlagSlot::SyncBlackNotes) => 7,
        ConfigKey::Flag(FlagSlot::SyncKeyboardActiveColor) => 8,
        ConfigKey::Number(NumberSlot::KeyboardHeight) => 9,
        ConfigKey::Flag(FlagSlot::ShowKeyboard) => 10,
        ConfigKey::Color(ColorSlot::WhiteTop) => 11,
        ConfigKey::Color(ColorSlot::WhiteBottom) => 12,
        ConfigKey::Color(ColorSlot::BlackTop) => 13,
        ConfigKey::Color(ColorSlot::BlackBottom) => 14,
        ConfigKey::Color(ColorSlot::KeyboardBlack) => 15,
        ConfigKey::Color(ColorSlot::KeyboardBlackActive) => 16,
        ConfigKey::Color(ColorSlot::KeyboardWhite) => 17,
        ConfigKey::Color(ColorSlot::KeyboardWhiteActive) => 18,
        ConfigKey::Color(ColorSlot::KeyboardFelt) => 19,
        ConfigKey::Color(ColorSlot::KeyboardFiller) => 20,
        ConfigKey::Color(ColorSlot::Background) => 21,
        ConfigKey::BloomCompositeMode => 22,
    }
}

/// Every key is saved exactly once, at its own line, and every saved
/// setting carries the value of the field of its own name: the bloom
/// switch the bloom field, each colour its own colour, and so on.
pub proof fn lemma_saved_settings_by_name(v: SavedValues)
    ensures
        saved_settings(v).len() == 23,
        forall|i: int| 0 <= i < 23 ==> carries_own_field(v, #[trigger] saved_settings(v)[i]),
        forall|i: int| 0 <= i < 23 ==> save_index(setting_key(#[trigger] saved_settings(v)[i])) == i,
        forall|key: ConfigKey| 0 <= #[trigger] save_index(key) < 23 && setting_key(
            saved_settings(v)[save_index(key)],
        ) == key,
{
    let ss = saved_settings(v);
    assert forall|i: int| 0 <= i < 23 implies carries_own_field(v, #[trigger] ss[i]) && save_index(
        setting_key(ss[i]),
    ) == i by {}
    assert forall|key: ConfigKey| 0 <= #[trigger] save_index(key) < 23 && setting_key(
        ss[save_index(key)],
    ) == key by {
        match key {
            ConfigKey::Color(c) => {
                match c {
                    ColorSlot::WhiteTop => {},
                    ColorSlot::WhiteBottom => {},
                    ColorSlot::BlackTop => {},
                    ColorSlot::BlackBottom => {},
                    ColorSlot::KeyboardBlack => {},
                    ColorSlot::KeyboardBlackActive => {},
                    ColorSlot::KeyboardWhite => {},
                    ColorSlot::KeyboardWhiteActive => {},
                    ColorSlot::KeyboardFelt => {},
                    ColorSlot::KeyboardFiller => {},
                    ColorSlot::Background => {},
                }
            },
            ConfigKey::Number(n) => {
                match n {
                    NumberSlot::NoteSpeed => {},
                    NumberSlot::BloomIntensity => {},
                    NumberSlot::NoteWidth => {},
                    NumberSlot::KeyboardHeight => {},
                }
            },
            ConfigKey::Flag(f) => {
                match f {
                    FlagSlot::EnableBloom => {},
                    FlagSlot::SyncWhiteNotes => {},
                    FlagSlot::SyncBlackNotes => {},
                    FlagSlot::SyncKeyboardActiveColor => {},
                    FlagSlot::ShowKeyboard => {},
                }
            },
            ConfigKey::Note(n) => {
                match n {
                    NoteSlot::StartingNote => {},
                    NoteSlot::EndingNote => {},
                }
            },
            ConfigKey::BloomCompositeMode => {},
        }
    }
}

/// The settings to save, in the order the file holds them.
pub fn save_settings(values: SavedValues) -> (settings: Vec<Setting>)
    ensures
        settings@.map_values(|s: Setting| s@) == saved_settings(values),
        settings@.len() == 23,
        forall|i: int| 0 <= i < 23 ==> carries_own_field(values, #[trigger] settings@[i]@),
        forall|i: int| 0 <= i < 23 ==> save_index(setting_key(#[trigger] settings@[i]@)) == i,
        forall|key: ConfigKey| 0 <= #[trigger] save_index(key) < 23 && setting_key(
            settings@[save_index(key)]@,
        ) == key,
{
    let ghost v = values;
    let mut settings: Vec<Setting> = Vec::new();
    settings.push(Setting::Number { number: NumberSlot::NoteSpeed, text: values.note_speed });
    settings.push(Setting::Note { note: NoteSlot::StartingNote, value: values.starting_note });
    settings.push(Setting::Note { note: NoteSlot::EndingNote, value: values.ending_note });
    settings.push(Setting::Flag { flag: FlagSlot::EnableBloom, on: values.enable_bloom });
    settings.push(Setting::Number { number: NumberSlot::BloomIntensity, text: values.bloom_intensity });
    settings.push(Setting::Number { number: NumberSlot::NoteWidth, text: values.note_width });
    settings.push(Setting::Flag { flag: FlagSlot::SyncWhiteNotes, on: values.sync_white_notes });
    settings.push(Setting::Flag { flag: FlagSlot::SyncBlackNotes, on: values.sync_black_notes });
    settings.push(Setting::Flag { flag: FlagSlot::SyncKeyboardActiveColor, on: values.sync_keyboard_active_color });
    settings.push(Setting::Number { number: NumberSlot::KeyboardHeight, text: values.keyboard_height });
    settings.push(Setting::Flag { flag: FlagSlot::ShowKeyboard, on: values.show_keyboard });
    settings.push(Setting::Color { color: ColorSlot::WhiteTop, components: values.white_top });
    settings.push(Setting::Color { color: ColorSlot::WhiteBottom, components: values.white_bottom });
    settings.push(Setting::Color { color: ColorSlot::BlackTop, components: values.black_top });
    settings.push(Setting::Color { color: ColorSlot::BlackBottom, components: values.black_bottom });
    settings.push(Setting::Color { color: ColorSlot::KeyboardBlack, components: values.keyboard_black });
    settings.push(Setting::Color { color: ColorSlot::KeyboardBlackActive, components: values.keyboard_black_active });
    settings.push(Setting::Color { color: ColorSlot::KeyboardWhite, components: values.keyboard_white });
    settings.push(Setting::Color { color: ColorSlot::KeyboardWhiteActive, components: values.keyboard_white_active });
    settings.push(Setting::Color { color: ColorSlot::KeyboardFelt, components: values.keyboard_felt });
    settings.push(Setting::Color { color: ColorSlot::KeyboardFiller, components: values.keyboard_filler });
    settings.push(Setting::Color { color: ColorSlot::Background, components: values.background_color });
    settings.push(Setting::Bloom { mode: values.bloom_composite_mode });
    assert(settings@.map_values(|s: Setting| s@) =~= saved_settings(v));
    proof {
        lemma_saved_settings_by_name(v);
        let views = settings@.map_values(|s: Setting| s@);
        assert forall|i: int| 0 <= i < 23 implies settings@[i]@ == saved_settings(v)[i] by {
            assert(views[i] == settings@[i]@);
        }
        assert forall|key: ConfigKey| 0 <= #[trigger] save_index(key) < 23 implies setting_key(
            settings@[save_index(key)]@,
        ) == key by {
            assert(settings@[save_index(key)]@ == saved_settings(v)[save_index(key)]);
        }
    }
    settings
}

/// Colour components that the file stores and reads back unchanged.
pub open spec fn plain_color(components: Seq<Seq<u8>>) -> bool {
    savable(SettingView::Color { color: ColorSlot::WhiteTop, components })
}

/// Saved settings whose number texts and colour components are plain values
/// load back as saved.
pub proof fn lemma_saved_settings_round_trip(v: SavedValues)
    requires
        plain_value(v.note_speed@),
        plain_value(v.bloom_intensity@),
        plain_value(v.note_width@),
        plain_value(v.keyboard_height@),
        plain_color(components_view(v.white_top@)),
        plain_color(components_view(v.white_bottom@)),
        plain_color(components_view(v.black_top@)),
        plain_color(components_view(v.black_bottom@)),
        plain_color(components_view(v.keyboard_black@)),
        plain_color(components_view(v.keyboard_black_active@)),
        plain_color(components_view(v.keyboard_white@)),
        plain_color(components_view(v.keyboard_white_active@)),
        plain_color(components_view(v.keyboard_felt@)),
        plain_color(components_view(v.keyboard_filler@)),
        plain_color(components_view(v.background_color@)),
    ensures
        text_entries(settings_text(saved_settings(v))) == saved_settings(v).map_values(
            |s: SettingView| Some(EntryView::Setting(s)),
        ),
{
    let ss = saved_settings(v);
    assert forall|i: int| 0 <= i < ss.len() implies savable(#[trigger] ss[i]) by {}
    lemma_settings_round_trip(ss);
}

} // verus!
