use piano_flow::config::{
    format_config, parse_config_line, BloomMode, ColorSlot, ConfigEntry, FlagSlot, NoteSlot,
    NumberSlot, Setting,
};
use piano_flow::text::lines_of;

fn sample() -> Vec<Setting> {
    vec![
        Setting::Number { number: NumberSlot::NoteSpeed, text: b"150".to_vec() },
        Setting::Note { note: NoteSlot::StartingNote, value: 21 },
        Setting::Note { note: NoteSlot::EndingNote, value: -3 },
        Setting::Flag { flag: FlagSlot::EnableBloom, on: false },
        Setting::Flag { flag: FlagSlot::ShowKeyboard, on: true },
        Setting::Color {
            color: ColorSlot::WhiteTop,
            components: vec![b"1".to_vec(), b"0.5".to_vec(), b"0".to_vec(), b"1".to_vec()],
        },
        Setting::Bloom { mode: BloomMode::EnergyConserving },
        Setting::Bloom { mode: BloomMode::Additive },
    ]
}

#[test]
fn settings_are_written_one_per_line() {
    let text = format_config(&sample());
    assert_eq!(
        String::from_utf8(text).unwrap(),
        "note_speed:150\nstarting_note:21\nending_note:-3\nenable_bloom:false\nshow_keyboard:true\n\
         white_top:1,0.5,0,1\nbloom_composite_mode:efficent\nbloom_composite_mode:additive\n"
    );
}

#[test]
fn every_key_is_written_by_its_name() {
    let settings = vec![
        Setting::Color { color: ColorSlot::WhiteBottom, components: vec![b"1".to_vec()] },
        Setting::Color { color: ColorSlot::BlackTop, components: vec![b"1".to_vec()] },
        Setting::Color { color: ColorSlot::BlackBottom, components: vec![b"1".to_vec()] },
        Setting::Color { color: ColorSlot::KeyboardBlack, components: vec![b"1".to_vec()] },
        Setting::Color { color: ColorSlot::KeyboardBlackActive, components: vec![b"1".to_vec()] },
        Setting::Color { color: ColorSlot::KeyboardWhite, components: vec![b"1".to_vec()] },
        Setting::Color { color: ColorSlot::KeyboardWhiteActive, components: vec![b"1".to_vec()] },
        Setting::Color { color: ColorSlot::KeyboardFelt, components: vec![b"1".to_vec()] },
        Setting::Color { color: ColorSlot::KeyboardFiller, components: vec![b"1".to_vec()] },
        Setting::Color { color: ColorSlot::Background, components: vec![b"1".to_vec()] },
        Setting::Number { number: NumberSlot::BloomIntensity, text: b"1".to_vec() },
        Setting::Number { number: NumberSlot::NoteWidth, text: b"1".to_vec() },
        Setting::Number { number: NumberSlot::KeyboardHeight, text: b"1".to_vec() },
        Setting::Flag { flag: FlagSlot::SyncWhiteNotes, on: true },
        Setting::Flag { flag: FlagSlot::SyncBlackNotes, on: true },
        Setting::Flag { flag: FlagSlot::SyncKeyboardActiveColor, on: true },
    ];
    let text = String::from_utf8(format_config(&settings)).unwrap();
    let keys: Vec<&str> = text.lines().map(|l| l.split(':').next().unwrap()).collect();
    assert_eq!(
        keys,
        vec![
            "white_bottom", "black_top", "black_bottom", "keyboard_black", "keyboard_black_active",
            "keyboard_white", "keyboard_white_active", "keyboard_felt", "keyboard_filler",
            "background_color", "bloom_intensity", "note_width", "keyboard_height",
            "sync_white_notes", "sync_black_notes", "sync_keyboard_active_color",
        ]
    );
    for line in lines_of(text.as_bytes()) {
        let parsed = parse_config_line(&line).unwrap();
        assert!(matches!(parsed.entry, ConfigEntry::Setting(_)));
    }
}

#[test]
fn saved_settings_load_back() {
    let settings = sample();
    let text = format_config(&settings);
    let lines = lines_of(&text);
    assert_eq!(lines.len(), settings.len());
    let entries: Vec<ConfigEntry> = lines.iter().map(|l| parse_config_line(l).unwrap().entry).collect();
    assert!(matches!(&entries[0], ConfigEntry::Setting(Setting::Number { number: NumberSlot::NoteSpeed, text }) if text == b"150"));
    assert!(matches!(&entries[1], ConfigEntry::Setting(Setting::Note { note: NoteSlot::StartingNote, value: 21 })));
    assert!(matches!(&entries[2], ConfigEntry::Setting(Setting::Note { note: NoteSlot::EndingNote, value: -3 })));
    assert!(matches!(&entries[3], ConfigEntry::Setting(Setting::Flag { flag: FlagSlot::EnableBloom, on: false })));
    assert!(matches!(&entries[4], ConfigEntry::Setting(Setting::Flag { flag: FlagSlot::ShowKeyboard, on: true })));
    match &entries[5] {
        ConfigEntry::Setting(Setting::Color { color: ColorSlot::WhiteTop, components }) => {
            assert_eq!(components, &vec![b"1".to_vec(), b"0.5".to_vec(), b"0".to_vec(), b"1".to_vec()]);
        },
        _ => panic!("expected a colour"),
    }
    assert!(matches!(&entries[6], ConfigEntry::Setting(Setting::Bloom { mode: BloomMode::EnergyConserving })));
    assert!(matches!(&entries[7], ConfigEntry::Setting(Setting::Bloom { mode: BloomMode::Additive })));
}

#[test]
fn a_line_keeps_its_key_and_value_texts() {
    let line = parse_config_line(b"note_speed:1:2").unwrap();
    assert_eq!(line.key, b"note_speed".to_vec());
    assert_eq!(line.value, b"1".to_vec());
    assert!(matches!(line.entry, ConfigEntry::Setting(Setting::Number { number: NumberSlot::NoteSpeed, ref text }) if text == b"1"));
}

#[test]
fn colour_components_are_split_at_commas() {
    let line = parse_config_line(b"keyboard_felt:0.5,x,,1").unwrap();
    match line.entry {
        ConfigEntry::Setting(Setting::Color { color: ColorSlot::KeyboardFelt, components }) => {
            assert_eq!(components, vec![b"0.5".to_vec(), b"x".to_vec(), b"".to_vec(), b"1".to_vec()]);
        },
        _ => panic!("expected a colour"),
    }
}

#[test]
fn unknown_keys_are_reported() {
    let line = parse_config_line(b"foo:bar").unwrap();
    assert!(matches!(line.entry, ConfigEntry::UnknownKey));
    assert_eq!(line.key, b"foo".to_vec());
    assert_eq!(line.value, b"bar".to_vec());
    assert!(matches!(parse_config_line(b"Note_speed:1").unwrap().entry, ConfigEntry::UnknownKey));
}

#[test]
fn unknown_bloom_modes_are_reported() {
    assert!(matches!(parse_config_line(b"bloom_composite_mode:fast").unwrap().entry, ConfigEntry::BadBloomMode));
    assert!(matches!(parse_config_line(b"bloom_composite_mode:").unwrap().entry, ConfigEntry::BadBloomMode));
}

#[test]
fn lines_without_colon_are_refused() {
    assert!(parse_config_line(b"note_speed").is_none());
    assert!(parse_config_line(b"").is_none());
}

#[test]
fn flags_must_be_true_or_false() {
    assert!(parse_config_line(b"enable_bloom:yes").is_none());
    assert!(parse_config_line(b"enable_bloom:True").is_none());
    assert!(matches!(parse_config_line(b"enable_bloom:true").unwrap().entry, ConfigEntry::Setting(Setting::Flag { flag: FlagSlot::EnableBloom, on: true })));
}

#[test]
fn notes_must_fit_a_byte() {
    assert!(parse_config_line(b"starting_note:200").is_none());
    assert!(parse_config_line(b"starting_note:abc").is_none());
    assert!(matches!(parse_config_line(b"ending_note:-128").unwrap().entry, ConfigEntry::Setting(Setting::Note { note: NoteSlot::EndingNote, value: -128 })));
    assert!(matches!(parse_config_line(b"ending_note:+127").unwrap().entry, ConfigEntry::Setting(Setting::Note { note: NoteSlot::EndingNote, value: 127 })));
}

#[test]
fn lines_follow_str_lines() {
    for text in ["a\r\nb\n\nc", "x\r", "", "\n", "a\n", "\r\n\r\n", "k:v\r\r\n"] {
        let ours: Vec<Vec<u8>> = lines_of(text.as_bytes());
        let std: Vec<Vec<u8>> = text.lines().map(|l| l.as_bytes().to_vec()).collect();
        assert_eq!(ours, std, "text {:?}", text);
    }
}

fn values() -> piano_flow::config::SavedValues {
    let c = |x: &str| vec![x.as_bytes().to_vec(); 4];
    piano_flow::config::SavedValues {
        note_speed: b"150".to_vec(),
        starting_note: 21,
        ending_note: 108,
        enable_bloom: false,
        bloom_intensity: b"0.5".to_vec(),
        note_width: b"15".to_vec(),
        sync_white_notes: true,
        sync_black_notes: true,
        sync_keyboard_active_color: false,
        keyboard_height: b"200".to_vec(),
        show_keyboard: true,
        white_top: c("1"),
        white_bottom: c("1"),
        black_top: c("0.2"),
        black_bottom: c("0.2"),
        keyboard_black: c("0.3"),
        keyboard_black_active: c("0.5"),
        keyboard_white: c("1"),
        keyboard_white_active: c("0.7"),
        keyboard_felt: c("0.9"),
        keyboard_filler: c("0"),
        background_color: c("0"),
        bloom_composite_mode: BloomMode::EnergyConserving,
    }
}

#[test]
fn settings_are_saved_in_file_order() {
    let text = String::from_utf8(format_config(&piano_flow::config::save_settings(values()))).unwrap();
    assert_eq!(
        text,
        "note_speed:150\nstarting_note:21\nending_note:108\nenable_bloom:false\nbloom_intensity:0.5\n\
         note_width:15\nsync_white_notes:true\nsync_black_notes:true\nsync_keyboard_active_color:false\n\
         keyboard_height:200\nshow_keyboard:true\nwhite_top:1,1,1,1\nwhite_bottom:1,1,1,1\n\
         black_top:0.2,0.2,0.2,0.2\nblack_bottom:0.2,0.2,0.2,0.2\nkeyboard_black:0.3,0.3,0.3,0.3\n\
         keyboard_black_active:0.5,0.5,0.5,0.5\nkeyboard_white:1,1,1,1\nkeyboard_white_active:0.7,0.7,0.7,0.7\n\
         keyboard_felt:0.9,0.9,0.9,0.9\nkeyboard_filler:0,0,0,0\nbackground_color:0,0,0,0\n\
         bloom_composite_mode:efficent\n"
    );
}

#[test]
fn saved_settings_all_load_back() {
    let text = format_config(&piano_flow::config::save_settings(values()));
    let lines = lines_of(&text);
    assert_eq!(lines.len(), 23);
    for line in lines {
        assert!(matches!(parse_config_line(&line).unwrap().entry, ConfigEntry::Setting(_)));
    }
}
