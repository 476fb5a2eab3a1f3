use piano_flow::midi_flow::{
    is_debug_mode, parse_port_choice, port_without_prompt, MidiAction, MidiFlow, PortError,
};

fn args(list: &[&str]) -> Vec<String> {
    list.iter().map(|s| s.to_string()).collect()
}

#[test]
fn debug_mode_needs_debug_or_d() {
    assert!(is_debug_mode(&args(&["debug"])));
    assert!(is_debug_mode(&args(&["x", "d"])));
    assert!(!is_debug_mode(&args(&["dd", "Debug", "-d"])));
    assert!(!is_debug_mode(&args(&[])));
}

#[test]
fn a_new_handler_whitelists_note_messages() {
    let flow = MidiFlow::new(&args(&["d"]));
    assert!(flow.is_debug);
    assert_eq!(flow.whitelist, vec![128, 144]);
    assert!(flow.active_notes.is_empty());
}

#[test]
fn note_on_and_off_toggle_the_note() {
    let mut flow = MidiFlow::new(&args(&[]));
    assert_eq!(flow.handle_message(&[144, 60, 100]), MidiAction::Message { echo: false, toggled: true });
    assert_eq!(flow.active_notes, vec![60]);
    assert_eq!(flow.handle_message(&[144, 64, 90]), MidiAction::Message { echo: false, toggled: true });
    assert_eq!(flow.handle_message(&[128, 60, 0]), MidiAction::Message { echo: false, toggled: true });
    assert_eq!(flow.active_notes, vec![64]);
}

#[test]
fn other_statuses_are_only_echoed() {
    let mut flow = MidiFlow::new(&args(&["debug"]));
    assert_eq!(flow.handle_message(&[176, 7, 100]), MidiAction::Message { echo: true, toggled: false });
    assert!(flow.active_notes.is_empty());
}

#[test]
fn a_second_byte_of_one_shows_the_board() {
    let mut flow = MidiFlow::new(&args(&[]));
    flow.handle_message(&[144, 60, 100]);
    assert_eq!(flow.handle_message(&[144, 1, 5]), MidiAction::Board);
    assert_eq!(flow.active_notes, vec![60]);
}

#[test]
fn messages_of_other_lengths_are_skipped() {
    let mut flow = MidiFlow::new(&args(&[]));
    assert_eq!(flow.handle_message(&[144, 60]), MidiAction::Skip);
    assert_eq!(flow.handle_message(&[144, 60, 100, 1]), MidiAction::Skip);
    assert_eq!(flow.handle_message(&[]), MidiAction::Skip);
    assert!(flow.active_notes.is_empty());
}

#[test]
fn ports_are_asked_for_only_when_there_are_several() {
    assert_eq!(port_without_prompt(0), Err(PortError::NoPorts));
    assert_eq!(port_without_prompt(1), Ok(Some(0)));
    assert_eq!(port_without_prompt(5), Ok(None));
}

#[test]
fn a_port_answer_is_a_trimmed_number() {
    assert_eq!(parse_port_choice(3, " 2\n"), Ok(2));
    assert_eq!(parse_port_choice(3, "+0"), Ok(0));
    assert_eq!(parse_port_choice(3, "\u{3000}1\u{2028}"), Ok(1));
    assert_eq!(parse_port_choice(3, "\u{a0}\t1\r\n"), Ok(1));
}

#[test]
fn a_port_answer_must_name_a_port() {
    assert_eq!(parse_port_choice(3, "3"), Err(PortError::NoSuchPort));
    assert_eq!(parse_port_choice(0, "0"), Err(PortError::NoSuchPort));
}

#[test]
fn a_port_answer_must_be_a_number() {
    assert_eq!(parse_port_choice(3, "x"), Err(PortError::NotANumber));
    assert_eq!(parse_port_choice(3, ""), Err(PortError::NotANumber));
    assert_eq!(parse_port_choice(3, "   "), Err(PortError::NotANumber));
    assert_eq!(parse_port_choice(3, "-1"), Err(PortError::NotANumber));
    assert_eq!(parse_port_choice(3, "+"), Err(PortError::NotANumber));
    assert_eq!(parse_port_choice(3, "1 2"), Err(PortError::NotANumber));
    assert_eq!(parse_port_choice(3, "99999999999999999999999"), Err(PortError::NotANumber));
}

#[test]
fn port_answers_agree_with_std_parsing() {
    for answer in [" 1", "+2", "x", "", "-0", "\u{85}0", "\u{200b}1", "01", "2\u{feff}"] {
        let expected = match answer.trim().parse::<usize>() {
            Ok(i) if i < 3 => Ok(i),
            Ok(_) => Err(PortError::NoSuchPort),
            Err(_) => Err(PortError::NotANumber),
        };
        assert_eq!(parse_port_choice(3, answer), expected, "answer {:?}", answer);
    }
}

#[test]
fn a_stream_of_messages_leaves_the_toggled_notes_in_the_file() {
    let mut flow = MidiFlow::new(&args(&[]));
    let mut file = Vec::new();
    let messages: Vec<Vec<u8>> = vec![
        vec![144, 60, 100],
        vec![144, 64, 100],
        vec![176, 64, 127],
        vec![128, 60, 0],
        vec![144, 67],
        vec![144, 67, 90],
        vec![144, 1, 0],
    ];
    for m in &messages {
        match flow.handle_message(m) {
            MidiAction::Message { toggled: true, .. } | MidiAction::Board => {
                file = piano_flow::format_notes(&flow.active_notes);
            }
            _ => {}
        }
    }
    assert_eq!(file, b"64\n67\n".to_vec());
    assert_eq!(piano_flow::parse_notes(&file), Some(vec![64, 67]));
}
