use piano_flow::notes::{board_line, format_notes, handle_note, parse_notes, ActiveNotes};

#[test]
fn pressing_a_free_note_appends_it() {
    let mut held = vec![60, 64];
    handle_note(67, &mut held);
    assert_eq!(held, vec![60, 64, 67]);
}

#[test]
fn striking_a_held_note_releases_it() {
    let mut held = vec![60, 64, 67];
    handle_note(64, &mut held);
    assert_eq!(held, vec![60, 67]);
}

#[test]
fn striking_removes_only_the_first_copy() {
    let mut held = vec![5, 7, 5];
    handle_note(5, &mut held);
    assert_eq!(held, vec![7, 5]);
}

#[test]
fn press_then_release_restores_the_list() {
    let mut held = vec![60, 62];
    handle_note(70, &mut held);
    handle_note(70, &mut held);
    assert_eq!(held, vec![60, 62]);
}

#[test]
fn release_then_press_keeps_the_same_notes() {
    let mut held = vec![60, 62, 64];
    handle_note(62, &mut held);
    handle_note(62, &mut held);
    assert_eq!(held, vec![60, 64, 62]);
}

#[test]
fn active_notes_start_empty() {
    assert!(ActiveNotes::new().active_notes.is_empty());
}

#[test]
fn notes_text_has_one_line_per_note() {
    assert_eq!(format_notes(&vec![60, -5, 0, 108]), b"60\n-5\n0\n108\n".to_vec());
    assert_eq!(format_notes(&vec![]), Vec::<u8>::new());
    assert_eq!(format_notes(&vec![i32::MIN, i32::MAX]), b"-2147483648\n2147483647\n".to_vec());
}

#[test]
fn notes_text_reads_back() {
    let notes = vec![21, 60, -1, 108, i32::MIN, i32::MAX];
    assert_eq!(parse_notes(&format_notes(&notes)), Some(notes));
}

#[test]
fn empty_notes_text_holds_no_note() {
    assert_eq!(parse_notes(b""), Some(vec![]));
    assert_eq!(parse_notes(b"\n"), None);
}

#[test]
fn notes_text_without_final_newline_loses_its_last_line() {
    assert_eq!(parse_notes(b"60\n61"), Some(vec![60]));
}

#[test]
fn notes_text_accepts_signs() {
    assert_eq!(parse_notes(b"+7\n-0\n"), Some(vec![7, 0]));
}

#[test]
fn notes_text_rejects_bad_lines() {
    assert_eq!(parse_notes(b"60\nx\n"), None);
    assert_eq!(parse_notes(b"2147483648\n"), None);
    assert_eq!(parse_notes(b"-2147483649\n"), None);
    assert_eq!(parse_notes(b"5\r\n"), None);
    assert_eq!(parse_notes(b"-\n"), None);
    assert_eq!(parse_notes(b" 5\n"), None);
}

#[test]
fn board_marks_held_keys() {
    let line = board_line(&vec![21, 60, 108, 20, 109]);
    assert_eq!(line.len(), 88);
    for (k, b) in line.iter().enumerate() {
        let expected = if k == 0 || k == 39 || k == 87 { b'X' } else { b' ' };
        assert_eq!(*b, expected, "column {}", k);
    }
}

#[test]
fn board_of_no_note_is_blank() {
    assert_eq!(board_line(&vec![]), vec![b' '; 88]);
}
