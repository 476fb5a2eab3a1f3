use piano_flow::placement::{count_whites, note_placement, NotePlacemnt};

fn filled() -> NotePlacemnt {
    let mut p = NotePlacemnt::new();
    note_placement(&mut p);
    p
}

#[test]
fn an_empty_layout_has_no_position() {
    let p = NotePlacemnt::new();
    assert_eq!(p.note_position(60), None);
    assert!(p.blacks.is_empty());
    assert!(p.blacks2.is_empty());
}

#[test]
fn positions_count_half_key_widths() {
    let p = filled();
    assert_eq!(p.note_position(0), Some(0));
    assert_eq!(p.note_position(1), Some(1));
    assert_eq!(p.note_position(2), Some(2));
    assert_eq!(p.note_position(12), Some(14));
    assert_eq!(p.note_position(60), Some(70));
    assert_eq!(p.note_position(61), Some(71));
    assert_eq!(p.note_position(119), Some(138));
}

#[test]
fn positions_outside_the_table_are_missing() {
    let p = filled();
    assert_eq!(p.note_position(120), None);
    assert_eq!(p.note_position(-1), None);
    assert_eq!(p.note_position(200), None);
}

#[test]
fn positions_take_the_note_as_a_byte() {
    let p = filled();
    assert_eq!(p.note_position(256 + 60), Some(70));
}

#[test]
fn positions_grow_along_the_keyboard() {
    let p = filled();
    for n in 0..119 {
        assert!(p.note_position(n).unwrap() < p.note_position(n + 1).unwrap());
    }
}

#[test]
fn black_keys_stand_at_half_steps() {
    let p = filled();
    for n in 0..120 {
        assert_eq!(p.note_position(n).unwrap() % 2 != 0, p.is_black(n), "note {}", n);
    }
}

#[test]
fn black_notes_are_listed_in_order() {
    let p = filled();
    assert_eq!(p.blacks.len(), 50);
    assert_eq!(&p.blacks[..6], &[1, 3, 6, 8, 10, 13]);
    assert_eq!(*p.blacks.last().unwrap(), 118);
    assert!(p.is_black(61));
    assert!(!p.is_black(60));
}

#[test]
fn raised_black_notes_follow_a_leading_one() {
    let p = filled();
    assert_eq!(p.blacks2.len(), 38);
    assert_eq!(&p.blacks2[..6], &[1, 4, 6, 9, 11, 13]);
    assert_eq!(*p.blacks2.last().unwrap(), 90);
}

#[test]
fn filling_keeps_other_entries() {
    let mut p = filled();
    note_placement(&mut p);
    assert_eq!(p.note_position(60), Some(70));
    assert_eq!(p.blacks.len(), 50);
}

#[test]
fn a_piano_has_fifty_two_white_keys() {
    let p = filled();
    assert_eq!(count_whites(21, 109, &p.blacks), 52);
    assert_eq!(count_whites(21, 60, &p.blacks), 23);
    assert_eq!(count_whites(60, 73, &p.blacks), 8);
}

#[test]
fn counting_an_empty_range_gives_zero() {
    let p = filled();
    assert_eq!(count_whites(21, 21, &p.blacks), 0);
    assert_eq!(count_whites(60, 21, &p.blacks), 0);
}

#[test]
fn counting_adds_up_over_adjacent_ranges() {
    let p = filled();
    let a = count_whites(21, 50, &p.blacks);
    let b = count_whites(50, 100, &p.blacks);
    assert_eq!(a + b, count_whites(21, 100, &p.blacks));
}

#[test]
fn counting_without_black_list_counts_every_note() {
    assert_eq!(count_whites(-128, 127, &vec![]), 255);
}
