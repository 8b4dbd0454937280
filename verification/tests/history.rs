use team_life::automaton::step;
use team_life::history::History;

fn patterns(texts: &[&str]) -> Vec<Vec<u8>> {
    texts.iter().map(|t| t.as_bytes().to_vec()).collect()
}

#[test]
fn new_round_is_empty() {
    let h = History::new(4, 3).unwrap();
    assert_eq!(h.side(), 4);
    assert_eq!(h.steps(), 3);
    assert_eq!(h.area(), 16);
    for i in 0..3 {
        assert_eq!(h.frame(i), &[0u8; 16][..]);
    }
}

#[test]
fn new_refuses_a_round_without_frames() {
    assert!(History::new(4, 0).is_none());
    assert!(History::new(0, 0).is_none());
    assert!(History::new(0, 1).is_some());
}

#[test]
fn new_refuses_a_round_that_cannot_be_allocated() {
    assert!(History::new(usize::MAX, 1).is_none());
    assert!(History::new(1 << 20, usize::MAX).is_none());
    assert!(History::new(2, usize::MAX / 2).is_none());
    assert!(History::new(1, usize::MAX).is_none());
}

#[test]
fn seed_puts_each_slot_in_its_corner() {
    let mut h = History::new(4, 1).unwrap();
    h.seed(&patterns(&["1000", "1000", "1000", "1000"]));
    assert_eq!(h.frame(0), &[1, 0, 0, 2, 0, 0, 0, 0, 0, 0, 0, 0, 3, 0, 0, 4][..]);
}

#[test]
fn seed_mirrors_columns_on_the_right() {
    let mut h = History::new(4, 1).unwrap();
    h.seed(&patterns(&["0100", "0100", "0100", "0100"]));
    assert_eq!(h.frame(0), &[0, 1, 2, 0, 0, 0, 0, 0, 0, 0, 0, 0, 0, 3, 4, 0][..]);
}

#[test]
fn seed_mirrors_rows_at_the_bottom() {
    let mut h = History::new(4, 1).unwrap();
    h.seed(&patterns(&["0010", "0010", "0010", "0010"]));
    assert_eq!(h.frame(0), &[0, 0, 0, 0, 1, 0, 0, 2, 3, 0, 0, 4, 0, 0, 0, 0][..]);
}

#[test]
fn seed_takes_every_character_but_zero_as_live() {
    let mut h = History::new(4, 1).unwrap();
    h.seed(&patterns(&["x0#1", "0000", " 000", "\u{1}000"]));
    assert_eq!(h.frame(0), &[1, 0, 0, 0, 1, 1, 0, 0, 0, 0, 0, 0, 3, 0, 0, 4][..]);
}

#[test]
fn seed_leaves_the_corner_of_a_missing_slot_empty() {
    let mut h = History::new(4, 1).unwrap();
    h.seed(&patterns(&["1111", "1111"]));
    assert_eq!(h.frame(0), &[1, 1, 2, 2, 1, 1, 2, 2, 0, 0, 0, 0, 0, 0, 0, 0][..]);
    h.seed(&patterns(&[]));
    assert_eq!(h.frame(0), &[0u8; 16][..]);
}

#[test]
fn seed_ignores_patterns_past_the_fourth() {
    let mut h = History::new(2, 1).unwrap();
    h.seed(&patterns(&["1", "1", "1", "1", "1", "1"]));
    assert_eq!(h.frame(0), &[1, 2, 3, 4][..]);
}

#[test]
fn seed_leaves_the_middle_of_an_odd_board_empty() {
    let mut h = History::new(5, 1).unwrap();
    h.seed(&patterns(&["1111", "1111", "1111", "1111"]));
    assert_eq!(
        h.frame(0),
        &[1, 1, 0, 2, 2, 1, 1, 0, 2, 2, 0, 0, 0, 0, 0, 3, 3, 0, 4, 4, 3, 3, 0, 4, 4][..]
    );
}

#[test]
fn seed_overwrites_what_the_first_frame_held() {
    let mut h = History::new(4, 2).unwrap();
    h.seed(&patterns(&["1111", "1111", "1111", "1111"]));
    h.compute_round();
    let second = h.frame(1).to_vec();
    h.seed(&patterns(&["0000", "0001", "0000", "0000"]));
    assert_eq!(h.frame(0), &[0, 0, 0, 0, 0, 0, 2, 0, 0, 0, 0, 0, 0, 0, 0, 0][..]);
    assert_eq!(h.frame(1), &second[..]);
}

#[test]
fn quadrant_reads_back_what_was_seeded() {
    let texts = ["100101101", "010011000", "111000111", "000010001"];
    let mut h = History::new(6, 1).unwrap();
    h.seed(&patterns(&texts));
    for slot in 0..4 {
        let cells = h.quadrant(0, slot);
        assert_eq!(cells.len(), 9);
        for (k, c) in texts[slot].bytes().enumerate() {
            let expected = if c == b'0' { 0 } else { slot as u8 + 1 };
            assert_eq!(cells[k], expected);
        }
    }
}

#[test]
fn quadrant_of_slot_three_is_turned_round() {
    let mut h = History::new(4, 1).unwrap();
    h.seed(&patterns(&["0000", "0000", "0000", "1100"]));
    assert_eq!(h.frame(0), &[0, 0, 0, 0, 0, 0, 0, 0, 0, 0, 0, 0, 0, 0, 4, 4][..]);
    assert_eq!(h.quadrant(0, 3), vec![4, 4, 0, 0]);
    assert_eq!(h.quadrant(0, 0), vec![0, 0, 0, 0]);
}

#[test]
fn cell_reads_by_column_and_row() {
    let mut h = History::new(4, 1).unwrap();
    h.seed(&patterns(&["0100", "0000", "0000", "0000"]));
    assert_eq!(h.cell(0, 1, 0), 1);
    assert_eq!(h.cell(0, 0, 1), 0);
}

#[test]
fn advance_computes_the_next_frame_only() {
    let mut h = History::new(4, 3).unwrap();
    h.seed(&patterns(&["0111", "0000", "0000", "0000"]));
    let first = h.frame(0).to_vec();
    h.advance(0);
    assert_eq!(h.frame(0), &first[..]);
    assert_eq!(h.frame(1), &step(4, &first)[..]);
    assert_eq!(h.frame(2), &[0u8; 16][..]);
}

#[test]
fn compute_round_steps_from_frame_to_frame() {
    let mut h = History::new(6, 5).unwrap();
    h.seed(&patterns(&["010010010", "111000000", "000111000", "100100100"]));
    let first = h.frame(0).to_vec();
    h.compute_round();
    assert_eq!(h.frame(0), &first[..]);
    let mut frame = first;
    for i in 1..5 {
        frame = step(6, &frame);
        assert_eq!(h.frame(i), &frame[..]);
    }
}

#[test]
fn compute_round_of_a_single_frame_changes_nothing() {
    let mut h = History::new(2, 1).unwrap();
    h.seed(&patterns(&["1", "1", "1", "1"]));
    h.compute_round();
    assert_eq!(h.frame(0), &[1, 2, 3, 4][..]);
}
