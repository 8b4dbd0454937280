use team_life::automaton::step;
use team_life::round::Round;

fn corner_patterns() -> Vec<Vec<u8>> {
    vec![
        b"010010010".to_vec(),
        b"111000000".to_vec(),
        b"000111000".to_vec(),
        b"100100100".to_vec(),
    ]
}

#[test]
fn new_round_is_whole_and_empty() {
    let round = Round::new(4, 3).unwrap();
    assert_eq!(round.index(), 0);
    assert_eq!(round.side(), 4);
    assert_eq!(round.steps(), 3);
    assert_eq!(round.done(), 3);
    assert!(round.is_whole());
    for i in 0..3 {
        assert_eq!(round.frame(i), Some(&[0u8; 16][..]));
    }
    assert_eq!(round.frame(3), None);
}

#[test]
fn round_needs_a_frame_and_an_allocation() {
    assert!(Round::new(4, 0).is_none());
    assert!(Round::new(usize::MAX, 2).is_none());
    assert!(Round::new(1, usize::MAX).is_none());
}

#[test]
fn seeded_round_hands_out_its_first_frame_only() {
    let mut round = Round::new(6, 4).unwrap();
    round.seed(7, &corner_patterns());
    assert_eq!(round.index(), 7);
    assert_eq!(round.done(), 1);
    assert!(!round.is_whole());
    assert!(round.frame(0).is_some());
    assert_eq!(round.frame(1), None);
    assert_eq!(round.frame(3), None);
}

#[test]
fn advance_adds_one_frame_at_a_time() {
    let mut round = Round::new(6, 4).unwrap();
    round.seed(1, &corner_patterns());
    let first = round.frame(0).unwrap().to_vec();
    round.advance();
    assert_eq!(round.done(), 2);
    assert_eq!(round.frame(0), Some(&first[..]));
    assert_eq!(round.frame(1), Some(&step(6, &first)[..]));
    assert_eq!(round.frame(2), None);
    round.advance();
    round.advance();
    assert!(round.is_whole());
    assert_eq!(round.index(), 1);
}

#[test]
fn compute_finishes_the_round() {
    let mut round = Round::new(6, 5).unwrap();
    round.seed(2, &corner_patterns());
    round.advance();
    round.compute();
    assert!(round.is_whole());
    let mut frame = round.frame(0).unwrap().to_vec();
    for i in 1..5 {
        frame = step(6, &frame);
        assert_eq!(round.frame(i), Some(&frame[..]));
    }
    round.compute();
    assert_eq!(round.frame(4), Some(&frame[..]));
}

#[test]
fn new_seed_hides_the_frames_of_the_round_before() {
    let mut round = Round::new(6, 3).unwrap();
    round.seed(1, &corner_patterns());
    round.compute();
    let old = round.frame(2).unwrap().to_vec();
    round.seed(2, &vec![b"111111111".to_vec()]);
    assert_eq!(round.frame(2), None);
    round.compute();
    assert_ne!(round.frame(2), Some(&old[..]));
}

#[test]
fn round_of_one_frame_is_whole_once_seeded() {
    let mut round = Round::new(2, 1).unwrap();
    round.seed(9, &vec![b"1".to_vec(), b"0".to_vec(), b"1".to_vec()]);
    assert!(round.is_whole());
    assert_eq!(round.frame(0), Some(&[1, 0, 3, 0][..]));
}
