use team_life::schedule::{
    calculate_next_game, next_round_at, seconds_until_next, Clock, Phase, Scheduler,
};

#[test]
fn delay_runs_to_the_next_multiple_of_the_interval() {
    assert_eq!(seconds_until_next(5, 3, 20), 100);
    assert_eq!(seconds_until_next(5, 4, 59), 1);
    assert_eq!(seconds_until_next(5, 5, 0), 300);
    assert_eq!(seconds_until_next(5, 59, 30), 30);
    assert_eq!(seconds_until_next(5, 0, 0), 300);
    assert_eq!(seconds_until_next(1, 17, 45), 15);
    assert_eq!(seconds_until_next(60, 0, 1), 3599);
    assert_eq!(seconds_until_next(7, 58, 0), 300);
    assert_eq!(seconds_until_next(u32::MAX, 59, 59), (u32::MAX as u64 - 60) * 60 + 1);
}

#[test]
fn clock_takes_minutes_and_seconds_below_sixty() {
    let clock = Clock::new(59, 59, -5).unwrap();
    assert_eq!(clock.minute(), 59);
    assert_eq!(clock.second(), 59);
    assert_eq!(clock.timestamp(), -5);
    assert!(Clock::new(60, 0, 0).is_none());
    assert!(Clock::new(0, 60, 0).is_none());
}

#[test]
fn next_round_adds_the_offset_and_names_the_time() {
    let clock = Clock::new(3, 20, 200).unwrap();
    let next = next_round_at(&clock, 5, 1);
    assert_eq!(next.wait, 101);
    assert_eq!(next.at, Some(b"1970-01-01T00:05:01Z".to_vec()));
    let clock = Clock::new(58, 30, 1_704_070_710).unwrap();
    let next = next_round_at(&clock, 5, 0);
    assert_eq!(next.wait, 90);
    assert_eq!(next.at, Some(b"2024-01-01T01:00:00Z".to_vec()));
}

#[test]
fn next_round_past_the_calendar_has_no_time() {
    let clock = Clock::new(0, 0, i64::MAX - 10).unwrap();
    let next = next_round_at(&clock, 5, 0);
    assert_eq!(next.wait, 300);
    assert_eq!(next.at, None);
}

#[test]
fn next_game_is_within_one_interval() {
    let next = calculate_next_game(5, 1);
    assert!(next.wait >= 2 && next.wait <= 301);
    let at = String::from_utf8(next.at.unwrap()).unwrap();
    assert_eq!(at.len(), 20);
    assert!(at.ends_with('Z'));
    let next = calculate_next_game(1, 0);
    assert!(next.wait >= 1 && next.wait <= 60);
}

#[test]
fn scheduler_runs_through_its_four_phases() {
    let s = Scheduler::start();
    assert_eq!(s, Scheduler { round: 0, phase: Phase::Seeding });
    assert!(s.holds_exclusive());
    let s = s.advance();
    assert_eq!(s, Scheduler { round: 0, phase: Phase::Computing });
    assert!(s.holds_exclusive());
    let s = s.advance();
    assert_eq!(s, Scheduler { round: 0, phase: Phase::Published });
    assert!(!s.holds_exclusive());
    let s = s.advance();
    assert_eq!(s, Scheduler { round: 0, phase: Phase::Sleeping });
    assert!(!s.holds_exclusive());
    let s = s.advance();
    assert_eq!(s, Scheduler { round: 1, phase: Phase::Seeding });
}

#[test]
fn scheduler_counts_rounds() {
    let mut s = Scheduler::start();
    for _ in 0..40 {
        s = s.advance();
    }
    assert_eq!(s, Scheduler { round: 10, phase: Phase::Seeding });
}
