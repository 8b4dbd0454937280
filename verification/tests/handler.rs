use team_life::handler::{advance, open, Event, Stage};

#[test]
fn connection_starts_with_the_upload() {
    assert_eq!(open(), Stage::Upload);
}

#[test]
fn upload_with_a_reply_is_answered_first() {
    assert_eq!(advance(Stage::Upload, Event::Received { reply: true }, 3), Stage::Reply);
    assert_eq!(advance(Stage::Reply, Event::Sent, 3), Stage::Frame { index: 0 });
}

#[test]
fn no_upload_goes_straight_to_the_frames() {
    assert_eq!(advance(Stage::Upload, Event::Silent, 3), Stage::Frame { index: 0 });
    assert_eq!(
        advance(Stage::Upload, Event::Received { reply: false }, 3),
        Stage::Frame { index: 0 }
    );
}

#[test]
fn frames_come_in_order_and_end_with_the_winner() {
    let mut stage = Stage::Frame { index: 0 };
    for i in 1..5 {
        stage = advance(stage, Event::Sent, 5);
        assert_eq!(stage, Stage::Frame { index: i });
    }
    stage = advance(stage, Event::Sent, 5);
    assert_eq!(stage, Stage::Winner);
    stage = advance(stage, Event::Sent, 5);
    assert_eq!(stage, Stage::Wait);
    stage = advance(stage, Event::Woke, 5);
    assert_eq!(stage, Stage::Frame { index: 0 });
}

#[test]
fn round_of_one_frame_goes_to_the_winner_at_once() {
    assert_eq!(advance(Stage::Frame { index: 0 }, Event::Sent, 1), Stage::Winner);
    assert_eq!(advance(Stage::Frame { index: 7 }, Event::Sent, 3), Stage::Winner);
    assert_eq!(advance(Stage::Frame { index: usize::MAX }, Event::Sent, 0), Stage::Winner);
}

#[test]
fn failed_write_closes_the_connection() {
    assert_eq!(advance(Stage::Reply, Event::Failed, 3), Stage::Closed);
    assert_eq!(advance(Stage::Frame { index: 1 }, Event::Failed, 3), Stage::Closed);
    assert_eq!(advance(Stage::Winner, Event::Failed, 3), Stage::Closed);
}

#[test]
fn closed_connection_stays_closed() {
    for event in [
        Event::Received { reply: true },
        Event::Silent,
        Event::Sent,
        Event::Failed,
        Event::Woke,
    ] {
        assert_eq!(advance(Stage::Closed, event, 3), Stage::Closed);
    }
}

#[test]
fn event_out_of_turn_changes_nothing() {
    assert_eq!(advance(Stage::Upload, Event::Sent, 3), Stage::Upload);
    assert_eq!(advance(Stage::Upload, Event::Failed, 3), Stage::Upload);
    assert_eq!(advance(Stage::Wait, Event::Sent, 3), Stage::Wait);
    assert_eq!(advance(Stage::Wait, Event::Failed, 3), Stage::Wait);
    assert_eq!(advance(Stage::Frame { index: 2 }, Event::Woke, 3), Stage::Frame { index: 2 });
    assert_eq!(advance(Stage::Winner, Event::Silent, 3), Stage::Winner);
}
