//! The steps of one connection: the optional upload, then the frames of
//! each round in order, the announcement of the winner, and the wait for
//! the next round.
//!
//! The caller does what the stage asks for (reads, writes, sleeps) and
//! reports how it went; the stage that follows is decided here.

use vstd::prelude::*;

verus! {

/// What a connection is about to do.
#[derive(Clone, Copy, Debug, PartialEq, Eq, Structural)]
pub enum Stage {
    /// Wait a moment for an upload.
    Upload,
    /// Send the reply to the upload.
    Reply,
    /// Send the frame with this index.
    Frame { index: usize },
    /// Announce the winner of the round.
    Winner,
    /// Wait for the next round.
    Wait,
    /// The connection is over.
    Closed,
}

/// How the last thing went.
#[derive(Clone, Copy, Debug, PartialEq, Eq, Structural)]
pub enum Event {
    /// An upload came in; `reply` says whether it is owed a reply.
    Received { reply: bool },
    /// No upload came in time.
    Silent,
    /// What was to be sent has been sent.
    Sent,
    /// Writing to the client failed.
    Failed,
    /// The wait is over.
    Woke,
}

/// The stage that follows `stage` after `event`, in a round of `steps`
/// frames. An event that the stage does not wait for changes nothing.
pub open spec fn next_stage(stage: Stage, event: Event, steps: nat) -> Stage {
    match (stage, event) {
        (Stage::Upload, Event::Received { reply }) => if reply {
            Stage::Reply
        } else {
            Stage::Frame { index: 0 }
        },
        (Stage::Upload, Event::Silent) => Stage::Frame { index: 0 },
        (Stage::Reply, Event::Sent) => Stage::Frame { index: 0 },
        (Stage::Frame { index }, Event::Sent) => if index + 1 < steps {
            Stage::Frame { index: (index + 1) as usize }
        } else {
            Stage::Winner
        },
        (Stage::Winner, Event::Sent) => Stage::Wait,
        (Stage::Wait, Event::Woke) => Stage::Frame { index: 0 },
        (Stage::Reply, Event::Failed) => Stage::Closed,
        (Stage::Frame { index }, Event::Failed) => Stage::Closed,
        (Stage::Winner, Event::Failed) => Stage::Closed,
        _ => stage,
    }
}

/// Whether the stage sends something to the client.
pub open spec fn sends(stage: Stage) -> bool {
    stage is Reply || stage is Frame || stage is Winner
}

/// The stage reached from `stage` after `n` successful sends.
pub open spec fn after_sends(stage: Stage, steps: nat, n: nat) -> Stage
    decreases n,
{
    if n == 0 {
        stage
    } else {
        next_stage(after_sends(stage, steps, (n - 1) as nat), Event::Sent, steps)
    }
}

/// The stage in which a connection starts.
pub fn open() -> (stage: Stage)
    ensures
        stage == Stage::Upload,
{
    Stage::Upload
}

/// Decides the stage that follows.
pub fn advance(stage: Stage, event: Event, steps: usize) -> (next: Stage)
    ensures
        next == next_stage(stage, event, steps as nat),
{
    match (stage, event) {
        (Stage::Upload, Event::Received { reply }) => if reply {
            Stage::Reply
        } else {
            Stage::Frame { index: 0 }
        },
        (Stage::Upload, Event::Silent) => Stage::Frame { index: 0 },
        (Stage::Reply, Event::Sent) => Stage::Frame { index: 0 },
        (Stage::Frame { index }, Event::Sent) => if steps > 0 && index < steps - 1 {
            Stage::Frame { index: index + 1 }
        } else {
            Stage::Winner
        },
        (Stage::Winner, Event::Sent) => Stage::Wait,
        (Stage::Wait, Event::Woke) => Stage::Frame { index: 0 },
        (Stage::Reply, Event::Failed) => Stage::Closed,
        (Stage::Frame { index }, Event::Failed) => Stage::Closed,
        (Stage::Winner, Event::Failed) => Stage::Closed,
        _ => stage,
    }
}

/// A write that fails ends the connection, whatever was being sent.
pub proof fn lemma_failed_write_closes(stage: Stage, steps: nat)
    requires
        sends(stage),
    ensures
        next_stage(stage, Event::Failed, steps) == Stage::Closed,
{
}

/// A connection that is over stays over.
pub proof fn lemma_closed_is_final(event: Event, steps: nat)
    ensures
        next_stage(Stage::Closed, event, steps) == Stage::Closed,
{
}

/// A viewer gets the frames of a round strictly in order: after `n` frames
/// have been sent, frame `n` is next, and after the last one the winner.
pub proof fn lemma_frames_in_order(steps: nat, n: nat)
    requires
        n <= steps,
        1 <= steps <= usize::MAX,
    ensures
        after_sends(Stage::Frame { index: 0 }, steps, n) == if n < steps {
            Stage::Frame { index: n as usize }
        } else {
            Stage::Winner
        },
    decreases n,
{
    if n > 0 {
        lemma_frames_in_order(steps, (n - 1) as nat);
    }
}

/// After the winner has been announced and the wait is over, a viewer
/// starts on the next round from its first frame.
pub proof fn lemma_rounds_repeat(steps: nat)
    ensures
        next_stage(next_stage(Stage::Winner, Event::Sent, steps), Event::Woke, steps)
            == (Stage::Frame { index: 0 }),
{
}

} // verus!
