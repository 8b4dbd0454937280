//! When rounds start, and the cycle that the scheduler runs through.
//!
//! Rounds start on the wall clock: at every minute that is a multiple of the
//! interval, whenever the process itself was started.

use vstd::prelude::*;
use chrono::Timelike;

verus! {

/// Minutes between two rounds.
pub const GAME_CLOCK_INTERVAL: u32 = 5;

/// A reading of the wall clock in UTC: the minute of the hour, the second
/// of the minute, and the seconds since the start of 1970.
#[derive(Clone, Copy, Debug, PartialEq, Eq, Structural)]
pub struct Clock {
    minute: u32,
    second: u32,
    timestamp: i64,
}

impl Clock {
    /// The minute of the hour.
    pub closed spec fn spec_minute(self) -> u32 {
        self.minute
    }

    /// The second of the minute.
    pub closed spec fn spec_second(self) -> u32 {
        self.second
    }

    /// Seconds since the start of 1970.
    pub closed spec fn spec_timestamp(self) -> i64 {
        self.timestamp
    }

    /// A reading shows a minute and a second below 60.
    pub open spec fn wf(self) -> bool {
        self.spec_minute() < 60 && self.spec_second() < 60
    }

    /// Makes a reading from its parts, if the minute and the second are
    /// below 60.
    pub fn new(minute: u32, second: u32, timestamp: i64) -> (clock: Option<Clock>)
        ensures
            clock is Some <==> minute < 60 && second < 60,
            clock matches Some(c) ==> c.wf() && c.spec_minute() == minute && c.spec_second()
                == second && c.spec_timestamp() == timestamp,
    {
        if minute < 60 && second < 60 {
            Some(Clock { minute, second, timestamp })
        } else {
            None
        }
    }

    /// The minute of the hour.
    pub fn minute(&self) -> (minute: u32)
        ensures
            minute == self.spec_minute(),
    {
        self.minute
    }

    /// The second of the minute.
    pub fn second(&self) -> (second: u32)
        ensures
            second == self.spec_second(),
    {
        self.second
    }

    /// Seconds since the start of 1970.
    pub fn timestamp(&self) -> (timestamp: i64)
        ensures
            timestamp == self.spec_timestamp(),
    {
        self.timestamp
    }
}

/// What `chrono::DateTime::to_rfc3339_opts` writes, to the second and with
/// `Z` for UTC, for the UTC time that lies the given number of seconds after
/// the start of 1970.
pub uninterp spec fn rfc3339_text(timestamp: int) -> Seq<u8>;

/// `chrono::Utc::now`: reads the wall clock, and hands out what `chrono`
/// shows as its minute, its second and its Unix timestamp. The minute and
/// the second are below 60 (a leap second shows as 59); nothing is claimed
/// of the time itself.
#[verifier::external_body]
fn read_clock() -> (clock: Clock)
    ensures
        clock.wf(),
{
    let now = chrono::Utc::now();
    Clock { minute: now.minute(), second: now.second(), timestamp: now.timestamp() }
}

/// `chrono::DateTime::checked_add_signed` on UTC times given by their Unix
/// timestamps: the time that many whole seconds later, or nothing where
/// `chrono` cannot hold the time or the span.
#[verifier::external_body]
fn seconds_later(timestamp: i64, seconds: u64) -> (later: Option<i64>)
    ensures
        later matches Some(t) ==> t == timestamp + seconds,
{
    let start = chrono::DateTime::from_timestamp(timestamp, 0);
    let span = chrono::TimeDelta::from_std(std::time::Duration::from_secs(seconds));
    match (start, span) {
        (Some(start), Ok(span)) => match start.checked_add_signed(span) {
            Some(time) => Some(time.timestamp()),
            None => None,
        },
        _ => None,
    }
}

/// `chrono::DateTime::to_rfc3339_opts`, with whole seconds and `Z` for UTC,
/// on the UTC time given by its Unix timestamp: the time as text, or
/// nothing where `chrono` cannot hold the time.
#[verifier::external_body]
fn rfc3339_at(timestamp: i64) -> (text: Option<Vec<u8>>)
    ensures
        text matches Some(t) ==> t@ == rfc3339_text(timestamp as int),
{
    match chrono::DateTime::from_timestamp(timestamp, 0) {
        Some(time) => Some(time.to_rfc3339_opts(chrono::SecondsFormat::Secs, true).into_bytes()),
        None => None,
    }
}

/// Seconds from a clock reading to the next minute that is a multiple of
/// the interval.
pub open spec fn delay_until_next(interval: int, minute: int, second: int) -> int {
    (interval - minute % interval - 1) * 60 + (60 - second)
}

/// The delay to the next round is at least one second and at most the
/// whole interval.
pub proof fn lemma_delay_bounds(interval: int, minute: int, second: int)
    requires
        interval > 0,
        0 <= second < 60,
    ensures
        1 <= delay_until_next(interval, minute, second) <= interval * 60,
{
    vstd::arithmetic::div_mod::lemma_mod_bound(minute, interval);
}

/// Computes the seconds from a clock reading to the next round.
pub fn seconds_until_next(interval: u32, minute: u32, second: u32) -> (seconds: u64)
    requires
        interval > 0,
        second < 60,
    ensures
        seconds == delay_until_next(interval as int, minute as int, second as int),
        1 <= seconds <= interval * 60,
{
    proof {
        lemma_delay_bounds(interval as int, minute as int, second as int);
    }
    let minutes: u64 = (interval - minute % interval - 1) as u64;
    minutes * 60 + (60 - second) as u64
}

/// When the next round starts.
#[derive(Clone, Debug, PartialEq, Eq)]
pub struct NextRound {
    /// Seconds to wait from the reading of the clock.
    pub wait: u64,
    /// The time of the start as RFC 3339 text, where the calendar reaches
    /// that far.
    pub at: Option<Vec<u8>>,
}

/// Works out from a reading of the clock when the next round starts: at
/// the next minute that is a multiple of `interval`, and `offset` seconds
/// after it.
pub fn next_round_at(clock: &Clock, interval: u32, offset: u64) -> (next: NextRound)
    requires
        clock.wf(),
        interval > 0,
        interval * 60 + offset <= u64::MAX,
    ensures
        next.wait == delay_until_next(
            interval as int,
            clock.spec_minute() as int,
            clock.spec_second() as int,
        ) + offset,
        offset + 1 <= next.wait <= offset + interval * 60,
        next.at matches Some(text) ==> text@ == rfc3339_text(clock.spec_timestamp() + next.wait),
{
    let wait: u64 = seconds_until_next(interval, clock.minute, clock.second) + offset;
    let at: Option<Vec<u8>> = match seconds_later(clock.timestamp, wait) {
        Some(start) => rfc3339_at(start),
        None => None,
    };
    NextRound { wait, at }
}

/// Reads the clock and works out when the next round starts.
pub fn calculate_next_game(interval: u32, offset: u64) -> (next: NextRound)
    requires
        interval > 0,
        interval * 60 + offset <= u64::MAX,
    ensures
        offset + 1 <= next.wait <= offset + interval * 60,
        exists|minute: int, second: int|
            0 <= minute < 60 && 0 <= second < 60 && next.wait == #[trigger] delay_until_next(
                interval as int,
                minute,
                second,
            ) + offset,
{
    let clock = read_clock();
    next_round_at(&clock, interval, offset)
}

/// What the scheduler is doing.
#[derive(Clone, Copy, Debug, PartialEq, Eq, Structural)]
pub enum Phase {
    /// Loading the strategies and writing the first frame.
    Seeding,
    /// Computing the frames that follow.
    Computing,
    /// Handing the finished round to the readers.
    Published,
    /// Waiting for the next round to start.
    Sleeping,
}

/// The scheduler's state: the round it is on and what it is doing.
#[derive(Clone, Copy, Debug, PartialEq, Eq, Structural)]
pub struct Scheduler {
    pub round: usize,
    pub phase: Phase,
}

impl Scheduler {
    /// The state that follows once the work of the phase is done. The round
    /// counter goes up when the scheduler wakes.
    pub open spec fn after(self) -> Scheduler {
        match self.phase {
            Phase::Seeding => Scheduler { round: self.round, phase: Phase::Computing },
            Phase::Computing => Scheduler { round: self.round, phase: Phase::Published },
            Phase::Published => Scheduler { round: self.round, phase: Phase::Sleeping },
            Phase::Sleeping => Scheduler {
                round: (self.round + 1) as usize,
                phase: Phase::Seeding,
            },
        }
    }

    /// Whether the scheduler keeps the readers out: it does while it seeds
    /// and computes, so that no reader sees a round that is not whole.
    pub open spec fn excludes_readers(self) -> bool {
        self.phase is Seeding || self.phase is Computing
    }

    /// The state after `n` phases.
    pub open spec fn after_phases(self, n: nat) -> Scheduler
        decreases n,
    {
        if n == 0 {
            self
        } else {
            self.after_phases((n - 1) as nat).after()
        }
    }

    /// The scheduler as it starts: about to seed round 0.
    pub fn start() -> (scheduler: Scheduler)
        ensures
            scheduler == (Scheduler { round: 0, phase: Phase::Seeding }),
    {
        Scheduler { round: 0, phase: Phase::Seeding }
    }

    /// Moves on once the work of the phase is done.
    pub fn advance(self) -> (next: Scheduler)
        requires
            self.phase is Sleeping ==> self.round < usize::MAX,
        ensures
            next == self.after(),
    {
        match self.phase {
            Phase::Seeding => Scheduler { round: self.round, phase: Phase::Computing },
            Phase::Computing => Scheduler { round: self.round, phase: Phase::Published },
            Phase::Published => Scheduler { round: self.round, phase: Phase::Sleeping },
            Phase::Sleeping => Scheduler { round: self.round + 1, phase: Phase::Seeding },
        }
    }

    /// Whether the scheduler keeps the readers out in this phase.
    pub fn holds_exclusive(&self) -> (exclusive: bool)
        ensures
            exclusive == self.excludes_readers(),
    {
        match self.phase {
            Phase::Seeding => true,
            Phase::Computing => true,
            _ => false,
        }
    }

    /// The phases come round in a cycle of four, and each turn of the cycle
    /// is one round: four phases on, the scheduler does what it does now,
    /// one round later.
    pub proof fn lemma_cycle(self)
        requires
            self.round < usize::MAX,
        ensures
            self.after_phases(4) == (Scheduler {
                round: (self.round + 1) as usize,
                phase: self.phase,
            }),
    {
        reveal_with_fuel(Scheduler::after_phases, 5);
    }

    /// The round counter never goes back, and readers are let in only
    /// after a round has been computed.
    pub proof fn lemma_round_grows(self)
        requires
            self.round < usize::MAX,
        ensures
            self.after().round >= self.round,
            self.after().round <= self.round + 1,
            !self.after().excludes_readers() && self.excludes_readers() ==> self.phase
                is Computing,
    {
    }
}

} // verus!
