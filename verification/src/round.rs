//! A round as its readers see it: an index and the frames computed so far.
//!
//! Whoever holds a round for reading gets from it only frames that follow
//! from its first frame by the rule, however far the computation has come.
//! A frame that is still being written, or still left from the round
//! before, is never handed out.

use vstd::prelude::*;
use crate::automaton::{all_cells, all_empty, evolve, lemma_empty_stays_empty, step_frame};
use crate::history::{lemma_frame_bounds, Frames, History};
use crate::seeding::{fit, seeded_frame, views};

verus! {

/// What a round holds: its index, its frames, and how many of them are
/// computed.
pub struct RoundView {
    pub index: nat,
    pub done: nat,
    pub frames: Frames,
}

impl RoundView {
    /// The first frame of the round, from which the others follow.
    pub open spec fn first(self) -> Seq<u8> {
        self.frames.frame(0)
    }

    /// At least the first frame is there, and every computed frame is what
    /// the rule makes of the first frame in as many steps as its index.
    pub open spec fn wf(self) -> bool {
        &&& self.frames.wf()
        &&& 1 <= self.done <= self.frames.steps
        &&& forall|i: int|
            0 <= i < self.done ==> #[trigger] self.frames.frame(i) == evolve(
                self.frames.side,
                self.first(),
                i as nat,
            )
    }

    /// Whether every frame of the round is computed.
    pub open spec fn whole(self) -> bool {
        self.done == self.frames.steps
    }
}

/// One round of the game, for one writer and any number of readers.
pub struct Round {
    index: usize,
    done: usize,
    history: History,
}

impl View for Round {
    type V = RoundView;

    closed spec fn view(&self) -> RoundView {
        RoundView { index: self.index as nat, done: self.done as nat, frames: self.history@ }
    }
}

/// An empty frame stays empty for any number of steps.
pub proof fn lemma_empty_evolves_empty(side: nat, frame: Seq<u8>, n: nat)
    requires
        frame.len() == side * side,
        all_empty(frame),
    ensures
        evolve(side, frame, n) == frame,
    decreases n,
{
    if n > 0 {
        lemma_empty_evolves_empty(side, frame, (n - 1) as nat);
        lemma_empty_stays_empty(side, frame);
    }
}

/// Readers of one round agree: a frame that is handed out depends on the
/// board's side, the round's first frame and the frame's index alone, not
/// on when it is read or on how far the computation has come since.
pub proof fn lemma_readers_agree(early: RoundView, late: RoundView, i: int)
    requires
        early.wf(),
        late.wf(),
        early.frames.side == late.frames.side,
        early.first() == late.first(),
        0 <= i < early.done,
        i < late.done,
    ensures
        early.frames.frame(i) == late.frames.frame(i),
{
}

impl Round {
    /// Makes round 0 with every frame empty, which is a whole round: an
    /// empty board stays empty. There is no round without a frame, and
    /// none larger than an allocation can be.
    pub fn new(side: usize, steps: usize) -> (r: Option<Round>)
        ensures
            r is Some <==> steps >= 1 && steps * side * side <= isize::MAX,
            r matches Some(round) ==> round@.wf() && round@.whole() && round@.index == 0
                && round@.frames.side == side && round@.frames.steps == steps && all_empty(
                round@.frames.cells,
            ),
    {
        match History::new(side, steps) {
            Some(history) => {
                let round = Round { index: 0, done: steps, history };
                proof {
                    let frames = round@.frames;
                    assert forall|i: int| 0 <= i < steps implies #[trigger] frames.frame(i)
                        == evolve(frames.side, frames.frame(0), i as nat) by {
                        lemma_frame_bounds(frames.area(), frames.steps, 0, i);
                        lemma_frame_bounds(frames.area(), frames.steps, i, i);
                        assert(frames.frame(i) =~= frames.frame(0));
                        lemma_empty_evolves_empty(frames.side, frames.frame(0), i as nat);
                    }
                }
                Some(round)
            },
            None => None,
        }
    }

    /// The index of the round.
    pub fn index(&self) -> (index: usize)
        ensures
            index == self@.index,
    {
        self.index
    }

    /// Side of the board.
    pub fn side(&self) -> (side: usize)
        ensures
            side == self@.frames.side,
    {
        self.history.side()
    }

    /// Number of frames in a whole round.
    pub fn steps(&self) -> (steps: usize)
        ensures
            steps == self@.frames.steps,
    {
        self.history.steps()
    }

    /// Number of frames computed so far.
    pub fn done(&self) -> (done: usize)
        ensures
            done == self@.done,
    {
        self.done
    }

    /// Whether every frame of the round is computed.
    pub fn is_whole(&self) -> (whole: bool)
        ensures
            whole == self@.whole(),
    {
        self.done == self.history.steps()
    }

    /// Hands out frame `i` if it is computed. What comes out is the first
    /// frame moved on by `i` steps, whatever else the buffer holds.
    pub fn frame(&self, i: usize) -> (frame: Option<&[u8]>)
        requires
            self@.wf(),
        ensures
            frame is Some <==> i < self@.done,
            frame matches Some(cells) ==> cells@ == self@.frames.frame(i as int) && cells@
                == evolve(self@.frames.side, self@.first(), i as nat) && cells@.len()
                == self@.frames.area() && all_cells(cells@),
    {
        if i < self.done {
            Some(self.history.frame(i))
        } else {
            None
        }
    }

    /// Starts the round with the given index: writes its first frame from
    /// the teams' patterns. Of the frames that the buffer held, none counts
    /// as computed any more.
    pub fn seed(&mut self, index: usize, strategies: &Vec<Vec<u8>>)
        requires
            old(self)@.wf(),
            fit(old(self)@.frames.side, views(strategies@)),
        ensures
            final(self)@.wf(),
            final(self)@.index == index,
            final(self)@.done == 1,
            final(self)@.frames.side == old(self)@.frames.side,
            final(self)@.frames.steps == old(self)@.frames.steps,
            final(self)@.first() == seeded_frame(old(self)@.frames.side, views(strategies@)),
    {
        self.history.seed(strategies);
        self.index = index;
        self.done = 1;
    }

    /// Computes the next frame of a round that is not whole yet.
    pub fn advance(&mut self)
        requires
            old(self)@.wf(),
            !old(self)@.whole(),
        ensures
            final(self)@.wf(),
            final(self)@.index == old(self)@.index,
            final(self)@.done == old(self)@.done + 1,
            final(self)@.frames.side == old(self)@.frames.side,
            final(self)@.frames.steps == old(self)@.frames.steps,
            final(self)@.first() == old(self)@.first(),
    {
        let ghost before = self@;
        let steps: usize = self.history.steps();
        self.history.advance(self.done - 1);
        assert(self.done < steps);
        self.done = self.done + 1;
        proof {
            let now = self@;
            assert(now.frames.frame(0) == before.frames.frame(0));
            assert forall|i: int| 0 <= i < now.done implies #[trigger] now.frames.frame(i)
                == evolve(now.frames.side, now.first(), i as nat) by {
                if i < before.done {
                    assert(now.frames.frame(i) == before.frames.frame(i));
                } else {
                    assert(before.frames.frame(i - 1) == evolve(
                        before.frames.side,
                        before.first(),
                        (i - 1) as nat,
                    ));
                    assert(now.frames.frame(i) == step_frame(
                        before.frames.side,
                        before.frames.frame(i - 1),
                    ));
                }
            }
        }
    }

    /// Computes every frame that is still missing.
    pub fn compute(&mut self)
        requires
            old(self)@.wf(),
        ensures
            final(self)@.wf(),
            final(self)@.whole(),
            final(self)@.index == old(self)@.index,
            final(self)@.frames.side == old(self)@.frames.side,
            final(self)@.frames.steps == old(self)@.frames.steps,
            final(self)@.first() == old(self)@.first(),
    {
        while self.done < self.history.steps()
            invariant
                self@.wf(),
                self@.index == old(self)@.index,
                self@.frames.side == old(self)@.frames.side,
                self@.frames.steps == old(self)@.frames.steps,
                self@.first() == old(self)@.first(),
            decreases self@.frames.steps - self@.done,
        {
            self.advance();
        }
    }
}

} // verus!
