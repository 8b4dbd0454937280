//! The round buffer: every frame of one round, one after the other, in a
//! single allocation.

use vstd::prelude::*;
use vstd::slice::slice_subrange;
use crate::automaton::{all_cells, all_empty, cell_at, evolve, next_cell, next_cell_at, step_frame};
use crate::automaton::lemma_cell_index;
use crate::seeding::{
    fit, pattern_len, seat, seeded_cell, seeded_cell_at, seeded_frame, views, SLOTS,
};

verus! {

/// What a round buffer holds: `steps` frames of `side * side` cells each.
pub struct Frames {
    pub side: nat,
    pub steps: nat,
    pub cells: Seq<u8>,
}

impl Frames {
    /// Number of cells in one frame.
    pub open spec fn area(self) -> nat {
        self.side * self.side
    }

    /// A round has at least one frame, its buffer holds exactly its frames,
    /// and every cell is empty or belongs to one of the four teams.
    pub open spec fn wf(self) -> bool {
        &&& self.steps >= 1
        &&& self.cells.len() == self.steps * self.area()
        &&& all_cells(self.cells)
    }

    /// The cells of frame `i`, row by row.
    pub open spec fn frame(self, i: int) -> Seq<u8> {
        self.cells.subrange(i * self.area(), (i + 1) * self.area())
    }

    /// The cell at column `x`, row `y` of frame `i`.
    pub open spec fn cell(self, i: int, x: int, y: int) -> u8 {
        cell_at(self.side as int, self.frame(i), x, y)
    }
}

/// One round of the game: the seed frame and every frame that follows it.
pub struct History {
    side: usize,
    steps: usize,
    cells: Vec<u8>,
}

impl View for History {
    type V = Frames;

    closed spec fn view(&self) -> Frames {
        Frames { side: self.side as nat, steps: self.steps as nat, cells: self.cells@ }
    }
}

/// Frame `j` of a buffer of `steps` frames lies inside the buffer, and
/// before frame `k` when `j < k`.
pub proof fn lemma_frame_bounds(area: nat, steps: nat, j: int, k: int)
    requires
        0 <= j <= k < steps,
    ensures
        0 <= j * area,
        j * area + area == (j + 1) * area,
        (j + 1) * area <= steps * area,
        j < k ==> (j + 1) * area <= k * area,
        j * area <= k * area,
        area <= steps * area,
{
    assert(area <= steps * area) by (nonlinear_arith)
        requires
            1 <= steps,
    ;
    assert(0 <= j * area && j * area + area == (j + 1) * area && (j + 1) * area <= steps * area
        && j * area <= k * area) by (nonlinear_arith)
        requires
            0 <= j <= k < steps,
    ;
    if j < k {
        assert((j + 1) * area <= k * area) by (nonlinear_arith)
            requires
                0 <= j + 1 <= k,
        ;
    }
}

impl History {
    /// Allocates a round of `steps` empty frames for a board of the given
    /// side. There is no round without a frame, and none larger than an
    /// allocation can be.
    pub fn new(side: usize, steps: usize) -> (r: Option<History>)
        ensures
            r is Some <==> steps >= 1 && steps * side * side <= isize::MAX,
            r matches Some(h) ==> h@.wf() && h@.side == side && h@.steps == steps && all_empty(
                h@.cells,
            ),
    {
        if steps == 0 {
            return None;
        }
        let area: usize = match side.checked_mul(side) {
            Some(a) => a,
            None => {
                assert(steps * side * side > isize::MAX) by (nonlinear_arith)
                    requires
                        steps >= 1,
                        side * side > usize::MAX,
                ;
                return None;
            },
        };
        let total: usize = match steps.checked_mul(area) {
            Some(t) => t,
            None => {
                assert(steps * side * side == steps * (side * side)) by (nonlinear_arith);
                return None;
            },
        };
        assert(steps * side * side == steps * (side * side)) by (nonlinear_arith);
        if total > isize::MAX as usize {
            return None;
        }
        let cells: Vec<u8> = vec![0u8; total];
        let h = History { side, steps, cells };
        assert(h@.area() == area);
        Some(h)
    }

    /// Side of the board.
    pub fn side(&self) -> (side: usize)
        ensures
            side == self@.side,
    {
        self.side
    }

    /// Number of frames in the round.
    pub fn steps(&self) -> (steps: usize)
        ensures
            steps == self@.steps,
    {
        self.steps
    }

    /// Number of cells in one frame.
    pub fn area(&self) -> (area: usize)
        requires
            self@.wf(),
        ensures
            area == self@.area(),
            self@.steps * area <= usize::MAX,
    {
        proof {
            lemma_frame_bounds(self@.area(), self@.steps, 0, 0);
            assert(self.cells.len() == self@.steps * self@.area());
        }
        self.side * self.side
    }

    /// Borrows frame `i`.
    pub fn frame(&self, i: usize) -> (frame: &[u8])
        requires
            self@.wf(),
            i < self@.steps,
        ensures
            frame@ == self@.frame(i as int),
            frame@.len() == self@.area(),
            all_cells(frame@),
    {
        let area: usize = self.area();
        proof {
            lemma_frame_bounds(area as nat, self@.steps, i as int, i as int);
        }
        let start: usize = i * area;
        slice_subrange(self.cells.as_slice(), start, start + area)
    }

    /// Reads the cell at column `x`, row `y` of frame `i`.
    pub fn cell(&self, i: usize, x: usize, y: usize) -> (c: u8)
        requires
            self@.wf(),
            i < self@.steps,
            x < self@.side,
            y < self@.side,
        ensures
            c == self@.cell(i as int, x as int, y as int),
            c <= 4,
    {
        let frame = self.frame(i);
        let side: usize = self.side;
        proof {
            reveal(cell_at);
            lemma_cell_index(side as int, x as int, y as int);
            assert(frame.len() == side * side);
        }
        frame[y * side + x]
    }

    /// Writes the first frame of the round from the teams' patterns, slot by
    /// slot. Cells that no pattern decides are empty, and so is the quadrant
    /// of a slot that has no pattern; patterns past the fourth are ignored.
    pub fn seed(&mut self, strategies: &Vec<Vec<u8>>)
        requires
            old(self)@.wf(),
            fit(old(self)@.side, views(strategies@)),
        ensures
            final(self)@.wf(),
            final(self)@.side == old(self)@.side,
            final(self)@.steps == old(self)@.steps,
            final(self)@.frame(0) == seeded_frame(old(self)@.side, views(strategies@)),
            forall|j: int|
                1 <= j < old(self)@.steps ==> #[trigger] final(self)@.frame(j) == old(self)@.frame(
                    j,
                ),
    {
        let side: usize = self.side;
        let area: usize = self.area();
        let ghost before = self@;
        let ghost patterns = views(strategies@);
        proof {
            lemma_frame_bounds(area as nat, before.steps, 0, 0);
        }
        let mut y: usize = 0;
        while y < side
            invariant
                y <= side,
                side == self.side,
                area == side * side,
                area <= self.cells.len(),
                self@.side == before.side,
                self@.steps == before.steps,
                self.cells.len() == before.cells.len(),
                patterns == views(strategies@),
                fit(side as nat, patterns),
                all_cells(self.cells@),
                forall|k: int|
                    y * side <= k < self.cells.len() ==> #[trigger] self.cells[k]
                        == before.cells[k],
                forall|j: int|
                    0 <= j < y * side ==> #[trigger] self.cells[j] == seeded_cell(
                        side as int,
                        patterns,
                        j % (side as int),
                        j / (side as int),
                    ),
            decreases side - y,
        {
            let mut x: usize = 0;
            while x < side
                invariant
                    y < side,
                    x <= side,
                    side == self.side,
                    area == side * side,
                    area <= self.cells.len(),
                    self@.side == before.side,
                    self@.steps == before.steps,
                    self.cells.len() == before.cells.len(),
                    patterns == views(strategies@),
                    fit(side as nat, patterns),
                    all_cells(self.cells@),
                    forall|k: int|
                        y * side + x <= k < self.cells.len() ==> #[trigger] self.cells[k]
                            == before.cells[k],
                    forall|j: int|
                        0 <= j < y * side + x ==> #[trigger] self.cells[j] == seeded_cell(
                            side as int,
                            patterns,
                            j % (side as int),
                            j / (side as int),
                        ),
                decreases side - x,
            {
                proof {
                    lemma_cell_index(side as int, x as int, y as int);
                }
                let c: u8 = seeded_cell_at(side, strategies, x, y);
                self.cells.set(y * side + x, c);
                x += 1;
            }
            assert(y * side + side == (y + 1) * side) by (nonlinear_arith);
            y += 1;
        }
        proof {
            assert(self@.frame(0) =~= seeded_frame(before.side, patterns));
            assert forall|j: int| 1 <= j < before.steps implies #[trigger] self@.frame(j)
                == before.frame(j) by {
                lemma_frame_bounds(area as nat, before.steps, 1, j);
                lemma_frame_bounds(area as nat, before.steps, j, j);
                assert(self@.frame(j) =~= before.frame(j));
            }
        }
    }

    /// Reads a slot's quadrant of frame `i` back in the order of the slot's
    /// pattern: entry `k` is the cell that character `k` of the pattern
    /// decides.
    pub fn quadrant(&self, i: usize, slot: usize) -> (cells: Vec<u8>)
        requires
            self@.wf(),
            i < self@.steps,
            slot < SLOTS,
        ensures
            cells@.len() == pattern_len(self@.side),
            forall|k: int|
                0 <= k < cells@.len() ==> #[trigger] cells@[k] == self@.cell(
                    i as int,
                    seat(self@.side as int, slot as int, k).0,
                    seat(self@.side as int, slot as int, k).1,
                ),
    {
        let side: usize = self.side;
        let q: usize = side / 2;
        let mut cells: Vec<u8> = Vec::new();
        let mut row: usize = 0;
        while row < q
            invariant
                self@.wf(),
                i < self@.steps,
                slot < SLOTS,
                side == self@.side,
                q == side / 2,
                row <= q,
                cells@.len() == row * q,
                forall|k: int|
                    0 <= k < cells@.len() ==> #[trigger] cells@[k] == self@.cell(
                        i as int,
                        seat(side as int, slot as int, k).0,
                        seat(side as int, slot as int, k).1,
                    ),
            decreases q - row,
        {
            let mut column: usize = 0;
            while column < q
                invariant
                    self@.wf(),
                    i < self@.steps,
                    slot < SLOTS,
                    side == self@.side,
                    q == side / 2,
                    row < q,
                    column <= q,
                    cells@.len() == row * q + column,
                    forall|k: int|
                        0 <= k < cells@.len() ==> #[trigger] cells@[k] == self@.cell(
                            i as int,
                            seat(side as int, slot as int, k).0,
                            seat(side as int, slot as int, k).1,
                        ),
                decreases q - column,
            {
                let x: usize = if slot == 1 || slot == 3 {
                    side - 1 - column
                } else {
                    column
                };
                let y: usize = if slot == 2 || slot == 3 {
                    side - 1 - row
                } else {
                    row
                };
                proof {
                    lemma_cell_index(q as int, column as int, row as int);
                }
                let c: u8 = self.cell(i, x, y);
                cells.push(c);
                column += 1;
            }
            assert(row * q + q == (row + 1) * q) by (nonlinear_arith);
            row += 1;
        }
        cells
    }

    /// Computes frame `i + 1` from frame `i`. No other frame changes.
    pub fn advance(&mut self, i: usize)
        requires
            old(self)@.wf(),
            i + 1 < old(self)@.steps,
        ensures
            final(self)@.wf(),
            final(self)@.side == old(self)@.side,
            final(self)@.steps == old(self)@.steps,
            final(self)@.frame(i + 1) == step_frame(old(self)@.side, old(self)@.frame(i as int)),
            forall|j: int|
                0 <= j < old(self)@.steps && j != i + 1 ==> #[trigger] final(self)@.frame(j) == old(
                    self,
                )@.frame(j),
    {
        let side: usize = self.side;
        let area: usize = self.area();
        let ghost before = self@;
        let ghost source = self@.frame(i as int);
        proof {
            lemma_frame_bounds(area as nat, before.steps, i as int, i + 1);
            lemma_frame_bounds(area as nat, before.steps, i + 1, i + 1);
        }
        let src: usize = i * area;
        let dst: usize = src + area;
        let mut y: usize = 0;
        while y < side
            invariant
                y <= side,
                side == self.side,
                area == side * side,
                src + area == dst,
                dst + area <= self.cells.len(),
                self@.side == before.side,
                self@.steps == before.steps,
                self.cells.len() == before.cells.len(),
                source == before.cells.subrange(src as int, src + area),
                all_cells(self.cells@),
                forall|k: int|
                    0 <= k < self.cells.len() && !(dst <= k < dst + y * side)
                        ==> #[trigger] self.cells[k] == before.cells[k],
                forall|j: int|
                    0 <= j < y * side ==> #[trigger] self.cells[dst + j] == next_cell(
                        side as int,
                        source,
                        j % (side as int),
                        j / (side as int),
                    ),
            decreases side - y,
        {
            let mut x: usize = 0;
            while x < side
                invariant
                    y < side,
                    x <= side,
                    side == self.side,
                    area == side * side,
                    src + area == dst,
                    dst + area <= self.cells.len(),
                    self@.side == before.side,
                    self@.steps == before.steps,
                    self.cells.len() == before.cells.len(),
                    source == before.cells.subrange(src as int, src + area),
                    all_cells(self.cells@),
                    forall|k: int|
                        0 <= k < self.cells.len() && !(dst <= k < dst + y * side + x)
                            ==> #[trigger] self.cells[k] == before.cells[k],
                    forall|j: int|
                        0 <= j < y * side + x ==> #[trigger] self.cells[dst + j] == next_cell(
                            side as int,
                            source,
                            j % (side as int),
                            j / (side as int),
                        ),
                decreases side - x,
            {
                proof {
                    lemma_cell_index(side as int, x as int, y as int);
                    assert(self.cells@.subrange(src as int, src + area) =~= source);
                }
                let c: u8 = next_cell_at(self.cells.as_slice(), src, side, x, y);
                let at: usize = dst + y * side + x;
                self.cells.set(at, c);
                assert(self.cells[dst + (y * side + x)] == c);
                x += 1;
            }
            assert(y * side + side == (y + 1) * side) by (nonlinear_arith);
            y += 1;
        }
        proof {
            lemma_frame_bounds(area as nat, before.steps, i as int, i + 1);
            lemma_frame_bounds(area as nat, before.steps, i + 1, i + 1);
            assert(dst == (i + 1) * area);
            assert(dst + area == (i + 1 + 1) * area);
            let after = self@.frame(i + 1);
            let wanted = step_frame(before.side, source);
            assert(after.len() == area);
            assert(wanted.len() == area);
            assert forall|j: int| 0 <= j < area implies after[j] == wanted[j] by {
                assert(after[j] == self.cells[dst + j]);
            }
            assert(after =~= wanted);
            assert forall|j: int| 0 <= j < before.steps && j != i + 1 implies #[trigger] self@.frame(
                j,
            ) == before.frame(j) by {
                if j <= i {
                    lemma_frame_bounds(area as nat, before.steps, j, i + 1);
                } else {
                    lemma_frame_bounds(area as nat, before.steps, i + 2, j);
                    lemma_frame_bounds(area as nat, before.steps, j, j);
                }
                assert(self@.frame(j) =~= before.frame(j));
            }
        }
    }

    /// Computes every frame of the round from its first frame.
    pub fn compute_round(&mut self)
        requires
            old(self)@.wf(),
        ensures
            final(self)@.wf(),
            final(self)@.side == old(self)@.side,
            final(self)@.steps == old(self)@.steps,
            forall|i: int|
                0 <= i < old(self)@.steps ==> #[trigger] final(self)@.frame(i) == evolve(
                    old(self)@.side,
                    old(self)@.frame(0),
                    i as nat,
                ),
    {
        let ghost seed = self@.frame(0);
        let ghost side = self@.side;
        let mut i: usize = 0;
        while i + 1 < self.steps
            invariant
                self@.wf(),
                self@.side == side,
                self@.steps == old(self)@.steps,
                i < self@.steps,
                forall|j: int|
                    0 <= j <= i ==> #[trigger] self@.frame(j) == evolve(side, seed, j as nat),
            decreases self.steps - i,
        {
            let ghost earlier = self@;
            self.advance(i);
            assert forall|j: int| 0 <= j <= i + 1 implies #[trigger] self@.frame(j) == evolve(
                side,
                seed,
                j as nat,
            ) by {
                if j <= i {
                    assert(self@.frame(j) == earlier.frame(j));
                } else {
                    assert(earlier.frame(i as int) == evolve(side, seed, i as nat));
                }
            }
            i += 1;
        }
    }
}

} // verus!
