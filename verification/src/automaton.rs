//! The transition rule: how one cell's next value follows from its eight
//! neighbours, and how a whole frame follows from the one before it.
//!
//! A frame is a row-major sequence of `side * side` cells. A cell is 0 when
//! empty and 1 to 4 when a team holds it. The board does not wrap: a
//! neighbour that would lie outside the board counts as empty.

use vstd::prelude::*;
use vstd::arithmetic::div_mod::lemma_fundamental_div_mod_converse;

verus! {

/// Highest cell value: the number of teams.
pub const TOP_TEAM: u8 = 4;

/// The cell at column `x`, row `y`, or 0 outside the board.
#[verifier::opaque]
pub open spec fn cell_at(side: int, frame: Seq<u8>, x: int, y: int) -> u8 {
    if 0 <= x < side && 0 <= y < side {
        frame[y * side + x]
    } else {
        0
    }
}

/// 1 when the cell belongs to the team, otherwise 0.
pub open spec fn same(cell: u8, team: u8) -> int {
    if cell == team {
        1
    } else {
        0
    }
}

/// 1 when `team` holds the position, otherwise 0.
pub open spec fn holds(side: int, frame: Seq<u8>, x: int, y: int, team: u8) -> int {
    same(cell_at(side, frame, x, y), team)
}

/// How many of the eight positions around `(x, y)` the team holds.
pub open spec fn neighbors(side: int, frame: Seq<u8>, x: int, y: int, team: u8) -> int {
    holds(side, frame, x - 1, y - 1, team) + holds(side, frame, x - 1, y, team) + holds(
        side,
        frame,
        x - 1,
        y + 1,
        team,
    ) + holds(side, frame, x, y - 1, team) + holds(side, frame, x, y + 1, team) + holds(
        side,
        frame,
        x + 1,
        y - 1,
        team,
    ) + holds(side, frame, x + 1, y, team) + holds(side, frame, x + 1, y + 1, team)
}

/// How many of the eight positions around `(x, y)` any team holds.
pub open spec fn live_neighbors(side: int, frame: Seq<u8>, x: int, y: int) -> int {
    neighbors(side, frame, x, y, 1) + neighbors(side, frame, x, y, 2) + neighbors(
        side,
        frame,
        x,
        y,
        3,
    ) + neighbors(side, frame, x, y, 4)
}

/// The team that holds a strict majority among four neighbour counts, or 0
/// when the largest count is shared.
pub open spec fn majority_team(c1: int, c2: int, c3: int, c4: int) -> u8 {
    if c1 > c2 && c1 > c3 && c1 > c4 {
        1
    } else if c2 > c1 && c2 > c3 && c2 > c4 {
        2
    } else if c3 > c1 && c3 > c2 && c3 > c4 {
        3
    } else if c4 > c1 && c4 > c2 && c4 > c3 {
        4
    } else {
        0
    }
}

/// Whether a cell with this value and this many live neighbours is alive in
/// the next frame: three neighbours give birth, two keep a live cell alive.
pub open spec fn stays_or_born(current: u8, total: int) -> bool {
    total == 3 || (total == 2 && current != 0)
}

/// The value of the cell at `(x, y)` in the frame after `frame`.
pub open spec fn next_cell(side: int, frame: Seq<u8>, x: int, y: int) -> u8 {
    if stays_or_born(cell_at(side, frame, x, y), live_neighbors(side, frame, x, y)) {
        majority_team(
            neighbors(side, frame, x, y, 1),
            neighbors(side, frame, x, y, 2),
            neighbors(side, frame, x, y, 3),
            neighbors(side, frame, x, y, 4),
        )
    } else {
        0
    }
}

/// The frame after `frame`: every cell moves by `next_cell`, all from the
/// same earlier frame.
pub open spec fn step_frame(side: nat, frame: Seq<u8>) -> Seq<u8> {
    Seq::new(
        side * side,
        |i: int| next_cell(side as int, frame, i % (side as int), i / (side as int)),
    )
}

/// The frame reached from `frame` after `n` steps.
pub open spec fn evolve(side: nat, frame: Seq<u8>, n: nat) -> Seq<u8>
    decreases n,
{
    if n == 0 {
        frame
    } else {
        step_frame(side, evolve(side, frame, (n - 1) as nat))
    }
}

/// Whether every cell of the sequence is empty or one of the four teams.
pub open spec fn all_cells(cells: Seq<u8>) -> bool {
    forall|i: int| 0 <= i < cells.len() ==> #[trigger] cells[i] <= TOP_TEAM
}

/// Whether every cell of the sequence is empty.
pub open spec fn all_empty(cells: Seq<u8>) -> bool {
    forall|i: int| 0 <= i < cells.len() ==> #[trigger] cells[i] == 0
}

/// A position inside the board has its row-major index inside the frame.
pub proof fn lemma_cell_index(side: int, x: int, y: int)
    requires
        0 <= x < side,
        0 <= y < side,
    ensures
        0 <= y * side,
        0 <= y * side + x < side * side,
        (y * side + x) % side == x,
        (y * side + x) / side == y,
{
    assert(0 <= y * side && y * side + side <= side * side) by (nonlinear_arith)
        requires
            0 <= y < side,
    ;
    lemma_fundamental_div_mod_converse(y * side + x, side, y, x);
}

/// Picks the team whose count strictly exceeds each of the other three.
pub fn majority(c1: u8, c2: u8, c3: u8, c4: u8) -> (team: u8)
    ensures
        team == majority_team(c1 as int, c2 as int, c3 as int, c4 as int),
        team <= TOP_TEAM,
{
    if c1 > c2 && c1 > c3 && c1 > c4 {
        1
    } else if c2 > c1 && c2 > c3 && c2 > c4 {
        2
    } else if c3 > c1 && c3 > c2 && c3 > c4 {
        3
    } else if c4 > c1 && c4 > c2 && c4 > c3 {
        4
    } else {
        0
    }
}

/// Applies the rule to one cell, given its value and the four counts of its
/// neighbours by team.
pub fn rule(current: u8, c1: u8, c2: u8, c3: u8, c4: u8) -> (next: u8)
    ensures
        next == if stays_or_born(current, c1 + c2 + c3 + c4) {
            majority_team(c1 as int, c2 as int, c3 as int, c4 as int)
        } else {
            0
        },
        next <= TOP_TEAM,
{
    let total: u16 = c1 as u16 + c2 as u16 + c3 as u16 + c4 as u16;
    if total == 3 || (total == 2 && current != 0) {
        majority(c1, c2, c3, c4)
    } else {
        0
    }
}

/// Reads the neighbour of `(x, y)` that lies `dx - 1` columns and `dy - 1`
/// rows away, in the frame that starts at `base`.
fn neighbor(cells: &[u8], base: usize, side: usize, x: usize, y: usize, dx: u8, dy: u8) -> (c:
    u8)
    requires
        x < side,
        y < side,
        dx <= 2,
        dy <= 2,
        base + side * side <= cells.len(),
    ensures
        c == cell_at(
            side as int,
            cells@.subrange(base as int, base + side * side),
            x + dx - 1,
            y + dy - 1,
        ),
{
    reveal(cell_at);
    if (dx == 0 && x == 0) || (dy == 0 && y == 0) || (dx == 2 && x == side - 1) || (dy == 2 && y
        == side - 1) {
        0
    } else {
        let nx: usize = if dx == 0 {
            x - 1
        } else if dx == 1 {
            x
        } else {
            x + 1
        };
        let ny: usize = if dy == 0 {
            y - 1
        } else if dy == 1 {
            y
        } else {
            y + 1
        };
        proof {
            lemma_cell_index(side as int, nx as int, ny as int);
        }
        cells[base + ny * side + nx]
    }
}

/// Counts the cells among eight that belong to the team.
fn count_team(n0: u8, n1: u8, n2: u8, n3: u8, n4: u8, n5: u8, n6: u8, n7: u8, team: u8) -> (n:
    u8)
    ensures
        n == same(n0, team) + same(n1, team) + same(n2, team) + same(n3, team) + same(n4, team)
            + same(n5, team) + same(n6, team) + same(n7, team),
        n <= 8,
{
    let mut n: u8 = 0;
    if n0 == team {
        n += 1;
    }
    if n1 == team {
        n += 1;
    }
    if n2 == team {
        n += 1;
    }
    if n3 == team {
        n += 1;
    }
    if n4 == team {
        n += 1;
    }
    if n5 == team {
        n += 1;
    }
    if n6 == team {
        n += 1;
    }
    if n7 == team {
        n += 1;
    }
    n
}

/// Computes the next value of the cell at `(x, y)` of the frame that
/// occupies `cells[base .. base + side * side]`.
pub fn next_cell_at(cells: &[u8], base: usize, side: usize, x: usize, y: usize) -> (c: u8)
    requires
        x < side,
        y < side,
        base + side * side <= cells.len(),
    ensures
        c == next_cell(
            side as int,
            cells@.subrange(base as int, base + side * side),
            x as int,
            y as int,
        ),
        c <= TOP_TEAM,
{
    let n0: u8 = neighbor(cells, base, side, x, y, 0, 0);
    let n1: u8 = neighbor(cells, base, side, x, y, 0, 1);
    let n2: u8 = neighbor(cells, base, side, x, y, 0, 2);
    let n3: u8 = neighbor(cells, base, side, x, y, 1, 0);
    let n4: u8 = neighbor(cells, base, side, x, y, 1, 2);
    let n5: u8 = neighbor(cells, base, side, x, y, 2, 0);
    let n6: u8 = neighbor(cells, base, side, x, y, 2, 1);
    let n7: u8 = neighbor(cells, base, side, x, y, 2, 2);
    let current: u8 = neighbor(cells, base, side, x, y, 1, 1);
    let c1: u8 = count_team(n0, n1, n2, n3, n4, n5, n6, n7, 1);
    let c2: u8 = count_team(n0, n1, n2, n3, n4, n5, n6, n7, 2);
    let c3: u8 = count_team(n0, n1, n2, n3, n4, n5, n6, n7, 3);
    let c4: u8 = count_team(n0, n1, n2, n3, n4, n5, n6, n7, 4);
    rule(current, c1, c2, c3, c4)
}

/// Computes the frame that follows `frame` on a board of the given side.
pub fn step(side: usize, frame: &[u8]) -> (next: Vec<u8>)
    requires
        frame.len() == side * side,
    ensures
        next@ == step_frame(side as nat, frame@),
        all_cells(next@),
{
    let mut next: Vec<u8> = Vec::new();
    let mut y: usize = 0;
    assert(frame@.subrange(0, side * side) == frame@);
    while y < side
        invariant
            y <= side,
            frame.len() == side * side,
            frame@.subrange(0, side * side) == frame@,
            next.len() == y * side,
            forall|i: int|
                0 <= i < next.len() ==> #[trigger] next[i] == next_cell(
                    side as int,
                    frame@,
                    i % (side as int),
                    i / (side as int),
                ),
            all_cells(next@),
        decreases side - y,
    {
        let mut x: usize = 0;
        while x < side
            invariant
                y < side,
                x <= side,
                frame.len() == side * side,
                frame@.subrange(0, side * side) == frame@,
                next.len() == y * side + x,
                forall|i: int|
                    0 <= i < next.len() ==> #[trigger] next[i] == next_cell(
                        side as int,
                        frame@,
                        i % (side as int),
                        i / (side as int),
                    ),
                all_cells(next@),
            decreases side - x,
        {
            proof {
                lemma_cell_index(side as int, x as int, y as int);
            }
            let c: u8 = next_cell_at(frame, 0, side, x, y);
            next.push(c);
            x += 1;
        }
        assert(y * side + side == (y + 1) * side) by (nonlinear_arith);
        y += 1;
    }
    next
}

/// A board with no live cell stays that way.
pub proof fn lemma_empty_stays_empty(side: nat, frame: Seq<u8>)
    requires
        frame.len() == side * side,
        all_empty(frame),
    ensures
        step_frame(side, frame) == frame,
        all_empty(step_frame(side, frame)),
{
    let s = side as int;
    assert forall|x: int, y: int| #[trigger] cell_at(s, frame, x, y) == 0 by {
        reveal(cell_at);
        if 0 <= x < s && 0 <= y < s {
            lemma_cell_index(s, x, y);
        }
    }
    assert forall|i: int| 0 <= i < side * side implies #[trigger] step_frame(side, frame)[i]
        == 0 by {
    }
    assert(step_frame(side, frame) =~= frame);
}

/// Birth: a cell, live or not, with exactly three neighbours of one team and
/// no other live neighbour belongs to that team in the next frame.
pub proof fn lemma_birth(side: int, frame: Seq<u8>, x: int, y: int, team: u8)
    requires
        1 <= team <= TOP_TEAM,
        neighbors(side, frame, x, y, team) == 3,
        live_neighbors(side, frame, x, y) == 3,
    ensures
        next_cell(side, frame, x, y) == team,
{
    lemma_counts_not_negative(side, frame, x, y);
}

/// Survival: a live cell with exactly two neighbours, both of one team,
/// belongs to that team in the next frame, whatever team held it before.
pub proof fn lemma_survival(side: int, frame: Seq<u8>, x: int, y: int, team: u8)
    requires
        1 <= team <= TOP_TEAM,
        cell_at(side, frame, x, y) != 0,
        neighbors(side, frame, x, y, team) == 2,
        live_neighbors(side, frame, x, y) == 2,
    ensures
        next_cell(side, frame, x, y) == team,
{
    lemma_counts_not_negative(side, frame, x, y);
}

/// A cell with exactly two live neighbours of two different teams is empty
/// in the next frame, whether it was live or not.
pub proof fn lemma_split_pair_dies(side: int, frame: Seq<u8>, x: int, y: int, a: u8, b: u8)
    requires
        1 <= a <= TOP_TEAM,
        1 <= b <= TOP_TEAM,
        a != b,
        neighbors(side, frame, x, y, a) == 1,
        neighbors(side, frame, x, y, b) == 1,
        live_neighbors(side, frame, x, y) == 2,
    ensures
        next_cell(side, frame, x, y) == 0,
{
    lemma_counts_not_negative(side, frame, x, y);
}

/// Whether the team holds more of the positions around `(x, y)` than each
/// of the other three teams.
pub open spec fn leads(side: int, frame: Seq<u8>, x: int, y: int, team: u8) -> bool {
    forall|other: u8|
        1 <= other <= TOP_TEAM && other != team ==> #[trigger] neighbors(
            side,
            frame,
            x,
            y,
            other,
        ) < neighbors(side, frame, x, y, team)
}

/// A cell goes to a team exactly when the rule keeps it alive and that team
/// leads among its neighbours. A tie for the lead leaves the cell empty,
/// and so does every count of live neighbours that the rule does not keep.
pub proof fn lemma_reassigned_by_majority(side: int, frame: Seq<u8>, x: int, y: int, team: u8)
    requires
        1 <= team <= TOP_TEAM,
    ensures
        next_cell(side, frame, x, y) <= TOP_TEAM,
        next_cell(side, frame, x, y) == team <==> stays_or_born(
            cell_at(side, frame, x, y),
            live_neighbors(side, frame, x, y),
        ) && leads(side, frame, x, y, team),
{
    let c1 = neighbors(side, frame, x, y, 1);
    let c2 = neighbors(side, frame, x, y, 2);
    let c3 = neighbors(side, frame, x, y, 3);
    let c4 = neighbors(side, frame, x, y, 4);
    let mine = neighbors(side, frame, x, y, team);
    if majority_team(c1, c2, c3, c4) == team {
        assert forall|other: u8| 1 <= other <= TOP_TEAM && other != team implies neighbors(
            side,
            frame,
            x,
            y,
            other,
        ) < mine by {
            assert(other == 1 || other == 2 || other == 3 || other == 4);
        }
    }
    if leads(side, frame, x, y, team) {
        assert(team == 1 || team == 2 || team == 3 || team == 4);
        assert(team != 1 ==> c1 < mine);
        assert(team != 2 ==> c2 < mine);
        assert(team != 3 ==> c3 < mine);
        assert(team != 4 ==> c4 < mine);
    }
}

/// No team holds a negative number of neighbours.
proof fn lemma_counts_not_negative(side: int, frame: Seq<u8>, x: int, y: int)
    ensures
        forall|team: u8| 0 <= #[trigger] neighbors(side, frame, x, y, team) <= 8,
{
}

} // verus!
