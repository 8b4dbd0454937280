//! Where each team's starting pattern lands on the first frame of a round.
//!
//! A pattern has one character per cell of a quadrant, row by row; `'0'` is
//! a dead cell and any other character a live one. Slot 0 fills the top-left
//! quadrant as written, slot 1 the top-right with its columns reversed,
//! slot 2 the bottom-left with its rows reversed, slot 3 the bottom-right
//! with both reversed, so that every pattern faces the centre of the board.

use vstd::prelude::*;
use vstd::arithmetic::div_mod::{lemma_fundamental_div_mod, lemma_mod_bound};
use crate::automaton::{cell_at, lemma_cell_index};

verus! {

/// The character that stands for a dead cell.
pub const DEAD: u8 = 48;

/// Number of slots, one per corner of the board.
pub const SLOTS: usize = 4;

/// Number of characters in a pattern for a board of the given side.
pub open spec fn pattern_len(side: nat) -> nat {
    (side / 2) * (side / 2)
}

/// The byte sequences that a vector of byte vectors holds.
pub open spec fn views(items: Seq<Vec<u8>>) -> Seq<Seq<u8>> {
    items.map_values(|item: Vec<u8>| item@)
}

/// Whether every pattern has one character per cell of a quadrant.
pub open spec fn fit(side: nat, patterns: Seq<Seq<u8>>) -> bool {
    forall|i: int| 0 <= i < patterns.len() ==> (#[trigger] patterns[i]).len() == pattern_len(side)
}

/// The slot whose quadrant holds `(x, y)`. On a board of odd side the middle
/// row and the middle column belong to no quadrant.
pub open spec fn slot_of(side: int, x: int, y: int) -> Option<int> {
    let q = side / 2;
    let left = 0 <= x < q;
    let right = side - q <= x < side;
    let top = 0 <= y < q;
    let bottom = side - q <= y < side;
    if (left || right) && (top || bottom) {
        Some(
            (if right {
                1int
            } else {
                0int
            }) + (if bottom {
                2int
            } else {
                0int
            }),
        )
    } else {
        None
    }
}

/// The index, in its slot's pattern, of the character that decides `(x, y)`.
pub open spec fn pattern_index(side: int, x: int, y: int) -> int {
    let q = side / 2;
    let column = if x < q {
        x
    } else {
        side - 1 - x
    };
    let row = if y < q {
        y
    } else {
        side - 1 - y
    };
    row * q + column
}

/// The board position `(x, y)` that character `k` of a slot's pattern decides.
pub open spec fn seat(side: int, slot: int, k: int) -> (int, int) {
    let q = side / 2;
    let row = k / q;
    let column = k % q;
    (
        if slot == 1 || slot == 3 {
            side - 1 - column
        } else {
            column
        },
        if slot == 2 || slot == 3 {
            side - 1 - row
        } else {
            row
        },
    )
}

/// The value that seeding gives the cell at `(x, y)`: the team of its slot
/// where that slot has a pattern and the pattern's character is live, and
/// empty everywhere else.
pub open spec fn seeded_cell(side: int, patterns: Seq<Seq<u8>>, x: int, y: int) -> u8 {
    match slot_of(side, x, y) {
        Some(slot) => if slot < patterns.len() && patterns[slot][pattern_index(side, x, y)]
            != DEAD {
            (slot + 1) as u8
        } else {
            0
        },
        None => 0,
    }
}

/// The first frame of a round seeded from the given patterns.
pub open spec fn seeded_frame(side: nat, patterns: Seq<Seq<u8>>) -> Seq<u8> {
    Seq::new(
        side * side,
        |i: int| seeded_cell(side as int, patterns, i % (side as int), i / (side as int)),
    )
}

/// Computes the value that seeding gives the cell at `(x, y)`.
pub fn seeded_cell_at(side: usize, strategies: &Vec<Vec<u8>>, x: usize, y: usize) -> (c: u8)
    requires
        x < side,
        y < side,
        fit(side as nat, views(strategies@)),
    ensures
        c == seeded_cell(side as int, views(strategies@), x as int, y as int),
        c <= 4,
{
    let q: usize = side / 2;
    let right: bool = x >= side - q;
    let bottom: bool = y >= side - q;
    if (x >= q && !right) || (y >= q && !bottom) {
        return 0;
    }
    let slot: usize = (if right {
        1usize
    } else {
        0usize
    }) + (if bottom {
        2usize
    } else {
        0usize
    });
    if slot >= strategies.len() {
        return 0;
    }
    let column: usize = if x < q {
        x
    } else {
        side - 1 - x
    };
    let row: usize = if y < q {
        y
    } else {
        side - 1 - y
    };
    let pattern = &strategies[slot];
    proof {
        assert(views(strategies@)[slot as int] == pattern@);
        assert(pattern.len() == q * q);
        lemma_cell_index(q as int, column as int, row as int);
    }
    if pattern[row * q + column] != DEAD {
        (slot + 1) as u8
    } else {
        0
    }
}

/// Seeding and reading back agree: character `k` of the pattern in a slot
/// decides the cell at its seat, which holds the slot's team where the
/// character is live and is empty where it is dead.
pub proof fn lemma_seed_round_trip(side: nat, patterns: Seq<Seq<u8>>, slot: int, k: int)
    requires
        0 <= slot < SLOTS,
        slot < patterns.len(),
        0 <= k < pattern_len(side),
    ensures
        ({
            let (x, y) = seat(side as int, slot, k);
            &&& 0 <= x < side
            &&& 0 <= y < side
            &&& slot_of(side as int, x, y) == Some(slot)
            &&& pattern_index(side as int, x, y) == k
            &&& seeded_frame(side, patterns)[y * side + x] == if patterns[slot][k] == DEAD {
                0
            } else {
                slot + 1
            }
            &&& cell_at(side as int, seeded_frame(side, patterns), x, y) == seeded_frame(
                side,
                patterns,
            )[y * side + x]
        }),
{
    let s = side as int;
    let q = s / 2;
    let row = k / q;
    let column = k % q;
    assert(q >= 1) by (nonlinear_arith)
        requires
            0 <= k < q * q,
            q >= 0,
    ;
    lemma_seat_in_quadrant(q, k);
    let (x, y) = seat(s, slot, k);
    lemma_cell_index(s, x, y);
    reveal(cell_at);
}

/// Character `k` of a pattern lies in row `k / q`, column `k % q` of its
/// quadrant.
pub proof fn lemma_seat_in_quadrant(q: int, k: int)
    requires
        q >= 1,
        0 <= k < q * q,
    ensures
        0 <= k / q < q,
        0 <= k % q < q,
        (k / q) * q + k % q == k,
{
    lemma_fundamental_div_mod(k, q);
    lemma_mod_bound(k, q);
    assert((k / q) * q == q * (k / q)) by (nonlinear_arith);
    assert(0 <= k / q < q) by (nonlinear_arith)
        requires
            q >= 1,
            0 <= k < q * q,
            k == q * (k / q) + k % q,
            0 <= k % q < q,
    ;
}

} // verus!
