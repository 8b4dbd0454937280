//! Text frames: the bordered grid, the status block above it and the
//! announcement that ends a round.

use vstd::prelude::*;
use vstd::string::StringSliceAdditionalSpecFns;
use crate::automaton::lemma_cell_index;
use crate::score::Score;
use crate::text::{digits, push_all, push_digits, push_padded, push_repeated, push_text, repeated, zero_padded, digit_count};

verus! {

/// Width to which a team's cell count is padded in the status block.
pub const COUNT_WIDTH: usize = 4;

/// The two-character glyph of a border position: a white block.
pub open spec fn white() -> Seq<u8> {
    "\x1b[47m  \x1b[0m".spec_bytes()
}

/// The line break that ends every line.
pub open spec fn line_end() -> Seq<u8> {
    "\n".spec_bytes()
}

/// The two-character glyph of a cell: two spaces when empty, a block in the
/// team's colour otherwise (red, green, blue, cyan).
pub open spec fn glyph(cell: u8) -> Seq<u8> {
    if cell == 1 {
        "\x1b[41m  \x1b[0m".spec_bytes()
    } else if cell == 2 {
        "\x1b[42m  \x1b[0m".spec_bytes()
    } else if cell == 3 {
        "\x1b[44m  \x1b[0m".spec_bytes()
    } else if cell == 4 {
        "\x1b[46m  \x1b[0m".spec_bytes()
    } else {
        "  ".spec_bytes()
    }
}

/// The glyphs of a run of cells, one after the other.
pub open spec fn cells_text(cells: Seq<u8>) -> Seq<u8>
    decreases cells.len(),
{
    if cells.len() == 0 {
        Seq::empty()
    } else {
        cells_text(cells.drop_last()) + glyph(cells.last())
    }
}

/// Row `y` of the grid: its cells between two border glyphs, and a line
/// break.
pub open spec fn row_text(side: nat, frame: Seq<u8>, y: int) -> Seq<u8> {
    white() + cells_text(frame.subrange(y * side, (y + 1) * side)) + white() + line_end()
}

/// The first `n` rows of the grid.
pub open spec fn rows_text(side: nat, frame: Seq<u8>, n: nat) -> Seq<u8>
    decreases n,
{
    if n == 0 {
        Seq::empty()
    } else {
        rows_text(side, frame, (n - 1) as nat) + row_text(side, frame, n - 1)
    }
}

/// The line above and below the grid: border glyphs over its whole width.
pub open spec fn border_text(side: nat) -> Seq<u8> {
    repeated(white(), side + 2) + line_end()
}

/// A frame's grid with its border on all four sides.
pub open spec fn grid_text(side: nat, frame: Seq<u8>) -> Seq<u8> {
    border_text(side) + rows_text(side, frame, side) + border_text(side)
}

/// A rendered grid under its banner, with as many blank lines above them
/// as the board has rows in one quadrant.
pub open spec fn framed(side: nat, banner: Seq<u8>, grid: Seq<u8>) -> Seq<u8> {
    repeated(line_end(), side / 2) + banner + grid
}

/// What is sent for one frame: blank lines, the banner, the grid.
pub open spec fn frame_text(side: nat, banner: Seq<u8>, frame: Seq<u8>) -> Seq<u8> {
    framed(side, banner, grid_text(side, frame))
}

/// One line of the standings: a line break, the team and its cell count.
pub open spec fn standing_text(score: Score) -> Seq<u8> {
    "\nT".spec_bytes() + digits(score.team as nat) + ": ".spec_bytes() + zero_padded(
        score.cells as nat,
        COUNT_WIDTH as nat,
    )
}

/// The standings, one line per entry of the ranking.
pub open spec fn standings_text(ranking: Seq<Score>) -> Seq<u8>
    decreases ranking.len(),
{
    if ranking.len() == 0 {
        Seq::empty()
    } else {
        standings_text(ranking.drop_last()) + standing_text(ranking.last())
    }
}

/// The first line of the status block: the round and the step out of the
/// round's steps, the step padded to as many digits as the number of steps.
pub open spec fn progress_text(round: nat, step: nat, steps: nat) -> Seq<u8> {
    "Game ".spec_bytes() + digits(round) + " | step ".spec_bytes() + zero_padded(
        step,
        digits(steps).len(),
    ) + "/".spec_bytes() + digits(steps)
}

/// The status block that the banner is drawn from.
pub open spec fn status_text(round: nat, step: nat, steps: nat, ranking: Seq<Score>) -> Seq<
    u8,
> {
    progress_text(round, step, steps) + standings_text(ranking)
}

/// The announcement that ends a round: the winning team and, in quotes,
/// the time of the next round.
pub open spec fn winner_text(team: nat, at: Seq<u8>) -> Seq<u8> {
    "WINNER T".spec_bytes() + digits(team) + "! - Next game at \"".spec_bytes() + at
        + "\"".spec_bytes()
}

/// The glyph of a cell as text.
pub fn glyph_of(cell: u8) -> (text: &'static str)
    ensures
        text.spec_bytes() == glyph(cell),
{
    if cell == 1 {
        "\x1b[41m  \x1b[0m"
    } else if cell == 2 {
        "\x1b[42m  \x1b[0m"
    } else if cell == 3 {
        "\x1b[44m  \x1b[0m"
    } else if cell == 4 {
        "\x1b[46m  \x1b[0m"
    } else {
        "  "
    }
}

/// Appends the line above or below the grid.
fn push_border(out: &mut Vec<u8>, side: usize)
    requires
        side + 2 <= usize::MAX,
    ensures
        final(out)@ == old(out)@ + border_text(side as nat),
{
    push_repeated(out, "\x1b[47m  \x1b[0m".as_bytes(), side + 2);
    push_text(out, "\n");
    assert(out@ =~= old(out)@ + border_text(side as nat));
}

/// Appends row `y` of the grid.
fn push_row(out: &mut Vec<u8>, side: usize, frame: &[u8], y: usize)
    requires
        frame@.len() == side * side,
        y < side,
    ensures
        final(out)@ == old(out)@ + row_text(side as nat, frame@, y as int),
{
    proof {
        lemma_cell_index(side as int, 0, y as int);
        assert(y * side + side == (y + 1) * side) by (nonlinear_arith);
        assert((y + 1) * side <= side * side) by (nonlinear_arith)
            requires
                y + 1 <= side,
        ;
        assert(frame@.len() == frame.len());
    }
    let start: usize = y * side;
    let ghost row = frame@.subrange(start as int, start + side);
    push_text(out, "\x1b[47m  \x1b[0m");
    let mut x: usize = 0;
    assert(row.take(0) =~= Seq::<u8>::empty());
    assert(out@ =~= old(out)@ + white() + cells_text(row.take(0)));
    while x < side
        invariant
            x <= side,
            start + side <= frame.len(),
            row == frame@.subrange(start as int, start + side),
            out@ == old(out)@ + white() + cells_text(row.take(x as int)),
        decreases side - x,
    {
        let cell: u8 = frame[start + x];
        push_text(out, glyph_of(cell));
        proof {
            let longer = row.take(x + 1);
            assert(longer.drop_last() =~= row.take(x as int));
            assert(longer.last() == cell);
            assert(out@ =~= old(out)@ + white() + cells_text(longer));
        }
        x += 1;
    }
    assert(row.take(side as int) =~= row);
    push_text(out, "\x1b[47m  \x1b[0m");
    push_text(out, "\n");
    assert(out@ =~= old(out)@ + row_text(side as nat, frame@, y as int));
}

/// Renders a frame's grid: one two-character glyph per cell, with a border
/// of white glyphs on all four sides and a line break after every line.
pub fn render_grid(side: usize, frame: &[u8]) -> (out: Vec<u8>)
    requires
        frame@.len() == side * side,
    ensures
        out@ == grid_text(side as nat, frame@),
{
    let mut out: Vec<u8> = Vec::new();
    push_grid(&mut out, side, frame);
    out
}

/// Appends a frame's grid.
fn push_grid(out: &mut Vec<u8>, side: usize, frame: &[u8])
    requires
        frame@.len() == side * side,
    ensures
        final(out)@ == old(out)@ + grid_text(side as nat, frame@),
{
    proof {
        assert(side <= 2 || side + 2 <= side * side) by (nonlinear_arith)
            requires
                side >= 0,
        ;
        assert(frame@.len() == frame.len());
    }
    push_border(out, side);
    let ghost top = out@;
    let mut y: usize = 0;
    assert(out@ =~= top + rows_text(side as nat, frame@, 0));
    while y < side
        invariant
            y <= side,
            side + 2 <= usize::MAX,
            frame@.len() == side * side,
            out@ == top + rows_text(side as nat, frame@, y as nat),
        decreases side - y,
    {
        push_row(out, side, frame, y);
        y += 1;
        assert(out@ =~= top + rows_text(side as nat, frame@, y as nat));
    }
    push_border(out, side);
    assert(out@ =~= old(out)@ + grid_text(side as nat, frame@));
}

/// Puts a rendered grid under its banner, with blank lines above them.
pub fn compose_frame(side: usize, banner: &[u8], grid: &[u8]) -> (out: Vec<u8>)
    ensures
        out@ == framed(side as nat, banner@, grid@),
{
    let mut out: Vec<u8> = Vec::new();
    push_repeated(&mut out, "\n".as_bytes(), side / 2);
    push_all(&mut out, banner);
    push_all(&mut out, grid);
    out
}

/// Renders what is sent for one frame: as many blank lines as the board has
/// rows in one quadrant, then the banner, then the bordered grid.
pub fn render_frame(side: usize, frame: &[u8], banner: &[u8]) -> (out: Vec<u8>)
    requires
        frame@.len() == side * side,
    ensures
        out@ == frame_text(side as nat, banner@, frame@),
{
    let grid: Vec<u8> = render_grid(side, frame);
    compose_frame(side, banner, grid.as_slice())
}

/// Appends one line of the standings.
fn push_standing(out: &mut Vec<u8>, score: Score)
    ensures
        final(out)@ == old(out)@ + standing_text(score),
{
    push_text(out, "\nT");
    push_digits(out, score.team);
    push_text(out, ": ");
    push_padded(out, score.cells, COUNT_WIDTH);
    assert(out@ =~= old(out)@ + standing_text(score));
}

/// Writes the status block for one frame: the round, the step out of the
/// round's steps, and every team of the ranking with its cell count.
pub fn render_status(round: usize, step: usize, steps: usize, ranking: &Vec<Score>) -> (out: Vec<
    u8,
>)
    ensures
        out@ == status_text(round as nat, step as nat, steps as nat, ranking@),
{
    let mut out: Vec<u8> = Vec::new();
    push_text(&mut out, "Game ");
    push_digits(&mut out, round);
    push_text(&mut out, " | step ");
    push_padded(&mut out, step, digit_count(steps));
    push_text(&mut out, "/");
    push_digits(&mut out, steps);
    let ghost head = out@;
    assert(head =~= progress_text(round as nat, step as nat, steps as nat));
    let mut i: usize = 0;
    assert(ranking@.take(0) =~= Seq::<Score>::empty());
    assert(out@ =~= head + standings_text(ranking@.take(0)));
    while i < ranking.len()
        invariant
            i <= ranking.len(),
            out@ == head + standings_text(ranking@.take(i as int)),
        decreases ranking.len() - i,
    {
        push_standing(&mut out, ranking[i]);
        proof {
            let longer = ranking@.take(i + 1);
            assert(longer.drop_last() =~= ranking@.take(i as int));
            assert(out@ =~= head + standings_text(longer));
        }
        i += 1;
    }
    assert(ranking@.take(i as int) =~= ranking@);
    out
}

/// Writes the announcement that ends a round.
pub fn render_winner(team: usize, at: &[u8]) -> (out: Vec<u8>)
    ensures
        out@ == winner_text(team as nat, at@),
{
    let mut out: Vec<u8> = Vec::new();
    push_text(&mut out, "WINNER T");
    push_digits(&mut out, team);
    push_text(&mut out, "! - Next game at \"");
    push_all(&mut out, at);
    push_text(&mut out, "\"");
    assert(out@ =~= winner_text(team as nat, at@));
    out
}

} // verus!
