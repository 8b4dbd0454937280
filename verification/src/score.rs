//! Counting each team's cells in a frame and ranking the teams.

use vstd::prelude::*;

verus! {

/// A team and the number of cells it holds. Teams are numbered from 0 in
/// the order of their slots; team `k` holds the cells of value `k + 1`.
#[derive(Clone, Copy, Debug, PartialEq, Eq, Structural)]
pub struct Score {
    pub team: usize,
    pub cells: usize,
}

/// How many cells of the sequence have the given value.
pub open spec fn occurrences(cells: Seq<u8>, value: u8) -> nat
    decreases cells.len(),
{
    if cells.len() == 0 {
        0
    } else {
        occurrences(cells.drop_last(), value) + if cells.last() == value {
            1nat
        } else {
            0nat
        }
    }
}

/// Whether `a` stands before `b` in a ranking: it holds more cells, or as
/// many and has the lower number.
pub open spec fn outranks(a: Score, b: Score) -> bool {
    a.cells > b.cells || (a.cells == b.cells && a.team < b.team)
}

/// Whether the ranking has an entry for the team.
pub open spec fn listed(ranking: Seq<Score>, team: usize) -> bool {
    exists|i: int| 0 <= i < ranking.len() && (#[trigger] ranking[i]).team == team
}

/// Whether `ranking` lists every team of `counts` once, each with its
/// count, from the team with the most cells down, teams with equal counts
/// in the order of their numbers.
pub open spec fn is_ranking(counts: Seq<usize>, ranking: Seq<Score>) -> bool {
    &&& ranking.len() == counts.len()
    &&& forall|team: usize| team < counts.len() ==> #[trigger] listed(ranking, team)
    &&& forall|i: int|
        0 <= i < ranking.len() ==> (#[trigger] ranking[i]).team < counts.len() && ranking[i].cells
            == counts[ranking[i].team as int]
    &&& forall|i: int, j: int|
        0 <= i < j < ranking.len() ==> outranks(#[trigger] ranking[i], #[trigger] ranking[j])
}

/// No value occurs more often than the sequence is long.
pub proof fn lemma_occurrences_bound(cells: Seq<u8>, value: u8)
    ensures
        occurrences(cells, value) <= cells.len(),
    decreases cells.len(),
{
    if cells.len() > 0 {
        lemma_occurrences_bound(cells.drop_last(), value);
    }
}

/// Counts the cells of each of the four teams in a frame: entry `k` is the
/// number of cells of value `k + 1`.
pub fn tally(frame: &[u8]) -> (counts: Vec<usize>)
    ensures
        counts@.len() == 4,
        forall|k: int| 0 <= k < 4 ==> #[trigger] counts@[k] == occurrences(frame@, (k + 1) as u8),
{
    let mut c1: usize = 0;
    let mut c2: usize = 0;
    let mut c3: usize = 0;
    let mut c4: usize = 0;
    let mut i: usize = 0;
    while i < frame.len()
        invariant
            i <= frame.len(),
            c1 == occurrences(frame@.take(i as int), 1),
            c2 == occurrences(frame@.take(i as int), 2),
            c3 == occurrences(frame@.take(i as int), 3),
            c4 == occurrences(frame@.take(i as int), 4),
        decreases frame.len() - i,
    {
        proof {
            let longer = frame@.take(i + 1);
            assert(longer.drop_last() =~= frame@.take(i as int));
            lemma_occurrences_bound(longer, 1);
            lemma_occurrences_bound(longer, 2);
            lemma_occurrences_bound(longer, 3);
            lemma_occurrences_bound(longer, 4);
        }
        let cell: u8 = frame[i];
        if cell == 1 {
            c1 += 1;
        } else if cell == 2 {
            c2 += 1;
        } else if cell == 3 {
            c3 += 1;
        } else if cell == 4 {
            c4 += 1;
        }
        i += 1;
    }
    assert(frame@.take(i as int) =~= frame@);
    let mut counts: Vec<usize> = Vec::new();
    counts.push(c1);
    counts.push(c2);
    counts.push(c3);
    counts.push(c4);
    counts
}

/// Ranks the teams by the cells they hold, the most first. Teams that hold
/// equally many keep the order of their numbers.
pub fn rank(counts: &Vec<usize>) -> (ranking: Vec<Score>)
    ensures
        is_ranking(counts@, ranking@),
{
    let mut ranking: Vec<Score> = Vec::new();
    let mut team: usize = 0;
    while team < counts.len()
        invariant
            team <= counts.len(),
            ranking@.len() == team,
            forall|t: usize| t < team ==> #[trigger] listed(ranking@, t),
            forall|i: int|
                0 <= i < ranking@.len() ==> (#[trigger] ranking@[i]).team < team && ranking@[i].cells
                    == counts@[ranking@[i].team as int],
            forall|i: int, j: int|
                0 <= i < j < ranking@.len() ==> outranks(
                    #[trigger] ranking@[i],
                    #[trigger] ranking@[j],
                ),
        decreases counts.len() - team,
    {
        let cells: usize = counts[team];
        let mut at: usize = 0;
        while at < ranking.len() && ranking[at].cells >= cells
            invariant
                at <= ranking@.len(),
                forall|i: int| 0 <= i < at ==> (#[trigger] ranking@[i]).cells >= cells,
            decreases ranking@.len() - at,
        {
            at += 1;
        }
        let ghost earlier = ranking@;
        let entry = Score { team, cells };
        ranking.insert(at, entry);
        proof {
            assert forall|t: usize| t < team + 1 implies #[trigger] listed(ranking@, t) by {
                if t == team {
                    assert(ranking@[at as int].team == t);
                } else {
                    assert(listed(earlier, t));
                    let i = choose|i: int| 0 <= i < earlier.len() && (#[trigger] earlier[i]).team == t;
                    let k = if i < at {
                        i
                    } else {
                        i + 1
                    };
                    assert(ranking@[k] == earlier[i]);
                }
            }
            assert forall|i: int, j: int| 0 <= i < j < ranking@.len() implies outranks(
                #[trigger] ranking@[i],
                #[trigger] ranking@[j],
            ) by {
                if i == at {
                    assert(ranking@[j] == earlier[j - 1]);
                    assert(outranks(earlier[at as int], earlier[j - 1]) || j - 1 == at);
                } else if j == at {
                    assert(ranking@[i] == earlier[i]);
                } else {
                    let a = if i < at {
                        i
                    } else {
                        i - 1
                    };
                    let b = if j < at {
                        j
                    } else {
                        j - 1
                    };
                    assert(ranking@[i] == earlier[a]);
                    assert(ranking@[j] == earlier[b]);
                }
            }
            assert forall|i: int| 0 <= i < ranking@.len() implies (#[trigger] ranking@[i]).team
                < team + 1 && ranking@[i].cells == counts@[ranking@[i].team as int] by {
                if i < at {
                    assert(ranking@[i] == earlier[i]);
                } else if i > at {
                    assert(ranking@[i] == earlier[i - 1]);
                }
            }
        }
        team += 1;
    }
    ranking
}

} // verus!
