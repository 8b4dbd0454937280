use team_life::score::{rank, tally, Score};

#[test]
fn tally_counts_each_team() {
    assert_eq!(tally(&[0, 1, 1, 2, 4, 4, 4, 0, 0]), vec![2, 1, 0, 3]);
    assert_eq!(tally(&[]), vec![0, 0, 0, 0]);
    assert_eq!(tally(&[3, 3, 3]), vec![0, 0, 3, 0]);
}

#[test]
fn tally_passes_over_what_is_no_team() {
    assert_eq!(tally(&[0, 5, 255, 1]), vec![1, 0, 0, 0]);
}

#[test]
fn rank_puts_the_most_cells_first() {
    assert_eq!(
        rank(&vec![3, 9, 0, 4]),
        vec![
            Score { team: 1, cells: 9 },
            Score { team: 3, cells: 4 },
            Score { team: 0, cells: 3 },
            Score { team: 2, cells: 0 },
        ]
    );
}

#[test]
fn rank_keeps_equal_teams_in_their_order() {
    assert_eq!(
        rank(&vec![3, 5, 3, 5]),
        vec![
            Score { team: 1, cells: 5 },
            Score { team: 3, cells: 5 },
            Score { team: 0, cells: 3 },
            Score { team: 2, cells: 3 },
        ]
    );
    assert_eq!(
        rank(&vec![0, 0, 0, 0]),
        vec![
            Score { team: 0, cells: 0 },
            Score { team: 1, cells: 0 },
            Score { team: 2, cells: 0 },
            Score { team: 3, cells: 0 },
        ]
    );
}

#[test]
fn rank_of_nothing_is_empty() {
    assert_eq!(rank(&Vec::new()), Vec::new());
}
