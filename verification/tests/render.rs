use team_life::history::History;
use team_life::render::{
    compose_frame, glyph_of, render_frame, render_grid, render_status, render_winner,
};
use team_life::score::{rank, tally, Score};
use team_life::strategy::plan_load;

const WHITE: &str = "\x1b[47m  \x1b[0m";

#[test]
fn glyphs_are_two_characters_in_the_team_colour() {
    assert_eq!(glyph_of(0), "  ");
    assert_eq!(glyph_of(1), "\x1b[41m  \x1b[0m");
    assert_eq!(glyph_of(2), "\x1b[42m  \x1b[0m");
    assert_eq!(glyph_of(3), "\x1b[44m  \x1b[0m");
    assert_eq!(glyph_of(4), "\x1b[46m  \x1b[0m");
}

#[test]
fn grid_of_one_cell_has_a_border_all_round() {
    let expected = format!(
        "{w}{w}{w}\n{w}\x1b[42m  \x1b[0m{w}\n{w}{w}{w}\n",
        w = WHITE
    );
    assert_eq!(render_grid(1, &[2]), expected.into_bytes());
}

#[test]
fn grid_lists_rows_from_the_top() {
    let expected = format!(
        "{w}{w}{w}{w}\n{w}\x1b[41m  \x1b[0m  {w}\n{w}\x1b[44m  \x1b[0m\x1b[46m  \x1b[0m{w}\n{w}{w}{w}{w}\n",
        w = WHITE
    );
    assert_eq!(render_grid(2, &[1, 0, 3, 4]), expected.into_bytes());
}

#[test]
fn grid_of_no_cells_is_two_border_lines() {
    let expected = format!("{w}{w}\n{w}{w}\n", w = WHITE);
    assert_eq!(render_grid(0, &[]), expected.into_bytes());
}

#[test]
fn frame_has_blank_lines_then_banner_then_grid() {
    let grid = render_grid(4, &[0u8; 16]);
    let mut expected = b"\n\nBANNER\n".to_vec();
    expected.extend_from_slice(&grid);
    assert_eq!(render_frame(4, &[0u8; 16], b"BANNER\n"), expected);
    let grid = render_grid(1, &[3]);
    assert_eq!(render_frame(1, &[3], b""), grid);
}

#[test]
fn composed_frame_is_the_rendered_frame() {
    let frame = [1u8, 2, 3, 4, 0, 0, 0, 0, 4, 3, 2, 1, 0, 1, 0, 1];
    let grid = render_grid(4, &frame);
    assert_eq!(compose_frame(4, b"top\n", &grid), render_frame(4, &frame, b"top\n"));
    assert_eq!(compose_frame(6, b"", b"grid"), b"\n\n\ngrid".to_vec());
}

#[test]
fn status_pads_step_and_counts() {
    let ranking = vec![
        Score { team: 1, cells: 12 },
        Score { team: 0, cells: 5 },
        Score { team: 2, cells: 5 },
        Score { team: 3, cells: 0 },
    ];
    assert_eq!(
        render_status(3, 7, 2048, &ranking),
        b"Game 3 | step 0007/2048\nT1: 0012\nT0: 0005\nT2: 0005\nT3: 0000".to_vec()
    );
}

#[test]
fn status_keeps_numbers_wider_than_their_padding() {
    let ranking = vec![Score { team: 0, cells: 16384 }, Score { team: 10, cells: 9999 }];
    assert_eq!(
        render_status(120, 12, 9, &ranking),
        b"Game 120 | step 12/9\nT0: 16384\nT10: 9999".to_vec()
    );
    assert_eq!(render_status(0, 0, 0, &Vec::new()), b"Game 0 | step 0/0".to_vec());
    assert_eq!(render_status(0, 1, 100, &Vec::new()), b"Game 0 | step 001/100".to_vec());
}

#[test]
fn winner_names_the_team_and_the_time() {
    assert_eq!(
        render_winner(2, b"2024-01-01T00:05:01Z"),
        b"WINNER T2! - Next game at \"2024-01-01T00:05:01Z\"".to_vec()
    );
    assert_eq!(render_winner(0, b""), b"WINNER T0! - Next game at \"\"".to_vec());
}

#[test]
fn empty_seed_streams_identical_empty_frames() {
    let side = 4;
    let steps = 2;
    let plan = plan_load(side, &Vec::new());
    assert_eq!(plan.strategies, vec![b"0000".to_vec(); 4]);
    let mut history = History::new(side, steps).unwrap();
    history.seed(&plan.strategies);
    history.compute_round();
    let mut frames = Vec::new();
    for i in 0..steps {
        let frame = history.frame(i);
        assert_eq!(frame, &[0u8; 16][..]);
        let ranking = rank(&tally(frame));
        assert!(ranking.iter().all(|s| s.cells == 0));
        frames.push(render_frame(side, frame, b""));
    }
    assert_eq!(frames[0], frames[1]);
    let row = format!("{w}        {w}\n", w = WHITE);
    let border = format!("{b}\n", b = WHITE.repeat(6));
    let expected = format!("\n\n{b}{r}{r}{r}{r}{b}", b = border, r = row);
    assert_eq!(frames[0], expected.into_bytes());
}

#[test]
fn readers_of_one_round_get_the_same_frames() {
    let mut history = History::new(6, 4).unwrap();
    history.seed(&vec![
        b"010010010".to_vec(),
        b"111000000".to_vec(),
        b"000111000".to_vec(),
        b"100100100".to_vec(),
    ]);
    history.compute_round();
    for i in 0..4 {
        let first = render_frame(6, history.frame(i), b"x");
        let second = render_frame(6, history.frame(i), b"x");
        assert_eq!(first, second);
    }
}
