use streams_solver::cards::points_for_run;
use streams_solver::score::score_cells;
use streams_solver::{board_from_str, GameState};

fn score_of(text: &str) -> i32 {
    GameState::new(board_from_str(text).unwrap()).score()
}

#[test]
fn score_of_empty_board_is_zero() {
    assert_eq!(score_of("____________________"), 0);
}

#[test]
fn score_of_full_ascending_board_is_300() {
    assert_eq!(score_of("123456789ABCDEFGHIJK"), 300);
}

#[test]
fn score_of_full_descending_board_is_zero() {
    assert_eq!(score_of("UTSRQPONMLKJIHGFEDCB"), 0);
}

#[test]
fn points_for_each_run_length() {
    let expected = [
        0, 0, 1, 3, 5, 7, 9, 10, 15, 20, 25, 30, 20, 40, 50, 60, 70, 50, 100, 150, 300,
    ];
    for len in 0..=20usize {
        assert_eq!(points_for_run(len), expected[len]);
    }
}

#[test]
fn wildcard_after_card_extends_run() {
    assert_eq!(score_of("5★__________________"), 1);
    assert_eq!(score_of("3★4_________________"), 3);
    assert_eq!(score_of("1★★_________________"), 3);
}

#[test]
fn wildcard_repeats_value_to_its_left() {
    // The wildcard stands for 3, so the 2 after it starts a new run.
    assert_eq!(score_of("3★2_________________"), 1);
}

#[test]
fn wildcard_without_predecessor_scores_nothing() {
    assert_eq!(score_of("★___________________"), 0);
    assert_eq!(score_of("★5__________________"), 0);
    assert_eq!(score_of("_★4_________________"), 0);
    assert_eq!(score_of("★56_________________"), 1);
}

#[test]
fn step_down_starts_new_run() {
    assert_eq!(score_of("21__________________"), 0);
    assert_eq!(score_of("12312_______________"), 4);
}

#[test]
fn empty_cell_closes_run() {
    assert_eq!(score_of("12_34_______________"), 2);
}

#[test]
fn equal_values_extend_run() {
    assert_eq!(score_of("BB__________________"), 1);
}

#[test]
fn run_of_twelve_scores_twenty() {
    assert_eq!(score_of("123456789ABC________"), 20);
}

#[test]
fn run_of_nineteen_scores_150() {
    assert_eq!(score_of("123456789ABCDEFGHIJ_"), 150);
}

#[test]
fn zero_digit_reads_as_empty_cell() {
    assert_eq!(score_of("1234567890ABCDEFGHIJ"), 45);
    assert_eq!(score_of("12345678_ABCDEFGHIJK"), 45);
}

#[test]
fn scoring_is_repeatable() {
    let gs = GameState::new(board_from_str("12_34★7__9AB__21____").unwrap());
    let first = gs.score();
    assert_eq!(gs.score(), first);
    assert_eq!(gs.score(), first);
}

#[test]
fn score_cells_agrees_with_state_score() {
    let cells = board_from_str("123456789ABCDEFGH___").unwrap();
    assert_eq!(score_cells(&cells), 50);
    assert_eq!(GameState::new(cells).score(), 50);
}

#[test]
fn score_handles_codes_above_the_wildcard() {
    let mut cells = [0u8; 20];
    cells[0] = 200;
    cells[1] = 201;
    cells[2] = 31;
    assert_eq!(score_cells(&cells), 3);
}
