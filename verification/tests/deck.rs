use streams_solver::cards::full_copies;
use streams_solver::{board_from_str, GameState};

fn state_of(text: &str) -> GameState {
    GameState::new(board_from_str(text).unwrap())
}

fn counter_sum(st: &GameState) -> u32 {
    st.deck_counts().iter().map(|&c| c as u32).sum()
}

#[test]
fn full_deck_multiplicities() {
    let st = state_of("____________________");
    let counts = st.deck_counts();
    assert_eq!(counts[0], 0);
    for card in 1..=31usize {
        let expected = if (11..=19).contains(&card) { 2 } else { 1 };
        assert_eq!(counts[card], expected);
        assert_eq!(full_copies(card as u8), expected);
    }
    assert_eq!(full_copies(0), 0);
    assert_eq!(full_copies(32), 0);
    assert_eq!(st.deck_len(), 40);
}

#[test]
fn counters_sum_to_total() {
    for text in [
        "____________________",
        "123456789ABCDEFGHI__",
        "123456789ABCDEFGHIJK",
        "★5__B_B___U_________",
        "11111111111111111111",
        "BBB_________________",
    ] {
        let st = state_of(text);
        assert_eq!(counter_sum(&st), st.deck_len() as u32);
    }
}

#[test]
fn total_is_twenty_plus_empty_cells() {
    for text in ["____________________", "123456789ABCDEFGHI__", "123456789ABCDEFGHIJK"] {
        let st = state_of(text);
        assert_eq!(st.deck_len() as usize, 20 + st.empty_count());
    }
}

#[test]
fn cards_on_board_leave_deck() {
    let st = state_of("1B★_B_______________");
    assert_eq!(st.deck_count(1), 0);
    assert_eq!(st.deck_count(11), 0);
    assert_eq!(st.deck_count(31), 0);
    assert_eq!(st.deck_count(12), 2);
    assert_eq!(st.deck_count(2), 1);
    assert_eq!(st.deck_len(), 36);
}

#[test]
fn card_held_too_often_leaves_none() {
    let st = state_of("11111111111111111111");
    assert_eq!(st.deck_count(1), 0);
    assert_eq!(st.deck_len(), 39);
    let st = state_of("BBB_________________");
    assert_eq!(st.deck_count(11), 0);
    assert_eq!(st.deck_len(), 38);
}

#[test]
fn codes_above_the_wildcard_take_nothing() {
    let mut cells = [0u8; 20];
    cells[3] = 77;
    let st = GameState::new(cells);
    assert_eq!(st.deck_len(), 40);
    assert_eq!(st.cell(3), 77);
}

#[test]
fn place_and_remove_restore_board() {
    let mut st = state_of("123456789ABCDEFGHI__");
    let before = format!("{:?}", st);
    st.place(18, 19);
    assert_eq!(st.cell(18), 19);
    assert_eq!(st.empty_count(), 1);
    assert_eq!(st.score(), 150);
    assert_eq!(st.deck_len(), 22);
    st.remove(18);
    assert_eq!(format!("{:?}", st), before);
}

#[test]
fn draw_and_undraw_restore_deck() {
    let mut st = state_of("123456789ABCDEFGHI__");
    let before = format!("{:?}", st);
    st.draw(19);
    assert_eq!(st.deck_count(19), 1);
    assert_eq!(st.deck_len(), 21);
    assert_eq!(counter_sum(&st), 21);
    st.undraw(19);
    assert_eq!(format!("{:?}", st), before);
}

#[test]
fn empty_positions_in_board_order() {
    assert_eq!(state_of("123456789ABCDEFGHI__").empty_positions(), vec![18, 19]);
    assert_eq!(state_of("_2_4________________").empty_positions().len(), 18);
    assert_eq!(state_of("_2_4________________").empty_positions()[..3], [0, 2, 4]);
    assert_eq!(state_of("123456789ABCDEFGHIJK").empty_positions(), Vec::<usize>::new());
    assert_eq!(state_of("0★__________________").empty_positions()[..2], [0, 2]);
}

#[test]
fn board_getter_returns_cells() {
    let cells = board_from_str("123456789ABCDEFGHI__").unwrap();
    let st = GameState::new(cells);
    assert_eq!(st.board(), cells);
    assert_eq!(st.empty_count(), 2);
}

#[test]
fn clone_is_independent() {
    let mut st = state_of("123456789ABCDEFGHI__");
    let copy = st.clone();
    st.place(19, 30);
    assert_eq!(copy.cell(19), 0);
    assert_eq!(st.cell(19), 30);
}
