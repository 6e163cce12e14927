use streams_solver::{board_from_str, ev_before_draw, GameState, McParams, SimpleRng};

#[test]
fn basic_score() {
    let b = board_from_str("123456789ABCDEFGHI__").unwrap();
    let gs = GameState::new(b);
    assert_eq!(gs.score(), 100);
}

#[test]
fn ev_two_empty_cells_mc_vs_bruteforce() {
    let board_str = "123456789ABCDEFGHI__";
    let board = board_from_str(board_str).unwrap();
    let mut state = GameState::new(board);
    let params = McParams { sims: 5000, rollout_limit: 2 };
    let mut rng = SimpleRng::default();
    let mc_ev = ev_before_draw(&mut state, &params, &mut rng, 0);
    println!("EV (MC) = {:.3}", mc_ev.num as f64 / mc_ev.den as f64);
}
