use streams_solver::{
    board_from_str, can_evaluate, checked_scale, ev_after_draw, ev_before_draw,
    expected_value_current_board, expected_value_with_rng, expected_values_after_card,
    expected_values_after_card_with_rng, Expectation, GameState, McParams, SimpleRng,
};

fn state_of(text: &str) -> GameState {
    GameState::new(board_from_str(text).unwrap())
}

fn as_float(e: Expectation) -> f64 {
    e.num as f64 / e.den as f64
}

fn ev(text: &str, sims: usize, rollout_limit: usize, seed: u64) -> Expectation {
    let mut st = state_of(text);
    let p = McParams { sims, rollout_limit };
    assert!(can_evaluate(&st, &p, 0));
    ev_before_draw(&mut st, &p, &mut SimpleRng::new(seed), 0)
}

#[test]
fn default_params_are_five_samples_from_depth_one() {
    let p = McParams::default();
    assert_eq!(p.sims, 5);
    assert_eq!(p.rollout_limit, 1);
}

#[test]
fn full_board_value_is_its_score() {
    assert_eq!(ev("123456789ABCDEFGHIJK", 5, 1, 3), Expectation { num: 300, den: 1 });
    assert_eq!(ev("UTSRQPONMLKJIHGFEDCB", 5, 0, 3), Expectation { num: 0, den: 1 });
    assert_eq!(
        expected_value_current_board("123456789ABCDEFGHIJK", 1000),
        Ok(Expectation { num: 300, den: 1 })
    );
    let mut rng = SimpleRng::new(8);
    assert_eq!(
        expected_value_with_rng("11111111111111111111", 0, &mut rng),
        Ok(Expectation { num: 300, den: 1 })
    );
    assert_eq!(rng.next_u64(), SimpleRng::new(8).next_u64());
}

#[test]
fn one_empty_cell_is_averaged_over_the_deck() {
    // 21 cards left; 19 or more completes the run of twenty.
    assert_eq!(ev("123456789ABCDEFGHIJ_", 5, 1, 3), Expectation { num: 5100, den: 21 });
    assert_eq!(ev("12345678_ABCDEFGHIJK", 5, 1, 3), Expectation { num: 1550, den: 21 });
}

#[test]
fn two_empty_cells_searched_exactly() {
    let e = ev("123456789ABCDEFGHI__", 5000, 2, 7);
    assert_eq!(e, Expectation { num: 90363, den: 462 });
    assert!((as_float(e) - 195.590909).abs() < 1e-6);
}

#[test]
fn exact_search_ignores_the_generator() {
    let mut st = state_of("123456789ABCDEFGHI__");
    let p = McParams { sims: 5000, rollout_limit: 2 };
    let mut a = SimpleRng::new(7);
    let mut b = SimpleRng::new(99);
    let first = ev_before_draw(&mut st, &p, &mut a, 0);
    let second = ev_before_draw(&mut st, &p, &mut b, 0);
    assert_eq!(first, second);
    assert_eq!(a.next_u64(), SimpleRng::new(7).next_u64());
    assert_eq!(b.next_u64(), SimpleRng::new(99).next_u64());
    assert_eq!(ev("123456789ABCDEFGH___", 1, 3, 1), ev("123456789ABCDEFGH___", 9, 20, 2));
}

#[test]
fn sampled_values_for_known_seeds() {
    assert_eq!(ev("123456789ABCDEFGHI__", 5, 1, 42), Expectation { num: 21959, den: 110 });
    assert_eq!(ev("123456789ABCDEFGH___", 7, 1, 2024), Expectation { num: 22973, den: 161 });
    assert_eq!(ev("123456789ABCDEFGH___", 3, 2, 2024), Expectation { num: 254313, den: 1518 });
    assert_eq!(ev("____________________", 4, 1, 5), Expectation { num: 2559, den: 160 });
}

#[test]
fn depth_limit_zero_samples_at_once() {
    assert_eq!(ev("____________________", 4, 0, 5), Expectation { num: 43, den: 4 });
    let st = state_of("____________________");
    let p = McParams { sims: 4, rollout_limit: 3 };
    let mut copy = st.clone();
    let deep = ev_before_draw(&mut copy, &p, &mut SimpleRng::new(5), 3);
    assert_eq!(deep, Expectation { num: 43, den: 4 });
}

#[test]
fn search_hands_the_state_back_unchanged() {
    for (text, sims, limit) in [
        ("123456789ABCDEFGHI__", 5000, 2),
        ("123456789ABCDEFGH___", 6, 1),
        ("123456789ABCDEFGH___", 2, 2),
        ("____________________", 3, 1),
        ("123456789ABCDEFGHIJK", 3, 1),
    ] {
        let mut st = state_of(text);
        let before = format!("{:?}", st);
        let p = McParams { sims, rollout_limit: limit };
        ev_before_draw(&mut st, &p, &mut SimpleRng::new(17), 0);
        assert_eq!(format!("{:?}", st), before);
        let again = ev_before_draw(&mut st, &p, &mut SimpleRng::new(17), 0);
        let mut fresh = state_of(text);
        assert_eq!(again, ev_before_draw(&mut fresh, &p, &mut SimpleRng::new(17), 0));
    }
}

#[test]
fn after_draw_takes_the_best_cell() {
    let mut st = state_of("123456789ABCDEFGHI__");
    st.draw(19);
    let before = format!("{:?}", st);
    let mut rng = SimpleRng::new(5);
    let exact = ev_after_draw(&mut st, 19, &McParams { sims: 5, rollout_limit: 2 }, &mut rng, 0);
    assert_eq!(exact, Expectation { num: 5100, den: 21 });
    assert_eq!(format!("{:?}", st), before);
    let mut rng = SimpleRng::new(5);
    let sampled = ev_after_draw(&mut st, 19, &McParams { sims: 5, rollout_limit: 1 }, &mut rng, 0);
    assert_eq!(sampled, Expectation { num: 1350, den: 5 });
    assert_eq!(format!("{:?}", st), before);
}

#[test]
fn draw_probabilities_sum_to_one() {
    for text in ["____________________", "123456789ABCDEFGHI__", "★5__B_B___U_________"] {
        let st = state_of(text);
        let total = st.deck_len() as f64;
        let mut weights = 0u32;
        let mut probability = 0.0f64;
        for card in 1..=31u8 {
            let count = st.deck_count(card);
            if count != 0 {
                weights += count as u32;
                probability += count as f64 / total;
            }
        }
        assert_eq!(weights, st.deck_len() as u32);
        assert!((probability - 1.0).abs() < 1e-12);
    }
}

#[test]
fn no_samples_leave_no_value() {
    let e = ev("123456789ABCDEFGH___", 0, 1, 1);
    assert_eq!(e, Expectation { num: 0, den: 0 });
    assert!(as_float(e).is_nan());
    // Where no state is sampled the sample count does not matter.
    assert_eq!(ev("123456789ABCDEFGHIJ_", 0, 1, 1), Expectation { num: 5100, den: 21 });
}

#[test]
fn scale_values() {
    let p = McParams { sims: 5, rollout_limit: 1 };
    assert_eq!(checked_scale(40, 20, &p, 0), Some(200));
    assert_eq!(checked_scale(20, 0, &p, 0), Some(1));
    assert_eq!(checked_scale(0, 3, &p, 0), Some(1));
    assert_eq!(checked_scale(21, 1, &p, 0), Some(21));
    assert_eq!(checked_scale(22, 2, &p, 1), Some(5));
    let p = McParams { sims: 5000, rollout_limit: 2 };
    assert_eq!(checked_scale(22, 2, &p, 0), Some(462));
    assert_eq!(checked_scale(23, 3, &p, 0), Some(23 * 22 * 5000));
    let p = McParams { sims: 1, rollout_limit: 20 };
    assert_eq!(checked_scale(40, 20, &p, 0), Some(335367096786357081410764800000));
    let p = McParams { sims: usize::MAX, rollout_limit: 19 };
    assert_eq!(checked_scale(40, 20, &p, 0), None);
}

#[test]
fn can_evaluate_tells_what_fits() {
    let st = state_of("____________________");
    assert!(can_evaluate(&st, &McParams::default(), 0));
    assert!(can_evaluate(&st, &McParams { sims: usize::MAX, rollout_limit: 1 }, 0));
    assert!(can_evaluate(&st, &McParams { sims: usize::MAX, rollout_limit: 20 }, 0));
    assert!(can_evaluate(&st, &McParams { sims: 1 << 20, rollout_limit: 19 }, 0));
    assert!(!can_evaluate(&st, &McParams { sims: 1 << 40, rollout_limit: 19 }, 0));
    assert!(can_evaluate(&st, &McParams { sims: 1 << 40, rollout_limit: 19 }, 12));
}

#[test]
fn short_deck_is_evaluated_where_nothing_is_sampled() {
    // One card left for two empty cells: at depth 1 the deck is empty.
    let mut short = state_of("123456789ABCDEFGHI__");
    for card in 11..=30u8 {
        while short.deck_count(card) > 0 {
            short.draw(card);
        }
    }
    assert_eq!(short.deck_len(), 1);
    let p = McParams::default();
    assert!(can_evaluate(&short, &p, 0));
    let e = ev_before_draw(&mut short, &p, &mut SimpleRng::new(3), 0);
    assert_eq!(e, Expectation { num: 150, den: 1 });

    // Two cards left for three empty cells.
    let mut short = state_of("123456789ABCDEFGH___");
    for card in 11..=29u8 {
        while short.deck_count(card) > 0 {
            short.draw(card);
        }
    }
    assert_eq!(short.deck_len(), 2);
    // A sample at depth 1 would find one card for two empty cells.
    assert!(!can_evaluate(&short, &McParams { sims: 5, rollout_limit: 1 }, 0));
    assert!(!can_evaluate(&short, &McParams { sims: 5, rollout_limit: 0 }, 0));
    // At depth 2 the deck is empty and nothing is sampled.
    let p = McParams { sims: 5, rollout_limit: 2 };
    assert!(can_evaluate(&short, &p, 0));
    let mut rng = SimpleRng::new(3);
    let e = ev_before_draw(&mut short, &p, &mut rng, 0);
    assert_eq!(e, Expectation { num: 300, den: 2 });
    assert_eq!(rng.next_u64(), SimpleRng::new(3).next_u64());
}

#[test]
fn value_from_text_matches_direct_call() {
    let mut rng = SimpleRng::new(42);
    assert_eq!(
        expected_value_with_rng("123456789ABCDEFGHI__", 5, &mut rng),
        Ok(Expectation { num: 21959, den: 110 })
    );
    assert_eq!(rng.next_u64(), {
        let mut st = state_of("123456789ABCDEFGHI__");
        let mut other = SimpleRng::new(42);
        ev_before_draw(&mut st, &McParams::default(), &mut other, 0);
        other.next_u64()
    });
}

#[test]
fn value_from_text_reports_parse_errors() {
    let mut rng = SimpleRng::new(42);
    assert_eq!(
        expected_value_with_rng("123", 5, &mut rng),
        Err("board string must be 20 chars".to_string())
    );
    assert_eq!(
        expected_value_with_rng("123456789abcdefghi__", 5, &mut rng),
        Err("bad char a".to_string())
    );
    assert_eq!(rng.next_u64(), SimpleRng::new(42).next_u64());
    assert_eq!(
        expected_value_current_board("", 5),
        Err("board string must be 20 chars".to_string())
    );
    assert_eq!(
        expected_values_after_card("1234567890ABCDEFGHI?", 4, 5),
        Err("bad char ?".to_string())
    );
    assert_eq!(
        expected_values_after_card_with_rng("__", 4, 5, &mut rng),
        Err("board string must be 20 chars".to_string())
    );
}

#[test]
fn clock_seeded_value_is_bounded() {
    let e = expected_value_current_board("123456789ABCDEFGHI__", 5).unwrap();
    assert_eq!(e.den, 110);
    assert!(e.num <= 300 * e.den);
    // Every completion keeps the run of eighteen, worth 100 points.
    assert!(e.num >= 100 * e.den);
}

#[test]
fn per_cell_values_for_known_seeds() {
    let mut rng = SimpleRng::new(11);
    let vals =
        expected_values_after_card_with_rng("123456789ABCDEFGHI__", 19, 5, &mut rng).unwrap();
    for pos in 0..18 {
        assert_eq!(vals[pos], Expectation { num: 0, den: 1 });
    }
    assert_eq!(vals[18], Expectation { num: 5400, den: 22 });
    assert_eq!(vals[19], Expectation { num: 3557, den: 22 });
    assert_eq!(rng.next_u64(), SimpleRng::new(11).next_u64());

    let mut rng = SimpleRng::new(8);
    let vals =
        expected_values_after_card_with_rng("123456789ABCDEFGH___", 31, 4, &mut rng).unwrap();
    assert_eq!(vals[16], Expectation { num: 0, den: 1 });
    assert_eq!(vals[17], Expectation { num: 19207, den: 92 });
    assert_eq!(vals[18], Expectation { num: 19223, den: 92 });
    assert_eq!(vals[19], Expectation { num: 15733, den: 92 });

    let mut rng = SimpleRng::new(1);
    let vals =
        expected_values_after_card_with_rng("123456789ABCDEFGHIJ_", 30, 5, &mut rng).unwrap();
    assert_eq!(vals[19], Expectation { num: 300, den: 1 });
}

#[test]
fn per_cell_values_are_zero_or_finite() {
    let text = "12_456_89ABC_EFGHI__";
    let cells = board_from_str(text).unwrap();
    let vals = expected_values_after_card(text, 13, 3).unwrap();
    assert_eq!(vals.len(), 20);
    for pos in 0..20 {
        let v = as_float(vals[pos]);
        if cells[pos] != 0 {
            assert_eq!(vals[pos], Expectation { num: 0, den: 1 });
            assert_eq!(v, 0.0);
        } else {
            assert!(vals[pos].den > 0);
            assert!(v.is_finite());
            assert!(v >= 0.0);
            assert!(v <= 300.0);
        }
    }
}

#[test]
fn per_cell_card_zero_leaves_board_as_it_is() {
    let mut rng = SimpleRng::new(4);
    let vals =
        expected_values_after_card_with_rng("123456789ABCDEFGHIJ_", 0, 5, &mut rng).unwrap();
    assert_eq!(vals[19], Expectation { num: 5100, den: 21 });
    assert_eq!(vals[0], Expectation { num: 0, den: 1 });
}
