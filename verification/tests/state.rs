use connect_4::codes::{board_summary, choice_candidates, column_request, step};
use connect_4::rules::{FIELD_SIZE, HEIGHT, WIDTH};
use connect_4::state::{Field, Player, State};
use rand::{thread_rng, Rng};

fn make_random_field() -> Field {
    let mut field = Field::new();
    for _ in 0..thread_rng().gen_range(0..FIELD_SIZE) {
        let x = thread_rng().gen_range(0..WIDTH);
        let y = thread_rng().gen_range(0..HEIGHT);
        field.set(x, y, true);
    }
    field
}

#[test]
fn random_field_test() {
    for _ in 0..10000 {
        let field = make_random_field();
        for x in 0..WIDTH {
            assert_eq!(ref_stones_in_col(field, x), field.stones_in_col(x));
            assert_eq!(ref_is_horizontal_win(field), field.is_horizontal_win());
            assert_eq!(ref_is_vertical_win(field), field.is_vertial_win());
            assert_eq!(
                ref_is_diagonal_win_nw_se(field),
                field.is_diagonal_win_nw_se()
            );
            assert_eq!(
                ref_is_diagonal_win_sw_ne(field),
                field.is_diagonal_win_sw_ne()
            );
        }
    }
}

fn ref_stones_in_col(fields: Field, x: usize) -> usize {
    let mut count = 0;
    for y in 0..HEIGHT {
        if fields.get(x, y) {
            count += 1;
        }
    }
    count
}

// checks if there are 4 consecutive pieces in a row
fn ref_is_horizontal_win(field: Field) -> bool {
    for y in 0..HEIGHT {
        for x in 0..WIDTH - 3 {
            if field.get(x, y) && field.get(x + 1, y) && field.get(x + 2, y) && field.get(x + 3, y)
            {
                return true;
            }
        }
    }
    false
}

// checks if there are 4 consecutive pieces in a column
fn ref_is_vertical_win(field: Field) -> bool {
    for x in 0..WIDTH {
        for y in 0..HEIGHT - 3 {
            if field.get(x, y) && field.get(x, y + 1) && field.get(x, y + 2) && field.get(x, y + 3)
            {
                return true;
            }
        }
    }
    false
}

// checks if there are 4 consecutive pieces in a diagonal
fn ref_is_diagonal_win_nw_se(field: Field) -> bool {
    for x in 0..WIDTH - 3 {
        for y in 0..HEIGHT - 3 {
            if field.get(x, y)
                && field.get(x + 1, y + 1)
                && field.get(x + 2, y + 2)
                && field.get(x + 3, y + 3)
            {
                return true;
            }
        }
    }
    false
}

// checks if there are 4 consecutive pieces in a diagonal
fn ref_is_diagonal_win_sw_ne(field: Field) -> bool {
    for x in 0..WIDTH - 3 {
        for y in 3..HEIGHT {
            if field.get(x, y)
                && field.get(x + 1, y - 1)
                && field.get(x + 2, y - 2)
                && field.get(x + 3, y - 3)
            {
                return true;
            }
        }
    }
    false
}

fn play(columns: &[usize]) -> State {
    columns.iter().fold(State::new(), |state, &x| state.put(x))
}

#[test]
fn encoding_switches_perspective() {
    let features = |s: State| -> Vec<f32> { s.features().iter().map(|&v| v as f32).collect() };
    let s = State::new().put(2);
    assert_eq!(features(s)[42 + 2], 1.0);
    assert_eq!(features(s).iter().sum::<f32>(), 1.0);
    let s = s.put(3);
    assert_eq!(features(s)[2], 1.0);
    assert_eq!(features(s)[42 + 3], 1.0);
}

#[test]
fn new_state_is_empty_with_a_to_move() {
    let s = State::new();
    assert!(s.player() == Player::A);
    for x in 0..WIDTH {
        assert_eq!(s.stones_in_col(x), 0);
        assert!(s.can_put(x));
        for y in 0..HEIGHT {
            assert_eq!(s.get(x, y), None);
        }
    }
    assert!(!s.is_full());
    assert!(!s.is_win());
    assert!(s.win_player().is_none());
    assert_eq!(s.iter_moves(), vec![0, 1, 2, 3, 4, 5, 6]);
}

#[test]
fn put_stacks_stones_and_alternates_players() {
    let s = play(&[3, 3, 3]);
    assert_eq!(s.get(3, 0), Some(true));
    assert_eq!(s.get(3, 1), Some(false));
    assert_eq!(s.get(3, 2), Some(true));
    assert_eq!(s.get(3, 3), None);
    assert_eq!(s.stones_in_col(3), 3);
    assert_eq!(s.stones_in_col(2), 0);
    assert!(s.player() == Player::B);
    assert!(s.player().other() == Player::A);
    assert_eq!(s.player().label(), "B");
    assert_eq!(Player::A.label(), "A");
}

#[test]
fn full_column_leaves_the_moves() {
    let s = play(&[0, 0, 0, 0, 0, 0]);
    assert!(!s.can_put(0));
    assert_eq!(s.iter_moves(), vec![1, 2, 3, 4, 5, 6]);
    assert!(!s.is_win());
}

#[test]
fn wins_in_every_direction() {
    // row
    let s = play(&[0, 0, 1, 1, 2, 2, 3]);
    assert!(s.is_win());
    assert!(s.win_player() == Some(Player::A));
    // column
    let s = play(&[5, 0, 5, 1, 5, 2, 5]);
    assert!(s.win_player() == Some(Player::A));
    // rising diagonal, won by A
    let s = play(&[0, 1, 1, 2, 2, 3, 2, 3, 3, 6, 3]);
    assert!(s.win_player() == Some(Player::A));
    // falling diagonal, won by A
    let s = play(&[6, 5, 5, 4, 4, 3, 4, 3, 3, 0, 3]);
    assert!(s.win_player() == Some(Player::A));
    // B wins a column
    let s = play(&[0, 6, 1, 6, 0, 6, 1, 6]);
    assert!(s.win_player() == Some(Player::B));
}

#[test]
fn three_in_a_row_is_no_win() {
    let s = play(&[0, 0, 1, 1, 2, 2]);
    assert!(!s.is_win());
    assert_eq!(s.winning_moves(), vec![3]);
    let s = play(&[0, 6, 1, 6, 2]);
    assert_eq!(s.winning_moves(), vec![]);
}

#[test]
fn draw_fills_the_board() {
    let moves = [
        6, 5, 5, 6, 0, 2, 2, 0, 0, 1, 4, 6, 3, 3, 3, 1, 2, 6, 0, 0, 5, 0, 3, 1, 5, 2, 4, 4, 4, 4,
        1, 5, 2, 1, 1, 2, 4, 5, 6, 6, 3, 3,
    ];
    let s = play(&moves);
    assert!(s.is_full());
    assert!(s.win_player().is_none());
    assert!(s.iter_moves().is_empty());
}

#[test]
fn field_set_get_and_clear() {
    let mut f = Field::new();
    assert!(!f.get(2, 3));
    f.set(2, 3, true);
    assert!(f.get(2, 3));
    assert_eq!(f.stones_in_col(2), 1);
    f.set(2, 3, false);
    assert!(!f.get(2, 3));
    assert_eq!(f.stones_in_col(2), 0);
    for x in 0..WIDTH {
        for y in 0..HEIGHT {
            f.set(x, y, true);
        }
    }
    assert!(f.is_full());
    assert!(f.is_win());
}

#[test]
fn codes_for_front_ends() {
    let s = play(&[0, 6, 1, 6, 2, 5]);
    let (same, code) = step(s, 7);
    assert!(same == s && code == -1);
    let (same, code) = step(s, -1);
    assert!(same == s && code == -1);
    let (next, code) = step(s, 4);
    assert_eq!(code, 0);
    assert_eq!(next.stones_in_col(4), 1);
    let (won, code) = step(s, 3);
    assert_eq!(code, 1);
    let (_, code) = step(won, 4);
    assert_eq!(code, -1);
    let summary = board_summary(&won);
    assert_eq!(summary.len(), 45);
    assert_eq!(&summary[0..7], &[1, 1, 1, 1, 0, 2, 2]);
    assert_eq!(summary[7 + 6], 2);
    assert_eq!(summary[42], 2);
    assert_eq!(summary[43], 1);
    assert_eq!(summary[44], 7);
    let full = play(&[
        6, 5, 5, 6, 0, 2, 2, 0, 0, 1, 4, 6, 3, 3, 3, 1, 2, 6, 0, 0, 5, 0, 3, 1, 5, 2, 4, 4, 4, 4,
        1, 5, 2, 1, 1, 2, 4, 5, 6, 6, 3,
    ]);
    let (last, code) = step(full, 3);
    assert_eq!(code, 2);
    assert_eq!(board_summary(&last)[43], 3);
    assert_eq!(board_summary(&last)[44], 42);
}

#[test]
fn board_renders_from_the_top() {
    let s = play(&[0, 6, 0]);
    let text: String = s.render().into_iter().collect();
    assert_eq!(
        text,
        "|       |\n|       |\n|       |\n|       |\n|X      |\n|X     O|\n+1234567+\n"
    );
}

#[test]
fn front_end_requests_are_checked() {
    let s = play(&[0, 0, 0, 0, 0, 0]);
    assert_eq!(column_request(&s, 7, 1, 0, true), -1);
    assert_eq!(column_request(&s, 0, 1, 0, true), -1);
    assert_eq!(column_request(&s, 1, 1, 0, false), -2);
    assert_eq!(column_request(&s, 1, 1, 0, true), 0);
    assert_eq!(column_request(&s, 1, 2, 0, false), -2);
    assert_eq!(column_request(&s, 1, 2, 20000, false), 0);
    assert_eq!(column_request(&s, 1, 2, 20001, false), -2);
    assert_eq!(column_request(&s, 1, 3, 6, false), 0);
    assert_eq!(column_request(&s, 1, 3, 7, false), -2);
    assert_eq!(column_request(&s, 1, 4, 0, false), 0);
    assert_eq!(column_request(&s, 1, 5, 0, false), -2);
    assert_eq!(choice_candidates(&s, 1), vec![1, 2, 3, 4, 5, 6]);
    let threatened = play(&[0, 6, 1, 6, 2]);
    assert_eq!(choice_candidates(&threatened, 2), vec![3]);
    assert_eq!(
        choice_candidates(&threatened, 2),
        connect_4::monte_carlo_ai::MonteCarloAi::tactical_moves(threatened)
    );
}

#[test]
fn stones_rest_on_the_bottom_and_turns_alternate() {
    let mut s = State::new();
    for (i, &x) in [3, 3, 2, 4, 4, 0, 6, 6, 6].iter().enumerate() {
        s = s.put(x);
        let mut a = 0;
        let mut b = 0;
        for x in 0..WIDTH {
            for y in 0..HEIGHT {
                let cell = s.get(x, y);
                assert_eq!(cell.is_some(), y < s.stones_in_col(x));
                match cell {
                    Some(true) => a += 1,
                    Some(false) => b += 1,
                    None => {}
                }
            }
        }
        assert_eq!(a + b, i + 1);
        assert_eq!(a - b, if s.player() == Player::B { 1 } else { 0 });
    }
}
