use connect_4::minmax_ai::MinMaxAi;
use connect_4::state::{Player, State};
use connect_4::Ai;

fn play(columns: &[usize]) -> State {
    columns.iter().fold(State::new(), |state, &x| state.put(x))
}

#[test]
fn immediate_win_scores_maximum() {
    let state = play(&[0, 6, 1, 6, 2, 5]);
    let ai = MinMaxAi::new(Player::A, 2);
    assert_eq!(ai.column_score(state, 3), isize::MAX);
    assert_eq!(ai.best_move(state), 3);
}

#[test]
fn opponent_win_scores_minimum_plus_depth() {
    // A to move; B threatens column 6 (zero-based) in its column.
    let state = play(&[0, 6, 1, 6, 0, 6]);
    let ai = MinMaxAi::new(Player::A, 2);
    assert_eq!(ai.column_score(state, 2), isize::MIN + 1);
    assert_eq!(ai.best_move(state), 6);
}

#[test]
fn depth_zero_scores_nothing() {
    let ai = MinMaxAi::new(Player::A, 0);
    for x in 0..7 {
        assert_eq!(ai.column_score(State::new(), x), 0);
    }
    // All columns tie: the rightmost is chosen.
    assert_eq!(ai.best_move(State::new()), 6);
}
