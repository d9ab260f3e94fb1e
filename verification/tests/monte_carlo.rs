use connect_4::monte_carlo_ai::{last_best, MonteCarloAi};
use connect_4::state::{Player, State};
use connect_4::Ai;

// Use the same one-based column numbers as the game's display.
fn position(columns: &[usize]) -> State {
    columns
        .iter()
        .fold(State::new(), |state, x| state.put(x - 1))
}

#[test]
fn takes_a_win_instead_of_blocking() {
    let state = position(&[1, 7, 2, 7, 3, 7]);
    assert_eq!(MonteCarloAi::tactical_moves(state), vec![3]);
    assert_eq!(MonteCarloAi::new(Player::A, 0).best_move(state), 3);
}

#[test]
fn blocks_the_review_regression_position() {
    let state = position(&[
        4, 3, 3, 6, 6, 7, 7, 6, 4, 3, 3, 6, 4, 1, 7, 6, 6, 2, 3, 1, 2, 7, 2,
    ]);
    assert_eq!(MonteCarloAi::tactical_moves(state), vec![3]);
    // The block must be guaranteed, independent of sampling budget or RNG.
    assert_eq!(MonteCarloAi::new(Player::B, 0).best_move(state), 3);
}

#[test]
fn retains_legal_moves_when_a_loss_is_unavoidable() {
    let state = position(&[2, 7, 3, 7, 4]);
    assert_eq!(MonteCarloAi::tactical_moves(state), state.iter_moves());
    assert!(state.can_put(MonteCarloAi::new(Player::B, 1).best_move(state)));
}

#[test]
fn rollouts_take_the_opponents_immediate_win() {
    let state = position(&[1, 7, 2, 7, 3, 6]);
    // It is A's turn; scoring for B must still make A take its win.
    assert_eq!(MonteCarloAi::new(Player::B, 20).score(state), -20);
    assert_eq!(MonteCarloAi::new(Player::A, 20).score(state), 20);
}

#[test]
fn score_of_a_finished_game_counts_every_playout() {
    let won = position(&[1, 7, 2, 7, 3, 7, 4]);
    assert_eq!(MonteCarloAi::new(Player::A, 5).score(won), 5);
    assert_eq!(MonteCarloAi::new(Player::B, 5).score(won), -5);
    assert_eq!(MonteCarloAi::new(Player::A, 0).score(won), 0);
}

#[test]
fn score_stays_within_the_number_of_playouts() {
    let state = State::new();
    let score = MonteCarloAi::new(Player::A, 30).score(state);
    assert!((-30..=30).contains(&score));
}

#[test]
fn safe_moves_avoid_handing_over_a_win() {
    // B has three in a row in the bottom row (columns 5, 6, 7 one-based); A must
    // block at column 4, the only move that does not lose at once.
    let state = position(&[1, 5, 1, 6, 2, 7]);
    assert_eq!(MonteCarloAi::tactical_moves(state), vec![3]);
    assert_eq!(MonteCarloAi::new(Player::A, 3).best_move(state), 3);
}

#[test]
fn first_winning_move_is_taken_without_playouts() {
    // A holds columns 2 to 4 (one-based) of the bottom row and wins at 1 or 5;
    // the first winning column is returned.
    let state = position(&[2, 7, 3, 7, 4, 6]);
    assert_eq!(MonteCarloAi::tactical_moves(state), vec![0, 4]);
    for _ in 0..20 {
        assert_eq!(MonteCarloAi::new(Player::A, 5).best_move(state), 0);
    }
}

#[test]
fn rightmost_best_score_wins_ties() {

    assert_eq!(last_best(&vec![3]), 0);
    assert_eq!(last_best(&vec![1, 5, 2, 5, 0]), 3);
    assert_eq!(last_best(&vec![-4, -1, -7]), 1);
}

#[test]
fn rollout_stats_count_every_playout() {
    let stats = MonteCarloAi::new(Player::A, 25).rollout_stats(State::new());
    assert_eq!(stats.wins + stats.draws + stats.losses, 25);
    assert_eq!(stats.score(), stats.wins as isize - stats.losses as isize);
}
