use connect_4::evaluation::{
    check_evaluation, check_options, game_seed, play_turn, seat, worker_games, EvaluationError,
    OpponentKind, OptionsError, Record, Results,
    Turn,
};
use connect_4::state::{Player, State};

fn play_game(mut choose: impl FnMut(State) -> usize) -> Option<Player> {
    let mut state = State::new();
    loop {
        let x = choose(state);
        assert!(x < 7 && state.can_put(x), "AI returned an illegal move");
        match play_turn(state, x) {
            Turn::Continue(next) => state = next,
            Turn::Finished(winner) => return winner,
        }
    }
}

fn scripted(moves: &[usize]) -> Option<Player> {
    let mut i = 0;
    let result = play_game(|_| {
        let x = moves[i];
        i += 1;
        x
    });
    assert_eq!(i, moves.len());
    result
}

#[test]
fn terminal_results_and_seat_accounting() {
    assert!(scripted(&[0, 6, 1, 6, 2, 5, 3]) == Some(Player::A));
    assert!(scripted(&[6, 0, 6, 1, 5, 2, 5, 3]) == Some(Player::B));
    assert!(scripted(&[
        6, 5, 5, 6, 0, 2, 2, 0, 0, 1, 4, 6, 3, 3, 3, 1, 2, 6, 0, 0, 5, 0, 3, 1, 5, 2, 4, 4, 4, 4,
        1, 5, 2, 1, 1, 2, 4, 5, 6, 6, 3, 3
    ])
    .is_none());
    let mut r = Record::default();
    r.record(Some(Player::A), Player::A);
    r.record(Some(Player::B), Player::A);
    r.record(None, Player::A);
    assert_eq!(
        r,
        Record {
            wins: 1,
            draws: 1,
            losses: 1
        }
    );
    let mut r = Record::default();
    r.record(Some(Player::B), Player::B);
    r.record(Some(Player::A), Player::B);
    assert_eq!(
        r,
        Record {
            wins: 1,
            draws: 0,
            losses: 1
        }
    );
}

#[test]
fn totals_add_both_seats() {
    let results = Results {
        first: Record { wins: 3, draws: 1, losses: 2 },
        second: Record { wins: 1, draws: 4, losses: 0 },
    };
    assert_eq!(results.total(), Record { wins: 4, draws: 5, losses: 2 });
    let mut r = Record { wins: 1, draws: 2, losses: 3 };
    r.add(Record { wins: 10, draws: 20, losses: 30 });
    assert_eq!(r, Record { wins: 11, draws: 22, losses: 33 });
}

#[test]
fn games_alternate_seats() {
    assert!(seat(0) == Player::A);
    assert!(seat(1) == Player::B);
    assert!(seat(10) == Player::A);
    let mut results = Results::default();
    results.record_game(seat(0), Some(Player::A));
    results.record_game(seat(1), Some(Player::A));
    results.record_game(seat(3), None);
    assert_eq!(results.first, Record { wins: 1, draws: 0, losses: 0 });
    assert_eq!(results.second, Record { wins: 0, draws: 1, losses: 1 });
}

#[test]
fn seeds_follow_split_mix() {
    // SplitMix64's first output from state 0 after one increment.
    assert_eq!(game_seed(0, 1), 0xe220a8397b1dcdaf);
    assert_eq!(game_seed(123, 0), game_seed(123, 0));
    assert_ne!(game_seed(123, 0), game_seed(123, 1));
    assert_ne!(game_seed(123, 0), game_seed(124, 0));
}

#[test]
fn evaluation_requests_are_checked() {
    assert_eq!(check_evaluation(3, 1, None), Err(EvaluationError::Games));
    assert_eq!(check_evaluation(0, 1, None), Err(EvaluationError::Games));
    assert_eq!(check_evaluation(12, 0, None), Err(EvaluationError::Threads));
    assert_eq!(check_evaluation(12, 3, Some(0)), Err(EvaluationError::Attempts));
    assert_eq!(check_evaluation(12, 3, Some(2)), Ok(3));
    assert_eq!(check_evaluation(12, 32, None), Ok(12));
    assert_eq!(
        EvaluationError::Games.message(),
        "--games must be even and at least 2"
    );
    assert_eq!(EvaluationError::Threads.message(), "--threads must be positive");
    assert_eq!(EvaluationError::Attempts.message(), "--attempts must be positive");
}

#[test]
fn every_game_is_played_by_exactly_one_worker() {
    for workers in 1..=13 {
        let mut seen = vec![0; 12];
        for worker in 0..workers {
            let games = worker_games(worker, workers, 12);
            for (i, &g) in games.iter().enumerate() {
                assert_eq!(g, worker + i * workers);
                assert_eq!(g % workers, worker);
                seen[g] += 1;
            }
        }
        assert_eq!(seen, vec![1; 12]);
    }
    assert_eq!(worker_games(1, 3, 12), vec![1, 4, 7, 10]);
    assert!(worker_games(12, 32, 12).is_empty());
}

#[test]
fn records_print_as_json() {
    let r = Record { wins: 1, draws: 0, losses: 1203 };
    assert_eq!(
        r.json().into_iter().collect::<String>(),
        "{\"wins\": 1, \"draws\": 0, \"losses\": 1203}"
    );
}

#[test]
fn evaluation_options_are_checked() {
    assert_eq!(check_options("", false, 100, 8, 100), Ok(OpponentKind::Random));
    assert_eq!(check_options("", true, 100, 8, 100), Ok(OpponentKind::Checkpoint));
    assert_eq!(check_options("monte-carlo", false, 2, 1, 1), Ok(OpponentKind::MonteCarlo));
    assert_eq!(check_options("checkpoint", false, 100, 8, 100), Err(OptionsError::OtherMismatch));
    assert_eq!(check_options("random", true, 100, 8, 100), Err(OptionsError::OtherMismatch));
    assert_eq!(check_options("wat", false, 100, 8, 100), Err(OptionsError::UnknownOpponent));
    assert_eq!(check_options("", false, 3, 8, 100), Err(OptionsError::Games));
    assert_eq!(check_options("", false, 0, 8, 100), Err(OptionsError::Games));
    assert_eq!(check_options("", false, 12, 0, 100), Err(OptionsError::ThreadsOrAttempts));
    assert_eq!(check_options("", false, 12, 3, 0), Err(OptionsError::ThreadsOrAttempts));
    assert_eq!(OptionsError::UnknownOpponent.message(), "unknown opponent");
    assert_eq!(
        OptionsError::ThreadsOrAttempts.message(),
        "--threads and --attempts must be positive"
    );
}
