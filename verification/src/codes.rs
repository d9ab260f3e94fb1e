//! Positions and moves as the small integer codes that the training and browser
//! front ends exchange with the engine.
use vstd::prelude::*;

use crate::rules::{board_full, can_drop, drop_stone, game_over, legal_moves, owner, winner, Board};
use crate::monte_carlo_ai::{tactical, MonteCarloAi};
use crate::state::{Player, State};

verus! {

/// The code of a position reached by a move: 1 when the move won, 2 when it
/// filled the board, 0 when the game goes on.
pub open spec fn outcome_code(b: Board) -> i32 {
    if winner(b) is Some {
        1
    } else if board_full(b) {
        2
    } else {
        0
    }
}

/// A cell: 0 empty, 1 player A, 2 player B.
pub open spec fn cell_code(b: Board, x: int, y: int) -> i32 {
    match owner(b.columns, x, y) {
        None => 0,
        Some(Player::A) => 1,
        Some(Player::B) => 2,
    }
}

/// The state of the game: 1 or 2 when A or B has won, 3 for a draw, 0 while it
/// goes on.
pub open spec fn result_code(b: Board) -> i32 {
    match winner(b) {
        Some(Player::A) => 1,
        Some(Player::B) => 2,
        None => if board_full(b) {
            3
        } else {
            0
        },
    }
}

/// The result code names the winner: 1 for A, 2 for B, 3 for a full board without
/// one, 0 while the game goes on.
pub proof fn lemma_result_code(b: Board)
    ensures
        winner(b) == Some(Player::A) ==> result_code(b) == 1,
        winner(b) == Some(Player::B) ==> result_code(b) == 2,
        winner(b) is None && board_full(b) ==> result_code(b) == 3,
        winner(b) is None && !board_full(b) ==> result_code(b) == 0,
{
}

/// Stones in the first `n` columns.
pub open spec fn stones_played(b: Board, n: nat) -> int
    decreases n,
{
    if n == 0 {
        0
    } else {
        stones_played(b, (n - 1) as nat) + b.columns[n - 1].len()
    }
}

/// Plays `action` when it is a column that takes a stone in a game that is not
/// over, giving the new state and its outcome code; otherwise keeps the state and
/// gives -1.
pub fn step(state: State, action: i32) -> (r: (State, i32))
    ensures
        if 0 <= action < 7 && !game_over(state@) && can_drop(state@, action as int) {
            r.0@ == drop_stone(state@, action as int) && r.1 == outcome_code(r.0@) && (winner(
                r.0@,
            ) is Some ==> r.1 == 1) && (winner(r.0@) is None && board_full(r.0@) ==> r.1 == 2)
                && (!game_over(r.0@) ==> r.1 == 0)
        } else {
            r.0 == state && r.1 == -1
        },
{
    if action < 0 || action >= 7 || state.is_full() || state.is_win() || !state.can_put(
        action as usize,
    ) {
        return (state, -1);
    }
    let next = state.put(action as usize);
    let code = if next.is_win() {
        1
    } else if next.is_full() {
        2
    } else {
        0
    };
    (next, code)
}

/// The 42 cells row by row from the bottom, then whose turn it is (1 for A, 2 for
/// B), the result code and the number of stones played.
pub fn board_summary(state: &State) -> (r: Vec<i32>)
    ensures
        r.len() == 45,
        forall|i: int| 0 <= i < 42 ==> #[trigger] r[i] == cell_code(state@, i % 7, i / 7),
        forall|i: int|
            0 <= i < 42 ==> (#[trigger] r[i] == 0 <==> owner(state@.columns, i % 7, i / 7) is None)
                && (r[i] == 1 <==> owner(state@.columns, i % 7, i / 7) == Some(Player::A)) && (r[i]
                == 2 <==> owner(state@.columns, i % 7, i / 7) == Some(Player::B)),
        r[42] == if state@.to_move == Player::A {
            1i32
        } else {
            2i32
        },
        r[43] == result_code(state@),
        winner(state@) == Some(Player::A) ==> r[43] == 1,
        winner(state@) == Some(Player::B) ==> r[43] == 2,
        winner(state@) is None && board_full(state@) ==> r[43] == 3,
        winner(state@) is None && !board_full(state@) ==> r[43] == 0,
        r[44] == stones_played(state@, 7),
{
    let mut r: Vec<i32> = Vec::new();
    let mut i: usize = 0;
    while i < 42
        invariant
            i <= 42,
            r.len() == i,
            forall|j: int| 0 <= j < i ==> #[trigger] r[j] == cell_code(state@, j % 7, j / 7),
        decreases 42 - i,
    {
        let code = match state.get(i % 7, i / 7) {
            None => 0,
            Some(true) => 1,
            Some(false) => 2,
        };
        r.push(code);
        i = i + 1;
    }
    r.push(
        if state.player() == Player::A {
            1
        } else {
            2
        },
    );
    let result = match state.win_player() {
        Some(Player::A) => 1,
        Some(Player::B) => 2,
        None => if state.is_full() {
            3
        } else {
            0
        },
    };
    r.push(result);
    let mut played: i32 = 0;
    let mut x: usize = 0;
    while x < 7
        invariant
            x <= 7,
            crate::rules::board_wf(state@),
            played == stones_played(state@, x as nat),
            played <= 6 * x,
        decreases 7 - x,
    {
        played = played + state.stones_in_col(x) as i32;
        x = x + 1;
    }
    r.push(played);
    r
}

/// The answer to a request to evaluate column `column` with evaluator `kind`
/// (1 value network, 2 Monte Carlo, 3 minimax, 4 random) and `budget`: -1 when the
/// column cannot be played, -2 when the evaluator cannot run (no network for kind
/// 1, a Monte Carlo budget outside `1..=20000`, a minimax depth above 6, an unknown
/// kind), 0 when it can.
pub fn column_request(state: &State, column: usize, kind: u32, budget: usize, has_model: bool) -> (r:
    i32)
    ensures
        r == if column >= 7 || game_over(state@) || !can_drop(state@, column as int) {
            -1i32
        } else if (kind == 1 && !has_model) || (kind == 2 && !(1 <= budget <= 20000)) || (kind
            == 3 && budget > 6) || kind == 0 || kind > 4 {
            -2i32
        } else {
            0i32
        },
{
    if column >= 7 || state.is_win() || state.is_full() || !state.can_put(column) {
        return -1;
    }
    match kind {
        1 => if has_model {
            0
        } else {
            -2
        },
        2 => if 1 <= budget && budget <= 20000 {
            0
        } else {
            -2
        },
        3 => if budget <= 6 {
            0
        } else {
            -2
        },
        4 => 0,
        _ => -2,
    }
}

/// The columns a front end chooses among by score when the player to move has no
/// winning move: the tactical moves for Monte Carlo (kind 2), else every legal
/// column, from left to right.
pub fn choice_candidates(state: &State, kind: u32) -> (r: Vec<usize>)
    requires
        winner(state@) is None,
    ensures
        r@ == if kind == 2 {
            tactical(state@)
        } else {
            legal_moves(state@)
        },
{
    if kind == 2 {
        MonteCarloAi::tactical_moves(*state)
    } else {
        state.iter_moves()
    }
}

} // verus!
