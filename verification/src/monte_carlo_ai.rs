//! Random playouts guided by a tactical filter: take a win when there is one,
//! otherwise avoid moves that hand the opponent a win.
use vstd::prelude::*;

use rand::rngs::StdRng;

use crate::bits::{byte_has, lemma_byte_bits, lemma_byte_insert};
use crate::random::{choose_column, new_rng};
use crate::rules::{
    board_full, board_wf, can_drop, can_win_now, columns_where, drop_stone, free_cells, game_over,
    lemma_columns_where, lemma_drop_stone_decreases, lemma_legal_moves_empty, opponent, winner,
    wins_now, Board, WIDTH,
};
use crate::state::{Player, State};
use crate::Ai;

verus! {

/// Column `x` is open, does not win, and leaves the opponent no winning reply.
pub open spec fn safe_move(s: Board, x: int) -> bool {
    can_drop(s, x) && !wins_now(s, x) && !can_win_now(drop_stone(s, x))
}

/// A safe move is an open column that does not win and after which the opponent
/// has no winning reply in any column, the column just played included.
pub proof fn lemma_safe_move(s: Board, x: int)
    ensures
        safe_move(s, x) <==> (can_drop(s, x) && !wins_now(s, x) && forall|y: int|
            !#[trigger] wins_now(drop_stone(s, x), y)),
{
}

/// Some move is safe.
pub open spec fn has_safe_move(s: Board) -> bool {
    exists|x: int| #[trigger] safe_move(s, x)
}

/// A move worth playing: a winning one if there is any, else a safe one if there is
/// any, else any open column.
pub open spec fn tactical_move(s: Board, x: int) -> bool {
    can_drop(s, x) && if can_win_now(s) {
        wins_now(s, x)
    } else if has_safe_move(s) {
        safe_move(s, x)
    } else {
        true
    }
}

/// The tactical filter in terms of winning drops: when the player to move can win
/// at once, exactly the winning columns; otherwise, when some open column neither
/// wins nor leaves the opponent a winning reply, exactly such columns; otherwise
/// every open column.
pub proof fn lemma_tactical_move(s: Board, x: int)
    ensures
        tactical_move(s, x) <==> {
            &&& can_drop(s, x)
            &&& (exists|y: int| #[trigger] wins_now(s, y)) ==> wins_now(s, x)
            &&& !(exists|y: int| #[trigger] wins_now(s, y)) && (exists|y: int|
                #[trigger] can_drop(s, y) && !wins_now(s, y) && forall|z: int|
                    !#[trigger] wins_now(drop_stone(s, y), z)) ==> !wins_now(s, x) && forall|z: int|
                !#[trigger] wins_now(drop_stone(s, x), z)
        },
{
    if has_safe_move(s) {
        let y = choose|y: int| #[trigger] safe_move(s, y);
        lemma_safe_move(s, y);
    }
    if exists|y: int|
        #[trigger] can_drop(s, y) && !wins_now(s, y) && forall|z: int|
            !#[trigger] wins_now(drop_stone(s, y), z) {
        let y = choose|y: int|
            #[trigger] can_drop(s, y) && !wins_now(s, y) && forall|z: int|
                !#[trigger] wins_now(drop_stone(s, y), z);
        lemma_safe_move(s, y);
        assert(safe_move(s, y));
    }
    lemma_safe_move(s, x);
}

/// The tactical moves of `s`, as a predicate on columns.
pub open spec fn tactical_pred(s: Board) -> spec_fn(int) -> bool {
    |x: int| tactical_move(s, x)
}

/// The tactical moves from left to right.
pub open spec fn tactical(s: Board) -> Seq<usize> {
    columns_where(7, tactical_pred(s))
}

/// The end of every playout from `s` when chance plays no part: the game is already
/// over, or the player to move wins at once (the tactical filter leaves only winning
/// moves). `Some(None)` is a draw.
pub open spec fn forced_result(s: Board) -> Option<Option<Player>> {
    match winner(s) {
        Some(w) => Some(Some(w)),
        None => if board_full(s) {
            Some(None)
        } else if can_win_now(s) {
            Some(Some(s.to_move))
        } else {
            None
        },
    }
}

/// Wins minus losses for `me` over `attempts` playouts with a forced result.
pub open spec fn forced_score(s: Board, me: Player, attempts: int) -> Option<int> {
    match forced_result(s) {
        Some(Some(w)) => Some(
            if w == me {
                attempts
            } else {
                -attempts
            },
        ),
        Some(None) => Some(0),
        None => None,
    }
}

/// Plays `attempts` random playouts for `player`.
pub struct MonteCarloAi {
    attempts: usize,
    player: Player,
}

/// Whether the player to move can win with one stone.
fn can_win_now_exec(state: State) -> (r: bool)
    requires
        winner(state@) is None,
    ensures
        r == can_win_now(state@),
{
    let mut y: usize = 0;
    while y < WIDTH
        invariant
            y <= 7,
            winner(state@) is None,
            forall|c: int| 0 <= c < y ==> !#[trigger] wins_now(state@, c),
        decreases 7 - y,
    {
        if state.can_put(y) && state.put(y).is_win() {
            proof {
                assert(wins_now(state@, y as int));
            }
            return true;
        }
        y = y + 1;
    }
    proof {
        assert forall|c: int| !#[trigger] wins_now(state@, c) by {
            if 0 <= c < 7 {
            }
        }
    }
    false
}

/// A board that is not over has a tactical move.
proof fn lemma_tactical_nonempty(s: Board)
    requires
        board_wf(s),
        !game_over(s),
    ensures
        tactical(s).len() > 0,
{
    let pred = tactical_pred(s);
    lemma_columns_where(7, pred);
    lemma_legal_moves_empty(s);
    let x = crate::rules::legal_moves(s)[0] as int;
    lemma_columns_where(7, crate::rules::legal_pred(s));
    assert(crate::rules::legal_pred(s)(x));
    if can_win_now(s) {
        let w = choose|w: int| #[trigger] wins_now(s, w);
        assert(pred(w));
        assert(tactical(s).contains(w as usize));
    } else if has_safe_move(s) {
        let w = choose|w: int| #[trigger] safe_move(s, w);
        assert(pred(w));
        assert(tactical(s).contains(w as usize));
    } else {
        assert(pred(x));
        assert(tactical(s).contains(x as usize));
    }
}

impl MonteCarloAi {
    /// The player the playouts are scored for.
    pub closed spec fn side(self) -> Player {
        self.player
    }

    /// The number of playouts per scored position.
    pub closed spec fn playouts(self) -> nat {
        self.attempts as nat
    }

    /// Wins and losses are counted in an `isize`, so there are at most
    /// `isize::MAX` playouts.
    #[verifier::type_invariant]
    spec fn inv(self) -> bool {
        self.attempts <= isize::MAX
    }

    pub fn new(player: Player, attempts: usize) -> (r: MonteCarloAi)
        requires
            attempts <= isize::MAX,
        ensures
            r.side() == player,
            r.playouts() == attempts,
    {
        MonteCarloAi { attempts, player }
    }

    /// Prefer wins, then moves that do not let the opponent win immediately.
    /// If every move loses, keep all legal moves available for simulation.
    pub fn tactical_moves(state: State) -> (r: Vec<usize>)
        requires
            winner(state@) is None,
        ensures
            r@ == tactical(state@),
            board_wf(state@),
    {
        let ghost s = state@;
        let mut winning_moves: u8 = 0;
        let mut safe_moves: u8 = 0;
        proof {
            assert forall|c: int| !#[trigger] byte_has(0u8, c) by {
                if 0 <= c < 8 {
                    lemma_byte_bits(0u8, c as u8, 0u8);
                }
            }
        }
        let mut x: usize = 0;
        while x < WIDTH
            invariant
                x <= 7,
                s == state@,
                winner(s) is None,
                forall|c: int|
                    #![trigger byte_has(winning_moves, c)]
                    byte_has(winning_moves, c) == (c < x && wins_now(s, c)),
                forall|c: int|
                    #![trigger byte_has(safe_moves, c)]
                    byte_has(safe_moves, c) == (c < x && safe_move(s, c)),
                (winning_moves == 0) == (forall|c: int| c < x ==> !#[trigger] wins_now(s, c)),
                (safe_moves == 0) == (forall|c: int| c < x ==> !#[trigger] safe_move(s, c)),
                x > 0 ==> board_wf(s),
            decreases 7 - x,
        {
            let mut is_winning = false;
            let mut is_safe = false;
            if state.can_put(x) {
                let next = state.put(x);
                if next.is_win() {
                    is_winning = true;
                } else if !can_win_now_exec(next) {
                    is_safe = true;
                }
            }
            proof {
                assert(is_winning == wins_now(s, x as int));
                assert(is_safe == safe_move(s, x as int));
            }
            if is_winning {
                proof {
                    lemma_byte_insert(winning_moves, x as int);
                }
                winning_moves = winning_moves | (1u8 << x as u8);
            } else if is_safe {
                proof {
                    lemma_byte_insert(safe_moves, x as int);
                }
                safe_moves = safe_moves | (1u8 << x as u8);
            }
            x = x + 1;
        }
        proof {
            assert(can_win_now(s) == (winning_moves != 0)) by {
                if can_win_now(s) {
                    let w = choose|w: int| #[trigger] wins_now(s, w);
                    assert(w < 7);
                }
            }
            assert(has_safe_move(s) == (safe_moves != 0)) by {
                if has_safe_move(s) {
                    let w = choose|w: int| #[trigger] safe_move(s, w);
                    assert(w < 7);
                }
            }
        }
        let preferred = if winning_moves != 0 {
            winning_moves
        } else {
            safe_moves
        };
        let mut moves: Vec<usize> = Vec::new();
        let mut x: usize = 0;
        while x < WIDTH
            invariant
                x <= 7,
                s == state@,
                preferred == if can_win_now(s) {
                    winning_moves
                } else {
                    safe_moves
                },
                forall|c: int|
                    #![trigger byte_has(winning_moves, c)]
                    byte_has(winning_moves, c) == (c < 7 && wins_now(s, c)),
                forall|c: int|
                    #![trigger byte_has(safe_moves, c)]
                    byte_has(safe_moves, c) == (c < 7 && safe_move(s, c)),
                can_win_now(s) == (winning_moves != 0),
                has_safe_move(s) == (safe_moves != 0),
                moves@ == columns_where(x as nat, tactical_pred(s)),
                board_wf(s),
            decreases 7 - x,
        {
            let open = state.can_put(x);
            let chosen = preferred == 0 || preferred & (1u8 << x as u8) != 0;
            proof {
                lemma_byte_bits(preferred, x as u8, x as u8);
                assert(chosen == (preferred == 0 || byte_has(preferred, x as int)));
                assert(tactical_pred(s)(x as int) == (open && chosen));
            }
            if open && chosen {
                moves.push(x);
            }
            x = x + 1;
        }
        moves
    }
}

/// The game can end with result `o` (a winner, or `None` for a draw) when play
/// from `s` keeps to tactical moves.
pub open spec fn can_end_in(s: Board, o: Option<Player>) -> bool
    decreases free_cells(s),
{
    if game_over(s) {
        winner(s) == o
    } else if s.columns.len() == 7 {
        proof {
            assert forall|x: int| #[trigger] tactical_move(s, x) implies free_cells(
                drop_stone(s, x),
            ) < free_cells(s) by {
                lemma_drop_stone_decreases(s, x);
            }
        }
        exists|x: int| #[trigger] tactical_move(s, x) && can_end_in(drop_stone(s, x), o)
    } else {
        false
    }
}

/// A tally of `n` playouts from `s` for `me` that playing them could produce: each
/// kind of result it counts can be reached by tactical play, and a result that
/// chance cannot change is counted every time.
pub open spec fn possible_tally(s: Board, me: Player, n: int, w: int, d: int, l: int) -> bool {
    &&& w >= 0 && d >= 0 && l >= 0
    &&& w + d + l == n
    &&& w > 0 ==> can_end_in(s, Some(me))
    &&& d > 0 ==> can_end_in(s, None)
    &&& l > 0 ==> can_end_in(s, Some(opponent(me)))
    &&& forced_stats(s, me, n) matches Some(t) ==> (w, d, l) == t
}

/// `v` is wins minus losses of a possible tally of `n` playouts from `s` for `me`.
pub open spec fn possible_score(s: Board, me: Player, n: int, v: int) -> bool {
    exists|w: int, d: int, l: int| #[trigger] possible_tally(s, me, n, w, d, l) && v == w - l
}

/// Position `k` holds the largest of `scores`, and no later position does.
pub open spec fn is_last_max(scores: Seq<isize>, k: int) -> bool {
    &&& 0 <= k < scores.len()
    &&& forall|i: int| 0 <= i < scores.len() ==> #[trigger] scores[i] <= scores[k]
    &&& forall|i: int| k < i < scores.len() ==> #[trigger] scores[i] < scores[k]
}

/// The position of the rightmost largest score.
pub fn last_best(scores: &Vec<isize>) -> (k: usize)
    requires
        scores.len() > 0,
    ensures
        is_last_max(scores@, k as int),
{
    let mut k: usize = 0;
    let mut i: usize = 1;
    while i < scores.len()
        invariant
            1 <= i <= scores.len(),
            k < i,
            forall|j: int| 0 <= j < i ==> #[trigger] scores@[j] <= scores@[k as int],
            forall|j: int| k < j < i ==> #[trigger] scores@[j] < scores@[k as int],
        decreases scores.len() - i,
    {
        if scores[i] >= scores[k] {
            k = i;
        }
        i = i + 1;
    }
    k
}

/// The outcomes of a batch of playouts, from the AI's point of view.
#[derive(Clone, Copy, Debug, PartialEq, Eq, Structural)]
pub struct RolloutStats {
    pub wins: usize,
    pub draws: usize,
    pub losses: usize,
}

impl RolloutStats {
    /// Wins minus losses.
    pub fn score(&self) -> (r: isize)
        requires
            self.wins <= isize::MAX,
            self.losses <= isize::MAX,
        ensures
            r == self.wins - self.losses,
    {
        self.wins as isize - self.losses as isize
    }
}

/// The tally of `attempts` playouts from `s` for `me`, when chance plays no part.
pub open spec fn forced_stats(s: Board, me: Player, attempts: int) -> Option<(int, int, int)> {
    match forced_result(s) {
        Some(Some(w)) => Some(
            if w == me {
                (attempts, 0, 0)
            } else {
                (0, 0, attempts)
            },
        ),
        Some(None) => Some((0, attempts, 0)),
        None => None,
    }
}

impl MonteCarloAi {
    /// Plays the AI's number of playouts from `state`, each choosing at random
    /// among the tactical moves until the game ends, and counts the outcomes.
    pub fn rollout_stats_with_rng(&self, state: State, rng: &mut StdRng) -> (r: RolloutStats)
        ensures
            possible_tally(
                state@,
                self.side(),
                self.playouts() as int,
                r.wins as int,
                r.draws as int,
                r.losses as int,
            ),
            r.wins <= isize::MAX,
            r.losses <= isize::MAX,
    {
        proof {
            use_type_invariant(self);
        }
        let ghost s = state@;
        let ghost me = self.player;
        let mut wins: usize = 0;
        let mut draws: usize = 0;
        let mut losses: usize = 0;
        let mut k: usize = 0;
        while k < self.attempts
            invariant
                s == state@,
                me == self.player,
                k <= self.attempts <= isize::MAX,
                possible_tally(s, me, k as int, wins as int, draws as int, losses as int),
            decreases self.attempts - k,
        {
            let mut current = state;
            while !current.is_full() && current.win_player().is_none()
                invariant
                    s == state@,
                    forced_result(s) matches Some(o) ==> (current@ == s || (winner(current@)
                        == o && o is Some)),
                    forall|o: Option<Player>| #[trigger]
                        can_end_in(current@, o) ==> can_end_in(s, o),
                decreases free_cells(current@),
            {
                let moves = Self::tactical_moves(current);
                proof {
                    lemma_tactical_nonempty(current@);
                    lemma_columns_where(7, tactical_pred(current@));
                }
                let x = match choose_column(&moves, rng) {
                    Some(x) => x,
                    None => {
                        proof {
                            assert(false);
                        }
                        0
                    },
                };
                proof {
                    let i = choose|i: int| 0 <= i < moves@.len() && moves@[i] == x;
                    assert(tactical_pred(current@)(x as int));
                }
                let ghost before = current@;
                current = current.put(x);
                proof {
                    assert forall|o: Option<Player>| #[trigger]
                        can_end_in(current@, o) implies can_end_in(s, o) by {
                        assert(tactical_move(before, x as int) && can_end_in(
                            drop_stone(before, x as int),
                            o,
                        ));
                        assert(can_end_in(before, o));
                    }
                }
            }
            let outcome = current.win_player();
            proof {
                assert(can_end_in(current@, outcome));
            }
            match outcome {
                Some(w) => {
                    if w == self.player {
                        wins = wins + 1;
                    } else {
                        losses = losses + 1;
                    }
                },
                None => {
                    draws = draws + 1;
                },
            }
            k = k + 1;
        }
        RolloutStats { wins, draws, losses }
    }

    /// The playouts of `rollout_stats_with_rng` with a newly seeded generator.
    pub fn rollout_stats(&self, state: State) -> (r: RolloutStats)
        ensures
            possible_tally(
                state@,
                self.side(),
                self.playouts() as int,
                r.wins as int,
                r.draws as int,
                r.losses as int,
            ),
            r.wins <= isize::MAX,
            r.losses <= isize::MAX,
    {
        let mut rng = new_rng();
        self.rollout_stats_with_rng(state, &mut rng)
    }

    /// Wins minus losses for the AI's player over its playouts from `state`.
    pub fn score(&self, state: State) -> (r: isize)
        ensures
            possible_score(state@, self.side(), self.playouts() as int, r as int),
            -(self.playouts() as int) <= r <= self.playouts(),
            forced_score(state@, self.side(), self.playouts() as int) matches Some(v) ==> r == v,
    {
        let stats = self.rollout_stats(state);
        proof {
            assert(possible_tally(
                state@,
                self.side(),
                self.playouts() as int,
                stats.wins as int,
                stats.draws as int,
                stats.losses as int,
            ));
        }
        stats.score()
    }

    /// With one tactical move, or a winning first one, that move. Otherwise every
    /// tactical move is scored by playouts drawn from `rng`, and the rightmost with
    /// the best score is chosen. The move is always a winning one if there is one,
    /// else a safe one if there is one.
    pub fn best_move_with_rng(&self, state: State, rng: &mut StdRng) -> (r: usize)
        requires
            !game_over(state@),
        ensures
            r < 7,
            can_drop(state@, r as int),
            tactical(state@).contains(r),
            can_win_now(state@) ==> wins_now(state@, r as int),
            !can_win_now(state@) && has_safe_move(state@) ==> safe_move(state@, r as int),
            wins_now(state@, tactical(state@)[0] as int) || tactical(state@).len() == 1 ==> r
                == tactical(state@)[0],
            !(wins_now(state@, tactical(state@)[0] as int) || tactical(state@).len() == 1)
                ==> exists|scores: Seq<isize>, k: int|
                {
                    &&& scores.len() == tactical(state@).len()
                    &&& forall|i: int|
                        0 <= i < scores.len() ==> possible_score(
                            drop_stone(state@, #[trigger] tactical(state@)[i] as int),
                            self.side(),
                            self.playouts() as int,
                            scores[i] as int,
                        )
                    &&& is_last_max(scores, k)
                    &&& r == tactical(state@)[k]
                },
    {
        let moves = Self::tactical_moves(state);
        proof {
            lemma_tactical_nonempty(state@);
            lemma_columns_where(7, tactical_pred(state@));
        }
        let first = moves[0];
        proof {
            assert(tactical_pred(state@)(first as int));
        }
        if state.put(first).is_win() || moves.len() == 1 {
            proof {
                assert(moves@.contains(first));
            }
            return first;
        }
        let mut scores: Vec<isize> = Vec::new();
        let mut i: usize = 0;
        while i < moves.len()
            invariant
                moves@ == tactical(state@),
                forall|j: int|
                    0 <= j < moves.len() ==> #[trigger] tactical_pred(state@)(moves@[j] as int)
                        && moves@[j] < 7,
                winner(state@) is None,
                i <= moves.len(),
                scores.len() == i,
                forall|j: int|
                    0 <= j < i ==> possible_score(
                        drop_stone(state@, #[trigger] moves@[j] as int),
                        self.side(),
                        self.playouts() as int,
                        scores@[j] as int,
                    ),
            decreases moves.len() - i,
        {
            let column = moves[i];
            proof {
                assert(tactical_pred(state@)(column as int));
            }
            let next = state.put(column);
            let stats = self.rollout_stats_with_rng(next, rng);
            let score = stats.score();
            proof {
                assert(possible_tally(
                    next@,
                    self.side(),
                    self.playouts() as int,
                    stats.wins as int,
                    stats.draws as int,
                    stats.losses as int,
                ));
            }
            scores.push(score);
            i = i + 1;
        }
        let k = last_best(&scores);
        let best = moves[k];
        proof {
            assert(tactical_pred(state@)(best as int));
            assert(moves@.contains(best));
        }
        best
    }
}

impl Ai for MonteCarloAi {
    /// `best_move_with_rng` with a newly seeded generator.
    fn best_move(&self, state: State) -> (r: usize)
        ensures
            tactical(state@).contains(r),
            can_win_now(state@) ==> wins_now(state@, r as int),
            !can_win_now(state@) && has_safe_move(state@) ==> safe_move(state@, r as int),
            wins_now(state@, tactical(state@)[0] as int) || tactical(state@).len() == 1 ==> r
                == tactical(state@)[0],
            !(wins_now(state@, tactical(state@)[0] as int) || tactical(state@).len() == 1)
                ==> exists|scores: Seq<isize>, k: int|
                {
                    &&& scores.len() == tactical(state@).len()
                    &&& forall|i: int|
                        0 <= i < scores.len() ==> possible_score(
                            drop_stone(state@, #[trigger] tactical(state@)[i] as int),
                            self.side(),
                            self.playouts() as int,
                            scores[i] as int,
                        )
                    &&& is_last_max(scores, k)
                    &&& r == tactical(state@)[k]
                },
    {
        let mut rng = new_rng();
        self.best_move_with_rng(state, &mut rng)
    }
}

} // verus!
