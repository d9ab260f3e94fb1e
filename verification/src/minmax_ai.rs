//! Depth-limited minimax search with alpha-beta pruning.
use vstd::prelude::*;

use crate::rules::{
    board_full, board_wf, can_drop, drop_stone, free_cells, game_over, lemma_drop_stone_decreases,
    lemma_free_cells_bound, lemma_legal_moves_empty, legal_moves, winner, Board,
};
use crate::state::{Player, State};
use crate::Ai;

verus! {

/// The minimax value, for player `me` searching `limit` plies, of the position `s`
/// reached after `depth` plies: a win is worth `isize::MAX - depth` and a loss
/// `isize::MIN + depth`; a position at the depth limit is worth 0 and a full board
/// -1; otherwise `me` takes the best and the opponent the worst of the moves.
pub open spec fn node_value(me: Player, limit: nat, s: Board, depth: nat) -> int
    decreases free_cells(s), 1nat, 0nat,
{
    match winner(s) {
        Some(w) => if w == me {
            isize::MAX - depth
        } else {
            isize::MIN + depth
        },
        None => if depth == limit {
            0
        } else if board_full(s) {
            -1
        } else {
            best_of(me, limit, s, depth, legal_moves(s), s.to_move == me)
        },
    }
}

/// The largest (`maximize`) or smallest value of the moves `moves` from `s`;
/// `isize::MIN` or `isize::MAX` when there are none.
pub open spec fn best_of(
    me: Player,
    limit: nat,
    s: Board,
    depth: nat,
    moves: Seq<usize>,
    maximize: bool,
) -> int
    decreases free_cells(s), 0nat, moves.len(),
{
    if moves.len() == 0 {
        if maximize {
            isize::MIN as int
        } else {
            isize::MAX as int
        }
    } else {
        let rest = best_of(me, limit, s, depth, moves.drop_last(), maximize);
        let x = moves.last() as int;
        if s.columns.len() == 7 && can_drop(s, x) {
            proof {
                lemma_drop_stone_decreases(s, x);
            }
            let v = node_value(me, limit, drop_stone(s, x), depth + 1);
            if maximize {
                if v > rest {
                    v
                } else {
                    rest
                }
            } else {
                if v < rest {
                    v
                } else {
                    rest
                }
            }
        } else {
            rest
        }
    }
}

/// What an alpha-beta search in the window `(a, b)` promises of its result `r`
/// for a position of value `v`: inside the window `r` is `v`; below it `r` bounds
/// `v` from above, above it from below.
pub open spec fn within_window(r: int, v: int, a: int, b: int) -> bool {
    &&& a <= r <= b ==> r == v
    &&& r < a ==> v <= r
    &&& r > b ==> v >= r
}

/// The search's value of dropping into column `x` of `s`.
pub open spec fn move_value(me: Player, limit: nat, s: Board, x: int) -> int {
    node_value(me, limit, drop_stone(s, x), 0)
}

/// Prefixes never beat the whole: the best of all moves is at least (at most, when
/// minimizing) the best of the first `k`.
proof fn lemma_best_of_prefix(
    me: Player,
    limit: nat,
    s: Board,
    depth: nat,
    moves: Seq<usize>,
    maximize: bool,
    k: int,
)
    requires
        0 <= k <= moves.len(),
    ensures
        maximize ==> best_of(me, limit, s, depth, moves, maximize) >= best_of(
            me,
            limit,
            s,
            depth,
            moves.take(k),
            maximize,
        ),
        !maximize ==> best_of(me, limit, s, depth, moves, maximize) <= best_of(
            me,
            limit,
            s,
            depth,
            moves.take(k),
            maximize,
        ),
    decreases moves.len(),
{
    if k == moves.len() {
        assert(moves.take(k) =~= moves);
    } else {
        lemma_best_of_prefix(me, limit, s, depth, moves.drop_last(), maximize, k);
        assert(moves.drop_last().take(k) =~= moves.take(k));
    }
}

/// A decided position is worth its result at every depth, the depth limit
/// included: `isize::MAX - depth` when the searching player has four in a row,
/// `isize::MIN + depth` when the opponent has.
pub proof fn lemma_node_value_decided(me: Player, limit: nat, s: Board, depth: nat)
    requires
        winner(s) is Some,
    ensures
        winner(s) == Some(me) ==> node_value(me, limit, s, depth) == isize::MAX - depth,
        winner(s) != Some(me) ==> node_value(me, limit, s, depth) == isize::MIN + depth,
{
}

/// An undecided position at the depth limit is worth 0; an undecided full board
/// below the limit is worth -1.
pub proof fn lemma_node_value_undecided(me: Player, limit: nat, s: Board, depth: nat)
    requires
        winner(s) is None,
    ensures
        depth == limit ==> node_value(me, limit, s, depth) == 0,
        depth != limit && board_full(s) ==> node_value(me, limit, s, depth) == -1,
{
}

/// Within the search's reach (at most 42 plies) every value fits in an `isize`.
proof fn lemma_node_value_range(me: Player, limit: nat, s: Board, depth: nat)
    requires
        board_wf(s),
        depth + free_cells(s) <= 42,
    ensures
        isize::MIN <= node_value(me, limit, s, depth) <= isize::MAX,
    decreases free_cells(s), 1nat, 0nat,
{
    if winner(s) is None && depth != limit && !board_full(s) {
        let moves = legal_moves(s);
        crate::rules::lemma_columns_where(7, crate::rules::legal_pred(s));
        assert forall|i: int| 0 <= i < moves.len() implies can_drop(s, #[trigger] moves[i] as int) by {
            assert(crate::rules::legal_pred(s)(moves[i] as int));
        }
        lemma_best_of_range(me, limit, s, depth, moves, s.to_move == me);
    }
}

proof fn lemma_best_of_range(
    me: Player,
    limit: nat,
    s: Board,
    depth: nat,
    moves: Seq<usize>,
    maximize: bool,
)
    requires
        board_wf(s),
        depth + free_cells(s) <= 42,
        forall|i: int| 0 <= i < moves.len() ==> can_drop(s, #[trigger] moves[i] as int),
    ensures
        isize::MIN <= best_of(me, limit, s, depth, moves, maximize) <= isize::MAX,
    decreases free_cells(s), 0nat, moves.len(),
{
    if moves.len() > 0 {
        let rest = moves.drop_last();
        assert forall|i: int| 0 <= i < rest.len() implies can_drop(s, #[trigger] rest[i] as int) by {
            assert(rest[i] == moves[i]);
        }
        lemma_best_of_range(me, limit, s, depth, rest, maximize);
        let x = moves.last() as int;
        assert(can_drop(s, moves[moves.len() - 1] as int));
        crate::rules::lemma_drop_stone_free(s, x);
        lemma_node_value_range(me, limit, drop_stone(s, x), depth + 1);
    }
}

/// Over moves that all stand on the board, `best_of` is the largest (or smallest)
/// of their values, and attained by one of them; with no move it is the extreme.
proof fn lemma_best_of_extreme(
    me: Player,
    limit: nat,
    s: Board,
    depth: nat,
    moves: Seq<usize>,
    maximize: bool,
)
    requires
        board_wf(s),
        depth + free_cells(s) <= 42,
        forall|i: int| 0 <= i < moves.len() ==> can_drop(s, #[trigger] moves[i] as int),
    ensures
        forall|i: int|
            0 <= i < moves.len() ==> {
                let v = node_value(me, limit, drop_stone(s, #[trigger] moves[i] as int), depth + 1);
                &&& maximize ==> v <= best_of(me, limit, s, depth, moves, maximize)
                &&& !maximize ==> v >= best_of(me, limit, s, depth, moves, maximize)
            },
        moves.len() > 0 ==> exists|i: int|
            0 <= i < moves.len() && node_value(
                me,
                limit,
                drop_stone(s, #[trigger] moves[i] as int),
                depth + 1,
            ) == best_of(me, limit, s, depth, moves, maximize),
    decreases moves.len(),
{
    if moves.len() > 0 {
        let rest = moves.drop_last();
        lemma_best_of_extreme(me, limit, s, depth, rest, maximize);
        let last = moves.len() - 1;
        assert forall|i: int| 0 <= i < rest.len() implies #[trigger] moves[i] == rest[i] by {}
        assert(moves[last] == moves.last());
        let v = node_value(me, limit, drop_stone(s, moves[last] as int), depth + 1);
        let b = best_of(me, limit, s, depth, moves, maximize);
        assert(can_drop(s, moves[last] as int));
        crate::rules::lemma_drop_stone_free(s, moves[last] as int);
        lemma_node_value_range(me, limit, drop_stone(s, moves[last] as int), depth + 1);
        if b == v {
            assert(0 <= last < moves.len() && node_value(
                me,
                limit,
                drop_stone(s, moves[last] as int),
                depth + 1,
            ) == b);
        } else {
            assert(b == best_of(me, limit, s, depth, rest, maximize));
            if rest.len() > 0 {
                let j = choose|j: int|
                    0 <= j < rest.len() && node_value(
                        me,
                        limit,
                        drop_stone(s, #[trigger] rest[j] as int),
                        depth + 1,
                    ) == best_of(me, limit, s, depth, rest, maximize);
                assert(moves[j] == rest[j]);
                assert(0 <= j < moves.len() && node_value(
                    me,
                    limit,
                    drop_stone(s, moves[j] as int),
                    depth + 1,
                ) == b);
            }
        }
    }
}

/// Minimax: in an undecided position below the depth limit with a move left, the
/// player to move picks a best child. When the searching player is to move, no
/// child is worth more than the position and some child is worth as much; when the
/// opponent is, no child is worth less and some child is worth as much.
pub proof fn lemma_node_value_children(me: Player, limit: nat, s: Board, depth: nat)
    requires
        board_wf(s),
        depth + free_cells(s) <= 42,
        winner(s) is None,
        depth != limit,
        !board_full(s),
    ensures
        forall|x: int|
            can_drop(s, x) ==> {
                let v = node_value(me, limit, #[trigger] drop_stone(s, x), depth + 1);
                &&& s.to_move == me ==> v <= node_value(me, limit, s, depth)
                &&& s.to_move != me ==> v >= node_value(me, limit, s, depth)
            },
        exists|x: int|
            can_drop(s, x) && node_value(me, limit, #[trigger] drop_stone(s, x), depth + 1)
                == node_value(me, limit, s, depth),
{
    let moves = legal_moves(s);
    let maximize = s.to_move == me;
    crate::rules::lemma_columns_where(7, crate::rules::legal_pred(s));
    assert forall|i: int| 0 <= i < moves.len() implies can_drop(s, #[trigger] moves[i] as int) by {
        assert(crate::rules::legal_pred(s)(moves[i] as int));
    }
    lemma_best_of_extreme(me, limit, s, depth, moves, maximize);
    assert(node_value(me, limit, s, depth) == best_of(me, limit, s, depth, moves, maximize));
    assert forall|x: int| can_drop(s, x) implies {
        let v = node_value(me, limit, #[trigger] drop_stone(s, x), depth + 1);
        &&& s.to_move == me ==> v <= node_value(me, limit, s, depth)
        &&& s.to_move != me ==> v >= node_value(me, limit, s, depth)
    } by {
        assert(crate::rules::legal_pred(s)(x));
        assert(moves.contains(x as usize));
        let i = choose|i: int| 0 <= i < moves.len() && moves[i] == x as usize;
        assert(moves[i] as int == x);
    }
    lemma_legal_moves_empty(s);
    let i = choose|i: int|
        0 <= i < moves.len() && node_value(me, limit, drop_stone(s, #[trigger] moves[i] as int), depth + 1)
            == best_of(me, limit, s, depth, moves, maximize);
    assert(can_drop(s, moves[i] as int));
}

/// Searches a fixed number of plies ahead for `player`.
pub struct MinMaxAi {
    depth: usize,
    player: Player,
}

impl MinMaxAi {
    /// The player the search plays for.
    pub closed spec fn side(self) -> Player {
        self.player
    }

    /// The number of plies searched.
    pub closed spec fn limit(self) -> nat {
        self.depth as nat
    }

    /// The exact minimax value of dropping into column `x` of `state`.
    pub fn column_score(&self, state: State, x: usize) -> (r: isize)
        requires
            x < 7,
            can_drop(state@, x as int),
            winner(state@) is None,
        ensures
            r == move_value(self.side(), self.limit(), state@, x as int),
            winner(drop_stone(state@, x as int)) == Some(self.side()) ==> r == isize::MAX,
            winner(drop_stone(state@, x as int)) is Some && winner(drop_stone(state@, x as int))
                != Some(self.side()) ==> r == isize::MIN,
    {
        proof {
            lemma_free_cells_bound(state@);
            if winner(drop_stone(state@, x as int)) is Some {
                lemma_node_value_decided(self.side(), self.limit(), drop_stone(state@, x as int), 0);
            }
        }
        self.minmax(state, x, 0, isize::MIN, isize::MAX)
    }

    pub fn new(player: Player, depth: usize) -> (r: MinMaxAi)
        ensures
            r.side() == player,
            r.limit() == depth,
    {
        MinMaxAi { depth, player }
    }

    /// Alpha-beta search of the position after dropping into column `x`, `depth`
    /// plies below the root, in the window `(a, b)`.
    fn minmax(&self, state: State, x: usize, depth: usize, a: isize, b: isize) -> (r: isize)
        requires
            x < 7,
            can_drop(state@, x as int),
            winner(state@) is None,
            depth + free_cells(state@) <= 42,
            a <= b,
        ensures
            within_window(
                r as int,
                node_value(self.player, self.depth as nat, drop_stone(state@, x as int), depth as nat),
                a as int,
                b as int,
            ),
        decreases free_cells(state@),
    {
        let next = state.put(x);
        let ghost s = next@;
        let ghost me = self.player;
        let ghost limit = self.depth as nat;
        let ghost d = depth as nat;
        if let Some(win_player) = next.win_player() {
            return if win_player == self.player {
                isize::MAX - depth as isize
            } else {
                isize::MIN + depth as isize
            };
        }
        if depth == self.depth {
            return self.score(next);
        }
        if next.is_full() {
            return -1;
        }
        let moves = next.iter_moves();
        proof {
            lemma_legal_moves_empty(s);
        }
        if next.player() == self.player {
            let mut result = isize::MIN;
            let mut alpha = a;
            proof {
                assert(node_value(me, limit, s, d) == best_of(me, limit, s, d, moves@, true));
                assert(moves@.take(0) =~= Seq::<usize>::empty());
            }
            let mut i: usize = 0;
            while i < moves.len()
                invariant
                    moves@ == legal_moves(s),
                    s == next@,
                    board_wf(s),
                    !game_over(s),
                    s.to_move == me,
                    me == self.player,
                    limit == self.depth,
                    d == depth,
                    depth != self.depth,
                    depth + 1 + free_cells(s) <= 42,
                    i <= moves.len(),
                    s == drop_stone(state@, x as int),
                    free_cells(s) < free_cells(state@),
                    node_value(me, limit, s, d) == best_of(me, limit, s, d, moves@, true),
                    result <= b,
                    a <= b,
                    alpha == if a >= result {
                        a
                    } else {
                        result
                    },
                    result >= a ==> result == best_of(me, limit, s, d, moves@.take(i as int), true),
                    result < a ==> best_of(me, limit, s, d, moves@.take(i as int), true) <= result,
                decreases moves.len() - i,
            {
                let y = moves[i];
                proof {
                    crate::rules::lemma_columns_where(7, crate::rules::legal_pred(s));
                    assert(crate::rules::legal_pred(s)(y as int));
                    crate::rules::lemma_drop_stone_free(s, y as int);
                    assert(moves@.take(i + 1).drop_last() =~= moves@.take(i as int));
                }
                let value = self.minmax(next, y, depth + 1, alpha, b);
                if value > result {
                    result = value;
                }
                if result > b {
                    proof {
                        lemma_best_of_prefix(me, limit, s, d, moves@, true, i + 1);
                        assert(best_of(me, limit, s, d, moves@.take(i + 1), true) >= value);
                    }
                    return result;
                }
                if result > alpha {
                    alpha = result;
                }
                i = i + 1;
            }
            proof {
                assert(moves@.take(i as int) =~= moves@);
            }
            result
        } else {
            let mut result = isize::MAX;
            let mut beta = b;
            proof {
                assert(node_value(me, limit, s, d) == best_of(me, limit, s, d, moves@, false));
                assert(moves@.take(0) =~= Seq::<usize>::empty());
            }
            let mut i: usize = 0;
            while i < moves.len()
                invariant
                    moves@ == legal_moves(s),
                    s == next@,
                    board_wf(s),
                    !game_over(s),
                    s.to_move != me,
                    me == self.player,
                    limit == self.depth,
                    d == depth,
                    depth != self.depth,
                    depth + 1 + free_cells(s) <= 42,
                    i <= moves.len(),
                    s == drop_stone(state@, x as int),
                    free_cells(s) < free_cells(state@),
                    node_value(me, limit, s, d) == best_of(me, limit, s, d, moves@, false),
                    result >= a,
                    a <= b,
                    beta == if b <= result {
                        b
                    } else {
                        result
                    },
                    result <= b ==> result == best_of(me, limit, s, d, moves@.take(i as int), false),
                    result > b ==> best_of(me, limit, s, d, moves@.take(i as int), false) >= result,
                decreases moves.len() - i,
            {
                let y = moves[i];
                proof {
                    crate::rules::lemma_columns_where(7, crate::rules::legal_pred(s));
                    assert(crate::rules::legal_pred(s)(y as int));
                    crate::rules::lemma_drop_stone_free(s, y as int);
                    assert(moves@.take(i + 1).drop_last() =~= moves@.take(i as int));
                }
                let value = self.minmax(next, y, depth + 1, a, beta);
                if value < result {
                    result = value;
                }
                if result < a {
                    proof {
                        lemma_best_of_prefix(me, limit, s, d, moves@, false, i + 1);
                        assert(best_of(me, limit, s, d, moves@.take(i + 1), false) <= value);
                    }
                    return result;
                }
                if result < beta {
                    beta = result;
                }
                i = i + 1;
            }
            proof {
                assert(moves@.take(i as int) =~= moves@);
            }
            result
        }
    }

    /// The value of a position at the depth limit.
    fn score(&self, state: State) -> (r: isize)
        ensures
            r == 0,
    {
        0
    }
}

impl Ai for MinMaxAi {
    /// The rightmost of the legal columns whose search value is largest.
    fn best_move(&self, state: State) -> (r: usize)
        ensures
            legal_moves(state@).contains(r),
            forall|i: int|
                0 <= i < legal_moves(state@).len() ==> move_value(
                    self.side(),
                    self.limit(),
                    state@,
                    #[trigger] legal_moves(state@)[i] as int,
                ) <= move_value(self.side(), self.limit(), state@, r as int),
            forall|i: int|
                0 <= i < legal_moves(state@).len() && legal_moves(state@)[i] > r ==> move_value(
                    self.side(),
                    self.limit(),
                    state@,
                    #[trigger] legal_moves(state@)[i] as int,
                ) < move_value(self.side(), self.limit(), state@, r as int),
    {
        let moves = state.iter_moves();
        proof {
            lemma_legal_moves_empty(state@);
            crate::rules::lemma_columns_where(7, crate::rules::legal_pred(state@));
            assert(crate::rules::legal_pred(state@)(moves@[0] as int));
        }
        let mut best = moves[0];
        let mut best_score = self.column_score(state, best);
        let ghost mut k: int = 0;
        let mut i: usize = 1;
        while i < moves.len()
            invariant
                moves@ == legal_moves(state@),
                forall|j: int|
                    0 <= j < moves.len() ==> #[trigger] moves@[j] < 7 && can_drop(
                        state@,
                        moves@[j] as int,
                    ),
                forall|j: int, l: int| 0 <= j < l < moves.len() ==> moves@[j] < moves@[l],
                winner(state@) is None,
                1 <= i <= moves.len(),
                0 <= k < i,
                best == moves@[k],
                best_score == move_value(self.side(), self.limit(), state@, best as int),
                forall|j: int| 0 <= j < i ==> move_value(self.side(), self.limit(), state@, #[trigger] moves@[j] as int) <= best_score,
                forall|j: int| k < j < i ==> move_value(self.side(), self.limit(), state@, #[trigger] moves@[j] as int) < best_score,
            decreases moves.len() - i,
        {
            let column = moves[i];
            proof {
                assert(crate::rules::legal_pred(state@)(column as int));
            }
            let score = self.column_score(state, column);
            if score >= best_score {
                best = column;
                best_score = score;
                proof {
                    k = i as int;
                }
            }
            i = i + 1;
        }
        proof {
            assert(moves@.contains(best));
            assert forall|j: int| 0 <= j < moves.len() && moves@[j] > best implies move_value(self.side(), self.limit(), state@, #[trigger] moves@[j] as int) < best_score by {
                if j <= k {
                    if j < k {
                        assert(moves@[j] < moves@[k]);
                    }
                }
            }
        }
        best
    }
}

} // verus!
