//! The game in mathematical terms: a board is seven columns of stones, each
//! stacked from the bottom, and the player whose turn it is.
use vstd::prelude::*;

use crate::state::Player;

verus! {

/// Columns of the board.
pub const WIDTH: usize = 7;

/// Stones that fit in one column.
pub const HEIGHT: usize = 6;

/// Cells of the board.
pub const FIELD_SIZE: usize = 42;

/// The position seen as stacks of stones: `columns[x][y]` is the stone in column `x`,
/// `y` places above the bottom.
pub struct Board {
    pub columns: Seq<Seq<Player>>,
    pub to_move: Player,
}

/// The other player.
pub open spec fn opponent(p: Player) -> Player {
    match p {
        Player::A => Player::B,
        Player::B => Player::A,
    }
}

/// Seven columns, none higher than six stones.
pub open spec fn board_wf(b: Board) -> bool {
    &&& b.columns.len() == 7
    &&& forall|x: int| 0 <= x < 7 ==> #[trigger] b.columns[x].len() <= 6
}

/// The empty board with player A to move.
pub open spec fn initial_board() -> Board {
    Board { columns: Seq::new(7, |x: int| Seq::<Player>::empty()), to_move: Player::A }
}

/// Whose stone lies at `(x, y)`, if any.
pub open spec fn owner(cols: Seq<Seq<Player>>, x: int, y: int) -> Option<Player> {
    if 0 <= x < cols.len() && 0 <= y < cols[x].len() {
        Some(cols[x][y])
    } else {
        None
    }
}

/// `p` owns the four cells from `(x, y)` in steps of `(dx, dy)`.
pub open spec fn four_owned(
    cols: Seq<Seq<Player>>,
    p: Player,
    x: int,
    y: int,
    dx: int,
    dy: int,
) -> bool {
    &&& owner(cols, x, y) == Some(p)
    &&& owner(cols, x + dx, y + dy) == Some(p)
    &&& owner(cols, x + 2 * dx, y + 2 * dy) == Some(p)
    &&& owner(cols, x + 3 * dx, y + 3 * dy) == Some(p)
}

/// `p` owns four cells in a line in direction `(dx, dy)`.
pub open spec fn owns_line(cols: Seq<Seq<Player>>, p: Player, dx: int, dy: int) -> bool {
    exists|x: int, y: int| #[trigger] four_owned(cols, p, x, y, dx, dy)
}

/// `p` has four in a row: horizontally, vertically or along either diagonal.
pub open spec fn has_four(cols: Seq<Seq<Player>>, p: Player) -> bool {
    ||| owns_line(cols, p, 1, 0)
    ||| owns_line(cols, p, 0, 1)
    ||| owns_line(cols, p, 1, 1)
    ||| owns_line(cols, p, 1, -1)
}

/// The player who moved last, if that move made four in a row.
pub open spec fn winner(b: Board) -> Option<Player> {
    if has_four(b.columns, opponent(b.to_move)) {
        Some(opponent(b.to_move))
    } else {
        None
    }
}

/// Every column holds six stones.
pub open spec fn board_full(b: Board) -> bool {
    forall|x: int| 0 <= x < 7 ==> #[trigger] b.columns[x].len() == 6
}

/// The game has ended, by a win or by a full board.
pub open spec fn game_over(b: Board) -> bool {
    winner(b) is Some || board_full(b)
}

/// A stone can be dropped into column `x`.
pub open spec fn can_drop(b: Board, x: int) -> bool {
    0 <= x < 7 && b.columns[x].len() < 6
}

/// The board after the player to move drops a stone into column `x`.
pub open spec fn drop_stone(b: Board, x: int) -> Board {
    Board {
        columns: b.columns.update(x, b.columns[x].push(b.to_move)),
        to_move: opponent(b.to_move),
    }
}

/// Dropping into column `x` wins for the player to move.
pub open spec fn wins_now(s: Board, x: int) -> bool {
    can_drop(s, x) && has_four(drop_stone(s, x).columns, s.to_move)
}

/// The columns of `b` where the player to move wins at once.
pub open spec fn winning_pred(b: Board) -> spec_fn(int) -> bool {
    |x: int| wins_now(b, x)
}

/// The player to move has a winning drop.
pub open spec fn can_win_now(s: Board) -> bool {
    exists|x: int| #[trigger] wins_now(s, x)
}

/// The numbers below `n` that satisfy `pred`, in increasing order.
pub open spec fn columns_where(n: nat, pred: spec_fn(int) -> bool) -> Seq<usize>
    decreases n,
{
    if n == 0 {
        Seq::empty()
    } else if pred(n - 1) {
        columns_where((n - 1) as nat, pred).push((n - 1) as usize)
    } else {
        columns_where((n - 1) as nat, pred)
    }
}

/// The columns of `b` that still take a stone.
pub open spec fn legal_pred(b: Board) -> spec_fn(int) -> bool {
    |x: int| can_drop(b, x)
}

/// The columns that still take a stone, from left to right.
pub open spec fn legal_moves(b: Board) -> Seq<usize> {
    columns_where(7, legal_pred(b))
}

/// Empty places in the first `n` columns.
pub open spec fn free_in(cols: Seq<Seq<Player>>, n: nat) -> nat
    decreases n,
{
    if n == 0 {
        0
    } else {
        free_in(cols, (n - 1) as nat) + if cols[n - 1].len() < 6 {
            (6 - cols[n - 1].len()) as nat
        } else {
            0nat
        }
    }
}

/// Empty places on the board.
pub open spec fn free_cells(b: Board) -> nat {
    free_in(b.columns, 7)
}

/// Stones of `p` in one column.
pub open spec fn count_in(col: Seq<Player>, p: Player) -> nat
    decreases col.len(),
{
    if col.len() == 0 {
        0
    } else {
        count_in(col.drop_last(), p) + if col.last() == p {
            1nat
        } else {
            0nat
        }
    }
}

/// Stones of `p` in the first `n` columns.
pub open spec fn stones_in(cols: Seq<Seq<Player>>, p: Player, n: nat) -> nat
    decreases n,
{
    if n == 0 {
        0
    } else {
        stones_in(cols, p, (n - 1) as nat) + count_in(cols[n - 1], p)
    }
}

/// Stones of `p` on the board.
pub open spec fn stone_count(b: Board, p: Player) -> nat {
    stones_in(b.columns, p, 7)
}

/// Players take turns from A: A has as many stones as B, and one more when B is
/// to move.
pub open spec fn turns_alternate(b: Board) -> bool {
    stone_count(b, Player::A) == stone_count(b, Player::B) + if b.to_move == Player::B {
        1nat
    } else {
        0nat
    }
}

/// The empty board has no stones, and A is to move.
pub proof fn lemma_initial_counts()
    ensures
        stone_count(initial_board(), Player::A) == 0,
        stone_count(initial_board(), Player::B) == 0,
        turns_alternate(initial_board()),
{
    reveal_with_fuel(stones_in, 8);
    assert(count_in(Seq::<Player>::empty(), Player::A) == 0);
    assert(count_in(Seq::<Player>::empty(), Player::B) == 0);
}

proof fn lemma_stones_in_changed(c: Seq<Seq<Player>>, d: Seq<Seq<Player>>, x: int, q: Player, p: Player, n: nat)
    requires
        0 <= x < c.len(),
        c.len() == d.len(),
        d[x] == c[x].push(q),
        forall|i: int| 0 <= i < c.len() && i != x ==> d[i] == c[i],
        n <= c.len(),
    ensures
        stones_in(d, p, n) == stones_in(c, p, n) + if x < n && p == q {
            1nat
        } else {
            0nat
        },
    decreases n,
{
    if n > 0 {
        lemma_stones_in_changed(c, d, x, q, p, (n - 1) as nat);
        if n - 1 == x {
            assert(d[x].drop_last() =~= c[x]);
        }
    }
}

/// Dropping a stone adds one stone of the player who moved, and turns still
/// alternate.
pub proof fn lemma_drop_stone_counts(b: Board, x: int, p: Player)
    requires
        board_wf(b),
        can_drop(b, x),
    ensures
        stone_count(drop_stone(b, x), p) == stone_count(b, p) + if p == b.to_move {
            1nat
        } else {
            0nat
        },
        turns_alternate(b) ==> turns_alternate(drop_stone(b, x)),
{
    let c = b.columns;
    let d = drop_stone(b, x).columns;
    assert forall|i: int| 0 <= i < c.len() && i != x implies d[i] == c[i] by {}
    lemma_stones_in_changed(c, d, x, b.to_move, p, 7);
    lemma_stones_in_changed(c, d, x, b.to_move, Player::A, 7);
    lemma_stones_in_changed(c, d, x, b.to_move, Player::B, 7);
}

/// Cells among the lowest `n` of column `x` that hold a stone of `p`.
pub open spec fn owned_in_column(cols: Seq<Seq<Player>>, p: Player, x: int, n: nat) -> nat
    decreases n,
{
    if n == 0 {
        0
    } else {
        owned_in_column(cols, p, x, (n - 1) as nat) + if owner(cols, x, n - 1) == Some(p) {
            1nat
        } else {
            0nat
        }
    }
}

/// Cells of the first `n` columns that hold a stone of `p`.
pub open spec fn owned_cells(cols: Seq<Seq<Player>>, p: Player, n: nat) -> nat
    decreases n,
{
    if n == 0 {
        0
    } else {
        owned_cells(cols, p, (n - 1) as nat) + owned_in_column(cols, p, n - 1, 6)
    }
}

proof fn lemma_owned_prefix(cols: Seq<Seq<Player>>, p: Player, x: int, n: nat)
    requires
        0 <= x < cols.len(),
        n <= cols[x].len(),
    ensures
        owned_in_column(cols, p, x, n) == count_in(cols[x].subrange(0, n as int), p),
    decreases n,
{
    if n > 0 {
        lemma_owned_prefix(cols, p, x, (n - 1) as nat);
        assert(cols[x].subrange(0, n as int).drop_last() =~= cols[x].subrange(0, n - 1));
    }
}

proof fn lemma_owned_above(cols: Seq<Seq<Player>>, p: Player, x: int, n: nat)
    requires
        0 <= x < cols.len(),
        cols[x].len() <= n,
    ensures
        owned_in_column(cols, p, x, n) == owned_in_column(cols, p, x, cols[x].len()),
    decreases n,
{
    if n > cols[x].len() {
        lemma_owned_above(cols, p, x, (n - 1) as nat);
    }
}

proof fn lemma_owned_cells(cols: Seq<Seq<Player>>, p: Player, n: nat)
    requires
        cols.len() == 7,
        n <= 7,
        forall|x: int| 0 <= x < 7 ==> #[trigger] cols[x].len() <= 6,
    ensures
        owned_cells(cols, p, n) == stones_in(cols, p, n),
    decreases n,
{
    if n > 0 {
        lemma_owned_cells(cols, p, (n - 1) as nat);
        let x = n - 1;
        assert(cols[x].len() <= 6);
        lemma_owned_above(cols, p, x, 6);
        lemma_owned_prefix(cols, p, x, cols[x].len());
        assert(cols[x].subrange(0, cols[x].len() as int) =~= cols[x]);
    }
}

/// Counted cell by cell, the stones show the players' turns: A has as many stones
/// as B, and one more when B is to move.
pub proof fn lemma_turns_in_cells(b: Board)
    requires
        board_wf(b),
        turns_alternate(b),
    ensures
        owned_cells(b.columns, Player::A, 7) == owned_cells(b.columns, Player::B, 7)
            + if b.to_move == Player::B {
            1nat
        } else {
            0nat
        },
{
    lemma_owned_cells(b.columns, Player::A, 7);
    lemma_owned_cells(b.columns, Player::B, 7);
}

/// What `columns_where` holds: exactly the numbers below `n` that satisfy `pred`,
/// each once and in increasing order.
pub proof fn lemma_columns_where(n: nat, pred: spec_fn(int) -> bool)
    requires
        n <= 7,
    ensures
        forall|i: int|
            0 <= i < columns_where(n, pred).len() ==> #[trigger] columns_where(n, pred)[i] < n
                && pred(columns_where(n, pred)[i] as int),
        forall|i: int, j: int|
            0 <= i < j < columns_where(n, pred).len() ==> columns_where(n, pred)[i]
                < columns_where(n, pred)[j],
        forall|x: int|
            0 <= x < n && pred(x) ==> #[trigger] columns_where(n, pred).contains(x as usize),
        columns_where(n, pred).len() <= n,
    decreases n,
{
    reveal_with_fuel(columns_where, 1);
    if n > 0 {
        lemma_columns_where((n - 1) as nat, pred);
        let prev = columns_where((n - 1) as nat, pred);
        let cur = columns_where(n, pred);
        if pred(n - 1) {
            assert(cur == prev.push((n - 1) as usize));
            assert forall|i: int| 0 <= i < cur.len() implies #[trigger] cur[i] < n && pred(
                cur[i] as int,
            ) by {
                if i < prev.len() {
                    assert(cur[i] == prev[i]);
                }
            }
            assert forall|i: int, j: int| 0 <= i < j < cur.len() implies cur[i] < cur[j] by {
                assert(cur[i] == prev[i]);
                if j < prev.len() {
                    assert(cur[j] == prev[j]);
                }
            }
        }
        assert forall|x: int| 0 <= x < n && pred(x) implies #[trigger] cur.contains(x as usize) by {
            if x == n - 1 {
                assert(cur[prev.len() as int] == x as usize);
            } else {
                assert(prev.contains(x as usize));
                let k = choose|k: int| 0 <= k < prev.len() && prev[k] == x as usize;
                assert(cur[k] == x as usize);
            }
        }
    }
}

/// Dropping a stone into an open column fills one place.
pub proof fn lemma_drop_stone_free(b: Board, x: int)
    requires
        board_wf(b),
        can_drop(b, x),
    ensures
        board_wf(drop_stone(b, x)),
        free_cells(drop_stone(b, x)) + 1 == free_cells(b),
{
    let c = b.columns;
    let d = drop_stone(b, x).columns;
    assert forall|i: int| 0 <= i < 7 && i != x implies d[i] == c[i] by {}
    lemma_free_in_changed(c, d, x, 7);
}

proof fn lemma_free_in_changed(c: Seq<Seq<Player>>, d: Seq<Seq<Player>>, x: int, n: nat)
    requires
        c.len() == 7,
        d.len() == 7,
        0 <= x < 7,
        n <= 7,
        c[x].len() < 6,
        d[x].len() == c[x].len() + 1,
        forall|i: int| 0 <= i < 7 && i != x ==> d[i] == c[i],
    ensures
        free_in(d, n) == if x < n {
            (free_in(c, n) - 1) as nat
        } else {
            free_in(c, n)
        },
        x < n ==> free_in(c, n) >= 1,
    decreases n,
{
    if n > 0 {
        lemma_free_in_changed(c, d, x, (n - 1) as nat);
    }
}

/// A board has at most 42 free places.
pub proof fn lemma_free_cells_bound(b: Board)
    ensures
        free_cells(b) <= 42,
{
    lemma_free_in_bound(b.columns, 7);
}

proof fn lemma_free_in_bound(c: Seq<Seq<Player>>, n: nat)
    ensures
        free_in(c, n) <= 6 * n,
    decreases n,
{
    if n > 0 {
        lemma_free_in_bound(c, (n - 1) as nat);
    }
}

/// Dropping into an open column of any seven-column board fills a place.
pub proof fn lemma_drop_stone_decreases(b: Board, x: int)
    requires
        b.columns.len() == 7,
        can_drop(b, x),
    ensures
        free_cells(drop_stone(b, x)) < free_cells(b),
{
    let c = b.columns;
    let d = drop_stone(b, x).columns;
    assert forall|i: int| 0 <= i < 7 && i != x implies d[i] == c[i] by {}
    lemma_free_in_changed(c, d, x, 7);
}

/// A board with no free place is full, and one that is full has no free place.
pub proof fn lemma_free_cells_zero(b: Board)
    requires
        board_wf(b),
    ensures
        (free_cells(b) == 0) == board_full(b),
{
    lemma_free_in_zero(b.columns, 7);
}

proof fn lemma_free_in_zero(c: Seq<Seq<Player>>, n: nat)
    requires
        c.len() == 7,
        n <= 7,
        forall|x: int| 0 <= x < 7 ==> #[trigger] c[x].len() <= 6,
    ensures
        (free_in(c, n) == 0) == (forall|x: int| 0 <= x < n ==> #[trigger] c[x].len() == 6),
    decreases n,
{
    if n > 0 {
        lemma_free_in_zero(c, (n - 1) as nat);
        assert(c[n - 1].len() <= 6);
    }
}

/// A board has a legal move exactly when it is not full.
pub proof fn lemma_legal_moves_empty(b: Board)
    requires
        board_wf(b),
    ensures
        (legal_moves(b).len() == 0) == board_full(b),
{
    let pred = legal_pred(b);
    lemma_columns_where(7, pred);
    if legal_moves(b).len() == 0 {
        assert forall|x: int| 0 <= x < 7 implies #[trigger] b.columns[x].len() == 6 by {
            if b.columns[x].len() < 6 {
                assert(pred(x));
                assert(legal_moves(b).contains(x as usize));
            }
        }
    }
    if board_full(b) && legal_moves(b).len() > 0 {
        let x = legal_moves(b)[0];
        assert(pred(x as int));
        assert(b.columns[x as int].len() == 6);
    }
}

} // verus!
