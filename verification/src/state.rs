//! The game state as two 42-bit bitboards, one per player, and its
//! mathematical reading as a `Board`.
use vstd::prelude::*;

use crate::bits::{
    cell, count_column, falling_marks, four_from, four_in_a_row, has_line, horizontal_marks,
    lemma_cell_or, lemma_cell_set, lemma_falling_marks, lemma_full_field, lemma_horizontal_marks,
    lemma_or_in_field, lemma_rising_marks, lemma_set_bit_in_field, lemma_vertical_marks,
    rising_marks, vertical_marks, ALL_COLUMNS_EXCEPT_LAST_MASK, ALL_COLUMNS_EXCEPT_LAST_TWO_MASK,
    FIELD_MASK,
};
use crate::text::push_str;
use crate::rules::{
    board_full, board_wf, can_drop, columns_where, drop_stone, four_owned, free_cells, has_four,
    initial_board, legal_moves, legal_pred, opponent, owner, owns_line, turns_alternate, winner,
    winning_pred, wins_now, Board, HEIGHT, WIDTH,
};

verus! {

/// Bit index of cell `(x, y)`.
fn index(x: usize, y: usize) -> (r: u64)
    requires
        x < 7,
        y < 6,
    ensures
        r == 7 * y + x,
        r < 42,
{
    (y * WIDTH + x) as u64
}

/// One player's stones: bit `7 * y + x` is set when the stone at `(x, y)` is theirs.
#[derive(Clone, Copy, Hash, PartialEq, Eq, Structural)]
pub struct Field {
    bits: u64,
}

impl Field {
    /// Whether the cell `(x, y)` is set.
    pub closed spec fn has(self, x: int, y: int) -> bool {
        cell(self.bits, x, y)
    }

    /// No bit outside the 42 cells is set.
    pub closed spec fn wf(self) -> bool {
        self.bits <= FIELD_MASK
    }

    /// A set cell lies on the board.
    pub proof fn lemma_has_on_board(self, x: int, y: int)
        ensures
            self.has(x, y) ==> 0 <= x < 7 && 0 <= y < 6,
    {
    }

    /// Set cells among the lowest `n` of column `x`.
    pub open spec fn count_below(self, x: int, n: nat) -> nat
        decreases n,
    {
        if n == 0 {
            0
        } else {
            self.count_below(x, (n - 1) as nat) + if self.has(x, n - 1) {
                1nat
            } else {
                0nat
            }
        }
    }

    /// Set cells among the six of column `x`.
    pub open spec fn column_count(self, x: int) -> nat {
        self.count_below(x, 6)
    }

    /// The four cells from `(x, y)` in steps of `(dx, dy)` are set.
    pub open spec fn four(self, x: int, y: int, dx: int, dy: int) -> bool {
        &&& self.has(x, y)
        &&& self.has(x + dx, y + dy)
        &&& self.has(x + 2 * dx, y + 2 * dy)
        &&& self.has(x + 3 * dx, y + 3 * dy)
    }

    /// Four set cells in a line in direction `(dx, dy)`.
    pub open spec fn line(self, dx: int, dy: int) -> bool {
        exists|x: int, y: int| #[trigger] self.four(x, y, dx, dy)
    }

    proof fn lemma_line_bits(self, dx: int, dy: int)
        ensures
            self.line(dx, dy) == has_line(self.bits, dx, dy),
    {
        if self.line(dx, dy) {
            let (x, y) = choose|x: int, y: int| #[trigger] self.four(x, y, dx, dy);
            assert(four_from(self.bits, x, y, dx, dy));
        }
        if has_line(self.bits, dx, dy) {
            let (x, y) = choose|x: int, y: int| #[trigger] four_from(self.bits, x, y, dx, dy);
            assert(self.four(x, y, dx, dy));
        }
    }

    proof fn lemma_win_bits(self)
        ensures
            (self.line(1, 0) || self.line(0, 1) || self.line(1, 1) || self.line(1, -1))
                == four_in_a_row(self.bits),
    {
        self.lemma_line_bits(1, 0);
        self.lemma_line_bits(0, 1);
        self.lemma_line_bits(1, 1);
        self.lemma_line_bits(1, -1);
    }

    proof fn lemma_count_bits(self, x: int, n: nat)
        ensures
            self.count_below(x, n) == count_column(self.bits, x, n),
        decreases n,
    {
        if n > 0 {
            self.lemma_count_bits(x, (n - 1) as nat);
        }
    }

    pub fn new() -> (r: Field)
        ensures
            r.wf(),
            forall|x: int, y: int| !r.has(x, y),
    {
        proof {
            assert forall|x: int, y: int| !cell(0, x, y) by {
                crate::bits::lemma_cell_zero(x, y);
            }
        }
        Field { bits: 0 }
    }

    fn from_bits(bits: u64) -> (r: Field)
        ensures
            r.bits == bits,
    {
        Field { bits }
    }

    pub fn get(self, x: usize, y: usize) -> (r: bool)
        requires
            x < 7,
            y < 6,
        ensures
            r == self.has(x as int, y as int),
    {
        (self.bits >> index(x, y)) & 1 == 1
    }

    pub fn set(&mut self, x: usize, y: usize, value: bool)
        requires
            x < 7,
            y < 6,
        ensures
            old(self).wf() ==> final(self).wf(),
            forall|i: int, j: int|
                #![trigger final(self).has(i, j)]
                final(self).has(i, j) == if i == x && j == y {
                    value
                } else {
                    old(self).has(i, j)
                },
    {
        let p = index(x, y);
        let ghost before = self.bits;
        if value {
            self.bits = self.bits | (1u64 << p);
        } else {
            self.bits = self.bits & !(1u64 << p);
        }
        proof {
            if before <= FIELD_MASK {
                lemma_set_bit_in_field(before, p);
            }
            assert forall|i: int, j: int|
                #![trigger self.has(i, j)]
                self.has(i, j) == if i == x && j == y {
                    value
                } else {
                    old(self).has(i, j)
                } by {
                lemma_cell_set(before, x as int, y as int, i, j);
            }
        }
    }

    /// Number of set cells in column `x`.
    pub fn stones_in_col(self, x: usize) -> (r: usize)
        requires
            x < 7,
        ensures
            r == self.column_count(x as int),
    {
        let mut count: usize = 0;
        let mut y: usize = 0;
        while y < HEIGHT
            invariant
                x < 7,
                y <= 6,
                count == count_column(self.bits, x as int, y as nat),
                count <= y,
            decreases 6 - y,
        {
            if self.get(x, y) {
                count = count + 1;
            }
            y = y + 1;
        }
        proof {
            self.lemma_count_bits(x as int, 6);
        }
        count
    }

    /// Every cell is set.
    pub fn is_full(self) -> (r: bool)
        requires
            self.wf(),
        ensures
            r == forall|x: int, y: int| 0 <= x < 7 && 0 <= y < 6 ==> #[trigger] self.has(x, y),
    {
        proof {
            lemma_full_field(self.bits);
            if self.bits == FIELD_MASK {
                assert forall|x: int, y: int| 0 <= x < 7 && 0 <= y < 6 implies #[trigger] self.has(
                    x,
                    y,
                ) by {
                    assert(cell(self.bits, x, y));
                }
            } else {
                let (x, y) = choose|x: int, y: int|
                    !(0 <= x < 7 && 0 <= y < 6 ==> #[trigger] cell(self.bits, x, y));
                assert(!self.has(x, y));
            }
        }
        self.bits == FIELD_MASK
    }

    /// Four set cells in a row, column or diagonal.
    pub fn is_win(self) -> (r: bool)
        requires
            self.wf(),
        ensures
            r == (self.line(1, 0) || self.line(0, 1) || self.line(1, 1) || self.line(1, -1)),
    {
        self.is_horizontal_win() || self.is_vertial_win() || self.is_diagonal_win_nw_se()
            || self.is_diagonal_win_sw_ne()
    }

    /// Four set cells next to each other in a row.
    pub fn is_horizontal_win(self) -> (r: bool)
        requires
            self.wf(),
        ensures
            r == self.line(1, 0),
    {
        let bits = self.bits;
        let two_next_to_each_other = bits & ((bits & ALL_COLUMNS_EXCEPT_LAST_MASK) << 1u64);
        let four_next_to_each_other = two_next_to_each_other & ((two_next_to_each_other
            & ALL_COLUMNS_EXCEPT_LAST_TWO_MASK) << 2u64);
        proof {
            assert(four_next_to_each_other == horizontal_marks(bits));
            lemma_horizontal_marks(bits);
            self.lemma_line_bits(1, 0);
        }
        four_next_to_each_other & FIELD_MASK != 0
    }

    /// Four set cells above each other in a column.
    pub fn is_vertial_win(self) -> (r: bool)
        requires
            self.wf(),
        ensures
            r == self.line(0, 1),
    {
        let bits = self.bits;
        let two_next_to_each_other = bits & (bits >> 7u64);
        let four_next_to_each_other = two_next_to_each_other & (two_next_to_each_other >> 14u64);
        proof {
            assert(four_next_to_each_other == vertical_marks(bits));
            lemma_vertical_marks(bits);
            self.lemma_line_bits(0, 1);
        }
        four_next_to_each_other != 0
    }

    /// Four set cells on a diagonal rising to the right.
    pub fn is_diagonal_win_nw_se(self) -> (r: bool)
        requires
            self.wf(),
        ensures
            r == self.line(1, 1),
    {
        let bits = self.bits;
        let two_next_to_each_other = bits & ((bits & ALL_COLUMNS_EXCEPT_LAST_MASK) << 8u64);
        let four_next_to_each_other = two_next_to_each_other & ((two_next_to_each_other
            & ALL_COLUMNS_EXCEPT_LAST_TWO_MASK) << 16u64);
        proof {
            assert(four_next_to_each_other == rising_marks(bits));
            lemma_rising_marks(bits);
            self.lemma_line_bits(1, 1);
        }
        four_next_to_each_other & FIELD_MASK != 0
    }

    /// Four set cells on a diagonal falling to the right.
    pub fn is_diagonal_win_sw_ne(self) -> (r: bool)
        requires
            self.wf(),
        ensures
            r == self.line(1, -1),
    {
        let bits = self.bits;
        let two_next_to_each_other = bits & ((bits & ALL_COLUMNS_EXCEPT_LAST_MASK) >> 6u64);
        let four_next_to_each_other = two_next_to_each_other & ((two_next_to_each_other
            & ALL_COLUMNS_EXCEPT_LAST_TWO_MASK) >> 12u64);
        proof {
            assert(four_next_to_each_other == falling_marks(bits));
            lemma_falling_marks(bits);
            self.lemma_line_bits(1, -1);
        }
        four_next_to_each_other & FIELD_MASK != 0
    }
}

/// The two players; A moves first.
#[derive(Clone, Copy, Hash, PartialEq, Eq, Structural)]
pub enum Player {
    A,
    B,
}

impl Player {
    pub fn other(self) -> (r: Player)
        ensures
            r == opponent(self),
    {
        match self {
            Player::A => Player::B,
            Player::B => Player::A,
        }
    }
}


/// Either player has a stone at `(x, y)`.
spec fn occupied(a: u64, b: u64, x: int, y: int) -> bool {
    cell(a, x, y) || cell(b, x, y)
}

/// Column `x` read from the two bitboards: as many stones as it has, each
/// belonging to whichever player has the cell.
spec fn column_of(a: u64, b: u64, x: int) -> Seq<Player> {
    Seq::new(count_column(a | b, x, 6), |y: int| if cell(a, x, y) { Player::A } else { Player::B })
}

/// A position: the stones of each player and the player to move.
#[derive(Clone, Copy, Hash, PartialEq, Eq, Structural)]
pub struct State {
    player_a: Field,
    player_b: Field,
    player: Player,
}

impl View for State {
    type V = Board;

    closed spec fn view(&self) -> Board {
        Board {
            columns: Seq::new(
                7,
                |x: int| column_of(self.player_a.bits, self.player_b.bits, x),
            ),
            to_move: self.player,
        }
    }
}

impl State {
    /// The stones of the player to move.
    spec fn mover_bits(self) -> u64 {
        match self.player {
            Player::A => self.player_a.bits,
            Player::B => self.player_b.bits,
        }
    }

    /// Stones lie only on the 42 cells, never two on one cell, and every stone
    /// above the bottom row rests on another.
    spec fn sound(self) -> bool {
        let a = self.player_a.bits;
        let b = self.player_b.bits;
        &&& a <= FIELD_MASK
        &&& b <= FIELD_MASK
        &&& forall|x: int, y: int| !(#[trigger] cell(a, x, y) && #[trigger] cell(b, x, y))
        &&& forall|x: int, y: int|
            1 <= y < 6 && #[trigger] occupied(a, b, x, y) ==> occupied(a, b, x, y - 1)
    }

    /// A sound board on which the player to move has no four in a row and the
    /// players have taken turns, A first.
    #[verifier::type_invariant]
    spec fn inv(self) -> bool {
        &&& self.sound()
        &&& !four_in_a_row(self.mover_bits())
        &&& turns_alternate(self@)
    }
}

/// In a column whose stones rest on each other, the stones are exactly the
/// lowest `count_column` cells.
proof fn lemma_gravity_count(o: u64, x: int, n: nat)
    requires
        0 <= x < 7,
        n <= 6,
        forall|y: int| 1 <= y < 6 && #[trigger] cell(o, x, y) ==> cell(o, x, y - 1),
    ensures
        count_column(o, x, n) <= n,
        forall|y: int| 0 <= y < n ==> (#[trigger] cell(o, x, y) <==> y < count_column(o, x, n)),
    decreases n,
{
    if n > 0 {
        lemma_gravity_count(o, x, (n - 1) as nat);
        let c = count_column(o, x, (n - 1) as nat);
        if cell(o, x, n - 1) && n >= 2 {
            assert(cell(o, x, n - 2));
        }
    }
}

/// Two well-formed boards with the same stones everywhere and the same player to
/// move are equal.
proof fn lemma_board_ext(b1: Board, b2: Board)
    requires
        board_wf(b1),
        board_wf(b2),
        b1.to_move == b2.to_move,
        forall|x: int, y: int| #[trigger] owner(b1.columns, x, y) == owner(b2.columns, x, y),
    ensures
        b1 == b2,
{
    assert forall|x: int| 0 <= x < 7 implies #[trigger] b1.columns[x] == b2.columns[x] by {
        let l1 = b1.columns[x].len();
        let l2 = b2.columns[x].len();
        if l1 < l2 {
            assert(owner(b1.columns, x, l1 as int) != owner(b2.columns, x, l1 as int));
        }
        if l2 < l1 {
            assert(owner(b1.columns, x, l2 as int) != owner(b2.columns, x, l2 as int));
        }
        assert forall|y: int| 0 <= y < l1 implies b1.columns[x][y] == b2.columns[x][y] by {
            assert(owner(b1.columns, x, y) == owner(b2.columns, x, y));
        }
        assert(b1.columns[x] =~= b2.columns[x]);
    }
    assert(b1.columns =~= b2.columns);
}

/// Four in a line on the board is four in a line on the player's bitboard.
proof fn lemma_line_dir(cols: Seq<Seq<Player>>, bits: u64, p: Player, dx: int, dy: int)
    requires
        forall|x: int, y: int|
            #![trigger owner(cols, x, y)]
            #![trigger cell(bits, x, y)]
            (owner(cols, x, y) == Some(p)) == cell(bits, x, y),
    ensures
        owns_line(cols, p, dx, dy) == has_line(bits, dx, dy),
{
    if owns_line(cols, p, dx, dy) {
        let (x, y) = choose|x: int, y: int| #[trigger] four_owned(cols, p, x, y, dx, dy);
        assert(four_from(bits, x, y, dx, dy));
    }
    if has_line(bits, dx, dy) {
        let (x, y) = choose|x: int, y: int| #[trigger] four_from(bits, x, y, dx, dy);
        assert(four_owned(cols, p, x, y, dx, dy));
    }
}

proof fn lemma_lines(cols: Seq<Seq<Player>>, bits: u64, p: Player)
    requires
        forall|x: int, y: int|
            #![trigger owner(cols, x, y)]
            #![trigger cell(bits, x, y)]
            (owner(cols, x, y) == Some(p)) == cell(bits, x, y),
    ensures
        has_four(cols, p) == four_in_a_row(bits),
{
    lemma_line_dir(cols, bits, p, 1, 0);
    lemma_line_dir(cols, bits, p, 0, 1);
    lemma_line_dir(cols, bits, p, 1, 1);
    lemma_line_dir(cols, bits, p, 1, -1);
}

impl State {
    /// How the board reads off the bitboards.
    proof fn lemma_view(self)
        requires
            self.sound(),
        ensures
            board_wf(self@),
            forall|x: int, y: int|
                #![trigger owner(self@.columns, x, y)]
                owner(self@.columns, x, y) == if cell(self.player_a.bits, x, y) {
                    Some(Player::A)
                } else if cell(self.player_b.bits, x, y) {
                    Some(Player::B)
                } else {
                    None::<Player>
                },
            forall|x: int|
                0 <= x < 7 ==> #[trigger] self@.columns[x].len() == count_column(
                    self.player_a.bits | self.player_b.bits,
                    x,
                    6,
                ),
            forall|p: Player|
                #[trigger] has_four(self@.columns, p) == four_in_a_row(
                    match p {
                        Player::A => self.player_a.bits,
                        Player::B => self.player_b.bits,
                    },
                ),
    {
        let a = self.player_a.bits;
        let b = self.player_b.bits;
        let o = a | b;
        assert forall|x: int, y: int| #[trigger] cell(o, x, y) == occupied(a, b, x, y) by {
            lemma_cell_or(a, b, x, y);
        }
        assert forall|x: int| 0 <= x < 7 implies (forall|y: int|
            0 <= y < 6 ==> (#[trigger] cell(o, x, y) <==> y < count_column(o, x, 6))) && count_column(
            o,
            x,
            6,
        ) <= 6 by {
            assert forall|y: int| 1 <= y < 6 && #[trigger] cell(o, x, y) implies cell(
                o,
                x,
                y - 1,
            ) by {
                assert(occupied(a, b, x, y));
            }
            lemma_gravity_count(o, x, 6);
        }
        let v = self@;
        assert forall|x: int, y: int|
            #![trigger owner(v.columns, x, y)]
            owner(v.columns, x, y) == if cell(a, x, y) {
                Some(Player::A)
            } else if cell(b, x, y) {
                Some(Player::B)
            } else {
                None::<Player>
            } by {
            if 0 <= x < 7 && 0 <= y < 6 {
                assert(cell(o, x, y) == occupied(a, b, x, y));
            }
        }
        assert forall|p: Player| #[trigger] has_four(v.columns, p) == four_in_a_row(
            match p {
                Player::A => a,
                Player::B => b,
            },
        ) by {
            let bits = match p {
                Player::A => a,
                Player::B => b,
            };
            assert forall|x: int, y: int|
                #![trigger owner(v.columns, x, y)]
                #![trigger cell(bits, x, y)]
                (owner(v.columns, x, y) == Some(p)) == cell(bits, x, y) by {
                assert(!(cell(a, x, y) && cell(b, x, y)));
            }
            lemma_lines(v.columns, bits, p);
        }
    }
}


impl State {
    /// The empty board, player A to move.
    pub fn new() -> (r: State)
        ensures
            r@ == initial_board(),
    {
        proof {
            assert forall|x: int, y: int| !cell(0, x, y) by {
                crate::bits::lemma_cell_zero(x, y);
            }
            lemma_empty_state();
        }
        State { player_a: Field { bits: 0 }, player_b: Field { bits: 0 }, player: Player::A }
    }

    /// The player to move. Every position is a proper board: seven columns of at
    /// most six stones, where the players have taken turns from A.
    pub fn player(&self) -> (r: Player)
        ensures
            r == self@.to_move,
            board_wf(self@),
            turns_alternate(self@),
    {
        proof {
            use_type_invariant(self);
            self.lemma_view();
        }
        self.player
    }

    /// The player who has won, if any. The player to move never has four in a row,
    /// so at most one player has.
    pub fn win_player(&self) -> (r: Option<Player>)
        ensures
            r == winner(self@),
            !has_four(self@.columns, self@.to_move),
    {
        proof {
            use_type_invariant(self);
            self.lemma_view();
            assert(has_four(self@.columns, self@.to_move) == four_in_a_row(self.mover_bits()));
        }
        if self.is_win() {
            Some(self.player.other())
        } else {
            None
        }
    }

    /// Whose stone is at `(x, y)`: `Some(true)` for A, `Some(false)` for B. A cell
    /// holds a stone exactly when it lies below the column's height.
    pub fn get(&self, x: usize, y: usize) -> (r: Option<bool>)
        requires
            x < 7,
            y < 6,
        ensures
            r is Some <==> y < self@.columns[x as int].len(),
            r == match owner(self@.columns, x as int, y as int) {
                Some(Player::A) => Some(true),
                Some(Player::B) => Some(false),
                None => None::<bool>,
            },
    {
        proof {
            use_type_invariant(self);
            self.lemma_view();
        }
        if self.player_a.get(x, y) {
            Some(true)
        } else if self.player_b.get(x, y) {
            Some(false)
        } else {
            None
        }
    }

    /// Every occupied cell.
    fn occupancy(&self) -> (r: Field)
        ensures
            r.bits == self.player_a.bits | self.player_b.bits,
    {
        Field::from_bits(self.player_a.bits | self.player_b.bits)
    }

    /// Stones in column `x`.
    pub fn stones_in_col(&self, x: usize) -> (r: usize)
        requires
            x < 7,
        ensures
            r == self@.columns[x as int].len(),
            board_wf(self@),
    {
        proof {
            use_type_invariant(self);
            self.lemma_view();
        }
        let occupancy = self.occupancy();
        proof {
            occupancy.lemma_count_bits(x as int, 6);
        }
        occupancy.stones_in_col(x)
    }

    /// Column `x` still takes a stone.
    pub fn can_put(&self, x: usize) -> (r: bool)
        requires
            x < 7,
        ensures
            r == can_drop(self@, x as int),
            board_wf(self@),
    {
        self.stones_in_col(x) < HEIGHT
    }

    /// Every column is full.
    pub fn is_full(&self) -> (r: bool)
        ensures
            r == board_full(self@),
            board_wf(self@),
    {
        proof {
            use_type_invariant(self);
            self.lemma_view();
            lemma_or_in_field(self.player_a.bits, self.player_b.bits);
        }
        let occupancy = self.occupancy();
        let r = occupancy.is_full();
        proof {
            let o = occupancy.bits;
            if r {
                assert forall|x: int| 0 <= x < 7 implies #[trigger] self@.columns[x].len() == 6 by {
                    assert(occupancy.has(x, 5));
                    lemma_cell_or(self.player_a.bits, self.player_b.bits, x, 5);
                    assert(owner(self@.columns, x, 5) is Some);
                }
            } else {
                let (x, y) = choose|x: int, y: int|
                    !(0 <= x < 7 && 0 <= y < 6 ==> #[trigger] occupancy.has(x, y));
                lemma_cell_or(self.player_a.bits, self.player_b.bits, x, y);
                assert(owner(self@.columns, x, y) is None);
                assert(self@.columns[x].len() < 6);
            }
        }
        r
    }

    /// The player who moved last has four in a row.
    pub fn is_win(&self) -> (r: bool)
        ensures
            r == winner(self@) is Some,
            r == has_four(self@.columns, opponent(self@.to_move)),
            !has_four(self@.columns, self@.to_move),
    {
        proof {
            use_type_invariant(self);
            self.lemma_view();
            assert(has_four(self@.columns, self@.to_move) == four_in_a_row(self.mover_bits()));
            assert(has_four(self@.columns, opponent(self@.to_move)) == four_in_a_row(
                match opponent(self@.to_move) {
                    Player::A => self.player_a.bits,
                    Player::B => self.player_b.bits,
                },
            ));
        }
        proof {
            self.player_a.lemma_win_bits();
            self.player_b.lemma_win_bits();
        }
        match self.player {
            Player::A => self.player_b.is_win(),
            Player::B => self.player_a.is_win(),
        }
    }

    /// The state after the player to move drops a stone into column `x`.
    pub fn put(self, x: usize) -> (r: State)
        requires
            x < 7,
            can_drop(self@, x as int),
            winner(self@) is None,
        ensures
            r@ == drop_stone(self@, x as int),
            board_wf(r@),
            free_cells(r@) + 1 == free_cells(self@),
    {
        proof {
            use_type_invariant(&self);
            self.lemma_view();
        }
        let y = self.stones_in_col(x);
        let ghost a = self.player_a.bits;
        let ghost b = self.player_b.bits;
        let ghost o = a | b;
        proof {
            assert forall|i: int, j: int| #[trigger] cell(o, i, j) == occupied(a, b, i, j) by {
                lemma_cell_or(a, b, i, j);
            }
            assert(!occupied(a, b, x as int, y as int)) by {
                assert(owner(self@.columns, x as int, y as int) is None);
            }
            assert(!four_in_a_row(
                match opponent(self.player) {
                    Player::A => a,
                    Player::B => b,
                },
            )) by {
                assert(!has_four(self@.columns, opponent(self@.to_move)));
            }
        }
        let r = match self.player {
            Player::A => {
                let mut field = self.player_a;
                field.set(x, y, true);
                proof {
                    assert forall|i: int, j: int| #[trigger]
                        cell(field.bits, i, j) == (cell(a, i, j) || (i == x && j == y)) by {
                        assert(field.has(i, j) == if i == x && j == y {
                            true
                        } else {
                            self.player_a.has(i, j)
                        });
                    }
                    self.lemma_put_inv(field.bits, b, x as int, y as int);
                }
                let r = State { player_a: field, player_b: self.player_b, player: Player::B };
                proof {
                    assert forall|i: int, j: int|
                        #![trigger cell(r.player_a.bits, i, j)]
                        #![trigger cell(r.player_b.bits, i, j)]
                        cell(r.player_a.bits, i, j) == (cell(a, i, j) || (i == x && j == y))
                            && cell(r.player_b.bits, i, j) == cell(b, i, j) by {}
                }
                r
            },
            Player::B => {
                let mut field = self.player_b;
                field.set(x, y, true);
                proof {
                    assert forall|i: int, j: int| #[trigger]
                        cell(field.bits, i, j) == (cell(b, i, j) || (i == x && j == y)) by {
                        assert(field.has(i, j) == if i == x && j == y {
                            true
                        } else {
                            self.player_b.has(i, j)
                        });
                    }
                    self.lemma_put_inv(a, field.bits, x as int, y as int);
                }
                let r = State { player_a: self.player_a, player_b: field, player: Player::A };
                proof {
                    assert forall|i: int, j: int|
                        #![trigger cell(r.player_a.bits, i, j)]
                        #![trigger cell(r.player_b.bits, i, j)]
                        cell(r.player_b.bits, i, j) == (cell(b, i, j) || (i == x && j == y))
                            && cell(r.player_a.bits, i, j) == cell(a, i, j) by {}
                }
                r
            },
        };
        proof {
            crate::rules::lemma_drop_stone_free(self@, x as int);
        }
        r
    }

    /// The cells after a stone of the player to move at `(x, y)`, the lowest empty
    /// cell of column `x`, still satisfy the invariant with the other player to move,
    /// and read as the board after dropping into column `x`.
    proof fn lemma_put_inv(self, na: u64, nb: u64, x: int, y: int)
        requires
            self.inv(),
            0 <= x < 7,
            0 <= y < 6,
            y == self@.columns[x].len(),
            can_drop(self@, x),
            !occupied(self.player_a.bits, self.player_b.bits, x, y),
            !four_in_a_row(
                match opponent(self.player) {
                    Player::A => self.player_a.bits,
                    Player::B => self.player_b.bits,
                },
            ),
            na <= FIELD_MASK,
            nb <= FIELD_MASK,
            self.player == Player::A ==> nb == self.player_b.bits,
            self.player == Player::B ==> na == self.player_a.bits,
            forall|i: int, j: int|
                #![trigger cell(na, i, j)]
                cell(na, i, j) == (cell(self.player_a.bits, i, j) || (self.player == Player::A
                    && i == x && j == y)),
            forall|i: int, j: int|
                #![trigger cell(nb, i, j)]
                cell(nb, i, j) == (cell(self.player_b.bits, i, j) || (self.player == Player::B
                    && i == x && j == y)),
        ensures
            (State {
                player_a: Field { bits: na },
                player_b: Field { bits: nb },
                player: opponent(self.player),
            }).inv(),
            (State {
                player_a: Field { bits: na },
                player_b: Field { bits: nb },
                player: opponent(self.player),
            })@ == drop_stone(self@, x),
    {
        self.lemma_view();
        let a = self.player_a.bits;
        let b = self.player_b.bits;
        let r = State {
            player_a: Field { bits: na },
            player_b: Field { bits: nb },
            player: opponent(self.player),
        };
        assert forall|i: int, j: int|
            1 <= j < 6 && #[trigger] occupied(na, nb, i, j) implies occupied(na, nb, i, j - 1) by {
            if i == x && j == y {
                assert(owner(self@.columns, x, y - 1) is Some);
            } else {
                assert(occupied(a, b, i, j));
            }
        }
        assert forall|i: int, j: int| !(#[trigger] cell(na, i, j) && #[trigger] cell(nb, i, j)) by {
            assert(!(cell(a, i, j) && cell(b, i, j)));
        }
        assert(r.sound());
        r.lemma_view();
        let d = drop_stone(self@, x);
        assert forall|i: int, j: int| #[trigger] owner(r@.columns, i, j) == owner(
            d.columns,
            i,
            j,
        ) by {
            let os = owner(self@.columns, i, j);
            if i == x && j == y {
                assert(!cell(a, i, j) && !cell(b, i, j));
                assert(d.columns[i] == self@.columns[i].push(self.player));
                assert(owner(d.columns, i, j) == Some(self.player));
            } else {
                if i == x {
                    assert(d.columns[i] == self@.columns[i].push(self.player));
                    if 0 <= j < y {
                        assert(d.columns[i][j] == self@.columns[i][j]);
                    }
                } else if 0 <= i < 7 {
                    assert(d.columns[i] == self@.columns[i]);
                }
                assert(owner(d.columns, i, j) == os);
            }
        }
        crate::rules::lemma_drop_stone_free(self@, x);
        lemma_board_ext(r@, d);
        crate::rules::lemma_drop_stone_counts(self@, x, Player::A);
    }

    /// The columns that take a stone, from left to right.
    pub fn iter_moves(self) -> (r: Vec<usize>)
        ensures
            r@ == legal_moves(self@),
            board_wf(self@),
    {
        proof {
            use_type_invariant(&self);
            self.lemma_view();
        }
        let occupancy = self.occupancy();
        let mut moves: Vec<usize> = Vec::new();
        let mut x: usize = 0;
        while x < WIDTH
            invariant
                x <= 7,
                occupancy.bits == self.player_a.bits | self.player_b.bits,
                moves@ == columns_where(x as nat, legal_pred(self@)),
            decreases 7 - x,
        {
            proof {
                use_type_invariant(&self);
                self.lemma_view();
            }
            proof {
                occupancy.lemma_count_bits(x as int, 6);
            }
            if occupancy.stones_in_col(x) < HEIGHT {
                moves.push(x);
            }
            proof {
                assert(legal_pred(self@)(x as int) == can_drop(self@, x as int));
            }
            x = x + 1;
        }
        moves
    }
}

impl State {
    /// The board as seen by the player to move: 42 cells (row by row from the
    /// bottom, left to right) marking that player's stones, then 42 marking the
    /// opponent's; 1 for a stone, 0 for none.
    pub fn features(&self) -> (r: Vec<u8>)
        ensures
            r.len() == 84,
            forall|i: int|
                0 <= i < 42 ==> #[trigger] r[i] == if owner(self@.columns, i % 7, i / 7) == Some(
                    self@.to_move,
                ) {
                    1u8
                } else {
                    0u8
                },
            forall|i: int|
                0 <= i < 42 ==> #[trigger] r[42 + i] == if owner(self@.columns, i % 7, i / 7)
                    == Some(opponent(self@.to_move)) {
                    1u8
                } else {
                    0u8
                },
    {
        proof {
            use_type_invariant(self);
            self.lemma_view();
        }
        let (own, other) = match self.player {
            Player::A => (self.player_a, self.player_b),
            Player::B => (self.player_b, self.player_a),
        };
        let mut r: Vec<u8> = Vec::new();
        let mut i: usize = 0;
        while i < 84
            invariant
                i <= 84,
                r.len() == i,
                forall|j: int|
                    0 <= j < i && j < 42 ==> #[trigger] r[j] == if own.has(j % 7, j / 7) {
                        1u8
                    } else {
                        0u8
                    },
                forall|j: int|
                    42 <= j < i ==> #[trigger] r[j] == if other.has((j - 42) % 7, (j - 42) / 7) {
                        1u8
                    } else {
                        0u8
                    },
            decreases 84 - i,
        {
            let k = if i < 42 {
                i
            } else {
                i - 42
            };
            let set = if i < 42 {
                own.get(k % WIDTH, k / WIDTH)
            } else {
                other.get(k % WIDTH, k / WIDTH)
            };
            r.push(if set {
                1
            } else {
                0
            });
            i = i + 1;
        }
        proof {
            assert forall|j: int| 0 <= j < 42 implies #[trigger] r[42 + j] == if owner(
                self@.columns,
                j % 7,
                j / 7,
            ) == Some(opponent(self@.to_move)) {
                1u8
            } else {
                0u8
            } by {
                assert(r[42 + j] == if other.has(j % 7, j / 7) {
                    1u8
                } else {
                    0u8
                });
                assert(!(cell(self.player_a.bits, j % 7, j / 7) && cell(
                    self.player_b.bits,
                    j % 7,
                    j / 7,
                )));
            }
            assert forall|j: int| 0 <= j < 42 implies #[trigger] r[j] == if owner(
                self@.columns,
                j % 7,
                j / 7,
            ) == Some(self@.to_move) {
                1u8
            } else {
                0u8
            } by {
                assert(!(cell(self.player_a.bits, j % 7, j / 7) && cell(
                    self.player_b.bits,
                    j % 7,
                    j / 7,
                )));
            }
        }
        r
    }
}

/// No stones, A to move.
spec fn empty_state() -> State {
    State { player_a: Field { bits: 0 }, player_b: Field { bits: 0 }, player: Player::A }
}

/// The empty board satisfies the invariant and reads as the initial board.
proof fn lemma_empty_state()
    ensures
        empty_state().inv(),
        empty_state()@ == initial_board(),
{
    assert forall|x: int, y: int| !cell(0, x, y) by {
        crate::bits::lemma_cell_zero(x, y);
    }
    assert(0u64 <= FIELD_MASK);
    assert(!four_in_a_row(0));
    assert(0u64 | 0u64 == 0u64) by (bit_vector);
    let c = empty_state();
    assert forall|x: int| 0 <= x < 7 implies #[trigger] c@.columns[x] =~= Seq::<Player>::empty() by {
        lemma_zero_count(x, 6);
    }
    assert(c@.columns =~= initial_board().columns);
    crate::rules::lemma_initial_counts();
}

proof fn lemma_zero_count(x: int, n: nat)
    ensures
        count_column(0, x, n) == 0,
    decreases n,
{
    if n > 0 {
        lemma_zero_count(x, (n - 1) as nat);
        crate::bits::lemma_cell_zero(x, n - 1);
    }
}

impl State {
    /// The columns where the player to move wins at once, from left to right.
    pub fn winning_moves(&self) -> (r: Vec<usize>)
        requires
            winner(self@) is None,
        ensures
            r@ == columns_where(7, winning_pred(self@)),
    {
        let mut moves: Vec<usize> = Vec::new();
        let mut x: usize = 0;
        while x < WIDTH
            invariant
                x <= 7,
                winner(self@) is None,
                moves@ == columns_where(x as nat, winning_pred(self@)),
            decreases 7 - x,
        {
            if self.can_put(x) && self.put(x).is_win() {
                moves.push(x);
            }
            proof {
                assert(winning_pred(self@)(x as int) == wins_now(self@, x as int));
            }
            x = x + 1;
        }
        moves
    }
}

/// How a cell is drawn: `X` for A, `O` for B, a space when empty.
pub open spec fn cell_char(b: Board, x: int, y: int) -> char {
    match owner(b.columns, x, y) {
        Some(Player::A) => 'X',
        Some(Player::B) => 'O',
        None => ' ',
    }
}

/// Row `y` drawn between bars, with a line break.
pub open spec fn row_text(b: Board, y: int) -> Seq<char> {
    seq!['|'] + Seq::new(7, |x: int| cell_char(b, x, y)) + seq!['|', '\n']
}

/// The top `k` rows, from the top down.
pub open spec fn top_rows(b: Board, k: nat) -> Seq<char>
    decreases k,
{
    if k == 0 {
        Seq::empty()
    } else {
        top_rows(b, (k - 1) as nat) + row_text(b, 6 - k)
    }
}

/// The board drawn row by row from the top, above the column numbers.
pub open spec fn board_text(b: Board) -> Seq<char> {
    top_rows(b, 6) + "+1234567+\n"@
}

impl State {
    /// The board as text, as the game prints it.
    pub fn render(&self) -> (r: Vec<char>)
        ensures
            r@ == board_text(self@),
    {
        let mut r: Vec<char> = Vec::new();
        let mut k: usize = 0;
        while k < HEIGHT
            invariant
                k <= 6,
                r@ == top_rows(self@, k as nat),
            decreases 6 - k,
        {
            let y = HEIGHT - 1 - k;
            let ghost before = r@;
            r.push('|');
            let mut x: usize = 0;
            while x < WIDTH
                invariant
                    x <= 7,
                    y == 5 - k,
                    r@ == before + seq!['|'] + Seq::new(x as nat, |i: int| cell_char(self@, i, y as int)),
                decreases 7 - x,
            {
                let c = match self.get(x, y) {
                    Some(true) => 'X',
                    Some(false) => 'O',
                    None => ' ',
                };
                r.push(c);
                proof {
                    assert(Seq::new((x + 1) as nat, |i: int| cell_char(self@, i, y as int)) =~= Seq::new(
                        x as nat,
                        |i: int| cell_char(self@, i, y as int),
                    ).push(c));
                }
                x = x + 1;
            }
            r.push('|');
            r.push('\n');
            proof {
                assert(r@ =~= top_rows(self@, (k + 1) as nat));
            }
            k = k + 1;
        }
        push_str(&mut r, "+1234567+\n");
        r
    }
}

impl Player {
    /// The player's name, as the board shows it.
    pub fn label(self) -> (r: &'static str)
        ensures
            self == Player::A ==> r@ == "A"@,
            self == Player::B ==> r@ == "B"@,
    {
        match self {
            Player::A => "A",
            Player::B => "B",
        }
    }
}

} // verus!
