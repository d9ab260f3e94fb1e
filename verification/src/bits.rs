//! Facts about single bits of 64-bit words, and the four-in-a-row masks of a
//! 7x6 bitboard whose cell `(x, y)` is bit `7 * y + x`.
use vstd::prelude::*;

verus! {

/// Whether bit `p` of `bits` is set, for any integer `p` (false outside `0..64`).
pub open spec fn bit_set(bits: u64, p: int) -> bool {
    0 <= p < 64 && (bits >> (p as u64)) & 1 == 1
}

/// Bits `(x, y)` with `x <= 5`: every column but the last.
pub const ALL_COLUMNS_EXCEPT_LAST_MASK: u64 = 0x1f_bf7e_fdfb_f;

/// Bits `(x, y)` with `x <= 4`: every column but the last two.
pub const ALL_COLUMNS_EXCEPT_LAST_TWO_MASK: u64 = 0xf_9f3e_7cf9_f;

/// The 42 bits of the board.
pub const FIELD_MASK: u64 = 0x3ff_ffff_ffff;

/// Marks bit `q` when the cells `q - 3 ..= q` of one row are all set.
pub open spec fn horizontal_marks(b: u64) -> u64 {
    (b & ((b & 0x1f_bf7e_fdfb_f) << 1u64))
        & (((b & ((b & 0x1f_bf7e_fdfb_f) << 1u64)) & 0xf_9f3e_7cf9_f) << 2u64)
}

pub proof fn lemma_horizontal_marks_bit(b: u64, q: u64)
    by (bit_vector)
    requires
        q < 64,
    ensures
        ((horizontal_marks(b) & 0x3ff_ffff_ffff) >> q) & 1 == 1 <==> (q < 42 && q % 7 >= 3
            && (b >> q) & 1 == 1 && (b >> ((q - 1) as u64)) & 1 == 1 && (b >> ((q - 2) as u64))
            & 1 == 1 && (b >> ((q - 3) as u64)) & 1 == 1),
{
}


/// Cell `(x, y)` of the board, with `x` in `0..7` from the left and `y` in `0..6` from the bottom.
pub open spec fn cell(b: u64, x: int, y: int) -> bool {
    0 <= x < 7 && 0 <= y < 6 && bit_set(b, 7 * y + x)
}

/// Four cells set in a line, starting at `(x, y)` and stepping by `(dx, dy)`.
pub open spec fn four_from(b: u64, x: int, y: int, dx: int, dy: int) -> bool {
    &&& cell(b, x, y)
    &&& cell(b, x + dx, y + dy)
    &&& cell(b, x + 2 * dx, y + 2 * dy)
    &&& cell(b, x + 3 * dx, y + 3 * dy)
}

/// Some four cells in a line in direction `(dx, dy)` are all set.
pub open spec fn has_line(b: u64, dx: int, dy: int) -> bool {
    exists|x: int, y: int| #[trigger] four_from(b, x, y, dx, dy)
}

/// A nonzero word has a set bit.
pub proof fn lemma_some_bit(x: u64) -> (q: u64)
    requires
        x != 0,
    ensures
        q < 64,
        (x >> q) & 1 == 1,
{
    broadcast use vstd::std_specs::bits::axiom_u64_trailing_zeros;
    let t = vstd::std_specs::bits::u64_trailing_zeros(x);
    t as u64
}

/// A word with a set bit is nonzero.
pub proof fn lemma_bit_nonzero(x: u64, q: u64)
    by (bit_vector)
    requires
        q < 64,
        (x >> q) & 1 == 1,
    ensures
        x != 0,
{
}

pub proof fn lemma_horizontal_marks(b: u64)
    ensures
        (horizontal_marks(b) & 0x3ff_ffff_ffff != 0) == has_line(b, 1, 0),
{
    let m = horizontal_marks(b) & 0x3ff_ffff_ffff;
    if m != 0 {
        let q = lemma_some_bit(m);
        lemma_horizontal_marks_bit(b, q);
        let x = (q % 7) - 3;
        let y = q / 7;
        assert(four_from(b, x as int, y as int, 1, 0));
    }
    if has_line(b, 1, 0) {
        let (x, y) = choose|x: int, y: int| #[trigger] four_from(b, x, y, 1, 0);
        let q = (7 * y + x + 3) as u64;
        lemma_horizontal_marks_bit(b, q);
        lemma_bit_nonzero(m, q);
    }
}


/// Marks bit `q` when the cells `q, q + 7, q + 14, q + 21` of one column are all set.
pub open spec fn vertical_marks(b: u64) -> u64 {
    (b & (b >> 7u64)) & ((b & (b >> 7u64)) >> 14u64)
}

pub proof fn lemma_vertical_marks_bit(b: u64, q: u64)
    by (bit_vector)
    requires
        q < 64,
        b <= 0x3ff_ffff_ffff,
    ensures
        (vertical_marks(b) >> q) & 1 == 1 <==> (q < 21 && (b >> q) & 1 == 1 && (b >> ((q + 7)
            as u64)) & 1 == 1 && (b >> ((q + 14) as u64)) & 1 == 1 && (b >> ((q + 21) as u64)) & 1
            == 1),
{
}

pub proof fn lemma_vertical_marks(b: u64)
    requires
        b <= 0x3ff_ffff_ffff,
    ensures
        (vertical_marks(b) != 0) == has_line(b, 0, 1),
{
    let m = vertical_marks(b);
    if m != 0 {
        let q = lemma_some_bit(m);
        lemma_vertical_marks_bit(b, q);
        let x = q % 7;
        let y = q / 7;
        assert(four_from(b, x as int, y as int, 0, 1));
    }
    if has_line(b, 0, 1) {
        let (x, y) = choose|x: int, y: int| #[trigger] four_from(b, x, y, 0, 1);
        let q = (7 * y + x) as u64;
        lemma_vertical_marks_bit(b, q);
        lemma_bit_nonzero(m, q);
    }
}

/// Marks bit `q` when the cells `q - 24, q - 16, q - 8, q` (rising to the right) are all set.
pub open spec fn rising_marks(b: u64) -> u64 {
    (b & ((b & 0x1f_bf7e_fdfb_f) << 8u64))
        & (((b & ((b & 0x1f_bf7e_fdfb_f) << 8u64)) & 0xf_9f3e_7cf9_f) << 16u64)
}

pub proof fn lemma_rising_marks_bit(b: u64, q: u64)
    by (bit_vector)
    requires
        q < 64,
    ensures
        ((rising_marks(b) & 0x3ff_ffff_ffff) >> q) & 1 == 1 <==> (q < 42 && q >= 24 && q % 7 >= 3
            && (b >> q) & 1 == 1 && (b >> ((q - 8) as u64)) & 1 == 1 && (b >> ((q - 16) as u64))
            & 1 == 1 && (b >> ((q - 24) as u64)) & 1 == 1),
{
}

pub proof fn lemma_rising_marks(b: u64)
    ensures
        (rising_marks(b) & 0x3ff_ffff_ffff != 0) == has_line(b, 1, 1),
{
    let m = rising_marks(b) & 0x3ff_ffff_ffff;
    if m != 0 {
        let q = lemma_some_bit(m);
        lemma_rising_marks_bit(b, q);
        let x = (q % 7) - 3;
        let y = q / 7 - 3;
        assert(four_from(b, x as int, y as int, 1, 1));
    }
    if has_line(b, 1, 1) {
        let (x, y) = choose|x: int, y: int| #[trigger] four_from(b, x, y, 1, 1);
        let q = (7 * y + x + 24) as u64;
        lemma_rising_marks_bit(b, q);
        lemma_bit_nonzero(m, q);
    }
}

/// Marks bit `q` when the cells `q, q + 6, q + 12, q + 18` (falling to the right from
/// `q + 18`) are all set.
pub open spec fn falling_marks(b: u64) -> u64 {
    (b & ((b & 0x1f_bf7e_fdfb_f) >> 6u64))
        & (((b & ((b & 0x1f_bf7e_fdfb_f) >> 6u64)) & 0xf_9f3e_7cf9_f) >> 12u64)
}

pub proof fn lemma_falling_marks_bit(b: u64, q: u64)
    by (bit_vector)
    requires
        q < 64,
        b <= 0x3ff_ffff_ffff,
    ensures
        ((falling_marks(b) & 0x3ff_ffff_ffff) >> q) & 1 == 1 <==> (q < 24 && q % 7 >= 3 && (b
            >> q) & 1 == 1 && (b >> ((q + 6) as u64)) & 1 == 1 && (b >> ((q + 12) as u64)) & 1
            == 1 && (b >> ((q + 18) as u64)) & 1 == 1),
{
}

pub proof fn lemma_falling_marks(b: u64)
    requires
        b <= 0x3ff_ffff_ffff,
    ensures
        (falling_marks(b) & 0x3ff_ffff_ffff != 0) == has_line(b, 1, -1),
{
    let m = falling_marks(b) & 0x3ff_ffff_ffff;
    if m != 0 {
        let q = lemma_some_bit(m);
        lemma_falling_marks_bit(b, q);
        let x = (q % 7) - 3;
        let y = q / 7 + 3;
        assert(four_from(b, x as int, y as int, 1, -1));
    }
    if has_line(b, 1, -1) {
        let (x, y) = choose|x: int, y: int| #[trigger] four_from(b, x, y, 1, -1);
        let q = (7 * y + x - 18) as u64;
        lemma_falling_marks_bit(b, q);
        lemma_bit_nonzero(m, q);
    }
}


/// Four set cells in a line in any of the four directions.
pub open spec fn four_in_a_row(b: u64) -> bool {
    has_line(b, 1, 0) || has_line(b, 0, 1) || has_line(b, 1, 1) || has_line(b, 1, -1)
}

/// Number of set cells among the lowest `n` cells of column `x`.
pub open spec fn count_column(b: u64, x: int, n: nat) -> nat
    decreases n,
{
    if n == 0 {
        0
    } else {
        count_column(b, x, (n - 1) as nat) + if cell(b, x, n - 1) {
            1nat
        } else {
            0nat
        }
    }
}

pub proof fn lemma_or_bit(a: u64, b: u64, q: u64)
    by (bit_vector)
    requires
        q < 64,
    ensures
        ((a | b) >> q) & 1 == 1 <==> ((a >> q) & 1 == 1 || (b >> q) & 1 == 1),
{
}

pub proof fn lemma_set_bit(b: u64, p: u64, q: u64)
    by (bit_vector)
    requires
        p < 64,
        q < 64,
    ensures
        ((b | (1u64 << p)) >> q) & 1 == 1 <==> ((b >> q) & 1 == 1 || p == q),
        ((b & !(1u64 << p)) >> q) & 1 == 1 <==> ((b >> q) & 1 == 1 && p != q),
{
}

pub proof fn lemma_set_bit_in_field(b: u64, p: u64)
    by (bit_vector)
    requires
        p < 42,
        b <= 0x3ff_ffff_ffff,
    ensures
        b | (1u64 << p) <= 0x3ff_ffff_ffff,
        b & !(1u64 << p) <= 0x3ff_ffff_ffff,
{
}

pub proof fn lemma_or_in_field(a: u64, b: u64)
    by (bit_vector)
    requires
        a <= 0x3ff_ffff_ffff,
        b <= 0x3ff_ffff_ffff,
    ensures
        a | b <= 0x3ff_ffff_ffff,
{
}

proof fn lemma_full_field_bit(b: u64, q: u64)
    by (bit_vector)
    requires
        q < 64,
        b <= 0x3ff_ffff_ffff,
    ensures
        b == 0x3ff_ffff_ffff && q < 42 ==> (b >> q) & 1 == 1,
        ((b ^ 0x3ff_ffff_ffff) >> q) & 1 == 1 ==> q < 42 && (b >> q) & 1 != 1,
{
}

/// No cell of the empty word is set.
pub proof fn lemma_cell_zero(x: int, y: int)
    ensures
        !cell(0, x, y),
{
    if 0 <= x < 7 && 0 <= y < 6 {
        let q = (7 * y + x) as u64;
        assert((0u64 >> q) & 1 != 1) by (bit_vector);
    }
}

/// Each cell of a word of the field, in terms of the cells.
pub proof fn lemma_cell_or(a: u64, b: u64, x: int, y: int)
    ensures
        cell(a | b, x, y) == (cell(a, x, y) || cell(b, x, y)),
{
    if 0 <= x < 7 && 0 <= y < 6 {
        lemma_or_bit(a, b, (7 * y + x) as u64);
    }
}

/// Setting or clearing the bit of cell `(sx, sy)` changes that cell alone.
pub proof fn lemma_cell_set(b: u64, sx: int, sy: int, x: int, y: int)
    requires
        0 <= sx < 7,
        0 <= sy < 6,
    ensures
        cell(b | (1u64 << ((7 * sy + sx) as u64)), x, y) == (cell(b, x, y) || (x == sx && y
            == sy)),
        cell(b & !(1u64 << ((7 * sy + sx) as u64)), x, y) == (cell(b, x, y) && !(x == sx && y
            == sy)),
{
    if 0 <= x < 7 && 0 <= y < 6 {
        lemma_set_bit(b, (7 * sy + sx) as u64, (7 * y + x) as u64);
    }
}

/// A word within the field is the full field exactly when every cell is set.
pub proof fn lemma_full_field(b: u64)
    requires
        b <= 0x3ff_ffff_ffff,
    ensures
        (b == 0x3ff_ffff_ffff) == (forall|x: int, y: int|
            0 <= x < 7 && 0 <= y < 6 ==> #[trigger] cell(b, x, y)),
{
    if b == 0x3ff_ffff_ffff {
        assert forall|x: int, y: int| 0 <= x < 7 && 0 <= y < 6 implies #[trigger] cell(b, x, y) by {
            lemma_full_field_bit(b, (7 * y + x) as u64);
        }
    } else {
        assert(b ^ 0x3ff_ffff_ffff != 0) by (bit_vector)
            requires
                b != 0x3ff_ffff_ffff,
        ;
        let q = lemma_some_bit(b ^ 0x3ff_ffff_ffff);
        lemma_full_field_bit(b, q);
        let x = (q % 7) as int;
        let y = (q / 7) as int;
        assert(!cell(b, x, y));
    }
}


/// Bit `c` of a byte used as a set of columns.
pub open spec fn byte_has(w: u8, c: int) -> bool {
    0 <= c < 8 && (w >> (c as u8)) & 1 == 1
}

pub proof fn lemma_byte_bits(w: u8, c: u8, x: u8)
    by (bit_vector)
    requires
        c < 8,
        x < 8,
    ensures
        ((w | (1u8 << x)) >> c) & 1 == 1 <==> ((w >> c) & 1 == 1 || c == x),
        (w | (1u8 << x)) != 0,
        (0u8 >> c) & 1 != 1,
        (w & (1u8 << x) != 0) == ((w >> x) & 1 == 1),
{
}

/// Adding column `x` to a set of columns.
pub proof fn lemma_byte_insert(w: u8, x: int)
    requires
        0 <= x < 8,
    ensures
        forall|c: int| #[trigger] byte_has(w | (1u8 << (x as u8)), c) == (byte_has(w, c) || c == x),
        w | (1u8 << (x as u8)) != 0,
{
    assert forall|c: int| #[trigger] byte_has(w | (1u8 << (x as u8)), c) == (byte_has(w, c) || c
        == x) by {
        if 0 <= c < 8 {
            lemma_byte_bits(w, c as u8, x as u8);
        }
    }
    lemma_byte_bits(w, 0, x as u8);
}

} // verus!
