//! The fixed two-color grid, stored as a packed bitmap.
//!
//! The grid is `SIDE` rows of `SIDE` columns, each row packed into
//! `SIDE / 8` bytes, most-significant bit first within a byte, row-major,
//! with 1-based coordinates. Bit value 1 encodes White, 0 encodes Black.

use vstd::prelude::*;

verus! {

use vstd::set_lib::lemma_int_range;
use vstd::set_lib::lemma_len_subset;
use vstd::set_lib::set_int_range;

/// Cells per row and per column of the grid.
pub const SIDE: usize = 1024;

/// Bytes per packed row: `SIDE / 8`.
pub const ROW_BYTES: usize = 128;

/// Length of the packed buffer in bytes: `SIDE * SIDE / 8`.
pub const BUF_LEN: usize = 131072;

/// The color of one cell.
#[derive(Debug, Copy, Clone, Eq, PartialEq, Structural)]
pub enum Color {
    White,
    Black,
}

/// A 1-based grid coordinate pair `(x, y)`.
pub type Pos = (usize, usize);

/// The other color.
pub open spec fn flip(c: Color) -> Color {
    match c {
        Color::White => Color::Black,
        Color::Black => Color::White,
    }
}

/// Whether `(x, y)` lies on the grid: both coordinates in `[1, SIDE]`.
pub open spec fn in_bounds(x: int, y: int) -> bool {
    &&& 1 <= x && x <= SIDE as int
    &&& 1 <= y && y <= SIDE as int
}

/// Index of the byte that holds the bit of cell `(x, y)`.
pub open spec fn byte_index(x: int, y: int) -> int {
    (y - 1) * (ROW_BYTES as int) + (x - 1) / 8
}

/// Position of the bit of cell `(x, y)` within its byte, counted from the
/// least significant bit; the leftmost cell of a byte sits at bit 7.
pub open spec fn bit_pos(x: int) -> u8 {
    (7 - (x - 1) % 8) as u8
}

/// The color encoded at cell `(x, y)` of a packed buffer.
pub open spec fn spec_color(cells: Seq<u8>, x: int, y: int) -> Color {
    if (cells[byte_index(x, y)] >> bit_pos(x)) & 1u8 == 1u8 {
        Color::White
    } else {
        Color::Black
    }
}

/// The packed buffer after overwriting cell `(x, y)` with color `c`.
pub open spec fn spec_set_color(cells: Seq<u8>, x: int, y: int, c: Color) -> Seq<u8> {
    let i = byte_index(x, y);
    let b = cells[i];
    match c {
        Color::White => cells.update(i, b | (1u8 << bit_pos(x))),
        Color::Black => cells.update(i, b & !(1u8 << bit_pos(x))),
    }
}

/// Row-major rank of cell `(x, y)`, counting from 0 at `(1, 1)`.
pub open spec fn cell_index(x: int, y: int) -> int {
    (y - 1) * (SIDE as int) + (x - 1)
}

/// The set of row-major ranks of all Black cells of a packed buffer.
pub open spec fn black_set(cells: Seq<u8>) -> Set<int> {
    Set::new(
        |k: int|
            0 <= k < (SIDE as int) * (SIDE as int) && spec_color(
                cells,
                1 + k % (SIDE as int),
                1 + k / (SIDE as int),
            ) == Color::Black,
    )
}

/// How many cells of a packed buffer are Black.
pub open spec fn black_total(cells: Seq<u8>) -> nat {
    black_set(cells).len()
}

/// The byte index of an in-bounds cell lies inside the buffer and its bit
/// position inside a byte.
pub proof fn lemma_addr_range(x: int, y: int)
    requires
        in_bounds(x, y),
    ensures
        0 <= byte_index(x, y) < BUF_LEN,
        0 <= (x - 1) / 8 < ROW_BYTES as int,
        bit_pos(x) < 8,
{
    assert(0 <= (x - 1) % 8 < 8);
    assert(x - 1 == 8 * ((x - 1) / 8) + (x - 1) % 8);
    assert(0 <= (x - 1) / 8 < 128);
}

/// Distinct in-bounds cells occupy distinct bits: the byte index and the bit
/// position together determine the cell.
pub proof fn lemma_addr_injective(x1: int, y1: int, x2: int, y2: int)
    requires
        in_bounds(x1, y1),
        in_bounds(x2, y2),
        byte_index(x1, y1) == byte_index(x2, y2),
        bit_pos(x1) == bit_pos(x2),
    ensures
        x1 == x2,
        y1 == y2,
{
    let q1 = (x1 - 1) / 8;
    let r1 = (x1 - 1) % 8;
    let q2 = (x2 - 1) / 8;
    let r2 = (x2 - 1) % 8;
    assert(x1 - 1 == 8 * q1 + r1);
    assert(x2 - 1 == 8 * q2 + r2);
    assert(0 <= r1 < 8 && 0 <= r2 < 8);
    assert(0 <= q1 < 128 && 0 <= q2 < 128);
    assert((7 - r1) as u8 == 7 - r1);
    assert((7 - r2) as u8 == 7 - r2);
    assert(r1 == r2);
    assert((y1 - 1) * 128 + q1 == (y2 - 1) * 128 + q2);
    assert(y1 == y2);
}

/// The row-major rank of an in-bounds cell lies in `[0, SIDE * SIDE)`, and the
/// cell can be read back from it by division and remainder.
pub proof fn lemma_cell_index_range(x: int, y: int)
    requires
        in_bounds(x, y),
    ensures
        0 <= cell_index(x, y) < (SIDE as int) * (SIDE as int),
        1 + cell_index(x, y) % (SIDE as int) == x,
        1 + cell_index(x, y) / (SIDE as int) == y,
{
    let k = cell_index(x, y);
    assert(k == (y - 1) * 1024 + (x - 1));
    assert(0 <= k < 1024 * 1024) by (nonlinear_arith)
        requires
            k == (y - 1) * 1024 + (x - 1),
            1 <= x <= 1024,
            1 <= y <= 1024,
    ;
    vstd::arithmetic::div_mod::lemma_fundamental_div_mod_converse(k, 1024, y - 1, x - 1);
}

/// Every row-major rank in `[0, SIDE * SIDE)` names an in-bounds cell, and
/// that cell's rank is the rank itself.
pub proof fn lemma_index_cell(k: int)
    requires
        0 <= k < (SIDE as int) * (SIDE as int),
    ensures
        in_bounds(1 + k % (SIDE as int), 1 + k / (SIDE as int)),
        cell_index(1 + k % (SIDE as int), 1 + k / (SIDE as int)) == k,
{
    assert(k == 1024 * (k / 1024) + k % 1024);
    assert(0 <= k % 1024 < 1024);
    assert(0 <= k / 1024 < 1024);
}

/// There are never more Black cells than cells of the grid.
pub proof fn lemma_black_total_bound(cells: Seq<u8>)
    ensures
        black_set(cells).finite(),
        black_total(cells) <= (SIDE as int) * (SIDE as int),
{
    let n = (SIDE as int) * (SIDE as int);
    lemma_int_range(0, n);
    assert(black_set(cells).subset_of(set_int_range(0, n)));
    lemma_len_subset(black_set(cells), set_int_range(0, n));
}

/// An in-bounds cell is counted in `black_set` exactly when it is Black.
pub proof fn lemma_black_at(cells: Seq<u8>, x: int, y: int)
    requires
        in_bounds(x, y),
    ensures
        black_set(cells).contains(cell_index(x, y)) <==> spec_color(cells, x, y) == Color::Black,
{
    lemma_cell_index_range(x, y);
}

/// In a buffer of bytes 0xFF every in-bounds cell reads White.
pub proof fn lemma_fresh_white(cells: Seq<u8>, x: int, y: int)
    requires
        cells.len() == BUF_LEN,
        forall|i: int| 0 <= i < BUF_LEN ==> cells[i] == 255u8,
        in_bounds(x, y),
    ensures
        spec_color(cells, x, y) == Color::White,
{
    lemma_addr_range(x, y);
    let s: u8 = bit_pos(x);
    assert((255u8 >> s) & 1u8 == 1u8) by (bit_vector)
        requires
            s < 8,
    ;
}

/// A board on which every in-bounds cell reads White has no Black cells.
pub proof fn lemma_all_white_total_zero(cells: Seq<u8>)
    requires
        cells.len() == BUF_LEN,
        forall|x: int, y: int| in_bounds(x, y) ==> spec_color(cells, x, y) == Color::White,
    ensures
        black_total(cells) == 0,
{
    let n = (SIDE as int) * (SIDE as int);
    assert forall|k: int| !black_set(cells).contains(k) by {
        if 0 <= k < n {
            lemma_index_cell(k);
            assert(spec_color(cells, 1 + k % (SIDE as int), 1 + k / (SIDE as int))
                == Color::White);
        }
    }
    assert(black_set(cells) =~= Set::<int>::empty());
}

/// Overwriting a cell makes that cell read back the written color.
pub proof fn lemma_get_set_same(cells: Seq<u8>, x: int, y: int, c: Color)
    requires
        cells.len() == BUF_LEN,
        in_bounds(x, y),
    ensures
        spec_color(spec_set_color(cells, x, y, c), x, y) == c,
{
    lemma_addr_range(x, y);
    let b: u8 = cells[byte_index(x, y)];
    let s: u8 = bit_pos(x);
    assert(((b | (1u8 << s)) >> s) & 1u8 == 1u8) by (bit_vector)
        requires
            s < 8,
    ;
    assert(((b & !(1u8 << s)) >> s) & 1u8 == 0u8) by (bit_vector)
        requires
            s < 8,
    ;
}

/// Overwriting a cell never alters any other in-bounds cell's color.
pub proof fn lemma_get_set_other(cells: Seq<u8>, x: int, y: int, c: Color, x2: int, y2: int)
    requires
        cells.len() == BUF_LEN,
        in_bounds(x, y),
        in_bounds(x2, y2),
        !(x2 == x && y2 == y),
    ensures
        spec_color(spec_set_color(cells, x, y, c), x2, y2) == spec_color(cells, x2, y2),
{
    lemma_addr_range(x, y);
    lemma_addr_range(x2, y2);
    if byte_index(x2, y2) == byte_index(x, y) {
        if bit_pos(x2) == bit_pos(x) {
            lemma_addr_injective(x, y, x2, y2);
        }
        let b: u8 = cells[byte_index(x, y)];
        let s: u8 = bit_pos(x);
        let t: u8 = bit_pos(x2);
        assert(((b | (1u8 << s)) >> t) & 1u8 == (b >> t) & 1u8) by (bit_vector)
            requires
                s < 8,
                t < 8,
                s != t,
        ;
        assert(((b & !(1u8 << s)) >> t) & 1u8 == (b >> t) & 1u8) by (bit_vector)
            requires
                s < 8,
                t < 8,
                s != t,
        ;
    }
}

/// Overwriting one cell changes the set of Black cells by exactly that cell:
/// painting it Black inserts its rank, painting it White removes its rank.
pub proof fn lemma_black_set_update(cells: Seq<u8>, x: int, y: int, c: Color)
    requires
        cells.len() == BUF_LEN,
        in_bounds(x, y),
    ensures
        c == Color::Black ==> black_set(spec_set_color(cells, x, y, c)) == black_set(
            cells,
        ).insert(cell_index(x, y)),
        c == Color::White ==> black_set(spec_set_color(cells, x, y, c)) == black_set(
            cells,
        ).remove(cell_index(x, y)),
{
    let n = (SIDE as int) * (SIDE as int);
    let k0 = cell_index(x, y);
    let after = spec_set_color(cells, x, y, c);
    lemma_cell_index_range(x, y);
    lemma_get_set_same(cells, x, y, c);
    assert forall|k: int|
        0 <= k < n && k != k0 implies (black_set(after).contains(k) <==> black_set(
        cells,
    ).contains(k)) by {
        lemma_index_cell(k);
        let xk = 1 + k % (SIDE as int);
        let yk = 1 + k / (SIDE as int);
        if xk == x && yk == y {
            lemma_cell_index_range(x, y);
        } else {
            lemma_get_set_other(cells, x, y, c, xk, yk);
        }
    }
    if c == Color::Black {
        assert(black_set(after) =~= black_set(cells).insert(k0));
    } else {
        assert(black_set(after) =~= black_set(cells).remove(k0));
    }
}

/// The board. Its view is the packed byte buffer.
pub struct Board {
    cells: Vec<u8>,
}

impl View for Board {
    type V = Seq<u8>;

    closed spec fn view(&self) -> Seq<u8> {
        self.cells@
    }
}

impl Board {
    /// The buffer keeps its exact size for the lifetime of the board.
    pub open spec fn wf(&self) -> bool {
        self@.len() == BUF_LEN
    }

    /// A fresh board: every cell White, every buffer byte 0xFF.
    pub fn new() -> (b: Board)
        ensures
            b.wf(),
            forall|i: int| 0 <= i < BUF_LEN ==> b@[i] == 255u8,
            forall|x: int, y: int| in_bounds(x, y) ==> spec_color(b@, x, y) == Color::White,
            black_total(b@) == 0,
    {
        let mut cells: Vec<u8> = Vec::new();
        let mut i: usize = 0;
        while i < BUF_LEN
            invariant
                i <= BUF_LEN,
                cells@.len() == i,
                forall|j: int| 0 <= j < i ==> cells@[j] == 255u8,
            decreases BUF_LEN - i,
        {
            cells.push(255);
            i = i + 1;
        }
        let b = Board { cells };
        proof {
            assert forall|x: int, y: int| in_bounds(x, y) implies spec_color(b@, x, y)
                == Color::White by {
                lemma_fresh_white(b@, x, y);
            }
            lemma_all_white_total_zero(b@);
        }
        b
    }

    /// Index of the byte that holds the bit of `pos`.
    pub fn offset(pos: &Pos) -> (r: usize)
        requires
            in_bounds(pos.0 as int, pos.1 as int),
        ensures
            r == byte_index(pos.0 as int, pos.1 as int),
            r < BUF_LEN,
    {
        proof {
            lemma_addr_range(pos.0 as int, pos.1 as int);
        }
        ((pos.1 - 1) * ROW_BYTES) + ((pos.0 - 1) / 8)
    }

    /// Position of the bit of `pos` within its byte, from the least
    /// significant bit.
    pub fn bitshift(pos: &Pos) -> (r: usize)
        requires
            in_bounds(pos.0 as int, pos.1 as int),
        ensures
            r == bit_pos(pos.0 as int) as usize,
            r < 8,
    {
        proof {
            lemma_addr_range(pos.0 as int, pos.1 as int);
        }
        7 - ((pos.0 - 1) % 8)
    }

    /// Read the color at `pos`.
    pub fn get_color(&self, pos: &Pos) -> (c: Color)
        requires
            self.wf(),
            in_bounds(pos.0 as int, pos.1 as int),
        ensures
            c == spec_color(self@, pos.0 as int, pos.1 as int),
    {
        let offset = Self::offset(pos);
        let block = self.cells[offset];
        let bitshift = Self::bitshift(pos);
        proof {
            let s: u8 = bit_pos(pos.0 as int);
            assert((block & (1u8 << s)) >> s == (block >> s) & 1u8) by (bit_vector)
                requires
                    s < 8,
            ;
        }
        if (block & (1 << bitshift)) >> bitshift == 1 {
            Color::White
        } else {
            Color::Black
        }
    }

    /// Overwrite the single bit at `pos`: White sets it to 1, Black clears
    /// it to 0. No other cell changes.
    pub fn set_color(&mut self, pos: &Pos, color: Color)
        requires
            old(self).wf(),
            in_bounds(pos.0 as int, pos.1 as int),
        ensures
            final(self).wf(),
            final(self)@ == spec_set_color(old(self)@, pos.0 as int, pos.1 as int, color),
            spec_color(final(self)@, pos.0 as int, pos.1 as int) == color,
            forall|x: int, y: int|
                in_bounds(x, y) && !(x == pos.0 as int && y == pos.1 as int) ==> spec_color(
                    final(self)@,
                    x,
                    y,
                ) == spec_color(old(self)@, x, y),
    {
        let offset = Self::offset(pos);
        let block = self.cells[offset];
        let bitshift = Self::bitshift(pos);
        match color {
            Color::White => {
                self.cells[offset] = block | (1 << bitshift);
            },
            Color::Black => {
                self.cells[offset] = block & !(1 << bitshift);
            },
        }
        proof {
            let x = pos.0 as int;
            let y = pos.1 as int;
            lemma_get_set_same(old(self)@, x, y, color);
            assert forall|x2: int, y2: int|
                in_bounds(x2, y2) && !(x2 == x && y2 == y) implies spec_color(self@, x2, y2)
                == spec_color(old(self)@, x2, y2) by {
                lemma_get_set_other(old(self)@, x, y, color, x2, y2);
            }
        }
    }

    /// Whether `pos` lies on the grid.
    pub fn inbound(&self, pos: &Pos) -> (r: bool)
        ensures
            r == in_bounds(pos.0 as int, pos.1 as int),
    {
        1 <= pos.0 && pos.0 <= SIDE && 1 <= pos.1 && pos.1 <= SIDE
    }

    /// A copy of the full packed buffer, ready for a 1-bit-per-pixel
    /// grayscale image encoder at `SIDE` x `SIDE` resolution.
    pub fn as_png_data(&self) -> (r: Vec<u8>)
        ensures
            r@ == self@,
    {
        let mut out: Vec<u8> = Vec::new();
        let mut i: usize = 0;
        let n = self.cells.len();
        while i < n
            invariant
                i <= n,
                n == self.cells.len(),
                out@.len() == i,
                forall|j: int| 0 <= j < i ==> out@[j] == self.cells@[j],
            decreases n - i,
        {
            out.push(self.cells[i]);
            i = i + 1;
        }
        proof {
            assert(out@ =~= self@);
        }
        out
    }
}

} // verus!
