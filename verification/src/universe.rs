//! The universe of cells: a toroidal two-state grid and the classic
//! birth-on-3 / survive-on-2-or-3 transition that advances it.

use vstd::prelude::*;
use vstd::arithmetic::div_mod::lemma_fundamental_div_mod;
use vstd::arithmetic::div_mod::lemma_fundamental_div_mod_converse;
use vstd::arithmetic::div_mod::lemma_mod_division_less_than_divisor;
use fixedbitset::FixedBitSet;
use crate::bitset::bits_of;
use crate::bitset::bits_new;
use crate::bitset::bits_get;
use crate::bitset::bits_set;
use crate::bitset::bits_insert;
use crate::bitset::bits_toggle;
use crate::bitset::bits_clear;
use crate::bitset::bits_clone;
use crate::bitset::random_ratio;
use crate::bitset::chars_to_string;

verus! {

/// A freshly seeded cell is drawn alive with probability
/// `RANDOM_ALIVE_NUMERATOR` in `RANDOM_ALIVE_DENOMINATOR`.
pub const RANDOM_ALIVE_NUMERATOR: u32 = 3;

/// See `RANDOM_ALIVE_NUMERATOR`.
pub const RANDOM_ALIVE_DENOMINATOR: u32 = 10;

/// The transition rule: a live cell survives with 2 or 3 live neighbors,
/// a dead cell is born with exactly 3, and every other cell is dead next.
pub open spec fn next_state(alive: bool, live_count: int) -> bool {
    if alive {
        live_count == 2 || live_count == 3
    } else {
        live_count == 3
    }
}

/// Row-major linear index of the cell at wrapped coordinates
/// `(r mod h, c mod w)`.
pub open spec fn wrap_index(w: int, h: int, r: int, c: int) -> int {
    (r % h) * w + (c % w)
}

/// 1 if the wrapped cell `(r mod h, c mod w)` is alive in `g`, else 0.
pub open spec fn neighbor_contrib(g: Seq<bool>, w: int, h: int, r: int, c: int) -> int {
    if g[wrap_index(w, h, r, c)] {
        1
    } else {
        0
    }
}

/// Number of live cells among the 8 wrapped neighbors of `(r, c)`: the
/// row offsets `{h-1, 0, 1}` crossed with the column offsets `{w-1, 0, 1}`,
/// the `(0, 0)` pair excluded, each taken modulo the grid extent.
pub open spec fn live_neighbors(g: Seq<bool>, w: int, h: int, r: int, c: int) -> int {
    neighbor_contrib(g, w, h, r + h - 1, c + w - 1) + neighbor_contrib(g, w, h, r + h - 1, c)
        + neighbor_contrib(g, w, h, r + h - 1, c + 1) + neighbor_contrib(g, w, h, r, c + w - 1)
        + neighbor_contrib(g, w, h, r, c + 1) + neighbor_contrib(g, w, h, r + 1, c + w - 1)
        + neighbor_contrib(g, w, h, r + 1, c) + neighbor_contrib(g, w, h, r + 1, c + 1)
}

/// The whole next generation, every cell derived from the current grid.
pub open spec fn next_grid(g: Seq<bool>, w: int, h: int) -> Seq<bool> {
    Seq::new(g.len(), |i: int| next_state(g[i], live_neighbors(g, w, h, i / w, i % w)))
}

/// A `w * h` grid that is dead everywhere except the five glider cells at
/// offsets `(1,3), (2,1), (2,3), (3,2), (3,3)` from the origin.
pub open spec fn glider_grid(w: int, h: int) -> Seq<bool> {
    Seq::new(
        (w * h) as nat,
        |i: int|
            i == w + 3 || i == 2 * w + 1 || i == 2 * w + 3 || i == 3 * w + 2 || i == 3 * w + 3,
    )
}

/// The symbol a cell renders as: a filled square when alive, else an
/// empty one.
pub open spec fn render_char(alive: bool) -> char {
    if alive {
        '◼'
    } else {
        '◻'
    }
}

/// The characters of row `r`: one symbol per cell, then a line break.
pub open spec fn row_chars(g: Seq<bool>, w: int, r: int) -> Seq<char> {
    Seq::new(w as nat, |c: int| render_char(g[r * w + c])).push('\n')
}

/// The characters of the first `rows` rows, in order.
pub open spec fn render_rows(g: Seq<bool>, w: int, rows: int) -> Seq<char>
    decreases rows,
{
    if rows <= 0 {
        Seq::empty()
    } else {
        render_rows(g, w, rows - 1) + row_chars(g, w, rows - 1)
    }
}

/// Whether bit `k` of `word` is set.
pub open spec fn word_bit(word: u32, k: int) -> bool {
    (word >> (k as u32)) & 1 == 1
}

/// Row-major indexing facts for a grid of width `w`: the index of `(r, c)`
/// is in a `h`-row grid's range, and it determines `r` and `c` uniquely.
pub proof fn lemma_grid_index(w: int, h: int, r: int, c: int)
    requires
        0 < w,
        0 <= r < h,
        0 <= c < w,
    ensures
        0 <= r * w + c < h * w,
        0 <= r * w + c < w * h,
        (r * w + c) / w == r,
        (r * w + c) % w == c,
{
    assert(0 <= r * w + c < h * w && h * w == w * h) by (nonlinear_arith)
        requires
            0 <= r < h,
            0 <= c < w,
            0 < w,
    ;
    lemma_fundamental_div_mod_converse(r * w + c, w, r, c);
}

/// Rounding a nonnegative count up to whole 32-bit words: `q` words cover
/// `n` bits with fewer than 32 to spare.
proof fn lemma_div_round_up(n: int, q: int)
    requires
        0 <= n,
        q == n / 32 + if n % 32 == 0 {
            0int
        } else {
            1int
        },
    ensures
        q == (n + 31) / 32,
        n <= q * 32,
        q * 32 <= n + 31,
{
    lemma_fundamental_div_mod(n, 32);
    lemma_mod_division_less_than_divisor(n, 32);
    if n % 32 == 0 {
        lemma_fundamental_div_mod_converse(n + 31, 32, n / 32, 31);
    } else {
        lemma_fundamental_div_mod_converse(n + 31, 32, n / 32 + 1, n % 32 - 1);
    }
}

/// The all-zero word has no bit set.
proof fn lemma_zero_word(k: u32)
    requires
        k < 32,
    ensures
        !word_bit(0u32, k as int),
{
    assert((0u32 >> k) & 1 == 0) by (bit_vector);
}

/// Setting bit `j` of a word by an `or` sets that bit and leaves every
/// other bit as it was.
proof fn lemma_word_or_bit(x: u32, j: u32, k: u32)
    requires
        j < 32,
        k < 32,
    ensures
        k == j ==> word_bit(x | (1u32 << j), k as int),
        k != j ==> word_bit(x | (1u32 << j), k as int) == word_bit(x, k as int),
{
    assert(((x | (1u32 << j)) >> j) & 1 == 1) by (bit_vector)
        requires
            j < 32,
    ;
    assert(k != j ==> ((x | (1u32 << j)) >> k) & 1 == (x >> k) & 1) by (bit_vector)
        requires
            j < 32,
            k < 32,
    ;
}

/// The universe: grid dimensions plus one packed bit per cell, row-major.
pub struct Universe {
    width: u32,
    height: u32,
    cells: FixedBitSet,
}

impl Universe {
    /// The grid width, as a mathematical integer.
    pub closed spec fn spec_width(&self) -> int {
        self.width as int
    }

    /// The grid height, as a mathematical integer.
    pub closed spec fn spec_height(&self) -> int {
        self.height as int
    }

    /// The cells, one bool per grid position, row-major.
    pub closed spec fn grid(&self) -> Seq<bool> {
        bits_of(self.cells)
    }

    /// Well-formedness: both dimensions at least 6, the cell count within
    /// the machine's index range, and exactly `width * height` stored bits.
    pub open spec fn wf(&self) -> bool {
        &&& 6 <= self.spec_width()
        &&& 6 <= self.spec_height()
        &&& self.spec_width() * self.spec_height() <= u32::MAX as int
        &&& self.grid().len() == self.spec_width() * self.spec_height()
    }

    /// Whether the cell at `(r, c)` is alive.
    pub open spec fn alive(&self, r: int, c: int) -> bool {
        self.grid()[r * self.spec_width() + c]
    }

    /// Linear index of the in-range cell `(row, col)`.
    fn get_index(&self, row: u32, col: u32) -> (idx: usize)
        requires
            self.wf(),
            (row as int) < self.spec_height(),
            (col as int) < self.spec_width(),
        ensures
            idx as int == row as int * self.spec_width() + col as int,
            idx < self.grid().len(),
    {
        proof {
            lemma_grid_index(self.spec_width(), self.spec_height(), row as int, col as int);
        }
        (row * self.width + col) as usize
    }

    /// Creates a universe of the given dimensions. With `rand_init` every
    /// cell is drawn independently alive with probability 3/10; otherwise
    /// the grid is dead except for a fixed glider near the origin.
    /// Dimensions under 6 are a programming error and are excluded here;
    /// a caller that must handle them uses `try_new`.
    pub fn new(width: u32, height: u32, rand_init: bool) -> (u: Universe)
        requires
            6 <= width,
            6 <= height,
            width as int * height as int <= u32::MAX as int,
        ensures
            u.wf(),
            u.spec_width() == width as int,
            u.spec_height() == height as int,
            !rand_init ==> u.grid() == glider_grid(width as int, height as int),
    {
        let size = (width as usize) * (height as usize);
        let mut cells = bits_new(size);
        if rand_init {
            let mut i: usize = 0;
            while i < size
                invariant
                    i <= size,
                    bits_of(cells).len() == size,
                decreases size - i,
            {
                let v = random_ratio(RANDOM_ALIVE_NUMERATOR, RANDOM_ALIVE_DENOMINATOR);
                bits_set(&mut cells, i, v);
                i += 1;
            }
            Universe { width, height, cells }
        } else {
            proof {
                assert(3 * (width as int) + 3 < (width as int) * (height as int))
                    by (nonlinear_arith)
                    requires
                        6 <= width as int,
                        6 <= height as int,
                ;
            }
            let w = width as usize;
            bits_insert(&mut cells, w + 3);
            bits_insert(&mut cells, 2 * w + 1);
            bits_insert(&mut cells, 2 * w + 3);
            bits_insert(&mut cells, 3 * w + 2);
            bits_insert(&mut cells, 3 * w + 3);
            let u = Universe { width, height, cells };
            proof {
                assert(u.grid() =~= glider_grid(width as int, height as int));
            }
            u
        }
    }

    /// Checked construction: `Some` exactly when both dimensions are at
    /// least 6 and the cell count fits the index range, with the same
    /// result as `new`; `None` otherwise.
    pub fn try_new(width: u32, height: u32, rand_init: bool) -> (r: Option<Universe>)
        ensures
            r is Some <==> (6 <= width && 6 <= height && width as int * height as int
                <= u32::MAX as int),
            match r {
                Some(u) => {
                    &&& u.wf()
                    &&& u.spec_width() == width as int
                    &&& u.spec_height() == height as int
                    &&& !rand_init ==> u.grid() == glider_grid(width as int, height as int)
                },
                None => true,
            },
    {
        proof {
            assert((width as int) * (height as int) < 0x1_0000_0000_0000_0000) by (nonlinear_arith)
                requires
                    width as int <= 0xffff_ffff,
                    height as int <= 0xffff_ffff,
            ;
        }
        if width >= 6 && height >= 6 && (width as u64) * (height as u64) <= u32::MAX as u64 {
            Some(Universe::new(width, height, rand_init))
        } else {
            None
        }
    }

    /// Advances the grid by one generation. Every cell of the new grid is a
    /// function of the grid as it stood before the call alone: counts are
    /// taken against that snapshot, and the new generation is built in a
    /// separate buffer swapped in at the end.
    pub fn tick(&mut self)
        requires
            old(self).wf(),
        ensures
            final(self).wf(),
            final(self).spec_width() == old(self).spec_width(),
            final(self).spec_height() == old(self).spec_height(),
            final(self).grid() == next_grid(
                old(self).grid(),
                old(self).spec_width(),
                old(self).spec_height(),
            ),
            forall|r: int, c: int|
                0 <= r < old(self).spec_height() && 0 <= c < old(self).spec_width()
                    ==> final(self).alive(r, c) == next_state(
                    old(self).alive(r, c),
                    live_neighbors(
                        old(self).grid(),
                        old(self).spec_width(),
                        old(self).spec_height(),
                        r,
                        c,
                    ),
                ),
    {
        let ghost g0 = self.grid();
        let ghost w = self.spec_width();
        let ghost h = self.spec_height();
        let mut next = bits_clone(&self.cells);
        let mut row: u32 = 0;
        while row < self.height
            invariant
                self == old(self),
                self.wf(),
                g0 == self.grid(),
                w == self.spec_width(),
                h == self.spec_height(),
                row as int <= h,
                bits_of(next).len() == w * h,
                forall|i: int|
                    0 <= i < row as int * w ==> bits_of(next)[i] == next_state(
                        g0[i],
                        live_neighbors(g0, w, h, i / w, i % w),
                    ),
            decreases h - row as int,
        {
            let mut col: u32 = 0;
            while col < self.width
                invariant
                    self == old(self),
                    self.wf(),
                    g0 == self.grid(),
                    w == self.spec_width(),
                    h == self.spec_height(),
                    (row as int) < h,
                    col as int <= w,
                    bits_of(next).len() == w * h,
                    forall|i: int|
                        0 <= i < row as int * w + col as int ==> bits_of(next)[i] == next_state(
                            g0[i],
                            live_neighbors(g0, w, h, i / w, i % w),
                        ),
                decreases w - col as int,
            {
                let idx = self.get_index(row, col);
                let cell = bits_get(&self.cells, idx);
                let live_count = self.live_neighbor_count(row, col);
                let cell_next = if cell {
                    live_count == 2 || live_count == 3
                } else {
                    live_count == 3
                };
                bits_set(&mut next, idx, cell_next);
                proof {
                    lemma_grid_index(w, h, row as int, col as int);
                }
                col += 1;
            }
            proof {
                assert(row as int * w + w == (row as int + 1) * w) by (nonlinear_arith);
            }
            row += 1;
        }
        self.cells = next;
        proof {
            assert(h * w == w * h) by (nonlinear_arith);
            assert(self.grid() =~= next_grid(g0, w, h));
            assert forall|r: int, c: int| 0 <= r < h && 0 <= c < w implies self.alive(r, c)
                == next_state(g0[r * w + c], live_neighbors(g0, w, h, r, c)) by {
                lemma_grid_index(w, h, r, c);
            }
        }
    }

    /// Whether the wrapped cell `(r mod height, c mod width)` is alive.
    fn wrapped_alive(&self, r: u32, c: u32) -> (b: bool)
        requires
            self.wf(),
        ensures
            b == self.grid()[wrap_index(self.spec_width(), self.spec_height(), r as int, c as int)],
    {
        let rr = r % self.height;
        let cc = c % self.width;
        proof {
            lemma_grid_index(
                self.spec_width(),
                self.spec_height(),
                rr as int,
                cc as int,
            );
        }
        let idx = rr * self.width + cc;
        bits_get(&self.cells, idx as usize)
    }

    /// Number of live cells among the 8 wrapped neighbors of `(row, col)`.
    fn live_neighbor_count(&self, row: u32, col: u32) -> (n: u8)
        requires
            self.wf(),
            (row as int) < self.spec_height(),
            (col as int) < self.spec_width(),
        ensures
            n as int == live_neighbors(
                self.grid(),
                self.spec_width(),
                self.spec_height(),
                row as int,
                col as int,
            ),
    {
        proof {
            assert(2 * self.spec_height() <= self.spec_width() * self.spec_height()
                && 2 * self.spec_width() <= self.spec_width() * self.spec_height())
                by (nonlinear_arith)
                requires
                    6 <= self.spec_width(),
                    6 <= self.spec_height(),
            ;
        }
        let up = row + (self.height - 1);
        let left = col + (self.width - 1);
        let down = row + 1;
        let right = col + 1;
        let mut n: u8 = 0;
        if self.wrapped_alive(up, left) {
            n += 1;
        }
        if self.wrapped_alive(up, col) {
            n += 1;
        }
        if self.wrapped_alive(up, right) {
            n += 1;
        }
        if self.wrapped_alive(row, left) {
            n += 1;
        }
        if self.wrapped_alive(row, right) {
            n += 1;
        }
        if self.wrapped_alive(down, left) {
            n += 1;
        }
        if self.wrapped_alive(down, col) {
            n += 1;
        }
        if self.wrapped_alive(down, right) {
            n += 1;
        }
        n
    }

    /// Marks exactly the given `(row, col)` pairs alive and every other
    /// cell dead: a replacement of the whole pattern, not a merge.
    pub fn set_cells(&mut self, points: &[(u32, u32)])
        requires
            old(self).wf(),
            forall|k: int|
                0 <= k < points@.len() ==> ((#[trigger] points@[k]).0 as int)
                    < old(self).spec_height() && (points@[k].1 as int) < old(self).spec_width(),
        ensures
            final(self).wf(),
            final(self).spec_width() == old(self).spec_width(),
            final(self).spec_height() == old(self).spec_height(),
            forall|i: int|
                0 <= i < final(self).grid().len() ==> (final(self).grid()[i] <==> exists|k: int|
                    0 <= k < points@.len() && i == ((#[trigger] points@[k]).0 as int)
                        * old(self).spec_width() + points@[k].1 as int),
    {
        let ghost w = self.spec_width();
        bits_clear(&mut self.cells);
        let mut k: usize = 0;
        while k < points.len()
            invariant
                self.wf(),
                self.spec_width() == old(self).spec_width(),
                self.spec_height() == old(self).spec_height(),
                w == self.spec_width(),
                k <= points@.len(),
                forall|j: int|
                    0 <= j < points@.len() ==> ((#[trigger] points@[j]).0 as int)
                        < self.spec_height() && (points@[j].1 as int) < self.spec_width(),
                forall|i: int|
                    0 <= i < self.grid().len() ==> (self.grid()[i] <==> exists|j: int|
                        0 <= j < k && i == (#[trigger] points@[j]).0 as int * w
                            + points@[j].1 as int),
            decreases points@.len() - k,
        {
            let (row, col) = points[k];
            let idx = self.get_index(row, col);
            bits_insert(&mut self.cells, idx);
            proof {
                assert forall|i: int| 0 <= i < self.grid().len() implies (self.grid()[i]
                    <==> exists|j: int|
                    0 <= j < k + 1 && i == (#[trigger] points@[j]).0 as int * w
                        + points@[j].1 as int) by {
                    if i == idx as int {
                        assert(0 <= k < k + 1 && i == (#[trigger] points@[k as int]).0 as int * w
                            + points@[k as int].1 as int);
                    }
                }
            }
            k += 1;
        }
    }

    /// Flips the single in-range cell `(row, col)`.
    pub fn toggle(&mut self, row: u32, col: u32)
        requires
            old(self).wf(),
            (row as int) < old(self).spec_height(),
            (col as int) < old(self).spec_width(),
        ensures
            final(self).wf(),
            final(self).spec_width() == old(self).spec_width(),
            final(self).spec_height() == old(self).spec_height(),
            final(self).grid() == old(self).grid().update(
                row as int * old(self).spec_width() + col as int,
                !old(self).alive(row as int, col as int),
            ),
    {
        let idx = self.get_index(row, col);
        bits_toggle(&mut self.cells, idx);
    }

    /// Reinitializes the grid in place: all dead, or a fresh independent
    /// 3/10 draw per cell. Dimensions are unchanged.
    pub fn reset(&mut self, rand_init: bool)
        requires
            old(self).wf(),
        ensures
            final(self).wf(),
            final(self).spec_width() == old(self).spec_width(),
            final(self).spec_height() == old(self).spec_height(),
            !rand_init ==> forall|i: int| 0 <= i < final(self).grid().len()
                ==> !final(self).grid()[i],
    {
        if rand_init {
            let size = (self.width as usize) * (self.height as usize);
            let mut i: usize = 0;
            while i < size
                invariant
                    i <= size,
                    self.wf(),
                    self.spec_width() == old(self).spec_width(),
                    self.spec_height() == old(self).spec_height(),
                    size == self.spec_width() * self.spec_height(),
                decreases size - i,
            {
                let v = random_ratio(RANDOM_ALIVE_NUMERATOR, RANDOM_ALIVE_DENOMINATOR);
                bits_set(&mut self.cells, i, v);
                i += 1;
            }
        } else {
            bits_clear(&mut self.cells);
        }
    }

    /// The grid width.
    pub fn width(&self) -> (w: u32)
        ensures
            w as int == self.spec_width(),
    {
        self.width
    }

    /// The grid height.
    pub fn height(&self) -> (h: u32)
        ensures
            h as int == self.spec_height(),
    {
        self.height
    }

    /// Destructive resize: the width changes and every cell of the freshly
    /// sized grid is dead, whatever the grid held before.
    pub fn set_width(&mut self, width: u32)
        requires
            old(self).wf(),
            6 <= width,
            width as int * old(self).spec_height() <= u32::MAX as int,
        ensures
            final(self).wf(),
            final(self).spec_width() == width as int,
            final(self).spec_height() == old(self).spec_height(),
            forall|i: int| 0 <= i < final(self).grid().len() ==> !final(self).grid()[i],
    {
        self.width = width;
        let size = (self.width as usize) * (self.height as usize);
        self.cells = bits_new(size);
    }

    /// Destructive resize: the height changes and every cell of the freshly
    /// sized grid is dead, whatever the grid held before.
    pub fn set_height(&mut self, height: u32)
        requires
            old(self).wf(),
            6 <= height,
            old(self).spec_width() * height as int <= u32::MAX as int,
        ensures
            final(self).wf(),
            final(self).spec_width() == old(self).spec_width(),
            final(self).spec_height() == height as int,
            forall|i: int| 0 <= i < final(self).grid().len() ==> !final(self).grid()[i],
    {
        self.height = height;
        let size = (self.width as usize) * (self.height as usize);
        self.cells = bits_new(size);
    }

    /// Read-only view of the packed cell bits.
    pub fn get_cells(&self) -> (r: &FixedBitSet)
        ensures
            bits_of(*r) == self.grid(),
    {
        &self.cells
    }

    /// The textual form: one symbol per cell, row-major, each row closed
    /// by a line break.
    pub fn render(&self) -> (s: String)
        requires
            self.wf(),
        ensures
            s@ == render_rows(self.grid(), self.spec_width(), self.spec_height()),
    {
        let ghost g = self.grid();
        let ghost w = self.spec_width();
        let ghost h = self.spec_height();
        let mut v: Vec<char> = Vec::new();
        let mut row: u32 = 0;
        proof {
            assert(v@ =~= render_rows(g, w, 0));
        }
        while row < self.height
            invariant
                self.wf(),
                g == self.grid(),
                w == self.spec_width(),
                h == self.spec_height(),
                row as int <= h,
                v@ == render_rows(g, w, row as int),
            decreases h - row as int,
        {
            let mut col: u32 = 0;
            proof {
                assert(v@ =~= render_rows(g, w, row as int) + Seq::new(
                    0,
                    |c: int| render_char(g[(row as int) * w + c]),
                ));
            }
            while col < self.width
                invariant
                    self.wf(),
                    g == self.grid(),
                    w == self.spec_width(),
                    h == self.spec_height(),
                    (row as int) < h,
                    col as int <= w,
                    v@ == render_rows(g, w, row as int) + Seq::new(
                        col as nat,
                        |c: int| render_char(g[(row as int) * w + c]),
                    ),
                decreases w - col as int,
            {
                let idx = self.get_index(row, col);
                let b = bits_get(&self.cells, idx);
                let symbol = if b {
                    '◼'
                } else {
                    '◻'
                };
                v.push(symbol);
                proof {
                    assert(v@ =~= render_rows(g, w, row as int) + Seq::new(
                        (col as int + 1) as nat,
                        |c: int| render_char(g[(row as int) * w + c]),
                    ));
                }
                col += 1;
            }
            v.push('\n');
            proof {
                assert(v@ =~= render_rows(g, w, row as int + 1));
            }
            row += 1;
        }
        chars_to_string(v)
    }

    /// The packed cell bitmap as 32-bit words, least significant bit
    /// first: bit `i % 32` of word `i / 32` is the cell at linear index
    /// `i`, and bits past the last cell are clear.
    pub fn cells(&self) -> (words: Vec<u32>)
        requires
            self.wf(),
        ensures
            words@.len() == (self.grid().len() + 31) / 32,
            forall|i: int|
                0 <= i < self.grid().len() ==> word_bit(words@[i / 32], i % 32) == self.grid()[i],
            forall|i: int|
                self.grid().len() <= i < words@.len() * 32 ==> !#[trigger] word_bit(
                    words@[i / 32],
                    i % 32,
                ),
    {
        let ghost g = self.grid();
        let size = (self.width as usize) * (self.height as usize);
        let n_words = size / 32 + if size % 32 == 0 {
            0
        } else {
            1
        };
        proof {
            lemma_div_round_up(size as int, n_words as int);
            lemma_fundamental_div_mod(size as int, 32);
            lemma_mod_division_less_than_divisor(size as int, 32);
        }
        let mut words: Vec<u32> = Vec::new();
        let mut wi: usize = 0;
        while wi < n_words
            invariant
                self.wf(),
                g == self.grid(),
                size == g.len(),
                n_words * 32 <= size + 31,
                size <= n_words * 32,
                words@.len() == wi,
                wi <= n_words,
                forall|i: int|
                    0 <= i < wi * 32 && i < size ==> word_bit(words@[i / 32], i % 32) == g[i],
                forall|i: int|
                    size <= i < wi * 32 ==> !#[trigger] word_bit(words@[i / 32], i % 32),
            decreases n_words - wi,
        {
            proof {
                assert(wi as int * 32 <= (n_words as int - 1) * 32 < size as int);
            }
            let base = wi * 32;
            let remaining = size - base;
            let mut word: u32 = 0;
            let mut k: usize = 0;
            proof {
                assert forall|j: int| 0 <= j < 32 implies !word_bit(0u32, j) by {
                    lemma_zero_word(j as u32);
                }
            }
            while k < 32
                invariant
                    self.wf(),
                    g == self.grid(),
                    size == g.len(),
                    base == wi * 32,
                    base < size,
                    remaining == size - base,
                    k <= 32,
                    forall|j: int|
                        0 <= j < k && base + j < size ==> word_bit(word, j) == g[base + j],
                    forall|j: int| 0 <= j < k && size <= base + j ==> !word_bit(word, j),
                    forall|j: int| k <= j < 32 ==> !word_bit(word, j),
                decreases 32 - k,
            {
                if k < remaining {
                    let i = base + k;
                    let b = bits_get(&self.cells, i);
                    if b {
                        let ghost word0 = word;
                        word = word | (1u32 << (k as u32));
                        proof {
                            assert forall|j: int| 0 <= j < 32 implies (if j == k as int {
                                word_bit(word, j)
                            } else {
                                word_bit(word, j) == word_bit(word0, j)
                            }) by {
                                lemma_word_or_bit(word0, k as u32, j as u32);
                            }
                        }
                    }
                }
                k += 1;
            }
            words.push(word);
            proof {
                assert forall|i: int| 0 <= i < (wi + 1) * 32 && i < size implies word_bit(
                    words@[i / 32],
                    i % 32,
                ) == g[i] by {
                    lemma_fundamental_div_mod(i, 32);
                    lemma_mod_division_less_than_divisor(i, 32);
                    if i >= wi * 32 {
                        lemma_fundamental_div_mod_converse(i, 32, wi as int, i - wi * 32);
                        assert(words@[i / 32] == word);
                        assert(word_bit(word, i - wi * 32) == g[i]);
                    }
                }
                assert forall|i: int| size <= i < (wi + 1) * 32 implies !#[trigger] word_bit(
                    words@[i / 32],
                    i % 32,
                ) by {
                    lemma_fundamental_div_mod(i, 32);
                    lemma_mod_division_less_than_divisor(i, 32);
                    if i >= wi * 32 {
                        lemma_fundamental_div_mod_converse(i, 32, wi as int, i - wi * 32);
                        assert(!word_bit(word, i - wi * 32));
                    }
                }
            }
            wi += 1;
        }
        words
    }
}

} // verus!
