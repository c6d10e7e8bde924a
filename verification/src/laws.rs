//! Laws of the toroidal neighbor count, stated over the same spec
//! functions the grid's contracts use.

use vstd::prelude::*;
use vstd::arithmetic::div_mod::lemma_fundamental_div_mod;
use vstd::arithmetic::div_mod::lemma_fundamental_div_mod_converse;
use vstd::arithmetic::div_mod::lemma_mod_division_less_than_divisor;
use vstd::arithmetic::div_mod::lemma_small_mod;
use crate::universe::live_neighbors;
use crate::universe::next_grid;
use crate::universe::lemma_grid_index;

verus! {

/// The wrapped row or column offsets a corner cell's neighbor count takes
/// modulo an extent `m` of at least 6.
proof fn lemma_wraps(m: int)
    requires
        6 <= m,
    ensures
        0int % m == 0,
        1int % m == 1,
        (m - 1) % m == m - 1,
        m % m == 0,
        (2 * m - 2) % m == m - 2,
{
    lemma_small_mod(0, m as nat);
    lemma_small_mod(1, m as nat);
    lemma_small_mod((m - 1) as nat, m as nat);
    lemma_fundamental_div_mod_converse(m, m, 1, 0);
    lemma_fundamental_div_mod_converse(2 * m - 2, m, 1, m - 2);
}

/// In a grid with a single live cell at `(cr, cc)`, an in-range cell reads
/// as alive exactly at that position.
proof fn lemma_single_cell(g: Seq<bool>, w: int, h: int, cr: int, cc: int)
    requires
        0 < w,
        0 < h,
        g.len() == w * h,
        0 <= cr < h,
        0 <= cc < w,
        g[cr * w + cc],
        forall|i: int| 0 <= i < w * h && i != cr * w + cc ==> !g[i],
    ensures
        forall|r: int, c: int|
            0 <= r < h && 0 <= c < w ==> (#[trigger] g[r * w + c] == (r == cr && c == cc)),
{
    assert forall|r: int, c: int| 0 <= r < h && 0 <= c < w implies (#[trigger] g[r * w + c] == (r
        == cr && c == cc)) by {
        lemma_grid_index(w, h, r, c);
        lemma_grid_index(w, h, cr, cc);
        if r * w + c == cr * w + cc {
            assert(r == cr && c == cc);
        }
    }
}

/// Law: corner wraparound, outward. With exactly one live cell, at the
/// origin `(0, 0)`, that cell is counted as a neighbor of the three far
/// corners `(h-1, 0)`, `(0, w-1)` and `(h-1, w-1)`: each of them sees
/// exactly one live neighbor.
pub proof fn lemma_corner_wraparound(g: Seq<bool>, w: int, h: int)
    requires
        6 <= w,
        6 <= h,
        g.len() == w * h,
        g[0],
        forall|i: int| 1 <= i < w * h ==> !g[i],
    ensures
        live_neighbors(g, w, h, h - 1, 0) == 1,
        live_neighbors(g, w, h, 0, w - 1) == 1,
        live_neighbors(g, w, h, h - 1, w - 1) == 1,
{
    lemma_wraps(w);
    lemma_wraps(h);
    lemma_single_cell(g, w, h, 0, 0);
}

/// Law: corner wraparound, inward. With exactly one live cell, at a far
/// corner (`(h-1, 0)`, `(0, w-1)` or `(h-1, w-1)`), the origin `(0, 0)`
/// sees exactly one live neighbor.
pub proof fn lemma_corner_wraparound_back(g: Seq<bool>, w: int, h: int, cr: int, cc: int)
    requires
        6 <= w,
        6 <= h,
        g.len() == w * h,
        cr == h - 1 || cr == 0,
        cc == w - 1 || cc == 0,
        !(cr == 0 && cc == 0),
        g[cr * w + cc],
        forall|i: int| 0 <= i < w * h && i != cr * w + cc ==> !g[i],
    ensures
        live_neighbors(g, w, h, 0, 0) == 1,
{
    lemma_wraps(w);
    lemma_wraps(h);
    lemma_single_cell(g, w, h, cr, cc);
}

/// The wrapped positions next to an in-range row or column `x`: one step
/// back and one step forward, each modulo the extent `m`.
proof fn lemma_wrap_neighbors(m: int, x: int)
    requires
        0 < m,
        0 <= x < m,
    ensures
        (x + m - 1) % m == if x == 0 {
            m - 1
        } else {
            x - 1
        },
        (x + 1) % m == if x == m - 1 {
            0int
        } else {
            x + 1
        },
        x % m == x,
{
    lemma_small_mod(x as nat, m as nat);
    if x == 0 {
        lemma_small_mod((m - 1) as nat, m as nat);
    } else {
        lemma_fundamental_div_mod_converse(x + m - 1, m, 1, x - 1);
    }
    if x == m - 1 {
        lemma_fundamental_div_mod_converse(m, m, 1, 0);
    } else {
        lemma_small_mod((x + 1) as nat, m as nat);
    }
}

/// Law: a still life under snapshot semantics. A grid whose live cells are
/// exactly a 2-by-2 block away from the edges is a fixed point of the
/// generation function: each block cell keeps 3 live neighbors, and no
/// dead cell ever sees more than 2.
pub proof fn lemma_block_still_life(g: Seq<bool>, w: int, h: int, br: int, bc: int)
    requires
        6 <= w,
        6 <= h,
        g.len() == w * h,
        1 <= br,
        br + 1 <= h - 2,
        1 <= bc,
        bc + 1 <= w - 2,
        forall|r: int, c: int|
            0 <= r < h && 0 <= c < w ==> (#[trigger] g[r * w + c] == (br <= r <= br + 1 && bc <= c
                <= bc + 1)),
    ensures
        next_grid(g, w, h) == g,
{
    assert forall|i: int| 0 <= i < w * h implies next_grid(g, w, h)[i] == g[i] by {
        lemma_fundamental_div_mod(i, w);
        lemma_mod_division_less_than_divisor(i, w);
        let r = i / w;
        let c = i % w;
        assert(0 <= r < h && i == r * w + c) by (nonlinear_arith)
            requires
                0 <= i < w * h,
                0 < w,
                0 < h,
                i == w * r + c,
                0 <= c < w,
        ;
        lemma_wrap_neighbors(h, r);
        lemma_wrap_neighbors(w, c);
        if br <= r <= br + 1 && bc <= c <= bc + 1 {
            assert(live_neighbors(g, w, h, r, c) == 3);
        } else {
            assert(live_neighbors(g, w, h, r, c) <= 2);
        }
        assert(next_grid(g, w, h)[i] == g[i]);
    }
    assert(next_grid(g, w, h) =~= g);
}

} // verus!
