//! The mathematical model of the grid view.
//!
//! A buffer's flat store is a sequence of packed words; the grid view reads
//! and writes it through the row-major index map `(px, py) -> py * wg + px`
//! for a grid of width `wg`. This module defines that map, the effect each
//! mutation has on the store, and proves the facts that make the two views
//! one: the index map hits every store slot exactly once, a rectangle fill
//! equals the single-pixel writes it stands for, and a full fill equals a
//! rectangle fill of the whole grid.

use vstd::prelude::*;

use vstd::arithmetic::div_mod::lemma_fundamental_div_mod;
use vstd::arithmetic::div_mod::lemma_fundamental_div_mod_converse;
use vstd::arithmetic::div_mod::lemma_mod_division_less_than_divisor;
use vstd::arithmetic::div_mod::lemma_multiply_divide_lt;

use crate::color::packed_of;
use crate::color::Color;

verus! {

/// The linear index at which a row-major grid of width `wg` stores the pixel
/// at grid position `(px, py)`.
pub open spec fn grid_index(wg: int, px: int, py: int) -> int {
    py * wg + px
}

/// The linear index of a listed position.
pub open spec fn pos_index(wg: int, p: (int, int)) -> int {
    grid_index(wg, p.0, p.1)
}

/// A list of grid positions, as mathematical integer pairs.
pub open spec fn positions_view(positions: Seq<(usize, usize)>) -> Seq<(int, int)> {
    positions.map_values(|p: (usize, usize)| (p.0 as int, p.1 as int))
}

/// True when some listed position has linear index `k`.
pub open spec fn hits(positions: Seq<(int, int)>, wg: int, k: int) -> bool {
    exists|i: int| 0 <= i < positions.len() && #[trigger] pos_index(wg, positions[i]) == k
}

/// True when linear index `k` belongs to a pixel of the rectangle with
/// top-left corner `(x, y)`, width `w` and height `h`.
pub open spec fn rect_hits(wg: int, x: int, y: int, w: int, h: int, k: int) -> bool {
    exists|px: int, py: int|
        {
            &&& x <= px < x + w
            &&& y <= py < y + h
            &&& #[trigger] grid_index(wg, px, py) == k
        }
}

/// Every listed position lies inside a `wg x hg` grid.
pub open spec fn all_in_grid(positions: Seq<(int, int)>, wg: int, hg: int) -> bool {
    forall|i: int|
        0 <= i < positions.len() ==> {
            let p = #[trigger] positions[i];
            0 <= p.0 < wg && 0 <= p.1 < hg
        }
}

/// The flat store after one pixel write: the word at the position's linear
/// index is replaced by the colour's packed word.
pub open spec fn pixel_written(s: Seq<u32>, wg: int, px: int, py: int, c: Color) -> Seq<u32> {
    s.update(grid_index(wg, px, py), packed_of(c))
}

/// The flat store after single-pixel writes of colour `c` at each listed
/// position, in list order.
pub open spec fn pixels_written(s: Seq<u32>, wg: int, positions: Seq<(int, int)>, c: Color) -> Seq<
    u32,
>
    decreases positions.len(),
{
    if positions.len() == 0 {
        s
    } else {
        pixels_written(
            pixel_written(s, wg, positions[0].0, positions[0].1, c),
            wg,
            positions.drop_first(),
            c,
        )
    }
}

/// The flat store after a rectangle fill: the words of the rectangle's
/// pixels hold the colour's packed word, every other word is unchanged.
pub open spec fn rect_filled(
    s: Seq<u32>,
    wg: int,
    x: int,
    y: int,
    w: int,
    h: int,
    c: Color,
) -> Seq<u32> {
    Seq::new(s.len(), |k: int| if rect_hits(wg, x, y, w, h, k) { packed_of(c) } else { s[k] })
}

/// The flat store after a full fill: every word holds the colour's packed
/// word.
pub open spec fn filled(s: Seq<u32>, c: Color) -> Seq<u32> {
    Seq::new(s.len(), |k: int| packed_of(c))
}

/// Every position of the rectangle with top-left corner `(x, y)`, width `w`
/// and height `h`, listed row-major: entry `i` is `(x + i % w, y + i / w)`.
pub open spec fn rect_positions(x: int, y: int, w: int, h: int) -> Seq<(int, int)> {
    Seq::new((w * h) as nat, |i: int| (x + i % w, y + i / w))
}

/// Listing one more position writes one more word: the store after writes at
/// `positions.push(p)` is the store after writes at `positions`, with `p`'s
/// word written on top.
pub(crate) proof fn lemma_pixels_written_push(
    s: Seq<u32>,
    wg: int,
    positions: Seq<(int, int)>,
    p: (int, int),
    c: Color,
)
    ensures
        pixels_written(s, wg, positions.push(p), c) == pixels_written(s, wg, positions, c).update(
            pos_index(wg, p),
            packed_of(c),
        ),
    decreases positions.len(),
{
    if positions.len() == 0 {
        reveal_with_fuel(pixels_written, 2);
        assert(positions.push(p)[0] == p);
        assert(positions.push(p).drop_first() =~= Seq::<(int, int)>::empty());
    } else {
        assert(positions.push(p)[0] == positions[0]);
        assert(positions.push(p).drop_first() =~= positions.drop_first().push(p));
        lemma_pixels_written_push(
            pixel_written(s, wg, positions[0].0, positions[0].1, c),
            wg,
            positions.drop_first(),
            p,
            c,
        );
    }
}

/// Growing a rectangle by one row extends the linear indices it covers by
/// exactly that row's segment of the store.
pub(crate) proof fn lemma_rect_hits_extend(wg: int, x: int, y: int, w: int, row: int, k: int)
    requires
        0 <= row,
    ensures
        rect_hits(wg, x, y, w, row + 1, k) <==> (rect_hits(wg, x, y, w, row, k) || (grid_index(
            wg,
            x,
            y + row,
        ) <= k < grid_index(wg, x, y + row) + w)),
{
    if rect_hits(wg, x, y, w, row + 1, k) {
        let (px, py) = choose|px: int, py: int|
            x <= px < x + w && y <= py < y + row + 1 && #[trigger] grid_index(wg, px, py) == k;
        if py == y + row {
            assert(grid_index(wg, x, y + row) <= k < grid_index(wg, x, y + row) + w);
        } else {
            assert(rect_hits(wg, x, y, w, row, k));
        }
    }
    if rect_hits(wg, x, y, w, row, k) {
        let (px, py) = choose|px: int, py: int|
            x <= px < x + w && y <= py < y + row && #[trigger] grid_index(wg, px, py) == k;
        assert(grid_index(wg, px, py) == k);
        assert(rect_hits(wg, x, y, w, row + 1, k));
    }
    if grid_index(wg, x, y + row) <= k < grid_index(wg, x, y + row) + w {
        let px = x + (k - grid_index(wg, x, y + row));
        assert(grid_index(wg, px, y + row) == k);
        assert(rect_hits(wg, x, y, w, row + 1, k));
    }
}

/// A row segment of an in-grid rectangle lies inside the store: the `w`
/// words from position `(x, y)` onward index past no slot.
pub(crate) proof fn lemma_row_in_range(wg: int, hg: int, x: int, y: int, w: int)
    by (nonlinear_arith)
    requires
        0 <= y < hg,
        0 <= x,
        0 <= w,
        x + w <= wg,
    ensures
        0 <= y * wg,
        y * wg + x + w <= wg * hg,
{
}

/// A grid position indexes inside the store of its grid.
pub proof fn lemma_grid_index_in_range(wg: int, hg: int, px: int, py: int)
    by (nonlinear_arith)
    requires
        0 <= px < wg,
        0 <= py < hg,
    ensures
        0 <= py * wg + px < wg * hg,
{
}

/// The grid view aliases no two pixels onto one stored word: distinct
/// positions of a grid have distinct linear indices.
pub proof fn lemma_grid_index_injective(wg: int, px1: int, py1: int, px2: int, py2: int)
    requires
        0 <= px1 < wg,
        0 <= px2 < wg,
        0 <= py1,
        0 <= py2,
        grid_index(wg, px1, py1) == grid_index(wg, px2, py2),
    ensures
        px1 == px2,
        py1 == py2,
{
    let k = grid_index(wg, px1, py1);
    lemma_fundamental_div_mod_converse(k, wg, py1, px1);
    lemma_fundamental_div_mod_converse(k, wg, py2, px2);
}

/// Every slot of a `wg x hg` store belongs to exactly one grid position:
/// linear index `k` decomposes as column `k % wg`, row `k / wg`.
pub proof fn lemma_grid_index_decomposition(wg: int, hg: int, k: int)
    requires
        0 <= wg,
        0 <= k < wg * hg,
    ensures
        0 <= k % wg < wg,
        0 <= k / wg < hg,
        grid_index(wg, k % wg, k / wg) == k,
{
    if wg == 0 {
        assert(wg * hg == 0) by (nonlinear_arith)
            requires
                wg == 0,
        ;
    }
    lemma_mod_division_less_than_divisor(k, wg);
    lemma_multiply_divide_lt(k, wg, hg);
    lemma_fundamental_div_mod(k, wg);
    assert(k / wg >= 0) by (nonlinear_arith)
        requires
            k >= 0,
            wg > 0,
    ;
    assert((k / wg) * wg == wg * (k / wg)) by (nonlinear_arith);
}

/// What iterated single-pixel writes leave behind: a word whose linear index
/// some listed position hits holds the colour's packed word, and every other
/// word keeps its value. In particular the outcome does not depend on the
/// order of the list.
pub proof fn lemma_pixels_written_pointwise(
    s: Seq<u32>,
    wg: int,
    hg: int,
    positions: Seq<(int, int)>,
    c: Color,
)
    requires
        s.len() == wg * hg,
        all_in_grid(positions, wg, hg),
    ensures
        pixels_written(s, wg, positions, c).len() == s.len(),
        forall|k: int|
            0 <= k < s.len() ==> pixels_written(s, wg, positions, c)[k] == (if hits(
                positions,
                wg,
                k,
            ) {
                packed_of(c)
            } else {
                s[k]
            }),
    decreases positions.len(),
{
    if positions.len() > 0 {
        let p0 = positions[0];
        let idx0 = grid_index(wg, p0.0, p0.1);
        lemma_grid_index_in_range(wg, hg, p0.0, p0.1);
        let s1 = pixel_written(s, wg, p0.0, p0.1, c);
        let rest = positions.drop_first();
        assert forall|i: int| 0 <= i < rest.len() implies {
            let p = #[trigger] rest[i];
            0 <= p.0 < wg && 0 <= p.1 < hg
        } by {
            assert(rest[i] == positions[i + 1]);
        };
        lemma_pixels_written_pointwise(s1, wg, hg, rest, c);
        assert forall|k: int| 0 <= k < s.len() implies pixels_written(s, wg, positions, c)[k] == (
        if hits(positions, wg, k) {
            packed_of(c)
        } else {
            s[k]
        }) by {
            if hits(rest, wg, k) {
                let i = choose|i: int|
                    0 <= i < rest.len() && #[trigger] pos_index(wg, rest[i]) == k;
                assert(rest[i] == positions[i + 1]);
                assert(pos_index(wg, positions[i + 1]) == k);
                assert(hits(positions, wg, k));
            } else if k == idx0 {
                assert(pos_index(wg, positions[0]) == k);
                assert(hits(positions, wg, k));
            } else {
                if hits(positions, wg, k) {
                    let i = choose|i: int|
                        0 <= i < positions.len() && #[trigger] pos_index(wg, positions[i]) == k;
                    assert(i != 0);
                    assert(positions[i] == rest[i - 1]);
                    assert(pos_index(wg, rest[i - 1]) == k);
                    assert(hits(rest, wg, k));
                }
                assert(!hits(positions, wg, k));
            }
        };
    }
}

/// Rectangle equivalence: filling a rectangle that lies inside the grid
/// leaves exactly the store that single-pixel writes at every one of the
/// rectangle's positions leave.
pub proof fn lemma_fill_rectangle_equivalence(
    s: Seq<u32>,
    wg: int,
    hg: int,
    x: int,
    y: int,
    w: int,
    h: int,
    c: Color,
)
    requires
        s.len() == wg * hg,
        0 <= x,
        0 <= y,
        0 <= w,
        0 <= h,
        x + w <= wg,
        y + h <= hg,
    ensures
        rect_filled(s, wg, x, y, w, h, c) == pixels_written(s, wg, rect_positions(x, y, w, h), c),
{
    let ps = rect_positions(x, y, w, h);
    assert(w * h >= 0) by (nonlinear_arith)
        requires
            0 <= w,
            0 <= h,
    ;
    assert forall|i: int| 0 <= i < ps.len() implies {
        let p = #[trigger] ps[i];
        0 <= p.0 < wg && 0 <= p.1 < hg
    } by {
        lemma_grid_index_decomposition(w, h, i);
    };
    lemma_pixels_written_pointwise(s, wg, hg, ps, c);
    assert forall|k: int| 0 <= k < s.len() implies rect_filled(s, wg, x, y, w, h, c)[k]
        == pixels_written(s, wg, ps, c)[k] by {
        if rect_hits(wg, x, y, w, h, k) {
            let (px, py) = choose|px: int, py: int|
                x <= px < x + w && y <= py < y + h && #[trigger] grid_index(wg, px, py) == k;
            let i = grid_index(w, px - x, py - y);
            lemma_grid_index_in_range(w, h, px - x, py - y);
            lemma_fundamental_div_mod_converse(i, w, py - y, px - x);
            assert(ps[i] == (px, py));
            assert(pos_index(wg, ps[i]) == k);
            assert(hits(ps, wg, k));
        }
        if hits(ps, wg, k) {
            let i = choose|i: int| 0 <= i < ps.len() && #[trigger] pos_index(wg, ps[i]) == k;
            lemma_grid_index_decomposition(w, h, i);
            assert(grid_index(wg, x + i % w, y + i / w) == k);
            assert(rect_hits(wg, x, y, w, h, k));
        }
    };
    assert(rect_filled(s, wg, x, y, w, h, c) =~= pixels_written(s, wg, ps, c));
}

/// Full-fill equivalence: writing a colour into every word of the store is
/// the rectangle fill of the grid's whole extent.
pub proof fn lemma_fill_equivalence(s: Seq<u32>, wg: int, hg: int, c: Color)
    requires
        s.len() == wg * hg,
        0 <= wg,
        0 <= hg,
    ensures
        filled(s, c) == rect_filled(s, wg, 0, 0, wg, hg, c),
{
    assert forall|k: int| 0 <= k < s.len() implies rect_hits(wg, 0, 0, wg, hg, k) by {
        lemma_grid_index_decomposition(wg, hg, k);
        assert(grid_index(wg, k % wg, k / wg) == k);
        assert(rect_hits(wg, 0, 0, wg, hg, k));
    };
    assert(filled(s, c) =~= rect_filled(s, wg, 0, 0, wg, hg, c));
}

} // verus!
