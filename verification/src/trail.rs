//! The trail (pheromone field): a square grid of fixed-point intensities with
//! toroidal (wrap-around) addressing.

use crate::fixed::{div_trunc, to_units, SCALE};
use crate::vec2::Vec2;
use vstd::arithmetic::div_mod::{
    lemma_div_is_ordered, lemma_div_pos_is_pos, lemma_fundamental_div_mod,
    lemma_fundamental_div_mod_converse, lemma_mod_bound, lemma_mod_multiples_vanish,
    lemma_small_mod,
};
use vstd::arithmetic::mul::lemma_mul_inequality;
use vstd::prelude::*;

verus! {

/// Largest allowed grid side: keeps `size * size` cells within `usize` and
/// the span within the crate's coordinate range.
pub const MAX_GRID: usize = 32768;

/// A coordinate at most one grid width outside `[0, span)`: the only inputs
/// the single wrapping pass is specified for. Callers keep each per-tick
/// displacement below one grid width.
pub open spec fn wrap_pre(p: int, span: int) -> bool {
    -span < p < 2 * span
}

/// One wrapping pass: `(p + span) % span`.
pub open spec fn wrap1(p: int, span: int) -> int {
    (p + span) % span
}

/// The cell an in-range coordinate falls in: truncate to whole units (toward
/// zero, the way a float-to-integer conversion rounds), then wrap one pass
/// into `[0, size)`.
pub open spec fn cell_of(p: int, size: int) -> int {
    (to_units(p) + size) % size
}

/// A square grid of fixed-point intensities, `size` cells to a side, stored
/// flat with cell `(x, y)` at index `x + y * size`.
#[derive(Debug)]
pub struct Trail {
    pub size: usize,
    pub cells: Vec<i64>,
}

impl Trail {
    /// Shape invariant: a positive, bounded side and one cell per grid point.
    pub open spec fn wf(self) -> bool {
        &&& 1 <= self.size <= MAX_GRID
        &&& self.cells@.len() == self.size * self.size
    }

    /// Side length in fixed-point units.
    pub open spec fn span(self) -> int {
        self.size * SCALE
    }

    /// The stored intensity at integer cell `(x, y)`.
    pub open spec fn at(self, x: int, y: int) -> int {
        self.cells@[x + y * self.size] as int
    }

    /// The intensity an arbitrary in-range coordinate pair reads: the one
    /// stored at its wrapped cell.
    pub open spec fn value_at(self, px: int, py: int) -> int {
        self.at(cell_of(px, self.size as int), cell_of(py, self.size as int))
    }

    /// A fresh all-zero grid.
    pub fn new(size: usize) -> (t: Trail)
        requires
            1 <= size <= MAX_GRID,
        ensures
            t.wf(),
            t.size == size,
            forall|x: int, y: int|
                0 <= x < size && 0 <= y < size ==> t.at(x, y) == 0,
    {
        proof {
            lemma_mul_inequality(size as int, MAX_GRID as int, size as int);
            lemma_mul_inequality(size as int, MAX_GRID as int, MAX_GRID as int);
        }
        let n2 = size * size;
        let mut cells: Vec<i64> = Vec::new();
        let mut i: usize = 0;
        while i < n2
            invariant
                i <= n2,
                cells@.len() == i,
                forall|k: int| 0 <= k < i ==> cells@[k] == 0,
            decreases n2 - i,
        {
            cells.push(0);
            i = i + 1;
        }
        let t = Trail { size, cells };
        proof {
            assert forall|x: int, y: int|
                0 <= x < size && 0 <= y < size implies t.at(x, y) == 0 by {
                lemma_flat_index_bound(x, y, size as int);
            }
        }
        t
    }

    /// A grid pre-seeded from a caller-supplied flat cell array, laid out
    /// with cell `(x, y)` at index `x + y * size`; `None` exactly when the
    /// side is out of range or the array does not hold one value per cell.
    pub fn from_cells(size: usize, cells: Vec<i64>) -> (t: Option<Trail>)
        ensures
            t is Some <==> 1 <= size <= MAX_GRID && cells@.len() == size * size,
            t matches Some(t0) ==> t0.wf() && t0.size == size && t0.cells@ == cells@,
    {
        if size < 1 || size > MAX_GRID {
            return None;
        }
        proof {
            lemma_grid_area_small(size as int);
        }
        if cells.len() != size * size {
            return None;
        }
        Some(Trail { size, cells })
    }

    /// Direct write to cell `(x, y)`; out-of-range coordinates are a contract
    /// violation, so callers pre-wrap.
    pub fn set(self, x: usize, y: usize, val: i64) -> (t: Trail)
        requires
            self.wf(),
            x < self.size,
            y < self.size,
        ensures
            t.wf(),
            t.size == self.size,
            t.at(x as int, y as int) == val,
            forall|i: int, j: int|
                0 <= i < t.size && 0 <= j < t.size && !(i == x && j == y)
                    ==> t.at(i, j) == self.at(i, j),
    {
        proof {
            lemma_flat_index_bound(x as int, y as int, self.size as int);
            lemma_grid_area_small(self.size as int);
        }
        let idx = x + y * self.size;
        let mut cells = self.cells;
        cells[idx] = val;
        let t = Trail { size: self.size, cells };
        proof {
            assert forall|i: int, j: int|
                0 <= i < t.size && 0 <= j < t.size && !(i == x && j == y)
                    implies t.at(i, j) == self.at(i, j) by {
                lemma_flat_index_bound(i, j, self.size as int);
                if i + j * self.size == x + y * self.size {
                    lemma_flat_index_injective(i, j, x as int, y as int, self.size as int);
                }
            }
        }
        t
    }

    /// Wrap a free-ranging position into `[0, span)` on each axis with a
    /// single modulo pass.
    pub fn get_pos_wrapped(&self, pos: Vec2) -> (r: Vec2)
        requires
            self.wf(),
            wrap_pre(pos.x as int, self.span()),
            wrap_pre(pos.y as int, self.span()),
        ensures
            r.x == wrap1(pos.x as int, self.span()),
            r.y == wrap1(pos.y as int, self.span()),
            0 <= r.x < self.span(),
            0 <= r.y < self.span(),
    {
        let span = (self.size as i64) * SCALE;
        Vec2 { x: wrap_fixed(pos.x, span), y: wrap_fixed(pos.y, span) }
    }

    /// Read the intensity under an arbitrary in-range position: truncate to a
    /// cell on each axis, wrap into `[0, size)`, and return the stored value.
    pub fn get_val_wrapped(&self, pos: Vec2) -> (v: i64)
        requires
            self.wf(),
            wrap_pre(pos.x as int, self.span()),
            wrap_pre(pos.y as int, self.span()),
        ensures
            v == self.value_at(pos.x as int, pos.y as int),
    {
        let cx = cell_index(pos.x, self.size);
        let cy = cell_index(pos.y, self.size);
        proof {
            lemma_flat_index_bound(cx as int, cy as int, self.size as int);
            lemma_grid_area_small(self.size as int);
        }
        self.cells[cx + cy * self.size]
    }
}

impl PartialEq for Trail {
    fn eq(&self, other: &Trail) -> (r: bool) {
        if self.size != other.size {
            return false;
        }
        if self.cells.len() != other.cells.len() {
            return false;
        }
        let n = self.cells.len();
        let mut i: usize = 0;
        while i < n
            invariant
                i <= n,
                n == self.cells@.len(),
                n == other.cells@.len(),
                forall|k: int| 0 <= k < i ==> self.cells@[k] == other.cells@[k],
            decreases n - i,
        {
            if self.cells[i] != other.cells[i] {
                return false;
            }
            i = i + 1;
        }
        proof {
            assert(self.cells@ =~= other.cells@);
        }
        true
    }
}

impl vstd::std_specs::cmp::PartialEqSpecImpl for Trail {
    open spec fn obeys_eq_spec() -> bool {
        true
    }

    open spec fn eq_spec(&self, other: &Trail) -> bool {
        self.size == other.size && self.cells@ == other.cells@
    }
}

/// Cell `(x, y)` of a `size`-wide grid lies inside the flat cell array.
pub proof fn lemma_flat_index_bound(x: int, y: int, size: int)
    requires
        0 <= x < size,
        0 <= y < size,
    ensures
        0 <= y * size,
        0 <= x + y * size < size * size,
{
    assert(0 <= y * size && x + y * size < size * size) by (nonlinear_arith)
        requires
            0 <= x < size,
            0 <= y < size,
    ;
}

/// A bounded grid side keeps the cell count small enough for `usize`.
pub proof fn lemma_grid_area_small(size: int)
    requires
        0 <= size <= MAX_GRID,
    ensures
        size * size <= 1073741824,
{
    assert(size * size <= 1073741824) by (nonlinear_arith)
        requires
            0 <= size <= 32768,
    ;
}

/// Distinct cells of a `size`-wide grid have distinct flat indices.
pub proof fn lemma_flat_index_injective(x1: int, y1: int, x2: int, y2: int, size: int)
    requires
        0 <= x1 < size,
        0 <= x2 < size,
        x1 + y1 * size == x2 + y2 * size,
    ensures
        x1 == x2,
        y1 == y2,
{
    assert(x1 == x2 && y1 == y2) by (nonlinear_arith)
        requires
            0 <= x1 < size,
            0 <= x2 < size,
            x1 + y1 * size == x2 + y2 * size,
    ;
}

/// One wrapping pass on a fixed-point coordinate.
fn wrap_fixed(p: i64, span: i64) -> (r: i64)
    requires
        1 <= span,
        span <= 3074457345618258602,
        wrap_pre(p as int, span as int),
    ensures
        r == wrap1(p as int, span as int),
        0 <= r < span,
{
    let s = p + span;
    proof {
        lemma_mod_bound(s as int, span as int);
    }
    ((s as u64) % (span as u64)) as i64
}

/// The wrapped cell index of an in-range fixed-point coordinate.
fn cell_index(p: i64, size: usize) -> (c: usize)
    requires
        1 <= size <= MAX_GRID,
        wrap_pre(p as int, size * SCALE),
    ensures
        c == cell_of(p as int, size as int),
        c < size,
{
    let t = div_trunc(p, SCALE);
    proof {
        lemma_cell_units_range(p as int, size as int);
        lemma_mod_bound(t + size, size as int);
    }
    let w = t + size as i64;
    ((w as u64) % (size as u64)) as usize
}

/// For a coordinate within one grid width of `[0, span)`, the truncated unit
/// count lies within one grid width of `[0, size)`.
proof fn lemma_cell_units_range(p: int, size: int)
    requires
        1 <= size,
        wrap_pre(p, size * SCALE),
    ensures
        -size < to_units(p) < 2 * size,
{
    let s = SCALE as int;
    if p >= 0 {
        lemma_div_pos_is_pos(p, s);
        lemma_div_is_ordered(p, 2 * size * s - 1, s);
        lemma_fundamental_div_mod_converse(2 * size * s - 1, s, 2 * size - 1, s - 1);
    } else {
        lemma_div_pos_is_pos(-p, s);
        lemma_div_is_ordered(-p, size * s - 1, s);
        lemma_fundamental_div_mod_converse(size * s - 1, s, size - 1, s - 1);
    }
}

/// Law (wrap invariant): coordinate wrapping is idempotent — the wrapped
/// coordinate lies in `[0, span)`, and wrapping it again returns it
/// unchanged.
pub proof fn lemma_wrap_idempotent(p: int, span: int)
    requires
        1 <= span,
        wrap_pre(p, span),
    ensures
        0 <= wrap1(p, span) < span,
        wrap_pre(wrap1(p, span), span),
        wrap1(wrap1(p, span), span) == wrap1(p, span),
{
    lemma_mod_bound(p + span, span);
    let w = wrap1(p, span);
    lemma_mod_multiples_vanish(1, w, span);
    lemma_small_mod(w as nat, span as nat);
}

/// Law (wrap invariant, cell reads): once a cell index lies in `[0, size)`,
/// the wrapping pass a read applies returns it unchanged.
pub proof fn lemma_cell_wrap_idempotent(c: int, size: int)
    requires
        1 <= size,
        0 <= c < size,
    ensures
        (c + size) % size == c,
{
    lemma_mod_multiples_vanish(1, c, size);
    lemma_small_mod(c as nat, size as nat);
}

/// Law (wrap invariant, reads): for a coordinate at or beyond the origin,
/// wrapping it first leaves the cell a read addresses unchanged. (Below the
/// origin truncation toward zero can shift the cell by one, so the law holds
/// of the nonnegative side only.)
pub proof fn lemma_read_after_wrap(p: int, size: int)
    requires
        1 <= size,
        0 <= p < 2 * size * (SCALE as int),
    ensures
        cell_of(wrap1(p, size * (SCALE as int)), size) == cell_of(p, size),
{
    let sc = SCALE as int;
    let span = size * sc;
    if p < span {
        lemma_mod_multiples_vanish(1, p, span);
        lemma_small_mod(p as nat, span as nat);
    } else {
        lemma_mod_multiples_vanish(2, p - span, span);
        lemma_small_mod((p - span) as nat, span as nat);
        let q = p / sc;
        lemma_fundamental_div_mod(p, sc);
        lemma_mod_bound(p, sc);
        lemma_div_pos_is_pos(p, sc);
        lemma_fundamental_div_mod_converse(p - span, sc, q - size, p % sc);
        lemma_mod_multiples_vanish(1, q, size);
    }
}

} // verus!
