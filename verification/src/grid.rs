//! Dense row-major 2-D grids: boolean occupancy, fixed-point scalar fields,
//! and the line rasterizer that strokes a segment onto a cell grid.

use vstd::prelude::*;

use crate::fixed::{div_floor, div_floor_i128, SCALE};
use crate::fixed::lemma_div_bound;
use crate::util::{Index, Vec2Fx};

verus! {

/// Largest grid side the solver works with.
pub const MAX_DIM: usize = 0x8000;

/// A dense scalar field over a `rows x cols` grid, stored row-major.
pub struct ScalarGrid {
    pub rows: usize,
    pub cols: usize,
    pub cells: Vec<i64>,
}

impl ScalarGrid {
    /// Shape is bounded and the backing store matches it.
    pub open spec fn wf(self) -> bool {
        self.rows <= MAX_DIM && self.cols <= MAX_DIM && self.cells@.len() == self.rows * self.cols
    }

    pub open spec fn in_bounds(self, y: int, x: int) -> bool {
        0 <= y < self.rows && 0 <= x < self.cols
    }

    /// Row-major position of cell `(y, x)`.
    pub open spec fn pos(self, y: int, x: int) -> int {
        y * self.cols + x
    }

    /// Value at `(y, x)`, or `or` when the cell lies outside the grid.
    pub open spec fn at_or(self, y: int, x: int, or: i64) -> i64 {
        if self.in_bounds(y, x) {
            self.cells@[self.pos(y, x)]
        } else {
            or
        }
    }

    pub fn from_elem(rows: usize, cols: usize, v: i64) -> (r: ScalarGrid)
        requires
            rows <= MAX_DIM,
            cols <= MAX_DIM,
        ensures
            r.wf(),
            r.rows == rows,
            r.cols == cols,
            r.cells@ == Seq::new((rows * cols) as nat, |i: int| v),
    {
        proof {
            assert((rows * cols) as int <= 0x40000000) by (nonlinear_arith)
                requires
                    rows <= 0x8000,
                    cols <= 0x8000;
        }
        let n = rows * cols;
        let mut cells: Vec<i64> = Vec::new();
        let mut i: usize = 0;
        while i < n
            invariant
                i <= n,
                cells@.len() == i,
                forall|k: int| 0 <= k < i ==> cells@[k] == v,
            decreases n - i,
        {
            cells.push(v);
            i = i + 1;
        }
        proof {
            assert(cells@ =~= Seq::new((rows * cols) as nat, |i: int| v));
        }
        ScalarGrid { rows, cols, cells }
    }

    pub fn get(&self, y: usize, x: usize) -> (r: i64)
        requires
            self.wf(),
            self.in_bounds(y as int, x as int),
        ensures
            r == self.cells@[self.pos(y as int, x as int)],
    {
        proof {
            lemma_pos_in_range(self.rows as int, self.cols as int, y as int, x as int);
        }
        self.cells[y * self.cols + x]
    }

    /// Value at a possibly-out-of-grid index, with `or` as the outside value.
    pub fn get_or(&self, ix: Index, or: i64) -> (r: i64)
        requires
            self.wf(),
        ensures
            r == self.at_or(ix.y as int, ix.x as int, or),
    {
        if ix.x >= 0 && ix.y >= 0 && (ix.x as usize) < self.cols && (ix.y as usize) < self.rows {
            self.get(ix.y as usize, ix.x as usize)
        } else {
            or
        }
    }

    pub fn set(&mut self, y: usize, x: usize, v: i64)
        requires
            old(self).wf(),
            old(self).in_bounds(y as int, x as int),
        ensures
            final(self).wf(),
            final(self).rows == old(self).rows,
            final(self).cols == old(self).cols,
            final(self).cells@ == old(self).cells@.update(old(self).pos(y as int, x as int), v),
    {
        proof {
            lemma_pos_in_range(self.rows as int, self.cols as int, y as int, x as int);
        }
        let p = y * self.cols + x;
        self.cells.set(p, v);
    }

    pub fn len(&self) -> (r: usize)
        requires
            self.wf(),
        ensures
            r == self.cells@.len(),
    {
        self.cells.len()
    }
}

/// A dense boolean grid over `rows x cols`, stored row-major.
pub struct BitGrid {
    pub rows: usize,
    pub cols: usize,
    pub cells: Vec<bool>,
}

impl BitGrid {
    pub open spec fn wf(self) -> bool {
        self.rows <= MAX_DIM && self.cols <= MAX_DIM && self.cells@.len() == self.rows * self.cols
    }

    pub open spec fn in_bounds(self, y: int, x: int) -> bool {
        0 <= y < self.rows && 0 <= x < self.cols
    }

    pub open spec fn pos(self, y: int, x: int) -> int {
        y * self.cols + x
    }

    /// Value at `(y, x)`, or `or` outside the grid.
    pub open spec fn at_or(self, y: int, x: int, or: bool) -> bool {
        if self.in_bounds(y, x) {
            self.cells@[self.pos(y, x)]
        } else {
            or
        }
    }

    pub fn from_elem(rows: usize, cols: usize, v: bool) -> (r: BitGrid)
        requires
            rows <= MAX_DIM,
            cols <= MAX_DIM,
        ensures
            r.wf(),
            r.rows == rows,
            r.cols == cols,
            r.cells@ == Seq::new((rows * cols) as nat, |i: int| v),
    {
        proof {
            assert((rows * cols) as int <= 0x40000000) by (nonlinear_arith)
                requires
                    rows <= 0x8000,
                    cols <= 0x8000;
        }
        let n = rows * cols;
        let mut cells: Vec<bool> = Vec::new();
        let mut i: usize = 0;
        while i < n
            invariant
                i <= n,
                cells@.len() == i,
                forall|k: int| 0 <= k < i ==> cells@[k] == v,
            decreases n - i,
        {
            cells.push(v);
            i = i + 1;
        }
        proof {
            assert(cells@ =~= Seq::new((rows * cols) as nat, |i: int| v));
        }
        BitGrid { rows, cols, cells }
    }

    pub fn get(&self, y: usize, x: usize) -> (r: bool)
        requires
            self.wf(),
            self.in_bounds(y as int, x as int),
        ensures
            r == self.cells@[self.pos(y as int, x as int)],
    {
        proof {
            lemma_pos_in_range(self.rows as int, self.cols as int, y as int, x as int);
        }
        self.cells[y * self.cols + x]
    }

    pub fn set(&mut self, y: usize, x: usize, v: bool)
        requires
            old(self).wf(),
            old(self).in_bounds(y as int, x as int),
        ensures
            final(self).wf(),
            final(self).rows == old(self).rows,
            final(self).cols == old(self).cols,
            final(self).cells@ == old(self).cells@.update(old(self).pos(y as int, x as int), v),
    {
        proof {
            lemma_pos_in_range(self.rows as int, self.cols as int, y as int, x as int);
        }
        let p = y * self.cols + x;
        self.cells.set(p, v);
    }
}

/// A raster target: a `column`-row, `row`-column grid of byte cells over a
/// world rectangle, `unit` world units per cell. Cell `(u, v)` covers the
/// world square `[u * unit, (u + 1) * unit) x [v * unit, (v + 1) * unit)` and
/// is stored at position `u + v * row`.
#[derive(Debug)]
pub struct Grid {
    pub cells: Vec<u8>,
    pub row: i32,
    pub column: i32,
    pub unit: i64,
}

/// The pair `p` is an in-bounds cell of `g` holding `value`.
pub open spec fn pair_marked(g: Grid, p: (i32, i32), value: u8) -> bool {
    &&& 0 <= p.0 < g.row
    &&& 0 <= p.1 < g.column
    &&& g.cells@[p.0 + p.1 * g.row] == value
}

/// Write discipline of a stroke in progress: every recorded pair is an
/// in-bounds cell now holding `value`, and every cell that differs from
/// `before` is one of the recorded pairs.
pub open spec fn stroke_ok(g: Grid, before: Seq<u8>, stroked: Seq<(i32, i32)>, value: u8) -> bool {
    &&& g.cells@.len() == before.len()
    &&& forall|k: int| 0 <= k < stroked.len() ==> pair_marked(g, #[trigger] stroked[k], value)
    &&& forall|i: int|
        0 <= i < before.len() && g.cells@[i] != before[i] ==> exists|k: int|
            0 <= k < stroked.len() && (#[trigger] stroked[k]).0 + stroked[k].1 * g.row == i
}

/// One in-bounds write extends the stroke discipline: the new pair is
/// marked, earlier pairs stay marked, and the one changed cell is the
/// recorded one.
proof fn lemma_mark_step(
    g: Grid,
    prev: Seq<u8>,
    before: Seq<u8>,
    s_old: Seq<(i32, i32)>,
    s_new: Seq<(i32, i32)>,
    u: int,
    v: int,
    value: u8,
)
    requires
        g.wf(),
        0 <= u < g.row,
        0 <= v < g.column,
        prev.len() == before.len(),
        before.len() == g.row * g.column,
        g.cells@ == prev.update(u + v * (g.row as int), value),
        s_new == s_old.push(((u as i32), (v as i32))),
        forall|k: int| 0 <= k < s_old.len() ==> ({
            &&& 0 <= (#[trigger] s_old[k]).0 < g.row
            &&& 0 <= s_old[k].1 < g.column
            &&& prev[s_old[k].0 + s_old[k].1 * g.row] == value
        }),
        forall|i: int|
            0 <= i < before.len() && prev[i] != before[i] ==> exists|k: int|
                0 <= k < s_old.len() && (#[trigger] s_old[k]).0 + s_old[k].1 * g.row == i,
    ensures
        stroke_ok(g, before, s_new, value),
{
    vstd::arithmetic::mul::lemma_mul_is_commutative(g.row as int, g.column as int);
    lemma_pos_in_range(g.column as int, g.row as int, v, u);
    assert(0 <= u + v * (g.row as int) < prev.len());
    assert(g.cells@[u + v * (g.row as int)] == value);
    assert(s_new[s_new.len() - 1] == (((u as i32), (v as i32))));
    assert forall|k: int| 0 <= k < s_new.len() implies pair_marked(
        g,
        #[trigger] s_new[k],
        value,
    ) by {
        if k < s_old.len() {
            assert(s_new[k] == s_old[k]);
            lemma_pos_in_range(g.column as int, g.row as int, s_old[k].1 as int, s_old[k].0 as int);
            assert(s_old[k].0 + s_old[k].1 * g.row == s_old[k].1 * (g.row as int) + s_old[k].0);
            if s_old[k].0 + s_old[k].1 * g.row == u + v * (g.row as int) {
                assert(g.cells@[s_old[k].0 + s_old[k].1 * g.row] == value);
            } else {
                assert(g.cells@[s_old[k].0 + s_old[k].1 * g.row] == prev[s_old[k].0 + s_old[k].1
                    * g.row]);
            }
        } else {
            assert(s_new[k] == (((u as i32), (v as i32))));
        }
    }
    assert forall|i: int|
        0 <= i < before.len() && g.cells@[i] != before[i] implies exists|k: int|
        0 <= k < s_new.len() && (#[trigger] s_new[k]).0 + s_new[k].1 * g.row == i by {
        if i == u + v * (g.row as int) {
            assert(s_new[s_new.len() - 1].0 + s_new[s_new.len() - 1].1 * g.row == i);
        } else {
            assert(g.cells@[i] == prev[i]);
            let k = choose|k: int|
                0 <= k < s_old.len() && (#[trigger] s_old[k]).0 + s_old[k].1 * g.row == i;
            assert(s_new[k] == s_old[k]);
            assert(s_new[k].0 + s_new[k].1 * g.row == i);
        }
    }
}

impl Grid {
    pub open spec fn wf(self) -> bool {
        &&& 1 <= self.row <= 0x8000
        &&& 1 <= self.column <= 0x8000
        &&& self.cells@.len() == self.row * self.column
        &&& 1 <= self.unit <= 0x100000
    }

    /// A grid of zeroed cells covering a `size.x` by `size.y` world
    /// rectangle, rounded up to whole cells.
    pub fn new(size: Vec2Fx, unit: i64) -> (r: Grid)
        requires
            1 <= unit <= 0x100000,
            1 <= size.x <= unit * 0x8000,
            1 <= size.y <= unit * 0x8000,
        ensures
            r.wf(),
            r.unit == unit,
            r.row == (size.x + unit - 1) as int / unit as int,
            r.column == (size.y + unit - 1) as int / unit as int,
            r.cells@ == Seq::new((r.row * r.column) as nat, |i: int| 0u8),
    {
        proof {
            lemma_ceil_cells(size.x as int, unit as int);
            lemma_ceil_cells(size.y as int, unit as int);
        }
        let row = div_floor(size.x + unit - 1, unit) as i32;
        let column = div_floor(size.y + unit - 1, unit) as i32;
        proof {
            assert(row * column <= 0x40000000 && row * column >= 1) by (nonlinear_arith)
                requires
                    1 <= row <= 0x8000,
                    1 <= column <= 0x8000;
        }
        let n = (row as usize) * (column as usize);
        let mut cells: Vec<u8> = Vec::new();
        let mut i: usize = 0;
        while i < n
            invariant
                i <= n,
                cells@.len() == i,
                forall|k: int| 0 <= k < i ==> cells@[k] == 0u8,
            decreases n - i,
        {
            cells.push(0);
            i = i + 1;
        }
        proof {
            assert(cells@ =~= Seq::new((row * column) as nat, |i: int| 0u8));
        }
        Grid { cells, row, column, unit }
    }

    /// The cell that contains a world point: floor of the point over `unit`.
    pub fn point_to_index(&self, point: Vec2Fx) -> (r: (i32, i32))
        requires
            self.wf(),
            -(0x20000000 * self.unit as int) <= point.x <= 0x20000000 * self.unit as int,
            -(0x20000000 * self.unit as int) <= point.y <= 0x20000000 * self.unit as int,
        ensures
            r.0 == point.x as int / self.unit as int,
            r.1 == point.y as int / self.unit as int,
    {
        proof {
            lemma_div_bound(point.x as int, self.unit as int, 0x20000000);
            lemma_div_bound(point.y as int, self.unit as int, 0x20000000);
        }
        let i = div_floor(point.x, self.unit) as i32;
        let j = div_floor(point.y, self.unit) as i32;
        (i, j)
    }

    /// Write `value` into one cell if it is in bounds, recording the write;
    /// out-of-bounds cells are silently skipped, so a stroke never fails.
    #[verifier::rlimit(100)]
    fn mark(&mut self, u: i64, v: i64, value: u8, stroked: &mut Vec<(i32, i32)>, before: Ghost<
        Seq<u8>,
    >)
        requires
            old(self).wf(),
            stroke_ok(*old(self), before@, old(stroked)@, value),
        ensures
            final(self).wf(),
            final(self).row == old(self).row,
            final(self).column == old(self).column,
            final(self).unit == old(self).unit,
            stroke_ok(*final(self), before@, final(stroked)@, value),
            0 <= u < old(self).row && 0 <= v < old(self).column ==> final(stroked)@ == old(
                stroked,
            )@.push(((u as i32), (v as i32))),
            !(0 <= u < old(self).row && 0 <= v < old(self).column) ==> final(stroked)@ == old(
                stroked,
            )@,
    {
        if u >= 0 && v >= 0 && u < self.row as i64 && v < self.column as i64 {
            proof {
                assert(0 <= u + v * (self.row as int) < (self.row as int) * (self.column as int)
                    && 0 <= v * (self.row as int) <= 0x40000000) by (nonlinear_arith)
                    requires
                        0 <= u < self.row as int,
                        0 <= v < self.column as int,
                        1 <= self.row <= 0x8000,
                        1 <= self.column <= 0x8000;
            }
            let p = (u + v * (self.row as i64)) as usize;
            let ghost prev = self.cells@;
            self.cells.set(p, value);
            stroked.push((u as i32, v as i32));
            proof {
                lemma_mark_step(*self, prev, before@, old(stroked)@, stroked@, u as int, v as int, value);
            }
        }
    }
}

/// The x-coordinate where the segment `a`-`b` (sorted by y) crosses the
/// lower edge of row `v + 1`, by the stroke's fixed-point interpolation.
pub open spec fn stroke_xcross(a: Vec2Fx, b: Vec2Fx, unit: int, v: int) -> int {
    let y_cross = (v + 1) * unit;
    let t = ((y_cross - a.y) * (SCALE as int)) / (b.y as int - a.y);
    a.x + ((b.x as int - a.x) * t) / (SCALE as int)
}

/// The running start column after `steps` stroked rows: the first row
/// starts at `a`'s column, each later row at the previous row's crossing
/// (stepping across an exact-boundary crossing).
pub open spec fn stroke_u1(a: Vec2Fx, b: Vec2Fx, unit: int, v1: int, steps: nat) -> int
    decreases steps,
{
    if steps == 0 {
        (a.x as int) / unit
    } else {
        let xc = stroke_xcross(a, b, unit, v1 + steps - 1);
        let qx = xc / unit;
        if a.x < b.x {
            qx
        } else {
            if xc % unit == 0 {
                qx - 1
            } else {
                qx
            }
        }
    }
}

/// The `n` cells `(lo, v) .. (lo + n - 1, v)`, ascending.
pub open spec fn row_cells_n(lo: int, n: nat, v: int) -> Seq<(int, int)>
    decreases n,
{
    if n == 0 {
        Seq::empty()
    } else {
        row_cells_n(lo, (n - 1) as nat, v).push((lo + n - 1, v))
    }
}

/// The cells `(lo, v) ..= (hi, v)`, empty when `hi < lo`.
pub open spec fn row_span(lo: int, hi: int, v: int) -> Seq<(int, int)> {
    row_cells_n(
        lo,
        (if hi < lo {
            0int
        } else {
            hi + 1 - lo
        }) as nat,
        v,
    )
}

/// The cells one stroked row `v` (below the last) writes: from the running
/// start column to the crossing, in the sweep's direction.
pub open spec fn stroke_row(a: Vec2Fx, b: Vec2Fx, unit: int, v1: int, v: int) -> Seq<(int, int)> {
    let u1 = stroke_u1(a, b, unit, v1, (v - v1) as nat);
    let xc = stroke_xcross(a, b, unit, v);
    let qx = xc / unit;
    if a.x < b.x {
        row_span(
            u1,
            if xc % unit == 0 {
                qx - 1
            } else {
                qx
            },
            v,
        )
    } else {
        row_span(qx, u1, v)
    }
}

/// The first `n` stroked rows' cells, concatenated in write order.
pub open spec fn stroke_rows(a: Vec2Fx, b: Vec2Fx, unit: int, v1: int, n: nat) -> Seq<(int, int)>
    decreases n,
{
    if n == 0 {
        Seq::empty()
    } else {
        stroke_rows(a, b, unit, v1, (n - 1) as nat) + stroke_row(a, b, unit, v1, v1 + n - 1)
    }
}

/// Every cell a stroke of `a0`-`b0` attempts, in write order: the endpoint
/// of smaller y leads, each row sweeps from the running start column to
/// the row's crossing, and the last row ends at `b`'s column.
pub open spec fn spec_stroke_cells(a0: Vec2Fx, b0: Vec2Fx, unit: int) -> Seq<(int, int)> {
    let a = if a0.y > b0.y {
        b0
    } else {
        a0
    };
    let b = if a0.y > b0.y {
        a0
    } else {
        b0
    };
    let v1 = (a.y as int) / unit;
    let v2 = (b.y as int) / unit;
    let u1f = stroke_u1(a, b, unit, v1, (v2 - v1) as nat);
    let u2 = (b.x as int) / unit;
    stroke_rows(a, b, unit, v1, (v2 - v1) as nat) + (if a.x < b.x {
        row_span(u1f, u2, v2)
    } else {
        row_span(u2, u1f, v2)
    })
}

/// The in-bounds cells of `s`, in order, narrowed to grid indices: what a
/// stroke actually writes on a `row`-wide, `column`-tall grid.
pub open spec fn keep_in(row: int, column: int, s: Seq<(int, int)>) -> Seq<(i32, i32)>
    decreases s.len(),
{
    if s.len() == 0 {
        Seq::empty()
    } else {
        let p = s.last();
        let rest = keep_in(row, column, s.drop_last());
        if 0 <= p.0 < row && 0 <= p.1 < column {
            rest.push((p.0 as i32, p.1 as i32))
        } else {
            rest
        }
    }
}

impl Grid {
    /// Stroke the segment `a`-`b` onto the grid, writing `value` into the
    /// crossed cells row by row. Returns the cells written, in order. Writes
    /// that would fall outside the grid are skipped, never an error: the
    /// contract says every returned cell is in bounds and now holds `value`,
    /// and no other cell changed.
    pub fn stroke_line(&mut self, a: Vec2Fx, b: Vec2Fx, value: u8) -> (stroked: Vec<(i32, i32)>)
        requires
            old(self).wf(),
            a.bounded_by(0x10000000 * old(self).unit as int),
            b.bounded_by(0x10000000 * old(self).unit as int),
        ensures
            final(self).wf(),
            final(self).row == old(self).row,
            final(self).column == old(self).column,
            final(self).unit == old(self).unit,
            stroke_ok(*final(self), old(self).cells@, stroked@, value),
            // the returned cells are exactly the in-bounds part of the
            // stroke's row-by-row sweep, in write order
            stroked@ == keep_in(
                old(self).row as int,
                old(self).column as int,
                spec_stroke_cells(a, b, old(self).unit as int),
            ),
    {
        let ghost before = self.cells@;
        let ghost a0 = a;
        let ghost b0 = b;
        let mut stroked: Vec<(i32, i32)> = Vec::new();
        let (a, b) = if a.y > b.y {
            (b, a)
        } else {
            (a, b)
        };

        proof {
            lemma_div_bound(a.x as int, self.unit as int, 0x10000000);
            lemma_div_bound(a.y as int, self.unit as int, 0x10000000);
            lemma_div_bound(b.x as int, self.unit as int, 0x10000000);
            lemma_div_bound(b.y as int, self.unit as int, 0x10000000);
        }
        let (u1i, v1) = self.point_to_index(a);
        let (u2i, v2) = self.point_to_index(b);
        let mut u1: i64 = u1i as i64;
        let u2: i64 = u2i as i64;
        proof {
            vstd::arithmetic::div_mod::lemma_div_is_ordered(
                a.y as int,
                b.y as int,
                self.unit as int,
            );
        }

        let mut v: i32 = v1;
        while v < v2
            invariant
                self.wf(),
                self.row == old(self).row,
                self.column == old(self).column,
                self.unit == old(self).unit,
                stroke_ok(*self, before, stroked@, value),
                before.len() == self.cells@.len(),
                v1 <= v <= v2,
                -0x10000000 <= v1,
                v2 <= 0x10000000,
                v1 == a.y as int / self.unit as int,
                v2 == b.y as int / self.unit as int,
                a.y <= b.y,
                a.bounded_by(0x10000000 * self.unit as int),
                b.bounded_by(0x10000000 * self.unit as int),
                -0x30000002 <= u1 <= 0x30000002,
                u1 == stroke_u1(a, b, self.unit as int, v1 as int, (v - v1) as nat),
                stroked@ == keep_in(
                    self.row as int,
                    self.column as int,
                    stroke_rows(a, b, self.unit as int, v1 as int, (v - v1) as nat),
                ),
            decreases v2 - v,
        {
            proof {
                if b.y <= a.y {
                    vstd::arithmetic::div_mod::lemma_div_is_ordered(
                        b.y as int,
                        a.y as int,
                        self.unit as int,
                    );
                }
                vstd::arithmetic::mul::lemma_mul_inequality(
                    v as int + 1,
                    0x10000001,
                    self.unit as int,
                );
                vstd::arithmetic::mul::lemma_mul_inequality(
                    -0x10000000,
                    v as int + 1,
                    self.unit as int,
                );
                vstd::arithmetic::mul::lemma_mul_is_commutative(v as int + 1, self.unit as int);
                vstd::arithmetic::mul::lemma_mul_is_commutative(-0x10000000, self.unit as int);
                vstd::arithmetic::mul::lemma_mul_is_commutative(0x10000001, self.unit as int);
            }
            let y_cross = ((v as i64) + 1) * self.unit;
            let dy = b.y - a.y;
            proof {
                // v < v2 forces the segment to actually rise: a flat segment
                // would give v2 <= v1 <= v.
                assert(dy > 0);
                // floor bounds pin y_cross into (a.y, b.y]
                vstd::arithmetic::div_mod::lemma_fundamental_div_mod(a.y as int, self.unit as int);
                vstd::arithmetic::div_mod::lemma_fundamental_div_mod(b.y as int, self.unit as int);
                vstd::arithmetic::mul::lemma_mul_inequality(
                    v as int + 1,
                    v2 as int,
                    self.unit as int,
                );
                vstd::arithmetic::mul::lemma_mul_inequality(
                    v1 as int + 1,
                    v as int + 1,
                    self.unit as int,
                );
                vstd::arithmetic::mul::lemma_mul_is_distributive_add_other_way(
                    self.unit as int,
                    v1 as int,
                    1,
                );
                vstd::arithmetic::mul::lemma_mul_is_distributive_add_other_way(
                    self.unit as int,
                    v as int,
                    1,
                );
                vstd::arithmetic::mul::lemma_mul_is_distributive_add_other_way(
                    self.unit as int,
                    v2 as int,
                    1,
                );
                vstd::arithmetic::mul::lemma_mul_is_commutative(v1 as int, self.unit as int);
                vstd::arithmetic::mul::lemma_mul_is_commutative(v2 as int, self.unit as int);
                assert(a.y < y_cross <= b.y);
                assert((y_cross - a.y) * SCALE <= dy * SCALE) by (nonlinear_arith)
                    requires
                        0 < y_cross - a.y <= dy;
            }
            let t = div_floor((y_cross - a.y) * SCALE, dy);
            proof {
                lemma_div_bound((y_cross - a.y) * SCALE, dy as int, SCALE as int);
                assert(t >= 0) by {
                    vstd::arithmetic::div_mod::lemma_div_pos_is_pos(
                        (y_cross - a.y) * SCALE,
                        dy as int,
                    );
                }
            }
            let dx = b.x - a.x;
            proof {
                assert(-((0x20000000 * self.unit as int) * SCALE) <= dx * t <= (0x20000000
                    * self.unit as int) * SCALE) by (nonlinear_arith)
                    requires
                        -(0x20000000 * self.unit as int) <= dx <= 0x20000000 * self.unit as int,
                        0 <= t <= SCALE as int,
                        self.unit >= 1;
                lemma_div_bound(dx * t, SCALE as int, 0x20000000 * self.unit as int);
            }
            let step = div_floor_i128((dx as i128) * (t as i128), SCALE as i128);
            let x_cross = a.x + (step as i64);
            proof {
                lemma_div_bound(x_cross as int, self.unit as int, 0x30000000);
                vstd::arithmetic::div_mod::lemma_fundamental_div_mod(
                    x_cross as int,
                    self.unit as int,
                );
            }
            let qx = div_floor(x_cross, self.unit);
            proof {
                vstd::arithmetic::mul::lemma_mul_is_commutative(qx as int, self.unit as int);
                assert(-0x4000000000000000 <= qx * self.unit <= 0x4000000000000000)
                    by (nonlinear_arith)
                    requires
                        -0x30000000 <= qx <= 0x30000000,
                        1 <= self.unit <= 0x100000;
            }
            let rem = x_cross - qx * self.unit;
            let u_cross: i64 = if a.x < b.x {
                if rem == 0 {
                    qx - 1
                } else {
                    qx
                }
            } else {
                qx
            };
            let (lo, hi) = if a.x < b.x {
                (u1, u_cross)
            } else {
                (u_cross, u1)
            };
            proof {
                assert(x_cross as int == stroke_xcross(a, b, self.unit as int, v as int));
                assert(rem as int == x_cross as int % self.unit as int);
                assert(stroke_row(a, b, self.unit as int, v1 as int, v as int) == row_span(
                    lo as int,
                    hi as int,
                    v as int,
                ));
            }
            let ghost rows_done = stroke_rows(a, b, self.unit as int, v1 as int, (v - v1) as nat);
            let mut u = lo;
            while u <= hi
                invariant
                    self.wf(),
                    self.row == old(self).row,
                    self.column == old(self).column,
                    self.unit == old(self).unit,
                    stroke_ok(*self, before, stroked@, value),
                    before.len() == self.cells@.len(),
                    lo <= u,
                    u <= hi + 1 || u == lo,
                    -0x30000002 <= lo,
                    hi <= 0x30000002,
                    stroked@ == keep_in(
                        self.row as int,
                        self.column as int,
                        rows_done + row_span(lo as int, u - 1, v as int),
                    ),
                decreases hi + 1 - u,
            {
                let ghost s_pre = stroked@;
                self.mark(u, v as i64, value, &mut stroked, Ghost(before));
                proof {
                    assert(((v as i64) as i32) as int == v as int);
                    assert(((((u as i32)), (((v as i64)) as i32))) == ((((u as i32)), ((
                    v as i32)))));
                    let partial = rows_done + row_span(lo as int, u - 1, v as int);
                    let extended = rows_done + row_span(lo as int, u as int, v as int);
                    assert(row_span(lo as int, u as int, v as int) == row_cells_n(
                        lo as int,
                        (u + 1 - lo) as nat,
                        v as int,
                    ));
                    assert(row_cells_n(lo as int, (u + 1 - lo) as nat, v as int) == row_cells_n(
                        lo as int,
                        (u - lo) as nat,
                        v as int,
                    ).push((u as int, v as int)));
                    assert(extended =~= partial.push((u as int, v as int)));
                    assert(extended.drop_last() =~= partial);
                    assert(s_pre == keep_in(self.row as int, self.column as int, partial));
                    if 0 <= u && u < self.row as i64 && 0 <= v && (v as i64)
                        < self.column as i64 {
                        assert(stroked@ == s_pre.push((((u as i32)), (((v as i64)) as i32))));
                        assert(keep_in(self.row as int, self.column as int, extended) == keep_in(
                            self.row as int,
                            self.column as int,
                            partial,
                        ).push(((u as i32), (v as i32))));
                        assert(stroked@ == keep_in(
                            self.row as int,
                            self.column as int,
                            extended,
                        ));
                    } else {
                        assert(stroked@ == s_pre);
                        assert(keep_in(self.row as int, self.column as int, extended) == keep_in(
                            self.row as int,
                            self.column as int,
                            partial,
                        ));
                        assert(stroked@ == keep_in(
                            self.row as int,
                            self.column as int,
                            extended,
                        ));
                    }
                }
                u = u + 1;
            }
            proof {
                assert(row_span(lo as int, u - 1, v as int) == row_span(
                    lo as int,
                    hi as int,
                    v as int,
                ));
                assert(stroke_rows(a, b, self.unit as int, v1 as int, (v + 1 - v1) as nat)
                    == rows_done + stroke_row(a, b, self.unit as int, v1 as int, v as int));
            }
            u1 = u_cross;
            if rem == 0 {
                u1 = if a.x < b.x {
                    u1 + 1
                } else {
                    u1 - 1
                };
            }
            proof {
                assert(u1 as int == stroke_u1(
                    a,
                    b,
                    self.unit as int,
                    v1 as int,
                    (v + 1 - v1) as nat,
                ));
            }
            v = v + 1;
        }

        let (lo, hi) = if a.x < b.x {
            (u1, u2)
        } else {
            (u2, u1)
        };
        let ghost rows_done = stroke_rows(a, b, self.unit as int, v1 as int, (v2 - v1) as nat);
        let mut u = lo;
        while u <= hi
            invariant
                self.wf(),
                self.row == old(self).row,
                self.column == old(self).column,
                self.unit == old(self).unit,
                stroke_ok(*self, before, stroked@, value),
                before.len() == self.cells@.len(),
                lo <= u,
                u <= hi + 1 || u == lo,
                -0x30000002 <= lo,
                hi <= 0x30000002,
                v == v2,
                stroked@ == keep_in(
                    self.row as int,
                    self.column as int,
                    rows_done + row_span(lo as int, u - 1, v2 as int),
                ),
            decreases hi + 1 - u,
        {
            let ghost s_pre = stroked@;
            self.mark(u, v as i64, value, &mut stroked, Ghost(before));
            proof {
                assert(((v as i64) as i32) as int == v2 as int);
                assert(((((u as i32)), (((v as i64)) as i32))) == ((((u as i32)), ((
                v2 as i32)))));
                let partial = rows_done + row_span(lo as int, u - 1, v2 as int);
                let extended = rows_done + row_span(lo as int, u as int, v2 as int);
                assert(row_span(lo as int, u as int, v2 as int) == row_cells_n(
                    lo as int,
                    (u + 1 - lo) as nat,
                    v2 as int,
                ));
                assert(row_cells_n(lo as int, (u + 1 - lo) as nat, v2 as int) == row_cells_n(
                    lo as int,
                    (u - lo) as nat,
                    v2 as int,
                ).push((u as int, v2 as int)));
                assert(extended =~= partial.push((u as int, v2 as int)));
                assert(extended.drop_last() =~= partial);
                assert(s_pre == keep_in(self.row as int, self.column as int, partial));
                if 0 <= u && u < self.row as i64 && 0 <= v && (v as i64) < self.column as i64 {
                    assert(stroked@ == s_pre.push((((u as i32)), (((v as i64)) as i32))));
                    assert(keep_in(self.row as int, self.column as int, extended) == keep_in(
                        self.row as int,
                        self.column as int,
                        partial,
                    ).push(((u as i32), (v2 as i32))));
                    assert(stroked@ == keep_in(self.row as int, self.column as int, extended));
                } else {
                    assert(stroked@ == s_pre);
                    assert(keep_in(self.row as int, self.column as int, extended) == keep_in(
                        self.row as int,
                        self.column as int,
                        partial,
                    ));
                    assert(stroked@ == keep_in(self.row as int, self.column as int, extended));
                }
            }
            u = u + 1;
        }
        proof {
            assert(row_span(lo as int, u - 1, v2 as int) == row_span(
                lo as int,
                hi as int,
                v2 as int,
            ));
            assert(spec_stroke_cells(a0, b0, self.unit as int) == rows_done + row_span(
                lo as int,
                hi as int,
                v2 as int,
            ));
        }
        stroked
    }
}

/// A row-major position of an in-bounds cell lies inside the backing store.
pub proof fn lemma_pos_in_range(rows: int, cols: int, y: int, x: int)
    requires
        0 <= y < rows,
        0 <= x < cols,
        rows <= MAX_DIM,
        cols <= MAX_DIM,
    ensures
        0 <= y * cols + x < rows * cols,
        y * cols + x <= 0x40000000,
{
    assert(0 <= y * cols + x < rows * cols && y * cols + x <= 0x40000000) by (nonlinear_arith)
        requires
            0 <= y < rows,
            0 <= x < cols,
            rows <= 0x8000,
            cols <= 0x8000;
}

/// Distinct in-bounds coordinate pairs map to distinct row-major positions.
pub proof fn lemma_pos_injective(cols: int, y1: int, x1: int, y2: int, x2: int)
    requires
        0 <= y1,
        0 <= x1 < cols,
        0 <= y2,
        0 <= x2 < cols,
        y1 != y2 || x1 != x2,
    ensures
        y1 * cols + x1 != y2 * cols + x2,
{
    vstd::arithmetic::div_mod::lemma_fundamental_div_mod_converse(y1 * cols + x1, cols, y1, x1);
    vstd::arithmetic::div_mod::lemma_fundamental_div_mod_converse(y2 * cols + x2, cols, y2, x2);
}

/// For `1 <= a <= m * d`, the cell count `(a + d - 1) / d` lies in `[1, m]`.
proof fn lemma_ceil_cells(a: int, d: int)
    requires
        1 <= d,
        1 <= a <= 0x8000 * d,
    ensures
        1 <= (a + d - 1) / d <= 0x8000,
{
    vstd::arithmetic::div_mod::lemma_div_is_ordered(d, a + d - 1, d);
    vstd::arithmetic::div_mod::lemma_div_is_ordered(a + d - 1, 0x8001 * d - 1, d);
    vstd::arithmetic::div_mod::lemma_div_by_multiple(1, d);
    vstd::arithmetic::div_mod::lemma_fundamental_div_mod_converse(
        0x8001 * d - 1, d, 0x8000, d - 1);
}

} // verus!
