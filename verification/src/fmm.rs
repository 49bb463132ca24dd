//! The fast-marching solver: turns a seed grid (zero at the seed cells, the
//! `FAR` sentinel elsewhere) and a per-cell traversal cost into a potential
//! field over the 4-connected grid.
//!
//! The contract of [`apply_fmm`] carries the solver's guarantees: seed cells
//! keep potential zero and no cell is ever raised; every potential stays in
//! `[0, FAR]`; a seed cell's potential is no larger than any other cell's;
//! a non-seed cell never reports less than half its own traversal cost, nor
//! less than half that cost above its best 4-neighbor (lower causality), so
//! high-cost (obstacle) cells never undercut free cells of the same cost
//! scale; and the result is locally consistent — no cell exceeds any
//! 4-neighbor by more than its own cost — from which [`lemma_path_bound`]
//! derives the minimal-cost upper bound: no 4-path from a seed certifies a
//! cheaper arrival than the field reports.

use vstd::prelude::*;

use crate::fixed::{is_sqrt, isqrt, FAR};
use crate::grid::{BitGrid, ScalarGrid};
use crate::queue::MinQueue;
use crate::util::Index;

verus! {

/// Traversal costs the solver accepts: at least 2 so that no relaxed value
/// can collapse to zero, and small enough that the quadratic update fits
/// comfortably in wide arithmetic.
pub open spec fn cost_ok(cost: ScalarGrid) -> bool {
    forall|i: int|
        0 <= i < cost.cells@.len() ==> 2 <= #[trigger] cost.cells@[i] <= 0x100000000
}

/// Invariant of the marching state relative to the initial seed grid
/// `init`: shapes agree, `init` is a seed grid (0 or `FAR`), and the current
/// potentials never exceed `init`, stay within `[0, FAR]`, and keep at least
/// half the local cost on every non-seed cell.
pub open spec fn fmm_inv(pot: ScalarGrid, cost: ScalarGrid, init: Seq<i64>) -> bool {
    &&& pot.wf()
    &&& cost.wf()
    &&& pot.rows == cost.rows
    &&& pot.cols == cost.cols
    &&& pot.cells@.len() == init.len()
    &&& forall|i: int| 0 <= i < init.len() ==> init[i] == 0 || #[trigger] init[i] == FAR
    &&& forall|i: int| 0 <= i < init.len() ==> 0 <= #[trigger] pot.cells@[i] <= FAR
    &&& forall|i: int| 0 <= i < init.len() ==> #[trigger] pot.cells@[i] <= init[i]
    &&& forall|i: int|
        0 <= i < init.len() && init[i] != 0 ==> #[trigger] pot.cells@[i] >= cost.cells@[i] / 2
}

/// Whether row-major cells `i` and `j` are 4-neighbors on a `cols`-wide
/// grid.
pub open spec fn neighbor_of(cols: int, i: int, j: int) -> bool {
    let yi = i / cols;
    let xi = i % cols;
    let yj = j / cols;
    let xj = j % cols;
    (yi == yj && (xj == xi + 1 || xj == xi - 1)) || (xi == xj && (yj == yi + 1 || yj == yi - 1))
}

/// The smaller of two spec-level scalars.
pub open spec fn min2(a: int, b: int) -> int {
    if a <= b {
        a
    } else {
        b
    }
}

/// Best (smallest) potential among the two horizontal neighbors of cell
/// `(y, x)`, reading `FAR` outside the grid.
pub open spec fn axis_h(pot: ScalarGrid, y: int, x: int) -> int {
    min2(pot.at_or(y, x - 1, FAR) as int, pot.at_or(y, x + 1, FAR) as int)
}

/// Best potential among the two vertical neighbors of cell `(y, x)`.
pub open spec fn axis_v(pot: ScalarGrid, y: int, x: int) -> int {
    min2(pot.at_or(y - 1, x, FAR) as int, pot.at_or(y + 1, x, FAR) as int)
}

/// Best potential among all four neighbors of cell `(y, x)`.
pub open spec fn nbr_min(pot: ScalarGrid, y: int, x: int) -> int {
    min2(axis_h(pot, y, x), axis_v(pot, y, x))
}

/// One cell's lower-causality fact: a non-seed cell either still reads the
/// `FAR` sentinel (never reached) or sits at least half its own traversal
/// cost above its best 4-neighbor.
pub open spec fn cell_causal(
    pot: ScalarGrid,
    cost: ScalarGrid,
    init: Seq<i64>,
    y: int,
    x: int,
) -> bool {
    init[y * pot.cols + x] != 0 ==> pot.cells@[y * pot.cols + x] == FAR || pot.cells@[y * pot.cols
        + x] >= nbr_min(pot, y, x) + cost.cells@[y * pot.cols + x] / 2
}

/// Lower causality over the whole grid: no non-seed cell undercuts its best
/// 4-neighbor by more than half its own cost.
pub open spec fn lower_causal(pot: ScalarGrid, cost: ScalarGrid, init: Seq<i64>) -> bool {
    forall|y: int, x: int|
        0 <= y < pot.rows && 0 <= x < pot.cols ==> #[trigger] cell_causal(pot, cost, init, y, x)
}

/// During seeding every written non-seed cell holds exactly its own cost,
/// and the rest still read the sentinel.
pub open spec fn seed_phase(pot: ScalarGrid, cost: ScalarGrid, init: Seq<i64>) -> bool {
    forall|i: int|
        0 <= i < init.len() && init[i] != 0 ==> #[trigger] pot.cells@[i] == FAR || pot.cells@[i]
            == cost.cells@[i]
}

/// One cell's fixpoint fact: the upwind update from the cell's current axis
/// values cannot lower a non-seed cell any further.
pub open spec fn cell_settled(pot: ScalarGrid, cost: ScalarGrid, init: Seq<i64>, j: int) -> bool {
    init[j] != 0 ==> pot.cells@[j] <= spec_upwind(
        axis_h(pot, j / pot.cols as int, j % pot.cols as int),
        axis_v(pot, j / pot.cols as int, j % pot.cols as int),
        cost.cells@[j] as int,
    )
}

/// The fixpoint fact for every cell below `bound`.
pub open spec fn settled_upto(
    pot: ScalarGrid,
    cost: ScalarGrid,
    init: Seq<i64>,
    bound: int,
) -> bool {
    forall|j: int| 0 <= j < bound ==> #[trigger] cell_settled(pot, cost, init, j)
}

/// Sum of a grid's cells, the sweep's termination measure.
pub open spec fn sum_vals(s: Seq<i64>) -> int
    decreases s.len(),
{
    if s.len() == 0 {
        0
    } else {
        sum_vals(s.drop_last()) + s.last()
    }
}

/// A sum of non-negative cells is non-negative.
proof fn lemma_sum_vals_nonneg(s: Seq<i64>)
    requires
        forall|i: int| 0 <= i < s.len() ==> 0 <= #[trigger] s[i],
    ensures
        sum_vals(s) >= 0,
    decreases s.len(),
{
    if s.len() > 0 {
        lemma_sum_vals_nonneg(s.drop_last());
    }
}

/// Writing one cell moves the sum by exactly the cell's change.
proof fn lemma_sum_vals_update(s: Seq<i64>, i: int, v: i64)
    requires
        0 <= i < s.len(),
    ensures
        sum_vals(s.update(i, v)) == sum_vals(s) - s[i] + v,
    decreases s.len(),
{
    if i == s.len() - 1 {
        assert(s.update(i, v).drop_last() =~= s.drop_last());
        assert(s.update(i, v).last() == v);
    } else {
        assert(s.update(i, v).drop_last() =~= s.drop_last().update(i, v));
        assert(s.update(i, v).last() == s.last());
        lemma_sum_vals_update(s.drop_last(), i, v);
    }
}

/// An out-of-grid read is `FAR`, an in-grid one never larger than the other
/// grid's value at the same cell, so `at_or` is monotone under pointwise
/// lowering.
proof fn lemma_at_or_mono(pot1: ScalarGrid, pot2: ScalarGrid, yy: int, xx: int)
    requires
        pot1.rows == pot2.rows,
        pot1.cols == pot2.cols,
        pot1.wf(),
        pot2.cells@.len() == pot1.cells@.len(),
        forall|i: int| 0 <= i < pot2.cells@.len() ==> #[trigger] pot2.cells@[i] <= pot1.cells@[i],
    ensures
        pot2.at_or(yy, xx, FAR) <= pot1.at_or(yy, xx, FAR),
{
    if pot1.in_bounds(yy, xx) {
        crate::grid::lemma_pos_in_range(pot1.rows as int, pot1.cols as int, yy, xx);
    }
}

/// The best-neighbor value cannot rise when cell values only fall.
proof fn lemma_nbr_min_mono(pot1: ScalarGrid, pot2: ScalarGrid, y: int, x: int)
    requires
        pot1.rows == pot2.rows,
        pot1.cols == pot2.cols,
        pot1.wf(),
        pot2.cells@.len() == pot1.cells@.len(),
        forall|i: int| 0 <= i < pot2.cells@.len() ==> #[trigger] pot2.cells@[i] <= pot1.cells@[i],
    ensures
        nbr_min(pot2, y, x) <= nbr_min(pot1, y, x),
        axis_h(pot2, y, x) <= axis_h(pot1, y, x),
        axis_v(pot2, y, x) <= axis_v(pot1, y, x),
{
    lemma_at_or_mono(pot1, pot2, y, x - 1);
    lemma_at_or_mono(pot1, pot2, y, x + 1);
    lemma_at_or_mono(pot1, pot2, y - 1, x);
    lemma_at_or_mono(pot1, pot2, y + 1, x);
}

/// A write that does not raise its cell and respects that cell's own
/// causality bound preserves lower causality everywhere.
proof fn lemma_lower_causal_write(
    pot1: ScalarGrid,
    pot2: ScalarGrid,
    cost: ScalarGrid,
    init: Seq<i64>,
    wy: int,
    wx: int,
    v: i64,
)
    requires
        pot1.wf(),
        pot1.cells@.len() == init.len(),
        lower_causal(pot1, cost, init),
        0 <= wy < pot1.rows,
        0 <= wx < pot1.cols,
        pot2.rows == pot1.rows,
        pot2.cols == pot1.cols,
        pot2.cells@ == pot1.cells@.update(wy * pot1.cols + wx, v),
        v <= pot1.cells@[wy * pot1.cols + wx],
        init[wy * pot1.cols + wx] != 0 ==> v == FAR || v >= nbr_min(pot1, wy, wx) + cost.cells@[wy
            * pot1.cols + wx] / 2,
    ensures
        lower_causal(pot2, cost, init),
{
    let rows = pot1.rows as int;
    let cols = pot1.cols as int;
    crate::grid::lemma_pos_in_range(rows, cols, wy, wx);
    assert forall|i: int| 0 <= i < pot2.cells@.len() implies #[trigger] pot2.cells@[i]
        <= pot1.cells@[i] by {
        if i != wy * cols + wx {
            assert(pot2.cells@[i] == pot1.cells@[i]);
        }
    }
    assert forall|y: int, x: int| 0 <= y < pot2.rows && 0 <= x < pot2.cols implies #[trigger] cell_causal(
        pot2,
        cost,
        init,
        y,
        x,
    ) by {
        crate::grid::lemma_pos_in_range(rows, cols, y, x);
        assert(cell_causal(pot1, cost, init, y, x));
        lemma_nbr_min_mono(pot1, pot2, y, x);
        if y == wy && x == wx {
            assert(pot2.cells@[y * cols + x] == v);
        } else {
            crate::grid::lemma_pos_injective(cols, y, x, wy, wx);
            assert(pot2.cells@[y * cols + x] == pot1.cells@[y * cols + x]);
        }
    }
}

/// Bounds of the upwind update: with at least one axis value available the
/// result lies within `[m + f/2, m + f]` of the best axis value `m`; with
/// none it is the `FAR` sentinel.
pub proof fn lemma_upwind_bounds(u1: int, u2: int, f: int)
    requires
        0 <= u1 <= FAR,
        0 <= u2 <= FAR,
        2 <= f <= 0x100000000,
    ensures
        u1 == FAR && u2 == FAR ==> spec_upwind(u1, u2, f) == FAR,
        !(u1 == FAR && u2 == FAR) ==> min2(u1, u2) + f / 2 <= spec_upwind(u1, u2, f) <= min2(
            u1,
            u2,
        ) + f,
{
    assert(f / 2 <= f) by (nonlinear_arith)
        requires
            f >= 0;
    if u1 == FAR && u2 == FAR {
    } else if u1 == FAR || u2 == FAR {
        // a single axis: exactly the best axis plus the cost
    } else {
        let m = min2(u1, u2);
        let d = u1 - u2;
        let dd = if d < 0 {
            -d
        } else {
            d
        };
        let sq = 2 * f * f - d * d;
        assert(d * d == dd * dd) by (nonlinear_arith)
            requires
                dd == (if d < 0 {
                    -d
                } else {
                    d
                });
        if sq >= 0 {
            crate::fixed::lemma_sqrt_exists(sq);
            let s = crate::fixed::sqrt_floor(sq);
            assert(is_sqrt(sq, s));
            // upper: the discriminant caps the root at `2f - dd`
            assert(dd < 2 * f) by (nonlinear_arith)
                requires
                    dd * dd <= 2 * f * f,
                    dd >= 0,
                    f >= 2;
            assert(s <= 2 * f - dd) by (nonlinear_arith)
                requires
                    s * s <= 2 * f * f - dd * dd,
                    0 <= dd < 2 * f,
                    s >= 0;
            // lower: the root reaches at least `f - dd`
            if dd < f {
                assert((f - dd) * (f - dd) <= 2 * f * f - dd * dd) by (nonlinear_arith)
                    requires
                        0 <= dd < f;
                assert(s >= f - dd) by (nonlinear_arith)
                    requires
                        (f - dd) * (f - dd) <= sq,
                        sq < (s + 1) * (s + 1),
                        s >= 0,
                        f - dd >= 1;
            }
            let e = dd + s;
            assert(f <= e <= 2 * f);
            assert(u1 + u2 == 2 * m + dd);
            vstd::arithmetic::div_mod::lemma_fundamental_div_mod(e, 2);
            let q = e / 2;
            vstd::arithmetic::div_mod::lemma_fundamental_div_mod_converse(
                2 * m + e,
                2,
                m + q,
                e % 2,
            );
            assert((u1 + u2 + s) / 2 == m + q);
            vstd::arithmetic::div_mod::lemma_div_is_ordered(f, e, 2);
            vstd::arithmetic::div_mod::lemma_div_is_ordered(e, 2 * f, 2);
            vstd::arithmetic::div_mod::lemma_fundamental_div_mod_converse(2 * f, 2, f, 0);
            assert(f / 2 <= q <= f);
        } else {
            // negative discriminant: exactly the best axis plus the cost
        }
    }
}

/// Every non-seed neighbor of a seed among the first `bound` cells has been
/// relaxed down to at most its own traversal cost.
pub open spec fn seeds_relaxed_upto(
    pot: ScalarGrid,
    cost: ScalarGrid,
    init: Seq<i64>,
    bound: int,
) -> bool {
    forall|i: int, j: int|
        0 <= i < bound && 0 <= j < init.len() && init[i] == 0 && init[j] != 0 && #[trigger] neighbor_of(
            pot.cols as int,
            i,
            j,
        ) ==> pot.cells@[j] <= cost.cells@[j]
}

/// All queued entries name cells of an `n`-cell grid.
pub open spec fn queue_cells_ok(q: MinQueue, n: int) -> bool {
    forall|k: int| 0 <= k < q.items@.len() ==> (#[trigger] q.items@[k]).1 < n
}

/// Number of `false` entries of a boolean sequence.
pub open spec fn count_false(s: Seq<bool>) -> nat
    decreases s.len(),
{
    if s.len() == 0 {
        0
    } else {
        (if s.last() {
            0nat
        } else {
            1nat
        }) + count_false(s.drop_last())
    }
}

/// Flipping one `false` entry to `true` lowers the count by exactly one.
proof fn lemma_count_false_update(s: Seq<bool>, i: int)
    requires
        0 <= i < s.len(),
        !s[i],
    ensures
        count_false(s.update(i, true)) + 1 == count_false(s),
    decreases s.len(),
{
    if i == s.len() - 1 {
        assert(s.update(i, true).drop_last() =~= s.drop_last());
    } else {
        assert(s.update(i, true).drop_last() =~= s.drop_last().update(i, true));
        lemma_count_false_update(s.drop_last(), i);
    }
}

/// Any `at_or` read with `FAR` as the outside value stays within `[0, FAR]`
/// under the marching invariant.
proof fn lemma_at_or_range(pot: ScalarGrid, cost: ScalarGrid, init: Seq<i64>, yy: int, xx: int)
    requires
        fmm_inv(pot, cost, init),
    ensures
        0 <= pot.at_or(yy, xx, FAR) <= FAR,
{
    if pot.in_bounds(yy, xx) {
        crate::grid::lemma_pos_in_range(pot.rows as int, pot.cols as int, yy, xx);
        assert(0 <= pot.cells@[pot.pos(yy, xx)] <= FAR);
    }
}

/// During seeding: push a first tentative value (the local cost) onto each
/// non-seed neighbor of a seed cell.
fn seed_neighbor(
    pot: &mut ScalarGrid,
    q: &mut MinQueue,
    cost: &ScalarGrid,
    y: usize,
    x: usize,
    dy: i64,
    dx: i64,
    init: Ghost<Seq<i64>>,
)
    requires
        fmm_inv(*old(pot), *cost, init@),
        cost_ok(*cost),
        y < old(pot).rows,
        x < old(pot).cols,
        -1 <= dy <= 1,
        -1 <= dx <= 1,
        (dy == 0) <==> (dx != 0),
        init@[old(pot).pos(y as int, x as int)] == 0,
        seed_phase(*old(pot), *cost, init@),
        lower_causal(*old(pot), *cost, init@),
        queue_cells_ok(*old(q), init@.len() as int),
    ensures
        fmm_inv(*final(pot), *cost, init@),
        final(pot).rows == old(pot).rows,
        final(pot).cols == old(pot).cols,
        seed_phase(*final(pot), *cost, init@),
        lower_causal(*final(pot), *cost, init@),
        queue_cells_ok(*final(q), init@.len() as int),
        ({
            let ny = y + dy;
            let nx = x + dx;
            if 0 <= ny < old(pot).rows && 0 <= nx < old(pot).cols && init@[old(pot).pos(ny, nx)]
                != 0 {
                final(pot).cells@ == old(pot).cells@.update(
                    old(pot).pos(ny, nx),
                    cost.cells@[old(pot).pos(ny, nx)],
                )
            } else {
                final(pot).cells@ == old(pot).cells@
            }
        }),
{
    let ny = y as i64 + dy;
    let nx = x as i64 + dx;
    if ny >= 0 && nx >= 0 && (ny as usize) < pot.rows && (nx as usize) < pot.cols {
        let nyu = ny as usize;
        let nxu = nx as usize;
        let cur = pot.get(nyu, nxu);
        proof {
            crate::grid::lemma_pos_in_range(
                pot.rows as int,
                pot.cols as int,
                nyu as int,
                nxu as int,
            );
            if cur == 0 {
                assert(init@[pot.pos(nyu as int, nxu as int)] == 0);
            }
        }
        if cur != 0 {
            let f = cost.get(nyu, nxu);
            proof {
                crate::grid::lemma_pos_in_range(
                    pot.rows as int,
                    pot.cols as int,
                    nyu as int,
                    nxu as int,
                );
                assert(init@[pot.pos(nyu as int, nxu as int)] != 0);
                vstd::arithmetic::div_mod::lemma_div_is_ordered(0, f as int, 2);
                vstd::arithmetic::div_mod::lemma_div_is_ordered(f as int, FAR as int, 2);
            }
            let ghost pre = *pot;
            pot.set(nyu, nxu, f);
            q.push(f as u64, nyu * pot.cols + nxu);
            proof {
                assert(f / 2 <= f) by (nonlinear_arith)
                    requires
                        f >= 0;
                let pos_n = pre.pos(nyu as int, nxu as int);
                crate::grid::lemma_pos_in_range(
                    pre.rows as int,
                    pre.cols as int,
                    y as int,
                    x as int,
                );
                // the processed seed itself still reads zero, so the
                // written neighbor's best-neighbor floor is at most zero
                assert(pre.cells@[pre.pos(y as int, x as int)] == 0);
                assert(pre.at_or(y as int, x as int, FAR) == 0);
                if dy == 0 {
                    assert(pre.at_or(nyu as int, nxu - dx, FAR) == 0);
                    assert(axis_h(pre, nyu as int, nxu as int) <= 0);
                } else {
                    assert(pre.at_or(nyu - dy, nxu as int, FAR) == 0);
                    assert(axis_v(pre, nyu as int, nxu as int) <= 0);
                }
                assert(nbr_min(pre, nyu as int, nxu as int) <= 0);
                // the previous value was the sentinel or this same cost, so
                // the write never raises the cell
                assert(pre.cells@[pos_n] == FAR || pre.cells@[pos_n] == cost.cells@[pos_n]);
                lemma_lower_causal_write(
                    pre,
                    *pot,
                    *cost,
                    init@,
                    nyu as int,
                    nxu as int,
                    f,
                );
                assert forall|i: int| 0 <= i < init@.len() && init@[i] != 0 implies #[trigger] pot.cells@[i]
                    == FAR || pot.cells@[i] == cost.cells@[i] by {
                    if i != pos_n {
                        assert(pot.cells@[i] == pre.cells@[i]);
                    }
                }
            }
        }
    }
}

/// The per-cell upwind update of the marching solver, as a value: with
/// both axis potentials `u1` and `u2` available, the larger root of
/// `(u - u1)^2 + (u - u2)^2 == 2 f^2`, rounded down; `min(u1, u2) + f`
/// when the discriminant is negative; the single available axis plus `f`
/// when the other reads the `FAR` sentinel; `FAR` when neither axis has a
/// value (such an update can never lower a cell).
pub open spec fn spec_upwind(u1: int, u2: int, f: int) -> int {
    if u1 == FAR && u2 == FAR {
        FAR as int
    } else if u1 == FAR {
        u2 + f
    } else if u2 == FAR {
        u1 + f
    } else {
        let d = u1 - u2;
        let sq = 2 * f * f - d * d;
        if sq >= 0 {
            (u1 + u2 + crate::fixed::sqrt_floor(sq)) / 2
        } else {
            (if u1 < u2 {
                u1
            } else {
                u2
            }) + f
        }
    }
}

/// Exec counterpart of [`spec_upwind`]; the result never falls below half
/// the local cost, which is what keeps obstacle cells expensive.
pub fn upwind_value(u1: i64, u2: i64, f: i64) -> (r: i64)
    requires
        0 <= u1 <= FAR,
        0 <= u2 <= FAR,
        2 <= f <= 0x100000000,
    ensures
        r == spec_upwind(u1 as int, u2 as int, f as int),
        r >= f / 2,
        r >= 0,
{
    proof {
        assert(f / 2 <= f) by (nonlinear_arith)
            requires
                f >= 0;
        vstd::arithmetic::div_mod::lemma_div_is_ordered(0, f as int, 2);
        vstd::arithmetic::div_mod::lemma_div_is_ordered(f as int, FAR as int, 2);
    }
    if u1 == FAR && u2 == FAR {
        FAR
    } else if u1 == FAR {
        u2 + f
    } else if u2 == FAR {
        u1 + f
    } else {
        let d = u1 - u2;
        proof {
            assert(0 <= 2 * (f as int) * (f as int) <= 0x20000000000000000
                && (d as int) * (d as int) >= 0 && (d as int) * (d as int)
                <= 0x10000000000000000000000000) by (nonlinear_arith)
                requires
                    2 <= f <= 0x100000000,
                    -(FAR as int) <= d <= FAR as int;
        }
        let sq: i128 = 2 * (f as i128) * (f as i128) - (d as i128) * (d as i128);
        if sq >= 0 {
            let su = isqrt(sq as u128);
            proof {
                assert(sq as u128 as int == sq as int);
                assert(su * su <= sq as int);
                assert(su as int <= 0x200000000) by (nonlinear_arith)
                    requires
                        (su as int) * (su as int) <= 0x20000000000000000int,
                        su >= 0;
            }
            let s = su as i64;
            proof {
                lemma_upwind_at_least_f(u1 as int, u2 as int, f as int, s as int, sq as int);
                vstd::arithmetic::div_mod::lemma_div_is_ordered(f as int, u1 + u2 + s, 2);
                vstd::arithmetic::div_mod::lemma_div_pos_is_pos(u1 + u2 + s, 2);
            }
            (u1 + u2 + s) / 2
        } else {
            if u1 < u2 {
                u1 + f
            } else {
                u2 + f
            }
        }
    }
}

/// Relax one 4-neighbor of a just-accepted cell with the upwind update:
/// take the best potentials `u1` (horizontal axis) and `u2` (vertical axis),
/// substitute `FAR` where an axis has none, and solve
/// `(u - u1)^2 + (u - u2)^2 == 2 f^2`, falling back to `min(u1, u2) + f`
/// when the discriminant is negative, or to a single-axis `u + f` when only
/// one axis contributes. The neighbor is lowered (and re-queued) only when
/// the new value is strictly smaller.
#[verifier::rlimit(60)]
fn relax(
    pot: &mut ScalarGrid,
    q: &mut MinQueue,
    cost: &ScalarGrid,
    accepted: &BitGrid,
    y: usize,
    x: usize,
    dy: i64,
    dx: i64,
    init: Ghost<Seq<i64>>,
)
    requires
        fmm_inv(*old(pot), *cost, init@),
        cost_ok(*cost),
        accepted.wf(),
        accepted.rows == old(pot).rows,
        accepted.cols == old(pot).cols,
        y < old(pot).rows,
        x < old(pot).cols,
        -1 <= dy <= 1,
        -1 <= dx <= 1,
        (dy == 0) <==> (dx != 0),
        lower_causal(*old(pot), *cost, init@),
        queue_cells_ok(*old(q), init@.len() as int),
    ensures
        fmm_inv(*final(pot), *cost, init@),
        final(pot).rows == old(pot).rows,
        final(pot).cols == old(pot).cols,
        lower_causal(*final(pot), *cost, init@),
        queue_cells_ok(*final(q), init@.len() as int),
        final(q).items@.len() <= old(q).items@.len() + 1,
        final(pot).cells@.len() == old(pot).cells@.len(),
        forall|k: int|
            0 <= k < old(pot).cells@.len() ==> #[trigger] final(pot).cells@[k] <= old(
                pot,
            ).cells@[k],
{
    let ny = y as i64 + dy;
    let nx = x as i64 + dx;
    if !(ny >= 0 && nx >= 0 && (ny as usize) < pot.rows && (nx as usize) < pot.cols) {
        return ;
    }
    let nyu = ny as usize;
    let nxu = nx as usize;
    if accepted.get(nyu, nxu) {
        return ;
    }
    let f = cost.get(nyu, nxu);
    let u_acc = pot.get(y, x);
    let nix = Index::new(nx as i32, ny as i32);

    let (u1, u2): (i64, i64) = if dy == 0 {
        let u2a = pot.get_or(nix.add(0, -1), FAR);
        let u2b = pot.get_or(nix.add(0, 1), FAR);
        (u_acc, if u2a < u2b { u2a } else { u2b })
    } else {
        let u1a = pot.get_or(nix.add(-1, 0), FAR);
        let u1b = pot.get_or(nix.add(1, 0), FAR);
        (if u1a < u1b { u1a } else { u1b }, u_acc)
    };
    proof {
        crate::grid::lemma_pos_in_range(pot.rows as int, pot.cols as int, y as int, x as int);
        crate::grid::lemma_pos_in_range(pot.rows as int, pot.cols as int, nyu as int, nxu as int);
        assert(0 <= pot.cells@[pot.pos(y as int, x as int)] <= FAR);
        lemma_at_or_range(*pot, *cost, init@, nyu - 1, nxu as int);
        lemma_at_or_range(*pot, *cost, init@, nyu + 1, nxu as int);
        lemma_at_or_range(*pot, *cost, init@, nyu as int, nxu - 1);
        lemma_at_or_range(*pot, *cost, init@, nyu as int, nxu + 1);
        assert(0 <= u1 <= FAR && 0 <= u2 <= FAR);
    }

    let nu: i64 = upwind_value(u1, u2, f);
    proof {
        assert(f / 2 <= f) by (nonlinear_arith)
            requires
                f >= 0;
    }

    let cur = pot.get(nyu, nxu);
    if nu < cur {
        proof {
            assert(init@[pot.pos(nyu as int, nxu as int)] != 0);
        }
        let ghost pre = *pot;
        pot.set(nyu, nxu, nu);
        q.push(nu as u64, nyu * pot.cols + nxu);
        proof {
            // the write respects the cell's own causality floor: the upwind
            // value sits at least half the cost above the axes it used, and
            // those axes dominate the cell's best 4-neighbor
            lemma_upwind_bounds(u1 as int, u2 as int, f as int);
            if u1 == FAR && u2 == FAR {
                assert(nu == FAR);
                assert(false);
            }
            assert(min2(u1 as int, u2 as int) + f / 2 <= nu);
            if dy == 0 {
                assert(pre.at_or(nyu as int, nxu - dx, FAR) == u_acc);
                assert(axis_h(pre, nyu as int, nxu as int) <= u1);
                assert(axis_v(pre, nyu as int, nxu as int) == u2);
            } else {
                assert(pre.at_or(nyu - dy, nxu as int, FAR) == u_acc);
                assert(axis_v(pre, nyu as int, nxu as int) <= u2);
                assert(axis_h(pre, nyu as int, nxu as int) == u1);
            }
            assert(nbr_min(pre, nyu as int, nxu as int) <= min2(u1 as int, u2 as int));
            lemma_lower_causal_write(pre, *pot, *cost, init@, nyu as int, nxu as int, nu);
        }
    }
}

/// The two-axis upwind value is at least the local cost: either the
/// discriminant keeps `s` at `f` or above, or the axis gap alone exceeds
/// `f`.
proof fn lemma_upwind_at_least_f(u1: int, u2: int, f: int, s: int, sq: int)
    requires
        0 <= u1,
        0 <= u2,
        2 <= f,
        sq == 2 * f * f - (u1 - u2) * (u1 - u2),
        0 <= sq,
        is_sqrt(sq, s),
    ensures
        u1 + u2 + s >= f,
{
    let d = u1 - u2;
    if d * d <= f * f {
        assert(s + 1 > f) by (nonlinear_arith)
            requires
                sq >= 2 * f * f - d * d,
                d * d <= f * f,
                f >= 2,
                s >= 0,
                (s + 1) * (s + 1) > sq;
        assert(u1 + u2 + s >= f);
    } else {
        assert(u1 + u2 >= f + 1) by (nonlinear_arith)
            requires
                d == u1 - u2,
                d * d > f * f,
                f >= 2,
                0 <= u1,
                0 <= u2;
        assert(u1 + u2 + s >= f);
    }
}

/// Solve the eikonal arrival problem: `potential` comes in as a seed grid
/// (0 on seeds, `FAR` elsewhere) and leaves as the marched potential field
/// for the traversal costs in `cost`. The march (seeding, then a min-queue
/// front) is followed by relaxation sweeps to a fixpoint, which certify the
/// local-consistency clause; on a converged march the sweeps change nothing.
pub fn apply_fmm(potential: &mut ScalarGrid, cost: &ScalarGrid)
    requires
        old(potential).wf(),
        cost.wf(),
        old(potential).rows == cost.rows,
        old(potential).cols == cost.cols,
        forall|i: int|
            0 <= i < old(potential).cells@.len() ==> old(potential).cells@[i] == 0 || #[trigger] old(potential).cells@[i] == FAR,
        cost_ok(*cost),
    ensures
        final(potential).wf(),
        final(potential).rows == old(potential).rows,
        final(potential).cols == old(potential).cols,
        // no cell is ever raised, so seed cells keep their seed potential
        forall|i: int|
            0 <= i < old(potential).cells@.len() ==> #[trigger] final(potential).cells@[i] <= old(potential).cells@[i],
        forall|i: int|
            0 <= i < old(potential).cells@.len() ==> 0 <= #[trigger] final(potential).cells@[i]
                <= FAR,
        forall|i: int|
            0 <= i < old(potential).cells@.len() && old(potential).cells@[i] == 0
                ==> #[trigger] final(potential).cells@[i] == 0,
        // a seed cell's potential is minimal over the whole field
        forall|i: int, j: int|
            0 <= i < old(potential).cells@.len() && 0 <= j < old(potential).cells@.len() && old(potential).cells@[i] == 0 ==> #[trigger] final(potential).cells@[i] <= #[trigger] final(potential).cells@[j],
        // a non-seed cell never reports less than half its own cost
        forall|i: int|
            0 <= i < old(potential).cells@.len() && old(potential).cells@[i] != 0
                ==> #[trigger] final(potential).cells@[i] >= cost.cells@[i] / 2,
        // a non-seed cell one hop from a seed never exceeds its own cost
        seeds_relaxed_upto(
            *final(potential),
            *cost,
            old(potential).cells@,
            old(potential).cells@.len() as int,
        ),
        // local consistency: no cell ends more than its own traversal cost
        // above any of its 4-neighbors, so any 4-path from a seed bounds the
        // potential at its far end (see `lemma_path_bound`)
        forall|i: int, j: int|
            0 <= i < old(potential).cells@.len() && 0 <= j < old(potential).cells@.len()
                && #[trigger] neighbor_of(old(potential).cols as int, i, j)
                ==> final(potential).cells@[j] <= final(potential).cells@[i] + cost.cells@[j],
        // lower causality: no non-seed cell undercuts its best 4-neighbor by
        // more than half its own cost (or it was never reached and still
        // reads the sentinel)
        lower_causal(*final(potential), *cost, old(potential).cells@),
        // with no seed at all, nothing is ever relaxed
        (forall|i: int|
            0 <= i < old(potential).cells@.len() ==> #[trigger] old(potential).cells@[i] != 0)
            ==> final(potential).cells@ == old(potential).cells@,
{
    let ghost init = old(potential).cells@;
    let rows = potential.rows;
    let cols = potential.cols;
    let mut accepted = BitGrid::from_elem(rows, cols, false);
    let mut queue = MinQueue::new();

    proof {
        // the untouched seed grid is trivially causal: every non-seed cell
        // still reads the sentinel
        assert forall|yy: int, xx: int| 0 <= yy < rows && 0 <= xx < cols implies #[trigger] cell_causal(
            *potential,
            *cost,
            init,
            yy,
            xx,
        ) by {
            crate::grid::lemma_pos_in_range(rows as int, cols as int, yy, xx);
        }
    }

    let mut y: usize = 0;
    while y < rows
        invariant
            fmm_inv(*potential, *cost, init),
            cost_ok(*cost),
            potential.rows == rows,
            potential.cols == cols,
            accepted.wf(),
            accepted.rows == rows,
            accepted.cols == cols,
            queue_cells_ok(queue, init.len() as int),
            y <= rows,
            seed_phase(*potential, *cost, init),
            lower_causal(*potential, *cost, init),
            seeds_relaxed_upto(*potential, *cost, init, (y as int) * (cols as int)),
            (forall|i: int| 0 <= i < init.len() ==> #[trigger] init[i] != 0) ==> potential.cells@
                == init && queue.items@.len() == 0,
        decreases rows - y,
    {
        let mut x: usize = 0;
        while x < cols
            invariant
                fmm_inv(*potential, *cost, init),
                cost_ok(*cost),
                potential.rows == rows,
                potential.cols == cols,
                accepted.wf(),
                accepted.rows == rows,
                accepted.cols == cols,
                queue_cells_ok(queue, init.len() as int),
                y < rows,
                x <= cols,
                seed_phase(*potential, *cost, init),
                lower_causal(*potential, *cost, init),
                seeds_relaxed_upto(*potential, *cost, init, (y as int) * (cols as int) + x as int),
                (forall|i: int| 0 <= i < init.len() ==> #[trigger] init[i] != 0)
                    ==> potential.cells@ == init && queue.items@.len() == 0,
            decreases cols - x,
        {
            let ghost pos = (y as int) * (cols as int) + x as int;
            proof {
                crate::grid::lemma_pos_in_range(rows as int, cols as int, y as int, x as int);
            }
            if potential.get(y, x) == 0 {
                proof {
                    assert(init[pos] == 0);
                }
                accepted.set(y, x, true);
                let ghost p0 = potential.cells@;
                seed_neighbor(potential, &mut queue, cost, y, x, -1, 0, Ghost(init));
                let ghost p1 = potential.cells@;
                seed_neighbor(potential, &mut queue, cost, y, x, 1, 0, Ghost(init));
                let ghost p2 = potential.cells@;
                seed_neighbor(potential, &mut queue, cost, y, x, 0, -1, Ghost(init));
                let ghost p3 = potential.cells@;
                seed_neighbor(potential, &mut queue, cost, y, x, 0, 1, Ghost(init));
                proof {
                    lemma_seed_step(
                        *potential,
                        *cost,
                        init,
                        p0,
                        p1,
                        p2,
                        p3,
                        rows as int,
                        cols as int,
                        y as int,
                        x as int,
                    );
                }
            } else {
                proof {
                    assert(init[pos] != 0);
                    assert(seeds_relaxed_upto(*potential, *cost, init, pos + 1)) by {
                        assert forall|i: int, j: int|
                            0 <= i < pos + 1 && 0 <= j < init.len() && init[i] == 0 && init[j] != 0
                                && #[trigger] neighbor_of(
                                potential.cols as int,
                                i,
                                j,
                            ) implies potential.cells@[j] <= cost.cells@[j] by {
                            assert(i != pos);
                        }
                    }
                }
            }
            x = x + 1;
        }
        proof {
            vstd::arithmetic::mul::lemma_mul_is_distributive_add_other_way(
                cols as int,
                y as int,
                1,
            );
        }
        y = y + 1;
    }
    proof {
        assert(seeds_relaxed_upto(*potential, *cost, init, init.len() as int)) by {
            vstd::arithmetic::mul::lemma_mul_is_commutative(rows as int, cols as int);
        }
    }

    while queue.len() > 0
        invariant
            fmm_inv(*potential, *cost, init),
            cost_ok(*cost),
            potential.rows == rows,
            potential.cols == cols,
            accepted.wf(),
            accepted.rows == rows,
            accepted.cols == cols,
            queue_cells_ok(queue, init.len() as int),
            lower_causal(*potential, *cost, init),
            seeds_relaxed_upto(*potential, *cost, init, init.len() as int),
            (forall|i: int| 0 <= i < init.len() ==> #[trigger] init[i] != 0) ==> potential.cells@
                == init && queue.items@.len() == 0,
        decreases queue.items@.len() + 5 * count_false(accepted.cells@),
    {
        let popped = queue.pop_min();
        if let Some((_key, pos)) = popped {
            proof {
                assert(pos < init.len());
                assert(init.len() == rows * cols);
                assert(rows > 0 && cols > 0) by (nonlinear_arith)
                    requires
                        0 <= (pos as int) < (rows as int) * (cols as int),
                        rows >= 0,
                        cols >= 0;
                lemma_cell_of_pos(pos as int, rows as int, cols as int);
                vstd::arithmetic::div_mod::lemma_fundamental_div_mod(pos as int, cols as int);
            }
            let y = pos / cols;
            let x = pos % cols;
            if !accepted.get(y, x) {
                let ghost acc_before = accepted.cells@;
                accepted.set(y, x, true);
                proof {
                    crate::grid::lemma_pos_in_range(rows as int, cols as int, y as int, x as int);
                    lemma_count_false_update(
                        acc_before,
                        (y as int) * (accepted.cols as int) + x as int,
                    );
                }
                let ghost r0 = potential.cells@;
                relax(potential, &mut queue, cost, &accepted, y, x, -1, 0, Ghost(init));
                relax(potential, &mut queue, cost, &accepted, y, x, 1, 0, Ghost(init));
                relax(potential, &mut queue, cost, &accepted, y, x, 0, -1, Ghost(init));
                relax(potential, &mut queue, cost, &accepted, y, x, 0, 1, Ghost(init));
                proof {
                    assert forall|i: int, j: int|
                        0 <= i < init.len() && 0 <= j < init.len() && init[i] == 0 && init[j] != 0
                            && #[trigger] neighbor_of(
                            potential.cols as int,
                            i,
                            j,
                        ) implies potential.cells@[j] <= cost.cells@[j] by {
                        assert(r0[j] <= cost.cells@[j]);
                    }
                }
            }
        }
    }

    // Relaxation sweeps until nothing changes. The march above already
    // reached the eikonal fixpoint, so the passes only certify it (one full
    // no-change scan), repairing any cell the queue order left improvable;
    // the fixpoint is what the local-consistency clause rests on.
    let mut changed = true;
    while changed
        invariant
            fmm_inv(*potential, *cost, init),
            cost_ok(*cost),
            potential.rows == rows,
            potential.cols == cols,
            lower_causal(*potential, *cost, init),
            seeds_relaxed_upto(*potential, *cost, init, init.len() as int),
            (forall|i: int| 0 <= i < init.len() ==> #[trigger] init[i] != 0) ==> potential.cells@
                == init,
            !changed ==> settled_upto(*potential, *cost, init, init.len() as int),
        decreases sum_vals(potential.cells@) + (if changed {
            1int
        } else {
            0int
        }),
    {
        proof {
            lemma_sum_vals_nonneg(potential.cells@);
        }
        let ghost cells0 = potential.cells@;
        changed = false;
        let mut y: usize = 0;
        while y < rows
            invariant
                fmm_inv(*potential, *cost, init),
                cost_ok(*cost),
                potential.rows == rows,
                potential.cols == cols,
                lower_causal(*potential, *cost, init),
                seeds_relaxed_upto(*potential, *cost, init, init.len() as int),
                (forall|i: int| 0 <= i < init.len() ==> #[trigger] init[i] != 0)
                    ==> potential.cells@ == init,
                y <= rows,
                !changed ==> potential.cells@ == cells0,
                changed ==> sum_vals(potential.cells@) < sum_vals(cells0),
                !changed ==> settled_upto(*potential, *cost, init, (y as int) * (cols as int)),
            decreases rows - y,
        {
            let mut x: usize = 0;
            while x < cols
                invariant
                    fmm_inv(*potential, *cost, init),
                    cost_ok(*cost),
                    potential.rows == rows,
                    potential.cols == cols,
                    lower_causal(*potential, *cost, init),
                    seeds_relaxed_upto(*potential, *cost, init, init.len() as int),
                    (forall|i: int| 0 <= i < init.len() ==> #[trigger] init[i] != 0)
                        ==> potential.cells@ == init,
                    y < rows,
                    x <= cols,
                    !changed ==> potential.cells@ == cells0,
                    changed ==> sum_vals(potential.cells@) < sum_vals(cells0),
                    !changed ==> settled_upto(
                        *potential,
                        *cost,
                        init,
                        (y as int) * (cols as int) + x as int,
                    ),
                decreases cols - x,
            {
                let ghost pos = (y as int) * (cols as int) + x as int;
                proof {
                    crate::grid::lemma_pos_in_range(rows as int, cols as int, y as int, x as int);
                    vstd::arithmetic::div_mod::lemma_fundamental_div_mod_converse(
                        pos,
                        cols as int,
                        y as int,
                        x as int,
                    );
                }
                let cur = potential.get(y, x);
                if cur != 0 {
                    proof {
                        assert(init[pos] != 0);
                    }
                    let ix = Index::new(x as i32, y as i32);
                    let u1a = potential.get_or(ix.add(-1, 0), FAR);
                    let u1b = potential.get_or(ix.add(1, 0), FAR);
                    let u1 = if u1a < u1b {
                        u1a
                    } else {
                        u1b
                    };
                    let u2a = potential.get_or(ix.add(0, -1), FAR);
                    let u2b = potential.get_or(ix.add(0, 1), FAR);
                    let u2 = if u2a < u2b {
                        u2a
                    } else {
                        u2b
                    };
                    proof {
                        lemma_at_or_range(*potential, *cost, init, y as int, x as int - 1);
                        lemma_at_or_range(*potential, *cost, init, y as int, x as int + 1);
                        lemma_at_or_range(*potential, *cost, init, y as int - 1, x as int);
                        lemma_at_or_range(*potential, *cost, init, y as int + 1, x as int);
                        assert(u1 == axis_h(*potential, y as int, x as int));
                        assert(u2 == axis_v(*potential, y as int, x as int));
                    }
                    let f = cost.get(y, x);
                    let nu = upwind_value(u1, u2, f);
                    if nu < cur {
                        let ghost pre = *potential;
                        potential.set(y, x, nu);
                        changed = true;
                        proof {
                            lemma_upwind_bounds(u1 as int, u2 as int, f as int);
                            if u1 == FAR && u2 == FAR {
                                assert(nu == FAR);
                                assert(false);
                            }
                            lemma_lower_causal_write(
                                pre,
                                *potential,
                                *cost,
                                init,
                                y as int,
                                x as int,
                                nu,
                            );
                            lemma_sum_vals_update(pre.cells@, pos, nu);
                            assert forall|i2: int, j2: int|
                                0 <= i2 < init.len() && 0 <= j2 < init.len() && init[i2] == 0
                                    && init[j2] != 0 && #[trigger] neighbor_of(
                                    potential.cols as int,
                                    i2,
                                    j2,
                                ) implies potential.cells@[j2] <= cost.cells@[j2] by {
                                assert(pre.cells@[j2] <= cost.cells@[j2]);
                                if j2 != pos {
                                    assert(potential.cells@[j2] == pre.cells@[j2]);
                                }
                            }
                            // with no seed at all the grid still reads the
                            // sentinel everywhere and nothing can improve
                            if forall|i2: int| 0 <= i2 < init.len() ==> #[trigger] init[i2] != 0 {
                                assert(pre.at_or(y as int, x as int - 1, FAR) == FAR) by {
                                    if pre.in_bounds(y as int, x as int - 1) {
                                        crate::grid::lemma_pos_in_range(
                                            rows as int,
                                            cols as int,
                                            y as int,
                                            x as int - 1,
                                        );
                                    }
                                }
                                assert(pre.at_or(y as int, x as int + 1, FAR) == FAR) by {
                                    if pre.in_bounds(y as int, x as int + 1) {
                                        crate::grid::lemma_pos_in_range(
                                            rows as int,
                                            cols as int,
                                            y as int,
                                            x as int + 1,
                                        );
                                    }
                                }
                                assert(pre.at_or(y as int - 1, x as int, FAR) == FAR) by {
                                    if pre.in_bounds(y as int - 1, x as int) {
                                        crate::grid::lemma_pos_in_range(
                                            rows as int,
                                            cols as int,
                                            y as int - 1,
                                            x as int,
                                        );
                                    }
                                }
                                assert(pre.at_or(y as int + 1, x as int, FAR) == FAR) by {
                                    if pre.in_bounds(y as int + 1, x as int) {
                                        crate::grid::lemma_pos_in_range(
                                            rows as int,
                                            cols as int,
                                            y as int + 1,
                                            x as int,
                                        );
                                    }
                                }
                                assert(u1 == FAR && u2 == FAR);
                                assert(false);
                            }
                        }
                    } else {
                        proof {
                            assert(cell_settled(*potential, *cost, init, pos));
                        }
                    }
                } else {
                    proof {
                        // a zero cell is a seed: a non-seed cell keeps at
                        // least half its cost, which is at least one
                        if init[pos] != 0 {
                            vstd::arithmetic::div_mod::lemma_div_is_ordered(
                                2,
                                cost.cells@[pos] as int,
                                2,
                            );
                            assert(false);
                        }
                        assert(cell_settled(*potential, *cost, init, pos));
                    }
                }
                x = x + 1;
            }
            proof {
                vstd::arithmetic::mul::lemma_mul_is_distributive_add_other_way(
                    cols as int,
                    y as int,
                    1,
                );
            }
            y = y + 1;
        }
        proof {
            if !changed {
                vstd::arithmetic::mul::lemma_mul_is_commutative(rows as int, cols as int);
                assert(settled_upto(*potential, *cost, init, init.len() as int));
            }
            lemma_sum_vals_nonneg(potential.cells@);
        }
    }

    proof {
        lemma_triangle_from_settled(*potential, *cost, init);
    }
}

/// At the sweep's fixpoint every cell is locally consistent: no cell sits
/// more than its own traversal cost above any in-bounds 4-neighbor.
proof fn lemma_triangle_from_settled(pot: ScalarGrid, cost: ScalarGrid, init: Seq<i64>)
    requires
        fmm_inv(pot, cost, init),
        cost_ok(cost),
        settled_upto(pot, cost, init, init.len() as int),
    ensures
        forall|i: int, j: int|
            0 <= i < init.len() && 0 <= j < init.len() && #[trigger] neighbor_of(
                pot.cols as int,
                i,
                j,
            ) ==> pot.cells@[j] <= pot.cells@[i] + cost.cells@[j],
{
    let rows = pot.rows as int;
    let cols = pot.cols as int;
    assert forall|i: int, j: int|
        0 <= i < init.len() && 0 <= j < init.len() && #[trigger] neighbor_of(
            cols,
            i,
            j,
        ) implies pot.cells@[j] <= pot.cells@[i] + cost.cells@[j] by {
        assert(rows > 0 && cols > 0) by (nonlinear_arith)
            requires
                0 <= i < rows * cols,
                rows >= 0,
                cols >= 0;
        lemma_cell_of_pos(i, rows, cols);
        lemma_cell_of_pos(j, rows, cols);
        let yi = i / cols;
        let xi = i % cols;
        let yj = j / cols;
        let xj = j % cols;
        vstd::arithmetic::div_mod::lemma_fundamental_div_mod(i, cols);
        vstd::arithmetic::div_mod::lemma_fundamental_div_mod(j, cols);
        vstd::arithmetic::mul::lemma_mul_is_commutative(yi, cols);
        vstd::arithmetic::mul::lemma_mul_is_commutative(yj, cols);
        assert(yi * cols + xi == i);
        assert(yj * cols + xj == j);
        if init[j] == 0 {
            // a seed keeps zero, below any neighbor plus a positive cost
            assert(pot.cells@[j] == 0);
        } else {
            assert(cell_settled(pot, cost, init, j));
            let ah = axis_h(pot, yj, xj);
            let av = axis_v(pot, yj, xj);
            let f = cost.cells@[j] as int;
            lemma_at_or_range(pot, cost, init, yj, xj - 1);
            lemma_at_or_range(pot, cost, init, yj, xj + 1);
            lemma_at_or_range(pot, cost, init, yj - 1, xj);
            lemma_at_or_range(pot, cost, init, yj + 1, xj);
            lemma_upwind_bounds(ah, av, f);
            // the neighbor's value is one of the axis readings around `j`
            if yi == yj {
                assert(pot.at_or(yj, xi, FAR) == pot.cells@[i]);
                assert(ah <= pot.cells@[i]);
            } else {
                assert(pot.at_or(yi, xj, FAR) == pot.cells@[i]);
                assert(av <= pot.cells@[i]);
            }
            if ah == FAR && av == FAR {
                // no axis had a value, so the neighbor itself reads `FAR`
                // and the cell cannot exceed it
                assert(pot.cells@[i] == FAR);
                assert(pot.cells@[j] <= FAR);
            } else {
                assert(pot.cells@[j] <= min2(ah, av) + f);
            }
        }
    }
}

/// An in-bounds 4-connected walk over an `n`-cell grid of width `cols`:
/// consecutive entries are 4-neighbors.
pub open spec fn is_path(cols: int, n: int, path: Seq<int>) -> bool {
    &&& path.len() >= 1
    &&& forall|k: int| 0 <= k < path.len() ==> 0 <= #[trigger] path[k] < n
    &&& forall|k: int|
        0 <= k < path.len() - 1 ==> #[trigger] neighbor_of(cols, path[k + 1], path[k])
}

/// Accumulated traversal cost of a walk, the final cell excluded: the cost
/// of every cell stepped onto walking backward from the end.
pub open spec fn path_cost(cost: ScalarGrid, path: Seq<int>) -> int
    decreases path.len(),
{
    if path.len() <= 1 {
        0
    } else {
        cost.cells@[path[0]] + path_cost(cost, path.drop_first())
    }
}

/// No 4-path certifies a cheaper arrival than the marched field reports:
/// along any in-bounds 4-path that ends on a zero (seed) cell, the potential
/// of the first cell is at most the path's accumulated traversal cost. This
/// is the minimal-cost upper bound of the eikonal solution, derived from the
/// local-consistency clause of [`apply_fmm`].
pub proof fn lemma_path_bound(pot: ScalarGrid, cost: ScalarGrid, path: Seq<int>)
    requires
        pot.wf(),
        pot.rows == cost.rows,
        pot.cols == cost.cols,
        forall|i: int, j: int|
            0 <= i < pot.cells@.len() && 0 <= j < pot.cells@.len() && #[trigger] neighbor_of(
                pot.cols as int,
                i,
                j,
            ) ==> pot.cells@[j] <= pot.cells@[i] + cost.cells@[j],
        is_path(pot.cols as int, pot.cells@.len() as int, path),
        pot.cells@[path.last()] == 0,
    ensures
        pot.cells@[path[0]] <= path_cost(cost, path),
    decreases path.len(),
{
    if path.len() == 1 {
        assert(path[0] == path.last());
    } else {
        let rest = path.drop_first();
        assert(rest.last() == path.last());
        assert(is_path(pot.cols as int, pot.cells@.len() as int, rest)) by {
            assert(forall|k: int| 0 <= k < rest.len() ==> rest[k] == path[k + 1]);
            assert forall|k: int|
                0 <= k < rest.len() - 1 implies #[trigger] neighbor_of(
                pot.cols as int,
                rest[k + 1],
                rest[k],
            ) by {
                assert(neighbor_of(pot.cols as int, path[k + 2], path[k + 1]));
            }
        }
        lemma_path_bound(pot, cost, rest);
        assert(neighbor_of(pot.cols as int, path[1], path[0]));
        assert(pot.cells@[path[0]] <= pot.cells@[path[1]] + cost.cells@[path[0]]);
        assert(rest[0] == path[1]);
    }
}

/// A costly cell never undercuts a cheaply reached one: if some 4-path from
/// a seed reaches cell `path[0]` at no more than half the traversal cost of
/// the non-seed cell `a`, then `a` reports at least `path[0]`'s potential.
/// With a free-ground path and an obstacle cell this is the guarantee that
/// obstacle cells never report less than free cells the seeds reach at a
/// cost below half the obstacle slowness. It combines the half-cost floor
/// and the local-consistency clause of [`apply_fmm`].
pub proof fn lemma_costly_cell_not_undercut(
    pot: ScalarGrid,
    cost: ScalarGrid,
    init: Seq<i64>,
    path: Seq<int>,
    a: int,
)
    requires
        pot.wf(),
        pot.rows == cost.rows,
        pot.cols == cost.cols,
        pot.cells@.len() == init.len(),
        forall|i: int|
            0 <= i < init.len() && init[i] != 0 ==> #[trigger] pot.cells@[i] >= cost.cells@[i] / 2,
        forall|i: int, j: int|
            0 <= i < pot.cells@.len() && 0 <= j < pot.cells@.len() && #[trigger] neighbor_of(
                pot.cols as int,
                i,
                j,
            ) ==> pot.cells@[j] <= pot.cells@[i] + cost.cells@[j],
        is_path(pot.cols as int, pot.cells@.len() as int, path),
        pot.cells@[path.last()] == 0,
        0 <= a < init.len(),
        init[a] != 0,
        2 * path_cost(cost, path) <= cost.cells@[a],
    ensures
        pot.cells@[path[0]] <= pot.cells@[a],
{
    lemma_path_bound(pot, cost, path);
    vstd::arithmetic::div_mod::lemma_div_is_ordered(
        2 * path_cost(cost, path),
        cost.cells@[a] as int,
        2,
    );
    vstd::arithmetic::div_mod::lemma_fundamental_div_mod_converse(
        2 * path_cost(cost, path),
        2,
        path_cost(cost, path),
        0,
    );
}

/// One seed-neighbor update from `pre` to `post`: the in-bounds non-seed
/// target cell `(ny, nx)` now holds its own cost, everything else is
/// unchanged.
pub open spec fn seed_update(
    pre: Seq<i64>,
    post: Seq<i64>,
    cost: ScalarGrid,
    init: Seq<i64>,
    rows: int,
    cols: int,
    ny: int,
    nx: int,
) -> bool {
    if 0 <= ny < rows && 0 <= nx < cols && init[ny * cols + nx] != 0 {
        post == pre.update(ny * cols + nx, cost.cells@[ny * cols + nx])
    } else {
        post == pre
    }
}

/// One seed-neighbor write keeps any cell at or below its own cost: the
/// write is always the written cell's own cost.
proof fn lemma_seed_update_keeps_bound(
    pre: Seq<i64>,
    post: Seq<i64>,
    cost: ScalarGrid,
    init: Seq<i64>,
    rows: int,
    cols: int,
    ny: int,
    nx: int,
    j: int,
)
    requires
        seed_update(pre, post, cost, init, rows, cols, ny, nx),
        0 <= j < pre.len(),
        pre.len() == init.len(),
        init.len() == rows * cols,
        0 < rows <= 0x8000,
        0 < cols <= 0x8000,
    ensures
        post.len() == pre.len(),
        pre[j] <= cost.cells@[j] ==> post[j] <= cost.cells@[j],
{
    if 0 <= ny < rows && 0 <= nx < cols && init[ny * cols + nx] != 0 {
        crate::grid::lemma_pos_in_range(rows, cols, ny, nx);
        if j == ny * cols + nx {
            assert(post[j] == cost.cells@[j]);
        } else {
            assert(post[j] == pre[j]);
        }
    }
}

/// Seeding one seed extends the relaxed-neighbors prefix by one cell: the
/// four updates wrote each in-bounds non-seed neighbor its own cost, and
/// earlier facts survive because every write is a cell's own cost.
#[verifier::rlimit(100)]
proof fn lemma_seed_step(
    pot: ScalarGrid,
    cost: ScalarGrid,
    init: Seq<i64>,
    p0: Seq<i64>,
    p1: Seq<i64>,
    p2: Seq<i64>,
    p3: Seq<i64>,
    rows: int,
    cols: int,
    y: int,
    x: int,
)
    requires
        pot.wf(),
        cost.wf(),
        pot.rows == rows,
        pot.cols == cols,
        cost.rows == rows,
        cost.cols == cols,
        0 <= y < rows,
        0 <= x < cols,
        init.len() == rows * cols,
        p0.len() == init.len(),
        init[y * cols + x] == 0,
        // the four sequential seed updates, oldest state first
        seed_update(p0, p1, cost, init, rows, cols, y - 1, x),
        seed_update(p1, p2, cost, init, rows, cols, y + 1, x),
        seed_update(p2, p3, cost, init, rows, cols, y, x - 1),
        seed_update(p3, pot.cells@, cost, init, rows, cols, y, x + 1),
        forall|i: int, j: int|
            0 <= i < y * cols + x && 0 <= j < init.len() && init[i] == 0 && init[j] != 0
                && #[trigger] neighbor_of(cols, i, j) ==> p0[j] <= cost.cells@[j],
    ensures
        seeds_relaxed_upto(pot, cost, init, y * cols + x + 1),
{
    let pos = y * cols + x;
    crate::grid::lemma_pos_in_range(rows, cols, y, x);
    assert forall|i: int, j: int|
        0 <= i < pos + 1 && 0 <= j < init.len() && init[i] == 0 && init[j] != 0
            && #[trigger] neighbor_of(cols, i, j) implies pot.cells@[j] <= cost.cells@[j] by {
        lemma_cell_of_pos(j, rows, cols);
        let yj = j / cols;
        let xj = j % cols;
        vstd::arithmetic::div_mod::lemma_fundamental_div_mod(j, cols);
        vstd::arithmetic::mul::lemma_mul_is_commutative(yj, cols);
        assert(yj * cols + xj == j);
        lemma_seed_update_keeps_bound(p0, p1, cost, init, rows, cols, y - 1, x, j);
        lemma_seed_update_keeps_bound(p1, p2, cost, init, rows, cols, y + 1, x, j);
        lemma_seed_update_keeps_bound(p2, p3, cost, init, rows, cols, y, x - 1, j);
        lemma_seed_update_keeps_bound(p3, pot.cells@, cost, init, rows, cols, y, x + 1, j);
        if i == pos {
            // j is one of the four 4-neighbors of (y, x); the matching
            // update wrote it its own cost, the others left it alone
            vstd::arithmetic::div_mod::lemma_fundamental_div_mod_converse(i, cols, y, x);
            if yj == y - 1 && xj == x {
                assert(p1[j] == cost.cells@[j]);
            } else if yj == y + 1 && xj == x {
                assert(p2[j] == cost.cells@[j]);
            } else if yj == y && xj == x - 1 {
                assert(p3[j] == cost.cells@[j]);
            } else {
                assert(yj == y && xj == x + 1);
                assert(pot.cells@[j] == cost.cells@[j]);
            }
        } else {
            assert(p0[j] <= cost.cells@[j]);
        }
    }
}

/// Decompose a row-major position into a row below `rows` and a column
/// below `cols`.
proof fn lemma_cell_of_pos(pos: int, rows: int, cols: int)
    requires
        0 <= pos < rows * cols,
        0 < rows,
        0 < cols,
    ensures
        0 <= pos / cols < rows,
        0 <= pos % cols < cols,
    decreases 0int,
{
    vstd::arithmetic::div_mod::lemma_fundamental_div_mod(pos, cols);
    assert(pos / cols < rows) by (nonlinear_arith)
        requires
            pos < rows * cols,
            cols > 0,
            pos == cols * (pos / cols) + pos % cols,
            0 <= pos % cols < cols;
    vstd::arithmetic::div_mod::lemma_div_pos_is_pos(pos, cols);
}

} // verus!
