//! Uniform spatial hash over pedestrian positions, rebuilt every tick. Each
//! cell is a `ThinVec` bucket from the `thin-vec` crate, held behind trusted
//! wrappers whose contracts speak of the named bucket contents.
//!
//! The rebuild contract carries the completeness law: after an update,
//! every in-grid pedestrian index appears exactly once, in exactly the cell
//! `floor(position / unit)`, and nowhere else.

use vstd::prelude::*;

use crate::fixed::div_floor;
use crate::grid::MAX_DIM;
use crate::util::Vec2Fx;

verus! {

#[verifier::external_type_specification]
#[verifier::external_body]
#[verifier::reject_recursive_types(T)]
pub struct ExThinVec<T>(thin_vec::ThinVec<T>);

/// The elements a bucket holds, in insertion order.
pub uninterp spec fn bucket_contents(v: thin_vec::ThinVec<u32>) -> Seq<u32>;

/// Relies on `thin_vec::ThinVec::new`: a fresh bucket is empty.
#[verifier::external_body]
fn bucket_new() -> (r: thin_vec::ThinVec<u32>)
    ensures
        bucket_contents(r) == Seq::<u32>::empty(),
{
    thin_vec::ThinVec::new()
}

/// Relies on `thin_vec::ThinVec::push`: appends one element at the back of
/// the bucket at `idx`, leaving every other bucket untouched.
#[verifier::external_body]
fn bucket_push_at(data: &mut Vec<thin_vec::ThinVec<u32>>, idx: usize, e: u32)
    requires
        idx < old(data)@.len(),
    ensures
        final(data)@.len() == old(data)@.len(),
        bucket_contents(final(data)@[idx as int]) == bucket_contents(
            old(data)@[idx as int],
        ).push(e),
        forall|j: int|
            0 <= j < old(data)@.len() && j != idx ==> final(data)@[j] == old(data)@[j],
{
    data[idx].push(e);
}

/// Relies on `thin_vec::ThinVec::len`.
#[verifier::external_body]
pub fn bucket_len(v: &thin_vec::ThinVec<u32>) -> (r: usize)
    ensures
        r == bucket_contents(*v).len(),
{
    v.len()
}

/// Relies on `thin_vec::ThinVec`'s indexing: the element at `i`, which is
/// in range, so the indexing cannot panic.
#[verifier::external_body]
pub fn bucket_get(v: &thin_vec::ThinVec<u32>, i: usize) -> (r: u32)
    requires
        i < bucket_contents(*v).len(),
    ensures
        r == bucket_contents(*v)[i as int],
{
    v[i]
}

/// The buckets' contents flattened in cell order: the permutation a device
/// dispatch walks when pedestrians are grouped by cell.
pub open spec fn flat_buckets(data: Seq<thin_vec::ThinVec<u32>>, k: int) -> Seq<u32>
    decreases k,
{
    if k <= 0 {
        Seq::empty()
    } else {
        flat_buckets(data, k - 1) + bucket_contents(data[k - 1])
    }
}

/// How many times `v` occurs in `s`.
pub open spec fn count_in(s: Seq<u32>, v: u32) -> nat
    decreases s.len(),
{
    if s.len() == 0 {
        0
    } else {
        count_in(s.drop_last(), v) + (if s.last() == v {
            1nat
        } else {
            0nat
        })
    }
}

/// Pushing an element raises exactly its own count by one.
pub proof fn lemma_count_push(s: Seq<u32>, e: u32, v: u32)
    ensures
        count_in(s.push(e), v) == count_in(s, v) + (if e == v {
            1nat
        } else {
            0nat
        }),
{
    assert(s.push(e).drop_last() =~= s);
}

/// The spatial hash: bucket `(y, x)` holds the indices of the pedestrians
/// whose position falls in that cell, in row-major order `x + y * cols`.
pub struct NeighborGrid {
    pub data: Vec<thin_vec::ThinVec<u32>>,
    pub unit: i64,
    pub shape: (usize, usize),
}

impl NeighborGrid {
    pub open spec fn wf(self) -> bool {
        &&& 1 <= self.unit <= 0x100000
        &&& 1 <= self.shape.0 <= MAX_DIM
        &&& 1 <= self.shape.1 <= MAX_DIM
        &&& self.data@.len() == self.shape.0 * self.shape.1
    }

    /// The grid cell of a position: floor of the coordinates over `unit`.
    pub open spec fn cell_of(self, p: Vec2Fx) -> (int, int) {
        ((p.y as int) / (self.unit as int), (p.x as int) / (self.unit as int))
    }

    /// Whether a position's cell lies inside the grid.
    pub open spec fn pos_in_grid(self, p: Vec2Fx) -> bool {
        let c = self.cell_of(p);
        0 <= c.0 < self.shape.0 && 0 <= c.1 < self.shape.1
    }

    /// Row-major bucket position of a world position's cell.
    pub open spec fn bucket_of(self, p: Vec2Fx) -> int {
        let c = self.cell_of(p);
        c.0 * self.shape.1 + c.1
    }

    /// The bucket layout a rebuild establishes: every bucket entry names a
    /// pedestrian that is kept (per `keep`) and whose position hashes to
    /// that bucket, and every kept in-grid pedestrian is in its own bucket
    /// exactly once.
    pub open spec fn complete_for(self, positions: Seq<Vec2Fx>, keep: Seq<bool>) -> bool {
        &&& forall|c: int, j: int|
            #![trigger bucket_contents(self.data@[c])[j]]
            0 <= c < self.data@.len() && 0 <= j < bucket_contents(self.data@[c]).len() ==> ({
                let v = bucket_contents(self.data@[c])[j];
                &&& v < positions.len()
                &&& keep[v as int]
                &&& self.pos_in_grid(positions[v as int])
                &&& self.bucket_of(positions[v as int]) == c
            })
        &&& forall|i: int, c: int|
            #![trigger count_in(bucket_contents(self.data@[c]), i as u32)]
            0 <= i < positions.len() && 0 <= c < self.data@.len() ==> count_in(
                bucket_contents(self.data@[c]),
                i as u32,
            ) == (if keep[i] && self.pos_in_grid(positions[i]) && self.bucket_of(positions[i])
                == c {
                1nat
            } else {
                0nat
            })
    }

    /// An empty grid covering a `size.x` by `size.y` world rectangle with
    /// `unit`-sized cells, rounded up to whole cells.
    pub fn new(size: Vec2Fx, unit: i64) -> (r: NeighborGrid)
        requires
            1 <= unit <= 0x100000,
            1 <= size.x <= 0x8000 * unit,
            1 <= size.y <= 0x8000 * unit,
        ensures
            r.wf(),
            r.unit == unit,
            r.shape.0 == (size.y + unit - 1) as int / unit as int,
            r.shape.1 == (size.x + unit - 1) as int / unit as int,
            forall|c: int|
                0 <= c < r.data@.len() ==> bucket_contents(#[trigger] r.data@[c])
                    == Seq::<u32>::empty(),
    {
        proof {
            lemma_axis_cells(size.x as int, unit as int);
            lemma_axis_cells(size.y as int, unit as int);
        }
        let rows = div_floor(size.y + unit - 1, unit) as usize;
        let cols = div_floor(size.x + unit - 1, unit) as usize;
        proof {
            assert(rows * cols <= 0x40000000) by (nonlinear_arith)
                requires
                    rows <= 0x8000,
                    cols <= 0x8000;
        }
        let n = rows * cols;
        let mut data: Vec<thin_vec::ThinVec<u32>> = Vec::new();
        let mut i: usize = 0;
        while i < n
            invariant
                i <= n,
                data@.len() == i,
                forall|c: int|
                    0 <= c < i ==> bucket_contents(#[trigger] data@[c]) == Seq::<u32>::empty(),
            decreases n - i,
        {
            data.push(bucket_new());
            i = i + 1;
        }
        NeighborGrid { data, unit, shape: (rows, cols) }
    }

    /// Rebuild the hash from scratch for the given positions. After the
    /// call the grid is complete: every index with an in-grid position sits
    /// exactly once in the bucket `floor(position / unit)`, and indices
    /// whose position falls outside the grid sit nowhere.
    pub fn update(&mut self, positions: &Vec<Vec2Fx>)
        requires
            old(self).wf(),
            positions@.len() <= 0xffffffff,
            forall|i: int| 0 <= i < positions@.len() ==> (#[trigger] positions@[i]).bounded(),
        ensures
            final(self).wf(),
            final(self).unit == old(self).unit,
            final(self).shape == old(self).shape,
            final(self).complete_for(
                positions@,
                Seq::new(positions@.len(), |i: int| true),
            ),
    {
        self.rebuild(positions, None);
    }

    /// Rebuild the hash from the active pedestrians only: indices whose
    /// `actives` flag is false sit in no bucket.
    pub fn update_only_active(&mut self, positions: &Vec<Vec2Fx>, actives: &Vec<bool>)
        requires
            old(self).wf(),
            positions@.len() <= 0xffffffff,
            actives@.len() == positions@.len(),
            forall|i: int| 0 <= i < positions@.len() ==> (#[trigger] positions@[i]).bounded(),
        ensures
            final(self).wf(),
            final(self).unit == old(self).unit,
            final(self).shape == old(self).shape,
            final(self).complete_for(positions@, actives@),
    {
        self.rebuild(positions, Some(actives));
    }

    /// Shared rebuild: clear every bucket, then hash each (kept) position.
    fn rebuild(&mut self, positions: &Vec<Vec2Fx>, actives: Option<&Vec<bool>>)
        requires
            old(self).wf(),
            positions@.len() <= 0xffffffff,
            match actives {
                Some(a) => a@.len() == positions@.len(),
                None => true,
            },
            forall|i: int| 0 <= i < positions@.len() ==> (#[trigger] positions@[i]).bounded(),
        ensures
            final(self).wf(),
            final(self).unit == old(self).unit,
            final(self).shape == old(self).shape,
            final(self).complete_for(
                positions@,
                match actives {
                    Some(a) => a@,
                    None => Seq::new(positions@.len(), |i: int| true),
                },
            ),
    {
        let ghost keep = match actives {
            Some(a) => a@,
            None => Seq::new(positions@.len(), |i: int| true),
        };
        let n_cells = self.data.len();
        let mut c: usize = 0;
        while c < n_cells
            invariant
                self.wf(),
                self.unit == old(self).unit,
                self.shape == old(self).shape,
                n_cells == self.data@.len(),
                c <= n_cells,
                forall|k: int|
                    0 <= k < c ==> bucket_contents(#[trigger] self.data@[k])
                        == Seq::<u32>::empty(),
            decreases n_cells - c,
        {
            self.data.set(c, bucket_new());
            c = c + 1;
        }

        let n = positions.len();
        let mut i: usize = 0;
        while i < n
            invariant
                self.wf(),
                self.unit == old(self).unit,
                self.shape == old(self).shape,
                n == positions@.len(),
                n <= 0xffffffff,
                i <= n,
                keep.len() == n,
                match actives {
                    Some(a) => keep == a@,
                    None => keep == Seq::new(positions@.len(), |k: int| true),
                },
                forall|k: int| 0 <= k < n ==> (#[trigger] positions@[k]).bounded(),
                forall|c: int, j: int|
                    #![trigger bucket_contents(self.data@[c])[j]]
                    0 <= c < self.data@.len() && 0 <= j < bucket_contents(self.data@[c]).len()
                        ==> ({
                        let v = bucket_contents(self.data@[c])[j];
                        &&& v < i
                        &&& keep[v as int]
                        &&& self.pos_in_grid(positions@[v as int])
                        &&& self.bucket_of(positions@[v as int]) == c
                    }),
                forall|v: int, c: int|
                    #![trigger count_in(bucket_contents(self.data@[c]), v as u32)]
                    0 <= v < n && 0 <= c < self.data@.len() ==> count_in(
                        bucket_contents(self.data@[c]),
                        v as u32,
                    ) == (if v < i && keep[v] && self.pos_in_grid(positions@[v])
                        && self.bucket_of(positions@[v]) == c {
                        1nat
                    } else {
                        0nat
                    }),
            decreases n - i,
        {
            let keep_i = match actives {
                Some(a) => a[i],
                None => true,
            };
            if keep_i {
                let p = positions[i];
                let cy = div_floor(p.y, self.unit);
                let cx = div_floor(p.x, self.unit);
                if cy >= 0 && cx >= 0 && (cy as u64) < (self.shape.0 as u64) && (cx as u64) < (
                self.shape.1 as u64) {
                    proof {
                        crate::grid::lemma_pos_in_range(
                            self.shape.0 as int,
                            self.shape.1 as int,
                            cy as int,
                            cx as int,
                        );
                    }
                    let b = (cy as usize) * self.shape.1 + (cx as usize);
                    let ghost pre = self.data@;
                    bucket_push_at(&mut self.data, b, i as u32);
                    proof {
                        lemma_rebuild_step(
                            pre,
                            self.data@,
                            *self,
                            positions@,
                            keep,
                            i as int,
                            b as int,
                        );
                    }
                }
            }
            i = i + 1;
        }
    }
}

/// One hashing step preserves the rebuild invariants: the pushed index gets
/// count one in its own bucket, every other count is unchanged.
proof fn lemma_rebuild_step(
    pre: Seq<thin_vec::ThinVec<u32>>,
    post: Seq<thin_vec::ThinVec<u32>>,
    g: NeighborGrid,
    positions: Seq<Vec2Fx>,
    keep: Seq<bool>,
    i: int,
    b: int,
)
    requires
        g.data@ == post,
        pre.len() == post.len(),
        0 <= b < pre.len(),
        0 <= i < positions.len(),
        positions.len() <= 0xffffffff,
        keep.len() == positions.len(),
        keep[i],
        g.pos_in_grid(positions[i]),
        g.bucket_of(positions[i]) == b,
        bucket_contents(post[b]) == bucket_contents(pre[b]).push(i as u32),
        forall|j: int| 0 <= j < pre.len() && j != b ==> post[j] == pre[j],
        forall|c: int, j: int|
            #![trigger bucket_contents(pre[c])[j]]
            0 <= c < pre.len() && 0 <= j < bucket_contents(pre[c]).len() ==> ({
                let v = bucket_contents(pre[c])[j];
                &&& v < i
                &&& keep[v as int]
                &&& g.pos_in_grid(positions[v as int])
                &&& g.bucket_of(positions[v as int]) == c
            }),
        forall|v: int, c: int|
            #![trigger count_in(bucket_contents(pre[c]), v as u32)]
            0 <= v < positions.len() && 0 <= c < pre.len() ==> count_in(
                bucket_contents(pre[c]),
                v as u32,
            ) == (if v < i && keep[v] && g.pos_in_grid(positions[v]) && g.bucket_of(positions[v])
                == c {
                1nat
            } else {
                0nat
            }),
    ensures
        forall|c: int, j: int|
            #![trigger bucket_contents(post[c])[j]]
            0 <= c < post.len() && 0 <= j < bucket_contents(post[c]).len() ==> ({
                let v = bucket_contents(post[c])[j];
                &&& v < i + 1
                &&& keep[v as int]
                &&& g.pos_in_grid(positions[v as int])
                &&& g.bucket_of(positions[v as int]) == c
            }),
        forall|v: int, c: int|
            #![trigger count_in(bucket_contents(post[c]), v as u32)]
            0 <= v < positions.len() && 0 <= c < post.len() ==> count_in(
                bucket_contents(post[c]),
                v as u32,
            ) == (if v < i + 1 && keep[v] && g.pos_in_grid(positions[v]) && g.bucket_of(
                positions[v],
            ) == c {
                1nat
            } else {
                0nat
            }),
{
    assert forall|c: int, j: int|
        #![trigger bucket_contents(post[c])[j]]
        0 <= c < post.len() && 0 <= j < bucket_contents(post[c]).len() implies ({
        let v = bucket_contents(post[c])[j];
        &&& v < i + 1
        &&& keep[v as int]
        &&& g.pos_in_grid(positions[v as int])
        &&& g.bucket_of(positions[v as int]) == c
    }) by {
        if c == b {
            let s = bucket_contents(pre[b]);
            assert(bucket_contents(post[b]) == s.push(i as u32));
            if j < s.len() {
                assert(bucket_contents(post[b])[j] == s[j]);
            } else {
                assert(bucket_contents(post[b])[j] == i as u32);
            }
        } else {
            assert(post[c] == pre[c]);
        }
    }
    assert forall|v: int, c: int|
        #![trigger count_in(bucket_contents(post[c]), v as u32)]
        0 <= v < positions.len() && 0 <= c < post.len() implies count_in(
        bucket_contents(post[c]),
        v as u32,
    ) == (if v < i + 1 && keep[v] && g.pos_in_grid(positions[v]) && g.bucket_of(positions[v]) == c {
        1nat
    } else {
        0nat
    }) by {
        if c == b {
            lemma_count_push(bucket_contents(pre[b]), i as u32, v as u32);
            assert(count_in(bucket_contents(pre[b]), v as u32) == (if v < i && keep[v]
                && g.pos_in_grid(positions[v]) && g.bucket_of(positions[v]) == c {
                1nat
            } else {
                0nat
            }));
            if v == i {
            } else {
                assert(v as u32 != i as u32);
            }
        } else {
            assert(post[c] == pre[c]);
            assert(count_in(bucket_contents(pre[c]), v as u32) == (if v < i && keep[v]
                && g.pos_in_grid(positions[v]) && g.bucket_of(positions[v]) == c {
                1nat
            } else {
                0nat
            }));
            if v == i {
                assert(g.bucket_of(positions[v]) == b && b != c);
            }
        }
    }
}

/// Cell count of one axis, as in the raster grids.
proof fn lemma_axis_cells(a: int, d: int)
    requires
        1 <= d,
        1 <= a <= 0x8000 * d,
    ensures
        1 <= (a + d - 1) / d <= MAX_DIM,
{
    vstd::arithmetic::div_mod::lemma_div_is_ordered(d, a + d - 1, d);
    vstd::arithmetic::div_mod::lemma_div_by_multiple(1, d);
    vstd::arithmetic::div_mod::lemma_fundamental_div_mod(a + d - 1, d);
    let q = (a + d - 1) / d;
    assert(q <= MAX_DIM) by (nonlinear_arith)
        requires
            1 <= d,
            a <= 0x8000 * d,
            a + d - 1 == d * q + (a + d - 1) % d,
            0 <= (a + d - 1) % d < d;
}

} // verus!
