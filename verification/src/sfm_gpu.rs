//! Device backend of the social-force model: the host side packs the
//! pedestrian arrays, neighbor-grid layout and dispatch geometry into plain
//! buffers, an external runner performs one dispatch per tick, and the
//! read-back accelerations are committed here with the same integration
//! math as the CPU path. A failed or ill-sized read-back is a fatal,
//! explicit error for the tick: there is no silent fallback.

use vstd::prelude::*;

use crate::field::Field;
use crate::fixed::FAR;
use crate::models::{
    integrate, spec_clamp_acc, spec_integrate, Pedestrian, Pedestrians, SocialForceModel,
    COORD_MAX, VEL_MAX,
};
use crate::util::Vec2Fx;

verus! {

/// Why a device tick could not be committed.
#[derive(Debug, Clone, Copy, PartialEq, Eq, Structural)]
pub enum GpuError {
    /// The dispatch itself failed or timed out; the runner reports it here.
    DeviceFailed,
    /// The read-back buffer does not hold one acceleration per pedestrian.
    WrongLength,
    /// The simulator runs the CPU backend: there is no device tick to
    /// commit.
    NotDeviceBackend,
}

/// One tick's dispatch input: flat buffers of the pedestrian snapshot and
/// the neighbor-grid layout, ready for device upload.
pub struct GpuJob {
    /// Interleaved `x, y` pedestrian positions.
    pub positions: Vec<i64>,
    /// Interleaved `x, y` pedestrian velocities.
    pub velocities: Vec<i64>,
    pub desired_speeds: Vec<i64>,
    pub destinations: Vec<u32>,
    /// Per-cell bucket sizes of the neighbor grid, row-major; the runner
    /// prefix-sums them into index ranges for the kernel.
    pub grid_cell_counts: Vec<u64>,
    /// Pedestrian indices in bucket order: the concatenation of the
    /// neighbor-grid buckets, row-major. With the prefix sums of
    /// `grid_cell_counts` this is the cell grouping the kernel reads.
    pub grid_indices: Vec<u32>,
    pub grid_shape: (usize, usize),
    pub grid_unit: i64,
    /// Local workgroup size for the dispatch.
    pub work_size: usize,
}

/// The device twin of [`SocialForceModel`]: same state and spawning, but
/// the per-tick accelerations come back from an external dispatch.
pub struct SocialForceModelGpu {
    pub model: SocialForceModel,
    pub work_size: usize,
}

impl SocialForceModelGpu {
    pub fn new(
        options: &crate::SimulatorOptions,
        scenario: &crate::scenario::Scenario,
        field: &Field,
    ) -> (r: SocialForceModelGpu)
        requires
            options.wf(),
            scenario.wf(),
            field.wf(),
            1 <= scenario.field.size.x <= 0x8000 * options.neighbor_grid_unit,
            1 <= scenario.field.size.y <= 0x8000 * options.neighbor_grid_unit,
        ensures
            r.model.wf(*field, *scenario),
            r.model.pedestrians.positions@.len() == 0,
            r.model.neighbor_grid is Some,
            r.work_size == options.gpu_work_size,
    {
        let grid = crate::neighbor_grid::NeighborGrid::new(
            scenario.field.size,
            options.neighbor_grid_unit,
        );
        SocialForceModelGpu {
            model: SocialForceModel {
                pedestrians: Pedestrians::new(),
                neighbor_grid: Some(grid),
                use_distance_map: options.use_distance_map,
            },
            work_size: options.gpu_work_size,
        }
    }

    /// Pack the tick's dispatch input, or `None` when there is nothing to
    /// dispatch: an empty crowd performs no device work at all.
    pub fn plan_dispatch(&self) -> (r: Option<GpuJob>)
        requires
            self.model.pedestrians.wf(0x100000000),
            self.model.neighbor_grid is Some,
        ensures
            r is None <==> self.model.pedestrians.positions@.len() == 0,
            match r {
                Some(job) => {
                    let n = self.model.pedestrians.positions@.len() as int;
                    let g = self.model.neighbor_grid->Some_0;
                    &&& job.positions@.len() == 2 * n
                    &&& job.velocities@.len() == 2 * n
                    &&& forall|i: int|
                        0 <= i < n ==> #[trigger] job.positions@[2 * i]
                            == self.model.pedestrians.positions@[i].x && job.positions@[2 * i + 1]
                            == self.model.pedestrians.positions@[i].y
                    &&& forall|i: int|
                        0 <= i < n ==> #[trigger] job.velocities@[2 * i]
                            == self.model.pedestrians.velocities@[i].x && job.velocities@[2 * i
                            + 1] == self.model.pedestrians.velocities@[i].y
                    &&& job.desired_speeds@ == self.model.pedestrians.desired_speeds@
                    &&& job.destinations@ == self.model.pedestrians.destinations@
                    &&& job.grid_cell_counts@.len() == g.data@.len()
                    &&& forall|c: int|
                        0 <= c < g.data@.len() ==> #[trigger] job.grid_cell_counts@[c]
                            == crate::neighbor_grid::bucket_contents(g.data@[c]).len()
                    &&& job.grid_indices@ == crate::neighbor_grid::flat_buckets(
                        g.data@,
                        g.data@.len() as int,
                    )
                    &&& job.grid_shape == g.shape
                    &&& job.grid_unit == g.unit
                    &&& job.work_size == self.work_size
                },
                None => true,
            },
    {
        let n = self.model.pedestrians.len();
        if n == 0 {
            return None;
        }
        let mut positions: Vec<i64> = Vec::new();
        let mut velocities: Vec<i64> = Vec::new();
        let mut desired_speeds: Vec<i64> = Vec::new();
        let mut destinations: Vec<u32> = Vec::new();
        let mut i: usize = 0;
        while i < n
            invariant
                self.model.pedestrians.wf(0x100000000),
                n == self.model.pedestrians.positions@.len(),
                i <= n,
                positions@.len() == 2 * i,
                velocities@.len() == 2 * i,
                desired_speeds@ == self.model.pedestrians.desired_speeds@.take(i as int),
                destinations@ == self.model.pedestrians.destinations@.take(i as int),
                forall|k: int|
                    0 <= k < i ==> #[trigger] positions@[2 * k]
                        == self.model.pedestrians.positions@[k].x && positions@[2 * k + 1]
                        == self.model.pedestrians.positions@[k].y,
                forall|k: int|
                    0 <= k < i ==> #[trigger] velocities@[2 * k]
                        == self.model.pedestrians.velocities@[k].x && velocities@[2 * k + 1]
                        == self.model.pedestrians.velocities@[k].y,
            decreases n - i,
        {
            let p = self.model.pedestrians.positions[i];
            let v = self.model.pedestrians.velocities[i];
            let ghost prevp = positions@;
            let ghost prevv = velocities@;
            positions.push(p.x);
            positions.push(p.y);
            velocities.push(v.x);
            velocities.push(v.y);
            desired_speeds.push(self.model.pedestrians.desired_speeds[i]);
            destinations.push(self.model.pedestrians.destinations[i]);
            proof {
                assert(desired_speeds@ =~= self.model.pedestrians.desired_speeds@.take(i + 1));
                assert(destinations@ =~= self.model.pedestrians.destinations@.take(i + 1));
                assert(positions@[2 * (i as int)] == p.x && positions@[2 * (i as int) + 1] == p.y);
                assert(velocities@[2 * (i as int)] == v.x && velocities@[2 * (i as int) + 1]
                    == v.y);
                assert forall|k: int| 0 <= k < i + 1 implies #[trigger] velocities@[2 * k]
                    == self.model.pedestrians.velocities@[k].x && velocities@[2 * k + 1]
                    == self.model.pedestrians.velocities@[k].y by {
                    if k < i {
                        assert(velocities@[2 * k] == prevv[2 * k]);
                        assert(velocities@[2 * k + 1] == prevv[2 * k + 1]);
                    }
                }
                assert forall|k: int| 0 <= k < i + 1 implies #[trigger] positions@[2 * k]
                    == self.model.pedestrians.positions@[k].x && positions@[2 * k + 1]
                    == self.model.pedestrians.positions@[k].y by {
                    if k < i {
                        assert(positions@[2 * k] == prevp[2 * k]);
                        assert(positions@[2 * k + 1] == prevp[2 * k + 1]);
                    }
                }
            }
            i = i + 1;
        }
        proof {
            assert(desired_speeds@ =~= self.model.pedestrians.desired_speeds@);
            assert(destinations@ =~= self.model.pedestrians.destinations@);
        }

        let (grid_cell_counts, grid_indices, grid_shape, grid_unit) = match &self
            .model
            .neighbor_grid {
            Some(g) => {
                let cells = g.data.len();
                let mut counts: Vec<u64> = Vec::new();
                let mut c: usize = 0;
                while c < cells
                    invariant
                        cells == g.data@.len(),
                        c <= cells,
                        counts@.len() == c,
                        forall|k: int|
                            0 <= k < c ==> #[trigger] counts@[k]
                                == crate::neighbor_grid::bucket_contents(g.data@[k]).len(),
                    decreases cells - c,
                {
                    counts.push(crate::neighbor_grid::bucket_len(&g.data[c]) as u64);
                    c = c + 1;
                }
                let mut indices: Vec<u32> = Vec::new();
                let mut c2: usize = 0;
                while c2 < cells
                    invariant
                        cells == g.data@.len(),
                        c2 <= cells,
                        indices@ == crate::neighbor_grid::flat_buckets(g.data@, c2 as int),
                    decreases cells - c2,
                {
                    let m = crate::neighbor_grid::bucket_len(&g.data[c2]);
                    proof {
                        assert(indices@ =~= crate::neighbor_grid::flat_buckets(g.data@, c2 as int)
                            + crate::neighbor_grid::bucket_contents(g.data@[c2 as int]).take(0));
                    }
                    let mut j: usize = 0;
                    while j < m
                        invariant
                            cells == g.data@.len(),
                            c2 < cells,
                            m == crate::neighbor_grid::bucket_contents(g.data@[c2 as int]).len(),
                            j <= m,
                            indices@ == crate::neighbor_grid::flat_buckets(g.data@, c2 as int)
                                + crate::neighbor_grid::bucket_contents(g.data@[c2 as int]).take(
                                j as int,
                            ),
                        decreases m - j,
                    {
                        let e = crate::neighbor_grid::bucket_get(&g.data[c2], j);
                        indices.push(e);
                        proof {
                            assert(indices@ =~= crate::neighbor_grid::flat_buckets(
                                g.data@,
                                c2 as int,
                            ) + crate::neighbor_grid::bucket_contents(g.data@[c2 as int]).take(
                                j as int + 1,
                            ));
                        }
                        j = j + 1;
                    }
                    proof {
                        assert(crate::neighbor_grid::bucket_contents(g.data@[c2 as int]).take(
                            m as int,
                        ) =~= crate::neighbor_grid::bucket_contents(g.data@[c2 as int]));
                        assert(indices@ =~= crate::neighbor_grid::flat_buckets(
                            g.data@,
                            c2 as int + 1,
                        ));
                    }
                    c2 = c2 + 1;
                }
                (counts, indices, g.shape, g.unit)
            },
            None => (Vec::new(), Vec::new(), (0usize, 0usize), 1i64),
        };

        Some(
            GpuJob {
                positions,
                velocities,
                desired_speeds,
                destinations,
                grid_cell_counts,
                grid_indices,
                grid_shape,
                grid_unit,
                work_size: self.work_size,
            },
        )
    }

    /// Commit a device read-back: integrate every pedestrian with the
    /// acceleration the kernel produced (clamped into the scalar range, as
    /// the device result is untrusted), or fail the tick explicitly when
    /// the buffer length does not match. The state is untouched on error.
    pub fn apply_accelerations(&mut self, accs: &Vec<Vec2Fx>) -> (r: Result<(), GpuError>)
        requires
            old(self).model.pedestrians.wf(0x100000000),
        ensures
            final(self).model.neighbor_grid == old(self).model.neighbor_grid,
            final(self).model.use_distance_map == old(self).model.use_distance_map,
            final(self).work_size == old(self).work_size,
            final(self).model.pedestrians.wf(0x100000000),
            match r {
                Ok(()) => {
                    &&& accs@.len() == old(self).model.pedestrians.positions@.len()
                    &&& final(self).model.pedestrians.destinations@ == old(
                        self,
                    ).model.pedestrians.destinations@
                    &&& final(self).model.pedestrians.desired_speeds@ == old(
                        self,
                    ).model.pedestrians.desired_speeds@
                    &&& final(self).model.pedestrians.positions@.len() == old(
                        self,
                    ).model.pedestrians.positions@.len()
                    &&& forall|i: int|
                        0 <= i < old(self).model.pedestrians.positions@.len()
                            ==> #[trigger] final(self).model.pedestrians.positions@[i] == spec_integrate(
                            old(self).model.pedestrians.positions@[i],
                            old(self).model.pedestrians.velocities@[i],
                            Vec2Fx {
                                x: spec_clamp_acc(accs@[i].x as int) as i64,
                                y: spec_clamp_acc(accs@[i].y as int) as i64,
                            },
                            old(self).model.pedestrians.desired_speeds@[i] as int,
                        ).0
                    &&& forall|i: int|
                        0 <= i < old(self).model.pedestrians.positions@.len()
                            ==> #[trigger] final(self).model.pedestrians.velocities@[i] == spec_integrate(
                            old(self).model.pedestrians.positions@[i],
                            old(self).model.pedestrians.velocities@[i],
                            Vec2Fx {
                                x: spec_clamp_acc(accs@[i].x as int) as i64,
                                y: spec_clamp_acc(accs@[i].y as int) as i64,
                            },
                            old(self).model.pedestrians.desired_speeds@[i] as int,
                        ).1
                },
                Err(e) => e == GpuError::WrongLength && accs@.len() != old(
                    self,
                ).model.pedestrians.positions@.len() && *final(self) == *old(self),
            },
    {
        let n = self.model.pedestrians.len();
        if accs.len() != n {
            return Err(GpuError::WrongLength);
        }
        let mut i: usize = 0;
        while i < n
            invariant
                n == self.model.pedestrians.positions@.len(),
                self.model.pedestrians.velocities@.len() == n,
                self.model.pedestrians.destinations@ == old(self).model.pedestrians.destinations@,
                self.model.pedestrians.desired_speeds@ == old(
                    self,
                ).model.pedestrians.desired_speeds@,
                self.model.neighbor_grid == old(self).model.neighbor_grid,
                self.model.use_distance_map == old(self).model.use_distance_map,
                self.work_size == old(self).work_size,
                old(self).model.pedestrians.wf(0x100000000),
                old(self).model.pedestrians.positions@.len() == n,
                accs@.len() == n,
                i <= n,
                forall|k: int|
                    i <= k < n ==> #[trigger] self.model.pedestrians.positions@[k] == old(
                        self,
                    ).model.pedestrians.positions@[k]
                        && self.model.pedestrians.velocities@[k] == old(
                        self,
                    ).model.pedestrians.velocities@[k],
                forall|k: int|
                    0 <= k < i ==> #[trigger] self.model.pedestrians.positions@[k]
                        == spec_integrate(
                        old(self).model.pedestrians.positions@[k],
                        old(self).model.pedestrians.velocities@[k],
                        Vec2Fx {
                            x: spec_clamp_acc(accs@[k].x as int) as i64,
                            y: spec_clamp_acc(accs@[k].y as int) as i64,
                        },
                        old(self).model.pedestrians.desired_speeds@[k] as int,
                    ).0,
                forall|k: int|
                    0 <= k < i ==> #[trigger] self.model.pedestrians.velocities@[k]
                        == spec_integrate(
                        old(self).model.pedestrians.positions@[k],
                        old(self).model.pedestrians.velocities@[k],
                        Vec2Fx {
                            x: spec_clamp_acc(accs@[k].x as int) as i64,
                            y: spec_clamp_acc(accs@[k].y as int) as i64,
                        },
                        old(self).model.pedestrians.desired_speeds@[k] as int,
                    ).1,
                forall|k: int|
                    0 <= k < n ==> (#[trigger] self.model.pedestrians.positions@[k]).bounded_by(
                        COORD_MAX as int,
                    ),
                forall|k: int|
                    0 <= k < n ==> (#[trigger] self.model.pedestrians.velocities@[k]).bounded_by(
                        VEL_MAX as int,
                    ),
            decreases n - i,
        {
            let a = accs[i];
            let ax = if a.x < -FAR {
                -FAR
            } else if a.x > FAR {
                FAR
            } else {
                a.x
            };
            let ay = if a.y < -FAR {
                -FAR
            } else if a.y > FAR {
                FAR
            } else {
                a.y
            };
            let st = integrate(
                self.model.pedestrians.positions[i],
                self.model.pedestrians.velocities[i],
                Vec2Fx { x: ax, y: ay },
                self.model.pedestrians.desired_speeds[i],
            );
            let ghost prev_pos = self.model.pedestrians.positions@;
            let ghost prev_vel = self.model.pedestrians.velocities@;
            self.model.pedestrians.positions.set(i, st.0);
            self.model.pedestrians.velocities.set(i, st.1);
            proof {
                assert forall|k: int|
                    i + 1 <= k < n implies #[trigger] self.model.pedestrians.positions@[k] == old(
                    self,
                ).model.pedestrians.positions@[k] && self.model.pedestrians.velocities@[k] == old(
                    self,
                ).model.pedestrians.velocities@[k] by {
                    assert(prev_pos[k] == old(self).model.pedestrians.positions@[k]);
                    assert(prev_vel[k] == old(self).model.pedestrians.velocities@[k]);
                }
            }
            i = i + 1;
        }
        Ok(())
    }

    /// Take spawned pedestrians in and rebuild the neighbor grid, as the
    /// CPU model does.
    pub fn spawn_pedestrians(
        &mut self,
        field: &Field,
        new_pedestrians: &Vec<Pedestrian>,
        rng: &mut fastrand::Rng,
    )
        requires
            old(self).model.pedestrians.wf(field.potential_maps@.len() as int),
            field.wf(),
            match old(self).model.neighbor_grid {
                Some(g) => g.wf(),
                None => true,
            },
            old(self).model.pedestrians.positions@.len() + new_pedestrians@.len() <= 0x7fffffff,
            forall|i: int|
                0 <= i < new_pedestrians@.len() ==> (#[trigger] new_pedestrians@[i]).pos.bounded_by(
                    COORD_MAX as int,
                ) && new_pedestrians@[i].destination < field.potential_maps@.len(),
        ensures
            final(self).model.pedestrians.wf(field.potential_maps@.len() as int),
            final(self).work_size == old(self).work_size,
            final(self).model.neighbor_grid is Some <==> old(self).model.neighbor_grid is Some,
            final(self).model.use_distance_map == old(self).model.use_distance_map,
            final(self).model.pedestrians.positions@.len()
                <= old(self).model.pedestrians.positions@.len() + new_pedestrians@.len(),
            exists|speeds: Seq<i64>|
                #![trigger speeds.len()]
                crate::models::spec_spawn_result(
                    old(self).model.pedestrians.positions@,
                    old(self).model.pedestrians.destinations@,
                    old(self).model.pedestrians.velocities@,
                    old(self).model.pedestrians.desired_speeds@,
                    final(self).model.pedestrians,
                    *field,
                    new_pedestrians@,
                    speeds,
                ),
            match final(self).model.neighbor_grid {
                Some(g) => {
                    &&& g.wf()
                    &&& g.complete_for(
                        final(self).model.pedestrians.positions@,
                        Seq::new(final(self).model.pedestrians.positions@.len(), |i: int| true),
                    )
                },
                None => true,
            },
    {
        self.model.spawn_pedestrians(field, new_pedestrians, rng);
    }

    /// Snapshot of the active pedestrians.
    pub fn list_pedestrians(&self) -> (r: Vec<Pedestrian>)
        requires
            self.model.pedestrians.destinations@.len()
                == self.model.pedestrians.positions@.len(),
        ensures
            r@.len() == self.model.pedestrians.positions@.len(),
            forall|i: int|
                0 <= i < r@.len() ==> (#[trigger] r@[i]).pos
                    == self.model.pedestrians.positions@[i] && r@[i].destination
                    == self.model.pedestrians.destinations@[i] as int,
    {
        self.model.list_pedestrians()
    }

    /// Number of active pedestrians.
    pub fn get_pedestrian_count(&self) -> (r: i32)
        requires
            self.model.pedestrians.positions@.len() <= 0x7fffffff,
        ensures
            r == self.model.pedestrians.positions@.len(),
    {
        self.model.get_pedestrian_count()
    }
}

} // verus!
