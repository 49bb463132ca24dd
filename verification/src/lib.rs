//! Pedestrian-flow simulation core: a navigation-field solver (fast marching
//! over a rasterized obstacle grid) and a social-force pedestrian model with a
//! uniform spatial hash for neighbor queries.
//!
//! All world coordinates and scalar fields are fixed-point numbers: an `i64`
//! counts units of `1 / SCALE` meters (or of the field's own unit where a grid
//! is involved). Every quantity a contract speaks of is one of these integers.

use vstd::prelude::*;

pub mod field;
pub mod fixed;
pub mod fmm;
pub mod grid;
pub mod models;
pub mod neighbor_grid;
pub mod queue;
pub mod rng;
pub mod scenario;
pub mod sfm_gpu;
pub mod util;

pub use fixed::SCALE;

verus! {

/// Simulator options.
#[derive(Debug, Clone)]
pub struct SimulatorOptions {
    /// Backend type: CPU or GPU.
    pub backend: Backend,
    /// Unit length of the neighbor search grid (fixed-point meters). Sound
    /// neighbor queries need it at least as large as the interaction
    /// cutoff radius downstream.
    pub neighbor_grid_unit: i64,
    /// Unit length of potential and distance maps (fixed-point meters).
    pub field_grid_unit: i64,
    /// Whether to use the neighbor search grid.
    pub use_neighbor_grid: bool,
    /// Whether obstacle repulsion samples the discretized distance map
    /// instead of iterating the obstacle segments.
    pub use_distance_map: bool,
    /// Local workgroup size of a device dispatch.
    pub gpu_work_size: usize,
    /// Seed of the spawn randomness; one seed reproduces one run.
    pub rng_seed: u64,
}

impl SimulatorOptions {
    /// Option values the simulator accepts.
    pub open spec fn wf(self) -> bool {
        &&& 1 <= self.neighbor_grid_unit <= 0x100000
        &&& 2 <= self.field_grid_unit <= 0x100000
        &&& 1 <= self.gpu_work_size
    }
}

impl Default for SimulatorOptions {
    /// The canonical configuration: CPU backend, a 1.4-meter neighbor
    /// grid, quarter-meter field cells, both acceleration structures on.
    fn default() -> (r: SimulatorOptions)
        ensures
            r.wf(),
            r.backend == Backend::Cpu,
            r.neighbor_grid_unit == 1434,
            r.field_grid_unit == 256,
            r.use_neighbor_grid,
            r.use_distance_map,
            r.gpu_work_size == 64,
            r.rng_seed == 0,
    {
        SimulatorOptions {
            backend: Backend::Cpu,
            neighbor_grid_unit: 1434,
            field_grid_unit: 256,
            use_neighbor_grid: true,
            use_distance_map: true,
            gpu_work_size: 64,
            rng_seed: 0,
        }
    }
}

/// Simulator backend.
#[derive(Debug, Clone, Copy, PartialEq, Eq, Structural)]
pub enum Backend {
    Cpu,
    Gpu,
}

/// Linear interpolation step `d * t / SCALE` stays between `0` and `d`.
proof fn lemma_lerp_step(d: int, t: int)
    requires
        -0x80000000 <= d <= 0x80000000,
        0 <= t <= SCALE as int,
    ensures
        d >= 0 ==> 0 <= (d * t) / (SCALE as int) <= d,
        d < 0 ==> d <= (d * t) / (SCALE as int) <= 0,
{
    vstd::arithmetic::div_mod::lemma_fundamental_div_mod_converse(
        d * (SCALE as int),
        SCALE as int,
        d,
        0,
    );
    if d >= 0 {
        assert(0 <= d * t <= d * (SCALE as int)) by (nonlinear_arith)
            requires
                d >= 0,
                0 <= t <= SCALE as int;
        vstd::arithmetic::div_mod::lemma_div_is_ordered(0, d * t, SCALE as int);
        vstd::arithmetic::div_mod::lemma_div_is_ordered(d * t, d * (SCALE as int), SCALE as int);
    } else {
        assert(d * (SCALE as int) <= d * t <= 0) by (nonlinear_arith)
            requires
                d < 0,
                0 <= t <= SCALE as int;
        vstd::arithmetic::div_mod::lemma_div_is_ordered(d * (SCALE as int), d * t, SCALE as int);
        vstd::arithmetic::div_mod::lemma_div_is_ordered(d * t, 0, SCALE as int);
        vstd::arithmetic::div_mod::lemma_div_basics(SCALE as int);
    }
}

/// The point a fraction `t / SCALE` of the way from `a` to `b`.
pub open spec fn spec_lerp(a: util::Vec2Fx, b: util::Vec2Fx, t: int) -> util::Vec2Fx {
    util::Vec2Fx {
        x: (a.x + ((b.x - a.x) * t) / (SCALE as int)) as i64,
        y: (a.y + ((b.y - a.y) * t) / (SCALE as int)) as i64,
    }
}

/// Exec counterpart of [`spec_lerp`]; the result stays inside the segment's
/// bounding box.
fn lerp(a: util::Vec2Fx, b: util::Vec2Fx, t: i64) -> (r: util::Vec2Fx)
    requires
        a.bounded_by(scenario::COORD_MAX as int),
        b.bounded_by(scenario::COORD_MAX as int),
        0 <= t <= SCALE,
    ensures
        r == spec_lerp(a, b, t as int),
        r.bounded_by(scenario::COORD_MAX as int),
{
    proof {
        lemma_lerp_step(b.x - a.x, t as int);
        lemma_lerp_step(b.y - a.y, t as int);
        fixed::lemma_mul_bounds(b.x - a.x, t as int, 0x80000000, SCALE as int);
        fixed::lemma_mul_bounds(b.y - a.y, t as int, 0x80000000, SCALE as int);
    }
    let sx = fixed::div_floor((b.x - a.x) * t, SCALE);
    let sy = fixed::div_floor((b.y - a.y) * t, SCALE);
    util::Vec2Fx { x: a.x + sx, y: a.y + sy }
}

/// Total pedestrian count of the one-shot sources among the first `k`
/// pedestrian configs.
pub open spec fn spec_once_total(cfgs: Seq<scenario::PedestrianConfig>, k: int) -> int
    decreases k,
{
    if k <= 0 {
        0
    } else {
        spec_once_total(cfgs, k - 1) + (match cfgs[k - 1].spawn {
            scenario::PedestrianSpawnConfig::Once { count } => count as int,
            scenario::PedestrianSpawnConfig::Periodic { .. } => 0int,
        })
    }
}

/// The one-shot totals are non-negative and stay within the spawn capacity
/// under the scenario's per-source bound.
proof fn lemma_once_total_bounds(cfgs: Seq<scenario::PedestrianConfig>, k: int)
    requires
        forall|s: int|
            0 <= s < cfgs.len() ==> (match (#[trigger] cfgs[s]).spawn {
                scenario::PedestrianSpawnConfig::Once { count } => 0 <= count <= 0x8000,
                scenario::PedestrianSpawnConfig::Periodic { .. } => true,
            }),
        0 <= k <= cfgs.len(),
    ensures
        0 <= spec_once_total(cfgs, k) <= k * 0x8000,
    decreases k,
{
    if k > 0 {
        lemma_once_total_bounds(cfgs, k - 1);
    }
}

/// Every one-shot source's pedestrians occupy their own block of slots in
/// the spawn list, each on the source's origin segment and bound for its
/// destination.
pub open spec fn once_blocks_ok(
    cfgs: Seq<scenario::PedestrianConfig>,
    waypoints: Seq<scenario::WaypointConfig>,
    bound: int,
    list: Seq<models::Pedestrian>,
) -> bool {
    forall|s: int, t: int|
        #![trigger spec_once_total(cfgs, s), list[t]]
        0 <= s < bound && spec_once_total(cfgs, s) <= t < spec_once_total(cfgs, s + 1) ==> ({
            &&& list[t].destination == cfgs[s].destination
            &&& exists|u: int|
                0 <= u < 1024 && list[t].pos == spec_lerp(
                    waypoints[cfgs[s].origin as int].line[0],
                    waypoints[cfgs[s].origin as int].line[1],
                    u,
                )
        })
}

/// Whether `p` could have been spawned by one of the scenario's periodic
/// sources: some periodic config names its destination and its position
/// lies on that source's origin segment.
pub open spec fn periodic_spawnee(
    cfgs: Seq<scenario::PedestrianConfig>,
    waypoints: Seq<scenario::WaypointConfig>,
    p: models::Pedestrian,
) -> bool {
    exists|s: int, u: int|
        #![trigger spec_lerp(
            waypoints[cfgs[s].origin as int].line[0],
            waypoints[cfgs[s].origin as int].line[1],
            u,
        )]
        0 <= s < cfgs.len() && cfgs[s].spawn is Periodic && p.destination
            == cfgs[s].destination && 0 <= u < 1024 && p.pos == spec_lerp(
            waypoints[cfgs[s].origin as int].line[0],
            waypoints[cfgs[s].origin as int].line[1],
            u,
        )
}

/// The pedestrian storage of either backend.
pub open spec fn model_peds(m: Model) -> models::Pedestrians {
    match m {
        Model::Cpu(mm) => mm.pedestrians,
        Model::Gpu(g) => g.model.pedestrians,
    }
}

/// The pedestrian model behind a simulator: the CPU evaluator or its
/// device-dispatch twin. A closed pair of backends, not an open trait: no
/// third implementation exists.
pub enum Model {
    Cpu(models::SocialForceModel),
    Gpu(sfm_gpu::SocialForceModelGpu),
}

/// What one tick yields: a finished step with the active count, or a
/// packed device job the caller must dispatch and commit with
/// [`Simulator::complete_tick`].
pub enum TickOutcome {
    Done(i32),
    AwaitingDevice(sfm_gpu::GpuJob),
}

/// Simulator instance: the scenario, its navigation field, the pedestrian
/// model, and the spawn randomness.
pub struct Simulator {
    pub options: SimulatorOptions,
    pub scenario: scenario::Scenario,
    pub field: field::Field,
    pub model: Model,
    pub step: i64,
    pub rng: fastrand::Rng,
}

impl Simulator {
    pub open spec fn wf(self) -> bool {
        &&& self.options.wf()
        &&& self.scenario.wf()
        &&& self.field.wf()
        &&& self.field.potential_maps@.len() == self.scenario.waypoints@.len()
        &&& match self.model {
            Model::Cpu(m) => m.wf(self.field, self.scenario),
            Model::Gpu(g) => g.model.wf(self.field, self.scenario) && g.model.neighbor_grid
                is Some,
        }
    }

    /// Build a simulator: rasterize and march the navigation field, set up
    /// the chosen backend, and spawn every one-shot source.
    pub fn new(options: SimulatorOptions, scenario: scenario::Scenario) -> (r: Simulator)
        requires
            options.wf(),
            scenario.wf(),
            1 <= scenario.field.size.x <= 0x20000000,
            1 <= scenario.field.size.y <= 0x20000000,
            scenario.field.size.x <= 0x8000 * options.field_grid_unit,
            scenario.field.size.y <= 0x8000 * options.field_grid_unit,
            scenario.field.size.x <= 0x8000 * options.neighbor_grid_unit,
            scenario.field.size.y <= 0x8000 * options.neighbor_grid_unit,
        ensures
            r.wf(),
            r.step == 0,
            r.options == options,
            r.scenario == scenario,
            // every one-shot source contributes exactly its configured
            // count of pedestrians, each drawn uniformly on the source's
            // origin segment; the model holds that batch run through the
            // spawn pipeline (zero velocity, drawn speeds, arrival filter)
            exists|spawned: Seq<models::Pedestrian>, speeds: Seq<i64>|
                #![trigger spawned.len(), speeds.len()]
                {
                    &&& spawned.len() == spec_once_total(
                        scenario.pedestrians@,
                        scenario.pedestrians@.len() as int,
                    )
                    &&& once_blocks_ok(
                        scenario.pedestrians@,
                        scenario.waypoints@,
                        scenario.pedestrians@.len() as int,
                        spawned,
                    )
                    &&& models::spec_spawn_result(
                        Seq::<util::Vec2Fx>::empty(),
                        Seq::<u32>::empty(),
                        Seq::<util::Vec2Fx>::empty(),
                        Seq::<i64>::empty(),
                        match r.model {
                            Model::Cpu(m) => m.pedestrians,
                            Model::Gpu(g) => g.model.pedestrians,
                        },
                        r.field,
                        spawned,
                        speeds,
                    )
                },
    {
        let field = field::Field::from_scenario(&scenario, options.field_grid_unit);
        let mut rng = rng::rng_with_seed(options.rng_seed);

        let mut model = match options.backend {
            Backend::Cpu => Model::Cpu(models::SocialForceModel::new(&options, &scenario, &field)),
            Backend::Gpu => Model::Gpu(
                sfm_gpu::SocialForceModelGpu::new(&options, &scenario, &field),
            ),
        };
        let ghost peds0 = model_peds(model);

        let new_pedestrians = collect_once_spawns(&scenario, &field, &mut rng);
        match &mut model {
            Model::Cpu(m) => m.spawn_pedestrians(&field, &new_pedestrians, &mut rng),
            Model::Gpu(g) => g.spawn_pedestrians(&field, &new_pedestrians, &mut rng),
        }
        proof {
            let peds_after = model_peds(model);
            let sp = choose|sp: Seq<i64>|
                models::spec_spawn_result(
                    peds0.positions@,
                    peds0.destinations@,
                    peds0.velocities@,
                    peds0.desired_speeds@,
                    peds_after,
                    field,
                    new_pedestrians@,
                    sp,
                );
            assert(peds0.positions@ =~= Seq::<util::Vec2Fx>::empty());
            assert(peds0.destinations@ =~= Seq::<u32>::empty());
            assert(peds0.velocities@ =~= Seq::<util::Vec2Fx>::empty());
            assert(peds0.desired_speeds@ =~= Seq::<i64>::empty());
            assert(models::spec_spawn_result(
                Seq::<util::Vec2Fx>::empty(),
                Seq::<u32>::empty(),
                Seq::<util::Vec2Fx>::empty(),
                Seq::<i64>::empty(),
                peds_after,
                field,
                new_pedestrians@,
                sp,
            ));
            assert(sp.len() == new_pedestrians@.len());
        }

        Simulator { options, scenario, field, model, step: 0, rng }
    }

    /// Step the simulation: spawn from the periodic sources, rebuild the
    /// neighbor hash, and either evaluate and commit the tick on the CPU,
    /// or hand back the packed device job. An empty crowd never yields a
    /// device job: there is nothing to dispatch.
    pub fn tick(&mut self) -> (r: TickOutcome)
        requires
            old(self).wf(),
            old(self).step < 0x7fffffffffffffff,
        ensures
            final(self).wf(),
            final(self).step == old(self).step + 1,
            final(self).scenario == old(self).scenario,
            // without a periodic source the crowd can only shrink, and an
            // empty crowd stays empty and dispatches nothing
            (forall|s: int|
                0 <= s < old(self).scenario.pedestrians@.len() ==> !((#[trigger] old(
                    self,
                ).scenario.pedestrians@[s]).spawn is Periodic)) ==> ({
                let c0 = match old(self).model {
                    Model::Cpu(m) => m.pedestrians.positions@.len() as int,
                    Model::Gpu(g) => g.model.pedestrians.positions@.len() as int,
                };
                let c1 = match final(self).model {
                    Model::Cpu(m) => m.pedestrians.positions@.len() as int,
                    Model::Gpu(g) => g.model.pedestrians.positions@.len() as int,
                };
                c1 <= c0 && (c0 == 0 ==> r is Done && c1 == 0)
            }),
            match r {
                TickOutcome::Done(c) => match final(self).model {
                    Model::Cpu(m) => c == m.pedestrians.positions@.len(),
                    Model::Gpu(g) => c == 0 && g.model.pedestrians.positions@.len() == 0,
                },
                // a returned device job is exactly the packing of the
                // post-spawn state: the interleaved pedestrian snapshot and
                // the layout of the freshly rebuilt (complete) neighbor hash
                TickOutcome::AwaitingDevice(job) => match final(self).model {
                    Model::Cpu(_) => false,
                    Model::Gpu(g) => ({
                        let n = g.model.pedestrians.positions@.len() as int;
                        let ng = g.model.neighbor_grid->Some_0;
                        &&& n > 0
                        &&& g.model.neighbor_grid is Some
                        &&& job.positions@.len() == 2 * n
                        &&& job.velocities@.len() == 2 * n
                        &&& (forall|i: int|
                            0 <= i < n ==> #[trigger] job.positions@[2 * i]
                                == g.model.pedestrians.positions@[i].x && job.positions@[2 * i + 1]
                                == g.model.pedestrians.positions@[i].y)
                        &&& (forall|i: int|
                            0 <= i < n ==> #[trigger] job.velocities@[2 * i]
                                == g.model.pedestrians.velocities@[i].x && job.velocities@[2 * i
                                + 1] == g.model.pedestrians.velocities@[i].y)
                        &&& job.desired_speeds@ == g.model.pedestrians.desired_speeds@
                        &&& job.destinations@ == g.model.pedestrians.destinations@
                        &&& job.grid_cell_counts@.len() == ng.data@.len()
                        &&& (forall|c: int|
                            0 <= c < ng.data@.len() ==> #[trigger] job.grid_cell_counts@[c]
                                == crate::neighbor_grid::bucket_contents(ng.data@[c]).len())
                        &&& job.grid_indices@ == crate::neighbor_grid::flat_buckets(
                            ng.data@,
                            ng.data@.len() as int,
                        )
                        &&& job.grid_shape == ng.shape
                        &&& job.grid_unit == ng.unit
                        &&& job.work_size == g.work_size
                        &&& ng.complete_for(
                            g.model.pedestrians.positions@,
                            Seq::new(g.model.pedestrians.positions@.len(), |i: int| true),
                        )
                    }),
                },
            },
            old(self).model is Cpu ==> r is Done,
            final(self).field == old(self).field,
            final(self).options == old(self).options,
            // on the CPU path the tick is exactly the spawn pipeline (over
            // some batch of periodic spawnees and drawn speeds) followed by
            // the per-slot force-and-integrate step
            match (old(self).model, final(self).model) {
                (Model::Cpu(m0), Model::Cpu(m1)) => exists|
                    spawned: Seq<models::Pedestrian>,
                    speeds: Seq<i64>,
                    mid: models::SocialForceModel,
                |
                    #![trigger spawned.len(), speeds.len(), mid.pedestrians]
                    {
                        &&& (forall|i: int|
                            0 <= i < spawned.len() ==> periodic_spawnee(
                                old(self).scenario.pedestrians@,
                                old(self).scenario.waypoints@,
                                #[trigger] spawned[i],
                            ))
                        &&& models::spec_spawn_result(
                            m0.pedestrians.positions@,
                            m0.pedestrians.destinations@,
                            m0.pedestrians.velocities@,
                            m0.pedestrians.desired_speeds@,
                            mid.pedestrians,
                            old(self).field,
                            spawned,
                            speeds,
                        )
                        &&& mid.use_distance_map == m0.use_distance_map
                        &&& m1.neighbor_grid == mid.neighbor_grid
                        &&& m1.use_distance_map == mid.use_distance_map
                        &&& m1.pedestrians.positions@.len() == mid.pedestrians.positions@.len()
                        &&& m1.pedestrians.destinations@ == mid.pedestrians.destinations@
                        &&& m1.pedestrians.desired_speeds@ == mid.pedestrians.desired_speeds@
                        &&& (forall|i: int|
                            0 <= i < mid.pedestrians.positions@.len()
                                ==> #[trigger] m1.pedestrians.positions@[i]
                                == models::spec_integrate(
                                mid.pedestrians.positions@[i],
                                mid.pedestrians.velocities@[i],
                                models::spec_acceleration(
                                    mid,
                                    old(self).scenario,
                                    old(self).field,
                                    i,
                                ),
                                mid.pedestrians.desired_speeds@[i] as int,
                            ).0)
                        &&& (forall|i: int|
                            0 <= i < mid.pedestrians.positions@.len()
                                ==> #[trigger] m1.pedestrians.velocities@[i]
                                == models::spec_integrate(
                                mid.pedestrians.positions@[i],
                                mid.pedestrians.velocities@[i],
                                models::spec_acceleration(
                                    mid,
                                    old(self).scenario,
                                    old(self).field,
                                    i,
                                ),
                                mid.pedestrians.desired_speeds@[i] as int,
                            ).1)
                    },
                // on the device path the same spawn pipeline runs; the
                // dispatch itself is the caller's, committed through
                // `complete_tick`
                (Model::Gpu(g0), Model::Gpu(g1)) => exists|
                    spawned: Seq<models::Pedestrian>,
                    speeds: Seq<i64>,
                |
                    #![trigger spawned.len(), speeds.len()]
                    {
                        &&& (forall|i: int|
                            0 <= i < spawned.len() ==> periodic_spawnee(
                                old(self).scenario.pedestrians@,
                                old(self).scenario.waypoints@,
                                #[trigger] spawned[i],
                            ))
                        &&& models::spec_spawn_result(
                            g0.model.pedestrians.positions@,
                            g0.model.pedestrians.destinations@,
                            g0.model.pedestrians.velocities@,
                            g0.model.pedestrians.desired_speeds@,
                            g1.model.pedestrians,
                            old(self).field,
                            spawned,
                            speeds,
                        )
                        &&& g1.model.use_distance_map == g0.model.use_distance_map
                        &&& g1.work_size == g0.work_size
                    },
                _ => false,
            },
    {
        self.step = self.step + 1;

        let current = match &self.model {
            Model::Cpu(m) => m.get_pedestrian_count(),
            Model::Gpu(g) => g.get_pedestrian_count(),
        };
        let new_pedestrians = collect_periodic_spawns(
            &self.scenario,
            &self.field,
            current,
            &mut self.rng,
        );

        match &mut self.model {
            Model::Cpu(m) => {
                let ghost peds0 = m.pedestrians;
                m.spawn_pedestrians(&self.field, &new_pedestrians, &mut self.rng);
                let ghost mid = *m;
                proof {
                    let sp = choose|sp: Seq<i64>|
                        models::spec_spawn_result(
                            peds0.positions@,
                            peds0.destinations@,
                            peds0.velocities@,
                            peds0.desired_speeds@,
                            mid.pedestrians,
                            self.field,
                            new_pedestrians@,
                            sp,
                        );
                    assert(sp.len() == new_pedestrians@.len());
                }
                m.update_states(&self.scenario, &self.field);
                TickOutcome::Done(m.get_pedestrian_count())
            },
            Model::Gpu(g) => {
                let ghost peds0 = g.model.pedestrians;
                g.spawn_pedestrians(&self.field, &new_pedestrians, &mut self.rng);
                proof {
                    let sp = choose|sp: Seq<i64>|
                        models::spec_spawn_result(
                            peds0.positions@,
                            peds0.destinations@,
                            peds0.velocities@,
                            peds0.desired_speeds@,
                            g.model.pedestrians,
                            self.field,
                            new_pedestrians@,
                            sp,
                        );
                    assert(sp.len() == new_pedestrians@.len());
                }
                match g.plan_dispatch() {
                    None => TickOutcome::Done(0),
                    Some(job) => TickOutcome::AwaitingDevice(job),
                }
            },
        }
    }

    /// Commit a device tick with the read-back accelerations. Fails
    /// explicitly when the backend is not a device or the buffer is
    /// ill-sized; a failed tick changes nothing.
    pub fn complete_tick(&mut self, accs: &Vec<util::Vec2Fx>) -> (r: Result<i32, sfm_gpu::GpuError>)
        requires
            old(self).wf(),
        ensures
            final(self).wf(),
            final(self).step == old(self).step,
            old(self).model is Cpu ==> r is Err && *final(self) == *old(self),
            // a well-sized read-back on the device backend always commits:
            // this function makes no outside call, so success is owed
            match old(self).model {
                Model::Gpu(g0) => accs@.len() == g0.model.pedestrians.positions@.len() ==> r
                    is Ok,
                Model::Cpu(_) => true,
            },
            match (old(self).model, final(self).model, r) {
                (Model::Gpu(g0), Model::Gpu(g1), Result::Ok(c)) => {
                    &&& accs@.len() == g0.model.pedestrians.positions@.len()
                    &&& c == g1.model.pedestrians.positions@.len()
                    &&& g1.model.pedestrians.positions@.len()
                        == g0.model.pedestrians.positions@.len()
                    &&& g1.model.pedestrians.destinations@ == g0.model.pedestrians.destinations@
                    &&& g1.model.pedestrians.desired_speeds@
                        == g0.model.pedestrians.desired_speeds@
                    &&& forall|i: int|
                        0 <= i < g0.model.pedestrians.positions@.len()
                            ==> #[trigger] g1.model.pedestrians.positions@[i]
                            == models::spec_integrate(
                            g0.model.pedestrians.positions@[i],
                            g0.model.pedestrians.velocities@[i],
                            util::Vec2Fx {
                                x: models::spec_clamp_acc(accs@[i].x as int) as i64,
                                y: models::spec_clamp_acc(accs@[i].y as int) as i64,
                            },
                            g0.model.pedestrians.desired_speeds@[i] as int,
                        ).0
                    &&& forall|i: int|
                        0 <= i < g0.model.pedestrians.positions@.len()
                            ==> #[trigger] g1.model.pedestrians.velocities@[i]
                            == models::spec_integrate(
                            g0.model.pedestrians.positions@[i],
                            g0.model.pedestrians.velocities@[i],
                            util::Vec2Fx {
                                x: models::spec_clamp_acc(accs@[i].x as int) as i64,
                                y: models::spec_clamp_acc(accs@[i].y as int) as i64,
                            },
                            g0.model.pedestrians.desired_speeds@[i] as int,
                        ).1
                },
                (Model::Gpu(g0), _, Result::Err(e)) => e == sfm_gpu::GpuError::WrongLength
                    && accs@.len() != g0.model.pedestrians.positions@.len() && *final(self)
                    == *old(self),
                (Model::Cpu(_), _, Result::Err(e)) => e == sfm_gpu::GpuError::NotDeviceBackend,
                _ => false,
            },
    {
        match &mut self.model {
            Model::Cpu(_) => Err(sfm_gpu::GpuError::NotDeviceBackend),
            Model::Gpu(g) => {
                match g.apply_accelerations(accs) {
                    Ok(()) => Ok(g.get_pedestrian_count()),
                    Err(e) => Err(e),
                }
            },
        }
    }

    /// Snapshot of the active pedestrians' positions and destinations.
    pub fn list_pedestrians(&self) -> (r: Vec<models::Pedestrian>)
        requires
            self.wf(),
        ensures
            ({
                let peds = match self.model {
                    Model::Cpu(m) => m.pedestrians,
                    Model::Gpu(g) => g.model.pedestrians,
                };
                &&& r@.len() == peds.positions@.len()
                &&& forall|i: int|
                    0 <= i < r@.len() ==> (#[trigger] r@[i]).pos == peds.positions@[i]
                        && r@[i].destination == peds.destinations@[i] as int
            }),
    {
        match &self.model {
            Model::Cpu(m) => m.list_pedestrians(),
            Model::Gpu(g) => g.list_pedestrians(),
        }
    }

    /// Number of active pedestrians.
    pub fn get_pedestrian_count(&self) -> (r: i32)
        requires
            self.wf(),
        ensures
            r == match self.model {
                Model::Cpu(m) => m.pedestrians.positions@.len() as int,
                Model::Gpu(g) => g.model.pedestrians.positions@.len() as int,
            },
    {
        match &self.model {
            Model::Cpu(m) => m.get_pedestrian_count(),
            Model::Gpu(g) => g.get_pedestrian_count(),
        }
    }
}

/// Spawn positions for every one-shot source: `count` pedestrians placed
/// uniformly at random along the origin waypoint's segment.
#[verifier::rlimit(80)]
#[verifier::spinoff_prover]
fn collect_once_spawns(
    scenario: &scenario::Scenario,
    field: &field::Field,
    rng: &mut fastrand::Rng,
) -> (r: Vec<models::Pedestrian>)
    requires
        scenario.wf(),
        field.wf(),
        field.potential_maps@.len() == scenario.waypoints@.len(),
    ensures
        r@.len() == spec_once_total(
            scenario.pedestrians@,
            scenario.pedestrians@.len() as int,
        ),
        r@.len() <= 0x40000000,
        forall|i: int|
            0 <= i < r@.len() ==> (#[trigger] r@[i]).pos.bounded_by(scenario::COORD_MAX as int)
                && r@[i].destination < field.potential_maps@.len(),
        once_blocks_ok(
            scenario.pedestrians@,
            scenario.waypoints@,
            scenario.pedestrians@.len() as int,
            r@,
        ),
{
    let mut r: Vec<models::Pedestrian> = Vec::new();
    let n_cfg = scenario.pedestrians.len();
    let mut c: usize = 0;
    while c < n_cfg
        invariant
            scenario.wf(),
            field.wf(),
            field.potential_maps@.len() == scenario.waypoints@.len(),
            n_cfg == scenario.pedestrians@.len(),
            c <= n_cfg,
            r@.len() == spec_once_total(scenario.pedestrians@, c as int),
            forall|i: int|
                0 <= i < r@.len() ==> (#[trigger] r@[i]).pos.bounded_by(scenario::COORD_MAX as int)
                    && r@[i].destination < field.potential_maps@.len(),
            once_blocks_ok(scenario.pedestrians@, scenario.waypoints@, c as int, r@),
        decreases n_cfg - c,
    {
        proof {
            lemma_once_total_bounds(scenario.pedestrians@, c as int);
        }
        let ghost pre = r@;
        let cfg = &scenario.pedestrians[c];
        match cfg.spawn {
            scenario::PedestrianSpawnConfig::Once { count } => {
                let line = scenario.waypoints[cfg.origin].line;
                let mut k: i32 = 0;
                while k < count
                    invariant
                        scenario.wf(),
                        field.wf(),
                        field.potential_maps@.len() == scenario.waypoints@.len(),
                        n_cfg == scenario.pedestrians@.len(),
                        c < n_cfg,
                        0 <= k <= count,
                        0 <= count <= 0x8000,
                        scenario.pedestrians@[c as int] == *cfg,
                        cfg.spawn == (scenario::PedestrianSpawnConfig::Once { count }),
                        cfg.destination < scenario.waypoints@.len(),
                        line == scenario.waypoints@[cfg.origin as int].line,
                        line[0].bounded_by(scenario::COORD_MAX as int),
                        line[1].bounded_by(scenario::COORD_MAX as int),
                        pre.len() == spec_once_total(scenario.pedestrians@, c as int),
                        pre.len() <= 0x40000000,
                        r@.len() == pre.len() + k,
                        r@.take(pre.len() as int) == pre,
                        forall|i: int|
                            0 <= i < r@.len() ==> (#[trigger] r@[i]).pos.bounded_by(
                                scenario::COORD_MAX as int,
                            ) && r@[i].destination < field.potential_maps@.len(),
                        once_blocks_ok(scenario.pedestrians@, scenario.waypoints@, c as int, r@),
                        forall|t: int|
                            pre.len() <= t < r@.len() ==> (#[trigger] r@[t]).destination
                                == cfg.destination && exists|u: int|
                                0 <= u < 1024 && r@[t].pos == spec_lerp(line[0], line[1], u),
                    decreases count - k,
                {
                    let ghost before = r@;
                    let t = rng::rand_below(rng, 1024) as i64;
                    let pos = lerp(line[0], line[1], t);
                    r.push(models::Pedestrian { pos, destination: cfg.destination });
                    proof {
                        assert(r@.take(pre.len() as int) =~= before.take(pre.len() as int));
                        assert(r@[before.len() as int].pos == spec_lerp(
                            line[0],
                            line[1],
                            t as int,
                        ));
                        assert forall|s: int, t2: int|
                            #![trigger spec_once_total(scenario.pedestrians@, s), r@[t2]]
                            0 <= s < c && spec_once_total(scenario.pedestrians@, s) <= t2
                                < spec_once_total(scenario.pedestrians@, s + 1) implies ({
                            &&& r@[t2].destination == scenario.pedestrians@[s].destination
                            &&& exists|u: int|
                                0 <= u < 1024 && r@[t2].pos == spec_lerp(
                                    scenario.waypoints@[scenario.pedestrians@[s].origin as int].line[0],
                                    scenario.waypoints@[scenario.pedestrians@[s].origin as int].line[1],
                                    u,
                                )
                        }) by {
                            lemma_once_total_bounds(scenario.pedestrians@, s);
                            lemma_once_total_mono(scenario.pedestrians@, s + 1, c as int);
                            assert(0 <= t2 < pre.len());
                            assert(r@[t2] == before[t2]);
                        }
                    }
                    k = k + 1;
                }
                proof {
                    assert(spec_once_total(scenario.pedestrians@, c + 1) == pre.len() + count);
                    assert forall|s: int, t2: int|
                        #![trigger spec_once_total(scenario.pedestrians@, s), r@[t2]]
                        0 <= s < c + 1 && spec_once_total(scenario.pedestrians@, s) <= t2
                            < spec_once_total(scenario.pedestrians@, s + 1) implies ({
                        &&& r@[t2].destination == scenario.pedestrians@[s].destination
                        &&& exists|u: int|
                            0 <= u < 1024 && r@[t2].pos == spec_lerp(
                                scenario.waypoints@[scenario.pedestrians@[s].origin as int].line[0],
                                scenario.waypoints@[scenario.pedestrians@[s].origin as int].line[1],
                                u,
                            )
                    }) by {
                        lemma_once_total_bounds(scenario.pedestrians@, s);
                        if s == c {
                            assert(spec_once_total(scenario.pedestrians@, s) == pre.len());
                            assert(pre.len() <= t2 < r@.len());
                            assert(r@[t2].destination == cfg.destination);
                            let u0 = choose|u: int|
                                0 <= u < 1024 && r@[t2].pos == spec_lerp(line[0], line[1], u);
                            assert(0 <= u0 < 1024 && r@[t2].pos == spec_lerp(
                                scenario.waypoints@[scenario.pedestrians@[s].origin as int].line[0],
                                scenario.waypoints@[scenario.pedestrians@[s].origin as int].line[1],
                                u0,
                            ));
                        } else {
                            lemma_once_total_mono(scenario.pedestrians@, s + 1, c as int);
                            assert(0 <= t2 < pre.len());
                            let u0 = choose|u: int|
                                0 <= u < 1024 && r@[t2].pos == spec_lerp(
                                    scenario.waypoints@[scenario.pedestrians@[s].origin as int].line[0],
                                    scenario.waypoints@[scenario.pedestrians@[s].origin as int].line[1],
                                    u,
                                );
                            assert(0 <= u0 < 1024 && r@[t2].pos == spec_lerp(
                                scenario.waypoints@[scenario.pedestrians@[s].origin as int].line[0],
                                scenario.waypoints@[scenario.pedestrians@[s].origin as int].line[1],
                                u0,
                            ));
                        }
                    }
                    assert(once_blocks_ok(
                        scenario.pedestrians@,
                        scenario.waypoints@,
                        c as int + 1,
                        r@,
                    ));
                }
            },
            scenario::PedestrianSpawnConfig::Periodic { .. } => {
                proof {
                    assert(spec_once_total(scenario.pedestrians@, c + 1) == spec_once_total(
                        scenario.pedestrians@,
                        c as int,
                    ));
                    assert forall|s: int, t2: int|
                        #![trigger spec_once_total(scenario.pedestrians@, s), r@[t2]]
                        0 <= s < c + 1 && spec_once_total(scenario.pedestrians@, s) <= t2
                            < spec_once_total(scenario.pedestrians@, s + 1) implies ({
                        &&& r@[t2].destination == scenario.pedestrians@[s].destination
                        &&& exists|u: int|
                            0 <= u < 1024 && r@[t2].pos == spec_lerp(
                                scenario.waypoints@[scenario.pedestrians@[s].origin as int].line[0],
                                scenario.waypoints@[scenario.pedestrians@[s].origin as int].line[1],
                                u,
                            )
                    }) by {
                        lemma_once_total_bounds(scenario.pedestrians@, s);
                        assert(s < c);
                        let u0 = choose|u: int|
                            0 <= u < 1024 && r@[t2].pos == spec_lerp(
                                scenario.waypoints@[scenario.pedestrians@[s].origin as int].line[0],
                                scenario.waypoints@[scenario.pedestrians@[s].origin as int].line[1],
                                u,
                            );
                        assert(0 <= u0 < 1024 && r@[t2].pos == spec_lerp(
                            scenario.waypoints@[scenario.pedestrians@[s].origin as int].line[0],
                            scenario.waypoints@[scenario.pedestrians@[s].origin as int].line[1],
                            u0,
                        ));
                    }
                    assert(once_blocks_ok(
                        scenario.pedestrians@,
                        scenario.waypoints@,
                        c as int + 1,
                        r@,
                    ));
                }
            },
        }
        c = c + 1;
    }
    proof {
        lemma_once_total_bounds(scenario.pedestrians@, n_cfg as int);
        assert((n_cfg as int) * 0x8000 <= 0x40000000) by (nonlinear_arith)
            requires
                n_cfg <= 0x8000;
    }
    r
}

/// The one-shot totals grow with the prefix length.
proof fn lemma_once_total_mono(cfgs: Seq<scenario::PedestrianConfig>, a: int, b: int)
    requires
        a <= b,
        forall|s: int|
            0 <= s < cfgs.len() ==> (match (#[trigger] cfgs[s]).spawn {
                scenario::PedestrianSpawnConfig::Once { count } => 0 <= count <= 0x8000,
                scenario::PedestrianSpawnConfig::Periodic { .. } => true,
            }),
        b <= cfgs.len(),
    ensures
        spec_once_total(cfgs, a) <= spec_once_total(cfgs, b),
    decreases b - a,
{
    if a < b {
        lemma_once_total_mono(cfgs, a, b - 1);
    }
}

/// Spawn positions for every periodic source: a Poisson-distributed count
/// per tick (the per-second rate over ten ticks a second), placed uniformly
/// along the origin segment. Spawning saturates at the model's capacity.
#[verifier::rlimit(80)]
#[verifier::spinoff_prover]
fn collect_periodic_spawns(
    scenario: &scenario::Scenario,
    field: &field::Field,
    current: i32,
    rng: &mut fastrand::Rng,
) -> (r: Vec<models::Pedestrian>)
    requires
        scenario.wf(),
        field.wf(),
        field.potential_maps@.len() == scenario.waypoints@.len(),
        current >= 0,
    ensures
        current + r@.len() <= 0x7fffffff,
        forall|i: int|
            0 <= i < r@.len() ==> (#[trigger] r@[i]).pos.bounded_by(scenario::COORD_MAX as int)
                && r@[i].destination < field.potential_maps@.len(),
        (forall|s: int|
            0 <= s < scenario.pedestrians@.len() ==> !((#[trigger] scenario.pedestrians@[s]).spawn
                is Periodic)) ==> r@.len() == 0,
        // every spawned pedestrian comes from some periodic source, on its
        // origin segment and bound for its destination
        forall|i: int|
            0 <= i < r@.len() ==> periodic_spawnee(
                scenario.pedestrians@,
                scenario.waypoints@,
                #[trigger] r@[i],
            ),
{
    let mut r: Vec<models::Pedestrian> = Vec::new();
    let n_cfg = scenario.pedestrians.len();
    let mut c: usize = 0;
    while c < n_cfg
        invariant
            scenario.wf(),
            field.wf(),
            field.potential_maps@.len() == scenario.waypoints@.len(),
            n_cfg == scenario.pedestrians@.len(),
            c <= n_cfg,
            current >= 0,
            current + r@.len() <= 0x7fffffff,
            forall|i: int|
                0 <= i < r@.len() ==> (#[trigger] r@[i]).pos.bounded_by(scenario::COORD_MAX as int)
                    && r@[i].destination < field.potential_maps@.len(),
            (forall|s: int|
                0 <= s < scenario.pedestrians@.len() ==> !((
                #[trigger] scenario.pedestrians@[s]).spawn is Periodic)) ==> r@.len() == 0,
            forall|i: int|
                0 <= i < r@.len() ==> periodic_spawnee(
                    scenario.pedestrians@,
                    scenario.waypoints@,
                    #[trigger] r@[i],
                ),
        decreases n_cfg - c,
    {
        let cfg = &scenario.pedestrians[c];
        match cfg.spawn {
            scenario::PedestrianSpawnConfig::Periodic { frequency } => {
                let line = scenario.waypoints[cfg.origin].line;
                let lambda = frequency / 10;
                let count = util::poisson(lambda, rng);
                let mut k: i32 = 0;
                while k < count
                    invariant
                        scenario.wf(),
                        field.wf(),
                        field.potential_maps@.len() == scenario.waypoints@.len(),
                        n_cfg == scenario.pedestrians@.len(),
                        c < n_cfg,
                        0 <= k <= (if count >= 0 {
                            count as int
                        } else {
                            0int
                        }),
                        current >= 0,
                        scenario.pedestrians@[c as int] == *cfg,
                        cfg.spawn == (scenario::PedestrianSpawnConfig::Periodic { frequency }),
                        cfg.destination < scenario.waypoints@.len(),
                        line == scenario.waypoints@[cfg.origin as int].line,
                        line[0].bounded_by(scenario::COORD_MAX as int),
                        line[1].bounded_by(scenario::COORD_MAX as int),
                        current + r@.len() <= 0x7fffffff,
                        forall|i: int|
                            0 <= i < r@.len() ==> (#[trigger] r@[i]).pos.bounded_by(
                                scenario::COORD_MAX as int,
                            ) && r@[i].destination < field.potential_maps@.len(),
                        forall|i: int|
                            0 <= i < r@.len() ==> periodic_spawnee(
                                scenario.pedestrians@,
                                scenario.waypoints@,
                                #[trigger] r@[i],
                            ),
                    decreases count - k,
                {
                    if (current as usize) + r.len() < 0x7fffffff {
                        let ghost before = r@;
                        let t = rng::rand_below(rng, 1024) as i64;
                        let pos = lerp(line[0], line[1], t);
                        let spawnee = models::Pedestrian { pos, destination: cfg.destination };
                        r.push(spawnee);
                        proof {
                            assert(spawnee.pos == spec_lerp(
                                scenario.waypoints@[scenario.pedestrians@[c as int].origin as int].line[0],
                                scenario.waypoints@[scenario.pedestrians@[c as int].origin as int].line[1],
                                t as int,
                            ));
                            assert(periodic_spawnee(
                                scenario.pedestrians@,
                                scenario.waypoints@,
                                spawnee,
                            ));
                            assert forall|i: int|
                                0 <= i < r@.len() implies periodic_spawnee(
                                scenario.pedestrians@,
                                scenario.waypoints@,
                                #[trigger] r@[i],
                            ) by {
                                if i < before.len() {
                                    assert(r@[i] == before[i]);
                                } else {
                                    assert(r@[i] == spawnee);
                                }
                            }
                        }
                    }
                    k = k + 1;
                }
            },
            scenario::PedestrianSpawnConfig::Once { .. } => {},
        }
        c = c + 1;
    }
    r
}


} // verus!
