//! The simulation engine: owns the cell collection and the spatial grid
//! and drives the per-tick pipeline — cell updates, grid rebuild, collision
//! energy exchange, pruning, reproduction, sensors, best-genome tracking,
//! adaptive population control and extinction recovery.

use rayon::iter::{IntoParallelRefMutIterator, ParallelIterator};
use vstd::prelude::*;

verus! {

use crate::cell::{
    Cell, CellState, SensorReading, reading_wf, updated, lifecycle_state, cell_like,
    spec_child_core, spec_child_offset, GROWTH_AGE, INITIAL_ENERGY, WORLD_DIM_LIMIT,
    SPAWN_POS_LIMIT, CHUNK_MIN, CHUNK_MAX, SPECIES_MIN, SPECIES_MAX, HUE_MAX,
};
pub use crate::cell::{SENSOR_RANGE, SENSOR_COUNT};
use crate::config::SimulationConfig;
use crate::fixed::{div_floor, mod_euclid, isqrt, atan2_fp, spec_atan2, PI_FP, TAU_FP, SCALE};
use crate::neural_network::{NeuralNetwork, nn_eq};
use crate::rng::rand_range;
use crate::spatial_grid::SpatialGrid;
use crate::stats::{Stats, BestCellStats, spec_fitness};

/// Below this average frame rate the population cap shrinks.
pub const TARGET_MIN_FPS: i64 = 30000;

/// Above this average frame rate the population cap grows.
pub const TARGET_MAX_FPS: i64 = 240000;

/// Length of the rolling frame-time window.
pub const FPS_SAMPLE_SIZE: usize = 60;

/// Simulated seconds between cap adjustments, in thousandths.
pub const ADJUSTMENT_INTERVAL: i64 = 2000;

/// How many cells the cap moves per adjustment.
pub const CELL_CAP_STEP: usize = 100;

/// An alive cell above this energy reproduces when the cap allows.
pub const REPRODUCTION_ENERGY_THRESHOLD: i64 = 100000;

/// A cell whose energy falls below this floor is removed.
pub const DEPLETED_CELL_ENERGY: i64 = -100000;

/// Side length of a spatial-grid bucket.
pub const BUCKET_SIZE: i64 = 100000;

/// Hard cap on the population, so energy-exchange sums stay in range.
pub const MAX_POP: usize = 1000000;

/// Largest frame delta the engine accepts (one thousand seconds).
pub const FRAME_TIME_LIMIT: i64 = 1000000;

/// Every index recorded in the grid points at a current cell.
pub open spec fn grid_valid(grid: SpatialGrid, cells: Seq<Cell>) -> bool {
    forall|b: int, k: int|
        0 <= b < grid.buckets@.len() && 0 <= k < grid.buckets@[b]@.len()
            ==> (#[trigger] grid.buckets@[b]@[k]) < cells.len()
}

/// No index is recorded twice anywhere in the grid: together with
/// `grid_complete`, every cell appears in exactly one bucket, exactly once.
pub open spec fn grid_injective(grid: SpatialGrid) -> bool {
    forall|b1: int, k1: int, b2: int, k2: int|
        0 <= b1 < grid.buckets@.len() && 0 <= k1 < grid.buckets@[b1]@.len() && 0 <= b2
            < grid.buckets@.len() && 0 <= k2 < grid.buckets@[b2]@.len() && (#[trigger] grid.buckets@[b1]@[k1])
            == (#[trigger] grid.buckets@[b2]@[k2]) ==> b1 == b2 && k1 == k2
}

/// Every current cell is recorded in the bucket of its wrapped position.
pub open spec fn grid_complete(grid: SpatialGrid, cells: Seq<Cell>) -> bool {
    forall|i: int|
        0 <= i < cells.len() ==> grid.buckets@[grid.bucket_index_of(
            (#[trigger] cells[i]).x as int,
            cells[i].y as int,
        )]@.contains(i as usize)
}

pub struct World {
    pub cells: Vec<Cell>,
    pub spatial_grid: SpatialGrid,
    /// Adaptive population cap.
    pub max_cells: usize,
    /// Rolling window of recent frame times, newest last.
    pub frame_times: Vec<i64>,
    pub last_adjustment_time: i64,
    /// Average frame rate over the window, in thousandths.
    pub current_fps: i64,
    pub stats: Stats,
    /// Deep copy of the fittest cell seen, for respawning.
    pub best_cell_genome: Option<Cell>,
    /// Index of the fittest cell when it was last computed; stale after
    /// removals until the next bookkeeping pass.
    pub last_best_cell_index: Option<usize>,
    pub selected_cell_index: Option<usize>,
    pub paused: bool,
    /// Display speed multiplier, in thousandths.
    pub simulation_speed: i64,
    /// Hue variance of the living population, normalized into `[0, 1000]`.
    pub color_diversity: i64,
    pub config: SimulationConfig,
}

impl World {
    /// The engine invariant, re-established at every tick boundary.
    pub open spec fn wf(self) -> bool {
        &&& self.config.wf()
        &&& self.cells@.len() <= MAX_POP
        &&& self.max_cells <= MAX_POP
        &&& forall|i: int| 0 <= i < self.cells@.len() ==> (#[trigger] self.cells@[i]).wf()
        &&& forall|i: int|
            0 <= i < self.cells@.len() ==> DEPLETED_CELL_ENERGY <= (
            #[trigger] self.cells@[i]).energy <= 330000
        &&& forall|i: int|
            0 <= i < self.cells@.len() ==> 0 <= (
            #[trigger] self.cells@[i]).total_energy_accumulated
        &&& forall|i: int|
            0 <= i < self.cells@.len() ==> -200000 <= (#[trigger] self.cells@[i]).x
                <= self.config.world_width + 200000
        &&& forall|i: int|
            0 <= i < self.cells@.len() ==> -200000 <= (#[trigger] self.cells@[i]).y
                <= self.config.world_height + 200000
        &&& self.spatial_grid.wf()
        &&& self.spatial_grid.bucket_size == BUCKET_SIZE
        &&& self.frame_times@.len() <= FPS_SAMPLE_SIZE
        &&& forall|i: int|
            0 <= i < self.frame_times@.len() ==> 0 <= #[trigger] self.frame_times@[i]
                <= FRAME_TIME_LIMIT
        &&& 0 <= self.last_adjustment_time <= ADJUSTMENT_INTERVAL + FRAME_TIME_LIMIT
        &&& 0 <= self.current_fps
        &&& match self.best_cell_genome {
            Some(c) => c.wf() && -SPAWN_POS_LIMIT <= c.x <= SPAWN_POS_LIMIT && -SPAWN_POS_LIMIT
                <= c.y <= SPAWN_POS_LIMIT,
            None => true,
        }
        &&& (self.last_best_cell_index is Some ==> self.best_cell_genome is Some)
        &&& 125 <= self.simulation_speed <= 8000
        &&& 0 <= self.color_diversity <= 1000
    }

    /// Builds a world from the configuration: the initial population is
    /// spawned with random traits (each seeded from the persisted best
    /// brain when one is handed in), and the cap starts at the initial
    /// count.
    pub fn spawn(
        config: SimulationConfig,
        saved: Option<(NeuralNetwork, usize)>,
        rng: &mut rand::rngs::StdRng,
    ) -> (w: World)
        requires
            config.wf(),
            match saved {
                Some(p) => p.0.wf() && p.0.input_size == crate::cell::BRAIN_INPUTS
                    && p.0.output_size == crate::cell::ACTION_COUNT,
                None => true,
            },
        ensures
            w.wf(),
            w.cells@.len() == config.initial_cell_count,
            w.max_cells == config.initial_cell_count,
            w.paused == false,
            w.config == config,
            forall|i: int|
                0 <= i < w.cells@.len() ==> (#[trigger] w.cells@[i]).state == CellState::Alive,
            forall|i: int|
                0 <= i < w.cells@.len() ==> (#[trigger] w.cells@[i]).energy == INITIAL_ENERGY
                    && w.cells@[i].total_energy_accumulated == INITIAL_ENERGY,
            forall|i: int|
                0 <= i < w.cells@.len() ==> 0 <= (#[trigger] w.cells@[i]).x < config.world_width
                    && 0 <= w.cells@[i].y < config.world_height,
            w.simulation_speed == 1000,
            w.best_cell_genome is None,
            w.last_best_cell_index is None,
            w.selected_cell_index is None,
            w.color_diversity == 0,
            w.frame_times@.len() == 0,
            w.current_fps == 60000,
            w.last_adjustment_time == 0,
            w.stats.best_cell is None,
            w.stats.selected == true,
            w.spatial_grid.bucket_size == BUCKET_SIZE,
            w.spatial_grid.grid_width == (config.world_width + BUCKET_SIZE - 1) / (
            BUCKET_SIZE as int),
            w.spatial_grid.grid_height == (config.world_height + BUCKET_SIZE - 1) / (
            BUCKET_SIZE as int),
            forall|b: int|
                0 <= b < w.spatial_grid.buckets@.len() ==> (
                #[trigger] w.spatial_grid.buckets@[b]@).len() == 0,
    {
        let mut cells: Vec<Cell> = Vec::new();
        let mut i: usize = 0;
        while i < config.initial_cell_count
            invariant
                config.wf(),
                match saved {
                    Some(p) => p.0.wf() && p.0.input_size == crate::cell::BRAIN_INPUTS
                        && p.0.output_size == crate::cell::ACTION_COUNT,
                    None => true,
                },
                i <= config.initial_cell_count,
                cells@.len() == i,
                forall|k: int| 0 <= k < i ==> (#[trigger] cells@[k]).wf(),
                forall|k: int| 0 <= k < i ==> (#[trigger] cells@[k]).energy == INITIAL_ENERGY,
                forall|k: int|
                    0 <= k < i ==> (#[trigger] cells@[k]).total_energy_accumulated
                        == INITIAL_ENERGY,
                forall|k: int|
                    0 <= k < i ==> 0 <= (#[trigger] cells@[k]).x < config.world_width,
                forall|k: int|
                    0 <= k < i ==> 0 <= (#[trigger] cells@[k]).y < config.world_height,
                forall|k: int| 0 <= k < i ==> (#[trigger] cells@[k]).state == CellState::Alive,
            decreases config.initial_cell_count - i,
        {
            let seed_brain = match &saved {
                Some(p) => Some((p.0.clone(), p.1)),
                None => None,
            };
            let c = Cell::spawn(config.world_width, config.world_height, seed_brain, rng);
            cells.push(c);
            i = i + 1;
        }
        proof {
            vstd::arithmetic::div_mod::lemma_div_is_ordered(
                config.world_width + BUCKET_SIZE - 1,
                WORLD_DIM_LIMIT as int + BUCKET_SIZE - 1,
                BUCKET_SIZE as int,
            );
            vstd::arithmetic::div_mod::lemma_div_is_ordered(
                config.world_height + BUCKET_SIZE - 1,
                WORLD_DIM_LIMIT as int + BUCKET_SIZE - 1,
                BUCKET_SIZE as int,
            );
            vstd::arithmetic::div_mod::lemma_fundamental_div_mod_converse(
                WORLD_DIM_LIMIT as int + BUCKET_SIZE - 1,
                BUCKET_SIZE as int,
                30000,
                99999,
            );
        }
        let spatial_grid = SpatialGrid::new(config.world_width, config.world_height, BUCKET_SIZE);
        let max_cells = config.initial_cell_count;
        World {
            cells,
            spatial_grid,
            max_cells,
            frame_times: Vec::new(),
            last_adjustment_time: 0,
            current_fps: 60000,
            stats: Stats::new(),
            best_cell_genome: None,
            last_best_cell_index: None,
            selected_cell_index: None,
            paused: false,
            simulation_speed: 1000,
            color_diversity: 0,
            config,
        }
    }

    /// Clears the grid and reinserts every cell at its current position:
    /// afterwards each index sits in exactly the bucket of its wrapped
    /// position, and the grid holds no stale index.
    fn rebuild_spatial_grid(&mut self)
        requires
            old(self).wf_mid_tick(),
        ensures
            final(self).wf_mid_tick(),
            *final(self) == (World { spatial_grid: final(self).spatial_grid, ..*old(self) }),
            final(self).spatial_grid.wf(),
            final(self).spatial_grid.bucket_size == old(self).spatial_grid.bucket_size,
            grid_valid(final(self).spatial_grid, final(self).cells@),
            grid_complete(final(self).spatial_grid, final(self).cells@),
            grid_injective(final(self).spatial_grid),
    {
        self.spatial_grid.clear();
        let mut i: usize = 0;
        while i < self.cells.len()
            invariant
                self.wf_mid_tick(),
                *self == (World { spatial_grid: self.spatial_grid, ..*old(self) }),
                self.spatial_grid.wf(),
                self.spatial_grid.bucket_size == old(self).spatial_grid.bucket_size,
                i <= self.cells@.len(),
                forall|b: int, k: int|
                    0 <= b < self.spatial_grid.buckets@.len() && 0 <= k
                        < self.spatial_grid.buckets@[b]@.len()
                        ==> (#[trigger] self.spatial_grid.buckets@[b]@[k]) < i,
                grid_injective(self.spatial_grid),
                forall|j: int|
                    0 <= j < i ==> self.spatial_grid.buckets@[self.spatial_grid.bucket_index_of(
                        (#[trigger] self.cells@[j]).x as int,
                        self.cells@[j].y as int,
                    )]@.contains(j as usize),
            decreases self.cells@.len() - i,
        {
            let x = self.cells[i].x;
            let y = self.cells[i].y;
            let ghost pre_grid = self.spatial_grid;
            self.spatial_grid.insert(x, y, i);
            proof {
                let bi = pre_grid.bucket_index_of(x as int, y as int);
                pre_grid.lemma_bucket_index_of_in_range(x as int, y as int);
                assert(self.spatial_grid.buckets@[bi]@ == pre_grid.buckets@[bi]@.push(i));
                assert forall|cx: int, cy: int|
                    #[trigger] self.spatial_grid.bucket_index_of(cx, cy)
                        == pre_grid.bucket_index_of(cx, cy) by {
                }
                assert forall|b: int, k: int|
                    0 <= b < self.spatial_grid.buckets@.len() && 0 <= k
                        < self.spatial_grid.buckets@[b]@.len() implies (
                #[trigger] self.spatial_grid.buckets@[b]@[k]) < i + 1 by {
                    if b == bi && k == pre_grid.buckets@[bi]@.len() {
                    } else {
                        assert(self.spatial_grid.buckets@[b]@[k] == pre_grid.buckets@[b]@[k]);
                    }
                }
                assert forall|j: int|
                    0 <= j < i + 1 implies self.spatial_grid.buckets@[
                self.spatial_grid.bucket_index_of(
                    (#[trigger] self.cells@[j]).x as int,
                    self.cells@[j].y as int,
                )]@.contains(j as usize) by {
                    let bj = self.spatial_grid.bucket_index_of(
                        self.cells@[j].x as int,
                        self.cells@[j].y as int,
                    );
                    assert(bj == pre_grid.bucket_index_of(
                        self.cells@[j].x as int,
                        self.cells@[j].y as int,
                    ));
                    pre_grid.lemma_bucket_index_of_in_range(
                        self.cells@[j].x as int,
                        self.cells@[j].y as int,
                    );
                    if j < i {
                        let idx = choose|idx: int|
                            0 <= idx < pre_grid.buckets@[bj]@.len() && pre_grid.buckets@[bj]@[idx]
                                == j as usize;
                        assert(self.spatial_grid.buckets@[bj]@[idx] == j as usize);
                        assert(0 <= idx < self.spatial_grid.buckets@[bj]@.len());
                    } else {
                        assert(bj == bi);
                        assert(self.spatial_grid.buckets@[bi]@[pre_grid.buckets@[bi]@.len() as int]
                            == i as usize);
                        assert(0 <= pre_grid.buckets@[bi]@.len()
                            < self.spatial_grid.buckets@[bi]@.len());
                    }
                }
            }
            i = i + 1;
        }
    }

    /// Pushes the frame delta into the rolling window (dropping the oldest
    /// past sixty samples) and recomputes the average frame rate.
    fn update_fps(&mut self, delta_time: i64)
        requires
            old(self).wf(),
            0 <= delta_time <= FRAME_TIME_LIMIT,
        ensures
            final(self).wf(),
            *final(self) == (World {
                frame_times: final(self).frame_times,
                current_fps: final(self).current_fps,
                ..*old(self)
            }),
            final(self).frame_times@.len() == if old(self).frame_times@.len() < FPS_SAMPLE_SIZE {
                old(self).frame_times@.len() as int + 1
            } else {
                FPS_SAMPLE_SIZE as int
            },
            final(self).frame_times@ == if old(self).frame_times@.len() < FPS_SAMPLE_SIZE {
                old(self).frame_times@.push(delta_time)
            } else {
                old(self).frame_times@.push(delta_time).subrange(
                    1,
                    old(self).frame_times@.len() as int + 1,
                )
            },
            final(self).frame_times@.last() == delta_time,
            final(self).current_fps == spec_fps(final(self).frame_times@),
            0 <= final(self).current_fps,
    {
        self.frame_times.push(delta_time);
        while self.frame_times.len() > FPS_SAMPLE_SIZE
            invariant
                *self == (World { frame_times: self.frame_times, ..*old(self) }),
                1 <= self.frame_times@.len() <= old(self).frame_times@.len() + 1,
                old(self).frame_times@.len() <= FPS_SAMPLE_SIZE,
                self.frame_times@.len() == old(self).frame_times@.len() + 1
                    || self.frame_times@.len() == FPS_SAMPLE_SIZE as int,
                self.frame_times@ == old(self).frame_times@.push(delta_time).subrange(
                    old(self).frame_times@.len() as int + 1 - self.frame_times@.len() as int,
                    old(self).frame_times@.len() as int + 1,
                ),
                forall|i: int|
                    0 <= i < self.frame_times@.len() ==> 0 <= #[trigger] self.frame_times@[i]
                        <= FRAME_TIME_LIMIT,
                self.frame_times@.last() == delta_time,
            decreases self.frame_times@.len(),
        {
            proof {
                assert(self.frame_times@.remove(0).last() == self.frame_times@.last());
                assert(self.frame_times@.remove(0) =~= self.frame_times@.subrange(
                    1,
                    self.frame_times@.len() as int,
                ));
            }
            self.frame_times.remove(0);
        }
        proof {
            assert(self.frame_times@.len() == if old(self).frame_times@.len() < FPS_SAMPLE_SIZE {
                old(self).frame_times@.len() as int + 1
            } else {
                FPS_SAMPLE_SIZE as int
            });
        }
        let mut sum: i64 = 0;
        let mut i: usize = 0;
        while i < self.frame_times.len()
            invariant
                self.frame_times@.len() <= FPS_SAMPLE_SIZE,
                forall|k: int|
                    0 <= k < self.frame_times@.len() ==> 0 <= #[trigger] self.frame_times@[k]
                        <= FRAME_TIME_LIMIT,
                i <= self.frame_times@.len(),
                sum == seq_sum_i64(self.frame_times@, i as int),
                0 <= sum <= i * FRAME_TIME_LIMIT,
                0 <= sum <= 60000000,
            decreases self.frame_times@.len() - i,
        {
            sum = sum + self.frame_times[i];
            i = i + 1;
        }
        if self.frame_times.len() > 0 {
            let avg = div_floor(sum, self.frame_times.len() as i64);
            proof {
                vstd::arithmetic::div_mod::lemma_div_pos_is_pos(
                    sum as int,
                    self.frame_times@.len() as int,
                );
            }
            self.current_fps = if avg > 0 {
                proof {
                    vstd::arithmetic::div_mod::lemma_div_pos_is_pos(1000000, avg as int);
                }
                div_floor(1000000, avg)
            } else {
                60000
            };
        }
    }

    /// Every two simulated seconds, nudges the population cap down when
    /// the frame rate is under the low target and up (never past the hard
    /// cap) when it is over the high target.
    fn adjust_cell_cap(&mut self)
        requires
            old(self).wf(),
        ensures
            final(self).wf(),
            *final(self) == (World {
                max_cells: final(self).max_cells,
                last_adjustment_time: final(self).last_adjustment_time,
                ..*old(self)
            }),
            final(self).max_cells <= MAX_POP,
            old(self).last_adjustment_time + spec_last_frame(old(self).frame_times@)
                < ADJUSTMENT_INTERVAL ==> final(self).max_cells == old(self).max_cells,
            old(self).last_adjustment_time + spec_last_frame(old(self).frame_times@)
                >= ADJUSTMENT_INTERVAL ==> final(self).max_cells == spec_adjusted_cap(
                old(self).max_cells as int,
                old(self).current_fps as int,
            ),
    {
        let dt: i64 = if self.frame_times.len() > 0 {
            self.frame_times[self.frame_times.len() - 1]
        } else {
            16
        };
        self.last_adjustment_time = self.last_adjustment_time + dt;
        if self.last_adjustment_time < ADJUSTMENT_INTERVAL {
            return ;
        }
        self.last_adjustment_time = 0;
        if self.current_fps < TARGET_MIN_FPS {
            if self.max_cells > CELL_CAP_STEP {
                self.max_cells = self.max_cells - CELL_CAP_STEP;
            }
        } else if self.current_fps > TARGET_MAX_FPS {
            if self.max_cells + CELL_CAP_STEP <= MAX_POP {
                self.max_cells = self.max_cells + CELL_CAP_STEP;
            } else {
                self.max_cells = MAX_POP;
            }
        }
    }
}

/// Sum of the first `n` entries of the frame-time window.
pub open spec fn seq_sum_i64(s: Seq<i64>, n: int) -> int
    decreases n,
{
    if n <= 0 {
        0
    } else {
        seq_sum_i64(s, n - 1) + s[n - 1]
    }
}

/// The frame rate derived from a nonempty window, in thousandths: the
/// reciprocal of the average frame time, or the sixty-per-second fallback
/// when the average rounds to nothing.
pub open spec fn spec_fps(times: Seq<i64>) -> int {
    let avg = seq_sum_i64(times, times.len() as int) / (times.len() as int);
    if avg > 0 {
        1000000int / avg
    } else {
        60000
    }
}

/// The most recent frame delta, or the sixteen-thousandths fallback when
/// the window is empty.
pub open spec fn spec_last_frame(times: Seq<i64>) -> int {
    if times.len() > 0 {
        times.last() as int
    } else {
        16
    }
}

/// The cap after one adjustment at the given frame rate: a step down when
/// slow (floored at the step), a step up when fast (capped at the hard
/// limit), unchanged otherwise.
pub open spec fn spec_adjusted_cap(cap: int, fps: int) -> int {
    if fps < TARGET_MIN_FPS {
        if cap > CELL_CAP_STEP {
            cap - CELL_CAP_STEP
        } else {
            cap
        }
    } else if fps > TARGET_MAX_FPS {
        if cap + CELL_CAP_STEP <= MAX_POP {
            cap + CELL_CAP_STEP
        } else {
            MAX_POP as int
        }
    } else {
        cap
    }
}


/// One recorded collision transfer, applied after detection: the corpse
/// loses exactly the flat chunk, while the alive cell books
/// `chunk * multiplier` through `gain_energy` — its lifetime total rises
/// by exactly that amount (saturating only at the numeric limit) whether
/// or not the growth rule discards the energy itself.
pub fn apply_energy_transfer(
    cells: &mut Vec<Cell>,
    alive_idx: usize,
    corpse_idx: usize,
    chunk: i64,
    multiplier: i64,
)
    requires
        alive_idx < old(cells)@.len(),
        corpse_idx < old(cells)@.len(),
        alive_idx != corpse_idx,
        CHUNK_MIN <= chunk <= CHUNK_MAX,
        SPECIES_MIN <= multiplier <= SPECIES_MAX,
        old(cells)@[alive_idx as int].wf(),
        -crate::cell::ENERGY_LIMIT <= old(cells)@[alive_idx as int].energy
            <= crate::cell::ENERGY_LIMIT,
        0 <= old(cells)@[alive_idx as int].total_energy_accumulated,
        -crate::cell::ENERGY_LIMIT + CHUNK_MAX <= old(cells)@[corpse_idx as int].energy
            <= crate::cell::ENERGY_LIMIT,
    ensures
        final(cells)@.len() == old(cells)@.len(),
        forall|i: int|
            0 <= i < old(cells)@.len() && i != alive_idx && i != corpse_idx
                ==> (#[trigger] final(cells)@[i]) == old(cells)@[i],
        final(cells)@[corpse_idx as int] == (Cell {
            energy: (old(cells)@[corpse_idx as int].energy - chunk) as i64,
            ..old(cells)@[corpse_idx as int]
        }),
        final(cells)@[alive_idx as int].total_energy_accumulated == spec_transfer_total(
            old(cells)@[alive_idx as int].total_energy_accumulated as int,
            chunk as int,
            multiplier as int,
        ),
        final(cells)@[alive_idx as int].energy == if old(cells)@[alive_idx as int].age
            < GROWTH_AGE {
            old(cells)@[alive_idx as int].energy as int
        } else {
            old(cells)@[alive_idx as int].energy + (chunk * multiplier) / (SCALE as int)
        },
        final(cells)@[alive_idx as int] == (Cell {
            energy: final(cells)@[alive_idx as int].energy,
            total_energy_accumulated: final(cells)@[alive_idx as int].total_energy_accumulated,
            ..old(cells)@[alive_idx as int]
        }),
        40500 <= (chunk * multiplier) / (SCALE as int) <= 110000,
{
    proof {
        lemma_transfer_gain_bounds(chunk as int, multiplier as int);
    }
    let gained = div_floor(chunk * multiplier, SCALE);
    let alive_cell: &mut Cell = &mut cells[alive_idx];
    alive_cell.gain_energy(gained);
    let corpse_cell: &mut Cell = &mut cells[corpse_idx];
    corpse_cell.energy = corpse_cell.energy - chunk;
}

/// A recorded collision transfer is genuine with respect to the given
/// population: the feeder is alive, the target is a corpse, the chunk and
/// multiplier are the feeder's own traits, and the two bodies overlap
/// under the wrapped geometry of their age-dependent radii.
pub open spec fn valid_transfer(
    cells: Seq<Cell>,
    w: int,
    h: int,
    t: (usize, usize, i64, i64),
) -> bool {
    let a = t.0 as int;
    let c = t.1 as int;
    &&& 0 <= a < cells.len()
    &&& 0 <= c < cells.len()
    &&& a != c
    &&& cells[a].state == CellState::Alive
    &&& cells[c].state == CellState::Corpse
    &&& t.2 == cells[a].energy_chunk_size
    &&& t.3 == cells[a].species_multiplier
    &&& {
        let dx = spec_wrapped_delta(cells[a].x as int, cells[c].x as int, w);
        let dy = spec_wrapped_delta(cells[a].y as int, cells[c].y as int, h);
        let rr = cells[a].spec_current_radius() + cells[c].spec_current_radius();
        dx * dx + dy * dy < rr * rr
    }
}

/// The population after one recorded transfer — exactly
/// `apply_energy_transfer`'s law: the feeder books `chunk * multiplier`
/// through the growth rule (total saturating at the numeric limit), then
/// the corpse loses the flat chunk; everyone else is untouched.
pub open spec fn apply_transfer_seq(pre: Seq<Cell>, t: (usize, usize, i64, i64)) -> Seq<Cell> {
    let a = t.0 as int;
    let c = t.1 as int;
    let gained = (t.2 * t.3) / (SCALE as int);
    let new_total = spec_transfer_total(pre[a].total_energy_accumulated as int, t.2 as int, t.3 as int);
    let new_energy: int = if pre[a].age < GROWTH_AGE {
        pre[a].energy as int
    } else {
        pre[a].energy + gained
    };
    let fed = pre.update(
        a,
        (Cell {
            energy: new_energy as i64,
            total_energy_accumulated: new_total as i64,
            ..pre[a]
        }),
    );
    fed.update(c, (Cell { energy: (fed[c].energy - t.2) as i64, ..fed[c] }))
}

/// The population after the first `n` recorded transfers, applied in
/// order.
pub open spec fn transfers_applied_seq(
    pre: Seq<Cell>,
    ts: Seq<(usize, usize, i64, i64)>,
    n: int,
) -> Seq<Cell>
    decreases n,
{
    if n <= 0 {
        pre
    } else {
        apply_transfer_seq(transfers_applied_seq(pre, ts, n - 1), ts[n - 1])
    }
}

/// One swap-with-last removal at index `i`.
pub open spec fn swap_removed(s: Seq<Cell>, i: int) -> Seq<Cell> {
    s.update(i, s.last()).drop_last()
}

/// The pruning pass: indices `n - 1` down to zero are inspected in turn,
/// and a cell below the energy floor is removed by swap-with-last —
/// exactly those cells, and no others.
pub open spec fn prune_from(s: Seq<Cell>, n: int) -> Seq<Cell>
    decreases n,
{
    if n <= 0 {
        s
    } else {
        let s2 = if s[n - 1].energy < DEPLETED_CELL_ENERGY {
            swap_removed(s, n - 1)
        } else {
            s
        };
        prune_from(s2, n - 1)
    }
}

/// The lifetime total after booking one transfer of `chunk * multiplier`.
pub open spec fn spec_transfer_total(total: int, chunk: int, multiplier: int) -> int {
    let gained = (chunk * multiplier) / (SCALE as int);
    if total + gained <= i64::MAX {
        total + gained
    } else {
        i64::MAX as int
    }
}

/// The energy moved by one transfer lies well within a chunk's order of
/// magnitude.
proof fn lemma_transfer_gain_bounds(chunk: int, multiplier: int)
    requires
        CHUNK_MIN <= chunk <= CHUNK_MAX,
        SPECIES_MIN <= multiplier <= SPECIES_MAX,
    ensures
        40500000 <= chunk * multiplier <= 110000000,
        40500 <= (chunk * multiplier) / (SCALE as int) <= 110000,
{
    assert(40500000 <= chunk * multiplier <= 110000000) by (nonlinear_arith)
        requires 45000 <= chunk <= 55000, 900 <= multiplier <= 2000;
    vstd::arithmetic::div_mod::lemma_div_is_ordered(40500000, chunk * multiplier, 1000);
    vstd::arithmetic::div_mod::lemma_div_is_ordered(chunk * multiplier, 110000000, 1000);
}

/// The square of a value bounded in magnitude is bounded by the square of
/// the bound.
proof fn lemma_square_bound(v: int, b: int)
    requires
        -b <= v <= b,
        0 <= b,
    ensures
        0 <= v * v <= b * b,
{
    if v < 0 {
        assert(v * v == (-v) * (-v)) by (nonlinear_arith);
        vstd::arithmetic::mul::lemma_mul_upper_bound(-v, b, -v, b);
        vstd::arithmetic::mul::lemma_mul_nonnegative(-v, -v);
    } else {
        vstd::arithmetic::mul::lemma_mul_upper_bound(v, b, v, b);
        vstd::arithmetic::mul::lemma_mul_nonnegative(v, v);
    }
}


impl World {
    /// Collision resolution and pruning.  Alive cells feed on overlapping
    /// corpses: detection records at most one transfer per alive cell (the
    /// first overlap found in bucket order), all transfers are then applied
    /// sequentially, and finally every cell whose energy fell below the
    /// hard floor is removed by swap-with-last in descending index order.
    #[verifier::rlimit(100)]
    #[verifier::spinoff_prover]
    pub fn check_collisions(&mut self)
        requires
            old(self).wf_mid_tick(),
            forall|i: int|
                0 <= i < old(self).cells@.len() ==> (#[trigger] old(self).cells@[i]).energy < old(self).cells@[i].mass,
            forall|i: int|
                0 <= i < old(self).cells@.len() ==> 0 <= (#[trigger] old(self).cells@[i]).x < old(self).config.world_width,
            forall|i: int|
                0 <= i < old(self).cells@.len() ==> 0 <= (#[trigger] old(self).cells@[i]).y < old(self).config.world_height,
        ensures
            final(self).wf_mid_tick(),
            *final(self) == (World { cells: final(self).cells, ..*old(self) }),
            final(self).cells@.len() <= old(self).cells@.len(),
            forall|i: int|
                0 <= i < final(self).cells@.len()
                    ==> DEPLETED_CELL_ENERGY <= (#[trigger] final(self).cells@[i]).energy
                    <= 330000,
            forall|i: int|
                0 <= i < final(self).cells@.len() ==> 0 <= (#[trigger] final(self).cells@[i]).x
                    < final(self).config.world_width,
            forall|i: int|
                0 <= i < final(self).cells@.len() ==> 0 <= (#[trigger] final(self).cells@[i]).y
                    < final(self).config.world_height,
            exists|ts: Seq<(usize, usize, i64, i64)>|
                {
                    &&& forall|k: int|
                        0 <= k < ts.len() ==> valid_transfer(
                            old(self).cells@,
                            old(self).config.world_width as int,
                            old(self).config.world_height as int,
                            #[trigger] ts[k],
                        )
                    &&& forall|k1: int, k2: int|
                        0 <= k1 < k2 < ts.len() ==> (#[trigger] ts[k1]).0 < (#[trigger] ts[k2]).0
                    &&& final(self).cells@ == prune_from(
                        #[trigger] transfers_applied_seq(old(self).cells@, ts, ts.len() as int),
                        old(self).cells@.len() as int,
                    )
                },
    {
        let len = self.cells.len();
        let half_w = div_floor(self.config.world_width, 2);
        let half_h = div_floor(self.config.world_height, 2);
        let mut transfers: Vec<(usize, usize, i64, i64)> = Vec::new();
        let mut i: usize = 0;
        while i < len
            invariant
                self.wf_mid_tick(),
                *self == *old(self),
                len == self.cells@.len(),
                i <= len,
                half_w == self.config.world_width as int / 2,
                half_h == self.config.world_height as int / 2,
                forall|k: int|
                    0 <= k < transfers@.len() ==> (#[trigger] transfers@[k]).0 < len
                        && transfers@[k].1 < len && transfers@[k].0 != transfers@[k].1,
                forall|k: int|
                    0 <= k < transfers@.len() ==> CHUNK_MIN <= (#[trigger] transfers@[k]).2
                        <= CHUNK_MAX && SPECIES_MIN <= transfers@[k].3 <= SPECIES_MAX,
                forall|k: int|
                    0 <= k < transfers@.len() ==> self.cells@[(#[trigger] transfers@[k]).0
                        as int].state == CellState::Alive && self.cells@[transfers@[k].1
                        as int].state == CellState::Corpse,
                forall|k: int|
                    0 <= k < transfers@.len() ==> valid_transfer(
                        self.cells@,
                        self.config.world_width as int,
                        self.config.world_height as int,
                        #[trigger] transfers@[k],
                    ),
                forall|k1: int, k2: int|
                    0 <= k1 < k2 < transfers@.len() ==> (#[trigger] transfers@[k1]).0 < (
                    #[trigger] transfers@[k2]).0,
                forall|k: int| 0 <= k < transfers@.len() ==> (#[trigger] transfers@[k]).0 < i,
                forall|k: int| 0 <= k < transfers@.len() ==> k <= (#[trigger] transfers@[k]).0,
            decreases len - i,
        {
            if self.cells[i].state == CellState::Alive {
                let xi = self.cells[i].x;
                let yi = self.cells[i].y;
                let ri = self.cells[i].get_current_radius();
                let chunk = self.cells[i].energy_chunk_size;
                let mult = self.cells[i].species_multiplier;
                proof {
                    vstd::arithmetic::div_mod::lemma_div_pos_is_pos(
                        3 * ri + BUCKET_SIZE - 1,
                        BUCKET_SIZE as int,
                    );
                    vstd::arithmetic::div_mod::lemma_div_is_ordered(
                        3 * ri + BUCKET_SIZE - 1,
                        144999,
                        BUCKET_SIZE as int,
                    );
                    vstd::arithmetic::div_mod::lemma_fundamental_div_mod_converse(
                        144999,
                        BUCKET_SIZE as int,
                        1,
                        44999,
                    );
                }
                let nearby = self.spatial_grid.query_nearby(xi, yi, 3 * ri);
                let mut found = false;
                let mut k: usize = 0;
                while k < nearby.len() && !found
                    invariant
                        self.wf_mid_tick(),
                        *self == *old(self),
                        len == self.cells@.len(),
                        i < len,
                        k <= nearby@.len(),
                        self.cells@[i as int].state == CellState::Alive,
                        xi == self.cells@[i as int].x,
                        yi == self.cells@[i as int].y,
                        0 <= ri <= 15000,
                        ri as int == self.cells@[i as int].spec_current_radius(),
                        chunk == self.cells@[i as int].energy_chunk_size,
                        mult == self.cells@[i as int].species_multiplier,
                        half_w == self.config.world_width as int / 2,
                        half_h == self.config.world_height as int / 2,
                        forall|k2: int|
                            0 <= k2 < transfers@.len() ==> (#[trigger] transfers@[k2]).0 < len
                                && transfers@[k2].1 < len && transfers@[k2].0 != transfers@[k2].1,
                        forall|k2: int|
                            0 <= k2 < transfers@.len() ==> CHUNK_MIN <= (
                            #[trigger] transfers@[k2]).2 <= CHUNK_MAX && SPECIES_MIN
                                <= transfers@[k2].3 <= SPECIES_MAX,
                        forall|k2: int|
                            0 <= k2 < transfers@.len() ==> self.cells@[(
                            #[trigger] transfers@[k2]).0 as int].state == CellState::Alive
                                && self.cells@[transfers@[k2].1 as int].state
                                == CellState::Corpse,
                        forall|k2: int|
                            0 <= k2 < transfers@.len() ==> valid_transfer(
                                self.cells@,
                                self.config.world_width as int,
                                self.config.world_height as int,
                                #[trigger] transfers@[k2],
                            ),
                        forall|k1: int, k2: int|
                            0 <= k1 < k2 < transfers@.len() ==> (#[trigger] transfers@[k1]).0 < (
                            #[trigger] transfers@[k2]).0,
                        forall|k2: int|
                            0 <= k2 < transfers@.len() ==> k2 <= (#[trigger] transfers@[k2]).0,
                        !found ==> forall|k2: int|
                            0 <= k2 < transfers@.len() ==> (#[trigger] transfers@[k2]).0 < i,
                        found ==> transfers@.len() > 0 && transfers@[transfers@.len() - 1].0
                            == i && (forall|k2: int|
                            0 <= k2 < transfers@.len() - 1 ==> (#[trigger] transfers@[k2]).0 < i),
                    decreases nearby@.len() - k,
                {
                    let j = nearby[k];
                    if j != i && j < len {
                        if self.cells[j].state == CellState::Corpse {
                            let xj = self.cells[j].x;
                            let yj = self.cells[j].y;
                            let rj = self.cells[j].get_current_radius();
                            let mut dx = xi - xj;
                            let mut dy = yi - yj;
                            if dx > half_w {
                                dx = dx - self.config.world_width;
                            } else if dx < -half_w {
                                dx = dx + self.config.world_width;
                            }
                            if dy > half_h {
                                dy = dy - self.config.world_height;
                            } else if dy < -half_h {
                                dy = dy + self.config.world_height;
                            }
                            proof {
                                lemma_square_bound(dx as int, 1700000000);
                                lemma_square_bound(dy as int, 1700000000);
                                lemma_square_bound(ri + rj, 30000);
                            }
                            let dist2 = dx * dx + dy * dy;
                            let coll = ri + rj;
                            if dist2 < coll * coll {
                                proof {
                                    if transfers@.len() > 0 {
                                        assert(transfers@.len() - 1 <= transfers@[transfers@.len()
                                            - 1].0 < i);
                                    }
                                    assert(dx as int == spec_wrapped_delta(
                                        self.cells@[i as int].x as int,
                                        self.cells@[j as int].x as int,
                                        self.config.world_width as int,
                                    ));
                                    assert(dy as int == spec_wrapped_delta(
                                        self.cells@[i as int].y as int,
                                        self.cells@[j as int].y as int,
                                        self.config.world_height as int,
                                    ));
                                    assert(valid_transfer(
                                        self.cells@,
                                        self.config.world_width as int,
                                        self.config.world_height as int,
                                        (i, j, chunk, mult),
                                    ));
                                }
                                transfers.push((i, j, chunk, mult));
                                found = true;
                            }
                        }
                    }
                    k = k + 1;
                }
            }
            i = i + 1;
        }
        proof {
            if transfers@.len() > len {
                assert(transfers@[len as int].0 >= len);
            }
        }
        let ghost pre_cells = self.cells@;
        let mut t: usize = 0;
        while t < transfers.len()
            invariant
                *self == (World { cells: self.cells, ..*old(self) }),
                old(self).wf_mid_tick(),
                self.cells@.len() == len,
                len == pre_cells.len(),
                len <= MAX_POP,
                t <= transfers@.len(),
                transfers@.len() <= len,
                forall|k: int|
                    0 <= k < transfers@.len() ==> (#[trigger] transfers@[k]).0 < len
                        && transfers@[k].1 < len && transfers@[k].0 != transfers@[k].1,
                forall|k: int|
                    0 <= k < transfers@.len() ==> CHUNK_MIN <= (#[trigger] transfers@[k]).2
                        <= CHUNK_MAX && SPECIES_MIN <= transfers@[k].3 <= SPECIES_MAX,
                forall|k1: int, k2: int|
                    0 <= k1 < k2 < transfers@.len() ==> (#[trigger] transfers@[k1]).0 < (
                    #[trigger] transfers@[k2]).0,
                forall|k: int|
                    0 <= k < transfers@.len() ==> pre_cells[(#[trigger] transfers@[k]).0
                        as int].state == CellState::Alive && pre_cells[transfers@[k].1
                        as int].state == CellState::Corpse,
                forall|c: int| 0 <= c < len ==> (#[trigger] self.cells@[c]).wf(),
                forall|c: int|
                    0 <= c < len ==> (#[trigger] self.cells@[c]) == (Cell {
                        energy: self.cells@[c].energy,
                        total_energy_accumulated: self.cells@[c].total_energy_accumulated,
                        ..pre_cells[c]
                    }),
                forall|c: int|
                    0 <= c < len ==> 0 <= (#[trigger] self.cells@[c]).total_energy_accumulated,
                forall|c: int|
                    0 <= c < len ==> (#[trigger] self.cells@[c]).energy >= -110000 - 55000 * t,
                forall|c: int| 0 <= c < len ==> (#[trigger] pre_cells[c]).energy < pre_cells[c].mass,
                forall|c: int| 0 <= c < len ==> (#[trigger] pre_cells[c]).mass <= 220000,
                forall|c: int|
                    0 <= c < len ==> 0 <= (#[trigger] self.cells@[c]).x < self.config.world_width,
                forall|c: int|
                    0 <= c < len ==> 0 <= (#[trigger] self.cells@[c]).y
                        < self.config.world_height,
                forall|c: int| 0 <= c < len ==> (#[trigger] self.cells@[c]).energy <= 330000,
                forall|k: int|
                    t <= k < transfers@.len() ==> (#[trigger] self.cells@[transfers@[k].0
                        as int]).energy < 220000,
                self.cells@ == transfers_applied_seq(pre_cells, transfers@, t as int),
            decreases transfers@.len() - t,
        {
            let tr = transfers[t];
            proof {
                assert(-110000 - 55000 * (t as int) >= -110000 - 55000000000);
            }
            let ghost mid0 = self.cells@;
            apply_energy_transfer(&mut self.cells, tr.0, tr.1, tr.2, tr.3);
            proof {
                assert(self.cells@ =~= apply_transfer_seq(mid0, transfers@[t as int])) by {
                    let stepped = apply_transfer_seq(mid0, transfers@[t as int]);
                    assert forall|i2: int| 0 <= i2 < mid0.len() implies #[trigger] self.cells@[i2]
                        == stepped[i2] by {
                        if i2 != tr.0 && i2 != tr.1 {
                            assert(self.cells@[i2] == mid0[i2]);
                        }
                    }
                }
                assert(self.cells@ == transfers_applied_seq(pre_cells, transfers@, t as int + 1));
            }
            proof {
                assert forall|k: int|
                    t + 1 <= k < transfers@.len() implies (#[trigger] self.cells@[transfers@[k].0
                        as int]).energy < 220000 by {
                    assert(transfers@[k].0 > transfers@[t as int].0);
                    assert(pre_cells[transfers@[k].0 as int].state == CellState::Alive);
                    assert(pre_cells[transfers@[t as int].1 as int].state == CellState::Corpse);
                    assert(transfers@[k].0 != transfers@[t as int].1);
                }
            }
            t = t + 1;
        }
        let ghost post_transfer = self.cells@;
        let mut idx: usize = self.cells.len();
        while idx > 0
            invariant
                *self == (World { cells: self.cells, ..*old(self) }),
                old(self).wf_mid_tick(),
                prune_from(post_transfer, post_transfer.len() as int) == prune_from(
                    self.cells@,
                    idx as int,
                ),
                idx <= self.cells@.len(),
                post_transfer == transfers_applied_seq(pre_cells, transfers@, transfers@.len() as int),
                post_transfer.len() == pre_cells.len(),
                forall|k: int|
                    0 <= k < transfers@.len() ==> valid_transfer(
                        pre_cells,
                        self.config.world_width as int,
                        self.config.world_height as int,
                        #[trigger] transfers@[k],
                    ),
                forall|k1: int, k2: int|
                    0 <= k1 < k2 < transfers@.len() ==> (#[trigger] transfers@[k1]).0 < (
                    #[trigger] transfers@[k2]).0,
                pre_cells == old(self).cells@,
                idx <= self.cells@.len(),
                self.cells@.len() <= len,
                forall|c: int| 0 <= c < self.cells@.len() ==> (#[trigger] self.cells@[c]).wf(),
                forall|c: int|
                    0 <= c < self.cells@.len() ==> 0 <= (
                    #[trigger] self.cells@[c]).total_energy_accumulated,
                forall|c: int|
                    0 <= c < self.cells@.len() ==> (#[trigger] self.cells@[c]).energy
                        >= -60000000000 - 110000,
                forall|c: int|
                    0 <= c < self.cells@.len() ==> (#[trigger] self.cells@[c]).energy <= 330000,
                forall|c: int|
                    0 <= c < self.cells@.len() ==> 0 <= (#[trigger] self.cells@[c]).x
                        < self.config.world_width,
                forall|c: int|
                    0 <= c < self.cells@.len() ==> 0 <= (#[trigger] self.cells@[c]).y
                        < self.config.world_height,
                forall|c: int|
                    idx <= c < self.cells@.len() ==> (#[trigger] self.cells@[c]).energy
                        >= DEPLETED_CELL_ENERGY,
            decreases idx,
        {
            idx = idx - 1;
            let ghost before = self.cells@;
            if self.cells[idx].energy < DEPLETED_CELL_ENERGY {
                self.cells.swap_remove(idx);
                proof {
                    assert(self.cells@ == swap_removed(before, idx as int));
                }
            }
            proof {
                assert(prune_from(before, idx as int + 1) == prune_from(
                    self.cells@,
                    idx as int,
                ));
            }
        }
        proof {
            assert(prune_from(self.cells@, 0) == self.cells@);
            assert(self.cells@ == prune_from(post_transfer, post_transfer.len() as int));
            assert({
                &&& forall|k: int|
                    0 <= k < transfers@.len() ==> valid_transfer(
                        old(self).cells@,
                        old(self).config.world_width as int,
                        old(self).config.world_height as int,
                        #[trigger] transfers@[k],
                    )
                &&& forall|k1: int, k2: int|
                    0 <= k1 < k2 < transfers@.len() ==> (#[trigger] transfers@[k1]).0 < (
                    #[trigger] transfers@[k2]).0
                &&& self.cells@ == prune_from(
                    transfers_applied_seq(old(self).cells@, transfers@, transfers@.len() as int),
                    old(self).cells@.len() as int,
                )
            });
        }
    }

    /// The parts of the engine invariant that hold in the middle of a tick,
    /// between the parallel cell updates and pruning: like `wf`, but cell
    /// energies may sit anywhere between the transfer-depressed floor and
    /// one transfer above the mass cap.
    pub open spec fn wf_mid_tick(self) -> bool {
        &&& self.config.wf()
        &&& self.cells@.len() <= MAX_POP
        &&& self.max_cells <= MAX_POP
        &&& forall|i: int| 0 <= i < self.cells@.len() ==> (#[trigger] self.cells@[i]).wf()
        &&& forall|i: int|
            0 <= i < self.cells@.len() ==> -110000 <= (#[trigger] self.cells@[i]).energy
                <= 330000
        &&& forall|i: int|
            0 <= i < self.cells@.len() ==> 0 <= (
            #[trigger] self.cells@[i]).total_energy_accumulated
        &&& forall|i: int|
            0 <= i < self.cells@.len() ==> -200000 <= (#[trigger] self.cells@[i]).x
                <= self.config.world_width + 200000
        &&& forall|i: int|
            0 <= i < self.cells@.len() ==> -200000 <= (#[trigger] self.cells@[i]).y
                <= self.config.world_height + 200000
        &&& self.spatial_grid.wf()
        &&& self.spatial_grid.bucket_size == BUCKET_SIZE
        &&& self.frame_times@.len() <= FPS_SAMPLE_SIZE
        &&& forall|i: int|
            0 <= i < self.frame_times@.len() ==> 0 <= #[trigger] self.frame_times@[i]
                <= FRAME_TIME_LIMIT
        &&& 0 <= self.last_adjustment_time <= ADJUSTMENT_INTERVAL + FRAME_TIME_LIMIT
        &&& 0 <= self.current_fps
        &&& match self.best_cell_genome {
            Some(c) => c.wf() && -SPAWN_POS_LIMIT <= c.x <= SPAWN_POS_LIMIT && -SPAWN_POS_LIMIT
                <= c.y <= SPAWN_POS_LIMIT,
            None => true,
        }
        &&& (self.last_best_cell_index is Some ==> self.best_cell_genome is Some)
        &&& 125 <= self.simulation_speed <= 8000
        &&& 0 <= self.color_diversity <= 1000
    }
}


/// Strict sensor priority between two candidates (each a reading paired
/// with the neighbor's current energy): corpses come before alive cells,
/// then higher energy, then shorter distance.
pub open spec fn spec_sensor_priority(a: (SensorReading, i64), b: (SensorReading, i64)) -> bool {
    let ra: int = if a.0.alive {
        1
    } else {
        0
    };
    let rb: int = if b.0.alive {
        1
    } else {
        0
    };
    ||| ra < rb
    ||| (ra == rb && a.1 > b.1)
    ||| (ra == rb && a.1 == b.1 && a.0.distance < b.0.distance)
}

fn sensor_precedes(a: &(SensorReading, i64), b: &(SensorReading, i64)) -> (r: bool)
    ensures
        r == spec_sensor_priority(*a, *b),
{
    let ra: i64 = if a.0.alive {
        1
    } else {
        0
    };
    let rb: i64 = if b.0.alive {
        1
    } else {
        0
    };
    ra < rb || (ra == rb && a.1 > b.1) || (ra == rb && a.1 == b.1 && a.0.distance < b.0.distance)
}

/// Partial selection of the best `SENSOR_COUNT` candidates under the
/// sensor priority: repeatedly extracts the best remaining candidate.  The
/// result is ordered, every entry came from the input, and no candidate
/// left behind strictly precedes any selected one.
pub fn select_top_sensors(cands: &mut Vec<(SensorReading, i64)>) -> (r: Vec<(SensorReading, i64)>)
    ensures
        r@.len() == if old(cands)@.len() < SENSOR_COUNT {
            old(cands)@.len() as int
        } else {
            SENSOR_COUNT as int
        },
        forall|k: int| 0 <= k < r@.len() ==> old(cands)@.contains(#[trigger] r@[k]),
        forall|k1: int, k2: int|
            0 <= k1 < k2 < r@.len() ==> !spec_sensor_priority(#[trigger] r@[k2], #[trigger] r@[k1]),
        forall|j: int, k: int|
            0 <= j < final(cands)@.len() && 0 <= k < r@.len() ==> !spec_sensor_priority(
                #[trigger] final(cands)@[j],
                #[trigger] r@[k],
            ),
        r@.len() + final(cands)@.len() == old(cands)@.len(),
        forall|j: int|
            0 <= j < final(cands)@.len() ==> old(cands)@.contains(#[trigger] final(cands)@[j]),
{
    let mut r: Vec<(SensorReading, i64)> = Vec::new();
    proof {
        assert forall|j: int| 0 <= j < cands@.len() implies old(cands)@.contains(
            #[trigger] cands@[j],
        ) by {
            assert(old(cands)@[j] == cands@[j]);
        }
    }
    while r.len() < SENSOR_COUNT && cands.len() > 0
        invariant
            r@.len() + cands@.len() == old(cands)@.len(),
            r@.len() <= SENSOR_COUNT,
            forall|k: int| 0 <= k < r@.len() ==> old(cands)@.contains(#[trigger] r@[k]),
            forall|j: int| 0 <= j < cands@.len() ==> old(cands)@.contains(#[trigger] cands@[j]),
            forall|k1: int, k2: int|
                0 <= k1 < k2 < r@.len() ==> !spec_sensor_priority(
                    #[trigger] r@[k2],
                    #[trigger] r@[k1],
                ),
            forall|j: int, k: int|
                0 <= j < cands@.len() && 0 <= k < r@.len() ==> !spec_sensor_priority(
                    #[trigger] cands@[j],
                    #[trigger] r@[k],
                ),
        decreases cands@.len(),
    {
        let mut best: usize = 0;
        let mut k: usize = 1;
        while k < cands.len()
            invariant
                cands@.len() > 0,
                best < k <= cands@.len(),
                forall|m: int|
                    0 <= m < k ==> !spec_sensor_priority(
                        #[trigger] cands@[m],
                        cands@[best as int],
                    ),
            decreases cands@.len() - k,
        {
            if sensor_precedes(&cands[k], &cands[best]) {
                best = k;
            }
            k = k + 1;
        }
        let ghost pre = cands@;
        let chosen = cands.remove(best);
        proof {
            assert(chosen == pre[best as int]);
            assert forall|j: int| 0 <= j < cands@.len() implies #[trigger] cands@[j] == (if j
                < best {
                pre[j]
            } else {
                pre[j + 1]
            }) by {
            }
            assert forall|j: int| 0 <= j < cands@.len() implies !spec_sensor_priority(
                #[trigger] cands@[j],
                chosen,
            ) && old(cands)@.contains(cands@[j]) by {
                if j < best {
                    assert(cands@[j] == pre[j]);
                } else {
                    assert(cands@[j] == pre[j + 1]);
                }
            }
        }
        r.push(chosen);
    }
    r
}


impl World {
    /// Recomputes every cell's sensor cache from the grid: candidates
    /// within sensor range (toroidal distance), bearings relative to the
    /// cell's heading, and the top `SENSOR_COUNT` under the priority
    /// ordering.  Sensor indices are valid for this tick only.
    #[verifier::rlimit(100)]
    #[verifier::spinoff_prover]
    fn update_sensors(&mut self)
        requires
            old(self).wf_mid_tick(),
        ensures
            final(self).wf_mid_tick(),
            *final(self) == (World { cells: final(self).cells, ..*old(self) }),
            final(self).cells@.len() == old(self).cells@.len(),
            forall|i: int|
                0 <= i < final(self).cells@.len() ==> #[trigger] final(self).cells@[i] == (Cell {
                    nearest_cells: final(self).cells@[i].nearest_cells,
                    ..old(self).cells@[i]
                }),
            forall|i: int, k: int|
                0 <= i < final(self).cells@.len() && 0 <= k
                    < final(self).cells@[i].nearest_cells@.len() ==> sensor_reading_valid(
                    #[trigger] final(self).cells@[i].nearest_cells@[k],
                    final(self).cells@,
                    i,
                    final(self).config.world_width as int,
                    final(self).config.world_height as int,
                ),
            forall|i: int|
                0 <= i < final(self).cells@.len() ==> sensor_cache_complete(
                    old(self).cells@,
                    (#[trigger] final(self).cells@[i]).nearest_cells@,
                    final(self).spatial_grid,
                    i,
                    final(self).config.world_width as int,
                    final(self).config.world_height as int,
                ),
    {
        let len = self.cells.len();
        let half_w = div_floor(self.config.world_width, 2);
        let half_h = div_floor(self.config.world_height, 2);
        let mut i: usize = 0;
        while i < len
            invariant
                self.wf_mid_tick(),
                *self == (World { cells: self.cells, ..*old(self) }),
                len == self.cells@.len(),
                len == old(self).cells@.len(),
                i <= len,
                half_w == self.config.world_width as int / 2,
                half_h == self.config.world_height as int / 2,
                forall|c: int| i <= c < len ==> #[trigger] self.cells@[c] == old(self).cells@[c],
                forall|c: int|
                    0 <= c < i ==> #[trigger] self.cells@[c] == (Cell {
                        nearest_cells: self.cells@[c].nearest_cells,
                        ..old(self).cells@[c]
                    }),
                forall|c: int, k: int|
                    0 <= c < i && 0 <= k < self.cells@[c].nearest_cells@.len()
                        ==> sensor_reading_valid(
                        #[trigger] self.cells@[c].nearest_cells@[k],
                        self.cells@,
                        c,
                        self.config.world_width as int,
                        self.config.world_height as int,
                    ),
                forall|c: int|
                    0 <= c < i ==> sensor_cache_complete(
                        old(self).cells@,
                        (#[trigger] self.cells@[c]).nearest_cells@,
                        self.spatial_grid,
                        c,
                        self.config.world_width as int,
                        self.config.world_height as int,
                    ),
            decreases len - i,
        {
            let xi = self.cells[i].x;
            let yi = self.cells[i].y;
            let ang = self.cells[i].angle;
            proof {
                vstd::arithmetic::div_mod::lemma_div_pos_is_pos(
                    SENSOR_RANGE as int + BUCKET_SIZE - 1,
                    BUCKET_SIZE as int,
                );
                vstd::arithmetic::div_mod::lemma_fundamental_div_mod_converse(
                    SENSOR_RANGE as int + BUCKET_SIZE - 1,
                    BUCKET_SIZE as int,
                    2,
                    99999,
                );
            }
            let nearby = self.spatial_grid.query_nearby(xi, yi, SENSOR_RANGE);
            proof {
                assert forall|c: int| 0 <= c < len implies (#[trigger] self.cells@[c]).x == old(
                    self,
                ).cells@[c].x && self.cells@[c].y == old(self).cells@[c].y && self.cells@[c].energy
                    == old(self).cells@[c].energy && self.cells@[c].state == old(
                    self,
                ).cells@[c].state && self.cells@[c].mass == old(self).cells@[c].mass by {
                }
            }
            let mut cands: Vec<(SensorReading, i64)> = Vec::new();
            let mut k: usize = 0;
            while k < nearby.len()
                invariant
                    self.wf_mid_tick(),
                    len == self.cells@.len(),
                    len == old(self).cells@.len(),
                    i < len,
                    k <= nearby@.len(),
                    forall|c: int|
                        0 <= c < len ==> (#[trigger] self.cells@[c]).x == old(self).cells@[c].x
                            && self.cells@[c].y == old(self).cells@[c].y && self.cells@[c].energy
                            == old(self).cells@[c].energy && self.cells@[c].state == old(
                            self,
                        ).cells@[c].state && self.cells@[c].mass == old(self).cells@[c].mass,
                    forall|c: int|
                        0 <= c < cands@.len() ==> sensor_in_range(
                            old(self).cells@,
                            i as int,
                            (#[trigger] cands@[c]).0.index as int,
                            self.config.world_width as int,
                            self.config.world_height as int,
                        ) && cands@[c].1 == old(self).cells@[cands@[c].0.index as int].energy,
                    forall|j2: int|
                        (#[trigger] sensor_candidate(
                            old(self).cells@,
                            self.spatial_grid,
                            i as int,
                            j2,
                            self.config.world_width as int,
                            self.config.world_height as int,
                        ) && exists|k2: int| 0 <= k2 < k && nearby@[k2] == j2 as usize)
                            ==> exists|c: int|
                            0 <= c < cands@.len() && (#[trigger] cands@[c]).0.index == j2,
                    xi == self.cells@[i as int].x,
                    yi == self.cells@[i as int].y,
                    ang == self.cells@[i as int].angle,
                    half_w == self.config.world_width as int / 2,
                    half_h == self.config.world_height as int / 2,
                    forall|c: int|
                        0 <= c < cands@.len() ==> sensor_reading_valid(
                            (#[trigger] cands@[c]).0,
                            self.cells@,
                            i as int,
                            self.config.world_width as int,
                            self.config.world_height as int,
                        ),
                    forall|c: int|
                        0 <= c < cands@.len() ==> reading_wf((#[trigger] cands@[c]).0),
                decreases nearby@.len() - k,
            {
                let ghost cands0 = cands@;
                let j = nearby[k];
                if j != i && j < len {
                    let xj = self.cells[j].x;
                    let yj = self.cells[j].y;
                    let mut dx = xj - xi;
                    let mut dy = yj - yi;
                    if dx > half_w {
                        dx = dx - self.config.world_width;
                    } else if dx < -half_w {
                        dx = dx + self.config.world_width;
                    }
                    if dy > half_h {
                        dy = dy - self.config.world_height;
                    } else if dy < -half_h {
                        dy = dy + self.config.world_height;
                    }
                    proof {
                        lemma_square_bound(dx as int, 1700000000);
                        lemma_square_bound(dy as int, 1700000000);
                        assert(dx as int == spec_wrapped_delta(
                            old(self).cells@[j as int].x as int,
                            old(self).cells@[i as int].x as int,
                            self.config.world_width as int,
                        ));
                        assert(dy as int == spec_wrapped_delta(
                            old(self).cells@[j as int].y as int,
                            old(self).cells@[i as int].y as int,
                            self.config.world_height as int,
                        ));
                    }
                    let dist2 = dx * dx + dy * dy;
                    if dist2 <= SENSOR_RANGE * SENSOR_RANGE {
                        let distance = isqrt(dist2);
                        proof {
                            if distance > SENSOR_RANGE {
                                vstd::arithmetic::mul::lemma_mul_inequality(
                                    200001,
                                    distance as int,
                                    distance as int,
                                );
                                vstd::arithmetic::mul::lemma_mul_left_inequality(
                                    200001,
                                    200001,
                                    distance as int,
                                );
                            }
                        }
                        let at = atan2_fp(dy, dx);
                        let relw = mod_euclid(at - ang, TAU_FP);
                        let rel = if relw > PI_FP {
                            relw - TAU_FP
                        } else {
                            relw
                        };
                        let alive_j = self.cells[j].state == CellState::Alive;
                        let reading = SensorReading {
                            index: j,
                            angle: rel,
                            distance,
                            mass: self.cells[j].mass,
                            alive: alive_j,
                        };
                        proof {
                            assert(sensor_in_range(
                                old(self).cells@,
                                i as int,
                                j as int,
                                self.config.world_width as int,
                                self.config.world_height as int,
                            ));
                        }
                        cands.push((reading, self.cells[j].energy));
                    }
                }
                proof {
                    let w = self.config.world_width as int;
                    let h = self.config.world_height as int;
                    assert forall|j2: int|
                        (#[trigger] sensor_candidate(
                            old(self).cells@,
                            self.spatial_grid,
                            i as int,
                            j2,
                            w,
                            h,
                        ) && exists|k2: int| 0 <= k2 < k + 1 && nearby@[k2] == j2 as usize)
                        implies exists|c: int|
                        0 <= c < cands@.len() && (#[trigger] cands@[c]).0.index == j2 by {
                        let k2 = choose|k2: int| 0 <= k2 < k + 1 && nearby@[k2] == j2 as usize;
                        if k2 < k {
                            assert(exists|k3: int| 0 <= k3 < k && nearby@[k3] == j2 as usize);
                            let c0 = choose|c0: int|
                                0 <= c0 < cands0.len() && cands0[c0].0.index == j2;
                            assert(cands@[c0].0.index == j2);
                            assert(0 <= c0 < cands@.len());
                        } else {
                            assert(k2 == k as int);
                            assert(nearby@[k as int] == j2 as usize);
                            assert(j == j2 as usize);
                            assert(0 <= j2 < len);
                            assert(j as int == j2);
                            assert(j != i);
                            assert(sensor_in_range(old(self).cells@, i as int, j2, w, h));
                            assert(cands@.len() > 0);
                            assert(cands@[cands@.len() - 1].0.index == j2);
                        }
                    }
                }
                k = k + 1;
            }
            proof {
                let w = self.config.world_width as int;
                let h = self.config.world_height as int;
                assert forall|j2: int|
                    #[trigger] sensor_candidate(
                        old(self).cells@,
                        self.spatial_grid,
                        i as int,
                        j2,
                        w,
                        h,
                    ) implies exists|c: int|
                    0 <= c < cands@.len() && (#[trigger] cands@[c]).0.index == j2 by {
                    let (di, dj) = choose|di: int, dj: int|
                        -self.spatial_grid.query_range(SENSOR_RANGE as int) <= di
                            <= self.spatial_grid.query_range(SENSOR_RANGE as int)
                            && -self.spatial_grid.query_range(SENSOR_RANGE as int) <= dj
                            <= self.spatial_grid.query_range(SENSOR_RANGE as int)
                            && #[trigger] self.spatial_grid.buckets@[self.spatial_grid.ring_bucket(
                            old(self).cells@[i as int].x as int,
                            old(self).cells@[i as int].y as int,
                            di,
                            dj,
                        )]@.contains(j2 as usize);
                    assert(nearby@.contains(j2 as usize));
                    let k2 = choose|k2: int| 0 <= k2 < nearby@.len() && nearby@[k2] == j2 as usize;
                    assert(exists|k3: int| 0 <= k3 < nearby@.len() && nearby@[k3] == j2 as usize);
                }
            }
            let ghost all_cands = cands@;
            let selected = select_top_sensors(&mut cands);
            let mut readings: Vec<SensorReading> = Vec::new();
            let mut m: usize = 0;
            while m < selected.len()
                invariant
                    m <= selected@.len(),
                    selected@.len() <= SENSOR_COUNT,
                    readings@.len() == m,
                    i < len,
                    len == self.cells@.len(),
                    forall|c: int|
                        0 <= c < all_cands.len() ==> sensor_reading_valid(
                            (#[trigger] all_cands[c]).0,
                            self.cells@,
                            i as int,
                            self.config.world_width as int,
                            self.config.world_height as int,
                        ),
                    forall|c: int|
                        0 <= c < all_cands.len() ==> reading_wf((#[trigger] all_cands[c]).0),
                    forall|c: int| 0 <= c < selected@.len() ==> all_cands.contains(
                        #[trigger] selected@[c],
                    ),
                    forall|c: int|
                        0 <= c < m ==> #[trigger] readings@[c] == selected@[c].0,
                    forall|c: int|
                        0 <= c < m ==> sensor_reading_valid(
                            #[trigger] readings@[c],
                            self.cells@,
                            i as int,
                            self.config.world_width as int,
                            self.config.world_height as int,
                        ) && reading_wf(readings@[c]),
                decreases selected@.len() - m,
            {
                proof {
                    let j2 = choose|j2: int|
                        0 <= j2 < all_cands.len() && all_cands[j2] == selected@[m as int];
                    assert(sensor_reading_valid(
                        all_cands[j2].0,
                        self.cells@,
                        i as int,
                        self.config.world_width as int,
                        self.config.world_height as int,
                    ));
                }
                let pair = selected[m];
                readings.push(pair.0);
                m = m + 1;
            }
            let ghost pre_cells = self.cells@;
            let ghost leftover = cands@;
            self.cells[i].nearest_cells = readings;
            proof {
                let w = self.config.world_width as int;
                let h = self.config.world_height as int;
                assert(sensor_cache_complete(
                    old(self).cells@,
                    self.cells@[i as int].nearest_cells@,
                    self.spatial_grid,
                    i as int,
                    w,
                    h,
                )) by {
                    assert(self.cells@[i as int].nearest_cells@ == readings@);
                    assert({
                        &&& forall|c: int|
                            0 <= c < all_cands.len() ==> sensor_in_range(
                                old(self).cells@,
                                i as int,
                                (#[trigger] all_cands[c]).0.index as int,
                                w,
                                h,
                            ) && all_cands[c].1 == old(self).cells@[all_cands[c].0.index
                                as int].energy
                        &&& forall|j2: int|
                            #[trigger] sensor_candidate(
                                old(self).cells@,
                                self.spatial_grid,
                                i as int,
                                j2,
                                w,
                                h,
                            ) ==> exists|c: int|
                                0 <= c < all_cands.len() && (#[trigger] all_cands[c]).0.index == j2
                        &&& selected@.len() == if all_cands.len() < SENSOR_COUNT {
                            all_cands.len() as int
                        } else {
                            SENSOR_COUNT as int
                        }
                        &&& selected@.len() + leftover.len() == all_cands.len()
                        &&& forall|c: int| 0 <= c < selected@.len() ==> all_cands.contains(
                            #[trigger] selected@[c],
                        )
                        &&& forall|c: int| 0 <= c < leftover.len() ==> all_cands.contains(
                            #[trigger] leftover[c],
                        )
                        &&& forall|k1: int, k2: int|
                            0 <= k1 < k2 < selected@.len() ==> !spec_sensor_priority(
                                #[trigger] selected@[k2],
                                #[trigger] selected@[k1],
                            )
                        &&& forall|r: int, k2: int|
                            0 <= r < leftover.len() && 0 <= k2 < selected@.len()
                                ==> !spec_sensor_priority(
                                #[trigger] leftover[r],
                                #[trigger] selected@[k2],
                            )
                        &&& readings@.len() == selected@.len()
                        &&& forall|c: int|
                            0 <= c < selected@.len() ==> readings@[c] == (
                            #[trigger] selected@[c]).0
                    });
                }
                assert forall|c: int, k2: int|
                    0 <= c < i + 1 && 0 <= k2 < self.cells@[c].nearest_cells@.len()
                        implies sensor_reading_valid(
                        #[trigger] self.cells@[c].nearest_cells@[k2],
                        self.cells@,
                        c,
                        self.config.world_width as int,
                        self.config.world_height as int,
                    ) by {
                    assert(self.cells@[c].nearest_cells@ == pre_cells[c].nearest_cells@ || c == i);
                    assert(sensor_reading_valid(
                        self.cells@[c].nearest_cells@[k2],
                        pre_cells,
                        c,
                        self.config.world_width as int,
                        self.config.world_height as int,
                    ));
                }
                assert forall|c: int| 0 <= c < i + 1 implies sensor_cache_complete(
                    old(self).cells@,
                    (#[trigger] self.cells@[c]).nearest_cells@,
                    self.spatial_grid,
                    c,
                    self.config.world_width as int,
                    self.config.world_height as int,
                ) by {
                    if c < i {
                        assert(self.cells@[c].nearest_cells@ == pre_cells[c].nearest_cells@);
                    }
                }
            }
            i = i + 1;
        }
    }
}

/// The toroidal displacement from `b` to `a`: the raw difference, shifted
/// by one world span when its magnitude exceeds half of it.
pub open spec fn spec_wrapped_delta(a: int, b: int, w: int) -> int {
    let d = a - b;
    if d > w / 2 {
        d - w
    } else if d < -(w / 2) {
        d + w
    } else {
        d
    }
}

/// `r` is the integer square root of `n`.
pub open spec fn is_floor_sqrt(n: int, r: int) -> bool {
    0 <= r && r * r <= n && n < (r + 1) * (r + 1)
}

/// The bearing `at`, taken relative to the heading `ang` and normalized
/// into the half-open turn `(-PI_FP, PI_FP]`.
pub open spec fn spec_rel_bearing(at: int, ang: int) -> int {
    let w = (at - ang) % (TAU_FP as int);
    if w > PI_FP {
        w - TAU_FP
    } else {
        w
    }
}

/// Cell `j` is recorded in one of the buckets that a sensor-range query
/// from `(x, y)` visits (with wrap-around on both axes).
pub open spec fn in_sensor_ring(grid: SpatialGrid, x: int, y: int, j: int) -> bool {
    exists|di: int, dj: int|
        -grid.query_range(SENSOR_RANGE as int) <= di <= grid.query_range(SENSOR_RANGE as int)
            && -grid.query_range(SENSOR_RANGE as int) <= dj <= grid.query_range(
            SENSOR_RANGE as int,
        ) && #[trigger] grid.buckets@[grid.ring_bucket(x, y, di, dj)]@.contains(j as usize)
}

/// Cell `j` is another current cell within true (wrapped) sensor range of
/// cell `own`.
pub open spec fn sensor_in_range(cells: Seq<Cell>, own: int, j: int, w: int, h: int) -> bool {
    let dx = spec_wrapped_delta(cells[j].x as int, cells[own].x as int, w);
    let dy = spec_wrapped_delta(cells[j].y as int, cells[own].y as int, h);
    &&& 0 <= j < cells.len()
    &&& j != own
    &&& dx * dx + dy * dy <= SENSOR_RANGE * SENSOR_RANGE
}

/// Cell `j` is a sensor candidate of cell `own`: within true sensor range
/// and visible through the grid's sensor ring.
pub open spec fn sensor_candidate(
    cells: Seq<Cell>,
    grid: SpatialGrid,
    own: int,
    j: int,
    w: int,
    h: int,
) -> bool {
    &&& sensor_in_range(cells, own, j, w, h)
    &&& in_sensor_ring(grid, cells[own].x as int, cells[own].y as int, j)
}

/// The sensor cache of cell `own` is a faithful top-`SENSOR_COUNT`
/// selection: there is a candidate list covering every grid-visible
/// in-range neighbor, and the cache consists of `min(SENSOR_COUNT, number
/// of candidates)` of its entries, ordered by the sensor priority, with no
/// left-over candidate strictly preceding a cached one.
pub open spec fn sensor_cache_complete(
    cells: Seq<Cell>,
    cache: Seq<SensorReading>,
    grid: SpatialGrid,
    own: int,
    w: int,
    h: int,
) -> bool {
    exists|cands: Seq<(SensorReading, i64)>, sel: Seq<(SensorReading, i64)>, rest: Seq<
        (SensorReading, i64),
    >|
        #![trigger cands.len(), sel.len(), rest.len()]
        {
            &&& forall|c: int|
                0 <= c < cands.len() ==> sensor_in_range(
                    cells,
                    own,
                    (#[trigger] cands[c]).0.index as int,
                    w,
                    h,
                ) && cands[c].1 == cells[cands[c].0.index as int].energy
            &&& forall|j: int|
                #[trigger] sensor_candidate(cells, grid, own, j, w, h) ==> exists|c: int|
                    0 <= c < cands.len() && (#[trigger] cands[c]).0.index == j
            &&& sel.len() == if cands.len() < SENSOR_COUNT {
                cands.len() as int
            } else {
                SENSOR_COUNT as int
            }
            &&& sel.len() + rest.len() == cands.len()
            &&& forall|c: int| 0 <= c < sel.len() ==> cands.contains(#[trigger] sel[c])
            &&& forall|c: int| 0 <= c < rest.len() ==> cands.contains(#[trigger] rest[c])
            &&& forall|k1: int, k2: int|
                0 <= k1 < k2 < sel.len() ==> !spec_sensor_priority(
                    #[trigger] sel[k2],
                    #[trigger] sel[k1],
                )
            &&& forall|r: int, k: int|
                0 <= r < rest.len() && 0 <= k < sel.len() ==> !spec_sensor_priority(
                    #[trigger] rest[r],
                    #[trigger] sel[k],
                )
            &&& cache.len() == sel.len()
            &&& forall|c: int| 0 <= c < sel.len() ==> cache[c] == (#[trigger] sel[c]).0
        }
}

/// A sensor reading points at another current cell, reports its mass and
/// liveness faithfully, and carries exactly the toroidal geometry between
/// the two cells: the floor square root of the wrapped squared distance
/// (within sensor range) and the wrapped relative bearing.
pub open spec fn sensor_reading_valid(
    r: SensorReading,
    cells: Seq<Cell>,
    own: int,
    w: int,
    h: int,
) -> bool {
    let dx = spec_wrapped_delta(cells[r.index as int].x as int, cells[own].x as int, w);
    let dy = spec_wrapped_delta(cells[r.index as int].y as int, cells[own].y as int, h);
    &&& (r.index as int) < cells.len()
    &&& r.index != own
    &&& r.mass == cells[r.index as int].mass
    &&& r.alive == (cells[r.index as int].state == CellState::Alive)
    &&& dx * dx + dy * dy <= SENSOR_RANGE * SENSOR_RANGE
    &&& is_floor_sqrt(dx * dx + dy * dy, r.distance as int)
    &&& r.angle == spec_rel_bearing(spec_atan2(dy, dx), cells[own].angle as int)
}


impl World {
    /// Reproduction pass: every alive cell above the energy threshold
    /// spawns one mutated child, provided the projected population stays
    /// under the cap (checked as the loop runs, so earlier indices win the
    /// last slots).  Two thirds of the parent's energy go to the child and
    /// one third remains.  If the tracked best cell reproduced, its brain
    /// and generation are handed back for persistence.
    #[verifier::rlimit(100)]
    #[verifier::spinoff_prover]
    fn handle_reproduction(&mut self, rng: &mut rand::rngs::StdRng) -> (save: Option<
        (NeuralNetwork, usize),
    >)
        requires
            old(self).wf_mid_tick(),
            forall|i: int|
                0 <= i < old(self).cells@.len() ==> 0 <= (#[trigger] old(self).cells@[i]).x < old(self).config.world_width,
            forall|i: int|
                0 <= i < old(self).cells@.len() ==> 0 <= (#[trigger] old(self).cells@[i]).y < old(self).config.world_height,
            forall|i: int|
                0 <= i < old(self).cells@.len() ==> DEPLETED_CELL_ENERGY <= (#[trigger] old(self).cells@[i]).energy,
        ensures
            final(self).wf_mid_tick(),
            *final(self) == (World { cells: final(self).cells, ..*old(self) }),
            forall|i: int|
                0 <= i < final(self).cells@.len() ==> DEPLETED_CELL_ENERGY <= (#[trigger] final(self).cells@[i]).energy,
            final(self).cells@.len() <= if old(self).cells@.len() > old(self).max_cells {
                old(self).cells@.len() as int
            } else {
                old(self).max_cells as int
            },
            old(self).cells@.len() <= final(self).cells@.len(),
            old(self).last_best_cell_index is None ==> save is None,
            save is Some ==> old(self).last_best_cell_index is Some,
            final(self).cells@.len() == old(self).cells@.len() + repro_count(
                old(self).cells@,
                old(self).max_cells as int,
                old(self).cells@.len() as int,
            ),
            forall|k: int|
                0 <= k < old(self).cells@.len() && !spec_reproduces(
                    old(self).cells@,
                    old(self).max_cells as int,
                    k,
                ) ==> #[trigger] final(self).cells@[k] == old(self).cells@[k],
            forall|k: int|
                0 <= k < old(self).cells@.len() && spec_reproduces(
                    old(self).cells@,
                    old(self).max_cells as int,
                    k,
                ) ==> {
                    &&& (#[trigger] final(self).cells@[k]).energy == old(self).cells@[k].energy
                        as int / 3
                    &&& final(self).cells@[k].children_count as int == if old(
                        self,
                    ).cells@[k].children_count < usize::MAX {
                        old(self).cells@[k].children_count + 1
                    } else {
                        old(self).cells@[k].children_count as int
                    }
                    &&& final(self).cells@[k] == (Cell {
                        energy: final(self).cells@[k].energy,
                        children_count: final(self).cells@[k].children_count,
                        ..old(self).cells@[k]
                    })
                },
            forall|k: int|
                0 <= k < old(self).cells@.len() && #[trigger] spec_reproduces(
                    old(self).cells@,
                    old(self).max_cells as int,
                    k,
                ) ==> {
                    let ci = old(self).cells@.len() + repro_count(
                        old(self).cells@,
                        old(self).max_cells as int,
                        k,
                    );
                    &&& ci < final(self).cells@.len()
                    &&& final(self).cells@[ci].energy as int == (2 * old(self).cells@[k].energy)
                        / 3
                    &&& spec_child_core(old(self).cells@[k], final(self).cells@[ci])
                    &&& spec_child_offset(old(self).cells@[k], final(self).cells@[ci])
                },
            match old(self).last_best_cell_index {
                None => save is None,
                Some(bi) => if (bi as int) < old(self).cells@.len() && spec_reproduces(
                    old(self).cells@,
                    old(self).max_cells as int,
                    bi as int,
                ) {
                    match save {
                        Some(p) => nn_eq(p.0, old(self).cells@[bi as int].brain) && p.1 == old(
                            self,
                        ).cells@[bi as int].generation,
                        None => false,
                    }
                } else {
                    save is None
                },
            },
    {
        let ghost pre = old(self).cells@;
        let ghost gcap = old(self).max_cells as int;
        let len = self.cells.len();
        let mut new_cells: Vec<Cell> = Vec::new();
        let mut save: Option<(NeuralNetwork, usize)> = None;
        let mut i: usize = 0;
        while i < len
            invariant
                self.wf_mid_tick(),
                *self == (World { cells: self.cells, ..*old(self) }),
                len == self.cells@.len(),
                i <= len,
                len + new_cells@.len() <= if len > old(self).max_cells {
                    len as int
                } else {
                    old(self).max_cells as int
                },
                forall|c: int| 0 <= c < new_cells@.len() ==> (#[trigger] new_cells@[c]).wf(),
                forall|c: int|
                    0 <= c < new_cells@.len() ==> 0 <= (#[trigger] new_cells@[c]).energy
                        <= 330000,
                forall|c: int|
                    0 <= c < new_cells@.len() ==> (
                    #[trigger] new_cells@[c]).total_energy_accumulated == 0,
                forall|c: int|
                    0 <= c < new_cells@.len() ==> -200000 <= (#[trigger] new_cells@[c]).x
                        <= self.config.world_width + 200000,
                forall|c: int|
                    0 <= c < new_cells@.len() ==> -200000 <= (#[trigger] new_cells@[c]).y
                        <= self.config.world_height + 200000,
                forall|c: int|
                    0 <= c < len ==> 0 <= (#[trigger] self.cells@[c]).x < self.config.world_width,
                forall|c: int|
                    0 <= c < len ==> 0 <= (#[trigger] self.cells@[c]).y
                        < self.config.world_height,
                forall|c: int|
                    0 <= c < len ==> DEPLETED_CELL_ENERGY <= (#[trigger] self.cells@[c]).energy,
                forall|c: int|
                    0 <= c < new_cells@.len() ==> DEPLETED_CELL_ENERGY <= (
                    #[trigger] new_cells@[c]).energy,
                old(self).last_best_cell_index is None ==> save is None,
                save is Some ==> old(self).last_best_cell_index is Some,
                pre == old(self).cells@,
                pre.len() == len,
                gcap == old(self).max_cells as int,
                self.max_cells == old(self).max_cells,
                new_cells@.len() == repro_count(pre, gcap, i as int),
                forall|k: int| i <= k < len ==> #[trigger] self.cells@[k] == pre[k],
                forall|k: int|
                    0 <= k < i && !spec_reproduces(pre, gcap, k) ==> #[trigger] self.cells@[k]
                        == pre[k],
                forall|k: int|
                    0 <= k < i && spec_reproduces(pre, gcap, k) ==> {
                        &&& (#[trigger] self.cells@[k]).energy == pre[k].energy as int / 3
                        &&& self.cells@[k].children_count as int == if pre[k].children_count
                            < usize::MAX {
                            pre[k].children_count + 1
                        } else {
                            pre[k].children_count as int
                        }
                        &&& self.cells@[k] == (Cell {
                            energy: self.cells@[k].energy,
                            children_count: self.cells@[k].children_count,
                            ..pre[k]
                        })
                    },
                forall|k: int|
                    0 <= k < i && #[trigger] spec_reproduces(pre, gcap, k) ==> {
                        &&& repro_count(pre, gcap, k) < new_cells@.len()
                        &&& new_cells@[repro_count(pre, gcap, k)].energy as int == (2
                            * pre[k].energy) / 3
                        &&& spec_child_core(pre[k], new_cells@[repro_count(pre, gcap, k)])
                        &&& spec_child_offset(pre[k], new_cells@[repro_count(pre, gcap, k)])
                    },
                match old(self).last_best_cell_index {
                    None => save is None,
                    Some(bi) => if (bi as int) < i && spec_reproduces(pre, gcap, bi as int) {
                        match save {
                            Some(p) => nn_eq(p.0, pre[bi as int].brain) && p.1 == pre[bi
                                as int].generation,
                            None => false,
                        }
                    } else {
                        save is None
                    },
                },
            decreases len - i,
        {
            proof {
                assert(self.cells@[i as int] == pre[i as int]);
                assert(repro_count(pre, gcap, i as int + 1) == {
                    let c = repro_count(pre, gcap, i as int);
                    if pre[i as int].energy > REPRODUCTION_ENERGY_THRESHOLD && pre.len() + c
                        < gcap {
                        c + 1
                    } else {
                        c
                    }
                });
            }
            if self.cells[i].energy > REPRODUCTION_ENERGY_THRESHOLD {
                let projected = len + new_cells.len();
                if projected < self.max_cells {
                    proof {
                        assert(spec_reproduces(pre, gcap, i as int));
                    }
                    let total_energy = self.cells[i].energy;
                    let child_energy = div_floor(2 * total_energy, 3);
                    let parent_energy = div_floor(total_energy, 3);
                    proof {
                        vstd::arithmetic::div_mod::lemma_div_pos_is_pos(
                            2 * total_energy as int,
                            3,
                        );
                        vstd::arithmetic::div_mod::lemma_div_is_ordered(
                            2 * total_energy as int,
                            660000,
                            3,
                        );
                        vstd::arithmetic::div_mod::lemma_div_pos_is_pos(total_energy as int, 3);
                        vstd::arithmetic::div_mod::lemma_div_is_ordered(
                            total_energy as int,
                            330000,
                            3,
                        );
                    }
                    let mut child = {
                        let parent: &Cell = &self.cells[i];
                        parent.spawn_child(rng)
                    };
                    let ghost child0 = child;
                    child.energy = child_energy;
                    let ghost new_before = new_cells@;
                    proof {
                        crate::cell::lemma_child_core_placement(pre[i as int], child0, child);
                        assert(spec_child_core(pre[i as int], child));
                        assert(spec_child_offset(pre[i as int], child));
                    }
                    new_cells.push(child);
                    proof {
                        assert forall|k: int|
                            0 <= k < i + 1 && #[trigger] spec_reproduces(pre, gcap, k) implies {
                            &&& repro_count(pre, gcap, k) < new_cells@.len()
                            &&& new_cells@[repro_count(pre, gcap, k)].energy as int == (2
                                * pre[k].energy) / 3
                            &&& spec_child_core(pre[k], new_cells@[repro_count(pre, gcap, k)])
                            &&& spec_child_offset(pre[k], new_cells@[repro_count(pre, gcap, k)])
                        } by {
                            assert(spec_reproduces(pre, gcap, k));
                            lemma_repro_count_monotone(pre, gcap, 0, k);
                            if k < i {
                                lemma_repro_count_monotone(pre, gcap, k + 1, i as int);
                                assert(repro_count(pre, gcap, k) < new_before.len());
                                assert(new_cells@[repro_count(pre, gcap, k)]
                                    == new_before[repro_count(pre, gcap, k)]);
                            } else {
                                assert(repro_count(pre, gcap, k) == new_before.len() as int);
                                assert(new_cells@[repro_count(pre, gcap, k)] == child);
                            }
                        }
                    }
                    let parent_cell: &mut Cell = &mut self.cells[i];
                    parent_cell.energy = parent_energy;
                    if parent_cell.children_count < usize::MAX {
                        parent_cell.children_count = parent_cell.children_count + 1;
                    }
                    proof {
                        assert(self.cells@[i as int] == (Cell {
                            energy: self.cells@[i as int].energy,
                            children_count: self.cells@[i as int].children_count,
                            ..pre[i as int]
                        }));
                    }
                    let is_best = match self.last_best_cell_index {
                        Some(bi) => bi == i,
                        None => false,
                    };
                    if is_best {
                        save = Some((self.cells[i].brain.clone(), self.cells[i].generation));
                    }
                }
            }
            i = i + 1;
        }
        let ghost parents = self.cells@;
        let ghost children = new_cells@;
        self.cells.append(&mut new_cells);
        proof {
            assert(self.cells@ == parents + children);
            assert forall|k: int|
                0 <= k < pre.len() && #[trigger] spec_reproduces(pre, gcap, k) implies {
                let ci = pre.len() + repro_count(pre, gcap, k);
                &&& ci < self.cells@.len()
                &&& self.cells@[ci].energy as int == (2 * pre[k].energy) / 3
                &&& spec_child_core(pre[k], self.cells@[ci])
                &&& spec_child_offset(pre[k], self.cells@[ci])
            } by {
                assert(spec_reproduces(pre, gcap, k));
                lemma_repro_count_monotone(pre, gcap, 0, k);
                let j = repro_count(pre, gcap, k);
                assert(0 <= j);
                assert(j < children.len());
                assert(spec_child_core(pre[k], children[j]));
                assert(parents.len() == pre.len());
                assert(self.cells@[pre.len() + j] == children[j]);
            }
        }
        save
    }

    /// Clears the world and repopulates it with mutated children of the
    /// recorded best genome, at random positions with starting energy.
    /// Without a recorded genome nothing happens.
    pub fn respawn_from_best(&mut self, rng: &mut rand::rngs::StdRng)
        requires
            old(self).wf_mid_tick(),
        ensures
            final(self).wf_mid_tick(),
            *final(self) == (World { cells: final(self).cells, ..*old(self) }),
            old(self).best_cell_genome is None ==> final(self).cells@ == old(self).cells@,
            old(self).best_cell_genome is Some ==> {
                &&& final(self).cells@.len() == if old(self).max_cells
                    < old(self).config.initial_cell_count {
                    old(self).max_cells as int
                } else {
                    old(self).config.initial_cell_count as int
                }
                &&& forall|i: int|
                    0 <= i < final(self).cells@.len() ==> (#[trigger] final(self).cells@[i]).state == CellState::Alive
                &&& forall|i: int|
                    0 <= i < final(self).cells@.len() ==> (#[trigger] final(self).cells@[i]).energy == INITIAL_ENERGY
                &&& forall|i: int|
                    0 <= i < final(self).cells@.len() ==> spec_child_core(
                        old(self).best_cell_genome->Some_0,
                        #[trigger] final(self).cells@[i],
                    )
                &&& forall|i: int|
                    0 <= i < final(self).cells@.len() ==> 0 <= (#[trigger] final(self).cells@[i]).x
                        < old(self).config.world_width && 0 <= final(self).cells@[i].y
                        < old(self).config.world_height
            },
    {
        let genome = match &self.best_cell_genome {
            Some(b) => Some(b.clone()),
            None => None,
        };
        match genome {
            Some(best) => {
                self.cells.clear();
                let spawn_count: usize = if self.max_cells < self.config.initial_cell_count {
                    self.max_cells
                } else {
                    self.config.initial_cell_count
                };
                let mut n: usize = 0;
                while n < spawn_count
                    invariant
                        self.wf_mid_tick(),
                        *self == (World { cells: self.cells, ..*old(self) }),
                        best.wf(),
                        -SPAWN_POS_LIMIT <= best.x <= SPAWN_POS_LIMIT,
                        -SPAWN_POS_LIMIT <= best.y <= SPAWN_POS_LIMIT,
                        spawn_count <= MAX_POP,
                        n <= spawn_count,
                        self.cells@.len() == n,
                        forall|i: int| 0 <= i < n ==> (#[trigger] self.cells@[i]).state
                            == CellState::Alive,
                        forall|i: int| 0 <= i < n ==> (#[trigger] self.cells@[i]).energy
                            == INITIAL_ENERGY,
                        cell_like(best, old(self).best_cell_genome->Some_0),
                        forall|i: int|
                            0 <= i < n ==> spec_child_core(
                                old(self).best_cell_genome->Some_0,
                                #[trigger] self.cells@[i],
                            ),
                        forall|i: int|
                            0 <= i < n ==> 0 <= (#[trigger] self.cells@[i]).x
                                < self.config.world_width && 0 <= self.cells@[i].y
                                < self.config.world_height,
                    decreases spawn_count - n,
                {
                    let mut new_cell = best.spawn_child(rng);
                    let ghost child0 = new_cell;
                    new_cell.x = rand_range(rng, 0, self.config.world_width);
                    new_cell.y = rand_range(rng, 0, self.config.world_height);
                    new_cell.energy = INITIAL_ENERGY;
                    proof {
                        let g = old(self).best_cell_genome->Some_0;
                        crate::cell::lemma_step_close_from_like(g, best, new_cell.brain);
                        crate::cell::lemma_child_core_placement(best, child0, new_cell);
                        assert(spec_child_core(best, new_cell));
                        assert(spec_child_core(g, new_cell));
                    }
                    self.cells.push(new_cell);
                    n = n + 1;
                }
            },
            None => {},
        }
    }

    /// Bookkeeping pass: finds the fittest living cell (first index wins
    /// ties), deep-copies its genome when the tracked identity changed,
    /// publishes its stats, and recomputes the population's hue-variance
    /// diversity.  With no living cell the stats are cleared.
    fn update_stats(&mut self)
        requires
            old(self).wf_mid_tick(),
        ensures
            final(self).wf_mid_tick(),
            final(self).cells@ == old(self).cells@,
            *final(self) == (World {
                stats: final(self).stats,
                best_cell_genome: final(self).best_cell_genome,
                last_best_cell_index: final(self).last_best_cell_index,
                selected_cell_index: final(self).selected_cell_index,
                color_diversity: final(self).color_diversity,
                ..*old(self)
            }),
            final(self).color_diversity == spec_diversity(old(self).cells@),
            (exists|i: int|
                0 <= i < old(self).cells@.len() && (#[trigger] old(self).cells@[i]).state
                    == CellState::Alive) ==> match final(self).last_best_cell_index {
                Some(b) => {
                    &&& is_first_max_fitness(final(self).cells@, b as int)
                    &&& (old(self).last_best_cell_index == Some(b)
                        ==> final(self).best_cell_genome == old(self).best_cell_genome)
                    &&& (old(self).last_best_cell_index != Some(b)
                        ==> match final(self).best_cell_genome {
                        Some(gc) => cell_like(gc, final(self).cells@[b as int]),
                        None => false,
                    })
                    &&& final(self).stats.best_cell == Some(
                        BestCellStats {
                            total_energy_accumulated: final(self).cells@[b
                                as int].total_energy_accumulated,
                            current_energy: final(self).cells@[b as int].energy,
                            children_count: final(self).cells@[b as int].children_count,
                            generation: final(self).cells@[b as int].generation,
                            hue: final(self).cells@[b as int].hue,
                            age: final(self).cells@[b as int].age,
                            x: final(self).cells@[b as int].x,
                            y: final(self).cells@[b as int].y,
                            is_alive: true,
                        },
                    )
                    &&& final(self).stats.selected == old(self).stats.selected
                    &&& final(self).selected_cell_index == if old(self).stats.selected {
                        Some(b)
                    } else {
                        None::<usize>
                    }
                },
                None => false,
            },
            (forall|i: int|
                0 <= i < old(self).cells@.len() ==> (#[trigger] old(self).cells@[i]).state
                    != CellState::Alive) ==> {
                &&& final(self).stats.best_cell is None
                &&& final(self).last_best_cell_index is None
                &&& final(self).selected_cell_index is None
            },
    {
        let len = self.cells.len();
        let mut best_cell_index: Option<usize> = None;
        let mut i: usize = 0;
        while i < len
            invariant
                self.wf_mid_tick(),
                len == self.cells@.len(),
                i <= len,
                match best_cell_index {
                    Some(b) => (b as int) < i && is_first_max_fitness_upto(
                        self.cells@,
                        b as int,
                        i as int,
                    ),
                    None => forall|j: int|
                        0 <= j < i ==> (#[trigger] self.cells@[j]).state != CellState::Alive,
                },
            decreases len - i,
        {
            if self.cells[i].state == CellState::Alive {
                let fit = Stats::calculate_fitness(
                    self.cells[i].total_energy_accumulated,
                    self.cells[i].children_count,
                );
                match best_cell_index {
                    Some(b) => {
                        let bfit = Stats::calculate_fitness(
                            self.cells[b].total_energy_accumulated,
                            self.cells[b].children_count,
                        );
                        if fit > bfit {
                            best_cell_index = Some(i);
                        }
                    },
                    None => {
                        best_cell_index = Some(i);
                    },
                }
            }
            i = i + 1;
        }
        self.update_diversity();
        match best_cell_index {
            Some(index) => {
                let changed = match self.last_best_cell_index {
                    Some(last) => last != index,
                    None => true,
                };
                if changed {
                    let snapshot = {
                        let best: &Cell = &self.cells[index];
                        best.clone()
                    };
                    self.best_cell_genome = Some(snapshot);
                    self.last_best_cell_index = Some(index);
                }
                self.stats.set(
                    BestCellStats {
                        total_energy_accumulated: self.cells[index].total_energy_accumulated,
                        current_energy: self.cells[index].energy,
                        children_count: self.cells[index].children_count,
                        generation: self.cells[index].generation,
                        hue: self.cells[index].hue,
                        age: self.cells[index].age,
                        x: self.cells[index].x,
                        y: self.cells[index].y,
                        is_alive: true,
                    },
                );
                if self.stats.is_selected() {
                    self.selected_cell_index = Some(index);
                } else {
                    self.selected_cell_index = None;
                }
                proof {
                    assert(match self.last_best_cell_index {
                        Some(b) => is_first_max_fitness(self.cells@, b as int),
                        None => false,
                    });
                }
            },
            None => {
                self.stats.clear();
                self.last_best_cell_index = None;
                self.selected_cell_index = None;
            },
        }
    }

    /// Hue variance of the living population, normalized by the largest
    /// possible variance (a half turn squared) into `[0, 1000]`; zero with
    /// fewer than two living cells.
    fn update_diversity(&mut self)
        requires
            old(self).wf_mid_tick(),
        ensures
            final(self).wf_mid_tick(),
            *final(self) == (World { color_diversity: final(self).color_diversity, ..*old(self) }),
            0 <= final(self).color_diversity <= 1000,
            final(self).color_diversity == spec_diversity(old(self).cells@),
    {
        let len = self.cells.len();
        let mut hues: Vec<i64> = Vec::new();
        let mut i: usize = 0;
        while i < len
            invariant
                self.wf_mid_tick(),
                len == self.cells@.len(),
                i <= len,
                hues@ == alive_hues(self.cells@, i as int),
                hues@.len() <= i,
                forall|k: int| 0 <= k < hues@.len() ==> 0 <= #[trigger] hues@[k] < HUE_MAX,
            decreases len - i,
        {
            if self.cells[i].state == CellState::Alive {
                hues.push(self.cells[i].hue);
            }
            i = i + 1;
        }
        if hues.len() > 1 {
            let n = hues.len();
            let mut sum: i64 = 0;
            let mut k: usize = 0;
            while k < n
                invariant
                    n == hues@.len(),
                    n <= MAX_POP,
                    forall|m: int| 0 <= m < hues@.len() ==> 0 <= #[trigger] hues@[m] < HUE_MAX,
                    k <= n,
                    sum == seq_sum_i64(hues@, k as int),
                    0 <= sum <= k * 359999,
                    sum <= 360000000000,
                decreases n - k,
            {
                sum = sum + hues[k];
                k = k + 1;
            }
            let mean = div_floor(sum, n as i64);
            proof {
                vstd::arithmetic::div_mod::lemma_div_pos_is_pos(sum as int, n as int);
                vstd::arithmetic::div_mod::lemma_div_is_ordered(
                    sum as int,
                    359999 * (n as int),
                    n as int,
                );
                vstd::arithmetic::mul::lemma_mul_is_commutative(359999, n as int);
                vstd::arithmetic::div_mod::lemma_div_multiples_vanish(359999, n as int);
            }
            let mut var_sum: i64 = 0;
            let mut k: usize = 0;
            while k < n
                invariant
                    n == hues@.len(),
                    n <= MAX_POP,
                    forall|m: int| 0 <= m < hues@.len() ==> 0 <= #[trigger] hues@[m] < HUE_MAX,
                    k <= n,
                    0 <= mean <= 359999,
                    var_sum == hue_var_sum(hues@, mean as int, k as int),
                    0 <= var_sum <= k * 32400000000,
                    var_sum <= 32400000000000000,
                decreases n - k,
            {
                let h = hues[k];
                let diff: i64 = if h >= mean {
                    h - mean
                } else {
                    mean - h
                };
                let wrapped: i64 = if diff > 180000 {
                    360000 - diff
                } else {
                    diff
                };
                proof {
                    lemma_square_bound(wrapped as int, 180000);
                }
                var_sum = var_sum + wrapped * wrapped;
                k = k + 1;
            }
            let variance = div_floor(var_sum, n as i64);
            proof {
                vstd::arithmetic::div_mod::lemma_div_pos_is_pos(var_sum as int, n as int);
                vstd::arithmetic::div_mod::lemma_div_is_ordered_by_denominator(
                    var_sum as int,
                    1,
                    n as int,
                );
                vstd::arithmetic::div_mod::lemma_fundamental_div_mod_converse(
                    var_sum as int,
                    1,
                    var_sum as int,
                    0,
                );
            }
            let scaled = div_floor(variance, 32400000);
            proof {
                vstd::arithmetic::div_mod::lemma_div_pos_is_pos(variance as int, 32400000);
            }
            self.color_diversity = if scaled > 1000 {
                1000
            } else {
                scaled
            };
        } else {
            self.color_diversity = 0;
        }
    }
}

/// The hues of the living cells among the first `n`, in order.
pub open spec fn alive_hues(cells: Seq<Cell>, n: int) -> Seq<i64>
    decreases n,
{
    if n <= 0 {
        Seq::empty()
    } else {
        let p = alive_hues(cells, n - 1);
        if cells[n - 1].state == CellState::Alive {
            p.push(cells[n - 1].hue)
        } else {
            p
        }
    }
}

/// Squared circular deviation of a hue from the mean: the shorter way
/// around the hue circle, squared.
pub open spec fn hue_sq_dev(h: int, mean: int) -> int {
    let diff = if h >= mean {
        h - mean
    } else {
        mean - h
    };
    let wrapped = if diff > 180000 {
        360000 - diff
    } else {
        diff
    };
    wrapped * wrapped
}

/// Sum of the squared circular deviations of the first `n` hues.
pub open spec fn hue_var_sum(hues: Seq<i64>, mean: int, n: int) -> int
    decreases n,
{
    if n <= 0 {
        0
    } else {
        hue_var_sum(hues, mean, n - 1) + hue_sq_dev(hues[n - 1] as int, mean)
    }
}

/// The population's color diversity: the variance of the living cells'
/// hues around their mean (shorter way around the circle), normalized by
/// the largest possible variance into `[0, 1000]`; zero with fewer than
/// two living cells.
pub open spec fn spec_diversity(cells: Seq<Cell>) -> int {
    let hues = alive_hues(cells, cells.len() as int);
    if hues.len() > 1 {
        let mean = seq_sum_i64(hues, hues.len() as int) / (hues.len() as int);
        let variance = hue_var_sum(hues, mean, hues.len() as int) / (hues.len() as int);
        let scaled = variance / 32400000;
        if scaled > 1000 {
            1000
        } else {
            scaled
        }
    } else {
        0
    }
}

/// Number of children born among the first `n` cells of a reproduction
/// scan under cap `cap`: a cell qualifies when its energy exceeds the
/// threshold and the projected population (the pre-scan count plus the
/// children already born) is still under the cap.
pub open spec fn repro_count(cells: Seq<Cell>, cap: int, n: int) -> int
    decreases n,
{
    if n <= 0 {
        0
    } else {
        let c = repro_count(cells, cap, n - 1);
        if cells[n - 1].energy > REPRODUCTION_ENERGY_THRESHOLD && cells.len() + c < cap {
            c + 1
        } else {
            c
        }
    }
}

/// Cell `k` reproduces in the scan: energy above the threshold, and the
/// projected population still under the cap when its turn comes (earlier
/// indices win the last slots).
pub open spec fn spec_reproduces(cells: Seq<Cell>, cap: int, k: int) -> bool {
    cells[k].energy > REPRODUCTION_ENERGY_THRESHOLD && cells.len() + repro_count(cells, cap, k)
        < cap
}

/// A positive child count means some cell in the scanned prefix
/// reproduced.
proof fn lemma_repro_count_pos(cells: Seq<Cell>, cap: int, n: int)
    requires
        repro_count(cells, cap, n) > 0,
    ensures
        exists|k: int| 0 <= k < n && #[trigger] spec_reproduces(cells, cap, k),
    decreases n,
{
    if n > 0 {
        if cells[n - 1].energy > REPRODUCTION_ENERGY_THRESHOLD && cells.len() + repro_count(
            cells,
            cap,
            n - 1,
        ) < cap {
            assert(spec_reproduces(cells, cap, n - 1));
        } else {
            lemma_repro_count_pos(cells, cap, n - 1);
        }
    }
}

/// The running child count never decreases along the scan.
proof fn lemma_repro_count_monotone(cells: Seq<Cell>, cap: int, a: int, b: int)
    requires
        a <= b,
    ensures
        repro_count(cells, cap, a) <= repro_count(cells, cap, b),
    decreases b - a,
{
    if a < b {
        lemma_repro_count_monotone(cells, cap, a, b - 1);
    }
}

/// `b` is the first living cell attaining the maximum fitness among the
/// first `upto` cells.
pub open spec fn is_first_max_fitness_upto(cells: Seq<Cell>, b: int, upto: int) -> bool {
    &&& 0 <= b < upto
    &&& cells[b].state == CellState::Alive
    &&& forall|j: int|
        0 <= j < upto && (#[trigger] cells[j]).state == CellState::Alive ==> spec_fitness(
            cells[j].total_energy_accumulated as int,
            cells[j].children_count as int,
        ) <= spec_fitness(
            cells[b].total_energy_accumulated as int,
            cells[b].children_count as int,
        )
    &&& forall|j: int|
        0 <= j < b && (#[trigger] cells[j]).state == CellState::Alive ==> spec_fitness(
            cells[j].total_energy_accumulated as int,
            cells[j].children_count as int,
        ) < spec_fitness(
            cells[b].total_energy_accumulated as int,
            cells[b].children_count as int,
        )
}

/// `b` is the first living cell attaining the maximum fitness.
pub open spec fn is_first_max_fitness(cells: Seq<Cell>, b: int) -> bool {
    is_first_max_fitness_upto(cells, b, cells.len() as int)
}


/// Relies on rayon's `par_iter_mut().for_each`: the closure runs exactly
/// once on every element of the vector, in place, with no cross-element
/// access — so each cell steps by the verified `Cell::update`, whose
/// contract carries over elementwise.
#[verifier::external_body]
fn par_update_cells(cells: &mut Vec<Cell>, world_width: i64, world_height: i64)
    requires
        1 <= world_width <= WORLD_DIM_LIMIT,
        1 <= world_height <= WORLD_DIM_LIMIT,
        forall|i: int| 0 <= i < old(cells)@.len() ==> (#[trigger] old(cells)@[i]).wf(),
        forall|i: int|
            0 <= i < old(cells)@.len() ==> -crate::cell::ENERGY_LIMIT <= (#[trigger] old(cells)@[i]).energy <= crate::cell::ENERGY_LIMIT,
    ensures
        final(cells)@.len() == old(cells)@.len(),
        forall|i: int|
            0 <= i < old(cells)@.len() ==> updated(
                old(cells)@[i],
                #[trigger] final(cells)@[i],
                world_width as int,
                world_height as int,
            ),
        forall|i: int| 0 <= i < final(cells)@.len() ==> (#[trigger] final(cells)@[i]).wf(),
        forall|i: int|
            0 <= i < final(cells)@.len() ==> 0 <= (#[trigger] final(cells)@[i]).x < world_width,
        forall|i: int|
            0 <= i < final(cells)@.len() ==> 0 <= (#[trigger] final(cells)@[i]).y < world_height,
        forall|i: int|
            0 <= i < final(cells)@.len() ==> (#[trigger] final(cells)@[i]).energy < final(cells)@[i].mass,
        forall|i: int|
            0 <= i < old(cells)@.len() ==> ((#[trigger] old(cells)@[i]).energy >= -100000
                ==> final(cells)@[i].energy >= -100030),
        forall|i: int|
            0 <= i < old(cells)@.len() ==> (#[trigger] final(cells)@[i]).state
                == lifecycle_state(old(cells)@[i]),
        forall|i: int|
            0 <= i < old(cells)@.len() ==> (#[trigger] final(cells)@[i]).mass == old(cells)@[i].mass && final(cells)@[i].total_energy_accumulated == old(cells)@[i].total_energy_accumulated,
{
    cells.par_iter_mut().for_each(|cell| cell.update(world_width, world_height));
}


/// The population transition of one non-paused tick: every cell steps by
/// the per-cell update law, a list of genuine transfers moves collision
/// energy and the depleted are pruned, the survivors reproduce under the
/// cap, and the result either keeps its identity (with refreshed sensor
/// caches) or — on extinction with a recorded genome — is replaced by a
/// fresh brood of `min(cap, initial)` living cells at starting energy.
pub open spec fn tick_cells_transition(
    pre: Seq<Cell>,
    post: Seq<Cell>,
    w: int,
    h: int,
    cap: int,
    initial: int,
) -> bool {
    exists|stepped: Seq<Cell>, ts: Seq<(usize, usize, i64, i64)>, settled: Seq<Cell>|
        #![trigger stepped.len(), ts.len(), settled.len()]
        {
            &&& stepped.len() == pre.len()
            &&& forall|i: int|
                0 <= i < pre.len() ==> updated(pre[i], #[trigger] stepped[i], w, h)
            &&& forall|k: int| 0 <= k < ts.len() ==> valid_transfer(stepped, w, h, #[trigger] ts[k])
            &&& forall|k1: int, k2: int|
                0 <= k1 < k2 < ts.len() ==> (#[trigger] ts[k1]).0 < (#[trigger] ts[k2]).0
            &&& settled == prune_from(
                transfers_applied_seq(stepped, ts, ts.len() as int),
                stepped.len() as int,
            )
            &&& {
                ||| {
                    &&& post.len() == settled.len() + repro_count(
                        settled,
                        cap,
                        settled.len() as int,
                    )
                    &&& forall|kk: int|
                        0 <= kk < settled.len() && !spec_reproduces(settled, cap, kk)
                            ==> #[trigger] post[kk] == (Cell {
                            nearest_cells: post[kk].nearest_cells,
                            ..settled[kk]
                        })
                    &&& forall|kk: int|
                        0 <= kk < settled.len() && #[trigger] spec_reproduces(settled, cap, kk)
                            ==> post[kk].energy == settled[kk].energy as int / 3
                }
                ||| {
                    &&& repro_count(settled, cap, settled.len() as int) == 0
                    &&& forall|kk: int|
                        0 <= kk < settled.len() ==> (#[trigger] settled[kk]).state
                            != CellState::Alive
                    &&& post.len() == if cap < initial {
                        cap
                    } else {
                        initial
                    }
                    &&& forall|kk: int|
                        0 <= kk < post.len() ==> (#[trigger] post[kk]).state == CellState::Alive
                            && post[kk].energy == INITIAL_ENERGY
                }
            }
        }
}

impl World {
    /// One simulation tick: frame-rate sampling, cap adjustment, the
    /// parallel per-cell updates, grid rebuild, collision energy exchange
    /// and pruning, reproduction, a second grid rebuild, sensor
    /// recomputation, bookkeeping, and extinction recovery.  Returns the
    /// brain to persist when the tracked best cell reproduced; the caller
    /// performs the save.  A paused world only samples the frame rate.
    pub fn update(&mut self, delta_time: i64, rng: &mut rand::rngs::StdRng) -> (save: Option<
        (NeuralNetwork, usize),
    >)
        requires
            old(self).wf(),
            0 <= delta_time <= FRAME_TIME_LIMIT,
        ensures
            final(self).wf(),
            final(self).current_fps == spec_fps(final(self).frame_times@),
            final(self).frame_times@.last() == delta_time,
            old(self).paused ==> final(self).cells@ == old(self).cells@ && save is None,
            old(self).paused ==> *final(self) == (World {
                frame_times: final(self).frame_times,
                current_fps: final(self).current_fps,
                ..*old(self)
            }),
            !old(self).paused ==> final(self).cells@.len() <= if old(self).cells@.len() > final(self).max_cells {
                old(self).cells@.len() as int
            } else {
                final(self).max_cells as int
            },
            !old(self).paused ==> final(self).max_cells as int == if old(self).last_adjustment_time
                + delta_time >= ADJUSTMENT_INTERVAL {
                spec_adjusted_cap(
                    old(self).max_cells as int,
                    spec_fps(final(self).frame_times@),
                )
            } else {
                old(self).max_cells as int
            },
            !old(self).paused ==> forall|i: int, k: int|
                0 <= i < final(self).cells@.len() && 0 <= k
                    < final(self).cells@[i].nearest_cells@.len() ==> sensor_reading_valid(
                    #[trigger] final(self).cells@[i].nearest_cells@[k],
                    final(self).cells@,
                    i,
                    final(self).config.world_width as int,
                    final(self).config.world_height as int,
                ),
            !old(self).paused ==> tick_cells_transition(
                old(self).cells@,
                final(self).cells@,
                old(self).config.world_width as int,
                old(self).config.world_height as int,
                final(self).max_cells as int,
                old(self).config.initial_cell_count as int,
            ),
    {
        self.update_fps(delta_time);
        if self.paused {
            return None;
        }
        self.adjust_cell_cap();
        let ghost pre_cells = old(self).cells@;
        let ghost gw = self.config.world_width as int;
        let ghost gh = self.config.world_height as int;
        let world_width = self.config.world_width;
        let world_height = self.config.world_height;
        par_update_cells(&mut self.cells, world_width, world_height);
        let ghost stepped = self.cells@;
        self.rebuild_spatial_grid();
        self.check_collisions();
        let ghost settled = self.cells@;
        let ghost ts = choose|ts: Seq<(usize, usize, i64, i64)>|
            {
                &&& forall|k: int|
                    0 <= k < ts.len() ==> valid_transfer(stepped, gw, gh, #[trigger] ts[k])
                &&& forall|k1: int, k2: int|
                    0 <= k1 < k2 < ts.len() ==> (#[trigger] ts[k1]).0 < (#[trigger] ts[k2]).0
                &&& settled == prune_from(
                    #[trigger] transfers_applied_seq(stepped, ts, ts.len() as int),
                    stepped.len() as int,
                )
            };
        let ghost cap = self.max_cells as int;
        let save = self.handle_reproduction(rng);
        let ghost bred = self.cells@;
        self.rebuild_spatial_grid();
        self.update_sensors();
        let ghost pre_stats_cells = self.cells@;
        self.update_stats();
        let mut alive_count: usize = 0;
        let mut i: usize = 0;
        while i < self.cells.len()
            invariant
                i <= self.cells@.len(),
                alive_count <= i,
                alive_count == 0 ==> forall|j: int|
                    0 <= j < i ==> (#[trigger] self.cells@[j]).state != CellState::Alive,
            decreases self.cells@.len() - i,
        {
            if self.cells[i].state == CellState::Alive {
                alive_count = alive_count + 1;
            }
            i = i + 1;
        }
        let respawning = alive_count == 0 && self.best_cell_genome.is_some();
        if respawning {
            self.respawn_from_best(rng);
        }
        proof {
            if respawning {
                assert(repro_count(settled, cap, settled.len() as int) == 0) by {
                    if repro_count(settled, cap, settled.len() as int) > 0 {
                        lemma_repro_count_pos(settled, cap, settled.len() as int);
                        let k0 = choose|k0: int|
                            0 <= k0 < settled.len() && #[trigger] spec_reproduces(
                                settled,
                                cap,
                                k0,
                            );
                        lemma_repro_count_monotone(settled, cap, 0, k0);
                        let ci = settled.len() + repro_count(settled, cap, k0);
                        assert(bred[ci as int].state == CellState::Alive);
                        assert(pre_stats_cells[ci as int].state == CellState::Alive);
                    }
                }
                assert forall|kk: int|
                    0 <= kk < settled.len() implies (#[trigger] settled[kk]).state
                        != CellState::Alive by {
                    assert(pre_stats_cells[kk].state == settled[kk].state);
                }
                assert forall|i2: int, k: int|
                    0 <= i2 < self.cells@.len() && 0 <= k
                        < self.cells@[i2].nearest_cells@.len() implies sensor_reading_valid(
                    #[trigger] self.cells@[i2].nearest_cells@[k],
                    self.cells@,
                    i2,
                    gw,
                    gh,
                ) by {
                    assert(self.cells@[i2].nearest_cells@.len() == 0);
                }
            } else {
                assert(self.cells@.len() == settled.len() + repro_count(
                    settled,
                    cap,
                    settled.len() as int,
                ));
                assert forall|kk: int|
                    0 <= kk < settled.len() && !spec_reproduces(settled, cap, kk)
                        implies #[trigger] self.cells@[kk] == (Cell {
                    nearest_cells: self.cells@[kk].nearest_cells,
                    ..settled[kk]
                }) by {
                    assert(bred[kk] == settled[kk]);
                    assert(self.cells@[kk] == (Cell {
                        nearest_cells: self.cells@[kk].nearest_cells,
                        ..bred[kk]
                    }));
                }
                assert forall|kk: int|
                    0 <= kk < settled.len() && #[trigger] spec_reproduces(settled, cap, kk)
                        implies self.cells@[kk].energy == settled[kk].energy as int / 3 by {
                    assert(bred[kk].energy == settled[kk].energy as int / 3);
                    assert(self.cells@[kk] == (Cell {
                        nearest_cells: self.cells@[kk].nearest_cells,
                        ..bred[kk]
                    }));
                }
            }
            assert(tick_cells_transition(
                pre_cells,
                self.cells@,
                gw,
                gh,
                self.max_cells as int,
                self.config.initial_cell_count as int,
            )) by {
                assert(stepped.len() == pre_cells.len());
                assert(forall|k: int|
                    0 <= k < ts.len() ==> valid_transfer(stepped, gw, gh, #[trigger] ts[k]));
                assert(settled == prune_from(
                    transfers_applied_seq(stepped, ts, ts.len() as int),
                    stepped.len() as int,
                ));
            }
        }
        save
    }
}

} // verus!
