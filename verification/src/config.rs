//! Engine-wide tunables, passed explicitly at construction so a simulation
//! is deterministic and testable in isolation.

use vstd::prelude::*;

verus! {

use crate::cell::WORLD_DIM_LIMIT;
use crate::world::MAX_POP;

#[derive(Clone)]
pub struct SimulationConfig {
    /// World width, in fixed-point units.
    pub world_width: i64,
    /// World height, in fixed-point units.
    pub world_height: i64,
    pub initial_cell_count: usize,
    pub show_ui: bool,
}

impl SimulationConfig {
    /// Dimensions the engine accepts, and an initial population within the
    /// hard cap.
    pub open spec fn wf(self) -> bool {
        &&& 1 <= self.world_width <= WORLD_DIM_LIMIT
        &&& 1 <= self.world_height <= WORLD_DIM_LIMIT
        &&& self.initial_cell_count <= MAX_POP
    }

    /// The demo configuration: a smaller world with the interface hidden.
    pub fn demo() -> (r: SimulationConfig)
        ensures
            r.wf(),
            r.world_width == 4000000,
            r.world_height == 3000000,
            r.initial_cell_count == 1000,
            r.show_ui == false,
    {
        SimulationConfig {
            world_width: 4000000,
            world_height: 3000000,
            initial_cell_count: 1000,
            show_ui: false,
        }
    }
}

impl Default for SimulationConfig {
    /// The standard configuration: an 8000-by-7000 world with a thousand
    /// cells and the interface shown.
    fn default() -> (r: SimulationConfig)
        ensures
            r.wf(),
            r.world_width == 8000000,
            r.world_height == 7000000,
            r.initial_cell_count == 1000,
            r.show_ui == true,
    {
        SimulationConfig {
            world_width: 8000000,
            world_height: 7000000,
            initial_cell_count: 1000,
            show_ui: true,
        }
    }
}

} // verus!
