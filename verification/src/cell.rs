//! An individual cell: lifecycle state, energy economy, locomotion and
//! heritable traits, with a neural network brain.
//!
//! All scalar state is fixed-point (thousandths).  Heritable traits always
//! lie within their declared ranges; mutation perturbs a trait by up to one
//! percent and clamps it back into range.

use vstd::prelude::*;

verus! {

use crate::fixed::{
    div_floor, mod_euclid, clamp_fp, spec_clamp, sin_fp, cos_fp, spec_sin, spec_cos, add_saturating,
    SCALE, PI_FP, TAU_FP,
};
use crate::neural_network::{NeuralNetwork, nn_eq, nn_step_close, nn_init_range};
use crate::rng::rand_range;

/// Passive energy loss per tick while alive.
pub const METABOLISM_LOSS: i64 = 30;

/// Passive energy loss per tick while a corpse.
pub const CORPSE_DECAY: i64 = 20;

/// Base cost of a turn action, before the age multiplier.
pub const TURN_COST: i64 = 450;

/// Base cost of a forward thrust, before the age multiplier.
pub const FORWARD_COST: i64 = 900;

/// Below this age, gained energy is spent on growth instead of being stored.
pub const GROWTH_AGE: i64 = 20000;

/// Age at which a cell reaches its full radius.
pub const ADULT_AGE: i64 = 30000;

/// Age at which action costs stop rising.
pub const MAX_AGE_FOR_COST: i64 = 100000;

/// A newborn's radius, in thousandths of the full radius.
pub const MIN_RADIUS_PERMILLE: i64 = 100;

/// Age gained per tick while alive.
pub const AGE_STEP: i64 = 100;

/// Bounds of the heritable traits, as drawn at spawn and enforced again
/// after every mutation.
pub const SPEED_MIN: i64 = 1000;

pub const SPEED_MAX: i64 = 3000;

pub const RADIUS_MIN: i64 = 6000;

pub const RADIUS_MAX: i64 = 15000;

pub const PROB_MIN: i64 = 50;

pub const PROB_MAX: i64 = 150;

pub const CHUNK_MIN: i64 = 45000;

pub const CHUNK_MAX: i64 = 55000;

pub const SPECIES_MIN: i64 = 900;

pub const SPECIES_MAX: i64 = 2000;

pub const MASS_MIN: i64 = 180000;

pub const MASS_MAX: i64 = 220000;

/// Hues live on the circle `[0, HUE_MAX)`, in thousandths of a degree.
pub const HUE_MAX: i64 = 360000;

/// Starting (and maximum stored) energy of an initially spawned cell.
pub const INITIAL_ENERGY: i64 = 100000;

/// The number of sensor slots a cell carries.
pub const SENSOR_COUNT: usize = 5;

/// Features per sensor slot fed to the brain.
pub const SENSOR_FEATURES: usize = 4;

/// Width of the brain's input layer: `SENSOR_COUNT * SENSOR_FEATURES`.
pub const BRAIN_INPUTS: usize = 20;

/// Number of actions the brain chooses among.
pub const ACTION_COUNT: usize = 4;

/// How far a cell can sense, in fixed-point world units.
pub const SENSOR_RANGE: i64 = 200000;

/// Velocity components never exceed the highest speed trait.
pub const VEL_LIMIT: i64 = 3000;

/// Fixed point of the angular friction and turn-rate dynamics.
pub const ANGVEL_LIMIT: i64 = 1500;

/// Positions a cell may occupy (unwrapped, between ticks).
pub const POS_LIMIT: i64 = 2000000000000;

/// Positions a parent may spawn a child from.
pub const SPAWN_POS_LIMIT: i64 = 1000000000000;

/// World dimensions the engine accepts.
pub const WORLD_DIM_LIMIT: i64 = 3000000000;

/// Energies the update and energy-exchange steps accept.
pub const ENERGY_LIMIT: i64 = 1000000000000;

#[derive(Clone, Copy, Debug, PartialEq, Eq, Structural)]
pub enum CellState {
    Alive,
    Corpse,
}

/// One sensed neighbor: its index in the cell array (valid only within the
/// tick it was computed), relative bearing, distance, mass and liveness.
#[derive(Clone, Copy)]
pub struct SensorReading {
    pub index: usize,
    /// Bearing from the cell's facing direction, in `[-PI_FP, PI_FP]`.
    pub angle: i64,
    /// Distance, in `[0, SENSOR_RANGE]`.
    pub distance: i64,
    /// The neighbor's mass, in `[0, MASS_MAX]`.
    pub mass: i64,
    pub alive: bool,
}

/// A sensor reading's scalar fields lie in the ranges the brain's input
/// normalization expects.
pub open spec fn reading_wf(r: SensorReading) -> bool {
    &&& -PI_FP <= r.angle <= PI_FP
    &&& 0 <= r.distance <= SENSOR_RANGE
    &&& 0 <= r.mass <= MASS_MAX
}

/// At most `SENSOR_COUNT` readings, each well-formed.
pub open spec fn sensors_wf(s: Seq<SensorReading>) -> bool {
    &&& s.len() <= SENSOR_COUNT
    &&& forall|i: int| 0 <= i < s.len() ==> reading_wf(#[trigger] s[i])
}

pub struct Cell {
    // Individual state.
    pub x: i64,
    pub y: i64,
    pub velocity_x: i64,
    pub velocity_y: i64,
    pub energy: i64,
    /// Facing angle in milliradians, kept wrapped into `[0, TAU_FP)`.
    pub angle: i64,
    pub angle_velocity: i64,
    pub state: CellState,
    pub age: i64,
    // Lineage stats.
    pub total_energy_accumulated: i64,
    pub children_count: usize,
    pub generation: usize,
    // Sensor cache, recomputed every tick.
    pub nearest_cells: Vec<SensorReading>,
    // Brain.
    pub brain: NeuralNetwork,
    // Heritable traits.
    /// Color, as a hue on `[0, HUE_MAX)`.
    pub hue: i64,
    pub radius: i64,
    pub move_probability: i64,
    pub turn_probability: i64,
    pub speed: i64,
    pub turn_rate: i64,
    pub energy_chunk_size: i64,
    pub species_multiplier: i64,
    pub mass: i64,
}

impl Cell {
    /// Structural invariant: traits in their declared ranges, kinematic
    /// state bounded, and a brain shaped for the sensor inputs.
    pub open spec fn wf(self) -> bool {
        &&& SPEED_MIN <= self.speed <= SPEED_MAX
        &&& RADIUS_MIN <= self.radius <= RADIUS_MAX
        &&& PROB_MIN <= self.move_probability <= PROB_MAX
        &&& PROB_MIN <= self.turn_probability <= PROB_MAX
        &&& PROB_MIN <= self.turn_rate <= PROB_MAX
        &&& CHUNK_MIN <= self.energy_chunk_size <= CHUNK_MAX
        &&& SPECIES_MIN <= self.species_multiplier <= SPECIES_MAX
        &&& MASS_MIN <= self.mass <= MASS_MAX
        &&& 0 <= self.hue < HUE_MAX
        &&& -POS_LIMIT <= self.x <= POS_LIMIT
        &&& -POS_LIMIT <= self.y <= POS_LIMIT
        &&& -VEL_LIMIT <= self.velocity_x <= VEL_LIMIT
        &&& -VEL_LIMIT <= self.velocity_y <= VEL_LIMIT
        &&& 0 <= self.angle < TAU_FP
        &&& -ANGVEL_LIMIT <= self.angle_velocity <= ANGVEL_LIMIT
        &&& 0 <= self.age
        &&& self.brain.wf()
        &&& self.brain.input_size == BRAIN_INPUTS
        &&& self.brain.output_size == ACTION_COUNT
        &&& sensors_wf(self.nearest_cells@)
    }

    /// Age-dependent fraction of the full radius, in thousandths.
    pub open spec fn spec_size_permille(age: int) -> int {
        if age < ADULT_AGE {
            MIN_RADIUS_PERMILLE + (age * 900) / (ADULT_AGE as int)
        } else {
            1000
        }
    }

    /// The age-dependent radius, as a spec-level value.
    pub open spec fn spec_current_radius(self) -> int {
        (self.radius * Cell::spec_size_permille(self.age as int)) / (SCALE as int)
    }

    /// Current radius: grows linearly from ten percent of the base radius
    /// to the full radius as age reaches `ADULT_AGE`.
    pub fn get_current_radius(&self) -> (r: i64)
        requires
            self.wf(),
        ensures
            r == self.spec_current_radius(),
            0 <= r <= self.radius,
    {
        proof {
            lemma_size_permille_bounds(self.age as int);
        }
        let sp: i64 = if self.age < ADULT_AGE {
            proof {
                vstd::arithmetic::mul::lemma_mul_nonnegative(self.age as int, 900);
                vstd::arithmetic::mul::lemma_mul_inequality(self.age as int, 30000, 900);
                vstd::arithmetic::div_mod::lemma_div_pos_is_pos(self.age as int * 900, 30000);
                vstd::arithmetic::div_mod::lemma_div_is_ordered(self.age as int * 900, 27000000, 30000);
            }
            MIN_RADIUS_PERMILLE + div_floor(self.age * 900, ADULT_AGE)
        } else {
            1000
        };
        proof {
            vstd::arithmetic::mul::lemma_mul_nonnegative(self.radius as int, sp as int);
            vstd::arithmetic::mul::lemma_mul_upper_bound(self.radius as int, 15000, sp as int, 1000);
            vstd::arithmetic::mul::lemma_mul_left_inequality(self.radius as int, sp as int, 1000);
            vstd::arithmetic::div_mod::lemma_div_pos_is_pos(self.radius as int * sp as int, 1000);
            vstd::arithmetic::div_mod::lemma_div_is_ordered(
                self.radius as int * sp as int,
                self.radius as int * 1000,
                1000,
            );
            vstd::arithmetic::div_mod::lemma_div_multiples_vanish(self.radius as int, 1000);
        }
        div_floor(self.radius * sp, SCALE)
    }

    /// Action-cost multiplier, rising linearly from one to two over the
    /// first hundred age units, in thousandths.
    pub open spec fn spec_age_cost_mult(age: int) -> int {
        let frac = if age / 100 < 1000 {
            age / 100
        } else {
            1000
        };
        1000 + frac
    }

    fn age_cost_multiplier(&self) -> (m: i64)
        requires
            self.wf(),
        ensures
            m == Cell::spec_age_cost_mult(self.age as int),
            1000 <= m <= 2000,
    {
        let frac64 = div_floor(self.age, 100);
        proof {
            vstd::arithmetic::div_mod::lemma_div_pos_is_pos(self.age as int, 100);
        }
        let frac = if frac64 < 1000 {
            frac64
        } else {
            1000
        };
        1000 + frac
    }

    /// Books the gained energy into the lifetime total (saturating at the
    /// numeric limit); young cells spend the gain on growth instead of
    /// storing it.
    pub fn gain_energy(&mut self, amount: i64)
        requires
            old(self).wf(),
            0 <= amount <= ENERGY_LIMIT,
            -ENERGY_LIMIT <= old(self).energy <= ENERGY_LIMIT,
            0 <= old(self).total_energy_accumulated,
        ensures
            final(self).wf(),
            final(self).total_energy_accumulated == if old(self).total_energy_accumulated + amount
                <= i64::MAX {
                old(self).total_energy_accumulated + amount
            } else {
                i64::MAX as int
            },
            final(self).energy == if old(self).age < GROWTH_AGE {
                old(self).energy as int
            } else {
                old(self).energy + amount
            },
            *final(self) == (Cell {
                energy: final(self).energy,
                total_energy_accumulated: final(self).total_energy_accumulated,
                ..*old(self)
            }),
    {
        self.total_energy_accumulated = add_saturating(self.total_energy_accumulated, amount);
        if self.age < GROWTH_AGE {
            return ;
        }
        self.energy = self.energy + amount;
    }
}

/// The size fraction stays between the newborn fraction and one.
proof fn lemma_size_permille_bounds(age: int)
    requires
        0 <= age,
    ensures
        MIN_RADIUS_PERMILLE <= Cell::spec_size_permille(age) <= 1000,
{
    if age < ADULT_AGE {
        vstd::arithmetic::mul::lemma_mul_nonnegative(age, 900);
        vstd::arithmetic::mul::lemma_mul_inequality(age, 30000, 900);
        vstd::arithmetic::div_mod::lemma_div_pos_is_pos(age * 900, 30000);
        vstd::arithmetic::div_mod::lemma_div_is_ordered(age * 900, 27000000, 30000);
    }
}

/// `r` is `v` scaled by a factor within one percent of one, then clamped
/// back into `[lo, hi]`.
pub open spec fn trait_mutated(v: int, r: int, lo: int, hi: int) -> bool {
    exists|d: int|
        -10 <= d <= 10 && r == spec_clamp(#[trigger] ((v * (1000 + d)) / (SCALE as int)), lo, hi)
}

/// `r` is `v` shifted along the hue circle by up to one percent of itself.
pub open spec fn hue_mutated(v: int, r: int) -> bool {
    exists|d: int|
        -10 <= d <= 10 && r == (v + #[trigger] ((v * d) / (SCALE as int))) % (HUE_MAX as int)
}

/// One velocity component of a fresh spawn: a direction component times
/// the speed trait, scaled by the drawn launch fraction.
pub open spec fn spec_thrust_component(dir: int, speed: int, f: int) -> int {
    (((dir * speed) / (SCALE as int)) * f) / (SCALE as int)
}

/// Applies a one-percent mutation: the trait moves by a random factor in
/// `[-1%, +1%]` and is clamped back into `[min, max]`.
pub fn mutate_trait(value: i64, min: i64, max: i64, rng: &mut rand::rngs::StdRng) -> (r: i64)
    requires
        0 <= min <= max <= 1000000000,
        min <= value <= max,
    ensures
        min <= r <= max,
        trait_mutated(value as int, r as int, min as int, max as int),
{
    let d = rand_range(rng, -10, 11);
    proof {
        vstd::arithmetic::mul::lemma_mul_nonnegative(value as int, 1000 + d);
        vstd::arithmetic::mul::lemma_mul_upper_bound(value as int, 1000000000, 1000 + d, 1010);
    }
    let scaled: i64 = value * (1000 + d);
    let m = div_floor(scaled, SCALE);
    let r = clamp_fp(m, min, max);
    proof {
        assert(-10 <= d as int <= 10 && r == spec_clamp(
            (value * (1000 + d as int)) / (SCALE as int),
            min as int,
            max as int,
        ));
    }
    r
}


/// The brain's choice on these inputs: the first index attaining the
/// maximum output score.
pub open spec fn is_first_max(nn: NeuralNetwork, inputs: Seq<i64>, a: int) -> bool {
    &&& 0 <= a < nn.output_size
    &&& forall|j: int|
        0 <= j < nn.output_size ==> #[trigger] nn.spec_output(inputs, j) <= nn.spec_output(
            inputs,
            a,
        )
    &&& forall|j: int| 0 <= j < a ==> #[trigger] nn.spec_output(inputs, j) < nn.spec_output(
        inputs,
        a,
    )
}

/// The normalized brain input for feature `k` (four features per sensor
/// slot, empty slots read as "nothing": all `-SCALE`).
pub open spec fn spec_sensor_feature(c: Cell, k: int) -> int {
    let slot = k / 4;
    let f = k % 4;
    if slot < c.nearest_cells@.len() {
        let r = c.nearest_cells@[slot];
        if f == 0 {
            (r.angle * SCALE) / (PI_FP as int)
        } else if f == 1 {
            ((SENSOR_RANGE - r.distance) * 2000) / (SENSOR_RANGE as int) - 1000
        } else if f == 2 {
            (r.mass * 2000) / (MASS_MAX as int) - 1000
        } else if r.alive {
            1000
        } else {
            -1000
        }
    } else {
        -1000
    }
}

/// The full normalized input vector handed to the brain.
pub open spec fn spec_sensor_inputs(c: Cell) -> Seq<i64> {
    Seq::new(BRAIN_INPUTS as nat, |k: int| spec_sensor_feature(c, k) as i64)
}

/// Every normalized feature lies in `[-SCALE, SCALE]`.
pub proof fn lemma_sensor_feature_bounds(c: Cell, k: int)
    requires
        c.wf(),
        0 <= k < BRAIN_INPUTS,
    ensures
        -SCALE <= spec_sensor_feature(c, k) <= SCALE,
{
    let slot = k / 4;
    let f = k % 4;
    vstd::arithmetic::div_mod::lemma_div_pos_is_pos(k, 4);
    vstd::arithmetic::div_mod::lemma_mod_division_less_than_divisor(k, 4);
    if slot < c.nearest_cells@.len() {
        let r = c.nearest_cells@[slot];
        assert(reading_wf(r));
        if f == 0 {
            vstd::arithmetic::mul::lemma_mul_inequality(-PI_FP as int, r.angle as int, SCALE as int);
            vstd::arithmetic::mul::lemma_mul_inequality(r.angle as int, PI_FP as int, SCALE as int);
            vstd::arithmetic::div_mod::lemma_div_is_ordered(-3142000, r.angle * SCALE, PI_FP as int);
            vstd::arithmetic::div_mod::lemma_div_is_ordered(r.angle * SCALE, 3142000, PI_FP as int);
        } else if f == 1 {
            vstd::arithmetic::mul::lemma_mul_nonnegative(SENSOR_RANGE - r.distance, 2000);
            vstd::arithmetic::mul::lemma_mul_inequality(
                SENSOR_RANGE - r.distance,
                SENSOR_RANGE as int,
                2000,
            );
            vstd::arithmetic::div_mod::lemma_div_pos_is_pos(
                (SENSOR_RANGE - r.distance) * 2000,
                SENSOR_RANGE as int,
            );
            vstd::arithmetic::div_mod::lemma_div_is_ordered(
                (SENSOR_RANGE - r.distance) * 2000,
                400000000,
                SENSOR_RANGE as int,
            );
        } else if f == 2 {
            vstd::arithmetic::mul::lemma_mul_nonnegative(r.mass as int, 2000);
            vstd::arithmetic::mul::lemma_mul_inequality(r.mass as int, MASS_MAX as int, 2000);
            vstd::arithmetic::div_mod::lemma_div_pos_is_pos(r.mass * 2000, MASS_MAX as int);
            vstd::arithmetic::div_mod::lemma_div_is_ordered(r.mass * 2000, 440000000, MASS_MAX as int);
        }
    }
}

/// Energy cost of a turn at this age, in fixed point.
pub open spec fn spec_turn_cost(age: int) -> int {
    (TURN_COST * Cell::spec_age_cost_mult(age)) / (SCALE as int)
}

/// Energy cost of a forward thrust at this age, in fixed point.
pub open spec fn spec_forward_cost(age: int) -> int {
    (FORWARD_COST * Cell::spec_age_cost_mult(age)) / (SCALE as int)
}

/// Effect of a left turn: if the cell can pay, angular velocity drops by
/// the turn rate and the cost is deducted; otherwise nothing happens.
pub open spec fn turn_left_applied(pre: Cell, post: Cell) -> bool {
    let cost = spec_turn_cost(pre.age as int);
    if pre.energy >= cost {
        post == (Cell {
            angle_velocity: (pre.angle_velocity - pre.turn_rate) as i64,
            energy: (pre.energy - cost) as i64,
            ..pre
        })
    } else {
        post == pre
    }
}

/// Effect of a right turn, symmetric to the left turn.
pub open spec fn turn_right_applied(pre: Cell, post: Cell) -> bool {
    let cost = spec_turn_cost(pre.age as int);
    if pre.energy >= cost {
        post == (Cell {
            angle_velocity: (pre.angle_velocity + pre.turn_rate) as i64,
            energy: (pre.energy - cost) as i64,
            ..pre
        })
    } else {
        post == pre
    }
}

/// Effect of a forward thrust: if the cell can pay, velocity is set along
/// the facing direction at the speed trait and the cost is deducted.
pub open spec fn forward_applied(pre: Cell, post: Cell) -> bool {
    let cost = spec_forward_cost(pre.age as int);
    if pre.energy >= cost {
        post == (Cell {
            velocity_x: ((spec_cos(pre.angle as int) * pre.speed) / (SCALE as int)) as i64,
            velocity_y: ((spec_sin(pre.angle as int) * pre.speed) / (SCALE as int)) as i64,
            energy: (pre.energy - cost) as i64,
            ..pre
        })
    } else {
        post == pre
    }
}

/// Effect of the chosen action index on the cell.
pub open spec fn action_effect(pre: Cell, post: Cell, a: int) -> bool {
    if a == 1 {
        turn_left_applied(pre, post)
    } else if a == 2 {
        turn_right_applied(pre, post)
    } else if a == 3 {
        forward_applied(pre, post)
    } else {
        post == pre
    }
}

/// The cell consulted its brain on the normalized sensors and applied the
/// chosen action.
pub open spec fn action_applied(pre: Cell, post: Cell) -> bool {
    exists|a: int|
        #[trigger] action_effect(pre, post, a) && is_first_max(
            pre.brain,
            spec_sensor_inputs(pre),
            a,
        )
}

impl Cell {
    /// Normalizes the sensor cache into the brain's input vector: per slot,
    /// bearing over pi, closeness, mass fraction and liveness, each
    /// rescaled into `[-SCALE, SCALE]`; empty slots read all `-SCALE`.
    pub fn normalize_sensors(&self) -> (r: Vec<i64>)
        requires
            self.wf(),
        ensures
            r@ == spec_sensor_inputs(*self),
            r@.len() == BRAIN_INPUTS,
            forall|k: int| 0 <= k < r@.len() ==> -SCALE <= #[trigger] r@[k] <= SCALE,
    {
        let mut r: Vec<i64> = Vec::new();
        let mut slot: usize = 0;
        while slot < SENSOR_COUNT
            invariant
                self.wf(),
                slot <= SENSOR_COUNT,
                r@.len() == 4 * slot,
                forall|k: int| 0 <= k < r@.len() ==> r@[k] == spec_sensor_feature(*self, k),
                forall|k: int| 0 <= k < r@.len() ==> -SCALE <= #[trigger] r@[k] <= SCALE,
            decreases SENSOR_COUNT - slot,
        {
            proof {
                lemma_sensor_feature_bounds(*self, 4 * slot);
                lemma_sensor_feature_bounds(*self, 4 * slot + 1);
                lemma_sensor_feature_bounds(*self, 4 * slot + 2);
                lemma_sensor_feature_bounds(*self, 4 * slot + 3);
                vstd::arithmetic::div_mod::lemma_fundamental_div_mod_converse(
                    4 * slot as int,
                    4,
                    slot as int,
                    0,
                );
                vstd::arithmetic::div_mod::lemma_fundamental_div_mod_converse(
                    4 * slot as int + 1,
                    4,
                    slot as int,
                    1,
                );
                vstd::arithmetic::div_mod::lemma_fundamental_div_mod_converse(
                    4 * slot as int + 2,
                    4,
                    slot as int,
                    2,
                );
                vstd::arithmetic::div_mod::lemma_fundamental_div_mod_converse(
                    4 * slot as int + 3,
                    4,
                    slot as int,
                    3,
                );
            }
            if slot < self.nearest_cells.len() {
                let reading: SensorReading = self.nearest_cells[slot];
                let a = div_floor(reading.angle * SCALE, PI_FP);
                let d = div_floor((SENSOR_RANGE - reading.distance) * 2000, SENSOR_RANGE) - 1000;
                let m = div_floor(reading.mass * 2000, MASS_MAX) - 1000;
                let alive: i64 = if reading.alive {
                    1000
                } else {
                    -1000
                };
                r.push(a);
                r.push(d);
                r.push(m);
                r.push(alive);
            } else {
                r.push(-1000);
                r.push(-1000);
                r.push(-1000);
                r.push(-1000);
            }
            slot = slot + 1;
        }
        proof {
            assert(r@ =~= spec_sensor_inputs(*self));
        }
        r
    }

    /// Turning: angular impulse opposite to `turn_right`, paid for at the
    /// age-scaled turn cost; silently cancelled if unaffordable.
    pub fn turn_left(&mut self)
        requires
            old(self).wf(),
            -ENERGY_LIMIT <= old(self).energy <= ENERGY_LIMIT,
        ensures
            turn_left_applied(*old(self), *final(self)),
    {
        let m = self.age_cost_multiplier();
        let cost = div_floor(TURN_COST * m, SCALE);
        if self.energy >= cost {
            self.angle_velocity = self.angle_velocity - self.turn_rate;
            self.energy = self.energy - cost;
        }
    }

    /// Turning: angular impulse opposite to `turn_left`.
    pub fn turn_right(&mut self)
        requires
            old(self).wf(),
            -ENERGY_LIMIT <= old(self).energy <= ENERGY_LIMIT,
        ensures
            turn_right_applied(*old(self), *final(self)),
    {
        let m = self.age_cost_multiplier();
        let cost = div_floor(TURN_COST * m, SCALE);
        if self.energy >= cost {
            self.angle_velocity = self.angle_velocity + self.turn_rate;
            self.energy = self.energy - cost;
        }
    }

    /// Thrust along the facing direction at the speed trait, paid for at
    /// the age-scaled forward cost; silently cancelled if unaffordable.
    pub fn forward(&mut self)
        requires
            old(self).wf(),
            -ENERGY_LIMIT <= old(self).energy <= ENERGY_LIMIT,
        ensures
            forward_applied(*old(self), *final(self)),
            -VEL_LIMIT <= final(self).velocity_x <= VEL_LIMIT,
            -VEL_LIMIT <= final(self).velocity_y <= VEL_LIMIT,
    {
        let m = self.age_cost_multiplier();
        let cost = div_floor(FORWARD_COST * m, SCALE);
        if self.energy >= cost {
            let c = cos_fp(self.angle);
            let si = sin_fp(self.angle);
            proof {
                lemma_dir_component_bounds(c as int, self.speed as int);
                lemma_dir_component_bounds(si as int, self.speed as int);
            }
            self.velocity_x = div_floor(c * self.speed, SCALE);
            self.velocity_y = div_floor(si * self.speed, SCALE);
            self.energy = self.energy - cost;
        }
    }

    /// Feeds the normalized sensors to the brain and applies the chosen
    /// action: no-op, turn left, turn right, or forward.
    fn decide_action(&mut self)
        requires
            old(self).wf(),
            -ENERGY_LIMIT <= old(self).energy <= ENERGY_LIMIT,
        ensures
            action_applied(*old(self), *final(self)),
    {
        let inputs = self.normalize_sensors();
        let action = self.brain.get_best_action(&inputs);
        let ghost pre = *old(self);
        if action == 1 {
            self.turn_left();
        } else if action == 2 {
            self.turn_right();
        } else if action == 3 {
            self.forward();
        }
        proof {
            assert(action_effect(pre, *self, action as int));
        }
    }
}

/// A direction component times a bounded speed, scaled down, stays within
/// the velocity limit.
proof fn lemma_dir_component_bounds(c: int, speed: int)
    requires
        -SCALE <= c <= SCALE,
        SPEED_MIN <= speed <= SPEED_MAX,
    ensures
        -3000000 <= c * speed <= 3000000,
        -VEL_LIMIT <= (c * speed) / (SCALE as int) <= VEL_LIMIT,
{
    vstd::arithmetic::mul::lemma_mul_inequality(-SCALE as int, c, speed);
    vstd::arithmetic::mul::lemma_mul_inequality(c, SCALE as int, speed);
    vstd::arithmetic::mul::lemma_mul_left_inequality(SCALE as int, speed, 3000);
    assert((-1000) * speed >= -3000000) by (nonlinear_arith)
        requires 1000 <= speed <= 3000;
    assert(1000 * speed <= 3000000) by (nonlinear_arith)
        requires 1000 <= speed <= 3000;
    vstd::arithmetic::div_mod::lemma_div_is_ordered(-3000000, c * speed, 1000);
    vstd::arithmetic::div_mod::lemma_div_is_ordered(c * speed, 3000000, 1000);
}


/// The lifecycle transition at the head of a tick: an alive cell whose
/// energy is spent becomes a corpse.
pub open spec fn lifecycle_state(pre: Cell) -> CellState {
    if pre.state == CellState::Alive && pre.energy <= 0 {
        CellState::Corpse
    } else {
        pre.state
    }
}

/// The cell after the bookkeeping at the head of a tick: lifecycle
/// transition, ageing while alive (saturating at the numeric limit),
/// energy capped at the mass, then the metabolism or decay tax.
pub open spec fn pre_action(pre: Cell) -> Cell {
    let st = lifecycle_state(pre);
    let age2: int = if st == CellState::Alive {
        if pre.age + AGE_STEP <= i64::MAX {
            pre.age + AGE_STEP
        } else {
            i64::MAX as int
        }
    } else {
        pre.age as int
    };
    let ecap: int = if pre.energy > pre.mass {
        pre.mass as int
    } else {
        pre.energy as int
    };
    let e2: int = if st == CellState::Alive {
        ecap - METABOLISM_LOSS
    } else {
        ecap - CORPSE_DECAY
    };
    Cell { state: st, age: age2 as i64, energy: e2 as i64, ..pre }
}

/// Mass-based drag on the velocity, in thousandths: heavier cells drift
/// slower, floored at one half.
pub open spec fn spec_slowdown(mass: int) -> int {
    let f = 200000000int / mass;
    if f < 500 {
        500
    } else {
        f
    }
}

/// The kinematic tail of a tick: position integrated under the mass drag
/// and wrapped toroidally, heading advanced and wrapped, then linear and
/// angular friction.
pub open spec fn integrated(mid: Cell, post: Cell, w: int, h: int) -> bool {
    let sd = spec_slowdown(mid.mass as int);
    post == (Cell {
        x: ((mid.x + (mid.velocity_x * sd) / (SCALE as int)) % w) as i64,
        y: ((mid.y + (mid.velocity_y * sd) / (SCALE as int)) % h) as i64,
        angle: ((mid.angle + mid.angle_velocity) % (TAU_FP as int)) as i64,
        velocity_x: ((mid.velocity_x * 950) / (SCALE as int)) as i64,
        velocity_y: ((mid.velocity_y * 950) / (SCALE as int)) as i64,
        angle_velocity: ((mid.angle_velocity * 900) / (SCALE as int)) as i64,
        ..mid
    })
}

/// The whole per-tick transition of one cell: bookkeeping, then (while
/// alive) the brain's chosen action, then kinematics.  Corpses skip the
/// action but keep drifting.
pub open spec fn updated(pre: Cell, post: Cell, w: int, h: int) -> bool {
    if lifecycle_state(pre) == CellState::Alive {
        exists|mid: Cell| #[trigger] action_applied(pre_action(pre), mid) && integrated(
            mid,
            post,
            w,
            h,
        )
    } else {
        integrated(pre_action(pre), post, w, h)
    }
}

impl Cell {
    /// One simulation tick for this cell alone; see `updated` for the
    /// exact transition.  Energy never ends above the mass, and a cell
    /// that could pay its metabolism tax never ends negative.
    pub fn update(&mut self, world_width: i64, world_height: i64)
        requires
            old(self).wf(),
            1 <= world_width <= WORLD_DIM_LIMIT,
            1 <= world_height <= WORLD_DIM_LIMIT,
            -ENERGY_LIMIT <= old(self).energy <= ENERGY_LIMIT,
        ensures
            final(self).wf(),
            updated(*old(self), *final(self), world_width as int, world_height as int),
            0 <= final(self).x < world_width,
            0 <= final(self).y < world_height,
            final(self).energy < final(self).mass,
            -ENERGY_LIMIT - 2000 <= final(self).energy,
            old(self).energy >= METABOLISM_LOSS ==> final(self).energy >= 0,
            old(self).energy >= -100000 ==> final(self).energy >= -100030,
            final(self).state == lifecycle_state(*old(self)),
            final(self).mass == old(self).mass,
            final(self).radius == old(self).radius,
            final(self).speed == old(self).speed,
            final(self).hue == old(self).hue,
            final(self).energy_chunk_size == old(self).energy_chunk_size,
            final(self).species_multiplier == old(self).species_multiplier,
            final(self).generation == old(self).generation,
            final(self).children_count == old(self).children_count,
            final(self).total_energy_accumulated == old(self).total_energy_accumulated,
            final(self).nearest_cells@ == old(self).nearest_cells@,
            final(self).brain == old(self).brain,
            final(self).age >= old(self).age,
    {
        let ghost pre = *old(self);
        if self.state == CellState::Alive && self.energy <= 0 {
            self.state = CellState::Corpse;
        }
        if self.state == CellState::Alive {
            self.age = add_saturating(self.age, AGE_STEP);
        }
        if self.energy > self.mass {
            self.energy = self.mass;
        }
        let ghost pre2 = pre_action(pre);
        if self.state == CellState::Alive {
            self.energy = self.energy - METABOLISM_LOSS;
            proof {
                assert(*self == pre2);
            }
            self.decide_action();
        } else {
            self.energy = self.energy - CORPSE_DECAY;
            proof {
                assert(*self == pre2);
            }
        }
        let ghost mid = *self;
        proof {
            if pre2.state == CellState::Alive {
                let a = choose|a: int|
                    #[trigger] action_effect(pre2, mid, a) && is_first_max(
                        pre2.brain,
                        spec_sensor_inputs(pre2),
                        a,
                    );
                if a == 3 && pre2.energy >= spec_forward_cost(pre2.age as int) {
                    crate::fixed::lemma_sin_bounds(pre2.angle as int);
                    crate::fixed::lemma_sin_bounds(pre2.angle + crate::fixed::HALF_PI_FP);
                    lemma_dir_component_bounds(spec_cos(pre2.angle as int), pre2.speed as int);
                    lemma_dir_component_bounds(spec_sin(pre2.angle as int), pre2.speed as int);
                }
            }
            assert(-VEL_LIMIT <= mid.velocity_x <= VEL_LIMIT);
            assert(-VEL_LIMIT <= mid.velocity_y <= VEL_LIMIT);
            assert(-1650 <= mid.angle_velocity <= 1650);
            assert(MASS_MIN <= mid.mass <= MASS_MAX);
        }
        let sd_raw = div_floor(200000000, self.mass);
        proof {
            vstd::arithmetic::div_mod::lemma_div_pos_is_pos(200000000, mid.mass as int);
            vstd::arithmetic::div_mod::lemma_div_is_ordered_by_denominator(
                200000000,
                MASS_MIN as int,
                mid.mass as int,
            );
        }
        let sd: i64 = if sd_raw < 500 {
            500
        } else {
            sd_raw
        };
        proof {
            assert(500 <= sd <= 1112);
            lemma_scaled_velocity_bounds(mid.velocity_x as int, sd as int);
            lemma_scaled_velocity_bounds(mid.velocity_y as int, sd as int);
        }
        let dx = div_floor(self.velocity_x * sd, SCALE);
        let dy = div_floor(self.velocity_y * sd, SCALE);
        self.x = mod_euclid(self.x + dx, world_width);
        self.y = mod_euclid(self.y + dy, world_height);
        proof {
            lemma_friction_bounds(mid.velocity_x as int, 950, VEL_LIMIT as int);
            lemma_friction_bounds(mid.velocity_y as int, 950, VEL_LIMIT as int);
            lemma_friction_bounds(mid.angle_velocity as int, 900, 1650);
        }
        self.angle = mod_euclid(self.angle + self.angle_velocity, TAU_FP);
        self.velocity_x = div_floor(self.velocity_x * 950, SCALE);
        self.velocity_y = div_floor(self.velocity_y * 950, SCALE);
        self.angle_velocity = div_floor(self.angle_velocity * 900, SCALE);
        proof {
            assert(integrated(mid, *self, world_width as int, world_height as int));
            if lifecycle_state(pre) == CellState::Alive {
                assert(action_applied(pre2, mid) && integrated(
                    mid,
                    *self,
                    world_width as int,
                    world_height as int,
                ));
            }
            assert((mid.angle_velocity * 900) / (SCALE as int) >= -1485);
            assert((mid.angle_velocity * 900) / (SCALE as int) <= 1485);
        }
    }
}

/// A velocity component under the mass drag moves the cell less than four
/// whole units per tick.
proof fn lemma_scaled_velocity_bounds(v: int, sd: int)
    requires
        -VEL_LIMIT <= v <= VEL_LIMIT,
        500 <= sd <= 1112,
    ensures
        -3336000 <= v * sd <= 3336000,
        -3336 <= (v * sd) / (SCALE as int) <= 3336,
{
    assert(-3336000 <= v * sd <= 3336000) by (nonlinear_arith)
        requires -3000 <= v <= 3000, 500 <= sd <= 1112;
    vstd::arithmetic::div_mod::lemma_div_is_ordered(-3336000, v * sd, 1000);
    vstd::arithmetic::div_mod::lemma_div_is_ordered(v * sd, 3336000, 1000);
}

/// Friction scales a bounded value down and keeps it bounded.
proof fn lemma_friction_bounds(v: int, f: int, b: int)
    requires
        -b <= v <= b,
        0 <= b <= 100000,
        900 <= f <= 950,
    ensures
        -(b * 1000) <= v * f <= b * 1000,
        -b <= (v * f) / (SCALE as int) <= b,
{
    assert(-(b * 1000) <= v * f <= b * 1000) by (nonlinear_arith)
        requires -b <= v <= b, 0 <= b, 900 <= f <= 950;
    vstd::arithmetic::mul::lemma_mul_inequality(-b, v, 1000);
    vstd::arithmetic::div_mod::lemma_div_is_ordered(-(b * 1000), v * f, 1000);
    vstd::arithmetic::div_mod::lemma_div_is_ordered(v * f, b * 1000, 1000);
    vstd::arithmetic::div_mod::lemma_div_multiples_vanish(-b, 1000);
    vstd::arithmetic::div_mod::lemma_div_multiples_vanish(b, 1000);
    assert((b * 1000) / 1000 == b);
    assert((-(b * 1000)) / 1000 == -b) by {
        assert(-(b * 1000) == (-b) * 1000) by (nonlinear_arith);
    }
}


impl Cell {
    /// Spawns a fresh cell at a random position with random traits drawn
    /// from their declared ranges.  When a persisted best brain is handed
    /// in, it is mutated lightly (one to five percent) and its generation
    /// carried forward; otherwise the brain is fresh and random.
    pub fn spawn(
        world_width: i64,
        world_height: i64,
        saved: Option<(NeuralNetwork, usize)>,
        rng: &mut rand::rngs::StdRng,
    ) -> (c: Cell)
        requires
            1 <= world_width <= WORLD_DIM_LIMIT,
            1 <= world_height <= WORLD_DIM_LIMIT,
            match saved {
                Some(p) => p.0.wf() && p.0.input_size == BRAIN_INPUTS && p.0.output_size
                    == ACTION_COUNT,
                None => true,
            },
        ensures
            c.wf(),
            0 <= c.x < world_width,
            0 <= c.y < world_height,
            c.energy == INITIAL_ENERGY,
            c.total_energy_accumulated == INITIAL_ENERGY,
            c.state == CellState::Alive,
            c.age == 0,
            c.children_count == 0,
            c.generation == match saved {
                Some(p) => p.1 as int,
                None => 0,
            },
            c.nearest_cells@.len() == 0,
            c.hue == 180000,
            match saved {
                Some(p) => nn_step_close(p.0, c.brain),
                None => nn_init_range(c.brain),
            },
    {
        let speed = rand_range(rng, SPEED_MIN, SPEED_MAX + 1);
        let angle = rand_range(rng, 0, TAU_FP);
        let energy_chunk_size = rand_range(rng, CHUNK_MIN, CHUNK_MAX + 1);
        let species_multiplier = rand_range(rng, SPECIES_MIN, SPECIES_MAX + 1);
        let mass = rand_range(rng, MASS_MIN, MASS_MAX + 1);
        let (brain, loaded_generation) = match saved {
            Some((saved_brain, generation)) => {
                let mut brain = saved_brain;
                let mutation_rate = rand_range(rng, 10, 50);
                brain.mutate(mutation_rate, rng);
                (brain, generation)
            },
            None => (NeuralNetwork::new(BRAIN_INPUTS, ACTION_COUNT, rng), 0),
        };
        let c = cos_fp(angle);
        let si = sin_fp(angle);
        proof {
            lemma_dir_component_bounds(c as int, speed as int);
            lemma_dir_component_bounds(si as int, speed as int);
        }
        let vx_full = div_floor(c * speed, SCALE);
        let vy_full = div_floor(si * speed, SCALE);
        let vf = rand_range(rng, 500, 1000);
        proof {
            lemma_scaled_velocity_bounds(vx_full as int, vf as int);
            lemma_scaled_velocity_bounds(vy_full as int, vf as int);
            lemma_velocity_fraction_shrinks(vx_full as int, vf as int);
            lemma_velocity_fraction_shrinks(vy_full as int, vf as int);
        }
        Cell {
            x: rand_range(rng, 0, world_width),
            y: rand_range(rng, 0, world_height),
            velocity_x: div_floor(vx_full * vf, SCALE),
            velocity_y: div_floor(vy_full * vf, SCALE),
            energy: INITIAL_ENERGY,
            angle,
            angle_velocity: rand_range(rng, -50, 51),
            state: CellState::Alive,
            age: 0,
            total_energy_accumulated: INITIAL_ENERGY,
            children_count: 0,
            generation: loaded_generation,
            nearest_cells: Vec::new(),
            brain,
            hue: 180000,
            radius: rand_range(rng, RADIUS_MIN, RADIUS_MAX + 1),
            move_probability: rand_range(rng, PROB_MIN, PROB_MAX + 1),
            turn_probability: rand_range(rng, PROB_MIN, PROB_MAX + 1),
            speed,
            turn_rate: rand_range(rng, PROB_MIN, PROB_MAX + 1),
            energy_chunk_size,
            species_multiplier,
            mass,
        }
    }

    /// Spawns a child fifteen units from this cell at a random heading.
    /// Every heritable trait is mutated by up to one percent and clamped
    /// to its declared range; the brain is cloned and mutated at a rate
    /// drawn uniformly from one to ten percent; the generation advances.
    /// Energy is left at zero for the caller to assign.
    pub fn spawn_child(&self, rng: &mut rand::rngs::StdRng) -> (c: Cell)
        requires
            self.wf(),
            -SPAWN_POS_LIMIT <= self.x <= SPAWN_POS_LIMIT,
            -SPAWN_POS_LIMIT <= self.y <= SPAWN_POS_LIMIT,
        ensures
            c.wf(),
            c.energy == 0,
            c.age == 0,
            c.state == CellState::Alive,
            c.children_count == 0,
            c.total_energy_accumulated == 0,
            self.generation < usize::MAX ==> c.generation == self.generation + 1,
            -15000 <= c.x - self.x <= 15000,
            -15000 <= c.y - self.y <= 15000,
            c.nearest_cells@.len() == 0,
            c.brain.input_size == self.brain.input_size,
            c.brain.output_size == self.brain.output_size,
            spec_child_core(*self, c),
            spec_child_offset(*self, c),
    {
        let offset_angle = rand_range(rng, 0, TAU_FP);
        let oc = cos_fp(offset_angle);
        let os = sin_fp(offset_angle);
        let mutated_speed = mutate_trait(self.speed, SPEED_MIN, SPEED_MAX, rng);
        let hue_d = rand_range(rng, -10, 11);
        proof {
            vstd::arithmetic::mul::lemma_mul_inequality(-10, hue_d as int, self.hue as int);
            vstd::arithmetic::mul::lemma_mul_inequality(hue_d as int, 10, self.hue as int);
            vstd::arithmetic::mul::lemma_mul_left_inequality(10, self.hue as int, HUE_MAX as int);
            assert((-10) * self.hue >= -3600000) by (nonlinear_arith)
                requires 0 <= self.hue < 360000;
            assert(10 * self.hue <= 3600000) by (nonlinear_arith)
                requires 0 <= self.hue < 360000;
            assert(hue_d as int * self.hue as int == self.hue as int * hue_d as int) by (
            nonlinear_arith);
            vstd::arithmetic::div_mod::lemma_div_is_ordered(-3600000, self.hue * hue_d, 1000);
            vstd::arithmetic::div_mod::lemma_div_is_ordered(self.hue * hue_d, 3600000, 1000);
        }
        let hue_shift = div_floor(self.hue * hue_d, SCALE);
        let mutated_hue = mod_euclid(self.hue + hue_shift, HUE_MAX);
        let mutation_rate = rand_range(rng, 10, 100);
        let mut brain = self.brain.clone();
        let ghost brain0 = brain;
        brain.mutate(mutation_rate, rng);
        proof {
            lemma_step_close_congruence(self.brain, brain0, brain);
        }
        let facing = rand_range(rng, 0, TAU_FP);
        let fc = cos_fp(facing);
        let fs = sin_fp(facing);
        proof {
            lemma_dir_component_bounds(fc as int, mutated_speed as int);
            lemma_dir_component_bounds(fs as int, mutated_speed as int);
        }
        let vx_full = div_floor(fc * mutated_speed, SCALE);
        let vy_full = div_floor(fs * mutated_speed, SCALE);
        let vf = rand_range(rng, 500, 1000);
        proof {
            lemma_scaled_velocity_bounds(vx_full as int, vf as int);
            lemma_scaled_velocity_bounds(vy_full as int, vf as int);
            lemma_velocity_fraction_shrinks(vx_full as int, vf as int);
            lemma_velocity_fraction_shrinks(vy_full as int, vf as int);
            lemma_offset_component_bounds(oc as int);
            lemma_offset_component_bounds(os as int);
        }
        let generation: usize = if self.generation < usize::MAX {
            self.generation + 1
        } else {
            self.generation
        };
        let c = Cell {
            x: self.x + oc * 15,
            y: self.y + os * 15,
            velocity_x: div_floor(vx_full * vf, SCALE),
            velocity_y: div_floor(vy_full * vf, SCALE),
            energy: 0,
            angle: facing,
            angle_velocity: rand_range(rng, -50, 51),
            state: CellState::Alive,
            age: 0,
            total_energy_accumulated: 0,
            children_count: 0,
            generation,
            nearest_cells: Vec::new(),
            brain,
            hue: mutated_hue,
            radius: mutate_trait(self.radius, RADIUS_MIN, RADIUS_MAX, rng),
            move_probability: mutate_trait(self.move_probability, PROB_MIN, PROB_MAX, rng),
            turn_probability: mutate_trait(self.turn_probability, PROB_MIN, PROB_MAX, rng),
            speed: mutated_speed,
            turn_rate: mutate_trait(self.turn_rate, PROB_MIN, PROB_MAX, rng),
            energy_chunk_size: mutate_trait(self.energy_chunk_size, CHUNK_MIN, CHUNK_MAX, rng),
            species_multiplier: mutate_trait(
                self.species_multiplier,
                SPECIES_MIN,
                SPECIES_MAX,
                rng,
            ),
            mass: mutate_trait(self.mass, MASS_MIN, MASS_MAX, rng),
        };
        proof {
            assert(hue_mutated(self.hue as int, c.hue as int)) by {
                assert(-10 <= hue_d as int <= 10 && c.hue as int == (self.hue as int + (self.hue
                    as int * hue_d as int) / (SCALE as int)) % (HUE_MAX as int));
            }
            assert(spec_child_offset(*self, c)) by {
                assert(0 <= offset_angle && offset_angle < TAU_FP && c.x as int == self.x as int
                    + spec_cos(offset_angle as int) * 15 && c.y as int == self.y as int + spec_sin(
                    offset_angle as int,
                ) * 15);
            }
            assert(500 <= vf && vf < 1000 && c.velocity_x as int == spec_thrust_component(
                spec_cos(c.angle as int),
                c.speed as int,
                vf as int,
            ) && c.velocity_y as int == spec_thrust_component(
                spec_sin(c.angle as int),
                c.speed as int,
                vf as int,
            ));
        }
        c
    }
}

/// Scaling a bounded velocity by a fraction of at most one keeps it
/// bounded.
proof fn lemma_velocity_fraction_shrinks(v: int, f: int)
    requires
        -VEL_LIMIT <= v <= VEL_LIMIT,
        500 <= f <= 1000,
    ensures
        -VEL_LIMIT <= (v * f) / (SCALE as int) <= VEL_LIMIT,
{
    assert(-3000000 <= v * f <= 3000000) by (nonlinear_arith)
        requires -3000 <= v <= 3000, 500 <= f <= 1000;
    vstd::arithmetic::div_mod::lemma_div_is_ordered(-3000000, v * f, 1000);
    vstd::arithmetic::div_mod::lemma_div_is_ordered(v * f, 3000000, 1000);
}

/// A unit direction component scaled to the fifteen-unit child offset.
proof fn lemma_offset_component_bounds(c: int)
    requires
        -SCALE <= c <= SCALE,
    ensures
        -15000 <= c * 15 <= 15000,
{
    vstd::arithmetic::mul::lemma_mul_inequality(-SCALE as int, c, 15);
    vstd::arithmetic::mul::lemma_mul_inequality(c, SCALE as int, 15);
}


/// Step-closeness is preserved when the base network is replaced by a
/// weight-for-weight equal one.
pub proof fn lemma_step_close_congruence(a: NeuralNetwork, b: NeuralNetwork, c: NeuralNetwork)
    requires
        nn_eq(b, a),
        nn_step_close(b, c),
    ensures
        nn_step_close(a, c),
{
    assert forall|i: int, j: int|
        0 <= i < a.weights_ih@.len() && 0 <= j < a.weights_ih@[i]@.len() implies -100 <= (
        #[trigger] c.weights_ih@[i]@[j]) - a.weights_ih@[i]@[j] <= 100 by {
        assert(b.weights_ih@[i]@ == a.weights_ih@[i]@);
    }
    assert forall|i: int, j: int|
        0 <= i < a.weights_ho@.len() && 0 <= j < a.weights_ho@[i]@.len() implies -100 <= (
        #[trigger] c.weights_ho@[i]@[j]) - a.weights_ho@[i]@[j] <= 100 by {
        assert(b.weights_ho@[i]@ == a.weights_ho@[i]@);
    }
    assert forall|i: int|
        0 <= i < a.weights_ih@.len() implies (#[trigger] c.weights_ih@[i]@).len()
            == a.weights_ih@[i]@.len() by {
        assert(b.weights_ih@[i]@ == a.weights_ih@[i]@);
    }
    assert forall|i: int|
        0 <= i < a.weights_ho@.len() implies (#[trigger] c.weights_ho@[i]@).len()
            == a.weights_ho@[i]@.len() by {
        assert(b.weights_ho@[i]@ == a.weights_ho@[i]@);
    }
}

/// A child's brain that is step-close to a deep copy of a cell's brain is
/// step-close to the brain of the copied cell itself.
pub proof fn lemma_step_close_from_like(g: Cell, copy: Cell, child_brain: NeuralNetwork)
    requires
        cell_like(copy, g),
        nn_step_close(copy.brain, child_brain),
    ensures
        nn_step_close(g.brain, child_brain),
{
    lemma_step_close_congruence(g.brain, copy.brain, child_brain);
}

/// The deterministic lineage of `spawn_child`, apart from the child's
/// position (see `spec_child_offset`) and energy (assigned by the caller):
/// zeroed stats, advanced generation, every heritable trait the parent's
/// perturbed by at most one percent and clamped, a brain within one
/// mutation step of the parent's, and a launch velocity along the child's
/// own facing.
pub open spec fn spec_child_core(parent: Cell, child: Cell) -> bool {
    &&& child.wf()
    &&& child.age == 0
    &&& child.state == CellState::Alive
    &&& child.total_energy_accumulated == 0
    &&& child.children_count == 0
    &&& (parent.generation < usize::MAX ==> child.generation == parent.generation + 1)
    &&& child.nearest_cells@.len() == 0
    &&& nn_step_close(parent.brain, child.brain)
    &&& trait_mutated(parent.speed as int, child.speed as int, SPEED_MIN as int, SPEED_MAX as int)
    &&& trait_mutated(
        parent.radius as int,
        child.radius as int,
        RADIUS_MIN as int,
        RADIUS_MAX as int,
    )
    &&& trait_mutated(
        parent.move_probability as int,
        child.move_probability as int,
        PROB_MIN as int,
        PROB_MAX as int,
    )
    &&& trait_mutated(
        parent.turn_probability as int,
        child.turn_probability as int,
        PROB_MIN as int,
        PROB_MAX as int,
    )
    &&& trait_mutated(
        parent.turn_rate as int,
        child.turn_rate as int,
        PROB_MIN as int,
        PROB_MAX as int,
    )
    &&& trait_mutated(
        parent.energy_chunk_size as int,
        child.energy_chunk_size as int,
        CHUNK_MIN as int,
        CHUNK_MAX as int,
    )
    &&& trait_mutated(
        parent.species_multiplier as int,
        child.species_multiplier as int,
        SPECIES_MIN as int,
        SPECIES_MAX as int,
    )
    &&& trait_mutated(parent.mass as int, child.mass as int, MASS_MIN as int, MASS_MAX as int)
    &&& hue_mutated(parent.hue as int, child.hue as int)
    &&& exists|f: int|
        500 <= f < 1000 && child.velocity_x == #[trigger] spec_thrust_component(
            spec_cos(child.angle as int),
            child.speed as int,
            f,
        ) && child.velocity_y == spec_thrust_component(
            spec_sin(child.angle as int),
            child.speed as int,
            f,
        )
}

/// The child-lineage relation ignores the child's position and energy,
/// which callers may overwrite after the spawn.
pub proof fn lemma_child_core_placement(parent: Cell, c1: Cell, c2: Cell)
    requires
        spec_child_core(parent, c1),
        c2 == (Cell { x: c2.x, y: c2.y, energy: c2.energy, ..c1 }),
        -POS_LIMIT <= c2.x <= POS_LIMIT,
        -POS_LIMIT <= c2.y <= POS_LIMIT,
    ensures
        spec_child_core(parent, c2),
{
    let f = choose|f: int|
        500 <= f < 1000 && c1.velocity_x == #[trigger] spec_thrust_component(
            spec_cos(c1.angle as int),
            c1.speed as int,
            f,
        ) && c1.velocity_y == spec_thrust_component(spec_sin(c1.angle as int), c1.speed as int, f);
    assert(500 <= f < 1000 && c2.velocity_x == spec_thrust_component(
        spec_cos(c2.angle as int),
        c2.speed as int,
        f,
    ) && c2.velocity_y == spec_thrust_component(spec_sin(c2.angle as int), c2.speed as int, f));
}

/// The child stands exactly fifteen units from the parent along a drawn
/// heading (possibly outside the world until the next update wraps it).
pub open spec fn spec_child_offset(parent: Cell, child: Cell) -> bool {
    exists|a: int|
        0 <= a < TAU_FP && child.x == parent.x + (#[trigger] spec_cos(a)) * 15 && child.y
            == parent.y + spec_sin(a) * 15
}

/// Two cells agree on every scalar field, their sensor caches, and their
/// brains (weight for weight).
pub open spec fn cell_like(a: Cell, b: Cell) -> bool {
    &&& a.x == b.x
    &&& a.y == b.y
    &&& a.velocity_x == b.velocity_x
    &&& a.velocity_y == b.velocity_y
    &&& a.energy == b.energy
    &&& a.angle == b.angle
    &&& a.angle_velocity == b.angle_velocity
    &&& a.state == b.state
    &&& a.age == b.age
    &&& a.total_energy_accumulated == b.total_energy_accumulated
    &&& a.children_count == b.children_count
    &&& a.generation == b.generation
    &&& a.nearest_cells@ == b.nearest_cells@
    &&& nn_eq(a.brain, b.brain)
    &&& a.hue == b.hue
    &&& a.radius == b.radius
    &&& a.move_probability == b.move_probability
    &&& a.turn_probability == b.turn_probability
    &&& a.speed == b.speed
    &&& a.turn_rate == b.turn_rate
    &&& a.energy_chunk_size == b.energy_chunk_size
    &&& a.species_multiplier == b.species_multiplier
    &&& a.mass == b.mass
}

impl Clone for Cell {
    /// A deep copy, equal to the source cell field for field.
    fn clone(&self) -> (r: Self)
        ensures
            cell_like(r, *self),
            self.wf() ==> r.wf(),
    {
        Cell {
            x: self.x,
            y: self.y,
            velocity_x: self.velocity_x,
            velocity_y: self.velocity_y,
            energy: self.energy,
            angle: self.angle,
            angle_velocity: self.angle_velocity,
            state: self.state,
            age: self.age,
            total_energy_accumulated: self.total_energy_accumulated,
            children_count: self.children_count,
            generation: self.generation,
            nearest_cells: clone_readings(&self.nearest_cells),
            brain: self.brain.clone(),
            hue: self.hue,
            radius: self.radius,
            move_probability: self.move_probability,
            turn_probability: self.turn_probability,
            speed: self.speed,
            turn_rate: self.turn_rate,
            energy_chunk_size: self.energy_chunk_size,
            species_multiplier: self.species_multiplier,
            mass: self.mass,
        }
    }
}

fn clone_readings(rs: &Vec<SensorReading>) -> (r: Vec<SensorReading>)
    ensures
        r@ == rs@,
{
    let mut r: Vec<SensorReading> = Vec::new();
    let mut i: usize = 0;
    while i < rs.len()
        invariant
            i <= rs@.len(),
            r@ == rs@.take(i as int),
        decreases rs@.len() - i,
    {
        r.push(rs[i]);
        proof {
            assert(rs@.take(i as int).push(rs@[i as int]) =~= rs@.take(i as int + 1));
        }
        i = i + 1;
    }
    proof {
        assert(rs@.take(rs@.len() as int) =~= rs@);
    }
    r
}

} // verus!
