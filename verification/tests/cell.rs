use cells::cell::{Cell, CellState};
use cells::rng::rng_from_seed;

#[test]
fn test_energy_within_mass_after_update() {
    let mut rng = rng_from_seed(10);
    for seed in 0..50u64 {
        let mut rng2 = rng_from_seed(seed);
        let mut cell = Cell::spawn(1000000, 1000000, None, &mut rng2);
        cell.energy = cell.mass + 50000; // over capacity: must be capped
        cell.update(1000000, 1000000);
        assert!(0 <= cell.energy && cell.energy <= cell.mass);
    }
    // A cell that can pay its metabolism tax never goes negative.
    let mut cell = Cell::spawn(1000000, 1000000, None, &mut rng);
    cell.energy = 30;
    cell.update(1000000, 1000000);
    assert!(0 <= cell.energy && cell.energy <= cell.mass);
}

#[test]
fn test_spawn_child_traits_within_bounds() {
    let mut rng = rng_from_seed(11);
    let parent = Cell::spawn(1000000, 1000000, None, &mut rng);
    let mut current = parent;
    for _ in 0..10000 {
        let child = current.spawn_child(&mut rng);
        assert!(1000 <= child.speed && child.speed <= 3000);
        assert!(6000 <= child.radius && child.radius <= 15000);
        assert!(50 <= child.move_probability && child.move_probability <= 150);
        assert!(50 <= child.turn_probability && child.turn_probability <= 150);
        assert!(50 <= child.turn_rate && child.turn_rate <= 150);
        assert!(45000 <= child.energy_chunk_size && child.energy_chunk_size <= 55000);
        assert!(900 <= child.species_multiplier && child.species_multiplier <= 2000);
        assert!(180000 <= child.mass && child.mass <= 220000);
        assert!(0 <= child.hue && child.hue < 360000);
        // Drift would accumulate out of the world; keep the lineage rooted.
        let mut c = child;
        c.x = current.x;
        c.y = current.y;
        current = c;
    }
}

#[test]
fn test_toroidal_wrap_negative_x() {
    let mut rng = rng_from_seed(12);
    let mut cell = Cell::spawn(1000000, 1000000, None, &mut rng);
    cell.x = 1000;
    cell.y = 500000;
    cell.velocity_x = -3000;
    cell.velocity_y = 0;
    cell.angle_velocity = 0;
    cell.mass = 200000; // slowdown factor exactly 1000
    cell.energy = 25; // metabolism leaves it broke: no action interferes
    cell.state = CellState::Alive;
    cell.update(1000000, 1000000);
    // 1000 - 3000 = -2000, wrapped to -2000 + 1000000
    assert_eq!(cell.x, 998000);
    assert!(0 <= cell.x && cell.x < 1000000);
    assert_eq!(cell.y, 500000);
    // Linear friction: -3000 * 950 / 1000
    assert_eq!(cell.velocity_x, -2850);
}

#[test]
fn test_gain_energy_growth_rule() {
    let mut rng = rng_from_seed(13);
    let mut young = Cell::spawn(1000000, 1000000, None, &mut rng);
    young.age = 0;
    young.energy = 50000;
    young.total_energy_accumulated = 100000;
    young.gain_energy(500);
    assert_eq!(young.energy, 50000); // discarded by growth
    assert_eq!(young.total_energy_accumulated, 100500); // still tracked

    let mut adult = Cell::spawn(1000000, 1000000, None, &mut rng);
    adult.age = 30000;
    adult.energy = 50000;
    adult.total_energy_accumulated = 100000;
    adult.gain_energy(500);
    assert_eq!(adult.energy, 50500);
    assert_eq!(adult.total_energy_accumulated, 100500);
}

#[test]
fn test_turn_left_cost_and_impulse() {
    let mut rng = rng_from_seed(14);
    let mut cell = Cell::spawn(1000000, 1000000, None, &mut rng);
    cell.age = 0; // cost multiplier 1.0
    cell.energy = 1000;
    cell.angle_velocity = 0;
    cell.turn_rate = 100;
    cell.turn_left();
    assert_eq!(cell.energy, 550); // turn cost 450
    assert_eq!(cell.angle_velocity, -100);
}

#[test]
fn test_turn_rejected_when_unaffordable() {
    let mut rng = rng_from_seed(15);
    let mut cell = Cell::spawn(1000000, 1000000, None, &mut rng);
    cell.age = 0;
    cell.energy = 449; // just below the turn cost
    cell.angle_velocity = 0;
    cell.turn_right();
    assert_eq!(cell.energy, 449); // no partial effect
    assert_eq!(cell.angle_velocity, 0);
}

#[test]
fn test_forward_thrust_along_heading() {
    let mut rng = rng_from_seed(16);
    let mut cell = Cell::spawn(1000000, 1000000, None, &mut rng);
    cell.age = 0;
    cell.energy = 2000;
    cell.angle = 0; // facing along +x: cos = 1.000, sin = 0
    cell.speed = 2000;
    cell.forward();
    assert_eq!(cell.velocity_x, 2000);
    assert_eq!(cell.velocity_y, 0);
    assert_eq!(cell.energy, 1100); // forward cost 900
}

#[test]
fn test_current_radius_grows_with_age() {
    let mut rng = rng_from_seed(17);
    let mut cell = Cell::spawn(1000000, 1000000, None, &mut rng);
    cell.radius = 10000;
    cell.age = 0;
    assert_eq!(cell.get_current_radius(), 1000); // 10% of base
    cell.age = 30000;
    assert_eq!(cell.get_current_radius(), 10000); // full size
}

#[test]
fn test_corpse_transition_and_decay() {
    let mut rng = rng_from_seed(18);
    let mut cell = Cell::spawn(1000000, 1000000, None, &mut rng);
    cell.energy = 0;
    cell.state = CellState::Alive;
    let age = cell.age;
    cell.update(1000000, 1000000);
    assert_eq!(cell.state, CellState::Corpse);
    assert_eq!(cell.age, age); // corpses do not age
    assert_eq!(cell.energy, -20); // corpse decay tax
}

#[test]
fn test_spawn_seeds_from_saved_brain() {
    let mut rng = rng_from_seed(19);
    let fresh = Cell::spawn(1000000, 1000000, None, &mut rng);
    assert_eq!(fresh.generation, 0);
    let saved = fresh.brain.clone();
    let seeded = Cell::spawn(1000000, 1000000, Some((saved, 7)), &mut rng);
    assert_eq!(seeded.generation, 7);
    assert_eq!(seeded.brain.input_size, 20);
    assert_eq!(seeded.brain.output_size, 4);
}

#[test]
fn test_spawn_child_brain_and_traits_near_parent() {
    let mut rng = rng_from_seed(62);
    let parent = Cell::spawn(1000000, 1000000, None, &mut rng);
    let child = parent.spawn_child(&mut rng);
    // Brain: every weight within one mutation step of the parent's.
    for (ra, rb) in child.brain.weights_ih.iter().zip(parent.brain.weights_ih.iter()) {
        for (&a, &b) in ra.iter().zip(rb.iter()) {
            assert!((a - b).abs() <= 100);
        }
    }
    // Traits: within one percent of the parent (plus integer rounding),
    // unless clamped at a range bound.
    let near = |c: i64, p: i64| (c - p).abs() <= p / 100 + 1;
    assert!(near(child.speed, parent.speed) || child.speed == 1000 || child.speed == 3000);
    assert!(near(child.mass, parent.mass) || child.mass == 180000 || child.mass == 220000);
    // Offset: at most fifteen units along each axis.
    assert!((child.x - parent.x).abs() <= 15000);
    assert!((child.y - parent.y).abs() <= 15000);
    assert_eq!(child.generation, parent.generation + 1);
}

#[test]
fn test_spawn_has_teal_hue() {
    let mut rng = rng_from_seed(63);
    let cell = Cell::spawn(1000000, 1000000, None, &mut rng);
    assert_eq!(cell.hue, 180000);
}
