//! Snapshot of the currently best cell, for display and selection.

use vstd::prelude::*;

verus! {

/// Scalar facts about the fittest living cell, copied out once per tick.
pub struct BestCellStats {
    pub total_energy_accumulated: i64,
    pub current_energy: i64,
    pub children_count: usize,
    pub generation: usize,
    /// Color, as a hue on `[0, HUE_MAX)`.
    pub hue: i64,
    pub age: i64,
    pub x: i64,
    pub y: i64,
    pub is_alive: bool,
}

pub struct Stats {
    pub best_cell: Option<BestCellStats>,
    pub selected: bool,
}

/// Fitness weighs lifetime energy intake and children equally: each child
/// counts as a hundred units of intake.
pub open spec fn spec_fitness(total_energy: int, children: int) -> int {
    total_energy + children * 100000
}

impl Stats {
    /// Starts with no tracked cell and the selection on.
    pub fn new() -> (r: Stats)
        ensures
            r.best_cell is None,
            r.selected == true,
    {
        Stats { best_cell: None, selected: true }
    }

    /// Drops the tracked cell.
    pub fn clear(&mut self)
        ensures
            final(self).best_cell is None,
            final(self).selected == old(self).selected,
    {
        self.best_cell = None;
    }

    /// Replaces the tracked cell outright.
    pub fn set(&mut self, stats: BestCellStats)
        ensures
            final(self).best_cell == Some(stats),
            final(self).selected == old(self).selected,
    {
        self.best_cell = Some(stats);
    }

    /// Fitness of a cell: lifetime energy intake plus a hundred units per
    /// child, computed wide so it cannot overflow.
    pub fn calculate_fitness(energy: i64, children: usize) -> (r: i128)
        ensures
            r == spec_fitness(energy as int, children as int),
    {
        proof {
            vstd::arithmetic::mul::lemma_mul_nonnegative(children as int, 100000);
            vstd::arithmetic::mul::lemma_mul_inequality(children as int, usize::MAX as int, 100000);
        }
        (energy as i128) + (children as i128) * 100000
    }

    /// Flips whether the stats panel is selected.
    pub fn toggle_selection(&mut self)
        ensures
            final(self).selected == !old(self).selected,
            final(self).best_cell == old(self).best_cell,
    {
        self.selected = !self.selected;
    }

    pub fn is_selected(&self) -> (r: bool)
        ensures
            r == self.selected,
    {
        self.selected
    }

    /// Position of the tracked cell, if the panel is selected and the cell
    /// is alive.
    pub fn get_selected_position(&self) -> (r: Option<(i64, i64)>)
        ensures
            r == if self.selected {
                match self.best_cell {
                    Some(b) => if b.is_alive {
                        Some((b.x, b.y))
                    } else {
                        None
                    },
                    None => None,
                }
            } else {
                None::<(i64, i64)>
            },
    {
        if self.selected {
            match &self.best_cell {
                Some(b) => if b.is_alive {
                    Some((b.x, b.y))
                } else {
                    None
                },
                None => None,
            }
        } else {
            None
        }
    }
}

} // verus!
