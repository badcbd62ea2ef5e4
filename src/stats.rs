//! Hit points.

use vstd::prelude::*;

verus! {

/// Hit points of an entity. `current_health` may go below zero (overkill);
/// the entity is dead once it is at most zero.
#[derive(Debug, Clone, Copy, PartialEq, Eq, Structural)]
pub struct Health {
    pub total_health: u32,
    pub current_health: i32,
}

/// Whether `current / total < 1/4`, the point at which a fighter turns to flee.
pub open spec fn ratio_below_quarter(h: Health) -> bool {
    4 * h.current_health < h.total_health
}

/// Whether the entity holding `h` is dead.
pub open spec fn is_dead(h: Health) -> bool {
    h.current_health <= 0
}

impl Health {
    /// Full health of `health` points.
    pub fn new(health: u32) -> (r: Health)
        requires
            health <= i32::MAX,
        ensures
            r.total_health == health,
            r.current_health == health,
    {
        Health { total_health: health, current_health: health as i32 }
    }

    /// Whether the ratio `current / total` is below one quarter.
    pub fn is_ratio_below_quarter(&self) -> (r: bool)
        ensures
            r == ratio_below_quarter(*self),
    {
        4 * (self.current_health as i64) < self.total_health as i64
    }

    /// Whether the entity is dead: its current health is at most zero.
    pub fn is_dead(&self) -> (r: bool)
        ensures
            r == is_dead(*self),
    {
        self.current_health <= 0
    }
}

} // verus!
