use vstd::prelude::*;

verus! {

/// Board dimensions.  Cells span `[0, width] x [0, height]`, both ends
/// inclusive, so a `(0, 0)` board has exactly one cell.
#[derive(Clone, Copy, Debug)]
pub struct BoardConfig {
    pub width: i32,
    pub height: i32,
}

/// Mouse population tunables.
#[derive(Clone, Copy, Debug)]
pub struct MiceConfig {
    /// Number of mice placed at world initialization.
    pub count: u32,
    /// Gestation length, in ticks, of a newly registered pregnancy.
    pub preg_time: u32,
    /// Maximum Manhattan distance at which a mouse perceives grass or a mate.
    pub vision: u32,
    /// Hunger threshold past which a mouse abandons mate seeking for food.
    pub hunger_priority: u32,
    /// Age, in ticks, at which a mouse dies of old age.
    pub max_age: u32,
}

/// Owl population tunables.
#[derive(Clone, Copy, Debug)]
pub struct OwlsConfig {
    /// Number of owls placed at world initialization.
    pub count: u32,
    /// Age, in ticks, at which an owl dies of old age.
    pub max_age: u32,
}

} // verus!
