use crate::vec2::Vec2;
use vstd::prelude::*;

verus! {

/// A movable crate: one per initial crate entry of the level, living for
/// one attempt. `on_storage_location` is derived and is recomputed whenever
/// the crate moves.
#[derive(Clone, Copy, Debug)]
pub struct Crate {
    /// grid position
    pub pos: Vec2,
    /// true iff `pos` is one of the level's storage locations
    pub on_storage_location: bool,
}

/// The player: a singleton per attempt.
#[derive(Clone, Copy, Debug)]
pub struct Entity {
    /// grid position
    pub pos: Vec2,
}

} // verus!
