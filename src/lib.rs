use vstd::prelude::*;

pub mod actions;
pub mod building;
pub mod config;
pub mod inventory;
pub mod items;
pub mod math;
pub mod pathfinding;
pub mod worker;
pub mod world;
pub mod world_map;

verus! {

} // verus!
