//! The part of the game world that the upkeep rules read and change,
//! handed over as plain values.
use vstd::prelude::*;

verus! {

/// A player, as the engine numbers them.
pub type PlayerId = u64;

/// A room, as the engine numbers them.
pub type RoomId = u64;

/// A drone: the entity that carries it, its owner and room, its hit points
/// and its age in ticks.
#[derive(Debug, Clone, Copy, PartialEq, Eq, Structural)]
pub struct DroneState {
    pub entity: u64,
    pub owner: PlayerId,
    pub room: RoomId,
    pub hits: u32,
    pub age: u64,
}

/// A structure: its owner, if any, and its room.
#[derive(Debug, Clone, Copy, PartialEq, Eq, Structural)]
pub struct StructureState {
    pub owner: Option<PlayerId>,
    pub room: RoomId,
}

/// A room controller: its owner, if any, its downgrade timer and its level.
#[derive(Debug, Clone, Copy, PartialEq, Eq, Structural)]
pub struct ControllerState {
    pub owner: Option<PlayerId>,
    pub downgrade_timer: u32,
    pub level: u32,
}

/// Whether player `p` holds room `r` through one of its drones or structures.
pub open spec fn holds_room(
    drones: Seq<DroneState>,
    structures: Seq<StructureState>,
    p: PlayerId,
    r: RoomId,
) -> bool {
    ||| exists|i: int| 0 <= i < drones.len() && #[trigger] drones[i].owner == p && drones[i].room == r
    ||| exists|j: int|
        0 <= j < structures.len() && #[trigger] structures[j].owner == Some(p) && structures[j].room
            == r
}

/// The rooms player `p` holds.
pub open spec fn rooms_held(
    drones: Seq<DroneState>,
    structures: Seq<StructureState>,
    p: PlayerId,
) -> Set<RoomId> {
    Set::new(|r: RoomId| holds_room(drones, structures, p, r))
}

/// Whether `p` owns a drone, a structure or a controller: those are the
/// players who pay upkeep.
pub open spec fn pays_upkeep(
    drones: Seq<DroneState>,
    structures: Seq<StructureState>,
    controllers: Seq<ControllerState>,
    p: PlayerId,
) -> bool {
    ||| exists|i: int| 0 <= i < drones.len() && #[trigger] drones[i].owner == p
    ||| exists|j: int| 0 <= j < structures.len() && #[trigger] structures[j].owner == Some(p)
    ||| exists|k: int| 0 <= k < controllers.len() && #[trigger] controllers[k].owner == Some(p)
}

/// The players who pay upkeep.
pub open spec fn upkeep_payers(
    drones: Seq<DroneState>,
    structures: Seq<StructureState>,
    controllers: Seq<ControllerState>,
) -> Set<PlayerId> {
    Set::new(|p: PlayerId| pays_upkeep(drones, structures, controllers, p))
}

} // verus!
