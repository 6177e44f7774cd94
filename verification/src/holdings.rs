//! Which rooms each paying player holds.
use std::collections::{BTreeMap, BTreeSet};
use vstd::prelude::*;
use vstd::std_specs::cmp::OrdSpec;
use vstd::std_specs::iter::IteratorSpec;

use crate::world::{
    holds_room, pays_upkeep, rooms_held, ControllerState, DroneState, PlayerId, RoomId,
    StructureState,
};

verus! {

broadcast use {vstd::std_specs::btree::group_btree_axioms, vstd::laws_cmp::group_laws_cmp};

/// The rooms of every player who pays upkeep: a player appears exactly when
/// it owns a drone, a structure or a controller, and maps to the rooms its
/// drones and structures stand in.
pub fn rooms_by_player(
    drones: &Vec<DroneState>,
    structures: &Vec<StructureState>,
    controllers: &Vec<ControllerState>,
) -> (rooms: BTreeMap<PlayerId, BTreeSet<RoomId>>)
    ensures
        forall|p: PlayerId|
            #[trigger] rooms@.contains_key(p) <==> pays_upkeep(
                drones@,
                structures@,
                controllers@,
                p,
            ),
        forall|p: PlayerId| #[trigger]
            rooms@.contains_key(p) ==> rooms@[p]@ == rooms_held(drones@, structures@, p),
{
    let mut rooms: BTreeMap<PlayerId, BTreeSet<RoomId>> = BTreeMap::new();
    let ghost no_structures = Seq::<StructureState>::empty();
    let ghost no_controllers = Seq::<ControllerState>::empty();
    let mut i: usize = 0;
    while i < drones.len()
        invariant
            i <= drones.len(),
            no_structures == Seq::<StructureState>::empty(),
            no_controllers == Seq::<ControllerState>::empty(),
            forall|p: PlayerId|
                #[trigger] rooms@.contains_key(p) <==> pays_upkeep(
                    drones@.take(i as int),
                    no_structures,
                    no_controllers,
                    p,
                ),
            forall|p: PlayerId| #[trigger]
                rooms@.contains_key(p) ==> rooms@[p]@ == rooms_held(
                    drones@.take(i as int),
                    no_structures,
                    p,
                ),
        decreases drones.len() - i,
    {
        let drone = drones[i];
        let ghost before = rooms@;
        let mut held = match rooms.remove(&drone.owner) {
            Some(set) => set,
            None => BTreeSet::new(),
        };
        held.insert(drone.room);
        rooms.insert(drone.owner, held);
        proof {
            let prev = drones@.take(i as int);
            let next = drones@.take(i + 1);
            assert(next[i as int] == drone);
            assert forall|p: PlayerId|
                #[trigger] rooms@.contains_key(p) <==> pays_upkeep(
                    next,
                    no_structures,
                    no_controllers,
                    p,
                ) by {
                if p == drone.owner {
                    assert(next[i as int].owner == p);
                } else {
                    if pays_upkeep(next, no_structures, no_controllers, p) {
                        let k = choose|k: int| 0 <= k < next.len() && #[trigger] next[k].owner == p;
                        assert(prev[k].owner == p);
                    }
                    if pays_upkeep(prev, no_structures, no_controllers, p) {
                        let k = choose|k: int| 0 <= k < prev.len() && #[trigger] prev[k].owner == p;
                        assert(next[k].owner == p);
                    }
                }
            }
            assert forall|p: PlayerId| #[trigger]
                rooms@.contains_key(p) implies rooms@[p]@ == rooms_held(next, no_structures, p) by {
                assert forall|r: RoomId|
                    rooms@[p]@.contains(r) <==> holds_room(next, no_structures, p, r) by {
                    if holds_room(next, no_structures, p, r) {
                        let k = choose|k: int|
                            0 <= k < next.len() && #[trigger] next[k].owner == p && next[k].room == r;
                        if k < i {
                            assert(prev[k].owner == p && prev[k].room == r);
                        }
                    }
                    if p != drone.owner || r != drone.room {
                        if before.contains_key(p) && before[p]@.contains(r) {
                            let k = choose|k: int|
                                0 <= k < prev.len() && #[trigger] prev[k].owner == p && prev[k].room
                                    == r;
                            assert(next[k].owner == p && next[k].room == r);
                        }
                    } else {
                        assert(next[i as int].owner == p && next[i as int].room == r);
                    }
                }
                assert(rooms@[p]@ =~= rooms_held(next, no_structures, p));
            }
        }
        i = i + 1;
    }
    assert(drones@.take(drones.len() as int) =~= drones@);
    let mut j: usize = 0;
    while j < structures.len()
        invariant
            j <= structures.len(),
            no_controllers == Seq::<ControllerState>::empty(),
            forall|p: PlayerId|
                #[trigger] rooms@.contains_key(p) <==> pays_upkeep(
                    drones@,
                    structures@.take(j as int),
                    no_controllers,
                    p,
                ),
            forall|p: PlayerId| #[trigger]
                rooms@.contains_key(p) ==> rooms@[p]@ == rooms_held(
                    drones@,
                    structures@.take(j as int),
                    p,
                ),
        decreases structures.len() - j,
    {
        let structure = structures[j];
        let ghost before = rooms@;
        match structure.owner {
            Some(owner) => {
                let mut held = match rooms.remove(&owner) {
                    Some(set) => set,
                    None => BTreeSet::new(),
                };
                held.insert(structure.room);
                rooms.insert(owner, held);
            },
            None => {},
        }
        proof {
            let prev = structures@.take(j as int);
            let next = structures@.take(j + 1);
            assert(next[j as int] == structure);
            assert forall|p: PlayerId|
                #[trigger] rooms@.contains_key(p) <==> pays_upkeep(
                    drones@,
                    next,
                    no_controllers,
                    p,
                ) by {
                if structure.owner == Some(p) {
                    assert(next[j as int].owner == Some(p));
                } else {
                    if pays_upkeep(drones@, next, no_controllers, p) {
                        if exists|k: int| 0 <= k < next.len() && #[trigger] next[k].owner == Some(p) {
                            let k = choose|k: int|
                                0 <= k < next.len() && #[trigger] next[k].owner == Some(p);
                            assert(prev[k].owner == Some(p));
                        }
                    }
                    if pays_upkeep(drones@, prev, no_controllers, p) {
                        if exists|k: int| 0 <= k < prev.len() && #[trigger] prev[k].owner == Some(p) {
                            let k = choose|k: int|
                                0 <= k < prev.len() && #[trigger] prev[k].owner == Some(p);
                            assert(next[k].owner == Some(p));
                        }
                    }
                }
            }
            assert forall|p: PlayerId| #[trigger]
                rooms@.contains_key(p) implies rooms@[p]@ == rooms_held(drones@, next, p) by {
                assert forall|r: RoomId|
                    rooms@[p]@.contains(r) <==> holds_room(drones@, next, p, r) by {
                    if exists|k: int|
                        0 <= k < next.len() && #[trigger] next[k].owner == Some(p) && next[k].room
                            == r {
                        let k = choose|k: int|
                            0 <= k < next.len() && #[trigger] next[k].owner == Some(p)
                                && next[k].room == r;
                        if k < j {
                            assert(prev[k].owner == Some(p) && prev[k].room == r);
                        }
                    }
                    if structure.owner != Some(p) || r != structure.room {
                        if before.contains_key(p) && before[p]@.contains(r) {
                            if exists|k: int|
                                0 <= k < prev.len() && #[trigger] prev[k].owner == Some(p)
                                    && prev[k].room == r {
                                let k = choose|k: int|
                                    0 <= k < prev.len() && #[trigger] prev[k].owner == Some(p)
                                        && prev[k].room == r;
                                assert(next[k].owner == Some(p) && next[k].room == r);
                            }
                        }
                    } else {
                        assert(next[j as int].owner == Some(p) && next[j as int].room == r);
                    }
                }
                assert(rooms@[p]@ =~= rooms_held(drones@, next, p));
            }
        }
        j = j + 1;
    }
    assert(structures@.take(structures.len() as int) =~= structures@);
    let mut k: usize = 0;
    while k < controllers.len()
        invariant
            k <= controllers.len(),
            forall|p: PlayerId|
                #[trigger] rooms@.contains_key(p) <==> pays_upkeep(
                    drones@,
                    structures@,
                    controllers@.take(k as int),
                    p,
                ),
            forall|p: PlayerId| #[trigger]
                rooms@.contains_key(p) ==> rooms@[p]@ == rooms_held(drones@, structures@, p),
        decreases controllers.len() - k,
    {
        let controller = controllers[k];
        match controller.owner {
            Some(owner) => {
                if !rooms.contains_key(&owner) {
                    rooms.insert(owner, BTreeSet::new());
                    proof {
                        assert(!pays_upkeep(drones@, structures@, controllers@.take(k as int), owner));
                        assert(rooms_held(drones@, structures@, owner) =~= Set::empty());
                    }
                }
            },
            None => {},
        }
        proof {
            let prev = controllers@.take(k as int);
            let next = controllers@.take(k + 1);
            assert(next[k as int] == controller);
            assert forall|p: PlayerId|
                #[trigger] rooms@.contains_key(p) <==> pays_upkeep(drones@, structures@, next, p) by {
                if controller.owner == Some(p) {
                    assert(next[k as int].owner == Some(p));
                } else {
                    if exists|m: int| 0 <= m < next.len() && #[trigger] next[m].owner == Some(p) {
                        let m = choose|m: int| 0 <= m < next.len() && #[trigger] next[m].owner == Some(p);
                        assert(prev[m].owner == Some(p));
                    }
                    if exists|m: int| 0 <= m < prev.len() && #[trigger] prev[m].owner == Some(p) {
                        let m = choose|m: int| 0 <= m < prev.len() && #[trigger] prev[m].owner == Some(p);
                        assert(next[m].owner == Some(p));
                    }
                }
            }
        }
        k = k + 1;
    }
    assert(controllers@.take(controllers.len() as int) =~= controllers@);
    rooms
}

/// The players of `rooms` in increasing order, each once.
pub fn players_in_order(rooms: &BTreeMap<PlayerId, BTreeSet<RoomId>>) -> (players: Vec<PlayerId>)
    ensures
        forall|p: PlayerId| #[trigger] players@.contains(p) <==> rooms@.contains_key(p),
        forall|a: int, b: int| 0 <= a < b < players@.len() ==> players@[a] < players@[b],
{
    let mut players: Vec<PlayerId> = Vec::new();
    for p in it: rooms.keys()
        invariant
            it.seq() == rooms.keys().remaining(),
            players@ == it.seq().unref().take(it.index()),
    {
        players.push(*p);
        proof {
            assert(players@ =~= it.seq().unref().take(it.index() + 1));
        }
    }
    proof {
        let keys = rooms.keys().remaining();
        assert(players@ =~= keys.unref());
        assert(keys.unref().to_set() == rooms@.dom());
        assert forall|p: PlayerId| #[trigger] players@.contains(p) <==> rooms@.contains_key(p) by {
            assert(players@.to_set().contains(p) <==> players@.contains(p));
        }
        assert(vstd::std_specs::btree::increasing_seq(keys));
        assert forall|a: int, b: int| 0 <= a < b < players@.len() implies players@[a] < players@[b] by {
            assert(OrdSpec::cmp_spec(&keys[a], &keys[b]) is Less);
        }
    }
    players
}

} // verus!
