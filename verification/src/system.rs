//! One tick of the upkeep rules: every paying player is charged, and the
//! shortfall policy is applied to those who cannot pay.
use vstd::prelude::*;

use crate::config::{clamp_u32, EmpireUpkeepConfig, ShortfallPolicy};
use crate::holdings::{players_in_order, rooms_by_player};
use crate::ledger::{PlayerEnergyLedger, UpkeepShortfalls};
use crate::world::{
    pays_upkeep, rooms_held, upkeep_payers, ControllerState, DroneState, PlayerId,
    StructureState,
};

verus! {

broadcast use vstd::std_specs::btree::group_btree_axioms;

/// The number of rooms `p` is charged for (the count saturates at `u32::MAX`).
pub open spec fn room_count(
    drones: Seq<DroneState>,
    structures: Seq<StructureState>,
    p: PlayerId,
) -> u32 {
    clamp_u32(rooms_held(drones, structures, p).len() as int) as u32
}

/// The upkeep `p` owes this tick.
pub open spec fn upkeep_due(
    config: EmpireUpkeepConfig,
    drones: Seq<DroneState>,
    structures: Seq<StructureState>,
    p: PlayerId,
) -> int {
    config.cost_for(room_count(drones, structures, p))
}

/// The balance of `p` in `balances`; a player without an entry has nothing.
pub open spec fn balance_of(balances: Map<PlayerId, u32>, p: PlayerId) -> int {
    if balances.contains_key(p) {
        balances[p] as int
    } else {
        0
    }
}

/// Whether the balance of `p` does not cover its upkeep.
pub open spec fn falls_short(
    config: EmpireUpkeepConfig,
    drones: Seq<DroneState>,
    structures: Seq<StructureState>,
    balances: Map<PlayerId, u32>,
    p: PlayerId,
) -> bool {
    balance_of(balances, p) < upkeep_due(config, drones, structures, p)
}

/// The part of the upkeep of `p` that its balance does not cover.
pub open spec fn deficit_of(
    config: EmpireUpkeepConfig,
    drones: Seq<DroneState>,
    structures: Seq<StructureState>,
    balances: Map<PlayerId, u32>,
    p: PlayerId,
) -> int {
    upkeep_due(config, drones, structures, p) - balance_of(balances, p)
}

/// The balance `p` keeps after paying what it can of its upkeep.
pub open spec fn balance_left(
    config: EmpireUpkeepConfig,
    drones: Seq<DroneState>,
    structures: Seq<StructureState>,
    balances: Map<PlayerId, u32>,
    p: PlayerId,
) -> int {
    if falls_short(config, drones, structures, balances, p) {
        0
    } else {
        balance_of(balances, p) - upkeep_due(config, drones, structures, p)
    }
}

/// The balances once the players in `settled` have paid: each of them has an
/// entry holding what is left, every other entry is unchanged.
pub open spec fn balances_after(
    config: EmpireUpkeepConfig,
    drones: Seq<DroneState>,
    structures: Seq<StructureState>,
    balances: Map<PlayerId, u32>,
    settled: Set<PlayerId>,
) -> Map<PlayerId, u32> {
    Map::new(
        |p: PlayerId| balances.contains_key(p) || settled.contains(p),
        |p: PlayerId|
            if settled.contains(p) {
                balance_left(config, drones, structures, balances, p) as u32
            } else {
                balances[p]
            },
    )
}

/// The recorded shortfalls once the players in `settled` have paid: each of
/// them has an entry exactly when it fell short, holding the unpaid part;
/// every other entry is unchanged.
pub open spec fn deficits_after(
    config: EmpireUpkeepConfig,
    drones: Seq<DroneState>,
    structures: Seq<StructureState>,
    balances: Map<PlayerId, u32>,
    deficits: Map<PlayerId, u32>,
    settled: Set<PlayerId>,
) -> Map<PlayerId, u32> {
    Map::new(
        |p: PlayerId|
            if settled.contains(p) {
                falls_short(config, drones, structures, balances, p)
            } else {
                deficits.contains_key(p)
            },
        |p: PlayerId|
            if settled.contains(p) {
                deficit_of(config, drones, structures, balances, p) as u32
            } else {
                deficits[p]
            },
    )
}

/// `a - b`, or 0 where `b` exceeds `a`.
pub open spec fn saturating_minus(a: u32, b: u32) -> u32 {
    if a >= b {
        (a - b) as u32
    } else {
        0
    }
}

/// A controller whose owner fell short by `deficit`: its downgrade timer runs
/// down by the deficit, and once it is at zero the controller loses a level
/// (never going below level zero).
pub open spec fn degraded(c: ControllerState, deficit: u32) -> ControllerState {
    let timer = saturating_minus(c.downgrade_timer, deficit);
    ControllerState {
        owner: c.owner,
        downgrade_timer: timer,
        level: if timer == 0 && c.level > 0 {
            (c.level - 1) as u32
        } else {
            c.level
        },
    }
}

/// A drone whose owner fell short by `deficit`: it loses `deficit` hit
/// points, and at least one.
pub open spec fn damaged(d: DroneState, deficit: u32) -> DroneState {
    DroneState { hits: saturating_minus(d.hits, if deficit > 1 { deficit } else { 1 }), ..d }
}

/// Whether the owner of this controller, among `settled`, fell short under
/// the `Degrade` policy.
pub open spec fn controller_degrades(
    config: EmpireUpkeepConfig,
    drones: Seq<DroneState>,
    structures: Seq<StructureState>,
    balances: Map<PlayerId, u32>,
    settled: Set<PlayerId>,
    c: ControllerState,
) -> bool {
    &&& config.onshortfall == ShortfallPolicy::Degrade
    &&& c.owner is Some
    &&& settled.contains(c.owner->0)
    &&& falls_short(config, drones, structures, balances, c.owner->0)
}

/// The controller `c` once the players in `settled` have paid.
pub open spec fn controller_after(
    config: EmpireUpkeepConfig,
    drones: Seq<DroneState>,
    structures: Seq<StructureState>,
    balances: Map<PlayerId, u32>,
    settled: Set<PlayerId>,
    c: ControllerState,
) -> ControllerState {
    if controller_degrades(config, drones, structures, balances, settled, c) {
        degraded(c, deficit_of(config, drones, structures, balances, c.owner->0) as u32)
    } else {
        c
    }
}

/// The controllers once the players in `settled` have paid.
pub open spec fn controllers_after(
    config: EmpireUpkeepConfig,
    drones: Seq<DroneState>,
    structures: Seq<StructureState>,
    balances: Map<PlayerId, u32>,
    settled: Set<PlayerId>,
    controllers: Seq<ControllerState>,
) -> Seq<ControllerState> {
    controllers.map_values(
        |c: ControllerState| controller_after(config, drones, structures, balances, settled, c),
    )
}

/// Whether the owner of this drone, among `settled`, fell short under the
/// `Damage` policy.
pub open spec fn drone_is_damaged(
    config: EmpireUpkeepConfig,
    drones: Seq<DroneState>,
    structures: Seq<StructureState>,
    balances: Map<PlayerId, u32>,
    settled: Set<PlayerId>,
    d: DroneState,
) -> bool {
    &&& config.onshortfall == ShortfallPolicy::Damage
    &&& settled.contains(d.owner)
    &&& falls_short(config, drones, structures, balances, d.owner)
}

/// The drone `d` once the players in `settled` have paid.
pub open spec fn drone_after(
    config: EmpireUpkeepConfig,
    drones: Seq<DroneState>,
    structures: Seq<StructureState>,
    balances: Map<PlayerId, u32>,
    settled: Set<PlayerId>,
    d: DroneState,
) -> DroneState {
    if drone_is_damaged(config, drones, structures, balances, settled, d) {
        damaged(d, deficit_of(config, drones, structures, balances, d.owner) as u32)
    } else {
        d
    }
}

/// The drones once the players in `settled` have paid.
pub open spec fn drones_after(
    config: EmpireUpkeepConfig,
    drones: Seq<DroneState>,
    structures: Seq<StructureState>,
    balances: Map<PlayerId, u32>,
    settled: Set<PlayerId>,
) -> Seq<DroneState> {
    drones.map_values(
        |d: DroneState| drone_after(config, drones, structures, balances, settled, d),
    )
}

/// Whether drone `i` is the oldest of its owner's drones, the one with the
/// smallest entity among equally old ones.
pub open spec fn is_oldest_of_owner(drones: Seq<DroneState>, i: int) -> bool {
    forall|j: int|
        0 <= j < drones.len() && #[trigger] drones[j].owner == drones[i].owner ==> drones[j].age
            < drones[i].age || (drones[j].age == drones[i].age && drones[i].entity
            <= drones[j].entity)
}

/// Whether drone `i` is marked for death once the players in `settled` have
/// paid: under `Damage` when its hit points reach zero, under `Despawn` when
/// it is the oldest drone of its owner; only for owners who fell short.
pub open spec fn marked_for_death(
    config: EmpireUpkeepConfig,
    drones: Seq<DroneState>,
    structures: Seq<StructureState>,
    balances: Map<PlayerId, u32>,
    settled: Set<PlayerId>,
    i: int,
) -> bool {
    &&& settled.contains(drones[i].owner)
    &&& falls_short(config, drones, structures, balances, drones[i].owner)
    &&& match config.onshortfall {
        ShortfallPolicy::Degrade => false,
        ShortfallPolicy::Damage => drone_after(
            config,
            drones,
            structures,
            balances,
            settled,
            drones[i],
        ).hits == 0,
        ShortfallPolicy::Despawn => is_oldest_of_owner(drones, i),
    }
}

/// The entities marked for death once the players in `settled` have paid.
pub open spec fn death_marks(
    config: EmpireUpkeepConfig,
    drones: Seq<DroneState>,
    structures: Seq<StructureState>,
    balances: Map<PlayerId, u32>,
    settled: Set<PlayerId>,
) -> Set<u64> {
    Set::new(
        |e: u64|
            exists|i: int|
                0 <= i < drones.len() && #[trigger] drones[i].entity == e && marked_for_death(
                    config,
                    drones,
                    structures,
                    balances,
                    settled,
                    i,
                ),
    )
}

/// Degrades every controller of `player` by `deficit`; the others are left
/// as they are.
fn degrade_controllers(controllers: &mut Vec<ControllerState>, player: PlayerId, deficit: u32)
    ensures
        final(controllers)@ == old(controllers)@.map_values(
            |c: ControllerState|
                if c.owner == Some(player) {
                    degraded(c, deficit)
                } else {
                    c
                },
        ),
{
    let ghost before = controllers@;
    let mut idx: usize = 0;
    while idx < controllers.len()
        invariant
            idx <= controllers.len(),
            controllers@.len() == before.len(),
            forall|m: int|
                0 <= m < idx ==> #[trigger] controllers@[m] == (if before[m].owner == Some(player) {
                    degraded(before[m], deficit)
                } else {
                    before[m]
                }),
            forall|m: int| idx <= m < before.len() ==> #[trigger] controllers@[m] == before[m],
        decreases before.len() - idx,
    {
        let mut c = controllers[idx];
        let owned = match c.owner {
            Some(owner) => owner == player,
            None => false,
        };
        if owned {
            c.downgrade_timer = c.downgrade_timer.saturating_sub(deficit);
            if c.downgrade_timer == 0 && c.level > 0 {
                c.level = c.level - 1;
            }
            controllers.set(idx, c);
        }
        idx = idx + 1;
    }
    assert(controllers@ =~= before.map_values(
        |c: ControllerState|
            if c.owner == Some(player) {
                degraded(c, deficit)
            } else {
                c
            },
    ));
}

/// Damages every drone of `player` by `deficit` (at least one hit point),
/// and adds to `marked` each of them whose hit points reach zero.
fn damage_drones(drones: &mut Vec<DroneState>, player: PlayerId, deficit: u32, marked: &mut Vec<u64>)
    ensures
        final(drones)@ == old(drones)@.map_values(
            |d: DroneState|
                if d.owner == player {
                    damaged(d, deficit)
                } else {
                    d
                },
        ),
        forall|e: u64|
            #[trigger] final(marked)@.contains(e) <==> old(marked)@.contains(e) || exists|i: int|
                0 <= i < old(drones)@.len() && #[trigger] old(drones)@[i].entity == e
                    && old(drones)@[i].owner == player && damaged(old(drones)@[i], deficit).hits
                    == 0,
{
    let ghost before = drones@;
    let ghost marked_before = marked@;
    let damage = if deficit > 1 {
        deficit
    } else {
        1
    };
    let mut idx: usize = 0;
    while idx < drones.len()
        invariant
            idx <= drones.len(),
            drones@.len() == before.len(),
            damage == (if deficit > 1 {
                deficit
            } else {
                1
            }),
            forall|m: int|
                0 <= m < idx ==> #[trigger] drones@[m] == (if before[m].owner == player {
                    damaged(before[m], deficit)
                } else {
                    before[m]
                }),
            forall|m: int| idx <= m < before.len() ==> #[trigger] drones@[m] == before[m],
            forall|e: u64|
                #[trigger] marked@.contains(e) <==> marked_before.contains(e) || exists|i: int|
                    0 <= i < idx && #[trigger] before[i].entity == e && before[i].owner == player
                        && damaged(before[i], deficit).hits == 0,
        decreases before.len() - idx,
    {
        let ghost marked_prev = marked@;
        let mut d = drones[idx];
        if d.owner == player {
            d.hits = d.hits.saturating_sub(damage);
            drones.set(idx, d);
            if d.hits == 0 {
                marked.push(d.entity);
            }
        }
        proof {
            assert forall|e: u64|
                #[trigger] marked@.contains(e) <==> marked_before.contains(e) || exists|i: int|
                    0 <= i < idx + 1 && #[trigger] before[i].entity == e && before[i].owner
                        == player && damaged(before[i], deficit).hits == 0 by {
                let hit = before[idx as int].owner == player && damaged(before[idx as int], deficit).hits == 0;
                assert(hit ==> marked@ == marked_prev.push(before[idx as int].entity));
                assert(!hit ==> marked@ == marked_prev);
                if hit {
                    assert(marked@.contains(e) <==> marked_prev.contains(e) || e == before[idx as int].entity) by {
                        if e == before[idx as int].entity {
                            assert(marked@[marked_prev.len() as int] == e);
                        }
                        if marked@.contains(e) && e != before[idx as int].entity {
                            let w = choose|w: int| 0 <= w < marked@.len() && marked@[w] == e;
                            assert(marked_prev[w] == e);
                        }
                        if marked_prev.contains(e) {
                            let w = choose|w: int| 0 <= w < marked_prev.len() && marked_prev[w] == e;
                            assert(marked@[w] == e);
                        }
                    }
                }
            }
        }
        idx = idx + 1;
    }
    assert(drones@ =~= before.map_values(
        |d: DroneState|
            if d.owner == player {
                damaged(d, deficit)
            } else {
                d
            },
    ));
}

/// The entity of the oldest drone of `player` (the smallest entity among
/// equally old ones), or `None` when `player` has no drone.
fn oldest_drone(drones: &Vec<DroneState>, player: PlayerId) -> (oldest: Option<u64>)
    ensures
        oldest is None <==> !exists|i: int| 0 <= i < drones@.len() && #[trigger] drones@[i].owner == player,
        oldest matches Some(e) ==> exists|i: int|
            0 <= i < drones@.len() && #[trigger] drones@[i].owner == player && is_oldest_of_owner(
                drones@,
                i,
            ) && drones@[i].entity == e,
        forall|i: int|
            0 <= i < drones@.len() && #[trigger] drones@[i].owner == player && is_oldest_of_owner(
                drones@,
                i,
            ) ==> oldest == Some(drones@[i].entity),
{
    let mut best: Option<usize> = None;
    let mut idx: usize = 0;
    while idx < drones.len()
        invariant
            idx <= drones.len(),
            best is None <==> !exists|i: int| 0 <= i < idx && #[trigger] drones@[i].owner == player,
            best matches Some(b) ==> b < idx && drones@[b as int].owner == player,
            best matches Some(b) ==> forall|j: int|
                0 <= j < idx && #[trigger] drones@[j].owner == player ==> drones@[j].age
                    < drones@[b as int].age || (drones@[j].age == drones@[b as int].age
                    && drones@[b as int].entity <= drones@[j].entity),
        decreases drones.len() - idx,
    {
        let d = drones[idx];
        if d.owner == player {
            match best {
                None => {
                    best = Some(idx);
                },
                Some(b) => {
                    let current = drones[b];
                    if d.age > current.age || (d.age == current.age && d.entity < current.entity) {
                        best = Some(idx);
                    }
                },
            }
        }
        idx = idx + 1;
    }
    match best {
        None => None,
        Some(b) => {
            proof {
                assert(is_oldest_of_owner(drones@, b as int));
                assert forall|i: int|
                    0 <= i < drones@.len() && #[trigger] drones@[i].owner == player
                        && is_oldest_of_owner(drones@, i) implies Some(drones@[b as int].entity)
                        == Some(drones@[i].entity) by {
                    assert(drones@[b as int].owner == drones@[i].owner);
                }
            }
            Some(drones[b].entity)
        },
    }
}

/// The players among the first `count` of `players`.
spec fn first_players(players: Seq<PlayerId>, count: int) -> Set<PlayerId> {
    Set::new(|p: PlayerId| exists|m: int| 0 <= m < count && #[trigger] players[m] == p)
}

/// One tick of upkeep. Every player who owns a drone, a structure or a
/// controller is charged the upkeep for the rooms its drones and structures
/// stand in. A player who can pay has the upkeep taken from its balance and
/// its recorded shortfall cleared; a player who cannot is left with an empty
/// balance, has the unpaid part recorded, and suffers the configured policy:
/// `Degrade` runs down its controllers, `Damage` hurts its drones, `Despawn`
/// marks its oldest drone. Returns the entities marked for death.
pub fn empire_upkeep_system(
    config: &EmpireUpkeepConfig,
    ledger: &mut PlayerEnergyLedger,
    shortfalls: &mut UpkeepShortfalls,
    drones: &mut Vec<DroneState>,
    structures: &Vec<StructureState>,
    controllers: &mut Vec<ControllerState>,
) -> (marked: Vec<u64>)
    ensures
        final(ledger).balances@ == balances_after(
            *config,
            old(drones)@,
            structures@,
            old(ledger).balances@,
            upkeep_payers(old(drones)@, structures@, old(controllers)@),
        ),
        final(shortfalls).deficits@ == deficits_after(
            *config,
            old(drones)@,
            structures@,
            old(ledger).balances@,
            old(shortfalls).deficits@,
            upkeep_payers(old(drones)@, structures@, old(controllers)@),
        ),
        final(controllers)@ == controllers_after(
            *config,
            old(drones)@,
            structures@,
            old(ledger).balances@,
            upkeep_payers(old(drones)@, structures@, old(controllers)@),
            old(controllers)@,
        ),
        final(drones)@ == drones_after(
            *config,
            old(drones)@,
            structures@,
            old(ledger).balances@,
            upkeep_payers(old(drones)@, structures@, old(controllers)@),
        ),
        forall|e: u64|
            #[trigger] marked@.contains(e) <==> death_marks(
                *config,
                old(drones)@,
                structures@,
                old(ledger).balances@,
                upkeep_payers(old(drones)@, structures@, old(controllers)@),
            ).contains(e),
{
    let ghost d0 = drones@;
    let ghost c0 = controllers@;
    let ghost b0 = ledger.balances@;
    let ghost f0 = shortfalls.deficits@;
    let ghost cfg = *config;
    let rooms = rooms_by_player(drones, structures, controllers);
    let players = players_in_order(&rooms);
    let mut marked: Vec<u64> = Vec::new();
    proof {
        assert(ledger.balances@ =~= balances_after(cfg, d0, structures@, b0, first_players(players@, 0)));
        assert(shortfalls.deficits@ =~= deficits_after(cfg, d0, structures@, b0, f0, first_players(players@, 0)));
        assert(controllers@ =~= controllers_after(cfg, d0, structures@, b0, first_players(players@, 0), c0));
        assert(drones@ =~= drones_after(cfg, d0, structures@, b0, first_players(players@, 0)));
    }
    let mut k: usize = 0;
    while k < players.len()
        invariant
            k <= players.len(),
            cfg == *config,
            forall|p: PlayerId| #[trigger] players@.contains(p) <==> rooms@.contains_key(p),
            forall|a: int, b: int| 0 <= a < b < players@.len() ==> players@[a] < players@[b],
            forall|p: PlayerId| #[trigger] rooms@.contains_key(p) <==> pays_upkeep(d0, structures@, c0, p),
            forall|p: PlayerId| #[trigger] rooms@.contains_key(p) ==> rooms@[p]@ == rooms_held(d0, structures@, p),
            ledger.balances@ == balances_after(cfg, d0, structures@, b0, first_players(players@, k as int)),
            shortfalls.deficits@ == deficits_after(cfg, d0, structures@, b0, f0, first_players(players@, k as int)),
            controllers@ == controllers_after(cfg, d0, structures@, b0, first_players(players@, k as int), c0),
            drones@ == drones_after(cfg, d0, structures@, b0, first_players(players@, k as int)),
            forall|e: u64|
                #[trigger] marked@.contains(e) <==> death_marks(
                    cfg,
                    d0,
                    structures@,
                    b0,
                    first_players(players@, k as int),
                ).contains(e),
        decreases players.len() - k,
    {
        let player = players[k];
        let ghost done = first_players(players@, k as int);
        let ghost next = first_players(players@, k + 1);
        proof {
            assert(!done.contains(player)) by {
                if done.contains(player) {
                    let m = choose|m: int| 0 <= m < k && #[trigger] players@[m] == player;
                    assert(players@[m] < players@[k as int]);
                }
            }
            assert(next =~= done.insert(player)) by {
                assert(players@[k as int] == player);
            }
            assert(players@.contains(player));
        }
        let held = match rooms.get(&player) {
            Some(set) => set.len(),
            None => 0,
        };
        let rooms_owned: u32 = if held > u32::MAX as usize {
            u32::MAX
        } else {
            held as u32
        };
        let cost = config.upkeep_cost(rooms_owned);
        let balance: u32 = match ledger.balances.get(&player) {
            Some(b) => *b,
            None => 0,
        };
        proof {
            assert(rooms_owned == room_count(d0, structures@, player));
            assert(cost == upkeep_due(cfg, d0, structures@, player));
            assert(balance == balance_of(b0, player));
        }
        if balance >= cost {
            ledger.balances.insert(player, balance - cost);
            shortfalls.deficits.remove(&player);
            proof {
                assert(!falls_short(cfg, d0, structures@, b0, player));
                assert(controllers@ =~= controllers_after(cfg, d0, structures@, b0, next, c0));
                assert(drones@ =~= drones_after(cfg, d0, structures@, b0, next));
                assert forall|e: u64|
                    #[trigger] marked@.contains(e) <==> death_marks(cfg, d0, structures@, b0, next).contains(e) by {
                    if death_marks(cfg, d0, structures@, b0, next).contains(e) {
                        let i = choose|i: int|
                            0 <= i < d0.len() && #[trigger] d0[i].entity == e && marked_for_death(
                                cfg, d0, structures@, b0, next, i);
                        assert(marked_for_death(cfg, d0, structures@, b0, done, i));
                    }
                    if death_marks(cfg, d0, structures@, b0, done).contains(e) {
                        let i = choose|i: int|
                            0 <= i < d0.len() && #[trigger] d0[i].entity == e && marked_for_death(
                                cfg, d0, structures@, b0, done, i);
                        assert(marked_for_death(cfg, d0, structures@, b0, next, i));
                    }
                }
            }
        } else {
            let deficit = cost - balance;
            ledger.balances.insert(player, 0);
            shortfalls.deficits.insert(player, deficit);
            proof {
                assert(falls_short(cfg, d0, structures@, b0, player));
                assert(deficit == deficit_of(cfg, d0, structures@, b0, player));
            }
            match config.onshortfall {
                ShortfallPolicy::Degrade => {
                    degrade_controllers(controllers, player, deficit);
                    proof {
                        assert(controllers@ =~= controllers_after(cfg, d0, structures@, b0, next, c0));
                        assert(drones@ =~= drones_after(cfg, d0, structures@, b0, next));
                    }
                },
                ShortfallPolicy::Damage => {
                    let ghost marked_before = marked@;
                    let ghost drones_before = drones@;
                    damage_drones(drones, player, deficit, &mut marked);
                    proof {
                        assert(controllers@ =~= controllers_after(cfg, d0, structures@, b0, next, c0));
                        assert(drones@ =~= drones_after(cfg, d0, structures@, b0, next));
                        assert forall|e: u64|
                            #[trigger] marked@.contains(e) <==> death_marks(cfg, d0, structures@, b0, next).contains(e) by {
                            if death_marks(cfg, d0, structures@, b0, next).contains(e) {
                                let i = choose|i: int|
                                    0 <= i < d0.len() && #[trigger] d0[i].entity == e && marked_for_death(
                                        cfg, d0, structures@, b0, next, i);
                                if d0[i].owner != player {
                                    assert(marked_for_death(cfg, d0, structures@, b0, done, i));
                                } else {
                                    assert(drones_before[i] == d0[i]);
                                }
                            }
                            if marked_before.contains(e) {
                                let i = choose|i: int|
                                    0 <= i < d0.len() && #[trigger] d0[i].entity == e && marked_for_death(
                                        cfg, d0, structures@, b0, done, i);
                                assert(marked_for_death(cfg, d0, structures@, b0, next, i));
                            }
                            if exists|i: int|
                                0 <= i < drones_before.len() && #[trigger] drones_before[i].entity == e
                                    && drones_before[i].owner == player && damaged(drones_before[i], deficit).hits == 0 {
                                let i = choose|i: int|
                                    0 <= i < drones_before.len() && #[trigger] drones_before[i].entity == e
                                        && drones_before[i].owner == player && damaged(drones_before[i], deficit).hits == 0;
                                assert(drones_before[i] == d0[i]);
                                assert(marked_for_death(cfg, d0, structures@, b0, next, i));
                            }
                        }
                    }
                },
                ShortfallPolicy::Despawn => {
                    proof {
                        assert(drones@ =~= d0);
                    }
                    let oldest = oldest_drone(drones, player);
                    let ghost marked_before = marked@;
                    match oldest {
                        Some(entity) => {
                            marked.push(entity);
                        },
                        None => {},
                    }
                    proof {
                        assert(controllers@ =~= controllers_after(cfg, d0, structures@, b0, next, c0));
                        assert(drones@ =~= drones_after(cfg, d0, structures@, b0, next));
                        assert forall|e: u64|
                            #[trigger] marked@.contains(e) <==> death_marks(cfg, d0, structures@, b0, next).contains(e) by {
                            if death_marks(cfg, d0, structures@, b0, next).contains(e) {
                                let i = choose|i: int|
                                    0 <= i < d0.len() && #[trigger] d0[i].entity == e && marked_for_death(
                                        cfg, d0, structures@, b0, next, i);
                                if d0[i].owner != player {
                                    assert(marked_for_death(cfg, d0, structures@, b0, done, i));
                                    assert(marked_before.contains(e));
                                    let w = choose|w: int| 0 <= w < marked_before.len() && marked_before[w] == e;
                                    assert(marked@[w] == e);
                                } else {
                                    assert(oldest == Some(e));
                                    assert(marked@[marked_before.len() as int] == e);
                                }
                            }
                            if marked@.contains(e) {
                                let w = choose|w: int| 0 <= w < marked@.len() && marked@[w] == e;
                                if w < marked_before.len() {
                                    assert(marked_before[w] == e);
                                    assert(marked_before.contains(e));
                                    assert(death_marks(cfg, d0, structures@, b0, done).contains(e));
                                    let i = choose|i: int|
                                        0 <= i < d0.len() && #[trigger] d0[i].entity == e && marked_for_death(
                                            cfg, d0, structures@, b0, done, i);
                                    assert(marked_for_death(cfg, d0, structures@, b0, next, i));
                                } else {
                                    let i = choose|i: int|
                                        0 <= i < d0.len() && #[trigger] d0[i].owner == player
                                            && is_oldest_of_owner(d0, i) && d0[i].entity == e;
                                    assert(marked_for_death(cfg, d0, structures@, b0, next, i));
                                }
                            }
                        }
                    }
                },
            }
        }
        proof {
            assert(ledger.balances@ =~= balances_after(cfg, d0, structures@, b0, next));
            assert(shortfalls.deficits@ =~= deficits_after(cfg, d0, structures@, b0, f0, next));
        }
        k = k + 1;
    }
    proof {
        assert(first_players(players@, players@.len() as int) =~= upkeep_payers(d0, structures@, c0)) by {
            assert forall|p: PlayerId| first_players(players@, players@.len() as int).contains(p)
                <==> upkeep_payers(d0, structures@, c0).contains(p) by {
                if upkeep_payers(d0, structures@, c0).contains(p) {
                    assert(rooms@.contains_key(p));
                    assert(players@.contains(p));
                    let m = choose|m: int| 0 <= m < players@.len() && players@[m] == p;
                    assert(players@[m] == p);
                }
                if first_players(players@, players@.len() as int).contains(p) {
                    let m = choose|m: int| 0 <= m < players@.len() && #[trigger] players@[m] == p;
                    assert(players@.contains(p));
                }
            }
        }
    }
    marked
}

} // verus!
