use swarm_mod_empire_upkeep::holdings::{players_in_order, rooms_by_player};
use swarm_mod_empire_upkeep::{
    empire_upkeep_system, ControllerState, DroneState, EmpireUpkeepConfig, PlayerEnergyLedger,
    ShortfallPolicy, StructureState, UpkeepShortfalls,
};

fn drone(entity: u64, owner: u64, room: u64) -> DroneState {
    DroneState { entity, owner, room, hits: 100, age: 0 }
}

struct World {
    ledger: PlayerEnergyLedger,
    shortfalls: UpkeepShortfalls,
    drones: Vec<DroneState>,
    structures: Vec<StructureState>,
    controllers: Vec<ControllerState>,
}

impl World {
    fn new() -> Self {
        World {
            ledger: PlayerEnergyLedger::default(),
            shortfalls: UpkeepShortfalls::default(),
            drones: Vec::new(),
            structures: Vec::new(),
            controllers: Vec::new(),
        }
    }

    fn tick(&mut self, config: &EmpireUpkeepConfig) -> Vec<u64> {
        empire_upkeep_system(
            config,
            &mut self.ledger,
            &mut self.shortfalls,
            &mut self.drones,
            &self.structures,
            &mut self.controllers,
        )
    }
}

#[test]
fn app_update_charges_configured_base_and_room_soft_cap_upkeep() {
    let config = EmpireUpkeepConfig {
        base_upkeep: 25,
        room_soft_cap: 2,
        ..EmpireUpkeepConfig::default()
    };
    let mut world = World::new();
    world.ledger.balances.insert(1, 1_000);
    for room in [1, 2, 3] {
        world.drones.push(drone(room, 1, room));
    }

    world.tick(&config);

    assert_eq!(world.ledger.balances.get(&1), Some(&813));
}

#[test]
fn app_update_damage_shortfall_reduces_drone_hits() {
    let config = EmpireUpkeepConfig {
        onshortfall: ShortfallPolicy::Damage,
        ..EmpireUpkeepConfig::default()
    };
    let mut world = World::new();
    world.ledger.balances.insert(1, 50);
    world.drones.push(drone(7, 1, 1));

    world.tick(&config);

    assert_eq!(world.drones[0].hits, 95);
}

#[test]
fn app_update_lethal_damage_shortfall_marks_the_drone_for_death() {
    let config = EmpireUpkeepConfig {
        onshortfall: ShortfallPolicy::Damage,
        ..EmpireUpkeepConfig::default()
    };
    let mut world = World::new();
    let mut damaged_drone = drone(7, 1, 1);
    damaged_drone.hits = 5;
    world.drones.push(damaged_drone);

    let marked = world.tick(&config);

    assert_eq!(world.drones[0].hits, 0);
    assert!(marked.contains(&7));
}

#[test]
fn upkeep_cost_follows_the_documented_formula() {
    let config = EmpireUpkeepConfig::default();
    assert_eq!(config.upkeep_cost(0), 0);
    assert_eq!(config.upkeep_cost(1), 55);
    assert_eq!(config.upkeep_cost(2), 120);
    assert_eq!(config.upkeep_cost(10), 1_000);
    assert_eq!(config.upkeep_cost(20), 3_000);
    let small = EmpireUpkeepConfig { base_upkeep: 1, room_soft_cap: 14, ..EmpireUpkeepConfig::default() };
    assert_eq!(small.upkeep_cost(4), 5);
}

#[test]
fn upkeep_cost_is_zero_without_soft_cap() {
    let config = EmpireUpkeepConfig { room_soft_cap: 0, ..EmpireUpkeepConfig::default() };
    assert_eq!(config.upkeep_cost(5), 0);
}

#[test]
fn upkeep_cost_saturates_at_u32_max() {
    let config = EmpireUpkeepConfig {
        base_upkeep: u32::MAX,
        room_soft_cap: 1,
        ..EmpireUpkeepConfig::default()
    };
    assert_eq!(config.upkeep_cost(u32::MAX), u32::MAX);
    assert_eq!(config.upkeep_cost(2), u32::MAX);
}

#[test]
fn upkeep_cost_never_falls_as_rooms_grow() {
    for cap in [1u32, 3, 10, 14] {
        let config = EmpireUpkeepConfig { base_upkeep: 7, room_soft_cap: cap, ..EmpireUpkeepConfig::default() };
        let mut previous = 0;
        for rooms in 0..50 {
            let cost = config.upkeep_cost(rooms);
            assert!(cost >= previous);
            assert!(u64::from(cost) >= 7 * u64::from(rooms));
            previous = cost;
        }
    }
}

#[test]
fn paid_plus_recorded_shortfall_equals_upkeep() {
    let config = EmpireUpkeepConfig::default();
    let mut world = World::new();
    world.ledger.balances.insert(1, 30);
    world.drones.push(drone(1, 1, 4));
    world.tick(&config);
    assert_eq!(world.ledger.balances.get(&1), Some(&0));
    assert_eq!(world.shortfalls.deficits.get(&1), Some(&25));
}

#[test]
fn paying_in_full_clears_the_recorded_shortfall() {
    let config = EmpireUpkeepConfig::default();
    let mut world = World::new();
    world.shortfalls.deficits.insert(1, 99);
    world.ledger.balances.insert(1, 100);
    world.drones.push(drone(1, 1, 4));
    world.tick(&config);
    assert_eq!(world.ledger.balances.get(&1), Some(&45));
    assert_eq!(world.shortfalls.deficits.get(&1), None);
}

#[test]
fn rooms_are_counted_once_across_drones_and_structures() {
    let config = EmpireUpkeepConfig::default();
    let mut world = World::new();
    world.ledger.balances.insert(3, 1_000);
    world.drones.push(drone(1, 3, 8));
    world.drones.push(drone(2, 3, 8));
    world.structures.push(StructureState { owner: Some(3), room: 8 });
    world.structures.push(StructureState { owner: Some(3), room: 9 });
    world.structures.push(StructureState { owner: None, room: 10 });
    world.tick(&config);
    // two rooms: 50 * 2 * 12 / 10 = 120
    assert_eq!(world.ledger.balances.get(&3), Some(&880));
}

#[test]
fn controller_only_players_get_a_ledger_entry_and_pay_nothing() {
    let config = EmpireUpkeepConfig::default();
    let mut world = World::new();
    world.shortfalls.deficits.insert(4, 12);
    world.controllers.push(ControllerState { owner: Some(4), downgrade_timer: 10, level: 2 });
    world.tick(&config);
    assert_eq!(world.ledger.balances.get(&4), Some(&0));
    assert_eq!(world.shortfalls.deficits.get(&4), None);
    assert_eq!(world.controllers[0], ControllerState { owner: Some(4), downgrade_timer: 10, level: 2 });
}

#[test]
fn players_who_own_nothing_are_left_alone() {
    let config = EmpireUpkeepConfig::default();
    let mut world = World::new();
    world.ledger.balances.insert(9, 7);
    world.shortfalls.deficits.insert(9, 3);
    world.drones.push(drone(1, 1, 1));
    world.tick(&config);
    assert_eq!(world.ledger.balances.get(&9), Some(&7));
    assert_eq!(world.shortfalls.deficits.get(&9), Some(&3));
}

#[test]
fn degrade_runs_down_the_timer_and_drops_a_level_at_zero() {
    let config = EmpireUpkeepConfig::default();
    let mut world = World::new();
    world.drones.push(drone(1, 1, 1));
    world.controllers.push(ControllerState { owner: Some(1), downgrade_timer: 100, level: 3 });
    world.controllers.push(ControllerState { owner: Some(1), downgrade_timer: 40, level: 3 });
    world.controllers.push(ControllerState { owner: Some(1), downgrade_timer: 0, level: 0 });
    world.controllers.push(ControllerState { owner: Some(2), downgrade_timer: 5, level: 1 });
    world.controllers.push(ControllerState { owner: None, downgrade_timer: 5, level: 1 });
    let marked = world.tick(&config);
    assert!(marked.is_empty());
    assert_eq!(world.controllers[0], ControllerState { owner: Some(1), downgrade_timer: 45, level: 3 });
    assert_eq!(world.controllers[1], ControllerState { owner: Some(1), downgrade_timer: 0, level: 2 });
    assert_eq!(world.controllers[2], ControllerState { owner: Some(1), downgrade_timer: 0, level: 0 });
    assert_eq!(world.controllers[3], ControllerState { owner: Some(2), downgrade_timer: 5, level: 1 });
    assert_eq!(world.controllers[4], ControllerState { owner: None, downgrade_timer: 5, level: 1 });
    assert_eq!(world.drones[0].hits, 100);
}

#[test]
fn damage_takes_at_least_one_hit_point() {
    let config = EmpireUpkeepConfig {
        base_upkeep: 1,
        room_soft_cap: 1_000,
        onshortfall: ShortfallPolicy::Damage,
        ..EmpireUpkeepConfig::default()
    };
    let mut world = World::new();
    world.drones.push(drone(1, 1, 1));
    world.drones.push(drone(2, 2, 1));
    world.ledger.balances.insert(2, 10);
    world.tick(&config);
    // upkeep of one room is 1 * 1 * 1001 / 1000 = 1; player 1 is one short
    assert_eq!(world.shortfalls.deficits.get(&1), Some(&1));
    assert_eq!(world.drones[0].hits, 99);
    assert_eq!(world.drones[1].hits, 100);
    assert_eq!(world.ledger.balances.get(&2), Some(&9));
}

#[test]
fn despawn_marks_the_oldest_drone_of_each_short_player() {
    let config = EmpireUpkeepConfig { onshortfall: ShortfallPolicy::Despawn, ..EmpireUpkeepConfig::default() };
    let mut world = World::new();
    world.drones.push(DroneState { entity: 10, owner: 1, room: 1, hits: 100, age: 5 });
    world.drones.push(DroneState { entity: 11, owner: 1, room: 1, hits: 100, age: 9 });
    world.drones.push(DroneState { entity: 12, owner: 1, room: 2, hits: 100, age: 3 });
    world.drones.push(DroneState { entity: 20, owner: 2, room: 3, hits: 100, age: 4 });
    world.drones.push(DroneState { entity: 21, owner: 2, room: 3, hits: 100, age: 4 });
    world.drones.push(DroneState { entity: 30, owner: 3, room: 4, hits: 100, age: 50 });
    world.ledger.balances.insert(3, 1_000);
    let mut marked = world.tick(&config);
    marked.sort();
    assert_eq!(marked, vec![11, 20]);
    assert!(world.drones.iter().all(|d| d.hits == 100));
}

#[test]
fn two_ticks_charge_twice() {
    let config = EmpireUpkeepConfig::default();
    let mut world = World::new();
    world.ledger.balances.insert(1, 100);
    world.drones.push(drone(1, 1, 1));
    world.tick(&config);
    world.tick(&config);
    assert_eq!(world.ledger.balances.get(&1), Some(&0));
    assert_eq!(world.shortfalls.deficits.get(&1), Some(&10));
}

#[test]
fn settings_other_than_cost_and_policy_do_not_change_a_tick() {
    let plain = EmpireUpkeepConfig { onshortfall: ShortfallPolicy::Damage, ..EmpireUpkeepConfig::default() };
    let other = EmpireUpkeepConfig {
        repair_cap: 1,
        distance_decay_bp: 2,
        recycle_refund_base: 3,
        recycle_refund_min: 4,
        controller_passive_income: 5,
        controller_passive_income_rcl_bonus: 6,
        tutorial_recycle_refund_full_ticks: 7,
        resource: "Crystal".to_string(),
        ..plain.clone()
    };
    let build = || {
        let mut world = World::new();
        world.ledger.balances.insert(1, 20);
        world.drones.push(drone(1, 1, 1));
        world.drones.push(drone(2, 1, 2));
        world
    };
    let mut a = build();
    let mut b = build();
    let marked_a = a.tick(&plain);
    let marked_b = b.tick(&other);
    assert_eq!(marked_a, marked_b);
    assert_eq!(a.drones, b.drones);
    assert_eq!(a.ledger.balances, b.ledger.balances);
    assert_eq!(a.shortfalls.deficits, b.shortfalls.deficits);
}

#[test]
fn rooms_are_collected_per_player_in_increasing_order() {
    let drones = vec![drone(1, 9, 3), drone(2, 4, 3), drone(3, 9, 5)];
    let structures = vec![StructureState { owner: Some(4), room: 6 }];
    let controllers = vec![ControllerState { owner: Some(2), downgrade_timer: 1, level: 1 }];
    let rooms = rooms_by_player(&drones, &structures, &controllers);
    assert_eq!(players_in_order(&rooms), vec![2, 4, 9]);
    assert_eq!(rooms[&2].len(), 0);
    assert_eq!(rooms[&4].iter().copied().collect::<Vec<_>>(), vec![3, 6]);
    assert_eq!(rooms[&9].iter().copied().collect::<Vec<_>>(), vec![3, 5]);
}

#[test]
fn balances_never_grow_during_a_tick() {
    let config = EmpireUpkeepConfig::default();
    let mut world = World::new();
    for (player, balance) in [(1u64, 0u32), (2, 54), (3, 55), (4, 10_000)] {
        world.ledger.balances.insert(player, balance);
        world.drones.push(drone(player, player, player));
    }
    let before = world.ledger.balances.clone();
    world.tick(&config);
    for (player, balance) in &world.ledger.balances {
        assert!(balance <= before.get(player).unwrap_or(&0));
    }
    assert_eq!(world.ledger.balances.get(&3), Some(&0));
    assert_eq!(world.shortfalls.deficits.get(&3), None);
    assert_eq!(world.shortfalls.deficits.get(&2), Some(&1));
}

fn mixed_world() -> World {
    let mut world = World::new();
    world.ledger.balances.insert(1, 30);
    world.ledger.balances.insert(2, 1_000);
    world.drones.push(DroneState { entity: 10, owner: 1, room: 1, hits: 100, age: 3 });
    world.drones.push(DroneState { entity: 11, owner: 2, room: 2, hits: 100, age: 8 });
    world.drones.push(DroneState { entity: 12, owner: 1, room: 3, hits: 100, age: 9 });
    world.structures.push(StructureState { owner: Some(2), room: 5 });
    world.structures.push(StructureState { owner: Some(1), room: 3 });
    world.controllers.push(ControllerState { owner: Some(1), downgrade_timer: 50, level: 2 });
    world.controllers.push(ControllerState { owner: Some(3), downgrade_timer: 9, level: 1 });
    world
}

#[test]
fn listing_order_does_not_change_a_tick() {
    for policy in [ShortfallPolicy::Degrade, ShortfallPolicy::Damage, ShortfallPolicy::Despawn] {
        let config = EmpireUpkeepConfig { onshortfall: policy, ..EmpireUpkeepConfig::default() };
        let mut forward = mixed_world();
        let mut backward = mixed_world();
        backward.drones.reverse();
        backward.structures.reverse();
        backward.controllers.reverse();
        let mut marked_forward = forward.tick(&config);
        let mut marked_backward = backward.tick(&config);
        marked_forward.sort();
        marked_backward.sort();
        assert_eq!(marked_forward, marked_backward);
        assert_eq!(forward.ledger.balances, backward.ledger.balances);
        assert_eq!(forward.shortfalls.deficits, backward.shortfalls.deficits);
        backward.drones.reverse();
        backward.controllers.reverse();
        assert_eq!(forward.drones, backward.drones);
        assert_eq!(forward.controllers, backward.controllers);
    }
}

#[test]
fn other_players_do_not_change_a_players_outcome() {
    for policy in [ShortfallPolicy::Degrade, ShortfallPolicy::Damage, ShortfallPolicy::Despawn] {
        let config = EmpireUpkeepConfig { onshortfall: policy, ..EmpireUpkeepConfig::default() };
        let mut alone = World::new();
        alone.ledger.balances.insert(1, 30);
        alone.drones.push(DroneState { entity: 10, owner: 1, room: 1, hits: 100, age: 3 });
        alone.drones.push(DroneState { entity: 12, owner: 1, room: 3, hits: 100, age: 9 });
        alone.structures.push(StructureState { owner: Some(1), room: 3 });
        alone.controllers.push(ControllerState { owner: Some(1), downgrade_timer: 50, level: 2 });
        let mut crowded = mixed_world();
        crowded.ledger.balances.insert(2, 0);
        crowded.shortfalls.deficits.insert(3, 77);
        let marked_alone = alone.tick(&config);
        let marked_crowded = crowded.tick(&config);
        assert_eq!(alone.ledger.balances.get(&1), crowded.ledger.balances.get(&1));
        assert_eq!(alone.shortfalls.deficits.get(&1), crowded.shortfalls.deficits.get(&1));
        assert_eq!(alone.drones[0], crowded.drones[0]);
        assert_eq!(alone.drones[1], crowded.drones[2]);
        assert_eq!(alone.controllers[0], crowded.controllers[0]);
        for entity in [10u64, 12] {
            assert_eq!(marked_alone.contains(&entity), marked_crowded.contains(&entity));
        }
    }
}
