//! Properties of one upkeep tick that hold for every world and ledger.
use vstd::prelude::*;

use crate::config::{EmpireUpkeepConfig, ShortfallPolicy};
use crate::system::{
    balance_of, balances_after, controllers_after, damaged, death_marks, deficits_after,
    controller_after, degraded, drone_after, drones_after, falls_short, is_oldest_of_owner, marked_for_death, room_count,
    upkeep_due,
};
use crate::world::{
    holds_room, pays_upkeep, rooms_held, upkeep_payers, ControllerState, DroneState, PlayerId,
    StructureState,
};

verus! {

/// Every settled player's upkeep is accounted for: what it paid out of its
/// balance plus the shortfall recorded for it is exactly its upkeep, when
/// the upkeep fits the balance the shortfall is cleared, and otherwise the
/// balance is emptied.
pub proof fn lemma_upkeep_paid_or_recorded(
    config: EmpireUpkeepConfig,
    drones: Seq<DroneState>,
    structures: Seq<StructureState>,
    balances: Map<PlayerId, u32>,
    deficits: Map<PlayerId, u32>,
    settled: Set<PlayerId>,
    p: PlayerId,
)
    requires
        settled.contains(p),
    ensures
        ({
            let paid = balance_of(balances, p) - balance_of(
                balances_after(config, drones, structures, balances, settled),
                p,
            );
            let unpaid = balance_of(
                deficits_after(config, drones, structures, balances, deficits, settled),
                p,
            );
            paid + unpaid == upkeep_due(config, drones, structures, p)
        }),
        falls_short(config, drones, structures, balances, p) ==> balances_after(
            config,
            drones,
            structures,
            balances,
            settled,
        )[p] == 0,
        !falls_short(config, drones, structures, balances, p) ==> !deficits_after(
            config,
            drones,
            structures,
            balances,
            deficits,
            settled,
        ).contains_key(p),
{
    let due = upkeep_due(config, drones, structures, p);
    assert(0 <= due <= u32::MAX);
    assert(0 <= balance_of(balances, p) <= u32::MAX);
}

/// Upkeep never adds energy: no balance grows in a tick, and the players
/// outside `settled` keep their balances and recorded shortfalls.
pub proof fn lemma_balances_never_grow(
    config: EmpireUpkeepConfig,
    drones: Seq<DroneState>,
    structures: Seq<StructureState>,
    balances: Map<PlayerId, u32>,
    deficits: Map<PlayerId, u32>,
    settled: Set<PlayerId>,
    p: PlayerId,
)
    ensures
        balance_of(balances_after(config, drones, structures, balances, settled), p)
            <= balance_of(balances, p),
        !settled.contains(p) ==> balances_after(config, drones, structures, balances, settled).contains_key(p)
            == balances.contains_key(p) && balance_of(
            balances_after(config, drones, structures, balances, settled),
            p,
        ) == balance_of(balances, p),
        !settled.contains(p) ==> deficits_after(
            config,
            drones,
            structures,
            balances,
            deficits,
            settled,
        ).contains_key(p) == deficits.contains_key(p) && balance_of(
            deficits_after(config, drones, structures, balances, deficits, settled),
            p,
        ) == balance_of(deficits, p),
{
    let due = upkeep_due(config, drones, structures, p);
    assert(0 <= due <= u32::MAX);
}

/// A player whose drones and structures stand in no room owes no upkeep.
pub proof fn lemma_no_rooms_no_upkeep(
    config: EmpireUpkeepConfig,
    drones: Seq<DroneState>,
    structures: Seq<StructureState>,
    p: PlayerId,
)
    requires
        rooms_held(drones, structures, p) == Set::<u64>::empty(),
    ensures
        upkeep_due(config, drones, structures, p) == 0,
{
    assert(room_count(drones, structures, p) == 0);
}

/// Degrading a controller never raises its downgrade timer, keeps its owner,
/// and takes at most one level, only once the timer has run out.
pub proof fn lemma_degrade_is_gradual(c: ControllerState, deficit: u32)
    ensures
        degraded(c, deficit).owner == c.owner,
        degraded(c, deficit).downgrade_timer <= c.downgrade_timer,
        degraded(c, deficit).downgrade_timer == 0 || degraded(c, deficit).downgrade_timer
            == c.downgrade_timer - deficit,
        degraded(c, deficit).level == c.level || (degraded(c, deficit).level == c.level - 1
            && degraded(c, deficit).downgrade_timer == 0),
{
}

/// Damage never heals: a damaged drone keeps everything but its hit points,
/// and loses at least one of them while it has any.
pub proof fn lemma_damage_never_heals(d: DroneState, deficit: u32)
    ensures
        damaged(d, deficit).entity == d.entity,
        damaged(d, deficit).owner == d.owner,
        damaged(d, deficit).room == d.room,
        damaged(d, deficit).age == d.age,
        damaged(d, deficit).hits <= d.hits,
        d.hits > 0 ==> damaged(d, deficit).hits < d.hits,
{
}

/// Each policy touches only what it names: `Degrade` leaves the drones alone
/// and marks nothing, `Damage` and `Despawn` leave the controllers alone, and
/// `Despawn` does not change the drones either.
pub proof fn lemma_policy_touches_only_its_target(
    config: EmpireUpkeepConfig,
    drones: Seq<DroneState>,
    structures: Seq<StructureState>,
    balances: Map<PlayerId, u32>,
    settled: Set<PlayerId>,
    controllers: Seq<ControllerState>,
)
    ensures
        config.onshortfall != ShortfallPolicy::Damage ==> drones_after(
            config,
            drones,
            structures,
            balances,
            settled,
        ) == drones,
        config.onshortfall != ShortfallPolicy::Degrade ==> controllers_after(
            config,
            drones,
            structures,
            balances,
            settled,
            controllers,
        ) == controllers,
        config.onshortfall == ShortfallPolicy::Degrade ==> death_marks(
            config,
            drones,
            structures,
            balances,
            settled,
        ) == Set::<u64>::empty(),
{
    assert(config.onshortfall != ShortfallPolicy::Damage ==> drones_after(
        config,
        drones,
        structures,
        balances,
        settled,
    ) =~= drones);
    assert(config.onshortfall != ShortfallPolicy::Degrade ==> controllers_after(
        config,
        drones,
        structures,
        balances,
        settled,
        controllers,
    ) =~= controllers);
    assert(config.onshortfall == ShortfallPolicy::Degrade ==> death_marks(
        config,
        drones,
        structures,
        balances,
        settled,
    ) =~= Set::<u64>::empty());
}

/// Under `Despawn` a player who falls short loses one drone a tick: all the
/// drones of one owner that are marked for death are the same entity.
pub proof fn lemma_despawn_marks_one_drone_per_player(
    config: EmpireUpkeepConfig,
    drones: Seq<DroneState>,
    structures: Seq<StructureState>,
    balances: Map<PlayerId, u32>,
    settled: Set<PlayerId>,
    i: int,
    j: int,
)
    requires
        config.onshortfall == ShortfallPolicy::Despawn,
        0 <= i < drones.len(),
        0 <= j < drones.len(),
        drones[i].owner == drones[j].owner,
        marked_for_death(config, drones, structures, balances, settled, i),
        marked_for_death(config, drones, structures, balances, settled, j),
    ensures
        drones[i].entity == drones[j].entity,
{
    assert(is_oldest_of_owner(drones, i));
    assert(is_oldest_of_owner(drones, j));
    assert(drones[i].owner == drones[j].owner);
}

/// Among the first `n` drones, one of `owner`'s is at least as old as every
/// other of its drones there, and has the smallest entity among equally old
/// ones.
proof fn lemma_oldest_in_prefix(drones: Seq<DroneState>, owner: PlayerId, n: int)
    requires
        0 <= n <= drones.len(),
        exists|i: int| 0 <= i < n && #[trigger] drones[i].owner == owner,
    ensures
        exists|k: int|
            0 <= k < n && #[trigger] drones[k].owner == owner && forall|j: int|
                0 <= j < n && #[trigger] drones[j].owner == owner ==> drones[j].age
                    < drones[k].age || (drones[j].age == drones[k].age && drones[k].entity
                    <= drones[j].entity),
    decreases n,
{
    let last = n - 1;
    if exists|i: int| 0 <= i < last && #[trigger] drones[i].owner == owner {
        lemma_oldest_in_prefix(drones, owner, last);
        let k0 = choose|k: int|
            0 <= k < last && #[trigger] drones[k].owner == owner && forall|j: int|
                0 <= j < last && #[trigger] drones[j].owner == owner ==> drones[j].age
                    < drones[k].age || (drones[j].age == drones[k].age && drones[k].entity
                    <= drones[j].entity);
        if drones[last].owner == owner && (drones[last].age > drones[k0].age || (drones[last].age
            == drones[k0].age && drones[last].entity < drones[k0].entity)) {
            assert forall|j: int|
                0 <= j < n && #[trigger] drones[j].owner == owner implies drones[j].age
                    < drones[last].age || (drones[j].age == drones[last].age
                    && drones[last].entity <= drones[j].entity) by {
                if j < last {
                    assert(drones[j].age < drones[k0].age || (drones[j].age == drones[k0].age
                        && drones[k0].entity <= drones[j].entity));
                }
            }
        } else {
            assert forall|j: int|
                0 <= j < n && #[trigger] drones[j].owner == owner implies drones[j].age
                    < drones[k0].age || (drones[j].age == drones[k0].age
                    && drones[k0].entity <= drones[j].entity) by {
                if j < last {
                    assert(drones[j].age < drones[k0].age || (drones[j].age == drones[k0].age
                        && drones[k0].entity <= drones[j].entity));
                }
            }
        }
    } else {
        assert forall|j: int|
            0 <= j < n && #[trigger] drones[j].owner == owner implies drones[j].age
                < drones[last].age || (drones[j].age == drones[last].age && drones[last].entity
                <= drones[j].entity) by {
            if j < last {
                assert(drones[j].owner == owner);
            }
        }
        assert(drones[last].owner == owner);
    }
}

/// Under `Despawn` a settled player who falls short and has drones loses one
/// of them: some drone of that player is marked for death.
pub proof fn lemma_despawn_marks_a_drone(
    config: EmpireUpkeepConfig,
    drones: Seq<DroneState>,
    structures: Seq<StructureState>,
    balances: Map<PlayerId, u32>,
    settled: Set<PlayerId>,
    i: int,
)
    requires
        config.onshortfall == ShortfallPolicy::Despawn,
        0 <= i < drones.len(),
        settled.contains(drones[i].owner),
        falls_short(config, drones, structures, balances, drones[i].owner),
    ensures
        exists|k: int|
            0 <= k < drones.len() && #[trigger] drones[k].owner == drones[i].owner
                && marked_for_death(config, drones, structures, balances, settled, k),
{
    let owner = drones[i].owner;
    lemma_oldest_in_prefix(drones, owner, drones.len() as int);
    let k = choose|k: int|
        0 <= k < drones.len() && #[trigger] drones[k].owner == owner && forall|j: int|
            0 <= j < drones.len() && #[trigger] drones[j].owner == owner ==> drones[j].age
                < drones[k].age || (drones[j].age == drones[k].age && drones[k].entity
                <= drones[j].entity);
    assert(is_oldest_of_owner(drones, k));
    assert(marked_for_death(config, drones, structures, balances, settled, k));
}

/// Only the base upkeep, the room soft cap and the shortfall policy steer a
/// tick: two configurations that agree on those settle every ledger, record
/// and world alike (the other values are carried for the engine's records).
pub proof fn lemma_only_cost_and_policy_matter(
    first: EmpireUpkeepConfig,
    second: EmpireUpkeepConfig,
    drones: Seq<DroneState>,
    structures: Seq<StructureState>,
    balances: Map<PlayerId, u32>,
    deficits: Map<PlayerId, u32>,
    settled: Set<PlayerId>,
    controllers: Seq<ControllerState>,
)
    requires
        first.base_upkeep == second.base_upkeep,
        first.room_soft_cap == second.room_soft_cap,
        first.onshortfall == second.onshortfall,
    ensures
        balances_after(first, drones, structures, balances, settled) == balances_after(
            second,
            drones,
            structures,
            balances,
            settled,
        ),
        deficits_after(first, drones, structures, balances, deficits, settled)
            == deficits_after(second, drones, structures, balances, deficits, settled),
        controllers_after(first, drones, structures, balances, settled, controllers)
            == controllers_after(second, drones, structures, balances, settled, controllers),
        drones_after(first, drones, structures, balances, settled) == drones_after(
            second,
            drones,
            structures,
            balances,
            settled,
        ),
        death_marks(first, drones, structures, balances, settled) == death_marks(
            second,
            drones,
            structures,
            balances,
            settled,
        ),
{
    assert forall|p: PlayerId|
        upkeep_due(first, drones, structures, p) == upkeep_due(second, drones, structures, p) by {
    }
    assert(balances_after(first, drones, structures, balances, settled) =~= balances_after(
        second,
        drones,
        structures,
        balances,
        settled,
    ));
    assert(deficits_after(first, drones, structures, balances, deficits, settled)
        =~= deficits_after(second, drones, structures, balances, deficits, settled));
    assert(controllers_after(first, drones, structures, balances, settled, controllers)
        =~= controllers_after(second, drones, structures, balances, settled, controllers));
    assert(drones_after(first, drones, structures, balances, settled) =~= drones_after(
        second,
        drones,
        structures,
        balances,
        settled,
    ));
    assert forall|i: int| 0 <= i < drones.len() implies marked_for_death(
        first,
        drones,
        structures,
        balances,
        settled,
        i,
    ) == marked_for_death(second, drones, structures, balances, settled, i) by {
        assert(drone_after(first, drones, structures, balances, settled, drones[i]) == drone_after(
            second,
            drones,
            structures,
            balances,
            settled,
            drones[i],
        ));
    }
    assert(death_marks(first, drones, structures, balances, settled) =~= death_marks(
        second,
        drones,
        structures,
        balances,
        settled,
    ));
}

/// Whether two listings hold the same drones, structures and controllers of
/// player `p`, each listing in its own order.
pub open spec fn same_holdings_of(
    p: PlayerId,
    drones1: Seq<DroneState>,
    structures1: Seq<StructureState>,
    controllers1: Seq<ControllerState>,
    drones2: Seq<DroneState>,
    structures2: Seq<StructureState>,
    controllers2: Seq<ControllerState>,
) -> bool {
    &&& forall|x: DroneState| x.owner == p ==> (drones1.contains(x) <==> drones2.contains(x))
    &&& forall|x: StructureState|
        x.owner == Some(p) ==> (structures1.contains(x) <==> structures2.contains(x))
    &&& forall|x: ControllerState|
        x.owner == Some(p) ==> (controllers1.contains(x) <==> controllers2.contains(x))
}

/// Whether two maps agree on the entry of `p`.
pub open spec fn same_entry(m1: Map<PlayerId, u32>, m2: Map<PlayerId, u32>, p: PlayerId) -> bool {
    &&& m1.contains_key(p) == m2.contains_key(p)
    &&& m1.contains_key(p) ==> m1[p] == m2[p]
}

/// Two listings with the same holdings of `p` give `p` the same rooms, the
/// same upkeep and the same standing as a payer.
proof fn lemma_same_holdings_same_due(
    config: EmpireUpkeepConfig,
    p: PlayerId,
    drones1: Seq<DroneState>,
    structures1: Seq<StructureState>,
    controllers1: Seq<ControllerState>,
    drones2: Seq<DroneState>,
    structures2: Seq<StructureState>,
    controllers2: Seq<ControllerState>,
)
    requires
        same_holdings_of(p, drones1, structures1, controllers1, drones2, structures2, controllers2),
    ensures
        rooms_held(drones1, structures1, p) == rooms_held(drones2, structures2, p),
        upkeep_due(config, drones1, structures1, p) == upkeep_due(config, drones2, structures2, p),
        pays_upkeep(drones1, structures1, controllers1, p) == pays_upkeep(
            drones2,
            structures2,
            controllers2,
            p,
        ),
        upkeep_payers(drones1, structures1, controllers1).contains(p) == upkeep_payers(
            drones2,
            structures2,
            controllers2,
        ).contains(p),
{
    assert forall|r: u64|
        holds_room(drones1, structures1, p, r) implies holds_room(drones2, structures2, p, r) by {
        if exists|i: int| 0 <= i < drones1.len() && #[trigger] drones1[i].owner == p && drones1[i].room == r {
            let i = choose|i: int| 0 <= i < drones1.len() && #[trigger] drones1[i].owner == p && drones1[i].room == r;
            assert(drones1.contains(drones1[i]));
            let j = choose|j: int| 0 <= j < drones2.len() && drones2[j] == drones1[i];
            assert(drones2[j].owner == p && drones2[j].room == r);
        } else {
            let i = choose|i: int|
                0 <= i < structures1.len() && #[trigger] structures1[i].owner == Some(p) && structures1[i].room == r;
            assert(structures1.contains(structures1[i]));
            let j = choose|j: int| 0 <= j < structures2.len() && structures2[j] == structures1[i];
            assert(structures2[j].owner == Some(p) && structures2[j].room == r);
        }
    }
    assert forall|r: u64|
        holds_room(drones2, structures2, p, r) implies holds_room(drones1, structures1, p, r) by {
        if exists|i: int| 0 <= i < drones2.len() && #[trigger] drones2[i].owner == p && drones2[i].room == r {
            let i = choose|i: int| 0 <= i < drones2.len() && #[trigger] drones2[i].owner == p && drones2[i].room == r;
            assert(drones2.contains(drones2[i]));
            let j = choose|j: int| 0 <= j < drones1.len() && drones1[j] == drones2[i];
            assert(drones1[j].owner == p && drones1[j].room == r);
        } else {
            let i = choose|i: int|
                0 <= i < structures2.len() && #[trigger] structures2[i].owner == Some(p) && structures2[i].room == r;
            assert(structures2.contains(structures2[i]));
            let j = choose|j: int| 0 <= j < structures1.len() && structures1[j] == structures2[i];
            assert(structures1[j].owner == Some(p) && structures1[j].room == r);
        }
    }
    assert(rooms_held(drones1, structures1, p) =~= rooms_held(drones2, structures2, p));
    lemma_same_payer(p, drones1, structures1, controllers1, drones2, structures2, controllers2);
    lemma_same_payer(p, drones2, structures2, controllers2, drones1, structures1, controllers1);
}

proof fn lemma_same_payer(
    p: PlayerId,
    drones1: Seq<DroneState>,
    structures1: Seq<StructureState>,
    controllers1: Seq<ControllerState>,
    drones2: Seq<DroneState>,
    structures2: Seq<StructureState>,
    controllers2: Seq<ControllerState>,
)
    requires
        same_holdings_of(p, drones1, structures1, controllers1, drones2, structures2, controllers2),
    ensures
        pays_upkeep(drones1, structures1, controllers1, p) ==> pays_upkeep(
            drones2,
            structures2,
            controllers2,
            p,
        ),
{
    if exists|i: int| 0 <= i < drones1.len() && #[trigger] drones1[i].owner == p {
        let i = choose|i: int| 0 <= i < drones1.len() && #[trigger] drones1[i].owner == p;
        assert(drones1.contains(drones1[i]));
        let j = choose|j: int| 0 <= j < drones2.len() && drones2[j] == drones1[i];
        assert(drones2[j].owner == p);
    } else if exists|i: int| 0 <= i < structures1.len() && #[trigger] structures1[i].owner == Some(p) {
        let i = choose|i: int| 0 <= i < structures1.len() && #[trigger] structures1[i].owner == Some(p);
        assert(structures1.contains(structures1[i]));
        let j = choose|j: int| 0 <= j < structures2.len() && structures2[j] == structures1[i];
        assert(structures2[j].owner == Some(p));
    } else if exists|i: int| 0 <= i < controllers1.len() && #[trigger] controllers1[i].owner == Some(p) {
        let i = choose|i: int| 0 <= i < controllers1.len() && #[trigger] controllers1[i].owner == Some(p);
        assert(controllers1.contains(controllers1[i]));
        let j = choose|j: int| 0 <= j < controllers2.len() && controllers2[j] == controllers1[i];
        assert(controllers2[j].owner == Some(p));
    }
}

/// A player's outcome depends on its own data only: two worlds that hold the
/// same drones, structures and controllers of `p` (in any order), with the
/// same balance and recorded shortfall for `p`, give `p` the same new
/// balance, the same recorded shortfall, the same drones and controllers, and
/// the same death marks on its drones, whatever the other players hold or own.
pub proof fn lemma_player_outcome_is_local(
    config: EmpireUpkeepConfig,
    p: PlayerId,
    drones1: Seq<DroneState>,
    structures1: Seq<StructureState>,
    controllers1: Seq<ControllerState>,
    balances1: Map<PlayerId, u32>,
    deficits1: Map<PlayerId, u32>,
    drones2: Seq<DroneState>,
    structures2: Seq<StructureState>,
    controllers2: Seq<ControllerState>,
    balances2: Map<PlayerId, u32>,
    deficits2: Map<PlayerId, u32>,
)
    requires
        same_holdings_of(p, drones1, structures1, controllers1, drones2, structures2, controllers2),
        same_entry(balances1, balances2, p),
        same_entry(deficits1, deficits2, p),
    ensures
        upkeep_payers(drones1, structures1, controllers1).contains(p) == upkeep_payers(
            drones2,
            structures2,
            controllers2,
        ).contains(p),
        upkeep_due(config, drones1, structures1, p) == upkeep_due(config, drones2, structures2, p),
        same_entry(
            balances_after(config, drones1, structures1, balances1, upkeep_payers(drones1, structures1, controllers1)),
            balances_after(config, drones2, structures2, balances2, upkeep_payers(drones2, structures2, controllers2)),
            p,
        ),
        same_entry(
            deficits_after(config, drones1, structures1, balances1, deficits1, upkeep_payers(drones1, structures1, controllers1)),
            deficits_after(config, drones2, structures2, balances2, deficits2, upkeep_payers(drones2, structures2, controllers2)),
            p,
        ),
        forall|x: DroneState|
            x.owner == p ==> drone_after(
                config,
                drones1,
                structures1,
                balances1,
                upkeep_payers(drones1, structures1, controllers1),
                x,
            ) == drone_after(
                config,
                drones2,
                structures2,
                balances2,
                upkeep_payers(drones2, structures2, controllers2),
                x,
            ),
        forall|c: ControllerState|
            c.owner == Some(p) ==> controller_after(
                config,
                drones1,
                structures1,
                balances1,
                upkeep_payers(drones1, structures1, controllers1),
                c,
            ) == controller_after(
                config,
                drones2,
                structures2,
                balances2,
                upkeep_payers(drones2, structures2, controllers2),
                c,
            ),
        forall|i: int, j: int|
            0 <= i < drones1.len() && 0 <= j < drones2.len() && drones1[i] == drones2[j]
                && drones1[i].owner == p ==> marked_for_death(
                config,
                drones1,
                structures1,
                balances1,
                upkeep_payers(drones1, structures1, controllers1),
                i,
            ) == marked_for_death(
                config,
                drones2,
                structures2,
                balances2,
                upkeep_payers(drones2, structures2, controllers2),
                j,
            ),
{
    lemma_same_holdings_same_due(config, p, drones1, structures1, controllers1, drones2, structures2, controllers2);
    assert(balance_of(balances1, p) == balance_of(balances2, p));
    assert forall|i: int, j: int|
        0 <= i < drones1.len() && 0 <= j < drones2.len() && drones1[i] == drones2[j]
            && drones1[i].owner == p implies is_oldest_of_owner(drones1, i) == is_oldest_of_owner(drones2, j) by {
        if is_oldest_of_owner(drones1, i) {
            assert forall|k: int| 0 <= k < drones2.len() && #[trigger] drones2[k].owner == drones2[j].owner implies
                drones2[k].age < drones2[j].age || (drones2[k].age == drones2[j].age && drones2[j].entity <= drones2[k].entity) by {
                assert(drones2.contains(drones2[k]));
                let m = choose|m: int| 0 <= m < drones1.len() && drones1[m] == drones2[k];
                assert(drones1[m].owner == drones1[i].owner);
            }
        }
        if is_oldest_of_owner(drones2, j) {
            assert forall|k: int| 0 <= k < drones1.len() && #[trigger] drones1[k].owner == drones1[i].owner implies
                drones1[k].age < drones1[i].age || (drones1[k].age == drones1[i].age && drones1[i].entity <= drones1[k].entity) by {
                assert(drones1.contains(drones1[k]));
                let m = choose|m: int| 0 <= m < drones2.len() && drones2[m] == drones1[k];
                assert(drones2[m].owner == drones2[j].owner);
            }
        }
    }
}

/// The order in which the engine lists drones, structures and controllers
/// does not matter: two listings of the same entities, with the same ledger
/// and shortfall record, settle every balance and shortfall alike, mark the
/// same entities for death, and leave every drone and controller the same.
pub proof fn lemma_listing_order_does_not_matter(
    config: EmpireUpkeepConfig,
    drones1: Seq<DroneState>,
    structures1: Seq<StructureState>,
    controllers1: Seq<ControllerState>,
    drones2: Seq<DroneState>,
    structures2: Seq<StructureState>,
    controllers2: Seq<ControllerState>,
    balances: Map<PlayerId, u32>,
    deficits: Map<PlayerId, u32>,
)
    requires
        forall|x: DroneState| drones1.contains(x) <==> drones2.contains(x),
        forall|x: StructureState| structures1.contains(x) <==> structures2.contains(x),
        forall|x: ControllerState| controllers1.contains(x) <==> controllers2.contains(x),
    ensures
        upkeep_payers(drones1, structures1, controllers1) == upkeep_payers(
            drones2,
            structures2,
            controllers2,
        ),
        balances_after(config, drones1, structures1, balances, upkeep_payers(drones1, structures1, controllers1))
            == balances_after(config, drones2, structures2, balances, upkeep_payers(drones2, structures2, controllers2)),
        deficits_after(config, drones1, structures1, balances, deficits, upkeep_payers(drones1, structures1, controllers1))
            == deficits_after(config, drones2, structures2, balances, deficits, upkeep_payers(drones2, structures2, controllers2)),
        death_marks(config, drones1, structures1, balances, upkeep_payers(drones1, structures1, controllers1))
            == death_marks(config, drones2, structures2, balances, upkeep_payers(drones2, structures2, controllers2)),
        forall|x: DroneState|
            drone_after(config, drones1, structures1, balances, upkeep_payers(drones1, structures1, controllers1), x)
                == drone_after(config, drones2, structures2, balances, upkeep_payers(drones2, structures2, controllers2), x),
        forall|c: ControllerState|
            controller_after(config, drones1, structures1, balances, upkeep_payers(drones1, structures1, controllers1), c)
                == controller_after(config, drones2, structures2, balances, upkeep_payers(drones2, structures2, controllers2), c),
{
    let payers1 = upkeep_payers(drones1, structures1, controllers1);
    let payers2 = upkeep_payers(drones2, structures2, controllers2);
    assert forall|p: PlayerId| payers1.contains(p) == payers2.contains(p) by {
        lemma_player_outcome_is_local(config, p, drones1, structures1, controllers1, balances, deficits,
            drones2, structures2, controllers2, balances, deficits);
    }
    assert(payers1 =~= payers2);
    assert forall|p: PlayerId|
        #![trigger balances_after(config, drones1, structures1, balances, payers1)[p]]
        #![trigger deficits_after(config, drones1, structures1, balances, deficits, payers1)[p]]
        same_entry(
            balances_after(config, drones1, structures1, balances, payers1),
            balances_after(config, drones2, structures2, balances, payers2),
            p,
        ) && same_entry(
            deficits_after(config, drones1, structures1, balances, deficits, payers1),
            deficits_after(config, drones2, structures2, balances, deficits, payers2),
            p,
        ) && upkeep_due(config, drones1, structures1, p) == upkeep_due(config, drones2, structures2, p) by {
        lemma_player_outcome_is_local(config, p, drones1, structures1, controllers1, balances, deficits,
            drones2, structures2, controllers2, balances, deficits);
    }
    assert(balances_after(config, drones1, structures1, balances, payers1)
        =~= balances_after(config, drones2, structures2, balances, payers2));
    assert(deficits_after(config, drones1, structures1, balances, deficits, payers1)
        =~= deficits_after(config, drones2, structures2, balances, deficits, payers2)) by {
        assert forall|p: PlayerId|
            #![trigger deficits_after(config, drones1, structures1, balances, deficits, payers1).contains_key(p)]
            #![trigger deficits_after(config, drones2, structures2, balances, deficits, payers2).contains_key(p)]
            same_entry(
                deficits_after(config, drones1, structures1, balances, deficits, payers1),
                deficits_after(config, drones2, structures2, balances, deficits, payers2),
                p,
            ) by {
            lemma_player_outcome_is_local(config, p, drones1, structures1, controllers1, balances, deficits,
                drones2, structures2, controllers2, balances, deficits);
        }
    }
    assert forall|x: DroneState|
        drone_after(config, drones1, structures1, balances, payers1, x)
            == drone_after(config, drones2, structures2, balances, payers2, x) by {
        lemma_player_outcome_is_local(config, x.owner, drones1, structures1, controllers1, balances, deficits,
            drones2, structures2, controllers2, balances, deficits);
    }
    assert forall|c: ControllerState|
        controller_after(config, drones1, structures1, balances, payers1, c)
            == controller_after(config, drones2, structures2, balances, payers2, c) by {
        if c.owner is Some {
            lemma_player_outcome_is_local(config, c.owner->0, drones1, structures1, controllers1, balances, deficits,
                drones2, structures2, controllers2, balances, deficits);
        }
    }
    assert forall|e: u64|
        death_marks(config, drones1, structures1, balances, payers1).contains(e)
            == death_marks(config, drones2, structures2, balances, payers2).contains(e) by {
        if death_marks(config, drones1, structures1, balances, payers1).contains(e) {
            let i = choose|i: int| 0 <= i < drones1.len() && #[trigger] drones1[i].entity == e
                && marked_for_death(config, drones1, structures1, balances, payers1, i);
            assert(drones1.contains(drones1[i]));
            let j = choose|j: int| 0 <= j < drones2.len() && drones2[j] == drones1[i];
            lemma_player_outcome_is_local(config, drones1[i].owner, drones1, structures1, controllers1, balances, deficits,
                drones2, structures2, controllers2, balances, deficits);
            assert(drones2[j].entity == e);
        }
        if death_marks(config, drones2, structures2, balances, payers2).contains(e) {
            let j = choose|j: int| 0 <= j < drones2.len() && #[trigger] drones2[j].entity == e
                && marked_for_death(config, drones2, structures2, balances, payers2, j);
            assert(drones2.contains(drones2[j]));
            let i = choose|i: int| 0 <= i < drones1.len() && drones1[i] == drones2[j];
            lemma_player_outcome_is_local(config, drones2[j].owner, drones1, structures1, controllers1, balances, deficits,
                drones2, structures2, controllers2, balances, deficits);
            assert(drones1[i].entity == e);
        }
    }
    assert(death_marks(config, drones1, structures1, balances, payers1)
        =~= death_marks(config, drones2, structures2, balances, payers2));
}

/// Under `Degrade` a controller of a player who fell short has its downgrade
/// timer run down by exactly the shortfall recorded for that player (stopping
/// at zero), and loses one level whenever its timer ends the tick at zero,
/// whether or not the timer had already run out before; the controllers of
/// every other player are left as they were.
pub proof fn lemma_degrade_runs_timer_down_by_the_shortfall(
    config: EmpireUpkeepConfig,
    drones: Seq<DroneState>,
    structures: Seq<StructureState>,
    balances: Map<PlayerId, u32>,
    deficits: Map<PlayerId, u32>,
    settled: Set<PlayerId>,
    controllers: Seq<ControllerState>,
    k: int,
)
    requires
        config.onshortfall == ShortfallPolicy::Degrade,
        0 <= k < controllers.len(),
    ensures
        ({
            let before = controllers[k];
            let after = controllers_after(config, drones, structures, balances, settled, controllers)[k];
            let recorded = deficits_after(config, drones, structures, balances, deficits, settled);
            let short = before.owner is Some && settled.contains(before.owner->0)
                && recorded.contains_key(before.owner->0);
            &&& controllers_after(config, drones, structures, balances, settled, controllers).len()
                == controllers.len()
            &&& after.owner == before.owner
            &&& short ==> after.downgrade_timer == (if before.downgrade_timer >= recorded[before.owner->0] {
                before.downgrade_timer - recorded[before.owner->0]
            } else {
                0
            })
            &&& short && after.downgrade_timer == 0 && before.level > 0 ==> after.level == before.level - 1
            &&& after.downgrade_timer != 0 ==> after.level == before.level
            &&& before.level == 0 ==> after.level == 0
            &&& !short ==> after == before
        }),
{
    let due_ok = upkeep_due(config, drones, structures, controllers[k].owner->0);
    assert(0 <= due_ok <= u32::MAX);
}

/// Under `Damage` every drone of a player who fell short loses exactly the
/// shortfall recorded for that player, and at least one hit point (stopping
/// at zero); it keeps its entity, owner, room and age. The drones of every
/// other player are left as they were. Such a drone is marked for death when
/// its hit points end the tick at zero.
pub proof fn lemma_damage_takes_the_shortfall(
    config: EmpireUpkeepConfig,
    drones: Seq<DroneState>,
    structures: Seq<StructureState>,
    balances: Map<PlayerId, u32>,
    deficits: Map<PlayerId, u32>,
    settled: Set<PlayerId>,
    i: int,
)
    requires
        config.onshortfall == ShortfallPolicy::Damage,
        0 <= i < drones.len(),
    ensures
        ({
            let before = drones[i];
            let after = drones_after(config, drones, structures, balances, settled)[i];
            let recorded = deficits_after(config, drones, structures, balances, deficits, settled);
            let short = settled.contains(before.owner) && recorded.contains_key(before.owner);
            let loss: int = if recorded[before.owner] > 1 { recorded[before.owner] as int } else { 1 };
            &&& drones_after(config, drones, structures, balances, settled).len() == drones.len()
            &&& after.entity == before.entity
            &&& after.owner == before.owner
            &&& after.room == before.room
            &&& after.age == before.age
            &&& short ==> after.hits == (if before.hits >= loss { before.hits - loss } else { 0 })
            &&& !short ==> after == before
            &&& short && after.hits == 0 ==> death_marks(
                config,
                drones,
                structures,
                balances,
                settled,
            ).contains(before.entity)
        }),
{
    let due = upkeep_due(config, drones, structures, drones[i].owner);
    assert(0 <= due <= u32::MAX);
    let after = drones_after(config, drones, structures, balances, settled)[i];
    let recorded = deficits_after(config, drones, structures, balances, deficits, settled);
    if settled.contains(drones[i].owner) && recorded.contains_key(drones[i].owner) && after.hits == 0 {
        assert(marked_for_death(config, drones, structures, balances, settled, i));
    }
}

/// Under `Damage` only dead drones are marked: every entity marked for death
/// belongs to a drone of a player who fell short whose hit points end the
/// tick at zero.
pub proof fn lemma_damage_marks_only_dead_drones(
    config: EmpireUpkeepConfig,
    drones: Seq<DroneState>,
    structures: Seq<StructureState>,
    balances: Map<PlayerId, u32>,
    deficits: Map<PlayerId, u32>,
    settled: Set<PlayerId>,
    e: u64,
)
    requires
        config.onshortfall == ShortfallPolicy::Damage,
        death_marks(config, drones, structures, balances, settled).contains(e),
    ensures
        exists|i: int|
            0 <= i < drones.len() && #[trigger] drones[i].entity == e && settled.contains(
                drones[i].owner,
            ) && deficits_after(
                config,
                drones,
                structures,
                balances,
                deficits,
                settled,
            ).contains_key(drones[i].owner) && drones_after(
                config,
                drones,
                structures,
                balances,
                settled,
            )[i].hits == 0,
{
    let i = choose|i: int|
        0 <= i < drones.len() && #[trigger] drones[i].entity == e && marked_for_death(
            config,
            drones,
            structures,
            balances,
            settled,
            i,
        );
    assert(drones_after(config, drones, structures, balances, settled)[i] == drone_after(
        config,
        drones,
        structures,
        balances,
        settled,
        drones[i],
    ));
}

/// Under `Despawn` every entity marked for death is a drone of a player who
/// fell short, and the oldest of that player's drones: no drone of the same
/// owner is older, and among equally old ones it has the smallest entity.
/// Hit points play no part in the choice.
pub proof fn lemma_despawn_marks_the_oldest(
    config: EmpireUpkeepConfig,
    drones: Seq<DroneState>,
    structures: Seq<StructureState>,
    balances: Map<PlayerId, u32>,
    deficits: Map<PlayerId, u32>,
    settled: Set<PlayerId>,
    e: u64,
)
    requires
        config.onshortfall == ShortfallPolicy::Despawn,
        death_marks(config, drones, structures, balances, settled).contains(e),
    ensures
        exists|i: int|
            0 <= i < drones.len() && #[trigger] drones[i].entity == e && settled.contains(
                drones[i].owner,
            ) && deficits_after(
                config,
                drones,
                structures,
                balances,
                deficits,
                settled,
            ).contains_key(drones[i].owner) && forall|j: int|
                0 <= j < drones.len() && drones[j].owner == drones[i].owner ==> drones[j].age
                    < drones[i].age || (drones[j].age == drones[i].age && drones[i].entity
                    <= drones[j].entity),
{
    let i = choose|i: int|
        0 <= i < drones.len() && #[trigger] drones[i].entity == e && marked_for_death(
            config,
            drones,
            structures,
            balances,
            settled,
            i,
        );
    assert forall|j: int|
        0 <= j < drones.len() && drones[j].owner == drones[i].owner implies drones[j].age
            < drones[i].age || (drones[j].age == drones[i].age && drones[i].entity
            <= drones[j].entity) by {
        assert(is_oldest_of_owner(drones, i));
        assert(drones[j].owner == drones[i].owner);
    }
}

} // verus!
