//! Upkeep configuration and the upkeep formula.
use vstd::prelude::*;

verus! {

/// What happens to a player whose balance does not cover the upkeep.
#[derive(Debug, Clone, Copy, PartialEq, Eq, Structural)]
pub enum ShortfallPolicy {
    /// Run down the downgrade timer of the player's controllers.
    Degrade,
    /// Damage every drone of the player.
    Damage,
    /// Mark the oldest drone of the player for death.
    Despawn,
}

/// Runtime configuration of the upkeep rules.
#[derive(Debug, Clone)]
pub struct EmpireUpkeepConfig {
    pub base_upkeep: u32,
    pub room_soft_cap: u32,
    pub controller_passive_income: u32,
    pub controller_passive_income_rcl_bonus: u32,
    pub resource: String,
    pub repair_cap: u32,
    pub distance_decay_bp: u32,
    pub recycle_refund_base: u32,
    pub recycle_refund_min: u32,
    pub tutorial_recycle_refund_full_ticks: u64,
    pub onshortfall: ShortfallPolicy,
}

/// The ten versioned values of the mod's config schema, as the engine
/// decodes them (the shortfall policy is not part of the schema).
#[derive(Debug, Clone)]
pub struct EmpireUpkeepNativeConfig {
    pub base_upkeep: u32,
    pub room_soft_cap: u32,
    pub controller_passive_income: u32,
    pub controller_passive_income_rcl_bonus: u32,
    pub resource: String,
    pub repair_cap: u32,
    pub distance_decay_bp: u32,
    pub recycle_refund_base: u32,
    pub recycle_refund_min: u32,
    pub tutorial_recycle_refund_full_ticks: u64,
}

/// `x` saturated to the range of `u64`.
pub open spec fn clamp_u64(x: int) -> int {
    if x > u64::MAX { u64::MAX as int } else { x }
}

/// `x` saturated to the range of `u32`.
pub open spec fn clamp_u32(x: int) -> int {
    if x > u32::MAX { u32::MAX as int } else { x }
}

/// The upkeep charged for `rooms` rooms: nothing without rooms or without a
/// soft cap, else `base × rooms × (cap + rooms) / cap`, where the product
/// saturates at `u64::MAX` and the quotient at `u32::MAX`.
pub open spec fn spec_upkeep_cost(base: u32, cap: u32, rooms: u32) -> int {
    if rooms == 0 || cap == 0 {
        0
    } else {
        clamp_u32(clamp_u64(base * rooms * (cap + rooms)) / (cap as int))
    }
}

proof fn lemma_u32_product_fits_u64(a: u32, b: u32)
    ensures
        a * b <= u64::MAX,
{
    assert(a * b <= u32::MAX * u32::MAX) by (nonlinear_arith)
        requires
            a <= u32::MAX,
            b <= u32::MAX,
    ;
}

impl Default for EmpireUpkeepConfig {
    /// The defaults of the mod's config schema, with the `Degrade` policy.
    fn default() -> (config: Self)
        ensures
            config.has_default_values(),
    {
        EmpireUpkeepConfig {
            base_upkeep: 50,
            room_soft_cap: 10,
            controller_passive_income: 40,
            controller_passive_income_rcl_bonus: 5,
            resource: "Energy".to_owned(),
            repair_cap: 3_500,
            distance_decay_bp: 500,
            recycle_refund_base: 5_000,
            recycle_refund_min: 1_000,
            tutorial_recycle_refund_full_ticks: 500,
            onshortfall: ShortfallPolicy::Degrade,
        }
    }
}

impl EmpireUpkeepConfig {
    /// Whether this is the default configuration: the defaults of the mod's
    /// config schema, with the `Degrade` policy.
    pub open spec fn has_default_values(&self) -> bool {
        &&& self.base_upkeep == 50
        &&& self.room_soft_cap == 10
        &&& self.controller_passive_income == 40
        &&& self.controller_passive_income_rcl_bonus == 5
        &&& self.resource@ == "Energy"@
        &&& self.repair_cap == 3_500
        &&& self.distance_decay_bp == 500
        &&& self.recycle_refund_base == 5_000
        &&& self.recycle_refund_min == 1_000
        &&& self.tutorial_recycle_refund_full_ticks == 500
        &&& self.onshortfall == ShortfallPolicy::Degrade
    }

    /// The runtime configuration the engine installs for a decoded config:
    /// every schema value carried over unchanged, and the shortfall policy
    /// fixed to `Degrade`, which is the only one the engine entry offers.
    pub fn from_native(native: EmpireUpkeepNativeConfig) -> (config: Self)
        ensures
            config.base_upkeep == native.base_upkeep,
            config.room_soft_cap == native.room_soft_cap,
            config.controller_passive_income == native.controller_passive_income,
            config.controller_passive_income_rcl_bonus == native.controller_passive_income_rcl_bonus,
            config.resource@ == native.resource@,
            config.repair_cap == native.repair_cap,
            config.distance_decay_bp == native.distance_decay_bp,
            config.recycle_refund_base == native.recycle_refund_base,
            config.recycle_refund_min == native.recycle_refund_min,
            config.tutorial_recycle_refund_full_ticks == native.tutorial_recycle_refund_full_ticks,
            config.onshortfall == ShortfallPolicy::Degrade,
    {
        EmpireUpkeepConfig {
            base_upkeep: native.base_upkeep,
            room_soft_cap: native.room_soft_cap,
            controller_passive_income: native.controller_passive_income,
            controller_passive_income_rcl_bonus: native.controller_passive_income_rcl_bonus,
            resource: native.resource,
            repair_cap: native.repair_cap,
            distance_decay_bp: native.distance_decay_bp,
            recycle_refund_base: native.recycle_refund_base,
            recycle_refund_min: native.recycle_refund_min,
            tutorial_recycle_refund_full_ticks: native.tutorial_recycle_refund_full_ticks,
            onshortfall: ShortfallPolicy::Degrade,
        }
    }

    /// The upkeep this configuration charges for `rooms` rooms.
    pub open spec fn cost_for(&self, rooms: u32) -> int {
        spec_upkeep_cost(self.base_upkeep, self.room_soft_cap, rooms)
    }

    /// The upkeep for one tick of a player holding `rooms` rooms.
    pub fn upkeep_cost(&self, rooms: u32) -> (cost: u32)
        ensures
            cost == self.cost_for(rooms),
    {
        if rooms == 0 || self.room_soft_cap == 0 {
            return 0;
        }
        let rooms64 = rooms as u64;
        let cap64 = self.room_soft_cap as u64;
        let base64 = self.base_upkeep as u64;
        proof {
            lemma_u32_product_fits_u64(self.base_upkeep, rooms);
        }
        let per_room_total = base64 * rooms64;
        let grown = match per_room_total.checked_mul(cap64 + rooms64) {
            Some(v) => v,
            None => u64::MAX,
        };
        let cost = grown / cap64;
        if cost > u32::MAX as u64 {
            u32::MAX
        } else {
            cost as u32
        }
    }
}

/// Without saturation the upkeep is the documented formula
/// `base × rooms × (cap + rooms) / cap` (rounded down), which splits into a
/// linear part `base × rooms` and a quadratic part `base × rooms² / cap`:
/// the upkeep grows super-linearly with the number of rooms.
pub proof fn lemma_upkeep_formula(base: u32, cap: u32, rooms: u32)
    requires
        cap > 0,
        base * rooms * (cap + rooms) <= u64::MAX,
        base * rooms * (cap + rooms) / (cap as int) <= u32::MAX,
    ensures
        spec_upkeep_cost(base, cap, rooms) == base * rooms * (cap + rooms) / (cap as int),
        spec_upkeep_cost(base, cap, rooms) == base * rooms + (base * rooms * rooms) / (cap as int),
        spec_upkeep_cost(base, cap, rooms) >= base * rooms,
{
    let br = base * rooms;
    assert(br * (cap + rooms) == br * cap + br * rooms) by (nonlinear_arith);
    assert((br * cap + br * rooms) / (cap as int) == br + (br * rooms) / (cap as int)) by (nonlinear_arith)
        requires
            cap > 0,
            br >= 0,
            rooms >= 0,
    ;
    assert(br * rooms >= 0) by (nonlinear_arith)
        requires
            br >= 0,
            rooms >= 0,
    ;
    assert((br * rooms) / (cap as int) >= 0) by (nonlinear_arith)
        requires
            br * rooms >= 0,
            cap > 0,
    ;
}

/// A player never pays less upkeep for holding more rooms.
pub proof fn lemma_upkeep_monotone_in_rooms(base: u32, cap: u32, fewer: u32, more: u32)
    requires
        fewer <= more,
    ensures
        spec_upkeep_cost(base, cap, fewer) <= spec_upkeep_cost(base, cap, more),
{
    if fewer == 0 || cap == 0 {
        assert(spec_upkeep_cost(base, cap, fewer) == 0);
        if more > 0 && cap > 0 {
            let x = clamp_u64(base * more * (cap + more));
            assert(base * more * (cap + more) >= 0) by (nonlinear_arith)
                requires
                    base >= 0,
                    more >= 0,
                    cap >= 0,
            ;
            assert(x / (cap as int) >= 0) by (nonlinear_arith)
                requires
                    x >= 0,
                    cap > 0,
            ;
        }
    } else {
        let a = base * fewer * (cap + fewer);
        let b = base * more * (cap + more);
        assert(a <= b) by (nonlinear_arith)
            requires
                0 <= base,
                0 < fewer <= more,
                0 <= cap,
                a == base * fewer * (cap + fewer),
                b == base * more * (cap + more),
        ;
        let ca = clamp_u64(a);
        let cb = clamp_u64(b);
        assert(ca <= cb);
        assert(ca / (cap as int) <= cb / (cap as int)) by (nonlinear_arith)
            requires
                ca <= cb,
                cap > 0,
        ;
    }
}

} // verus!
