//! The self-contained energy ledger and the record of unpaid upkeep.
use std::collections::BTreeMap;
use vstd::prelude::*;

use crate::world::PlayerId;

verus! {

/// Energy balance of each player, for a standalone run of the upkeep rules.
#[derive(Debug, Clone)]
pub struct PlayerEnergyLedger {
    pub balances: BTreeMap<PlayerId, u32>,
}

/// The upkeep a player could not pay at the last tick it fell short.
#[derive(Debug, Clone)]
pub struct UpkeepShortfalls {
    pub deficits: BTreeMap<PlayerId, u32>,
}

impl Default for PlayerEnergyLedger {
    /// A ledger with no balances.
    fn default() -> (ledger: Self)
        ensures
            ledger.balances@ == Map::<PlayerId, u32>::empty(),
    {
        PlayerEnergyLedger { balances: BTreeMap::new() }
    }
}

impl Default for UpkeepShortfalls {
    /// No recorded shortfalls.
    fn default() -> (shortfalls: Self)
        ensures
            shortfalls.deficits@ == Map::<PlayerId, u32>::empty(),
    {
        UpkeepShortfalls { deficits: BTreeMap::new() }
    }
}

} // verus!
