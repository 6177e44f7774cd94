//! Empire-size upkeep for the swarm engine.
//!
//! Every tick each player pays an energy upkeep that grows super-linearly
//! with the number of rooms the player holds:
//! `upkeep = base_upkeep × rooms × (room_soft_cap + rooms) / room_soft_cap`.
//! A player who cannot pay is left with an empty balance, the unpaid part is
//! recorded as a shortfall, and the configured shortfall policy is applied to
//! the player's controllers or drones.
//!
//! The engine integration (bevy resources, queries and commands) lives
//! outside this crate; here the world is handed over as plain values.
use vstd::prelude::*;

pub mod config;
pub mod descriptor;
pub mod holdings;
pub mod laws;
pub mod ledger;
pub mod system;
pub mod world;

pub use config::{EmpireUpkeepConfig, EmpireUpkeepNativeConfig, ShortfallPolicy};
pub use descriptor::{
    config_field, engine_descriptor, plugin_descriptor, update_system, ConfigDefault,
    ConfigFieldSpec, ConfigRule, ConfigValueKind, EmpireUpkeepModPlugin, PluginSpec, SystemPhase,
    SystemSpec,
};
pub use ledger::{PlayerEnergyLedger, UpkeepShortfalls};
pub use system::empire_upkeep_system;
pub use world::{ControllerState, DroneState, PlayerId, RoomId, StructureState};
