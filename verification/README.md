# swarm-mod-empire-upkeep

Empire-size upkeep for the swarm engine: every tick each player pays
`base_upkeep × rooms × (room_soft_cap + rooms) / room_soft_cap` energy for the
rooms its drones and structures stand in; a player who cannot pay keeps an
empty balance, the unpaid part is recorded, and the configured shortfall
policy (`Degrade`, `Damage`, `Despawn`) is applied.

Layout:

- `src/` — the library, with its specification and proofs:
  - `config.rs`: the configuration, its defaults, the engine's decoded
    config, and the upkeep formula with its laws;
  - `world.rs`: drones, structures and controllers as plain values, and who
    holds which rooms;
  - `holdings.rs`: the rooms of each paying player, and the players in
    increasing order;
  - `system.rs`: one upkeep tick and its specification;
  - `laws.rs`: properties of a tick that hold for every world;
  - `ledger.rs`: the standalone energy ledger and shortfall record;
  - `descriptor.rs`: the mod's descriptor and config schema.
- `tests/` — tests of the library.
- `app/` — the bevy plugins, the engine's `register` entry and the bevy
  system that feeds the world to the library and writes the outcome back.
