use swarm_mod_empire_upkeep::{
    config_field, engine_descriptor, ConfigDefault, ConfigRule, ConfigValueKind,
    EmpireUpkeepConfig, EmpireUpkeepModPlugin, EmpireUpkeepNativeConfig, PlayerEnergyLedger,
    ShortfallPolicy, SystemPhase, UpkeepShortfalls,
};

const API: &str = "1.2.3";
const SCHEMA: &str = "4";

const SCHEMA_KEYS: [&str; 10] = [
    "base_upkeep",
    "room_soft_cap",
    "controller_passive_income",
    "controller_passive_income_rcl_bonus",
    "resource",
    "repair_cap",
    "distance_decay_bp",
    "recycle_refund_base",
    "recycle_refund_min",
    "tutorial_recycle_refund_full_ticks",
];

#[test]
fn default_upkeep_policy_degrades_on_shortfall() {
    let config = EmpireUpkeepConfig::default();

    assert_eq!(config.base_upkeep, 50);
    assert_eq!(config.room_soft_cap, 10);
    assert_eq!(config.onshortfall, ShortfallPolicy::Degrade);
}

#[test]
fn ledgers_start_empty() {
    assert!(PlayerEnergyLedger::default().balances.is_empty());
    assert!(UpkeepShortfalls::default().deficits.is_empty());
}

#[test]
fn descriptor_is_valid_and_identifies_empire_upkeep() {
    let descriptor = EmpireUpkeepModPlugin::descriptor(API, SCHEMA);
    assert_eq!(descriptor.id, "empire-upkeep");
    assert_eq!(descriptor.api_version, API);
    assert_eq!(descriptor.descriptor_schema_version, SCHEMA);
    assert_eq!(descriptor.config.len(), 10);
    assert_eq!(descriptor.systems.len(), 1);
    assert_eq!(
        descriptor
            .config
            .iter()
            .map(|field| field.key.as_str())
            .collect::<Vec<_>>(),
        SCHEMA_KEYS
    );
    assert!(descriptor.dependencies.is_empty());
    assert_eq!(
        descriptor.systems[0].writes,
        [
            "PlayerEnergyLedger",
            "UpkeepShortfalls",
            "Controller",
            "Drone",
            "DeathMark",
        ]
    );
}

#[test]
fn native_register_maps_every_canonical_config_value_into_the_runtime_resource() {
    let config = EmpireUpkeepConfig::from_native(EmpireUpkeepNativeConfig {
        base_upkeep: 999,
        room_soft_cap: 77,
        controller_passive_income: 88,
        controller_passive_income_rcl_bonus: 9,
        resource: "Crystal".to_string(),
        repair_cap: 1234,
        distance_decay_bp: 4321,
        recycle_refund_base: 6789,
        recycle_refund_min: 456,
        tutorial_recycle_refund_full_ticks: 42,
    });
    let descriptor = engine_descriptor(API, SCHEMA);
    assert_eq!(descriptor.version, "0.1.0");
    assert!(descriptor.systems.is_empty());
    assert!(descriptor.actions.is_empty());
    assert_eq!(descriptor.config.len(), 10);
    assert_eq!(
        descriptor
            .config
            .iter()
            .map(|field| field.key.as_str())
            .collect::<Vec<_>>(),
        SCHEMA_KEYS
    );

    assert_eq!(config.base_upkeep, 999);
    assert_eq!(config.room_soft_cap, 77);
    assert_eq!(config.controller_passive_income, 88);
    assert_eq!(config.controller_passive_income_rcl_bonus, 9);
    assert_eq!(config.resource, "Crystal");
    assert_eq!(config.repair_cap, 1234);
    assert_eq!(config.distance_decay_bp, 4321);
    assert_eq!(config.recycle_refund_base, 6789);
    assert_eq!(config.recycle_refund_min, 456);
    assert_eq!(config.tutorial_recycle_refund_full_ticks, 42);
    assert_eq!(config.onshortfall, ShortfallPolicy::Degrade);
}

#[test]
fn default_config_has_every_schema_default() {
    let config = EmpireUpkeepConfig::default();
    assert_eq!(config.controller_passive_income, 40);
    assert_eq!(config.controller_passive_income_rcl_bonus, 5);
    assert_eq!(config.resource, "Energy");
    assert_eq!(config.repair_cap, 3_500);
    assert_eq!(config.distance_decay_bp, 500);
    assert_eq!(config.recycle_refund_base, 5_000);
    assert_eq!(config.recycle_refund_min, 1_000);
    assert_eq!(config.tutorial_recycle_refund_full_ticks, 500);
}

#[test]
fn schema_defaults_agree_with_the_default_config() {
    let config = EmpireUpkeepConfig::default();
    let descriptor = EmpireUpkeepModPlugin::descriptor(API, SCHEMA);
    let numbers: Vec<Option<u64>> = descriptor
        .config
        .iter()
        .map(|field| match &field.default {
            ConfigDefault::Number(n) => Some(*n),
            ConfigDefault::Text(_) => None,
        })
        .collect();
    assert_eq!(numbers[0], Some(u64::from(config.base_upkeep)));
    assert_eq!(numbers[1], Some(u64::from(config.room_soft_cap)));
    assert_eq!(numbers[2], Some(u64::from(config.controller_passive_income)));
    assert_eq!(numbers[3], Some(u64::from(config.controller_passive_income_rcl_bonus)));
    assert_eq!(numbers[5], Some(u64::from(config.repair_cap)));
    assert_eq!(numbers[6], Some(u64::from(config.distance_decay_bp)));
    assert_eq!(numbers[7], Some(u64::from(config.recycle_refund_base)));
    assert_eq!(numbers[8], Some(u64::from(config.recycle_refund_min)));
    assert_eq!(numbers[9], Some(config.tutorial_recycle_refund_full_ticks));
    match &descriptor.config[4].default {
        ConfigDefault::Text(t) => assert_eq!(t, &config.resource),
        ConfigDefault::Number(_) => panic!("resource default must be a text"),
    }
}

#[test]
fn schema_types_and_validators() {
    let descriptor = EmpireUpkeepModPlugin::descriptor(API, SCHEMA);
    let kinds: Vec<ConfigValueKind> = descriptor.config.iter().map(|f| f.value_type).collect();
    assert_eq!(
        kinds,
        vec![
            ConfigValueKind::U32,
            ConfigValueKind::U32,
            ConfigValueKind::U32,
            ConfigValueKind::U32,
            ConfigValueKind::Text,
            ConfigValueKind::BasisPoints,
            ConfigValueKind::BasisPoints,
            ConfigValueKind::BasisPoints,
            ConfigValueKind::BasisPoints,
            ConfigValueKind::U64,
        ]
    );
    let rules: Vec<Option<ConfigRule>> = descriptor.config.iter().map(|f| f.validator).collect();
    assert_eq!(rules[0], None);
    assert_eq!(rules[1], Some(ConfigRule::Positive));
    assert_eq!(rules[4], Some(ConfigRule::NonEmptyString));
    assert_eq!(rules[5], Some(ConfigRule::BasisPoints));
    assert_eq!(rules[9], None);
    assert!(descriptor.config.iter().all(|f| !f.required));
}

#[test]
fn standalone_system_reads_and_iterates_by_player() {
    let descriptor = EmpireUpkeepModPlugin::descriptor(API, SCHEMA);
    let system = &descriptor.systems[0];
    assert_eq!(system.system_id, "empire-upkeep.update");
    assert_eq!(system.version, "0.1.0");
    assert_eq!(system.order, 0);
    assert_eq!(system.phase, SystemPhase::Update);
    assert!(system.produces_buffers.is_empty());
    assert!(system.consumes_buffers.is_empty());
    assert!(descriptor.actions.is_empty());
    assert_eq!(
        system.reads,
        [
            "EmpireUpkeepConfig",
            "PlayerEnergyLedger",
            "Drone",
            "Position",
            "Structure",
            "Controller",
        ]
    );
    assert_eq!(system.deterministic_iteration, ["PlayerId"]);
}

#[test]
fn config_field_is_optional() {
    let field = config_field("k", ConfigValueKind::U64, ConfigDefault::Number(7), None);
    assert_eq!(field.key, "k");
    assert!(!field.required);
    assert_eq!(field.value_type, ConfigValueKind::U64);
    assert!(matches!(field.default, ConfigDefault::Number(7)));
    assert_eq!(field.validator, None);
}

#[test]
fn from_native_keeps_resource_and_forces_degrade() {
    let config = EmpireUpkeepConfig::from_native(EmpireUpkeepNativeConfig {
        base_upkeep: 1,
        room_soft_cap: 2,
        controller_passive_income: 3,
        controller_passive_income_rcl_bonus: 4,
        resource: "Energy".to_string(),
        repair_cap: 5,
        distance_decay_bp: 6,
        recycle_refund_base: 7,
        recycle_refund_min: 8,
        tutorial_recycle_refund_full_ticks: u64::MAX,
    });
    assert_eq!(config.resource, "Energy");
    assert_eq!(config.tutorial_recycle_refund_full_ticks, u64::MAX);
    assert_eq!(config.onshortfall, ShortfallPolicy::Degrade);
}

#[test]
fn descriptors_carry_the_engine_versions_they_are_given() {
    let engine = engine_descriptor("0.9.0", "descriptor-v2");
    assert_eq!(engine.api_version, "0.9.0");
    assert_eq!(engine.descriptor_schema_version, "descriptor-v2");
    assert_eq!(engine.version, "0.1.0");
    let standalone = EmpireUpkeepModPlugin::descriptor("0.9.0", "descriptor-v2");
    assert_eq!(standalone.api_version, "0.9.0");
    assert_eq!(standalone.descriptor_schema_version, "descriptor-v2");
    assert!(standalone.dependencies.is_empty());
    assert!(standalone.actions.is_empty());
}
