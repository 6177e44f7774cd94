//! What the mod tells the engine about itself: its identity, its config
//! schema and the systems it runs.
use vstd::prelude::*;

use crate::config::EmpireUpkeepConfig;

verus! {

/// The type of a config value.
#[derive(Debug, Clone, Copy, PartialEq, Eq, Structural)]
pub enum ConfigValueKind {
    U32,
    U64,
    Text,
    BasisPoints,
}

/// A check the engine applies to a config value.
#[derive(Debug, Clone, Copy, PartialEq, Eq, Structural)]
pub enum ConfigRule {
    Positive,
    NonEmptyString,
    BasisPoints,
}

/// The default of a config value: a number or a text.
#[derive(Debug, Clone)]
pub enum ConfigDefault {
    Number(u64),
    Text(String),
}

/// A config default as a mathematical value.
pub enum DefaultValue {
    Number(u64),
    Text(Seq<char>),
}

impl View for ConfigDefault {
    type V = DefaultValue;

    open spec fn view(&self) -> DefaultValue {
        match self {
            ConfigDefault::Number(n) => DefaultValue::Number(*n),
            ConfigDefault::Text(t) => DefaultValue::Text(t@),
        }
    }
}

/// One field of the config schema.
#[derive(Debug, Clone)]
pub struct ConfigFieldSpec {
    pub key: String,
    pub value_type: ConfigValueKind,
    pub default: ConfigDefault,
    pub required: bool,
    pub validator: Option<ConfigRule>,
}

/// A field of the config schema as a mathematical value.
pub struct FieldView {
    pub key: Seq<char>,
    pub value_type: ConfigValueKind,
    pub default: DefaultValue,
    pub required: bool,
    pub validator: Option<ConfigRule>,
}

impl View for ConfigFieldSpec {
    type V = FieldView;

    open spec fn view(&self) -> FieldView {
        FieldView {
            key: self.key@,
            value_type: self.value_type,
            default: self.default@,
            required: self.required,
            validator: self.validator,
        }
    }
}

/// The phase of a tick in which a system runs.
#[derive(Debug, Clone, Copy, PartialEq, Eq, Structural)]
pub enum SystemPhase {
    Update,
}

/// A system the mod runs, with its phase, the data it reads and writes, and
/// the buffers it produces and consumes.
#[derive(Debug, Clone)]
pub struct SystemSpec {
    pub system_id: String,
    pub version: String,
    pub phase: SystemPhase,
    pub order: i32,
    pub reads: Vec<String>,
    pub writes: Vec<String>,
    pub produces_buffers: Vec<String>,
    pub consumes_buffers: Vec<String>,
    pub deterministic_iteration: Vec<String>,
}

/// What the mod declares to the engine: its identity, the engine API and
/// descriptor schema versions it was built against, the mods it depends on,
/// its config schema, its systems and its actions.
#[derive(Debug, Clone)]
pub struct PluginSpec {
    pub id: String,
    pub version: String,
    pub api_version: String,
    pub descriptor_schema_version: String,
    pub dependencies: Vec<String>,
    pub config: Vec<ConfigFieldSpec>,
    pub systems: Vec<SystemSpec>,
    pub actions: Vec<String>,
}

/// The views of a list of strings.
pub open spec fn texts(v: Seq<String>) -> Seq<Seq<char>> {
    v.map_values(|s: String| s@)
}

/// An optional field of the schema.
pub open spec fn optional_field(
    key: Seq<char>,
    value_type: ConfigValueKind,
    default: DefaultValue,
    validator: Option<ConfigRule>,
) -> FieldView {
    FieldView { key, value_type, default, required: false, validator }
}

/// The config schema of the mod, in the order the engine lists it.
pub open spec fn config_schema() -> Seq<FieldView> {
    seq![
        optional_field("base_upkeep"@, ConfigValueKind::U32, DefaultValue::Number(50), None),
        optional_field(
            "room_soft_cap"@,
            ConfigValueKind::U32,
            DefaultValue::Number(10),
            Some(ConfigRule::Positive),
        ),
        optional_field(
            "controller_passive_income"@,
            ConfigValueKind::U32,
            DefaultValue::Number(40),
            None,
        ),
        optional_field(
            "controller_passive_income_rcl_bonus"@,
            ConfigValueKind::U32,
            DefaultValue::Number(5),
            None,
        ),
        optional_field(
            "resource"@,
            ConfigValueKind::Text,
            DefaultValue::Text("Energy"@),
            Some(ConfigRule::NonEmptyString),
        ),
        optional_field(
            "repair_cap"@,
            ConfigValueKind::BasisPoints,
            DefaultValue::Number(3_500),
            Some(ConfigRule::BasisPoints),
        ),
        optional_field(
            "distance_decay_bp"@,
            ConfigValueKind::BasisPoints,
            DefaultValue::Number(500),
            Some(ConfigRule::BasisPoints),
        ),
        optional_field(
            "recycle_refund_base"@,
            ConfigValueKind::BasisPoints,
            DefaultValue::Number(5_000),
            Some(ConfigRule::BasisPoints),
        ),
        optional_field(
            "recycle_refund_min"@,
            ConfigValueKind::BasisPoints,
            DefaultValue::Number(1_000),
            Some(ConfigRule::BasisPoints),
        ),
        optional_field(
            "tutorial_recycle_refund_full_ticks"@,
            ConfigValueKind::U64,
            DefaultValue::Number(500),
            None,
        ),
    ]
}

/// The identity of the mod.
pub open spec fn plugin_id() -> Seq<char> {
    "empire-upkeep"@
}

/// The version of the mod and of its systems.
pub open spec fn plugin_version() -> Seq<char> {
    "0.1.0"@
}

/// The data the standalone upkeep system reads.
pub open spec fn update_reads() -> Seq<Seq<char>> {
    seq![
        "EmpireUpkeepConfig"@,
        "PlayerEnergyLedger"@,
        "Drone"@,
        "Position"@,
        "Structure"@,
        "Controller"@,
    ]
}

/// The data the standalone upkeep system writes.
pub open spec fn update_writes() -> Seq<Seq<char>> {
    seq![
        "PlayerEnergyLedger"@,
        "UpkeepShortfalls"@,
        "Controller"@,
        "Drone"@,
        "DeathMark"@,
    ]
}

/// A field of the schema that is not required.
pub fn config_field(
    key: &str,
    value_type: ConfigValueKind,
    default: ConfigDefault,
    validator: Option<ConfigRule>,
) -> (field: ConfigFieldSpec)
    ensures
        field@ == optional_field(key@, value_type, default@, validator),
{
    ConfigFieldSpec { key: key.to_owned(), value_type, default, required: false, validator }
}

/// The descriptor of the mod with the given systems, built against the
/// given engine API and descriptor schema versions: its identity, no
/// dependencies, its full config schema and no actions.
pub fn plugin_descriptor(
    api_version: &str,
    descriptor_schema_version: &str,
    systems: Vec<SystemSpec>,
) -> (descriptor: PluginSpec)
    ensures
        descriptor.id@ == plugin_id(),
        descriptor.version@ == plugin_version(),
        descriptor.api_version@ == api_version@,
        descriptor.descriptor_schema_version@ == descriptor_schema_version@,
        descriptor.dependencies@.len() == 0,
        descriptor.actions@.len() == 0,
        descriptor.config@.map_values(|f: ConfigFieldSpec| f@) == config_schema(),
        descriptor.systems@ == systems@,
{
    let mut config: Vec<ConfigFieldSpec> = Vec::new();
    config.push(config_field("base_upkeep", ConfigValueKind::U32, ConfigDefault::Number(50), None));
    config.push(
        config_field(
            "room_soft_cap",
            ConfigValueKind::U32,
            ConfigDefault::Number(10),
            Some(ConfigRule::Positive),
        ),
    );
    config.push(
        config_field("controller_passive_income", ConfigValueKind::U32, ConfigDefault::Number(40), None),
    );
    config.push(
        config_field(
            "controller_passive_income_rcl_bonus",
            ConfigValueKind::U32,
            ConfigDefault::Number(5),
            None,
        ),
    );
    config.push(
        config_field(
            "resource",
            ConfigValueKind::Text,
            ConfigDefault::Text("Energy".to_owned()),
            Some(ConfigRule::NonEmptyString),
        ),
    );
    config.push(
        config_field(
            "repair_cap",
            ConfigValueKind::BasisPoints,
            ConfigDefault::Number(3_500),
            Some(ConfigRule::BasisPoints),
        ),
    );
    config.push(
        config_field(
            "distance_decay_bp",
            ConfigValueKind::BasisPoints,
            ConfigDefault::Number(500),
            Some(ConfigRule::BasisPoints),
        ),
    );
    config.push(
        config_field(
            "recycle_refund_base",
            ConfigValueKind::BasisPoints,
            ConfigDefault::Number(5_000),
            Some(ConfigRule::BasisPoints),
        ),
    );
    config.push(
        config_field(
            "recycle_refund_min",
            ConfigValueKind::BasisPoints,
            ConfigDefault::Number(1_000),
            Some(ConfigRule::BasisPoints),
        ),
    );
    config.push(
        config_field(
            "tutorial_recycle_refund_full_ticks",
            ConfigValueKind::U64,
            ConfigDefault::Number(500),
            None,
        ),
    );
    assert(config@.map_values(|f: ConfigFieldSpec| f@) =~= config_schema());
    PluginSpec {
        id: "empire-upkeep".to_owned(),
        version: "0.1.0".to_owned(),
        api_version: api_version.to_owned(),
        descriptor_schema_version: descriptor_schema_version.to_owned(),
        dependencies: Vec::new(),
        config,
        systems,
        actions: Vec::new(),
    }
}

/// The standalone upkeep system: it runs in the update phase, first in its
/// phase, uses no buffers, and walks the players in increasing order.
pub fn update_system() -> (system: SystemSpec)
    ensures
        system.system_id@ == "empire-upkeep.update"@,
        system.version@ == plugin_version(),
        system.phase == SystemPhase::Update,
        system.order == 0,
        system.produces_buffers@.len() == 0,
        system.consumes_buffers@.len() == 0,
        texts(system.reads@) == update_reads(),
        texts(system.writes@) == update_writes(),
        texts(system.deterministic_iteration@) == seq!["PlayerId"@],
{
    let mut reads: Vec<String> = Vec::new();
    reads.push("EmpireUpkeepConfig".to_owned());
    reads.push("PlayerEnergyLedger".to_owned());
    reads.push("Drone".to_owned());
    reads.push("Position".to_owned());
    reads.push("Structure".to_owned());
    reads.push("Controller".to_owned());
    let mut writes: Vec<String> = Vec::new();
    writes.push("PlayerEnergyLedger".to_owned());
    writes.push("UpkeepShortfalls".to_owned());
    writes.push("Controller".to_owned());
    writes.push("Drone".to_owned());
    writes.push("DeathMark".to_owned());
    let mut deterministic_iteration: Vec<String> = Vec::new();
    deterministic_iteration.push("PlayerId".to_owned());
    assert(texts(reads@) =~= update_reads());
    assert(texts(writes@) =~= update_writes());
    assert(texts(deterministic_iteration@) =~= seq!["PlayerId"@]);
    SystemSpec {
        system_id: "empire-upkeep.update".to_owned(),
        version: "0.1.0".to_owned(),
        phase: SystemPhase::Update,
        order: 0,
        reads,
        writes,
        produces_buffers: Vec::new(),
        consumes_buffers: Vec::new(),
        deterministic_iteration,
    }
}

/// The mod run on its own, with its own ledger and upkeep system.
#[derive(Debug, Clone, Copy, Default)]
pub struct EmpireUpkeepModPlugin;

impl EmpireUpkeepModPlugin {
    /// The standalone descriptor, built against the given engine API and
    /// descriptor schema versions: the full config schema and the upkeep
    /// system.
    pub fn descriptor(api_version: &str, descriptor_schema_version: &str) -> (descriptor: PluginSpec)
        ensures
            descriptor.id@ == plugin_id(),
            descriptor.version@ == plugin_version(),
            descriptor.api_version@ == api_version@,
            descriptor.descriptor_schema_version@ == descriptor_schema_version@,
            descriptor.dependencies@.len() == 0,
            descriptor.actions@.len() == 0,
            descriptor.config@.map_values(|f: ConfigFieldSpec| f@) == config_schema(),
            descriptor.systems@.len() == 1,
            descriptor.systems@[0].system_id@ == "empire-upkeep.update"@,
            descriptor.systems@[0].version@ == plugin_version(),
            descriptor.systems@[0].phase == SystemPhase::Update,
            descriptor.systems@[0].order == 0,
            descriptor.systems@[0].produces_buffers@.len() == 0,
            descriptor.systems@[0].consumes_buffers@.len() == 0,
            texts(descriptor.systems@[0].reads@) == update_reads(),
            texts(descriptor.systems@[0].writes@) == update_writes(),
            texts(descriptor.systems@[0].deterministic_iteration@) == seq!["PlayerId"@],
    {
        let mut systems: Vec<SystemSpec> = Vec::new();
        systems.push(update_system());
        plugin_descriptor(api_version, descriptor_schema_version, systems)
    }
}

/// The descriptor the engine entry publishes, built against the given
/// engine API and descriptor schema versions: the full config schema and no
/// system, since the engine runs the upkeep itself.
pub fn engine_descriptor(api_version: &str, descriptor_schema_version: &str) -> (descriptor: PluginSpec)
    ensures
        descriptor.id@ == plugin_id(),
        descriptor.version@ == plugin_version(),
        descriptor.api_version@ == api_version@,
        descriptor.descriptor_schema_version@ == descriptor_schema_version@,
        descriptor.dependencies@.len() == 0,
        descriptor.actions@.len() == 0,
        descriptor.config@.map_values(|f: ConfigFieldSpec| f@) == config_schema(),
        descriptor.systems@.len() == 0,
{
    plugin_descriptor(api_version, descriptor_schema_version, Vec::new())
}

/// The defaults the schema advertises are the values of the default
/// runtime configuration, field by field.
pub proof fn lemma_schema_defaults_are_config_defaults(config: EmpireUpkeepConfig)
    requires
        config.has_default_values(),
    ensures
        config_schema().len() == 10,
        config_schema()[0].default == DefaultValue::Number(config.base_upkeep as u64),
        config_schema()[1].default == DefaultValue::Number(config.room_soft_cap as u64),
        config_schema()[2].default == DefaultValue::Number(config.controller_passive_income as u64),
        config_schema()[3].default == DefaultValue::Number(
            config.controller_passive_income_rcl_bonus as u64,
        ),
        config_schema()[4].default == DefaultValue::Text(config.resource@),
        config_schema()[5].default == DefaultValue::Number(config.repair_cap as u64),
        config_schema()[6].default == DefaultValue::Number(config.distance_decay_bp as u64),
        config_schema()[7].default == DefaultValue::Number(config.recycle_refund_base as u64),
        config_schema()[8].default == DefaultValue::Number(config.recycle_refund_min as u64),
        config_schema()[9].default == DefaultValue::Number(config.tutorial_recycle_refund_full_ticks),
{
}

/// Every field of the schema carries the check its type calls for: a
/// basis-points field is checked to be in basis-point range, a text field to
/// be non-empty; and no field is required.
pub proof fn lemma_schema_checks_follow_value_types()
    ensures
        forall|i: int|
            0 <= i < config_schema().len() ==> {
                &&& #[trigger] config_schema()[i].value_type == ConfigValueKind::BasisPoints
                    ==> config_schema()[i].validator == Some(ConfigRule::BasisPoints)
                &&& config_schema()[i].value_type == ConfigValueKind::Text
                    ==> config_schema()[i].validator == Some(ConfigRule::NonEmptyString)
                &&& !config_schema()[i].required
            },
{
    let schema = config_schema();
    assert forall|i: int| 0 <= i < schema.len() implies {
        &&& #[trigger] schema[i].value_type == ConfigValueKind::BasisPoints ==> schema[i].validator
            == Some(ConfigRule::BasisPoints)
        &&& schema[i].value_type == ConfigValueKind::Text ==> schema[i].validator == Some(
            ConfigRule::NonEmptyString,
        )
        &&& !schema[i].required
    } by {
        assert(0 <= i < 10);
        if i == 0 {} else if i == 1 {} else if i == 2 {} else if i == 3 {} else if i == 4 {}
        else if i == 5 {} else if i == 6 {} else if i == 7 {} else if i == 8 {} else {}
    }
}

} // verus!
