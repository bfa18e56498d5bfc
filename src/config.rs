//! The in-memory shape of the declarative configuration.

use vstd::prelude::*;
use crate::json::JsonValue;

verus! {

/// Top level: warehouse, graph, watermark state, and the mappings in declaration order.
pub struct Config {
    pub snowflake: Option<SnowflakeConfig>,
    pub falkordb: FalkorConfig,
    pub state: Option<StateConfig>,
    pub mappings: Vec<EntityMapping>,
}

/// Warehouse connection settings.
pub struct SnowflakeConfig {
    pub account: String,
    pub user: String,
    /// Password, or the private key's passphrase when `private_key_path` is set.
    pub password: Option<String>,
    pub private_key_path: Option<String>,
    pub warehouse: String,
    pub database: String,
    pub schema: String,
    pub role: Option<String>,
    /// Page size of incremental fetches; absent or zero fetches in one query.
    pub fetch_batch_size: Option<usize>,
    pub query_timeout_ms: Option<u64>,
}

/// Graph connection settings.
pub struct FalkorConfig {
    /// Endpoint, e.g. "falkor://127.0.0.1:6379".
    pub endpoint: String,
    /// Target graph name.
    pub graph: String,
    /// Largest number of records per `UNWIND` statement; 1000 when absent.
    pub max_unwind_batch_size: Option<usize>,
}

/// Where per-mapping watermarks persist.
pub struct StateConfig {
    pub backend: StateBackendKind,
    /// For the file backend: the document holding mapping name -> watermark.
    pub file_path: Option<String>,
}

#[derive(PartialEq, Eq, Structural, Clone, Copy, Debug)]
pub enum StateBackendKind {
    File,
    Falkordb,
    /// Watermarks are not persisted.
    Disabled,
}

/// Where a mapping's rows come from. Precedence: `select`, `stream`, `table`, `file`.
pub struct SourceConfig {
    /// A JSON file holding an array of objects, one per row.
    pub file: Option<String>,
    /// A warehouse table.
    pub table: Option<String>,
    /// A warehouse stream.
    pub stream: Option<String>,
    /// A full SELECT statement, used verbatim.
    pub select: Option<String>,
    /// A WHERE clause appended to generated statements.
    pub where_clause: Option<String>,
}

pub enum EntityMapping {
    Node(NodeMappingConfig),
    Edge(EdgeMappingConfig),
}

#[derive(PartialEq, Eq, Structural, Clone, Copy, Debug)]
pub enum Mode {
    Full,
    Incremental,
}

/// Incremental-load settings of a mapping.
pub struct DeltaSpec {
    pub updated_at_column: String,
    pub deleted_flag_column: Option<String>,
    pub deleted_flag_value: Option<JsonValue>,
    pub initial_full_load: Option<bool>,
}

/// The fields that node and edge mappings share.
pub struct CommonMappingFields {
    /// Logical name of the mapping.
    pub name: String,
    pub source: SourceConfig,
    pub mode: Mode,
    pub delta: Option<DeltaSpec>,
}

/// The mode of a mapping that names none.
pub fn default_mode_full() -> (r: Mode)
    ensures
        r == Mode::Full,
{
    Mode::Full
}

/// Rows to nodes: labels, the key, and graph property name -> source column.
pub struct NodeMappingConfig {
    pub common: CommonMappingFields,
    /// Labels applied to merged nodes, e.g. ["Customer"].
    pub labels: Vec<String>,
    pub key: NodeKeySpec,
    pub properties: Vec<(String, PropertySpec)>,
}

/// How an edge finds one of its endpoints.
pub struct EdgeEndpointMatch {
    /// The node mapping that writes the endpoint.
    pub node_mapping: String,
    pub match_on: Vec<MatchOn>,
    /// Labels used in place of the node mapping's own.
    pub label_override: Option<Vec<String>>,
}

/// One `source column = graph property` equality.
pub struct MatchOn {
    pub column: String,
    pub property: String,
}

/// Rows to edges between nodes of two node mappings.
pub struct EdgeMappingConfig {
    pub common: CommonMappingFields,
    pub relationship: String,
    pub direction: EdgeDirection,
    pub from: EdgeEndpointMatch,
    pub to: EdgeEndpointMatch,
    pub key: Option<EdgeKeySpec>,
    pub properties: Vec<(String, PropertySpec)>,
}

#[derive(PartialEq, Eq, Structural, Clone, Copy, Debug)]
pub enum EdgeDirection {
    /// `src -> tgt`.
    Out,
    /// `src <- tgt`.
    In,
}

/// The direction of an edge mapping that names none.
pub fn default_direction_out() -> (r: EdgeDirection)
    ensures
        r == EdgeDirection::Out,
{
    EdgeDirection::Out
}

pub struct NodeKeySpec {
    /// Source column holding the unique identifier.
    pub column: String,
    /// Node property that stores it.
    pub property: String,
}

pub struct EdgeKeySpec {
    pub column: String,
    pub property: String,
}

pub struct PropertySpec {
    /// Source column name.
    pub column: String,
}

impl EntityMapping {
    pub open spec fn common_fields(&self) -> &CommonMappingFields {
        match self {
            EntityMapping::Node(n) => &n.common,
            EntityMapping::Edge(e) => &e.common,
        }
    }

    /// The mapping's shared fields.
    pub fn common(&self) -> (r: &CommonMappingFields)
        ensures
            r == self.common_fields(),
    {
        match self {
            EntityMapping::Node(n) => &n.common,
            EntityMapping::Edge(e) => &e.common,
        }
    }
}

/// The environment variable a configuration string refers to: the rest of
/// a string that begins with `$`.
pub fn env_reference(value: &str) -> (r: Option<String>)
    ensures
        value@.len() > 0 && value@[0] == '$' ==> (r matches Some(name) && name@ == value@.subrange(
            1,
            value@.len() as int,
        )),
        !(value@.len() > 0 && value@[0] == '$') ==> r is None,
{
    let n = value.unicode_len();
    if n > 0 && value.get_char(0) == '$' {
        Some(String::from_str(value.substring_char(1, n)))
    } else {
        None
    }
}

} // verus!
