use snowflake_to_falkordb::batch::{backoff_delay_ms, batch_bounds};
use snowflake_to_falkordb::config::{
    default_direction_out, default_mode_full, env_reference, CommonMappingFields, Config,
    DeltaSpec, EdgeDirection, EdgeEndpointMatch, EdgeKeySpec, EdgeMappingConfig, EntityMapping,
    FalkorConfig, MatchOn, Mode, NodeKeySpec, NodeMappingConfig, PropertySpec, SnowflakeConfig,
    SourceConfig,
};
use snowflake_to_falkordb::cypher::json_value_to_cypher_literal;
use snowflake_to_falkordb::error::{Endpoint, SyncError};
use snowflake_to_falkordb::json::JsonValue;
use snowflake_to_falkordb::mapping::{map_rows_to_edges, map_rows_to_nodes, partition_by_deleted};
use snowflake_to_falkordb::metrics::{Counter, Metrics};
use snowflake_to_falkordb::orchestrator::{
    daemon_purge_options, endpoint_labels, find_mapping, index_statements, purge_all_statement,
    purge_statement,
};
use snowflake_to_falkordb::sink::{
    edge_delete_statements, edge_upsert_statements, label_clause, node_delete_statements,
};
use snowflake_to_falkordb::source::{
    build_sql, page_size, plan_auth, plan_source, rows_from_document, AuthPlan, LogicalRow,
    SourcePlan,
};
use snowflake_to_falkordb::text::append_decimal;
use snowflake_to_falkordb::watermark::{
    advance_watermark, max_instant, next_watermark, parse_timestamp, Instant, WatermarkStore,
};

fn s(x: &str) -> String {
    x.to_string()
}

fn num(n: i64) -> JsonValue {
    JsonValue::Number(n.to_string())
}

fn text(x: &str) -> JsonValue {
    JsonValue::String(s(x))
}

fn row(pairs: Vec<(&str, JsonValue)>) -> LogicalRow {
    LogicalRow { values: pairs.into_iter().map(|(k, v)| (s(k), v)).collect() }
}

fn source() -> SourceConfig {
    SourceConfig { file: None, table: None, stream: None, select: None, where_clause: None }
}

fn common(name: &str) -> CommonMappingFields {
    CommonMappingFields { name: s(name), source: source(), mode: Mode::Full, delta: None }
}

fn node(name: &str, labels: &[&str], key: &str) -> NodeMappingConfig {
    NodeMappingConfig {
        common: common(name),
        labels: labels.iter().map(|l| s(l)).collect(),
        key: NodeKeySpec { column: s(key), property: s(key) },
        properties: vec![],
    }
}

fn edge(direction: EdgeDirection, key: Option<&str>) -> EdgeMappingConfig {
    EdgeMappingConfig {
        common: common("e"),
        relationship: s("KNOWS"),
        direction,
        from: EdgeEndpointMatch {
            node_mapping: s("people"),
            match_on: vec![MatchOn { column: s("a"), property: s("pid") }],
            label_override: None,
        },
        to: EdgeEndpointMatch {
            node_mapping: s("people"),
            match_on: vec![MatchOn { column: s("b"), property: s("pid") }],
            label_override: Some(vec![s("P"), s("Vip")]),
        },
        key: key.map(|k| EdgeKeySpec { column: s(k), property: s("since") }),
        properties: vec![(s("w"), PropertySpec { column: s("weight") })],
    }
}

fn config(mappings: Vec<EntityMapping>, snowflake: Option<SnowflakeConfig>) -> Config {
    Config {
        snowflake,
        falkordb: FalkorConfig { endpoint: s("falkor://h:1"), graph: s("g"), max_unwind_batch_size: None },
        state: None,
        mappings,
    }
}

fn warehouse(password: Option<&str>, key: Option<&str>) -> SnowflakeConfig {
    SnowflakeConfig {
        account: s("acc"),
        user: s("u"),
        password: password.map(s),
        private_key_path: key.map(s),
        warehouse: s("wh"),
        database: s("db"),
        schema: s("sc"),
        role: None,
        fetch_batch_size: Some(100),
        query_timeout_ms: None,
    }
}

#[test]
fn encoder_escapes_quotes_backslashes_and_backticks() {
    let v = JsonValue::Object(vec![(s("we`ird"), text("a\\b'c\nd"))]);
    assert_eq!(json_value_to_cypher_literal(&v), "{`we``ird`: 'a\\\\b\\'c\nd'}");
    assert_eq!(json_value_to_cypher_literal(&JsonValue::Array(vec![])), "[]");
    assert_eq!(json_value_to_cypher_literal(&JsonValue::Object(vec![])), "{}");
    assert_eq!(json_value_to_cypher_literal(&JsonValue::Number(s("-2.5"))), "-2.5");
    assert_eq!(json_value_to_cypher_literal(&JsonValue::Bool(false)), "false");
}

#[test]
fn values_compare_deeply() {
    let a = JsonValue::Object(vec![(s("x"), JsonValue::Array(vec![num(1), text("y")]))]);
    let b = JsonValue::Object(vec![(s("x"), JsonValue::Array(vec![num(1), text("y")]))]);
    let c = JsonValue::Object(vec![(s("x"), JsonValue::Array(vec![num(1), text("z")]))]);
    assert!(a.same_as(&b));
    assert!(!a.same_as(&c));
    assert!(!num(1).same_as(&text("1")));
    assert!(a.deep_clone().same_as(&a));
}

#[test]
fn row_lookup_by_column() {
    let r = row(vec![("id", num(3)), ("Name", text("x"))]);
    assert!(r.get("Name").unwrap().same_as(&text("x")));
    assert!(r.get("name").is_none());
}

#[test]
fn node_key_wins_over_property_of_same_name() {
    let mut m = node("n", &["T"], "id");
    m.properties = vec![(s("id"), PropertySpec { column: s("other") }), (s("nm"), PropertySpec { column: s("name") })];
    let rows = vec![row(vec![("id", num(1)), ("other", num(9)), ("name", text("A"))])];
    let nodes = map_rows_to_nodes(&rows, &m).unwrap();
    assert!(nodes[0].key.same_as(&num(1)));
    assert_eq!(nodes[0].props.len(), 2);
    assert_eq!(nodes[0].props[0].0, "id");
    assert!(nodes[0].props[0].1.same_as(&num(1)));
    assert_eq!(nodes[0].props[1].0, "nm");
}

#[test]
fn missing_key_column_names_row_and_column() {
    let m = node("n", &["T"], "id");
    let rows = vec![row(vec![("id", num(1))]), row(vec![("x", num(2))])];
    match map_rows_to_nodes(&rows, &m) {
        Err(SyncError::MissingColumn { row, column }) => {
            assert_eq!(row, 1);
            assert_eq!(column, "id");
        }
        _ => panic!("expected a missing column"),
    }
}

#[test]
fn edge_records_carry_endpoints_key_and_props() {
    let m = edge(EdgeDirection::Out, Some("k"));
    let rows = vec![row(vec![("a", num(1)), ("b", num(2)), ("k", text("2020")), ("weight", num(5))])];
    let edges = map_rows_to_edges(&rows, &m).unwrap();
    assert_eq!(edges.len(), 1);
    assert!(edges[0].edge_key.as_ref().unwrap().same_as(&text("2020")));
    let missing = vec![row(vec![("a", num(1)), ("b", num(2)), ("k", text("2020"))])];
    match map_rows_to_edges(&missing, &m) {
        Err(SyncError::MissingColumn { row, column }) => {
            assert_eq!(row, 0);
            assert_eq!(column, "weight");
        }
        _ => panic!("expected a missing column"),
    }
}

#[test]
fn edge_statements_follow_direction_and_key() {
    let m = edge(EdgeDirection::In, Some("k"));
    let rows = vec![row(vec![("a", num(1)), ("b", num(2)), ("k", num(7)), ("weight", num(5))])];
    let edges = map_rows_to_edges(&rows, &m).unwrap();
    let from = vec![s("P")];
    let to = vec![s("P"), s("Vip")];
    let up = edge_upsert_statements(&m, &edges, &from, &to, 10).unwrap();
    assert_eq!(
        up,
        vec![s("UNWIND [{`from`: {`pid`: 1}, `to`: {`pid`: 2}, `edgeKey`: 7, `props`: {`w`: 5}}] AS row MATCH (src:P { pid: row.from.pid }) MATCH (tgt:P:Vip { pid: row.to.pid }) MERGE (src)<-[r:KNOWS { since: row.edgeKey }]-(tgt) SET r += row.props")]
    );
    let del = edge_delete_statements(&m, &edges, &from, &to, 10).unwrap();
    assert_eq!(
        del,
        vec![s("UNWIND [{`from`: {`pid`: 1}, `to`: {`pid`: 2}, `edgeKey`: 7}] AS row MATCH (src:P { pid: row.from.pid }) MATCH (tgt:P:Vip { pid: row.to.pid }) MATCH (src)<-[r:KNOWS { since: row.edgeKey }]-(tgt) DELETE r")]
    );
}

#[test]
fn edge_without_match_columns_is_refused() {
    let mut m = edge(EdgeDirection::Out, None);
    m.to.match_on.clear();
    let rows = vec![row(vec![("a", num(1)), ("weight", num(5))])];
    let edges = map_rows_to_edges(&rows, &m).unwrap();
    match edge_upsert_statements(&m, &edges, &vec![s("P")], &vec![s("P")], 10) {
        Err(SyncError::NoMatchColumns { endpoint }) => assert_eq!(endpoint, Endpoint::To),
        _ => panic!("expected missing match columns"),
    }
    assert!(edge_upsert_statements(&m, &[], &vec![s("P")], &vec![s("P")], 10).unwrap().is_empty());
}

#[test]
fn node_deletes_are_batched() {
    let m = node("n", &["A", "B"], "id");
    let rows: Vec<LogicalRow> = (1..=3).map(|i| row(vec![("id", num(i))])).collect();
    let nodes = map_rows_to_nodes(&rows, &m).unwrap();
    let del = node_delete_statements(&m, &nodes, 2);
    assert_eq!(
        del,
        vec![
            s("UNWIND [{`key`: 1}, {`key`: 2}] AS row MATCH (n:A:B { id: row.key }) DETACH DELETE n"),
            s("UNWIND [{`key`: 3}] AS row MATCH (n:A:B { id: row.key }) DETACH DELETE n"),
        ]
    );
}

#[test]
fn batches_cover_all_records_in_order() {
    assert_eq!(batch_bounds(5, 2), vec![(0, 2), (2, 4), (4, 5)]);
    assert_eq!(batch_bounds(1, 1000), vec![(0, 1)]);
}

#[test]
fn backoff_doubles_up_to_a_cap() {
    assert_eq!(backoff_delay_ms(1), 100);
    assert_eq!(backoff_delay_ms(2), 200);
    assert_eq!(backoff_delay_ms(5), 1600);
    assert_eq!(backoff_delay_ms(40), 1600);
}

#[test]
fn partition_splits_on_flag_value() {
    let delta = DeltaSpec {
        updated_at_column: s("u"),
        deleted_flag_column: Some(s("d")),
        deleted_flag_value: Some(text("Y")),
        initial_full_load: None,
    };
    let rows = vec![
        row(vec![("id", num(1)), ("d", text("N"))]),
        row(vec![("id", num(2)), ("d", text("Y"))]),
        row(vec![("id", num(3))]),
    ];
    let (active, deleted) = partition_by_deleted(&rows, &delta);
    assert_eq!(active.len() + deleted.len(), rows.len());
    assert_eq!(deleted.len(), 1);
    assert!(deleted[0].get("id").unwrap().same_as(&num(2)));
    let no_value = DeltaSpec { deleted_flag_value: None, ..delta };
    let (active, deleted) = partition_by_deleted(&rows, &no_value);
    assert_eq!((active.len(), deleted.len()), (3, 0));
}

#[test]
fn table_sql_with_where_and_watermark() {
    let mut c = common("m");
    c.source.table = Some(s("DB.S.T"));
    c.source.where_clause = Some(s("x = 1"));
    c.delta = Some(DeltaSpec {
        updated_at_column: s("UPDATED"),
        deleted_flag_column: None,
        deleted_flag_value: None,
        initial_full_load: None,
    });
    assert_eq!(build_sql(&c, Some("2024-01-01T00:00:00+00:00")).unwrap(), "SELECT * FROM DB.S.T WHERE x = 1 AND UPDATED > '2024-01-01T00:00:00+00:00'");
    c.source.where_clause = None;
    assert_eq!(build_sql(&c, Some("W")).unwrap(), "SELECT * FROM DB.S.T WHERE UPDATED > 'W'");
    assert_eq!(build_sql(&c, None).unwrap(), "SELECT * FROM DB.S.T");
    c.source.stream = Some(s("STR"));
    c.source.where_clause = Some(s("y"));
    assert_eq!(build_sql(&c, Some("W")).unwrap(), "SELECT * FROM STR WHERE y");
    let empty = common("none");
    match build_sql(&empty, None) {
        Err(SyncError::NoWarehouseQuery { mapping }) => assert_eq!(mapping, "none"),
        _ => panic!("expected no warehouse query"),
    }
}

#[test]
fn source_choice_and_credentials() {
    let mut c = common("m");
    c.source.file = Some(s("rows.json"));
    match plan_source(&config(vec![], None), &c).unwrap() {
        SourcePlan::File(p) => assert_eq!(p, "rows.json"),
        _ => panic!("expected the file"),
    }
    c.source.table = Some(s("T"));
    assert!(matches!(plan_source(&config(vec![], Some(warehouse(Some("pw"), None))), &c).unwrap(), SourcePlan::Warehouse));
    match plan_source(&config(vec![], None), &common("bare")) {
        Err(SyncError::NoSource { mapping }) => assert_eq!(mapping, "bare"),
        _ => panic!("expected no source"),
    }
    match plan_auth(&warehouse(Some("pass"), Some("/k.p8"))).unwrap() {
        AuthPlan::KeyPair { key_path, passphrase } => {
            assert_eq!(key_path, "/k.p8");
            assert_eq!(passphrase, "pass");
        }
        _ => panic!("expected key-pair"),
    }
    assert!(matches!(plan_auth(&warehouse(Some("pw"), None)).unwrap(), AuthPlan::Password(p) if p == "pw"));
    assert!(matches!(plan_auth(&warehouse(None, None)), Err(SyncError::NoCredentials)));
    let mut inc = common("m");
    inc.delta = Some(DeltaSpec { updated_at_column: s("u"), deleted_flag_column: None, deleted_flag_value: None, initial_full_load: None });
    assert_eq!(page_size(&warehouse(Some("pw"), None), &inc), Some(100));
    inc.source.select = Some(s("SELECT 1"));
    assert_eq!(page_size(&warehouse(Some("pw"), None), &inc), None);
}

#[test]
fn documents_must_be_arrays_of_objects() {
    match rows_from_document(&JsonValue::Object(vec![]), "in.json") {
        Err(SyncError::NotAnArray { path }) => assert_eq!(path, "in.json"),
        _ => panic!("expected not an array"),
    }
    let doc = JsonValue::Array(vec![JsonValue::Object(vec![]), num(4)]);
    match rows_from_document(&doc, "in.json") {
        Err(SyncError::BadInput { row, path }) => {
            assert_eq!(row, 1);
            assert_eq!(path, "in.json");
        }
        _ => panic!("expected bad input"),
    }
}

#[test]
fn watermark_never_moves_back() {
    let mut store = WatermarkStore::new();
    let late = parse_timestamp("2024-05-01T12:00:00+02:00");
    assert_eq!(late, Some(Instant { secs: 1714557600, nanos: 0 }));
    assert!(advance_watermark(&mut store, "m", late));
    assert_eq!(store.get("m"), Some("2024-05-01T10:00:00+00:00"));
    let early = parse_timestamp("2024-04-01 00:00:00");
    assert!(!advance_watermark(&mut store, "m", early));
    assert_eq!(store.get("m"), Some("2024-05-01T10:00:00+00:00"));
    assert_eq!(store.get("other"), None);
    assert_eq!(next_watermark(late, early), None);
    assert_eq!(next_watermark(None, early), early);
    assert_eq!(max_instant(early, late), late);
    assert_eq!(max_instant(None, early), early);
}

#[test]
fn metrics_count_and_render() {
    let mut m = Metrics::new();
    m.inc_runs();
    m.add_rows_fetched(5);
    m.add_rows_written(4);
    m.add_rows_deleted(1);
    m.inc_failed_runs();
    m.inc_mapping_run("a");
    m.add_mapping_rows_fetched("a", 5);
    m.add_mapping_rows_written("a", 4);
    m.add_mapping_rows_deleted("a", 1);
    m.inc_mapping_failed_run("a");
    m.with_mapping("b", Counter::Runs, 2);
    assert_eq!(
        m.render(),
        "snowflake_to_falkordb_runs 1\nsnowflake_to_falkordb_failed_runs 1\nsnowflake_to_falkordb_rows_fetched 5\nsnowflake_to_falkordb_rows_written 4\nsnowflake_to_falkordb_rows_deleted 1\n\
snowflake_to_falkordb_mapping_runs{mapping=\"a\"} 1\nsnowflake_to_falkordb_mapping_failed_runs{mapping=\"a\"} 1\nsnowflake_to_falkordb_mapping_rows_fetched{mapping=\"a\"} 5\nsnowflake_to_falkordb_mapping_rows_written{mapping=\"a\"} 4\nsnowflake_to_falkordb_mapping_rows_deleted{mapping=\"a\"} 1\n\
snowflake_to_falkordb_mapping_runs{mapping=\"b\"} 2\nsnowflake_to_falkordb_mapping_failed_runs{mapping=\"b\"} 0\nsnowflake_to_falkordb_mapping_rows_fetched{mapping=\"b\"} 0\nsnowflake_to_falkordb_mapping_rows_written{mapping=\"b\"} 0\nsnowflake_to_falkordb_mapping_rows_deleted{mapping=\"b\"} 0\n"
    );
}

#[test]
fn counters_saturate() {
    let mut m = Metrics::new();
    m.add_rows_fetched(u64::MAX - 1);
    m.add_rows_fetched(5);
    assert_eq!(m.rows_fetched, u64::MAX);
    let mut out = String::new();
    append_decimal(&mut out, 1234567890);
    assert_eq!(out, "1234567890");
}

#[test]
fn indexes_are_distinct_per_labels_and_key() {
    let ms = vec![
        EntityMapping::Node(node("a", &["A", "B"], "id")),
        EntityMapping::Node(node("b", &["A", "B"], "id")),
        EntityMapping::Node(node("c", &[], "id")),
        EntityMapping::Edge(edge(EdgeDirection::Out, None)),
        EntityMapping::Node(node("d", &["C"], "code")),
    ];
    assert_eq!(index_statements(&ms), vec![s("CREATE INDEX ON :A:B(id)"), s("CREATE INDEX ON :C(code)")]);
}

#[test]
fn purges_by_labels_and_relationship() {
    let people = node("people", &["P"], "pid");
    let ms = vec![EntityMapping::Node(people), EntityMapping::Edge(edge(EdgeDirection::Out, None))];
    assert_eq!(purge_all_statement(), "MATCH (n) DETACH DELETE n");
    assert_eq!(purge_statement(&ms, &ms[0]).unwrap(), "MATCH (n:P) DETACH DELETE n");
    assert_eq!(purge_statement(&ms, &ms[1]).unwrap(), "MATCH (src:P)-[r:KNOWS]->(tgt:P:Vip) DELETE r");
    assert_eq!(find_mapping(&ms, "e"), Some(1));
    assert_eq!(find_mapping(&ms, "zzz"), None);
    let (from, to) = endpoint_labels(&ms, &edge(EdgeDirection::Out, None)).unwrap();
    assert_eq!((from, to), (vec![s("P")], vec![s("P"), s("Vip")]));
    let lonely = vec![EntityMapping::Edge(edge(EdgeDirection::Out, None))];
    match endpoint_labels(&lonely, &edge(EdgeDirection::Out, None)) {
        Err(SyncError::UnknownNodeMapping { mapping, reference }) => {
            assert_eq!(mapping, "e");
            assert_eq!(reference, "people");
        }
        _ => panic!("expected an unknown node mapping"),
    }
}

#[test]
fn daemon_purges_only_first_tick() {
    let names = vec![s("a")];
    assert_eq!(daemon_purge_options(true, true, &names), (true, vec![s("a")]));
    assert_eq!(daemon_purge_options(false, true, &names), (false, vec![]));
}

#[test]
fn config_helpers() {
    assert_eq!(env_reference("$SNOWFLAKE_PASSWORD"), Some(s("SNOWFLAKE_PASSWORD")));
    assert_eq!(env_reference("plain"), None);
    assert_eq!(env_reference(""), None);
    assert_eq!(default_mode_full(), Mode::Full);
    assert_eq!(default_direction_out(), EdgeDirection::Out);
    assert_eq!(label_clause(&vec![s("A"), s("B")]), "A:B");
}
