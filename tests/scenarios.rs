use snowflake_to_falkordb::batch::{after_failure, batch_bounds, effective_batch_size, RetryDecision};
use snowflake_to_falkordb::config::{
    CommonMappingFields, DeltaSpec, EdgeDirection, EdgeEndpointMatch, EdgeMappingConfig,
    FalkorConfig, MatchOn, Mode, NodeKeySpec, NodeMappingConfig, PropertySpec, SourceConfig,
};
use snowflake_to_falkordb::cypher::json_value_to_cypher_literal;
use snowflake_to_falkordb::json::JsonValue;
use snowflake_to_falkordb::orchestrator::{plan_edge_mapping, plan_node_mapping};
use snowflake_to_falkordb::source::{build_sql, next_page_offset, paged_sql, rows_from_document, LogicalRow};
use snowflake_to_falkordb::watermark::{advance_watermark, compute_max_watermark, Instant, WatermarkStore};

fn s(x: &str) -> String {
    x.to_string()
}

fn num(n: i64) -> JsonValue {
    JsonValue::Number(n.to_string())
}

fn text(x: &str) -> JsonValue {
    JsonValue::String(s(x))
}

fn row(pairs: Vec<(&str, JsonValue)>) -> LogicalRow {
    LogicalRow { values: pairs.into_iter().map(|(k, v)| (s(k), v)).collect() }
}

fn source() -> SourceConfig {
    SourceConfig { file: None, table: None, stream: None, select: None, where_clause: None }
}

fn common(name: &str, delta: Option<DeltaSpec>) -> CommonMappingFields {
    CommonMappingFields { name: s(name), source: source(), mode: Mode::Full, delta }
}

fn node_mapping(labels: &[&str], key: &str, props: &[(&str, &str)], delta: Option<DeltaSpec>) -> NodeMappingConfig {
    NodeMappingConfig {
        common: common("nodes", delta),
        labels: labels.iter().map(|l| s(l)).collect(),
        key: NodeKeySpec { column: s(key), property: s(key) },
        properties: props.iter().map(|(p, c)| (s(p), PropertySpec { column: s(c) })).collect(),
    }
}

#[test]
fn seed_file_rows_become_two_nodes() {
    let doc = JsonValue::Array(vec![
        JsonValue::Object(vec![(s("id"), num(1)), (s("name"), text("A"))]),
        JsonValue::Object(vec![(s("id"), num(2)), (s("name"), text("B"))]),
    ]);
    let rows = rows_from_document(&doc, "input.json").unwrap();
    assert_eq!(rows.len(), 2);
    let m = node_mapping(&["T"], "id", &[("name", "name")], None);
    let plan = plan_node_mapping(&m, &rows, 1000).unwrap();
    assert_eq!(
        plan.upserts,
        vec![s("UNWIND [{`key`: 1, `props`: {`id`: 1, `name`: 'A'}}, {`key`: 2, `props`: {`id`: 2, `name`: 'B'}}] AS row MERGE (n:T { id: row.key }) SET n += row.props")]
    );
    assert!(plan.deletes.is_empty());
    assert_eq!(plan.rows_written, 2);
    assert_eq!(plan.rows_deleted, 0);
    // a rerun submits the very same idempotent MERGE statements
    let again = plan_node_mapping(&m, &rows, 1000).unwrap();
    assert_eq!(again.upserts, plan.upserts);
}

#[test]
fn seed_soft_delete_and_watermark() {
    let rows = vec![
        row(vec![("id", num(1)), ("u", text("2024-01-01T00:00:00Z")), ("d", JsonValue::Bool(false))]),
        row(vec![("id", num(2)), ("u", text("2024-01-02T00:00:00Z")), ("d", JsonValue::Bool(true))]),
    ];
    let delta = DeltaSpec {
        updated_at_column: s("u"),
        deleted_flag_column: Some(s("d")),
        deleted_flag_value: Some(JsonValue::Bool(true)),
        initial_full_load: None,
    };
    let m = node_mapping(&["T"], "id", &[], Some(delta));
    let plan = plan_node_mapping(&m, &rows, 1000).unwrap();
    assert_eq!(
        plan.upserts,
        vec![s("UNWIND [{`key`: 1, `props`: {`id`: 1}}] AS row MERGE (n:T { id: row.key }) SET n += row.props")]
    );
    assert_eq!(
        plan.deletes,
        vec![s("UNWIND [{`key`: 2}] AS row MATCH (n:T { id: row.key }) DETACH DELETE n")]
    );
    assert_eq!(plan.observed, Some(Instant { secs: 1704153600, nanos: 0 }));
    let mut store = WatermarkStore::new();
    assert!(advance_watermark(&mut store, "nodes", plan.observed));
    assert_eq!(store.get("nodes"), Some("2024-01-02T00:00:00+00:00"));
}

#[test]
fn seed_encoder_literal() {
    let v = JsonValue::Object(vec![
        (s("a"), text("it's")),
        (s("b"), JsonValue::Array(vec![num(1), JsonValue::Null, JsonValue::Bool(true)])),
    ]);
    assert_eq!(json_value_to_cypher_literal(&v), "{`a`: 'it\\'s', `b`: [1, null, true]}");
}

#[test]
fn seed_edge_out_direction() {
    let m = EdgeMappingConfig {
        common: common("edges", None),
        relationship: s("R"),
        direction: EdgeDirection::Out,
        from: EdgeEndpointMatch {
            node_mapping: s("a"),
            match_on: vec![MatchOn { column: s("f"), property: s("id") }],
            label_override: None,
        },
        to: EdgeEndpointMatch {
            node_mapping: s("b"),
            match_on: vec![MatchOn { column: s("t"), property: s("id") }],
            label_override: None,
        },
        key: None,
        properties: vec![],
    };
    let rows = vec![row(vec![("f", num(1)), ("t", num(2))])];
    let plan = plan_edge_mapping(&m, &vec![s("A")], &vec![s("B")], &rows, 1000).unwrap();
    assert_eq!(
        plan.upserts,
        vec![s("UNWIND [{`from`: {`id`: 1}, `to`: {`id`: 2}, `props`: {}}] AS row MATCH (src:A { id: row.from.id }) MATCH (tgt:B { id: row.to.id }) MERGE (src)-[r:R]->(tgt) SET r += row.props")]
    );
    assert_eq!(plan.rows_written, 1);
}

#[test]
fn seed_retry_fails_twice_then_succeeds() {
    // two failures with three retries allowed: both are retried, after 100 ms then 200 ms
    assert_eq!(after_failure(0, 3), RetryDecision::Retry { attempt: 1, delay_ms: 100 });
    assert_eq!(after_failure(1, 3), RetryDecision::Retry { attempt: 2, delay_ms: 200 });
}

#[test]
fn retry_gives_up_after_max_retries() {
    assert_eq!(after_failure(2, 3), RetryDecision::Retry { attempt: 3, delay_ms: 400 });
    assert_eq!(after_failure(3, 3), RetryDecision::GiveUp { attempts: 4 });
    assert_eq!(after_failure(9, 20), RetryDecision::Retry { attempt: 10, delay_ms: 1600 });
}

#[test]
fn seed_paged_fetch_of_five_rows() {
    let table = 5usize;
    let batch = 2usize;
    let mut pages = Vec::new();
    let mut offset = 0usize;
    loop {
        let page_len = std::cmp::min(batch, table - offset);
        pages.push(page_len);
        match next_page_offset(offset, batch, page_len) {
            Some(next) => offset = next,
            None => break,
        }
    }
    assert_eq!(pages, vec![2, 2, 1]);
    assert_eq!(paged_sql("SELECT * FROM T", "u", 2, 4), "SELECT * FROM T ORDER BY u LIMIT 2 OFFSET 4");
    assert_eq!(next_page_offset(4, 2, 0), None);
}

#[test]
fn empty_rows_submit_nothing() {
    let m = node_mapping(&["T"], "id", &[("name", "name")], None);
    let plan = plan_node_mapping(&m, &[], 10).unwrap();
    assert!(plan.upserts.is_empty());
    assert!(plan.deletes.is_empty());
    assert_eq!(batch_bounds(0, 10), vec![]);
    let mut store = WatermarkStore::new();
    store.put("nodes", s("2024-01-01T00:00:00+00:00"));
    assert_eq!(compute_max_watermark(&[], "u"), None);
    assert!(!advance_watermark(&mut store, "nodes", None));
    assert_eq!(store.get("nodes"), Some("2024-01-01T00:00:00+00:00"));
}

#[test]
fn rows_equal_to_batch_size_make_one_batch() {
    assert_eq!(batch_bounds(3, 3), vec![(0, 3)]);
    let m = node_mapping(&["T"], "id", &[], None);
    let rows = vec![row(vec![("id", num(1))]), row(vec![("id", num(2))])];
    let plan = plan_node_mapping(&m, &rows, 2).unwrap();
    assert_eq!(plan.upserts.len(), 1);
}

#[test]
fn batch_size_zero_is_one() {
    let cfg = FalkorConfig { endpoint: s("falkor://h:1"), graph: s("g"), max_unwind_batch_size: Some(0) };
    assert_eq!(effective_batch_size(&cfg), 1);
    let cfg = FalkorConfig { endpoint: s("falkor://h:1"), graph: s("g"), max_unwind_batch_size: None };
    assert_eq!(effective_batch_size(&cfg), 1000);
    let cfg = FalkorConfig { endpoint: s("falkor://h:1"), graph: s("g"), max_unwind_batch_size: Some(7) };
    assert_eq!(effective_batch_size(&cfg), 7);
}

#[test]
fn unparseable_timestamps_are_ignored() {
    let rows = vec![
        row(vec![("u", text("not a time"))]),
        row(vec![("u", text("2024-03-01 10:00:00.5"))]),
        row(vec![("u", num(17))]),
        row(vec![("v", text("2030-01-01T00:00:00Z"))]),
    ];
    assert_eq!(compute_max_watermark(&rows, "u"), Some(Instant { secs: 1709287200, nanos: 500_000_000 }));
    let only_bad = vec![row(vec![("u", text("yesterday"))])];
    assert_eq!(compute_max_watermark(&only_bad, "u"), None);
}

#[test]
fn full_select_gets_no_watermark_predicate() {
    let mut c = common("m", Some(DeltaSpec {
        updated_at_column: s("u"),
        deleted_flag_column: None,
        deleted_flag_value: None,
        initial_full_load: None,
    }));
    c.source.select = Some(s("SELECT a FROM t"));
    c.source.table = Some(s("t"));
    assert_eq!(build_sql(&c, Some("2024-01-01T00:00:00+00:00")).unwrap(), "SELECT a FROM t");
}
