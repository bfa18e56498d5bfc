//! Rows to upsert records, and soft-delete partitioning.

use vstd::prelude::*;
use vstd::multiset::Multiset;
use crate::config::{DeltaSpec, EdgeMappingConfig, MatchOn, NodeMappingConfig, PropertySpec};
use crate::error::SyncError;
use crate::json::{JsonModel, JsonValue, lookup, pairs_model};
use crate::source::{LogicalRow, rows_model};

verus! {

broadcast use vstd::seq_lib::group_to_multiset_ensures;

/// A node ready to be merged: its key and its properties, the key included.
pub struct MappedNode {
    pub key: JsonValue,
    pub props: Vec<(String, JsonValue)>,
}

/// An edge ready to be merged: the properties that find each endpoint,
/// the optional edge key, and the edge's own properties.
pub struct MappedEdge {
    pub from_props: Vec<(String, JsonValue)>,
    pub to_props: Vec<(String, JsonValue)>,
    pub edge_key: Option<JsonValue>,
    pub props: Vec<(String, JsonValue)>,
}

pub open spec fn texts(s: Seq<String>) -> Seq<Seq<char>> {
    s.map_values(|t: String| t@)
}

/// The value of `col` in `row`; only meaningful where the column is present.
pub open spec fn value_of(row: Seq<(Seq<char>, JsonModel)>, col: Seq<char>) -> JsonModel {
    match lookup(row, col) {
        Some(v) => v,
        None => JsonModel::Null,
    }
}

pub open spec fn all_present(row: Seq<(Seq<char>, JsonModel)>, cols: Seq<Seq<char>>) -> bool {
    forall|k: int| 0 <= k < cols.len() ==> #[trigger] lookup(row, cols[k]) is Some
}

/// `cols[k]` is the first of `cols` that `row` lacks.
pub open spec fn missing_at(row: Seq<(Seq<char>, JsonModel)>, cols: Seq<Seq<char>>, k: int) -> bool {
    &&& 0 <= k < cols.len()
    &&& lookup(row, cols[k]) is None
    &&& forall|j: int| 0 <= j < k ==> #[trigger] lookup(row, cols[j]) is Some
}

/// The columns a node mapping reads, in the order they are checked.
pub open spec fn node_columns(m: &NodeMappingConfig) -> Seq<Seq<char>> {
    seq![m.key.column@] + m.properties@.map_values(|p: (String, PropertySpec)| p.1.column@)
}

/// Declared properties as (name, value), leaving out those named `skip`.
pub open spec fn project(
    row: Seq<(Seq<char>, JsonModel)>,
    specs: Seq<(String, PropertySpec)>,
    skip: Option<Seq<char>>,
) -> Seq<(Seq<char>, JsonModel)>
    decreases specs.len(),
{
    if specs.len() == 0 {
        Seq::empty()
    } else {
        let init = project(row, specs.drop_last(), skip);
        let last = specs.last();
        if skip == Some(last.0@) {
            init
        } else {
            init.push((last.0@, value_of(row, last.1.column@)))
        }
    }
}

/// The properties of a node: the key first, then the declared properties;
/// a declared property named like the key never replaces the key's value.
pub open spec fn node_props(row: Seq<(Seq<char>, JsonModel)>, m: &NodeMappingConfig) -> Seq<
    (Seq<char>, JsonModel),
> {
    seq![(m.key.property@, value_of(row, m.key.column@))] + project(
        row,
        m.properties@,
        Some(m.key.property@),
    )
}

/// `nodes` are the records of `rows` under `m`, one per row, in order.
pub open spec fn nodes_of(
    rows: Seq<Seq<(Seq<char>, JsonModel)>>,
    m: &NodeMappingConfig,
    nodes: Seq<MappedNode>,
) -> bool {
    &&& nodes.len() == rows.len()
    &&& forall|i: int|
        0 <= i < rows.len() ==> {
            &&& (#[trigger] nodes[i]).key.model() == value_of(rows[i], m.key.column@)
            &&& pairs_model(nodes[i].props@) == node_props(rows[i], m)
        }
}

/// The outcome of mapping `rows` with column lists `cols`: `Ok` exactly when
/// every row has every column; otherwise the first row lacking one, and the
/// first column it lacks.
pub open spec fn mapped_or_missing<T>(
    rows: Seq<Seq<(Seq<char>, JsonModel)>>,
    cols: Seq<Seq<char>>,
    r: Result<T, SyncError>,
) -> bool {
    &&& (r is Ok <==> forall|i: int| 0 <= i < rows.len() ==> all_present(#[trigger] rows[i], cols))
    &&& (r matches Err(e) ==> e matches SyncError::MissingColumn { row, column } && row < rows.len()
        && (forall|j: int| 0 <= j < row ==> all_present(#[trigger] rows[j], cols))
        && exists|k: int| missing_at(rows[row as int], cols, k) && cols[k] == column@)
}

pub proof fn lemma_pairs_model_push(s: Seq<(String, JsonValue)>, x: (String, JsonValue))
    ensures
        pairs_model(s.push(x)) == pairs_model(s).push((x.0@, x.1.model())),
{
    assert(s.push(x).subrange(0, s.len() as int) =~= s);
}

/// Index of the first of `cols` that `row` lacks.
pub fn first_missing_column(row: &LogicalRow, cols: &Vec<String>) -> (r: Option<usize>)
    ensures
        match r {
            Some(k) => missing_at(row.model(), texts(cols@), k as int),
            None => all_present(row.model(), texts(cols@)),
        },
{
    let mut k: usize = 0;
    while k < cols.len()
        invariant
            k <= cols.len(),
            forall|j: int| 0 <= j < k ==> #[trigger] lookup(row.model(), texts(cols@)[j]) is Some,
        decreases cols.len() - k,
    {
        if row.get(cols[k].as_str()).is_none() {
            return Some(k);
        }
        k += 1;
    }
    None
}

/// A copy of the value of a column that the row has.
fn value_at(row: &LogicalRow, col: &str) -> (r: JsonValue)
    requires
        lookup(row.model(), col@) is Some,
    ensures
        r.model() == value_of(row.model(), col@),
{
    match row.get(col) {
        Some(v) => v.deep_clone(),
        None => JsonValue::Null,
    }
}

fn node_column_list(m: &NodeMappingConfig) -> (r: Vec<String>)
    ensures
        texts(r@) == node_columns(m),
{
    let mut cols: Vec<String> = Vec::new();
    cols.push(m.key.column.clone());
    let mut j: usize = 0;
    while j < m.properties.len()
        invariant
            j <= m.properties.len(),
            texts(cols@) =~= seq![m.key.column@] + m.properties@.subrange(0, j as int).map_values(
                |p: (String, PropertySpec)| p.1.column@,
            ),
        decreases m.properties.len() - j,
    {
        let ghost before = cols@;
        cols.push(m.properties[j].1.column.clone());
        assert(texts(cols@) =~= texts(before).push(m.properties@[j as int].1.column@));
        assert(m.properties@.subrange(0, j + 1).map_values(|p: (String, PropertySpec)| p.1.column@)
            =~= m.properties@.subrange(0, j as int).map_values(
            |p: (String, PropertySpec)| p.1.column@,
        ).push(m.properties@[j as int].1.column@));
        j += 1;
    }
    assert(m.properties@.subrange(0, j as int) =~= m.properties@);
    cols
}

fn node_of_row(row: &LogicalRow, m: &NodeMappingConfig) -> (r: MappedNode)
    requires
        all_present(row.model(), node_columns(m)),
    ensures
        r.key.model() == value_of(row.model(), m.key.column@),
        pairs_model(r.props@) == node_props(row.model(), m),
{
    let ghost rm = row.model();
    let ghost kp = m.key.property@;
    assert(node_columns(m)[0] == m.key.column@);
    let key = value_at(row, m.key.column.as_str());
    let mut props: Vec<(String, JsonValue)> = Vec::new();
    props.push((m.key.property.clone(), key.deep_clone()));
    proof {
        lemma_pairs_model_push(Seq::empty(), props@[0]);
        assert(props@ =~= Seq::<(String, JsonValue)>::empty().push(props@[0]));
    }
    assert(pairs_model(props@) =~= seq![(kp, value_of(rm, m.key.column@))]);
    let mut j: usize = 0;
    while j < m.properties.len()
        invariant
            j <= m.properties.len(),
            rm == row.model(),
            kp == m.key.property@,
            all_present(rm, node_columns(m)),
            pairs_model(props@) == seq![(kp, value_of(rm, m.key.column@))] + project(
                rm,
                m.properties@.subrange(0, j as int),
                Some(kp),
            ),
        decreases m.properties.len() - j,
    {
        let ghost before = props@;
        let ghost sub = m.properties@.subrange(0, j + 1);
        assert(sub.drop_last() =~= m.properties@.subrange(0, j as int));
        assert(sub.last() == m.properties@[j as int]);
        let name = &m.properties[j].0;
        if !name.as_str().eq(m.key.property.as_str()) {
            assert(node_columns(m)[j + 1] == m.properties@[j as int].1.column@);
            let v = value_at(row, m.properties[j].1.column.as_str());
            props.push((name.clone(), v));
            proof {
                lemma_pairs_model_push(before, props@.last());
                assert(props@ =~= before.push(props@.last()));
            }
            assert(pairs_model(props@) =~= seq![(kp, value_of(rm, m.key.column@))] + project(
                rm,
                sub,
                Some(kp),
            ));
        }
        j += 1;
    }
    assert(m.properties@.subrange(0, j as int) =~= m.properties@);
    MappedNode { key, props }
}

/// Maps rows to node records: key from the key column, properties from
/// their columns. Fails on the first row that lacks a column the mapping
/// reads.
pub fn map_rows_to_nodes(rows: &[LogicalRow], mapping: &NodeMappingConfig) -> (r: Result<
    Vec<MappedNode>,
    SyncError,
>)
    ensures
        mapped_or_missing(rows_model(rows@), node_columns(mapping), r),
        r matches Ok(nodes) ==> nodes_of(rows_model(rows@), mapping, nodes@),
{
    let cols = node_column_list(mapping);
    let mut out: Vec<MappedNode> = Vec::new();
    let mut i: usize = 0;
    while i < rows.len()
        invariant
            i <= rows.len(),
            texts(cols@) == node_columns(mapping),
            out.len() == i,
            forall|j: int| 0 <= j < i ==> all_present(#[trigger] rows_model(rows@)[j], node_columns(mapping)),
            forall|j: int|
                0 <= j < i ==> {
                    &&& (#[trigger] out@[j]).key.model() == value_of(rows@[j].model(), mapping.key.column@)
                    &&& pairs_model(out@[j].props@) == node_props(rows@[j].model(), mapping)
                },
        decreases rows.len() - i,
    {
        assert(rows_model(rows@)[i as int] == rows@[i as int].model());
        match first_missing_column(&rows[i], &cols) {
            Some(k) => {
                return Err(SyncError::MissingColumn { row: i, column: cols[k].clone() });
            },
            None => {},
        }
        out.push(node_of_row(&rows[i], mapping));
        i += 1;
    }
    Ok(out)
}

pub open spec fn match_columns(specs: Seq<MatchOn>) -> Seq<Seq<char>> {
    specs.map_values(|s: MatchOn| s.column@)
}

pub open spec fn prop_columns(specs: Seq<(String, PropertySpec)>) -> Seq<Seq<char>> {
    specs.map_values(|p: (String, PropertySpec)| p.1.column@)
}

pub open spec fn key_columns(m: &EdgeMappingConfig) -> Seq<Seq<char>> {
    match m.key {
        Some(k) => seq![k.column@],
        None => Seq::empty(),
    }
}

/// The columns an edge mapping reads, in the order they are checked.
pub open spec fn edge_columns(m: &EdgeMappingConfig) -> Seq<Seq<char>> {
    match_columns(m.from.match_on@) + match_columns(m.to.match_on@) + key_columns(m) + prop_columns(
        m.properties@,
    )
}

/// Endpoint match properties as (graph property, value).
pub open spec fn match_props(row: Seq<(Seq<char>, JsonModel)>, specs: Seq<MatchOn>) -> Seq<
    (Seq<char>, JsonModel),
> {
    specs.map_values(|s: MatchOn| (s.property@, value_of(row, s.column@)))
}

/// Declared properties as (name, value).
pub open spec fn props_of(row: Seq<(Seq<char>, JsonModel)>, specs: Seq<(String, PropertySpec)>) -> Seq<
    (Seq<char>, JsonModel),
> {
    specs.map_values(|p: (String, PropertySpec)| (p.0@, value_of(row, p.1.column@)))
}

pub open spec fn opt_value_model(o: Option<JsonValue>) -> Option<JsonModel> {
    match o {
        Some(v) => Some(v.model()),
        None => None,
    }
}

/// `e` is the record of `row` under `m`.
pub open spec fn edge_of(row: Seq<(Seq<char>, JsonModel)>, m: &EdgeMappingConfig, e: MappedEdge) -> bool {
    &&& pairs_model(e.from_props@) == match_props(row, m.from.match_on@)
    &&& pairs_model(e.to_props@) == match_props(row, m.to.match_on@)
    &&& opt_value_model(e.edge_key) == (match m.key {
        Some(k) => Some(value_of(row, k.column@)),
        None => None,
    })
    &&& pairs_model(e.props@) == props_of(row, m.properties@)
}

/// `edges` are the records of `rows` under `m`, one per row, in order.
pub open spec fn edges_of(
    rows: Seq<Seq<(Seq<char>, JsonModel)>>,
    m: &EdgeMappingConfig,
    edges: Seq<MappedEdge>,
) -> bool {
    &&& edges.len() == rows.len()
    &&& forall|i: int| 0 <= i < rows.len() ==> edge_of(rows[i], m, #[trigger] edges[i])
}

fn push_match_columns(cols: &mut Vec<String>, specs: &Vec<MatchOn>)
    ensures
        texts(final(cols)@) == texts(old(cols)@) + match_columns(specs@),
{
    let ghost start = texts(cols@);
    let mut j: usize = 0;
    while j < specs.len()
        invariant
            j <= specs.len(),
            texts(cols@) == start + match_columns(specs@.subrange(0, j as int)),
        decreases specs.len() - j,
    {
        let ghost before = cols@;
        cols.push(specs[j].column.clone());
        assert(texts(cols@) =~= texts(before).push(specs@[j as int].column@));
        assert(match_columns(specs@.subrange(0, j + 1)) =~= match_columns(
            specs@.subrange(0, j as int),
        ).push(specs@[j as int].column@));
        j += 1;
    }
    assert(specs@.subrange(0, j as int) =~= specs@);
}

fn push_prop_columns(cols: &mut Vec<String>, specs: &Vec<(String, PropertySpec)>)
    ensures
        texts(final(cols)@) == texts(old(cols)@) + prop_columns(specs@),
{
    let ghost start = texts(cols@);
    let mut j: usize = 0;
    while j < specs.len()
        invariant
            j <= specs.len(),
            texts(cols@) == start + prop_columns(specs@.subrange(0, j as int)),
        decreases specs.len() - j,
    {
        let ghost before = cols@;
        cols.push(specs[j].1.column.clone());
        assert(texts(cols@) =~= texts(before).push(specs@[j as int].1.column@));
        assert(prop_columns(specs@.subrange(0, j + 1)) =~= prop_columns(
            specs@.subrange(0, j as int),
        ).push(specs@[j as int].1.column@));
        j += 1;
    }
    assert(specs@.subrange(0, j as int) =~= specs@);
}

fn edge_column_list(m: &EdgeMappingConfig) -> (r: Vec<String>)
    ensures
        texts(r@) == edge_columns(m),
{
    let mut cols: Vec<String> = Vec::new();
    assert(texts(cols@) =~= Seq::empty());
    push_match_columns(&mut cols, &m.from.match_on);
    push_match_columns(&mut cols, &m.to.match_on);
    if let Some(k) = &m.key {
        let ghost before = cols@;
        cols.push(k.column.clone());
        assert(texts(cols@) =~= texts(before).push(k.column@));
    }
    push_prop_columns(&mut cols, &m.properties);
    assert(texts(cols@) =~= edge_columns(m));
    cols
}

/// The endpoint match properties of a row that has every match column.
fn build_match_props(row: &LogicalRow, specs: &Vec<MatchOn>) -> (r: Vec<(String, JsonValue)>)
    requires
        all_present(row.model(), match_columns(specs@)),
    ensures
        pairs_model(r@) == match_props(row.model(), specs@),
{
    let mut props: Vec<(String, JsonValue)> = Vec::new();
    let mut j: usize = 0;
    while j < specs.len()
        invariant
            j <= specs.len(),
            all_present(row.model(), match_columns(specs@)),
            pairs_model(props@) == match_props(row.model(), specs@.subrange(0, j as int)),
        decreases specs.len() - j,
    {
        let ghost before = props@;
        assert(match_columns(specs@)[j as int] == specs@[j as int].column@);
        let v = value_at(row, specs[j].column.as_str());
        props.push((specs[j].property.clone(), v));
        proof {
            lemma_pairs_model_push(before, props@.last());
            assert(props@ =~= before.push(props@.last()));
            assert(match_props(row.model(), specs@.subrange(0, j + 1)) =~= match_props(
                row.model(),
                specs@.subrange(0, j as int),
            ).push((props@.last().0@, props@.last().1.model())));
        }
        j += 1;
    }
    assert(specs@.subrange(0, j as int) =~= specs@);
    props
}

fn build_props(row: &LogicalRow, specs: &Vec<(String, PropertySpec)>) -> (r: Vec<(String, JsonValue)>)
    requires
        all_present(row.model(), prop_columns(specs@)),
    ensures
        pairs_model(r@) == props_of(row.model(), specs@),
{
    let mut props: Vec<(String, JsonValue)> = Vec::new();
    let mut j: usize = 0;
    while j < specs.len()
        invariant
            j <= specs.len(),
            all_present(row.model(), prop_columns(specs@)),
            pairs_model(props@) == props_of(row.model(), specs@.subrange(0, j as int)),
        decreases specs.len() - j,
    {
        let ghost before = props@;
        assert(prop_columns(specs@)[j as int] == specs@[j as int].1.column@);
        let v = value_at(row, specs[j].1.column.as_str());
        props.push((specs[j].0.clone(), v));
        proof {
            lemma_pairs_model_push(before, props@.last());
            assert(props@ =~= before.push(props@.last()));
            assert(props_of(row.model(), specs@.subrange(0, j + 1)) =~= props_of(
                row.model(),
                specs@.subrange(0, j as int),
            ).push((props@.last().0@, props@.last().1.model())));
        }
        j += 1;
    }
    assert(specs@.subrange(0, j as int) =~= specs@);
    props
}

fn edge_of_row(row: &LogicalRow, m: &EdgeMappingConfig) -> (r: MappedEdge)
    requires
        all_present(row.model(), edge_columns(m)),
    ensures
        edge_of(row.model(), m, r),
{
    let ghost rm = row.model();
    let ghost a = match_columns(m.from.match_on@);
    let ghost b = match_columns(m.to.match_on@);
    let ghost c = key_columns(m);
    let ghost d = prop_columns(m.properties@);
    assert(edge_columns(m) == a + b + c + d);
    assert forall|k: int| 0 <= k < a.len() implies #[trigger] lookup(rm, a[k]) is Some by {
        assert(edge_columns(m)[k] == a[k]);
    }
    assert forall|k: int| 0 <= k < b.len() implies #[trigger] lookup(rm, b[k]) is Some by {
        assert(edge_columns(m)[a.len() + k] == b[k]);
    }
    assert forall|k: int| 0 <= k < d.len() implies #[trigger] lookup(rm, d[k]) is Some by {
        assert(edge_columns(m)[a.len() + b.len() + c.len() + k] == d[k]);
    }
    let from_props = build_match_props(row, &m.from.match_on);
    let to_props = build_match_props(row, &m.to.match_on);
    let edge_key = match &m.key {
        Some(k) => {
            assert(edge_columns(m)[(a.len() + b.len()) as int] == k.column@);
            Some(value_at(row, k.column.as_str()))
        },
        None => None,
    };
    let props = build_props(row, &m.properties);
    MappedEdge { from_props, to_props, edge_key, props }
}

/// Maps rows to edge records: endpoint match properties, the optional edge
/// key, and the edge's properties, each from its column. Fails on the first
/// row that lacks a column the mapping reads.
pub fn map_rows_to_edges(rows: &[LogicalRow], mapping: &EdgeMappingConfig) -> (r: Result<
    Vec<MappedEdge>,
    SyncError,
>)
    ensures
        mapped_or_missing(rows_model(rows@), edge_columns(mapping), r),
        r matches Ok(edges) ==> edges_of(rows_model(rows@), mapping, edges@),
{
    let cols = edge_column_list(mapping);
    let mut out: Vec<MappedEdge> = Vec::new();
    let mut i: usize = 0;
    while i < rows.len()
        invariant
            i <= rows.len(),
            texts(cols@) == edge_columns(mapping),
            out.len() == i,
            forall|j: int| 0 <= j < i ==> all_present(#[trigger] rows_model(rows@)[j], edge_columns(mapping)),
            forall|j: int| 0 <= j < i ==> edge_of(rows@[j].model(), mapping, #[trigger] out@[j]),
        decreases rows.len() - i,
    {
        assert(rows_model(rows@)[i as int] == rows@[i as int].model());
        match first_missing_column(&rows[i], &cols) {
            Some(k) => {
                return Err(SyncError::MissingColumn { row: i, column: cols[k].clone() });
            },
            None => {},
        }
        out.push(edge_of_row(&rows[i], mapping));
        i += 1;
    }
    Ok(out)
}

/// A row is a tombstone when the delta spec names both a flag column and a
/// flag value, and the row's flag column holds a value deeply equal to it.
pub open spec fn is_deleted(row: Seq<(Seq<char>, JsonModel)>, delta: &DeltaSpec) -> bool {
    &&& delta.deleted_flag_column is Some
    &&& delta.deleted_flag_value is Some
    &&& lookup(row, delta.deleted_flag_column->0@) == Some(delta.deleted_flag_value->0.model())
}

/// The rows whose tombstone status is `deleted`, in order.
pub open spec fn keep_rows(rows: Seq<Seq<(Seq<char>, JsonModel)>>, delta: &DeltaSpec, deleted: bool) -> Seq<
    Seq<(Seq<char>, JsonModel)>,
>
    decreases rows.len(),
{
    if rows.len() == 0 {
        Seq::empty()
    } else {
        let init = keep_rows(rows.drop_last(), delta, deleted);
        if is_deleted(rows.last(), delta) == deleted {
            init.push(rows.last())
        } else {
            init
        }
    }
}

fn row_is_deleted(row: &LogicalRow, delta: &DeltaSpec) -> (r: bool)
    ensures
        r == is_deleted(row.model(), delta),
{
    match (&delta.deleted_flag_column, &delta.deleted_flag_value) {
        (Some(col), Some(flag)) => match row.get(col.as_str()) {
            Some(v) => v.same_as(flag),
            None => false,
        },
        _ => false,
    }
}

/// Splits rows into (active, deleted) by the soft-delete flag, keeping order.
pub fn partition_by_deleted(rows: &[LogicalRow], delta: &DeltaSpec) -> (r: (
    Vec<LogicalRow>,
    Vec<LogicalRow>,
))
    ensures
        rows_model(r.0@) == keep_rows(rows_model(rows@), delta, false),
        rows_model(r.1@) == keep_rows(rows_model(rows@), delta, true),
{
    let ghost all = rows_model(rows@);
    let mut active: Vec<LogicalRow> = Vec::new();
    let mut deleted: Vec<LogicalRow> = Vec::new();
    let mut i: usize = 0;
    assert(rows_model(active@) =~= keep_rows(all.subrange(0, 0), delta, false));
    assert(rows_model(deleted@) =~= keep_rows(all.subrange(0, 0), delta, true));
    while i < rows.len()
        invariant
            i <= rows.len(),
            all == rows_model(rows@),
            rows_model(active@) == keep_rows(all.subrange(0, i as int), delta, false),
            rows_model(deleted@) == keep_rows(all.subrange(0, i as int), delta, true),
        decreases rows.len() - i,
    {
        let ghost sub = all.subrange(0, i + 1);
        assert(sub.drop_last() =~= all.subrange(0, i as int));
        assert(sub.last() == rows@[i as int].model());
        let ghost a0 = active@;
        let ghost d0 = deleted@;
        if row_is_deleted(&rows[i], delta) {
            deleted.push(rows[i].deep_clone());
            assert(rows_model(deleted@) =~= rows_model(d0).push(rows@[i as int].model()));
        } else {
            active.push(rows[i].deep_clone());
            assert(rows_model(active@) =~= rows_model(a0).push(rows@[i as int].model()));
        }
        i += 1;
    }
    assert(all.subrange(0, i as int) =~= all);
    (active, deleted)
}

proof fn lemma_keep_rows_status(rows: Seq<Seq<(Seq<char>, JsonModel)>>, delta: &DeltaSpec, deleted: bool)
    ensures
        forall|x| #[trigger] keep_rows(rows, delta, deleted).contains(x) ==> is_deleted(x, delta) == deleted,
    decreases rows.len(),
{
    if rows.len() > 0 {
        lemma_keep_rows_status(rows.drop_last(), delta, deleted);
        let init = keep_rows(rows.drop_last(), delta, deleted);
        assert forall|x| #[trigger] keep_rows(rows, delta, deleted).contains(x) implies is_deleted(
            x,
            delta,
        ) == deleted by {
            if is_deleted(rows.last(), delta) == deleted {
                let k = choose|k: int| 0 <= k < init.len() + 1 && init.push(rows.last())[k] == x;
                if k < init.len() {
                    assert(init.contains(x));
                }
            } else {
                assert(init.contains(x));
            }
        }
    }
}

/// Soft-delete partitioning loses and duplicates nothing: the active and the
/// deleted rows together are exactly the input rows (as a multiset), and no
/// row is in both parts.
pub proof fn lemma_partition_is_exact(rows: Seq<Seq<(Seq<char>, JsonModel)>>, delta: &DeltaSpec)
    ensures
        keep_rows(rows, delta, false).to_multiset().add(keep_rows(rows, delta, true).to_multiset())
            == rows.to_multiset(),
        forall|x|
            #[trigger] keep_rows(rows, delta, false).contains(x) ==> !keep_rows(
                rows,
                delta,
                true,
            ).contains(x),
    decreases rows.len(),
{
    lemma_keep_rows_status(rows, delta, false);
    lemma_keep_rows_status(rows, delta, true);
    if rows.len() == 0 {
        assert(rows.to_multiset() =~= Multiset::empty());
        assert(keep_rows(rows, delta, false).to_multiset() =~= Multiset::empty());
        assert(keep_rows(rows, delta, true).to_multiset() =~= Multiset::empty());
        assert(Multiset::<Seq<(Seq<char>, JsonModel)>>::empty().add(Multiset::empty()) =~= Multiset::empty());
    } else {
        let init = rows.drop_last();
        lemma_partition_is_exact(init, delta);
        assert(rows =~= init.push(rows.last()));
        let a = keep_rows(init, delta, false);
        let d = keep_rows(init, delta, true);
        if is_deleted(rows.last(), delta) {
            assert(keep_rows(rows, delta, true).to_multiset() =~= d.to_multiset().insert(rows.last()));
            assert(a.to_multiset().add(d.to_multiset().insert(rows.last())) =~= a.to_multiset().add(
                d.to_multiset(),
            ).insert(rows.last()));
        } else {
            assert(keep_rows(rows, delta, false).to_multiset() =~= a.to_multiset().insert(rows.last()));
            assert(a.to_multiset().insert(rows.last()).add(d.to_multiset()) =~= a.to_multiset().add(
                d.to_multiset(),
            ).insert(rows.last()));
        }
    }
}

} // verus!
