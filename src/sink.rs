//! Cypher statements: batched node and edge upserts and deletes, indexes,
//! and purges.

use vstd::prelude::*;
use crate::batch::{batch_bounds, batch_ranges, lemma_batches_cover, ranges_view};
use crate::config::{EdgeDirection, EdgeMappingConfig, NodeMappingConfig};
use crate::cypher::{encode, json_value_to_cypher_literal};
use crate::error::{Endpoint, SyncError};
use crate::json::{JsonModel, JsonValue, clone_pairs, lemma_models_of, lemma_pairs_model, models_of, pairs_model};
use crate::mapping::{MappedEdge, MappedNode, texts};

verus! {

/// Labels joined with `:`, e.g. `["A", "B"]` gives `A:B`.
pub open spec fn join_labels(s: Seq<Seq<char>>) -> Seq<char>
    decreases s.len(),
{
    if s.len() == 0 {
        Seq::empty()
    } else if s.len() == 1 {
        s[0]
    } else {
        join_labels(s.drop_last()) + seq![':'] + s.last()
    }
}

/// The label clause of a label list.
pub fn label_clause(labels: &Vec<String>) -> (r: String)
    ensures
        r@ == join_labels(texts(labels@)),
{
    let mut out = String::new();
    let mut i: usize = 0;
    while i < labels.len()
        invariant
            i <= labels.len(),
            out@ == join_labels(texts(labels@.subrange(0, i as int))),
        decreases labels.len() - i,
    {
        if i > 0 {
            out.push(':');
        }
        out.append(labels[i].as_str());
        let ghost sub = texts(labels@.subrange(0, i + 1));
        assert(sub.drop_last() =~= texts(labels@.subrange(0, i as int)));
        assert(out@ =~= join_labels(sub));
        i += 1;
    }
    assert(labels@.subrange(0, i as int) =~= labels@);
    out
}

/// One `UNWIND` row of a node batch: its key, and for upserts its properties.
pub open spec fn node_row(n: MappedNode, with_props: bool) -> JsonModel {
    if with_props {
        JsonModel::Object(
            seq![("key"@, n.key.model()), ("props"@, JsonModel::Object(pairs_model(n.props@)))],
        )
    } else {
        JsonModel::Object(seq![("key"@, n.key.model())])
    }
}

pub open spec fn node_rows(s: Seq<MappedNode>, with_props: bool) -> JsonModel {
    JsonModel::Array(s.map_values(|n: MappedNode| node_row(n, with_props)))
}

/// `UNWIND <rows> AS row MERGE (n:<labels> { <key>: row.key }) SET n += row.props`
pub open spec fn node_upsert_text(labels: Seq<char>, key_prop: Seq<char>, rows: JsonModel) -> Seq<
    char,
> {
    "UNWIND "@ + encode(rows) + " AS row MERGE (n:"@ + labels + " { "@ + key_prop
        + ": row.key }) SET n += row.props"@
}

/// `UNWIND <rows> AS row MATCH (n:<labels> { <key>: row.key }) DETACH DELETE n`
pub open spec fn node_delete_text(labels: Seq<char>, key_prop: Seq<char>, rows: JsonModel) -> Seq<
    char,
> {
    "UNWIND "@ + encode(rows) + " AS row MATCH (n:"@ + labels + " { "@ + key_prop
        + ": row.key }) DETACH DELETE n"@
}

pub open spec fn node_text(m: &NodeMappingConfig, batch: Seq<MappedNode>, upsert: bool) -> Seq<char> {
    let labels = join_labels(texts(m.labels@));
    if upsert {
        node_upsert_text(labels, m.key.property@, node_rows(batch, true))
    } else {
        node_delete_text(labels, m.key.property@, node_rows(batch, false))
    }
}

/// One statement per batch of `batch_size`, in order.
pub open spec fn batched_texts<A>(
    items: Seq<A>,
    batch_size: nat,
    text: spec_fn(Seq<A>) -> Seq<char>,
    r: Seq<String>,
) -> bool {
    let ranges = batch_ranges(0, items.len(), batch_size);
    &&& r.len() == ranges.len()
    &&& forall|i: int|
        0 <= i < ranges.len() ==> (#[trigger] r[i])@ == text(
            items.subrange(ranges[i].0 as int, ranges[i].1 as int),
        )
}

fn node_rows_value(nodes: &[MappedNode], start: usize, end: usize, with_props: bool) -> (r: JsonValue)
    requires
        start <= end <= nodes.len(),
    ensures
        r.model() == node_rows(nodes@.subrange(start as int, end as int), with_props),
{
    let mut rows: Vec<JsonValue> = Vec::new();
    let mut i: usize = start;
    while i < end
        invariant
            start <= i <= end <= nodes.len(),
            rows.len() == i - start,
            forall|j: int|
                0 <= j < rows.len() ==> (#[trigger] rows@[j]).model() == node_row(
                    nodes@[start + j],
                    with_props,
                ),
        decreases end - i,
    {
        let n = &nodes[i];
        let mut fields: Vec<(String, JsonValue)> = Vec::new();
        fields.push((String::from_str("key"), n.key.deep_clone()));
        if with_props {
            fields.push((String::from_str("props"), JsonValue::Object(clone_pairs(&n.props))));
        }
        proof {
            lemma_pairs_model(fields@);
            if with_props {
                assert(pairs_model(fields@) =~= seq![
                    ("key"@, n.key.model()),
                    ("props"@, JsonModel::Object(pairs_model(n.props@))),
                ]);
            } else {
                assert(pairs_model(fields@) =~= seq![("key"@, n.key.model())]);
            }
        }
        let row = JsonValue::Object(fields);
        assert(row.model() == node_row(nodes@[i as int], with_props));
        rows.push(row);
        i += 1;
    }
    proof {
        lemma_models_of(rows@);
        assert(models_of(rows@) =~= nodes@.subrange(start as int, end as int).map_values(
            |n: MappedNode| node_row(n, with_props),
        ));
    }
    JsonValue::Array(rows)
}

fn node_statement(m: &NodeMappingConfig, labels: &String, nodes: &[MappedNode], start: usize, end: usize, upsert: bool) -> (r: String)
    requires
        start <= end <= nodes.len(),
        labels@ == join_labels(texts(m.labels@)),
    ensures
        r@ == node_text(m, nodes@.subrange(start as int, end as int), upsert),
{
    let rows = node_rows_value(nodes, start, end, upsert);
    let literal = json_value_to_cypher_literal(&rows);
    let mut q = String::from_str("UNWIND ");
    q.append(literal.as_str());
    if upsert {
        q.append(" AS row MERGE (n:");
    } else {
        q.append(" AS row MATCH (n:");
    }
    q.append(labels.as_str());
    q.append(" { ");
    q.append(m.key.property.as_str());
    if upsert {
        q.append(": row.key }) SET n += row.props");
    } else {
        q.append(": row.key }) DETACH DELETE n");
    }
    q
}

fn node_statements(mapping: &NodeMappingConfig, nodes: &[MappedNode], batch_size: usize, upsert: bool) -> (r: Vec<String>)
    requires
        batch_size >= 1,
    ensures
        batched_texts(nodes@, batch_size as nat, |b: Seq<MappedNode>| node_text(mapping, b, upsert), r@),
{
    let labels = label_clause(&mapping.labels);
    let bounds = batch_bounds(nodes.len(), batch_size);
    let ghost ranges = batch_ranges(0, nodes.len() as nat, batch_size as nat);
    proof {
        lemma_batches_cover(nodes@, batch_size as nat);
        assert(ranges_view(bounds@).len() == bounds@.len());
    }
    let mut out: Vec<String> = Vec::new();
    let mut i: usize = 0;
    while i < bounds.len()
        invariant
            i <= bounds.len(),
            ranges == batch_ranges(0, nodes.len() as nat, batch_size as nat),
            ranges_view(bounds@) == ranges,
            bounds.len() == ranges.len(),
            labels@ == join_labels(texts(mapping.labels@)),
            forall|k: int|
                0 <= k < ranges.len() ==> {
                    let r = #[trigger] ranges[k];
                    r.0 < r.1 <= nodes.len()
                },
            out.len() == i,
            forall|k: int|
                0 <= k < i ==> (#[trigger] out@[k])@ == node_text(
                    mapping,
                    nodes@.subrange(ranges[k].0 as int, ranges[k].1 as int),
                    upsert,
                ),
        decreases bounds.len() - i,
    {
        let (a, b) = bounds[i];
        assert(ranges[i as int] == (a as nat, b as nat));
        out.push(node_statement(mapping, &labels, nodes, a, b, upsert));
        i += 1;
    }
    out
}

/// The `MERGE` statements that upsert `nodes`, one per batch, in order.
pub fn node_upsert_statements(mapping: &NodeMappingConfig, nodes: &[MappedNode], batch_size: usize) -> (r: Vec<String>)
    requires
        batch_size >= 1,
    ensures
        batched_texts(nodes@, batch_size as nat, |b: Seq<MappedNode>| node_text(mapping, b, true), r@),
{
    node_statements(mapping, nodes, batch_size, true)
}

/// The `DETACH DELETE` statements that remove `nodes`, one per batch, in order.
pub fn node_delete_statements(mapping: &NodeMappingConfig, nodes: &[MappedNode], batch_size: usize) -> (r: Vec<String>)
    requires
        batch_size >= 1,
    ensures
        batched_texts(nodes@, batch_size as nat, |b: Seq<MappedNode>| node_text(mapping, b, false), r@),
{
    node_statements(mapping, nodes, batch_size, false)
}

/// One `UNWIND` row of an edge batch: endpoint match properties, the edge
/// key when present, and for upserts the edge's properties.
pub open spec fn edge_row(e: MappedEdge, with_props: bool) -> JsonModel {
    let base = seq![
        ("from"@, JsonModel::Object(pairs_model(e.from_props@))),
        ("to"@, JsonModel::Object(pairs_model(e.to_props@))),
    ];
    let keyed = match e.edge_key {
        Some(k) => base.push(("edgeKey"@, k.model())),
        None => base,
    };
    JsonModel::Object(
        if with_props {
            keyed.push(("props"@, JsonModel::Object(pairs_model(e.props@))))
        } else {
            keyed
        },
    )
}

pub open spec fn edge_rows(s: Seq<MappedEdge>, with_props: bool) -> JsonModel {
    JsonModel::Array(s.map_values(|e: MappedEdge| edge_row(e, with_props)))
}

/// `(src)-[r:<rel>]->(tgt)`, reversed for `in`, with `{ <key>: row.edgeKey }`
/// inside the brackets when the mapping has an edge key.
pub open spec fn relationship_pattern(m: &EdgeMappingConfig) -> Seq<char> {
    let keyed = match m.key {
        Some(k) => " { "@ + k.property@ + ": row.edgeKey }"@,
        None => Seq::empty(),
    };
    let body = "[r:"@ + m.relationship@ + keyed + "]"@;
    match m.direction {
        EdgeDirection::Out => "(src)-"@ + body + "->(tgt)"@,
        EdgeDirection::In => "(src)<-"@ + body + "-(tgt)"@,
    }
}

/// The statement of one edge batch. Endpoints are matched on the first
/// entry of each `match_on` list.
pub open spec fn edge_text(
    m: &EdgeMappingConfig,
    from_labels: Seq<char>,
    to_labels: Seq<char>,
    batch: Seq<MappedEdge>,
    upsert: bool,
) -> Seq<char> {
    let fk = m.from.match_on@[0].property@;
    let tk = m.to.match_on@[0].property@;
    "UNWIND "@ + encode(edge_rows(batch, upsert)) + " AS row MATCH (src:"@ + from_labels + " { "@ + fk
        + ": row.from."@ + fk + " }) MATCH (tgt:"@ + to_labels + " { "@ + tk + ": row.to."@ + tk
        + " }) "@ + (if upsert {
        "MERGE "@
    } else {
        "MATCH "@
    }) + relationship_pattern(m) + (if upsert {
        " SET r += row.props"@
    } else {
        " DELETE r"@
    })
}

fn edge_rows_value(edges: &[MappedEdge], start: usize, end: usize, with_props: bool) -> (r: JsonValue)
    requires
        start <= end <= edges.len(),
    ensures
        r.model() == edge_rows(edges@.subrange(start as int, end as int), with_props),
{
    let mut rows: Vec<JsonValue> = Vec::new();
    let mut i: usize = start;
    while i < end
        invariant
            start <= i <= end <= edges.len(),
            rows.len() == i - start,
            forall|j: int|
                0 <= j < rows.len() ==> (#[trigger] rows@[j]).model() == edge_row(
                    edges@[start + j],
                    with_props,
                ),
        decreases end - i,
    {
        let e = &edges[i];
        let mut fields: Vec<(String, JsonValue)> = Vec::new();
        fields.push((String::from_str("from"), JsonValue::Object(clone_pairs(&e.from_props))));
        fields.push((String::from_str("to"), JsonValue::Object(clone_pairs(&e.to_props))));
        let ghost base = seq![
            ("from"@, JsonModel::Object(pairs_model(e.from_props@))),
            ("to"@, JsonModel::Object(pairs_model(e.to_props@))),
        ];
        let ghost keyed = match &e.edge_key {
            Some(k) => base.push(("edgeKey"@, k.model())),
            None => base,
        };
        if let Some(k) = &e.edge_key {
            fields.push((String::from_str("edgeKey"), k.deep_clone()));
        }
        if with_props {
            fields.push((String::from_str("props"), JsonValue::Object(clone_pairs(&e.props))));
        }
        proof {
            lemma_pairs_model(fields@);
            if with_props {
                assert(pairs_model(fields@) =~= keyed.push(
                    ("props"@, JsonModel::Object(pairs_model(e.props@))),
                ));
            } else {
                assert(pairs_model(fields@) =~= keyed);
            }
        }
        let row = JsonValue::Object(fields);
        assert(row.model() == edge_row(edges@[i as int], with_props));
        rows.push(row);
        i += 1;
    }
    proof {
        lemma_models_of(rows@);
        assert(models_of(rows@) =~= edges@.subrange(start as int, end as int).map_values(
            |e: MappedEdge| edge_row(e, with_props),
        ));
    }
    JsonValue::Array(rows)
}

fn append_relationship_pattern(q: &mut String, m: &EdgeMappingConfig)
    ensures
        final(q)@ == old(q)@ + relationship_pattern(m),
{
    let ghost start = q@;
    match m.direction {
        EdgeDirection::Out => q.append("(src)-"),
        EdgeDirection::In => q.append("(src)<-"),
    }
    q.append("[r:");
    q.append(m.relationship.as_str());
    if let Some(k) = &m.key {
        q.append(" { ");
        q.append(k.property.as_str());
        q.append(": row.edgeKey }");
    }
    q.append("]");
    match m.direction {
        EdgeDirection::Out => q.append("->(tgt)"),
        EdgeDirection::In => q.append("-(tgt)"),
    }
    assert(q@ =~= start + relationship_pattern(m));
}

fn edge_statement(
    m: &EdgeMappingConfig,
    from_labels: &String,
    to_labels: &String,
    edges: &[MappedEdge],
    start: usize,
    end: usize,
    upsert: bool,
) -> (r: String)
    requires
        start <= end <= edges.len(),
        m.from.match_on.len() > 0,
        m.to.match_on.len() > 0,
    ensures
        r@ == edge_text(m, from_labels@, to_labels@, edges@.subrange(start as int, end as int), upsert),
{
    let fk = m.from.match_on[0].property.as_str();
    let tk = m.to.match_on[0].property.as_str();
    let rows = edge_rows_value(edges, start, end, upsert);
    let literal = json_value_to_cypher_literal(&rows);
    let mut q = String::from_str("UNWIND ");
    q.append(literal.as_str());
    q.append(" AS row MATCH (src:");
    q.append(from_labels.as_str());
    q.append(" { ");
    q.append(fk);
    q.append(": row.from.");
    q.append(fk);
    q.append(" }) MATCH (tgt:");
    q.append(to_labels.as_str());
    q.append(" { ");
    q.append(tk);
    q.append(": row.to.");
    q.append(tk);
    q.append(" }) ");
    if upsert {
        q.append("MERGE ");
    } else {
        q.append("MATCH ");
    }
    append_relationship_pattern(&mut q, m);
    if upsert {
        q.append(" SET r += row.props");
    } else {
        q.append(" DELETE r");
    }
    q
}

/// The outcome of building edge statements: nothing for no edges; an error
/// for an endpoint without match columns (`from` checked first); else one
/// statement per batch, in order.
pub open spec fn edge_statements_ok(
    m: &EdgeMappingConfig,
    edges: Seq<MappedEdge>,
    from_labels: Seq<char>,
    to_labels: Seq<char>,
    batch_size: nat,
    upsert: bool,
    r: Result<Vec<String>, SyncError>,
) -> bool {
    if edges.len() == 0 {
        r matches Ok(v) && v.len() == 0
    } else if m.from.match_on.len() == 0 {
        r matches Err(SyncError::NoMatchColumns { endpoint: Endpoint::From })
    } else if m.to.match_on.len() == 0 {
        r matches Err(SyncError::NoMatchColumns { endpoint: Endpoint::To })
    } else {
        r matches Ok(v) && batched_texts(
            edges,
            batch_size,
            |b: Seq<MappedEdge>| edge_text(m, from_labels, to_labels, b, upsert),
            v@,
        )
    }
}

fn edge_statements(
    mapping: &EdgeMappingConfig,
    edges: &[MappedEdge],
    from_labels: &Vec<String>,
    to_labels: &Vec<String>,
    batch_size: usize,
    upsert: bool,
) -> (r: Result<Vec<String>, SyncError>)
    requires
        batch_size >= 1,
    ensures
        edge_statements_ok(
            mapping,
            edges@,
            join_labels(texts(from_labels@)),
            join_labels(texts(to_labels@)),
            batch_size as nat,
            upsert,
            r,
        ),
{
    if edges.len() == 0 {
        return Ok(Vec::new());
    }
    if mapping.from.match_on.len() == 0 {
        return Err(SyncError::NoMatchColumns { endpoint: Endpoint::From });
    }
    if mapping.to.match_on.len() == 0 {
        return Err(SyncError::NoMatchColumns { endpoint: Endpoint::To });
    }
    let fl = label_clause(from_labels);
    let tl = label_clause(to_labels);
    let bounds = batch_bounds(edges.len(), batch_size);
    let ghost ranges = batch_ranges(0, edges.len() as nat, batch_size as nat);
    proof {
        lemma_batches_cover(edges@, batch_size as nat);
        assert(ranges_view(bounds@).len() == bounds@.len());
    }
    let mut out: Vec<String> = Vec::new();
    let mut i: usize = 0;
    while i < bounds.len()
        invariant
            i <= bounds.len(),
            mapping.from.match_on.len() > 0,
            mapping.to.match_on.len() > 0,
            ranges == batch_ranges(0, edges.len() as nat, batch_size as nat),
            ranges_view(bounds@) == ranges,
            bounds.len() == ranges.len(),
            forall|k: int|
                0 <= k < ranges.len() ==> {
                    let r = #[trigger] ranges[k];
                    r.0 < r.1 <= edges.len()
                },
            out.len() == i,
            forall|k: int|
                0 <= k < i ==> (#[trigger] out@[k])@ == edge_text(
                    mapping,
                    fl@,
                    tl@,
                    edges@.subrange(ranges[k].0 as int, ranges[k].1 as int),
                    upsert,
                ),
        decreases bounds.len() - i,
    {
        let (a, b) = bounds[i];
        assert(ranges[i as int] == (a as nat, b as nat));
        out.push(edge_statement(mapping, &fl, &tl, edges, a, b, upsert));
        i += 1;
    }
    Ok(out)
}

/// The `MERGE` statements that upsert `edges` between nodes carrying
/// `from_labels` and `to_labels`, one per batch, in order.
pub fn edge_upsert_statements(
    mapping: &EdgeMappingConfig,
    edges: &[MappedEdge],
    from_labels: &Vec<String>,
    to_labels: &Vec<String>,
    batch_size: usize,
) -> (r: Result<Vec<String>, SyncError>)
    requires
        batch_size >= 1,
    ensures
        edge_statements_ok(
            mapping,
            edges@,
            join_labels(texts(from_labels@)),
            join_labels(texts(to_labels@)),
            batch_size as nat,
            true,
            r,
        ),
{
    edge_statements(mapping, edges, from_labels, to_labels, batch_size, true)
}

/// The `DELETE` statements that remove `edges`, one per batch, in order.
pub fn edge_delete_statements(
    mapping: &EdgeMappingConfig,
    edges: &[MappedEdge],
    from_labels: &Vec<String>,
    to_labels: &Vec<String>,
    batch_size: usize,
) -> (r: Result<Vec<String>, SyncError>)
    requires
        batch_size >= 1,
    ensures
        edge_statements_ok(
            mapping,
            edges@,
            join_labels(texts(from_labels@)),
            join_labels(texts(to_labels@)),
            batch_size as nat,
            false,
            r,
        ),
{
    edge_statements(mapping, edges, from_labels, to_labels, batch_size, false)
}

} // verus!
