//! The decisions of a synchronization run: endpoint resolution, index and
//! purge statements, and for each mapping the statements to submit, the
//! counts to record and the watermark it observed.

use vstd::prelude::*;
use crate::config::{EdgeDirection, EdgeMappingConfig, EntityMapping, NodeMappingConfig};
use crate::error::SyncError;
use crate::json::JsonModel;
use crate::mapping::{
    MappedEdge, MappedNode, all_present, edge_columns, edges_of, keep_rows, map_rows_to_edges,
    map_rows_to_nodes, node_columns, nodes_of, partition_by_deleted, texts,
};
use crate::sink::{
    batched_texts, edge_delete_statements, edge_statements_ok, edge_upsert_statements, join_labels,
    label_clause, node_delete_statements, node_text, node_upsert_statements,
};
use crate::source::{LogicalRow, rows_model};
use crate::watermark::{Instant, compute_max_watermark, rows_max_instant};

verus! {

pub open spec fn mapping_name(m: EntityMapping) -> Seq<char> {
    match m {
        EntityMapping::Node(n) => n.common.name@,
        EntityMapping::Edge(e) => e.common.name@,
    }
}

pub open spec fn is_node_named(m: EntityMapping, name: Seq<char>) -> bool {
    m is Node && m->Node_0.common.name@ == name
}

/// The first mapping named `name`.
pub fn find_mapping(mappings: &Vec<EntityMapping>, name: &str) -> (r: Option<usize>)
    ensures
        match r {
            Some(i) => i < mappings.len() && mapping_name(mappings@[i as int]) == name@ && forall|j: int|
                0 <= j < i ==> mapping_name(#[trigger] mappings@[j]) != name@,
            None => forall|j: int| 0 <= j < mappings.len() ==> mapping_name(#[trigger] mappings@[j]) != name@,
        },
{
    let mut i: usize = 0;
    while i < mappings.len()
        invariant
            i <= mappings.len(),
            forall|j: int| 0 <= j < i ==> mapping_name(#[trigger] mappings@[j]) != name@,
        decreases mappings.len() - i,
    {
        if mappings[i].common().name.as_str().eq(name) {
            return Some(i);
        }
        i += 1;
    }
    None
}

/// The first node mapping named `name`.
pub fn find_node_mapping(mappings: &Vec<EntityMapping>, name: &str) -> (r: Option<usize>)
    ensures
        match r {
            Some(i) => i < mappings.len() && is_node_named(mappings@[i as int], name@) && forall|j: int|
                0 <= j < i ==> !is_node_named(#[trigger] mappings@[j], name@),
            None => forall|j: int| 0 <= j < mappings.len() ==> !is_node_named(#[trigger] mappings@[j], name@),
        },
{
    let mut i: usize = 0;
    while i < mappings.len()
        invariant
            i <= mappings.len(),
            forall|j: int| 0 <= j < i ==> !is_node_named(#[trigger] mappings@[j], name@),
        decreases mappings.len() - i,
    {
        if let EntityMapping::Node(n) = &mappings[i] {
            if n.common.name.as_str().eq(name) {
                return Some(i);
            }
        }
        i += 1;
    }
    None
}

/// The labels an endpoint is matched with: its override, else the labels of
/// the node mapping it names.
pub open spec fn endpoint_labels_spec(override_labels: Option<Vec<String>>, node: EntityMapping) -> Seq<Seq<char>> {
    match override_labels {
        Some(l) => texts(l@),
        None => texts(node->Node_0.labels@),
    }
}

fn copy_texts(l: &Vec<String>) -> (r: Vec<String>)
    ensures
        texts(r@) == texts(l@),
{
    let mut out: Vec<String> = Vec::new();
    let mut i: usize = 0;
    while i < l.len()
        invariant
            i <= l.len(),
            out.len() == i,
            forall|j: int| 0 <= j < i ==> (#[trigger] out@[j])@ == l@[j]@,
        decreases l.len() - i,
    {
        out.push(l[i].clone());
        i += 1;
    }
    assert(texts(out@) =~= texts(l@));
    out
}

/// Resolves the labels of both endpoints of an edge mapping. Both referenced
/// node mappings must exist, `from` checked first.
pub fn endpoint_labels(mappings: &Vec<EntityMapping>, edge: &EdgeMappingConfig) -> (r: Result<
    (Vec<String>, Vec<String>),
    SyncError,
>)
    ensures
        match r {
            Ok((f, t)) => exists|i: int, j: int|
                0 <= i < mappings.len() && 0 <= j < mappings.len() && is_node_named(
                    #[trigger] mappings@[i],
                    edge.from.node_mapping@,
                ) && is_node_named(#[trigger] mappings@[j], edge.to.node_mapping@) && texts(f@)
                    == endpoint_labels_spec(edge.from.label_override, mappings@[i]) && texts(t@)
                    == endpoint_labels_spec(edge.to.label_override, mappings@[j]),
            Err(e) => e matches SyncError::UnknownNodeMapping { mapping, reference }
                && mapping@ == edge.common.name@ && ((reference@ == edge.from.node_mapping@
                && forall|k: int|
                0 <= k < mappings.len() ==> !is_node_named(#[trigger] mappings@[k], edge.from.node_mapping@))
                || (reference@ == edge.to.node_mapping@ && forall|k: int|
                0 <= k < mappings.len() ==> !is_node_named(#[trigger] mappings@[k], edge.to.node_mapping@))),
        },
        r is Err <==> (forall|k: int|
            0 <= k < mappings.len() ==> !is_node_named(#[trigger] mappings@[k], edge.from.node_mapping@))
            || (forall|k: int|
            0 <= k < mappings.len() ==> !is_node_named(#[trigger] mappings@[k], edge.to.node_mapping@)),
{
    let fi = match find_node_mapping(mappings, edge.from.node_mapping.as_str()) {
        Some(i) => i,
        None => {
            return Err(
                SyncError::UnknownNodeMapping {
                    mapping: edge.common.name.clone(),
                    reference: edge.from.node_mapping.clone(),
                },
            );
        },
    };
    let ti = match find_node_mapping(mappings, edge.to.node_mapping.as_str()) {
        Some(i) => i,
        None => {
            return Err(
                SyncError::UnknownNodeMapping {
                    mapping: edge.common.name.clone(),
                    reference: edge.to.node_mapping.clone(),
                },
            );
        },
    };
    let from = match &edge.from.label_override {
        Some(l) => copy_texts(l),
        None => match &mappings[fi] {
            EntityMapping::Node(n) => copy_texts(&n.labels),
            EntityMapping::Edge(_) => Vec::new(),
        },
    };
    let to = match &edge.to.label_override {
        Some(l) => copy_texts(l),
        None => match &mappings[ti] {
            EntityMapping::Node(n) => copy_texts(&n.labels),
            EntityMapping::Edge(_) => Vec::new(),
        },
    };
    assert(is_node_named(mappings@[fi as int], edge.from.node_mapping@));
    assert(is_node_named(mappings@[ti as int], edge.to.node_mapping@));
    Ok((from, to))
}

/// `CREATE INDEX ON :<labels>(<property>)`
pub open spec fn index_text(key: (Seq<char>, Seq<char>)) -> Seq<char> {
    "CREATE INDEX ON :"@ + key.0 + "("@ + key.1 + ")"@
}

/// The distinct (label clause, key property) pairs of the node mappings with
/// labels, in order of first appearance.
pub open spec fn index_keys(ms: Seq<EntityMapping>) -> Seq<(Seq<char>, Seq<char>)>
    decreases ms.len(),
{
    if ms.len() == 0 {
        Seq::empty()
    } else {
        let init = index_keys(ms.drop_last());
        match ms.last() {
            EntityMapping::Node(n) => {
                let k = (join_labels(texts(n.labels@)), n.key.property@);
                if n.labels.len() > 0 && !init.contains(k) {
                    init.push(k)
                } else {
                    init
                }
            },
            EntityMapping::Edge(_) => init,
        }
    }
}

pub open spec fn pairs_view(s: Seq<(String, String)>) -> Seq<(Seq<char>, Seq<char>)> {
    s.map_values(|p: (String, String)| (p.0@, p.1@))
}

fn contains_pair(seen: &Vec<(String, String)>, a: &str, b: &str) -> (r: bool)
    ensures
        r == pairs_view(seen@).contains((a@, b@)),
{
    let mut i: usize = 0;
    while i < seen.len()
        invariant
            i <= seen.len(),
            forall|j: int| 0 <= j < i ==> (#[trigger] pairs_view(seen@)[j]) != (a@, b@),
        decreases seen.len() - i,
    {
        if seen[i].0.as_str().eq(a) && seen[i].1.as_str().eq(b) {
            assert(pairs_view(seen@)[i as int] == (a@, b@));
            return true;
        }
        assert(pairs_view(seen@)[i as int] == (seen@[i as int].0@, seen@[i as int].1@));
        i += 1;
    }
    false
}

/// One index statement per distinct (labels, key property) of the node
/// mappings, in declaration order.
pub fn index_statements(mappings: &Vec<EntityMapping>) -> (r: Vec<String>)
    ensures
        r.len() == index_keys(mappings@).len(),
        forall|i: int| 0 <= i < r.len() ==> (#[trigger] r@[i])@ == index_text(index_keys(mappings@)[i]),
{
    let mut seen: Vec<(String, String)> = Vec::new();
    let mut out: Vec<String> = Vec::new();
    let mut i: usize = 0;
    assert(pairs_view(seen@) =~= index_keys(mappings@.subrange(0, 0)));
    while i < mappings.len()
        invariant
            i <= mappings.len(),
            pairs_view(seen@) == index_keys(mappings@.subrange(0, i as int)),
            out.len() == seen.len(),
            forall|k: int| 0 <= k < out.len() ==> (#[trigger] out@[k])@ == index_text(pairs_view(seen@)[k]),
        decreases mappings.len() - i,
    {
        let ghost sub = mappings@.subrange(0, i + 1);
        assert(sub.drop_last() =~= mappings@.subrange(0, i as int));
        assert(sub.last() == mappings@[i as int]);
        if let EntityMapping::Node(n) = &mappings[i] {
            if n.labels.len() > 0 {
                let labels = label_clause(&n.labels);
                if !contains_pair(&seen, labels.as_str(), n.key.property.as_str()) {
                    let mut q = String::from_str("CREATE INDEX ON :");
                    q.append(labels.as_str());
                    q.append("(");
                    q.append(n.key.property.as_str());
                    q.append(")");
                    let ghost before = seen@;
                    seen.push((labels, n.key.property.clone()));
                    assert(pairs_view(seen@) =~= pairs_view(before).push((seen@.last().0@, seen@.last().1@)));
                    out.push(q);
                }
            }
        }
        i += 1;
    }
    assert(mappings@.subrange(0, i as int) =~= mappings@);
    out
}

/// The statement that removes every node and edge.
pub fn purge_all_statement() -> (r: String)
    ensures
        r@ == "MATCH (n) DETACH DELETE n"@,
{
    String::from_str("MATCH (n) DETACH DELETE n")
}

/// `MATCH (n:<labels>) DETACH DELETE n`
pub open spec fn node_purge_text(n: NodeMappingConfig) -> Seq<char> {
    "MATCH (n:"@ + join_labels(texts(n.labels@)) + ") DETACH DELETE n"@
}

/// `MATCH (src:<from>)-[r:<rel>]->(tgt:<to>) DELETE r`, the arrow reversed
/// for `in` edges.
pub open spec fn edge_purge_text(e: EdgeMappingConfig, from: Seq<char>, to: Seq<char>) -> Seq<char> {
    match e.direction {
        EdgeDirection::Out => "MATCH (src:"@ + from + ")-[r:"@ + e.relationship@ + "]->(tgt:"@ + to
            + ") DELETE r"@,
        EdgeDirection::In => "MATCH (src:"@ + from + ")<-[r:"@ + e.relationship@ + "]-(tgt:"@ + to
            + ") DELETE r"@,
    }
}

/// The statement that purges what one mapping writes: a node mapping's
/// nodes by label, an edge mapping's typed relationships between its
/// resolved endpoint labels.
pub fn purge_statement(mappings: &Vec<EntityMapping>, mapping: &EntityMapping) -> (r: Result<
    String,
    SyncError,
>)
    ensures
        match *mapping {
            EntityMapping::Node(n) => r matches Ok(q) && q@ == node_purge_text(n),
            EntityMapping::Edge(e) => match r {
                Ok(q) => exists|i: int, j: int|
                    0 <= i < mappings.len() && 0 <= j < mappings.len() && is_node_named(
                        #[trigger] mappings@[i],
                        e.from.node_mapping@,
                    ) && is_node_named(#[trigger] mappings@[j], e.to.node_mapping@) && q@
                        == edge_purge_text(
                        e,
                        join_labels(endpoint_labels_spec(e.from.label_override, mappings@[i])),
                        join_labels(endpoint_labels_spec(e.to.label_override, mappings@[j])),
                    ),
                Err(err) => err is UnknownNodeMapping,
            },
        },
        mapping is Edge ==> (r is Err <==> (forall|k: int|
            0 <= k < mappings.len() ==> !is_node_named(
                #[trigger] mappings@[k],
                mapping->Edge_0.from.node_mapping@,
            )) || (forall|k: int|
            0 <= k < mappings.len() ==> !is_node_named(
                #[trigger] mappings@[k],
                mapping->Edge_0.to.node_mapping@,
            ))),
{
    match mapping {
        EntityMapping::Node(n) => {
            let labels = label_clause(&n.labels);
            let mut q = String::from_str("MATCH (n:");
            q.append(labels.as_str());
            q.append(") DETACH DELETE n");
            Ok(q)
        },
        EntityMapping::Edge(e) => {
            let (from, to) = endpoint_labels(mappings, e)?;
            let fl = label_clause(&from);
            let tl = label_clause(&to);
            let mut q = String::from_str("MATCH (src:");
            q.append(fl.as_str());
            match e.direction {
                EdgeDirection::Out => q.append(")-[r:"),
                EdgeDirection::In => q.append(")<-[r:"),
            }
            q.append(e.relationship.as_str());
            match e.direction {
                EdgeDirection::Out => q.append("]->(tgt:"),
                EdgeDirection::In => q.append("]-(tgt:"),
            }
            q.append(tl.as_str());
            q.append(") DELETE r");
            Ok(q)
        },
    }
}

/// The purge options of one daemon tick: as given on the first tick, none after.
pub fn daemon_purge_options(first: bool, purge_graph: bool, purge_mappings: &Vec<String>) -> (r: (
    bool,
    Vec<String>,
))
    ensures
        r.0 == (first && purge_graph),
        first ==> texts(r.1@) == texts(purge_mappings@),
        !first ==> r.1.len() == 0,
{
    if first {
        (purge_graph, copy_texts(purge_mappings))
    } else {
        (false, Vec::new())
    }
}

/// What one mapping submits and records after its rows were fetched.
pub struct MappingPlan {
    /// Upsert statements, one per batch, submitted first.
    pub upserts: Vec<String>,
    /// Delete statements for tombstoned rows, submitted after the upserts.
    pub deletes: Vec<String>,
    pub rows_written: usize,
    pub rows_deleted: usize,
    /// The latest timestamp of the fetched rows, for the watermark.
    pub observed: Option<Instant>,
}

/// (active, deleted) rows of a mapping: partitioned by the delta spec's
/// soft-delete flag, all active without a delta spec.
pub open spec fn split_rows(
    rows: Seq<Seq<(Seq<char>, JsonModel)>>,
    delta: Option<crate::config::DeltaSpec>,
) -> (Seq<Seq<(Seq<char>, JsonModel)>>, Seq<Seq<(Seq<char>, JsonModel)>>) {
    match delta {
        Some(d) => (keep_rows(rows, &d, false), keep_rows(rows, &d, true)),
        None => (rows, Seq::empty()),
    }
}

/// The instant a mapping observed: the latest of its rows' updated-at
/// timestamps, when it has a delta spec.
pub open spec fn observed_instant(
    rows: Seq<Seq<(Seq<char>, JsonModel)>>,
    delta: Option<crate::config::DeltaSpec>,
) -> Option<Instant> {
    match delta {
        Some(d) => rows_max_instant(rows, d.updated_at_column@),
        None => None,
    }
}

pub open spec fn all_rows_present(rows: Seq<Seq<(Seq<char>, JsonModel)>>, cols: Seq<Seq<char>>) -> bool {
    forall|i: int| 0 <= i < rows.len() ==> all_present(#[trigger] rows[i], cols)
}

fn observe(rows: &[LogicalRow], delta: &Option<crate::config::DeltaSpec>) -> (r: Option<Instant>)
    ensures
        r == observed_instant(rows_model(rows@), *delta),
{
    match delta {
        Some(d) => compute_max_watermark(rows, d.updated_at_column.as_str()),
        None => None,
    }
}

/// The plan of a node mapping: active rows are upserted, tombstoned rows
/// deleted, in batches of `batch_size`.
pub fn plan_node_mapping(mapping: &NodeMappingConfig, rows: &[LogicalRow], batch_size: usize) -> (r: Result<
    MappingPlan,
    SyncError,
>)
    requires
        batch_size >= 1,
    ensures
        ({
            let (act, del) = split_rows(rows_model(rows@), mapping.common.delta);
            &&& (r is Ok <==> all_rows_present(act, node_columns(mapping)) && all_rows_present(
                del,
                node_columns(mapping),
            ))
            &&& (r matches Err(e) ==> e is MissingColumn)
            &&& (r matches Ok(p) ==> {
                &&& p.rows_written == act.len()
                &&& p.rows_deleted == del.len()
                &&& p.observed == observed_instant(rows_model(rows@), mapping.common.delta)
                &&& exists|ns: Seq<MappedNode>, ds: Seq<MappedNode>|
                    #![trigger nodes_of(act, mapping, ns), nodes_of(del, mapping, ds)]
                    nodes_of(act, mapping, ns) && nodes_of(del, mapping, ds) && batched_texts(
                        ns,
                        batch_size as nat,
                        |b: Seq<MappedNode>| node_text(mapping, b, true),
                        p.upserts@,
                    ) && batched_texts(
                        ds,
                        batch_size as nat,
                        |b: Seq<MappedNode>| node_text(mapping, b, false),
                        p.deletes@,
                    )
            })
        }),
{
    let observed = observe(rows, &mapping.common.delta);
    let (nodes, gone) = match &mapping.common.delta {
        Some(d) => {
            let (active, deleted) = partition_by_deleted(rows, d);
            let nodes = map_rows_to_nodes(active.as_slice(), mapping)?;
            let gone = map_rows_to_nodes(deleted.as_slice(), mapping)?;
            (nodes, gone)
        },
        None => {
            let nodes = map_rows_to_nodes(rows, mapping)?;
            let gone: Vec<MappedNode> = Vec::new();
            proof {
                assert(nodes_of(Seq::empty(), mapping, gone@));
            }
            (nodes, gone)
        },
    };
    let upserts = node_upsert_statements(mapping, nodes.as_slice(), batch_size);
    let deletes = node_delete_statements(mapping, gone.as_slice(), batch_size);
    Ok(MappingPlan {
        upserts,
        deletes,
        rows_written: nodes.len(),
        rows_deleted: gone.len(),
        observed,
    })
}

pub open spec fn has_match_columns(m: &EdgeMappingConfig) -> bool {
    m.from.match_on.len() > 0 && m.to.match_on.len() > 0
}

/// The plan of an edge mapping between endpoints carrying `from_labels` and
/// `to_labels`: active rows are upserted, tombstoned rows deleted, in
/// batches of `batch_size`.
pub fn plan_edge_mapping(
    mapping: &EdgeMappingConfig,
    from_labels: &Vec<String>,
    to_labels: &Vec<String>,
    rows: &[LogicalRow],
    batch_size: usize,
) -> (r: Result<MappingPlan, SyncError>)
    requires
        batch_size >= 1,
    ensures
        ({
            let (act, del) = split_rows(rows_model(rows@), mapping.common.delta);
            let fl = join_labels(texts(from_labels@));
            let tl = join_labels(texts(to_labels@));
            &&& (r is Ok <==> all_rows_present(act, edge_columns(mapping)) && all_rows_present(
                del,
                edge_columns(mapping),
            ) && (act.len() + del.len() == 0 || has_match_columns(mapping)))
            &&& (r matches Err(e) ==> e is MissingColumn || e is NoMatchColumns)
            &&& (r matches Ok(p) ==> {
                &&& p.rows_written == act.len()
                &&& p.rows_deleted == del.len()
                &&& p.observed == observed_instant(rows_model(rows@), mapping.common.delta)
                &&& exists|es: Seq<MappedEdge>, ds: Seq<MappedEdge>|
                    #![trigger edges_of(act, mapping, es), edges_of(del, mapping, ds)]
                    edges_of(act, mapping, es) && edges_of(del, mapping, ds) && edge_statements_ok(
                        mapping,
                        es,
                        fl,
                        tl,
                        batch_size as nat,
                        true,
                        Ok(p.upserts),
                    ) && edge_statements_ok(
                        mapping,
                        ds,
                        fl,
                        tl,
                        batch_size as nat,
                        false,
                        Ok(p.deletes),
                    )
            })
        }),
{
    let observed = observe(rows, &mapping.common.delta);
    let (edges, gone) = match &mapping.common.delta {
        Some(d) => {
            let (active, deleted) = partition_by_deleted(rows, d);
            let edges = map_rows_to_edges(active.as_slice(), mapping)?;
            let gone = map_rows_to_edges(deleted.as_slice(), mapping)?;
            (edges, gone)
        },
        None => {
            let edges = map_rows_to_edges(rows, mapping)?;
            let gone: Vec<MappedEdge> = Vec::new();
            proof {
                assert(edges_of(Seq::empty(), mapping, gone@));
            }
            (edges, gone)
        },
    };
    let upserts = edge_upsert_statements(mapping, edges.as_slice(), from_labels, to_labels, batch_size)?;
    let deletes = edge_delete_statements(mapping, gone.as_slice(), from_labels, to_labels, batch_size)?;
    Ok(MappingPlan {
        upserts,
        deletes,
        rows_written: edges.len(),
        rows_deleted: gone.len(),
        observed,
    })
}

} // verus!
