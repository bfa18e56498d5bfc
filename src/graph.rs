//! A model of what upsert statements do to a graph, and the laws it obeys.
//!
//! Nodes of one label set are keyed by their key value; each holds a
//! property map. `MERGE (n {key}) SET n += props` finds or creates the node
//! and overwrites the named properties.

use vstd::prelude::*;
use crate::config::{EdgeDirection, EdgeMappingConfig, NodeMappingConfig};
use crate::json::{JsonModel, lookup, pairs_model};
use crate::mapping::{MappedEdge, MappedNode, edges_of, nodes_of, opt_value_model};

verus! {

pub type Props = Map<Seq<char>, JsonModel>;

pub type NodeStore = Map<JsonModel, Props>;

/// `SET n += props`: each named property is overwritten, in order.
pub open spec fn set_props(m: Props, ps: Seq<(Seq<char>, JsonModel)>) -> Props
    decreases ps.len(),
{
    if ps.len() == 0 {
        m
    } else {
        set_props(m, ps.drop_last()).insert(ps.last().0, ps.last().1)
    }
}

pub open spec fn existing(g: NodeStore, k: JsonModel) -> Props {
    if g.contains_key(k) {
        g[k]
    } else {
        Map::empty()
    }
}

/// Merges node records `(key, props)` one after the other.
pub open spec fn merge_nodes(g: NodeStore, recs: Seq<(JsonModel, Seq<(Seq<char>, JsonModel)>)>) -> NodeStore
    decreases recs.len(),
{
    if recs.len() == 0 {
        g
    } else {
        let h = merge_nodes(g, recs.drop_last());
        let r = recs.last();
        h.insert(r.0, set_props(existing(h, r.0), r.1))
    }
}

/// The (key, properties) records that node upserts carry.
pub open spec fn node_records(ns: Seq<MappedNode>) -> Seq<(JsonModel, Seq<(Seq<char>, JsonModel)>)> {
    ns.map_values(|n: MappedNode| (n.key.model(), pairs_model(n.props@)))
}

/// All properties that records with key `k` set, in order.
pub open spec fn props_for(recs: Seq<(JsonModel, Seq<(Seq<char>, JsonModel)>)>, k: JsonModel) -> Seq<
    (Seq<char>, JsonModel),
>
    decreases recs.len(),
{
    if recs.len() == 0 {
        Seq::empty()
    } else {
        props_for(recs.drop_last(), k) + if recs.last().0 == k {
            recs.last().1
        } else {
            Seq::empty()
        }
    }
}

pub open spec fn has_key(recs: Seq<(JsonModel, Seq<(Seq<char>, JsonModel)>)>, k: JsonModel) -> bool {
    exists|i: int| 0 <= i < recs.len() && #[trigger] recs[i].0 == k
}

proof fn lemma_set_props_concat(m: Props, a: Seq<(Seq<char>, JsonModel)>, b: Seq<(Seq<char>, JsonModel)>)
    ensures
        set_props(m, a + b) == set_props(set_props(m, a), b),
    decreases b.len(),
{
    if b.len() == 0 {
        assert(a + b =~= a);
    } else {
        lemma_set_props_concat(m, a, b.drop_last());
        assert((a + b).drop_last() =~= a + b.drop_last());
        assert((a + b).last() == b.last());
    }
}

proof fn lemma_set_props_insert_absorbed(z: Props, x: (Seq<char>, JsonModel), qs: Seq<(Seq<char>, JsonModel)>)
    ensures
        set_props(z.insert(x.0, x.1), qs).insert(x.0, x.1) == set_props(z, qs).insert(x.0, x.1),
    decreases qs.len(),
{
    if qs.len() > 0 {
        let y = qs.last();
        lemma_set_props_insert_absorbed(z, x, qs.drop_last());
        let a = set_props(z.insert(x.0, x.1), qs.drop_last());
        let b = set_props(z, qs.drop_last());
        if y.0 == x.0 {
            assert(a.insert(y.0, y.1).insert(x.0, x.1) =~= a.insert(x.0, x.1));
            assert(b.insert(y.0, y.1).insert(x.0, x.1) =~= b.insert(x.0, x.1));
        } else {
            assert(a.insert(y.0, y.1).insert(x.0, x.1) =~= a.insert(x.0, x.1).insert(y.0, y.1));
            assert(b.insert(y.0, y.1).insert(x.0, x.1) =~= b.insert(x.0, x.1).insert(y.0, y.1));
        }
    }
}

/// Setting the same properties twice is setting them once.
pub proof fn lemma_set_props_idempotent(m: Props, ps: Seq<(Seq<char>, JsonModel)>)
    ensures
        set_props(set_props(m, ps), ps) == set_props(m, ps),
    decreases ps.len(),
{
    if ps.len() > 0 {
        let init = ps.drop_last();
        let x = ps.last();
        let y = set_props(m, init);
        lemma_set_props_insert_absorbed(y, x, init);
        lemma_set_props_idempotent(m, init);
    }
}

proof fn lemma_merge_nodes_shape(g: NodeStore, recs: Seq<(JsonModel, Seq<(Seq<char>, JsonModel)>)>, k: JsonModel)
    ensures
        merge_nodes(g, recs).contains_key(k) == (g.contains_key(k) || has_key(recs, k)),
        merge_nodes(g, recs).contains_key(k) ==> merge_nodes(g, recs)[k] == set_props(
            existing(g, k),
            props_for(recs, k),
        ),
    decreases recs.len(),
{
    if recs.len() > 0 {
        let init = recs.drop_last();
        lemma_merge_nodes_shape(g, init, k);
        let r = recs.last();
        if has_key(recs, k) && !has_key(init, k) {
            let i = choose|i: int| 0 <= i < recs.len() && #[trigger] recs[i].0 == k;
            if i < recs.len() - 1 {
                assert(init[i].0 == k);
            }
        }
        if has_key(init, k) {
            let i = choose|i: int| 0 <= i < init.len() && #[trigger] init[i].0 == k;
            assert(recs[i].0 == k);
        }
        if r.0 == k {
            assert(recs[recs.len() - 1].0 == k);
            let h = merge_nodes(g, init);
            if h.contains_key(k) {
                lemma_set_props_concat(existing(g, k), props_for(init, k), r.1);
            } else {
                assert(props_for(init, k) =~= Seq::empty()) by {
                    lemma_props_for_absent(init, k);
                }
                assert(props_for(init, k) + r.1 =~= r.1);
                lemma_set_props_concat(existing(g, k), props_for(init, k), r.1);
            }
        } else {
            assert(props_for(init, k) + Seq::empty() =~= props_for(init, k));
        }
    }
}

proof fn lemma_props_for_absent(recs: Seq<(JsonModel, Seq<(Seq<char>, JsonModel)>)>, k: JsonModel)
    requires
        !has_key(recs, k),
    ensures
        props_for(recs, k) == Seq::<(Seq<char>, JsonModel)>::empty(),
    decreases recs.len(),
{
    if recs.len() > 0 {
        let init = recs.drop_last();
        assert(!has_key(init, k)) by {
            if has_key(init, k) {
                let i = choose|i: int| 0 <= i < init.len() && #[trigger] init[i].0 == k;
                assert(recs[i].0 == k);
            }
        }
        lemma_props_for_absent(init, k);
        assert(recs[recs.len() - 1].0 != k);
        assert(Seq::<(Seq<char>, JsonModel)>::empty() + Seq::empty() =~= Seq::<(Seq<char>, JsonModel)>::empty());
    }
}

/// Upserting the same node records twice leaves the graph as upserting them
/// once.
pub proof fn lemma_merge_nodes_idempotent(g: NodeStore, recs: Seq<(JsonModel, Seq<(Seq<char>, JsonModel)>)>)
    ensures
        merge_nodes(merge_nodes(g, recs), recs) == merge_nodes(g, recs),
{
    let h = merge_nodes(g, recs);
    assert forall|k: JsonModel| #[trigger] merge_nodes(h, recs).contains_key(k) == h.contains_key(k) by {
        lemma_merge_nodes_shape(g, recs, k);
        lemma_merge_nodes_shape(h, recs, k);
    }
    assert forall|k: JsonModel| #[trigger] h.contains_key(k) implies merge_nodes(h, recs)[k] == h[k] by {
        lemma_merge_nodes_shape(g, recs, k);
        lemma_merge_nodes_shape(h, recs, k);
        lemma_set_props_idempotent(existing(g, k), props_for(recs, k));
    }
    assert(merge_nodes(h, recs) =~= h);
}

/// Mapping then upserting is idempotent: for any node mapping and rows, and
/// any graph, upserting the records the rows map to a second time changes
/// nothing.
pub proof fn lemma_node_sync_idempotent(
    g: NodeStore,
    m: &NodeMappingConfig,
    rows: Seq<Seq<(Seq<char>, JsonModel)>>,
    ns: Seq<MappedNode>,
)
    requires
        nodes_of(rows, m, ns),
    ensures
        merge_nodes(merge_nodes(g, node_records(ns)), node_records(ns)) == merge_nodes(
            g,
            node_records(ns),
        ),
{
    lemma_merge_nodes_idempotent(g, node_records(ns));
}

/// A node pattern `(:<labels> { <property>: <value> })`.
pub type NodePattern = (Seq<char>, Seq<char>, Option<JsonModel>);

/// An edge: relationship type, start node, end node, and edge key if any.
pub type EdgeId = (Seq<char>, NodePattern, NodePattern, Option<JsonModel>);

/// The edge an edge record merges between nodes carrying `from_labels` and
/// `to_labels`; endpoints match on the first `match_on` property.
pub open spec fn edge_id(m: &EdgeMappingConfig, from_labels: Seq<char>, to_labels: Seq<char>, e: MappedEdge) -> EdgeId {
    let fk = m.from.match_on@[0].property@;
    let tk = m.to.match_on@[0].property@;
    let src = (from_labels, fk, lookup(pairs_model(e.from_props@), fk));
    let tgt = (to_labels, tk, lookup(pairs_model(e.to_props@), tk));
    let key = match m.key {
        Some(_) => opt_value_model(e.edge_key),
        None => None,
    };
    match m.direction {
        EdgeDirection::Out => (m.relationship@, src, tgt, key),
        EdgeDirection::In => (m.relationship@, tgt, src, key),
    }
}

/// `MATCH` both endpoints, then `MERGE` the edge: an edge is found or
/// created when both endpoint nodes exist (as `found` tells), else nothing.
pub open spec fn merge_edges(edges: Set<EdgeId>, found: spec_fn(NodePattern) -> bool, ids: Seq<EdgeId>) -> Set<EdgeId>
    decreases ids.len(),
{
    if ids.len() == 0 {
        edges
    } else {
        let h = merge_edges(edges, found, ids.drop_last());
        let x = ids.last();
        if found(x.1) && found(x.2) {
            h.insert(x)
        } else {
            h
        }
    }
}

proof fn lemma_merge_edges_all_found(edges: Set<EdgeId>, found: spec_fn(NodePattern) -> bool, ids: Seq<EdgeId>)
    requires
        forall|i: int| 0 <= i < ids.len() ==> found((#[trigger] ids[i]).1) && found(ids[i].2),
    ensures
        merge_edges(edges, found, ids) == edges.union(ids.to_set()),
    decreases ids.len(),
{
    if ids.len() > 0 {
        let init = ids.drop_last();
        lemma_merge_edges_all_found(edges, found, init);
        assert(found(ids[ids.len() - 1].1));
        assert(ids =~= init.push(ids.last()));
        assert(ids.to_set() =~= init.to_set().insert(ids.last()));
        assert(edges.union(init.to_set()).insert(ids.last()) =~= edges.union(ids.to_set()));
    } else {
        assert(ids.to_set() =~= Set::empty());
        assert(edges.union(Set::empty()) =~= edges);
    }
}

/// Edge upserts give one edge per row: when every endpoint a row names
/// exists, merging the rows' edge records adds exactly the rows' edges to
/// the graph, each row's edge is present, and rows naming the same endpoints
/// (and edge key, if the mapping has one) share one edge.
pub proof fn lemma_edge_sync_one_per_row(
    edges: Set<EdgeId>,
    found: spec_fn(NodePattern) -> bool,
    m: &EdgeMappingConfig,
    from_labels: Seq<char>,
    to_labels: Seq<char>,
    rows: Seq<Seq<(Seq<char>, JsonModel)>>,
    es: Seq<MappedEdge>,
)
    requires
        edges_of(rows, m, es),
        m.from.match_on.len() > 0,
        m.to.match_on.len() > 0,
        forall|i: int|
            0 <= i < es.len() ==> found(edge_id(m, from_labels, to_labels, #[trigger] es[i]).1) && found(
                edge_id(m, from_labels, to_labels, es[i]).2,
            ),
    ensures
        ({
            let ids = es.map_values(|e: MappedEdge| edge_id(m, from_labels, to_labels, e));
            &&& merge_edges(edges, found, ids) == edges.union(ids.to_set())
            &&& forall|i: int|
                0 <= i < es.len() ==> merge_edges(edges, found, ids).contains(
                    edge_id(m, from_labels, to_labels, #[trigger] es[i]),
                )
        }),
{
    let ids = es.map_values(|e: MappedEdge| edge_id(m, from_labels, to_labels, e));
    assert forall|i: int| 0 <= i < ids.len() implies found((#[trigger] ids[i]).1) && found(ids[i].2) by {
        assert(ids[i] == edge_id(m, from_labels, to_labels, es[i]));
    }
    lemma_merge_edges_all_found(edges, found, ids);
    assert forall|i: int| 0 <= i < es.len() implies merge_edges(edges, found, ids).contains(
        edge_id(m, from_labels, to_labels, #[trigger] es[i]),
    ) by {
        assert(ids[i] == edge_id(m, from_labels, to_labels, es[i]));
        assert(ids.to_set().contains(ids[i]));
    }
}

} // verus!
