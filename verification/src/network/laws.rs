//! What the traffic graph promises across calls: edge values aggregate every
//! request counted on them, node neighbour sets agree with the edges, and
//! counting one request is adding the value it builds.
use vstd::prelude::*;

use super::graph::{
    add_edge_step, add_edges_fit, add_edges_model, incoming, outgoing, self_loop, step_fits,
    EdgeKeyView, NetworkGraphState, NetworkGraphView, NodeKeyView,
};
use super::value::{
    buckets_within_count, default_bounds, hit, histogram_of, lemma_bucket_bound_increasing, millis, observe_fits,
    value_merge, value_of, value_observe, NetworkValueView,
};
use crate::sorted::{lemma_map_of_lookup, map_of, unique_keys};

verus! {

/// How many requests of a sequence are on an edge.
pub open spec fn count_for(s: Seq<(EdgeKeyView, u128)>, k: EdgeKeyView) -> nat
    decreases s.len(),
{
    if s.len() == 0 {
        0
    } else {
        count_for(s.drop_last(), k) + if s.last().0 == k {
            1nat
        } else {
            0nat
        }
    }
}

/// How many requests of a sequence on an edge were faster than a bound.
pub open spec fn hits_for(s: Seq<(EdgeKeyView, u128)>, k: EdgeKeyView, le: u128) -> nat
    decreases s.len(),
{
    if s.len() == 0 {
        0
    } else {
        hits_for(s.drop_last(), k, le) + if s.last().0 == k {
            hit(s.last().1, le) as nat
        } else {
            0nat
        }
    }
}

/// The whole milliseconds of the requests of a sequence on an edge.
pub open spec fn millis_for(s: Seq<(EdgeKeyView, u128)>, k: EdgeKeyView) -> nat
    decreases s.len(),
{
    if s.len() == 0 {
        0
    } else {
        millis_for(s.drop_last(), k) + if s.last().0 == k {
            millis(s.last().1) as nat
        } else {
            0nat
        }
    }
}

proof fn lemma_none_for(s: Seq<(EdgeKeyView, u128)>, k: EdgeKeyView, le: u128)
    requires
        count_for(s, k) == 0,
    ensures
        hits_for(s, k, le) == 0,
        millis_for(s, k) == 0,
    decreases s.len(),
{
    if s.len() > 0 {
        lemma_none_for(s.drop_last(), k, le);
    }
}

/// Every edge's buckets count no more requests than the edge does.
pub open spec fn buckets_bounded(g: NetworkGraphView) -> bool {
    forall|k: EdgeKeyView| #[trigger] g.edges.contains_key(k) ==> buckets_within_count(g.edges[k])
}

/// The bucket bounds that an edge starts from.
pub open spec fn base_bounds(g: NetworkGraphView, k: EdgeKeyView) -> Set<u128> {
    if g.edges.contains_key(k) {
        g.edges[k].duration.buckets.dom()
    } else {
        default_bounds().to_set()
    }
}

pub open spec fn base_count(g: NetworkGraphView, k: EdgeKeyView) -> int {
    if g.edges.contains_key(k) {
        g.edges[k].count as int
    } else {
        0
    }
}

pub open spec fn base_total(g: NetworkGraphView, k: EdgeKeyView) -> int {
    if g.edges.contains_key(k) {
        g.edges[k].duration.total_ms as int
    } else {
        0
    }
}

pub open spec fn base_bucket(g: NetworkGraphView, k: EdgeKeyView, le: u128) -> int {
    if g.edges.contains_key(k) && g.edges[k].duration.buckets.contains_key(le) {
        g.edges[k].duration.buckets[le] as int
    } else {
        0
    }
}

/// The histogram of one observation holds exactly the default bounds, each
/// counting whether the observation was below it.
pub proof fn lemma_histogram_of(d: u128, le: u128)
    ensures
        histogram_of(d).buckets.contains_key(le) == default_bounds().contains(le),
        histogram_of(d).buckets.contains_key(le) ==> histogram_of(d).buckets[le] == hit(d, le),
{
    let t = default_bounds().map_values(|x: u128| (x, hit(d, x)));
    assert(unique_keys(t)) by {
        assert forall|i: int, j: int| 0 <= i < t.len() && 0 <= j < t.len() && i != j implies #[trigger] t[i].0 != #[trigger] t[j].0 by {
            if i < j {
                lemma_bucket_bound_increasing(i as nat, j as nat);
            } else {
                lemma_bucket_bound_increasing(j as nat, i as nat);
            }
            crate::network::value::lemma_bucket_bound_small(i as nat);
            crate::network::value::lemma_bucket_bound_small(j as nat);
        }
    }
    lemma_map_of_lookup(t, le);
    if default_bounds().contains(le) {
        let i = choose|i: int| 0 <= i < default_bounds().len() && default_bounds()[i] == le;
        assert(t[i].0 == le);
    }
}

/// Every well-formed graph keeps its buckets within their edges' counts, so
/// the aggregation law applies to it.
pub proof fn law_state_buckets_bounded(g: &NetworkGraphState)
    requires
        g.wf(),
    ensures
        buckets_bounded(g@),
{
    g.lemma_wf_buckets_within_count();
}

/// Requests aggregate on their edge: an edge's value counts every request
/// made on it, each bucket counts those faster than its bound, and the total
/// adds up their milliseconds.  (Edges counted before keep their buckets;
/// new edges get the default ones.)
pub proof fn law_add_edges_aggregates(g: NetworkGraphView, s: Seq<(EdgeKeyView, u128)>, k: EdgeKeyView)
    requires
        buckets_bounded(g),
        add_edges_fit(g, s),
    ensures
        buckets_bounded(add_edges_model(g, s)),
        add_edges_model(g, s).edges.contains_key(k) == (g.edges.contains_key(k) || count_for(s, k) > 0),
        add_edges_model(g, s).edges.contains_key(k) ==> {
            let v = add_edges_model(g, s).edges[k];
            &&& v.count == base_count(g, k) + count_for(s, k)
            &&& v.duration.total_ms == base_total(g, k) + millis_for(s, k)
            &&& v.duration.buckets.dom() == base_bounds(g, k)
            &&& forall|le: u128| #[trigger] v.duration.buckets.contains_key(le) ==> v.duration.buckets[le] == base_bucket(g, k, le) + hits_for(s, k, le)
        },
    decreases s.len(),
{
    if s.len() > 0 {
        let s0 = s.drop_last();
        assert forall|i: int| 0 <= i < s0.len() implies step_fits(add_edges_model(g, #[trigger] s0.take(i)), s0[i].0, s0[i].1) by {
            assert(s0.take(i) =~= s.take(i));
            assert(step_fits(add_edges_model(g, s.take(i)), s[i].0, s[i].1));
        }
        law_add_edges_aggregates(g, s0, k);
        law_add_edges_aggregates(g, s0, s.last().0);
        let h = add_edges_model(g, s0);
        let (e, d) = s.last();
        assert(s.take(s.len() - 1) =~= s0);
        assert(step_fits(h, e, d));
        let h2 = add_edge_step(h, e, d);
        assert(h2 == add_edges_model(g, s));
        assert forall|x: EdgeKeyView| #[trigger] h2.edges.contains_key(x) implies buckets_within_count(h2.edges[x]) by {
            if x == e {
                if h.edges.contains_key(e) {
                    assert(buckets_within_count(h.edges[e]));
                } else {
                    assert forall|le: u128| #[trigger] h2.edges[x].duration.buckets.contains_key(le) implies h2.edges[x].duration.buckets[le] <= h2.edges[x].count by {
                        lemma_histogram_of(d, le);
                    }
                }
            } else {
                assert(h.edges.contains_key(x));
            }
        }
        if e == k {
            if h.edges.contains_key(k) {
                let v0 = h.edges[k];
                let v = h2.edges[k];
                assert(v == value_observe(v0, d));
                assert(v0.count < usize::MAX);
                assert(v.count == v0.count + 1);
                assert(v.duration.total_ms == v0.duration.total_ms + millis(d));
                assert(v.duration.buckets.dom() =~= v0.duration.buckets.dom());
                assert forall|le: u128| #[trigger] v.duration.buckets.contains_key(le) implies v.duration.buckets[le] == base_bucket(g, k, le) + hits_for(s, k, le) by {
                    assert(v0.duration.buckets.contains_key(le));
                    assert(v0.duration.buckets[le] <= v0.count);
                    assert(v.duration.buckets[le] == v0.duration.buckets[le] + hit(d, le));
                }
            } else {
                assert(count_for(s0, k) == 0);
                lemma_none_for(s0, k, 0);
                let v = h2.edges[k];
                assert(v == value_of(d));
                assert(!g.edges.contains_key(k));
                assert forall|le: u128| #[trigger] v.duration.buckets.dom().contains(le) == base_bounds(g, k).contains(le) by {
                    lemma_histogram_of(d, le);
                }
                assert(v.duration.buckets.dom() =~= base_bounds(g, k));
                assert forall|le: u128| #[trigger] v.duration.buckets.contains_key(le) implies v.duration.buckets[le] == base_bucket(g, k, le) + hits_for(s, k, le) by {
                    lemma_histogram_of(d, le);
                    lemma_none_for(s0, k, le);
                }
            }
        } else {
            assert(h2.edges.contains_key(k) == h.edges.contains_key(k));
        }
    }
}

/// Every node's neighbour sets agree with the edges: a node sends to
/// exactly the nodes it has an edge to, receives from exactly the nodes with
/// an edge to it, and is looped exactly when it has an edge to itself.
pub open spec fn consistent(g: NetworkGraphView) -> bool {
    &&& forall|e: EdgeKeyView| #[trigger] g.edges.contains_key(e) && e.0 != e.1 ==> {
        &&& g.nodes.contains_key(e.0) && g.nodes[e.0].to.contains(e.1)
        &&& g.nodes.contains_key(e.1) && g.nodes[e.1].from.contains(e.0)
    }
    &&& forall|e: EdgeKeyView| #[trigger] g.edges.contains_key(e) && e.0 == e.1 ==> g.nodes.contains_key(e.0) && g.nodes[e.0].looped
    &&& forall|a: NodeKeyView, b: NodeKeyView| g.nodes.contains_key(a) && #[trigger] g.nodes[a].to.contains(b) ==> g.edges.contains_key((a, b)) && a != b
    &&& forall|a: NodeKeyView, b: NodeKeyView| g.nodes.contains_key(a) && #[trigger] g.nodes[a].from.contains(b) ==> g.edges.contains_key((b, a)) && a != b
    &&& forall|a: NodeKeyView| #[trigger] g.nodes.contains_key(a) && g.nodes[a].looped ==> g.edges.contains_key((a, a))
}

proof fn lemma_step_consistent(g: NetworkGraphView, k: EdgeKeyView, d: u128)
    requires
        consistent(g),
    ensures
        consistent(add_edge_step(g, k, d)),
{
    let h = add_edge_step(g, k, d);
    assert forall|e: EdgeKeyView| #[trigger] h.edges.contains_key(e) && e.0 != e.1 implies {
        &&& h.nodes.contains_key(e.0) && h.nodes[e.0].to.contains(e.1)
        &&& h.nodes.contains_key(e.1) && h.nodes[e.1].from.contains(e.0)
    } by {
        if e != k {
            assert(g.edges.contains_key(e));
        }
    }
    assert forall|e: EdgeKeyView| #[trigger] h.edges.contains_key(e) && e.0 == e.1 implies h.nodes.contains_key(e.0) && h.nodes[e.0].looped by {
        if e != k {
            assert(g.edges.contains_key(e));
        }
    }
    assert forall|a: NodeKeyView, b: NodeKeyView| h.nodes.contains_key(a) && #[trigger] h.nodes[a].to.contains(b) implies h.edges.contains_key((a, b)) && a != b by {
        if !(a == k.0 && b == k.1) {
            assert(g.nodes.contains_key(a) && g.nodes[a].to.contains(b));
        }
    }
    assert forall|a: NodeKeyView, b: NodeKeyView| h.nodes.contains_key(a) && #[trigger] h.nodes[a].from.contains(b) implies h.edges.contains_key((b, a)) && a != b by {
        if !(a == k.1 && b == k.0) {
            assert(g.nodes.contains_key(a) && g.nodes[a].from.contains(b));
        }
    }
    assert forall|a: NodeKeyView| #[trigger] h.nodes.contains_key(a) && h.nodes[a].looped implies h.edges.contains_key((a, a)) by {
        if !(a == k.0 && k.0 == k.1) {
            assert(g.nodes.contains_key(a) && g.nodes[a].looped);
        }
    }
}

/// Counting requests keeps every node's neighbour sets in agreement with the
/// edges; an empty graph agrees.
pub proof fn law_add_edges_consistent(g: NetworkGraphView, s: Seq<(EdgeKeyView, u128)>)
    requires
        consistent(g),
    ensures
        consistent(add_edges_model(g, s)),
    decreases s.len(),
{
    if s.len() > 0 {
        law_add_edges_consistent(g, s.drop_last());
        lemma_step_consistent(add_edges_model(g, s.drop_last()), s.last().0, s.last().1);
    }
}

/// An empty graph is consistent.
pub proof fn law_empty_consistent()
    ensures
        consistent(
            NetworkGraphView {
                edges: Map::<EdgeKeyView, NetworkValueView>::empty(),
                nodes: Map::empty(),
            },
        ),
{
}

/// In a consistent graph a node's view lists every neighbour with the value
/// of the edge between them, and its self loop exactly when it is looped.
pub proof fn law_get_node_complete(g: NetworkGraphView, key: NodeKeyView)
    requires
        consistent(g),
        g.nodes.contains_key(key),
    ensures
        incoming(g, key).dom() == g.nodes[key].from,
        outgoing(g, key).dom() == g.nodes[key].to,
        self_loop(g, key) is Some == g.nodes[key].looped,
{
    assert(incoming(g, key).dom() =~= g.nodes[key].from);
    assert(outgoing(g, key).dom() =~= g.nodes[key].to);
}

/// Counting one request on a value built with the default buckets is adding
/// the value that request builds.
pub proof fn law_observe_is_merge_of_built(v: NetworkValueView, d: u128)
    requires
        v.duration.buckets.dom() == default_bounds().to_set(),
        v.count < usize::MAX,
        observe_fits(v.duration, d),
    ensures
        value_observe(v, d) == value_merge(v, value_of(d)),
{
    let a = value_observe(v, d);
    let b = value_merge(v, value_of(d));
    assert forall|le: u128| #[trigger] a.duration.buckets.contains_key(le) == b.duration.buckets.contains_key(le) && (a.duration.buckets.contains_key(le) ==> a.duration.buckets[le] == b.duration.buckets[le]) by {
        lemma_histogram_of(d, le);
        assert(v.duration.buckets.contains_key(le) == default_bounds().to_set().contains(le));
    }
    assert(a.duration.buckets =~= b.duration.buckets);
}

/// A sequence's map gives an entry's value for a key that no other entry has.
proof fn lemma_map_of_sole<K, V>(s: Seq<(K, V)>, i: int)
    requires
        0 <= i < s.len(),
        forall|j: int| 0 <= j < s.len() && j != i ==> #[trigger] s[j].0 != s[i].0,
    ensures
        map_of(s).contains_key(s[i].0),
        map_of(s)[s[i].0] == s[i].1,
    decreases s.len(),
{
    if i < s.len() - 1 {
        let t = s.drop_last();
        assert forall|j: int| 0 <= j < t.len() && j != i implies #[trigger] t[j].0 != t[i].0 by {
            assert(t[j] == s[j]);
        }
        lemma_map_of_sole(t, i);
        assert(s[s.len() - 1].0 != s[i].0);
    }
}

/// A node's JSON form names exactly its neighbours: a text is among its
/// senders (receivers) exactly when it is the text of a sender (receiver),
/// and it is looped exactly when the node is.
pub proof fn law_node_map_json(m: super::graph::NetworkNodeMapView)
    ensures
        forall|t: Seq<char>| super::graph::node_map_json(m).from.contains(t)
            <==> exists|k: NodeKeyView| m.from.contains(k) && super::key::node_key_text(k) == t,
        forall|t: Seq<char>| super::graph::node_map_json(m).to.contains(t)
            <==> exists|k: NodeKeyView| m.to.contains(k) && super::key::node_key_text(k) == t,
        super::graph::node_map_json(m).looped == m.looped,
{
}

/// In the JSON form of a consistent graph, every request from one node to
/// another lists the sender among the receiver's senders and the receiver
/// among the sender's receivers (where no other node has the same text).
pub proof fn law_json_lists_neighbours(g: &NetworkGraphState, a: NodeKeyView, b: NodeKeyView)
    requires
        g.wf(),
        consistent(g@),
        g@.edges.contains_key((a, b)),
        a != b,
        forall|k: NodeKeyView| #[trigger] g@.nodes.contains_key(k) && super::key::node_key_text(k) == super::key::node_key_text(b) ==> k == b,
        forall|k: NodeKeyView| #[trigger] g@.nodes.contains_key(k) && super::key::node_key_text(k) == super::key::node_key_text(a) ==> k == a,
    ensures
        super::graph::nodes_json(g.node_entries()).contains_key(super::key::node_key_text(b)),
        super::graph::nodes_json(g.node_entries())[super::key::node_key_text(b)].from.contains(super::key::node_key_text(a)),
        super::graph::nodes_json(g.node_entries()).contains_key(super::key::node_key_text(a)),
        super::graph::nodes_json(g.node_entries())[super::key::node_key_text(a)].to.contains(super::key::node_key_text(b)),
{
    g.lemma_entries();
    let e = g.node_entries();
    crate::sorted::lemma_sorted_unique::<super::key::NetworkNodeKey, super::graph::NetworkNodeMapView>(e);
    let j = e.map_values(|x: (NodeKeyView, super::graph::NetworkNodeMapView)| (super::key::node_key_text(x.0), super::graph::node_map_json(x.1)));
    assert(g@.nodes.contains_key(b) && g@.nodes[b].from.contains(a));
    assert(g@.nodes.contains_key(a) && g@.nodes[a].to.contains(b));
    lemma_map_of_lookup(e, b);
    lemma_map_of_lookup(e, a);
    let ib = choose|i: int| 0 <= i < e.len() && #[trigger] e[i].0 == b && map_of(e)[b] == e[i].1;
    let ia = choose|i: int| 0 <= i < e.len() && #[trigger] e[i].0 == a && map_of(e)[a] == e[i].1;
    assert forall|x: int| 0 <= x < j.len() && x != ib implies #[trigger] j[x].0 != j[ib].0 by {
        crate::sorted::lemma_map_of_index(e, x);
        if j[x].0 == j[ib].0 {
            assert(g@.nodes.contains_key(e[x].0));
            assert(e[x].0 == b);
        }
    }
    assert forall|x: int| 0 <= x < j.len() && x != ia implies #[trigger] j[x].0 != j[ia].0 by {
        crate::sorted::lemma_map_of_index(e, x);
        if j[x].0 == j[ia].0 {
            assert(g@.nodes.contains_key(e[x].0));
            assert(e[x].0 == a);
        }
    }
    lemma_map_of_sole(j, ib);
    lemma_map_of_sole(j, ia);
    law_node_map_json(e[ib].1);
    law_node_map_json(e[ia].1);
    assert(super::graph::node_map_json(e[ib].1).from.contains(super::key::node_key_text(a)));
    assert(super::graph::node_map_json(e[ia].1).to.contains(super::key::node_key_text(b)));
}

} // verus!
