//! The traffic graph: aggregated values per edge, and per node the nodes it
//! sends to, receives from, and whether it calls itself.
use vstd::prelude::*;

use super::key::{node_key_text, NetworkEdgeKey, NetworkNodeKey, NetworkNodeKeyView};
use super::value::{
    buckets_within_count, millis, observe_fits, value_observe, value_observe_fits, value_of, NetworkHistogram,
    NetworkValue, NetworkValueBuilder, NetworkValueJson, NetworkValueJsonView, NetworkValueView,
};
use crate::sorted::{
    lemma_map_of_dom, lemma_map_of_index, lemma_sorted_unique, map_of, Duplicate, KeyOrder,
    SortedMap,
};
use crate::text::decimal;

verus! {

pub type NodeKeyView = NetworkNodeKeyView;

pub type EdgeKeyView = (NetworkNodeKeyView, NetworkNodeKeyView);

/// The neighbours of a node: who sends to it, who it sends to, and whether
/// it sends to itself.
#[derive(Clone, Debug)]
pub struct NetworkNodeMap {
    pub from: SortedMap<NetworkNodeKey, ()>,
    pub looped: bool,
    pub to: SortedMap<NetworkNodeKey, ()>,
}

pub struct NetworkNodeMapView {
    pub from: Set<NodeKeyView>,
    pub looped: bool,
    pub to: Set<NodeKeyView>,
}

impl View for NetworkNodeMap {
    type V = NetworkNodeMapView;

    open spec fn view(&self) -> NetworkNodeMapView {
        NetworkNodeMapView { from: self.from@.dom(), looped: self.looped, to: self.to@.dom() }
    }
}

/// A node with no neighbours.
pub open spec fn empty_node_map() -> NetworkNodeMapView {
    NetworkNodeMapView { from: Set::empty(), looped: false, to: Set::empty() }
}

/// The neighbours of a node, or none where the node is unknown.
pub open spec fn node_or_empty(nodes: Map<NodeKeyView, NetworkNodeMapView>, k: NodeKeyView) -> NetworkNodeMapView {
    if nodes.contains_key(k) {
        nodes[k]
    } else {
        empty_node_map()
    }
}

/// Records one neighbour of a node: a self loop, a node it sends to
/// (`outgoing`), or a node it receives from.
pub open spec fn touch(m: NetworkNodeMapView, other: NodeKeyView, is_loop: bool, outgoing: bool) -> NetworkNodeMapView {
    if is_loop {
        NetworkNodeMapView { looped: true, ..m }
    } else if outgoing {
        NetworkNodeMapView { to: m.to.insert(other), ..m }
    } else {
        NetworkNodeMapView { from: m.from.insert(other), ..m }
    }
}

pub open spec fn touch_node(
    nodes: Map<NodeKeyView, NetworkNodeMapView>,
    k: NodeKeyView,
    other: NodeKeyView,
    is_loop: bool,
    outgoing: bool,
) -> Map<NodeKeyView, NetworkNodeMapView> {
    nodes.insert(k, touch(node_or_empty(nodes, k), other, is_loop, outgoing))
}

impl NetworkNodeMap {
    pub open spec fn wf(&self) -> bool {
        self.from.wf() && self.to.wf()
    }

    /// A node with no neighbours (`Default`).
    pub fn new() -> (r: NetworkNodeMap)
        ensures
            r.wf(),
            r@ == empty_node_map(),
    {
        let r = NetworkNodeMap { from: SortedMap::new(), looped: false, to: SortedMap::new() };
        assert(r@.from =~= Set::empty());
        assert(r@.to =~= Set::empty());
        r
    }

    fn touch(&mut self, other: &NetworkNodeKey, is_loop: bool, outgoing: bool)
        requires
            old(self).wf(),
        ensures
            final(self).wf(),
            final(self)@ == touch(old(self)@, other@, is_loop, outgoing),
    {
        if is_loop {
            self.looped = true;
        } else if outgoing {
            self.to.insert(other.duplicate(), ());
            assert(self.to@.dom() =~= old(self).to@.dom().insert(other@));
        } else {
            self.from.insert(other.duplicate(), ());
            assert(self.from@.dom() =~= old(self).from@.dom().insert(other@));
        }
    }

    /// The neighbour sets with keys in text form.
    pub fn to_json(&self) -> (r: NetworkNodeMapJson)
        requires
            self.wf(),
        ensures
            r.wf(),
            r@ == node_map_json(self@),
    {
        let from = key_set_text(&self.from);
        let to = key_set_text(&self.to);
        NetworkNodeMapJson { from, looped: self.looped, to }
    }
}

/// The texts of a set of node keys.
fn key_set_text(keys: &SortedMap<NetworkNodeKey, ()>) -> (r: SortedMap<String, ()>)
    requires
        keys.wf(),
    ensures
        r.wf(),
        r@.dom() == keys@.dom().map(|k: NodeKeyView| node_key_text(k)),
{
    let ghost s = keys.pairs();
    let mut r: SortedMap<String, ()> = SortedMap::new();
    let n = keys.len();
    let mut i: usize = 0;
    while i < n
        invariant
            n == s.len(),
            s == keys.pairs(),
            i <= n,
            r.wf(),
            forall|x: Seq<char>| #[trigger] r@.contains_key(x) <==> exists|j: int| 0 <= j < i && node_key_text(s[j].0) == x,
        decreases n - i,
    {
        let text = keys.key_at(i).to_text();
        r.insert(text, ());
        proof {
            assert forall|x: Seq<char>| #[trigger] r@.contains_key(x) <==> exists|j: int| 0 <= j < i + 1 && node_key_text(s[j].0) == x by {
                if x == node_key_text(s[i as int].0) {
                    assert(node_key_text(s[i as int].0) == x);
                }
                if exists|j: int| 0 <= j < i + 1 && node_key_text(s[j].0) == x {
                    let j = choose|j: int| 0 <= j < i + 1 && node_key_text(s[j].0) == x;
                    if j < i {
                        assert(exists|j2: int| 0 <= j2 < i && node_key_text(s[j2].0) == x);
                    }
                }
            }
        }
        i = i + 1;
    }
    proof {
        assert forall|x: Seq<char>| #[trigger] r@.dom().contains(x) == keys@.dom().map(|k: NodeKeyView| node_key_text(k)).contains(x) by {
            if r@.contains_key(x) {
                let j = choose|j: int| 0 <= j < n && node_key_text(s[j].0) == x;
                lemma_map_of_dom(s, s[j].0);
                assert(keys@.dom().contains(s[j].0));
            }
            if keys@.dom().map(|k: NodeKeyView| node_key_text(k)).contains(x) {
                let k = choose|k: NodeKeyView| keys@.dom().contains(k) && x == node_key_text(k);
                lemma_map_of_dom(s, k);
                let j = choose|j: int| 0 <= j < s.len() && #[trigger] s[j].0 == k;
                assert(node_key_text(s[j].0) == x);
            }
        }
        assert(r@.dom() =~= keys@.dom().map(|k: NodeKeyView| node_key_text(k)));
    }
    r
}

/// A node's neighbour sets with keys in text form.
#[derive(Clone, Debug)]
pub struct NetworkNodeMapJson {
    pub from: SortedMap<String, ()>,
    pub looped: bool,
    pub to: SortedMap<String, ()>,
}

pub struct NetworkNodeMapJsonView {
    pub from: Set<Seq<char>>,
    pub looped: bool,
    pub to: Set<Seq<char>>,
}

impl View for NetworkNodeMapJson {
    type V = NetworkNodeMapJsonView;

    open spec fn view(&self) -> NetworkNodeMapJsonView {
        NetworkNodeMapJsonView { from: self.from@.dom(), looped: self.looped, to: self.to@.dom() }
    }
}

impl NetworkNodeMapJson {
    pub open spec fn wf(&self) -> bool {
        self.from.wf() && self.to.wf()
    }
}

pub open spec fn node_map_json(m: NetworkNodeMapView) -> NetworkNodeMapJsonView {
    NetworkNodeMapJsonView {
        from: m.from.map(|k: NodeKeyView| node_key_text(k)),
        looped: m.looped,
        to: m.to.map(|k: NodeKeyView| node_key_text(k)),
    }
}

/// The traffic graph's model: values per edge, neighbours per node.
pub struct NetworkGraphView {
    pub edges: Map<EdgeKeyView, NetworkValueView>,
    pub nodes: Map<NodeKeyView, NetworkNodeMapView>,
}

/// The graph after one more request from `k.0` to `k.1` with the given latency.
pub open spec fn add_edge_step(g: NetworkGraphView, k: EdgeKeyView, duration_ns: u128) -> NetworkGraphView {
    let edges = if g.edges.contains_key(k) {
        g.edges.insert(k, value_observe(g.edges[k], duration_ns))
    } else {
        g.edges.insert(k, value_of(duration_ns))
    };
    let is_loop = k.0 == k.1;
    let nodes = touch_node(touch_node(g.nodes, k.0, k.1, is_loop, true), k.1, k.0, is_loop, false);
    NetworkGraphView { edges, nodes }
}

/// The graph after a sequence of requests, in order.
pub open spec fn add_edges_model(g: NetworkGraphView, s: Seq<(EdgeKeyView, u128)>) -> NetworkGraphView
    decreases s.len(),
{
    if s.len() == 0 {
        g
    } else {
        let h = add_edges_model(g, s.drop_last());
        add_edge_step(h, s.last().0, s.last().1)
    }
}

/// Counting one more request on an edge does not overflow.
pub open spec fn step_fits(g: NetworkGraphView, k: EdgeKeyView, duration_ns: u128) -> bool {
    g.edges.contains_key(k) ==> value_observe_fits(g.edges[k], duration_ns)
}

/// No step of a sequence of requests overflows.
pub open spec fn add_edges_fit(g: NetworkGraphView, s: Seq<(EdgeKeyView, u128)>) -> bool {
    forall|i: int| 0 <= i < s.len() ==> step_fits(add_edges_model(g, #[trigger] s.take(i)), s[i].0, s[i].1)
}

/// The requests of a batch, by their views.
pub open spec fn requests_view(edges: Seq<(NetworkEdgeKey, NetworkValueBuilder)>) -> Seq<(EdgeKeyView, u128)> {
    edges.map_values(|e: (NetworkEdgeKey, NetworkValueBuilder)| (e.0@, e.1.duration_ns()))
}

/// The traffic graph of a service mesh, as guarded by the shared lock.
pub struct NetworkGraphState {
    edges: SortedMap<NetworkEdgeKey, NetworkValue>,
    nodes: SortedMap<NetworkNodeKey, NetworkNodeMap>,
}

impl View for NetworkGraphState {
    type V = NetworkGraphView;

    closed spec fn view(&self) -> NetworkGraphView {
        NetworkGraphView { edges: self.edges@, nodes: self.nodes@ }
    }
}

/// A node with the values of its edges.
#[derive(Clone, Debug)]
pub struct NetworkNode {
    pub from: SortedMap<NetworkNodeKey, NetworkValue>,
    pub looped: Option<NetworkValue>,
    pub to: SortedMap<NetworkNodeKey, NetworkValue>,
}

/// The text form of a value, as sent out in JSON.
pub open spec fn value_json(v: NetworkValue) -> NetworkValueJsonView {
    NetworkValueJsonView {
        count: v.count,
        buckets: map_of(
            v.duration.buckets.pairs().map_values(|e: (u128, usize)| (decimal(millis(e.0) as nat), e.1)),
        ),
        total_ms: v.duration.total_ms,
    }
}

/// Entries of a map of values with keys and values in text form, in key order.
pub open spec fn json_entries(m: SortedMap<NetworkNodeKey, NetworkValue>) -> Seq<(Seq<char>, NetworkValueJsonView)> {
    Seq::new(m.pairs().len(), |i: int| (node_key_text(m.pairs()[i].0), value_json(m.values()[i])))
}

impl NetworkNode {
    pub open spec fn wf(&self) -> bool {
        &&& self.from.wf()
        &&& self.to.wf()
        &&& forall|i: int| 0 <= i < self.from.values().len() ==> (#[trigger] self.from.values()[i]).wf()
        &&& forall|i: int| 0 <= i < self.to.values().len() ==> (#[trigger] self.to.values()[i]).wf()
        &&& match self.looped {
            Some(v) => v.wf(),
            None => true,
        }
    }

    /// The node with keys and values in text form; of two keys with the same
    /// text the later in key order wins.
    pub fn to_json(&self) -> (r: NetworkNodeJson)
        requires
            self.wf(),
        ensures
            r.wf(),
            r.from@ == map_of(json_entries(self.from)),
            r.to@ == map_of(json_entries(self.to)),
            match (r.looped, self.looped) {
                (Some(a), Some(b)) => a@ == value_json(b),
                (None, None) => true,
                _ => false,
            },
    {
        let from = values_json(&self.from);
        let to = values_json(&self.to);
        let looped = match &self.looped {
            Some(v) => Some(v.to_json()),
            None => None,
        };
        NetworkNodeJson { from, looped, to }
    }

    /// The node with keys and values in text form, consuming it.
    pub fn into_json(self) -> (r: NetworkNodeJson)
        requires
            self.wf(),
        ensures
            r.wf(),
            r.from@ == map_of(json_entries(self.from)),
            r.to@ == map_of(json_entries(self.to)),
            match (r.looped, self.looped) {
                (Some(a), Some(b)) => a@ == value_json(b),
                (None, None) => true,
                _ => false,
            },
    {
        self.to_json()
    }
}

fn values_json(m: &SortedMap<NetworkNodeKey, NetworkValue>) -> (r: SortedMap<String, NetworkValueJson>)
    requires
        m.wf(),
        forall|i: int| 0 <= i < m.values().len() ==> (#[trigger] m.values()[i]).wf(),
    ensures
        r.wf(),
        r@ == map_of(json_entries(*m)),
{
    let ghost t = json_entries(*m);
    let mut r: SortedMap<String, NetworkValueJson> = SortedMap::new();
    let n = m.len();
    let mut i: usize = 0;
    while i < n
        invariant
            n == m.pairs().len(),
            n == m.values().len(),
            t == json_entries(*m),
            forall|j: int| 0 <= j < m.values().len() ==> (#[trigger] m.values()[j]).wf(),
            i <= n,
            r.wf(),
            r@ == map_of(t.take(i as int)),
        decreases n - i,
    {
        let text = m.key_at(i).to_text();
        let v = m.value_at(i).to_json();
        r.insert(text, v);
        proof {
            assert(t.take(i + 1).drop_last() =~= t.take(i as int));
            assert(t.take(i + 1).last() == t[i as int]);
        }
        i = i + 1;
    }
    assert(t.take(n as int) =~= t);
    r
}

/// A node with keys and values in text form.
#[derive(Clone, Debug)]
pub struct NetworkNodeJson {
    pub from: SortedMap<String, NetworkValueJson>,
    pub looped: Option<NetworkValueJson>,
    pub to: SortedMap<String, NetworkValueJson>,
}

impl NetworkNodeJson {
    pub open spec fn wf(&self) -> bool {
        self.from.wf() && self.to.wf()
    }
}

/// The edge from a node to another (`outgoing`) or from the other to it.
pub open spec fn edge_between(key: NodeKeyView, other: NodeKeyView, outgoing: bool) -> EdgeKeyView {
    if outgoing {
        (key, other)
    } else {
        (other, key)
    }
}

/// The values of a node's incoming edges, from the neighbours that have one.
pub open spec fn incoming(g: NetworkGraphView, key: NodeKeyView) -> Map<NodeKeyView, NetworkValueView> {
    Map::new(
        |f: NodeKeyView| g.nodes[key].from.contains(f) && g.edges.contains_key((f, key)),
        |f: NodeKeyView| g.edges[(f, key)],
    )
}

/// The values of a node's outgoing edges, to the neighbours that have one.
pub open spec fn outgoing(g: NetworkGraphView, key: NodeKeyView) -> Map<NodeKeyView, NetworkValueView> {
    Map::new(
        |t: NodeKeyView| g.nodes[key].to.contains(t) && g.edges.contains_key((key, t)),
        |t: NodeKeyView| g.edges[(key, t)],
    )
}

/// The value of a node's self loop, where it has one.
pub open spec fn self_loop(g: NetworkGraphView, key: NodeKeyView) -> Option<NetworkValueView> {
    if g.nodes[key].looped && g.edges.contains_key((key, key)) {
        Some(g.edges[(key, key)])
    } else {
        None
    }
}

/// The graph with keys in text form, as sent out in JSON.
#[derive(Clone, Debug)]
pub struct NetworkGraphJson {
    pub edges: SortedMap<String, SortedMap<String, NetworkValueJson>>,
    pub nodes: SortedMap<String, NetworkNodeMapJson>,
}

/// The edges in text form, walked in key order: each source holds its
/// targets, and of two edges with the same texts the first one stays.
pub open spec fn edges_json(entries: Seq<(EdgeKeyView, NetworkValue)>) -> Map<Seq<char>, Map<Seq<char>, NetworkValueJsonView>>
    decreases entries.len(),
{
    if entries.len() == 0 {
        Map::empty()
    } else {
        let m = edges_json(entries.drop_last());
        let a = node_key_text(entries.last().0.0);
        let b = node_key_text(entries.last().0.1);
        if m.contains_key(a) && m[a].contains_key(b) {
            m
        } else {
            let inner = if m.contains_key(a) {
                m[a]
            } else {
                Map::empty()
            };
            m.insert(a, inner.insert(b, value_json(entries.last().1)))
        }
    }
}

/// The nodes in text form; of two nodes with the same text the later in key
/// order wins.
pub open spec fn nodes_json(entries: Seq<(NodeKeyView, NetworkNodeMapView)>) -> Map<Seq<char>, NetworkNodeMapJsonView> {
    map_of(entries.map_values(|e: (NodeKeyView, NetworkNodeMapView)| (node_key_text(e.0), node_map_json(e.1))))
}

impl NetworkGraphState {
    /// The edges with their values, in key order.
    pub closed spec fn edge_entries(&self) -> Seq<(EdgeKeyView, NetworkValue)> {
        Seq::new(self.edges.pairs().len(), |i: int| (self.edges.pairs()[i].0, self.edges.values()[i]))
    }

    /// The nodes with their neighbours, in key order.
    pub closed spec fn node_entries(&self) -> Seq<(NodeKeyView, NetworkNodeMapView)> {
        self.nodes.pairs()
    }

    /// The entries are the graph's maps, walked in strictly increasing key order.
    pub proof fn lemma_entries(&self)
        requires
            self.wf(),
        ensures
            crate::sorted::strictly_sorted::<NetworkNodeKey, NetworkNodeMapView>(self.node_entries()),
            map_of(self.node_entries()) == self@.nodes,
            crate::sorted::strictly_sorted::<NetworkEdgeKey, NetworkValue>(self.edge_entries()),
            forall|i: int| 0 <= i < self.edge_entries().len() ==> self@.edges.contains_key(#[trigger] self.edge_entries()[i].0)
                && self@.edges[self.edge_entries()[i].0] == self.edge_entries()[i].1@,
            forall|k: EdgeKeyView| #[trigger] self@.edges.contains_key(k) ==> exists|i: int| 0 <= i < self.edge_entries().len() && self.edge_entries()[i].0 == k,
    {
        self.edges.lemma_values_view();
        lemma_sorted_unique::<NetworkEdgeKey, NetworkValueView>(self.edges.pairs());
        let e = self.edge_entries();
        assert forall|i: int| 0 <= i < e.len() implies self@.edges.contains_key(#[trigger] e[i].0) && self@.edges[e[i].0] == e[i].1@ by {
            lemma_map_of_index(self.edges.pairs(), i);
        }
        assert forall|k: EdgeKeyView| #[trigger] self@.edges.contains_key(k) implies exists|i: int| 0 <= i < e.len() && e[i].0 == k by {
            lemma_map_of_dom(self.edges.pairs(), k);
            let i = choose|i: int| 0 <= i < self.edges.pairs().len() && #[trigger] self.edges.pairs()[i].0 == k;
            assert(e[i].0 == k);
        }
    }

    /// The graph with keys in text form (`kind/namespace/name`) and histogram
    /// bounds in milliseconds.
    pub fn to_json(&self) -> (r: NetworkGraphJson)
        requires
            self.wf(),
        ensures
            r.edges@ == edges_json(self.edge_entries()),
            r.nodes@ == nodes_json(self.node_entries()),
    {
        let ghost entries = self.edge_entries();
        proof {
            self.edges.lemma_values_view();
        }
        let mut edges: SortedMap<String, SortedMap<String, NetworkValueJson>> = SortedMap::new();
        let n = self.edges.len();
        let mut i: usize = 0;
        while i < n
            invariant
                n == self.edges.pairs().len(),
                n == self.edges.values().len(),
                entries == self.edge_entries(),
                self.wf(),
                i <= n,
                edges.wf(),
                forall|j: int| 0 <= j < edges.values().len() ==> (#[trigger] edges.values()[j]).wf(),
                edges@ == edges_json(entries.take(i as int)),
            decreases n - i,
        {
            let key = self.edges.key_at(i);
            let a = key.0.to_text();
            let b = key.1.to_text();
            let v = self.edges.value_at(i).to_json();
            let ghost m0 = edges@;
            let ghost vals0 = edges.values();
            proof {
                assert(entries.take(i + 1).drop_last() =~= entries.take(i as int));
                assert(entries.take(i + 1).last() == entries[i as int]);
                assert(v@ == value_json(entries[i as int].1));
                lemma_sorted_unique::<String, Map<Seq<char>, NetworkValueJsonView>>(edges.pairs());
                edges.lemma_values_view();
            }
            match edges.search(&a) {
                Ok(j) => {
                    proof {
                        lemma_map_of_index(edges.pairs(), j as int);
                    }
                    let mut inner = edges.replace_at(j, SortedMap::new());
                    assert(inner@ == m0[a@]);
                    inner.insert_absent(b, v);
                    let _ = edges.replace_at(j, inner);
                    proof {
                        assert forall|x: int| 0 <= x < edges.values().len() implies (#[trigger] edges.values()[x]).wf() by {
                            if x != j {
                                assert(edges.values()[x] == vals0[x]);
                            }
                        }
                        assert(edges@ =~= edges_json(entries.take(i + 1)));
                    }
                },
                Err(j) => {
                    proof {
                        lemma_map_of_dom(edges.pairs(), a@);
                        if m0.contains_key(a@) {
                            let x = choose|x: int| 0 <= x < edges.pairs().len() && #[trigger] edges.pairs()[x].0 == a@;
                            String::lemma_key_lt_irreflexive(a@);
                        }
                    }
                    let mut inner: SortedMap<String, NetworkValueJson> = SortedMap::new();
                    inner.insert(b, v);
                    edges.insert_at(j, a, inner);
                    proof {
                        assert forall|x: int| 0 <= x < edges.values().len() implies (#[trigger] edges.values()[x]).wf() by {
                            if x < j {
                                assert(edges.values()[x] == vals0[x]);
                            } else if x > j {
                                assert(edges.values()[x] == vals0[x - 1]);
                            }
                        }
                        assert(edges@ =~= edges_json(entries.take(i + 1)));
                    }
                },
            }
            i = i + 1;
        }
        assert(entries.take(n as int) =~= entries);
        let ghost ns = self.nodes.pairs();
        let ghost target = ns.map_values(|e: (NodeKeyView, NetworkNodeMapView)| (node_key_text(e.0), node_map_json(e.1)));
        proof {
            self.nodes.lemma_values_view();
        }
        let mut nodes: SortedMap<String, NetworkNodeMapJson> = SortedMap::new();
        let m = self.nodes.len();
        let mut i: usize = 0;
        while i < m
            invariant
                m == ns.len(),
                m == self.nodes.values().len(),
                ns == self.nodes.pairs(),
                target == ns.map_values(|e: (NodeKeyView, NetworkNodeMapView)| (node_key_text(e.0), node_map_json(e.1))),
                forall|j: int| 0 <= j < self.nodes.values().len() ==> (#[trigger] self.nodes.values()[j]).wf(),
                forall|j: int| 0 <= j < self.nodes.values().len() ==> (#[trigger] self.nodes.values()[j])@ == ns[j].1,
                i <= m,
                nodes.wf(),
                nodes@ == map_of(target.take(i as int)),
            decreases m - i,
        {
            let text = self.nodes.key_at(i).to_text();
            let json = self.nodes.value_at(i).to_json();
            nodes.insert(text, json);
            proof {
                assert(target.take(i + 1).drop_last() =~= target.take(i as int));
                assert(target.take(i + 1).last() == target[i as int]);
            }
            i = i + 1;
        }
        assert(target.take(m as int) =~= target);
        NetworkGraphJson { edges, nodes }
    }

    pub closed spec fn wf(&self) -> bool {
        &&& self.edges.wf()
        &&& self.nodes.wf()
        &&& forall|i: int| 0 <= i < self.edges.values().len() ==> (#[trigger] self.edges.values()[i]).wf()
        &&& forall|i: int| 0 <= i < self.nodes.values().len() ==> (#[trigger] self.nodes.values()[i]).wf()
        &&& forall|k: EdgeKeyView| #[trigger] self@.edges.contains_key(k) ==> buckets_within_count(self@.edges[k])
    }

    /// In a well-formed graph no bucket of an edge counts more requests than
    /// the edge does.
    pub proof fn lemma_wf_buckets_within_count(&self)
        requires
            self.wf(),
        ensures
            forall|k: EdgeKeyView| #[trigger] self@.edges.contains_key(k) ==> buckets_within_count(self@.edges[k]),
    {
    }

    /// An empty graph.
    pub fn new() -> (r: NetworkGraphState)
        ensures
            r.wf(),
            r@.edges == Map::<EdgeKeyView, NetworkValueView>::empty(),
            r@.nodes == Map::<NodeKeyView, NetworkNodeMapView>::empty(),
    {
        NetworkGraphState { edges: SortedMap::new(), nodes: SortedMap::new() }
    }

    fn touch_node(&mut self, k: &NetworkNodeKey, other: &NetworkNodeKey, is_loop: bool, outgoing: bool)
        requires
            old(self).wf(),
        ensures
            final(self).wf(),
            final(self)@.edges == old(self)@.edges,
            final(self)@.nodes == touch_node(old(self)@.nodes, k@, other@, is_loop, outgoing),
    {
        proof {
            lemma_sorted_unique::<NetworkNodeKey, NetworkNodeMapView>(self.nodes.pairs());
            self.nodes.lemma_values_view();
        }
        match self.nodes.search(k) {
            Ok(i) => {
                proof {
                    lemma_map_of_index(self.nodes.pairs(), i as int);
                }
                let mut m = self.nodes.replace_at(i, NetworkNodeMap::new());
                m.touch(other, is_loop, outgoing);
                let ghost vals = self.nodes.values();
                let _ = self.nodes.replace_at(i, m);
                proof {
                    self.nodes.lemma_values_view();
                    assert forall|j: int| 0 <= j < self.nodes.values().len() implies (#[trigger] self.nodes.values()[j]).wf() by {
                        if j != i {
                            assert(self.nodes.values()[j] == vals[j]);
                        }
                    }
                }
            },
            Err(i) => {
                proof {
                    lemma_map_of_dom(self.nodes.pairs(), k@);
                    if self.nodes@.contains_key(k@) {
                        let j = choose|j: int| 0 <= j < self.nodes.pairs().len() && #[trigger] self.nodes.pairs()[j].0 == k@;
                        NetworkNodeKey::lemma_key_lt_irreflexive(k@);
                    }
                }
                let mut m = NetworkNodeMap::new();
                m.touch(other, is_loop, outgoing);
                let ghost vals = self.nodes.values();
                self.nodes.insert_at(i, k.duplicate(), m);
                proof {
                    assert forall|j: int| 0 <= j < self.nodes.values().len() implies (#[trigger] self.nodes.values()[j]).wf() by {
                        if j < i {
                            assert(self.nodes.values()[j] == vals[j]);
                        } else if j > i {
                            assert(self.nodes.values()[j] == vals[j - 1]);
                        }
                    }
                }
            },
        }
        assert(self.nodes@ =~= touch_node(old(self)@.nodes, k@, other@, is_loop, outgoing));
        assert(self.nodes.wf());
        assert(forall|i: int| 0 <= i < self.nodes.values().len() ==> (#[trigger] self.nodes.values()[i]).wf());
        assert(self.edges == old(self).edges);
        assert(self@.edges == old(self)@.edges);
        assert forall|e: EdgeKeyView| #[trigger] self@.edges.contains_key(e) implies buckets_within_count(self@.edges[e]) by {
            assert(old(self)@.edges.contains_key(e));
        }
    }

    fn add_edge(&mut self, key: &NetworkEdgeKey, rhs: NetworkValueBuilder)
        requires
            old(self).wf(),
            step_fits(old(self)@, key@, rhs.duration_ns()),
        ensures
            final(self).wf(),
            final(self)@ == add_edge_step(old(self)@, key@, rhs.duration_ns()),
    {
        let ghost g0 = self@;
        proof {
            lemma_sorted_unique::<NetworkEdgeKey, NetworkValueView>(self.edges.pairs());
            self.edges.lemma_values_view();
        }
        match self.edges.search(key) {
            Ok(i) => {
                proof {
                    lemma_map_of_index(self.edges.pairs(), i as int);
                }
                let placeholder = NetworkValue { count: 0, duration: NetworkHistogram::new() };
                let mut v = self.edges.replace_at(i, placeholder);
                assert(v@ == g0.edges[key@]);
                assert(buckets_within_count(v@));
                assert(observe_fits(v@.duration, rhs.duration_ns()));
                v.add_builder(rhs);
                let _ = self.edges.replace_at(i, v);
                proof {
                    self.edges.lemma_values_view();
                }
                assert(self.edges@ =~= g0.edges.insert(key@, value_observe(g0.edges[key@], rhs.duration_ns())));
            },
            Err(i) => {
                proof {
                    lemma_map_of_dom(self.edges.pairs(), key@);
                    if self.edges@.contains_key(key@) {
                        let j = choose|j: int| 0 <= j < self.edges.pairs().len() && #[trigger] self.edges.pairs()[j].0 == key@;
                        <NetworkEdgeKey as KeyOrder>::lemma_key_lt_irreflexive(key@);
                    }
                }
                let v = rhs.build();
                self.edges.insert_at(i, key.duplicate(), v);
                proof {
                    self.edges.lemma_values_view();
                }
            },
        }
        let is_loop = match key.0.compare_key(&key.1) {
            crate::text::KeyCmp::Equal => true,
            _ => false,
        };
        self.touch_node(&key.0, &key.1, is_loop, true);
        self.touch_node(&key.1, &key.0, is_loop, false);
    }

    /// Counts a batch of requests, one edge after another.
    pub fn add_edges(&mut self, edges: Vec<(NetworkEdgeKey, NetworkValueBuilder)>)
        requires
            old(self).wf(),
            add_edges_fit(old(self)@, requests_view(edges@)),
        ensures
            final(self).wf(),
            final(self)@ == add_edges_model(old(self)@, requests_view(edges@)),
    {
        let ghost s = requests_view(edges@);
        let ghost g0 = self@;
        let n = edges.len();
        let mut i: usize = 0;
        assert(s.take(0) =~= Seq::<(EdgeKeyView, u128)>::empty());
        while i < n
            invariant
                n == edges@.len(),
                s == requests_view(edges@),
                i <= n,
                self.wf(),
                add_edges_fit(g0, s),
                self@ == add_edges_model(g0, s.take(i as int)),
            decreases n - i,
        {
            let ghost before = s.take(i as int);
            assert(s.take(i + 1).drop_last() =~= before);
            assert(step_fits(add_edges_model(g0, s.take(i as int)), s[i as int].0, s[i as int].1));
            self.add_edge(&edges[i].0, edges[i].1);
            i = i + 1;
        }
        assert(s.take(n as int) =~= s);
    }

    /// The aggregated value of an edge.
    pub fn get_edge(&self, key: &NetworkEdgeKey) -> (r: Option<NetworkValue>)
        requires
            self.wf(),
        ensures
            match r {
                Some(v) => self@.edges.contains_key(key@) && v@ == self@.edges[key@] && v.wf(),
                None => !self@.edges.contains_key(key@),
            },
    {
        proof {
            lemma_sorted_unique::<NetworkEdgeKey, NetworkValueView>(self.edges.pairs());
            self.edges.lemma_values_view();
        }
        match self.edges.search(key) {
            Ok(i) => {
                proof {
                    lemma_map_of_index(self.edges.pairs(), i as int);
                }
                Some(self.edges.value_at(i).duplicate_value())
            },
            Err(i) => {
                proof {
                    lemma_map_of_dom(self.edges.pairs(), key@);
                    if self.edges@.contains_key(key@) {
                        let j = choose|j: int| 0 <= j < self.edges.pairs().len() && #[trigger] self.edges.pairs()[j].0 == key@;
                        <NetworkEdgeKey as KeyOrder>::lemma_key_lt_irreflexive(key@);
                    }
                }
                None
            },
        }
    }

    /// A node with the values of the edges to and from its neighbours.
    pub fn get_node(&self, key: &NetworkNodeKey) -> (r: Option<NetworkNode>)
        requires
            self.wf(),
        ensures
            match r {
                Some(n) => {
                    &&& self@.nodes.contains_key(key@)
                    &&& n.wf()
                    &&& n.from@ == incoming(self@, key@)
                    &&& n.to@ == outgoing(self@, key@)
                    &&& match (n.looped, self_loop(self@, key@)) {
                        (Some(a), Some(b)) => a@ == b,
                        (None, None) => true,
                        _ => false,
                    }
                },
                None => !self@.nodes.contains_key(key@),
            },
    {
        proof {
            lemma_sorted_unique::<NetworkNodeKey, NetworkNodeMapView>(self.nodes.pairs());
            self.nodes.lemma_values_view();
        }
        let i = match self.nodes.search(key) {
            Ok(i) => i,
            Err(i) => {
                proof {
                    lemma_map_of_dom(self.nodes.pairs(), key@);
                    if self.nodes@.contains_key(key@) {
                        let j = choose|j: int| 0 <= j < self.nodes.pairs().len() && #[trigger] self.nodes.pairs()[j].0 == key@;
                        NetworkNodeKey::lemma_key_lt_irreflexive(key@);
                    }
                }
                return None;
            },
        };
        proof {
            lemma_map_of_index(self.nodes.pairs(), i as int);
        }
        let m = self.nodes.value_at(i);
        assert(m@ == self@.nodes[key@]);
        let from = self.collect_neighbours(&m.from, key, false);
        let to = self.collect_neighbours(&m.to, key, true);
        let looped = if m.looped {
            self.get_edge(&(key.duplicate(), key.duplicate()))
        } else {
            None
        };
        assert(from@ =~= incoming(self@, key@));
        assert(to@ =~= outgoing(self@, key@));
        Some(NetworkNode { from, looped, to })
    }

    /// The edge values between a node and each of some neighbours that has one.
    fn collect_neighbours(&self, others: &SortedMap<NetworkNodeKey, ()>, key: &NetworkNodeKey, outgoing: bool) -> (r: SortedMap<NetworkNodeKey, NetworkValue>)
        requires
            self.wf(),
            others.wf(),
        ensures
            r.wf(),
            forall|i: int| 0 <= i < r.values().len() ==> (#[trigger] r.values()[i]).wf(),
            r@ == Map::new(
                |o: NodeKeyView| others@.contains_key(o) && self@.edges.contains_key(edge_between(key@, o, outgoing)),
                |o: NodeKeyView| self@.edges[edge_between(key@, o, outgoing)],
            ),
    {
        let ghost s = others.pairs();
        let mut r: SortedMap<NetworkNodeKey, NetworkValue> = SortedMap::new();
        let n = others.len();
        let mut i: usize = 0;
        while i < n
            invariant
                n == s.len(),
                s == others.pairs(),
                i <= n,
                self.wf(),
                r.wf(),
                forall|j: int| 0 <= j < r.values().len() ==> (#[trigger] r.values()[j]).wf(),
                r@ == Map::new(
                    |o: NodeKeyView| map_of(s.take(i as int)).contains_key(o) && self@.edges.contains_key(edge_between(key@, o, outgoing)),
                    |o: NodeKeyView| self@.edges[edge_between(key@, o, outgoing)],
                ),
            decreases n - i,
        {
            let o = others.key_at(i);
            let edge = if outgoing {
                (key.duplicate(), o.duplicate())
            } else {
                (o.duplicate(), key.duplicate())
            };
            let ghost r0 = r@;
            assert(edge@ == edge_between(key@, o@, outgoing));
            let ghost vals0 = r.values();
            match self.get_edge(&edge) {
                Some(v) => {
                    let od = o.duplicate();
                    r.insert(od, v);
                    assert forall|j: int| 0 <= j < r.values().len() implies (#[trigger] r.values()[j]).wf() by {
                        if r.values()[j] != v {
                            let x = choose|x: int| 0 <= x < vals0.len() && vals0[x] == r.values()[j];
                        }
                    }
                },
                None => {},
            }
            proof {
                assert(s.take(i + 1).drop_last() =~= s.take(i as int));
                assert(s.take(i + 1).last() == s[i as int]);
                assert(map_of(s.take(i + 1)) == map_of(s.take(i as int)).insert(s[i as int].0, s[i as int].1));
                assert(r@ =~= Map::new(
                    |o: NodeKeyView| map_of(s.take(i + 1)).contains_key(o) && self@.edges.contains_key(edge_between(key@, o, outgoing)),
                    |o: NodeKeyView| self@.edges[edge_between(key@, o, outgoing)],
                ));
            }
            i = i + 1;
        }
        assert(s.take(n as int) =~= s);
        r
    }
}

} // verus!
