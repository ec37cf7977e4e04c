use netai_cloud::network::graph::NetworkGraphState;
use netai_cloud::network::key::NetworkNodeKey;
use netai_cloud::network::value::{NetworkHistogram, NetworkValue, NetworkValueBuilder};
use netai_cloud::sorted::SortedMap;

fn key(kind: &str, name: Option<&str>, namespace: &str) -> NetworkNodeKey {
    NetworkNodeKey {
        kind: kind.to_string(),
        name: name.map(|n| n.to_string()),
        namespace: namespace.to_string(),
    }
}

fn buckets(v: &NetworkValue) -> Vec<(u128, usize)> {
    let m = &v.duration.buckets;
    (0..m.len()).map(|i| (*m.key_at(i), *m.value_at(i))).collect()
}

const MS: u128 = 1_000_000;

#[test]
fn node_key_text_uses_underscore_for_missing_name() {
    assert_eq!(key("pod", Some("web"), "default").to_text(), "pod/default/web");
    assert_eq!(key("pod", None, "default").to_text(), "pod/default/_");
}

#[test]
fn builder_builds_default_buckets() {
    let v = NetworkValueBuilder::new(5 * MS + 3).build();
    assert_eq!(v.count, 1);
    assert_eq!(v.duration.total_ms, 5);
    let b = buckets(&v);
    assert_eq!(b.len(), 16);
    assert_eq!(b[0], (2 * MS, 0));
    assert_eq!(b[1], (4 * MS, 0));
    assert_eq!(b[2], (8 * MS, 1));
    assert_eq!(b[15], (65536 * MS, 1));
}

#[test]
fn builder_at_bound_is_not_below_it() {
    let v = NetworkValueBuilder::new(4 * MS).build();
    let b = buckets(&v);
    assert_eq!(b[1], (4 * MS, 0));
    assert_eq!(b[2], (8 * MS, 1));
}

#[test]
fn add_builder_counts_one_more() {
    let mut v = NetworkValueBuilder::new(3 * MS).build();
    v.add_builder(NetworkValueBuilder::new(10 * MS));
    assert_eq!(v.count, 2);
    assert_eq!(v.duration.total_ms, 13);
    let b = buckets(&v);
    assert_eq!(b[0], (2 * MS, 0));
    assert_eq!(b[1], (4 * MS, 1));
    assert_eq!(b[3], (16 * MS, 2));
}

#[test]
fn add_builder_equals_adding_the_built_value() {
    let mut a = NetworkValueBuilder::new(3 * MS).build();
    let mut b = NetworkValueBuilder::new(3 * MS).build();
    a.add_builder(NetworkValueBuilder::new(100 * MS));
    b.add_assign(&NetworkValueBuilder::new(100 * MS).build());
    assert_eq!(a.count, b.count);
    assert_eq!(a.duration.total_ms, b.duration.total_ms);
    assert_eq!(buckets(&a), buckets(&b));
}

#[test]
fn histogram_merge_adds_bucketwise() {
    let mut h = NetworkHistogram::new();
    h.buckets.insert(2 * MS, 1);
    let mut g = NetworkHistogram::new();
    g.buckets.insert(2 * MS, 2);
    g.buckets.insert(8 * MS, 5);
    g.total_ms = 7;
    h.merge(&g);
    assert_eq!(h.total_ms, 7);
    assert_eq!(h.buckets.len(), 2);
    assert_eq!(*h.buckets.value_at(0), 3);
    assert_eq!(*h.buckets.value_at(1), 5);
}

#[test]
fn histogram_json_keys_are_milliseconds() {
    let v = NetworkValueBuilder::new(MS).build();
    let j = v.to_json();
    let keys: Vec<String> = (0..j.duration.buckets.len()).map(|i| j.duration.buckets.key_at(i).clone()).collect();
    assert_eq!(keys.len(), 16);
    // text order: "1024" < "128" < ... < "8192"
    assert_eq!(keys[0], "1024");
    assert!(keys.contains(&"65536".to_string()));
    assert!(keys.contains(&"2".to_string()));
}

#[test]
fn add_edges_then_get_edge_aggregates() {
    let a = key("svc", Some("a"), "ns");
    let b = key("svc", Some("b"), "ns");
    let mut g = NetworkGraphState::new();
    g.add_edges(vec![
        ((a.clone(), b.clone()), NetworkValueBuilder::new(MS)),
        ((a.clone(), b.clone()), NetworkValueBuilder::new(3 * MS)),
        ((b.clone(), a.clone()), NetworkValueBuilder::new(20 * MS)),
    ]);
    let ab = g.get_edge(&(a.clone(), b.clone())).unwrap();
    assert_eq!(ab.count, 2);
    assert_eq!(ab.duration.total_ms, 4);
    assert_eq!(buckets(&ab)[0], (2 * MS, 1));
    assert_eq!(buckets(&ab)[1], (4 * MS, 2));
    let ba = g.get_edge(&(b.clone(), a.clone())).unwrap();
    assert_eq!(ba.count, 1);
    assert!(g.get_edge(&(a.clone(), a.clone())).is_none());
}

#[test]
fn add_edges_empty_is_noop() {
    let mut g = NetworkGraphState::new();
    g.add_edges(vec![]);
    assert!(g.get_node(&key("svc", None, "ns")).is_none());
}

#[test]
fn get_node_lists_neighbours_and_loop() {
    let a = key("svc", Some("a"), "ns");
    let b = key("svc", Some("b"), "ns");
    let c = key("svc", Some("c"), "ns");
    let mut g = NetworkGraphState::new();
    g.add_edges(vec![
        ((a.clone(), b.clone()), NetworkValueBuilder::new(MS)),
        ((c.clone(), a.clone()), NetworkValueBuilder::new(MS)),
        ((a.clone(), a.clone()), NetworkValueBuilder::new(MS)),
    ]);
    let n = g.get_node(&a).unwrap();
    assert_eq!(n.to.len(), 1);
    assert_eq!(n.to.key_at(0), &b);
    assert_eq!(n.from.len(), 1);
    assert_eq!(n.from.key_at(0), &c);
    assert_eq!(n.looped.unwrap().count, 1);
    let nb = g.get_node(&b).unwrap();
    assert!(nb.looped.is_none());
    assert_eq!(nb.to.len(), 0);
    assert_eq!(nb.from.key_at(0), &a);
}

#[test]
fn graph_json_keys_are_texts() {
    let a = key("svc", Some("a"), "ns");
    let b = key("svc", None, "ns");
    let mut g = NetworkGraphState::new();
    g.add_edges(vec![((a.clone(), b.clone()), NetworkValueBuilder::new(MS))]);
    let j = g.to_json();
    assert_eq!(j.edges.len(), 1);
    assert_eq!(j.edges.key_at(0), "svc/ns/a");
    let inner = j.edges.value_at(0);
    assert_eq!(inner.key_at(0), "svc/ns/_");
    assert_eq!(inner.value_at(0).count, 1);
    assert_eq!(j.nodes.len(), 2);
    let na = j.nodes.value_at(1);
    assert_eq!(j.nodes.key_at(1), "svc/ns/a");
    assert_eq!(na.to.key_at(0), "svc/ns/_");
    assert!(!na.looped);
}

#[test]
fn graph_json_first_edge_wins_on_same_text() {
    // kind "a/b" + namespace "c" and kind "a" + namespace "b/c" render alike
    let x = key("a", Some("n"), "b/c");
    let y = key("a/b", Some("n"), "c");
    let t = key("t", None, "t");
    assert_eq!(x.to_text(), y.to_text());
    let mut g = NetworkGraphState::new();
    g.add_edges(vec![
        ((y.clone(), t.clone()), NetworkValueBuilder::new(MS)),
        ((x.clone(), t.clone()), NetworkValueBuilder::new(MS)),
        ((x.clone(), t.clone()), NetworkValueBuilder::new(MS)),
    ]);
    let j = g.to_json();
    assert_eq!(j.edges.len(), 1);
    // x sorts before y (kind "a" < "a/b"), so x's value (count 2) stays
    assert_eq!(j.edges.value_at(0).value_at(0).count, 2);
}

#[test]
fn sorted_map_insert_keeps_order() {
    let mut m: SortedMap<u128, usize> = SortedMap::new();
    m.insert(5, 1);
    m.insert(1, 2);
    m.insert(3, 3);
    m.insert(5, 4);
    assert_eq!(m.len(), 3);
    assert_eq!(*m.key_at(0), 1);
    assert_eq!(*m.key_at(2), 5);
    assert_eq!(*m.value_at(2), 4);
    m.insert_absent(1, 9);
    assert_eq!(*m.value_at(0), 2);
    assert_eq!(m.get(&3), Some(&3));
    assert_eq!(m.get(&4), None);
}
