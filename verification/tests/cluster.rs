use netai_cloud::cluster::node::{ClusterBoxState, IpAddress};
use netai_cloud::cluster::state::{
    get_nodes_as_string, ClusterBoxEntry, ClusterConfig, ClusterControlPlaneFilter,
    ClusterControlPlaneState, ClusterError, ClusterGroup, ClusterState,
};

fn ip(last: u8) -> IpAddress {
    IpAddress {
        version: 4,
        bits: 0x0a00_0000 + last as u128,
        text: format!("10.0.0.{last}"),
    }
}

fn node(created_at: i128, hostname: &str, address: Option<u8>, is_running: bool, uuid: u128) -> ClusterBoxState {
    ClusterBoxState {
        created_at: Some(created_at),
        hostname: hostname.to_string(),
        ip: address.map(ip),
        is_running,
        uuid,
    }
}

fn entry(cluster: &str, control_plane: bool, state: ClusterBoxState) -> ClusterBoxEntry {
    ClusterBoxEntry {
        cluster_name: cluster.to_string(),
        is_control_plane: control_plane,
        state,
    }
}

fn planes(nodes: Vec<ClusterBoxState>) -> ClusterControlPlaneState {
    let entries: Vec<ClusterBoxEntry> = nodes.into_iter().map(|n| entry("default", true, n)).collect();
    ClusterControlPlaneState::from_boxes(&entries, "default")
}

fn config(bootstrapper_node_size: usize, etcd_nodes_max: usize) -> ClusterConfig {
    ClusterConfig {
        bootstrapper_node_size,
        etcd_nodes_max,
    }
}

fn group(name: &str, is_default: bool) -> ClusterGroup {
    ClusterGroup {
        cluster_name: name.to_string(),
        is_default,
    }
}

#[test]
fn host_needs_an_address() {
    assert_eq!(node(1, "a", Some(1), true, 1).get_host(), Some("a:10.0.0.1".to_string()));
    assert_eq!(node(1, "a", None, true, 1).get_host(), None);
}

#[test]
fn nodes_string_lists_running_first_and_skips_missing_addresses() {
    let nodes = vec![
        node(1, "first", Some(1), false, 1),
        node(2, "second", Some(2), true, 2),
        node(3, "third", None, true, 3),
        node(4, "fourth", Some(4), true, 4),
    ];
    assert_eq!(
        get_nodes_as_string(&nodes, "etcd"),
        "etcd:second:10.0.0.2 etcd:fourth:10.0.0.4 etcd:first:10.0.0.1"
    );
    assert_eq!(get_nodes_as_string(&vec![], "etcd"), "");
}

#[test]
fn from_boxes_keeps_control_planes_of_the_cluster_in_order() {
    let entries = vec![
        entry("default", true, node(5, "e", Some(5), true, 5)),
        entry("other", true, node(1, "x", Some(9), true, 9)),
        entry("default", false, node(2, "w", Some(8), true, 8)),
        entry("default", true, node(3, "c", Some(3), false, 3)),
        entry("default", true, node(5, "e", Some(5), true, 5)),
    ];
    let cp = ClusterControlPlaneState::from_boxes(&entries, "default");
    assert_eq!(cp.num_total(), 2);
    assert_eq!(cp.num_running(), 1);
    assert!(cp.contains(3));
    assert!(!cp.contains(9));
    assert!(cp.is_next(3));
    assert!(!cp.is_next(5));
    assert!(cp.is_running());
    let all = cp.to_vec(ClusterControlPlaneFilter::RunningWith { uuid: 3 });
    assert_eq!(all.iter().map(|b| b.uuid).collect::<Vec<_>>(), vec![3, 5]);
    let running = cp.to_vec(ClusterControlPlaneFilter::Running);
    assert_eq!(running.iter().map(|b| b.uuid).collect::<Vec<_>>(), vec![5]);
}

#[test]
fn filter_contains_only_its_uuid() {
    assert!(!ClusterControlPlaneFilter::Running.contains(1));
    assert!(ClusterControlPlaneFilter::RunningWith { uuid: 1 }.contains(1));
    assert!(!ClusterControlPlaneFilter::RunningWith { uuid: 1 }.contains(2));
}

#[test]
fn control_planes_string_includes_the_owner() {
    let cp = planes(vec![
        node(1, "a", Some(1), true, 1),
        node(2, "b", Some(2), false, 2),
        node(3, "c", Some(3), false, 3),
    ]);
    let state = ClusterState::new(config(1, 0), cp, group("default", true), 3);
    assert_eq!(
        state.get_control_planes_as_string(),
        "kube_control_plane:a:10.0.0.1 kube_control_plane:c:10.0.0.3"
    );
}

#[test]
fn etcd_nodes_are_odd() {
    let cp = planes(vec![
        node(1, "a", Some(1), true, 1),
        node(2, "b", Some(2), true, 2),
        node(3, "c", Some(3), true, 3),
        node(4, "d", Some(4), true, 4),
    ]);
    let state = ClusterState::new(config(1, 0), cp, group("lab", false), 1);
    assert_eq!(state.get_etcd_nodes_as_string(), "etcd:a:10.0.0.1 etcd:b:10.0.0.2 etcd:c:10.0.0.3");
}

#[test]
fn etcd_nodes_count_the_default_nodes() {
    let nodes = vec![
        node(1, "a", Some(1), true, 1),
        node(2, "b", Some(2), true, 2),
        node(3, "c", Some(3), true, 3),
        node(4, "d", Some(4), true, 4),
    ];
    // one default node: 4 listed + 1 is odd, all stay
    let state = ClusterState::new(config(1, 0), planes(nodes.clone()), group("default", true), 1);
    assert_eq!(
        state.get_etcd_nodes_as_string(),
        "etcd:a:10.0.0.1 etcd:b:10.0.0.2 etcd:c:10.0.0.3 etcd:d:10.0.0.4"
    );
    // at most 3 in all with one default node: 2 kept, 2 + 1 is odd
    let state = ClusterState::new(config(1, 3), planes(nodes.clone()), group("default", true), 1);
    assert_eq!(state.get_etcd_nodes_as_string(), "etcd:a:10.0.0.1 etcd:b:10.0.0.2");
    // at most 2 with one default node: 1 kept, 1 + 1 is even, none stays
    let state = ClusterState::new(config(1, 2), planes(nodes.clone()), group("default", true), 1);
    assert_eq!(state.get_etcd_nodes_as_string(), "");
    // more default nodes than the maximum: none is listed
    let state = ClusterState::new(config(5, 3), planes(nodes), group("default", true), 1);
    assert_eq!(state.get_etcd_nodes_as_string(), "");
}

#[test]
fn readiness_of_the_control_plane() {
    let ready = planes(vec![node(1, "a", Some(1), true, 1), node(2, "b", Some(2), true, 2)]);
    assert!(ClusterState::new(config(1, 0), ready, group("lab", false), 9).is_control_plane_ready());
    let half = planes(vec![node(1, "a", Some(1), true, 1), node(2, "b", Some(2), false, 2)]);
    assert!(!ClusterState::new(config(1, 0), half, group("lab", false), 9).is_control_plane_ready());
    let empty = planes(vec![]);
    assert!(!ClusterState::new(config(1, 0), empty, group("lab", false), 9).is_control_plane_ready());
    let empty = planes(vec![]);
    assert!(ClusterState::new(config(1, 0), empty, group("default", true), 9).is_control_plane_ready());
}

#[test]
fn joinable_and_new() {
    let nodes = vec![
        node(1, "a", Some(1), false, 1),
        node(2, "b", Some(2), false, 2),
    ];
    let first = ClusterState::new(config(1, 0), planes(nodes.clone()), group("lab", false), 1);
    assert!(first.is_joinable());
    assert!(first.is_new());
    let second = ClusterState::new(config(1, 0), planes(nodes.clone()), group("lab", false), 2);
    assert!(!second.is_joinable());
    assert!(second.is_new());
    let worker = ClusterState::new(config(1, 0), planes(nodes), group("lab", false), 7);
    assert!(!worker.is_joinable());
    assert!(!worker.is_new());
}

#[test]
fn current_cluster_needs_a_running_control_plane() {
    let down = planes(vec![node(1, "a", Some(1), false, 1)]);
    match ClusterState::current(config(1, 0), down, "lab".to_string(), false) {
        Err(ClusterError::NotRunning { cluster_name }) => assert_eq!(cluster_name, "lab"),
        Ok(_) => panic!("a cluster without running control planes was accepted"),
    }
    let up = planes(vec![node(1, "a", Some(1), false, 1), node(2, "b", Some(2), true, 2)]);
    let state = ClusterState::current(config(1, 0), up, "lab".to_string(), false).unwrap();
    assert_eq!(state.get_control_planes_as_string(), "kube_control_plane:b:10.0.0.2");
}

#[test]
fn nodes_string_sorts_its_input() {
    let nodes = vec![
        node(2, "b", Some(2), true, 2),
        node(1, "a", Some(1), true, 1),
        node(0, "w", Some(3), false, 3),
    ];
    assert_eq!(
        get_nodes_as_string(&nodes, "etcd"),
        "etcd:a:10.0.0.1 etcd:b:10.0.0.2 etcd:w:10.0.0.3"
    );
}
