//! A cluster's control plane as seen from one box: which boxes run, who joins
//! next, and the node lists handed to the provisioning inventory.
use vstd::prelude::*;

use super::node::{box_lt, ClusterBoxState, ClusterBoxStateView};
use crate::sorted::{
    keys_of, lemma_map_of_dom, lemma_map_of_index, lemma_sorted_unique, map_of, strictly_sorted,
    Duplicate, KeyOrder, SortedMap,
};
use crate::text::{compare_text, push_char, KeyCmp};

verus! {

/// The boxes of a sequence that satisfy a predicate, in order.
pub open spec fn keep(s: Seq<ClusterBoxStateView>, p: spec_fn(ClusterBoxStateView) -> bool) -> Seq<ClusterBoxStateView>
    decreases s.len(),
{
    if s.len() == 0 {
        s
    } else {
        let t = keep(s.drop_last(), p);
        if p(s.last()) {
            t.push(s.last())
        } else {
            t
        }
    }
}

pub proof fn lemma_keep(s: Seq<ClusterBoxStateView>, p: spec_fn(ClusterBoxStateView) -> bool)
    ensures
        forall|i: int| 0 <= i < keep(s, p).len() ==> p(#[trigger] keep(s, p)[i]) && s.contains(keep(s, p)[i]),
        keep(s, p).len() <= s.len(),
        sorted_boxes(s) ==> sorted_boxes(keep(s, p)),
        ordered_boxes(s) ==> ordered_boxes(keep(s, p)),
    decreases s.len(),
{
    if s.len() > 0 {
        let t = s.drop_last();
        lemma_keep(t, p);
        let k = keep(s, p);
        assert forall|i: int| 0 <= i < k.len() implies p(#[trigger] k[i]) && s.contains(k[i]) by {
            if i < keep(t, p).len() {
                assert(k[i] == keep(t, p)[i]);
                let j = choose|j: int| 0 <= j < t.len() && t[j] == k[i];
                assert(s[j] == t[j]);
            } else {
                assert(s[s.len() - 1] == s.last());
            }
        }
        if ordered_boxes(s) && p(s.last()) {
            assert forall|i: int, j: int| 0 <= i < j < k.len() implies !box_lt(#[trigger] k[j], #[trigger] k[i]) by {
                if j == k.len() - 1 {
                    let x = choose|x: int| 0 <= x < t.len() && t[x] == keep(t, p)[i];
                    assert(s[x] == t[x]);
                    assert(!box_lt(s[s.len() - 1], s[x]));
                } else {
                    assert(k[i] == keep(t, p)[i] && k[j] == keep(t, p)[j]);
                }
            }
        }
        if sorted_boxes(s) && p(s.last()) {
            assert forall|i: int, j: int| 0 <= i < j < k.len() implies box_lt(#[trigger] k[i], #[trigger] k[j]) by {
                if j == k.len() - 1 {
                    let x = choose|x: int| 0 <= x < t.len() && t[x] == keep(t, p)[i];
                    assert(s[x] == t[x]);
                    assert(box_lt(s[x], s[s.len() - 1]));
                } else {
                    assert(k[i] == keep(t, p)[i] && k[j] == keep(t, p)[j]);
                }
            }
        }
    }
}

/// Boxes in order: none comes after a box it precedes.
pub open spec fn ordered_boxes(s: Seq<ClusterBoxStateView>) -> bool {
    forall|i: int, j: int| 0 <= i < j < s.len() ==> !box_lt(#[trigger] s[j], #[trigger] s[i])
}

/// A box put among others before the first one that it does not follow.
pub open spec fn insert_box(s: Seq<ClusterBoxStateView>, x: ClusterBoxStateView) -> Seq<ClusterBoxStateView>
    decreases s.len(),
{
    if s.len() == 0 {
        seq![x]
    } else if box_lt(s[0], x) {
        seq![s[0]] + insert_box(s.drop_first(), x)
    } else {
        seq![x] + s
    }
}

/// Boxes sorted in their order, by inserting each in turn.
pub open spec fn sort_boxes(s: Seq<ClusterBoxStateView>) -> Seq<ClusterBoxStateView>
    decreases s.len(),
{
    if s.len() == 0 {
        s
    } else {
        insert_box(sort_boxes(s.drop_last()), s.last())
    }
}

/// Inserting a box puts it right after the boxes it follows.
pub proof fn lemma_insert_box_at(s: Seq<ClusterBoxStateView>, x: ClusterBoxStateView, j: int)
    requires
        0 <= j <= s.len(),
        forall|k: int| 0 <= k < j ==> box_lt(#[trigger] s[k], x),
        j < s.len() ==> !box_lt(s[j], x),
    ensures
        insert_box(s, x) == s.insert(j, x),
    decreases j,
{
    if j == 0 {
        if s.len() == 0 {
            assert(s.insert(0, x) =~= seq![x]);
        } else {
            assert(s.insert(0, x) =~= seq![x] + s);
        }
    } else {
        let t = s.drop_first();
        assert forall|k: int| 0 <= k < j - 1 implies box_lt(#[trigger] t[k], x) by {
            assert(t[k] == s[k + 1]);
        }
        if j - 1 < t.len() {
            assert(t[j - 1] == s[j]);
        }
        lemma_insert_box_at(t, x, j - 1);
        assert(box_lt(s[0], x));
        assert(seq![s[0]] + t.insert(j - 1, x) =~= s.insert(j, x));
    }
}

/// Inserting a box into ordered boxes keeps them ordered and adds just it.
pub proof fn lemma_insert_box_ordered(s: Seq<ClusterBoxStateView>, x: ClusterBoxStateView)
    requires
        ordered_boxes(s),
    ensures
        ordered_boxes(insert_box(s, x)),
        insert_box(s, x).len() == s.len() + 1,
        forall|i: int| 0 <= i < insert_box(s, x).len() ==> #[trigger] insert_box(s, x)[i] == x || s.contains(insert_box(s, x)[i]),
    decreases s.len(),
{
    let r = insert_box(s, x);
    if s.len() == 0 {
    } else if box_lt(s[0], x) {
        let t = s.drop_first();
        assert forall|i: int, j: int| 0 <= i < j < t.len() implies !box_lt(#[trigger] t[j], #[trigger] t[i]) by {
            assert(t[i] == s[i + 1] && t[j] == s[j + 1]);
        }
        lemma_insert_box_ordered(t, x);
        let u = insert_box(t, x);
        assert forall|i: int| 0 <= i < r.len() implies #[trigger] r[i] == x || s.contains(r[i]) by {
            if i > 0 {
                assert(r[i] == u[i - 1]);
                if u[i - 1] != x {
                    let k = choose|k: int| 0 <= k < t.len() && t[k] == u[i - 1];
                    assert(s[k + 1] == t[k]);
                }
            } else {
                assert(s[0] == r[0]);
            }
        }
        assert forall|i: int, j: int| 0 <= i < j < r.len() implies !box_lt(#[trigger] r[j], #[trigger] r[i]) by {
            if i == 0 {
                assert(r[0] == s[0]);
                assert(r[j] == u[j - 1]);
                if r[j] == x {
                    if box_lt(x, s[0]) {
                        <ClusterBoxState as KeyOrder>::lemma_key_lt_transitive(x, s[0], x);
                        <ClusterBoxState as KeyOrder>::lemma_key_lt_irreflexive(x);
                    }
                } else {
                    let k = choose|k: int| 0 <= k < s.len() && s[k] == r[j];
                    if k == 0 {
                        <ClusterBoxState as KeyOrder>::lemma_key_lt_irreflexive(s[0]);
                    }
                }
            } else {
                assert(r[i] == u[i - 1] && r[j] == u[j - 1]);
            }
        }
    } else {
        assert forall|i: int, j: int| 0 <= i < j < r.len() implies !box_lt(#[trigger] r[j], #[trigger] r[i]) by {
            if i == 0 {
                assert(r[0] == x);
                assert(r[j] == s[j - 1]);
                if box_lt(s[j - 1], x) {
                    <ClusterBoxState as KeyOrder>::lemma_key_lt_total(s[0], x);
                    if j - 1 > 0 {
                        assert(!box_lt(s[j - 1], s[0]));
                    } else {
                        <ClusterBoxState as KeyOrder>::lemma_key_lt_irreflexive(s[0]);
                    }
                    if box_lt(x, s[0]) {
                        <ClusterBoxState as KeyOrder>::lemma_key_lt_transitive(s[j - 1], x, s[0]);
                    }
                }
            } else {
                assert(r[i] == s[i - 1] && r[j] == s[j - 1]);
            }
        }
        assert forall|i: int| 0 <= i < r.len() implies #[trigger] r[i] == x || s.contains(r[i]) by {
            if i > 0 {
                assert(r[i] == s[i - 1]);
            }
        }
    }
}

/// Sorted boxes are in order.
pub proof fn lemma_sort_boxes_ordered(s: Seq<ClusterBoxStateView>)
    ensures
        ordered_boxes(sort_boxes(s)),
        sort_boxes(s).len() == s.len(),
    decreases s.len(),
{
    if s.len() > 0 {
        lemma_sort_boxes_ordered(s.drop_last());
        lemma_insert_box_ordered(sort_boxes(s.drop_last()), s.last());
    }
}

/// Boxes in strictly increasing order.
pub open spec fn sorted_boxes(s: Seq<ClusterBoxStateView>) -> bool {
    forall|i: int, j: int| 0 <= i < j < s.len() ==> box_lt(#[trigger] s[i], #[trigger] s[j])
}

pub open spec fn views(s: Seq<ClusterBoxState>) -> Seq<ClusterBoxStateView> {
    s.map_values(|b: ClusterBoxState| b@)
}

/// Boxes that run (`true`) or wait to (`false`).
pub open spec fn running_state(running: bool) -> spec_fn(ClusterBoxStateView) -> bool {
    |b: ClusterBoxStateView| b.is_running == running
}

/// Which boxes a listing takes: the running ones, and the given box.
#[derive(Copy, Clone, Debug)]
pub enum ClusterControlPlaneFilter {
    Running,
    RunningWith { uuid: u128 },
}

pub open spec fn filter_contains(f: ClusterControlPlaneFilter, target: u128) -> bool {
    match f {
        ClusterControlPlaneFilter::Running => false,
        ClusterControlPlaneFilter::RunningWith { uuid } => uuid == target,
    }
}

pub open spec fn listed(f: ClusterControlPlaneFilter) -> spec_fn(ClusterBoxStateView) -> bool {
    |b: ClusterBoxStateView| b.is_running || filter_contains(f, b.uuid)
}

impl ClusterControlPlaneFilter {
    pub fn contains(&self, target: u128) -> (r: bool)
        ensures
            r == filter_contains(*self, target),
    {
        match self {
            ClusterControlPlaneFilter::Running => false,
            ClusterControlPlaneFilter::RunningWith { uuid } => *uuid == target,
        }
    }
}

/// A box found in the cluster inventory, with the group it belongs to.
#[derive(Clone, Debug)]
pub struct ClusterBoxEntry {
    pub cluster_name: String,
    pub is_control_plane: bool,
    pub state: ClusterBoxState,
}

/// The control-plane boxes of a cluster, kept as an ordered set.
#[derive(Clone, Debug)]
pub struct ClusterControlPlaneState {
    nodes: SortedMap<ClusterBoxState, ()>,
}

impl View for ClusterControlPlaneState {
    type V = Seq<ClusterBoxStateView>;

    /// The boxes in increasing order.
    closed spec fn view(&self) -> Seq<ClusterBoxStateView> {
        keys_of(self.nodes.pairs())
    }
}

/// The first box that is not running yet.
pub open spec fn next_waiting(s: Seq<ClusterBoxStateView>) -> Option<ClusterBoxStateView> {
    if keep(s, running_state(false)).len() > 0 {
        Some(keep(s, running_state(false))[0])
    } else {
        None
    }
}

impl ClusterControlPlaneState {
    pub closed spec fn wf(&self) -> bool {
        self.nodes.wf()
    }

    pub proof fn lemma_sorted(&self)
        requires
            self.wf(),
        ensures
            sorted_boxes(self@),
    {
        let s = self.nodes.pairs();
        assert forall|i: int, j: int| 0 <= i < j < self@.len() implies box_lt(#[trigger] self@[i], #[trigger] self@[j]) by {
            assert(ClusterBoxState::key_lt(s[i].0, s[j].0));
        }
    }

    /// The control-plane boxes of a cluster among the inventory's boxes.
    pub fn from_boxes(boxes: &Vec<ClusterBoxEntry>, cluster_name: &str) -> (r: ClusterControlPlaneState)
        ensures
            r.wf(),
            forall|b: ClusterBoxStateView| r@.contains(b) <==> exists|i: int| 0 <= i < boxes@.len()
                && (#[trigger] boxes@[i]).cluster_name@ == cluster_name@
                && boxes@[i].is_control_plane
                && boxes@[i].state@ == b,
    {
        let mut nodes: SortedMap<ClusterBoxState, ()> = SortedMap::new();
        let n = boxes.len();
        let mut i: usize = 0;
        while i < n
            invariant
                n == boxes@.len(),
                i <= n,
                nodes.wf(),
                forall|b: ClusterBoxStateView| #[trigger] nodes@.contains_key(b) <==> exists|j: int| 0 <= j < i
                    && (#[trigger] boxes@[j]).cluster_name@ == cluster_name@
                    && boxes@[j].is_control_plane
                    && boxes@[j].state@ == b,
            decreases n - i,
        {
            let entry = &boxes[i];
            let same = match compare_text(entry.cluster_name.as_str(), cluster_name) {
                KeyCmp::Equal => true,
                _ => false,
            };
            if same && entry.is_control_plane {
                nodes.insert(entry.state.duplicate(), ());
            }
            proof {
                assert forall|b: ClusterBoxStateView| #[trigger] nodes@.contains_key(b) <==> exists|j: int| 0 <= j < i + 1
                    && (#[trigger] boxes@[j]).cluster_name@ == cluster_name@
                    && boxes@[j].is_control_plane
                    && boxes@[j].state@ == b by {
                    if exists|j: int| 0 <= j < i + 1 && (#[trigger] boxes@[j]).cluster_name@ == cluster_name@ && boxes@[j].is_control_plane && boxes@[j].state@ == b {
                        let j = choose|j: int| 0 <= j < i + 1 && (#[trigger] boxes@[j]).cluster_name@ == cluster_name@ && boxes@[j].is_control_plane && boxes@[j].state@ == b;
                        if j < i {
                            assert(exists|j2: int| 0 <= j2 < i && (#[trigger] boxes@[j2]).cluster_name@ == cluster_name@ && boxes@[j2].is_control_plane && boxes@[j2].state@ == b);
                        }
                    }
                }
            }
            i = i + 1;
        }
        let r = ClusterControlPlaneState { nodes };
        proof {
            let s = r.nodes.pairs();
            lemma_sorted_unique::<ClusterBoxState, ()>(s);
            assert forall|b: ClusterBoxStateView| r@.contains(b) <==> r.nodes@.contains_key(b) by {
                lemma_map_of_dom(s, b);
                if r@.contains(b) {
                    let j = choose|j: int| 0 <= j < r@.len() && r@[j] == b;
                    assert(s[j].0 == b);
                }
                if r.nodes@.contains_key(b) {
                    let j = choose|j: int| 0 <= j < s.len() && #[trigger] s[j].0 == b;
                    assert(r@[j] == b);
                }
            }
        }
        r
    }

    /// Whether a box of this uuid is a control plane.
    pub fn contains(&self, uuid: u128) -> (r: bool)
        ensures
            r == exists|i: int| 0 <= i < self@.len() && (#[trigger] self@[i]).uuid == uuid,
    {
        let n = self.nodes.len();
        let mut i: usize = 0;
        while i < n
            invariant
                n == self@.len(),
                i <= n,
                forall|j: int| 0 <= j < i ==> (#[trigger] self@[j]).uuid != uuid,
            decreases n - i,
        {
            if self.nodes.key_at(i).uuid == uuid {
                assert(self@[i as int].uuid == uuid);
                return true;
            }
            i = i + 1;
        }
        false
    }

    /// Whether the box of this uuid is the first one not running yet.
    pub fn is_next(&self, uuid: u128) -> (r: bool)
        ensures
            r == match next_waiting(self@) {
                Some(b) => b.uuid == uuid,
                None => false,
            },
    {
        let ghost s = self@;
        let n = self.nodes.len();
        let mut i: usize = 0;
        while i < n
            invariant
                n == s.len(),
                s == self@,
                i <= n,
                keep(s.take(i as int), running_state(false)).len() == 0,
            decreases n - i,
        {
            let node = self.nodes.key_at(i);
            proof {
                assert(s.take(i + 1).drop_last() =~= s.take(i as int));
                assert(s.take(i + 1).last() == s[i as int]);
            }
            if !node.is_running {
                proof {
                    lemma_keep_prefix(s, running_state(false), i + 1);
                }
                return node.uuid == uuid;
            }
            i = i + 1;
        }
        assert(s.take(n as int) =~= s);
        false
    }

    /// Whether any control-plane box runs.
    pub fn is_running(&self) -> (r: bool)
        ensures
            r == exists|i: int| 0 <= i < self@.len() && (#[trigger] self@[i]).is_running,
    {
        let n = self.nodes.len();
        let mut i: usize = 0;
        while i < n
            invariant
                n == self@.len(),
                i <= n,
                forall|j: int| 0 <= j < i ==> !(#[trigger] self@[j]).is_running,
            decreases n - i,
        {
            if self.nodes.key_at(i).is_running {
                assert(self@[i as int].is_running);
                return true;
            }
            i = i + 1;
        }
        false
    }

    /// The number of running control-plane boxes.
    pub fn num_running(&self) -> (r: usize)
        ensures
            r == keep(self@, running_state(true)).len(),
    {
        let ghost s = self@;
        let n = self.nodes.len();
        let mut i: usize = 0;
        let mut count: usize = 0;
        while i < n
            invariant
                n == s.len(),
                s == self@,
                i <= n,
                count == keep(s.take(i as int), running_state(true)).len(),
            decreases n - i,
        {
            proof {
                assert(s.take(i + 1).drop_last() =~= s.take(i as int));
                lemma_keep(s.take(i as int), running_state(true));
            }
            if self.nodes.key_at(i).is_running {
                count = count + 1;
            }
            i = i + 1;
        }
        assert(s.take(n as int) =~= s);
        count
    }

    /// The number of control-plane boxes.
    pub fn num_total(&self) -> (r: usize)
        ensures
            r == self@.len(),
    {
        self.nodes.len()
    }

    /// The boxes a filter takes, in order.
    pub fn to_vec(&self, filter: ClusterControlPlaneFilter) -> (r: Vec<ClusterBoxState>)
        ensures
            views(r@) == keep(self@, listed(filter)),
    {
        let ghost s = self@;
        let n = self.nodes.len();
        let mut r: Vec<ClusterBoxState> = Vec::new();
        let mut i: usize = 0;
        while i < n
            invariant
                n == s.len(),
                s == self@,
                i <= n,
                views(r@) == keep(s.take(i as int), listed(filter)),
            decreases n - i,
        {
            let node = self.nodes.key_at(i);
            proof {
                assert(s.take(i + 1).drop_last() =~= s.take(i as int));
                assert(s.take(i + 1).last() == s[i as int]);
            }
            if node.is_running || filter.contains(node.uuid) {
                r.push(node.duplicate());
                assert(views(r@) =~= keep(s.take(i as int), listed(filter)).push(s[i as int]));
            }
            i = i + 1;
        }
        assert(s.take(n as int) =~= s);
        r
    }
}

proof fn lemma_keep_prefix(s: Seq<ClusterBoxStateView>, p: spec_fn(ClusterBoxStateView) -> bool, i: int)
    requires
        0 < i <= s.len(),
        keep(s.take(i - 1), p).len() == 0,
        p(s[i - 1]),
    ensures
        keep(s, p).len() > 0,
        keep(s, p)[0] == s[i - 1],
    decreases s.len(),
{
    if s.len() > i {
        assert(s.drop_last().take(i - 1) =~= s.take(i - 1));
        assert(s.drop_last()[i - 1] == s[i - 1]);
        lemma_keep_prefix(s.drop_last(), p, i);
    } else {
        assert(s.take(i - 1) =~= s.drop_last());
        assert(s.last() == s[i - 1]);
    }
}


/// A box's entry in the inventory: `role:hostname:address`.
pub open spec fn host_line(b: ClusterBoxStateView, role: Seq<char>) -> Seq<char> {
    role + seq![':'] + b.hostname + seq![':'] + b.ip.unwrap().text
}

/// The inventory entries of the boxes with an address, in order.
pub open spec fn host_words(s: Seq<ClusterBoxStateView>, role: Seq<char>) -> Seq<Seq<char>>
    decreases s.len(),
{
    if s.len() == 0 {
        Seq::empty()
    } else if s.last().ip is Some {
        host_words(s.drop_last(), role).push(host_line(s.last(), role))
    } else {
        host_words(s.drop_last(), role)
    }
}

/// Words joined by a separator (`Itertools::join`).
pub open spec fn join_words(w: Seq<Seq<char>>, sep: Seq<char>) -> Seq<char>
    decreases w.len(),
{
    if w.len() == 0 {
        Seq::empty()
    } else if w.len() == 1 {
        w[0]
    } else {
        join_words(w.drop_last(), sep) + sep + w.last()
    }
}

/// The order in which boxes are listed: running ones first, each part in
/// the boxes' own order.
pub open spec fn listing_order(s: Seq<ClusterBoxStateView>) -> Seq<ClusterBoxStateView> {
    keep(s, running_state(true)) + keep(s, running_state(false))
}

/// The inventory line of some boxes for a role: the boxes sorted, running
/// ones first.
pub open spec fn nodes_text(s: Seq<ClusterBoxStateView>, role: Seq<char>) -> Seq<char> {
    join_words(host_words(listing_order(sort_boxes(s)), role), seq![' '])
}

/// The key the listing sorts by: running first, then the boxes' order.
pub open spec fn listing_lt(a: ClusterBoxStateView, b: ClusterBoxStateView) -> bool {
    (a.is_running && !b.is_running) || (a.is_running == b.is_running && box_lt(a, b))
}

/// Boxes are listed by running state first and their order second: no box
/// comes after one it precedes in that order.
pub proof fn law_listing_order(s: Seq<ClusterBoxStateView>)
    ensures
        forall|i: int, j: int| 0 <= i < j < listing_order(sort_boxes(s)).len()
            ==> !listing_lt(#[trigger] listing_order(sort_boxes(s))[j], #[trigger] listing_order(sort_boxes(s))[i]),
{
    let o = sort_boxes(s);
    lemma_sort_boxes_ordered(s);
    let a = keep(o, running_state(true));
    let w = keep(o, running_state(false));
    lemma_keep(o, running_state(true));
    lemma_keep(o, running_state(false));
    let l = listing_order(o);
    assert forall|i: int, j: int| 0 <= i < j < l.len() implies !listing_lt(#[trigger] l[j], #[trigger] l[i]) by {
        if j < a.len() {
            assert(l[i] == a[i] && l[j] == a[j]);
        } else if i >= a.len() {
            assert(l[i] == w[i - a.len()] && l[j] == w[j - a.len()]);
        } else {
            assert(l[i] == a[i] && l[j] == w[j - a.len()]);
            assert(a[i].is_running && !w[j - a.len()].is_running);
        }
    }
}

impl ClusterBoxState {
    /// `hostname:address`, where the box has an address.
    pub fn get_host(&self) -> (r: Option<String>)
        ensures
            r is Some == self.ip is Some,
            r is Some ==> r.unwrap()@ == self@.hostname + seq![':'] + self@.ip.unwrap().text,
    {
        match &self.ip {
            Some(ip) => {
                let mut s = self.hostname.clone();
                push_char(&mut s, ':');
                s.append(ip.text.as_str());
                Some(s)
            },
            None => None,
        }
    }
}

/// The boxes sorted in their order.
fn sort_box_list(nodes: &Vec<ClusterBoxState>) -> (r: Vec<ClusterBoxState>)
    ensures
        views(r@) == sort_boxes(views(nodes@)),
{
    let ghost s = views(nodes@);
    let mut out: Vec<ClusterBoxState> = Vec::new();
    let n = nodes.len();
    let mut i: usize = 0;
    assert(s.take(0) =~= Seq::<ClusterBoxStateView>::empty());
    assert(views(out@) =~= Seq::<ClusterBoxStateView>::empty());
    while i < n
        invariant
            n == nodes@.len(),
            s == views(nodes@),
            i <= n,
            views(out@) == sort_boxes(s.take(i as int)),
        decreases n - i,
    {
        let x = &nodes[i];
        assert(s[i as int] == x@);
        let m = out.len();
        let mut j: usize = 0;
        while j < m
            invariant
                m == out@.len(),
                j <= m,
                forall|k: int| 0 <= k < j ==> box_lt(#[trigger] out@[k]@, x@),
            ensures
                j <= m,
                forall|k: int| 0 <= k < j ==> box_lt(#[trigger] out@[k]@, x@),
                j < m ==> !box_lt(out@[j as int]@, x@),
            decreases m - j,
        {
            match out[j].compare_key(x) {
                KeyCmp::Less => {
                    j = j + 1;
                },
                _ => {
                    break;
                },
            }
        }
        let ghost before = views(out@);
        proof {
            assert forall|k: int| 0 <= k < j implies box_lt(#[trigger] before[k], x@) by {
                assert(before[k] == out@[k]@);
            }
            if j < m {
                assert(before[j as int] == out@[j as int]@);
            }
            lemma_insert_box_at(before, x@, j as int);
            assert(s.take(i + 1).drop_last() =~= s.take(i as int));
            assert(s.take(i + 1).last() == x@);
        }
        out.insert(j, x.duplicate());
        assert(views(out@) =~= before.insert(j as int, x@));
        i = i + 1;
    }
    assert(s.take(n as int) =~= s);
    out
}

fn append_kept(out: &mut Vec<ClusterBoxState>, nodes: &Vec<ClusterBoxState>, running: bool)
    ensures
        views(final(out)@) == views(old(out)@) + keep(
            views(nodes@),
            running_state(running),
        ),
{
    let ghost s = views(nodes@);
    let ghost p = running_state(running);
    let ghost o = views(out@);
    let n = nodes.len();
    let mut i: usize = 0;
    assert(keep(s.take(0), p) =~= Seq::<ClusterBoxStateView>::empty());
    assert(views(out@) =~= o + keep(s.take(0), p));
    while i < n
        invariant
            n == nodes@.len(),
            s == views(nodes@),
            p == running_state(running),
            i <= n,
            views(out@) == o + keep(s.take(i as int), p),
        decreases n - i,
    {
        proof {
            assert(s.take(i + 1).drop_last() =~= s.take(i as int));
            assert(s.take(i + 1).last() == s[i as int]);
            assert(s[i as int] == nodes@[i as int]@);
            assert(p(s[i as int]) == (nodes@[i as int].is_running == running));
        }
        let ghost before = views(out@);
        if nodes[i].is_running == running {
            out.push(nodes[i].duplicate());
            assert(views(out@) =~= before.push(s[i as int]));
            assert(views(out@) =~= o + keep(s.take(i + 1), p));
        } else {
            assert(keep(s.take(i + 1), p) == keep(s.take(i as int), p));
        }
        i = i + 1;
    }
    assert(s.take(n as int) =~= s);
}

/// The inventory line of some boxes for a role: `role:hostname:address`
/// for each box with an address, in the boxes' order with running boxes
/// first, joined by spaces.
pub fn get_nodes_as_string(nodes: &Vec<ClusterBoxState>, node_role: &str) -> (r: String)
    ensures
        r@ == nodes_text(views(nodes@), node_role@),
{
    let sorted = sort_box_list(nodes);
    let mut ordered: Vec<ClusterBoxState> = Vec::new();
    assert(views(ordered@) =~= Seq::<ClusterBoxStateView>::empty());
    append_kept(&mut ordered, &sorted, true);
    append_kept(&mut ordered, &sorted, false);
    assert(views(ordered@) =~= listing_order(sort_boxes(views(nodes@))));
    let ghost s = views(ordered@);
    let ghost role = node_role@;
    let mut out = String::new();
    let mut first = true;
    let n = ordered.len();
    let mut i: usize = 0;
    while i < n
        invariant
            n == ordered@.len(),
            s == views(ordered@),
            role == node_role@,
            i <= n,
            first == (host_words(s.take(i as int), role).len() == 0),
            out@ == join_words(host_words(s.take(i as int), role), seq![' ']),
        decreases n - i,
    {
        proof {
            assert(s.take(i + 1).drop_last() =~= s.take(i as int));
            assert(s.take(i + 1).last() == s[i as int]);
        }
        match ordered[i].get_host() {
            Some(host) => {
                let ghost w = host_words(s.take(i as int), role);
                if !first {
                    push_char(&mut out, ' ');
                }
                out.append(node_role);
                push_char(&mut out, ':');
                out.append(host.as_str());
                proof {
                    let w2 = host_words(s.take(i + 1), role);
                    assert(w2 == w.push(host_line(s[i as int], role)));
                    assert(w2.drop_last() =~= w);
                    if w.len() == 0 {
                        assert(out@ =~= host_line(s[i as int], role));
                    } else {
                        assert(out@ =~= join_words(w, seq![' ']) + seq![' '] + host_line(s[i as int], role));
                    }
                }
                first = false;
            },
            None => {},
        }
        i = i + 1;
    }
    assert(s.take(n as int) =~= s);
    out
}

/// The settings of the provisioning service that the node lists depend on.
#[derive(Clone, Debug)]
pub struct ClusterConfig {
    pub bootstrapper_node_size: usize,
    pub etcd_nodes_max: usize,
}

/// The group a box belongs to.
#[derive(Clone, Debug)]
pub struct ClusterGroup {
    pub cluster_name: String,
    pub is_default: bool,
}

/// A cluster's control plane as seen from one of its boxes (the owner).
pub struct ClusterState {
    config: ClusterConfig,
    control_planes: ClusterControlPlaneState,
    owner_group: ClusterGroup,
    owner_uuid: u128,
}

/// Why a cluster could not be described.
#[derive(Clone, Debug, PartialEq, Eq)]
pub enum ClusterError {
    /// No control-plane box of the cluster runs.
    NotRunning { cluster_name: String },
}

/// How many listed boxes the etcd line takes: at most `etcd_nodes_max`
/// together with the default nodes (when a maximum is set), and an odd
/// number together with them (dropping the last box when even).
pub open spec fn etcd_count(listed: nat, etcd_nodes_max: nat, num_default: nat) -> nat {
    let kept = if etcd_nodes_max > 0 {
        let cap = if etcd_nodes_max < num_default {
            0
        } else {
            (etcd_nodes_max - num_default) as nat
        };
        if listed < cap {
            listed
        } else {
            cap
        }
    } else {
        listed
    };
    if (kept + num_default) % 2 == 0 && kept > 0 {
        (kept - 1) as nat
    } else {
        kept
    }
}

/// The etcd members, together with the default nodes, are odd in number
/// (a raft quorum) unless no box is listed at all, never more than the set
/// maximum, and never more than the boxes listed.
pub proof fn law_etcd_quorum(listed: nat, etcd_nodes_max: nat, num_default: nat)
    ensures
        etcd_count(listed, etcd_nodes_max, num_default) == 0 || (etcd_count(listed, etcd_nodes_max, num_default) + num_default) % 2 == 1,
        etcd_count(listed, etcd_nodes_max, num_default) <= listed,
        etcd_nodes_max > 0 && etcd_count(listed, etcd_nodes_max, num_default) > 0 ==> etcd_count(listed, etcd_nodes_max, num_default) + num_default <= etcd_nodes_max,
{
}

impl ClusterState {
    pub closed spec fn wf(&self) -> bool {
        self.control_planes.wf()
    }

    pub closed spec fn config(&self) -> ClusterConfig {
        self.config
    }

    pub closed spec fn control_planes(&self) -> Seq<ClusterBoxStateView> {
        self.control_planes@
    }

    pub closed spec fn cluster_name(&self) -> Seq<char> {
        self.owner_group.cluster_name@
    }

    pub closed spec fn is_default(&self) -> bool {
        self.owner_group.is_default
    }

    pub closed spec fn owner_uuid(&self) -> u128 {
        self.owner_uuid
    }

    /// The cluster of a box, given the control planes found.
    pub fn new(config: ClusterConfig, control_planes: ClusterControlPlaneState, owner_group: ClusterGroup, owner_uuid: u128) -> (r: ClusterState)
        requires
            control_planes.wf(),
        ensures
            r.wf(),
            r.config() == config,
            r.control_planes() == control_planes@,
            r.cluster_name() == owner_group.cluster_name@,
            r.is_default() == owner_group.is_default,
            r.owner_uuid() == owner_uuid,
    {
        ClusterState { config, control_planes, owner_group, owner_uuid }
    }

    /// The current cluster, seen from its first running control plane
    /// among the control planes given.
    pub fn current(config: ClusterConfig, control_planes: ClusterControlPlaneState, cluster_name: String, is_default: bool) -> (r: Result<ClusterState, ClusterError>)
        requires
            control_planes.wf(),
        ensures
            match r {
                Ok(c) => {
                    let running = keep(control_planes@, listed(ClusterControlPlaneFilter::Running));
                    &&& running.len() > 0
                    &&& c.wf()
                    &&& c.owner_uuid() == running[0].uuid
                    &&& c.config() == config
                    &&& c.control_planes() == control_planes@
                    &&& c.cluster_name() == cluster_name@
                    &&& c.is_default() == is_default
                },
                Err(ClusterError::NotRunning { cluster_name: name }) => {
                    &&& keep(control_planes@, listed(ClusterControlPlaneFilter::Running)).len() == 0
                    &&& name@ == cluster_name@
                },
            },
    {
        let running = control_planes.to_vec(ClusterControlPlaneFilter::Running);
        if running.len() == 0 {
            return Err(ClusterError::NotRunning { cluster_name });
        }
        let owner_uuid = running[0].uuid;
        assert(views(running@)[0] == running@[0]@);
        Ok(ClusterState { config, control_planes, owner_group: ClusterGroup { cluster_name, is_default }, owner_uuid })
    }

    /// The control-plane line: `kube_control_plane:hostname:address` for the
    /// running boxes and the owner.
    pub fn get_control_planes_as_string(&self) -> (r: String)
        ensures
            r@ == nodes_text(
                keep(self.control_planes(), listed(ClusterControlPlaneFilter::RunningWith { uuid: self.owner_uuid() })),
                "kube_control_plane"@,
            ),
    {
        let filter = ClusterControlPlaneFilter::RunningWith { uuid: self.owner_uuid };
        let nodes = self.control_planes.to_vec(filter);
        get_nodes_as_string(&nodes, "kube_control_plane")
    }

    /// The number of default nodes that the etcd cluster also counts.
    pub open spec fn num_default_nodes(&self) -> nat {
        if self.is_default() {
            self.config().bootstrapper_node_size as nat
        } else {
            0
        }
    }

    /// The etcd line: the first boxes of the control-plane listing, as many
    /// as `etcd_count` allows.
    pub fn get_etcd_nodes_as_string(&self) -> (r: String)
        ensures
            ({
                let listed = keep(self.control_planes(), listed(ClusterControlPlaneFilter::RunningWith { uuid: self.owner_uuid() }));
                r@ == nodes_text(
                    listed.take(etcd_count(listed.len(), self.config().etcd_nodes_max as nat, self.num_default_nodes()) as int),
                    "etcd"@,
                )
            }),
    {
        let filter = ClusterControlPlaneFilter::RunningWith { uuid: self.owner_uuid };
        let mut nodes = self.control_planes.to_vec(filter);
        let ghost listed = views(nodes@);
        let num_default_nodes: usize = if self.owner_group.is_default {
            self.config.bootstrapper_node_size
        } else {
            0
        };
        if self.config.etcd_nodes_max > 0 {
            let cap = if self.config.etcd_nodes_max < num_default_nodes {
                0
            } else {
                self.config.etcd_nodes_max - num_default_nodes
            };
            nodes.truncate(cap);
        }
        if (nodes.len() % 2 + num_default_nodes % 2) % 2 == 0 {
            nodes.pop();
        }
        assert(views(nodes@) =~= listed.take(etcd_count(listed.len(), self.config.etcd_nodes_max as nat, num_default_nodes as nat) as int));
        get_nodes_as_string(&nodes, "etcd")
    }

    /// Whether every control plane runs; a cluster other than the default
    /// one also needs at least one.
    pub fn is_control_plane_ready(&self) -> (r: bool)
        ensures
            r == ({
                let running = keep(self.control_planes(), running_state(true)).len();
                if running == 0 && !self.is_default() {
                    false
                } else {
                    running == self.control_planes().len()
                }
            }),
    {
        let running = self.control_planes.num_running();
        let total = self.control_planes.num_total();
        if running == 0 && !self.owner_group.is_default {
            return false;
        }
        running == total
    }

    fn is_node_control_plane(&self) -> (r: bool)
        ensures
            r == exists|i: int| 0 <= i < self.control_planes().len() && (#[trigger] self.control_planes()[i]).uuid == self.owner_uuid(),
    {
        self.control_planes.contains(self.owner_uuid)
    }

    /// Whether the owner may join now: as a control plane, when it is the
    /// first one not running; otherwise, when the control plane is ready.
    pub fn is_joinable(&self) -> (r: bool)
        ensures
            r == if exists|i: int| 0 <= i < self.control_planes().len() && (#[trigger] self.control_planes()[i]).uuid == self.owner_uuid() {
                match next_waiting(self.control_planes()) {
                    Some(b) => b.uuid == self.owner_uuid(),
                    None => false,
                }
            } else {
                let running = keep(self.control_planes(), running_state(true)).len();
                if running == 0 && !self.is_default() {
                    false
                } else {
                    running == self.control_planes().len()
                }
            },
    {
        if self.is_node_control_plane() {
            self.control_planes.is_next(self.owner_uuid)
        } else {
            self.is_control_plane_ready()
        }
    }

    /// Whether the owner is a control plane of a cluster none of whose
    /// control planes runs yet.
    pub fn is_new(&self) -> (r: bool)
        ensures
            r == ((exists|i: int| 0 <= i < self.control_planes().len() && (#[trigger] self.control_planes()[i]).uuid == self.owner_uuid())
                && !(exists|i: int| 0 <= i < self.control_planes().len() && (#[trigger] self.control_planes()[i]).is_running)),
    {
        self.is_node_control_plane() && !self.control_planes.is_running()
    }
}

/// A new cluster is never ready: its control planes exist but none runs.
pub proof fn law_new_cluster_not_ready(control_planes: Seq<ClusterBoxStateView>, owner_uuid: u128, is_default: bool)
    requires
        exists|i: int| 0 <= i < control_planes.len() && (#[trigger] control_planes[i]).uuid == owner_uuid,
        !(exists|i: int| 0 <= i < control_planes.len() && (#[trigger] control_planes[i]).is_running),
    ensures
        keep(control_planes, running_state(true)).len() == 0,
        control_planes.len() > 0,
{
    lemma_keep(control_planes, running_state(true));
    let k = keep(control_planes, running_state(true));
    if k.len() > 0 {
        let j = choose|j: int| 0 <= j < control_planes.len() && control_planes[j] == k[0];
        assert(control_planes[j].is_running);
    }
}

/// What a predicate keeps is empty exactly when no element satisfies it,
/// and otherwise starts with the first element that does.
proof fn lemma_keep_first(s: Seq<ClusterBoxStateView>, p: spec_fn(ClusterBoxStateView) -> bool)
    ensures
        keep(s, p).len() == 0 <==> forall|j: int| 0 <= j < s.len() ==> !p(#[trigger] s[j]),
        keep(s, p).len() > 0 ==> exists|i: int| 0 <= i < s.len() && s[i] == keep(s, p)[0] && p(s[i])
            && forall|j: int| 0 <= j < i ==> !p(#[trigger] s[j]),
    decreases s.len(),
{
    if s.len() > 0 {
        let t = s.drop_last();
        lemma_keep_first(t, p);
        assert forall|j: int| 0 <= j < t.len() implies t[j] == s[j] by {}
        if keep(t, p).len() > 0 {
            let i = choose|i: int| 0 <= i < t.len() && t[i] == keep(t, p)[0] && p(t[i])
                && forall|j: int| 0 <= j < i ==> !p(#[trigger] t[j]);
            assert(s[i] == t[i]);
            assert(keep(s, p)[0] == keep(t, p)[0]);
            assert forall|j: int| 0 <= j < i implies !p(#[trigger] s[j]) by {
                assert(s[j] == t[j]);
            }
            assert(!(forall|j: int| 0 <= j < s.len() ==> !p(#[trigger] s[j]))) by {
                assert(p(s[i]));
            }
        } else {
            if p(s.last()) {
                assert(keep(s, p)[0] == s[s.len() - 1]);
                assert forall|j: int| 0 <= j < s.len() - 1 implies !p(#[trigger] s[j]) by {
                    assert(s[j] == t[j]);
                }
                assert(!(forall|j: int| 0 <= j < s.len() ==> !p(#[trigger] s[j]))) by {
                    assert(p(s[s.len() - 1]));
                }
            } else {
                assert forall|j: int| 0 <= j < s.len() implies !p(#[trigger] s[j]) by {
                    if j < s.len() - 1 {
                        assert(s[j] == t[j]);
                    }
                }
            }
        }
    }
}

/// The next box to join is the first box, in order, that does not run yet:
/// it comes after running boxes only, and there is none exactly when every
/// box runs.
pub proof fn law_next_waiting(s: Seq<ClusterBoxStateView>)
    ensures
        match next_waiting(s) {
            Some(b) => exists|i: int| 0 <= i < s.len() && s[i] == b && !b.is_running
                && forall|j: int| 0 <= j < i ==> (#[trigger] s[j]).is_running,
            None => forall|j: int| 0 <= j < s.len() ==> (#[trigger] s[j]).is_running,
        },
{
    let p = running_state(false);
    lemma_keep_first(s, p);
    match next_waiting(s) {
        Some(b) => {
            let i = choose|i: int| 0 <= i < s.len() && s[i] == keep(s, p)[0] && p(s[i])
                && forall|j: int| 0 <= j < i ==> !p(#[trigger] s[j]);
            assert forall|j: int| 0 <= j < i implies (#[trigger] s[j]).is_running by {
                assert(!p(s[j]));
            }
        },
        None => {
            assert forall|j: int| 0 <= j < s.len() implies (#[trigger] s[j]).is_running by {
                assert(!p(s[j]));
            }
        },
    }
}

/// A box may join as the next control plane exactly when it is the first,
/// in order, that does not run yet.
pub proof fn law_is_next(s: Seq<ClusterBoxStateView>, uuid: u128)
    ensures
        (match next_waiting(s) {
            Some(b) => b.uuid == uuid,
            None => false,
        }) <==> exists|i: int| 0 <= i < s.len() && s[i].uuid == uuid && !s[i].is_running
            && forall|j: int| 0 <= j < i ==> (#[trigger] s[j]).is_running,
{
    law_next_waiting(s);
    match next_waiting(s) {
        Some(b) => {
            let i = choose|i: int| 0 <= i < s.len() && s[i] == b && !b.is_running
                && forall|j: int| 0 <= j < i ==> (#[trigger] s[j]).is_running;
            if exists|k: int| 0 <= k < s.len() && s[k].uuid == uuid && !s[k].is_running
                && forall|j: int| 0 <= j < k ==> (#[trigger] s[j]).is_running {
                let k = choose|k: int| 0 <= k < s.len() && s[k].uuid == uuid && !s[k].is_running
                    && forall|j: int| 0 <= j < k ==> (#[trigger] s[j]).is_running;
                if k < i {
                    assert(s[k].is_running);
                } else if i < k {
                    assert(s[i].is_running);
                }
            }
        },
        None => {
            if exists|k: int| 0 <= k < s.len() && s[k].uuid == uuid && !s[k].is_running
                && forall|j: int| 0 <= j < k ==> (#[trigger] s[j]).is_running {
                let k = choose|k: int| 0 <= k < s.len() && s[k].uuid == uuid && !s[k].is_running
                    && forall|j: int| 0 <= j < k ==> (#[trigger] s[j]).is_running;
                assert(s[k].is_running);
            }
        },
    }
}

} // verus!
