//! Keys of the traffic graph's nodes, their order and their text form.
use vstd::prelude::*;

use crate::sorted::{Duplicate, KeyOrder};
use crate::text::{
    compare_text, lemma_text_lt_irreflexive, lemma_text_lt_total, lemma_text_lt_transitive,
    push_char, text_lt, KeyCmp,
};

verus! {

/// A node of the traffic graph: an object kind, its namespace and,
/// where known, its name.
#[derive(Clone, Debug, PartialEq, Eq, PartialOrd, Ord, Hash)]
pub struct NetworkNodeKey {
    pub kind: String,
    pub name: Option<String>,
    pub namespace: String,
}

pub struct NetworkNodeKeyView {
    pub kind: Seq<char>,
    pub name: Option<Seq<char>>,
    pub namespace: Seq<char>,
}

impl View for NetworkNodeKey {
    type V = NetworkNodeKeyView;

    open spec fn view(&self) -> NetworkNodeKeyView {
        NetworkNodeKeyView {
            kind: self.kind@,
            name: match self.name {
                Some(n) => Some(n@),
                None => None,
            },
            namespace: self.namespace@,
        }
    }
}

/// The order of an optional text: a missing one comes first.
pub open spec fn opt_text_lt(a: Option<Seq<char>>, b: Option<Seq<char>>) -> bool {
    match (a, b) {
        (None, Some(_)) => true,
        (Some(x), Some(y)) => text_lt(x, y),
        _ => false,
    }
}

/// The order of `NetworkNodeKey`'s `Ord`: by kind, then name, then namespace.
pub open spec fn node_key_lt(a: NetworkNodeKeyView, b: NetworkNodeKeyView) -> bool {
    ||| text_lt(a.kind, b.kind)
    ||| (a.kind == b.kind && opt_text_lt(a.name, b.name))
    ||| (a.kind == b.kind && a.name == b.name && text_lt(a.namespace, b.namespace))
}

/// The text form of a node key: `kind/namespace/name`, with `_` for a missing name.
pub open spec fn node_key_text(k: NetworkNodeKeyView) -> Seq<char> {
    k.kind + seq!['/'] + k.namespace + seq!['/'] + match k.name {
        Some(n) => n,
        None => seq!['_'],
    }
}

proof fn lemma_opt_text_lt_total(a: Option<Seq<char>>, b: Option<Seq<char>>)
    ensures
        a == b || opt_text_lt(a, b) || opt_text_lt(b, a),
        !opt_text_lt(a, a),
{
    match (a, b) {
        (Some(x), Some(y)) => {
            lemma_text_lt_total(x, y);
            lemma_text_lt_irreflexive(x);
        },
        (Some(x), None) => {
            lemma_text_lt_irreflexive(x);
        },
        _ => {},
    }
}

proof fn lemma_opt_text_lt_transitive(a: Option<Seq<char>>, b: Option<Seq<char>>, c: Option<Seq<char>>)
    requires
        opt_text_lt(a, b),
        opt_text_lt(b, c),
    ensures
        opt_text_lt(a, c),
{
    match (a, b, c) {
        (Some(x), Some(y), Some(z)) => {
            lemma_text_lt_transitive(x, y, z);
        },
        _ => {},
    }
}

fn compare_opt_text(a: &Option<String>, b: &Option<String>) -> (r: KeyCmp)
    ensures
        (r is Less) == opt_text_lt(
            match a {
                Some(n) => Some(n@),
                None => None,
            },
            match b {
                Some(n) => Some(n@),
                None => None,
            },
        ),
        (r is Equal) == (match a {
            Some(n) => Some(n@),
            None => None,
        } == match b {
            Some(n) => Some(n@),
            None => None,
        }),
        (r is Greater) == opt_text_lt(
            match b {
                Some(n) => Some(n@),
                None => None,
            },
            match a {
                Some(n) => Some(n@),
                None => None,
            },
        ),
{
    match (a, b) {
        (None, None) => KeyCmp::Equal,
        (None, Some(_)) => KeyCmp::Less,
        (Some(_), None) => KeyCmp::Greater,
        (Some(x), Some(y)) => compare_text(x.as_str(), y.as_str()),
    }
}

impl Duplicate for NetworkNodeKey {
    fn duplicate(&self) -> (r: NetworkNodeKey) {
        NetworkNodeKey {
            kind: self.kind.clone(),
            name: match &self.name {
                Some(n) => Some(n.clone()),
                None => None,
            },
            namespace: self.namespace.clone(),
        }
    }
}

impl KeyOrder for NetworkNodeKey {
    open spec fn key_lt(a: NetworkNodeKeyView, b: NetworkNodeKeyView) -> bool {
        node_key_lt(a, b)
    }

    proof fn lemma_key_lt_irreflexive(a: NetworkNodeKeyView) {
        lemma_text_lt_irreflexive(a.kind);
        lemma_text_lt_irreflexive(a.namespace);
        lemma_opt_text_lt_total(a.name, a.name);
    }

    proof fn lemma_key_lt_transitive(a: NetworkNodeKeyView, b: NetworkNodeKeyView, c: NetworkNodeKeyView) {
        lemma_text_lt_irreflexive(a.kind);
        lemma_text_lt_irreflexive(b.kind);
        lemma_opt_text_lt_total(a.name, c.name);
        lemma_opt_text_lt_total(b.name, b.name);
        if text_lt(a.kind, b.kind) && text_lt(b.kind, c.kind) {
            lemma_text_lt_transitive(a.kind, b.kind, c.kind);
        }
        if opt_text_lt(a.name, b.name) && opt_text_lt(b.name, c.name) {
            lemma_opt_text_lt_transitive(a.name, b.name, c.name);
        }
        if text_lt(a.namespace, b.namespace) && text_lt(b.namespace, c.namespace) {
            lemma_text_lt_transitive(a.namespace, b.namespace, c.namespace);
        }
    }

    proof fn lemma_key_lt_total(a: NetworkNodeKeyView, b: NetworkNodeKeyView) {
        lemma_text_lt_total(a.kind, b.kind);
        lemma_opt_text_lt_total(a.name, b.name);
        lemma_text_lt_total(a.namespace, b.namespace);
    }

    fn compare_key(&self, other: &NetworkNodeKey) -> (r: KeyCmp) {
        proof {
            lemma_text_lt_irreflexive(self.kind@);
            lemma_text_lt_irreflexive(self.namespace@);
            lemma_text_lt_total(self.kind@, other.kind@);
            lemma_text_lt_total(self.namespace@, other.namespace@);
            lemma_opt_text_lt_total(self@.name, other@.name);
            lemma_opt_text_lt_total(other@.name, self@.name);
        }
        match compare_text(self.kind.as_str(), other.kind.as_str()) {
            KeyCmp::Less => KeyCmp::Less,
            KeyCmp::Greater => KeyCmp::Greater,
            KeyCmp::Equal => match compare_opt_text(&self.name, &other.name) {
                KeyCmp::Less => KeyCmp::Less,
                KeyCmp::Greater => KeyCmp::Greater,
                KeyCmp::Equal => compare_text(self.namespace.as_str(), other.namespace.as_str()),
            },
        }
    }
}

impl NetworkNodeKey {
    /// The text form `kind/namespace/name`.
    pub fn to_text(&self) -> (r: String)
        ensures
            r@ == node_key_text(self@),
    {
        let mut s = String::new();
        s.append(self.kind.as_str());
        push_char(&mut s, '/');
        s.append(self.namespace.as_str());
        push_char(&mut s, '/');
        match &self.name {
            Some(n) => s.append(n.as_str()),
            None => push_char(&mut s, '_'),
        }
        assert(s@ =~= node_key_text(self@));
        s
    }
}

/// An edge of the traffic graph: from a node to a node.
pub type NetworkEdgeKey = (NetworkNodeKey, NetworkNodeKey);

/// The order of an edge key: by its first node, then its second.
pub open spec fn edge_key_lt(a: (NetworkNodeKeyView, NetworkNodeKeyView), b: (NetworkNodeKeyView, NetworkNodeKeyView)) -> bool {
    node_key_lt(a.0, b.0) || (a.0 == b.0 && node_key_lt(a.1, b.1))
}

impl Duplicate for (NetworkNodeKey, NetworkNodeKey) {
    fn duplicate(&self) -> (r: (NetworkNodeKey, NetworkNodeKey)) {
        (self.0.duplicate(), self.1.duplicate())
    }
}

impl KeyOrder for (NetworkNodeKey, NetworkNodeKey) {
    open spec fn key_lt(a: (NetworkNodeKeyView, NetworkNodeKeyView), b: (NetworkNodeKeyView, NetworkNodeKeyView)) -> bool {
        edge_key_lt(a, b)
    }

    proof fn lemma_key_lt_irreflexive(a: (NetworkNodeKeyView, NetworkNodeKeyView)) {
        NetworkNodeKey::lemma_key_lt_irreflexive(a.0);
        NetworkNodeKey::lemma_key_lt_irreflexive(a.1);
    }

    proof fn lemma_key_lt_transitive(
        a: (NetworkNodeKeyView, NetworkNodeKeyView),
        b: (NetworkNodeKeyView, NetworkNodeKeyView),
        c: (NetworkNodeKeyView, NetworkNodeKeyView),
    ) {
        NetworkNodeKey::lemma_key_lt_irreflexive(a.0);
        if node_key_lt(a.0, b.0) && node_key_lt(b.0, c.0) {
            NetworkNodeKey::lemma_key_lt_transitive(a.0, b.0, c.0);
        }
        if node_key_lt(a.1, b.1) && node_key_lt(b.1, c.1) {
            NetworkNodeKey::lemma_key_lt_transitive(a.1, b.1, c.1);
        }
    }

    proof fn lemma_key_lt_total(a: (NetworkNodeKeyView, NetworkNodeKeyView), b: (NetworkNodeKeyView, NetworkNodeKeyView)) {
        NetworkNodeKey::lemma_key_lt_total(a.0, b.0);
        NetworkNodeKey::lemma_key_lt_total(a.1, b.1);
    }

    fn compare_key(&self, other: &(NetworkNodeKey, NetworkNodeKey)) -> (r: KeyCmp) {
        proof {
            NetworkNodeKey::lemma_key_lt_irreflexive(self.0@);
            NetworkNodeKey::lemma_key_lt_total(self.0@, other.0@);
            NetworkNodeKey::lemma_key_lt_total(self.1@, other.1@);
        }
        match self.0.compare_key(&other.0) {
            KeyCmp::Less => KeyCmp::Less,
            KeyCmp::Greater => KeyCmp::Greater,
            KeyCmp::Equal => self.1.compare_key(&other.1),
        }
    }
}

} // verus!
