//! Keys of the graph entries that graph connectors exchange.
use vstd::prelude::*;

use crate::text::push_char;

verus! {

/// A node of a graph: an object kind, its name and namespace.
#[derive(Clone, Debug, PartialEq, Eq, PartialOrd, Ord, Hash)]
pub struct NetworkNodeKey {
    pub kind: String,
    pub name: String,
    pub namespace: String,
}

/// The text form of a node: `kind/namespace/name`.
pub open spec fn node_text(kind: Seq<char>, namespace: Seq<char>, name: Seq<char>) -> Seq<char> {
    kind + seq!['/'] + namespace + seq!['/'] + name
}

impl NetworkNodeKey {
    pub fn to_text(&self) -> (r: String)
        ensures
            r@ == node_text(self.kind@, self.namespace@, self.name@),
    {
        let mut s = String::new();
        s.append(self.kind.as_str());
        push_char(&mut s, '/');
        s.append(self.namespace.as_str());
        push_char(&mut s, '/');
        s.append(self.name.as_str());
        assert(s@ =~= node_text(self.kind@, self.namespace@, self.name@));
        s
    }
}

/// An edge of a graph, within an optional time window (milliseconds).
#[derive(Copy, Clone, Debug, PartialEq, Eq, PartialOrd, Ord, Hash)]
pub struct NetworkEdgeKey<NodeKey> {
    pub interval_ms: Option<u64>,
    pub link: NodeKey,
    pub sink: NodeKey,
    pub src: NodeKey,
}

/// The key of a graph entry: an edge or a node.
#[derive(Clone, Debug, PartialEq, Eq)]
pub enum NetworkEntrykey {
    Edge(NetworkEdgeKey<NetworkNodeKey>),
    Node(NetworkNodeKey),
}

/// The connector that reads graphs from local files.
#[derive(Copy, Clone, Debug, Default)]
pub struct NetworkConnector {}

impl NetworkConnector {
    /// The connector's name.
    pub fn name(&self) -> (r: &'static str)
        ensures
            r@ == "local"@,
    {
        "local"
    }
}

} // verus!
