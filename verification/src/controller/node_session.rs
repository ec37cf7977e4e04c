//! The decision of the node-unbinding operator: whether a node's session is
//! released when the node changes.
use vstd::prelude::*;

use crate::text::{compare_text, KeyCmp};

verus! {

/// What the operator does with a node.
#[derive(Clone, Debug, PartialEq, Eq)]
pub enum NodeUnbindPlan {
    /// The node is bound to no user: nothing to release.
    SkipUnbound,
    /// The node is allocated to its user persistently: keep it.
    SkipPersistent,
    /// Release the session of this user on the node.
    Unbind { user_name: String },
}

/// Decides whether a node's session is released, from its labels: the user
/// it is bound to and the persistence flag.
pub fn plan_node_unbinding(bound_user: Option<&str>, persistent: Option<&str>) -> (r: NodeUnbindPlan)
    ensures
        match bound_user {
            None => r == NodeUnbindPlan::SkipUnbound,
            Some(user) => if persistent is Some && persistent.unwrap()@ == "true"@ {
                r == NodeUnbindPlan::SkipPersistent
            } else {
                r matches NodeUnbindPlan::Unbind { user_name } && user_name@ == user@
            },
        },
{
    match bound_user {
        None => NodeUnbindPlan::SkipUnbound,
        Some(user) => {
            let is_persistent = match persistent {
                Some(p) => match compare_text(p, "true") {
                    KeyCmp::Equal => true,
                    _ => false,
                },
                None => false,
            };
            if is_persistent {
                NodeUnbindPlan::SkipPersistent
            } else {
                NodeUnbindPlan::Unbind { user_name: String::from_str(user) }
            }
        },
    }
}

/// How a node's round ends.
#[derive(Copy, Clone, Debug, PartialEq, Eq, Structural)]
pub enum NodeRoundEnd {
    /// Check the node again after the operator's fallback interval.
    RequeueAfterFallback,
}

/// How a node's round ended with the release it tried, if any: `None` where
/// the plan released nothing, `Some(false)` where the release (or opening the
/// user's sessions) failed.  Every round ends with a requeue after the
/// fallback interval; a failed release is not an error of the round.
pub fn finish_node_round(released: Option<bool>) -> (r: Result<NodeRoundEnd, ()>)
    ensures
        r == Ok::<NodeRoundEnd, ()>(NodeRoundEnd::RequeueAfterFallback),
{
    match released {
        Some(_) | None => Ok(NodeRoundEnd::RequeueAfterFallback),
    }
}

} // verus!
