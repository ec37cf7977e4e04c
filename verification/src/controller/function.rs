//! The decisions of the function operator's reconcile loop: given what was
//! observed of a function object, or what came of the last outside call,
//! what to do next.
use vstd::prelude::*;

verus! {

/// How long the operator waits before it checks an object again, in
/// nanoseconds (30 seconds).
pub const FALLBACK_NS: u64 = 30_000_000_000;

/// The lifecycle state of a function object.
#[derive(Copy, Clone, Debug, PartialEq, Eq, Structural)]
pub enum FunctionState {
    Pending,
    Ready,
    Deleting,
}

/// What one reconcile round saw, or what came of the outside call it made.
#[derive(Copy, Clone, Debug, PartialEq, Eq, Structural)]
pub enum FunctionEvent {
    /// The object as observed: marked for deletion, its status state (if it
    /// has a status), and whether it carries the operator's finalizer.
    Observed { deleting: bool, state: Option<FunctionState>, has_finalizer: bool },
    /// The function spec was validated, or not.
    Validated { ok: bool },
    /// The function's resources were deleted, or not.
    Deleted { ok: bool },
    /// The status was patched, or not.
    Updated { ok: bool },
}

/// What the reconcile loop does next.
#[derive(Copy, Clone, Debug, PartialEq, Eq, Structural)]
pub enum FunctionAction {
    /// Patch the status to `Deleting`, keeping the spec held in the status.
    MarkDeleting,
    /// Add the operator's finalizer.
    AddFinalizer,
    /// Validate the function's spec.
    Validate,
    /// Patch the status to `Ready` with the validated spec.
    MarkReady,
    /// Nothing to do until the object changes.
    AwaitChange,
    /// Delete the function's resources.
    Delete,
    /// Remove the operator's finalizer.
    RemoveFinalizer,
    /// Check back after the fallback interval.
    Requeue { after_ns: u64 },
}

/// The decision of the function operator for an event.
pub open spec fn function_step(e: FunctionEvent) -> FunctionAction {
    match e {
        FunctionEvent::Observed { deleting, state, has_finalizer } => {
            if deleting && state != Some(FunctionState::Deleting) {
                FunctionAction::MarkDeleting
            } else if !has_finalizer {
                FunctionAction::AddFinalizer
            } else {
                match state {
                    None | Some(FunctionState::Pending) => FunctionAction::Validate,
                    Some(FunctionState::Ready) => FunctionAction::AwaitChange,
                    Some(FunctionState::Deleting) => FunctionAction::Delete,
                }
            }
        },
        FunctionEvent::Validated { ok } => if ok {
            FunctionAction::MarkReady
        } else {
            FunctionAction::Requeue { after_ns: FALLBACK_NS }
        },
        FunctionEvent::Deleted { ok } => if ok {
            FunctionAction::RemoveFinalizer
        } else {
            FunctionAction::Requeue { after_ns: FALLBACK_NS }
        },
        FunctionEvent::Updated { ok: _ } => FunctionAction::Requeue { after_ns: FALLBACK_NS },
    }
}

/// Decides the next action of the function operator.
pub fn reconcile_function(e: FunctionEvent) -> (r: FunctionAction)
    ensures
        r == function_step(e),
{
    match e {
        FunctionEvent::Observed { deleting, state, has_finalizer } => {
            let is_deleting_state = match state {
                Some(FunctionState::Deleting) => true,
                _ => false,
            };
            if deleting && !is_deleting_state {
                FunctionAction::MarkDeleting
            } else if !has_finalizer {
                FunctionAction::AddFinalizer
            } else {
                match state {
                    None | Some(FunctionState::Pending) => FunctionAction::Validate,
                    Some(FunctionState::Ready) => FunctionAction::AwaitChange,
                    Some(FunctionState::Deleting) => FunctionAction::Delete,
                }
            }
        },
        FunctionEvent::Validated { ok } => if ok {
            FunctionAction::MarkReady
        } else {
            FunctionAction::Requeue { after_ns: FALLBACK_NS }
        },
        FunctionEvent::Deleted { ok } => if ok {
            FunctionAction::RemoveFinalizer
        } else {
            FunctionAction::Requeue { after_ns: FALLBACK_NS }
        },
        FunctionEvent::Updated { ok: _ } => FunctionAction::Requeue { after_ns: FALLBACK_NS },
    }
}

/// An object marked for deletion is never validated or marked ready: it is
/// moved to `Deleting` first, and once there its resources are deleted.
pub proof fn law_function_deletion_first(state: Option<FunctionState>, has_finalizer: bool)
    ensures
        ({
            let a = function_step(FunctionEvent::Observed { deleting: true, state, has_finalizer });
            &&& a != FunctionAction::Validate
            &&& a != FunctionAction::MarkReady
            &&& a != FunctionAction::AwaitChange
            &&& state != Some(FunctionState::Deleting) ==> a == FunctionAction::MarkDeleting
        }),
{
}

/// Every failed outside call ends the round with a requeue after the
/// fallback interval, and so does every status update.
pub proof fn law_function_failures_requeue()
    ensures
        function_step(FunctionEvent::Validated { ok: false }) == (FunctionAction::Requeue { after_ns: FALLBACK_NS }),
        function_step(FunctionEvent::Deleted { ok: false }) == (FunctionAction::Requeue { after_ns: FALLBACK_NS }),
        function_step(FunctionEvent::Updated { ok: false }) == (FunctionAction::Requeue { after_ns: FALLBACK_NS }),
        function_step(FunctionEvent::Updated { ok: true }) == (FunctionAction::Requeue { after_ns: FALLBACK_NS }),
{
}

} // verus!
