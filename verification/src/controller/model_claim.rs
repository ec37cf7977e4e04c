//! The decisions of the model-claim operator: its reconcile loop and the
//! validator's choices on binding and deletion.
use vstd::prelude::*;

verus! {

/// How long the operator waits before it checks an object again, in
/// nanoseconds (30 seconds).
pub const FALLBACK_NS: u64 = 30_000_000_000;

/// The lifecycle state of a model claim.
#[derive(Copy, Clone, Debug, PartialEq, Eq, Structural)]
pub enum ModelClaimState {
    Pending,
    Ready,
    Replacing,
    Deleting,
}

/// What the outside check of a claim found.
#[derive(Copy, Clone, Debug, PartialEq, Eq, Structural)]
pub enum ClaimCheck {
    /// The claim's fields should change.
    Changed,
    /// Nothing to change.
    Unchanged,
    /// The check failed.
    Failed,
}

/// What one reconcile round saw, or what came of the outside call it made.
#[derive(Copy, Clone, Debug, PartialEq, Eq, Structural)]
pub enum ModelClaimEvent {
    Observed { deleting: bool, state: Option<ModelClaimState>, has_finalizer: bool },
    /// The pending claim was validated, or not.
    Validated { ok: bool },
    /// The ready claim was checked for updates.
    Checked { result: ClaimCheck },
    /// The claim's storage replacement was checked.
    ReplacementChecked { result: ClaimCheck },
    /// The claim's model was deleted, or not.
    Deleted { ok: bool },
    /// The claim's fields were patched, or not.
    FieldsUpdated { ok: bool },
}

#[derive(Copy, Clone, Debug, PartialEq, Eq, Structural)]
pub enum ModelClaimAction {
    /// Patch the status to `Deleting`, keeping resources and storage.
    MarkDeleting,
    AddFinalizer,
    /// Validate a pending claim.
    Validate,
    /// Check a ready claim for updates.
    CheckUpdate,
    /// Check a replacing claim's new storage.
    CheckReplacement,
    /// Delete the claim's model where its policy says so.
    Delete,
    /// Patch the claim's status, spec and owners with what the check found.
    UpdateFields,
    AwaitChange,
    RemoveFinalizer,
    /// Check back after the fallback interval.
    Requeue { after_ns: u64 },
}

pub open spec fn model_claim_step(e: ModelClaimEvent) -> ModelClaimAction {
    match e {
        ModelClaimEvent::Observed { deleting, state, has_finalizer } => {
            if deleting && state != Some(ModelClaimState::Deleting) {
                ModelClaimAction::MarkDeleting
            } else if !has_finalizer {
                ModelClaimAction::AddFinalizer
            } else {
                match state {
                    None | Some(ModelClaimState::Pending) => ModelClaimAction::Validate,
                    Some(ModelClaimState::Ready) => ModelClaimAction::CheckUpdate,
                    Some(ModelClaimState::Replacing) => ModelClaimAction::CheckReplacement,
                    Some(ModelClaimState::Deleting) => ModelClaimAction::Delete,
                }
            }
        },
        ModelClaimEvent::Validated { ok } => if ok {
            ModelClaimAction::UpdateFields
        } else {
            ModelClaimAction::Requeue { after_ns: FALLBACK_NS }
        },
        ModelClaimEvent::Checked { result } => match result {
            ClaimCheck::Changed => ModelClaimAction::UpdateFields,
            ClaimCheck::Unchanged => ModelClaimAction::AwaitChange,
            ClaimCheck::Failed => ModelClaimAction::Requeue { after_ns: FALLBACK_NS },
        },
        ModelClaimEvent::ReplacementChecked { result } => match result {
            ClaimCheck::Changed => ModelClaimAction::UpdateFields,
            _ => ModelClaimAction::Requeue { after_ns: FALLBACK_NS },
        },
        ModelClaimEvent::Deleted { ok } => if ok {
            ModelClaimAction::RemoveFinalizer
        } else {
            ModelClaimAction::Requeue { after_ns: FALLBACK_NS }
        },
        ModelClaimEvent::FieldsUpdated { ok: _ } => ModelClaimAction::Requeue { after_ns: FALLBACK_NS },
    }
}

/// Decides the next action of the model-claim operator.
pub fn reconcile_model_claim(e: ModelClaimEvent) -> (r: ModelClaimAction)
    ensures
        r == model_claim_step(e),
{
    match e {
        ModelClaimEvent::Observed { deleting, state, has_finalizer } => {
            let in_deleting = match state {
                Some(ModelClaimState::Deleting) => true,
                _ => false,
            };
            if deleting && !in_deleting {
                ModelClaimAction::MarkDeleting
            } else if !has_finalizer {
                ModelClaimAction::AddFinalizer
            } else {
                match state {
                    None | Some(ModelClaimState::Pending) => ModelClaimAction::Validate,
                    Some(ModelClaimState::Ready) => ModelClaimAction::CheckUpdate,
                    Some(ModelClaimState::Replacing) => ModelClaimAction::CheckReplacement,
                    Some(ModelClaimState::Deleting) => ModelClaimAction::Delete,
                }
            }
        },
        ModelClaimEvent::Validated { ok } => if ok {
            ModelClaimAction::UpdateFields
        } else {
            ModelClaimAction::Requeue { after_ns: FALLBACK_NS }
        },
        ModelClaimEvent::Checked { result } => match result {
            ClaimCheck::Changed => ModelClaimAction::UpdateFields,
            ClaimCheck::Unchanged => ModelClaimAction::AwaitChange,
            ClaimCheck::Failed => ModelClaimAction::Requeue { after_ns: FALLBACK_NS },
        },
        ModelClaimEvent::ReplacementChecked { result } => match result {
            ClaimCheck::Changed => ModelClaimAction::UpdateFields,
            _ => ModelClaimAction::Requeue { after_ns: FALLBACK_NS },
        },
        ModelClaimEvent::Deleted { ok } => if ok {
            ModelClaimAction::RemoveFinalizer
        } else {
            ModelClaimAction::Requeue { after_ns: FALLBACK_NS }
        },
        ModelClaimEvent::FieldsUpdated { ok: _ } => ModelClaimAction::Requeue { after_ns: FALLBACK_NS },
    }
}

/// A claim marked for deletion is moved to `Deleting` before anything else,
/// and is never validated or updated.
pub proof fn law_model_claim_deletion_first(state: Option<ModelClaimState>, has_finalizer: bool)
    ensures
        ({
            let a = model_claim_step(ModelClaimEvent::Observed { deleting: true, state, has_finalizer });
            &&& a != ModelClaimAction::Validate
            &&& a != ModelClaimAction::CheckUpdate
            &&& a != ModelClaimAction::CheckReplacement
            &&& state != Some(ModelClaimState::Deleting) ==> a == ModelClaimAction::MarkDeleting
        }),
{
}

/// What a claim's deletion does to its model.
#[derive(Copy, Clone, Debug, PartialEq, Eq, Structural)]
pub enum ModelClaimDeletionPolicy {
    Delete,
    Retain,
}

/// Whether deleting a claim deletes its model: only where its status holds
/// a spec whose policy is `Delete`.
pub fn deletes_model(policy: Option<ModelClaimDeletionPolicy>) -> (r: bool)
    ensures
        r == (policy == Some(ModelClaimDeletionPolicy::Delete)),
{
    match policy {
        Some(ModelClaimDeletionPolicy::Delete) => true,
        Some(ModelClaimDeletionPolicy::Retain) => false,
        None => false,
    }
}

/// The state of a validated claim: ready once its model is bound to some
/// storage, pending otherwise.
pub fn validated_claim_state(num_bindings: usize) -> (r: ModelClaimState)
    ensures
        r == if num_bindings > 0 {
            ModelClaimState::Ready
        } else {
            ModelClaimState::Pending
        },
{
    if num_bindings > 0 {
        ModelClaimState::Ready
    } else {
        ModelClaimState::Pending
    }
}

} // verus!
