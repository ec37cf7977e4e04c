use netai_cloud::controller::boxes::{
    after_box_spawn, plan_box, plan_box_join, AnsibleResourceType, BoxAction, BoxJoinInput,
    BoxObservation, BoxState,
};
use netai_cloud::controller::function::{reconcile_function, FunctionAction, FunctionEvent, FunctionState};
use netai_cloud::controller::model_claim::{
    deletes_model, reconcile_model_claim, validated_claim_state, ClaimCheck, ModelClaimAction,
    ModelClaimDeletionPolicy, ModelClaimEvent, ModelClaimState,
};
use netai_cloud::controller::node_session::{finish_node_round, plan_node_unbinding, NodeRoundEnd, NodeUnbindPlan};

const SEC: i128 = 1_000_000_000;

fn observed_fn(deleting: bool, state: Option<FunctionState>, has_finalizer: bool) -> FunctionAction {
    reconcile_function(FunctionEvent::Observed { deleting, state, has_finalizer })
}

#[test]
fn function_lifecycle() {
    assert_eq!(observed_fn(false, None, false), FunctionAction::AddFinalizer);
    assert_eq!(observed_fn(false, None, true), FunctionAction::Validate);
    assert_eq!(observed_fn(false, Some(FunctionState::Pending), true), FunctionAction::Validate);
    assert_eq!(observed_fn(false, Some(FunctionState::Ready), true), FunctionAction::AwaitChange);
    assert_eq!(observed_fn(false, Some(FunctionState::Deleting), true), FunctionAction::Delete);
    assert_eq!(reconcile_function(FunctionEvent::Validated { ok: true }), FunctionAction::MarkReady);
    assert_eq!(reconcile_function(FunctionEvent::Deleted { ok: true }), FunctionAction::RemoveFinalizer);
}

#[test]
fn function_deletion_comes_first() {
    assert_eq!(observed_fn(true, Some(FunctionState::Ready), true), FunctionAction::MarkDeleting);
    assert_eq!(observed_fn(true, None, false), FunctionAction::MarkDeleting);
    assert_eq!(observed_fn(true, Some(FunctionState::Deleting), true), FunctionAction::Delete);
    assert_eq!(observed_fn(true, Some(FunctionState::Deleting), false), FunctionAction::AddFinalizer);
}

#[test]
fn function_failures_requeue() {
    assert_eq!(reconcile_function(FunctionEvent::Validated { ok: false }), FunctionAction::Requeue { after_ns: 30_000_000_000 });
    assert_eq!(reconcile_function(FunctionEvent::Deleted { ok: false }), FunctionAction::Requeue { after_ns: 30_000_000_000 });
    assert_eq!(reconcile_function(FunctionEvent::Updated { ok: true }), FunctionAction::Requeue { after_ns: 30_000_000_000 });
    assert_eq!(reconcile_function(FunctionEvent::Updated { ok: false }), FunctionAction::Requeue { after_ns: 30_000_000_000 });
}

fn observed_claim(deleting: bool, state: Option<ModelClaimState>, has_finalizer: bool) -> ModelClaimAction {
    reconcile_model_claim(ModelClaimEvent::Observed { deleting, state, has_finalizer })
}

#[test]
fn model_claim_lifecycle() {
    assert_eq!(observed_claim(false, None, false), ModelClaimAction::AddFinalizer);
    assert_eq!(observed_claim(false, None, true), ModelClaimAction::Validate);
    assert_eq!(observed_claim(false, Some(ModelClaimState::Ready), true), ModelClaimAction::CheckUpdate);
    assert_eq!(observed_claim(false, Some(ModelClaimState::Replacing), true), ModelClaimAction::CheckReplacement);
    assert_eq!(observed_claim(false, Some(ModelClaimState::Deleting), true), ModelClaimAction::Delete);
    assert_eq!(observed_claim(true, Some(ModelClaimState::Ready), true), ModelClaimAction::MarkDeleting);
    assert_eq!(reconcile_model_claim(ModelClaimEvent::Validated { ok: true }), ModelClaimAction::UpdateFields);
    assert_eq!(reconcile_model_claim(ModelClaimEvent::Validated { ok: false }), ModelClaimAction::Requeue { after_ns: 30_000_000_000 });
}

#[test]
fn model_claim_checks() {
    let checked = |result| reconcile_model_claim(ModelClaimEvent::Checked { result });
    assert_eq!(checked(ClaimCheck::Changed), ModelClaimAction::UpdateFields);
    assert_eq!(checked(ClaimCheck::Unchanged), ModelClaimAction::AwaitChange);
    assert_eq!(checked(ClaimCheck::Failed), ModelClaimAction::Requeue { after_ns: 30_000_000_000 });
    let replaced = |result| reconcile_model_claim(ModelClaimEvent::ReplacementChecked { result });
    assert_eq!(replaced(ClaimCheck::Changed), ModelClaimAction::UpdateFields);
    assert_eq!(replaced(ClaimCheck::Unchanged), ModelClaimAction::Requeue { after_ns: 30_000_000_000 });
    assert_eq!(replaced(ClaimCheck::Failed), ModelClaimAction::Requeue { after_ns: 30_000_000_000 });
    assert_eq!(reconcile_model_claim(ModelClaimEvent::Deleted { ok: true }), ModelClaimAction::RemoveFinalizer);
    assert_eq!(reconcile_model_claim(ModelClaimEvent::Deleted { ok: false }), ModelClaimAction::Requeue { after_ns: 30_000_000_000 });
    assert_eq!(reconcile_model_claim(ModelClaimEvent::FieldsUpdated { ok: true }), ModelClaimAction::Requeue { after_ns: 30_000_000_000 });
}

#[test]
fn model_claim_policy_and_state() {
    assert!(deletes_model(Some(ModelClaimDeletionPolicy::Delete)));
    assert!(!deletes_model(Some(ModelClaimDeletionPolicy::Retain)));
    assert!(!deletes_model(None));
    assert_eq!(validated_claim_state(0), ModelClaimState::Pending);
    assert_eq!(validated_claim_state(2), ModelClaimState::Ready);
}

#[test]
fn node_unbinding() {
    assert_eq!(plan_node_unbinding(None, Some("true")), NodeUnbindPlan::SkipUnbound);
    assert_eq!(plan_node_unbinding(Some("alice"), Some("true")), NodeUnbindPlan::SkipPersistent);
    assert_eq!(
        plan_node_unbinding(Some("alice"), Some("false")),
        NodeUnbindPlan::Unbind { user_name: "alice".to_string() }
    );
    assert_eq!(
        plan_node_unbinding(Some("alice"), None),
        NodeUnbindPlan::Unbind { user_name: "alice".to_string() }
    );
    assert_eq!(
        plan_node_unbinding(Some("alice"), Some("True")),
        NodeUnbindPlan::Unbind { user_name: "alice".to_string() }
    );
}

fn observation(old_state: BoxState, next_state: BoxState) -> BoxObservation {
    BoxObservation {
        old_state,
        next_state,
        has_primary_access: true,
        now_ns: 100 * SEC,
        last_updated_ns: Some(90 * SEC),
        timeout_new_ns: 30 * SEC,
        state_timeout_ns: None,
        is_bind_group_updated: false,
    }
}

#[test]
fn new_box_waits_for_access() {
    let mut o = observation(BoxState::New, BoxState::Commissioning);
    o.has_primary_access = false;
    assert_eq!(plan_box(o), BoxAction::RequeueAfter { after_ns: 30 * SEC });
    o.last_updated_ns = None;
    assert_eq!(plan_box(o), BoxAction::RequeueAfter { after_ns: 30 * SEC });
    o.last_updated_ns = Some(10 * SEC);
    assert_eq!(plan_box(o), BoxAction::LoadAnsible { new_state: BoxState::Disconnected });
}

#[test]
fn box_moves_on_or_fails() {
    let o = observation(BoxState::New, BoxState::Commissioning);
    assert_eq!(plan_box(o), BoxAction::LoadAnsible { new_state: BoxState::Commissioning });
    let mut o = observation(BoxState::Commissioning, BoxState::Ready);
    o.state_timeout_ns = Some(5 * SEC);
    assert_eq!(plan_box(o), BoxAction::LoadAnsible { new_state: BoxState::Failed });
    o.state_timeout_ns = Some(20 * SEC);
    assert_eq!(plan_box(o), BoxAction::LoadAnsible { new_state: BoxState::Ready });
}

#[test]
fn running_box_with_changed_group_disconnects() {
    let mut o = observation(BoxState::Running, BoxState::Running);
    o.is_bind_group_updated = true;
    assert_eq!(plan_box(o), BoxAction::LoadAnsible { new_state: BoxState::Disconnected });
}

fn join(old_state: BoxState, new_state: BoxState) -> BoxJoinInput {
    BoxJoinInput {
        old_state,
        new_state,
        is_external_worker: false,
        is_generic_worker: false,
        is_default_group: false,
        enable_default_cluster: true,
        is_bind_group_updated: true,
        new_state_has_cron: false,
        new_state_has_task: true,
    }
}

#[test]
fn joining_guards() {
    let mut i = join(BoxState::Ready, BoxState::Joining);
    assert_eq!(
        plan_box_join(i),
        BoxAction::Spawn { new_state: BoxState::Joining, bind_new_group: true, resource_type: AnsibleResourceType::Normal }
    );
    i.is_external_worker = true;
    assert_eq!(plan_box_join(i), BoxAction::Requeue);
    i.is_external_worker = false;
    i.is_default_group = true;
    i.is_generic_worker = true;
    i.enable_default_cluster = false;
    assert_eq!(plan_box_join(i), BoxAction::Requeue);
    i.enable_default_cluster = true;
    i.is_bind_group_updated = false;
    assert_eq!(plan_box_join(i), BoxAction::MarkJoined);
}

#[test]
fn jobs_follow_state_changes() {
    let i = join(BoxState::Running, BoxState::Disconnected);
    assert_eq!(
        plan_box_join(i),
        BoxAction::Spawn { new_state: BoxState::Disconnected, bind_new_group: false, resource_type: AnsibleResourceType::Minimal }
    );
    let mut i = join(BoxState::Running, BoxState::Running);
    assert_eq!(plan_box_join(i), BoxAction::Requeue);
    i.new_state_has_cron = true;
    i.new_state_has_task = false;
    assert_eq!(plan_box_join(i), BoxAction::AwaitChange);
    let mut i = join(BoxState::Commissioning, BoxState::Ready);
    i.new_state_has_task = false;
    assert_eq!(plan_box_join(i), BoxAction::PatchState { new_state: BoxState::Ready, bind_spec_group: false });
}

#[test]
fn after_spawn() {
    assert_eq!(after_box_spawn(BoxState::Ready, BoxState::Joining, false), BoxAction::RetrySpawn);
    assert_eq!(
        after_box_spawn(BoxState::Ready, BoxState::Joining, true),
        BoxAction::PatchState { new_state: BoxState::Joining, bind_spec_group: true }
    );
    assert_eq!(after_box_spawn(BoxState::Running, BoxState::Running, true), BoxAction::AwaitChange);
}

#[test]
fn node_rounds_always_requeue() {
    for released in [None, Some(true), Some(false)] {
        assert_eq!(finish_node_round(released), Ok(NodeRoundEnd::RequeueAfterFallback));
    }
}
