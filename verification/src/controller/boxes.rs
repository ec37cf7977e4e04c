//! The decisions of the box operator: a box's next state from its timeouts
//! and group, whether it joins a cluster, and which provisioning job to run.
use vstd::prelude::*;

verus! {

/// The lifecycle state of a box.
#[derive(Copy, Clone, Debug, PartialEq, Eq, Structural)]
pub enum BoxState {
    New,
    Commissioning,
    Ready,
    Joining,
    Running,
    GroupChanged,
    Failed,
    Disconnected,
}

/// The weight of a provisioning job.
#[derive(Copy, Clone, Debug, PartialEq, Eq, Structural)]
pub enum AnsibleResourceType {
    Normal,
    Minimal,
}

/// What the operator saw of a box, with times in nanoseconds.
#[derive(Copy, Clone, Debug)]
pub struct BoxObservation {
    /// The state in the box's status (`New` without a status).
    pub old_state: BoxState,
    /// The state that follows it in the normal course.
    pub next_state: BoxState,
    /// Whether the box has a primary access method.
    pub has_primary_access: bool,
    pub now_ns: i128,
    /// When the status was last updated, if known.
    pub last_updated_ns: Option<i128>,
    /// How long a new box may wait for an access method.
    pub timeout_new_ns: i128,
    /// How long the old state may last, if bounded.
    pub state_timeout_ns: Option<i128>,
    /// Whether the group the box is bound to differs from its spec's group.
    pub is_bind_group_updated: bool,
}

/// What the box operator does next.
#[derive(Copy, Clone, Debug, PartialEq, Eq, Structural)]
pub enum BoxAction {
    /// Check back after the given nanoseconds.
    RequeueAfter { after_ns: i128 },
    /// Load the provisioning client, then go on with this new state.
    LoadAnsible { new_state: BoxState },
    /// Check back after the fallback interval.
    Requeue,
    /// Mark the box running with its bound group kept: it already joined.
    MarkJoined,
    /// Spawn the provisioning job of the new state.
    Spawn { new_state: BoxState, bind_new_group: bool, resource_type: AnsibleResourceType },
    /// Nothing to do until the box changes.
    AwaitChange,
    /// Patch the box's status to the new state, binding the spec's group
    /// (when joining) or keeping the bound one.
    PatchState { new_state: BoxState, bind_spec_group: bool },
    /// A job could not be spawned: check back in a minute.
    RetrySpawn,
}

/// Whether `now` is past `since + timeout`.
pub open spec fn elapsed(now: i128, since: i128, timeout: i128) -> bool {
    now > since + timeout
}

/// Timestamps and timeouts that can be added without overflow.
pub open spec fn times_fit(o: BoxObservation) -> bool {
    match o.last_updated_ns {
        Some(l) => {
            &&& i128::MIN <= l + o.timeout_new_ns <= i128::MAX
            &&& match o.state_timeout_ns {
                Some(t) => i128::MIN <= l + t <= i128::MAX,
                None => true,
            }
        },
        None => true,
    }
}

/// The first decision on a box: a new box without an access method waits
/// for one until its timeout, then counts as disconnected; a state that
/// lasted past its timeout fails; a running box whose group changed is
/// disconnected; otherwise the box moves on to its next state.
pub open spec fn box_plan(o: BoxObservation) -> BoxAction {
    let waiting_new = o.old_state == BoxState::New && !o.has_primary_access;
    let new_timed_out = match o.last_updated_ns {
        Some(l) => elapsed(o.now_ns, l, o.timeout_new_ns),
        None => false,
    };
    if waiting_new && !new_timed_out {
        BoxAction::RequeueAfter { after_ns: o.timeout_new_ns }
    } else {
        let s1 = if waiting_new {
            BoxState::Disconnected
        } else {
            o.next_state
        };
        let s2 = match (o.state_timeout_ns, o.last_updated_ns) {
            (Some(t), Some(l)) => if elapsed(o.now_ns, l, t) {
                BoxState::Failed
            } else {
                s1
            },
            _ => s1,
        };
        let s3 = if o.old_state == BoxState::Running && o.is_bind_group_updated {
            BoxState::Disconnected
        } else {
            s2
        };
        BoxAction::LoadAnsible { new_state: s3 }
    }
}

/// Decides a box's new state, or how long a new box still waits.
pub fn plan_box(o: BoxObservation) -> (r: BoxAction)
    requires
        times_fit(o),
        o.timeout_new_ns >= 0,
    ensures
        r == box_plan(o),
{
    let waiting_new = match o.old_state {
        BoxState::New => !o.has_primary_access,
        _ => false,
    };
    let mut new_state = o.next_state;
    if waiting_new {
        match o.last_updated_ns {
            Some(l) => {
                if o.now_ns > l + o.timeout_new_ns {
                    new_state = BoxState::Disconnected;
                } else {
                    return BoxAction::RequeueAfter { after_ns: o.timeout_new_ns };
                }
            },
            None => {
                return BoxAction::RequeueAfter { after_ns: o.timeout_new_ns };
            },
        }
    }
    match o.state_timeout_ns {
        Some(t) => match o.last_updated_ns {
            Some(l) => {
                if o.now_ns > l + t {
                    new_state = BoxState::Failed;
                }
            },
            None => {},
        },
        None => {},
    }
    let is_running = match o.old_state {
        BoxState::Running => true,
        _ => false,
    };
    if is_running && o.is_bind_group_updated {
        new_state = BoxState::Disconnected;
    }
    BoxAction::LoadAnsible { new_state }
}

/// What decides whether and how a box joins, once its new state is known.
#[derive(Copy, Clone, Debug)]
pub struct BoxJoinInput {
    pub old_state: BoxState,
    pub new_state: BoxState,
    /// The box is an external worker.
    pub is_external_worker: bool,
    /// The box is a generic worker.
    pub is_generic_worker: bool,
    /// The box's group is the default cluster.
    pub is_default_group: bool,
    /// Boxes may join the default cluster as workers.
    pub enable_default_cluster: bool,
    pub is_bind_group_updated: bool,
    /// The new state's job runs on a schedule.
    pub new_state_has_cron: bool,
    /// The new state has a provisioning job.
    pub new_state_has_task: bool,
}

/// The job weight by the state a box leaves.
pub open spec fn resource_type_of(old_state: BoxState) -> AnsibleResourceType {
    match old_state {
        BoxState::New | BoxState::Commissioning | BoxState::Ready | BoxState::Joining => AnsibleResourceType::Normal,
        _ => AnsibleResourceType::Minimal,
    }
}

/// After the job (or with none): wait for a change when the state stays,
/// else record the new state.
pub open spec fn settle(old_state: BoxState, new_state: BoxState) -> BoxAction {
    if old_state == new_state {
        BoxAction::AwaitChange
    } else {
        BoxAction::PatchState { new_state, bind_spec_group: new_state == BoxState::Joining }
    }
}

/// The second decision on a box: a box about to join is skipped when it is
/// an external worker, or a generic worker of the default cluster while that
/// is disabled, and marked running when it already joined its group; then a
/// changed (or scheduled) state spawns its job, if it has one.
pub open spec fn box_join_plan(i: BoxJoinInput) -> BoxAction {
    let starts_joining = i.old_state != BoxState::Joining && i.new_state == BoxState::Joining;
    if starts_joining && i.is_external_worker {
        BoxAction::Requeue
    } else if starts_joining && !i.enable_default_cluster && i.is_default_group && i.is_generic_worker {
        BoxAction::Requeue
    } else if starts_joining && !i.is_bind_group_updated {
        BoxAction::MarkJoined
    } else if i.old_state != i.new_state || i.new_state_has_cron {
        if i.new_state_has_task {
            BoxAction::Spawn {
                new_state: i.new_state,
                bind_new_group: starts_joining,
                resource_type: resource_type_of(i.old_state),
            }
        } else {
            settle(i.old_state, i.new_state)
        }
    } else {
        BoxAction::Requeue
    }
}

fn same_state(a: BoxState, b: BoxState) -> (r: bool)
    ensures
        r == (a == b),
{
    match (a, b) {
        (BoxState::New, BoxState::New) => true,
        (BoxState::Commissioning, BoxState::Commissioning) => true,
        (BoxState::Ready, BoxState::Ready) => true,
        (BoxState::Joining, BoxState::Joining) => true,
        (BoxState::Running, BoxState::Running) => true,
        (BoxState::GroupChanged, BoxState::GroupChanged) => true,
        (BoxState::Failed, BoxState::Failed) => true,
        (BoxState::Disconnected, BoxState::Disconnected) => true,
        _ => false,
    }
}

fn settle_box(old_state: BoxState, new_state: BoxState) -> (r: BoxAction)
    ensures
        r == settle(old_state, new_state),
{
    if same_state(old_state, new_state) {
        BoxAction::AwaitChange
    } else {
        BoxAction::PatchState { new_state, bind_spec_group: same_state(new_state, BoxState::Joining) }
    }
}

/// Decides whether a box joins and which job it runs.
pub fn plan_box_join(i: BoxJoinInput) -> (r: BoxAction)
    ensures
        r == box_join_plan(i),
{
    let starts_joining = !same_state(i.old_state, BoxState::Joining) && same_state(i.new_state, BoxState::Joining);
    if starts_joining {
        if i.is_external_worker {
            return BoxAction::Requeue;
        }
        if !i.enable_default_cluster && i.is_default_group && i.is_generic_worker {
            return BoxAction::Requeue;
        }
        if !i.is_bind_group_updated {
            return BoxAction::MarkJoined;
        }
    }
    if !same_state(i.old_state, i.new_state) || i.new_state_has_cron {
        if i.new_state_has_task {
            let resource_type = match i.old_state {
                BoxState::New | BoxState::Commissioning | BoxState::Ready | BoxState::Joining => AnsibleResourceType::Normal,
                _ => AnsibleResourceType::Minimal,
            };
            BoxAction::Spawn { new_state: i.new_state, bind_new_group: starts_joining, resource_type }
        } else {
            settle_box(i.old_state, i.new_state)
        }
    } else {
        BoxAction::Requeue
    }
}

/// Decides what follows a job's spawning: retry in a minute when it could
/// not be spawned, else settle the new state.
pub fn after_box_spawn(old_state: BoxState, new_state: BoxState, spawned: bool) -> (r: BoxAction)
    ensures
        r == if spawned {
            settle(old_state, new_state)
        } else {
            BoxAction::RetrySpawn
        },
{
    if !spawned {
        return BoxAction::RetrySpawn;
    }
    settle_box(old_state, new_state)
}

/// A running box whose group changed is always disconnected.
pub proof fn law_group_change_disconnects(o: BoxObservation)
    requires
        o.old_state == BoxState::Running,
        o.is_bind_group_updated,
    ensures
        box_plan(o) == (BoxAction::LoadAnsible { new_state: BoxState::Disconnected }),
{
}

/// A new box without an access method never moves on before its timeout:
/// it waits, or, once the timeout passed, is disconnected or failed.
pub proof fn law_new_box_waits(o: BoxObservation)
    requires
        o.old_state == BoxState::New,
        !o.has_primary_access,
    ensures
        box_plan(o) is RequeueAfter || box_plan(o) == (BoxAction::LoadAnsible { new_state: BoxState::Disconnected })
            || box_plan(o) == (BoxAction::LoadAnsible { new_state: BoxState::Failed }),
{
}

/// External workers never join a cluster, and a box that already joined its
/// group is only marked running, with no job spawned.
pub proof fn law_join_guards(i: BoxJoinInput)
    requires
        i.old_state != BoxState::Joining,
        i.new_state == BoxState::Joining,
    ensures
        i.is_external_worker ==> box_join_plan(i) == BoxAction::Requeue,
        !i.is_external_worker && !(!i.enable_default_cluster && i.is_default_group && i.is_generic_worker) && !i.is_bind_group_updated
            ==> box_join_plan(i) == BoxAction::MarkJoined,
        box_join_plan(i) is Spawn ==> !i.is_external_worker && i.is_bind_group_updated,
{
}

} // verus!
