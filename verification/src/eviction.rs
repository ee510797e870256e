//! Eviction under resource pressure: which running container to stop,
//! and the loop that stops one container per sample until the host is
//! under its limits again or nothing is left that may be stopped.
//!
//! The loop is a state machine. Whoever drives it samples, lists, stops
//! and notifies, and hands each result to `step`, which answers with
//! the next thing to do.

use vstd::prelude::*;
use crate::instance::{https_port, published_https_port, Instance, ResolutionError};
use crate::notify::{message_text, message_tpl};
use crate::records::{Config, ContainerRecord, ExternalCallError, ResourceSnapshot};
use crate::status::{duration_spec, status_into_duration};
use crate::wechat::{with_users, ListDetailUsersResponse, UserDirectory};
use crate::whitelist::{Whitelist, WhitelistView};

verus! {

/// Whether usage is over a limit. Only processor and memory count; the
/// disk share is sampled and reported but gates nothing.
pub open spec fn over_limit(usage: ResourceSnapshot, cpu_limit: u32, mem_limit: u32) -> bool {
    usage.cpu > cpu_limit || usage.mem > mem_limit
}

/// Whether usage is over a limit of `cfg`.
pub fn is_over_limit(usage: &ResourceSnapshot, cfg: &Config) -> (r: bool)
    ensures
        r == over_limit(*usage, cfg.cpu_limit, cfg.mem_limit),
{
    usage.cpu > cfg.cpu_limit || usage.mem > cfg.mem_limit
}

/// The seconds that a status line stands for, and 0 where it stands
/// for none.
pub open spec fn elapsed_or_zero(status: Seq<char>) -> nat {
    match duration_spec(status) {
        Ok(secs) => secs as nat,
        Err(_) => 0,
    }
}

/// Whether a container may be stopped: it is not on the whitelist.
pub open spec fn is_candidate(w: WhitelistView, c: ContainerRecord) -> bool {
    !w.protects_container(c.id@, c.names@)
}

/// Whether the container at `i` is the one to stop: it is a candidate,
/// no candidate has run longer, and every candidate listed before it
/// has run for a shorter time.
pub open spec fn is_victim(w: WhitelistView, listing: Seq<ContainerRecord>, i: int) -> bool {
    &&& 0 <= i < listing.len()
    &&& is_candidate(w, listing[i])
    &&& forall|j: int|
        0 <= j < listing.len() && is_candidate(w, #[trigger] listing[j]) ==> {
            &&& elapsed_or_zero(listing[j].status@) <= elapsed_or_zero(listing[i].status@)
            &&& j < i ==> elapsed_or_zero(listing[j].status@) < elapsed_or_zero(
                listing[i].status@,
            )
        }
}

/// Whether no container of the listing may be stopped.
pub open spec fn no_candidate(w: WhitelistView, listing: Seq<ContainerRecord>) -> bool {
    forall|j: int| 0 <= j < listing.len() ==> !is_candidate(w, #[trigger] listing[j])
}

/// The seconds that a container has been in its state; a status line
/// that cannot be read counts as no time at all.
pub fn elapsed_seconds(c: &ContainerRecord) -> (secs: u64)
    ensures
        secs == elapsed_or_zero(c.status@),
{
    match status_into_duration(c.status.as_str()) {
        Ok(secs) => secs,
        Err(_) => 0,
    }
}

/// Picks the container to stop: among those not on the whitelist the
/// one that has run longest, and of several that have run equally long
/// the one listed first. `None` where every container is protected.
pub fn select_victim(w: &Whitelist, listing: &Vec<ContainerRecord>) -> (r: Option<usize>)
    ensures
        match r {
            Some(i) => is_victim(w@, listing@, i as int),
            None => no_candidate(w@, listing@),
        },
{
    let mut best: Option<usize> = None;
    let mut best_secs: u64 = 0;
    let mut k: usize = 0;
    while k < listing.len()
        invariant
            k <= listing.len(),
            match best {
                Some(i) => i < k && best_secs == elapsed_or_zero(listing@[i as int].status@)
                    && is_victim(w@, listing@.subrange(0, k as int), i as int),
                None => no_candidate(w@, listing@.subrange(0, k as int)),
            },
        decreases listing.len() - k,
    {
        let c = &listing[k];
        let ghost before = listing@.subrange(0, k as int);
        let ghost after = listing@.subrange(0, k + 1);
        assert(forall|j: int| 0 <= j < k ==> before[j] == after[j]);
        assert(after[k as int] == listing@[k as int]);
        if !w.is_container_whitelisted(c.id.as_str(), &c.names) {
            let secs = elapsed_seconds(c);
            match best {
                Some(i) => {
                    if secs > best_secs {
                        best = Some(k);
                        best_secs = secs;
                        assert(is_victim(w@, after, k as int)) by {
                            assert forall|j: int|
                                0 <= j < after.len() && is_candidate(
                                    w@,
                                    #[trigger] after[j],
                                ) implies elapsed_or_zero(after[j].status@) <= secs && (j < k
                                ==> elapsed_or_zero(after[j].status@) < secs) by {
                                if j < k {
                                    assert(is_candidate(w@, before[j]));
                                }
                            }
                        }
                    } else {
                        assert(is_victim(w@, after, i as int)) by {
                            assert forall|j: int|
                                0 <= j < after.len() && is_candidate(
                                    w@,
                                    #[trigger] after[j],
                                ) implies elapsed_or_zero(after[j].status@) <= best_secs && (j < i
                                ==> elapsed_or_zero(after[j].status@) < best_secs) by {
                                if j < k {
                                    assert(is_candidate(w@, before[j]));
                                }
                            }
                        }
                    }
                },
                None => {
                    best = Some(k);
                    best_secs = secs;
                    assert(is_victim(w@, after, k as int)) by {
                        assert forall|j: int|
                            0 <= j < after.len() && is_candidate(
                                w@,
                                #[trigger] after[j],
                            ) implies j == k by {
                            if j < k {
                                assert(!is_candidate(w@, before[j]));
                            }
                        }
                    }
                },
            }
        } else {
            match best {
                Some(i) => {
                    assert(is_victim(w@, after, i as int)) by {
                        assert forall|j: int|
                            0 <= j < after.len() && is_candidate(
                                w@,
                                #[trigger] after[j],
                            ) implies elapsed_or_zero(after[j].status@) <= best_secs && (j < i
                            ==> elapsed_or_zero(after[j].status@) < best_secs) by {
                            if j < k {
                                assert(is_candidate(w@, before[j]));
                            }
                        }
                    }
                },
                None => {
                    assert forall|j: int| 0 <= j < after.len() implies !is_candidate(
                        w@,
                        #[trigger] after[j],
                    ) by {
                        if j < k {
                            assert(!is_candidate(w@, before[j]));
                        }
                    }
                },
            }
        }
        k += 1;
    }
    assert(listing@.subrange(0, k as int) =~= listing@);
    best
}

/// How a run of the eviction loop ended.
#[derive(Clone, Debug, PartialEq, Eq)]
pub enum EvictionOutcome {
    /// Usage is under both limits.
    Healthy,
    /// Usage is over a limit and no container may be stopped. The
    /// pressure is not resolved.
    NoVictim,
    /// Usage could not be sampled.
    SampleFailed,
    /// The running containers could not be listed.
    ListFailed,
    /// The runtime failed on its side while stopping a container; this
    /// is its message.
    StopFailed(String),
    /// An event came that the loop was not waiting for.
    OutOfTurn,
}

/// Where the eviction loop stands between two events.
#[derive(Debug, PartialEq, Eq)]
pub enum EvictionState {
    /// Waiting for the sample that decides whether to go on.
    Sampling,
    /// Over a limit; waiting for the running containers.
    Listing,
    /// Waiting for the runtime to stop the victim.
    Stopping { victim: ContainerRecord },
    /// Waiting for the victim's deployment to be looked up.
    Resolving { victim: ContainerRecord },
    /// The owner is not in the directory; waiting for its users.
    Refreshing { victim: ContainerRecord, instance: Instance },
    /// Waiting for a sample of the usage to report.
    Reporting { victim: ContainerRecord, instance: Instance, mention: Option<String> },
    /// Waiting for the message to be delivered.
    Notifying,
    /// The loop has ended.
    Finished { outcome: EvictionOutcome },
}

/// What the outside world reports back to the eviction loop.
#[derive(Debug, PartialEq, Eq)]
pub enum EvictionEvent {
    Sampled { usage: ResourceSnapshot },
    SampleFailed,
    Listed { containers: Vec<ContainerRecord> },
    ListFailed,
    Stopped,
    StopFailed { error: ExternalCallError },
    OwnerResolved { instance: Instance },
    OwnerUnresolved { reason: ResolutionError },
    DirectoryRefreshed { users: ListDetailUsersResponse },
    DirectoryUnavailable,
    Notified,
    NotifyFailed,
}

/// What the eviction loop asks the outside world to do next.
#[derive(Debug, PartialEq, Eq)]
pub enum EvictionAction {
    /// Sample the usage of the host.
    Sample,
    /// List the running containers.
    ListRunning,
    /// Stop the container with this id.
    Stop { id: String },
    /// Look up the deployment published on this host port.
    ResolveOwner { https_port: i64 },
    /// Fetch the users of this department.
    RefreshDirectory { department_id: u32 },
    /// Deliver this message, mentioning this user where there is one.
    Notify { message: String, mention: Option<String> },
    /// Nothing more: the loop has ended, as its state tells.
    Finish,
}

/// The user to mention for an instance: the one filed under its owner.
pub open spec fn mention_for(dir: Map<Seq<char>, String>, instance: Instance) -> Option<String> {
    if dir.contains_key(instance.owner@) {
        Some(dir[instance.owner@])
    } else {
        None
    }
}

/// Whether an instance is the empty one that stands for an owner that
/// could not be found.
pub open spec fn is_unknown_instance(instance: Instance) -> bool {
    &&& instance.owner@.len() == 0
    &&& instance.deploy_dir@.len() == 0
    &&& instance.config.base_url@.len() == 0
    &&& instance.config.volume@.len() == 0
}

/// The step that follows once the victim's instance is known: with the
/// owner on file a sample is taken for the report, else the directory
/// is refreshed first.
pub open spec fn after_owner(
    victim: ContainerRecord,
    instance: Instance,
    cfg: Config,
    dir: Map<Seq<char>, String>,
    post: EvictionState,
    action: EvictionAction,
) -> bool {
    if dir.contains_key(instance.owner@) {
        post == (EvictionState::Reporting { victim, instance, mention: Some(dir[instance.owner@]) })
            && action is Sample
    } else {
        post == (EvictionState::Refreshing { victim, instance }) && action
            == (EvictionAction::RefreshDirectory { department_id: cfg.department_id })
    }
}

/// The step from `pre` on `event`: the state `post` that follows, the
/// `action` that is asked for, and the directory `dir_post` afterwards.
pub open spec fn transition(
    pre: EvictionState,
    event: EvictionEvent,
    cfg: Config,
    w: WhitelistView,
    dir: Map<Seq<char>, String>,
    post: EvictionState,
    action: EvictionAction,
    dir_post: Map<Seq<char>, String>,
) -> bool {
    match (pre, event) {
        (EvictionState::Sampling, EvictionEvent::Sampled { usage }) => {
            &&& dir_post == dir
            &&& if over_limit(usage, cfg.cpu_limit, cfg.mem_limit) {
                post is Listing && action is ListRunning
            } else {
                post == (EvictionState::Finished { outcome: EvictionOutcome::Healthy })
                    && action is Finish
            }
        },
        (EvictionState::Sampling, EvictionEvent::SampleFailed) => {
            &&& dir_post == dir
            &&& post == (EvictionState::Finished { outcome: EvictionOutcome::SampleFailed })
            &&& action is Finish
        },
        (EvictionState::Listing, EvictionEvent::Listed { containers }) => {
            &&& dir_post == dir
            &&& if no_candidate(w, containers@) {
                post == (EvictionState::Finished { outcome: EvictionOutcome::NoVictim })
                    && action is Finish
            } else {
                exists|i: int|
                    is_victim(w, containers@, i) && post == (EvictionState::Stopping {
                        victim: #[trigger] containers@[i],
                    }) && action == (EvictionAction::Stop { id: containers@[i].id })
            }
        },
        (EvictionState::Listing, EvictionEvent::ListFailed) => {
            &&& dir_post == dir
            &&& post == (EvictionState::Finished { outcome: EvictionOutcome::ListFailed })
            &&& action is Finish
        },
        (EvictionState::Stopping { victim }, EvictionEvent::Stopped) => {
            &&& dir_post == dir
            &&& after_stop(victim, cfg, dir, post, action)
        },
        (EvictionState::Stopping { victim }, EvictionEvent::StopFailed { error }) => {
            &&& dir_post == dir
            &&& match error {
                ExternalCallError::ServerError(message) => post == (EvictionState::Finished {
                    outcome: EvictionOutcome::StopFailed(message),
                }) && action is Finish,
                ExternalCallError::Other(_) => after_stop(victim, cfg, dir, post, action),
            }
        },
        (EvictionState::Resolving { victim }, EvictionEvent::OwnerResolved { instance }) => {
            &&& dir_post == dir
            &&& after_owner(victim, instance, cfg, dir, post, action)
        },
        (EvictionState::Resolving { victim }, EvictionEvent::OwnerUnresolved { reason }) => {
            &&& dir_post == dir
            &&& exists|instance: Instance|
                is_unknown_instance(instance) && #[trigger] after_owner(
                    victim,
                    instance,
                    cfg,
                    dir,
                    post,
                    action,
                )
        },
        (
            EvictionState::Refreshing { victim, instance },
            EvictionEvent::DirectoryRefreshed { users },
        ) => {
            &&& dir_post == (if users.errcode == 0 {
                with_users(dir, users.userlist@)
            } else {
                dir
            })
            &&& post == (EvictionState::Reporting {
                victim,
                instance,
                mention: mention_for(dir_post, instance),
            })
            &&& action is Sample
        },
        (EvictionState::Refreshing { victim, instance }, EvictionEvent::DirectoryUnavailable) => {
            &&& dir_post == dir
            &&& post == (EvictionState::Reporting { victim, instance, mention: None })
            &&& action is Sample
        },
        (
            EvictionState::Reporting { victim, instance, mention },
            EvictionEvent::Sampled { usage },
        ) => {
            &&& dir_post == dir
            &&& post is Notifying
            &&& action is Notify
            &&& action->message@ == message_text(victim, instance, cfg, usage)
            &&& action->mention == mention
        },
        (EvictionState::Reporting { .. }, EvictionEvent::SampleFailed) => {
            &&& dir_post == dir
            &&& post == (EvictionState::Finished { outcome: EvictionOutcome::SampleFailed })
            &&& action is Finish
        },
        (EvictionState::Notifying, EvictionEvent::Notified) => {
            dir_post == dir && post is Sampling && action is Sample
        },
        (EvictionState::Notifying, EvictionEvent::NotifyFailed) => {
            dir_post == dir && post is Sampling && action is Sample
        },
        (EvictionState::Finished { outcome }, _) => {
            dir_post == dir && post == pre && action is Finish
        },
        _ => {
            &&& dir_post == dir
            &&& post == (EvictionState::Finished { outcome: EvictionOutcome::OutOfTurn })
            &&& action is Finish
        },
    }
}

/// The step that follows once the victim is stopped, or could not be
/// stopped for a reason that is not the server's: its deployment is
/// looked up by its published port, and where no port is published the
/// owner counts as not found.
pub open spec fn after_stop(
    victim: ContainerRecord,
    cfg: Config,
    dir: Map<Seq<char>, String>,
    post: EvictionState,
    action: EvictionAction,
) -> bool {
    match published_https_port(victim.ports@) {
        Ok(port) => post == (EvictionState::Resolving { victim }) && action
            == (EvictionAction::ResolveOwner { https_port: port }),
        Err(_) => exists|instance: Instance|
            is_unknown_instance(instance) && #[trigger] after_owner(
                victim,
                instance,
                cfg,
                dir,
                post,
                action,
            ),
    }
}

fn owner_known(
    victim: ContainerRecord,
    instance: Instance,
    cfg: &Config,
    directory: &UserDirectory,
) -> (r: (EvictionState, EvictionAction))
    ensures
        after_owner(victim, instance, *cfg, directory@, r.0, r.1),
{
    let mention = match directory.get(instance.owner.as_str()) {
        Some(id) => Some(id.clone()),
        None => None,
    };
    match mention {
        Some(id) => (
            EvictionState::Reporting { victim, instance, mention: Some(id) },
            EvictionAction::Sample,
        ),
        None => (
            EvictionState::Refreshing { victim, instance },
            EvictionAction::RefreshDirectory { department_id: cfg.department_id },
        ),
    }
}

fn victim_stopped(victim: ContainerRecord, cfg: &Config, directory: &UserDirectory) -> (r: (
    EvictionState,
    EvictionAction,
))
    ensures
        after_stop(victim, *cfg, directory@, r.0, r.1),
{
    match https_port(&victim.ports) {
        Ok(port) => (
            EvictionState::Resolving { victim },
            EvictionAction::ResolveOwner { https_port: port },
        ),
        Err(_) => {
            let instance = Instance::default();
            let r = owner_known(victim, instance, cfg, directory);
            assert(is_unknown_instance(instance) && after_owner(
                victim,
                instance,
                *cfg,
                directory@,
                r.0,
                r.1,
            ));
            r
        },
    }
}

fn finished(outcome: EvictionOutcome) -> (r: (EvictionState, EvictionAction))
    ensures
        r.0 == (EvictionState::Finished { outcome }),
        r.1 is Finish,
{
    (EvictionState::Finished { outcome }, EvictionAction::Finish)
}

/// One step of the eviction loop: takes what happened and answers with
/// the state that follows and what to do next.
///
/// The loop starts in `Sampling` with the action `Sample`. It stops one
/// container per sample that is over a limit: the one `select_victim`
/// picks. A failure of the server while stopping ends the loop; a
/// failure to find the owner, to refresh the directory or to deliver
/// the message does not.
pub fn step(
    state: EvictionState,
    event: EvictionEvent,
    cfg: &Config,
    w: &Whitelist,
    directory: &mut UserDirectory,
) -> (r: (EvictionState, EvictionAction))
    ensures
        transition(state, event, *cfg, w@, old(directory)@, r.0, r.1, final(directory)@),
{
    match state {
        EvictionState::Sampling => match event {
            EvictionEvent::Sampled { usage } => {
                if is_over_limit(&usage, cfg) {
                    (EvictionState::Listing, EvictionAction::ListRunning)
                } else {
                    finished(EvictionOutcome::Healthy)
                }
            },
            EvictionEvent::SampleFailed => finished(EvictionOutcome::SampleFailed),
            _ => finished(EvictionOutcome::OutOfTurn),
        },
        EvictionState::Listing => match event {
            EvictionEvent::Listed { containers } => {
                match select_victim(w, &containers) {
                    None => finished(EvictionOutcome::NoVictim),
                    Some(i) => {
                        let mut containers = containers;
                        let ghost listing = containers@;
                        let victim = containers.swap_remove(i);
                        let id = victim.id.clone();
                        assert(is_candidate(w@, listing[i as int]));
                        (EvictionState::Stopping { victim }, EvictionAction::Stop { id })
                    },
                }
            },
            EvictionEvent::ListFailed => finished(EvictionOutcome::ListFailed),
            _ => finished(EvictionOutcome::OutOfTurn),
        },
        EvictionState::Stopping { victim } => match event {
            EvictionEvent::Stopped => victim_stopped(victim, cfg, directory),
            EvictionEvent::StopFailed { error } => match error {
                ExternalCallError::ServerError(message) => finished(
                    EvictionOutcome::StopFailed(message),
                ),
                ExternalCallError::Other(_) => victim_stopped(victim, cfg, directory),
            },
            _ => finished(EvictionOutcome::OutOfTurn),
        },
        EvictionState::Resolving { victim } => match event {
            EvictionEvent::OwnerResolved { instance } => owner_known(
                victim,
                instance,
                cfg,
                directory,
            ),
            EvictionEvent::OwnerUnresolved { reason } => {
                let instance = Instance::default();
                let r = owner_known(victim, instance, cfg, directory);
                assert(is_unknown_instance(instance) && after_owner(
                    victim,
                    instance,
                    *cfg,
                    directory@,
                    r.0,
                    r.1,
                ));
                r
            },
            _ => finished(EvictionOutcome::OutOfTurn),
        },
        EvictionState::Refreshing { victim, instance } => match event {
            EvictionEvent::DirectoryRefreshed { users } => {
                let _ = directory.absorb(&users);
                let mention = match directory.get(instance.owner.as_str()) {
                    Some(id) => Some(id.clone()),
                    None => None,
                };
                (EvictionState::Reporting { victim, instance, mention }, EvictionAction::Sample)
            },
            EvictionEvent::DirectoryUnavailable => (
                EvictionState::Reporting { victim, instance, mention: None },
                EvictionAction::Sample,
            ),
            _ => finished(EvictionOutcome::OutOfTurn),
        },
        EvictionState::Reporting { victim, instance, mention } => match event {
            EvictionEvent::Sampled { usage } => {
                let message = message_tpl(&victim, &instance, cfg, &usage);
                (EvictionState::Notifying, EvictionAction::Notify { message, mention })
            },
            EvictionEvent::SampleFailed => finished(EvictionOutcome::SampleFailed),
            _ => finished(EvictionOutcome::OutOfTurn),
        },
        EvictionState::Notifying => match event {
            EvictionEvent::Notified => (EvictionState::Sampling, EvictionAction::Sample),
            EvictionEvent::NotifyFailed => (EvictionState::Sampling, EvictionAction::Sample),
            _ => finished(EvictionOutcome::OutOfTurn),
        },
        EvictionState::Finished { outcome } => (
            EvictionState::Finished { outcome },
            EvictionAction::Finish,
        ),
    }
}

/// At most one container of a listing is the victim.
pub proof fn lemma_victim_unique(w: WhitelistView, listing: Seq<ContainerRecord>, i: int, j: int)
    requires
        is_victim(w, listing, i),
        is_victim(w, listing, j),
    ensures
        i == j,
{
    assert(is_candidate(w, listing[i]));
    assert(is_candidate(w, listing[j]));
}

/// Whether `order` lists the candidates of `listing` by their indices,
/// each once, those that have run longer first and those that have run
/// equally long in the order of the listing: what a stable sort by
/// descending running time gives.
pub open spec fn is_stable_descending(
    w: WhitelistView,
    listing: Seq<ContainerRecord>,
    order: Seq<int>,
) -> bool {
    &&& forall|a: int|
        0 <= a < order.len() ==> 0 <= #[trigger] order[a] < listing.len() && is_candidate(
            w,
            listing[order[a]],
        )
    &&& forall|i: int|
        0 <= i < listing.len() && is_candidate(w, #[trigger] listing[i]) ==> exists|a: int|
            0 <= a < order.len() && #[trigger] order[a] == i
    &&& forall|a: int, b: int|
        0 <= a < b < order.len() ==> {
            let first = elapsed_or_zero(listing[#[trigger] order[a]].status@);
            let second = elapsed_or_zero(listing[#[trigger] order[b]].status@);
            first > second || (first == second && order[a] < order[b])
        }
}

/// The victim is the container that a stable sort of the candidates by
/// descending running time puts first.
pub proof fn lemma_victim_heads_the_order(
    w: WhitelistView,
    listing: Seq<ContainerRecord>,
    order: Seq<int>,
    i: int,
)
    requires
        is_stable_descending(w, listing, order),
        is_victim(w, listing, i),
    ensures
        order.len() > 0,
        order[0] == i,
{
    assert(is_candidate(w, listing[i]));
    let a = choose|a: int| 0 <= a < order.len() && #[trigger] order[a] == i;
    if a > 0 {
        let j = order[0];
        assert(is_candidate(w, listing[j]));
        assert(order[0] != order[a]);
    }
}

/// A list of positions as mathematical integers.
pub open spec fn positions(order: Seq<usize>) -> Seq<int> {
    Seq::new(order.len(), |a: int| order[a] as int)
}

/// Whether `order` lists candidates among the first `k` containers of
/// the listing, with the running time of each in `secs`.
spec fn rank_members(
    w: WhitelistView,
    listing: Seq<ContainerRecord>,
    k: int,
    order: Seq<usize>,
    secs: Seq<u64>,
) -> bool {
    &&& order.len() == secs.len()
    &&& forall|a: int|
        0 <= a < order.len() ==> (#[trigger] order[a]) < k && is_candidate(
            w,
            listing[order[a] as int],
        ) && secs[a] == elapsed_or_zero(listing[order[a] as int].status@)
}

/// Whether `order` lists every candidate among the first `k` containers
/// of the listing.
spec fn rank_covers(
    w: WhitelistView,
    listing: Seq<ContainerRecord>,
    k: int,
    order: Seq<usize>,
) -> bool {
    forall|i: int|
        0 <= i < k && is_candidate(w, #[trigger] listing[i]) ==> exists|a: int|
            0 <= a < order.len() && #[trigger] order[a] == i
}

/// Whether the running times in `secs` descend, and the positions in
/// `order` ascend where two running times are equal.
spec fn rank_sorted(order: Seq<usize>, secs: Seq<u64>) -> bool {
    forall|a: int, b: int|
        0 <= a < b < order.len() ==> (#[trigger] secs[a]) > (#[trigger] secs[b]) || (secs[a]
            == secs[b] && order[a] < order[b])
}

/// Whether `order` ranks the candidates among the first `k` containers
/// of the listing, with the running time of each in `secs`.
spec fn ranks_first(
    w: WhitelistView,
    listing: Seq<ContainerRecord>,
    k: int,
    order: Seq<usize>,
    secs: Seq<u64>,
) -> bool {
    &&& 0 <= k <= listing.len()
    &&& rank_members(w, listing, k, order, secs)
    &&& rank_covers(w, listing, k, order)
    &&& rank_sorted(order, secs)
}

/// A container that is no candidate leaves the ranking as it is.
proof fn lemma_rank_skips(
    w: WhitelistView,
    listing: Seq<ContainerRecord>,
    k: int,
    order: Seq<usize>,
    secs: Seq<u64>,
)
    requires
        ranks_first(w, listing, k, order, secs),
        k < listing.len(),
        !is_candidate(w, listing[k]),
    ensures
        ranks_first(w, listing, k + 1, order, secs),
{
    assert forall|a: int| 0 <= a < order.len() implies (#[trigger] order[a]) < k + 1 by {
        assert(order[a] < k);
    }
}

/// The ranking with one more candidate in it still lists candidates
/// with their running times.
proof fn lemma_insert_keeps_members(
    w: WhitelistView,
    listing: Seq<ContainerRecord>,
    k: usize,
    order: Seq<usize>,
    secs: Seq<u64>,
    p: int,
    e: u64,
)
    requires
        rank_members(w, listing, k as int, order, secs),
        k < listing.len(),
        is_candidate(w, listing[k as int]),
        e == elapsed_or_zero(listing[k as int].status@),
        0 <= p <= order.len(),
    ensures
        rank_members(w, listing, k + 1, order.insert(p, k), secs.insert(p, e)),
{
    let order2 = order.insert(p, k);
    let secs2 = secs.insert(p, e);
    assert forall|a: int| 0 <= a < order2.len() implies (#[trigger] order2[a]) < k + 1
        && is_candidate(w, listing[order2[a] as int]) && secs2[a] == elapsed_or_zero(
        listing[order2[a] as int].status@,
    ) by {
        if a < p {
            assert(order2[a] == order[a] && secs2[a] == secs[a]);
        } else if a > p {
            assert(order2[a] == order[a - 1] && secs2[a] == secs[a - 1]);
        }
    }
}

/// The ranking with one more candidate in it lists every candidate up
/// to that one.
proof fn lemma_insert_keeps_cover(
    w: WhitelistView,
    listing: Seq<ContainerRecord>,
    k: usize,
    order: Seq<usize>,
    p: int,
)
    requires
        rank_covers(w, listing, k as int, order),
        0 <= p <= order.len(),
    ensures
        rank_covers(w, listing, k + 1, order.insert(p, k)),
{
    let order2 = order.insert(p, k);
    assert forall|i: int| 0 <= i < k + 1 && is_candidate(w, #[trigger] listing[i]) implies exists|
        a: int,
    | 0 <= a < order2.len() && #[trigger] order2[a] == i by {
        if i == k {
            assert(order2[p] == i);
        } else {
            let a0 = choose|a: int| 0 <= a < order.len() && #[trigger] order[a] == i;
            if a0 < p {
                assert(order2[a0] == i);
            } else {
                assert(order2[a0 + 1] == i);
            }
        }
    }
}

/// In a sorted ranking every running time from the first shorter one on
/// is shorter.
proof fn lemma_shorter_from(order: Seq<usize>, secs: Seq<u64>, p: int, e: u64, b: int)
    requires
        order.len() == secs.len(),
        rank_sorted(order, secs),
        0 <= p <= b < order.len(),
        secs[p] < e,
    ensures
        secs[b] < e,
{
    if b > p {
        assert(secs[p] > secs[b] || secs[p] == secs[b]);
    }
}

/// The ranking stays sorted where a later container enters it behind
/// every one that has run as long or longer and before the first that
/// has run shorter.
#[verifier::rlimit(40)]
proof fn lemma_insert_keeps_sorted(
    k: usize,
    order: Seq<usize>,
    secs: Seq<u64>,
    p: int,
    e: u64,
)
    requires
        order.len() == secs.len(),
        rank_sorted(order, secs),
        forall|a: int| 0 <= a < order.len() ==> (#[trigger] order[a]) < k,
        0 <= p <= order.len(),
        forall|a: int| 0 <= a < p ==> #[trigger] secs[a] >= e,
        p == order.len() || secs[p] < e,
    ensures
        rank_sorted(order.insert(p, k), secs.insert(p, e)),
{
    let order2 = order.insert(p, k);
    let secs2 = secs.insert(p, e);
    assert forall|a: int, b: int| 0 <= a < b < order2.len() implies (#[trigger] secs2[a]) > (
    #[trigger] secs2[b]) || (secs2[a] == secs2[b] && order2[a] < order2[b]) by {
        if b < p {
            assert(secs2[a] == secs[a] && secs2[b] == secs[b]);
            assert(order2[a] == order[a] && order2[b] == order[b]);
        } else if b == p {
            assert(secs2[a] == secs[a] && order2[a] == order[a]);
            assert(secs[a] >= e);
            assert(order[a] < k);
        } else if a == p {
            assert(secs2[b] == secs[b - 1]);
            lemma_shorter_from(order, secs, p, e, b - 1);
        } else if a < p {
            assert(secs2[a] == secs[a] && secs2[b] == secs[b - 1]);
            assert(order2[a] == order[a] && order2[b] == order[b - 1]);
        } else {
            assert(secs2[a] == secs[a - 1] && secs2[b] == secs[b - 1]);
            assert(order2[a] == order[a - 1] && order2[b] == order[b - 1]);
        }
    }
}

/// A candidate enters the ranking behind every container that has run
/// as long or longer and before every one that has run shorter.
proof fn lemma_rank_inserts(
    w: WhitelistView,
    listing: Seq<ContainerRecord>,
    k: usize,
    order: Seq<usize>,
    secs: Seq<u64>,
    p: int,
    e: u64,
)
    requires
        ranks_first(w, listing, k as int, order, secs),
        k < listing.len(),
        is_candidate(w, listing[k as int]),
        e == elapsed_or_zero(listing[k as int].status@),
        0 <= p <= order.len(),
        forall|a: int| 0 <= a < p ==> #[trigger] secs[a] >= e,
        p == order.len() || secs[p] < e,
    ensures
        ranks_first(w, listing, k + 1, order.insert(p, k), secs.insert(p, e)),
{
    lemma_insert_keeps_members(w, listing, k, order, secs, p, e);
    lemma_insert_keeps_cover(w, listing, k, order, p);
    lemma_insert_keeps_sorted(k, order, secs, p, e);
}

/// A ranking of the whole listing is its stable descending order.
proof fn lemma_rank_is_stable(
    w: WhitelistView,
    listing: Seq<ContainerRecord>,
    order: Seq<usize>,
    secs: Seq<u64>,
)
    requires
        ranks_first(w, listing, listing.len() as int, order, secs),
    ensures
        is_stable_descending(w, listing, positions(order)),
{
    let ranked = positions(order);
    assert forall|a: int| 0 <= a < ranked.len() implies 0 <= #[trigger] ranked[a] < listing.len()
        && is_candidate(w, listing[ranked[a]]) by {
        assert(order[a] < listing.len());
    }
    assert forall|i: int|
        0 <= i < listing.len() && is_candidate(w, #[trigger] listing[i]) implies exists|a: int|
        0 <= a < ranked.len() && #[trigger] ranked[a] == i by {
        let a0 = choose|a: int| 0 <= a < order.len() && #[trigger] order[a] == i;
        assert(ranked[a0] == i);
    }
    assert forall|a: int, b: int| 0 <= a < b < ranked.len() implies ({
        let first = elapsed_or_zero(listing[#[trigger] ranked[a]].status@);
        let second = elapsed_or_zero(listing[#[trigger] ranked[b]].status@);
        first > second || (first == second && ranked[a] < ranked[b])
    }) by {
        assert(secs[a] > secs[b] || (secs[a] == secs[b] && order[a] < order[b]));
        assert(secs[a] == elapsed_or_zero(listing[order[a] as int].status@));
        assert(secs[b] == elapsed_or_zero(listing[order[b] as int].status@));
    }
}

/// Ranks the containers that may be stopped: their positions in the
/// listing, those that have run longest first and those that have run
/// equally long in the order of the listing. The victim heads the list.
pub fn rank_candidates(w: &Whitelist, listing: &Vec<ContainerRecord>) -> (order: Vec<usize>)
    ensures
        is_stable_descending(w@, listing@, positions(order@)),
{
    let mut order: Vec<usize> = Vec::new();
    let mut secs: Vec<u64> = Vec::new();
    let mut k: usize = 0;
    while k < listing.len()
        invariant
            ranks_first(w@, listing@, k as int, order@, secs@),
        decreases listing.len() - k,
    {
        let c = &listing[k];
        if !w.is_container_whitelisted(c.id.as_str(), &c.names) {
            let e = elapsed_seconds(c);
            let mut p: usize = 0;
            while p < order.len() && secs[p] >= e
                invariant
                    p <= order@.len(),
                    order@.len() == secs@.len(),
                    forall|a: int| 0 <= a < p ==> #[trigger] secs@[a] >= e,
                decreases order@.len() - p,
            {
                p += 1;
            }
            proof {
                lemma_rank_inserts(w@, listing@, k, order@, secs@, p as int, e);
            }
            order.insert(p, k);
            secs.insert(p, e);
        } else {
            proof {
                lemma_rank_skips(w@, listing@, k as int, order@, secs@);
            }
        }
        k += 1;
    }
    proof {
        lemma_rank_is_stable(w@, listing@, order@, secs@);
    }
    order
}

/// A container is only ever stopped in answer to a listing, and it is
/// the victim of that listing: a candidate, never one on the whitelist.
pub proof fn lemma_stop_follows_listing(
    pre: EvictionState,
    event: EvictionEvent,
    cfg: Config,
    w: WhitelistView,
    dir: Map<Seq<char>, String>,
    post: EvictionState,
    action: EvictionAction,
    dir_post: Map<Seq<char>, String>,
)
    requires
        transition(pre, event, cfg, w, dir, post, action, dir_post),
        action is Stop,
    ensures
        pre is Listing,
        event is Listed,
        post is Stopping,
        exists|i: int|
            is_victim(w, event->containers@, i) && action->id == (
            #[trigger] event->containers@[i]).id,
{
}

/// The running containers are only ever listed in answer to a sample
/// that is over a limit.
pub proof fn lemma_listing_follows_sample(
    pre: EvictionState,
    event: EvictionEvent,
    cfg: Config,
    w: WhitelistView,
    dir: Map<Seq<char>, String>,
    post: EvictionState,
    action: EvictionAction,
    dir_post: Map<Seq<char>, String>,
)
    requires
        transition(pre, event, cfg, w, dir, post, action, dir_post),
        post is Listing,
    ensures
        pre is Sampling,
        event is Sampled,
        over_limit(event->usage, cfg.cpu_limit, cfg.mem_limit),
        action is ListRunning,
{
}

/// The loop ends as healthy exactly on a gating sample under both
/// limits, and as without a victim exactly on a listing in which every
/// container is protected.
pub proof fn lemma_how_the_loop_ends(
    pre: EvictionState,
    event: EvictionEvent,
    cfg: Config,
    w: WhitelistView,
    dir: Map<Seq<char>, String>,
    post: EvictionState,
    action: EvictionAction,
    dir_post: Map<Seq<char>, String>,
)
    requires
        transition(pre, event, cfg, w, dir, post, action, dir_post),
        !(pre is Finished),
    ensures
        post == (EvictionState::Finished { outcome: EvictionOutcome::Healthy }) <==> pre is Sampling
            && event is Sampled && !over_limit(event->usage, cfg.cpu_limit, cfg.mem_limit),
        post == (EvictionState::Finished { outcome: EvictionOutcome::NoVictim }) <==> pre is Listing
            && event is Listed && no_candidate(w, event->containers@),
        post is Finished && post->outcome is StopFailed <==> pre is Stopping && event is StopFailed
            && event->error is ServerError,
{
}

/// Whether the steps of a run follow one from another: each state and
/// directory is what the step before it left.
pub open spec fn is_run(
    states: Seq<EvictionState>,
    events: Seq<EvictionEvent>,
    actions: Seq<EvictionAction>,
    dirs: Seq<Map<Seq<char>, String>>,
    cfg: Config,
    w: WhitelistView,
) -> bool {
    &&& states.len() == events.len() + 1
    &&& dirs.len() == events.len() + 1
    &&& actions.len() == events.len()
    &&& forall|k: int|
        0 <= k < events.len() ==> transition(
            states[k],
            #[trigger] events[k],
            cfg,
            w,
            dirs[k],
            states[k + 1],
            actions[k],
            dirs[k + 1],
        )
}

/// No run stops two containers without a sample between the two stops:
/// the step before the one that stops the second is the answer to a
/// sample that was over a limit.
pub proof fn lemma_one_stop_per_sample(
    states: Seq<EvictionState>,
    events: Seq<EvictionEvent>,
    actions: Seq<EvictionAction>,
    dirs: Seq<Map<Seq<char>, String>>,
    cfg: Config,
    w: WhitelistView,
    i: int,
    j: int,
)
    requires
        is_run(states, events, actions, dirs, cfg, w),
        0 <= i < j < events.len(),
        actions[i] is Stop,
        actions[j] is Stop,
    ensures
        i < j - 1,
        events[j - 1] is Sampled,
        over_limit(events[j - 1]->usage, cfg.cpu_limit, cfg.mem_limit),
{
    let k = j - 1;
    assert(transition(
        states[j],
        events[j],
        cfg,
        w,
        dirs[j],
        states[j + 1],
        actions[j],
        dirs[j + 1],
    ));
    assert(transition(
        states[k],
        events[k],
        cfg,
        w,
        dirs[k],
        states[k + 1],
        actions[k],
        dirs[k + 1],
    ));
    lemma_stop_follows_listing(
        states[j],
        events[j],
        cfg,
        w,
        dirs[j],
        states[j + 1],
        actions[j],
        dirs[j + 1],
    );
    lemma_listing_follows_sample(
        states[k],
        events[k],
        cfg,
        w,
        dirs[k],
        states[k + 1],
        actions[k],
        dirs[k + 1],
    );
}

} // verus!
