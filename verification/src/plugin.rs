//! The pod/container lifecycle state machine that drives the resctrl handle
//! to converge the group-to-PID invariant per pod.
//!
//! Callers deliver lifecycle events in order; the plugin commits its state
//! and appends outbound events to an outbox that the caller drains and
//! forwards (dropping on a full channel, counted by the caller). For a
//! fixed pod, `total_containers` only grows on a new container and only
//! shrinks on container removal, and `reconciled_containers` never exceeds
//! it; a pod whose group failed has no reconciled containers.
//!
//! The filesystem calls decide, and what they decide is committed by
//! functions that take the call's outcome as an argument with an exact
//! contract — `commit_new_pod` for group creation, and
//! `container_state_from_report` with `commit_new_container` for a
//! reconcile — while each caller's own contract ties the committed state
//! to the filesystem: a live group means its directory was created at the
//! pod's path, a failed one leaves the filesystem untouched, and a
//! reconcile touches nothing but its group's `tasks` file, which only
//! grows.

use vstd::prelude::*;

use crate::cgroup_path::{compute_full_cgroup_path, full_cgroup_path_spec, ContainerDesc, PodDesc};
use crate::fs::FsProvider;
use crate::kv::{kv_find, kv_map, kv_wf, lemma_kv_index, lemma_kv_push, lemma_kv_remove};
use crate::resctrl::{AssignReport, CgroupPidSource, Resctrl, ResctrlError};

verus! {

/// Resctrl group state for a pod.
#[derive(Debug, PartialEq, Eq)]
pub enum ResctrlGroupState {
    /// Group exists at the given path.
    Exists(String),
    /// Group could not be created (e.g. RMID exhaustion).
    Failed,
}

impl Clone for ResctrlGroupState {
    fn clone(&self) -> (r: Self)
        ensures
            r == *self,
    {
        match self {
            ResctrlGroupState::Exists(p) => ResctrlGroupState::Exists(p.clone()),
            ResctrlGroupState::Failed => ResctrlGroupState::Failed,
        }
    }
}

/// Event payload for an added or updated pod.
#[derive(Clone, Debug, PartialEq, Eq)]
pub struct PodResctrlAddOrUpdate {
    pub pod_uid: String,
    pub group_state: ResctrlGroupState,
    /// Number of containers known for the pod.
    pub total_containers: usize,
    /// Number of containers reconciled successfully.
    pub reconciled_containers: usize,
}

/// Event payload for a removed pod.
#[derive(Clone, Debug, PartialEq, Eq)]
pub struct PodResctrlRemoved {
    pub pod_uid: String,
}

/// Events emitted by the resctrl plugin.
#[derive(Clone, Debug, PartialEq, Eq)]
pub enum PodResctrlEvent {
    AddOrUpdate(PodResctrlAddOrUpdate),
    Removed(PodResctrlRemoved),
}

/// Configuration for the resctrl plugin.
#[derive(Clone, Debug)]
pub struct ResctrlPluginConfig {
    /// Prefix used for resctrl group naming.
    pub group_prefix: String,
    /// Clean up stale groups with the prefix on start.
    pub cleanup_on_start: bool,
    /// Max reconciliation passes when assigning tasks per pod.
    pub max_reconcile_passes: usize,
    /// Max concurrent pod operations.
    pub concurrency_limit: usize,
    /// Whether to auto-mount resctrl when not present.
    pub auto_mount: bool,
}

impl Default for ResctrlPluginConfig {
    fn default() -> (r: ResctrlPluginConfig)
        ensures
            r.group_prefix@ == "pod_"@,
            r.cleanup_on_start,
            r.max_reconcile_passes == 10,
            r.concurrency_limit == 1,
            !r.auto_mount,
    {
        ResctrlPluginConfig {
            group_prefix: "pod_".to_owned(),
            cleanup_on_start: true,
            max_reconcile_passes: 10,
            concurrency_limit: 1,
            auto_mount: false,
        }
    }
}

/// Sync state of one container.
#[derive(Clone, Copy, Debug, PartialEq, Eq, Structural)]
pub enum ContainerSyncState {
    /// Observed before its pod; terminal until the runtime resends a create.
    NoPod,
    /// At least one known pid is not assigned.
    Partial,
    /// The container's pids were all assigned at last reconcile.
    Reconciled,
}

/// Pod state as tracked.
#[derive(Clone, Debug)]
pub struct PodState {
    pub group_state: ResctrlGroupState,
    pub total_containers: usize,
    pub reconciled_containers: usize,
}

/// Container state as tracked.
#[derive(Clone, Debug)]
pub struct ContainerState {
    pub pod_uid: String,
    pub cgroup_path: String,
    pub state: ContainerSyncState,
}

/// Lifecycle events delivered through `state_change`.
#[derive(Clone, Copy, Debug, PartialEq, Eq, Structural)]
pub enum PodLifecycleEvent {
    RunPodSandbox,
    RemovePodSandbox,
    RemoveContainer,
}

/// Plugin-level errors, distinguishing benign races from resctrl failures.
#[derive(Clone, Copy, Debug, PartialEq, Eq, Structural)]
pub enum PluginError {
    PodNotFound,
    ContainerNotFound,
    Resctrl(ResctrlError),
}

/// A pod as the contracts see it: its group (or its failure) and counts.
pub ghost struct PodView {
    pub group: Option<Seq<char>>,
    pub total: int,
    pub reconciled: int,
}

/// A container as the contracts see it.
pub ghost struct ContainerView {
    pub pod_uid: Seq<char>,
    pub cgroup: Seq<char>,
    pub state: ContainerSyncState,
}

/// An outbound event as the contracts see it.
pub ghost struct EventView {
    pub removed: bool,
    pub uid: Seq<char>,
    pub group: Option<Seq<char>>,
    pub total: int,
    pub reconciled: int,
}

pub open spec fn pod_view(p: PodState) -> PodView {
    PodView {
        group: match p.group_state {
            ResctrlGroupState::Exists(path) => Some(path@),
            ResctrlGroupState::Failed => None,
        },
        total: p.total_containers as int,
        reconciled: p.reconciled_containers as int,
    }
}

pub open spec fn container_view(c: ContainerState) -> ContainerView {
    ContainerView { pod_uid: c.pod_uid@, cgroup: c.cgroup_path@, state: c.state }
}

pub open spec fn event_view(e: PodResctrlEvent) -> EventView {
    match e {
        PodResctrlEvent::AddOrUpdate(a) => EventView {
            removed: false,
            uid: a.pod_uid@,
            group: match a.group_state {
                ResctrlGroupState::Exists(path) => Some(path@),
                ResctrlGroupState::Failed => None,
            },
            total: a.total_containers as int,
            reconciled: a.reconciled_containers as int,
        },
        PodResctrlEvent::Removed(r) => EventView {
            removed: true,
            uid: r.pod_uid@,
            group: None,
            total: 0,
            reconciled: 0,
        },
    }
}

/// The add-or-update event view for a pod in a given state.
pub open spec fn ev_add(uid: Seq<char>, p: PodView) -> EventView {
    EventView { removed: false, uid, group: p.group, total: p.total, reconciled: p.reconciled }
}

pub open spec fn ev_removed(uid: Seq<char>) -> EventView {
    EventView { removed: true, uid, group: None, total: 0, reconciled: 0 }
}

/// What adopting a pod leaves behind: idempotent on a known pod, and for a
/// new pod one group-creation attempt, a fresh zero-count entry, and the
/// state event; directories only appear, and event ordering is kept.
pub open spec fn new_pod_post<P: FsProvider, S: CgroupPidSource>(
    pre: ResctrlPlugin<P, S>,
    post: ResctrlPlugin<P, S>,
    uid: Seq<char>,
) -> bool {
    &&& post.wf()
    &&& post.cfg_spec() == pre.cfg_spec()
    &&& post.containers_map() == pre.containers_map()
    &&& pre.fs().dirs.subset_of(post.fs().dirs)
    &&& (post.fs().dirs == pre.fs().dirs || post.fs().dirs == pre.fs().dirs.insert(
        pre.resctrl_spec().group_path_spec(uid),
    ))
    &&& post.resctrl_spec().root_spec() == pre.resctrl_spec().root_spec()
    &&& post.resctrl_spec().prefix_spec() == pre.resctrl_spec().prefix_spec()
    &&& (events_dominated(pre.pods_map(), pre.events()) ==> events_dominated(
        post.pods_map(),
        post.events(),
    ))
    &&& (pre.pods_map().contains_key(uid) ==> {
        &&& post.pods_map() == pre.pods_map()
        &&& post.fs() == pre.fs()
        &&& post.events() == pre.events().push(ev_add(uid, pre.pods_map()[uid]))
    })
    &&& (!pre.pods_map().contains_key(uid) ==> exists|g: Option<Seq<char>>|
        {
            &&& post.pods_map() == pre.pods_map().insert(
                uid,
                PodView { group: g, total: 0, reconciled: 0 },
            )
            &&& post.events() == pre.events().push(
                ev_add(uid, PodView { group: g, total: 0, reconciled: 0 }),
            )
            &&& match #[trigger] group_ok(g) {
                // a live group is committed exactly when its directory was
                // created at the pod's path; a failure leaves the
                // filesystem untouched
                Some(p) => {
                    &&& p == pre.resctrl_spec().group_path_spec(uid)
                    &&& post.fs().dirs == pre.fs().dirs.insert(p)
                    &&& post.fs().files == pre.fs().files
                    &&& post.fs().mounted == pre.fs().mounted
                },
                None => post.fs() == pre.fs(),
            }
        })
}

/// What removing a pod leaves behind: the pod entry and every container of
/// that pod are gone, the removal event is committed, and the group
/// deletion is best effort — directories can only disappear.
pub open spec fn remove_pod_post<P: FsProvider, S: CgroupPidSource>(
    pre: ResctrlPlugin<P, S>,
    post: ResctrlPlugin<P, S>,
    uid: Seq<char>,
) -> bool {
    &&& post.wf()
    &&& post.cfg_spec() == pre.cfg_spec()
    &&& post.pods_map() == pre.pods_map().remove(uid)
    &&& (forall|k: Seq<char>|
        #[trigger] post.containers_map().contains_key(k) <==> (pre.containers_map().contains_key(
            k,
        ) && pre.containers_map()[k].pod_uid != uid))
    &&& (forall|k: Seq<char>|
        #[trigger] post.containers_map().contains_key(k) ==> post.containers_map()[k]
            == pre.containers_map()[k])
    &&& post.events() == pre.events().push(ev_removed(uid))
    &&& post.fs().dirs.subset_of(pre.fs().dirs)
    &&& (events_dominated(pre.pods_map(), pre.events()) ==> events_dominated(
        post.pods_map(),
        post.events(),
    ))
}

/// What removing a container leaves behind: the container entry is gone;
/// if its pod is tracked, the totals fall by one exactly for a counted
/// container — never for `NoPod` or an unknown id — the reconciled count
/// falls at most as far, and the pod's new state is the one event emitted.
pub open spec fn remove_container_post<P: FsProvider, S: CgroupPidSource>(
    pre: ResctrlPlugin<P, S>,
    post: ResctrlPlugin<P, S>,
    uid: Seq<char>,
    cid: Seq<char>,
) -> bool {
    &&& post.wf()
    &&& post.cfg_spec() == pre.cfg_spec()
    &&& post.fs() == pre.fs()
    &&& post.containers_map() == pre.containers_map().remove(cid)
    &&& (!pre.pods_map().contains_key(uid) ==> post.pods_map() == pre.pods_map()
        && post.events() == pre.events())
    &&& (pre.pods_map().contains_key(uid) ==> {
        let p0 = pre.pods_map()[uid];
        let removed_state = if pre.containers_map().contains_key(cid) {
            Some(pre.containers_map()[cid].state)
        } else {
            None
        };
        let p1 = post.pods_map()[uid];
        &&& post.pods_map().dom() == pre.pods_map().dom()
        &&& (forall|u: Seq<char>|
            #[trigger] post.pods_map().contains_key(u) && u != uid ==> post.pods_map()[u]
                == pre.pods_map()[u])
        &&& p1.group == p0.group
        &&& p1.total <= p0.total
        &&& p0.total - p1.total <= 1
        &&& p1.reconciled <= p0.reconciled
        &&& (match removed_state {
            Some(st) => {
                &&& (st == ContainerSyncState::NoPod ==> p1 == p0)
                &&& (st != ContainerSyncState::NoPod && p0.total > 0 ==> p1.total == p0.total
                    - 1)
                &&& (st == ContainerSyncState::Reconciled && p0.reconciled > 0 && p0.reconciled
                    <= p0.total ==> p1.reconciled == p0.reconciled - 1)
            },
            None => p1 == p0,
        })
        &&& post.events() == pre.events().push(ev_add(uid, p1))
    })
    &&& (events_dominated(pre.pods_map(), pre.events()) ==> events_dominated(
        post.pods_map(),
        post.events(),
    ))
}

/// The resctrl plugin, generic over the filesystem capability and the PID
/// source.
pub struct ResctrlPlugin<P: FsProvider, S: CgroupPidSource> {
    cfg: ResctrlPluginConfig,
    resctrl: Resctrl<P>,
    pid_source: S,
    pods: Vec<(String, PodState)>,
    containers: Vec<(String, ContainerState)>,
    outbox: Vec<PodResctrlEvent>,
}

impl<P: FsProvider, S: CgroupPidSource> ResctrlPlugin<P, S> {
    /// The tracked pods.
    pub closed spec fn pods_map(&self) -> Map<Seq<char>, PodView> {
        kv_map(self.pods@).map_values(|p: PodState| pod_view(p))
    }

    /// The tracked containers.
    pub closed spec fn containers_map(&self) -> Map<Seq<char>, ContainerView> {
        kv_map(self.containers@).map_values(|c: ContainerState| container_view(c))
    }

    /// The events emitted so far, oldest first.
    pub closed spec fn events(&self) -> Seq<EventView> {
        self.outbox@.map_values(|e: PodResctrlEvent| event_view(e))
    }

    pub closed spec fn cfg_spec(&self) -> ResctrlPluginConfig {
        self.cfg
    }

    /// The filesystem as the plugin's resctrl handle sees it.
    pub closed spec fn fs(&self) -> crate::fs::FsModel {
        self.resctrl.fs()
    }

    pub closed spec fn resctrl_spec(&self) -> Resctrl<P> {
        self.resctrl
    }

    /// Count soundness: for every pod, reconciled counts never exceed the
    /// total, and a pod without a group has no reconciled containers.
    pub closed spec fn wf(&self) -> bool {
        &&& kv_wf(self.pods@)
        &&& kv_wf(self.containers@)
        &&& forall|uid: Seq<char>|
            #[trigger] self.pods_map().contains_key(uid) ==> {
                &&& 0 <= self.pods_map()[uid].reconciled <= self.pods_map()[uid].total
                &&& (self.pods_map()[uid].group is None ==> self.pods_map()[uid].reconciled
                    == 0)
            }
    }

    /// Create a plugin over a resctrl handle and a PID source.
    pub fn with_pid_source(cfg: ResctrlPluginConfig, resctrl: Resctrl<P>, pid_source: S) -> (r:
        ResctrlPlugin<P, S>)
        ensures
            r.wf(),
            r.cfg_spec() == cfg,
            r.pods_map() == Map::<Seq<char>, PodView>::empty(),
            r.containers_map() == Map::<Seq<char>, ContainerView>::empty(),
            r.events() == Seq::<EventView>::empty(),
            r.fs() == resctrl.fs(),
            r.resctrl_spec() == resctrl,
            events_dominated(r.pods_map(), r.events()),
    {
        let r = ResctrlPlugin {
            cfg,
            resctrl,
            pid_source,
            pods: Vec::new(),
            containers: Vec::new(),
            outbox: Vec::new(),
        };
        proof {
            assert(kv_map(r.pods@).map_values(|p: PodState| pod_view(p)) =~= Map::<
                Seq<char>,
                PodView,
            >::empty());
            assert(kv_map(r.containers@).map_values(|c: ContainerState| container_view(c)) =~= Map::<
                Seq<char>,
                ContainerView,
            >::empty());
            assert(r.outbox@.map_values(|e: PodResctrlEvent| event_view(e)) =~= Seq::<
                EventView,
            >::empty());
            assert forall|u: Seq<char>|
                match #[trigger] last_event_for(r.events(), u) {
                    Some(_) => false,
                    None => true,
                } by {}
        }
        r
    }

    /// Drain the outbound events accumulated so far, oldest first.
    pub fn take_events(&mut self) -> (r: Vec<PodResctrlEvent>)
        ensures
            final(self).wf() == old(self).wf(),
            final(self).pods_map() == old(self).pods_map(),
            final(self).containers_map() == old(self).containers_map(),
            final(self).fs() == old(self).fs(),
            final(self).cfg_spec() == old(self).cfg_spec(),
            r@.map_values(|e: PodResctrlEvent| event_view(e)) == old(self).events(),
            final(self).events() == Seq::<EventView>::empty(),
            events_dominated(final(self).pods_map(), final(self).events()),
    {
        let mut out: Vec<PodResctrlEvent> = Vec::new();
        core::mem::swap(&mut self.outbox, &mut out);
        proof {
            assert(self.outbox@.map_values(|e: PodResctrlEvent| event_view(e)) =~= Seq::<
                EventView,
            >::empty());
            assert forall|u: Seq<char>|
                match #[trigger] last_event_for(self.events(), u) {
                    Some(_) => false,
                    None => true,
                } by {}
        }
        out
    }

    /// Create or fetch pod state, ensuring its group exists; idempotent on
    /// repeated calls. Emits the pod's current state either way.
    pub fn handle_new_pod(&mut self, pod_uid: &String)
        requires
            old(self).wf(),
        ensures
            new_pod_post(*old(self), *final(self), pod_uid@),
    {
        match kv_find(&self.pods, pod_uid) {
            Some(i) => {
                let ev = PodResctrlEvent::AddOrUpdate(
                    PodResctrlAddOrUpdate {
                        pod_uid: pod_uid.clone(),
                        group_state: self.pods[i].1.group_state.clone(),
                        total_containers: self.pods[i].1.total_containers,
                        reconciled_containers: self.pods[i].1.reconciled_containers,
                    },
                );
                proof {
                    lemma_kv_index(self.pods@, i as int);
                    assert(self.pods_map()[pod_uid@] == pod_view(self.pods@[i as int].1));
                }
                self.outbox.push(ev);
                proof {
                    assert(final(self).events() =~= old(self).events().push(
                        ev_add(pod_uid@, old(self).pods_map()[pod_uid@]),
                    ));
                    if events_dominated(old(self).pods_map(), old(self).events()) {
                        lemma_events_dominated_commit(
                            old(self).pods_map(),
                            old(self).events(),
                            pod_uid@,
                            old(self).pods_map()[pod_uid@],
                        );
                        assert(old(self).pods_map().insert(
                            pod_uid@,
                            old(self).pods_map()[pod_uid@],
                        ) =~= final(self).pods_map());
                    }
                }
            },
            None => {
                let created = self.resctrl.create_group(pod_uid);
                let created_view = Ghost(created_group_view(created));
                self.commit_new_pod(pod_uid, created);
                proof {
                    let g = created_view@;
                    assert(group_ok(g) == g);
                    match g {
                        Some(p) => {
                            assert(self.fs().dirs == old(self).fs().dirs.insert(p));
                        },
                        None => {
                            assert(self.fs() == old(self).fs());
                        },
                    }
                }
            },
        }
    }

    /// Commit what group creation decided for a new pod: the created path
    /// on success, the failed state otherwise, each with zero counts and
    /// the one state event. The decision is exact for each value of the
    /// creation outcome; the filesystem is not touched here.
    pub fn commit_new_pod(&mut self, pod_uid: &String, created: Result<String, ResctrlError>)
        requires
            old(self).wf(),
            !old(self).pods_map().contains_key(pod_uid@),
        ensures
            final(self).wf(),
            final(self).cfg_spec() == old(self).cfg_spec(),
            final(self).containers_map() == old(self).containers_map(),
            final(self).fs() == old(self).fs(),
            final(self).resctrl_spec() == old(self).resctrl_spec(),
            final(self).pods_map() == old(self).pods_map().insert(
                pod_uid@,
                PodView { group: created_group_view(created), total: 0, reconciled: 0 },
            ),
            final(self).events() == old(self).events().push(
                ev_add(
                    pod_uid@,
                    PodView { group: created_group_view(created), total: 0, reconciled: 0 },
                ),
            ),
            events_dominated(old(self).pods_map(), old(self).events()) ==> events_dominated(
                final(self).pods_map(),
                final(self).events(),
            ),
    {
        let group_state = match created {
            Ok(path) => ResctrlGroupState::Exists(path),
            Err(_) => ResctrlGroupState::Failed,
        };
        let ps = PodState {
            group_state: group_state.clone(),
            total_containers: 0,
            reconciled_containers: 0,
        };
        proof {
            lemma_kv_push(self.pods@, *pod_uid, ps);
        }
        let uid_key = pod_uid.clone();
        self.pods.push((uid_key, ps));
        let ev = PodResctrlEvent::AddOrUpdate(
            PodResctrlAddOrUpdate {
                pod_uid: pod_uid.clone(),
                group_state,
                total_containers: 0,
                reconciled_containers: 0,
            },
        );
        self.outbox.push(ev);
        proof {
            let g = created_group_view(created);
            assert(kv_map(self.pods@) == kv_map(old(self).pods@).insert(
                pod_uid@,
                self.pods@.last().1,
            ));
            assert(pod_view(self.pods@.last().1) == (PodView {
                group: g,
                total: 0,
                reconciled: 0,
            }));
            assert(final(self).pods_map() =~= old(self).pods_map().insert(
                pod_uid@,
                PodView { group: g, total: 0, reconciled: 0 },
            ));
            assert(final(self).events() =~= old(self).events().push(
                ev_add(pod_uid@, PodView { group: g, total: 0, reconciled: 0 }),
            ));
            if events_dominated(old(self).pods_map(), old(self).events()) {
                lemma_events_dominated_commit(
                    old(self).pods_map(),
                    old(self).events(),
                    pod_uid@,
                    PodView { group: g, total: 0, reconciled: 0 },
                );
            }
        }
    }
}

impl<P: FsProvider, S: CgroupPidSource> ResctrlPlugin<P, S> {
    /// Remove a pod: its containers, its state, and — best effort — its
    /// group. The removal event is committed before the group is deleted.
    pub fn remove_pod(&mut self, pod_uid: &String)
        requires
            old(self).wf(),
        ensures
            remove_pod_post(*old(self), *final(self), pod_uid@),
    {
        let group_path: Option<String> = match kv_find(&self.pods, pod_uid) {
            Some(i) => {
                proof {
                    lemma_kv_index(self.pods@, i as int);
                }
                match &self.pods[i].1.group_state {
                    ResctrlGroupState::Exists(p) => Some(p.clone()),
                    ResctrlGroupState::Failed => None,
                }
            },
            None => None,
        };
        // drop every container of this pod, keeping order
        let n = self.containers.len();
        let mut kept: Vec<(String, ContainerState)> = Vec::new();
        let mut j: usize = 0;
        let keep_f = Ghost(|c: ContainerState| c.pod_uid@ != pod_uid@);
        while j < n
            invariant
                j <= n,
                n == self.containers@.len(),
                *self == *old(self),
                keep_f@ == (|c: ContainerState| c.pod_uid@ != pod_uid@),
                kept@ == crate::kv::kv_filter(self.containers@.subrange(0, j as int), keep_f@),
            decreases n - j,
        {
            let keep = !self.containers[j].1.pod_uid.eq(pod_uid);
            proof {
                assert(self.containers@.subrange(0, j + 1).drop_last() =~= self
                    .containers@.subrange(0, j as int));
                assert(self.containers@.subrange(0, j + 1).last() == self.containers@[j as int]);
            }
            if keep {
                let key = self.containers[j].0.clone();
                let val = self.containers[j].1.clone_state();
                proof {
                    assert((key, val) == self.containers@[j as int]);
                }
                kept.push((key, val));
                proof {
                    assert(kept@ =~= crate::kv::kv_filter(
                        self.containers@.subrange(0, j + 1),
                        keep_f@,
                    ));
                }
            }
            j += 1;
        }
        proof {
            assert(self.containers@.subrange(0, n as int) =~= self.containers@);
        }
        self.containers = kept;
        proof {
            crate::kv::lemma_kv_filter(old(self).containers@, keep_f@);
        }
        // drop the pod state
        match kv_find(&self.pods, pod_uid) {
            Some(i) => {
                proof {
                    lemma_kv_remove(self.pods@, i as int);
                }
                let _ = self.pods.remove(i);
            },
            None => {
                proof {
                    assert(kv_map(self.pods@).remove(pod_uid@) =~= kv_map(self.pods@));
                }
            },
        }
        // commit the removal event before touching the filesystem
        self.outbox.push(PodResctrlEvent::Removed(PodResctrlRemoved { pod_uid: pod_uid.clone() }));
        // delete the group last, best effort
        if let Some(gp) = group_path {
            let _ = self.resctrl.delete_group(&gp);
        }
        proof {
            assert(final(self).pods_map() =~= old(self).pods_map().remove(pod_uid@));
            assert(final(self).events() =~= old(self).events().push(ev_removed(pod_uid@)));
            if events_dominated(old(self).pods_map(), old(self).events()) {
                lemma_event_ordering_removed(old(self).pods_map(), old(self).events(), pod_uid@);
            }
            assert(final(self).containers@ == crate::kv::kv_filter(
                old(self).containers@,
                keep_f@,
            ));
            assert forall|k: Seq<char>|
                #[trigger] final(self).containers_map().contains_key(k) <==> (old(self)
                    .containers_map().contains_key(k) && old(self).containers_map()[k].pod_uid
                    != pod_uid@) by {
                assert(kv_map(final(self).containers@).contains_key(k) <==> (kv_map(
                    old(self).containers@,
                ).contains_key(k) && keep_f@(kv_map(old(self).containers@)[k])));
                if kv_map(old(self).containers@).contains_key(k) {
                    assert(old(self).containers_map()[k] == container_view(
                        kv_map(old(self).containers@)[k],
                    ));
                }
            }
            assert forall|k: Seq<char>|
                #[trigger] final(self).containers_map().contains_key(k)
                implies final(self).containers_map()[k] == old(self).containers_map()[k] by {
                assert(kv_map(final(self).containers@).contains_key(k));
                assert(kv_map(final(self).containers@)[k] == kv_map(old(self).containers@)[k]);
            }
        }
    }

    /// Remove a container, adjusting its pod's counts by its prior state,
    /// and report the pod's new state.
    pub fn remove_container(&mut self, pod_uid: &String, container_id: &String)
        requires
            old(self).wf(),
        ensures
            remove_container_post(*old(self), *final(self), pod_uid@, container_id@),
    {
        let removed: Option<ContainerSyncState> = match kv_find(&self.containers, container_id) {
            Some(i) => {
                proof {
                    lemma_kv_remove(self.containers@, i as int);
                }
                let (_, cs) = self.containers.remove(i);
                Some(cs.state)
            },
            None => {
                proof {
                    assert(kv_map(self.containers@).remove(container_id@) =~= kv_map(
                        self.containers@,
                    ));
                }
                None
            },
        };
        proof {
            assert(self.containers_map() =~= old(self).containers_map().remove(container_id@));
        }
        match kv_find(&self.pods, pod_uid) {
            Some(i) => {
                proof {
                    lemma_kv_index(self.pods@, i as int);
                }
                let (key, mut ps) = self.pods.remove(i);
                match removed {
                    Some(ContainerSyncState::Partial) | Some(ContainerSyncState::Reconciled) => {
                        ps.total_containers = if ps.total_containers > 0 {
                            ps.total_containers - 1
                        } else {
                            0
                        };
                    },
                    _ => {},
                }
                if removed == Some(ContainerSyncState::Reconciled) {
                    ps.reconciled_containers = if ps.reconciled_containers > 0 {
                        ps.reconciled_containers - 1
                    } else {
                        0
                    };
                }
                // counts stay sound even from a state the tracked
                // containers could not have produced
                if ps.reconciled_containers > ps.total_containers {
                    ps.reconciled_containers = ps.total_containers;
                }
                let ev = PodResctrlEvent::AddOrUpdate(
                    PodResctrlAddOrUpdate {
                        pod_uid: pod_uid.clone(),
                        group_state: ps.group_state.clone(),
                        total_containers: ps.total_containers,
                        reconciled_containers: ps.reconciled_containers,
                    },
                );
                proof {
                    lemma_kv_remove(old(self).pods@, i as int);
                    assert(!kv_map(self.pods@).contains_key(key@));
                    lemma_kv_push(self.pods@, key, ps);
                }
                self.pods.push((key, ps));
                self.outbox.push(ev);
                proof {
                    assert(final(self).pods_map() =~= old(self).pods_map().insert(
                        pod_uid@,
                        pod_view(final(self).pods@.last().1),
                    ));
                    assert(final(self).pods_map().dom() =~= old(self).pods_map().dom());
                    assert(final(self).events() =~= old(self).events().push(
                        ev_add(pod_uid@, final(self).pods_map()[pod_uid@]),
                    ));
                    if events_dominated(old(self).pods_map(), old(self).events()) {
                        lemma_events_dominated_commit(
                            old(self).pods_map(),
                            old(self).events(),
                            pod_uid@,
                            final(self).pods_map()[pod_uid@],
                        );
                    }
                }
            },
            None => {},
        }
    }

    /// Dispatch one lifecycle notification.
    pub fn state_change(
        &mut self,
        event: PodLifecycleEvent,
        pod: &PodDesc,
        container: Option<&ContainerDesc>,
    )
        requires
            old(self).wf(),
        ensures
            final(self).wf(),
            final(self).cfg_spec() == old(self).cfg_spec(),
            event == PodLifecycleEvent::RunPodSandbox ==> new_pod_post(
                *old(self),
                *final(self),
                pod.uid@,
            ),
            event == PodLifecycleEvent::RemovePodSandbox ==> remove_pod_post(
                *old(self),
                *final(self),
                pod.uid@,
            ),
            event == PodLifecycleEvent::RemoveContainer ==> match container {
                Some(c) => remove_container_post(*old(self), *final(self), pod.uid@, c.id@),
                None => *final(self) == *old(self),
            },
            events_dominated(old(self).pods_map(), old(self).events()) ==> events_dominated(
                final(self).pods_map(),
                final(self).events(),
            ),
    {
        match event {
            PodLifecycleEvent::RunPodSandbox => {
                self.handle_new_pod(&pod.uid);
            },
            PodLifecycleEvent::RemovePodSandbox => {
                self.remove_pod(&pod.uid);
            },
            PodLifecycleEvent::RemoveContainer => {
                if let Some(c) = container {
                    self.remove_container(&pod.uid, &c.id);
                }
            },
        }
    }
}

impl ContainerState {
    /// A field-equal copy.
    fn clone_state(&self) -> (r: ContainerState)
        ensures
            r == *self,
    {
        ContainerState {
            pod_uid: self.pod_uid.clone(),
            cgroup_path: self.cgroup_path.clone(),
            state: self.state,
        }
    }
}

impl<P: FsProvider, S: CgroupPidSource> ResctrlPlugin<P, S> {
    /// Borrow the resctrl handle, for read-only inspection.
    pub fn resctrl_ref(&self) -> (r: &Resctrl<P>)
        ensures
            r.fs() == self.fs(),
    {
        &self.resctrl
    }

    /// Borrow the resctrl handle mutably; the plugin's own state — pods,
    /// containers, events, configuration — is untouched.
    pub fn resctrl_mut(&mut self) -> (r: &mut Resctrl<P>)
        ensures
            *r == old(self).resctrl_spec(),
            final(self).resctrl_spec() == *final(r),
            final(self).pods_map() == old(self).pods_map(),
            final(self).containers_map() == old(self).containers_map(),
            final(self).events() == old(self).events(),
            final(self).cfg_spec() == old(self).cfg_spec(),
            final(self).wf() == old(self).wf(),
            final(self).fs() == final(r).fs(),
    {
        &mut self.resctrl
    }

    /// Track a new container. A duplicate is ignored; one observed before
    /// its pod stays `NoPod` and counts for nothing; under a failed group it
    /// is `Partial`; under a live group its pids are reconciled into the
    /// group and it becomes `Reconciled` exactly when none were missing.
    pub fn handle_new_container(&mut self, pod: &PodDesc, container: &ContainerDesc)
        requires
            old(self).wf(),
        ensures
            final(self).wf(),
            final(self).cfg_spec() == old(self).cfg_spec(),
            final(self).fs().dirs == old(self).fs().dirs,
            final(self).resctrl_spec().root_spec() == old(self).resctrl_spec().root_spec(),
            final(self).resctrl_spec().prefix_spec() == old(self).resctrl_spec().prefix_spec(),
            events_dominated(old(self).pods_map(), old(self).events()) ==> events_dominated(
                final(self).pods_map(),
                final(self).events(),
            ),
            old(self).containers_map().contains_key(container.id@) ==> *final(self) == *old(
                self,
            ),
            // a failed group leaves the filesystem untouched; a live group
            // sees at most its own tasks file change, and only by growing
            !old(self).containers_map().contains_key(container.id@) && old(
                self,
            ).pods_map().contains_key(pod.uid@) && old(
                self,
            ).pods_map()[pod.uid@].group is None ==> final(self).fs() == old(self).fs(),
            (!old(self).containers_map().contains_key(container.id@) && old(
                self,
            ).pods_map().contains_key(pod.uid@) && old(
                self,
            ).pods_map()[pod.uid@].group is Some) ==> crate::resctrl::files_same_but(
                final(self).fs(),
                old(self).fs(),
                crate::resctrl::Resctrl::<P>::tasks_path_spec(
                    old(self).pods_map()[pod.uid@].group.unwrap(),
                ),
            ) && crate::resctrl::file_tasks_set(
                old(self).fs(),
                crate::resctrl::Resctrl::<P>::tasks_path_spec(
                    old(self).pods_map()[pod.uid@].group.unwrap(),
                ),
            ).subset_of(
                crate::resctrl::file_tasks_set(
                    final(self).fs(),
                    crate::resctrl::Resctrl::<P>::tasks_path_spec(
                        old(self).pods_map()[pod.uid@].group.unwrap(),
                    ),
                ),
            ),
            !old(self).containers_map().contains_key(container.id@) && !old(
                self,
            ).pods_map().contains_key(pod.uid@) ==> {
                &&& final(self).containers_map() == old(self).containers_map().insert(
                    container.id@,
                    ContainerView {
                        pod_uid: pod.uid@,
                        cgroup: full_cgroup_path_spec(container.cgroups_path@, Seq::empty()),
                        state: ContainerSyncState::NoPod,
                    },
                )
                &&& final(self).pods_map() == old(self).pods_map()
                &&& final(self).events() == old(self).events()
                &&& final(self).fs() == old(self).fs()
            },
            !old(self).containers_map().contains_key(container.id@) && old(
                self,
            ).pods_map().contains_key(pod.uid@) ==> {
                let pre = old(self).pods_map()[pod.uid@];
                exists|st: ContainerSyncState|
                    {
                        let post = PodView {
                            group: pre.group,
                            total: if pre.total < usize::MAX {
                                pre.total + 1
                            } else {
                                pre.total
                            },
                            reconciled: if st == ContainerSyncState::Reconciled && pre.reconciled
                                < usize::MAX {
                                pre.reconciled + 1
                            } else {
                                pre.reconciled
                            },
                        };
                        &&& (#[trigger] sync_ok(st)) != ContainerSyncState::NoPod
                        &&& (pre.group is None ==> st == ContainerSyncState::Partial)
                        &&& final(self).containers_map() == old(self).containers_map().insert(
                            container.id@,
                            ContainerView {
                                pod_uid: pod.uid@,
                                cgroup: full_cgroup_path_spec(
                                    container.cgroups_path@,
                                    pod.cgroup_parent@,
                                ),
                                state: st,
                            },
                        )
                        &&& final(self).pods_map() == old(self).pods_map().insert(pod.uid@, post)
                        &&& final(self).events() == old(self).events().push(
                            ev_add(pod.uid@, post),
                        )
                    }
            },
    {
        if kv_find(&self.containers, &container.id).is_some() {
            // duplicate create for a known container: ignore
            return ;
        }
        let pod_idx = kv_find(&self.pods, &pod.uid);
        match pod_idx {
            None => {
                let full = compute_full_cgroup_path(container, None);
                let cs = ContainerState {
                    pod_uid: pod.uid.clone(),
                    cgroup_path: full,
                    state: ContainerSyncState::NoPod,
                };
                proof {
                    lemma_kv_push(self.containers@, container.id, cs);
                }
                self.containers.push((container.id.clone(), cs.clone_state()));
                proof {
                    assert(self.containers@ =~= old(self).containers@.push((container.id, cs)));
                    assert(final(self).containers_map() =~= old(self).containers_map().insert(
                        container.id@,
                        container_view(cs),
                    ));
                }
            },
            Some(i) => {
                proof {
                    lemma_kv_index(self.pods@, i as int);
                }
                let gp_opt: Option<String> = match &self.pods[i].1.group_state {
                    ResctrlGroupState::Exists(p) => Some(p.clone()),
                    ResctrlGroupState::Failed => None,
                };
                let full = compute_full_cgroup_path(container, Some(pod));
                let st: ContainerSyncState = match gp_opt {
                    None => ContainerSyncState::Partial,
                    Some(gp) => {
                        let passes = if self.cfg.max_reconcile_passes >= 1 {
                            self.cfg.max_reconcile_passes
                        } else {
                            1
                        };
                        let res = self.resctrl.reconcile_group(
                            &gp,
                            &self.pid_source,
                            &full,
                            passes,
                        );
                        match res {
                            Ok((rep, _)) => container_state_from_report(&rep),
                            Err(_) => ContainerSyncState::Partial,
                        }
                    },
                };
                self.commit_new_container(&pod.uid, &container.id, full, st);
                proof {
                    assert(sync_ok(st) == st);
                    assert(final(self).pods_map() =~= old(self).pods_map().insert(
                        pod.uid@,
                        final(self).pods_map()[pod.uid@],
                    ));
                }
            },
        }
    }

    /// Commit a counted container under its tracked pod: store it with the
    /// sync state the reconcile outcome decided, raise the totals — and the
    /// reconciled count exactly when it reconciled — and emit the pod's new
    /// state. Exact for each value of `sync`; the filesystem is not
    /// touched here.
    pub fn commit_new_container(
        &mut self,
        pod_uid: &String,
        container_id: &String,
        cgroup_path: String,
        sync: ContainerSyncState,
    )
        requires
            old(self).wf(),
            !old(self).containers_map().contains_key(container_id@),
            old(self).pods_map().contains_key(pod_uid@),
            sync != ContainerSyncState::NoPod,
            sync == ContainerSyncState::Reconciled ==> old(
                self,
            ).pods_map()[pod_uid@].group is Some,
        ensures
            final(self).wf(),
            final(self).cfg_spec() == old(self).cfg_spec(),
            final(self).fs() == old(self).fs(),
            final(self).resctrl_spec() == old(self).resctrl_spec(),
            final(self).containers_map() == old(self).containers_map().insert(
                container_id@,
                ContainerView { pod_uid: pod_uid@, cgroup: cgroup_path@, state: sync },
            ),
            final(self).pods_map() == old(self).pods_map().insert(
                pod_uid@,
                counted_pod_view(old(self).pods_map()[pod_uid@], sync),
            ),
            final(self).events() == old(self).events().push(
                ev_add(pod_uid@, counted_pod_view(old(self).pods_map()[pod_uid@], sync)),
            ),
            events_dominated(old(self).pods_map(), old(self).events()) ==> events_dominated(
                final(self).pods_map(),
                final(self).events(),
            ),
    {
        let i = match kv_find(&self.pods, pod_uid) {
            Some(i) => i,
            None => {
                proof {
                    assert(false);
                }
                return ;
            },
        };
        proof {
            lemma_kv_index(self.pods@, i as int);
        }
        let cs = ContainerState {
            pod_uid: pod_uid.clone(),
            cgroup_path,
            state: sync,
        };
        proof {
            lemma_kv_push(self.containers@, *container_id, cs);
        }
        self.containers.push((container_id.clone(), cs.clone_state()));
        let (key, mut ps) = self.pods.remove(i);
        proof {
            lemma_kv_remove(old(self).pods@, i as int);
        }
        ps.total_containers = if ps.total_containers < usize::MAX {
            ps.total_containers + 1
        } else {
            ps.total_containers
        };
        if sync == ContainerSyncState::Reconciled {
            ps.reconciled_containers = if ps.reconciled_containers < usize::MAX {
                ps.reconciled_containers + 1
            } else {
                ps.reconciled_containers
            };
        }
        let ev = PodResctrlEvent::AddOrUpdate(
            PodResctrlAddOrUpdate {
                pod_uid: pod_uid.clone(),
                group_state: ps.group_state.clone(),
                total_containers: ps.total_containers,
                reconciled_containers: ps.reconciled_containers,
            },
        );
        proof {
            assert(!kv_map(self.pods@).contains_key(key@));
            lemma_kv_push(self.pods@, key, ps);
        }
        self.pods.push((key, ps));
        self.outbox.push(ev);
        proof {
            assert(final(self).containers_map() =~= old(self).containers_map().insert(
                container_id@,
                container_view(cs),
            ));
            assert(pod_view(final(self).pods@.last().1) == counted_pod_view(
                old(self).pods_map()[pod_uid@],
                sync,
            ));
            assert(final(self).pods_map() =~= old(self).pods_map().insert(
                pod_uid@,
                counted_pod_view(old(self).pods_map()[pod_uid@], sync),
            ));
            assert(final(self).events() =~= old(self).events().push(
                ev_add(pod_uid@, counted_pod_view(old(self).pods_map()[pod_uid@], sync)),
            ));
            if events_dominated(old(self).pods_map(), old(self).events()) {
                lemma_events_dominated_commit(
                    old(self).pods_map(),
                    old(self).events(),
                    pod_uid@,
                    counted_pod_view(old(self).pods_map()[pod_uid@], sync),
                );
            }
        }
    }

    /// Try to create the group of a pod currently `Failed`; a pod that is
    /// already live reports its path unchanged, without an event.
    pub fn retry_group_creation(&mut self, pod_uid: &String) -> (r: Result<
        ResctrlGroupState,
        PluginError,
    >)
        requires
            old(self).wf(),
        ensures
            final(self).wf(),
            final(self).cfg_spec() == old(self).cfg_spec(),
            final(self).containers_map() == old(self).containers_map(),
            events_dominated(old(self).pods_map(), old(self).events()) ==> events_dominated(
                final(self).pods_map(),
                final(self).events(),
            ),
            !old(self).pods_map().contains_key(pod_uid@) ==> r == Result::<
                ResctrlGroupState,
                PluginError,
            >::Err(PluginError::PodNotFound) && *final(self) == *old(self),
            old(self).pods_map().contains_key(pod_uid@) && old(
                self,
            ).pods_map()[pod_uid@].group is Some ==> {
                &&& *final(self) == *old(self)
                &&& r matches Ok(g) && (g matches ResctrlGroupState::Exists(p) && p@ == old(
                    self,
                ).pods_map()[pod_uid@].group.unwrap())
            },
            old(self).pods_map().contains_key(pod_uid@) && old(
                self,
            ).pods_map()[pod_uid@].group is None ==> {
                let pre = old(self).pods_map()[pod_uid@];
                match r {
                    Ok(g) => exists|p: Seq<char>|
                        {
                            let post = PodView {
                                group: Some(p),
                                total: pre.total,
                                reconciled: pre.reconciled,
                            };
                            &&& #[trigger] group_ok(Some(p)) is Some
                            &&& p == old(self).resctrl_spec().group_path_spec(pod_uid@)
                            &&& (g matches ResctrlGroupState::Exists(q) && q@ == p)
                            &&& final(self).pods_map() == old(self).pods_map().insert(
                                pod_uid@,
                                post,
                            )
                            &&& final(self).events() == old(self).events().push(
                                ev_add(pod_uid@, post),
                            )
                        },
                    Err(e) => {
                        &&& final(self).pods_map() == old(self).pods_map()
                        &&& final(self).events() == old(self).events()
                        &&& final(self).fs() == old(self).fs()
                        &&& (e == PluginError::Resctrl(ResctrlError::Capacity) || e
                            == PluginError::Resctrl(ResctrlError::Io))
                    },
                }
            },
    {
        let i = match kv_find(&self.pods, pod_uid) {
            Some(i) => i,
            None => {
                return Err(PluginError::PodNotFound);
            },
        };
        proof {
            lemma_kv_index(self.pods@, i as int);
        }
        match &self.pods[i].1.group_state {
            ResctrlGroupState::Exists(p) => {
                let path = p.clone();
                return Ok(ResctrlGroupState::Exists(path));
            },
            ResctrlGroupState::Failed => {},
        }
        match self.resctrl.create_group(pod_uid) {
            Ok(path) => {
                let (key, mut ps) = self.pods.remove(i);
                proof {
                    lemma_kv_remove(old(self).pods@, i as int);
                }
                ps.group_state = ResctrlGroupState::Exists(path.clone());
                let ev = PodResctrlEvent::AddOrUpdate(
                    PodResctrlAddOrUpdate {
                        pod_uid: pod_uid.clone(),
                        group_state: ps.group_state.clone(),
                        total_containers: ps.total_containers,
                        reconciled_containers: ps.reconciled_containers,
                    },
                );
                proof {
                    assert(!kv_map(self.pods@).contains_key(key@));
                    lemma_kv_push(self.pods@, key, ps);
                }
                self.pods.push((key, ps));
                self.outbox.push(ev);
                proof {
                    let post = pod_view(final(self).pods@.last().1);
                    assert(group_ok(post.group) is Some);
                    assert(final(self).pods_map() =~= old(self).pods_map().insert(
                        pod_uid@,
                        post,
                    ));
                    assert(final(self).events() =~= old(self).events().push(
                        ev_add(pod_uid@, post),
                    ));
                    if events_dominated(old(self).pods_map(), old(self).events()) {
                        lemma_events_dominated_commit(
                            old(self).pods_map(),
                            old(self).events(),
                            pod_uid@,
                            post,
                        );
                    }
                }
                Ok(ResctrlGroupState::Exists(path))
            },
            Err(ResctrlError::Capacity) => Err(PluginError::Resctrl(ResctrlError::Capacity)),
            Err(_) => Err(PluginError::Resctrl(ResctrlError::Io)),
        }
    }
}

impl<P: FsProvider, S: CgroupPidSource> ResctrlPlugin<P, S> {
    /// Retry reconciling a single container. Only a `Partial` container can
    /// move to `Reconciled` — never the other way — and an event is emitted
    /// only on that transition; a container already `Reconciled` returns
    /// `Reconciled` and emits nothing.
    pub fn retry_container_reconcile(&mut self, container_id: &String) -> (r: Result<
        ContainerSyncState,
        PluginError,
    >)
        requires
            old(self).wf(),
        ensures
            final(self).wf(),
            final(self).cfg_spec() == old(self).cfg_spec(),
            events_dominated(old(self).pods_map(), old(self).events()) ==> events_dominated(
                final(self).pods_map(),
                final(self).events(),
            ),
            !old(self).containers_map().contains_key(container_id@) ==> r == Result::<
                ContainerSyncState,
                PluginError,
            >::Err(PluginError::ContainerNotFound) && *final(self) == *old(self),
            old(self).containers_map().contains_key(container_id@) && old(
                self,
            ).containers_map()[container_id@].state == ContainerSyncState::NoPod ==> r
                == Result::<ContainerSyncState, PluginError>::Ok(ContainerSyncState::NoPod)
                && *final(self) == *old(self),
            // no regression, and silence off the one transition
            old(self).containers_map().contains_key(container_id@) && old(
                self,
            ).containers_map()[container_id@].state == ContainerSyncState::Reconciled ==> {
                &&& final(self).containers_map() == old(self).containers_map()
                &&& final(self).pods_map() == old(self).pods_map()
                &&& final(self).events() == old(self).events()
                &&& (r is Ok ==> r == Result::<ContainerSyncState, PluginError>::Ok(
                    ContainerSyncState::Reconciled,
                ))
                &&& (r matches Err(e) ==> (e == PluginError::PodNotFound || e matches
                    PluginError::Resctrl(_)))
            },
            old(self).containers_map().contains_key(container_id@) && old(
                self,
            ).containers_map()[container_id@].state == ContainerSyncState::Partial ==> {
                let c = old(self).containers_map()[container_id@];
                &&& !old(self).pods_map().contains_key(c.pod_uid) ==> r == Result::<
                    ContainerSyncState,
                    PluginError,
                >::Err(PluginError::PodNotFound) && *final(self) == *old(self)
                &&& old(self).pods_map().contains_key(c.pod_uid) && old(
                    self,
                ).pods_map()[c.pod_uid].group is None ==> r == Result::<
                    ContainerSyncState,
                    PluginError,
                >::Ok(ContainerSyncState::Partial) && *final(self) == *old(self)
                &&& old(self).pods_map().contains_key(c.pod_uid) && old(
                    self,
                ).pods_map()[c.pod_uid].group is Some ==> {
                    let pre = old(self).pods_map()[c.pod_uid];
                    // whatever the reconcile outcome, only the group's own
                    // tasks file changes, and only by growing
                    &&& crate::resctrl::files_same_but(
                        final(self).fs(),
                        old(self).fs(),
                        crate::resctrl::Resctrl::<P>::tasks_path_spec(pre.group.unwrap()),
                    )
                    &&& crate::resctrl::file_tasks_set(
                        old(self).fs(),
                        crate::resctrl::Resctrl::<P>::tasks_path_spec(pre.group.unwrap()),
                    ).subset_of(
                        crate::resctrl::file_tasks_set(
                            final(self).fs(),
                            crate::resctrl::Resctrl::<P>::tasks_path_spec(pre.group.unwrap()),
                        ),
                    )
                    &&& match r {
                        Ok(st) => {
                            ||| (st == ContainerSyncState::Partial
                                && final(self).containers_map() == old(self).containers_map()
                                && final(self).pods_map() == old(self).pods_map()
                                && final(self).events() == old(self).events())
                            ||| (st == ContainerSyncState::Reconciled && {
                                let post = PodView {
                                    group: pre.group,
                                    total: pre.total,
                                    reconciled: if pre.reconciled < pre.total {
                                        pre.reconciled + 1
                                    } else {
                                        pre.reconciled
                                    },
                                };
                                &&& final(self).containers_map()
                                    == old(self).containers_map().insert(
                                    container_id@,
                                    ContainerView {
                                        pod_uid: c.pod_uid,
                                        cgroup: c.cgroup,
                                        state: ContainerSyncState::Reconciled,
                                    },
                                )
                                &&& final(self).pods_map() == old(self).pods_map().insert(
                                    c.pod_uid,
                                    post,
                                )
                                &&& final(self).events() == old(self).events().push(
                                    ev_add(c.pod_uid, post),
                                )
                            })
                        },
                        Err(e) => final(self).containers_map() == old(self).containers_map()
                            && final(self).pods_map() == old(self).pods_map()
                            && final(self).events() == old(self).events() && e matches
                            PluginError::Resctrl(_),
                    }
                }
            },
    {
        let ci = match kv_find(&self.containers, container_id) {
            Some(i) => i,
            None => {
                return Err(PluginError::ContainerNotFound);
            },
        };
        proof {
            lemma_kv_index(self.containers@, ci as int);
        }
        match self.containers[ci].1.state {
            ContainerSyncState::NoPod => {
                return Ok(ContainerSyncState::NoPod);
            },
            _ => {},
        }
        let pod_uid = self.containers[ci].1.pod_uid.clone();
        let cgroup = self.containers[ci].1.cgroup_path.clone();
        let was_reconciled = match self.containers[ci].1.state {
            ContainerSyncState::Reconciled => true,
            _ => false,
        };
        let pi = match kv_find(&self.pods, &pod_uid) {
            Some(i) => i,
            None => {
                return Err(PluginError::PodNotFound);
            },
        };
        proof {
            lemma_kv_index(self.pods@, pi as int);
        }
        let gp = match &self.pods[pi].1.group_state {
            ResctrlGroupState::Exists(p) => p.clone(),
            ResctrlGroupState::Failed => {
                let st = self.containers[ci].1.state;
                return Ok(st);
            },
        };
        let passes = if self.cfg.max_reconcile_passes >= 1 {
            self.cfg.max_reconcile_passes
        } else {
            1
        };
        let res = self.resctrl.reconcile_group(&gp, &self.pid_source, &cgroup, passes);
        let rep = match res {
            Ok((rep, _)) => rep,
            Err(e) => {
                return Err(PluginError::Resctrl(e));
            },
        };
        let outcome = container_state_from_report(&rep);
        if was_reconciled {
            return Ok(ContainerSyncState::Reconciled);
        }
        match outcome {
            ContainerSyncState::Reconciled => {},
            _ => {
                return Ok(ContainerSyncState::Partial);
            },
        }
        // the one transition: Partial becomes Reconciled
        let (ckey, mut cs) = self.containers.remove(ci);
        proof {
            lemma_kv_remove(old(self).containers@, ci as int);
        }
        cs.state = ContainerSyncState::Reconciled;
        proof {
            assert(!kv_map(self.containers@).contains_key(ckey@));
            lemma_kv_push(self.containers@, ckey, cs);
        }
        self.containers.push((ckey, cs));
        let (pkey, mut ps) = self.pods.remove(pi);
        proof {
            lemma_kv_remove(old(self).pods@, pi as int);
        }
        if ps.reconciled_containers < ps.total_containers {
            ps.reconciled_containers = ps.reconciled_containers + 1;
        }
        let ev = PodResctrlEvent::AddOrUpdate(
            PodResctrlAddOrUpdate {
                pod_uid: pod_uid.clone(),
                group_state: ps.group_state.clone(),
                total_containers: ps.total_containers,
                reconciled_containers: ps.reconciled_containers,
            },
        );
        proof {
            assert(!kv_map(self.pods@).contains_key(pkey@));
            lemma_kv_push(self.pods@, pkey, ps);
        }
        self.pods.push((pkey, ps));
        self.outbox.push(ev);
        proof {
            let post = pod_view(final(self).pods@.last().1);
            assert(final(self).containers_map() =~= old(self).containers_map().insert(
                container_id@,
                container_view(final(self).containers@.last().1),
            ));
            assert(final(self).pods_map() =~= old(self).pods_map().insert(pod_uid@, post));
            assert(final(self).events() =~= old(self).events().push(ev_add(pod_uid@, post)));
            if events_dominated(old(self).pods_map(), old(self).events()) {
                lemma_events_dominated_commit(old(self).pods_map(), old(self).events(), pod_uid@, post);
            }
        }
        Ok(ContainerSyncState::Reconciled)
    }
}

impl<P: FsProvider, S: CgroupPidSource> ResctrlPlugin<P, S> {
    /// One retry sweep: group creation for every failed pod — stopping
    /// those at the first capacity error, since further attempts must fail
    /// until something frees capacity — then reconcile for every partial
    /// container. Pods and containers that vanished mid-pass are skipped.
    /// Counts never decrease and no pod or container is added or removed.
    pub fn retry_all_once(&mut self) -> (r: Result<(), PluginError>)
        requires
            old(self).wf(),
        ensures
            final(self).wf(),
            final(self).cfg_spec() == old(self).cfg_spec(),
            final(self).pods_map().dom() == old(self).pods_map().dom(),
            final(self).containers_map().dom() == old(self).containers_map().dom(),
            forall|uid: Seq<char>|
                #[trigger] old(self).pods_map().contains_key(uid)
                    ==> final(self).pods_map()[uid].total == old(self).pods_map()[uid].total
                    && final(self).pods_map()[uid].reconciled
                    >= old(self).pods_map()[uid].reconciled && (old(
                    self,
                ).pods_map()[uid].group is Some ==> final(self).pods_map()[uid].group == old(
                    self,
                ).pods_map()[uid].group),
            old(self).events().is_prefix_of(final(self).events()),
            events_dominated(old(self).pods_map(), old(self).events()) ==> events_dominated(
                final(self).pods_map(),
                final(self).events(),
            ),
            // a vanished pod or container is skipped, never an error
            r matches Err(e) ==> e matches PluginError::Resctrl(_),
            // with no failed pod and no partial container there is nothing
            // to retry: no state moves and no event is emitted
            no_retry_work(*old(self)) ==> r is Ok && final(self).pods_map() == old(
                self,
            ).pods_map() && final(self).containers_map() == old(self).containers_map()
                && final(self).events() == old(self).events() && final(self).fs() == old(
                self,
            ).fs(),
    {
        // snapshot under commit: the uids of failed pods, in table order
        let mut failed: Vec<String> = Vec::new();
        let np = self.pods.len();
        let mut i: usize = 0;
        while i < np
            invariant
                i <= np,
                np == self.pods@.len(),
                *self == *old(self),
                old(self).wf(),
                no_retry_work(*old(self)) ==> failed@.len() == 0,
            decreases np - i,
        {
            match &self.pods[i].1.group_state {
                ResctrlGroupState::Failed => {
                    proof {
                        if no_retry_work(*old(self)) {
                            lemma_kv_index(self.pods@, i as int);
                            assert(self.pods_map().contains_key(self.pods@[i as int].0@));
                            assert(self.pods_map()[self.pods@[i as int].0@].group is None);
                        }
                    }
                    failed.push(self.pods[i].0.clone());
                },
                _ => {},
            }
            i += 1;
        }
        let mut partial: Vec<String> = Vec::new();
        let nc = self.containers.len();
        let mut j: usize = 0;
        while j < nc
            invariant
                j <= nc,
                nc == self.containers@.len(),
                *self == *old(self),
                old(self).wf(),
                no_retry_work(*old(self)) ==> failed@.len() == 0 && partial@.len() == 0,
            decreases nc - j,
        {
            match self.containers[j].1.state {
                ContainerSyncState::Partial => {
                    proof {
                        if no_retry_work(*old(self)) {
                            lemma_kv_index(self.containers@, j as int);
                            assert(self.containers_map().contains_key(
                                self.containers@[j as int].0@,
                            ));
                        }
                    }
                    partial.push(self.containers[j].0.clone());
                },
                _ => {},
            }
            j += 1;
        }
        // retry group creation, stopping at the first capacity error
        let nf = failed.len();
        let mut k: usize = 0;
        while k < nf
            invariant
                k <= nf,
                nf == failed@.len(),
                self.wf(),
                self.cfg_spec() == old(self).cfg_spec(),
                self.pods_map().dom() == old(self).pods_map().dom(),
                self.containers_map() == old(self).containers_map(),
                forall|uid: Seq<char>|
                    #[trigger] old(self).pods_map().contains_key(uid) ==> self
                        .pods_map()[uid].total == old(self).pods_map()[uid].total && self
                        .pods_map()[uid].reconciled >= old(self).pods_map()[uid].reconciled
                        && (old(self).pods_map()[uid].group is Some ==> self
                        .pods_map()[uid].group == old(self).pods_map()[uid].group),
                old(self).events().is_prefix_of(self.events()),
                events_dominated(old(self).pods_map(), old(self).events())
                    ==> events_dominated(self.pods_map(), self.events()),
                no_retry_work(*old(self)) ==> nf == 0 && *self == *old(self),
            decreases nf - k,
        {
            proof {
                if no_retry_work(*old(self)) {
                    assert(false);
                }
            }
            let pre = Ghost(*self);
            match self.retry_group_creation(&failed[k]) {
                Err(PluginError::Resctrl(ResctrlError::Capacity)) => {
                    proof {
                        lemma_retry_step(pre@, *self, old(self), failed@[k as int]@);
                    }
                    k = nf;
                },
                Err(PluginError::PodNotFound) => {
                    proof {
                        lemma_retry_step(pre@, *self, old(self), failed@[k as int]@);
                    }
                    k += 1;
                },
                Err(e) => {
                    proof {
                        lemma_retry_step(pre@, *self, old(self), failed@[k as int]@);
                        assert(e matches PluginError::Resctrl(_));
                    }
                    return Err(e);
                },
                Ok(_) => {
                    proof {
                        lemma_retry_step(pre@, *self, old(self), failed@[k as int]@);
                    }
                    k += 1;
                },
            }
        }
        // reconcile partial containers unconditionally
        let npt = partial.len();
        let mut m: usize = 0;
        while m < npt
            invariant
                m <= npt,
                npt == partial@.len(),
                self.wf(),
                self.cfg_spec() == old(self).cfg_spec(),
                self.pods_map().dom() == old(self).pods_map().dom(),
                self.containers_map().dom() == old(self).containers_map().dom(),
                forall|uid: Seq<char>|
                    #[trigger] old(self).pods_map().contains_key(uid) ==> self
                        .pods_map()[uid].total == old(self).pods_map()[uid].total && self
                        .pods_map()[uid].reconciled >= old(self).pods_map()[uid].reconciled
                        && (old(self).pods_map()[uid].group is Some ==> self
                        .pods_map()[uid].group == old(self).pods_map()[uid].group),
                old(self).events().is_prefix_of(self.events()),
                events_dominated(old(self).pods_map(), old(self).events())
                    ==> events_dominated(self.pods_map(), self.events()),
                no_retry_work(*old(self)) ==> npt == 0 && *self == *old(self),
            decreases npt - m,
        {
            proof {
                if no_retry_work(*old(self)) {
                    assert(false);
                }
            }
            let pre = Ghost(*self);
            match self.retry_container_reconcile(&partial[m]) {
                Ok(_) => {
                    proof {
                        lemma_reconcile_step(pre@, *self, old(self), partial@[m as int]@);
                    }
                },
                Err(PluginError::ContainerNotFound) | Err(PluginError::PodNotFound) => {
                    proof {
                        lemma_reconcile_step(pre@, *self, old(self), partial@[m as int]@);
                    }
                },
                Err(e) => {
                    proof {
                        lemma_reconcile_step(pre@, *self, old(self), partial@[m as int]@);
                        assert(e matches PluginError::Resctrl(_));
                    }
                    return Err(e);
                },
            }
            m += 1;
        }
        Ok(())
    }

    /// Startup synchronize: mount and clean up per configuration — neither
    /// emits events — then adopt every pod, then every container whose pod
    /// is in the delivered set, in order.
    pub fn synchronize(&mut self, pods: &Vec<PodDesc>, containers: &Vec<ContainerDesc>) -> (r:
        Option<crate::resctrl::CleanupReport>)
        requires
            old(self).wf(),
        ensures
            // a clean cleanup report means every stale group whose base
            // existed is gone, unless a delivered pod re-created it
            (r matches Some(rep) && rep.removal_failures == 0 && rep.removal_race == 0)
                ==> forall|d: Seq<char>|
                old(self).fs().dirs.contains(d) && #[trigger] crate::resctrl::cleanup_target(
                    d,
                    old(self).resctrl_spec().root_spec(),
                    old(self).resctrl_spec().prefix_spec(),
                ) && old(self).fs().dirs.contains(
                    crate::resctrl::target_base(d, old(self).resctrl_spec().root_spec()),
                ) ==> !final(self).fs().dirs.contains(d) || (exists|i: int|
                    0 <= i < pods@.len() && d == old(self).resctrl_spec().group_path_spec(
                        (#[trigger] pods@[i]).uid@,
                    )),
            final(self).wf(),
            final(self).cfg_spec() == old(self).cfg_spec(),
            old(self).events().is_prefix_of(final(self).events()),
            events_dominated(old(self).pods_map(), old(self).events()) ==> events_dominated(
                final(self).pods_map(),
                final(self).events(),
            ),
            // every delivered pod is tracked afterwards
            forall|i: int|
                0 <= i < pods@.len() ==> final(self).pods_map().contains_key(
                    (#[trigger] pods@[i]).uid@,
                ),
            // the startup cleanup only ever removes this agent's own groups
            forall|d: Seq<char>|
                old(self).fs().dirs.contains(d) && !(#[trigger] final(self).fs().dirs.contains(
                    d,
                )) ==> crate::resctrl::cleanup_target(
                    d,
                    old(self).resctrl_spec().root_spec(),
                    old(self).resctrl_spec().prefix_spec(),
                ),
            // with nothing delivered, mounting and cleanup emit no events
            // and commit no pod or container state
            pods@.len() == 0 && containers@.len() == 0 ==> final(self).pods_map() == old(
                self,
            ).pods_map() && final(self).containers_map() == old(self).containers_map()
                && final(self).events() == old(self).events(),
    {
        let root0 = Ghost(self.resctrl_spec().root_spec());
        let prefix0 = Ghost(self.resctrl_spec().prefix_spec());
        let auto = self.cfg.auto_mount;
        let mounted_ok = match self.resctrl.ensure_mounted(auto) {
            Ok(()) => true,
            Err(_) => false,
        };
        proof {
            assert(old(self).fs().dirs.subset_of(self.fs().dirs));
        }
        let mut cleanup_report: Option<crate::resctrl::CleanupReport> = None;
        if self.cfg.cleanup_on_start && mounted_ok {
            let mid = Ghost(self.fs());
            match self.resctrl.cleanup_all() {
                Ok(rep) => {
                    cleanup_report = Some(rep);
                },
                Err(_) => {},
            }
            proof {
                assert forall|d: Seq<char>|
                    old(self).fs().dirs.contains(d) && !(#[trigger] self.fs().dirs.contains(
                        d,
                    )) implies crate::resctrl::cleanup_target(d, root0@, prefix0@) by {
                    assert(mid@.dirs.contains(d));
                }
                if cleanup_report matches Some(rep) && rep.removal_failures == 0
                    && rep.removal_race == 0 {
                    assert forall|d: Seq<char>|
                        old(self).fs().dirs.contains(d)
                            && #[trigger] crate::resctrl::cleanup_target(d, root0@, prefix0@)
                            && old(self).fs().dirs.contains(
                            crate::resctrl::target_base(d, root0@),
                        ) implies !self.fs().dirs.contains(d) by {
                        assert(mid@.dirs.contains(d));
                        assert(mid@.dirs.contains(crate::resctrl::target_base(d, root0@)));
                    }
                }
            }
        }
        proof {
            lemma_prefix_refl(self.events());
        }
        let np = pods.len();
        let mut i: usize = 0;
        while i < np
            invariant
                i <= np,
                np == pods@.len(),
                self.wf(),
                self.cfg_spec() == old(self).cfg_spec(),
                root0@ == self.resctrl_spec().root_spec(),
                prefix0@ == self.resctrl_spec().prefix_spec(),
                root0@ == old(self).resctrl_spec().root_spec(),
                prefix0@ == old(self).resctrl_spec().prefix_spec(),
                old(self).events().is_prefix_of(self.events()),
                events_dominated(old(self).pods_map(), old(self).events())
                    ==> events_dominated(self.pods_map(), self.events()),
                forall|j: int|
                    0 <= j < i ==> self.pods_map().contains_key((#[trigger] pods@[j]).uid@),
                forall|d: Seq<char>|
                    old(self).fs().dirs.contains(d) && !(#[trigger] self.fs().dirs.contains(d))
                        ==> crate::resctrl::cleanup_target(d, root0@, prefix0@),
                (cleanup_report matches Some(rep) && rep.removal_failures == 0
                    && rep.removal_race == 0) ==> forall|d: Seq<char>|
                    old(self).fs().dirs.contains(d)
                        && #[trigger] crate::resctrl::cleanup_target(d, root0@, prefix0@)
                        && old(self).fs().dirs.contains(
                        crate::resctrl::target_base(d, root0@),
                    ) ==> !self.fs().dirs.contains(d) || (exists|i2: int|
                        0 <= i2 < pods@.len() && d == old(self).resctrl_spec().group_path_spec(
                            (#[trigger] pods@[i2]).uid@,
                        )),
                pods@.len() == 0 && containers@.len() == 0 ==> self.pods_map() == old(
                    self,
                ).pods_map() && self.containers_map() == old(self).containers_map()
                    && self.events() == old(self).events(),
            decreases np - i,
        {
            proof {
                if pods@.len() == 0 && containers@.len() == 0 {
                    assert(false);
                }
            }
            let pre = Ghost(*self);
            self.handle_new_pod(&pods[i].uid);
            proof {
                lemma_prefix_step(old(self).events(), pre@.events(), self.events());
                if cleanup_report matches Some(rep) && rep.removal_failures == 0
                    && rep.removal_race == 0 {
                    assert forall|d: Seq<char>|
                        old(self).fs().dirs.contains(d)
                            && #[trigger] crate::resctrl::cleanup_target(d, root0@, prefix0@)
                            && old(self).fs().dirs.contains(
                            crate::resctrl::target_base(d, root0@),
                        ) implies !self.fs().dirs.contains(d) || (exists|i2: int|
                        0 <= i2 < pods@.len() && d == old(
                            self,
                        ).resctrl_spec().group_path_spec((#[trigger] pods@[i2]).uid@)) by {
                        if self.fs().dirs.contains(d) && !pre@.fs().dirs.contains(d) {
                            // the one directory a pod adoption can add is
                            // that pod's own group path
                            assert(self.fs().dirs == pre@.fs().dirs.insert(
                                pre@.resctrl_spec().group_path_spec(pods@[i as int].uid@),
                            ));
                            assert(d == old(self).resctrl_spec().group_path_spec(
                                pods@[i as int].uid@,
                            ));
                        }
                    }
                }
                assert forall|j: int|
                    0 <= j < i + 1 implies self.pods_map().contains_key(
                    (#[trigger] pods@[j]).uid@,
                ) by {
                    if j < i {
                        assert(pre@.pods_map().contains_key(pods@[j].uid@));
                        if !pre@.pods_map().contains_key(pods@[i as int].uid@) {
                        }
                    } else {
                        if pre@.pods_map().contains_key(pods@[i as int].uid@) {
                        }
                    }
                }
            }
            i += 1;
        }
        let nc = containers.len();
        let mut j: usize = 0;
        while j < nc
            invariant
                j <= nc,
                nc == containers@.len(),
                np == pods@.len(),
                self.wf(),
                self.cfg_spec() == old(self).cfg_spec(),
                old(self).events().is_prefix_of(self.events()),
                events_dominated(old(self).pods_map(), old(self).events())
                    ==> events_dominated(self.pods_map(), self.events()),
                forall|t: int|
                    0 <= t < np ==> self.pods_map().contains_key((#[trigger] pods@[t]).uid@),
                forall|d: Seq<char>|
                    old(self).fs().dirs.contains(d) && !(#[trigger] self.fs().dirs.contains(d))
                        ==> crate::resctrl::cleanup_target(d, root0@, prefix0@),
                (cleanup_report matches Some(rep) && rep.removal_failures == 0
                    && rep.removal_race == 0) ==> forall|d: Seq<char>|
                    old(self).fs().dirs.contains(d)
                        && #[trigger] crate::resctrl::cleanup_target(d, root0@, prefix0@)
                        && old(self).fs().dirs.contains(
                        crate::resctrl::target_base(d, root0@),
                    ) ==> !self.fs().dirs.contains(d) || (exists|i2: int|
                        0 <= i2 < pods@.len() && d == old(self).resctrl_spec().group_path_spec(
                            (#[trigger] pods@[i2]).uid@,
                        )),
                root0@ == old(self).resctrl_spec().root_spec(),
                prefix0@ == old(self).resctrl_spec().prefix_spec(),
                pods@.len() == 0 && containers@.len() == 0 ==> self.pods_map() == old(
                    self,
                ).pods_map() && self.containers_map() == old(self).containers_map()
                    && self.events() == old(self).events(),
            decreases nc - j,
        {
            proof {
                if pods@.len() == 0 && containers@.len() == 0 {
                    assert(false);
                }
            }
            // find the pod this container belongs to
            let mut found: Option<usize> = None;
            let mut t: usize = 0;
            while t < np
                invariant
                    t <= np,
                    np == pods@.len(),
                    j < nc,
                    nc == containers@.len(),
                    match found {
                        Some(x) => x < np,
                        None => true,
                    },
                decreases np - t,
            {
                if pods[t].id.eq(&containers[j].pod_sandbox_id) {
                    found = Some(t);
                    t = np;
                } else {
                    t += 1;
                }
            }
            match found {
                Some(x) => {
                    let pre = Ghost(*self);
                    self.handle_new_container(&pods[x], &containers[j]);
                    proof {
                        lemma_prefix_step(old(self).events(), pre@.events(), self.events());
                        assert forall|t2: int|
                            0 <= t2 < np implies self.pods_map().contains_key(
                            (#[trigger] pods@[t2]).uid@,
                        ) by {
                            assert(pre@.pods_map().contains_key(pods@[t2].uid@));
                        }
                    }
                },
                None => {},
            }
            j += 1;
        }
        cleanup_report
    }
}

/// Prefixes persist as events are appended.
proof fn lemma_prefix_refl(s: Seq<EventView>)
    ensures
        s.is_prefix_of(s),
{
    assert(s.subrange(0, s.len() as int) =~= s);
}

proof fn lemma_prefix_step(a: Seq<EventView>, b: Seq<EventView>, c: Seq<EventView>)
    requires
        a.is_prefix_of(b),
        c == b || exists|x: EventView| c == b.push(x),
    ensures
        a.is_prefix_of(c),
{
    if c != b {
        let x = choose|x: EventView| c == b.push(x);
        assert(c.subrange(0, a.len() as int) =~= b.subrange(0, a.len() as int));
    }
}

/// One group-creation retry moves a single pod at most from failed to live,
/// leaves every count in place, and only appends events.
proof fn lemma_retry_step<P: FsProvider, S: CgroupPidSource>(
    pre: ResctrlPlugin<P, S>,
    post: ResctrlPlugin<P, S>,
    base: &ResctrlPlugin<P, S>,
    uid: Seq<char>,
)
    requires
        base.events().is_prefix_of(pre.events()),
        pre.pods_map().dom() == base.pods_map().dom(),
        pre.containers_map() == base.containers_map(),
        forall|u: Seq<char>|
            #[trigger] base.pods_map().contains_key(u) ==> pre.pods_map()[u].total
                == base.pods_map()[u].total && pre.pods_map()[u].reconciled
                >= base.pods_map()[u].reconciled && (base.pods_map()[u].group is Some
                ==> pre.pods_map()[u].group == base.pods_map()[u].group),
        // outcomes of retry_group_creation
        post.containers_map() == pre.containers_map(),
        (post.pods_map() == pre.pods_map() && post.events() == pre.events()) || (
        pre.pods_map().contains_key(uid) && pre.pods_map()[uid].group is None && exists|
            p: Seq<char>,
        |
            {
                let v = PodView {
                    group: #[trigger] group_ok(Some(p)),
                    total: pre.pods_map()[uid].total,
                    reconciled: pre.pods_map()[uid].reconciled,
                };
                post.pods_map() == pre.pods_map().insert(uid, v) && post.events()
                    == pre.events().push(ev_add(uid, v))
            }
        ),
    ensures
        post.pods_map().dom() == base.pods_map().dom(),
        post.containers_map() == base.containers_map(),
        forall|u: Seq<char>|
            #[trigger] base.pods_map().contains_key(u) ==> post.pods_map()[u].total
                == base.pods_map()[u].total && post.pods_map()[u].reconciled
                >= base.pods_map()[u].reconciled && (base.pods_map()[u].group is Some
                ==> post.pods_map()[u].group == base.pods_map()[u].group),
        base.events().is_prefix_of(post.events()),
{
    if !(post.pods_map() == pre.pods_map() && post.events() == pre.events()) {
        assert(post.pods_map().dom() =~= base.pods_map().dom());
        lemma_prefix_step(base.events(), pre.events(), post.events());
    } else {
        lemma_prefix_step(base.events(), pre.events(), post.events());
    }
}

/// One container reconcile retry can only raise a pod's reconciled count,
/// keeps both tables' keys, and only appends events.
proof fn lemma_reconcile_step<P: FsProvider, S: CgroupPidSource>(
    pre: ResctrlPlugin<P, S>,
    post: ResctrlPlugin<P, S>,
    base: &ResctrlPlugin<P, S>,
    cid: Seq<char>,
)
    requires
        base.events().is_prefix_of(pre.events()),
        pre.pods_map().dom() == base.pods_map().dom(),
        pre.containers_map().dom() == base.containers_map().dom(),
        forall|u: Seq<char>|
            #[trigger] base.pods_map().contains_key(u) ==> pre.pods_map()[u].total
                == base.pods_map()[u].total && pre.pods_map()[u].reconciled
                >= base.pods_map()[u].reconciled && (base.pods_map()[u].group is Some
                ==> pre.pods_map()[u].group == base.pods_map()[u].group),
        // outcomes of retry_container_reconcile
        (post.pods_map() == pre.pods_map() && post.containers_map() == pre.containers_map()
            && post.events() == pre.events()) || (pre.containers_map().contains_key(cid)
            && pre.pods_map().contains_key(pre.containers_map()[cid].pod_uid) && {
            let puid = pre.containers_map()[cid].pod_uid;
            let prev = pre.pods_map()[puid];
            let v = PodView {
                group: prev.group,
                total: prev.total,
                reconciled: if prev.reconciled < prev.total {
                    prev.reconciled + 1
                } else {
                    prev.reconciled
                },
            };
            post.pods_map() == pre.pods_map().insert(puid, v) && post.containers_map()
                == pre.containers_map().insert(
                cid,
                ContainerView {
                    pod_uid: puid,
                    cgroup: pre.containers_map()[cid].cgroup,
                    state: ContainerSyncState::Reconciled,
                },
            ) && post.events() == pre.events().push(ev_add(puid, v))
        }),
    ensures
        post.pods_map().dom() == base.pods_map().dom(),
        post.containers_map().dom() == base.containers_map().dom(),
        forall|u: Seq<char>|
            #[trigger] base.pods_map().contains_key(u) ==> post.pods_map()[u].total
                == base.pods_map()[u].total && post.pods_map()[u].reconciled
                >= base.pods_map()[u].reconciled && (base.pods_map()[u].group is Some
                ==> post.pods_map()[u].group == base.pods_map()[u].group),
        base.events().is_prefix_of(post.events()),
{
    if !(post.pods_map() == pre.pods_map() && post.containers_map() == pre.containers_map()
        && post.events() == pre.events()) {
        assert(post.pods_map().dom() =~= base.pods_map().dom());
        assert(post.containers_map().dom() =~= base.containers_map().dom());
        lemma_prefix_step(base.events(), pre.events(), post.events());
    } else {
        lemma_prefix_step(base.events(), pre.events(), post.events());
    }
}

/// Identity marker over a sync state, a stable trigger for contracts.
pub open spec fn sync_ok(st: ContainerSyncState) -> ContainerSyncState {
    st
}

/// Lexicographic order on `(total, reconciled)` counts.
pub open spec fn lex_le(t1: int, r1: int, t2: int, r2: int) -> bool {
    t1 < t2 || (t1 == t2 && r1 <= r2)
}

/// The last event concerning `uid`, scanned from the newest.
pub open spec fn last_event_for(evs: Seq<EventView>, uid: Seq<char>) -> Option<EventView>
    decreases evs.len(),
{
    if evs.len() == 0 {
        None
    } else if evs.last().uid == uid {
        Some(evs.last())
    } else {
        last_event_for(evs.drop_last(), uid)
    }
}

/// The event-ordering invariant: whenever the newest event for a pod is an
/// add-or-update, the pod is still tracked and its committed counts
/// dominate that event's counts lexicographically.
pub open spec fn events_dominated(pods: Map<Seq<char>, PodView>, evs: Seq<EventView>) -> bool {
    forall|uid: Seq<char>|
        match #[trigger] last_event_for(evs, uid) {
            Some(e) => !e.removed ==> pods.contains_key(uid) && lex_le(
                e.total,
                e.reconciled,
                pods[uid].total,
                pods[uid].reconciled,
            ),
            None => true,
        }
}

/// Event ordering, emission step: an add-or-update committed together with
/// counts that dominate the pod's previous state extends the sequence
/// monotonically — the new event dominates the previous add-or-update for
/// that pod, if one is newer than any removal — and keeps the invariant.
/// Removals and container removals are the lifecycle boundaries this law
/// stops at.
pub proof fn lemma_event_ordering_emit(
    pods: Map<Seq<char>, PodView>,
    evs: Seq<EventView>,
    uid: Seq<char>,
    v: PodView,
)
    requires
        events_dominated(pods, evs),
        pods.contains_key(uid) ==> lex_le(
            pods[uid].total,
            pods[uid].reconciled,
            v.total,
            v.reconciled,
        ),
        !pods.contains_key(uid) ==> match last_event_for(evs, uid) {
            Some(e) => e.removed,
            None => true,
        },
    ensures
        events_dominated(pods.insert(uid, v), evs.push(ev_add(uid, v))),
        match last_event_for(evs, uid) {
            Some(e) => !e.removed ==> lex_le(e.total, e.reconciled, v.total, v.reconciled),
            None => true,
        },
{
    let evs2 = evs.push(ev_add(uid, v));
    let pods2 = pods.insert(uid, v);
    assert forall|u: Seq<char>|
        match #[trigger] last_event_for(evs2, u) {
            Some(e) => !e.removed ==> pods2.contains_key(u) && lex_le(
                e.total,
                e.reconciled,
                pods2[u].total,
                pods2[u].reconciled,
            ),
            None => true,
        } by {
        assert(evs2.drop_last() =~= evs);
        if u != uid {
            assert(last_event_for(evs2, u) == last_event_for(evs, u));
        } else {
            assert(last_event_for(evs2, u) == Some(ev_add(uid, v)));
        }
    }
}

/// Event ordering, commit step: an add-or-update whose counts are exactly
/// the pod's newly committed state keeps the invariant, whatever the
/// counts did.
pub proof fn lemma_events_dominated_commit(
    pods: Map<Seq<char>, PodView>,
    evs: Seq<EventView>,
    uid: Seq<char>,
    v: PodView,
)
    requires
        events_dominated(pods, evs),
    ensures
        events_dominated(pods.insert(uid, v), evs.push(ev_add(uid, v))),
{
    let evs2 = evs.push(ev_add(uid, v));
    let pods2 = pods.insert(uid, v);
    assert forall|u: Seq<char>|
        match #[trigger] last_event_for(evs2, u) {
            Some(e) => !e.removed ==> pods2.contains_key(u) && lex_le(
                e.total,
                e.reconciled,
                pods2[u].total,
                pods2[u].reconciled,
            ),
            None => true,
        } by {
        assert(evs2.drop_last() =~= evs);
        if u != uid {
            assert(last_event_for(evs2, u) == last_event_for(evs, u));
        } else {
            assert(last_event_for(evs2, u) == Some(ev_add(uid, v)));
        }
    }
}

/// Event ordering, silent step: an operation that emits nothing and only
/// grows a pod's counts keeps the invariant.
pub proof fn lemma_event_ordering_silent(
    pods: Map<Seq<char>, PodView>,
    evs: Seq<EventView>,
    pods2: Map<Seq<char>, PodView>,
)
    requires
        events_dominated(pods, evs),
        forall|u: Seq<char>|
            #[trigger] pods.contains_key(u) ==> pods2.contains_key(u) && lex_le(
                pods[u].total,
                pods[u].reconciled,
                pods2[u].total,
                pods2[u].reconciled,
            ),
    ensures
        events_dominated(pods2, evs),
{
    assert forall|u: Seq<char>|
        match #[trigger] last_event_for(evs, u) {
            Some(e) => !e.removed ==> pods2.contains_key(u) && lex_le(
                e.total,
                e.reconciled,
                pods2[u].total,
                pods2[u].reconciled,
            ),
            None => true,
        } by {
        match last_event_for(evs, u) {
            Some(e) => {
                if !e.removed {
                    assert(pods.contains_key(u));
                }
            },
            None => {},
        }
    }
}

/// Event ordering, removal step: committing the removal event closes the
/// pod's lifecycle and keeps the invariant; nothing more is claimed for the
/// pod until a new add-or-update begins a new lifecycle.
pub proof fn lemma_event_ordering_removed(
    pods: Map<Seq<char>, PodView>,
    evs: Seq<EventView>,
    uid: Seq<char>,
)
    requires
        events_dominated(pods, evs),
    ensures
        events_dominated(pods.remove(uid), evs.push(ev_removed(uid))),
{
    let evs2 = evs.push(ev_removed(uid));
    let pods2 = pods.remove(uid);
    assert forall|u: Seq<char>|
        match #[trigger] last_event_for(evs2, u) {
            Some(e) => !e.removed ==> pods2.contains_key(u) && lex_le(
                e.total,
                e.reconciled,
                pods2[u].total,
                pods2[u].reconciled,
            ),
            None => true,
        } by {
        assert(evs2.drop_last() =~= evs);
        if u != uid {
            assert(last_event_for(evs2, u) == last_event_for(evs, u));
        } else {
            assert(last_event_for(evs2, u) == Some(ev_removed(uid)));
        }
    }
}

/// Nothing for a retry sweep to do: every tracked pod has its group and no
/// container is partial.
pub open spec fn no_retry_work<P: FsProvider, S: CgroupPidSource>(
    plugin: ResctrlPlugin<P, S>,
) -> bool {
    &&& forall|uid: Seq<char>|
        #[trigger] plugin.pods_map().contains_key(uid) ==> plugin.pods_map()[uid].group is Some
    &&& forall|cid: Seq<char>|
        #[trigger] plugin.containers_map().contains_key(cid) ==> plugin.containers_map()[
            cid
        ].state != ContainerSyncState::Partial
}

/// A pod's view after counting one more container of the given sync state,
/// saturating at the machine ceiling.
pub open spec fn counted_pod_view(p: PodView, sync: ContainerSyncState) -> PodView {
    PodView {
        group: p.group,
        total: if p.total < usize::MAX {
            p.total + 1
        } else {
            p.total
        },
        reconciled: if sync == ContainerSyncState::Reconciled && p.reconciled < usize::MAX {
            p.reconciled + 1
        } else {
            p.reconciled
        },
    }
}

/// The group view a creation outcome commits: the path on success,
/// failure otherwise.
pub open spec fn created_group_view(created: Result<String, ResctrlError>) -> Option<Seq<char>> {
    match created {
        Ok(p) => Some(p@),
        Err(_) => None,
    }
}

/// What the reconcile report decides for a container: reconciled exactly
/// when nothing was missing.
pub fn container_state_from_report(rep: &AssignReport) -> (st: ContainerSyncState)
    ensures
        (st == ContainerSyncState::Reconciled) == (rep.missing == 0),
        st != ContainerSyncState::NoPod,
{
    if rep.missing == 0 {
        ContainerSyncState::Reconciled
    } else {
        ContainerSyncState::Partial
    }
}

/// Identity marker over a group option, a stable trigger for contracts.
pub open spec fn group_ok(g: Option<Seq<char>>) -> Option<Seq<char>> {
    g
}

} // verus!
