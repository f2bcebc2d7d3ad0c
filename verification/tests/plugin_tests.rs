//! Plugin and resctrl-handle behavior against the in-memory filesystem.

use std::cell::RefCell;
use std::collections::HashMap;

use collector::fs::FsProvider;
use collector::memfs::MemFs;
use collector::plugin::{
    PodLifecycleEvent, PodResctrlEvent, ResctrlGroupState, ResctrlPlugin, ResctrlPluginConfig,
};
use collector::plugin::ContainerSyncState;
use collector::resctrl::{CgroupPidSource, Resctrl, ResctrlConfig, ResctrlError};

struct MockCgroupPidSource {
    pids_map: HashMap<String, Vec<i32>>,
    default_pids: Vec<i32>,
}

impl MockCgroupPidSource {
    fn new() -> Self {
        MockCgroupPidSource { pids_map: HashMap::new(), default_pids: Vec::new() }
    }

    fn with_default(pids: Vec<i32>) -> Self {
        MockCgroupPidSource { pids_map: HashMap::new(), default_pids: pids }
    }

    fn set_pids(&mut self, cgroup_path: String, pids: Vec<i32>) {
        self.pids_map.insert(cgroup_path, pids);
    }
}

impl CgroupPidSource for MockCgroupPidSource {
    fn pids_for_path(&self, cgroup_path: &String) -> Result<Vec<i32>, ResctrlError> {
        Ok(self.pids_map.get(cgroup_path).cloned().unwrap_or_else(|| self.default_pids.clone()))
    }
}

/// A PID source whose set grows on every call, then stays stable.
struct GrowingPidSource {
    calls: RefCell<usize>,
}

impl CgroupPidSource for GrowingPidSource {
    fn pids_for_path(&self, _cgroup_path: &String) -> Result<Vec<i32>, ResctrlError> {
        let mut calls = self.calls.borrow_mut();
        *calls += 1;
        match *calls {
            1 => Ok(vec![1]),
            2 => Ok(vec![1, 2]),
            _ => Ok(vec![1, 2, 3]),
        }
    }
}

fn premounted_fs() -> MemFs {
    let mut fs = MemFs::new();
    fs.add_dir(&"/sys".to_string());
    fs.add_dir(&"/sys/fs".to_string());
    fs.add_dir(&"/sys/fs/resctrl".to_string());
    fs.add_dir(&"/sys/fs/resctrl/mon_groups".to_string());
    fs.add_dir(&"/sys/fs/resctrl/info".to_string());
    let _ = fs.mount_resctrl(&"/sys/fs/resctrl".to_string());
    fs
}

fn pod(uid: &str) -> collector::cgroup_path::PodDesc {
    collector::cgroup_path::PodDesc {
        id: format!("sb-{}", uid),
        uid: uid.to_string(),
        name: format!("pod-{}", uid),
        namespace: "default".to_string(),
        cgroup_parent: String::new(),
    }
}

fn container(id: &str, sandbox: &str, cgroups_path: &str) -> collector::cgroup_path::ContainerDesc {
    collector::cgroup_path::ContainerDesc {
        id: id.to_string(),
        pod_sandbox_id: sandbox.to_string(),
        name: format!("name-{}", id),
        cgroups_path: cgroups_path.to_string(),
        pid: 0,
        labels: HashMap::new(),
        annotations: HashMap::new(),
    }
}

#[test]
fn test_default_config() {
    let cfg = ResctrlPluginConfig::default();
    assert_eq!(cfg.group_prefix, "pod_");
    assert!(cfg.cleanup_on_start);
    assert_eq!(cfg.max_reconcile_passes, 10);
    assert_eq!(cfg.concurrency_limit, 1);
    assert!(!cfg.auto_mount);
}

#[test]
fn test_cleanup_on_start_removes_only_prefix() {
    let mut fs = premounted_fs();
    fs.add_dir(&"/sys/fs/resctrl/pod_x1".to_string());
    fs.add_dir(&"/sys/fs/resctrl/other".to_string());
    fs.add_dir(&"/sys/fs/resctrl/mon_groups/pod_mx".to_string());
    fs.add_dir(&"/sys/fs/resctrl/mon_groups/foo".to_string());

    let rc = Resctrl::with_provider(fs, ResctrlConfig::default());
    let mut plugin =
        ResctrlPlugin::with_pid_source(ResctrlPluginConfig::default(), rc, MockCgroupPidSource::new());
    let report = plugin.synchronize(&Vec::new(), &Vec::new());
    let report = report.expect("cleanup ran");
    assert_eq!(report.removed, 2);
    assert_eq!(report.removal_failures, 0);
    assert_eq!(report.removal_race, 0);
    // "other" and "foo", plus the reserved mon_groups and info entries
    assert_eq!(report.non_prefix_groups, 4);

    // no events emitted for cleanup-only
    assert!(plugin.take_events().is_empty());

    let handle = plugin.resctrl_ref();
    let fs = handle.provider_ref();
    assert!(!fs.exists_dir(&"/sys/fs/resctrl/pod_x1".to_string()));
    assert!(fs.exists_dir(&"/sys/fs/resctrl/other".to_string()));
    assert!(!fs.exists_dir(&"/sys/fs/resctrl/mon_groups/pod_mx".to_string()));
    assert!(fs.exists_dir(&"/sys/fs/resctrl/mon_groups/foo".to_string()));
    assert!(fs.exists_dir(&"/sys/fs/resctrl/info".to_string()));
}

#[test]
fn test_single_pod_single_container_happy_path() {
    let fs = premounted_fs();
    let rc = Resctrl::with_provider(fs, ResctrlConfig::default());
    let src = MockCgroupPidSource::with_default(vec![7777]);
    let mut cfg = ResctrlPluginConfig::default();
    cfg.cleanup_on_start = false;
    let mut plugin = ResctrlPlugin::with_pid_source(cfg, rc, src);

    let p = pod("u1");
    plugin.state_change(PodLifecycleEvent::RunPodSandbox, &p, None);
    let c = container("c1", "sb-u1", "/cg/u1:cri:c1");
    plugin.handle_new_container(&p, &c);

    let events = plugin.take_events();
    assert_eq!(events.len(), 2);
    match &events[0] {
        PodResctrlEvent::AddOrUpdate(a) => {
            assert_eq!(a.pod_uid, "u1");
            assert_eq!(a.group_state, ResctrlGroupState::Exists("/sys/fs/resctrl/pod_u1".to_string()));
            assert_eq!(a.total_containers, 0);
            assert_eq!(a.reconciled_containers, 0);
        }
        other => panic!("expected AddOrUpdate, got {:?}", other),
    }
    match &events[1] {
        PodResctrlEvent::AddOrUpdate(a) => {
            assert_eq!(a.pod_uid, "u1");
            assert_eq!(a.total_containers, 1);
            assert_eq!(a.reconciled_containers, 1);
        }
        other => panic!("expected AddOrUpdate, got {:?}", other),
    }

    let tasks = plugin
        .resctrl_ref()
        .list_group_tasks(&"/sys/fs/resctrl/pod_u1".to_string())
        .expect("list tasks");
    assert_eq!(tasks, vec![7777]);
}

#[test]
fn test_run_pod_sandbox_creates_group_and_emits_event() {
    let fs = premounted_fs();
    let rc = Resctrl::with_provider(fs, ResctrlConfig::default());
    let mut cfg = ResctrlPluginConfig::default();
    cfg.cleanup_on_start = false;
    let mut plugin = ResctrlPlugin::with_pid_source(cfg, rc, MockCgroupPidSource::new());

    let p = pod("u789");
    plugin.state_change(PodLifecycleEvent::RunPodSandbox, &p, None);
    let events = plugin.take_events();
    assert_eq!(events.len(), 1);
    match &events[0] {
        PodResctrlEvent::AddOrUpdate(a) => {
            assert_eq!(a.pod_uid, "u789");
            assert_eq!(
                a.group_state,
                ResctrlGroupState::Exists("/sys/fs/resctrl/pod_u789".to_string())
            );
        }
        other => panic!("Expected AddOrUpdate event, got: {:?}", other),
    }
    assert!(plugin.resctrl_ref().provider_ref().exists_dir(&"/sys/fs/resctrl/pod_u789".to_string()));

    plugin.state_change(PodLifecycleEvent::RemovePodSandbox, &p, None);
    let events = plugin.take_events();
    assert_eq!(events.len(), 1);
    match &events[0] {
        PodResctrlEvent::Removed(r) => assert_eq!(r.pod_uid, "u789"),
        other => panic!("Expected Removed event, got: {:?}", other),
    }
    assert!(!plugin.resctrl_ref().provider_ref().exists_dir(&"/sys/fs/resctrl/pod_u789".to_string()));
}

#[test]
fn test_preexisting_pod_removal_cleans_up() {
    let mut fs = premounted_fs();
    fs.add_dir(&"/sys/fs/resctrl/pod_u-pre".to_string());
    let rc = Resctrl::with_provider(fs, ResctrlConfig::default());
    let mut cfg = ResctrlPluginConfig::default();
    cfg.cleanup_on_start = false;
    let mut plugin = ResctrlPlugin::with_pid_source(cfg, rc, MockCgroupPidSource::new());

    let p = pod("u-pre");
    let pods = vec![p.clone()];
    let _ = plugin.synchronize(&pods, &Vec::new());
    let _ = plugin.take_events();

    plugin.state_change(PodLifecycleEvent::RemovePodSandbox, &p, None);
    let events = plugin.take_events();
    assert_eq!(events.len(), 1);
    match &events[0] {
        PodResctrlEvent::Removed(r) => assert_eq!(r.pod_uid, "u-pre"),
        other => panic!("expected Removed event, got {:?}", other),
    }
    assert!(!plugin.resctrl_ref().provider_ref().exists_dir(&"/sys/fs/resctrl/pod_u-pre".to_string()));
}

#[test]
fn test_capacity_error_emits_failed_and_retry_group_creation_transitions() {
    let mut fs = premounted_fs();
    fs.set_create_nospc(true);
    let rc = Resctrl::with_provider(fs, ResctrlConfig::default());
    let src = MockCgroupPidSource::with_default(vec![4242]);
    let mut cfg = ResctrlPluginConfig::default();
    cfg.cleanup_on_start = false;
    let mut plugin = ResctrlPlugin::with_pid_source(cfg, rc, src);

    // group creation fails with the capacity error
    let p = pod("u1");
    plugin.handle_new_pod(&"u1".to_string());
    let events = plugin.take_events();
    assert_eq!(events.len(), 1);
    match &events[0] {
        PodResctrlEvent::AddOrUpdate(a) => {
            assert_eq!(a.group_state, ResctrlGroupState::Failed);
            assert_eq!(a.total_containers, 0);
            assert_eq!(a.reconciled_containers, 0);
        }
        other => panic!("unexpected event {:?}", other),
    }

    // a container under the failed group counts but stays partial
    let c = container("c1", "sb-u1", "/cg/runtime:cri-containerd:c1");
    plugin.handle_new_container(&p, &c);
    let events = plugin.take_events();
    assert_eq!(events.len(), 1);
    match &events[0] {
        PodResctrlEvent::AddOrUpdate(a) => {
            assert_eq!(a.group_state, ResctrlGroupState::Failed);
            assert_eq!(a.total_containers, 1);
            assert_eq!(a.reconciled_containers, 0);
        }
        other => panic!("unexpected event {:?}", other),
    }

    // retry while capacity is still exhausted keeps failing
    let err = plugin.retry_group_creation(&"u1".to_string());
    assert!(
        matches!(
            err,
            Err(collector::plugin::PluginError::Resctrl(ResctrlError::Capacity))
        ),
        "expected capacity error, got: {:?}",
        err
    );
    assert!(plugin.take_events().is_empty(), "no duplicate events expected");

    // clear the capacity condition and retry
    plugin.resctrl_mut().provider_mut().set_create_nospc(false);
    let state = plugin.retry_group_creation(&"u1".to_string()).expect("retry ok");
    assert_eq!(state, ResctrlGroupState::Exists("/sys/fs/resctrl/pod_u1".to_string()), "expected Exists");
    let events = plugin.take_events();
    assert_eq!(events.len(), 1);
    match &events[0] {
        PodResctrlEvent::AddOrUpdate(a) => {
            assert_eq!(a.total_containers, 1);
            assert_eq!(a.reconciled_containers, 0);
        }
        other => panic!("unexpected event {:?}", other),
    }

    // the container reconciles on its own retry
    let st = plugin.retry_container_reconcile(&"c1".to_string()).expect("retry ok");
    assert_eq!(st, ContainerSyncState::Reconciled);
    let events = plugin.take_events();
    assert_eq!(events.len(), 1);
    match &events[0] {
        PodResctrlEvent::AddOrUpdate(a) => {
            assert_eq!(a.total_containers, 1);
            assert_eq!(a.reconciled_containers, 1);
        }
        other => panic!("unexpected event {:?}", other),
    }
}

#[test]
fn test_retry_container_reconcile_improves_counts() {
    let mut fs = premounted_fs();
    fs.set_create_nospc(true);
    let rc = Resctrl::with_provider(fs, ResctrlConfig::default());
    let src = MockCgroupPidSource::with_default(vec![101, 102]);
    let mut cfg = ResctrlPluginConfig::default();
    cfg.cleanup_on_start = false;
    let mut plugin = ResctrlPlugin::with_pid_source(cfg, rc, src);

    let p = pod("u1");
    plugin.handle_new_pod(&"u1".to_string());
    let c = container("c1", "sb-u1", "/cg/x:cri-containerd:c1");
    plugin.handle_new_container(&p, &c);
    let _ = plugin.take_events();

    plugin.resctrl_mut().provider_mut().set_create_nospc(false);
    let _ = plugin.retry_group_creation(&"u1".to_string()).expect("retry ok");
    let _ = plugin.take_events();

    let st = plugin.retry_container_reconcile(&"c1".to_string()).expect("retry ok");
    assert_eq!(st, ContainerSyncState::Reconciled);
    let events = plugin.take_events();
    assert_eq!(events.len(), 1, "event");

    let tasks = plugin
        .resctrl_ref()
        .list_group_tasks(&"/sys/fs/resctrl/pod_u1".to_string())
        .expect("list tasks");
    let mut sorted = tasks.clone();
    sorted.sort();
    assert_eq!(sorted, vec![101, 102]);

    // a second reconcile changes nothing and emits nothing
    let st = plugin.retry_container_reconcile(&"c1".to_string()).expect("retry ok");
    assert_eq!(st, ContainerSyncState::Reconciled);
    assert!(plugin.take_events().is_empty(), "no extra event expected after second reconcile");
}

#[test]
fn test_retry_all_once_early_stop_on_capacity_and_reconcile_others() {
    let mut fs = premounted_fs();
    fs.set_create_nospc(true);
    let rc = Resctrl::with_provider(fs, ResctrlConfig::default());
    let src = MockCgroupPidSource::with_default(vec![222, 223]);
    let mut cfg = ResctrlPluginConfig::default();
    cfg.cleanup_on_start = false;
    let mut plugin = ResctrlPlugin::with_pid_source(cfg, rc, src);

    plugin.handle_new_pod(&"uA".to_string());
    plugin.handle_new_pod(&"uB".to_string());
    let _ = plugin.take_events();

    // capacity still exhausted: the sweep stops at the first capacity error
    plugin.retry_all_once().expect("retry all ok");
    assert!(plugin.take_events().is_empty(), "received event");

    // capacity freed: the sweep brings both groups up
    plugin.resctrl_mut().provider_mut().set_create_nospc(false);
    plugin.retry_all_once().expect("retry all ok");
    let events = plugin.take_events();
    assert_eq!(events.len(), 2);
    assert!(plugin.resctrl_ref().provider_ref().exists_dir(&"/sys/fs/resctrl/pod_uA".to_string()));
    assert!(plugin.resctrl_ref().provider_ref().exists_dir(&"/sys/fs/resctrl/pod_uB".to_string()), "pod uB");
}

#[test]
fn test_synchronize_emits_counts() {
    let fs = premounted_fs();
    let rc = Resctrl::with_provider(fs, ResctrlConfig::default());
    let mut src = MockCgroupPidSource::new();
    src.set_pids("/sys/fs/cgroup/cg/podX/containerA".to_string(), vec![1, 2]);
    src.set_pids("/sys/fs/cgroup/cg/podX/containerB".to_string(), vec![3, 4]);
    let mut cfg = ResctrlPluginConfig::default();
    cfg.cleanup_on_start = false;
    let mut plugin = ResctrlPlugin::with_pid_source(cfg, rc, src);

    let mut p = pod("u123");
    p.id = "pod-sb-1".to_string();
    let pods = vec![p];
    let containers = vec![
        container("ctr1", "pod-sb-1", "/cg/podX/containerA"),
        container("ctr2", "pod-sb-1", "/cg/podX/containerB"),
    ];
    let _ = plugin.synchronize(&pods, &containers);

    let events = plugin.take_events();
    assert_eq!(events.len(), 3, "event");
    let counts: Vec<(usize, usize)> = events
        .iter()
        .map(|e| match e {
            PodResctrlEvent::AddOrUpdate(a) => (a.total_containers, a.reconciled_containers),
            other => panic!("unexpected event type: {:?}", other),
        })
        .collect();
    assert_eq!(counts, vec![(0, 0), (1, 1), (2, 2)]);

    let tasks = plugin
        .resctrl_ref()
        .list_group_tasks(&"/sys/fs/resctrl/pod_u123".to_string())
        .expect("list tasks");
    let mut sorted = tasks.clone();
    sorted.sort();
    assert_eq!(sorted, vec![1, 2, 3, 4]);
}

#[test]
fn test_duplicate_container_events_do_not_change_counts() {
    let fs = premounted_fs();
    let rc = Resctrl::with_provider(fs, ResctrlConfig::default());
    let src = MockCgroupPidSource::with_default(vec![4242]);
    let mut cfg = ResctrlPluginConfig::default();
    cfg.cleanup_on_start = false;
    let mut plugin = ResctrlPlugin::with_pid_source(cfg, rc, src);

    let p = pod("uid-dup");
    plugin.handle_new_pod(&"uid-dup".to_string());
    let initial = plugin.take_events();
    assert_eq!(initial.len(), 1, "initial event");

    let c = container("ctr-dup", "sb-uid-dup", "/cg/dup");
    plugin.handle_new_container(&p, &c);
    let events = plugin.take_events();
    assert_eq!(events.len(), 1, "event after first container");
    match &events[0] {
        PodResctrlEvent::AddOrUpdate(a) => {
            assert_eq!(a.total_containers, 1);
            assert_eq!(a.reconciled_containers, 1);
        }
        other => panic!("unexpected event: {:?}", other),
    }

    // the duplicate is ignored: no event, no count change
    plugin.handle_new_container(&p, &c);
    assert!(plugin.take_events().is_empty(), "unexpected event for duplicate container");
}

#[test]
fn test_reconcile_handles_growing_pid_set() {
    let fs = premounted_fs();
    let mut rc = Resctrl::with_provider(fs, ResctrlConfig::default());
    let gp = rc.create_group(&"grow".to_string()).expect("create group");
    let src = GrowingPidSource { calls: RefCell::new(0) };
    let (report, last) = rc
        .reconcile_group(&gp, &src, &"/cg/grow".to_string(), 5)
        .expect("reconcile");
    assert_eq!(report.missing, 0);
    assert_eq!(last, vec![1, 2, 3]);
    let mut tasks = rc.list_group_tasks(&gp).expect("list tasks");
    tasks.sort();
    assert_eq!(tasks, vec![1, 2, 3]);
}

#[test]
fn test_reconcile_reports_missing_when_set_keeps_growing() {
    let fs = premounted_fs();
    let mut rc = Resctrl::with_provider(fs, ResctrlConfig::default());
    let gp = rc.create_group(&"g2".to_string()).expect("create group");
    // the set grows on every snapshot, never stabilizing within two passes
    struct EverGrowing {
        calls: RefCell<i32>,
    }
    impl CgroupPidSource for EverGrowing {
        fn pids_for_path(&self, _p: &String) -> Result<Vec<i32>, ResctrlError> {
            let mut calls = self.calls.borrow_mut();
            *calls += 1;
            Ok((0..*calls).collect())
        }
    }
    let src = EverGrowing { calls: RefCell::new(0) };
    let (report, _) = rc
        .reconcile_group(&gp, &src, &"/cg/g2".to_string(), 2)
        .expect("reconcile");
    assert!(report.missing > 0);
}

#[test]
fn test_ensure_mounted_errors() {
    let fs = MemFs::new();
    let mut rc = Resctrl::with_provider(fs, ResctrlConfig::default());
    // unmounted without auto-mount is the distinct NotMounted error
    assert_eq!(rc.ensure_mounted(false), Err(ResctrlError::NotMounted));
    // auto-mount brings the hierarchy up
    assert_eq!(rc.ensure_mounted(true), Ok(()));
    assert!(rc.provider_ref().exists_dir(&"/sys/fs/resctrl".to_string()));
    assert!(rc.provider_ref().exists_dir(&"/sys/fs/resctrl/mon_groups".to_string()));
}

#[test]
fn test_delete_group_tolerates_absence() {
    let fs = premounted_fs();
    let mut rc = Resctrl::with_provider(fs, ResctrlConfig::default());
    // a group already gone counts as success
    assert_eq!(rc.delete_group(&"/sys/fs/resctrl/pod_nothere".to_string()), Ok(()));
}

#[test]
fn test_assign_pid_appends_lines() {
    let fs = premounted_fs();
    let mut rc = Resctrl::with_provider(fs, ResctrlConfig::default());
    let gp = rc.create_group(&"w1".to_string()).expect("create group");
    rc.assign_pid(&gp, 11).expect("assign");
    rc.assign_pid(&gp, 22).expect("assign");
    let mut tasks = rc.list_group_tasks(&gp).expect("list");
    tasks.sort();
    assert_eq!(tasks, vec![11, 22]);
}

#[test]
fn test_container_before_pod_stays_nopod() {
    let fs = premounted_fs();
    let rc = Resctrl::with_provider(fs, ResctrlConfig::default());
    let src = MockCgroupPidSource::with_default(vec![5]);
    let mut cfg = ResctrlPluginConfig::default();
    cfg.cleanup_on_start = false;
    let mut plugin = ResctrlPlugin::with_pid_source(cfg, rc, src);

    let p = pod("late");
    let c = container("c-early", "sb-late", "/cg/early");
    // the container arrives before its pod: tracked, but no counters move
    plugin.handle_new_container(&p, &c);
    assert!(plugin.take_events().is_empty());

    // when the pod appears the container is not adopted retroactively
    plugin.handle_new_pod(&"late".to_string());
    let events = plugin.take_events();
    assert_eq!(events.len(), 1);
    match &events[0] {
        PodResctrlEvent::AddOrUpdate(a) => {
            assert_eq!(a.total_containers, 0);
            assert_eq!(a.reconciled_containers, 0);
        }
        other => panic!("unexpected event {:?}", other),
    }
    let st = plugin.retry_container_reconcile(&"c-early".to_string()).expect("known container");
    assert_eq!(st, ContainerSyncState::NoPod);
    assert!(plugin.take_events().is_empty());
}

#[test]
fn test_plugin_error_variants() {
    let fs = premounted_fs();
    let rc = Resctrl::with_provider(fs, ResctrlConfig::default());
    let mut cfg = ResctrlPluginConfig::default();
    cfg.cleanup_on_start = false;
    let mut plugin = ResctrlPlugin::with_pid_source(cfg, rc, MockCgroupPidSource::new());
    assert_eq!(
        plugin.retry_group_creation(&"ghost".to_string()),
        Err(collector::plugin::PluginError::PodNotFound)
    );
    assert_eq!(
        plugin.retry_container_reconcile(&"ghost".to_string()),
        Err(collector::plugin::PluginError::ContainerNotFound)
    );
}

#[test]
fn test_list_tasks_of_missing_group_is_group_gone() {
    let fs = premounted_fs();
    let rc = Resctrl::with_provider(fs, ResctrlConfig::default());
    assert_eq!(
        rc.list_group_tasks(&"/sys/fs/resctrl/pod_missing".to_string()),
        Err(ResctrlError::GroupGone)
    );
}

#[test]
fn test_remove_container_adjusts_counts() {
    let fs = premounted_fs();
    let rc = Resctrl::with_provider(fs, ResctrlConfig::default());
    let src = MockCgroupPidSource::with_default(vec![8]);
    let mut cfg = ResctrlPluginConfig::default();
    cfg.cleanup_on_start = false;
    let mut plugin = ResctrlPlugin::with_pid_source(cfg, rc, src);

    let p = pod("rm");
    plugin.handle_new_pod(&"rm".to_string());
    let c = container("c-rm", "sb-rm", "/cg/rm");
    plugin.handle_new_container(&p, &c);
    let _ = plugin.take_events();

    plugin.state_change(PodLifecycleEvent::RemoveContainer, &p, Some(&c));
    let events = plugin.take_events();
    assert_eq!(events.len(), 1);
    match &events[0] {
        PodResctrlEvent::AddOrUpdate(a) => {
            assert_eq!(a.total_containers, 0);
            assert_eq!(a.reconciled_containers, 0);
        }
        other => panic!("unexpected event {:?}", other),
    }
}

#[test]
fn test_assign_pid_normalizes_unterminated_content() {
    // a tasks file seeded without a trailing newline still parses cleanly
    // after an assignment
    let mut fs = premounted_fs();
    fs.add_dir(&"/sys/fs/resctrl/pod_seeded".to_string());
    fs.set_file(&"/sys/fs/resctrl/pod_seeded/tasks".to_string(), &"5".to_string());
    let mut rc = Resctrl::with_provider(fs, ResctrlConfig::default());
    rc.assign_pid(&"/sys/fs/resctrl/pod_seeded".to_string(), 6).expect("assign");
    let mut tasks = rc
        .list_group_tasks(&"/sys/fs/resctrl/pod_seeded".to_string())
        .expect("list");
    tasks.sort();
    assert_eq!(tasks, vec![5, 6]);
}

#[test]
fn test_reconcile_skips_already_present_pids() {
    let mut fs = premounted_fs();
    fs.add_dir(&"/sys/fs/resctrl/pod_pre".to_string());
    fs.set_file(&"/sys/fs/resctrl/pod_pre/tasks".to_string(), &"10\n".to_string());
    let mut rc = Resctrl::with_provider(fs, ResctrlConfig::default());
    let src = MockCgroupPidSource::with_default(vec![10, 11]);
    let (report, _) = rc
        .reconcile_group(
            &"/sys/fs/resctrl/pod_pre".to_string(),
            &src,
            &"/cg/pre".to_string(),
            3,
        )
        .expect("reconcile");
    assert_eq!(report.missing, 0);
    assert_eq!(report.assigned, 1);
    let mut tasks = rc
        .list_group_tasks(&"/sys/fs/resctrl/pod_pre".to_string())
        .expect("list");
    tasks.sort();
    assert_eq!(tasks, vec![10, 11]);
}

#[test]
fn test_container_state_follows_report() {
    assert_eq!(
        collector::plugin::container_state_from_report(
            &collector::resctrl::AssignReport { assigned: 3, missing: 0 },
        ),
        ContainerSyncState::Reconciled
    );
    assert_eq!(
        collector::plugin::container_state_from_report(
            &collector::resctrl::AssignReport { assigned: 2, missing: 1 },
        ),
        ContainerSyncState::Partial
    );
}
