//! Text helpers, decimal parsing, the cgroup path policy, the command
//! runner, the analyses, and node identity, on concrete values.

use std::collections::HashMap;

use collector::analysis::{ConcurrencyAnalysis, ConcurrencyRow, CpuTimeCounter};
use collector::cgroup_path::{compute_full_cgroup_path, extract_metadata, ContainerDesc, PodDesc};
use collector::cmd::{default_runner, Nsenter, Runner};
use collector::dec::{parse_i32, u64_to_dec};
use collector::hyperthread::{HyperthreadAnalysis, HyperthreadRow};
use collector::cgroup_path::{metadata_message_for, ContainerLifecycleEvent, MetadataMessage};
use collector::tasks_file::parse_tasks;
use collector::text::{split_char, str_contains, str_starts_with};

#[test]
fn starts_with_and_contains() {
    assert!(str_starts_with("/sys/fs/cgroup/foo", "/sys/fs/cgroup"));
    assert!(!str_starts_with("/sys", "/sys/fs"));
    assert!(str_contains("kubelet.slice/kubepods", ".slice"));
    assert!(!str_contains("kubepods/pod1", ".slice"));
    assert!(str_contains("abc", ""));
}

#[test]
fn split_behaves_like_str_split() {
    let parts = split_char("a:b:c", ':');
    let views: Vec<&str> = parts.iter().map(|s| s.as_str()).collect();
    assert_eq!(views, vec!["a", "b", "c"]);
    let parts = split_char("1\n2\n", '\n');
    let views: Vec<&str> = parts.iter().map(|s| s.as_str()).collect();
    assert_eq!(views, vec!["1", "2", ""]);
    let parts = split_char("", ':');
    assert_eq!(parts.len(), 1);
    assert_eq!(parts[0].as_str(), "");
}

#[test]
fn decimal_parse_cases() {
    assert_eq!(parse_i32("123"), Some(123));
    assert_eq!(parse_i32(" 42 \n"), Some(42));
    assert_eq!(parse_i32("+7"), Some(7));
    assert_eq!(parse_i32("-8"), Some(-8));
    assert_eq!(parse_i32("2147483647"), Some(i32::MAX));
    assert_eq!(parse_i32("-2147483648"), Some(i32::MIN));
    assert_eq!(parse_i32("2147483648"), None);
    assert_eq!(parse_i32("abc"), None);
    assert_eq!(parse_i32(""), None);
    assert_eq!(parse_i32("1 2"), None);
    assert_eq!(parse_i32("007"), Some(7));
}

#[test]
fn decimal_render_cases() {
    assert_eq!(u64_to_dec(0).as_str(), "0");
    assert_eq!(u64_to_dec(7).as_str(), "7");
    assert_eq!(u64_to_dec(1234).as_str(), "1234");
    assert_eq!(u64_to_dec(u64::MAX).as_str(), "18446744073709551615");
}

#[test]
fn tasks_file_parse() {
    let pids = parse_tasks("1\n2\n777\n");
    assert_eq!(pids, vec![1, 2, 777]);
    let pids = parse_tasks("");
    assert!(pids.is_empty());
    let pids = parse_tasks("12\nnope\n34");
    assert_eq!(pids, vec![12, 34]);
}

fn slice_container() -> ContainerDesc {
    ContainerDesc {
        id: "container1".to_string(),
        pod_sandbox_id: "pod1".to_string(),
        name: "test-container".to_string(),
        cgroups_path: "kubelet-kubepods-besteffort-pod123.slice:cri-containerd:abc123def456"
            .to_string(),
        pid: 1234,
        labels: HashMap::new(),
        annotations: HashMap::new(),
    }
}

#[test]
fn test_metadata_extraction() {
    let container = slice_container();
    for with_prefix in [false, true] {
        let parent_no_prefix = "/kubelet.slice/kubelet-kubepods.slice/kubelet-kubepods-besteffort.slice/kubelet-kubepods-besteffort-pod123.slice";
        let parent = if with_prefix {
            format!("/sys/fs/cgroup{}", parent_no_prefix)
        } else {
            parent_no_prefix.to_string()
        };
        let pod = PodDesc {
            id: "pod1".to_string(),
            uid: "pod-uid-123".to_string(),
            name: "test-pod".to_string(),
            namespace: "test-namespace".to_string(),
            cgroup_parent: parent,
        };
        let metadata = extract_metadata(&container, Some(&pod));
        assert_eq!(metadata.container_id, "container1");
        assert_eq!(metadata.pod_name, "test-pod");
        assert_eq!(metadata.pod_namespace, "test-namespace");
        assert_eq!(metadata.pod_uid, "pod-uid-123");
        assert_eq!(metadata.container_name, "test-container");
        assert_eq!(metadata.cgroup_path, "/sys/fs/cgroup/kubelet.slice/kubelet-kubepods.slice/kubelet-kubepods-besteffort.slice/kubelet-kubepods-besteffort-pod123.slice/cri-containerd-abc123def456.scope");
        assert_eq!(metadata.pid, Some(1234));
    }
}

#[test]
fn test_metadata_extraction_without_pod() {
    let mut container = slice_container();
    container.cgroups_path = "system.slice/docker-abc123.scope".to_string();
    let metadata = extract_metadata(&container, None);
    assert_eq!(metadata.container_id, "container1");
    assert_eq!(metadata.pod_name, "");
    assert_eq!(metadata.pod_namespace, "");
    assert_eq!(metadata.pod_uid, "");
    assert_eq!(metadata.cgroup_path, "/sys/fs/cgroup/system.slice/docker-abc123.scope");
    assert_eq!(metadata.pid, Some(1234));
}

#[test]
fn cgroupfs_parent_uses_plain_container_id() {
    let mut container = slice_container();
    container.cgroups_path = "kubepods:cri:cafe12".to_string();
    let pod = PodDesc {
        id: "pod1".to_string(),
        uid: "u".to_string(),
        name: "p".to_string(),
        namespace: "ns".to_string(),
        cgroup_parent: "/kubepods/besteffort/podxyz".to_string(),
    };
    let path = compute_full_cgroup_path(&container, Some(&pod));
    assert_eq!(path, "/sys/fs/cgroup/kubepods/besteffort/podxyz/cafe12");
}

#[test]
fn cpu_time_counter_tracks_aggregate() {
    let mut c = CpuTimeCounter::new();
    assert_eq!(c.get_ns(), 0);
    c.update(100);
    // the first update only sets the clock
    assert_eq!(c.get_ns(), 0);
    c.increase();
    c.increase();
    c.update(150);
    assert_eq!(c.get_ns(), 100);
    c.decrease();
    c.update(200);
    assert_eq!(c.get_ns(), 150);
}

#[test]
fn concurrency_analysis_counts_threads() {
    let mut a = ConcurrencyAnalysis::new(2);
    assert!(!ConcurrencyAnalysis::is_kernel(5));
    assert!(ConcurrencyAnalysis::is_kernel(0));
    let rows = vec![
        ConcurrencyRow {
            timestamp: 1000,
            pid: 5,
            cpu_id: 0,
            is_context_switch: true,
            next_tgid: Some(6),
        },
        ConcurrencyRow {
            timestamp: 2000,
            pid: 6,
            cpu_id: 0,
            is_context_switch: true,
            next_tgid: Some(5),
        },
        ConcurrencyRow {
            timestamp: 3000,
            pid: 5,
            cpu_id: 0,
            is_context_switch: false,
            next_tgid: None,
        },
    ];
    let out = a.process_rows(&rows).expect("rows in range");
    assert_eq!(out.len(), 3);
    // between the two switches exactly one thread ran for 1000 ns
    assert_eq!(out[1].interval, 1000);
    assert_eq!(out[1].total_cpu_delta, 1000);
}

#[test]
fn hyperthread_peer_pairs_across_halves() {
    let h = HyperthreadAnalysis::new(8, "out.parquet".to_string());
    assert_eq!(h.get_hyperthread_peer(0), 4);
    assert_eq!(h.get_hyperthread_peer(4), 0);
    assert_eq!(h.get_hyperthread_peer(3), 7);
}

#[test]
fn hyperthread_counters_follow_peer_occupancy() {
    let mut h = HyperthreadAnalysis::new(2, "out.parquet".to_string());
    let rows = vec![
        // cpu 0 sees its sibling idle in the kernel, then pid 9 arrives
        HyperthreadRow { timestamp: 100, cpu_id: 0, pid: 9, is_context_switch: true },
        HyperthreadRow { timestamp: 300, cpu_id: 1, pid: 7, is_context_switch: true },
        HyperthreadRow { timestamp: 400, cpu_id: 0, pid: 0, is_context_switch: true },
    ];
    let out = h.process_rows(&rows).expect("rows in range");
    assert_eq!(out.len(), 3);
    // at the second event, cpu 1's sibling (cpu 0) runs pid 9: the 200 ns
    // since cpu 1's clock was advanced by the first event count as
    // different-process time; the 100 ns of kernel time charged by the
    // first event are still on cpu 1, whose counters were not yet recorded
    let (same, different, kernel) = out[1];
    assert_eq!(same, 0);
    assert_eq!(different, 200);
    assert_eq!(kernel, 100);
}

#[test]
fn runner_command_lines() {
    let local = default_runner(&None);
    let (prog, args) = local.command_line(
        &"systemctl".to_string(),
        &vec!["restart".to_string(), "k3s".to_string()],
    );
    assert_eq!(prog, "systemctl");
    assert_eq!(args, vec!["restart".to_string(), "k3s".to_string()]);

    let host = default_runner(&Some(Nsenter { path: "/usr/bin/nsenter".to_string() }));
    let (prog, args) = host.command_line(&"systemctl".to_string(), &vec!["status".to_string()]);
    assert_eq!(prog, "/usr/bin/nsenter");
    assert_eq!(
        args,
        vec![
            "--target".to_string(),
            "1".to_string(),
            "--mount".to_string(),
            "--uts".to_string(),
            "--ipc".to_string(),
            "--net".to_string(),
            "--pid".to_string(),
            "--".to_string(),
            "systemctl".to_string(),
            "status".to_string(),
        ]
    );
}

#[test]
fn runner_run_ok_judges_exit_codes() {
    let local = Runner::Local;
    let no_args: Vec<String> = Vec::new();
    let ok = local.run_ok(&"true".to_string(), &no_args, 0, "done".to_string(), String::new());
    assert_eq!(ok.unwrap(), "done");
    let err = local.run_ok(
        &"false".to_string(),
        &vec!["-x".to_string()],
        3,
        String::new(),
        "boom".to_string(),
    );
    match err {
        Err(collector::cmd::CmdError::CommandFailed { program, args, code, stderr }) => {
            assert_eq!(program, "false");
            assert_eq!(args, vec!["-x".to_string()]);
            assert_eq!(code, 3);
            assert_eq!(stderr, "boom");
        }
        other => panic!("expected a failure, got {:?}", other),
    }
}

#[test]
fn metadata_message_dispatch() {
    let c = slice_container();
    let p = PodDesc {
        id: "pod1".to_string(),
        uid: "pod-uid-123".to_string(),
        name: "test-pod".to_string(),
        namespace: "test-namespace".to_string(),
        cgroup_parent: String::new(),
    };
    match metadata_message_for(ContainerLifecycleEvent::StartContainer, Some(&p), Some(&c)) {
        Some(MetadataMessage::Add(id, meta)) => {
            assert_eq!(id, "container1");
            assert_eq!(meta.pod_uid, "pod-uid-123");
        }
        other => panic!("expected an Add message, got {:?}", other),
    }
    match metadata_message_for(ContainerLifecycleEvent::RemoveContainer, None, Some(&c)) {
        Some(MetadataMessage::Remove(id)) => assert_eq!(id, "container1"),
        other => panic!("expected a Remove message, got {:?}", other),
    }
    assert!(metadata_message_for(ContainerLifecycleEvent::Other, Some(&p), Some(&c)).is_none());
    assert!(
        metadata_message_for(ContainerLifecycleEvent::StartContainer, None, Some(&c)).is_none()
    );
}

#[test]
fn node_identity_has_reasonable_shape() {
    let id = collector::node_id::get_node_identity();
    assert!(id.len() < 1024);
}

#[test]
fn analyzer_keeps_output_filename() {
    let a = collector::analyzer::Analyzer::new("augmented.parquet".to_string());
    assert_eq!(a.output_filename(), "augmented.parquet");
}
