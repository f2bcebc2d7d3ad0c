//! Cgroup full-path computation and the container metadata it feeds.
//!
//! The runtime hands over a colon-delimited `cgroups_path` of the form
//! `<unit>:<runtime>:<container_id>` and the pod's `cgroup_parent`. Which
//! layout the node uses is detected by whether the parent carries a
//! `.slice` segment (systemd driver) — this is policy, not parsing, and the
//! runtime does not expose the driver explicitly.

use vstd::prelude::*;

use std::collections::HashMap;

use crate::text::{seq_contains, seq_starts_with, split_char, split_seq, str_contains,
    str_starts_with};

verus! {

/// The fields of a runtime container that this library reads.
#[derive(Clone, Debug)]
pub struct ContainerDesc {
    pub id: String,
    pub pod_sandbox_id: String,
    pub name: String,
    /// Colon-delimited runtime path: `<unit>:<runtime>:<container_id>`.
    pub cgroups_path: String,
    pub pid: u32,
    pub labels: HashMap<String, String>,
    pub annotations: HashMap<String, String>,
}

/// The fields of a runtime pod sandbox that this library reads.
#[derive(Clone, Debug)]
pub struct PodDesc {
    pub id: String,
    pub uid: String,
    pub name: String,
    pub namespace: String,
    pub cgroup_parent: String,
}

/// Container metadata collected for attribution.
#[derive(Debug)]
pub struct ContainerMetadata {
    pub container_id: String,
    pub pod_name: String,
    pub pod_namespace: String,
    pub pod_uid: String,
    pub container_name: String,
    pub cgroup_path: String,
    pub pid: Option<u32>,
    pub labels: HashMap<String, String>,
    pub annotations: HashMap<String, String>,
}

/// Messages carrying container metadata downstream.
#[derive(Debug)]
pub enum MetadataMessage {
    /// Add or update metadata for a container.
    Add(String, Box<ContainerMetadata>),
    /// Remove metadata for a container.
    Remove(String),
}

/// A path rooted at the cgroup mount, without doubling the root.
pub open spec fn ensure_prefix_spec(p: Seq<char>) -> Seq<char> {
    if seq_starts_with(p, "/sys/fs/cgroup"@) {
        p
    } else if p.len() > 0 && p[0] == '/' {
        "/sys/fs/cgroup"@ + p
    } else {
        "/sys/fs/cgroup/"@ + p
    }
}

/// The full cgroup path from the container's raw path and the pod's parent.
pub open spec fn full_cgroup_path_spec(ccp: Seq<char>, pcp: Seq<char>) -> Seq<char> {
    if ccp.len() == 0 && pcp.len() == 0 {
        Seq::empty()
    } else {
        let parts = split_seq(ccp, ':');
        if parts.len() >= 3 && pcp.len() > 0 {
            let fp = ensure_prefix_spec(pcp);
            if seq_contains(fp, ".slice"@) {
                fp + "/"@ + parts[1] + "-"@ + parts[2] + ".scope"@
            } else {
                fp + "/"@ + parts[2]
            }
        } else {
            ensure_prefix_spec(ccp)
        }
    }
}

/// Root a path at the cgroup mount.
fn ensure_cgroup_prefix(path: &str) -> (r: String)
    ensures
        r@ == ensure_prefix_spec(path@),
{
    if str_starts_with(path, "/sys/fs/cgroup") {
        path.to_owned()
    } else if path.unicode_len() > 0 && path.get_char(0) == '/' {
        let mut r = "/sys/fs/cgroup".to_owned();
        r.append(path);
        r
    } else {
        let mut r = "/sys/fs/cgroup/".to_owned();
        r.append(path);
        r
    }
}

/// Compute the full cgroups path from container and pod information.
///
/// With at least three colon-delimited parts and a known parent, a
/// `.slice`-style parent yields `<parent>/<runtime>-<container_id>.scope`
/// and a cgroupfs parent yields `<parent>/<container_id>`; otherwise the
/// container path alone is rooted at the cgroup mount.
pub fn compute_full_cgroup_path(container: &ContainerDesc, pod: Option<&PodDesc>) -> (r: String)
    ensures
        r@ == full_cgroup_path_spec(
            container.cgroups_path@,
            match pod {
                Some(p) => p.cgroup_parent@,
                None => Seq::empty(),
            },
        ),
{
    let empty = String::new();
    let pcp: &String = match pod {
        Some(p) => &p.cgroup_parent,
        None => &empty,
    };
    let ccp = &container.cgroups_path;
    if ccp.as_str().unicode_len() == 0 && pcp.as_str().unicode_len() == 0 {
        return String::new();
    }
    let parts = split_char(ccp.as_str(), ':');
    if parts.len() >= 3 && pcp.as_str().unicode_len() > 0 {
        let fp = ensure_cgroup_prefix(pcp.as_str());
        proof {
            assert(parts@.map_values(|p: String| p@)[1] == parts@[1]@);
            assert(parts@.map_values(|p: String| p@)[2] == parts@[2]@);
        }
        if str_contains(fp.as_str(), ".slice") {
            let mut r = fp;
            r.append("/");
            r.append(parts[1].as_str());
            r.append("-");
            r.append(parts[2].as_str());
            r.append(".scope");
            r
        } else {
            let mut r = fp;
            r.append("/");
            r.append(parts[2].as_str());
            r
        }
    } else {
        ensure_cgroup_prefix(ccp.as_str())
    }
}

/// Extract the metadata record for a container, resolving its full cgroup
/// path; absent pod fields stay empty, and a non-positive pid is unknown.
pub fn extract_metadata(container: &ContainerDesc, pod: Option<&PodDesc>) -> (r: ContainerMetadata)
    ensures
        r.container_id@ == container.id@,
        r.container_name@ == container.name@,
        r.cgroup_path@ == full_cgroup_path_spec(
            container.cgroups_path@,
            match pod {
                Some(p) => p.cgroup_parent@,
                None => Seq::empty(),
            },
        ),
        match pod {
            Some(p) => r.pod_name@ == p.name@ && r.pod_namespace@ == p.namespace@ && r.pod_uid@
                == p.uid@,
            None => r.pod_name@.len() == 0 && r.pod_namespace@.len() == 0 && r.pod_uid@.len()
                == 0,
        },
        container.pid > 0 ==> r.pid == Some(container.pid),
        container.pid == 0 ==> r.pid is None,
        r.labels@ == container.labels@,
        r.annotations@ == container.annotations@,
{
    let cgroup_path = compute_full_cgroup_path(container, pod);
    let (pod_name, pod_namespace, pod_uid) = match pod {
        Some(p) => (p.name.clone(), p.namespace.clone(), p.uid.clone()),
        None => (String::new(), String::new(), String::new()),
    };
    ContainerMetadata {
        container_id: container.id.clone(),
        pod_name,
        pod_namespace,
        pod_uid,
        container_name: container.name.clone(),
        cgroup_path,
        pid: if container.pid > 0 {
            Some(container.pid)
        } else {
            None
        },
        labels: container.labels.clone(),
        annotations: container.annotations.clone(),
    }
}

/// Container lifecycle notifications the metadata stream reacts to.
#[derive(Clone, Copy, Debug, PartialEq, Eq, Structural)]
pub enum ContainerLifecycleEvent {
    /// The container started and its cgroup exists.
    StartContainer,
    /// The container is being removed.
    RemoveContainer,
    /// Anything else: ignored.
    Other,
}

/// The message one lifecycle notification yields: a started container is
/// added under its id with freshly extracted metadata — only when both pod
/// and container were delivered — a removed one drops its entry, and
/// anything else is silent.
pub fn metadata_message_for(
    event: ContainerLifecycleEvent,
    pod: Option<&PodDesc>,
    container: Option<&ContainerDesc>,
) -> (r: Option<MetadataMessage>)
    ensures
        match event {
            ContainerLifecycleEvent::StartContainer => match (pod, container) {
                (Some(p), Some(c)) => r matches Some(m) && (m matches MetadataMessage::Add(
                    id,
                    meta,
                ) && id@ == c.id@ && meta.container_id@ == c.id@ && meta.cgroup_path@
                    == full_cgroup_path_spec(c.cgroups_path@, p.cgroup_parent@) && meta.pod_uid@
                    == p.uid@),
                _ => r is None,
            },
            ContainerLifecycleEvent::RemoveContainer => match container {
                Some(c) => r matches Some(m) && (m matches MetadataMessage::Remove(id) && id@
                    == c.id@),
                None => r is None,
            },
            ContainerLifecycleEvent::Other => r is None,
        },
{
    match event {
        ContainerLifecycleEvent::StartContainer => match (pod, container) {
            (Some(p), Some(c)) => {
                let meta = extract_metadata(c, Some(p));
                Some(MetadataMessage::Add(c.id.clone(), Box::new(meta)))
            },
            _ => None,
        },
        ContainerLifecycleEvent::RemoveContainer => match container {
            Some(c) => Some(MetadataMessage::Remove(c.id.clone())),
            None => None,
        },
        ContainerLifecycleEvent::Other => None,
    }
}

} // verus!
