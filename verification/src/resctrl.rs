//! The resctrl handle: group creation and deletion, PID assignment, the
//! reconcile loop, and startup cleanup, over an abstract filesystem
//! capability.

use vstd::prelude::*;

use crate::dec::u64_to_dec;
use crate::fs::{is_child_of, join_seq, path_join, FsErrorKind, FsModel, FsProvider};
use crate::tasks_file::{
    lemma_tasks_append, lemma_tasks_terminate, nl_terminated, parse_tasks, tasks_set,
};
use crate::text::{seq_starts_with, str_starts_with};

verus! {

/// The flat error taxonomy of resctrl operations.
#[derive(Clone, Copy, PartialEq, Eq, Structural, Debug)]
pub enum ResctrlError {
    /// resctrl is not mounted and auto-mounting was not allowed.
    NotMounted,
    /// Mounting was attempted and failed.
    MountFailed,
    /// The kernel refused group creation: RMID exhaustion.
    Capacity,
    /// Any other unexpected I/O failure.
    Io,
    /// The task exited before it could be assigned.
    PidGone,
    /// The target group vanished underneath the operation.
    GroupGone,
}

/// Where the resctrl hierarchy lives and how this agent's groups are named.
#[derive(Clone, Debug)]
pub struct ResctrlConfig {
    pub root: String,
    pub group_prefix: String,
}

impl Default for ResctrlConfig {
    /// The kernel mount point and the prefix this agent owns.
    fn default() -> (r: ResctrlConfig)
        ensures
            r.root@ == "/sys/fs/resctrl"@,
            r.group_prefix@ == "pod_"@,
    {
        ResctrlConfig { root: "/sys/fs/resctrl".to_owned(), group_prefix: "pod_".to_owned() }
    }
}

/// Outcome of one reconcile: pids written, and pids of the last snapshot
/// that are still not in the group.
#[derive(Clone, Copy, PartialEq, Eq, Structural, Debug)]
pub struct AssignReport {
    pub assigned: usize,
    pub missing: usize,
}

/// Outcome of startup cleanup.
#[derive(Clone, Copy, PartialEq, Eq, Structural, Debug)]
pub struct CleanupReport {
    pub removed: usize,
    pub removal_failures: usize,
    pub removal_race: usize,
    pub non_prefix_groups: usize,
}

/// Supplies the live PID set of a cgroup. The result is racy by nature —
/// containers fork and exit at will — so no two calls need to agree, and
/// nothing is promised of the returned set.
pub trait CgroupPidSource: Sized {
    fn pids_for_path(&self, cgroup_path: &String) -> (r: Result<Vec<i32>, ResctrlError>);
}

/// The set of pids a resolver result denotes.
pub open spec fn vec_pid_set(v: Seq<i32>) -> Set<int> {
    v.map_values(|p: i32| p as int).to_set()
}

/// The pids a model's `tasks` file holds; empty when the file is absent.
pub open spec fn file_tasks_set(m: FsModel, path: Seq<char>) -> Set<int> {
    if m.files.contains_key(path) {
        tasks_set(m.files[path])
    } else {
        Set::empty()
    }
}

/// Two filesystem states that differ at most in the file at `k`.
pub open spec fn files_same_but(m1: FsModel, m0: FsModel, k: Seq<char>) -> bool {
    &&& m1.dirs == m0.dirs
    &&& m1.mounted == m0.mounted
    &&& forall|x: Seq<char>|
        x != k ==> ((#[trigger] m1.files.contains_key(x)) == m0.files.contains_key(x) && (
        m0.files.contains_key(x) ==> m1.files[x] == m0.files[x]))
}

/// Whether every pid of `resolved` is present in `present`.
pub fn pids_all_present(resolved: &Vec<i32>, present: &Vec<i32>) -> (r: bool)
    ensures
        r == vec_pid_set(resolved@).subset_of(vec_pid_set(present@)),
{
    let n = resolved.len();
    let mut i: usize = 0;
    while i < n
        invariant
            i <= n,
            n == resolved@.len(),
            forall|j: int| 0 <= j < i ==> vec_pid_set(present@).contains(resolved@[j] as int),
        decreases n - i,
    {
        if !contains_pid(present, resolved[i]) {
            proof {
                lemma_vec_pid_set_member(resolved@, i as int);
            }
            return false;
        }
        i += 1;
    }
    proof {
        assert forall|x: int| vec_pid_set(resolved@).contains(x) implies vec_pid_set(
            present@,
        ).contains(x) by {
            let m = resolved@.map_values(|p: i32| p as int);
            let j = choose|j: int| 0 <= j < m.len() && #[trigger] m[j] == x;
        }
    }
    true
}

/// How many pids of `resolved` are missing from `present`, counted with
/// multiplicity; zero exactly when all are present.
pub fn count_missing(resolved: &Vec<i32>, present: &Vec<i32>) -> (r: usize)
    ensures
        (r == 0) == vec_pid_set(resolved@).subset_of(vec_pid_set(present@)),
{
    let n = resolved.len();
    let mut missing: usize = 0;
    let mut i: usize = 0;
    while i < n
        invariant
            i <= n,
            n == resolved@.len(),
            missing <= i,
            (missing == 0) <==> forall|j: int|
                0 <= j < i ==> vec_pid_set(present@).contains(resolved@[j] as int),
        decreases n - i,
    {
        if !contains_pid(present, resolved[i]) {
            missing += 1;
            proof {
                lemma_vec_pid_set_member(resolved@, i as int);
            }
        }
        i += 1;
    }
    proof {
        if missing == 0 {
            assert forall|x: int| vec_pid_set(resolved@).contains(x) implies vec_pid_set(
                present@,
            ).contains(x) by {
                let m = resolved@.map_values(|p: i32| p as int);
                let j = choose|j: int| 0 <= j < m.len() && #[trigger] m[j] == x;
            }
        } else {
            let j = choose|j: int|
                0 <= j < n && !vec_pid_set(present@).contains(resolved@[j] as int);
            lemma_vec_pid_set_member(resolved@, j);
        }
    }
    missing
}

/// Whether `v` holds `p`.
pub fn contains_pid(v: &Vec<i32>, p: i32) -> (r: bool)
    ensures
        r == vec_pid_set(v@).contains(p as int),
{
    let n = v.len();
    let mut i: usize = 0;
    while i < n
        invariant
            i <= n,
            n == v@.len(),
            forall|j: int| 0 <= j < i ==> v@[j] != p,
        decreases n - i,
    {
        if v[i] == p {
            proof {
                lemma_vec_pid_set_member(v@, i as int);
            }
            return true;
        }
        i += 1;
    }
    proof {
        if vec_pid_set(v@).contains(p as int) {
            let m = v@.map_values(|q: i32| q as int);
            let j = choose|j: int| 0 <= j < m.len() && #[trigger] m[j] == p as int;
            assert(v@[j] == p);
        }
    }
    false
}

proof fn lemma_vec_pid_set_member(v: Seq<i32>, i: int)
    requires
        0 <= i < v.len(),
    ensures
        vec_pid_set(v).contains(v[i] as int),
{
    assert(v.map_values(|p: i32| p as int)[i] == v[i] as int);
}

/// The filesystem-backed resctrl primitive, generic over the capability.
pub struct Resctrl<P: FsProvider> {
    provider: P,
    cfg: ResctrlConfig,
}

impl<P: FsProvider> Resctrl<P> {
    /// The filesystem as this handle sees it.
    pub closed spec fn fs(&self) -> FsModel {
        self.provider.fs()
    }

    pub closed spec fn root_spec(&self) -> Seq<char> {
        self.cfg.root@
    }

    pub closed spec fn prefix_spec(&self) -> Seq<char> {
        self.cfg.group_prefix@
    }

    /// The group directory for a pod: `root/<prefix><uid>`.
    pub open spec fn group_path_spec(&self, uid: Seq<char>) -> Seq<char> {
        join_seq(self.root_spec(), self.prefix_spec() + uid)
    }

    /// The `tasks` file of a group.
    pub open spec fn tasks_path_spec(group_path: Seq<char>) -> Seq<char> {
        join_seq(group_path, "tasks"@)
    }

    /// The provider value itself.
    pub closed spec fn provider_spec(&self) -> P {
        self.provider
    }

    /// Borrow the underlying provider, for read-only inspection.
    pub fn provider_ref(&self) -> (r: &P)
        ensures
            r.fs() == self.fs(),
    {
        &self.provider
    }

    /// Borrow the underlying provider mutably; the handle's configuration
    /// is untouched and its filesystem view follows the borrow.
    pub fn provider_mut(&mut self) -> (r: &mut P)
        ensures
            *r == old(self).provider_spec(),
            final(self).provider_spec() == *final(r),
            final(self).root_spec() == old(self).root_spec(),
            final(self).prefix_spec() == old(self).prefix_spec(),
            final(self).fs() == final(r).fs(),
    {
        &mut self.provider
    }

    pub fn with_provider(provider: P, cfg: ResctrlConfig) -> (r: Resctrl<P>)
        ensures
            r.fs() == provider.fs(),
            r.root_spec() == cfg.root@,
            r.prefix_spec() == cfg.group_prefix@,
    {
        Resctrl { provider, cfg }
    }

    /// Succeed when resctrl is mounted, mounting it first when allowed.
    pub fn ensure_mounted(&mut self, auto_mount: bool) -> (r: Result<(), ResctrlError>)
        ensures
            final(self).root_spec() == old(self).root_spec(),
            final(self).prefix_spec() == old(self).prefix_spec(),
            match r {
                Ok(()) => {
                    &&& final(self).fs().mounted
                    &&& old(self).fs().mounted ==> final(self).fs() == old(self).fs()
                    &&& !old(self).fs().mounted ==> final(self).fs() == (FsModel {
                        dirs: old(self).fs().dirs.insert(old(self).root_spec()).insert(
                            join_seq(old(self).root_spec(), "mon_groups"@),
                        ).insert(join_seq(old(self).root_spec(), "info"@)),
                        files: old(self).fs().files,
                        mounted: true,
                    })
                },
                Err(ResctrlError::NotMounted) => !auto_mount && !old(self).fs().mounted
                    && final(self).fs() == old(self).fs(),
                Err(ResctrlError::MountFailed) => auto_mount && !old(self).fs().mounted
                    && final(self).fs() == old(self).fs(),
                Err(_) => false,
            },
    {
        if self.provider.resctrl_mounted() {
            return Ok(());
        }
        if !auto_mount {
            return Err(ResctrlError::NotMounted);
        }
        let root = self.cfg.root.clone();
        match self.provider.mount_resctrl(&root) {
            Ok(()) => Ok(()),
            Err(_) => Err(ResctrlError::MountFailed),
        }
    }

    /// Create the group for a pod. A group another agent created concurrently
    /// counts as success; RMID exhaustion is the distinct capacity error.
    pub fn create_group(&mut self, pod_uid: &String) -> (r: Result<String, ResctrlError>)
        ensures
            final(self).root_spec() == old(self).root_spec(),
            final(self).prefix_spec() == old(self).prefix_spec(),
            match r {
                Ok(path) => {
                    &&& path@ == old(self).group_path_spec(pod_uid@)
                    &&& final(self).fs().dirs == old(self).fs().dirs.insert(path@)
                    &&& final(self).fs().files == old(self).fs().files
                    &&& final(self).fs().mounted == old(self).fs().mounted
                },
                Err(ResctrlError::Capacity) => final(self).fs() == old(self).fs(),
                Err(ResctrlError::Io) => final(self).fs() == old(self).fs(),
                Err(_) => false,
            },
    {
        let mut name = self.cfg.group_prefix.clone();
        name.append(pod_uid.as_str());
        let path = path_join(&self.cfg.root, name.as_str());
        match self.provider.create_dir(&path) {
            Ok(()) => Ok(path),
            Err(FsErrorKind::AlreadyExists) => {
                proof {
                    assert(old(self).fs().dirs.insert(path@) =~= old(self).fs().dirs);
                }
                Ok(path)
            },
            Err(FsErrorKind::NoSpace) => Err(ResctrlError::Capacity),
            Err(_) => Err(ResctrlError::Io),
        }
    }

    /// Delete a group; a group already gone counts as success.
    pub fn delete_group(&mut self, group_path: &String) -> (r: Result<(), ResctrlError>)
        ensures
            final(self).root_spec() == old(self).root_spec(),
            final(self).prefix_spec() == old(self).prefix_spec(),
            match r {
                Ok(()) => {
                    &&& !final(self).fs().dirs.contains(group_path@)
                    &&& final(self).fs().dirs == old(self).fs().dirs.remove(group_path@)
                    &&& final(self).fs().mounted == old(self).fs().mounted
                },
                Err(ResctrlError::Io) => final(self).fs() == old(self).fs(),
                Err(_) => false,
            },
    {
        match self.provider.remove_dir(group_path) {
            Ok(()) => Ok(()),
            Err(FsErrorKind::NotFound) => {
                proof {
                    assert(old(self).fs().dirs.remove(group_path@) =~= old(self).fs().dirs);
                }
                Ok(())
            },
            Err(_) => Err(ResctrlError::Io),
        }
    }

    /// Write one pid into a group's `tasks` file. An exited task is the
    /// distinct `PidGone`; a vanished group is `GroupGone`.
    pub fn assign_pid(&mut self, group_path: &String, pid: i32) -> (r: Result<(), ResctrlError>)
        requires
            pid >= 0,
        ensures
            final(self).root_spec() == old(self).root_spec(),
            final(self).prefix_spec() == old(self).prefix_spec(),
            match r {
                Ok(()) => {
                    &&& files_same_but(
                        final(self).fs(),
                        old(self).fs(),
                        Self::tasks_path_spec(group_path@),
                    )
                    &&& file_tasks_set(final(self).fs(), Self::tasks_path_spec(group_path@))
                        == file_tasks_set(
                        old(self).fs(),
                        Self::tasks_path_spec(group_path@),
                    ).insert(pid as int)
                },
                Err(ResctrlError::PidGone) => final(self).fs() == old(self).fs(),
                Err(ResctrlError::GroupGone) => final(self).fs() == old(self).fs(),
                Err(ResctrlError::Io) => final(self).fs() == old(self).fs(),
                Err(_) => false,
            },
    {
        let tpath = path_join(group_path, "tasks");
        // normalize: keep the file newline-terminated before appending
        let mut line = String::new();
        match self.provider.read_to_string(&tpath) {
            Ok(content) => {
                let cn = content.as_str().unicode_len();
                if cn > 0 && content.as_str().get_char(cn - 1) != '\n' {
                    proof {
                        reveal_strlit("\n");
                        assert("\n"@ =~= seq!['\n']);
                    }
                    line.append("\n");
                }
            },
            Err(FsErrorKind::NotFound) => {},
            Err(_) => {
                return Err(ResctrlError::Io);
            },
        }
        let dec = u64_to_dec(pid as u64);
        line.append(dec.as_str());
        proof {
            reveal_strlit("\n");
        }
        line.append("\n");
        let res = self.provider.write_str(&tpath, &line);
        match res {
            Ok(()) => {
                proof {
                    let t = Self::tasks_path_spec(group_path@);
                    let before = if old(self).fs().files.contains_key(t) {
                        old(self).fs().files[t]
                    } else {
                        Seq::<char>::empty()
                    };
                    let after = self.fs().files[t];
                    if nl_terminated(before) {
                        assert(line@ =~= crate::dec::dec_digits(pid as nat) + seq!['\n']);
                        assert(after =~= before + crate::dec::dec_digits(pid as nat)
                            + seq!['\n']);
                        lemma_tasks_append(before, pid as nat);
                    } else {
                        lemma_tasks_terminate(before);
                        assert(line@ =~= seq!['\n'] + crate::dec::dec_digits(pid as nat)
                            + seq!['\n']);
                        assert(after =~= (before + seq!['\n']) + crate::dec::dec_digits(
                            pid as nat,
                        ) + seq!['\n']);
                        lemma_tasks_append(before + seq!['\n'], pid as nat);
                    }
                    assert(tasks_set(after) =~= tasks_set(before).insert(pid as int)) by {
                        lemma_to_set_push_int(tasks_set_pids_helper(before), pid as int);
                    }
                    assert(file_tasks_set(self.fs(), t) =~= file_tasks_set(
                        old(self).fs(),
                        t,
                    ).insert(pid as int)) by {
                        if !old(self).fs().files.contains_key(t) {
                            assert(tasks_set(Seq::<char>::empty()) =~= Set::<int>::empty()) by {
                                lemma_empty_tasks();
                            }
                        }
                    }
                }
                Ok(())
            },
            Err(FsErrorKind::NoProcess) => Err(ResctrlError::PidGone),
            Err(FsErrorKind::NotFound) => Err(ResctrlError::GroupGone),
            Err(_) => Err(ResctrlError::Io),
        }
    }

    /// Parse a group's `tasks` file into the pids it holds.
    pub fn list_group_tasks(&self, group_path: &String) -> (r: Result<Vec<i32>, ResctrlError>)
        ensures
            match r {
                Ok(v) => vec_pid_set(v@) == file_tasks_set(
                    self.fs(),
                    Self::tasks_path_spec(group_path@),
                ),
                Err(ResctrlError::GroupGone) => !self.fs().dirs.contains(group_path@),
                Err(ResctrlError::Io) => true,
                Err(_) => false,
            },
    {
        let tpath = path_join(group_path, "tasks");
        match self.provider.read_to_string(&tpath) {
            Ok(content) => {
                let v = parse_tasks(content.as_str());
                proof {
                    assert(vec_pid_set(v@) =~= tasks_set(content@));
                }
                Ok(v)
            },
            Err(FsErrorKind::NotFound) => {
                if self.provider.exists_dir(group_path) {
                    let v: Vec<i32> = Vec::new();
                    proof {
                        assert(v@.map_values(|p: i32| p as int) =~= Seq::<int>::empty());
                        assert(vec_pid_set(v@) =~= Set::<int>::empty());
                        if vec_pid_set(v@).contains(0int) {
                        }
                    }
                    Ok(v)
                } else {
                    Err(ResctrlError::GroupGone)
                }
            },
            Err(_) => Err(ResctrlError::Io),
        }
    }
}

/// The union of a sequence of pid sets.
pub open spec fn union_all(s: Seq<Set<int>>) -> Set<int>
    decreases s.len(),
{
    if s.len() == 0 {
        Set::empty()
    } else {
        union_all(s.drop_last()).union(s.last())
    }
}

proof fn lemma_union_all_push(s: Seq<Set<int>>, x: Set<int>)
    ensures
        union_all(s.push(x)) == union_all(s).union(x),
{
    assert(s.push(x).drop_last() =~= s);
    assert(s.push(x).last() == x);
}

impl<P: FsProvider> Resctrl<P> {
    /// Converge the group's `tasks` file onto the live PID set of a cgroup.
    ///
    /// Each pass reads the file, writes the pids of the current snapshot
    /// that are not yet present — an exited task is skipped — and then takes
    /// a fresh snapshot; the newest snapshot is always drained before
    /// terminating and is handed back beside the report. The report's
    /// `missing` is zero exactly when every pid of that last snapshot ended
    /// up in the file; pids can only be added, only to this group's `tasks`
    /// file, and only out of the snapshots seen.
    pub fn reconcile_group<S: CgroupPidSource>(
        &mut self,
        group_path: &String,
        pid_source: &S,
        cgroup_path: &String,
        max_passes: usize,
    ) -> (r: Result<(AssignReport, Vec<i32>), ResctrlError>)
        requires
            max_passes >= 1,
        ensures
            final(self).root_spec() == old(self).root_spec(),
            final(self).prefix_spec() == old(self).prefix_spec(),
            files_same_but(
                final(self).fs(),
                old(self).fs(),
                Self::tasks_path_spec(group_path@),
            ),
            file_tasks_set(old(self).fs(), Self::tasks_path_spec(group_path@)).subset_of(
                file_tasks_set(final(self).fs(), Self::tasks_path_spec(group_path@)),
            ),
            match r {
                Ok((rep, last)) => {
                    &&& (rep.missing == 0 <==> vec_pid_set(last@).subset_of(
                        file_tasks_set(final(self).fs(), Self::tasks_path_spec(group_path@)),
                    ))
                    &&& exists|snaps: Seq<Set<int>>|
                        {
                            &&& 2 <= snaps.len() <= max_passes + 1
                            &&& (#[trigger] snaps.last()) == vec_pid_set(last@)
                            &&& file_tasks_set(
                                final(self).fs(),
                                Self::tasks_path_spec(group_path@),
                            ).subset_of(
                                file_tasks_set(
                                    old(self).fs(),
                                    Self::tasks_path_spec(group_path@),
                                ).union(union_all(snaps)),
                            )
                        }
                },
                Err(_) => true,
            },
    {
        let t = Ghost(Self::tasks_path_spec(group_path@));
        let mut snap: Vec<i32> = match pid_source.pids_for_path(cgroup_path) {
            Ok(v) => v,
            Err(e) => {
                return Err(e);
            },
        };
        let ghost mut snaps: Seq<Set<int>> = seq![vec_pid_set(snap@)];
        proof {
            assert(union_all(seq![vec_pid_set(snap@)]) =~= vec_pid_set(snap@)) by {
                let single: Seq<Set<int>> = seq![vec_pid_set(snap@)];
                assert(single.drop_last() =~= Seq::<Set<int>>::empty());
                assert(union_all(Seq::<Set<int>>::empty()) == Set::<int>::empty());
                assert(union_all(single.drop_last()) == Set::<int>::empty());
                assert(single.last() == vec_pid_set(snap@));
                assert(union_all(single) == union_all(single.drop_last()).union(single.last()));
            }
        }
        let mut assigned: usize = 0;
        let mut pass: usize = 0;
        loop
            invariant
                max_passes >= 1,
                pass < max_passes,
                self.root_spec() == old(self).root_spec(),
                self.prefix_spec() == old(self).prefix_spec(),
                t@ == Self::tasks_path_spec(group_path@),
                files_same_but(self.fs(), old(self).fs(), t@),
                file_tasks_set(old(self).fs(), t@).subset_of(file_tasks_set(self.fs(), t@)),
                snaps.len() == pass + 1,
                snaps.last() == vec_pid_set(snap@),
                file_tasks_set(self.fs(), t@).subset_of(
                    file_tasks_set(old(self).fs(), t@).union(union_all(snaps)),
                ),
            decreases max_passes - pass,
        {
            let mut cur: Vec<i32> = match self.list_group_tasks(group_path) {
                Ok(v) => v,
                Err(e) => {
                    return Err(e);
                },
            };
            let n = snap.len();
            let mut i: usize = 0;
            while i < n
                invariant
                    i <= n,
                    n == snap@.len(),
                    max_passes >= 1,
                    pass < max_passes,
                    self.root_spec() == old(self).root_spec(),
                    self.prefix_spec() == old(self).prefix_spec(),
                    t@ == Self::tasks_path_spec(group_path@),
                    files_same_but(self.fs(), old(self).fs(), t@),
                    file_tasks_set(old(self).fs(), t@).subset_of(file_tasks_set(self.fs(), t@)),
                    snaps.len() == pass + 1,
                    snaps.last() == vec_pid_set(snap@),
                    vec_pid_set(cur@) == file_tasks_set(self.fs(), t@),
                    file_tasks_set(self.fs(), t@).subset_of(
                        file_tasks_set(old(self).fs(), t@).union(union_all(snaps)),
                    ),
                decreases n - i,
            {
                let p = snap[i];
                let pre_fs = Ghost(self.fs());
                if p >= 0 && !contains_pid(&cur, p) {
                    match self.assign_pid(group_path, p) {
                        Ok(()) => {
                            let pre_cur = Ghost(cur@);
                            cur.push(p);
                            assigned = if assigned < usize::MAX {
                                assigned + 1
                            } else {
                                assigned
                            };
                            proof {
                                lemma_vec_pid_set_push(pre_cur@, p);
                                assert(pre_cur@.push(p) =~= cur@);
                                lemma_vec_pid_set_member(snap@, i as int);
                                assert(union_all(snaps).contains(p as int)) by {
                                    assert(snaps.last() == snaps[snaps.len() - 1]);
                                    lemma_union_all_member(snaps, snaps.len() - 1);
                                }
                                assert(files_same_but(pre_fs@, old(self).fs(), t@));
                                assert(files_same_but(self.fs(), pre_fs@, t@));
                                assert(files_same_but(self.fs(), old(self).fs(), t@)) by {
                                    assert forall|x: Seq<char>| x != t@ implies (self
                                        .fs().files.contains_key(x) == old(
                                        self,
                                    ).fs().files.contains_key(x) && (old(
                                        self,
                                    ).fs().files.contains_key(x) ==> self.fs().files[x] == old(
                                        self,
                                    ).fs().files[x])) by {
                                        assert(self.fs().files.contains_key(x)
                                            == pre_fs@.files.contains_key(x));
                                        assert(pre_fs@.files.contains_key(x) == old(
                                            self,
                                        ).fs().files.contains_key(x));
                                        if old(self).fs().files.contains_key(x) {
                                            assert(pre_fs@.files[x] == old(self).fs().files[x]);
                                            assert(self.fs().files[x] == pre_fs@.files[x]);
                                        }
                                    }
                                }
                                assert(vec_pid_set(cur@) == file_tasks_set(self.fs(), t@));
                                assert(file_tasks_set(self.fs(), t@).subset_of(
                                    file_tasks_set(old(self).fs(), t@).union(union_all(snaps)),
                                ));
                            }
                        },
                        Err(ResctrlError::PidGone) => {},
                        Err(ResctrlError::GroupGone) => {
                            return Err(ResctrlError::GroupGone);
                        },
                        Err(_) => {
                            return Err(ResctrlError::Io);
                        },
                    }
                }
                i += 1;
            }
            let next: Vec<i32> = match pid_source.pids_for_path(cgroup_path) {
                Ok(v) => v,
                Err(e) => {
                    return Err(e);
                },
            };
            proof {
                lemma_union_all_push(snaps, vec_pid_set(next@));
                snaps = snaps.push(vec_pid_set(next@));
            }
            if pids_all_present(&next, &cur) {
                proof {
                    assert(snaps.last() == vec_pid_set(next@));
                }
                return Ok((AssignReport { assigned, missing: 0 }, next));
            }
            pass += 1;
            if pass >= max_passes {
                let missing = count_missing(&next, &cur);
                proof {
                    assert(snaps.last() == vec_pid_set(next@));
                }
                return Ok((AssignReport { assigned, missing }, next));
            }
            snap = next;
        }
    }

    /// Remove every group of this agent's prefix under the root and under
    /// `mon_groups`; `info`, `mon_groups` itself and entries of other names
    /// are never touched.
    pub fn cleanup_all(&mut self) -> (r: Result<CleanupReport, ResctrlError>)
        ensures
            final(self).root_spec() == old(self).root_spec(),
            final(self).prefix_spec() == old(self).prefix_spec(),
            final(self).fs().mounted == old(self).fs().mounted,
            // no directory is created, and only prefix-named children of the
            // root or of mon_groups are ever removed
            final(self).fs().dirs.subset_of(old(self).fs().dirs),
            forall|d: Seq<char>|
                old(self).fs().dirs.contains(d)
                    && !(#[trigger] final(self).fs().dirs.contains(d)) ==> cleanup_target(
                    d,
                    old(self).root_spec(),
                    old(self).prefix_spec(),
                ),
            match r {
                Ok(rep) => rep.removal_failures == 0 && rep.removal_race == 0
                    ==> forall|d: Seq<char>|
                    old(self).fs().dirs.contains(d) && #[trigger] cleanup_target(
                        d,
                        old(self).root_spec(),
                        old(self).prefix_spec(),
                    ) && old(self).fs().dirs.contains(
                        target_base(d, old(self).root_spec()),
                    ) ==> !final(self).fs().dirs.contains(d),
                Err(ResctrlError::Io) => true,
                Err(_) => false,
            },
    {
        let mut rep = CleanupReport { removed: 0, removal_failures: 0, removal_race: 0,
            non_prefix_groups: 0 };
        let root = self.cfg.root.clone();
        let r1 = self.cleanup_base(&root, &mut rep);
        let mid = Ghost(self.fs());
        if let Err(e) = r1 {
            return Err(e);
        }
        let mon = path_join(&self.cfg.root, "mon_groups");
        let r2 = self.cleanup_base(&mon, &mut rep);
        proof {
            assert forall|d: Seq<char>|
                old(self).fs().dirs.contains(d)
                    && !(#[trigger] self.fs().dirs.contains(d)) implies cleanup_target(
                d,
                old(self).root_spec(),
                old(self).prefix_spec(),
            ) by {
                if mid@.dirs.contains(d) {
                    assert(sweep_target(d, mon@, old(self).prefix_spec()));
                } else {
                    assert(sweep_target(d, root@, old(self).prefix_spec()));
                }
            }
        }
        if let Err(e) = r2 {
            return Err(e);
        }
        proof {
            reveal_strlit("mon_groups");
            assert(!"mon_groups"@.contains('/')) by {
                if "mon_groups"@.contains('/') {
                    let t = choose|t: int|
                        0 <= t < "mon_groups"@.len() && "mon_groups"@[t] == '/';
                }
            }
            if rep.removal_failures == 0 && rep.removal_race == 0 {
                assert forall|d: Seq<char>|
                    old(self).fs().dirs.contains(d) && #[trigger] cleanup_target(
                        d,
                        old(self).root_spec(),
                        old(self).prefix_spec(),
                    ) && old(self).fs().dirs.contains(
                        target_base(d, old(self).root_spec()),
                    ) implies !self.fs().dirs.contains(d) by {
                    if sweep_target(d, root@, old(self).prefix_spec()) {
                        assert(!mid@.dirs.contains(d));
                    } else {
                        assert(sweep_target(d, mon@, old(self).prefix_spec()));
                        assert(target_base(d, old(self).root_spec()) == mon@) by {
                            if is_child_of(d, old(self).root_spec()) {
                                lemma_child_of_both(d, old(self).root_spec(), mon@);
                            }
                        }
                        if mid@.dirs.contains(d) {
                            // mon_groups itself was spared by the first
                            // sweep, so the second sweep saw and removed d
                            assert(mid@.dirs.contains(mon@)) by {
                                if !mid@.dirs.contains(mon@) {
                                    assert(sweep_target(
                                        mon@,
                                        root@,
                                        old(self).prefix_spec(),
                                    ));
                                    lemma_join_is_child_name(root@, "mon_groups"@);
                                }
                            }
                        }
                    }
                }
            }
        }
        Ok(rep)
    }

    /// Sweep one base directory: remove its prefix-named children, counting
    /// outcomes into the report.
    fn cleanup_base(&mut self, base: &String, rep: &mut CleanupReport) -> (r: Result<
        (),
        ResctrlError,
    >)
        ensures
            final(self).root_spec() == old(self).root_spec(),
            final(self).prefix_spec() == old(self).prefix_spec(),
            final(self).fs().mounted == old(self).fs().mounted,
            final(self).fs().dirs.subset_of(old(self).fs().dirs),
            final(rep).removal_failures >= old(rep).removal_failures,
            final(rep).removal_race >= old(rep).removal_race,
            r matches Err(e) ==> e == ResctrlError::Io,
            forall|d: Seq<char>|
                old(self).fs().dirs.contains(d)
                    && !(#[trigger] final(self).fs().dirs.contains(d)) ==> sweep_target(
                    d,
                    base@,
                    old(self).prefix_spec(),
                ),
            r is Ok && final(rep).removal_failures == old(rep).removal_failures
                && old(rep).removal_failures < usize::MAX && final(rep).removal_race == old(
                rep,
            ).removal_race && old(rep).removal_race < usize::MAX ==> forall|d: Seq<char>|
                old(self).fs().dirs.contains(d) && #[trigger] sweep_target(
                    d,
                    base@,
                    old(self).prefix_spec(),
                ) && old(self).fs().dirs.contains(base@) ==> !final(self).fs().dirs.contains(d),
    {
        if !self.provider.exists_dir(base) {
            return Ok(());
        }
        let names = match self.provider.list_dir(base) {
            Ok(v) => v,
            Err(_) => {
                return Err(ResctrlError::Io);
            },
        };
        let entry_fs = Ghost(self.fs());
        let entry_rep = Ghost(*rep);
        let info_name: String = "info".to_owned();
        let mon_name: String = "mon_groups".to_owned();
        let n = names.len();
        let mut i: usize = 0;
        while i < n
            invariant
                i <= n,
                n == names@.len(),
                info_name@ == "info"@,
                mon_name@ == "mon_groups"@,
                self.root_spec() == old(self).root_spec(),
                self.prefix_spec() == old(self).prefix_spec(),
                self.fs().mounted == entry_fs@.mounted,
                entry_fs@ == old(self).fs(),
                self.fs().dirs.subset_of(entry_fs@.dirs),
                rep.removal_failures >= entry_rep@.removal_failures,
                rep.removal_race >= entry_rep@.removal_race,
                entry_rep@ == *old(rep),
                forall|a: int, b: int| 0 <= a < b < names@.len() ==> names@[a]@ != names@[b]@,
                forall|a: int|
                    0 <= a < names@.len() ==> entry_fs@.dirs.contains(
                        join_seq(base@, #[trigger] names@[a]@),
                    ) && names@[a]@.len() > 0 && !names@[a]@.contains('/'),
                forall|d: Seq<char>|
                    #[trigger] entry_fs@.dirs.contains(d) && is_child_of(d, base@) ==> exists|
                        a: int,
                    |
                        0 <= a < names@.len() && #[trigger] names@[a]@ == crate::fs::child_name(
                            d,
                            base@,
                        ),
                forall|d: Seq<char>|
                    entry_fs@.dirs.contains(d) && !(#[trigger] self.fs().dirs.contains(d))
                        ==> sweep_target(d, base@, old(self).prefix_spec()),
                rep.removal_failures == entry_rep@.removal_failures
                    && entry_rep@.removal_failures < usize::MAX && rep.removal_race
                    == entry_rep@.removal_race && entry_rep@.removal_race < usize::MAX
                    ==> forall|a: int|
                    0 <= a < i && seq_starts_with(
                        (#[trigger] names@[a])@,
                        old(self).prefix_spec(),
                    ) && names@[a]@ != "info"@ && names@[a]@ != "mon_groups"@
                        ==> !self.fs().dirs.contains(join_seq(base@, names@[a]@)),
            decreases n - i,
        {
            let name_matches = str_starts_with(
                names[i].as_str(),
                self.cfg.group_prefix.as_str(),
            );
            let reserved = names[i].eq(&info_name) || names[i].eq(&mon_name);
            let pre_dirs = Ghost(self.fs().dirs);
            if name_matches && !reserved {
                let child = path_join(base, names[i].as_str());
                proof {
                    lemma_join_is_child(base@, names@[i as int]@);
                    assert(sweep_target(child@, base@, old(self).prefix_spec()));
                }
                match self.provider.remove_dir(&child) {
                    Ok(()) => {
                        rep.removed = if rep.removed < usize::MAX {
                            rep.removed + 1
                        } else {
                            rep.removed
                        };
                        proof {
                            assert(!self.fs().dirs.contains(child@));
                        }
                    },
                    Err(FsErrorKind::NotFound) => {
                        rep.removal_race = if rep.removal_race < usize::MAX {
                            rep.removal_race + 1
                        } else {
                            rep.removal_race
                        };
                    },
                    Err(_) => {
                        rep.removal_failures = if rep.removal_failures < usize::MAX {
                            rep.removal_failures + 1
                        } else {
                            rep.removal_failures
                        };
                    },
                }
            } else {
                rep.non_prefix_groups = if rep.non_prefix_groups < usize::MAX {
                    rep.non_prefix_groups + 1
                } else {
                    rep.non_prefix_groups
                };
            }
            proof {
                if rep.removal_failures == entry_rep@.removal_failures
                    && entry_rep@.removal_failures < usize::MAX && rep.removal_race
                    == entry_rep@.removal_race && entry_rep@.removal_race < usize::MAX {
                    assert forall|a: int|
                        0 <= a < i + 1 && seq_starts_with(
                            (#[trigger] names@[a])@,
                            old(self).prefix_spec(),
                        ) && names@[a]@ != "info"@ && names@[a]@
                            != "mon_groups"@ implies !self.fs().dirs.contains(
                        join_seq(base@, names@[a]@),
                    ) by {
                        if a < i {
                            assert(!pre_dirs@.contains(join_seq(base@, names@[a]@)));
                        } else {
                            assert(name_matches && !reserved);
                        }
                    }
                }
            }
            i += 1;
        }
        proof {
            if rep.removal_failures == entry_rep@.removal_failures
                && entry_rep@.removal_failures < usize::MAX && rep.removal_race
                == entry_rep@.removal_race && entry_rep@.removal_race < usize::MAX {
                assert forall|d: Seq<char>|
                    old(self).fs().dirs.contains(d) && #[trigger] sweep_target(
                        d,
                        base@,
                        old(self).prefix_spec(),
                    ) && old(self).fs().dirs.contains(base@) implies !self
                    .fs().dirs.contains(d) by {
                    let a = choose|a: int|
                        0 <= a < names@.len() && #[trigger] names@[a]@ == crate::fs::child_name(
                            d,
                            base@,
                        );
                    assert(join_seq(base@, names@[a]@) =~= d);
                }
            }
        }
        Ok(())
    }
}

/// Two distinct bases, one under the other, cannot share a child.
proof fn lemma_child_of_both(d: Seq<char>, root: Seq<char>, mon: Seq<char>)
    requires
        is_child_of(d, root),
        mon == join_seq(root, "mon_groups"@),
    ensures
        !is_child_of(d, mon),
{
    if is_child_of(d, mon) {
        assert(d.len() > mon.len() + 1);
        assert(mon.len() == root.len() + 1 + "mon_groups"@.len());
        let name = crate::fs::child_name(d, root);
        assert(name[mon.len() - root.len() - 1 + 1 - 1] == d[mon.len() as int]);
        assert(d[mon.len() as int] == '/');
        assert(name.contains('/')) by {
            assert(name[mon.len() - root.len()] == d[root.len() + 1 + (mon.len()
                - root.len())]);
        }
    }
}

/// `base + '/' + name` has `name` back as its child name.
proof fn lemma_join_is_child_name(base: Seq<char>, name: Seq<char>)
    requires
        name.len() > 0,
        !name.contains('/'),
    ensures
        crate::fs::child_name(join_seq(base, name), base) == name,
{
    lemma_join_is_child(base, name);
}

/// The reconcile decision on its own, over the snapshots alone: the tasks
/// set grows by each snapshot in turn; after writing one snapshot the next
/// is checked, and the run ends with 0 missing as soon as a snapshot is
/// covered. With the snapshots exhausted, what the last one still lacks is
/// the missing count.
pub open spec fn reconcile_model_missing(tasks: Set<int>, snaps: Seq<Set<int>>) -> nat
    decreases snaps.len(),
{
    if snaps.len() < 2 {
        0
    } else {
        let t2 = tasks.union(snaps.first());
        if snaps[1].subset_of(t2) {
            0
        } else if snaps.len() == 2 {
            snaps[1].difference(t2).len()
        } else {
            reconcile_model_missing(t2, snaps.drop_first())
        }
    }
}

/// Reconcile convergence: if the resolved PID set stabilizes from snapshot
/// `k` on, and the run may take at least `k + 1` passes — that is, sees at
/// least `k + 2` snapshots — the reconcile decision reaches `missing == 0`.
pub proof fn lemma_reconcile_convergence(tasks: Set<int>, snaps: Seq<Set<int>>, k: int)
    requires
        0 <= k,
        k + 2 <= snaps.len(),
        forall|i: int, j: int|
            k <= i < snaps.len() && k <= j < snaps.len() ==> snaps[i] == snaps[j],
    ensures
        reconcile_model_missing(tasks, snaps) == 0,
    decreases k,
{
    let t2 = tasks.union(snaps.first());
    if k == 0 {
        assert(snaps[1] == snaps[0]);
        assert(snaps[0] == snaps.first());
        assert(snaps[1].subset_of(t2));
    } else {
        if !snaps[1].subset_of(t2) {
            assert(snaps.len() >= 3);
            assert forall|i: int, j: int|
                k - 1 <= i < snaps.drop_first().len() && k - 1 <= j < snaps.drop_first().len()
                implies snaps.drop_first()[i] == snaps.drop_first()[j] by {
                assert(snaps.drop_first()[i] == snaps[i + 1]);
                assert(snaps.drop_first()[j] == snaps[j + 1]);
            }
            lemma_reconcile_convergence(t2, snaps.drop_first(), k - 1);
        }
    }
}

/// The base directory a cleanup target lies under.
pub open spec fn target_base(d: Seq<char>, root: Seq<char>) -> Seq<char> {
    if is_child_of(d, root) {
        root
    } else {
        join_seq(root, "mon_groups"@)
    }
}

/// `base + '/' + name` lies directly under `base` and carries that name.
proof fn lemma_join_is_child(base: Seq<char>, name: Seq<char>)
    requires
        name.len() > 0,
        !name.contains('/'),
    ensures
        is_child_of(join_seq(base, name), base),
        crate::fs::child_name(join_seq(base, name), base) == name,
{
    let d = join_seq(base, name);
    assert(d.subrange(0, base.len() as int) =~= base);
    assert(d[base.len() as int] == '/');
    assert(d.subrange(base.len() as int + 1, d.len() as int) =~= name);
}

/// A directory that startup cleanup may remove: a child of the root or of
/// its `mon_groups`, whose name carries the agent's prefix and is not
/// `info`.
pub open spec fn cleanup_target(d: Seq<char>, root: Seq<char>, prefix: Seq<char>) -> bool {
    ||| sweep_target(d, root, prefix)
    ||| sweep_target(d, join_seq(root, "mon_groups"@), prefix)
}

/// A prefix-named child of `base` that is not one of the kernel's own
/// entries (`info`, `mon_groups`).
pub open spec fn sweep_target(d: Seq<char>, base: Seq<char>, prefix: Seq<char>) -> bool {
    &&& is_child_of(d, base)
    &&& seq_starts_with(crate::fs::child_name(d, base), prefix)
    &&& crate::fs::child_name(d, base) != "info"@
    &&& crate::fs::child_name(d, base) != "mon_groups"@
}

proof fn lemma_union_all_member(s: Seq<Set<int>>, i: int)
    requires
        0 <= i < s.len(),
    ensures
        s[i].subset_of(union_all(s)),
    decreases s.len(),
{
    if i < s.len() - 1 {
        lemma_union_all_member(s.drop_last(), i);
        assert(s.drop_last()[i] == s[i]);
    }
}

proof fn lemma_vec_pid_set_push(v: Seq<i32>, p: i32)
    ensures
        vec_pid_set(v.push(p)) == vec_pid_set(v).insert(p as int),
{
    assert(v.push(p).map_values(|q: i32| q as int) =~= v.map_values(|q: i32| q as int).push(
        p as int,
    ));
    lemma_to_set_push_int(v.map_values(|q: i32| q as int), p as int);
}

/// Helper naming the pid sequence of a content, for trigger plumbing.
pub open spec fn tasks_set_pids_helper(content: Seq<char>) -> Seq<int> {
    crate::tasks_file::tasks_pids(content)
}

proof fn lemma_to_set_push_int(s: Seq<int>, a: int)
    ensures
        s.push(a).to_set() == s.to_set().insert(a),
{
    assert forall|x: int| s.push(a).contains(x) implies (s.contains(x) || x == a) by {
        let k = choose|k: int| 0 <= k < s.push(a).len() && #[trigger] s.push(a)[k] == x;
        if k < s.len() {
            assert(s[k] == x);
        }
    }
    assert forall|x: int| s.contains(x) implies s.push(a).contains(x) by {
        let k = choose|k: int| 0 <= k < s.len() && #[trigger] s[k] == x;
        assert(s.push(a)[k] == x);
    }
    assert(s.push(a)[s.len() as int] == a);
    assert(s.push(a).contains(a));
    assert(s.push(a).to_set() =~= s.to_set().insert(a));
}

proof fn lemma_empty_tasks()
    ensures
        tasks_set(Seq::<char>::empty()) == Set::<int>::empty(),
{
    let e = Seq::<char>::empty();
    crate::text::lemma_find_idx(e, '\n');
    assert(crate::text::split_seq(e, '\n') == seq![e]);
    let single: Seq<Seq<char>> = seq![e];
    assert(single.drop_last() =~= Seq::<Seq<char>>::empty());
    assert(crate::dec::parse_i32_spec(e) is None) by {
        crate::dec::lemma_first_non_ws(e);
    }
    assert(single.last() == e);
    assert(crate::tasks_file::pids_of_lines(Seq::<Seq<char>>::empty()) == Seq::<int>::empty());
    assert(crate::tasks_file::pids_of_lines(single.drop_last()) == Seq::<int>::empty());
    assert(crate::tasks_file::pids_of_lines(single) =~= Seq::<int>::empty());
    assert(tasks_set(e) =~= Set::<int>::empty()) by {
        if tasks_set(e).contains(0int) {
        }
        assert forall|x: int| !tasks_set(e).contains(x) by {
            if crate::tasks_file::tasks_pids(e).contains(x) {
                let k = choose|k: int|
                    0 <= k < crate::tasks_file::tasks_pids(e).len()
                        && crate::tasks_file::tasks_pids(e)[k] == x;
            }
        }
    }
}

} // verus!
