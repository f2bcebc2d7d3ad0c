//! The filesystem capability that the resctrl handle is parameterized by,
//! its abstract model, and a verified in-memory provider.
//!
//! The model is a set of directory paths, a map from file paths to contents,
//! and the mounted flag for the resctrl hierarchy. Every operation's
//! contract says exactly how it moves the model; a real provider over the
//! kernel filesystem lives outside the verified library and is trusted to
//! behave the same way.

use vstd::prelude::*;

use crate::text::{seq_starts_with, str_starts_with};

verus! {

/// Abstract state of the filesystem a provider gives access to.
pub ghost struct FsModel {
    /// Absolute paths of the directories that exist.
    pub dirs: Set<Seq<char>>,
    /// File path to content.
    pub files: Map<Seq<char>, Seq<char>>,
    /// Whether the resctrl hierarchy is mounted.
    pub mounted: bool,
}

/// Errors a filesystem operation reports, by kind.
#[derive(Clone, Copy, PartialEq, Eq, Structural, Debug)]
pub enum FsErrorKind {
    /// The path does not exist.
    NotFound,
    /// The directory already exists.
    AlreadyExists,
    /// No space: for resctrl group creation this is RMID exhaustion.
    NoSpace,
    /// The task written into a `tasks` file has already exited.
    NoProcess,
    /// Any other I/O failure.
    Other,
}

/// `path` joined with child `name` by a single separator.
pub open spec fn join_seq(path: Seq<char>, name: Seq<char>) -> Seq<char> {
    path + seq!['/'] + name
}

/// Join a path and a child name.
pub fn path_join(path: &String, name: &str) -> (r: String)
    ensures
        r@ == join_seq(path@, name@),
{
    proof {
        reveal_strlit("/");
    }
    let mut r = path.clone();
    r.append("/");
    r.append(name);
    r
}

/// Whether `d` is directly under `base`: `base` + '/' + a name without '/'.
pub open spec fn is_child_of(d: Seq<char>, base: Seq<char>) -> bool {
    &&& d.len() > base.len() + 1
    &&& d.subrange(0, base.len() as int) == base
    &&& d[base.len() as int] == '/'
    &&& !d.subrange(base.len() as int + 1, d.len() as int).contains('/')
}

/// The name of `d` under `base`, when `d` lies directly under it.
pub open spec fn child_name(d: Seq<char>, base: Seq<char>) -> Seq<char> {
    d.subrange(base.len() as int + 1, d.len() as int)
}

/// The filesystem capability: contracts over the abstract model. A mutating
/// call may always fail with the model unchanged; what an `Ok` means is
/// fixed exactly.
pub trait FsProvider: Sized {
    /// The abstract filesystem this provider gives access to.
    spec fn fs(&self) -> FsModel;

    /// Whether a directory exists at `path`.
    fn exists_dir(&self, path: &String) -> (r: bool)
        ensures
            r == self.fs().dirs.contains(path@),
    ;

    /// Create the directory at `path`.
    fn create_dir(&mut self, path: &String) -> (r: Result<(), FsErrorKind>)
        ensures
            match r {
                Ok(()) => final(self).fs() == (FsModel {
                    dirs: old(self).fs().dirs.insert(path@),
                    ..old(self).fs()
                }),
                Err(e) => {
                    &&& final(self).fs() == old(self).fs()
                    &&& e == FsErrorKind::AlreadyExists ==> old(self).fs().dirs.contains(path@)
                },
            },
    ;

    /// Remove the directory at `path` and any files under it.
    fn remove_dir(&mut self, path: &String) -> (r: Result<(), FsErrorKind>)
        ensures
            match r {
                Ok(()) => final(self).fs() == (FsModel {
                    dirs: old(self).fs().dirs.remove(path@),
                    files: old(self).fs().files.remove_keys(
                        old(self).fs().files.dom().filter(
                            |k: Seq<char>| seq_starts_with(k, path@ + seq!['/']),
                        ),
                    ),
                    ..old(self).fs()
                }),
                Err(e) => {
                    &&& final(self).fs() == old(self).fs()
                    &&& e == FsErrorKind::NotFound ==> !old(self).fs().dirs.contains(path@)
                },
            },
    ;

    /// Append `data` to the file at `path`, creating it when absent.
    fn write_str(&mut self, path: &String, data: &String) -> (r: Result<(), FsErrorKind>)
        ensures
            match r {
                Ok(()) => final(self).fs() == (FsModel {
                    files: old(self).fs().files.insert(
                        path@,
                        if old(self).fs().files.contains_key(path@) {
                            old(self).fs().files[path@] + data@
                        } else {
                            data@
                        },
                    ),
                    ..old(self).fs()
                }),
                Err(_) => final(self).fs() == old(self).fs(),
            },
    ;

    /// Read the file at `path`.
    fn read_to_string(&self, path: &String) -> (r: Result<String, FsErrorKind>)
        ensures
            match r {
                Ok(content) => self.fs().files.contains_key(path@) && content@ == self.fs().files[
                    path@
                ],
                Err(e) => e == FsErrorKind::NotFound ==> !self.fs().files.contains_key(path@),
            },
    ;

    /// List the names of the directories directly under `path`, each name
    /// exactly once.
    fn list_dir(&self, path: &String) -> (r: Result<Vec<String>, FsErrorKind>)
        ensures
            match r {
                Ok(names) => {
                    &&& forall|i: int, j: int|
                        0 <= i < j < names@.len() ==> names@[i]@ != names@[j]@
                    &&& forall|i: int|
                        0 <= i < names@.len() ==> self.fs().dirs.contains(
                            join_seq(path@, #[trigger] names@[i]@),
                        ) && names@[i]@.len() > 0 && !names@[i]@.contains('/')
                    &&& forall|d: Seq<char>|
                        #[trigger] self.fs().dirs.contains(d) && is_child_of(d, path@)
                            ==> exists|i: int| 0 <= i < names@.len() && #[trigger] names@[i]@
                            == child_name(d, path@)
                },
                Err(_) => true,
            },
    ;

    /// Whether the resctrl filesystem is mounted.
    fn resctrl_mounted(&self) -> (r: bool)
        ensures
            r == self.fs().mounted,
    ;

    /// Mount the resctrl filesystem at `target`.
    fn mount_resctrl(&mut self, target: &String) -> (r: Result<(), FsErrorKind>)
        ensures
            match r {
                Ok(()) => final(self).fs() == (FsModel {
                    dirs: old(self).fs().dirs.insert(target@).insert(
                        join_seq(target@, "mon_groups"@),
                    ).insert(join_seq(target@, "info"@)),
                    files: old(self).fs().files,
                    mounted: true,
                }),
                Err(_) => final(self).fs() == old(self).fs(),
            },
    ;
}

} // verus!
