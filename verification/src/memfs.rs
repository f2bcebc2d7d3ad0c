//! A verified in-memory filesystem provider.
//!
//! It implements the same capability the kernel-backed provider offers, so
//! the resctrl handle and the plugin run unchanged against it; group
//! creation can be switched to fail as it does under RMID exhaustion.

use vstd::prelude::*;

use crate::fs::{is_child_of, join_seq, FsErrorKind, FsModel, FsProvider};
use crate::text::{seq_starts_with, str_starts_with};

verus! {

/// The set of path views a list of directory names holds.
pub open spec fn dirs_view(s: Seq<String>) -> Set<Seq<char>> {
    Set::new(|p: Seq<char>| exists|i: int| 0 <= i < s.len() && (#[trigger] s[i])@ == p)
}

/// The map a list of (path, content) pairs holds, later entries winning.
pub open spec fn files_view(s: Seq<(String, String)>) -> Map<Seq<char>, Seq<char>>
    decreases s.len(),
{
    if s.len() == 0 {
        Map::empty()
    } else {
        files_view(s.drop_last()).insert(s.last().0@, s.last().1@)
    }
}

/// The list without the entries whose key is `k`, order kept.
pub open spec fn filter_key(s: Seq<(String, String)>, k: Seq<char>) -> Seq<(String, String)>
    decreases s.len(),
{
    if s.len() == 0 {
        s
    } else if s.last().0@ == k {
        filter_key(s.drop_last(), k)
    } else {
        filter_key(s.drop_last(), k).push(s.last())
    }
}

/// The list without the entries whose key starts with `p`, order kept.
pub open spec fn filter_prefix(s: Seq<(String, String)>, p: Seq<char>) -> Seq<(String, String)>
    decreases s.len(),
{
    if s.len() == 0 {
        s
    } else if seq_starts_with(s.last().0@, p) {
        filter_prefix(s.drop_last(), p)
    } else {
        filter_prefix(s.drop_last(), p).push(s.last())
    }
}

/// The directory list without every entry for path `p`, order kept.
pub open spec fn filter_dir(s: Seq<String>, p: Seq<char>) -> Seq<String>
    decreases s.len(),
{
    if s.len() == 0 {
        s
    } else if s.last()@ == p {
        filter_dir(s.drop_last(), p)
    } else {
        filter_dir(s.drop_last(), p).push(s.last())
    }
}

proof fn lemma_files_view_contains(s: Seq<(String, String)>, k: Seq<char>)
    ensures
        files_view(s).contains_key(k) <==> exists|i: int|
            0 <= i < s.len() && (#[trigger] s[i]).0@ == k,
    decreases s.len(),
{
    if s.len() > 0 {
        lemma_files_view_contains(s.drop_last(), k);
        if s.last().0@ == k {
            assert((s[s.len() - 1]).0@ == k);
        } else if files_view(s).contains_key(k) {
            let i = choose|i: int|
                0 <= i < s.drop_last().len() && (#[trigger] s.drop_last()[i]).0@ == k;
            assert((s[i]).0@ == k);
        } else {
            if exists|i: int| 0 <= i < s.len() && (#[trigger] s[i]).0@ == k {
                let i = choose|i: int| 0 <= i < s.len() && (#[trigger] s[i]).0@ == k;
                assert((s.drop_last()[i]).0@ == k);
            }
        }
    }
}

/// The last entry holding a key gives that key's content.
proof fn lemma_files_view_last_wins(s: Seq<(String, String)>, i: int)
    requires
        0 <= i < s.len(),
        forall|j: int| i < j < s.len() ==> (#[trigger] s[j]).0@ != s[i].0@,
    ensures
        files_view(s).contains_key(s[i].0@),
        files_view(s)[s[i].0@] == s[i].1@,
    decreases s.len(),
{
    if i == s.len() - 1 {
    } else {
        assert(s.drop_last()[i] == s[i]);
        assert forall|j: int| i < j < s.drop_last().len() implies (#[trigger] s.drop_last()[j]).0@
            != s.drop_last()[i].0@ by {
            assert(s.drop_last()[j] == s[j]);
        }
        lemma_files_view_last_wins(s.drop_last(), i);
        assert(s.last().0@ != s[i].0@) by {
            assert(s[s.len() - 1].0@ != s[i].0@);
        }
    }
}

proof fn lemma_filter_key_view(s: Seq<(String, String)>, k: Seq<char>)
    ensures
        files_view(filter_key(s, k)) == files_view(s).remove(k),
    decreases s.len(),
{
    if s.len() == 0 {
        assert(files_view(filter_key(s, k)) =~= files_view(s).remove(k));
    } else {
        lemma_filter_key_view(s.drop_last(), k);
        if s.last().0@ == k {
            assert(files_view(s).remove(k) =~= files_view(s.drop_last()).remove(k));
        } else {
            assert(filter_key(s.drop_last(), k).push(s.last()).drop_last() =~= filter_key(
                s.drop_last(),
                k,
            ));
            assert(files_view(filter_key(s, k)) == files_view(s.drop_last()).remove(k).insert(
                s.last().0@,
                s.last().1@,
            ));
            assert(files_view(s).remove(k) =~= files_view(s.drop_last()).remove(k).insert(
                s.last().0@,
                s.last().1@,
            ));
        }
    }
}

proof fn lemma_filter_prefix_view(s: Seq<(String, String)>, p: Seq<char>)
    ensures
        forall|k: Seq<char>|
            files_view(filter_prefix(s, p)).contains_key(k) <==> (
            #[trigger] files_view(s).contains_key(k) && !seq_starts_with(k, p)),
        forall|k: Seq<char>|
            #[trigger] files_view(filter_prefix(s, p)).contains_key(k) ==> files_view(
                filter_prefix(s, p),
            )[k] == files_view(s)[k],
    decreases s.len(),
{
    if s.len() > 0 {
        lemma_filter_prefix_view(s.drop_last(), p);
        if seq_starts_with(s.last().0@, p) {
            assert(filter_prefix(s, p) == filter_prefix(s.drop_last(), p));
            assert forall|k: Seq<char>|
                files_view(filter_prefix(s, p)).contains_key(k) <==> (
                #[trigger] files_view(s).contains_key(k) && !seq_starts_with(k, p)) by {
                assert(files_view(filter_prefix(s.drop_last(), p)).contains_key(k) <==> (
                files_view(s.drop_last()).contains_key(k) && !seq_starts_with(k, p)));
            }
            assert forall|k: Seq<char>|
                #[trigger] files_view(filter_prefix(s, p)).contains_key(k) implies files_view(
                filter_prefix(s, p),
            )[k] == files_view(s)[k] by {
                assert(files_view(s.drop_last()).contains_key(k) && !seq_starts_with(k, p));
                assert(k != s.last().0@);
            }
        } else {
            assert(filter_prefix(s.drop_last(), p).push(s.last()).drop_last() =~= filter_prefix(
                s.drop_last(),
                p,
            ));
            assert(files_view(filter_prefix(s, p)) == files_view(
                filter_prefix(s.drop_last(), p),
            ).insert(s.last().0@, s.last().1@));
            assert forall|k: Seq<char>|
                files_view(filter_prefix(s, p)).contains_key(k) <==> (
                #[trigger] files_view(s).contains_key(k) && !seq_starts_with(k, p)) by {
                assert(files_view(filter_prefix(s.drop_last(), p)).contains_key(k) <==> (
                files_view(s.drop_last()).contains_key(k) && !seq_starts_with(k, p)));
            }
            assert forall|k: Seq<char>|
                #[trigger] files_view(filter_prefix(s, p)).contains_key(k) implies files_view(
                filter_prefix(s, p),
            )[k] == files_view(s)[k] by {
                if k != s.last().0@ {
                    assert(files_view(filter_prefix(s.drop_last(), p)).contains_key(k) ==>
                        files_view(filter_prefix(s.drop_last(), p))[k] == files_view(
                        s.drop_last(),
                    )[k]);
                }
            }
        }
    }
}

proof fn lemma_filter_dir_view(s: Seq<String>, p: Seq<char>)
    ensures
        dirs_view(filter_dir(s, p)) == dirs_view(s).remove(p),
    decreases s.len(),
{
    if s.len() == 0 {
        assert forall|q: Seq<char>| !dirs_view(s).contains(q) by {
            if dirs_view(s).contains(q) {
                let i = choose|i: int| 0 <= i < s.len() && (#[trigger] s[i])@ == q;
            }
        }
        assert(dirs_view(filter_dir(s, p)) =~= dirs_view(s).remove(p));
    } else {
        lemma_filter_dir_view(s.drop_last(), p);
        lemma_dirs_view_drop_last(s);
        if s.last()@ == p {
            assert(dirs_view(filter_dir(s, p)) =~= dirs_view(s).remove(p));
        } else {
            lemma_dirs_view_push(filter_dir(s.drop_last(), p), s.last());
            assert(dirs_view(filter_dir(s, p)) =~= dirs_view(s).remove(p));
        }
    }
}

proof fn lemma_dirs_view_drop_last(s: Seq<String>)
    requires
        s.len() > 0,
    ensures
        dirs_view(s) == dirs_view(s.drop_last()).insert(s.last()@),
{
    assert forall|p: Seq<char>| dirs_view(s).contains(p) implies dirs_view(s.drop_last()).insert(
        s.last()@,
    ).contains(p) by {
        let i = choose|i: int| 0 <= i < s.len() && (#[trigger] s[i])@ == p;
        if i < s.len() - 1 {
            assert((s.drop_last()[i])@ == p);
        }
    }
    assert forall|p: Seq<char>| dirs_view(s.drop_last()).insert(s.last()@).contains(
        p,
    ) implies dirs_view(s).contains(p) by {
        if dirs_view(s.drop_last()).contains(p) {
            let i = choose|i: int| 0 <= i < s.drop_last().len() && (#[trigger] s.drop_last()[i])@
                == p;
            assert((s[i])@ == p);
        } else {
            assert((s[s.len() - 1])@ == p);
        }
    }
    assert(dirs_view(s) =~= dirs_view(s.drop_last()).insert(s.last()@));
}

proof fn lemma_dirs_view_push(s: Seq<String>, d: String)
    ensures
        dirs_view(s.push(d)) == dirs_view(s).insert(d@),
{
    assert(s.push(d).drop_last() =~= s);
    lemma_dirs_view_drop_last(s.push(d));
}

/// In-memory filesystem: directory set, file contents, mounted flag, and a
/// switch that makes directory creation fail as RMID exhaustion does.
pub struct MemFs {
    dirs: Vec<String>,
    files: Vec<(String, String)>,
    mounted: bool,
    create_fails_nospc: bool,
}

impl MemFs {
    /// Whether directory creation currently fails with the capacity error.
    pub closed spec fn create_fails(&self) -> bool {
        self.create_fails_nospc
    }

    /// An empty, unmounted filesystem.
    pub fn new() -> (r: MemFs)
        ensures
            r.fs() == (FsModel {
                dirs: Set::<Seq<char>>::empty(),
                files: Map::<Seq<char>, Seq<char>>::empty(),
                mounted: false,
            }),
            !r.create_fails(),
    {
        let r = MemFs { dirs: Vec::new(), files: Vec::new(), mounted: false,
            create_fails_nospc: false };
        proof {
            assert forall|p: Seq<char>| !dirs_view(r.dirs@).contains(p) by {
                if dirs_view(r.dirs@).contains(p) {
                    let i = choose|i: int| 0 <= i < r.dirs@.len() && (#[trigger] r.dirs@[i])@ == p;
                }
            }
            assert(dirs_view(r.dirs@) =~= Set::<Seq<char>>::empty());
        }
        r
    }

    /// Add a directory, for test arrangement; same model step as a
    /// successful `create_dir`.
    pub fn add_dir(&mut self, path: &String)
        ensures
            final(self).fs() == (FsModel { dirs: old(self).fs().dirs.insert(path@), ..old(
                self,
            ).fs() }),
            final(self).create_fails() == old(self).create_fails(),
    {
        self.dirs.push(path.clone());
        proof {
            lemma_dirs_view_push(old(self).dirs@, self.dirs@.last());
        }
    }

    /// Seed a file's full content, for test arrangement.
    pub fn set_file(&mut self, path: &String, content: &String)
        ensures
            final(self).fs() == (FsModel {
                files: old(self).fs().files.insert(path@, content@),
                ..old(self).fs()
            }),
            final(self).create_fails() == old(self).create_fails(),
    {
        self.remove_file_entries(path);
        self.files.push((path.clone(), content.clone()));
        proof {
            assert(self.files@.drop_last() =~= filter_key(old(self).files@, path@));
            assert(final(self).fs().files =~= old(self).fs().files.insert(path@, content@));
        }
    }

    /// Switch directory creation to fail with the capacity error, or back.
    pub fn set_create_nospc(&mut self, fail: bool)
        ensures
            final(self).fs() == old(self).fs(),
            final(self).create_fails() == fail,
    {
        self.create_fails_nospc = fail;
    }

    /// Drop every file entry whose key is `path`.
    fn remove_file_entries(&mut self, path: &String)
        ensures
            final(self).files@ == filter_key(old(self).files@, path@),
            final(self).fs().files == old(self).fs().files.remove(path@),
            final(self).dirs@ == old(self).dirs@,
            final(self).mounted == old(self).mounted,
            final(self).create_fails_nospc == old(self).create_fails_nospc,
    {
        let n = self.files.len();
        let mut kept: Vec<(String, String)> = Vec::new();
        let mut j: usize = 0;
        while j < n
            invariant
                j <= n,
                n == self.files@.len(),
                *self == *old(self),
                kept@ == filter_key(self.files@.subrange(0, j as int), path@),
            decreases n - j,
        {
            let keep = !self.files[j].0.eq(path);
            proof {
                assert(self.files@.subrange(0, j + 1).drop_last() =~= self.files@.subrange(
                    0,
                    j as int,
                ));
                assert(self.files@.subrange(0, j + 1).last() == self.files@[j as int]);
            }
            if keep {
                let key = self.files[j].0.clone();
                let val = self.files[j].1.clone();
                kept.push((key, val));
                proof {
                    assert(kept@.last() == self.files@[j as int]);
                    assert(kept@ =~= filter_key(self.files@.subrange(0, j + 1), path@));
                }
            }
            j += 1;
        }
        proof {
            assert(self.files@.subrange(0, n as int) =~= self.files@);
        }
        self.files = kept;
        proof {
            lemma_filter_key_view(old(self).files@, path@);
        }
    }
}

impl FsProvider for MemFs {
    closed spec fn fs(&self) -> FsModel {
        FsModel {
            dirs: dirs_view(self.dirs@),
            files: files_view(self.files@),
            mounted: self.mounted,
        }
    }

    fn exists_dir(&self, path: &String) -> (r: bool) {
        let n = self.dirs.len();
        let mut i: usize = 0;
        while i < n
            invariant
                i <= n,
                n == self.dirs@.len(),
                forall|j: int| 0 <= j < i ==> (#[trigger] self.dirs@[j])@ != path@,
            decreases n - i,
        {
            if self.dirs[i].eq(path) {
                proof {
                    assert((self.dirs@[i as int])@ == path@);
                    assert(dirs_view(self.dirs@).contains(path@));
                }
                return true;
            }
            i += 1;
        }
        proof {
            if dirs_view(self.dirs@).contains(path@) {
                let i = choose|i: int| 0 <= i < self.dirs@.len() && (#[trigger] self.dirs@[i])@
                    == path@;
            }
        }
        false
    }

    fn create_dir(&mut self, path: &String) -> (r: Result<(), FsErrorKind>) {
        if self.create_fails_nospc {
            return Err(FsErrorKind::NoSpace);
        }
        if self.exists_dir(path) {
            return Err(FsErrorKind::AlreadyExists);
        }
        self.dirs.push(path.clone());
        proof {
            lemma_dirs_view_push(old(self).dirs@, self.dirs@.last());
        }
        Ok(())
    }

    fn remove_dir(&mut self, path: &String) -> (r: Result<(), FsErrorKind>) {
        if !self.exists_dir(path) {
            return Err(FsErrorKind::NotFound);
        }
        let prefix = crate::fs::path_join(path, "");
        proof {
            reveal_strlit("");
            assert(prefix@ =~= path@ + seq!['/']);
        }
        // drop the directory entries
        let n = self.dirs.len();
        let mut kept: Vec<String> = Vec::new();
        let mut j: usize = 0;
        while j < n
            invariant
                j <= n,
                n == self.dirs@.len(),
                *self == *old(self),
                kept@ == filter_dir(self.dirs@.subrange(0, j as int), path@),
            decreases n - j,
        {
            let keep = !self.dirs[j].eq(path);
            proof {
                assert(self.dirs@.subrange(0, j + 1).drop_last() =~= self.dirs@.subrange(
                    0,
                    j as int,
                ));
                assert(self.dirs@.subrange(0, j + 1).last() == self.dirs@[j as int]);
            }
            if keep {
                kept.push(self.dirs[j].clone());
                proof {
                    assert(kept@.last() == self.dirs@[j as int]);
                    assert(kept@ =~= filter_dir(self.dirs@.subrange(0, j + 1), path@));
                }
            }
            j += 1;
        }
        proof {
            assert(self.dirs@.subrange(0, n as int) =~= self.dirs@);
        }
        self.dirs = kept;
        proof {
            lemma_filter_dir_view(old(self).dirs@, path@);
        }
        // drop the files underneath
        let m = self.files.len();
        let mut fkept: Vec<(String, String)> = Vec::new();
        let mut k: usize = 0;
        while k < m
            invariant
                k <= m,
                m == self.files@.len(),
                self.files@ == old(self).files@,
                prefix@ == path@ + seq!['/'],
                fkept@ == filter_prefix(self.files@.subrange(0, k as int), prefix@),
            decreases m - k,
        {
            let starts = str_starts_with(self.files[k].0.as_str(), prefix.as_str());
            proof {
                assert(self.files@.subrange(0, k + 1).drop_last() =~= self.files@.subrange(
                    0,
                    k as int,
                ));
                assert(self.files@.subrange(0, k + 1).last() == self.files@[k as int]);
            }
            if !starts {
                let key = self.files[k].0.clone();
                let val = self.files[k].1.clone();
                fkept.push((key, val));
                proof {
                    assert(fkept@.last() == self.files@[k as int]);
                    assert(fkept@ =~= filter_prefix(self.files@.subrange(0, k + 1), prefix@));
                }
            }
            k += 1;
        }
        proof {
            assert(self.files@.subrange(0, m as int) =~= self.files@);
        }
        self.files = fkept;
        proof {
            lemma_filter_prefix_view(old(self).files@, prefix@);
            assert(final(self).fs().files =~= old(self).fs().files.remove_keys(
                old(self).fs().files.dom().filter(
                    |key: Seq<char>| seq_starts_with(key, path@ + seq!['/']),
                ),
            ));
            assert(final(self).fs() =~~= (FsModel {
                dirs: old(self).fs().dirs.remove(path@),
                files: old(self).fs().files.remove_keys(
                    old(self).fs().files.dom().filter(
                        |key: Seq<char>| seq_starts_with(key, path@ + seq!['/']),
                    ),
                ),
                ..old(self).fs()
            }));
        }
        Ok(())
    }

    fn write_str(&mut self, path: &String, data: &String) -> (r: Result<(), FsErrorKind>) {
        let prior: Option<String> = match self.find_file_content(path) {
            Some(content) => Some(content),
            None => None,
        };
        match prior {
            Some(mut content) => {
                let existing = Ghost(self.fs().files[path@]);
                self.remove_file_entries(path);
                content.append(data.as_str());
                self.files.push((path.clone(), content));
                proof {
                    assert(self.files@.drop_last() =~= filter_key(old(self).files@, path@));
                    assert(final(self).fs().files =~= old(self).fs().files.insert(
                        path@,
                        old(self).fs().files[path@] + data@,
                    ));
                }
                Ok(())
            },
            None => {
                self.files.push((path.clone(), data.clone()));
                proof {
                    assert(self.files@.drop_last() =~= old(self).files@);
                    assert(final(self).fs().files =~= old(self).fs().files.insert(path@, data@));
                }
                Ok(())
            },
        }
    }

    fn read_to_string(&self, path: &String) -> (r: Result<String, FsErrorKind>) {
        match self.find_file_content(path) {
            Some(content) => Ok(content),
            None => Err(FsErrorKind::NotFound),
        }
    }

    fn list_dir(&self, path: &String) -> (r: Result<Vec<String>, FsErrorKind>) {
        let mut names: Vec<String> = Vec::new();
        let n = self.dirs.len();
        let mut i: usize = 0;
        while i < n
            invariant
                i <= n,
                n == self.dirs@.len(),
                forall|a: int, b: int|
                    0 <= a < b < names@.len() ==> (#[trigger] names@[a])@ != (
                    #[trigger] names@[b])@,
                forall|a: int|
                    0 <= a < names@.len() ==> dirs_view(self.dirs@).contains(
                        join_seq(path@, (#[trigger] names@[a])@),
                    ) && names@[a]@.len() > 0 && !names@[a]@.contains('/'),
                forall|b: int|
                    0 <= b < i && is_child_of((#[trigger] self.dirs@[b])@, path@) ==> exists|a: int|
                        0 <= a < names@.len() && (#[trigger] names@[a])@ == crate::fs::child_name(
                            self.dirs@[b]@,
                            path@,
                        ),
            decreases n - i,
        {
            let names0 = Ghost(names@);
            let d = &self.dirs[i];
            let dn = d.as_str().unicode_len();
            let pn = path.as_str().unicode_len();
            let child_shape = pn < dn && dn - pn > 1 && str_starts_with(d.as_str(), path.as_str())
                && d.as_str().get_char(pn) == '/';
            if child_shape {
                let name = d.as_str().substring_char(pn + 1, dn).to_owned();
                let mut has_slash = false;
                let nn = name.as_str().unicode_len();
                let mut k: usize = 0;
                while k < nn
                    invariant
                        k <= nn,
                        nn == name@.len(),
                        has_slash <==> exists|t: int| 0 <= t < k && name@[t] == '/',
                    decreases nn - k,
                {
                    if name.as_str().get_char(k) == '/' {
                        proof {
                            assert(name@[k as int] == '/');
                        }
                        has_slash = true;
                    }
                    k += 1;
                }
                if !has_slash {
                    proof {
                        assert(!name@.contains('/')) by {
                            if name@.contains('/') {
                                let t = choose|t: int| 0 <= t < name@.len() && name@[t] == '/';
                            }
                        }
                        assert(is_child_of(self.dirs@[i as int]@, path@));
                        assert(name@ == crate::fs::child_name(self.dirs@[i as int]@, path@));
                        assert(join_seq(path@, name@) =~= self.dirs@[i as int]@);
                        assert(dirs_view(self.dirs@).contains(join_seq(path@, name@)));
                    }
                    let mut seen = false;
                    let cn = names.len();
                    let mut c: usize = 0;
                    while c < cn
                        invariant
                            c <= cn,
                            cn == names@.len(),
                            seen <==> exists|t: int| 0 <= t < c && (#[trigger] names@[t])@
                                == name@,
                        decreases cn - c,
                    {
                        if names[c].eq(&name) {
                            proof {
                                assert(names@[c as int]@ == name@);
                            }
                            seen = true;
                        }
                        c += 1;
                    }
                    if !seen {
                        let name_view = Ghost(name@);
                        names.push(name);
                        proof {
                            assert(names@[names@.len() - 1]@ == name_view@);
                            assert(exists|a: int|
                                0 <= a < names@.len() && (#[trigger] names@[a])@
                                    == crate::fs::child_name(self.dirs@[i as int]@, path@));
                        }
                    } else {
                        proof {
                            let t = choose|t: int|
                                0 <= t < names@.len() && (#[trigger] names@[t])@ == name@;
                            assert(names@[t]@ == crate::fs::child_name(
                                self.dirs@[i as int]@,
                                path@,
                            ));
                        }
                    }
                } else {
                    proof {
                        if is_child_of(self.dirs@[i as int]@, path@) {
                            assert(name@ == self.dirs@[i as int]@.subrange(
                                path@.len() as int + 1,
                                self.dirs@[i as int]@.len() as int,
                            ));
                            let t = choose|t: int| 0 <= t < nn && name@[t] == '/';
                            assert(name@.contains('/'));
                        }
                    }
                }
            } else {
                proof {
                    if is_child_of(self.dirs@[i as int]@, path@) {
                        let dd = self.dirs@[i as int]@;
                        assert(dd.subrange(0, path@.len() as int) == path@);
                        assert(seq_starts_with(dd, path@));
                        assert(dd[path@.len() as int] == '/');
                        assert(child_shape);
                    }
                }
            }
            proof {
                assert(forall|a: int| 0 <= a < names0@.len() ==> names@[a] == names0@[a]);
                assert forall|b: int|
                    0 <= b < i && is_child_of((#[trigger] self.dirs@[b])@, path@) implies exists|
                    a: int,
                |
                    0 <= a < names@.len() && (#[trigger] names@[a])@ == crate::fs::child_name(
                        self.dirs@[b]@,
                        path@,
                    ) by {
                    let a0 = choose|a: int|
                        0 <= a < names0@.len() && (#[trigger] names0@[a])@
                            == crate::fs::child_name(self.dirs@[b]@, path@);
                    assert(names@[a0]@ == crate::fs::child_name(self.dirs@[b]@, path@));
                }
            }
            i += 1;
        }
        proof {
            assert forall|dd: Seq<char>|
                dirs_view(self.dirs@).contains(dd) && is_child_of(dd, path@) implies exists|a: int|
                0 <= a < names@.len() && (#[trigger] names@[a])@ == crate::fs::child_name(
                    dd,
                    path@,
                ) by {
                let b = choose|b: int| 0 <= b < self.dirs@.len() && (#[trigger] self.dirs@[b])@
                    == dd;
            }
        }
        Ok(names)
    }

    fn resctrl_mounted(&self) -> (r: bool) {
        self.mounted
    }

    fn mount_resctrl(&mut self, target: &String) -> (r: Result<(), FsErrorKind>) {
        self.add_dir(target);
        let mon = crate::fs::path_join(target, "mon_groups");
        self.add_dir(&mon);
        let info = crate::fs::path_join(target, "info");
        self.add_dir(&info);
        self.mounted = true;
        Ok(())
    }
}

impl MemFs {
    /// The winning content for `path`, scanning from the most recent entry.
    fn find_file_content(&self, path: &String) -> (r: Option<String>)
        ensures
            match r {
                Some(content) => self.fs().files.contains_key(path@) && content@
                    == self.fs().files[path@],
                None => !self.fs().files.contains_key(path@),
            },
    {
        let n = self.files.len();
        let mut i: usize = n;
        while i > 0
            invariant
                i <= n,
                n == self.files@.len(),
                forall|j: int| i <= j < n ==> (#[trigger] self.files@[j]).0@ != path@,
            decreases i,
        {
            i -= 1;
            if self.files[i].0.eq(path) {
                proof {
                    lemma_files_view_last_wins(self.files@, i as int);
                }
                return Some(self.files[i].1.clone());
            }
        }
        proof {
            lemma_files_view_contains(self.files@, path@);
        }
        None
    }
}

} // verus!
