//! The persistence engine's decisions: which kept paths belong to a
//! subvolume pair, where staged copies go, what a clearing sweep may
//! remove, and when a bulk restore runs — together with the copy
//! statistics the driver accumulates.

use vstd::prelude::*;
use vstd::string::StrSliceExecFns;
use vstd::string::StringExecFns;

use crate::subvol::has_index;
use crate::subvol::is_reserved_snapshot;
use crate::subvol::is_reserved_snapshot_name;
use crate::subvol::DirEntryInfo;
use crate::text::contains_seq;
use crate::text::ends_with;
use crate::text::seq_views;
use crate::text::starts_with;
use crate::text::str_contains;
use crate::text::str_ends_with;
use crate::text::str_eq;
use crate::text::str_starts_with;

verus! {

/// Ownership and size facts about one file, as plain values.
#[derive(Debug, Clone)]
pub struct FileMetadata {
    pub mode: u32,
    pub uid: u32,
    pub gid: u32,
    pub size: u64,
}

/// One file or directory, as plain values.
#[derive(Debug, Clone)]
pub struct FileInfo {
    pub path: String,
    pub is_dir: bool,
    pub metadata: Option<FileMetadata>,
}

/// Process-wide copy counters; parallel workers report their copies
/// into one instance, which is read once at the end.
pub struct FileOperations {
    pub copied_files: usize,
    pub copied_dirs: usize,
    pub total_bytes: usize,
}

impl FileOperations {
    /// Fresh counters, all zero.
    pub fn new() -> (r: Self)
        ensures
            r.copied_files == 0,
            r.copied_dirs == 0,
            r.total_bytes == 0,
    {
        FileOperations { copied_files: 0, copied_dirs: 0, total_bytes: 0 }
    }

    /// Adds `n` to the copied-file counter, wrapping on overflow.
    pub fn add_copied_files(&mut self, n: usize)
        ensures
            old(self).copied_files + n <= usize::MAX ==> final(self).copied_files == old(
                self,
            ).copied_files + n,
            old(self).copied_files + n > usize::MAX ==> final(self).copied_files == old(
                self,
            ).copied_files + n - usize::MAX - 1,
            final(self).copied_dirs == old(self).copied_dirs,
            final(self).total_bytes == old(self).total_bytes,
    {
        self.copied_files = self.copied_files.wrapping_add(n);
    }

    /// Adds `n` to the copied-directory counter, wrapping on overflow.
    pub fn add_copied_dirs(&mut self, n: usize)
        ensures
            old(self).copied_dirs + n <= usize::MAX ==> final(self).copied_dirs == old(
                self,
            ).copied_dirs + n,
            old(self).copied_dirs + n > usize::MAX ==> final(self).copied_dirs == old(
                self,
            ).copied_dirs + n - usize::MAX - 1,
            final(self).copied_files == old(self).copied_files,
            final(self).total_bytes == old(self).total_bytes,
    {
        self.copied_dirs = self.copied_dirs.wrapping_add(n);
    }

    /// Adds `n` to the byte counter, wrapping on overflow.
    pub fn add_total_bytes(&mut self, n: usize)
        ensures
            old(self).total_bytes + n <= usize::MAX ==> final(self).total_bytes == old(
                self,
            ).total_bytes + n,
            old(self).total_bytes + n > usize::MAX ==> final(self).total_bytes == old(
                self,
            ).total_bytes + n - usize::MAX - 1,
            final(self).copied_files == old(self).copied_files,
            final(self).copied_dirs == old(self).copied_dirs,
    {
        self.total_bytes = self.total_bytes.wrapping_add(n);
    }

    /// The current (files, directories, bytes) counters.
    pub fn get_stats(&self) -> (r: (usize, usize, usize))
        ensures
            r.0 == self.copied_files,
            r.1 == self.copied_dirs,
            r.2 == self.total_bytes,
    {
        (self.copied_files, self.copied_dirs, self.total_bytes)
    }

    /// Whether a kept path is routed to the pair mounted at
    /// `mount_point`: the root pair owns every absolute path that does
    /// not fall under `/home/`; a non-root pair owns exactly its mount
    /// point and everything strictly below it.
    pub fn path_belongs_to_subvolume(&self, path: &str, mount_point: &str) -> (r: bool)
        ensures
            r == path_belongs(path@, mount_point@),
    {
        proof {
            reveal_strlit("/");
            reveal_strlit("/home/");
            assert("/"@ =~= seq!['/']);
            assert("/home/"@ =~= seq!['/', 'h', 'o', 'm', 'e', '/']);
        }
        if str_eq(mount_point, "/") {
            !str_starts_with(path, "/home/")
        } else {
            let mut prefix = String::from_str(mount_point);
            prefix.append("/");
            str_starts_with(path, prefix.as_str()) || str_eq(path, mount_point)
        }
    }
}

/// Routing rule for kept paths; see
/// [`FileOperations::path_belongs_to_subvolume`].
pub open spec fn path_belongs(path: Seq<char>, mount: Seq<char>) -> bool {
    if mount == seq!['/'] {
        !starts_with(path, seq!['/', 'h', 'o', 'm', 'e', '/'])
    } else {
        starts_with(path, mount + seq!['/']) || path == mount
    }
}

/// A kept path made relative to its pair's mount point: under the root
/// pair one leading slash is dropped; under another pair the mount
/// point (with or without a following slash) is stripped from the
/// front; a path that matches neither way is kept whole.
pub open spec fn rel_to_mount(path: Seq<char>, mount: Seq<char>) -> Seq<char> {
    if mount == seq!['/'] {
        if starts_with(path, seq!['/']) {
            path.skip(1)
        } else {
            path
        }
    } else {
        if starts_with(path, mount + seq!['/']) {
            path.skip(mount.len() + 1 as int)
        } else if starts_with(path, mount) {
            path.skip(mount.len() as int)
        } else {
            path
        }
    }
}

/// Executable form of [`rel_to_mount`].
pub fn relative_to_mount(path: &str, mount_point: &str) -> (r: String)
    ensures
        r@ == rel_to_mount(path@, mount_point@),
{
    proof {
        reveal_strlit("/");
        assert("/"@ =~= seq!['/']);
    }
    let n: usize = path.unicode_len();
    if str_eq(mount_point, "/") {
        if str_starts_with(path, "/") {
            String::from_str(path.substring_char(1, n))
        } else {
            String::from_str(path)
        }
    } else {
        let m: usize = mount_point.unicode_len();
        let mut prefix = String::from_str(mount_point);
        prefix.append("/");
        if str_starts_with(path, prefix.as_str()) {
            String::from_str(path.substring_char(m + 1, n))
        } else if str_starts_with(path, mount_point) {
            String::from_str(path.substring_char(m, n))
        } else {
            String::from_str(path)
        }
    }
}

/// Path joining rule: an absolute right side replaces the left side;
/// otherwise the two are joined with exactly one slash between them.
pub open spec fn joined_path(base: Seq<char>, rel: Seq<char>) -> Seq<char> {
    if starts_with(rel, seq!['/']) {
        rel
    } else if base.len() > 0 && base.last() == '/' {
        base + rel
    } else {
        base + seq!['/'] + rel
    }
}

/// Executable form of [`joined_path`].
pub fn join_path(base: &str, rel: &str) -> (r: String)
    ensures
        r@ == joined_path(base@, rel@),
{
    proof {
        reveal_strlit("/");
        assert("/"@ =~= seq!['/']);
    }
    if str_starts_with(rel, "/") {
        return String::from_str(rel);
    }
    let n: usize = base.unicode_len();
    let mut r = String::from_str(base);
    if n == 0 || base.get_char(n - 1) != '/' {
        r.append("/");
    }
    r.append(rel);
    r
}

/// The kept paths that belong to the pair mounted at `mount`, in order.
pub open spec fn relevant_paths(paths: Seq<Seq<char>>, mount: Seq<char>) -> Seq<Seq<char>>
    decreases paths.len(),
{
    if paths.len() == 0 {
        Seq::empty()
    } else {
        (if path_belongs(paths[0], mount) {
            seq![paths[0]]
        } else {
            Seq::empty()
        }) + relevant_paths(paths.drop_first(), mount)
    }
}

impl FileOperations {
    /// Selects, from the full keep-list, the entries routed to the
    /// pair mounted at `mount_point`, preserving their order.
    pub fn select_relevant_paths(&self, paths: &Vec<String>, mount_point: &str) -> (r: Vec<String>)
        ensures
            seq_views(r@) == relevant_paths(seq_views(paths@), mount_point@),
    {
        let ghost all = seq_views(paths@);
        let mut r: Vec<String> = Vec::new();
        let mut k: usize = 0;
        proof {
            assert(all.skip(0) =~= all);
        }
        while k < paths.len()
            invariant
                0 <= k <= paths@.len(),
                all == seq_views(paths@),
                seq_views(r@) + relevant_paths(all.skip(k as int), mount_point@) == relevant_paths(
                    all,
                    mount_point@,
                ),
            decreases paths@.len() - k,
        {
            let ghost rem = all.skip(k as int);
            proof {
                assert(rem[0] == all[k as int]);
                assert(rem.drop_first() =~= all.skip(k + 1));
                assert(relevant_paths(rem, mount_point@) == (if path_belongs(
                    all[k as int],
                    mount_point@,
                ) {
                    seq![all[k as int]]
                } else {
                    Seq::<Seq<char>>::empty()
                }) + relevant_paths(all.skip(k + 1), mount_point@));
            }
            if self.path_belongs_to_subvolume(paths[k].as_str(), mount_point) {
                let ghost before = r@;
                r.push(paths[k].clone());
                proof {
                    assert(seq_views(r@) =~= seq_views(before) + seq![all[k as int]]);
                }
            }
            k = k + 1;
        }
        proof {
            assert(all.skip(paths@.len() as int) =~= Seq::<Seq<char>>::empty());
        }
        r
    }
}

impl FileOperations {
    /// Where a kept path is read from and staged to: the path relative
    /// to its pair's mount point, resolved under the live subvolume
    /// root and under the staging root.
    pub fn staging_paths(
        &self,
        path_to_keep: &str,
        mount_point: &str,
        source_subvolume: &str,
        fresh_snapshot: &str,
    ) -> (r: (String, String))
        ensures
            r.0@ == joined_path(source_subvolume@, rel_to_mount(path_to_keep@, mount_point@)),
            r.1@ == joined_path(fresh_snapshot@, rel_to_mount(path_to_keep@, mount_point@)),
    {
        let rel = relative_to_mount(path_to_keep, mount_point);
        (join_path(source_subvolume, rel.as_str()), join_path(fresh_snapshot, rel.as_str()))
    }
}

/// The positions of the inner slashes of `s` (a slash at position 0
/// does not count), in increasing order.
pub open spec fn slash_positions(s: Seq<char>) -> Seq<int>
    decreases s.len(),
{
    if s.len() == 0 {
        Seq::empty()
    } else {
        slash_positions(s.drop_last()) + (if s.last() == '/' && s.len() > 1 {
            seq![s.len() - 1]
        } else {
            Seq::empty()
        })
    }
}

/// The prefixes of `s` ending just before each listed position.
pub open spec fn prefixes_at(s: Seq<char>, ps: Seq<int>) -> Seq<Seq<char>> {
    Seq::new(ps.len(), |k: int| s.take(ps[k]))
}

/// The slash positions are in range and strictly increasing, so the
/// ancestor prefixes come outermost first.
pub proof fn lemma_slash_positions_increasing(s: Seq<char>)
    ensures
        forall|k: int|
            0 <= k < slash_positions(s).len() ==> 0 < #[trigger] slash_positions(s)[k] < s.len(),
        forall|k1: int, k2: int|
            0 <= k1 < k2 < slash_positions(s).len() ==> slash_positions(s)[k1] < slash_positions(
                s,
            )[k2],
    decreases s.len(),
{
    if s.len() > 0 {
        lemma_slash_positions_increasing(s.drop_last());
        assert(s.drop_last().len() == s.len() - 1);
        assert forall|k: int| 0 <= k < slash_positions(s).len() implies 0 < #[trigger] slash_positions(
            s,
        )[k] < s.len() by {
            if k < slash_positions(s.drop_last()).len() {
                assert(slash_positions(s)[k] == slash_positions(s.drop_last())[k]);
            }
        }
        assert forall|k1: int, k2: int|
            0 <= k1 < k2 < slash_positions(s).len() implies slash_positions(s)[k1]
            < slash_positions(s)[k2] by {
            if k2 < slash_positions(s.drop_last()).len() {
                assert(slash_positions(s)[k1] == slash_positions(s.drop_last())[k1]);
                assert(slash_positions(s)[k2] == slash_positions(s.drop_last())[k2]);
            } else {
                assert(slash_positions(s)[k1] == slash_positions(s.drop_last())[k1]);
                assert(slash_positions(s)[k2] == s.len() - 1);
            }
        }
    }
}

/// The relative paths of the directories above `rel`, outermost first:
/// each is the prefix of `rel` ending just before an inner slash.
/// Creating them in this order, each with the ownership of the
/// corresponding source directory, reproduces the ancestry of a staged
/// path.
pub fn ancestor_rel_paths(rel: &str) -> (r: Vec<String>)
    ensures
        seq_views(r@) == prefixes_at(rel@, slash_positions(rel@)),
        forall|k1: int, k2: int|
            0 <= k1 < k2 < r@.len() ==> (#[trigger] r@[k1])@.len() < (#[trigger] r@[k2])@.len(),
{
    let n: usize = rel.unicode_len();
    let mut r: Vec<String> = Vec::new();
    if n == 0 {
        proof {
            assert(seq_views(r@) =~= prefixes_at(rel@, slash_positions(rel@)));
        }
        return r;
    }
    let mut p: usize = 1;
    proof {
        assert(rel@.take(1).drop_last() =~= rel@.take(0));
        assert(slash_positions(rel@.take(0)) =~= Seq::<int>::empty());
        assert(slash_positions(rel@.take(1)) =~= Seq::<int>::empty());
        assert(seq_views(r@) =~= prefixes_at(rel@, slash_positions(rel@.take(1))));
    }
    while p < n
        invariant
            1 <= p <= n,
            n == rel@.len(),
            seq_views(r@) == prefixes_at(rel@, slash_positions(rel@.take(p as int))),
        decreases n - p,
    {
        proof {
            assert(rel@.take(p + 1).drop_last() =~= rel@.take(p as int));
            assert(rel@.take(p + 1).last() == rel@[p as int]);
        }
        if rel.get_char(p) == '/' {
            let ghost before = r@;
            r.push(String::from_str(rel.substring_char(0, p)));
            proof {
                let sp_old = slash_positions(rel@.take(p as int));
                let sp_new = slash_positions(rel@.take(p + 1));
                assert(sp_new =~= sp_old.push(p as int));
                assert(rel@.subrange(0, p as int) =~= rel@.take(p as int));
                let lhs = seq_views(r@);
                let rhs = prefixes_at(rel@, sp_new);
                assert(seq_views(before) == prefixes_at(rel@, sp_old));
                assert(seq_views(before).len() == before.len());
                assert(prefixes_at(rel@, sp_old).len() == sp_old.len());
                assert(sp_old.len() == before.len());
                assert forall|k: int| 0 <= k < lhs.len() implies lhs[k] == rhs[k] by {
                    assert(lhs[k] == r@[k]@);
                    assert(rhs[k] == rel@.take(sp_new[k]));
                    if k < before.len() {
                        assert(r@[k] == before[k]);
                        assert(sp_new[k] == sp_old[k]);
                        assert(seq_views(before)[k] == before[k]@);
                        assert(prefixes_at(rel@, sp_old)[k] == rel@.take(sp_old[k]));
                    } else {
                        assert(sp_new[k] == p as int);
                        assert(r@[k]@ == rel@.take(p as int));
                    }
                }
                assert(lhs =~= rhs);
            }
        } else {
            proof {
                assert(slash_positions(rel@.take(p + 1)) =~= slash_positions(rel@.take(p as int)));
            }
        }
        p = p + 1;
    }
    proof {
        assert(rel@.take(n as int) =~= rel@);
        lemma_slash_positions_increasing(rel@);
        assert forall|k1: int, k2: int| 0 <= k1 < k2 < r@.len() implies (#[trigger] r@[k1])@.len()
            < (#[trigger] r@[k2])@.len() by {
            let ps = slash_positions(rel@);
            assert(seq_views(r@)[k1] == r@[k1]@);
            assert(prefixes_at(rel@, ps)[k1] == rel@.take(ps[k1]));
            assert(seq_views(r@)[k2] == r@[k2]@);
            assert(prefixes_at(rel@, ps)[k2] == rel@.take(ps[k2]));
            assert(r@[k1]@ == rel@.take(ps[k1]));
            assert(r@[k2]@ == rel@.take(ps[k2]));
        }
    }
    r
}

/// Top-level names that clearing must always preserve.
pub open spec fn is_protected_top_name(n: Seq<char>) -> bool {
    n == seq!['n', 'i', 'x'] || n == seq!['b', 'o', 'o', 't'] || is_reserved_snapshot_name(n)
}

/// Executable test for [`is_protected_top_name`].
pub fn is_protected_top(name: &str) -> (r: bool)
    ensures
        r == is_protected_top_name(name@),
{
    proof {
        reveal_strlit("nix");
        reveal_strlit("boot");
        assert("nix"@ =~= seq!['n', 'i', 'x']);
        assert("boot"@ =~= seq!['b', 'o', 'o', 't']);
    }
    str_eq(name, "nix") || str_eq(name, "boot") || is_reserved_snapshot(name)
}

/// An entry that clearing hands to the subvolume-deletion path rather
/// than to plain removal.
pub open spec fn is_subvolume_entry(e: DirEntryInfo) -> bool {
    e.is_dir && e.is_subvolume
}

/// What a clearing sweep will do: which entries are deleted as
/// subvolumes (strictly in order, never in parallel) and which are
/// removed as plain files or directories.
pub struct ClearPlan {
    pub subvolumes_to_delete: Vec<usize>,
    pub entries_to_remove: Vec<usize>,
}

/// Partitions the top-level entries of a subvolume for clearing.
/// Protected names survive unconditionally; other subvolume-typed
/// entries are queued for sequential subvolume deletion and the rest
/// for removal.
pub fn clear_plan(entries: &Vec<DirEntryInfo>) -> (r: ClearPlan)
    ensures
        forall|k: int|
            0 <= k < r.subvolumes_to_delete@.len() ==> (#[trigger] r.subvolumes_to_delete@[k])
                < entries@.len(),
        forall|k: int|
            0 <= k < r.subvolumes_to_delete@.len() ==> is_subvolume_entry(
                entries@[#[trigger] r.subvolumes_to_delete@[k] as int],
            ) && !is_protected_top_name(
                entries@[r.subvolumes_to_delete@[k] as int].name@,
            ),
        forall|k1: int, k2: int|
            0 <= k1 < k2 < r.subvolumes_to_delete@.len() ==> r.subvolumes_to_delete@[k1]
                < r.subvolumes_to_delete@[k2],
        forall|i: int|
            0 <= i < entries@.len() && is_subvolume_entry(#[trigger] entries@[i])
                && !is_protected_top_name(entries@[i].name@) ==> has_index(
                r.subvolumes_to_delete@,
                i,
            ),
        forall|k: int|
            0 <= k < r.entries_to_remove@.len() ==> (#[trigger] r.entries_to_remove@[k])
                < entries@.len(),
        forall|k: int|
            0 <= k < r.entries_to_remove@.len() ==> !is_subvolume_entry(
                entries@[#[trigger] r.entries_to_remove@[k] as int],
            ) && !is_protected_top_name(
                entries@[r.entries_to_remove@[k] as int].name@,
            ),
        forall|k1: int, k2: int|
            0 <= k1 < k2 < r.entries_to_remove@.len() ==> r.entries_to_remove@[k1]
                < r.entries_to_remove@[k2],
        forall|i: int|
            0 <= i < entries@.len() && !is_subvolume_entry(#[trigger] entries@[i])
                && !is_protected_top_name(entries@[i].name@) ==> has_index(
                r.entries_to_remove@,
                i,
            ),
{
    let mut subs: Vec<usize> = Vec::new();
    let mut regs: Vec<usize> = Vec::new();
    let mut i: usize = 0;
    while i < entries.len()
        invariant
            0 <= i <= entries@.len(),
            forall|k: int| 0 <= k < subs@.len() ==> (#[trigger] subs@[k]) < i,
            forall|k: int|
                0 <= k < subs@.len() ==> is_subvolume_entry(entries@[#[trigger] subs@[k] as int])
                    && !is_protected_top_name(entries@[subs@[k] as int].name@),
            forall|k1: int, k2: int| 0 <= k1 < k2 < subs@.len() ==> subs@[k1] < subs@[k2],
            forall|j: int|
                0 <= j < i && is_subvolume_entry(#[trigger] entries@[j])
                    && !is_protected_top_name(entries@[j].name@) ==> has_index(subs@, j),
            forall|k: int| 0 <= k < regs@.len() ==> (#[trigger] regs@[k]) < i,
            forall|k: int|
                0 <= k < regs@.len() ==> !is_subvolume_entry(entries@[#[trigger] regs@[k] as int])
                    && !is_protected_top_name(entries@[regs@[k] as int].name@),
            forall|k1: int, k2: int| 0 <= k1 < k2 < regs@.len() ==> regs@[k1] < regs@[k2],
            forall|j: int|
                0 <= j < i && !is_subvolume_entry(#[trigger] entries@[j])
                    && !is_protected_top_name(entries@[j].name@) ==> has_index(regs@, j),
        decreases entries@.len() - i,
    {
        if !is_protected_top(entries[i].name.as_str()) {
            if entries[i].is_dir && entries[i].is_subvolume {
                let ghost before = subs@;
                subs.push(i);
                proof {
                    assert(subs@[subs@.len() - 1] as int == i as int);
                    assert forall|j: int|
                        0 <= j < i + 1 && is_subvolume_entry(#[trigger] entries@[j])
                            && !is_protected_top_name(entries@[j].name@) implies has_index(
                        subs@,
                        j,
                    ) by {
                        if j < i {
                            let k = choose|k: int|
                                0 <= k < before.len() && #[trigger] before[k] as int == j;
                            assert(subs@[k] as int == j);
                        } else {
                            assert(subs@[subs@.len() - 1] as int == j);
                        }
                    }
                }
            } else {
                let ghost before = regs@;
                regs.push(i);
                proof {
                    assert(regs@[regs@.len() - 1] as int == i as int);
                    assert forall|j: int|
                        0 <= j < i + 1 && !is_subvolume_entry(#[trigger] entries@[j])
                            && !is_protected_top_name(entries@[j].name@) implies has_index(
                        regs@,
                        j,
                    ) by {
                        if j < i {
                            let k = choose|k: int|
                                0 <= k < before.len() && #[trigger] before[k] as int == j;
                            assert(regs@[k] as int == j);
                        } else {
                            assert(regs@[regs@.len() - 1] as int == j);
                        }
                    }
                }
            }
        }
        i = i + 1;
    }
    ClearPlan { subvolumes_to_delete: subs, entries_to_remove: regs }
}

/// A subvolume path that may hold service-created nested subvolumes
/// under `var`: it mentions `@var`, ends in `/var`, or was seen to have
/// a `var` child (the driver reports that).
pub open spec fn var_like(path: Seq<char>, has_var_child: bool) -> bool {
    contains_seq(path, seq!['@', 'v', 'a', 'r']) || ends_with(path, seq!['/', 'v', 'a', 'r'])
        || has_var_child
}

/// Executable test for [`var_like`].
pub fn is_var_subvolume(subvolume: &str, has_var_child: bool) -> (r: bool)
    ensures
        r == var_like(subvolume@, has_var_child),
{
    proof {
        reveal_strlit("@var");
        reveal_strlit("/var");
        assert("@var"@ =~= seq!['@', 'v', 'a', 'r']);
        assert("/var"@ =~= seq!['/', 'v', 'a', 'r']);
    }
    str_contains(subvolume, "@var") || str_ends_with(subvolume, "/var") || has_var_child
}

/// The two service-created nested subvolumes cleared explicitly before
/// the generic sweep of a `var`-rooted subvolume.
pub fn service_subvolume_paths(subvolume: &str) -> (r: (String, String))
    ensures
        r.0@ == joined_path(subvolume@, "var/lib/portables"@),
        r.1@ == joined_path(subvolume@, "var/lib/machines"@),
{
    (join_path(subvolume, "var/lib/portables"), join_path(subvolume, "var/lib/machines"))
}

/// What a bulk restore does, decided from the staged file count and
/// the two directory checks.
pub enum RestoreAction {
    /// Nothing staged: return at once without any copy.
    Skip,
    /// Staged content exists but source or target is not a directory:
    /// a hard error.
    MissingDirs,
    /// Run one bulk copy with these source and target arguments.
    Copy { source_arg: String, target_arg: String },
}

/// The bulk-copy source argument: the staging root's contents.
pub open spec fn bulk_copy_source_arg(staging: Seq<char>) -> Seq<char> {
    staging + seq!['/', '.']
}

/// The bulk-copy target argument: the target root, slash-terminated.
pub open spec fn bulk_copy_target_arg(target: Seq<char>) -> Seq<char> {
    target + seq!['/']
}

impl FileOperations {
    /// Decides the bulk restore of staged content into a cleared
    /// subvolume: an empty staging area is a no-op; otherwise both
    /// sides must be directories, and one bulk copy runs.
    pub fn restore_action(
        &self,
        file_count: usize,
        staging: &str,
        target: &str,
        staging_is_dir: bool,
        target_is_dir: bool,
    ) -> (r: RestoreAction)
        ensures
            file_count == 0 ==> r is Skip,
            file_count > 0 && (!staging_is_dir || !target_is_dir) ==> r is MissingDirs,
            file_count > 0 && staging_is_dir && target_is_dir ==> (r matches RestoreAction::Copy {
                source_arg,
                target_arg,
            } && source_arg@ == bulk_copy_source_arg(staging@) && target_arg@
                == bulk_copy_target_arg(target@)),
    {
        if file_count == 0 {
            return RestoreAction::Skip;
        }
        if !staging_is_dir || !target_is_dir {
            return RestoreAction::MissingDirs;
        }
        proof {
            reveal_strlit("/.");
            reveal_strlit("/");
            assert("/."@ =~= seq!['/', '.']);
            assert("/"@ =~= seq!['/']);
        }
        let mut source_arg = String::from_str(staging);
        source_arg.append("/.");
        let mut target_arg = String::from_str(target);
        target_arg.append("/");
        RestoreAction::Copy { source_arg, target_arg }
    }
}

} // verus!
