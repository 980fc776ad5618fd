//! The argument lists handed to the external tooling.  The core
//! relies on these argument contracts verbatim; building them here, with
//! exact contracts, pins down every invocation the driver makes.

use vstd::prelude::*;
use vstd::string::StringExecFns;

use crate::text::dec_repr;
use crate::text::seq_views;

verus! {

/// Arguments mounting the top-level (id 5) subvolume at the working
/// mount point, with nested-subvolume removal allowed.
pub fn mount_root_args(device: &str, mount_point: &str) -> (r: Vec<String>)
    ensures
        seq_views(r@) == seq![
            "-t"@,
            "btrfs"@,
            "-o"@,
            "subvolid=5,user_subvol_rm_allowed"@,
            device@,
            mount_point@,
        ],
{
    let mut r: Vec<String> = Vec::new();
    r.push(String::from_str("-t"));
    r.push(String::from_str("btrfs"));
    r.push(String::from_str("-o"));
    r.push(String::from_str("subvolid=5,user_subvol_rm_allowed"));
    r.push(String::from_str(device));
    r.push(String::from_str(mount_point));
    proof {
        assert(seq_views(r@) =~= seq![
            "-t"@,
            "btrfs"@,
            "-o"@,
            "subvolid=5,user_subvol_rm_allowed"@,
            device@,
            mount_point@,
        ]);
    }
    r
}

/// Arguments mounting one named subvolume at `target`.
pub fn mount_subvolume_args(device: &str, name: &str, target: &str) -> (r: Vec<String>)
    ensures
        seq_views(r@) == seq![
            "-t"@,
            "btrfs"@,
            "-o"@,
            "subvol="@ + name@ + ",user_subvol_rm_allowed"@,
            device@,
            target@,
        ],
{
    let mut opt = String::from_str("subvol=");
    opt.append(name);
    opt.append(",user_subvol_rm_allowed");
    let mut r: Vec<String> = Vec::new();
    r.push(String::from_str("-t"));
    r.push(String::from_str("btrfs"));
    r.push(String::from_str("-o"));
    r.push(opt);
    r.push(String::from_str(device));
    r.push(String::from_str(target));
    proof {
        assert(seq_views(r@) =~= seq![
            "-t"@,
            "btrfs"@,
            "-o"@,
            "subvol="@ + name@ + ",user_subvol_rm_allowed"@,
            device@,
            target@,
        ]);
    }
    r
}

/// Arguments for the recursive unmount of the working mount point.
pub fn unmount_args(mount_point: &str) -> (r: Vec<String>)
    ensures
        seq_views(r@) == seq!["-R"@, mount_point@],
{
    let mut r: Vec<String> = Vec::new();
    r.push(String::from_str("-R"));
    r.push(String::from_str(mount_point));
    proof {
        assert(seq_views(r@) =~= seq!["-R"@, mount_point@]);
    }
    r
}

/// Arguments listing the subvolumes under a mount point.
pub fn list_subvolumes_args(path: &str) -> (r: Vec<String>)
    ensures
        seq_views(r@) == seq!["subvolume"@, "list"@, path@],
{
    let mut r: Vec<String> = Vec::new();
    r.push(String::from_str("subvolume"));
    r.push(String::from_str("list"));
    r.push(String::from_str(path));
    proof {
        assert(seq_views(r@) =~= seq!["subvolume"@, "list"@, path@]);
    }
    r
}

/// Arguments listing only the subvolumes nested under `path`.
pub fn list_child_subvolumes_args(path: &str) -> (r: Vec<String>)
    ensures
        seq_views(r@) == seq!["subvolume"@, "list"@, "-o"@, path@],
{
    let mut r: Vec<String> = Vec::new();
    r.push(String::from_str("subvolume"));
    r.push(String::from_str("list"));
    r.push(String::from_str("-o"));
    r.push(String::from_str(path));
    proof {
        assert(seq_views(r@) =~= seq!["subvolume"@, "list"@, "-o"@, path@]);
    }
    r
}

/// Arguments asking whether `path` is a subvolume (exit status only).
pub fn show_subvolume_args(path: &str) -> (r: Vec<String>)
    ensures
        seq_views(r@) == seq!["subvolume"@, "show"@, path@],
{
    let mut r: Vec<String> = Vec::new();
    r.push(String::from_str("subvolume"));
    r.push(String::from_str("show"));
    r.push(String::from_str(path));
    proof {
        assert(seq_views(r@) =~= seq!["subvolume"@, "show"@, path@]);
    }
    r
}

/// Arguments creating a subvolume at `path`.
pub fn create_subvolume_args(path: &str) -> (r: Vec<String>)
    ensures
        seq_views(r@) == seq!["subvolume"@, "create"@, path@],
{
    let mut r: Vec<String> = Vec::new();
    r.push(String::from_str("subvolume"));
    r.push(String::from_str("create"));
    r.push(String::from_str(path));
    proof {
        assert(seq_views(r@) =~= seq!["subvolume"@, "create"@, path@]);
    }
    r
}

/// Arguments deleting the subvolume at `path`, optionally committing
/// the deletion before returning.
pub fn delete_subvolume_args(path: &str, commit: bool) -> (r: Vec<String>)
    ensures
        commit ==> seq_views(r@) == seq!["subvolume"@, "delete"@, "--commit-after"@, path@],
        !commit ==> seq_views(r@) == seq!["subvolume"@, "delete"@, path@],
{
    let mut r: Vec<String> = Vec::new();
    r.push(String::from_str("subvolume"));
    r.push(String::from_str("delete"));
    if commit {
        r.push(String::from_str("--commit-after"));
    }
    r.push(String::from_str(path));
    proof {
        if commit {
            assert(seq_views(r@) =~= seq!["subvolume"@, "delete"@, "--commit-after"@, path@]);
        } else {
            assert(seq_views(r@) =~= seq!["subvolume"@, "delete"@, path@]);
        }
    }
    r
}

/// Arguments forcing a filesystem sync at `path`.
pub fn sync_filesystem_args(path: &str) -> (r: Vec<String>)
    ensures
        seq_views(r@) == seq!["filesystem"@, "sync"@, path@],
{
    let mut r: Vec<String> = Vec::new();
    r.push(String::from_str("filesystem"));
    r.push(String::from_str("sync"));
    r.push(String::from_str(path));
    proof {
        assert(seq_views(r@) =~= seq!["filesystem"@, "sync"@, path@]);
    }
    r
}

/// Arguments setting or clearing the read-only property of a
/// subvolume.
pub fn set_readonly_args(path: &str, readonly: bool) -> (r: Vec<String>)
    ensures
        readonly ==> seq_views(r@) == seq!["property"@, "set"@, "-ts"@, path@, "ro"@, "true"@],
        !readonly ==> seq_views(r@) == seq!["property"@, "set"@, "-ts"@, path@, "ro"@, "false"@],
{
    let mut r: Vec<String> = Vec::new();
    r.push(String::from_str("property"));
    r.push(String::from_str("set"));
    r.push(String::from_str("-ts"));
    r.push(String::from_str(path));
    r.push(String::from_str("ro"));
    if readonly {
        r.push(String::from_str("true"));
        proof {
            assert(seq_views(r@) =~= seq!["property"@, "set"@, "-ts"@, path@, "ro"@, "true"@]);
        }
    } else {
        r.push(String::from_str("false"));
        proof {
            assert(seq_views(r@) =~= seq!["property"@, "set"@, "-ts"@, path@, "ro"@, "false"@]);
        }
    }
    r
}

/// Arguments copying `source` to `target` with all metadata kept and
/// copy-on-write cloning used where the filesystem supports it.
pub fn copy_reflink_args(source: &str, target: &str) -> (r: Vec<String>)
    ensures
        seq_views(r@) == seq!["-a"@, "--preserve=all"@, "--reflink=auto"@, source@, target@],
{
    let mut r: Vec<String> = Vec::new();
    r.push(String::from_str("-a"));
    r.push(String::from_str("--preserve=all"));
    r.push(String::from_str("--reflink=auto"));
    r.push(String::from_str(source));
    r.push(String::from_str(target));
    proof {
        assert(seq_views(r@) =~= seq![
            "-a"@,
            "--preserve=all"@,
            "--reflink=auto"@,
            source@,
            target@,
        ]);
    }
    r
}

/// Arguments changing the ownership of `path` to `uid:gid`.
pub fn chown_args(uid: u32, gid: u32, path: &str) -> (r: Vec<String>)
    ensures
        seq_views(r@) == seq![
            dec_repr(uid as int) + seq![':'] + dec_repr(gid as int),
            path@,
        ],
{
    let mut owner = crate::text::u32_to_dec(uid);
    owner.append(":");
    let g = crate::text::u32_to_dec(gid);
    owner.append(g.as_str());
    let mut r: Vec<String> = Vec::new();
    r.push(owner);
    r.push(String::from_str(path));
    proof {
        reveal_strlit(":");
        assert(":"@ =~= seq![':']);
        assert(seq_views(r@) =~= seq![
            dec_repr(uid as int) + seq![':'] + dec_repr(gid as int),
            path@,
        ]);
    }
    r
}

} // verus!
