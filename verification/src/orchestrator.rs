//! The per-boot orchestration: configuration is parsed up front, the
//! real subvolume layout is validated against it, and each configured
//! pair is reset through a fixed seven-step cycle.  The plans computed
//! here fix the order of every step; the driver executes them one
//! action at a time and stops at the first hard failure.

use vstd::prelude::*;
use vstd::string::StrSliceExecFns;
use vstd::string::StringExecFns;

use crate::config::pairs_match;
use crate::config::parse_paths_to_keep;
use crate::config::parse_subvolume_pairs;
use crate::config::Args;
use crate::config::ConfigError;
use crate::config::SubvolumePair;
use crate::config::first_invalid;
use crate::persist::joined_path;
use crate::persist::join_path;
use crate::persist::FileOperations;
use crate::subvol::info_views;
use crate::subvol::BtrfsManager;
use crate::subvol::SubvolumeInfo;
use crate::text::seq_views;
use crate::text::split_ws;
use crate::text::str_eq;

verus! {

/// A configured subvolume that the real layout does not provide.
#[derive(Debug, Clone)]
pub enum ValidationError {
    /// A pair names a subvolume with no matching record.
    SubvolumeNotFound(String),
    /// The snapshots subvolume has no matching record.
    SnapshotsSubvolumeNotFound(String),
}

impl ValidationError {
    /// The diagnostic text for this error.
    pub fn message(&self) -> (r: String)
        ensures
            self matches ValidationError::SubvolumeNotFound(n) ==> r@ == "Required subvolume "@
                + n@ + " not found"@,
            self matches ValidationError::SnapshotsSubvolumeNotFound(n) ==> r@
                == "Snapshots subvolume "@ + n@ + " not found"@,
    {
        match self {
            ValidationError::SubvolumeNotFound(n) => {
                let mut r = String::from_str("Required subvolume ");
                r.append(n.as_str());
                r.append(" not found");
                r
            },
            ValidationError::SnapshotsSubvolumeNotFound(n) => {
                let mut r = String::from_str("Snapshots subvolume ");
                r.append(n.as_str());
                r.append(" not found");
                r
            },
        }
    }
}

/// Some listed subvolume has exactly this path.
pub open spec fn name_listed(infos: Seq<(u64, Seq<char>)>, name: Seq<char>) -> bool {
    exists|k: int| 0 <= k < infos.len() && (#[trigger] infos[k]).1 == name
}

/// Index of the first configured pair whose name is not listed, or
/// `ps.len()` when all are.
pub open spec fn first_missing(ps: Seq<SubvolumePair>, infos: Seq<(u64, Seq<char>)>) -> int
    decreases ps.len(),
{
    if ps.len() == 0 {
        0
    } else if !name_listed(infos, ps[0].name@) {
        0
    } else {
        1 + first_missing(ps.drop_first(), infos)
    }
}

proof fn lemma_first_missing_at(ps: Seq<SubvolumePair>, infos: Seq<(u64, Seq<char>)>, k: int)
    requires
        0 <= k <= ps.len(),
        forall|j: int| 0 <= j < k ==> name_listed(infos, (#[trigger] ps[j]).name@),
        k == ps.len() || !name_listed(infos, ps[k].name@),
    ensures
        first_missing(ps, infos) == k,
    decreases ps.len(),
{
    if k > 0 {
        assert forall|j: int| 0 <= j < k - 1 implies name_listed(
            infos,
            (#[trigger] ps.drop_first()[j]).name@,
        ) by {
            assert(ps.drop_first()[j] == ps[j + 1]);
        }
        if k < ps.len() {
            assert(ps.drop_first()[k - 1] == ps[k]);
        }
        lemma_first_missing_at(ps.drop_first(), infos, k - 1);
    }
}

/// Whether the listing holds a record whose path equals `name`.
pub fn listing_contains(subvolumes: &Vec<SubvolumeInfo>, name: &str) -> (r: bool)
    ensures
        r == name_listed(info_views(subvolumes@), name@),
{
    let mut k: usize = 0;
    while k < subvolumes.len()
        invariant
            0 <= k <= subvolumes@.len(),
            forall|j: int| 0 <= j < k ==> (#[trigger] info_views(subvolumes@)[j]).1 != name@,
        decreases subvolumes@.len() - k,
    {
        if str_eq(subvolumes[k].path.as_str(), name) {
            proof {
                assert((info_views(subvolumes@)[k as int]).1 == name@);
            }
            return true;
        }
        k = k + 1;
    }
    false
}

/// One step of a pair's reset cycle, with the concrete paths it acts
/// on.
pub enum PairAction {
    /// Make sure the per-pair snapshots directory exists.
    EnsureSnapshotsDir { path: String },
    /// Destroy a stale staging area recursively if one was left
    /// behind by an earlier failed run.
    RemoveStaleStaging { path: String },
    /// Create the fresh staging subvolume.
    CreateStaging { path: String },
    /// Copy this pair's kept paths from the live subvolume into
    /// staging.
    ExtractPersistent { mount_point: String, source: String, staging: String },
    /// Empty the live subvolume down to the protected names.
    ClearSubvolume { path: String },
    /// Bulk-restore the staged content into the cleared subvolume.
    RestorePersistent { staging: String, target: String },
    /// Delete the staging subvolume.
    DeleteStaging { path: String },
}

/// One step of the whole run.
pub enum RunAction {
    /// Mount the device's top-level subvolume at the working mount
    /// point.
    MountRoot,
    /// List the real subvolumes and validate the configuration
    /// against them.
    ListAndValidate,
    /// Mount one named subvolume under the working mount point.
    MountSubvolume { name: String },
    /// Run the seven-step reset cycle of the pair at this position.
    ProcessPair { index: usize },
    /// Recursively unmount the working mount point (also attempted,
    /// best-effort, after any hard failure).
    Unmount,
}

/// Drives one reset run over the configured pairs.
pub struct ImmutabilityManager {
    pub btrfs: BtrfsManager,
    pub fileops: FileOperations,
    pub snapshots_subvolume: String,
    pub subvolume_pairs: Vec<SubvolumePair>,
    pub paths_to_keep: Vec<String>,
}

impl ImmutabilityManager {
    /// The fixed working mount point of a run.
    pub open spec fn spec_working_mount_point() -> Seq<char> {
        "/tmp/btrfs-immutable"@
    }

    /// Where a pair's live subvolume stands under the working mount
    /// point.
    pub open spec fn spec_subvolume_path(self, pair: SubvolumePair) -> Seq<char> {
        joined_path(self.btrfs.mount_point@, pair.name@)
    }

    /// The pair's directory under the snapshots subvolume.
    pub open spec fn spec_snapshots_dir(self, pair: SubvolumePair) -> Seq<char> {
        joined_path(joined_path(self.btrfs.mount_point@, self.snapshots_subvolume@), pair.name@)
    }

    /// The pair's staging subvolume, named `FRESH` inside its
    /// snapshots directory.
    pub open spec fn spec_staging_path(self, pair: SubvolumePair) -> Seq<char> {
        joined_path(self.spec_snapshots_dir(pair), "FRESH"@)
    }

    /// Builds a manager from the arguments: the pair list and the
    /// keep-list are parsed before anything else, and a configuration
    /// error is reported without any filesystem action.
    pub fn new(args: Args) -> (r: Result<Self, ConfigError>)
        ensures
            split_ws(args.subvolume_pairs@).len() == 0 ==> r == Err::<Self, ConfigError>(
                ConfigError::NoPairsSpecified,
            ),
            ({
                let ts = split_ws(args.subvolume_pairs@);
                ts.len() > 0 && first_invalid(ts) < ts.len()
            }) ==> (r matches Err(e) && e matches ConfigError::InvalidPairFormat(t) && t@
                == split_ws(args.subvolume_pairs@)[first_invalid(split_ws(args.subvolume_pairs@))]),
            ({
                let ts = split_ws(args.subvolume_pairs@);
                ts.len() > 0 && first_invalid(ts) == ts.len()
            }) ==> (r matches Ok(m) && {
                &&& m.btrfs.device@ == args.device@
                &&& m.btrfs.mount_point@ == Self::spec_working_mount_point()
                &&& m.fileops.copied_files == 0
                &&& m.fileops.copied_dirs == 0
                &&& m.fileops.total_bytes == 0
                &&& m.snapshots_subvolume@ == args.snapshots_subvolume@
                &&& pairs_match(split_ws(args.subvolume_pairs@), m.subvolume_pairs@)
                &&& seq_views(m.paths_to_keep@) == split_ws(args.paths_to_keep@)
            }),
    {
        let subvolume_pairs = match parse_subvolume_pairs(args.subvolume_pairs.as_str()) {
            Ok(ps) => ps,
            Err(e) => {
                return Err(e);
            },
        };
        let paths_to_keep = parse_paths_to_keep(args.paths_to_keep.as_str());
        let btrfs = BtrfsManager::new(args.device.as_str(), "/tmp/btrfs-immutable");
        let fileops = FileOperations::new();
        Ok(
            ImmutabilityManager {
                btrfs,
                fileops,
                snapshots_subvolume: args.snapshots_subvolume,
                subvolume_pairs,
                paths_to_keep,
            },
        )
    }

    /// Checks that every configured pair name and the snapshots
    /// subvolume name have a matching record: the first pair without
    /// one is reported, then a missing snapshots subvolume, and only
    /// a fully covered configuration passes.
    pub fn validate_subvolumes(&self, subvolumes: &Vec<SubvolumeInfo>) -> (r: Result<
        (),
        ValidationError,
    >)
        ensures
            ({
                let fm = first_missing(self.subvolume_pairs@, info_views(subvolumes@));
                fm < self.subvolume_pairs@.len()
            }) ==> (r matches Err(e) && e matches ValidationError::SubvolumeNotFound(t) && t@
                == self.subvolume_pairs@[first_missing(
                self.subvolume_pairs@,
                info_views(subvolumes@),
            )].name@),
            first_missing(self.subvolume_pairs@, info_views(subvolumes@))
                == self.subvolume_pairs@.len() && !name_listed(
                info_views(subvolumes@),
                self.snapshots_subvolume@,
            ) ==> (r matches Err(e) && e matches ValidationError::SnapshotsSubvolumeNotFound(t)
                && t@ == self.snapshots_subvolume@),
            first_missing(self.subvolume_pairs@, info_views(subvolumes@))
                == self.subvolume_pairs@.len() && name_listed(
                info_views(subvolumes@),
                self.snapshots_subvolume@,
            ) ==> r is Ok,
    {
        let ghost infos = info_views(subvolumes@);
        let mut k: usize = 0;
        while k < self.subvolume_pairs.len()
            invariant
                0 <= k <= self.subvolume_pairs@.len(),
                infos == info_views(subvolumes@),
                forall|j: int|
                    0 <= j < k ==> name_listed(infos, (#[trigger] self.subvolume_pairs@[j]).name@),
            decreases self.subvolume_pairs@.len() - k,
        {
            if !listing_contains(subvolumes, self.subvolume_pairs[k].name.as_str()) {
                proof {
                    lemma_first_missing_at(self.subvolume_pairs@, infos, k as int);
                }
                return Err(
                    ValidationError::SubvolumeNotFound(self.subvolume_pairs[k].name.clone()),
                );
            }
            k = k + 1;
        }
        proof {
            lemma_first_missing_at(self.subvolume_pairs@, infos, self.subvolume_pairs@.len() as int);
        }
        if !listing_contains(subvolumes, self.snapshots_subvolume.as_str()) {
            return Err(ValidationError::SnapshotsSubvolumeNotFound(self.snapshots_subvolume.clone()));
        }
        Ok(())
    }

    /// The names mounted under the working root: every pair's name,
    /// then the snapshots subvolume.
    pub fn subvolumes_to_mount(&self) -> (r: Vec<String>)
        ensures
            r@.len() == self.subvolume_pairs@.len() + 1,
            forall|k: int|
                0 <= k < self.subvolume_pairs@.len() ==> (#[trigger] r@[k])@
                    == self.subvolume_pairs@[k].name@,
            r@[self.subvolume_pairs@.len() as int]@ == self.snapshots_subvolume@,
    {
        let mut r: Vec<String> = Vec::new();
        let mut k: usize = 0;
        while k < self.subvolume_pairs.len()
            invariant
                0 <= k <= self.subvolume_pairs@.len(),
                r@.len() == k,
                forall|j: int|
                    0 <= j < k ==> (#[trigger] r@[j])@ == self.subvolume_pairs@[j].name@,
            decreases self.subvolume_pairs@.len() - k,
        {
            r.push(self.subvolume_pairs[k].name.clone());
            k = k + 1;
        }
        r.push(self.snapshots_subvolume.clone());
        r
    }

    /// Where the pair's live subvolume stands under the working mount
    /// point.
    pub fn subvolume_path(&self, pair: &SubvolumePair) -> (r: String)
        ensures
            r@ == self.spec_subvolume_path(*pair),
    {
        join_path(self.btrfs.mount_point.as_str(), pair.name.as_str())
    }

    /// The pair's directory under the snapshots subvolume.
    pub fn snapshots_dir(&self, pair: &SubvolumePair) -> (r: String)
        ensures
            r@ == self.spec_snapshots_dir(*pair),
    {
        let base = join_path(self.btrfs.mount_point.as_str(), self.snapshots_subvolume.as_str());
        join_path(base.as_str(), pair.name.as_str())
    }

    /// The pair's staging subvolume path.
    pub fn staging_path(&self, pair: &SubvolumePair) -> (r: String)
        ensures
            r@ == self.spec_staging_path(*pair),
    {
        let dir = self.snapshots_dir(pair);
        join_path(dir.as_str(), "FRESH")
    }

    /// The seven-step reset cycle for one pair, in its fixed order:
    /// the snapshots directory is ensured, a stale staging area is
    /// purged, fresh staging is created, kept content is extracted
    /// before the live subvolume is cleared, the cleared subvolume is
    /// restored from staging, and staging is deleted last.
    pub fn pair_plan(&self, pair: &SubvolumePair) -> (r: Vec<PairAction>)
        ensures
            r@.len() == 7,
            (r@[0] matches PairAction::EnsureSnapshotsDir { path } && path@
                == self.spec_snapshots_dir(*pair)),
            (r@[1] matches PairAction::RemoveStaleStaging { path } && path@
                == self.spec_staging_path(*pair)),
            (r@[2] matches PairAction::CreateStaging { path } && path@ == self.spec_staging_path(
                *pair,
            )),
            (r@[3] matches PairAction::ExtractPersistent { mount_point, source, staging }
                && mount_point@ == pair.mount_point@ && source@ == self.spec_subvolume_path(*pair)
                && staging@ == self.spec_staging_path(*pair)),
            (r@[4] matches PairAction::ClearSubvolume { path } && path@ == self.spec_subvolume_path(
                *pair,
            )),
            (r@[5] matches PairAction::RestorePersistent { staging, target } && staging@
                == self.spec_staging_path(*pair) && target@ == self.spec_subvolume_path(*pair)),
            (r@[6] matches PairAction::DeleteStaging { path } && path@ == self.spec_staging_path(
                *pair,
            )),
    {
        let subvolume = self.subvolume_path(pair);
        let snap_dir = self.snapshots_dir(pair);
        let staging = self.staging_path(pair);
        let mut r: Vec<PairAction> = Vec::new();
        r.push(PairAction::EnsureSnapshotsDir { path: snap_dir });
        r.push(PairAction::RemoveStaleStaging { path: staging.clone() });
        r.push(PairAction::CreateStaging { path: staging.clone() });
        r.push(
            PairAction::ExtractPersistent {
                mount_point: pair.mount_point.clone(),
                source: subvolume.clone(),
                staging: staging.clone(),
            },
        );
        r.push(PairAction::ClearSubvolume { path: subvolume.clone() });
        r.push(
            PairAction::RestorePersistent { staging: staging.clone(), target: subvolume.clone() },
        );
        r.push(PairAction::DeleteStaging { path: staging });
        r
    }

    /// The whole run, in order: mount the root, validate, mount every
    /// pair and the snapshots subvolume, process each pair in
    /// configuration order, and unmount at the end.
    pub fn run_plan(&self) -> (r: Vec<RunAction>)
        ensures
            r@.len() == 2 * self.subvolume_pairs@.len() + 4,
            r@[0] is MountRoot,
            r@[1] is ListAndValidate,
            forall|k: int|
                0 <= k < self.subvolume_pairs@.len() ==> (#[trigger] r@[2 + k]
                    matches RunAction::MountSubvolume { name } && name@
                    == self.subvolume_pairs@[k].name@),
            (r@[2 + self.subvolume_pairs@.len() as int] matches RunAction::MountSubvolume { name }
                && name@ == self.snapshots_subvolume@),
            forall|k: int|
                0 <= k < self.subvolume_pairs@.len() ==> (#[trigger] r@[3
                    + self.subvolume_pairs@.len() + k] matches RunAction::ProcessPair { index }
                    && index == k),
            r@[3 + 2 * (self.subvolume_pairs@.len() as int)] is Unmount,
    {
        let np = self.subvolume_pairs.len();
        let mut r: Vec<RunAction> = Vec::new();
        r.push(RunAction::MountRoot);
        r.push(RunAction::ListAndValidate);
        let mut k: usize = 0;
        while k < np
            invariant
                0 <= k <= np,
                np == self.subvolume_pairs@.len(),
                r@.len() == 2 + k,
                r@[0] is MountRoot,
                r@[1] is ListAndValidate,
                forall|j: int|
                    0 <= j < k ==> (#[trigger] r@[2 + j] matches RunAction::MountSubvolume { name }
                        && name@ == self.subvolume_pairs@[j].name@),
            decreases np - k,
        {
            r.push(RunAction::MountSubvolume { name: self.subvolume_pairs[k].name.clone() });
            k = k + 1;
        }
        r.push(RunAction::MountSubvolume { name: self.snapshots_subvolume.clone() });
        let mut k2: usize = 0;
        while k2 < np
            invariant
                0 <= k2 <= np,
                np == self.subvolume_pairs@.len(),
                r@.len() == 3 + np + k2,
                r@[0] is MountRoot,
                r@[1] is ListAndValidate,
                forall|j: int|
                    0 <= j < np ==> (#[trigger] r@[2 + j] matches RunAction::MountSubvolume { name }
                        && name@ == self.subvolume_pairs@[j].name@),
                (r@[2 + np] matches RunAction::MountSubvolume { name } && name@
                    == self.snapshots_subvolume@),
                forall|j: int|
                    0 <= j < k2 ==> (#[trigger] r@[3 + np + j] matches RunAction::ProcessPair {
                        index,
                    } && index == j),
            decreases np - k2,
        {
            r.push(RunAction::ProcessPair { index: k2 });
            k2 = k2 + 1;
        }
        r.push(RunAction::Unmount);
        r
    }
}

} // verus!
