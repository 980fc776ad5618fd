//! Configuration handed to the tool: the subvolume pairs to reset and
//! the absolute paths whose content survives a reset.

use vstd::prelude::*;
use vstd::string::StrSliceExecFns;
use vstd::string::StringExecFns;

use crate::text::seq_views;
use crate::text::split_whitespace;
use crate::text::split_ws;

verus! {

/// The four positional arguments of the tool.
#[derive(Debug, Clone)]
pub struct Args {
    /// Block device holding the filesystem.
    pub device: String,
    /// Name of the snapshots subvolume.
    pub snapshots_subvolume: String,
    /// Whitespace-separated `NAME=MOUNTPOINT` tokens.
    pub subvolume_pairs: String,
    /// Whitespace-separated absolute paths to preserve.
    pub paths_to_keep: String,
}

/// One configured subvolume: its name and where it is mounted in the
/// live system.
#[derive(Debug, Clone)]
pub struct SubvolumePair {
    pub name: String,
    pub mount_point: String,
}

/// A configuration error, reported before any filesystem action.
#[derive(Debug, Clone)]
pub enum ConfigError {
    /// A pair token does not split as non-empty name `=` non-empty
    /// mount point; the offending token is carried along.
    InvalidPairFormat(String),
    /// The pair list was empty or all whitespace.
    NoPairsSpecified,
}

impl ConfigError {
    /// The diagnostic text for this error.
    pub fn message(&self) -> (r: String)
        ensures
            self matches ConfigError::NoPairsSpecified ==> r@ == "No subvolume pairs specified"@,
            self matches ConfigError::InvalidPairFormat(t) ==> r@
                == "Invalid subvolume pair format: "@ + t@,
    {
        match self {
            ConfigError::NoPairsSpecified => String::from_str("No subvolume pairs specified"),
            ConfigError::InvalidPairFormat(t) => {
                let mut r = String::from_str("Invalid subvolume pair format: ");
                r.append(t.as_str());
                r
            },
        }
    }
}

/// Index of the first `=` in `t`, or `t.len()` when there is none.
pub open spec fn first_eq(t: Seq<char>) -> int
    decreases t.len(),
{
    if t.len() == 0 {
        0
    } else if t[0] == '=' {
        0
    } else {
        1 + first_eq(t.drop_first())
    }
}

proof fn lemma_first_eq_at(t: Seq<char>, p: int)
    requires
        0 <= p <= t.len(),
        forall|m: int| 0 <= m < p ==> t[m] != '=',
        p == t.len() || t[p] == '=',
    ensures
        first_eq(t) == p,
    decreases t.len(),
{
    if p == 0 {
    } else {
        lemma_first_eq_at(t.drop_first(), p - 1);
    }
}

/// `t` is a well-formed pair token: it holds exactly one `=`, with a
/// non-empty name before it and a non-empty mount point after it.
pub open spec fn valid_pair_token(t: Seq<char>) -> bool {
    &&& 1 <= first_eq(t)
    &&& first_eq(t) + 1 < t.len()
    &&& forall|m: int| first_eq(t) < m < t.len() ==> t[m] != '='
}

/// The name part of a well-formed pair token.
pub open spec fn pair_name(t: Seq<char>) -> Seq<char> {
    t.take(first_eq(t))
}

/// The mount-point part of a well-formed pair token.
pub open spec fn pair_mount(t: Seq<char>) -> Seq<char> {
    t.skip(first_eq(t) + 1)
}

/// Index of the first token that is not a well-formed pair token, or
/// `ts.len()` when all are.
pub open spec fn first_invalid(ts: Seq<Seq<char>>) -> int
    decreases ts.len(),
{
    if ts.len() == 0 {
        0
    } else if !valid_pair_token(ts[0]) {
        0
    } else {
        1 + first_invalid(ts.drop_first())
    }
}

proof fn lemma_first_invalid_at(ts: Seq<Seq<char>>, k: int)
    requires
        0 <= k <= ts.len(),
        forall|j: int| 0 <= j < k ==> valid_pair_token(#[trigger] ts[j]),
        k == ts.len() || !valid_pair_token(ts[k]),
    ensures
        first_invalid(ts) == k,
    decreases ts.len(),
{
    if k == 0 {
    } else {
        assert(valid_pair_token(ts[0]));
        assert forall|j: int| 0 <= j < k - 1 implies valid_pair_token(
            #[trigger] ts.drop_first()[j],
        ) by {
            assert(ts.drop_first()[j] == ts[j + 1]);
        }
        if k < ts.len() {
            assert(ts.drop_first()[k - 1] == ts[k]);
        }
        lemma_first_invalid_at(ts.drop_first(), k - 1);
    }
}

/// The parsed pairs correspond one to one, in order, to the tokens.
pub open spec fn pairs_match(ts: Seq<Seq<char>>, ps: Seq<SubvolumePair>) -> bool {
    &&& ps.len() == ts.len()
    &&& forall|k: int|
        0 <= k < ts.len() ==> (#[trigger] ps[k]).name@ == pair_name(ts[k]) && ps[k].mount_point@
            == pair_mount(ts[k])
}

/// Parses one `NAME=MOUNTPOINT` token.
fn parse_pair_token(tok: &str) -> (r: Option<SubvolumePair>)
    ensures
        valid_pair_token(tok@) ==> (r matches Some(p) && p.name@ == pair_name(tok@)
            && p.mount_point@ == pair_mount(tok@)),
        !valid_pair_token(tok@) ==> r is None,
{
    let n: usize = tok.unicode_len();
    let mut p: usize = 0;
    while p < n && tok.get_char(p) != '='
        invariant
            0 <= p <= n,
            n == tok@.len(),
            forall|m: int| 0 <= m < p ==> tok@[m] != '=',
        decreases n - p,
    {
        p = p + 1;
    }
    proof {
        lemma_first_eq_at(tok@, p as int);
    }
    if p == 0 || p >= n - 1 {
        return None;
    }
    let mut m: usize = p + 1;
    while m < n
        invariant
            p + 1 <= m <= n,
            n == tok@.len(),
            first_eq(tok@) == p as int,
            1 <= p && p + 1 < n,
            forall|k: int| p < k < m ==> tok@[k] != '=',
        decreases n - m,
    {
        if tok.get_char(m) == '=' {
            return None;
        }
        m = m + 1;
    }
    let name = String::from_str(tok.substring_char(0, p));
    let mount = String::from_str(tok.substring_char(p + 1, n));
    proof {
        assert(tok@.subrange(0, p as int) =~= tok@.take(first_eq(tok@)));
        assert(tok@.subrange(p + 1, n as int) =~= tok@.skip(first_eq(tok@) + 1));
    }
    Some(SubvolumePair { name, mount_point: mount })
}

/// Parses the whitespace-separated `NAME=MOUNTPOINT` tokens.
///
/// An empty or all-whitespace input is refused outright; otherwise the
/// first malformed token is reported, and only when every token is
/// well-formed do the pairs come back, in input order.
pub fn parse_subvolume_pairs(pairs_str: &str) -> (r: Result<Vec<SubvolumePair>, ConfigError>)
    ensures
        split_ws(pairs_str@).len() == 0 ==> r == Err::<Vec<SubvolumePair>, ConfigError>(
            ConfigError::NoPairsSpecified,
        ),
        split_ws(pairs_str@).len() > 0 && first_invalid(split_ws(pairs_str@)) == split_ws(
            pairs_str@,
        ).len() ==> (r matches Ok(ps) && pairs_match(split_ws(pairs_str@), ps@)),
        split_ws(pairs_str@).len() > 0 && first_invalid(split_ws(pairs_str@)) < split_ws(
            pairs_str@,
        ).len() ==> (r matches Err(e) && e matches ConfigError::InvalidPairFormat(t) && t@
            == split_ws(pairs_str@)[first_invalid(split_ws(pairs_str@))]),
{
    let toks = split_whitespace(pairs_str);
    let ghost ts = split_ws(pairs_str@);
    let mut pairs: Vec<SubvolumePair> = Vec::new();
    let mut k: usize = 0;
    while k < toks.len()
        invariant
            0 <= k <= toks@.len(),
            ts == seq_views(toks@),
            ts == split_ws(pairs_str@),
            forall|j: int| 0 <= j < k ==> valid_pair_token(#[trigger] ts[j]),
            pairs_match(ts.take(k as int), pairs@),
        decreases toks@.len() - k,
    {
        match parse_pair_token(toks[k].as_str()) {
            Some(pair) => {
                proof {
                    assert(ts.take(k + 1).drop_last() =~= ts.take(k as int));
                }
                pairs.push(pair);
                proof {
                    assert(ts.take(k + 1)[k as int] == ts[k as int]);
                    assert forall|j: int| 0 <= j < k + 1 implies (
                    #[trigger] pairs@[j]).name@ == pair_name(ts.take(k + 1)[j])
                        && pairs@[j].mount_point@ == pair_mount(ts.take(k + 1)[j]) by {
                        assert(ts.take(k + 1)[j] == ts[j]);
                    }
                }
            },
            None => {
                proof {
                    lemma_first_invalid_at(ts, k as int);
                }
                return Err(ConfigError::InvalidPairFormat(toks[k].clone()));
            },
        }
        k = k + 1;
    }
    if pairs.len() == 0 {
        proof {
            assert(ts.len() == 0);
        }
        return Err(ConfigError::NoPairsSpecified);
    }
    proof {
        lemma_first_invalid_at(ts, ts.len() as int);
        assert(ts.take(ts.len() as int) =~= ts);
    }
    Ok(pairs)
}

/// Splits the configured keep-list on whitespace, dropping empty
/// fragments and preserving order.
pub fn parse_paths_to_keep(paths_str: &str) -> (r: Vec<String>)
    ensures
        seq_views(r@) == split_ws(paths_str@),
{
    split_whitespace(paths_str)
}

} // verus!
