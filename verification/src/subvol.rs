//! The subvolume directory: the record type reported by the
//! subvolume-listing operation, the parser for listing output, and the
//! manager owning the device and working mount point.

use vstd::prelude::*;
use vstd::string::StrSliceExecFns;
use vstd::string::StringExecFns;

use crate::text::dec_val;
use crate::text::final_segment;
use crate::text::final_segment_of;
use crate::text::is_u64_numeral;
use crate::text::join_spaces;
use crate::text::join_tokens_from;
use crate::text::numeral_body;
use crate::text::parse_u64;
use crate::text::seq_views;
use crate::text::split_whitespace;
use crate::text::split_ws;
use crate::text::str_eq;

verus! {

/// One row of the filesystem's subvolume table.
#[derive(Debug, Clone)]
pub struct SubvolumeInfo {
    /// Numeric subvolume id.
    pub id: u64,
    /// Path relative to the filesystem root; may contain spaces.
    pub path: String,
}

/// Owns the device path and the working mount point; all subvolume
/// operations are planned against these.
pub struct BtrfsManager {
    pub device: String,
    pub mount_point: String,
}

/// The views of a sequence of subvolume records.
pub open spec fn info_views(v: Seq<SubvolumeInfo>) -> Seq<(u64, Seq<char>)> {
    Seq::new(v.len(), |i: int| (v[i].id, v[i].path@))
}

/// Index of the first token equal to `path`, or `ts.len()` when none is.
pub open spec fn first_path_token(ts: Seq<Seq<char>>) -> int
    decreases ts.len(),
{
    if ts.len() == 0 {
        0
    } else if ts[0] == seq!['p', 'a', 't', 'h'] {
        0
    } else {
        1 + first_path_token(ts.drop_first())
    }
}

proof fn lemma_first_path_token_at(ts: Seq<Seq<char>>, k: int)
    requires
        0 <= k <= ts.len(),
        forall|j: int| 0 <= j < k ==> #[trigger] ts[j] != seq!['p', 'a', 't', 'h'],
        k == ts.len() || ts[k] == seq!['p', 'a', 't', 'h'],
    ensures
        first_path_token(ts) == k,
    decreases ts.len(),
{
    if k == 0 {
    } else {
        assert forall|j: int| 0 <= j < k - 1 implies #[trigger] ts.drop_first()[j] != seq![
            'p',
            'a',
            't',
            'h',
        ] by {
            assert(ts.drop_first()[j] == ts[j + 1]);
        }
        if k < ts.len() {
            assert(ts.drop_first()[k - 1] == ts[k]);
        }
        lemma_first_path_token_at(ts.drop_first(), k - 1);
    }
}

/// A well-formed listing line: after whitespace tokenization it has at
/// least eight tokens, starts with the literal `ID`, its second token
/// is an unsigned 64-bit numeral, and a token `path` is followed by at
/// least one further token.
pub open spec fn valid_listing_line(line: Seq<char>) -> bool {
    let ts = split_ws(line);
    &&& ts.len() >= 8
    &&& ts[0] == seq!['I', 'D']
    &&& first_path_token(ts) + 1 < ts.len()
    &&& is_u64_numeral(ts[1])
}

/// The id carried by a well-formed listing line.
pub open spec fn listing_line_id(line: Seq<char>) -> u64 {
    dec_val(numeral_body(split_ws(line)[1])) as u64
}

/// The path carried by a well-formed listing line: every token after
/// the `path` keyword, rejoined with single spaces.
pub open spec fn listing_line_path(line: Seq<char>) -> Seq<char> {
    let ts = split_ws(line);
    join_spaces(ts.skip(first_path_token(ts) + 1))
}

/// Index of the first newline in `s`, or `s.len()` when there is none.
pub open spec fn first_nl(s: Seq<char>) -> int
    decreases s.len(),
{
    if s.len() == 0 {
        0
    } else if s[0] == '\n' {
        0
    } else {
        1 + first_nl(s.drop_first())
    }
}

proof fn lemma_first_nl_le(s: Seq<char>)
    ensures
        0 <= first_nl(s) <= s.len(),
    decreases s.len(),
{
    if s.len() > 0 && s[0] != '\n' {
        lemma_first_nl_le(s.drop_first());
    }
}

proof fn lemma_first_nl_at(s: Seq<char>, k: int)
    requires
        0 <= k <= s.len(),
        forall|m: int| 0 <= m < k ==> s[m] != '\n',
        k == s.len() || s[k] == '\n',
    ensures
        first_nl(s) == k,
    decreases s.len(),
{
    if k > 0 {
        lemma_first_nl_at(s.drop_first(), k - 1);
    }
}

/// `s` split at newlines; always one more segment than newlines.
pub open spec fn raw_split_lines(s: Seq<char>) -> Seq<Seq<char>>
    decreases s.len(),
    via raw_split_lines_decreases
{
    if first_nl(s) == s.len() {
        seq![s]
    } else {
        seq![s.take(first_nl(s))] + raw_split_lines(s.skip(first_nl(s) + 1))
    }
}

#[via_fn]
proof fn raw_split_lines_decreases(s: Seq<char>) {
    lemma_first_nl_le(s);
}

/// The lines of `s`: segments between newlines, with one final newline
/// tolerated and an empty `s` giving no lines.
pub open spec fn lines_of(s: Seq<char>) -> Seq<Seq<char>> {
    if s.len() == 0 {
        Seq::empty()
    } else if s.last() == '\n' {
        raw_split_lines(s.drop_last())
    } else {
        raw_split_lines(s)
    }
}

/// The records carried by the well-formed lines, in input order;
/// malformed lines contribute nothing.
pub open spec fn parsed_listing(ls: Seq<Seq<char>>) -> Seq<(u64, Seq<char>)>
    decreases ls.len(),
{
    if ls.len() == 0 {
        Seq::empty()
    } else {
        (if valid_listing_line(ls[0]) {
            seq![(listing_line_id(ls[0]), listing_line_path(ls[0]))]
        } else {
            Seq::empty()
        }) + parsed_listing(ls.drop_first())
    }
}

/// Parsing is order-preserving and line-local: the records of two line
/// sequences fed one after the other are the records of the first
/// followed by the records of the second.
pub proof fn lemma_parsed_listing_append(a: Seq<Seq<char>>, b: Seq<Seq<char>>)
    ensures
        parsed_listing(a + b) == parsed_listing(a) + parsed_listing(b),
    decreases a.len(),
{
    if a.len() == 0 {
        assert(a + b =~= b);
        assert(parsed_listing(a) + parsed_listing(b) =~= parsed_listing(b));
    } else {
        lemma_parsed_listing_append(a.drop_first(), b);
        assert((a + b).drop_first() =~= a.drop_first() + b);
        assert((a + b)[0] == a[0]);
        assert(parsed_listing(a + b) =~= parsed_listing(a) + parsed_listing(b));
    }
}

proof fn lemma_raw_split_step(t: Seq<char>, i: int, j: int)
    requires
        0 <= i <= j <= t.len(),
        forall|m: int| i <= m < j ==> t[m] != '\n',
        j == t.len() || t[j] == '\n',
    ensures
        j == t.len() ==> raw_split_lines(t.skip(i)) == seq![t.subrange(i, j)],
        j < t.len() ==> raw_split_lines(t.skip(i)) == seq![t.subrange(i, j)] + raw_split_lines(
            t.skip(j + 1),
        ),
{
    let u = t.skip(i);
    assert(forall|m: int| 0 <= m < j - i ==> u[m] == t[i + m]);
    lemma_first_nl_at(u, j - i);
    if j == t.len() {
        assert(u.take(j - i) =~= u);
        assert(u =~= t.subrange(i, j));
    } else {
        assert(u.take(j - i) =~= t.subrange(i, j));
        assert(u.skip(j - i + 1) =~= t.skip(j + 1));
    }
}

/// The reserved snapshot-infrastructure name `@snapshots`.
pub open spec fn snapshots_at_name() -> Seq<char> {
    seq!['@', 's', 'n', 'a', 'p', 's', 'h', 'o', 't', 's']
}

/// The reserved snapshot-infrastructure name `.snapshots`.
pub open spec fn snapshots_dot_name() -> Seq<char> {
    seq!['.', 's', 'n', 'a', 'p', 's', 'h', 'o', 't', 's']
}

/// Names that recursive deletion must never touch.
pub open spec fn is_reserved_snapshot_name(n: Seq<char>) -> bool {
    n == snapshots_at_name() || n == snapshots_dot_name()
}

/// Executable test for [`is_reserved_snapshot_name`].
pub fn is_reserved_snapshot(name: &str) -> (r: bool)
    ensures
        r == is_reserved_snapshot_name(name@),
{
    proof {
        reveal_strlit("@snapshots");
        reveal_strlit(".snapshots");
        assert("@snapshots"@ =~= snapshots_at_name());
        assert(".snapshots"@ =~= snapshots_dot_name());
    }
    crate::text::str_eq(name, "@snapshots") || crate::text::str_eq(name, ".snapshots")
}

/// A discovered subvolume: its full path and the arena indices of the
/// subvolumes nested directly under it.
pub struct SubvolumeNode {
    pub path: String,
    pub children: Vec<usize>,
}

/// A well-formed arena: every child index points further right, so the
/// discovery order (parents before children) is reflected in indices
/// and every walk terminates.
pub open spec fn wf_arena(a: Seq<SubvolumeNode>) -> bool {
    forall|i: int, x: int|
        0 <= i < a.len() && 0 <= x < a[i].children@.len() ==> i < #[trigger] a[i].children@[x]
            < a.len()
}

/// The node's final path segment is a reserved snapshot name.
pub open spec fn node_reserved(a: Seq<SubvolumeNode>, i: int) -> bool {
    is_reserved_snapshot_name(final_segment(a[i].path@))
}

/// The deletion order for the subtree at `i`: children's plans first,
/// then the node itself; nothing at all for a reserved node or an index
/// out of range.
pub open spec fn delete_plan(a: Seq<SubvolumeNode>, i: int) -> Seq<int>
    decreases a.len() - i, 1int, 1int,
{
    if !(0 <= i < a.len()) {
        Seq::empty()
    } else if node_reserved(a, i) {
        Seq::empty()
    } else {
        delete_plan_list(a, a[i].children@, i) + seq![i]
    }
}

/// The concatenated deletion plans of the children `cs` of node `i`.
pub open spec fn delete_plan_list(a: Seq<SubvolumeNode>, cs: Seq<usize>, i: int) -> Seq<int>
    decreases a.len() - i, 0int, cs.len(),
{
    if cs.len() == 0 {
        Seq::empty()
    } else {
        (if i < cs[0] < a.len() {
            delete_plan(a, cs[0] as int)
        } else {
            Seq::empty()
        }) + delete_plan_list(a, cs.drop_first(), i)
    }
}

/// `j` can be reached from `i` through nodes that are all unreserved.
pub open spec fn clean_reach(a: Seq<SubvolumeNode>, i: int, j: int) -> bool
    decreases a.len() - i,
{
    &&& 0 <= i < a.len()
    &&& !node_reserved(a, i)
    &&& (j == i || exists|x: int|
        0 <= x < a[i].children@.len() && i < #[trigger] a[i].children@[x] < a.len() && clean_reach(
            a,
            a[i].children@[x] as int,
            j,
        ))
}

/// A cleanly reached node is in range and unreserved.
pub proof fn lemma_clean_reach_target(a: Seq<SubvolumeNode>, i: int, j: int)
    requires
        clean_reach(a, i, j),
    ensures
        0 <= j < a.len(),
        !node_reserved(a, j),
    decreases a.len() - i,
{
    if j != i {
        let x = choose|x: int|
            0 <= x < a[i].children@.len() && i < #[trigger] a[i].children@[x] < a.len()
                && clean_reach(a, a[i].children@[x] as int, j);
        lemma_clean_reach_target(a, a[i].children@[x] as int, j);
    }
}

/// Recursive deletion never descends into or removes a reserved node:
/// every planned node is reached from the root through unreserved
/// nodes only, and is itself unreserved.
pub proof fn lemma_delete_plan_clean(a: Seq<SubvolumeNode>, i: int)
    requires
        0 <= i < a.len(),
    ensures
        forall|k: int|
            0 <= k < delete_plan(a, i).len() ==> clean_reach(a, i, #[trigger] delete_plan(a, i)[k]),
    decreases a.len() - i, 1int, 1int,
{
    if node_reserved(a, i) {
    } else {
        let cs = a[i].children@;
        lemma_delete_plan_list_clean(a, cs, i);
        let p = delete_plan(a, i);
        let pl = delete_plan_list(a, cs, i);
        assert forall|k: int| 0 <= k < p.len() implies clean_reach(a, i, #[trigger] p[k]) by {
            if k < pl.len() {
                assert(p[k] == pl[k]);
                assert(cleanly_from_list(a, cs, i, pl[k]));
                let x = choose|x: int|
                    0 <= x < cs.len() && i < #[trigger] cs[x] < a.len() && clean_reach(
                        a,
                        cs[x] as int,
                        pl[k],
                    );
                assert(clean_reach(a, i, pl[k]));
            } else {
                assert(p[k] == i);
            }
        }
    }
}

/// `j` is cleanly reached from one of the child indices in `cs`.
pub open spec fn cleanly_from_list(a: Seq<SubvolumeNode>, cs: Seq<usize>, i: int, j: int) -> bool {
    exists|x: int|
        0 <= x < cs.len() && i < #[trigger] cs[x] < a.len() && clean_reach(a, cs[x] as int, j)
}

/// List form of [`lemma_delete_plan_clean`]: every node planned for a
/// child list is cleanly reached from one of the children.
pub proof fn lemma_delete_plan_list_clean(a: Seq<SubvolumeNode>, cs: Seq<usize>, i: int)
    requires
        0 <= i < a.len(),
    ensures
        forall|k: int|
            0 <= k < delete_plan_list(a, cs, i).len() ==> cleanly_from_list(
                a,
                cs,
                i,
                #[trigger] delete_plan_list(a, cs, i)[k],
            ),
    decreases a.len() - i, 0int, cs.len(),
{
    if cs.len() == 0 {
    } else {
        let head = if i < cs[0] < a.len() {
            delete_plan(a, cs[0] as int)
        } else {
            Seq::<int>::empty()
        };
        if i < cs[0] < a.len() {
            lemma_delete_plan_clean(a, cs[0] as int);
        }
        lemma_delete_plan_list_clean(a, cs.drop_first(), i);
        let pl = delete_plan_list(a, cs, i);
        let rest = delete_plan_list(a, cs.drop_first(), i);
        assert forall|k: int| 0 <= k < pl.len() implies cleanly_from_list(
            a,
            cs,
            i,
            #[trigger] pl[k],
        ) by {
            if k < head.len() {
                assert(pl[k] == head[k]);
                assert(i < cs[0] < a.len() && clean_reach(a, cs[0] as int, pl[k]));
            } else {
                assert(pl[k] == rest[k - head.len()]);
                assert(cleanly_from_list(a, cs.drop_first(), i, rest[k - head.len()]));
                let x = choose|x: int|
                    0 <= x < cs.drop_first().len() && i < #[trigger] cs.drop_first()[x] < a.len()
                        && clean_reach(a, cs.drop_first()[x] as int, rest[k - head.len()]);
                assert(cs.drop_first()[x] == cs[x + 1]);
                assert(i < cs[x + 1] < a.len() && clean_reach(a, cs[x + 1] as int, pl[k]));
            }
        }
    }
}

/// `c` occurs in `p` somewhere before position `k`.
pub open spec fn appears_before(p: Seq<int>, k: int, c: int) -> bool {
    exists|k2: int| 0 <= k2 < k && #[trigger] p[k2] == c
}

/// An unreserved node's plan is non-empty and ends with the node.
proof fn lemma_delete_plan_last(a: Seq<SubvolumeNode>, c: int)
    requires
        0 <= c < a.len(),
        !node_reserved(a, c),
    ensures
        delete_plan(a, c).len() > 0,
        delete_plan(a, c).last() == c,
{
    assert(delete_plan(a, c) == delete_plan_list(a, a[c].children@, c) + seq![c]);
}

proof fn lemma_delete_plan_list_has_child(a: Seq<SubvolumeNode>, cs: Seq<usize>, i: int, x: int)
    requires
        0 <= x < cs.len(),
        i < cs[x] < a.len(),
        !node_reserved(a, cs[x] as int),
    ensures
        appears_before(
            delete_plan_list(a, cs, i),
            delete_plan_list(a, cs, i).len() as int,
            cs[x] as int,
        ),
    decreases cs.len(),
{
    let pl = delete_plan_list(a, cs, i);
    let head = if i < cs[0] < a.len() {
        delete_plan(a, cs[0] as int)
    } else {
        Seq::<int>::empty()
    };
    let rest = delete_plan_list(a, cs.drop_first(), i);
    assert(pl == head + rest);
    if x == 0 {
        lemma_delete_plan_last(a, cs[0] as int);
        assert(pl[head.len() - 1] == cs[0] as int);
    } else {
        assert(cs.drop_first()[x - 1] == cs[x]);
        lemma_delete_plan_list_has_child(a, cs.drop_first(), i, x - 1);
        let k2 = choose|k2: int| 0 <= k2 < rest.len() && #[trigger] rest[k2] == cs[x] as int;
        assert(pl[head.len() + k2] == cs[x] as int);
    }
}

/// A node's children are deleted before the node itself: whenever a
/// planned node has an unreserved child, that child stands earlier in
/// the plan.
pub proof fn lemma_delete_plan_children_first(a: Seq<SubvolumeNode>, i: int)
    requires
        wf_arena(a),
        0 <= i < a.len(),
    ensures
        forall|k: int, x: int|
            #![trigger a[delete_plan(a, i)[k]].children@[x]]
            0 <= k < delete_plan(a, i).len() && 0 <= x < a[delete_plan(a, i)[k]].children@.len()
                && !node_reserved(a, a[delete_plan(a, i)[k]].children@[x] as int)
                ==> appears_before(delete_plan(a, i), k, a[delete_plan(a, i)[k]].children@[x] as int),
    decreases a.len() - i, 1int, 1int,
{
    if node_reserved(a, i) {
    } else {
        let cs = a[i].children@;
        let pl = delete_plan_list(a, cs, i);
        let p = delete_plan(a, i);
        assert(p == pl + seq![i]);
        lemma_delete_plan_list_children_first(a, cs, i);
        assert forall|k: int, x: int|
            #![trigger a[p[k]].children@[x]]
            0 <= k < p.len() && 0 <= x < a[p[k]].children@.len() && !node_reserved(
                a,
                a[p[k]].children@[x] as int,
            ) implies appears_before(p, k, a[p[k]].children@[x] as int) by {
            let c = a[p[k]].children@[x] as int;
            if k < pl.len() {
                assert(p[k] == pl[k]);
                assert(appears_before(pl, k, c));
                let k2 = choose|k2: int| 0 <= k2 < k && #[trigger] pl[k2] == c;
                assert(p[k2] == pl[k2]);
            } else {
                assert(p[k] == i);
                lemma_delete_plan_list_has_child(a, cs, i, x);
                let k2 = choose|k2: int| 0 <= k2 < pl.len() && #[trigger] pl[k2] == c;
                assert(p[k2] == pl[k2]);
                assert(k == pl.len());
            }
        }
    }
}

/// List form of [`lemma_delete_plan_children_first`].
proof fn lemma_delete_plan_list_children_first(a: Seq<SubvolumeNode>, cs: Seq<usize>, i: int)
    requires
        wf_arena(a),
        0 <= i < a.len(),
    ensures
        forall|k: int, x: int|
            #![trigger a[delete_plan_list(a, cs, i)[k]].children@[x]]
            0 <= k < delete_plan_list(a, cs, i).len() && 0 <= x < a[delete_plan_list(
                a,
                cs,
                i,
            )[k]].children@.len() && !node_reserved(
                a,
                a[delete_plan_list(a, cs, i)[k]].children@[x] as int,
            ) ==> appears_before(
                delete_plan_list(a, cs, i),
                k,
                a[delete_plan_list(a, cs, i)[k]].children@[x] as int,
            ),
    decreases a.len() - i, 0int, cs.len(),
{
    if cs.len() == 0 {
    } else {
        let pl = delete_plan_list(a, cs, i);
        let head = if i < cs[0] < a.len() {
            delete_plan(a, cs[0] as int)
        } else {
            Seq::<int>::empty()
        };
        let rest = delete_plan_list(a, cs.drop_first(), i);
        assert(pl == head + rest);
        if i < cs[0] < a.len() {
            lemma_delete_plan_children_first(a, cs[0] as int);
        }
        lemma_delete_plan_list_children_first(a, cs.drop_first(), i);
        assert forall|k: int, x: int|
            #![trigger a[pl[k]].children@[x]]
            0 <= k < pl.len() && 0 <= x < a[pl[k]].children@.len() && !node_reserved(
                a,
                a[pl[k]].children@[x] as int,
            ) implies appears_before(pl, k, a[pl[k]].children@[x] as int) by {
            let c = a[pl[k]].children@[x] as int;
            if k < head.len() {
                assert(pl[k] == head[k]);
                assert(appears_before(head, k, c));
                let k2 = choose|k2: int| 0 <= k2 < k && #[trigger] head[k2] == c;
                assert(pl[k2] == head[k2]);
            } else {
                assert(pl[k] == rest[k - head.len()]);
                assert(appears_before(rest, k - head.len(), c));
                let k2 = choose|k2: int| 0 <= k2 < k - head.len() && #[trigger] rest[k2] == c;
                assert(pl[head.len() + k2] == rest[k2]);
            }
        }
    }
}

/// Breadth-first discovery of the subvolumes nested below one root.
/// The driver asks for the next path to query, reports the children
/// the listing command returned, and repeats until nothing is pending;
/// the arena built this way is well-formed by construction.
pub struct SubvolumeDiscovery {
    pub arena: Vec<SubvolumeNode>,
    pub next: usize,
}

impl SubvolumeDiscovery {
    /// The discovery invariant: the arena is well-formed and every
    /// node left of `next` has had its children recorded.
    pub open spec fn wf(self) -> bool {
        wf_arena(self.arena@) && self.next <= self.arena@.len()
    }

    /// Starts a discovery at the root subvolume's path.
    pub fn new(root_path: String) -> (r: Self)
        ensures
            r.wf(),
            r.arena@.len() == 1,
            r.arena@[0].path@ == root_path@,
            r.arena@[0].children@.len() == 0,
            r.next == 0,
    {
        let mut arena: Vec<SubvolumeNode> = Vec::new();
        arena.push(SubvolumeNode { path: root_path, children: Vec::new() });
        SubvolumeDiscovery { arena, next: 0 }
    }

    /// The path whose children should be queried next, or nothing
    /// when discovery is complete.
    pub fn next_path(&self) -> (r: Option<String>)
        requires
            self.wf(),
        ensures
            self.next < self.arena@.len() ==> (r matches Some(p) && p@
                == self.arena@[self.next as int].path@),
            self.next >= self.arena@.len() ==> r is None,
    {
        if self.next < self.arena.len() {
            Some(self.arena[self.next].path.clone())
        } else {
            None
        }
    }

    /// Records the children found under the pending node: each
    /// becomes a fresh node to the right of everything seen so far,
    /// and the pending position advances.
    pub fn record_children(&mut self, children: &Vec<String>)
        requires
            old(self).wf(),
            old(self).next < old(self).arena@.len(),
        ensures
            final(self).wf(),
            final(self).next == old(self).next + 1,
            final(self).arena@.len() == old(self).arena@.len() + children@.len(),
            forall|k: int|
                0 <= k < old(self).arena@.len() && k != old(self).next ==> final(self).arena@[k]
                    == old(self).arena@[k],
            final(self).arena@[old(self).next as int].path == old(self).arena@[old(
                self,
            ).next as int].path,
            final(self).arena@[old(self).next as int].children@ == old(self).arena@[old(
                self,
            ).next as int].children@ + Seq::new(
                children@.len(),
                |i: int| (old(self).arena@.len() + i) as usize,
            ),
            forall|i: int|
                0 <= i < children@.len() ==> (#[trigger] final(self).arena@[old(self).arena@.len()
                    + i]).path@ == children@[i]@ && final(self).arena@[old(self).arena@.len()
                    + i].children@.len() == 0,
    {
        let base = self.arena.len();
        let here = self.next;
        let ghost orig = self.arena@;
        let mut i: usize = 0;
        while i < children.len()
            invariant
                0 <= i <= children@.len(),
                base == orig.len(),
                here < orig.len(),
                here == self.next,
                self.arena@.len() == orig.len() + i,
                forall|k: int| 0 <= k < orig.len() && k != here ==> self.arena@[k] == orig[k],
                self.arena@[here as int].path == orig[here as int].path,
                self.arena@[here as int].children@ == orig[here as int].children@ + Seq::new(
                    i as nat,
                    |j: int| (orig.len() + j) as usize,
                ),
                forall|j: int|
                    0 <= j < i ==> (#[trigger] self.arena@[orig.len() + j]).path@ == children@[j]@
                        && self.arena@[orig.len() + j].children@.len() == 0,
            decreases children@.len() - i,
        {
            let idx = self.arena.len();
            self.arena.push(
                SubvolumeNode { path: children[i].clone(), children: Vec::new() },
            );
            let ghost mid = self.arena@;
            self.arena[here].children.push(idx);
            proof {
                assert(self.arena@ =~= mid.update(
                    here as int,
                    SubvolumeNode {
                        path: mid[here as int].path,
                        children: self.arena@[here as int].children,
                    },
                ));
                assert(self.arena@[here as int].children@ =~= orig[here as int].children@
                    + Seq::new((i + 1) as nat, |j: int| (orig.len() + j) as usize));
            }
            i = i + 1;
        }
        self.next = self.next + 1;
        proof {
            let a = self.arena@;
            let n = children@.len() as int;
            assert(a.len() == self.arena.len());
            assert forall|i2: int, x: int|
                0 <= i2 < a.len() && 0 <= x < a[i2].children@.len() implies i2 < #[trigger] a[i2].children@[x]
                < a.len() by {
                if i2 < orig.len() {
                    if i2 == here {
                        let ocl = orig[here as int].children@.len() as int;
                        if x < ocl {
                            assert(a[i2].children@[x] == orig[here as int].children@[x]);
                        } else {
                            let j = x - ocl;
                            assert(a[here as int].children@[x] == Seq::new(
                                n as nat,
                                |j2: int| (orig.len() + j2) as usize,
                            )[j]);
                            assert(orig.len() + j < a.len());
                            assert(a[i2].children@[x] == (orig.len() + j) as usize);
                        }
                    } else {
                        assert(a[i2] == orig[i2]);
                    }
                } else {
                    let j = i2 - orig.len();
                    assert(a[orig.len() + j].children@.len() == 0);
                }
            }
        }
    }

    /// Discovery is complete: every discovered node has been queried.
    pub fn finished(&self) -> (r: bool)
        ensures
            r == (self.next >= self.arena@.len()),
    {
        self.next >= self.arena.len()
    }
}

/// [`deletion_order`] behind a run-time well-formedness check: an
/// arena whose child indices do not all point strictly rightwards and
/// in range is refused instead of assumed.
pub fn checked_deletion_order(a: &Vec<SubvolumeNode>, root: usize) -> (r: Option<Vec<usize>>)
    ensures
        wf_arena(a@) && root < a@.len() ==> (r matches Some(plan) && indices_as_ints(plan@)
            == delete_plan(a@, root as int)),
        !(wf_arena(a@) && root < a@.len()) ==> r is None,
{
    if root >= a.len() {
        return None;
    }
    let mut i: usize = 0;
    while i < a.len()
        invariant
            0 <= i <= a@.len(),
            forall|i2: int, x: int|
                0 <= i2 < i && 0 <= x < a@[i2].children@.len() ==> i2 < #[trigger] a@[i2].children@[x]
                    < a@.len(),
        decreases a@.len() - i,
    {
        let mut x: usize = 0;
        while x < a[i].children.len()
            invariant
                0 <= x <= a@[i as int].children@.len(),
                i < a@.len(),
                forall|y: int|
                    0 <= y < x ==> i < #[trigger] a@[i as int].children@[y] < a@.len(),
            decreases a@[i as int].children@.len() - x,
        {
            let c = a[i].children[x];
            if c <= i || c >= a.len() {
                proof {
                    assert(!wf_arena(a@));
                }
                return None;
            }
            x = x + 1;
        }
        i = i + 1;
    }
    proof {
        assert(wf_arena(a@));
    }
    Some(deletion_order(a, root))
}

/// One directory entry, as the driver reports it: its name (final
/// path segment), whether it is a directory, and whether the
/// subvolume-inspection command recognises it as a subvolume.
#[derive(Debug, Clone)]
pub struct DirEntryInfo {
    pub name: String,
    pub is_dir: bool,
    pub is_subvolume: bool,
}

/// `v` holds the index `i`.
pub open spec fn has_index(v: Seq<usize>, i: int) -> bool {
    exists|k: int| 0 <= k < v.len() && #[trigger] v[k] as int == i
}

/// The indices of the entries that are not subvolumes, in order: what
/// recursive deletion removes with ordinary filesystem removal, leaving
/// subvolume-typed entries to their own recursive handling.
pub fn sweep_removals(entries: &Vec<DirEntryInfo>) -> (r: Vec<usize>)
    ensures
        forall|k: int| 0 <= k < r@.len() ==> (#[trigger] r@[k]) < entries@.len(),
        forall|k: int| 0 <= k < r@.len() ==> !entries@[#[trigger] r@[k] as int].is_subvolume,
        forall|k1: int, k2: int| 0 <= k1 < k2 < r@.len() ==> r@[k1] < r@[k2],
        forall|i: int|
            0 <= i < entries@.len() && !(#[trigger] entries@[i]).is_subvolume ==> has_index(r@, i),
{
    let mut r: Vec<usize> = Vec::new();
    let mut i: usize = 0;
    while i < entries.len()
        invariant
            0 <= i <= entries@.len(),
            forall|k: int| 0 <= k < r@.len() ==> (#[trigger] r@[k]) < i,
            forall|k: int| 0 <= k < r@.len() ==> !entries@[#[trigger] r@[k] as int].is_subvolume,
            forall|k1: int, k2: int| 0 <= k1 < k2 < r@.len() ==> r@[k1] < r@[k2],
            forall|j: int|
                0 <= j < i && !(#[trigger] entries@[j]).is_subvolume ==> has_index(r@, j),
        decreases entries@.len() - i,
    {
        if !entries[i].is_subvolume {
            let ghost before = r@;
            r.push(i);
            proof {
                assert(r@[r@.len() - 1] as int == i as int);
                assert forall|j: int|
                    0 <= j < i + 1 && !(#[trigger] entries@[j]).is_subvolume implies has_index(
                    r@,
                    j,
                ) by {
                    if j < i {
                        let k = choose|k: int| 0 <= k < before.len() && #[trigger] before[k] as int
                            == j;
                        assert(r@[k] as int == j);
                    } else {
                        assert(r@[r@.len() - 1] as int == j);
                    }
                }
            }
        }
        i = i + 1;
    }
    r
}

/// Sequence of `usize` indices viewed as mathematical integers.
pub open spec fn indices_as_ints(s: Seq<usize>) -> Seq<int> {
    Seq::new(s.len(), |k: int| s[k] as int)
}

proof fn lemma_delete_plan_list_snoc(a: Seq<SubvolumeNode>, cs: Seq<usize>, c: usize, i: int)
    ensures
        delete_plan_list(a, cs.push(c), i) == delete_plan_list(a, cs, i) + (if i < c < a.len() {
            delete_plan(a, c as int)
        } else {
            Seq::<int>::empty()
        }),
    decreases cs.len(),
{
    let tail = if i < c < a.len() {
        delete_plan(a, c as int)
    } else {
        Seq::<int>::empty()
    };
    if cs.len() == 0 {
        assert(cs.push(c)[0] == c);
        assert(cs.push(c).drop_first() =~= cs);
        assert(delete_plan_list(a, cs.push(c), i) == tail + delete_plan_list(a, cs, i));
        assert(delete_plan_list(a, cs, i) =~= Seq::<int>::empty());
        assert(tail + delete_plan_list(a, cs, i) =~= delete_plan_list(a, cs, i) + tail);
    } else {
        assert(cs.push(c).drop_first() =~= cs.drop_first().push(c));
        lemma_delete_plan_list_snoc(a, cs.drop_first(), c, i);
        assert(cs.push(c)[0] == cs[0]);
        let head = if i < cs[0] < a.len() {
            delete_plan(a, cs[0] as int)
        } else {
            Seq::<int>::empty()
        };
        assert(delete_plan_list(a, cs.push(c), i) == head + delete_plan_list(
            a,
            cs.push(c).drop_first(),
            i,
        ));
        assert(delete_plan_list(a, cs.push(c).drop_first(), i) == delete_plan_list(
            a,
            cs.drop_first(),
            i,
        ) + tail);
        assert(delete_plan_list(a, cs, i) == head + delete_plan_list(a, cs.drop_first(), i));
        assert(head + (delete_plan_list(a, cs.drop_first(), i) + tail) =~= (head
            + delete_plan_list(a, cs.drop_first(), i)) + tail);
    }
}

/// Collects the deletion order for the subtree at `i` onto `out`.
fn push_delete_plan(a: &Vec<SubvolumeNode>, i: usize, out: &mut Vec<usize>)
    requires
        wf_arena(a@),
        i < a@.len(),
    ensures
        indices_as_ints(final(out)@) == indices_as_ints(old(out)@) + delete_plan(a@, i as int),
    decreases a@.len() - i,
{
    let name = final_segment_of(a[i].path.as_str());
    if is_reserved_snapshot(name.as_str()) {
        proof {
            assert(indices_as_ints(out@) =~= indices_as_ints(out@) + delete_plan(a@, i as int));
        }
        return ;
    }
    let ghost base = out@;
    let ghost cs = a@[i as int].children@;
    let n = a[i].children.len();
    let mut k: usize = 0;
    proof {
        assert(cs.take(0) =~= Seq::<usize>::empty());
        assert(indices_as_ints(out@) =~= indices_as_ints(base) + delete_plan_list(
            a@,
            cs.take(0),
            i as int,
        ));
    }
    while k < n
        invariant
            0 <= k <= n,
            n == cs.len(),
            cs == a@[i as int].children@,
            wf_arena(a@),
            i < a@.len(),
            indices_as_ints(out@) == indices_as_ints(base) + delete_plan_list(
                a@,
                cs.take(k as int),
                i as int,
            ),
        decreases n - k,
    {
        let child = a[i].children[k];
        proof {
            assert(cs[k as int] == child);
            assert(i < child < a@.len());
        }
        let ghost before = out@;
        push_delete_plan(a, child, out);
        proof {
            assert(cs.take(k + 1) =~= cs.take(k as int).push(child));
            lemma_delete_plan_list_snoc(a@, cs.take(k as int), child, i as int);
            assert(indices_as_ints(out@) =~= indices_as_ints(base) + delete_plan_list(
                a@,
                cs.take(k + 1),
                i as int,
            ));
        }
        k = k + 1;
    }
    proof {
        assert(cs.take(n as int) =~= cs);
    }
    let ghost prev = out@;
    out.push(i);
    proof {
        assert(indices_as_ints(prev) == indices_as_ints(base) + delete_plan_list(
            a@,
            cs,
            i as int,
        ));
        assert(indices_as_ints(out@) =~= indices_as_ints(prev) + seq![i as int]);
        assert(delete_plan(a@, i as int) == delete_plan_list(a@, cs, i as int) + seq![i as int]);
        assert(indices_as_ints(prev) + seq![i as int] =~= indices_as_ints(base) + delete_plan(
            a@,
            i as int,
        ));
    }
}

/// The bottom-up deletion order for the discovered subvolume tree
/// rooted at `root`: every node's children come before the node, and
/// reserved snapshot names — and everything below them — are left out.
pub fn deletion_order(a: &Vec<SubvolumeNode>, root: usize) -> (plan: Vec<usize>)
    requires
        wf_arena(a@),
        root < a@.len(),
    ensures
        indices_as_ints(plan@) == delete_plan(a@, root as int),
{
    let mut plan: Vec<usize> = Vec::new();
    proof {
        assert(indices_as_ints(plan@) =~= Seq::<int>::empty());
    }
    push_delete_plan(a, root, &mut plan);
    proof {
        assert(indices_as_ints(plan@) =~= Seq::<int>::empty() + delete_plan(a@, root as int));
        assert(Seq::<int>::empty() + delete_plan(a@, root as int) =~= delete_plan(
            a@,
            root as int,
        ));
    }
    plan
}

impl BtrfsManager {
    /// A manager for the given block device, working under the given
    /// mount point.
    pub fn new(device: &str, mount_point: &str) -> (r: Self)
        ensures
            r.device@ == device@,
            r.mount_point@ == mount_point@,
    {
        BtrfsManager { device: String::from_str(device), mount_point: String::from_str(mount_point) }
    }

    /// Parses one line of subvolume-listing output; malformed lines
    /// yield no record rather than an error.
    pub fn parse_subvolume_line(&self, line: &str) -> (r: Option<SubvolumeInfo>)
        ensures
            valid_listing_line(line@) ==> (r matches Some(info) && info.id == listing_line_id(
                line@,
            ) && info.path@ == listing_line_path(line@)),
            !valid_listing_line(line@) ==> r is None,
    {
        let toks = split_whitespace(line);
        let ghost ts = split_ws(line@);
        if toks.len() < 8 {
            return None;
        }
        if !str_eq(toks[0].as_str(), "ID") {
            proof {
                reveal_strlit("ID");
                assert("ID"@ =~= seq!['I', 'D']);
            }
            return None;
        }
        proof {
            reveal_strlit("ID");
            assert("ID"@ =~= seq!['I', 'D']);
        }
        let mut q: usize = 0;
        while q < toks.len() && !str_eq(toks[q].as_str(), "path")
            invariant
                0 <= q <= toks@.len(),
                ts == seq_views(toks@),
                forall|j: int| 0 <= j < q ==> #[trigger] ts[j] != seq!['p', 'a', 't', 'h'],
            decreases toks@.len() - q,
        {
            proof {
                reveal_strlit("path");
                assert("path"@ =~= seq!['p', 'a', 't', 'h']);
            }
            q = q + 1;
        }
        proof {
            reveal_strlit("path");
            assert("path"@ =~= seq!['p', 'a', 't', 'h']);
            lemma_first_path_token_at(ts, q as int);
        }
        if q >= toks.len() - 1 {
            return None;
        }
        match parse_u64(toks[1].as_str()) {
            Some(id) => {
                let path = join_tokens_from(&toks, q + 1);
                Some(SubvolumeInfo { id, path })
            },
            None => None,
        }
    }

    /// Parses whole subvolume-listing output: exactly the records of
    /// its well-formed lines, in input order.
    pub fn parse_subvolume_listing(&self, output: &str) -> (r: Vec<SubvolumeInfo>)
        ensures
            info_views(r@) == parsed_listing(lines_of(output@)),
    {
        let n: usize = output.unicode_len();
        let mut out: Vec<SubvolumeInfo> = Vec::new();
        if n == 0 {
            proof {
                assert(info_views(out@) =~= parsed_listing(lines_of(output@)));
            }
            return out;
        }
        let limit: usize = if output.get_char(n - 1) == '\n' {
            n - 1
        } else {
            n
        };
        let ghost t = output@.take(limit as int);
        proof {
            if output@.last() == '\n' {
                assert(output@.drop_last() =~= t);
            } else {
                assert(output@ =~= t);
            }
        }
        let mut i: usize = 0;
        proof {
            assert(t.skip(0) =~= t);
        }
        loop
            invariant_except_break
                0 <= i <= limit,
                info_views(out@) + parsed_listing(raw_split_lines(t.skip(i as int)))
                    == parsed_listing(raw_split_lines(t)),
            invariant
                limit <= n,
                n == output@.len(),
                t == output@.take(limit as int),
                lines_of(output@) == raw_split_lines(t),
            ensures
                info_views(out@) == parsed_listing(raw_split_lines(t)),
            decreases limit - i,
        {
            let mut j: usize = i;
            while j < limit && output.get_char(j) != '\n'
                invariant
                    i <= j <= limit,
                    limit <= n,
                    n == output@.len(),
                    t == output@.take(limit as int),
                    forall|m: int| i <= m < j ==> t[m] != '\n',
                decreases limit - j,
            {
                j = j + 1;
            }
            let line = output.substring_char(i, j);
            let ghost seg = t.subrange(i as int, j as int);
            let ghost ls = raw_split_lines(t.skip(i as int));
            proof {
                lemma_raw_split_step(t, i as int, j as int);
                assert(seg =~= output@.subrange(i as int, j as int));
                assert(line@ == seg);
                assert(ls[0] == seg);
            }
            let ghost before = out@;
            match self.parse_subvolume_line(line) {
                Some(info) => {
                    out.push(info);
                    proof {
                        assert(info_views(out@) =~= info_views(before) + seq![
                            (listing_line_id(seg), listing_line_path(seg)),
                        ]);
                    }
                },
                None => {},
            }
            if j == limit {
                proof {
                    assert(ls =~= seq![seg]);
                    assert(ls.drop_first() =~= Seq::<Seq<char>>::empty());
                    assert(parsed_listing(ls) == (if valid_listing_line(seg) {
                        seq![(listing_line_id(seg), listing_line_path(seg))]
                    } else {
                        Seq::<(u64, Seq<char>)>::empty()
                    }) + parsed_listing(ls.drop_first()));
                    assert(info_views(out@) =~= info_views(before) + parsed_listing(ls));
                    assert(info_views(out@) =~= parsed_listing(raw_split_lines(t)));
                }
                break ;
            }
            proof {
                assert(ls.drop_first() =~= raw_split_lines(t.skip(j + 1)));
                assert(parsed_listing(ls) == (if valid_listing_line(seg) {
                    seq![(listing_line_id(seg), listing_line_path(seg))]
                } else {
                    Seq::<(u64, Seq<char>)>::empty()
                }) + parsed_listing(ls.drop_first()));
                assert(info_views(out@) + parsed_listing(raw_split_lines(t.skip(j + 1)))
                    =~= parsed_listing(raw_split_lines(t)));
            }
            i = j + 1;
        }
        out
    }
}

} // verus!
