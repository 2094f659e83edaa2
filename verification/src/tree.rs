//! The logger resolution tree: a trie keyed by module-path segments.
//!
//! `add_node_lookup` walks the trie with case-sensitive segment keys,
//! creating nodes as needed; `find_logger` walks it case-insensitively and
//! returns, in order, the root loggers, the loggers of the deepest node
//! matched, and the always-execute loggers of every node passed on the way
//! down, appended outward as the recursion unwinds.

use crate::logger::{loggers_v, Logger};
use crate::strutil::{lemma_split_len, seg_eq_ci, split_spec};
use crate::{eq_ignore_case, split_delim};
use vstd::prelude::*;

verus! {

/// The resolution tree: the dedicated root loggers and the children of the
/// root node.
pub struct LoggerTree {
    /// Loggers with no module; part of every non-empty resolution result,
    /// always first.
    pub loggers: Vec<Logger>,
    /// The subtrees of the root node, one per first path segment.
    pub children: Vec<TreeNode>,
}

/// One segment of a module path: the loggers registered exactly here and
/// the children keyed by the next segment.
pub struct TreeNode {
    /// The path segment this node is keyed by (case-sensitive).
    pub module: String,
    /// The loggers registered exactly at this node, in insertion order.
    pub loggers: Vec<Logger>,
    /// The child nodes, in creation order.
    pub children: Vec<TreeNode>,
}

/// The segments of a path, each as its character sequence.
pub open spec fn seg_views(p: Seq<String>) -> Seq<Seq<char>> {
    p.map_values(|s: String| s@)
}

/// A module path split on `::`.
pub open spec fn path_segments(s: Seq<char>) -> Seq<Seq<char>> {
    split_spec(s, seq![':', ':'])
}

/// The always-execute loggers of `ls`, in order.
pub open spec fn always_of(ls: Seq<Logger>) -> Seq<Logger>
    decreases ls.len(),
{
    if ls.len() == 0 {
        Seq::empty()
    } else {
        always_of(ls.drop_last()) + if ls.last().always_execute {
            seq![ls.last()]
        } else {
            Seq::empty()
        }
    }
}

/// The index of the first child whose key equals `seg` up to ASCII case,
/// or -1 when none does: the child `find_logger` descends into.
pub open spec fn ci_match_index(children: Seq<TreeNode>, seg: Seq<char>) -> int
    decreases children.len(),
{
    if children.len() == 0 {
        -1
    } else if seg_eq_ci(children[0].module@, seg) {
        0
    } else {
        let r = ci_match_index(children.skip(1), seg);
        if r < 0 {
            -1
        } else {
            r + 1
        }
    }
}

/// The index of the first child whose key equals `seg` exactly, or -1:
/// the child `add_node_lookup` descends into.
pub open spec fn exact_match_index(children: Seq<TreeNode>, seg: Seq<char>) -> int
    decreases children.len(),
{
    if children.len() == 0 {
        -1
    } else if children[0].module@ == seg {
        0
    } else {
        let r = exact_match_index(children.skip(1), seg);
        if r < 0 {
            -1
        } else {
            r + 1
        }
    }
}

/// What resolving `path` below `n` returns: with the path consumed, or no
/// child matching its next segment, the node's own loggers; otherwise the
/// deeper result followed by this node's always-execute loggers.
pub open spec fn node_resolve(n: TreeNode, path: Seq<Seq<char>>) -> Seq<Logger>
    decreases path.len(),
{
    if path.len() == 0 {
        n.loggers@
    } else {
        let k = ci_match_index(n.children@, path[0]);
        if k >= 0 {
            node_resolve(n.children@[k], path.skip(1)) + always_of(n.loggers@)
        } else {
            n.loggers@
        }
    }
}

/// What resolving `segs` on the whole tree returns: the root loggers
/// first, then the result of the descent from the root node, whose own
/// segment-logger set is empty.
pub open spec fn tree_resolve(t: LoggerTree, segs: Seq<Seq<char>>) -> Seq<Logger>
    recommends
        segs.len() >= 1,
{
    let k = ci_match_index(t.children@, segs[0]);
    t.loggers@ + if k >= 0 {
        node_resolve(t.children@[k], segs.skip(1))
    } else {
        Seq::empty()
    }
}

/// Relates a fresh branch for the remaining `path` to the node built for
/// it: a chain of new nodes keyed by the segments, with the inserted
/// logger alone at the end.
pub open spec fn fresh_branch_rel(path: Seq<Seq<char>>, l: Logger, n: TreeNode) -> bool
    decreases path.len(),
{
    path.len() >= 1 && n.module@ == path[0] && if path.len() == 1 {
        n.loggers@ == seq![l] && n.children@.len() == 0
    } else {
        n.loggers@.len() == 0 && n.children@.len() == 1 && fresh_branch_rel(
            path.skip(1),
            l,
            n.children@[0],
        )
    }
}

/// Relates a child list before an insertion under `path` to the child list
/// after it: the child keyed exactly by the first segment is descended
/// into, or a fresh branch is appended, and all other children are kept.
pub open spec fn children_insert_rel(
    oc: Seq<TreeNode>,
    path: Seq<Seq<char>>,
    l: Logger,
    nc: Seq<TreeNode>,
) -> bool
    recommends
        path.len() >= 1,
    decreases path.len(), 0int,
{
    if path.len() == 0 {
        nc == oc
    } else {
        let k = exact_match_index(oc, path[0]);
        if k >= 0 {
        &&& nc.len() == oc.len()
        &&& (forall|j: int| 0 <= j < oc.len() && j != k ==> nc[j] == oc[j])
            &&& node_insert_rel(oc[k], path.skip(1), l, nc[k])
        } else {
            &&& nc.len() == oc.len() + 1
            &&& (forall|j: int| 0 <= j < oc.len() ==> nc[j] == oc[j])
            &&& fresh_branch_rel(path, l, nc[oc.len() as int])
        }
    }
}

/// Relates a node before inserting `l` under `path` to the node after it:
/// with the path consumed the logger is appended here, otherwise the
/// insertion continues among the children and all else is kept.
pub open spec fn node_insert_rel(
    o: TreeNode,
    path: Seq<Seq<char>>,
    l: Logger,
    n: TreeNode,
) -> bool
    decreases path.len(), 1int,
{
    if path.len() == 0 {
        n.module == o.module && n.children == o.children && n.loggers@ == o.loggers@.push(l)
    } else {
        n.module == o.module && n.loggers == o.loggers && children_insert_rel(
            o.children@,
            path,
            l,
            n.children@,
        )
    }
}

/// Relates the tree before inserting `l` under `segs` to the tree after:
/// the root loggers are kept and the insertion happens among the root
/// node's children.
pub open spec fn tree_insert_rel(
    o: LoggerTree,
    segs: Seq<Seq<char>>,
    l: Logger,
    n: LoggerTree,
) -> bool
    recommends
        segs.len() >= 1,
{
    n.loggers == o.loggers && children_insert_rel(o.children@, segs, l, n.children@)
}

/// One construction step: a logger with a module is inserted under its
/// path; one without is appended to the root-logger set.
pub open spec fn insert_step_rel(o: LoggerTree, l: Logger, n: LoggerTree) -> bool {
    match l.module {
        Some(p) => tree_insert_rel(o, path_segments(p@), l, n),
        None => n.children == o.children && n.loggers@ == o.loggers@.push(l),
    }
}

/// Relates the inputs of construction to the finished tree: starting from
/// the given root loggers and no children, the loggers of `ls` were
/// inserted one by one, in order.
pub open spec fn built_rel(root: Seq<Logger>, ls: Seq<Logger>, t: LoggerTree) -> bool
    decreases ls.len(),
{
    if ls.len() == 0 {
        t.loggers@ == root && t.children@.len() == 0
    } else {
        exists|mid: LoggerTree|
            built_rel(root, ls.drop_last(), mid) && #[trigger] insert_step_rel(mid, ls.last(), t)
    }
}

proof fn lemma_ci_index_props(children: Seq<TreeNode>, seg: Seq<char>)
    ensures
        -1 <= ci_match_index(children, seg) < children.len(),
        ci_match_index(children, seg) >= 0 ==> seg_eq_ci(
            children[ci_match_index(children, seg)].module@,
            seg,
        ),
        forall|j: int|
            0 <= j < children.len() && seg_eq_ci(#[trigger] children[j].module@, seg) ==> 0
                <= ci_match_index(children, seg) <= j,
    decreases children.len(),
{
    if children.len() > 0 && !seg_eq_ci(children[0].module@, seg) {
        lemma_ci_index_props(children.skip(1), seg);
        if ci_match_index(children.skip(1), seg) >= 0 {
            assert(children.skip(1)[ci_match_index(children.skip(1), seg)] == children[
                ci_match_index(children, seg)]);
        }
        assert forall|j: int|
            0 <= j < children.len() && seg_eq_ci(#[trigger] children[j].module@, seg) implies 0
            <= ci_match_index(children, seg) <= j by {
            if j > 0 {
                assert(children.skip(1)[j - 1] == children[j]);
            }
        }
    }
}

proof fn lemma_exact_index_props(children: Seq<TreeNode>, seg: Seq<char>)
    ensures
        -1 <= exact_match_index(children, seg) < children.len(),
        exact_match_index(children, seg) >= 0 ==> children[exact_match_index(
            children,
            seg,
        )].module@ == seg,
        forall|j: int|
            0 <= j < children.len() && #[trigger] children[j].module@ == seg ==> 0
                <= exact_match_index(children, seg) <= j,
    decreases children.len(),
{
    if children.len() > 0 && children[0].module@ != seg {
        lemma_exact_index_props(children.skip(1), seg);
        if exact_match_index(children.skip(1), seg) >= 0 {
            assert(children.skip(1)[exact_match_index(children.skip(1), seg)] == children[
                exact_match_index(children, seg)]);
        }
        assert forall|j: int|
            0 <= j < children.len() && #[trigger] children[j].module@ == seg implies 0
            <= exact_match_index(children, seg) <= j by {
            if j > 0 {
                assert(children.skip(1)[j - 1] == children[j]);
            }
        }
    }
}

/// A fresh node filled along the remaining segments is a fresh branch for
/// the whole segment list.
proof fn lemma_fresh_branch(fresh: TreeNode, full: Seq<Seq<char>>, l: Logger, n: TreeNode)
    requires
        full.len() >= 1,
        fresh.module@ == full[0],
        fresh.loggers@.len() == 0,
        fresh.children@.len() == 0,
        node_insert_rel(fresh, full.skip(1), l, n),
    ensures
        fresh_branch_rel(full, l, n),
{
    if full.len() == 1 {
        assert(full.skip(1).len() == 0);
        assert(fresh.loggers@ =~= Seq::<Logger>::empty());
        assert(n.loggers@ =~= seq![l]);
    } else {
        assert(full.skip(1).len() >= 1);
        assert(exact_match_index(fresh.children@, full.skip(1)[0]) == -1);
        assert(fresh_branch_rel(full.skip(1), l, n.children@[0]));
    }
}

/// Finds the first child matching `seg` up to ASCII case.
fn find_ci(children: &Vec<TreeNode>, seg: &str) -> (r: Option<usize>)
    ensures
        match r {
            Some(i) => i < children@.len() && i == ci_match_index(children@, seg@),
            None => ci_match_index(children@, seg@) == -1,
        },
{
    let mut i: usize = 0;
    while i < children.len()
        invariant
            i <= children@.len(),
            forall|j: int| 0 <= j < i ==> !seg_eq_ci(#[trigger] children@[j].module@, seg@),
        decreases children@.len() - i,
    {
        if eq_ignore_case(children[i].module.as_str(), seg) {
            proof {
                lemma_ci_index_props(children@, seg@);
            }
            return Some(i);
        }
        i = i + 1;
    }
    proof {
        lemma_ci_index_props(children@, seg@);
    }
    None
}

/// Finds the first child keyed exactly by `seg`.
fn find_exact(children: &Vec<TreeNode>, seg: &String) -> (r: Option<usize>)
    ensures
        match r {
            Some(i) => i < children@.len() && i == exact_match_index(children@, seg@),
            None => exact_match_index(children@, seg@) == -1,
        },
{
    let mut i: usize = 0;
    while i < children.len()
        invariant
            i <= children@.len(),
            forall|j: int| 0 <= j < i ==> #[trigger] children@[j].module@ != seg@,
        decreases children@.len() - i,
    {
        if children[i].module == *seg {
            proof {
                lemma_exact_index_props(children@, seg@);
            }
            return Some(i);
        }
        i = i + 1;
    }
    proof {
        lemma_exact_index_props(children@, seg@);
    }
    None
}

/// Clones every logger of `v`, in order.
fn clone_loggers(v: &Vec<Logger>) -> (r: Vec<Logger>)
    ensures
        loggers_v(r@) == loggers_v(v@),
{
    let mut r: Vec<Logger> = Vec::new();
    let mut j: usize = 0;
    while j < v.len()
        invariant
            j <= v@.len(),
            loggers_v(r@) == loggers_v(v@.subrange(0, j as int)),
        decreases v@.len() - j,
    {
        let l = v[j].clone();
        proof {
            assert((r@.push(l)).map_values(|x: Logger| x@) =~= r@.map_values(
                |x: Logger| x@,
            ).push(l@));
            assert(v@.subrange(0, j as int).map_values(|x: Logger| x@).push(v@[j as int]@)
                =~= v@.subrange(0, j + 1).map_values(|x: Logger| x@));
        }
        r.push(l);
        j = j + 1;
    }
    proof {
        assert(v@.subrange(0, v@.len() as int) =~= v@);
    }
    r
}

/// Appends clones of the always-execute loggers of `src` to `dst`, in
/// order.
fn append_always(dst: &mut Vec<Logger>, src: &Vec<Logger>)
    ensures
        loggers_v(final(dst)@) == loggers_v(old(dst)@) + loggers_v(always_of(src@)),
{
    let mut j: usize = 0;
    proof {
        assert(src@.subrange(0, 0) =~= Seq::<Logger>::empty());
        assert(loggers_v(dst@) + loggers_v(always_of(src@.subrange(0, 0))) =~= loggers_v(dst@));
    }
    while j < src.len()
        invariant
            j <= src@.len(),
            loggers_v(dst@) == loggers_v(old(dst)@) + loggers_v(
                always_of(src@.subrange(0, j as int)),
            ),
        decreases src@.len() - j,
    {
        proof {
            assert(src@.subrange(0, j + 1).drop_last() =~= src@.subrange(0, j as int));
            assert(src@.subrange(0, j + 1).last() == src@[j as int]);
        }
        if src[j].always_execute {
            let l = src[j].clone();
            proof {
                let a = always_of(src@.subrange(0, j as int));
                assert(always_of(src@.subrange(0, j + 1)) =~= a.push(src@[j as int]));
                assert((dst@.push(l)).map_values(|x: Logger| x@) =~= dst@.map_values(
                    |x: Logger| x@,
                ).push(l@));
                assert(loggers_v(old(dst)@) + loggers_v(a.push(src@[j as int])) =~= (loggers_v(
                    old(dst)@,
                ) + loggers_v(a)).push(src@[j as int]@));
            }
            dst.push(l);
        } else {
            proof {
                assert(always_of(src@.subrange(0, j + 1)) =~= always_of(
                    src@.subrange(0, j as int),
                ));
            }
        }
        j = j + 1;
    }
    proof {
        assert(src@.subrange(0, src@.len() as int) =~= src@);
    }
}

impl TreeNode {
    /// Resolves the remaining path segments below this node; the result is
    /// never `None`.
    pub fn find_logger(&self, path: Vec<String>) -> (r: Option<Vec<Logger>>)
        ensures
            r is Some,
            r matches Some(v) ==> loggers_v(v@) == loggers_v(
                node_resolve(*self, seg_views(path@)),
            ),
        decreases path@.len(),
    {
        let ghost p0 = path@;
        let mut path = path;
        if path.len() == 0 {
            return Some(clone_loggers(&self.loggers));
        }
        let seg = path.remove(0);
        proof {
            assert(path@ =~= p0.skip(1));
            assert(seg_views(p0).skip(1) =~= seg_views(path@));
            assert(seg_views(p0)[0] == seg@);
        }
        match find_ci(&self.children, seg.as_str()) {
            Some(i) => {
                let child = &self.children[i];
                let deeper = child.find_logger(path);
                match deeper {
                    Some(mut v) => {
                        append_always(&mut v, &self.loggers);
                        proof {
                            assert(loggers_v(node_resolve(*self, seg_views(p0))) =~= loggers_v(
                                node_resolve(self.children@[i as int], seg_views(p0).skip(1)),
                            ) + loggers_v(always_of(self.loggers@)));
                        }
                        Some(v)
                    },
                    None => {
                        assert(false);
                        None
                    },
                }
            },
            None => Some(clone_loggers(&self.loggers)),
        }
    }

    /// Inserts `logger` at the node addressed by the remaining `path`
    /// segments, creating nodes as needed; always returns true.
    pub fn add_node_lookup(&mut self, logger: Logger, path: Vec<String>) -> (r: bool)
        ensures
            r,
            node_insert_rel(*old(self), seg_views(path@), logger, *final(self)),
        decreases path@.len(),
    {
        let ghost p0 = path@;
        let mut path = path;
        if path.len() == 0 {
            self.add_logger(logger);
            return true;
        }
        let seg = path.remove(0);
        proof {
            assert(path@ =~= p0.skip(1));
            assert(seg_views(p0).skip(1) =~= seg_views(path@));
            assert(seg_views(p0)[0] == seg@);
        }
        match find_exact(&self.children, &seg) {
            Some(i) => {
                let mut child = self.children.remove(i);
                let ghost child0 = child;
                child.add_node_lookup(logger, path);
                self.children.insert(i, child);
                proof {
                    assert(self.children@ =~= old(self).children@.update(i as int, child));
                    assert(child0 == old(self).children@[i as int]);
                }
                true
            },
            None => {
                let mut node = TreeNode { module: seg, loggers: Vec::new(), children: Vec::new() };
                let ghost fresh = node;
                node.add_node_lookup(logger, path);
                self.add_child(node);
                proof {
                    lemma_fresh_branch(fresh, seg_views(p0), logger, node);
                }
                true
            },
        }
    }

    /// Appends a logger to this node's own set.
    fn add_logger(&mut self, logger: Logger)
        ensures
            final(self).module == old(self).module,
            final(self).children == old(self).children,
            final(self).loggers@ == old(self).loggers@.push(logger),
    {
        self.loggers.push(logger);
    }

    /// Appends a child node.
    fn add_child(&mut self, node: TreeNode)
        ensures
            final(self).module == old(self).module,
            final(self).loggers == old(self).loggers,
            final(self).children@ == old(self).children@.push(node),
    {
        self.children.push(node);
    }
}

impl LoggerTree {
    /// Builds the tree: `root` becomes the root-logger set, and every
    /// logger of `loggers` is inserted in order, under its module path if
    /// it has one, into the root set otherwise.
    pub fn new(root: Vec<Logger>, loggers: Vec<Logger>) -> (r: LoggerTree)
        ensures
            built_rel(root@, loggers@, r),
    {
        let ghost root0 = root@;
        let ghost orig = loggers@;
        let mut tree = LoggerTree { loggers: root, children: Vec::new() };
        let mut rest = loggers;
        proof {
            assert(orig.subrange(0, 0) =~= Seq::<Logger>::empty());
            assert(orig.subrange(0, orig.len() as int) =~= orig);
        }
        while rest.len() > 0
            invariant
                rest@.len() <= orig.len(),
                orig.subrange(orig.len() - rest@.len(), orig.len() as int) == rest@,
                built_rel(root0, orig.subrange(0, orig.len() - rest@.len()), tree),
            decreases rest@.len(),
        {
            let ghost before = tree;
            let ghost restp = rest@;
            let ghost done = orig.subrange(0, orig.len() - rest@.len());
            let log = rest.remove(0);
            proof {
                assert(rest@ =~= restp.skip(1));
                assert(log == orig[orig.len() - restp.len()]) by {
                    assert(orig.subrange(orig.len() - restp.len(), orig.len() as int)[0] == orig[
                        orig.len() - restp.len()]);
                }
                assert(orig.subrange(orig.len() - rest@.len(), orig.len() as int) =~= orig.subrange(
                    orig.len() - restp.len(),
                    orig.len() as int,
                ).skip(1));
            }
            let module = match &log.module {
                Some(p) => Some(p.clone()),
                None => None,
            };
            match module {
                Some(p) => {
                    tree.add_node_lookup(log, p);
                },
                None => {
                    tree.loggers.push(log);
                },
            }
            proof {
                let done2 = orig.subrange(0, orig.len() - rest@.len());
                assert(done2.drop_last() =~= done);
                assert(done2.last() == orig[orig.len() - restp.len()]);
                assert(insert_step_rel(before, done2.last(), tree));
                assert(built_rel(root0, done2, tree));
            }
        }
        proof {
            assert(orig.subrange(0, orig.len() as int) =~= orig);
        }
        tree
    }

    /// Resolves a `::`-separated module path; `None` only for the empty
    /// path, otherwise the root loggers followed by the walk from the root
    /// node.
    pub fn find_logger(&self, path: &str) -> (r: Option<Vec<Logger>>)
        ensures
            path@.len() == 0 <==> r is None,
            r matches Some(v) ==> loggers_v(v@) == loggers_v(
                tree_resolve(*self, path_segments(path@)),
            ),
    {
        if path.unicode_len() == 0 {
            return None;
        }
        proof {
            reveal_strlit("::");
            assert("::"@ =~= seq![':', ':']);
            lemma_split_len(path@, seq![':', ':'], Seq::empty());
        }
        let mut segs = split_delim(path, "::");
        let ghost s0 = segs@;
        let seg = segs.remove(0);
        proof {
            assert(segs@ =~= s0.skip(1));
            assert(seg_views(s0).skip(1) =~= seg_views(segs@));
            assert(seg_views(s0)[0] == seg@);
            assert(seg_views(s0) == path_segments(path@));
        }
        let mut out = clone_loggers(&self.loggers);
        match find_ci(&self.children, seg.as_str()) {
            Some(i) => {
                let child = &self.children[i];
                let deeper = child.find_logger(segs);
                match deeper {
                    Some(mut v) => {
                        let ghost out0 = out@;
                        out.append(&mut v);
                        proof {
                            assert(loggers_v(out@) =~= loggers_v(out0) + loggers_v(
                                node_resolve(self.children@[i as int], seg_views(s0).skip(1)),
                            ));
                            assert(loggers_v(tree_resolve(*self, path_segments(path@)))
                                =~= loggers_v(self.loggers@) + loggers_v(
                                node_resolve(self.children@[i as int], seg_views(s0).skip(1)),
                            ));
                        }
                        Some(out)
                    },
                    None => {
                        assert(false);
                        None
                    },
                }
            },
            None => {
                proof {
                    assert(loggers_v(tree_resolve(*self, path_segments(path@))) =~= loggers_v(
                        self.loggers@,
                    ));
                }
                Some(out)
            },
        }
    }

    /// Inserts `logger` under the `::`-separated `path`, creating nodes as
    /// needed.
    pub fn add_node_lookup(&mut self, logger: Logger, path: String)
        ensures
            tree_insert_rel(*old(self), path_segments(path@), logger, *final(self)),
    {
        proof {
            reveal_strlit("::");
            assert("::"@ =~= seq![':', ':']);
            lemma_split_len(path@, seq![':', ':'], Seq::empty());
        }
        let mut segs = split_delim(path.as_str(), "::");
        let ghost s0 = segs@;
        let seg = segs.remove(0);
        proof {
            assert(segs@ =~= s0.skip(1));
            assert(seg_views(s0).skip(1) =~= seg_views(segs@));
            assert(seg_views(s0)[0] == seg@);
            assert(seg_views(s0) == path_segments(path@));
        }
        match find_exact(&self.children, &seg) {
            Some(i) => {
                let mut child = self.children.remove(i);
                let ghost child0 = child;
                child.add_node_lookup(logger, segs);
                self.children.insert(i, child);
                proof {
                    assert(self.children@ =~= old(self).children@.update(i as int, child));
                    assert(child0 == old(self).children@[i as int]);
                }
            },
            None => {
                let mut node = TreeNode { module: seg, loggers: Vec::new(), children: Vec::new() };
                let ghost fresh = node;
                node.add_node_lookup(logger, segs);
                self.add_child(node);
                proof {
                    lemma_fresh_branch(fresh, seg_views(s0), logger, node);
                }
            },
        }
    }

    /// Appends a child to the root node.
    fn add_child(&mut self, node: TreeNode)
        ensures
            final(self).loggers == old(self).loggers,
            final(self).children@ == old(self).children@.push(node),
    {
        self.children.push(node);
    }
}


/// How many leading segments of `path` match a chain of children below
/// `n`, case-insensitively: the depth at which resolution stops.
pub open spec fn matched_depth(n: TreeNode, path: Seq<Seq<char>>) -> nat
    decreases path.len(),
{
    if path.len() == 0 {
        0
    } else {
        let k = ci_match_index(n.children@, path[0]);
        if k >= 0 {
            1 + matched_depth(n.children@[k], path.skip(1))
        } else {
            0
        }
    }
}

/// The node reached from `n` after matching the first `j` segments of
/// `path` case-insensitively.
pub open spec fn node_along(n: TreeNode, path: Seq<Seq<char>>, j: nat) -> TreeNode
    recommends
        j <= matched_depth(n, path),
    decreases j,
{
    if j == 0 {
        n
    } else if path.len() > 0 && ci_match_index(n.children@, path[0]) >= 0 {
        node_along(n.children@[ci_match_index(n.children@, path[0])], path.skip(1), (j - 1) as nat)
    } else {
        n
    }
}

/// The always-execute loggers gathered while unwinding a resolution of
/// `path` below `n`: those of every strict ancestor of the stopping node,
/// deepest ancestor first.
pub open spec fn always_tail(n: TreeNode, path: Seq<Seq<char>>) -> Seq<Logger>
    decreases path.len(),
{
    if path.len() == 0 {
        Seq::empty()
    } else {
        let k = ci_match_index(n.children@, path[0]);
        if k >= 0 {
            always_tail(n.children@[k], path.skip(1)) + always_of(n.loggers@)
        } else {
            Seq::empty()
        }
    }
}

/// The loggers at the node addressed by `path` with exact segment keys,
/// or the empty sequence when no such node exists.
pub open spec fn exact_loggers(n: TreeNode, path: Seq<Seq<char>>) -> Seq<Logger>
    decreases path.len(),
{
    if path.len() == 0 {
        n.loggers@
    } else {
        let k = exact_match_index(n.children@, path[0]);
        if k >= 0 {
            exact_loggers(n.children@[k], path.skip(1))
        } else {
            Seq::empty()
        }
    }
}

/// Resolution in closed form: whatever the path, the result is the loggers
/// of the deepest node reached along the path's matching prefix, followed
/// by the always-execute loggers of that node's strict ancestors, deepest
/// first. For a path with no exact node, this is the fallback to the
/// deepest matching ancestor; the stopping node's own loggers appear once,
/// as a block, and its own always-execute loggers are not appended again.
pub proof fn lemma_resolve_closed_form(n: TreeNode, path: Seq<Seq<char>>)
    ensures
        node_resolve(n, path) == node_along(n, path, matched_depth(n, path)).loggers@
            + always_tail(n, path),
    decreases path.len(),
{
    if path.len() == 0 {
        assert(node_resolve(n, path) =~= n.loggers@ + Seq::<Logger>::empty());
    } else {
        let k = ci_match_index(n.children@, path[0]);
        if k >= 0 {
            let c = n.children@[k];
            lemma_resolve_closed_form(c, path.skip(1));
            assert((node_along(c, path.skip(1), matched_depth(c, path.skip(1))).loggers@
                + always_tail(c, path.skip(1))) + always_of(n.loggers@) =~= node_along(
                c,
                path.skip(1),
                matched_depth(c, path.skip(1)),
            ).loggers@ + (always_tail(c, path.skip(1)) + always_of(n.loggers@)));
        } else {
            assert(node_resolve(n, path) =~= n.loggers@ + Seq::<Logger>::empty());
        }
    }
}

/// In every non-empty resolution result the root loggers stand first,
/// exactly the root set, in its own order; the rest is the walk below the
/// root node.
pub proof fn lemma_root_loggers_first(t: LoggerTree, segs: Seq<Seq<char>>)
    requires
        segs.len() >= 1,
    ensures
        tree_resolve(t, segs).len() >= t.loggers@.len(),
        tree_resolve(t, segs).subrange(0, t.loggers@.len() as int) == t.loggers@,
{
    let r = tree_resolve(t, segs);
    assert(r.subrange(0, t.loggers@.len() as int) =~= t.loggers@);
}

proof fn lemma_always_of_contains(ls: Seq<Logger>, l: Logger)
    requires
        ls.contains(l),
        l.always_execute,
    ensures
        always_of(ls).contains(l),
    decreases ls.len(),
{
    if ls.len() > 0 {
        if ls.last() == l {
            assert(always_of(ls)[always_of(ls).len() - 1] == l);
        } else {
            assert(ls.drop_last().contains(l)) by {
                let i = choose|i: int| 0 <= i < ls.len() && ls[i] == l;
                assert(ls.drop_last()[i] == l);
            }
            lemma_always_of_contains(ls.drop_last(), l);
            let i = choose|i: int| 0 <= i < always_of(ls.drop_last()).len() && always_of(
                ls.drop_last(),
            )[i] == l;
            assert(always_of(ls)[i] == l);
        }
    }
}

/// An always-execute logger registered at a node on the matching chain,
/// strictly above where resolution stops, appears in the resolution
/// result.
pub proof fn lemma_always_execute_applies(n: TreeNode, path: Seq<Seq<char>>, j: nat, l: Logger)
    requires
        j < matched_depth(n, path),
        node_along(n, path, j).loggers@.contains(l),
        l.always_execute,
    ensures
        node_resolve(n, path).contains(l),
    decreases j,
{
    let k = ci_match_index(n.children@, path[0]);
    let c = n.children@[k];
    if j == 0 {
        lemma_always_of_contains(n.loggers@, l);
        let i = choose|i: int| 0 <= i < always_of(n.loggers@).len() && always_of(n.loggers@)[i]
            == l;
        assert(node_resolve(n, path)[node_resolve(c, path.skip(1)).len() + i] == l);
    } else {
        lemma_always_execute_applies(c, path.skip(1), (j - 1) as nat, l);
        let i = choose|i: int| 0 <= i < node_resolve(c, path.skip(1)).len() && node_resolve(
            c,
            path.skip(1),
        )[i] == l;
        assert(node_resolve(n, path)[i] == l);
    }
}

proof fn lemma_exact_index_same_keys(oc: Seq<TreeNode>, nc: Seq<TreeNode>, seg: Seq<char>)
    requires
        nc.len() == oc.len(),
        forall|j: int| 0 <= j < oc.len() ==> #[trigger] nc[j].module@ == oc[j].module@,
    ensures
        exact_match_index(nc, seg) == exact_match_index(oc, seg),
    decreases oc.len(),
{
    if oc.len() > 0 {
        assert(nc[0].module@ == oc[0].module@);
        lemma_exact_index_same_keys(oc.skip(1), nc.skip(1), seg);
    }
}

proof fn lemma_fresh_exact(path: Seq<Seq<char>>, l: Logger, n: TreeNode)
    requires
        fresh_branch_rel(path, l, n),
    ensures
        exact_loggers(n, path.skip(1)) == seq![l],
    decreases path.len(),
{
    if path.len() == 1 {
        assert(path.skip(1).len() == 0);
    } else {
        let c = n.children@[0];
        lemma_fresh_exact(path.skip(1), l, c);
        assert(exact_match_index(n.children@, path.skip(1)[0]) == 0) by {
            assert(n.children@[0].module@ == path.skip(1)[0]);
        }
        assert(path.skip(1).skip(1) =~= path.skip(2));
        assert(exact_loggers(n, path.skip(1)) == exact_loggers(c, path.skip(1).skip(1)));
    }
}

proof fn lemma_insert_keeps_module(o: TreeNode, path: Seq<Seq<char>>, l: Logger, n: TreeNode)
    requires
        node_insert_rel(o, path, l, n),
    ensures
        n.module == o.module,
{
}

/// Insertion appends: after inserting `l` under `path`, the loggers of the
/// node addressed exactly by `path` are the old ones with `l` at the end,
/// so insertion order among loggers of one node is preserved.
pub proof fn lemma_insert_appends_in_order(
    o: TreeNode,
    path: Seq<Seq<char>>,
    l: Logger,
    n: TreeNode,
)
    requires
        node_insert_rel(o, path, l, n),
    ensures
        exact_loggers(n, path) == exact_loggers(o, path).push(l),
    decreases path.len(),
{
    if path.len() == 0 {
    } else {
        let k = exact_match_index(o.children@, path[0]);
        if k >= 0 {
            lemma_exact_index_props(o.children@, path[0]);
            lemma_insert_keeps_module(o.children@[k], path.skip(1), l, n.children@[k]);
            assert(forall|j: int|
                0 <= j < o.children@.len() ==> #[trigger] n.children@[j].module@
                    == o.children@[j].module@) by {
                assert(forall|j: int|
                    0 <= j < o.children@.len() && j != k ==> #[trigger] n.children@[j]
                        == o.children@[j]);
            }
            lemma_exact_index_same_keys(o.children@, n.children@, path[0]);
            lemma_insert_appends_in_order(o.children@[k], path.skip(1), l, n.children@[k]);
        } else {
            lemma_exact_index_props(o.children@, path[0]);
            lemma_exact_index_props(n.children@, path[0]);
            let f = n.children@[o.children@.len() as int];
            assert(f.module@ == path[0]);
            assert(exact_match_index(n.children@, path[0]) == o.children@.len()) by {
                let k2 = exact_match_index(n.children@, path[0]);
                assert(0 <= k2 <= o.children@.len());
                if k2 < o.children@.len() {
                    assert(n.children@[k2] == o.children@[k2]);
                    assert(o.children@[k2].module@ == path[0]);
                }
            }
            lemma_fresh_exact(path, l, f);
            assert(exact_loggers(o, path) =~= Seq::<Logger>::empty());
            assert(Seq::<Logger>::empty().push(l) =~= seq![l]);
        }
    }
}

/// Insertion keys are case-sensitive: when no child is keyed exactly by
/// the first segment, a new child is created, even if a child differing
/// only in case exists.
pub proof fn lemma_insert_creates_new_child(
    o: TreeNode,
    path: Seq<Seq<char>>,
    l: Logger,
    n: TreeNode,
)
    requires
        node_insert_rel(o, path, l, n),
        path.len() >= 1,
        exact_match_index(o.children@, path[0]) == -1,
    ensures
        n.children@.len() == o.children@.len() + 1,
        n.children@[o.children@.len() as int].module@ == path[0],
{
}

proof fn lemma_ci_index_ci_equal(children: Seq<TreeNode>, a: Seq<char>, b: Seq<char>)
    requires
        seg_eq_ci(a, b),
    ensures
        ci_match_index(children, a) == ci_match_index(children, b),
    decreases children.len(),
{
    if children.len() > 0 {
        assert(seg_eq_ci(children[0].module@, a) == seg_eq_ci(children[0].module@, b));
        lemma_ci_index_ci_equal(children.skip(1), a, b);
    }
}

/// Lookup is ASCII-case-insensitive: two paths whose segments agree up to
/// ASCII case resolve to the same loggers.
pub proof fn lemma_resolve_case_insensitive(n: TreeNode, p: Seq<Seq<char>>, q: Seq<Seq<char>>)
    requires
        p.len() == q.len(),
        forall|i: int| 0 <= i < p.len() ==> seg_eq_ci(#[trigger] p[i], q[i]),
    ensures
        node_resolve(n, p) == node_resolve(n, q),
    decreases p.len(),
{
    if p.len() > 0 {
        assert(seg_eq_ci(p[0], q[0]));
        lemma_ci_index_ci_equal(n.children@, p[0], q[0]);
        let k = ci_match_index(n.children@, p[0]);
        if k >= 0 {
            lemma_ci_index_props(n.children@, p[0]);
            assert(forall|i: int|
                0 <= i < p.skip(1).len() ==> seg_eq_ci(#[trigger] p.skip(1)[i], q.skip(1)[i]));
            lemma_resolve_case_insensitive(n.children@[k], p.skip(1), q.skip(1));
        }
    }
}

/// Lookup is ASCII-case-insensitive at the tree level too: the whole
/// resolution result is the same for two case-equal paths.
pub proof fn lemma_tree_resolve_case_insensitive(
    t: LoggerTree,
    p: Seq<Seq<char>>,
    q: Seq<Seq<char>>,
)
    requires
        p.len() == q.len(),
        p.len() >= 1,
        forall|i: int| 0 <= i < p.len() ==> seg_eq_ci(#[trigger] p[i], q[i]),
    ensures
        tree_resolve(t, p) == tree_resolve(t, q),
{
    assert(seg_eq_ci(p[0], q[0]));
    lemma_ci_index_ci_equal(t.children@, p[0], q[0]);
    let k = ci_match_index(t.children@, p[0]);
    if k >= 0 {
        assert(forall|i: int|
            0 <= i < p.skip(1).len() ==> seg_eq_ci(#[trigger] p.skip(1)[i], q.skip(1)[i]));
        lemma_resolve_case_insensitive(t.children@[k], p.skip(1), q.skip(1));
    }
}

} // verus!
