//! Walking a remote directory tree.
//!
//! The remote store lists one directory at a time, a page per call, so the
//! walker is an explicit worklist rather than recursion: it keeps the
//! subdirectories still to be listed and the page currently being drained,
//! yields entries one by one, asks its driver for a listing whenever the
//! page runs out, and finishes only when no page and no pending
//! subdirectory remains. Every walk is finite and not restartable — a
//! second pass takes a fresh walker.
//!
//! A walked tree is modelled by [`TreeNode`]; [`walk_tree`] computes the
//! walk of a modelled tree directly and is what the stated guarantees about
//! full walks are proved of.

use crate::files::HdfsFile;
use crate::modelfs::ModelEntry;
use crate::paths::join_of;
use crate::paths::join_path;
use vstd::prelude::*;

verus! {

/// What a walker asks of its driver next: consume an entry, fetch the
/// listing of a directory, or stop — the walk is exhausted.
pub enum WalkStep {
    Yield(HdfsFile),
    NeedListing(String),
    Done,
}

/// The worklist state of one walk: directories whose listings are still
/// owed, the page being drained, and the listing request in flight, if any.
pub struct DirectoryTreeWalker {
    pub recursive: bool,
    pub pending: Vec<String>,
    pub page: Vec<HdfsFile>,
    pub awaiting: Option<String>,
}

/// The paths of a list of directories.
pub open spec fn path_views(v: Seq<String>) -> Seq<Seq<char>> {
    v.map_values(|s: String| s@)
}

impl DirectoryTreeWalker {
    /// A fresh walk rooted at a path: the root is owed a listing, nothing
    /// has been yielded.
    pub fn new(root: &str, recursive: bool) -> (r: DirectoryTreeWalker)
        ensures
            r.recursive == recursive,
            path_views(r.pending@) == seq![root@],
            r.page@.len() == 0,
            r.awaiting is None,
    {
        let mut pending: Vec<String> = Vec::new();
        pending.push(root.to_owned());
        proof {
            assert(path_views(pending@) =~= seq![root@]);
        }
        DirectoryTreeWalker { recursive, pending, page: Vec::new(), awaiting: None }
    }

    /// Advance the walk one step. While the page holds entries, the next
    /// entry is yielded — and, on a recursive walk, a yielded directory is
    /// queued for listing. With the page drained, the most recently queued
    /// directory is requested; the walk is done exactly when neither a page
    /// entry nor a pending directory remains.
    pub fn poll(&mut self) -> (r: WalkStep)
        requires
            old(self).awaiting is None,
        ensures
            final(self).recursive == old(self).recursive,
            (r matches WalkStep::Yield(e) ==> {
                &&& old(self).page@.len() > 0
                &&& e == old(self).page@[0]
                &&& final(self).page@ == old(self).page@.skip(1)
                &&& final(self).awaiting is None
                &&& (if old(self).recursive && e.isdir {
                    path_views(final(self).pending@) == path_views(old(self).pending@).push(e.path@)
                } else {
                    final(self).pending@ == old(self).pending@
                })
            }),
            (r matches WalkStep::NeedListing(d) ==> {
                &&& old(self).page@.len() == 0
                &&& old(self).pending@.len() > 0
                &&& d@ == old(self).pending@.last()@
                &&& final(self).pending@ == old(self).pending@.drop_last()
                &&& final(self).page@ == old(self).page@
                &&& final(self).awaiting matches Some(a) && a@ == d@
            }),
            (r is Done ==> {
                &&& old(self).page@.len() == 0
                &&& old(self).pending@.len() == 0
                &&& *final(self) == *old(self)
            }),
    {
        if self.page.len() > 0 {
            let e = self.page.remove(0);
            if self.recursive && e.isdir {
                let ghost before = path_views(self.pending@);
                self.pending.push(e.path.clone());
                proof {
                    assert(path_views(self.pending@) =~= before.push(e.path@));
                }
            }
            return WalkStep::Yield(e);
        }
        if self.pending.len() > 0 {
            let d = match self.pending.pop() {
                Some(d) => d,
                None => {
                    proof {
                        assert(false);
                    }
                    String::new()
                },
            };
            self.awaiting = Some(d.clone());
            return WalkStep::NeedListing(d);
        }
        WalkStep::Done
    }

    /// Hand the walker the listing it asked for; the new page will be
    /// drained front to back.
    pub fn supply(&mut self, entries: Vec<HdfsFile>)
        requires
            old(self).awaiting is Some,
        ensures
            final(self).page@ == entries@,
            final(self).awaiting is None,
            final(self).pending@ == old(self).pending@,
            final(self).recursive == old(self).recursive,
    {
        self.page = entries;
        self.awaiting = None;
    }
}

/// A modelled directory tree: a named node that is either a file with
/// content or a directory with children.
pub struct TreeNode {
    pub name: String,
    pub isdir: bool,
    pub content: Vec<u8>,
    pub children: Vec<TreeNode>,
}

/// A well-formed forest of siblings: names are nonempty, free of
/// separators and pairwise distinct, files carry no children, and every
/// subtree is again well-formed.
pub open spec fn wf_forest(cs: Seq<TreeNode>) -> bool
    decreases cs,
{
    &&& forall|i: int, j: int| 0 <= i < j < cs.len() ==> cs[i].name@ != cs[j].name@
    &&& forall|i: int|
        0 <= i < cs.len() ==> {
            &&& (#[trigger] cs[i]).name@.len() > 0
            &&& !cs[i].name@.contains('/')
            &&& (!cs[i].isdir ==> cs[i].children@.len() == 0)
            &&& wf_forest(cs[i].children@)
        }
}

/// The entries a recursive walk of one node yields: the node itself, then —
/// for a directory — its subtree, each path formed by joining the parent
/// path and the node's name.
pub open spec fn walk_node(n: TreeNode, base: Seq<char>) -> Seq<(Seq<char>, bool, Seq<u8>)>
    decreases n,
{
    let p = join_of(base, n.name@);
    seq![(p, n.isdir, n.content@)] + if n.isdir {
        walk_forest(n.children@, p)
    } else {
        Seq::empty()
    }
}

/// The entries a recursive walk of a forest of siblings yields, in order.
pub open spec fn walk_forest(cs: Seq<TreeNode>, base: Seq<char>) -> Seq<(Seq<char>, bool, Seq<u8>)>
    decreases cs,
{
    if cs.len() == 0 {
        Seq::empty()
    } else {
        walk_node(cs[0], base) + walk_forest(cs.skip(1), base)
    }
}

/// How many nodes a forest holds, subtrees included: its files plus its
/// directories.
pub open spec fn count_nodes(cs: Seq<TreeNode>) -> nat
    decreases cs,
{
    if cs.len() == 0 {
        0
    } else {
        1 + (if cs[0].isdir {
            count_nodes(cs[0].children@)
        } else {
            0
        }) + count_nodes(cs.skip(1))
    }
}

/// A recursive walk over a tree with `N` files and `M` directories yields
/// exactly `N + M` entries.
pub proof fn lemma_walk_count(cs: Seq<TreeNode>, base: Seq<char>)
    ensures
        walk_forest(cs, base).len() == count_nodes(cs),
    decreases cs,
{
    if cs.len() > 0 {
        let p = join_of(base, cs[0].name@);
        assert(walk_forest(cs, base) == walk_node(cs[0], base) + walk_forest(cs.skip(1), base));
        if cs[0].isdir {
            lemma_walk_count(cs[0].children@, p);
            assert(walk_node(cs[0], base).len() == 1 + count_nodes(cs[0].children@));
        } else {
            assert(walk_node(cs[0], base).len() == 1);
        }
        lemma_walk_count(cs.skip(1), base);
    }
}

/// Whether a walked path lies under the child called `name`: it is that
/// child's own path, or lies strictly below it.
pub open spec fn entry_under(e: Seq<char>, base: Seq<char>, name: Seq<char>) -> bool {
    e == join_of(base, name) || (join_of(base, name) + seq!['/']).is_prefix_of(e)
}

/// In a well-formed forest, every walked path strictly extends the base
/// path by a separator.
pub proof fn lemma_walk_prefix(cs: Seq<TreeNode>, base: Seq<char>)
    requires
        wf_forest(cs),
    ensures
        forall|k: int|
            0 <= k < walk_forest(cs, base).len() ==> (base + seq!['/']).is_prefix_of(
                #[trigger] walk_forest(cs, base)[k].0,
            ) && walk_forest(cs, base)[k].0.len() > base.len() + 1,
    decreases cs,
{
    if cs.len() > 0 {
        let p0 = join_of(base, cs[0].name@);
        let head = walk_node(cs[0], base);
        let rest = walk_forest(cs.skip(1), base);
        assert(cs.skip(1)[0] == cs[1] || cs.skip(1).len() == 0);
        lemma_walk_prefix(cs.skip(1), base);
        if cs[0].isdir {
            lemma_walk_prefix(cs[0].children@, p0);
        }
        assert forall|k: int| 0 <= k < walk_forest(cs, base).len() implies (base
            + seq!['/']).is_prefix_of(#[trigger] walk_forest(cs, base)[k].0) && walk_forest(
            cs,
            base,
        )[k].0.len() > base.len() + 1 by {
            let e = walk_forest(cs, base)[k].0;
            if k < head.len() {
                assert(e == head[k].0);
                if k == 0 {
                    assert(e == p0);
                    assert(e =~= (base + seq!['/']) + cs[0].name@);
                    assert((base + seq!['/']).is_prefix_of(e));
                } else {
                    let inner = walk_forest(cs[0].children@, p0);
                    assert(head[k] == inner[k - 1]);
                    assert((p0 + seq!['/']).is_prefix_of(e));
                    assert((base + seq!['/']).is_prefix_of(p0 + seq!['/'])) by {
                        assert((p0 + seq!['/']).subrange(0, base.len() as int + 1) =~= base + seq!['/']);
                    }
                    assert(e.subrange(0, base.len() as int + 1) =~= (p0 + seq!['/']).subrange(
                        0,
                        base.len() as int + 1,
                    ));
                }
            } else {
                assert(walk_forest(cs, base)[k] == rest[k - head.len()]);
            }
        }
    }
}

/// In a well-formed forest, every walked path lies under exactly the child
/// it was walked from.
pub proof fn lemma_walk_forms(cs: Seq<TreeNode>, base: Seq<char>)
    requires
        wf_forest(cs),
    ensures
        forall|k: int|
            0 <= k < walk_forest(cs, base).len() ==> exists|j: int|
                0 <= j < cs.len() && entry_under(
                    #[trigger] walk_forest(cs, base)[k].0,
                    base,
                    cs[j].name@,
                ),
    decreases cs,
{
    if cs.len() > 0 {
        let p0 = join_of(base, cs[0].name@);
        let head = walk_node(cs[0], base);
        let rest = walk_forest(cs.skip(1), base);
        lemma_walk_forms(cs.skip(1), base);
        if cs[0].isdir {
            lemma_walk_prefix(cs[0].children@, p0);
        }
        assert forall|k: int| 0 <= k < walk_forest(cs, base).len() implies exists|j: int|
            0 <= j < cs.len() && entry_under(
                #[trigger] walk_forest(cs, base)[k].0,
                base,
                cs[j].name@,
            ) by {
            let e = walk_forest(cs, base)[k].0;
            if k < head.len() {
                assert(e == head[k].0);
                if k == 0 {
                    assert(entry_under(e, base, cs[0].name@));
                } else {
                    let inner = walk_forest(cs[0].children@, p0);
                    assert(head[k] == inner[k - 1]);
                    assert((p0 + seq!['/']).is_prefix_of(e));
                    assert(entry_under(e, base, cs[0].name@));
                }
                assert(0 <= 0 < cs.len() && entry_under(e, base, cs[0].name@));
            } else {
                assert(walk_forest(cs, base)[k] == rest[k - head.len()]);
                let j0 = choose|j0: int|
                    0 <= j0 < cs.skip(1).len() && entry_under(e, base, cs.skip(1)[j0].name@);
                assert(cs.skip(1)[j0] == cs[j0 + 1]);
                assert(0 <= j0 + 1 < cs.len() && entry_under(e, base, cs[j0 + 1].name@));
            }
        }
    }
}

/// The path segment right after the base determines the child: a walked
/// path lying under two children names the same child both times.
pub proof fn lemma_under_same_child(base: Seq<char>, n1: Seq<char>, n2: Seq<char>, e: Seq<char>)
    requires
        !n1.contains('/'),
        !n2.contains('/'),
        entry_under(e, base, n1),
        entry_under(e, base, n2),
    ensures
        n1 == n2,
{
    let b = base.len() as int + 1;
    let u = e.skip(b as int);
    assert(e.subrange(0, base.len() as int + 1 + n1.len()) =~= (base + seq!['/']) + n1) by {
        if e == join_of(base, n1) {
            assert(e =~= (base + seq!['/']) + n1);
        } else {
            assert((join_of(base, n1) + seq!['/']).is_prefix_of(e));
            assert(e.subrange(0, base.len() as int + 1 + n1.len() as int + 1) =~= (join_of(base, n1)
                + seq!['/']));
        }
    }
    assert(e.subrange(0, base.len() as int + 1 + n2.len()) =~= (base + seq!['/']) + n2) by {
        if e == join_of(base, n2) {
            assert(e =~= (base + seq!['/']) + n2);
        } else {
            assert((join_of(base, n2) + seq!['/']).is_prefix_of(e));
            assert(e.subrange(0, base.len() as int + 1 + n2.len() as int + 1) =~= (join_of(base, n2)
                + seq!['/']));
        }
    }
    assert forall|k: int| 0 <= k < n1.len() implies e[b + k] == n1[k] by {
        assert(e.subrange(0, b + n1.len() as int)[b + k] == e[b + k]);
        assert(((base + seq!['/']) + n1)[b + k] == n1[k]);
    }
    assert forall|k: int| 0 <= k < n2.len() implies e[b + k] == n2[k] by {
        assert(e.subrange(0, b + n2.len() as int)[b + k] == e[b + k]);
        assert(((base + seq!['/']) + n2)[b + k] == n2[k]);
    }
    if n1.len() == n2.len() {
        assert(n1 =~= n2);
    } else if n1.len() < n2.len() {
        assert(e[b + n1.len() as int] == n2[n1.len() as int]);
        assert(n2[n1.len() as int] != '/');
        if e == join_of(base, n1) {
            assert(e.len() == b + n1.len() as int);
        } else {
            assert(e[b + n1.len() as int] == '/') by {
                assert((join_of(base, n1) + seq!['/']).is_prefix_of(e));
                assert(e[b + n1.len() as int] == (join_of(base, n1) + seq!['/'])[b + n1.len() as int]);
            }
        }
    } else {
        assert(e[b + n2.len() as int] == n1[n2.len() as int]);
        assert(n1[n2.len() as int] != '/');
        if e == join_of(base, n2) {
            assert(e.len() == b + n2.len() as int);
        } else {
            assert(e[b + n2.len() as int] == '/') by {
                assert((join_of(base, n2) + seq!['/']).is_prefix_of(e));
                assert(e[b + n2.len() as int] == (join_of(base, n2) + seq!['/'])[b + n2.len() as int]);
            }
        }
    }
}

/// A recursive walk over a well-formed tree yields pairwise distinct
/// paths: every file and directory appears exactly once.
pub proof fn lemma_walk_unique(cs: Seq<TreeNode>, base: Seq<char>)
    requires
        wf_forest(cs),
    ensures
        forall|k1: int, k2: int|
            0 <= k1 < k2 < walk_forest(cs, base).len() ==> #[trigger] walk_forest(cs, base)[k1].0
                != #[trigger] walk_forest(cs, base)[k2].0,
    decreases cs,
{
    if cs.len() > 0 {
        let p0 = join_of(base, cs[0].name@);
        let head = walk_node(cs[0], base);
        let rest = walk_forest(cs.skip(1), base);
        lemma_walk_unique(cs.skip(1), base);
        lemma_walk_forms(cs.skip(1), base);
        if cs[0].isdir {
            lemma_walk_unique(cs[0].children@, p0);
            lemma_walk_prefix(cs[0].children@, p0);
        }
        assert forall|k1: int, k2: int|
            0 <= k1 < k2 < walk_forest(cs, base).len() implies #[trigger] walk_forest(
            cs,
            base,
        )[k1].0 != #[trigger] walk_forest(cs, base)[k2].0 by {
            let e1 = walk_forest(cs, base)[k1].0;
            let e2 = walk_forest(cs, base)[k2].0;
            let inner = walk_forest(cs[0].children@, p0);
            if k2 < head.len() {
                assert(e1 == head[k1].0 && e2 == head[k2].0);
                if k1 == 0 {
                    assert(head[k2] == inner[k2 - 1]);
                    assert((p0 + seq!['/']).is_prefix_of(e2));
                    assert(e2.len() > p0.len());
                } else {
                    assert(head[k1] == inner[k1 - 1]);
                    assert(head[k2] == inner[k2 - 1]);
                }
            } else if k1 < head.len() {
                assert(e1 == head[k1].0);
                assert(walk_forest(cs, base)[k2] == rest[k2 - head.len()]);
                assert(entry_under(e1, base, cs[0].name@)) by {
                    if k1 > 0 {
                        assert(head[k1] == inner[k1 - 1]);
                        assert((p0 + seq!['/']).is_prefix_of(e1));
                    }
                }
                let j0 = choose|j0: int|
                    0 <= j0 < cs.skip(1).len() && entry_under(e2, base, cs.skip(1)[j0].name@);
                assert(cs.skip(1)[j0] == cs[j0 + 1]);
                assert(cs[0].name@ != cs[j0 + 1].name@);
                if e1 == e2 {
                    lemma_under_same_child(base, cs[0].name@, cs[j0 + 1].name@, e1);
                }
            } else {
                assert(walk_forest(cs, base)[k1] == rest[k1 - head.len()]);
                assert(walk_forest(cs, base)[k2] == rest[k2 - head.len()]);
            }
        }
    }
}

/// The parent of a path formed by joining a nonempty base and a
/// separator-free name is the base itself.
pub proof fn lemma_parent_of_join(base: Seq<char>, name: Seq<char>)
    requires
        base.len() > 0,
        !name.contains('/'),
    ensures
        crate::paths::parent_of(join_of(base, name)) == base,
{
    let s = join_of(base, name);
    crate::paths::lemma_last_slash(s);
    assert(s[base.len() as int] == '/');
    assert(forall|k: int| base.len() < k < s.len() ==> s[k] == name[k - base.len() - 1]);
    match crate::paths::last_slash(s) {
        Option::None => {
            assert(s[base.len() as int] != '/');
        },
        Option::Some(j) => {
            if j < base.len() {
                assert(s[base.len() as int] != '/');
            }
            if j > base.len() {
                assert(s[j] == name[j - base.len() - 1]);
                assert(name.contains(name[j - base.len() - 1]));
            }
            assert(j == base.len());
            assert(s.subrange(0, j) =~= base);
        },
    }
}

/// In a walk of a well-formed tree from a nonempty root path, every
/// entry's parent is the root itself or a directory the same walk also
/// yields: the listed parent of every walked file is present in the walked
/// set.
pub proof fn lemma_walk_parents(cs: Seq<TreeNode>, base: Seq<char>)
    requires
        wf_forest(cs),
        base.len() > 0,
    ensures
        forall|k: int|
            0 <= k < walk_forest(cs, base).len() ==> crate::paths::parent_of(
                #[trigger] walk_forest(cs, base)[k].0,
            ) == base || exists|m: int|
                0 <= m < walk_forest(cs, base).len() && walk_forest(cs, base)[m].1 && walk_forest(
                    cs,
                    base,
                )[m].0 == crate::paths::parent_of(walk_forest(cs, base)[k].0),
    decreases cs,
{
    if cs.len() > 0 {
        let p0 = join_of(base, cs[0].name@);
        let head = walk_node(cs[0], base);
        let rest = walk_forest(cs.skip(1), base);
        lemma_walk_parents(cs.skip(1), base);
        if cs[0].isdir {
            assert(p0.len() > 0);
            lemma_walk_parents(cs[0].children@, p0);
        }
        assert forall|k: int| 0 <= k < walk_forest(cs, base).len() implies crate::paths::parent_of(
            #[trigger] walk_forest(cs, base)[k].0,
        ) == base || exists|m: int|
            0 <= m < walk_forest(cs, base).len() && walk_forest(cs, base)[m].1 && walk_forest(
                cs,
                base,
            )[m].0 == crate::paths::parent_of(walk_forest(cs, base)[k].0) by {
            let w = walk_forest(cs, base);
            let e = w[k].0;
            if k < head.len() {
                if k == 0 {
                    lemma_parent_of_join(base, cs[0].name@);
                    assert(crate::paths::parent_of(e) == base);
                } else {
                    let inner = walk_forest(cs[0].children@, p0);
                    assert(head[k] == inner[k - 1]);
                    let pe = crate::paths::parent_of(e);
                    if pe == p0 {
                        assert(w[0].0 == p0 && w[0].1);
                        assert(0 <= 0 < w.len() && w[0].1 && w[0].0 == pe);
                    } else {
                        let m0 = choose|m0: int|
                            0 <= m0 < inner.len() && inner[m0].1 && inner[m0].0 == pe;
                        assert(head[m0 + 1] == inner[m0]);
                        assert(w[m0 + 1] == head[m0 + 1]);
                        assert(0 <= m0 + 1 < w.len() && w[m0 + 1].1 && w[m0 + 1].0 == pe);
                    }
                }
            } else {
                assert(w[k] == rest[k - head.len()]);
                let pe = crate::paths::parent_of(e);
                if pe != base {
                    let m0 = choose|m0: int|
                        0 <= m0 < rest.len() && rest[m0].1 && rest[m0].0 == pe;
                    assert(w[m0 + head.len()] == rest[m0]);
                    assert(0 <= m0 + head.len() < w.len() && w[m0 + head.len()].1 && w[m0
                        + head.len()].0 == pe);
                }
            }
        }
    }
}

/// The view of a walked entry list.
pub open spec fn entry_views(v: Seq<ModelEntry>) -> Seq<(Seq<char>, bool, Seq<u8>)> {
    v.map_values(|e: ModelEntry| (e.path@, e.isdir, e.content@))
}

/// Walk a modelled forest, collecting its entries in walk order.
fn walk_forest_into(cs: &Vec<TreeNode>, base: &str, out: &mut Vec<ModelEntry>)
    ensures
        entry_views(final(out)@) == entry_views(old(out)@) + walk_forest(cs@, base@),
    decreases *cs,
{
    let mut i: usize = 0;
    while i < cs.len()
        invariant
            i <= cs@.len(),
            entry_views(out@) == entry_views(old(out)@) + walk_forest(cs@.take(i as int), base@),
        decreases cs@.len() - i,
    {
        proof {
            assert(decreases_to!(*cs => cs@[i as int]));
            lemma_walk_forest_take_step(cs@, base@, i as int);
        }
        let node = &cs[i];
        let p = join_path(base, node.name.as_str());
        let ghost before = entry_views(out@);
        out.push(
            ModelEntry {
                path: p.clone(),
                isdir: node.isdir,
                content: crate::download::clone_bytes(&node.content),
                permission: 0o644,
            },
        );
        proof {
            assert(entry_views(out@) =~= before.push((p@, node.isdir, node.content@)));
        }
        if node.isdir {
            walk_node_children(node, p.as_str(), out);
        } else {
            proof {
                assert(walk_node(cs@[i as int], base@) =~= seq![
                    (p@, node.isdir, node.content@),
                ]);
            }
        }
        i = i + 1;
        proof {
            assert(entry_views(out@) =~= entry_views(old(out)@) + walk_forest(
                cs@.take(i as int),
                base@,
            ));
        }
    }
    proof {
        assert(cs@.take(cs@.len() as int) =~= cs@);
    }
}

/// Walk the children of one directory node.
fn walk_node_children(node: &TreeNode, p: &str, out: &mut Vec<ModelEntry>)
    requires
        node.isdir,
    ensures
        entry_views(final(out)@) == entry_views(old(out)@) + walk_forest(node.children@, p@),
    decreases *node,
{
    walk_forest_into(&node.children, p, out);
}

/// Walking one more sibling extends the walk of the first `i` by that
/// sibling's subtree.
proof fn lemma_walk_forest_take_step(cs: Seq<TreeNode>, base: Seq<char>, i: int)
    requires
        0 <= i < cs.len(),
    ensures
        walk_forest(cs.take(i + 1), base) == walk_forest(cs.take(i), base) + walk_node(
            cs[i],
            base,
        ),
    decreases i,
{
    if i == 0 {
        assert(cs.take(1).skip(1) =~= Seq::<TreeNode>::empty());
        assert(walk_forest(cs.take(0), base) =~= Seq::<(Seq<char>, bool, Seq<u8>)>::empty());
        assert(cs.take(1)[0] == cs[0]);
        assert(walk_forest(cs.take(1), base) == walk_node(cs.take(1)[0], base) + walk_forest(
            cs.take(1).skip(1),
            base,
        ));
        assert(walk_forest(cs.take(1).skip(1), base) == Seq::<(Seq<char>, bool, Seq<u8>)>::empty());
        assert(walk_node(cs[0], base) + Seq::<(Seq<char>, bool, Seq<u8>)>::empty() =~= walk_node(
            cs[0],
            base,
        ));
        assert(walk_forest(cs.take(1), base) =~= walk_node(cs[0], base));
    } else {
        lemma_walk_forest_take_step(cs.skip(1), base, i - 1);
        assert(cs.take(i + 1)[0] == cs[0]);
        assert(cs.take(i)[0] == cs[0]);
        assert(cs.take(i + 1).skip(1) =~= cs.skip(1).take(i));
        assert(cs.take(i).skip(1) =~= cs.skip(1).take(i - 1));
        assert(cs.skip(1)[i - 1] == cs[i]);
        assert(walk_forest(cs.take(i + 1), base) =~= walk_node(cs[0], base) + walk_forest(
            cs.skip(1).take(i),
            base,
        ));
        assert(walk_forest(cs.take(i), base) + walk_node(cs[i], base) =~= walk_node(cs[0], base)
            + (walk_forest(cs.skip(1).take(i - 1), base) + walk_node(cs.skip(1)[i - 1], base)));
    }
}

/// Walk a modelled tree rooted at `root_path`: every descendant file and
/// directory, in walk order, with the paths the walk gives them.
pub fn walk_tree(root: &TreeNode, root_path: &str) -> (r: Vec<ModelEntry>)
    requires
        root.isdir,
    ensures
        entry_views(r@) == walk_forest(root.children@, root_path@),
{
    let mut out: Vec<ModelEntry> = Vec::new();
    proof {
        assert(entry_views(out@) =~= Seq::<(Seq<char>, bool, Seq<u8>)>::empty());
    }
    walk_forest_into(&root.children, root_path, &mut out);
    out
}

} // verus!
