//! Whole-folder download: mirroring a walked remote subtree under a local
//! target root.
//!
//! For every walked directory the corresponding local directory (and its
//! missing ancestors) is created before any file inside it is written; for
//! every walked file the missing local parent directories are created and
//! the file's full content is written at the local path that
//! [`local_target_of`] computes — the target root extended by the entry's
//! path relative to the downloaded root. Against the real store the
//! surrounding application performs the local directory creation and the
//! chunked stream copy; the mirroring itself is verified here against the
//! namespace model, which the tests drive.

use crate::modelfs::ModelFs;
use crate::paths::local_target_of;
use crate::paths::local_target_path;
use crate::paths::norm_seps;
use crate::paths::parent_path_of;
use vstd::prelude::*;

verus! {

/// A well-formed walked listing rooted at `root`: entry paths are pairwise
/// distinct, already separator-normalized, and all lie under the root.
pub open spec fn walked_listing(entries: Seq<crate::modelfs::ModelEntry>, root: Seq<char>) -> bool {
    &&& forall|i: int, j: int|
        0 <= i < j < entries.len() ==> entries[i].path@ != entries[j].path@
    &&& forall|i: int|
        0 <= i < entries.len() ==> norm_seps(#[trigger] entries[i].path@) == entries[i].path@
            && norm_seps(root).is_prefix_of(entries[i].path@)
}

/// Distinct normalized entry paths under the same root land at distinct
/// local paths.
pub proof fn lemma_local_target_injective(
    t: Seq<char>,
    r: Seq<char>,
    e1: Seq<char>,
    e2: Seq<char>,
)
    requires
        norm_seps(e1) == e1,
        norm_seps(e2) == e2,
        norm_seps(r).is_prefix_of(e1),
        norm_seps(r).is_prefix_of(e2),
        e1 != e2,
    ensures
        local_target_of(t, r, e1) != local_target_of(t, r, e2),
{
    let nt = norm_seps(t);
    let nr = norm_seps(r);
    let k = nr.len() as int;
    let lp1 = local_target_of(t, r, e1);
    let lp2 = local_target_of(t, r, e2);
    assert(lp1 == nt + e1.skip(k));
    assert(lp2 == nt + e2.skip(k));
    if lp1 == lp2 {
        assert(e1.skip(k) =~= lp1.skip(nt.len() as int));
        assert(e2.skip(k) =~= lp2.skip(nt.len() as int));
        assert(e1 =~= nr + e1.skip(k));
        assert(e2 =~= nr + e2.skip(k));
        assert(false);
    }
}

/// A copy of a byte vector.
pub fn clone_bytes(v: &Vec<u8>) -> (r: Vec<u8>)
    ensures
        r@ == v@,
{
    let mut out: Vec<u8> = Vec::new();
    let mut i: usize = 0;
    while i < v.len()
        invariant
            i <= v@.len(),
            out@ == v@.subrange(0, i as int),
        decreases v@.len() - i,
    {
        out.push(v[i]);
        i = i + 1;
        proof {
            assert(out@ =~= v@.subrange(0, i as int));
        }
    }
    proof {
        assert(out@ =~= v@);
    }
    out
}

/// A namespace mirrors a walked listing when every walked directory has a
/// directory at its local target path and every walked file has a file
/// with exactly its bytes there.
pub open spec fn mirrors_listing(
    local: ModelFs,
    entries: Seq<crate::modelfs::ModelEntry>,
    target: Seq<char>,
    root: Seq<char>,
) -> bool {
    forall|i: int|
        0 <= i < entries.len() ==> {
            let lp = local_target_of(target, root, (#[trigger] entries[i]).path@);
            &&& local.has(lp)
            &&& local.at(lp).isdir == entries[i].isdir
            &&& (!entries[i].isdir ==> local.at(lp).content@ == entries[i].content@)
        }
}

/// Downloading a folder twice into clean targets is idempotent on
/// everything the walk names: any two namespaces that mirror the same
/// listing hold the same kind, and for files the same bytes, at every
/// mirrored path.
pub proof fn lemma_mirror_on_clean_targets_agrees(
    a: ModelFs,
    b: ModelFs,
    entries: Seq<crate::modelfs::ModelEntry>,
    target: Seq<char>,
    root: Seq<char>,
)
    requires
        mirrors_listing(a, entries, target, root),
        mirrors_listing(b, entries, target, root),
    ensures
        forall|i: int|
            0 <= i < entries.len() ==> {
                let lp = local_target_of(target, root, (#[trigger] entries[i]).path@);
                &&& a.has(lp) && b.has(lp)
                &&& a.at(lp).isdir == b.at(lp).isdir
                &&& (!entries[i].isdir ==> a.at(lp).content@ == b.at(lp).content@)
            },
{
}

/// Mirror a walked subtree into an empty local target: afterwards the
/// namespace mirrors the listing — the relative directory structure and
/// every file's content are reproduced under the target root.
pub fn mirror_entries(
    local: &mut ModelFs,
    entries: &Vec<crate::modelfs::ModelEntry>,
    target_root: &str,
    remote_root: &str,
)
    requires
        old(local).wf(),
        old(local).entries@.len() == 0,
        norm_seps(target_root@).len() > 0,
        norm_seps(target_root@) != seq!['/'],
        walked_listing(entries@, remote_root@),
    ensures
        final(local).wf(),
        mirrors_listing(*final(local), entries@, target_root@, remote_root@),
{
    let ghost t = target_root@;
    let ghost r = remote_root@;
    let mut i: usize = 0;
    while i < entries.len()
        invariant
            local.wf(),
            i <= entries@.len(),
            t == target_root@,
            r == remote_root@,
            norm_seps(t).len() > 0,
            norm_seps(t) != seq!['/'],
            walked_listing(entries@, r),
            forall|k: int|
                0 <= k < i ==> {
                    let lp = local_target_of(t, r, (#[trigger] entries@[k]).path@);
                    &&& local.has(lp)
                    &&& local.at(lp).isdir == entries@[k].isdir
                    &&& (!entries@[k].isdir ==> local.at(lp).content@ == entries@[k].content@)
                },
            forall|q: Seq<char>|
                #[trigger] local.has(q) ==> (local.at(q).isdir || exists|k: int|
                    0 <= k < i && !entries@[k].isdir && q == local_target_of(
                        t,
                        r,
                        entries@[k].path@,
                    )),
        decreases entries@.len() - i,
    {
        let lp = local_target_path(target_root, remote_root, entries[i].path.as_str());
        proof {
            assert(lp@ != seq!['/']) by {
                let ep = entries@[i as int].path@;
                let nt = norm_seps(t);
                let nr = norm_seps(r);
                let ne = norm_seps(ep);
                if nr.is_prefix_of(ne) {
                    assert(lp@ == nt + ne.skip(nr.len() as int));
                } else {
                    assert(lp@ == nt + ne);
                }
                if lp@ == seq!['/'] {
                    assert(lp@.len() == 1);
                    assert(nt.len() == 1);
                    assert(nt[0] == lp@[0]);
                    assert(nt =~= seq!['/']);
                }
            }
            assert forall|k: int| 0 <= k < i implies local_target_of(
                t,
                r,
                (#[trigger] entries@[k]).path@,
            ) != lp@ by {
                lemma_local_target_injective(t, r, entries@[k].path@, entries@[i as int].path@);
            }
        }
        if entries[i].isdir {
            local.mkdirs(lp.as_str(), 0o755);
        } else {
            let parent = parent_path_of(lp.as_str());
            local.mkdirs(parent.as_str(), 0o755);
            let content = clone_bytes(&entries[i].content);
            local.upsert_file(lp.as_str(), content, 0o644);
        }
        i = i + 1;
    }
}

} // verus!
