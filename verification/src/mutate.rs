//! Tree-wide mutations: trash-based delete and recursive permission
//! propagation.
//!
//! Against the real store the library plans the remote calls — each plan
//! step names the directory to create and the rename or permission call to
//! issue — and the surrounding application performs them, stopping at the
//! first failure. The same operations are verified here against the
//! namespace model, which is what the stated guarantees and the tests go
//! through.

use crate::modelfs::ModelFs;
use crate::paths::lemma_trash_target_differs;
use crate::paths::parent_of;
use crate::paths::parent_path_of;
use crate::paths::str_eq;
use crate::paths::str_starts_with;
use crate::paths::trash_target_of;
use crate::paths::trash_target_path;
use vstd::prelude::*;

verus! {

/// One step of a trash-based delete: create the destination's parent
/// directories, then atomically rename the doomed path onto the
/// destination, overwriting whatever sits there.
pub struct TrashStep {
    pub from: String,
    pub to: String,
    pub mkdir_parent: String,
}

/// Plan a trash-based delete of several paths for one user: each path is
/// renamed — not copied — onto the destination that mirrors its full
/// original location under the user's trash root, after the destination's
/// parent directories are created. Paths are planned independently, in
/// order; the application performing the plan stops at the first failure.
pub fn trash_delete_plan(username: &str, file_path_list: &Vec<String>) -> (r: Vec<TrashStep>)
    ensures
        r@.len() == file_path_list@.len(),
        forall|i: int|
            0 <= i < r@.len() ==> {
                &&& (#[trigger] r@[i]).from@ == file_path_list@[i]@
                &&& r@[i].to@ == trash_target_of(username@, file_path_list@[i]@)
                &&& r@[i].mkdir_parent@ == parent_of(trash_target_of(username@, file_path_list@[i]@))
            },
{
    let mut out: Vec<TrashStep> = Vec::new();
    let mut i: usize = 0;
    while i < file_path_list.len()
        invariant
            i <= file_path_list@.len(),
            out@.len() == i,
            forall|k: int|
                0 <= k < i ==> {
                    &&& (#[trigger] out@[k]).from@ == file_path_list@[k]@
                    &&& out@[k].to@ == trash_target_of(username@, file_path_list@[k]@)
                    &&& out@[k].mkdir_parent@ == parent_of(
                        trash_target_of(username@, file_path_list@[k]@),
                    )
                },
        decreases file_path_list@.len() - i,
    {
        let path = &file_path_list[i];
        let to = trash_target_path(username, path.as_str());
        let mkdir_parent = parent_path_of(to.as_str());
        let from = path.as_str().to_owned();
        out.push(TrashStep { from, to, mkdir_parent });
        i = i + 1;
    }
    out
}

/// Trash-based delete of one path, on the namespace model: after it, no
/// entry sits at the deleted path any more, and the entry — same kind, same
/// bytes — sits at the path that mirrors its full original location under
/// the user's trash root. Fails, changing nothing, exactly when the path
/// holds no entry.
pub fn trash_delete_one(fs: &mut ModelFs, username: &str, path: &str) -> (r: Result<(), String>)
    requires
        old(fs).wf(),
    ensures
        final(fs).wf(),
        r is Ok <==> old(fs).has(path@),
        r is Err ==> *final(fs) == *old(fs),
        r is Ok ==> {
            &&& !final(fs).has(path@)
            &&& final(fs).has(trash_target_of(username@, path@))
            &&& final(fs).at(trash_target_of(username@, path@)).isdir == old(fs).at(path@).isdir
            &&& final(fs).at(trash_target_of(username@, path@)).content == old(fs).at(
                path@,
            ).content
        },
{
    if !fs.contains_path(path) {
        return Err("delete source not found".to_owned());
    }
    let target = trash_target_path(username, path);
    proof {
        lemma_trash_target_differs(username@, path@);
    }
    let parent = parent_path_of(target.as_str());
    fs.mkdirs(parent.as_str(), 0o755);
    fs.rename_entry(path, target.as_str())
}

/// Whether a path lies in the subtree rooted at `root`: it is the root
/// itself or sits strictly below it.
pub open spec fn under_root(p: Seq<char>, root: Seq<char>) -> bool {
    p == root || (root + seq!['/']).is_prefix_of(p)
}

/// Recursive permission propagation on the namespace model: the permission
/// bits are applied to the root and to every entry of the subtree below it
/// — files and directories alike — and nothing else about any entry
/// changes. Entries outside the subtree are untouched.
pub fn set_permission_recursive(fs: &mut ModelFs, root: &str, permission: u32)
    requires
        old(fs).wf(),
    ensures
        final(fs).wf(),
        final(fs).entries@.len() == old(fs).entries@.len(),
        forall|i: int|
            0 <= i < final(fs).entries@.len() ==> {
                &&& (#[trigger] final(fs).entries@[i]).path == old(fs).entries@[i].path
                &&& final(fs).entries@[i].isdir == old(fs).entries@[i].isdir
                &&& final(fs).entries@[i].content == old(fs).entries@[i].content
                &&& final(fs).entries@[i].permission == (if under_root(
                    old(fs).entries@[i].path@,
                    root@,
                ) {
                    permission
                } else {
                    old(fs).entries@[i].permission
                })
            },
{
    let mut prefix = root.to_owned();
    prefix.append("/");
    proof {
        reveal_strlit("/");
        assert(prefix@ =~= root@ + seq!['/']);
    }
    let ghost orig = *fs;
    let n = fs.entries.len();
    let mut i: usize = 0;
    while i < n
        invariant
            prefix@ == root@ + seq!['/'],
            n == fs.entries@.len(),
            fs.entries@.len() == orig.entries@.len(),
            i <= n,
            forall|k: int|
                0 <= k < fs.entries@.len() ==> {
                    &&& (#[trigger] fs.entries@[k]).path == orig.entries@[k].path
                    &&& fs.entries@[k].isdir == orig.entries@[k].isdir
                    &&& fs.entries@[k].content == orig.entries@[k].content
                },
            forall|k: int|
                0 <= k < i ==> (#[trigger] fs.entries@[k]).permission == (if under_root(
                    orig.entries@[k].path@,
                    root@,
                ) {
                    permission
                } else {
                    orig.entries@[k].permission
                }),
            forall|k: int|
                i <= k < fs.entries@.len() ==> (#[trigger] fs.entries@[k]).permission
                    == orig.entries@[k].permission,
        decreases n - i,
    {
        let in_subtree = str_eq(fs.entries[i].path.as_str(), root) || str_starts_with(
            fs.entries[i].path.as_str(),
            prefix.as_str(),
        );
        if in_subtree {
            let ghost prev = *fs;
            let e = fs.entries.remove(i);
            let updated = crate::modelfs::ModelEntry { permission, ..e };
            fs.entries.insert(i, updated);
            proof {
                assert(fs.entries@ =~= prev.entries@.update(i as int, fs.entries@[i as int]));
            }
        }
        i = i + 1;
    }
    proof {
        lemma_same_paths_wf(orig, *fs);
    }
}

/// A namespace whose entries hold the same paths, slot for slot, as a
/// well-formed one is itself well-formed.
proof fn lemma_same_paths_wf(orig: ModelFs, cur: ModelFs)
    requires
        orig.wf(),
        cur.entries@.len() == orig.entries@.len(),
        forall|k: int|
            0 <= k < cur.entries@.len() ==> (#[trigger] cur.entries@[k]).path
                == orig.entries@[k].path,
    ensures
        cur.wf(),
{
    assert forall|i: int, j: int|
        0 <= i < j < cur.entries@.len() implies cur.entries@[i].path@ != cur.entries@[j].path@ by {
        assert(orig.entries@[i].path@ != orig.entries@[j].path@);
    }
}

} // verus!
