//! A model of the remote store's namespace: a flat set of entries, each a
//! full path carrying its kind (file or directory), its bytes and its
//! permission bits. The tree-wide operations are verified against this
//! model, and tests drive them through it; against the real store the same
//! planned actions are carried out by the surrounding application.

use crate::paths::parent_of;
use crate::paths::parent_path_of;
use crate::paths::str_eq;
use vstd::prelude::*;

verus! {

/// One namespace entry: a file with content, or a directory.
pub struct ModelEntry {
    pub path: String,
    pub isdir: bool,
    pub content: Vec<u8>,
    pub permission: u32,
}

/// A flat namespace with at most one entry per path.
pub struct ModelFs {
    pub entries: Vec<ModelEntry>,
}

impl ModelFs {
    /// No two entries share a path.
    pub open spec fn wf(&self) -> bool {
        forall|i: int, j: int|
            0 <= i < j < self.entries@.len() ==> self.entries@[i].path@ != self.entries@[j].path@
    }

    /// Whether some entry sits at this path.
    pub open spec fn has(&self, p: Seq<char>) -> bool {
        exists|i: int| 0 <= i < self.entries@.len() && self.entries@[i].path@ == p
    }

    /// The index of the entry at this path.
    pub open spec fn idx(&self, p: Seq<char>) -> int {
        choose|i: int| 0 <= i < self.entries@.len() && self.entries@[i].path@ == p
    }

    /// The entry at this path.
    pub open spec fn at(&self, p: Seq<char>) -> ModelEntry {
        self.entries@[self.idx(p)]
    }

    /// In a well-formed namespace, an entry is the one `at` its own path.
    pub proof fn lemma_at(&self, i: int)
        requires
            self.wf(),
            0 <= i < self.entries@.len(),
        ensures
            self.has(self.entries@[i].path@),
            self.idx(self.entries@[i].path@) == i,
            self.at(self.entries@[i].path@) == self.entries@[i],
    {
        let p = self.entries@[i].path@;
        assert(self.has(p));
        let j = self.idx(p);
        if i < j {
            assert(self.entries@[i].path@ != self.entries@[j].path@);
        }
        if j < i {
            assert(self.entries@[j].path@ != self.entries@[i].path@);
        }
    }

    /// An empty namespace.
    pub fn new() -> (r: ModelFs)
        ensures
            r.wf(),
            r.entries@.len() == 0,
            forall|p: Seq<char>| !r.has(p),
    {
        ModelFs { entries: Vec::new() }
    }

    /// Find the index of the entry at a path.
    pub fn find(&self, path: &str) -> (r: Option<usize>)
        ensures
            (r matches Some(u) ==> u < self.entries@.len() && self.entries@[u as int].path@
                == path@),
            (r is None ==> !self.has(path@)),
            r is Some <==> self.has(path@),
    {
        let mut i: usize = 0;
        while i < self.entries.len()
            invariant
                i <= self.entries@.len(),
                forall|k: int| 0 <= k < i ==> self.entries@[k].path@ != path@,
            decreases self.entries@.len() - i,
        {
            if str_eq(self.entries[i].path.as_str(), path) {
                return Some(i);
            }
            i = i + 1;
        }
        None
    }

    /// Whether the namespace holds an entry at a path.
    pub fn contains_path(&self, path: &str) -> (r: bool)
        ensures
            r == self.has(path@),
    {
        self.find(path).is_some()
    }

    /// Borrow the entry at a path.
    pub fn entry_at(&self, path: &str) -> (r: Option<&ModelEntry>)
        requires
            self.wf(),
        ensures
            (r matches Some(e) ==> self.has(path@) && *e == self.at(path@)),
            (r is None ==> !self.has(path@)),
    {
        match self.find(path) {
            Some(i) => {
                proof {
                    self.lemma_at(i as int);
                }
                Some(&self.entries[i])
            },
            None => None,
        }
    }

    /// Place a file at a path, replacing whatever entry sat there. Every
    /// other entry is untouched.
    pub fn upsert_file(&mut self, path: &str, content: Vec<u8>, permission: u32)
        requires
            old(self).wf(),
        ensures
            final(self).wf(),
            final(self).has(path@),
            final(self).at(path@).path@ == path@,
            !final(self).at(path@).isdir,
            final(self).at(path@).content@ == content@,
            final(self).at(path@).permission == permission,
            forall|q: Seq<char>|
                q != path@ ==> (final(self).has(q) == old(self).has(q) && (old(self).has(q)
                    ==> final(self).at(q) == old(self).at(q))),
    {
        let e = ModelEntry { path: path.to_owned(), isdir: false, content, permission };
        match self.find(path) {
            Some(i) => {
                let ghost prev = *self;
                self.entries.remove(i);
                self.entries.insert(i, e);
                proof {
                    assert(self.entries@ =~= prev.entries@.update(i as int, self.entries@[i as int]));
                    lemma_update_preserves(prev, *self, i as int, path@);
                }
            },
            None => {
                let ghost prev = *self;
                self.entries.push(e);
                proof {
                    lemma_push_preserves(prev, *self, path@);
                }
            },
        }
    }

    /// Make sure a directory entry sits at a path; an existing entry of
    /// either kind is left exactly as it was, as is everything else.
    pub fn ensure_dir(&mut self, path: &str, permission: u32)
        requires
            old(self).wf(),
        ensures
            final(self).wf(),
            final(self).has(path@),
            old(self).has(path@) ==> *final(self) == *old(self),
            !old(self).has(path@) ==> {
                &&& final(self).at(path@).isdir
                &&& final(self).at(path@).path@ == path@
                &&& final(self).at(path@).permission == permission
            },
            forall|q: Seq<char>|
                q != path@ ==> (final(self).has(q) == old(self).has(q) && (old(self).has(q)
                    ==> final(self).at(q) == old(self).at(q))),
    {
        if self.contains_path(path) {
            return ;
        }
        let e = ModelEntry { path: path.to_owned(), isdir: true, content: Vec::new(), permission };
        let ghost prev = *self;
        self.entries.push(e);
        proof {
            lemma_push_preserves(prev, *self, path@);
        }
    }

    /// Make sure a directory sits at a path and at every ancestor of it,
    /// from the path up to (but not including) the root. Existing entries
    /// are left exactly as they were; every entry this adds is a directory.
    pub fn mkdirs(&mut self, path: &str, permission: u32)
        requires
            old(self).wf(),
        ensures
            final(self).wf(),
            path@.len() > 0 && path@ != seq!['/'] ==> final(self).has(path@),
            forall|q: Seq<char>|
                old(self).has(q) ==> final(self).has(q) && final(self).at(q) == old(self).at(q),
            forall|q: Seq<char>|
                final(self).has(q) && !old(self).has(q) ==> final(self).at(q).isdir,
    {
        let ghost orig = *self;
        let mut p = path.to_owned();
        proof {
            reveal_strlit("/");
            assert("/"@ =~= seq!['/']);
        }
        let mut done = p.unicode_len() == 0 || str_eq(p.as_str(), "/");
        while !done
            invariant
                self.wf(),
                done ==> (p@.len() == 0 || p@ == seq!['/']),
                !done ==> p@.len() > 0 && p@ != seq!['/'],
                path@.len() > 0 && path@ != seq!['/'] ==> (self.has(path@) || p@ == path@),
                forall|q: Seq<char>|
                    orig.has(q) ==> self.has(q) && self.at(q) == orig.at(q),
                forall|q: Seq<char>| self.has(q) && !orig.has(q) ==> self.at(q).isdir,
            decreases p@.len(),
        {
            proof {
                reveal_strlit("/");
                assert("/"@ =~= seq!['/']);
            }
            self.ensure_dir(p.as_str(), permission);
            proof {
                lemma_parent_shorter(p@);
            }
            p = crate::paths::parent_path_of(p.as_str());
            done = p.unicode_len() == 0 || str_eq(p.as_str(), "/");
        }
        proof {
            reveal_strlit("/");
        }
    }

    /// Move the entry at `from` to `to`, replacing whatever entry sat at
    /// `to`. Fails, changing nothing, exactly when no entry sits at `from`.
    /// The moved entry keeps its kind, bytes and permission; every path
    /// other than the two involved keeps its entry.
    pub fn rename_entry(&mut self, from: &str, to: &str) -> (r: Result<(), String>)
        requires
            old(self).wf(),
            from@ != to@,
        ensures
            final(self).wf(),
            r is Ok <==> old(self).has(from@),
            r is Err ==> *final(self) == *old(self),
            r is Ok ==> {
                &&& !final(self).has(from@)
                &&& final(self).has(to@)
                &&& final(self).at(to@).path@ == to@
                &&& final(self).at(to@).isdir == old(self).at(from@).isdir
                &&& final(self).at(to@).content == old(self).at(from@).content
                &&& final(self).at(to@).permission == old(self).at(from@).permission
            },
            forall|q: Seq<char>|
                q != from@ && q != to@ ==> (final(self).has(q) == old(self).has(q) && (old(
                    self,
                ).has(q) ==> final(self).at(q) == old(self).at(q))),
    {
        let i = match self.find(from) {
            None => {
                return Err("rename source not found".to_owned());
            },
            Some(i) => i,
        };
        proof {
            old(self).lemma_at(i as int);
        }
        let ghost before = *self;
        let i2 = match self.find(to) {
            Some(j) => {
                let ghost prevr = *self;
                self.entries.remove(j);
                proof {
                    lemma_remove_preserves(prevr, *self, j as int);
                }
                if j < i {
                    i - 1
                } else {
                    i
                }
            },
            None => i,
        };
        proof {
            assert(self.entries@[i2 as int].path@ == from@);
            assert(!self.has(to@));
        }
        let ghost prev = *self;
        let e = self.entries.remove(i2);
        let moved = ModelEntry { path: to.to_owned(), ..e };
        self.entries.insert(i2, moved);
        proof {
            assert(self.entries@ =~= prev.entries@.update(i2 as int, self.entries@[i2 as int]));
            lemma_replace_path(prev, *self, i2 as int, from@, to@);
        }
        Ok(())
    }

    /// Set the permission bits of the entry at a path. Fails, changing
    /// nothing, exactly when no entry sits there; nothing else of the entry
    /// or of the namespace changes.
    pub fn set_permission_entry(&mut self, path: &str, permission: u32) -> (r: Result<(), String>)
        requires
            old(self).wf(),
        ensures
            final(self).wf(),
            r is Ok <==> old(self).has(path@),
            r is Err ==> *final(self) == *old(self),
            r is Ok ==> {
                &&& final(self).has(path@)
                &&& final(self).at(path@).permission == permission
                &&& final(self).at(path@).path == old(self).at(path@).path
                &&& final(self).at(path@).isdir == old(self).at(path@).isdir
                &&& final(self).at(path@).content == old(self).at(path@).content
            },
            forall|q: Seq<char>|
                q != path@ ==> (final(self).has(q) == old(self).has(q) && (old(self).has(q)
                    ==> final(self).at(q) == old(self).at(q))),
    {
        let i = match self.find(path) {
            None => {
                return Err("path not found".to_owned());
            },
            Some(i) => i,
        };
        proof {
            old(self).lemma_at(i as int);
        }
        let ghost prev = *self;
        let e = self.entries.remove(i);
        let updated = ModelEntry { permission, ..e };
        self.entries.insert(i, updated);
        proof {
            assert(self.entries@ =~= prev.entries@.update(i as int, self.entries@[i as int]));
            lemma_update_preserves(prev, *self, i as int, path@);
        }
        Ok(())
    }
}

/// The parent of a non-root, non-empty path is strictly shorter.
pub proof fn lemma_parent_shorter(s: Seq<char>)
    requires
        s.len() > 0,
        s != seq!['/'],
    ensures
        parent_of(s).len() < s.len(),
{
    crate::paths::lemma_last_slash(s);
    match crate::paths::last_slash(s) {
        Option::None => {},
        Option::Some(j) => {
            if j == 0 && s.len() == 1 {
                assert(s =~= seq!['/']);
            }
        },
    }
}

/// Removing an entry keeps the namespace well-formed, makes its path
/// absent, and leaves every other path's entry intact.
proof fn lemma_remove_preserves(prev: ModelFs, cur: ModelFs, j: int)
    requires
        prev.wf(),
        0 <= j < prev.entries@.len(),
        cur.entries@ == prev.entries@.remove(j),
    ensures
        cur.wf(),
        !cur.has(prev.entries@[j].path@),
        forall|q: Seq<char>|
            q != prev.entries@[j].path@ ==> (cur.has(q) == prev.has(q) && (prev.has(q)
                ==> cur.at(q) == prev.at(q))),
{
    let p = prev.entries@[j].path@;
    assert forall|a: int, b: int|
        0 <= a < b < cur.entries@.len() implies cur.entries@[a].path@ != cur.entries@[b].path@ by {
        let a0 = if a < j {
            a
        } else {
            a + 1
        };
        let b0 = if b < j {
            b
        } else {
            b + 1
        };
        assert(cur.entries@[a] == prev.entries@[a0]);
        assert(cur.entries@[b] == prev.entries@[b0]);
        assert(prev.entries@[a0].path@ != prev.entries@[b0].path@);
    }
    assert forall|k: int| 0 <= k < cur.entries@.len() implies cur.entries@[k].path@ != p by {
        let k0 = if k < j {
            k
        } else {
            k + 1
        };
        assert(cur.entries@[k] == prev.entries@[k0]);
        assert(prev.entries@[k0].path@ != prev.entries@[j].path@);
    }
    assert forall|q: Seq<char>| q != p implies (cur.has(q) == prev.has(q) && (prev.has(q)
        ==> cur.at(q) == prev.at(q))) by {
        if prev.has(q) {
            let k0 = prev.idx(q);
            prev.lemma_at(k0);
            assert(k0 != j);
            let k = if k0 < j {
                k0
            } else {
                k0 - 1
            };
            assert(cur.entries@[k] == prev.entries@[k0]);
            cur.lemma_at(k);
        }
        if cur.has(q) {
            let k = cur.idx(q);
            cur.lemma_at(k);
            let k0 = if k < j {
                k
            } else {
                k + 1
            };
            assert(cur.entries@[k] == prev.entries@[k0]);
            prev.lemma_at(k0);
        }
    }
}

/// Replacing the entry at index `i` by one at a fresh path moves that
/// slot's path: the old path becomes absent, the new path holds the new
/// entry, and every other path's entry is intact.
proof fn lemma_replace_path(prev: ModelFs, cur: ModelFs, i: int, oldp: Seq<char>, newp: Seq<char>)
    requires
        prev.wf(),
        0 <= i < prev.entries@.len(),
        prev.entries@[i].path@ == oldp,
        !prev.has(newp),
        oldp != newp,
        cur.entries@ == prev.entries@.update(i, cur.entries@[i]),
        cur.entries@[i].path@ == newp,
    ensures
        cur.wf(),
        !cur.has(oldp),
        cur.has(newp),
        cur.at(newp) == cur.entries@[i],
        forall|q: Seq<char>|
            q != oldp && q != newp ==> (cur.has(q) == prev.has(q) && (prev.has(q) ==> cur.at(q)
                == prev.at(q))),
{
    assert forall|a: int, b: int|
        0 <= a < b < cur.entries@.len() implies cur.entries@[a].path@ != cur.entries@[b].path@ by {
        if a != i && b != i {
            assert(prev.entries@[a].path@ != prev.entries@[b].path@);
        } else if a == i {
            assert(prev.entries@[b].path@ != newp);
        } else {
            assert(prev.entries@[a].path@ != newp);
        }
    }
    cur.lemma_at(i);
    assert forall|k: int| 0 <= k < cur.entries@.len() implies cur.entries@[k].path@ != oldp by {
        if k != i {
            assert(cur.entries@[k] == prev.entries@[k]);
            assert(prev.entries@[k].path@ != prev.entries@[i].path@ || k == i);
        }
    }
    assert forall|q: Seq<char>| q != oldp && q != newp implies (cur.has(q) == prev.has(q) && (
    prev.has(q) ==> cur.at(q) == prev.at(q))) by {
        if prev.has(q) {
            let j = prev.idx(q);
            prev.lemma_at(j);
            assert(j != i);
            assert(cur.entries@[j] == prev.entries@[j]);
            cur.lemma_at(j);
        }
        if cur.has(q) {
            let j = cur.idx(q);
            cur.lemma_at(j);
            assert(j != i);
            assert(prev.entries@[j] == cur.entries@[j]);
            prev.lemma_at(j);
        }
    }
}

/// Replacing the entry at index `i` by one at path `p` (a path no other
/// entry holds) keeps the namespace well-formed and every other path's entry
/// intact.
proof fn lemma_update_preserves(prev: ModelFs, cur: ModelFs, i: int, p: Seq<char>)
    requires
        prev.wf(),
        0 <= i < prev.entries@.len(),
        prev.entries@[i].path@ == p,
        cur.entries@ == prev.entries@.update(i, cur.entries@[i]),
        cur.entries@[i].path@ == p,
    ensures
        cur.wf(),
        cur.has(p),
        cur.at(p) == cur.entries@[i],
        forall|q: Seq<char>|
            q != p ==> (cur.has(q) == prev.has(q) && (prev.has(q) ==> cur.at(q) == prev.at(q))),
{
    assert forall|a: int, b: int|
        0 <= a < b < cur.entries@.len() implies cur.entries@[a].path@ != cur.entries@[b].path@ by {
        if a != i && b != i {
            assert(prev.entries@[a].path@ != prev.entries@[b].path@);
        } else if a == i {
            assert(prev.entries@[b].path@ != prev.entries@[i].path@);
        } else {
            assert(prev.entries@[a].path@ != prev.entries@[i].path@);
        }
    }
    cur.lemma_at(i);
    assert forall|q: Seq<char>| q != p implies (cur.has(q) == prev.has(q) && (prev.has(q)
        ==> cur.at(q) == prev.at(q))) by {
        if prev.has(q) {
            let j = prev.idx(q);
            prev.lemma_at(j);
            assert(j != i);
            assert(cur.entries@[j].path@ == q);
            cur.lemma_at(j);
        }
        if cur.has(q) {
            let j = cur.idx(q);
            cur.lemma_at(j);
            assert(j != i);
            assert(prev.entries@[j].path@ == q);
            prev.lemma_at(j);
        }
    }
}

/// Appending an entry at a fresh path keeps the namespace well-formed and
/// every other path's entry intact.
proof fn lemma_push_preserves(prev: ModelFs, cur: ModelFs, p: Seq<char>)
    requires
        prev.wf(),
        !prev.has(p),
        cur.entries@ == prev.entries@.push(cur.entries@.last()),
        cur.entries@.last().path@ == p,
    ensures
        cur.wf(),
        cur.has(p),
        cur.at(p) == cur.entries@.last(),
        forall|q: Seq<char>|
            q != p ==> (cur.has(q) == prev.has(q) && (prev.has(q) ==> cur.at(q) == prev.at(q))),
{
    let n = prev.entries@.len() as int;
    assert forall|a: int, b: int|
        0 <= a < b < cur.entries@.len() implies cur.entries@[a].path@ != cur.entries@[b].path@ by {
        if b < n {
            assert(prev.entries@[a].path@ != prev.entries@[b].path@);
        } else {
            assert(cur.entries@[b].path@ == p);
            assert(prev.entries@[a].path@ != p);
        }
    }
    cur.lemma_at(n);
    assert forall|q: Seq<char>| q != p implies (cur.has(q) == prev.has(q) && (prev.has(q)
        ==> cur.at(q) == prev.at(q))) by {
        if prev.has(q) {
            let j = prev.idx(q);
            prev.lemma_at(j);
            assert(cur.entries@[j].path@ == q);
            cur.lemma_at(j);
        }
        if cur.has(q) {
            let j = cur.idx(q);
            cur.lemma_at(j);
            assert(j != n);
            assert(prev.entries@[j].path@ == q);
            prev.lemma_at(j);
        }
    }
}

} // verus!
