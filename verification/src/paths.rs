//! Path computations for the remote store and for mirroring its trees.
//!
//! Remote paths are `/`-separated strings; entries coming back from the
//! store may carry `\` separators, which every operation first normalizes to
//! `/`. The functions here compute parents, file names, joins, the per-user
//! trash destination of a delete, and the local destination of a downloaded
//! entry. They are defined for canonical paths (no trailing or duplicated
//! separators), which is what the remote store reports.

use vstd::prelude::*;
use vstd::string::StrSliceExecFns;
use vstd::string::StringExecFns;

verus! {

/// Every `\` separator replaced by `/`.
pub open spec fn norm_seps(s: Seq<char>) -> Seq<char> {
    s.map_values(|c: char| if c == '\\' { '/' } else { c })
}

/// The index of the last `/` in `s`, if any.
pub open spec fn last_slash(s: Seq<char>) -> Option<int>
    decreases s.len(),
{
    if s.len() == 0 {
        None
    } else if s.last() == '/' {
        Some(s.len() - 1)
    } else {
        last_slash(s.drop_last())
    }
}

/// The parent of a canonical path: everything before the last `/`; the root
/// `/` when the last `/` is the first character; empty when the path has no
/// separator at all.
pub open spec fn parent_of(s: Seq<char>) -> Seq<char> {
    match last_slash(s) {
        Option::None => Seq::<char>::empty(),
        Option::Some(j) => if j == 0 {
            seq!['/']
        } else {
            s.subrange(0, j)
        },
    }
}

/// The file name of a canonical path: everything after the last `/`, or the
/// whole path when it has no separator.
pub open spec fn file_name_of(s: Seq<char>) -> Seq<char> {
    match last_slash(s) {
        Option::None => s,
        Option::Some(j) => s.subrange(j + 1, s.len() as int),
    }
}

/// `parent` and `name` joined with a single separator.
pub open spec fn join_of(parent: Seq<char>, name: Seq<char>) -> Seq<char> {
    parent + seq!['/'] + name
}

/// `last_slash` finds a `/` with nothing but non-separators after it, and
/// reports `None` exactly when the path holds no separator.
pub proof fn lemma_last_slash(s: Seq<char>)
    ensures
        match last_slash(s) {
            Option::None => forall|k: int| 0 <= k < s.len() ==> s[k] != '/',
            Option::Some(j) => 0 <= j < s.len() && s[j] == '/' && forall|k: int|
                j < k < s.len() ==> s[k] != '/',
        },
    decreases s.len(),
{
    if s.len() > 0 && s.last() != '/' {
        lemma_last_slash(s.drop_last());
        assert(forall|k: int| 0 <= k < s.len() - 1 ==> s.drop_last()[k] == s[k]);
    }
}

/// Collect the characters of a string slice.
pub fn chars_of(s: &str) -> (r: Vec<char>)
    ensures
        r@ == s@,
{
    let n = s.unicode_len();
    let mut out: Vec<char> = Vec::new();
    let mut i: usize = 0;
    while i < n
        invariant
            n == s@.len(),
            i <= n,
            out@ == s@.subrange(0, i as int),
        decreases n - i,
    {
        out.push(s.get_char(i));
        i = i + 1;
        proof {
            assert(out@ =~= s@.subrange(0, i as int));
        }
    }
    proof {
        assert(out@ =~= s@);
    }
    out
}

/// Relies on `String: FromIterator<char>` (`collect`): collecting characters
/// yields the string of exactly those characters, in order.
#[verifier::external_body]
pub(crate) fn string_from_chars(v: &Vec<char>) -> (r: String)
    ensures
        r@ == v@,
{
    v.iter().collect()
}

/// Copy the character range `[from, to)` out of a vector.
pub fn subvec_chars(v: &Vec<char>, from: usize, to: usize) -> (r: Vec<char>)
    requires
        from <= to <= v@.len(),
    ensures
        r@ == v@.subrange(from as int, to as int),
{
    let mut out: Vec<char> = Vec::new();
    let mut i: usize = from;
    while i < to
        invariant
            from <= i <= to <= v@.len(),
            out@ == v@.subrange(from as int, i as int),
        decreases to - i,
    {
        out.push(v[i]);
        i = i + 1;
        proof {
            assert(out@ =~= v@.subrange(from as int, i as int));
        }
    }
    out
}

/// The index of the last `/` in `v`, scanning from the end.
fn rfind_slash(v: &Vec<char>) -> (r: Option<usize>)
    ensures
        r is None <==> last_slash(v@) is None,
        r matches Some(u) ==> last_slash(v@) == Option::Some(u as int) && u < v@.len() && v@[u as int]
            == '/',
{
    let mut i: usize = v.len();
    while i > 0
        invariant
            i <= v@.len(),
            forall|k: int| i <= k < v@.len() ==> v@[k] != '/',
        decreases i,
    {
        i = i - 1;
        if v[i] == '/' {
            proof {
                lemma_last_slash(v@);
                match last_slash(v@) {
                    Option::None => {
                        assert(false);
                    },
                    Option::Some(j) => {
                        if j < i {
                            assert(v@[i as int] != '/');
                        }
                        if j > i {
                            assert(v@[j] != '/');
                        }
                        assert(j == i);
                    },
                }
            }
            return Some(i);
        }
    }
    proof {
        lemma_last_slash(v@);
        match last_slash(v@) {
            Option::None => {},
            Option::Some(j) => {
                assert(v@[j] != '/');
            },
        }
    }
    None
}

/// Replace every `\` separator by `/`.
pub fn normalize_separators(s: &str) -> (r: String)
    ensures
        r@ == norm_seps(s@),
{
    let v = chars_of(s);
    let mut out: Vec<char> = Vec::new();
    let mut i: usize = 0;
    while i < v.len()
        invariant
            v@ == s@,
            i <= v@.len(),
            out@ == norm_seps(s@).subrange(0, i as int),
        decreases v@.len() - i,
    {
        let c = v[i];
        if c == '\\' {
            out.push('/');
        } else {
            out.push(c);
        }
        i = i + 1;
        proof {
            assert(out@ =~= norm_seps(s@).subrange(0, i as int));
        }
    }
    proof {
        assert(out@ =~= norm_seps(s@));
    }
    string_from_chars(&out)
}

/// The parent path of a canonical path.
pub fn parent_path_of(path: &str) -> (r: String)
    ensures
        r@ == parent_of(path@),
{
    let v = chars_of(path);
    match rfind_slash(&v) {
        None => String::new(),
        Some(j) => {
            if j == 0 {
                let root = string_from_chars(&vec!['/']);
                proof {
                    assert(root@ =~= seq!['/']);
                }
                root
            } else {
                path.substring_char(0, j).to_owned()
            }
        },
    }
}

/// The file name of a canonical path.
pub fn file_name_of_path(path: &str) -> (r: String)
    ensures
        r@ == file_name_of(path@),
{
    let v = chars_of(path);
    let n = v.len();
    match rfind_slash(&v) {
        None => path.to_owned(),
        Some(j) => path.substring_char(j + 1, n).to_owned(),
    }
}

/// Join a parent path and a child name with a single separator.
pub fn join_path(parent: &str, name: &str) -> (r: String)
    ensures
        r@ == join_of(parent@, name@),
{
    let mut out = parent.to_owned();
    out.append("/");
    out.append(name);
    proof {
        reveal_strlit("/");
        assert(out@ =~= join_of(parent@, name@));
    }
    out
}

/// Whether two string slices hold the same characters.
pub fn str_eq(a: &str, b: &str) -> (r: bool)
    ensures
        r == (a@ == b@),
{
    let av = chars_of(a);
    let bv = chars_of(b);
    if av.len() != bv.len() {
        return false;
    }
    let mut i: usize = 0;
    while i < av.len()
        invariant
            av@ == a@,
            bv@ == b@,
            av@.len() == bv@.len(),
            i <= av@.len(),
            forall|k: int| 0 <= k < i ==> av@[k] == bv@[k],
        decreases av@.len() - i,
    {
        if av[i] != bv[i] {
            return false;
        }
        i = i + 1;
    }
    proof {
        assert(a@ =~= b@);
    }
    true
}

/// Whether `prefix` begins `s`.
pub fn str_starts_with(s: &str, prefix: &str) -> (r: bool)
    ensures
        r == prefix@.is_prefix_of(s@),
{
    let sv = chars_of(s);
    let pv = chars_of(prefix);
    if pv.len() > sv.len() {
        return false;
    }
    let mut i: usize = 0;
    while i < pv.len()
        invariant
            sv@ == s@,
            pv@ == prefix@,
            pv@.len() <= sv@.len(),
            i <= pv@.len(),
            forall|k: int| 0 <= k < i ==> sv@[k] == pv@[k],
        decreases pv@.len() - i,
    {
        if sv[i] != pv[i] {
            return false;
        }
        i = i + 1;
    }
    proof {
        assert(s@.subrange(0, prefix@.len() as int) =~= prefix@);
    }
    true
}

/// Whether `suffix` ends `s`.
pub fn str_ends_with(s: &str, suffix: &str) -> (r: bool)
    ensures
        r == suffix@.is_suffix_of(s@),
{
    let sv = chars_of(s);
    let fv = chars_of(suffix);
    if fv.len() > sv.len() {
        return false;
    }
    let ns: usize = sv.len();
    let base: usize = ns - fv.len();
    let mut i: usize = 0;
    while i < fv.len()
        invariant
            sv@ == s@,
            fv@ == suffix@,
            fv@.len() <= sv@.len(),
            ns == sv@.len(),
            base == sv@.len() - fv@.len(),
            i <= fv@.len(),
            forall|k: int| 0 <= k < i ==> sv@[base + k] == fv@[k],
        decreases fv@.len() - i,
    {
        if sv[base + i] != fv[i] {
            return false;
        }
        i = i + 1;
    }
    proof {
        assert(s@.subrange(s@.len() - suffix@.len(), s@.len() as int) =~= suffix@);
    }
    true
}

/// The per-user trash root: `/user/<username>/.Trash/Current`.
pub open spec fn trash_root_of(username: Seq<char>) -> Seq<char> {
    "/user/"@ + username + "/.Trash/Current"@
}

/// The trash destination that mirrors a path's full original location under
/// the user's trash root.
pub open spec fn trash_target_of(username: Seq<char>, path: Seq<char>) -> Seq<char> {
    trash_root_of(username) + path
}

/// Compute the trash destination for a path deleted by a user.
pub fn trash_target_path(username: &str, path: &str) -> (r: String)
    ensures
        r@ == trash_target_of(username@, path@),
{
    let mut out = "/user/".to_owned();
    out.append(username);
    out.append("/.Trash/Current");
    out.append(path);
    out
}

/// The trash destination is strictly longer than the path it mirrors, so a
/// path and its trash destination are never the same entry.
pub proof fn lemma_trash_target_differs(username: Seq<char>, path: Seq<char>)
    ensures
        trash_target_of(username, path).len() > path.len(),
        trash_target_of(username, path) != path,
{
    reveal_strlit("/user/");
    reveal_strlit("/.Trash/Current");
}

/// The local destination of a downloaded entry: the (normalized) local
/// target root extended by the entry's path relative to the remote root
/// being downloaded; an entry that does not lie under that root keeps its
/// full path under the target.
pub open spec fn local_target_of(target: Seq<char>, root: Seq<char>, entry: Seq<char>) -> Seq<
    char,
> {
    let t = norm_seps(target);
    let r = norm_seps(root);
    let e = norm_seps(entry);
    if r.is_prefix_of(e) {
        t + e.skip(r.len() as int)
    } else {
        t + e
    }
}

/// Compute where a downloaded entry lands under the local target root.
pub fn local_target_path(target: &str, root: &str, entry: &str) -> (r: String)
    ensures
        r@ == local_target_of(target@, root@, entry@),
{
    let t = normalize_separators(target);
    let rn = normalize_separators(root);
    let e = normalize_separators(entry);
    let ev = chars_of(e.as_str());
    let rel: Vec<char> = if str_starts_with(e.as_str(), rn.as_str()) {
        subvec_chars(&ev, rn.as_str().unicode_len(), ev.len())
    } else {
        subvec_chars(&ev, 0, ev.len())
    };
    proof {
        assert(norm_seps(root@).is_prefix_of(norm_seps(entry@)) ==> rel@ =~= norm_seps(
            entry@,
        ).skip(norm_seps(root@).len() as int));
        assert(!norm_seps(root@).is_prefix_of(norm_seps(entry@)) ==> rel@ =~= norm_seps(entry@));
    }
    let mut out = t;
    out.append(string_from_chars(&rel).as_str());
    out
}

/// The renamed form of a path: the same parent directory, with the new file
/// name joined onto it.
pub fn renamed_path(old_path: &str, new_name: &str) -> (r: String)
    ensures
        r@ == join_of(parent_of(old_path@), new_name@),
{
    let parent = parent_path_of(old_path);
    join_path(parent.as_str(), new_name)
}

} // verus!
