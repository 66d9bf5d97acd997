//! Kerberos-related text computations: finding the KDC for a realm in a
//! `krb5.conf`, taking a user name out of a principal, and selecting the
//! matching key from a parsed keytab.
//!
//! The ticket acquisition itself — reading the keytab file, requesting the
//! ticket from the KDC, writing the credential cache — is an external
//! collaborator's work and stays outside the library; what is verified here
//! is every decision taken on the way there.
//!
//! Text is trimmed against the ASCII whitespace characters, which is what
//! these configuration files hold.

use crate::paths::chars_of;
use crate::paths::string_from_chars;
use crate::paths::subvec_chars;
use vstd::prelude::*;

verus! {

/// An ASCII whitespace character.
pub open spec fn is_ws(c: char) -> bool {
    c == ' ' || c == '\t' || c == '\r' || c == '\n' || c == '\u{000B}' || c == '\u{000C}'
}

/// The index of the first occurrence of `c`, if any.
pub open spec fn first_index_of(s: Seq<char>, c: char) -> Option<int>
    decreases s.len(),
{
    if s.len() == 0 {
        None
    } else if s[0] == c {
        Some(0)
    } else {
        match first_index_of(s.skip(1), c) {
            Option::None => Option::<int>::None,
            Option::Some(j) => Option::Some(j + 1),
        }
    }
}

/// `first_index_of` finds the first occurrence: nothing before it matches,
/// and `None` means no occurrence at all.
pub proof fn lemma_first_index_of(s: Seq<char>, c: char)
    ensures
        match first_index_of(s, c) {
            Option::None => forall|k: int| 0 <= k < s.len() ==> s[k] != c,
            Option::Some(j) => 0 <= j < s.len() && s[j] == c && forall|k: int|
                0 <= k < j ==> s[k] != c,
        },
    decreases s.len(),
{
    if s.len() > 0 && s[0] != c {
        lemma_first_index_of(s.skip(1), c);
        assert(forall|k: int| 1 <= k < s.len() ==> s.skip(1)[k - 1] == s[k]);
    }
}

/// Find the first occurrence of a character.
pub fn find_char(v: &Vec<char>, c: char) -> (r: Option<usize>)
    ensures
        r is None <==> first_index_of(v@, c) is None,
        r matches Some(u) ==> first_index_of(v@, c) == Option::Some(u as int) && u < v@.len()
            && v@[u as int] == c,
{
    let mut i: usize = 0;
    while i < v.len()
        invariant
            i <= v@.len(),
            forall|k: int| 0 <= k < i ==> v@[k] != c,
        decreases v@.len() - i,
    {
        if v[i] == c {
            proof {
                lemma_first_index_of(v@, c);
                match first_index_of(v@, c) {
                    Option::None => {
                        assert(false);
                    },
                    Option::Some(j) => {
                        if j < i {
                            assert(v@[j] != c);
                        }
                        if j > i {
                            assert(v@[i as int] != c);
                        }
                    },
                }
            }
            return Some(i);
        }
        i = i + 1;
    }
    proof {
        lemma_first_index_of(v@, c);
        match first_index_of(v@, c) {
            Option::None => {},
            Option::Some(j) => {
                assert(v@[j] != c);
            },
        }
    }
    None
}

/// Whether the sequence holds the character.
pub fn seq_contains_char(v: &Vec<char>, c: char) -> (r: bool)
    ensures
        r == v@.contains(c),
{
    match find_char(v, c) {
        Some(u) => {
            proof {
                assert(v@[u as int] == c);
            }
            true
        },
        None => {
            proof {
                lemma_first_index_of(v@, c);
                if v@.contains(c) {
                    let k = choose|k: int| 0 <= k < v@.len() && v@[k] == c;
                    assert(v@[k] != c);
                }
            }
            false
        },
    }
}

/// What remains of `s` after dropping every leading character that
/// satisfies `p`.
pub open spec fn trim_start_by(s: Seq<char>, p: spec_fn(char) -> bool) -> Seq<char>
    decreases s.len(),
{
    if s.len() > 0 && p(s[0]) {
        trim_start_by(s.skip(1), p)
    } else {
        s
    }
}

/// What remains of `s` after dropping every trailing character that
/// satisfies `p`.
pub open spec fn trim_end_by(s: Seq<char>, p: spec_fn(char) -> bool) -> Seq<char>
    decreases s.len(),
{
    if s.len() > 0 && p(s.last()) {
        trim_end_by(s.drop_last(), p)
    } else {
        s
    }
}

/// `s` with every leading and trailing character satisfying `p` dropped.
pub open spec fn trim_by(s: Seq<char>, p: spec_fn(char) -> bool) -> Seq<char> {
    trim_end_by(trim_start_by(s, p), p)
}

/// When everything before `i` satisfies `p` and position `i` (if it
/// exists) does not, the start-trim is the suffix from `i`.
proof fn lemma_trim_start_at(s: Seq<char>, p: spec_fn(char) -> bool, i: int)
    requires
        0 <= i <= s.len(),
        forall|k: int| 0 <= k < i ==> p(s[k]),
        i == s.len() || !p(s[i]),
    ensures
        trim_start_by(s, p) == s.skip(i),
    decreases i,
{
    if i == 0 {
        assert(s.skip(0) =~= s);
    } else {
        assert(p(s[0]));
        lemma_trim_start_at(s.skip(1), p, i - 1);
        assert(forall|k: int| 0 <= k < s.len() - 1 ==> s.skip(1)[k] == s[k + 1]);
        assert(s.skip(1).skip(i - 1) =~= s.skip(i));
    }
}

/// When everything from `e` on satisfies `p` and position `e - 1` (if it
/// exists) does not, the end-trim is the prefix up to `e`.
proof fn lemma_trim_end_at(s: Seq<char>, p: spec_fn(char) -> bool, e: int)
    requires
        0 <= e <= s.len(),
        forall|k: int| e <= k < s.len() ==> p(s[k]),
        e == 0 || !p(s[e - 1]),
    ensures
        trim_end_by(s, p) == s.take(e),
    decreases s.len() - e,
{
    if e == s.len() {
        if s.len() == 0 || !p(s.last()) {
            assert(s.take(e) =~= s);
        } else {
            assert(!p(s[e - 1]));
            assert(s.take(e) =~= s);
        }
    } else {
        assert(p(s.last()));
        lemma_trim_end_at(s.drop_last(), p, e);
        assert(forall|k: int| 0 <= k < s.len() - 1 ==> s.drop_last()[k] == s[k]);
        assert(s.drop_last().take(e) =~= s.take(e));
    }
}

/// Which characters a trim drops.
pub enum TrimKind {
    Whitespace,
    DoubleQuote,
    SingleQuote,
}

/// The predicate a trim kind stands for.
pub open spec fn trim_pred(kind: TrimKind) -> spec_fn(char) -> bool {
    match kind {
        TrimKind::Whitespace => |c: char| is_ws(c),
        TrimKind::DoubleQuote => |c: char| c == '"',
        TrimKind::SingleQuote => |c: char| c == '\'',
    }
}

/// Whether a character is dropped by a trim kind.
fn trim_matches_kind(kind: &TrimKind, c: char) -> (r: bool)
    ensures
        r == trim_pred(*kind)(c),
{
    match kind {
        TrimKind::Whitespace => c == ' ' || c == '\t' || c == '\r' || c == '\n' || c == '\u{000B}'
            || c == '\u{000C}',
        TrimKind::DoubleQuote => c == '"',
        TrimKind::SingleQuote => c == '\'',
    }
}

/// Trim both ends of a character sequence by a kind.
pub fn trim_chars(v: &Vec<char>, kind: &TrimKind) -> (r: Vec<char>)
    ensures
        r@ == trim_by(v@, trim_pred(*kind)),
{
    let ghost p = trim_pred(*kind);
    let n = v.len();
    let mut i: usize = 0;
    while i < n && trim_matches_kind(kind, v[i])
        invariant
            p == trim_pred(*kind),
            n == v@.len(),
            i <= n,
            forall|k: int| 0 <= k < i ==> p(v@[k]),
        decreases n - i,
    {
        i = i + 1;
    }
    proof {
        lemma_trim_start_at(v@, p, i as int);
    }
    let mut e: usize = n;
    while e > i && trim_matches_kind(kind, v[e - 1])
        invariant
            p == trim_pred(*kind),
            n == v@.len(),
            i <= e <= n,
            forall|k: int| 0 <= k < i ==> p(v@[k]),
            i == n || !p(v@[i as int]),
            forall|k: int| e <= k < n ==> p(v@[k]),
        decreases e,
    {
        e = e - 1;
    }
    let r = subvec_chars(v, i, e);
    proof {
        let st = v@.skip(i as int);
        assert(forall|k: int| 0 <= k < st.len() ==> st[k] == v@[k + i]);
        lemma_trim_end_at(st, p, e - i);
        assert(st.take(e - i) =~= v@.subrange(i as int, e as int));
        if e > i {
            assert(!p(st[e - i - 1]));
        }
    }
    r
}

/// The lines of a text, split at every newline; a trailing newline yields
/// a final empty line, which the parser then ignores.
pub open spec fn split_lines(s: Seq<char>) -> Seq<Seq<char>>
    decreases s.len(),
{
    match first_index_of(s, '\n') {
        Option::None => seq![s],
        Option::Some(j) => if 0 <= j < s.len() {
            seq![s.take(j)] + split_lines(s.skip(j + 1))
        } else {
            seq![s]
        },
    }
}

/// Split a text into its lines.
pub fn split_lines_chars(v: &Vec<char>) -> (r: Vec<Vec<char>>)
    ensures
        r@.map_values(|l: Vec<char>| l@) == split_lines(v@),
{
    let mut out: Vec<Vec<char>> = Vec::new();
    let mut start: usize = 0;
    let mut p: usize = 0;
    let n = v.len();
    proof {
        assert(r_views(out@) =~= Seq::<Seq<char>>::empty());
        assert(v@.skip(0) =~= v@);
    }
    while p < n
        invariant
            n == v@.len(),
            start <= p <= n,
            forall|k: int| start <= k < p ==> v@[k] != '\n',
            split_lines(v@) == r_views(out@) + split_lines(v@.skip(start as int)),
        decreases n - p,
    {
        if v[p] == '\n' {
            let line = subvec_chars(v, start, p);
            let ghost before = r_views(out@);
            out.push(line);
            proof {
                let suffix = v@.skip(start as int);
                lemma_first_index_of(suffix, '\n');
                assert(forall|k: int| 0 <= k < suffix.len() ==> suffix[k] == v@[k + start]);
                match first_index_of(suffix, '\n') {
                    Option::None => {
                        assert(suffix[p - start] == '\n');
                    },
                    Option::Some(j) => {
                        if j < p - start {
                            assert(v@[j + start] != '\n');
                        }
                        if j > p - start {
                            assert(suffix[p - start] != '\n');
                        }
                        assert(j == p - start);
                    },
                }
                assert(suffix.take(p - start) =~= v@.subrange(start as int, p as int));
                assert(suffix.skip(p - start + 1) =~= v@.skip(p as int + 1));
                assert(r_views(out@) =~= before.push(v@.subrange(start as int, p as int)));
                assert(split_lines(suffix) == seq![v@.subrange(start as int, p as int)]
                    + split_lines(v@.skip(p as int + 1)));
                assert(r_views(out@) + split_lines(v@.skip(p as int + 1)) =~= (before + seq![
                    v@.subrange(start as int, p as int),
                ]) + split_lines(v@.skip(p as int + 1)));
                assert((before + seq![v@.subrange(start as int, p as int)]) + split_lines(
                    v@.skip(p as int + 1),
                ) =~= before + (seq![v@.subrange(start as int, p as int)] + split_lines(
                    v@.skip(p as int + 1),
                )));
            }
            start = p + 1;
        }
        p = p + 1;
    }
    let last = subvec_chars(v, start, n);
    let ghost before = r_views(out@);
    out.push(last);
    proof {
        let suffix = v@.skip(start as int);
        lemma_first_index_of(suffix, '\n');
        assert(forall|k: int| 0 <= k < suffix.len() ==> suffix[k] == v@[k + start]);
        match first_index_of(suffix, '\n') {
            Option::None => {},
            Option::Some(j) => {
                assert(v@[j + start] != '\n');
            },
        }
        assert(suffix =~= v@.subrange(start as int, n as int));
        assert(split_lines(suffix) == seq![suffix]);
        assert(r_views(out@) =~= before.push(v@.subrange(start as int, n as int)));
        assert(r_views(out@) =~= before + seq![suffix]);
    }
    out
}

/// The views of a list of character lines.
pub open spec fn r_views(v: Seq<Vec<char>>) -> Seq<Seq<char>> {
    v.map_values(|l: Vec<char>| l@)
}

/// Whether `sub` occurs contiguously inside `s`.
pub open spec fn contains_sub(s: Seq<char>, sub: Seq<char>) -> bool {
    exists|i: int|
        0 <= i && i + sub.len() <= s.len() && #[trigger] s.subrange(i, i + sub.len() as int) == sub
}

/// Search for a contiguous occurrence of `sub` inside `s`.
pub fn find_sub(s: &Vec<char>, sub: &Vec<char>) -> (r: bool)
    ensures
        r == contains_sub(s@, sub@),
{
    let m = sub.len();
    let n = s.len();
    if m > n {
        proof {
            if contains_sub(s@, sub@) {
                let i = choose|i: int|
                    0 <= i && i + sub@.len() <= s@.len() && #[trigger] s@.subrange(
                        i,
                        i + sub@.len() as int,
                    ) == sub@;
            }
        }
        return false;
    }
    if m == 0 {
        proof {
            assert(s@.subrange(0, 0 + sub@.len() as int) =~= sub@);
        }
        return true;
    }
    let mut i: usize = 0;
    while i <= n - m
        invariant
            m == sub@.len(),
            n == s@.len(),
            1 <= m <= n,
            i <= n - m + 1,
            forall|k: int| 0 <= k < i ==> #[trigger] s@.subrange(k, k + sub@.len() as int) != sub@,
        decreases n - i,
    {
        let mut j: usize = 0;
        let mut matched = true;
        while j < m && matched
            invariant
                m == sub@.len(),
                n == s@.len(),
                i + m <= n,
                j <= m,
                matched ==> forall|k: int| 0 <= k < j ==> s@[i + k] == sub@[k],
                !matched ==> s@.subrange(i as int, i as int + sub@.len() as int) != sub@,
            decreases m - j + (if matched {
                1int
            } else {
                0int
            }),
        {
            if s[i + j] != sub[j] {
                matched = false;
                proof {
                    assert(s@.subrange(i as int, i as int + sub@.len() as int)[j as int]
                        != sub@[j as int]);
                }
            } else {
                j = j + 1;
            }
        }
        if matched {
            proof {
                assert(s@.subrange(i as int, i as int + sub@.len() as int) =~= sub@);
            }
            return true;
        }
        proof {
            assert(s@.subrange(i as int, i as int + sub@.len() as int) != sub@);
        }
        i = i + 1;
    }
    proof {
        if contains_sub(s@, sub@) {
            let k = choose|k: int|
                0 <= k && k + sub@.len() <= s@.len() && #[trigger] s@.subrange(
                    k,
                    k + sub@.len() as int,
                ) == sub@;
            assert(s@.subrange(k, k + sub@.len() as int) != sub@);
        }
    }
    false
}

/// The text after the first `=` up to the second `=` or the end — what
/// taking the second piece of an `=`-split yields — or nothing when the
/// line holds no `=` at all.
pub open spec fn second_eq_part(s: Seq<char>) -> Option<Seq<char>> {
    match first_index_of(s, '=') {
        Option::None => Option::<Seq<char>>::None,
        Option::Some(j) => {
            let rest = s.skip(j + 1);
            match first_index_of(rest, '=') {
                Option::None => Option::Some(rest),
                Option::Some(k) => Option::Some(rest.take(k)),
            }
        },
    }
}

/// Extract the second piece of an `=`-split.
fn second_eq_part_chars(v: &Vec<char>) -> (r: Option<Vec<char>>)
    ensures
        r is None <==> second_eq_part(v@) is None,
        r matches Some(part) ==> second_eq_part(v@) == Option::Some(part@),
{
    let j = match find_char(v, '=') {
        None => {
            return None;
        },
        Some(j) => j,
    };
    let n = v.len();
    let rest = subvec_chars(v, j + 1, n);
    match find_char(&rest, '=') {
        None => {
            proof {
                assert(rest@ =~= v@.skip(j as int + 1));
            }
            Some(rest)
        },
        Some(k) => {
            let part = subvec_chars(&rest, 0, k);
            proof {
                assert(rest@ =~= v@.skip(j as int + 1));
                assert(part@ =~= v@.skip(j as int + 1).take(k as int));
            }
            Some(part)
        },
    }
}

/// Whether two character vectors hold the same characters.
pub fn vec_eq(a: &Vec<char>, b: &Vec<char>) -> (r: bool)
    ensures
        r == (a@ == b@),
{
    if a.len() != b.len() {
        return false;
    }
    let mut i: usize = 0;
    while i < a.len()
        invariant
            a@.len() == b@.len(),
            i <= a@.len(),
            forall|k: int| 0 <= k < i ==> a@[k] == b@[k],
        decreases a@.len() - i,
    {
        if a[i] != b[i] {
            return false;
        }
        i = i + 1;
    }
    proof {
        assert(a@ =~= b@);
    }
    true
}

/// Whether `prefix` begins `s`.
pub fn vec_starts_with(s: &Vec<char>, prefix: &Vec<char>) -> (r: bool)
    ensures
        r == prefix@.is_prefix_of(s@),
{
    if prefix.len() > s.len() {
        return false;
    }
    let mut i: usize = 0;
    while i < prefix.len()
        invariant
            prefix@.len() <= s@.len(),
            i <= prefix@.len(),
            forall|k: int| 0 <= k < i ==> s@[k] == prefix@[k],
        decreases prefix@.len() - i,
    {
        if s[i] != prefix[i] {
            return false;
        }
        i = i + 1;
    }
    proof {
        assert(s@.subrange(0, prefix@.len() as int) =~= prefix@);
    }
    true
}

/// Whether `suffix` ends `s`.
pub fn vec_ends_with(s: &Vec<char>, suffix: &Vec<char>) -> (r: bool)
    ensures
        r == suffix@.is_suffix_of(s@),
{
    if suffix.len() > s.len() {
        return false;
    }
    let ns: usize = s.len();
    let base: usize = ns - suffix.len();
    let mut i: usize = 0;
    while i < suffix.len()
        invariant
            suffix@.len() <= s@.len(),
            ns == s@.len(),
            base == s@.len() - suffix@.len(),
            i <= suffix@.len(),
            forall|k: int| 0 <= k < i ==> s@[base + k] == suffix@[k],
        decreases suffix@.len() - i,
    {
        if s[base + i] != suffix[i] {
            return false;
        }
        i = i + 1;
    }
    proof {
        assert(s@.subrange(s@.len() - suffix@.len(), s@.len() as int) =~= suffix@);
    }
    true
}

/// Drop whitespace around a sequence.
pub open spec fn ws_trim(s: Seq<char>) -> Seq<char> {
    trim_by(s, |c: char| is_ws(c))
}

/// What one `kdc =` line yields: the second piece of its `=`-split,
/// whitespace-trimmed, then stripped of surrounding double and single
/// quotes.
pub open spec fn kdc_value_of(l: Seq<char>) -> Option<Seq<char>> {
    match second_eq_part(l) {
        Option::None => Option::<Seq<char>>::None,
        Option::Some(part) => Option::Some(
            trim_by(trim_by(ws_trim(part), |c: char| c == '"'), |c: char| c == '\''),
        ),
    }
}

/// Whether a trimmed line is a section header, `[ ... ]`.
pub open spec fn is_section_header(l: Seq<char>) -> bool {
    l.len() > 0 && l[0] == '[' && l.last() == ']'
}

/// Whether a section header opens a realms section: its name is `realms`
/// or ends in `realms`.
pub open spec fn opens_realms(l: Seq<char>) -> bool {
    let section = ws_trim(l.subrange(1, l.len() - 1));
    section == "realms"@ || "realms"@.is_suffix_of(section)
}

/// Whether a trimmed line starts the block of the given realm: the realm
/// name followed by `=`, with or without a space before it.
pub open spec fn starts_realm(l: Seq<char>, realm: Seq<char>) -> bool {
    (realm + " ="@).is_prefix_of(l) || (realm + "="@).is_prefix_of(l)
}

/// Whether a trimmed line names a KDC: it starts with `kdc` or contains
/// `kdc =`.
pub open spec fn names_kdc(l: Seq<char>) -> bool {
    "kdc"@.is_prefix_of(l) || contains_sub(l, "kdc ="@)
}

/// The KDC a `krb5.conf` names for a realm, line by line: section headers
/// switch whether a realms section is open; inside one, a line starting
/// the realm's block arms the search, a closing brace disarms it, and the
/// first armed `kdc` line with a nonempty value after its `=` decides. The
/// line state carries across sections exactly as the scan does: only the
/// realms flag is recomputed at each header.
pub open spec fn kdc_of_lines(
    lines: Seq<Seq<char>>,
    realm: Seq<char>,
    in_realms: bool,
    current: bool,
) -> Option<Seq<char>>
    decreases lines.len(),
{
    if lines.len() == 0 {
        Option::<Seq<char>>::None
    } else {
        let l = ws_trim(lines[0]);
        let rest = lines.skip(1);
        if is_section_header(l) {
            kdc_of_lines(rest, realm, opens_realms(l), current)
        } else if !in_realms {
            kdc_of_lines(rest, realm, in_realms, current)
        } else if starts_realm(l, realm) {
            kdc_of_lines(rest, realm, in_realms, true)
        } else if current {
            if l.contains('{') {
                kdc_of_lines(rest, realm, in_realms, current)
            } else if l.contains('}') {
                kdc_of_lines(rest, realm, in_realms, false)
            } else if names_kdc(l) {
                match kdc_value_of(l) {
                    Option::None => kdc_of_lines(rest, realm, in_realms, current),
                    Option::Some(value) => if value.len() > 0 {
                        Option::Some(value)
                    } else {
                        kdc_of_lines(rest, realm, in_realms, current)
                    },
                }
            } else {
                kdc_of_lines(rest, realm, in_realms, current)
            }
        } else {
            kdc_of_lines(rest, realm, in_realms, current)
        }
    }
}

/// Scan a Kerberos configuration for the KDC of a realm: the first KDC
/// named inside the realm's block of a realms section, if any.
pub fn parse_krb5_conf_for_kdc(config_content: &str, realm: &str) -> (r: Option<String>)
    ensures
        r is None <==> kdc_of_lines(split_lines(config_content@), realm@, false, false) is None,
        r matches Some(s) ==> kdc_of_lines(split_lines(config_content@), realm@, false, false)
            == Option::Some(s@),
{
    let chars = chars_of(config_content);
    let lines = split_lines_chars(&chars);
    let realm_chars = chars_of(realm);
    let mut realm_sp_eq = chars_of(realm);
    realm_sp_eq.push(' ');
    realm_sp_eq.push('=');
    let mut realm_eq = chars_of(realm);
    realm_eq.push('=');
    proof {
        reveal_strlit(" =");
        reveal_strlit("=");
        assert(realm_sp_eq@ =~= realm@ + " ="@);
        assert(realm_eq@ =~= realm@ + "="@);
    }
    let kdc_lit = chars_of("kdc");
    let kdc_eq_lit = chars_of("kdc =");
    let realms_lit = chars_of("realms");
    let ghost all = split_lines(config_content@);
    proof {
        assert(all.skip(0) =~= all);
    }
    let mut in_realms = false;
    let mut current = false;
    let mut i: usize = 0;
    let n = lines.len();
    while i < n
        invariant
            n == lines@.len(),
            i <= n,
            all == split_lines(config_content@),
            r_views(lines@) == all,
            realm_chars@ == realm@,
            realm_sp_eq@ == realm@ + " ="@,
            realm_eq@ == realm@ + "="@,
            kdc_lit@ == "kdc"@,
            kdc_eq_lit@ == "kdc ="@,
            realms_lit@ == "realms"@,
            kdc_of_lines(all, realm@, false, false) == kdc_of_lines(
                all.skip(i as int),
                realm@,
                in_realms,
                current,
            ),
        decreases n - i,
    {
        let ghost suffix = all.skip(i as int);
        proof {
            assert(suffix[0] == all[i as int]);
            assert(all[i as int] == lines@[i as int]@);
            assert(suffix.skip(1) =~= all.skip(i as int + 1));
        }
        let l = trim_chars(&lines[i], &TrimKind::Whitespace);
        proof {
            assert(l@ == ws_trim(all[i as int]));
        }
        let llen = l.len();
        let is_header = llen > 0 && l[0] == '[' && l[llen - 1] == ']';
        proof {
            assert(is_header == is_section_header(l@));
        }
        if is_header {
            let inner = subvec_chars(&l, 1, llen - 1);
            let section = trim_chars(&inner, &TrimKind::Whitespace);
            proof {
                assert(inner@ =~= l@.subrange(1, l@.len() - 1));
            }
            in_realms = vec_eq(&section, &realms_lit) || vec_ends_with(&section, &realms_lit);
            proof {
                assert(in_realms == opens_realms(l@));
            }
        } else if !in_realms {
        } else if vec_starts_with(&l, &realm_sp_eq) || vec_starts_with(&l, &realm_eq) {
            current = true;
        } else if current {
            if seq_contains_char(&l, '{') {
            } else if seq_contains_char(&l, '}') {
                current = false;
            } else if vec_starts_with(&l, &kdc_lit) || find_sub(&l, &kdc_eq_lit) {
                match second_eq_part_chars(&l) {
                    None => {},
                    Some(part) => {
                        let v1 = trim_chars(&part, &TrimKind::Whitespace);
                        let v2 = trim_chars(&v1, &TrimKind::DoubleQuote);
                        let value = trim_chars(&v2, &TrimKind::SingleQuote);
                        proof {
                            assert(kdc_value_of(l@) == Option::Some(value@));
                        }
                        if value.len() > 0 {
                            proof {
                                assert(names_kdc(l@));
                                assert(kdc_of_lines(suffix, realm@, in_realms, current)
                                    == Option::Some(value@));
                            }
                            return Some(string_from_chars(&value));
                        }
                    },
                }
            }
        }
        proof {
            assert(kdc_of_lines(all, realm@, false, false) == kdc_of_lines(
                all.skip(i as int + 1),
                realm@,
                in_realms,
                current,
            ));
        }
        i = i + 1;
    }
    None
}

/// The string value of a top-level field of a JSON object given in text
/// form, if the text parses as JSON, holds the key, and the value is a
/// string: a function of the text and key alone.
pub uninterp spec fn json_string_field(text: Seq<char>, key: Seq<char>) -> Option<Seq<char>>;

/// Relies on `serde_json::from_str`, `serde_json::Value::get` and
/// `serde_json::Value::as_str`: parsing the text and reading the named
/// field depends on the text and the key alone.
#[verifier::external_body]
pub(crate) fn json_lookup_string(text: &str, key: &str) -> (r: Option<String>)
    ensures
        r is None <==> json_string_field(text@, key@) is None,
        r matches Some(s) ==> json_string_field(text@, key@) == Option::Some(s@),
{
    match serde_json::from_str::<serde_json::Value>(text) {
        Ok(value) => match value.get(key) {
            Some(field) => field.as_str().map(|s| s.to_string()),
            None => None,
        },
        Err(_) => None,
    }
}

/// The part of a principal before its first `@`, or the whole principal
/// when it has none.
pub open spec fn principal_user(p: Seq<char>) -> Seq<char> {
    match first_index_of(p, '@') {
        Option::None => p,
        Option::Some(j) => p.take(j),
    }
}

/// The user name a stored configuration names: the part before the `@` of
/// its Kerberos principal field, when the configuration's JSON holds one.
pub fn username_of_config(hdfs_config: &str) -> (r: Option<String>)
    ensures
        r is None <==> json_string_field(hdfs_config@, "dfs.namenode.kerberos.principal"@) is None,
        r matches Some(u) ==> (json_string_field(
            hdfs_config@,
            "dfs.namenode.kerberos.principal"@,
        ) matches Some(p) && u@ == principal_user(p)),
{
    match json_lookup_string(hdfs_config, "dfs.namenode.kerberos.principal") {
        None => None,
        Some(principal) => {
            let v = chars_of(principal.as_str());
            let user = match find_char(&v, '@') {
                None => subvec_chars(&v, 0, v.len()),
                Some(j) => subvec_chars(&v, 0, j),
            };
            proof {
                match first_index_of(v@, '@') {
                    Option::None => {
                        assert(user@ =~= v@);
                    },
                    Option::Some(j) => {
                        assert(user@ =~= v@.take(j));
                    },
                }
            }
            Some(string_from_chars(&user))
        },
    }
}

/// How many times a character occurs.
pub open spec fn count_char(s: Seq<char>, c: char) -> nat
    decreases s.len(),
{
    if s.len() == 0 {
        0
    } else {
        count_char(s.drop_last(), c) + (if s.last() == c {
            1nat
        } else {
            0nat
        })
    }
}

/// Split a principal into user and realm at its `@`. A principal must hold
/// exactly one `@`; any other shape is rejected.
pub fn split_principal(principal: &str) -> (r: Result<(String, String), String>)
    ensures
        r is Ok <==> count_char(principal@, '@') == 1,
        r matches Ok(parts) ==> (first_index_of(principal@, '@') matches Some(j) && parts.0@
            == principal@.take(j) && parts.1@ == principal@.skip(j + 1)),
{
    let v = chars_of(principal);
    let n = v.len();
    let mut count: usize = 0;
    let mut first: Option<usize> = None;
    let mut i: usize = 0;
    while i < n
        invariant
            n == v@.len(),
            i <= n,
            count == count_char(v@.take(i as int), '@'),
            count <= i,
            first is None <==> count == 0,
            (first matches Some(u) ==> first_index_of(v@, '@') == Option::Some(u as int) && u < i),
            count == 0 ==> forall|k: int| 0 <= k < i ==> v@[k] != '@',
        decreases n - i,
    {
        proof {
            assert(v@.take(i as int + 1).drop_last() =~= v@.take(i as int));
            assert(v@.take(i as int + 1).last() == v@[i as int]);
        }
        if v[i] == '@' {
            if first.is_none() {
                proof {
                    lemma_first_index_of(v@, '@');
                    match first_index_of(v@, '@') {
                        Option::None => {
                            assert(v@[i as int] != '@');
                        },
                        Option::Some(j) => {
                            if j < i {
                                assert(v@[j] != '@');
                            }
                            if j > i {
                                assert(v@[i as int] != '@');
                            }
                        },
                    }
                }
                first = Some(i);
            }
            count = count + 1;
        }
        i = i + 1;
    }
    proof {
        assert(v@.take(n as int) =~= v@);
    }
    if count == 1 {
        let j = match first {
            Some(j) => j,
            None => {
                proof {
                    assert(false);
                }
                0
            },
        };
        let user = subvec_chars(&v, 0, j);
        let realm = subvec_chars(&v, j + 1, n);
        proof {
            assert(user@ =~= v@.take(j as int));
            assert(realm@ =~= v@.skip(j as int + 1));
        }
        Ok((string_from_chars(&user), string_from_chars(&realm)))
    } else {
        Err("Principal must be in format username@REALM".to_owned())
    }
}

/// One entry of a parsed keytab, reduced to the plain values the key
/// selection reads: the realm, the principal's name components, the key
/// type number and the key bytes.
pub struct KeytabEntry {
    pub realm: String,
    pub components: Vec<String>,
    pub keytype: u32,
    pub keyvalue: Vec<u8>,
}

/// The components joined with `/`.
pub open spec fn join_components(parts: Seq<Seq<char>>) -> Seq<char>
    decreases parts.len(),
{
    if parts.len() == 0 {
        Seq::empty()
    } else if parts.len() == 1 {
        parts[0]
    } else {
        join_components(parts.drop_last()) + seq!['/'] + parts.last()
    }
}

/// The principal an entry names: its components joined with `/`, then `@`
/// and the realm.
pub open spec fn principal_of_entry(e: KeytabEntry) -> Seq<char> {
    join_components(e.components@.map_values(|c: String| c@)) + seq!['@'] + e.realm@
}

/// A key type number the credential flow supports: AES128, AES256 or
/// RC4-HMAC.
pub open spec fn supported_keytype(t: u32) -> bool {
    t == 17 || t == 18 || t == 23
}

/// Render an entry's principal.
fn principal_string(e: &KeytabEntry) -> (r: String)
    ensures
        r@ == principal_of_entry(*e),
{
    let ghost views = e.components@.map_values(|c: String| c@);
    let mut joined: Vec<char> = Vec::new();
    let mut i: usize = 0;
    while i < e.components.len()
        invariant
            views == e.components@.map_values(|c: String| c@),
            i <= e.components@.len(),
            joined@ == join_components(views.take(i as int)),
        decreases e.components@.len() - i,
    {
        let ghost before = joined@;
        if i > 0 {
            joined.push('/');
        }
        let part = chars_of(e.components[i].as_str());
        let ghost pv = part@;
        let mut part2 = part;
        joined.append(&mut part2);
        i = i + 1;
        proof {
            assert(views.take(i as int).drop_last() =~= views.take(i as int - 1));
            assert(views.take(i as int).last() == views[i as int - 1]);
            if i == 1 {
                assert(joined@ =~= pv);
                assert(join_components(views.take(1)) == views.take(1)[0]);
            } else {
                assert(joined@ =~= before + seq!['/'] + pv);
            }
            assert(joined@ =~= join_components(views.take(i as int)));
        }
    }
    proof {
        assert(views.take(e.components@.len() as int) =~= views);
    }
    joined.push('@');
    let realm = chars_of(e.realm.as_str());
    let ghost rv = realm@;
    let mut realm2 = realm;
    joined.append(&mut realm2);
    proof {
        assert(joined@ =~= join_components(views) + seq!['@'] + rv);
    }
    string_from_chars(&joined)
}

/// The index of the first keytab entry naming the principal.
pub open spec fn first_entry_match(entries: Seq<KeytabEntry>, principal: Seq<char>) -> Option<
    int,
>
    decreases entries.len(),
{
    if entries.len() == 0 {
        Option::<int>::None
    } else if principal_of_entry(entries[0]) == principal {
        Option::Some(0)
    } else {
        match first_entry_match(entries.skip(1), principal) {
            Option::None => Option::<int>::None,
            Option::Some(j) => Option::Some(j + 1),
        }
    }
}

/// Select the key for a principal from a parsed keytab: the first entry
/// whose principal matches decides — its key type and key bytes are
/// returned when the type is supported, and an unsupported type on that
/// entry is an error, as is a keytab with no matching entry.
pub fn select_keytab_key(entries: &Vec<KeytabEntry>, principal: &str) -> (r: Result<
    (u32, Vec<u8>),
    String,
>)
    ensures
        (r is Ok <==> (first_entry_match(entries@, principal@) matches Some(j)
            && supported_keytype(entries@[j].keytype))),
        r matches Ok(key) ==> (first_entry_match(entries@, principal@) matches Some(j)
            && key.0 == entries@[j].keytype && key.1@ == entries@[j].keyvalue@),
{
    let mut i: usize = 0;
    let n = entries.len();
    proof {
        assert(entries@.skip(0) =~= entries@);
    }
    while i < n
        invariant
            n == entries@.len(),
            i <= n,
            first_entry_match(entries@, principal@) == match first_entry_match(
                entries@.skip(i as int),
                principal@,
            ) {
                Option::None => Option::<int>::None,
                Option::Some(j) => Option::Some(j + i),
            },
        decreases n - i,
    {
        let ghost suffix = entries@.skip(i as int);
        proof {
            assert(suffix[0] == entries@[i as int]);
            assert(suffix.skip(1) =~= entries@.skip(i as int + 1));
        }
        let p = principal_string(&entries[i]);
        if crate::paths::str_eq(p.as_str(), principal) {
            let t = entries[i].keytype;
            if t == 17 || t == 18 || t == 23 {
                let key = crate::download::clone_bytes(&entries[i].keyvalue);
                return Ok((t, key));
            } else {
                return Err("unsupported key type in keytab entry".to_owned());
            }
        }
        i = i + 1;
    }
    Err("principal not found in keytab".to_owned())
}

} // verus!
