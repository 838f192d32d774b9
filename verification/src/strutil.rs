//! String and path helpers.  Paths are modelled as strings whose components
//! are separated by `/`; the logical name of a file is its final component
//! with the platform launcher suffix stripped.

use vstd::prelude::*;
use vstd::string::*;

verus! {

/// Index of the last `/` in `p`, or `-1` when there is none.
pub open spec fn last_sep(p: Seq<char>) -> int
    decreases p.len(),
{
    if p.len() == 0 {
        -1
    } else if p[p.len() - 1] == '/' {
        p.len() - 1
    } else {
        last_sep(p.drop_last())
    }
}

/// The final component of a path: everything after the last `/`.
pub open spec fn base_name_spec(p: Seq<char>) -> Seq<char> {
    p.subrange(last_sep(p) + 1, p.len() as int)
}

pub proof fn lemma_last_sep_locate(p: Seq<char>, k: int)
    requires
        -1 <= k < p.len(),
        k >= 0 ==> p[k] == '/',
        forall|j: int| k < j < p.len() ==> p[j] != '/',
    ensures
        last_sep(p) == k,
    decreases p.len(),
{
    if p.len() == 0 {
    } else if p[p.len() - 1] == '/' {
        assert(k == p.len() - 1);
    } else {
        assert(k < p.len() - 1);
        lemma_last_sep_locate(p.drop_last(), k);
    }
}

/// Executable form of [`base_name_spec`].
pub fn base_name(p: &str) -> (r: String)
    ensures
        r@ == base_name_spec(p@),
{
    let n = p.unicode_len();
    let mut i: usize = n;
    while i > 0 && p.get_char(i - 1) != '/'
        invariant
            n == p@.len(),
            i <= n,
            forall|j: int| i <= j < n ==> p@[j] != '/',
        decreases i,
    {
        i -= 1;
    }
    proof {
        lemma_last_sep_locate(p@, i - 1);
    }
    let r = p.substring_char(i, n);
    r.to_owned()
}

/// Character-wise equality of two string slices.
pub fn str_eq(a: &str, b: &str) -> (r: bool)
    ensures
        r == (a@ == b@),
{
    let n = a.unicode_len();
    let m = b.unicode_len();
    if n != m {
        return false;
    }
    let mut i: usize = 0;
    while i < n
        invariant
            n == a@.len(),
            n == b@.len(),
            i <= n,
            forall|j: int| 0 <= j < i ==> a@[j] == b@[j],
        decreases n - i,
    {
        if a.get_char(i) != b.get_char(i) {
            return false;
        }
        i += 1;
    }
    proof {
        assert(a@ =~= b@);
    }
    true
}

/// `suf` is a suffix of `p`.
pub open spec fn ends_with_spec(p: Seq<char>, suf: Seq<char>) -> bool {
    p.len() >= suf.len() && p.skip(p.len() - suf.len()) == suf
}

pub fn str_ends_with(p: &str, suf: &str) -> (r: bool)
    ensures
        r == ends_with_spec(p@, suf@),
{
    let n = p.unicode_len();
    let m = suf.unicode_len();
    if m > n {
        return false;
    }
    let mut j: usize = 0;
    while j < m
        invariant
            n == p@.len(),
            m == suf@.len(),
            m <= n,
            j <= m,
            forall|t: int| 0 <= t < j ==> p@[n - m + t] == suf@[t],
        decreases m - j,
    {
        if p.get_char(n - m + j) != suf.get_char(j) {
            proof {
                assert(p@.skip(n - m as int)[j as int] != suf@[j as int]);
            }
            return false;
        }
        j += 1;
    }
    proof {
        assert(p@.skip(n - m as int) =~= suf@);
    }
    true
}

/// `p` without the suffix `suf` when it ends with it, unchanged otherwise.
pub open spec fn strip_suffix_spec(p: Seq<char>, suf: Seq<char>) -> Seq<char> {
    if ends_with_spec(p, suf) {
        p.take(p.len() - suf.len())
    } else {
        p
    }
}

pub fn strip_suffix(p: &str, suf: &str) -> (r: String)
    ensures
        r@ == strip_suffix_spec(p@, suf@),
{
    if str_ends_with(p, suf) {
        let n = p.unicode_len();
        let m = suf.unicode_len();
        let r = p.substring_char(0, n - m);
        proof {
            assert(p@.subrange(0, n - m as int) =~= p@.take(p@.len() - suf@.len()));
        }
        r.to_owned()
    } else {
        p.to_owned()
    }
}

/// `dir` and `name` joined with a single `/`.
pub open spec fn join_spec(dir: Seq<char>, name: Seq<char>) -> Seq<char> {
    dir + seq!['/'] + name
}

pub fn path_join(dir: &str, name: &str) -> (r: String)
    ensures
        r@ == join_spec(dir@, name@),
{
    let mut s = dir.to_owned();
    s.append("/");
    s.append(name);
    proof {
        reveal_strlit("/");
        assert(s@ =~= join_spec(dir@, name@));
    }
    s
}

/// Three pieces of text, concatenated.
pub fn cat3(a: &str, b: &str, c: &str) -> (r: String)
    ensures
        r@ == a@ + b@ + c@,
{
    let s = a.to_owned();
    let s = s.concat(b);
    let s = s.concat(c);
    s
}

/// Five pieces of text, concatenated.
pub fn cat5(a: &str, b: &str, c: &str, d: &str, e: &str) -> (r: String)
    ensures
        r@ == a@ + b@ + c@ + d@ + e@,
{
    let s = a.to_owned();
    let s = s.concat(b);
    let s = s.concat(c);
    let s = s.concat(d);
    let s = s.concat(e);
    s
}

/// Seven pieces of text, concatenated.
pub fn cat7(a: &str, b: &str, c: &str, d: &str, e: &str, f: &str, g: &str) -> (r: String)
    ensures
        r@ == a@ + b@ + c@ + d@ + e@ + f@ + g@,
{
    let s = a.to_owned();
    let s = s.concat(b);
    let s = s.concat(c);
    let s = s.concat(d);
    let s = s.concat(e);
    let s = s.concat(f);
    let s = s.concat(g);
    s
}

/// `p` lies under the directory `dir`: it is `dir` itself, or `dir`
/// followed by `/` and more.
pub open spec fn path_under_spec(p: Seq<char>, dir: Seq<char>) -> bool {
    (p.len() == dir.len() && p == dir) || (p.len() > dir.len() && p.take(dir.len() as int) == dir
        && p[dir.len() as int] == '/')
}

pub fn path_under(p: &str, dir: &str) -> (r: bool)
    ensures
        r == path_under_spec(p@, dir@),
{
    let n = p.unicode_len();
    let m = dir.unicode_len();
    if m > n {
        return false;
    }
    let mut j: usize = 0;
    while j < m
        invariant
            n == p@.len(),
            m == dir@.len(),
            m <= n,
            j <= m,
            forall|t: int| 0 <= t < j ==> p@[t] == dir@[t],
        decreases m - j,
    {
        if p.get_char(j) != dir.get_char(j) {
            proof {
                assert(p@.take(m as int)[j as int] != dir@[j as int]);
                assert(p@ == dir@ ==> p@[j as int] == dir@[j as int]);
            }
            return false;
        }
        j += 1;
    }
    if n == m {
        proof {
            assert(p@ =~= dir@);
        }
        true
    } else {
        let r = p.get_char(m) == '/';
        proof {
            assert(p@.take(m as int) =~= dir@);
            assert(p@ != dir@) by {
                assert(p@.len() != dir@.len());
            }
        }
        r
    }
}

/// The platform launcher suffix for script files: `.bat` on Windows, none
/// elsewhere.
pub open spec fn bat_suffix() -> Seq<char> {
    seq!['.', 'b', 'a', 't']
}

/// The native executable suffix on Windows.
pub open spec fn exe_suffix() -> Seq<char> {
    seq!['.', 'e', 'x', 'e']
}

/// Strips at most one platform launcher suffix (`.bat` or `.exe` on Windows,
/// nothing elsewhere) from a file name.
pub open spec fn launcher_stripped_spec(name: Seq<char>, windows: bool) -> Seq<char> {
    if !windows {
        name
    } else if ends_with_spec(name, bat_suffix()) {
        name.take(name.len() - 4)
    } else if ends_with_spec(name, exe_suffix()) {
        name.take(name.len() - 4)
    } else {
        name
    }
}

/// The file-name-derived logical name of a path: its final component with
/// the platform launcher suffix stripped.
pub open spec fn derived_name_spec(p: Seq<char>, windows: bool) -> Seq<char> {
    launcher_stripped_spec(base_name_spec(p), windows)
}

/// Executable form of [`derived_name_spec`].
pub fn derived_name(p: &str, windows: bool) -> (r: String)
    ensures
        r@ == derived_name_spec(p@, windows),
{
    let base = base_name(p);
    if !windows {
        base
    } else {
        proof {
            reveal_strlit(".bat");
            reveal_strlit(".exe");
            assert(".bat"@ =~= bat_suffix());
            assert(".exe"@ =~= exe_suffix());
        }
        if str_ends_with(base.as_str(), ".bat") {
            strip_suffix(base.as_str(), ".bat")
        } else {
            strip_suffix(base.as_str(), ".exe")
        }
    }
}

/// `sub` occurs contiguously inside `s`.
pub open spec fn contains_sub_spec(s: Seq<char>, sub: Seq<char>) -> bool {
    exists|i: int|
        0 <= i <= s.len() - sub.len() && #[trigger] s.subrange(i, i + sub.len()) == sub
}

fn matches_at(s: &str, sub: &str, i: usize) -> (r: bool)
    requires
        i + sub@.len() <= s@.len(),
        s@.len() <= usize::MAX,
    ensures
        r == (s@.subrange(i as int, i + sub@.len()) == sub@),
{
    let m = sub.unicode_len();
    let mut j: usize = 0;
    while j < m
        invariant
            m == sub@.len(),
            i + m <= s@.len(),
            s@.len() <= usize::MAX,
            j <= m,
            forall|t: int| 0 <= t < j ==> s@[i + t] == sub@[t],
        decreases m - j,
    {
        if s.get_char(i + j) != sub.get_char(j) {
            proof {
                assert(s@.subrange(i as int, i + sub@.len())[j as int] != sub@[j as int]);
            }
            return false;
        }
        j += 1;
    }
    proof {
        assert(s@.subrange(i as int, i + sub@.len()) =~= sub@);
    }
    true
}

pub fn str_contains(s: &str, sub: &str) -> (r: bool)
    ensures
        r == contains_sub_spec(s@, sub@),
{
    let n = s.unicode_len();
    let m = sub.unicode_len();
    if m > n {
        return false;
    }
    if m == 0 {
        proof {
            assert(s@.subrange(0, 0 + sub@.len() as int) =~= sub@);
        }
        return true;
    }
    let mut i: usize = 0;
    while i <= n - m
        invariant
            n == s@.len(),
            m == sub@.len(),
            1 <= m <= n,
            i <= n - m + 1,
            forall|t: int| 0 <= t < i ==> #[trigger] s@.subrange(t, t + m as int) != sub@,
        decreases n - i,
    {
        if matches_at(s, sub, i) {
            return true;
        }
        i += 1;
    }
    false
}

/// The character sequences behind a sequence of strings.
pub open spec fn views_of_strings(s: Seq<String>) -> Seq<Seq<char>> {
    s.map_values(|x: String| x@)
}

pub proof fn lemma_views_push(s: Seq<String>, x: String)
    ensures
        views_of_strings(s.push(x)) == views_of_strings(s).push(x@),
{
    assert(views_of_strings(s.push(x)) =~= views_of_strings(s).push(x@));
}

pub proof fn lemma_views_concat(a: Seq<String>, b: Seq<String>)
    ensures
        views_of_strings(a + b) == views_of_strings(a) + views_of_strings(b),
{
    assert(views_of_strings(a + b) =~= views_of_strings(a) + views_of_strings(b));
}

/// Joining a separator-free name onto a directory and taking the base name
/// gives the name back; this is what keeps script creation and
/// name-derivation consistent with each other.
pub proof fn lemma_base_name_of_join(dir: Seq<char>, name: Seq<char>)
    requires
        forall|j: int| 0 <= j < name.len() ==> name[j] != '/',
    ensures
        base_name_spec(join_spec(dir, name)) == name,
{
    let p = join_spec(dir, name);
    assert(p[dir.len() as int] == '/');
    assert(forall|j: int| dir.len() < j < p.len() ==> p[j] == name[j - dir.len() - 1] && p[j]
        != '/');
    lemma_last_sep_locate(p, dir.len() as int);
    assert(p.subrange(dir.len() as int + 1, p.len() as int) =~= name);
}

} // verus!
