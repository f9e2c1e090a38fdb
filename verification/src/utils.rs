//! Which files an analysis takes: TypeScript sources outside excluded directories and
//! not matched by an exclusion glob.  Walking the file system is left to the caller,
//! which hands over names and paths.
use crate::strset::{contains_str, views};
use crate::syntax::names;
use crate::text::{chars_of, str_in};
use vstd::prelude::*;

verus! {

/// Directory and file names excluded by default.
pub open spec fn default_exclude_names() -> Seq<Seq<char>> {
    seq!["node_modules"@, ".git"@, "dist"@, "build"@, "coverage"@, ".next"@, "__pycache__"@]
}

/// The names excluded by default.
pub fn default_excludes() -> (r: [&'static str; 7])
    ensures
        names(r@) == default_exclude_names(),
{
    let r = ["node_modules", ".git", "dist", "build", "coverage", ".next", "__pycache__"];
    proof {
        assert(names(r@) =~= default_exclude_names());
    }
    r
}

/// A path component (or file name) named `name` is excluded.
pub open spec fn excluded_name(name: Seq<char>, extra: Seq<Seq<char>>) -> bool {
    default_exclude_names().contains(name) || extra.contains(name)
}

/// `true` when `name` is a default exclusion or one of `extra`.
pub fn is_excluded_name(name: &str, extra: &Vec<String>) -> (r: bool)
    ensures
        r == excluded_name(name@, views(extra@)),
{
    let defaults = default_excludes();
    str_in(name, &defaults) || contains_str(extra, name)
}

/// `pattern` matches all of `s`, as a glob: `?` stands for one character other than
/// `/`, `*` for any run of characters without `/`, `**` for any run of characters,
/// `**/` also for nothing at all (any number of leading directories); every other
/// character stands for itself.
pub open spec fn glob(pattern: Seq<char>, s: Seq<char>) -> bool
    decreases pattern.len(), s.len(),
{
    if pattern.len() == 0 {
        s.len() == 0
    } else if pattern.len() >= 2 && pattern[0] == '*' && pattern[1] == '*' {
        ||| (pattern.len() >= 3 && pattern[2] == '/' && glob(pattern.skip(3), s))
        ||| glob(pattern.skip(2), s)
        ||| (s.len() > 0 && glob(pattern, s.skip(1)))
    } else if pattern[0] == '*' {
        ||| glob(pattern.skip(1), s)
        ||| (s.len() > 0 && s[0] != '/' && glob(pattern, s.skip(1)))
    } else if pattern[0] == '?' {
        s.len() > 0 && s[0] != '/' && glob(pattern.skip(1), s.skip(1))
    } else {
        s.len() > 0 && s[0] == pattern[0] && glob(pattern.skip(1), s.skip(1))
    }
}

/// `pattern` globs the whole `path`, or the part of it after one of its `/`
/// (so a pattern written relative to any directory on the path applies).
pub open spec fn glob_path(pattern: Seq<char>, path: Seq<char>) -> bool {
    ||| glob(pattern, path)
    ||| exists|k: int| 0 <= k < path.len() && path[k] == '/' && glob(pattern, #[trigger] path.skip(k + 1))
}

/// One of the extra exclusion patterns globs `path`.
pub open spec fn glob_excluded(path: Seq<char>, extra: Seq<Seq<char>>) -> bool {
    exists|e: int| 0 <= e < extra.len() && glob_path(#[trigger] extra[e], path)
}

/// `glob(p[i..], s[j..])`, computed by following the pattern.
fn glob_from(p: &Vec<char>, s: &Vec<char>, i: usize, j: usize) -> (r: bool)
    requires
        i <= p@.len(),
        j <= s@.len(),
    ensures
        r == glob(p@.skip(i as int), s@.skip(j as int)),
    decreases p@.len() - i, s@.len() - j,
{
    let ghost ps = p@.skip(i as int);
    let ghost ss = s@.skip(j as int);
    proof {
        if i < p@.len() {
            assert(ps.skip(1) =~= p@.skip(i + 1));
            assert(ps[0] == p@[i as int]);
        }
        if i + 1 < p@.len() {
            assert(ps.skip(2) =~= p@.skip(i + 2));
            assert(ps[1] == p@[i + 1]);
        }
        if i + 2 < p@.len() {
            assert(ps.skip(3) =~= p@.skip(i + 3));
            assert(ps[2] == p@[i + 2]);
        }
        if j < s@.len() {
            assert(ss.skip(1) =~= s@.skip(j + 1));
            assert(ss[0] == s@[j as int]);
        }
    }
    if i == p.len() {
        return j == s.len();
    }
    if i + 1 < p.len() && p[i] == '*' && p[i + 1] == '*' {
        if i + 2 < p.len() && p[i + 2] == '/' && glob_from(p, s, i + 3, j) {
            return true;
        }
        if glob_from(p, s, i + 2, j) {
            return true;
        }
        return j < s.len() && glob_from(p, s, i, j + 1);
    }
    if p[i] == '*' {
        if glob_from(p, s, i + 1, j) {
            return true;
        }
        return j < s.len() && s[j] != '/' && glob_from(p, s, i, j + 1);
    }
    if j == s.len() {
        return false;
    }
    if p[i] == '?' {
        return s[j] != '/' && glob_from(p, s, i + 1, j + 1);
    }
    s[j] == p[i] && glob_from(p, s, i + 1, j + 1)
}

/// `true` when `pattern` globs all of `s`.
pub fn glob_match(pattern: &str, s: &str) -> (r: bool)
    ensures
        r == glob(pattern@, s@),
{
    let p = chars_of(pattern);
    let c = chars_of(s);
    proof {
        assert(p@.skip(0) =~= p@);
        assert(c@.skip(0) =~= c@);
    }
    glob_from(&p, &c, 0, 0)
}

/// `glob_path` over the characters `c` of a path, trying the tails after each `/`.
fn glob_path_chars(p: &Vec<char>, c: &Vec<char>) -> (r: bool)
    ensures
        r == glob_path(p@, c@),
{
    proof {
        assert(p@.skip(0) =~= p@);
        assert(c@.skip(0) =~= c@);
    }
    if glob_from(p, c, 0, 0) {
        return true;
    }
    let mut k: usize = 0;
    while k < c.len()
        invariant
            k <= c@.len(),
            p@.skip(0) == p@,
            !glob(p@, c@),
            forall|q: int| 0 <= q < k && c@[q] == '/' ==> !glob(p@, #[trigger] c@.skip(q + 1)),
        decreases c.len() - k,
    {
        if c[k] == '/' && glob_from(p, c, 0, k + 1) {
            return true;
        }
        k = k + 1;
    }
    false
}

/// `true` when one of `extra` globs the path `path` (or its part after a `/`).
pub fn is_glob_excluded(path: &str, extra: &Vec<String>) -> (r: bool)
    ensures
        r == glob_excluded(path@, views(extra@)),
{
    let c = chars_of(path);
    let mut e: usize = 0;
    while e < extra.len()
        invariant
            e <= extra@.len(),
            c@ == path@,
            forall|q: int| 0 <= q < e ==> !glob_path(#[trigger] views(extra@)[q], path@),
        decreases extra.len() - e,
    {
        let p = chars_of(extra[e].as_str());
        if glob_path_chars(&p, &c) {
            proof {
                assert(views(extra@)[e as int] == extra@[e as int]@);
            }
            return true;
        }
        proof {
            assert(views(extra@)[e as int] == extra@[e as int]@);
        }
        e = e + 1;
    }
    false
}

/// A path whose components are `components` (and whose text is `path`) is excluded:
/// one of its components is an excluded name, or an extra pattern globs it.
pub open spec fn path_excluded(path: Seq<char>, components: Seq<Seq<char>>, extra: Seq<Seq<char>>) -> bool {
    ||| exists|k: int| 0 <= k < components.len() && excluded_name(#[trigger] components[k], extra)
    ||| glob_excluded(path, extra)
}

/// `true` when the path `path`, whose components are `components`, is excluded.
pub fn is_excluded_path(path: &str, components: &Vec<String>, extra: &Vec<String>) -> (r: bool)
    ensures
        r == path_excluded(path@, views(components@), views(extra@)),
{
    let mut k: usize = 0;
    while k < components.len()
        invariant
            k <= components@.len(),
            forall|q: int| 0 <= q < k ==> !excluded_name(#[trigger] components@[q]@, views(extra@)),
        decreases components.len() - k,
    {
        if is_excluded_name(components[k].as_str(), extra) {
            proof {
                assert(views(components@)[k as int] == components@[k as int]@);
            }
            return true;
        }
        k = k + 1;
    }
    proof {
        assert forall|q: int| 0 <= q < views(components@).len() implies !excluded_name(#[trigger] views(components@)[q], views(extra@)) by {
            assert(views(components@)[q] == components@[q]@);
        }
    }
    is_glob_excluded(path, extra)
}

/// An entry met while walking a directory, named `name` at the path `path`, is skipped
/// (with everything below it): its name is excluded, or an extra pattern globs its path.
pub open spec fn entry_excluded(name: Seq<char>, path: Seq<char>, extra: Seq<Seq<char>>) -> bool {
    excluded_name(name, extra) || glob_excluded(path, extra)
}

/// `true` when the walked entry `name` at `path` is skipped.
pub fn is_excluded_entry(name: &str, path: &str, extra: &Vec<String>) -> (r: bool)
    ensures
        r == entry_excluded(name@, path@, views(extra@)),
{
    is_excluded_name(name, extra) || is_glob_excluded(path, extra)
}

/// A file with extension `ext` is a TypeScript source: `ts` or `tsx`.
pub fn is_ts_extension(ext: Option<&str>) -> (r: bool)
    ensures
        r == (ext matches Some(e) && (e@ == "ts"@ || e@ == "tsx"@)),
{
    match ext {
        Some(e) => crate::text::str_eq(e, "ts") || crate::text::str_eq(e, "tsx"),
        None => false,
    }
}

} // verus!
