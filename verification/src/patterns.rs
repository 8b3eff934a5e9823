//! Glob patterns (the `glob` crate) and the ignore rule built on them.

use vstd::prelude::*;
use crate::text::{append_str, push_char};

verus! {

/// Whether `glob::Pattern::new` accepts `pattern`.
pub uninterp spec fn glob_compiles(pattern: Seq<char>) -> bool;

/// What `glob::Pattern::matches` answers, for the pattern compiled from
/// `pattern`, on `path`.
pub uninterp spec fn glob_matches(pattern: Seq<char>, path: Seq<char>) -> bool;

/// A configured glob selects a path: it compiles and it matches the path.
/// A glob that does not compile selects nothing.
pub open spec fn glob_hits(pattern: Seq<char>, path: Seq<char>) -> bool {
    glob_compiles(pattern) && glob_matches(pattern, path)
}

/// The views of a sequence of strings.
pub open spec fn string_views(v: Seq<String>) -> Seq<Seq<char>> {
    v.map_values(|s: String| s@)
}

/// Some glob of `globs` selects `path`.
pub open spec fn any_glob_hits(globs: Seq<Seq<char>>, path: Seq<char>) -> bool {
    exists|i: int| 0 <= i < globs.len() && glob_hits(#[trigger] globs[i], path)
}

/// The suffix that probes whether a pattern ignores everything below a
/// directory.
pub open spec fn ignore_probe_suffix() -> Seq<char> {
    "/.ignore-check"@
}

/// One ignore pattern catches `path`: it matches the path itself, or, for a
/// directory, the path with a trailing slash or a child of the path.
pub open spec fn ignore_hit(pattern: Seq<char>, path: Seq<char>, is_dir: bool) -> bool {
    ||| glob_hits(pattern, path)
    ||| (is_dir && glob_hits(pattern, path.push('/')))
    ||| (is_dir && glob_hits(pattern, path + ignore_probe_suffix()))
}

/// `path` (relative, without leading slash) is excluded from serving and
/// listing by the ignore patterns. The empty path is never ignored.
pub open spec fn ignored(path: Seq<char>, is_dir: bool, patterns: Seq<Seq<char>>) -> bool {
    path.len() > 0 && exists|i: int|
        0 <= i < patterns.len() && ignore_hit(#[trigger] patterns[i], path, is_dir)
}

/// Compiles `pattern` with `glob::Pattern::new` and, when it compiles, asks
/// `glob::Pattern::matches` about `path`. Trusted: `None` exactly when the
/// pattern does not compile, else the answer of `matches`.
#[verifier::external_body]
fn glob_match(pattern: &str, path: &str) -> (r: Option<bool>)
    ensures
        r.is_some() == glob_compiles(pattern@),
        r matches Some(b) ==> b == glob_matches(pattern@, path@),
{
    match glob::Pattern::new(pattern) {
        Ok(p) => Some(p.matches(path)),
        Err(_) => None,
    }
}

/// Whether the configured glob `pattern` selects `path`; a glob that does not
/// compile selects nothing.
pub fn glob_selects(pattern: &str, path: &str) -> (b: bool)
    ensures
        b == glob_hits(pattern@, path@),
{
    match glob_match(pattern, path) {
        Some(b) => b,
        None => false,
    }
}

/// Whether some glob of `globs` selects `path`.
pub fn any_glob_selects(globs: &Vec<String>, path: &str) -> (b: bool)
    ensures
        b == any_glob_hits(string_views(globs@), path@),
{
    let ghost views = string_views(globs@);
    let mut i: usize = 0;
    while i < globs.len()
        invariant
            i <= globs.len(),
            views == string_views(globs@),
            forall|j: int| 0 <= j < i ==> !glob_hits(#[trigger] views[j], path@),
        decreases globs.len() - i,
    {
        if glob_selects(globs[i].as_str(), path) {
            assert(glob_hits(views[i as int], path@));
            return true;
        }
        i += 1;
    }
    false
}

/// Whether one ignore pattern catches `path`.
fn ignore_pattern_hits(pattern: &str, path: &String, is_dir: bool) -> (b: bool)
    ensures
        b == ignore_hit(pattern@, path@, is_dir),
{
    if glob_selects(pattern, path.as_str()) {
        return true;
    }
    if is_dir {
        let mut with_slash = path.clone();
        push_char(&mut with_slash, '/');
        if glob_selects(pattern, with_slash.as_str()) {
            return true;
        }
        let mut child = path.clone();
        append_str(&mut child, "/.ignore-check");
        if glob_selects(pattern, child.as_str()) {
            return true;
        }
    }
    false
}

/// Whether `path` (relative, without leading slash; `is_dir` tells whether it
/// names a directory) is excluded by the ignore `patterns`.
pub fn matches_ignore(path: &String, is_dir: bool, patterns: &Vec<String>) -> (b: bool)
    ensures
        b == ignored(path@, is_dir, string_views(patterns@)),
{
    if path.as_str().is_empty() {
        return false;
    }
    let ghost views = string_views(patterns@);
    let mut i: usize = 0;
    while i < patterns.len()
        invariant
            i <= patterns.len(),
            views == string_views(patterns@),
            path@.len() > 0,
            forall|j: int| 0 <= j < i ==> !ignore_hit(#[trigger] views[j], path@, is_dir),
        decreases patterns.len() - i,
    {
        if ignore_pattern_hits(patterns[i].as_str(), path, is_dir) {
            assert(ignore_hit(views[i as int], path@, is_dir));
            return true;
        }
        i += 1;
    }
    false
}

/// How the ignore patterns exclude a path (relative, non-empty): a pattern
/// matching the path excludes it; for a directory, so does a pattern matching
/// the path followed by a slash, or a child of it.
pub proof fn law_ignore_excludes(path: Seq<char>, is_dir: bool, patterns: Seq<Seq<char>>, i: int)
    requires
        0 <= i < patterns.len(),
        path.len() > 0,
    ensures
        glob_hits(patterns[i], path) ==> ignored(path, is_dir, patterns),
        is_dir && glob_hits(patterns[i], path.push('/')) ==> ignored(path, is_dir, patterns),
        is_dir && glob_hits(patterns[i], path + "/.ignore-check"@) ==> ignored(path, is_dir, patterns),
{
    assert(ignore_probe_suffix() == "/.ignore-check"@);
}

/// Only the ignore patterns exclude a path: the empty path never, a file only
/// by a pattern matching its path, a directory only by a pattern matching its
/// path, its path with a trailing slash, or a child of it.
pub proof fn law_ignore_only_by_patterns(path: Seq<char>, is_dir: bool, patterns: Seq<Seq<char>>)
    ensures
        path.len() == 0 ==> !ignored(path, is_dir, patterns),
        !is_dir ==> (ignored(path, is_dir, patterns) <==> path.len() > 0 && exists|i: int|
            0 <= i < patterns.len() && glob_hits(#[trigger] patterns[i], path)),
        ignored(path, is_dir, patterns) ==> exists|i: int|
            0 <= i < patterns.len() && (glob_hits(#[trigger] patterns[i], path) || glob_hits(patterns[i], path.push('/'))
                || glob_hits(patterns[i], path + "/.ignore-check"@)),
{
    assert(ignore_probe_suffix() == "/.ignore-check"@);
    if !is_dir && path.len() > 0 {
        if exists|i: int| 0 <= i < patterns.len() && glob_hits(#[trigger] patterns[i], path) {
            let i = choose|i: int| 0 <= i < patterns.len() && glob_hits(#[trigger] patterns[i], path);
            assert(ignore_hit(patterns[i], path, is_dir));
        }
    }
}

} // verus!
