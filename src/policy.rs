//! The filter policy: which paths are skipped, rendered or expanded.
use vstd::prelude::*;

use crate::config::AppConfig;
use crate::paths::{extension, extension_bounds, is_hidden, is_hidden_unix};
use crate::text::{chars_of, range_eq_str};

verus! {

/// What glob's shell-style matcher makes of `pattern` and `path`: `None` when
/// the pattern does not compile, else whether `path` matches it.
pub uninterp spec fn glob_outcome(pattern: Seq<char>, path: Seq<char>) -> Option<bool>;

/// Relies on glob::Pattern::new, which compiles `pattern` or reports a
/// PatternError, and glob::Pattern::matches, which tests `path` against it.
#[verifier::external_body]
fn glob_match(pattern: &str, path: &str) -> (r: Option<bool>)
    ensures
        r == glob_outcome(pattern@, path@),
{
    match glob::Pattern::new(pattern) {
        Ok(compiled) => Some(compiled.matches(path)),
        Err(_) => None,
    }
}

/// `path` matches at least one pattern of `patterns`; a pattern that does not
/// compile matches nothing.
pub open spec fn ignored(patterns: Seq<String>, path: Seq<char>) -> bool {
    exists|i: int| 0 <= i < patterns.len() && glob_outcome(#[trigger] patterns[i]@, path) == Some(true)
}

/// A file of `path` passes the allow-list `allow`: there is none, it is
/// empty, or it holds the path's extension (compared case-sensitively).
pub open spec fn extension_allowed(path: Seq<char>, allow: Option<Vec<String>>) -> bool {
    match allow {
        None => true,
        Some(l) => l.len() == 0 || (extension(path) matches Some(e) && exists|i: int|
            0 <= i < l.len() && #[trigger] l@[i]@ == e),
    }
}

/// What a path is on disk.
#[derive(Clone, Copy, Debug, PartialEq, Eq, Structural)]
pub enum PathKind {
    File,
    Dir,
    Other,
}

/// What is done with one path.
#[derive(Clone, Copy, Debug, PartialEq, Eq, Structural)]
pub enum Verdict {
    /// Hidden, and hidden paths are not wanted.
    SkipHidden,
    /// Matches an ignore pattern.
    SkipIgnored,
    /// A file whose extension the allow-list refuses.
    SkipExtension,
    /// Neither a regular file nor a directory.
    SkipOther,
    /// A file to render into the output.
    Render,
    /// A directory to expand.
    Expand,
}

/// The verdict on `path`, of kind `kind`, given whether it matched an ignore pattern.
pub open spec fn verdict(config: AppConfig, path: Seq<char>, kind: PathKind, ignore_matched: bool) -> Verdict {
    if is_hidden(path) && !config.include_hidden {
        Verdict::SkipHidden
    } else if ignore_matched {
        Verdict::SkipIgnored
    } else {
        match kind {
            PathKind::File => if extension_allowed(path, config.extension) {
                Verdict::Render
            } else {
                Verdict::SkipExtension
            },
            PathKind::Dir => Verdict::Expand,
            PathKind::Other => Verdict::SkipOther,
        }
    }
}

/// Whether `path` matches one of `patterns`.
pub fn check_ignore_match(path: &str, patterns: &Vec<String>) -> (r: bool)
    ensures
        r == ignored(patterns@, path@),
{
    let mut i: usize = 0;
    while i < patterns.len()
        invariant
            i <= patterns.len(),
            forall|k: int| 0 <= k < i ==> glob_outcome(#[trigger] patterns@[k]@, path@) != Some(true),
        decreases patterns.len() - i,
    {
        if glob_match(patterns[i].as_str(), path) == Some(true) {
            return true;
        }
        i = i + 1;
    }
    false
}

/// Whether a file at `path` passes the allow-list `mb_extension_list`.
pub fn does_extension_match(path: &str, mb_extension_list: &Option<Vec<String>>) -> (r: bool)
    ensures
        r == extension_allowed(path@, *mb_extension_list),
{
    match mb_extension_list {
        None => true,
        Some(list) => {
            if list.len() == 0 {
                return true;
            }
            let v = chars_of(path);
            match extension_bounds(&v) {
                None => false,
                Some((a, b)) => {
                    let ghost e = v@.subrange(a as int, b as int);
                    let mut i: usize = 0;
                    while i < list.len()
                        invariant
                            i <= list.len(),
                            a <= b <= v.len(),
                            e == v@.subrange(a as int, b as int),
                            extension(path@) == Some(e),
                            *mb_extension_list == Some(*list),
                            forall|k: int| 0 <= k < i ==> #[trigger] list@[k]@ != e,
                        decreases list.len() - i,
                    {
                        if range_eq_str(&v, a, b, list[i].as_str()) {
                            assert(list@[i as int]@ == e);
                            return true;
                        }
                        i = i + 1;
                    }
                    assert(!(exists|k: int| 0 <= k < list.len() && #[trigger] list@[k]@ == e));
                    false
                },
            }
        },
    }
}

/// The verdict on `path`, given the outcome of the ignore test.
pub fn decide(config: &AppConfig, path: &str, kind: PathKind, ignore_matched: bool) -> (r: Verdict)
    ensures
        r == verdict(*config, path@, kind, ignore_matched),
{
    if is_hidden_unix(path) && !config.include_hidden {
        Verdict::SkipHidden
    } else if ignore_matched {
        Verdict::SkipIgnored
    } else {
        match kind {
            PathKind::File => if does_extension_match(path, &config.extension) {
                Verdict::Render
            } else {
                Verdict::SkipExtension
            },
            PathKind::Dir => Verdict::Expand,
            PathKind::Other => Verdict::SkipOther,
        }
    }
}

/// The verdict on `path`, of kind `kind`, under `config`.
pub fn classify(config: &AppConfig, path: &str, kind: PathKind) -> (r: Verdict)
    ensures
        r == verdict(*config, path@, kind, ignored(config.ignore@, path@)),
{
    let ignore_matched = check_ignore_match(path, &config.ignore);
    decide(config, path, kind, ignore_matched)
}

} // verus!
