//! Bringing the path of a source file into the form under which it is
//! recorded: absolute first, then relative to the working directory.
//!
//! Nothing here touches the file system. What the system knows (the
//! canonical form of a path, the working directory) is handed in.

use vstd::prelude::*;
use vstd::string::*;

verus! {

/// `path_clean::clean` on `path` joined to `base` by `Path::join`: the
/// joined path without `.`, doubled separators and the `..` that can be
/// resolved by name alone. Nothing is claimed of the result.
#[verifier::external_body]
fn join_clean(base: &str, path: &str) -> (joined: String) {
    path_clean::clean(std::path::Path::new(base).join(path)).to_string_lossy().into_owned()
}

/// The path that `pathdiff::diff_paths` gives for leading from `base` to
/// `path`, if it gives one.
pub uninterp spec fn path_difference(path: Seq<char>, base: Seq<char>) -> Option<Seq<char>>;

/// `pathdiff::diff_paths`: the path that leads from `base` to `path`, if
/// there is one. It works on the two paths by name alone and asks nothing of
/// the file system, so its result depends on them alone; it is given the
/// name [`path_difference`] here.
#[verifier::external_body]
fn diff_paths(path: &str, base: &str) -> (relative: Option<String>)
    ensures
        match relative {
            Some(found) => path_difference(path@, base@) == Some(found@),
            None => path_difference(path@, base@) is None,
        },
{
    match pathdiff::diff_paths(path, base) {
        Some(relative) => Some(relative.to_string_lossy().into_owned()),
        None => None,
    }
}

/// Converts an arbitrary path into an absolute path.
///
/// `canonical` is the canonical form of the path if the file system could
/// give one, and `cwd` the working directory if there is one. The canonical
/// form is taken where there is one. Otherwise a relative path is joined to
/// the working directory and cleaned by name. There is nothing to return
/// for an absolute path without canonical form, nor for a relative one
/// without a working directory.
pub fn resolve_absolute_path(
    path: &str,
    canonical: Option<String>,
    is_absolute: bool,
    cwd: Option<String>,
) -> (resolved: Option<String>)
    ensures
        canonical is Some ==> resolved == canonical,
        canonical is None ==> (resolved is Some <==> !is_absolute && cwd is Some),
{
    match canonical {
        Some(found) => Some(found),
        None => {
            if is_absolute {
                None
            } else {
                match cwd {
                    Some(base) => Some(join_clean(base.as_str(), path)),
                    None => None,
                }
            }
        },
    }
}

/// The path that leads to `path` from the working directory `cwd`: none
/// without a working directory, and else what `pathdiff` gives for the two.
pub open spec fn relative_path(path: Seq<char>, cwd: Option<Seq<char>>) -> Option<Seq<char>> {
    match cwd {
        Some(base) => path_difference(path, base),
        None => None,
    }
}

/// Converts a path into a path relative to the working directory `cwd`.
/// There is none without a working directory, nor where no path leads from
/// the working directory to `path`.
pub fn resolve_relative_path(path: &str, cwd: Option<String>) -> (relative: Option<String>)
    ensures
        match relative {
            Some(found) => relative_path(
                path@,
                match cwd {
                    Some(base) => Some(base@),
                    None => None,
                },
            ) == Some(found@),
            None => relative_path(
                path@,
                match cwd {
                    Some(base) => Some(base@),
                    None => None,
                },
            ) is None,
        },
{
    match cwd {
        Some(base) => diff_paths(path, base.as_str()),
        None => None,
    }
}

} // verus!
