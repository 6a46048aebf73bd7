//! Path helpers for saving files.
use vstd::prelude::*;

use path_dedot::ParseDot;

use crate::config::{extension_of, path_extension};

verus! {

/// The path with the extension of its file name replaced, as
/// `Path::with_extension` makes it.
pub uninterp spec fn path_with_extension(path: Seq<char>, ext: Seq<char>) -> Seq<char>;

/// Calls `std::path::Path::with_extension`; the contract claims only that
/// the result is the one `path_with_extension` names for the arguments.  An
/// extension with a path separator is left out: std may panic on it.
#[verifier::external_body]
fn with_extension(path: &str, ext: &str) -> (r: String)
    requires
        !ext@.contains('/'),
    ensures
        r@ == path_with_extension(path@, ext@),
{
    std::path::Path::new(path).with_extension(ext).to_string_lossy().into_owned()
}

/// The path with one more extension: "foo.bar" and "baz" give
/// "foo.bar.baz".  The extension holds no path separator.
pub fn append_extension(path: &str, ext: &str) -> (r: String)
    requires
        !ext@.contains('/'),
    ensures
        r@ == match path_extension(path@) {
            Some(last) => path_with_extension(path@, last + "."@ + ext@),
            None => path_with_extension(path@, ext@),
        },
{
    match extension_of(path) {
        Some(last) => {
            let ghost l = last@;
            let mut e = last;
            e.append(".");
            e.append(ext);
            proof {
                reveal_strlit(".");
                assert(e@ == l + "."@ + ext@);
                assert forall|i: int| 0 <= i < e@.len() implies e@[i] != '/' by {
                    if i < l.len() {
                        assert(e@[i] == l[i]);
                        assert(!l.contains('/'));
                    } else if i == l.len() {
                    } else {
                        assert(e@[i] == ext@[i - l.len() - 1]);
                    }
                }
            }
            with_extension(path, e.as_str())
        },
        None => with_extension(path, ext),
    }
}


/// The rest of `path` after the leading components of `base`, as
/// `Path::strip_prefix` makes it, or `None` where `base` is not a prefix of
/// `path`.
pub uninterp spec fn path_stripped(path: Seq<char>, base: Seq<char>) -> Option<Seq<char>>;

/// Calls `std::path::Path::strip_prefix`; the contract claims only that the
/// result is the one `path_stripped` names for the arguments.
#[verifier::external_body]
pub(crate) fn strip_path_prefix(path: &str, base: &str) -> (r: Option<String>)
    ensures
        match (r, path_stripped(path@, base@)) {
            (Some(s), Some(t)) => s@ == t,
            (None, None) => true,
            _ => false,
        },
{
    std::path::Path::new(path).strip_prefix(base).ok().map(|p| p.to_string_lossy().into_owned())
}

/// An absolute path without its `.` and `..` components, as
/// `path_dedot::ParseDot::parse_dot` makes it.
pub uninterp spec fn path_dedotted(path: Seq<char>) -> Seq<char>;

/// The absolute path without its `.` and `..` components, as
/// `path_dedot::ParseDot::parse_dot` makes it.
///
/// Trusted.  The crate reads the current directory first, which may fail,
/// so no success is claimed; on an absolute path it does not use that
/// directory further, and the result is the one `path_dedotted` names for
/// the path.  A relative path is left out: the crate resolves it against the
/// current directory, and it panics on one whose components all cancel out
/// (such as `a/..`).
#[verifier::external_body]
pub(crate) fn without_dots(path: &str) -> (r: Option<String>)
    requires
        crate::config::is_absolute(path@),
    ensures
        r matches Some(p) ==> p@ == path_dedotted(path@),
{
    std::path::Path::new(path).parse_dot().ok().map(|p| p.to_string_lossy().into_owned())
}

} // verus!
