//! Paths, times and errors of the standard library, and what the library asks of them.
use std::path::PathBuf;
use std::time::{Duration, SystemTime};

use vstd::prelude::*;

verus! {

/// A path of the platform. Nothing of it is known but what the functions below say.
#[verifier::external_type_specification]
#[verifier::external_body]
pub struct ExPathBuf(PathBuf);

/// An error of the platform, carried through as it came.
#[verifier::external_type_specification]
#[verifier::external_body]
pub struct ExIoError(std::io::Error);

/// A path with one more part behind it: what [`std::path::Path::join`] returns.
pub uninterp spec fn joined_path(base: PathBuf, part: Seq<char>) -> PathBuf;

/// Puts a part behind a path, with `Path::join`. The result depends on the path and the part
/// alone; `joined_path` names it.
#[verifier::external_body]
pub(crate) fn join(base: &PathBuf, part: &str) -> (r: PathBuf)
    ensures
        r == joined_path(*base, part@),
{
    base.join(part)
}

/// The last part of a path as text: what [`std::path::Path::file_name`] returns, with what is not
/// proper text replaced.
pub uninterp spec fn file_name_text(path: PathBuf) -> Option<Seq<char>>;

/// The last part of a path, with `Path::file_name`, as text. The result depends on the path
/// alone; `file_name_text` names it.
#[verifier::external_body]
pub(crate) fn file_name(path: &PathBuf) -> (r: Option<String>)
    ensures
        match r {
            Some(name) => file_name_text(*path) == Some(name@),
            None => file_name_text(*path) is None,
        },
{
    path.file_name().map(|name| name.to_string_lossy().into_owned())
}

/// A path with another last part: what [`std::path::Path::with_file_name`] returns.
pub uninterp spec fn renamed_path(path: PathBuf, name: Seq<char>) -> PathBuf;

/// Replaces the last part of a path, with `Path::with_file_name`. The result depends on the path
/// and the name alone; `renamed_path` names it.
#[verifier::external_body]
pub(crate) fn with_file_name(path: &PathBuf, name: &str) -> (r: PathBuf)
    ensures
        r == renamed_path(*path, name@),
{
    path.with_file_name(name)
}

/// `PathBuf::clone` gives the same path.
pub assume_specification[ <PathBuf as Clone>::clone ](path: &PathBuf) -> (r: PathBuf)
    ensures
        r == *path,
;

/// A moment of the system clock, carried through as it came.
#[verifier::external_type_specification]
#[verifier::external_body]
pub struct ExSystemTime(SystemTime);

/// The length of a span of time in nanoseconds: what [`std::time::Duration::as_nanos`] returns.
pub uninterp spec fn nanos_of(span: Duration) -> nat;

/// The length of a span of time, with `Duration::as_nanos`. The result depends on the span alone;
/// `nanos_of` names it. It is less than two to the power of 64 seconds, which is more than the
/// documented greatest span.
#[verifier::external_body]
pub(crate) fn as_nanos(span: &Duration) -> (r: u128)
    ensures
        r == nanos_of(*span),
        r < 18446744073709551616000000000,
{
    span.as_nanos()
}

/// The path without its last part: what [`std::path::Path::parent`] returns.
pub uninterp spec fn parent_path(path: PathBuf) -> Option<PathBuf>;

/// The path without its last part, with `Path::parent`. The result depends on the path alone;
/// `parent_path` names it.
#[verifier::external_body]
pub(crate) fn parent(path: &PathBuf) -> (r: Option<PathBuf>)
    ensures
        r == parent_path(*path),
{
    path.parent().map(PathBuf::from)
}

/// The text of a path, with what is not proper text replaced: what
/// [`std::path::Path::to_string_lossy`] returns.
pub uninterp spec fn path_text(path: PathBuf) -> Seq<char>;

/// The text of a path, with `Path::to_string_lossy`. The result depends on the path alone;
/// `path_text` names it.
#[verifier::external_body]
pub(crate) fn lossy_text(path: &PathBuf) -> (r: String)
    ensures
        r@ == path_text(*path),
{
    path.to_string_lossy().into_owned()
}

/// Whether a path is the empty text.
pub open spec fn is_empty_path(path: PathBuf) -> bool {
    path_text(path).len() == 0
}

/// Whether a path is the empty text, with `OsStr::is_empty`: a path has no text exactly where it is
/// empty.
#[verifier::external_body]
pub(crate) fn is_empty(path: &PathBuf) -> (r: bool)
    ensures
        r == is_empty_path(*path),
{
    path.as_os_str().is_empty()
}

/// A span of so many seconds: what [`std::time::Duration::from_secs`] returns.
pub uninterp spec fn span_of(seconds: nat) -> Duration;

/// A span of so many seconds, with `Duration::from_secs`. The result depends on the number alone;
/// `span_of` names it. A second has a thousand million nanoseconds.
#[verifier::external_body]
pub(crate) fn seconds(n: u64) -> (r: Duration)
    ensures
        r == span_of(n as nat),
        nanos_of(r) == n * 1000000000,
{
    Duration::from_secs(n)
}

} // verus!
