//! File searching utilities for Splunk directories.
//!
//! This module decides which of the files that a walk of a directory tree comes across are the ones
//! searched for.
use std::path::PathBuf;

use vstd::prelude::*;
use vstd::string::StringExecFns;


verus! {

/// The search depth that is used where none is given.
pub const DEFAULT_MAX_DEPTH: usize = 6;

/// Something that the walk came across.
pub struct WalkEntry {
    /// How many levels below the root it is; the root itself is at zero.
    pub depth: usize,
    pub is_symlink: bool,
    pub is_file: bool,
    /// The bytes of its name.
    pub name: Vec<u8>,
    pub path: PathBuf,
}

/// What the root of a search is.
pub enum SearchRoot {
    /// Nothing is there.
    Missing,
    /// It is not a directory.
    NotADirectory,
    /// It is a directory; these entries could be read, in the order of the walk.
    Directory(Vec<WalkEntry>),
    /// It could not be looked at.
    Unreadable(std::io::Error),
}

/// Why a search failed.
pub enum SearchError {
    /// No file was found; the text says what was searched for, and where.
    NotFound(String),
    /// The root could not be looked at.
    Io(std::io::Error),
}

/// How deep a walk has to go: files in a directory are one level deeper than the directory.
pub open spec fn walk_depth_of(max_depth: nat) -> nat {
    if max_depth >= usize::MAX {
        usize::MAX as nat
    } else {
        max_depth + 1
    }
}

/// Whether an entry is a file that is searched for: a regular file of that name, no link, in a
/// directory that is not too deep.
pub open spec fn is_hit(entry: WalkEntry, target: Seq<u8>, max_depth: nat) -> bool {
    !entry.is_symlink && entry.is_file && entry.name@ == target && entry.depth <= walk_depth_of(
        max_depth,
    )
}

/// The paths of the files that are searched for, in the order of the walk.
pub open spec fn hits(entries: Seq<WalkEntry>, target: Seq<u8>, max_depth: nat) -> Seq<PathBuf>
    decreases entries.len(),
{
    if entries.len() == 0 {
        Seq::empty()
    } else {
        let before = hits(entries.drop_last(), target, max_depth);
        if is_hit(entries.last(), target, max_depth) {
            before.push(entries.last().path)
        } else {
            before
        }
    }
}

/// What is said where nothing was found.
pub open spec fn not_found_text(target: Seq<char>, root: Seq<char>) -> Seq<char> {
    "No files found matching "@ + target + " in "@ + root
}

/// What a search comes to. A root that is missing or is no directory gives no files; a directory
/// without a hit is an error.
pub open spec fn search_outcome(
    root: SearchRoot,
    root_text: Seq<char>,
    target: Seq<u8>,
    target_text: Seq<char>,
    max_depth: nat,
    r: Result<Vec<PathBuf>, SearchError>,
) -> bool {
    match root {
        SearchRoot::Missing => r is Ok && r->Ok_0@.len() == 0,
        SearchRoot::NotADirectory => r is Ok && r->Ok_0@.len() == 0,
        SearchRoot::Unreadable(e) => r is Err && r->Err_0 == SearchError::Io(e),
        SearchRoot::Directory(entries) => if hits(entries@, target, max_depth).len() > 0 {
            r is Ok && r->Ok_0@ == hits(entries@, target, max_depth)
        } else {
            r is Err && r->Err_0 is NotFound && r->Err_0->NotFound_0@ == not_found_text(
                target_text,
                root_text,
            )
        },
    }
}

/// How deep a walk has to go to search directories down to a depth.
pub fn walk_depth(max_depth: usize) -> (r: usize)
    ensures
        r == walk_depth_of(max_depth as nat),
{
    max_depth.saturating_add(1)
}

/// Whether two byte strings are the same.
fn same_bytes(a: &[u8], b: &[u8]) -> (r: bool)
    ensures
        r == (a@ == b@),
{
    if a.len() != b.len() {
        return false;
    }
    let mut i: usize = 0;
    while i < a.len()
        invariant
            a@.len() == b@.len(),
            i <= a@.len(),
            forall|j: int| 0 <= j < i ==> a@[j] == b@[j],
        decreases a@.len() - i,
    {
        if a[i] != b[i] {
            return false;
        }
        i += 1;
    }
    assert(a@ =~= b@);
    true
}

/// Search for files matching a specific filename.
///
/// - Does not consider symlinks
/// - Returns empty vector if root doesn't exist or isn't a directory
/// - Returns `NotFound` error if root exists but no matches found
///
/// `target_name` is the bytes of the filename, `target_text` the same as text.
pub fn find_files(
    root: SearchRoot,
    root_text: &str,
    target_name: &[u8],
    target_text: &str,
    max_depth: usize,
) -> (r: Result<Vec<PathBuf>, SearchError>)
    ensures
        search_outcome(root, root_text@, target_name@, target_text@, max_depth as nat, r),
{
    let entries = match root {
        SearchRoot::Missing => {
            return Ok(Vec::new());
        },
        SearchRoot::NotADirectory => {
            return Ok(Vec::new());
        },
        SearchRoot::Unreadable(e) => {
            return Err(SearchError::Io(e));
        },
        SearchRoot::Directory(entries) => entries,
    };
    let deepest = walk_depth(max_depth);
    let mut found: Vec<PathBuf> = Vec::new();
    let mut i: usize = 0;
    proof {
        assert(entries@.take(0) =~= Seq::empty());
    }
    while i < entries.len()
        invariant
            i <= entries@.len(),
            deepest == walk_depth_of(max_depth as nat),
            found@ == hits(entries@.take(i as int), target_name@, max_depth as nat),
        decreases entries@.len() - i,
    {
        let entry = &entries[i];
        proof {
            assert(entries@.take(i + 1).drop_last() =~= entries@.take(i as int));
            assert(entries@.take(i + 1).last() == entries@[i as int]);
        }
        if !entry.is_symlink && entry.is_file && entry.depth <= deepest && same_bytes(
            entry.name.as_slice(),
            target_name,
        ) {
            found.push(entry.path.clone());
        }
        i += 1;
    }
    proof {
        assert(entries@.take(i as int) =~= entries@);
    }
    if found.len() == 0 {
        let mut text = "No files found matching ".to_string();
        text.append(target_text);
        text.append(" in ");
        text.append(root_text);
        Err(SearchError::NotFound(text))
    } else {
        Ok(found)
    }
}

/// Convenience function with default search depth of 6.
pub fn find_files_default(
    root: SearchRoot,
    root_text: &str,
    target_name: &[u8],
    target_text: &str,
) -> (r: Result<Vec<PathBuf>, SearchError>)
    ensures
        search_outcome(root, root_text@, target_name@, target_text@, 6, r),
{
    find_files(root, root_text, target_name, target_text, DEFAULT_MAX_DEPTH)
}

/// Whether the path is that of a file that is searched for.
pub open spec fn is_hit_path(
    entries: Seq<WalkEntry>,
    target: Seq<u8>,
    max_depth: nat,
    path: PathBuf,
) -> bool {
    exists|i: int|
        0 <= i < entries.len() && is_hit(#[trigger] entries[i], target, max_depth)
            && entries[i].path == path
}

/// The paths that a search gives are those of the regular files of that name which are not too
/// deep, and no others.
pub proof fn hits_are_exactly_the_matching_files(
    entries: Seq<WalkEntry>,
    target: Seq<u8>,
    max_depth: nat,
    path: PathBuf,
)
    ensures
        hits(entries, target, max_depth).contains(path) <==> is_hit_path(
            entries,
            target,
            max_depth,
            path,
        ),
    decreases entries.len(),
{
    if entries.len() > 0 {
        let fewer = entries.drop_last();
        let last = entries.last();
        let before = hits(fewer, target, max_depth);
        let all = hits(entries, target, max_depth);
        hits_are_exactly_the_matching_files(fewer, target, max_depth, path);
        if is_hit_path(fewer, target, max_depth, path) {
            let i = choose|i: int|
                0 <= i < fewer.len() && is_hit(#[trigger] fewer[i], target, max_depth)
                    && fewer[i].path == path;
            assert(entries[i] == fewer[i]);
            let k = choose|k: int| 0 <= k < before.len() && before[k] == path;
            assert(all[k] == path);
        }
        if is_hit(last, target, max_depth) && last.path == path {
            assert(entries[entries.len() - 1] == last);
            assert(all[before.len() as int] == path);
        }
        if is_hit_path(entries, target, max_depth, path) {
            let i = choose|i: int|
                0 <= i < entries.len() && is_hit(#[trigger] entries[i], target, max_depth)
                    && entries[i].path == path;
            if i < fewer.len() {
                assert(fewer[i] == entries[i]);
            }
        }
        if all.contains(path) {
            let k = choose|k: int| 0 <= k < all.len() && all[k] == path;
            if k < before.len() {
                assert(before[k] == path);
            }
        }
    }
}

} // verus!
