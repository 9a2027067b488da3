//! Splunk installation location detection.
//!
//! This module detects the Splunk installation directory structure based on the path of the
//! current executable.
use std::path::PathBuf;

use vstd::prelude::*;

use crate::platform::{lossy_text, parent, parent_path, path_text};
use crate::text::{chars_of, contains_part, has_part, lower, to_lower};

verus! {

/// Represents the key paths in a Splunk installation.
///
/// # Fields
///
/// * `root` - The Splunk installation root directory (e.g., `/opt/splunk`)
/// * `app` - The app directory (e.g., `/opt/splunk/etc/apps/myapp`)
/// * `bin` - The bin directory containing executables (e.g., `/opt/splunk/bin`)
#[derive(Debug, Clone, PartialEq, Eq)]
pub struct SplunkLocation {
    pub root: PathBuf,
    pub app: PathBuf,
    pub bin: PathBuf,
}

/// The directory so many levels up, if there is one.
pub open spec fn levels_up(path: PathBuf, levels: nat) -> Option<PathBuf>
    decreases levels,
{
    if levels == 0 {
        Some(path)
    } else {
        match parent_path(path) {
            Some(p) => levels_up(p, (levels - 1) as nat),
            None => None,
        }
    }
}

/// The directory that a path is in, or the path itself where it is in none.
pub open spec fn parent_or_self(path: PathBuf) -> PathBuf {
    match parent_path(path) {
        Some(p) => p,
        None => path,
    }
}

/// Whether an executable belongs to Splunk: its path has `splunk` in it, in any case.
pub open spec fn is_splunk_path(exe: PathBuf) -> bool {
    has_part(lower(path_text(exe)), "splunk"@)
}

/// The location that belongs to an executable. Splunk is laid out as `root/etc/apps/app/bin`; where
/// there are too few levels for that, the app is one level above the bin directory and the root one
/// level above the app. Elsewhere the directory of the executable is both the app and the bin
/// directory, and the one above it is the root. A directory that is in none stands for the one
/// above it.
pub open spec fn location_of(exe: PathBuf) -> SplunkLocation {
    let bin = parent_or_self(exe);
    if is_splunk_path(exe) && levels_up(bin, 4) is Some {
        SplunkLocation { root: levels_up(bin, 4)->0, app: levels_up(bin, 1)->0, bin }
    } else if is_splunk_path(exe) {
        let app = parent_or_self(bin);
        SplunkLocation { root: parent_or_self(app), app, bin }
    } else {
        SplunkLocation { root: parent_or_self(bin), app: bin, bin }
    }
}

/// In a Splunk environment the root is three levels above the app, and the app one level above the
/// bin directory.
pub proof fn splunk_levels(exe: PathBuf)
    requires
        is_splunk_path(exe),
        levels_up(parent_or_self(exe), 4) is Some,
    ensures
        levels_up(location_of(exe).app, 3) == Some(location_of(exe).root),
        levels_up(location_of(exe).bin, 1) == Some(location_of(exe).app),
{
    reveal_with_fuel(levels_up, 5);
}

/// In a Splunk environment of fewer levels the app is one level above the bin directory, and the
/// root one level above the app.
pub proof fn shallow_splunk_levels(exe: PathBuf)
    requires
        is_splunk_path(exe),
        levels_up(parent_or_self(exe), 2) is Some,
        levels_up(parent_or_self(exe), 4) is None,
    ensures
        levels_up(location_of(exe).app, 1) == Some(location_of(exe).root),
        levels_up(location_of(exe).bin, 1) == Some(location_of(exe).app),
{
    reveal_with_fuel(levels_up, 3);
}

/// Outside Splunk the executable's directory is the bin and the app directory, and its grandparent
/// is the root.
pub proof fn other_levels(exe: PathBuf)
    requires
        !is_splunk_path(exe),
        levels_up(exe, 2) is Some,
    ensures
        levels_up(exe, 1) == Some(location_of(exe).bin),
        levels_up(exe, 1) == Some(location_of(exe).app),
        levels_up(exe, 2) == Some(location_of(exe).root),
{
    reveal_with_fuel(levels_up, 3);
}

/// The directory that a path is in, or the path itself.
fn own_parent(path: &PathBuf) -> (r: PathBuf)
    ensures
        r == parent_or_self(*path),
{
    match parent(path) {
        Some(p) => p,
        None => path.clone(),
    }
}

/// The directory above one that may not be there.
fn parent_of_optional(path: &Option<PathBuf>) -> (r: Option<PathBuf>)
    ensures
        r == (match *path {
            Some(p) => parent_path(p),
            None => None,
        }),
{
    match path {
        Some(p) => parent(p),
        None => None,
    }
}

/// Determine Splunk installation location based on the path of the current executable, or the
/// error that finding it gave.
///
/// # Detection logic
///
/// For a Splunk environment (executable path contains "splunk"): root is 4 levels up from bin, and
/// app is 1. Where there are fewer levels, root is the parent of app, and app the parent of bin.
///
/// For a non-Splunk environment:
/// - `root` = executable's grandparent
/// - `app` = executable's parent
/// - `bin` = executable's directory
pub fn get_splunk_location(exe_path: Result<PathBuf, std::io::Error>) -> (r: Result<
    SplunkLocation,
    std::io::Error,
>)
    ensures
        match exe_path {
            Ok(exe) => r == Ok::<SplunkLocation, std::io::Error>(location_of(exe)),
            Err(e) => r == Err::<SplunkLocation, std::io::Error>(e),
        },
{
    let exe = match exe_path {
        Ok(exe) => exe,
        Err(e) => {
            return Err(e);
        },
    };
    let text = lossy_text(&exe);
    let lowered = to_lower(&chars_of(text.as_str()));
    let needle = chars_of("splunk");
    let is_splunk = contains_part(&lowered, &needle);

    let bin_dir = own_parent(&exe);
    let app_parent = parent(&bin_dir);
    let apps_parent = parent_of_optional(&app_parent);
    let etc_parent = parent_of_optional(&apps_parent);
    let root_candidate = parent_of_optional(&etc_parent);
    proof {
        reveal_with_fuel(levels_up, 5);
    }
    if is_splunk {
        if let Some(root) = root_candidate {
            if let Some(app) = app_parent {
                return Ok(SplunkLocation { root, app, bin: bin_dir });
            }
        }
        let app = own_parent(&bin_dir);
        let root = own_parent(&app);
        return Ok(SplunkLocation { root, app, bin: bin_dir });
    }
    let root = own_parent(&bin_dir);
    let app = bin_dir.clone();
    Ok(SplunkLocation { root, app, bin: bin_dir })
}

} // verus!
