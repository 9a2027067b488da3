//! Rotation of log files: which files are removed and renamed, in which order, and what comes of it.
//!
//! A log file and the files rotated out of it stand in numbered places: the log file in place
//! zero, the file rotated out last in place one, and so on.
use std::path::PathBuf;

use vstd::prelude::*;
use vstd::string::StringExecFns;

use crate::platform::{file_name, file_name_text, renamed_path, with_file_name};
use crate::text::{decimal, decimal_is_injective, decimal_string};

verus! {

// ===== Places and paths =====

/// The name of the file in a place other than zero: the name of the log file, or `log` where its
/// path has no last part, then a dot and the number of the place.
pub open spec fn rotated_name(base: PathBuf, place: nat) -> Seq<char> {
    (match file_name_text(base) {
        Some(name) => name,
        None => seq!['l', 'o', 'g'],
    }) + seq!['.'] + decimal(place)
}

/// The path of the file in a place.
pub open spec fn place_path(base: PathBuf, place: nat) -> PathBuf {
    if place == 0 {
        base
    } else {
        renamed_path(base, rotated_name(base, place))
    }
}

/// Files in different places have different names.
pub proof fn rotated_names_differ(base: PathBuf, place: nat, other: nat)
    requires
        rotated_name(base, place) == rotated_name(base, other),
    ensures
        place == other,
{
    let stem = match file_name_text(base) {
        Some(name) => name,
        None => seq!['l', 'o', 'g'],
    };
    let start = stem.len() as int + 1;
    assert(rotated_name(base, place).skip(start) =~= decimal(place));
    assert(rotated_name(base, other).skip(start) =~= decimal(other));
    decimal_is_injective(place, other);
}

/// The path of a file that has been rotated out.
pub fn rotated_path(base: &PathBuf, place: usize) -> (r: PathBuf)
    ensures
        r == renamed_path(*base, rotated_name(*base, place as nat)),
{
    let mut name: String = match file_name(base) {
        Some(n) => n,
        None => {
            proof {
                reveal_strlit("log");
                assert("log"@ =~= seq!['l', 'o', 'g']);
            }
            "log".to_string()
        },
    };
    let ghost stem = name@;
    name.push('.');
    name.append(decimal_string(place as u64).as_str());
    assert(name@ =~= stem + seq!['.'] + decimal(place as nat));
    with_file_name(base, name.as_str())
}

/// The path of the file in a place.
fn path_in_place(base: &PathBuf, place: usize) -> (r: PathBuf)
    ensures
        r == place_path(*base, place as nat),
{
    if place == 0 {
        base.clone()
    } else {
        rotated_path(base, place)
    }
}

// ===== The steps of a rotation =====

/// A step of a rotation, by places.
pub enum FileStep {
    /// The file has to go; that it is not there is no error.
    Remove(nat),
    /// The file has to go if it is there.
    RemoveIfPresent(nat),
    /// The file moves to another place if it is there.
    RenameIfPresent(nat, nat),
}

/// The steps that are left when the file in place `place` is next; with `renaming`, its place has
/// been cleared already.
pub open spec fn steps_from(place: nat, renaming: bool) -> Seq<FileStep>
    decreases place,
{
    if place == 0 {
        Seq::empty()
    } else {
        let below = (place - 1) as nat;
        let moved = seq![FileStep::RenameIfPresent(below, place)] + steps_from(below, false);
        if renaming {
            moved
        } else {
            seq![FileStep::RemoveIfPresent(place)] + moved
        }
    }
}

/// The steps of a rotation that keeps `keep` old files: from the last place to the first, each
/// place is cleared and the file before it moves in. With no old files the log file is removed.
pub open spec fn rotation_steps(keep: nat) -> Seq<FileStep> {
    if keep == 0 {
        seq![FileStep::Remove(0)]
    } else {
        steps_from(keep, false)
    }
}

/// A step of a rotation, by paths.
pub enum FileOp {
    Remove(PathBuf),
    RemoveIfPresent(PathBuf),
    RenameIfPresent(PathBuf, PathBuf),
}

/// A step with the paths of its places.
pub open spec fn op_of(base: PathBuf, step: FileStep) -> FileOp {
    match step {
        FileStep::Remove(p) => FileOp::Remove(place_path(base, p)),
        FileStep::RemoveIfPresent(p) => FileOp::RemoveIfPresent(place_path(base, p)),
        FileStep::RenameIfPresent(p, q) => FileOp::RenameIfPresent(
            place_path(base, p),
            place_path(base, q),
        ),
    }
}

/// Where a rotation stands.
#[derive(Clone, Copy)]
pub struct Rotation {
    /// The place whose file is next; zero where the log file itself is to be removed.
    place: usize,
    renaming: bool,
}

impl Rotation {
    /// The steps that are left, the next one first.
    pub closed spec fn left(self) -> Seq<FileStep> {
        if self.place == 0 {
            seq![FileStep::Remove(0)]
        } else {
            steps_from(self.place as nat, self.renaming)
        }
    }

    /// A rotation that is about to begin.
    pub fn new(keep: usize) -> (r: Self)
        ensures
            r.left() == rotation_steps(keep as nat),
            r.left().len() > 0,
    {
        Rotation { place: keep, renaming: false }
    }

    /// The next step.
    pub fn op(&self, base: &PathBuf) -> (r: FileOp)
        ensures
            self.left().len() > 0,
            r == op_of(*base, self.left().first()),
    {
        if self.place == 0 {
            FileOp::Remove(path_in_place(base, 0))
        } else if self.renaming {
            FileOp::RenameIfPresent(
                path_in_place(base, self.place - 1),
                path_in_place(base, self.place),
            )
        } else {
            FileOp::RemoveIfPresent(path_in_place(base, self.place))
        }
    }

    /// The rotation after the next step, or `None` where that was the last.
    pub fn advanced(&self) -> (r: Option<Self>)
        ensures
            match r {
                Some(next) => next.left() == self.left().drop_first() && next.left().len() > 0,
                None => self.left().len() == 1,
            },
    {
        if self.place == 0 {
            None
        } else if !self.renaming {
            let next = Rotation { place: self.place, renaming: true };
            assert(self.left().drop_first() =~= next.left());
            Some(next)
        } else if self.place == 1 {
            assert(steps_from(0, false) =~= Seq::empty());
            None
        } else {
            let next = Rotation { place: self.place - 1, renaming: false };
            assert(self.left().drop_first() =~= next.left());
            Some(next)
        }
    }
}

// ===== What comes of a rotation =====

/// The contents of the files by their places.
pub type Files = Map<nat, Seq<u8>>;

/// The files after a step that went well.
pub open spec fn after_step(files: Files, step: FileStep) -> Files {
    match step {
        FileStep::Remove(p) => files.remove(p),
        FileStep::RemoveIfPresent(p) => files.remove(p),
        FileStep::RenameIfPresent(p, q) => if files.contains_key(p) {
            files.remove(p).insert(q, files[p])
        } else {
            files
        },
    }
}

/// The files after several steps.
pub open spec fn after_steps(files: Files, steps: Seq<FileStep>) -> Files
    decreases steps.len(),
{
    if steps.len() == 0 {
        files
    } else {
        after_steps(after_step(files, steps.first()), steps.drop_first())
    }
}

/// The file in a place, if there is one.
pub open spec fn file_in(files: Files, place: nat) -> Option<Seq<u8>> {
    if files.contains_key(place) {
        Some(files[place])
    } else {
        None
    }
}

proof fn steps_shift(files: Files, top: nat)
    requires
        top > 0,
    ensures
        file_in(after_steps(files, steps_from(top, false)), 0) is None,
        forall|p: nat|
            1 <= p <= top ==> #[trigger] file_in(after_steps(files, steps_from(top, false)), p)
                == file_in(files, (p - 1) as nat),
        forall|p: nat|
            p > top ==> #[trigger] file_in(after_steps(files, steps_from(top, false)), p)
                == file_in(files, p),
    decreases top,
{
    let below = (top - 1) as nat;
    let steps = steps_from(top, false);
    let rest = steps_from(below, false);
    let cleared = files.remove(top);
    let moved = after_step(cleared, FileStep::RenameIfPresent(below, top));
    assert(steps.first() == FileStep::RemoveIfPresent(top));
    assert(steps.drop_first() =~= seq![FileStep::RenameIfPresent(below, top)] + rest);
    assert(steps.drop_first().drop_first() =~= rest);
    assert(after_steps(files, steps) == after_steps(cleared, steps.drop_first()));
    assert(after_steps(cleared, steps.drop_first()) == after_steps(moved, rest));
    assert(file_in(moved, top) == file_in(files, below));
    if below > 0 {
        steps_shift(moved, below);
        assert forall|p: nat| 1 <= p <= top implies #[trigger] file_in(after_steps(files, steps), p)
            == file_in(files, (p - 1) as nat) by {
            if p <= below {
                assert(file_in(after_steps(moved, rest), p) == file_in(moved, (p - 1) as nat));
            } else {
                assert(file_in(after_steps(moved, rest), p) == file_in(moved, p));
            }
        }
        assert forall|p: nat| p > top implies #[trigger] file_in(after_steps(files, steps), p)
            == file_in(files, p) by {
            assert(file_in(after_steps(moved, rest), p) == file_in(moved, p));
        }
    } else {
        assert(after_steps(moved, rest) == moved);
    }
}

/// A rotation whose steps all went well moves every file up by one place. The file in the last
/// place is gone, the place of the log file is free, and files behind the last place are not
/// touched. With no old files to keep, the log file is gone and nothing else is touched.
pub proof fn rotation_shifts_files(files: Files, keep: nat, place: nat)
    ensures
        file_in(after_steps(files, rotation_steps(keep)), place) == (if place == 0 {
            None
        } else if place <= keep {
            file_in(files, (place - 1) as nat)
        } else {
            file_in(files, place)
        }),
{
    if keep == 0 {
        let steps = rotation_steps(0);
        assert(steps.drop_first() =~= Seq::empty());
        assert(after_steps(files.remove(0), steps.drop_first()) == files.remove(0));
    } else {
        steps_shift(files, keep);
    }
}

} // verus!
