//! What holds of files: the names of log files, what is written into them, where programs live and
//! which files a search finds.
use std::path::PathBuf;

use vstd::prelude::*;
use vstd::utf8::encode_utf8;

use crate::get_splunk_location::{is_splunk_path, levels_up, location_of, SplunkLocation};
use crate::log_rotation::{op_of, place_path, rotation_steps, steps_from, FileOp, FileStep};
use crate::platform::{file_name_text, parent_path, path_text, renamed_path};
use crate::splunk_file_locator::{
    hits, is_hit, search_outcome, walk_depth_of, SearchError, SearchRoot, WalkEntry,
};
use crate::splunk_file_logger::{
    batch_outcome, command_outcome, payload_of, Command, FileLogger, LogEntry, LogError,
    LogErrorKind, Stats,
};
use crate::text::{decimal, lower, occurs_at};

verus! {

// ===== Rotated files =====

/// The log file keeps its path. An old file stands beside it, under its name with a dot and the
/// number of its place behind; a log file without a name counts as `log`.
pub proof fn old_files_are_numbered(base: PathBuf, place: nat)
    ensures
        place_path(base, 0) == base,
        place > 0 && file_name_text(base) is Some ==> place_path(base, place) == renamed_path(
            base,
            file_name_text(base)->0 + seq!['.'] + decimal(place),
        ),
        place > 0 && file_name_text(base) is None ==> place_path(base, place) == renamed_path(
            base,
            seq!['l', 'o', 'g', '.'] + decimal(place),
        ),
{
    if file_name_text(base) is None {
        assert(seq!['l', 'o', 'g'] + seq!['.'] + decimal(place) =~= seq!['l', 'o', 'g', '.']
            + decimal(place));
    }
}

proof fn steps_by_number(top: nat, i: int)
    requires
        0 <= i < top,
    ensures
        steps_from(top, false).len() == 2 * top,
        steps_from(top, false)[2 * i] == FileStep::RemoveIfPresent((top - i) as nat),
        steps_from(top, false)[2 * i + 1] == FileStep::RenameIfPresent(
            (top - i - 1) as nat,
            (top - i) as nat,
        ),
    decreases top,
{
    let below = (top - 1) as nat;
    let rest = steps_from(below, false);
    let head = seq![FileStep::RemoveIfPresent(top)] + (seq![FileStep::RenameIfPresent(below, top)]
        + rest);
    assert(steps_from(top, false) == head);
    if top == 1 {
        assert(rest.len() == 0);
    } else if i == 0 {
        steps_by_number(below, 0);
    } else {
        steps_by_number(below, i - 1);
        assert(head[2 * i] == rest[2 * (i - 1)]);
        assert(head[2 * i + 1] == rest[2 * (i - 1) + 1]);
    }
}

/// A rotation that keeps old files clears the last place, moves the file before it there, and goes
/// on so down to the log file, which moves to the first place: a place is always cleared before a
/// file moves into it, and a file is always moved before its place is cleared. One that keeps none
/// removes the log file.
pub proof fn rotations_go_from_the_last_place_down(base: PathBuf, keep: nat, i: int)
    requires
        0 <= i < keep,
    ensures
        ({
            let steps = rotation_steps(keep);
            let place = (keep - i) as nat;
            let below = (keep - i - 1) as nat;
            &&& steps.len() == 2 * keep
            &&& op_of(base, steps[2 * i]) == FileOp::RemoveIfPresent(place_path(base, place))
            &&& op_of(base, steps[2 * i + 1]) == FileOp::RenameIfPresent(
                place_path(base, below),
                place_path(base, place),
            )
            &&& rotation_steps(0).len() == 1
            &&& op_of(base, rotation_steps(0)[0]) == FileOp::Remove(base)
        }),
{
    steps_by_number(keep, i);
}

// ===== Records =====

/// A record with a header is its time in seconds, its session and the message, in one line; a time
/// before the epoch counts as zero. One without a header is the message.
pub proof fn records_are_written_out(message: Seq<u8>, seconds: u64, session_id: u64)
    ensures
        payload_of(message, true, Some(seconds), session_id) == encode_utf8(
            "time="@ + decimal(seconds as nat) + ", sid="@ + decimal(session_id as nat) + ", "@,
        ) + message,
        payload_of(message, true, None, session_id) == payload_of(message, true, Some(0), session_id),
        payload_of(message, false, Some(seconds), session_id) == message,
        payload_of(message, false, None, session_id) == message,
{
}

/// A logger that is shutting down takes no command and any other takes every command as it is.
pub proof fn commands_pass_until_shutdown(logger: FileLogger, command: Command)
    ensures
        logger.is_shut() ==> command_outcome(logger, command) == Err::<Command, LogError>(
            LogError::ShuttingDown,
        ),
        !logger.is_shut() ==> command_outcome(logger, command) == Ok::<Command, LogError>(command),
{
}

/// A batch without messages is no command. Any other is one command with a record for every message,
/// in order, which a logger that is shutting down refuses.
pub proof fn batches_become_one_command(
    logger: FileLogger,
    entries: Seq<LogEntry>,
    add_header: bool,
    r: Result<Option<Command>, LogError>,
    i: int,
)
    requires
        batch_outcome(logger, entries, add_header, r),
    ensures
        entries.len() == 0 ==> r == Ok::<Option<Command>, LogError>(None),
        entries.len() > 0 && logger.is_shut() ==> r == Err::<Option<Command>, LogError>(
            LogError::ShuttingDown,
        ),
        entries.len() > 0 && !logger.is_shut() ==> {
            &&& r is Ok && r->Ok_0 is Some && r->Ok_0->0 is WriteBatch
            &&& r->Ok_0->0->WriteBatch_0@.len() == entries.len()
            &&& 0 <= i < entries.len() ==> r->Ok_0->0->WriteBatch_0@[i]@ == payload_of(
                entries[i].message@,
                add_header,
                entries[i].clock,
                logger.session(),
            )
        },
{
    if entries.len() > 0 && !logger.is_shut() {
        let batch = r->Ok_0->0->WriteBatch_0@;
        let said = crate::splunk_file_logger::byte_seqs(batch);
        assert(said.len() == entries.len());
        if 0 <= i < entries.len() {
            assert(said[i] == batch[i]@);
        }
    }
}

/// A full queue would block, a worker that panicked is another matter, and all else means that nobody
/// is there to take what is handed over.
pub proof fn errors_have_their_kind(error: LogError)
    ensures
        error.kind_of() is WouldBlock <==> error is QueueFull,
        error.kind_of() is Other <==> error is WorkerPanicked,
        error.kind_of() == LogErrorKind::BrokenPipe <==> error is ShuttingDown
            || error is AlreadyShutDown || error is WorkerDisconnected || error is WriterUnavailable,
        LogError::ShuttingDown.text() == "file logger is shutting down"@,
        LogError::AlreadyShutDown.text() == "file logger already shut down"@,
        LogError::WorkerDisconnected.text() == "logger worker disconnected"@,
        LogError::QueueFull.text() == "logger queue is full"@,
        LogError::WorkerPanicked.text() == "logger worker panicked during shutdown"@,
        LogError::WriterUnavailable.text() == "file logger writer unavailable (flush)"@,
{
}

// ===== Shutting down =====

/// What is known of the handle of a logger.
pub struct Handle {
    pub session: u64,
    pub shut: bool,
    pub ended: Option<Stats>,
}

/// What is known of a handle.
pub open spec fn handle_of(logger: FileLogger) -> Handle {
    Handle { session: logger.session(), shut: logger.is_shut(), ended: logger.ended_with() }
}

/// What a shutdown comes to at first.
pub enum ShutdownAnswer {
    TellWorker,
    Ended(Stats),
    Refused(LogError),
}

/// Beginning a shutdown: the handle after it, and what it comes to.
pub open spec fn begun_shutdown(h: Handle) -> (Handle, ShutdownAnswer) {
    (
        Handle { shut: true, ..h },
        if !h.shut {
            ShutdownAnswer::TellWorker
        } else {
            match h.ended {
                Some(stats) => ShutdownAnswer::Ended(stats),
                None => ShutdownAnswer::Refused(LogError::AlreadyShutDown),
            }
        },
    )
}

/// How waiting for a worker ends.
pub enum WorkerEnd {
    Ended(Stats),
    Panicked,
    NotRunning,
}

/// Ending a shutdown with what the worker answered and how it ended.
pub open spec fn ended_shutdown(h: Handle, answer: Option<Stats>, end: WorkerEnd) -> (
    Handle,
    Result<Stats, LogError>,
) {
    match (answer, end) {
        (None, _) => (h, Err(LogError::WorkerDisconnected)),
        (Some(_), WorkerEnd::Ended(stats)) => (Handle { ended: Some(stats), ..h }, Ok(stats)),
        (Some(stats), WorkerEnd::Panicked) => (
            Handle { ended: Some(stats), ..h },
            Err(LogError::WorkerPanicked),
        ),
        (Some(stats), WorkerEnd::NotRunning) => (Handle { ended: Some(stats), ..h }, Ok(stats)),
    }
}

/// Only the first shutdown tells the worker. A handle that has been shut down stays so, keeps its
/// session, and never tells the worker again, however often it is asked to.
pub proof fn workers_are_told_once(h: Handle)
    ensures
        ({
            let (once, first) = begun_shutdown(h);
            let (twice, second) = begun_shutdown(once);
            &&& first is TellWorker <==> !h.shut
            &&& once.shut && once.session == h.session && once.ended == h.ended
            &&& twice == once
            &&& !(second is TellWorker)
        }),
{
}

/// A shutdown that went well ends with the statistics that the worker ended with, and every later
/// one gives the same; one that was cut off leaves nothing to give, and later ones are refused.
pub proof fn shutdowns_end_with_the_statistics(
    h: Handle,
    answered: Stats,
    stats: Stats,
    end: WorkerEnd,
)
    requires
        !h.shut && h.ended is None,
    ensures
        ({
            let begun = begun_shutdown(h).0;
            let (well, r) = ended_shutdown(begun, Some(answered), WorkerEnd::Ended(stats));
            let (panicked, p) = ended_shutdown(begun, Some(answered), WorkerEnd::Panicked);
            let (joined, q) = ended_shutdown(begun, Some(answered), WorkerEnd::NotRunning);
            let (cut, c) = ended_shutdown(begun, None, end);
            &&& r == Ok::<Stats, LogError>(stats)
            &&& begun_shutdown(well).1 == ShutdownAnswer::Ended(stats)
            &&& q == Ok::<Stats, LogError>(answered)
            &&& begun_shutdown(joined).1 == ShutdownAnswer::Ended(answered)
            &&& p == Err::<Stats, LogError>(LogError::WorkerPanicked)
            &&& begun_shutdown(panicked).1 == ShutdownAnswer::Ended(answered)
            &&& c == Err::<Stats, LogError>(LogError::WorkerDisconnected)
            &&& begun_shutdown(cut).1 == ShutdownAnswer::Refused(LogError::AlreadyShutDown)
            &&& well.shut && joined.shut && panicked.shut && cut.shut
        }),
{
}

// ===== Locations =====

/// An executable belongs to Splunk exactly if six letters in a row of its path are those of the name,
/// each of them large or small.
pub proof fn splunk_is_in_the_path(exe: PathBuf)
    ensures
        is_splunk_path(exe) <==> exists|i: int|
            0 <= i && i + 6 <= path_text(exe).len() && #[trigger] lower(
                path_text(exe).subrange(i, i + 6),
            ) == "splunk"@,
{
    let text = path_text(exe);
    let name = "splunk"@;
    reveal_strlit("splunk");
    assert forall|i: int| 0 <= i && i + 6 <= text.len() implies #[trigger] lower(
        text.subrange(i, i + 6),
    ) == lower(text).subrange(i, i + 6) by {
        assert(lower(text.subrange(i, i + 6)) =~= lower(text).subrange(i, i + 6));
    }
    if is_splunk_path(exe) {
        let i = choose|i: int| occurs_at(lower(text), name, i);
        assert(lower(text.subrange(i, i + 6)) == name);
    }
    if exists|i: int|
        0 <= i && i + 6 <= text.len() && #[trigger] lower(text.subrange(i, i + 6)) == name {
        let i = choose|i: int|
            0 <= i && i + 6 <= text.len() && #[trigger] lower(text.subrange(i, i + 6)) == name;
        assert(occurs_at(lower(text), name, i));
    }
}

/// In a Splunk environment the bin directory is that of the executable, the app is above it, and the
/// root is three levels above the app. Where one of these levels is missing, the root is the one
/// above the app.
pub proof fn splunk_is_laid_out_in_levels(
    exe: PathBuf,
    bin: PathBuf,
    app: PathBuf,
    apps: PathBuf,
    etc: PathBuf,
)
    requires
        is_splunk_path(exe),
        parent_path(exe) == Some(bin),
        parent_path(bin) == Some(app),
    ensures
        location_of(exe).bin == bin,
        location_of(exe).app == app,
        parent_path(app) is None ==> location_of(exe).root == app,
        parent_path(app) == Some(apps) && parent_path(apps) is None ==> location_of(exe).root == apps,
        parent_path(app) == Some(apps) && parent_path(apps) == Some(etc) ==> location_of(exe).root
            == (match parent_path(etc) {
            Some(root) => root,
            None => apps,
        }),
{
    reveal_with_fuel(levels_up, 5);
}

/// An executable right below the top has its directory for everything, in a Splunk environment as
/// elsewhere, and one without a directory is its own.
pub proof fn there_is_nothing_above_the_top(exe: PathBuf, bin: PathBuf)
    ensures
        parent_path(exe) == Some(bin) && parent_path(bin) is None ==> location_of(exe) == (
        SplunkLocation { root: bin, app: bin, bin }),
        parent_path(exe) is None ==> location_of(exe) == (SplunkLocation {
            root: exe,
            app: exe,
            bin: exe,
        }),
{
    reveal_with_fuel(levels_up, 5);
}

/// Outside Splunk the directory of the executable is both the bin and the app directory, and the root
/// is the one above it.
pub proof fn other_programs_have_two_levels(exe: PathBuf, bin: PathBuf, root: PathBuf)
    requires
        !is_splunk_path(exe),
        parent_path(exe) == Some(bin),
        parent_path(bin) == Some(root),
    ensures
        location_of(exe) == (SplunkLocation { root, app: bin, bin }),
{
}

// ===== Searching =====

/// Whether an entry counts: a regular file, no link, of that name, in a directory no deeper than the
/// given number of levels.
pub open spec fn counts(entry: WalkEntry, target: Seq<u8>, max_depth: nat) -> bool {
    !entry.is_symlink && entry.is_file && entry.name@ == target && entry.depth - 1 <= max_depth
}

/// A search finds the paths of all entries that count, in the order of the walk, and no others.
pub proof fn searches_find_what_counts(entries: Seq<WalkEntry>, target: Seq<u8>, max_depth: nat)
    ensures
        hits(entries, target, max_depth) == entries.filter(
            |e: WalkEntry| counts(e, target, max_depth),
        ).map_values(|e: WalkEntry| e.path),
    decreases entries.len(),
{
    reveal(Seq::filter);
    let p = |e: WalkEntry| counts(e, target, max_depth);
    let path = |e: WalkEntry| e.path;
    let found = entries.filter(p).map_values(path);
    if entries.len() == 0 {
        assert(found =~= Seq::empty());
    } else {
        let fewer = entries.drop_last();
        let last = entries.last();
        searches_find_what_counts(fewer, target, max_depth);
        assert(is_hit(last, target, max_depth) <==> counts(last, target, max_depth));
        if p(last) {
            assert(entries.filter(p) == fewer.filter(p).push(last));
            assert(found =~= fewer.filter(p).map_values(path).push(last.path));
        } else {
            assert(entries.filter(p) == fewer.filter(p));
        }
        assert(hits(entries, target, max_depth) =~= found);
    }
}

/// A root that is not there, or is no directory, gives no files and no error; one that cannot be
/// looked at gives its error; a directory gives what is found in it, and an error that names what
/// was searched for, and where, if that is nothing.
pub proof fn searches_answer(
    root: SearchRoot,
    root_text: Seq<char>,
    target: Seq<u8>,
    target_text: Seq<char>,
    max_depth: nat,
    r: Result<Vec<PathBuf>, SearchError>,
)
    requires
        search_outcome(root, root_text, target, target_text, max_depth, r),
    ensures
        root is Missing || root is NotADirectory ==> r is Ok && r->Ok_0@.len() == 0,
        root matches SearchRoot::Unreadable(e) ==> r is Err && r->Err_0 == SearchError::Io(e),
        root matches SearchRoot::Directory(entries) ==> {
            let found = entries@.filter(|e: WalkEntry| counts(e, target, max_depth));
            &&& found.len() > 0 ==> r is Ok && r->Ok_0@ == found.map_values(|e: WalkEntry| e.path)
            &&& found.len() == 0 ==> r is Err && r->Err_0 is NotFound && r->Err_0->NotFound_0@
                == "No files found matching "@ + target_text + " in "@ + root_text
        },
{
    if let SearchRoot::Directory(entries) = root {
        searches_find_what_counts(entries@, target, max_depth);
    }
}

/// A walk goes one level deeper than the directories that are searched.
pub proof fn walks_go_one_level_deeper(max_depth: usize)
    ensures
        max_depth < usize::MAX ==> walk_depth_of(max_depth as nat) == max_depth + 1,
        max_depth == usize::MAX ==> walk_depth_of(max_depth as nat) == usize::MAX,
{
}

} // verus!
