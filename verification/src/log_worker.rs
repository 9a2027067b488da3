//! The worker behind a file logger: what it does next, step by step.
//!
//! The worker asks for one action at a time and is told what came of it. It takes a command,
//! carries it out with writes, flushes and file operations, answers where an answer is waited
//! for, flushes what is due, and asks for the next command.
use std::time::{Duration, SystemTime};

use vstd::prelude::*;

use crate::log_rotation::{op_of, rotation_steps, FileOp, FileStep, Rotation};
use crate::platform::{as_nanos, nanos_of};
use crate::splunk_file_logger::{
    byte_seqs, optional_text, Command, FileLoggerConfig, FileLoggerStats, LogError, Stats, WorkerError,
};
use crate::worker_laws::{agrees, seen_at_first, Watch};

verus! {

// ===== What goes in and out =====

/// A failed action: the error, its text, and whether it says that a file is not there.
pub struct Failure {
    pub error: std::io::Error,
    pub text: String,
    pub not_found: bool,
}

/// What came of the last action.
pub enum Event {
    /// A command came.
    Received(Command),
    /// No command came in time.
    TimedOut,
    /// No command will come any more.
    Disconnected,
    /// The action went well.
    Done,
    /// The log file is open, and has this size.
    Opened(u64),
    /// The action failed.
    Failed(Failure),
}

/// When an event came: the time since the worker started, and the time of the system clock.
#[derive(Clone, Copy)]
pub struct Tick {
    pub uptime: Duration,
    pub clock: SystemTime,
}

/// What has to be done next.
pub enum Action {
    /// Wait for a command, for so long at most.
    Receive(Option<Duration>),
    /// Write all of this.
    WriteAll(Vec<u8>),
    /// Flush the writer.
    FlushWriter,
    /// Make what was written durable.
    SyncAll,
    /// Close the log file.
    CloseWriter,
    /// Remove or rename a file.
    Move(FileOp),
    /// Open the log file, emptied or to be appended to.
    Open(bool),
    /// Answer the command.
    Reply(Result<(), WorkerError>),
    /// Answer the command with statistics.
    ReplyStats(FileLoggerStats),
    /// Panic, rather than lose records in silence.
    Panic,
    /// End, with these statistics; where a shutdown was asked for, they are also the answer.
    Stop(FileLoggerStats),
}

/// What a worker panics with.
pub fn panic_message() -> (r: String)
    ensures
        r@
            == "File logger writer is unavailable due to a rotation failure. Panicking to prevent silent data loss."@,
{
    "File logger writer is unavailable due to a rotation failure. Panicking to prevent silent data loss.".to_string()
}

/// Who a rotation is for.
#[derive(Clone, Copy, PartialEq, Eq, Structural)]
pub enum RotateFor {
    /// A rotation that was asked for.
    Command,
    /// A record that no longer fits.
    Write,
}

/// Who a flush is for.
#[derive(Clone, Copy, PartialEq, Eq, Structural)]
pub enum FlushFor {
    /// A flush that was asked for.
    Command,
    /// A sync that was asked for.
    Sync,
    /// A rotation.
    Rotate(RotateFor),
    /// The flush interval.
    Due,
    /// The end of the worker.
    End,
}

// ===== The meaning of the steps =====

/// What an action says.
pub enum Act {
    Receive(Option<Duration>),
    WriteAll(Seq<u8>),
    FlushWriter,
    SyncAll,
    CloseWriter,
    Move(FileOp),
    Open(bool),
    Reply(Result<(), WorkerError>),
    ReplyStats(Stats),
    Panic,
    Stop(Stats),
}

impl View for Action {
    type V = Act;

    open spec fn view(&self) -> Act {
        match *self {
            Action::Receive(d) => Act::Receive(d),
            Action::WriteAll(v) => Act::WriteAll(v@),
            Action::FlushWriter => Act::FlushWriter,
            Action::SyncAll => Act::SyncAll,
            Action::CloseWriter => Act::CloseWriter,
            Action::Move(op) => Act::Move(op),
            Action::Open(t) => Act::Open(t),
            Action::Reply(r) => Act::Reply(r),
            Action::ReplyStats(s) => Act::ReplyStats(s@),
            Action::Panic => Act::Panic,
            Action::Stop(s) => Act::Stop(s@),
        }
    }
}

/// What a worker knows of its file and its work.
pub struct Core {
    /// Whether the log file is open.
    pub open: bool,
    /// The size of the log file.
    pub size: u64,
    /// Whether something was written since the last flush.
    pub dirty: bool,
    /// When a flush is due, in nanoseconds since the start.
    pub deadline: Option<nat>,
    pub bytes: u64,
    pub records: u64,
    pub flushes: u64,
    pub rotations: u64,
    pub started_at: SystemTime,
    pub last_flush_at: Option<SystemTime>,
    pub last_error: Option<Seq<char>>,
}

/// What a worker is doing.
pub enum Stage {
    /// Waiting for a command.
    Waiting,
    /// Flushing the writer.
    Flushing(FlushFor),
    /// Making the flushed data durable, as a part of the flush.
    FlushSyncing(FlushFor),
    /// Making the data durable for a sync that was asked for.
    Syncing,
    /// Closing the log file for a rotation.
    Closing(RotateFor),
    /// Moving files; the steps that are left begin with the one under way.
    Moving(RotateFor, Seq<FileStep>),
    /// Opening the log file after moving files, which may have failed.
    Opening(RotateFor, Option<Failure>),
    /// Writing a record of that length.
    Writing(u64),
    /// The command has been answered.
    Replied,
    /// Nothing any more.
    Stopped,
}

/// A worker between two actions.
pub struct Model {
    pub core: Core,
    pub stage: Stage,
    /// The records that are still to be written, in order.
    pub backlog: Seq<Seq<u8>>,
}

/// The sum of two counts of 64 bits, which starts over at zero.
pub open spec fn wrapped_sum(a: u64, b: u64) -> u64 {
    if a + b > u64::MAX {
        (a + b - 18446744073709551616) as u64
    } else {
        (a + b) as u64
    }
}

/// A record with a line feed at its end, where one is wanted and missing.
pub open spec fn line_of(config: FileLoggerConfig, payload: Seq<u8>) -> Seq<u8> {
    if config.ensure_newline && !(payload.len() > 0 && payload.last() == 10) {
        payload.push(10)
    } else {
        payload
    }
}

/// When the next flush is due, counted from now.
pub open spec fn next_deadline(config: FileLoggerConfig, core: Core, tick: Tick) -> Option<nat> {
    match config.auto_flush_interval {
        Some(interval) => Some(nanos_of(tick.uptime) + nanos_of(interval)),
        None => core.deadline,
    }
}

/// Whether a flush is due.
pub open spec fn is_due(core: Core, tick: Tick) -> bool {
    core.dirty && match core.deadline {
        Some(deadline) => nanos_of(tick.uptime) >= deadline,
        None => false,
    }
}

/// Whether a record of that length needs a rotation first.
pub open spec fn needs_rotation(config: FileLoggerConfig, core: Core, len: nat) -> bool {
    match config.rotate_size_bytes {
        Some(limit) => limit > 0 && core.size + len > limit,
        None => false,
    }
}

/// The last error.
pub open spec fn with_error(core: Core, text: Seq<char>) -> Core {
    Core { last_error: Some(text), ..core }
}

/// After a flush that went well. It counts if something had been written.
pub open spec fn after_flush(config: FileLoggerConfig, core: Core, tick: Tick) -> Core {
    Core {
        dirty: false,
        flushes: if core.dirty { wrapped_sum(core.flushes, 1) } else { core.flushes },
        last_flush_at: if core.dirty { Some(tick.clock) } else { core.last_flush_at },
        deadline: next_deadline(config, core, tick),
        ..core
    }
}

/// After a write that went well.
pub open spec fn after_write(config: FileLoggerConfig, core: Core, len: u64, tick: Tick) -> Core {
    Core {
        size: wrapped_sum(core.size, len),
        bytes: wrapped_sum(core.bytes, len),
        records: wrapped_sum(core.records, 1),
        dirty: true,
        deadline: next_deadline(config, core, tick),
        ..core
    }
}

/// After the log file was opened again. Moving files counts if it went well; the log file is then
/// empty.
pub open spec fn after_open(
    config: FileLoggerConfig,
    core: Core,
    moved: bool,
    size: u64,
    tick: Tick,
) -> Core {
    Core {
        open: true,
        size: if moved { 0 } else { size },
        dirty: false,
        deadline: next_deadline(config, core, tick),
        rotations: if moved { wrapped_sum(core.rotations, 1) } else { core.rotations },
        ..core
    }
}

/// The statistics of this moment.
pub open spec fn stats_of(core: Core, tick: Tick) -> Stats {
    Stats {
        bytes_written: core.bytes,
        records_written: core.records,
        flush_count: core.flushes,
        rotate_count: core.rotations,
        uptime: tick.uptime,
        started_at: core.started_at,
        last_flush_at: core.last_flush_at,
        last_error: core.last_error,
    }
}

/// Asks for the next command.
pub open spec fn wait(config: FileLoggerConfig, m: Model) -> (Model, Act) {
    (Model { stage: Stage::Waiting, ..m }, Act::Receive(config.auto_flush_interval))
}

/// Ends a command: flushes what is due, then asks for the next command.
pub open spec fn settle(config: FileLoggerConfig, m: Model, tick: Tick) -> (Model, Act) {
    if !is_due(m.core, tick) {
        wait(config, m)
    } else if m.core.open {
        (Model { stage: Stage::Flushing(FlushFor::Due), ..m }, Act::FlushWriter)
    } else {
        wait(config, Model { core: with_error(m.core, LogError::WriterUnavailable.text()), ..m })
    }
}

/// Answers a command.
pub open spec fn answer(m: Model, result: Result<(), WorkerError>) -> (Model, Act) {
    (Model { stage: Stage::Replied, ..m }, Act::Reply(result))
}

/// Ends the worker.
pub open spec fn stop(m: Model, tick: Tick) -> (Model, Act) {
    (Model { stage: Stage::Stopped, ..m }, Act::Stop(stats_of(m.core, tick)))
}

/// Gives up what is still to be written, because of an error.
pub open spec fn give_up(config: FileLoggerConfig, m: Model, text: Seq<char>, tick: Tick) -> (
    Model,
    Act,
) {
    settle(config, Model { core: with_error(m.core, text), backlog: Seq::empty(), ..m }, tick)
}

/// A flush failed.
pub open spec fn flush_failed(
    config: FileLoggerConfig,
    m: Model,
    why: FlushFor,
    error: WorkerError,
    text: Seq<char>,
    tick: Tick,
) -> (Model, Act) {
    let noted = Model { core: with_error(m.core, text), ..m };
    match why {
        FlushFor::Command => answer(noted, Err(error)),
        FlushFor::Sync => answer(noted, Err(error)),
        FlushFor::Rotate(RotateFor::Command) => answer(noted, Err(error)),
        FlushFor::Rotate(RotateFor::Write) => give_up(config, m, text, tick),
        FlushFor::Due => wait(config, noted),
        FlushFor::End => stop(noted, tick),
    }
}

/// Begins a flush. Without an open file it fails at once.
pub open spec fn begin_flush(config: FileLoggerConfig, m: Model, why: FlushFor, tick: Tick) -> (
    Model,
    Act,
) {
    if m.core.open {
        (Model { stage: Stage::Flushing(why), ..m }, Act::FlushWriter)
    } else {
        flush_failed(
            config,
            m,
            why,
            WorkerError::Logger(LogError::WriterUnavailable),
            LogError::WriterUnavailable.text(),
            tick,
        )
    }
}

/// A flush went well.
pub open spec fn flush_done(config: FileLoggerConfig, m: Model, why: FlushFor, tick: Tick) -> (
    Model,
    Act,
) {
    let flushed = Model { core: after_flush(config, m.core, tick), ..m };
    match why {
        FlushFor::Command => answer(flushed, Ok(())),
        FlushFor::Sync => (Model { stage: Stage::Syncing, ..flushed }, Act::SyncAll),
        FlushFor::Rotate(who) => (
            Model {
                core: Core { open: false, ..flushed.core },
                stage: Stage::Closing(who),
                ..flushed
            },
            Act::CloseWriter,
        ),
        FlushFor::Due => wait(config, flushed),
        FlushFor::End => stop(flushed, tick),
    }
}

/// Writes the next record. Without an open file the worker panics.
pub open spec fn write_next(m: Model) -> (Model, Act) {
    if m.core.open {
        (
            Model {
                stage: Stage::Writing(m.backlog.first().len() as u64),
                backlog: m.backlog.drop_first(),
                ..m
            },
            Act::WriteAll(m.backlog.first()),
        )
    } else {
        (Model { stage: Stage::Stopped, ..m }, Act::Panic)
    }
}

/// Goes on with what is to be written, with a rotation first where one is needed.
pub open spec fn go_on_writing(config: FileLoggerConfig, m: Model, tick: Tick) -> (Model, Act) {
    if m.backlog.len() == 0 {
        settle(config, m, tick)
    } else if needs_rotation(config, m.core, m.backlog.first().len()) {
        begin_flush(config, m, FlushFor::Rotate(RotateFor::Write), tick)
    } else {
        write_next(m)
    }
}

/// Takes a command.
pub open spec fn take_command(config: FileLoggerConfig, m: Model, command: Command, tick: Tick) -> (
    Model,
    Act,
) {
    match command {
        Command::Write(payload) => go_on_writing(
            config,
            Model { backlog: seq![line_of(config, payload@)], ..m },
            tick,
        ),
        Command::WriteBatch(batch) => go_on_writing(
            config,
            Model { backlog: byte_seqs(batch@).map_values(|p: Seq<u8>| line_of(config, p)), ..m },
            tick,
        ),
        Command::Flush => begin_flush(config, m, FlushFor::Command, tick),
        Command::Sync => begin_flush(config, m, FlushFor::Sync, tick),
        Command::Rotate => begin_flush(config, m, FlushFor::Rotate(RotateFor::Command), tick),
        Command::Stats => (
            Model { stage: Stage::Replied, ..m },
            Act::ReplyStats(stats_of(m.core, tick)),
        ),
        Command::Shutdown => begin_flush(config, m, FlushFor::End, tick),
    }
}

/// Moves the next file, or opens the log file anew where all are moved.
pub open spec fn move_next(config: FileLoggerConfig, m: Model, who: RotateFor, steps: Seq<FileStep>) -> (
    Model,
    Act,
) {
    if steps.len() > 0 {
        (
            Model { stage: Stage::Moving(who, steps), ..m },
            Act::Move(op_of(config.base_path, steps.first())),
        )
    } else {
        (Model { stage: Stage::Opening(who, None), ..m }, Act::Open(true))
    }
}

/// A rotation failed.
pub open spec fn rotation_failed(
    config: FileLoggerConfig,
    m: Model,
    who: RotateFor,
    failure: Failure,
    tick: Tick,
) -> (Model, Act) {
    match who {
        RotateFor::Command => answer(
            Model { core: with_error(m.core, failure.text@), ..m },
            Err(WorkerError::Io(failure.error)),
        ),
        RotateFor::Write => give_up(config, m, failure.text@, tick),
    }
}

/// The log file is open again.
pub open spec fn reopened(
    config: FileLoggerConfig,
    m: Model,
    who: RotateFor,
    failure: Option<Failure>,
    size: u64,
    tick: Tick,
) -> (Model, Act) {
    let open = Model { core: after_open(config, m.core, failure is None, size, tick), ..m };
    match failure {
        Some(f) => rotation_failed(config, open, who, f, tick),
        None => match who {
            RotateFor::Command => answer(open, Ok(())),
            RotateFor::Write => write_next(open),
        },
    }
}

/// Whether the event can come in that stage.
pub open spec fn expects(stage: Stage, event: Event) -> bool {
    match stage {
        Stage::Waiting => event is Received || event is TimedOut || event is Disconnected,
        Stage::Flushing(_) => event is Done || event is Failed,
        Stage::FlushSyncing(_) => event is Done || event is Failed,
        Stage::Syncing => event is Done || event is Failed,
        Stage::Closing(_) => event is Done,
        Stage::Moving(_, _) => event is Done || event is Failed,
        Stage::Opening(_, _) => event is Opened || event is Failed,
        Stage::Writing(_) => event is Done || event is Failed,
        Stage::Replied => event is Done,
        Stage::Stopped => false,
    }
}

/// What an event does: the worker after it, and the next action.
pub open spec fn step(config: FileLoggerConfig, m: Model, event: Event, tick: Tick) -> (Model, Act) {
    match (m.stage, event) {
        (Stage::Waiting, Event::Received(command)) => take_command(config, m, command, tick),
        (Stage::Waiting, Event::Disconnected) => begin_flush(config, m, FlushFor::End, tick),
        (Stage::Flushing(why), Event::Done) => if config.sync_on_flush {
            (Model { stage: Stage::FlushSyncing(why), ..m }, Act::SyncAll)
        } else {
            flush_done(config, m, why, tick)
        },
        (Stage::FlushSyncing(why), Event::Done) => flush_done(config, m, why, tick),
        (Stage::Flushing(why), Event::Failed(f)) => flush_failed(
            config,
            m,
            why,
            WorkerError::Io(f.error),
            f.text@,
            tick,
        ),
        (Stage::FlushSyncing(why), Event::Failed(f)) => flush_failed(
            config,
            m,
            why,
            WorkerError::Io(f.error),
            f.text@,
            tick,
        ),
        (Stage::Syncing, Event::Done) => answer(m, Ok(())),
        (Stage::Syncing, Event::Failed(f)) => answer(
            Model { core: with_error(m.core, f.text@), ..m },
            Err(WorkerError::Io(f.error)),
        ),
        (Stage::Closing(who), Event::Done) => move_next(
            config,
            m,
            who,
            rotation_steps(config.max_rotate_files as nat),
        ),
        (Stage::Moving(who, steps), Event::Done) => move_next(config, m, who, steps.drop_first()),
        (Stage::Moving(who, steps), Event::Failed(f)) => if f.not_found {
            move_next(config, m, who, steps.drop_first())
        } else {
            (
                Model {
                    core: with_error(m.core, f.text@),
                    stage: Stage::Opening(who, Some(f)),
                    ..m
                },
                Act::Open(false),
            )
        },
        (Stage::Opening(who, failure), Event::Opened(size)) => reopened(
            config,
            m,
            who,
            failure,
            size,
            tick,
        ),
        (Stage::Opening(who, _), Event::Failed(f)) => rotation_failed(config, m, who, f, tick),
        (Stage::Writing(len), Event::Done) => go_on_writing(
            config,
            Model { core: after_write(config, m.core, len, tick), ..m },
            tick,
        ),
        (Stage::Writing(_), Event::Failed(f)) => give_up(config, m, f.text@, tick),
        _ => settle(config, m, tick),
    }
}

/// Whether a flush leads to a write.
pub open spec fn leads_to_write(why: FlushFor) -> bool {
    why == FlushFor::Rotate(RotateFor::Write)
}

/// What holds of a worker between two actions: where it flushes, syncs or writes, the log file is
/// open; where it closes, moves and opens files, it is closed; where a rotation is for a record,
/// there is a record.
pub open spec fn in_order(m: Model) -> bool {
    match m.stage {
        Stage::Flushing(why) => m.core.open && (leads_to_write(why) ==> m.backlog.len() > 0),
        Stage::FlushSyncing(why) => m.core.open && (leads_to_write(why) ==> m.backlog.len() > 0),
        Stage::Syncing => m.core.open,
        Stage::Writing(_) => m.core.open,
        Stage::Closing(who) => !m.core.open && (who == RotateFor::Write ==> m.backlog.len() > 0),
        Stage::Moving(who, steps) => !m.core.open && steps.len() > 0 && (who == RotateFor::Write
            ==> m.backlog.len() > 0),
        Stage::Opening(who, _) => !m.core.open && (who == RotateFor::Write ==> m.backlog.len() > 0),
        _ => true,
    }
}

// ===== The worker =====

/// What a worker is doing, with where a rotation stands.
#[derive(Clone, Copy)]
enum Doing {
    Waiting,
    Flushing(FlushFor),
    FlushSyncing(FlushFor),
    Syncing,
    Closing(RotateFor),
    Moving(RotateFor, Rotation),
    Opening(RotateFor),
    Writing(u64),
    Replied,
    Stopped,
}

spec fn stage_of(doing: Doing, failure: Option<Failure>) -> Stage {
    match doing {
        Doing::Waiting => Stage::Waiting,
        Doing::Flushing(why) => Stage::Flushing(why),
        Doing::FlushSyncing(why) => Stage::FlushSyncing(why),
        Doing::Syncing => Stage::Syncing,
        Doing::Closing(who) => Stage::Closing(who),
        Doing::Moving(who, rotation) => Stage::Moving(who, rotation.left()),
        Doing::Opening(who) => Stage::Opening(who, failure),
        Doing::Writing(len) => Stage::Writing(len),
        Doing::Replied => Stage::Replied,
        Doing::Stopped => Stage::Stopped,
    }
}

/// The worker of a file logger.
pub struct LogWorker {
    config: FileLoggerConfig,
    open: bool,
    size: u64,
    dirty: bool,
    deadline: Option<u128>,
    bytes: u64,
    records: u64,
    flushes: u64,
    rotations: u64,
    started_at: SystemTime,
    last_flush_at: Option<SystemTime>,
    last_error: Option<String>,
    doing: Doing,
    /// While the log file is opened after moving files: why that failed, if it did.
    failure: Option<Failure>,
    /// The records that are still to be written, the next one last.
    backlog: Vec<Vec<u8>>,
}

spec fn backlog_of(backlog: Seq<Vec<u8>>) -> Seq<Seq<u8>> {
    Seq::new(backlog.len(), |i: int| backlog[backlog.len() - 1 - i]@)
}

impl View for LogWorker {
    type V = Model;

    closed spec fn view(&self) -> Model {
        Model {
            core: Core {
                open: self.open,
                size: self.size,
                dirty: self.dirty,
                deadline: match self.deadline {
                    Some(d) => Some(d as nat),
                    None => None,
                },
                bytes: self.bytes,
                records: self.records,
                flushes: self.flushes,
                rotations: self.rotations,
                started_at: self.started_at,
                last_flush_at: self.last_flush_at,
                last_error: optional_text(self.last_error),
            },
            stage: stage_of(self.doing, self.failure),
            backlog: backlog_of(self.backlog@),
        }
    }
}

impl LogWorker {
    /// The configuration of the worker.
    pub closed spec fn settings(self) -> FileLoggerConfig {
        self.config
    }

    /// A worker whose log file has just been opened and has the given size, with the first action.
    pub fn new(config: FileLoggerConfig, size: u64, tick: Tick) -> (r: (Self, Action))
        ensures
            r.0.settings() == config,
            r.0@.core == (Core {
                open: true,
                size,
                dirty: false,
                deadline: match config.auto_flush_interval {
                    Some(interval) => Some(nanos_of(tick.uptime) + nanos_of(interval)),
                    None => None,
                },
                bytes: 0,
                records: 0,
                flushes: 0,
                rotations: 0,
                started_at: tick.clock,
                last_flush_at: None,
                last_error: None,
            }),
            r.0@.stage == Stage::Waiting,
            r.0@.backlog == Seq::<Seq<u8>>::empty(),
            in_order(r.0@),
            r.1@ == Act::Receive(config.auto_flush_interval),
            agrees(config, Watch { model: r.0@, act: r.1@, seen: seen_at_first(size) }),
    {
        let deadline = match &config.auto_flush_interval {
            Some(interval) => {
                let now: u128 = as_nanos(&tick.uptime);
                Some(now + as_nanos(interval))
            },
            None => None,
        };
        let interval = config.auto_flush_interval;
        let worker = LogWorker {
            config,
            open: true,
            size,
            dirty: false,
            deadline,
            bytes: 0,
            records: 0,
            flushes: 0,
            rotations: 0,
            started_at: tick.clock,
            last_flush_at: None,
            last_error: None,
            doing: Doing::Waiting,
            failure: None,
            backlog: Vec::new(),
        };
        assert(worker@.backlog =~= Seq::empty());
        (worker, Action::Receive(interval))
    }

    /// The statistics of this moment.
    fn snapshot_stats(&self, tick: Tick) -> (r: FileLoggerStats)
        ensures
            r@ == stats_of(self@.core, tick),
    {
        FileLoggerStats {
            bytes_written: self.bytes,
            records_written: self.records,
            flush_count: self.flushes,
            rotate_count: self.rotations,
            uptime: tick.uptime,
            started_at: self.started_at,
            last_flush_at: self.last_flush_at,
            last_error: match &self.last_error {
                Some(text) => Some(text.clone()),
                None => None,
            },
        }
    }

    /// Sets when the next flush is due.
    fn set_deadline(&mut self, tick: Tick)
        ensures
            final(self).settings() == old(self).settings(),
            final(self)@ == (Model {
                core: Core {
                    deadline: next_deadline(old(self).settings(), old(self)@.core, tick),
                    ..old(self)@.core
                },
                ..old(self)@
            }),
    {
        if let Some(interval) = &self.config.auto_flush_interval {
            let now: u128 = as_nanos(&tick.uptime);
            let span: u128 = as_nanos(interval);
            self.deadline = Some(now + span);
        }
    }

    /// Keeps the last error.
    fn record_error(&mut self, text: String)
        ensures
            final(self).settings() == old(self).settings(),
            final(self)@ == (Model { core: with_error(old(self)@.core, text@), ..old(self)@ }),
    {
        self.last_error = Some(text);
    }

    fn wait(&mut self) -> (act: Action)
        ensures
            did(*old(self), *final(self), act, wait(old(self).settings(), old(self)@)),
    {
        self.doing = Doing::Waiting;
        Action::Receive(self.config.auto_flush_interval)
    }

    /// Whether a flush is due.
    fn flush_is_due(&self, tick: Tick) -> (r: bool)
        ensures
            r == is_due(self@.core, tick),
    {
        if !self.dirty {
            return false;
        }
        match self.deadline {
            Some(deadline) => as_nanos(&tick.uptime) >= deadline,
            None => false,
        }
    }

    fn settle(&mut self, tick: Tick) -> (act: Action)
        ensures
            did(*old(self), *final(self), act, settle(old(self).settings(), old(self)@, tick)),
    {
        if !self.flush_is_due(tick) {
            self.wait()
        } else if self.open {
            self.doing = Doing::Flushing(FlushFor::Due);
            Action::FlushWriter
        } else {
            self.record_error(LogError::WriterUnavailable.message());
            self.wait()
        }
    }

    fn answer(&mut self, result: Result<(), WorkerError>) -> (act: Action)
        ensures
            did(*old(self), *final(self), act, answer(old(self)@, result)),
    {
        self.doing = Doing::Replied;
        Action::Reply(result)
    }

    fn stop(&mut self, tick: Tick) -> (act: Action)
        ensures
            did(*old(self), *final(self), act, stop(old(self)@, tick)),
    {
        self.doing = Doing::Stopped;
        Action::Stop(self.snapshot_stats(tick))
    }

    fn give_up(&mut self, text: String, tick: Tick) -> (act: Action)
        ensures
            did(
                *old(self),
                *final(self),
                act,
                give_up(old(self).settings(), old(self)@, text@, tick),
            ),
    {
        self.record_error(text);
        self.backlog = Vec::new();
        assert(self@.backlog =~= Seq::empty());
        self.settle(tick)
    }

    fn flush_failed(&mut self, why: FlushFor, error: WorkerError, text: String, tick: Tick) -> (act:
        Action)
        ensures
            did(
                *old(self),
                *final(self),
                act,
                flush_failed(old(self).settings(), old(self)@, why, error, text@, tick),
            ),
    {
        match why {
            FlushFor::Rotate(RotateFor::Write) => self.give_up(text, tick),
            FlushFor::Due => {
                self.record_error(text);
                self.wait()
            },
            FlushFor::End => {
                self.record_error(text);
                self.stop(tick)
            },
            _ => {
                self.record_error(text);
                self.answer(Err(error))
            },
        }
    }

    fn begin_flush(&mut self, why: FlushFor, tick: Tick) -> (act: Action)
        ensures
            did(
                *old(self),
                *final(self),
                act,
                begin_flush(old(self).settings(), old(self)@, why, tick),
            ),
    {
        if self.open {
            self.doing = Doing::Flushing(why);
            Action::FlushWriter
        } else {
            self.flush_failed(
                why,
                WorkerError::Logger(LogError::WriterUnavailable),
                LogError::WriterUnavailable.message(),
                tick,
            )
        }
    }

    fn flush_done(&mut self, why: FlushFor, tick: Tick) -> (act: Action)
        ensures
            did(
                *old(self),
                *final(self),
                act,
                flush_done(old(self).settings(), old(self)@, why, tick),
            ),
    {
        if self.dirty {
            self.dirty = false;
            self.flushes = self.flushes.wrapping_add(1);
            self.last_flush_at = Some(tick.clock);
        }
        self.set_deadline(tick);
        match why {
            FlushFor::Command => self.answer(Ok(())),
            FlushFor::Sync => {
                self.doing = Doing::Syncing;
                Action::SyncAll
            },
            FlushFor::Rotate(who) => {
                self.open = false;
                self.doing = Doing::Closing(who);
                Action::CloseWriter
            },
            FlushFor::Due => self.wait(),
            FlushFor::End => self.stop(tick),
        }
    }

    fn write_next(&mut self) -> (act: Action)
        requires
            old(self)@.backlog.len() > 0,
        ensures
            did(*old(self), *final(self), act, write_next(old(self)@)),
    {
        if self.open {
            let ghost before = self@.backlog;
            let payload = self.backlog.pop().unwrap();
            assert(self@.backlog =~= before.drop_first());
            self.doing = Doing::Writing(payload.len() as u64);
            Action::WriteAll(payload)
        } else {
            self.doing = Doing::Stopped;
            Action::Panic
        }
    }

    /// Whether the next record needs a rotation first.
    fn rotate_is_needed(&self) -> (r: bool)
        requires
            self@.backlog.len() > 0,
        ensures
            r == needs_rotation(self.settings(), self@.core, self@.backlog.first().len()),
    {
        match self.config.rotate_size_bytes {
            Some(limit) => {
                let len = self.backlog[self.backlog.len() - 1].len() as u128;
                limit > 0 && self.size as u128 + len > limit as u128
            },
            None => false,
        }
    }

    fn go_on_writing(&mut self, tick: Tick) -> (act: Action)
        ensures
            did(
                *old(self),
                *final(self),
                act,
                go_on_writing(old(self).settings(), old(self)@, tick),
            ),
    {
        if self.backlog.len() == 0 {
            self.settle(tick)
        } else if self.rotate_is_needed() {
            self.begin_flush(FlushFor::Rotate(RotateFor::Write), tick)
        } else {
            self.write_next()
        }
    }

    /// Puts a line feed behind a record, where one is wanted and missing.
    fn line(&self, payload: Vec<u8>) -> (r: Vec<u8>)
        ensures
            r@ == line_of(self.settings(), payload@),
    {
        let mut line = payload;
        if self.config.ensure_newline && !(line.len() > 0 && line[line.len() - 1] == 10) {
            line.push(10);
        }
        line
    }

    fn handle_write(&mut self, payload: Vec<u8>, tick: Tick) -> (act: Action)
        ensures
            did(
                *old(self),
                *final(self),
                act,
                take_command(old(self).settings(), old(self)@, Command::Write(payload), tick),
            ),
    {
        let line = self.line(payload);
        let ghost bytes = line@;
        let mut backlog: Vec<Vec<u8>> = Vec::new();
        backlog.push(line);
        self.backlog = backlog;
        assert(self@.backlog =~= seq![bytes]);
        self.go_on_writing(tick)
    }

    fn handle_batch(&mut self, batch: Vec<Vec<u8>>, tick: Tick) -> (act: Action)
        ensures
            did(
                *old(self),
                *final(self),
                act,
                take_command(old(self).settings(), old(self)@, Command::WriteBatch(batch), tick),
            ),
    {
        let ghost all = batch@;
        let ghost config = self.config;
        let mut rest = batch;
        let mut backlog: Vec<Vec<u8>> = Vec::new();
        while rest.len() > 0
            invariant
                *self == *old(self),
                config == self.config,
                rest@.len() + backlog@.len() == all.len(),
                rest@ == all.take(rest@.len() as int),
                forall|i: int|
                    0 <= i < backlog@.len() ==> (#[trigger] backlog@[i])@ == line_of(
                        config,
                        all[all.len() - 1 - i]@,
                    ),
            decreases rest@.len(),
        {
            let payload = rest.pop().unwrap();
            assert(rest@ =~= all.take(rest@.len() as int));
            assert(payload == all[rest@.len() as int]);
            backlog.push(self.line(payload));
        }
        self.backlog = backlog;
        assert(self@.backlog =~= byte_seqs(all).map_values(|p: Seq<u8>| line_of(config, p)));
        self.go_on_writing(tick)
    }

    fn take_command(&mut self, command: Command, tick: Tick) -> (act: Action)
        ensures
            did(
                *old(self),
                *final(self),
                act,
                take_command(old(self).settings(), old(self)@, command, tick),
            ),
    {
        match command {
            Command::Write(payload) => self.handle_write(payload, tick),
            Command::WriteBatch(batch) => self.handle_batch(batch, tick),
            Command::Flush => self.begin_flush(FlushFor::Command, tick),
            Command::Sync => self.begin_flush(FlushFor::Sync, tick),
            Command::Rotate => self.begin_flush(FlushFor::Rotate(RotateFor::Command), tick),
            Command::Stats => {
                self.doing = Doing::Replied;
                Action::ReplyStats(self.snapshot_stats(tick))
            },
            Command::Shutdown => self.begin_flush(FlushFor::End, tick),
        }
    }

    /// Moves the next file.
    fn move_file(&mut self, who: RotateFor, rotation: Rotation) -> (act: Action)
        ensures
            did(
                *old(self),
                *final(self),
                act,
                move_next(old(self).settings(), old(self)@, who, rotation.left()),
            ),
            rotation.left().len() > 0,
    {
        let op = rotation.op(&self.config.base_path);
        self.doing = Doing::Moving(who, rotation);
        Action::Move(op)
    }

    /// Goes on after a file was moved.
    fn file_moved(&mut self, who: RotateFor, rotation: Rotation) -> (act: Action)
        ensures
            did(
                *old(self),
                *final(self),
                act,
                move_next(old(self).settings(), old(self)@, who, rotation.left().drop_first()),
            ),
    {
        match rotation.advanced() {
            Some(next) => self.move_file(who, next),
            None => {
                self.failure = None;
                self.doing = Doing::Opening(who);
                Action::Open(true)
            },
        }
    }

    fn rotation_failed(&mut self, who: RotateFor, failure: Failure, tick: Tick) -> (act: Action)
        ensures
            did(
                *old(self),
                *final(self),
                act,
                rotation_failed(old(self).settings(), old(self)@, who, failure, tick),
            ),
    {
        match who {
            RotateFor::Command => {
                self.record_error(failure.text);
                self.answer(Err(WorkerError::Io(failure.error)))
            },
            RotateFor::Write => self.give_up(failure.text, tick),
        }
    }

    fn reopened(&mut self, who: RotateFor, size: u64, tick: Tick) -> (act: Action)
        requires
            who == RotateFor::Write ==> old(self)@.backlog.len() > 0,
            old(self).doing == Doing::Opening(who),
        ensures
            did(
                *old(self),
                *final(self),
                act,
                reopened(
                    old(self).settings(),
                    old(self)@,
                    who,
                    old(self).failure,
                    size,
                    tick,
                ),
            ),
    {
        let mut failure: Option<Failure> = None;
        std::mem::swap(&mut failure, &mut self.failure);
        self.open = true;
        self.dirty = false;
        self.set_deadline(tick);
        match failure {
            Some(f) => {
                self.size = size;
                self.rotation_failed(who, f, tick)
            },
            None => {
                self.size = 0;
                self.rotations = self.rotations.wrapping_add(1);
                match who {
                    RotateFor::Command => self.answer(Ok(())),
                    RotateFor::Write => self.write_next(),
                }
            },
        }
    }

    fn written(&mut self, len: u64, tick: Tick) -> (act: Action)
        ensures
            did(
                *old(self),
                *final(self),
                act,
                go_on_writing(
                    old(self).settings(),
                    Model {
                        core: after_write(old(self).settings(), old(self)@.core, len, tick),
                        ..old(self)@
                    },
                    tick,
                ),
            ),
    {
        self.size = self.size.wrapping_add(len);
        self.bytes = self.bytes.wrapping_add(len);
        self.records = self.records.wrapping_add(1);
        self.dirty = true;
        self.set_deadline(tick);
        self.go_on_writing(tick)
    }

    /// Takes what came of the last action, and says what to do next.
    pub fn advance(&mut self, event: Event, tick: Tick) -> (act: Action)
        requires
            in_order(old(self)@),
            expects(old(self)@.stage, event),
        ensures
            final(self).settings() == old(self).settings(),
            in_order(final(self)@),
            final(self)@ == step(old(self).settings(), old(self)@, event, tick).0,
            act@ == step(old(self).settings(), old(self)@, event, tick).1,
    {
        let ghost before = self@;
        let ghost config = self.config;
        proof {
            steps_stay_in_order(config, before, event, tick);
        }
        match (self.doing, event) {
            (Doing::Waiting, Event::Received(command)) => self.take_command(command, tick),
            (Doing::Waiting, Event::Disconnected) => self.begin_flush(FlushFor::End, tick),
            (Doing::Flushing(why), Event::Done) => if self.config.sync_on_flush {
                self.doing = Doing::FlushSyncing(why);
                Action::SyncAll
            } else {
                self.flush_done(why, tick)
            },
            (Doing::FlushSyncing(why), Event::Done) => self.flush_done(why, tick),
            (Doing::Flushing(why), Event::Failed(f)) => self.flush_failed(
                why,
                WorkerError::Io(f.error),
                f.text,
                tick,
            ),
            (Doing::FlushSyncing(why), Event::Failed(f)) => self.flush_failed(
                why,
                WorkerError::Io(f.error),
                f.text,
                tick,
            ),
            (Doing::Syncing, Event::Done) => self.answer(Ok(())),
            (Doing::Syncing, Event::Failed(f)) => {
                self.record_error(f.text);
                self.answer(Err(WorkerError::Io(f.error)))
            },
            (Doing::Closing(who), Event::Done) => {
                let keep = self.config.max_rotate_files;
                self.move_file(who, Rotation::new(keep))
            },
            (Doing::Moving(who, rotation), Event::Done) => self.file_moved(who, rotation),
            (Doing::Moving(who, rotation), Event::Failed(f)) => if f.not_found {
                self.file_moved(who, rotation)
            } else {
                self.record_error(f.text.clone());
                self.failure = Some(f);
                self.doing = Doing::Opening(who);
                Action::Open(false)
            },
            (Doing::Opening(who), Event::Opened(size)) => self.reopened(who, size, tick),
            (Doing::Opening(who), Event::Failed(f)) => self.rotation_failed(who, f, tick),
            (Doing::Writing(len), Event::Done) => self.written(len, tick),
            (Doing::Writing(_), Event::Failed(f)) => self.give_up(f.text, tick),
            _ => self.settle(tick),
        }
    }
}

/// Whether a worker went from one state to another with an action, as said.
spec fn did(before: LogWorker, after: LogWorker, act: Action, said: (Model, Act)) -> bool {
    after.settings() == before.settings() && after@ == said.0 && act@ == said.1
}

// ===== Laws =====

/// Every step leaves the worker in order.
pub proof fn steps_stay_in_order(config: FileLoggerConfig, m: Model, event: Event, tick: Tick)
    requires
        in_order(m),
        expects(m.stage, event),
    ensures
        in_order(step(config, m, event, tick).0),
{
}

/// Whether an answer is still owed.
pub open spec fn owes_answer(stage: Stage) -> bool {
    match stage {
        Stage::Flushing(why) => why == FlushFor::Command || why == FlushFor::Sync || why
            == FlushFor::Rotate(RotateFor::Command),
        Stage::FlushSyncing(why) => why == FlushFor::Command || why == FlushFor::Sync || why
            == FlushFor::Rotate(RotateFor::Command),
        Stage::Syncing => true,
        Stage::Closing(who) => who == RotateFor::Command,
        Stage::Moving(who, _) => who == RotateFor::Command,
        Stage::Opening(who, _) => who == RotateFor::Command,
        _ => false,
    }
}

/// Whether the event is a command that wants to know how it went.
pub open spec fn wants_answer(event: Event) -> bool {
    match event {
        Event::Received(command) => command is Flush || command is Sync || command is Rotate,
        _ => false,
    }
}

/// A flush, a sync and a rotation that were asked for are each answered once: from the command on
/// the answer is owed, the worker neither waits for another command nor ends before it is given,
/// and nothing else is answered. Statistics are answered at once, and only when asked for.
pub proof fn commands_are_answered_once(
    config: FileLoggerConfig,
    m: Model,
    event: Event,
    tick: Tick,
)
    requires
        in_order(m),
        expects(m.stage, event),
    ensures
        ({
            let (next, act) = step(config, m, event, tick);
            let owed = owes_answer(m.stage) || wants_answer(event);
            &&& owed ==> (act is Reply) != owes_answer(next.stage)
            &&& owed ==> !(act is Receive) && !(act is Stop) && !(act is Panic)
            &&& !owed ==> !(act is Reply) && !owes_answer(next.stage)
            &&& act is ReplyStats <==> event == Event::Received(Command::Stats)
        }),
{
}

/// The counts grow by exactly what was done: a record and its length for every write that went
/// well, one for every rotation that went well, and one for every flush that went well when
/// something had been written.
pub proof fn counts_tell_what_was_done(
    config: FileLoggerConfig,
    m: Model,
    event: Event,
    tick: Tick,
)
    requires
        in_order(m),
        expects(m.stage, event),
    ensures
        ({
            let next = step(config, m, event, tick).0.core;
            let wrote = m.stage is Writing && event is Done;
            let flushed = event is Done && (m.stage is FlushSyncing || (m.stage is Flushing
                && !config.sync_on_flush));
            let rotated = event is Opened && m.stage->Opening_1 is None;
            &&& next.records == (if wrote {
                wrapped_sum(m.core.records, 1)
            } else {
                m.core.records
            })
            &&& next.bytes == (if wrote {
                wrapped_sum(m.core.bytes, m.stage->Writing_0)
            } else {
                m.core.bytes
            })
            &&& next.flushes == (if flushed && m.core.dirty {
                wrapped_sum(m.core.flushes, 1)
            } else {
                m.core.flushes
            })
            &&& next.rotations == (if rotated {
                wrapped_sum(m.core.rotations, 1)
            } else {
                m.core.rotations
            })
            &&& wrote ==> next.dirty
            &&& flushed ==> !next.dirty
        }),
{
}

/// A record is written only where it fits the size limit, or into an empty file.
pub proof fn writes_fit_the_limit(config: FileLoggerConfig, m: Model, event: Event, tick: Tick)
    requires
        in_order(m),
        expects(m.stage, event),
    ensures
        ({
            let (next, act) = step(config, m, event, tick);
            act matches Act::WriteAll(record) ==> {
                ||| !needs_rotation(config, next.core, record.len())
                ||| next.core.size == 0
            }
        }),
{
}

/// The records that wait to be written when an event has come.
pub open spec fn pending(config: FileLoggerConfig, m: Model, event: Event) -> Seq<Seq<u8>> {
    match event {
        Event::Received(Command::Write(payload)) => seq![line_of(config, payload@)],
        Event::Received(Command::WriteBatch(batch)) => byte_seqs(batch@).map_values(
            |p: Seq<u8>| line_of(config, p),
        ),
        _ => m.backlog,
    }
}

/// Records are written in the order in which they came, each once. None is passed over without an
/// error being kept.
pub proof fn records_are_written_in_order(
    config: FileLoggerConfig,
    m: Model,
    event: Event,
    tick: Tick,
)
    requires
        in_order(m),
        expects(m.stage, event),
    ensures
        ({
            let (next, act) = step(config, m, event, tick);
            let waiting = pending(config, m, event);
            match act {
                Act::WriteAll(record) => waiting == seq![record] + next.backlog,
                _ => next.backlog == waiting || (next.backlog.len() == 0 && next.core.last_error is Some),
            }
        }),
{
    let (next, act) = step(config, m, event, tick);
    let waiting = pending(config, m, event);
    if let Act::WriteAll(record) = act {
        assert(waiting.len() > 0);
        assert(seq![record] + next.backlog =~= waiting);
    }
}

/// A worker that ends has flushed what was written, or has kept the error that prevented it.
pub proof fn the_end_is_flushed(config: FileLoggerConfig, m: Model, event: Event, tick: Tick)
    requires
        in_order(m),
        expects(m.stage, event),
    ensures
        ({
            let (next, act) = step(config, m, event, tick);
            act is Stop ==> !next.core.dirty || next.core.last_error is Some
        }),
{
}

/// A worker does not wait for a command while a flush is due, unless an error prevented it.
pub proof fn due_data_is_flushed(config: FileLoggerConfig, m: Model, event: Event, tick: Tick)
    requires
        in_order(m),
        expects(m.stage, event),
    ensures
        ({
            let (next, act) = step(config, m, event, tick);
            act is Receive ==> !is_due(next.core, tick) || next.core.last_error is Some
        }),
{
}

/// Once the log file was closed for a rotation it is opened again, whether moving the files went
/// well or not: emptied where it did, to be appended to where it did not.
pub proof fn the_log_file_is_opened_again(
    config: FileLoggerConfig,
    m: Model,
    event: Event,
    tick: Tick,
)
    requires
        in_order(m),
        expects(m.stage, event),
        m.stage is Closing || m.stage is Moving,
    ensures
        ({
            let (next, act) = step(config, m, event, tick);
            ||| act is Move && next.stage is Moving
            ||| act == Act::Open(next.stage->Opening_1 is None) && next.stage is Opening
        }),
{
}

// ===== Whole runs =====

/// A worker on its way: what it is doing, what it asked for last, the records that came, and those
/// that were written.
pub struct Run {
    pub model: Model,
    pub act: Act,
    pub received: Seq<Seq<u8>>,
    pub written: Seq<Seq<u8>>,
}

/// The records that an event brings.
pub open spec fn brought(config: FileLoggerConfig, event: Event) -> Seq<Seq<u8>> {
    match event {
        Event::Received(Command::Write(payload)) => seq![line_of(config, payload@)],
        Event::Received(Command::WriteBatch(batch)) => byte_seqs(batch@).map_values(
            |p: Seq<u8>| line_of(config, p),
        ),
        _ => Seq::empty(),
    }
}

/// The record that is being written.
pub open spec fn under_way(run: Run) -> Seq<Seq<u8>> {
    match (run.model.stage, run.act) {
        (Stage::Writing(_), Act::WriteAll(record)) => seq![record],
        _ => Seq::empty(),
    }
}

/// The run after one more event.
pub open spec fn next_run(config: FileLoggerConfig, run: Run, event: Event, tick: Tick) -> Run {
    let (model, act) = step(config, run.model, event, tick);
    Run {
        model,
        act,
        received: run.received + brought(config, event),
        written: if event is Done {
            run.written + under_way(run)
        } else {
            run.written
        },
    }
}

/// The run after several events.
pub open spec fn run_of(config: FileLoggerConfig, run: Run, events: Seq<(Event, Tick)>) -> Run
    decreases events.len(),
{
    if events.len() == 0 {
        run
    } else {
        let before = run_of(config, run, events.drop_last());
        next_run(config, before, events.last().0, events.last().1)
    }
}

/// Whether an event can come, and says of no failure, other than that a file to be moved is not
/// there.
pub open spec fn goes_well(stage: Stage, event: Event) -> bool {
    expects(stage, event) && match event {
        Event::Failed(f) => stage is Moving && f.not_found,
        _ => true,
    }
}

/// Whether every event can come when it comes, and says of no failure.
pub open spec fn all_goes_well(
    config: FileLoggerConfig,
    run: Run,
    events: Seq<(Event, Tick)>,
) -> bool
    decreases events.len(),
{
    events.len() == 0 || (all_goes_well(config, run, events.drop_last()) && goes_well(
        run_of(config, run, events.drop_last()).model.stage,
        events.last().0,
    ))
}

/// Whether records wait for a rotation or for the record before them.
pub open spec fn holds_records(stage: Stage) -> bool {
    match stage {
        Stage::Flushing(why) => leads_to_write(why),
        Stage::FlushSyncing(why) => leads_to_write(why),
        Stage::Closing(who) => who == RotateFor::Write,
        Stage::Moving(who, _) => who == RotateFor::Write,
        Stage::Opening(who, _) => who == RotateFor::Write,
        Stage::Writing(_) => true,
        _ => false,
    }
}

/// What holds of a run without failures: the log file is open but while it is rotated, records wait
/// only where they have to, and every record that came was written, is being written, or waits, in
/// the order in which they came.
pub open spec fn nothing_lost(run: Run) -> bool {
    let m = run.model;
    &&& in_order(m)
    &&& match m.stage {
        Stage::Closing(_) => true,
        Stage::Moving(_, _) => true,
        Stage::Opening(_, failure) => failure is None,
        _ => m.core.open,
    }
    &&& m.stage is Writing ==> run.act is WriteAll
    &&& !holds_records(m.stage) ==> m.backlog.len() == 0
    &&& run.received == run.written + under_way(run) + m.backlog
}

/// A worker that waits with its log file open and has nothing to write has lost nothing: a new
/// worker is such a one.
pub proof fn a_fresh_start_has_lost_nothing(m: Model, act: Act)
    requires
        m.stage is Waiting,
        m.core.open,
        m.backlog.len() == 0,
    ensures
        nothing_lost(Run { model: m, act, received: Seq::empty(), written: Seq::empty() }),
{
    let run = Run { model: m, act, received: Seq::empty(), written: Seq::empty() };
    assert(run.received =~= run.written + under_way(run) + m.backlog);
}

/// One more event that says of no failure loses nothing.
pub proof fn next_step_loses_nothing(config: FileLoggerConfig, run: Run, event: Event, tick: Tick)
    requires
        nothing_lost(run),
        goes_well(run.model.stage, event),
    ensures
        nothing_lost(next_run(config, run, event, tick)),
        !(next_run(config, run, event, tick).act is Panic),
{
    let m = run.model;
    let next = next_run(config, run, event, tick);
    let news = brought(config, event);
    steps_stay_in_order(config, m, event, tick);
    records_are_written_in_order(config, m, event, tick);
    let waiting = pending(config, m, event);
    if event is Received {
        assert(run.received =~= run.written);
        assert(waiting =~= news);
    } else {
        assert(news =~= Seq::empty());
        assert(waiting == m.backlog);
    }
    if m.stage is Writing && event is Done {
        assert(next.written =~= run.written + under_way(run));
    } else {
        assert(under_way(run) =~= Seq::empty());
        assert(next.written =~= run.written);
    }
    assert(next.received =~= next.written + waiting);
    if let Act::WriteAll(record) = next.act {
        assert(next.model.stage is Writing);
        assert(under_way(next) =~= seq![record]);
        assert(next.written + under_way(next) + next.model.backlog =~= next.written + (seq![record]
            + next.model.backlog));
    } else {
        assert(under_way(next) =~= Seq::empty());
        assert(next.model.backlog =~= waiting);
        assert(next.written + under_way(next) + next.model.backlog =~= next.written + waiting);
    }
}

/// As long as nothing fails, no record is lost, and none changes its place: whenever the worker
/// waits for a command, or has ended, what was written is exactly what came, in order.
pub proof fn runs_lose_nothing(config: FileLoggerConfig, run: Run, events: Seq<(Event, Tick)>)
    requires
        nothing_lost(run),
        all_goes_well(config, run, events),
    ensures
        nothing_lost(run_of(config, run, events)),
        ({
            let end = run_of(config, run, events);
            end.model.stage is Waiting || end.model.stage is Stopped ==> end.written
                == end.received
        }),
    decreases events.len(),
{
    if events.len() > 0 {
        runs_lose_nothing(config, run, events.drop_last());
        next_step_loses_nothing(
            config,
            run_of(config, run, events.drop_last()),
            events.last().0,
            events.last().1,
        );
    }
    let end = run_of(config, run, events);
    if end.model.stage is Waiting || end.model.stage is Stopped {
        assert(end.written + under_way(end) + end.model.backlog =~= end.written);
    }
}

} // verus!
