//! What holds of a log worker, told by what can be seen from outside: what it was told, what it asked
//! for, and what came of it.
use std::time::SystemTime;

use vstd::prelude::*;

use crate::log_rotation::{op_of, rotation_steps, FileStep};
use crate::log_worker::{
    expects, in_order, line_of, pending, step, steps_stay_in_order, wrapped_sum, Act, Event,
    Failure, FlushFor, Model, RotateFor, Stage, Tick,
};
use crate::platform::nanos_of;
use crate::splunk_file_logger::{byte_seqs, Command, FileLoggerConfig, LogError, WorkerError};

verus! {

// ===== Records and sums =====

/// A count of 64 bits is the true count, but for whole multiples of two to the power of 64.
pub proof fn counts_start_over(a: u64, b: u64)
    ensures
        wrapped_sum(a, b) as int == (a + b) % 18446744073709551616,
{
}

/// Where every record has to end with a line feed it does, and a record that does already gets no
/// second one. Nothing else is changed, and where it does not have to, nothing is.
pub proof fn records_end_with_one_line_feed(config: FileLoggerConfig, payload: Seq<u8>)
    ensures
        ({
            let line = line_of(config, payload);
            &&& config.ensure_newline ==> line.len() > 0 && line.last() == 10
            &&& line == payload || line == payload + seq![10u8]
            &&& !config.ensure_newline ==> line == payload
            &&& payload.len() > 0 && payload.last() == 10 ==> line == payload
        }),
{
    assert(payload.push(10) =~= payload + seq![10u8]);
}

// ===== What can be seen =====

/// What an onlooker counts.
pub struct Seen {
    /// How many bytes the log file has: what it had when it was opened, and what was written since.
    pub file: nat,
    /// The length of the record that was written into it last, if one was since it was opened.
    pub last: Option<nat>,
    /// How many bytes and records were written.
    pub bytes: nat,
    pub records: nat,
    /// How often the log file was emptied after moving files.
    pub rotations: nat,
    /// How often a flush went well that had something to flush, and when the last one did.
    pub flushes: nat,
    pub last_flush: Option<SystemTime>,
    /// Whether something was written since.
    pub unflushed: bool,
    /// Whether the writer was flushed, and making the data durable is still a part of that flush.
    pub half: bool,
}

/// A flush went well.
pub open spec fn saw_flush(seen: Seen, tick: Tick) -> Seen {
    if seen.unflushed {
        Seen {
            flushes: seen.flushes + 1,
            last_flush: Some(tick.clock),
            unflushed: false,
            half: false,
            ..seen
        }
    } else {
        Seen { half: false, ..seen }
    }
}

/// What an onlooker counts once something has come of an action.
pub open spec fn saw(config: FileLoggerConfig, seen: Seen, act: Act, event: Event, tick: Tick) -> Seen {
    match (act, event) {
        (Act::WriteAll(record), Event::Done) => Seen {
            file: seen.file + record.len(),
            last: Some(record.len()),
            bytes: seen.bytes + record.len(),
            records: seen.records + 1,
            unflushed: true,
            ..seen
        },
        (Act::FlushWriter, Event::Done) => if config.sync_on_flush {
            Seen { half: true, ..seen }
        } else {
            saw_flush(seen, tick)
        },
        (Act::SyncAll, Event::Done) => if seen.half {
            saw_flush(seen, tick)
        } else {
            seen
        },
        (Act::SyncAll, _) => Seen { half: false, ..seen },
        (Act::Open(true), Event::Opened(_)) => Seen {
            file: 0,
            last: None,
            rotations: seen.rotations + 1,
            unflushed: false,
            ..seen
        },
        (Act::Open(false), Event::Opened(size)) => Seen {
            file: size as nat,
            last: None,
            unflushed: false,
            ..seen
        },
        _ => seen,
    }
}

/// A worker that is looked at: what it is doing, what it asked for last, and what was counted.
pub struct Watch {
    pub model: Model,
    pub act: Act,
    pub seen: Seen,
}

/// The worker after one more event.
pub open spec fn watched(config: FileLoggerConfig, w: Watch, event: Event, tick: Tick) -> Watch {
    let (model, act) = step(config, w.model, event, tick);
    Watch { model, act, seen: saw(config, w.seen, w.act, event, tick) }
}

/// The worker after several events.
pub open spec fn watched_all(
    config: FileLoggerConfig,
    w: Watch,
    events: Seq<(Event, Tick)>,
) -> Watch
    decreases events.len(),
{
    if events.len() == 0 {
        w
    } else {
        let before = watched_all(config, w, events.drop_last());
        watched(config, before, events.last().0, events.last().1)
    }
}

/// Whether an event brings no record that is longer than a file can be.
pub open spec fn brings_records(event: Event) -> bool {
    match event {
        Event::Received(Command::Write(payload)) => payload@.len() < u64::MAX,
        Event::Received(Command::WriteBatch(batch)) => forall|i: int|
            0 <= i < batch@.len() ==> (#[trigger] batch@[i])@.len() < u64::MAX,
        _ => true,
    }
}

/// Whether every event can come when it comes.
pub open spec fn can_come(
    config: FileLoggerConfig,
    w: Watch,
    events: Seq<(Event, Tick)>,
) -> bool
    decreases events.len(),
{
    events.len() == 0 || {
        &&& can_come(config, w, events.drop_last())
        &&& expects(watched_all(config, w, events.drop_last()).model.stage, events.last().0)
        &&& brings_records(events.last().0)
    }
}

/// Whether what a worker is doing is what it asked for.
pub open spec fn does_what_it_asked(m: Model, act: Act) -> bool {
    match m.stage {
        Stage::Waiting => act is Receive,
        Stage::Flushing(_) => act is FlushWriter,
        Stage::FlushSyncing(_) => act is SyncAll,
        Stage::Syncing => act is SyncAll,
        Stage::Closing(_) => act is CloseWriter,
        Stage::Moving(_, _) => act is Move,
        Stage::Opening(_, failure) => act == Act::Open(failure is None),
        Stage::Writing(len) => act is WriteAll && act->WriteAll_0.len() == len,
        Stage::Replied => act is Reply || act is ReplyStats,
        Stage::Stopped => act is Stop || act is Panic,
    }
}

/// What a worker knows is what can be seen.
pub open spec fn agrees(config: FileLoggerConfig, w: Watch) -> bool {
    let core = w.model.core;
    &&& in_order(w.model)
    &&& does_what_it_asked(w.model, w.act)
    &&& forall|i: int|
        0 <= i < w.model.backlog.len() ==> (#[trigger] w.model.backlog[i]).len() <= u64::MAX
    &&& w.seen.half <==> w.model.stage is FlushSyncing
    &&& w.seen.half ==> config.sync_on_flush
    &&& core.open ==> core.size == w.seen.file % 18446744073709551616
    &&& core.bytes == w.seen.bytes % 18446744073709551616
    &&& core.records == w.seen.records % 18446744073709551616
    &&& core.flushes == w.seen.flushes % 18446744073709551616
    &&& core.rotations == w.seen.rotations % 18446744073709551616
    &&& core.dirty == w.seen.unflushed
    &&& core.last_flush_at == w.seen.last_flush
}

/// What an onlooker has counted who has seen nothing but the size of the log file.
pub open spec fn seen_at_first(size: u64) -> Seen {
    Seen {
        file: size as nat,
        last: None,
        bytes: 0,
        records: 0,
        rotations: 0,
        flushes: 0,
        last_flush: None,
        unflushed: false,
        half: false,
    }
}

/// A worker whose log file was just opened agrees with an onlooker who has seen nothing but its size.
pub proof fn a_new_worker_agrees(config: FileLoggerConfig, m: Model, act: Act, size: u64)
    requires
        m.stage is Waiting,
        act is Receive,
        m.backlog.len() == 0,
        m.core.open,
        m.core.size == size,
        m.core.bytes == 0 && m.core.records == 0 && m.core.flushes == 0 && m.core.rotations == 0,
        !m.core.dirty,
        m.core.last_flush_at is None,
    ensures
        agrees(config, Watch { model: m, act, seen: seen_at_first(size) }),
{
}

proof fn counted_on(count: u64, seen: nat, more: u64)
    requires
        count == seen % 18446744073709551616,
    ensures
        wrapped_sum(count, more) == (seen + more) % 18446744073709551616,
{
    let m = 18446744073709551616int;
    counts_start_over(count, more);
    vstd::arithmetic::div_mod::lemma_add_mod_noop(seen as int, more as int, m);
    vstd::arithmetic::div_mod::lemma_small_mod(more as nat, m as nat);
}

proof fn backlog_stays_small(config: FileLoggerConfig, w: Watch, event: Event, tick: Tick)
    requires
        agrees(config, w),
        expects(w.model.stage, event),
        brings_records(event),
    ensures
        ({
            let (next, act) = step(config, w.model, event, tick);
            &&& forall|i: int|
                0 <= i < next.backlog.len() ==> (#[trigger] next.backlog[i]).len() <= u64::MAX
            &&& act is WriteAll ==> act->WriteAll_0.len() <= u64::MAX
        }),
{
    let (next, act) = step(config, w.model, event, tick);
    let waiting = pending(config, w.model, event);
    assert forall|i: int| 0 <= i < waiting.len() implies (#[trigger] waiting[i]).len()
        <= u64::MAX by {
        match event {
            Event::Received(Command::Write(payload)) => {},
            Event::Received(Command::WriteBatch(batch)) => {
                assert(waiting[i] == line_of(config, byte_seqs(batch@)[i]));
                assert(batch@[i]@.len() < u64::MAX);
            },
            _ => {
                assert(waiting[i] == w.model.backlog[i]);
            },
        }
    }
    crate::log_worker::records_are_written_in_order(config, w.model, event, tick);
    assert forall|i: int| 0 <= i < next.backlog.len() implies (#[trigger] next.backlog[i]).len()
        <= u64::MAX by {
        if act is WriteAll {
            assert(waiting[i + 1] == next.backlog[i]);
        } else {
            assert(waiting[i] == next.backlog[i]);
        }
    }
    if act is WriteAll {
        assert(waiting[0] == act->WriteAll_0);
    }
}

/// Whatever comes of the actions of a worker, it keeps knowing what can be seen: the size of its log
/// file, what was written, how often it was flushed and rotated, and when it was flushed last.
pub proof fn workers_keep_agreeing(config: FileLoggerConfig, w: Watch, event: Event, tick: Tick)
    requires
        agrees(config, w),
        expects(w.model.stage, event),
        brings_records(event),
    ensures
        agrees(config, watched(config, w, event, tick)),
{
    let core = w.model.core;
    let seen = w.seen;
    steps_stay_in_order(config, w.model, event, tick);
    backlog_stays_small(config, w, event, tick);
    counted_on(core.records, seen.records, 1);
    counted_on(core.flushes, seen.flushes, 1);
    counted_on(core.rotations, seen.rotations, 1);
    if let Stage::Writing(len) = w.model.stage {
        counted_on(core.bytes, seen.bytes, len);
        counted_on(core.size, seen.file, len);
    }
}

/// The same over a whole run.
pub proof fn runs_keep_agreeing(config: FileLoggerConfig, w: Watch, events: Seq<(Event, Tick)>)
    requires
        agrees(config, w),
        can_come(config, w, events),
    ensures
        agrees(config, watched_all(config, w, events)),
    decreases events.len(),
{
    if events.len() > 0 {
        runs_keep_agreeing(config, w, events.drop_last());
        workers_keep_agreeing(
            config,
            watched_all(config, w, events.drop_last()),
            events.last().0,
            events.last().1,
        );
    }
}

// ===== Rotation by size =====

/// Whether a log file that was written to is within the limit, or holds nothing but the record that
/// was written last; and whether the same will hold of it once the record is written that is being
/// written now.
pub open spec fn is_within(w: Watch, limit: u64) -> bool {
    &&& w.seen.last is None || w.seen.file <= limit || w.seen.file == w.seen.last->0
    &&& w.act is WriteAll ==> w.seen.file == 0 || w.seen.file + w.act->WriteAll_0.len() <= limit
}

/// Whether the log file stays so small during a run that its size can be told in 64 bits.
pub open spec fn stays_tellable(config: FileLoggerConfig, w: Watch, events: Seq<(Event, Tick)>) -> bool
    decreases events.len(),
{
    watched_all(config, w, events).seen.file < 18446744073709551616 && (events.len() > 0
        ==> stays_tellable(config, w, events.drop_last()))
}

/// One more event keeps a log file within the limit.
pub proof fn steps_stay_within_the_limit(
    config: FileLoggerConfig,
    w: Watch,
    event: Event,
    tick: Tick,
    limit: u64,
)
    requires
        agrees(config, w),
        is_within(w, limit),
        expects(w.model.stage, event),
        brings_records(event),
        watched(config, w, event, tick).seen.file < 18446744073709551616,
        config.rotate_size_bytes == Some(limit),
        limit > 0,
    ensures
        is_within(watched(config, w, event, tick), limit),
{
    workers_keep_agreeing(config, w, event, tick);
    crate::log_worker::writes_fit_the_limit(config, w.model, event, tick);
}

/// Over a whole run the log file never grows past the limit, unless it holds a single record: a
/// record is written only where the file has room for it, or is empty.
pub proof fn files_stay_within_the_limit(
    config: FileLoggerConfig,
    w: Watch,
    events: Seq<(Event, Tick)>,
    limit: u64,
)
    requires
        agrees(config, w),
        is_within(w, limit),
        can_come(config, w, events),
        stays_tellable(config, w, events),
        config.rotate_size_bytes == Some(limit),
        limit > 0,
    ensures
        is_within(watched_all(config, w, events), limit),
    decreases events.len(),
{
    if events.len() > 0 {
        let fewer = events.drop_last();
        let (event, tick) = events.last();
        files_stay_within_the_limit(config, w, fewer, limit);
        runs_keep_agreeing(config, w, fewer);
        steps_stay_within_the_limit(config, watched_all(config, w, fewer), event, tick, limit);
    }
}

/// A worker that has just begun is within every limit.
pub proof fn new_files_are_within_the_limit(m: Model, act: Act, size: u64, limit: u64)
    requires
        act is Receive,
    ensures
        is_within(Watch { model: m, act, seen: seen_at_first(size) }, limit),
{
}

/// A rotation for a record begins exactly where the log file is open and has no room for the record
/// that comes next; without a limit, or with the limit zero, there is none.
pub proof fn rotation_begins_where_there_is_no_room(
    config: FileLoggerConfig,
    w: Watch,
    payload: Vec<u8>,
    tick: Tick,
)
    requires
        agrees(config, w),
        w.model.stage is Waiting,
        w.model.core.open,
        w.seen.file < 18446744073709551616,
        payload@.len() < u64::MAX,
    ensures
        ({
            let (next, act) = step(config, w.model, Event::Received(Command::Write(payload)), tick);
            let record = line_of(config, payload@);
            let no_room = match config.rotate_size_bytes {
                Some(limit) => limit > 0 && w.seen.file + record.len() > limit,
                None => false,
            };
            &&& no_room ==> act is FlushWriter && next.stage == Stage::Flushing(
                FlushFor::Rotate(RotateFor::Write),
            ) && next.backlog == seq![record]
            &&& !no_room ==> act == Act::WriteAll(record) && next.backlog.len() == 0
        }),
{
    let (next, act) = step(config, w.model, Event::Received(Command::Write(payload)), tick);
    let record = line_of(config, payload@);
    assert(seq![record].drop_first() =~= Seq::empty());
}

/// A rotation flushes the writer, makes the data durable where flushes do, closes the log file,
/// moves the files one after the other, opens the log file emptied, and only then goes on: with the
/// record that it was for, or with the answer.
pub proof fn rotations_go_step_by_step(
    config: FileLoggerConfig,
    m: Model,
    who: RotateFor,
    size: u64,
    tick: Tick,
)
    requires
        in_order(m),
    ensures
        m.stage == Stage::Flushing(FlushFor::Rotate(who)) ==> step(config, m, Event::Done, tick).1
            == (if config.sync_on_flush { Act::SyncAll } else { Act::CloseWriter }),
        m.stage == Stage::FlushSyncing(FlushFor::Rotate(who)) ==> step(
            config,
            m,
            Event::Done,
            tick,
        ).1 == Act::CloseWriter,
        m.stage == Stage::Closing(who) ==> step(config, m, Event::Done, tick).1 == Act::Move(
            op_of(config.base_path, rotation_steps(config.max_rotate_files as nat)[0]),
        ) && step(config, m, Event::Done, tick).0.stage == Stage::Moving(
            who,
            rotation_steps(config.max_rotate_files as nat),
        ),
        m.stage == Stage::Opening(who, None) ==> ({
            let (next, act) = step(config, m, Event::Opened(size), tick);
            &&& next.core.open && next.core.size == 0
            &&& who == RotateFor::Write ==> act == Act::WriteAll(m.backlog[0])
            &&& who == RotateFor::Command ==> act == Act::Reply(Ok(()))
        }),
{
    rotations_have_steps(config.max_rotate_files as nat);
}

proof fn rotations_have_steps(keep: nat)
    ensures
        rotation_steps(keep).len() > 0,
{
    reveal_with_fuel(crate::log_rotation::steps_from, 2);
}

/// While files are moved, each step comes after the one before it, whether that went well or the file
/// was not there; after the last the log file is opened emptied. A step that fails in another way
/// ends the moving: the log file is opened to be appended to, the error is kept, and the records
/// that waited are given up, or the error is the answer.
pub proof fn files_are_moved_in_order(
    config: FileLoggerConfig,
    m: Model,
    who: RotateFor,
    steps: Seq<FileStep>,
    f: Failure,
    size: u64,
    tick: Tick,
    later: Tick,
)
    requires
        in_order(m),
        m.stage == Stage::Moving(who, steps),
    ensures
        ({
            let (next, act) = step(config, m, Event::Done, tick);
            &&& steps.len() > 1 ==> act == Act::Move(op_of(config.base_path, steps[1]))
                && next.stage == Stage::Moving(who, steps.skip(1))
            &&& steps.len() == 1 ==> act == Act::Open(true) && next.stage == Stage::Opening(who, None)
            &&& f.not_found ==> step(config, m, Event::Failed(f), tick) == step(
                config,
                m,
                Event::Done,
                tick,
            )
        }),
        !f.not_found ==> ({
            let (failed, act) = step(config, m, Event::Failed(f), tick);
            let (next, reply) = step(config, failed, Event::Opened(size), later);
            &&& act == Act::Open(false)
            &&& next.core.open && next.core.size == size
            &&& next.core.last_error == Some(f.text@)
            &&& next.core.rotations == m.core.rotations
            &&& who == RotateFor::Command ==> reply == Act::Reply(Err(WorkerError::Io(f.error)))
            &&& who == RotateFor::Write ==> next.backlog.len() == 0 && !(reply is WriteAll)
        }),
{
    assert(steps.drop_first() =~= steps.skip(1));
}

// ===== Commands =====

/// A flush that was asked for flushes the writer, makes the data durable where flushes do, and is
/// answered with success. Where one of the two fails, that error is the answer, and its text is kept.
pub proof fn flushes_are_carried_out(
    config: FileLoggerConfig,
    m: Model,
    f: Failure,
    t1: Tick,
    t2: Tick,
    t3: Tick,
)
    requires
        in_order(m),
        m.stage is Waiting,
        m.core.open,
    ensures
        ({
            let (m1, a1) = step(config, m, Event::Received(Command::Flush), t1);
            let (m2, a2) = step(config, m1, Event::Done, t2);
            let (m3, a3) = step(config, m2, Event::Done, t3);
            let (failed, reply) = step(config, m1, Event::Failed(f), t2);
            let (failed_later, later_reply) = step(config, m2, Event::Failed(f), t3);
            &&& a1 == Act::FlushWriter
            &&& !config.sync_on_flush ==> a2 == Act::Reply(Ok(())) && !m2.core.dirty
            &&& config.sync_on_flush ==> a2 == Act::SyncAll && a3 == Act::Reply(Ok(()))
                && !m3.core.dirty
            &&& reply == Act::Reply(Err(WorkerError::Io(f.error)))
            &&& failed.core.last_error == Some(f.text@) && failed.core.dirty == m.core.dirty
            &&& config.sync_on_flush ==> later_reply == Act::Reply(Err(WorkerError::Io(f.error)))
                && failed_later.core.last_error == Some(f.text@)
        }),
{
}

/// A sync that was asked for flushes, and then makes the data durable, whether flushes do so
/// themselves or not, before it is answered with success. An error is the answer, and is kept.
pub proof fn syncs_are_carried_out(
    config: FileLoggerConfig,
    m: Model,
    f: Failure,
    t1: Tick,
    t2: Tick,
    t3: Tick,
    t4: Tick,
)
    requires
        in_order(m),
        m.stage is Waiting,
        m.core.open,
    ensures
        ({
            let (m1, a1) = step(config, m, Event::Received(Command::Sync), t1);
            let (m2, a2) = step(config, m1, Event::Done, t2);
            let (m3, a3) = step(config, m2, Event::Done, t3);
            let (m4, a4) = step(config, m3, Event::Done, t4);
            let (failed, reply) = step(config, m2, Event::Failed(f), t3);
            &&& a1 == Act::FlushWriter && a2 == Act::SyncAll
            &&& !config.sync_on_flush ==> a3 == Act::Reply(Ok(()))
            &&& config.sync_on_flush ==> a3 == Act::SyncAll && a4 == Act::Reply(Ok(()))
            &&& reply == Act::Reply(Err(WorkerError::Io(f.error)))
            &&& failed.core.last_error == Some(f.text@)
        }),
{
}

/// A rotation that was asked for begins with a flush, whatever the size of the log file; where that
/// fails, its error is the answer, and the files stay as they are.
pub proof fn rotations_can_be_asked_for(config: FileLoggerConfig, m: Model, f: Failure, t1: Tick, t2: Tick)
    requires
        in_order(m),
        m.stage is Waiting,
        m.core.open,
    ensures
        ({
            let (m1, a1) = step(config, m, Event::Received(Command::Rotate), t1);
            let (failed, reply) = step(config, m1, Event::Failed(f), t2);
            &&& a1 == Act::FlushWriter
            &&& m1.stage == Stage::Flushing(FlushFor::Rotate(RotateFor::Command))
            &&& reply == Act::Reply(Err(WorkerError::Io(f.error)))
            &&& failed.core.open && failed.core.last_error == Some(f.text@)
        }),
{
}

/// A shutdown, and the loss of all who could send commands, flush what was written, and end the
/// worker with its statistics, whether that went well or not.
pub proof fn the_end_comes_after_a_flush(
    config: FileLoggerConfig,
    m: Model,
    event: Event,
    f: Failure,
    t1: Tick,
    t2: Tick,
    t3: Tick,
)
    requires
        in_order(m),
        m.stage is Waiting,
        m.core.open,
        event == Event::Received(Command::Shutdown) || event is Disconnected,
    ensures
        ({
            let (m1, a1) = step(config, m, event, t1);
            let (m2, a2) = step(config, m1, Event::Done, t2);
            let (m3, a3) = step(config, m2, Event::Done, t3);
            let (failed, end) = step(config, m1, Event::Failed(f), t2);
            &&& a1 == Act::FlushWriter
            &&& !config.sync_on_flush ==> a2 is Stop && m2.stage is Stopped && !m2.core.dirty
            &&& config.sync_on_flush ==> a2 == Act::SyncAll && a3 is Stop && m3.stage is Stopped
            &&& end is Stop && failed.stage is Stopped && failed.core.last_error == Some(f.text@)
        }),
{
}

/// Without an open log file, a flush, a sync and a rotation are answered with the error that says
/// so; a shutdown ends the worker; and a record that needs no rotation makes it panic, rather than
/// be lost.
pub proof fn a_closed_file_is_told(
    config: FileLoggerConfig,
    m: Model,
    command: Command,
    tick: Tick,
)
    requires
        in_order(m),
        m.stage is Waiting,
        !m.core.open,
    ensures
        ({
            let (next, act) = step(config, m, Event::Received(command), tick);
            let told = Act::Reply(Err(WorkerError::Logger(LogError::WriterUnavailable)));
            &&& command is Flush || command is Sync || command is Rotate ==> act == told
            &&& command is Shutdown ==> act is Stop
            &&& command is Flush || command is Sync || command is Rotate || command is Shutdown
                ==> next.core.last_error == Some("file logger writer unavailable (flush)"@)
            &&& command is Write && config.rotate_size_bytes is None ==> act is Panic
        }),
{
}

/// Statistics are those of the moment: the counts of the worker, when it started and how long it has
/// run, when it was flushed last, and its last error.
pub proof fn statistics_are_of_the_moment(
    config: FileLoggerConfig,
    m: Model,
    event: Event,
    tick: Tick,
)
    requires
        in_order(m),
        expects(m.stage, event),
    ensures
        ({
            let (next, act) = step(config, m, event, tick);
            let told = if act is Stop { act->Stop_0 } else { act->ReplyStats_0 };
            act is Stop || act is ReplyStats ==> {
                &&& told.bytes_written == next.core.bytes
                &&& told.records_written == next.core.records
                &&& told.flush_count == next.core.flushes
                &&& told.rotate_count == next.core.rotations
                &&& told.uptime == tick.uptime
                &&& told.started_at == m.core.started_at
                &&& told.last_flush_at == next.core.last_flush_at
                &&& told.last_error == next.core.last_error
            }
        }),
{
}

/// A batch is written record by record, in order: where there is room for the first it is written, and
/// the others wait; where there is none a rotation comes first, and all of them wait. An empty batch
/// writes nothing.
pub proof fn batches_are_written_in_order(
    config: FileLoggerConfig,
    m: Model,
    batch: Vec<Vec<u8>>,
    tick: Tick,
    i: int,
)
    requires
        in_order(m),
        m.stage is Waiting,
        m.core.open,
    ensures
        ({
            let (next, act) = step(config, m, Event::Received(Command::WriteBatch(batch)), tick);
            let first = line_of(config, batch@[0]@);
            let no_room = match config.rotate_size_bytes {
                Some(limit) => limit > 0 && m.core.size + first.len() > limit,
                None => false,
            };
            &&& batch@.len() == 0 ==> !(act is WriteAll) && next.backlog.len() == 0
            &&& batch@.len() > 0 && no_room ==> act is FlushWriter && next.backlog.len()
                == batch@.len() && (0 <= i < batch@.len() ==> next.backlog[i] == line_of(
                config,
                batch@[i]@,
            ))
            &&& batch@.len() > 0 && !no_room ==> act == Act::WriteAll(first) && next.backlog.len()
                == batch@.len() - 1 && (0 < i < batch@.len() ==> next.backlog[i - 1] == line_of(
                config,
                batch@[i]@,
            ))
        }),
{
    let lines = byte_seqs(batch@).map_values(|p: Seq<u8>| line_of(config, p));
    assert(lines.len() == batch@.len());
    if batch@.len() > 0 {
        assert(lines[0] == line_of(config, batch@[0]@));
    }
}

/// A record that was written is followed by the next one of its batch: at once where there is room for
/// it, and after a rotation where there is none.
pub proof fn the_next_record_follows(config: FileLoggerConfig, m: Model, tick: Tick)
    requires
        in_order(m),
        m.stage is Writing,
        m.backlog.len() > 0,
    ensures
        ({
            let (next, act) = step(config, m, Event::Done, tick);
            let no_room = match config.rotate_size_bytes {
                Some(limit) => limit > 0 && next.core.size + m.backlog[0].len() > limit,
                None => false,
            };
            &&& !no_room ==> act == Act::WriteAll(m.backlog[0]) && next.backlog == m.backlog.skip(1)
            &&& no_room ==> act == Act::FlushWriter && next.backlog == m.backlog && next.stage
                == Stage::Flushing(FlushFor::Rotate(RotateFor::Write))
        }),
{
    assert(m.backlog.drop_first() =~= m.backlog.skip(1));
}

// ===== Errors =====

/// Where the flush before a rotation fails, nothing is moved: the records that the rotation was for are
/// given up, or the error is the answer, and the log file stays open.
pub proof fn failed_flushes_end_the_rotation(
    config: FileLoggerConfig,
    m: Model,
    who: RotateFor,
    f: Failure,
    tick: Tick,
)
    requires
        in_order(m),
        m.stage == Stage::Flushing(FlushFor::Rotate(who)) || m.stage == Stage::FlushSyncing(
            FlushFor::Rotate(who),
        ),
    ensures
        ({
            let (next, act) = step(config, m, Event::Failed(f), tick);
            &&& next.core.open && next.core.size == m.core.size
            &&& next.core.last_error == Some(f.text@)
            &&& who == RotateFor::Command ==> act == Act::Reply(Err(WorkerError::Io(f.error)))
            &&& who == RotateFor::Write ==> next.backlog.len() == 0 && (act is Receive
                || act is FlushWriter)
        }),
{
}

/// Where the log file cannot be opened again, it stays closed: the records that waited are given up,
/// or the error is the answer.
pub proof fn failed_openings_leave_the_file_closed(
    config: FileLoggerConfig,
    m: Model,
    who: RotateFor,
    moving: Option<Failure>,
    f: Failure,
    tick: Tick,
)
    requires
        in_order(m),
        m.stage == Stage::Opening(who, moving),
        !m.core.dirty,
    ensures
        ({
            let (next, act) = step(config, m, Event::Failed(f), tick);
            &&& !next.core.open && next.core.rotations == m.core.rotations
            &&& next.core.last_error == Some(f.text@)
            &&& who == RotateFor::Command ==> act == Act::Reply(Err(WorkerError::Io(f.error)))
            &&& who == RotateFor::Write ==> next.backlog.len() == 0 && act is Receive
        }),
{
}

/// Every failure is kept as the last error, other than that a file to be moved is not there, and as
/// long as the log file is open nothing else is. When the worker started never changes, and while
/// files are moved nothing waits to be flushed.
pub proof fn failures_are_kept(config: FileLoggerConfig, m: Model, event: Event, tick: Tick)
    requires
        in_order(m),
        expects(m.stage, event),
        m.stage is Closing || m.stage is Moving || m.stage is Opening ==> !m.core.dirty,
    ensures
        ({
            let next = step(config, m, event, tick).0;
            &&& next.stage is Closing || next.stage is Moving || next.stage is Opening
                ==> !next.core.dirty
            &&& next.core.started_at == m.core.started_at
            &&& event matches Event::Failed(f) ==> !(m.stage is Moving && f.not_found)
                ==> next.core.last_error == Some(f.text@)
            &&& m.core.open && !(event is Failed) ==> next.core.last_error == m.core.last_error
        }),
{
}

/// A record that could not be written is not written again: it and those of its batch behind it are
/// given up, and the worker goes on.
pub proof fn failed_writes_are_given_up(config: FileLoggerConfig, m: Model, f: Failure, tick: Tick)
    requires
        in_order(m),
        m.stage is Writing,
    ensures
        ({
            let (next, act) = step(config, m, Event::Failed(f), tick);
            &&& next.backlog.len() == 0
            &&& act is Receive || act is FlushWriter
            &&& next.core.bytes == m.core.bytes && next.core.records == m.core.records
            &&& next.core.size == m.core.size
        }),
{
}

// ===== Flushing in time =====

/// With an interval configured, every write, every flush and every rotation that went well sets the
/// next flush to one interval later, counted from then; without one, no flush is ever set.
pub proof fn flushes_are_set_one_interval_on(
    config: FileLoggerConfig,
    m: Model,
    event: Event,
    tick: Tick,
)
    requires
        in_order(m),
        expects(m.stage, event),
        m.core.deadline is Some <==> config.auto_flush_interval is Some,
    ensures
        ({
            let next = step(config, m, event, tick).0;
            let wrote = m.stage is Writing && event is Done;
            let flushed = event is Done && (m.stage is FlushSyncing || (m.stage is Flushing
                && !config.sync_on_flush));
            let opened = event is Opened;
            &&& next.core.deadline is Some <==> config.auto_flush_interval is Some
            &&& config.auto_flush_interval matches Some(interval) ==> next.core.deadline == (if wrote
                || flushed || opened {
                Some(nanos_of(tick.uptime) + nanos_of(interval))
            } else {
                m.core.deadline
            })
        }),
{
}

/// A worker that waits and hears nothing in time flushes what was written if its flush is due, and
/// waits on otherwise. It always waits for one interval at most, where one is configured.
pub proof fn what_was_written_is_flushed_in_time(config: FileLoggerConfig, m: Model, tick: Tick)
    requires
        in_order(m),
        m.stage is Waiting,
        m.core.open,
    ensures
        ({
            let (next, act) = step(config, m, Event::TimedOut, tick);
            let due = m.core.dirty && m.core.deadline is Some && nanos_of(tick.uptime)
                >= m.core.deadline->0;
            &&& due ==> act == Act::FlushWriter
            &&& !due ==> act == Act::Receive(config.auto_flush_interval) && next == m
        }),
{
}

/// After every command a flush that is due is carried out before the next command is waited for.
pub proof fn due_flushes_come_first(config: FileLoggerConfig, m: Model, event: Event, tick: Tick)
    requires
        in_order(m),
        expects(m.stage, event),
        m.core.open,
        m.stage is Replied || m.stage is Writing,
    ensures
        ({
            let (next, act) = step(config, m, event, tick);
            let due = next.core.dirty && next.core.deadline is Some && nanos_of(tick.uptime)
                >= next.core.deadline->0;
            act is Receive || (m.stage is Replied && act is FlushWriter) ==> {
                &&& due <==> act == Act::FlushWriter
                &&& !due ==> act == Act::Receive(config.auto_flush_interval)
            }
        }),
{
}

/// A flush that was due and went well leaves nothing to flush, and the worker waits again; one that
/// failed leaves its error.
pub proof fn due_flushes_end(config: FileLoggerConfig, m: Model, f: Failure, tick: Tick)
    requires
        in_order(m),
        m.stage == Stage::Flushing(FlushFor::Due),
    ensures
        ({
            let (next, act) = step(config, m, Event::Done, tick);
            let (failed, wait) = step(config, m, Event::Failed(f), tick);
            &&& !config.sync_on_flush ==> act == Act::Receive(config.auto_flush_interval)
                && !next.core.dirty
            &&& config.sync_on_flush ==> act == Act::SyncAll
            &&& wait == Act::Receive(config.auto_flush_interval)
            &&& failed.core.last_error == Some(f.text@)
        }),
{
}

} // verus!
