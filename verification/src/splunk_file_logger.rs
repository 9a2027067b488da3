//! Thread-safe file logger with rotation and batching: its configuration, and what the handle that
//! callers hold does. The worker behind it is in [`crate::log_worker`].
use std::path::PathBuf;
use std::time::{Duration, SystemTime};

use rand::Rng;
use vstd::prelude::*;
use vstd::string::StringExecFns;
use vstd::utf8::{encode_utf8, is_ascii_chars_encode_utf8};

use crate::file_laws::{begun_shutdown, ended_shutdown, handle_of, ShutdownAnswer, WorkerEnd};
use crate::text::{decimal, decimal_is_digits, decimal_is_injective, decimal_string};

verus! {

/// Minimum queue capacity to prevent unbounded memory growth.
/// If a caller specifies `None` or `0`, this value is used instead.
pub const MIN_QUEUE_CAPACITY: usize = 64;

/// The greatest session number that is made up.
pub const MAX_SESSION_ID: u64 = 9999999999;

// ===== Configuration =====

/// How a log file is written.
#[derive(Debug)]
pub struct FileLoggerConfig {
    pub base_path: PathBuf,
    pub buffer_size: usize,
    pub rotate_size_bytes: Option<u64>,
    pub max_rotate_files: usize,
    pub ensure_newline: bool,
    pub sync_on_flush: bool,
    pub auto_flush_interval: Option<Duration>,
    pub queue_capacity: Option<usize>,
    pub session_id: Option<u64>,
}

impl Clone for FileLoggerConfig {
    /// The same configuration.
    fn clone(&self) -> (r: Self)
        ensures
            r == *self,
    {
        FileLoggerConfig {
            base_path: self.base_path.clone(),
            buffer_size: self.buffer_size,
            rotate_size_bytes: self.rotate_size_bytes,
            max_rotate_files: self.max_rotate_files,
            ensure_newline: self.ensure_newline,
            sync_on_flush: self.sync_on_flush,
            auto_flush_interval: self.auto_flush_interval,
            queue_capacity: self.queue_capacity,
            session_id: self.session_id,
        }
    }
}

impl FileLoggerConfig {
    /// The default configuration for a path.
    pub fn new(base_path: PathBuf) -> (r: Self)
        ensures
            r.base_path == base_path,
            r.buffer_size == 8192,
            r.rotate_size_bytes is None,
            r.max_rotate_files == 0,
            r.ensure_newline,
            !r.sync_on_flush,
            r.auto_flush_interval is None,
            r.queue_capacity == Some(1024usize),
            r.session_id is None,
    {
        FileLoggerConfig {
            base_path,
            buffer_size: 8192,
            rotate_size_bytes: None,
            max_rotate_files: 0,
            ensure_newline: true,
            sync_on_flush: false,
            auto_flush_interval: None,
            queue_capacity: Some(1024),
            session_id: None,
        }
    }

    /// The path of the log file.
    pub fn base_path(&self) -> (r: PathBuf)
        ensures
            r == self.base_path,
    {
        self.base_path.clone()
    }

    /// Sets the size of the write buffer, at least one byte.
    pub fn with_buffer_size(self, buffer_size: usize) -> (r: Self)
        ensures
            r.buffer_size == (if buffer_size == 0 { 1 } else { buffer_size }),
            r == (FileLoggerConfig { buffer_size: r.buffer_size, ..self }),
    {
        FileLoggerConfig { buffer_size: if buffer_size == 0 { 1 } else { buffer_size }, ..self }
    }

    /// Sets the size that the log file may not grow past.
    pub fn with_rotate_size_bytes(self, rotate_size_bytes: Option<u64>) -> (r: Self)
        ensures
            r == (FileLoggerConfig { rotate_size_bytes, ..self }),
    {
        FileLoggerConfig { rotate_size_bytes, ..self }
    }

    /// Sets how many old files are kept.
    pub fn with_max_rotate_files(self, max_rotate_files: usize) -> (r: Self)
        ensures
            r == (FileLoggerConfig { max_rotate_files, ..self }),
    {
        FileLoggerConfig { max_rotate_files, ..self }
    }

    /// Sets whether every record ends with a line feed.
    pub fn with_ensure_newline(self, ensure_newline: bool) -> (r: Self)
        ensures
            r == (FileLoggerConfig { ensure_newline, ..self }),
    {
        FileLoggerConfig { ensure_newline, ..self }
    }

    /// Sets whether a flush also makes the data durable.
    pub fn with_sync_on_flush(self, sync_on_flush: bool) -> (r: Self)
        ensures
            r == (FileLoggerConfig { sync_on_flush, ..self }),
    {
        FileLoggerConfig { sync_on_flush, ..self }
    }

    /// Sets after how long a write is flushed without being asked to.
    pub fn with_auto_flush_interval(self, interval: Option<Duration>) -> (r: Self)
        ensures
            r == (FileLoggerConfig { auto_flush_interval: interval, ..self }),
    {
        FileLoggerConfig { auto_flush_interval: interval, ..self }
    }

    /// Sets how many commands may wait.
    pub fn with_queue_capacity(self, capacity: Option<usize>) -> (r: Self)
        ensures
            r == (FileLoggerConfig { queue_capacity: capacity, ..self }),
    {
        FileLoggerConfig { queue_capacity: capacity, ..self }
    }

    /// Sets the session number.
    pub fn with_session_id(self, session_id: Option<u64>) -> (r: Self)
        ensures
            r == (FileLoggerConfig { session_id, ..self }),
    {
        FileLoggerConfig { session_id, ..self }
    }

    /// How many commands may wait: the configured number, or the minimum where none or zero is
    /// configured.
    pub fn effective_capacity(&self) -> (r: usize)
        ensures
            r == (match self.queue_capacity {
                Some(capacity) => if capacity > 0 {
                    capacity
                } else {
                    64
                },
                None => 64,
            }),
            r > 0,
    {
        match self.queue_capacity {
            Some(capacity) => if capacity > 0 {
                capacity
            } else {
                MIN_QUEUE_CAPACITY
            },
            None => MIN_QUEUE_CAPACITY,
        }
    }
}

// ===== Statistics =====

/// What a logger has done so far.
#[derive(Debug)]
pub struct FileLoggerStats {
    pub bytes_written: u64,
    pub records_written: u64,
    pub flush_count: u64,
    pub rotate_count: u64,
    pub uptime: Duration,
    pub started_at: SystemTime,
    pub last_flush_at: Option<SystemTime>,
    pub last_error: Option<String>,
}

/// Statistics by what they say.
pub struct Stats {
    pub bytes_written: u64,
    pub records_written: u64,
    pub flush_count: u64,
    pub rotate_count: u64,
    pub uptime: Duration,
    pub started_at: SystemTime,
    pub last_flush_at: Option<SystemTime>,
    pub last_error: Option<Seq<char>>,
}

/// A text that may be missing, as its characters.
pub open spec fn optional_text(text: Option<String>) -> Option<Seq<char>> {
    match text {
        Some(t) => Some(t@),
        None => None,
    }
}

impl View for FileLoggerStats {
    type V = Stats;

    open spec fn view(&self) -> Stats {
        Stats {
            bytes_written: self.bytes_written,
            records_written: self.records_written,
            flush_count: self.flush_count,
            rotate_count: self.rotate_count,
            uptime: self.uptime,
            started_at: self.started_at,
            last_flush_at: self.last_flush_at,
            last_error: optional_text(self.last_error),
        }
    }
}

impl Clone for FileLoggerStats {
    /// The same statistics.
    fn clone(&self) -> (r: Self)
        ensures
            r@ == self@,
    {
        FileLoggerStats {
            bytes_written: self.bytes_written,
            records_written: self.records_written,
            flush_count: self.flush_count,
            rotate_count: self.rotate_count,
            uptime: self.uptime,
            started_at: self.started_at,
            last_flush_at: self.last_flush_at,
            last_error: match &self.last_error {
                Some(text) => Some(text.clone()),
                None => None,
            },
        }
    }
}

// ===== Errors =====

/// The kind of an error.
#[derive(Debug, Clone, Copy, PartialEq, Eq, Structural)]
pub enum LogErrorKind {
    BrokenPipe,
    WouldBlock,
    Other,
}

/// Why the handle refuses or fails.
#[derive(Debug, Clone, Copy, PartialEq, Eq, Structural)]
pub enum LogError {
    ShuttingDown,
    AlreadyShutDown,
    WorkerDisconnected,
    QueueFull,
    WorkerPanicked,
    WriterUnavailable,
}

impl LogError {
    /// The kind of the error.
    pub open spec fn kind_of(self) -> LogErrorKind {
        match self {
            LogError::QueueFull => LogErrorKind::WouldBlock,
            LogError::WorkerPanicked => LogErrorKind::Other,
            _ => LogErrorKind::BrokenPipe,
        }
    }

    /// The text of the error.
    pub open spec fn text(self) -> Seq<char> {
        match self {
            LogError::ShuttingDown => "file logger is shutting down"@,
            LogError::AlreadyShutDown => "file logger already shut down"@,
            LogError::WorkerDisconnected => "logger worker disconnected"@,
            LogError::QueueFull => "logger queue is full"@,
            LogError::WorkerPanicked => "logger worker panicked during shutdown"@,
            LogError::WriterUnavailable => "file logger writer unavailable (flush)"@,
        }
    }

    /// The kind of the error.
    pub fn kind(&self) -> (r: LogErrorKind)
        ensures
            r == self.kind_of(),
    {
        match self {
            LogError::QueueFull => LogErrorKind::WouldBlock,
            LogError::WorkerPanicked => LogErrorKind::Other,
            _ => LogErrorKind::BrokenPipe,
        }
    }

    /// The text of the error.
    pub fn message(&self) -> (r: String)
        ensures
            r@ == self.text(),
    {
        match self {
            LogError::ShuttingDown => "file logger is shutting down".to_string(),
            LogError::AlreadyShutDown => "file logger already shut down".to_string(),
            LogError::WorkerDisconnected => "logger worker disconnected".to_string(),
            LogError::QueueFull => "logger queue is full".to_string(),
            LogError::WorkerPanicked => "logger worker panicked during shutdown".to_string(),
            LogError::WriterUnavailable => "file logger writer unavailable (flush)".to_string(),
        }
    }
}

/// Why a command failed.
pub enum WorkerError {
    /// The platform said so.
    Io(std::io::Error),
    /// The logger itself said so.
    Logger(LogError),
}

// ===== Records =====

/// The header of a record.
pub open spec fn header_text(seconds: nat, session_id: nat) -> Seq<char> {
    "time="@ + decimal(seconds) + ", sid="@ + decimal(session_id) + ", "@
}

/// A record: `time=<epoch>, sid=<session_id>, <message>`.
pub open spec fn record_of(message: Seq<u8>, seconds: nat, session_id: nat) -> Seq<u8> {
    encode_utf8(header_text(seconds, session_id)) + message
}

/// The seconds since the epoch; zero for a clock that stands before it.
pub open spec fn epoch_seconds(clock: Option<u64>) -> nat {
    match clock {
        Some(seconds) => seconds as nat,
        None => 0,
    }
}

/// What is written for a message, with a header or without.
pub open spec fn payload_of(
    message: Seq<u8>,
    add_header: bool,
    clock: Option<u64>,
    session_id: u64,
) -> Seq<u8> {
    if add_header {
        record_of(message, epoch_seconds(clock), session_id as nat)
    } else {
        message
    }
}

proof fn numeral_ends_at_comma(
    a: Seq<char>,
    b: Seq<char>,
    r: Seq<u8>,
    at: int,
)
    requires
        forall|i: int| 0 <= i < a.len() ==> '0' <= #[trigger] a[i] <= '9',
        forall|i: int| 0 <= i < b.len() ==> '0' <= #[trigger] b[i] <= '9',
        0 <= at,
        at + a.len() < r.len(),
        at + b.len() < r.len(),
        forall|i: int| 0 <= i < a.len() ==> r[at + i] == #[trigger] a[i] as u8,
        forall|i: int| 0 <= i < b.len() ==> r[at + i] == #[trigger] b[i] as u8,
        r[at + a.len()] == 44,
        r[at + b.len()] == 44,
    ensures
        a == b,
{
    if a.len() < b.len() {
        assert(r[at + a.len()] == b[a.len() as int] as u8);
    }
    if b.len() < a.len() {
        assert(r[at + b.len()] == a[b.len() as int] as u8);
    }
    assert forall|i: int| 0 <= i < a.len() implies a[i] == b[i] by {
        assert(r[at + i] == a[i] as u8);
        assert(r[at + i] == b[i] as u8);
    }
    assert(a =~= b);
}

proof fn header_bytes(seconds: nat, session_id: nat)
    ensures
        ({
            let d = decimal(seconds);
            let e = decimal(session_id);
            let h = header_text(seconds, session_id);
            let b = encode_utf8(h);
            &&& b.len() == h.len() == 5 + d.len() + 6 + e.len() + 2
            &&& forall|i: int| 0 <= i < d.len() ==> b[5 + i] == #[trigger] d[i] as u8
            &&& b[5int + d.len()] == 44
            &&& forall|i: int| 0 <= i < e.len() ==> b[11int + d.len() + i] == #[trigger] e[i] as u8
            &&& b[11int + d.len() + e.len()] == 44
        }),
{
    let d = decimal(seconds);
    let e = decimal(session_id);
    let h = header_text(seconds, session_id);
    decimal_is_digits(seconds);
    decimal_is_digits(session_id);
    reveal_strlit("time=");
    reveal_strlit(", sid=");
    reveal_strlit(", ");
    assert forall|i: int| 0 <= i < h.len() implies '\0' <= #[trigger] h[i] <= '\u{7f}' by {
        if 5 <= i < 5 + d.len() {
            assert(h[i] == d[i - 5]);
        } else if 11 + d.len() <= i < 11 + d.len() + e.len() {
            assert(h[i] == e[i - 11 - d.len()]);
        }
    }
    is_ascii_chars_encode_utf8(h);
    let b = encode_utf8(h);
    assert forall|i: int| 0 <= i < d.len() implies b[5 + i] == #[trigger] d[i] as u8 by {
        assert(h[5 + i] == d[i]);
    }
    assert forall|i: int| 0 <= i < e.len() implies b[11int + d.len() + i] == #[trigger] e[i] as u8 by {
        assert(h[11int + d.len() + i] == e[i]);
    }
    assert(h[5int + d.len()] == ',');
    assert(h[11int + d.len() + e.len()] == ',');
}

/// A record tells its time, its session and its message: records that differ in any of them are
/// different.
pub proof fn records_tell_their_parts(
    message: Seq<u8>,
    seconds: nat,
    session_id: nat,
    other_message: Seq<u8>,
    other_seconds: nat,
    other_session_id: nat,
)
    requires
        record_of(message, seconds, session_id) == record_of(
            other_message,
            other_seconds,
            other_session_id,
        ),
    ensures
        message == other_message,
        seconds == other_seconds,
        session_id == other_session_id,
{
    let r = record_of(message, seconds, session_id);
    let d = decimal(seconds);
    let e = decimal(session_id);
    let x = decimal(other_seconds);
    let y = decimal(other_session_id);
    let b = encode_utf8(header_text(seconds, session_id));
    let c = encode_utf8(header_text(other_seconds, other_session_id));
    header_bytes(seconds, session_id);
    header_bytes(other_seconds, other_session_id);
    decimal_is_digits(seconds);
    decimal_is_digits(session_id);
    decimal_is_digits(other_seconds);
    decimal_is_digits(other_session_id);
    assert(forall|i: int| 0 <= i < b.len() ==> r[i] == #[trigger] b[i]);
    assert(forall|i: int| 0 <= i < c.len() ==> r[i] == #[trigger] c[i]);
    assert forall|i: int| 0 <= i < d.len() implies r[5 + i] == #[trigger] d[i] as u8 by {
        assert(b[5 + i] == d[i] as u8);
    }
    assert forall|i: int| 0 <= i < x.len() implies r[5 + i] == #[trigger] x[i] as u8 by {
        assert(c[5 + i] == x[i] as u8);
    }
    assert(r[5int + d.len()] == b[5int + d.len()]);
    assert(r[5int + x.len()] == c[5int + x.len()]);
    numeral_ends_at_comma(d, x, r, 5);
    decimal_is_injective(seconds, other_seconds);
    let at = 11 + d.len() as int;
    assert forall|i: int| 0 <= i < e.len() implies r[at + i] == #[trigger] e[i] as u8 by {
        assert(b[at + i] == e[i] as u8);
    }
    assert forall|i: int| 0 <= i < y.len() implies r[at + i] == #[trigger] y[i] as u8 by {
        assert(c[at + i] == y[i] as u8);
    }
    assert(r[at + e.len()] == b[at + e.len()]);
    assert(r[at + y.len()] == c[at + y.len()]);
    numeral_ends_at_comma(e, y, r, at);
    decimal_is_injective(session_id, other_session_id);
    assert(r.skip(b.len() as int) =~= message);
    assert(r.skip(b.len() as int) =~= other_message);
}

/// A copy of bytes.
fn copy_bytes(bytes: &[u8]) -> (r: Vec<u8>)
    ensures
        r@ == bytes@,
{
    let mut r: Vec<u8> = Vec::new();
    r.extend_from_slice(bytes);
    assert(r@ =~= bytes@);
    r
}

// ===== Commands =====

/// A message of a batch, and its time in seconds since the epoch, or `None` for a time before it.
pub struct LogEntry {
    pub message: Vec<u8>,
    pub clock: Option<u64>,
}

/// What the worker is asked to do. For the last five, an answer is waited for.
pub enum Command {
    Write(Vec<u8>),
    WriteBatch(Vec<Vec<u8>>),
    Flush,
    Sync,
    Rotate,
    Stats,
    Shutdown,
}

/// Several byte strings.
pub open spec fn byte_seqs(v: Seq<Vec<u8>>) -> Seq<Seq<u8>> {
    v.map_values(|b: Vec<u8>| b@)
}

/// What came of handing a command over without waiting.
#[derive(Debug, Clone, Copy, PartialEq, Eq, Structural)]
pub enum TrySend {
    Sent,
    Full,
    Disconnected,
}

/// What came of waiting for the worker to end.
pub enum Joined {
    /// It ended with these statistics.
    Ended(FileLoggerStats),
    Panicked,
    /// It had been waited for before.
    NotRunning,
}

impl View for Joined {
    type V = WorkerEnd;

    open spec fn view(&self) -> WorkerEnd {
        match *self {
            Joined::Ended(stats) => WorkerEnd::Ended(stats@),
            Joined::Panicked => WorkerEnd::Panicked,
            Joined::NotRunning => WorkerEnd::NotRunning,
        }
    }
}

/// Statistics that may be missing, by what they say.
pub open spec fn optional_stats(stats: Option<FileLoggerStats>) -> Option<Stats> {
    match stats {
        Some(s) => Some(s@),
        None => None,
    }
}

/// A result with statistics, by what they say.
pub open spec fn stats_result(r: Result<FileLoggerStats, LogError>) -> Result<Stats, LogError> {
    match r {
        Ok(stats) => Ok(stats@),
        Err(e) => Err(e),
    }
}

/// What is left to do for a shutdown.
pub enum Shutdown {
    /// Nothing: this is the answer.
    Answered(Result<FileLoggerStats, LogError>),
    /// The worker has to be told.
    TellWorker,
}

impl View for Shutdown {
    type V = ShutdownAnswer;

    open spec fn view(&self) -> ShutdownAnswer {
        match *self {
            Shutdown::Answered(Ok(stats)) => ShutdownAnswer::Ended(stats@),
            Shutdown::Answered(Err(e)) => ShutdownAnswer::Refused(e),
            Shutdown::TellWorker => ShutdownAnswer::TellWorker,
        }
    }
}

/// What a handle leaves to do when it goes.
#[derive(Debug, Clone, Copy, PartialEq, Eq, Structural)]
pub enum OnDrop {
    Nothing,
    JoinWorker,
    ShutDown,
}

/// A random number that is not greater than `max`, with `rand::rng` and `Rng::random_range` on the
/// range `..=max`. Which one is left open.
#[verifier::external_body]
fn random_up_to(max: u64) -> (r: u64)
    ensures
        r <= max,
{
    rand::rng().random_range(..=max)
}

/// The handle of a logger: its session number, and whether and how it was shut down.
pub struct FileLogger {
    session_id: u64,
    shutdown: bool,
    final_stats: Option<FileLoggerStats>,
}

impl FileLogger {
    /// The session number.
    pub closed spec fn session(self) -> u64 {
        self.session_id
    }

    /// Whether the logger is shutting down or has shut down.
    pub closed spec fn is_shut(self) -> bool {
        self.shutdown
    }

    /// The statistics that the worker ended with.
    pub closed spec fn ended_with(self) -> Option<Stats> {
        match self.final_stats {
            Some(stats) => Some(stats@),
            None => None,
        }
    }

    /// A handle for a configuration. Where no session number is configured, one is made up.
    pub fn new(config: &FileLoggerConfig) -> (r: Self)
        ensures
            match config.session_id {
                Some(id) => r.session() == id,
                None => r.session() <= 9999999999,
            },
            !r.is_shut(),
            r.ended_with() is None,
    {
        let session_id = match config.session_id {
            Some(id) => id,
            None => random_up_to(MAX_SESSION_ID),
        };
        FileLogger { session_id, shutdown: false, final_stats: None }
    }

    /// What has to be written for a message.
    fn payload(&self, entry: &[u8], add_header: bool, clock: Option<u64>) -> (r: Vec<u8>)
        ensures
            r@ == payload_of(entry@, add_header, clock, self.session()),
    {
        if add_header {
            self.format_log_entry(entry, clock)
        } else {
            copy_bytes(entry)
        }
    }

    /// The record of a message: `time=<epoch>, sid=<session_id>, <message>`. `clock` is the time
    /// in seconds since the epoch, or `None` for a time before it, which counts as zero.
    pub fn format_log_entry(&self, message: &[u8], clock: Option<u64>) -> (r: Vec<u8>)
        ensures
            r@ == record_of(message@, epoch_seconds(clock), self.session() as nat),
    {
        let seconds: u64 = match clock {
            Some(s) => s,
            None => 0,
        };
        let mut header: String = "time=".to_string();
        header.append(decimal_string(seconds).as_str());
        header.append(", sid=");
        header.append(decimal_string(self.session_id).as_str());
        header.append(", ");
        assert(header@ =~= header_text(epoch_seconds(clock), self.session() as nat));
        let mut payload = copy_bytes(header.as_str().as_bytes());
        let ghost start = payload@;
        payload.extend_from_slice(message);
        assert(payload@ =~= start + message@);
        payload
    }

    /// The command for a message with a header.
    pub fn log(&self, entry: &[u8], clock: Option<u64>) -> (r: Result<Command, LogError>)
        ensures
            match r {
                Ok(command) => !self.is_shut() && command is Write && command->Write_0@
                    == payload_of(entry@, true, clock, self.session()),
                Err(e) => self.is_shut() && e == LogError::ShuttingDown,
            },
    {
        self.log_with_header(entry, true, clock)
    }

    /// The command for a message. A logger that is shutting down takes none.
    pub fn log_with_header(&self, entry: &[u8], add_header: bool, clock: Option<u64>) -> (r: Result<
        Command,
        LogError,
    >)
        ensures
            match r {
                Ok(command) => !self.is_shut() && command is Write && command->Write_0@
                    == payload_of(entry@, add_header, clock, self.session()),
                Err(e) => self.is_shut() && e == LogError::ShuttingDown,
            },
    {
        let payload = self.payload(entry, add_header, clock);
        self.send_command(Command::Write(payload))
    }

    /// The command for a message with a header, to be handed over without waiting.
    pub fn try_log(&self, entry: &[u8], clock: Option<u64>) -> (r: Result<Command, LogError>)
        ensures
            match r {
                Ok(command) => !self.is_shut() && command is Write && command->Write_0@
                    == payload_of(entry@, true, clock, self.session()),
                Err(e) => self.is_shut() && e == LogError::ShuttingDown,
            },
    {
        self.try_log_with_header(entry, true, clock)
    }

    /// The command for a message, to be handed over without waiting.
    pub fn try_log_with_header(&self, entry: &[u8], add_header: bool, clock: Option<u64>) -> (r:
        Result<Command, LogError>)
        ensures
            match r {
                Ok(command) => !self.is_shut() && command is Write && command->Write_0@
                    == payload_of(entry@, add_header, clock, self.session()),
                Err(e) => self.is_shut() && e == LogError::ShuttingDown,
            },
    {
        let payload = self.payload(entry, add_header, clock);
        self.try_send_command(Command::Write(payload))
    }

    /// The command for several messages with headers; none where there are no messages.
    pub fn log_batch(&self, entries: &Vec<LogEntry>) -> (r: Result<
        Option<Command>,
        LogError,
    >)
        ensures
            batch_outcome(*self, entries@, true, r),
    {
        self.log_batch_with_header(entries, true)
    }

    /// The command for several messages; none where there are no messages.
    pub fn log_batch_with_header(
        &self,
        entries: &Vec<LogEntry>,
        add_header: bool,
    ) -> (r: Result<Option<Command>, LogError>)
        ensures
            batch_outcome(*self, entries@, add_header, r),
    {
        let batch = self.batch(entries, add_header);
        if batch.len() == 0 {
            return Ok(None);
        }
        match self.send_command(Command::WriteBatch(batch)) {
            Ok(command) => Ok(Some(command)),
            Err(e) => Err(e),
        }
    }

    /// The command for several messages with headers, to be handed over without waiting.
    pub fn try_log_batch(&self, entries: &Vec<LogEntry>) -> (r: Result<
        Option<Command>,
        LogError,
    >)
        ensures
            batch_outcome(*self, entries@, true, r),
    {
        self.try_log_batch_with_header(entries, true)
    }

    /// The command for several messages, to be handed over without waiting.
    pub fn try_log_batch_with_header(
        &self,
        entries: &Vec<LogEntry>,
        add_header: bool,
    ) -> (r: Result<Option<Command>, LogError>)
        ensures
            batch_outcome(*self, entries@, add_header, r),
    {
        let batch = self.batch(entries, add_header);
        if batch.len() == 0 {
            return Ok(None);
        }
        match self.try_send_command(Command::WriteBatch(batch)) {
            Ok(command) => Ok(Some(command)),
            Err(e) => Err(e),
        }
    }

    /// What has to be written for several messages.
    fn batch(&self, entries: &Vec<LogEntry>, add_header: bool) -> (r: Vec<Vec<u8>>)
        ensures
            r@.len() == entries@.len(),
            byte_seqs(r@) == batch_payloads(entries@, add_header, self.session()),
    {
        let mut batch: Vec<Vec<u8>> = Vec::new();
        let mut i: usize = 0;
        while i < entries.len()
            invariant
                i <= entries@.len(),
                batch@.len() == i,
                forall|j: int|
                    0 <= j < i ==> (#[trigger] batch@[j])@ == payload_of(
                        entries@[j].message@,
                        add_header,
                        entries@[j].clock,
                        self.session(),
                    ),
            decreases entries@.len() - i,
        {
            let entry = &entries[i];
            let payload = self.payload(entry.message.as_slice(), add_header, entry.clock);
            batch.push(payload);
            i += 1;
        }
        assert(byte_seqs(batch@) =~= batch_payloads(entries@, add_header, self.session()));
        batch
    }

    /// The session number.
    pub fn session_id(&self) -> (r: u64)
        ensures
            r == self.session(),
    {
        self.session_id
    }

    /// Sets the session number for the records to come.
    pub fn set_session_id(&mut self, sid: u64)
        ensures
            final(self).session() == sid,
            final(self).is_shut() == old(self).is_shut(),
            final(self).ended_with() == old(self).ended_with(),
    {
        self.session_id = sid;
    }

    /// The command for a flush.
    pub fn flush(&self) -> (r: Result<Command, LogError>)
        ensures
            r == command_outcome(*self, Command::Flush),
    {
        self.send_command(Command::Flush)
    }

    /// The command for a flush, to be handed over without waiting.
    pub fn try_flush(&self) -> (r: Result<Command, LogError>)
        ensures
            r == command_outcome(*self, Command::Flush),
    {
        self.try_send_command(Command::Flush)
    }

    /// The command that makes the data durable.
    pub fn sync(&self) -> (r: Result<Command, LogError>)
        ensures
            r == command_outcome(*self, Command::Sync),
    {
        self.send_command(Command::Sync)
    }

    /// The command that makes the data durable, to be handed over without waiting.
    pub fn try_sync(&self) -> (r: Result<Command, LogError>)
        ensures
            r == command_outcome(*self, Command::Sync),
    {
        self.try_send_command(Command::Sync)
    }

    /// The command for a rotation.
    pub fn rotate(&self) -> (r: Result<Command, LogError>)
        ensures
            r == command_outcome(*self, Command::Rotate),
    {
        self.send_command(Command::Rotate)
    }

    /// The command for a rotation, to be handed over without waiting.
    pub fn try_rotate(&self) -> (r: Result<Command, LogError>)
        ensures
            r == command_outcome(*self, Command::Rotate),
    {
        self.try_send_command(Command::Rotate)
    }

    /// The statistics, where the logger has shut down with some; else the command that asks for
    /// them, which a logger that is shutting down refuses.
    pub fn stats(&self) -> (r: Result<StatsStep, LogError>)
        ensures
            match r {
                Ok(StatsStep::Known(stats)) => self.is_shut() && self.ended_with() == Some(stats@),
                Ok(StatsStep::AskWorker(command)) => !self.is_shut() && command is Stats,
                Err(e) => self.is_shut() && self.ended_with() is None && e
                    == LogError::ShuttingDown,
            },
            match (r, begun_shutdown(handle_of(*self)).1) {
                (Ok(StatsStep::Known(stats)), ShutdownAnswer::Ended(ended)) => stats@ == ended,
                (Ok(StatsStep::AskWorker(_)), ShutdownAnswer::TellWorker) => true,
                (Err(_), ShutdownAnswer::Refused(_)) => true,
                _ => false,
            },
    {
        if self.shutdown {
            if let Some(stats) = &self.final_stats {
                return Ok(StatsStep::Known(stats.clone()));
            }
        }
        match self.send_command(Command::Stats) {
            Ok(command) => Ok(StatsStep::AskWorker(command)),
            Err(e) => Err(e),
        }
    }

    /// Begins a shutdown. Only the first call tells the worker; later ones give the statistics
    /// that the worker ended with, or an error where it has not ended.
    pub fn shutdown(&mut self) -> (r: Shutdown)
        ensures
            final(self).is_shut(),
            final(self).session() == old(self).session(),
            final(self).ended_with() == old(self).ended_with(),
            match r {
                Shutdown::TellWorker => !old(self).is_shut(),
                Shutdown::Answered(Ok(stats)) => old(self).is_shut() && old(self).ended_with()
                    == Some(stats@),
                Shutdown::Answered(Err(e)) => old(self).is_shut() && old(self).ended_with() is None
                    && e == LogError::AlreadyShutDown,
            },
            (handle_of(*final(self)), r@) == begun_shutdown(handle_of(*old(self))),
    {
        let was_shut = self.shutdown;
        self.shutdown = true;
        if !was_shut {
            return Shutdown::TellWorker;
        }
        match &self.final_stats {
            Some(stats) => Shutdown::Answered(Ok(stats.clone())),
            None => Shutdown::Answered(Err(LogError::AlreadyShutDown)),
        }
    }

    /// Ends a shutdown. `answer` is what the worker answered, or `None` where it could not be
    /// told or did not answer; `joined` is what came of waiting for its end.
    pub fn finish_shutdown(&mut self, answer: Option<FileLoggerStats>, joined: Joined) -> (r: Result<
        FileLoggerStats,
        LogError,
    >)
        ensures
            final(self).is_shut() == old(self).is_shut(),
            final(self).session() == old(self).session(),
            match answer {
                None => r is Err && r->Err_0 == LogError::WorkerDisconnected
                    && final(self).ended_with() == old(self).ended_with(),
                Some(answered) => match joined {
                    Joined::Ended(stats) => r is Ok && r->Ok_0@ == stats@
                        && final(self).ended_with() == Some(stats@),
                    Joined::Panicked => r is Err && r->Err_0 == LogError::WorkerPanicked
                        && final(self).ended_with() == Some(answered@),
                    Joined::NotRunning => r is Ok && r->Ok_0@ == answered@
                        && final(self).ended_with() == Some(answered@),
                },
            },
            (handle_of(*final(self)), stats_result(r)) == ended_shutdown(
                handle_of(*old(self)),
                optional_stats(answer),
                joined@,
            ),
    {
        match answer {
            None => Err(LogError::WorkerDisconnected),
            Some(answered) => match joined {
                Joined::Ended(stats) => {
                    self.final_stats = Some(stats.clone());
                    Ok(stats)
                },
                Joined::Panicked => {
                    self.final_stats = Some(answered);
                    Err(LogError::WorkerPanicked)
                },
                Joined::NotRunning => {
                    self.final_stats = Some(answered.clone());
                    Ok(answered)
                },
            },
        }
    }

    /// What a handle leaves to do when it goes: nothing where others are left; to wait for the
    /// worker where it was shut down; else to shut it down.
    pub fn on_drop(&self, is_last: bool) -> (r: OnDrop)
        ensures
            r == (if !is_last {
                OnDrop::Nothing
            } else if self.is_shut() {
                OnDrop::JoinWorker
            } else {
                OnDrop::ShutDown
            }),
    {
        if !is_last {
            OnDrop::Nothing
        } else if self.shutdown {
            OnDrop::JoinWorker
        } else {
            OnDrop::ShutDown
        }
    }

    /// Lets a command pass unless the logger is shutting down.
    fn send_command(&self, command: Command) -> (r: Result<Command, LogError>)
        ensures
            r == command_outcome(*self, command),
    {
        if self.shutdown {
            Err(LogError::ShuttingDown)
        } else {
            Ok(command)
        }
    }

    /// Lets a command pass unless the logger is shutting down.
    fn try_send_command(&self, command: Command) -> (r: Result<Command, LogError>)
        ensures
            r == command_outcome(*self, command),
    {
        if self.shutdown {
            Err(LogError::ShuttingDown)
        } else {
            Ok(command)
        }
    }

    /// What handing a command over comes to; `delivered` is false where the worker has gone.
    pub fn send_result(delivered: bool) -> (r: Result<(), LogError>)
        ensures
            r == (if delivered {
                Ok::<(), LogError>(())
            } else {
                Err(LogError::WorkerDisconnected)
            }),
    {
        if delivered {
            Ok(())
        } else {
            Err(LogError::WorkerDisconnected)
        }
    }

    /// What waiting for the answer to a command comes to; `None` where the worker has gone.
    pub fn recv_io_result(answer: Option<Result<(), WorkerError>>) -> (r: Result<(), WorkerError>)
        ensures
            r == (match answer {
                Some(result) => result,
                None => Err(WorkerError::Logger(LogError::WorkerDisconnected)),
            }),
    {
        match answer {
            Some(result) => result,
            None => Err(WorkerError::Logger(LogError::WorkerDisconnected)),
        }
    }

    /// What waiting for statistics comes to; `None` where the worker has gone.
    pub fn recv_stats(answer: Option<FileLoggerStats>) -> (r: Result<FileLoggerStats, LogError>)
        ensures
            r == (match answer {
                Some(stats) => Ok::<FileLoggerStats, LogError>(stats),
                None => Err(LogError::WorkerDisconnected),
            }),
    {
        match answer {
            Some(stats) => Ok(stats),
            None => Err(LogError::WorkerDisconnected),
        }
    }

    /// What handing a command over without waiting comes to.
    pub fn try_send_result(outcome: TrySend) -> (r: Result<(), LogError>)
        ensures
            r == (match outcome {
                TrySend::Sent => Ok::<(), LogError>(()),
                TrySend::Full => Err(LogError::QueueFull),
                TrySend::Disconnected => Err(LogError::WorkerDisconnected),
            }),
    {
        match outcome {
            TrySend::Sent => Ok(()),
            TrySend::Full => Err(LogError::QueueFull),
            TrySend::Disconnected => Err(LogError::WorkerDisconnected),
        }
    }
}

/// What asking for statistics comes to.
pub enum StatsStep {
    Known(FileLoggerStats),
    AskWorker(Command),
}

/// What a command comes to: a logger that is shutting down takes none.
pub open spec fn command_outcome(logger: FileLogger, command: Command) -> Result<
    Command,
    LogError,
> {
    if logger.is_shut() {
        Err(LogError::ShuttingDown)
    } else {
        Ok(command)
    }
}

/// What has to be written for several messages.
pub open spec fn batch_payloads(
    entries: Seq<LogEntry>,
    add_header: bool,
    session_id: u64,
) -> Seq<Seq<u8>> {
    entries.map_values(
        |e: LogEntry| payload_of(e.message@, add_header, e.clock, session_id),
    )
}

/// What a batch comes to: nothing for no messages, whether the logger is shutting down or not;
/// else one command with what has to be written, in order, which a logger that is shutting down
/// refuses.
pub open spec fn batch_outcome(
    logger: FileLogger,
    entries: Seq<LogEntry>,
    add_header: bool,
    r: Result<Option<Command>, LogError>,
) -> bool {
    if entries.len() == 0 {
        r == Ok::<Option<Command>, LogError>(None)
    } else if logger.is_shut() {
        r == Err::<Option<Command>, LogError>(LogError::ShuttingDown)
    } else {
        &&& r matches Ok(Some(Command::WriteBatch(batch)))
        &&& byte_seqs(batch@) == batch_payloads(entries, add_header, logger.session())
    }
}

} // verus!
