use splunklib_rust::log_rotation::{rotated_path, FileOp, Rotation};
use splunklib_rust::log_worker::{panic_message, Action, Event, Failure, LogWorker, Tick};
use splunklib_rust::splunk_file_logger::{
    Command, FileLogger, FileLoggerConfig, FileLoggerStats, Joined, LogEntry, LogError,
    LogErrorKind, OnDrop, Shutdown, StatsStep, TrySend, WorkerError,
};
use std::path::PathBuf;
use std::time::{Duration, SystemTime};

fn config() -> FileLoggerConfig {
    FileLoggerConfig::new(PathBuf::from("/var/log/app.log"))
}

fn tick(millis: u64) -> Tick {
    Tick {
        uptime: Duration::from_millis(millis),
        clock: SystemTime::UNIX_EPOCH + Duration::from_millis(millis),
    }
}

fn failure(text: &str) -> Event {
    Event::Failed(Failure {
        error: std::io::Error::new(std::io::ErrorKind::Other, text.to_string()),
        text: text.to_string(),
        not_found: false,
    })
}

fn missing() -> Event {
    Event::Failed(Failure {
        error: std::io::Error::new(std::io::ErrorKind::NotFound, "gone"),
        text: "gone".to_string(),
        not_found: true,
    })
}

fn stats_of(worker: &mut LogWorker, at: Tick) -> FileLoggerStats {
    let stats = match worker.advance(Event::Received(Command::Stats), at) {
        Action::ReplyStats(stats) => stats,
        _ => panic!("statistics are answered at once"),
    };
    worker.advance(Event::Done, at);
    stats
}

fn some_stats(records: u64) -> FileLoggerStats {
    FileLoggerStats {
        bytes_written: 1,
        records_written: records,
        flush_count: 0,
        rotate_count: 0,
        uptime: Duration::from_secs(1),
        started_at: SystemTime::UNIX_EPOCH,
        last_flush_at: None,
        last_error: Some("x".to_string()),
    }
}

#[test]
fn configuration_has_defaults_and_setters() {
    let c = config();
    assert_eq!(c.base_path(), PathBuf::from("/var/log/app.log"));
    assert_eq!(c.buffer_size, 8192);
    assert_eq!(c.rotate_size_bytes, None);
    assert_eq!(c.max_rotate_files, 0);
    assert!(c.ensure_newline);
    assert!(!c.sync_on_flush);
    assert_eq!(c.queue_capacity, Some(1024));
    assert_eq!(c.session_id, None);
    let c = c
        .with_buffer_size(0)
        .with_rotate_size_bytes(Some(10))
        .with_max_rotate_files(5)
        .with_ensure_newline(false)
        .with_sync_on_flush(true)
        .with_auto_flush_interval(Some(Duration::from_secs(5)))
        .with_queue_capacity(Some(2))
        .with_session_id(Some(9));
    let c = c.clone();
    assert_eq!(c.buffer_size, 1);
    assert_eq!(c.rotate_size_bytes, Some(10));
    assert_eq!(c.max_rotate_files, 5);
    assert!(!c.ensure_newline);
    assert!(c.sync_on_flush);
    assert_eq!(c.auto_flush_interval, Some(Duration::from_secs(5)));
    assert_eq!(c.queue_capacity, Some(2));
    assert_eq!(c.session_id, Some(9));
}

#[test]
fn queues_are_never_unbounded() {
    assert_eq!(config().effective_capacity(), 1024);
    assert_eq!(config().with_queue_capacity(Some(3)).effective_capacity(), 3);
    assert_eq!(config().with_queue_capacity(Some(0)).effective_capacity(), 64);
    assert_eq!(config().with_queue_capacity(None).effective_capacity(), 64);
}

#[test]
fn records_have_time_and_session() {
    let mut logger = FileLogger::new(&config().with_session_id(Some(123456789)));
    assert_eq!(
        logger.format_log_entry(b"Application started successfully", Some(1735032800)),
        b"time=1735032800, sid=123456789, Application started successfully".to_vec()
    );
    assert_eq!(logger.format_log_entry(b"", None), b"time=0, sid=123456789, ".to_vec());
    logger.set_session_id(7);
    assert_eq!(logger.session_id(), 7);
    assert_eq!(logger.format_log_entry(b"x", Some(1)), b"time=1, sid=7, x".to_vec());
}

#[test]
fn session_numbers_are_made_up_within_bounds() {
    let mut differ = false;
    let first = FileLogger::new(&config()).session_id();
    for _ in 0..50 {
        let id = FileLogger::new(&config()).session_id();
        assert!(id <= 9999999999);
        differ = differ || id != first;
    }
    assert!(differ);
}

#[test]
fn messages_become_commands() {
    let logger = FileLogger::new(&config().with_session_id(Some(1)));
    match logger.log(b"m", Some(2)) {
        Ok(Command::Write(bytes)) => assert_eq!(bytes, b"time=2, sid=1, m".to_vec()),
        _ => panic!("expected a write"),
    }
    match logger.try_log_with_header(b"m", false, Some(2)) {
        Ok(Command::Write(bytes)) => assert_eq!(bytes, b"m".to_vec()),
        _ => panic!("expected a write"),
    }
    match logger.log_with_header(b"m", false, None) {
        Ok(Command::Write(bytes)) => assert_eq!(bytes, b"m".to_vec()),
        _ => panic!("expected a write"),
    }
    assert!(matches!(logger.try_log(b"m", None), Ok(Command::Write(_))));
    let entries = vec![
        LogEntry { message: b"a".to_vec(), clock: Some(1) },
        LogEntry { message: b"b".to_vec(), clock: Some(2) },
    ];
    match logger.log_batch(&entries) {
        Ok(Some(Command::WriteBatch(batch))) => assert_eq!(
            batch,
            vec![b"time=1, sid=1, a".to_vec(), b"time=2, sid=1, b".to_vec()]
        ),
        _ => panic!("expected a batch"),
    }
    match logger.try_log_batch_with_header(&entries, false) {
        Ok(Some(Command::WriteBatch(batch))) => assert_eq!(batch, vec![b"a".to_vec(), b"b".to_vec()]),
        _ => panic!("expected a batch"),
    }
    assert!(matches!(logger.log_batch_with_header(&Vec::new(), true), Ok(None)));
    assert!(matches!(logger.try_log_batch(&Vec::new()), Ok(None)));
    assert!(matches!(logger.flush(), Ok(Command::Flush)));
    assert!(matches!(logger.try_flush(), Ok(Command::Flush)));
    assert!(matches!(logger.sync(), Ok(Command::Sync)));
    assert!(matches!(logger.try_sync(), Ok(Command::Sync)));
    assert!(matches!(logger.rotate(), Ok(Command::Rotate)));
    assert!(matches!(logger.try_rotate(), Ok(Command::Rotate)));
    assert!(matches!(logger.stats(), Ok(StatsStep::AskWorker(Command::Stats))));
}

#[test]
fn a_logger_that_is_shut_takes_no_commands() {
    let mut logger = FileLogger::new(&config());
    assert!(matches!(logger.shutdown(), Shutdown::TellWorker));
    assert!(matches!(logger.log(b"m", None), Err(LogError::ShuttingDown)));
    assert!(matches!(logger.try_flush(), Err(LogError::ShuttingDown)));
    assert!(matches!(logger.stats(), Err(LogError::ShuttingDown)));
    assert!(matches!(logger.log_batch(&Vec::new()), Ok(None)));
    let one = vec![LogEntry { message: Vec::new(), clock: None }];
    assert!(matches!(logger.log_batch(&one), Err(LogError::ShuttingDown)));
    assert!(matches!(logger.shutdown(), Shutdown::Answered(Err(LogError::AlreadyShutDown))));
}

#[test]
fn shutdowns_end_with_statistics() {
    let mut logger = FileLogger::new(&config());
    logger.shutdown();
    assert!(matches!(
        logger.finish_shutdown(None, Joined::NotRunning),
        Err(LogError::WorkerDisconnected)
    ));
    let r = logger.finish_shutdown(Some(some_stats(1)), Joined::Ended(some_stats(2)));
    assert_eq!(r.ok().unwrap().records_written, 2);
    match logger.shutdown() {
        Shutdown::Answered(Ok(stats)) => {
            assert_eq!(stats.records_written, 2);
            assert_eq!(stats.last_error.as_deref(), Some("x"));
        }
        _ => panic!("the statistics are known"),
    }
    match logger.stats() {
        Ok(StatsStep::Known(stats)) => assert_eq!(stats.records_written, 2),
        _ => panic!("the statistics are known"),
    }
    let r = logger.finish_shutdown(Some(some_stats(3)), Joined::Panicked);
    assert!(matches!(r, Err(LogError::WorkerPanicked)));
    match logger.shutdown() {
        Shutdown::Answered(Ok(stats)) => assert_eq!(stats.records_written, 3),
        _ => panic!("the answer of the worker is kept"),
    }
    let r = logger.finish_shutdown(Some(some_stats(4)), Joined::NotRunning);
    assert_eq!(r.ok().unwrap().records_written, 4);
}

#[test]
fn errors_have_kinds_and_texts() {
    let all = [
        (LogError::ShuttingDown, LogErrorKind::BrokenPipe, "file logger is shutting down"),
        (LogError::AlreadyShutDown, LogErrorKind::BrokenPipe, "file logger already shut down"),
        (LogError::WorkerDisconnected, LogErrorKind::BrokenPipe, "logger worker disconnected"),
        (LogError::QueueFull, LogErrorKind::WouldBlock, "logger queue is full"),
        (LogError::WorkerPanicked, LogErrorKind::Other, "logger worker panicked during shutdown"),
        (
            LogError::WriterUnavailable,
            LogErrorKind::BrokenPipe,
            "file logger writer unavailable (flush)",
        ),
    ];
    for (error, kind, text) in all {
        assert_eq!(error.kind(), kind);
        assert_eq!(error.message(), text);
    }
    assert_eq!(FileLogger::send_result(true), Ok(()));
    assert_eq!(FileLogger::send_result(false), Err(LogError::WorkerDisconnected));
    assert_eq!(FileLogger::try_send_result(TrySend::Sent), Ok(()));
    assert_eq!(FileLogger::try_send_result(TrySend::Full), Err(LogError::QueueFull));
    assert_eq!(
        FileLogger::try_send_result(TrySend::Disconnected),
        Err(LogError::WorkerDisconnected)
    );
    assert!(FileLogger::recv_io_result(Some(Ok(()))).is_ok());
    assert!(matches!(
        FileLogger::recv_io_result(None),
        Err(WorkerError::Logger(LogError::WorkerDisconnected))
    ));
    assert!(FileLogger::recv_stats(Some(some_stats(1))).is_ok());
    assert!(matches!(FileLogger::recv_stats(None), Err(LogError::WorkerDisconnected)));
}

#[test]
fn the_last_handle_ends_the_worker() {
    let mut logger = FileLogger::new(&config());
    assert_eq!(logger.on_drop(false), OnDrop::Nothing);
    assert_eq!(logger.on_drop(true), OnDrop::ShutDown);
    logger.shutdown();
    assert_eq!(logger.on_drop(true), OnDrop::JoinWorker);
}

#[test]
fn rotated_files_are_numbered() {
    let base = PathBuf::from("/var/log/app.log");
    assert_eq!(rotated_path(&base, 1), PathBuf::from("/var/log/app.log.1"));
    assert_eq!(rotated_path(&base, 12), PathBuf::from("/var/log/app.log.12"));
    assert_eq!(rotated_path(&PathBuf::from("/"), 3), PathBuf::from("/log.3"));
}

#[test]
fn rotations_go_from_the_last_place_to_the_first() {
    let base = PathBuf::from("/l/a");
    let mut steps = Vec::new();
    let mut next = Some(Rotation::new(2));
    while let Some(rotation) = next {
        steps.push(match rotation.op(&base) {
            FileOp::Remove(p) => format!("remove {}", p.display()),
            FileOp::RemoveIfPresent(p) => format!("clear {}", p.display()),
            FileOp::RenameIfPresent(p, q) => format!("{} -> {}", p.display(), q.display()),
        });
        next = rotation.advanced();
    }
    assert_eq!(steps, vec!["clear /l/a.2", "/l/a.1 -> /l/a.2", "clear /l/a.1", "/l/a -> /l/a.1"]);

    let only = Rotation::new(0);
    assert!(matches!(only.op(&base), FileOp::Remove(p) if p == base));
    assert!(only.advanced().is_none());
}

#[test]
fn workers_write_lines_and_count() {
    let (mut worker, first) = LogWorker::new(config(), 5, tick(0));
    assert!(matches!(first, Action::Receive(None)));
    match worker.advance(Event::Received(Command::Write(b"ab".to_vec())), tick(1)) {
        Action::WriteAll(bytes) => assert_eq!(bytes, b"ab\n".to_vec()),
        _ => panic!("expected a write"),
    }
    assert!(matches!(worker.advance(Event::Done, tick(2)), Action::Receive(None)));
    let stats = stats_of(&mut worker, tick(3));
    assert_eq!((stats.bytes_written, stats.records_written), (3, 1));
    assert_eq!(stats.uptime, Duration::from_millis(3));
    assert_eq!(stats.started_at, SystemTime::UNIX_EPOCH);
    assert!(matches!(
        worker.advance(Event::Received(Command::Flush), tick(4)),
        Action::FlushWriter
    ));
    assert!(matches!(worker.advance(Event::Done, tick(5)), Action::Reply(Ok(()))));
    worker.advance(Event::Done, tick(5));
    let stats = stats_of(&mut worker, tick(6));
    assert_eq!(stats.flush_count, 1);
    assert_eq!(stats.last_flush_at, Some(SystemTime::UNIX_EPOCH + Duration::from_millis(5)));
    worker.advance(Event::Received(Command::Flush), tick(7));
    worker.advance(Event::Done, tick(8));
    worker.advance(Event::Done, tick(8));
    assert_eq!(stats_of(&mut worker, tick(9)).flush_count, 1);
}

#[test]
fn lines_get_one_line_feed_at_most() {
    let (mut worker, _) = LogWorker::new(config(), 0, tick(0));
    match worker.advance(Event::Received(Command::Write(b"x\n".to_vec())), tick(1)) {
        Action::WriteAll(bytes) => assert_eq!(bytes, b"x\n".to_vec()),
        _ => panic!("expected a write"),
    }
    let (mut raw, _) = LogWorker::new(config().with_ensure_newline(false), 0, tick(0));
    match raw.advance(Event::Received(Command::Write(b"x".to_vec())), tick(1)) {
        Action::WriteAll(bytes) => assert_eq!(bytes, b"x".to_vec()),
        _ => panic!("expected a write"),
    }
}

#[test]
fn batches_are_written_in_order_until_one_fails() {
    let (mut worker, _) = LogWorker::new(config(), 0, tick(0));
    let batch = vec![b"1".to_vec(), b"2".to_vec(), b"3".to_vec()];
    match worker.advance(Event::Received(Command::WriteBatch(batch)), tick(1)) {
        Action::WriteAll(bytes) => assert_eq!(bytes, b"1\n".to_vec()),
        _ => panic!("expected the first record"),
    }
    match worker.advance(Event::Done, tick(1)) {
        Action::WriteAll(bytes) => assert_eq!(bytes, b"2\n".to_vec()),
        _ => panic!("expected the second record"),
    }
    assert!(matches!(worker.advance(failure("disk full"), tick(1)), Action::Receive(None)));
    let stats = stats_of(&mut worker, tick(2));
    assert_eq!(stats.records_written, 1);
    assert_eq!(stats.last_error.as_deref(), Some("disk full"));
}

#[test]
fn a_record_that_does_not_fit_rotates_first() {
    let settings = config().with_rotate_size_bytes(Some(10)).with_max_rotate_files(1);
    let (mut worker, _) = LogWorker::new(settings, 8, tick(0));
    let record = Command::Write(b"abc".to_vec());
    assert!(matches!(worker.advance(Event::Received(record), tick(1)), Action::FlushWriter));
    assert!(matches!(worker.advance(Event::Done, tick(1)), Action::CloseWriter));
    assert!(matches!(
        worker.advance(Event::Done, tick(1)),
        Action::Move(FileOp::RemoveIfPresent(p)) if p == PathBuf::from("/var/log/app.log.1")
    ));
    assert!(matches!(
        worker.advance(missing(), tick(1)),
        Action::Move(FileOp::RenameIfPresent(p, q))
            if p == PathBuf::from("/var/log/app.log") && q == PathBuf::from("/var/log/app.log.1")
    ));
    assert!(matches!(worker.advance(Event::Done, tick(1)), Action::Open(true)));
    match worker.advance(Event::Opened(0), tick(1)) {
        Action::WriteAll(bytes) => assert_eq!(bytes, b"abc\n".to_vec()),
        _ => panic!("expected the record"),
    }
    worker.advance(Event::Done, tick(1));
    let stats = stats_of(&mut worker, tick(2));
    assert_eq!((stats.rotate_count, stats.records_written), (1, 1));
    let fits = Command::Write(b"12345".to_vec());
    assert!(matches!(worker.advance(Event::Received(fits), tick(3)), Action::WriteAll(_)));
}

#[test]
fn a_limit_of_zero_is_none() {
    let (mut worker, _) = LogWorker::new(config().with_rotate_size_bytes(Some(0)), 99, tick(0));
    let record = Command::Write(b"abc".to_vec());
    assert!(matches!(worker.advance(Event::Received(record), tick(1)), Action::WriteAll(_)));
}

#[test]
fn a_failed_rotation_keeps_the_log_going() {
    let (mut worker, _) = LogWorker::new(config(), 0, tick(0));
    worker.advance(Event::Received(Command::Rotate), tick(1));
    worker.advance(Event::Done, tick(1));
    assert!(matches!(
        worker.advance(Event::Done, tick(1)),
        Action::Move(FileOp::Remove(p)) if p == PathBuf::from("/var/log/app.log")
    ));
    assert!(matches!(worker.advance(failure("busy"), tick(1)), Action::Open(false)));
    match worker.advance(Event::Opened(40), tick(1)) {
        Action::Reply(Err(WorkerError::Io(e))) => assert_eq!(e.to_string(), "busy"),
        _ => panic!("expected the error of the rotation"),
    }
    worker.advance(Event::Done, tick(1));
    let record = Command::Write(b"x".to_vec());
    assert!(matches!(worker.advance(Event::Received(record), tick(1)), Action::WriteAll(_)));
    worker.advance(Event::Done, tick(1));
    let stats = stats_of(&mut worker, tick(2));
    assert_eq!((stats.rotate_count, stats.records_written), (0, 1));
    assert_eq!(stats.last_error.as_deref(), Some("busy"));
}

#[test]
fn a_log_file_that_cannot_be_opened_stops_writes() {
    let (mut worker, _) = LogWorker::new(config(), 0, tick(0));
    worker.advance(Event::Received(Command::Rotate), tick(1));
    worker.advance(Event::Done, tick(1));
    worker.advance(Event::Done, tick(1));
    assert!(matches!(worker.advance(missing(), tick(1)), Action::Open(true)));
    assert!(matches!(worker.advance(failure("no space"), tick(1)), Action::Reply(Err(_))));
    worker.advance(Event::Done, tick(1));
    assert!(matches!(
        worker.advance(Event::Received(Command::Flush), tick(1)),
        Action::Reply(Err(WorkerError::Logger(LogError::WriterUnavailable)))
    ));
    worker.advance(Event::Done, tick(1));
    assert_eq!(
        stats_of(&mut worker, tick(1)).last_error.as_deref(),
        Some("file logger writer unavailable (flush)")
    );
    let record = Command::Write(b"x".to_vec());
    assert!(matches!(worker.advance(Event::Received(record), tick(1)), Action::Panic));
    assert_eq!(
        panic_message(),
        "File logger writer is unavailable due to a rotation failure. Panicking to prevent silent data loss."
    );
}

#[test]
fn syncs_flush_and_sync() {
    let (mut worker, _) = LogWorker::new(config(), 0, tick(0));
    assert!(matches!(worker.advance(Event::Received(Command::Sync), tick(1)), Action::FlushWriter));
    assert!(matches!(worker.advance(Event::Done, tick(1)), Action::SyncAll));
    assert!(matches!(worker.advance(failure("io"), tick(1)), Action::Reply(Err(_))));
    worker.advance(Event::Done, tick(1));

    let (mut worker, _) = LogWorker::new(config().with_sync_on_flush(true), 0, tick(0));
    worker.advance(Event::Received(Command::Flush), tick(1));
    assert!(matches!(worker.advance(Event::Done, tick(1)), Action::SyncAll));
    assert!(matches!(worker.advance(Event::Done, tick(1)), Action::Reply(Ok(()))));
}

#[test]
fn written_data_is_flushed_when_due() {
    let settings = config().with_auto_flush_interval(Some(Duration::from_millis(100)));
    let (mut worker, first) = LogWorker::new(settings, 0, tick(0));
    assert!(matches!(first, Action::Receive(Some(d)) if d == Duration::from_millis(100)));
    assert!(matches!(worker.advance(Event::TimedOut, tick(500)), Action::Receive(Some(_))));
    worker.advance(Event::Received(Command::Write(b"x".to_vec())), tick(600));
    assert!(matches!(worker.advance(Event::Done, tick(600)), Action::Receive(Some(_))));
    assert!(matches!(worker.advance(Event::TimedOut, tick(699)), Action::Receive(Some(_))));
    assert!(matches!(worker.advance(Event::TimedOut, tick(700)), Action::FlushWriter));
    assert!(matches!(worker.advance(Event::Done, tick(701)), Action::Receive(Some(_))));
    assert_eq!(stats_of(&mut worker, tick(702)).flush_count, 1);
}

#[test]
fn workers_flush_before_they_end() {
    let (mut worker, _) = LogWorker::new(config(), 0, tick(0));
    worker.advance(Event::Received(Command::Write(b"x".to_vec())), tick(1));
    worker.advance(Event::Done, tick(1));
    assert!(matches!(
        worker.advance(Event::Received(Command::Shutdown), tick(2)),
        Action::FlushWriter
    ));
    match worker.advance(Event::Done, tick(3)) {
        Action::Stop(stats) => assert_eq!((stats.flush_count, stats.bytes_written), (1, 2)),
        _ => panic!("expected the end"),
    }

    let (mut worker, _) = LogWorker::new(config(), 0, tick(0));
    assert!(matches!(worker.advance(Event::Disconnected, tick(1)), Action::FlushWriter));
    match worker.advance(failure("gone"), tick(2)) {
        Action::Stop(stats) => assert_eq!(stats.last_error.as_deref(), Some("gone")),
        _ => panic!("expected the end"),
    }
}
