use splunklib_rust::send_batches::{BatchStep, Reply};
use splunklib_rust::splunk_http_sender::{
    gzip_error, join_delimited, join_encoded, user_agent, DebugOptions, EventMetadata, GzipFailure,
    HecEvent, HttpEventSender, HttpEventSenderBuilder, Logger, SplunkError,
};
use std::io::Read;
use std::sync::{Arc, Mutex};
use std::time::Duration;

fn json(text: &str) -> serde_json::Value {
    serde_json::from_str(text).unwrap()
}

fn sender() -> HttpEventSender {
    HttpEventSender::new("http://example.com/ingest", true).unwrap()
}

fn metadata() -> EventMetadata {
    EventMetadata::new("main", "src", "st", "host")
}

fn header(name: &str, value: &str) -> (String, String) {
    (name.to_string(), value.to_string())
}

fn config_text<T>(r: Result<T, SplunkError>) -> String {
    match r {
        Err(SplunkError::ConfigError(text)) => text,
        _ => panic!("expected a configuration error"),
    }
}

struct Kept(Mutex<Vec<String>>);

impl Logger for Kept {
    fn log(&self, message: &str) {
        self.0.lock().unwrap().push(message.to_string());
    }
}

#[test]
fn send_events_batched_rejects_zero_batch_size() {
    let sender = HttpEventSender::new("http://example.com", true).unwrap();
    let metadata = EventMetadata::new("main", "src", "st", "host");
    let res = sender.send_events_batched(&metadata, vec![], 0);
    assert!(matches!(res, Err(SplunkError::ConfigError(_))));
}

#[test]
fn build_url_includes_time_query_when_set() {
    let sender = HttpEventSender::new("http://example.com/ingest", true).unwrap();
    let mut metadata = EventMetadata::new("main", "src", "st", "host");
    metadata.time = Some(1_735_000_000);

    let url = sender.build_url(&metadata).unwrap();
    let query: std::collections::HashMap<_, _> = url.query_pairs().into_owned().collect();

    assert_eq!(query.get("index").map(String::as_str), Some("main"));
    assert_eq!(query.get("source").map(String::as_str), Some("src"));
    assert_eq!(query.get("sourcetype").map(String::as_str), Some("st"));
    assert_eq!(query.get("host").map(String::as_str), Some("host"));
    assert_eq!(query.get("time").map(String::as_str), Some("1735000000"));
}

#[test]
fn encode_hec_payload_concatenates_json_objects() {
    let events = vec![json(r#"{"a": 1}"#), json(r#"{"b": 2}"#)];
    let payload = HttpEventSender::encode_hec_payload(&events).unwrap();
    assert_eq!(
        std::str::from_utf8(payload.as_ref()).unwrap(),
        r#"{"a":1}{"b":2}"#
    );
}

#[test]
fn urls_keep_their_query_and_fragment() {
    let s = HttpEventSender::new("https://example.com/x?a=b%20c#part", false).unwrap();
    let m = EventMetadata::new("i&j", "a=b", "\u{e9}", "");
    assert!(s.has_room(&m));
    let url = s.build_url(&m).unwrap();
    assert_eq!(
        url.as_str(),
        "https://example.com/x?a=b%20c&index=i%26j&source=a%3Db&sourcetype=%C3%A9&host=#part"
    );
    let pairs: Vec<(String, String)> = url.query_pairs().into_owned().collect();
    assert_eq!(
        pairs,
        vec![
            header("a", "b c"),
            header("index", "i&j"),
            header("source", "a=b"),
            header("sourcetype", "\u{e9}"),
            header("host", ""),
        ]
    );
}

#[test]
fn texts_that_are_no_urls_are_refused() {
    assert!(matches!(HttpEventSender::new("not a url", true), Err(SplunkError::UrlError(_))));
    assert!(matches!(
        HttpEventSenderBuilder::new("".to_string()).build(),
        Err(SplunkError::UrlError(_))
    ));
}

#[test]
fn headers_follow_the_payload() {
    let mut s = sender();
    s.set_extra_headers(vec![header("X-One", "1"), header("x-one", "2")]);
    let plain = s.get_headers(false, false).unwrap();
    assert_eq!(plain.len(), 1);
    assert_eq!(plain.get("x-one").unwrap(), "2");
    let json = s.get_headers(true, false).unwrap();
    assert_eq!(json.get("content-type").unwrap(), "application/json");
    assert!(json.get("content-encoding").is_none());
    let gzip = s.get_headers(false, true).unwrap();
    assert_eq!(gzip.get("content-encoding").unwrap(), "gzip");
    assert!(gzip.get("content-type").is_none());
    assert_eq!(s.get_headers(true, true).unwrap().len(), 3);
}

#[test]
fn headers_of_the_caller_are_not_overridden() {
    let mut s = sender();
    s.set_extra_headers(vec![header("Content-Type", "text/plain"), header("CONTENT-ENCODING", "br")]);
    let headers = s.get_headers(true, true).unwrap();
    assert_eq!(headers.len(), 2);
    assert_eq!(headers.get("content-type").unwrap(), "text/plain");
    assert_eq!(headers.get("content-encoding").unwrap(), "br");
    s.set_extra_headers(Vec::new());
    assert_eq!(s.get_headers(true, false).unwrap().get("content-type").unwrap(), "application/json");
}

#[test]
fn wrong_headers_are_refused() {
    let mut s = sender();
    s.add_extra_header("bad name".to_string(), "v".to_string());
    assert!(s.headers_fit());
    assert_eq!(
        config_text(s.get_headers(false, false)),
        "Invalid header name 'bad name': invalid HTTP header name"
    );
    s.set_extra_headers(vec![header("ok", "a\nb"), header("", "x")]);
    assert_eq!(
        config_text(s.get_headers(false, false)),
        "Invalid header value 'a\nb': failed to parse header value"
    );
    s.set_extra_headers(vec![header("", "x")]);
    assert_eq!(
        config_text(s.get_headers(false, false)),
        "Invalid header name '': invalid HTTP header name"
    );
    s.set_extra_headers(vec![header("tab", "a\tb"), header("wide", "\u{e9}"), header("del", "\u{7f}")]);
    assert_eq!(
        config_text(s.get_headers(false, false)),
        "Invalid header value '\u{7f}': failed to parse header value"
    );
}

#[test]
fn header_names_are_tokens() {
    for n in 0u32..256 {
        let c = char::from_u32(n).unwrap();
        let token = c.is_ascii_alphanumeric() || "!#$%&'*+-.^_`|~".contains(c);
        let mut s = sender();
        s.add_extra_header(format!("x{}", c), "v".to_string());
        assert_eq!(s.get_headers(false, false).is_ok(), token);
    }
    for (len, fine) in [(65535usize, true), (65536, false)] {
        let mut s = sender();
        s.add_extra_header("x".repeat(len), "v".to_string());
        assert_eq!(s.get_headers(false, false).is_ok(), fine);
    }
}

#[test]
fn header_values_have_no_control_characters() {
    for n in 0u32..256 {
        let c = char::from_u32(n).unwrap();
        let mut s = sender();
        s.add_extra_header("x".to_string(), c.to_string());
        assert_eq!(s.get_headers(false, false).is_ok(), c == '\t' || (n >= 32 && n != 127));
    }
}

#[test]
fn many_headers_do_not_fit() {
    let mut s = sender();
    s.set_extra_headers((0..6552).map(|i| header(&format!("x{}", i), "v")).collect());
    assert!(s.headers_fit());
    assert_eq!(s.get_headers(true, true).unwrap().len(), 6554);
    s.add_extra_header("X5".to_string(), "again".to_string());
    assert!(s.headers_fit());
    s.add_extra_header("one-more".to_string(), "v".to_string());
    assert!(!s.headers_fit());
}

#[test]
fn delimited_events_are_joined() {
    let events = vec!["a".to_string(), "b".to_string(), "c".to_string()];
    assert_eq!(join_delimited(&events, "\n"), "a\nb\nc");
    assert_eq!(join_delimited(&vec!["a".to_string()], "\n"), "a");
    assert_eq!(join_delimited(&Vec::new(), "\n"), "");
    let mut s = sender();
    let p = s.send_events_delimited(&metadata(), &events);
    let request = p.result.unwrap();
    assert_eq!(request.body, b"a<EOE>\nb<EOE>\nc".to_vec());
    assert_eq!(request.timeout, Duration::from_secs(30));
    assert_eq!(
        request.url.as_str(),
        "http://example.com/ingest?index=main&source=src&sourcetype=st&host=host"
    );
    assert!(request.headers.is_empty());
    assert!(p.log.is_empty());
    let p = s.send_events_delimited_with(&metadata(), &events, "|");
    assert_eq!(p.result.unwrap().body, b"a|b|c".to_vec());
}

#[test]
fn json_events_are_sent_as_an_array() {
    let mut s = sender();
    let events = vec![json(r#"{"m":"x"}"#), json("2")];
    let request = s.send_events(&metadata(), &events).result.unwrap();
    assert_eq!(request.body, br#"[{"m":"x"},2]"#.to_vec());
    let empty = s.send_events(&metadata(), &Vec::new()).result.unwrap();
    assert_eq!(empty.body, b"[]".to_vec());
    assert_eq!(request.headers.get("content-type").unwrap(), "application/json");
    let request = s.send_hec_events(&metadata(), &events).result.unwrap();
    assert_eq!(request.body, br#"{"m":"x"}2"#.to_vec());
    let request = s.send_hec_batch(&events).result.unwrap();
    assert_eq!(request.body, br#"{"m":"x"}2"#.to_vec());
    assert_eq!(request.url.as_str(), "http://example.com/ingest");
    let parts = vec![b"{}".to_vec(), b"[]".to_vec()];
    assert_eq!(join_encoded(&parts), b"{}[]".to_vec());
    assert_eq!(s.send_encoded_hec_batch(Ok(parts)).result.unwrap().body, b"{}[]".to_vec());
}

#[test]
fn encoding_errors_are_passed_on() {
    let broken = || serde_json::from_str::<serde_json::Value>("{").unwrap_err();
    let mut s = sender();
    let p = s.send_encoded(&metadata(), Err(broken()), vec!["before".to_string()]);
    assert!(matches!(p.result, Err(SplunkError::JsonError(_))));
    assert_eq!(p.log, vec!["before".to_string()]);
    s.set_debug(true);
    let p = s.send_encoded_hec_batch(Err(broken()));
    assert!(matches!(p.result, Err(SplunkError::JsonError(_))));
    assert_eq!(p.log, vec!["[HTTP] send_hec_batch: begin".to_string()]);
}

type Answers = Result<Vec<(u16, String)>, SplunkError>;

/// Sends batches, with a reply for each; what was sent, and what the sending came to.
fn run_batches<T, H>(
    begun: Result<BatchStep<T, H>, SplunkError>,
    mut reply: impl FnMut(usize) -> Reply,
) -> (Vec<Vec<T>>, Answers) {
    let mut sent = Vec::new();
    let mut step = begun.unwrap();
    loop {
        step = match step {
            BatchStep::Send { batch, run } => {
                sent.push(batch);
                run.resume(reply(sent.len() - 1))
            }
            BatchStep::Finished(result) => return (sent, result),
        };
    }
}

#[test]
fn batches_have_their_size() {
    let s = sender();
    let ok = |i: usize| Ok((200, i.to_string()));
    let events: Vec<String> = (0..7).map(|i| i.to_string()).collect();
    let begun = s.send_events_delimited_batched(&metadata(), events.clone(), 3, "|");
    let (batches, _) = run_batches(begun, ok);
    let sizes: Vec<usize> = batches.iter().map(|b| b.len()).collect();
    assert_eq!(sizes, vec![3, 3, 1]);
    assert_eq!(batches.concat(), events);
    assert_eq!(run_batches(s.send_hec_batched(vec![1u8, 2], 2), ok).0, vec![vec![1u8, 2]]);
    assert_eq!(
        config_text(s.send_hec_batched(vec![1u8], 0)),
        "batch_size must be greater than 0"
    );
    let two = vec![json("1"), json("2")];
    assert_eq!(run_batches(s.send_events_batched(&metadata(), two, 1), ok).0.len(), 2);
}

#[test]
fn batches_are_answered_in_order() {
    let s = sender();
    let begun = s.send_hec_batched(vec![1u8, 2, 3, 4, 5], 2);
    let (sent, answers) = run_batches(begun, |i| Ok((200 + i as u16, format!("answer {}", i))));
    assert_eq!(sent, vec![vec![1u8, 2], vec![3, 4], vec![5]]);
    assert_eq!(
        answers.unwrap(),
        vec![
            (200, "answer 0".to_string()),
            (201, "answer 1".to_string()),
            (202, "answer 2".to_string()),
        ]
    );
}

#[test]
fn every_batch_is_sent_with_the_metadata() {
    let mut s = sender();
    let query = "?index=main&source=src&sourcetype=st&host=host";
    let url = format!("http://example.com/ingest{}", query);
    let events = vec![json("1"), json("2"), json("3")];
    let mut step = s.send_events_batched(&metadata(), events, 2).unwrap();
    let mut bodies = Vec::new();
    while let BatchStep::Send { batch, run } = step {
        let request = s.send_event_batch(&batch, &run).result.unwrap();
        assert_eq!(request.url.as_str(), url);
        assert_eq!(request.headers.get("content-type").unwrap(), "application/json");
        bodies.push(request.body);
        step = run.resume(Ok((200, String::new())));
    }
    assert_eq!(bodies, vec![b"[1,2]".to_vec(), b"[3]".to_vec()]);
    let events = vec!["a".to_string(), "b".to_string(), "c".to_string()];
    let mut step = s.send_events_delimited_batched(&metadata(), events, 2, "|").unwrap();
    let mut bodies = Vec::new();
    while let BatchStep::Send { batch, run } = step {
        assert_eq!(run.target().delimiter, "|");
        let request = s.send_delimited_batch(&batch, &run).result.unwrap();
        assert_eq!(request.url.as_str(), url);
        assert!(request.headers.is_empty());
        bodies.push(request.body);
        step = run.resume(Ok((200, String::new())));
    }
    assert_eq!(bodies, vec![b"a|b".to_vec(), b"c".to_vec()]);
}

#[test]
fn failed_compression_tells_where_it_failed() {
    let failed = || std::io::Error::new(std::io::ErrorKind::Other, "no room");
    match gzip_error(GzipFailure::Write(failed())) {
        SplunkError::IoError(e) => assert_eq!(e.to_string(), "no room"),
        _ => panic!("expected an error of the platform"),
    }
    match gzip_error(GzipFailure::Finish(failed())) {
        SplunkError::CompressionError(text) => assert_eq!(text, "no room"),
        _ => panic!("expected an error of the compression"),
    }
}

#[test]
fn no_events_need_no_batch() {
    let s = sender();
    let begun = s.send_hec_batched(Vec::<u8>::new(), 4);
    let (sent, answers) = run_batches(begun, |_| panic!("nothing is to be sent"));
    assert!(sent.is_empty());
    assert!(answers.unwrap().is_empty());
}

#[test]
fn the_first_error_ends_the_batches() {
    let s = sender();
    let begun = s.send_hec_batched(vec![1u8, 2, 3], 1);
    let (sent, answers) = run_batches(begun, |i| {
        if i == 1 {
            Err(SplunkError::HttpStatus { code: 503, body: "busy".to_string() })
        } else {
            Ok((200, String::new()))
        }
    });
    assert_eq!(sent, vec![vec![1u8], vec![2]]);
    match answers {
        Err(SplunkError::HttpStatus { code, body }) => {
            assert_eq!((code, body.as_str()), (503, "busy"));
        }
        _ => panic!("expected the error of the second batch"),
    }
}

#[test]
fn large_payloads_are_compressed() {
    let mut s = sender();
    s.set_request_gzip(true, 10);
    assert!(!s.should_gzip(9));
    assert!(s.should_gzip(10));
    let text = "z".repeat(500);
    let p = s.send_events_delimited(&metadata(), &vec![text.clone()]);
    assert!(p.gzip_failure.is_none());
    let request = p.result.unwrap();
    assert_eq!(request.headers.get("content-encoding").unwrap(), "gzip");
    assert!(request.body.len() < 100);
    let mut back = String::new();
    flate2::read::GzDecoder::new(&request.body[..]).read_to_string(&mut back).unwrap();
    assert_eq!(back, text);
    let small = s.send_events_delimited(&metadata(), &vec!["z".to_string()]).result.unwrap();
    assert_eq!(small.body, b"z".to_vec());
    assert!(small.headers.is_empty());
    assert_eq!(HttpEventSender::gzip_compress(b"abc").unwrap()[..2], [0x1f, 0x8b]);
}

#[test]
fn requests_are_logged() {
    let mut s = sender();
    s.set_extra_headers(vec![header("Authorization", "Splunk token")]);
    s.set_debug_options(DebugOptions {
        enabled: true,
        log_headers: true,
        log_payload: true,
        log_response_body: true,
        enable_http_tracing: false,
        max_bytes_to_log: 4,
    });
    let p = s.send_events_delimited_with(&metadata(), &vec!["ab\u{20ac}cd".to_string()], "");
    assert_eq!(
        p.log,
        vec![
            "[HTTP] sendEventsDelimited: begin",
            "[HTTP] doSend: begin, payload_size=7",
            "[HTTP] POST http://example.com/ingest?index=main&source=src&sourcetype=st&host=host",
            "[HTTP] header: authorization: ***REDACTED***",
            "[HTTP] payload bytes=7, showing=4",
            "ab",
        ]
    );
    let r = s.receive(503, "try later".to_string());
    assert_eq!(
        r.log,
        vec!["[HTTP] status=503 (ERROR)", "[HTTP] response bytes=9, showing=4", "try "]
    );
}

#[test]
fn logged_requests_tell_of_compression_and_binary_payloads() {
    let mut s = sender();
    s.set_debug(true);
    let url = s.base_url();
    let p = s.prepare_request(url, vec![255, 254], false, Some(vec![1, 2, 3]), Vec::new());
    assert_eq!(
        p.log,
        vec![
            "[HTTP] doSend: begin, payload_size=2",
            "[HTTP] Compressed 2 bytes to 3 bytes",
            "[HTTP] POST http://example.com/ingest",
            "[HTTP] payload bytes=2, compressed=3",
        ]
    );
    assert_eq!(p.result.unwrap().body, vec![1, 2, 3]);
    let mut options = s.get_debug_options();
    options.log_payload = true;
    s.set_debug_options(options);
    let url = s.base_url();
    let p = s.do_send_to_url(url, vec![255, 254], true, Vec::new());
    assert_eq!(p.log.last().unwrap(), "<binary payload: not valid UTF-8>");
    assert_eq!(p.log[2], "[HTTP] payload bytes=2, showing=2");
}

#[test]
fn header_problems_come_after_the_first_lines() {
    let mut s = sender();
    s.set_debug(true);
    s.add_extra_header("b d".to_string(), "v".to_string());
    let p = s.do_send(&metadata(), Vec::new(), true, Vec::new());
    assert!(matches!(p.result, Err(SplunkError::ConfigError(_))));
    assert_eq!(p.log, vec!["[HTTP] doSend: begin, payload_size=0"]);
}

#[test]
fn responses_are_judged_by_their_status() {
    let s = sender();
    for status in [200u16, 201, 299] {
        let r = s.receive(status, "ok".to_string());
        assert!(r.log.is_empty());
        assert_eq!(r.result.unwrap(), (status, "ok".to_string()));
    }
    for status in [0u16, 199, 300, 404, 500, u16::MAX] {
        match s.receive(status, "no".to_string()).result {
            Err(SplunkError::HttpStatus { code, body }) => {
                assert_eq!((code, body.as_str()), (status, "no"))
            }
            _ => panic!("expected the status"),
        }
    }
    let mut loud = sender();
    loud.set_debug(true);
    assert_eq!(
        loud.receive(200, "\u{e9}".to_string()).log,
        vec!["[HTTP] status=200 (OK)", "[HTTP] response bytes=2"]
    );
}

#[test]
fn secrets_are_redacted() {
    assert_eq!(
        HttpEventSender::redact_header_for_logging("AUTHORIZATION", "Splunk x"),
        "AUTHORIZATION: ***REDACTED***"
    );
    assert_eq!(
        HttpEventSender::redact_header_for_logging("X-Splunk-Token", "x"),
        "X-Splunk-Token: ***REDACTED***"
    );
    assert_eq!(HttpEventSender::redact_header_for_logging("accept", "x"), "accept: x");
    let mut s = sender();
    s.set_extra_headers(vec![header("note", "caf\u{e9}")]);
    s.set_debug_options(DebugOptions { enabled: true, log_headers: true, ..DebugOptions::default() });
    let p = s.send_hec_batch(&Vec::new());
    assert!(p.log.contains(&"[HTTP] header: note: <invalid-utf8>".to_string()));
    assert!(p.log.contains(&"[HTTP] header: content-type: application/json".to_string()));
}

#[test]
fn payloads_are_shown_up_to_a_character() {
    assert_eq!(HttpEventSender::truncate_to_char_boundary("a\u{20ac}", 3), "a");
    assert_eq!(HttpEventSender::truncate_to_char_boundary("a\u{20ac}", 4), "a\u{20ac}");
}

#[test]
fn builders_set_everything() {
    let s = HttpEventSenderBuilder::new("https://splunk:8088/services/collector/event".to_string())
        .verify_ssl(false)
        .connect_timeout(Duration::from_secs(3))
        .request_timeout(Duration::from_secs(4))
        .enable_gzip(true, 7)
        .debug_options(DebugOptions { enabled: true, ..DebugOptions::default() })
        .extra_headers(vec![header("a", "b")])
        .build()
        .unwrap();
    let c = s.client_settings();
    assert!(!c.verify_ssl);
    assert_eq!(c.connect_timeout, Duration::from_secs(3));
    assert_eq!(c.request_timeout, Some(Duration::from_secs(4)));
    assert_eq!(c.tcp_keepalive, Duration::from_secs(60));
    assert_eq!(c.pool_idle_timeout, Duration::from_secs(90));
    assert_eq!(c.pool_max_idle_per_host, 10);
    assert!(s.should_gzip(7) && !s.should_gzip(6));
    assert!(s.get_debug_options().enabled);
    assert!(s.logger().is_none());
    assert_eq!(s.base_url().as_str(), "https://splunk:8088/services/collector/event");
    let d = sender().client_settings();
    assert!(d.verify_ssl);
    assert_eq!(d.connect_timeout, Duration::from_secs(10));
    assert_eq!(d.request_timeout, None);
    assert_eq!(user_agent(), "SplunkEventSender-Rust/1.0");
    let b = HttpEventSenderBuilder::new("http://x".to_string());
    assert_eq!((b.connect_timeout, b.request_timeout), (Duration::from_secs(10), Duration::from_secs(30)));
}

#[test]
fn requests_take_no_longer_than_was_set() {
    let mut s = HttpEventSenderBuilder::new("http://example.com".to_string())
        .request_timeout(Duration::from_secs(5))
        .build()
        .unwrap();
    let request = s.send_hec_batch(&vec![json("1")]).result.unwrap();
    assert_eq!(request.timeout, Duration::from_secs(5));
    let mut s = HttpEventSenderBuilder::new("http://example.com".to_string()).build().unwrap();
    let request = s.send_hec_batch(&vec![json("1")]).result.unwrap();
    assert_eq!(request.timeout, Duration::from_secs(30));
}

#[test]
fn loggers_can_be_set() {
    let kept = Arc::new(Kept(Mutex::new(Vec::new())));
    let mut s = sender();
    s.set_logger(kept.clone());
    s.logger().unwrap().log("hello");
    let b = HttpEventSenderBuilder::new("http://x".to_string()).logger(kept.clone());
    b.build().unwrap().logger().unwrap().log("again");
    assert_eq!(*kept.0.lock().unwrap(), vec!["hello".to_string(), "again".to_string()]);
}

#[test]
fn the_response_cache_can_be_cleared() {
    let mut s = sender();
    assert_eq!(s.get_cache_stats().0, 0);
    s.clear_cache();
    assert_eq!(s.get_cache_stats().0, 0);
    assert_eq!(
        s.set_connect_timeout(5),
        "Connect timeout cannot be changed after client creation in reqwest"
    );
}

#[test]
fn events_and_metadata_start_plain() {
    let e = HecEvent::new(json(r#"{"a":1}"#));
    assert_eq!(e.event, json(r#"{"a":1}"#));
    assert!(e.time.is_none() && e.host.is_none() && e.source.is_none());
    assert!(e.sourcetype.is_none() && e.index.is_none() && e.fields.is_none());
    let m = metadata().clone();
    assert_eq!((&*m.index, &*m.source, &*m.sourcetype, &*m.host, m.time), ("main", "src", "st", "host", None));
    let d = DebugOptions::default();
    assert_eq!((d.enabled, d.max_bytes_to_log, d.enable_http_tracing), (false, 1024, false));
}
