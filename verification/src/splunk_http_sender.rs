//! Sends events to the Splunk HTTP Event Collector: what a request holds, what is logged about it,
//! and what its response comes to. Sending it is left to the caller.
use std::sync::Arc;
use std::time::{Duration, SystemTime};

use bytes::Bytes;
use dashmap::DashMap;
use flate2::write::GzEncoder;
use flate2::Compression;
use reqwest::header::{HeaderMap, HeaderValue};
use serde_json::Value as JsonValue;
use std::io::Write;
use url::Url;
use vstd::prelude::*;
use vstd::string::StringExecFns;
use vstd::utf8::{decode_utf8, encode_utf8, valid_utf8};

use crate::http_headers::{
    extras_view, fit_headers, header_contents, header_problem, headers_fit, header_list_view, holds,
    is_listing, listed, request_headers, ExtraHeader, HeaderCache,
};
use crate::platform::{seconds, span_of};
pub use crate::request_url::EventMetadata;
use crate::request_url::{
    add_metadata, fits, has_room, metadata_pairs, parse_url, parsed_url, query_pairs, shared_text,
    url_string, url_text, url_with_pairs,
};
use crate::send_batches::{begin_batches, is_batched, BatchRun, BatchStep};
use crate::text::{
    byte_len, byte_size, decimal, decimal_string, eq_ignore_ascii_case, same_ignoring_case,
    truncate_text, truncated,
};

verus! {

// ===== Outside types =====

/// Why a request failed.
#[verifier::external_type_specification]
#[verifier::external_body]
pub struct ExRequestError(reqwest::Error);

/// Why a value could not be written as JSON.
#[verifier::external_type_specification]
#[verifier::external_body]
pub struct ExJsonError(serde_json::Error);

/// A JSON value, carried through as it came.
#[verifier::external_type_specification]
#[verifier::external_body]
pub struct ExJsonValue(JsonValue);

/// Shared bytes, carried through as they came.
#[verifier::external_type_specification]
#[verifier::external_body]
pub struct ExBytes(Bytes);

/// A map that several threads can use.
#[verifier::external_type_specification]
#[verifier::external_body]
#[verifier::reject_recursive_types(K)]
#[verifier::reject_recursive_types(V)]
#[verifier::reject_recursive_types(S)]
pub struct ExDashMap<K, V, S>(DashMap<K, V, S>);

// ===== Errors =====

/// Custom error types for the Splunk event sender.
#[derive(Debug)]
pub enum SplunkError {
    HttpError(reqwest::Error),
    JsonError(serde_json::Error),
    UrlError(url::ParseError),
    CompressionError(String),
    ConfigError(String),
    IoError(std::io::Error),
    HttpStatus { code: u16, body: String },
}

/// Whether an error is a configuration error with that text.
pub open spec fn is_config_error(error: SplunkError, text: Seq<char>) -> bool {
    error is ConfigError && error->ConfigError_0@ == text
}

// ===== Events =====

/// Splunk HEC event envelope (caller constructs `time` / `index` / `fields` as needed).
#[derive(Debug)]
pub struct HecEvent {
    pub time: Option<u64>,
    pub host: Option<Arc<str>>,
    pub source: Option<Arc<str>>,
    pub sourcetype: Option<Arc<str>>,
    pub index: Option<Arc<str>>,
    pub event: JsonValue,
    /// Optional indexed fields (HEC `fields` object). This must be constructed by the caller.
    pub fields: Option<JsonValue>,
}

impl HecEvent {
    /// An event without anything around it.
    pub fn new(event: JsonValue) -> (r: Self)
        ensures
            r.event == event,
            r.time is None,
            r.host is None,
            r.source is None,
            r.sourcetype is None,
            r.index is None,
            r.fields is None,
    {
        HecEvent {
            time: None,
            host: None,
            source: None,
            sourcetype: None,
            index: None,
            event,
            fields: None,
        }
    }
}

/// The JSON text of a value: what [`serde_json::to_writer`] writes for it.
pub uninterp spec fn json_of(value: JsonValue) -> Seq<u8>;

/// Writes a value as JSON, with `serde_json::to_writer` into a vector. What is written depends on
/// the value alone; `json_of` names it. Writing succeeds: the keys of a JSON value are texts, a
/// number is always written, and a vector takes all bytes.
#[verifier::external_body]
fn json_bytes(value: &JsonValue) -> (r: Result<Vec<u8>, serde_json::Error>)
    ensures
        r is Ok,
        r->Ok_0@ == json_of(*value),
{
    let mut buf = Vec::new();
    serde_json::to_writer(&mut buf, value)?;
    Ok(buf)
}

/// The JSON text of an array: its values with a comma between each and the next, in brackets.
pub open spec fn json_of_array(values: Seq<JsonValue>) -> Seq<u8> {
    seq![91u8] + delimited(values.map_values(|v: JsonValue| json_of(v)), seq![44u8]) + seq![93u8]
}

/// Writes values as a JSON array, with `serde_json::to_writer` into a vector: an opening bracket,
/// the values as they are written alone, with nothing but a comma between them, and a closing
/// bracket. Writing succeeds, as it does for each of the values.
#[verifier::external_body]
fn json_array_bytes(values: &Vec<JsonValue>) -> (r: Result<Vec<u8>, serde_json::Error>)
    ensures
        r is Ok,
        r->Ok_0@ == json_of_array(values@),
{
    let mut buf = Vec::new();
    serde_json::to_writer(&mut buf, values)?;
    Ok(buf)
}

// ===== Compression =====

/// Compressed bytes: what [`GzEncoder`] makes of them at the default level, if it succeeds.
pub uninterp spec fn gzip_of(data: Seq<u8>) -> Option<Seq<u8>>;

/// Whether [`GzEncoder`] fails to take the bytes, before it is told that they are all.
pub uninterp spec fn gzip_write_fails(data: Seq<u8>) -> bool;

/// Where compressing failed.
#[derive(Debug)]
pub enum GzipFailure {
    /// When the bytes were handed over.
    Write(std::io::Error),
    /// When the compressed bytes were finished.
    Finish(std::io::Error),
}

/// Compresses bytes, with a `GzEncoder` at the default level, `write_all` and `finish`. The result,
/// whether there is one, and which of the two calls fails depend on the bytes alone: `gzip_of` names
/// what `finish` gives, and `gzip_write_fails` whether `write_all` fails. What the compressed bytes
/// are is not said.
#[verifier::external_body]
fn gzip(data: &[u8]) -> (r: Result<Vec<u8>, GzipFailure>)
    ensures
        match r {
            Ok(bytes) => gzip_of(data@) == Some(bytes@),
            Err(GzipFailure::Write(_)) => gzip_of(data@) is None && gzip_write_fails(data@),
            Err(GzipFailure::Finish(_)) => gzip_of(data@) is None && !gzip_write_fails(data@),
        },
{
    let mut encoder = GzEncoder::new(Vec::new(), Compression::default());
    match encoder.write_all(data) {
        Ok(()) => encoder.finish().map_err(GzipFailure::Finish),
        Err(e) => Err(GzipFailure::Write(e)),
    }
}

/// The text of an error of the platform, with its `Display`. Nothing is claimed of the text: it
/// depends on the machine.
#[verifier::external_body]
fn error_text(error: &std::io::Error) -> (r: String) {
    error.to_string()
}

/// Whether an error is the one for bytes that could not be compressed.
pub open spec fn is_gzip_error(data: Seq<u8>, error: SplunkError) -> bool {
    &&& gzip_of(data) is None
    &&& if gzip_write_fails(data) {
        error is IoError
    } else {
        error is CompressionError
    }
}

/// The error for a failed compression: that of the platform where the bytes could not be handed
/// over, and its text where the compressed bytes could not be finished.
pub fn gzip_error(failure: GzipFailure) -> (r: SplunkError)
    ensures
        match failure {
            GzipFailure::Write(e) => r == SplunkError::IoError(e),
            GzipFailure::Finish(_) => r is CompressionError,
        },
{
    match failure {
        GzipFailure::Write(e) => SplunkError::IoError(e),
        GzipFailure::Finish(e) => SplunkError::CompressionError(error_text(&e)),
    }
}

// ===== Text =====

/// The text that bytes are in UTF-8, with `std::str::from_utf8`, if they are one.
#[verifier::external_body]
fn text_of(bytes: &[u8]) -> (r: Option<String>)
    ensures
        match r {
            Some(text) => valid_utf8(bytes@) && text@ == decode_utf8(bytes@),
            None => !valid_utf8(bytes@),
        },
{
    std::str::from_utf8(bytes).ok().map(|s| s.to_string())
}

/// Lines as texts.
pub open spec fn texts(lines: Seq<String>) -> Seq<Seq<char>> {
    lines.map_values(|s: String| s@)
}

/// Adds a line.
fn push_line(log: &mut Vec<String>, line: String)
    ensures
        texts(final(log)@) == texts(old(log)@).push(line@),
{
    let ghost before = log@;
    log.push(line);
    assert(texts(log@) =~= texts(before).push(line@));
}

// ===== Options =====

/// Debug configuration options.
#[derive(Debug, Clone, Copy)]
pub struct DebugOptions {
    pub enabled: bool,
    pub log_headers: bool,
    pub log_payload: bool,
    pub log_response_body: bool,
    pub enable_http_tracing: bool,
    pub max_bytes_to_log: usize,
}

/// The options where nothing is set: everything off, and no more than 1024 bytes shown.
pub open spec fn default_options() -> DebugOptions {
    DebugOptions {
        enabled: false,
        log_headers: false,
        log_payload: false,
        log_response_body: false,
        enable_http_tracing: false,
        max_bytes_to_log: 1024,
    }
}

impl Default for DebugOptions {
    /// Everything off, and no more than 1024 bytes shown.
    fn default() -> (r: Self)
        ensures
            r == default_options(),
    {
        DebugOptions {
            enabled: false,
            log_headers: false,
            log_payload: false,
            log_response_body: false,
            enable_http_tracing: false,
            max_bytes_to_log: 1024,
        }
    }
}

/// Logger trait for flexible logging backends.
pub trait Logger: Send + Sync {
    fn log(&self, message: &str);
}

/// How connections are made.
#[derive(Clone, Copy)]
pub struct ClientSettings {
    pub verify_ssl: bool,
    pub connect_timeout: Duration,
    /// How long a request may take; 30 seconds where that is not set.
    pub request_timeout: Option<Duration>,
    pub tcp_keepalive: Duration,
    pub pool_idle_timeout: Duration,
    pub pool_max_idle_per_host: usize,
}

/// The settings that do not change from sender to sender.
pub open spec fn is_usual(settings: ClientSettings) -> bool {
    &&& settings.tcp_keepalive == span_of(60)
    &&& settings.pool_idle_timeout == span_of(90)
    &&& settings.pool_max_idle_per_host == 10
}

/// How long a request may take with such settings.
pub open spec fn request_limit(settings: ClientSettings) -> Duration {
    match settings.request_timeout {
        Some(timeout) => timeout,
        None => span_of(30),
    }
}

/// How a client calls itself.
pub fn user_agent() -> (r: String)
    ensures
        r@ == "SplunkEventSender-Rust/1.0"@,
{
    "SplunkEventSender-Rust/1.0".to_string()
}

// ===== Log lines =====

/// What is logged before the headers are looked at.
pub open spec fn begin_lines(
    debug: DebugOptions,
    payload_len: nat,
    compressed: Option<nat>,
) -> Seq<Seq<char>> {
    let begin = "[HTTP] doSend: begin, payload_size="@ + decimal(payload_len);
    if !debug.enabled {
        Seq::empty()
    } else {
        match compressed {
            Some(size) => seq![
                begin,
                "[HTTP] Compressed "@ + decimal(payload_len) + " bytes to "@ + decimal(size)
                    + " bytes"@,
            ],
            None => seq![begin],
        }
    }
}

/// Whether a byte shows as a character.
pub open spec fn is_visible(b: u8) -> bool {
    32 <= b < 127 || b == 9
}

/// What is shown of a header value.
pub open spec fn shown_value(bytes: Seq<u8>) -> Seq<char> {
    if forall|i: int| 0 <= i < bytes.len() ==> is_visible(#[trigger] bytes[i]) {
        bytes.map_values(|b: u8| b as char)
    } else {
        "<invalid-utf8>"@
    }
}

/// Whether a header is not to be shown.
pub open spec fn is_secret(name: Seq<char>) -> bool {
    same_ignoring_case(name, "authorization"@) || same_ignoring_case(name, "x-splunk-token"@)
}

/// What is shown of a header.
pub open spec fn shown_header(name: Seq<char>, value: Seq<char>) -> Seq<char> {
    if is_secret(name) {
        name + ": ***REDACTED***"@
    } else {
        name + ": "@ + value
    }
}

/// One line for every header.
pub open spec fn header_lines(list: Seq<(Seq<char>, Seq<u8>)>) -> Seq<Seq<char>> {
    list.map_values(
        |h: (Seq<char>, Seq<u8>)| "[HTTP] header: "@ + shown_header(h.0, shown_value(h.1)),
    )
}

/// The smaller of two numbers.
pub open spec fn smaller(a: nat, b: nat) -> nat {
    if a <= b {
        a
    } else {
        b
    }
}

/// The size of a payload, and of what it was compressed to.
pub open spec fn size_text(payload_len: nat, compressed: Option<nat>) -> Seq<char> {
    let plain = "[HTTP] payload bytes="@ + decimal(payload_len);
    match compressed {
        Some(size) => plain + ", compressed="@ + decimal(size),
        None => plain,
    }
}

/// What is logged of a payload.
pub open spec fn payload_lines(
    debug: DebugOptions,
    payload: Seq<u8>,
    compressed: Option<nat>,
) -> Seq<Seq<char>> {
    let size = size_text(payload.len(), compressed);
    if debug.log_payload {
        let shown = smaller(debug.max_bytes_to_log as nat, payload.len());
        seq![
            size + ", showing="@ + decimal(shown),
            if valid_utf8(payload) {
                truncated(decode_utf8(payload), shown)
            } else {
                "<binary payload: not valid UTF-8>"@
            },
        ]
    } else {
        seq![size]
    }
}

/// What is logged of a request, with its headers in that order.
pub open spec fn request_lines(
    debug: DebugOptions,
    url: Seq<char>,
    list: Seq<(Seq<char>, Seq<u8>)>,
    payload: Seq<u8>,
    compressed: Option<nat>,
) -> Seq<Seq<char>> {
    if !debug.enabled {
        Seq::empty()
    } else {
        seq!["[HTTP] POST "@ + url] + (if debug.log_headers {
            header_lines(list)
        } else {
            Seq::empty()
        }) + payload_lines(debug, payload, compressed)
    }
}

/// Whether a status says that all went well.
pub open spec fn is_success(status: u16) -> bool {
    200 <= status < 300
}

/// What is logged of a response.
pub open spec fn response_lines(debug: DebugOptions, status: u16, body: Seq<char>) -> Seq<Seq<char>> {
    let head = "[HTTP] status="@ + decimal(status as nat) + " ("@ + (if is_success(status) {
        "OK"@
    } else {
        "ERROR"@
    }) + ")"@;
    let size = "[HTTP] response bytes="@ + decimal(byte_size(body));
    let shown = smaller(debug.max_bytes_to_log as nat, byte_size(body));
    if !debug.enabled {
        Seq::empty()
    } else if debug.log_response_body {
        seq![head, size + ", showing="@ + decimal(shown), truncated(body, shown)]
    } else {
        seq![head, size]
    }
}

// ===== Payloads =====

/// Parts with a delimiter between each and the next.
pub open spec fn delimited<T>(parts: Seq<Seq<T>>, delimiter: Seq<T>) -> Seq<T>
    decreases parts.len(),
{
    if parts.len() == 0 {
        Seq::empty()
    } else if parts.len() == 1 {
        parts[0]
    } else {
        delimited(parts.drop_last(), delimiter) + delimiter + parts.last()
    }
}

/// Puts a delimiter between each text and the next.
pub fn join_delimited(parts: &Vec<String>, delimiter: &str) -> (r: String)
    ensures
        r@ == delimited(texts(parts@), delimiter@),
{
    let ghost view = texts(parts@);
    let mut out = String::new();
    let mut i: usize = 0;
    proof {
        assert(view.take(0) =~= Seq::empty());
    }
    while i < parts.len()
        invariant
            i <= parts@.len(),
            view == texts(parts@),
            out@ == delimited(view.take(i as int), delimiter@),
        decreases parts@.len() - i,
    {
        proof {
            assert(view.take(i + 1).drop_last() =~= view.take(i as int));
            assert(view.take(i + 1).last() == parts@[i as int]@);
        }
        if i > 0 {
            out.append(delimiter);
        }
        out.append(parts[i].as_str());
        proof {
            if i == 0 {
                assert(out@ =~= delimited(view.take(1), delimiter@));
            }
        }
        i += 1;
    }
    proof {
        assert(view.take(i as int) =~= view);
    }
    out
}

/// Byte strings one after the other.
pub open spec fn joined_bytes(parts: Seq<Seq<u8>>) -> Seq<u8>
    decreases parts.len(),
{
    if parts.len() == 0 {
        Seq::empty()
    } else {
        joined_bytes(parts.drop_last()) + parts.last()
    }
}

/// The bytes of several vectors.
pub open spec fn byte_parts(parts: Seq<Vec<u8>>) -> Seq<Seq<u8>> {
    parts.map_values(|p: Vec<u8>| p@)
}

/// Puts encoded events one after the other.
pub fn join_encoded(parts: &Vec<Vec<u8>>) -> (r: Vec<u8>)
    ensures
        r@ == joined_bytes(byte_parts(parts@)),
{
    let ghost view = byte_parts(parts@);
    let mut out: Vec<u8> = Vec::new();
    let mut i: usize = 0;
    proof {
        assert(view.take(0) =~= Seq::empty());
    }
    while i < parts.len()
        invariant
            i <= parts@.len(),
            view == byte_parts(parts@),
            out@ == joined_bytes(view.take(i as int)),
        decreases parts@.len() - i,
    {
        let ghost before = out@;
        out.extend_from_slice(parts[i].as_slice());
        proof {
            assert(view.take(i + 1).drop_last() =~= view.take(i as int));
            assert(view.take(i + 1).last() == parts@[i as int]@);
            assert(out@ =~= before + parts@[i as int]@);
        }
        i += 1;
    }
    proof {
        assert(view.take(i as int) =~= view);
    }
    out
}

// ===== The response cache =====

/// Responses by their keys, with the time at which they came.
pub type ResponseCache = DashMap<String, (SystemTime, Bytes)>;

/// The keys of the responses in a cache.
pub uninterp spec fn cached_keys(cache: DashMap<String, (SystemTime, Bytes)>) -> Set<Seq<char>>;

/// An empty cache, with `DashMap::new`.
#[verifier::external_body]
fn new_cache() -> (r: ResponseCache)
    ensures
        cached_keys(r) == Set::<Seq<char>>::empty(),
{
    DashMap::new()
}

/// Removes all responses, with `DashMap::clear`.
#[verifier::external_body]
fn drop_responses(cache: &mut ResponseCache)
    ensures
        cached_keys(*final(cache)) == Set::<Seq<char>>::empty(),
{
    cache.clear();
}

/// The number of responses, with `DashMap::len`.
#[verifier::external_body]
fn response_count(cache: &ResponseCache) -> (r: usize)
    ensures
        r == cached_keys(*cache).len(),
{
    cache.len()
}

/// How many responses the cache has room for, with `DashMap::capacity`. How many that is depends
/// on the machine; there is room for those that are there.
#[verifier::external_body]
fn response_room(cache: &ResponseCache) -> (r: usize)
    ensures
        r >= cached_keys(*cache).len(),
{
    cache.capacity()
}

// ===== The sender =====

/// A request that is ready to be sent.
pub struct HttpRequest {
    pub url: Url,
    pub headers: HeaderMap<HeaderValue>,
    pub body: Vec<u8>,
    pub timeout: Duration,
}

/// Where and how delimited events are sent.
pub struct DelimitedTarget {
    pub metadata: EventMetadata,
    pub delimiter: String,
}

/// What preparing a request came to, and what is to be logged about it. Where the payload should
/// have been compressed and could not be, the reason is there to be warned about.
pub struct Preparation {
    pub log: Vec<String>,
    pub gzip_failure: Option<SplunkError>,
    pub result: Result<HttpRequest, SplunkError>,
}

/// What a response came to, and what is to be logged about it.
pub struct Reception {
    pub log: Vec<String>,
    pub result: Result<(u16, String), SplunkError>,
}

/// What is known of an HTTP event sender.
pub struct HttpEventSender {
    client: ClientSettings,
    base_url: Url,
    extra_headers: Vec<ExtraHeader>,
    header_cache: HeaderCache,
    headers_dirty: bool,
    debug_options: DebugOptions,
    logger: Option<Arc<dyn Logger>>,
    gzip_enabled: bool,
    gzip_min_bytes: usize,
    response_cache: ResponseCache,
}

/// What a sender is set to.
pub struct SenderSettings {
    pub client: ClientSettings,
    pub url: Url,
    pub extras: Seq<(Seq<char>, Seq<char>)>,
    pub debug: DebugOptions,
    pub logger: Option<Arc<dyn Logger>>,
    pub gzip_enabled: bool,
    pub gzip_min_bytes: usize,
    pub cached: Set<Seq<char>>,
}

impl View for HttpEventSender {
    type V = SenderSettings;

    closed spec fn view(&self) -> SenderSettings {
        SenderSettings {
            client: self.client,
            url: self.base_url,
            extras: extras_view(self.extra_headers@),
            debug: self.debug_options,
            logger: self.logger,
            gzip_enabled: self.gzip_enabled,
            gzip_min_bytes: self.gzip_min_bytes,
            cached: cached_keys(self.response_cache),
        }
    }
}

/// Whether a payload is to be compressed.
pub open spec fn wants_gzip(sender: SenderSettings, len: nat) -> bool {
    sender.gzip_enabled && len >= sender.gzip_min_bytes
}

/// The length of compressed bytes.
pub open spec fn size_of(compressed: Option<Seq<u8>>) -> Option<nat> {
    match compressed {
        Some(bytes) => Some(bytes.len()),
        None => None,
    }
}

/// What preparing a request comes to, where compressing it gave `compressed` or was not done. An
/// extra header that is wrong is an error. Otherwise the request goes to the URL with the
/// compressed payload, or else the payload, and with the headers that belong to it. The lines of
/// `before` are logged first.
pub open spec fn is_prepared(
    sender: SenderSettings,
    url: Url,
    payload: Seq<u8>,
    json: bool,
    compressed: Option<Seq<u8>>,
    before: Seq<Seq<char>>,
    p: Preparation,
) -> bool {
    let first = before + begin_lines(sender.debug, payload.len(), size_of(compressed));
    match header_problem(sender.extras) {
        Some(text) => {
            &&& p.result is Err
            &&& is_config_error(p.result->Err_0, text)
            &&& texts(p.log@) == first
        },
        None => {
            &&& p.result matches Ok(request)
            &&& request.url == url
            &&& request.timeout == request_limit(sender.client)
            &&& request.body@ == (match compressed {
                Some(bytes) => bytes,
                None => payload,
            })
            &&& holds(request.headers, request_headers(sender.extras, json, compressed is Some))
            &&& exists|list: Seq<(Seq<char>, Seq<u8>)>|
                {
                    &&& (sender.debug.enabled && sender.debug.log_headers ==> is_listing(
                        header_contents(request.headers),
                        list,
                    ))
                    &&& texts(p.log@) == first + #[trigger] request_lines(
                        sender.debug,
                        url_text(url),
                        list,
                        payload,
                        size_of(compressed),
                    )
                }
        },
    }
}

/// What a payload is compressed to, where that is wanted and succeeds.
pub open spec fn compressed_for(sender: SenderSettings, payload: Seq<u8>) -> Option<Seq<u8>> {
    if wants_gzip(sender, payload.len()) {
        gzip_of(payload)
    } else {
        None
    }
}

/// Whether the reason is given why a payload is not compressed though that is wanted, and only then.
pub open spec fn tells_gzip_failure(
    sender: SenderSettings,
    payload: Seq<u8>,
    failure: Option<SplunkError>,
) -> bool {
    match failure {
        Some(e) => wants_gzip(sender, payload.len()) && is_gzip_error(payload, e),
        None => wants_gzip(sender, payload.len()) ==> gzip_of(payload) is Some,
    }
}

/// What sending a payload begins with: preparing the request, with the payload compressed where
/// that is wanted and succeeds, and telling where it is wanted and fails.
pub open spec fn is_begun(
    sender: SenderSettings,
    url: Url,
    payload: Seq<u8>,
    json: bool,
    before: Seq<Seq<char>>,
    p: Preparation,
) -> bool {
    &&& is_prepared(sender, url, payload, json, compressed_for(sender, payload), before, p)
    &&& tells_gzip_failure(sender, payload, p.gzip_failure)
}

/// The first line that is logged, where lines are logged.
pub open spec fn opening(sender: SenderSettings, line: Seq<char>) -> Seq<Seq<char>> {
    if sender.debug.enabled {
        seq![line]
    } else {
        Seq::empty()
    }
}

/// The URL that metadata goes to.
pub open spec fn url_for(sender: SenderSettings, metadata: EventMetadata) -> Url {
    url_with_pairs(sender.url, metadata_pairs(metadata))
}

impl HttpEventSender {
    /// The headers that were built are those of the extra headers, unless these have changed.
    pub closed spec fn wf(self) -> bool {
        self.headers_dirty || (self.header_cache.is_for(extras_view(self.extra_headers@))
            && header_problem(extras_view(self.extra_headers@)) is None)
    }

    /// Create a new HTTP event sender.
    pub fn new(post_url: &str, verify_ssl: bool) -> (r: Result<Self, SplunkError>)
        ensures
            match parsed_url(post_url@) {
                Ok(url) => {
                    &&& r matches Ok(sender)
                    &&& sender.wf()
                    &&& sender@.url == url
                    &&& sender@.extras == Seq::<(Seq<char>, Seq<char>)>::empty()
                    &&& sender@.logger is None
                    &&& !sender@.gzip_enabled
                    &&& sender@.gzip_min_bytes == 1024
                    &&& sender@.cached == Set::<Seq<char>>::empty()
                    &&& sender@.debug == default_options()
                    &&& is_usual(sender@.client)
                    &&& sender@.client.verify_ssl == verify_ssl
                    &&& sender@.client.connect_timeout == span_of(10)
                    &&& sender@.client.request_timeout is None
                },
                Err(e) => r is Err && r->Err_0 == SplunkError::UrlError(e),
            },
    {
        let base_url = match parse_url(post_url) {
            Ok(url) => url,
            Err(e) => {
                return Err(SplunkError::UrlError(e));
            },
        };
        let sender = HttpEventSender {
            client: ClientSettings {
                verify_ssl,
                connect_timeout: seconds(10),
                request_timeout: None,
                tcp_keepalive: seconds(60),
                pool_idle_timeout: seconds(90),
                pool_max_idle_per_host: 10,
            },
            base_url,
            extra_headers: Vec::new(),
            header_cache: HeaderCache::new(),
            headers_dirty: true,
            debug_options: DebugOptions::default(),
            logger: None,
            gzip_enabled: false,
            gzip_min_bytes: 1024,
            response_cache: new_cache(),
        };
        assert(sender@.extras =~= Seq::empty());
        Ok(sender)
    }

    /// How connections are to be made.
    pub fn client_settings(&self) -> (r: ClientSettings)
        ensures
            r == self@.client,
    {
        self.client
    }

    /// The URL that events go to.
    pub fn base_url(&self) -> (r: Url)
        ensures
            r == self@.url,
    {
        self.base_url.clone()
    }

    /// Set extra headers (replaces all existing extra headers).
    pub fn set_extra_headers(&mut self, headers: Vec<(String, String)>)
        ensures
            final(self).wf(),
            final(self)@ == (SenderSettings { extras: header_texts(headers@), ..old(self)@ }),
    {
        self.extra_headers = shared_headers(&headers);
        self.headers_dirty = true;
    }

    /// Add a single extra header.
    pub fn add_extra_header(&mut self, name: String, value: String)
        ensures
            final(self).wf(),
            final(self)@ == (SenderSettings {
                extras: old(self)@.extras.push((name@, value@)),
                ..old(self)@
            }),
    {
        let ghost before = self.extra_headers@;
        self.extra_headers.push((shared_text(name.as_str()), shared_text(value.as_str())));
        self.headers_dirty = true;
        assert(extras_view(self.extra_headers@) =~= extras_view(before).push((name@, value@)));
    }

    /// Set connect timeout: it cannot be changed any more, and the warning says so.
    pub fn set_connect_timeout(&self, _seconds: u64) -> (warning: String)
        ensures
            warning@ == "Connect timeout cannot be changed after client creation in reqwest"@,
    {
        "Connect timeout cannot be changed after client creation in reqwest".to_string()
    }

    /// Enable/disable debug logging.
    pub fn set_debug(&mut self, enabled: bool)
        ensures
            final(self).wf() == old(self).wf(),
            final(self)@ == (SenderSettings {
                debug: DebugOptions { enabled, ..old(self)@.debug },
                ..old(self)@
            }),
    {
        self.debug_options.enabled = enabled;
    }

    /// Set debug options.
    pub fn set_debug_options(&mut self, options: DebugOptions)
        ensures
            final(self).wf() == old(self).wf(),
            final(self)@ == (SenderSettings { debug: options, ..old(self)@ }),
    {
        self.debug_options = options;
    }

    /// Get current debug options.
    pub fn get_debug_options(&self) -> (r: DebugOptions)
        ensures
            r == self@.debug,
    {
        self.debug_options
    }

    /// Set custom logger.
    pub fn set_logger(&mut self, logger: Arc<dyn Logger>)
        ensures
            final(self).wf() == old(self).wf(),
            ({
                let custom = Some(logger);
                final(self)@ == (SenderSettings { logger: custom, ..old(self)@ })
            }),
    {
        let custom = Some(logger);
        self.logger = custom;
    }

    /// The custom logger, if one was set.
    pub fn logger(&self) -> (r: Option<Arc<dyn Logger>>)
        ensures
            r == self@.logger,
    {
        match &self.logger {
            Some(logger) => {
                let shared = Arc::clone(logger);
                let custom = Some(shared);
                custom
            },
            None => None,
        }
    }

    /// Enable/disable gzip compression.
    pub fn set_request_gzip(&mut self, enabled: bool, min_bytes: usize)
        ensures
            final(self).wf() == old(self).wf(),
            final(self)@ == (SenderSettings {
                gzip_enabled: enabled,
                gzip_min_bytes: min_bytes,
                ..old(self)@
            }),
    {
        self.gzip_enabled = enabled;
        self.gzip_min_bytes = min_bytes;
    }

    /// Whether the extra headers are few enough for a request.
    pub fn headers_fit(&self) -> (r: bool)
        ensures
            r == headers_fit(self@.extras),
    {
        fit_headers(&self.extra_headers)
    }

    /// Whether the URL stays small enough with the metadata.
    pub fn has_room(&self, metadata: &EventMetadata) -> (r: bool)
        ensures
            r == has_room(self@.url, *metadata),
    {
        fits(&self.base_url, metadata)
    }

    /// Rebuilds the headers if the extra headers have changed. An extra header that is wrong is an
    /// error, and the headers are rebuilt the next time.
    fn rebuild_header_cache_if_dirty(&mut self) -> (r: Result<(), SplunkError>)
        requires
            old(self).wf(),
            headers_fit(old(self)@.extras),
        ensures
            final(self).wf(),
            final(self)@ == old(self)@,
            match header_problem(old(self)@.extras) {
                Some(text) => r is Err && is_config_error(r->Err_0, text),
                None => r is Ok && final(self).header_cache.is_for(old(self)@.extras),
            },
    {
        if !self.headers_dirty {
            return Ok(());
        }
        match HeaderCache::build(&self.extra_headers) {
            Ok(cache) => {
                self.header_cache = cache;
                self.headers_dirty = false;
                Ok(())
            },
            Err(text) => Err(SplunkError::ConfigError(text)),
        }
    }

    /// The headers of a request with such a payload.
    pub fn get_headers(&mut self, want_json_content_type: bool, want_gzip_encoding: bool) -> (r:
        Result<HeaderMap<HeaderValue>, SplunkError>)
        requires
            old(self).wf(),
            headers_fit(old(self)@.extras),
        ensures
            final(self).wf(),
            final(self)@ == old(self)@,
            match header_problem(old(self)@.extras) {
                Some(text) => r is Err && is_config_error(r->Err_0, text),
                None => r is Ok && holds(
                    r->Ok_0,
                    request_headers(
                        old(self)@.extras,
                        want_json_content_type,
                        want_gzip_encoding,
                    ),
                ),
            },
    {
        match self.rebuild_header_cache_if_dirty() {
            Ok(()) => {},
            Err(e) => {
                return Err(e);
            },
        }
        Ok(
            self.header_cache.pick(
                want_json_content_type,
                want_gzip_encoding,
                Ghost(extras_view(self.extra_headers@)),
            ),
        )
    }

    /// Compress data using gzip; it is an error where that fails.
    pub fn gzip_compress(data: &[u8]) -> (r: Result<Vec<u8>, SplunkError>)
        ensures
            match r {
                Ok(bytes) => gzip_of(data@) == Some(bytes@),
                Err(e) => is_gzip_error(data@, e),
            },
    {
        match gzip(data) {
            Ok(bytes) => Ok(bytes),
            Err(failure) => Err(gzip_error(failure)),
        }
    }

    /// Build URL with query parameters: `index`, `source`, `sourcetype` and `host`, and `time` where
    /// it is set, after those that the URL has.
    pub fn build_url(&self, metadata: &EventMetadata) -> (r: Result<Url, SplunkError>)
        requires
            has_room(self@.url, *metadata),
        ensures
            r is Ok,
            r->Ok_0 == url_for(self@, *metadata),
            query_pairs(r->Ok_0) == query_pairs(self@.url) + metadata_pairs(*metadata),
    {
        Ok(add_metadata(&self.base_url, metadata))
    }

    /// Adds a line if debugging is enabled.
    fn log_line(&self, log: &mut Vec<String>, message: String)
        ensures
            texts(final(log)@) == (if self@.debug.enabled {
                texts(old(log)@).push(message@)
            } else {
                texts(old(log)@)
            }),
    {
        if self.debug_options.enabled {
            push_line(log, message);
        }
    }

    /// A log with one line if debugging is enabled.
    fn opened_log(&self, message: &str) -> (r: Vec<String>)
        ensures
            texts(r@) == opening(self@, message@),
    {
        let mut log: Vec<String> = Vec::new();
        assert(texts(log@) =~= Seq::empty());
        self.log_line(&mut log, message.to_string());
        assert(texts(log@) =~= opening(self@, message@));
        log
    }

    /// Redact sensitive headers for logging.
    pub fn redact_header_for_logging(name: &str, value: &str) -> (r: String)
        ensures
            r@ == shown_header(name@, value@),
    {
        let mut out = name.to_string();
        if eq_ignore_ascii_case(name, "authorization") || eq_ignore_ascii_case(
            name,
            "x-splunk-token",
        ) {
            out.append(": ***REDACTED***");
        } else {
            out.append(": ");
            out.append(value);
        }
        out
    }

    /// The longest beginning of a text that has no more than so many bytes.
    pub fn truncate_to_char_boundary(input: &str, max_bytes: usize) -> (r: String)
        ensures
            r@ == truncated(input@, max_bytes as nat),
    {
        truncate_text(input, max_bytes)
    }

    /// Whether a payload of that length is to be compressed.
    pub fn should_gzip(&self, payload_len: usize) -> (r: bool)
        ensures
            r == wants_gzip(self@, payload_len as nat),
    {
        self.gzip_enabled && payload_len >= self.gzip_min_bytes
    }

    /// Logs that sending begins, and what the payload was compressed to.
    fn log_begin(&self, log: &mut Vec<String>, payload_len: usize, compressed: Option<usize>)
        ensures
            texts(final(log)@) == texts(old(log)@) + begin_lines(
                self@.debug,
                payload_len as nat,
                optional_size(compressed),
            ),
    {
        let ghost start = texts(log@);
        if !self.debug_options.enabled {
            assert(start =~= start + begin_lines(
                self@.debug,
                payload_len as nat,
                optional_size(compressed),
            ));
            return ;
        }
        let mut line = "[HTTP] doSend: begin, payload_size=".to_string();
        line.append(decimal_string(payload_len as u64).as_str());
        self.log_line(log, line);
        if let Some(size) = compressed {
            let mut more = "[HTTP] Compressed ".to_string();
            more.append(decimal_string(payload_len as u64).as_str());
            more.append(" bytes to ");
            more.append(decimal_string(size as u64).as_str());
            more.append(" bytes");
            self.log_line(log, more);
        }
        assert(texts(log@) =~= start + begin_lines(
            self@.debug,
            payload_len as nat,
            optional_size(compressed),
        ));
    }

    /// Logs the headers of a request.
    fn log_headers(&self, log: &mut Vec<String>, list: &Vec<(String, Vec<u8>)>)
        requires
            self@.debug.enabled,
        ensures
            texts(final(log)@) == texts(old(log)@) + header_lines(header_list_view(list@)),
    {
        let ghost start = texts(log@);
        let ghost view = header_list_view(list@);
        let mut i: usize = 0;
        proof {
            assert(start =~= start + header_lines(view.take(0)));
        }
        while i < list.len()
            invariant
                i <= list@.len(),
                view == header_list_view(list@),
                self@.debug.enabled,
                texts(log@) == start + header_lines(view.take(i as int)),
            decreases list@.len() - i,
        {
            let header = &list[i];
            let value = header_value_text(header.1.as_slice());
            let shown = Self::redact_header_for_logging(header.0.as_str(), value.as_str());
            let mut line = "[HTTP] header: ".to_string();
            line.append(shown.as_str());
            let ghost added = line@;
            self.log_line(log, line);
            proof {
                assert(view[i as int] == (header.0@, header.1@));
                assert(header_lines(view.take(i + 1)) =~= header_lines(view.take(i as int)).push(
                    added,
                ));
                assert(texts(log@) =~= start + header_lines(view.take(i + 1)));
            }
            i += 1;
        }
        proof {
            assert(view.take(i as int) =~= view);
        }
    }

    /// Logs the payload of a request.
    fn log_payload(&self, log: &mut Vec<String>, payload: &[u8], compressed: Option<usize>)
        requires
            self@.debug.enabled,
        ensures
            texts(final(log)@) == texts(old(log)@) + payload_lines(
                self@.debug,
                payload@,
                optional_size(compressed),
            ),
    {
        let ghost start = texts(log@);
        let len = payload.len();
        let mut size = "[HTTP] payload bytes=".to_string();
        size.append(decimal_string(len as u64).as_str());
        if let Some(compressed_len) = compressed {
            size.append(", compressed=");
            size.append(decimal_string(compressed_len as u64).as_str());
        }
        assert(size@ =~= size_text(payload@.len(), optional_size(compressed)));
        if self.debug_options.log_payload {
            let shown = if self.debug_options.max_bytes_to_log <= len {
                self.debug_options.max_bytes_to_log
            } else {
                len
            };
            size.append(", showing=");
            size.append(decimal_string(shown as u64).as_str());
            self.log_line(log, size);
            match text_of(payload) {
                Some(text) => {
                    let beginning = Self::truncate_to_char_boundary(text.as_str(), shown);
                    self.log_line(log, beginning);
                },
                None => {
                    self.log_line(log, "<binary payload: not valid UTF-8>".to_string());
                },
            }
        } else {
            self.log_line(log, size);
        }
        assert(texts(log@) =~= start + payload_lines(
            self@.debug,
            payload@,
            optional_size(compressed),
        ));
    }

    /// Logs a request.
    fn log_request(
        &self,
        log: &mut Vec<String>,
        url: &Url,
        headers: &HeaderMap<HeaderValue>,
        payload: &[u8],
        compressed: Option<usize>,
        held: Ghost<Map<Seq<char>, Seq<u8>>>,
    )
        requires
            holds(*headers, held@),
        ensures
            exists|list: Seq<(Seq<char>, Seq<u8>)>|
                {
                    &&& (self@.debug.enabled && self@.debug.log_headers ==> is_listing(
                        header_contents(*headers),
                        list,
                    ))
                    &&& texts(final(log)@) == texts(old(log)@) + #[trigger] request_lines(
                        self@.debug,
                        url_text(*url),
                        list,
                        payload@,
                        optional_size(compressed),
                    )
                },
    {
        let ghost start = texts(log@);
        let ghost debug = self@.debug;
        let ghost mut shown: Seq<(Seq<char>, Seq<u8>)> = Seq::empty();
        if self.debug_options.enabled {
            let mut line = "[HTTP] POST ".to_string();
            line.append(url_string(url).as_str());
            self.log_line(log, line);
            if self.debug_options.log_headers {
                let list = listed(headers, held);
                self.log_headers(log, &list);
                proof {
                    shown = header_list_view(list@);
                }
            }
            self.log_payload(log, payload, compressed);
        }
        assert(texts(log@) =~= start + request_lines(
            debug,
            url_text(*url),
            shown,
            payload@,
            optional_size(compressed),
        ));
    }

    /// Prepares a request, where compressing its payload gave `compressed` or was not done. The
    /// lines of `before` come first in the log.
    pub fn prepare_request(
        &mut self,
        url: Url,
        payload: Vec<u8>,
        is_json_payload: bool,
        compressed: Option<Vec<u8>>,
        before: Vec<String>,
    ) -> (p: Preparation)
        requires
            old(self).wf(),
            headers_fit(old(self)@.extras),
        ensures
            final(self).wf(),
            final(self)@ == old(self)@,
            is_prepared(
                old(self)@,
                url,
                payload@,
                is_json_payload,
                optional_bytes(compressed),
                texts(before@),
                p,
            ),
            p.gzip_failure is None,
    {
        let ghost gz = optional_bytes(compressed);
        let compressed_len: Option<usize> = match &compressed {
            Some(bytes) => Some(bytes.len()),
            None => None,
        };
        assert(optional_size(compressed_len) == size_of(gz));
        let mut log = before;
        self.log_begin(&mut log, payload.len(), compressed_len);
        let headers = match self.get_headers(is_json_payload, compressed_len.is_some()) {
            Ok(headers) => headers,
            Err(e) => {
                return Preparation { log, gzip_failure: None, result: Err(e) };
            },
        };
        let ghost held = request_headers(self@.extras, is_json_payload, gz is Some);
        self.log_request(
            &mut log,
            &url,
            &headers,
            payload.as_slice(),
            compressed_len,
            Ghost(held),
        );
        let body = match compressed {
            Some(bytes) => bytes,
            None => payload,
        };
        let timeout = match self.client.request_timeout {
            Some(timeout) => timeout,
            None => seconds(30),
        };
        let request = HttpRequest { url, headers, body, timeout };
        Preparation { log, gzip_failure: None, result: Ok(request) }
    }

    /// Begins to send a payload to a URL: compresses it where that is wanted, and prepares the
    /// request. Where compressing fails the payload goes as it is, and the reason is told.
    pub fn do_send_to_url(
        &mut self,
        url: Url,
        payload: Vec<u8>,
        is_json_payload: bool,
        before: Vec<String>,
    ) -> (p: Preparation)
        requires
            old(self).wf(),
            headers_fit(old(self)@.extras),
        ensures
            final(self).wf(),
            final(self)@ == old(self)@,
            is_begun(old(self)@, url, payload@, is_json_payload, texts(before@), p),
    {
        let mut gzip_failure: Option<SplunkError> = None;
        let mut compressed: Option<Vec<u8>> = None;
        if self.should_gzip(payload.len()) {
            match Self::gzip_compress(payload.as_slice()) {
                Ok(bytes) => {
                    compressed = Some(bytes);
                },
                Err(e) => {
                    gzip_failure = Some(e);
                },
            }
        }
        let p = self.prepare_request(url, payload, is_json_payload, compressed, before);
        Preparation { gzip_failure, ..p }
    }

    /// Begins to send a payload with the query parameters of its metadata.
    pub fn do_send(
        &mut self,
        metadata: &EventMetadata,
        payload: Vec<u8>,
        is_json_payload: bool,
        before: Vec<String>,
    ) -> (p: Preparation)
        requires
            old(self).wf(),
            headers_fit(old(self)@.extras),
            has_room(old(self)@.url, *metadata),
        ensures
            final(self).wf(),
            final(self)@ == old(self)@,
            is_begun(
                old(self)@,
                url_for(old(self)@, *metadata),
                payload@,
                is_json_payload,
                texts(before@),
                p,
            ),
    {
        match self.build_url(metadata) {
            Ok(url) => self.do_send_to_url(url, payload, is_json_payload, before),
            Err(e) => Preparation { log: before, gzip_failure: None, result: Err(e) },
        }
    }

    /// What a response comes to: its status and body, or an error that holds both where the status
    /// is not one of success.
    pub fn receive(&self, status_code: u16, response_body: String) -> (r: Reception)
        ensures
            texts(r.log@) == response_lines(self@.debug, status_code, response_body@),
            match r.result {
                Ok((code, body)) => is_success(status_code) && code == status_code && body@
                    == response_body@,
                Err(SplunkError::HttpStatus { code, body }) => !is_success(status_code) && code
                    == status_code && body@ == response_body@,
                Err(_) => false,
            },
    {
        let ok = 200 <= status_code && status_code < 300;
        let mut log: Vec<String> = Vec::new();
        if self.debug_options.enabled {
            let mut head = "[HTTP] status=".to_string();
            head.append(decimal_string(status_code as u64).as_str());
            head.append(" (");
            if ok {
                head.append("OK");
            } else {
                head.append("ERROR");
            }
            head.append(")");
            self.log_line(&mut log, head);
            let len = byte_len(response_body.as_str());
            let mut size = "[HTTP] response bytes=".to_string();
            size.append(decimal_string(len as u64).as_str());
            if self.debug_options.log_response_body {
                let shown = if self.debug_options.max_bytes_to_log <= len {
                    self.debug_options.max_bytes_to_log
                } else {
                    len
                };
                size.append(", showing=");
                size.append(decimal_string(shown as u64).as_str());
                self.log_line(&mut log, size);
                let beginning = Self::truncate_to_char_boundary(response_body.as_str(), shown);
                self.log_line(&mut log, beginning);
            } else {
                self.log_line(&mut log, size);
            }
        }
        assert(texts(log@) =~= response_lines(self@.debug, status_code, response_body@));
        if !ok {
            return Reception {
                log,
                result: Err(SplunkError::HttpStatus { code: status_code, body: response_body }),
            };
        }
        Reception { log, result: Ok((status_code, response_body)) }
    }

    /// Begins to send events as delimited string.
    pub fn send_events_delimited(&mut self, metadata: &EventMetadata, event_payloads: &Vec<String>) -> (p:
        Preparation)
        requires
            old(self).wf(),
            headers_fit(old(self)@.extras),
            has_room(old(self)@.url, *metadata),
        ensures
            final(self).wf(),
            final(self)@ == old(self)@,
            is_begun(
                old(self)@,
                url_for(old(self)@, *metadata),
                encode_utf8(delimited(texts(event_payloads@), "<EOE>\n"@)),
                false,
                opening(old(self)@, "[HTTP] sendEventsDelimited: begin"@),
                p,
            ),
    {
        self.send_events_delimited_with(metadata, event_payloads, "<EOE>\n")
    }

    /// Begins to send events as a delimited string using a caller-provided delimiter (e.g. `"\n"`
    /// for NDJSON).
    pub fn send_events_delimited_with(
        &mut self,
        metadata: &EventMetadata,
        event_payloads: &Vec<String>,
        delimiter: &str,
    ) -> (p: Preparation)
        requires
            old(self).wf(),
            headers_fit(old(self)@.extras),
            has_room(old(self)@.url, *metadata),
        ensures
            final(self).wf(),
            final(self)@ == old(self)@,
            is_begun(
                old(self)@,
                url_for(old(self)@, *metadata),
                encode_utf8(delimited(texts(event_payloads@), delimiter@)),
                false,
                opening(old(self)@, "[HTTP] sendEventsDelimited: begin"@),
                p,
            ),
    {
        let log = self.opened_log("[HTTP] sendEventsDelimited: begin");
        let payload = join_delimited(event_payloads, delimiter);
        let bytes = bytes_of(payload.as_str());
        self.do_send(metadata, bytes, false, log)
    }

    /// Begins to send JSON events as an array.
    pub fn send_events(&mut self, metadata: &EventMetadata, event_payloads: &Vec<JsonValue>) -> (p:
        Preparation)
        requires
            old(self).wf(),
            headers_fit(old(self)@.extras),
            has_room(old(self)@.url, *metadata),
        ensures
            final(self).wf(),
            final(self)@ == old(self)@,
            is_begun(
                old(self)@,
                url_for(old(self)@, *metadata),
                json_of_array(event_payloads@),
                true,
                opening(old(self)@, "[HTTP] sendEvents: begin"@),
                p,
            ),
    {
        let log = self.opened_log("[HTTP] sendEvents: begin");
        let encoded = json_array_bytes(event_payloads);
        self.send_encoded(metadata, encoded, log)
    }

    /// Begins to send events that were written as JSON, or passes on why they could not be.
    pub fn send_encoded(
        &mut self,
        metadata: &EventMetadata,
        encoded: Result<Vec<u8>, serde_json::Error>,
        before: Vec<String>,
    ) -> (p: Preparation)
        requires
            old(self).wf(),
            headers_fit(old(self)@.extras),
            has_room(old(self)@.url, *metadata),
        ensures
            final(self).wf(),
            final(self)@ == old(self)@,
            match encoded {
                Ok(bytes) => is_begun(
                    old(self)@,
                    url_for(old(self)@, *metadata),
                    bytes@,
                    true,
                    texts(before@),
                    p,
                ),
                Err(e) => {
                    &&& p.result is Err
                    &&& p.result->Err_0 == SplunkError::JsonError(e)
                    &&& p.log == before
                    &&& p.gzip_failure is None
                },
            },
    {
        match encoded {
            Ok(bytes) => self.do_send(metadata, bytes, true, before),
            Err(e) => Preparation { log: before, gzip_failure: None, result: Err(SplunkError::JsonError(e)) },
        }
    }

    /// Begins to send events in batches, all with the same metadata; batches of zero events are an
    /// error. [`Self::send_event_batch`] begins to send each of them.
    pub fn send_events_batched(
        &self,
        metadata: &EventMetadata,
        events: Vec<JsonValue>,
        batch_size: usize,
    ) -> (r: Result<BatchStep<JsonValue, EventMetadata>, SplunkError>)
        ensures
            is_batched(events@, batch_size as nat, *metadata, r),
    {
        begin_batches(events, batch_size, metadata.clone())
    }

    /// Begins to send a batch of events as an array, with the metadata of its run.
    pub fn send_event_batch(
        &mut self,
        batch: &Vec<JsonValue>,
        run: &BatchRun<JsonValue, EventMetadata>,
    ) -> (p: Preparation)
        requires
            old(self).wf(),
            headers_fit(old(self)@.extras),
            has_room(old(self)@.url, run.goes_to()),
        ensures
            final(self).wf(),
            final(self)@ == old(self)@,
            is_begun(
                old(self)@,
                url_for(old(self)@, run.goes_to()),
                json_of_array(batch@),
                true,
                opening(old(self)@, "[HTTP] sendEvents: begin"@),
                p,
            ),
    {
        self.send_events(run.target(), batch)
    }

    /// Begins to send delimited events in batches (e.g. for Splunk HEC streaming mode), all with the
    /// same metadata and delimiter; batches of zero events are an error.
    /// [`Self::send_delimited_batch`] begins to send each of them.
    pub fn send_events_delimited_batched(
        &self,
        metadata: &EventMetadata,
        events: Vec<String>,
        batch_size: usize,
        delimiter: &str,
    ) -> (r: Result<BatchStep<String, DelimitedTarget>, SplunkError>)
        ensures
            exists|to: DelimitedTarget|
                to.metadata == *metadata && to.delimiter@ == delimiter@ && #[trigger] is_batched(
                    events@,
                    batch_size as nat,
                    to,
                    r,
                ),
    {
        let to = DelimitedTarget { metadata: metadata.clone(), delimiter: delimiter.to_string() };
        begin_batches(events, batch_size, to)
    }

    /// Begins to send a batch of delimited events, with the metadata and the delimiter of its run.
    pub fn send_delimited_batch(
        &mut self,
        batch: &Vec<String>,
        run: &BatchRun<String, DelimitedTarget>,
    ) -> (p: Preparation)
        requires
            old(self).wf(),
            headers_fit(old(self)@.extras),
            has_room(old(self)@.url, run.goes_to().metadata),
        ensures
            final(self).wf(),
            final(self)@ == old(self)@,
            is_begun(
                old(self)@,
                url_for(old(self)@, run.goes_to().metadata),
                encode_utf8(delimited(texts(batch@), run.goes_to().delimiter@)),
                false,
                opening(old(self)@, "[HTTP] sendEventsDelimited: begin"@),
                p,
            ),
    {
        let to = run.target();
        self.send_events_delimited_with(&to.metadata, batch, to.delimiter.as_str())
    }

    /// Writes events as JSON objects one after the other.
    pub fn encode_hec_payload(events: &Vec<JsonValue>) -> (r: Result<Vec<u8>, SplunkError>)
        ensures
            r is Ok,
            r->Ok_0@ == hec_payload(events@),
    {
        let mut parts: Vec<Vec<u8>> = Vec::new();
        let mut i: usize = 0;
        while i < events.len()
            invariant
                i <= events@.len(),
                parts@.len() == i,
                forall|j: int| 0 <= j < i ==> (#[trigger] parts@[j])@ == json_of(events@[j]),
            decreases events@.len() - i,
        {
            match json_bytes(&events[i]) {
                Ok(bytes) => {
                    parts.push(bytes);
                },
                Err(e) => {
                    return Err(SplunkError::JsonError(e));
                },
            }
            i += 1;
        }
        assert(byte_parts(parts@) =~= events@.map_values(|v: JsonValue| json_of(v)));
        Ok(join_encoded(&parts))
    }

    /// Begins to send multiple events in Splunk HEC concatenated JSON format to the sender's base
    /// URL.
    pub fn send_hec_batch(&mut self, events: &Vec<JsonValue>) -> (p: Preparation)
        requires
            old(self).wf(),
            headers_fit(old(self)@.extras),
        ensures
            final(self).wf(),
            final(self)@ == old(self)@,
            is_begun(
                old(self)@,
                old(self)@.url,
                hec_payload(events@),
                true,
                opening(old(self)@, "[HTTP] send_hec_batch: begin"@),
                p,
            ),
    {
        let log = self.opened_log("[HTTP] send_hec_batch: begin");
        match Self::encode_hec_payload(events) {
            Ok(bytes) => {
                let url = self.base_url();
                self.do_send_to_url(url, bytes, true, log)
            },
            Err(e) => Preparation { log, gzip_failure: None, result: Err(e) },
        }
    }

    /// Begins to send events that were written as JSON objects, one after the other, to the
    /// sender's base URL, or passes on why they could not be written.
    pub fn send_encoded_hec_batch(&mut self, encoded: Result<Vec<Vec<u8>>, serde_json::Error>) -> (p:
        Preparation)
        requires
            old(self).wf(),
            headers_fit(old(self)@.extras),
        ensures
            final(self).wf(),
            final(self)@ == old(self)@,
            ({
                let before = opening(old(self)@, "[HTTP] send_hec_batch: begin"@);
                match encoded {
                    Ok(parts) => is_begun(
                        old(self)@,
                        old(self)@.url,
                        joined_bytes(byte_parts(parts@)),
                        true,
                        before,
                        p,
                    ),
                    Err(e) => {
                        &&& p.result is Err
                        &&& p.result->Err_0 == SplunkError::JsonError(e)
                        &&& texts(p.log@) == before
                        &&& p.gzip_failure is None
                    },
                }
            }),
    {
        let log = self.opened_log("[HTTP] send_hec_batch: begin");
        match encoded {
            Ok(parts) => {
                let url = self.base_url();
                self.do_send_to_url(url, join_encoded(&parts), true, log)
            },
            Err(e) => Preparation { log, gzip_failure: None, result: Err(SplunkError::JsonError(e)) },
        }
    }

    /// Begins to send HEC events in batches; batches of zero events are an error. Each of them goes
    /// to the sender's base URL.
    pub fn send_hec_batched<T>(&self, events: Vec<T>, batch_size: usize) -> (r: Result<
        BatchStep<T, ()>,
        SplunkError,
    >)
        ensures
            is_batched(events@, batch_size as nat, (), r),
    {
        begin_batches(events, batch_size, ())
    }

    /// Begins to send multiple events in Splunk HEC concatenated JSON format.
    pub fn send_hec_events(&mut self, metadata: &EventMetadata, events: &Vec<JsonValue>) -> (p:
        Preparation)
        requires
            old(self).wf(),
            headers_fit(old(self)@.extras),
            has_room(old(self)@.url, *metadata),
        ensures
            final(self).wf(),
            final(self)@ == old(self)@,
            is_begun(
                old(self)@,
                url_for(old(self)@, *metadata),
                hec_payload(events@),
                true,
                opening(old(self)@, "[HTTP] send_hec_events: begin"@),
                p,
            ),
    {
        let log = self.opened_log("[HTTP] send_hec_events: begin");
        match Self::encode_hec_payload(events) {
            Ok(bytes) => self.do_send(metadata, bytes, true, log),
            Err(e) => Preparation { log, gzip_failure: None, result: Err(e) },
        }
    }

    /// Clear response cache (useful for testing or memory management).
    pub fn clear_cache(&mut self)
        ensures
            final(self).wf() == old(self).wf(),
            final(self)@ == (SenderSettings { cached: Set::empty(), ..old(self)@ }),
    {
        drop_responses(&mut self.response_cache);
    }

    /// Get cache statistics: how many responses there are, and how many there is room for.
    pub fn get_cache_stats(&self) -> (r: (usize, usize))
        ensures
            r.0 == self@.cached.len(),
            r.1 >= r.0,
    {
        (response_count(&self.response_cache), response_room(&self.response_cache))
    }
}

/// The bytes of a text.
fn bytes_of(text: &str) -> (r: Vec<u8>)
    ensures
        r@ == encode_utf8(text@),
{
    let mut out: Vec<u8> = Vec::new();
    out.extend_from_slice(text.as_bytes());
    assert(out@ =~= encode_utf8(text@));
    out
}

/// A size that may be missing.
pub open spec fn optional_size(size: Option<usize>) -> Option<nat> {
    match size {
        Some(n) => Some(n as nat),
        None => None,
    }
}

/// Bytes that may be missing.
pub open spec fn optional_bytes(bytes: Option<Vec<u8>>) -> Option<Seq<u8>> {
    match bytes {
        Some(b) => Some(b@),
        None => None,
    }
}

/// What is shown of a header value.
fn header_value_text(bytes: &[u8]) -> (r: String)
    ensures
        r@ == shown_value(bytes@),
{
    let mut out = String::new();
    let mut i: usize = 0;
    while i < bytes.len()
        invariant
            i <= bytes@.len(),
            forall|j: int| 0 <= j < i ==> is_visible(#[trigger] bytes@[j]),
            out@ =~= bytes@.take(i as int).map_values(|b: u8| b as char),
        decreases bytes@.len() - i,
    {
        let b = bytes[i];
        if !((32 <= b && b < 127) || b == 9) {
            assert(!is_visible(bytes@[i as int]));
            return "<invalid-utf8>".to_string();
        }
        out.push(b as char);
        i += 1;
    }
    assert(bytes@.take(i as int) =~= bytes@);
    out
}

/// The JSON objects of events one after the other.
pub open spec fn hec_payload(events: Seq<JsonValue>) -> Seq<u8> {
    joined_bytes(events.map_values(|v: JsonValue| json_of(v)))
}

/// Headers as texts.
pub open spec fn header_texts(headers: Seq<(String, String)>) -> Seq<(Seq<char>, Seq<char>)> {
    headers.map_values(|h: (String, String)| (h.0@, h.1@))
}

/// Shared copies of headers.
fn shared_headers(headers: &Vec<(String, String)>) -> (r: Vec<ExtraHeader>)
    ensures
        extras_view(r@) == header_texts(headers@),
{
    let mut out: Vec<ExtraHeader> = Vec::new();
    let mut i: usize = 0;
    while i < headers.len()
        invariant
            i <= headers@.len(),
            out@.len() == i,
            forall|j: int|
                0 <= j < i ==> (#[trigger] out@[j]).0@ == headers@[j].0@ && out@[j].1@
                    == headers@[j].1@,
        decreases headers@.len() - i,
    {
        let h = &headers[i];
        out.push((shared_text(h.0.as_str()), shared_text(h.1.as_str())));
        i += 1;
    }
    assert(extras_view(out@) =~= header_texts(headers@));
    out
}

// ===== The builder =====

/// Builder pattern for creating HttpEventSender with custom configuration.
pub struct HttpEventSenderBuilder {
    pub url: String,
    pub verify_ssl: bool,
    pub connect_timeout: Duration,
    pub request_timeout: Duration,
    pub gzip_enabled: bool,
    pub gzip_min_bytes: usize,
    pub debug_options: DebugOptions,
    pub extra_headers: Vec<(String, String)>,
    pub logger: Option<Arc<dyn Logger>>,
}

impl HttpEventSenderBuilder {
    /// A builder with the default configuration.
    pub fn new(url: String) -> (r: Self)
        ensures
            r.url == url,
            r.verify_ssl,
            r.connect_timeout == span_of(10),
            r.request_timeout == span_of(30),
            !r.gzip_enabled,
            r.gzip_min_bytes == 1024,
            r.debug_options == default_options(),
            r.extra_headers@.len() == 0,
            r.logger is None,
    {
        HttpEventSenderBuilder {
            url,
            verify_ssl: true,
            connect_timeout: seconds(10),
            request_timeout: seconds(30),
            gzip_enabled: false,
            gzip_min_bytes: 1024,
            debug_options: DebugOptions::default(),
            extra_headers: Vec::new(),
            logger: None,
        }
    }

    /// Sets whether certificates and host names are verified.
    pub fn verify_ssl(self, verify: bool) -> (r: Self)
        ensures
            r == (HttpEventSenderBuilder { verify_ssl: verify, ..self }),
    {
        HttpEventSenderBuilder { verify_ssl: verify, ..self }
    }

    /// Sets how long connecting may take.
    pub fn connect_timeout(self, timeout: Duration) -> (r: Self)
        ensures
            r == (HttpEventSenderBuilder { connect_timeout: timeout, ..self }),
    {
        HttpEventSenderBuilder { connect_timeout: timeout, ..self }
    }

    /// Sets how long a request may take.
    pub fn request_timeout(self, timeout: Duration) -> (r: Self)
        ensures
            r == (HttpEventSenderBuilder { request_timeout: timeout, ..self }),
    {
        HttpEventSenderBuilder { request_timeout: timeout, ..self }
    }

    /// Sets whether payloads are compressed, and from which size on.
    pub fn enable_gzip(self, enabled: bool, min_bytes: usize) -> (r: Self)
        ensures
            r == (HttpEventSenderBuilder {
                gzip_enabled: enabled,
                gzip_min_bytes: min_bytes,
                ..self
            }),
    {
        HttpEventSenderBuilder { gzip_enabled: enabled, gzip_min_bytes: min_bytes, ..self }
    }

    /// Sets the debug options.
    pub fn debug_options(self, options: DebugOptions) -> (r: Self)
        ensures
            r == (HttpEventSenderBuilder { debug_options: options, ..self }),
    {
        HttpEventSenderBuilder { debug_options: options, ..self }
    }

    /// Sets the extra headers.
    pub fn extra_headers(self, headers: Vec<(String, String)>) -> (r: Self)
        ensures
            r == (HttpEventSenderBuilder { extra_headers: headers, ..self }),
    {
        HttpEventSenderBuilder { extra_headers: headers, ..self }
    }

    /// Sets the logger.
    pub fn logger(self, logger: Arc<dyn Logger>) -> (r: Self)
        ensures
            ({
                let custom = Some(logger);
                r == (HttpEventSenderBuilder { logger: custom, ..self })
            }),
    {
        let custom = Some(logger);
        HttpEventSenderBuilder { logger: custom, ..self }
    }

    /// A sender of that configuration, or an error where the URL is none.
    pub fn build(self) -> (r: Result<HttpEventSender, SplunkError>)
        ensures
            match parsed_url(self.url@) {
                Ok(url) => {
                    &&& r matches Ok(sender)
                    &&& sender.wf()
                    &&& sender@.url == url
                    &&& sender@.extras == header_texts(self.extra_headers@)
                    &&& sender@.debug == self.debug_options
                    &&& sender@.logger == self.logger
                    &&& sender@.gzip_enabled == self.gzip_enabled
                    &&& sender@.gzip_min_bytes == self.gzip_min_bytes
                    &&& sender@.cached == Set::<Seq<char>>::empty()
                    &&& is_usual(sender@.client)
                    &&& sender@.client.verify_ssl == self.verify_ssl
                    &&& sender@.client.connect_timeout == self.connect_timeout
                    &&& sender@.client.request_timeout == Some(self.request_timeout)
                },
                Err(e) => r is Err && r->Err_0 == SplunkError::UrlError(e),
            },
    {
        let base_url = match parse_url(self.url.as_str()) {
            Ok(url) => url,
            Err(e) => {
                return Err(SplunkError::UrlError(e));
            },
        };
        Ok(
            HttpEventSender {
                client: ClientSettings {
                    verify_ssl: self.verify_ssl,
                    connect_timeout: self.connect_timeout,
                    request_timeout: Some(self.request_timeout),
                    tcp_keepalive: seconds(60),
                    pool_idle_timeout: seconds(90),
                    pool_max_idle_per_host: 10,
                },
                base_url,
                extra_headers: shared_headers(&self.extra_headers),
                header_cache: HeaderCache::new(),
                headers_dirty: true,
                debug_options: self.debug_options,
                logger: self.logger,
                gzip_enabled: self.gzip_enabled,
                gzip_min_bytes: self.gzip_min_bytes,
                response_cache: new_cache(),
            },
        )
    }
}

// ===== Laws =====

/// The value of a secret header is not shown: the lines are the same whatever it is.
pub proof fn secrets_are_not_shown(
    list: Seq<(Seq<char>, Seq<u8>)>,
    other: Seq<(Seq<char>, Seq<u8>)>,
)
    requires
        list.len() == other.len(),
        forall|i: int| 0 <= i < list.len() ==> (#[trigger] list[i]).0 == other[i].0,
        forall|i: int|
            0 <= i < list.len() && !is_secret((#[trigger] list[i]).0) ==> list[i].1 == other[i].1,
    ensures
        header_lines(list) == header_lines(other),
{
    assert forall|i: int| 0 <= i < list.len() implies header_lines(list)[i] == header_lines(
        other,
    )[i] by {
        assert(list[i].0 == other[i].0);
    }
    assert(header_lines(list) =~= header_lines(other));
}

/// Encoded events can be joined batch by batch.
pub proof fn joined_batches_are_joined(parts: Seq<Seq<u8>>, more: Seq<Seq<u8>>)
    ensures
        joined_bytes(parts + more) == joined_bytes(parts) + joined_bytes(more),
    decreases more.len(),
{
    if more.len() == 0 {
        assert(parts + more =~= parts);
        assert(joined_bytes(parts) + joined_bytes(more) =~= joined_bytes(parts));
    } else {
        joined_batches_are_joined(parts, more.drop_last());
        assert((parts + more).drop_last() =~= parts + more.drop_last());
        assert((parts + more).last() == more.last());
        assert(joined_bytes(parts + more) =~= joined_bytes(parts) + joined_bytes(more));
    }
}

/// Between two runs of delimited parts there is one delimiter.
pub proof fn delimiters_stand_between<T>(
    parts: Seq<Seq<T>>,
    more: Seq<Seq<T>>,
    delimiter: Seq<T>,
)
    requires
        parts.len() > 0,
        more.len() > 0,
    ensures
        delimited(parts + more, delimiter) == delimited(parts, delimiter) + delimiter + delimited(
            more,
            delimiter,
        ),
    decreases more.len(),
{
    let all = parts + more;
    assert(all.drop_last() =~= parts + more.drop_last());
    assert(all.last() == more.last());
    if more.len() == 1 {
        assert(parts + more.drop_last() =~= parts);
    } else {
        delimiters_stand_between(parts, more.drop_last(), delimiter);
        assert(delimited(all, delimiter) =~= delimited(parts, delimiter) + delimiter + delimited(
            more,
            delimiter,
        ));
    }
}

} // verus!
