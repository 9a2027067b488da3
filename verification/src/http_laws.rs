//! What holds of requests and responses: which payloads are compressed, what a request carries, and
//! what is logged of it.
use serde_json::Value as JsonValue;
use url::Url;
use vstd::prelude::*;
use vstd::utf8::{decode_utf8, encode_utf8, valid_utf8};

use crate::http_headers::{
    header_contents, header_problem, headers_fit, is_header_name, is_header_value, is_listing,
    plain_headers, request_headers,
};
use crate::platform::span_of;
use crate::request_url::{
    has_room, metadata_pairs, pair_room, pairs_room, url_text, url_with_pair, url_with_pairs,
    EventMetadata, Pair,
};
use crate::send_batches::{chunks_of, is_batched, BatchStep, Progress};
use crate::splunk_http_sender::{
    begin_lines, default_options, delimited, gzip_of, gzip_write_fails, header_lines, hec_payload,
    is_begun, is_secret, is_success, is_usual, is_visible, joined_bytes, json_of,
    json_of_array, opening, payload_lines, request_limit, request_lines, response_lines, shown_header,
    shown_value, size_text, texts, wants_gzip, ClientSettings, DebugOptions, Preparation,
    SenderSettings, SplunkError,
};
use crate::text::{byte_size, decimal, lower, truncated};

verus! {

// ===== Which payloads are compressed =====

/// Where compressing is enabled, a payload of exactly the minimum is compressed, a longer one is
/// wherever a shorter one is, and one that is shorter than the minimum is not. Where it is not
/// enabled, none is.
pub proof fn payloads_are_compressed_from_the_minimum_on(
    sender: SenderSettings,
    shorter: nat,
    longer: nat,
)
    requires
        shorter <= longer,
    ensures
        wants_gzip(sender, sender.gzip_min_bytes as nat) == sender.gzip_enabled,
        wants_gzip(sender, shorter) ==> wants_gzip(sender, longer),
        longer < sender.gzip_min_bytes ==> !wants_gzip(sender, longer),
        !sender.gzip_enabled ==> !wants_gzip(sender, longer),
{
}

// ===== Headers =====

/// Whether every header is one.
pub open spec fn are_headers(extras: Seq<(Seq<char>, Seq<char>)>) -> bool {
    forall|i: int|
        0 <= i < extras.len() ==> is_header_name((#[trigger] extras[i]).0) && is_header_value(
            extras[i].1,
        )
}

/// Headers of which every one is a header have no problem.
pub proof fn headers_have_no_problem(extras: Seq<(Seq<char>, Seq<char>)>)
    ensures
        header_problem(extras) is None <==> are_headers(extras),
    decreases extras.len(),
{
    if extras.len() > 0 {
        let rest = extras.drop_first();
        headers_have_no_problem(rest);
        if are_headers(extras) {
            assert forall|i: int| 0 <= i < rest.len() implies is_header_name(
                (#[trigger] rest[i]).0,
            ) && is_header_value(rest[i].1) by {
                assert(rest[i] == extras[i + 1]);
            }
        }
        if header_problem(extras) is None {
            assert forall|i: int| 0 <= i < extras.len() implies is_header_name(
                (#[trigger] extras[i]).0,
            ) && is_header_value(extras[i].1) by {
                if i > 0 {
                    assert(extras[i] == rest[i - 1]);
                }
            }
        }
    }
}

/// The problem is that of the first header that is none, whatever comes after it: of its name where
/// that is none, and else of its value.
pub proof fn the_first_wrong_header_is_told(
    good: Seq<(Seq<char>, Seq<char>)>,
    name: Seq<char>,
    value: Seq<char>,
    rest: Seq<(Seq<char>, Seq<char>)>,
)
    requires
        are_headers(good),
        !is_header_name(name) || !is_header_value(value),
    ensures
        header_problem(good + seq![(name, value)] + rest) == Some(
            if !is_header_name(name) {
                "Invalid header name '"@ + name + "': "@ + "invalid HTTP header name"@
            } else {
                "Invalid header value '"@ + value + "': "@ + "failed to parse header value"@
            },
        ),
    decreases good.len(),
{
    let all = good + seq![(name, value)] + rest;
    if good.len() == 0 {
        assert(all.first() == (name, value));
    } else {
        assert(all.first() == good[0]);
        let fewer = good.drop_first();
        assert forall|i: int| 0 <= i < fewer.len() implies is_header_name(
            (#[trigger] fewer[i]).0,
        ) && is_header_value(fewer[i].1) by {
            assert(fewer[i] == good[i + 1]);
        }
        the_first_wrong_header_is_told(fewer, name, value, rest);
        assert(all.drop_first() =~= fewer + seq![(name, value)] + rest);
    }
}

/// Whether that header is the last one of its name, whatever the case of its letters.
pub open spec fn is_last_of(extras: Seq<(Seq<char>, Seq<char>)>, name: Seq<char>, i: int) -> bool {
    &&& 0 <= i < extras.len()
    &&& lower(extras[i].0) == name
    &&& forall|j: int| i < j < extras.len() ==> lower((#[trigger] extras[j]).0) != name
}

/// Whether no header has that name.
pub open spec fn is_unnamed(extras: Seq<(Seq<char>, Seq<char>)>, name: Seq<char>) -> bool {
    forall|j: int| 0 <= j < extras.len() ==> lower((#[trigger] extras[j]).0) != name
}

proof fn plain_header_of(extras: Seq<(Seq<char>, Seq<char>)>, name: Seq<char>, i: int)
    ensures
        is_last_of(extras, name, i) ==> plain_headers(extras).contains_key(name)
            && plain_headers(extras)[name] == encode_utf8(extras[i].1),
        is_unnamed(extras, name) ==> !plain_headers(extras).contains_key(name),
    decreases extras.len(),
{
    if extras.len() > 0 {
        let fewer = extras.drop_last();
        plain_header_of(fewer, name, i);
        assert(extras[extras.len() - 1] == extras.last());
        if is_last_of(extras, name, i) && i < fewer.len() {
            assert(lower(extras[extras.len() - 1].0) != name);
            assert(extras[i] == fewer[i]);
            assert forall|j: int| i < j < fewer.len() implies lower((#[trigger] fewer[j]).0)
                != name by {
                assert(fewer[j] == extras[j]);
            }
        }
        if is_unnamed(extras, name) {
            assert forall|j: int| 0 <= j < fewer.len() implies lower((#[trigger] fewer[j]).0)
                != name by {
                assert(fewer[j] == extras[j]);
            }
        }
    }
}

/// A request has the headers of the caller under their names in small letters, each with the value
/// that was set last. A JSON payload has a content type and a compressed one a content encoding,
/// which are those of the caller where the caller set them. Nothing else is there.
pub proof fn requests_carry_their_headers(
    extras: Seq<(Seq<char>, Seq<char>)>,
    json: bool,
    gzip: bool,
    name: Seq<char>,
    i: int,
)
    ensures
        ({
            let headers = request_headers(extras, json, gzip);
            &&& is_last_of(extras, name, i) ==> headers.contains_key(name) && headers[name]
                == encode_utf8(extras[i].1)
            &&& json && is_unnamed(extras, "content-type"@) ==> headers.contains_key(
                "content-type"@,
            ) && headers["content-type"@] == encode_utf8("application/json"@)
            &&& gzip && is_unnamed(extras, "content-encoding"@) ==> headers.contains_key(
                "content-encoding"@,
            ) && headers["content-encoding"@] == encode_utf8("gzip"@)
            &&& is_unnamed(extras, name) && !(json && name == "content-type"@) && !(gzip && name
                == "content-encoding"@) ==> !headers.contains_key(name)
        }),
{
    reveal_strlit("content-type");
    reveal_strlit("content-encoding");
    assert("content-type"@.len() != "content-encoding"@.len());
    plain_header_of(extras, name, i);
    plain_header_of(extras, "content-type"@, i);
    plain_header_of(extras, "content-encoding"@, i);
}

/// Headers fit as long as they have no more than 6552 names.
pub proof fn few_headers_fit(extras: Seq<(Seq<char>, Seq<char>)>)
    ensures
        extras.len() <= 6552 ==> headers_fit(extras),
        headers_fit(extras) <==> plain_headers(extras).dom().len() <= 6552,
{
    at_most_one_name_each(extras);
}

proof fn at_most_one_name_each(extras: Seq<(Seq<char>, Seq<char>)>)
    ensures
        plain_headers(extras).dom().finite(),
        plain_headers(extras).dom().len() <= extras.len(),
    decreases extras.len(),
{
    if extras.len() > 0 {
        at_most_one_name_each(extras.drop_last());
    }
}

// ===== Requests =====

/// The lines before the headers of a request.
pub open spec fn first_lines(url: Url, payload: Seq<u8>, compressed: Option<Seq<u8>>) -> Seq<Seq<char>> {
    seq!["[HTTP] doSend: begin, payload_size="@ + decimal(payload.len())] + (match compressed {
        Some(bytes) => seq![
            "[HTTP] Compressed "@ + decimal(payload.len()) + " bytes to "@ + decimal(bytes.len())
                + " bytes"@,
        ],
        None => Seq::empty(),
    }) + seq!["[HTTP] POST "@ + url_text(url)]
}

/// How the size of a payload is told.
pub open spec fn told_size(payload: Seq<u8>, compressed: Option<Seq<u8>>) -> Seq<char> {
    match compressed {
        Some(bytes) => "[HTTP] payload bytes="@ + decimal(payload.len()) + ", compressed="@
            + decimal(bytes.len()),
        None => "[HTTP] payload bytes="@ + decimal(payload.len()),
    }
}

/// A request carries the compressed payload exactly if compressing is enabled, the payload has the
/// minimum length or more, and compressing succeeds; else it carries the payload as it is. It goes
/// to the URL, within the time that was set or else thirty seconds, and its headers are those of a
/// payload of its kind. That compressing failed is told, and only then.
pub proof fn requests_carry_their_payload(
    sender: SenderSettings,
    url: Url,
    payload: Seq<u8>,
    json: bool,
    before: Seq<Seq<char>>,
    p: Preparation,
)
    requires
        is_begun(sender, url, payload, json, before, p),
    ensures
        ({
            let wanted = sender.gzip_enabled && sender.gzip_min_bytes <= payload.len();
            let packed = wanted && gzip_of(payload) is Some;
            &&& are_headers(sender.extras) <==> p.result is Ok
            &&& p.result matches Ok(request) ==> {
                &&& request.url == url
                &&& packed ==> request.body@ == gzip_of(payload)->0
                &&& !packed ==> request.body@ == payload
                &&& request.timeout == (if sender.client.request_timeout is Some {
                    sender.client.request_timeout->0
                } else {
                    span_of(30)
                })
                &&& header_contents(request.headers) == request_headers(
                    sender.extras,
                    json,
                    packed,
                ).map_values(|v: Seq<u8>| seq![v])
            }
            &&& p.result matches Err(e) ==> e is ConfigError && header_problem(sender.extras)
                == Some(e->ConfigError_0@)
            &&& wanted && !packed <==> p.gzip_failure is Some
            &&& p.gzip_failure matches Some(e) ==> if gzip_write_fails(payload) {
                e is IoError
            } else {
                e is CompressionError
            }
        }),
{
    headers_have_no_problem(sender.extras);
}

/// Nothing is logged of a request unless that is enabled. Where it is, the log tells the size of the
/// payload, what it was compressed to, the URL, every header in a line where headers are wanted, and
/// the size again; and where payloads are wanted, as much of the payload as may be shown.
pub proof fn requests_are_logged(
    sender: SenderSettings,
    url: Url,
    payload: Seq<u8>,
    json: bool,
    before: Seq<Seq<char>>,
    p: Preparation,
)
    requires
        is_begun(sender, url, payload, json, before, p),
        are_headers(sender.extras),
    ensures
        ({
            let log = texts(p.log@);
            let wanted = sender.gzip_enabled && sender.gzip_min_bytes <= payload.len();
            let compressed = if wanted {
                gzip_of(payload)
            } else {
                None
            };
            let max = sender.debug.max_bytes_to_log as nat;
            let shown = if max <= payload.len() {
                max
            } else {
                payload.len()
            };
            let tail = if sender.debug.log_payload {
                seq![
                    told_size(payload, compressed) + ", showing="@ + decimal(shown),
                    if valid_utf8(payload) {
                        truncated(decode_utf8(payload), shown)
                    } else {
                        "<binary payload: not valid UTF-8>"@
                    },
                ]
            } else {
                seq![told_size(payload, compressed)]
            };
            let head = before + first_lines(url, payload, compressed);
            &&& !sender.debug.enabled ==> log == before
            &&& sender.debug.enabled && !sender.debug.log_headers ==> log == head + tail
            &&& sender.debug.enabled && sender.debug.log_headers ==> exists|
                list: Seq<(Seq<char>, Seq<u8>)>,
            |
                is_listing(header_contents(p.result->Ok_0.headers), list) && log == head
                    + #[trigger] header_lines(list) + tail
        }),
{
    headers_have_no_problem(sender.extras);
    let wanted = sender.gzip_enabled && sender.gzip_min_bytes <= payload.len();
    let compressed: Option<Seq<u8>> = if wanted {
        gzip_of(payload)
    } else {
        None
    };
    let size: Option<nat> = match compressed {
        Some(bytes) => Some(bytes.len()),
        None => None,
    };
    let log = texts(p.log@);
    let list = choose|list: Seq<(Seq<char>, Seq<u8>)>|
        {
            &&& (sender.debug.enabled && sender.debug.log_headers ==> is_listing(
                header_contents(p.result->Ok_0.headers),
                list,
            ))
            &&& log == before + begin_lines(sender.debug, payload.len(), size)
                + #[trigger] request_lines(sender.debug, url_text(url), list, payload, size)
        };
    let begin = begin_lines(sender.debug, payload.len(), size);
    let rest = request_lines(sender.debug, url_text(url), list, payload, size);
    assert(log == before + begin + rest);
    let tail = payload_lines(sender.debug, payload, size);
    assert(size_text(payload.len(), size) == told_size(payload, compressed));
    if sender.debug.enabled {
        assert(begin + seq!["[HTTP] POST "@ + url_text(url)] =~= first_lines(
            url,
            payload,
            compressed,
        ));
        if sender.debug.log_headers {
            assert(log =~= before + first_lines(url, payload, compressed) + header_lines(list)
                + tail);
        } else {
            assert(log =~= before + first_lines(url, payload, compressed) + tail);
        }
    } else {
        assert(log =~= before);
    }
}

/// Where a header is wrong, no more is logged than that sending begins and what the payload was
/// compressed to.
pub proof fn wrong_headers_end_the_log(
    sender: SenderSettings,
    url: Url,
    payload: Seq<u8>,
    json: bool,
    before: Seq<Seq<char>>,
    p: Preparation,
)
    requires
        is_begun(sender, url, payload, json, before, p),
        !are_headers(sender.extras),
    ensures
        ({
            let wanted = sender.gzip_enabled && sender.gzip_min_bytes <= payload.len();
            let compressed = if wanted {
                gzip_of(payload)
            } else {
                None
            };
            texts(p.log@) == (if sender.debug.enabled {
                before + first_lines(url, payload, compressed).drop_last()
            } else {
                before
            })
        }),
{
    headers_have_no_problem(sender.extras);
    let wanted = sender.gzip_enabled && sender.gzip_min_bytes <= payload.len();
    let compressed: Option<Seq<u8>> = if wanted {
        gzip_of(payload)
    } else {
        None
    };
    let size: Option<nat> = match compressed {
        Some(bytes) => Some(bytes.len()),
        None => None,
    };
    let begin = begin_lines(sender.debug, payload.len(), size);
    if sender.debug.enabled {
        assert(begin =~= first_lines(url, payload, compressed).drop_last());
    } else {
        assert(before + begin =~= before);
    }
}

/// The first line of a log is there exactly if logging is enabled.
pub proof fn logs_open_with_a_line(sender: SenderSettings, line: Seq<char>)
    ensures
        opening(sender, line).len() == (if sender.debug.enabled { 1nat } else { 0nat }),
        sender.debug.enabled ==> opening(sender, line)[0] == line,
{
}

// ===== Headers in the log =====

/// Every header has a line of its own, in order, with its name and its value; but of the headers
/// that authorise a request, however their names are written, the value is left out.
pub proof fn headers_are_shown_but_secrets(list: Seq<(Seq<char>, Seq<u8>)>, i: int)
    ensures
        header_lines(list).len() == list.len(),
        0 <= i < list.len() ==> ({
            let (name, bytes) = list[i];
            let secret = lower(name) == "authorization"@ || lower(name) == "x-splunk-token"@;
            &&& secret ==> header_lines(list)[i] == "[HTTP] header: "@ + (name
                + ": ***REDACTED***"@)
            &&& !secret ==> header_lines(list)[i] == "[HTTP] header: "@ + (name + ": "@
                + shown_value(bytes))
        }),
{
    if 0 <= i < list.len() {
        secrets_by_name(list[i].0);
    }
}

proof fn secrets_by_name(name: Seq<char>)
    ensures
        is_secret(name) <==> lower(name) == "authorization"@ || lower(name) == "x-splunk-token"@,
{
    reveal_strlit("authorization");
    reveal_strlit("x-splunk-token");
    assert(lower("authorization"@) =~= "authorization"@);
    assert(lower("x-splunk-token"@) =~= "x-splunk-token"@);
}

/// The same holds of a header on its own.
pub proof fn a_header_is_shown_but_a_secret(name: Seq<char>, value: Seq<char>)
    ensures
        ({
            let secret = lower(name) == "authorization"@ || lower(name) == "x-splunk-token"@;
            &&& secret ==> shown_header(name, value) == name + ": ***REDACTED***"@
            &&& !secret ==> shown_header(name, value) == name + ": "@ + value
        }),
{
    secrets_by_name(name);
}

/// A header value shows as it is if all its bytes are printable ASCII or tabs, and not at all
/// otherwise.
pub proof fn values_show_as_they_are(bytes: Seq<u8>, i: int)
    ensures
        (forall|j: int|
            0 <= j < bytes.len() ==> (#[trigger] bytes[j] == 9 || 32 <= bytes[j] <= 126)) ==> {
            &&& shown_value(bytes).len() == bytes.len()
            &&& 0 <= i < bytes.len() ==> shown_value(bytes)[i] as int == bytes[i]
        },
        0 <= i < bytes.len() && !(bytes[i] == 9 || 32 <= bytes[i] <= 126) ==> shown_value(bytes)
            == "<invalid-utf8>"@,
{
    if forall|j: int| 0 <= j < bytes.len() ==> (#[trigger] bytes[j] == 9 || 32 <= bytes[j] <= 126) {
        assert(forall|j: int| 0 <= j < bytes.len() ==> is_visible(#[trigger] bytes[j]));
    }
    if 0 <= i < bytes.len() && !(bytes[i] == 9 || 32 <= bytes[i] <= 126) {
        assert(!is_visible(bytes[i]));
    }
}

// ===== Responses =====

/// A status is one of success exactly if its first digit of three is a two.
pub proof fn success_is_two_hundred_and_some(status: u16)
    ensures
        is_success(status) <==> status as int / 100 == 2,
{
}

/// Nothing is logged of a response unless that is enabled. Where it is, the log tells the status,
/// whether it is one of success, and the size of the body; and where bodies are wanted, as much of
/// the body as may be shown.
pub proof fn responses_are_logged(debug: DebugOptions, status: u16, body: Seq<char>)
    ensures
        ({
            let log = response_lines(debug, status, body);
            let verdict = if 200 <= status <= 299 {
                "OK"@
            } else {
                "ERROR"@
            };
            let max = debug.max_bytes_to_log as nat;
            let shown = if byte_size(body) < max {
                byte_size(body)
            } else {
                max
            };
            &&& !debug.enabled ==> log.len() == 0
            &&& debug.enabled ==> {
                &&& log.len() == (if debug.log_response_body { 3nat } else { 2nat })
                &&& log[0] == "[HTTP] status="@ + decimal(status as nat) + " ("@ + verdict + ")"@
                &&& !debug.log_response_body ==> log[1] == "[HTTP] response bytes="@ + decimal(
                    byte_size(body),
                )
                &&& debug.log_response_body ==> log[1] == "[HTTP] response bytes="@ + decimal(
                    byte_size(body),
                ) + ", showing="@ + decimal(shown) && log[2] == truncated(body, shown)
            }
        }),
{
}

// ===== Payloads =====

/// One part is delimited as it is, and no part gives nothing; between two runs there is one
/// delimiter.
pub proof fn parts_are_delimited<T>(part: Seq<T>, parts: Seq<Seq<T>>, delimiter: Seq<T>)
    ensures
        delimited(Seq::<Seq<T>>::empty(), delimiter) == Seq::<T>::empty(),
        delimited(seq![part], delimiter) == part,
        parts.len() > 0 ==> delimited(seq![part] + parts, delimiter) == part + delimiter + delimited(
            parts,
            delimiter,
        ),
{
    if parts.len() > 0 {
        crate::splunk_http_sender::delimiters_stand_between(seq![part], parts, delimiter);
    }
}

/// A JSON array of no values is a pair of brackets, and of one value that value in brackets; one more
/// value comes in before the closing bracket, after a comma.
pub proof fn json_arrays_grow_by_a_comma(values: Seq<JsonValue>, value: JsonValue)
    ensures
        json_of_array(Seq::empty()) == seq![91u8, 93u8],
        json_of_array(seq![value]) == seq![91u8] + json_of(value) + seq![93u8],
        values.len() > 0 ==> json_of_array(values.push(value)) == json_of_array(values).drop_last()
            + seq![44u8] + json_of(value) + seq![93u8],
{
    let f = |v: JsonValue| json_of(v);
    assert(Seq::<JsonValue>::empty().map_values(f) =~= Seq::empty());
    assert(json_of_array(Seq::empty()) =~= seq![91u8, 93u8]);
    assert(seq![value].map_values(f) =~= seq![json_of(value)]);
    if values.len() > 0 {
        let texts = values.map_values(f);
        assert(values.push(value).map_values(f) =~= texts.push(json_of(value)));
        assert(texts.push(json_of(value)).drop_last() =~= texts);
        assert(json_of_array(values).drop_last() =~= seq![91u8] + delimited(texts, seq![44u8]));
        assert(json_of_array(values.push(value)) =~= json_of_array(values).drop_last() + seq![44u8]
            + json_of(value) + seq![93u8]);
    }
}

/// Events that are written one after the other have nothing between them.
pub proof fn events_follow_each_other(
    parts: Seq<Seq<u8>>,
    part: Seq<u8>,
    events: Seq<JsonValue>,
    event: JsonValue,
)
    ensures
        joined_bytes(Seq::empty()) == Seq::<u8>::empty(),
        joined_bytes(parts.push(part)) == joined_bytes(parts) + part,
        hec_payload(Seq::empty()) == Seq::<u8>::empty(),
        hec_payload(events.push(event)) == hec_payload(events) + json_of(event),
{
    let f = |v: JsonValue| json_of(v);
    assert(parts.push(part).drop_last() =~= parts);
    assert(Seq::<JsonValue>::empty().map_values(f) =~= Seq::empty());
    let texts = events.map_values(f);
    assert(events.push(event).map_values(f) =~= texts.push(json_of(event)));
    assert(texts.push(json_of(event)).drop_last() =~= texts);
}

// ===== Metadata =====

/// Metadata is four query parameters, named and in that order, and a fifth where the time is set.
pub proof fn metadata_becomes_parameters(metadata: EventMetadata)
    ensures
        ({
            let pairs = metadata_pairs(metadata);
            &&& pairs.len() == (if metadata.time is Some { 5nat } else { 4nat })
            &&& pairs[0] == ("index"@, metadata.index@)
            &&& pairs[1] == ("source"@, metadata.source@)
            &&& pairs[2] == ("sourcetype"@, metadata.sourcetype@)
            &&& pairs[3] == ("host"@, metadata.host@)
            &&& metadata.time matches Some(time) ==> pairs[4] == ("time"@, decimal(time as nat))
        }),
{
}

/// Query parameters are added one by one, in order.
pub proof fn parameters_are_added_in_order(url: Url, pairs: Seq<Pair>, pair: Pair)
    ensures
        url_with_pairs(url, Seq::empty()) == url,
        url_with_pairs(url, pairs.push(pair)) == url_with_pair(
            url_with_pairs(url, pairs),
            pair.0,
            pair.1,
        ),
        pairs_room(Seq::empty()) == 0,
        pairs_room(pairs.push(pair)) == pairs_room(pairs) + pair_room(pair.0, pair.1),
{
    assert(pairs.push(pair).drop_last() =~= pairs);
}

/// A URL has room for metadata as long as it stays below 4 GiB with all parameters, of which each
/// byte can take three.
pub proof fn urls_have_room_below_four_gib(url: Url, metadata: EventMetadata)
    ensures
        has_room(url, metadata) <==> byte_size(url_text(url)) + pairs_room(metadata_pairs(metadata))
            < 4294967296,
{
}

// ===== Settings =====

/// Without options nothing is logged, and no more than 1024 bytes would be shown.
pub proof fn options_are_off_by_default()
    ensures
        ({
            let options = default_options();
            &&& !options.enabled && !options.log_headers && !options.log_payload
            &&& !options.log_response_body && !options.enable_http_tracing
            &&& options.max_bytes_to_log == 1024
        }),
{
}

/// A request may take as long as was set, and thirty seconds where nothing was. The usual settings
/// keep connections alive after a minute, idle ones for a minute and a half, and ten of them a host.
pub proof fn settings_say_how_long(settings: ClientSettings)
    ensures
        settings.request_timeout is None ==> request_limit(settings) == span_of(30),
        settings.request_timeout is Some ==> request_limit(settings)
            == settings.request_timeout->0,
        is_usual(settings) <==> settings.tcp_keepalive == span_of(60)
            && settings.pool_idle_timeout == span_of(90) && settings.pool_max_idle_per_host == 10,
{
}

// ===== Batches =====

/// Sending in batches of zero events is an error. Otherwise the first batch has the first events, as
/// many as a batch holds or all there are, the rest waits in batches, and nothing was answered yet;
/// without events nothing is sent, and the answer is there at once.
pub proof fn batches_begin_with_the_first_events<T, H>(
    events: Seq<T>,
    size: nat,
    to: H,
    r: Result<BatchStep<T, H>, SplunkError>,
)
    requires
        is_batched(events, size, to, r),
    ensures
        size == 0 <==> r is Err,
        r matches Err(e) ==> e is ConfigError && e->ConfigError_0@
            == "batch_size must be greater than 0"@,
        r matches Ok(step) ==> {
            &&& events.len() == 0 ==> step@ == Progress::<T, H>::Answered(Seq::empty())
            &&& events.len() > 0 ==> {
                &&& step@ is Sending
                &&& step@->Sending_to == to
                &&& step@->Sending_answers.len() == 0
                &&& step@->Sending_batch == (if events.len() <= size {
                    events
                } else {
                    events.take(size as int)
                })
                &&& step@->Sending_waiting == (if events.len() <= size {
                    Seq::empty()
                } else {
                    chunks_of(events.skip(size as int), size)
                })
            }
        },
{
    if size > 0 && events.len() > 0 {
        let chunks = chunks_of(events, size);
        if events.len() <= size {
            assert(chunks.drop_first() =~= Seq::empty());
        } else {
            assert(chunks.drop_first() =~= chunks_of(events.skip(size as int), size));
        }
    }
}

} // verus!
