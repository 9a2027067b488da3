//! The headers of a request: the extra headers of the caller, and the defaults where the caller
//! has none.
use std::sync::Arc;

use reqwest::header::{HeaderMap, HeaderName, HeaderValue, InvalidHeaderName, InvalidHeaderValue};
use vstd::prelude::*;
use vstd::string::StringExecFns;
use vstd::utf8::encode_utf8;

use crate::string_map::StringSet;
use crate::text::{chars_of, eq_ignore_ascii_case, lower, string_of, to_lower};

verus! {

// ===== The header map =====

/// The name of a header.
#[verifier::external_type_specification]
#[verifier::external_body]
pub struct ExHeaderName(HeaderName);

/// The value of a header.
#[verifier::external_type_specification]
#[verifier::external_body]
pub struct ExHeaderValue(HeaderValue);

/// What is said of a text that is no header name.
#[verifier::external_type_specification]
#[verifier::external_body]
pub struct ExInvalidHeaderName(InvalidHeaderName);

/// What is said of a text that is no header value.
#[verifier::external_type_specification]
#[verifier::external_body]
pub struct ExInvalidHeaderValue(InvalidHeaderValue);

/// Headers by their names.
#[verifier::external_type_specification]
#[verifier::external_body]
#[verifier::reject_recursive_types(T)]
pub struct ExHeaderMap<T>(HeaderMap<T>);

/// The text of a header name: what [`HeaderName::as_str`] returns.
pub uninterp spec fn name_text(name: HeaderName) -> Seq<char>;

/// The bytes of a header value: what [`HeaderValue::as_bytes`] returns.
pub uninterp spec fn value_bytes(value: HeaderValue) -> Seq<u8>;

/// What a header map holds: for every name the values, in order.
pub uninterp spec fn header_contents(map: HeaderMap<HeaderValue>) -> Map<Seq<char>, Seq<Seq<u8>>>;

/// Whether a character can stand in a header name.
pub open spec fn is_name_char(c: char) -> bool {
    ||| '0' <= c <= '9'
    ||| 'A' <= c <= 'Z'
    ||| 'a' <= c <= 'z'
    ||| '#' <= c <= '\''
    ||| '^' <= c <= '`'
    ||| c == '!' || c == '*' || c == '+' || c == '-' || c == '.' || c == '|' || c == '~'
}

/// Whether a text is a header name: it is not empty, it has no more than 65535 characters, and all
/// of them can stand in a header name.
pub open spec fn is_header_name(s: Seq<char>) -> bool {
    1 <= s.len() <= 65535 && forall|i: int| 0 <= i < s.len() ==> is_name_char(#[trigger] s[i])
}

/// Whether a text is a header value: it has no control characters but tabs.
pub open spec fn is_header_value(s: Seq<char>) -> bool {
    forall|i: int|
        0 <= i < s.len() ==> (#[trigger] s[i] == '\t' || (s[i] >= ' ' && s[i] != '\u{7f}'))
}

/// Reads a header name, with `HeaderName::from_bytes`: it takes every header name and nothing
/// else, and makes capitals small.
#[verifier::external_body]
fn header_name(text: &str) -> (r: Result<HeaderName, InvalidHeaderName>)
    ensures
        match r {
            Ok(name) => is_header_name(text@) && name_text(name) == lower(text@),
            Err(_) => !is_header_name(text@),
        },
{
    HeaderName::from_bytes(text.as_bytes())
}

/// Reads a header value, with `HeaderValue::from_str`: it takes every header value and nothing
/// else, and keeps its bytes.
#[verifier::external_body]
fn header_value(text: &str) -> (r: Result<HeaderValue, InvalidHeaderValue>)
    ensures
        match r {
            Ok(value) => is_header_value(text@) && value_bytes(value) == encode_utf8(text@),
            Err(_) => !is_header_value(text@),
        },
{
    HeaderValue::from_str(text)
}

/// What is said of a text that is no header name, with the `Display` of `InvalidHeaderName`:
/// always the same.
#[verifier::external_body]
fn name_error_text(error: &InvalidHeaderName) -> (r: String)
    ensures
        r@ == "invalid HTTP header name"@,
{
    error.to_string()
}

/// What is said of a text that is no header value, with the `Display` of `InvalidHeaderValue`:
/// always the same.
#[verifier::external_body]
fn value_error_text(error: &InvalidHeaderValue) -> (r: String)
    ensures
        r@ == "failed to parse header value"@,
{
    error.to_string()
}

/// What a header map without headers holds.
pub open spec fn nothing() -> Map<Seq<char>, Seq<Seq<u8>>> {
    Map::empty()
}

/// A header map without headers, with `HeaderMap::new`.
#[verifier::external_body]
fn no_headers() -> (r: HeaderMap<HeaderValue>)
    ensures
        header_contents(r) == nothing(),
{
    HeaderMap::new()
}

/// Sets a header, with `HeaderMap::insert`: the name has this one value then, and the other names
/// are not touched. The map has to hold fewer than 6554 names: with more, names that collide can
/// make it grow past its limit, and it panics then.
#[verifier::external_body]
fn insert_header(map: &mut HeaderMap<HeaderValue>, name: &HeaderName, value: &HeaderValue)
    requires
        header_contents(*old(map)).dom().len() < 6554,
    ensures
        header_contents(*final(map)) == header_contents(*old(map)).insert(
            name_text(*name),
            seq![value_bytes(*value)],
        ),
{
    map.insert(name.clone(), value.clone());
}

/// A duplicate of a header map, with its `clone`: it holds the same.
#[verifier::external_body]
fn copy_headers(map: &HeaderMap<HeaderValue>) -> (r: HeaderMap<HeaderValue>)
    ensures
        header_contents(r) == header_contents(*map),
{
    map.clone()
}

/// Whether every name has exactly one value.
pub open spec fn single_valued(contents: Map<Seq<char>, Seq<Seq<u8>>>) -> bool {
    forall|n: Seq<char>| #[trigger] contents.contains_key(n) ==> contents[n].len() == 1
}

/// Whether a list names every header once, with its value, in some order.
pub open spec fn is_listing(
    contents: Map<Seq<char>, Seq<Seq<u8>>>,
    list: Seq<(Seq<char>, Seq<u8>)>,
) -> bool {
    &&& list.len() == contents.dom().len()
    &&& forall|i: int|
        0 <= i < list.len() ==> contents.contains_key((#[trigger] list[i]).0)
            && contents[list[i].0] == seq![list[i].1]
    &&& forall|i: int, j: int|
        0 <= i < list.len() && 0 <= j < list.len() && i != j ==> (#[trigger] list[i]).0 != (
        #[trigger] list[j]).0
}

/// Names and the bytes of their values.
pub open spec fn header_list_view(list: Seq<(String, Vec<u8>)>) -> Seq<(Seq<char>, Seq<u8>)> {
    list.map_values(|h: (String, Vec<u8>)| (h.0@, h.1@))
}

/// Lists the headers of a map, with `HeaderMap::iter`: each once. The order is left open. Every
/// name has to have one value.
#[verifier::external_body]
fn list_headers(map: &HeaderMap<HeaderValue>) -> (r: Vec<(String, Vec<u8>)>)
    requires
        single_valued(header_contents(*map)),
    ensures
        is_listing(header_contents(*map), header_list_view(r@)),
{
    map.iter().map(|(n, v)| (n.as_str().to_string(), v.as_bytes().to_vec())).collect()
}

// ===== The headers of a request =====

/// A header that the caller set.
pub type ExtraHeader = (Arc<str>, Arc<str>);

/// The headers that the caller set, as texts.
pub open spec fn extras_view(extras: Seq<ExtraHeader>) -> Seq<(Seq<char>, Seq<char>)> {
    extras.map_values(|h: ExtraHeader| (h.0@, h.1@))
}

/// What is wrong with the first header that is wrong.
pub open spec fn header_problem(extras: Seq<(Seq<char>, Seq<char>)>) -> Option<Seq<char>>
    decreases extras.len(),
{
    if extras.len() == 0 {
        None
    } else if !is_header_name(extras.first().0) {
        Some("Invalid header name '"@ + extras.first().0 + "': "@ + "invalid HTTP header name"@)
    } else if !is_header_value(extras.first().1) {
        Some(
            "Invalid header value '"@ + extras.first().1 + "': "@
                + "failed to parse header value"@,
        )
    } else {
        header_problem(extras.drop_first())
    }
}

/// The headers that the caller set, by their names in small letters. Of several with one name, the
/// last counts.
pub open spec fn plain_headers(extras: Seq<(Seq<char>, Seq<char>)>) -> Map<Seq<char>, Seq<u8>>
    decreases extras.len(),
{
    if extras.len() == 0 {
        Map::empty()
    } else {
        plain_headers(extras.drop_last()).insert(
            lower(extras.last().0),
            encode_utf8(extras.last().1),
        )
    }
}

/// Headers with a default for a name that is not there.
pub open spec fn with_default(
    headers: Map<Seq<char>, Seq<u8>>,
    wanted: bool,
    name: Seq<char>,
    value: Seq<char>,
) -> Map<Seq<char>, Seq<u8>> {
    if wanted && !headers.contains_key(name) {
        headers.insert(name, encode_utf8(value))
    } else {
        headers
    }
}

/// The headers of a request: those of the caller; for a JSON payload a content type, and for a
/// compressed one a content encoding, unless the caller set them.
pub open spec fn request_headers(
    extras: Seq<(Seq<char>, Seq<char>)>,
    json: bool,
    gzip: bool,
) -> Map<Seq<char>, Seq<u8>> {
    with_default(
        with_default(plain_headers(extras), json, "content-type"@, "application/json"@),
        gzip,
        "content-encoding"@,
        "gzip"@,
    )
}

/// The most names that a request can have.
pub const MAX_HEADER_NAMES: usize = 6554;

/// Whether the names of the headers, with the two defaults, fit a header map.
pub open spec fn headers_fit(extras: Seq<(Seq<char>, Seq<char>)>) -> bool {
    plain_headers(extras).dom().len() + 2 <= 6554
}

/// What a header map holds where every name has one value.
pub open spec fn holds(
    map: HeaderMap<HeaderValue>,
    headers: Map<Seq<char>, Seq<u8>>,
) -> bool {
    header_contents(map) == headers.map_values(|v: Seq<u8>| seq![v])
}

/// A name of the caller keeps the value that the caller set last, whatever the payload is.
pub proof fn headers_of_the_caller_stay(
    extras: Seq<(Seq<char>, Seq<char>)>,
    json: bool,
    gzip: bool,
    name: Seq<char>,
)
    requires
        plain_headers(extras).contains_key(name),
    ensures
        request_headers(extras, json, gzip).contains_key(name),
        request_headers(extras, json, gzip)[name] == plain_headers(extras)[name],
{
}

/// A JSON payload always has a content type, and a compressed payload a content encoding; without
/// either, nothing is added to the headers of the caller.
pub proof fn defaults_are_there_when_wanted(
    extras: Seq<(Seq<char>, Seq<char>)>,
    json: bool,
    gzip: bool,
)
    ensures
        json ==> request_headers(extras, json, gzip).contains_key("content-type"@),
        gzip ==> request_headers(extras, json, gzip).contains_key("content-encoding"@),
        !json && !gzip ==> request_headers(extras, json, gzip) == plain_headers(extras),
{
}

proof fn plain_headers_finite(extras: Seq<(Seq<char>, Seq<char>)>)
    ensures
        plain_headers(extras).dom().finite(),
    decreases extras.len(),
{
    if extras.len() > 0 {
        plain_headers_finite(extras.drop_last());
    }
}

proof fn plain_headers_grow(extras: Seq<(Seq<char>, Seq<char>)>, i: int)
    requires
        0 <= i <= extras.len(),
    ensures
        plain_headers(extras.take(i)).dom().finite(),
        plain_headers(extras.take(i)).dom().len() <= plain_headers(extras).dom().len(),
    decreases extras.len() - i,
{
    plain_headers_finite(extras.take(i));
    if i == extras.len() {
        assert(extras.take(i) =~= extras);
    } else {
        plain_headers_grow(extras, i + 1);
        assert(extras.take(i + 1).drop_last() =~= extras.take(i));
        let here = plain_headers(extras.take(i)).dom();
        let next = plain_headers(extras.take(i + 1)).dom();
        assert(here.subset_of(next));
        vstd::set_lib::lemma_len_subset(here, next);
    }
}

/// The names that the caller set.
proof fn names_of_plain(extras: Seq<(Seq<char>, Seq<char>)>, name: Seq<char>)
    ensures
        plain_headers(extras).contains_key(name) <==> exists|i: int|
            0 <= i < extras.len() && lower((#[trigger] extras[i]).0) == name,
    decreases extras.len(),
{
    if extras.len() > 0 {
        let fewer = extras.drop_last();
        names_of_plain(fewer, name);
        if exists|i: int| 0 <= i < fewer.len() && lower((#[trigger] fewer[i]).0) == name {
            let i = choose|i: int| 0 <= i < fewer.len() && lower((#[trigger] fewer[i]).0) == name;
            assert(extras[i] == fewer[i]);
        }
        if exists|i: int| 0 <= i < extras.len() && lower((#[trigger] extras[i]).0) == name {
            let i = choose|i: int| 0 <= i < extras.len() && lower((#[trigger] extras[i]).0) == name;
            if i < fewer.len() {
                assert(extras[i] == fewer[i]);
            }
        }
        if lower(extras.last().0) == name {
            assert(extras[extras.len() - 1] == extras.last());
        }
    }
}

/// Whether the names of the headers fit a header map.
pub fn fit_headers(extras: &Vec<ExtraHeader>) -> (r: bool)
    ensures
        r == headers_fit(extras_view(extras@)),
{
    let ghost view = extras_view(extras@);
    let mut names = StringSet::new();
    let mut i: usize = 0;
    proof {
        assert(view.take(0) =~= Seq::empty());
        assert(names@ =~= plain_headers(view.take(0)).dom());
    }
    while i < extras.len()
        invariant
            i <= extras@.len(),
            view == extras_view(extras@),
            names.wf(),
            names@ == plain_headers(view.take(i as int)).dom(),
        decreases extras@.len() - i,
    {
        let name: &str = &extras[i].0;
        let small = to_lower(&chars_of(name));
        names.insert(string_of(&small));
        proof {
            assert(view[i as int] == (extras@[i as int].0@, extras@[i as int].1@));
            assert(view.take(i + 1).drop_last() =~= view.take(i as int));
            assert(names@ =~= plain_headers(view.take(i + 1)).dom());
        }
        i += 1;
    }
    proof {
        assert(view.take(i as int) =~= view);
    }
    names.len() <= MAX_HEADER_NAMES - 2
}

/// Whether the caller set a header of that name.
fn has_extra(extras: &Vec<ExtraHeader>, wanted: &str) -> (r: bool)
    requires
        lower(wanted@) == wanted@,
    ensures
        r == plain_headers(extras_view(extras@)).contains_key(wanted@),
{
    let ghost view = extras_view(extras@);
    proof {
        names_of_plain(view, wanted@);
    }
    let mut i: usize = 0;
    while i < extras.len()
        invariant
            i <= extras@.len(),
            view == extras_view(extras@),
            lower(wanted@) == wanted@,
            forall|j: int| 0 <= j < i ==> lower((#[trigger] view[j]).0) != wanted@,
        decreases extras@.len() - i,
    {
        let name: &str = &extras[i].0;
        assert(view[i as int].0 == name@);
        if eq_ignore_ascii_case(name, wanted) {
            proof {
                names_of_plain(view, wanted@);
            }
            return true;
        }
        i += 1;
    }
    false
}

/// The headers for every kind of payload.
pub struct HeaderCache {
    base: HeaderMap<HeaderValue>,
    json: HeaderMap<HeaderValue>,
    base_gzip: HeaderMap<HeaderValue>,
    json_gzip: HeaderMap<HeaderValue>,
}

impl HeaderCache {
    /// Whether the cache holds the headers of requests with those extra headers.
    pub closed spec fn is_for(self, extras: Seq<(Seq<char>, Seq<char>)>) -> bool {
        &&& holds(self.base, request_headers(extras, false, false))
        &&& holds(self.json, request_headers(extras, true, false))
        &&& holds(self.base_gzip, request_headers(extras, false, true))
        &&& holds(self.json_gzip, request_headers(extras, true, true))
    }

    /// Whether the cache holds no headers at all.
    pub closed spec fn is_blank(self) -> bool {
        &&& header_contents(self.base) == nothing()
        &&& header_contents(self.json) == nothing()
        &&& header_contents(self.base_gzip) == nothing()
        &&& header_contents(self.json_gzip) == nothing()
    }

    /// A cache without headers.
    pub fn new() -> (r: Self)
        ensures
            r.is_blank(),
    {
        HeaderCache {
            base: no_headers(),
            json: no_headers(),
            base_gzip: no_headers(),
            json_gzip: no_headers(),
        }
    }

    /// Builds the headers for every kind of payload, or says what is wrong with the first extra
    /// header that is wrong.
    pub fn build(extras: &Vec<ExtraHeader>) -> (r: Result<Self, String>)
        requires
            headers_fit(extras_view(extras@)),
        ensures
            match r {
                Ok(cache) => header_problem(extras_view(extras@)) is None && cache.is_for(
                    extras_view(extras@),
                ),
                Err(text) => header_problem(extras_view(extras@)) == Some(text@),
            },
    {
        let ghost view = extras_view(extras@);
        proof {
            lower_names();
        }
        let has_content_type = has_extra(extras, "content-type");
        let has_content_encoding = has_extra(extras, "content-encoding");
        let mut cache = HeaderCache::new();
        let mut i: usize = 0;
        proof {
            assert(view.take(0) =~= Seq::empty());
            assert(view.skip(0) =~= view);
            assert(plain_headers(view.take(0)).map_values(|v: Seq<u8>| seq![v]) =~= Map::empty());
        }
        while i < extras.len()
            invariant
                i <= extras@.len(),
                view == extras_view(extras@),
                headers_fit(view),
                header_problem(view) == header_problem(view.skip(i as int)),
                holds(cache.base, plain_headers(view.take(i as int))),
                holds(cache.json, plain_headers(view.take(i as int))),
                holds(cache.base_gzip, plain_headers(view.take(i as int))),
                holds(cache.json_gzip, plain_headers(view.take(i as int))),
            decreases extras@.len() - i,
        {
            let name: &str = &extras[i].0;
            let value: &str = &extras[i].1;
            proof {
                assert(view[i as int] == (name@, value@));
                assert(view.skip(i as int).first() == view[i as int]);
                assert(view.skip(i as int).drop_first() =~= view.skip(i + 1));
                assert(view.take(i + 1).drop_last() =~= view.take(i as int));
                plain_headers_grow(view, i as int);
                same_names(plain_headers(view.take(i as int)));
            }
            let header = match header_name(name) {
                Ok(header) => header,
                Err(e) => {
                    let mut text = "Invalid header name '".to_string();
                    text.append(name);
                    text.append("': ");
                    text.append(name_error_text(&e).as_str());
                    return Err(text);
                },
            };
            let content = match header_value(value) {
                Ok(content) => content,
                Err(e) => {
                    let mut text = "Invalid header value '".to_string();
                    text.append(value);
                    text.append("': ");
                    text.append(value_error_text(&e).as_str());
                    return Err(text);
                },
            };
            insert_header(&mut cache.base, &header, &content);
            insert_header(&mut cache.json, &header, &content);
            insert_header(&mut cache.base_gzip, &header, &content);
            insert_header(&mut cache.json_gzip, &header, &content);
            proof {
                inserted(
                    plain_headers(view.take(i as int)),
                    name_text(header),
                    value_bytes(content),
                );
            }
            i += 1;
        }
        let ghost plain = plain_headers(view);
        proof {
            assert(view.take(i as int) =~= view);
            assert(view.skip(i as int) =~= Seq::empty());
            plain_headers_finite(view);
            same_names(plain);
        }
        if !has_content_type {
            add_default(&mut cache.json, "content-type", "application/json", Ghost(plain));
            add_default(&mut cache.json_gzip, "content-type", "application/json", Ghost(plain));
        }
        if !has_content_encoding {
            let ghost json = request_headers(view, true, false);
            add_default(&mut cache.base_gzip, "content-encoding", "gzip", Ghost(plain));
            add_default(&mut cache.json_gzip, "content-encoding", "gzip", Ghost(json));
        }
        Ok(cache)
    }

    /// The headers for a kind of payload.
    pub(crate) fn pick(&self, json: bool, gzip: bool, extras: Ghost<Seq<(Seq<char>, Seq<char>)>>) -> (r:
        HeaderMap<HeaderValue>)
        requires
            self.is_for(extras@),
        ensures
            holds(r, request_headers(extras@, json, gzip)),
    {
        if json {
            if gzip {
                copy_headers(&self.json_gzip)
            } else {
                copy_headers(&self.json)
            }
        } else {
            if gzip {
                copy_headers(&self.base_gzip)
            } else {
                copy_headers(&self.base)
            }
        }
    }
}

/// Adds a default header.
fn add_default(
    map: &mut HeaderMap<HeaderValue>,
    name: &str,
    value: &str,
    headers: Ghost<Map<Seq<char>, Seq<u8>>>,
)
    requires
        holds(*old(map), headers@),
        headers@.dom().finite(),
        headers@.dom().len() < 6554,
        is_header_name(name@),
        is_header_value(value@),
        lower(name@) == name@,
    ensures
        holds(*final(map), headers@.insert(name@, encode_utf8(value@))),
{
    proof {
        same_names(headers@);
        inserted(headers@, name@, encode_utf8(value@));
    }
    if let Ok(header) = header_name(name) {
        if let Ok(content) = header_value(value) {
            insert_header(map, &header, &content);
        }
    }
}

proof fn same_names(headers: Map<Seq<char>, Seq<u8>>)
    ensures
        headers.map_values(|v: Seq<u8>| seq![v]).dom() == headers.dom(),
{
    assert(headers.map_values(|v: Seq<u8>| seq![v]).dom() =~= headers.dom());
}

proof fn inserted(headers: Map<Seq<char>, Seq<u8>>, name: Seq<char>, value: Seq<u8>)
    ensures
        headers.insert(name, value).map_values(|v: Seq<u8>| seq![v]) == headers.map_values(
            |v: Seq<u8>| seq![v],
        ).insert(name, seq![value]),
{
    assert(headers.insert(name, value).map_values(|v: Seq<u8>| seq![v]) =~= headers.map_values(
        |v: Seq<u8>| seq![v],
    ).insert(name, seq![value]));
}

/// The names and values of the defaults are in order.
proof fn lower_names()
    ensures
        lower("content-type"@) == "content-type"@,
        lower("content-encoding"@) == "content-encoding"@,
        is_header_name("content-type"@),
        is_header_name("content-encoding"@),
        is_header_value("application/json"@),
        is_header_value("gzip"@),
        "content-type"@ != "content-encoding"@,
{
    reveal_strlit("content-type");
    reveal_strlit("content-encoding");
    reveal_strlit("application/json");
    reveal_strlit("gzip");
    assert(lower("content-type"@) =~= "content-type"@);
    assert(lower("content-encoding"@) =~= "content-encoding"@);
}

/// The headers of a request, listed.
pub(crate) fn listed(map: &HeaderMap<HeaderValue>, headers: Ghost<Map<Seq<char>, Seq<u8>>>) -> (r: Vec<
    (String, Vec<u8>),
>)
    requires
        holds(*map, headers@),
    ensures
        is_listing(header_contents(*map), header_list_view(r@)),
{
    list_headers(map)
}

} // verus!
