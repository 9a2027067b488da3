//! The URL of a request, with the metadata of its events as query parameters.
use std::sync::Arc;

use url::Url;
use vstd::prelude::*;

use crate::text::{byte_len, byte_size, decimal, decimal_string};

verus! {

// ===== URLs =====

/// A URL.
#[verifier::external_type_specification]
#[verifier::external_body]
pub struct ExUrl(Url);

/// Why a text is no URL.
#[verifier::external_type_specification]
#[verifier::external_body]
pub struct ExUrlParseError(url::ParseError);

/// The URL that a text is, or why it is none: what [`Url::parse`] returns.
pub uninterp spec fn parsed_url(text: Seq<char>) -> Result<Url, url::ParseError>;

/// Reads a URL, with `Url::parse`. The result depends on the text alone; `parsed_url` names it.
#[verifier::external_body]
pub(crate) fn parse_url(text: &str) -> (r: Result<Url, url::ParseError>)
    ensures
        r == parsed_url(text@),
{
    Url::parse(text)
}

/// `Url::clone` gives the same URL.
pub assume_specification[ <Url as Clone>::clone ](url: &Url) -> (r: Url)
    ensures
        r == *url,
;

/// The text of a URL: what [`Url::as_str`] returns.
pub uninterp spec fn url_text(url: Url) -> Seq<char>;

/// The text of a URL, with `Url::as_str`. The result depends on the URL alone; `url_text` names
/// it.
#[verifier::external_body]
pub(crate) fn url_string(url: &Url) -> (r: String)
    ensures
        r@ == url_text(*url),
{
    url.as_str().to_string()
}

/// A query parameter: its name and its value.
pub type Pair = (Seq<char>, Seq<char>);

/// The query parameters of a URL: what [`Url::query_pairs`] yields.
pub uninterp spec fn query_pairs(url: Url) -> Seq<(Seq<char>, Seq<char>)>;

/// A URL with one more query parameter: what [`Url::query_pairs_mut`] and `append_pair` make of it.
pub uninterp spec fn url_with_pair(url: Url, name: Seq<char>, value: Seq<char>) -> Url;

/// How many bytes a query parameter can add to a URL: a separator, the equals sign, and three for
/// every byte of the name and the value.
pub open spec fn pair_room(name: Seq<char>, value: Seq<char>) -> nat {
    2 + 3 * (byte_size(name) + byte_size(value))
}

/// Adds a query parameter, with `Url::query_pairs_mut` and `append_pair`. The result depends on the
/// URL, the name and the value alone; `url_with_pair` names it. The parameter comes after those
/// that are there and reads back as it was. The URL grows by no more than `pair_room`; where it
/// could grow past 4 GiB, it panics.
#[verifier::external_body]
fn append_pair(url: &mut Url, name: &str, value: &str)
    requires
        byte_size(url_text(*old(url))) + pair_room(name@, value@) <= u32::MAX,
    ensures
        *final(url) == url_with_pair(*old(url), name@, value@),
        query_pairs(*final(url)) == query_pairs(*old(url)).push((name@, value@)),
        byte_size(url_text(*final(url))) <= byte_size(url_text(*old(url))) + pair_room(name@, value@),
{
    url.query_pairs_mut().append_pair(name, value);
}

// ===== Metadata =====

/// A shared copy of a text, with `Arc::from`.
#[verifier::external_body]
pub(crate) fn shared_text(text: &str) -> (r: Arc<str>)
    ensures
        r@ == text@,
{
    Arc::from(text)
}

/// Event metadata for Splunk indexing.
#[derive(Debug)]
pub struct EventMetadata {
    pub index: Arc<str>,
    pub source: Arc<str>,
    pub sourcetype: Arc<str>,
    pub host: Arc<str>,
    pub time: Option<u64>,
}

impl EventMetadata {
    /// Metadata without a time.
    pub fn new(index: &str, source: &str, sourcetype: &str, host: &str) -> (r: Self)
        ensures
            r.index@ == index@,
            r.source@ == source@,
            r.sourcetype@ == sourcetype@,
            r.host@ == host@,
            r.time is None,
    {
        EventMetadata {
            index: shared_text(index),
            source: shared_text(source),
            sourcetype: shared_text(sourcetype),
            host: shared_text(host),
            time: None,
        }
    }
}

impl Clone for EventMetadata {
    /// The same metadata.
    fn clone(&self) -> (r: Self)
        ensures
            r == *self,
    {
        EventMetadata {
            index: Arc::clone(&self.index),
            source: Arc::clone(&self.source),
            sourcetype: Arc::clone(&self.sourcetype),
            host: Arc::clone(&self.host),
            time: self.time,
        }
    }
}

/// The query parameters that metadata stands for.
pub open spec fn metadata_pairs(metadata: EventMetadata) -> Seq<Pair> {
    let named = seq![
        ("index"@, metadata.index@),
        ("source"@, metadata.source@),
        ("sourcetype"@, metadata.sourcetype@),
        ("host"@, metadata.host@),
    ];
    match metadata.time {
        Some(time) => named.push(("time"@, decimal(time as nat))),
        None => named,
    }
}

/// A URL with more query parameters.
pub open spec fn url_with_pairs(url: Url, pairs: Seq<Pair>) -> Url
    decreases pairs.len(),
{
    if pairs.len() == 0 {
        url
    } else {
        url_with_pair(url_with_pairs(url, pairs.drop_last()), pairs.last().0, pairs.last().1)
    }
}

/// How many bytes query parameters can add to a URL.
pub open spec fn pairs_room(pairs: Seq<Pair>) -> nat
    decreases pairs.len(),
{
    if pairs.len() == 0 {
        0
    } else {
        pairs_room(pairs.drop_last()) + pair_room(pairs.last().0, pairs.last().1)
    }
}

/// Whether the URL stays small enough with the metadata.
pub open spec fn has_room(url: Url, metadata: EventMetadata) -> bool {
    byte_size(url_text(url)) + pairs_room(metadata_pairs(metadata)) <= u32::MAX
}

/// Query parameters as texts.
spec fn pairs_view(pairs: Seq<(&str, String)>) -> Seq<Pair> {
    pairs.map_values(|p: (&str, String)| (p.0@, p.1@))
}

/// A copy of a shared text.
fn own_text(text: &Arc<str>) -> (r: String)
    ensures
        r@ == text@,
{
    let s: &str = &*text;
    s.to_string()
}

/// The query parameters that metadata stands for.
fn pairs_of(metadata: &EventMetadata) -> (r: Vec<(&'static str, String)>)
    ensures
        pairs_view(r@) == metadata_pairs(*metadata),
{
    let mut pairs: Vec<(&'static str, String)> = Vec::new();
    pairs.push(("index", own_text(&metadata.index)));
    pairs.push(("source", own_text(&metadata.source)));
    pairs.push(("sourcetype", own_text(&metadata.sourcetype)));
    pairs.push(("host", own_text(&metadata.host)));
    if let Some(time) = metadata.time {
        pairs.push(("time", decimal_string(time)));
    }
    assert(pairs_view(pairs@) =~= metadata_pairs(*metadata));
    pairs
}

proof fn room_is_monotone(pairs: Seq<Pair>, i: int)
    requires
        0 <= i <= pairs.len(),
    ensures
        pairs_room(pairs.take(i)) <= pairs_room(pairs),
    decreases pairs.len() - i,
{
    if i == pairs.len() {
        assert(pairs.take(i) =~= pairs);
    } else {
        room_is_monotone(pairs, i + 1);
        assert(pairs.take(i + 1).drop_last() =~= pairs.take(i));
    }
}

/// Whether the URL stays small enough with the metadata.
pub(crate) fn fits(url: &Url, metadata: &EventMetadata) -> (r: bool)
    ensures
        r == has_room(*url, *metadata),
{
    let pairs = pairs_of(metadata);
    let ghost view = metadata_pairs(*metadata);
    let limit: u64 = 4294967295;
    let text = url_string(url);
    let size = byte_len(text.as_str()) as u64;
    if size > limit {
        return false;
    }
    let mut total: u64 = size;
    let mut i: usize = 0;
    proof {
        assert(view.take(0) =~= Seq::empty());
    }
    while i < pairs.len()
        invariant
            i <= pairs@.len(),
            pairs_view(pairs@) == view,
            view == metadata_pairs(*metadata),
            limit == 4294967295,
            total <= limit,
            total == byte_size(url_text(*url)) + pairs_room(view.take(i as int)),
        decreases pairs@.len() - i,
    {
        let name = byte_len(pairs[i].0) as u64;
        let value = byte_len(pairs[i].1.as_str()) as u64;
        proof {
            assert(view[i as int] == (pairs@[i as int].0@, pairs@[i as int].1@));
            assert(view.take(i + 1).drop_last() =~= view.take(i as int));
            room_is_monotone(view, i + 1);
        }
        if name > limit || value > limit {
            return false;
        }
        let more: u64 = 2 + 3 * (name + value);
        if total + more > limit {
            return false;
        }
        total += more;
        i += 1;
    }
    proof {
        assert(view.take(i as int) =~= view);
    }
    true
}

/// Adds the metadata to a URL as query parameters: `index`, `source`, `sourcetype` and `host`, and
/// `time` where it is set.
pub(crate) fn add_metadata(url: &Url, metadata: &EventMetadata) -> (r: Url)
    requires
        has_room(*url, *metadata),
    ensures
        r == url_with_pairs(*url, metadata_pairs(*metadata)),
        query_pairs(r) == query_pairs(*url) + metadata_pairs(*metadata),
{
    let pairs = pairs_of(metadata);
    let ghost view = metadata_pairs(*metadata);
    let mut r = url.clone();
    let mut i: usize = 0;
    proof {
        assert(view.take(0) =~= Seq::empty());
        assert(query_pairs(r) + view.take(0) =~= query_pairs(r));
    }
    while i < pairs.len()
        invariant
            i <= pairs@.len(),
            pairs_view(pairs@) == view,
            view == metadata_pairs(*metadata),
            has_room(*url, *metadata),
            r == url_with_pairs(*url, view.take(i as int)),
            query_pairs(r) == query_pairs(*url) + view.take(i as int),
            byte_size(url_text(r)) <= byte_size(url_text(*url)) + pairs_room(view.take(i as int)),
        decreases pairs@.len() - i,
    {
        proof {
            assert(view[i as int] == (pairs@[i as int].0@, pairs@[i as int].1@));
            assert(view.take(i + 1).drop_last() =~= view.take(i as int));
            room_is_monotone(view, i + 1);
            assert(query_pairs(*url) + view.take(i + 1) =~= (query_pairs(*url) + view.take(
                i as int,
            )).push(view[i as int]));
        }
        append_pair(&mut r, pairs[i].0, pairs[i].1.as_str());
        i += 1;
    }
    proof {
        assert(view.take(i as int) =~= view);
    }
    r
}

} // verus!
