//! Splunk configuration files: reading through a cache, parsing, merging, versions.
use std::sync::Arc;
use vstd::prelude::*;
use vstd::slice::slice_subrange;
use vstd::string::StringExecFns;

use crate::config_parser::{
    default_name, doc_view, has_stanza, parse_document, parsed, Section, Setting,
};
pub use crate::config_parser::{ConfigEntry, ConfigStanza, SplunkConfigDoc};
use crate::lru_cache::{
    cache_bytes, configured_bytes, content_of, evicted, stored, total_bytes, used, Cached, LRUCache,
};
use crate::string_map::StringMap;
use crate::text::{
    byte_size, chars_of, has_prefix, lines, split_lines, starts_with, string_of, trim, trimmed,
};

verus! {

/// Stanza name (section header: "[name]").
pub type Stanza = String;

/// Configuration key name inside a stanza.
pub type OptionK = String;

/// Configuration value (may be multiline).
pub type Value = String;

/// Configuration dictionary: { stanza -> { option -> value } }.
pub type Dictionary = StringMap<StringMap<Value>>;

/// How many lines a value may have, where nothing sets it.
pub const DEFAULT_MAX_MULTILINE_LINES: usize = 1024;

/// Statistics for the configuration file LRU cache.
#[derive(Debug, Clone, Copy)]
pub struct CacheStats {
    pub hits: usize,
    pub misses: usize,
    pub size: usize,
    pub max_size: usize,
}

/// The settings and the cache that all reads of configuration files share.
pub struct ConfigProcessor {
    max_multiline_lines: usize,
    cache: LRUCache,
    hits: usize,
    misses: usize,
}

impl ConfigProcessor {
    /// The cache is in order, and a value may have at least one line.
    pub closed spec fn wf(self) -> bool {
        self.cache.wf() && self.max_multiline_lines >= 1
    }

    /// How many lines a value may have.
    pub closed spec fn limit(self) -> nat {
        self.max_multiline_lines as nat
    }

    /// The cached contents, from the most to the least recently used.
    pub closed spec fn held(self) -> Seq<Cached> {
        self.cache.held()
    }

    /// How many bytes the cache may hold.
    pub closed spec fn max_bytes(self) -> nat {
        self.cache.max()
    }

    /// How often the cache had what was asked for.
    pub closed spec fn hits(self) -> usize {
        self.hits
    }

    /// How often it did not.
    pub closed spec fn misses(self) -> usize {
        self.misses
    }

    /// A processor with an empty cache. `cache_setting` is the value of the variable
    /// `BUNDLETRACKER_CACHE_SIZE_MB`, if it is set.
    pub fn new(cache_setting: Option<&str>) -> (r: Self)
        ensures
            r.wf(),
            r.limit() == 1024,
            r.held() == Seq::<Cached>::empty(),
            r.max_bytes() == configured_bytes(
                match cache_setting {
                    Some(s) => Some(s@),
                    None => None,
                },
            ),
            r.hits() == 0,
            r.misses() == 0,
    {
        ConfigProcessor {
            max_multiline_lines: DEFAULT_MAX_MULTILINE_LINES,
            cache: LRUCache::new(cache_setting),
            hits: 0,
            misses: 0,
        }
    }

    /// The cache of a processor always fits its limit.
    pub proof fn cache_fits(self)
        requires
            self.wf(),
        ensures
            total_bytes(self.held()) <= self.max_bytes(),
            crate::lru_cache::keys_differ(self.held()),
            self.limit() >= 1,
    {
        self.cache.held_fits();
    }
}

/// Set the maximum number of lines allowed in multiline values. Zero resets it to the default.
pub fn set_max_multiline_lines(processor: &mut ConfigProcessor, limit: usize)
    requires
        old(processor).wf(),
    ensures
        final(processor).wf(),
        final(processor).limit() == (if limit == 0 { 1024 } else { limit as nat }),
        final(processor).held() == old(processor).held(),
        final(processor).max_bytes() == old(processor).max_bytes(),
        final(processor).hits() == old(processor).hits(),
        final(processor).misses() == old(processor).misses(),
{
    processor.max_multiline_lines = if limit == 0 { DEFAULT_MAX_MULTILINE_LINES } else { limit };
}

/// Get the current maximum multiline lines limit.
pub fn get_max_multiline_lines(processor: &ConfigProcessor) -> (r: usize)
    ensures
        r == processor.limit(),
{
    processor.max_multiline_lines
}

/// Get current cache statistics.
pub fn get_cache_stats(processor: &ConfigProcessor) -> (r: CacheStats)
    requires
        processor.wf(),
    ensures
        r.hits == processor.hits(),
        r.misses == processor.misses(),
        r.size == total_bytes(processor.held()),
        r.max_size == processor.max_bytes(),
{
    CacheStats {
        hits: processor.hits,
        misses: processor.misses,
        size: processor.cache.size(),
        max_size: processor.cache.max_size(),
    }
}

/// Set the maximum cache size in megabytes, and evict what no longer fits. Zero is ignored.
pub fn set_cache_size_mb(processor: &mut ConfigProcessor, mb: usize)
    requires
        old(processor).wf(),
    ensures
        final(processor).wf(),
        mb == 0 ==> *final(processor) == *old(processor),
        mb > 0 ==> {
            &&& final(processor).max_bytes() == cache_bytes(mb as nat)
            &&& final(processor).held() == evicted(old(processor).held(), cache_bytes(mb as nat))
            &&& final(processor).limit() == old(processor).limit()
            &&& final(processor).hits() == old(processor).hits()
            &&& final(processor).misses() == old(processor).misses()
        },
{
    if mb == 0 {
        return ;
    }
    processor.cache.resize(mb);
}

/// Clear all entries from the configuration cache.
pub fn clear_cache(processor: &mut ConfigProcessor)
    requires
        old(processor).wf(),
    ensures
        final(processor).wf(),
        final(processor).held() == Seq::<Cached>::empty(),
        final(processor).max_bytes() == old(processor).max_bytes(),
        final(processor).limit() == old(processor).limit(),
        final(processor).hits() == old(processor).hits(),
        final(processor).misses() == old(processor).misses(),
{
    processor.cache.clear();
}

// ===== File reading with cache =====

/// A path with either kind of separator replaced by `sep`.
pub open spec fn normalized(p: Seq<char>, sep: char) -> Seq<char> {
    p.map_values(|c: char| if c == '/' || c == '\\' { sep } else { c })
}

/// Normalize path separators.
pub fn normalize_path(p: &str, sep: char) -> (r: String)
    ensures
        r@ == normalized(p@, sep),
{
    let chars = chars_of(p);
    let mut out = String::new();
    let mut i: usize = 0;
    while i < chars.len()
        invariant
            i <= chars@.len(),
            chars@ == p@,
            out@ =~= normalized(p@, sep).take(i as int),
        decreases chars@.len() - i,
    {
        let c = chars[i];
        if c == '/' || c == '\\' {
            out.push(sep);
        } else {
            out.push(c);
        }
        i += 1;
    }
    out
}

/// Why a file could not be found or read.
pub struct ReadFailure {
    /// Whether it is not there.
    pub not_found: bool,
    /// The reason in words.
    pub reason: String,
}

/// The content of a file, which is empty where it could not be read, and what is to be said about
/// that.
pub struct FileContent {
    pub content: Arc<String>,
    pub warning: Option<String>,
}

/// What reading a file comes to before the disk is touched.
pub enum FileView {
    /// The content is there, or there is none to read.
    Ready(FileContent),
    /// The file has to be read; the content goes into the cache under this key.
    ReadDisk(String),
}

/// What is said about a file that could not be read: nothing where it is not there.
pub open spec fn failure_warning(path: Seq<char>, failure: ReadFailure) -> Option<Seq<char>> {
    if failure.not_found {
        None
    } else {
        Some("Failed to read "@ + path + ": "@ + failure.reason@)
    }
}

/// A text that may be missing.
pub open spec fn optional_text(text: Option<String>) -> Option<Seq<char>> {
    match text {
        Some(t) => Some(t@),
        None => None,
    }
}

/// Whether a content is that of a file that could not be read.
pub open spec fn is_unread(r: FileContent, path: Seq<char>, failure: ReadFailure) -> bool {
    r.content@ == Seq::<char>::empty() && optional_text(r.warning) == failure_warning(path, failure)
}

/// The content of a file that could not be read.
fn unread(path: &str, failure: ReadFailure) -> (r: FileContent)
    ensures
        is_unread(r, path@, failure),
{
    if failure.not_found {
        return FileContent { content: empty_arc_string(), warning: None };
    }
    let mut text = "Failed to read ".to_string();
    text.append(path);
    text.append(": ");
    text.append(failure.reason.as_str());
    FileContent { content: empty_arc_string(), warning: Some(text) }
}

/// Begins to read the file at a path. `canonical` is its canonical path, or why it has none.
///
/// A file without a canonical path reads as empty text, with a warning unless it is not there. A
/// cached content is a hit and is used; anything else is a miss and has to be read from disk.
pub fn read_file_view(
    processor: &mut ConfigProcessor,
    path: &str,
    canonical: Result<String, ReadFailure>,
    sep: char,
) -> (r: FileView)
    requires
        old(processor).wf(),
    ensures
        final(processor).wf(),
        final(processor).limit() == old(processor).limit(),
        final(processor).max_bytes() == old(processor).max_bytes(),
        match canonical {
            Err(failure) => {
                &&& *final(processor) == *old(processor)
                &&& r matches FileView::Ready(unread)
                &&& is_unread(unread, path@, failure)
            },
            Ok(canonical_path) => {
                let key = normalized(canonical_path@, sep);
                &&& final(processor).held() == used(old(processor).held(), key)
                &&& match content_of(old(processor).held(), key) {
                    Some(text) => {
                        &&& r matches FileView::Ready(cached)
                        &&& cached.content@ == text
                        &&& cached.warning is None
                        &&& final(processor).hits() == wrapped_next(old(processor).hits())
                        &&& final(processor).misses() == old(processor).misses()
                    },
                    None => {
                        &&& r matches FileView::ReadDisk(k)
                        &&& k@ == key
                        &&& final(processor).hits() == old(processor).hits()
                        &&& final(processor).misses() == wrapped_next(old(processor).misses())
                    },
                }
            },
        },
{
    match canonical {
        Err(failure) => FileView::Ready(unread(path, failure)),
        Ok(canonical_path) => {
            let key = normalize_path(canonical_path.as_str(), sep);
            match processor.cache.get(key.as_str()) {
                Some(content) => {
                    processor.hits = processor.hits.wrapping_add(1);
                    FileView::Ready(FileContent { content, warning: None })
                },
                None => {
                    processor.misses = processor.misses.wrapping_add(1);
                    FileView::ReadDisk(key)
                },
            }
        },
    }
}

/// The next count of a counter that wraps around.
pub open spec fn wrapped_next(n: usize) -> usize {
    if n == usize::MAX {
        0
    } else {
        (n + 1) as usize
    }
}

/// An empty content.
fn empty_arc_string() -> (r: Arc<String>)
    ensures
        r@ == Seq::<char>::empty(),
{
    Arc::new(String::new())
}

/// Ends a read that went to disk. `read` is what was read, or why reading failed: that reads as
/// empty text, with a warning unless the file is not there, and is not cached.
pub fn finish_file_view(
    processor: &mut ConfigProcessor,
    path: &str,
    key: String,
    read: Result<String, ReadFailure>,
) -> (r: FileContent)
    requires
        old(processor).wf(),
    ensures
        final(processor).wf(),
        final(processor).limit() == old(processor).limit(),
        final(processor).max_bytes() == old(processor).max_bytes(),
        final(processor).hits() == old(processor).hits(),
        final(processor).misses() == old(processor).misses(),
        match read {
            Err(failure) => is_unread(r, path@, failure) && final(processor).held() == old(
                processor,
            ).held(),
            Ok(content) => {
                &&& r.content@ == content@
                &&& r.warning is None
                &&& final(processor).held() == stored(
                    old(processor).held(),
                    key@,
                    content@,
                    old(processor).max_bytes(),
                )
            },
        },
{
    match read {
        Err(failure) => unread(path, failure),
        Ok(text) => {
            let content = Arc::new(text);
            let result = Arc::clone(&content);
            processor.cache.insert(key, content);
            FileContent { content: result, warning: None }
        },
    }
}

/// A file that was read and fits the cache is a hit when it is read again, and its content is
/// the one that was read.
pub proof fn second_read_is_a_hit(processor: ConfigProcessor, key: Seq<char>, content: Seq<char>)
    requires
        processor.wf(),
        byte_size(content) <= processor.max_bytes(),
    ensures
        content_of(stored(processor.held(), key, content, processor.max_bytes()), key) == Some(
            content,
        ),
{
    processor.cache_fits();
    crate::lru_cache::stored_content_is_found(
        processor.held(),
        key,
        content,
        processor.max_bytes(),
    );
}

// ===== Version extraction =====

/// What a version line starts with.
pub open spec fn version_mark() -> Seq<char> {
    seq!['V', 'E', 'R', 'S', 'I', 'O', 'N', '=']
}

/// The version that the first version line gives, or nothing.
pub open spec fn version_in(ls: Seq<Seq<char>>) -> Seq<char>
    decreases ls.len(),
{
    if ls.len() == 0 {
        Seq::empty()
    } else if has_prefix(trimmed(ls.first()), version_mark()) {
        trimmed(trimmed(ls.first()).skip(8))
    } else {
        version_in(ls.drop_first())
    }
}

/// The first version line counts, whatever comes before and after it.
pub proof fn first_version_line_counts(
    before: Seq<Seq<char>>,
    line: Seq<char>,
    after: Seq<Seq<char>>,
)
    requires
        forall|i: int|
            0 <= i < before.len() ==> !has_prefix(trimmed(#[trigger] before[i]), version_mark()),
        has_prefix(trimmed(line), version_mark()),
    ensures
        version_in(before + seq![line] + after) == trimmed(trimmed(line).skip(8)),
    decreases before.len(),
{
    let all = before + seq![line] + after;
    if before.len() == 0 {
        assert(all.first() == line);
    } else {
        let fewer = before.drop_first();
        assert(all.first() == before[0]);
        assert(all.drop_first() =~= fewer + seq![line] + after);
        assert forall|i: int| 0 <= i < fewer.len() implies !has_prefix(
            trimmed(#[trigger] fewer[i]),
            version_mark(),
        ) by {
            assert(fewer[i] == before[i + 1]);
        }
        first_version_line_counts(fewer, line, after);
    }
}

/// Extract the VERSION value from the content of a configuration file.
///
/// Searches for a line starting with "VERSION=", blanks before it aside, and returns the value,
/// or an empty string if there is none.
pub fn get_version(content: &str) -> (r: String)
    ensures
        r@ == version_in(lines(content@)),
{
    let chars = chars_of(content);
    let all = split_lines(&chars);
    let ghost ls = lines(content@);
    proof {
        reveal_strlit("VERSION=");
        assert("VERSION="@ =~= version_mark());
        assert(ls.skip(0) =~= ls);
    }
    let mark = chars_of("VERSION=");
    let mut i: usize = 0;
    while i < all.len()
        invariant
            i <= all@.len(),
            all@.len() == ls.len(),
            forall|k: int| 0 <= k < all@.len() ==> (#[trigger] all@[k])@ == ls[k],
            mark@ == version_mark(),
            version_in(ls) == version_in(ls.skip(i as int)),
            ls == lines(content@),
        decreases all@.len() - i,
    {
        let line = trim(all[i]);
        assert(ls.skip(i as int).first() == ls[i as int]);
        assert(ls.skip(i as int).drop_first() =~= ls.skip(i + 1));
        if starts_with(line, &mark) {
            let rest = slice_subrange(line, 8, line.len());
            assert(rest@ =~= line@.skip(8));
            return string_of(trim(rest));
        }
        i += 1;
    }
    assert(ls.skip(i as int) =~= Seq::empty());
    String::new()
}

// ===== Parsing =====

/// Parse Splunk configuration file content into a structured document.
///
/// The second text is the path of the file; it does not bear on the result.
pub fn parse_config(processor: &ConfigProcessor, content: &str, _file_path: &str) -> (doc:
    SplunkConfigDoc)
    requires
        processor.wf(),
    ensures
        doc_view(doc@) == parsed(content@, processor.limit()),
{
    parse_document(content, processor.max_multiline_lines)
}

// ===== Merging =====

/// The value of the first setting of that key.
pub open spec fn first_in(settings: Seq<Setting>, key: Seq<char>) -> Option<Seq<char>>
    decreases settings.len(),
{
    if settings.len() == 0 {
        None
    } else if settings.first().key == key {
        Some(settings.first().value)
    } else {
        first_in(settings.drop_first(), key)
    }
}

/// The value of the first setting of that key in a stanza of that name.
pub open spec fn first_value(sections: Seq<Section>, name: Seq<char>, key: Seq<char>) -> Option<
    Seq<char>,
>
    decreases sections.len(),
{
    if sections.len() == 0 {
        None
    } else if sections.first().name == name && first_in(sections.first().settings, key) is Some {
        first_in(sections.first().settings, key)
    } else {
        first_value(sections.drop_first(), name, key)
    }
}

/// All stanzas of all contents, one content after the other.
pub open spec fn all_sections(contents: Seq<Seq<char>>, max_lines: nat) -> Seq<Section>
    decreases contents.len(),
{
    if contents.len() == 0 {
        Seq::empty()
    } else {
        all_sections(contents.drop_last(), max_lines) + parsed(contents.last(), max_lines)
    }
}

/// The value that a dictionary has for a key of a stanza.
pub open spec fn lookup(dict: Dictionary, name: Seq<char>, key: Seq<char>) -> Option<Seq<char>> {
    if dict@.contains_key(name) && dict@[name]@.contains_key(key) {
        Some(dict@[name]@[key]@)
    } else {
        None
    }
}

/// The dictionary and the maps in it are in order.
pub open spec fn dict_wf(dict: Dictionary) -> bool {
    dict.wf() && forall|n: Seq<char>| #[trigger] dict@.contains_key(n) ==> dict@[n].wf()
}

/// The dictionary has the stanza `default` and every stanza of the sections, and for every key
/// of a stanza the value that comes first.
pub open spec fn merges(dict: Dictionary, sections: Seq<Section>) -> bool {
    &&& dict_wf(dict)
    &&& forall|n: Seq<char>| #[trigger]
        dict@.contains_key(n) <==> n == default_name() || has_stanza(sections, n)
    &&& forall|n: Seq<char>, k: Seq<char>| #[trigger]
        lookup(dict, n, k) == first_value(sections, n, k)
}

proof fn first_in_push(settings: Seq<Setting>, set: Setting, key: Seq<char>)
    ensures
        first_in(settings.push(set), key) == (if first_in(settings, key) is Some {
            first_in(settings, key)
        } else if set.key == key {
            Some(set.value)
        } else {
            None
        }),
    decreases settings.len(),
{
    let all = settings.push(set);
    if settings.len() == 0 {
        assert(all.drop_first() =~= Seq::empty());
        assert(first_in(all.drop_first(), key) is None);
    } else {
        assert(all.first() == settings.first());
        assert(all.drop_first() =~= settings.drop_first().push(set));
        first_in_push(settings.drop_first(), set, key);
    }
}

/// Where the first sections have a value for a key, the later ones do not matter; where they have
/// none, the later ones decide.
pub proof fn earlier_sections_dominate(
    earlier: Seq<Section>,
    later: Seq<Section>,
    name: Seq<char>,
    key: Seq<char>,
)
    ensures
        first_value(earlier + later, name, key) == (if first_value(earlier, name, key) is Some {
            first_value(earlier, name, key)
        } else {
            first_value(later, name, key)
        }),
    decreases earlier.len(),
{
    let all = earlier + later;
    if earlier.len() == 0 {
        assert(all =~= later);
    } else {
        assert(all.first() == earlier.first());
        assert(all.drop_first() =~= earlier.drop_first() + later);
        earlier_sections_dominate(earlier.drop_first(), later, name, key);
    }
}

/// Earlier files take precedence: what some files say of a key is not changed by files that come
/// after them, and those files decide only where nothing was said before.
pub proof fn earlier_files_dominate(
    earlier: Seq<Seq<char>>,
    later: Seq<Seq<char>>,
    max_lines: nat,
    name: Seq<char>,
    key: Seq<char>,
)
    ensures
        all_sections(earlier + later, max_lines) == all_sections(earlier, max_lines)
            + all_sections(later, max_lines),
        first_value(all_sections(earlier + later, max_lines), name, key) == (if first_value(
            all_sections(earlier, max_lines),
            name,
            key,
        ) is Some {
            first_value(all_sections(earlier, max_lines), name, key)
        } else {
            first_value(all_sections(later, max_lines), name, key)
        }),
    decreases later.len(),
{
    let all = earlier + later;
    if later.len() == 0 {
        assert(all =~= earlier);
        assert(all_sections(earlier, max_lines) + all_sections(later, max_lines) =~= all_sections(
            earlier,
            max_lines,
        ));
    } else {
        assert(all.drop_last() =~= earlier + later.drop_last());
        assert(all.last() == later.last());
        earlier_files_dominate(earlier, later.drop_last(), max_lines, name, key);
        assert(all_sections(all, max_lines) =~= all_sections(earlier, max_lines) + all_sections(
            later,
            max_lines,
        ));
    }
    earlier_sections_dominate(
        all_sections(earlier, max_lines),
        all_sections(later, max_lines),
        name,
        key,
    );
}

proof fn first_value_of_last(done: Seq<Section>, last: Section, name: Seq<char>, key: Seq<char>)
    ensures
        first_value(done.push(last), name, key) == (if first_value(done, name, key) is Some {
            first_value(done, name, key)
        } else if last.name == name {
            first_in(last.settings, key)
        } else {
            None
        }),
{
    let one = seq![last];
    assert(done.push(last) =~= done + one);
    earlier_sections_dominate(done, one, name, key);
    assert(one.drop_first() =~= Seq::empty());
    assert(first_value(one.drop_first(), name, key) is None);
}

proof fn has_stanza_push(done: Seq<Section>, last: Section, name: Seq<char>)
    ensures
        has_stanza(done.push(last), name) <==> has_stanza(done, name) || last.name == name,
{
    let all = done.push(last);
    if has_stanza(done, name) {
        let i = choose|i: int| 0 <= i < done.len() && (#[trigger] done[i]).name == name;
        assert(all[i].name == name);
    }
    if last.name == name {
        assert(all[done.len() as int].name == name);
    }
    if has_stanza(all, name) {
        let i = choose|i: int| 0 <= i < all.len() && (#[trigger] all[i]).name == name;
        if i < done.len() {
            assert(done[i].name == name);
        }
    }
}

/// Makes sure that the dictionary has a stanza of that name, and says where.
fn stanza_place(dict: &mut Dictionary, name: &str, done: Ghost<Seq<Section>>) -> (r: usize)
    requires
        merges(*old(dict), done@),
    ensures
        merges(*final(dict), done@.push(Section { name: name@, settings: Seq::empty() })),
        r < final(dict).keys().len(),
        final(dict).keys()[r as int] == name@,
{
    let ghost before = *dict;
    let ghost next = done@.push(Section { name: name@, settings: Seq::empty() });
    let r: usize = match dict.position(name) {
        Some(p) => p,
        None => {
            dict.push(name.to_string(), StringMap::new());
            dict.len() - 1
        },
    };
    proof {
        assert forall|n: Seq<char>| #[trigger] dict@.contains_key(n) implies dict@[n].wf() by {
            if before@.contains_key(n) {
                assert(dict@[n] == before@[n]);
            }
        }
        assert forall|n: Seq<char>| #[trigger]
            dict@.contains_key(n) <==> n == default_name() || has_stanza(next, n) by {
            has_stanza_push(done@, Section { name: name@, settings: Seq::empty() }, n);
            assert(before@.contains_key(n) <==> n == default_name() || has_stanza(done@, n));
        }
        assert forall|n: Seq<char>, k: Seq<char>| #[trigger] lookup(*dict, n, k) == first_value(
            next,
            n,
            k,
        ) by {
            first_value_of_last(done@, Section { name: name@, settings: Seq::empty() }, n, k);
            assert(lookup(before, n, k) == first_value(done@, n, k));
        }
    }
    r
}

/// Adds a value to the stanza at a place, unless the key has one.
fn merge_entry(
    dict: &mut Dictionary,
    place: usize,
    entry: &ConfigEntry,
    done: Ghost<Seq<Section>>,
    last: Ghost<Section>,
)
    requires
        merges(*old(dict), done@.push(last@)),
        place < old(dict).keys().len(),
        old(dict).keys()[place as int] == last@.name,
    ensures
        merges(
            *final(dict),
            done@.push(
                Section { name: last@.name, settings: last@.settings.push(entry@) },
            ),
        ),
        final(dict).keys() == old(dict).keys(),
{
    let ghost before = *dict;
    let ghost name = last@.name;
    proof {
        dict.keys_are_the_domain();
        assert(dict.keys().contains(name));
        assert(dict@.contains_key(name));
    }
    let inner = dict.value_mut(place);
    if !inner.contains_key(entry.key.as_str()) {
        inner.push(entry.key.clone(), entry.value.clone());
    }
    proof {
        let longer = Section { name, settings: last@.settings.push(entry@) };
        let next = done@.push(longer);
        assert forall|n: Seq<char>| #[trigger] dict@.contains_key(n) implies dict@[n].wf() by {
            if n != name {
                assert(dict@[n] == before@[n]);
            }
        }
        assert forall|n: Seq<char>| #[trigger]
            dict@.contains_key(n) <==> n == default_name() || has_stanza(next, n) by {
            has_stanza_push(done@, longer, n);
            has_stanza_push(done@, last@, n);
            assert(before@.contains_key(n) <==> n == default_name() || has_stanza(
                done@.push(last@),
                n,
            ));
        }
        assert forall|n: Seq<char>, k: Seq<char>| #[trigger] lookup(*dict, n, k) == first_value(
            next,
            n,
            k,
        ) by {
            first_value_of_last(done@, longer, n, k);
            first_value_of_last(done@, last@, n, k);
            first_in_push(last@.settings, entry@, k);
            assert(lookup(before, n, k) == first_value(done@.push(last@), n, k));
        }
    }
}

/// Merges a document into the dictionary.
fn merge_doc(dict: &mut Dictionary, doc: &SplunkConfigDoc, done: Ghost<Seq<Section>>)
    requires
        merges(*old(dict), done@),
    ensures
        merges(*final(dict), done@ + doc_view(doc@)),
{
    let ghost view = doc_view(doc@);
    let mut j: usize = 0;
    proof {
        assert(done@ + view.take(0) =~= done@);
    }
    while j < doc.len()
        invariant
            j <= doc@.len(),
            view == doc_view(doc@),
            merges(*dict, done@ + view.take(j as int)),
        decreases doc@.len() - j,
    {
        let ghost sofar = done@ + view.take(j as int);
        let ghost whole = view[j as int];
        let stanza = &doc[j];
        assert(whole == stanza@);
        let place = stanza_place(dict, stanza.name.as_str(), Ghost(sofar));
        let mut e: usize = 0;
        let ghost mut last = Section { name: whole.name, settings: Seq::empty() };
        proof {
            assert(last.settings =~= whole.settings.take(0));
        }
        while e < stanza.entries.len()
            invariant
                e <= stanza.entries@.len(),
                whole == stanza@,
                last.name == whole.name,
                last.settings == whole.settings.take(e as int),
                merges(*dict, sofar.push(last)),
                place < dict.keys().len(),
                dict.keys()[place as int] == whole.name,
            decreases stanza.entries@.len() - e,
        {
            let entry = &stanza.entries[e];
            merge_entry(dict, place, entry, Ghost(sofar), Ghost(last));
            proof {
                assert(entry@ == whole.settings[e as int]);
                assert(whole.settings.take(e + 1) =~= last.settings.push(entry@));
                last = Section { name: whole.name, settings: last.settings.push(entry@) };
            }
            e += 1;
        }
        proof {
            assert(last.settings =~= whole.settings);
            assert(last == whole);
            assert(done@ + view.take(j + 1) =~= sofar.push(whole));
        }
        j += 1;
    }
    proof {
        assert(view.take(j as int) =~= view);
    }
}

/// A configuration file that has been read: its path, and its content, which is empty where it
/// could not be read.
pub struct ConfigSource {
    pub path: String,
    pub content: Arc<String>,
}

/// The contents of the files.
pub open spec fn contents_of(files: Seq<ConfigSource>) -> Seq<Seq<char>> {
    files.map_values(|f: ConfigSource| f.content@)
}

/// Merge the configuration of multiple files.
///
/// Earlier files in the list take precedence over later ones, and so do earlier entries of one
/// file. The stanza `default` is always there.
pub fn read_configs(processor: &ConfigProcessor, files: &Vec<ConfigSource>) -> (dict: Dictionary)
    requires
        processor.wf(),
    ensures
        merges(dict, all_sections(contents_of(files@), processor.limit())),
{
    let mut dict: Dictionary = StringMap::new();
    let ghost contents = contents_of(files@);
    let ghost limit = processor.limit();
    proof {
        reveal_strlit("default");
        assert("default"@ =~= default_name());
    }
    dict.push("default".to_string(), StringMap::new());
    let mut i: usize = 0;
    proof {
        assert(contents.take(0) =~= Seq::empty());
        let none = Seq::<Section>::empty();
        assert(all_sections(contents.take(0), limit) =~= none);
        assert forall|n: Seq<char>| !has_stanza(none, n) by {}
    }
    while i < files.len()
        invariant
            i <= files@.len(),
            processor.wf(),
            limit == processor.limit(),
            contents == contents_of(files@),
            merges(dict, all_sections(contents.take(i as int), limit)),
        decreases files@.len() - i,
    {
        let file = &files[i];
        let doc = parse_config(processor, file.content.as_str(), file.path.as_str());
        merge_doc(&mut dict, &doc, Ghost(all_sections(contents.take(i as int), limit)));
        proof {
            assert(contents.take(i + 1).drop_last() =~= contents.take(i as int));
            assert(contents.take(i + 1).last() == file.content@);
        }
        i += 1;
    }
    proof {
        assert(contents.take(i as int) =~= contents);
    }
    dict
}

/// Convenience wrapper for reading configuration files: the same as [`read_configs`].
pub fn read_configs_default(processor: &ConfigProcessor, files: &Vec<ConfigSource>) -> (dict:
    Dictionary)
    requires
        processor.wf(),
    ensures
        merges(dict, all_sections(contents_of(files@), processor.limit())),
{
    read_configs(processor, files)
}

} // verus!
