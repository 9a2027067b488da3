//! What holds of the cache, told by the contents it holds and the order in which they were used.
use vstd::prelude::*;

use crate::lru_cache::{
    cache_bytes, configured_bytes, content_of, eviction_keeps_the_most_recent, holds_key, place_of,
    stored, total_bytes, used, without_key, Cached,
};
use crate::text::{byte_size, decimal, usize_value};
use crate::text_laws::numerals_read_back;

verus! {

/// Whether no key is held twice.
pub open spec fn are_different(held: Seq<Cached>) -> bool {
    forall|i: int, j: int|
        0 <= i < j < held.len() ==> (#[trigger] held[i]).key != (#[trigger] held[j]).key
}

/// Whether a key is nowhere.
pub open spec fn is_nowhere(held: Seq<Cached>, key: Seq<char>) -> bool {
    forall|i: int| 0 <= i < held.len() ==> (#[trigger] held[i]).key != key
}

/// What is held but for the content in a place.
pub open spec fn all_but(held: Seq<Cached>, i: int) -> Seq<Cached> {
    held.take(i) + held.skip(i + 1)
}

proof fn the_place_is_found(held: Seq<Cached>, i: int)
    requires
        are_different(held),
        0 <= i < held.len(),
    ensures
        holds_key(held, held[i].key),
        place_of(held, held[i].key) == i,
{
    let p = place_of(held, held[i].key);
    assert(holds_key(held, held[i].key));
    assert(0 <= p < held.len() && held[p].key == held[i].key);
    if p < i {
        assert(held[p].key != held[i].key);
    }
    if i < p {
        assert(held[i].key != held[p].key);
    }
}

/// A key that is held has the content that is held with it, in whatever place, and one that is
/// nowhere has none.
pub proof fn keys_have_their_content(held: Seq<Cached>, i: int, key: Seq<char>)
    requires
        are_different(held),
    ensures
        0 <= i < held.len() ==> content_of(held, held[i].key) == Some(held[i].content),
        is_nowhere(held, key) ==> content_of(held, key) is None,
{
    if 0 <= i < held.len() {
        the_place_is_found(held, i);
    }
}

/// Using a key brings its content to the front and leaves the others in their order; a key that is
/// nowhere changes nothing.
pub proof fn used_contents_come_first(held: Seq<Cached>, i: int, key: Seq<char>)
    requires
        are_different(held),
    ensures
        0 <= i < held.len() ==> used(held, held[i].key) == seq![held[i]] + all_but(held, i),
        is_nowhere(held, key) ==> used(held, key) == held,
{
    if 0 <= i < held.len() {
        the_place_is_found(held, i);
        assert(without_key(held, held[i].key) =~= all_but(held, i));
    }
}

/// Whether that is the longest beginning of what there is that fits.
pub open spec fn is_what_fits(left: Seq<Cached>, all: Seq<Cached>, max: nat) -> bool {
    &&& left.len() <= all.len()
    &&& left == all.take(left.len() as int)
    &&& total_bytes(left) <= max
    &&& forall|n: int|
        left.len() < n <= all.len() ==> total_bytes(#[trigger] all.take(n)) > max
}

proof fn totals_grow(all: Seq<Cached>, m: int, n: int)
    requires
        0 <= m <= n <= all.len(),
    ensures
        total_bytes(all.take(m)) <= total_bytes(all.take(n)),
    decreases n,
{
    if m < n {
        totals_grow(all, m, n - 1);
        assert(all.take(n).drop_last() =~= all.take(n - 1));
    }
}

proof fn what_is_left_fits(all: Seq<Cached>, max: nat)
    ensures
        is_what_fits(crate::lru_cache::evicted(all, max), all, max),
{
    let left = crate::lru_cache::evicted(all, max);
    eviction_keeps_the_most_recent(all, max);
    assert forall|n: int| left.len() < n <= all.len() implies total_bytes(#[trigger] all.take(n))
        > max by {
        totals_grow(all, left.len() as int + 1, n);
    }
}

/// A content that is stored comes first, in place of the one that its key had, and the others follow
/// in their order, as many as fit, the least recently used of them going first.
pub proof fn stored_contents_come_first(
    held: Seq<Cached>,
    i: int,
    key: Seq<char>,
    content: Seq<char>,
    max: nat,
)
    requires
        are_different(held),
    ensures
        0 <= i < held.len() ==> is_what_fits(
            stored(held, held[i].key, content, max),
            seq![Cached { key: held[i].key, content }] + all_but(held, i),
            max,
        ),
        is_nowhere(held, key) ==> is_what_fits(
            stored(held, key, content, max),
            seq![Cached { key, content }] + held,
            max,
        ),
{
    if 0 <= i < held.len() {
        the_place_is_found(held, i);
        assert(without_key(held, held[i].key) =~= all_but(held, i));
        what_is_left_fits(
            seq![Cached { key: held[i].key, content }] + all_but(held, i),
            max,
        );
    }
    what_is_left_fits(seq![Cached { key, content }] + held, max);
}

/// A smaller cache keeps the longest beginning that fits.
pub proof fn smaller_caches_keep_the_beginning(held: Seq<Cached>, max: nat)
    ensures
        is_what_fits(crate::lru_cache::evicted(held, max), held, max),
{
    what_is_left_fits(held, max);
}

/// A cache holds as many bytes as all its contents have together.
pub proof fn contents_add_up(held: Seq<Cached>, more: Cached)
    ensures
        total_bytes(Seq::empty()) == 0,
        total_bytes(held.push(more)) == total_bytes(held) + byte_size(more.content),
{
    assert(held.push(more).drop_last() =~= held);
}

/// A cache has a size of one mebibyte to 1024, and any number of them between; a greater number never
/// gives a smaller cache.
pub proof fn sizes_are_mebibytes(mb: nat, more: nat)
    ensures
        1 <= mb <= 1024 ==> cache_bytes(mb) == mb * 1024 * 1024,
        mb == 0 ==> cache_bytes(mb) == 1024 * 1024,
        mb >= 1024 ==> cache_bytes(mb) == 1024 * 1024 * 1024,
        cache_bytes(mb) <= cache_bytes(mb + more),
{
}

/// A setting that is a number other than zero is the size in mebibytes. No setting, zero, and a text
/// that is no number give fifty.
pub proof fn settings_give_the_size(mb: usize, text: Seq<char>)
    ensures
        mb > 0 ==> configured_bytes(Some(decimal(mb as nat))) == cache_bytes(mb as nat),
        configured_bytes(Some(decimal(0))) == 50 * 1024 * 1024,
        configured_bytes(None) == 50 * 1024 * 1024,
        usize_value(text) is None ==> configured_bytes(Some(text)) == 50 * 1024 * 1024,
{
    numerals_read_back(mb);
    numerals_read_back(0);
}

} // verus!
