//! A cache of file contents, bounded by their size, that drops what was used least recently.
use std::sync::Arc;
use vstd::hash_map::StringHashMap;
use vstd::prelude::*;

use crate::text::{byte_len, byte_size, parse_usize, usize_value};

verus! {

/// One mebibyte.
pub const MB: usize = 1048576;

/// The size of a cache that nothing configures, in mebibytes.
pub const DEFAULT_CACHE_SIZE_MB: usize = 50;

/// The smallest size that can be configured, in mebibytes.
pub const MIN_CACHE_SIZE_MB: usize = 1;

/// The largest size that can be configured, in mebibytes.
pub const MAX_CACHE_SIZE_MB: usize = 1024;

// ===== What a cache holds =====

/// A key with its content.
pub struct Cached {
    pub key: Seq<char>,
    pub content: Seq<char>,
}

/// The number of bytes that all contents have together.
pub open spec fn total_bytes(held: Seq<Cached>) -> nat
    decreases held.len(),
{
    if held.len() == 0 {
        0
    } else {
        total_bytes(held.drop_last()) + byte_size(held.last().content)
    }
}

/// Whether no two contents have the same key.
pub open spec fn keys_differ(held: Seq<Cached>) -> bool {
    forall|i: int, j: int|
        0 <= i < held.len() && 0 <= j < held.len() && i != j ==> (#[trigger] held[i]).key != (
        #[trigger] held[j]).key
}

/// Whether the key is held.
pub open spec fn holds_key(held: Seq<Cached>, key: Seq<char>) -> bool {
    exists|i: int| 0 <= i < held.len() && (#[trigger] held[i]).key == key
}

/// The place of the key among what is held.
pub open spec fn place_of(held: Seq<Cached>, key: Seq<char>) -> int {
    choose|i: int| 0 <= i < held.len() && (#[trigger] held[i]).key == key
}

/// The content of the key, if it is held.
pub open spec fn content_of(held: Seq<Cached>, key: Seq<char>) -> Option<Seq<char>> {
    if holds_key(held, key) {
        Some(held[place_of(held, key)].content)
    } else {
        None
    }
}

/// What is held, without the key.
pub open spec fn without_key(held: Seq<Cached>, key: Seq<char>) -> Seq<Cached> {
    if holds_key(held, key) {
        held.remove(place_of(held, key))
    } else {
        held
    }
}

/// What is held once the key was used: its content comes first.
pub open spec fn used(held: Seq<Cached>, key: Seq<char>) -> Seq<Cached> {
    if holds_key(held, key) {
        seq![held[place_of(held, key)]] + without_key(held, key)
    } else {
        held
    }
}

/// What is left when contents are dropped from the end until the rest has at most `max` bytes.
pub open spec fn evicted(held: Seq<Cached>, max: nat) -> Seq<Cached>
    decreases held.len(),
{
    if held.len() == 0 || total_bytes(held) <= max {
        held
    } else {
        evicted(held.drop_last(), max)
    }
}

/// What is held after a content was stored: it comes first, in place of an earlier content of
/// the same key, and what no longer fits has gone.
pub open spec fn stored(held: Seq<Cached>, key: Seq<char>, content: Seq<char>, max: nat) -> Seq<
    Cached,
> {
    evicted(seq![Cached { key, content }] + without_key(held, key), max)
}

/// The size in bytes for a size in mebibytes, kept between the smallest and the largest.
pub open spec fn cache_bytes(mb: nat) -> nat {
    if mb < 1 {
        1048576
    } else if mb > 1024 {
        1073741824
    } else {
        mb * 1048576
    }
}

/// The size that a setting asks for: a positive number of mebibytes, or else the default.
pub open spec fn configured_bytes(setting: Option<Seq<char>>) -> nat {
    match setting {
        Some(text) => match usize_value(text) {
            Some(mb) => if mb > 0 {
                cache_bytes(mb as nat)
            } else {
                cache_bytes(50)
            },
            None => cache_bytes(50),
        },
        None => cache_bytes(50),
    }
}

/// Convert megabytes to bytes, clamped to what can be configured.
pub fn mb_to_bytes_safe(mb: usize) -> (r: usize)
    ensures
        r == cache_bytes(mb as nat),
{
    let clamped: usize = if mb < MIN_CACHE_SIZE_MB {
        MIN_CACHE_SIZE_MB
    } else if mb > MAX_CACHE_SIZE_MB {
        MAX_CACHE_SIZE_MB
    } else {
        mb
    };
    clamped * MB
}

// ===== The linked nodes =====

/// A content in the list of what was used, from the most to the least recent. `prev` and `next`
/// are places among the nodes.
#[derive(Debug)]
pub struct CacheNode {
    key: String,
    content: Arc<String>,
    prev: usize,
    next: usize,
}

impl CacheNode {
    /// A node that is linked to nothing yet.
    fn new(key: String, content: Arc<String>) -> (r: Self)
        ensures
            r.key == key,
            r.content == content,
    {
        CacheNode { key, content, prev: 0, next: 0 }
    }
}

/// The places in `ring` are different, and each node there points at its neighbours.
spec fn linked(nodes: Seq<CacheNode>, ring: Seq<usize>) -> bool {
    &&& ring.no_duplicates()
    &&& forall|i: int| 0 <= i < ring.len() ==> (#[trigger] ring[i]) < nodes.len()
    &&& forall|i: int, j: int|
        0 <= i && j == i + 1 && j < ring.len() ==> nodes[(#[trigger] ring[i]) as int].next
            == #[trigger] ring[j]
    &&& forall|i: int, j: int|
        0 <= i && j == i + 1 && j < ring.len() ==> nodes[(#[trigger] ring[j]) as int].prev
            == #[trigger] ring[i]
}

/// The nodes hold the same keys and contents as before.
spec fn same_data(a: Seq<CacheNode>, b: Seq<CacheNode>) -> bool {
    &&& a.len() == b.len()
    &&& forall|i: int|
        0 <= i < a.len() ==> (#[trigger] a[i]).key == b[i].key && a[i].content == b[i].content
}

/// Takes the node at a place out of the ring.
fn unlink(nodes: &mut Vec<CacheNode>, slot: usize, ring: Ghost<Seq<usize>>, at: Ghost<int>)
    requires
        linked(old(nodes)@, ring@),
        0 < at@ < ring@.len() - 1,
        ring@[at@] == slot,
    ensures
        linked(final(nodes)@, ring@.remove(at@)),
        same_data(final(nodes)@, old(nodes)@),
{
    let ghost before = nodes@;
    let ghost r = ring@;
    let ghost p = at@;
    assert(nodes@[r[p] as int].prev == r[p - 1]);
    assert(nodes@[r[p] as int].next == r[p + 1]);
    let prev = nodes[slot].prev;
    let next = nodes[slot].next;
    nodes[prev].next = next;
    nodes[next].prev = prev;
    proof {
        let q = r.remove(p);
        assert forall|i: int, j: int| 0 <= i < q.len() && 0 <= j < q.len() && i != j implies q[i]
            != q[j] by {
            let a = if i < p { i } else { i + 1 };
            let b = if j < p { j } else { j + 1 };
            assert(q[i] == r[a] && q[j] == r[b]);
        }
        assert forall|i: int| 0 <= i < q.len() implies (#[trigger] q[i]) < nodes@.len() by {
            let a = if i < p { i } else { i + 1 };
            assert(q[i] == r[a]);
        }
        assert forall|i: int, j: int| 0 <= i && j == i + 1 && j < q.len() implies nodes@[(
        #[trigger] q[i]) as int].next == #[trigger] q[j] by {
            let a = if i < p { i } else { i + 1 };
            let b = if j < p { j } else { j + 1 };
            assert(q[i] == r[a] && q[j] == r[b]);
            if i == p - 1 {
            } else {
                assert(before[r[a] as int].next == r[b]);
                assert(r[a] != r[p - 1]);
            }
        }
        assert forall|i: int, j: int| 0 <= i && j == i + 1 && j < q.len() implies nodes@[(
        #[trigger] q[j]) as int].prev == #[trigger] q[i] by {
            let a = if i < p { i } else { i + 1 };
            let b = if j < p { j } else { j + 1 };
            assert(q[i] == r[a] && q[j] == r[b]);
            if i == p - 1 {
            } else {
                assert(before[r[b] as int].prev == r[a]);
                assert(r[b] != r[p + 1]);
            }
        }
    }
}

/// Puts a node that is not in the ring right after the first.
fn add_front(nodes: &mut Vec<CacheNode>, slot: usize, ring: Ghost<Seq<usize>>)
    requires
        linked(old(nodes)@, ring@),
        ring@.len() >= 2,
        ring@[0] == 0,
        slot < old(nodes)@.len(),
        !ring@.contains(slot),
    ensures
        linked(final(nodes)@, ring@.insert(1, slot)),
        same_data(final(nodes)@, old(nodes)@),
{
    let ghost before = nodes@;
    let ghost r = ring@;
    assert(nodes@[r[0] as int].next == r[1]);
    assert(r[0] != slot && r[1] != slot);
    let head_next = nodes[0].next;
    nodes[slot].next = head_next;
    nodes[slot].prev = 0;
    nodes[head_next].prev = slot;
    nodes[0].next = slot;
    proof {
        let q = r.insert(1, slot);
        assert forall|i: int| 0 <= i < q.len() implies #[trigger] q[i] == (if i == 0 {
            r[0]
        } else if i == 1 {
            slot
        } else {
            r[i - 1]
        }) by {}
        assert forall|i: int, j: int| 0 <= i < q.len() && 0 <= j < q.len() && i != j implies q[i]
            != q[j] by {
            let a = if i == 0 { 0 } else { i - 1 };
            let b = if j == 0 { 0 } else { j - 1 };
            assert(r.contains(r[a]));
            assert(r.contains(r[b]));
        }
        assert forall|i: int, j: int| 0 <= i && j == i + 1 && j < q.len() implies nodes@[(
        #[trigger] q[i]) as int].next == #[trigger] q[j] by {
            if i >= 2 {
                assert(before[r[i - 1] as int].next == r[j - 1]);
                assert(r[i - 1] != r[0]);
                assert(r.contains(r[i - 1]));
            }
        }
        assert forall|i: int, j: int| 0 <= i && j == i + 1 && j < q.len() implies nodes@[(
        #[trigger] q[j]) as int].prev == #[trigger] q[i] by {
            if i >= 2 {
                assert(before[r[j - 1] as int].prev == r[i - 1]);
                assert(r[j - 1] != r[1]);
                assert(r.contains(r[j - 1]));
            }
        }
    }
}

// ===== The cache =====

/// A cache of contents by key. The nodes at places 0 and 1 are the two ends of the list and hold
/// nothing; a node that was taken out waits in `free` to be used again.
pub struct LRUCache {
    nodes: Vec<CacheNode>,
    free: Vec<usize>,
    map: StringHashMap<usize>,
    total_size: u128,
    max_size: usize,
    order: Ghost<Seq<usize>>,
}

spec fn held_at(nodes: Seq<CacheNode>, order: Seq<usize>) -> Seq<Cached> {
    Seq::new(
        order.len(),
        |i: int|
            Cached { key: nodes[order[i] as int].key@, content: nodes[order[i] as int].content@ },
    )
}

spec fn ring_of(order: Seq<usize>) -> Seq<usize> {
    seq![0usize] + order + seq![1usize]
}

spec fn mapped(map: Map<Seq<char>, usize>, order: Seq<usize>, held: Seq<Cached>) -> bool {
    &&& forall|i: int|
        0 <= i < held.len() ==> map.contains_key((#[trigger] held[i]).key) && map[held[i].key]
            == order[i]
    &&& forall|k: Seq<char>| #[trigger] map.contains_key(k) ==> holds_key(held, k)
}

proof fn total_is_monotone(held: Seq<Cached>, i: int)
    requires
        0 <= i <= held.len(),
    ensures
        total_bytes(held.take(i)) <= total_bytes(held),
    decreases held.len() - i,
{
    if i < held.len() {
        total_is_monotone(held, i + 1);
        assert(held.take(i + 1).drop_last() == held.take(i));
    } else {
        assert(held.take(i) == held);
    }
}

proof fn total_of_concat(a: Seq<Cached>, b: Seq<Cached>)
    ensures
        total_bytes(a + b) == total_bytes(a) + total_bytes(b),
    decreases b.len(),
{
    if b.len() == 0 {
        assert(a + b =~= a);
    } else {
        assert((a + b).drop_last() =~= a + b.drop_last());
        total_of_concat(a, b.drop_last());
    }
}

proof fn total_of_one(c: Cached)
    ensures
        total_bytes(seq![c]) == byte_size(c.content),
{
    assert(seq![c].drop_last() =~= Seq::empty());
    assert(total_bytes(seq![c].drop_last()) == 0);
}

proof fn total_of_removed(held: Seq<Cached>, p: int)
    requires
        0 <= p < held.len(),
    ensures
        total_bytes(held) == total_bytes(held.remove(p)) + byte_size(held[p].content),
{
    let a = held.take(p);
    let b = held.skip(p + 1);
    let one = seq![held[p]];
    assert(held =~= a + one + b);
    assert(held.remove(p) =~= a + b);
    total_of_concat(a + one, b);
    total_of_concat(a, one);
    total_of_concat(a, b);
    total_of_one(held[p]);
}

proof fn place_is_unique(held: Seq<Cached>, key: Seq<char>, i: int)
    requires
        keys_differ(held),
        0 <= i < held.len(),
        held[i].key == key,
    ensures
        holds_key(held, key),
        place_of(held, key) == i,
{
}

impl LRUCache {
    /// What is held, from the most to the least recently used.
    pub closed spec fn held(self) -> Seq<Cached> {
        held_at(self.nodes@, self.order@)
    }

    /// The number of bytes that may be held.
    pub closed spec fn max(self) -> nat {
        self.max_size as nat
    }

    spec fn inv(self) -> bool {
        &&& linked(self.nodes@, ring_of(self.order@))
        &&& self.free@.no_duplicates()
        &&& forall|i: int|
            0 <= i < self.free@.len() ==> 2 <= #[trigger] self.free@[i] < self.nodes@.len()
                && !self.order@.contains(self.free@[i])
        &&& mapped(self.map@, self.order@, self.held())
        &&& self.total_size == total_bytes(self.held())
    }

    /// The list, the index and the count agree, and what is held fits.
    pub closed spec fn wf(self) -> bool {
        &&& self.inv()
        &&& total_bytes(self.held()) <= self.max_size
    }

    proof fn inv_keys_differ(self)
        requires
            self.inv(),
        ensures
            keys_differ(self.held()),
            self.order@.no_duplicates(),
            forall|i: int|
                0 <= i < self.order@.len() ==> 2 <= #[trigger] self.order@[i] < self.nodes@.len(),
    {
        let r = ring_of(self.order@);
        let o = self.order@;
        assert forall|i: int| 0 <= i < o.len() implies 2 <= #[trigger] o[i] < self.nodes@.len() by {
            assert(r[i + 1] == o[i]);
            assert(r[0] == 0 && r[o.len() as int + 1] == 1);
        }
        assert forall|i: int, j: int| 0 <= i < o.len() && 0 <= j < o.len() && i != j implies o[i]
            != o[j] by {
            assert(r[i + 1] == o[i] && r[j + 1] == o[j]);
        }
        let h = self.held();
        assert forall|i: int, j: int| 0 <= i < h.len() && 0 <= j < h.len() && i != j implies (
        #[trigger] h[i]).key != (#[trigger] h[j]).key by {
            assert(o[i] != o[j]);
        }
    }

    /// What is held never has more bytes than it may, and no key twice.
    pub proof fn held_fits(self)
        requires
            self.wf(),
        ensures
            total_bytes(self.held()) <= self.max(),
            keys_differ(self.held()),
    {
        self.inv_keys_differ();
    }

    /// An empty cache. `setting` is what the environment says about its size in mebibytes.
    pub fn new(setting: Option<&str>) -> (r: Self)
        ensures
            r.wf(),
            r.held() == Seq::<Cached>::empty(),
            r.max() == configured_bytes(
                match setting {
                    Some(s) => Some(s@),
                    None => None,
                },
            ),
    {
        let mut max_size: usize = mb_to_bytes_safe(DEFAULT_CACHE_SIZE_MB);
        match setting {
            Some(val) => match parse_usize(val) {
                Some(mb) => {
                    if mb > 0 {
                        max_size = mb_to_bytes_safe(mb);
                    }
                },
                None => {},
            },
            None => {},
        }
        let mut head = CacheNode::new(String::new(), Arc::new(String::new()));
        let mut tail = CacheNode::new(String::new(), Arc::new(String::new()));
        head.next = 1;
        tail.prev = 0;
        let mut nodes: Vec<CacheNode> = Vec::new();
        nodes.push(head);
        nodes.push(tail);
        let r = LRUCache {
            nodes,
            free: Vec::new(),
            map: StringHashMap::new(),
            total_size: 0,
            max_size,
            order: Ghost(Seq::empty()),
        };
        proof {
            assert(ring_of(r.order@) =~= seq![0usize, 1usize]);
            assert(r.held() =~= Seq::<Cached>::empty());
        }
        r
    }

    /// Moves a node to the front of the list.
    fn move_to_head(&mut self, slot: usize, at: Ghost<int>)
        requires
            old(self).inv(),
            0 <= at@ < old(self).order@.len(),
            old(self).order@[at@] == slot,
        ensures
            final(self).inv(),
            final(self).max_size == old(self).max_size,
            final(self).held() == seq![old(self).held()[at@]] + old(self).held().remove(at@),
            final(self).order@ == seq![slot] + old(self).order@.remove(at@),
            same_data(final(self).nodes@, old(self).nodes@),
    {
        let ghost before = *self;
        let ghost o = self.order@;
        let ghost p = at@;
        let ghost ring = ring_of(o);
        proof {
            self.inv_keys_differ();
            assert(ring[p + 1] == slot);
        }
        unlink(&mut self.nodes, slot, Ghost(ring), Ghost(p + 1));
        let ghost cut = ring.remove(p + 1);
        proof {
            if cut.contains(slot) {
                let i = choose|i: int| 0 <= i < cut.len() && cut[i] == slot;
                let a = if i < p + 1 { i } else { i + 1 };
                assert(ring[a] == slot);
            }
            assert(cut[0] == 0);
        }
        add_front(&mut self.nodes, slot, Ghost(cut));
        proof {
            let q = seq![slot] + o.remove(p);
            assert(cut.insert(1, slot) =~= ring_of(q));
            self.order = Ghost(q);
            let h = before.held();
            let want = seq![h[p]] + h.remove(p);
            assert forall|i: int| 0 <= i < q.len() implies self.held()[i] == want[i] by {
                let a = if i == 0 { p } else if i - 1 < p { i - 1 } else { i };
                assert(q[i] == o[a]);
                assert(want[i] == h[a]);
                assert(self.nodes@[q[i] as int].key == before.nodes@[q[i] as int].key);
            }
            assert(self.held() =~= want);
            total_of_removed(h, p);
            total_of_one(h[p]);
            total_of_concat(seq![h[p]], h.remove(p));
            assert forall|i: int| 0 <= i < want.len() implies self.map@.contains_key(
                (#[trigger] want[i]).key,
            ) && self.map@[want[i].key] == q[i] by {
                let a = if i == 0 { p } else if i - 1 < p { i - 1 } else { i };
                assert(q[i] == o[a]);
                assert(want[i] == h[a]);
            }
            assert forall|k: Seq<char>| #[trigger] self.map@.contains_key(k) implies holds_key(
                want,
                k,
            ) by {
                let a = choose|a: int| 0 <= a < h.len() && (#[trigger] h[a]).key == k;
                let i = if a == p { 0 } else if a < p { a + 1 } else { a };
                assert(want[i] == h[a]);
            }
            assert forall|i: int| 0 <= i < self.free@.len() implies 2 <= #[trigger] self.free@[i]
                < self.nodes@.len() && !q.contains(self.free@[i]) by {
                let f = self.free@[i];
                if q.contains(f) {
                    let b = choose|b: int| 0 <= b < q.len() && q[b] == f;
                    let a = if b == 0 { p } else if b - 1 < p { b - 1 } else { b };
                    assert(o[a] == f);
                }
            }
        }
    }

    /// Takes a node out of the list, the index and the count.
    fn take_out(&mut self, slot: usize, at: Ghost<int>) -> (r: CacheNode)
        requires
            old(self).inv(),
            0 <= at@ < old(self).order@.len(),
            old(self).order@[at@] == slot,
        ensures
            final(self).inv(),
            final(self).max_size == old(self).max_size,
            final(self).held() == old(self).held().remove(at@),
            r.key@ == old(self).held()[at@].key,
            r.content@ == old(self).held()[at@].content,
    {
        let ghost before = *self;
        let ghost o = self.order@;
        let ghost p = at@;
        let ghost ring = ring_of(o);
        let ghost h = self.held();
        proof {
            self.inv_keys_differ();
            assert(ring[p + 1] == slot);
            total_of_removed(h, p);
        }
        unlink(&mut self.nodes, slot, Ghost(ring), Ghost(p + 1));
        let ghost mid = self.nodes@;
        self.nodes.push(CacheNode::new(String::new(), Arc::new(String::new())));
        let node = self.nodes.swap_remove(slot);
        assert(node == mid[slot as int]);
        assert(node.key == before.nodes@[slot as int].key);
        self.map.remove(node.key.as_str());
        let size = byte_len(node.content.as_str());
        self.total_size = self.total_size - size as u128;
        self.free.push(slot);
        proof {
            let q = o.remove(p);
            let cut = ring.remove(p + 1);
            assert(cut =~= ring_of(q));
            self.order = Ghost(q);
            assert forall|i: int| 0 <= i < cut.len() implies cut[i] != slot by {
                let a = if i < p + 1 { i } else { i + 1 };
                assert(cut[i] == ring[a]);
            }
            assert forall|i: int| 0 <= i < self.nodes@.len() && i != slot implies self.nodes@[i]
                == mid[i] by {}
            assert(linked(self.nodes@, cut));
            let want = h.remove(p);
            assert forall|i: int| 0 <= i < q.len() implies self.held()[i] == want[i] by {
                let a = if i < p { i } else { i + 1 };
                assert(q[i] == o[a]);
                assert(want[i] == h[a]);
                assert(cut[i + 1] == q[i]);
                assert(self.nodes@[q[i] as int].key == before.nodes@[q[i] as int].key);
            }
            assert(self.held() =~= want);
            assert forall|i: int| 0 <= i < want.len() implies self.map@.contains_key(
                (#[trigger] want[i]).key,
            ) && self.map@[want[i].key] == q[i] by {
                let a = if i < p { i } else { i + 1 };
                assert(q[i] == o[a]);
                assert(want[i] == h[a]);
                assert(h[a].key != h[p].key);
            }
            assert forall|k: Seq<char>| #[trigger] self.map@.contains_key(k) implies holds_key(
                want,
                k,
            ) by {
                assert(before.map@.contains_key(k));
                let a = choose|a: int| 0 <= a < h.len() && (#[trigger] h[a]).key == k;
                let i = if a < p { a } else { a - 1 };
                assert(want[i] == h[a]);
            }
            assert forall|i: int| 0 <= i < self.free@.len() implies 2 <= #[trigger] self.free@[i]
                < self.nodes@.len() && !q.contains(self.free@[i]) by {
                let f = self.free@[i];
                if q.contains(f) {
                    let b = choose|b: int| 0 <= b < q.len() && q[b] == f;
                    let a = if b < p { b } else { b + 1 };
                    assert(o[a] == f);
                    if i < before.free@.len() {
                        assert(before.free@[i] == f);
                    }
                }
            }
            assert forall|i: int, j: int|
                0 <= i < self.free@.len() && 0 <= j < self.free@.len() && i != j implies self.free@[i]
                != self.free@[j] by {
                assert(o.contains(o[p]));
                if i < before.free@.len() {
                    assert(self.free@[i] == before.free@[i]);
                }
                if j < before.free@.len() {
                    assert(self.free@[j] == before.free@[j]);
                }
            }
        }
        node
    }

    /// Takes out what was used least recently.
    fn remove_last(&mut self) -> (r: Option<CacheNode>)
        requires
            old(self).inv(),
        ensures
            final(self).inv(),
            final(self).max_size == old(self).max_size,
            match r {
                Some(node) => {
                    &&& old(self).held().len() > 0
                    &&& node.key@ == old(self).held().last().key
                    &&& node.content@ == old(self).held().last().content
                    &&& final(self).held() == old(self).held().drop_last()
                },
                None => old(self).held().len() == 0 && *final(self) == *old(self),
            },
    {
        let ghost o = self.order@;
        let ghost ring = ring_of(o);
        proof {
            self.inv_keys_differ();
            assert(ring[0] == 0 && ring[o.len() as int + 1] == 1);
            assert(self.nodes@[ring[o.len() as int + 1] as int].prev == ring[o.len() as int]);
        }
        let tail_prev = self.nodes[1].prev;
        if tail_prev == 0 {
            proof {
                if o.len() > 0 {
                    assert(ring[o.len() as int] == o[o.len() - 1]);
                }
            }
            return None;
        }
        proof {
            assert(o.len() > 0);
            assert(ring[o.len() as int] == o[o.len() - 1]);
            assert(self.held().remove(o.len() - 1) =~= self.held().drop_last());
        }
        Some(self.take_out(tail_prev, Ghost(o.len() - 1)))
    }

    /// Drops what was used least recently until the rest fits.
    fn evict(&mut self)
        requires
            old(self).inv(),
        ensures
            final(self).wf(),
            final(self).max_size == old(self).max_size,
            final(self).held() == evicted(old(self).held(), old(self).max_size as nat),
    {
        let ghost start = self.held();
        while self.total_size > self.max_size as u128 && !self.map.is_empty()
            invariant
                self.inv(),
                self.max_size == old(self).max_size,
                evicted(self.held(), self.max_size as nat) == evicted(start, self.max_size as nat),
            decreases self.held().len(),
        {
            let ghost now = self.held();
            match self.remove_last() {
                Some(_) => {},
                None => {
                    proof {
                        assert(now.len() == 0);
                        assert(total_bytes(now) == 0);
                    }
                },
            }
        }
        proof {
            if self.held().len() > 0 && self.total_size > self.max_size {
                assert(self.map@.contains_key(self.held()[0].key));
            }
        }
    }

    /// The content of a key, which is thereby used. Cloning the content is cheap.
    pub fn get(&mut self, key: &str) -> (r: Option<Arc<String>>)
        requires
            old(self).wf(),
        ensures
            final(self).wf(),
            final(self).max() == old(self).max(),
            final(self).held() == used(old(self).held(), key@),
            match r {
                Some(content) => content_of(old(self).held(), key@) == Some(content@),
                None => content_of(old(self).held(), key@) is None,
            },
    {
        let ghost h = self.held();
        let found: Option<usize> = match self.map.get(key) {
            Some(slot) => Some(*slot),
            None => None,
        };
        match found {
            None => {
                proof {
                    if holds_key(h, key@) {
                        let i = choose|i: int| 0 <= i < h.len() && (#[trigger] h[i]).key == key@;
                        assert(self.map@.contains_key(h[i].key));
                    }
                }
                None
            },
            Some(slot) => {
                let ghost p = place_of(h, key@);
                proof {
                    self.inv_keys_differ();
                    assert(holds_key(h, key@));
                    assert(h[p].key == key@);
                    assert(self.order@[p] == slot);
                }
                let content = Arc::clone(&self.nodes[slot].content);
                proof {
                    total_of_removed(h, p);
                    total_of_one(h[p]);
                    total_of_concat(seq![h[p]], h.remove(p));
                }
                self.move_to_head(slot, Ghost(p));
                Some(content)
            },
        }
    }

    /// Stores a content. It takes the place of an earlier content of the same key, and what no
    /// longer fits is dropped, starting with what was used least recently.
    pub fn insert(&mut self, key: String, content: Arc<String>)
        requires
            old(self).wf(),
        ensures
            final(self).wf(),
            final(self).max() == old(self).max(),
            final(self).held() == stored(old(self).held(), key@, content@, old(self).max()),
    {
        let ghost h = self.held();
        let ghost rest = without_key(h, key@);
        let found: Option<usize> = match self.map.get(key.as_str()) {
            Some(slot) => Some(*slot),
            None => None,
        };
        match found {
            None => {
                proof {
                    if holds_key(h, key@) {
                        let i = choose|i: int| 0 <= i < h.len() && (#[trigger] h[i]).key == key@;
                        assert(self.map@.contains_key(h[i].key));
                    }
                }
            },
            Some(slot) => {
                let ghost p = place_of(h, key@);
                proof {
                    self.inv_keys_differ();
                    assert(holds_key(h, key@));
                    assert(h[p].key == key@);
                    assert(self.order@[p] == slot);
                    total_of_removed(h, p);
                }
                let _ = self.take_out(slot, Ghost(p));
            },
        }
        proof {
            assert(self.held() == rest);
            self.inv_keys_differ();
            assert(!self.map@.contains_key(key@)) by {
                if self.map@.contains_key(key@) {
                    let i = choose|i: int| 0 <= i < rest.len() && (#[trigger] rest[i]).key == key@;
                    let p = place_of(h, key@);
                    if holds_key(h, key@) {
                        let a = if i < p { i } else { i + 1 };
                        assert(rest[i] == h[a]);
                        old(self).inv_keys_differ();
                        assert(h[a].key != h[p].key);
                    }
                }
            }
        }
        self.push_front(key, content);
        self.evict();
    }

    /// Puts a content of a new key in front.
    #[verifier::spinoff_prover]
    fn push_front(&mut self, key: String, content: Arc<String>)
        requires
            old(self).inv(),
            !old(self).map@.contains_key(key@),
            total_bytes(old(self).held()) <= usize::MAX,
        ensures
            final(self).inv(),
            final(self).max_size == old(self).max_size,
            final(self).held() == seq![Cached { key: key@, content: content@ }] + old(self).held(),
    {
        let ghost rest = self.held();
        let content_len = byte_len(content.as_str());
        let ghost new_key = key@;
        let ghost new_content = content@;
        let index_key = key.clone();
        let node = CacheNode::new(key, content);
        let ghost before = *self;
        self.total_size = self.total_size + content_len as u128;
        let slot: usize = match self.free.pop() {
            Some(slot) => {
                self.nodes[slot] = node;
                slot
            },
            None => {
                self.nodes.push(node);
                self.nodes.len() - 1
            },
        };
        let ghost o = before.order@;
        let ghost ring = ring_of(o);
        proof {
            before.inv_keys_differ();
            assert(ring[0] == 0 && ring[ring.len() - 1] == 1);
            assert(before.nodes@.len() >= 2);
            assert(slot >= 2 && !o.contains(slot)) by {
                if before.free@.len() > 0 {
                    assert(before.free@[before.free@.len() - 1] == slot);
                } else if o.contains(slot) {
                    let i = choose|i: int| 0 <= i < o.len() && o[i] == slot;
                    assert(o[i] < before.nodes@.len());
                }
            }
            assert forall|i: int| 0 <= i < ring.len() implies #[trigger] ring[i] != slot && ring[i]
                < before.nodes@.len() by {
                if 0 < i < ring.len() - 1 {
                    assert(ring[i] == o[i - 1]);
                    assert(o.contains(o[i - 1]));
                }
            }
            assert forall|i: int| 0 <= i < before.nodes@.len() && i != slot implies self.nodes@[i]
                == before.nodes@[i] by {}
            assert(linked(self.nodes@, ring));
            assert(!ring.contains(slot));
        }
        self.map.insert(index_key, slot);
        let ghost mid = self.nodes@;
        add_front(&mut self.nodes, slot, Ghost(ring));
        proof {
            let q = seq![slot] + o;
            assert(ring.insert(1, slot) =~= ring_of(q));
            self.order = Ghost(q);
            let one = Cached { key: new_key, content: new_content };
            let want = seq![one] + rest;
            assert forall|i: int| 0 <= i < q.len() implies self.held()[i] == want[i] by {
                assert(self.nodes@[q[i] as int].key == mid[q[i] as int].key);
                if i > 0 {
                    assert(q[i] == o[i - 1]);
                    assert(ring[i] == q[i]);
                    assert(want[i] == rest[i - 1]);
                }
            }
            assert(self.held() =~= want);
            total_of_one(one);
            total_of_concat(seq![one], rest);
            assert forall|i: int| 0 <= i < want.len() implies self.map@.contains_key(
                (#[trigger] want[i]).key,
            ) && self.map@[want[i].key] == q[i] by {
                if i > 0 {
                    assert(want[i] == rest[i - 1]);
                    assert(before.map@.contains_key(rest[i - 1].key));
                }
            }
            assert forall|k: Seq<char>| #[trigger] self.map@.contains_key(k) implies holds_key(
                want,
                k,
            ) by {
                if k == new_key {
                    assert(want[0].key == k);
                } else {
                    assert(before.map@.contains_key(k));
                    let a = choose|a: int| 0 <= a < rest.len() && (#[trigger] rest[a]).key == k;
                    assert(want[a + 1] == rest[a]);
                }
            }
            assert forall|i: int| 0 <= i < self.free@.len() implies 2 <= #[trigger] self.free@[i]
                < self.nodes@.len() && !q.contains(self.free@[i]) by {
                let f = self.free@[i];
                assert(f == before.free@[i]);
                if q.contains(f) {
                    let b = choose|b: int| 0 <= b < q.len() && q[b] == f;
                    if b > 0 {
                        assert(o[b - 1] == f);
                    } else {
                        assert(before.free@[before.free@.len() - 1] == slot);
                    }
                }
            }
        }
    }

    /// Drops everything.
    pub fn clear(&mut self)
        requires
            old(self).wf(),
        ensures
            final(self).wf(),
            final(self).held() == Seq::<Cached>::empty(),
            final(self).max() == old(self).max(),
    {
        loop
            invariant
                self.inv(),
                self.max_size == old(self).max_size,
                total_bytes(self.held()) <= self.max_size,
            ensures
                self.inv(),
                self.max_size == old(self).max_size,
                self.held().len() == 0,
            decreases self.held().len(),
        {
            match self.remove_last() {
                Some(_) => {},
                None => {
                    break ;
                },
            }
        }
        proof {
            assert(self.held() =~= Seq::<Cached>::empty());
        }
    }

    /// Changes how many mebibytes may be held, and drops what no longer fits. Zero changes
    /// nothing.
    pub fn resize(&mut self, mb: usize)
        requires
            old(self).wf(),
        ensures
            final(self).wf(),
            mb == 0 ==> *final(self) == *old(self),
            mb > 0 ==> final(self).max() == cache_bytes(mb as nat) && final(self).held() == evicted(
                old(self).held(),
                cache_bytes(mb as nat),
            ),
    {
        if mb == 0 {
            return ;
        }
        self.max_size = mb_to_bytes_safe(mb);
        self.evict();
    }

    /// The number of bytes held.
    pub fn size(&self) -> (r: usize)
        requires
            self.wf(),
        ensures
            r == total_bytes(self.held()),
    {
        self.total_size as usize
    }

    /// The number of bytes that may be held.
    pub fn max_size(&self) -> (r: usize)
        ensures
            r == self.max(),
    {
        self.max_size
    }
}

// ===== Laws =====

/// Eviction keeps the most recently used contents, fits them into the limit, and drops none that
/// could have stayed.
pub proof fn eviction_keeps_the_most_recent(held: Seq<Cached>, max: nat)
    ensures
        ({
            let left = evicted(held, max);
            &&& left.len() <= held.len()
            &&& left == held.take(left.len() as int)
            &&& total_bytes(left) <= max
            &&& left.len() < held.len() ==> total_bytes(held.take(left.len() as int + 1)) > max
        }),
    decreases held.len(),
{
    if held.len() == 0 || total_bytes(held) <= max {
        assert(held.take(held.len() as int) == held);
    } else {
        let shorter = held.drop_last();
        eviction_keeps_the_most_recent(shorter, max);
        let left = evicted(held, max);
        assert(held.take(left.len() as int) =~= shorter.take(left.len() as int));
        if left.len() + 1 < held.len() {
            assert(held.take(left.len() as int + 1) =~= shorter.take(left.len() as int + 1));
        } else {
            assert(held.take(left.len() as int + 1) =~= held);
        }
    }
}

/// A content that fits is found again under its key, in first place, after it was stored.
pub proof fn stored_content_is_found(held: Seq<Cached>, key: Seq<char>, content: Seq<char>, max: nat)
    requires
        keys_differ(held),
        byte_size(content) <= max,
    ensures
        stored(held, key, content, max).len() > 0,
        stored(held, key, content, max)[0] == (Cached { key, content }),
        content_of(stored(held, key, content, max), key) == Some(content),
{
    let one = Cached { key, content };
    let all = seq![one] + without_key(held, key);
    let left = stored(held, key, content, max);
    eviction_keeps_the_most_recent(all, max);
    if left.len() == 0 {
        assert(all.take(1) =~= seq![one]);
        total_of_one(one);
    }
    assert(left[0] == all[0]);
    stored_keys_differ(held, key, content, max);
    place_is_unique(left, key, 0);
}

/// A content that is larger than the whole cache leaves it empty.
pub proof fn oversized_content_empties_the_cache(
    held: Seq<Cached>,
    key: Seq<char>,
    content: Seq<char>,
    max: nat,
)
    requires
        byte_size(content) > max,
    ensures
        stored(held, key, content, max).len() == 0,
{
    let one = Cached { key, content };
    let all = seq![one] + without_key(held, key);
    let left = stored(held, key, content, max);
    eviction_keeps_the_most_recent(all, max);
    if left.len() > 0 {
        assert(left.take(1) =~= seq![one]);
        total_of_one(one);
        total_is_monotone(left, 1);
    }
}

/// Storing keeps the keys different.
pub proof fn stored_keys_differ(held: Seq<Cached>, key: Seq<char>, content: Seq<char>, max: nat)
    requires
        keys_differ(held),
    ensures
        keys_differ(stored(held, key, content, max)),
{
    let one = Cached { key, content };
    let rest = without_key(held, key);
    let all = seq![one] + rest;
    let p = place_of(held, key);
    assert forall|i: int| 0 <= i < rest.len() implies (#[trigger] rest[i]).key != key by {
        if holds_key(held, key) {
            let a = if i < p { i } else { i + 1 };
            assert(rest[i] == held[a]);
            assert(held[p].key == key);
        }
    }
    assert forall|i: int, j: int| 0 <= i < rest.len() && 0 <= j < rest.len() && i != j implies (
    #[trigger] rest[i]).key != (#[trigger] rest[j]).key by {
        if holds_key(held, key) {
            let a = if i < p { i } else { i + 1 };
            let b = if j < p { j } else { j + 1 };
            assert(rest[i] == held[a] && rest[j] == held[b]);
        }
    }
    assert forall|i: int, j: int| 0 <= i < all.len() && 0 <= j < all.len() && i != j implies (
    #[trigger] all[i]).key != (#[trigger] all[j]).key by {
        if i > 0 {
            assert(all[i] == rest[i - 1]);
        }
        if j > 0 {
            assert(all[j] == rest[j - 1]);
        }
    }
    eviction_keeps_the_most_recent(all, max);
    let left = stored(held, key, content, max);
    assert forall|i: int, j: int| 0 <= i < left.len() && 0 <= j < left.len() && i != j implies (
    #[trigger] left[i]).key != (#[trigger] left[j]).key by {
        assert(left[i] == all[i] && left[j] == all[j]);
    }
}

/// Using a key changes no content: every key has the content it had.
pub proof fn using_a_key_keeps_every_content(held: Seq<Cached>, key: Seq<char>, other: Seq<char>)
    requires
        keys_differ(held),
    ensures
        keys_differ(used(held, key)),
        total_bytes(used(held, key)) == total_bytes(held),
        content_of(used(held, key), other) == content_of(held, other),
        holds_key(held, key) ==> used(held, key)[0].key == key,
{
    if holds_key(held, key) {
        let p = place_of(held, key);
        let rest = held.remove(p);
        let now = used(held, key);
        assert(now =~= seq![held[p]] + rest);
        total_of_removed(held, p);
        total_of_one(held[p]);
        total_of_concat(seq![held[p]], rest);
        assert forall|i: int| 0 <= i < now.len() implies #[trigger] now[i] == held[moved_from(i, p)] by {}
        assert forall|i: int, j: int| 0 <= i < now.len() && 0 <= j < now.len() && i != j implies (
        #[trigger] now[i]).key != (#[trigger] now[j]).key by {
            assert(moved_from(i, p) != moved_from(j, p));
        }
        if holds_key(held, other) {
            let a = place_of(held, other);
            let i = if a == p { 0 } else if a < p { a + 1 } else { a };
            assert(now[i] == held[a]);
            place_is_unique(now, other, i);
        } else if holds_key(now, other) {
            let i = place_of(now, other);
            assert(now[i] == held[moved_from(i, p)]);
        }
    }
}

/// The place from which a content came to place `i` when place `p` was moved to the front.
spec fn moved_from(i: int, p: int) -> int {
    if i == 0 {
        p
    } else if i - 1 < p {
        i - 1
    } else {
        i
    }
}

} // verus!
