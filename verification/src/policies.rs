//! Which entry has to go when the cache is full.

use crate::ids::packing_is_injective;
use crate::ids::CacheAdvice;
use crate::ids::CacheEntryID;
use crate::modes::LiquidCacheMode;
use std::collections::HashMap;
use std::collections::VecDeque;
use vstd::prelude::*;

verus! {

broadcast use vstd::std_specs::hash::group_hash_axioms;

/// Guides what the cache does with its entries when it is full.
pub trait CachePolicy {
    /// Whether the policy's records are consistent.
    spec fn wf(&self) -> bool;

    /// Says what to do so that `entry_id` can be cached.
    fn advise(&mut self, entry_id: &CacheEntryID, cache_mode: &LiquidCacheMode) -> (advice:
        CacheAdvice)
        requires
            old(self).wf(),
        ensures
            final(self).wf(),
    ;

    /// Takes note that an entry was inserted.
    fn notify_insert(&mut self, entry_id: &CacheEntryID)
        requires
            old(self).wf(),
        ensures
            final(self).wf(),
    {
    }

    /// Takes note that an entry was accessed.
    fn notify_access(&mut self, entry_id: &CacheEntryID)
        requires
            old(self).wf(),
        ensures
            final(self).wf(),
    {
    }
}

/// The advice of a policy that knows of no entry to evict.
pub open spec fn spec_fallback_advice(entry_id: CacheEntryID, cache_mode: LiquidCacheMode) -> CacheAdvice {
    if cache_mode == LiquidCacheMode::Arrow {
        CacheAdvice::Discard
    } else {
        CacheAdvice::TranscodeToDisk(entry_id)
    }
}

/// The advice of a policy that knows of no entry to evict.
pub fn fallback_advice(entry_id: &CacheEntryID, cache_mode: &LiquidCacheMode) -> (advice:
    CacheAdvice)
    ensures
        advice == spec_fallback_advice(*entry_id, *cache_mode),
        *cache_mode is Arrow ==> advice == CacheAdvice::Discard,
        *cache_mode is Liquid ==> advice == CacheAdvice::TranscodeToDisk(*entry_id),
{
    match cache_mode {
        LiquidCacheMode::Arrow => CacheAdvice::Discard,
        _ => CacheAdvice::TranscodeToDisk(*entry_id),
    }
}

/// First in, last out: the newest entry is evicted first.
#[derive(Debug)]
pub struct FiloPolicy {
    queue: VecDeque<CacheEntryID>,
}

impl View for FiloPolicy {
    type V = Seq<CacheEntryID>;

    /// The entries, the newest first.
    closed spec fn view(&self) -> Seq<CacheEntryID> {
        self.queue@
    }
}

impl Default for FiloPolicy {
    fn default() -> (policy: Self)
        ensures
            policy.wf(),
            policy@ == Seq::<CacheEntryID>::empty(),
    {
        FiloPolicy::new()
    }
}

impl FiloPolicy {
    /// A policy that knows no entries.
    pub fn new() -> (policy: Self)
        ensures
            policy.wf(),
            policy@ == Seq::<CacheEntryID>::empty(),
    {
        FiloPolicy { queue: VecDeque::new() }
    }

    fn add_entry(&mut self, entry_id: &CacheEntryID)
        ensures
            final(self)@ == seq![*entry_id] + old(self)@,
    {
        self.queue.push_front(*entry_id);
    }

    fn get_newest_entry(&mut self) -> (entry: Option<CacheEntryID>)
        ensures
            entry is None <==> old(self)@.len() == 0,
            entry is None ==> final(self)@ == old(self)@,
            entry is Some ==> entry->0 == old(self)@[0] && final(self)@ == old(self)@.skip(1),
    {
        let ghost before = self.queue@;
        let entry = self.queue.pop_front();
        assert(before.len() > 0 ==> before.subrange(1, before.len() as int) =~= before.skip(1));
        entry
    }
}

impl CachePolicy for FiloPolicy {
    open spec fn wf(&self) -> bool {
        true
    }

    fn advise(&mut self, entry_id: &CacheEntryID, cache_mode: &LiquidCacheMode) -> (advice:
        CacheAdvice)
        ensures
            old(self)@.len() > 0 ==> advice == CacheAdvice::Evict(old(self)@[0]) && final(self)@
                == old(self)@.skip(1),
            old(self)@.len() == 0 ==> advice == spec_fallback_advice(*entry_id, *cache_mode)
                && final(self)@ == old(self)@,
    {
        if let Some(newest_entry) = self.get_newest_entry() {
            return CacheAdvice::Evict(newest_entry);
        }
        fallback_advice(entry_id, cache_mode)
    }

    fn notify_insert(&mut self, entry_id: &CacheEntryID)
        ensures
            final(self)@ == seq![*entry_id] + old(self)@,
    {
        self.add_entry(entry_id);
    }

    fn notify_access(&mut self, entry_id: &CacheEntryID)
        ensures
            final(self)@ == old(self)@,
    {
    }
}

/// One place in the list of the least recently used policy.
#[derive(Debug)]
struct Node {
    entry_id: CacheEntryID,
    prev: Option<usize>,
    next: Option<usize>,
}

/// Least recently used: the entry that was touched the longest ago is evicted first.
///
/// The entries form a doubly linked list, the most recent one at the head; a map leads from an
/// entry to its place in the list. The nodes of the list lie in one vector and refer to each other
/// by index; the places of evicted entries are used again.
pub struct LruPolicy {
    nodes: Vec<Node>,
    free: Vec<usize>,
    map: HashMap<u64, usize>,
    head: Option<usize>,
    tail: Option<usize>,
    order: Ghost<Seq<usize>>,
}

/// Whether `nodes` links the places of `order` into a list, in that order.
spec fn linked(
    nodes: Seq<Node>,
    head: Option<usize>,
    tail: Option<usize>,
    order: Seq<usize>,
) -> bool {
    &&& order.no_duplicates()
    &&& forall|k: int| 0 <= k < order.len() ==> (#[trigger] order[k]) < nodes.len()
    &&& head == if order.len() == 0 {
        None::<usize>
    } else {
        Some(order[0])
    }
    &&& tail == if order.len() == 0 {
        None::<usize>
    } else {
        Some(order[order.len() - 1])
    }
    &&& forall|k: int|
        #![trigger nodes[order[k] as int]]
        0 <= k < order.len() ==> nodes[order[k] as int].prev == if k == 0 {
            None::<usize>
        } else {
            Some(order[k - 1])
        }
    &&& forall|k: int|
        #![trigger nodes[order[k] as int]]
        0 <= k < order.len() ==> nodes[order[k] as int].next == if k == order.len() - 1 {
            None::<usize>
        } else {
            Some(order[k + 1])
        }
}

/// Moving a place to the front keeps the places.
proof fn lemma_moved_to_front(order: Seq<usize>, k: int)
    requires
        0 <= k < order.len(),
    ensures
        forall|x: usize| #[trigger]
            (seq![order[k]] + order.remove(k)).contains(x) <==> order.contains(x),
{
    let o = seq![order[k]] + order.remove(k);
    assert forall|x: usize| #[trigger] o.contains(x) <==> order.contains(x) by {
        if o.contains(x) {
            let j = choose|j: int| 0 <= j < o.len() && o[j] == x;
            let i = if j == 0 {
                k
            } else if j <= k {
                j - 1
            } else {
                j
            };
            assert(order[i] == x);
        }
        if order.contains(x) {
            let j = choose|j: int| 0 <= j < order.len() && order[j] == x;
            let i = if j == k {
                0
            } else if j < k {
                j + 1
            } else {
                j
            };
            assert(o[i] == x);
        }
    }
}

/// The entries after one of them, or a new one, was touched.
pub open spec fn touched(entries: Seq<CacheEntryID>, entry_id: CacheEntryID) -> Seq<CacheEntryID> {
    seq![entry_id] + if entries.contains(entry_id) {
        entries.remove(entries.index_of(entry_id))
    } else {
        entries
    }
}

proof fn lemma_touched_place(entries: Seq<CacheEntryID>, k: int)
    requires
        0 <= k < entries.len(),
        entries.no_duplicates(),
    ensures
        touched(entries, entries[k]) == seq![entries[k]] + entries.remove(k),
{
    assert(entries.contains(entries[k]));
    assert(entries.index_of(entries[k]) == k);
}

proof fn lemma_entries_moved(after: Seq<Node>, before: Seq<Node>, order: Seq<usize>, k: int)
    requires
        0 <= k < order.len(),
        after.len() == before.len(),
        forall|i: int| 0 <= i < order.len() ==> (#[trigger] order[i]) < before.len(),
        forall|i: int|
            0 <= i < before.len() ==> (#[trigger] after[i]).entry_id == before[i].entry_id,
    ensures
        (seq![order[k]] + order.remove(k)).map_values(|i: usize| after[i as int].entry_id) == ({
            let entries = order.map_values(|i: usize| before[i as int].entry_id);
            seq![entries[k]] + entries.remove(k)
        }),
{
    let entries = order.map_values(|i: usize| before[i as int].entry_id);
    assert((seq![order[k]] + order.remove(k)).map_values(|i: usize| after[i as int].entry_id) =~= (
    seq![entries[k]] + entries.remove(k)));
}

impl View for LruPolicy {
    type V = Seq<CacheEntryID>;

    /// The entries, the most recently touched one first.
    closed spec fn view(&self) -> Seq<CacheEntryID> {
        self.order@.map_values(|i: usize| self.nodes@[i as int].entry_id)
    }
}

impl Default for LruPolicy {
    fn default() -> (policy: Self)
        ensures
            policy.wf(),
            policy@ == Seq::<CacheEntryID>::empty(),
    {
        LruPolicy::new()
    }
}

impl LruPolicy {
    /// A policy that knows no entries.
    pub fn new() -> (policy: Self)
        ensures
            policy.wf(),
            policy@ == Seq::<CacheEntryID>::empty(),
    {
        let policy = LruPolicy {
            nodes: Vec::new(),
            free: Vec::new(),
            map: HashMap::new(),
            head: None,
            tail: None,
            order: Ghost(Seq::empty()),
        };
        assert(policy@ =~= Seq::<CacheEntryID>::empty());
        policy
    }

    /// No entry is listed twice.
    pub proof fn lemma_distinct(&self)
        requires
            self.wf(),
        ensures
            self@.no_duplicates(),
    {
        let v = self@;
        assert forall|i: int, j: int| 0 <= i < v.len() && 0 <= j < v.len() && i != j implies v[i]
            != v[j] by {
            assert(self.map@[self.nodes@[self.order@[i] as int].entry_id.packed()]
                == self.order@[i]);
            assert(self.map@[self.nodes@[self.order@[j] as int].entry_id.packed()]
                == self.order@[j]);
        }
    }

    /// Takes the node at place `k` of the order out of the list.
    fn unlink_node(&mut self, node: usize, Ghost(k): Ghost<int>)
        requires
            linked(old(self).nodes@, old(self).head, old(self).tail, old(self).order@),
            0 <= k < old(self).order@.len(),
            old(self).order@[k] == node,
        ensures
            linked(final(self).nodes@, final(self).head, final(self).tail, final(self).order@),
            final(self).order@ == old(self).order@.remove(k),
            final(self).nodes@.len() == old(self).nodes@.len(),
            forall|i: int|
                0 <= i < old(self).nodes@.len() ==> (#[trigger] final(self).nodes@[i]).entry_id
                    == old(self).nodes@[i].entry_id,
            final(self).map == old(self).map,
            final(self).free == old(self).free,
    {
        let ghost order = self.order@;
        let ghost nodes = self.nodes@;
        assert(order[k] < nodes.len());
        let prev: Option<usize> = self.nodes[node].prev;
        let next: Option<usize> = self.nodes[node].next;
        match prev {
            Some(p) => {
                assert(p == order[k - 1]);
                let id = self.nodes[p].entry_id;
                let before: Option<usize> = self.nodes[p].prev;
                self.nodes.set(p, Node { entry_id: id, prev: before, next });
            },
            None => {
                self.head = next;
            },
        }
        match next {
            Some(n) => {
                assert(n == order[k + 1]);
                let id = self.nodes[n].entry_id;
                let after: Option<usize> = self.nodes[n].next;
                self.nodes.set(n, Node { entry_id: id, prev, next: after });
            },
            None => {
                self.tail = prev;
            },
        }
        let id = self.nodes[node].entry_id;
        self.nodes.set(node, Node { entry_id: id, prev: None, next: None });
        self.order = Ghost(order.remove(k));
        proof {
            let o = self.order@;
            assert forall|i: int, j: int| 0 <= i < o.len() && 0 <= j < o.len() && i != j implies o[i]
                != o[j] by {
                let a = if i < k { i } else { i + 1 };
                let b = if j < k { j } else { j + 1 };
                assert(o[i] == order[a] && o[j] == order[b]);
            }
            assert forall|j: int| #![trigger o[j]] 0 <= j < o.len() implies o[j] < nodes.len() by {
                let a = if j < k { j } else { j + 1 };
                assert(o[j] == order[a]);
            }
            assert forall|j: int| #![trigger self.nodes@[o[j] as int]] 0 <= j < o.len() implies self.nodes@[o[j] as int].prev == (if j == 0 {
                None::<usize>
            } else {
                Some(o[j - 1])
            }) && self.nodes@[o[j] as int].next == (if j == o.len() - 1 {
                None::<usize>
            } else {
                Some(o[j + 1])
            }) by {
                let a = if j < k { j } else { j + 1 };
                assert(o[j] == order[a]);
                assert(order[a] != order[k]);
                if k > 0 {
                    assert(a != k - 1 ==> order[a] != order[k - 1]);
                }
                if k + 1 < order.len() {
                    assert(a != k + 1 ==> order[a] != order[k + 1]);
                }
                if j > 0 {
                    let b = if j - 1 < k { j - 1 } else { j };
                    assert(o[j - 1] == order[b]);
                }
                if j + 1 < o.len() {
                    let b = if j + 1 < k { j + 1 } else { j + 2 };
                    assert(o[j + 1] == order[b]);
                }
            }
            if order.len() > 1 {
                if k == 0 {
                    assert(o[0] == order[1]);
                }
                if k == order.len() - 1 {
                    assert(o[o.len() - 1] == order[k - 1]);
                }
            }
        }
    }

    /// Puts a node that is not in the list at its head.
    fn push_front(&mut self, node: usize)
        requires
            linked(old(self).nodes@, old(self).head, old(self).tail, old(self).order@),
            node < old(self).nodes@.len(),
            !old(self).order@.contains(node),
        ensures
            linked(final(self).nodes@, final(self).head, final(self).tail, final(self).order@),
            final(self).order@ == seq![node] + old(self).order@,
            final(self).nodes@.len() == old(self).nodes@.len(),
            forall|i: int|
                0 <= i < old(self).nodes@.len() ==> (#[trigger] final(self).nodes@[i]).entry_id
                    == old(self).nodes@[i].entry_id,
            final(self).map == old(self).map,
            final(self).free == old(self).free,
    {
        let ghost order = self.order@;
        let ghost nodes = self.nodes@;
        let id = self.nodes[node].entry_id;
        self.nodes.set(node, Node { entry_id: id, prev: None, next: self.head });
        match self.head {
            Some(h) => {
                assert(h == order[0]);
                let id = self.nodes[h].entry_id;
                let after: Option<usize> = self.nodes[h].next;
                self.nodes.set(h, Node { entry_id: id, prev: Some(node), next: after });
            },
            None => {
                self.tail = Some(node);
            },
        }
        self.head = Some(node);
        self.order = Ghost(seq![node] + order);
        proof {
            let o = self.order@;
            assert forall|i: int, j: int| 0 <= i < o.len() && 0 <= j < o.len() && i != j implies o[i]
                != o[j] by {
                if i > 0 {
                    assert(o[i] == order[i - 1]);
                }
                if j > 0 {
                    assert(o[j] == order[j - 1]);
                }
            }
            assert forall|j: int| #![trigger o[j]] 0 <= j < o.len() implies o[j] < nodes.len() by {
                if j > 0 {
                    assert(o[j] == order[j - 1]);
                }
            }
            assert forall|j: int| #![trigger self.nodes@[o[j] as int]] 0 <= j < o.len() implies self.nodes@[o[j] as int].prev == (if j == 0 {
                None::<usize>
            } else {
                Some(o[j - 1])
            }) && self.nodes@[o[j] as int].next == (if j == o.len() - 1 {
                None::<usize>
            } else {
                Some(o[j + 1])
            }) by {
                if j > 0 {
                    assert(o[j] == order[j - 1]);
                    if j > 1 {
                        assert(o[j - 1] == order[j - 2]);
                        assert(order[j - 1] != order[0]);
                    }
                }
                if j + 1 < o.len() {
                    assert(o[j + 1] == order[j]);
                }
            }
            assert(order.len() > 0 ==> o[o.len() - 1] == order[order.len() - 1]);
        }
    }

    /// Moves an entry that is in the list to its head.
    fn touch(&mut self, entry_id: &CacheEntryID, node: usize)
        requires
            old(self).wf(),
            old(self).map@.contains_key(entry_id.packed()),
            old(self).map@[entry_id.packed()] == node,
        ensures
            final(self).wf(),
            old(self)@.contains(*entry_id),
            final(self)@ == touched(old(self)@, *entry_id),
    {
        let ghost before = *self;
        let ghost k = choose|k: int|
            0 <= k < self.order@.len() && self.nodes@[(#[trigger] self.order@[k]) as int].entry_id.packed()
                == entry_id.packed();
        proof {
            packing_is_injective(self.nodes@[self.order@[k] as int].entry_id, *entry_id);
            assert(self@[k] == *entry_id);
        }
        self.unlink_node(node, Ghost(k));
        proof {
            let o = self.order@;
            assert(!o.contains(node)) by {
                if o.contains(node) {
                    let j = choose|j: int| 0 <= j < o.len() && o[j] == node;
                    let a = if j < k { j } else { j + 1 };
                    assert(o[j] == before.order@[a]);
                }
            }
        }
        self.push_front(node);
        proof {
            self.lemma_touched(before, node, k, *entry_id);
        }
    }

    /// What moving the node at place `k` to the front does to the entries.
    proof fn lemma_touched(&self, before: LruPolicy, node: usize, k: int, entry_id: CacheEntryID)
        requires
            before.wf(),
            0 <= k < before.order@.len(),
            before.order@[k] == node,
            before@[k] == entry_id,
            linked(self.nodes@, self.head, self.tail, self.order@),
            self.order@ == seq![node] + before.order@.remove(k),
            self.map == before.map,
            self.free == before.free,
            self.nodes@.len() == before.nodes@.len(),
            forall|i: int|
                0 <= i < before.nodes@.len() ==> (#[trigger] self.nodes@[i]).entry_id
                    == before.nodes@[i].entry_id,
        ensures
            self.wf(),
            self@ == touched(before@, entry_id),
    {
        lemma_moved_to_front(before.order@, k);
        self.lemma_same_entries(before);
        before.lemma_distinct();
        lemma_touched_place(before@, k);
        lemma_entries_moved(self.nodes@, before.nodes@, before.order@, k);
    }

    /// What a new node at the front does to the entries.
    proof fn lemma_inserted(&self, before: LruPolicy, node: usize, entry_id: CacheEntryID)
        requires
            before.wf(),
            !before.map@.contains_key(entry_id.packed()),
            linked(self.nodes@, self.head, self.tail, self.order@),
            self.order@ == seq![node] + before.order@,
            self.map@ == before.map@.insert(entry_id.packed(), node),
            node < self.nodes@.len(),
            before.nodes@.len() <= self.nodes@.len(),
            self.nodes@[node as int].entry_id == entry_id,
            forall|i: int|
                0 <= i < before.order@.len() ==> self.nodes@[(
                #[trigger] before.order@[i]) as int].entry_id
                    == before.nodes@[before.order@[i] as int].entry_id,
            self.free@.len() <= before.free@.len(),
            forall|i: int|
                0 <= i < self.free@.len() ==> #[trigger] self.free@[i] == before.free@[i]
                    && self.free@[i] != node,
        ensures
            self.wf(),
            self@ == touched(before@, entry_id),
    {
        let o = self.order@;
        let p = before.order@;
        let key = entry_id.packed();
        assert forall|j: int| #![trigger o[j]] 0 <= j < o.len() implies self.map@.contains_key(
            self.nodes@[o[j] as int].entry_id.packed(),
        ) && self.map@[self.nodes@[o[j] as int].entry_id.packed()] == o[j] by {
            if j > 0 {
                assert(o[j] == p[j - 1]);
                assert(before.map@.contains_key(before.nodes@[p[j - 1] as int].entry_id.packed()));
            }
        }
        assert forall|q: u64| #[trigger] self.map@.contains_key(q) implies exists|j: int|
            0 <= j < o.len() && self.nodes@[(#[trigger] o[j]) as int].entry_id.packed() == q by {
            if q == key {
                assert(o[0] == node);
            } else {
                assert(before.map@.contains_key(q));
                let j = choose|j: int|
                    0 <= j < p.len() && before.nodes@[(#[trigger] p[j]) as int].entry_id.packed()
                        == q;
                assert(o[j + 1] == p[j]);
            }
        }
        assert forall|i: int| #![trigger self.free@[i]] 0 <= i
            < self.free@.len() implies self.free@[i] < self.nodes@.len() && !o.contains(
            self.free@[i],
        ) by {
            assert(before.free@[i] == self.free@[i]);
            if o.contains(self.free@[i]) {
                let j = choose|j: int| 0 <= j < o.len() && o[j] == self.free@[i];
                assert(p[j - 1] == before.free@[i]);
                assert(p.contains(before.free@[i]));
            }
        }
        assert(self.free@.no_duplicates());
        before.lemma_map_contains(entry_id);
        assert(self@ =~= touched(before@, entry_id)) by {
            assert forall|j: int| 0 <= j < self@.len() implies self@[j] == touched(
                before@,
                entry_id,
            )[j] by {
                if j > 0 {
                    assert(o[j] == p[j - 1]);
                }
            }
        }
    }

    /// The map stays right when the list holds the same places in another order.
    proof fn lemma_same_entries(&self, before: LruPolicy)
        requires
            before.wf(),
            linked(self.nodes@, self.head, self.tail, self.order@),
            self.map == before.map,
            self.free == before.free,
            self.nodes@.len() == before.nodes@.len(),
            forall|i: int|
                0 <= i < before.nodes@.len() ==> (#[trigger] self.nodes@[i]).entry_id
                    == before.nodes@[i].entry_id,
            forall|x: usize| #[trigger] self.order@.contains(x) <==> before.order@.contains(x),
        ensures
            self.wf(),
    {
        let o = self.order@;
        let p = before.order@;
        assert forall|j: int| #![trigger o[j]] 0 <= j < o.len() implies self.map@.contains_key(
            self.nodes@[o[j] as int].entry_id.packed(),
        ) && self.map@[self.nodes@[o[j] as int].entry_id.packed()] == o[j] by {
            assert(o.contains(o[j]));
            let i = choose|i: int| 0 <= i < p.len() && p[i] == o[j];
            assert(p[i] == o[j]);
        }
        assert forall|key: u64| #[trigger] self.map@.contains_key(key) implies exists|j: int|
            0 <= j < o.len() && self.nodes@[(#[trigger] o[j]) as int].entry_id.packed() == key by {
            let i = choose|i: int|
                0 <= i < p.len() && before.nodes@[(#[trigger] p[i]) as int].entry_id.packed() == key;
            assert(p.contains(p[i]));
            assert(o.contains(p[i]));
            let j = choose|j: int| 0 <= j < o.len() && o[j] == p[i];
            assert(self.nodes@[o[j] as int].entry_id.packed() == key);
        }
        assert forall|i: int| #![trigger self.free@[i]] 0 <= i < self.free@.len() implies !o.contains(
            self.free@[i],
        ) by {
            assert(o.contains(self.free@[i]) == p.contains(self.free@[i]));
        }
    }

    /// The number of entries.
    pub fn len(&self) -> (n: usize)
        requires
            self.wf(),
        ensures
            n == self@.len(),
    {
        proof {
            self.lemma_map_len();
        }
        self.map.len()
    }

    /// The map has one key for each entry of the list.
    proof fn lemma_map_len(&self)
        requires
            self.wf(),
        ensures
            self.map@.dom().finite(),
            self.map@.len() == self.order@.len(),
    {
        self.lemma_distinct();
        let keys = self@.map_values(|e: CacheEntryID| e.packed());
        assert(keys.no_duplicates()) by {
            assert forall|i: int, j: int| 0 <= i < keys.len() && 0 <= j < keys.len() && i
                != j implies keys[i] != keys[j] by {
                if keys[i] == keys[j] {
                    packing_is_injective(self@[i], self@[j]);
                }
            }
        }
        assert(self.map@.dom() =~= keys.to_set()) by {
            assert forall|key: u64| #[trigger] self.map@.dom().contains(key) implies keys.contains(
                key,
            ) by {
                assert(self.map@.contains_key(key));
                let j = choose|j: int|
                    0 <= j < self.order@.len()
                        && self.nodes@[(#[trigger] self.order@[j]) as int].entry_id.packed() == key;
                assert(keys[j] == key);
            }
            assert forall|key: u64| keys.contains(key) implies #[trigger] self.map@.dom().contains(
                key,
            ) by {
                let j = choose|j: int| 0 <= j < keys.len() && keys[j] == key;
                assert(self.nodes@[self.order@[j] as int].entry_id.packed() == key);
            }
        }
        keys.unique_seq_to_set();
        vstd::seq_lib::seq_to_set_is_finite(keys);
    }

    /// Whether the policy knows an entry.
    pub fn contains(&self, entry_id: &CacheEntryID) -> (known: bool)
        requires
            self.wf(),
        ensures
            known == self@.contains(*entry_id),
    {
        proof {
            self.lemma_map_contains(*entry_id);
        }
        self.map.contains_key(&entry_id.to_bits())
    }

    proof fn lemma_map_contains(&self, entry_id: CacheEntryID)
        requires
            self.wf(),
        ensures
            self.map@.contains_key(entry_id.packed()) <==> self@.contains(entry_id),
    {
        if self.map@.contains_key(entry_id.packed()) {
            let j = choose|j: int|
                0 <= j < self.order@.len()
                    && self.nodes@[(#[trigger] self.order@[j]) as int].entry_id.packed()
                    == entry_id.packed();
            packing_is_injective(self.nodes@[self.order@[j] as int].entry_id, entry_id);
            assert(self@[j] == entry_id);
        }
        if self@.contains(entry_id) {
            let j = choose|j: int| 0 <= j < self@.len() && self@[j] == entry_id;
            assert(self.nodes@[self.order@[j] as int].entry_id == entry_id);
        }
    }

    /// The entries, read from the head of the list to its tail: the most recent one first.
    pub fn entries(&self) -> (entries: Vec<CacheEntryID>)
        requires
            self.wf(),
        ensures
            entries@ == self@,
    {
        let mut entries: Vec<CacheEntryID> = Vec::new();
        let mut current: Option<usize> = self.head;
        while current.is_some()
            invariant
                self.wf(),
                entries@.len() <= self.order@.len(),
                entries@ == self@.take(entries@.len() as int),
                current == if entries@.len() == self.order@.len() {
                    None::<usize>
                } else {
                    Some(self.order@[entries@.len() as int])
                },
            decreases self.order@.len() - entries@.len(),
        {
            let node: usize = current.unwrap();
            let ghost k = entries@.len() as int;
            assert(self.order@[k] == node);
            entries.push(self.nodes[node].entry_id);
            assert(entries@ =~= self@.take(k + 1));
            current = self.nodes[node].next;
        }
        assert(self@.take(self@.len() as int) =~= self@);
        entries
    }

    /// The entries, read from the tail of the list to its head: the least recent one first.
    pub fn entries_reversed(&self) -> (entries: Vec<CacheEntryID>)
        requires
            self.wf(),
        ensures
            entries@ == self@.reverse(),
    {
        let mut entries: Vec<CacheEntryID> = Vec::new();
        let mut current: Option<usize> = self.tail;
        while current.is_some()
            invariant
                self.wf(),
                entries@.len() <= self.order@.len(),
                entries@ == self@.reverse().take(entries@.len() as int),
                current == if entries@.len() == self.order@.len() {
                    None::<usize>
                } else {
                    Some(self.order@[self.order@.len() - 1 - entries@.len()])
                },
            decreases self.order@.len() - entries@.len(),
        {
            let node: usize = current.unwrap();
            let ghost k = self.order@.len() - 1 - entries@.len();
            assert(self.order@[k] == node);
            entries.push(self.nodes[node].entry_id);
            assert(entries@ =~= self@.reverse().take(entries@.len() as int));
            current = self.nodes[node].prev;
        }
        assert(self@.reverse().take(self@.len() as int) =~= self@.reverse());
        entries
    }
}

impl CachePolicy for LruPolicy {
    closed spec fn wf(&self) -> bool {
        &&& linked(self.nodes@, self.head, self.tail, self.order@)
        &&& forall|k: int|
            #![trigger self.order@[k]]
            0 <= k < self.order@.len() ==> self.map@.contains_key(
                self.nodes@[self.order@[k] as int].entry_id.packed(),
            ) && self.map@[self.nodes@[self.order@[k] as int].entry_id.packed()] == self.order@[k]
        &&& forall|key: u64| #[trigger]
            self.map@.contains_key(key) ==> exists|k: int|
                0 <= k < self.order@.len()
                    && self.nodes@[(#[trigger] self.order@[k]) as int].entry_id.packed() == key
        &&& self.free@.no_duplicates()
        &&& forall|i: int|
            #![trigger self.free@[i]]
            0 <= i < self.free@.len() ==> self.free@[i] < self.nodes@.len()
                && !self.order@.contains(self.free@[i])
    }

    fn advise(&mut self, entry_id: &CacheEntryID, cache_mode: &LiquidCacheMode) -> (advice:
        CacheAdvice)
        ensures
            old(self)@.len() > 0 ==> advice == CacheAdvice::Evict(old(self)@.last())
                && final(self)@ == old(self)@.drop_last(),
            old(self)@.len() == 0 ==> advice == spec_fallback_advice(*entry_id, *cache_mode)
                && final(self)@ == old(self)@,
    {
        if let Some(tail) = self.tail {
            proof {
                self.lemma_distinct();
            }
            let ghost before = *self;
            let ghost v = self@;
            let ghost k = self.order@.len() - 1;
            assert(self.order@[k] == tail);
            let tail_entry_id = self.nodes[tail].entry_id;
            self.map.remove(&tail_entry_id.to_bits());
            self.unlink_node(tail, Ghost(k));
            self.free.push(tail);
            proof {
                let o = self.order@;
                let p = before.order@;
                assert(o =~= p.drop_last());
                assert(self@ =~= v.drop_last());
                assert forall|j: int| #![trigger o[j]] 0 <= j < o.len() implies self.map@.contains_key(
                    self.nodes@[o[j] as int].entry_id.packed(),
                ) && self.map@[self.nodes@[o[j] as int].entry_id.packed()] == o[j] by {
                    assert(o[j] == p[j]);
                    assert(v[j] != v[k]);
                    if v[j].packed() == v[k].packed() {
                        packing_is_injective(v[j], v[k]);
                    }
                }
                assert forall|key: u64| #[trigger] self.map@.contains_key(key) implies exists|j: int|
                    0 <= j < o.len() && self.nodes@[(#[trigger] o[j]) as int].entry_id.packed()
                        == key by {
                    assert(before.map@.contains_key(key));
                    let j = choose|j: int|
                        0 <= j < p.len() && before.nodes@[(#[trigger] p[j]) as int].entry_id.packed()
                            == key;
                    assert(j != k);
                    assert(o[j] == p[j]);
                }
                assert forall|i: int| #![trigger self.free@[i]] 0 <= i
                    < self.free@.len() implies self.free@[i] < self.nodes@.len() && !o.contains(
                    self.free@[i],
                ) by {
                    if o.contains(self.free@[i]) {
                        let j = choose|j: int| 0 <= j < o.len() && o[j] == self.free@[i];
                        assert(p[j] == self.free@[i]);
                        if i < before.free@.len() {
                            assert(before.free@[i] == self.free@[i]);
                            assert(p.contains(before.free@[i]));
                        } else {
                            assert(p[j] == p[k]);
                        }
                    } else if i < before.free@.len() {
                        assert(before.free@[i] == self.free@[i]);
                    }
                }
                assert(self.free@.no_duplicates()) by {
                    assert forall|i: int|
                        0 <= i < before.free@.len() implies before.free@[i] != tail by {
                        assert(p.contains(tail));
                    }
                }
            }
            return CacheAdvice::Evict(tail_entry_id);
        }
        fallback_advice(entry_id, cache_mode)
    }

    fn notify_access(&mut self, entry_id: &CacheEntryID)
        ensures
            final(self)@ == if old(self)@.contains(*entry_id) {
                touched(old(self)@, *entry_id)
            } else {
                old(self)@
            },
    {
        proof {
            self.lemma_map_contains(*entry_id);
        }
        let key: u64 = entry_id.to_bits();
        let place: Option<usize> = match self.map.get(&key) {
            Some(node) => Some(*node),
            None => None,
        };
        if let Some(node) = place {
            self.touch(entry_id, node);
        }
    }

    fn notify_insert(&mut self, entry_id: &CacheEntryID)
        ensures
            final(self)@ == touched(old(self)@, *entry_id),
    {
        proof {
            self.lemma_map_contains(*entry_id);
        }
        let key: u64 = entry_id.to_bits();
        let place: Option<usize> = match self.map.get(&key) {
            Some(node) => Some(*node),
            None => None,
        };
        if let Some(node) = place {
            self.touch(entry_id, node);
            return ;
        }
        let ghost before = *self;
        let fresh = Node { entry_id: *entry_id, prev: None, next: None };
        let node: usize = match self.free.pop() {
            Some(node) => {
                assert(before.free@[before.free@.len() - 1] == node);
                self.nodes.set(node, fresh);
                node
            },
            None => {
                let node: usize = self.nodes.len();
                self.nodes.push(fresh);
                node
            },
        };
        self.map.insert(key, node);
        let ghost middle = *self;
        proof {
            let o = self.order@;
            assert(!o.contains(node)) by {
                if o.contains(node) {
                    let j = choose|j: int| 0 <= j < o.len() && o[j] == node;
                    assert(before.order@[j] < before.nodes@.len());
                }
            }
            assert forall|j: int| 0 <= j < o.len() implies (#[trigger] o[j]) != node by {}
        }
        self.push_front(node);
        proof {
            assert(self.nodes@[node as int].entry_id == middle.nodes@[node as int].entry_id);
            assert forall|i: int| 0 <= i < before.order@.len() implies self.nodes@[(
            #[trigger] before.order@[i]) as int].entry_id == before.nodes@[before.order@[i] as int].entry_id by {
                assert(self.nodes@[before.order@[i] as int].entry_id
                    == middle.nodes@[before.order@[i] as int].entry_id);
            }
            self.lemma_inserted(before, node, *entry_id);
        }
    }
}

/// Entries are discarded when the cache is full.
#[derive(Clone, Copy, Debug, PartialEq, Eq, Structural)]
pub struct DiscardPolicy;

impl Default for DiscardPolicy {
    fn default() -> (policy: Self)
        ensures
            policy == DiscardPolicy,
            policy.wf(),
    {
        DiscardPolicy
    }
}

impl CachePolicy for DiscardPolicy {
    open spec fn wf(&self) -> bool {
        true
    }

    fn advise(&mut self, entry_id: &CacheEntryID, cache_mode: &LiquidCacheMode) -> (advice:
        CacheAdvice)
        ensures
            advice == CacheAdvice::Discard,
    {
        CacheAdvice::Discard
    }
}

/// Entries are written to disk in the format they have when the cache is full.
#[derive(Clone, Copy, Debug, PartialEq, Eq, Structural)]
pub struct ToDiskPolicy;

impl Default for ToDiskPolicy {
    fn default() -> (policy: Self)
        ensures
            policy == ToDiskPolicy,
            policy.wf(),
    {
        ToDiskPolicy
    }
}

impl ToDiskPolicy {
    /// The policy.
    pub fn new() -> (policy: Self)
        ensures
            policy == ToDiskPolicy,
            policy.wf(),
    {
        ToDiskPolicy
    }
}

impl CachePolicy for ToDiskPolicy {
    open spec fn wf(&self) -> bool {
        true
    }

    fn advise(&mut self, entry_id: &CacheEntryID, cache_mode: &LiquidCacheMode) -> (advice:
        CacheAdvice)
        ensures
            advice == CacheAdvice::ToDisk(*entry_id),
    {
        CacheAdvice::ToDisk(*entry_id)
    }
}

/// The entries after all of `inserted` were touched in turn.
pub open spec fn touched_all(entries: Seq<CacheEntryID>, inserted: Seq<CacheEntryID>) -> Seq<
    CacheEntryID,
>
    decreases inserted.len(),
{
    if inserted.len() == 0 {
        entries
    } else {
        touched(touched_all(entries, inserted.drop_last()), inserted.last())
    }
}

/// The entries that `n` evictions in a row name, where each takes the last entry away.
pub open spec fn evicted(entries: Seq<CacheEntryID>, n: nat) -> Seq<CacheEntryID>
    decreases n,
{
    if n == 0 || entries.len() == 0 {
        Seq::empty()
    } else {
        seq![entries.last()] + evicted(entries.drop_last(), (n - 1) as nat)
    }
}

/// Touching an entry makes it the most recent one, keeps every other entry, and lists none twice.
pub proof fn touch_keeps_entries(entries: Seq<CacheEntryID>, entry_id: CacheEntryID)
    requires
        entries.no_duplicates(),
    ensures
        touched(entries, entry_id)[0] == entry_id,
        touched(entries, entry_id).no_duplicates(),
        touched(entries, entry_id).len() == entries.len() + if entries.contains(entry_id) {
            0int
        } else {
            1int
        },
        forall|e: CacheEntryID| #[trigger]
            touched(entries, entry_id).contains(e) <==> e == entry_id || entries.contains(e),
{
    let t = touched(entries, entry_id);
    let k = entries.index_of(entry_id);
    let known = entries.contains(entry_id);
    assert forall|i: int, j: int| 0 <= i < t.len() && 0 <= j < t.len() && i != j implies t[i]
        != t[j] by {
        if known {
            assert(entries[k] == entry_id);
            assert(i > 0 ==> t[i] == entries[if i <= k { i - 1 } else { i }]);
            assert(j > 0 ==> t[j] == entries[if j <= k { j - 1 } else { j }]);
        } else {
            assert(i > 0 ==> t[i] == entries[i - 1] && entries.contains(t[i]));
            assert(j > 0 ==> t[j] == entries[j - 1] && entries.contains(t[j]));
        }
    }
    assert forall|e: CacheEntryID| #[trigger] t.contains(e) <==> e == entry_id || entries.contains(e) by {
        if t.contains(e) && e != entry_id {
            let j = choose|j: int| 0 <= j < t.len() && t[j] == e;
            if known {
                assert(t[j] == entries[if j <= k { j - 1 } else { j }]);
            } else {
                assert(t[j] == entries[j - 1]);
            }
        }
        if entries.contains(e) && e != entry_id {
            let j = choose|j: int| 0 <= j < entries.len() && entries[j] == e;
            if known {
                assert(t[if j < k { j + 1 } else { j }] == e);
            } else {
                assert(t[j + 1] == e);
            }
        }
        assert(t[0] == entry_id);
    }
}

/// Touching an entry leaves the order of the others as it was.
pub proof fn touch_keeps_order_of_others(
    entries: Seq<CacheEntryID>,
    entry_id: CacheEntryID,
    a: CacheEntryID,
    b: CacheEntryID,
)
    requires
        entries.no_duplicates(),
        entries.contains(a),
        entries.contains(b),
        a != entry_id,
        b != entry_id,
    ensures
        touched(entries, entry_id).index_of(a) < touched(entries, entry_id).index_of(b)
            <==> entries.index_of(a) < entries.index_of(b),
{
    let t = touched(entries, entry_id);
    touch_keeps_entries(entries, entry_id);
    let k = entries.index_of(entry_id);
    let i = entries.index_of(a);
    let j = entries.index_of(b);
    if entries.contains(entry_id) {
        let p = if i < k { i + 1 } else { i };
        let q = if j < k { j + 1 } else { j };
        assert(t[p] == a && t[q] == b);
        assert(t.contains(a) && t.contains(b));
        assert(t.index_of(a) == p && t.index_of(b) == q);
    } else {
        assert(t[i + 1] == a && t[j + 1] == b);
        assert(t.contains(a) && t.contains(b));
        assert(t.index_of(a) == i + 1 && t.index_of(b) == j + 1);
    }
}

/// Different entries inserted one after the other into an empty list stand in reverse order.
pub proof fn insertions_stand_in_reverse(inserted: Seq<CacheEntryID>)
    requires
        inserted.no_duplicates(),
    ensures
        touched_all(Seq::empty(), inserted) == inserted.reverse(),
    decreases inserted.len(),
{
    if inserted.len() > 0 {
        let init = inserted.drop_last();
        insertions_stand_in_reverse(init);
        let r = init.reverse();
        assert(!r.contains(inserted.last())) by {
            if r.contains(inserted.last()) {
                let j = choose|j: int| 0 <= j < r.len() && r[j] == inserted.last();
                assert(r[j] == inserted[init.len() - 1 - j]);
            }
        }
        assert(touched(r, inserted.last()) =~= inserted.reverse());
    } else {
        assert(inserted.reverse() =~= Seq::<CacheEntryID>::empty());
    }
}

/// Where nothing is touched twice, the least recently used policy evicts entries in the order in
/// which they were inserted.
pub proof fn lru_evicts_in_order_of_insertion(inserted: Seq<CacheEntryID>)
    requires
        inserted.no_duplicates(),
    ensures
        evicted(touched_all(Seq::empty(), inserted), inserted.len()) == inserted,
{
    insertions_stand_in_reverse(inserted);
    lemma_evicted(inserted.reverse(), inserted.len());
    assert(evicted(inserted.reverse(), inserted.len()) =~= inserted);
}

proof fn lemma_evicted(entries: Seq<CacheEntryID>, n: nat)
    ensures
        evicted(entries, n).len() == if n < entries.len() {
            n
        } else {
            entries.len()
        },
        forall|i: int|
            0 <= i < evicted(entries, n).len() ==> #[trigger] evicted(entries, n)[i]
                == entries[entries.len() - 1 - i],
    decreases n,
{
    if n > 0 && entries.len() > 0 {
        lemma_evicted(entries.drop_last(), (n - 1) as nat);
    }
}

/// Evictions in a row never name an entry twice, and an evicted entry is forgotten.
pub proof fn evictions_are_distinct(entries: Seq<CacheEntryID>, n: nat)
    requires
        entries.no_duplicates(),
    ensures
        evicted(entries, n).no_duplicates(),
        entries.len() > 0 ==> !entries.drop_last().contains(entries.last()),
{
    lemma_evicted(entries, n);
}

/// The entry that one of several callers is told to evict, where `order` is the order in which they
/// got hold of the policy, one after the other.
pub open spec fn told_to_evict(
    entries: Seq<CacheEntryID>,
    order: Seq<int>,
    caller: int,
) -> CacheEntryID {
    evicted(entries, order.len())[order.index_of(caller)]
}

/// Where no more callers ask for advice than there are entries, and nothing else is done meanwhile,
/// then in whichever order they get hold of the policy each is told to evict an entry of its own.
/// Together these are the least recent ones; the others stay, and none that was named is among them.
pub proof fn every_caller_evicts_another_entry(entries: Seq<CacheEntryID>, order: Seq<int>)
    requires
        entries.no_duplicates(),
        order.no_duplicates(),
        order.len() <= entries.len(),
    ensures
        evicted(entries, order.len()) == entries.skip(entries.len() - order.len()).reverse(),
        after_evictions(entries, order.len()) == entries.take(entries.len() - order.len()),
        forall|a: int, b: int|
            order.contains(a) && order.contains(b) && a != b ==> #[trigger] told_to_evict(
                entries,
                order,
                a,
            ) != #[trigger] told_to_evict(entries, order, b),
        forall|a: int|
            order.contains(a) ==> {
                let e = #[trigger] told_to_evict(entries, order, a);
                &&& entries.skip(entries.len() - order.len()).contains(e)
                &&& !after_evictions(entries, order.len()).contains(e)
            },
{
    let k = order.len();
    let n = entries.len();
    let named = evicted(entries, k);
    lemma_evicted(entries, k);
    lemma_after_evictions(entries, k);
    let least = entries.skip(n - k);
    assert(named =~= least.reverse());
    assert forall|a: int| order.contains(a) implies ({
        let e = #[trigger] told_to_evict(entries, order, a);
        &&& least.contains(e)
        &&& !after_evictions(entries, k).contains(e)
    }) by {
        let i = order.index_of(a);
        assert(named[i] == entries[n - 1 - i]);
        assert(least[k - 1 - i] == named[i]);
        let rest = after_evictions(entries, k);
        if rest.contains(named[i]) {
            let j = choose|j: int| 0 <= j < rest.len() && rest[j] == named[i];
            assert(entries[j] == entries[n - 1 - i]);
        }
    }
    assert forall|a: int, b: int| order.contains(a) && order.contains(b) && a
        != b implies #[trigger] told_to_evict(entries, order, a) != #[trigger] told_to_evict(
        entries,
        order,
        b,
    ) by {
        let i = order.index_of(a);
        let j = order.index_of(b);
        assert(order[i] == a && order[j] == b);
        assert(named[i] == entries[n - 1 - i] && named[j] == entries[n - 1 - j]);
    }
}

/// The entries that are left after `n` evictions in a row.
pub open spec fn after_evictions(entries: Seq<CacheEntryID>, n: nat) -> Seq<CacheEntryID>
    decreases n,
{
    if n == 0 || entries.len() == 0 {
        entries
    } else {
        after_evictions(entries.drop_last(), (n - 1) as nat)
    }
}

proof fn lemma_after_evictions(entries: Seq<CacheEntryID>, n: nat)
    requires
        n <= entries.len(),
    ensures
        after_evictions(entries, n) == entries.take(entries.len() - n),
    decreases n,
{
    if n > 0 {
        lemma_after_evictions(entries.drop_last(), (n - 1) as nat);
        assert(entries.drop_last().take(entries.len() - n) =~= entries.take(entries.len() - n));
    } else {
        assert(entries.take(entries.len() as int) =~= entries);
    }
}

/// An access makes the entry outlive, as far as evictions go, every entry that is not touched
/// after it: it stands before all of them.
pub proof fn touched_entry_is_evicted_last(entries: Seq<CacheEntryID>, entry_id: CacheEntryID)
    ensures
        evicted(touched(entries, entry_id), touched(entries, entry_id).len()).last() == entry_id,
{
    lemma_evicted(touched(entries, entry_id), touched(entries, entry_id).len());
}

/// What is done with a policy.
pub enum PolicyUse {
    /// It is told that an entry was inserted.
    Insert(CacheEntryID),
    /// It is told that an entry was accessed.
    Access(CacheEntryID),
    /// It is asked for advice.
    Advise,
}

/// The entries of the least recently used policy, empty at first, after all of the uses.
pub open spec fn entries_after(uses: Seq<PolicyUse>) -> Seq<CacheEntryID>
    decreases uses.len(),
{
    if uses.len() == 0 {
        Seq::empty()
    } else {
        let before = entries_after(uses.drop_last());
        match uses.last() {
            PolicyUse::Insert(x) => touched(before, x),
            PolicyUse::Access(x) => if before.contains(x) {
                touched(before, x)
            } else {
                before
            },
            PolicyUse::Advise => if before.len() > 0 {
                before.drop_last()
            } else {
                before
            },
        }
    }
}

/// Which use touched an entry last, by its place: its insertion, or an access while it was known;
/// before all places where none did.
pub open spec fn last_touch(uses: Seq<PolicyUse>, entry_id: CacheEntryID) -> int
    decreases uses.len(),
{
    if uses.len() == 0 {
        -1
    } else {
        let touches = match uses.last() {
            PolicyUse::Insert(x) => x == entry_id,
            PolicyUse::Access(x) => x == entry_id && entries_after(uses.drop_last()).contains(x),
            PolicyUse::Advise => false,
        };
        if touches {
            uses.len() - 1
        } else {
            last_touch(uses.drop_last(), entry_id)
        }
    }
}

proof fn lemma_entries_after(uses: Seq<PolicyUse>)
    ensures
        entries_after(uses).no_duplicates(),
        forall|e: CacheEntryID| -1 <= #[trigger] last_touch(uses, e) < uses.len(),
    decreases uses.len(),
{
    if uses.len() > 0 {
        let init = uses.drop_last();
        let before = entries_after(init);
        lemma_entries_after(init);
        match uses.last() {
            PolicyUse::Insert(x) => {
                touch_keeps_entries(before, x);
            },
            PolicyUse::Access(x) => {
                touch_keeps_entries(before, x);
            },
            PolicyUse::Advise => {},
        }
        assert forall|e: CacheEntryID| -1 <= #[trigger] last_touch(uses, e) < uses.len() by {
            assert(-1 <= last_touch(init, e) < init.len());
        }
    }
}

/// Whatever was inserted, accessed and evicted before: the entries stand in the order in which they
/// were touched last, the latest first; so the one to be evicted is the one that was touched the
/// longest ago. An access of an entry that is not there touches nothing.
pub proof fn lru_orders_by_last_touch(uses: Seq<PolicyUse>, a: CacheEntryID, b: CacheEntryID)
    requires
        entries_after(uses).contains(a),
        entries_after(uses).contains(b),
        a != b,
    ensures
        entries_after(uses).index_of(a) < entries_after(uses).index_of(b) <==> last_touch(uses, a)
            > last_touch(uses, b),
    decreases uses.len(), 0nat,
{
    let init = uses.drop_last();
    let before = entries_after(init);
    let after = entries_after(uses);
    lemma_entries_after(uses);
    lemma_entries_after(init);
    assert(-1 <= last_touch(init, a) < init.len() && -1 <= last_touch(init, b) < init.len());
    match uses.last() {
        PolicyUse::Advise => {
            if before.len() > 0 {
                let i = after.index_of(a);
                let j = after.index_of(b);
                assert(before[i] == a && before[j] == b);
                assert(before.contains(a) && before.contains(b));
                assert(before.index_of(a) == i && before.index_of(b) == j);
            }
            lru_orders_by_last_touch(init, a, b);
        },
        PolicyUse::Insert(x) => {
            lemma_touch_orders(init, uses, x, a, b);
        },
        PolicyUse::Access(x) => {
            if before.contains(x) {
                lemma_touch_orders(init, uses, x, a, b);
            } else {
                lru_orders_by_last_touch(init, a, b);
            }
        },
    }
}

proof fn lemma_touch_orders(
    init: Seq<PolicyUse>,
    uses: Seq<PolicyUse>,
    x: CacheEntryID,
    a: CacheEntryID,
    b: CacheEntryID,
)
    requires
        uses.len() > 0,
        init == uses.drop_last(),
        uses.last() == PolicyUse::Insert(x) || uses.last() == PolicyUse::Access(x)
            && entries_after(init).contains(x),
        entries_after(uses).contains(a),
        entries_after(uses).contains(b),
        a != b,
    ensures
        entries_after(uses).index_of(a) < entries_after(uses).index_of(b) <==> last_touch(uses, a)
            > last_touch(uses, b),
    decreases init.len(), 1nat,
{
    let before = entries_after(init);
    let after = entries_after(uses);
    lemma_entries_after(init);
    lemma_entries_after(uses);
    touch_keeps_entries(before, x);
    assert(after == touched(before, x));
    assert(after[0] == x);
    assert(-1 <= last_touch(init, a) < init.len() && -1 <= last_touch(init, b) < init.len());
    if a == x {
        assert(after.index_of(a) == 0);
    } else if b == x {
        assert(after.index_of(b) == 0);
    } else {
        touch_keeps_order_of_others(before, x, a, b);
        lru_orders_by_last_touch(init, a, b);
    }
}

/// The entry inserted last into the first-in-last-out policy is the next to be evicted, which
/// leaves the entries as they were before.
pub proof fn filo_evicts_newest_first(entries: Seq<CacheEntryID>, entry_id: CacheEntryID)
    ensures
        (seq![entry_id] + entries)[0] == entry_id,
        (seq![entry_id] + entries).skip(1) == entries,
{
    assert((seq![entry_id] + entries).skip(1) =~= entries);
}

/// Where no entry can be evicted, the new one is discarded if arrays are held as they were read, and
/// else transcoded to disk, wherever transcoding happens.
pub proof fn advice_without_entries(entry_id: CacheEntryID, background: bool)
    ensures
        spec_fallback_advice(entry_id, LiquidCacheMode::Arrow) == CacheAdvice::Discard,
        spec_fallback_advice(
            entry_id,
            LiquidCacheMode::Liquid { transcode_in_background: background },
        ) == CacheAdvice::TranscodeToDisk(entry_id),
{
}

/// Evictions take the least recent entries away one by one, and leave the others as they were.
pub proof fn evictions_take_the_last(entries: Seq<CacheEntryID>, n: nat)
    requires
        n <= entries.len(),
    ensures
        evicted(entries, n).len() == n,
        forall|i: int|
            0 <= i < n ==> #[trigger] evicted(entries, n)[i] == entries[entries.len() - 1 - i],
        after_evictions(entries, n) + evicted(entries, n).reverse() == entries,
{
    lemma_evicted(entries, n);
    lemma_after_evictions(entries, n);
    assert(after_evictions(entries, n) + evicted(entries, n).reverse() =~= entries);
}

/// Policies without records of their own, and the one that only keeps a queue, can be asked at any
/// time.
pub proof fn simple_policies_can_always_be_asked(queue: FiloPolicy)
    ensures
        queue.wf(),
        DiscardPolicy.wf(),
        ToDiskPolicy.wf(),
{
}

} // verus!
