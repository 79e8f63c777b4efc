//! The crawl state shared by the workers: the deduplicating queue of pending
//! work keys, the records of indexed pages, and the inverted index over them.

use vstd::prelude::*;
use crossbeam_queue::ArrayQueue;
use dashmap::DashMap;
use crate::collections::{
    key_set, key_set_contains, key_set_insert, key_set_remove, new_key_set, new_posting_map,
    new_queue, new_rank_map, new_result_map, posting_map, posting_map_add, posting_map_keys,
    posting_map_len, postings_of, queue_capacity, queue_items, queue_len, queue_pop, queue_push,
    rank_map, rank_map_entries, rank_map_insert, result_map, result_map_contains, result_map_get,
    result_map_insert, result_map_len,
};
use crate::index_result::{keyword_map, unique_keys, IndexResult, ResultView};
use crate::page::{is_index_word, Page, PageView, EXCERPT_CHARS};
use crate::ranking::{entry_views, is_top, top_entries};
use crate::text::views;

verus! {

/// The most work keys that may wait in the queue at once.
pub const QUEUE_CAPACITY: usize = 1000;

/// The state of an index: the pending work keys, oldest first, and the set of
/// them; the records by work key; the work keys listed under each keyword; and
/// the number of them cached per keyword.
pub struct IndexState {
    pub pending: Seq<Seq<char>>,
    pub queued: Set<Seq<char>>,
    pub capacity: nat,
    pub results: Map<Seq<char>, ResultView>,
    pub postings: Map<Seq<char>, Set<Seq<char>>>,
    pub ranks: Map<Seq<char>, u32>,
}

/// A count as the rank map stores it: saturating at `u32::MAX`.
pub open spec fn capped(n: nat) -> u32 {
    if n > u32::MAX {
        u32::MAX
    } else {
        n as u32
    }
}

/// The invariants of an index state.
pub open spec fn state_wf(s: IndexState) -> bool {
    &&& s.capacity == QUEUE_CAPACITY
    &&& s.pending.len() <= s.capacity
    &&& s.pending.no_duplicates()
    &&& forall|k: Seq<char>| s.queued.contains(k) <==> s.pending.contains(k)
    &&& s.results.dom().finite()
    &&& forall|k: Seq<char>| #[trigger] s.results.contains_key(k) ==> s.results[k].cid == k
    &&& forall|k: Seq<char>| #[trigger] s.results.contains_key(k) ==> s.results[k].excerpt.len() <= EXCERPT_CHARS
    &&& s.postings.dom().finite()
    &&& forall|w: Seq<char>| #[trigger] s.postings.contains_key(w) ==> s.postings[w].finite() && s.postings[w].len() > 0 && is_index_word(w)
    &&& s.ranks.dom() == s.postings.dom()
    &&& forall|w: Seq<char>| #[trigger] s.postings.contains_key(w) ==> s.ranks[w] == capped(s.postings[w].len())
}

/// The state after `enqueue(k)`: `k` joins the back of the queue unless it is
/// indexed already, waits already, or the queue is full.
pub open spec fn after_enqueue(s: IndexState, k: Seq<char>) -> IndexState {
    if s.results.contains_key(k) || s.queued.contains(k) || s.pending.len() >= s.capacity {
        s
    } else {
        IndexState { pending: s.pending.push(k), queued: s.queued.insert(k), ..s }
    }
}

/// The state after enqueueing each of `ks` in turn.
pub open spec fn after_enqueue_all(s: IndexState, ks: Seq<Seq<char>>) -> IndexState
    decreases ks.len(),
{
    if ks.len() == 0 {
        s
    } else {
        after_enqueue(after_enqueue_all(s, ks.drop_last()), ks.last())
    }
}

/// The state after listing `key` under each keyword of `ws` and refreshing
/// their counts.
pub open spec fn after_postings(s: IndexState, key: Seq<char>, ws: Set<Seq<char>>) -> IndexState {
    let postings = Map::new(
        |w: Seq<char>| s.postings.contains_key(w) || ws.contains(w),
        |w: Seq<char>|
            if ws.contains(w) {
                postings_of(s.postings, w).insert(key)
            } else {
                s.postings[w]
            },
    );
    let ranks = Map::new(
        |w: Seq<char>| s.postings.contains_key(w) || ws.contains(w),
        |w: Seq<char>|
            if ws.contains(w) {
                capped(postings[w].len())
            } else {
                s.ranks[w]
            },
    );
    IndexState { postings, ranks, ..s }
}

/// The state after publishing the analysis `p` of a page: its links are
/// enqueued; then, where it has a record, its keywords list its key and the
/// record is stored unless one is stored under that key already.
pub open spec fn after_publish(s: IndexState, p: PageView) -> IndexState {
    let s1 = after_enqueue_all(s, p.links);
    match p.result {
        None => s1,
        Some(r) => {
            let s2 = after_postings(s1, p.key, keyword_map(r.keywords).dom());
            if s2.results.contains_key(p.key) {
                s2
            } else {
                IndexState { results: s2.results.insert(p.key, r), ..s2 }
            }
        },
    }
}

/// Enqueueing changes only the queue.
pub proof fn lemma_enqueue_all_keeps(s: IndexState, ks: Seq<Seq<char>>)
    ensures
        after_enqueue_all(s, ks).results == s.results,
        after_enqueue_all(s, ks).postings == s.postings,
        after_enqueue_all(s, ks).ranks == s.ranks,
        after_enqueue_all(s, ks).capacity == s.capacity,
    decreases ks.len(),
{
    if ks.len() > 0 {
        lemma_enqueue_all_keeps(s, ks.drop_last());
    }
}

/// The shared crawl state.
pub struct IndexQueue {
    queue: ArrayQueue<String>,
    queue_set: DashMap<String, ()>,
    map: DashMap<String, IndexResult>,
    keywords: DashMap<String, DashMap<String, ()>>,
    keyword_rank: DashMap<String, u32>,
}

impl View for IndexQueue {
    type V = IndexState;

    closed spec fn view(&self) -> IndexState {
        IndexState {
            pending: queue_items(self.queue),
            queued: key_set(self.queue_set),
            capacity: queue_capacity(self.queue),
            results: result_map(self.map),
            postings: posting_map(self.keywords),
            ranks: rank_map(self.keyword_rank),
        }
    }
}

impl IndexQueue {
    /// The invariants hold of this index.
    pub open spec fn wf(&self) -> bool {
        state_wf(self@)
    }

    /// An empty index.
    pub fn new() -> (r: IndexQueue)
        ensures
            r.wf(),
            r@.pending.len() == 0,
            r@.queued.is_empty(),
            r@.results.is_empty(),
            r@.postings.is_empty(),
            r@.ranks.is_empty(),
    {
        let r = IndexQueue {
            queue: new_queue(QUEUE_CAPACITY),
            queue_set: new_key_set(),
            map: new_result_map(),
            keywords: new_posting_map(),
            keyword_rank: new_rank_map(),
        };
        assert(r@.results =~= Map::empty());
        assert(r@.postings =~= Map::empty());
        assert(r@.ranks =~= Map::empty());
        r
    }

    /// Admits `item` to the queue unless it is indexed already, waits already, or
    /// the queue is full; in those cases nothing changes.
    pub fn enqueue(&mut self, item: String)
        requires
            old(self).wf(),
        ensures
            final(self).wf(),
            final(self)@ == after_enqueue(old(self)@, item@),
    {
        if result_map_contains(&self.map, &item) {
            return;
        }
        if key_set_contains(&self.queue_set, &item) {
            return;
        }
        let ghost s = self@;
        let key = item.clone();
        if queue_push(&mut self.queue, item) {
            key_set_insert(&mut self.queue_set, key);
            proof {
                assert(self@.pending =~= s.pending.push(key@));
                assert forall|k: Seq<char>| self@.queued.contains(k) <==> self@.pending.contains(k) by {
                    if self@.pending.contains(k) && k != key@ {
                        let i = choose|i: int| 0 <= i < self@.pending.len() && self@.pending[i] == k;
                        assert(s.pending[i] == k);
                    }
                    if k == key@ {
                        assert(self@.pending[self@.pending.len() - 1] == k);
                    } else if s.pending.contains(k) {
                        let i = choose|i: int| 0 <= i < s.pending.len() && s.pending[i] == k;
                        assert(self@.pending[i] == k);
                    }
                }
                assert(self@ == after_enqueue(s, item@));
            }
        }
    }

    /// Takes the oldest pending work key off the queue, and out of the set of
    /// pending keys.
    pub fn try_pop(&mut self) -> (r: Option<String>)
        requires
            old(self).wf(),
        ensures
            final(self).wf(),
            match r {
                Some(k) => old(self)@.pending.len() > 0 && k@ == old(self)@.pending[0] && final(self)@
                    == (IndexState {
                    pending: old(self)@.pending.drop_first(),
                    queued: old(self)@.queued.remove(k@),
                    ..old(self)@
                }),
                None => old(self)@.pending.len() == 0 && final(self)@ == old(self)@,
            },
    {
        let ghost s = self@;
        let r = queue_pop(&mut self.queue);
        match &r {
            Some(k) => {
                key_set_remove(&mut self.queue_set, k);
                proof {
                    assert forall|x: Seq<char>| self@.queued.contains(x) <==> self@.pending.contains(x) by {
                        if self@.pending.contains(x) {
                            let i = choose|i: int| 0 <= i < self@.pending.len() && self@.pending[i] == x;
                            assert(s.pending[i + 1] == x);
                            assert(s.pending[0] == k@);
                        }
                        if s.pending.contains(x) && x != k@ {
                            let i = choose|i: int| 0 <= i < s.pending.len() && s.pending[i] == x;
                            assert(self@.pending[i - 1] == x);
                        }
                    }
                    assert(self@.pending.no_duplicates()) by {
                        assert forall|a: int, b: int| 0 <= a < b < self@.pending.len() implies self@.pending[a] != self@.pending[b] by {
                            assert(self@.pending[a] == s.pending[a + 1]);
                            assert(self@.pending[b] == s.pending[b + 1]);
                        }
                    }
                }
            },
            None => {},
        }
        r
    }

    /// Enqueues each of `links` in turn.
    fn enqueue_all(&mut self, links: Vec<String>)
        requires
            old(self).wf(),
        ensures
            final(self).wf(),
            final(self)@ == after_enqueue_all(old(self)@, views(links@)),
    {
        let ghost s = self@;
        let ghost ks = views(links@);
        let mut i: usize = 0;
        while i < links.len()
            invariant
                i <= links.len(),
                ks == views(links@),
                self.wf(),
                self@ == after_enqueue_all(s, ks.subrange(0, i as int)),
            decreases links.len() - i,
        {
            assert(ks.subrange(0, i + 1).drop_last() =~= ks.subrange(0, i as int));
            self.enqueue(links[i].clone());
            i = i + 1;
        }
        assert(ks.subrange(0, ks.len() as int) =~= ks);
    }

    /// Lists `key` under each keyword of `keywords` and refreshes their counts.
    fn add_postings(&mut self, key: &String, keywords: &Vec<(String, u32)>)
        requires
            old(self).wf(),
            forall|i: int| 0 <= i < keywords@.len() ==> is_index_word(#[trigger] keywords@[i].0@),
        ensures
            final(self).wf(),
            final(self)@ == after_postings(old(self)@, key@, keyword_map(entry_views(keywords@)).dom()),
    {
        let ghost s = self@;
        let ghost es = entry_views(keywords@);
        let mut i: usize = 0;
        proof {
            let e0 = es.subrange(0, 0);
            assert(keyword_map(e0).dom() =~= Set::empty());
            let start = after_postings(s, key@, keyword_map(e0).dom());
            assert(start.postings =~= s.postings);
            assert(start.ranks =~= s.ranks);
            assert(self@ == start);
        }
        while i < keywords.len()
            invariant
                i <= keywords.len(),
                es == entry_views(keywords@),
                forall|m: int| 0 <= m < keywords@.len() ==> is_index_word(#[trigger] keywords@[m].0@),
                self.wf(),
                self@ == after_postings(s, key@, keyword_map(es.subrange(0, i as int)).dom()),
            decreases keywords.len() - i,
        {
            let ghost before = self@;
            let ghost done = keyword_map(es.subrange(0, i as int)).dom();
            let ghost next_es = es.subrange(0, i + 1);
            assert(next_es.drop_last() =~= es.subrange(0, i as int));
            let w = &keywords[i].0;
            assert(keyword_map(next_es).dom() =~= done.insert(w@));
            let n = posting_map_add(&mut self.keywords, w, key);
            let c: u32 = if n > u32::MAX as usize { u32::MAX } else { n as u32 };
            rank_map_insert(&mut self.keyword_rank, w.clone(), c);
            proof {
                let set = postings_of(before.postings, w@).insert(key@);
                assert(is_index_word(keywords@[i as int].0@));
                assert(self@.postings == before.postings.insert(w@, set));
                assert(self@.ranks == before.ranks.insert(w@, capped(set.len())));
                let goal = after_postings(s, key@, done.insert(w@));
                assert(before == after_postings(s, key@, done));
                if done.contains(w@) {
                    assert(postings_of(before.postings, w@) == postings_of(s.postings, w@).insert(key@));
                    assert(set =~= postings_of(s.postings, w@).insert(key@));
                } else {
                    assert(postings_of(before.postings, w@) == postings_of(s.postings, w@));
                }
                assert(set == postings_of(s.postings, w@).insert(key@));
                assert(self@.postings.dom() =~= goal.postings.dom());
                assert forall|x: Seq<char>| #[trigger] self@.postings.contains_key(x) implies self@.postings[x] == goal.postings[x] by {
                    if x != w@ {
                        assert(self@.postings[x] == before.postings[x]);
                    }
                }
                assert(self@.postings =~= goal.postings);
                assert(self@.ranks =~= goal.ranks);
                assert(self@ == goal);
                assert(self@.ranks.dom() =~= self@.postings.dom());
            }
            i = i + 1;
        }
        assert(es.subrange(0, es.len() as int) =~= es);
    }

    /// Publishes the analysis of a page: enqueues the work keys it links to; then,
    /// where it has a record, lists its key under each of its keywords, refreshes
    /// their counts, and stores the record unless one is stored under that key
    /// already. A stored record is never replaced.
    pub fn publish(&mut self, page: Page)
        requires
            old(self).wf(),
        ensures
            final(self).wf(),
            final(self)@ == after_publish(old(self)@, page@),
            forall|k: Seq<char>| #[trigger] old(self)@.results.contains_key(k)
                ==> final(self)@.results.contains_key(k) && final(self)@.results[k] == old(self)@.results[k],
    {
        let ghost pv = page@;
        page.invariant_holds();
        let (key, links, result) = page.into_parts();
        let ghost s = self@;
        self.enqueue_all(links);
        proof {
            lemma_enqueue_all_keeps(s, pv.links);
        }
        match result {
            None => {},
            Some(r) => {
                assert forall|i: int| 0 <= i < r.keywords@.len() implies is_index_word(#[trigger] r.keywords@[i].0@) by {
                    assert(r@.keywords[i].0 == r.keywords@[i].0@);
                }
                self.add_postings(&key, &r.keywords);
                if !result_map_contains(&self.map, &key) {
                    let ghost before = self@;
                    result_map_insert(&mut self.map, key, r);
                    proof {
                        assert(self@.results.dom().finite());
                        assert forall|k: Seq<char>| #[trigger] self@.results.contains_key(k)
                            implies self@.results[k].cid == k && self@.results[k].excerpt.len() <= EXCERPT_CHARS by {
                            if k != pv.key {
                                assert(before.results.contains_key(k));
                            }
                        }
                    }
                }
            },
        }
    }

    /// The decision after the fetch of a redirect target failed: the redirected
    /// work key is enqueued again where the fetch timed out, and dropped otherwise.
    pub fn on_redirect_failure(&mut self, redirected_key: String, timed_out: bool)
        requires
            old(self).wf(),
        ensures
            final(self).wf(),
            final(self)@ == if timed_out {
                after_enqueue(old(self)@, redirected_key@)
            } else {
                old(self)@
            },
    {
        if timed_out {
            self.enqueue(redirected_key);
        }
    }

    /// The records of the indexed pages that `query` occurs in as a keyword, each
    /// once, in no particular order. A work key listed under `query` whose record
    /// is not stored yet is left out.
    pub fn search(&self, query: String) -> (r: Vec<IndexResult>)
        requires
            self.wf(),
        ensures
            forall|m: int| 0 <= m < r@.len() ==> {
                let k = #[trigger] r@[m]@.cid;
                &&& postings_of(self@.postings, query@).contains(k)
                &&& self@.results.contains_key(k)
                &&& self@.results[k] == r@[m]@
            },
            forall|k: Seq<char>|
                postings_of(self@.postings, query@).contains(k) && #[trigger] self@.results.contains_key(k)
                    ==> exists|m: int| 0 <= m < r@.len() && #[trigger] r@[m]@.cid == k,
            forall|a: int, b: int| 0 <= a < b < r@.len() ==> r@[a]@.cid != r@[b]@.cid,
    {
        let keys = posting_map_keys(&self.keywords, &query);
        let ghost kv = views(keys@);
        let ghost results = self@.results;
        let mut out: Vec<IndexResult> = Vec::new();
        let ghost mut idx: Seq<int> = Seq::empty();
        let mut i: usize = 0;
        while i < keys.len()
            invariant
                i <= keys.len(),
                kv == views(keys@),
                results == self@.results,
                self.wf(),
                idx.len() == out@.len(),
                forall|m: int| 0 <= m < idx.len() ==> 0 <= #[trigger] idx[m] < i,
                forall|a: int, b: int| 0 <= a < b < idx.len() ==> idx[a] < idx[b],
                forall|m: int| 0 <= m < idx.len() ==> {
                    &&& results.contains_key(kv[#[trigger] idx[m]])
                    &&& results[kv[idx[m]]] == out@[m]@
                    &&& out@[m]@.cid == kv[idx[m]]
                },
                forall|j: int| 0 <= j < i && #[trigger] results.contains_key(kv[j])
                    ==> exists|m: int| 0 <= m < idx.len() && #[trigger] idx[m] == j,
            decreases keys.len() - i,
        {
            match result_map_get(&self.map, &keys[i]) {
                Some(x) => {
                    let ghost before_idx = idx;
                    out.push(x);
                    proof {
                        idx = before_idx.push(i as int);
                        assert(kv[i as int] == keys@[i as int]@);
                        assert(results[kv[i as int]].cid == kv[i as int]);
                        assert forall|j: int| 0 <= j < i + 1 && #[trigger] results.contains_key(kv[j])
                            implies exists|m: int| 0 <= m < idx.len() && #[trigger] idx[m] == j by {
                            if j == i {
                                assert(idx[idx.len() - 1] == j);
                            } else {
                                let m = choose|m: int| 0 <= m < before_idx.len() && #[trigger] before_idx[m] == j;
                                assert(idx[m] == j);
                            }
                        }
                    }
                },
                None => {
                    proof {
                        assert(kv[i as int] == keys@[i as int]@);
                    }
                },
            }
            i = i + 1;
        }
        proof {
            let ps = postings_of(self@.postings, query@);
            assert forall|m: int| 0 <= m < out@.len() implies {
                let k = #[trigger] out@[m]@.cid;
                &&& ps.contains(k)
                &&& self@.results.contains_key(k)
                &&& self@.results[k] == out@[m]@
            } by {
                assert(kv.to_set().contains(kv[idx[m]]));
            }
            assert forall|k: Seq<char>| ps.contains(k) && #[trigger] self@.results.contains_key(k)
                implies exists|m: int| 0 <= m < out@.len() && #[trigger] out@[m]@.cid == k by {
                assert(kv.to_set().contains(k));
                let j = choose|j: int| 0 <= j < kv.len() && kv[j] == k;
                assert(results.contains_key(kv[j]));
                let m = choose|m: int| 0 <= m < idx.len() && #[trigger] idx[m] == j;
                assert(out@[m]@.cid == k);
            }
            assert forall|a: int, b: int| 0 <= a < b < out@.len() implies out@[a]@.cid != out@[b]@.cid by {
                assert(idx[a] < idx[b]);
            }
        }
        out
    }

    /// The `n` keywords listed under the most work keys, with those counts,
    /// highest first.
    pub fn top_keywords(&self, n: usize) -> (r: Vec<(String, u32)>)
        ensures
            exists|es: Seq<(Seq<char>, u32)>|
                unique_keys(es) && keyword_map(es) == self@.ranks && #[trigger] is_top(
                    entry_views(r@),
                    es,
                    n as nat,
                ),
    {
        let es = rank_map_entries(&self.keyword_rank);
        let r = top_entries(&es, n);
        assert(is_top(entry_views(r@), entry_views(es@), n as nat));
        r
    }

    /// The number of pending work keys.
    pub fn queue_length(&self) -> (r: usize)
        ensures
            r == self@.pending.len(),
    {
        queue_len(&self.queue)
    }

    /// The number of indexed pages.
    pub fn index_length(&self) -> (r: usize)
        ensures
            r == self@.results.len(),
    {
        result_map_len(&self.map)
    }

    /// The number of distinct keywords.
    pub fn keyword_length(&self) -> (r: usize)
        ensures
            r == self@.postings.len(),
    {
        posting_map_len(&self.keywords)
    }
}

} // verus!
