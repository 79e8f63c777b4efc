//! Properties of the index that relate its operations, proved over the
//! state transitions that the operations' contracts state.

use vstd::prelude::*;
use crate::collections::postings_of;
use crate::html::lower_of;
use crate::index_queue::{
    after_enqueue, after_enqueue_all, after_postings, after_publish, state_wf, IndexQueue,
    IndexState,
};
use crate::index_result::keyword_map;
use crate::page::{analysis_of, is_long, utf8_len, PageView};

verus! {

/// `k` needs no enqueueing in `s`: it is indexed, it waits, or the queue is full.
pub open spec fn settled(s: IndexState, k: Seq<char>) -> bool {
    s.results.contains_key(k) || s.queued.contains(k) || s.pending.len() >= s.capacity
}

/// After `enqueue(k)` the key is pending unless it was indexed already, in which
/// case nothing changed, or the queue was full, in which case nothing changed either.
pub proof fn lemma_enqueue_outcome(s: IndexState, k: Seq<char>)
    requires
        state_wf(s),
    ensures
        s.results.contains_key(k) ==> after_enqueue(s, k) == s,
        !s.results.contains_key(k) ==> after_enqueue(s, k).pending.contains(k) || (after_enqueue(s, k)
            == s && s.pending.len() == s.capacity),
{
    if !s.results.contains_key(k) && !s.queued.contains(k) && s.pending.len() < s.capacity {
        let t = after_enqueue(s, k);
        assert(t.pending[t.pending.len() - 1] == k);
    }
}

/// Enqueueing a key twice has the same effect as enqueueing it once.
pub proof fn lemma_enqueue_twice(s: IndexState, k: Seq<char>)
    ensures
        after_enqueue(after_enqueue(s, k), k) == after_enqueue(s, k),
{
}

/// A key that needs no enqueueing stays so while more keys are enqueued.
proof fn lemma_settled_stays(s: IndexState, ks: Seq<Seq<char>>, k: Seq<char>)
    requires
        settled(s, k),
    ensures
        settled(after_enqueue_all(s, ks), k),
    decreases ks.len(),
{
    if ks.len() > 0 {
        lemma_settled_stays(s, ks.drop_last(), k);
    }
}

/// Once a list of keys has been enqueued, each of them needs no enqueueing.
proof fn lemma_enqueued_settled(s: IndexState, ks: Seq<Seq<char>>)
    ensures
        forall|i: int| 0 <= i < ks.len() ==> settled(after_enqueue_all(s, ks), #[trigger] ks[i]),
    decreases ks.len(),
{
    if ks.len() > 0 {
        let init = ks.drop_last();
        lemma_enqueued_settled(s, init);
        let t = after_enqueue_all(s, init);
        assert forall|i: int| 0 <= i < ks.len() implies settled(after_enqueue_all(s, ks), #[trigger] ks[i]) by {
            if i < ks.len() - 1 {
                assert(ks[i] == init[i]);
                lemma_settled_stays(t, seq![ks.last()], ks[i]);
                assert(seq![ks.last()].drop_last() =~= Seq::<Seq<char>>::empty());
            }
        }
    }
}

/// Enqueueing keys that need no enqueueing changes nothing.
proof fn lemma_enqueue_settled_noop(t: IndexState, ks: Seq<Seq<char>>)
    requires
        forall|i: int| 0 <= i < ks.len() ==> settled(t, #[trigger] ks[i]),
    ensures
        after_enqueue_all(t, ks) == t,
    decreases ks.len(),
{
    if ks.len() > 0 {
        let init = ks.drop_last();
        assert forall|i: int| 0 <= i < init.len() implies settled(t, #[trigger] init[i]) by {
            assert(init[i] == ks[i]);
        }
        lemma_enqueue_settled_noop(t, init);
        assert(settled(t, ks[ks.len() - 1]));
    }
}

/// Listing a key under the same keywords twice has the same effect as once.
proof fn lemma_postings_twice(s: IndexState, key: Seq<char>, ws: Set<Seq<char>>)
    ensures
        after_postings(after_postings(s, key, ws), key, ws) == after_postings(s, key, ws),
{
    let a = after_postings(s, key, ws);
    let b = after_postings(a, key, ws);
    assert forall|w: Seq<char>| #[trigger] ws.contains(w) implies postings_of(a.postings, w).insert(key)
        == postings_of(a.postings, w) by {
        assert(postings_of(a.postings, w).insert(key) =~= postings_of(a.postings, w));
    }
    assert(b.postings =~= a.postings);
    assert(b.ranks =~= a.ranks);
}

/// Publishing the analysis of a page twice has the same effect as publishing it
/// once: the links are settled, the postings gain the key only once, and the
/// stored record is kept.
pub proof fn lemma_publish_twice(s: IndexState, p: PageView)
    requires
        state_wf(s),
    ensures
        after_publish(after_publish(s, p), p) == after_publish(s, p),
{
    let s1 = after_enqueue_all(s, p.links);
    let once = after_publish(s, p);
    lemma_enqueued_settled(s, p.links);
    crate::index_queue::lemma_enqueue_all_keeps(s, p.links);
    assert forall|i: int| 0 <= i < p.links.len() implies settled(once, #[trigger] p.links[i]) by {
        assert(settled(s1, p.links[i]));
        if s1.results.contains_key(p.links[i]) {
            assert(once.results.contains_key(p.links[i]));
        }
    }
    lemma_enqueue_settled_noop(once, p.links);
    match p.result {
        None => {},
        Some(r) => {
            let ws = keyword_map(r.keywords).dom();
            let s2 = after_postings(s1, p.key, ws);
            lemma_postings_twice(s1, p.key, ws);
            if s2.results.contains_key(p.key) {
                assert(once == s2);
            } else {
                let s3 = IndexState { results: s2.results.insert(p.key, r), ..s2 };
                assert(once == s3);
                let again = after_postings(once, p.key, ws);
                assert(again.postings == s2.postings);
                assert(again.ranks == s2.ranks);
                assert(again == s3);
            }
        },
    }
}

/// Running the whole pipeline twice on the same page (analysing it, then
/// publishing the analysis) leaves the same state as running it once: both
/// analyses agree on the key, the links and the keywords, and the record stored
/// by the first is kept.
pub proof fn lemma_pipeline_twice(
    s: IndexState,
    gateway: Seq<char>,
    key: Seq<char>,
    page: Seq<char>,
    p1: PageView,
    p2: PageView,
)
    requires
        state_wf(s),
        analysis_of(p1, gateway, key, page),
        analysis_of(p2, gateway, key, page),
    ensures
        after_publish(after_publish(s, p1), p2) == after_publish(s, p1),
{
    let once = after_publish(s, p1);
    lemma_publish_twice(s, p1);
    crate::index_queue::lemma_enqueue_all_keeps(s, p1.links);
    crate::index_queue::lemma_enqueue_all_keeps(once, p1.links);
    match p1.result {
        None => {
            assert(p2.result is None);
        },
        Some(r1) => {
            let r2 = p2.result->0;
            assert(keyword_map(r2.keywords) == keyword_map(r1.keywords));
            let s1 = after_enqueue_all(once, p1.links);
            let ws = keyword_map(r1.keywords).dom();
            assert(once.results.contains_key(p1.key));
            assert(after_postings(s1, p1.key, ws).results.contains_key(p1.key));
        },
    }
}

/// The cached count of a keyword equals the number of work keys listed under it,
/// wherever that number fits in a `u32`.
pub proof fn lemma_rank_matches_postings(q: &IndexQueue, w: Seq<char>)
    requires
        q.wf(),
        q@.postings.contains_key(w),
        q@.postings[w].len() <= u32::MAX,
    ensures
        q@.ranks.contains_key(w),
        q@.ranks[w] == q@.postings[w].len(),
{
}

/// Every keyword has a cached count of at least one.
pub proof fn lemma_rank_positive(q: &IndexQueue, w: Seq<char>)
    requires
        q.wf(),
        q@.postings.contains_key(w),
    ensures
        q@.ranks.contains_key(w),
        q@.ranks[w] >= 1,
{
}

/// A word of at most three bytes is not a keyword, unless it is the lowercase
/// form of a longer word.
pub proof fn lemma_short_words_unlisted(q: &IndexQueue, w: Seq<char>)
    requires
        q.wf(),
        utf8_len(w) <= 3,
        forall|t: Seq<char>| #[trigger] lower_of(t) == w ==> !is_long(t),
    ensures
        !q@.postings.contains_key(w),
{
}

} // verus!
