//! The concurrent collections the index keeps its state in: a bounded FIFO from
//! `crossbeam_queue` and hash maps from `dashmap`. Each is known to the proofs
//! through a name for what it holds; every operation the index performs on one
//! is a function below whose contract states its effect on that name.

use vstd::prelude::*;
use crossbeam_queue::ArrayQueue;
use dashmap::DashMap;
use crate::index_result::{keyword_map, unique_keys, IndexResult, ResultView};
use crate::ranking::entry_views;
use crate::text::views;

verus! {

#[verifier::external_type_specification]
#[verifier::external_body]
#[verifier::reject_recursive_types(T)]
pub struct ExArrayQueue<T>(ArrayQueue<T>);

#[verifier::external_type_specification]
#[verifier::external_body]
#[verifier::reject_recursive_types(K)]
#[verifier::reject_recursive_types(V)]
#[verifier::reject_recursive_types(S)]
pub struct ExDashMap<K, V, S>(DashMap<K, V, S>);

/// The keys waiting in a queue, oldest first.
pub uninterp spec fn queue_items(q: ArrayQueue<String>) -> Seq<Seq<char>>;

/// The number of keys a queue was made to hold.
pub uninterp spec fn queue_capacity(q: ArrayQueue<String>) -> nat;

/// The keys of a map used as a set.
pub uninterp spec fn key_set(m: DashMap<String, ()>) -> Set<Seq<char>>;

/// The records of a map from work key to record.
pub uninterp spec fn result_map(m: DashMap<String, IndexResult>) -> Map<Seq<char>, ResultView>;

/// The work keys listed under each keyword of a map of keyword to key set.
pub uninterp spec fn posting_map(m: DashMap<String, DashMap<String, ()>>) -> Map<Seq<char>, Set<Seq<char>>>;

/// The counts of a map from keyword to count.
pub uninterp spec fn rank_map(m: DashMap<String, u32>) -> Map<Seq<char>, u32>;

/// Relies on `ArrayQueue::new`: an empty queue with room for `cap` items; it
/// panics on a zero capacity.
#[verifier::external_body]
pub(crate) fn new_queue(cap: usize) -> (q: ArrayQueue<String>)
    requires
        0 < cap <= 0xffff,
    ensures
        queue_items(q) == Seq::<Seq<char>>::empty(),
        queue_capacity(q) == cap,
{
    ArrayQueue::new(cap)
}

/// Relies on `ArrayQueue::push_mut`: the item goes to the back unless the queue
/// is full, and then it is handed back.
#[verifier::external_body]
pub(crate) fn queue_push(q: &mut ArrayQueue<String>, item: String) -> (r: bool)
    ensures
        queue_capacity(*final(q)) == queue_capacity(*old(q)),
        r == (queue_items(*old(q)).len() < queue_capacity(*old(q))),
        r ==> queue_items(*final(q)) == queue_items(*old(q)).push(item@),
        !r ==> queue_items(*final(q)) == queue_items(*old(q)),
{
    q.push_mut(item).is_ok()
}

/// Relies on `ArrayQueue::pop_mut`: the oldest item leaves, or `None` when the
/// queue is empty.
#[verifier::external_body]
pub(crate) fn queue_pop(q: &mut ArrayQueue<String>) -> (r: Option<String>)
    ensures
        queue_capacity(*final(q)) == queue_capacity(*old(q)),
        match r {
            Some(k) => queue_items(*old(q)).len() > 0 && k@ == queue_items(*old(q))[0]
                && queue_items(*final(q)) == queue_items(*old(q)).drop_first(),
            None => queue_items(*old(q)).len() == 0 && queue_items(*final(q)) == queue_items(*old(q)),
        },
{
    q.pop_mut()
}

/// Relies on `ArrayQueue::len`: the number of items in the queue.
#[verifier::external_body]
pub(crate) fn queue_len(q: &ArrayQueue<String>) -> (r: usize)
    ensures
        r == queue_items(*q).len(),
{
    q.len()
}

/// Relies on `DashMap::new`: an empty map.
#[verifier::external_body]
pub(crate) fn new_key_set() -> (m: DashMap<String, ()>)
    ensures
        key_set(m) == Set::<Seq<char>>::empty(),
{
    DashMap::new()
}

/// Relies on `DashMap::contains_key`.
#[verifier::external_body]
pub(crate) fn key_set_contains(m: &DashMap<String, ()>, k: &String) -> (r: bool)
    ensures
        r == key_set(*m).contains(k@),
{
    m.contains_key(k)
}

/// Relies on `DashMap::insert`.
#[verifier::external_body]
pub(crate) fn key_set_insert(m: &mut DashMap<String, ()>, k: String)
    ensures
        key_set(*final(m)) == key_set(*old(m)).insert(k@),
{
    m.insert(k, ());
}

/// Relies on `DashMap::remove`.
#[verifier::external_body]
pub(crate) fn key_set_remove(m: &mut DashMap<String, ()>, k: &String)
    ensures
        key_set(*final(m)) == key_set(*old(m)).remove(k@),
{
    m.remove(k);
}

/// Relies on `DashMap::new`: an empty map.
#[verifier::external_body]
pub(crate) fn new_result_map() -> (m: DashMap<String, IndexResult>)
    ensures
        result_map(m).dom() == Set::<Seq<char>>::empty(),
{
    DashMap::new()
}

/// Relies on `DashMap::contains_key`.
#[verifier::external_body]
pub(crate) fn result_map_contains(m: &DashMap<String, IndexResult>, k: &String) -> (r: bool)
    ensures
        r == result_map(*m).contains_key(k@),
{
    m.contains_key(k)
}

/// Relies on `DashMap::get`, and on the derived `Clone` of the record, which
/// clones each field.
#[verifier::external_body]
pub(crate) fn result_map_get(m: &DashMap<String, IndexResult>, k: &String) -> (r: Option<IndexResult>)
    ensures
        match r {
            Some(x) => result_map(*m).contains_key(k@) && x@ == result_map(*m)[k@],
            None => !result_map(*m).contains_key(k@),
        },
{
    match m.get(k) {
        Some(e) => Some(e.value().clone()),
        None => None,
    }
}

/// Relies on `DashMap::insert`.
#[verifier::external_body]
pub(crate) fn result_map_insert(m: &mut DashMap<String, IndexResult>, k: String, v: IndexResult)
    ensures
        result_map(*final(m)) == result_map(*old(m)).insert(k@, v@),
{
    m.insert(k, v);
}

/// Relies on `DashMap::len`: the number of keys.
#[verifier::external_body]
pub(crate) fn result_map_len(m: &DashMap<String, IndexResult>) -> (r: usize)
    ensures
        r == result_map(*m).len(),
{
    m.len()
}

/// Relies on `DashMap::new`: an empty map.
#[verifier::external_body]
pub(crate) fn new_posting_map() -> (m: DashMap<String, DashMap<String, ()>>)
    ensures
        posting_map(m).dom() == Set::<Seq<char>>::empty(),
{
    DashMap::new()
}

/// The work keys listed under `w`; none where `w` has no entry.
pub open spec fn postings_of(p: Map<Seq<char>, Set<Seq<char>>>, w: Seq<char>) -> Set<Seq<char>> {
    if p.contains_key(w) {
        p[w]
    } else {
        Set::empty()
    }
}

/// Relies on `DashMap::entry`, `Entry::or_default`, `DashMap::insert` and
/// `DashMap::len`: lists `k` under `w`, making the entry of `w` where there is
/// none, and returns how many keys are then listed under `w`.
#[verifier::external_body]
pub(crate) fn posting_map_add(m: &mut DashMap<String, DashMap<String, ()>>, w: &String, k: &String) -> (r: usize)
    ensures
        posting_map(*final(m)) == posting_map(*old(m)).insert(
            w@,
            postings_of(posting_map(*old(m)), w@).insert(k@),
        ),
        r == postings_of(posting_map(*old(m)), w@).insert(k@).len(),
{
    let set = m.entry(w.clone()).or_default();
    set.insert(k.clone(), ());
    set.len()
}

/// Relies on `DashMap::get` and `DashMap::iter`: the keys listed under `w`, each
/// once, in no particular order.
#[verifier::external_body]
pub(crate) fn posting_map_keys(m: &DashMap<String, DashMap<String, ()>>, w: &String) -> (r: Vec<String>)
    ensures
        views(r@).no_duplicates(),
        views(r@).to_set() == postings_of(posting_map(*m), w@),
{
    match m.get(w) {
        Some(set) => set.iter().map(|e| e.key().clone()).collect(),
        None => Vec::new(),
    }
}

/// Relies on `DashMap::len`: the number of keys.
#[verifier::external_body]
pub(crate) fn posting_map_len(m: &DashMap<String, DashMap<String, ()>>) -> (r: usize)
    ensures
        r == posting_map(*m).len(),
{
    m.len()
}

/// Relies on `DashMap::new`: an empty map.
#[verifier::external_body]
pub(crate) fn new_rank_map() -> (m: DashMap<String, u32>)
    ensures
        rank_map(m).dom() == Set::<Seq<char>>::empty(),
{
    DashMap::new()
}

/// Relies on `DashMap::insert`.
#[verifier::external_body]
pub(crate) fn rank_map_insert(m: &mut DashMap<String, u32>, w: String, c: u32)
    ensures
        rank_map(*final(m)) == rank_map(*old(m)).insert(w@, c),
{
    m.insert(w, c);
}

/// Relies on `DashMap::iter`: every (keyword, count) pair, each once, in no
/// particular order.
#[verifier::external_body]
pub(crate) fn rank_map_entries(m: &DashMap<String, u32>) -> (r: Vec<(String, u32)>)
    ensures
        unique_keys(entry_views(r@)),
        keyword_map(entry_views(r@)) == rank_map(*m),
{
    m.iter().map(|e| (e.key().clone(), *e.value())).collect()
}

} // verus!
