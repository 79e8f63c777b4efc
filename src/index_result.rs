//! The record stored for one indexed page.

use vstd::prelude::*;
use crate::ranking::{entry_views, is_top, top_entries};

verus! {

/// A page's record: its work key, title, excerpt, and how often each keyword
/// occurs in it.
#[derive(Clone)]
pub struct IndexResult {
    pub cid: String,
    pub title: String,
    pub excerpt: String,
    pub keywords: Vec<(String, u32)>,
}

/// The mathematical content of an `IndexResult`.
pub struct ResultView {
    pub cid: Seq<char>,
    pub title: Seq<char>,
    pub excerpt: Seq<char>,
    pub keywords: Seq<(Seq<char>, u32)>,
}

impl View for IndexResult {
    type V = ResultView;

    open spec fn view(&self) -> ResultView {
        ResultView {
            cid: self.cid@,
            title: self.title@,
            excerpt: self.excerpt@,
            keywords: entry_views(self.keywords@),
        }
    }
}

/// No two entries share a word.
pub open spec fn unique_keys(es: Seq<(Seq<char>, u32)>) -> bool {
    forall|a: int, b: int| 0 <= a < b < es.len() ==> es[a].0 != es[b].0
}

/// The word-to-count table that a list of entries describes; a later entry
/// for a word replaces an earlier one.
pub open spec fn keyword_map(es: Seq<(Seq<char>, u32)>) -> Map<Seq<char>, u32>
    decreases es.len(),
{
    if es.len() == 0 {
        Map::empty()
    } else {
        keyword_map(es.drop_last()).insert(es.last().0, es.last().1)
    }
}

/// With unique words, the table holds exactly the entries.
pub proof fn lemma_keyword_map_unique(es: Seq<(Seq<char>, u32)>)
    requires
        unique_keys(es),
    ensures
        forall|j: int|
            0 <= j < es.len() ==> #[trigger] keyword_map(es).contains_key(es[j].0)
                && keyword_map(es)[es[j].0] == es[j].1,
        forall|k: Seq<char>|
            #[trigger] keyword_map(es).contains_key(k) ==> exists|j: int|
                0 <= j < es.len() && #[trigger] es[j].0 == k,
    decreases es.len(),
{
    if es.len() > 0 {
        let init = es.drop_last();
        assert(unique_keys(init)) by {
            assert forall|a: int, b: int| 0 <= a < b < init.len() implies init[a].0 != init[b].0 by {
                assert(init[a] == es[a]);
                assert(init[b] == es[b]);
            }
        }
        lemma_keyword_map_unique(init);
        assert(keyword_map(es) == keyword_map(init).insert(es.last().0, es.last().1));
        assert forall|j: int| 0 <= j < es.len() implies #[trigger] keyword_map(es).contains_key(es[j].0)
            && keyword_map(es)[es[j].0] == es[j].1 by {
            if j < es.len() - 1 {
                assert(init[j] == es[j]);
                assert(keyword_map(init).contains_key(init[j].0));
                assert(es[j].0 != es.last().0);
            }
        }
        assert forall|k: Seq<char>| #[trigger] keyword_map(es).contains_key(k) implies exists|j: int|
            0 <= j < es.len() && #[trigger] es[j].0 == k by {
            if k != es.last().0 {
                assert(keyword_map(init).contains_key(k));
                let j = choose|j: int| 0 <= j < init.len() && #[trigger] init[j].0 == k;
                assert(es[j].0 == k);
            } else {
                assert(es[es.len() - 1].0 == k);
            }
        }
    }
}

/// Replacing the count of a word that occurs once changes the table at that word only.
pub proof fn lemma_keyword_map_update(es: Seq<(Seq<char>, u32)>, j: int, c: u32)
    requires
        unique_keys(es),
        0 <= j < es.len(),
    ensures
        unique_keys(es.update(j, (es[j].0, c))),
        keyword_map(es.update(j, (es[j].0, c))) == keyword_map(es).insert(es[j].0, c),
{
    let es2 = es.update(j, (es[j].0, c));
    assert(unique_keys(es2)) by {
        assert forall|a: int, b: int| 0 <= a < b < es2.len() implies es2[a].0 != es2[b].0 by {
            assert(es2[a].0 == es[a].0);
            assert(es2[b].0 == es[b].0);
        }
    }
    lemma_keyword_map_unique(es);
    lemma_keyword_map_unique(es2);
    let m1 = keyword_map(es2);
    let m2 = keyword_map(es).insert(es[j].0, c);
    assert forall|k: Seq<char>| m1.contains_key(k) <==> m2.contains_key(k) by {
        if m1.contains_key(k) {
            let i = choose|i: int| 0 <= i < es2.len() && #[trigger] es2[i].0 == k;
            assert(es[i].0 == k);
            assert(keyword_map(es).contains_key(es[i].0));
        }
        if m2.contains_key(k) && k != es[j].0 {
            let i = choose|i: int| 0 <= i < es.len() && #[trigger] es[i].0 == k;
            assert(es2[i].0 == k);
            assert(m1.contains_key(es2[i].0));
        }
        if k == es[j].0 {
            assert(m1.contains_key(es2[j].0));
        }
    }
    assert forall|k: Seq<char>| #[trigger] m1.contains_key(k) implies m1[k] == m2[k] by {
        let i = choose|i: int| 0 <= i < es2.len() && #[trigger] es2[i].0 == k;
        if i != j {
            assert(es2[i] == es[i]);
            assert(keyword_map(es).contains_key(es[i].0));
        }
    }
    assert(m1 =~= m2);
}

/// The table that the entries `keywords` describe, with each word once; a later
/// entry for a word replaces the count of an earlier one.
pub fn collapse_keywords(keywords: &Vec<(String, u32)>) -> (out: Vec<(String, u32)>)
    ensures
        unique_keys(entry_views(out@)),
        keyword_map(entry_views(out@)) == keyword_map(entry_views(keywords@)),
{
    let mut out: Vec<(String, u32)> = Vec::new();
    let mut i: usize = 0;
    while i < keywords.len()
        invariant
            i <= keywords.len(),
            unique_keys(entry_views(out@)),
            keyword_map(entry_views(out@)) == keyword_map(
                entry_views(keywords@).subrange(0, i as int),
            ),
        decreases keywords.len() - i,
    {
        let ghost done = entry_views(keywords@).subrange(0, i as int);
        let ghost next = entry_views(keywords@).subrange(0, i + 1);
        assert(next.drop_last() =~= done);
        let w = &keywords[i].0;
        let c = keywords[i].1;
        let mut j: usize = 0;
        while j < out.len() && out[j].0 != *w
            invariant
                j <= out@.len(),
                forall|m: int| 0 <= m < j ==> out@[m].0@ != w@,
            decreases out@.len() - j,
        {
            j = j + 1;
        }
        let ghost before = entry_views(out@);
        if j < out.len() {
            out.set(j, (w.clone(), c));
            proof {
                lemma_keyword_map_update(before, j as int, c);
                assert(entry_views(out@) =~= before.update(j as int, (before[j as int].0, c)));
            }
        } else {
            out.push((w.clone(), c));
            proof {
                assert(entry_views(out@) =~= before.push((w@, c)));
                assert(entry_views(out@).drop_last() =~= before);
            }
        }
        i = i + 1;
    }
    assert(entry_views(keywords@).subrange(0, keywords@.len() as int) =~= entry_views(keywords@));
    out
}

impl IndexResult {
    /// The record of a page. Where `keywords` lists a word more than once, its
    /// last count is kept.
    pub fn new(cid: String, title: String, excerpt: String, keywords: Vec<(String, u32)>) -> (r:
        IndexResult)
        ensures
            r.cid@ == cid@,
            r.title@ == title@,
            r.excerpt@ == excerpt@,
            unique_keys(r@.keywords),
            keyword_map(r@.keywords) == keyword_map(entry_views(keywords@)),
    {
        let out = collapse_keywords(&keywords);
        IndexResult { cid, title, excerpt, keywords: out }
    }

    /// The `n` keywords that occur most often in the page, most frequent first,
    /// each once. Where `keywords` lists a word more than once, its last count is
    /// the one ranked.
    pub fn top_n_keywords(&self, n: u32) -> (r: Vec<(String, u32)>)
        ensures
            exists|es: Seq<(Seq<char>, u32)>|
                unique_keys(es) && keyword_map(es) == keyword_map(self@.keywords) && #[trigger] is_top(
                    entry_views(r@),
                    es,
                    n as nat,
                ),
    {
        let table = collapse_keywords(&self.keywords);
        let r = top_entries(&table, n as usize);
        assert(is_top(entry_views(r@), entry_views(table@), n as nat));
        r
    }
}

} // verus!
