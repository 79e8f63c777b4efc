//! Ranking of (word, count) entries by descending count.

use vstd::prelude::*;

verus! {

/// The views of (word, count) entries.
pub open spec fn entry_views(v: Seq<(String, u32)>) -> Seq<(Seq<char>, u32)> {
    v.map_values(|e: (String, u32)| (e.0@, e.1))
}

/// The counts of `s` never grow from one entry to a later one.
pub open spec fn non_increasing(s: Seq<(Seq<char>, u32)>) -> bool {
    forall|i: int, j: int| 0 <= i < j < s.len() ==> s[i].1 >= s[j].1
}

/// `p` is an arrangement of the positions `0..n`: each of them once.
pub open spec fn arranges(p: Seq<int>, n: nat) -> bool {
    &&& p.len() == n
    &&& forall|i: int| 0 <= i < n ==> 0 <= #[trigger] p[i] < n
    &&& forall|i: int, j: int| 0 <= i < j < n ==> p[i] != p[j]
}

/// `r` lists the `n` entries of `es` with the highest counts (all of them where
/// there are fewer), highest first: some arrangement of `es` starts with `r`, and
/// no entry that it leaves out has a higher count than the last one of `r`.
pub open spec fn is_top(r: Seq<(Seq<char>, u32)>, es: Seq<(Seq<char>, u32)>, n: nat) -> bool {
    &&& r.len() == (if n < es.len() { n } else { es.len() })
    &&& non_increasing(r)
    &&& exists|p: Seq<int>|
        {
            &&& #[trigger] arranges(p, es.len())
            &&& forall|i: int| 0 <= i < r.len() ==> r[i] == es[p[i]]
            &&& forall|i: int| 0 < r.len() <= i < es.len() ==> es[p[i]].1 <= r[r.len() - 1].1
        }
}

/// Copies of the entries `es`, ordered by descending count; entries with equal
/// counts keep their order.
pub fn sorted_by_count(es: &Vec<(String, u32)>) -> (r: Vec<(String, u32)>)
    ensures
        r@.len() == es@.len(),
        non_increasing(entry_views(r@)),
        exists|p: Seq<int>|
            #[trigger] arranges(p, es@.len()) && forall|i: int|
                0 <= i < es@.len() ==> entry_views(r@)[i] == entry_views(es@)[p[i]],
{
    let mut out: Vec<(String, u32)> = Vec::new();
    let ghost mut p: Seq<int> = Seq::empty();
    let mut i: usize = 0;
    while i < es.len()
        invariant
            i <= es.len(),
            out@.len() == i,
            p.len() == i,
            non_increasing(entry_views(out@)),
            forall|m: int| 0 <= m < i ==> 0 <= #[trigger] p[m] < i,
            forall|m: int, k: int| 0 <= m < k < i ==> p[m] != p[k],
            forall|m: int| 0 <= m < i ==> entry_views(out@)[m] == entry_views(es@)[p[m]],
        decreases es.len() - i,
    {
        let c = es[i].1;
        let mut pos: usize = 0;
        while pos < out.len() && out[pos].1 >= c
            invariant
                pos <= out@.len(),
                forall|m: int| 0 <= m < pos ==> out@[m].1 >= c,
            decreases out@.len() - pos,
        {
            pos = pos + 1;
        }
        let ghost before = entry_views(out@);
        let ghost old_p = p;
        let w = es[i].0.clone();
        out.insert(pos, (w, c));
        proof {
            p = old_p.insert(pos as int, i as int);
            let after = entry_views(out@);
            assert(after =~= before.insert(pos as int, (es@[i as int].0@, c)));
            assert forall|a: int, b: int| 0 <= a < b < after.len() implies after[a].1 >= after[b].1 by {
                if b < pos {
                } else if a < pos && b == pos {
                } else if a < pos {
                    assert(after[b] == before[b - 1]);
                } else if a == pos {
                    assert(after[b] == before[b - 1]);
                    if pos < before.len() {
                        assert(before[pos as int].1 < c);
                    }
                } else {
                    assert(after[a] == before[a - 1]);
                    assert(after[b] == before[b - 1]);
                }
            }
            assert forall|m: int| 0 <= m < i + 1 implies 0 <= #[trigger] p[m] < i + 1 by {
                if m < pos {
                } else if m > pos {
                    assert(p[m] == old_p[m - 1]);
                }
            }
            assert forall|m: int, k: int| 0 <= m < k < i + 1 implies p[m] != p[k] by {
                if m < pos && k < pos {
                } else if k == pos {
                    assert(old_p[m] < i);
                } else if m == pos {
                    assert(p[k] == old_p[k - 1]);
                } else if m < pos {
                    assert(p[k] == old_p[k - 1]);
                } else {
                    assert(p[m] == old_p[m - 1]);
                    assert(p[k] == old_p[k - 1]);
                }
            }
            assert forall|m: int| 0 <= m < i + 1 implies entry_views(out@)[m] == entry_views(es@)[p[m]] by {
                if m < pos {
                } else if m > pos {
                    assert(p[m] == old_p[m - 1]);
                    assert(after[m] == before[m - 1]);
                }
            }
        }
        i = i + 1;
    }
    assert(arranges(p, es@.len()));
    out
}

/// The `n` entries of `es` with the highest counts, highest first.
pub fn top_entries(es: &Vec<(String, u32)>, n: usize) -> (r: Vec<(String, u32)>)
    ensures
        is_top(entry_views(r@), entry_views(es@), n as nat),
{
    let mut r = sorted_by_count(es);
    let ghost full = entry_views(r@);
    let ghost p = choose|p: Seq<int>|
        #[trigger] arranges(p, es@.len()) && forall|i: int|
            0 <= i < es@.len() ==> entry_views(r@)[i] == entry_views(es@)[p[i]];
    if n < r.len() {
        r.truncate(n);
    }
    proof {
        let rv = entry_views(r@);
        let ev = entry_views(es@);
        assert(rv =~= full.subrange(0, rv.len() as int));
        assert(arranges(p, ev.len()));
        assert forall|i: int| 0 <= i < rv.len() implies rv[i] == ev[p[i]] by {
            assert(rv[i] == full[i]);
            assert(full[i] == ev[p[i]]);
        }
        assert forall|i: int| 0 < rv.len() <= i < ev.len() implies ev[p[i]].1 <= rv[rv.len() - 1].1 by {
            assert(full[i] == ev[p[i]]);
            assert(rv[rv.len() - 1] == full[rv.len() - 1]);
        }
    }
    r
}

} // verus!
