//! The analysis of one fetched page: the redirect it asks for, the work keys
//! it links to, and the record to index it under.

use vstd::prelude::*;
use crate::html::{
    all_anchor_hrefs, anchor_hrefs, body_texts, first_body_texts, first_noscript_html,
    first_title_text, lower_of, lowercase, noscript_html, opt_view, title_text,
};
use crate::index_result::{keyword_map, lemma_keyword_map_unique, lemma_keyword_map_update, unique_keys, IndexResult, ResultView};
use crate::links::{
    find_exec, find_from, link_key, link_key_of, redirect_key, redirect_key_of, redirect_target,
    redirect_target_of, redirect_url, redirect_url_of,
};
use crate::ranking::entry_views;
use crate::text::{chars_of, join_spaced, join_with_spaces, leading, leading_chars, split_words, views, words};

verus! {

/// The number of characters kept in an excerpt.
pub const EXCERPT_CHARS: usize = 128;

/// The number of bytes that UTF-8 takes for `c`.
pub open spec fn utf8_width(c: char) -> nat {
    let u = c as u32;
    if u < 0x80 {
        1
    } else if u < 0x800 {
        2
    } else if u < 0x10000 {
        3
    } else {
        4
    }
}

/// The number of bytes that UTF-8 takes for `t`.
pub open spec fn utf8_len(t: Seq<char>) -> nat
    decreases t.len(),
{
    if t.len() == 0 {
        0
    } else {
        utf8_len(t.drop_last()) + utf8_width(t.last())
    }
}

/// A word counts as a keyword when its UTF-8 encoding is longer than three bytes.
pub open spec fn is_long(t: Seq<char>) -> bool {
    utf8_len(t) > 3
}

/// A prefix takes no more bytes than the whole.
proof fn lemma_utf8_len_prefix(t: Seq<char>, i: int)
    requires
        0 <= i <= t.len(),
    ensures
        utf8_len(t.subrange(0, i)) <= utf8_len(t),
    decreases t.len() - i,
{
    if i < t.len() {
        lemma_utf8_len_prefix(t, i + 1);
        assert(t.subrange(0, i + 1).drop_last() =~= t.subrange(0, i));
    } else {
        assert(t.subrange(0, i) =~= t);
    }
}

/// Whether the UTF-8 encoding of `t` is longer than three bytes.
pub fn is_long_word(t: &str) -> (r: bool)
    ensures
        r == is_long(t@),
{
    let cs = chars_of(t);
    let mut total: u32 = 0;
    let mut i: usize = 0;
    while i < cs.len()
        invariant
            i <= cs.len(),
            cs@ == t@,
            total == utf8_len(cs@.subrange(0, i as int)),
            total <= 3,
        decreases cs.len() - i,
    {
        let u = cs[i] as u32;
        let w: u32 = if u < 0x80 {
            1
        } else if u < 0x800 {
            2
        } else if u < 0x10000 {
            3
        } else {
            4
        };
        assert(w as nat == utf8_width(cs@[i as int]));
        assert(cs@.subrange(0, i + 1).drop_last() =~= cs@.subrange(0, i as int));
        assert(cs@.subrange(0, i + 1).last() == cs@[i as int]);
        total = total + w;
        i = i + 1;
        if total > 3 {
            proof {
                lemma_utf8_len_prefix(cs@, i as int);
                assert(utf8_len(cs@) > 3);
            }
            return true;
        }
    }
    assert(cs@.subrange(0, cs@.len() as int) =~= cs@);
    false
}

/// `w` is the lowercase form of some long word.
pub open spec fn is_index_word(w: Seq<char>) -> bool {
    exists|t: Seq<char>| is_long(t) && #[trigger] lower_of(t) == w
}

/// One more occurrence of `w` in a table of counts, saturating at `u32::MAX`.
pub open spec fn bump(m: Map<Seq<char>, u32>, w: Seq<char>) -> Map<Seq<char>, u32> {
    if m.contains_key(w) {
        m.insert(w, if m[w] == u32::MAX { m[w] } else { (m[w] + 1) as u32 })
    } else {
        m.insert(w, 1)
    }
}

/// How often the lowercase form of each long word occurs among `ts`.
pub open spec fn word_counts(ts: Seq<Seq<char>>) -> Map<Seq<char>, u32>
    decreases ts.len(),
{
    if ts.len() == 0 {
        Map::empty()
    } else {
        let m = word_counts(ts.drop_last());
        if is_long(ts.last()) {
            bump(m, lower_of(ts.last()))
        } else {
            m
        }
    }
}

/// The work keys that the anchors `hrefs` lead to from a page indexed under `key`.
pub open spec fn page_links(gateway: Seq<char>, key: Seq<char>, hrefs: Seq<Option<Seq<char>>>) -> Seq<Seq<char>>
    decreases hrefs.len(),
{
    if hrefs.len() == 0 {
        seq![]
    } else {
        let init = page_links(gateway, key, hrefs.drop_last());
        match hrefs.last() {
            Some(h) => match link_key_of(gateway, key, h) {
                Some(l) => init.push(l),
                None => init,
            },
            None => init,
        }
    }
}

/// The words of a body's text pieces laid end to end with spaces between them.
pub open spec fn body_words(parts: Seq<Seq<char>>) -> Seq<Seq<char>> {
    words(join_spaced(parts))
}

/// The whitespace-normalised text of a body.
pub open spec fn body_content(parts: Seq<Seq<char>>) -> Seq<char> {
    join_spaced(body_words(parts))
}

/// The title of a page; empty where it has none.
pub open spec fn page_title(page: Seq<char>) -> Seq<char> {
    match title_text(page) {
        Some(t) => t,
        None => seq![],
    }
}

/// `r` is the record of the page source `page`, indexed under `key`, whose body
/// holds the text pieces `parts`.
pub open spec fn describes(r: ResultView, key: Seq<char>, page: Seq<char>, parts: Seq<Seq<char>>) -> bool {
    &&& r.cid == key
    &&& r.title == page_title(page)
    &&& r.excerpt == leading(body_content(parts), EXCERPT_CHARS as nat)
    &&& unique_keys(r.keywords)
    &&& keyword_map(r.keywords) == word_counts(body_words(parts))
}

/// The gateway reports, inside the page text, that the content it was asked for
/// does not exist.
pub open spec fn signals_missing_link(content: Seq<char>) -> bool {
    find_from(content, "no link named"@, 0) is Some
}

/// `p` is the analysis of the page source `page` that the gateway `gateway`
/// served for the work key `key`: it keeps the key, lists the work keys that the
/// anchors lead to, and has a record exactly where the page has a body.
pub open spec fn analysis_of(p: PageView, gateway: Seq<char>, key: Seq<char>, page: Seq<char>) -> bool {
    &&& p.key == key
    &&& p.links == page_links(gateway, key, anchor_hrefs(page))
    &&& p.missing_link == match body_texts(page) {
        Some(parts) => signals_missing_link(body_content(parts)),
        None => false,
    }
    &&& match body_texts(page) {
        None => p.result is None,
        Some(parts) => p.result is Some && describes(p.result->0, key, page, parts),
    }
}

/// The redirect target that a page asks for through a meta refresh in its first
/// `noscript` element.
pub open spec fn redirect_of_page(page: Seq<char>) -> Option<Seq<char>> {
    match noscript_html(page) {
        Some(inner) => redirect_target_of(inner),
        None => None,
    }
}

/// What the analysis of a page yields.
pub struct PageView {
    pub key: Seq<char>,
    pub links: Seq<Seq<char>>,
    pub missing_link: bool,
    pub result: Option<ResultView>,
}

/// The outcome of analysing a page: the key it is indexed under, the work keys
/// it links to, and its record where it has a body.
pub struct Page {
    key: String,
    links: Vec<String>,
    missing_link: bool,
    result: Option<IndexResult>,
}

impl View for Page {
    type V = PageView;

    closed spec fn view(&self) -> PageView {
        PageView {
            key: self.key@,
            links: views(self.links@),
            missing_link: self.missing_link,
            result: match self.result {
                Some(r) => Some(r@),
                None => None,
            },
        }
    }
}

impl Page {
    /// A record is indexed under the page's key, and every keyword in it is the
    /// lowercase form of a long word.
    #[verifier::type_invariant]
    closed spec fn inv(self) -> bool {
        match self.result {
            Some(r) => r.cid@ == self.key@ && r.excerpt@.len() <= EXCERPT_CHARS && forall|i: int|
                0 <= i < r.keywords@.len() ==> is_index_word(#[trigger] r.keywords@[i].0@),
            None => true,
        }
    }

    /// What a page's type invariant states, in terms of its view.
    pub(crate) fn invariant_holds(&self)
        ensures
            match self@.result {
                Some(r) => r.cid == self@.key && r.excerpt.len() <= EXCERPT_CHARS && forall|i: int|
                    0 <= i < r.keywords.len() ==> is_index_word(#[trigger] r.keywords[i].0),
                None => true,
            },
    {
        proof {
            use_type_invariant(self);
            match &self.result {
                Some(r) => {
                    assert forall|i: int| 0 <= i < r@.keywords.len() implies is_index_word(
                        #[trigger] r@.keywords[i].0,
                    ) by {
                        assert(r@.keywords[i].0 == r.keywords@[i].0@);
                    }
                },
                None => {},
            }
        }
    }

    /// The key, the links and the record of the page.
    pub fn into_parts(self) -> (r: (String, Vec<String>, Option<IndexResult>))
        ensures
            r.0@ == self@.key,
            views(r.1@) == self@.links,
            match r.2 {
                Some(x) => self@.result == Some(x@),
                None => self@.result is None,
            },
    {
        (self.key, self.links, self.result)
    }

    /// Whether the page text says that the gateway found no content under the key.
    pub fn reports_missing_link(&self) -> (r: bool)
        ensures
            r == self@.missing_link,
    {
        self.missing_link
    }

    /// The key the page is indexed under.
    pub fn key(&self) -> (r: &String)
        ensures
            r@ == self@.key,
    {
        &self.key
    }

    /// The work keys the page links to, in document order.
    pub fn links(&self) -> (r: &Vec<String>)
        ensures
            views(r@) == self@.links,
    {
        &self.links
    }

    /// The page's record, where it has one.
    pub fn result(&self) -> (r: &Option<IndexResult>)
        ensures
            match r {
                Some(x) => self@.result == Some(x@),
                None => self@.result is None,
            },
    {
        &self.result
    }
}

/// The redirect target that a page asks for through a meta refresh.
pub fn redirect_of(page: &str) -> (r: Option<String>)
    ensures
        opt_view(r) == redirect_of_page(page@),
{
    match first_noscript_html(page) {
        Some(inner) => redirect_target(inner.as_str()),
        None => None,
    }
}

/// How often the lowercase form of each long word of `ts` occurs.
pub fn count_words(ts: &Vec<String>) -> (r: Vec<(String, u32)>)
    ensures
        unique_keys(entry_views(r@)),
        keyword_map(entry_views(r@)) == word_counts(views(ts@)),
        forall|i: int| 0 <= i < r@.len() ==> is_index_word(#[trigger] r@[i].0@),
{
    let mut out: Vec<(String, u32)> = Vec::new();
    let mut i: usize = 0;
    while i < ts.len()
        invariant
            i <= ts.len(),
            unique_keys(entry_views(out@)),
            keyword_map(entry_views(out@)) == word_counts(views(ts@).subrange(0, i as int)),
            forall|m: int| 0 <= m < out@.len() ==> is_index_word(#[trigger] out@[m].0@),
        decreases ts.len() - i,
    {
        let ghost done = views(ts@).subrange(0, i as int);
        let ghost next = views(ts@).subrange(0, i + 1);
        assert(next.drop_last() =~= done);
        assert(next.last() == ts@[i as int]@);
        let t = &ts[i];
        let long = is_long_word(t.as_str());
        if !long {
            assert(word_counts(next) == word_counts(done));
        }
        if long {
            let w = lowercase(t.as_str());
            let mut j: usize = 0;
            while j < out.len() && out[j].0 != w
                invariant
                    j <= out@.len(),
                    forall|m: int| 0 <= m < j ==> out@[m].0@ != w@,
                decreases out@.len() - j,
            {
                j = j + 1;
            }
            let ghost before = entry_views(out@);
            let ghost old_out = out@;
            proof {
                lemma_keyword_map_unique(before);
            }
            if j < out.len() {
                let c = out[j].1;
                let c2 = if c == u32::MAX { c } else { c + 1 };
                assert(before[j as int].0 == w@);
                assert(before[j as int].1 == c);
                assert(keyword_map(before).contains_key(before[j as int].0));
                let k = out[j].0.clone();
                out.set(j, (k, c2));
                proof {
                    lemma_keyword_map_update(before, j as int, c2);
                    assert(entry_views(out@) =~= before.update(j as int, (before[j as int].0, c2)));
                    assert(keyword_map(before)[w@] == c);
                    assert(word_counts(next) == bump(word_counts(done), w@));
                    assert(keyword_map(entry_views(out@)) == word_counts(next));
                    assert forall|m: int| 0 <= m < out@.len() implies is_index_word(#[trigger] out@[m].0@) by {
                        assert(out@[m].0 == old_out[m].0);
                    }
                }
            } else {
                proof {
                    if keyword_map(before).contains_key(w@) {
                        let m = choose|m: int| 0 <= m < before.len() && #[trigger] before[m].0 == w@;
                        assert(out@[m].0@ == w@);
                    }
                }
                let ghost tv = t@;
                out.push((w, 1));
                proof {
                    assert(entry_views(out@) =~= before.push((lower_of(tv), 1u32)));
                    assert(entry_views(out@).drop_last() =~= before);
                    assert(!keyword_map(before).contains_key(w@));
                    assert(word_counts(next) == bump(word_counts(done), w@));
                    assert(keyword_map(entry_views(out@)) == word_counts(next));
                    assert(is_long(tv) && lower_of(tv) == out@[out@.len() - 1].0@);
                }
            }
        }
        i = i + 1;
    }
    assert(views(ts@).subrange(0, ts@.len() as int) =~= views(ts@));
    out
}

/// The work keys that the anchors of a page lead to.
fn collect_links(gateway: &str, key: &str, hrefs: &Vec<Option<String>>) -> (r: Vec<String>)
    ensures
        views(r@) == page_links(gateway@, key@, hrefs@.map_values(|o: Option<String>| opt_view(o))),
{
    let ghost hv = hrefs@.map_values(|o: Option<String>| opt_view(o));
    let mut links: Vec<String> = Vec::new();
    let mut i: usize = 0;
    while i < hrefs.len()
        invariant
            i <= hrefs.len(),
            hv == hrefs@.map_values(|o: Option<String>| opt_view(o)),
            views(links@) == page_links(gateway@, key@, hv.subrange(0, i as int)),
        decreases hrefs.len() - i,
    {
        let ghost done = hv.subrange(0, i as int);
        let ghost next = hv.subrange(0, i + 1);
        assert(next.drop_last() =~= done);
        assert(next.last() == opt_view(hrefs@[i as int]));
        match &hrefs[i] {
            Some(h) => match link_key(gateway, key, h.as_str()) {
                Some(l) => {
                    let ghost before = links@;
                    links.push(l);
                    assert(views(links@) =~= views(before).push(l@));
                },
                None => {},
            },
            None => {},
        }
        i = i + 1;
    }
    assert(hv.subrange(0, hv.len() as int) =~= hv);
    links
}

/// Analyses the page source `page` that the gateway `gateway` served for the
/// work key `key`: the work keys its anchors lead to, and, where it has a body,
/// its record.
pub fn analyse_page(gateway: &str, key: &str, page: &str) -> (p: Page)
    ensures
        analysis_of(p@, gateway@, key@, page@),
{
    let hrefs = all_anchor_hrefs(page);
    let links = collect_links(gateway, key, &hrefs);
    let mut missing_link = false;
    let result = match first_body_texts(page) {
        None => None,
        Some(parts) => {
            let joined = join_with_spaces(&parts);
            let cs = chars_of(joined.as_str());
            let ws = split_words(&cs);
            let content = join_with_spaces(&ws);
            let content_chars = chars_of(content.as_str());
            missing_link = find_exec(&content_chars, &chars_of("no link named")).is_some();
            let title = match first_title_text(page) {
                Some(t) => t,
                None => String::new(),
            };
            let keywords = count_words(&ws);
            let excerpt = leading_chars(content.as_str(), EXCERPT_CHARS);
            assert(excerpt@.len() <= EXCERPT_CHARS);
            Some(IndexResult { cid: key.to_owned(), title, excerpt, keywords })
        },
    };
    Page { key: key.to_owned(), links, missing_link, result }
}

/// What a worker does next with a page it fetched for a work key.
pub enum NextStep {
    /// Analyse the page source `page` and index it under `key`.
    Analyse { key: String, page: String },
    /// Fetch the redirect target at `url`; what is found there is indexed under `key`.
    FollowRedirect { key: String, url: String },
}

/// The decision after the page source `page` was fetched from `url` for the work
/// key `key`: where the page asks for a redirect through a meta refresh, the
/// target is fetched below `url` and indexed under `key` and the target;
/// otherwise the page itself is analysed under `key`.
pub fn after_fetch(key: String, url: &str, page: String) -> (r: NextStep)
    ensures
        match r {
            NextStep::Analyse { key: k, page: p } => redirect_of_page(page@) is None && k@ == key@
                && p@ == page@,
            NextStep::FollowRedirect { key: k, url: u } => match redirect_of_page(page@) {
                Some(t) => k@ == redirect_key_of(key@, t) && u@ == redirect_url_of(url@, t),
                None => false,
            },
        },
{
    match redirect_of(page.as_str()) {
        None => NextStep::Analyse { key, page },
        Some(target) => NextStep::FollowRedirect {
            key: redirect_key(key.as_str(), target.as_str()),
            url: redirect_url(url, target.as_str()),
        },
    }
}

} // verus!
