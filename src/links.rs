//! Work keys: the gateway URL of a key, the redirect target of a meta refresh,
//! and the key that an anchor's `href` leads to.

use vstd::prelude::*;
use vstd::string::StringExecFns;
use crate::html::opt_view;
use crate::text::{chars_of, push_char};

verus! {

/// `p` is a prefix of `s`.
pub open spec fn is_prefix(p: Seq<char>, s: Seq<char>) -> bool {
    p.len() <= s.len() && s.subrange(0, p.len() as int) == p
}

/// `p` occurs in `s` at position `i`.
pub open spec fn occurs_at(s: Seq<char>, p: Seq<char>, i: int) -> bool {
    0 <= i && i + p.len() <= s.len() && s.subrange(i, i + p.len()) == p
}

/// The first position at or after `i` where `p` occurs in `s`.
pub open spec fn find_from(s: Seq<char>, p: Seq<char>, i: int) -> Option<int>
    decreases s.len() + 1 - i,
{
    if i < 0 || i + p.len() > s.len() {
        None
    } else if occurs_at(s, p, i) {
        Some(i)
    } else {
        find_from(s, p, i + 1)
    }
}

/// The position of the last `c` in `s`, or -1.
pub open spec fn last_index_of(s: Seq<char>, c: char) -> int
    decreases s.len(),
{
    if s.len() == 0 {
        -1
    } else if s.last() == c {
        s.len() - 1
    } else {
        last_index_of(s.drop_last(), c)
    }
}

/// `s` without its leading slashes.
pub open spec fn trim_slashes(s: Seq<char>) -> Seq<char>
    decreases s.len(),
{
    if s.len() > 0 && s[0] == '/' {
        trim_slashes(s.drop_first())
    } else {
        s
    }
}

/// The directory of a work key: the key up to its last slash, or the whole key.
pub open spec fn dir_of(k: Seq<char>) -> Seq<char> {
    let i = last_index_of(k, '/');
    if i < 0 {
        k
    } else {
        k.subrange(0, i)
    }
}

/// `rest` below the directory `dir`, with exactly one slash between them.
pub open spec fn join_path(dir: Seq<char>, rest: Seq<char>) -> Seq<char> {
    let r = trim_slashes(rest);
    if r.len() == 0 {
        dir
    } else {
        dir + seq!['/'] + r
    }
}

/// The address at which the gateway serves a work key.
pub open spec fn page_url_of(gateway: Seq<char>, key: Seq<char>) -> Seq<char> {
    "http://"@ + gateway + "/ipfs/"@ + key
}

/// The address of a redirect target below the page at `url`.
pub open spec fn redirect_url_of(url: Seq<char>, target: Seq<char>) -> Seq<char> {
    url + seq!['/'] + target
}

/// The work key under which a redirected page is indexed.
pub open spec fn redirect_key_of(key: Seq<char>, target: Seq<char>) -> Seq<char> {
    key + seq!['/'] + target
}

/// The target of a meta refresh in the inner HTML of a `noscript` element:
/// the text after the first `url=` up to the next double quote, or to the end.
pub open spec fn redirect_target_of(inner: Seq<char>) -> Option<Seq<char>> {
    if find_from(inner, "meta http-equiv=\"refresh\""@, 0) is None {
        None
    } else {
        match find_from(inner, "url="@, 0) {
            None => None,
            Some(i) => {
                let rest = inner.subrange(i + 4, inner.len() as int);
                match find_from(rest, "\""@, 0) {
                    Some(j) => Some(rest.subrange(0, j)),
                    None => Some(rest),
                }
            },
        }
    }
}

/// The work key that an anchor's `href` leads to on a page indexed under `key`,
/// or `None` where the link is not followed.
pub open spec fn link_key_of(gateway: Seq<char>, key: Seq<char>, href: Seq<char>) -> Option<Seq<char>> {
    let plain = "http://"@ + gateway + "/ipfs/"@;
    let secure = "https://"@ + gateway + "/ipfs/"@;
    if is_prefix(plain, href) {
        let rest = href.subrange(plain.len() as int, href.len() as int);
        if rest.len() == 0 { None } else { Some(rest) }
    } else if is_prefix(secure, href) {
        let rest = href.subrange(secure.len() as int, href.len() as int);
        if rest.len() == 0 { None } else { Some(rest) }
    } else if is_prefix("http"@, href) || is_prefix("#"@, href) || href.len() == 0 {
        None
    } else if is_prefix("../A"@, href) {
        Some(join_path(dir_of(key), href.subrange(4, href.len() as int)))
    } else {
        Some(join_path(dir_of(key), href))
    }
}

/// The chars `s[from..to]` as a string.
fn string_of_range(s: &Vec<char>, from: usize, to: usize) -> (r: String)
    requires
        from <= to <= s.len(),
    ensures
        r@ == s@.subrange(from as int, to as int),
{
    let mut r = String::new();
    let mut i: usize = from;
    while i < to
        invariant
            from <= i <= to <= s.len(),
            r@ == s@.subrange(from as int, i as int),
        decreases to - i,
    {
        push_char(&mut r, s[i]);
        i = i + 1;
        assert(r@ =~= s@.subrange(from as int, i as int));
    }
    r
}

/// Whether `p` occurs in `s` at position `i`.
fn occurs_at_exec(s: &Vec<char>, p: &Vec<char>, i: usize) -> (r: bool)
    ensures
        r == occurs_at(s@, p@, i as int),
{
    if i > s.len() || p.len() > s.len() - i {
        return false;
    }
    let mut j: usize = 0;
    while j < p.len()
        invariant
            i + p.len() <= s.len(),
            j <= p.len(),
            forall|m: int| 0 <= m < j ==> s@[i + m] == p@[m],
        decreases p.len() - j,
    {
        if s[i + j] != p[j] {
            assert(s@.subrange(i as int, i + p.len())[j as int] != p@[j as int]);
            return false;
        }
        j = j + 1;
    }
    assert(s@.subrange(i as int, i + p.len()) =~= p@);
    true
}

/// The first position where `p` occurs in `s`.
pub(crate) fn find_exec(s: &Vec<char>, p: &Vec<char>) -> (r: Option<usize>)
    ensures
        match r {
            Some(i) => find_from(s@, p@, 0) == Some(i as int),
            None => find_from(s@, p@, 0) is None,
        },
{
    if p.len() > s.len() {
        return None;
    }
    let mut i: usize = 0;
    let last = s.len() - p.len();
    loop
        invariant
            last == s.len() - p.len(),
            i <= last,
            find_from(s@, p@, 0) == find_from(s@, p@, i as int),
        decreases last - i,
    {
        if occurs_at_exec(s, p, i) {
            return Some(i);
        }
        if i == last {
            assert(find_from(s@, p@, i + 1) is None);
            return None;
        }
        i = i + 1;
    }
}

/// Whether the string `p` is a prefix of `s`.
fn has_prefix(s: &Vec<char>, p: &str) -> (r: bool)
    ensures
        r == is_prefix(p@, s@),
{
    let pc = chars_of(p);
    let r = occurs_at_exec(s, &pc, 0);
    proof {
        if r {
            assert(is_prefix(p@, s@));
        }
    }
    r
}

/// Where `find_from` finds `p`, it does occur there.
pub proof fn lemma_find_from(s: Seq<char>, p: Seq<char>, i: int)
    ensures
        match find_from(s, p, i) {
            Some(j) => i <= j && occurs_at(s, p, j),
            None => true,
        },
    decreases s.len() + 1 - i,
{
    if !(i < 0 || i + p.len() > s.len()) && !occurs_at(s, p, i) {
        lemma_find_from(s, p, i + 1);
    }
}

/// The position of the last `c` in `s`.
fn last_index_exec(s: &Vec<char>, c: char) -> (r: Option<usize>)
    ensures
        match r {
            Some(i) => last_index_of(s@, c) == i as int && i < s.len(),
            None => last_index_of(s@, c) == -1,
        },
{
    let mut j: usize = s.len();
    assert(s@.subrange(0, j as int) =~= s@);
    while j > 0
        invariant
            j <= s.len(),
            last_index_of(s@, c) == last_index_of(s@.subrange(0, j as int), c),
        decreases j,
    {
        if s[j - 1] == c {
            return Some(j - 1);
        }
        assert(s@.subrange(0, j as int).drop_last() =~= s@.subrange(0, j - 1));
        j = j - 1;
    }
    None
}

/// `s` without its leading slashes.
fn trim_slashes_exec(s: &Vec<char>) -> (r: String)
    ensures
        r@ == trim_slashes(s@),
{
    let mut k: usize = 0;
    assert(s@.subrange(0, s.len() as int) =~= s@);
    while k < s.len() && s[k] == '/'
        invariant
            k <= s.len(),
            trim_slashes(s@) == trim_slashes(s@.subrange(k as int, s.len() as int)),
        decreases s.len() - k,
    {
        assert(s@.subrange(k as int, s.len() as int).drop_first() =~= s@.subrange(k + 1, s.len() as int));
        k = k + 1;
    }
    string_of_range(s, k, s.len())
}

/// `rest` below the directory `dir`, with exactly one slash between them.
fn join_path_exec(dir: String, rest: &Vec<char>) -> (r: String)
    ensures
        r@ == join_path(dir@, rest@),
{
    let r = trim_slashes_exec(rest);
    if r.as_str().is_empty() {
        dir
    } else {
        let mut d = dir;
        push_char(&mut d, '/');
        d.append(r.as_str());
        d
    }
}

/// The directory of a work key: the key up to its last slash, or the whole key.
fn dir_exec(key: &Vec<char>) -> (r: String)
    ensures
        r@ == dir_of(key@),
{
    match last_index_exec(key, '/') {
        Some(i) => string_of_range(key, 0, i),
        None => {
            assert(key@.subrange(0, key@.len() as int) =~= key@);
            string_of_range(key, 0, key.len())
        },
    }
}

/// The address at which the gateway serves a work key.
pub fn page_url(gateway: &str, key: &str) -> (r: String)
    ensures
        r@ == page_url_of(gateway@, key@),
{
    let mut r = "http://".to_owned();
    r.append(gateway);
    r.append("/ipfs/");
    r.append(key);
    r
}

/// The address of a redirect target below the page at `url`.
pub fn redirect_url(url: &str, target: &str) -> (r: String)
    ensures
        r@ == redirect_url_of(url@, target@),
{
    let mut r = url.to_owned();
    push_char(&mut r, '/');
    r.append(target);
    r
}

/// The work key under which a redirected page is indexed.
pub fn redirect_key(key: &str, target: &str) -> (r: String)
    ensures
        r@ == redirect_key_of(key@, target@),
{
    let mut r = key.to_owned();
    push_char(&mut r, '/');
    r.append(target);
    r
}

/// The target of a meta refresh in the inner HTML of a `noscript` element.
pub fn redirect_target(inner: &str) -> (r: Option<String>)
    ensures
        opt_view(r) == redirect_target_of(inner@),
{
    let s = chars_of(inner);
    let marker = chars_of("meta http-equiv=\"refresh\"");
    if find_exec(&s, &marker).is_none() {
        return None;
    }
    let url_at = chars_of("url=");
    proof {
        reveal_strlit("url=");
    }
    match find_exec(&s, &url_at) {
        None => None,
        Some(i) => {
            proof {
                lemma_find_from(s@, "url="@, 0);
                assert(url_at@.len() == 4);
                assert(occurs_at(s@, url_at@, i as int));
            }
            let n = s.len();
            let rest_s = string_of_range(&s, i + 4, n);
            let rest = chars_of(rest_s.as_str());
            let quote = chars_of("\"");
            match find_exec(&rest, &quote) {
                Some(j) => {
                    proof {
                        lemma_find_from(rest@, "\""@, 0);
                    }
                    Some(string_of_range(&rest, 0, j))
                },
                None => {
                    assert(rest@.subrange(0, rest@.len() as int) =~= rest@);
                    Some(rest_s)
                },
            }
        },
    }
}

/// What follows the prefix `p` in `h`, or `None` where nothing does.
fn rest_after(h: &Vec<char>, p: &String) -> (r: Option<String>)
    requires
        is_prefix(p@, h@),
    ensures
        opt_view(r) == (if h@.len() == p@.len() {
            None
        } else {
            Some(h@.subrange(p@.len() as int, h@.len() as int))
        }),
{
    let n = p.as_str().unicode_len();
    if n == h.len() {
        None
    } else {
        Some(string_of_range(h, n, h.len()))
    }
}

/// The work key that an anchor's `href` leads to on a page indexed under `key`,
/// or `None` where the link is not followed.
pub fn link_key(gateway: &str, key: &str, href: &str) -> (r: Option<String>)
    ensures
        opt_view(r) == link_key_of(gateway@, key@, href@),
{
    let h = chars_of(href);
    let mut plain = "http://".to_owned();
    plain.append(gateway);
    plain.append("/ipfs/");
    let mut secure = "https://".to_owned();
    secure.append(gateway);
    secure.append("/ipfs/");
    if has_prefix(&h, plain.as_str()) {
        rest_after(&h, &plain)
    } else if has_prefix(&h, secure.as_str()) {
        rest_after(&h, &secure)
    } else if has_prefix(&h, "http") || has_prefix(&h, "#") || h.len() == 0 {
        None
    } else {
        let k = chars_of(key);
        let dir = dir_exec(&k);
        if has_prefix(&h, "../A") {
            proof {
                reveal_strlit("../A");
            }
            let rest_s = string_of_range(&h, 4, h.len());
            let rest = chars_of(rest_s.as_str());
            Some(join_path_exec(dir, &rest))
        } else {
            Some(join_path_exec(dir, &h))
        }
    }
}

} // verus!
