//! What the analysis reads from a page, through the `scraper` HTML parser, and
//! the lowercase form of a word.
//!
//! Each query parses the page source again, so that what it returns is a
//! function of that source alone and can be named below.

use vstd::prelude::*;

verus! {

/// Inner HTML of the first `noscript` element of the parsed page, if there is one.
pub uninterp spec fn noscript_html(page: Seq<char>) -> Option<Seq<char>>;

/// Text of the first `title` element of the parsed page, if there is one.
pub uninterp spec fn title_text(page: Seq<char>) -> Option<Seq<char>>;

/// Text nodes of the first `body` element of the parsed page, if there is one.
pub uninterp spec fn body_texts(page: Seq<char>) -> Option<Seq<Seq<char>>>;

/// The `href` attribute of each `a` element of the parsed page, in document order.
pub uninterp spec fn anchor_hrefs(page: Seq<char>) -> Seq<Option<Seq<char>>>;

/// The lowercase form of a word.
pub uninterp spec fn lower_of(s: Seq<char>) -> Seq<char>;

/// The view of an optional string.
pub open spec fn opt_view(o: Option<String>) -> Option<Seq<char>> {
    match o {
        Some(t) => Some(t@),
        None => None,
    }
}

/// Relies on `scraper::Html::parse_document`, `Selector::parse` and
/// `ElementRef::inner_html`: the inner HTML of the first `noscript` element.
#[verifier::external_body]
pub(crate) fn first_noscript_html(page: &str) -> (r: Option<String>)
    ensures
        opt_view(r) == noscript_html(page@),
{
    let doc = scraper::Html::parse_document(page);
    let sel = scraper::Selector::parse("noscript").unwrap();
    match doc.select(&sel).next() {
        Some(e) => Some(e.inner_html()),
        None => None,
    }
}

/// Relies on `scraper::Html::parse_document`, `Selector::parse` and
/// `ElementRef::text`: the text of the first `title` element, its pieces concatenated.
#[verifier::external_body]
pub(crate) fn first_title_text(page: &str) -> (r: Option<String>)
    ensures
        opt_view(r) == title_text(page@),
{
    let doc = scraper::Html::parse_document(page);
    let sel = scraper::Selector::parse("title").unwrap();
    match doc.select(&sel).next() {
        Some(e) => Some(e.text().collect::<String>()),
        None => None,
    }
}

/// Relies on `scraper::Html::parse_document`, `Selector::parse` and
/// `ElementRef::text`: the text nodes of the first `body` element.
#[verifier::external_body]
pub(crate) fn first_body_texts(page: &str) -> (r: Option<Vec<String>>)
    ensures
        match r {
            Some(v) => body_texts(page@) == Some(v@.map_values(|t: String| t@)),
            None => body_texts(page@) is None,
        },
{
    let doc = scraper::Html::parse_document(page);
    let sel = scraper::Selector::parse("body").unwrap();
    match doc.select(&sel).next() {
        Some(e) => Some(e.text().map(String::from).collect()),
        None => None,
    }
}

/// Relies on `scraper::Html::parse_document`, `Selector::parse` and
/// `Element::attr`: the `href` attribute of every `a` element, in document order.
#[verifier::external_body]
pub(crate) fn all_anchor_hrefs(page: &str) -> (r: Vec<Option<String>>)
    ensures
        r@.map_values(|o: Option<String>| opt_view(o)) == anchor_hrefs(page@),
{
    let doc = scraper::Html::parse_document(page);
    let sel = scraper::Selector::parse("a").unwrap();
    let mut r = Vec::new();
    for e in doc.select(&sel) {
        r.push(e.value().attr("href").map(String::from));
    }
    r
}

/// Relies on `str::to_lowercase`: the result depends on the characters alone.
#[verifier::external_body]
pub(crate) fn lowercase(s: &str) -> (r: String)
    ensures
        r@ == lower_of(s@),
{
    s.to_lowercase()
}

} // verus!
