use ipfs_indexer::page::{after_fetch, analyse_page, redirect_of, NextStep};
use ipfs_indexer::IndexQueue;

fn sorted_keywords(v: &[(String, u32)]) -> Vec<(String, u32)> {
    let mut v = v.to_vec();
    v.sort();
    v
}

#[test]
fn bare_indexing() {
    let mut q = IndexQueue::new();
    q.enqueue("Qx".to_string());
    let key = q.try_pop().unwrap();
    assert_eq!(key, "Qx");
    let page = analyse_page(
        "g",
        &key,
        "<html><title>T</title><body>alpha beta gamma delta</body></html>",
    );
    q.publish(page);
    let found = q.search("alpha".to_string());
    assert_eq!(found.len(), 1);
    assert_eq!(found[0].cid, "Qx");
    assert_eq!(found[0].title, "T");
    assert_eq!(found[0].excerpt, "alpha beta gamma delta");
    assert_eq!(
        sorted_keywords(&found[0].keywords),
        vec![
            ("alpha".to_string(), 1),
            ("beta".to_string(), 1),
            ("delta".to_string(), 1),
            ("gamma".to_string(), 1)
        ]
    );
    assert_eq!(q.index_length(), 1);
    assert_eq!(q.keyword_length(), 4);
    let top = q.top_keywords(10);
    assert_eq!(top.len(), 4);
    assert!(top.contains(&("alpha".to_string(), 1)));
}

#[test]
fn meta_refresh_redirect() {
    let first = "<noscript><meta http-equiv=\"refresh\" content=\"0;url=sub/index.html\"></noscript>";
    let target = redirect_of(first).unwrap();
    assert_eq!(target, "sub/index.html");
    let key = ipfs_indexer::links::redirect_key("Qy", &target);
    assert_eq!(key, "Qy/sub/index.html");
    let url = ipfs_indexer::links::redirect_url(&ipfs_indexer::links::page_url("g", "Qy"), &target);
    assert_eq!(url, "http://g/ipfs/Qy/sub/index.html");
    let page = analyse_page("g", &key, "<body>hello world indexer</body>");
    let mut q = IndexQueue::new();
    q.publish(page);
    let found = q.search("world".to_string());
    assert_eq!(found.len(), 1);
    assert_eq!(found[0].cid, "Qy/sub/index.html");
    assert_eq!(
        sorted_keywords(&found[0].keywords),
        vec![
            ("hello".to_string(), 1),
            ("indexer".to_string(), 1),
            ("world".to_string(), 1)
        ]
    );
}

#[test]
fn no_redirect_without_noscript() {
    assert_eq!(redirect_of("<html><body>plain page</body></html>"), None);
}

#[test]
fn link_discovery() {
    let mut q = IndexQueue::new();
    let page = analyse_page(
        "g",
        "Qy/sub",
        "<body><a href=\"http://g/ipfs/Qz\">z</a><a href=\"../A/foo\">foo</a><a href=\"#top\">t</a><a href=\"\">e</a><a>none</a></body>",
    );
    assert_eq!(page.links(), &vec!["Qz".to_string(), "Qy/foo".to_string()]);
    q.publish(page);
    assert_eq!(q.queue_length(), 2);
    assert_eq!(q.try_pop(), Some("Qz".to_string()));
    assert_eq!(q.try_pop(), Some("Qy/foo".to_string()));
    assert_eq!(q.try_pop(), None);
}

#[test]
fn dedup_enqueue() {
    let mut q = IndexQueue::new();
    q.enqueue("Qa".to_string());
    q.enqueue("Qa".to_string());
    q.enqueue("Qa".to_string());
    assert_eq!(q.queue_length(), 1);
    let key = q.try_pop().unwrap();
    q.publish(analyse_page("g", &key, "<body>some content here</body>"));
    assert_eq!(q.index_length(), 1);
    q.enqueue("Qa".to_string());
    assert_eq!(q.queue_length(), 0);
}

#[test]
fn short_words_filtered() {
    let mut q = IndexQueue::new();
    let page = analyse_page("g", "Qs", "<body>to be or not to be</body>");
    let result = page.result().clone().unwrap();
    assert!(result.keywords.is_empty());
    assert_eq!(result.excerpt, "to be or not to be");
    q.publish(page);
    assert_eq!(q.keyword_length(), 0);
    assert_eq!(q.index_length(), 1);
    assert!(q.search("not".to_string()).is_empty());
}

#[test]
fn search_two_documents() {
    let mut q = IndexQueue::new();
    q.publish(analyse_page("g", "Qx", "<body>about blockchain systems</body>"));
    q.publish(analyse_page("g", "Qy", "<body>Blockchain notes</body>"));
    let mut cids: Vec<String> = q
        .search("blockchain".to_string())
        .into_iter()
        .map(|r| r.cid)
        .collect();
    cids.sort();
    assert_eq!(cids, vec!["Qx".to_string(), "Qy".to_string()]);
    assert_eq!(q.top_keywords(1), vec![("blockchain".to_string(), 2)]);
    assert!(q.search("missing".to_string()).is_empty());
}

#[test]
fn empty_body_gives_empty_record() {
    for html in ["<html><body></body></html>", "<html><body>   \n\t </body></html>"] {
        let result = analyse_page("g", "Qe", html).result().clone().unwrap();
        assert_eq!(result.cid, "Qe");
        assert_eq!(result.title, "");
        assert_eq!(result.excerpt, "");
        assert!(result.keywords.is_empty());
    }
    let mut q = IndexQueue::new();
    q.publish(analyse_page("g", "Qe", "<html><title>Only</title></html>"));
    assert_eq!(q.index_length(), 1);
    assert_eq!(q.keyword_length(), 0);
}

#[test]
fn missing_title_is_empty() {
    let page = analyse_page("g", "Qt", "<body>words without a title</body>");
    let result = page.result().clone().unwrap();
    assert_eq!(result.title, "");
    let mut q = IndexQueue::new();
    q.publish(page);
    assert_eq!(q.index_length(), 1);
}

#[test]
fn short_content_excerpt_is_trimmed_content() {
    let page = analyse_page("g", "Qc", "<body>\n   first   line\n<p>second\tline</p>  </body>");
    let result = page.result().clone().unwrap();
    assert_eq!(result.excerpt, "first line second line");
}

#[test]
fn long_content_excerpt_is_cut_at_char_limit() {
    let body = "é".repeat(100) + " " + &"b".repeat(100);
    let html = format!("<body>{}</body>", body);
    let result = analyse_page("g", "Ql", &html).result().clone().unwrap();
    assert_eq!(result.excerpt.chars().count(), 128);
    assert_eq!(result.excerpt, "é".repeat(100) + " " + &"b".repeat(27));
}

#[test]
fn keywords_are_lowercased_and_counted() {
    let result = analyse_page("g", "Qk", "<body>Alpha ALPHA alpha beta BETA</body>")
        .result()
        .clone()
        .unwrap();
    assert_eq!(
        sorted_keywords(&result.keywords),
        vec![("alpha".to_string(), 3), ("beta".to_string(), 2)]
    );
}

#[test]
fn keyword_length_counts_bytes() {
    let result = analyse_page("g", "Qb", "<body>abc abcd éab</body>").result().clone().unwrap();
    assert_eq!(
        sorted_keywords(&result.keywords),
        vec![("abcd".to_string(), 1), ("éab".to_string(), 1)]
    );
}

#[test]
fn queue_at_capacity_drops_new_keys() {
    let mut q = IndexQueue::new();
    for i in 0..1000 {
        q.enqueue(format!("Q{}", i));
    }
    assert_eq!(q.queue_length(), 1000);
    q.enqueue("Qextra".to_string());
    assert_eq!(q.queue_length(), 1000);
    let mut popped = 0;
    while let Some(k) = q.try_pop() {
        assert_ne!(k, "Qextra");
        popped += 1;
    }
    assert_eq!(popped, 1000);
    q.enqueue("Qextra".to_string());
    assert_eq!(q.queue_length(), 1);
}

#[test]
fn enqueue_twice_same_as_once() {
    let mut a = IndexQueue::new();
    let mut b = IndexQueue::new();
    a.enqueue("Qk".to_string());
    b.enqueue("Qk".to_string());
    b.enqueue("Qk".to_string());
    assert_eq!(a.queue_length(), b.queue_length());
    assert_eq!(a.try_pop(), b.try_pop());
    assert_eq!(a.try_pop(), b.try_pop());
}

#[test]
fn popped_key_can_be_enqueued_again() {
    let mut q = IndexQueue::new();
    q.enqueue("Qp".to_string());
    assert_eq!(q.try_pop(), Some("Qp".to_string()));
    q.enqueue("Qp".to_string());
    assert_eq!(q.queue_length(), 1);
}

#[test]
fn publish_twice_same_as_once() {
    let html = "<body>repeat repeat words <a href=\"next\">n</a></body>";
    let mut q = IndexQueue::new();
    q.publish(analyse_page("g", "Qr", html));
    let first = (q.queue_length(), q.index_length(), q.keyword_length(), q.top_keywords(10));
    q.publish(analyse_page("g", "Qr", html));
    let second = (q.queue_length(), q.index_length(), q.keyword_length(), q.top_keywords(10));
    assert_eq!(first.0, second.0);
    assert_eq!(first.1, second.1);
    assert_eq!(first.2, second.2);
    assert_eq!(sorted_keywords(&first.3), sorted_keywords(&second.3));
    assert_eq!(q.search("repeat".to_string()).len(), 1);
}

#[test]
fn stored_record_is_not_replaced() {
    let mut q = IndexQueue::new();
    q.publish(analyse_page("g", "Qs", "<title>First</title><body>earlier text</body>"));
    q.publish(analyse_page("g", "Qs", "<title>Second</title><body>changed text</body>"));
    let found = q.search("text".to_string());
    assert_eq!(found.len(), 1);
    assert_eq!(found[0].title, "First");
    let changed = q.search("changed".to_string());
    assert_eq!(changed.len(), 1);
    assert_eq!(changed[0].title, "First");
    assert_eq!(changed[0].excerpt, "earlier text");
}

#[test]
fn rank_equals_posting_count() {
    let mut q = IndexQueue::new();
    q.publish(analyse_page("g", "Q1", "<body>shared alpha</body>"));
    q.publish(analyse_page("g", "Q2", "<body>shared beta</body>"));
    q.publish(analyse_page("g", "Q3", "<body>shared alpha</body>"));
    for (word, count) in q.top_keywords(10) {
        assert_eq!(q.search(word).len() as u32, count);
    }
    assert_eq!(q.top_keywords(2), vec![("shared".to_string(), 3), ("alpha".to_string(), 2)]);
}

#[test]
fn redirect_failure_on_timeout_enqueues() {
    let mut q = IndexQueue::new();
    q.on_redirect_failure("Qy/sub/index.html".to_string(), false);
    assert_eq!(q.queue_length(), 0);
    q.on_redirect_failure("Qy/sub/index.html".to_string(), true);
    assert_eq!(q.try_pop(), Some("Qy/sub/index.html".to_string()));
}

#[test]
fn page_parts_are_exposed() {
    let page = analyse_page("g", "Qv", "<title>V</title><body>visible words</body>");
    assert_eq!(page.key(), "Qv");
    assert!(page.links().is_empty());
    let (key, links, result) = page.into_parts();
    assert_eq!(key, "Qv");
    assert!(links.is_empty());
    assert_eq!(result.unwrap().title, "V");
}

#[test]
fn step_after_fetch_follows_meta_refresh() {
    let first = "<noscript><meta http-equiv=\"refresh\" content=\"0;url=sub/index.html\"></noscript>";
    match after_fetch("Qy".to_string(), "http://g/ipfs/Qy", first.to_string()) {
        NextStep::FollowRedirect { key, url } => {
            assert_eq!(key, "Qy/sub/index.html");
            assert_eq!(url, "http://g/ipfs/Qy/sub/index.html");
        }
        NextStep::Analyse { .. } => panic!("expected a redirect"),
    }
}

#[test]
fn step_after_fetch_analyses_plain_page() {
    let html = "<body>plain page</body>";
    match after_fetch("Qx".to_string(), "http://g/ipfs/Qx", html.to_string()) {
        NextStep::Analyse { key, page } => {
            assert_eq!(key, "Qx");
            assert_eq!(page, html);
        }
        NextStep::FollowRedirect { .. } => panic!("expected no redirect"),
    }
}

#[test]
fn missing_link_is_reported_beyond_excerpt() {
    let filler = "word ".repeat(40);
    let html = format!("<body>{}no link named \"x\" under Qm</body>", filler);
    let page = analyse_page("g", "Qm/x", &html);
    assert!(page.reports_missing_link());
    assert!(!page.result().clone().unwrap().excerpt.contains("no link named"));
    assert!(!analyse_page("g", "Qm", "<body>fine page</body>").reports_missing_link());
}
