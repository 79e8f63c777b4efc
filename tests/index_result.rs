use ipfs_indexer::IndexResult;

#[test]
fn single_keyword() {
    let keywords = vec![("key1".to_string(), 1)];

    let result = IndexResult::new(
        "1".to_string(),
        "title".to_string(),
        "excerpt".to_string(),
        keywords,
    );
    assert_eq!(result.top_n_keywords(10).len(), 1);
}

#[test]
fn all_keywords() {
    let keywords = vec![("key1".to_string(), 1), ("key2".to_string(), 2)];

    let result = IndexResult::new(
        "1".to_string(),
        "title".to_string(),
        "excerpt".to_string(),
        keywords,
    );
    assert_eq!(result.top_n_keywords(2).len(), 2);
}

#[test]
fn subset_of_keywords() {
    let keywords = vec![
        ("key1".to_string(), 1),
        ("key2".to_string(), 2),
        ("key2".to_string(), 3),
    ];

    let result = IndexResult::new(
        "1".to_string(),
        "title".to_string(),
        "excerpt".to_string(),
        keywords,
    );
    assert_eq!(result.top_n_keywords(2).len(), 2);
}

#[test]
fn repeated_keyword_keeps_last_count() {
    let keywords = vec![
        ("key1".to_string(), 1),
        ("key2".to_string(), 2),
        ("key2".to_string(), 3),
    ];
    let result = IndexResult::new("1".to_string(), "t".to_string(), "e".to_string(), keywords);
    assert_eq!(result.keywords.len(), 2);
    assert_eq!(
        result.top_n_keywords(2),
        vec![("key2".to_string(), 3), ("key1".to_string(), 1)]
    );
}

#[test]
fn top_keywords_are_ordered_by_count() {
    let keywords = vec![
        ("aaaa".to_string(), 1),
        ("bbbb".to_string(), 5),
        ("cccc".to_string(), 3),
        ("dddd".to_string(), 3),
    ];
    let result = IndexResult::new("1".to_string(), "t".to_string(), "e".to_string(), keywords);
    assert_eq!(
        result.top_n_keywords(3),
        vec![
            ("bbbb".to_string(), 5),
            ("cccc".to_string(), 3),
            ("dddd".to_string(), 3)
        ]
    );
    assert_eq!(result.top_n_keywords(0).len(), 0);
    assert_eq!(result.top_n_keywords(10).len(), 4);
}

#[test]
fn new_keeps_fields() {
    let result = IndexResult::new(
        "Qx/a".to_string(),
        "Title".to_string(),
        "some text".to_string(),
        Vec::new(),
    );
    assert_eq!(result.cid, "Qx/a");
    assert_eq!(result.title, "Title");
    assert_eq!(result.excerpt, "some text");
    assert!(result.keywords.is_empty());
}

#[test]
fn ranking_lists_each_word_once() {
    let result = IndexResult {
        cid: "1".to_string(),
        title: "t".to_string(),
        excerpt: "e".to_string(),
        keywords: vec![
            ("aaaa".to_string(), 1),
            ("aaaa".to_string(), 4),
            ("bbbb".to_string(), 2),
        ],
    };
    assert_eq!(
        result.top_n_keywords(2),
        vec![("aaaa".to_string(), 4), ("bbbb".to_string(), 2)]
    );
    assert_eq!(result.top_n_keywords(5).len(), 2);
}
