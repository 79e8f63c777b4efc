use ipfs_indexer::links::{link_key, page_url, redirect_key, redirect_target, redirect_url};

#[test]
fn page_url_of_key() {
    assert_eq!(page_url("g", "Qx"), "http://g/ipfs/Qx");
    assert_eq!(page_url("ipfs.io", "Qy/sub/index.html"), "http://ipfs.io/ipfs/Qy/sub/index.html");
}

#[test]
fn redirect_addresses() {
    assert_eq!(redirect_url("http://g/ipfs/Qy", "sub/index.html"), "http://g/ipfs/Qy/sub/index.html");
    assert_eq!(redirect_key("Qy", "sub/index.html"), "Qy/sub/index.html");
}

#[test]
fn redirect_target_of_meta_refresh() {
    let inner = "<meta http-equiv=\"refresh\" content=\"0;url=sub/index.html\">";
    assert_eq!(redirect_target(inner), Some("sub/index.html".to_string()));
}

#[test]
fn redirect_target_needs_refresh_marker() {
    assert_eq!(redirect_target("<meta content=\"0;url=sub/index.html\">"), None);
    assert_eq!(redirect_target("<meta http-equiv=\"refresh\" content=\"0\">"), None);
}

#[test]
fn redirect_target_without_closing_quote() {
    assert_eq!(
        redirect_target("meta http-equiv=\"refresh\" url=abc"),
        Some("abc".to_string())
    );
}

#[test]
fn gateway_links_are_stripped() {
    assert_eq!(link_key("g", "Qy/sub", "http://g/ipfs/Qz"), Some("Qz".to_string()));
    assert_eq!(link_key("g", "Qy/sub", "https://g/ipfs/Qz/a"), Some("Qz/a".to_string()));
    assert_eq!(link_key("g", "Qy/sub", "http://g/ipfs/"), None);
}

#[test]
fn external_links_are_ignored() {
    assert_eq!(link_key("g", "Qy", "http://example.com/x"), None);
    assert_eq!(link_key("g", "Qy", "https://other/ipfs/Qz"), None);
}

#[test]
fn anchor_and_empty_links_are_ignored() {
    assert_eq!(link_key("g", "Qy/sub", "#top"), None);
    assert_eq!(link_key("g", "Qy/sub", "#"), None);
    assert_eq!(link_key("g", "Qy/sub", ""), None);
}

#[test]
fn up_a_prefix_is_stripped() {
    assert_eq!(link_key("g", "Qy/sub", "../A/foo"), Some("Qy/foo".to_string()));
    assert_eq!(link_key("g", "Qy/sub", "../Abc"), Some("Qy/bc".to_string()));
}

#[test]
fn relative_links_resolve_against_directory() {
    assert_eq!(link_key("g", "Qy/sub/index.html", "page.html"), Some("Qy/sub/page.html".to_string()));
    assert_eq!(link_key("g", "Qy", "page.html"), Some("Qy/page.html".to_string()));
    assert_eq!(link_key("g", "Qy/a", "/b"), Some("Qy/b".to_string()));
}
