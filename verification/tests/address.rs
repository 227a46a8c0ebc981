use reddit_cli::address::{
    append_extension, build_url, clean_subreddit, is_probable_base36_id, listing_segment,
    subreddit_segment, target_to_path, thread_subtree_path, user_segment, validate_fullname,
};
use reddit_cli::transport::cookie_header;

fn pairs(params: &[(&str, &str)]) -> Vec<(String, String)> {
    params.iter().map(|(k, v)| (k.to_string(), v.to_string())).collect()
}

#[test]
fn maps_bare_post_ids_to_comments_endpoint() {
    assert_eq!(target_to_path("t3_abc123", "json").unwrap(), "/comments/abc123.json");
    assert_eq!(
        target_to_path("https://redd.it/abc123", "rss").unwrap(),
        "/comments/abc123.rss"
    );
}

#[test]
fn appends_extension_to_reddit_urls() {
    assert_eq!(
        target_to_path("https://www.reddit.com/r/rust/comments/abc/title/?utm=1", "json").unwrap(),
        "/r/rust/comments/abc/title.json"
    );
}

#[test]
fn builds_continue_thread_subtree_paths() {
    assert_eq!(
        thread_subtree_path("/r/rust/comments/abc/title.json", "def"),
        "/r/rust/comments/abc/title/def.json"
    );
    assert_eq!(thread_subtree_path("/comments/abc.json", "def"), "/comments/abc/def.json");
}

#[test]
fn rejects_lookalike_hosts() {
    let error = target_to_path("https://www.reddit.com.evil.test/r/rust", "json")
        .expect_err("lookalike host should be rejected")
        .message();
    assert!(error.contains("refusing non-Reddit URL"));
}

#[test]
fn rejects_path_like_subreddit_names() {
    let error = subreddit_segment("rust/about").unwrap_err().message();
    assert!(error.contains("invalid subreddit"));
}

#[test]
fn wraps_cookie_values() {
    assert_eq!(cookie_header("abc"), "reddit_session=abc");
    assert_eq!(cookie_header("reddit_session=abc"), "reddit_session=abc");
}

#[test]
fn validates_api_info_fullnames() {
    assert!(validate_fullname("t3_abc123").is_ok());
    assert!(validate_fullname("abc123").is_err());
    assert!(validate_fullname("t9_abc123").is_err());
    assert!(validate_fullname("t3_not/valid").is_err());
}

#[test]
fn subreddit_names_lose_their_prefixes() {
    assert_eq!(subreddit_segment("  r/rust ").unwrap(), "rust");
    assert_eq!(subreddit_segment("/r/rust").unwrap(), "rust");
    assert_eq!(subreddit_segment("r/r//r/rust_lang").unwrap(), "rust_lang");
    assert_eq!(clean_subreddit(" r/a b "), "a b");
    assert!(subreddit_segment("a").is_err());
    assert!(subreddit_segment("aaaaaaaaaaaaaaaaaaaaaa").is_err());
    assert!(subreddit_segment("aaaaaaaaaaaaaaaaaaaaa").is_ok());
    assert!(subreddit_segment("r\u{fc}st").is_err());
}

#[test]
fn user_names_may_hold_hyphens() {
    assert_eq!(user_segment("u/some-one_1").unwrap(), "some-one_1");
    assert_eq!(user_segment("/u/bob").unwrap(), "bob");
    assert_eq!(
        user_segment("ab").unwrap_err().message(),
        "invalid Reddit username: ab"
    );
    assert!(user_segment("a b c").is_err());
}

#[test]
fn only_two_listings_are_captured() {
    assert_eq!(listing_segment("new").unwrap(), "new");
    assert_eq!(listing_segment("comments").unwrap(), "comments");
    assert_eq!(
        listing_segment("hot").unwrap_err().message(),
        "invalid listing for sync: hot"
    );
}

#[test]
fn ids_have_four_to_twelve_letters_and_digits() {
    assert!(is_probable_base36_id("abcd"));
    assert!(is_probable_base36_id("abcdef012345"));
    assert!(!is_probable_base36_id("abc"));
    assert!(!is_probable_base36_id("abcdef0123456"));
    assert!(!is_probable_base36_id("abc_d"));
}

#[test]
fn extensions_replace_trailing_slashes() {
    assert_eq!(append_extension("/r/rust//", "json"), "/r/rust.json");
    assert_eq!(append_extension("/r/rust.json", "json"), "/r/rust.json");
    assert_eq!(append_extension("/r/rust.json", "rss"), "/r/rust.json.rss");
}

#[test]
fn targets_may_be_paths_or_addresses() {
    assert_eq!(target_to_path("r/rust/comments/abc/", "json").unwrap(), "/r/rust/comments/abc.json");
    assert_eq!(target_to_path("/r/rust/hot", "rss").unwrap(), "/r/rust/hot.rss");
    assert_eq!(
        target_to_path("https://old.reddit.com/r/rust/", "json").unwrap(),
        "/r/rust.json"
    );
    assert_eq!(target_to_path("/", "json").unwrap(), ".json");
    assert_eq!(target_to_path("https://www.reddit.com/", "json").unwrap(), ".json");
}

#[test]
fn broken_addresses_are_refused_in_words() {
    let error = target_to_path("http://", "json").unwrap_err().message();
    assert_eq!(error, "empty host");
}

#[test]
fn urls_are_built_on_the_site() {
    assert_eq!(build_url("/r/rust", &pairs(&[])).unwrap(), "https://www.reddit.com/r/rust");
    assert_eq!(
        build_url("/search.json", &pairs(&[("q", "a b&c=d"), ("limit", "5")])).unwrap(),
        "https://www.reddit.com/search.json?q=a%20b%26c%3Dd&limit=5"
    );
    assert_eq!(
        build_url("/x?y=1", &pairs(&[("k", "\u{e9}~-._")])).unwrap(),
        "https://www.reddit.com/x?y=1&k=%C3%A9~-._"
    );
}

#[test]
fn absolute_urls_must_be_on_reddit() {
    assert_eq!(
        build_url("HTTPS://www.reddit.com/a", &pairs(&[])).unwrap(),
        "https://www.reddit.comHTTPS://www.reddit.com/a"
    );
    assert_eq!(
        build_url("https://OLD.reddit.com/a b", &pairs(&[("x", "1")])).unwrap(),
        "https://old.reddit.com/a%20b?x=1"
    );
    assert_eq!(
        build_url("https://evil.example/a", &pairs(&[])).unwrap_err().message(),
        "refusing non-Reddit URL: https://evil.example/a"
    );
}
