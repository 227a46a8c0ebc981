use reddit_cli::actions::{resolve_post_target, resolve_target, target_index};
use reddit_cli::model::{number_items, ItemKind, ItemSource, RedditItem};

fn item(permalink: Option<&str>) -> RedditItem {
    RedditItem {
        index: None,
        kind: ItemKind::Post,
        id: "abc".to_owned(),
        fullname: "t3_abc".to_owned(),
        parent_id: None,
        post_id: None,
        title: Some("hello".to_owned()),
        author: None,
        subreddit: Some("rust".to_owned()),
        body: None,
        flair: None,
        is_self: None,
        over_18: None,
        score: None,
        upvote_ratio: None,
        num_comments: None,
        created_utc: None,
        edited_utc: None,
        permalink: permalink.map(|p| p.to_owned()),
        url: None,
        depth: 0,
        source: ItemSource::Json,
    }
}

#[test]
fn resolves_numbered_results_from_last_file() {
    let items = number_items(vec![item(Some("/r/rust/comments/abc/hello/"))]);
    assert_eq!(
        resolve_target(&items, "1").unwrap(),
        "https://www.reddit.com/r/rust/comments/abc/hello/"
    );
}

#[test]
fn rejects_external_targets() {
    let error = resolve_target(&Vec::new(), "https://evil.example/path")
        .expect_err("external URLs should be rejected")
        .message();
    assert!(error.contains("target must be a Reddit permalink"));
}

#[test]
fn numbers_lead_to_shown_results() {
    let items = number_items(vec![item(Some("/a/")), item(None), item(Some("/c/?q=1"))]);
    assert_eq!(items[2].index, Some(3));
    assert_eq!(resolve_target(&items, "3").unwrap(), "https://www.reddit.com/c/");
    assert_eq!(
        resolve_target(&items, "2").unwrap_err().message(),
        "last result index 2 has no Reddit permalink"
    );
    assert_eq!(
        resolve_target(&items, "4").unwrap_err().message(),
        "last result index 4 does not exist"
    );
    assert_eq!(
        resolve_target(&items, "0").unwrap_err().message(),
        "last result index 0 does not exist"
    );
}

#[test]
fn permalinks_are_brought_into_canonical_form() {
    let none = Vec::new();
    assert_eq!(
        resolve_target(&none, "https://old.reddit.com/r/rust/?x=1").unwrap(),
        "https://www.reddit.com/r/rust/"
    );
    assert_eq!(resolve_target(&none, "r/rust").unwrap(), "https://www.reddit.com/r/rust");
    assert!(resolve_target(&none, "https://redd.it/abc").is_err());
    assert_eq!(resolve_target(&none, "http://").unwrap_err().message(), "empty host");
}

#[test]
fn posts_are_pulled_by_id_number_or_permalink() {
    let items = number_items(vec![item(Some("/r/rust/comments/abc/hello/"))]);
    assert_eq!(resolve_post_target(&items, "t3_abcd").unwrap(), "abcd");
    assert_eq!(resolve_post_target(&items, "abc123").unwrap(), "abc123");
    assert_eq!(
        resolve_post_target(&items, "1").unwrap(),
        "https://www.reddit.com/r/rust/comments/abc/hello/"
    );
    assert!(resolve_post_target(&items, "1234").is_err());
    assert_eq!(
        resolve_post_target(&items, "/r/rust/comments/abc/").unwrap(),
        "https://www.reddit.com/r/rust/comments/abc/"
    );
}

#[test]
fn only_whole_numbers_are_indices() {
    assert_eq!(target_index("12"), Some(12));
    assert_eq!(target_index("+12"), Some(12));
    assert_eq!(target_index("-1"), None);
    assert_eq!(target_index(" 1"), None);
    assert_eq!(target_index("99999999999999999999999"), None);
}
