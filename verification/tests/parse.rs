use reddit_cli::json::{decode_json, Json, Real};
use reddit_cli::model::{canonical_permalink, ItemKind, ItemSource};
use reddit_cli::parse::{
    parse_listing, parse_listing_page, parse_morechildren, parse_thing, parse_thread,
    parse_thread_capture,
};

fn json(text: &str) -> Json {
    decode_json(text).unwrap()
}

#[test]
fn parses_listing_children() {
    let value = json(
        r#"{
            "data": {"children": [{
                "kind": "t3",
                "data": {
                    "id": "abc",
                    "name": "t3_abc",
                    "title": "Hello",
                    "author": "alice",
                    "subreddit": "rust",
                    "score": 7,
                    "num_comments": 2,
                    "permalink": "/r/rust/comments/abc/hello/"
                }
            }]}
        }"#,
    );

    let items = parse_listing(&value);
    assert_eq!(items.len(), 1);
    assert_eq!(
        items[0].canonical_permalink().unwrap(),
        "https://www.reddit.com/r/rust/comments/abc/hello/"
    );
    assert_eq!(items[0].kind, ItemKind::Post);
    assert_eq!(items[0].post_id.as_deref(), Some("abc"));
}

#[test]
fn parses_thread_depth_and_more() {
    let value = json(
        r#"[
            {"data": {"children": [{"kind": "t3", "data": {"id": "p", "name": "t3_p", "title": "Post"}}]}},
            {"data": {"children": [
                {"kind": "t1", "data": {
                    "id": "c1",
                    "name": "t1_c1",
                    "body": "Root",
                    "replies": {"data": {"children": [
                        {"kind": "t1", "data": {"id": "c2", "name": "t1_c2", "body": "Child", "replies": ""}}
                    ]}}
                }},
                {"kind": "more", "data": {"children": ["x", "y"]}}
            ]}}
        ]"#,
    );

    let thread = parse_thread(&value, None);
    assert_eq!(thread.comments.len(), 2);
    assert_eq!(thread.comments[1].depth, 1);
    assert_eq!(thread.more_stubs, 2);
}

#[test]
fn reads_every_field_of_a_post() {
    let value = json(
        r#"{"kind": "t3", "data": {
            "id": "abc", "name": "t3_abc", "title": "", "display_name_prefixed": "r/rust",
            "author": "alice", "subreddit": "rust", "selftext": "text", "link_flair_text": "f",
            "is_self": true, "over_18": false, "score": -3, "upvote_ratio": 0.5,
            "num_comments": 2, "created_utc": 12.5, "edited": 13.0, "url": "https://x.example",
            "permalink": "/r/rust/comments/abc/hello/?x=1", "parent_id": "t5_q"
        }}"#,
    );
    let item = parse_thing(&value, 4, ItemSource::Json).unwrap();
    assert_eq!(item.index, None);
    assert_eq!(item.title.as_deref(), Some("r/rust"));
    assert_eq!(item.body.as_deref(), Some("text"));
    assert_eq!(item.flair.as_deref(), Some("f"));
    assert_eq!(item.is_self, Some(true));
    assert_eq!(item.over_18, Some(false));
    assert_eq!(item.score, Some(-3));
    assert_eq!(item.upvote_ratio, Some(Real { bits: 0.5f64.to_bits() }));
    assert_eq!(item.created_utc, Some(Real { bits: 12.5f64.to_bits() }));
    assert_eq!(item.edited_utc, Some(Real { bits: 13.0f64.to_bits() }));
    assert_eq!(item.url.as_deref(), Some("https://x.example"));
    assert_eq!(item.parent_id.as_deref(), Some("t5_q"));
    assert_eq!(
        item.permalink.as_deref(),
        Some("https://www.reddit.com/r/rust/comments/abc/hello/")
    );
    assert_eq!(item.depth, 4);
    assert_eq!(item.source, ItemSource::Json);
}

#[test]
fn names_things_without_a_name() {
    let value = json(r#"{"kind": "t1", "data": {"id": "c", "link_id": "t3_p", "edited": false}}"#);
    let item = parse_thing(&value, 0, ItemSource::Json).unwrap();
    assert_eq!(item.fullname, "t1_c");
    assert_eq!(item.post_id.as_deref(), Some("p"));
    assert_eq!(item.edited_utc, None);
    let bare = parse_thing(&json(r#"{"kind": "zz", "data": {}}"#), 0, ItemSource::Json).unwrap();
    assert_eq!(bare.kind, ItemKind::Unknown);
    assert_eq!(bare.fullname, "zz");
    assert!(parse_thing(&json(r#"{"kind": "t1"}"#), 0, ItemSource::Json).is_none());
}

#[test]
fn reads_the_cursors_of_a_page() {
    let page = parse_listing_page(&json(r#"{"data": {"children": [], "after": "t3_z", "before": ""}}"#));
    assert_eq!(page.items.len(), 0);
    assert_eq!(page.after.as_deref(), Some("t3_z"));
    assert_eq!(page.before, None);
}

#[test]
fn captures_stubs_of_a_thread() {
    let value = json(
        r#"[
            {"data": {"children": [{"kind": "t3", "data": {"id": "p", "name": "t3_p"}}]}},
            {"data": {"children": [
                {"kind": "t1", "data": {"id": "c1", "name": "t1_c1", "parent_id": "t3_p"}},
                {"kind": "more", "data": {"id": "m", "parent_id": "t1_c1", "count": 0, "children": []}}
            ]}}
        ]"#,
    );
    let capture = parse_thread_capture(&value);
    assert_eq!(capture.post.unwrap().id, "p");
    assert_eq!(capture.comments.len(), 1);
    assert_eq!(capture.more_stubs.len(), 1);
    assert_eq!(capture.more_stubs[0].unresolved_count(), 1);
    assert_eq!(capture.more_stubs[0].continue_parent_short_id().as_deref(), Some("c1"));
    assert_eq!(capture.more_stubs[0].post_id.as_deref(), Some("p"));
}

#[test]
fn captures_hidden_comments() {
    let value = json(
        r#"{"json": {"data": {"things": [
            {"kind": "t1", "data": {"id": "x", "name": "t1_x", "parent_id": "t1_c1"}},
            {"kind": "more", "data": {"id": "m", "parent_id": "t3_p", "count": 5, "children": ["a", "b"]}}
        ]}}}"#,
    );
    let capture = parse_morechildren(&value, Some("p"));
    assert!(capture.post.is_none());
    assert_eq!(capture.comments[0].id, "x");
    assert_eq!(capture.more_stubs[0].children, vec!["a".to_string(), "b".to_string()]);
    assert_eq!(capture.more_stubs[0].unresolved_count(), 5);
}

#[test]
fn broken_json_is_reported() {
    let refused = decode_json("{").unwrap_err();
    assert_eq!(refused.message(), "parsing reddit JSON");
    assert_eq!(refused.cause(), Some("EOF while parsing an object at line 1 column 1"));
    assert!(matches!(decode_json("null").unwrap(), Json::Null));
    assert!(matches!(decode_json("[1]").unwrap(), Json::List(_)));
}

#[test]
fn permalinks_have_one_canonical_form() {
    let canonical = "https://www.reddit.com/r/rust/";
    assert_eq!(canonical_permalink("/r/rust/?a=b"), canonical);
    assert_eq!(canonical_permalink("r/rust/"), canonical);
    assert_eq!(canonical_permalink("https://old.reddit.com/r/rust/"), canonical);
    assert_eq!(canonical_permalink(canonical), canonical);
    assert_eq!(canonical_permalink("http://x.example/?q"), "http://x.example/");
}
