use reddit_cli::json::Real;
use reddit_cli::model::{ItemKind, ItemSource, RedditItem};
use reddit_cli::store::{
    blob_text, ensure_read_statement, merge_item, normalize_subreddit, parse_since, sighted,
    since_fits, UpsertStats,
};

fn item(source: ItemSource) -> RedditItem {
    RedditItem {
        index: None,
        kind: ItemKind::Comment,
        id: "c".to_owned(),
        fullname: "t1_c".to_owned(),
        parent_id: None,
        post_id: None,
        title: None,
        author: None,
        subreddit: None,
        body: None,
        flair: None,
        is_self: None,
        over_18: None,
        score: None,
        upvote_ratio: None,
        num_comments: None,
        created_utc: None,
        edited_utc: None,
        permalink: None,
        url: None,
        depth: 0,
        source,
    }
}

fn rich() -> RedditItem {
    RedditItem {
        parent_id: Some("t3_p".to_owned()),
        post_id: Some("p".to_owned()),
        body: Some("body".to_owned()),
        score: Some(4),
        over_18: Some(true),
        created_utc: Some(Real { bits: 1 }),
        depth: 3,
        ..item(ItemSource::Json)
    }
}

#[test]
fn db_query_rejects_writes() {
    let conn = rusqlite::Connection::open_in_memory().unwrap();
    conn.execute_batch("CREATE TABLE watches (subreddit TEXT); INSERT INTO watches VALUES ('rust');")
        .unwrap();
    let write = conn
        .prepare("WITH doomed AS (SELECT 1) DELETE FROM watches WHERE subreddit = 'rust'")
        .unwrap();
    let error = ensure_read_statement(write.readonly())
        .expect_err("mutating query should be rejected")
        .message();
    assert!(error.contains("read-only"));
    let read = conn.prepare("SELECT subreddit FROM watches").unwrap();
    assert!(ensure_read_statement(read.readonly()).is_ok());
}

#[test]
fn feeds_do_not_downgrade_what_is_stored() {
    let mut seen = item(ItemSource::Rss);
    seen.body = Some("newer body".to_owned());
    let merged = merge_item(rich(), seen);
    assert_eq!(merged.source, ItemSource::Json);
    assert_eq!(merged.score, Some(4));
    assert_eq!(merged.parent_id.as_deref(), Some("t3_p"));
    assert_eq!(merged.created_utc, Some(Real { bits: 1 }));
    assert_eq!(merged.over_18, Some(true));
    assert_eq!(merged.body.as_deref(), Some("newer body"));
    assert_eq!(merged.depth, 3);
}

#[test]
fn json_upgrades_what_came_from_a_feed() {
    let merged = merge_item(item(ItemSource::Rss), rich());
    assert_eq!(merged.source, ItemSource::Json);
    assert_eq!(merged.score, Some(4));
    let emptied = merge_item(rich(), item(ItemSource::Json));
    assert_eq!(emptied.score, None);
    let mut deeper = item(ItemSource::Rss);
    deeper.depth = 2;
    let twice = merge_item(item(ItemSource::Rss), deeper);
    assert_eq!(twice.source, ItemSource::Rss);
    assert_eq!(twice.depth, 2);
}

#[test]
fn first_sightings_are_stored_as_they_are() {
    assert_eq!(sighted(None, rich()).score, Some(4));
    assert_eq!(sighted(Some(rich()), item(ItemSource::Rss)).score, Some(4));
}

#[test]
fn sightings_are_counted() {
    let stats = UpsertStats::knowing(1).count(false).count(true).count(true);
    assert_eq!(stats, UpsertStats { known: 1, new_items: 1, updated_items: 2 });
}

#[test]
fn moments_are_given_in_hours_days_or_seconds() {
    assert_eq!(parse_since("24h", 100_000).unwrap(), 100_000 - 86_400);
    assert_eq!(parse_since(" 2d ", 200_000).unwrap(), 200_000 - 172_800);
    assert_eq!(parse_since("-1h", 0).unwrap(), 3_600);
    assert_eq!(parse_since("1234", 0).unwrap(), 1234);
    assert_eq!(parse_since("+5", 0).unwrap(), 5);
    let refused = |value: &str| {
        assert_eq!(
            parse_since(value, 0).unwrap_err().message(),
            value.trim().trim_end_matches(['h', 'd']).parse::<i64>().unwrap_err().to_string()
        );
    };
    refused("soon");
    refused(" 1.5h ");
    refused("h");
    refused("");
    refused("9223372036854775808d");
    refused("-9223372036854775809");
    assert_eq!(parse_since("soon", 0).unwrap_err().message(), "invalid digit found in string");
    assert_eq!(
        parse_since("h", 0).unwrap_err().message(),
        "cannot parse integer from empty string"
    );
}

#[test]
fn moments_out_of_range_are_known_beforehand() {
    assert!(since_fits("24h", 0));
    assert!(since_fits("soon", 0));
    assert!(since_fits("-9223372036854775808", 5));
    assert!(!since_fits("9223372036854775807h", 0));
    assert!(!since_fits("106751991167301d", 0));
    assert!(since_fits("106751991167300d", 0));
    assert!(!since_fits("106751991167300d", i64::MIN));
}

#[test]
fn names_and_bytes_are_written_plainly() {
    assert_eq!(normalize_subreddit(" r/rust"), "rust");
    assert_eq!(blob_text(12), "<blob 12 bytes>");
}
