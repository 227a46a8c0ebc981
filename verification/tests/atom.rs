use reddit_cli::atom::{extract_subreddit, local_name, parse_atom_entries, Feed, Tag, XmlEvent};
use reddit_cli::model::{ItemKind, ItemSource};

const FEED: &str = r#"<?xml version="1.0" encoding="UTF-8"?>
<feed xmlns="http://www.w3.org/2005/Atom" xmlns:media="http://search.yahoo.com/mrss/">
  <title>outside</title>
  <entry>
    <author><name> /u/alice </name><uri>https://www.reddit.com/user/alice</uri></author>
    <content type="html">first body</content>
    <summary>second body</summary>
    <id>t3_abc</id>
    <link href="https://old.reddit.com/r/rust/comments/abc/hello/?x=1" />
    <updated>2026-01-01T00:00:00+00:00</updated>
    <title>Hello</title>
  </entry>
  <atom:entry>
    <link href="https://www.reddit.com/r/swift/comments/def/bye/"></link>
  </atom:entry>
  <item><title>bare</title></item>
</feed>"#;

#[test]
fn reads_the_entries_of_a_feed() {
    let items = parse_atom_entries(FEED).unwrap();
    assert_eq!(items.len(), 3);
    let first = &items[0];
    assert_eq!(first.index, Some(1));
    assert_eq!(first.kind, ItemKind::Post);
    assert_eq!(first.source, ItemSource::Rss);
    assert_eq!(first.id, "t3_abc");
    assert_eq!(first.fullname, "t3_abc");
    assert_eq!(first.title.as_deref(), Some("Hello"));
    assert_eq!(first.author.as_deref(), Some("/u/alice"));
    assert_eq!(first.body.as_deref(), Some("first body"));
    assert_eq!(first.subreddit.as_deref(), Some("rust"));
    assert_eq!(
        first.permalink.as_deref(),
        Some("https://www.reddit.com/r/rust/comments/abc/hello/")
    );
    assert_eq!(
        first.url.as_deref(),
        Some("https://old.reddit.com/r/rust/comments/abc/hello/?x=1")
    );
    assert_eq!(first.score, None);
    assert_eq!(items[1].index, Some(2));
    assert_eq!(items[1].id, "https://www.reddit.com/r/swift/comments/def/bye/");
    assert_eq!(items[1].subreddit.as_deref(), Some("swift"));
    assert_eq!(items[2].id, "");
    assert_eq!(items[2].permalink, None);
    assert_eq!(items[2].title.as_deref(), Some("bare"));
}

#[test]
fn broken_feeds_are_refused() {
    let error = parse_atom_entries("<feed><entry></feed>").unwrap_err().message();
    assert!(error.contains("feed"), "{error}");
    assert_eq!(parse_atom_entries("").unwrap().len(), 0);
}

#[test]
fn references_split_character_data() {
    let items = parse_atom_entries("<entry><title>Tom &amp; Jerry</title></entry>").unwrap();
    assert_eq!(items[0].title.as_deref(), Some("Jerry"));
}

#[test]
fn names_lose_their_namespace() {
    assert_eq!(local_name(b"atom:entry"), "entry");
    assert_eq!(local_name(b"a:b:c"), "c");
    assert_eq!(local_name(b"entry"), "entry");
    assert_eq!(local_name(b"x:"), "");
    assert_eq!(local_name(b"\xff"), "\u{fffd}");
}

#[test]
fn subreddits_stand_in_permalinks() {
    assert_eq!(extract_subreddit("https://x/r/rust/comments").as_deref(), Some("rust"));
    assert_eq!(extract_subreddit("/r/rust").as_deref(), Some("rust"));
    assert_eq!(extract_subreddit("/user/bob"), None);
}

fn tag(name: &str, attributes: &[Option<(&str, &str)>]) -> Tag {
    Tag {
        name: name.as_bytes().to_vec(),
        attributes: attributes
            .iter()
            .map(|a| a.map(|(k, v)| (k.as_bytes().to_vec(), v.as_bytes().to_vec())))
            .collect(),
    }
}

#[test]
fn feeds_are_read_event_by_event() {
    let mut feed = Feed::new();
    feed.take(XmlEvent::Text(Err("unread outside".to_owned()))).unwrap();
    feed.take(XmlEvent::Start(tag("entry", &[]))).unwrap();
    feed.take(XmlEvent::Empty(tag("link", &[Some(("href", "/r/a/")), None, Some(("x:href", "/r/b/")), Some(("rel", "self"))])))
        .unwrap();
    feed.take(XmlEvent::Start(tag("guid", &[]))).unwrap();
    feed.take(XmlEvent::Text(Ok("g".to_owned()))).unwrap();
    feed.take(XmlEvent::End(b"guid".to_vec())).unwrap();
    feed.take(XmlEvent::Text(Ok("between".to_owned()))).unwrap();
    feed.take(XmlEvent::Start(tag("description", &[]))).unwrap();
    feed.take(XmlEvent::Text(Ok("one".to_owned()))).unwrap();
    feed.take(XmlEvent::Text(Ok("two".to_owned()))).unwrap();
    feed.take(XmlEvent::Other).unwrap();
    feed.take(XmlEvent::End(b"entry".to_vec())).unwrap();
    feed.take(XmlEvent::Eof).unwrap();
    assert_eq!(feed.items.len(), 1);
    assert_eq!(feed.items[0].id, "g");
    assert_eq!(feed.items[0].url.as_deref(), Some("/r/b/"));
    assert_eq!(feed.items[0].body.as_deref(), Some("one"));
}

#[test]
fn unreadable_character_data_in_an_entry_fails() {
    let mut feed = Feed::new();
    feed.take(XmlEvent::Start(tag("item", &[]))).unwrap();
    let error = feed.take(XmlEvent::Text(Err("bad bytes".to_owned()))).unwrap_err();
    assert_eq!(error.message(), "bad bytes");
}
