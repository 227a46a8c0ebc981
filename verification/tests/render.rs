use reddit_cli::json::decode_json;
use reddit_cli::model::{ItemKind, ItemSource, RedditItem, ThreadView};
use reddit_cli::render::{
    document_text, item_text, items_text, kind_label, reports_text, rows_text, thread_text, trim_for_terminal,
    value_text, value_to_text,
};
use reddit_cli::store::{StreamKind, SyncStreamReport};

fn item() -> RedditItem {
    RedditItem {
        index: Some(3),
        kind: ItemKind::Comment,
        id: "c".to_owned(),
        fullname: "t1_c".to_owned(),
        parent_id: None,
        post_id: None,
        title: None,
        author: Some("bob".to_owned()),
        subreddit: Some("rust".to_owned()),
        body: Some("one\ntwo".to_owned()),
        flair: None,
        is_self: None,
        over_18: None,
        score: Some(-2),
        upvote_ratio: None,
        num_comments: None,
        created_utc: None,
        edited_utc: None,
        permalink: Some("/r/rust/comments/p/t/c/".to_owned()),
        url: None,
        depth: 2,
        source: ItemSource::Json,
    }
}

fn bare() -> RedditItem {
    RedditItem {
        index: None,
        author: None,
        subreddit: None,
        body: None,
        score: None,
        permalink: None,
        depth: 0,
        kind: ItemKind::Unknown,
        ..item()
    }
}

#[test]
fn items_are_printed_plainly() {
    assert_eq!(
        item_text(&item(), true),
        "    3. [comment] r/rust u/bob -2 pts one two\n       https://www.reddit.com/r/rust/comments/p/t/c/\n"
    );
    assert_eq!(item_text(&bare(), true), "-. [item] (untitled)\n");
    assert_eq!(items_text(&vec![bare(), bare()], true), "-. [item] (untitled)\n-. [item] (untitled)\n");
}

#[test]
fn items_are_printed_in_colour() {
    assert_eq!(
        item_text(&item(), false),
        "    \u{1b}[34m3\u{1b}[39m. \u{1b}[90m[comment]\u{1b}[39m\u{1b}[32m r/rust\u{1b}[39m\u{1b}[33m u/bob\u{1b}[39m\u{1b}[90m -2 pts\u{1b}[39m one two\n       https://www.reddit.com/r/rust/comments/p/t/c/\n"
    );
}

#[test]
fn long_texts_are_cut() {
    assert_eq!(trim_for_terminal("abcdef", 6), "abcdef");
    assert_eq!(trim_for_terminal("abcdefg", 6), "abc...");
    assert_eq!(trim_for_terminal("a\nb", 6), "a b");
    assert_eq!(trim_for_terminal("abc", 2), "...");
    assert_eq!(trim_for_terminal("\u{e9}\u{e9}\u{e9}\u{e9}", 4), "\u{e9}\u{e9}\u{e9}\u{e9}");
}

#[test]
fn kinds_have_labels() {
    assert_eq!(kind_label(&ItemKind::Post), "post");
    assert_eq!(kind_label(&ItemKind::Subreddit), "sub");
    assert_eq!(kind_label(&ItemKind::User), "user");
    assert_eq!(kind_label(&ItemKind::More), "more");
}

fn thread(notice: Option<&str>, more_stubs: usize) -> ThreadView {
    ThreadView {
        post: Some(bare()),
        comments: vec![bare()],
        more_stubs,
        degraded: false,
        truncated: false,
        http_requests: 1,
        notice: notice.map(|n| n.to_owned()),
    }
}

#[test]
fn threads_are_printed_with_notes() {
    let noted = thread_text(&thread(Some("careful"), 2), true);
    assert_eq!(noted.note.as_deref(), Some("note: careful\n"));
    assert_eq!(noted.body, "-. [item] (untitled)\n\n-. [item] (untitled)\n");
    assert_eq!(noted.warning, None);
    let silent = thread_text(&thread(None, 2), true);
    assert_eq!(silent.note, None);
    assert_eq!(
        silent.warning.as_deref(),
        Some("thread truncated: 2 hidden comment stub(s) not expanded\n")
    );
    assert_eq!(thread_text(&thread(None, 0), true).warning, None);
}

#[test]
fn reports_are_printed() {
    let report = |remaining_items: Option<usize>, notice: Option<&str>| SyncStreamReport {
        subreddit: "rust".to_owned(),
        kind: StreamKind::Posts,
        new_items: 3,
        updated_items: 2,
        http_requests: 1,
        status: "ok".to_owned(),
        remaining_items,
        notice: notice.map(|n| n.to_owned()),
    };
    assert_eq!(
        reports_text(&vec![report(None, None), report(Some(9), Some("why"))]),
        "r/rust posts: 3 new, 2 updated, 1 request(s), ok\n\
         r/rust posts: 3 new, 2 updated, 1 request(s), ok, 9 remaining\n  why\n"
    );
    assert_eq!(reports_text(&Vec::new()), "");
}

#[test]
fn rows_are_printed() {
    assert_eq!(rows_text(Vec::new()), "(no rows)\n");
    let row = |n: i64| {
        vec![
            ("a".to_owned(), serde_json::Value::from(n)),
            ("b".to_owned(), serde_json::Value::from("text")),
        ]
    };
    assert_eq!(rows_text(vec![row(1), row(-2)]), "[1]\n  a: 1\n  b: text\n[2]\n  a: -2\n  b: text\n");
}

#[test]
fn values_are_printed() {
    let text = |raw: &str| value_to_text(serde_json::from_str(raw).unwrap());
    assert_eq!(text("null"), "");
    assert_eq!(text("true"), "true");
    assert_eq!(text("false"), "false");
    assert_eq!(text("1.5"), "1.5");
    assert_eq!(text("\"x\""), "x");
    assert_eq!(text("[1, {\"k\": null}]"), "[1,{\"k\":null}]");
    let list = decode_json("[1]").unwrap();
    assert_eq!(value_text(&list, Some("given".to_owned())), "given");
    assert_eq!(value_text(&list, None), "");
}

#[test]
fn documents_are_written_on_several_lines() {
    assert_eq!(document_text("{\"b\":[1],\"a\":null}").unwrap(), "{\n  \"a\": null,\n  \"b\": [\n    1\n  ]\n}");
    let refused = document_text("<html>").unwrap_err();
    assert_eq!(refused.message(), "parsing reddit JSON");
    assert_eq!(refused.cause(), Some("expected value at line 1 column 1"));
}
