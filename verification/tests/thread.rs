use reddit_cli::cli::{Cli, Commands, ThreadCommand, ThreadSort};
use reddit_cli::config::Config;
use reddit_cli::error::RdtError;
use reddit_cli::model::{MoreStub, ThreadView};
use reddit_cli::thread::{stub_with_children, ThreadFetch, ThreadStep};
use reddit_cli::transport::RedditClient;

fn client(rss: bool) -> RedditClient {
    let cli = Cli {
        json: false,
        fresh: false,
        anon: false,
        rss,
        no_color: true,
        command: Commands::Saved,
    };
    RedditClient::new(&Config::default(), &cli)
}

fn command(all: bool, max_requests: u32) -> ThreadCommand {
    ThreadCommand {
        target: String::new(),
        all,
        depth: Some(4),
        sort: ThreadSort::Best,
        max_requests,
    }
}

fn next(step: ThreadStep) -> ThreadFetch {
    match step {
        ThreadStep::Fetch(fetch) => fetch,
        ThreadStep::Done(Ok(_)) => panic!("a request was expected, not a thread"),
        ThreadStep::Done(Err(e)) => panic!("a request was expected, not {}", e.message()),
    }
}

fn shown(step: ThreadStep) -> ThreadView {
    match step {
        ThreadStep::Done(Ok(view)) => view,
        _ => panic!("a thread was expected"),
    }
}

fn failed(step: ThreadStep) -> String {
    match step {
        ThreadStep::Done(Err(e)) => e.message(),
        _ => panic!("a failure was expected"),
    }
}

fn url(fetch: &ThreadFetch) -> String {
    fetch.request().url().unwrap()
}

const POST: &str = r#"{"data": {"children": [{"kind": "t3", "data":
    {"id": "p", "name": "t3_p", "permalink": "/r/rust/comments/p/title/"}}]}}"#;

fn page(comments: &str) -> String {
    format!("[{POST}, {{\"data\": {{\"children\": [{comments}]}}}}]")
}

fn more(children: usize) -> String {
    let ids: Vec<String> = (0..children).map(|n| format!("\"c{n}\"")).collect();
    format!(
        "{{\"kind\": \"more\", \"data\": {{\"id\": \"m\", \"parent_id\": \"t3_p\", \"count\": {children}, \"children\": [{}]}}}}",
        ids.join(",")
    )
}

const CONTINUE: &str =
    r#"{"kind": "more", "data": {"id": "_", "parent_id": "t1_deep", "count": 0, "children": []}}"#;

const LOST: &str =
    r#"{"kind": "more", "data": {"id": "_", "parent_id": "t3_p", "count": 0, "children": []}}"#;

#[test]
fn reads_a_thread_in_one_request() {
    let fetch = client(false).thread(&command(false, 30), "/r/rust/comments/p/title/").unwrap();
    assert_eq!(
        url(&fetch),
        "https://www.reddit.com/r/rust/comments/p/title.json?sort=best&limit=500&depth=4&raw_json=1"
    );
    let view = shown(fetch.answered(Ok(page(&more(3)))));
    assert_eq!(view.http_requests, 1);
    assert_eq!(view.more_stubs, 3);
    assert!(!view.truncated);
    assert_eq!(view.post.unwrap().id, "p");
}

#[test]
fn the_cap_counts_the_first_request() {
    let fetch = client(false).thread(&command(true, 1), "abcd").unwrap();
    let view = shown(fetch.answered(Ok(page(&more(3)))));
    assert_eq!(view.http_requests, 1);
    assert!(view.truncated);
    assert_eq!(view.more_stubs, 3);
    assert_eq!(
        view.notice.as_deref(),
        Some("thread truncated: 3 hidden comment(s) not fetched before --max-requests")
    );
    let complete = client(false).thread(&command(true, 0), "abcd").unwrap();
    let view = shown(complete.answered(Ok(page(""))));
    assert!(!view.truncated);
    assert_eq!(view.notice, None);
}

#[test]
fn hidden_comments_are_asked_for_in_batches() {
    let first = client(false).thread(&command(true, 30), "abcd").unwrap();
    let second = next(first.answered(Ok(page(&more(150)))));
    let asked = url(&second);
    assert!(asked.starts_with(
        "https://www.reddit.com/api/morechildren.json?api_type=json&link_id=t3_p&children=c0%2Cc1%2C"
    ));
    assert!(asked.contains("%2Cc99&sort=best&raw_json=1"));
    let body = r#"{"json": {"data": {"things": [{"kind": "t1", "data":
        {"id": "c0", "name": "t1_c0", "parent_id": "t3_p"}}]}}}"#;
    let third = next(second.answered(Ok(body.to_owned())));
    assert!(url(&third).contains("children=c100%2C"));
    assert!(url(&third).contains("%2Cc149&"));
    let view = shown(third.answered(Ok("{}".to_owned())));
    assert_eq!(view.http_requests, 3);
    assert_eq!(view.comments.len(), 1);
    assert_eq!(view.more_stubs, 0);
    assert_eq!(view.notice, None);
}

#[test]
fn the_rest_of_a_stub_is_reported_at_the_cap() {
    let first = client(false).thread(&command(true, 2), "abcd").unwrap();
    let second = next(first.answered(Ok(page(&more(150)))));
    let view = shown(second.answered(Ok("{}".to_owned())));
    assert_eq!(view.http_requests, 2);
    assert!(view.truncated);
    assert_eq!(view.more_stubs, 50);
}

#[test]
fn continued_threads_are_read_at_their_comment() {
    let first = client(false).thread(&command(true, 30), "abcd").unwrap();
    let second = next(first.answered(Ok(page(CONTINUE))));
    assert_eq!(
        url(&second),
        "https://www.reddit.com/r/rust/comments/p/title/deep.json?sort=best&limit=500&depth=4&raw_json=1"
    );
    let view = shown(second.answered(Ok(page(
        r#"{"kind": "t1", "data": {"id": "deep", "name": "t1_deep", "parent_id": "t3_p"}}"#,
    ))));
    assert_eq!(view.http_requests, 2);
    assert_eq!(view.comments[0].id, "deep");
}

#[test]
fn stubs_that_lead_nowhere_are_reported() {
    let first = client(false).thread(&command(true, 30), "abcd").unwrap();
    let view = shown(first.answered(Ok(page(LOST))));
    assert_eq!(view.http_requests, 1);
    assert!(!view.truncated);
    assert_eq!(
        view.notice.as_deref(),
        Some("thread incomplete: 1 hidden comment(s) could not be resolved")
    );
}

#[test]
fn expansion_needs_a_post() {
    let no_post = |stub: &str| format!("[{{}}, {{\"data\": {{\"children\": [{stub}]}}}}]");
    let first = client(false).thread(&command(true, 30), "abcd").unwrap();
    assert_eq!(
        failed(first.answered(Ok(no_post(CONTINUE)))),
        "cannot fetch continue-thread subtree without post permalink"
    );
    let first = client(false).thread(&command(true, 30), "abcd").unwrap();
    assert_eq!(
        failed(first.answered(Ok(no_post(&more(2))))),
        "cannot expand morechildren without post id"
    );
}

#[test]
fn a_blocked_thread_is_read_from_its_feed() {
    let first = client(false).thread(&command(true, 30), "abcd").unwrap();
    let feed = next(first.answered(Err(RdtError::EdgeBlocked)));
    assert_eq!(url(&feed), "https://www.reddit.com/comments/abcd.rss");
    let body = "<feed><entry><id>t3_p</id></entry><entry><id>t1_c</id></entry></feed>";
    let view = shown(feed.answered(Ok(body.to_owned())));
    assert!(view.degraded);
    assert_eq!(view.post.unwrap().id, "t3_p");
    assert_eq!(view.comments.len(), 1);
    assert_eq!(view.comments[0].kind, reddit_cli::model::ItemKind::Comment);
    assert!(view.notice.unwrap().starts_with("RSS degraded mode"));
}

#[test]
fn blocks_while_expanding_are_failures() {
    let first = client(false).thread(&command(true, 30), "abcd").unwrap();
    let second = next(first.answered(Ok(page(&more(2)))));
    let message = failed(second.answered(Err(RdtError::EdgeBlocked)));
    assert!(message.starts_with("reddit edge block"));
}

#[test]
fn forced_feeds_are_asked_for_first() {
    let fetch = client(true).thread(&command(true, 30), "/r/rust/comments/p/").unwrap();
    assert_eq!(url(&fetch), "https://www.reddit.com/r/rust/comments/p.rss");
    let fetch = client(true).comment("/r/rust/comments/p/t/c/", 3).unwrap();
    assert_eq!(url(&fetch), "https://www.reddit.com/r/rust/comments/p/t/c.rss");
}

#[test]
fn comments_are_read_with_their_context() {
    let fetch = client(false).comment("/r/rust/comments/p/t/c/", 3).unwrap();
    assert_eq!(
        url(&fetch),
        "https://www.reddit.com/r/rust/comments/p/t/c.json?context=3&raw_json=1"
    );
    let view = shown(fetch.answered(Ok(page(""))));
    assert_eq!(view.http_requests, 0);
    assert!(client(false).comment("https://evil.example/", 3).is_err());
}

#[test]
fn the_rest_of_a_stub_keeps_its_name() {
    let stub = MoreStub {
        id: "m".to_owned(),
        parent_id: Some("t3_p".to_owned()),
        post_id: None,
        children: vec!["a".to_owned(), "b".to_owned(), "c".to_owned()],
        count: 9,
        depth: 2,
    };
    let rest = stub_with_children(&stub, 1);
    assert_eq!(rest.children, vec!["b".to_owned(), "c".to_owned()]);
    assert_eq!(rest.count, 2);
    assert_eq!(rest.id, "m");
    assert_eq!(rest.depth, 2);
    assert_eq!(stub_with_children(&stub, 3).count, 1);
}
