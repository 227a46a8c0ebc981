use reddit_cli::cli::{Cli, Commands};
use reddit_cli::config::Config;
use reddit_cli::error::RdtError;
use reddit_cli::transport::{
    after_first_try, after_second_try, is_edge_block, is_retryable_rate_limit, jitter,
    looks_like_block_page, read_answer, retry_seconds, FirstTry, RedditClient, Request,
    ACCEPT_FEED, ACCEPT_JSON,
};

fn cli(anon: bool, rss: bool, fresh: bool) -> Cli {
    Cli { json: false, fresh, anon, rss, no_color: true, command: Commands::Saved }
}

fn config(cookie: Option<&str>, delay: Option<u64>) -> Config {
    Config {
        cookie: cookie.map(|c| c.to_owned()),
        request_delay_ms: delay,
        ..Config::default()
    }
}

#[test]
fn block_pages_are_recognised_in_any_case() {
    assert!(looks_like_block_page("<HTML><body>You are Blocked by REDDIT</body>"));
    assert!(!looks_like_block_page("<html>reddit"));
    assert!(!looks_like_block_page("blocked reddit"));
}

#[test]
fn answers_are_judged_by_their_status() {
    let url = "https://www.reddit.com/x";
    assert_eq!(read_answer(200, None, url, "ok".to_owned()).unwrap(), "ok");
    assert_eq!(read_answer(299, None, url, "ok".to_owned()).unwrap(), "ok");
    let blocked = read_answer(403, None, url, "<html>blocked reddit".to_owned()).unwrap_err();
    assert!(is_edge_block(&blocked));
    let refused = read_answer(403, None, url, "no".to_owned()).unwrap_err();
    assert!(!is_edge_block(&refused));
    assert_eq!(refused.message(), "HTTP 403 from https://www.reddit.com/x: no");
    let moved = read_answer(301, None, url, "x".repeat(300)).unwrap_err();
    assert_eq!(moved.message(), format!("HTTP 301 from {url}: {}", "x".repeat(240)));
}

#[test]
fn rate_limits_carry_the_time_to_wait() {
    let url = "https://www.reddit.com/x?retry_after=9";
    let asked = read_answer(429, Some("7"), url, String::new()).unwrap_err();
    assert!(is_retryable_rate_limit(&asked));
    assert_eq!(asked.message(), format!("HTTP 429 from {url} retry_after=7: "));
    assert_eq!(retry_seconds(&asked), 7);
    let long = read_answer(429, Some("600"), url, String::new()).unwrap_err();
    assert_eq!(retry_seconds(&long), 60);
    let silent = read_answer(429, None, url, String::new()).unwrap_err();
    assert_eq!(retry_seconds(&silent), 1);
    let odd = read_answer(429, Some("soon"), url, String::new()).unwrap_err();
    assert_eq!(retry_seconds(&odd), 1);
    assert_eq!(retry_seconds(&RdtError::EdgeBlocked), 1);
}

#[test]
fn a_rate_limited_request_is_made_once_more() {
    let limited = read_answer(429, Some("3"), "u", String::new());
    assert!(matches!(after_first_try(limited), FirstTry::Again { seconds: 3 }));
    assert!(matches!(after_first_try(Ok("body".to_owned())), FirstTry::Done(Ok(_))));
    assert!(matches!(
        after_first_try(Err(RdtError::EdgeBlocked)),
        FirstTry::Done(Err(RdtError::EdgeBlocked))
    ));
    assert_eq!(after_second_try("u", Ok("body".to_owned())).unwrap(), "body");
    let error = after_second_try("u", Err(RdtError::EdgeBlocked)).unwrap_err();
    assert_eq!(error.message(), "rate limited by Reddit after retrying u");
}

#[test]
fn delays_vary_between_seven_and_thirteen_tenths() {
    assert_eq!(jitter(1000, 0), 700);
    assert_eq!(jitter(1000, 30), 1000);
    assert_eq!(jitter(1000, 60), 1300);
    assert_eq!(jitter(1000, 61), 700);
    assert_eq!(jitter(u64::MAX, 60), u64::MAX / 100);
}

#[test]
fn requests_are_paced() {
    let paced = RedditClient::new(&config(None, None), &cli(false, false, false));
    assert_eq!(paced.pace(30), Some(1000));
    let hasty = RedditClient::new(&config(None, Some(0)), &cli(false, false, false));
    assert_eq!(hasty.pace(30), None);
}

#[test]
fn cookies_go_with_json_only() {
    let client = RedditClient::new(&config(Some("abc"), None), &cli(false, false, true));
    let json = client.headers(false);
    assert_eq!(json.cookie.as_deref(), Some("reddit_session=abc"));
    assert_eq!(json.accept, ACCEPT_JSON);
    assert!(json.no_cache);
    let feed = client.headers(true);
    assert_eq!(feed.cookie, None);
    assert_eq!(feed.accept, ACCEPT_FEED);
}

#[test]
fn anonymous_clients_have_no_cookie() {
    let client = RedditClient::new(&config(Some("abc"), None), &cli(true, false, false));
    assert!(!client.has_cookie());
    assert_eq!(client.headers(false).cookie, None);
    assert!(!client.headers(false).no_cache);
}

#[test]
fn json_is_asked_for_without_escapes() {
    let params = vec![("q".to_owned(), "a b".to_owned())];
    let request = Request::json("/search.json".to_owned(), params);
    assert_eq!(
        request.url().unwrap(),
        "https://www.reddit.com/search.json?q=a%20b&raw_json=1"
    );
    let feed = Request::feed("/r/rust/new.rss".to_owned(), Vec::new());
    assert_eq!(feed.url().unwrap(), "https://www.reddit.com/r/rust/new.rss");
    assert!(feed.rss);
}

#[test]
fn errors_say_what_happened() {
    assert!(RdtError::EdgeBlocked.message().starts_with("reddit edge block detected"));
    assert!(RdtError::CookieMissing.message().starts_with("no reddit_session cookie"));
    assert_eq!(
        RdtError::NonRedditUrl("u".to_owned()).message(),
        "refusing non-Reddit URL: u"
    );
    assert_eq!(RdtError::Message("words".to_owned()).message(), "words");
}
