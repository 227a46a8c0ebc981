use reddit_cli::backfill::{
    backfill_settings, backfill_thread, cutoff, is_recent, pull_report, target_of_post,
    thread_to_store, BackfillPlan, BackfillScan, BackfillSettings, ScanStep,
};
use reddit_cli::cli::{Cli, Commands, SyncCommand};
use reddit_cli::config::Config;
use reddit_cli::error::RdtError;
use reddit_cli::json::{decode_json, Real};
use reddit_cli::model::{ItemKind, RedditItem, ThreadView};
use reddit_cli::parse::parse_listing;
use reddit_cli::store::{StreamKind, UpsertStats};
use reddit_cli::sync::{
    break_off, change_settings, complete, name_entries, sync_relevant_len, sync_settings,
    sync_streams, sync_targets, FeedSync, FollowUp, RefreshSync, StreamSync, SyncDone,
    SyncProgress, SyncSettings, SyncStep, WatchSettings,
};
use reddit_cli::transport::{RedditClient, Request};

fn client() -> RedditClient {
    let cli = Cli {
        json: false,
        fresh: false,
        anon: false,
        rss: false,
        no_color: true,
        command: Commands::Saved,
    };
    RedditClient::new(&Config::default(), &cli)
}

fn command() -> SyncCommand {
    SyncCommand {
        subreddits: Vec::new(),
        pages: None,
        loop_secs: None,
        budget: None,
        refresh: false,
        no_refresh: false,
        backfill: None,
        days: None,
        max_requests: None,
    }
}

fn asked<T>(step: SyncStep<T>) -> (String, T) {
    match step {
        SyncStep::Fetch { request, sync } => (request.url().unwrap(), sync),
        SyncStep::Store { .. } => panic!("a request was expected, not a store"),
        SyncStep::Done(done) => panic!("a request was expected, not {:?}", done.report),
    }
}

fn to_store<T>(step: SyncStep<T>) -> (Vec<RedditItem>, T) {
    match step {
        SyncStep::Store { items, sync } => (items, sync),
        _ => panic!("items to store were expected"),
    }
}

fn done<T>(step: SyncStep<T>) -> SyncDone {
    match step {
        SyncStep::Done(done) => done,
        _ => panic!("the end was expected"),
    }
}

fn page(from: usize, to: usize, after: Option<&str>) -> String {
    let things: Vec<String> = (from..to)
        .map(|n| format!("{{\"kind\": \"t3\", \"data\": {{\"id\": \"p{n}\", \"name\": \"t3_p{n}\", \"created_utc\": {n}.0}}}}"))
        .collect();
    let cursor = match after {
        Some(a) => format!("\"{a}\""),
        None => "null".to_owned(),
    };
    format!("{{\"data\": {{\"children\": [{}], \"after\": {cursor}}}}}", things.join(","))
}

fn stats(known: usize, new_items: usize, updated_items: usize) -> UpsertStats {
    UpsertStats { known, new_items, updated_items }
}

#[test]
fn settings_of_the_command_come_first() {
    let watch = WatchSettings { pages: Some(5), budget: Some(500), refresh: Some(true) };
    let none = WatchSettings { pages: None, budget: None, refresh: None };
    let general = Config {
        page_cap: Some(2),
        sync_budget: Some(20),
        sync_refresh: Some(true),
        ..Config::default()
    };
    let plain = sync_settings(&command(), none, &Config::default());
    assert_eq!(plain, SyncSettings { pages: None, budget: 300, refresh: false });
    let from_general = sync_settings(&command(), none, &general);
    assert_eq!(from_general, SyncSettings { pages: Some(2), budget: 20, refresh: true });
    let from_watch = sync_settings(&command(), watch, &general);
    assert_eq!(from_watch, SyncSettings { pages: Some(5), budget: 500, refresh: true });
    let mut given = command();
    given.pages = Some(1);
    given.budget = Some(7);
    given.no_refresh = true;
    let from_command = sync_settings(&given, watch, &general);
    assert_eq!(from_command, SyncSettings { pages: Some(1), budget: 7, refresh: false });
}

#[test]
fn named_subreddits_replace_the_watched_ones() {
    let watched = vec!["swift".to_owned()];
    assert_eq!(sync_targets(&Vec::new(), watched.clone()), watched);
    let named = vec!["r/rust".to_owned(), " /r/go ".to_owned()];
    assert_eq!(sync_targets(&named, watched), vec!["rust".to_owned(), "go".to_owned()]);
}

#[test]
fn feeds_are_not_refreshed() {
    let both = vec![StreamKind::Posts, StreamKind::Comments];
    assert_eq!(sync_streams(true, true), both);
    assert_eq!(sync_streams(false, false), both);
    assert_eq!(sync_streams(true, false).len(), 3);
    assert_eq!(StreamKind::Refresh.as_str(), "refresh");
    assert_eq!(StreamKind::Backfill.as_str(), "backfill");
}

#[test]
fn a_stream_is_read_page_by_page() {
    let c = client();
    let (url, sync) = asked(StreamSync::begin(&c, "r/rust", StreamKind::Posts, 150, None));
    assert_eq!(url, "https://www.reddit.com/r/rust/new.json?limit=100&raw_json=1");
    let (items, sync) = to_store(sync.answered(Ok(page(0, 100, Some("t3_p99")))));
    assert_eq!(items.len(), 100);
    let (url, sync) = asked(sync.stored(&c, stats(0, 100, 0)));
    assert_eq!(url, "https://www.reddit.com/r/rust/new.json?limit=50&after=t3_p99&raw_json=1");
    let (_, sync) = to_store(sync.answered(Ok(page(100, 150, Some("t3_p149")))));
    let end = done(sync.stored(&c, stats(10, 40, 10)));
    assert_eq!(end.report.subreddit, "rust");
    assert_eq!(end.report.new_items, 140);
    assert_eq!(end.report.updated_items, 10);
    assert_eq!(end.report.http_requests, 2);
    assert_eq!(end.report.status, "gap");
    assert_eq!(end.newest.as_deref(), Some("t3_p0"));
    assert!(end.failure.is_none());
}

#[test]
fn a_known_page_ends_a_stream() {
    let c = client();
    let (_, sync) = asked(StreamSync::begin(&c, "rust", StreamKind::Posts, 300, None));
    let (_, sync) = to_store(sync.answered(Ok(page(0, 100, Some("t3_p99")))));
    let end = done(sync.stored(&c, stats(100, 0, 100)));
    assert_eq!(end.report.status, "ok");
    let (_, sync) = asked(StreamSync::begin(&c, "rust", StreamKind::Posts, 300, None));
    let (_, sync) = to_store(sync.answered(Ok(page(0, 3, None))));
    let end = done(sync.stored(&c, stats(0, 3, 0)));
    assert_eq!(end.report.status, "ok");
    assert_eq!(end.report.new_items, 3);
}

#[test]
fn an_empty_page_ends_a_stream() {
    let c = client();
    let (url, sync) = asked(StreamSync::begin(&c, "rust", StreamKind::Comments, 5, Some(2)));
    assert_eq!(url, "https://www.reddit.com/r/rust/comments.json?limit=5&raw_json=1");
    let end = done(sync.answered(Ok(page(0, 0, Some("t1_x")))));
    assert_eq!(end.report.status, "ok");
    assert_eq!(end.newest, None);
    assert_eq!(end.report.http_requests, 1);
}

#[test]
fn pages_bound_a_stream() {
    let c = client();
    let (_, sync) = asked(StreamSync::begin(&c, "rust", StreamKind::Posts, 300, Some(1)));
    let (_, sync) = to_store(sync.answered(Ok(page(0, 100, Some("t3_p99")))));
    let end = done(sync.stored(&c, stats(0, 100, 0)));
    assert_eq!(end.report.status, "gap");
    assert_eq!(end.report.http_requests, 1);
}

#[test]
fn a_failed_stream_reports_what_it_did() {
    let c = client();
    let end = done(StreamSync::begin(&c, "a/b", StreamKind::Posts, 300, None));
    assert_eq!(end.report.status, "error");
    assert_eq!(end.report.http_requests, 1);
    assert_eq!(end.report.notice.as_deref(), Some("invalid subreddit name: a/b"));
    let (_, sync) = asked(StreamSync::begin(&c, "rust", StreamKind::Posts, 300, None));
    let (_, sync) = to_store(sync.answered(Ok(page(0, 100, Some("t3_p99")))));
    let (_, sync) = asked(sync.stored(&c, stats(0, 100, 0)));
    let end = done(sync.answered(Err(RdtError::EdgeBlocked)));
    assert_eq!(end.report.new_items, 100);
    assert_eq!(end.report.http_requests, 2);
    assert_eq!(end.newest, None);
    assert!(matches!(end.failure, Some(RdtError::EdgeBlocked)));
}

#[test]
fn streams_store_their_own_kind() {
    let listing = r#"{"data": {"children": [
        {"kind": "t3", "data": {"id": "p"}}, {"kind": "t1", "data": {"id": "c"}}
    ]}}"#;
    let items = parse_listing(&decode_json(listing).unwrap());
    assert_eq!(sync_relevant_len(StreamKind::Posts, &items), 1);
    assert_eq!(sync_relevant_len(StreamKind::Comments, &items), 1);
    assert_eq!(sync_relevant_len(StreamKind::Backfill, &items), 0);
    let c = client();
    let (_, sync) = asked(StreamSync::begin(&c, "rust", StreamKind::Comments, 300, None));
    let (stored, _) = to_store(sync.answered(Ok(listing.to_owned())));
    assert_eq!(stored.len(), 1);
    assert_eq!(stored[0].kind, ItemKind::Comment);
}

fn feed(entries: &[(&str, &str)]) -> String {
    let body: Vec<String> = entries
        .iter()
        .map(|(id, link)| format!("<entry><id>{id}</id><link href=\"{link}\"/></entry>"))
        .collect();
    format!("<feed>{}</feed>", body.join(""))
}

#[test]
fn a_full_feed_reports_a_gap() {
    let (url, sync) = asked(FeedSync::begin("rust", StreamKind::Comments, 2));
    assert_eq!(url, "https://www.reddit.com/r/rust/comments.rss?limit=2");
    let body = feed(&[
        ("t1_c1", "/r/rust/comments/p1/title/c1/"),
        ("urn:x", "/r/rust/comments/p2/title/c2/"),
    ]);
    let (items, sync) = to_store(sync.answered(Ok(body)));
    assert_eq!(items.len(), 2);
    assert_eq!(items[0].kind, ItemKind::Comment);
    assert_eq!(items[0].fullname, "t1_c1");
    assert_eq!(items[0].post_id.as_deref(), Some("p1"));
    assert_eq!(items[1].id, "c2");
    assert_eq!(items[1].fullname, "t1_c2");
    let end = sync.stored(stats(0, 2, 0));
    assert_eq!(end.report.status, "gap");
    assert_eq!(end.report.new_items, 2);
    assert_eq!(end.newest.as_deref(), Some("t1_c1"));
}

#[test]
fn a_short_feed_is_complete() {
    let (url, sync) = asked(FeedSync::begin("rust", StreamKind::Posts, 1000));
    assert_eq!(url, "https://www.reddit.com/r/rust/new.rss?limit=100");
    let (items, sync) =
        to_store(sync.answered(Ok(feed(&[("t3_p1", "/r/rust/comments/p1/t/"), ("?", "?")]))));
    assert_eq!(items.len(), 1);
    assert_eq!(items[0].post_id.as_deref(), Some("p1"));
    assert_eq!(sync.stored(stats(1, 0, 1)).report.status, "ok");
}

#[test]
fn a_failed_feed_is_reported() {
    let (_, sync) = asked(FeedSync::begin("rust", StreamKind::Posts, 5));
    let end = done(sync.answered(Err(RdtError::Message("throttled".to_owned()))));
    assert_eq!(end.report.status, "error");
    assert_eq!(end.report.notice.as_deref(), Some("throttled"));
    let (_, sync) = asked(FeedSync::begin("rust", StreamKind::Posts, 5));
    assert_eq!(done(sync.answered(Ok("<a></b>".to_owned()))).report.status, "error");
}

#[test]
fn entries_without_an_id_are_left_out() {
    let items = reddit_cli::atom::parse_atom_entries(&feed(&[("x", "/r/rust/about/")])).unwrap();
    assert_eq!(name_entries(StreamKind::Posts, items).len(), 0);
}

#[test]
fn a_refresh_reports_what_it_leaves_out() {
    let c = client();
    let ids: Vec<String> = (0..250).map(|n| format!("t3_{:04}", n)).collect();
    let (url, sync) = asked(RefreshSync::begin(&c, "rust", ids, 150, None));
    assert!(url.starts_with("https://www.reddit.com/api/info.json?id=t3_0000%2Ct3_0001%2C"));
    assert!(url.ends_with("%2Ct3_0099&raw_json=1"));
    let (items, sync) = to_store(sync.answered(Ok(page(0, 2, None))));
    assert_eq!(items.len(), 2);
    let (url, sync) = asked(sync.stored(&c, stats(2, 0, 2)));
    assert!(url.contains("id=t3_0100%2C"));
    assert!(url.ends_with("%2Ct3_0149&raw_json=1"));
    let (_, sync) = to_store(sync.answered(Ok(page(0, 1, None))));
    let end = done(sync.stored(&c, stats(1, 0, 1)));
    assert_eq!(end.report.kind, StreamKind::Refresh);
    assert_eq!(end.report.status, "gap");
    assert_eq!(end.report.remaining_items, Some(100));
    assert_eq!(end.report.updated_items, 3);
    assert_eq!(end.report.http_requests, 2);
}

#[test]
fn a_refresh_of_everything_is_complete() {
    let c = client();
    let end = done(RefreshSync::begin(&c, "rust", Vec::new(), 300, None));
    assert_eq!(end.report.status, "ok");
    assert_eq!(end.report.remaining_items, None);
    assert_eq!(end.report.http_requests, 0);
    let ids: Vec<String> = (0..250).map(|n| format!("t3_{:04}", n)).collect();
    let (_, sync) = asked(RefreshSync::begin(&c, "rust", ids, 300, Some(1)));
    let (_, sync) = to_store(sync.answered(Ok("{}".to_owned())));
    assert_eq!(done(sync.stored(&c, stats(0, 0, 0))).report.remaining_items, Some(150));
    let bad = vec!["t3_abcd".to_owned(), "bad".to_owned()];
    let end = done(RefreshSync::begin(&c, "rust", bad, 300, None));
    assert_eq!(end.report.notice.as_deref(), Some("invalid Reddit fullname: bad"));
}

fn scanned(step: ScanStep) -> (String, BackfillScan) {
    match step {
        ScanStep::Fetch { request, scan } => (request.url().unwrap(), scan),
        _ => panic!("a request was expected"),
    }
}

fn picked(step: ScanStep) -> BackfillPlan {
    match step {
        ScanStep::Picked(plan) => plan,
        _ => panic!("picked posts were expected"),
    }
}

fn moment(n: f64) -> Real {
    Real { bits: n.to_bits() }
}

const SMALL: BackfillSettings =
    BackfillSettings { days: 2, budget: 3, pages: 1, max_requests: 10 };

fn newest_first(from: usize, to: usize, after: Option<&str>) -> String {
    let things: Vec<String> = (to..from)
        .rev()
        .map(|n| format!("{{\"kind\": \"t3\", \"data\": {{\"id\": \"p{n}\", \"name\": \"t3_p{n}\", \"created_utc\": {n}.0}}}}"))
        .collect();
    let cursor = match after {
        Some(a) => format!("\"{a}\""),
        None => "null".to_owned(),
    };
    format!("{{\"data\": {{\"children\": [{}], \"after\": {cursor}}}}}", things.join(","))
}

#[test]
fn a_backfill_picks_recent_posts() {
    let c = client();
    let (url, scan) = scanned(BackfillScan::begin(&c, "rust", moment(8.0), SMALL));
    assert_eq!(url, "https://www.reddit.com/r/rust/new.json?limit=100&raw_json=1");
    let plan = picked(scan.answered(&c, Ok(newest_first(10, 0, Some("t3_p0")))));
    let ids: Vec<&str> = plan.posts.iter().map(|p| p.id.as_str()).collect();
    assert_eq!(ids, vec!["p9", "p8"]);
    assert!(!plan.gap);
}

#[test]
fn a_backfill_reports_what_the_caps_left_out() {
    let c = client();
    let (_, scan) = scanned(BackfillScan::begin(&c, "rust", moment(0.0), SMALL));
    let plan = picked(scan.answered(&c, Ok(newest_first(10, 0, None))));
    assert_eq!(plan.posts.len(), 3);
    assert!(plan.gap);
    let (_, scan) = scanned(BackfillScan::begin(&c, "rust", moment(0.0), SMALL));
    let plan = picked(scan.answered(&c, Ok(newest_first(2, 0, Some("t3_p0")))));
    assert_eq!(plan.posts.len(), 2);
    assert!(plan.gap);
    let wide = BackfillSettings { pages: 2, ..SMALL };
    let (_, scan) = scanned(BackfillScan::begin(&c, "rust", moment(0.0), wide));
    let (url, scan) = scanned(scan.answered(&c, Ok(newest_first(2, 0, Some("t3_p0")))));
    assert!(url.contains("after=t3_p0"));
    let plan = picked(scan.answered(&c, Ok(newest_first(0, 0, None))));
    assert!(!plan.gap);
    assert_eq!(plan.progress.http_requests, 2);
}

#[test]
fn a_backfill_sums_up_its_threads() {
    let c = client();
    let (_, scan) = scanned(BackfillScan::begin(&c, "r/rust", moment(0.0), SMALL));
    let mut plan = picked(scan.answered(&c, Ok(newest_first(2, 0, None))));
    assert!(!plan.gap);
    plan.capture(false, 4, stats(0, 5, 1));
    plan.capture(true, 10, stats(0, 2, 2));
    let done = plan.report();
    assert_eq!(done.report.subreddit, "rust");
    assert_eq!(done.report.kind, StreamKind::Backfill);
    assert_eq!(done.report.new_items, 7);
    assert_eq!(done.report.updated_items, 3);
    assert_eq!(done.report.http_requests, 15);
    assert_eq!(done.report.status, "gap");
}

#[test]
fn a_failed_scan_is_reported() {
    let c = client();
    match BackfillScan::begin(&c, "?", moment(0.0), SMALL) {
        ScanStep::Failed(done) => assert_eq!(done.report.status, "error"),
        _ => panic!("a failure was expected"),
    }
    let (_, scan) = scanned(BackfillScan::begin(&c, "rust", moment(0.0), SMALL));
    match scan.answered(&c, Ok("?".to_owned())) {
        ScanStep::Failed(done) => {
            assert_eq!(done.report.notice.as_deref(), Some("parsing reddit JSON"))
        }
        _ => panic!("a failure was expected"),
    }
}

#[test]
fn backfill_has_its_own_defaults() {
    assert_eq!(backfill_settings(&command()), SMALL);
    let mut given = command();
    given.days = Some(7);
    given.budget = Some(1);
    given.pages = Some(4);
    given.max_requests = Some(2);
    assert_eq!(
        backfill_settings(&given),
        BackfillSettings { days: 7, budget: 1, pages: 4, max_requests: 2 }
    );
    assert_eq!(cutoff(1_000_000, 2), 1_000_000 - 172_800);
    let thread = backfill_thread("t3_p", 10);
    assert!(thread.all);
    assert_eq!(thread.max_requests, 10);
    assert_eq!(thread.depth, None);
}

#[test]
fn moments_are_compared_as_numbers() {
    assert!(is_recent(Some(moment(1.5)), moment(1.5)));
    assert!(is_recent(Some(moment(1.75e9)), moment(1.5)));
    assert!(!is_recent(Some(moment(1.0)), moment(1.5)));
    assert!(!is_recent(Some(moment(-2.0)), moment(1.5)));
    assert!(!is_recent(None, moment(0.0)));
    assert!(is_recent(Some(moment(0.0)), moment(-1.0)));
    assert!(is_recent(Some(moment(-1.0)), moment(-2.0)));
    assert!(!is_recent(Some(moment(-2.0)), moment(-1.0)));
    assert!(is_recent(Some(moment(-0.0)), moment(0.0)));
    assert!(is_recent(Some(moment(f64::INFINITY)), moment(1.0)));
    assert!(!is_recent(Some(moment(f64::NAN)), moment(1.0)));
    assert!(!is_recent(Some(moment(1.0)), moment(f64::NAN)));
}

fn thread(post: Option<RedditItem>, degraded: bool) -> ThreadView {
    ThreadView {
        post,
        comments: Vec::new(),
        more_stubs: 0,
        degraded,
        truncated: false,
        http_requests: 1,
        notice: None,
    }
}

fn first_post() -> RedditItem {
    parse_listing(&decode_json(&page(1, 2, None)).unwrap()).remove(0)
}

#[test]
fn degraded_threads_are_not_stored() {
    assert_eq!(
        thread_to_store(thread(Some(first_post()), true)).unwrap_err().message(),
        "rdt pull requires JSON parent metadata; RSS degraded thread output was not written"
    );
    assert_eq!(
        thread_to_store(thread(None, false)).unwrap_err().message(),
        "thread has no post to store"
    );
    let (post, comments) = thread_to_store(thread(Some(first_post()), false)).unwrap();
    assert_eq!(post.id, "p1");
    assert_eq!(comments.len(), 0);
    assert_eq!(target_of_post(&post), "t3_p1");
}

#[test]
fn a_pull_at_its_cap_reports_a_gap() {
    let report = pull_report(Some("r/rust"), true, 9, Some("n".to_owned()), stats(0, 1, 2));
    assert_eq!(report.subreddit, "rust");
    assert_eq!(report.kind, StreamKind::Backfill);
    assert_eq!(report.status, "gap");
    assert_eq!(report.http_requests, 9);
    assert_eq!(report.notice.as_deref(), Some("n"));
    let complete = pull_report(None, false, 1, None, stats(0, 0, 0));
    assert_eq!(complete.status, "ok");
    assert_eq!(complete.subreddit, "unknown");
}

#[test]
fn requests_of_a_capture_go_to_the_site() {
    let c = client();
    let check = |request: &Request| {
        assert!(request.url().unwrap().starts_with("https://www.reddit.com/"));
    };
    match StreamSync::begin(&c, "rust", StreamKind::Posts, 1, None) {
        SyncStep::Fetch { request, .. } => check(&request),
        _ => panic!("a request was expected"),
    }
    match FeedSync::begin("rust", StreamKind::Posts, 1) {
        SyncStep::Fetch { request, .. } => check(&request),
        _ => panic!("a request was expected"),
    }
}

#[test]
fn changes_keep_the_settings_they_do_not_name() {
    let stored = WatchSettings { pages: Some(5), budget: Some(500), refresh: Some(true) };
    let change = WatchSettings { pages: Some(8), budget: None, refresh: Some(false) };
    assert_eq!(
        change_settings(stored, change),
        WatchSettings { pages: Some(8), budget: Some(500), refresh: Some(false) }
    );
    let nothing = WatchSettings { pages: None, budget: None, refresh: None };
    assert_eq!(change_settings(stored, nothing), stored);
    assert_eq!(change_settings(nothing, change), change);
}

#[test]
fn failures_end_a_run_unless_only_feeds_are_read() {
    let none = SyncProgress::nothing();
    let posts = complete("rust", StreamKind::Posts, none, false, None, Some("t3_a".to_owned()));
    assert_eq!(posts.follow_up(false), FollowUp::Remember);
    assert_eq!(posts.follow_up(true), FollowUp::Remember);
    let refresh = complete("rust", StreamKind::Refresh, none, true, Some(1), None);
    assert_eq!(refresh.follow_up(false), FollowUp::Report);
    let failed = break_off("r/rust", StreamKind::Comments, none, RdtError::EdgeBlocked);
    assert_eq!(failed.follow_up(false), FollowUp::Fail);
    assert_eq!(failed.follow_up(true), FollowUp::Report);
    assert_eq!(failed.report.status, "error");
    assert_eq!(failed.report.subreddit, "rust");
    assert_eq!(failed.newest, None);
}

#[test]
fn failed_storing_ends_a_capture_with_an_error() {
    let page = r#"{"data": {"children": [
        {"kind": "t3", "data": {"id": "aaaa", "name": "t3_aaaa"}}], "after": "t3_aaaa"}}"#;
    let refused = || RdtError::Message("disk full".to_owned());
    let check = |done: SyncDone, kind: StreamKind| {
        assert_eq!(done.report.kind, kind);
        assert_eq!(done.report.status, "error");
        assert_eq!(done.report.http_requests, 1);
        assert_eq!(done.report.notice.as_deref(), Some("disk full"));
        assert_eq!(done.newest, None);
        assert_eq!(done.follow_up(false), FollowUp::Fail);
    };

    let (_, sync) = asked(StreamSync::begin(&client(), "rust", StreamKind::Posts, 300, None));
    let (_, sync) = to_store(sync.answered(Ok(page.to_owned())));
    check(sync.failed(refused()), StreamKind::Posts);

    let (_, sync) = asked(FeedSync::begin("rust", StreamKind::Comments, 25));
    let (_, sync) = to_store(sync.answered(Ok("<feed></feed>".to_owned())));
    check(sync.failed(refused()), StreamKind::Comments);

    let ids = vec!["t3_aaaa".to_owned()];
    let (_, sync) = asked(RefreshSync::begin(&client(), "rust", ids, 300, None));
    let (_, sync) = to_store(sync.answered(Ok(page.to_owned())));
    check(sync.failed(refused()), StreamKind::Refresh);
}

#[test]
fn captures_fail_where_the_newest_thing_is_not_remembered() {
    let progress = SyncProgress { new_items: 2, updated_items: 1, http_requests: 3 };
    let newest = Some("t3_a".to_owned());
    let done = complete("rust", StreamKind::Posts, progress, true, None, newest);
    let failed = done.failed(RdtError::Message("locked".to_owned()));
    assert_eq!(failed.report.status, "error");
    assert_eq!(failed.report.new_items, 2);
    assert_eq!(failed.report.http_requests, 3);
    assert_eq!(failed.report.notice.as_deref(), Some("locked"));
    assert_eq!(failed.newest, None);
    assert_eq!(failed.follow_up(false), FollowUp::Fail);
}

#[test]
fn a_refresh_takes_as_many_requests_as_pages() {
    let ids: Vec<String> = (0..450).map(|n| format!("t3_{:04}", n)).collect();
    let mut step = RefreshSync::begin(&client(), "rust", ids, 300, Some(2));
    let mut requests = 0;
    let end = loop {
        step = match step {
            SyncStep::Fetch { sync, .. } => {
                requests += 1;
                sync.answered(Ok("{}".to_owned()))
            }
            SyncStep::Store { sync, .. } => sync.stored(&client(), stats(0, 0, 0)),
            SyncStep::Done(done) => break done,
        };
    };
    assert_eq!(requests, 2);
    assert_eq!(end.report.http_requests, 2);
    assert_eq!(end.report.remaining_items, Some(250));
    assert_eq!(end.report.status, "gap");
}

#[test]
fn failures_of_a_capture_come_before_those_of_the_log() {
    let none = SyncProgress::nothing();
    let posts = || complete("rust", StreamKind::Posts, none, false, None, None);
    let failed = || break_off("rust", StreamKind::Posts, none, RdtError::EdgeBlocked);
    let unlogged = || Err(RdtError::Message("locked".to_owned()));

    assert_eq!(posts().outcome(false, Ok(())).unwrap().status, "ok");
    let (first, later) = posts().outcome(true, unlogged()).unwrap_err();
    assert_eq!(first.message(), "locked");
    assert!(later.is_none());

    assert_eq!(failed().outcome(true, Ok(())).unwrap().status, "error");
    let (first, later) = failed().outcome(false, Ok(())).unwrap_err();
    assert!(matches!(first, RdtError::EdgeBlocked));
    assert!(later.is_none());
    for rss in [false, true] {
        let (first, later) = failed().outcome(rss, unlogged()).unwrap_err();
        assert!(matches!(first, RdtError::EdgeBlocked));
        assert_eq!(later.unwrap().message(), "locked");
    }
}
