use reddit_cli::cli::{
    BrowseCommand, BrowseSort, Cli, Commands, SearchCommand, SearchSort, TimeWindow, UserCommand,
    UserWhat,
};
use reddit_cli::config::Config;
use reddit_cli::error::RdtError;
use reddit_cli::json::decode_json;
use reddit_cli::listing::{read_items, read_page, read_user, ListingStep};
use reddit_cli::transport::{RedditClient, Request};

fn client(rss: bool, cookie: Option<&str>) -> RedditClient {
    let config = Config { cookie: cookie.map(|c| c.to_owned()), ..Config::default() };
    let cli = Cli {
        json: false,
        fresh: false,
        anon: false,
        rss,
        no_color: true,
        command: Commands::Saved,
    };
    RedditClient::new(&config, &cli)
}

fn search(subreddits: &[&str]) -> SearchCommand {
    SearchCommand {
        query: "rust cli".to_owned(),
        subreddits: subreddits.iter().map(|s| s.to_string()).collect(),
        sort: SearchSort::New,
        time: TimeWindow::Week,
        limit: 5,
        local: false,
    }
}

fn url(request: &Request) -> String {
    request.url().unwrap()
}

#[test]
fn searches_the_site_or_subreddits() {
    let everywhere = client(false, None).search(&search(&[])).unwrap();
    assert_eq!(
        url(&everywhere.request),
        "https://www.reddit.com/search.json?q=rust%20cli&restrict_sr=0&sort=new&t=week&limit=5&raw_json=1"
    );
    assert_eq!(
        url(&everywhere.fallback.unwrap()),
        "https://www.reddit.com/search.rss?q=rust%20cli&restrict_sr=0&sort=new&t=week&limit=5"
    );
    let some = client(true, None).search(&search(&["r/rust", "swift"])).unwrap();
    assert_eq!(
        url(&some.request),
        "https://www.reddit.com/r/rust+swift/search.rss?q=rust%20cli&restrict_sr=1&sort=new&t=week&limit=5"
    );
    assert!(some.fallback.is_none());
    let error = client(false, None).search(&search(&["ok", "a/b", "c d"])).unwrap_err();
    assert_eq!(error.message(), "invalid subreddit name: a/b");
}

#[test]
fn browses_a_subreddit() {
    let command = BrowseCommand {
        sub: "rust".to_owned(),
        sort: BrowseSort::Top,
        time: TimeWindow::Day,
        limit: 25,
        after: Some("t3_z".to_owned()),
    };
    let fetch = client(false, None).browse(&command).unwrap();
    assert_eq!(
        url(&fetch.request),
        "https://www.reddit.com/r/rust/top.json?limit=25&t=day&after=t3_z&raw_json=1"
    );
    assert_eq!(
        url(&fetch.fallback.unwrap()),
        "https://www.reddit.com/r/rust/top.rss?limit=25&t=day&after=t3_z"
    );
}

#[test]
fn lists_users_and_subreddits_as_json_only() {
    let command =
        UserCommand { name: "u/bob".to_owned(), what: UserWhat::Comments, limit: 3 };
    let user = client(true, None).user(&command).unwrap();
    assert_eq!(
        url(&user.request),
        "https://www.reddit.com/user/bob/comments.json?limit=3&raw_json=1"
    );
    assert!(user.fallback.is_none());
    let subs = client(false, None).subreddits("rust");
    assert_eq!(
        url(&subs.request),
        "https://www.reddit.com/subreddits/search.json?q=rust&limit=25&raw_json=1"
    );
    match subs.answered(Err(RdtError::EdgeBlocked)) {
        ListingStep::Done(Err(e)) => {
            assert_eq!(e.message(), "searching subreddits");
            assert!(matches!(e.cause, RdtError::EdgeBlocked));
        }
        _ => panic!("a failure was expected"),
    }
}

#[test]
fn asks_for_things_by_name() {
    let c = client(false, None);
    assert!(c.info_by_ids(&[]).unwrap().is_none());
    let ids = vec!["t3_abcd".to_owned(), "t1_efgh".to_owned()];
    let fetch = c.info_by_ids(&ids).unwrap().unwrap();
    assert_eq!(
        url(&fetch.request),
        "https://www.reddit.com/api/info.json?id=t3_abcd%2Ct1_efgh&raw_json=1"
    );
    let many: Vec<String> = (0..101).map(|n| format!("t3_{:04}", n)).collect();
    assert_eq!(c.info_by_ids(&many).unwrap_err().message(), "api/info batch exceeds 100 ids");
    let bad = vec!["t3_abcd".to_owned(), "nope".to_owned()];
    assert_eq!(c.info_by_ids(&bad).unwrap_err().message(), "invalid Reddit fullname: nope");
}

#[test]
fn asks_for_pages_of_a_listing() {
    let c = client(false, None);
    let request = c.sync_listing_page("r/rust", "new", 500, Some("t3_q")).unwrap();
    assert_eq!(
        url(&request),
        "https://www.reddit.com/r/rust/new.json?limit=100&after=t3_q&raw_json=1"
    );
    let least = c.sync_listing_page("rust", "comments", 0, None).unwrap();
    assert_eq!(url(&least), "https://www.reddit.com/r/rust/comments.json?limit=1&raw_json=1");
    assert!(c.sync_listing_page("rust", "hot", 1, None).is_err());
    let about = c.subreddit_about("rust").unwrap();
    assert_eq!(url(&about), "https://www.reddit.com/r/rust/about.json?raw_json=1");
}

#[test]
fn a_blocked_listing_is_read_from_its_feed() {
    let fetch = client(false, None).search(&search(&[])).unwrap();
    let again = match fetch.answered(Err(RdtError::EdgeBlocked)) {
        ListingStep::Fetch(next) => next,
        _ => panic!("a second request was expected"),
    };
    assert!(again.request.rss);
    let body = "<feed><entry><id>t3_a</id></entry><entry><id>t3_b</id></entry></feed>";
    match again.answered(Ok(body.to_owned())) {
        ListingStep::Done(Ok(items)) => {
            assert_eq!(items.len(), 2);
            assert_eq!(items[1].id, "t3_b");
            assert_eq!(items[1].index, Some(2));
        }
        _ => panic!("items were expected"),
    }
}

#[test]
fn other_failures_are_final() {
    let fetch = client(false, None).search(&search(&[])).unwrap();
    match fetch.answered(Err(RdtError::Message("broken".to_owned()))) {
        ListingStep::Done(Err(e)) => assert_eq!(e.message(), "broken"),
        _ => panic!("a failure was expected"),
    }
    let fetch = client(false, None).search(&search(&[])).unwrap();
    match fetch.answered(Ok("not json".to_owned())) {
        ListingStep::Done(Err(e)) => {
            assert_eq!(e.message(), "parsing reddit JSON");
            assert!(e.cause.cause().unwrap().contains("line 1"));
        }
        _ => panic!("a failure was expected"),
    }
}

#[test]
fn listings_are_read_as_json() {
    let body = r#"{"data": {"children": [{"kind": "t3", "data": {"id": "a"}}], "after": "t3_a"}}"#;
    let items = read_items(false, body).unwrap();
    assert_eq!(items[0].fullname, "t3_a");
    assert_eq!(items[0].index, None);
    let page = read_page(body).unwrap();
    assert_eq!(page.after.as_deref(), Some("t3_a"));
}

#[test]
fn the_user_is_named_by_the_site() {
    assert!(matches!(client(false, None).auth_check(), Err(RdtError::CookieMissing)));
    let request = client(false, Some("c")).auth_check().unwrap();
    assert_eq!(url(&request), "https://www.reddit.com/api/me.json?raw_json=1");
    let inner = decode_json(r#"{"data": {"name": "alice"}, "name": "bob"}"#).unwrap();
    assert_eq!(read_user(&inner).unwrap(), "logged in as u/alice");
    let outer = decode_json(r#"{"data": {"name": 1}, "name": "bob"}"#).unwrap();
    assert_eq!(read_user(&outer).unwrap(), "logged in as u/bob");
    let none = decode_json("{}").unwrap();
    assert_eq!(
        read_user(&none).unwrap_err().message(),
        "auth check response did not include a username"
    );
}

#[test]
fn sorts_and_windows_have_words() {
    assert_eq!(SearchSort::Relevance.as_reddit(), "relevance");
    assert_eq!(SearchSort::Comments.as_reddit(), "comments");
    assert_eq!(BrowseSort::Controversial.as_reddit(), "controversial");
    assert_eq!(TimeWindow::All.as_reddit(), "all");
    assert_eq!(UserWhat::Overview.as_reddit(), "overview");
}
