use reddit_cli::cli::{
    AuthCommand, Cli, CommentCommand, Commands, DbCommand, DigestCommand, PullCommand,
    SearchCommand, SearchSort, SubCommand, SubsCommand, SyncCommand, ThreadCommand, ThreadSort,
    TimeWindow, WatchAddCommand, WatchCommand, WatchSetCommand,
};
use reddit_cli::config::Config;
use reddit_cli::error::RdtError;
use reddit_cli::plan::{link_message, plan, LinkUse, Lookup, Plan};
use reddit_cli::sync::WatchSettings;
use reddit_cli::transport::RedditClient;

fn planned(command: Commands, rss: bool) -> Result<Plan, RdtError> {
    let cli = Cli { json: true, fresh: false, anon: false, rss, no_color: false, command };
    let client = RedditClient::new(&Config::default(), &cli);
    plan(&cli, &client)
}

fn search(local: bool) -> Commands {
    Commands::Search(SearchCommand {
        query: "q".to_owned(),
        subreddits: Vec::new(),
        sort: SearchSort::Relevance,
        time: TimeWindow::All,
        limit: 25,
        local,
    })
}

fn failure(plan: Result<Plan, RdtError>) -> String {
    match plan {
        Err(e) => e.message(),
        Ok(_) => panic!("a failure was expected"),
    }
}

#[test]
fn initializes_and_records_watches() {
    let add = WatchAddCommand {
        subreddits: vec!["r/rust".to_owned()],
        pages: Some(5),
        budget: None,
        refresh: true,
        no_refresh: false,
    };
    match planned(Commands::Watch(WatchCommand::Add(add)), false) {
        Ok(Plan::Watch { subreddits, settings, message }) => {
            assert_eq!(subreddits.len(), 1);
            assert_eq!(subreddits[0], "rust");
            assert_eq!(
                settings,
                WatchSettings { pages: Some(5), budget: None, refresh: Some(true) }
            );
            assert_eq!(message, "added 1 watch(es)");
        }
        _ => panic!("a watch was expected"),
    }
}

#[test]
fn watches_are_changed_removed_and_listed() {
    let set = WatchSetCommand {
        subreddit: "r/rust".to_owned(),
        pages: None,
        budget: Some(8),
        refresh: true,
        no_refresh: true,
    };
    match planned(Commands::Watch(WatchCommand::Change(set)), false) {
        Ok(Plan::Settings { subreddit, settings, message }) => {
            assert_eq!(subreddit, "rust");
            assert_eq!(settings.refresh, Some(false));
            assert_eq!(settings.budget, Some(8));
            assert_eq!(message, "updated watch for r/r/rust");
        }
        _ => panic!("settings were expected"),
    }
    let rm = WatchCommand::Rm { subreddit: "rust".to_owned() };
    match planned(Commands::Watch(rm), false) {
        Ok(Plan::Unwatch { subreddit, message }) => {
            assert_eq!(subreddit, "rust");
            assert_eq!(message, "removed watch for r/rust");
        }
        _ => panic!("a removal was expected"),
    }
    assert!(matches!(
        planned(Commands::Watch(WatchCommand::Ls), false),
        Ok(Plan::Rows { lookup: Lookup::Watches, json: true })
    ));
}

#[test]
fn searches_are_local_or_fetched() {
    match planned(search(true), false) {
        Ok(Plan::Rows { lookup: Lookup::Text(query), json }) => {
            assert_eq!(query, "q");
            assert!(json);
        }
        _ => panic!("rows were expected"),
    }
    match planned(search(false), true) {
        Ok(Plan::Items(fetch)) => assert!(fetch.request.rss),
        _ => panic!("items were expected"),
    }
}

#[test]
fn reading_commands_make_requests() {
    let subs = Commands::Subs(SubsCommand { query: "x".to_owned() });
    assert!(matches!(planned(subs, false), Ok(Plan::Items(_))));
    let sub = Commands::Sub(SubCommand { name: "rust".to_owned() });
    assert!(matches!(planned(sub, false), Ok(Plan::Document(_))));
    let bad = Commands::Sub(SubCommand { name: "?".to_owned() });
    assert_eq!(failure(planned(bad, false)), "invalid subreddit name: ?");
    let thread = Commands::Thread(ThreadCommand {
        target: "1".to_owned(),
        all: false,
        depth: None,
        sort: ThreadSort::Best,
        max_requests: 30,
    });
    assert!(matches!(planned(thread, false), Ok(Plan::Thread)));
    let comment =
        Commands::Comment(CommentCommand { url: "/r/a/comments/b/".to_owned(), context: 3 });
    assert!(matches!(planned(comment, false), Ok(Plan::Comment(_))));
}

#[test]
fn pulls_expand_everything_and_need_json() {
    let pull = || {
        Commands::Pull(PullCommand {
            target: "1".to_owned(),
            depth: Some(2),
            sort: ThreadSort::Top,
            max_requests: 7,
        })
    };
    match planned(pull(), false) {
        Ok(Plan::Pull(command)) => {
            assert!(command.all);
            assert_eq!(command.target, "1");
            assert_eq!(command.depth, Some(2));
            assert_eq!(command.max_requests, 7);
        }
        _ => panic!("a pull was expected"),
    }
    assert!(failure(planned(pull(), true)).starts_with("rdt --rss pull is planned"));
}

#[test]
fn syncs_read_streams_or_catch_up() {
    let sync = |backfill: Option<&str>| {
        Commands::Sync(SyncCommand {
            subreddits: Vec::new(),
            pages: None,
            loop_secs: None,
            budget: None,
            refresh: false,
            no_refresh: false,
            backfill: backfill.map(|b| b.to_owned()),
            days: None,
            max_requests: None,
        })
    };
    assert!(matches!(planned(sync(None), true), Ok(Plan::Sync)));
    match planned(sync(Some("rust")), false) {
        Ok(Plan::Backfill { subreddit }) => assert_eq!(subreddit, "rust"),
        _ => panic!("a backfill was expected"),
    }
}

#[test]
fn the_database_is_read() {
    let digest = Commands::Digest(DigestCommand {
        since: Some("24h".to_owned()),
        sub: Some("r/rust".to_owned()),
        md: false,
        json: false,
    });
    match planned(digest, false) {
        Ok(Plan::Digest { since, subreddit, json }) => {
            assert_eq!(since.as_deref(), Some("24h"));
            assert_eq!(subreddit.as_deref(), Some("rust"));
            assert!(json);
        }
        _ => panic!("a digest was expected"),
    }
    assert!(matches!(planned(Commands::Db(DbCommand::Path), false), Ok(Plan::DatabasePath)));
    let query = DbCommand::Query { sql: "SELECT 1".to_owned(), json: false };
    assert!(matches!(
        planned(Commands::Db(query), false),
        Ok(Plan::Rows { lookup: Lookup::Statement(_), json: true })
    ));
    let text = DbCommand::Search { query: "x".to_owned() };
    assert!(matches!(
        planned(Commands::Db(text), false),
        Ok(Plan::Rows { lookup: Lookup::Text(_), .. })
    ));
    assert!(matches!(
        planned(Commands::Saved, false),
        Ok(Plan::Rows { lookup: Lookup::Saved, .. })
    ));
}

#[test]
fn permalinks_are_used() {
    let target = || "1".to_owned();
    assert!(matches!(
        planned(Commands::Copy { target: target() }, false),
        Ok(Plan::Link { purpose: LinkUse::Copy, .. })
    ));
    assert!(matches!(
        planned(Commands::Open { target: target() }, false),
        Ok(Plan::Link { purpose: LinkUse::Open, .. })
    ));
    match planned(Commands::Save { target: target(), note: Some("n".to_owned()) }, false) {
        Ok(Plan::Link { target, purpose }) => {
            assert_eq!(target, "1");
            assert_eq!(link_message(&purpose, "L"), "saved L");
        }
        _ => panic!("a permalink was expected"),
    }
    assert_eq!(link_message(&LinkUse::Copy, "L"), "L");
}

#[test]
fn cookies_are_checked_and_forgotten() {
    let auth = |command: AuthCommand| planned(Commands::Auth(command), false);
    assert!(failure(auth(AuthCommand::Check)).starts_with("no reddit_session cookie"));
    assert!(matches!(auth(AuthCommand::Clear), Ok(Plan::Forget)));
    let browser = AuthCommand::FromBrowser { browser: None };
    assert!(failure(auth(browser)).starts_with("browser cookie extraction is planned"));
}

#[test]
fn flags_override_in_order() {
    let set = |refresh: bool, no_refresh: bool| WatchSetCommand {
        subreddit: String::new(),
        pages: None,
        budget: None,
        refresh,
        no_refresh,
    };
    assert_eq!(set(false, false).refresh_override(), None);
    assert_eq!(set(true, false).refresh_override(), Some(true));
    assert_eq!(set(false, true).refresh_override(), Some(false));
    assert_eq!(set(true, true).refresh_override(), Some(false));
}

#[test]
fn reading_uses_the_cache_and_capturing_bypasses_it() {
    let cached = |command: Commands| planned(command, false).map(|plan| plan.uses_cache()).ok();
    assert_eq!(cached(search(false)), Some(true));
    assert_eq!(cached(search(true)), Some(false));
    assert_eq!(cached(Commands::Subs(SubsCommand { query: "q".to_owned() })), Some(true));
    assert_eq!(cached(Commands::Sub(SubCommand { name: "rust".to_owned() })), Some(true));
    let thread = ThreadCommand {
        target: "abc123".to_owned(),
        all: false,
        depth: None,
        sort: ThreadSort::Best,
        max_requests: 30,
    };
    assert_eq!(cached(Commands::Thread(thread)), Some(true));
    let comment = CommentCommand { url: "/r/rust/comments/abc/t/def".to_owned(), context: 3 };
    assert_eq!(cached(Commands::Comment(comment)), Some(true));
    let pull = PullCommand {
        target: "1".to_owned(),
        depth: None,
        sort: ThreadSort::Best,
        max_requests: 30,
    };
    assert_eq!(cached(Commands::Pull(pull)), Some(false));
    let sync = SyncCommand {
        subreddits: Vec::new(),
        pages: None,
        loop_secs: None,
        budget: None,
        refresh: false,
        no_refresh: false,
        backfill: None,
        days: None,
        max_requests: None,
    };
    assert_eq!(cached(Commands::Sync(sync)), Some(false));
    assert_eq!(cached(Commands::Saved), Some(false));
}
