use reddit_cli::cache::{cache_file, fingerprint_of, is_kept, KeptAnswer};
use reddit_cli::cli::{Cli, Commands};
use reddit_cli::config::{Config, Directory};
use reddit_cli::error::RdtError;
use reddit_cli::transport::RedditClient;

fn client(cookie: Option<&str>, ttl: Option<u64>, fresh: bool, anon: bool) -> RedditClient {
    let config = Config {
        cookie: cookie.map(str::to_owned),
        cookie_file: None,
        request_delay_ms: None,
        cache_ttl_secs: ttl,
        page_cap: None,
        sync_budget: None,
        sync_refresh: None,
    };
    let cli = Cli {
        json: false,
        fresh,
        anon,
        rss: false,
        no_color: false,
        command: Commands::Saved,
    };
    RedditClient::new(&config, &cli)
}

fn kept(stored_utc: u64) -> Option<KeptAnswer> {
    Some(KeptAnswer { body: "kept".to_owned(), stored_utc })
}

#[test]
fn fingerprints_are_sha256_in_hexadecimal() {
    assert_eq!(
        fingerprint_of("abc"),
        "ba7816bf8f01cfea414140de5dae2223b00361a396177a9cb410ff61f20015ad"
    );
    assert_eq!(
        fingerprint_of(""),
        "e3b0c44298fc1c149afbf4c8996fb92427ae41e4649b934ca495991b7852b855"
    );
}

#[test]
fn names_tell_forms_readers_and_urls_apart() {
    let url = "https://www.reddit.com/r/rust/new.json?raw_json=1";
    let anonymous = client(None, None, false, false);
    let alice = client(Some("alice"), None, false, false);
    let bob = client(Some("bob"), None, false, false);
    let hidden = client(Some("alice"), None, false, true);

    let name = anonymous.cache_name(false, url);
    assert_eq!(name, fingerprint_of(&format!("json\nanonymous\n{url}")));
    assert_eq!(
        alice.cache_name(false, url),
        fingerprint_of(&format!(
            "json\ncookie:{}\n{url}",
            fingerprint_of("reddit_session=alice")
        ))
    );
    assert_ne!(alice.cache_name(false, url), name);
    assert_ne!(alice.cache_name(false, url), bob.cache_name(false, url));
    assert_ne!(anonymous.cache_name(true, url), name);
    assert_ne!(anonymous.cache_name(false, "https://www.reddit.com/"), name);

    // Feeds and anonymous requests are asked for without the cookie.
    assert_eq!(hidden.cache_name(false, url), name);
    assert_eq!(alice.cache_name(true, url), anonymous.cache_name(true, url));
}

#[test]
fn names_show_neither_url_nor_cookie() {
    let name = client(Some("secret"), None, false, false)
        .cache_name(false, "https://www.reddit.com/r/rust/new.json");
    assert_eq!(name.len(), 64);
    assert!(name.chars().all(|c| c.is_ascii_digit() || ('a'..='f').contains(&c)));
}

#[test]
fn answers_are_kept_in_the_cache_directory() {
    let file = cache_file("abc");
    assert_eq!(file.directory, Directory::Cache);
    assert_eq!(file.names, vec!["http".to_owned(), "abc".to_owned()]);
}

#[test]
fn kept_answers_are_used_for_five_minutes() {
    let client = client(None, None, false, false);
    assert_eq!(client.recall(true, 1_000, kept(1_000)), Some("kept".to_owned()));
    assert_eq!(client.recall(true, 1_299, kept(1_000)), Some("kept".to_owned()));
    assert_eq!(client.recall(true, 1_300, kept(1_000)), None);
    assert_eq!(client.recall(true, 1_000, None), None);
    assert_eq!(client.recall(true, 999, kept(1_000)), None);
}

#[test]
fn settings_change_how_long_answers_are_used() {
    let short = client(None, Some(10), false, false);
    assert_eq!(short.recall(true, 109, kept(100)), Some("kept".to_owned()));
    assert_eq!(short.recall(true, 110, kept(100)), None);
    let never = client(None, Some(0), false, false);
    assert_eq!(never.recall(true, 100, kept(100)), None);
}

#[test]
fn fresh_and_bypassing_requests_are_made() {
    let fresh = client(None, None, true, false);
    assert_eq!(fresh.recall(true, 100, kept(100)), None);
    let client = client(None, None, false, false);
    assert_eq!(client.recall(false, 100, kept(100)), None);
}

#[test]
fn only_answers_are_kept() {
    assert!(is_kept(true, &Ok("body".to_owned())));
    assert!(!is_kept(false, &Ok("body".to_owned())));
    assert!(!is_kept(true, &Err(RdtError::EdgeBlocked)));
}
