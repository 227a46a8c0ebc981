use reddit_cli::config::{
    config_candidates, read_cookie_file, Config, Directory, Paths,
};

fn config(cookie: Option<&str>, pages: Option<u32>) -> Config {
    Config { cookie: cookie.map(|c| c.to_owned()), page_cap: pages, ..Config::default() }
}

#[test]
fn files_stand_in_their_directories() {
    let paths = Paths::resolve();
    assert_eq!(paths.config_file.directory, Directory::Config);
    assert_eq!(paths.config_file.names, vec!["config.toml".to_owned()]);
    assert_eq!(paths.db_file.directory, Directory::Data);
    assert_eq!(paths.db_file.names, vec!["rdt.db".to_owned()]);
    assert_eq!(paths.last_file.directory, Directory::Cache);
    assert_eq!(paths.last_file.names, vec!["last.json".to_owned()]);
    assert!(paths.data_dir.names.is_empty());
    assert!(paths.cache_dir.names.is_empty());
}

#[test]
fn older_installations_are_found_in_the_home_directory() {
    let paths = Paths::resolve();
    assert_eq!(config_candidates(&paths, false).len(), 1);
    let both = config_candidates(&paths, true);
    assert_eq!(both.len(), 2);
    assert_eq!(both[1].directory, Directory::Home);
    assert_eq!(both[1].names.join("/"), "Library/Application Support/rdt/config.toml");
}

#[test]
fn the_first_file_decides() {
    let files = vec![config(None, Some(2)), config(Some("second"), Some(9))];
    let loaded = Config::load(files, None);
    assert_eq!(loaded.page_cap, Some(2));
    assert_eq!(loaded.cookie.as_deref(), Some("second"));
    assert_eq!(loaded.sync_budget, None);
}

#[test]
fn the_environment_overrides_the_cookie() {
    let files = || vec![config(Some("file"), None)];
    assert_eq!(Config::load(files(), Some("env".to_owned())).cookie.as_deref(), Some("env"));
    assert_eq!(Config::load(files(), Some("  ".to_owned())).cookie.as_deref(), Some("file"));
    assert_eq!(Config::load(Vec::new(), None).cookie, None);
}

#[test]
fn the_cookie_file_is_read_where_no_cookie_is_set() {
    let mut loaded = Config::load(Vec::new(), None);
    loaded.cookie_file = Some("cookies.txt".to_owned());
    assert_eq!(loaded.cookie_source(), Some("cookies.txt"));
    let raw = "# comment\n\n.reddit.com\tTRUE\t/\tTRUE\t0\treddit_session\tsecret\n";
    loaded.use_cookie_file(Some(raw));
    assert_eq!(loaded.cookie.as_deref(), Some("secret"));
    assert_eq!(loaded.cookie_source(), None);
    loaded.use_cookie_file(None);
    assert_eq!(loaded.cookie.as_deref(), Some("secret"));
}

#[test]
fn cookie_files_hold_tab_separated_fields() {
    assert_eq!(read_cookie_file("a\tb\tc\td\te\treddit_session\tv\r\n").as_deref(), Some("v"));
    assert_eq!(read_cookie_file("a\tb\tc\td\te\tother\tv"), None);
    assert_eq!(read_cookie_file("a\tb\tc\td\te\treddit_session"), None);
    assert_eq!(read_cookie_file("#a\tb\tc\td\te\treddit_session\tv"), None);
    assert_eq!(read_cookie_file(""), None);
    let two = "a\tb\tc\td\te\treddit_session\tone\na\tb\tc\td\te\treddit_session\ttwo";
    assert_eq!(read_cookie_file(two).as_deref(), Some("one"));
}

#[test]
fn only_the_cookie_is_forgotten() {
    let raw = "cookie = \"secret\"\ncookie_file = \"f\"\npage_cap = 3\nsync_refresh = true\n";
    let cleared = Config::clear_cookie(raw).unwrap();
    assert_eq!(cleared, "page_cap = 3\nsync_refresh = true\n");
    assert_eq!(Config::clear_cookie(&cleared).unwrap(), cleared);
    for broken in ["= broken", "cookie = \"a\"\ncookie = \"b\"\n", "[table"] {
        let words = toml::from_str::<toml::Table>(broken).unwrap_err().to_string();
        assert_eq!(Config::clear_cookie(broken).unwrap_err().message(), words);
        assert!(!words.is_empty());
    }
}
