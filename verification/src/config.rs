//! Settings: where they are kept, how they are combined, and the session
//! cookie.
use vstd::prelude::*;

use crate::error;
use crate::error::{ErrorModel, RdtError};
use crate::model;
use crate::text;

verus! {

// ---------------------------------------------------------------------------
// Files
// ---------------------------------------------------------------------------

/// A directory that the operating system assigns to the program or its user.
#[derive(Debug, Clone, Copy, PartialEq, Eq, Structural)]
pub enum Directory {
    Config,
    Data,
    Cache,
    Home,
}

/// A file or directory, by the names that lead to it from a directory.
#[derive(Debug)]
pub struct Location {
    pub directory: Directory,
    pub names: Vec<String>,
}

/// What a [`Location`] holds.
pub struct LocationModel {
    pub directory: Directory,
    pub names: Seq<Seq<char>>,
}

impl View for Location {
    type V = LocationModel;

    open spec fn view(&self) -> LocationModel {
        LocationModel { directory: self.directory, names: text::texts(self.names@) }
    }
}

impl Clone for Location {
    fn clone(&self) -> (r: Self)
        ensures
            r@ == self@,
    {
        let names = model::copy_texts(&self.names, 0);
        assert(text::texts(names@) =~= text::texts(self.names@));
        Location { directory: self.directory, names }
    }
}

impl Location {
    /// A directory itself.
    pub fn of(directory: Directory) -> (r: Location)
        ensures
            r@ == (LocationModel { directory, names: Seq::empty() }),
    {
        let r = Location { directory, names: Vec::new() };
        assert(r@.names =~= Seq::empty());
        r
    }

    /// What stands under a name in a location.
    pub fn join(self, name: &str) -> (r: Location)
        ensures
            r@ == (LocationModel {
                directory: self@.directory,
                names: self@.names.push(name@),
            }),
    {
        let ghost had = self@.names;
        let Location { directory, names } = self;
        let mut names = names;
        names.push(name.to_owned());
        let r = Location { directory, names };
        assert(r@.names =~= had.push(name@));
        r
    }
}

/// The files and directories of the program.
#[derive(Debug)]
pub struct Paths {
    pub config_file: Location,
    pub data_dir: Location,
    pub cache_dir: Location,
    pub db_file: Location,
    pub last_file: Location,
}

impl Paths {
    /// The settings, the database and the last results, each in the directory
    /// of its purpose.
    pub fn resolve() -> (r: Paths)
        ensures
            r.config_file@ == (LocationModel {
                directory: Directory::Config,
                names: seq!["config.toml"@],
            }),
            r.data_dir@ == (LocationModel { directory: Directory::Data, names: Seq::empty() }),
            r.cache_dir@ == (LocationModel { directory: Directory::Cache, names: Seq::empty() }),
            r.db_file@ == (LocationModel {
                directory: Directory::Data,
                names: seq!["rdt.db"@],
            }),
            r.last_file@ == (LocationModel {
                directory: Directory::Cache,
                names: seq!["last.json"@],
            }),
    {
        let r = Paths {
            config_file: Location::of(Directory::Config).join("config.toml"),
            data_dir: Location::of(Directory::Data),
            cache_dir: Location::of(Directory::Cache),
            db_file: Location::of(Directory::Data).join("rdt.db"),
            last_file: Location::of(Directory::Cache).join("last.json"),
        };
        proof {
            assert(r.config_file@.names =~= seq!["config.toml"@]);
            assert(r.db_file@.names =~= seq!["rdt.db"@]);
            assert(r.last_file@.names =~= seq!["last.json"@]);
        }
        r
    }
}

/// Where settings may stand, the most important first: in the file of the
/// program and, where there is a home directory, in the file of older
/// installations.
pub fn config_candidates(paths: &Paths, has_home: bool) -> (r: Vec<Location>)
    ensures
        r@.len() == (if has_home {
            2int
        } else {
            1
        }),
        r@[0]@ == paths.config_file@,
        has_home ==> r@[1]@ == (LocationModel {
            directory: Directory::Home,
            names: seq!["Library"@, "Application Support"@, "rdt"@, "config.toml"@],
        }),
{
    let mut out: Vec<Location> = Vec::new();
    out.push(paths.config_file.clone());
    if has_home {
        let older = Location::of(Directory::Home).join("Library").join("Application Support").join(
            "rdt",
        ).join("config.toml");
        assert(older@.names =~= seq![
            "Library"@,
            "Application Support"@,
            "rdt"@,
            "config.toml"@,
        ]);
        out.push(older);
    }
    out
}

// ---------------------------------------------------------------------------
// Settings
// ---------------------------------------------------------------------------

/// The settings. Each may be absent.
#[derive(Debug)]
pub struct Config {
    pub cookie: Option<String>,
    pub cookie_file: Option<String>,
    pub request_delay_ms: Option<u64>,
    pub cache_ttl_secs: Option<u64>,
    pub page_cap: Option<u32>,
    pub sync_budget: Option<u32>,
    pub sync_refresh: Option<bool>,
}

/// What a [`Config`] holds.
pub struct ConfigModel {
    pub cookie: Option<Seq<char>>,
    pub cookie_file: Option<Seq<char>>,
    pub request_delay_ms: Option<u64>,
    pub cache_ttl_secs: Option<u64>,
    pub page_cap: Option<u32>,
    pub sync_budget: Option<u32>,
    pub sync_refresh: Option<bool>,
}

impl View for Config {
    type V = ConfigModel;

    open spec fn view(&self) -> ConfigModel {
        ConfigModel {
            cookie: text::opt(self.cookie),
            cookie_file: text::opt(self.cookie_file),
            request_delay_ms: self.request_delay_ms,
            cache_ttl_secs: self.cache_ttl_secs,
            page_cap: self.page_cap,
            sync_budget: self.sync_budget,
            sync_refresh: self.sync_refresh,
        }
    }
}

/// The first of two values that is there.
pub open spec fn either<T>(a: Option<T>, b: Option<T>) -> Option<T> {
    if a is Some {
        a
    } else {
        b
    }
}

/// The first value that is there.
pub open spec fn first_set<T>(values: Seq<Option<T>>) -> Option<T>
    decreases values.len(),
{
    if values.len() == 0 {
        None
    } else {
        either(first_set(values.drop_last()), values.last())
    }
}

impl ConfigModel {
    /// No setting at all.
    pub open spec fn none() -> ConfigModel {
        ConfigModel {
            cookie: None,
            cookie_file: None,
            request_delay_ms: None,
            cache_ttl_secs: None,
            page_cap: None,
            sync_budget: None,
            sync_refresh: None,
        }
    }

    /// The settings, and those of `other` where one is absent.
    pub open spec fn or(self, other: ConfigModel) -> ConfigModel {
        ConfigModel {
            cookie: either(self.cookie, other.cookie),
            cookie_file: either(self.cookie_file, other.cookie_file),
            request_delay_ms: either(self.request_delay_ms, other.request_delay_ms),
            cache_ttl_secs: either(self.cache_ttl_secs, other.cache_ttl_secs),
            page_cap: either(self.page_cap, other.page_cap),
            sync_budget: either(self.sync_budget, other.sync_budget),
            sync_refresh: either(self.sync_refresh, other.sync_refresh),
        }
    }
}

/// What a sequence of settings holds.
pub open spec fn configs_model(configs: Seq<Config>) -> Seq<ConfigModel> {
    Seq::new(configs.len(), |i: int| configs[i]@)
}

/// The settings of several files, the most important first.
pub open spec fn merged(configs: Seq<ConfigModel>) -> ConfigModel
    decreases configs.len(),
{
    if configs.len() == 0 {
        ConfigModel::none()
    } else {
        merged(configs.drop_last()).or(configs.last())
    }
}

/// The settings with a cookie from the environment, which counts unless it is
/// blank.
pub open spec fn with_environment(
    config: ConfigModel,
    cookie: Option<Seq<char>>,
) -> ConfigModel {
    match cookie {
        Some(value) => if text::trim(value).len() > 0 {
            ConfigModel { cookie: Some(value), ..config }
        } else {
            config
        },
        None => config,
    }
}

impl Default for Config {
    fn default() -> (r: Self)
        ensures
            r@ == ConfigModel::none(),
    {
        Config {
            cookie: None,
            cookie_file: None,
            request_delay_ms: None,
            cache_ttl_secs: None,
            page_cap: None,
            sync_budget: None,
            sync_refresh: None,
        }
    }
}

impl ConfigModel {
    /// The cookie file to read.
    pub open spec fn cookie_source(self) -> Option<Seq<char>> {
        if self.cookie is None {
            self.cookie_file
        } else {
            None
        }
    }

    /// The settings with the cookie of a cookie file, given its text.
    pub open spec fn with_cookie_file(self, raw: Option<Seq<char>>) -> ConfigModel {
        if self.cookie is Some {
            self
        } else {
            ConfigModel {
                cookie: match raw {
                    Some(file) => cookie_in(file),
                    None => None,
                },
                ..self
            }
        }
    }
}

/// A cookie that is set counts before a cookie file, which is then not read. The
/// file gives nothing but the cookie.
pub proof fn law_a_set_cookie_comes_before_a_file(config: ConfigModel, raw: Option<Seq<char>>)
    ensures
        config.cookie is Some ==> config.cookie_source() is None && config.with_cookie_file(raw)
            == config,
        config.cookie is None ==> config.cookie_source() == config.cookie_file,
        config.cookie is None ==> (raw matches Some(file) ==> config.with_cookie_file(raw).cookie
            == cookie_in(file)),
        raw is None ==> config.with_cookie_file(raw) == config,
        config.with_cookie_file(raw).cookie_file == config.cookie_file,
        config.with_cookie_file(raw).request_delay_ms == config.request_delay_ms,
        config.with_cookie_file(raw).cache_ttl_secs == config.cache_ttl_secs,
        config.with_cookie_file(raw).page_cap == config.page_cap,
        config.with_cookie_file(raw).sync_budget == config.sync_budget,
        config.with_cookie_file(raw).sync_refresh == config.sync_refresh,
{
}

impl Config {
    /// Combines the settings of the files that exist, the most important
    /// first, with a cookie from the environment.
    pub fn load(candidates: Vec<Config>, env_cookie: Option<String>) -> (r: Config)
        ensures
            r@ == with_environment(merged(configs_model(candidates@)), text::opt(env_cookie)),
    {
        let ghost all = configs_model(candidates@);
        let mut config = Config::default();
        assert(all.take(0) =~= Seq::empty());
        for candidate in it: candidates
            invariant
                it.seq() == candidates@,
                all == configs_model(candidates@),
                config@ == merged(all.take(it.index())),
        {
            proof {
                let t = all.take(it.index() + 1);
                assert(t.drop_last() =~= all.take(it.index()));
                assert(t.last() == candidate@);
            }
            config.merge_missing(candidate);
        }
        assert(all.take(all.len() as int) =~= all);
        match env_cookie {
            Some(cookie) => {
                let chars = text::chars_of(cookie.as_str());
                if text::trimmed(&chars).len() > 0 {
                    config.cookie = Some(cookie);
                }
            },
            None => {},
        }
        config
    }

    /// The cookie file to read: the one that is set, where no cookie is.
    pub fn cookie_source(&self) -> (r: Option<&str>)
        ensures
            text::opt_str(r) == (if self@.cookie is None {
                self@.cookie_file
            } else {
                None
            }),
            text::opt_str(r) == self@.cookie_source(),
    {
        if self.cookie.is_some() {
            return None;
        }
        match &self.cookie_file {
            Some(path) => Some(path.as_str()),
            None => None,
        }
    }

    /// Takes the cookie out of a cookie file, given its text if it could be
    /// read. A cookie that is set stays.
    pub fn use_cookie_file(&mut self, raw: Option<&str>)
        ensures
            final(self)@ == (ConfigModel {
                cookie: if old(self)@.cookie is Some {
                    old(self)@.cookie
                } else {
                    match raw {
                        Some(file) => cookie_in(file@),
                        None => None,
                    }
                },
                ..old(self)@
            }),
            final(self)@ == old(self)@.with_cookie_file(text::opt_str(raw)),
    {
        if self.cookie.is_none() {
            match raw {
                Some(file) => {
                    self.cookie = read_cookie_file(file);
                },
                None => {},
            }
        }
    }

    /// Takes over the settings of `other` where one is absent.
    pub fn merge_missing(&mut self, other: Config)
        ensures
            final(self)@ == old(self)@.or(other@),
    {
        let Config {
            cookie,
            cookie_file,
            request_delay_ms,
            cache_ttl_secs,
            page_cap,
            sync_budget,
            sync_refresh,
        } = other;
        if self.cookie.is_none() {
            self.cookie = cookie;
        }
        if self.cookie_file.is_none() {
            self.cookie_file = cookie_file;
        }
        if self.request_delay_ms.is_none() {
            self.request_delay_ms = request_delay_ms;
        }
        if self.cache_ttl_secs.is_none() {
            self.cache_ttl_secs = cache_ttl_secs;
        }
        if self.page_cap.is_none() {
            self.page_cap = page_cap;
        }
        if self.sync_budget.is_none() {
            self.sync_budget = sync_budget;
        }
        if self.sync_refresh.is_none() {
            self.sync_refresh = sync_refresh;
        }
    }
}

/// Of each setting, the first file that has it decides.
pub proof fn law_first_file_decides(configs: Seq<ConfigModel>)
    ensures
        merged(configs).cookie == first_set(configs.map_values(|c: ConfigModel| c.cookie)),
        merged(configs).cookie_file == first_set(
            configs.map_values(|c: ConfigModel| c.cookie_file),
        ),
        merged(configs).request_delay_ms == first_set(
            configs.map_values(|c: ConfigModel| c.request_delay_ms),
        ),
        merged(configs).cache_ttl_secs == first_set(
            configs.map_values(|c: ConfigModel| c.cache_ttl_secs),
        ),
        merged(configs).page_cap == first_set(configs.map_values(|c: ConfigModel| c.page_cap)),
        merged(configs).sync_budget == first_set(
            configs.map_values(|c: ConfigModel| c.sync_budget),
        ),
        merged(configs).sync_refresh == first_set(
            configs.map_values(|c: ConfigModel| c.sync_refresh),
        ),
    decreases configs.len(),
{
    if configs.len() > 0 {
        let front = configs.drop_last();
        law_first_file_decides(front);
        assert(configs.map_values(|c: ConfigModel| c.cookie).drop_last() =~= front.map_values(
            |c: ConfigModel| c.cookie,
        ));
        assert(configs.map_values(|c: ConfigModel| c.cookie_file).drop_last()
            =~= front.map_values(|c: ConfigModel| c.cookie_file));
        assert(configs.map_values(|c: ConfigModel| c.request_delay_ms).drop_last()
            =~= front.map_values(|c: ConfigModel| c.request_delay_ms));
        assert(configs.map_values(|c: ConfigModel| c.cache_ttl_secs).drop_last()
            =~= front.map_values(|c: ConfigModel| c.cache_ttl_secs));
        assert(configs.map_values(|c: ConfigModel| c.page_cap).drop_last() =~= front.map_values(
            |c: ConfigModel| c.page_cap,
        ));
        assert(configs.map_values(|c: ConfigModel| c.sync_budget).drop_last()
            =~= front.map_values(|c: ConfigModel| c.sync_budget));
        assert(configs.map_values(|c: ConfigModel| c.sync_refresh).drop_last()
            =~= front.map_values(|c: ConfigModel| c.sync_refresh));
    }
}

// ---------------------------------------------------------------------------
// Cookie files
// ---------------------------------------------------------------------------

/// The session cookie that a line of a cookie file holds. The fields are
/// separated by tabs; the sixth is the name and the seventh the value.
pub open spec fn cookie_on(line: Seq<char>) -> Option<Seq<char>> {
    let t = text::trim(line);
    let fields = text::split(t, '\t');
    if t.len() == 0 || t[0] == '#' {
        None
    } else if fields.len() >= 7 && fields[5] == "reddit_session"@ {
        Some(fields[6])
    } else {
        None
    }
}

/// The session cookie on the first line that holds one.
pub open spec fn first_cookie(lines: Seq<Seq<char>>) -> Option<Seq<char>>
    decreases lines.len(),
{
    if lines.len() == 0 {
        None
    } else if cookie_on(lines[0]) is Some {
        cookie_on(lines[0])
    } else {
        first_cookie(lines.skip(1))
    }
}

/// The session cookie that a cookie file holds.
pub open spec fn cookie_in(raw: Seq<char>) -> Option<Seq<char>> {
    first_cookie(text::split(raw, '\n'))
}

fn read_cookie_line(line: &str) -> (r: Option<String>)
    ensures
        text::opt(r) == cookie_on(line@),
{
    let chars = text::chars_of(line);
    let t = text::trimmed(&chars);
    if t.len() == 0 || t[0] == '#' {
        return None;
    }
    let fields = text::split_at_char(t, '\t');
    assert(fields@.len() == text::split(t@, '\t').len());
    if fields.len() >= 7 && text::same_text(fields[5].as_str(), "reddit_session") {
        Some(fields[6].clone())
    } else {
        None
    }
}

/// Finds the session cookie in the text of a cookie file.
pub fn read_cookie_file(raw: &str) -> (r: Option<String>)
    ensures
        text::opt(r) == cookie_in(raw@),
{
    let lines = text::split_at_char(&text::chars_of(raw), '\n');
    let ghost all = text::texts(lines@);
    let mut i: usize = 0;
    assert(all.skip(0) =~= all);
    while i < lines.len()
        invariant
            i <= lines@.len(),
            all == text::texts(lines@),
            all == text::split(raw@, '\n'),
            first_cookie(all) == first_cookie(all.skip(i as int)),
        decreases lines@.len() - i,
    {
        assert(all.skip(i as int)[0] == lines@[i as int]@);
        assert(all.skip(i as int).skip(1) =~= all.skip(i + 1));
        let found = read_cookie_line(lines[i].as_str());
        if found.is_some() {
            return found;
        }
        i = i + 1;
    }
    None
}

// ---------------------------------------------------------------------------
// Forgetting the cookie
// ---------------------------------------------------------------------------

/// A table of the `toml` crate.
#[verifier::external_type_specification]
#[verifier::external_body]
#[verifier::reject_recursive_types(K)]
#[verifier::reject_recursive_types(V)]
pub struct ExTable<K, V>(toml::map::Map<K, V>);

/// A value of the `toml` crate.
#[verifier::external_type_specification]
#[verifier::external_body]
pub struct ExTomlValue(toml::Value);

/// The entries of a table of the `toml` crate.
pub uninterp spec fn table_entries(table: toml::map::Map<String, toml::Value>) -> Map<
    Seq<char>,
    toml::Value,
>;

/// The entries of the table that a text denotes to `toml`, or the words in
/// which it is refused.
pub uninterp spec fn read_entries(raw: Seq<char>) -> Result<
    Map<Seq<char>, toml::Value>,
    Seq<char>,
>;

/// The text in which `toml` writes a table with these entries, or the words in
/// which it refuses to.
pub uninterp spec fn written_entries(entries: Map<Seq<char>, toml::Value>) -> Result<
    Seq<char>,
    Seq<char>,
>;

/// Calls `toml::from_str` and writes its error with `to_string`. A text denotes
/// the same table each time, or is refused in the same words.
#[verifier::external_body]
fn read_table(raw: &str) -> (r: Result<toml::map::Map<String, toml::Value>, String>)
    ensures
        match r {
            Ok(table) => read_entries(raw@) == Ok::<_, Seq<char>>(table_entries(table)),
            Err(words) => read_entries(raw@) == Err::<Map<Seq<char>, toml::Value>, _>(words@),
        },
{
    toml::from_str(raw).map_err(|e: toml::de::Error| e.to_string())
}

/// Calls `toml::map::Map::remove`. The entry under the key is gone; the others
/// stay.
#[verifier::external_body]
fn remove_entry(table: &mut toml::map::Map<String, toml::Value>, key: &str)
    ensures
        table_entries(*final(table)) == table_entries(*old(table)).remove(key@),
{
    let _ = table.remove(key);
}

/// Calls `toml::to_string_pretty` and writes its error with `to_string`. The
/// text, or the words of the error, depend on the entries alone.
#[verifier::external_body]
fn write_table(table: &toml::map::Map<String, toml::Value>) -> (r: Result<String, String>)
    ensures
        match r {
            Ok(raw) => written_entries(table_entries(*table)) == Ok::<_, Seq<char>>(raw@),
            Err(words) => written_entries(table_entries(*table)) == Err::<Seq<char>, _>(words@),
        },
{
    toml::to_string_pretty(table).map_err(|e| e.to_string())
}

/// The entries of a settings file without those that lead to a cookie.
pub open spec fn without_cookie(entries: Map<Seq<char>, toml::Value>) -> Map<
    Seq<char>,
    toml::Value,
> {
    entries.remove("cookie"@).remove("cookie_file"@)
}

/// Removes the entries that lead to a cookie.
pub fn forget_cookie(table: &mut toml::map::Map<String, toml::Value>)
    ensures
        table_entries(*final(table)) == without_cookie(table_entries(*old(table))),
{
    remove_entry(table, "cookie");
    remove_entry(table, "cookie_file");
}

/// The text of a settings file without its cookie, given the entries of the
/// file. What `toml` refuses is refused in its words.
pub open spec fn cleared(
    entries: Result<Map<Seq<char>, toml::Value>, Seq<char>>,
) -> Result<Seq<char>, ErrorModel> {
    match entries {
        Ok(found) => match written_entries(without_cookie(found)) {
            Ok(out) => Ok(out),
            Err(words) => Err(ErrorModel::Message(words)),
        },
        Err(words) => Err(ErrorModel::Message(words)),
    }
}

impl Config {
    /// The text of a settings file without its cookie.
    pub fn clear_cookie(raw: &str) -> (r: Result<String, RdtError>)
        ensures
            error::outcome(r) == cleared(read_entries(raw@)),
    {
        match read_table(raw) {
            Ok(table) => {
                let mut table = table;
                forget_cookie(&mut table);
                match write_table(&table) {
                    Ok(out) => Ok(out),
                    Err(words) => Err(RdtError::Message(words)),
                }
            },
            Err(words) => Err(RdtError::Message(words)),
        }
    }
}

/// Forgetting the cookie leaves no entry that leads to one, and keeps every
/// other entry.
pub proof fn law_only_the_cookie_is_forgotten(
    entries: Map<Seq<char>, toml::Value>,
    key: Seq<char>,
)
    ensures
        !without_cookie(entries).contains_key("cookie"@),
        !without_cookie(entries).contains_key("cookie_file"@),
        key != "cookie"@ && key != "cookie_file"@ ==> {
            &&& without_cookie(entries).contains_key(key) == entries.contains_key(key)
            &&& entries.contains_key(key) ==> without_cookie(entries)[key] == entries[key]
        },
{
}

/// Of some values the first that is there counts, and none where none is there.
pub proof fn law_the_first_value_counts<T>(values: Seq<Option<T>>, i: int)
    ensures
        0 <= i < values.len() && values[i] is Some && (forall|j: int|
            0 <= j < i ==> #[trigger] values[j] is None) ==> first_set(values) == values[i],
        (forall|j: int| 0 <= j < values.len() ==> #[trigger] values[j] is None) ==> first_set(
            values,
        ) is None,
    decreases values.len(),
{
    if values.len() > 0 {
        let front = values.drop_last();
        law_the_first_value_counts(front, i);
        assert forall|j: int| 0 <= j < front.len() implies front[j] == #[trigger] values[j] by {}
        if 0 <= i < values.len() && values[i] is Some && (forall|j: int|
            0 <= j < i ==> #[trigger] values[j] is None) {
            if i < front.len() {
                assert forall|j: int| 0 <= j < i implies #[trigger] front[j] is None by {
                    assert(values[j] is None);
                }
                assert(front[i] == values[i]);
            } else {
                assert forall|j: int| 0 <= j < front.len() implies #[trigger] front[j] is None by {
                    assert(values[j] is None);
                }
            }
        }
        if forall|j: int| 0 <= j < values.len() ==> #[trigger] values[j] is None {
            assert forall|j: int| 0 <= j < front.len() implies #[trigger] front[j] is None by {
                assert(values[j] is None);
            }
        }
    }
}

/// A cookie in the environment counts before any configured one, unless it is
/// blank. No other setting comes from the environment.
pub proof fn law_the_environment_counts_unless_blank(
    config: ConfigModel,
    cookie: Option<Seq<char>>,
)
    ensures
        cookie is None ==> with_environment(config, cookie) == config,
        cookie matches Some(value) ==> text::blank(value) ==> with_environment(config, cookie)
            == config,
        cookie matches Some(value) ==> !text::blank(value) ==> with_environment(
            config,
            cookie,
        ).cookie == cookie,
        with_environment(config, cookie).cookie_file == config.cookie_file,
        with_environment(config, cookie).request_delay_ms == config.request_delay_ms,
        with_environment(config, cookie).cache_ttl_secs == config.cache_ttl_secs,
        with_environment(config, cookie).page_cap == config.page_cap,
        with_environment(config, cookie).sync_budget == config.sync_budget,
        with_environment(config, cookie).sync_refresh == config.sync_refresh,
{
    if let Some(value) = cookie {
        text::law_trimming_takes_only_white_space(value);
        let (a, b) = choose|a: int, b: int| #![trigger value.subrange(a, b)]
            {
                &&& 0 <= a <= b <= value.len()
                &&& text::trim(value) == value.subrange(a, b)
                &&& text::blank(value.take(a))
                &&& text::blank(value.skip(b))
            };
        if text::blank(value) {
            if a < b {
                assert(value.subrange(a, b)[0] == value[a]);
            }
        } else if a == b {
            assert forall|i: int| 0 <= i < value.len() implies text::white_space(
                #[trigger] value[i],
            ) by {
                if i < a {
                    assert(value.take(a)[i] == value[i]);
                } else {
                    assert(value.skip(b)[i - b] == value[i]);
                }
            }
        }
    }
}

/// The seventh of the fields of a line, which tabs part, is the session cookie
/// where the sixth names it. A line that is a comment holds none.
pub proof fn law_lines_hold_the_session(fields: Seq<Seq<char>>)
    requires
        fields.len() >= 7,
        forall|i: int| 0 <= i < fields.len() ==> text::free_of(#[trigger] fields[i], '\t'),
        text::trim(text::join(fields, seq!['\t'])) == text::join(fields, seq!['\t']),
    ensures
        ({
            let line = text::join(fields, seq!['\t']);
            &&& line.len() > 0 && line[0] != '#' && fields[5] == "reddit_session"@ ==> cookie_on(
                line,
            ) == Some(fields[6])
            &&& line.len() == 0 || line[0] == '#' || fields[5] != "reddit_session"@ ==> cookie_on(
                line,
            ) is None
        }),
{
    text::law_split_undoes_join(fields, '\t');
}

/// A cookie file gives the session cookie of the first line that holds one.
pub proof fn law_the_first_session_counts(lines: Seq<Seq<char>>, i: int)
    requires
        lines.len() > 0,
        forall|j: int| 0 <= j < lines.len() ==> text::free_of(#[trigger] lines[j], '\n'),
    ensures
        0 <= i < lines.len() && cookie_on(lines[i]) is Some && (forall|j: int|
            0 <= j < i ==> cookie_on(#[trigger] lines[j]) is None) ==> cookie_in(
            text::join(lines, seq!['\n']),
        ) == cookie_on(lines[i]),
        (forall|j: int| 0 <= j < lines.len() ==> cookie_on(#[trigger] lines[j]) is None)
            ==> cookie_in(text::join(lines, seq!['\n'])) is None,
{
    text::law_split_undoes_join(lines, '\n');
    if 0 <= i < lines.len() && cookie_on(lines[i]) is Some && (forall|j: int|
        0 <= j < i ==> cookie_on(#[trigger] lines[j]) is None) {
        lemma_first_cookie(lines, i);
    }
    if forall|j: int| 0 <= j < lines.len() ==> cookie_on(#[trigger] lines[j]) is None {
        lemma_no_cookie(lines);
    }
}

proof fn lemma_first_cookie(lines: Seq<Seq<char>>, i: int)
    requires
        0 <= i < lines.len(),
        cookie_on(lines[i]) is Some,
        forall|j: int| 0 <= j < i ==> cookie_on(#[trigger] lines[j]) is None,
    ensures
        first_cookie(lines) == cookie_on(lines[i]),
    decreases lines.len(),
{
    if i > 0 {
        let rest = lines.skip(1);
        assert(cookie_on(lines[0]) is None);
        assert forall|j: int| 0 <= j < i - 1 implies cookie_on(#[trigger] rest[j]) is None by {
            assert(rest[j] == lines[j + 1]);
        }
        lemma_first_cookie(rest, i - 1);
    }
}

proof fn lemma_no_cookie(lines: Seq<Seq<char>>)
    requires
        forall|j: int| 0 <= j < lines.len() ==> cookie_on(#[trigger] lines[j]) is None,
    ensures
        first_cookie(lines) is None,
    decreases lines.len(),
{
    if lines.len() > 0 {
        let rest = lines.skip(1);
        assert forall|j: int| 0 <= j < rest.len() implies cookie_on(#[trigger] rest[j]) is None by {
            assert(rest[j] == lines[j + 1]);
        }
        lemma_no_cookie(rest);
    }
}

/// What is written of a settings file without its cookie is a table that has no
/// entry that leads to a cookie and every other entry of the file. What cannot be
/// read is refused in the words of the refusal.
pub proof fn law_cleared_files_keep_the_rest(
    found: Map<Seq<char>, toml::Value>,
    kept: Map<Seq<char>, toml::Value>,
    words: Seq<char>,
)
    requires
        forall|key: Seq<char>| #[trigger]
            kept.contains_key(key) <==> found.contains_key(key) && key != "cookie"@ && key
                != "cookie_file"@,
        forall|key: Seq<char>| #[trigger]
            kept.contains_key(key) ==> kept[key] == found[key],
    ensures
        cleared(Ok(found)) == match written_entries(kept) {
            Ok(out) => Ok::<Seq<char>, ErrorModel>(out),
            Err(refusal) => Err(ErrorModel::Message(refusal)),
        },
        cleared(Err(words)) == Err::<Seq<char>, ErrorModel>(ErrorModel::Message(words)),
{
    assert(without_cookie(found) =~= kept);
}

} // verus!
