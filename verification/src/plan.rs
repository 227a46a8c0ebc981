//! What each command does.
use vstd::prelude::*;

use crate::address;
use crate::backfill;
use crate::cli;
use crate::cli::{AuthCommand, Cli, Commands, DbCommand, ThreadCommand, WatchCommand};
use crate::error;
use crate::error::{ErrorModel, RdtError};
use crate::listing;
use crate::listing::{FetchModel, ListingFetch};
use crate::model;
use crate::number;
use crate::store;
use crate::sync::WatchSettings;
use crate::text;
use crate::thread;
use crate::thread::{ThreadFetch, ThreadFetchModel};
use crate::transport::{RedditClient, Request, RequestModel};

verus! {

/// What to look up in the database.
pub enum Lookup {
    Text(String),
    Watches,
    Saved,
    Statement(String),
}

/// What a [`Lookup`] holds.
pub enum LookupModel {
    Text(Seq<char>),
    Watches,
    Saved,
    Statement(Seq<char>),
}

impl View for Lookup {
    type V = LookupModel;

    open spec fn view(&self) -> LookupModel {
        match *self {
            Lookup::Text(query) => LookupModel::Text(query@),
            Lookup::Watches => LookupModel::Watches,
            Lookup::Saved => LookupModel::Saved,
            Lookup::Statement(sql) => LookupModel::Statement(sql@),
        }
    }
}

/// What to do with a permalink.
#[derive(Debug)]
pub enum LinkUse {
    Copy,
    Open,
    Save { note: Option<String> },
}

/// What a [`LinkUse`] holds.
pub enum LinkUseModel {
    Copy,
    Open,
    Save { note: Option<Seq<char>> },
}

impl View for LinkUse {
    type V = LinkUseModel;

    open spec fn view(&self) -> LinkUseModel {
        match *self {
            LinkUse::Copy => LinkUseModel::Copy,
            LinkUse::Open => LinkUseModel::Open,
            LinkUse::Save { note } => LinkUseModel::Save { note: text::opt(note) },
        }
    }
}

/// What a command does.
pub enum Plan {
    /// Prints rows of the database.
    Rows { lookup: Lookup, json: bool },
    /// Fetches items, numbers and remembers them, and prints them.
    Items(ListingFetch),
    /// Fetches a document and prints it.
    Document(Request),
    /// Fetches who is logged in and prints it.
    Identity(Request),
    /// Finds out what a target leads to, and reads the thread there.
    Thread,
    /// Fetches a comment in its context and prints it.
    Comment(ThreadFetch),
    /// Watches subreddits and prints a message.
    Watch { subreddits: Vec<String>, settings: WatchSettings, message: String },
    /// Changes the settings of a watch and prints a message.
    Settings { subreddit: String, settings: WatchSettings, message: String },
    /// Stops watching a subreddit and prints a message.
    Unwatch { subreddit: String, message: String },
    /// Captures the newest posts and comments.
    Sync,
    /// Catches up with a subreddit.
    Backfill { subreddit: String },
    /// Finds out what a target leads to, and captures the thread there.
    Pull(ThreadCommand),
    /// Prints a digest.
    Digest { since: Option<String>, subreddit: Option<String>, json: bool },
    /// Prints where the database is.
    DatabasePath,
    /// Finds out what a target leads to, and uses the permalink.
    Link { target: String, purpose: LinkUse },
    /// Forgets the cookie.
    Forget,
}

/// What a [`Plan`] holds.
pub enum PlanModel {
    Rows { lookup: LookupModel, json: bool },
    Items(FetchModel),
    Document(RequestModel),
    Identity(RequestModel),
    Thread,
    Comment(ThreadFetchModel),
    Watch { subreddits: Seq<Seq<char>>, settings: WatchSettings, message: Seq<char> },
    Settings { subreddit: Seq<char>, settings: WatchSettings, message: Seq<char> },
    Unwatch { subreddit: Seq<char>, message: Seq<char> },
    Sync,
    Backfill { subreddit: Seq<char> },
    Pull(ThreadCommand),
    Digest { since: Option<Seq<char>>, subreddit: Option<Seq<char>>, json: bool },
    DatabasePath,
    Link { target: Seq<char>, purpose: LinkUseModel },
    Forget,
}

impl View for Plan {
    type V = PlanModel;

    open spec fn view(&self) -> PlanModel {
        match *self {
            Plan::Rows { lookup, json } => PlanModel::Rows { lookup: lookup@, json },
            Plan::Items(fetch) => PlanModel::Items(fetch@),
            Plan::Document(request) => PlanModel::Document(request@),
            Plan::Identity(request) => PlanModel::Identity(request@),
            Plan::Thread => PlanModel::Thread,
            Plan::Comment(fetch) => PlanModel::Comment(fetch@),
            Plan::Watch { subreddits, settings, message } => PlanModel::Watch {
                subreddits: text::texts(subreddits@),
                settings,
                message: message@,
            },
            Plan::Settings { subreddit, settings, message } => PlanModel::Settings {
                subreddit: subreddit@,
                settings,
                message: message@,
            },
            Plan::Unwatch { subreddit, message } => PlanModel::Unwatch {
                subreddit: subreddit@,
                message: message@,
            },
            Plan::Sync => PlanModel::Sync,
            Plan::Backfill { subreddit } => PlanModel::Backfill { subreddit: subreddit@ },
            Plan::Pull(command) => PlanModel::Pull(command),
            Plan::Digest { since, subreddit, json } => PlanModel::Digest {
                since: text::opt(since),
                subreddit: text::opt(subreddit),
                json,
            },
            Plan::DatabasePath => PlanModel::DatabasePath,
            Plan::Link { target, purpose } => PlanModel::Link {
                target: target@,
                purpose: purpose@,
            },
            Plan::Forget => PlanModel::Forget,
        }
    }
}

/// The failure of a pull that may only read feeds.
pub const FEED_PULL: &'static str =
    "rdt --rss pull is planned but not implemented yet; full-depth pull needs JSON parent metadata";

/// The failure of reading a cookie from a browser.
pub const NO_BROWSER: &'static str =
    "browser cookie extraction is planned behind the browser-cookies feature; set RDT_COOKIE or config.toml cookie for now";

/// The names of subreddits without what may stand around them.
pub open spec fn bare_names(names: Seq<Seq<char>>) -> Seq<Seq<char>> {
    names.map_values(|name: Seq<char>| address::bare_subreddit(name))
}

fn clean_names(names: &Vec<String>) -> (r: Vec<String>)
    ensures
        text::texts(r@) == bare_names(text::texts(names@)),
{
    let mut out: Vec<String> = Vec::new();
    let mut i: usize = 0;
    while i < names.len()
        invariant
            i <= names@.len(),
            out@.len() == i,
            forall|j: int|
                0 <= j < i ==> (#[trigger] out@[j])@ == address::bare_subreddit(names@[j]@),
        decreases names@.len() - i,
    {
        out.push(store::normalize_subreddit(names[i].as_str()));
        i = i + 1;
    }
    assert(text::texts(out@) =~= bare_names(text::texts(names@)));
    out
}

/// What a watch command does.
pub open spec fn watch_plan(command: WatchCommand, json: bool) -> PlanModel {
    match command {
        WatchCommand::Add(add) => PlanModel::Watch {
            subreddits: bare_names(text::texts(add.subreddits@)),
            settings: WatchSettings {
                pages: add.pages,
                budget: add.budget,
                refresh: cli::asked(add.refresh, add.no_refresh),
            },
            message: "added "@ + number::decimal(add.subreddits@.len()) + " watch(es)"@,
        },
        WatchCommand::Change(set) => PlanModel::Settings {
            subreddit: address::bare_subreddit(set.subreddit@),
            settings: WatchSettings {
                pages: set.pages,
                budget: set.budget,
                refresh: cli::asked(set.refresh, set.no_refresh),
            },
            message: "updated watch for r/"@ + set.subreddit@,
        },
        WatchCommand::Rm { subreddit } => PlanModel::Unwatch {
            subreddit: address::bare_subreddit(subreddit@),
            message: "removed watch for r/"@ + subreddit@,
        },
        WatchCommand::Ls => PlanModel::Rows { lookup: LookupModel::Watches, json },
    }
}

/// What a plan is that may fail.
pub open spec fn fetched(fetch: Result<FetchModel, ErrorModel>) -> Result<PlanModel, ErrorModel> {
    match fetch {
        Ok(f) => Ok(PlanModel::Items(f)),
        Err(e) => Err(e),
    }
}

/// A pull command does what a thread command for everything does.
pub open spec fn pulled(command: ThreadCommand, pull: cli::PullCommand) -> bool {
    backfill::capture_command(
        command,
        pull.target@,
        pull.depth,
        pull.sort,
        pull.max_requests,
    )
}

/// A plan is what a command does.
pub open spec fn fits(
    cli: Cli,
    force_rss: bool,
    cookie: Option<Seq<char>>,
    plan: Result<PlanModel, ErrorModel>,
) -> bool {
    match cli.command {
        Commands::Search(command) => plan == if command.local {
            Ok::<PlanModel, ErrorModel>(
                PlanModel::Rows { lookup: LookupModel::Text(command.query@), json: cli.json },
            )
        } else {
            fetched(listing::search_fetch(command, force_rss))
        },
        Commands::Browse(command) => plan == fetched(listing::browse_fetch(command, force_rss)),
        Commands::Subs(command) => plan == Ok::<PlanModel, ErrorModel>(
            PlanModel::Items(listing::subreddits_fetch(command.query@)),
        ),
        Commands::Sub(command) => match listing::about_request(command.name@) {
            Ok(request) => plan == Ok::<PlanModel, ErrorModel>(PlanModel::Document(request)),
            Err(e) => plan == Err::<PlanModel, ErrorModel>(e),
        },
        Commands::User(command) => plan == fetched(listing::user_fetch(command)),
        Commands::Thread(_) => plan == Ok::<PlanModel, ErrorModel>(PlanModel::Thread),
        Commands::Comment(command) => match thread::comment_fetch(
            command.url@,
            command.context,
            force_rss,
        ) {
            Ok(fetch) => plan == Ok::<PlanModel, ErrorModel>(PlanModel::Comment(fetch)),
            Err(e) => plan == Err::<PlanModel, ErrorModel>(e),
        },
        Commands::Watch(command) => plan == Ok::<PlanModel, ErrorModel>(
            watch_plan(command, cli.json),
        ),
        Commands::Sync(command) => plan == Ok::<PlanModel, ErrorModel>(
            match command.backfill {
                Some(subreddit) => PlanModel::Backfill { subreddit: subreddit@ },
                None => PlanModel::Sync,
            },
        ),
        Commands::Pull(command) => if cli.rss {
            plan == Err::<PlanModel, ErrorModel>(ErrorModel::Message(FEED_PULL@))
        } else {
            plan matches Ok(PlanModel::Pull(thread)) && pulled(thread, command)
        },
        Commands::Digest(command) => plan == Ok::<PlanModel, ErrorModel>(
            PlanModel::Digest {
                since: text::opt(command.since),
                subreddit: match command.sub {
                    Some(name) => Some(address::bare_subreddit(name@)),
                    None => None,
                },
                json: command.json || cli.json,
            },
        ),
        Commands::Db(command) => plan == Ok::<PlanModel, ErrorModel>(
            match command {
                DbCommand::Path => PlanModel::DatabasePath,
                DbCommand::Query { sql, json } => PlanModel::Rows {
                    lookup: LookupModel::Statement(sql@),
                    json: json || cli.json,
                },
                DbCommand::Search { query } => PlanModel::Rows {
                    lookup: LookupModel::Text(query@),
                    json: cli.json,
                },
            },
        ),
        Commands::Copy { target } => plan == Ok::<PlanModel, ErrorModel>(
            PlanModel::Link { target: target@, purpose: LinkUseModel::Copy },
        ),
        Commands::Open { target } => plan == Ok::<PlanModel, ErrorModel>(
            PlanModel::Link { target: target@, purpose: LinkUseModel::Open },
        ),
        Commands::Save { target, note } => plan == Ok::<PlanModel, ErrorModel>(
            PlanModel::Link {
                target: target@,
                purpose: LinkUseModel::Save { note: text::opt(note) },
            },
        ),
        Commands::Saved => plan == Ok::<PlanModel, ErrorModel>(
            PlanModel::Rows { lookup: LookupModel::Saved, json: cli.json },
        ),
        Commands::Auth(command) => match command {
            AuthCommand::Check => if cookie is Some {
                plan == Ok::<PlanModel, ErrorModel>(
                    PlanModel::Identity(listing::identity_request()),
                )
            } else {
                plan == Err::<PlanModel, ErrorModel>(ErrorModel::CookieMissing)
            },
            AuthCommand::Clear => plan == Ok::<PlanModel, ErrorModel>(PlanModel::Forget),
            AuthCommand::FromBrowser { .. } => plan == Err::<PlanModel, ErrorModel>(
                ErrorModel::Message(NO_BROWSER@),
            ),
        },
    }
}

fn plan_items(fetch: Result<ListingFetch, RdtError>) -> (r: Result<Plan, RdtError>)
    ensures
        error::outcome(r) == fetched(error::outcome(fetch)),
{
    match fetch {
        Ok(f) => Ok(Plan::Items(f)),
        Err(e) => Err(e),
    }
}

fn words_of(front: &str, back: &str) -> (r: String)
    ensures
        r@ == front@ + back@,
{
    let mut out = front.to_owned();
    out.push_str(back);
    out
}

fn plan_watch(command: &WatchCommand, json: bool) -> (r: Plan)
    ensures
        r@ == watch_plan(*command, json),
{
    match command {
        WatchCommand::Add(add) => {
            let mut message = words_of(
                "added ",
                number::usize_text(add.subreddits.len()).as_str(),
            );
            message.push_str(" watch(es)");
            Plan::Watch {
                subreddits: clean_names(&add.subreddits),
                settings: WatchSettings {
                    pages: add.pages,
                    budget: add.budget,
                    refresh: add.refresh_override(),
                },
                message,
            }
        },
        WatchCommand::Change(set) => Plan::Settings {
            subreddit: store::normalize_subreddit(set.subreddit.as_str()),
            settings: WatchSettings {
                pages: set.pages,
                budget: set.budget,
                refresh: set.refresh_override(),
            },
            message: words_of("updated watch for r/", set.subreddit.as_str()),
        },
        WatchCommand::Rm { subreddit } => Plan::Unwatch {
            subreddit: store::normalize_subreddit(subreddit.as_str()),
            message: words_of("removed watch for r/", subreddit.as_str()),
        },
        WatchCommand::Ls => Plan::Rows { lookup: Lookup::Watches, json },
    }
}

/// Decides what a command does.
pub fn plan(cli: &Cli, client: &RedditClient) -> (r: Result<Plan, RdtError>)
    ensures
        fits(*cli, client@.force_rss, client@.cookie, error::outcome(r)),
        r matches Ok(Plan::Comment(fetch)) ==> fetch.wf(),
{
    match &cli.command {
        Commands::Search(command) => {
            if command.local {
                Ok(Plan::Rows { lookup: Lookup::Text(command.query.clone()), json: cli.json })
            } else {
                plan_items(client.search(command))
            }
        },
        Commands::Browse(command) => plan_items(client.browse(command)),
        Commands::Subs(command) => Ok(Plan::Items(client.subreddits(command.query.as_str()))),
        Commands::Sub(command) => match client.subreddit_about(command.name.as_str()) {
            Ok(request) => Ok(Plan::Document(request)),
            Err(e) => Err(e),
        },
        Commands::User(command) => plan_items(client.user(command)),
        Commands::Thread(_) => Ok(Plan::Thread),
        Commands::Comment(command) => match client.comment(command.url.as_str(), command.context) {
            Ok(fetch) => Ok(Plan::Comment(fetch)),
            Err(e) => Err(e),
        },
        Commands::Watch(command) => Ok(plan_watch(command, cli.json)),
        Commands::Sync(command) => match &command.backfill {
            Some(subreddit) => Ok(Plan::Backfill { subreddit: subreddit.clone() }),
            None => Ok(Plan::Sync),
        },
        Commands::Pull(command) => {
            if cli.rss {
                Err(RdtError::say(FEED_PULL))
            } else {
                Ok(Plan::Pull(backfill::pull_thread(command)))
            }
        },
        Commands::Digest(command) => Ok(
            Plan::Digest {
                since: model::copy_opt(&command.since),
                subreddit: match &command.sub {
                    Some(name) => Some(store::normalize_subreddit(name.as_str())),
                    None => None,
                },
                json: command.json || cli.json,
            },
        ),
        Commands::Db(command) => Ok(
            match command {
                DbCommand::Path => Plan::DatabasePath,
                DbCommand::Query { sql, json } => Plan::Rows {
                    lookup: Lookup::Statement(sql.clone()),
                    json: *json || cli.json,
                },
                DbCommand::Search { query } => Plan::Rows {
                    lookup: Lookup::Text(query.clone()),
                    json: cli.json,
                },
            },
        ),
        Commands::Copy { target } => Ok(
            Plan::Link { target: target.clone(), purpose: LinkUse::Copy },
        ),
        Commands::Open { target } => Ok(
            Plan::Link { target: target.clone(), purpose: LinkUse::Open },
        ),
        Commands::Save { target, note } => Ok(
            Plan::Link {
                target: target.clone(),
                purpose: LinkUse::Save { note: model::copy_opt(note) },
            },
        ),
        Commands::Saved => Ok(Plan::Rows { lookup: Lookup::Saved, json: cli.json }),
        Commands::Auth(command) => match command {
            AuthCommand::Check => match client.auth_check() {
                Ok(request) => Ok(Plan::Identity(request)),
                Err(e) => Err(e),
            },
            AuthCommand::Clear => Ok(Plan::Forget),
            AuthCommand::FromBrowser { .. } => Err(RdtError::say(NO_BROWSER)),
        },
    }
}

/// Plans whose answers may be kept and used again: reading a listing, a
/// document, a thread or a comment.
pub open spec fn cached(plan: PlanModel) -> bool {
    match plan {
        PlanModel::Items(_)
        | PlanModel::Document(_)
        | PlanModel::Thread
        | PlanModel::Comment(_) => true,
        _ => false,
    }
}

impl Plan {
    /// Whether answers may be kept and used again.
    pub fn uses_cache(&self) -> (r: bool)
        ensures
            r == cached(self@),
    {
        match self {
            Plan::Items(_) | Plan::Document(_) | Plan::Thread | Plan::Comment(_) => true,
            _ => false,
        }
    }
}

/// Syncing, catching up, pulling and checking who is logged in bypass the
/// cache; the commands that read from the site use it.
pub proof fn law_captures_bypass_the_cache(
    cli: Cli,
    force_rss: bool,
    cookie: Option<Seq<char>>,
    plan: PlanModel,
)
    requires
        fits(cli, force_rss, cookie, Ok(plan)),
    ensures
        cli.command is Sync || cli.command is Pull || cli.command is Auth ==> !cached(plan),
        cli.command is Browse || cli.command is Subs || cli.command is Sub || cli.command is User
            || cli.command is Thread || cli.command is Comment ==> cached(plan),
        cli.command matches Commands::Search(command) ==> cached(plan) == !command.local,
{
}

/// What a used permalink is reported as.
pub fn link_message(purpose: &LinkUse, link: &str) -> (r: String)
    ensures
        r@ == match purpose@ {
            LinkUseModel::Save { .. } => "saved "@ + link@,
            _ => link@,
        },
{
    match purpose {
        LinkUse::Save { .. } => words_of("saved ", link),
        _ => link.to_owned(),
    }
}

/// A command is done as it says: what it names is what is looked up, captured or
/// used, and what it does not ask for is not done.
pub proof fn law_commands_do_what_they_name(
    cli: Cli,
    force_rss: bool,
    cookie: Option<Seq<char>>,
    plan: Result<PlanModel, ErrorModel>,
)
    requires
        fits(cli, force_rss, cookie, plan),
    ensures
        cli.command matches Commands::Copy { target } ==> {
            &&& plan matches Ok(PlanModel::Link { target: named, purpose })
            &&& named == target@
            &&& purpose is Copy
        },
        cli.command matches Commands::Open { target } ==> {
            &&& plan matches Ok(PlanModel::Link { target: named, purpose })
            &&& named == target@
            &&& purpose is Open
        },
        cli.command matches Commands::Save { target, note } ==> {
            &&& plan matches Ok(PlanModel::Link { target: named, purpose })
            &&& named == target@
            &&& purpose matches LinkUseModel::Save { note: kept }
            &&& note matches Some(words) ==> kept == Some(words@)
            &&& note is None ==> kept is None
        },
        cli.command is Saved ==> (plan matches Ok(PlanModel::Rows { lookup, json })
            && lookup is Saved && json == cli.json),
        cli.command matches Commands::Search(command) ==> command.local ==> {
            &&& plan matches Ok(PlanModel::Rows { lookup, json })
            &&& lookup == LookupModel::Text(command.query@)
            &&& json == cli.json
        },
        cli.command matches Commands::Db(DbCommand::Query { sql, json }) ==> {
            &&& plan matches Ok(PlanModel::Rows { lookup, json: shown })
            &&& lookup == LookupModel::Statement(sql@)
            &&& shown <==> json || cli.json
        },
        cli.command matches Commands::Db(DbCommand::Search { query }) ==> {
            &&& plan matches Ok(PlanModel::Rows { lookup, json: shown })
            &&& lookup == LookupModel::Text(query@)
            &&& shown == cli.json
        },
        cli.command matches Commands::Digest(command) ==> {
            &&& plan matches Ok(PlanModel::Digest { since, subreddit, json })
            &&& json <==> command.json || cli.json
            &&& command.since matches Some(at) ==> since == Some(at@)
            &&& command.since is None ==> since is None
            &&& command.sub matches Some(name) ==> subreddit == Some(
                address::bare_subreddit(name@),
            )
            &&& command.sub is None ==> subreddit is None
        },
{
}

/// A pull reads a whole thread, and is refused where only feeds may be read. A
/// backfill is done where a subreddit to catch up with is named, and else the
/// newest is captured. Who is logged in is asked only with a cookie.
pub proof fn law_captures_do_what_they_name(
    cli: Cli,
    force_rss: bool,
    cookie: Option<Seq<char>>,
    plan: Result<PlanModel, ErrorModel>,
)
    requires
        fits(cli, force_rss, cookie, plan),
    ensures
        cli.command matches Commands::Pull(pull) ==> {
            &&& plan is Err <==> cli.rss
            &&& !cli.rss ==> {
                &&& plan matches Ok(PlanModel::Pull(command))
                &&& command.all
                &&& command.target@ == pull.target@
                &&& command.depth == pull.depth
                &&& command.sort == pull.sort
                &&& command.max_requests == pull.max_requests
            }
        },
        cli.command matches Commands::Sync(command) ==> {
            &&& command.backfill matches Some(name) ==> plan == Ok::<PlanModel, ErrorModel>(
                PlanModel::Backfill { subreddit: name@ },
            )
            &&& command.backfill is None ==> plan == Ok::<PlanModel, ErrorModel>(PlanModel::Sync)
        },
        cli.command matches Commands::Auth(AuthCommand::Check) ==> {
            &&& cookie is None ==> plan == Err::<PlanModel, ErrorModel>(ErrorModel::CookieMissing)
            &&& cookie is Some ==> plan matches Ok(PlanModel::Identity(_))
        },
        cli.command matches Commands::Auth(AuthCommand::Clear) ==> plan == Ok::<
            PlanModel,
            ErrorModel,
        >(PlanModel::Forget),
        cli.command matches Commands::Auth(AuthCommand::FromBrowser { .. }) ==> plan is Err,
        cli.command matches Commands::Watch(WatchCommand::Add(add)) ==> {
            &&& plan matches Ok(PlanModel::Watch { subreddits, settings, message })
            &&& message == "added "@ + number::decimal(add.subreddits@.len()) + " watch(es)"@
            &&& subreddits.len() == add.subreddits@.len()
            &&& forall|i: int| #![trigger subreddits[i]]
                0 <= i < subreddits.len() ==> subreddits[i] == address::bare_subreddit(
                    add.subreddits@[i]@,
                )
            &&& settings.pages == add.pages
            &&& settings.budget == add.budget
            &&& add.no_refresh ==> settings.refresh == Some(false)
            &&& add.refresh && !add.no_refresh ==> settings.refresh == Some(true)
            &&& !add.refresh && !add.no_refresh ==> settings.refresh is None
        },
        cli.command matches Commands::Watch(WatchCommand::Change(change)) ==> {
            &&& plan matches Ok(PlanModel::Settings { subreddit, settings, message })
            &&& message == "updated watch for r/"@ + change.subreddit@
            &&& subreddit == address::bare_subreddit(change.subreddit@)
            &&& settings.pages == change.pages
            &&& settings.budget == change.budget
            &&& change.no_refresh ==> settings.refresh == Some(false)
            &&& change.refresh && !change.no_refresh ==> settings.refresh == Some(true)
            &&& !change.refresh && !change.no_refresh ==> settings.refresh is None
        },
        cli.command matches Commands::Watch(WatchCommand::Rm { subreddit }) ==> {
            &&& plan matches Ok(PlanModel::Unwatch { subreddit: named, message })
            &&& message == "removed watch for r/"@ + subreddit@
            &&& named == address::bare_subreddit(subreddit@)
        },
        cli.command matches Commands::Watch(WatchCommand::Ls) ==> plan == Ok::<
            PlanModel,
            ErrorModel,
        >(PlanModel::Rows { lookup: LookupModel::Watches, json: cli.json }),
{
}

/// What is read from the site is what the command says, as JSON or, where feeds
/// are forced, as a feed.
pub proof fn law_readers_ask_the_site(
    cli: Cli,
    force_rss: bool,
    cookie: Option<Seq<char>>,
    plan: Result<PlanModel, ErrorModel>,
)
    requires
        fits(cli, force_rss, cookie, plan),
    ensures
        cli.command matches Commands::Search(command) ==> !command.local ==> {
            &&& plan is Ok <==> listing::search_fetch(command, force_rss) is Ok
            &&& plan matches Ok(done) ==> done == PlanModel::Items(
                listing::search_fetch(command, force_rss)->Ok_0,
            )
        },
        cli.command matches Commands::Browse(command) ==> {
            &&& plan is Ok <==> listing::browse_fetch(command, force_rss) is Ok
            &&& plan matches Ok(done) ==> done == PlanModel::Items(
                listing::browse_fetch(command, force_rss)->Ok_0,
            )
        },
        cli.command matches Commands::User(command) ==> {
            &&& plan is Ok <==> listing::user_fetch(command) is Ok
            &&& plan matches Ok(done) ==> done == PlanModel::Items(
                listing::user_fetch(command)->Ok_0,
            )
        },
        cli.command matches Commands::Subs(command) ==> plan == Ok::<PlanModel, ErrorModel>(
            PlanModel::Items(listing::subreddits_fetch(command.query@)),
        ),
        cli.command matches Commands::Sub(command) ==> {
            &&& plan is Ok <==> listing::about_request(command.name@) is Ok
            &&& plan matches Ok(done) ==> done == PlanModel::Document(
                listing::about_request(command.name@)->Ok_0,
            )
        },
        cli.command is Thread ==> plan == Ok::<PlanModel, ErrorModel>(PlanModel::Thread),
        cli.command matches Commands::Comment(command) ==> {
            let r = thread::comment_fetch(command.url@, command.context, force_rss);
            &&& plan is Ok <==> r is Ok
            &&& plan matches Ok(done) ==> done == PlanModel::Comment(r->Ok_0)
        },
{
}

} // verus!
