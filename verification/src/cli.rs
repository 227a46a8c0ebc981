//! The commands and their options.
use vstd::prelude::*;

verus! {

/// A command line: the options of every command, and the command.
#[derive(Debug)]
pub struct Cli {
    pub json: bool,
    pub fresh: bool,
    pub anon: bool,
    pub rss: bool,
    pub no_color: bool,
    pub command: Commands,
}

/// The commands.
#[derive(Debug)]
pub enum Commands {
    Search(SearchCommand),
    Browse(BrowseCommand),
    Subs(SubsCommand),
    Sub(SubCommand),
    User(UserCommand),
    Thread(ThreadCommand),
    Comment(CommentCommand),
    Watch(WatchCommand),
    Sync(SyncCommand),
    Pull(PullCommand),
    Digest(DigestCommand),
    Db(DbCommand),
    Copy { target: String },
    Open { target: String },
    Save { target: String, note: Option<String> },
    Saved,
    Auth(AuthCommand),
}

/// Searching for posts.
#[derive(Debug)]
pub struct SearchCommand {
    pub query: String,
    pub subreddits: Vec<String>,
    pub sort: SearchSort,
    pub time: TimeWindow,
    pub limit: u32,
    pub local: bool,
}

/// Listing a subreddit.
#[derive(Debug)]
pub struct BrowseCommand {
    pub sub: String,
    pub sort: BrowseSort,
    pub time: TimeWindow,
    pub limit: u32,
    pub after: Option<String>,
}

/// Searching for subreddits.
#[derive(Debug)]
pub struct SubsCommand {
    pub query: String,
}

/// Showing what a subreddit is about.
#[derive(Debug)]
pub struct SubCommand {
    pub name: String,
}

/// Listing what a user wrote.
#[derive(Debug)]
pub struct UserCommand {
    pub name: String,
    pub what: UserWhat,
    pub limit: u32,
}

/// Reading a thread.
#[derive(Debug)]
pub struct ThreadCommand {
    pub target: String,
    pub all: bool,
    pub depth: Option<u32>,
    pub sort: ThreadSort,
    pub max_requests: u32,
}

/// Reading a comment in its context.
#[derive(Debug)]
pub struct CommentCommand {
    pub url: String,
    pub context: u32,
}

/// Managing the watched subreddits.
#[derive(Debug)]
pub enum WatchCommand {
    Add(WatchAddCommand),
    Change(WatchSetCommand),
    Rm { subreddit: String },
    Ls,
}

/// Watching subreddits.
#[derive(Debug)]
pub struct WatchAddCommand {
    pub subreddits: Vec<String>,
    pub pages: Option<u32>,
    pub budget: Option<u32>,
    pub refresh: bool,
    pub no_refresh: bool,
}

/// Changing the settings of a watch.
#[derive(Debug)]
pub struct WatchSetCommand {
    pub subreddit: String,
    pub pages: Option<u32>,
    pub budget: Option<u32>,
    pub refresh: bool,
    pub no_refresh: bool,
}

/// Capturing new posts and comments.
#[derive(Debug)]
pub struct SyncCommand {
    pub subreddits: Vec<String>,
    pub pages: Option<u32>,
    pub loop_secs: Option<u64>,
    pub budget: Option<u32>,
    pub refresh: bool,
    pub no_refresh: bool,
    pub backfill: Option<String>,
    pub days: Option<u32>,
    pub max_requests: Option<u32>,
}

/// Capturing a whole thread.
#[derive(Debug)]
pub struct PullCommand {
    pub target: String,
    pub depth: Option<u32>,
    pub sort: ThreadSort,
    pub max_requests: u32,
}

/// Summing up what was captured.
#[derive(Debug)]
pub struct DigestCommand {
    pub since: Option<String>,
    pub sub: Option<String>,
    pub md: bool,
    pub json: bool,
}

/// Looking into the database.
#[derive(Debug)]
pub enum DbCommand {
    Path,
    Query { sql: String, json: bool },
    Search { query: String },
}

/// Managing the session cookie.
#[derive(Debug)]
pub enum AuthCommand {
    FromBrowser { browser: Option<String> },
    Check,
    Clear,
}

/// What a pair of opposite flags asks for; the second one wins.
pub open spec fn asked(refresh: bool, no_refresh: bool) -> Option<bool> {
    if no_refresh {
        Some(false)
    } else if refresh {
        Some(true)
    } else {
        None
    }
}

/// What a pair of opposite flags asks for.
pub fn refresh_flag_override(refresh: bool, no_refresh: bool) -> (r: Option<bool>)
    ensures
        r == asked(refresh, no_refresh),
{
    if no_refresh {
        Some(false)
    } else if refresh {
        Some(true)
    } else {
        None
    }
}

impl WatchAddCommand {
    /// Whether refreshing is switched on or off, if either.
    pub fn refresh_override(&self) -> (r: Option<bool>)
        ensures
            r == asked(self.refresh, self.no_refresh),
    {
        refresh_flag_override(self.refresh, self.no_refresh)
    }
}

impl WatchSetCommand {
    /// Whether refreshing is switched on or off, if either.
    pub fn refresh_override(&self) -> (r: Option<bool>)
        ensures
            r == asked(self.refresh, self.no_refresh),
    {
        refresh_flag_override(self.refresh, self.no_refresh)
    }
}

impl SyncCommand {
    /// Whether refreshing is switched on or off, if either.
    pub fn refresh_override(&self) -> (r: Option<bool>)
        ensures
            r == asked(self.refresh, self.no_refresh),
    {
        refresh_flag_override(self.refresh, self.no_refresh)
    }
}

/// The order of search results.
#[derive(Debug, Clone, Copy, PartialEq, Eq, Structural)]
pub enum SearchSort {
    Relevance,
    Top,
    New,
    Comments,
}

impl SearchSort {
    /// The word for it in a Reddit address.
    pub open spec fn word(self) -> Seq<char> {
        match self {
            SearchSort::Relevance => "relevance"@,
            SearchSort::Top => "top"@,
            SearchSort::New => "new"@,
            SearchSort::Comments => "comments"@,
        }
    }

    /// The word for it in a Reddit address.
    pub fn as_reddit(self) -> (r: &'static str)
        ensures
            r@ == self.word(),
    {
        match self {
            SearchSort::Relevance => "relevance",
            SearchSort::Top => "top",
            SearchSort::New => "new",
            SearchSort::Comments => "comments",
        }
    }
}

/// The order of a subreddit listing.
#[derive(Debug, Clone, Copy, PartialEq, Eq, Structural)]
pub enum BrowseSort {
    Hot,
    New,
    Top,
    Rising,
    Controversial,
}

impl BrowseSort {
    /// The word for it in a Reddit address.
    pub open spec fn word(self) -> Seq<char> {
        match self {
            BrowseSort::Hot => "hot"@,
            BrowseSort::New => "new"@,
            BrowseSort::Top => "top"@,
            BrowseSort::Rising => "rising"@,
            BrowseSort::Controversial => "controversial"@,
        }
    }

    /// The word for it in a Reddit address.
    pub fn as_reddit(self) -> (r: &'static str)
        ensures
            r@ == self.word(),
    {
        match self {
            BrowseSort::Hot => "hot",
            BrowseSort::New => "new",
            BrowseSort::Top => "top",
            BrowseSort::Rising => "rising",
            BrowseSort::Controversial => "controversial",
        }
    }
}

/// The order of the comments of a thread.
#[derive(Debug, Clone, Copy, PartialEq, Eq, Structural)]
pub enum ThreadSort {
    Best,
    Top,
    New,
    Controversial,
    Old,
    Qa,
}

impl ThreadSort {
    /// The word for it in a Reddit address.
    pub open spec fn word(self) -> Seq<char> {
        match self {
            ThreadSort::Best => "best"@,
            ThreadSort::Top => "top"@,
            ThreadSort::New => "new"@,
            ThreadSort::Controversial => "controversial"@,
            ThreadSort::Old => "old"@,
            ThreadSort::Qa => "qa"@,
        }
    }

    /// The word for it in a Reddit address.
    pub fn as_reddit(self) -> (r: &'static str)
        ensures
            r@ == self.word(),
    {
        match self {
            ThreadSort::Best => "best",
            ThreadSort::Top => "top",
            ThreadSort::New => "new",
            ThreadSort::Controversial => "controversial",
            ThreadSort::Old => "old",
            ThreadSort::Qa => "qa",
        }
    }
}

/// The time that a listing looks back.
#[derive(Debug, Clone, Copy, PartialEq, Eq, Structural)]
pub enum TimeWindow {
    Hour,
    Day,
    Week,
    Month,
    Year,
    All,
}

impl TimeWindow {
    /// The word for it in a Reddit address.
    pub open spec fn word(self) -> Seq<char> {
        match self {
            TimeWindow::Hour => "hour"@,
            TimeWindow::Day => "day"@,
            TimeWindow::Week => "week"@,
            TimeWindow::Month => "month"@,
            TimeWindow::Year => "year"@,
            TimeWindow::All => "all"@,
        }
    }

    /// The word for it in a Reddit address.
    pub fn as_reddit(self) -> (r: &'static str)
        ensures
            r@ == self.word(),
    {
        match self {
            TimeWindow::Hour => "hour",
            TimeWindow::Day => "day",
            TimeWindow::Week => "week",
            TimeWindow::Month => "month",
            TimeWindow::Year => "year",
            TimeWindow::All => "all",
        }
    }
}

/// What to list of a user.
#[derive(Debug, Clone, Copy, PartialEq, Eq, Structural)]
pub enum UserWhat {
    Overview,
    Submitted,
    Comments,
}

impl UserWhat {
    /// The word for it in a Reddit address.
    pub open spec fn word(self) -> Seq<char> {
        match self {
            UserWhat::Overview => "overview"@,
            UserWhat::Submitted => "submitted"@,
            UserWhat::Comments => "comments"@,
        }
    }

    /// The word for it in a Reddit address.
    pub fn as_reddit(self) -> (r: &'static str)
        ensures
            r@ == self.word(),
    {
        match self {
            UserWhat::Overview => "overview",
            UserWhat::Submitted => "submitted",
            UserWhat::Comments => "comments",
        }
    }
}

/// Of two opposite flags the one that switches off wins, and without either
/// nothing is asked.
pub proof fn law_switching_off_wins(refresh: bool)
    ensures
        asked(refresh, true) == Some(false),
        asked(true, false) == Some(true),
        asked(false, false) is None,
{
}

/// Each choice goes by its own word in an address of the site.
pub proof fn law_choices_go_by_their_words(
    search: SearchSort,
    browse: BrowseSort,
    thread: ThreadSort,
    time: TimeWindow,
    what: UserWhat,
)
    ensures
        search is Relevance ==> search.word() == "relevance"@,
        search is Top ==> search.word() == "top"@,
        search is New ==> search.word() == "new"@,
        search is Comments ==> search.word() == "comments"@,
        browse is Hot ==> browse.word() == "hot"@,
        browse is New ==> browse.word() == "new"@,
        browse is Top ==> browse.word() == "top"@,
        browse is Rising ==> browse.word() == "rising"@,
        browse is Controversial ==> browse.word() == "controversial"@,
        thread is Best ==> thread.word() == "best"@,
        thread is Top ==> thread.word() == "top"@,
        thread is New ==> thread.word() == "new"@,
        thread is Controversial ==> thread.word() == "controversial"@,
        thread is Old ==> thread.word() == "old"@,
        thread is Qa ==> thread.word() == "qa"@,
        time is Hour ==> time.word() == "hour"@,
        time is Day ==> time.word() == "day"@,
        time is Week ==> time.word() == "week"@,
        time is Month ==> time.word() == "month"@,
        time is Year ==> time.word() == "year"@,
        time is All ==> time.word() == "all"@,
        what is Overview ==> what.word() == "overview"@,
        what is Submitted ==> what.word() == "submitted"@,
        what is Comments ==> what.word() == "comments"@,
{
}

} // verus!
