//! Capturing: which pages of a subreddit are read, what of them is stored, and
//! when a capture is complete.
use vstd::prelude::*;

use crate::address;
use crate::atom;
use crate::atom::FeedModel;
use crate::cli;
use crate::cli::SyncCommand;
use crate::config;
use crate::config::Config;
use crate::error;
use crate::error::{ErrorModel, RdtError};
use crate::json;
use crate::json::JsonModel;
use crate::listing;
use crate::listing::FetchModel;
use crate::model;
use crate::model::{ItemKind, ItemModel, RedditItem};
use crate::number;
use crate::parse;
use crate::store;
use crate::store::{ReportModel, StreamKind, SyncStreamReport, UpsertStats};
use crate::text;
use crate::transport;
use crate::transport::{RedditClient, Request, RequestModel};
use crate::web;

verus! {

// ---------------------------------------------------------------------------
// Settings
// ---------------------------------------------------------------------------

/// The settings of a watch. Each may be absent.
#[derive(Debug, Clone, Copy, PartialEq, Eq, Structural)]
pub struct WatchSettings {
    pub pages: Option<u32>,
    pub budget: Option<u32>,
    pub refresh: Option<bool>,
}

/// The settings of a watch after a change. What the change does not name
/// stays.
pub open spec fn changed(stored: WatchSettings, change: WatchSettings) -> WatchSettings {
    WatchSettings {
        pages: config::either(change.pages, stored.pages),
        budget: config::either(change.budget, stored.budget),
        refresh: config::either(change.refresh, stored.refresh),
    }
}

/// The settings of a watch after a change.
pub fn change_settings(stored: WatchSettings, change: WatchSettings) -> (r: WatchSettings)
    ensures
        r == changed(stored, change),
{
    WatchSettings {
        pages: if change.pages.is_some() {
            change.pages
        } else {
            stored.pages
        },
        budget: if change.budget.is_some() {
            change.budget
        } else {
            stored.budget
        },
        refresh: if change.refresh.is_some() {
            change.refresh
        } else {
            stored.refresh
        },
    }
}

/// The settings of a capture.
#[derive(Debug, Clone, Copy, PartialEq, Eq, Structural)]
pub struct SyncSettings {
    pub pages: Option<u32>,
    pub budget: u32,
    pub refresh: bool,
}

/// The items that a capture reads where nothing else is said.
pub const DEFAULT_BUDGET: u32 = 300;

/// The settings of a capture: those of the command come before those of the
/// watch, which come before the general ones.
pub open spec fn settings_for(
    command: SyncCommand,
    watch: WatchSettings,
    general: Config,
) -> SyncSettings {
    SyncSettings {
        pages: config::first_set(seq![command.pages, watch.pages, general.page_cap]),
        budget: match config::first_set(
            seq![command.budget, watch.budget, general.sync_budget],
        ) {
            Some(n) => n,
            None => DEFAULT_BUDGET,
        },
        refresh: match config::first_set(
            seq![
                cli::asked(command.refresh, command.no_refresh),
                watch.refresh,
                general.sync_refresh,
            ],
        ) {
            Some(flag) => flag,
            None => false,
        },
    }
}

proof fn lemma_first_of_three<T>(a: Option<T>, b: Option<T>, c: Option<T>)
    ensures
        config::first_set(seq![a, b, c]) == if a is Some {
            a
        } else if b is Some {
            b
        } else {
            c
        },
{
    reveal_with_fuel(config::first_set, 4);
    let s = seq![a, b, c];
    assert(s.drop_last() =~= seq![a, b]);
    assert(s.drop_last().drop_last() =~= seq![a]);
    assert(s.drop_last().drop_last().drop_last() =~= Seq::empty());
}

/// The settings of a capture.
pub fn sync_settings(command: &SyncCommand, watch: WatchSettings, general: &Config) -> (r:
    SyncSettings)
    ensures
        r == settings_for(*command, watch, *general),
{
    let asked = command.refresh_override();
    proof {
        lemma_first_of_three(command.pages, watch.pages, general.page_cap);
        lemma_first_of_three(command.budget, watch.budget, general.sync_budget);
        lemma_first_of_three(asked, watch.refresh, general.sync_refresh);
    }
    SyncSettings {
        pages: if command.pages.is_some() {
            command.pages
        } else if watch.pages.is_some() {
            watch.pages
        } else {
            general.page_cap
        },
        budget: match command.budget {
            Some(n) => n,
            None => match watch.budget {
                Some(n) => n,
                None => match general.sync_budget {
                    Some(n) => n,
                    None => DEFAULT_BUDGET,
                },
            },
        },
        refresh: match asked {
            Some(flag) => flag,
            None => match watch.refresh {
                Some(flag) => flag,
                None => match general.sync_refresh {
                    Some(flag) => flag,
                    None => false,
                },
            },
        },
    }
}

/// The subreddits to capture: those that the command names, else those that
/// are watched.
pub open spec fn targets_of(named: Seq<Seq<char>>, watched: Seq<Seq<char>>) -> Seq<Seq<char>> {
    if named.len() == 0 {
        watched
    } else {
        named.map_values(|name: Seq<char>| address::bare_subreddit(name))
    }
}

/// The subreddits to capture.
pub fn sync_targets(named: &Vec<String>, watched: Vec<String>) -> (r: Vec<String>)
    ensures
        text::texts(r@) == targets_of(text::texts(named@), text::texts(watched@)),
{
    if named.len() == 0 {
        return watched;
    }
    let mut out: Vec<String> = Vec::new();
    let mut i: usize = 0;
    while i < named.len()
        invariant
            i <= named@.len(),
            out@.len() == i,
            forall|j: int|
                0 <= j < i ==> (#[trigger] out@[j])@ == address::bare_subreddit(named@[j]@),
        decreases named@.len() - i,
    {
        out.push(store::normalize_subreddit(named[i].as_str()));
        i = i + 1;
    }
    assert(text::texts(out@) =~= targets_of(text::texts(named@), text::texts(watched@)));
    out
}

/// What is captured of a subreddit: its posts and its comments, and then the
/// stored posts are refreshed, unless only feeds are read.
pub open spec fn streams_of(refresh: bool, rss: bool) -> Seq<StreamKind> {
    if refresh && !rss {
        seq![StreamKind::Posts, StreamKind::Comments, StreamKind::Refresh]
    } else {
        seq![StreamKind::Posts, StreamKind::Comments]
    }
}

/// What is captured of a subreddit.
pub fn sync_streams(refresh: bool, rss: bool) -> (r: Vec<StreamKind>)
    ensures
        r@ == streams_of(refresh, rss),
{
    let mut out: Vec<StreamKind> = Vec::new();
    out.push(StreamKind::Posts);
    out.push(StreamKind::Comments);
    if refresh && !rss {
        out.push(StreamKind::Refresh);
    }
    assert(out@ =~= streams_of(refresh, rss));
    out
}

/// The items that may be read, at least one.
pub open spec fn item_cap(budget: u32) -> usize {
    if budget >= 1 {
        budget as usize
    } else {
        1
    }
}

/// The pages that may be read, at least one: as many as are set, else as many
/// as hold the items that may be read.
pub open spec fn page_cap(budget: u32, pages: Option<u32>) -> usize {
    match pages {
        Some(n) => if n >= 1 {
            n as usize
        } else {
            1
        },
        None => ((item_cap(budget) + 99) / 100) as usize,
    }
}

/// The items that may be read, at least one.
pub fn cap_items(budget: u32) -> (r: usize)
    ensures
        r == item_cap(budget),
        r >= 1,
{
    if budget >= 1 {
        budget as usize
    } else {
        1
    }
}

fn cap_pages(budget: u32, pages: Option<u32>) -> (r: usize)
    ensures
        r == page_cap(budget, pages),
        r >= 1,
{
    match pages {
        Some(n) => if n >= 1 {
            n as usize
        } else {
            1
        },
        None => {
            let items: u64 = cap_items(budget) as u64;
            ((items + 99) / 100) as usize
        },
    }
}

/// Each setting of a capture is the one of the command, else the one of the
/// watch, else the general one. Without any of them the budget is three hundred
/// and nothing is refreshed.
pub proof fn law_nearer_settings_come_first(
    command: SyncCommand,
    watch: WatchSettings,
    general: Config,
)
    ensures
        ({
            let r = settings_for(command, watch, general);
            let told = if command.no_refresh {
                Some(false)
            } else if command.refresh {
                Some(true)
            } else {
                None
            };
            &&& command.pages is Some ==> r.pages == command.pages
            &&& command.pages is None && watch.pages is Some ==> r.pages == watch.pages
            &&& command.pages is None && watch.pages is None ==> r.pages == general.page_cap
            &&& command.budget matches Some(n) ==> r.budget == n
            &&& command.budget is None ==> (watch.budget matches Some(n) ==> r.budget == n)
            &&& command.budget is None && watch.budget is None ==> (
            general.sync_budget matches Some(n) ==> r.budget == n)
            &&& command.budget is None && watch.budget is None && general.sync_budget is None
                ==> r.budget == 300
            &&& told matches Some(flag) ==> r.refresh == flag
            &&& told is None ==> (watch.refresh matches Some(flag) ==> r.refresh == flag)
            &&& told is None && watch.refresh is None ==> (
            general.sync_refresh matches Some(flag) ==> r.refresh == flag)
            &&& told is None && watch.refresh is None && general.sync_refresh is None
                ==> !r.refresh
        }),
{
    let asked = cli::asked(command.refresh, command.no_refresh);
    lemma_first_of_three(command.pages, watch.pages, general.page_cap);
    lemma_first_of_three(command.budget, watch.budget, general.sync_budget);
    lemma_first_of_three(asked, watch.refresh, general.sync_refresh);
}

/// A change of a watch sets what it names and leaves the rest as it was.
pub proof fn law_changes_set_what_they_name(stored: WatchSettings, change: WatchSettings)
    ensures
        change.pages is Some ==> changed(stored, change).pages == change.pages,
        change.pages is None ==> changed(stored, change).pages == stored.pages,
        change.budget is Some ==> changed(stored, change).budget == change.budget,
        change.budget is None ==> changed(stored, change).budget == stored.budget,
        change.refresh is Some ==> changed(stored, change).refresh == change.refresh,
        change.refresh is None ==> changed(stored, change).refresh == stored.refresh,
{
}

/// What a command names is captured, each in its place, and what is watched only
/// where it names nothing.
pub proof fn law_named_targets_come_first(named: Seq<Seq<char>>, watched: Seq<Seq<char>>)
    ensures
        named.len() == 0 ==> targets_of(named, watched) == watched,
        named.len() > 0 ==> targets_of(named, watched).len() == named.len() && forall|i: int|
            0 <= i < named.len() ==> #[trigger] targets_of(named, watched)[i]
                == address::bare_subreddit(named[i]),
{
}

/// Posts and then comments are captured always, and the stored posts are
/// refreshed last, where that is wanted and more than feeds is read.
pub proof fn law_posts_and_comments_are_always_captured(refresh: bool, rss: bool)
    ensures
        streams_of(refresh, rss).len() >= 2,
        streams_of(refresh, rss)[0] == StreamKind::Posts,
        streams_of(refresh, rss)[1] == StreamKind::Comments,
        streams_of(refresh, rss).contains(StreamKind::Refresh) <==> refresh && !rss,
        !streams_of(refresh, rss).contains(StreamKind::Backfill),
        streams_of(refresh, rss).no_duplicates(),
{
    let all = streams_of(refresh, rss);
    if refresh && !rss {
        assert(all[2] == StreamKind::Refresh);
    }
}

/// The pages that a budget takes hold the budget, and one page less does not.
pub proof fn law_default_pages_hold_the_budget(budget: u32)
    ensures
        (page_cap(budget, None) - 1) * 100 < item_cap(budget) <= page_cap(budget, None) * 100,
{
}

// ---------------------------------------------------------------------------
// Steps
// ---------------------------------------------------------------------------

/// What a capture has done so far.
#[derive(Debug, Clone, Copy, PartialEq, Eq, Structural)]
pub struct SyncProgress {
    pub new_items: usize,
    pub updated_items: usize,
    pub http_requests: usize,
}

impl SyncProgress {
    /// Nothing done.
    pub open spec fn none() -> SyncProgress {
        SyncProgress { new_items: 0, updated_items: 0, http_requests: 0 }
    }

    /// One more request is made.
    pub open spec fn asked(self) -> SyncProgress {
        SyncProgress {
            http_requests: model::capped(self.http_requests as nat + 1),
            ..self
        }
    }

    /// Some more items are stored.
    pub open spec fn stored(self, stats: UpsertStats) -> SyncProgress {
        SyncProgress {
            new_items: model::capped(self.new_items as nat + stats.new_items as nat),
            updated_items: model::capped(self.updated_items as nat + stats.updated_items as nat),
            ..self
        }
    }

    /// Nothing done.
    pub fn nothing() -> (r: SyncProgress)
        ensures
            r == SyncProgress::none(),
    {
        SyncProgress { new_items: 0, updated_items: 0, http_requests: 0 }
    }

    /// Counts one more request.
    pub fn ask(self) -> (r: SyncProgress)
        ensures
            r == self.asked(),
    {
        SyncProgress { http_requests: self.http_requests.saturating_add(1), ..self }
    }

    /// Counts some more stored items.
    pub fn store(self, stats: UpsertStats) -> (r: SyncProgress)
        ensures
            r == self.stored(stats),
    {
        SyncProgress {
            new_items: self.new_items.saturating_add(stats.new_items),
            updated_items: self.updated_items.saturating_add(stats.updated_items),
            ..self
        }
    }
}

/// A capture that is over: its report, the newest thing it saw, and what went
/// wrong, if anything.
#[derive(Debug)]
pub struct SyncDone {
    pub report: SyncStreamReport,
    pub newest: Option<String>,
    pub failure: Option<RdtError>,
}

/// What a [`SyncDone`] holds.
pub struct DoneModel {
    pub report: ReportModel,
    pub newest: Option<Seq<char>>,
    pub failure: Option<ErrorModel>,
}

impl View for SyncDone {
    type V = DoneModel;

    open spec fn view(&self) -> DoneModel {
        DoneModel {
            report: self.report@,
            newest: text::opt(self.newest),
            failure: match self.failure {
                Some(e) => Some(e@),
                None => None,
            },
        }
    }
}

/// What a capture does next: ask for something, store something, or end.
#[derive(Debug)]
pub enum SyncStep<T> {
    Fetch { request: Request, sync: T },
    Store { items: Vec<RedditItem>, sync: T },
    Done(SyncDone),
}

/// What a [`SyncStep`] holds.
pub enum SyncStepModel<M> {
    Fetch { request: RequestModel, sync: M },
    Store { items: Seq<ItemModel>, sync: M },
    Done(DoneModel),
}

impl<T: View> View for SyncStep<T> {
    type V = SyncStepModel<T::V>;

    open spec fn view(&self) -> SyncStepModel<T::V> {
        match *self {
            SyncStep::Fetch { request, sync } => SyncStepModel::Fetch {
                request: request@,
                sync: sync@,
            },
            SyncStep::Store { items, sync } => SyncStepModel::Store {
                items: model::items_model(items@),
                sync: sync@,
            },
            SyncStep::Done(done) => SyncStepModel::Done(done@),
        }
    }
}

/// The end of a capture that went through.
pub open spec fn completed(
    subreddit: Seq<char>,
    kind: StreamKind,
    progress: SyncProgress,
    gap: bool,
    remaining_items: Option<usize>,
    newest: Option<Seq<char>>,
) -> DoneModel {
    DoneModel {
        report: ReportModel {
            subreddit: address::bare_subreddit(subreddit),
            kind,
            new_items: progress.new_items,
            updated_items: progress.updated_items,
            http_requests: progress.http_requests,
            status: store::status_word(gap),
            remaining_items,
            notice: None,
        },
        newest,
        failure: None,
    }
}

/// The end of a capture that failed. What it stored before stays counted, and
/// the newest thing it saw does not count.
pub open spec fn broken(
    subreddit: Seq<char>,
    kind: StreamKind,
    progress: SyncProgress,
    e: ErrorModel,
) -> DoneModel {
    DoneModel {
        report: ReportModel {
            subreddit: address::bare_subreddit(subreddit),
            kind,
            new_items: progress.new_items,
            updated_items: progress.updated_items,
            http_requests: progress.http_requests,
            status: "error"@,
            remaining_items: None,
            notice: Some(e.message()),
        },
        newest: None,
        failure: Some(e),
    }
}

/// Ends a capture that went through.
pub fn complete(
    subreddit: &str,
    kind: StreamKind,
    progress: SyncProgress,
    gap: bool,
    remaining_items: Option<usize>,
    newest: Option<String>,
) -> (r: SyncDone)
    ensures
        r@ == completed(subreddit@, kind, progress, gap, remaining_items, text::opt(newest)),
{
    SyncDone {
        report: SyncStreamReport {
            subreddit: store::normalize_subreddit(subreddit),
            kind,
            new_items: progress.new_items,
            updated_items: progress.updated_items,
            http_requests: progress.http_requests,
            status: store::status_text(gap),
            remaining_items,
            notice: None,
        },
        newest,
        failure: None,
    }
}

/// Ends a capture that failed.
pub fn break_off(subreddit: &str, kind: StreamKind, progress: SyncProgress, e: RdtError) -> (r:
    SyncDone)
    ensures
        r@ == broken(subreddit@, kind, progress, e@),
{
    SyncDone {
        report: SyncStreamReport {
            subreddit: store::normalize_subreddit(subreddit),
            kind,
            new_items: progress.new_items,
            updated_items: progress.updated_items,
            http_requests: progress.http_requests,
            status: "error".to_owned(),
            remaining_items: None,
            notice: Some(e.message()),
        },
        newest: None,
        failure: Some(e),
    }
}

/// What follows the end of a capture: the newest thing is remembered and the
/// report is shown, only the report is shown, or the run ends with a failure.
#[derive(Debug, Clone, Copy, PartialEq, Eq, Structural)]
pub enum FollowUp {
    Remember,
    Report,
    Fail,
}

impl DoneModel {
    /// What follows the end of a capture. Where only feeds are read, a failure
    /// is reported and the other captures go on.
    pub open spec fn follow_up(self, rss: bool) -> FollowUp {
        if self.failure is Some {
            if rss {
                FollowUp::Report
            } else {
                FollowUp::Fail
            }
        } else if self.report.kind == StreamKind::Refresh {
            FollowUp::Report
        } else {
            FollowUp::Remember
        }
    }

    /// The end of a capture whose newest thing could not be remembered: a
    /// failure, with what it stored counted.
    pub open spec fn failing(self, e: ErrorModel) -> DoneModel {
        DoneModel {
            report: ReportModel {
                status: "error"@,
                remaining_items: None,
                notice: Some(e.message()),
                ..self.report
            },
            newest: None,
            failure: Some(e),
        }
    }
}

impl SyncDone {
    /// Ends a capture whose newest thing could not be remembered.
    pub fn failed(self, e: RdtError) -> (r: SyncDone)
        ensures
            r@ == self@.failing(e@),
    {
        SyncDone {
            report: SyncStreamReport {
                status: "error".to_owned(),
                remaining_items: None,
                notice: Some(e.message()),
                ..self.report
            },
            newest: None,
            failure: Some(e),
        }
    }

    /// What follows the end of a capture.
    pub fn follow_up(&self, rss: bool) -> (r: FollowUp)
        ensures
            r == self@.follow_up(rss),
    {
        if self.failure.is_some() {
            if rss {
                FollowUp::Report
            } else {
                FollowUp::Fail
            }
        } else if self.report.kind == StreamKind::Refresh {
            FollowUp::Report
        } else {
            FollowUp::Remember
        }
    }
}

impl DoneModel {
    /// What a run has of a capture that is over and was logged or not: its
    /// report, or what went wrong first and what went wrong then. A failure of
    /// the capture comes before one of the logging.
    pub open spec fn outcome(self, rss: bool, logged: Result<(), ErrorModel>) -> Result<
        ReportModel,
        (ErrorModel, Option<ErrorModel>),
    > {
        match (self.failure, logged) {
            (None, Ok(_)) => Ok(self.report),
            (None, Err(e)) => Err((e, None)),
            (Some(e), Ok(_)) => if rss {
                Ok(self.report)
            } else {
                Err((e, None))
            },
            (Some(e), Err(later)) => Err((e, Some(later))),
        }
    }
}

/// What the outcome of a capture holds.
pub open spec fn run_outcome(
    r: Result<SyncStreamReport, (RdtError, Option<RdtError>)>,
) -> Result<ReportModel, (ErrorModel, Option<ErrorModel>)> {
    match r {
        Ok(report) => Ok(report@),
        Err((e, None)) => Err((e@, None)),
        Err((e, Some(later))) => Err((e@, Some(later@))),
    }
}

impl SyncDone {
    /// What a run has of a capture that is over and was logged or not.
    pub fn outcome(self, rss: bool, logged: Result<(), RdtError>) -> (r: Result<
        SyncStreamReport,
        (RdtError, Option<RdtError>),
    >)
        ensures
            run_outcome(r) == self@.outcome(
                rss,
                match logged {
                    Ok(_) => Ok::<(), ErrorModel>(()),
                    Err(e) => Err(e@),
                },
            ),
            r is Ok <==> logged is Ok && self@.follow_up(rss) != FollowUp::Fail,
    {
        let SyncDone { report, failure, .. } = self;
        match failure {
            None => match logged {
                Ok(_) => Ok(report),
                Err(e) => Err((e, None)),
            },
            Some(e) => match logged {
                Ok(_) => if rss {
                    Ok(report)
                } else {
                    Err((e, None))
                },
                Err(later) => Err((e, Some(later))),
            },
        }
    }
}

/// A capture that failed moves no mark, and ends a run unless only feeds are
/// read.
pub proof fn law_failures_move_no_mark(
    subreddit: Seq<char>,
    kind: StreamKind,
    progress: SyncProgress,
    e: ErrorModel,
    rss: bool,
)
    ensures
        broken(subreddit, kind, progress, e).newest is None,
        broken(subreddit, kind, progress, e).follow_up(rss) != FollowUp::Remember,
        broken(subreddit, kind, progress, e).follow_up(rss) == FollowUp::Fail <==> !rss,
{
}

// ---------------------------------------------------------------------------
// Streams
// ---------------------------------------------------------------------------

/// The listing that a stream reads.
pub open spec fn listing_of(kind: StreamKind) -> Seq<char> {
    if kind == StreamKind::Comments {
        "comments"@
    } else {
        "new"@
    }
}

fn listing_name(kind: StreamKind) -> (r: &'static str)
    ensures
        r@ == listing_of(kind),
{
    if kind == StreamKind::Comments {
        "comments"
    } else {
        "new"
    }
}

/// A capture of the newest posts or comments of a subreddit, page by page.
pub struct StreamSync {
    subreddit: String,
    kind: StreamKind,
    remaining: usize,
    page_cap: usize,
    cursor: Option<String>,
    newest: Option<String>,
    progress: SyncProgress,
    taken: usize,
}

/// What a [`StreamSync`] holds: how many items may still be read, how many
/// pages may be read, where the next page begins, the newest thing seen, and
/// how many items of the last page are to be stored.
pub struct StreamModel {
    pub subreddit: Seq<char>,
    pub kind: StreamKind,
    pub remaining: usize,
    pub page_cap: usize,
    pub cursor: Option<Seq<char>>,
    pub newest: Option<Seq<char>>,
    pub progress: SyncProgress,
    pub taken: usize,
}

impl View for StreamSync {
    type V = StreamModel;

    closed spec fn view(&self) -> StreamModel {
        StreamModel {
            subreddit: self.subreddit@,
            kind: self.kind,
            remaining: self.remaining,
            page_cap: self.page_cap,
            cursor: text::opt(self.cursor),
            newest: text::opt(self.newest),
            progress: self.progress,
            taken: self.taken,
        }
    }
}

/// How many items a page holds that a capture stores.
pub fn sync_relevant_len(kind: StreamKind, items: &Vec<RedditItem>) -> (r: usize)
    ensures
        r == store::relevant(kind, model::items_model(items@)).len(),
{
    let ghost all = model::items_model(items@);
    let mut n: usize = 0;
    let mut i: usize = 0;
    assert(all.take(0) =~= Seq::empty());
    while i < items.len()
        invariant
            i <= items@.len(),
            n <= i,
            all == model::items_model(items@),
            n == store::relevant(kind, all.take(i as int)).len(),
        decreases items@.len() - i,
    {
        proof {
            let t = all.take(i + 1);
            assert(t.drop_last() =~= all.take(i as int));
            assert(t.last() == items@[i as int]@);
        }
        if kind.takes(&items[i]) {
            n = n + 1;
        }
        i = i + 1;
    }
    assert(all.take(all.len() as int) =~= all);
    n
}

/// The items to ask for in one page.
pub open spec fn page_size(remaining: usize) -> u32 {
    if remaining < 100 {
        remaining as u32
    } else {
        100
    }
}

impl StreamModel {
    /// A capture that has done nothing.
    pub open spec fn begin(
        subreddit: Seq<char>,
        kind: StreamKind,
        budget: u32,
        pages: Option<u32>,
    ) -> StreamModel {
        StreamModel {
            subreddit,
            kind,
            remaining: item_cap(budget),
            page_cap: page_cap(budget, pages),
            cursor: None,
            newest: None,
            progress: SyncProgress::none(),
            taken: 0,
        }
    }

    /// The end: where a page is left to be read, there is a gap.
    pub open spec fn end(self) -> DoneModel {
        completed(
            self.subreddit,
            self.kind,
            self.progress,
            self.cursor is Some,
            None,
            self.newest,
        )
    }

    /// Asks for the next page, while pages and items may be read.
    pub open spec fn turn(self) -> SyncStepModel<StreamModel> {
        if self.progress.http_requests < self.page_cap && self.remaining > 0 {
            let next = StreamModel { progress: self.progress.asked(), ..self };
            match listing::page_request(
                self.subreddit,
                listing_of(self.kind),
                page_size(self.remaining),
                self.cursor,
            ) {
                Ok(request) => SyncStepModel::Fetch { request, sync: next },
                Err(e) => SyncStepModel::Done(
                    broken(self.subreddit, self.kind, next.progress, e),
                ),
            }
        } else {
            SyncStepModel::Done(self.end())
        }
    }

    /// What follows a page: nothing where it is empty, else its items of the
    /// right kind are stored. The first page tells the newest thing.
    pub open spec fn paged(self, value: JsonModel) -> SyncStepModel<StreamModel> {
        let page = parse::listing_page(value);
        let seen = StreamModel {
            newest: if self.progress.http_requests == 1 {
                if page.items.len() > 0 {
                    Some(page.items[0].fullname)
                } else {
                    None
                }
            } else {
                self.newest
            },
            ..self
        };
        if page.items.len() == 0 {
            SyncStepModel::Done(StreamModel { cursor: None, ..seen }.end())
        } else {
            SyncStepModel::Store {
                items: store::relevant(self.kind, page.items),
                sync: StreamModel {
                    cursor: page.after,
                    taken: store::relevant(self.kind, page.items).len() as usize,
                    ..seen
                },
            }
        }
    }

    /// What follows an answer, or the lack of one.
    pub open spec fn after(
        self,
        answer: Result<Seq<char>, ErrorModel>,
    ) -> SyncStepModel<StreamModel> {
        match answer {
            Ok(body) => match listing::document(body) {
                Ok(value) => self.paged(value),
                Err(e) => SyncStepModel::Done(
                    broken(self.subreddit, self.kind, self.progress, e),
                ),
            },
            Err(e) => SyncStepModel::Done(broken(self.subreddit, self.kind, self.progress, e)),
        }
    }

    /// What follows the storing of a page: nothing where every item was stored
    /// before or there is no further page, else the next page.
    pub open spec fn stored(self, stats: UpsertStats) -> SyncStepModel<StreamModel> {
        let next = StreamModel {
            remaining: if self.remaining >= self.taken {
                (self.remaining - self.taken) as usize
            } else {
                0
            },
            progress: self.progress.stored(stats),
            ..self
        };
        if stats.known == self.taken || self.cursor is None {
            SyncStepModel::Done(StreamModel { cursor: None, ..next }.end())
        } else {
            next.turn()
        }
    }
}

impl StreamSync {
    /// Begins a capture of posts or comments.
    pub fn begin(
        client: &RedditClient,
        subreddit: &str,
        kind: StreamKind,
        budget: u32,
        pages: Option<u32>,
    ) -> (r: SyncStep<StreamSync>)
        requires
            kind == StreamKind::Posts || kind == StreamKind::Comments,
        ensures
            r@ == StreamModel::begin(subreddit@, kind, budget, pages).turn(),
            r matches SyncStep::Fetch { request, .. } ==> request@.on_site(),
    {
        let sync = StreamSync {
            subreddit: subreddit.to_owned(),
            kind,
            remaining: cap_items(budget),
            page_cap: cap_pages(budget, pages),
            cursor: None,
            newest: None,
            progress: SyncProgress::nothing(),
            taken: 0,
        };
        sync.turn(client)
    }

    fn end(self) -> (r: SyncDone)
        ensures
            r@ == self@.end(),
    {
        let gap = self.cursor.is_some();
        complete(self.subreddit.as_str(), self.kind, self.progress, gap, None, self.newest)
    }

    fn turn(self, client: &RedditClient) -> (r: SyncStep<StreamSync>)
        ensures
            r@ == self@.turn(),
            r matches SyncStep::Fetch { request, .. } ==> request@.on_site(),
    {
        let ghost was = self@;
        let mut sync = self;
        if !(sync.progress.http_requests < sync.page_cap && sync.remaining > 0) {
            return SyncStep::Done(sync.end());
        }
        let limit: u32 = if sync.remaining < 100 {
            sync.remaining as u32
        } else {
            100
        };
        sync.progress = sync.progress.ask();
        let asked = {
            let after: Option<&str> = match &sync.cursor {
                Some(cursor) => Some(cursor.as_str()),
                None => None,
            };
            client.sync_listing_page(
                sync.subreddit.as_str(),
                listing_name(sync.kind),
                limit,
                after,
            )
        };
        assert(sync@ == (StreamModel { progress: was.progress.asked(), ..was }));
        match asked {
            Ok(request) => SyncStep::Fetch { request, sync },
            Err(e) => SyncStep::Done(
                break_off(sync.subreddit.as_str(), sync.kind, sync.progress, e),
            ),
        }
    }

    /// Decides what follows an answer, or the lack of one.
    pub fn answered(self, answer: Result<String, RdtError>) -> (r: SyncStep<StreamSync>)
        ensures
            r@ == self@.after(error::outcome(answer)),
    {
        let mut sync = self;
        let body = match answer {
            Ok(body) => body,
            Err(e) => {
                return SyncStep::Done(
                    break_off(sync.subreddit.as_str(), sync.kind, sync.progress, e),
                );
            },
        };
        let page = match json::decode_json(body.as_str()) {
            Ok(value) => parse::parse_listing_page(&value),
            Err(e) => {
                return SyncStep::Done(
                    break_off(sync.subreddit.as_str(), sync.kind, sync.progress, e),
                );
            },
        };
        assert(page@.items.len() == page.items@.len());
        if sync.progress.http_requests == 1 {
            sync.newest = if page.items.len() > 0 {
                assert(page@.items[0] == page.items@[0]@);
                Some(page.items[0].fullname.clone())
            } else {
                None
            };
        }
        if page.items.len() == 0 {
            sync.cursor = None;
            return SyncStep::Done(sync.end());
        }
        sync.taken = sync_relevant_len(sync.kind, &page.items);
        sync.cursor = page.after;
        SyncStep::Store { items: store::relevant_items(sync.kind, page.items), sync }
    }

    /// Decides what follows the storing of a page.
    pub fn stored(self, client: &RedditClient, stats: UpsertStats) -> (r: SyncStep<StreamSync>)
        ensures
            r@ == self@.stored(stats),
            r matches SyncStep::Fetch { request, .. } ==> request@.on_site(),
    {
        let mut sync = self;
        sync.progress = sync.progress.store(stats);
        sync.remaining = sync.remaining.saturating_sub(sync.taken);
        if stats.known == sync.taken || sync.cursor.is_none() {
            sync.cursor = None;
            SyncStep::Done(sync.end())
        } else {
            sync.turn(client)
        }
    }

    /// Ends the capture where its items could not be stored.
    pub fn failed(self, e: RdtError) -> (r: SyncDone)
        ensures
            r@ == broken(self@.subreddit, self@.kind, self@.progress, e@),
    {
        break_off(self.subreddit.as_str(), self.kind, self.progress, e)
    }
}

/// A capture makes no more requests than pages may be read.
pub proof fn law_streams_stay_within_their_pages(sync: StreamModel, stats: UpsertStats)
    requires
        sync.progress.http_requests <= sync.page_cap,
    ensures
        sync.turn() matches SyncStepModel::Fetch { sync: next, .. } ==> next.progress.http_requests
            <= next.page_cap && next.page_cap == sync.page_cap,
        sync.stored(stats) matches SyncStepModel::Fetch { sync: next, .. }
            ==> next.progress.http_requests <= next.page_cap && next.page_cap == sync.page_cap
            && next.progress.http_requests > sync.progress.http_requests,
{
}

/// A capture that went through leaves a gap only where it may read no more
/// pages or items.
pub proof fn law_gaps_come_from_the_caps(sync: StreamModel, stats: UpsertStats)
    ensures
        sync.stored(stats) matches SyncStepModel::Done(done) && done.failure is None
            && done.report.status == "gap"@ ==> sync.progress.http_requests >= sync.page_cap
            || sync.remaining <= sync.taken,
{
    reveal_strlit("gap");
    reveal_strlit("ok");
    assert("gap"@.len() != "ok"@.len());
}

/// A page that a capture read, and what became of its items.
pub struct ReadPage {
    pub value: JsonModel,
    pub stats: UpsertStats,
}

/// What a capture does after some pages were read and stored, one after
/// another.
pub open spec fn after_pages(
    step: SyncStepModel<StreamModel>,
    read: Seq<ReadPage>,
) -> SyncStepModel<StreamModel>
    decreases read.len(),
{
    if read.len() == 0 {
        step
    } else {
        match after_pages(step, read.drop_last()) {
            SyncStepModel::Fetch { sync, .. } => match sync.paged(read.last().value) {
                SyncStepModel::Store { sync: kept, .. } => kept.stored(read.last().stats),
                other => other,
            },
            other => other,
        }
    }
}

/// How many items of a kind a page holds.
pub open spec fn held_on(value: JsonModel, kind: ItemKind) -> nat {
    parse::listing_page(value).items.filter(|item: ItemModel| item.kind == kind).len()
}

/// How many items of a kind some pages hold.
pub open spec fn held(read: Seq<ReadPage>, kind: ItemKind) -> nat
    decreases read.len(),
{
    if read.len() == 0 {
        0
    } else {
        held(read.drop_last(), kind) + held_on(read.last().value, kind)
    }
}

/// How many items of some pages were stored for the first time.
pub open spec fn new_in(read: Seq<ReadPage>) -> nat
    decreases read.len(),
{
    if read.len() == 0 {
        0
    } else {
        new_in(read.drop_last()) + read.last().stats.new_items as nat
    }
}

/// How many items of some pages were stored again.
pub open spec fn updated_in(read: Seq<ReadPage>) -> nat
    decreases read.len(),
{
    if read.len() == 0 {
        0
    } else {
        updated_in(read.drop_last()) + read.last().stats.updated_items as nat
    }
}

/// A page after which a capture goes on: it holds something, tells of a further
/// page, and not all that is captured of it was known.
pub open spec fn leads_on(page: ReadPage, kind: ItemKind) -> bool {
    &&& parse::listing_page(page.value).items.len() > 0
    &&& parse::listing_page(page.value).after is Some
    &&& page.stats.known != held_on(page.value, kind)
}

/// Every page holds no more items than can be counted.
pub open spec fn countable(read: Seq<ReadPage>) -> bool {
    forall|i: int|
        0 <= i < read.len() ==> parse::listing_page((#[trigger] read[i]).value).items.len()
            <= usize::MAX
}

proof fn lemma_captured(sync: StreamModel, value: JsonModel, kind: ItemKind)
    requires
        sync.kind == StreamKind::Posts && kind == ItemKind::Post || sync.kind
            == StreamKind::Comments && kind == ItemKind::Comment,
    ensures
        store::relevant(sync.kind, parse::listing_page(value).items)
            == parse::listing_page(value).items.filter(|item: ItemModel| item.kind == kind),
        store::relevant(sync.kind, parse::listing_page(value).items).len() == held_on(value, kind),
        held_on(value, kind) <= parse::listing_page(value).items.len(),
{
    let items = parse::listing_page(value).items;
    store::law_captures_store_their_kind(items);
    items.lemma_filter_len(|item: ItemModel| item.kind == kind);
    if kind == ItemKind::Post {
        assert(items.filter(|item: ItemModel| item.kind == kind) == items.filter(
            |item: ItemModel| item.kind == ItemKind::Post,
        )) by {
            assert((|item: ItemModel| item.kind == kind) =~= (|item: ItemModel|
                item.kind == ItemKind::Post));
        }
    } else {
        assert(items.filter(|item: ItemModel| item.kind == kind) == items.filter(
            |item: ItemModel| item.kind == ItemKind::Comment,
        )) by {
            assert((|item: ItemModel| item.kind == kind) =~= (|item: ItemModel|
                item.kind == ItemKind::Comment));
        }
    }
}

/// A page that was read is stored as far as it is of the captured kind, and
/// ends the capture without a gap where it is empty. The first page tells the
/// newest thing, whatever its kind, and no later page does.
pub proof fn law_pages_are_stored_whole(sync: StreamModel, value: JsonModel, kind: ItemKind)
    requires
        sync.kind == StreamKind::Posts && kind == ItemKind::Post || sync.kind
            == StreamKind::Comments && kind == ItemKind::Comment,
        parse::listing_page(value).items.len() <= usize::MAX,
    ensures
        ({
            let items = parse::listing_page(value).items;
            if items.len() == 0 {
                &&& sync.paged(value) matches SyncStepModel::Done(done)
                &&& done.failure is None
                &&& done.report.status == "ok"@
                &&& done.report.new_items == sync.progress.new_items
                &&& done.report.updated_items == sync.progress.updated_items
                &&& done.report.http_requests == sync.progress.http_requests
                &&& sync.progress.http_requests == 1 ==> done.newest is None
                &&& sync.progress.http_requests != 1 ==> done.newest == sync.newest
            } else {
                &&& sync.paged(value) matches SyncStepModel::Store { items: stored, sync: next }
                &&& stored == items.filter(|item: ItemModel| item.kind == kind)
                &&& next.taken == stored.len()
                &&& next.cursor == parse::listing_page(value).after
                &&& next.remaining == sync.remaining
                &&& next.page_cap == sync.page_cap
                &&& next.progress == sync.progress
                &&& next.subreddit == sync.subreddit
                &&& next.kind == sync.kind
                &&& sync.progress.http_requests == 1 ==> next.newest == Some(items[0].fullname)
                &&& sync.progress.http_requests != 1 ==> next.newest == sync.newest
            }
        }),
{
    lemma_captured(sync, value, kind);
}

/// After a page is stored, the items that may still be read are fewer by those
/// of the page that are captured, whatever part of them was known before. The
/// capture ends without a gap where all of them were known or no further page
/// is told of, ends with a gap where no more pages or items may be read, and
/// else asks for the next page.
pub proof fn law_stored_pages_use_up_the_budget(sync: StreamModel, stats: UpsertStats)
    requires
        address::named_subreddit(sync.subreddit) is Ok,
    ensures
        ({
            let over = stats.known == sync.taken || sync.cursor is None;
            let spent = sync.progress.http_requests >= sync.page_cap || sync.remaining
                <= sync.taken;
            &&& over || spent ==> {
                &&& sync.stored(stats) matches SyncStepModel::Done(done)
                &&& done.failure is None
                &&& done.report.status == if over {
                    "ok"@
                } else {
                    "gap"@
                }
                &&& done.newest == sync.newest
                &&& done.report.kind == sync.kind
                &&& done.report.http_requests == sync.progress.http_requests
                &&& done.report.remaining_items is None
                &&& done.report.notice is None
            }
            &&& !over && !spent ==> {
                &&& sync.stored(stats) matches SyncStepModel::Fetch { sync: next, .. }
                &&& next.remaining + sync.taken == sync.remaining
                &&& next.cursor == sync.cursor
                &&& next.newest == sync.newest
                &&& next.page_cap == sync.page_cap
                &&& next.kind == sync.kind
                &&& next.subreddit == sync.subreddit
                &&& next.progress.http_requests == sync.progress.http_requests + 1
            }
        }),
{
    reveal_strlit("new");
    reveal_strlit("comments");
}

/// A capture asks for a further page exactly while the pages read hold fewer
/// items of the captured kind than may be read, known before or not, fewer pages
/// were read than may be, and each page read leads on. It then asks for what is
/// left, behind the last page, and has counted what the pages stored.
pub proof fn law_captures_read_no_more_than_the_budget(
    subreddit: Seq<char>,
    stream: StreamKind,
    kind: ItemKind,
    budget: u32,
    pages: Option<u32>,
    read: Seq<ReadPage>,
)
    requires
        stream == StreamKind::Posts && kind == ItemKind::Post || stream == StreamKind::Comments
            && kind == ItemKind::Comment,
        address::named_subreddit(subreddit) is Ok,
        countable(read),
        new_in(read) <= usize::MAX,
        updated_in(read) <= usize::MAX,
    ensures
        ({
            let step = after_pages(
                StreamModel::begin(subreddit, stream, budget, pages).turn(),
                read,
            );
            let items = if budget == 0 {
                1
            } else {
                budget as int
            };
            let most = match pages {
                Some(n) => if n == 0 {
                    1
                } else {
                    n as int
                },
                None => (items + 99) / 100,
            };
            &&& step is Fetch <==> (read.len() < most && held(read, kind) < items && forall|i: int|
                0 <= i < read.len() ==> leads_on(#[trigger] read[i], kind))
            &&& step matches SyncStepModel::Fetch { request, sync } ==> {
                let left = items - held(read, kind);
                &&& sync.remaining == left
                &&& sync.subreddit == subreddit
                &&& sync.kind == stream
                &&& sync.page_cap == most
                &&& sync.progress.http_requests == read.len() + 1
                &&& sync.progress.new_items == new_in(read)
                &&& sync.progress.updated_items == updated_in(read)
                &&& sync.newest == if read.len() == 0 {
                    None
                } else {
                    Some(parse::listing_page(read[0].value).items[0].fullname)
                }
                &&& request.path == "/r/"@ + address::named_subreddit(subreddit)->Ok_0 + "/"@ + (
                if kind == ItemKind::Comment {
                    "comments"@
                } else {
                    "new"@
                }) + "."@ + "json"@
                &&& !request.rss
                &&& request.params == (seq![
                    (
                        "limit"@,
                        number::decimal(
                            (if left < 100 {
                                left
                            } else {
                                100
                            }) as nat,
                        ),
                    ),
                ] + (if read.len() == 0 {
                    Seq::empty()
                } else {
                    seq![("after"@, parse::listing_page(read.last().value).after->0)]
                })).push(("raw_json"@, "1"@))
            }
        }),
    decreases read.len(),
{
    reveal_strlit("new");
    reveal_strlit("comments");
    let first = StreamModel::begin(subreddit, stream, budget, pages);
    if read.len() > 0 {
        let front = read.drop_last();
        let page = read.last();
        assert forall|i: int| 0 <= i < front.len() implies parse::listing_page(
            (#[trigger] front[i]).value,
        ).items.len() <= usize::MAX by {
            assert(front[i] == read[i]);
        }
        law_captures_read_no_more_than_the_budget(subreddit, stream, kind, budget, pages, front);
        assert((forall|i: int| 0 <= i < read.len() ==> leads_on(#[trigger] read[i], kind)) <==> (
        leads_on(page, kind) && forall|i: int|
            0 <= i < front.len() ==> leads_on(#[trigger] front[i], kind))) by {
            assert forall|i: int| 0 <= i < front.len() implies front[i] == #[trigger] read[i] by {}
            if leads_on(page, kind) && (forall|i: int|
                0 <= i < front.len() ==> leads_on(#[trigger] front[i], kind)) {
                assert forall|i: int| 0 <= i < read.len() implies leads_on(
                    #[trigger] read[i],
                    kind,
                ) by {
                    if i < front.len() {
                        assert(leads_on(front[i], kind));
                    }
                }
            }
            if forall|i: int| 0 <= i < read.len() ==> leads_on(#[trigger] read[i], kind) {
                assert(leads_on(read[read.len() - 1], kind));
                assert forall|i: int| 0 <= i < front.len() implies leads_on(
                    #[trigger] front[i],
                    kind,
                ) by {
                    assert(leads_on(read[i], kind));
                }
            }
        }
        match after_pages(first.turn(), front) {
            SyncStepModel::Fetch { sync, .. } => {
                lemma_captured(sync, page.value, kind);
                assert(parse::listing_page(page.value).items.len() <= usize::MAX) by {
                    assert(page == read[read.len() - 1]);
                }
                if front.len() > 0 {
                    assert(front[0] == read[0]);
                }
            },
            _ => {},
        }
    }
    match after_pages(first.turn(), read) {
        SyncStepModel::Fetch { request, sync } => {
            let base = seq![
                (
                    "limit"@,
                    number::decimal(listing::page_limit(page_size(sync.remaining)) as nat),
                ),
            ];
            if read.len() > 0 {
                let cursor = parse::listing_page(read.last().value).after->0;
                assert(request.params =~= (base + seq![("after"@, cursor)]).push(
                    ("raw_json"@, "1"@),
                ));
            } else {
                assert(request.params =~= (base + Seq::empty()).push(("raw_json"@, "1"@)));
            }
        },
        _ => {},
    }
}

/// A page asks for no more items than may still be read, and for no more than
/// a hundred.
pub proof fn law_pages_stay_within_the_budget(remaining: usize)
    ensures
        page_size(remaining) <= remaining,
        page_size(remaining) <= 100,
{
}

// ---------------------------------------------------------------------------
// Feeds
// ---------------------------------------------------------------------------

/// The id after a prefix such as `t3_`.
pub open spec fn prefixed_id(name: Seq<char>, prefix: Seq<char>) -> Option<Seq<char>> {
    match text::strip_prefix(name, prefix) {
        Some(id) if id.len() > 0 && text::all_alphanumeric(id) => Some(id),
        _ => None,
    }
}

/// The pieces of a permalink after `/comments/`: the post, its title and a
/// comment.
pub open spec fn permalink_pieces(link: Seq<char>) -> Seq<Seq<char>> {
    match text::find(link, "/comments/"@) {
        Some(i) => text::split(link.skip(i + 10), '/'),
        None => Seq::empty(),
    }
}

/// The id at a position of a permalink.
pub open spec fn linked_id(link: Option<Seq<char>>, i: int) -> Option<Seq<char>> {
    match link {
        Some(l) => {
            let pieces = permalink_pieces(l);
            if i < pieces.len() && pieces[i].len() > 0 && text::all_alphanumeric(pieces[i]) {
                Some(pieces[i])
            } else {
                None
            }
        },
        None => None,
    }
}

fn id_after(name: &str, prefix: &str) -> (r: Option<String>)
    ensures
        text::opt(r) == prefixed_id(name@, prefix@),
{
    let chars = text::chars_of(name);
    match text::cut_prefix(&chars, &text::chars_of(prefix)) {
        Some(id) => if id.len() > 0 && text::is_all_alphanumeric(id) {
            Some(text::string_of(id))
        } else {
            None
        },
        None => None,
    }
}

fn id_in_link(link: &Option<String>, i: usize) -> (r: Option<String>)
    ensures
        text::opt(r) == linked_id(text::opt(*link), i as int),
{
    proof {
        reveal_strlit("/comments/");
    }
    match link {
        Some(l) => {
            let chars = text::chars_of(l.as_str());
            let total: usize = chars.len();
            match text::position(&chars, &text::chars_of("/comments/")) {
                Some(at) => {
                    let rest = &chars[at + 10..total];
                    assert(rest@ =~= l@.skip(at + 10));
                    let pieces = text::split_at_char(rest, '/');
                    assert(pieces@.len() == permalink_pieces(l@).len());
                    if i < pieces.len() {
                        let piece = text::chars_of(pieces[i].as_str());
                        assert(piece@ == permalink_pieces(l@)[i as int]);
                        if piece.len() > 0 && text::is_all_alphanumeric(&piece) {
                            return Some(pieces[i].clone());
                        }
                    }
                    None
                },
                None => None,
            }
        },
        None => None,
    }
}

/// A thing in a feed, named as JSON names it: by its id, from the id of its
/// entry or from its permalink. A comment keeps its post where the permalink
/// tells it. `None` where neither tells an id.
pub open spec fn named_entry(kind: StreamKind, entry: ItemModel) -> Option<ItemModel> {
    if kind == StreamKind::Comments {
        match store::kept(prefixed_id(entry.id, "t1_"@), linked_id(entry.permalink, 2)) {
            Some(id) => Some(
                ItemModel {
                    kind: ItemKind::Comment,
                    id,
                    fullname: "t1_"@ + id,
                    post_id: linked_id(entry.permalink, 0),
                    ..entry
                },
            ),
            None => None,
        }
    } else {
        match store::kept(prefixed_id(entry.id, "t3_"@), linked_id(entry.permalink, 0)) {
            Some(id) => Some(
                ItemModel {
                    kind: ItemKind::Post,
                    id,
                    fullname: "t3_"@ + id,
                    post_id: Some(id),
                    ..entry
                },
            ),
            None => None,
        }
    }
}

/// The things in a feed, named as JSON names them.
pub open spec fn named_entries(kind: StreamKind, entries: Seq<ItemModel>) -> Seq<ItemModel>
    decreases entries.len(),
{
    if entries.len() == 0 {
        Seq::empty()
    } else {
        match named_entry(kind, entries.last()) {
            Some(item) => named_entries(kind, entries.drop_last()).push(item),
            None => named_entries(kind, entries.drop_last()),
        }
    }
}

/// Names a thing in a feed as JSON names it.
pub fn name_entry(kind: StreamKind, entry: RedditItem) -> (r: Option<RedditItem>)
    ensures
        model::opt_item(r) == named_entry(kind, entry@),
{
    let comment = kind == StreamKind::Comments;
    let (prefix, place): (&str, usize) = if comment {
        ("t1_", 2)
    } else {
        ("t3_", 0)
    };
    let told = id_after(entry.id.as_str(), prefix);
    let found = if told.is_some() {
        told
    } else {
        id_in_link(&entry.permalink, place)
    };
    match found {
        Some(id) => {
            let mut fullname = prefix.to_owned();
            fullname.push_str(id.as_str());
            if comment {
                let post_id = id_in_link(&entry.permalink, 0);
                Some(RedditItem { kind: ItemKind::Comment, id, fullname, post_id, ..entry })
            } else {
                let post_id = Some(id.clone());
                Some(RedditItem { kind: ItemKind::Post, id, fullname, post_id, ..entry })
            }
        },
        None => None,
    }
}

/// Names the things in a feed as JSON names them.
pub fn name_entries(kind: StreamKind, entries: Vec<RedditItem>) -> (r: Vec<RedditItem>)
    ensures
        model::items_model(r@) == named_entries(kind, model::items_model(entries@)),
{
    let ghost all = model::items_model(entries@);
    let mut out: Vec<RedditItem> = Vec::new();
    assert(all.take(0) =~= Seq::empty());
    assert(model::items_model(out@) =~= Seq::empty());
    for entry in it: entries
        invariant
            it.seq() == entries@,
            all == model::items_model(entries@),
            model::items_model(out@) == named_entries(kind, all.take(it.index())),
    {
        let ghost t = all.take(it.index() + 1);
        let ghost had = model::items_model(out@);
        proof {
            assert(t.drop_last() =~= all.take(it.index()));
            assert(t.last() == entry@);
        }
        match name_entry(kind, entry) {
            Some(item) => {
                let ghost one = item@;
                out.push(item);
                assert(model::items_model(out@) =~= had.push(one));
            },
            None => {},
        }
    }
    assert(all.take(all.len() as int) =~= all);
    out
}

/// A capture of the newest posts or comments of a subreddit from a feed, which
/// has one page.
pub struct FeedSync {
    subreddit: String,
    kind: StreamKind,
    limit: u32,
    newest: Option<String>,
    progress: SyncProgress,
    full: bool,
}

/// What a [`FeedSync`] holds.
pub struct FeedSyncModel {
    pub subreddit: Seq<char>,
    pub kind: StreamKind,
    pub limit: u32,
    pub newest: Option<Seq<char>>,
    pub progress: SyncProgress,
    pub full: bool,
}

impl View for FeedSync {
    type V = FeedSyncModel;

    closed spec fn view(&self) -> FeedSyncModel {
        FeedSyncModel {
            subreddit: self.subreddit@,
            kind: self.kind,
            limit: self.limit,
            newest: text::opt(self.newest),
            progress: self.progress,
            full: self.full,
        }
    }
}

impl FeedSyncModel {
    /// Asks for the feed.
    pub open spec fn begin(
        subreddit: Seq<char>,
        kind: StreamKind,
        budget: u32,
    ) -> SyncStepModel<FeedSyncModel> {
        let sync = FeedSyncModel {
            subreddit,
            kind,
            limit: page_size(item_cap(budget)),
            newest: None,
            progress: SyncProgress::none().asked(),
            full: false,
        };
        match address::named_subreddit(subreddit) {
            Ok(name) => SyncStepModel::Fetch {
                request: RequestModel::feed(
                    listing::page_under("/r/"@, name, listing_of(kind), "rss"@),
                    seq![("limit"@, number::decimal(sync.limit as nat))],
                ),
                sync,
            },
            Err(e) => SyncStepModel::Done(broken(subreddit, kind, sync.progress, e)),
        }
    }

    /// What follows an answer, or the lack of one: its things are stored. A
    /// feed that holds as much as was asked for may leave something out.
    pub open spec fn after(
        self,
        answer: Result<Seq<char>, ErrorModel>,
    ) -> SyncStepModel<FeedSyncModel> {
        match answer {
            Ok(body) => match atom::feed_items(FeedModel::start(), atom::met_in(body)) {
                Ok(entries) => {
                    let items = named_entries(self.kind, entries);
                    SyncStepModel::Store {
                        items,
                        sync: FeedSyncModel {
                            newest: if items.len() > 0 {
                                Some(items[0].fullname)
                            } else {
                                None
                            },
                            full: entries.len() >= self.limit,
                            ..self
                        },
                    }
                },
                Err(e) => SyncStepModel::Done(
                    broken(self.subreddit, self.kind, self.progress, e),
                ),
            },
            Err(e) => SyncStepModel::Done(broken(self.subreddit, self.kind, self.progress, e)),
        }
    }

    /// The end.
    pub open spec fn stored(self, stats: UpsertStats) -> DoneModel {
        completed(
            self.subreddit,
            self.kind,
            self.progress.stored(stats),
            self.full,
            None,
            self.newest,
        )
    }
}

impl FeedSync {
    /// Begins a capture of posts or comments from a feed.
    pub fn begin(subreddit: &str, kind: StreamKind, budget: u32) -> (r: SyncStep<FeedSync>)
        requires
            kind == StreamKind::Posts || kind == StreamKind::Comments,
        ensures
            r@ == FeedSyncModel::begin(subreddit@, kind, budget),
            r matches SyncStep::Fetch { request, .. } ==> request@.on_site(),
    {
        let items: usize = cap_items(budget);
        let limit: u32 = if items < 100 {
            items as u32
        } else {
            100
        };
        let progress = SyncProgress::nothing().ask();
        let name = match address::subreddit_segment(subreddit) {
            Ok(name) => name,
            Err(e) => {
                return SyncStep::Done(break_off(subreddit, kind, progress, e));
            },
        };
        proof {
            reveal_strlit("/r/");
        }
        let mut params = transport::no_params();
        transport::add_param(&mut params, "limit", number::u64_text(limit as u64).as_str());
        assert(web::params_model(params@) =~= seq![("limit"@, number::decimal(limit as nat))]);
        let path = listing::path_under("/r/", name.as_str(), listing_name(kind), "rss");
        let request = Request::feed(path, params);
        proof {
            transport::law_rooted_requests_go_to_the_site(request@);
        }
        SyncStep::Fetch {
            request,
            sync: FeedSync {
                subreddit: subreddit.to_owned(),
                kind,
                limit,
                newest: None,
                progress,
                full: false,
            },
        }
    }

    /// Decides what follows an answer, or the lack of one.
    pub fn answered(self, answer: Result<String, RdtError>) -> (r: SyncStep<FeedSync>)
        ensures
            r@ == self@.after(error::outcome(answer)),
    {
        let mut sync = self;
        let body = match answer {
            Ok(body) => body,
            Err(e) => {
                return SyncStep::Done(
                    break_off(sync.subreddit.as_str(), sync.kind, sync.progress, e),
                );
            },
        };
        match atom::parse_atom_entries(body.as_str()) {
            Ok(entries) => {
                assert(entries@.len() == model::items_model(entries@).len());
                sync.full = entries.len() as u64 >= sync.limit as u64;
                let items = name_entries(sync.kind, entries);
                assert(items@.len() == model::items_model(items@).len());
                sync.newest = if items.len() > 0 {
                    assert(model::items_model(items@)[0] == items@[0]@);
                    Some(items[0].fullname.clone())
                } else {
                    None
                };
                SyncStep::Store { items, sync }
            },
            Err(e) => SyncStep::Done(
                break_off(sync.subreddit.as_str(), sync.kind, sync.progress, e),
            ),
        }
    }

    /// Ends the capture.
    pub fn stored(self, stats: UpsertStats) -> (r: SyncDone)
        ensures
            r@ == self@.stored(stats),
    {
        complete(
            self.subreddit.as_str(),
            self.kind,
            self.progress.store(stats),
            self.full,
            None,
            self.newest,
        )
    }

    /// Ends the capture where its items could not be stored.
    pub fn failed(self, e: RdtError) -> (r: SyncDone)
        ensures
            r@ == broken(self@.subreddit, self@.kind, self@.progress, e@),
    {
        break_off(self.subreddit.as_str(), self.kind, self.progress, e)
    }
}

/// A feed that holds as much as was asked for is reported with a gap, whatever
/// of it could be stored.
pub proof fn law_full_feeds_report_a_gap(
    sync: FeedSyncModel,
    body: Seq<char>,
    entries: Seq<ItemModel>,
    stats: UpsertStats,
)
    requires
        atom::feed_items(FeedModel::start(), atom::met_in(body)) == Ok::<
            Seq<ItemModel>,
            ErrorModel,
        >(entries),
    ensures
        sync.after(Ok(body)) matches SyncStepModel::Store { sync: next, .. } && next.stored(
            stats,
        ).report.status == store::status_word(entries.len() >= sync.limit),
{
}

/// An entry of a feed keeps everything but its names and its kind. It is named
/// by the id behind the type in the id of the entry. Where that tells none, the
/// permalink does: the first piece after `/comments/` names the post, and the
/// third a comment.
pub proof fn law_entries_are_named_by_their_ids(entry: ItemModel, id: Seq<char>)
    requires
        id.len() > 0,
        text::all_alphanumeric(id),
    ensures
        entry.id == "t1_"@ + id ==> {
            &&& named_entry(StreamKind::Comments, entry) matches Some(item)
            &&& item.id == id
            &&& item.fullname == "t1_"@ + id
            &&& item.post_id == linked_id(entry.permalink, 0)
        },
        entry.id == "t3_"@ + id ==> {
            &&& named_entry(StreamKind::Posts, entry) matches Some(item)
            &&& item.id == id
            &&& item.fullname == "t3_"@ + id
            &&& item.post_id == Some(id)
        },
        forall|kind: StreamKind| #[trigger]
            named_entry(kind, entry) matches Some(item) ==> {
                &&& item.kind == if kind == StreamKind::Comments {
                    ItemKind::Comment
                } else {
                    ItemKind::Post
                }
                &&& item.fullname == (if kind == StreamKind::Comments {
                    "t1_"@
                } else {
                    "t3_"@
                }) + item.id
                &&& item.id.len() > 0
                &&& (ItemModel {
                    kind: entry.kind,
                    id: entry.id,
                    fullname: entry.fullname,
                    post_id: entry.post_id,
                    ..item
                }) == entry
            },
        !"t1_"@.is_prefix_of(entry.id) ==> (named_entry(
            StreamKind::Comments,
            entry,
        ) matches Some(item) ==> Some(item.id) == linked_id(entry.permalink, 2)),
        !"t3_"@.is_prefix_of(entry.id) ==> (named_entry(
            StreamKind::Posts,
            entry,
        ) matches Some(item) ==> Some(item.id) == linked_id(entry.permalink, 0)),
        linked_id(entry.permalink, 2) is Some ==> named_entry(StreamKind::Comments, entry) is Some,
        linked_id(entry.permalink, 0) is Some ==> named_entry(StreamKind::Posts, entry) is Some,
{
    assert(("t1_"@ + id).skip("t1_"@.len() as int) =~= id);
    assert("t1_"@.is_prefix_of("t1_"@ + id)) by {
        assert(("t1_"@ + id).subrange(0, "t1_"@.len() as int) =~= "t1_"@);
    }
    assert(("t3_"@ + id).skip("t3_"@.len() as int) =~= id);
    assert("t3_"@.is_prefix_of("t3_"@ + id)) by {
        assert(("t3_"@ + id).subrange(0, "t3_"@.len() as int) =~= "t3_"@);
    }
}

/// Positions in rising order of the entries that tell an id, and the things
/// there.
pub open spec fn named_at(
    kind: StreamKind,
    entries: Seq<ItemModel>,
    places: Seq<int>,
    items: Seq<ItemModel>,
) -> bool {
    &&& places.len() == items.len()
    &&& forall|j: int, k: int|
        0 <= j < k < places.len() ==> #[trigger] places[j] < #[trigger] places[k]
    &&& forall|k: int| #![trigger places[k]]
        0 <= k < places.len() ==> 0 <= places[k] < entries.len() && named_entry(
            kind,
            entries[places[k]],
        ) == Some(items[k])
    &&& forall|i: int|
        0 <= i < entries.len() && named_entry(kind, #[trigger] entries[i]) is Some
            ==> places.contains(i)
}

proof fn lemma_named_entries(kind: StreamKind, entries: Seq<ItemModel>) -> (places: Seq<int>)
    ensures
        named_at(kind, entries, places, named_entries(kind, entries)),
    decreases entries.len(),
{
    if entries.len() == 0 {
        Seq::empty()
    } else {
        let front = entries.drop_last();
        let before = lemma_named_entries(kind, front);
        let n = (entries.len() - 1) as int;
        let places = match named_entry(kind, entries.last()) {
            Some(_) => before.push(n),
            None => before,
        };
        let all = named_entries(kind, entries);
        assert forall|j: int, k: int| 0 <= j < k < places.len() implies #[trigger] places[j]
            < #[trigger] places[k] by {
            assert(places[j] == before[j]);
            if k < before.len() {
                assert(places[k] == before[k]);
            }
        }
        assert forall|k: int| #![trigger places[k]] 0 <= k < places.len() implies 0 <= places[k]
            < entries.len() && named_entry(kind, entries[places[k]]) == Some(all[k]) by {
            if k < before.len() {
                assert(places[k] == before[k]);
                assert(front[before[k]] == entries[before[k]]);
                assert(all[k] == named_entries(kind, front)[k]);
            }
        }
        assert forall|i: int|
            0 <= i < entries.len() && named_entry(kind, #[trigger] entries[i]) is Some implies
            places.contains(i) by {
            if i < n {
                assert(front[i] == entries[i]);
                let k = choose|k: int| 0 <= k < before.len() && before[k] == i;
                assert(places[k] == i);
            } else {
                assert(places[before.len() as int] == i);
            }
        }
        places
    }
}

/// Everything in a feed that tells an id is stored, in its order, and the first
/// of it is the newest. The report counts what was stored, one request, and a gap
/// exactly where the feed held as much as was asked for.
pub proof fn law_feeds_are_stored_whole(
    sync: FeedSyncModel,
    body: Seq<char>,
    entries: Seq<ItemModel>,
    stats: UpsertStats,
)
    requires
        atom::feed_items(FeedModel::start(), atom::met_in(body)) == Ok::<
            Seq<ItemModel>,
            ErrorModel,
        >(entries),
        sync.progress.new_items + stats.new_items <= usize::MAX,
        sync.progress.updated_items + stats.updated_items <= usize::MAX,
    ensures
        ({
            &&& sync.after(Ok(body)) matches SyncStepModel::Store { items, sync: next }
            &&& exists|places: Seq<int>| #[trigger] named_at(sync.kind, entries, places, items)
            &&& items.len() > 0 ==> next.stored(stats).newest == Some(items[0].fullname)
            &&& items.len() == 0 ==> next.stored(stats).newest is None
            &&& next.stored(stats).failure is None
            &&& next.stored(stats).report.status == "gap"@ <==> entries.len() >= sync.limit
            &&& next.stored(stats).report.status == "ok"@ <==> entries.len() < sync.limit
            &&& next.stored(stats).report.new_items == sync.progress.new_items + stats.new_items
            &&& next.stored(stats).report.updated_items == sync.progress.updated_items
                + stats.updated_items
            &&& next.stored(stats).report.http_requests == sync.progress.http_requests
            &&& next.stored(stats).report.kind == sync.kind
        }),
{
    reveal_strlit("gap");
    reveal_strlit("ok");
    assert("gap"@.len() != "ok"@.len());
    let places = lemma_named_entries(sync.kind, entries);
    assert(named_at(sync.kind, entries, places, named_entries(sync.kind, entries)));
}

/// A capture from a feed asks once, for the feed of the newest posts or comments,
/// for as many as may be read and a hundred at most.
pub proof fn law_feeds_are_asked_for_once(
    subreddit: Seq<char>,
    kind: StreamKind,
    budget: u32,
)
    requires
        address::named_subreddit(subreddit) is Ok,
    ensures
        FeedSyncModel::begin(subreddit, kind, budget) matches SyncStepModel::Fetch {
            request,
            sync,
        } && {
            let most = if budget == 0 {
                1
            } else if budget < 100 {
                budget as int
            } else {
                100
            };
            &&& request.rss
            &&& request.path == "/r/"@ + address::named_subreddit(subreddit)->Ok_0 + "/"@ + (
            if kind == StreamKind::Comments {
                "comments"@
            } else {
                "new"@
            }) + "."@ + "rss"@
            &&& request.params == seq![("limit"@, number::decimal(most as nat))]
            &&& sync.limit == most
            &&& sync.kind == kind
            &&& sync.subreddit == subreddit
            &&& sync.progress.http_requests == 1
            &&& sync.progress.new_items == 0
            &&& sync.progress.updated_items == 0
        },
{
}

/// A subreddit that is no name fails a capture before anything is asked.
pub proof fn law_bad_names_end_a_capture(
    subreddit: Seq<char>,
    kind: StreamKind,
    budget: u32,
    pages: Option<u32>,
)
    requires
        address::named_subreddit(subreddit) is Err,
    ensures
        StreamModel::begin(subreddit, kind, budget, pages).turn() matches SyncStepModel::Done(done)
            && done.failure == Some(address::named_subreddit(subreddit)->Err_0)
            && done.report.status == "error"@ && done.newest is None,
        FeedSyncModel::begin(subreddit, kind, budget) matches SyncStepModel::Done(done)
            && done.failure == Some(address::named_subreddit(subreddit)->Err_0)
            && done.report.status == "error"@ && done.newest is None,
{
}

/// A failed answer ends a capture with that failure. What was stored before it
/// stays counted, and nothing is remembered as the newest.
pub proof fn law_failed_answers_end_a_capture(
    sync: StreamModel,
    feed: FeedSyncModel,
    refresh: RefreshModel,
    e: ErrorModel,
)
    ensures
        sync.after(Err(e)) matches SyncStepModel::Done(done) && done.failure == Some(e)
            && done.newest is None && done.report.new_items == sync.progress.new_items
            && done.report.updated_items == sync.progress.updated_items
            && done.report.http_requests == sync.progress.http_requests && done.report.status
            == "error"@ && done.report.notice == Some(e.message()) && done.report.kind == sync.kind,
        feed.after(Err(e)) matches SyncStepModel::Done(done) && done.failure == Some(e)
            && done.newest is None && done.report.new_items == feed.progress.new_items
            && done.report.updated_items == feed.progress.updated_items
            && done.report.http_requests == feed.progress.http_requests && done.report.status
            == "error"@ && done.report.notice == Some(e.message()) && done.report.kind == feed.kind,
        refresh.after(Err(e)) matches SyncStepModel::Done(done) && done.failure == Some(e)
            && done.newest is None && done.report.new_items == refresh.progress.new_items
            && done.report.updated_items == refresh.progress.updated_items
            && done.report.http_requests == refresh.progress.http_requests && done.report.status
            == "error"@ && done.report.notice == Some(e.message()) && done.report.kind
            == StreamKind::Refresh,
{
}

/// What follows a capture that went through: it is remembered, unless it was a
/// refresh, and reported in any case. A run has its report exactly where the
/// logging went through and it did not fail, or failed where only feeds are
/// read. The failure of the capture comes before that of the logging.
pub proof fn law_outcomes_follow_the_failures(
    done: DoneModel,
    rss: bool,
    logged: Result<(), ErrorModel>,
)
    ensures
        done.failure is None && done.report.kind == StreamKind::Refresh ==> done.follow_up(rss)
            == FollowUp::Report,
        done.failure is None && done.report.kind != StreamKind::Refresh ==> done.follow_up(rss)
            == FollowUp::Remember,
        done.failure is Some && rss ==> done.follow_up(rss) == FollowUp::Report,
        done.failure is Some && !rss ==> done.follow_up(rss) == FollowUp::Fail,
        done.outcome(rss, logged) is Ok <==> logged is Ok && (done.failure is None || rss),
        done.outcome(rss, logged) matches Ok(report) ==> report == done.report,
        done.failure matches Some(e) ==> (done.outcome(rss, logged) matches Err((first, _))
            ==> first == e),
        done.failure is None ==> (logged matches Err(e) ==> done.outcome(rss, logged) == Err::<
            ReportModel,
            (ErrorModel, Option<ErrorModel>),
        >((e, None))),
        done.failure is Some ==> (logged matches Err(e) ==> done.outcome(rss, logged) matches Err(
            (_, Some(later)),
        ) && later == e),
        done.failure is Some && logged is Ok && !rss ==> done.outcome(rss, logged) matches Err(
            (_, None),
        ),
{
}

// ---------------------------------------------------------------------------
// Refreshing
// ---------------------------------------------------------------------------

/// How many stored posts are refreshed: no more than the budget, and no more
/// than the pages hold.
pub open spec fn refreshed(total: nat, budget: u32, pages: Option<u32>) -> nat {
    let most = if item_cap(budget) <= page_cap(budget, pages) * 100 {
        item_cap(budget) as nat
    } else {
        (page_cap(budget, pages) * 100) as nat
    };
    if total <= most {
        total
    } else {
        most
    }
}

/// A capture of what stored posts have become.
pub struct RefreshSync {
    subreddit: String,
    ids: Vec<String>,
    at: usize,
    left: usize,
    progress: SyncProgress,
}

/// What a [`RefreshSync`] holds: the full names of the posts to refresh, how
/// many of them are refreshed, and how many stored posts are left out.
pub struct RefreshModel {
    pub subreddit: Seq<char>,
    pub ids: Seq<Seq<char>>,
    pub at: nat,
    pub left: usize,
    pub progress: SyncProgress,
}

impl View for RefreshSync {
    type V = RefreshModel;

    closed spec fn view(&self) -> RefreshModel {
        RefreshModel {
            subreddit: self.subreddit@,
            ids: text::texts(self.ids@),
            at: self.at as nat,
            left: self.left,
            progress: self.progress,
        }
    }
}

/// The request for things by their full names.
pub open spec fn info_request(ids: Seq<Seq<char>>) -> RequestModel {
    FetchModel::only_json("/api/info.json"@, seq![("id"@, text::join(ids, ","@))]).request
}

/// The first text that is no full name.
pub open spec fn first_bad_name(ids: Seq<Seq<char>>) -> Option<Seq<char>>
    decreases ids.len(),
{
    if ids.len() == 0 {
        None
    } else if !address::full_name_ok(ids[0]) {
        Some(ids[0])
    } else {
        first_bad_name(ids.skip(1))
    }
}

proof fn lemma_first_bad_name(ids: Seq<Seq<char>>, i: int)
    requires
        0 <= i < ids.len(),
        !address::full_name_ok(ids[i]),
        listing::full_names(ids.take(i)),
    ensures
        first_bad_name(ids) == Some(ids[i]),
    decreases ids.len(),
{
    if i > 0 {
        assert(ids.take(i)[0] == ids[0]);
        let rest = ids.skip(1);
        assert forall|j: int| 0 <= j < rest.take(i - 1).len() implies address::full_name_ok(
            #[trigger] rest.take(i - 1)[j],
        ) by {
            assert(ids.take(i)[j + 1] == rest.take(i - 1)[j]);
        }
        lemma_first_bad_name(rest, i - 1);
    }
}

proof fn lemma_no_bad_name(ids: Seq<Seq<char>>)
    requires
        listing::full_names(ids),
    ensures
        first_bad_name(ids) is None,
    decreases ids.len(),
{
    if ids.len() > 0 {
        let rest = ids.skip(1);
        assert forall|j: int| 0 <= j < rest.len() implies address::full_name_ok(
            #[trigger] rest[j],
        ) by {
            assert(ids[j + 1] == rest[j]);
        }
        lemma_no_bad_name(rest);
    }
}

impl RefreshModel {
    /// A refresh that has done nothing, given all stored posts.
    pub open spec fn begin(
        subreddit: Seq<char>,
        ids: Seq<Seq<char>>,
        budget: u32,
        pages: Option<u32>,
    ) -> RefreshModel {
        let n = refreshed(ids.len(), budget, pages);
        RefreshModel {
            subreddit,
            ids: ids.take(n as int),
            at: 0,
            left: (ids.len() - n) as usize,
            progress: SyncProgress::none(),
        }
    }

    /// The posts of the next request.
    pub open spec fn batch(self) -> Seq<Seq<char>> {
        self.ids.subrange(
            self.at as int,
            if self.at + 100 <= self.ids.len() {
                self.at as int + 100
            } else {
                self.ids.len() as int
            },
        )
    }

    /// Asks for the next posts, or ends. What is left out is reported.
    pub open spec fn turn(self) -> SyncStepModel<RefreshModel> {
        if self.at < self.ids.len() {
            let next = RefreshModel { progress: self.progress.asked(), ..self };
            match first_bad_name(self.batch()) {
                Some(name) => SyncStepModel::Done(
                    broken(
                        self.subreddit,
                        StreamKind::Refresh,
                        next.progress,
                        ErrorModel::Message("invalid Reddit fullname: "@ + name),
                    ),
                ),
                None => SyncStepModel::Fetch { request: info_request(self.batch()), sync: next },
            }
        } else {
            SyncStepModel::Done(
                completed(
                    self.subreddit,
                    StreamKind::Refresh,
                    self.progress,
                    self.left > 0,
                    if self.left > 0 {
                        Some(self.left)
                    } else {
                        None
                    },
                    None,
                ),
            )
        }
    }

    /// What follows an answer, or the lack of one: its posts are stored.
    pub open spec fn after(
        self,
        answer: Result<Seq<char>, ErrorModel>,
    ) -> SyncStepModel<RefreshModel> {
        match answer {
            Ok(body) => match listing::document(body) {
                Ok(value) => SyncStepModel::Store {
                    items: store::relevant(StreamKind::Refresh, parse::listing_items(value)),
                    sync: RefreshModel { at: self.at + self.batch().len(), ..self },
                },
                Err(e) => SyncStepModel::Done(
                    broken(self.subreddit, StreamKind::Refresh, self.progress, e),
                ),
            },
            Err(e) => SyncStepModel::Done(
                broken(self.subreddit, StreamKind::Refresh, self.progress, e),
            ),
        }
    }

    /// What follows the storing of posts.
    pub open spec fn stored(self, stats: UpsertStats) -> SyncStepModel<RefreshModel> {
        (RefreshModel { progress: self.progress.stored(stats), ..self }).turn()
    }
}

impl RefreshSync {
    /// The position is among the posts.
    pub closed spec fn wf(&self) -> bool {
        self.at <= self.ids@.len()
    }

    /// Begins a refresh, given the full names of all stored posts, the ones to
    /// refresh first in front.
    pub fn begin(
        client: &RedditClient,
        subreddit: &str,
        ids: Vec<String>,
        budget: u32,
        pages: Option<u32>,
    ) -> (r: SyncStep<RefreshSync>)
        ensures
            r@ == RefreshModel::begin(subreddit@, text::texts(ids@), budget, pages).turn(),
            r matches SyncStep::Fetch { request, sync } ==> request@.on_site() && sync.wf(),
    {
        let ghost all = text::texts(ids@);
        assert(all.len() == ids@.len());
        let total: usize = ids.len();
        let items: u64 = cap_items(budget) as u64;
        let room: u64 = cap_pages(budget, pages) as u64 * 100;
        let most: u64 = if items <= room {
            items
        } else {
            room
        };
        let n: usize = if total as u64 <= most {
            total
        } else {
            most as usize
        };
        let mut ids = ids;
        ids.truncate(n);
        assert(text::texts(ids@) =~= all.take(n as int));
        let sync = RefreshSync {
            subreddit: subreddit.to_owned(),
            ids,
            at: 0,
            left: total - n,
            progress: SyncProgress::nothing(),
        };
        sync.turn(client)
    }

    fn turn(self, client: &RedditClient) -> (r: SyncStep<RefreshSync>)
        requires
            self.wf(),
        ensures
            r@ == self@.turn(),
            r matches SyncStep::Fetch { request, sync } ==> request@.on_site() && sync.wf(),
    {
        let mut sync = self;
        let total: usize = sync.ids.len();
        if sync.at < total {
            let end: usize = if total - sync.at >= 100 {
                sync.at + 100
            } else {
                total
            };
            sync.progress = sync.progress.ask();
            let asked = {
                let batch = &sync.ids[sync.at..end];
                let asked = client.info_by_ids(batch);
                proof {
                    let names = text::texts(batch@);
                    assert(names =~= self@.batch());
                    if asked is Ok {
                        lemma_no_bad_name(names);
                    } else {
                        let i = choose|i: int|
                            0 <= i < batch@.len() && !address::full_name_ok(#[trigger] batch@[i]@)
                                && listing::full_names(names.take(i)) && asked->Err_0@
                                == ErrorModel::Message("invalid Reddit fullname: "@ + batch@[i]@);
                        lemma_first_bad_name(names, i);
                    }
                }
                asked
            };
            match asked {
                Ok(Some(fetch)) => SyncStep::Fetch { request: fetch.request, sync },
                Ok(None) => SyncStep::Done(
                    complete(
                        sync.subreddit.as_str(),
                        StreamKind::Refresh,
                        sync.progress,
                        false,
                        None,
                        None,
                    ),
                ),
                Err(e) => SyncStep::Done(
                    break_off(sync.subreddit.as_str(), StreamKind::Refresh, sync.progress, e),
                ),
            }
        } else {
            SyncStep::Done(
                complete(
                    sync.subreddit.as_str(),
                    StreamKind::Refresh,
                    sync.progress,
                    sync.left > 0,
                    if sync.left > 0 {
                        Some(sync.left)
                    } else {
                        None
                    },
                    None,
                ),
            )
        }
    }

    /// Decides what follows an answer, or the lack of one.
    pub fn answered(self, answer: Result<String, RdtError>) -> (r: SyncStep<RefreshSync>)
        requires
            self.wf(),
        ensures
            r@ == self@.after(error::outcome(answer)),
            r matches SyncStep::Store { sync, .. } ==> sync.wf(),
    {
        let mut sync = self;
        let body = match answer {
            Ok(body) => body,
            Err(e) => {
                return SyncStep::Done(
                    break_off(sync.subreddit.as_str(), StreamKind::Refresh, sync.progress, e),
                );
            },
        };
        match json::decode_json(body.as_str()) {
            Ok(value) => {
                let total: usize = sync.ids.len();
                assert(self@.ids.len() == total);
                sync.at = if total - sync.at >= 100 {
                    sync.at + 100
                } else {
                    total
                };
                let items = store::relevant_items(
                    StreamKind::Refresh,
                    parse::parse_listing(&value),
                );
                SyncStep::Store { items, sync }
            },
            Err(e) => SyncStep::Done(
                break_off(sync.subreddit.as_str(), StreamKind::Refresh, sync.progress, e),
            ),
        }
    }

    /// Decides what follows the storing of posts.
    pub fn stored(self, client: &RedditClient, stats: UpsertStats) -> (r: SyncStep<RefreshSync>)
        requires
            self.wf(),
        ensures
            r@ == self@.stored(stats),
            r matches SyncStep::Fetch { request, sync } ==> request@.on_site() && sync.wf(),
    {
        let mut sync = self;
        sync.progress = sync.progress.store(stats);
        sync.turn(client)
    }

    /// Ends the capture where its items could not be stored.
    pub fn failed(self, e: RdtError) -> (r: SyncDone)
        ensures
            r@ == broken(self@.subreddit, StreamKind::Refresh, self@.progress, e@),
    {
        break_off(self.subreddit.as_str(), StreamKind::Refresh, self.progress, e)
    }
}

/// A refresh selects no more posts than the budget and the pages hold, and
/// reports exactly the posts that it leaves out.
pub proof fn law_refresh_stays_within_the_caps(
    subreddit: Seq<char>,
    ids: Seq<Seq<char>>,
    budget: u32,
    pages: Option<u32>,
)
    requires
        ids.len() <= usize::MAX,
    ensures
        ({
            let begin = RefreshModel::begin(subreddit, ids, budget, pages);
            &&& begin.ids.len() <= item_cap(budget)
            &&& begin.ids.len() <= page_cap(budget, pages) * 100
            &&& begin.ids.len() + begin.left == ids.len()
            &&& begin.ids == ids.take(begin.ids.len() as int)
        }),
{
}

impl RefreshModel {
    /// Every request so far was for a full batch, but for the last one: what is
    /// refreshed is what so many batches hold.
    pub open spec fn between_requests(self) -> bool {
        let asked = self.progress.http_requests * 100;
        self.at == if asked <= self.ids.len() {
            asked
        } else {
            self.ids.len() as int
        }
    }

    /// The posts of the last request are still to be refreshed.
    pub open spec fn in_request(self) -> bool {
        &&& self.progress.http_requests > 0
        &&& self.at == (self.progress.http_requests - 1) * 100
        &&& self.at < self.ids.len()
    }

    /// The posts of a refresh fit in so many pages, and so do its requests.
    pub open spec fn within(self, pages: usize) -> bool {
        &&& self.ids.len() <= pages * 100
        &&& self.progress.http_requests <= pages
    }
}

/// What follows in a refresh took no more requests than so many pages.
pub open spec fn refresh_within(step: SyncStepModel<RefreshModel>, pages: usize) -> bool {
    match step {
        SyncStepModel::Fetch { sync, .. } => sync.in_request() && sync.within(pages),
        SyncStepModel::Store { sync, .. } => sync.between_requests() && sync.within(pages),
        SyncStepModel::Done(done) => done.report.http_requests <= pages,
    }
}

/// A refresh takes no more requests than pages may be read: it begins so, and
/// no answer and no storing leads beyond that.
pub proof fn law_refresh_requests_stay_within_the_pages(
    subreddit: Seq<char>,
    ids: Seq<Seq<char>>,
    budget: u32,
    pages: Option<u32>,
    sync: RefreshModel,
    answer: Result<Seq<char>, ErrorModel>,
    stats: UpsertStats,
)
    ensures
        refresh_within(
            RefreshModel::begin(subreddit, ids, budget, pages).turn(),
            page_cap(budget, pages),
        ),
        sync.in_request() && sync.within(page_cap(budget, pages)) ==> refresh_within(
            sync.after(answer),
            page_cap(budget, pages),
        ),
        sync.between_requests() && sync.within(page_cap(budget, pages)) ==> refresh_within(
            sync.stored(stats),
            page_cap(budget, pages),
        ),
{
}

/// A refresh asks for the selected posts a hundred at a time, in their order and
/// each once. It ends when all were asked for, with a gap and the number of posts
/// left out where any were.
pub proof fn law_refresh_asks_for_every_post(sync: RefreshModel)
    requires
        sync.at <= sync.ids.len(),
        forall|i: int| 0 <= i < sync.ids.len() ==> address::full_name_ok(#[trigger] sync.ids[i]),
    ensures
        sync.at < sync.ids.len() ==> {
            &&& sync.turn() matches SyncStepModel::Fetch { request, sync: next }
            &&& request.path == "/api/info.json"@
            &&& !request.rss
            &&& exists|some: Seq<Seq<char>>| #![trigger text::join(some, ","@)]
                {
                    &&& some.is_prefix_of(sync.ids.skip(sync.at as int))
                    &&& some.len() == 100 || (some.len() < 100 && some == sync.ids.skip(
                        sync.at as int,
                    ))
                    &&& request.params == seq![
                        ("id"@, text::join(some, ","@)),
                        ("raw_json"@, "1"@),
                    ]
                }
            &&& next == (RefreshModel { progress: next.progress, ..sync })
            &&& next.progress.new_items == sync.progress.new_items
            &&& next.progress.updated_items == sync.progress.updated_items
            &&& sync.progress.http_requests < usize::MAX ==> next.progress.http_requests
                == sync.progress.http_requests + 1
        },
        sync.at == sync.ids.len() ==> {
            &&& sync.turn() matches SyncStepModel::Done(done)
            &&& done.failure is None
            &&& done.newest is None
            &&& done.report.kind == StreamKind::Refresh
            &&& done.report.status == "gap"@ <==> sync.left > 0
            &&& done.report.status == "ok"@ <==> sync.left == 0
            &&& sync.left > 0 ==> done.report.remaining_items == Some(sync.left)
            &&& sync.left == 0 ==> done.report.remaining_items is None
            &&& done.report.new_items == sync.progress.new_items
            &&& done.report.updated_items == sync.progress.updated_items
            &&& done.report.http_requests == sync.progress.http_requests
        },
{
    reveal_strlit("gap");
    reveal_strlit("ok");
    assert("gap"@.len() != "ok"@.len());
    let some = sync.batch();
    let rest = sync.ids.skip(sync.at as int);
    if sync.at < sync.ids.len() {
        assert(listing::full_names(some));
        lemma_no_bad_name(some);
        assert(some.is_prefix_of(rest)) by {
            assert(rest.subrange(0, some.len() as int) =~= some);
        }
        if some.len() < 100 {
            assert(some =~= rest);
        }
        if let SyncStepModel::Fetch { request, .. } = sync.turn() {
            assert(request.params =~= seq![
                ("id"@, text::join(some, ","@)),
                ("raw_json"@, "1"@),
            ]);
        }
    }
}

/// The posts of an answer to a refresh are all stored, and what was asked for is
/// behind. What was stored is counted.
pub proof fn law_refreshed_posts_are_stored(
    sync: RefreshModel,
    body: Seq<char>,
    value: JsonModel,
    stats: UpsertStats,
)
    requires
        listing::document(body) == Ok::<JsonModel, ErrorModel>(value),
        sync.at <= sync.ids.len(),
        sync.progress.new_items + stats.new_items <= usize::MAX,
        sync.progress.updated_items + stats.updated_items <= usize::MAX,
    ensures
        ({
            &&& sync.after(Ok(body)) matches SyncStepModel::Store { items, sync: next }
            &&& items == parse::listing_page(value).items.filter(
                |item: ItemModel| item.kind == ItemKind::Post,
            )
            &&& next == (RefreshModel { at: next.at, ..sync })
            &&& next.at == sync.at + 100 || (next.at == sync.ids.len() && next.at < sync.at + 100)
            &&& exists|counted: RefreshModel| #![trigger counted.turn()]
                {
                    &&& next.stored(stats) == counted.turn()
                    &&& counted == (RefreshModel { progress: counted.progress, ..next })
                    &&& counted.progress.new_items == sync.progress.new_items + stats.new_items
                    &&& counted.progress.updated_items == sync.progress.updated_items
                        + stats.updated_items
                    &&& counted.progress.http_requests == sync.progress.http_requests
                }
        }),
{
    store::law_captures_store_their_kind(parse::listing_items(value));
    if let SyncStepModel::Store { sync: next, .. } = sync.after(Ok(body)) {
        let counted = RefreshModel { progress: next.progress.stored(stats), ..next };
        assert(next.stored(stats) == counted.turn());
    }
}

/// A refresh takes the first of the stored posts, as many as the budget and the
/// pages allow and no fewer, and leaves out the rest.
pub proof fn law_refresh_takes_as_many_as_allowed(
    subreddit: Seq<char>,
    ids: Seq<Seq<char>>,
    budget: u32,
    pages: Option<u32>,
)
    requires
        ids.len() <= usize::MAX,
    ensures
        ({
            let first = RefreshModel::begin(subreddit, ids, budget, pages);
            let items = if budget == 0 {
                1
            } else {
                budget as int
            };
            let most = match pages {
                Some(n) => if n == 0 {
                    100
                } else {
                    n * 100
                },
                None => items,
            };
            &&& first.ids.is_prefix_of(ids)
            &&& first.ids.len() == ids.len() || (first.ids.len() == items && items <= most) || (
            first.ids.len() == most && most <= items)
            &&& first.ids.len() <= items && first.ids.len() <= most
            &&& first.left == ids.len() - first.ids.len()
            &&& first.at == 0
            &&& first.subreddit == subreddit
            &&& first.progress.http_requests == 0
            &&& first.progress.new_items == 0
            &&& first.progress.updated_items == 0
        }),
{
    let first = RefreshModel::begin(subreddit, ids, budget, pages);
    assert(ids.subrange(0, first.ids.len() as int) =~= first.ids);
}

/// The pieces of a permalink are what slashes part after its first `/comments/`:
/// the id at a position is the piece there, where it is one of letters and digits.
pub proof fn law_permalinks_hold_the_ids(front: Seq<char>, pieces: Seq<Seq<char>>, i: int)
    requires
        0 <= i < pieces.len(),
        forall|j: int| 0 <= j < pieces.len() ==> text::free_of(#[trigger] pieces[j], '/'),
        text::first_at(
            front + "/comments/"@ + text::join(pieces, seq!['/']),
            "/comments/"@,
            front.len() as int,
        ),
    ensures
        ({
            let link = front + "/comments/"@ + text::join(pieces, seq!['/']);
            let good = pieces[i].len() > 0 && forall|k: int| #![trigger pieces[i][k]]
                0 <= k < pieces[i].len() ==> ('0' <= pieces[i][k] <= '9' || 'a' <= pieces[i][k]
                    <= 'z' || 'A' <= pieces[i][k] <= 'Z');
            &&& good ==> linked_id(Some(link), i) == Some(pieces[i])
            &&& !good ==> linked_id(Some(link), i) is None
            &&& linked_id(Some(link), pieces.len() as int) is None
            &&& linked_id(None, i) is None
        }),
{
    reveal_strlit("/comments/");
    let tail = text::join(pieces, seq!['/']);
    let link = front + "/comments/"@ + tail;
    text::lemma_find_is(link, "/comments/"@, front.len() as int);
    assert(link.skip(front.len() as int + 10) =~= tail);
    text::law_split_undoes_join(pieces, '/');
    if text::all_alphanumeric(pieces[i]) {
        assert forall|k: int| #![trigger pieces[i][k]] 0 <= k < pieces[i].len() implies ('0'
            <= pieces[i][k] <= '9' || 'a' <= pieces[i][k] <= 'z' || 'A' <= pieces[i][k]
            <= 'Z') by {
            assert(text::alphanumeric(pieces[i][k]));
        }
    }
}

/// A report is of the subreddit that was captured, counts what was done and says
/// in words what was left out or went wrong. Where the newest thing could not be
/// remembered, a capture counts as failed with all that it stored.
pub proof fn law_reports_count_what_was_done(
    subreddit: Seq<char>,
    kind: StreamKind,
    progress: SyncProgress,
    gap: bool,
    remaining_items: Option<usize>,
    newest: Option<Seq<char>>,
    e: ErrorModel,
    done: DoneModel,
)
    ensures
        ({
            let r = completed(subreddit, kind, progress, gap, remaining_items, newest);
            &&& r.report.subreddit == address::bare_subreddit(subreddit)
            &&& r.report.kind == kind
            &&& r.report.new_items == progress.new_items
            &&& r.report.updated_items == progress.updated_items
            &&& r.report.http_requests == progress.http_requests
            &&& r.report.remaining_items == remaining_items
            &&& r.report.notice is None
            &&& r.report.status == if gap {
                "gap"@
            } else {
                "ok"@
            }
            &&& r.newest == newest
            &&& r.failure is None
        }),
        ({
            let r = broken(subreddit, kind, progress, e);
            &&& r.report.subreddit == address::bare_subreddit(subreddit)
            &&& r.report.kind == kind
            &&& r.report.new_items == progress.new_items
            &&& r.report.updated_items == progress.updated_items
            &&& r.report.http_requests == progress.http_requests
            &&& r.report.remaining_items is None
            &&& r.report.notice == Some(e.message())
            &&& r.report.status == "error"@
            &&& r.newest is None
            &&& r.failure == Some(e)
        }),
        ({
            let r = done.failing(e);
            &&& r.report.subreddit == done.report.subreddit
            &&& r.report.kind == done.report.kind
            &&& r.report.new_items == done.report.new_items
            &&& r.report.updated_items == done.report.updated_items
            &&& r.report.http_requests == done.report.http_requests
            &&& r.report.remaining_items is None
            &&& r.report.notice == Some(e.message())
            &&& r.report.status == "error"@
            &&& r.newest is None
            &&& r.failure == Some(e)
        }),
{
}

/// A refresh that would ask for something that is no full name fails before it
/// asks, and names the first of them.
pub proof fn law_bad_full_names_end_a_refresh(sync: RefreshModel, i: int)
    requires
        sync.at <= i < sync.ids.len(),
        i < sync.at + 100,
        !address::full_name_ok(sync.ids[i]),
        forall|j: int| sync.at <= j < i ==> address::full_name_ok(#[trigger] sync.ids[j]),
    ensures
        sync.turn() matches SyncStepModel::Done(done) && done.failure == Some(
            ErrorModel::Message("invalid Reddit fullname: "@ + sync.ids[i]),
        ),
{
    let some = sync.batch();
    let k = i - sync.at;
    assert(some[k] == sync.ids[i]);
    assert(listing::full_names(some.take(k))) by {
        assert forall|j: int| 0 <= j < some.take(k).len() implies address::full_name_ok(
            #[trigger] some.take(k)[j],
        ) by {
            assert(some.take(k)[j] == sync.ids[sync.at + j]);
        }
    }
    lemma_first_bad_name(some, k);
}

/// An answer that can be read is read as a page, and one that cannot ends the
/// capture as a failure.
pub proof fn law_readable_answers_are_read(
    sync: StreamModel,
    body: Seq<char>,
    value: JsonModel,
    e: ErrorModel,
)
    ensures
        listing::document(body) == Ok::<JsonModel, ErrorModel>(value) ==> sync.after(Ok(body))
            == sync.paged(value),
        listing::document(body) == Err::<JsonModel, ErrorModel>(e) ==> (
        sync.after(Ok(body)) matches SyncStepModel::Done(done) && done.failure == Some(e)
            && done.newest is None && done.report.new_items == sync.progress.new_items),
{
}

} // verus!
