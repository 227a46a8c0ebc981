//! Catching up: picking the recent posts of a subreddit, and capturing whole
//! threads.
use vstd::prelude::*;

use crate::address;
use crate::cli::{PullCommand, SyncCommand, ThreadCommand, ThreadSort};
use crate::error;
use crate::error::{ErrorModel, RdtError};
use crate::json;
use crate::json::{JsonModel, Real};
use crate::listing;
use crate::model;
use crate::model::{ItemKind, ItemModel, RedditItem, ThreadModel, ThreadView};
use crate::parse;
use crate::store;
use crate::store::{ReportModel, StreamKind, SyncStreamReport, UpsertStats};
use crate::sync;
use crate::sync::{DoneModel, SyncDone, SyncProgress};
use crate::text;
use crate::transport::{RedditClient, Request, RequestModel};

verus! {

// ---------------------------------------------------------------------------
// Settings
// ---------------------------------------------------------------------------

/// The settings of a backfill: how many days it looks back, how many posts and
/// pages it reads, and how many requests each thread may take.
#[derive(Debug, Clone, Copy, PartialEq, Eq, Structural)]
pub struct BackfillSettings {
    pub days: u32,
    pub budget: u32,
    pub pages: u32,
    pub max_requests: u32,
}

/// The settings of a backfill. Those of watches and the general ones do not
/// count.
pub open spec fn settings_of(command: SyncCommand) -> BackfillSettings {
    BackfillSettings {
        days: match command.days {
            Some(n) => n,
            None => 2,
        },
        budget: match command.budget {
            Some(n) => n,
            None => 3,
        },
        pages: match command.pages {
            Some(n) => n,
            None => 1,
        },
        max_requests: match command.max_requests {
            Some(n) => n,
            None => 10,
        },
    }
}

/// The settings of a backfill.
pub fn backfill_settings(command: &SyncCommand) -> (r: BackfillSettings)
    ensures
        r == settings_of(*command),
{
    BackfillSettings {
        days: match command.days {
            Some(n) => n,
            None => 2,
        },
        budget: match command.budget {
            Some(n) => n,
            None => 3,
        },
        pages: match command.pages {
            Some(n) => n,
            None => 1,
        },
        max_requests: match command.max_requests {
            Some(n) => n,
            None => 10,
        },
    }
}

/// The moment before which posts are not caught up with.
pub open spec fn cutoff_before(now: int, days: u32) -> int {
    now - days * 86400
}

/// The moment before which posts are not caught up with.
pub fn cutoff(now: i64, days: u32) -> (r: i64)
    requires
        i64::MIN <= cutoff_before(now as int, days),
    ensures
        r == cutoff_before(now as int, days),
{
    now - (days as i64) * 86400
}

/// The thread command for a captured thread: everything is expanded.
pub open spec fn capture_command(
    command: ThreadCommand,
    target: Seq<char>,
    depth: Option<u32>,
    sort: ThreadSort,
    max_requests: u32,
) -> bool {
    &&& command.target@ == target
    &&& command.all
    &&& command.depth == depth
    &&& command.sort == sort
    &&& command.max_requests == max_requests
}

/// The thread command for a pull.
pub fn pull_thread(command: &PullCommand) -> (r: ThreadCommand)
    ensures
        capture_command(r, command.target@, command.depth, command.sort, command.max_requests),
{
    ThreadCommand {
        target: command.target.clone(),
        all: true,
        depth: command.depth,
        sort: command.sort,
        max_requests: command.max_requests,
    }
}

/// The thread command for a picked post.
pub fn backfill_thread(target: &str, max_requests: u32) -> (r: ThreadCommand)
    ensures
        capture_command(r, target@, None, ThreadSort::Best, max_requests),
{
    ThreadCommand {
        target: target.to_owned(),
        all: true,
        depth: None,
        sort: ThreadSort::Best,
        max_requests,
    }
}

/// Where a picked post is read: at its permalink, or by its full name.
pub open spec fn post_target(post: ItemModel) -> Seq<char> {
    match post.permalink {
        Some(link) => link,
        None => "t3_"@ + post.id,
    }
}

/// Where a picked post is read.
pub fn target_of_post(post: &RedditItem) -> (r: String)
    ensures
        r@ == post_target(post@),
{
    match &post.permalink {
        Some(link) => link.clone(),
        None => {
            let mut out = "t3_".to_owned();
            out.push_str(post.id.as_str());
            out
        },
    }
}

// ---------------------------------------------------------------------------
// Picking posts
// ---------------------------------------------------------------------------

/// The place of a double in the order of doubles. Bit patterns without the sign
/// bit are ordered as the doubles are, and with the sign bit the other way
/// round; both zeros have the same place.
pub open spec fn place(moment: Real) -> int {
    if moment.bits < 0x8000_0000_0000_0000 {
        moment.bits as int
    } else {
        0x8000_0000_0000_0000 - moment.bits
    }
}

/// A double is a number: its magnitude is at most that of infinity.
pub open spec fn is_number(moment: Real) -> bool {
    -0x7ff0_0000_0000_0000 <= place(moment) <= 0x7ff0_0000_0000_0000
}

/// A moment is at or after another.
pub open spec fn at_or_after(created: Option<Real>, cutoff: Real) -> bool {
    match created {
        Some(at) => is_number(at) && is_number(cutoff) && place(at) >= place(cutoff),
        None => false,
    }
}

fn place_of(moment: Real) -> (r: i128)
    ensures
        r == place(moment),
{
    if moment.bits < 0x8000_0000_0000_0000 {
        moment.bits as i128
    } else {
        0x8000_0000_0000_0000i128 - moment.bits as i128
    }
}

/// Whether a moment is at or after another.
pub fn is_recent(created: Option<Real>, cutoff: Real) -> (r: bool)
    ensures
        r == at_or_after(created, cutoff),
{
    match created {
        Some(at) => {
            let most: i128 = 0x7ff0_0000_0000_0000;
            let there: i128 = place_of(at);
            let here: i128 = place_of(cutoff);
            -most <= there && there <= most && -most <= here && here <= most && there >= here
        },
        None => false,
    }
}

/// Posts as they are picked, newest first: the picked ones, whether an older
/// one was met, and whether one was left out for want of budget.
#[derive(Debug)]
pub struct Picked {
    pub posts: Vec<RedditItem>,
    pub reached_old: bool,
    pub left_out: bool,
}

/// What a [`Picked`] holds.
pub struct PickedModel {
    pub posts: Seq<ItemModel>,
    pub reached_old: bool,
    pub left_out: bool,
}

impl View for Picked {
    type V = PickedModel;

    open spec fn view(&self) -> PickedModel {
        PickedModel {
            posts: model::items_model(self.posts@),
            reached_old: self.reached_old,
            left_out: self.left_out,
        }
    }
}

impl PickedModel {
    /// The posts after one more item, while no older post was met and none was
    /// left out.
    pub open spec fn with(self, item: ItemModel, cutoff: Real, budget: usize) -> PickedModel {
        if self.reached_old || self.left_out || item.kind != ItemKind::Post {
            self
        } else if !at_or_after(item.created_utc, cutoff) {
            PickedModel { reached_old: true, ..self }
        } else if self.posts.len() < budget {
            PickedModel { posts: self.posts.push(item), ..self }
        } else {
            PickedModel { left_out: true, ..self }
        }
    }

    /// The posts after some more items.
    pub open spec fn with_all(
        self,
        items: Seq<ItemModel>,
        cutoff: Real,
        budget: usize,
    ) -> PickedModel
        decreases items.len(),
    {
        if items.len() == 0 {
            self
        } else {
            self.with_all(items.drop_last(), cutoff, budget).with(items.last(), cutoff, budget)
        }
    }
}

impl Picked {
    fn add_all(&mut self, items: Vec<RedditItem>, cutoff: Real, budget: usize)
        ensures
            final(self)@ == old(self)@.with_all(model::items_model(items@), cutoff, budget),
    {
        let ghost was = self@;
        let ghost all = model::items_model(items@);
        assert(all.take(0) =~= Seq::empty());
        for item in it: items
            invariant
                it.seq() == items@,
                all == model::items_model(items@),
                self@ == was.with_all(all.take(it.index()), cutoff, budget),
        {
            let ghost t = all.take(it.index() + 1);
            let ghost had = self@.posts;
            let ghost one = item@;
            proof {
                assert(t.drop_last() =~= all.take(it.index()));
                assert(t.last() == one);
                assert(self.posts@.len() == self@.posts.len());
            }
            if !(self.reached_old || self.left_out || item.kind != ItemKind::Post) {
                if !is_recent(item.created_utc, cutoff) {
                    self.reached_old = true;
                } else if self.posts.len() < budget {
                    self.posts.push(item);
                    assert(self@.posts =~= had.push(one));
                } else {
                    self.left_out = true;
                }
            }
        }
        assert(all.take(all.len() as int) =~= all);
    }
}

/// A scan of the newest posts of a subreddit, page by page.
pub struct BackfillScan {
    subreddit: String,
    cutoff: Real,
    budget: usize,
    page_cap: usize,
    cursor: Option<String>,
    picked: Picked,
    progress: SyncProgress,
}

/// What a [`BackfillScan`] holds.
pub struct ScanModel {
    pub subreddit: Seq<char>,
    pub cutoff: Real,
    pub budget: usize,
    pub page_cap: usize,
    pub cursor: Option<Seq<char>>,
    pub picked: PickedModel,
    pub progress: SyncProgress,
}

impl View for BackfillScan {
    type V = ScanModel;

    closed spec fn view(&self) -> ScanModel {
        ScanModel {
            subreddit: self.subreddit@,
            cutoff: self.cutoff,
            budget: self.budget,
            page_cap: self.page_cap,
            cursor: text::opt(self.cursor),
            picked: self.picked@,
            progress: self.progress,
        }
    }
}

/// The posts that a scan picked, whether any recent one may be left out, and
/// what the scan took.
#[derive(Debug)]
pub struct BackfillPlan {
    pub subreddit: String,
    pub posts: Vec<RedditItem>,
    pub gap: bool,
    pub progress: SyncProgress,
}

/// What a [`BackfillPlan`] holds.
pub struct PlanModel {
    pub subreddit: Seq<char>,
    pub posts: Seq<ItemModel>,
    pub gap: bool,
    pub progress: SyncProgress,
}

impl View for BackfillPlan {
    type V = PlanModel;

    open spec fn view(&self) -> PlanModel {
        PlanModel {
            subreddit: self.subreddit@,
            posts: model::items_model(self.posts@),
            gap: self.gap,
            progress: self.progress,
        }
    }
}

/// What a scan does next: ask for a page, or end.
pub enum ScanStep {
    Fetch { request: Request, scan: BackfillScan },
    Picked(BackfillPlan),
    Failed(SyncDone),
}

/// What a [`ScanStep`] holds.
pub enum ScanStepModel {
    Fetch { request: RequestModel, scan: ScanModel },
    Picked(PlanModel),
    Failed(DoneModel),
}

impl View for ScanStep {
    type V = ScanStepModel;

    open spec fn view(&self) -> ScanStepModel {
        match *self {
            ScanStep::Fetch { request, scan } => ScanStepModel::Fetch {
                request: request@,
                scan: scan@,
            },
            ScanStep::Picked(plan) => ScanStepModel::Picked(plan@),
            ScanStep::Failed(done) => ScanStepModel::Failed(done@),
        }
    }
}

impl ScanModel {
    /// A scan that has done nothing.
    pub open spec fn begin(
        subreddit: Seq<char>,
        cutoff: Real,
        settings: BackfillSettings,
    ) -> ScanModel {
        ScanModel {
            subreddit,
            cutoff,
            budget: sync::item_cap(settings.budget),
            page_cap: sync::item_cap(settings.pages),
            cursor: None,
            picked: PickedModel { posts: Seq::empty(), reached_old: false, left_out: false },
            progress: SyncProgress::none(),
        }
    }

    /// The end of a scan.
    pub open spec fn end(self, gap: bool) -> ScanStepModel {
        ScanStepModel::Picked(
            PlanModel {
                subreddit: self.subreddit,
                posts: self.picked.posts,
                gap,
                progress: self.progress,
            },
        )
    }

    /// The failure of a scan.
    pub open spec fn fail(self, e: ErrorModel) -> ScanStepModel {
        ScanStepModel::Failed(
            sync::broken(self.subreddit, StreamKind::Backfill, self.progress, e),
        )
    }

    /// Asks for the next page, while pages may be read. A page that is left
    /// may hold recent posts.
    pub open spec fn turn(self) -> ScanStepModel {
        if self.progress.http_requests < self.page_cap {
            let next = ScanModel { progress: self.progress.asked(), ..self };
            match listing::page_request(self.subreddit, "new"@, 100, self.cursor) {
                Ok(request) => ScanStepModel::Fetch { request, scan: next },
                Err(e) => next.fail(e),
            }
        } else {
            self.end(self.cursor is Some)
        }
    }

    /// What follows a page. The scan is over where an older post was met or
    /// there is no further page, and it leaves something out where the budget
    /// does not reach.
    pub open spec fn paged(self, value: JsonModel) -> ScanStepModel {
        let page = parse::listing_page(value);
        let next = ScanModel {
            picked: self.picked.with_all(page.items, self.cutoff, self.budget),
            cursor: page.after,
            ..self
        };
        if next.picked.left_out {
            next.end(true)
        } else if next.picked.reached_old || page.items.len() == 0 || page.after is None {
            next.end(false)
        } else if next.picked.posts.len() >= self.budget {
            next.end(true)
        } else {
            next.turn()
        }
    }

    /// What follows an answer, or the lack of one.
    pub open spec fn after(self, answer: Result<Seq<char>, ErrorModel>) -> ScanStepModel {
        match answer {
            Ok(body) => match listing::document(body) {
                Ok(value) => self.paged(value),
                Err(e) => self.fail(e),
            },
            Err(e) => self.fail(e),
        }
    }
}

impl BackfillScan {
    /// Begins a scan for posts that are not older than a moment.
    pub fn begin(
        client: &RedditClient,
        subreddit: &str,
        cutoff: Real,
        settings: BackfillSettings,
    ) -> (r: ScanStep)
        ensures
            r@ == ScanModel::begin(subreddit@, cutoff, settings).turn(),
            r matches ScanStep::Fetch { request, .. } ==> request@.on_site(),
    {
        let picked = Picked { posts: Vec::new(), reached_old: false, left_out: false };
        assert(picked@.posts =~= Seq::empty());
        let scan = BackfillScan {
            subreddit: subreddit.to_owned(),
            cutoff,
            budget: sync::cap_items(settings.budget),
            page_cap: sync::cap_items(settings.pages),
            cursor: None,
            picked,
            progress: SyncProgress::nothing(),
        };
        scan.turn(client)
    }

    fn end(self, gap: bool) -> (r: ScanStep)
        ensures
            r@ == self@.end(gap),
    {
        ScanStep::Picked(
            BackfillPlan {
                subreddit: self.subreddit,
                posts: self.picked.posts,
                gap,
                progress: self.progress,
            },
        )
    }

    fn fail(self, e: RdtError) -> (r: ScanStep)
        ensures
            r@ == self@.fail(e@),
    {
        ScanStep::Failed(
            sync::break_off(self.subreddit.as_str(), StreamKind::Backfill, self.progress, e),
        )
    }

    fn turn(self, client: &RedditClient) -> (r: ScanStep)
        ensures
            r@ == self@.turn(),
            r matches ScanStep::Fetch { request, .. } ==> request@.on_site(),
    {
        let mut scan = self;
        if !(scan.progress.http_requests < scan.page_cap) {
            let gap = scan.cursor.is_some();
            return scan.end(gap);
        }
        scan.progress = scan.progress.ask();
        let asked = {
            let after: Option<&str> = match &scan.cursor {
                Some(cursor) => Some(cursor.as_str()),
                None => None,
            };
            client.sync_listing_page(scan.subreddit.as_str(), "new", 100, after)
        };
        match asked {
            Ok(request) => ScanStep::Fetch { request, scan },
            Err(e) => scan.fail(e),
        }
    }

    /// Decides what follows an answer, or the lack of one.
    pub fn answered(self, client: &RedditClient, answer: Result<String, RdtError>) -> (r: ScanStep)
        ensures
            r@ == self@.after(error::outcome(answer)),
            r matches ScanStep::Fetch { request, .. } ==> request@.on_site(),
    {
        let mut scan = self;
        let body = match answer {
            Ok(body) => body,
            Err(e) => {
                return scan.fail(e);
            },
        };
        let page = match json::decode_json(body.as_str()) {
            Ok(value) => parse::parse_listing_page(&value),
            Err(e) => {
                return scan.fail(e);
            },
        };
        assert(page@.items.len() == page.items@.len());
        let empty = page.items.len() == 0;
        let cutoff = scan.cutoff;
        let budget = scan.budget;
        scan.picked.add_all(page.items, cutoff, budget);
        scan.cursor = page.after;
        assert(scan.picked.posts@.len() == scan.picked@.posts.len());
        if scan.picked.left_out {
            scan.end(true)
        } else if scan.picked.reached_old || empty || scan.cursor.is_none() {
            scan.end(false)
        } else if scan.picked.posts.len() >= budget {
            scan.end(true)
        } else {
            scan.turn(client)
        }
    }
}

/// A scan picks posts only, none older than the moment, and no more than the
/// budget.
pub open spec fn well_picked(picked: PickedModel, cutoff: Real, budget: usize) -> bool {
    &&& picked.posts.len() <= budget
    &&& forall|i: int|
        0 <= i < picked.posts.len() ==> (#[trigger] picked.posts[i]).kind == ItemKind::Post
            && at_or_after(picked.posts[i].created_utc, cutoff)
}

/// Picking keeps to posts that are recent, and to the budget.
pub proof fn law_picked_posts_are_recent(
    picked: PickedModel,
    items: Seq<ItemModel>,
    cutoff: Real,
    budget: usize,
)
    requires
        well_picked(picked, cutoff, budget),
    ensures
        well_picked(picked.with_all(items, cutoff, budget), cutoff, budget),
    decreases items.len(),
{
    if items.len() > 0 {
        law_picked_posts_are_recent(picked, items.drop_last(), cutoff, budget);
    }
}

/// A scan without a gap met an older post, or read the listing to its end: the
/// budget left no recent post out, and no page that may be read was left.
pub proof fn law_scan_without_gap_is_complete(scan: ScanModel, value: JsonModel)
    ensures
        scan.paged(value) matches ScanStepModel::Picked(plan) && !plan.gap ==> {
            let page = parse::listing_page(value);
            let picked = scan.picked.with_all(page.items, scan.cutoff, scan.budget);
            &&& !picked.left_out
            &&& picked.reached_old || page.items.len() == 0 || page.after is None
        },
{
}

/// What picking makes of the posts among some items: the first so many of them
/// are picked, all recent, and the one after them, where there is one, is
/// either not recent or beyond the budget.
pub open spec fn picks(
    picked: PickedModel,
    items: Seq<ItemModel>,
    cutoff: Real,
    budget: usize,
    n: int,
    result: PickedModel,
) -> bool {
    let posts = items.filter(|item: ItemModel| item.kind == ItemKind::Post);
    &&& 0 <= n <= posts.len()
    &&& result.posts == picked.posts + posts.take(n)
    &&& forall|i: int|
        0 <= i < n ==> at_or_after((#[trigger] posts[i]).created_utc, cutoff) && picked.posts.len()
            + i < budget
    &&& result.reached_old <==> n < posts.len() && !at_or_after(posts[n].created_utc, cutoff)
    &&& result.left_out <==> n < posts.len() && at_or_after(posts[n].created_utc, cutoff)
        && picked.posts.len() + n >= budget
    &&& n == posts.len() || result.reached_old || result.left_out
}

/// Picking takes every post in order while it is recent and the budget reaches,
/// and stops at the first that is not recent or not in the budget. What is no
/// post does not count.
pub proof fn law_every_recent_post_is_picked(
    picked: PickedModel,
    items: Seq<ItemModel>,
    cutoff: Real,
    budget: usize,
)
    requires
        !picked.reached_old,
        !picked.left_out,
    ensures
        exists|n: int| #[trigger]
            picks(
                picked,
                items,
                cutoff,
                budget,
                n,
                picked.with_all(items, cutoff, budget),
            ),
    decreases items.len(),
{
    reveal(Seq::filter);
    let is_post = |item: ItemModel| item.kind == ItemKind::Post;
    let posts = items.filter(is_post);
    let result = picked.with_all(items, cutoff, budget);
    if items.len() == 0 {
        assert(picked.posts + posts.take(0) =~= picked.posts);
        assert(picks(picked, items, cutoff, budget, 0, result));
    } else {
        let front = items.drop_last();
        law_every_recent_post_is_picked(picked, front, cutoff, budget);
        let before = picked.with_all(front, cutoff, budget);
        let n = choose|n: int| #[trigger] picks(picked, front, cutoff, budget, n, before);
        let had = front.filter(is_post);
        if items.last().kind == ItemKind::Post {
            assert(posts == had.push(items.last()));
            assert(posts.take(n) =~= had.take(n));
            assert forall|i: int| 0 <= i < had.len() implies posts[i] == #[trigger] had[i] by {}
            if n == had.len() && at_or_after(items.last().created_utc, cutoff)
                && picked.posts.len() + n < budget {
                assert(picked.posts + posts.take(n + 1) =~= before.posts.push(items.last()));
                assert forall|i: int| 0 <= i < n + 1 implies at_or_after(
                    (#[trigger] posts[i]).created_utc,
                    cutoff,
                ) && picked.posts.len() + i < budget by {
                    if i < n {
                        assert(posts[i] == had[i]);
                    }
                }
                assert(picks(picked, items, cutoff, budget, n + 1, result));
            } else {
                assert forall|i: int| 0 <= i < n implies at_or_after(
                    (#[trigger] posts[i]).created_utc,
                    cutoff,
                ) && picked.posts.len() + i < budget by {
                    assert(posts[i] == had[i]);
                }
                if n < had.len() {
                    assert(posts[n] == had[n]);
                }
                assert(picks(picked, items, cutoff, budget, n, result));
            }
        } else {
            assert(posts == had);
            assert(picks(picked, items, cutoff, budget, n, result));
        }
    }
}

/// A moment is at or after itself, and of two moments that are numbers one is
/// at or after the other. Moments after the beginning of the clock are ordered
/// as their bit patterns are. A post without a moment is not recent.
pub proof fn law_moments_are_in_order(a: Real, b: Real, c: Real)
    ensures
        !at_or_after(None, a),
        a.bits <= 0x7ff0_0000_0000_0000 && b.bits <= 0x7ff0_0000_0000_0000 ==> (at_or_after(
            Some(a),
            b,
        ) <==> a.bits >= b.bits),
        a.bits <= 0x7ff0_0000_0000_0000 && 0x8000_0000_0000_0000 < b.bits
            <= 0xfff0_0000_0000_0000 ==> at_or_after(Some(a), b) && !at_or_after(Some(b), a),
        at_or_after(Some(a), b) && at_or_after(Some(b), c) ==> at_or_after(Some(a), c),
{
}

/// A scan reads a page of the newest posts after another, behind the last one,
/// until an older post is met, the listing is at its end, the budget is used up
/// or no more pages may be read. It leaves a gap where a recent post was beyond
/// the budget, and where a further page was not read though no older post was
/// met.
pub proof fn law_scans_go_on_until_an_older_post(scan: ScanModel, value: JsonModel)
    requires
        address::named_subreddit(scan.subreddit) is Ok,
        !scan.picked.reached_old,
        !scan.picked.left_out,
    ensures
        ({
            let page = parse::listing_page(value);
            let picked = scan.picked.with_all(page.items, scan.cutoff, scan.budget);
            let spent = picked.posts.len() >= scan.budget || scan.progress.http_requests
                >= scan.page_cap;
            let over = picked.reached_old || page.items.len() == 0 || page.after is None;
            &&& picked.left_out || over || spent ==> {
                &&& scan.paged(value) matches ScanStepModel::Picked(plan)
                &&& plan.posts == picked.posts
                &&& plan.gap <==> picked.left_out || !over
                &&& plan.subreddit == scan.subreddit
                &&& plan.progress == scan.progress
            }
            &&& !(picked.left_out || over || spent) ==> {
                &&& scan.paged(value) matches ScanStepModel::Fetch { request, scan: next }
                &&& next.picked == picked
                &&& next.cursor == page.after
                &&& next.cutoff == scan.cutoff
                &&& next.budget == scan.budget
                &&& next.page_cap == scan.page_cap
                &&& next.subreddit == scan.subreddit
                &&& next.progress.http_requests == scan.progress.http_requests + 1
                &&& next.progress.new_items == scan.progress.new_items
                &&& next.progress.updated_items == scan.progress.updated_items
                &&& request.path == "/r/"@ + address::named_subreddit(scan.subreddit)->Ok_0
                    + "/"@ + "new"@ + "."@ + "json"@
                &&& request.params == seq![
                    ("limit"@, crate::number::decimal(100)),
                    ("after"@, page.after->0),
                    ("raw_json"@, "1"@),
                ]
                &&& !request.rss
            }
        }),
{
    let page = parse::listing_page(value);
    match scan.paged(value) {
        ScanStepModel::Fetch { request, .. } => {
            assert(request.params =~= seq![
                ("limit"@, crate::number::decimal(100)),
                ("after"@, page.after->0),
                ("raw_json"@, "1"@),
            ]);
        },
        _ => {},
    }
}

/// A scan begins with a request for the newest posts, and with at least one post
/// and one page that may be read.
pub proof fn law_scans_begin_with_the_newest(
    subreddit: Seq<char>,
    cutoff: Real,
    settings: BackfillSettings,
)
    requires
        address::named_subreddit(subreddit) is Ok,
    ensures
        ScanModel::begin(subreddit, cutoff, settings).turn() matches ScanStepModel::Fetch {
            request,
            scan,
        } && {
            &&& request.path == "/r/"@ + address::named_subreddit(subreddit)->Ok_0 + "/"@ + "new"@
                + "."@ + "json"@
            &&& request.params == seq![("limit"@, crate::number::decimal(100)), ("raw_json"@, "1"@)]
            &&& scan.picked.posts.len() == 0 && !scan.picked.reached_old && !scan.picked.left_out
            &&& scan.progress.http_requests == 1
            &&& scan.progress.new_items == 0 && scan.progress.updated_items == 0
            &&& scan.cutoff == cutoff
            &&& scan.subreddit == subreddit
            &&& scan.cursor is None
            &&& scan.budget == settings.budget || (settings.budget == 0 && scan.budget == 1)
            &&& scan.page_cap == settings.pages || (settings.pages == 0 && scan.page_cap == 1)
        },
{
    match ScanModel::begin(subreddit, cutoff, settings).turn() {
        ScanStepModel::Fetch { request, .. } => {
            assert(request.params =~= seq![
                ("limit"@, crate::number::decimal(100)),
                ("raw_json"@, "1"@),
            ]);
        },
        _ => {},
    }
}

// ---------------------------------------------------------------------------
// Captured threads
// ---------------------------------------------------------------------------

impl PlanModel {
    /// The backfill after one more captured thread.
    pub open spec fn captured(
        self,
        truncated: bool,
        http_requests: usize,
        stats: UpsertStats,
    ) -> PlanModel {
        PlanModel {
            gap: self.gap || truncated,
            progress: SyncProgress {
                http_requests: model::capped(
                    self.progress.http_requests as nat + http_requests as nat,
                ),
                ..self.progress.stored(stats)
            },
            ..self
        }
    }

    /// The report of a backfill.
    pub open spec fn report(self) -> DoneModel {
        sync::completed(
            self.subreddit,
            StreamKind::Backfill,
            self.progress,
            self.gap,
            None,
            None,
        )
    }
}

impl BackfillPlan {
    /// Counts one more captured thread.
    pub fn capture(&mut self, truncated: bool, http_requests: usize, stats: UpsertStats)
        ensures
            final(self)@ == old(self)@.captured(truncated, http_requests, stats),
    {
        let progress = self.progress.store(stats);
        self.progress =
        SyncProgress {
            http_requests: progress.http_requests.saturating_add(http_requests),
            ..progress
        };
        self.gap = self.gap || truncated;
    }

    /// The report of a backfill.
    pub fn report(&self) -> (r: SyncDone)
        ensures
            r@ == self@.report(),
    {
        sync::complete(
            self.subreddit.as_str(),
            StreamKind::Backfill,
            self.progress,
            self.gap,
            None,
            None,
        )
    }
}

/// A thread that a backfill captured: whether it was truncated, what requests it
/// took, and what became of its items.
pub struct CapturedThread {
    pub truncated: bool,
    pub http_requests: usize,
    pub stats: UpsertStats,
}

/// A backfill after some captured threads, one after another.
pub open spec fn captured_all(plan: PlanModel, threads: Seq<CapturedThread>) -> PlanModel
    decreases threads.len(),
{
    if threads.len() == 0 {
        plan
    } else {
        captured_all(plan, threads.drop_last()).captured(
            threads.last().truncated,
            threads.last().http_requests,
            threads.last().stats,
        )
    }
}

/// The sum of the requests, the new and the updated items of some threads.
pub open spec fn taken_by(threads: Seq<CapturedThread>) -> (nat, nat, nat)
    decreases threads.len(),
{
    if threads.len() == 0 {
        (0, 0, 0)
    } else {
        let (requests, new, updated) = taken_by(threads.drop_last());
        (
            requests + threads.last().http_requests as nat,
            new + threads.last().stats.new_items as nat,
            updated + threads.last().stats.updated_items as nat,
        )
    }
}

/// A gap stays. A backfill is reported with a gap exactly where its scan left
/// one or at least one of the captured threads was truncated, in whatever order.
/// The report counts the requests and items of the scan and of every thread.
pub proof fn law_gaps_stay(plan: PlanModel, threads: Seq<CapturedThread>)
    requires
        plan.progress.http_requests + taken_by(threads).0 <= usize::MAX,
        plan.progress.new_items + taken_by(threads).1 <= usize::MAX,
        plan.progress.updated_items + taken_by(threads).2 <= usize::MAX,
    ensures
        captured_all(plan, threads).report().report.status == "gap"@ <==> (plan.gap || exists|
            i: int,
        |
            0 <= i < threads.len() && (#[trigger] threads[i]).truncated),
        captured_all(plan, threads).report().report.status == "ok"@ <==> !(plan.gap || exists|
            i: int,
        |
            0 <= i < threads.len() && (#[trigger] threads[i]).truncated),
        captured_all(plan, threads).gap <==> (plan.gap || exists|i: int|
            0 <= i < threads.len() && (#[trigger] threads[i]).truncated),
        captured_all(plan, threads).posts == plan.posts,
        captured_all(plan, threads).subreddit == plan.subreddit,
        captured_all(plan, threads).report().report.http_requests == plan.progress.http_requests
            + taken_by(threads).0,
        captured_all(plan, threads).report().report.new_items == plan.progress.new_items
            + taken_by(threads).1,
        captured_all(plan, threads).report().report.updated_items == plan.progress.updated_items
            + taken_by(threads).2,
        captured_all(plan, threads).report().report.kind == StreamKind::Backfill,
        captured_all(plan, threads).report().report.remaining_items is None,
        captured_all(plan, threads).report().report.notice is None,
        captured_all(plan, threads).report().newest is None,
        captured_all(plan, threads).report().failure is None,
    decreases threads.len(),
{
    reveal_strlit("gap");
    reveal_strlit("ok");
    assert("gap"@.len() != "ok"@.len());
    if threads.len() > 0 {
        let front = threads.drop_last();
        law_gaps_stay(plan, front);
        let cut = exists|i: int| 0 <= i < threads.len() && (#[trigger] threads[i]).truncated;
        let had = exists|i: int| 0 <= i < front.len() && (#[trigger] front[i]).truncated;
        assert(cut <==> had || threads.last().truncated) by {
            if cut {
                let i = choose|i: int| 0 <= i < threads.len() && (#[trigger] threads[i]).truncated;
                if i < front.len() {
                    assert(front[i].truncated);
                }
            }
            if had {
                let i = choose|i: int| 0 <= i < front.len() && (#[trigger] front[i]).truncated;
                assert(threads[i].truncated);
            }
            if threads.last().truncated {
                assert(threads[threads.len() - 1].truncated);
            }
        }
    }
}

/// The failure where a thread cannot be captured from a feed.
pub const DEGRADED: &'static str =
    "rdt pull requires JSON parent metadata; RSS degraded thread output was not written";

/// The failure where a thread has no post.
pub const NO_POST: &'static str = "thread has no post to store";

/// What can be stored of a thread. A thread that was read from a feed cannot.
pub open spec fn storable(thread: ThreadModel) -> Result<ItemModel, ErrorModel> {
    if thread.degraded {
        Err(ErrorModel::Message(DEGRADED@))
    } else {
        match thread.post {
            Some(post) => Ok(post),
            None => Err(ErrorModel::Message(NO_POST@)),
        }
    }
}

/// The post and the comments of a thread that can be stored.
pub fn thread_to_store(thread: ThreadView) -> (r: Result<(RedditItem, Vec<RedditItem>), RdtError>)
    ensures
        match r {
            Ok((post, comments)) => storable(thread@) == Ok::<ItemModel, ErrorModel>(post@)
                && model::items_model(comments@) == thread@.comments,
            Err(e) => storable(thread@) == Err::<ItemModel, ErrorModel>(e@),
        },
{
    if thread.degraded {
        return Err(RdtError::say(DEGRADED));
    }
    match thread.post {
        Some(post) => Ok((post, thread.comments)),
        None => Err(RdtError::say(NO_POST)),
    }
}

/// The report of a captured thread.
pub open spec fn pull_done(
    subreddit: Option<Seq<char>>,
    truncated: bool,
    http_requests: usize,
    notice: Option<Seq<char>>,
    stats: UpsertStats,
) -> ReportModel {
    ReportModel {
        subreddit: match subreddit {
            Some(name) => address::bare_subreddit(name),
            None => "unknown"@,
        },
        kind: StreamKind::Backfill,
        new_items: stats.new_items,
        updated_items: stats.updated_items,
        http_requests,
        status: store::status_word(truncated),
        remaining_items: None,
        notice,
    }
}

/// The report of a captured thread: one that the requests did not reach to the
/// end of has a gap.
pub fn pull_report(
    subreddit: Option<&str>,
    truncated: bool,
    http_requests: usize,
    notice: Option<String>,
    stats: UpsertStats,
) -> (r: SyncStreamReport)
    ensures
        r@ == pull_done(
            text::opt_str(subreddit),
            truncated,
            http_requests,
            text::opt(notice),
            stats,
        ),
{
    SyncStreamReport {
        subreddit: match subreddit {
            Some(name) => store::normalize_subreddit(name),
            None => "unknown".to_owned(),
        },
        kind: StreamKind::Backfill,
        new_items: stats.new_items,
        updated_items: stats.updated_items,
        http_requests,
        status: store::status_text(truncated),
        remaining_items: None,
        notice,
    }
}

/// A thread can be stored exactly where it was read as JSON and has a post, and
/// what is stored is that post.
pub proof fn law_only_whole_threads_are_stored(thread: ThreadModel)
    ensures
        storable(thread) is Ok <==> !thread.degraded && thread.post is Some,
        storable(thread) matches Ok(post) ==> thread.post == Some(post),
{
}

/// The report of a captured thread has a gap exactly where the thread was
/// truncated, and counts what was stored and asked.
pub proof fn law_truncated_threads_are_reported(
    subreddit: Option<Seq<char>>,
    truncated: bool,
    http_requests: usize,
    notice: Option<Seq<char>>,
    stats: UpsertStats,
)
    ensures
        pull_done(subreddit, truncated, http_requests, notice, stats).status == "gap"@
            <==> truncated,
        pull_done(subreddit, truncated, http_requests, notice, stats).status == "ok"@
            <==> !truncated,
        pull_done(subreddit, truncated, http_requests, notice, stats).new_items == stats.new_items,
        pull_done(subreddit, truncated, http_requests, notice, stats).updated_items
            == stats.updated_items,
        pull_done(subreddit, truncated, http_requests, notice, stats).http_requests
            == http_requests,
        pull_done(subreddit, truncated, http_requests, notice, stats).notice == notice,
        pull_done(subreddit, truncated, http_requests, notice, stats).remaining_items is None,
{
    reveal_strlit("gap");
    reveal_strlit("ok");
    assert("gap"@.len() != "ok"@.len());
}

/// What a command does not set of a backfill is two days, three posts, one page
/// and ten requests for each thread. A backfill looks back whole days, and reads a
/// picked post at its permalink, or by its full name where it has none.
pub proof fn law_backfills_are_small_unless_told(
    command: SyncCommand,
    now: int,
    days: u32,
    post: ItemModel,
)
    ensures
        command.days matches Some(n) ==> settings_of(command).days == n,
        command.days is None ==> settings_of(command).days == 2,
        command.budget matches Some(n) ==> settings_of(command).budget == n,
        command.budget is None ==> settings_of(command).budget == 3,
        command.pages matches Some(n) ==> settings_of(command).pages == n,
        command.pages is None ==> settings_of(command).pages == 1,
        command.max_requests matches Some(n) ==> settings_of(command).max_requests == n,
        command.max_requests is None ==> settings_of(command).max_requests == 10,
        cutoff_before(now, days) + days * 24 * 60 * 60 == now,
        post.permalink matches Some(link) ==> post_target(post) == link,
        post.permalink is None ==> post_target(post) == "t3_"@ + post.id,
{
    assert(days * 24 * 60 * 60 == days * 86400) by (nonlinear_arith);
}

/// An answer that can be read is read as a page, and one that cannot or did not
/// come ends the scan as a failure.
pub proof fn law_scans_end_with_a_failed_answer(
    scan: ScanModel,
    body: Seq<char>,
    value: JsonModel,
    e: ErrorModel,
)
    ensures
        listing::document(body) == Ok::<JsonModel, ErrorModel>(value) ==> scan.after(Ok(body))
            == scan.paged(value),
        listing::document(body) == Err::<JsonModel, ErrorModel>(e) ==> (
        scan.after(Ok(body)) matches ScanStepModel::Failed(done) && done.failure == Some(e)),
        scan.after(Err(e)) matches ScanStepModel::Failed(done) && done.failure == Some(e)
            && done.newest is None && done.report.kind == StreamKind::Backfill
            && done.report.status == "error"@ && done.report.http_requests
            == scan.progress.http_requests,
{
}

} // verus!
