//! What is kept of captured items: how a new sighting changes what is stored,
//! and how a capture is reported.
use vstd::prelude::*;

use crate::address;
use crate::error::{ErrorModel, RdtError};
use crate::json::Real;
use crate::model;
use crate::model::{ItemKind, ItemModel, ItemSource, RedditItem};
use crate::number;
use crate::text;

verus! {

// ---------------------------------------------------------------------------
// Reports
// ---------------------------------------------------------------------------

/// What a capture reads.
#[derive(Debug, Clone, Copy, PartialEq, Eq, Structural)]
pub enum StreamKind {
    Posts,
    Comments,
    Backfill,
    Refresh,
}

impl StreamKind {
    /// The word for it in reports.
    pub open spec fn word(self) -> Seq<char> {
        match self {
            StreamKind::Posts => "posts"@,
            StreamKind::Comments => "comments"@,
            StreamKind::Backfill => "backfill"@,
            StreamKind::Refresh => "refresh"@,
        }
    }

    /// The word for it in reports.
    pub fn as_str(self) -> (r: &'static str)
        ensures
            r@ == self.word(),
    {
        match self {
            StreamKind::Posts => "posts",
            StreamKind::Comments => "comments",
            StreamKind::Backfill => "backfill",
            StreamKind::Refresh => "refresh",
        }
    }

    /// The kind of item that the capture stores, where it stores only one.
    pub open spec fn stores(self) -> Option<ItemKind> {
        match self {
            StreamKind::Posts => Some(ItemKind::Post),
            StreamKind::Comments => Some(ItemKind::Comment),
            StreamKind::Backfill => None,
            StreamKind::Refresh => Some(ItemKind::Post),
        }
    }

    /// Whether the capture stores an item.
    pub fn takes(self, item: &RedditItem) -> (r: bool)
        ensures
            r == (self.stores() == Some(item@.kind)),
    {
        match self {
            StreamKind::Posts => item.kind == ItemKind::Post,
            StreamKind::Comments => item.kind == ItemKind::Comment,
            StreamKind::Backfill => false,
            StreamKind::Refresh => item.kind == ItemKind::Post,
        }
    }
}

/// The report of a capture.
#[derive(Debug)]
pub struct SyncStreamReport {
    pub subreddit: String,
    pub kind: StreamKind,
    pub new_items: usize,
    pub updated_items: usize,
    pub http_requests: usize,
    pub status: String,
    pub remaining_items: Option<usize>,
    pub notice: Option<String>,
}

/// What a [`SyncStreamReport`] holds.
pub struct ReportModel {
    pub subreddit: Seq<char>,
    pub kind: StreamKind,
    pub new_items: usize,
    pub updated_items: usize,
    pub http_requests: usize,
    pub status: Seq<char>,
    pub remaining_items: Option<usize>,
    pub notice: Option<Seq<char>>,
}

impl View for SyncStreamReport {
    type V = ReportModel;

    open spec fn view(&self) -> ReportModel {
        ReportModel {
            subreddit: self.subreddit@,
            kind: self.kind,
            new_items: self.new_items,
            updated_items: self.updated_items,
            http_requests: self.http_requests,
            status: self.status@,
            remaining_items: self.remaining_items,
            notice: text::opt(self.notice),
        }
    }
}

/// What reports hold.
pub open spec fn reports_model(reports: Seq<SyncStreamReport>) -> Seq<ReportModel> {
    Seq::new(reports.len(), |i: int| reports[i]@)
}

/// The status of a capture that went through: whether anything was left out.
pub open spec fn status_word(gap: bool) -> Seq<char> {
    if gap {
        "gap"@
    } else {
        "ok"@
    }
}

/// The status of a capture that went through.
pub fn status_text(gap: bool) -> (r: String)
    ensures
        r@ == status_word(gap),
{
    if gap {
        "gap".to_owned()
    } else {
        "ok".to_owned()
    }
}

/// A subreddit name without what may stand around it.
pub fn normalize_subreddit(input: &str) -> (r: String)
    ensures
        r@ == address::bare_subreddit(input@),
{
    address::clean_subreddit(input)
}

/// The items that a capture stores, in order.
pub open spec fn relevant(kind: StreamKind, items: Seq<ItemModel>) -> Seq<ItemModel>
    decreases items.len(),
{
    if items.len() == 0 {
        Seq::empty()
    } else if kind.stores() == Some(items.last().kind) {
        relevant(kind, items.drop_last()).push(items.last())
    } else {
        relevant(kind, items.drop_last())
    }
}

/// The items that a capture stores.
pub fn relevant_items(kind: StreamKind, items: Vec<RedditItem>) -> (r: Vec<RedditItem>)
    ensures
        model::items_model(r@) == relevant(kind, model::items_model(items@)),
{
    let ghost all = model::items_model(items@);
    let mut out: Vec<RedditItem> = Vec::new();
    assert(all.take(0) =~= Seq::empty());
    assert(model::items_model(out@) =~= Seq::empty());
    for item in it: items
        invariant
            it.seq() == items@,
            all == model::items_model(items@),
            model::items_model(out@) == relevant(kind, all.take(it.index())),
    {
        let ghost t = all.take(it.index() + 1);
        let ghost had = model::items_model(out@);
        let ghost one = item@;
        proof {
            assert(t.drop_last() =~= all.take(it.index()));
            assert(t.last() == one);
        }
        if kind.takes(&item) {
            out.push(item);
            assert(model::items_model(out@) =~= had.push(one));
        }
    }
    assert(all.take(all.len() as int) =~= all);
    out
}

/// A capture of posts, and a refresh, stores exactly the posts among the items,
/// and a capture of comments exactly the comments, each in its order.
pub proof fn law_captures_store_their_kind(items: Seq<ItemModel>)
    ensures
        relevant(StreamKind::Posts, items) == items.filter(
            |item: ItemModel| item.kind == ItemKind::Post,
        ),
        relevant(StreamKind::Refresh, items) == items.filter(
            |item: ItemModel| item.kind == ItemKind::Post,
        ),
        relevant(StreamKind::Comments, items) == items.filter(
            |item: ItemModel| item.kind == ItemKind::Comment,
        ),
    decreases items.len(),
{
    reveal(Seq::filter);
    if items.len() > 0 {
        law_captures_store_their_kind(items.drop_last());
    }
}

// ---------------------------------------------------------------------------
// Sightings
// ---------------------------------------------------------------------------

/// The newer of two values, or the older one where the newer is absent.
pub open spec fn kept<T>(seen: Option<T>, stored: Option<T>) -> Option<T> {
    if seen is Some {
        seen
    } else {
        stored
    }
}

/// A stored item after a new sighting. What was read as JSON replaces the
/// stored item. What was read from a feed replaces what it tells, and neither
/// takes away what the feed does not tell nor that the item was once read as
/// JSON.
pub open spec fn merged(stored: ItemModel, seen: ItemModel) -> ItemModel {
    if seen.source != ItemSource::Rss {
        seen
    } else {
        ItemModel {
            parent_id: kept(seen.parent_id, stored.parent_id),
            post_id: kept(seen.post_id, stored.post_id),
            title: kept(seen.title, stored.title),
            author: kept(seen.author, stored.author),
            subreddit: kept(seen.subreddit, stored.subreddit),
            body: kept(seen.body, stored.body),
            flair: kept(seen.flair, stored.flair),
            is_self: kept(seen.is_self, stored.is_self),
            over_18: kept(seen.over_18, stored.over_18),
            score: kept(seen.score, stored.score),
            upvote_ratio: kept(seen.upvote_ratio, stored.upvote_ratio),
            num_comments: kept(seen.num_comments, stored.num_comments),
            created_utc: kept(seen.created_utc, stored.created_utc),
            edited_utc: kept(seen.edited_utc, stored.edited_utc),
            permalink: kept(seen.permalink, stored.permalink),
            url: kept(seen.url, stored.url),
            depth: if stored.source == ItemSource::Json {
                stored.depth
            } else {
                seen.depth
            },
            source: if stored.source == ItemSource::Json {
                ItemSource::Json
            } else {
                ItemSource::Rss
            },
            ..seen
        }
    }
}

fn keep_text(seen: Option<String>, stored: Option<String>) -> (r: Option<String>)
    ensures
        text::opt(r) == kept(text::opt(seen), text::opt(stored)),
{
    if seen.is_some() {
        seen
    } else {
        stored
    }
}

fn keep_flag(seen: Option<bool>, stored: Option<bool>) -> (r: Option<bool>)
    ensures
        r == kept(seen, stored),
{
    if seen.is_some() {
        seen
    } else {
        stored
    }
}

fn keep_count(seen: Option<i64>, stored: Option<i64>) -> (r: Option<i64>)
    ensures
        r == kept(seen, stored),
{
    if seen.is_some() {
        seen
    } else {
        stored
    }
}

fn keep_real(seen: Option<Real>, stored: Option<Real>) -> (r: Option<Real>)
    ensures
        r == kept(seen, stored),
{
    if seen.is_some() {
        seen
    } else {
        stored
    }
}

/// A stored item after a new sighting.
pub fn merge_item(stored: RedditItem, seen: RedditItem) -> (r: RedditItem)
    ensures
        r@ == merged(stored@, seen@),
{
    if seen.source != ItemSource::Rss {
        return seen;
    }
    RedditItem {
        index: seen.index,
        kind: seen.kind,
        id: seen.id,
        fullname: seen.fullname,
        parent_id: keep_text(seen.parent_id, stored.parent_id),
        post_id: keep_text(seen.post_id, stored.post_id),
        title: keep_text(seen.title, stored.title),
        author: keep_text(seen.author, stored.author),
        subreddit: keep_text(seen.subreddit, stored.subreddit),
        body: keep_text(seen.body, stored.body),
        flair: keep_text(seen.flair, stored.flair),
        is_self: keep_flag(seen.is_self, stored.is_self),
        over_18: keep_flag(seen.over_18, stored.over_18),
        score: keep_count(seen.score, stored.score),
        upvote_ratio: keep_real(seen.upvote_ratio, stored.upvote_ratio),
        num_comments: keep_count(seen.num_comments, stored.num_comments),
        created_utc: keep_real(seen.created_utc, stored.created_utc),
        edited_utc: keep_real(seen.edited_utc, stored.edited_utc),
        permalink: keep_text(seen.permalink, stored.permalink),
        url: keep_text(seen.url, stored.url),
        depth: if stored.source == ItemSource::Json {
            stored.depth
        } else {
            seen.depth
        },
        source: if stored.source == ItemSource::Json {
            ItemSource::Json
        } else {
            ItemSource::Rss
        },
    }
}

/// A later sighting never makes a stored item look worse known than it is, and
/// a sighting as JSON always makes it known as JSON.
pub proof fn law_provenance_is_never_downgraded(stored: ItemModel, seen: ItemModel)
    ensures
        stored.source == ItemSource::Json && seen.source != ItemSource::Local ==> merged(
            stored,
            seen,
        ).source == ItemSource::Json,
        seen.source == ItemSource::Json ==> merged(stored, seen) == seen,
{
}

/// A sighting in a feed erases nothing that is stored, and moves nothing that
/// was read as JSON.
pub proof fn law_feeds_erase_nothing(stored: ItemModel, seen: ItemModel)
    requires
        seen.source == ItemSource::Rss,
    ensures
        stored.parent_id is Some ==> merged(stored, seen).parent_id is Some,
        stored.post_id is Some ==> merged(stored, seen).post_id is Some,
        stored.title is Some ==> merged(stored, seen).title is Some,
        stored.author is Some ==> merged(stored, seen).author is Some,
        stored.subreddit is Some ==> merged(stored, seen).subreddit is Some,
        stored.body is Some ==> merged(stored, seen).body is Some,
        stored.flair is Some ==> merged(stored, seen).flair is Some,
        stored.is_self is Some ==> merged(stored, seen).is_self is Some,
        stored.over_18 is Some ==> merged(stored, seen).over_18 is Some,
        stored.score is Some ==> merged(stored, seen).score is Some,
        stored.upvote_ratio is Some ==> merged(stored, seen).upvote_ratio is Some,
        stored.num_comments is Some ==> merged(stored, seen).num_comments is Some,
        stored.created_utc is Some ==> merged(stored, seen).created_utc is Some,
        stored.edited_utc is Some ==> merged(stored, seen).edited_utc is Some,
        stored.permalink is Some ==> merged(stored, seen).permalink is Some,
        stored.url is Some ==> merged(stored, seen).url is Some,
        stored.source == ItemSource::Json ==> merged(stored, seen).depth == stored.depth,
{
}

/// Each field of a stored item after a sighting in a feed is what the feed
/// tells of it, and what was stored where the feed tells nothing. The names are
/// those of the feed, which is no other item.
pub proof fn law_feeds_replace_what_they_tell(stored: ItemModel, seen: ItemModel)
    requires
        seen.source == ItemSource::Rss,
    ensures
        merged(stored, seen).parent_id == seen.parent_id || (seen.parent_id is None && merged(
            stored,
            seen,
        ).parent_id == stored.parent_id),
        merged(stored, seen).post_id == seen.post_id || (seen.post_id is None && merged(
            stored,
            seen,
        ).post_id == stored.post_id),
        merged(stored, seen).title == seen.title || (seen.title is None && merged(
            stored,
            seen,
        ).title == stored.title),
        merged(stored, seen).author == seen.author || (seen.author is None && merged(
            stored,
            seen,
        ).author == stored.author),
        merged(stored, seen).subreddit == seen.subreddit || (seen.subreddit is None && merged(
            stored,
            seen,
        ).subreddit == stored.subreddit),
        merged(stored, seen).body == seen.body || (seen.body is None && merged(stored, seen).body
            == stored.body),
        merged(stored, seen).flair == seen.flair || (seen.flair is None && merged(
            stored,
            seen,
        ).flair == stored.flair),
        merged(stored, seen).is_self == seen.is_self || (seen.is_self is None && merged(
            stored,
            seen,
        ).is_self == stored.is_self),
        merged(stored, seen).over_18 == seen.over_18 || (seen.over_18 is None && merged(
            stored,
            seen,
        ).over_18 == stored.over_18),
        merged(stored, seen).score == seen.score || (seen.score is None && merged(
            stored,
            seen,
        ).score == stored.score),
        merged(stored, seen).upvote_ratio == seen.upvote_ratio || (seen.upvote_ratio is None
            && merged(stored, seen).upvote_ratio == stored.upvote_ratio),
        merged(stored, seen).num_comments == seen.num_comments || (seen.num_comments is None
            && merged(stored, seen).num_comments == stored.num_comments),
        merged(stored, seen).created_utc == seen.created_utc || (seen.created_utc is None
            && merged(stored, seen).created_utc == stored.created_utc),
        merged(stored, seen).edited_utc == seen.edited_utc || (seen.edited_utc is None && merged(
            stored,
            seen,
        ).edited_utc == stored.edited_utc),
        merged(stored, seen).permalink == seen.permalink || (seen.permalink is None && merged(
            stored,
            seen,
        ).permalink == stored.permalink),
        merged(stored, seen).url == seen.url || (seen.url is None && merged(stored, seen).url
            == stored.url),
        merged(stored, ItemModel { source: ItemSource::Local, ..seen }) == (ItemModel {
            source: ItemSource::Local,
            ..seen
        }),
        merged(stored, seen).kind == seen.kind,
        merged(stored, seen).id == seen.id,
        merged(stored, seen).fullname == seen.fullname,
        merged(stored, seen).index == seen.index,
        stored.source != ItemSource::Json ==> merged(stored, seen).depth == seen.depth && merged(
            stored,
            seen,
        ).source == ItemSource::Rss,
{
}

/// Seeing the same thing twice changes nothing the second time.
pub proof fn law_sightings_are_idempotent(stored: ItemModel, seen: ItemModel)
    ensures
        merged(merged(stored, seen), seen) == merged(stored, seen),
{
}

/// How many items of a capture were known before it, how many it stored for
/// the first time, and how many again.
#[derive(Debug, Clone, Copy, PartialEq, Eq, Structural)]
pub struct UpsertStats {
    pub known: usize,
    pub new_items: usize,
    pub updated_items: usize,
}

impl UpsertStats {
    /// Nothing stored, of items of which so many are known.
    pub fn knowing(known: usize) -> (r: UpsertStats)
        ensures
            r == (UpsertStats { known, new_items: 0, updated_items: 0 }),
    {
        UpsertStats { known, new_items: 0, updated_items: 0 }
    }

    /// The counts after one more item, which was stored before or not.
    pub open spec fn counted(self, stored_before: bool) -> UpsertStats {
        if stored_before {
            UpsertStats {
                updated_items: model::capped(self.updated_items as nat + 1),
                ..self
            }
        } else {
            UpsertStats { new_items: model::capped(self.new_items as nat + 1), ..self }
        }
    }

    /// Counts one more item.
    pub fn count(self, stored_before: bool) -> (r: UpsertStats)
        ensures
            r == self.counted(stored_before),
    {
        if stored_before {
            UpsertStats { updated_items: self.updated_items.saturating_add(1), ..self }
        } else {
            UpsertStats { new_items: self.new_items.saturating_add(1), ..self }
        }
    }
}

/// The counts after some items, each stored before or not.
pub open spec fn counted_all(stats: UpsertStats, stored_before: Seq<bool>) -> UpsertStats
    decreases stored_before.len(),
{
    if stored_before.len() == 0 {
        stats
    } else {
        counted_all(stats, stored_before.drop_last()).counted(stored_before.last())
    }
}

/// Each stored item is counted once: as updated where it was stored before, and
/// as new where it was not. How many were known beforehand stays.
pub proof fn law_each_item_is_counted_once(stats: UpsertStats, stored_before: Seq<bool>)
    requires
        stats.new_items + stored_before.len() <= usize::MAX,
        stats.updated_items + stored_before.len() <= usize::MAX,
    ensures
        counted_all(stats, stored_before).known == stats.known,
        counted_all(stats, stored_before).updated_items == stats.updated_items
            + stored_before.filter(|before: bool| before).len(),
        counted_all(stats, stored_before).new_items == stats.new_items + stored_before.filter(
            |before: bool| !before,
        ).len(),
    decreases stored_before.len(),
{
    reveal(Seq::filter);
    if stored_before.len() > 0 {
        law_each_item_is_counted_once(stats, stored_before.drop_last());
        let front = stored_before.drop_last();
        front.lemma_filter_len(|before: bool| before);
        front.lemma_filter_len(|before: bool| !before);
    }
}

/// What to write for a sighting: the item itself where none is stored, else
/// the stored one with what the sighting adds.
pub fn sighted(stored: Option<RedditItem>, seen: RedditItem) -> (r: RedditItem)
    ensures
        r@ == match stored {
            Some(item) => merged(item@, seen@),
            None => seen@,
        },
{
    match stored {
        Some(item) => merge_item(item, seen),
        None => seen,
    }
}

// ---------------------------------------------------------------------------
// Times
// ---------------------------------------------------------------------------

/// The seconds in the unit that a text ends in: hours or days.
pub open spec fn unit_of(t: Seq<char>) -> Option<int> {
    if t.len() > 0 && t.last() == 'h' {
        Some(3600)
    } else if t.len() > 0 && t.last() == 'd' {
        Some(86400)
    } else {
        None
    }
}

/// The part of a text that is a number: what stands before the unit.
pub open spec fn number_part(value: Seq<char>) -> Seq<char> {
    let t = text::trim(value);
    match unit_of(t) {
        Some(_) => t.drop_last(),
        None => t,
    }
}

/// The moment that a text names: so many hours or days ago, or a number of
/// seconds. `None` where the text is no number.
pub open spec fn moment(value: Seq<char>, now: int) -> Option<int> {
    let t = text::trim(value);
    match unit_of(t) {
        Some(unit) => match number::parse_signed(t.drop_last()) {
            Some(n) => Some(now - n * unit),
            None => None,
        },
        None => number::parse_signed(t),
    }
}

/// The number is one that a clock can show.
pub open spec fn on_clock(n: int) -> bool {
    i64::MIN <= n <= i64::MAX
}

/// The seconds since the moment that a text names can be counted, and the
/// moment is one that a clock can show.
pub open spec fn moment_fits(value: Seq<char>, now: int) -> bool {
    let t = text::trim(value);
    match unit_of(t) {
        Some(unit) => match number::parse_signed(t.drop_last()) {
            Some(n) => on_clock(n * unit) && on_clock(now - n * unit),
            None => true,
        },
        None => true,
    }
}

/// A whole number with a unit behind it names the moment so many hours or days
/// before the present, and one without a unit that second itself. White space
/// around it does not matter, and nothing else names a moment.
pub proof fn law_moments_are_counted_back(
    value: Seq<char>,
    digits: Seq<char>,
    n: int,
    now: int,
)
    ensures
        number::parse_signed(digits) == Some(n) ==> {
            &&& text::trim(value) == digits.push('h') ==> moment(value, now) == Some(
                now - n * 60 * 60,
            )
            &&& text::trim(value) == digits.push('d') ==> moment(value, now) == Some(
                now - n * 24 * 60 * 60,
            )
            &&& text::trim(value) == digits && digits.last() != 'h' && digits.last() != 'd'
                ==> moment(value, now) == Some(n)
        },
        number::parse_signed(digits) is None ==> {
            &&& text::trim(value) == digits.push('h') ==> moment(value, now) is None
            &&& text::trim(value) == digits.push('d') ==> moment(value, now) is None
            &&& text::trim(value) == digits && digits.len() > 0 && digits.last() != 'h'
                && digits.last() != 'd' ==> moment(value, now) is None
        },
{
    assert(digits.push('h').drop_last() =~= digits);
    assert(digits.push('d').drop_last() =~= digits);
    assert(n * 60 * 60 == n * 3600) by (nonlinear_arith);
    assert(n * 24 * 60 * 60 == n * 86400) by (nonlinear_arith);
}

fn seconds_ago(digits: &[char], unit: i64, now: i64) -> (r: Option<i128>)
    requires
        unit == 3600 || unit == 86400,
    ensures
        match r {
            Some(at) => number::parse_signed(digits@) is Some && at == now
                - number::parse_signed(digits@)->0 * unit,
            None => number::parse_signed(digits@) is None,
        },
{
    match number::read_i64(digits) {
        Some(n) => {
            assert(-0x8000_0000_0000_0000 * 86400 <= n * unit <= 0x8000_0000_0000_0000 * 86400)
                by (nonlinear_arith)
                requires
                    -0x8000_0000_0000_0000 <= n <= 0x7fff_ffff_ffff_ffff,
                    unit == 3600 || unit == 86400,
            ;
            Some((now as i128) - (n as i128) * (unit as i128))
        },
        None => None,
    }
}

fn moment_of(value: &str, now: i64) -> (r: Option<i128>)
    ensures
        match r {
            Some(at) => moment(value@, now as int) == Some(at as int) && (moment_fits(
                value@,
                now as int,
            ) <==> unit_of(text::trim(value@)) is None || (on_clock(at as int) && on_clock(
                now - at,
            ))),
            None => moment(value@, now as int) is None && moment_fits(value@, now as int),
        },
{
    let chars = text::chars_of(value);
    let t = text::trimmed(&chars);
    let total: usize = t.len();
    if total > 0 && (t[total - 1] == 'h' || t[total - 1] == 'd') {
        let digits = &t[0..total - 1];
        assert(digits@ =~= t@.drop_last());
        let unit: i64 = if t[total - 1] == 'h' {
            3600
        } else {
            86400
        };
        seconds_ago(digits, unit, now)
    } else {
        match number::read_i64(t) {
            Some(n) => Some(n as i128),
            None => None,
        }
    }
}

/// Whether the moment that a text names, given the present one, can be
/// counted.
pub fn since_fits(value: &str, now: i64) -> (r: bool)
    ensures
        r == moment_fits(value@, now as int),
{
    let chars = text::chars_of(value);
    let t = text::trimmed(&chars);
    let total: usize = t.len();
    if total == 0 || (t[total - 1] != 'h' && t[total - 1] != 'd') {
        return true;
    }
    match moment_of(value, now) {
        Some(at) => {
            let least: i128 = i64::MIN as i128;
            let most: i128 = i64::MAX as i128;
            if at < least || at > most {
                return false;
            }
            let ago: i128 = now as i128 - at;
            least <= ago && ago <= most
        },
        None => true,
    }
}

fn number_text(value: &str) -> (r: String)
    ensures
        r@ == number_part(value@),
{
    let chars = text::chars_of(value);
    let t = text::trimmed(&chars);
    let total: usize = t.len();
    if total > 0 && (t[total - 1] == 'h' || t[total - 1] == 'd') {
        let digits = &t[0..total - 1];
        assert(digits@ =~= t@.drop_last());
        text::string_of(digits)
    } else {
        text::string_of(t)
    }
}

/// The moment that a text names, given the present one. A text that is no
/// number is refused in the words of the integer parser.
pub fn parse_since(value: &str, now: i64) -> (r: Result<i64, RdtError>)
    requires
        moment_fits(value@, now as int),
    ensures
        match r {
            Ok(at) => moment(value@, now as int) == Some(at as int),
            Err(e) => moment(value@, now as int) is None && e@ is Message
                && number::integer_refusal(number_part(value@)) == Some(e@->Message_0),
        },
{
    match moment_of(value, now) {
        Some(at) => Ok(at as i64),
        None => {
            let words = number::refusal_of(number_text(value).as_str());
            Err(RdtError::Message(words.unwrap()))
        },
    }
}

// ---------------------------------------------------------------------------
// Rows
// ---------------------------------------------------------------------------

/// What stands for bytes in a row that is shown.
pub open spec fn blob_words(len: nat) -> Seq<char> {
    "<blob "@ + number::decimal(len) + " bytes>"@
}

/// What stands for bytes in a row that is shown.
pub fn blob_text(len: usize) -> (r: String)
    ensures
        r@ == blob_words(len as nat),
{
    let mut out = "<blob ".to_owned();
    out.push_str(number::usize_text(len).as_str());
    out.push_str(" bytes>");
    out
}

/// Refuses a statement that would change the database.
pub fn ensure_read_statement(readonly: bool) -> (r: Result<(), RdtError>)
    ensures
        match r {
            Ok(_) => readonly,
            Err(e) => !readonly && e@ == ErrorModel::Message("rdt db query is read-only"@),
        },
{
    if readonly {
        Ok(())
    } else {
        Err(RdtError::say("rdt db query is read-only"))
    }
}

} // verus!
