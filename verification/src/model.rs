//! The things Reddit lists: posts, comments, subreddits and users, and the
//! pages and threads they come in.
use vstd::prelude::*;

use crate::json::Real;
use crate::text;

verus! {

/// What kind of thing an item is.
#[derive(Debug, Clone, Copy, PartialEq, Eq, Structural)]
pub enum ItemKind {
    Post,
    Comment,
    Subreddit,
    User,
    More,
    Unknown,
}

/// Where an item was read from.
#[derive(Debug, Clone, Copy, PartialEq, Eq, Structural)]
pub enum ItemSource {
    Json,
    Rss,
    Local,
}

/// A post, comment, subreddit or user.
#[derive(Debug)]
pub struct RedditItem {
    pub index: Option<usize>,
    pub kind: ItemKind,
    pub id: String,
    pub fullname: String,
    pub parent_id: Option<String>,
    pub post_id: Option<String>,
    pub title: Option<String>,
    pub author: Option<String>,
    pub subreddit: Option<String>,
    pub body: Option<String>,
    pub flair: Option<String>,
    pub is_self: Option<bool>,
    pub over_18: Option<bool>,
    pub score: Option<i64>,
    pub upvote_ratio: Option<Real>,
    pub num_comments: Option<i64>,
    pub created_utc: Option<Real>,
    pub edited_utc: Option<Real>,
    pub permalink: Option<String>,
    pub url: Option<String>,
    pub depth: usize,
    pub source: ItemSource,
}

/// What a [`RedditItem`] holds.
pub struct ItemModel {
    pub index: Option<usize>,
    pub kind: ItemKind,
    pub id: Seq<char>,
    pub fullname: Seq<char>,
    pub parent_id: Option<Seq<char>>,
    pub post_id: Option<Seq<char>>,
    pub title: Option<Seq<char>>,
    pub author: Option<Seq<char>>,
    pub subreddit: Option<Seq<char>>,
    pub body: Option<Seq<char>>,
    pub flair: Option<Seq<char>>,
    pub is_self: Option<bool>,
    pub over_18: Option<bool>,
    pub score: Option<i64>,
    pub upvote_ratio: Option<Real>,
    pub num_comments: Option<i64>,
    pub created_utc: Option<Real>,
    pub edited_utc: Option<Real>,
    pub permalink: Option<Seq<char>>,
    pub url: Option<Seq<char>>,
    pub depth: usize,
    pub source: ItemSource,
}

impl View for RedditItem {
    type V = ItemModel;

    open spec fn view(&self) -> ItemModel {
        ItemModel {
            index: self.index,
            kind: self.kind,
            id: self.id@,
            fullname: self.fullname@,
            parent_id: text::opt(self.parent_id),
            post_id: text::opt(self.post_id),
            title: text::opt(self.title),
            author: text::opt(self.author),
            subreddit: text::opt(self.subreddit),
            body: text::opt(self.body),
            flair: text::opt(self.flair),
            is_self: self.is_self,
            over_18: self.over_18,
            score: self.score,
            upvote_ratio: self.upvote_ratio,
            num_comments: self.num_comments,
            created_utc: self.created_utc,
            edited_utc: self.edited_utc,
            permalink: text::opt(self.permalink),
            url: text::opt(self.url),
            depth: self.depth,
            source: self.source,
        }
    }
}

/// What a sequence of items holds.
pub open spec fn items_model(items: Seq<RedditItem>) -> Seq<ItemModel> {
    Seq::new(items.len(), |i: int| items[i]@)
}

/// What an optional item holds.
pub open spec fn opt_item(item: Option<RedditItem>) -> Option<ItemModel> {
    match item {
        Some(i) => Some(i@),
        None => None,
    }
}

/// A copy of an optional string.
pub fn copy_opt(s: &Option<String>) -> (r: Option<String>)
    ensures
        text::opt(r) == text::opt(*s),
{
    match s {
        Some(t) => Some(t.clone()),
        None => None,
    }
}

impl Clone for RedditItem {
    fn clone(&self) -> (r: Self)
        ensures
            r@ == self@,
    {
        RedditItem {
            index: self.index,
            kind: self.kind,
            id: self.id.clone(),
            fullname: self.fullname.clone(),
            parent_id: copy_opt(&self.parent_id),
            post_id: copy_opt(&self.post_id),
            title: copy_opt(&self.title),
            author: copy_opt(&self.author),
            subreddit: copy_opt(&self.subreddit),
            body: copy_opt(&self.body),
            flair: copy_opt(&self.flair),
            is_self: self.is_self,
            over_18: self.over_18,
            score: self.score,
            upvote_ratio: self.upvote_ratio,
            num_comments: self.num_comments,
            created_utc: self.created_utc,
            edited_utc: self.edited_utc,
            permalink: copy_opt(&self.permalink),
            url: copy_opt(&self.url),
            depth: self.depth,
            source: self.source,
        }
    }
}

// ---------------------------------------------------------------------------
// Permalinks
// ---------------------------------------------------------------------------

/// The canonical form of a permalink: without a query, on `www.reddit.com`
/// unless it names another host.
pub open spec fn canonical(input: Seq<char>) -> Seq<char> {
    let path = text::before(input, '?');
    if "https://www.reddit.com/"@.is_prefix_of(path) {
        path
    } else if "https://old.reddit.com/"@.is_prefix_of(path) {
        "https://www.reddit.com/"@ + path.skip("https://old.reddit.com/"@.len() as int)
    } else if "http://"@.is_prefix_of(path) || "https://"@.is_prefix_of(path) {
        path
    } else if "/"@.is_prefix_of(path) {
        "https://www.reddit.com"@ + path
    } else {
        "https://www.reddit.com/"@ + path
    }
}

/// Brings a permalink into its canonical form.
pub fn canonical_permalink(input: &str) -> (r: String)
    ensures
        r@ == canonical(input@),
{
    let chars = text::chars_of(input);
    let path = text::cut_before(&chars, '?');
    let old = text::chars_of("https://old.reddit.com/");
    if text::begins_with(path, &text::chars_of("https://www.reddit.com/")) {
        text::string_of(path)
    } else if text::begins_with(path, &old) {
        let rest = &path[old.len()..path.len()];
        assert(rest@ =~= path@.skip(old@.len() as int));
        let mut out = String::new();
        out.push_str("https://www.reddit.com/");
        let tail = text::string_of(rest);
        out.push_str(tail.as_str());
        assert(out@ =~= canonical(input@));
        out
    } else if text::begins_with(path, &text::chars_of("http://")) || text::begins_with(
        path,
        &text::chars_of("https://"),
    ) {
        text::string_of(path)
    } else {
        let mut out = String::new();
        if text::begins_with(path, &text::chars_of("/")) {
            out.push_str("https://www.reddit.com");
        } else {
            out.push_str("https://www.reddit.com/");
        }
        let tail = text::string_of(path);
        out.push_str(tail.as_str());
        assert(out@ =~= canonical(input@));
        out
    }
}

impl ItemModel {
    /// The permalink in canonical form.
    pub open spec fn canonical_permalink(self) -> Option<Seq<char>> {
        match self.permalink {
            Some(link) => Some(canonical(link)),
            None => None,
        }
    }

    /// The title, or else the body, or else a placeholder.
    pub open spec fn display_title(self) -> Seq<char> {
        match self.title {
            Some(title) => title,
            None => match self.body {
                Some(body) => body,
                None => "(untitled)"@,
            },
        }
    }
}

impl RedditItem {
    /// The permalink in canonical form.
    pub fn canonical_permalink(&self) -> (r: Option<String>)
        ensures
            text::opt(r) == self@.canonical_permalink(),
    {
        match &self.permalink {
            Some(link) => Some(canonical_permalink(link.as_str())),
            None => None,
        }
    }

    /// The title, or else the body, or else a placeholder.
    pub fn display_title(&self) -> (r: &str)
        ensures
            r@ == self@.display_title(),
    {
        match &self.title {
            Some(title) => title.as_str(),
            None => match &self.body {
                Some(body) => body.as_str(),
                None => "(untitled)",
            },
        }
    }
}

proof fn lemma_www_canonical(rest: Seq<char>)
    requires
        text::free_of(rest, '?'),
    ensures
        canonical("https://www.reddit.com/"@ + rest) == "https://www.reddit.com/"@ + rest,
        text::free_of("https://www.reddit.com/"@ + rest, '?'),
{
    reveal_strlit("https://www.reddit.com/");
    let s = "https://www.reddit.com/"@ + rest;
    assert forall|i: int| 0 <= i < s.len() implies #[trigger] s[i] != '?' by {
        if i >= 23 {
            assert(s[i] == rest[i - 23]);
        }
    }
    text::lemma_before_same(s, '?');
    assert("https://www.reddit.com/"@.is_prefix_of(s));
}

/// The canonical form of a permalink holds no query, and is its own canonical
/// form.
pub proof fn law_canonical_permalink_is_stable(input: Seq<char>)
    ensures
        text::free_of(canonical(input), '?'),
        canonical(canonical(input)) == canonical(input),
{
    let path = text::before(input, '?');
    text::lemma_before_free(input, '?');
    text::lemma_before_same(path, '?');
    reveal_strlit("https://www.reddit.com/");
    reveal_strlit("https://www.reddit.com");
    reveal_strlit("https://old.reddit.com/");
    reveal_strlit("/");
    if "https://www.reddit.com/"@.is_prefix_of(path) {
    } else if "https://old.reddit.com/"@.is_prefix_of(path) {
        lemma_www_canonical(path.skip("https://old.reddit.com/"@.len() as int));
    } else if "http://"@.is_prefix_of(path) || "https://"@.is_prefix_of(path) {
    } else if "/"@.is_prefix_of(path) {
        assert("/"@ =~= seq!['/']);
        assert(path.subrange(0, 1)[0] == '/');
        assert("https://www.reddit.com"@ + path =~= "https://www.reddit.com/"@ + path.skip(1));
        lemma_www_canonical(path.skip(1));
    } else {
        lemma_www_canonical(path);
    }
}

/// The canonical form of a permalink without a scheme is on `www.reddit.com`.
pub proof fn law_canonical_permalink_of_path(input: Seq<char>)
    requires
        !"http://"@.is_prefix_of(input),
        !"https://"@.is_prefix_of(input),
    ensures
        "https://www.reddit.com/"@.is_prefix_of(canonical(input)),
{
    let path = text::before(input, '?');
    text::lemma_before_free(input, '?');
    reveal_strlit("https://www.reddit.com/");
    reveal_strlit("https://www.reddit.com");
    reveal_strlit("https://old.reddit.com/");
    reveal_strlit("http://");
    reveal_strlit("https://");
    reveal_strlit("/");
    assert forall|p: Seq<char>| #[trigger] p.is_prefix_of(path) implies p.is_prefix_of(input) by {
        assert(p =~= input.subrange(0, p.len() as int));
    }
    if "https://old.reddit.com/"@.is_prefix_of(path) {
        assert("https://"@ =~= "https://old.reddit.com/"@.subrange(0, 8));
        assert("https://"@ =~= path.subrange(0, 8));
        assert("https://"@.is_prefix_of(path));
    } else if "/"@.is_prefix_of(path) {
        assert("/"@ =~= seq!['/']);
        assert(path.subrange(0, 1)[0] == '/');
        assert("https://www.reddit.com"@ + path =~= "https://www.reddit.com/"@ + path.skip(1));
    }
}

// ---------------------------------------------------------------------------
// Pages and threads
// ---------------------------------------------------------------------------

/// A page of a listing, with the cursors of its neighbours.
#[derive(Debug)]
pub struct ListingPage {
    pub items: Vec<RedditItem>,
    pub after: Option<String>,
    pub before: Option<String>,
}

/// What a [`ListingPage`] holds.
pub struct PageModel {
    pub items: Seq<ItemModel>,
    pub after: Option<Seq<char>>,
    pub before: Option<Seq<char>>,
}

impl View for ListingPage {
    type V = PageModel;

    open spec fn view(&self) -> PageModel {
        PageModel {
            items: items_model(self.items@),
            after: text::opt(self.after),
            before: text::opt(self.before),
        }
    }
}

/// A stub that stands for comments which a thread listing leaves out.
#[derive(Debug)]
pub struct MoreStub {
    pub id: String,
    pub parent_id: Option<String>,
    pub post_id: Option<String>,
    pub children: Vec<String>,
    pub count: usize,
    pub depth: usize,
}

/// What a [`MoreStub`] holds.
pub struct StubModel {
    pub id: Seq<char>,
    pub parent_id: Option<Seq<char>>,
    pub post_id: Option<Seq<char>>,
    pub children: Seq<Seq<char>>,
    pub count: usize,
    pub depth: usize,
}

impl View for MoreStub {
    type V = StubModel;

    open spec fn view(&self) -> StubModel {
        StubModel {
            id: self.id@,
            parent_id: text::opt(self.parent_id),
            post_id: text::opt(self.post_id),
            children: text::texts(self.children@),
            count: self.count,
            depth: self.depth,
        }
    }
}

/// What a sequence of stubs holds.
pub open spec fn stubs_model(stubs: Seq<MoreStub>) -> Seq<StubModel> {
    Seq::new(stubs.len(), |i: int| stubs[i]@)
}

/// What an optional stub holds.
pub open spec fn opt_stub(stub: Option<MoreStub>) -> Option<StubModel> {
    match stub {
        Some(s) => Some(s@),
        None => None,
    }
}

impl StubModel {
    /// How many hidden comments the stub stands for: at least one, and no
    /// fewer than it lists.
    pub open spec fn unresolved_count(self) -> nat {
        let listed = if self.children.len() > self.count {
            self.children.len()
        } else {
            self.count as nat
        };
        if listed > 1 {
            listed
        } else {
            1
        }
    }

    /// The id of the comment under which a "continue this thread" stub hangs.
    pub open spec fn continue_parent_short_id(self) -> Option<Seq<char>> {
        match self.parent_id {
            Some(parent) => text::strip_prefix(parent, "t1_"@),
            None => None,
        }
    }
}

/// A copy of a list of strings.
pub fn copy_texts(s: &[String], start: usize) -> (r: Vec<String>)
    requires
        start <= s@.len(),
    ensures
        text::texts(r@) == text::texts(s@).skip(start as int),
{
    let mut out: Vec<String> = Vec::new();
    let mut i: usize = start;
    while i < s.len()
        invariant
            start <= i <= s@.len(),
            out@.len() == i - start,
            forall|j: int| 0 <= j < out@.len() ==> (#[trigger] out@[j])@ == s@[start + j]@,
        decreases s@.len() - i,
    {
        out.push(s[i].clone());
        i = i + 1;
    }
    assert(text::texts(out@) =~= text::texts(s@).skip(start as int));
    out
}

impl MoreStub {
    /// How many hidden comments the stub stands for.
    pub fn unresolved_count(&self) -> (r: usize)
        ensures
            r == self@.unresolved_count(),
    {
        let listed: usize = if self.children.len() > self.count {
            self.children.len()
        } else {
            self.count
        };
        if listed > 1 {
            listed
        } else {
            1
        }
    }

    /// The id of the comment under which a "continue this thread" stub hangs.
    pub fn continue_parent_short_id(&self) -> (r: Option<String>)
        ensures
            text::opt(r) == self@.continue_parent_short_id(),
    {
        match &self.parent_id {
            Some(parent) => {
                let chars = text::chars_of(parent.as_str());
                match text::cut_prefix(&chars, &text::chars_of("t1_")) {
                    Some(rest) => Some(text::string_of(rest)),
                    None => None,
                }
            },
            None => None,
        }
    }
}

/// What one answer tells of a thread: its post, comments and stubs.
#[derive(Debug)]
pub struct ThreadCapture {
    pub post: Option<RedditItem>,
    pub comments: Vec<RedditItem>,
    pub more_stubs: Vec<MoreStub>,
}

/// What a [`ThreadCapture`] holds.
pub struct CaptureModel {
    pub post: Option<ItemModel>,
    pub comments: Seq<ItemModel>,
    pub more_stubs: Seq<StubModel>,
}

impl View for ThreadCapture {
    type V = CaptureModel;

    open spec fn view(&self) -> CaptureModel {
        CaptureModel {
            post: opt_item(self.post),
            comments: items_model(self.comments@),
            more_stubs: stubs_model(self.more_stubs@),
        }
    }
}

/// A thread as it is shown.
#[derive(Debug)]
pub struct ThreadView {
    pub post: Option<RedditItem>,
    pub comments: Vec<RedditItem>,
    pub more_stubs: usize,
    pub degraded: bool,
    pub truncated: bool,
    pub http_requests: usize,
    pub notice: Option<String>,
}

/// What a [`ThreadView`] holds.
pub struct ThreadModel {
    pub post: Option<ItemModel>,
    pub comments: Seq<ItemModel>,
    pub more_stubs: usize,
    pub degraded: bool,
    pub truncated: bool,
    pub http_requests: usize,
    pub notice: Option<Seq<char>>,
}

impl View for ThreadView {
    type V = ThreadModel;

    open spec fn view(&self) -> ThreadModel {
        ThreadModel {
            post: opt_item(self.post),
            comments: items_model(self.comments@),
            more_stubs: self.more_stubs,
            degraded: self.degraded,
            truncated: self.truncated,
            http_requests: self.http_requests,
            notice: text::opt(self.notice),
        }
    }
}

/// A value of a database row.
#[derive(Debug)]
pub enum DbValue {
    Null,
    Integer(i64),
    Real(Real),
    Text(String),
    Bool(bool),
}

/// Items numbered from one.
pub open spec fn numbered(items: Seq<ItemModel>) -> Seq<ItemModel> {
    Seq::new(
        items.len(),
        |i: int| ItemModel { index: Some(capped((i + 1) as nat)), ..items[i] },
    )
}

/// Numbers items from one.
pub fn number_items(items: Vec<RedditItem>) -> (r: Vec<RedditItem>)
    ensures
        items_model(r@) == numbered(items_model(items@)),
{
    let ghost all = items_model(items@);
    let mut out: Vec<RedditItem> = Vec::new();
    for item in it: items
        invariant
            it.seq() == items@,
            all == items_model(items@),
            out@.len() == it.index(),
            forall|j: int| 0 <= j < out@.len() ==> (#[trigger] out@[j])@ == numbered(all)[j],
    {
        let index: usize = out.len().saturating_add(1);
        out.push(RedditItem { index: Some(index), ..item });
    }
    assert(items_model(out@) =~= numbered(all));
    out
}

/// The smaller of a natural number and the largest machine size.
pub open spec fn capped(n: nat) -> usize {
    if n <= usize::MAX {
        n as usize
    } else {
        usize::MAX
    }
}

/// A permalink loses its query. One that is a path is on `www.reddit.com`, one on
/// the old site is on the new one, and any other address stays as it is.
pub proof fn law_permalinks_lead_to_the_site(path: Seq<char>, asked: Seq<char>)
    requires
        text::free_of(path, '?'),
    ensures
        canonical(path + seq!['?'] + asked) == canonical(path),
        "/"@.is_prefix_of(path) ==> canonical(path) == "https://www.reddit.com"@ + path,
        canonical("https://www.reddit.com/"@ + path) == "https://www.reddit.com/"@ + path,
        canonical("https://old.reddit.com/"@ + path) == "https://www.reddit.com/"@ + path,
        "https://"@.is_prefix_of(path) && !"https://old.reddit.com/"@.is_prefix_of(path)
            ==> canonical(path) == path,
        "http://"@.is_prefix_of(path) ==> canonical(path) == path,
        !"/"@.is_prefix_of(path) && !"http://"@.is_prefix_of(path) && !"https://"@.is_prefix_of(
            path,
        ) ==> canonical(path) == "https://www.reddit.com/"@ + path,
{
    text::law_texts_end_before_the_character(path, '?', asked);
    reveal_strlit("https://www.reddit.com/");
    reveal_strlit("https://old.reddit.com/");
    reveal_strlit("https://");
    reveal_strlit("http://");
    reveal_strlit("/");
    lemma_www_canonical(path);
    let old = "https://old.reddit.com/"@ + path;
    assert(text::free_of(old, '?')) by {
        assert forall|i: int| 0 <= i < old.len() implies #[trigger] old[i] != '?' by {
            if i >= 23 {
                assert(old[i] == path[i - 23]);
            }
        }
    }
    text::lemma_before_same(old, '?');
    assert(old.subrange(0, 23) =~= "https://old.reddit.com/"@);
    assert(old.skip(23) =~= path);
    assert(!"https://www.reddit.com/"@.is_prefix_of(old)) by {
        if "https://www.reddit.com/"@.is_prefix_of(old) {
            assert(old.subrange(0, 23)[8] == 'o');
            assert("https://www.reddit.com/"@[8] == 'w');
        }
    }
    if "/"@.is_prefix_of(path) {
        assert(path.subrange(0, 1)[0] == path[0]);
        if "https://www.reddit.com/"@.is_prefix_of(path) {
            assert(path.subrange(0, 23)[0] == path[0]);
        }
        if "https://old.reddit.com/"@.is_prefix_of(path) {
            assert(path.subrange(0, 23)[0] == path[0]);
        }
        if "http://"@.is_prefix_of(path) {
            assert(path.subrange(0, 7)[0] == path[0]);
        }
        if "https://"@.is_prefix_of(path) {
            assert(path.subrange(0, 8)[0] == path[0]);
        }
    }
    if "http://"@.is_prefix_of(path) {
        assert(path.subrange(0, 7)[4] == path[4]);
        if "https://old.reddit.com/"@.is_prefix_of(path) {
            assert(path.subrange(0, 23)[4] == path[4]);
        }
    }
    if "https://www.reddit.com/"@.is_prefix_of(path) {
        assert(path.subrange(0, 8) =~= path.subrange(0, 23).subrange(0, 8));
        assert("https://www.reddit.com/"@.subrange(0, 8) =~= "https://"@);
        assert("https://"@.is_prefix_of(path));
    }
    if "https://old.reddit.com/"@.is_prefix_of(path) {
        assert(path.subrange(0, 8) =~= path.subrange(0, 23).subrange(0, 8));
        assert("https://old.reddit.com/"@.subrange(0, 8) =~= "https://"@);
        assert("https://"@.is_prefix_of(path));
    }
}

/// Numbered items are the same items in the same order, numbered from one.
pub proof fn law_items_are_numbered_in_order(items: Seq<ItemModel>)
    ensures
        numbered(items).len() == items.len(),
        forall|i: int| #![trigger numbered(items)[i]]
            0 <= i < items.len() && i < usize::MAX ==> numbered(items)[i].index == Some(
                (i + 1) as usize,
            ),
        forall|i: int| #![trigger numbered(items)[i]]
            0 <= i < items.len() ==> (ItemModel { index: items[i].index, ..numbered(items)[i] })
                == items[i],
{
}

/// An item is shown by its title, else by its body.
pub proof fn law_items_are_shown_by_their_title(item: ItemModel)
    ensures
        item.title matches Some(title) ==> item.display_title() == title,
        item.title is None ==> (item.body matches Some(body) ==> item.display_title() == body),
        item.title is None && item.body is None ==> item.display_title() == "(untitled)"@,
        item.permalink is None <==> item.canonical_permalink() is None,
        item.permalink matches Some(link) ==> item.canonical_permalink() == Some(canonical(link)),
{
}

} // verus!
