//! Digests: recent posts with their new comments, the liveliest first.
use vstd::prelude::*;

use crate::model;
use crate::rank;
use crate::rank::Rank;
use crate::text;

verus! {

/// A summary of what was captured since a moment.
#[derive(Debug)]
pub struct Digest {
    pub generated_utc: i64,
    pub since_utc: i64,
    pub subreddit: Option<String>,
    pub posts: Vec<DigestPost>,
    pub orphan_comments: Vec<DigestComment>,
}

/// A post of a digest, with its new comments.
#[derive(Debug)]
pub struct DigestPost {
    pub id: String,
    pub subreddit: Option<String>,
    pub title: Option<String>,
    pub author: Option<String>,
    pub permalink: Option<String>,
    pub score: Option<i64>,
    pub num_comments: Option<i64>,
    pub created_utc: Option<i64>,
    pub activity_utc: i64,
    pub comments: Vec<DigestComment>,
}

/// A comment of a digest.
#[derive(Debug)]
pub struct DigestComment {
    pub id: String,
    pub post_id: Option<String>,
    pub parent_id: Option<String>,
    pub subreddit: Option<String>,
    pub author: Option<String>,
    pub body: Option<String>,
    pub score: Option<i64>,
    pub created_utc: Option<i64>,
    pub permalink: Option<String>,
}

/// What a [`DigestComment`] holds.
pub struct CommentModel {
    pub id: Seq<char>,
    pub post_id: Option<Seq<char>>,
    pub parent_id: Option<Seq<char>>,
    pub subreddit: Option<Seq<char>>,
    pub author: Option<Seq<char>>,
    pub body: Option<Seq<char>>,
    pub score: Option<i64>,
    pub created_utc: Option<i64>,
    pub permalink: Option<Seq<char>>,
}

/// What a [`DigestPost`] holds.
pub struct PostModel {
    pub id: Seq<char>,
    pub subreddit: Option<Seq<char>>,
    pub title: Option<Seq<char>>,
    pub author: Option<Seq<char>>,
    pub permalink: Option<Seq<char>>,
    pub score: Option<i64>,
    pub num_comments: Option<i64>,
    pub created_utc: Option<i64>,
    pub activity_utc: i64,
    pub comments: Seq<CommentModel>,
}

/// What a [`Digest`] holds.
pub struct DigestModel {
    pub generated_utc: i64,
    pub since_utc: i64,
    pub subreddit: Option<Seq<char>>,
    pub posts: Seq<PostModel>,
    pub orphan_comments: Seq<CommentModel>,
}

impl View for DigestComment {
    type V = CommentModel;

    open spec fn view(&self) -> CommentModel {
        CommentModel {
            id: self.id@,
            post_id: text::opt(self.post_id),
            parent_id: text::opt(self.parent_id),
            subreddit: text::opt(self.subreddit),
            author: text::opt(self.author),
            body: text::opt(self.body),
            score: self.score,
            created_utc: self.created_utc,
            permalink: text::opt(self.permalink),
        }
    }
}

/// What comments hold.
pub open spec fn comments_model(comments: Seq<DigestComment>) -> Seq<CommentModel> {
    Seq::new(comments.len(), |i: int| comments[i]@)
}

impl View for DigestPost {
    type V = PostModel;

    open spec fn view(&self) -> PostModel {
        PostModel {
            id: self.id@,
            subreddit: text::opt(self.subreddit),
            title: text::opt(self.title),
            author: text::opt(self.author),
            permalink: text::opt(self.permalink),
            score: self.score,
            num_comments: self.num_comments,
            created_utc: self.created_utc,
            activity_utc: self.activity_utc,
            comments: comments_model(self.comments@),
        }
    }
}

/// What posts hold.
pub open spec fn posts_model(posts: Seq<DigestPost>) -> Seq<PostModel> {
    Seq::new(posts.len(), |i: int| posts[i]@)
}

impl View for Digest {
    type V = DigestModel;

    open spec fn view(&self) -> DigestModel {
        DigestModel {
            generated_utc: self.generated_utc,
            since_utc: self.since_utc,
            subreddit: text::opt(self.subreddit),
            posts: posts_model(self.posts@),
            orphan_comments: comments_model(self.orphan_comments@),
        }
    }
}

impl Clone for DigestComment {
    fn clone(&self) -> (r: Self)
        ensures
            r@ == self@,
    {
        DigestComment {
            id: self.id.clone(),
            post_id: model::copy_opt(&self.post_id),
            parent_id: model::copy_opt(&self.parent_id),
            subreddit: model::copy_opt(&self.subreddit),
            author: model::copy_opt(&self.author),
            body: model::copy_opt(&self.body),
            score: self.score,
            created_utc: self.created_utc,
            permalink: model::copy_opt(&self.permalink),
        }
    }
}

fn copy_comments(comments: &[DigestComment]) -> (r: Vec<DigestComment>)
    ensures
        comments_model(r@) == comments_model(comments@),
{
    let mut out: Vec<DigestComment> = Vec::new();
    let mut i: usize = 0;
    while i < comments.len()
        invariant
            i <= comments@.len(),
            out@.len() == i,
            forall|j: int| 0 <= j < i ==> (#[trigger] out@[j])@ == comments@[j]@,
        decreases comments@.len() - i,
    {
        out.push(comments[i].clone());
        i = i + 1;
    }
    assert(comments_model(out@) =~= comments_model(comments@));
    out
}

impl Clone for DigestPost {
    fn clone(&self) -> (r: Self)
        ensures
            r@ == self@,
    {
        DigestPost {
            id: self.id.clone(),
            subreddit: model::copy_opt(&self.subreddit),
            title: model::copy_opt(&self.title),
            author: model::copy_opt(&self.author),
            permalink: model::copy_opt(&self.permalink),
            score: self.score,
            num_comments: self.num_comments,
            created_utc: self.created_utc,
            activity_utc: self.activity_utc,
            comments: copy_comments(&self.comments),
        }
    }
}

// ---------------------------------------------------------------------------
// Counting
// ---------------------------------------------------------------------------

/// The comments under posts.
pub open spec fn grouped_count(posts: Seq<PostModel>) -> nat
    decreases posts.len(),
{
    if posts.len() == 0 {
        0
    } else {
        grouped_count(posts.drop_last()) + posts.last().comments.len()
    }
}

impl DigestModel {
    /// The comments of a digest.
    pub open spec fn comment_count(self) -> usize {
        model::capped(grouped_count(self.posts) + self.orphan_comments.len())
    }
}

impl Digest {
    /// The comments of a digest.
    pub fn comment_count(&self) -> (r: usize)
        ensures
            r == self@.comment_count(),
    {
        let mut total: usize = 0;
        let mut i: usize = 0;
        while i < self.posts.len()
            invariant
                i <= self.posts@.len(),
                total == model::capped(grouped_count(self@.posts.take(i as int))),
            decreases self.posts@.len() - i,
        {
            proof {
                let t = self@.posts.take(i + 1);
                assert(t.drop_last() =~= self@.posts.take(i as int));
                assert(t.last() == self.posts@[i as int]@);
                assert(self.posts@[i as int].comments@.len()
                    == self.posts@[i as int]@.comments.len());
            }
            total = total.saturating_add(self.posts[i].comments.len());
            i = i + 1;
        }
        assert(self@.posts.take(self@.posts.len() as int) =~= self@.posts);
        assert(self.orphan_comments@.len() == self@.orphan_comments.len());
        total.saturating_add(self.orphan_comments.len())
    }
}

// ---------------------------------------------------------------------------
// Ranking
// ---------------------------------------------------------------------------

/// An optional number as a rank: an absent one is below any other.
pub open spec fn rank_of(n: Option<i64>) -> i128 {
    match n {
        Some(k) => k as i128,
        None => -0x1_0000_0000_0000_0000i128,
    }
}

fn ranked(n: Option<i64>) -> (r: i128)
    ensures
        r == rank_of(n),
{
    match n {
        Some(k) => k as i128,
        None => -0x1_0000_0000_0000_0000i128,
    }
}

/// The rank of a comment: its score, and then how recent it is.
pub open spec fn comment_rank(comment: CommentModel) -> Rank {
    (rank_of(comment.score), rank_of(comment.created_utc))
}

/// The rank of a post: how recent its latest activity is.
pub open spec fn post_rank(post: PostModel) -> Rank {
    (post.activity_utc as i128, 0i128)
}

/// The first comments in the order of their ranks.
pub open spec fn top_comments(comments: Seq<CommentModel>, most: nat) -> Seq<CommentModel> {
    rank::leaders(comments.map_values(|c: CommentModel| comment_rank(c)), most).map_values(
        |i: int| comments[i],
    )
}

/// The first posts in the order of their ranks.
pub open spec fn top_posts(posts: Seq<PostModel>, most: nat) -> Seq<PostModel> {
    rank::leaders(posts.map_values(|p: PostModel| post_rank(p)), most).map_values(
        |i: int| posts[i],
    )
}

/// Picks the first comments in the order of their ranks.
pub fn pick_comments(comments: &Vec<DigestComment>, most: usize) -> (r: Vec<DigestComment>)
    ensures
        comments_model(r@) == top_comments(comments_model(comments@), most as nat),
{
    let ghost all = comments_model(comments@);
    let ghost wanted = all.map_values(|c: CommentModel| comment_rank(c));
    let mut ranks: Vec<Rank> = Vec::new();
    let mut i: usize = 0;
    while i < comments.len()
        invariant
            i <= comments@.len(),
            ranks@.len() == i,
            all == comments_model(comments@),
            forall|j: int| 0 <= j < i ==> #[trigger] ranks@[j] == comment_rank(all[j]),
        decreases comments@.len() - i,
    {
        ranks.push((ranked(comments[i].score), ranked(comments[i].created_utc)));
        i = i + 1;
    }
    assert(ranks@ =~= wanted);
    let order = rank::find_leaders(&ranks, most);
    let mut out: Vec<DigestComment> = Vec::new();
    let mut k: usize = 0;
    while k < order.len()
        invariant
            k <= order@.len(),
            out@.len() == k,
            all == comments_model(comments@),
            all.len() == ranks@.len(),
            rank::leads(ranks@, rank::positions(order@), most as nat),
            forall|j: int| 0 <= j < k ==> (#[trigger] out@[j])@ == all[order@[j] as int],
        decreases order@.len() - k,
    {
        assert(rank::positions(order@)[k as int] == order@[k as int]);
        out.push(comments[order[k]].clone());
        k = k + 1;
    }
    proof {
        assert(comments_model(out@) =~= rank::positions(order@).map_values(|i: int| all[i]));
    }
    out
}

/// Picks the first posts in the order of their ranks.
pub fn pick_posts(posts: &Vec<DigestPost>, most: usize) -> (r: Vec<DigestPost>)
    ensures
        posts_model(r@) == top_posts(posts_model(posts@), most as nat),
{
    let ghost all = posts_model(posts@);
    let ghost wanted = all.map_values(|p: PostModel| post_rank(p));
    let mut ranks: Vec<Rank> = Vec::new();
    let mut i: usize = 0;
    while i < posts.len()
        invariant
            i <= posts@.len(),
            ranks@.len() == i,
            all == posts_model(posts@),
            forall|j: int| 0 <= j < i ==> #[trigger] ranks@[j] == post_rank(all[j]),
        decreases posts@.len() - i,
    {
        ranks.push((posts[i].activity_utc as i128, 0i128));
        i = i + 1;
    }
    assert(ranks@ =~= wanted);
    let order = rank::find_leaders(&ranks, most);
    let mut out: Vec<DigestPost> = Vec::new();
    let mut k: usize = 0;
    while k < order.len()
        invariant
            k <= order@.len(),
            out@.len() == k,
            all == posts_model(posts@),
            all.len() == ranks@.len(),
            rank::leads(ranks@, rank::positions(order@), most as nat),
            forall|j: int| 0 <= j < k ==> (#[trigger] out@[j])@ == all[order@[j] as int],
        decreases order@.len() - k,
    {
        assert(rank::positions(order@)[k as int] == order@[k as int]);
        out.push(posts[order[k]].clone());
        k = k + 1;
    }
    proof {
        assert(posts_model(out@) =~= rank::positions(order@).map_values(|i: int| all[i]));
    }
    out
}

// ---------------------------------------------------------------------------
// Grouping
// ---------------------------------------------------------------------------

/// The posts of a digest, at most.
pub const MOST_POSTS: usize = 50;

/// The comments under a post of a digest, at most.
pub const MOST_COMMENTS: usize = 10;

/// The comments of a digest without a post, at most.
pub const MOST_ORPHANS: usize = 25;

/// A moment is at or after another.
pub open spec fn since(at: Option<i64>, moment: i64) -> bool {
    match at {
        Some(t) => t >= moment,
        None => false,
    }
}

/// The comments since a moment that belong to a post.
pub open spec fn new_comments(
    comments: Seq<CommentModel>,
    id: Seq<char>,
    moment: i64,
) -> Seq<CommentModel>
    decreases comments.len(),
{
    if comments.len() == 0 {
        Seq::empty()
    } else {
        let rest = new_comments(comments.drop_last(), id, moment);
        let last = comments.last();
        if last.post_id == Some(id) && since(last.created_utc, moment) {
            rest.push(last)
        } else {
            rest
        }
    }
}

/// A post is known under an id.
pub open spec fn has_post(posts: Seq<PostModel>, id: Option<Seq<char>>) -> bool {
    match id {
        Some(name) => exists|i: int| 0 <= i < posts.len() && (#[trigger] posts[i]).id == name,
        None => false,
    }
}

/// The comments since a moment whose post is not known.
pub open spec fn orphans_since(
    comments: Seq<CommentModel>,
    posts: Seq<PostModel>,
    moment: i64,
) -> Seq<CommentModel>
    decreases comments.len(),
{
    if comments.len() == 0 {
        Seq::empty()
    } else {
        let rest = orphans_since(comments.drop_last(), posts, moment);
        let last = comments.last();
        if !has_post(posts, last.post_id) && since(last.created_utc, moment) {
            rest.push(last)
        } else {
            rest
        }
    }
}

/// The latest of a moment and those of comments.
pub open spec fn latest(start: i64, comments: Seq<CommentModel>) -> i64
    decreases comments.len(),
{
    if comments.len() == 0 {
        start
    } else {
        let rest = latest(start, comments.drop_last());
        match comments.last().created_utc {
            Some(at) if at > rest => at,
            _ => rest,
        }
    }
}

/// A post with its new comments, the best of them, and the moment of its
/// latest activity.
pub open spec fn group(post: PostModel, comments: Seq<CommentModel>, moment: i64) -> PostModel {
    let own = new_comments(comments, post.id, moment);
    PostModel {
        activity_utc: latest(
            match post.created_utc {
                Some(at) => at,
                None => 0,
            },
            own,
        ),
        comments: top_comments(own, MOST_COMMENTS as nat),
        ..post
    }
}

/// The posts that are new or have new comments, with those comments.
pub open spec fn groups(
    posts: Seq<PostModel>,
    comments: Seq<CommentModel>,
    moment: i64,
) -> Seq<PostModel>
    decreases posts.len(),
{
    if posts.len() == 0 {
        Seq::empty()
    } else {
        let rest = groups(posts.drop_last(), comments, moment);
        let last = posts.last();
        if since(last.created_utc, moment) || new_comments(comments, last.id, moment).len() > 0 {
            rest.push(group(last, comments, moment))
        } else {
            rest
        }
    }
}

/// The digest of what was captured since a moment.
pub open spec fn digest_of(
    generated_utc: i64,
    since_utc: i64,
    subreddit: Option<Seq<char>>,
    posts: Seq<PostModel>,
    comments: Seq<CommentModel>,
) -> DigestModel {
    DigestModel {
        generated_utc,
        since_utc,
        subreddit,
        posts: top_posts(groups(posts, comments, since_utc), MOST_POSTS as nat),
        orphan_comments: top_comments(
            orphans_since(comments, posts, since_utc),
            MOST_ORPHANS as nat,
        ),
    }
}

fn is_since(at: Option<i64>, moment: i64) -> (r: bool)
    ensures
        r == since(at, moment),
{
    match at {
        Some(t) => t >= moment,
        None => false,
    }
}

fn belongs(post_id: &Option<String>, id: &str) -> (r: bool)
    ensures
        r == (text::opt(*post_id) == Some(id@)),
{
    match post_id {
        Some(name) => text::same_text(name.as_str(), id),
        None => false,
    }
}

fn collect_new(comments: &Vec<DigestComment>, id: &str, moment: i64) -> (r: Vec<DigestComment>)
    ensures
        comments_model(r@) == new_comments(comments_model(comments@), id@, moment),
{
    let ghost all = comments_model(comments@);
    let mut out: Vec<DigestComment> = Vec::new();
    let mut i: usize = 0;
    assert(all.take(0) =~= Seq::empty());
    assert(comments_model(out@) =~= Seq::empty());
    while i < comments.len()
        invariant
            i <= comments@.len(),
            all == comments_model(comments@),
            comments_model(out@) == new_comments(all.take(i as int), id@, moment),
        decreases comments@.len() - i,
    {
        let ghost t = all.take(i + 1);
        let ghost had = comments_model(out@);
        proof {
            assert(t.drop_last() =~= all.take(i as int));
            assert(t.last() == comments@[i as int]@);
        }
        if belongs(&comments[i].post_id, id) && is_since(comments[i].created_utc, moment) {
            let one = comments[i].clone();
            let ghost m = one@;
            out.push(one);
            assert(comments_model(out@) =~= had.push(m));
        }
        i = i + 1;
    }
    assert(all.take(all.len() as int) =~= all);
    out
}

fn knows(posts: &Vec<DigestPost>, id: &Option<String>) -> (r: bool)
    ensures
        r == has_post(posts_model(posts@), text::opt(*id)),
{
    let ghost all = posts_model(posts@);
    let mut i: usize = 0;
    while i < posts.len()
        invariant
            i <= posts@.len(),
            all == posts_model(posts@),
            forall|j: int| 0 <= j < i ==> text::opt(*id) != Some((#[trigger] all[j]).id),
        decreases posts@.len() - i,
    {
        assert(all[i as int].id == posts@[i as int].id@);
        if belongs(id, posts[i].id.as_str()) {
            return true;
        }
        i = i + 1;
    }
    false
}

fn collect_orphans(comments: &Vec<DigestComment>, posts: &Vec<DigestPost>, moment: i64) -> (r: Vec<
    DigestComment,
>)
    ensures
        comments_model(r@) == orphans_since(
            comments_model(comments@),
            posts_model(posts@),
            moment,
        ),
{
    let ghost all = comments_model(comments@);
    let mut out: Vec<DigestComment> = Vec::new();
    let mut i: usize = 0;
    assert(all.take(0) =~= Seq::empty());
    assert(comments_model(out@) =~= Seq::empty());
    while i < comments.len()
        invariant
            i <= comments@.len(),
            all == comments_model(comments@),
            comments_model(out@) == orphans_since(
                all.take(i as int),
                posts_model(posts@),
                moment,
            ),
        decreases comments@.len() - i,
    {
        let ghost t = all.take(i + 1);
        let ghost had = comments_model(out@);
        proof {
            assert(t.drop_last() =~= all.take(i as int));
            assert(t.last() == comments@[i as int]@);
        }
        if !knows(posts, &comments[i].post_id) && is_since(comments[i].created_utc, moment) {
            let one = comments[i].clone();
            let ghost m = one@;
            out.push(one);
            assert(comments_model(out@) =~= had.push(m));
        }
        i = i + 1;
    }
    assert(all.take(all.len() as int) =~= all);
    out
}

fn latest_of(start: i64, comments: &Vec<DigestComment>) -> (r: i64)
    ensures
        r == latest(start, comments_model(comments@)),
{
    let ghost all = comments_model(comments@);
    let mut out: i64 = start;
    let mut i: usize = 0;
    assert(all.take(0) =~= Seq::empty());
    while i < comments.len()
        invariant
            i <= comments@.len(),
            all == comments_model(comments@),
            out == latest(start, all.take(i as int)),
        decreases comments@.len() - i,
    {
        proof {
            let t = all.take(i + 1);
            assert(t.drop_last() =~= all.take(i as int));
            assert(t.last() == comments@[i as int]@);
        }
        match comments[i].created_utc {
            Some(at) => {
                if at > out {
                    out = at;
                }
            },
            None => {},
        }
        i = i + 1;
    }
    assert(all.take(all.len() as int) =~= all);
    out
}

fn collect_groups(posts: &Vec<DigestPost>, comments: &Vec<DigestComment>, moment: i64) -> (r: Vec<
    DigestPost,
>)
    ensures
        posts_model(r@) == groups(posts_model(posts@), comments_model(comments@), moment),
{
    let ghost all = posts_model(posts@);
    let mut out: Vec<DigestPost> = Vec::new();
    let mut i: usize = 0;
    assert(all.take(0) =~= Seq::empty());
    assert(posts_model(out@) =~= Seq::empty());
    while i < posts.len()
        invariant
            i <= posts@.len(),
            all == posts_model(posts@),
            posts_model(out@) == groups(
                all.take(i as int),
                comments_model(comments@),
                moment,
            ),
        decreases posts@.len() - i,
    {
        let ghost t = all.take(i + 1);
        let ghost had = posts_model(out@);
        proof {
            assert(t.drop_last() =~= all.take(i as int));
            assert(t.last() == posts@[i as int]@);
        }
        let own = collect_new(comments, posts[i].id.as_str(), moment);
        assert(own@.len() == comments_model(own@).len());
        if is_since(posts[i].created_utc, moment) || own.len() > 0 {
            let start: i64 = match posts[i].created_utc {
                Some(at) => at,
                None => 0,
            };
            let activity_utc = latest_of(start, &own);
            let best = pick_comments(&own, MOST_COMMENTS);
            let post = posts[i].clone();
            let one = DigestPost { activity_utc, comments: best, ..post };
            let ghost m = one@;
            assert(m == group(posts@[i as int]@, comments_model(comments@), moment));
            out.push(one);
            assert(posts_model(out@) =~= had.push(m));
        }
        i = i + 1;
    }
    assert(all.take(all.len() as int) =~= all);
    out
}

/// Sums up what was captured since a moment: the posts that are new or have
/// new comments, the latest activity first, and the comments whose post is not
/// known.
pub fn build_digest(
    generated_utc: i64,
    since_utc: i64,
    subreddit: Option<String>,
    posts: &Vec<DigestPost>,
    comments: &Vec<DigestComment>,
) -> (r: Digest)
    ensures
        r@ == digest_of(
            generated_utc,
            since_utc,
            text::opt(subreddit),
            posts_model(posts@),
            comments_model(comments@),
        ),
{
    let found = collect_groups(posts, comments, since_utc);
    let alone = collect_orphans(comments, posts, since_utc);
    Digest {
        generated_utc,
        since_utc,
        subreddit,
        posts: pick_posts(&found, MOST_POSTS),
        orphan_comments: pick_comments(&alone, MOST_ORPHANS),
    }
}

// ---------------------------------------------------------------------------
// Laws
// ---------------------------------------------------------------------------

/// The comments stand in the order of their ranks.
pub open spec fn comments_ordered(comments: Seq<CommentModel>) -> bool {
    forall|a: int, b: int|
        0 <= a < b < comments.len() ==> !rank::higher(
            comment_rank(#[trigger] comments[b]),
            comment_rank(#[trigger] comments[a]),
        )
}

proof fn lemma_top_comments(comments: Seq<CommentModel>, most: nat)
    ensures
        top_comments(comments, most).len() <= most,
        comments_ordered(top_comments(comments, most)),
        forall|a: int|
            0 <= a < top_comments(comments, most).len() ==> comments.contains(
                #[trigger] top_comments(comments, most)[a],
            ),
{
    let ranks = comments.map_values(|c: CommentModel| comment_rank(c));
    let order = rank::leaders(ranks, most);
    rank::law_there_is_an_order(ranks, most);
    let top = top_comments(comments, most);
    assert forall|a: int, b: int| 0 <= a < b < top.len() implies !rank::higher(
        comment_rank(#[trigger] top[b]),
        comment_rank(#[trigger] top[a]),
    ) by {
        assert(rank::precedes(ranks, order[a], order[b]));
    }
    assert forall|a: int| 0 <= a < top.len() implies comments.contains(#[trigger] top[a]) by {
        assert(comments[order[a]] == top[a]);
    }
}

proof fn lemma_groups_bounded(
    posts: Seq<PostModel>,
    comments: Seq<CommentModel>,
    moment: i64,
)
    ensures
        forall|i: int|
            0 <= i < groups(posts, comments, moment).len() ==> (#[trigger] groups(
                posts,
                comments,
                moment,
            )[i]).comments.len() <= MOST_COMMENTS && comments_ordered(
                groups(posts, comments, moment)[i].comments,
            ),
    decreases posts.len(),
{
    if posts.len() > 0 {
        lemma_groups_bounded(posts.drop_last(), comments, moment);
        lemma_top_comments(
            new_comments(comments, posts.last().id, moment),
            MOST_COMMENTS as nat,
        );
    }
}

/// A digest is bounded and in order: at most so many posts, the latest
/// activity first, with at most so many comments each, and at most so many
/// comments without a post, the best and then the latest first.
pub proof fn law_digests_are_bounded_and_ordered(
    generated_utc: i64,
    since_utc: i64,
    subreddit: Option<Seq<char>>,
    posts: Seq<PostModel>,
    comments: Seq<CommentModel>,
)
    ensures
        ({
            let d = digest_of(generated_utc, since_utc, subreddit, posts, comments);
            &&& d.posts.len() <= MOST_POSTS
            &&& d.orphan_comments.len() <= MOST_ORPHANS
            &&& comments_ordered(d.orphan_comments)
            &&& forall|i: int, j: int|
                0 <= i < j < d.posts.len() ==> (#[trigger] d.posts[i]).activity_utc >= (
                #[trigger] d.posts[j]).activity_utc
            &&& forall|i: int|
                0 <= i < d.posts.len() ==> (#[trigger] d.posts[i]).comments.len() <= MOST_COMMENTS
                    && comments_ordered(d.posts[i].comments)
        }),
{
    let all = groups(posts, comments, since_utc);
    let ranks = all.map_values(|p: PostModel| post_rank(p));
    let order = rank::leaders(ranks, MOST_POSTS as nat);
    rank::law_there_is_an_order(ranks, MOST_POSTS as nat);
    lemma_groups_bounded(posts, comments, since_utc);
    lemma_top_comments(orphans_since(comments, posts, since_utc), MOST_ORPHANS as nat);
    let d = digest_of(generated_utc, since_utc, subreddit, posts, comments);
    assert forall|i: int, j: int| 0 <= i < j < d.posts.len() implies (
    #[trigger] d.posts[i]).activity_utc >= (#[trigger] d.posts[j]).activity_utc by {
        assert(rank::precedes(ranks, order[i], order[j]));
    }
    assert forall|i: int| 0 <= i < d.posts.len() implies (#[trigger] d.posts[i]).comments.len()
        <= MOST_COMMENTS && comments_ordered(d.posts[i].comments) by {
        assert(d.posts[i] == all[order[i]]);
    }
}

/// A comment belongs to a post and is not older than a moment, whatever else it
/// tells.
pub open spec fn is_new_under(comment: CommentModel, id: Seq<char>, moment: i64) -> bool {
    &&& comment.post_id == Some(id)
    &&& comment.created_utc matches Some(at) && at >= moment
}

/// A comment is not older than a moment and belongs to none of some posts.
pub open spec fn is_new_alone(
    comment: CommentModel,
    posts: Seq<PostModel>,
    moment: i64,
) -> bool {
    &&& comment.created_utc matches Some(at) && at >= moment
    &&& forall|i: int| 0 <= i < posts.len() ==> comment.post_id != Some((#[trigger] posts[i]).id)
}

/// The comments that belong to a post and are not older than a moment.
pub open spec fn under_post(
    comments: Seq<CommentModel>,
    id: Seq<char>,
    moment: i64,
) -> Seq<CommentModel> {
    comments.filter(|c: CommentModel| is_new_under(c, id, moment))
}

/// The comments that are not older than a moment and belong to none of some
/// posts.
pub open spec fn alone_in(
    comments: Seq<CommentModel>,
    posts: Seq<PostModel>,
    moment: i64,
) -> Seq<CommentModel> {
    comments.filter(|c: CommentModel| is_new_alone(c, posts, moment))
}

/// No two posts have the same id.
pub open spec fn distinct_posts(posts: Seq<PostModel>) -> bool {
    forall|i: int, j: int|
        0 <= i < j < posts.len() ==> (#[trigger] posts[i]).id != (#[trigger] posts[j]).id
}

proof fn lemma_new_comments(
    comments: Seq<CommentModel>,
    posts: Seq<PostModel>,
    id: Seq<char>,
    moment: i64,
)
    ensures
        new_comments(comments, id, moment) == under_post(comments, id, moment),
        orphans_since(comments, posts, moment) == alone_in(comments, posts, moment),
    decreases comments.len(),
{
    reveal(Seq::filter);
    if comments.len() > 0 {
        lemma_new_comments(comments.drop_last(), posts, id, moment);
        let last = comments.last();
        if !has_post(posts, last.post_id) {
            assert forall|i: int| 0 <= i < posts.len() implies last.post_id != Some(
                (#[trigger] posts[i]).id,
            ) by {}
        } else {
            let i = choose|i: int|
                0 <= i < posts.len() && (#[trigger] posts[i]).id == last.post_id->0;
            assert(last.post_id == Some(posts[i].id));
        }
    }
}

/// The new comments of a post are exactly the comments that name the post and
/// are not older than the moment, in their order, whatever else they tell. The
/// comments without a post are exactly those since the moment that name no
/// listed post.
pub proof fn law_new_comments_are_all_taken(
    comments: Seq<CommentModel>,
    posts: Seq<PostModel>,
    id: Seq<char>,
    moment: i64,
)
    ensures
        new_comments(comments, id, moment) == under_post(comments, id, moment),
        forall|c: CommentModel| #[trigger]
            new_comments(comments, id, moment).contains(c) <==> comments.contains(c)
                && is_new_under(c, id, moment),
        orphans_since(comments, posts, moment) == alone_in(comments, posts, moment),
        forall|c: CommentModel| #[trigger]
            orphans_since(comments, posts, moment).contains(c) <==> comments.contains(c)
                && is_new_alone(c, posts, moment),
{
    let under = |c: CommentModel| is_new_under(c, id, moment);
    let alone = |c: CommentModel| is_new_alone(c, posts, moment);
    lemma_new_comments(comments, posts, id, moment);
    lemma_filter_has(comments, under);
    lemma_filter_has(comments, alone);
    assert forall|c: CommentModel| #[trigger]
        new_comments(comments, id, moment).contains(c) <==> comments.contains(c) && is_new_under(
            c,
            id,
            moment,
        ) by {
        assert(comments.filter(under).contains(c) <==> comments.contains(c) && under(c));
    }
    assert forall|c: CommentModel| #[trigger]
        orphans_since(comments, posts, moment).contains(c) <==> comments.contains(c)
            && is_new_alone(c, posts, moment) by {
        assert(comments.filter(alone).contains(c) <==> comments.contains(c) && alone(c));
    }
}

/// What is filtered holds exactly what passes.
proof fn lemma_filter_has<A>(all: Seq<A>, pass: spec_fn(A) -> bool)
    ensures
        forall|x: A| #[trigger] all.filter(pass).contains(x) <==> all.contains(x) && pass(x),
    decreases all.len(),
{
    reveal(Seq::filter);
    if all.len() > 0 {
        let front = all.drop_last();
        lemma_filter_has(front, pass);
        assert forall|x: A| #[trigger] all.filter(pass).contains(x) <==> all.contains(x) && pass(
            x,
        ) by {
            if all.filter(pass).contains(x) {
                let k = choose|k: int|
                    0 <= k < all.filter(pass).len() && all.filter(pass)[k] == x;
                if k < front.filter(pass).len() {
                    assert(front.filter(pass)[k] == x);
                    assert(front.filter(pass).contains(x));
                    let i = choose|i: int| 0 <= i < front.len() && front[i] == x;
                    assert(all[i] == x);
                } else {
                    assert(x == all.last());
                    assert(all[all.len() - 1] == x);
                }
            }
            if all.contains(x) && pass(x) {
                let i = choose|i: int| 0 <= i < all.len() && all[i] == x;
                if i < front.len() {
                    assert(front[i] == x);
                    assert(front.filter(pass).contains(x));
                    let k = choose|k: int|
                        0 <= k < front.filter(pass).len() && front.filter(pass)[k] == x;
                    assert(all.filter(pass)[k] == x);
                } else {
                    assert(all.filter(pass)[front.filter(pass).len() as int] == x);
                }
            }
        }
    }
}

/// Where no two posts have the same id, each comment since the moment is under
/// the one post that it names, or without a post, and never both.
pub proof fn law_every_comment_has_its_place(
    comments: Seq<CommentModel>,
    posts: Seq<PostModel>,
    moment: i64,
    k: int,
)
    requires
        distinct_posts(posts),
        0 <= k < comments.len(),
        comments[k].created_utc matches Some(at) && at >= moment,
    ensures
        orphans_since(comments, posts, moment).contains(comments[k]) <==> !exists|i: int|
            0 <= i < posts.len() && new_comments(
                comments,
                (#[trigger] posts[i]).id,
                moment,
            ).contains(comments[k]),
        forall|i: int, j: int|
            0 <= i < posts.len() && 0 <= j < posts.len() && new_comments(
                comments,
                (#[trigger] posts[i]).id,
                moment,
            ).contains(comments[k]) && new_comments(
                comments,
                (#[trigger] posts[j]).id,
                moment,
            ).contains(comments[k]) ==> i == j,
{
    let c = comments[k];
    assert(comments.contains(c));
    law_new_comments_are_all_taken(comments, posts, c.id, moment);
    assert forall|i: int| 0 <= i < posts.len() implies (new_comments(
        comments,
        (#[trigger] posts[i]).id,
        moment,
    ).contains(c) <==> c.post_id == Some(posts[i].id)) by {
        law_new_comments_are_all_taken(comments, posts, posts[i].id, moment);
    }
    let named = exists|i: int|
        0 <= i < posts.len() && new_comments(
            comments,
            (#[trigger] posts[i]).id,
            moment,
        ).contains(c);
    if named {
        let i = choose|i: int|
            0 <= i < posts.len() && new_comments(
                comments,
                (#[trigger] posts[i]).id,
                moment,
            ).contains(c);
        assert(c.post_id == Some(posts[i].id));
        assert(!is_new_alone(c, posts, moment));
    } else {
        assert forall|i: int| 0 <= i < posts.len() implies c.post_id != Some(
            (#[trigger] posts[i]).id,
        ) by {}
        assert(is_new_alone(c, posts, moment));
    }
}

/// A moment is the latest of a first one and those of some comments.
pub open spec fn is_latest(at: i64, start: i64, comments: Seq<CommentModel>) -> bool {
    &&& at >= start
    &&& forall|k: int| #![trigger comments[k]]
        0 <= k < comments.len() ==> (comments[k].created_utc matches Some(t) ==> at >= t)
    &&& at == start || exists|k: int|
        0 <= k < comments.len() && (#[trigger] comments[k]).created_utc == Some(at)
}

proof fn lemma_latest(start: i64, comments: Seq<CommentModel>)
    ensures
        is_latest(latest(start, comments), start, comments),
    decreases comments.len(),
{
    if comments.len() > 0 {
        let front = comments.drop_last();
        let at = latest(start, comments);
        lemma_latest(start, front);
        assert forall|k: int| #![trigger comments[k]] 0 <= k < comments.len() implies (
        comments[k].created_utc matches Some(t) ==> at >= t) by {
            if k < front.len() {
                assert(front[k] == comments[k]);
            }
        }
        if at != start {
            if latest(start, front) == at {
                let k = choose|k: int|
                    0 <= k < front.len() && (#[trigger] front[k]).created_utc == Some(at);
                assert(comments[k].created_utc == Some(at));
            } else {
                assert(comments[comments.len() - 1].created_utc == Some(at));
            }
        }
    }
}

/// An optional number is above another: it is greater, or the other is absent.
pub open spec fn above(a: Option<i64>, b: Option<i64>) -> bool {
    match (a, b) {
        (Some(x), Some(y)) => x > y,
        (Some(_), None) => true,
        _ => false,
    }
}

/// A comment is better than another: by its score, and with the same score by
/// how recent it is.
pub open spec fn better(a: CommentModel, b: CommentModel) -> bool {
    above(a.score, b.score) || (a.score == b.score && above(a.created_utc, b.created_utc))
}

/// Some comments are the best of all, so many at most, the better first and of
/// two equal ones the one that came first.
pub open spec fn best_of(
    all: Seq<CommentModel>,
    most: nat,
    places: Seq<int>,
    shown: Seq<CommentModel>,
) -> bool {
    &&& shown.len() == places.len()
    &&& shown.len() == all.len() || (shown.len() == most && most < all.len())
    &&& forall|a: int| #![trigger places[a]]
        0 <= a < places.len() ==> 0 <= places[a] < all.len() && shown[a] == all[places[a]]
    &&& forall|a: int, b: int| #![trigger places[a], places[b]]
        0 <= a < b < places.len() ==> better(shown[a], shown[b]) || (!better(shown[b], shown[a])
            && places[a] < places[b])
    &&& forall|a: int, i: int| #![trigger places[a], all[i]]
        0 <= a < places.len() && 0 <= i < all.len() && !places.contains(i) ==> better(
            shown[a],
            all[i],
        ) || (!better(all[i], shown[a]) && places[a] < i)
}

proof fn lemma_better(a: CommentModel, b: CommentModel)
    ensures
        better(a, b) <==> rank::higher(comment_rank(a), comment_rank(b)),
{
}

proof fn lemma_best(all: Seq<CommentModel>, most: nat) -> (places: Seq<int>)
    ensures
        best_of(all, most, places, top_comments(all, most)),
{
    let ranks = all.map_values(|c: CommentModel| comment_rank(c));
    let places = rank::leaders(ranks, most);
    rank::law_there_is_an_order(ranks, most);
    let shown = top_comments(all, most);
    assert forall|a: int| #![trigger places[a]] 0 <= a < places.len() implies 0 <= places[a]
        < all.len() && shown[a] == all[places[a]] by {}
    assert forall|a: int, b: int| #![trigger places[a], places[b]]
        0 <= a < b < places.len() implies better(shown[a], shown[b]) || (!better(
        shown[b],
        shown[a],
    ) && places[a] < places[b]) by {
        assert(rank::precedes(ranks, places[a], places[b]));
        lemma_better(shown[a], shown[b]);
        lemma_better(shown[b], shown[a]);
    }
    assert forall|a: int, i: int| #![trigger places[a], all[i]]
        0 <= a < places.len() && 0 <= i < all.len() && !places.contains(i) implies better(
        shown[a],
        all[i],
    ) || (!better(all[i], shown[a]) && places[a] < i) by {
        assert(!rank::among(places, i)) by {
            if rank::among(places, i) {
                let k = choose|k: int| 0 <= k < places.len() && #[trigger] places[k] == i;
                assert(places.contains(i));
            }
        }
        assert(rank::precedes(ranks, places[a], i));
        lemma_better(shown[a], all[i]);
        lemma_better(all[i], shown[a]);
    }
    places
}

/// The first comments in order are the best of all, so many at most.
pub proof fn law_the_best_comments_are_picked(all: Seq<CommentModel>, most: nat)
    ensures
        exists|places: Seq<int>| #[trigger]
            best_of(all, most, places, top_comments(all, most)),
{
    let places = lemma_best(all, most);
}

/// Some posts are those with the latest activity, so many at most, the latest
/// first and of two equal ones the one that came first.
pub open spec fn liveliest_of(
    all: Seq<PostModel>,
    most: nat,
    places: Seq<int>,
    shown: Seq<PostModel>,
) -> bool {
    &&& shown.len() == places.len()
    &&& shown.len() == all.len() || (shown.len() == most && most < all.len())
    &&& forall|a: int| #![trigger places[a]]
        0 <= a < places.len() ==> 0 <= places[a] < all.len() && shown[a] == all[places[a]]
    &&& forall|a: int, b: int| #![trigger places[a], places[b]]
        0 <= a < b < places.len() ==> shown[a].activity_utc > shown[b].activity_utc || (
        shown[a].activity_utc == shown[b].activity_utc && places[a] < places[b])
    &&& forall|a: int, i: int| #![trigger places[a], all[i]]
        0 <= a < places.len() && 0 <= i < all.len() && !places.contains(i) ==> shown[a].activity_utc
            > all[i].activity_utc || (shown[a].activity_utc == all[i].activity_utc && places[a] < i)
}

proof fn lemma_liveliest(all: Seq<PostModel>, most: nat) -> (places: Seq<int>)
    ensures
        liveliest_of(all, most, places, top_posts(all, most)),
{
    let ranks = all.map_values(|p: PostModel| post_rank(p));
    let places = rank::leaders(ranks, most);
    rank::law_there_is_an_order(ranks, most);
    let shown = top_posts(all, most);
    assert forall|a: int| #![trigger places[a]] 0 <= a < places.len() implies 0 <= places[a]
        < all.len() && shown[a] == all[places[a]] by {}
    assert forall|a: int, b: int| #![trigger places[a], places[b]]
        0 <= a < b < places.len() implies shown[a].activity_utc > shown[b].activity_utc || (
    shown[a].activity_utc == shown[b].activity_utc && places[a] < places[b]) by {
        assert(rank::precedes(ranks, places[a], places[b]));
    }
    assert forall|a: int, i: int| #![trigger places[a], all[i]]
        0 <= a < places.len() && 0 <= i < all.len() && !places.contains(i) implies
        shown[a].activity_utc > all[i].activity_utc || (shown[a].activity_utc
        == all[i].activity_utc && places[a] < i) by {
        assert(!rank::among(places, i)) by {
            if rank::among(places, i) {
                let k = choose|k: int| 0 <= k < places.len() && #[trigger] places[k] == i;
                assert(places.contains(i));
            }
        }
        assert(rank::precedes(ranks, places[a], i));
    }
    places
}

/// A post of a digest before the posts are bounded: the post as it was captured,
/// with the best ten of all its new comments, and active at the latest of its
/// own moment and theirs.
pub open spec fn is_group_of(
    post: PostModel,
    comments: Seq<CommentModel>,
    moment: i64,
    grouped: PostModel,
) -> bool {
    let own = under_post(comments, post.id, moment);
    &&& grouped.id == post.id
    &&& grouped.subreddit == post.subreddit
    &&& grouped.title == post.title
    &&& grouped.author == post.author
    &&& grouped.permalink == post.permalink
    &&& grouped.score == post.score
    &&& grouped.num_comments == post.num_comments
    &&& grouped.created_utc == post.created_utc
    &&& exists|places: Seq<int>| #[trigger] best_of(own, 10, places, grouped.comments)
    &&& post.created_utc matches Some(at) ==> is_latest(grouped.activity_utc, at, own)
    &&& post.created_utc is None ==> is_latest(grouped.activity_utc, 0, own)
}

/// A post is in a digest: it is new, or a comment of it is.
pub open spec fn is_lively(post: PostModel, comments: Seq<CommentModel>, moment: i64) -> bool {
    ||| post.created_utc matches Some(at) && at >= moment
    ||| exists|k: int|
        0 <= k < comments.len() && is_new_under(#[trigger] comments[k], post.id, moment)
}

/// The lively posts among some, in their order, as they stand in a digest.
pub open spec fn groups_at(
    posts: Seq<PostModel>,
    comments: Seq<CommentModel>,
    moment: i64,
    places: Seq<int>,
    grouped: Seq<PostModel>,
) -> bool {
    &&& places.len() == grouped.len()
    &&& forall|j: int, k: int|
        0 <= j < k < places.len() ==> #[trigger] places[j] < #[trigger] places[k]
    &&& forall|k: int| #![trigger places[k]]
        0 <= k < places.len() ==> 0 <= places[k] < posts.len() && is_lively(
            posts[places[k]],
            comments,
            moment,
        ) && is_group_of(posts[places[k]], comments, moment, grouped[k])
    &&& forall|i: int|
        0 <= i < posts.len() && is_lively(#[trigger] posts[i], comments, moment)
            ==> places.contains(i)
}

proof fn lemma_group(post: PostModel, comments: Seq<CommentModel>, moment: i64)
    ensures
        is_group_of(post, comments, moment, group(post, comments, moment)),
        is_lively(post, comments, moment) <==> since(post.created_utc, moment) || new_comments(
            comments,
            post.id,
            moment,
        ).len() > 0,
{
    let own = new_comments(comments, post.id, moment);
    law_new_comments_are_all_taken(comments, Seq::empty(), post.id, moment);
    let places = lemma_best(own, 10);
    assert(own == under_post(comments, post.id, moment));
    assert(best_of(
        under_post(comments, post.id, moment),
        10,
        places,
        group(post, comments, moment).comments,
    ));
    match post.created_utc {
        Some(at) => lemma_latest(at, own),
        None => lemma_latest(0, own),
    }
    if own.len() > 0 {
        assert(own.contains(own[0]));
        assert(comments.contains(own[0]));
        let k = choose|k: int| 0 <= k < comments.len() && comments[k] == own[0];
        assert(is_new_under(comments[k], post.id, moment));
    }
    if exists|k: int|
        0 <= k < comments.len() && is_new_under(#[trigger] comments[k], post.id, moment) {
        let k = choose|k: int|
            0 <= k < comments.len() && is_new_under(#[trigger] comments[k], post.id, moment);
        assert(comments.contains(comments[k]));
        assert(own.contains(comments[k]));
    }
}

proof fn lemma_groups(posts: Seq<PostModel>, comments: Seq<CommentModel>, moment: i64) -> (places:
    Seq<int>)
    ensures
        groups_at(posts, comments, moment, places, groups(posts, comments, moment)),
    decreases posts.len(),
{
    if posts.len() == 0 {
        Seq::empty()
    } else {
        let front = posts.drop_last();
        let n = (posts.len() - 1) as int;
        let before = lemma_groups(front, comments, moment);
        lemma_group(posts[n], comments, moment);
        let places = if is_lively(posts[n], comments, moment) {
            before.push(n)
        } else {
            before
        };
        let all = groups(posts, comments, moment);
        assert forall|j: int, k: int| 0 <= j < k < places.len() implies #[trigger] places[j]
            < #[trigger] places[k] by {
            assert(places[j] == before[j]);
            if k < before.len() {
                assert(places[k] == before[k]);
            }
        }
        assert forall|k: int| #![trigger places[k]] 0 <= k < places.len() implies 0 <= places[k]
            < posts.len() && is_lively(posts[places[k]], comments, moment) && is_group_of(
            posts[places[k]],
            comments,
            moment,
            all[k],
        ) by {
            if k < before.len() {
                assert(places[k] == before[k]);
                assert(front[before[k]] == posts[before[k]]);
                assert(all[k] == groups(front, comments, moment)[k]);
            }
        }
        assert forall|i: int|
            0 <= i < posts.len() && is_lively(#[trigger] posts[i], comments, moment) implies
            places.contains(i) by {
            if i < n {
                assert(is_lively(front[i], comments, moment));
                let k = choose|k: int| 0 <= k < before.len() && before[k] == i;
                assert(places[k] == i);
            } else {
                assert(places[before.len() as int] == i);
            }
        }
        places
    }
}

/// A digest shows the fifty lively posts with the latest activity, each with the
/// best ten of all its new comments and its activity that of all of them, and
/// the best twenty-five of all new comments without a post.
pub proof fn law_digests_leave_nothing_new_out(
    generated_utc: i64,
    since_utc: i64,
    subreddit: Option<Seq<char>>,
    posts: Seq<PostModel>,
    comments: Seq<CommentModel>,
)
    ensures
        ({
            let d = digest_of(generated_utc, since_utc, subreddit, posts, comments);
            &&& d.generated_utc == generated_utc
            &&& d.since_utc == since_utc
            &&& d.subreddit == subreddit
            &&& exists|places: Seq<int>, grouped: Seq<PostModel>, order: Seq<int>|
                #![trigger groups_at(posts, comments, since_utc, places, grouped), liveliest_of(grouped, 50, order, d.posts)]
                groups_at(posts, comments, since_utc, places, grouped) && liveliest_of(
                    grouped,
                    50,
                    order,
                    d.posts,
                )
            &&& exists|order: Seq<int>| #[trigger]
                best_of(alone_in(comments, posts, since_utc), 25, order, d.orphan_comments)
        }),
{
    let d = digest_of(generated_utc, since_utc, subreddit, posts, comments);
    let grouped = groups(posts, comments, since_utc);
    let places = lemma_groups(posts, comments, since_utc);
    let order = lemma_liveliest(grouped, 50);
    assert(groups_at(posts, comments, since_utc, places, grouped));
    assert(liveliest_of(grouped, 50, order, d.posts));
    law_new_comments_are_all_taken(comments, posts, Seq::empty(), since_utc);
    let alone = alone_in(comments, posts, since_utc);
    let order = lemma_best(orphans_since(comments, posts, since_utc), 25);
    assert(best_of(alone, 25, order, d.orphan_comments));
}

/// A digest counts each of its comments once, those under posts and those
/// without.
pub proof fn law_digests_count_their_comments(digest: DigestModel)
    requires
        digest.posts.map_values(|p: PostModel| p.comments).flatten().len()
            + digest.orphan_comments.len() <= usize::MAX,
    ensures
        digest.comment_count() == digest.posts.map_values(
            |p: PostModel| p.comments,
        ).flatten().len() + digest.orphan_comments.len(),
{
    lemma_grouped_count(digest.posts);
}

proof fn lemma_grouped_count(posts: Seq<PostModel>)
    ensures
        grouped_count(posts) == posts.map_values(|p: PostModel| p.comments).flatten().len(),
    decreases posts.len(),
{
    let lists = posts.map_values(|p: PostModel| p.comments);
    lists.lemma_flatten_and_flatten_alt_are_equivalent();
    if posts.len() > 0 {
        let front = posts.drop_last();
        lemma_grouped_count(front);
        let before = front.map_values(|p: PostModel| p.comments);
        before.lemma_flatten_and_flatten_alt_are_equivalent();
        assert(lists.drop_last() =~= before);
        assert(lists.last() == posts.last().comments);
    }
}

} // verus!
