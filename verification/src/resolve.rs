//! Gathering a thread from several answers.
use std::collections::VecDeque;
use vstd::hash_map::StringHashMap;
use vstd::prelude::*;

use crate::model;
use crate::model::{
    CaptureModel, ItemModel, MoreStub, RedditItem, StubModel, ThreadCapture, ThreadModel,
    ThreadView,
};
use crate::number;
use crate::order;
use crate::parse;
use crate::text;

verus! {

/// A thread as far as it is gathered: its post, the comments by id, and the
/// stubs that are still to be expanded or were given up.
pub struct ThreadAccumulator {
    post: Option<RedditItem>,
    comments: Vec<RedditItem>,
    by_id: StringHashMap<usize>,
    queue: VecDeque<MoreStub>,
    unresolved: Vec<MoreStub>,
}

/// What a [`ThreadAccumulator`] holds.
pub struct GatheredModel {
    pub post: Option<ItemModel>,
    pub comments: Seq<ItemModel>,
    pub queue: Seq<StubModel>,
    pub unresolved: Seq<StubModel>,
}

/// The first position of the comment with an id.
pub open spec fn position_of(comments: Seq<ItemModel>, id: Seq<char>) -> Option<int>
    decreases comments.len(),
{
    if comments.len() == 0 {
        None
    } else {
        match position_of(comments.drop_last(), id) {
            Some(i) => Some(i),
            None => if comments.last().id == id {
                Some(comments.len() - 1)
            } else {
                None
            },
        }
    }
}

/// The comments with one more: it takes the place of the one with its id, or
/// comes last.
pub open spec fn with_comment(comments: Seq<ItemModel>, comment: ItemModel) -> Seq<ItemModel> {
    match position_of(comments, comment.id) {
        Some(i) => comments.update(i, comment),
        None => comments.push(comment),
    }
}

/// The comments with several more, one after the other.
pub open spec fn with_comments(comments: Seq<ItemModel>, more: Seq<ItemModel>) -> Seq<ItemModel>
    decreases more.len(),
{
    if more.len() == 0 {
        comments
    } else {
        with_comment(with_comments(comments, more.drop_last()), more.last())
    }
}

/// No two comments have the same id.
pub open spec fn distinct_ids(comments: Seq<ItemModel>) -> bool {
    forall|i: int, j: int|
        0 <= i < j < comments.len() ==> (#[trigger] comments[i]).id != (#[trigger] comments[j]).id
}

/// How many hidden comments a list of stubs stands for.
pub open spec fn hidden_total(stubs: Seq<StubModel>) -> nat
    decreases stubs.len(),
{
    if stubs.len() == 0 {
        0
    } else {
        hidden_total(stubs.drop_last()) + stubs.last().unresolved_count()
    }
}

impl GatheredModel {
    /// A thread with nothing but a post.
    pub open spec fn only(post: Option<ItemModel>) -> GatheredModel {
        GatheredModel {
            post,
            comments: Seq::empty(),
            queue: Seq::empty(),
            unresolved: Seq::empty(),
        }
    }

    /// A thread of which a first answer is known.
    pub open spec fn started(capture: CaptureModel) -> GatheredModel {
        GatheredModel::only(capture.post).with(CaptureModel { post: None, ..capture })
    }

    /// The permalink of the post.
    pub open spec fn permalink(self) -> Option<Seq<char>> {
        match self.post {
            Some(post) => post.permalink,
            None => None,
        }
    }

    /// The thread with what one more answer tells of it. The first post that
    /// is told stays.
    pub open spec fn with(self, capture: CaptureModel) -> GatheredModel {
        GatheredModel {
            post: if self.post is Some {
                self.post
            } else {
                capture.post
            },
            comments: with_comments(self.comments, capture.comments),
            queue: self.queue + capture.more_stubs,
            unresolved: self.unresolved,
        }
    }

    /// How many hidden comments are still out.
    pub open spec fn unresolved_count(self) -> usize {
        model::capped(hidden_total(self.queue) + hidden_total(self.unresolved))
    }

    /// The comments in the order in which they are shown.
    pub open spec fn ordered_comments(self) -> Seq<ItemModel> {
        match self.post {
            Some(post) => order::ordered(self.comments, "t3_"@ + post.id),
            None => self.comments,
        }
    }

    /// The notice about hidden comments.
    pub open spec fn notice(self, truncated: bool) -> Option<Seq<char>> {
        let count = number::decimal(self.unresolved_count() as nat);
        if truncated {
            Some(
                "thread truncated: "@ + count
                    + " hidden comment(s) not fetched before --max-requests"@,
            )
        } else if self.unresolved_count() > 0 {
            Some(
                "thread incomplete: "@ + count + " hidden comment(s) could not be resolved"@,
            )
        } else {
            None
        }
    }

    /// The thread as it is shown.
    pub open spec fn shown(self, http_requests: usize, truncated: bool) -> ThreadModel {
        ThreadModel {
            post: self.post,
            comments: self.ordered_comments(),
            more_stubs: self.unresolved_count(),
            degraded: false,
            truncated,
            http_requests,
            notice: self.notice(truncated),
        }
    }
}

proof fn lemma_position_is(comments: Seq<ItemModel>, id: Seq<char>)
    ensures
        match position_of(comments, id) {
            Some(i) => 0 <= i < comments.len() && comments[i].id == id && forall|j: int|
                0 <= j < i ==> (#[trigger] comments[j]).id != id,
            None => forall|j: int|
                0 <= j < comments.len() ==> (#[trigger] comments[j]).id != id,
        },
    decreases comments.len(),
{
    if comments.len() > 0 {
        let front = comments.drop_last();
        lemma_position_is(front, id);
        assert forall|j: int| 0 <= j < front.len() implies front[j] == (#[trigger] comments[j]) by {
        }
    }
}

proof fn lemma_with_comment_distinct(comments: Seq<ItemModel>, comment: ItemModel)
    requires
        distinct_ids(comments),
    ensures
        distinct_ids(with_comment(comments, comment)),
{
    lemma_position_is(comments, comment.id);
}

/// Gathering keeps the ids of the comments distinct.
pub proof fn law_gathering_keeps_ids_distinct(comments: Seq<ItemModel>, more: Seq<ItemModel>)
    requires
        distinct_ids(comments),
    ensures
        distinct_ids(with_comments(comments, more)),
    decreases more.len(),
{
    if more.len() > 0 {
        law_gathering_keeps_ids_distinct(comments, more.drop_last());
        lemma_with_comment_distinct(with_comments(comments, more.drop_last()), more.last());
    }
}

/// After gathering, the last of the answers about a comment is the one that is
/// kept, and no comment that was there is lost.
pub proof fn law_gathering_keeps_the_last_answer(
    comments: Seq<ItemModel>,
    comment: ItemModel,
    i: int,
)
    requires
        distinct_ids(comments),
        0 <= i < comments.len(),
    ensures
        with_comment(comments, comment).contains(comment),
        with_comment(comments, comment).len() >= comments.len(),
        with_comment(comments, comment)[i] == if comments[i].id == comment.id {
            comment
        } else {
            comments[i]
        },
{
    lemma_position_is(comments, comment.id);
    let r = with_comment(comments, comment);
    match position_of(comments, comment.id) {
        Some(p) => {
            assert(r[p] == comment);
            if comments[i].id == comment.id && p != i {
                assert(comments[p].id == comments[i].id);
            }
        },
        None => {
            assert(r[comments.len() as int] == comment);
        },
    }
}

/// The hidden comments of two lists of stubs are those of both.
pub proof fn lemma_hidden_append(a: Seq<StubModel>, b: Seq<StubModel>)
    ensures
        hidden_total(a + b) == hidden_total(a) + hidden_total(b),
    decreases b.len(),
{
    if b.len() == 0 {
        assert(a + b =~= a);
    } else {
        lemma_hidden_append(a, b.drop_last());
        assert((a + b).drop_last() =~= a + b.drop_last());
        assert((a + b).last() == b.last());
    }
}

impl View for ThreadAccumulator {
    type V = GatheredModel;

    closed spec fn view(&self) -> GatheredModel {
        GatheredModel {
            post: model::opt_item(self.post),
            comments: model::items_model(self.comments@),
            queue: model::stubs_model(self.queue@),
            unresolved: model::stubs_model(self.unresolved@),
        }
    }
}

impl ThreadAccumulator {
    /// The ids are distinct, and the index finds each comment by its id.
    pub closed spec fn wf(&self) -> bool {
        &&& distinct_ids(self@.comments)
        &&& forall|id: Seq<char>| #[trigger]
            self.by_id@.contains_key(id) <==> position_of(self@.comments, id) is Some
        &&& forall|id: Seq<char>| #[trigger]
            self.by_id@.contains_key(id) ==> Some(self.by_id@[id] as int) == position_of(
                self@.comments,
                id,
            )
    }

    /// A well-formed accumulator holds no two comments with the same id.
    pub proof fn lemma_wf_distinct(&self)
        requires
            self.wf(),
        ensures
            distinct_ids(self@.comments),
    {
    }

    /// Starts a thread with a first answer.
    pub fn new(capture: ThreadCapture) -> (r: ThreadAccumulator)
        ensures
            r.wf(),
            r@ == GatheredModel::started(capture@),
    {
        let mut out = ThreadAccumulator {
            post: capture.post,
            comments: Vec::new(),
            by_id: StringHashMap::new(),
            queue: VecDeque::new(),
            unresolved: Vec::new(),
        };
        proof {
            assert(out@.comments =~= Seq::empty());
            assert(out@.queue =~= Seq::empty());
            assert(out@.unresolved =~= Seq::empty());
        }
        out.add_capture(
            ThreadCapture {
                post: None,
                comments: capture.comments,
                more_stubs: capture.more_stubs,
            },
        );
        out
    }

    /// The id of the post.
    pub fn post_id(&self) -> (r: Option<&str>)
        ensures
            text::opt_str(r) == parse::id_of(self@.post),
    {
        match &self.post {
            Some(post) => Some(post.id.as_str()),
            None => None,
        }
    }

    /// The full name of the post.
    pub fn post_fullname(&self) -> (r: Option<String>)
        ensures
            text::opt(r) == match self@.post {
                Some(post) => Some(post.fullname),
                None => None,
            },
    {
        match &self.post {
            Some(post) => Some(post.fullname.clone()),
            None => None,
        }
    }

    /// The permalink of the post.
    pub fn post_permalink(&self) -> (r: Option<String>)
        ensures
            text::opt(r) == self@.permalink(),
    {
        match &self.post {
            Some(post) => model::copy_opt(&post.permalink),
            None => None,
        }
    }

    /// Adds what one more answer tells of the thread.
    pub fn add_capture(&mut self, capture: ThreadCapture)
        requires
            old(self).wf(),
        ensures
            final(self).wf(),
            final(self)@ == old(self)@.with(capture@),
    {
        let ghost was = self@;
        let ghost told = capture@;
        let ThreadCapture { post, comments, more_stubs } = capture;
        if self.post.is_none() {
            self.post = post;
        }
        assert(self@.comments =~= with_comments(was.comments, told.comments.take(0)));
        for comment in it: comments
            invariant
                it.seq() == comments@,
                told.comments == model::items_model(comments@),
                self.wf(),
                self@.post == (if was.post is Some {
                    was.post
                } else {
                    told.post
                }),
                self@.comments == with_comments(was.comments, told.comments.take(it.index())),
                self@.queue == was.queue,
                self@.unresolved == was.unresolved,
        {
            proof {
                let t = told.comments.take(it.index() + 1);
                assert(t.drop_last() =~= told.comments.take(it.index()));
                assert(t.last() == comment@);
            }
            self.add_comment(comment);
        }
        proof {
            assert(told.comments.take(told.comments.len() as int) =~= told.comments);
            assert(self@.queue =~= was.queue + told.more_stubs.take(0));
        }
        for stub in it: more_stubs
            invariant
                it.seq() == more_stubs@,
                told.more_stubs == model::stubs_model(more_stubs@),
                self.wf(),
                self@.post == (if was.post is Some {
                    was.post
                } else {
                    told.post
                }),
                self@.comments == with_comments(was.comments, told.comments),
                self@.queue == was.queue + told.more_stubs.take(it.index()),
                self@.unresolved == was.unresolved,
        {
            let ghost had = self@.queue;
            let ghost one = stub@;
            self.queue.push_back(stub);
            proof {
                assert(self@.queue =~= had.push(one));
                assert(told.more_stubs.take(it.index() + 1) =~= told.more_stubs.take(
                    it.index(),
                ).push(one));
                assert(self@.queue =~= was.queue + told.more_stubs.take(it.index() + 1));
            }
        }
        assert(told.more_stubs.take(told.more_stubs.len() as int) =~= told.more_stubs);
    }

    /// Takes the next stub to expand.
    pub fn pop_stub(&mut self) -> (r: Option<MoreStub>)
        requires
            old(self).wf(),
        ensures
            final(self).wf(),
            match r {
                Some(stub) => old(self)@.queue.len() > 0 && stub@ == old(self)@.queue[0]
                    && final(self)@ == (GatheredModel {
                    queue: old(self)@.queue.skip(1),
                    ..old(self)@
                }),
                None => old(self)@.queue.len() == 0 && final(self)@ == old(self)@,
            },
    {
        let ghost was = self@;
        let r = self.queue.pop_front();
        proof {
            if r is Some {
                assert(self@.queue =~= was.queue.skip(1));
            } else {
                assert(self@.queue =~= was.queue);
            }
        }
        r
    }

    /// Keeps a stub that was not expanded.
    pub fn keep_unresolved(&mut self, stub: MoreStub)
        requires
            old(self).wf(),
        ensures
            final(self).wf(),
            final(self)@ == (GatheredModel {
                unresolved: old(self)@.unresolved.push(stub@),
                ..old(self)@
            }),
    {
        let ghost was = self@;
        let ghost one = stub@;
        self.unresolved.push(stub);
        assert(self@.unresolved =~= was.unresolved.push(one));
    }

    /// Whether any stub is left.
    pub fn has_pending_stubs(&self) -> (r: bool)
        ensures
            r == (self@.queue.len() > 0 || self@.unresolved.len() > 0),
    {
        self.queue.len() > 0 || self.unresolved.len() > 0
    }

    /// How many hidden comments are still out.
    pub fn unresolved_count(&self) -> (r: usize)
        ensures
            r == self@.unresolved_count(),
    {
        let mut total: usize = 0;
        let mut i: usize = 0;
        while i < self.queue.len()
            invariant
                i <= self.queue@.len(),
                total == model::capped(hidden_total(self@.queue.take(i as int))),
            decreases self.queue@.len() - i,
        {
            let ghost t = self@.queue.take(i + 1);
            proof {
                assert(t.drop_last() =~= self@.queue.take(i as int));
                assert(t.last() == self.queue@[i as int]@);
            }
            total = total.saturating_add(self.queue[i].unresolved_count());
            i = i + 1;
        }
        assert(self@.queue.take(self@.queue.len() as int) =~= self@.queue);
        let ghost first = hidden_total(self@.queue);
        let mut k: usize = 0;
        while k < self.unresolved.len()
            invariant
                k <= self.unresolved@.len(),
                total == model::capped(first + hidden_total(self@.unresolved.take(k as int))),
            decreases self.unresolved@.len() - k,
        {
            let ghost t = self@.unresolved.take(k + 1);
            proof {
                assert(t.drop_last() =~= self@.unresolved.take(k as int));
                assert(t.last() == self.unresolved@[k as int]@);
            }
            total = total.saturating_add(self.unresolved[k].unresolved_count());
            k = k + 1;
        }
        assert(self@.unresolved.take(self@.unresolved.len() as int) =~= self@.unresolved);
        total
    }

    /// Shows the thread.
    pub fn into_view(self, http_requests: usize, truncated: bool) -> (r: ThreadView)
        requires
            self.wf(),
        ensures
            r@ == self@.shown(http_requests, truncated),
    {
        let more_stubs = self.unresolved_count();
        let comments = self.ordered_comments();
        let notice = if truncated {
            let mut out = "thread truncated: ".to_owned();
            let count = number::usize_text(more_stubs);
            out.push_str(count.as_str());
            out.push_str(" hidden comment(s) not fetched before --max-requests");
            Some(out)
        } else if more_stubs > 0 {
            let mut out = "thread incomplete: ".to_owned();
            let count = number::usize_text(more_stubs);
            out.push_str(count.as_str());
            out.push_str(" hidden comment(s) could not be resolved");
            Some(out)
        } else {
            None
        };
        ThreadView {
            post: self.post,
            comments,
            more_stubs,
            degraded: false,
            truncated,
            http_requests,
            notice,
        }
    }

    fn add_comment(&mut self, comment: RedditItem)
        requires
            old(self).wf(),
        ensures
            final(self).wf(),
            final(self)@ == (GatheredModel {
                comments: with_comment(old(self)@.comments, comment@),
                ..old(self)@
            }),
    {
        let ghost was = self@;
        let ghost one = comment@;
        proof {
            lemma_with_comment_distinct(was.comments, one);
        }
        let found: Option<usize> = match self.by_id.get(comment.id.as_str()) {
            Some(i) => Some(*i),
            None => None,
        };
        match found {
            Some(i) => {
                proof {
                    lemma_position_is(was.comments, one.id);
                }
                self.comments.set(i, comment);
                proof {
                    assert(self@.comments =~= was.comments.update(i as int, one));
                    assert forall|id: Seq<char>| position_of(self@.comments, id) == position_of(
                        was.comments,
                        id,
                    ) by {
                        lemma_position_is(was.comments, id);
                        lemma_position_is(self@.comments, id);
                        let p = position_of(was.comments, id);
                        let q = position_of(self@.comments, id);
                        assert forall|j: int|
                            0 <= j < was.comments.len() implies (#[trigger] self@.comments[j]).id
                            == was.comments[j].id by {}
                        if p is Some && q is Some {
                            assert(self@.comments[p->0].id == id);
                            assert(was.comments[q->0].id == id);
                            if p->0 < q->0 {
                                assert(self@.comments[p->0].id != id);
                            }
                            if q->0 < p->0 {
                                assert(was.comments[q->0].id != id);
                            }
                        } else if p is Some {
                            assert(self@.comments[p->0].id == id);
                        } else if q is Some {
                            assert(was.comments[q->0].id == id);
                        }
                    }
                }
            },
            None => {
                let n: usize = self.comments.len();
                self.by_id.insert(comment.id.clone(), n);
                self.comments.push(comment);
                proof {
                    assert(self@.comments =~= was.comments.push(one));
                    assert(self@.comments.drop_last() =~= was.comments);
                }
            },
        }
    }

    /// The comments in the order in which they are shown.
    pub fn ordered_comments(&self) -> (r: Vec<RedditItem>)
        ensures
            model::items_model(r@) == self@.ordered_comments(),
    {
        match &self.post {
            Some(post) => {
                let mut root = "t3_".to_owned();
                root.push_str(post.id.as_str());
                order::order_comments(&self.comments, root.as_str())
            },
            None => {
                let mut out: Vec<RedditItem> = Vec::new();
                let mut i: usize = 0;
                while i < self.comments.len()
                    invariant
                        i <= self.comments@.len(),
                        out@.len() == i,
                        forall|j: int|
                            0 <= j < i ==> (#[trigger] out@[j])@ == self.comments@[j]@,
                    decreases self.comments@.len() - i,
                {
                    out.push(self.comments[i].clone());
                    i = i + 1;
                }
                assert(model::items_model(out@) =~= self@.comments);
                out
            },
        }
    }
}

/// What the notice counts is what the stubs that are left stand for, whatever
/// list they are in.
pub proof fn law_hidden_comments_are_counted_once(gathered: GatheredModel)
    ensures
        gathered.unresolved_count() == model::capped(
            hidden_total(gathered.queue + gathered.unresolved),
        ),
{
    lemma_hidden_append(gathered.queue, gathered.unresolved);
}

/// What is known of a comment after some answers: of all that was told of the
/// comment with its id, the last.
pub open spec fn last_told(told: Seq<ItemModel>, comment: ItemModel) -> bool {
    exists|i: int| #![trigger told[i]]
        0 <= i < told.len() && told[i] == comment && forall|j: int|
            i < j < told.len() ==> (#[trigger] told[j]).id != comment.id
}

/// A comment with an id is there.
pub open spec fn has_comment(comments: Seq<ItemModel>, id: Seq<char>) -> bool {
    exists|k: int| 0 <= k < comments.len() && (#[trigger] comments[k]).id == id
}

/// Each comment is as it was told last.
pub open spec fn all_last_told(told: Seq<ItemModel>, comments: Seq<ItemModel>) -> bool {
    forall|k: int| 0 <= k < comments.len() ==> last_told(told, #[trigger] comments[k])
}

proof fn lemma_one_more_told(before: Seq<ItemModel>, told: Seq<ItemModel>, last: ItemModel)
    requires
        distinct_ids(before),
        all_last_told(told, before),
    ensures
        all_last_told(told.push(last), with_comment(before, last)),
{
    let result = with_comment(before, last);
    let now = told.push(last);
    lemma_position_is(before, last.id);
    assert forall|k: int| 0 <= k < result.len() implies last_told(now, #[trigger] result[k]) by {
        if result[k] == last {
            assert(now[told.len() as int] == last);
        } else {
            assert(k < before.len() && result[k] == before[k]);
            assert(before[k].id != last.id) by {
                match position_of(before, last.id) {
                    Some(p) => {
                        assert(p != k);
                        if p < k {
                            assert(before[p].id != before[k].id);
                        } else {
                            assert(before[k].id != before[p].id);
                        }
                    },
                    None => {},
                }
            }
            assert(last_told(told, before[k]));
            let i = choose|i: int| #![trigger told[i]]
                0 <= i < told.len() && told[i] == before[k] && forall|j: int|
                    i < j < told.len() ==> (#[trigger] told[j]).id != before[k].id;
            assert(now[i] == result[k]);
            assert forall|j: int| i < j < now.len() implies (#[trigger] now[j]).id
                != result[k].id by {
                if j < told.len() {
                    assert(told[j] == now[j]);
                }
            }
        }
    }
}

proof fn lemma_one_more_there(before: Seq<ItemModel>, last: ItemModel)
    ensures
        has_comment(with_comment(before, last), last.id),
        with_comment(before, last).len() >= before.len(),
        forall|k: int|
            0 <= k < before.len() ==> (#[trigger] with_comment(before, last)[k]).id
                == before[k].id,
{
    lemma_position_is(before, last.id);
    let result = with_comment(before, last);
    match position_of(before, last.id) {
        Some(p) => {
            assert(result[p].id == last.id);
        },
        None => {
            assert(result[before.len() as int].id == last.id);
        },
    }
}

proof fn lemma_told_once(comments: Seq<ItemModel>)
    requires
        distinct_ids(comments),
    ensures
        all_last_told(comments, comments),
{
    assert forall|k: int| 0 <= k < comments.len() implies last_told(
        comments,
        #[trigger] comments[k],
    ) by {
        assert forall|j: int| k < j < comments.len() implies (#[trigger] comments[j]).id
            != comments[k].id by {
            assert(comments[k].id != comments[j].id);
        }
    }
}

proof fn lemma_all_told(comments: Seq<ItemModel>, more: Seq<ItemModel>)
    requires
        distinct_ids(comments),
    ensures
        all_last_told(comments + more, with_comments(comments, more)),
    decreases more.len(),
{
    if more.len() == 0 {
        assert(comments + more =~= comments);
        lemma_told_once(comments);
    } else {
        let front = more.drop_last();
        lemma_all_told(comments, front);
        law_gathering_keeps_ids_distinct(comments, front);
        assert(comments + more =~= (comments + front).push(more.last()));
        lemma_one_more_told(with_comments(comments, front), comments + front, more.last());
    }
}

proof fn lemma_places_kept(comments: Seq<ItemModel>, more: Seq<ItemModel>)
    ensures
        with_comments(comments, more).len() >= comments.len(),
        forall|k: int|
            0 <= k < comments.len() ==> (#[trigger] with_comments(comments, more)[k]).id
                == comments[k].id,
    decreases more.len(),
{
    if more.len() > 0 {
        let before = with_comments(comments, more.drop_last());
        lemma_places_kept(comments, more.drop_last());
        lemma_one_more_there(before, more.last());
        let result = with_comments(comments, more);
        assert forall|k: int| 0 <= k < comments.len() implies (#[trigger] result[k]).id
            == comments[k].id by {
            assert(before[k].id == comments[k].id);
        }
    }
}

proof fn lemma_all_there(comments: Seq<ItemModel>, more: Seq<ItemModel>, j: int)
    requires
        0 <= j < more.len(),
    ensures
        has_comment(with_comments(comments, more), more[j].id),
    decreases more.len(),
{
    let front = more.drop_last();
    let before = with_comments(comments, front);
    lemma_one_more_there(before, more.last());
    if j < front.len() {
        lemma_all_there(comments, front, j);
        let k = choose|k: int| 0 <= k < before.len() && (#[trigger] before[k]).id == front[j].id;
        assert(with_comments(comments, more)[k].id == more[j].id);
    }
}

proof fn lemma_gathered(comments: Seq<ItemModel>, more: Seq<ItemModel>)
    requires
        distinct_ids(comments),
    ensures
        distinct_ids(with_comments(comments, more)),
        with_comments(comments, more).len() >= comments.len(),
        all_last_told(comments + more, with_comments(comments, more)),
        forall|k: int|
            0 <= k < comments.len() ==> (#[trigger] with_comments(comments, more)[k]).id
                == comments[k].id,
        forall|j: int|
            0 <= j < more.len() ==> has_comment(
                with_comments(comments, more),
                (#[trigger] more[j]).id,
            ),
{
    law_gathering_keeps_ids_distinct(comments, more);
    lemma_all_told(comments, more);
    lemma_places_kept(comments, more);
    assert forall|j: int| 0 <= j < more.len() implies has_comment(
        with_comments(comments, more),
        (#[trigger] more[j]).id,
    ) by {
        lemma_all_there(comments, more, j);
    }
}

/// One more answer adds to a thread and takes nothing away. The comments that
/// were there keep their places, every comment of the answer is there, each
/// comment is as it was told last, and none is there that was not told. The
/// stubs of the answer come behind the others, and the first post that was told
/// stays.
pub proof fn law_answers_add_up(gathered: GatheredModel, capture: CaptureModel)
    requires
        distinct_ids(gathered.comments),
    ensures
        ({
            let next = gathered.with(capture);
            &&& distinct_ids(next.comments)
            &&& next.comments.len() >= gathered.comments.len()
            &&& all_last_told(gathered.comments + capture.comments, next.comments)
            &&& forall|k: int|
                0 <= k < gathered.comments.len() ==> (#[trigger] next.comments[k]).id
                    == gathered.comments[k].id
            &&& forall|j: int|
                0 <= j < capture.comments.len() ==> has_comment(
                    next.comments,
                    (#[trigger] capture.comments[j]).id,
                )
            &&& next.queue.len() == gathered.queue.len() + capture.more_stubs.len()
            &&& forall|i: int| #![trigger gathered.queue[i]]
                0 <= i < gathered.queue.len() ==> next.queue[i] == gathered.queue[i]
            &&& forall|i: int| #![trigger capture.more_stubs[i]]
                0 <= i < capture.more_stubs.len() ==> next.queue[gathered.queue.len() + i]
                    == capture.more_stubs[i]
            &&& next.unresolved == gathered.unresolved
            &&& gathered.post is Some ==> next.post == gathered.post
            &&& gathered.post is None ==> next.post == capture.post
        }),
{
    lemma_gathered(gathered.comments, capture.comments);
}

/// A thread starts with the post and the stubs of its first answer, and with its
/// comments, of those with the same id the last one.
pub proof fn law_threads_start_with_the_first_answer(capture: CaptureModel)
    ensures
        ({
            let first = GatheredModel::started(capture);
            &&& first.post == capture.post
            &&& first.queue == capture.more_stubs
            &&& first.unresolved.len() == 0
            &&& distinct_ids(first.comments)
            &&& all_last_told(capture.comments, first.comments)
            &&& forall|j: int|
                0 <= j < capture.comments.len() ==> has_comment(
                    first.comments,
                    (#[trigger] capture.comments[j]).id,
                )
        }),
{
    lemma_gathered(Seq::empty(), capture.comments);
    assert(Seq::<ItemModel>::empty() + capture.comments =~= capture.comments);
    assert(Seq::<StubModel>::empty() + capture.more_stubs =~= capture.more_stubs);
}

/// The hidden comments of stubs are the sum of what each stands for: as many as
/// it lists or tells, whichever is more, and at least one.
pub proof fn law_every_stub_counts(stubs: Seq<StubModel>)
    ensures
        hidden_total(stubs) == parse::total(
            stubs.map_values(|stub: StubModel| stub.unresolved_count()),
        ),
        forall|i: int| #![trigger stubs[i]]
            0 <= i < stubs.len() ==> {
                let n = stubs[i].unresolved_count();
                &&& n >= stubs[i].children.len()
                &&& n >= stubs[i].count
                &&& n >= 1
                &&& n == stubs[i].children.len() || n == stubs[i].count || n == 1
            },
    decreases stubs.len(),
{
    if stubs.len() > 0 {
        law_every_stub_counts(stubs.drop_last());
        let counts = stubs.map_values(|stub: StubModel| stub.unresolved_count());
        assert(counts.drop_last() =~= stubs.drop_last().map_values(
            |stub: StubModel| stub.unresolved_count(),
        ));
    }
}

/// A thread is shown with its post, its comments in order and the number of the
/// hidden ones. A notice tells that number where the thread was truncated or
/// any are hidden, and only there.
pub proof fn law_shown_threads_tell_what_is_hidden(
    gathered: GatheredModel,
    http_requests: usize,
    truncated: bool,
)
    ensures
        ({
            let view = gathered.shown(http_requests, truncated);
            let hidden = hidden_total(gathered.queue) + hidden_total(gathered.unresolved);
            &&& view.post == gathered.post
            &&& view.http_requests == http_requests
            &&& view.truncated == truncated
            &&& !view.degraded
            &&& hidden <= usize::MAX ==> view.more_stubs == hidden
            &&& hidden > usize::MAX ==> view.more_stubs == usize::MAX
            &&& view.notice is Some <==> truncated || hidden > 0
            &&& view.notice matches Some(words) ==> {
                let count = number::decimal(view.more_stubs as nat);
                &&& truncated ==> words == "thread truncated: "@ + count
                    + " hidden comment(s) not fetched before --max-requests"@
                &&& !truncated ==> words == "thread incomplete: "@ + count
                    + " hidden comment(s) could not be resolved"@
            }
            &&& gathered.post matches Some(post) ==> view.comments == order::ordered(
                gathered.comments,
                "t3_"@ + post.id,
            )
            &&& gathered.post is None ==> view.comments == gathered.comments
        }),
{
}

} // verus!
