//! Threads: the requests that reading one takes, and what is shown.
use vstd::prelude::*;

use crate::address;
use crate::atom;
use crate::atom::FeedModel;
use crate::cli::{ThreadCommand, ThreadSort};
use crate::error;
use crate::error::{ErrorModel, RdtError};
use crate::json;
use crate::json::{Json, JsonModel};
use crate::listing;
use crate::model;
use crate::model::{
    ItemKind, ItemModel, MoreStub, RedditItem, StubModel, ThreadModel, ThreadView,
};
use crate::number;
use crate::parse;
use crate::resolve;
use crate::resolve::{GatheredModel, ThreadAccumulator};
use crate::text;
use crate::transport;
use crate::transport::{RedditClient, Request, RequestModel};
use crate::web;

verus! {

// ---------------------------------------------------------------------------
// Requests
// ---------------------------------------------------------------------------

/// The parameters of a request for a thread.
pub open spec fn thread_params(sort: ThreadSort, depth: Option<u32>) -> Seq<
    (Seq<char>, Seq<char>),
> {
    let first = seq![("sort"@, sort.word()), ("limit"@, "500"@)];
    match depth {
        Some(n) => first.push(("depth"@, number::decimal(n as nat))),
        None => first,
    }
}

fn params_of_thread(sort: ThreadSort, depth: Option<u32>) -> (r: Vec<(String, String)>)
    ensures
        web::params_model(r@) == thread_params(sort, depth),
{
    let mut params = transport::no_params();
    transport::add_param(&mut params, "sort", sort.as_reddit());
    transport::add_param(&mut params, "limit", "500");
    match depth {
        Some(n) => {
            transport::add_param(&mut params, "depth", number::u64_text(n as u64).as_str());
        },
        None => {},
    }
    assert(web::params_model(params@) =~= thread_params(sort, depth));
    params
}

/// The request for hidden comments, by their ids.
pub open spec fn more_request(
    link_id: Seq<char>,
    children: Seq<Seq<char>>,
    sort: ThreadSort,
) -> RequestModel {
    RequestModel::json(
        "/api/morechildren.json"@,
        seq![
            ("api_type"@, "json"@),
            ("link_id"@, link_id),
            ("children"@, text::join(children, ","@)),
            ("sort"@, sort.word()),
        ],
    )
}

fn morechildren_json(link_id: &str, children: &[String], sort: ThreadSort) -> (r: Request)
    ensures
        r@ == more_request(link_id@, text::texts(children@), sort),
        r@.on_site(),
{
    proof {
        reveal_strlit("/api/morechildren.json");
    }
    let mut params = transport::no_params();
    transport::add_param(&mut params, "api_type", "json");
    transport::add_param(&mut params, "link_id", link_id);
    transport::add_param(&mut params, "children", text::joined(children, ",").as_str());
    transport::add_param(&mut params, "sort", sort.as_reddit());
    assert(web::params_model(params@) =~= seq![
        ("api_type"@, "json"@),
        ("link_id"@, link_id@),
        ("children"@, text::join(text::texts(children@), ","@)),
        ("sort"@, sort.word()),
    ]);
    let r = Request::json("/api/morechildren.json".to_owned(), params);
    proof {
        transport::law_rooted_requests_go_to_the_site(r@);
    }
    r
}

// ---------------------------------------------------------------------------
// Expanding hidden comments
// ---------------------------------------------------------------------------

/// How many hidden comments are asked for at once.
pub const BATCH: usize = 100;

/// A stub whose hidden comments are being asked for, from a position on.
struct Batch {
    stub: MoreStub,
    start: usize,
    link_id: String,
}

/// What a batch holds.
pub struct BatchModel {
    pub stub: StubModel,
    pub start: nat,
    pub link_id: Seq<char>,
}

impl View for Batch {
    type V = BatchModel;

    closed spec fn view(&self) -> BatchModel {
        BatchModel { stub: self.stub@, start: self.start as nat, link_id: self.link_id@ }
    }
}

/// A thread whose hidden comments are being fetched.
pub struct ThreadResolver {
    accumulator: ThreadAccumulator,
    http_requests: usize,
    max_requests: usize,
    sort: ThreadSort,
    depth: Option<u32>,
    batch: Option<Batch>,
}

/// What a [`ThreadResolver`] holds.
pub struct ResolverModel {
    pub gathered: GatheredModel,
    pub http_requests: usize,
    pub max_requests: usize,
    pub sort: ThreadSort,
    pub depth: Option<u32>,
    pub batch: Option<BatchModel>,
}

impl View for ThreadResolver {
    type V = ResolverModel;

    closed spec fn view(&self) -> ResolverModel {
        ResolverModel {
            gathered: self.accumulator@,
            http_requests: self.http_requests,
            max_requests: self.max_requests,
            sort: self.sort,
            depth: self.depth,
            batch: match self.batch {
                Some(batch) => Some(batch@),
                None => None,
            },
        }
    }
}

/// What follows for a thread whose hidden comments are being fetched: a
/// request, the thread as it is shown, or a failure.
pub enum NextModel {
    Ask { request: RequestModel, resolver: ResolverModel },
    Show(ThreadModel),
    Fail(ErrorModel),
}

enum Next {
    Ask { request: Request, resolver: ThreadResolver },
    Show(ThreadView),
    Fail(RdtError),
}

impl View for Next {
    type V = NextModel;

    closed spec fn view(&self) -> NextModel {
        match *self {
            Next::Ask { request, resolver } => NextModel::Ask {
                request: request@,
                resolver: resolver@,
            },
            Next::Show(view) => NextModel::Show(view@),
            Next::Fail(e) => NextModel::Fail(e@),
        }
    }
}

/// A thread with one more stub that was not expanded.
pub open spec fn keeping(gathered: GatheredModel, stub: StubModel) -> GatheredModel {
    GatheredModel { unresolved: gathered.unresolved.push(stub), ..gathered }
}

/// A stub without the hidden comments before a position.
pub open spec fn stub_from(stub: StubModel, start: int) -> StubModel {
    let children = stub.children.skip(start);
    StubModel {
        children,
        count: if children.len() > 1 {
            children.len() as usize
        } else {
            1
        },
        ..stub
    }
}

/// A stub without the hidden comments before a position.
pub fn stub_with_children(stub: &MoreStub, start: usize) -> (r: MoreStub)
    requires
        start <= stub.children@.len(),
    ensures
        r@ == stub_from(stub@, start as int),
{
    let children = model::copy_texts(&stub.children, start);
    assert(children@.len() == text::texts(children@).len());
    let count: usize = if children.len() > 1 {
        children.len()
    } else {
        1
    };
    MoreStub {
        id: stub.id.clone(),
        parent_id: model::copy_opt(&stub.parent_id),
        post_id: model::copy_opt(&stub.post_id),
        children,
        count,
        depth: stub.depth,
    }
}

/// The full name of the post that hidden comments belong to.
pub open spec fn link_id_for(gathered: GatheredModel, stub: StubModel) -> Option<Seq<char>> {
    match gathered.post {
        Some(post) => Some(post.fullname),
        None => match stub.post_id {
            Some(id) => Some("t3_"@ + id),
            None => None,
        },
    }
}

/// The hidden comments that are asked for at once, from a position on.
pub open spec fn batch_ids(children: Seq<Seq<char>>, start: int) -> Seq<Seq<char>> {
    children.subrange(
        start,
        if start + BATCH <= children.len() {
            start + BATCH
        } else {
            children.len() as int
        },
    )
}

/// The failure where the page of a thread is not known.
pub const NO_PERMALINK: &'static str =
    "cannot fetch continue-thread subtree without post permalink";

/// The failure where the post of a thread is not known.
pub const NO_POST: &'static str = "cannot expand morechildren without post id";

impl ResolverModel {
    /// Looks for the next stub to expand. None is left, the requests are used
    /// up, or one is asked for: by the page of a comment, or by a first batch
    /// of ids. A stub that tells neither is kept.
    pub open spec fn seek(self) -> NextModel
        decreases self.gathered.queue.len(),
    {
        let queue = self.gathered.queue;
        if queue.len() == 0 {
            NextModel::Show(self.gathered.shown(self.http_requests, false))
        } else {
            let stub = queue[0];
            let rest = GatheredModel { queue: queue.skip(1), ..self.gathered };
            if self.http_requests >= self.max_requests {
                NextModel::Show(keeping(rest, stub).shown(self.http_requests, true))
            } else if stub.children.len() == 0 {
                match stub.continue_parent_short_id() {
                    None => (ResolverModel { gathered: keeping(rest, stub), ..self }).seek(),
                    Some(id) => match rest.permalink() {
                        None => NextModel::Fail(ErrorModel::Message(NO_PERMALINK@)),
                        Some(link) => match address::target_path(link, "json"@) {
                            Err(e) => NextModel::Fail(e),
                            Ok(page) => NextModel::Ask {
                                request: RequestModel::json(
                                    address::subtree_path(page, id),
                                    thread_params(self.sort, self.depth),
                                ),
                                resolver: ResolverModel { gathered: rest, batch: None, ..self },
                            },
                        },
                    },
                }
            } else {
                match link_id_for(rest, stub) {
                    None => NextModel::Fail(ErrorModel::Message(NO_POST@)),
                    Some(link_id) => NextModel::Ask {
                        request: more_request(link_id, batch_ids(stub.children, 0), self.sort),
                        resolver: ResolverModel {
                            gathered: rest,
                            batch: Some(BatchModel { stub, start: 0, link_id }),
                            ..self
                        },
                    },
                }
            }
        }
    }

    /// Asks for the next batch of ids; where the requests are used up, the
    /// rest of the stub is kept.
    pub open spec fn resume(self) -> NextModel {
        match self.batch {
            Some(batch) if batch.start < batch.stub.children.len() => {
                if self.http_requests >= self.max_requests {
                    NextModel::Show(
                        keeping(self.gathered, stub_from(batch.stub, batch.start as int)).shown(
                            self.http_requests,
                            true,
                        ),
                    )
                } else {
                    NextModel::Ask {
                        request: more_request(
                            batch.link_id,
                            batch_ids(batch.stub.children, batch.start as int),
                            self.sort,
                        ),
                        resolver: self,
                    }
                }
            },
            _ => (ResolverModel { batch: None, ..self }).seek(),
        }
    }

    /// The thread with the answer to a request, which counts as one.
    pub open spec fn received(self, value: JsonModel) -> ResolverModel {
        let http_requests = (self.http_requests + 1) as usize;
        match self.batch {
            None => ResolverModel {
                gathered: self.gathered.with(parse::thread_capture(value)),
                http_requests,
                ..self
            },
            Some(batch) => ResolverModel {
                gathered: self.gathered.with(
                    parse::more_capture(value, parse::id_of(self.gathered.post)),
                ),
                http_requests,
                batch: Some(
                    BatchModel {
                        start: if batch.start + BATCH <= batch.stub.children.len() {
                            batch.start + BATCH as nat
                        } else {
                            batch.stub.children.len()
                        },
                        ..batch
                    },
                ),
                ..self
            },
        }
    }

    /// What follows the answer to a request.
    pub open spec fn after(self, value: JsonModel) -> NextModel {
        self.received(value).resume()
    }

    /// How many hidden comments are still out: those of the stubs that are
    /// left, and those of the stub that is being asked for from where it is.
    pub open spec fn hidden_left(self) -> nat {
        let out = resolve::hidden_total(self.gathered.queue) + resolve::hidden_total(
            self.gathered.unresolved,
        );
        match self.batch {
            Some(batch) if batch.start < batch.stub.children.len() => out + stub_from(
                batch.stub,
                batch.start as int,
            ).unresolved_count(),
            _ => out,
        }
    }

    /// A thread of which the first answer is known. It counts as a request.
    pub open spec fn begin(
        value: JsonModel,
        sort: ThreadSort,
        depth: Option<u32>,
        max_requests: u32,
    ) -> ResolverModel {
        ResolverModel {
            gathered: GatheredModel::started(parse::thread_capture(value)),
            http_requests: 1,
            max_requests: if max_requests >= 1 {
                max_requests as usize
            } else {
                1
            },
            sort,
            depth,
            batch: None,
        }
    }
}

impl ThreadResolver {
    /// The comments are indexed, and a request is left to be made.
    pub closed spec fn wf(&self) -> bool {
        &&& self.accumulator.wf()
        &&& self.http_requests < self.max_requests
        &&& match self.batch {
            Some(batch) => batch.start <= batch.stub.children@.len(),
            None => true,
        }
    }

    closed spec fn ready(&self) -> bool {
        &&& self.accumulator.wf()
        &&& self.http_requests <= self.max_requests
        &&& match self.batch {
            Some(batch) => batch.start <= batch.stub.children@.len(),
            None => true,
        }
    }

    fn begin(value: &Json, sort: ThreadSort, depth: Option<u32>, max_requests: u32) -> (r:
        ThreadResolver)
        ensures
            r.ready(),
            r@ == ResolverModel::begin(value@, sort, depth, max_requests),
    {
        ThreadResolver {
            accumulator: ThreadAccumulator::new(parse::parse_thread_capture(value)),
            http_requests: 1,
            max_requests: if max_requests >= 1 {
                max_requests as usize
            } else {
                1
            },
            sort,
            depth,
            batch: None,
        }
    }

    fn seek(self) -> (r: Next)
        requires
            self.ready(),
            self.batch is None,
        ensures
            r@ == self@.seek(),
            r matches Next::Ask { request, resolver } ==> request@.on_site() && resolver.wf(),
    {
        let ThreadResolver { accumulator, http_requests, max_requests, sort, depth, batch } = self;
        let mut accumulator = accumulator;
        let ghost start = self@;
        loop
            invariant
                accumulator.wf(),
                http_requests <= max_requests,
                start == self@,
                start.http_requests == http_requests,
                start.max_requests == max_requests,
                start.sort == sort,
                start.depth == depth,
                start.batch is None,
                start.seek() == (ResolverModel { gathered: accumulator@, ..start }).seek(),
            decreases accumulator@.queue.len(),
        {
            let ghost here = ResolverModel { gathered: accumulator@, ..start };
            let stub = match accumulator.pop_stub() {
                Some(stub) => stub,
                None => {
                    return Next::Show(accumulator.into_view(http_requests, false));
                },
            };
            let ghost rest = accumulator@;
            assert(rest == (GatheredModel {
                queue: here.gathered.queue.skip(1),
                ..here.gathered
            }));
            if http_requests >= max_requests {
                accumulator.keep_unresolved(stub);
                return Next::Show(accumulator.into_view(http_requests, true));
            }
            assert(stub.children@.len() == stub@.children.len());
            if stub.children.len() == 0 {
                match stub.continue_parent_short_id() {
                    None => {
                        accumulator.keep_unresolved(stub);
                    },
                    Some(id) => {
                        let link = match accumulator.post_permalink() {
                            Some(link) => link,
                            None => {
                                return Next::Fail(RdtError::say(NO_PERMALINK));
                            },
                        };
                        let page = match address::target_to_path(link.as_str(), "json") {
                            Ok(page) => page,
                            Err(e) => {
                                return Next::Fail(e);
                            },
                        };
                        let path = address::thread_subtree_path(page.as_str(), id.as_str());
                        let request = Request::json(path, params_of_thread(sort, depth));
                        proof {
                            transport::law_rooted_requests_go_to_the_site(request@);
                        }
                        return Next::Ask {
                            request,
                            resolver: ThreadResolver {
                                accumulator,
                                http_requests,
                                max_requests,
                                sort,
                                depth,
                                batch: None,
                            },
                        };
                    },
                }
            } else {
                let link_id = match accumulator.post_fullname() {
                    Some(name) => name,
                    None => match &stub.post_id {
                        Some(post_id) => {
                            let mut name = "t3_".to_owned();
                            name.push_str(post_id.as_str());
                            name
                        },
                        None => {
                            return Next::Fail(RdtError::say(NO_POST));
                        },
                    },
                };
                let request = request_batch(&stub, 0, link_id.as_str(), sort);
                return Next::Ask {
                    request,
                    resolver: ThreadResolver {
                        accumulator,
                        http_requests,
                        max_requests,
                        sort,
                        depth,
                        batch: Some(Batch { stub, start: 0, link_id }),
                    },
                };
            }
        }
    }

    fn resume(self) -> (r: Next)
        requires
            self.ready(),
        ensures
            r@ == self@.resume(),
            r matches Next::Ask { request, resolver } ==> request@.on_site() && resolver.wf(),
    {
        let ThreadResolver { accumulator, http_requests, max_requests, sort, depth, batch } = self;
        let mut accumulator = accumulator;
        match batch {
            Some(batch) => {
                assert(batch.stub.children@.len() == batch.stub@.children.len());
                if batch.start < batch.stub.children.len() {
                    if http_requests >= max_requests {
                        accumulator.keep_unresolved(stub_with_children(&batch.stub, batch.start));
                        return Next::Show(accumulator.into_view(http_requests, true));
                    }
                    let request = request_batch(
                        &batch.stub,
                        batch.start,
                        batch.link_id.as_str(),
                        sort,
                    );
                    return Next::Ask {
                        request,
                        resolver: ThreadResolver {
                            accumulator,
                            http_requests,
                            max_requests,
                            sort,
                            depth,
                            batch: Some(batch),
                        },
                    };
                }
            },
            None => {},
        }
        (ThreadResolver { accumulator, http_requests, max_requests, sort, depth, batch: None }).seek()
    }

    fn answered(self, value: &Json) -> (r: Next)
        requires
            self.wf(),
        ensures
            r@ == self@.after(value@),
            r matches Next::Ask { request, resolver } ==> request@.on_site() && resolver.wf(),
    {
        let ThreadResolver { accumulator, http_requests, max_requests, sort, depth, batch } = self;
        let mut accumulator = accumulator;
        match batch {
            None => {
                accumulator.add_capture(parse::parse_thread_capture(value));
                (ThreadResolver {
                    accumulator,
                    http_requests: http_requests + 1,
                    max_requests,
                    sort,
                    depth,
                    batch: None,
                }).resume()
            },
            Some(batch) => {
                assert(batch.stub.children@.len() == batch.stub@.children.len());
                let capture = parse::parse_morechildren(value, accumulator.post_id());
                accumulator.add_capture(capture);
                let total: usize = batch.stub.children.len();
                let start: usize = if total - batch.start >= BATCH {
                    batch.start + BATCH
                } else {
                    total
                };
                let Batch { stub, link_id, .. } = batch;
                (ThreadResolver {
                    accumulator,
                    http_requests: http_requests + 1,
                    max_requests,
                    sort,
                    depth,
                    batch: Some(Batch { stub, start, link_id }),
                }).resume()
            },
        }
    }
}

fn request_batch(stub: &MoreStub, start: usize, link_id: &str, sort: ThreadSort) -> (r: Request)
    requires
        start <= stub.children@.len(),
    ensures
        r@ == more_request(link_id@, batch_ids(stub@.children, start as int), sort),
        r@.on_site(),
{
    let total: usize = stub.children.len();
    let end: usize = if total - start >= BATCH {
        start + BATCH
    } else {
        total
    };
    let ids = &stub.children[start..end];
    assert(text::texts(ids@) =~= batch_ids(stub@.children, start as int));
    morechildren_json(link_id, ids, sort)
}

// ---------------------------------------------------------------------------
// Feeds
// ---------------------------------------------------------------------------

/// The notice of a thread that was read from a feed.
pub const FEED_NOTICE: &'static str =
    "RSS degraded mode: comments are flat and scores/tree metadata are unavailable";

/// The thread in a feed: the first entry is the post, and the others are its
/// comments, without their tree.
pub open spec fn feed_thread(items: Seq<ItemModel>) -> ThreadModel {
    ThreadModel {
        post: if items.len() > 0 {
            Some(items[0])
        } else {
            None
        },
        comments: if items.len() > 0 {
            items.skip(1).map_values(
                |item: ItemModel| ItemModel { kind: ItemKind::Comment, ..item },
            )
        } else {
            Seq::empty()
        },
        more_stubs: 0,
        degraded: true,
        truncated: false,
        http_requests: 1,
        notice: Some(FEED_NOTICE@),
    }
}

/// The thread in a feed.
pub fn thread_of_feed(items: Vec<RedditItem>) -> (r: ThreadView)
    ensures
        r@ == feed_thread(model::items_model(items@)),
{
    let ghost all = model::items_model(items@);
    let mut post: Option<RedditItem> = None;
    let mut comments: Vec<RedditItem> = Vec::new();
    for item in it: items
        invariant
            it.seq() == items@,
            all == model::items_model(items@),
            it.index() == 0 ==> comments@.len() == 0 && post is None,
            it.index() > 0 ==> model::opt_item(post) == Some(all[0]) && comments@.len()
                == it.index() - 1,
            forall|j: int|
                0 <= j < comments@.len() ==> (#[trigger] comments@[j])@ == (ItemModel {
                    kind: ItemKind::Comment,
                    ..all[j + 1]
                }),
    {
        if post.is_none() {
            post = Some(item);
        } else {
            comments.push(RedditItem { kind: ItemKind::Comment, ..item });
        }
    }
    assert(model::items_model(comments@) =~= feed_thread(all).comments);
    ThreadView {
        post,
        comments,
        more_stubs: 0,
        degraded: true,
        truncated: false,
        http_requests: 1,
        notice: Some(FEED_NOTICE.to_owned()),
    }
}

/// The outcome of reading a thread from a feed.
pub open spec fn thread_in_feed(body: Seq<char>) -> Result<ThreadModel, ErrorModel> {
    match atom::feed_items(FeedModel::start(), atom::met_in(body)) {
        Ok(items) => Ok(feed_thread(items)),
        Err(e) => Err(e),
    }
}

// ---------------------------------------------------------------------------
// Fetching
// ---------------------------------------------------------------------------

/// How far the fetching of a thread is.
enum Stage {
    /// The first page is asked for.
    First { fallback: Option<Request>, expand: Option<Expansion>, counted: bool },
    /// The feed is asked for.
    Feed,
    /// Hidden comments are asked for.
    Hidden(ThreadResolver),
}

/// How hidden comments are to be expanded.
#[derive(Clone, Copy)]
pub struct Expansion {
    pub sort: ThreadSort,
    pub depth: Option<u32>,
    pub max_requests: u32,
}

/// What a stage holds.
pub enum StageModel {
    First { fallback: Option<RequestModel>, expand: Option<Expansion>, counted: bool },
    Feed,
    Hidden(ResolverModel),
}

impl View for Stage {
    type V = StageModel;

    closed spec fn view(&self) -> StageModel {
        match *self {
            Stage::First { fallback, expand, counted } => StageModel::First {
                fallback: listing::opt_request(fallback),
                expand,
                counted,
            },
            Stage::Feed => StageModel::Feed,
            Stage::Hidden(resolver) => StageModel::Hidden(resolver@),
        }
    }
}

/// A thread that is being fetched.
pub struct ThreadFetch {
    request: Request,
    stage: Stage,
}

/// What a [`ThreadFetch`] holds.
pub struct ThreadFetchModel {
    pub request: RequestModel,
    pub stage: StageModel,
}

impl View for ThreadFetch {
    type V = ThreadFetchModel;

    closed spec fn view(&self) -> ThreadFetchModel {
        ThreadFetchModel { request: self.request@, stage: self.stage@ }
    }
}

/// What follows an answer.
pub enum ThreadStep {
    Fetch(ThreadFetch),
    Done(Result<ThreadView, RdtError>),
}

/// What a [`ThreadStep`] holds.
pub enum ThreadStepModel {
    Fetch(ThreadFetchModel),
    Done(Result<ThreadModel, ErrorModel>),
}

impl View for ThreadStep {
    type V = ThreadStepModel;

    open spec fn view(&self) -> ThreadStepModel {
        match *self {
            ThreadStep::Fetch(fetch) => ThreadStepModel::Fetch(fetch@),
            ThreadStep::Done(r) => ThreadStepModel::Done(error::outcome(r)),
        }
    }
}

/// What follows for a thread whose hidden comments are being fetched.
pub open spec fn step_of(next: NextModel) -> ThreadStepModel {
    match next {
        NextModel::Ask { request, resolver } => ThreadStepModel::Fetch(
            ThreadFetchModel { request, stage: StageModel::Hidden(resolver) },
        ),
        NextModel::Show(view) => ThreadStepModel::Done(Ok(view)),
        NextModel::Fail(e) => ThreadStepModel::Done(Err(e)),
    }
}

impl ThreadFetchModel {
    /// Every request that is known goes to the site and to no other host.
    pub open spec fn on_site(self) -> bool {
        self.request.on_site() && match self.stage {
            StageModel::First { fallback: Some(request), .. } => request.on_site(),
            _ => true,
        }
    }

    /// What follows an answer, or the lack of one. The feed is asked for where
    /// the site blocks the first page, and only there.
    pub open spec fn after(self, answer: Result<Seq<char>, ErrorModel>) -> ThreadStepModel {
        match self.stage {
            StageModel::First { fallback, expand, counted } => match answer {
                Ok(body) => match listing::document(body) {
                    Ok(value) => match expand {
                        Some(how) => step_of(
                            ResolverModel::begin(
                                value,
                                how.sort,
                                how.depth,
                                how.max_requests,
                            ).seek(),
                        ),
                        None => ThreadStepModel::Done(
                            Ok(
                                ThreadModel {
                                    http_requests: if counted {
                                        1
                                    } else {
                                        0
                                    },
                                    ..parse::thread_model(value, None)
                                },
                            ),
                        ),
                    },
                    Err(e) => ThreadStepModel::Done(Err(e)),
                },
                Err(e) => match fallback {
                    Some(request) if e is EdgeBlocked => ThreadStepModel::Fetch(
                        ThreadFetchModel { request, stage: StageModel::Feed },
                    ),
                    _ => ThreadStepModel::Done(Err(e)),
                },
            },
            StageModel::Feed => ThreadStepModel::Done(
                match answer {
                    Ok(body) => thread_in_feed(body),
                    Err(e) => Err(e),
                },
            ),
            StageModel::Hidden(resolver) => match answer {
                Ok(body) => match listing::document(body) {
                    Ok(value) => step_of(resolver.after(value)),
                    Err(e) => ThreadStepModel::Done(Err(e)),
                },
                Err(e) => ThreadStepModel::Done(Err(e)),
            },
        }
    }
}

fn follow(next: Next) -> (r: ThreadStep)
    requires
        next matches Next::Ask { request, resolver } ==> request@.on_site() && resolver.wf(),
    ensures
        r@ == step_of(next@),
        r matches ThreadStep::Fetch(fetch) ==> fetch.wf() && fetch@.on_site(),
{
    match next {
        Next::Ask { request, resolver } => ThreadStep::Fetch(
            ThreadFetch { request, stage: Stage::Hidden(resolver) },
        ),
        Next::Show(view) => ThreadStep::Done(Ok(view)),
        Next::Fail(e) => ThreadStep::Done(Err(e)),
    }
}

impl ThreadFetch {
    /// What is gathered is in order.
    pub closed spec fn wf(&self) -> bool {
        match self.stage {
            Stage::Hidden(resolver) => resolver.wf(),
            _ => true,
        }
    }

    /// The request to make.
    pub fn request(&self) -> (r: &Request)
        ensures
            r@ == self@.request,
    {
        &self.request
    }

    /// Decides what follows an answer, or the lack of one.
    pub fn answered(self, answer: Result<String, RdtError>) -> (r: ThreadStep)
        requires
            self.wf(),
        ensures
            r@ == self@.after(error::outcome(answer)),
            r matches ThreadStep::Fetch(fetch) ==> fetch.wf() && (self@.on_site()
                ==> fetch@.on_site()),
    {
        let ThreadFetch { request, stage } = self;
        match stage {
            Stage::First { fallback, expand, counted } => match answer {
                Ok(body) => match json::decode_json(body.as_str()) {
                    Ok(value) => match expand {
                        Some(how) => follow(
                            ThreadResolver::begin(
                                &value,
                                how.sort,
                                how.depth,
                                how.max_requests,
                            ).seek(),
                        ),
                        None => {
                            let mut view = parse::parse_thread(&value, None);
                            if counted {
                                view.http_requests = 1;
                            }
                            ThreadStep::Done(Ok(view))
                        },
                    },
                    Err(e) => ThreadStep::Done(Err(e)),
                },
                Err(e) => {
                    if transport::is_edge_block(&e) {
                        match fallback {
                            Some(request) => {
                                return ThreadStep::Fetch(
                                    ThreadFetch { request, stage: Stage::Feed },
                                );
                            },
                            None => {},
                        }
                    }
                    ThreadStep::Done(Err(e))
                },
            },
            Stage::Feed => match answer {
                Ok(body) => match atom::parse_atom_entries(body.as_str()) {
                    Ok(items) => ThreadStep::Done(Ok(thread_of_feed(items))),
                    Err(e) => ThreadStep::Done(Err(e)),
                },
                Err(e) => ThreadStep::Done(Err(e)),
            },
            Stage::Hidden(resolver) => match answer {
                Ok(body) => match json::decode_json(body.as_str()) {
                    Ok(value) => follow(resolver.answered(&value)),
                    Err(e) => ThreadStep::Done(Err(e)),
                },
                Err(e) => ThreadStep::Done(Err(e)),
            },
        }
    }

    fn start(
        json_path: String,
        rss_path: String,
        params: Vec<(String, String)>,
        force_rss: bool,
        expand: Option<Expansion>,
        counted: bool,
    ) -> (r: ThreadFetch)
        ensures
            r.wf(),
            r@ == start_model(
                json_path@,
                rss_path@,
                web::params_model(params@),
                force_rss,
                expand,
                counted,
            ),
            address::rooted(json_path@) && address::rooted(rss_path@) ==> r@.on_site(),
    {
        proof {
            if address::rooted(json_path@) && address::rooted(rss_path@) {
                transport::law_rooted_requests_go_to_the_site(
                    RequestModel::json(json_path@, web::params_model(params@)),
                );
                transport::law_rooted_requests_go_to_the_site(
                    RequestModel::feed(rss_path@, Seq::empty()),
                );
            }
        }
        let feed = Request::feed(rss_path, transport::no_params());
        if force_rss {
            ThreadFetch { request: feed, stage: Stage::Feed }
        } else {
            ThreadFetch {
                request: Request::json(json_path, params),
                stage: Stage::First { fallback: Some(feed), expand, counted },
            }
        }
    }
}

/// The fetching of a thread, given its pages.
pub open spec fn start_model(
    json_path: Seq<char>,
    rss_path: Seq<char>,
    params: Seq<(Seq<char>, Seq<char>)>,
    force_rss: bool,
    expand: Option<Expansion>,
    counted: bool,
) -> ThreadFetchModel {
    let feed = RequestModel::feed(rss_path, Seq::empty());
    if force_rss {
        ThreadFetchModel { request: feed, stage: StageModel::Feed }
    } else {
        ThreadFetchModel {
            request: RequestModel::json(json_path, params),
            stage: StageModel::First { fallback: Some(feed), expand, counted },
        }
    }
}

/// How a command wants hidden comments expanded.
pub open spec fn expansion(command: ThreadCommand) -> Option<Expansion> {
    if command.all {
        Some(
            Expansion {
                sort: command.sort,
                depth: command.depth,
                max_requests: command.max_requests,
            },
        )
    } else {
        None
    }
}

/// The fetching of the thread that a target leads to.
pub open spec fn target_fetch(
    target: Seq<char>,
    params: Seq<(Seq<char>, Seq<char>)>,
    force_rss: bool,
    expand: Option<Expansion>,
    counted: bool,
) -> Result<ThreadFetchModel, ErrorModel> {
    match address::target_path(target, "json"@) {
        Ok(json_path) => match address::target_path(target, "rss"@) {
            Ok(rss_path) => Ok(
                start_model(json_path, rss_path, params, force_rss, expand, counted),
            ),
            Err(e) => Err(e),
        },
        Err(e) => Err(e),
    }
}

/// The fetching of a comment in its context.
pub open spec fn comment_fetch(
    url: Seq<char>,
    context: u32,
    force_rss: bool,
) -> Result<ThreadFetchModel, ErrorModel> {
    target_fetch(
        url,
        seq![("context"@, number::decimal(context as nat))],
        force_rss,
        None,
        false,
    )
}

/// A target leads to a page, and not to a bare extension as one of nothing
/// but slashes does.
pub open spec fn names_page(target: Seq<char>) -> bool {
    &&& address::target_path(target, "json"@) != Ok::<Seq<char>, ErrorModel>("."@ + "json"@)
    &&& address::target_path(target, "rss"@) != Ok::<Seq<char>, ErrorModel>("."@ + "rss"@)
}

fn fetch_target(
    target: &str,
    params: Vec<(String, String)>,
    force_rss: bool,
    expand: Option<Expansion>,
    counted: bool,
) -> (r: Result<ThreadFetch, RdtError>)
    ensures
        error::outcome(r) == target_fetch(
            target@,
            web::params_model(params@),
            force_rss,
            expand,
            counted,
        ),
        r is Ok ==> r->Ok_0.wf(),
        r is Ok && names_page(target@) ==> r->Ok_0@.on_site(),
{
    let json_path = match address::target_to_path(target, "json") {
        Ok(path) => path,
        Err(e) => {
            return Err(e);
        },
    };
    let rss_path = match address::target_to_path(target, "rss") {
        Ok(path) => path,
        Err(e) => {
            return Err(e);
        },
    };
    Ok(ThreadFetch::start(json_path, rss_path, params, force_rss, expand, counted))
}

impl RedditClient {
    /// Reads the thread that a target leads to.
    pub fn thread(&self, command: &ThreadCommand, target: &str) -> (r: Result<
        ThreadFetch,
        RdtError,
    >)
        ensures
            error::outcome(r) == target_fetch(
                target@,
                thread_params(command.sort, command.depth),
                self@.force_rss,
                expansion(*command),
                true,
            ),
            r is Ok ==> r->Ok_0.wf(),
            r is Ok && names_page(target@) ==> r->Ok_0@.on_site(),
    {
        let expand = if command.all {
            Some(
                Expansion {
                    sort: command.sort,
                    depth: command.depth,
                    max_requests: command.max_requests,
                },
            )
        } else {
            None
        };
        fetch_target(
            target,
            params_of_thread(command.sort, command.depth),
            self.forces_rss(),
            expand,
            true,
        )
    }

    /// Reads a comment in its context.
    pub fn comment(&self, url: &str, context: u32) -> (r: Result<ThreadFetch, RdtError>)
        ensures
            error::outcome(r) == comment_fetch(url@, context, self@.force_rss),
            r is Ok ==> r->Ok_0.wf(),
            r is Ok && names_page(url@) ==> r->Ok_0@.on_site(),
    {
        let mut params = transport::no_params();
        transport::add_param(&mut params, "context", number::u64_text(context as u64).as_str());
        assert(web::params_model(params@) =~= seq![
            ("context"@, number::decimal(context as nat)),
        ]);
        fetch_target(url, params, self.forces_rss(), None, false)
    }
}

// ---------------------------------------------------------------------------
// Laws
// ---------------------------------------------------------------------------

/// What a cap on requests means for what follows: a request is made only
/// below the cap, and what is shown took no more than the cap allows.
pub open spec fn within_cap(next: NextModel, max_requests: usize) -> bool {
    match next {
        NextModel::Ask { resolver, .. } => resolver.http_requests < max_requests
            && resolver.max_requests == max_requests,
        NextModel::Show(view) => view.http_requests <= max_requests,
        NextModel::Fail(_) => true,
    }
}

proof fn lemma_seek_within_cap(resolver: ResolverModel)
    requires
        resolver.http_requests <= resolver.max_requests,
    ensures
        within_cap(resolver.seek(), resolver.max_requests),
    decreases resolver.gathered.queue.len(),
{
    let queue = resolver.gathered.queue;
    if queue.len() > 0 {
        let rest = GatheredModel { queue: queue.skip(1), ..resolver.gathered };
        lemma_seek_within_cap(ResolverModel { gathered: keeping(rest, queue[0]), ..resolver });
    }
}

/// The first answer counts as a request, and no more requests are made than
/// the cap allows.
pub proof fn law_requests_stay_within_the_cap(
    value: JsonModel,
    sort: ThreadSort,
    depth: Option<u32>,
    max_requests: u32,
)
    ensures
        within_cap(
            ResolverModel::begin(value, sort, depth, max_requests).seek(),
            ResolverModel::begin(value, sort, depth, max_requests).max_requests,
        ),
{
    lemma_seek_within_cap(ResolverModel::begin(value, sort, depth, max_requests));
}

/// Every answer counts as one request, and what follows it stays within the
/// cap.
pub proof fn law_answers_stay_within_the_cap(resolver: ResolverModel, value: JsonModel)
    requires
        resolver.http_requests < resolver.max_requests,
    ensures
        within_cap(resolver.after(value), resolver.max_requests),
        resolver.after(value) matches NextModel::Ask { resolver: next, .. } ==> next.http_requests
            == resolver.http_requests + 1,
{
    let next = ResolverModel { batch: None, ..resolver.received(value) };
    lemma_seek_within_cap(next);
    lemma_seek_keeps_count(next);
}

proof fn lemma_seek_keeps_count(resolver: ResolverModel)
    ensures
        resolver.seek() matches NextModel::Ask { resolver: next, .. } ==> next.http_requests
            == resolver.http_requests,
    decreases resolver.gathered.queue.len(),
{
    let queue = resolver.gathered.queue;
    if queue.len() > 0 {
        let rest = GatheredModel { queue: queue.skip(1), ..resolver.gathered };
        lemma_seek_keeps_count(ResolverModel { gathered: keeping(rest, queue[0]), ..resolver });
    }
}

/// With a cap of one request, or none, the first answer is all that is
/// fetched, and whatever it hides is reported.
pub proof fn law_one_request_reads_the_first_page_only(
    value: JsonModel,
    sort: ThreadSort,
    depth: Option<u32>,
    max_requests: u32,
)
    requires
        max_requests <= 1,
    ensures
        ({
            let stubs = parse::thread_capture(value).more_stubs;
            &&& ResolverModel::begin(value, sort, depth, max_requests).seek() matches NextModel::Show(
                view,
            )
            &&& view.http_requests == 1
            &&& view.truncated == (stubs.len() > 0)
            &&& view.more_stubs == model::capped(resolve::hidden_total(stubs))
        }),
{
    let begin = ResolverModel::begin(value, sort, depth, max_requests);
    let stubs = parse::thread_capture(value).more_stubs;
    assert(begin.gathered.queue =~= stubs);
    assert(begin.gathered.unresolved =~= Seq::empty());
    lemma_seek_reports_hidden(begin);
}

proof fn lemma_moved_stub_counts(gathered: GatheredModel)
    requires
        gathered.queue.len() > 0,
    ensures
        resolve::hidden_total(gathered.queue.skip(1)) + resolve::hidden_total(
            gathered.unresolved.push(gathered.queue[0]),
        ) == resolve::hidden_total(gathered.queue) + resolve::hidden_total(gathered.unresolved),
{
    let stub = gathered.queue[0];
    assert(gathered.queue =~= seq![stub] + gathered.queue.skip(1));
    resolve::lemma_hidden_append(seq![stub], gathered.queue.skip(1));
    assert(seq![stub].drop_last() =~= Seq::empty());
    assert(resolve::hidden_total(seq![stub].drop_last()) == 0);
    assert(resolve::hidden_total(seq![stub]) == stub.unresolved_count());
    assert(gathered.unresolved.push(stub).drop_last() =~= gathered.unresolved);
}

/// A thread that is shown reports so many hidden comments, in a notice where
/// there are any, and is called truncated only where the requests are used up.
pub open spec fn reports_hidden(next: NextModel, hidden: nat, used_up: bool) -> bool {
    next matches NextModel::Show(view) ==> {
        &&& view.more_stubs == model::capped(hidden)
        &&& view.more_stubs > 0 ==> view.notice is Some
        &&& view.truncated ==> used_up
    }
}

proof fn lemma_seek_reports_hidden(resolver: ResolverModel)
    requires
        resolver.batch is None,
    ensures
        reports_hidden(
            resolver.seek(),
            resolver.hidden_left(),
            resolver.http_requests >= resolver.max_requests,
        ),
    decreases resolver.gathered.queue.len(),
{
    let gathered = resolver.gathered;
    if gathered.queue.len() > 0 {
        let rest = GatheredModel { queue: gathered.queue.skip(1), ..gathered };
        lemma_moved_stub_counts(gathered);
        lemma_seek_reports_hidden(
            ResolverModel { gathered: keeping(rest, gathered.queue[0]), ..resolver },
        );
    }
}

proof fn lemma_resume_reports_hidden(resolver: ResolverModel)
    ensures
        reports_hidden(
            resolver.resume(),
            resolver.hidden_left(),
            resolver.http_requests >= resolver.max_requests,
        ),
{
    lemma_seek_reports_hidden(ResolverModel { batch: None, ..resolver });
    if let Some(batch) = resolver.batch {
        let left = stub_from(batch.stub, batch.start as int);
        assert(resolver.gathered.unresolved.push(left).drop_last()
            =~= resolver.gathered.unresolved);
    }
}

/// No hidden comment is passed over in silence: a thread that is shown reports
/// as many as the stubs that are left stand for, also where the requests are
/// used up between two batches of one stub. A notice says so wherever there are
/// any.
pub proof fn law_hidden_comments_are_reported(resolver: ResolverModel, value: JsonModel)
    ensures
        resolver.batch is None ==> reports_hidden(
            resolver.seek(),
            resolver.hidden_left(),
            resolver.http_requests >= resolver.max_requests,
        ),
        reports_hidden(
            resolver.resume(),
            resolver.hidden_left(),
            resolver.http_requests >= resolver.max_requests,
        ),
        reports_hidden(
            resolver.after(value),
            resolver.received(value).hidden_left(),
            resolver.received(value).http_requests >= resolver.max_requests,
        ),
{
    if resolver.batch is None {
        lemma_seek_reports_hidden(resolver);
    }
    lemma_resume_reports_hidden(resolver);
    lemma_resume_reports_hidden(resolver.received(value));
}

/// The batches of a stub ask for every hidden comment, each once and in order.
pub proof fn law_batches_cover_the_stub(children: Seq<Seq<char>>, start: int)
    requires
        0 <= start < children.len(),
    ensures
        0 < batch_ids(children, start).len() <= BATCH,
        children.skip(start) == batch_ids(children, start) + children.skip(
            start + batch_ids(children, start).len(),
        ),
{
    let n = batch_ids(children, start).len() as int;
    assert(children.skip(start) =~= batch_ids(children, start) + children.skip(start + n));
}

/// The next stub is asked for while requests may be made: one that lists
/// comments by the first hundred of them, and one that lists none by the page of
/// the comment that it hangs under. The stub leaves the queue, and nothing else
/// of the thread changes.
pub proof fn law_the_next_stub_is_asked_for(resolver: ResolverModel)
    requires
        resolver.gathered.queue.len() > 0,
        resolver.http_requests < resolver.max_requests,
    ensures
        ({
            let stub = resolver.gathered.queue[0];
            let rest = GatheredModel {
                queue: resolver.gathered.queue.skip(1),
                ..resolver.gathered
            };
            &&& stub.children.len() > 0 && (resolver.gathered.post is Some || stub.post_id is Some)
                ==> {
                &&& resolver.seek() matches NextModel::Ask { request, resolver: next }
                &&& request.path == "/api/morechildren.json"@
                &&& !request.rss
                &&& exists|first: Seq<Seq<char>>, link_id: Seq<char>|
                    #![trigger text::join(first, ","@), "t3_"@ + link_id]
                    {
                        &&& first.is_prefix_of(stub.children)
                        &&& first.len() == 100 || (first.len() < 100 && first == stub.children)
                        &&& resolver.gathered.post matches Some(post) ==> link_id == post.fullname
                        &&& resolver.gathered.post is None ==> link_id == "t3_"@
                            + stub.post_id->0
                        &&& request.params == seq![
                            ("api_type"@, "json"@),
                            ("link_id"@, link_id),
                            ("children"@, text::join(first, ","@)),
                            ("sort"@, resolver.sort.word()),
                            ("raw_json"@, "1"@),
                        ]
                        &&& next.batch == Some(BatchModel { stub, start: 0, link_id })
                    }
                &&& next == (ResolverModel { gathered: rest, batch: next.batch, ..resolver })
            }
            &&& stub.children.len() > 0 && resolver.gathered.post is None && stub.post_id is None
                ==> resolver.seek() is Fail
            &&& forall|id: Seq<char>| #![trigger "t1_"@ + id]
                stub.children.len() == 0 && stub.parent_id == Some("t1_"@ + id) ==> {
                    match resolver.gathered.post {
                        Some(post) => match post.permalink {
                            Some(link) => match address::target_path(link, "json"@) {
                                Ok(page) => {
                                    &&& resolver.seek() matches NextModel::Ask {
                                        request,
                                        resolver: next,
                                    }
                                    &&& request.path == address::subtree_path(page, id)
                                    &&& !request.rss
                                    &&& request.params == thread_params(
                                        resolver.sort,
                                        resolver.depth,
                                    ).push(("raw_json"@, "1"@))
                                    &&& next == (ResolverModel {
                                        gathered: rest,
                                        batch: None,
                                        ..resolver
                                    })
                                },
                                Err(_) => resolver.seek() is Fail,
                            },
                            None => resolver.seek() is Fail,
                        },
                        None => resolver.seek() is Fail,
                    }
                }
            &&& stub.children.len() == 0 && (forall|id: Seq<char>|
                stub.parent_id != Some(#[trigger] ("t1_"@ + id))) ==> resolver.seek() == (
            ResolverModel {
                gathered: GatheredModel {
                    unresolved: rest.unresolved.push(stub),
                    ..rest
                },
                ..resolver
            }).seek()
        }),
{
    let stub = resolver.gathered.queue[0];
    if stub.children.len() > 0 {
        if let NextModel::Ask { request, resolver: next } = resolver.seek() {
            let first = batch_ids(stub.children, 0);
            let link_id = link_id_for(resolver.gathered, stub)->0;
            assert(first.is_prefix_of(stub.children)) by {
                assert(stub.children.subrange(0, first.len() as int) =~= first);
            }
            if first.len() < 100 {
                assert(first =~= stub.children);
            }
            assert(request.params =~= seq![
                ("api_type"@, "json"@),
                ("link_id"@, link_id),
                ("children"@, text::join(first, ","@)),
                ("sort"@, resolver.sort.word()),
                ("raw_json"@, "1"@),
            ]);
            let named = "t3_"@ + link_id;
        }
    } else {
        assert forall|id: Seq<char>| #![trigger "t1_"@ + id]
            stub.parent_id == Some("t1_"@ + id) implies stub.continue_parent_short_id() == Some(
            id,
        ) by {
            assert(("t1_"@ + id).skip("t1_"@.len() as int) =~= id);
            assert("t1_"@.is_prefix_of("t1_"@ + id)) by {
                assert(("t1_"@ + id).subrange(0, "t1_"@.len() as int) =~= "t1_"@);
            }
        }
        if let Some(id) = stub.continue_parent_short_id() {
            assert(stub.parent_id->0 =~= "t1_"@ + id);
        }
    }
}

/// A stub that lists more comments than one request takes is asked for in the
/// next hundred, from where the last request ended, until it is at its end or no
/// more requests may be made. What is left of it is then kept.
pub proof fn law_a_stub_is_asked_for_to_its_end(resolver: ResolverModel, batch: BatchModel)
    requires
        resolver.batch == Some(batch),
        batch.start < batch.stub.children.len(),
        batch.stub.children.len() <= usize::MAX,
    ensures
        resolver.http_requests < resolver.max_requests ==> {
            &&& resolver.resume() matches NextModel::Ask { request, resolver: next }
            &&& next == resolver
            &&& request.path == "/api/morechildren.json"@
            &&& !request.rss
            &&& exists|some: Seq<Seq<char>>| #![trigger text::join(some, ","@)]
                {
                    &&& some.is_prefix_of(batch.stub.children.skip(batch.start as int))
                    &&& some.len() == 100 || (some.len() < 100 && some
                        == batch.stub.children.skip(batch.start as int))
                    &&& request.params == seq![
                        ("api_type"@, "json"@),
                        ("link_id"@, batch.link_id),
                        ("children"@, text::join(some, ","@)),
                        ("sort"@, resolver.sort.word()),
                        ("raw_json"@, "1"@),
                    ]
                }
        },
        resolver.http_requests >= resolver.max_requests ==> {
            &&& resolver.resume() matches NextModel::Show(view)
            &&& view.truncated
            &&& view.http_requests == resolver.http_requests
            &&& view.post == resolver.gathered.post
            &&& view.comments == resolver.gathered.ordered_comments()
            &&& view.more_stubs == model::capped(
                resolve::hidden_total(resolver.gathered.queue) + resolve::hidden_total(
                    resolver.gathered.unresolved,
                ) + (batch.stub.children.len() - batch.start) as nat,
            )
        },
{
    let children = batch.stub.children;
    let left = stub_from(batch.stub, batch.start as int);
    assert(resolver.gathered.unresolved.push(left).drop_last() =~= resolver.gathered.unresolved);
    let some = batch_ids(children, batch.start as int);
    let rest = children.skip(batch.start as int);
    assert(some.is_prefix_of(rest)) by {
        assert(rest.subrange(0, some.len() as int) =~= some);
    }
    if some.len() < 100 {
        assert(some =~= rest);
    }
    if let NextModel::Ask { request, .. } = resolver.resume() {
        assert(request.params =~= seq![
            ("api_type"@, "json"@),
            ("link_id"@, batch.link_id),
            ("children"@, text::join(some, ","@)),
            ("sort"@, resolver.sort.word()),
            ("raw_json"@, "1"@),
        ]);
    }
}

/// An answer adds what it tells to the thread, counts as one request, and brings
/// the stub that was asked for further by a hundred comments, or to its end.
pub proof fn law_answers_are_taken_in(resolver: ResolverModel, value: JsonModel)
    requires
        resolver.http_requests < usize::MAX,
    ensures
        ({
            let next = resolver.received(value);
            &&& next.http_requests == resolver.http_requests + 1
            &&& next.max_requests == resolver.max_requests
            &&& next.sort == resolver.sort
            &&& next.depth == resolver.depth
            &&& resolver.batch is None ==> next.batch is None && next.gathered
                == resolver.gathered.with(parse::thread_capture(value))
            &&& resolver.batch matches Some(batch) ==> {
                &&& next.batch matches Some(now)
                &&& now.stub == batch.stub
                &&& now.link_id == batch.link_id
                &&& batch.start <= batch.stub.children.len() ==> (now.start == batch.start + 100
                    && now.start <= batch.stub.children.len()) || (now.start
                    == batch.stub.children.len() && now.start < batch.start + 100)
                &&& resolver.gathered.post matches Some(post) ==> next.gathered
                    == resolver.gathered.with(parse::more_capture(value, Some(post.id)))
                &&& resolver.gathered.post is None ==> next.gathered == resolver.gathered.with(
                    parse::more_capture(value, None),
                )
            }
        }),
{
}

proof fn lemma_seek_shows_all(resolver: ResolverModel)
    ensures
        resolver.seek() matches NextModel::Show(view) ==> {
            &&& view.post == resolver.gathered.post
            &&& view.comments == resolver.gathered.ordered_comments()
            &&& view.http_requests == resolver.http_requests
            &&& !view.degraded
            &&& resolver.http_requests >= resolver.max_requests ==> (view.truncated
                <==> resolver.gathered.queue.len() > 0)
        },
    decreases resolver.gathered.queue.len(),
{
    let queue = resolver.gathered.queue;
    if queue.len() > 0 {
        let rest = GatheredModel { queue: queue.skip(1), ..resolver.gathered };
        lemma_seek_shows_all(ResolverModel { gathered: keeping(rest, queue[0]), ..resolver });
    }
}

/// A thread that is shown has the post and all comments that were gathered, and
/// is truncated exactly where the requests are used up and a stub is left.
pub proof fn law_all_that_was_gathered_is_shown(resolver: ResolverModel)
    ensures
        resolver.seek() matches NextModel::Show(view) ==> {
            &&& view.post == resolver.gathered.post
            &&& view.comments == resolver.gathered.ordered_comments()
            &&& view.http_requests == resolver.http_requests
            &&& !view.degraded
            &&& view.truncated <==> resolver.http_requests >= resolver.max_requests
                && resolver.gathered.queue.len() > 0
        },
        resolver.gathered.queue.len() == 0 ==> resolver.seek() is Show,
        resolver.http_requests >= resolver.max_requests ==> resolver.seek() is Show,
{
    lemma_seek_shows_all(resolver);
    lemma_truncated_by_requests(resolver);
}

proof fn lemma_truncated_by_requests(resolver: ResolverModel)
    ensures
        resolver.seek() matches NextModel::Show(view) ==> (view.truncated
            ==> resolver.http_requests >= resolver.max_requests),
    decreases resolver.gathered.queue.len(),
{
    let queue = resolver.gathered.queue;
    if queue.len() > 0 {
        let rest = GatheredModel { queue: queue.skip(1), ..resolver.gathered };
        lemma_truncated_by_requests(
            ResolverModel { gathered: keeping(rest, queue[0]), ..resolver },
        );
    }
}

/// A thread that is read from a feed has the first entry as its post and every
/// other one as a comment, changed in nothing but its kind. It says that it is
/// degraded.
pub proof fn law_feeds_become_flat_threads(items: Seq<ItemModel>)
    ensures
        ({
            let view = feed_thread(items);
            &&& view.degraded
            &&& !view.truncated
            &&& view.more_stubs == 0
            &&& view.http_requests == 1
            &&& view.notice is Some
            &&& items.len() == 0 ==> view.post is None && view.comments.len() == 0
            &&& items.len() > 0 ==> {
                &&& view.post == Some(items[0])
                &&& view.comments.len() + 1 == items.len()
                &&& forall|k: int| #![trigger view.comments[k]]
                    0 <= k < view.comments.len() ==> {
                        &&& view.comments[k].kind == ItemKind::Comment
                        &&& (ItemModel { kind: items[k + 1].kind, ..view.comments[k] })
                            == items[k + 1]
                    }
            }
        }),
{
}

/// The feed of a thread is asked for exactly where the site blocks the first
/// page and there is a feed to ask for. Any other failure ends the fetching with
/// that failure, and so does any failure later on.
pub proof fn law_only_a_block_leads_to_the_feed(fetch: ThreadFetchModel, e: ErrorModel)
    ensures
        fetch.stage matches StageModel::First { fallback: Some(feed), .. } ==> (e is EdgeBlocked
            ==> fetch.after(Err(e)) == ThreadStepModel::Fetch(
            ThreadFetchModel { request: feed, stage: StageModel::Feed },
        )),
        !(e is EdgeBlocked) ==> fetch.after(Err(e)) == ThreadStepModel::Done(
            Err::<ThreadModel, ErrorModel>(e),
        ),
        fetch.stage matches StageModel::First { fallback: None, .. } ==> fetch.after(Err(e))
            == ThreadStepModel::Done(Err::<ThreadModel, ErrorModel>(e)),
        !(fetch.stage is First) ==> fetch.after(Err(e)) == ThreadStepModel::Done(
            Err::<ThreadModel, ErrorModel>(e),
        ),
{
}

/// A first page that came is shown as it is, unless hidden comments are wanted.
/// They are then asked for with as many requests as are allowed, at least one,
/// of which the first page was one.
pub proof fn law_first_pages_are_shown_or_expanded(
    fetch: ThreadFetchModel,
    body: Seq<char>,
    value: JsonModel,
    fallback: Option<RequestModel>,
    expand: Option<Expansion>,
    counted: bool,
)
    requires
        fetch.stage == (StageModel::First { fallback, expand, counted }),
        listing::document(body) == Ok::<JsonModel, ErrorModel>(value),
    ensures
        expand is None ==> {
            &&& fetch.after(Ok(body)) matches ThreadStepModel::Done(Ok(view))
            &&& view.http_requests == if counted {
                1usize
            } else {
                0usize
            }
            &&& (ThreadModel { http_requests: 0, ..view }) == parse::thread_model(value, None)
        },
        expand matches Some(how) ==> exists|first: ResolverModel| #![trigger first.seek()]
            {
                &&& fetch.after(Ok(body)) == step_of(first.seek())
                &&& first.http_requests == 1
                &&& first.max_requests == how.max_requests || (how.max_requests == 0
                    && first.max_requests == 1)
                &&& first.sort == how.sort
                &&& first.depth == how.depth
                &&& first.batch is None
                &&& first.gathered == GatheredModel::started(parse::thread_capture(value))
            },
{
    if let Some(how) = expand {
        let first = ResolverModel::begin(value, how.sort, how.depth, how.max_requests);
        assert(fetch.after(Ok(body)) == step_of(first.seek()));
    }
}

/// The fetching of a thread begins with its page as JSON, sorted as asked and
/// with up to five hundred comments, and has the feed to fall back on. Where
/// feeds are forced it begins with the feed.
pub proof fn law_threads_are_asked_for_as_told(
    target: Seq<char>,
    sort: ThreadSort,
    depth: Option<u32>,
    force_rss: bool,
    expand: Option<Expansion>,
    counted: bool,
    json_path: Seq<char>,
    rss_path: Seq<char>,
)
    requires
        address::target_path(target, "json"@) == Ok::<Seq<char>, ErrorModel>(json_path),
        address::target_path(target, "rss"@) == Ok::<Seq<char>, ErrorModel>(rss_path),
    ensures
        ({
            let r = target_fetch(
                target,
                thread_params(sort, depth),
                force_rss,
                expand,
                counted,
            );
            let feed = RequestModel { path: rss_path, params: Seq::empty(), rss: true };
            &&& r matches Ok(fetch)
            &&& force_rss ==> fetch.request == feed && fetch.stage == StageModel::Feed
            &&& !force_rss ==> {
                &&& fetch.request.path == json_path
                &&& !fetch.request.rss
                &&& fetch.stage == (StageModel::First { fallback: Some(feed), expand, counted })
                &&& depth is None ==> fetch.request.params == seq![
                    ("sort"@, sort.word()),
                    ("limit"@, "500"@),
                    ("raw_json"@, "1"@),
                ]
                &&& depth matches Some(n) ==> fetch.request.params == seq![
                    ("sort"@, sort.word()),
                    ("limit"@, "500"@),
                    ("depth"@, number::decimal(n as nat)),
                    ("raw_json"@, "1"@),
                ]
            }
        }),
{
    let params = thread_params(sort, depth).push(("raw_json"@, "1"@));
    match depth {
        None => {
            assert(params =~= seq![
                ("sort"@, sort.word()),
                ("limit"@, "500"@),
                ("raw_json"@, "1"@),
            ]);
        },
        Some(n) => {
            assert(params =~= seq![
                ("sort"@, sort.word()),
                ("limit"@, "500"@),
                ("depth"@, number::decimal(n as nat)),
                ("raw_json"@, "1"@),
            ]);
        },
    }
}

/// Hidden comments are expanded exactly where a command wants everything, as the
/// command says.
pub proof fn law_everything_is_expanded_only_if_asked(command: ThreadCommand)
    ensures
        expansion(command) is Some <==> command.all,
        expansion(command) matches Some(how) ==> how.sort == command.sort && how.depth
            == command.depth && how.max_requests == command.max_requests,
{
}

/// A comment is asked for with as much context as is wanted. Its hidden comments
/// are not expanded, and the request is not counted.
pub proof fn law_comments_are_asked_for_in_context(
    url: Seq<char>,
    context: u32,
    force_rss: bool,
    json_path: Seq<char>,
    rss_path: Seq<char>,
)
    requires
        address::target_path(url, "json"@) == Ok::<Seq<char>, ErrorModel>(json_path),
        address::target_path(url, "rss"@) == Ok::<Seq<char>, ErrorModel>(rss_path),
    ensures
        ({
            let feed = RequestModel { path: rss_path, params: Seq::empty(), rss: true };
            &&& comment_fetch(url, context, force_rss) matches Ok(fetch)
            &&& force_rss ==> fetch.request == feed && fetch.stage == StageModel::Feed
            &&& !force_rss ==> {
                &&& fetch.request.path == json_path
                &&& !fetch.request.rss
                &&& fetch.request.params == seq![
                    ("context"@, number::decimal(context as nat)),
                    ("raw_json"@, "1"@),
                ]
                &&& fetch.stage == (StageModel::First {
                    fallback: Some(feed),
                    expand: None,
                    counted: false,
                })
            }
        }),
{
    assert(seq![("context"@, number::decimal(context as nat))].push(("raw_json"@, "1"@)) =~= seq![
        ("context"@, number::decimal(context as nat)),
        ("raw_json"@, "1"@),
    ]);
}

/// An answer about hidden comments is taken in, and what follows is asked, shown
/// or failed as it stands. A feed that can be read is shown as a flat thread.
pub proof fn law_fetching_goes_on_to_the_end(
    fetch: ThreadFetchModel,
    resolver: ResolverModel,
    body: Seq<char>,
    value: JsonModel,
    items: Seq<ItemModel>,
    e: ErrorModel,
)
    ensures
        fetch.stage == StageModel::Hidden(resolver) && listing::document(body) == Ok::<
            JsonModel,
            ErrorModel,
        >(value) ==> match resolver.received(value).resume() {
            NextModel::Ask { request, resolver: next } => fetch.after(Ok(body))
                == ThreadStepModel::Fetch(
                ThreadFetchModel { request, stage: StageModel::Hidden(next) },
            ),
            NextModel::Show(view) => fetch.after(Ok(body)) == ThreadStepModel::Done(
                Ok::<ThreadModel, ErrorModel>(view),
            ),
            NextModel::Fail(failure) => fetch.after(Ok(body)) == ThreadStepModel::Done(
                Err::<ThreadModel, ErrorModel>(failure),
            ),
        },
        !(fetch.stage is Feed) && listing::document(body) == Err::<JsonModel, ErrorModel>(e)
            ==> fetch.after(Ok(body)) == ThreadStepModel::Done(Err::<ThreadModel, ErrorModel>(e)),
        fetch.stage is Feed && atom::feed_items(FeedModel::start(), atom::met_in(body)) == Ok::<
            Seq<ItemModel>,
            ErrorModel,
        >(items) ==> fetch.after(Ok(body)) == ThreadStepModel::Done(
            Ok::<ThreadModel, ErrorModel>(feed_thread(items)),
        ),
        fetch.stage is Feed && atom::feed_items(FeedModel::start(), atom::met_in(body)) == Err::<
            Seq<ItemModel>,
            ErrorModel,
        >(e) ==> fetch.after(Ok(body)) == ThreadStepModel::Done(
            Err::<ThreadModel, ErrorModel>(e),
        ),
        resolver.batch matches Some(batch) ==> batch.start >= batch.stub.children.len()
            ==> resolver.resume() == (ResolverModel { batch: None, ..resolver }).seek(),
        resolver.batch is None ==> resolver.resume() == resolver.seek(),
{
}

} // verus!
