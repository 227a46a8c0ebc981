//! Listings: the requests of the commands that list things, and the items in
//! the answers.
use vstd::prelude::*;

use crate::address;
use crate::atom;
use crate::atom::FeedModel;
use crate::cli::{BrowseCommand, SearchCommand, UserCommand};
use crate::error;
use crate::error::{ErrorModel, RdtError};
use crate::json;
use crate::json::{Json, JsonModel};
use crate::model;
use crate::model::{ItemModel, ListingPage, PageModel, RedditItem};
use crate::number;
use crate::parse;
use crate::text;
use crate::transport;
use crate::transport::{RedditClient, Request, RequestModel};
use crate::web;

verus! {

// ---------------------------------------------------------------------------
// Answers
// ---------------------------------------------------------------------------

/// The document in an answer.
pub open spec fn document(body: Seq<char>) -> Result<JsonModel, ErrorModel> {
    json::document(json::decoded(body))
}

/// The items of a listing in an answer, which is JSON or a feed.
pub open spec fn items_in(rss: bool, body: Seq<char>) -> Result<Seq<ItemModel>, ErrorModel> {
    if rss {
        match atom::feed_items(FeedModel::start(), atom::met_in(body)) {
            Ok(items) => Ok(model::numbered(items)),
            Err(e) => Err(e),
        }
    } else {
        match document(body) {
            Ok(value) => Ok(parse::listing_items(value)),
            Err(e) => Err(e),
        }
    }
}

/// Reads the items of a listing.
pub fn read_items(rss: bool, body: &str) -> (r: Result<Vec<RedditItem>, RdtError>)
    ensures
        atom::items_outcome(r) == items_in(rss, body@),
{
    if rss {
        match atom::parse_atom_entries(body) {
            Ok(items) => Ok(model::number_items(items)),
            Err(e) => Err(e),
        }
    } else {
        match json::decode_json(body) {
            Ok(value) => Ok(parse::parse_listing(&value)),
            Err(e) => Err(e),
        }
    }
}

/// Reads a page of a listing, with its cursors.
pub fn read_page(body: &str) -> (r: Result<ListingPage, RdtError>)
    ensures
        error::outcome(r) == match document(body@) {
            Ok(value) => Ok::<PageModel, ErrorModel>(parse::listing_page(value)),
            Err(e) => Err(e),
        },
{
    match json::decode_json(body) {
        Ok(value) => Ok(parse::parse_listing_page(&value)),
        Err(e) => Err(e),
    }
}

// ---------------------------------------------------------------------------
// Fetching
// ---------------------------------------------------------------------------

/// A listing that is being fetched: the request to make, the one to make in
/// its place where the site blocks it, and what is being done, where a failure
/// tells that.
#[derive(Debug)]
pub struct ListingFetch {
    pub request: Request,
    pub fallback: Option<Request>,
    pub purpose: Option<String>,
}

/// What a [`ListingFetch`] holds.
pub struct FetchModel {
    pub request: RequestModel,
    pub fallback: Option<RequestModel>,
    pub purpose: Option<Seq<char>>,
}

/// What an optional request holds.
pub open spec fn opt_request(request: Option<Request>) -> Option<RequestModel> {
    match request {
        Some(r) => Some(r@),
        None => None,
    }
}

impl View for ListingFetch {
    type V = FetchModel;

    open spec fn view(&self) -> FetchModel {
        FetchModel {
            request: self.request@,
            fallback: opt_request(self.fallback),
            purpose: text::opt(self.purpose),
        }
    }
}

/// The failure of a listing: what was being done, where that is told, and the
/// cause.
#[derive(Debug)]
pub struct ListingFailure {
    pub purpose: Option<String>,
    pub cause: RdtError,
}

/// What a [`ListingFailure`] holds.
pub struct FailureModel {
    pub purpose: Option<Seq<char>>,
    pub cause: ErrorModel,
}

impl View for ListingFailure {
    type V = FailureModel;

    open spec fn view(&self) -> FailureModel {
        FailureModel { purpose: text::opt(self.purpose), cause: self.cause@ }
    }
}

impl FailureModel {
    /// The words in which the failure is reported: what was being done, else
    /// the cause.
    pub open spec fn message(self) -> Seq<char> {
        match self.purpose {
            Some(words) => words,
            None => self.cause.message(),
        }
    }
}

impl ListingFailure {
    /// The failure in words.
    pub fn message(&self) -> (r: String)
        ensures
            r@ == self@.message(),
    {
        match &self.purpose {
            Some(words) => words.clone(),
            None => self.cause.message(),
        }
    }
}

/// What follows an answer.
#[derive(Debug)]
pub enum ListingStep {
    Fetch(ListingFetch),
    Done(Result<Vec<RedditItem>, ListingFailure>),
}

/// What a [`ListingStep`] holds.
pub enum StepModel {
    Fetch(FetchModel),
    Done(Result<Seq<ItemModel>, FailureModel>),
}

impl View for ListingStep {
    type V = StepModel;

    open spec fn view(&self) -> StepModel {
        match *self {
            ListingStep::Fetch(fetch) => StepModel::Fetch(fetch@),
            ListingStep::Done(Ok(items)) => StepModel::Done(Ok(model::items_model(items@))),
            ListingStep::Done(Err(failure)) => StepModel::Done(Err(failure@)),
        }
    }
}

impl FetchModel {
    /// A listing that can be had as a feed too, which is asked for where it is
    /// forced or where the site blocks JSON.
    pub open spec fn with_feed(
        force_rss: bool,
        json_path: Seq<char>,
        rss_path: Seq<char>,
        params: Seq<(Seq<char>, Seq<char>)>,
    ) -> FetchModel {
        if force_rss {
            FetchModel {
                request: RequestModel::feed(rss_path, params),
                fallback: None,
                purpose: None,
            }
        } else {
            FetchModel {
                request: RequestModel::json(json_path, params),
                fallback: Some(RequestModel::feed(rss_path, params)),
                purpose: None,
            }
        }
    }

    /// A listing that is JSON only.
    pub open spec fn only_json(
        path: Seq<char>,
        params: Seq<(Seq<char>, Seq<char>)>,
    ) -> FetchModel {
        FetchModel { request: RequestModel::json(path, params), fallback: None, purpose: None }
    }

    /// Every request goes to the site and to no other host.
    pub open spec fn on_site(self) -> bool {
        self.request.on_site() && match self.fallback {
            Some(request) => request.on_site(),
            None => true,
        }
    }

    /// What follows an answer, or the lack of one: the items, the other
    /// request where the site blocks this one, or the failure.
    pub open spec fn after(self, answer: Result<Seq<char>, ErrorModel>) -> StepModel {
        match answer {
            Ok(body) => StepModel::Done(
                match items_in(self.request.rss, body) {
                    Ok(items) => Ok(items),
                    Err(cause) => Err(FailureModel { purpose: self.purpose, cause }),
                },
            ),
            Err(e) => match self.fallback {
                Some(request) if e is EdgeBlocked => StepModel::Fetch(
                    FetchModel { request, fallback: None, purpose: self.purpose },
                ),
                _ => StepModel::Done(Err(FailureModel { purpose: self.purpose, cause: e })),
            },
        }
    }
}

impl ListingFetch {
    /// Decides what follows an answer, or the lack of one.
    pub fn answered(self, answer: Result<String, RdtError>) -> (r: ListingStep)
        ensures
            r@ == self@.after(error::outcome(answer)),
    {
        let ListingFetch { request, fallback, purpose } = self;
        match answer {
            Ok(body) => match read_items(request.rss, body.as_str()) {
                Ok(items) => ListingStep::Done(Ok(items)),
                Err(cause) => ListingStep::Done(Err(ListingFailure { purpose, cause })),
            },
            Err(e) => {
                if transport::is_edge_block(&e) {
                    match fallback {
                        Some(request) => {
                            return ListingStep::Fetch(
                                ListingFetch { request, fallback: None, purpose },
                            );
                        },
                        None => {},
                    }
                }
                ListingStep::Done(Err(ListingFailure { purpose, cause: e }))
            },
        }
    }

    fn with_feed(
        force_rss: bool,
        json_path: String,
        rss_path: String,
        params: Vec<(String, String)>,
    ) -> (r: ListingFetch)
        ensures
            r@ == FetchModel::with_feed(
                force_rss,
                json_path@,
                rss_path@,
                web::params_model(params@),
            ),
            address::rooted(json_path@) && address::rooted(rss_path@) ==> r@.on_site(),
    {
        proof {
            if address::rooted(json_path@) && address::rooted(rss_path@) {
                let p = web::params_model(params@);
                transport::law_rooted_requests_go_to_the_site(RequestModel::json(json_path@, p));
                transport::law_rooted_requests_go_to_the_site(RequestModel::feed(rss_path@, p));
            }
        }
        if force_rss {
            ListingFetch { request: Request::feed(rss_path, params), fallback: None, purpose: None }
        } else {
            let again = transport::copy_params(&params);
            ListingFetch {
                request: Request::json(json_path, params),
                fallback: Some(Request::feed(rss_path, again)),
                purpose: None,
            }
        }
    }

    fn only_json(path: String, params: Vec<(String, String)>) -> (r: ListingFetch)
        ensures
            r@ == FetchModel::only_json(path@, web::params_model(params@)),
            address::rooted(path@) ==> r@.on_site(),
    {
        proof {
            if address::rooted(path@) {
                transport::law_rooted_requests_go_to_the_site(
                    RequestModel::json(path@, web::params_model(params@)),
                );
            }
        }
        ListingFetch { request: Request::json(path, params), fallback: None, purpose: None }
    }
}

/// A listing is fetched with at most two requests: what follows the second
/// answer is the outcome.
pub proof fn law_listing_takes_at_most_two_requests(
    fetch: FetchModel,
    first: Result<Seq<char>, ErrorModel>,
    second: Result<Seq<char>, ErrorModel>,
)
    ensures
        match fetch.after(first) {
            StepModel::Fetch(next) => first is Err && first->Err_0 is EdgeBlocked && next.after(
                second,
            ) is Done,
            StepModel::Done(_) => true,
        },
{
}

// ---------------------------------------------------------------------------
// Commands
// ---------------------------------------------------------------------------

/// The subreddits that texts name; the first that names none is refused.
pub open spec fn named_subreddits(inputs: Seq<Seq<char>>) -> Result<Seq<Seq<char>>, ErrorModel>
    decreases inputs.len(),
{
    if inputs.len() == 0 {
        Ok(Seq::empty())
    } else {
        match named_subreddits(inputs.drop_last()) {
            Ok(names) => match address::named_subreddit(inputs.last()) {
                Ok(name) => Ok(names.push(name)),
                Err(e) => Err(e),
            },
            Err(e) => Err(e),
        }
    }
}

proof fn lemma_refused_early(inputs: Seq<Seq<char>>, k: int)
    requires
        0 <= k <= inputs.len(),
        named_subreddits(inputs.take(k)) is Err,
    ensures
        named_subreddits(inputs) == named_subreddits(inputs.take(k)),
    decreases inputs.len(),
{
    if k == inputs.len() {
        assert(inputs.take(k) =~= inputs);
    } else {
        assert(inputs.drop_last().take(k) =~= inputs.take(k));
        lemma_refused_early(inputs.drop_last(), k);
    }
}

fn subreddit_names(inputs: &[String]) -> (r: Result<Vec<String>, RdtError>)
    ensures
        match r {
            Ok(names) => named_subreddits(text::texts(inputs@)) == Ok::<
                Seq<Seq<char>>,
                ErrorModel,
            >(text::texts(names@)),
            Err(e) => named_subreddits(text::texts(inputs@)) == Err::<
                Seq<Seq<char>>,
                ErrorModel,
            >(e@),
        },
{
    let ghost all = text::texts(inputs@);
    let mut out: Vec<String> = Vec::new();
    let mut i: usize = 0;
    assert(all.take(0) =~= Seq::empty());
    assert(text::texts(out@) =~= Seq::empty());
    while i < inputs.len()
        invariant
            i <= inputs@.len(),
            all == text::texts(inputs@),
            named_subreddits(all.take(i as int)) == Ok::<Seq<Seq<char>>, ErrorModel>(
                text::texts(out@),
            ),
        decreases inputs@.len() - i,
    {
        let ghost t = all.take(i + 1);
        let ghost had = text::texts(out@);
        proof {
            assert(t.drop_last() =~= all.take(i as int));
            assert(t.last() == inputs@[i as int]@);
        }
        match address::subreddit_segment(inputs[i].as_str()) {
            Ok(name) => {
                let ghost one = name@;
                out.push(name);
                assert(text::texts(out@) =~= had.push(one));
            },
            Err(e) => {
                proof {
                    lemma_refused_early(all, i + 1);
                }
                return Err(e);
            },
        }
        i = i + 1;
    }
    assert(all.take(all.len() as int) =~= all);
    Ok(out)
}

/// The page of a search, on the whole site or in subreddits.
pub open spec fn search_page(sub: Seq<char>, ext: Seq<char>) -> Seq<char> {
    if sub.len() == 0 {
        "/search."@ + ext
    } else {
        "/r/"@ + sub + "/search."@ + ext
    }
}

fn page_of_search(sub: &str, ext: &str) -> (r: String)
    ensures
        r@ == search_page(sub@, ext@),
        address::rooted(r@),
{
    proof {
        reveal_strlit("/search.");
        reveal_strlit("/r/");
    }
    if text::chars_of(sub).len() == 0 {
        let mut out = "/search.".to_owned();
        out.push_str(ext);
        out
    } else {
        let mut out = "/r/".to_owned();
        out.push_str(sub);
        out.push_str("/search.");
        out.push_str(ext);
        out
    }
}

/// A page of a subreddit or user: what, whose and which.
pub open spec fn page_under(
    what: Seq<char>,
    name: Seq<char>,
    page: Seq<char>,
    ext: Seq<char>,
) -> Seq<char> {
    what + name + "/"@ + page + "."@ + ext
}

/// A page of a subreddit or user: what, whose and which.
pub fn path_under(what: &str, name: &str, page: &str, ext: &str) -> (r: String)
    ensures
        r@ == page_under(what@, name@, page@, ext@),
        address::rooted(what@) ==> address::rooted(r@),
{
    let mut out = what.to_owned();
    out.push_str(name);
    out.push_str("/");
    out.push_str(page);
    out.push_str(".");
    out.push_str(ext);
    out
}

/// The parameters of a search.
pub open spec fn search_params(command: SearchCommand, sub: Seq<char>) -> Seq<
    (Seq<char>, Seq<char>),
> {
    seq![
        ("q"@, command.query@),
        (
            "restrict_sr"@,
            if sub.len() == 0 {
                "0"@
            } else {
                "1"@
            },
        ),
        ("sort"@, command.sort.word()),
        ("t"@, command.time.word()),
        ("limit"@, number::decimal(command.limit as nat)),
    ]
}

/// The fetching of a search.
pub open spec fn search_fetch(command: SearchCommand, force_rss: bool) -> Result<
    FetchModel,
    ErrorModel,
> {
    match named_subreddits(text::texts(command.subreddits@)) {
        Ok(names) => {
            let sub = text::join(names, "+"@);
            Ok(
                FetchModel::with_feed(
                    force_rss,
                    search_page(sub, "json"@),
                    search_page(sub, "rss"@),
                    search_params(command, sub),
                ),
            )
        },
        Err(e) => Err(e),
    }
}

/// The parameters of a subreddit listing.
pub open spec fn browse_params(command: BrowseCommand) -> Seq<(Seq<char>, Seq<char>)> {
    let first = seq![
        ("limit"@, number::decimal(command.limit as nat)),
        ("t"@, command.time.word()),
    ];
    match command.after {
        Some(after) => first.push(("after"@, after@)),
        None => first,
    }
}

/// The fetching of a subreddit listing.
pub open spec fn browse_fetch(command: BrowseCommand, force_rss: bool) -> Result<
    FetchModel,
    ErrorModel,
> {
    match address::named_subreddit(command.sub@) {
        Ok(name) => Ok(
            FetchModel::with_feed(
                force_rss,
                page_under("/r/"@, name, command.sort.word(), "json"@),
                page_under("/r/"@, name, command.sort.word(), "rss"@),
                browse_params(command),
            ),
        ),
        Err(e) => Err(e),
    }
}

/// The fetching of what a user wrote.
pub open spec fn user_fetch(command: UserCommand) -> Result<FetchModel, ErrorModel> {
    match address::named_user(command.name@) {
        Ok(name) => Ok(
            FetchModel::only_json(
                page_under("/user/"@, name, command.what.word(), "json"@),
                seq![("limit"@, number::decimal(command.limit as nat))],
            ),
        ),
        Err(e) => Err(e),
    }
}

/// The fetching of a search for subreddits.
pub open spec fn subreddits_fetch(query: Seq<char>) -> FetchModel {
    FetchModel {
        purpose: Some("searching subreddits"@),
        ..FetchModel::only_json(
            "/subreddits/search.json"@,
            seq![("q"@, query), ("limit"@, "25"@)],
        )
    }
}

/// The request for what a subreddit is about.
pub open spec fn about_request(name: Seq<char>) -> Result<RequestModel, ErrorModel> {
    match address::named_subreddit(name) {
        Ok(sub) => Ok(
            RequestModel::json(page_under("/r/"@, sub, "about"@, "json"@), Seq::empty()),
        ),
        Err(e) => Err(e),
    }
}

/// The request for who is logged in.
pub open spec fn identity_request() -> RequestModel {
    RequestModel::json("/api/me.json"@, Seq::empty())
}

/// All of some texts are full names.
pub open spec fn full_names(ids: Seq<Seq<char>>) -> bool {
    forall|i: int| 0 <= i < ids.len() ==> address::full_name_ok(#[trigger] ids[i])
}

/// The items per page that may be asked for.
pub open spec fn page_limit(limit: u32) -> u32 {
    if limit < 1 {
        1
    } else if limit > 100 {
        100
    } else {
        limit
    }
}

/// The parameters of a page of a captured listing.
pub open spec fn page_params(limit: u32, after: Option<Seq<char>>) -> Seq<
    (Seq<char>, Seq<char>),
> {
    let first = seq![("limit"@, number::decimal(page_limit(limit) as nat))];
    match after {
        Some(cursor) => first.push(("after"@, cursor)),
        None => first,
    }
}

/// The request for a page of a captured listing.
pub open spec fn page_request(
    subreddit: Seq<char>,
    listing: Seq<char>,
    limit: u32,
    after: Option<Seq<char>>,
) -> Result<RequestModel, ErrorModel> {
    match address::named_subreddit(subreddit) {
        Ok(name) => if listing == "new"@ || listing == "comments"@ {
            Ok(
                RequestModel::json(
                    page_under("/r/"@, name, listing, "json"@),
                    page_params(limit, after),
                ),
            )
        } else {
            Err(ErrorModel::Message("invalid listing for sync: "@ + listing))
        },
        Err(e) => Err(e),
    }
}

/// The outcome of asking for one request.
pub open spec fn request_outcome(r: Result<Request, RdtError>) -> Result<RequestModel, ErrorModel> {
    match r {
        Ok(request) => Ok(request@),
        Err(e) => Err(e@),
    }
}

impl RedditClient {
    /// Searches for posts.
    pub fn search(&self, command: &SearchCommand) -> (r: Result<ListingFetch, RdtError>)
        ensures
            error::outcome(r) == search_fetch(*command, self@.force_rss),
            r is Ok ==> r->Ok_0@.on_site(),
    {
        let names = match subreddit_names(&command.subreddits) {
            Ok(names) => names,
            Err(e) => {
                return Err(e);
            },
        };
        let sub = text::joined(&names, "+");
        let everywhere = text::chars_of(sub.as_str()).len() == 0;
        let mut params = transport::no_params();
        transport::add_param(&mut params, "q", command.query.as_str());
        transport::add_param(
            &mut params,
            "restrict_sr",
            if everywhere {
                "0"
            } else {
                "1"
            },
        );
        transport::add_param(&mut params, "sort", command.sort.as_reddit());
        transport::add_param(&mut params, "t", command.time.as_reddit());
        transport::add_param(&mut params, "limit", number::u64_text(command.limit as u64).as_str());
        assert(web::params_model(params@) =~= search_params(*command, sub@));
        Ok(
            ListingFetch::with_feed(
                self.forces_rss(),
                page_of_search(sub.as_str(), "json"),
                page_of_search(sub.as_str(), "rss"),
                params,
            ),
        )
    }

    /// Lists a subreddit.
    pub fn browse(&self, command: &BrowseCommand) -> (r: Result<ListingFetch, RdtError>)
        ensures
            error::outcome(r) == browse_fetch(*command, self@.force_rss),
            r is Ok ==> r->Ok_0@.on_site(),
    {
        proof {
            reveal_strlit("/r/");
        }
        let name = match address::subreddit_segment(command.sub.as_str()) {
            Ok(name) => name,
            Err(e) => {
                return Err(e);
            },
        };
        let sort = command.sort.as_reddit();
        let mut params = transport::no_params();
        transport::add_param(&mut params, "limit", number::u64_text(command.limit as u64).as_str());
        transport::add_param(&mut params, "t", command.time.as_reddit());
        match &command.after {
            Some(after) => {
                transport::add_param(&mut params, "after", after.as_str());
            },
            None => {},
        }
        assert(web::params_model(params@) =~= browse_params(*command));
        Ok(
            ListingFetch::with_feed(
                self.forces_rss(),
                path_under("/r/", name.as_str(), sort, "json"),
                path_under("/r/", name.as_str(), sort, "rss"),
                params,
            ),
        )
    }

    /// Searches for subreddits.
    pub fn subreddits(&self, query: &str) -> (r: ListingFetch)
        ensures
            r@ == subreddits_fetch(query@),
            r@.on_site(),
    {
        proof {
            reveal_strlit("/subreddits/search.json");
        }
        let mut params = transport::no_params();
        transport::add_param(&mut params, "q", query);
        transport::add_param(&mut params, "limit", "25");
        assert(web::params_model(params@) =~= seq![("q"@, query@), ("limit"@, "25"@)]);
        let fetch = ListingFetch::only_json("/subreddits/search.json".to_owned(), params);
        ListingFetch { purpose: Some("searching subreddits".to_owned()), ..fetch }
    }

    /// Lists what a user wrote.
    pub fn user(&self, command: &UserCommand) -> (r: Result<ListingFetch, RdtError>)
        ensures
            error::outcome(r) == user_fetch(*command),
            r is Ok ==> r->Ok_0@.on_site(),
    {
        proof {
            reveal_strlit("/user/");
        }
        let name = match address::user_segment(command.name.as_str()) {
            Ok(name) => name,
            Err(e) => {
                return Err(e);
            },
        };
        let mut params = transport::no_params();
        transport::add_param(&mut params, "limit", number::u64_text(command.limit as u64).as_str());
        assert(web::params_model(params@) =~= seq![
            ("limit"@, number::decimal(command.limit as nat)),
        ]);
        Ok(
            ListingFetch::only_json(
                path_under("/user/", name.as_str(), command.what.as_reddit(), "json"),
                params,
            ),
        )
    }

    /// Asks for things by their full names, at most a hundred. Nothing is
    /// asked where there are none.
    pub fn info_by_ids(&self, ids: &[String]) -> (r: Result<Option<ListingFetch>, RdtError>)
        ensures
            match r {
                Ok(None) => ids@.len() == 0,
                Ok(Some(fetch)) => 0 < ids@.len() <= 100 && full_names(text::texts(ids@))
                    && fetch@ == FetchModel::only_json(
                    "/api/info.json"@,
                    seq![("id"@, text::join(text::texts(ids@), ","@))],
                ) && fetch@.on_site(),
                Err(e) => if ids@.len() > 100 {
                    e@ == ErrorModel::Message("api/info batch exceeds 100 ids"@)
                } else {
                    exists|i: int|
                        0 <= i < ids@.len() && !address::full_name_ok(#[trigger] ids@[i]@)
                            && full_names(text::texts(ids@).take(i)) && e@ == ErrorModel::Message(
                            "invalid Reddit fullname: "@ + ids@[i]@,
                        )
                },
            },
    {
        if ids.len() == 0 {
            return Ok(None);
        }
        if ids.len() > 100 {
            return Err(RdtError::say("api/info batch exceeds 100 ids"));
        }
        let mut i: usize = 0;
        while i < ids.len()
            invariant
                i <= ids@.len(),
                0 < ids@.len() <= 100,
                full_names(text::texts(ids@).take(i as int)),
            decreases ids@.len() - i,
        {
            match address::validate_fullname(ids[i].as_str()) {
                Ok(_) => {},
                Err(e) => {
                    assert(!address::full_name_ok(ids@[i as int]@));
                    return Err(e);
                },
            }
            proof {
                let t = text::texts(ids@).take(i + 1);
                assert forall|j: int| 0 <= j < t.len() implies address::full_name_ok(
                    #[trigger] t[j],
                ) by {
                    if j < i {
                        assert(t[j] == text::texts(ids@).take(i as int)[j]);
                    }
                }
            }
            i = i + 1;
        }
        assert(text::texts(ids@).take(ids@.len() as int) =~= text::texts(ids@));
        proof {
            reveal_strlit("/api/info.json");
        }
        let mut params = transport::no_params();
        transport::add_param(&mut params, "id", text::joined(ids, ",").as_str());
        assert(web::params_model(params@) =~= seq![("id"@, text::join(text::texts(ids@), ","@))]);
        Ok(Some(ListingFetch::only_json("/api/info.json".to_owned(), params)))
    }

    /// Asks for a page of a captured listing.
    pub fn sync_listing_page(
        &self,
        subreddit: &str,
        listing: &str,
        limit: u32,
        after: Option<&str>,
    ) -> (r: Result<Request, RdtError>)
        ensures
            request_outcome(r) == page_request(
                subreddit@,
                listing@,
                limit,
                text::opt_str(after),
            ),
            r is Ok ==> r->Ok_0@.on_site(),
    {
        proof {
            reveal_strlit("/r/");
        }
        let name = match address::subreddit_segment(subreddit) {
            Ok(name) => name,
            Err(e) => {
                return Err(e);
            },
        };
        let listing = match address::listing_segment(listing) {
            Ok(listing) => listing,
            Err(e) => {
                return Err(e);
            },
        };
        let limit: u32 = if limit < 1 {
            1
        } else if limit > 100 {
            100
        } else {
            limit
        };
        let mut params = transport::no_params();
        transport::add_param(&mut params, "limit", number::u64_text(limit as u64).as_str());
        match after {
            Some(cursor) => {
                transport::add_param(&mut params, "after", cursor);
            },
            None => {},
        }
        assert(web::params_model(params@) =~= page_params(limit, text::opt_str(after)));
        let request = Request::json(path_under("/r/", name.as_str(), listing, "json"), params);
        proof {
            transport::law_rooted_requests_go_to_the_site(request@);
        }
        Ok(request)
    }

    /// Asks what a subreddit is about.
    pub fn subreddit_about(&self, name: &str) -> (r: Result<Request, RdtError>)
        ensures
            request_outcome(r) == about_request(name@),
            r is Ok ==> r->Ok_0@.on_site(),
    {
        proof {
            reveal_strlit("/r/");
        }
        match address::subreddit_segment(name) {
            Ok(sub) => {
                let request = Request::json(
                    path_under("/r/", sub.as_str(), "about", "json"),
                    transport::no_params(),
                );
                proof {
                    transport::law_rooted_requests_go_to_the_site(request@);
                }
                Ok(request)
            },
            Err(e) => Err(e),
        }
    }

    /// Asks who is logged in, which takes a cookie.
    pub fn auth_check(&self) -> (r: Result<Request, RdtError>)
        ensures
            request_outcome(r) == if self@.cookie is None {
                Err::<RequestModel, ErrorModel>(ErrorModel::CookieMissing)
            } else {
                Ok(identity_request())
            },
            r is Ok ==> r->Ok_0@.on_site(),
    {
        proof {
            reveal_strlit("/api/me.json");
        }
        if !self.has_cookie() {
            return Err(RdtError::CookieMissing);
        }
        let request = Request::json("/api/me.json".to_owned(), transport::no_params());
        proof {
            transport::law_rooted_requests_go_to_the_site(request@);
        }
        Ok(request)
    }
}

/// The user name in the answer to who is logged in.
pub open spec fn user_name(value: JsonModel) -> Option<Seq<char>> {
    match value.get2("data"@, "name"@) {
        Some(JsonModel::Text(name)) => Some(name),
        _ => value.text_at("name"@),
    }
}

/// Reads the answer to who is logged in.
pub fn read_user(value: &Json) -> (r: Result<String, RdtError>)
    ensures
        error::outcome(r) == match user_name(value@) {
            Some(name) => Ok::<Seq<char>, ErrorModel>("logged in as u/"@ + name),
            None => Err(ErrorModel::Message("auth check response did not include a username"@)),
        },
{
    let inner: Option<&str> = match value.get2("data", "name") {
        Some(v) => v.as_text(),
        None => None,
    };
    let name = match inner {
        Some(name) => Some(name),
        None => value.text_at("name"),
    };
    match name {
        Some(name) => {
            let mut out = "logged in as u/".to_owned();
            out.push_str(name);
            Ok(out)
        },
        None => Err(RdtError::say("auth check response did not include a username")),
    }
}

/// The feed of a listing is asked for exactly where the site blocks JSON and
/// there is a feed. Any other failure is the outcome, and so is what an answer
/// tells.
pub proof fn law_only_a_block_leads_to_a_feed(
    fetch: FetchModel,
    e: ErrorModel,
    body: Seq<char>,
)
    ensures
        e is EdgeBlocked ==> (fetch.fallback matches Some(feed) ==> fetch.after(Err(e))
            == StepModel::Fetch(
            FetchModel { request: feed, fallback: None, purpose: fetch.purpose },
        )),
        !(e is EdgeBlocked) || fetch.fallback is None ==> fetch.after(Err(e)) == StepModel::Done(
            Err::<Seq<ItemModel>, FailureModel>(FailureModel { purpose: fetch.purpose, cause: e }),
        ),
        !fetch.request.rss ==> (document(body) matches Ok(value) ==> fetch.after(Ok(body))
            == StepModel::Done(
            Ok::<Seq<ItemModel>, FailureModel>(parse::listing_page(value).items),
        )),
        fetch.request.rss ==> (atom::feed_items(
            FeedModel::start(),
            atom::met_in(body),
        ) matches Ok(items) ==> {
            &&& fetch.after(Ok(body)) matches StepModel::Done(Ok(shown))
            &&& shown.len() == items.len()
            &&& forall|i: int| #![trigger shown[i]]
                0 <= i < items.len() ==> shown[i] == (ItemModel {
                    index: Some(model::capped((i + 1) as nat)),
                    ..items[i]
                })
        }),
{
}

/// The texts that name subreddits name them one by one, and the first that names
/// none refuses them all.
pub proof fn law_every_subreddit_is_named(inputs: Seq<Seq<char>>)
    ensures
        named_subreddits(inputs) is Ok <==> forall|i: int|
            0 <= i < inputs.len() ==> address::named_subreddit(#[trigger] inputs[i]) is Ok,
        named_subreddits(inputs) matches Ok(names) ==> names.len() == inputs.len() && forall|
            i: int,
        |
            0 <= i < inputs.len() ==> address::named_subreddit(#[trigger] inputs[i]) == Ok::<
                Seq<char>,
                ErrorModel,
            >(names[i]),
        named_subreddits(inputs) matches Err(e) ==> exists|i: int|
            0 <= i < inputs.len() && address::named_subreddit(#[trigger] inputs[i]) == Err::<
                Seq<char>,
                ErrorModel,
            >(e),
    decreases inputs.len(),
{
    if inputs.len() > 0 {
        let front = inputs.drop_last();
        let last = (inputs.len() - 1) as int;
        law_every_subreddit_is_named(front);
        assert forall|i: int| 0 <= i < front.len() implies front[i] == #[trigger] inputs[i] by {}
        if named_subreddits(front) is Ok {
            assert forall|i: int| 0 <= i < front.len() implies address::named_subreddit(
                #[trigger] inputs[i],
            ) == Ok::<Seq<char>, ErrorModel>(named_subreddits(front)->Ok_0[i]) by {
                assert(front[i] == inputs[i]);
            }
            match address::named_subreddit(inputs[last]) {
                Ok(_) => {},
                Err(_) => {
                    assert(address::named_subreddit(inputs[last]) is Err);
                },
            }
        } else {
            let e = named_subreddits(front)->Err_0;
            let i = choose|i: int|
                0 <= i < front.len() && address::named_subreddit(#[trigger] front[i]) == Err::<
                    Seq<char>,
                    ErrorModel,
                >(e);
            assert(address::named_subreddit(inputs[i]) == Err::<Seq<char>, ErrorModel>(e));
        }
    }
}

/// A fetch asks for a page as JSON with some parameters, and has the same page
/// with the same parameters as a feed to fall back on. Where feeds are forced it
/// asks for that at once.
pub open spec fn asks_for(
    fetch: FetchModel,
    path: Seq<char>,
    params: Seq<(Seq<char>, Seq<char>)>,
    force_rss: bool,
) -> bool {
    let feed = RequestModel { path: path + "rss"@, params, rss: true };
    &&& fetch.purpose is None
    &&& force_rss ==> fetch.request == feed && fetch.fallback is None
    &&& !force_rss ==> fetch.fallback == Some(feed) && fetch.request == (RequestModel {
        path: path + "json"@,
        params: params.push(("raw_json"@, "1"@)),
        rss: false,
    })
}

/// A search asks for what the command says, on the whole site or in the named
/// subreddits only.
pub proof fn law_searches_ask_what_the_command_says(
    command: SearchCommand,
    force_rss: bool,
    names: Seq<Seq<char>>,
)
    requires
        named_subreddits(text::texts(command.subreddits@)) == Ok::<Seq<Seq<char>>, ErrorModel>(
            names,
        ),
    ensures
        ({
            let sub = text::join(names, "+"@);
            &&& search_fetch(command, force_rss) matches Ok(fetch)
            &&& sub.len() == 0 ==> asks_for(
                fetch,
                "/search."@,
                seq![
                    ("q"@, command.query@),
                    ("restrict_sr"@, "0"@),
                    ("sort"@, command.sort.word()),
                    ("t"@, command.time.word()),
                    ("limit"@, number::decimal(command.limit as nat)),
                ],
                force_rss,
            )
            &&& sub.len() > 0 ==> asks_for(
                fetch,
                "/r/"@ + sub + "/search."@,
                seq![
                    ("q"@, command.query@),
                    ("restrict_sr"@, "1"@),
                    ("sort"@, command.sort.word()),
                    ("t"@, command.time.word()),
                    ("limit"@, number::decimal(command.limit as nat)),
                ],
                force_rss,
            )
        }),
{
}

/// A listing of a subreddit asks for what the command says, behind the cursor
/// where there is one.
pub proof fn law_browsing_asks_what_the_command_says(
    command: BrowseCommand,
    force_rss: bool,
    name: Seq<char>,
)
    requires
        address::named_subreddit(command.sub@) == Ok::<Seq<char>, ErrorModel>(name),
    ensures
        ({
            let path = "/r/"@ + name + "/"@ + command.sort.word() + "."@;
            let limit = ("limit"@, number::decimal(command.limit as nat));
            let time = ("t"@, command.time.word());
            &&& browse_fetch(command, force_rss) matches Ok(fetch)
            &&& command.after is None ==> asks_for(fetch, path, seq![limit, time], force_rss)
            &&& command.after matches Some(after) ==> asks_for(
                fetch,
                path,
                seq![limit, time, ("after"@, after@)],
                force_rss,
            )
        }),
{
    let limit = ("limit"@, number::decimal(command.limit as nat));
    let time = ("t"@, command.time.word());
    if let Some(after) = command.after {
        assert(browse_params(command) =~= seq![limit, time, ("after"@, after@)]);
    }
}

/// What a user wrote, the subreddits that match, what a subreddit is about and
/// who is logged in are asked for as JSON only.
pub proof fn law_the_rest_is_asked_for_as_json(
    command: UserCommand,
    user: Seq<char>,
    query: Seq<char>,
    sub: Seq<char>,
    name: Seq<char>,
)
    ensures
        address::named_user(command.name@) == Ok::<Seq<char>, ErrorModel>(user) ==> {
            &&& user_fetch(command) matches Ok(fetch)
            &&& fetch.fallback is None
            &&& fetch.purpose is None
            &&& fetch.request == (RequestModel {
                path: "/user/"@ + user + "/"@ + command.what.word() + "."@ + "json"@,
                params: seq![
                    ("limit"@, number::decimal(command.limit as nat)),
                    ("raw_json"@, "1"@),
                ],
                rss: false,
            })
        },
        subreddits_fetch(query).fallback is None,
        subreddits_fetch(query).request == (RequestModel {
            path: "/subreddits/search.json"@,
            params: seq![("q"@, query), ("limit"@, "25"@), ("raw_json"@, "1"@)],
            rss: false,
        }),
        address::named_subreddit(sub) == Ok::<Seq<char>, ErrorModel>(name) ==> about_request(sub)
            == Ok::<RequestModel, ErrorModel>(
            RequestModel {
                path: "/r/"@ + name + "/"@ + "about"@ + "."@ + "json"@,
                params: seq![("raw_json"@, "1"@)],
                rss: false,
            },
        ),
        identity_request() == (RequestModel {
            path: "/api/me.json"@,
            params: seq![("raw_json"@, "1"@)],
            rss: false,
        }),
{
    assert(Seq::<(Seq<char>, Seq<char>)>::empty().push(("raw_json"@, "1"@)) =~= seq![
        ("raw_json"@, "1"@),
    ]);
    assert(seq![("limit"@, number::decimal(command.limit as nat))].push(("raw_json"@, "1"@))
        =~= seq![("limit"@, number::decimal(command.limit as nat)), ("raw_json"@, "1"@)]);
    assert(seq![("q"@, query), ("limit"@, "25"@)].push(("raw_json"@, "1"@)) =~= seq![
        ("q"@, query),
        ("limit"@, "25"@),
        ("raw_json"@, "1"@),
    ]);
}

/// The name of who is logged in stands under `data` and `name`, or under `name`.
pub proof fn law_the_user_is_named_in_the_answer(
    value: JsonModel,
    data: JsonModel,
    name: Seq<char>,
)
    ensures
        value.get("data"@) == Some(data) && data.get("name"@) == Some(JsonModel::Text(name))
            ==> user_name(value) == Some(name),
        value.get("data"@) is None && value.get("name"@) == Some(JsonModel::Text(name))
            ==> user_name(value) == Some(name),
        value.get("data"@) is None && value.get("name"@) is None ==> user_name(value) is None,
{
}

/// A page of a captured listing is asked for by as many items as are wanted, at
/// least one and at most a hundred, and behind the cursor where there is one. Only
/// the newest posts and comments are captured so.
pub proof fn law_pages_are_asked_for_within_bounds(
    subreddit: Seq<char>,
    name: Seq<char>,
    listing: Seq<char>,
    limit: u32,
    after: Option<Seq<char>>,
)
    requires
        address::named_subreddit(subreddit) == Ok::<Seq<char>, ErrorModel>(name),
    ensures
        ({
            let most = if limit == 0 {
                1
            } else if limit >= 100 {
                100
            } else {
                limit as int
            };
            let first = ("limit"@, number::decimal(most as nat));
            let last = ("raw_json"@, "1"@);
            let r = page_request(subreddit, listing, limit, after);
            &&& r is Ok <==> listing == "new"@ || listing == "comments"@
            &&& r matches Ok(request) ==> {
                &&& request.path == "/r/"@ + name + "/"@ + listing + "."@ + "json"@
                &&& !request.rss
                &&& after is None ==> request.params == seq![first, last]
                &&& after matches Some(cursor) ==> request.params == seq![
                    first,
                    ("after"@, cursor),
                    last,
                ]
            }
        }),
{
    let most = page_limit(limit);
    let first = ("limit"@, number::decimal(most as nat));
    let last = ("raw_json"@, "1"@);
    let params = page_params(limit, after).push(last);
    match after {
        Some(cursor) => {
            assert(params =~= seq![first, ("after"@, cursor), last]);
        },
        None => {
            assert(params =~= seq![first, last]);
        },
    }
}

} // verus!
