//! The client: which requests a command makes, and what is made of the
//! answers.
use vstd::prelude::*;

use crate::address;
use crate::cli::Cli;
use crate::config::{Config, ConfigModel};
use crate::error;
use crate::error::{ErrorModel, RdtError};
use crate::model;
use crate::number;
use crate::text;
use crate::web;

verus! {

// ---------------------------------------------------------------------------
// Requests
// ---------------------------------------------------------------------------

/// A request: a page of the site with parameters, as JSON or as a feed.
#[derive(Debug)]
pub struct Request {
    pub path: String,
    pub params: Vec<(String, String)>,
    pub rss: bool,
}

/// What a [`Request`] holds.
pub struct RequestModel {
    pub path: Seq<char>,
    pub params: Seq<(Seq<char>, Seq<char>)>,
    pub rss: bool,
}

impl View for Request {
    type V = RequestModel;

    open spec fn view(&self) -> RequestModel {
        RequestModel {
            path: self.path@,
            params: web::params_model(self.params@),
            rss: self.rss,
        }
    }
}

impl RequestModel {
    /// A request for JSON, which asks for text without HTML escapes.
    pub open spec fn json(
        path: Seq<char>,
        params: Seq<(Seq<char>, Seq<char>)>,
    ) -> RequestModel {
        RequestModel { path, params: params.push(("raw_json"@, "1"@)), rss: false }
    }

    /// A request for a feed.
    pub open spec fn feed(
        path: Seq<char>,
        params: Seq<(Seq<char>, Seq<char>)>,
    ) -> RequestModel {
        RequestModel { path, params, rss: true }
    }

    /// The request goes to the site and to no other host.
    pub open spec fn on_site(self) -> bool {
        match address::request_url(self.path, self.params) {
            Ok(url) => address::on_site(url),
            Err(_) => false,
        }
    }
}

/// A request for a path that begins with a slash goes to the site.
pub proof fn law_rooted_requests_go_to_the_site(request: RequestModel)
    requires
        address::rooted(request.path),
    ensures
        request.on_site(),
{
    address::law_rooted_paths_stay_on_the_site(request.path, request.params);
}

/// Adds a parameter.
pub fn add_param(params: &mut Vec<(String, String)>, key: &str, value: &str)
    ensures
        web::params_model(final(params)@) == web::params_model(old(params)@).push((key@, value@)),
{
    let ghost had = web::params_model(params@);
    params.push((key.to_owned(), value.to_owned()));
    assert(web::params_model(params@) =~= had.push((key@, value@)));
}

/// No parameters.
pub fn no_params() -> (r: Vec<(String, String)>)
    ensures
        web::params_model(r@) == Seq::<(Seq<char>, Seq<char>)>::empty(),
{
    let r: Vec<(String, String)> = Vec::new();
    assert(web::params_model(r@) =~= Seq::<(Seq<char>, Seq<char>)>::empty());
    r
}

/// A copy of parameters.
pub fn copy_params(params: &[(String, String)]) -> (r: Vec<(String, String)>)
    ensures
        web::params_model(r@) == web::params_model(params@),
{
    let mut out: Vec<(String, String)> = Vec::new();
    let mut i: usize = 0;
    while i < params.len()
        invariant
            i <= params@.len(),
            out@.len() == i,
            forall|j: int|
                0 <= j < i ==> (#[trigger] out@[j]).0@ == params@[j].0@ && out@[j].1@
                    == params@[j].1@,
        decreases params@.len() - i,
    {
        out.push((params[i].0.clone(), params[i].1.clone()));
        i = i + 1;
    }
    assert(web::params_model(out@) =~= web::params_model(params@));
    out
}

impl Request {
    /// A request for JSON.
    pub fn json(path: String, params: Vec<(String, String)>) -> (r: Request)
        ensures
            r@ == RequestModel::json(path@, web::params_model(params@)),
    {
        let mut params = params;
        add_param(&mut params, "raw_json", "1");
        Request { path, params, rss: false }
    }

    /// A request for a feed.
    pub fn feed(path: String, params: Vec<(String, String)>) -> (r: Request)
        ensures
            r@ == RequestModel::feed(path@, web::params_model(params@)),
    {
        Request { path, params, rss: true }
    }

    /// The URL to ask.
    pub fn url(&self) -> (r: Result<String, RdtError>)
        ensures
            error::outcome(r) == address::request_url(self@.path, self@.params),
    {
        address::build_url(self.path.as_str(), &self.params)
    }
}

// ---------------------------------------------------------------------------
// Answers
// ---------------------------------------------------------------------------

/// A page that says the reader is blocked.
pub open spec fn block_page(body: Seq<char>) -> bool {
    let lower = text::lower_case(body);
    text::contains(lower, "<html"@) && text::contains(lower, "blocked"@) && text::contains(
        lower,
        "reddit"@,
    )
}

/// Whether a page says the reader is blocked.
pub fn looks_like_block_page(body: &str) -> (r: bool)
    ensures
        r == block_page(body@),
{
    let lower = text::string_of(&text::lowered(&text::chars_of(body)));
    let l = lower.as_str();
    text::str_contains(l, "<html") && text::str_contains(l, "blocked") && text::str_contains(
        l,
        "reddit",
    )
}

/// The beginning of a text, as much of it as an error quotes.
pub open spec fn excerpt(body: Seq<char>) -> Seq<char> {
    if body.len() <= 240 {
        body
    } else {
        body.take(240)
    }
}

fn quoted(body: &str) -> (r: String)
    ensures
        r@ == excerpt(body@),
{
    let chars = text::chars_of(body);
    if chars.len() <= 240 {
        text::string_of(&chars)
    } else {
        let front = &chars[0..240];
        assert(front@ =~= body@.take(240));
        text::string_of(front)
    }
}

/// The seconds that an answer asks to wait, or one.
pub open spec fn wait_asked(retry_after: Option<Seq<char>>) -> nat {
    match retry_after {
        Some(value) => match number::parse_unsigned(value, u64::MAX as nat) {
            Some(n) => n,
            None => 1,
        },
        None => 1,
    }
}

/// What an answer of the site means, by its status.
pub open spec fn answer(
    status: u16,
    retry_after: Option<Seq<char>>,
    url: Seq<char>,
    body: Seq<char>,
) -> Result<Seq<char>, ErrorModel> {
    if status == 403 && block_page(body) {
        Err(ErrorModel::EdgeBlocked)
    } else if status == 429 {
        Err(
            ErrorModel::HttpStatus {
                status,
                url: url + " retry_after="@ + number::decimal(wait_asked(retry_after)),
                body: excerpt(body),
            },
        )
    } else if 200 <= status <= 299 {
        Ok(body)
    } else {
        Err(ErrorModel::HttpStatus { status, url, body: excerpt(body) })
    }
}

/// What an answer of the site means, by its status.
pub fn read_answer(status: u16, retry_after: Option<&str>, url: &str, body: String) -> (r: Result<
    String,
    RdtError,
>)
    ensures
        error::outcome(r) == answer(status, text::opt_str(retry_after), url@, body@),
{
    if status == 403 && looks_like_block_page(body.as_str()) {
        return Err(RdtError::EdgeBlocked);
    }
    if status == 429 {
        let seconds: u64 = match retry_after {
            Some(value) => match number::read_unsigned(&text::chars_of(value), u64::MAX) {
                Some(n) => n,
                None => 1,
            },
            None => 1,
        };
        let mut place = url.to_owned();
        place.push_str(" retry_after=");
        place.push_str(number::u64_text(seconds).as_str());
        return Err(RdtError::HttpStatus { status, url: place, body: quoted(body.as_str()) });
    }
    if 200 <= status && status <= 299 {
        Ok(body)
    } else {
        Err(
            RdtError::HttpStatus { status, url: url.to_owned(), body: quoted(body.as_str()) },
        )
    }
}

/// Whether the site blocks the reader.
pub fn is_edge_block(error: &RdtError) -> (r: bool)
    ensures
        r == (error@ is EdgeBlocked),
{
    matches!(error, RdtError::EdgeBlocked)
}

/// An answer after which the request may be made once more.
pub open spec fn retryable(error: ErrorModel) -> bool {
    match error {
        ErrorModel::HttpStatus { status, .. } => status == 429,
        _ => false,
    }
}

/// Whether the request may be made once more.
pub fn is_retryable_rate_limit(error: &RdtError) -> (r: bool)
    ensures
        r == retryable(error@),
{
    match error {
        RdtError::HttpStatus { status, .. } => *status == 429,
        _ => false,
    }
}

/// `i` is the last position at which `part` stands in `s`.
pub open spec fn last_at(s: Seq<char>, part: Seq<char>, i: int) -> bool {
    &&& text::occurs_at(s, part, i)
    &&& forall|j: int| j > i ==> !text::occurs_at(s, part, j)
}

/// What stands after the last `part`; the whole text where there is none.
pub open spec fn after_part(s: Seq<char>, part: Seq<char>) -> Seq<char> {
    if text::contains(s, part) {
        s.skip((choose|i: int| last_at(s, part, i)) + part.len())
    } else {
        s
    }
}

proof fn lemma_after_last(s: Seq<char>, part: Seq<char>, i: int)
    requires
        last_at(s, part, i),
    ensures
        after_part(s, part) == s.skip(i + part.len()),
{
    let k = choose|k: int| last_at(s, part, k);
    assert(last_at(s, part, k));
    if k > i {
        assert(!text::occurs_at(s, part, k));
    }
    if i > k {
        assert(!text::occurs_at(s, part, i));
    }
}

fn cut_after_part<'a>(s: &'a [char], part: &[char]) -> (r: &'a [char])
    ensures
        r@ == after_part(s@, part@),
{
    let total: usize = s.len();
    let mut i: usize = total;
    loop
        invariant
            total == s@.len(),
            i <= total,
            forall|j: int| j > i ==> !text::occurs_at(s@, part@, j),
        decreases i,
    {
        if text::has_at(s, part, i) {
            let r = &s[i + part.len()..total];
            proof {
                lemma_after_last(s@, part@, i as int);
                assert(r@ =~= s@.skip(i + part@.len()));
            }
            return r;
        }
        if i == 0 {
            assert(!text::contains(s@, part@));
            return s;
        }
        i = i - 1;
    }
}

/// The seconds to wait before the request is made once more: what the answer
/// asked for, at most a minute.
pub open spec fn wait_before_retry(error: ErrorModel) -> nat {
    let asked: nat = match error {
        ErrorModel::HttpStatus { url, .. } => match number::parse_unsigned(
            after_part(url, "retry_after="@),
            u64::MAX as nat,
        ) {
            Some(n) => n,
            None => 1,
        },
        _ => 1,
    };
    if asked <= 60 {
        asked
    } else {
        60
    }
}

/// The seconds to wait before the request is made once more.
pub fn retry_seconds(error: &RdtError) -> (r: u64)
    ensures
        r == wait_before_retry(error@),
        r <= 60,
{
    let asked: u64 = match error {
        RdtError::HttpStatus { url, .. } => {
            let chars = text::chars_of(url.as_str());
            let tail = cut_after_part(&chars, &text::chars_of("retry_after="));
            match number::read_unsigned(tail, u64::MAX) {
                Some(n) => n,
                None => 1,
            }
        },
        _ => 1,
    };
    if asked <= 60 {
        asked
    } else {
        60
    }
}

proof fn lemma_after_part_digits(front: Seq<char>, part: Seq<char>, tail: Seq<char>)
    requires
        part.len() > 0,
        !text::digit(part.last()),
        forall|i: int| 0 <= i < tail.len() ==> text::digit(#[trigger] tail[i]),
    ensures
        after_part(front + part + tail, part) == tail,
{
    let s = front + part + tail;
    let n = front.len() as int;
    assert(s.subrange(n, n + part.len()) =~= part);
    assert forall|j: int| j > n implies !text::occurs_at(s, part, j) by {
        if text::occurs_at(s, part, j) {
            let last = j + part.len() - 1;
            assert(s.subrange(j, j + part.len()).last() == s[last]);
            assert(s[last] == tail[last - n - part.len()]);
        }
    }
    lemma_after_last(s, part, n);
    assert(s.skip(n + part.len()) =~= tail);
}

/// A rate-limited request is made once more after the time that the site
/// asked for, or after a minute where it asked for more.
pub proof fn law_retry_waits_as_asked(
    retry_after: Option<Seq<char>>,
    url: Seq<char>,
    body: Seq<char>,
)
    ensures
        answer(429, retry_after, url, body) is Err,
        retryable(answer(429, retry_after, url, body)->Err_0),
        wait_before_retry(answer(429, retry_after, url, body)->Err_0) == if wait_asked(retry_after)
            <= 60 {
            wait_asked(retry_after)
        } else {
            60
        },
{
    reveal_strlit("retry_after=");
    reveal_strlit(" retry_after=");
    let n = wait_asked(retry_after);
    let d = number::decimal(n);
    let part = "retry_after="@;
    let place = url + " retry_after="@ + d;
    assert(" retry_after="@ =~= seq![' '] + part);
    assert(place =~= (url + seq![' ']) + part + d);
    number::law_decimal_is_digits(n);
    lemma_after_part_digits(url + seq![' '], part, d);
    number::law_unsigned_round_trip(n, u64::MAX as nat);
}

/// The seconds after which a request is made once more, where it is.
pub open spec fn again_after(outcome: Result<Seq<char>, ErrorModel>) -> Option<nat> {
    match outcome {
        Ok(_) => None,
        Err(e) => if retryable(e) {
            Some(wait_before_retry(e))
        } else {
            None
        },
    }
}

/// The outcome of the second try of a request.
pub open spec fn second_outcome(
    url: Seq<char>,
    outcome: Result<Seq<char>, ErrorModel>,
) -> Result<Seq<char>, ErrorModel> {
    match outcome {
        Ok(body) => Ok(body),
        Err(_) => Err(ErrorModel::RateLimited { url }),
    }
}

/// A request is made a second time exactly where the first try met a rate limit,
/// and then after no more than a minute. What comes second is the outcome, and
/// whatever fails then is a rate limit.
pub proof fn law_requests_are_tried_twice_at_most(
    url: Seq<char>,
    body: Seq<char>,
    e: ErrorModel,
)
    ensures
        again_after(Ok(body)) is None,
        again_after(Err(e)) is Some <==> (e matches ErrorModel::HttpStatus { status, .. }
            && status == 429),
        again_after(Err(e)) matches Some(seconds) ==> seconds <= 60 && seconds
            == wait_before_retry(e),
        second_outcome(url, Ok(body)) == Ok::<Seq<char>, ErrorModel>(body),
        second_outcome(url, Err(e)) == Err::<Seq<char>, ErrorModel>(
            ErrorModel::RateLimited { url },
        ),
{
}

/// What follows the first try of a request.
#[derive(Debug)]
pub enum FirstTry {
    Done(Result<String, RdtError>),
    Again { seconds: u64 },
}

/// Decides after the first try of a request: a rate limit is waited for, and
/// anything else is the outcome.
pub fn after_first_try(outcome: Result<String, RdtError>) -> (r: FirstTry)
    ensures
        match r {
            FirstTry::Done(done) => error::outcome(done) == error::outcome(outcome) && !(outcome
                is Err && retryable(outcome->Err_0@)),
            FirstTry::Again { seconds } => outcome is Err && retryable(outcome->Err_0@) && seconds
                == wait_before_retry(outcome->Err_0@),
        },
        match r {
            FirstTry::Done(done) => error::outcome(done) == error::outcome(outcome)
                && again_after(error::outcome(outcome)) is None,
            FirstTry::Again { seconds } => again_after(error::outcome(outcome)) == Some(
                seconds as nat,
            ),
        },
{
    match outcome {
        Ok(body) => FirstTry::Done(Ok(body)),
        Err(e) => {
            if is_retryable_rate_limit(&e) {
                FirstTry::Again { seconds: retry_seconds(&e) }
            } else {
                FirstTry::Done(Err(e))
            }
        },
    }
}

/// The outcome of the second try: whatever fails then is reported as a rate
/// limit.
pub fn after_second_try(url: &str, outcome: Result<String, RdtError>) -> (r: Result<
    String,
    RdtError,
>)
    ensures
        match outcome {
            Ok(body) => r is Ok && r->Ok_0@ == body@,
            Err(_) => r is Err && r->Err_0@ == (ErrorModel::RateLimited { url: url@ }),
        },
        error::outcome(r) == second_outcome(url@, error::outcome(outcome)),
{
    match outcome {
        Ok(body) => Ok(body),
        Err(_) => Err(RdtError::RateLimited { url: url.to_owned() }),
    }
}

// ---------------------------------------------------------------------------
// Pacing
// ---------------------------------------------------------------------------

/// A delay varied by a moment in time, from seven to thirteen tenths of it.
pub open spec fn varied(delay_ms: u64, nanos: u32) -> nat {
    let product = delay_ms as nat * (70 + nanos as nat % 61);
    (if product <= u64::MAX as nat {
        product
    } else {
        u64::MAX as nat
    }) / 100
}

/// Varies a delay by a moment in time.
pub fn jitter(delay_ms: u64, nanos: u32) -> (r: u64)
    ensures
        r == varied(delay_ms, nanos),
{
    let pct: u64 = 70 + (nanos % 61) as u64;
    assert(delay_ms * pct <= u64::MAX * 130) by (nonlinear_arith)
        requires
            pct <= 130,
    ;
    let product: u128 = (delay_ms as u128) * (pct as u128);
    assert(product == delay_ms as nat * (70 + nanos as nat % 61)) by (nonlinear_arith)
        requires
            product == delay_ms * pct,
            pct == 70 + nanos % 61,
    ;
    let limited: u64 = if product <= u64::MAX as u128 {
        product as u64
    } else {
        u64::MAX
    };
    limited / 100
}

/// A varied delay is at least seven tenths and at most thirteen tenths of the
/// delay, unless the product is beyond what is counted.
pub proof fn law_jitter_stays_near_the_delay(delay_ms: u64, nanos: u32)
    requires
        delay_ms as nat * 130 <= u64::MAX,
    ensures
        delay_ms * 70 / 100 <= varied(delay_ms, nanos) <= delay_ms * 130 / 100,
{
    let pct = 70 + nanos as nat % 61;
    assert(delay_ms * 70 <= delay_ms as nat * pct <= delay_ms * 130) by (nonlinear_arith)
        requires
            70 <= pct <= 130,
    ;
}

// ---------------------------------------------------------------------------
// The client
// ---------------------------------------------------------------------------

/// How requests are made.
pub struct RedditClient {
    cookie: Option<String>,
    force_anon: bool,
    force_rss: bool,
    fresh: bool,
    request_delay_ms: u64,
    cache_ttl_secs: u64,
}

/// What a [`RedditClient`] holds.
pub struct ClientModel {
    pub cookie: Option<Seq<char>>,
    pub force_anon: bool,
    pub force_rss: bool,
    pub fresh: bool,
    pub request_delay_ms: u64,
    pub cache_ttl_secs: u64,
}

impl View for RedditClient {
    type V = ClientModel;

    closed spec fn view(&self) -> ClientModel {
        ClientModel {
            cookie: text::opt(self.cookie),
            force_anon: self.force_anon,
            force_rss: self.force_rss,
            fresh: self.fresh,
            request_delay_ms: self.request_delay_ms,
            cache_ttl_secs: self.cache_ttl_secs,
        }
    }
}

/// The cookie header for a configured cookie: as it is where it names the
/// session, else with the name in front.
pub open spec fn session_header(cookie: Seq<char>) -> Seq<char> {
    if text::contains(cookie, "reddit_session="@) {
        cookie
    } else {
        "reddit_session="@ + cookie
    }
}

/// The cookie header for a configured cookie.
pub fn cookie_header(cookie: &str) -> (r: String)
    ensures
        r@ == session_header(cookie@),
{
    if text::str_contains(cookie, "reddit_session=") {
        cookie.to_owned()
    } else {
        let mut out = "reddit_session=".to_owned();
        out.push_str(cookie);
        out
    }
}

/// What is accepted as a feed.
pub const ACCEPT_FEED: &'static str =
    "application/atom+xml, application/rss+xml, text/xml;q=0.9, */*;q=0.8";

/// What is accepted as JSON.
pub const ACCEPT_JSON: &'static str = "application/json, text/plain;q=0.9, */*;q=0.8";

/// The headers of a request.
#[derive(Debug)]
pub struct Headers {
    pub accept: &'static str,
    pub cookie: Option<String>,
    pub no_cache: bool,
}

impl ClientModel {
    /// The cookie header of a request. Feeds and anonymous requests have none.
    pub open spec fn cookie_sent(self, rss: bool) -> Option<Seq<char>> {
        if rss || self.force_anon {
            None
        } else {
            match self.cookie {
                Some(cookie) => Some(session_header(cookie)),
                None => None,
            }
        }
    }
}

impl ClientModel {
    /// A client with the settings of a run.
    pub open spec fn of(config: ConfigModel, cli: Cli) -> ClientModel {
        ClientModel {
            cookie: if cli.anon {
                None
            } else {
                config.cookie
            },
            force_anon: cli.anon,
            force_rss: cli.rss,
            fresh: cli.fresh,
            request_delay_ms: match config.request_delay_ms {
                Some(ms) => ms,
                None => 1000,
            },
            cache_ttl_secs: match config.cache_ttl_secs {
                Some(seconds) => seconds,
                None => 300,
            },
        }
    }

    /// The milliseconds to wait before a request, where there is a delay.
    pub open spec fn paced(self, nanos: u32) -> Option<nat> {
        if self.request_delay_ms == 0 {
            None
        } else {
            Some(varied(self.request_delay_ms, nanos))
        }
    }
}

/// A client goes by its settings. It has no cookie where it is anonymous, waits a
/// second before a request and keeps answers for five minutes unless told
/// otherwise, and does not wait at all where the delay is nothing.
pub proof fn law_clients_go_by_their_settings(
    config: ConfigModel,
    cli: Cli,
    nanos: u32,
)
    ensures
        ({
            let client = ClientModel::of(config, cli);
            &&& cli.anon ==> client.cookie is None && client.cookie_sent(false) is None
            &&& !cli.anon ==> client.cookie == config.cookie
            &&& client.force_rss == cli.rss
            &&& client.fresh == cli.fresh
            &&& client.force_anon == cli.anon
            &&& config.request_delay_ms matches Some(ms) ==> client.request_delay_ms == ms
            &&& config.request_delay_ms is None ==> client.request_delay_ms == 1000
            &&& config.cache_ttl_secs matches Some(seconds) ==> client.cache_ttl_secs == seconds
            &&& config.cache_ttl_secs is None ==> client.cache_ttl_secs == 300
            &&& config.request_delay_ms == Some(0u64) ==> client.paced(nanos) is None
            &&& config.request_delay_ms != Some(0u64) ==> client.paced(nanos) == Some(
                varied(client.request_delay_ms, nanos),
            )
        }),
{
}

impl RedditClient {
    /// A client with the settings of a run. An anonymous one has no cookie.
    pub fn new(config: &Config, cli: &Cli) -> (r: RedditClient)
        ensures
            r@ == (ClientModel {
                cookie: if cli.anon {
                    None
                } else {
                    config@.cookie
                },
                force_anon: cli.anon,
                force_rss: cli.rss,
                fresh: cli.fresh,
                request_delay_ms: match config@.request_delay_ms {
                    Some(ms) => ms,
                    None => 1000,
                },
                cache_ttl_secs: match config@.cache_ttl_secs {
                    Some(seconds) => seconds,
                    None => 300,
                },
            }),
            forall|rss: bool| cli.anon ==> (#[trigger] r@.cookie_sent(rss)) is None,
            r@ == ClientModel::of(config@, *cli),
    {
        RedditClient {
            cookie: if cli.anon {
                None
            } else {
                model::copy_opt(&config.cookie)
            },
            force_anon: cli.anon,
            force_rss: cli.rss,
            fresh: cli.fresh,
            request_delay_ms: match config.request_delay_ms {
                Some(ms) => ms,
                None => 1000,
            },
            cache_ttl_secs: match config.cache_ttl_secs {
                Some(seconds) => seconds,
                None => 300,
            },
        }
    }

    /// Whether feeds are asked for in place of JSON.
    pub fn forces_rss(&self) -> (r: bool)
        ensures
            r == self@.force_rss,
    {
        self.force_rss
    }

    /// Whether there is a cookie to send.
    pub fn has_cookie(&self) -> (r: bool)
        ensures
            r == (self@.cookie is Some),
    {
        self.cookie.is_some()
    }

    /// Whether every answer is to be a new one.
    pub fn asks_anew(&self) -> (r: bool)
        ensures
            r == self@.fresh,
    {
        self.fresh
    }

    /// The seconds for which a kept answer is good.
    pub fn cache_ttl_secs(&self) -> (r: u64)
        ensures
            r == self@.cache_ttl_secs,
    {
        self.cache_ttl_secs
    }

    /// The headers of a request.
    pub fn headers(&self, rss: bool) -> (r: Headers)
        ensures
            r.accept@ == (if rss {
                ACCEPT_FEED@
            } else {
                ACCEPT_JSON@
            }),
            text::opt(r.cookie) == self@.cookie_sent(rss),
            r.no_cache == self@.fresh,
    {
        Headers {
            accept: if rss {
                ACCEPT_FEED
            } else {
                ACCEPT_JSON
            },
            cookie: if rss || self.force_anon {
                None
            } else {
                match &self.cookie {
                    Some(cookie) => Some(cookie_header(cookie.as_str())),
                    None => None,
                }
            },
            no_cache: self.fresh,
        }
    }

    /// The milliseconds to wait before a request, at a moment in time.
    pub fn pace(&self, nanos: u32) -> (r: Option<u64>)
        ensures
            match r {
                Some(ms) => self@.request_delay_ms != 0 && ms == varied(
                    self@.request_delay_ms,
                    nanos,
                ),
                None => self@.request_delay_ms == 0,
            },
            self@.paced(nanos) == match r {
                Some(ms) => Some(ms as nat),
                None => None,
            },
    {
        if self.request_delay_ms == 0 {
            None
        } else {
            Some(jitter(self.request_delay_ms, nanos))
        }
    }
}

/// An answer is the body exactly where its status tells of success. The site
/// blocks the reader exactly where access is forbidden by a page that says so,
/// in whatever case. Any other answer fails with its status and the first part
/// of the body.
pub proof fn law_answers_go_by_their_status(
    status: u16,
    retry_after: Option<Seq<char>>,
    url: Seq<char>,
    body: Seq<char>,
)
    ensures
        ({
            let r = answer(status, retry_after, url, body);
            let lower = body.map_values(|c: char| text::lower(c));
            let blocked = text::contains(lower, "<html"@) && text::contains(lower, "blocked"@)
                && text::contains(lower, "reddit"@);
            &&& r is Ok <==> 200 <= status <= 299
            &&& r matches Ok(found) ==> found == body
            &&& r == Err::<Seq<char>, ErrorModel>(ErrorModel::EdgeBlocked) <==> status == 403
                && blocked
            &&& r matches Err(e) ==> e is EdgeBlocked || e is HttpStatus
            &&& r matches Err(ErrorModel::HttpStatus { status: told, url: place, body: quote })
                ==> {
                &&& told == status
                &&& quote.is_prefix_of(body)
                &&& quote.len() == 240 || (quote.len() < 240 && quote == body)
                &&& status != 429 ==> place == url
                &&& status == 429 ==> url.is_prefix_of(place)
            }
        }),
{
    let front = excerpt(body);
    assert(body.subrange(0, front.len() as int) =~= front);
    let place = url + " retry_after="@ + number::decimal(wait_asked(retry_after));
    assert(place.subrange(0, url.len() as int) =~= url);
}

/// A rate-limited request waits for the seconds that the site tells, up to a
/// minute, and for one second where it tells none. Only such a request is made
/// once more.
pub proof fn law_retries_wait_for_the_told_seconds(
    n: nat,
    url: Seq<char>,
    body: Seq<char>,
    e: ErrorModel,
)
    requires
        n <= u64::MAX,
    ensures
        answer(429, Some(number::decimal(n)), url, body) matches Err(limited) && retryable(limited)
            && wait_before_retry(limited) == if n <= 60 {
            n
        } else {
            60
        },
        answer(429, None, url, body) matches Err(limited) && retryable(limited)
            && wait_before_retry(limited) == 1,
        retryable(e) <==> (e matches ErrorModel::HttpStatus { status, .. } && status == 429),
        wait_before_retry(e) <= 60,
{
    number::law_unsigned_round_trip(n, u64::MAX as nat);
    law_retry_waits_as_asked(Some(number::decimal(n)), url, body);
    law_retry_waits_as_asked(None, url, body);
}

/// A delay varies from seven tenths to thirteen tenths of it, by hundredths, and
/// is itself in the middle.
pub proof fn law_jitter_is_spread_over_the_delay(delay_ms: u64, nanos: u32)
    requires
        delay_ms as nat * 130 <= u64::MAX,
    ensures
        nanos % 61 == 0 ==> varied(delay_ms, nanos) == delay_ms * 70 / 100,
        nanos % 61 == 30 ==> varied(delay_ms, nanos) == delay_ms,
        nanos % 61 == 60 ==> varied(delay_ms, nanos) == delay_ms * 130 / 100,
        nanos as nat + 1 <= u32::MAX && nanos % 61 < 60 ==> varied(delay_ms, nanos) <= varied(
            delay_ms,
            (nanos + 1) as u32,
        ),
{
    let pct = 70 + nanos as nat % 61;
    assert(delay_ms as nat * pct <= delay_ms as nat * 130) by (nonlinear_arith)
        requires
            pct <= 130,
    ;
    if nanos % 61 == 30 {
        assert(pct == 100);
        assert(delay_ms as nat * pct / 100 == delay_ms) by (nonlinear_arith)
            requires
                pct == 100,
        ;
    }
    if nanos as nat + 1 <= u32::MAX && nanos % 61 < 60 {
        let later = 70 + (nanos + 1) as nat % 61;
        assert(later == pct + 1);
        assert(delay_ms as nat * later == delay_ms as nat * pct + delay_ms as nat)
            by (nonlinear_arith)
            requires
                later == pct + 1,
        ;
        assert(delay_ms as nat * later <= delay_ms as nat * 130) by (nonlinear_arith)
            requires
                later <= 130,
        ;
    }
}

/// A cookie is sent with a request for JSON and never with one for a feed nor
/// anonymously. It names the session, and is otherwise as it was configured.
pub proof fn law_cookies_are_sent_with_json_only(client: ClientModel, rss: bool)
    ensures
        rss || client.force_anon || client.cookie is None ==> client.cookie_sent(rss) is None,
        !rss && !client.force_anon ==> (client.cookie matches Some(cookie) ==> {
            &&& client.cookie_sent(rss) matches Some(sent)
            &&& text::contains(sent, "reddit_session="@)
            &&& text::contains(cookie, "reddit_session="@) ==> sent == cookie
            &&& !text::contains(cookie, "reddit_session="@) ==> sent == "reddit_session="@ + cookie
        }),
{
    if let Some(cookie) = client.cookie {
        let named = "reddit_session="@ + cookie;
        assert(named.subrange(0, "reddit_session="@.len() as int) =~= "reddit_session="@);
        assert(text::occurs_at(named, "reddit_session="@, 0));
    }
}

} // verus!
