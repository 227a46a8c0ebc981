//! What can go wrong, and how it is reported.
use vstd::prelude::*;

use crate::number;
use crate::text;

verus! {

/// An error of the client.
#[derive(Debug)]
pub enum RdtError {
    /// Reddit answered with an HTML block page.
    EdgeBlocked,
    /// An operation needs a session cookie and none is configured.
    CookieMissing,
    /// Reddit answered with a status other than success.
    HttpStatus { status: u16, url: String, body: String },
    /// A request was rate limited and its retry failed too.
    RateLimited { url: String },
    /// A URL outside Reddit was refused.
    NonRedditUrl(String),
    /// Any other failure, in words.
    Message(String),
    /// A failure of what was being done, with the words of its cause.
    Caused { doing: String, cause: String },
}

/// The result of an operation of the client.
pub type RdtResult<T> = Result<T, RdtError>;

/// What an [`RdtError`] holds.
pub enum ErrorModel {
    EdgeBlocked,
    CookieMissing,
    HttpStatus { status: u16, url: Seq<char>, body: Seq<char> },
    RateLimited { url: Seq<char> },
    NonRedditUrl(Seq<char>),
    Message(Seq<char>),
    Caused { doing: Seq<char>, cause: Seq<char> },
}

impl View for RdtError {
    type V = ErrorModel;

    open spec fn view(&self) -> ErrorModel {
        match *self {
            RdtError::EdgeBlocked => ErrorModel::EdgeBlocked,
            RdtError::CookieMissing => ErrorModel::CookieMissing,
            RdtError::HttpStatus { status, url, body } => ErrorModel::HttpStatus {
                status,
                url: url@,
                body: body@,
            },
            RdtError::RateLimited { url } => ErrorModel::RateLimited { url: url@ },
            RdtError::NonRedditUrl(url) => ErrorModel::NonRedditUrl(url@),
            RdtError::Message(text) => ErrorModel::Message(text@),
            RdtError::Caused { doing, cause } => ErrorModel::Caused {
                doing: doing@,
                cause: cause@,
            },
        }
    }
}

impl ErrorModel {
    /// The words in which the error is reported.
    pub open spec fn message(self) -> Seq<char> {
        match self {
            ErrorModel::EdgeBlocked => EDGE_BLOCKED@,
            ErrorModel::CookieMissing => COOKIE_MISSING@,
            ErrorModel::HttpStatus { status, url, body } => "HTTP "@ + number::decimal(
                status as nat,
            ) + " from "@ + url + ": "@ + body,
            ErrorModel::RateLimited { url } => "rate limited by Reddit after retrying "@ + url,
            ErrorModel::NonRedditUrl(url) => "refusing non-Reddit URL: "@ + url,
            ErrorModel::Message(text) => text,
            ErrorModel::Caused { doing, .. } => doing,
        }
    }

    /// The words of the cause, where it is told beside the error.
    pub open spec fn cause(self) -> Option<Seq<char>> {
        match self {
            ErrorModel::Caused { cause, .. } => Some(cause),
            _ => None,
        }
    }
}

/// The report of an edge block.
pub const EDGE_BLOCKED: &'static str =
    "reddit edge block detected; try `rdt auth check`, configure RDT_COOKIE, or force `--rss` degraded mode";

/// The report of a missing cookie.
pub const COOKIE_MISSING: &'static str =
    "no reddit_session cookie configured; set RDT_COOKIE or cookie in config.toml";

/// What a result holds.
pub open spec fn outcome<T: View>(r: Result<T, RdtError>) -> Result<T::V, ErrorModel> {
    match r {
        Ok(v) => Ok(v@),
        Err(e) => Err(e@),
    }
}

impl RdtError {
    /// The error in words.
    pub fn message(&self) -> (r: String)
        ensures
            r@ == self@.message(),
    {
        let mut out = String::new();
        match self {
            RdtError::EdgeBlocked => {
                out.push_str(EDGE_BLOCKED);
            },
            RdtError::CookieMissing => {
                out.push_str(COOKIE_MISSING);
            },
            RdtError::HttpStatus { status, url, body } => {
                out.push_str("HTTP ");
                let code = number::u64_text(*status as u64);
                out.push_str(code.as_str());
                out.push_str(" from ");
                out.push_str(url.as_str());
                out.push_str(": ");
                out.push_str(body.as_str());
            },
            RdtError::RateLimited { url } => {
                out.push_str("rate limited by Reddit after retrying ");
                out.push_str(url.as_str());
            },
            RdtError::NonRedditUrl(url) => {
                out.push_str("refusing non-Reddit URL: ");
                out.push_str(url.as_str());
            },
            RdtError::Message(text) => {
                out.push_str(text.as_str());
            },
            RdtError::Caused { doing, .. } => {
                out.push_str(doing.as_str());
            },
        }
        assert(out@ =~= self@.message());
        out
    }

    /// The words of the cause, where it is told beside the error.
    pub fn cause(&self) -> (r: Option<&str>)
        ensures
            text::opt_str(r) == self@.cause(),
    {
        match self {
            RdtError::Caused { cause, .. } => Some(cause.as_str()),
            _ => None,
        }
    }

    /// An error that says `words`.
    pub fn say(words: &str) -> (r: RdtError)
        ensures
            r@ == ErrorModel::Message(words@),
    {
        RdtError::Message(words.to_owned())
    }

    /// An error that says `words` and then names `subject`.
    pub fn say_of(words: &str, subject: &str) -> (r: RdtError)
        ensures
            r@ == ErrorModel::Message(words@ + subject@),
    {
        let mut out = words.to_owned();
        out.push_str(subject);
        RdtError::Message(out)
    }
}

/// An error is reported with all that it tells: the status, the place and the
/// words of an answer, the place that limits, the address that is refused, and
/// any other message as it is.
pub proof fn law_errors_tell_what_they_hold(
    status: u16,
    url: Seq<char>,
    body: Seq<char>,
    words: Seq<char>,
    cause: Seq<char>,
)
    ensures
        (ErrorModel::HttpStatus { status, url, body }).message() == "HTTP "@ + number::decimal(
            status as nat,
        ) + " from "@ + url + ": "@ + body,
        url.is_suffix_of((ErrorModel::RateLimited { url }).message()),
        url.is_suffix_of(ErrorModel::NonRedditUrl(url).message()),
        ErrorModel::Message(words).message() == words,
        (ErrorModel::Caused { doing: words, cause }).message() == words,
        (ErrorModel::Caused { doing: words, cause }).cause() == Some(cause),
        ErrorModel::Message(words).cause() is None,
{
    let limited = "rate limited by Reddit after retrying "@ + url;
    assert(limited.subrange((limited.len() - url.len()) as int, limited.len() as int) =~= url);
    let refused = "refusing non-Reddit URL: "@ + url;
    assert(refused.subrange((refused.len() - url.len()) as int, refused.len() as int) =~= url);
}

} // verus!
