//! Kept answers: under which names they are kept, and when one takes the
//! place of a request.
use vstd::prelude::*;
use vstd::utf8;

use crate::config::{Directory, Location, LocationModel};
use crate::error::RdtError;
use crate::text;
use crate::transport::{ClientModel, RedditClient};

verus! {

// ---------------------------------------------------------------------------
// Fingerprints
// ---------------------------------------------------------------------------

/// The SHA-256 digest of bytes.
pub uninterp spec fn sha256(data: Seq<u8>) -> Seq<u8>;

/// Calls `sha2::Sha256::digest`: the same bytes have the same digest each time,
/// and a digest is 32 bytes long.
#[verifier::external_body]
fn digest(data: &[u8]) -> (r: Vec<u8>)
    ensures
        r@ == sha256(data@),
        r@.len() == 32,
{
    <sha2::Sha256 as sha2::Digest>::digest(data).to_vec()
}

/// A hexadecimal digit, in lower case.
pub open spec fn hex_digit(n: u8) -> char {
    if n < 10 {
        (0x30 + n) as char
    } else {
        (0x57 + n) as char
    }
}

/// The characters of hexadecimal notation in lower case.
pub open spec fn hexadecimal(c: char) -> bool {
    text::digit(c) || 'a' <= c <= 'f'
}

/// Bytes in hexadecimal notation, two digits for each.
pub open spec fn hex(bytes: Seq<u8>) -> Seq<char>
    decreases bytes.len(),
{
    if bytes.len() == 0 {
        Seq::empty()
    } else {
        hex(bytes.drop_last()) + seq![hex_digit(bytes.last() / 16), hex_digit(bytes.last() % 16)]
    }
}

fn hex_char(n: u8) -> (r: char)
    requires
        n < 16,
    ensures
        r == hex_digit(n),
{
    if n < 10 {
        (0x30u8 + n) as char
    } else {
        (0x57u8 + n) as char
    }
}

fn hex_text(bytes: &[u8]) -> (r: String)
    ensures
        r@ == hex(bytes@),
{
    let mut out = String::new();
    let mut i: usize = 0;
    assert(bytes@.take(0) =~= Seq::empty());
    while i < bytes.len()
        invariant
            i <= bytes@.len(),
            out@ == hex(bytes@.take(i as int)),
        decreases bytes@.len() - i,
    {
        let b: u8 = bytes[i];
        let ghost had = out@;
        out.push(hex_char(b / 16));
        out.push(hex_char(b % 16));
        proof {
            let front = bytes@.take(i + 1);
            assert(front.drop_last() =~= bytes@.take(i as int));
            assert(front.last() == b);
            assert(out@ =~= had + seq![hex_digit(b / 16), hex_digit(b % 16)]);
        }
        i = i + 1;
    }
    assert(bytes@.take(bytes@.len() as int) =~= bytes@);
    out
}

proof fn lemma_hex_shape(bytes: Seq<u8>)
    ensures
        hex(bytes).len() == 2 * bytes.len(),
        forall|i: int| 0 <= i < hex(bytes).len() ==> hexadecimal(#[trigger] hex(bytes)[i]),
    decreases bytes.len(),
{
    if bytes.len() > 0 {
        let front = hex(bytes.drop_last());
        let whole = hex(bytes);
        lemma_hex_shape(bytes.drop_last());
        assert forall|i: int| 0 <= i < whole.len() implies hexadecimal(#[trigger] whole[i]) by {
            if i < front.len() {
                assert(whole[i] == front[i]);
            }
        }
    }
}

proof fn lemma_hex_injective(a: Seq<u8>, b: Seq<u8>)
    requires
        hex(a) == hex(b),
    ensures
        a == b,
    decreases a.len(),
{
    lemma_hex_shape(a);
    lemma_hex_shape(b);
    if a.len() == 0 {
        assert(a =~= b);
    } else {
        let s = hex(a);
        let n = s.len() as int;
        let x = a.last();
        let y = b.last();
        assert(s[n - 2] == hex_digit(x / 16) && s[n - 2] == hex_digit(y / 16));
        assert(s[n - 1] == hex_digit(x % 16) && s[n - 1] == hex_digit(y % 16));
        assert(x == 16 * (x / 16) + x % 16);
        assert(y == 16 * (y / 16) + y % 16);
        assert(hex(a.drop_last()) =~= s.take(n - 2));
        assert(hex(b.drop_last()) =~= s.take(n - 2));
        lemma_hex_injective(a.drop_last(), b.drop_last());
        assert(a =~= a.drop_last().push(x));
        assert(b =~= b.drop_last().push(y));
    }
}

/// The fingerprint of a text: the digest of its UTF-8 form, in hexadecimal
/// notation.
pub open spec fn fingerprint(s: Seq<char>) -> Seq<char> {
    hex(sha256(utf8::encode_utf8(s)))
}

/// The fingerprint of a text.
pub fn fingerprint_of(s: &str) -> (r: String)
    ensures
        r@ == fingerprint(s@),
        r@.len() == 64,
        forall|i: int| 0 <= i < r@.len() ==> hexadecimal(#[trigger] r@[i]),
{
    let d = digest(s.as_bytes());
    proof {
        lemma_hex_shape(d@);
    }
    hex_text(&d)
}

// ---------------------------------------------------------------------------
// Names
// ---------------------------------------------------------------------------

/// Who asks: nobody in particular, or the reader whose cookie is sent.
pub open spec fn reader(cookie: Option<Seq<char>>) -> Seq<char> {
    match cookie {
        Some(header) => "cookie:"@ + fingerprint(header),
        None => "anonymous"@,
    }
}

/// What tells one answer from another: its form, who asked, and the URL.
pub open spec fn key(rss: bool, cookie: Option<Seq<char>>, url: Seq<char>) -> Seq<char> {
    (if rss {
        "rss"@
    } else {
        "json"@
    }) + "\n"@ + reader(cookie) + "\n"@ + url
}

/// The name under which an answer is kept.
pub open spec fn kept_name(rss: bool, cookie: Option<Seq<char>>, url: Seq<char>) -> Seq<char> {
    fingerprint(key(rss, cookie, url))
}

/// Where the answer with a name is kept.
pub fn cache_file(name: &str) -> (r: Location)
    ensures
        r@ == (LocationModel { directory: Directory::Cache, names: seq!["http"@, name@] }),
{
    let r = Location::of(Directory::Cache).join("http").join(name);
    assert(r@.names =~= seq!["http"@, name@]);
    r
}

proof fn lemma_first_line(a: Seq<char>, x: Seq<char>, b: Seq<char>, y: Seq<char>)
    requires
        text::free_of(a, '\n'),
        text::free_of(b, '\n'),
        a + seq!['\n'] + x == b + seq!['\n'] + y,
    ensures
        a == b,
        x == y,
{
    let s = a + seq!['\n'] + x;
    assert(s[a.len() as int] == '\n');
    assert(s[b.len() as int] == '\n');
    if a.len() < b.len() {
        assert(b[a.len() as int] == '\n');
    }
    if b.len() < a.len() {
        assert(a[b.len() as int] == '\n');
    }
    assert(a =~= s.take(a.len() as int));
    assert(b =~= s.take(a.len() as int));
    assert(x =~= s.skip(a.len() as int + 1));
    assert(y =~= s.skip(a.len() as int + 1));
}

proof fn lemma_reader_is_a_line(cookie: Option<Seq<char>>)
    ensures
        text::free_of(reader(cookie), '\n'),
{
    reveal_strlit("cookie:");
    reveal_strlit("anonymous");
    if let Some(header) = cookie {
        lemma_hex_shape(sha256(utf8::encode_utf8(header)));
        let s = reader(cookie);
        assert forall|i: int| 0 <= i < s.len() implies #[trigger] s[i] != '\n' by {
            if i >= 7 {
                assert(s[i] == fingerprint(header)[i - 7]);
            }
        }
    }
}

/// The digests of two texts are equal only where the texts are.
pub open spec fn told_apart(a: Seq<char>, b: Seq<char>) -> bool {
    sha256(utf8::encode_utf8(a)) == sha256(utf8::encode_utf8(b)) ==> a == b
}

/// Answers in different forms, for different readers or from different URLs
/// are kept under different names, as long as SHA-256 tells them and their
/// readers apart.
pub proof fn law_kept_answers_do_not_mix(
    rss: bool,
    cookie: Option<Seq<char>>,
    url: Seq<char>,
    other_rss: bool,
    other_cookie: Option<Seq<char>>,
    other_url: Seq<char>,
)
    requires
        told_apart(key(rss, cookie, url), key(other_rss, other_cookie, other_url)),
        cookie is Some && other_cookie is Some ==> told_apart(cookie->0, other_cookie->0),
        kept_name(rss, cookie, url) == kept_name(other_rss, other_cookie, other_url),
    ensures
        rss == other_rss,
        cookie == other_cookie,
        url == other_url,
{
    let a = key(rss, cookie, url);
    let b = key(other_rss, other_cookie, other_url);
    lemma_hex_injective(sha256(utf8::encode_utf8(a)), sha256(utf8::encode_utf8(b)));
    assert(a == b);
    reveal_strlit("rss");
    reveal_strlit("json");
    reveal_strlit("\n");
    reveal_strlit("cookie:");
    reveal_strlit("anonymous");
    let form = if rss {
        "rss"@
    } else {
        "json"@
    };
    let other_form = if other_rss {
        "rss"@
    } else {
        "json"@
    };
    let rest = reader(cookie) + seq!['\n'] + url;
    let other_rest = reader(other_cookie) + seq!['\n'] + other_url;
    assert("\n"@ =~= seq!['\n']);
    assert(a =~= form + seq!['\n'] + rest);
    assert(b =~= other_form + seq!['\n'] + other_rest);
    lemma_first_line(form, rest, other_form, other_rest);
    assert(form.len() == other_form.len());
    lemma_reader_is_a_line(cookie);
    lemma_reader_is_a_line(other_cookie);
    lemma_first_line(reader(cookie), url, reader(other_cookie), other_url);
    let who = reader(cookie);
    assert(who[0] == reader(other_cookie)[0]);
    match (cookie, other_cookie) {
        (Some(header), Some(other)) => {
            assert(fingerprint(header) =~= who.skip(7));
            assert(fingerprint(other) =~= who.skip(7));
            lemma_hex_injective(
                sha256(utf8::encode_utf8(header)),
                sha256(utf8::encode_utf8(other)),
            );
        },
        _ => {},
    }
}

// ---------------------------------------------------------------------------
// Using kept answers
// ---------------------------------------------------------------------------

/// An answer that was kept, with the second in which it was.
#[derive(Debug)]
pub struct KeptAnswer {
    pub body: String,
    pub stored_utc: u64,
}

/// What a [`KeptAnswer`] holds.
pub struct KeptModel {
    pub body: Seq<char>,
    pub stored_utc: u64,
}

impl View for KeptAnswer {
    type V = KeptModel;

    open spec fn view(&self) -> KeptModel {
        KeptModel { body: self.body@, stored_utc: self.stored_utc }
    }
}

/// What a kept answer holds, where there is one.
pub open spec fn kept_model(kept: Option<KeptAnswer>) -> Option<KeptModel> {
    match kept {
        Some(answer) => Some(answer@),
        None => None,
    }
}

impl ClientModel {
    /// The answer that takes the place of a request in a second: the one that
    /// was kept, while it is good and unless a new one is wanted. Requests that
    /// bypass the cache are always made.
    pub open spec fn recalled(
        self,
        cached: bool,
        now_utc: u64,
        kept: Option<KeptModel>,
    ) -> Option<Seq<char>> {
        match kept {
            Some(answer) => if cached && !self.fresh && answer.stored_utc <= now_utc && now_utc
                - answer.stored_utc < self.cache_ttl_secs {
                Some(answer.body)
            } else {
                None
            },
            None => None,
        }
    }
}

impl RedditClient {
    /// The name under which an answer is kept. It shows neither the URL nor the
    /// cookie.
    pub fn cache_name(&self, rss: bool, url: &str) -> (r: String)
        ensures
            r@ == kept_name(rss, self@.cookie_sent(rss), url@),
            r@.len() == 64,
            forall|i: int| 0 <= i < r@.len() ==> hexadecimal(#[trigger] r@[i]),
    {
        let headers = self.headers(rss);
        let mut input = if rss {
            "rss".to_owned()
        } else {
            "json".to_owned()
        };
        input.push_str("\n");
        match &headers.cookie {
            Some(header) => {
                let ghost form = input@;
                input.push_str("cookie:");
                input.push_str(fingerprint_of(header.as_str()).as_str());
                assert(input@ =~= form + reader(self@.cookie_sent(rss)));
            },
            None => {
                input.push_str("anonymous");
            },
        }
        input.push_str("\n");
        input.push_str(url);
        fingerprint_of(input.as_str())
    }

    /// The answer that takes the place of a request, if one does.
    pub fn recall(&self, cached: bool, now_utc: u64, kept: Option<KeptAnswer>) -> (r: Option<
        String,
    >)
        ensures
            text::opt(r) == self@.recalled(cached, now_utc, kept_model(kept)),
    {
        match kept {
            Some(answer) => {
                if cached && !self.asks_anew() && answer.stored_utc <= now_utc && now_utc
                    - answer.stored_utc < self.cache_ttl_secs() {
                    Some(answer.body)
                } else {
                    None
                }
            },
            None => None,
        }
    }
}

/// Whether the outcome of a request is kept: an answer is, a failure is not.
pub fn is_kept(cached: bool, outcome: &Result<String, RdtError>) -> (r: bool)
    ensures
        r == (cached && outcome is Ok),
{
    cached && outcome.is_ok()
}

/// A kept answer is given again until its time is over, and not after that.
pub proof fn law_kept_answers_expire(
    client: ClientModel,
    body: Seq<char>,
    stored_utc: u64,
    now_utc: u64,
)
    requires
        !client.fresh,
        stored_utc <= now_utc,
    ensures
        client.recalled(true, now_utc, Some(KeptModel { body, stored_utc })) == if now_utc
            - stored_utc < client.cache_ttl_secs {
            Some(body)
        } else {
            None::<Seq<char>>
        },
{
}

/// Whoever wants new answers is given no kept one, and neither is a request
/// that bypasses the cache.
pub proof fn law_bypassing_asks_the_site(
    client: ClientModel,
    cached: bool,
    now_utc: u64,
    kept: Option<KeptModel>,
)
    requires
        client.fresh || !cached,
    ensures
        client.recalled(cached, now_utc, kept) is None,
{
}

/// A kept answer is given again only as it was kept, and not where it is said to
/// be kept later than now.
pub proof fn law_kept_answers_are_given_as_they_are(
    client: ClientModel,
    cached: bool,
    now_utc: u64,
    kept: Option<KeptModel>,
)
    ensures
        client.recalled(cached, now_utc, kept) matches Some(body) ==> kept matches Some(answer)
            && answer.body == body && answer.stored_utc <= now_utc,
        kept is None ==> client.recalled(cached, now_utc, kept) is None,
        client.cache_ttl_secs == 0 ==> client.recalled(cached, now_utc, kept) is None,
{
}

} // verus!
