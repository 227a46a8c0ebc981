//! Web addresses: taking them apart, and writing queries.
use vstd::prelude::*;
use vstd::utf8;

use crate::error::{ErrorModel, RdtError};
use crate::text;

verus! {

// ---------------------------------------------------------------------------
// Taking addresses apart
// ---------------------------------------------------------------------------

/// A web address in its normal form, with its host and its path.
#[derive(Debug)]
pub struct WebAddress {
    pub text: String,
    pub host: Option<String>,
    pub path: String,
}

/// What a [`WebAddress`] holds.
pub struct AddressModel {
    pub text: Seq<char>,
    pub host: Option<Seq<char>>,
    pub path: Seq<char>,
}

impl View for WebAddress {
    type V = AddressModel;

    open spec fn view(&self) -> AddressModel {
        AddressModel { text: self.text@, host: text::opt(self.host), path: self.path@ }
    }
}

/// The text names the scheme of the web.
pub open spec fn has_scheme(input: Seq<char>) -> bool {
    "http://"@.is_prefix_of(input) || "https://"@.is_prefix_of(input)
}

/// The address that a text denotes to the `url` crate, or the words in which
/// it is refused.
pub uninterp spec fn address(input: Seq<char>) -> Result<AddressModel, Seq<char>>;

/// Calls `url::Url::parse`, and reads the address with `to_string`, `host_str`
/// and `path`. A text denotes the same address each time or is refused in the
/// same words, and the path of a web address begins with a slash.
#[verifier::external_body]
fn read_address(input: &str) -> (r: Result<WebAddress, String>)
    ensures
        match r {
            Ok(found) => address(input@) == Ok::<AddressModel, Seq<char>>(found@) && (has_scheme(
                input@,
            ) ==> found@.path.len() > 0 && found@.path[0] == '/'),
            Err(words) => address(input@) == Err::<AddressModel, Seq<char>>(words@),
        },
{
    match url::Url::parse(input) {
        Ok(found) => Ok(WebAddress {
            text: found.to_string(),
            host: found.host_str().map(str::to_owned),
            path: found.path().to_owned(),
        }),
        Err(refused) => Err(refused.to_string()),
    }
}

/// The outcome of reading an address.
pub open spec fn parsed(input: Seq<char>) -> Result<AddressModel, ErrorModel> {
    match address(input) {
        Ok(found) => Ok(found),
        Err(words) => Err(ErrorModel::Message(words)),
    }
}

/// Reads a web address. The path of one that names the scheme of the web
/// begins with a slash.
pub fn parse_address(input: &str) -> (r: Result<WebAddress, RdtError>)
    ensures
        match r {
            Ok(found) => parsed(input@) == Ok::<AddressModel, ErrorModel>(found@) && (has_scheme(
                input@,
            ) ==> found@.path.len() > 0 && found@.path[0] == '/'),
            Err(e) => parsed(input@) == Err::<AddressModel, ErrorModel>(e@),
        },
{
    match read_address(input) {
        Ok(found) => Ok(found),
        Err(words) => Err(RdtError::Message(words)),
    }
}

/// Whether a text names the scheme of the web.
pub fn names_scheme(input: &[char]) -> (r: bool)
    ensures
        r == has_scheme(input@),
{
    text::begins_with(input, &text::chars_of("http://")) || text::begins_with(
        input,
        &text::chars_of("https://"),
    )
}

// ---------------------------------------------------------------------------
// Percent-encoding
// ---------------------------------------------------------------------------

/// The bytes that stand for themselves in a query: ASCII letters and digits,
/// hyphen, dot, underscore and tilde.
pub open spec fn plain(b: u8) -> bool {
    ||| 0x30 <= b <= 0x39
    ||| 0x41 <= b <= 0x5a
    ||| 0x61 <= b <= 0x7a
    ||| b == 0x2d
    ||| b == 0x2e
    ||| b == 0x5f
    ||| b == 0x7e
}

/// A hexadecimal digit, in upper case.
pub open spec fn hex_digit(n: u8) -> char {
    if n < 10 {
        (0x30 + n) as char
    } else {
        (0x37 + n) as char
    }
}

/// A byte in a query: itself, or a percent sign and two hexadecimal digits.
pub open spec fn escaped(b: u8) -> Seq<char> {
    if plain(b) {
        seq![b as char]
    } else {
        seq!['%', hex_digit(b / 16), hex_digit(b % 16)]
    }
}

/// Bytes in a query.
pub open spec fn escaped_bytes(bytes: Seq<u8>) -> Seq<char>
    decreases bytes.len(),
{
    if bytes.len() == 0 {
        Seq::empty()
    } else {
        escaped_bytes(bytes.drop_last()) + escaped(bytes.last())
    }
}

/// A text in a query: its bytes in UTF-8.
pub open spec fn encoded(input: Seq<char>) -> Seq<char> {
    escaped_bytes(utf8::encode_utf8(input))
}

/// Calls `urlencoding::encode`, which keeps ASCII letters, digits, `-`, `.`,
/// `_` and `~` and writes every other byte of the UTF-8 form as a percent sign
/// with two upper-case hexadecimal digits.
#[verifier::external_body]
fn encode(input: &str) -> (r: String)
    ensures
        r@ == encoded(input@),
{
    urlencoding::encode(input).into_owned()
}

/// The characters that percent-encoding produces.
pub open spec fn harmless(c: char) -> bool {
    text::alphanumeric(c) || c == '-' || c == '.' || c == '_' || c == '~' || c == '%'
}

proof fn lemma_escaped_harmless(b: u8)
    ensures
        forall|i: int| 0 <= i < escaped(b).len() ==> harmless(#[trigger] escaped(b)[i]),
{
}

proof fn lemma_escaped_bytes_harmless(bytes: Seq<u8>)
    ensures
        forall|i: int|
            0 <= i < escaped_bytes(bytes).len() ==> harmless(#[trigger] escaped_bytes(bytes)[i]),
    decreases bytes.len(),
{
    if bytes.len() > 0 {
        let front = escaped_bytes(bytes.drop_last());
        let back = escaped(bytes.last());
        let all = escaped_bytes(bytes);
        lemma_escaped_bytes_harmless(bytes.drop_last());
        lemma_escaped_harmless(bytes.last());
        assert forall|i: int| 0 <= i < all.len() implies harmless(#[trigger] all[i]) by {
            if i < front.len() {
                assert(all[i] == front[i]);
            } else {
                assert(all[i] == back[i - front.len()]);
            }
        }
    }
}

/// An encoded text holds nothing that has a meaning in an address.
pub proof fn law_encoded_text_is_harmless(input: Seq<char>, i: int)
    requires
        0 <= i < encoded(input).len(),
    ensures
        harmless(encoded(input)[i]),
{
    lemma_escaped_bytes_harmless(utf8::encode_utf8(input));
}

proof fn lemma_escaped_last(bytes: Seq<u8>)
    requires
        bytes.len() > 0,
    ensures
        plain(bytes.last()) <==> !(escaped_bytes(bytes).len() >= 3 && escaped_bytes(
            bytes,
        )[escaped_bytes(bytes).len() - 3] == '%'),
        escaped_bytes(bytes).len() > 0,
    decreases bytes.len(),
{
    let s = escaped_bytes(bytes);
    let front = escaped_bytes(bytes.drop_last());
    if !plain(bytes.last()) {
        assert(s[s.len() - 3] == '%');
    } else if s.len() >= 3 {
        assert(s.len() == front.len() + 1);
        assert(s[s.len() - 3] == front[front.len() - 2]);
        let b = bytes.drop_last();
        let before = escaped_bytes(b.drop_last());
        if !plain(b.last()) {
            assert(front[front.len() - 2] == hex_digit(b.last() / 16));
        } else {
            assert(front.len() == before.len() + 1);
            assert(front[front.len() - 2] == before[before.len() - 1]);
            lemma_last_not_percent(b.drop_last());
        }
    }
}

proof fn lemma_last_not_percent(bytes: Seq<u8>)
    requires
        bytes.len() > 0,
    ensures
        escaped_bytes(bytes).len() > 0,
        escaped_bytes(bytes).last() != '%',
{
    let b = bytes.last();
    assert(escaped_bytes(bytes).last() == escaped(b).last());
}

proof fn lemma_hex_injective(a: u8, b: u8)
    requires
        hex_digit(a / 16) == hex_digit(b / 16),
        hex_digit(a % 16) == hex_digit(b % 16),
    ensures
        a == b,
{
    assert(a == 16 * (a / 16) + a % 16);
    assert(b == 16 * (b / 16) + b % 16);
}

proof fn lemma_escaped_bytes_injective(a: Seq<u8>, b: Seq<u8>)
    requires
        escaped_bytes(a) == escaped_bytes(b),
    ensures
        a == b,
    decreases a.len(),
{
    if a.len() == 0 {
        if b.len() > 0 {
            lemma_escaped_last(b);
        }
        assert(a =~= b);
    } else if b.len() == 0 {
        lemma_escaped_last(a);
    } else {
        lemma_escaped_last(a);
        lemma_escaped_last(b);
        let s = escaped_bytes(a);
        let fa = escaped_bytes(a.drop_last());
        let fb = escaped_bytes(b.drop_last());
        let n = s.len() as int;
        if plain(a.last()) {
            assert(s[n - 1] == a.last() as char);
            assert(s[n - 1] == b.last() as char);
            assert(fa =~= s.take(n - 1));
            assert(fb =~= s.take(n - 1));
        } else {
            assert(s[n - 2] == hex_digit(a.last() / 16));
            assert(s[n - 2] == hex_digit(b.last() / 16));
            assert(s[n - 1] == hex_digit(a.last() % 16));
            assert(s[n - 1] == hex_digit(b.last() % 16));
            lemma_hex_injective(a.last(), b.last());
            assert(fa =~= s.take(n - 3));
            assert(fb =~= s.take(n - 3));
        }
        lemma_escaped_bytes_injective(a.drop_last(), b.drop_last());
        assert(a =~= a.drop_last().push(a.last()));
        assert(b =~= b.drop_last().push(b.last()));
    }
}

/// Different texts are encoded differently.
pub proof fn law_encoding_is_injective(a: Seq<char>, b: Seq<char>)
    requires
        encoded(a) == encoded(b),
    ensures
        a == b,
{
    lemma_escaped_bytes_injective(utf8::encode_utf8(a), utf8::encode_utf8(b));
    utf8::encode_utf8_decode_utf8(a);
    utf8::encode_utf8_decode_utf8(b);
}

// ---------------------------------------------------------------------------
// Queries
// ---------------------------------------------------------------------------

/// The parameters of a request, by name.
pub open spec fn params_model(params: Seq<(String, String)>) -> Seq<(Seq<char>, Seq<char>)> {
    Seq::new(params.len(), |i: int| (params[i].0@, params[i].1@))
}

/// One parameter in a query.
pub open spec fn assignment(param: (Seq<char>, Seq<char>)) -> Seq<char> {
    encoded(param.0) + "="@ + encoded(param.1)
}

/// The parameters in a query.
pub open spec fn query(params: Seq<(Seq<char>, Seq<char>)>) -> Seq<char> {
    text::join(params.map_values(|p: (Seq<char>, Seq<char>)| assignment(p)), "&"@)
}

/// Writes a query.
pub fn write_query(params: &[(String, String)]) -> (r: String)
    ensures
        r@ == query(params_model(params@)),
{
    let ghost whole = params_model(params@).map_values(
        |p: (Seq<char>, Seq<char>)| assignment(p),
    );
    let mut parts: Vec<String> = Vec::new();
    let mut i: usize = 0;
    while i < params.len()
        invariant
            i <= params@.len(),
            parts@.len() == i,
            whole == params_model(params@).map_values(
                |p: (Seq<char>, Seq<char>)| assignment(p),
            ),
            forall|j: int| 0 <= j < i ==> (#[trigger] parts@[j])@ == whole[j],
        decreases params@.len() - i,
    {
        let mut part = encode(params[i].0.as_str());
        part.push_str("=");
        let value = encode(params[i].1.as_str());
        part.push_str(value.as_str());
        parts.push(part);
        i = i + 1;
    }
    assert(text::texts(parts@) =~= whole);
    text::joined(&parts, "&")
}

proof fn lemma_assignment_injective(a: (Seq<char>, Seq<char>), b: (Seq<char>, Seq<char>))
    requires
        assignment(a) == assignment(b),
    ensures
        a == b,
{
    reveal_strlit("=");
    let s = assignment(a);
    let ka = encoded(a.0);
    let kb = encoded(b.0);
    lemma_escaped_bytes_harmless(utf8::encode_utf8(a.0));
    lemma_escaped_bytes_harmless(utf8::encode_utf8(b.0));
    assert(s[ka.len() as int] == '=');
    assert(s[kb.len() as int] == '=');
    if ka.len() < kb.len() {
        assert(kb[ka.len() as int] == '=');
    }
    if kb.len() < ka.len() {
        assert(ka[kb.len() as int] == '=');
    }
    assert(ka =~= s.take(ka.len() as int));
    assert(kb =~= s.take(ka.len() as int));
    assert(encoded(a.1) =~= s.skip(ka.len() as int + 1));
    assert(encoded(b.1) =~= s.skip(ka.len() as int + 1));
    law_encoding_is_injective(a.0, b.0);
    law_encoding_is_injective(a.1, b.1);
}

proof fn lemma_assignment_free(p: (Seq<char>, Seq<char>))
    ensures
        text::free_of(assignment(p), '&'),
{
    reveal_strlit("=");
    lemma_escaped_bytes_harmless(utf8::encode_utf8(p.0));
    lemma_escaped_bytes_harmless(utf8::encode_utf8(p.1));
    let s = assignment(p);
    let k = encoded(p.0).len() as int;
    assert forall|i: int| 0 <= i < s.len() implies #[trigger] s[i] != '&' by {
        if i < k {
            assert(s[i] == encoded(p.0)[i]);
        } else if i > k {
            assert(s[i] == encoded(p.1)[i - k - 1]);
        }
    }
}

/// A query says exactly which parameters it was written from.
pub proof fn law_query_keeps_the_parameters(
    a: Seq<(Seq<char>, Seq<char>)>,
    b: Seq<(Seq<char>, Seq<char>)>,
)
    requires
        a.len() > 0,
        b.len() > 0,
        query(a) == query(b),
    ensures
        a == b,
{
    reveal_strlit("&");
    let pa = a.map_values(|p: (Seq<char>, Seq<char>)| assignment(p));
    let pb = b.map_values(|p: (Seq<char>, Seq<char>)| assignment(p));
    assert("&"@ =~= seq!['&']);
    assert forall|i: int| 0 <= i < pa.len() implies text::free_of(#[trigger] pa[i], '&') by {
        lemma_assignment_free(a[i]);
    }
    assert forall|i: int| 0 <= i < pb.len() implies text::free_of(#[trigger] pb[i], '&') by {
        lemma_assignment_free(b[i]);
    }
    text::law_split_undoes_join(pa, '&');
    text::law_split_undoes_join(pb, '&');
    assert(pa == pb);
    assert forall|i: int| 0 <= i < a.len() implies a[i] == b[i] by {
        assert(pa[i] == assignment(a[i]));
        assert(pb[i] == assignment(b[i]));
        lemma_assignment_injective(a[i], b[i]);
    }
    assert(a =~= b);
}

/// A query holds its parameters one after another, each as its name, an equals
/// sign and its value, both encoded.
pub proof fn law_queries_list_their_parameters(params: Seq<(Seq<char>, Seq<char>)>)
    requires
        params.len() > 0,
    ensures
        text::split(query(params), '&').len() == params.len(),
        forall|i: int|
            0 <= i < params.len() ==> #[trigger] text::split(query(params), '&')[i] == encoded(
                params[i].0,
            ) + "="@ + encoded(params[i].1),
{
    reveal_strlit("&");
    let parts = params.map_values(|p: (Seq<char>, Seq<char>)| assignment(p));
    assert forall|i: int| 0 <= i < parts.len() implies text::free_of(#[trigger] parts[i], '&') by {
        lemma_assignment_free(params[i]);
    }
    assert("&"@ =~= seq!['&']);
    text::law_split_undoes_join(parts, '&');
}

} // verus!
