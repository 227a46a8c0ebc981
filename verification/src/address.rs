//! Where on Reddit things are: names, targets, paths and the URLs of requests.
use vstd::prelude::*;

use crate::error;
use crate::error::{ErrorModel, RdtError};
use crate::text;
use crate::web;
use crate::web::{AddressModel, WebAddress};

verus! {

/// The site that requests go to.
pub const BASE: &'static str = "https://www.reddit.com";

// ---------------------------------------------------------------------------
// Names
// ---------------------------------------------------------------------------

/// A name is made of ASCII letters, digits, underscores and, where `hyphen`
/// says so, hyphens, and has from `least` to `most` of them.
pub open spec fn name_ok(name: Seq<char>, least: nat, most: nat, hyphen: bool) -> bool {
    &&& least <= name.len() <= most
    &&& forall|i: int|
        0 <= i < name.len() ==> text::alphanumeric(#[trigger] name[i]) || name[i] == '_' || (hyphen
            && name[i] == '-')
}

/// A subreddit name without white space around it and without `r/` in front.
pub open spec fn bare_subreddit(input: Seq<char>) -> Seq<char> {
    text::strip_front(text::strip_front(text::trim(input), "r/"@), "/r/"@)
}

/// A user name without white space around it and without `u/` in front.
pub open spec fn bare_user(input: Seq<char>) -> Seq<char> {
    text::strip_front(text::strip_front(text::trim(input), "u/"@), "/u/"@)
}

/// The subreddit that a text names.
pub open spec fn named_subreddit(input: Seq<char>) -> Result<Seq<char>, ErrorModel> {
    let name = bare_subreddit(input);
    if name_ok(name, 2, 21, false) {
        Ok(name)
    } else {
        Err(ErrorModel::Message("invalid subreddit name: "@ + input))
    }
}

/// The user that a text names.
pub open spec fn named_user(input: Seq<char>) -> Result<Seq<char>, ErrorModel> {
    let name = bare_user(input);
    if name_ok(name, 3, 20, true) {
        Ok(name)
    } else {
        Err(ErrorModel::Message("invalid Reddit username: "@ + input))
    }
}

fn is_name(name: &[char], least: usize, most: usize, hyphen: bool) -> (r: bool)
    ensures
        r == name_ok(name@, least as nat, most as nat, hyphen),
{
    if name.len() < least || name.len() > most {
        return false;
    }
    let mut i: usize = 0;
    while i < name.len()
        invariant
            i <= name@.len(),
            forall|j: int|
                0 <= j < i ==> text::alphanumeric(#[trigger] name@[j]) || name@[j] == '_' || (hyphen
                    && name@[j] == '-'),
        decreases name@.len() - i,
    {
        let c: char = name[i];
        if !(text::is_alphanumeric(c) || c == '_' || (hyphen && c == '-')) {
            assert(name@[i as int] == c);
            return false;
        }
        i = i + 1;
    }
    true
}

/// Removes what may stand around a subreddit name.
pub fn clean_subreddit(input: &str) -> (r: String)
    ensures
        r@ == bare_subreddit(input@),
{
    let chars = text::chars_of(input);
    let name = text::cut_front(
        text::cut_front(text::trimmed(&chars), &text::chars_of("r/")),
        &text::chars_of("/r/"),
    );
    text::string_of(name)
}

/// The subreddit that a text names.
pub fn subreddit_segment(input: &str) -> (r: Result<String, RdtError>)
    ensures
        error::outcome(r) == named_subreddit(input@),
{
    let name = clean_subreddit(input);
    if is_name(&text::chars_of(name.as_str()), 2, 21, false) {
        Ok(name)
    } else {
        Err(RdtError::say_of("invalid subreddit name: ", input))
    }
}

/// The user that a text names.
pub fn user_segment(input: &str) -> (r: Result<String, RdtError>)
    ensures
        error::outcome(r) == named_user(input@),
{
    let chars = text::chars_of(input);
    let name = text::cut_front(
        text::cut_front(text::trimmed(&chars), &text::chars_of("u/")),
        &text::chars_of("/u/"),
    );
    if is_name(name, 3, 20, true) {
        Ok(text::string_of(name))
    } else {
        Err(RdtError::say_of("invalid Reddit username: ", input))
    }
}

/// The listing of a subreddit that can be captured.
pub fn listing_segment(input: &str) -> (r: Result<&str, RdtError>)
    ensures
        match r {
            Ok(name) => name@ == input@ && (input@ == "new"@ || input@ == "comments"@),
            Err(e) => input@ != "new"@ && input@ != "comments"@ && e@ == ErrorModel::Message(
                "invalid listing for sync: "@ + input@,
            ),
        },
{
    if text::same_text(input, "new") || text::same_text(input, "comments") {
        Ok(input)
    } else {
        Err(RdtError::say_of("invalid listing for sync: ", input))
    }
}

/// A text that looks like the id of a post or comment.
pub open spec fn base36(input: Seq<char>) -> bool {
    4 <= input.len() <= 12 && text::all_alphanumeric(input)
}

fn is_base36(input: &[char]) -> (r: bool)
    ensures
        r == base36(input@),
{
    input.len() >= 4 && input.len() <= 12 && text::is_all_alphanumeric(input)
}

/// Whether a text looks like the id of a post or comment.
pub fn is_probable_base36_id(input: &str) -> (r: bool)
    ensures
        r == base36(input@),
{
    is_base36(&text::chars_of(input))
}

/// A full name: the kind of the thing, an underscore and its id.
pub open spec fn full_name_ok(input: Seq<char>) -> bool {
    match text::find(input, seq!['_']) {
        Some(i) => {
            let kind = input.take(i);
            &&& kind == "t1"@ || kind == "t2"@ || kind == "t3"@ || kind == "t5"@
            &&& base36(input.skip(i + 1))
        },
        None => false,
    }
}

/// Refuses what is not a full name.
pub fn validate_fullname(input: &str) -> (r: Result<(), RdtError>)
    ensures
        match r {
            Ok(_) => full_name_ok(input@),
            Err(e) => !full_name_ok(input@) && e@ == ErrorModel::Message(
                "invalid Reddit fullname: "@ + input@,
            ),
        },
{
    let chars = text::chars_of(input);
    let sep: Vec<char> = vec!['_'];
    assert(sep@ =~= seq!['_']);
    match text::position(&chars, &sep) {
        Some(i) => {
            let before = &chars[0..i];
            assert(before@ =~= input@.take(i as int));
            let kind = text::string_of(before);
            let total: usize = chars.len();
            let id = &chars[i + 1..total];
            assert(id@ =~= input@.skip(i + 1));
            let k = kind.as_str();
            let known = text::same_text(k, "t1") || text::same_text(k, "t2") || text::same_text(
                k,
                "t3",
            ) || text::same_text(k, "t5");
            if known && is_base36(id) {
                Ok(())
            } else {
                Err(RdtError::say_of("invalid Reddit fullname: ", input))
            }
        },
        None => Err(RdtError::say_of("invalid Reddit fullname: ", input)),
    }
}

// ---------------------------------------------------------------------------
// Targets
// ---------------------------------------------------------------------------

/// The hosts of Reddit.
pub open spec fn reddit_host(host: Option<Seq<char>>) -> bool {
    match host {
        Some(name) => name == "reddit.com"@ || name == "www.reddit.com"@ || name
            == "old.reddit.com"@ || name == "redd.it"@,
        None => false,
    }
}

/// Refuses an address that is not on Reddit.
pub fn validate_reddit_host(address: &WebAddress) -> (r: Result<(), RdtError>)
    ensures
        match r {
            Ok(_) => reddit_host(address@.host),
            Err(e) => !reddit_host(address@.host) && e@ == ErrorModel::NonRedditUrl(address@.text),
        },
{
    let known = match &address.host {
        Some(name) => {
            let n = name.as_str();
            text::same_text(n, "reddit.com") || text::same_text(n, "www.reddit.com")
                || text::same_text(n, "old.reddit.com") || text::same_text(n, "redd.it")
        },
        None => false,
    };
    if known {
        Ok(())
    } else {
        Err(RdtError::NonRedditUrl(address.text.clone()))
    }
}

/// A path that ends in an extension: as it is, or with the extension in place
/// of its last slashes.
pub open spec fn with_extension(path: Seq<char>, ext: Seq<char>) -> Seq<char> {
    if ("."@ + ext).is_suffix_of(path) {
        path
    } else {
        text::strip_back(path, "/"@) + ("."@ + ext)
    }
}

/// Ends a path in an extension.
pub fn append_extension(path: &str, ext: &str) -> (r: String)
    ensures
        r@ == with_extension(path@, ext@),
{
    let chars = text::chars_of(path);
    let mut suffix = ".".to_owned();
    suffix.push_str(ext);
    if text::ends_with(&chars, &text::chars_of(suffix.as_str())) {
        return path.to_owned();
    }
    let mut out = text::string_of(text::cut_back(&chars, &text::chars_of("/")));
    out.push_str(suffix.as_str());
    out
}

/// The page of a post, by its id.
pub open spec fn comments_page(id: Seq<char>, ext: Seq<char>) -> Seq<char> {
    "/comments/"@ + id + "."@ + ext
}

fn page_of_post(id: &str, ext: &str) -> (r: String)
    ensures
        r@ == comments_page(id@, ext@),
{
    let mut out = "/comments/".to_owned();
    out.push_str(id);
    out.push_str(".");
    out.push_str(ext);
    out
}

/// The page that an address on Reddit leads to.
pub open spec fn address_path(address: AddressModel, ext: Seq<char>) -> Result<
    Seq<char>,
    ErrorModel,
> {
    if !reddit_host(address.host) {
        Err(ErrorModel::NonRedditUrl(address.text))
    } else if address.host == Some("redd.it"@) {
        Ok(
            comments_page(
                text::strip_back(text::strip_front(address.path, "/"@), "/"@),
                ext,
            ),
        )
    } else if address.path.len() == 0 {
        Ok(with_extension("/"@, ext))
    } else {
        Ok(with_extension(address.path, ext))
    }
}

/// The page that an address on Reddit leads to.
pub fn path_of_address(address: &WebAddress, ext: &str) -> (r: Result<String, RdtError>)
    ensures
        error::outcome(r) == address_path(address@, ext@),
{
    match validate_reddit_host(address) {
        Ok(_) => {},
        Err(e) => {
            return Err(e);
        },
    }
    let short = match &address.host {
        Some(name) => text::same_text(name.as_str(), "redd.it"),
        None => false,
    };
    let path = text::chars_of(address.path.as_str());
    if short {
        let slash = text::chars_of("/");
        let id = text::string_of(text::cut_back(text::cut_front(&path, &slash), &slash));
        Ok(page_of_post(id.as_str(), ext))
    } else if path.len() == 0 {
        Ok(append_extension("/", ext))
    } else {
        Ok(append_extension(address.path.as_str(), ext))
    }
}

/// A target without white space around it and without `t3_` in front.
pub open spec fn clean_target(target: Seq<char>) -> Seq<char> {
    let t = text::trim(target);
    match text::strip_prefix(t, "t3_"@) {
        Some(rest) => rest,
        None => t,
    }
}

/// The page that a target leads to: the id of a post, an address on Reddit, or
/// a path there.
pub open spec fn target_path(target: Seq<char>, ext: Seq<char>) -> Result<Seq<char>, ErrorModel> {
    let clean = clean_target(target);
    let page = text::before(clean, '?');
    if base36(clean) {
        Ok(comments_page(clean, ext))
    } else if web::has_scheme(page) {
        match web::parsed(page) {
            Ok(address) => address_path(address, ext),
            Err(e) => Err(e),
        }
    } else if "/"@.is_prefix_of(page) {
        Ok(with_extension(page, ext))
    } else {
        Ok(with_extension("/"@ + page, ext))
    }
}

/// A path on the site begins with a slash.
pub open spec fn rooted(path: Seq<char>) -> bool {
    path.len() > 0 && path[0] == '/'
}

proof fn lemma_strip_back_rooted(path: Seq<char>, end: Seq<char>)
    requires
        rooted(path) || path.len() == 0,
    ensures
        rooted(text::strip_back(path, end)) || text::strip_back(path, end).len() == 0,
    decreases path.len(),
{
    if end.len() > 0 && end.is_suffix_of(path) {
        let rest = path.take(path.len() - end.len());
        if rest.len() > 0 {
            assert(rest[0] == path[0]);
        }
        lemma_strip_back_rooted(rest, end);
    }
}

proof fn lemma_extension_rooted(path: Seq<char>, ext: Seq<char>)
    requires
        rooted(path),
    ensures
        rooted(with_extension(path, ext)) || with_extension(path, ext) == "."@ + ext,
{
    lemma_strip_back_rooted(path, "/"@);
    let front = text::strip_back(path, "/"@);
    let all = front + ("."@ + ext);
    if front.len() == 0 {
        assert(all =~= "."@ + ext);
    } else {
        assert(all[0] == front[0]);
    }
}

proof fn lemma_comments_page_rooted(id: Seq<char>, ext: Seq<char>)
    ensures
        rooted(comments_page(id, ext)),
{
    reveal_strlit("/comments/");
}

/// The page that a target leads to. It is asked of the site and of no other
/// host, unless it is a bare extension, which is what a target of nothing but
/// slashes gives.
pub fn target_to_path(target: &str, ext: &str) -> (r: Result<String, RdtError>)
    ensures
        error::outcome(r) == target_path(target@, ext@),
        r is Ok ==> rooted(r->Ok_0@) || r->Ok_0@ == "."@ + ext@,
        r is Ok && r->Ok_0@ != "."@ + ext@ ==> forall|params: Seq<(Seq<char>, Seq<char>)>|
            on_site((#[trigger] request_url(r->Ok_0@, params))->Ok_0),
{
    let r = rooted_target_path(target, ext);
    proof {
        if r is Ok && r->Ok_0@ != "."@ + ext@ {
            assert forall|params: Seq<(Seq<char>, Seq<char>)>|
                on_site((#[trigger] request_url(r->Ok_0@, params))->Ok_0) by {
                law_rooted_paths_stay_on_the_site(r->Ok_0@, params);
            }
        }
    }
    r
}

fn rooted_target_path(target: &str, ext: &str) -> (r: Result<String, RdtError>)
    ensures
        error::outcome(r) == target_path(target@, ext@),
        r is Ok ==> rooted(r->Ok_0@) || r->Ok_0@ == "."@ + ext@,
{
    let chars = text::chars_of(target);
    let t = text::trimmed(&chars);
    let clean = match text::cut_prefix(t, &text::chars_of("t3_")) {
        Some(rest) => rest,
        None => t,
    };
    if is_base36(clean) {
        proof {
            lemma_comments_page_rooted(clean@, ext@);
        }
        return Ok(page_of_post(text::string_of(clean).as_str(), ext));
    }
    let page = text::cut_before(clean, '?');
    if web::names_scheme(page) {
        let address = match web::parse_address(text::string_of(page).as_str()) {
            Ok(address) => address,
            Err(e) => {
                return Err(e);
            },
        };
        proof {
            let path = address@.path;
            lemma_extension_rooted(path, ext@);
            lemma_comments_page_rooted(
                text::strip_back(text::strip_front(path, "/"@), "/"@),
                ext@,
            );
        }
        path_of_address(&address, ext)
    } else if text::begins_with(page, &text::chars_of("/")) {
        proof {
            reveal_strlit("/");
            assert(page@.subrange(0, 1)[0] == '/');
            lemma_extension_rooted(page@, ext@);
        }
        Ok(append_extension(text::string_of(page).as_str(), ext))
    } else {
        let mut path = "/".to_owned();
        path.push_str(text::string_of(page).as_str());
        proof {
            reveal_strlit("/");
            assert(path@[0] == '/');
            lemma_extension_rooted(path@, ext@);
        }
        Ok(append_extension(path.as_str(), ext))
    }
}

/// The page of the replies below a comment.
pub open spec fn subtree_path(page: Seq<char>, comment_id: Seq<char>) -> Seq<char> {
    text::strip_back(text::strip_back(page, ".json"@), "/"@) + "/"@ + comment_id + ".json"@
}

proof fn lemma_subtree_rooted(page: Seq<char>, comment_id: Seq<char>)
    ensures
        rooted(page) || page == "."@ + "json"@ ==> rooted(subtree_path(page, comment_id)),
{
    reveal_strlit("/");
    reveal_strlit(".");
    reveal_strlit("json");
    reveal_strlit(".json");
    let first = text::strip_back(page, ".json"@);
    if page == "."@ + "json"@ {
        assert(page =~= ".json"@);
        assert(page.subrange(0, 5) =~= page);
        assert(".json"@.is_suffix_of(page));
        assert(page.take(0) =~= Seq::<char>::empty());
        let none = Seq::<char>::empty();
        assert(text::strip_back(none, ".json"@) == none);
        assert(first.len() == 0);
    } else if rooted(page) {
        lemma_strip_back_rooted(page, ".json"@);
    }
    if rooted(page) || page == "."@ + "json"@ {
        lemma_strip_back_rooted(first, "/"@);
        let base = text::strip_back(first, "/"@);
        let all = base + "/"@ + comment_id + ".json"@;
        if base.len() > 0 {
            assert(all[0] == base[0]);
        } else {
            assert(all[0] == '/');
        }
    }
}

/// The page of the replies below a comment, given the page of the thread. It
/// begins with a slash even where the page of the thread is a bare extension.
pub fn thread_subtree_path(base_json_path: &str, comment_id: &str) -> (r: String)
    ensures
        r@ == subtree_path(base_json_path@, comment_id@),
        rooted(base_json_path@) || base_json_path@ == "."@ + "json"@ ==> rooted(r@),
{
    proof {
        lemma_subtree_rooted(base_json_path@, comment_id@);
    }
    let chars = text::chars_of(base_json_path);
    let base = text::cut_back(
        text::cut_back(&chars, &text::chars_of(".json")),
        &text::chars_of("/"),
    );
    let mut out = text::string_of(base);
    out.push_str("/");
    out.push_str(comment_id);
    out.push_str(".json");
    out
}

// ---------------------------------------------------------------------------
// URLs
// ---------------------------------------------------------------------------

/// The URL of a page with a query, if there are parameters.
pub open spec fn with_query(url: Seq<char>, params: Seq<(Seq<char>, Seq<char>)>) -> Seq<char> {
    if params.len() == 0 {
        url
    } else if text::contains(url, "?"@) {
        url + "&"@ + web::query(params)
    } else {
        url + "?"@ + web::query(params)
    }
}

/// The URL of a page: a path on the site, or an address that must be on
/// Reddit.
pub open spec fn page_url(path: Seq<char>) -> Result<Seq<char>, ErrorModel> {
    if web::has_scheme(path) {
        match web::parsed(path) {
            Ok(address) => if reddit_host(address.host) {
                Ok(address.text)
            } else {
                Err(ErrorModel::NonRedditUrl(address.text))
            },
            Err(e) => Err(e),
        }
    } else {
        Ok(BASE@ + path)
    }
}

/// The URL of a request.
pub open spec fn request_url(
    path: Seq<char>,
    params: Seq<(Seq<char>, Seq<char>)>,
) -> Result<Seq<char>, ErrorModel> {
    match page_url(path) {
        Ok(url) => Ok(with_query(url, params)),
        Err(e) => Err(e),
    }
}

/// Adds a query to a URL.
pub fn add_query(url: String, params: &[(String, String)]) -> (r: String)
    ensures
        r@ == with_query(url@, web::params_model(params@)),
{
    let mut url = url;
    if params.len() == 0 {
        return url;
    }
    if text::str_contains(url.as_str(), "?") {
        url.push_str("&");
    } else {
        url.push_str("?");
    }
    url.push_str(web::write_query(params).as_str());
    url
}

/// The URL of a request.
pub fn build_url(path: &str, params: &[(String, String)]) -> (r: Result<String, RdtError>)
    ensures
        error::outcome(r) == request_url(path@, web::params_model(params@)),
{
    let url = if web::names_scheme(&text::chars_of(path)) {
        let address = match web::parse_address(path) {
            Ok(address) => address,
            Err(e) => {
                return Err(e);
            },
        };
        match validate_reddit_host(&address) {
            Ok(_) => {},
            Err(e) => {
                return Err(e);
            },
        }
        address.text
    } else {
        let mut url = BASE.to_owned();
        url.push_str(path);
        url
    };
    Ok(add_query(url, params))
}

/// A URL of the site.
pub open spec fn on_site(url: Seq<char>) -> bool {
    "https://www.reddit.com/"@.is_prefix_of(url)
}

/// The URL of a path that begins with a slash is on the site, whatever the
/// path and the parameters are.
pub proof fn law_rooted_paths_stay_on_the_site(
    path: Seq<char>,
    params: Seq<(Seq<char>, Seq<char>)>,
)
    requires
        rooted(path),
    ensures
        request_url(path, params) is Ok,
        on_site(request_url(path, params)->Ok_0),
{
    reveal_strlit("https://www.reddit.com/");
    reveal_strlit("https://www.reddit.com");
    reveal_strlit("http://");
    reveal_strlit("https://");
    if "http://"@.is_prefix_of(path) {
        assert(path.subrange(0, 7)[0] == 'h');
    }
    if "https://"@.is_prefix_of(path) {
        assert(path.subrange(0, 8)[0] == 'h');
    }
    let url = BASE@ + path;
    let all = with_query(url, params);
    assert(url.is_prefix_of(all)) by {
        assert(all.subrange(0, url.len() as int) =~= url);
    }
    assert("https://www.reddit.com/"@ =~= url.subrange(0, 23));
    assert("https://www.reddit.com/"@ =~= all.subrange(0, 23));
}

/// A character of a name: an ASCII letter, a digit, an underscore or, in the
/// name of a user, a hyphen.
pub open spec fn name_character(c: char, user: bool) -> bool {
    ||| '0' <= c <= '9'
    ||| 'a' <= c <= 'z'
    ||| 'A' <= c <= 'Z'
    ||| c == '_'
    ||| user && c == '-'
}

/// Every character is one of a name.
pub open spec fn name_characters(name: Seq<char>, user: bool) -> bool {
    forall|i: int| 0 <= i < name.len() ==> name_character(#[trigger] name[i], user)
}

proof fn lemma_named(name: Seq<char>, user: bool, short: Seq<char>, long: Seq<char>)
    requires
        name.len() > 0,
        name_characters(name, user),
        short.len() == 2 && short[1] == '/' && 'a' <= short[0] <= 'z',
        long == seq!['/'] + short,
    ensures
        text::strip_front(text::strip_front(text::trim(name), short), long) == name,
        text::strip_front(text::strip_front(text::trim(short + name), short), long) == name,
        text::strip_front(text::strip_front(text::trim(long + name), short), long) == name,
{
    assert(name_character(name[0], user));
    assert(name_character(name[name.len() - 1], user));
    text::law_printed_characters_are_not_white_space(name[0]);
    text::law_printed_characters_are_not_white_space(name.last());
    text::law_printed_characters_are_not_white_space(short[0]);
    text::law_trimmed_texts_stay(name);
    text::law_trimmed_texts_stay(short + name);
    text::law_trimmed_texts_stay(long + name);
    assert(!short.is_prefix_of(name)) by {
        if short.is_prefix_of(name) {
            assert(name.subrange(0, 2)[1] == name[1]);
            assert(name_character(name[1], user));
        }
    }
    assert(!long.is_prefix_of(name)) by {
        if long.is_prefix_of(name) {
            assert(name.subrange(0, 3)[0] == name[0]);
        }
    }
    assert(!short.is_prefix_of(long + name)) by {
        if short.is_prefix_of(long + name) {
            assert((long + name).subrange(0, 2)[0] == '/');
        }
    }
    text::law_ends_are_stripped_as_often_as_they_stand(name, short);
    text::law_ends_are_stripped_as_often_as_they_stand(name, long);
    text::law_ends_are_stripped_as_often_as_they_stand(long + name, short);
}

/// A text of two to twenty-one letters, digits and underscores names the
/// subreddit of that name, and so it does with `r/` or `/r/` in front. No other
/// name is accepted.
pub proof fn law_subreddits_go_by_their_names(name: Seq<char>, input: Seq<char>)
    ensures
        2 <= name.len() <= 21 && name_characters(name, false) ==> named_subreddit(name) == Ok::<
            Seq<char>,
            ErrorModel,
        >(name) && named_subreddit("r/"@ + name) == Ok::<Seq<char>, ErrorModel>(name)
            && named_subreddit("/r/"@ + name) == Ok::<Seq<char>, ErrorModel>(name)
            && bare_subreddit("r/"@ + name) == name,
        name.len() > 0 && name_characters(name, false) ==> bare_subreddit(name) == name
            && bare_subreddit("r/"@ + name) == name && bare_subreddit("/r/"@ + name) == name,
        text::trim(input) == text::trim(name) ==> bare_subreddit(input) == bare_subreddit(name)
            && bare_user(input) == bare_user(name),
        named_subreddit(input) matches Ok(found) ==> 2 <= found.len() <= 21 && name_characters(
            found,
            false,
        ) && found == bare_subreddit(input),
        named_subreddit(input) matches Err(e) ==> e == ErrorModel::Message(
            "invalid subreddit name: "@ + input,
        ),
{
    reveal_strlit("r/");
    reveal_strlit("/r/");
    assert("/r/"@ =~= seq!['/'] + "r/"@);
    if name.len() > 0 && name_characters(name, false) {
        lemma_named(name, false, "r/"@, "/r/"@);
    }
    if 2 <= name.len() <= 21 && name_characters(name, false) {
        assert(name_ok(name, 2, 21, false)) by {
            assert forall|i: int| 0 <= i < name.len() implies text::alphanumeric(
                #[trigger] name[i],
            ) || name[i] == '_' by {
                assert(name_character(name[i], false));
            }
        }
    }
}

/// A text of three to twenty letters, digits, underscores and hyphens names the
/// user of that name, and so it does with `u/` or `/u/` in front. No other name is
/// accepted.
pub proof fn law_users_go_by_their_names(name: Seq<char>, input: Seq<char>)
    ensures
        3 <= name.len() <= 20 && name_characters(name, true) ==> named_user(name) == Ok::<
            Seq<char>,
            ErrorModel,
        >(name) && named_user("u/"@ + name) == Ok::<Seq<char>, ErrorModel>(name) && named_user(
            "/u/"@ + name,
        ) == Ok::<Seq<char>, ErrorModel>(name),
        named_user(input) matches Ok(found) ==> 3 <= found.len() <= 20 && name_characters(
            found,
            true,
        ) && found == bare_user(input),
        named_user(input) matches Err(e) ==> e == ErrorModel::Message(
            "invalid Reddit username: "@ + input,
        ),
{
    reveal_strlit("u/");
    reveal_strlit("/u/");
    assert("/u/"@ =~= seq!['/'] + "u/"@);
    if 3 <= name.len() <= 20 && name_characters(name, true) {
        lemma_named(name, true, "u/"@, "/u/"@);
        assert(name_ok(name, 3, 20, true)) by {
            assert forall|i: int| 0 <= i < name.len() implies text::alphanumeric(
                #[trigger] name[i],
            ) || name[i] == '_' || name[i] == '-' by {
                assert(name_character(name[i], true));
            }
        }
    }
}

/// An id has four to twelve ASCII letters and digits.
pub open spec fn id_characters(id: Seq<char>) -> bool {
    &&& 4 <= id.len() <= 12
    &&& forall|i: int| #![trigger id[i]]
        0 <= i < id.len() ==> ('0' <= id[i] <= '9' || 'a' <= id[i] <= 'z' || 'A' <= id[i] <= 'Z')
}

/// A full name is the type of a comment, user, post or subreddit, an underscore
/// and an id.
pub proof fn law_full_names_have_a_type_and_an_id(kind: Seq<char>, id: Seq<char>)
    requires
        text::free_of(kind, '_'),
    ensures
        base36(id) <==> id_characters(id),
        full_name_ok(kind + seq!['_'] + id) <==> (kind == "t1"@ || kind == "t2"@ || kind == "t3"@
            || kind == "t5"@) && id_characters(id),
        !full_name_ok(kind),
{
    let s = kind + seq!['_'] + id;
    let n = kind.len() as int;
    assert(s.subrange(n, n + 1) =~= seq!['_']);
    assert forall|j: int| 0 <= j < n implies !text::occurs_at(s, seq!['_'], j) by {
        assert(s[j] == kind[j]);
        if s.subrange(j, j + 1) == seq!['_'] {
            assert(s.subrange(j, j + 1)[0] == s[j]);
        }
    }
    assert(text::first_at(s, seq!['_'], n));
    text::lemma_find_is(s, seq!['_'], n);
    assert(s.take(n) =~= kind);
    assert(s.skip(n + 1) =~= id);
    if text::contains(kind, seq!['_']) {
        let i = choose|i: int| text::occurs_at(kind, seq!['_'], i);
        assert(kind.subrange(i, i + 1)[0] == kind[i]);
    }
    if base36(id) {
        assert forall|i: int| #![trigger id[i]] 0 <= i < id.len() implies ('0' <= id[i] <= '9'
            || 'a' <= id[i] <= 'z' || 'A' <= id[i] <= 'Z') by {
            assert(text::alphanumeric(id[i]));
        }
    }
}

/// The id of a post, with or without its type in front, leads to the page of that
/// post.
pub proof fn law_ids_lead_to_their_posts(id: Seq<char>, ext: Seq<char>)
    requires
        id_characters(id),
    ensures
        target_path(id, ext) == Ok::<Seq<char>, ErrorModel>("/comments/"@ + id + "."@ + ext),
        target_path("t3_"@ + id, ext) == Ok::<Seq<char>, ErrorModel>(
            "/comments/"@ + id + "."@ + ext,
        ),
{
    reveal_strlit("t3_");
    assert forall|i: int| 0 <= i < id.len() implies text::alphanumeric(#[trigger] id[i]) by {}
    text::law_trimmed_texts_stay(id);
    text::law_trimmed_texts_stay("t3_"@ + id);
    assert(!"t3_"@.is_prefix_of(id)) by {
        if "t3_"@.is_prefix_of(id) {
            assert(id.subrange(0, 3)[2] == id[2]);
        }
    }
    assert(("t3_"@ + id).skip(3) =~= id);
    assert("t3_"@.is_prefix_of("t3_"@ + id)) by {
        assert(("t3_"@ + id).subrange(0, 3) =~= "t3_"@);
    }
}

/// A page ends in the extension. One that does already stays as it is, and any
/// other keeps all but the slashes at its end.
pub proof fn law_pages_end_in_the_extension(path: Seq<char>, ext: Seq<char>)
    ensures
        ("."@ + ext).is_suffix_of(with_extension(path, ext)),
        with_extension(path + ("."@ + ext), ext) == path + ("."@ + ext),
        !("."@ + ext).is_suffix_of(path) && !"/"@.is_suffix_of(path) ==> with_extension(path, ext)
            == path + ("."@ + ext),
        !("."@ + ext).is_suffix_of(path + "/"@) ==> with_extension(path + "/"@, ext)
            == text::strip_back(path, "/"@) + ("."@ + ext),
{
    reveal_strlit("/");
    let end = "."@ + ext;
    let base = text::strip_back(path, "/"@);
    assert((base + end).subrange(base.len() as int, (base.len() + end.len()) as int) =~= end);
    assert((path + end).subrange(path.len() as int, (path.len() + end.len()) as int) =~= end);
    text::law_ends_are_stripped_as_often_as_they_stand(path, "/"@);
}

/// The replies below a comment are on the page of the thread, with the id of the
/// comment behind it.
pub proof fn law_replies_are_below_the_thread(base: Seq<char>, id: Seq<char>)
    requires
        !"/"@.is_suffix_of(base),
        !".json"@.is_suffix_of(base),
    ensures
        subtree_path(base + ".json"@, id) == base + "/"@ + id + ".json"@,
        !".json"@.is_suffix_of(base + "/"@) ==> subtree_path(base + "/"@ + ".json"@, id) == base
            + "/"@ + id + ".json"@,
{
    reveal_strlit("/");
    reveal_strlit(".json");
    text::law_ends_are_stripped_as_often_as_they_stand(base, ".json"@);
    text::law_ends_are_stripped_as_often_as_they_stand(base, "/"@);
    text::law_ends_are_stripped_as_often_as_they_stand(base + "/"@, ".json"@);
}

/// An address leads to its page exactly where its host is one of Reddit. A short
/// one leads to the page of the post that its path names.
pub proof fn law_only_reddit_addresses_lead_anywhere(address: AddressModel, ext: Seq<char>)
    ensures
        address_path(address, ext) is Ok <==> (address.host == Some("reddit.com"@) || address.host
            == Some("www.reddit.com"@) || address.host == Some("old.reddit.com"@) || address.host
            == Some("redd.it"@)),
        address_path(address, ext) matches Err(e) ==> e == ErrorModel::NonRedditUrl(address.text),
        address.host == Some("redd.it"@) ==> address_path(address, ext) == Ok::<
            Seq<char>,
            ErrorModel,
        >(
            "/comments/"@ + text::strip_back(text::strip_front(address.path, "/"@), "/"@) + "."@
                + ext,
        ),
        address.host == Some("reddit.com"@) || address.host == Some("www.reddit.com"@)
            || address.host == Some("old.reddit.com"@) ==> address_path(address, ext) == Ok::<
            Seq<char>,
            ErrorModel,
        >(
            with_extension(
                if address.path.len() == 0 {
                    "/"@
                } else {
                    address.path
                },
                ext,
            ),
        ),
{
    reveal_strlit("redd.it");
    reveal_strlit("reddit.com");
    reveal_strlit("www.reddit.com");
    reveal_strlit("old.reddit.com");
    assert("redd.it"@.len() == 7 && "reddit.com"@.len() == 10 && "www.reddit.com"@.len() == 14
        && "old.reddit.com"@.len() == 14);
}

/// A path on the site is asked of the site, with its parameters as the query.
pub proof fn law_paths_are_asked_of_the_site(
    path: Seq<char>,
    params: Seq<(Seq<char>, Seq<char>)>,
)
    requires
        !web::has_scheme(path),
    ensures
        params.len() == 0 ==> request_url(path, params) == Ok::<Seq<char>, ErrorModel>(
            "https://www.reddit.com"@ + path,
        ),
        params.len() > 0 && !text::contains("https://www.reddit.com"@ + path, "?"@)
            ==> request_url(path, params) == Ok::<Seq<char>, ErrorModel>(
            "https://www.reddit.com"@ + path + "?"@ + web::query(params),
        ),
        params.len() > 0 && text::contains("https://www.reddit.com"@ + path, "?"@)
            ==> request_url(path, params) == Ok::<Seq<char>, ErrorModel>(
            "https://www.reddit.com"@ + path + "&"@ + web::query(params),
        ),
{
}

/// A path leads to the page of that name, with or without a slash in front, and a
/// query behind it does not count.
pub proof fn law_paths_lead_to_their_pages(path: Seq<char>, asked: Seq<char>, ext: Seq<char>)
    requires
        path.len() > 0,
        path[0] == '/',
        text::free_of(path, '?'),
        !text::white_space(path.last()),
        asked.len() > 0,
        !text::white_space(asked.last()),
    ensures
        target_path(path, ext) == Ok::<Seq<char>, ErrorModel>(with_extension(path, ext)),
        target_path(path + seq!['?'] + asked, ext) == Ok::<Seq<char>, ErrorModel>(
            with_extension(path, ext),
        ),
{
    reveal_strlit("/");
    reveal_strlit("t3_");
    reveal_strlit("http://");
    reveal_strlit("https://");
    let whole = path + seq!['?'] + asked;
    text::law_printed_characters_are_not_white_space('/');
    text::law_trimmed_texts_stay(path);
    text::law_trimmed_texts_stay(whole);
    text::law_texts_end_before_the_character(path, '?', asked);
    assert(!text::alphanumeric(path[0]));
    assert(!base36(path));
    assert(!text::alphanumeric(whole[0]));
    assert(!base36(whole));
    assert(!"t3_"@.is_prefix_of(path)) by {
        if "t3_"@.is_prefix_of(path) {
            assert(path.subrange(0, 3)[0] == path[0]);
        }
    }
    assert(!"t3_"@.is_prefix_of(whole)) by {
        if "t3_"@.is_prefix_of(whole) {
            assert(whole.subrange(0, 3)[0] == whole[0]);
        }
    }
    assert(!web::has_scheme(path)) by {
        if "http://"@.is_prefix_of(path) {
            assert(path.subrange(0, 7)[0] == path[0]);
        }
        if "https://"@.is_prefix_of(path) {
            assert(path.subrange(0, 8)[0] == path[0]);
        }
    }
    assert("/"@.is_prefix_of(path)) by {
        assert(path.subrange(0, 1) =~= "/"@);
    }
}

/// An address is asked for as it is where its host is one of Reddit, and refused
/// otherwise.
pub proof fn law_other_hosts_are_refused(path: Seq<char>, found: AddressModel)
    requires
        "http://"@.is_prefix_of(path) || "https://"@.is_prefix_of(path),
        web::parsed(path) == Ok::<AddressModel, ErrorModel>(found),
    ensures
        ({
            let known = found.host == Some("reddit.com"@) || found.host == Some("www.reddit.com"@)
                || found.host == Some("old.reddit.com"@) || found.host == Some("redd.it"@);
            &&& known ==> request_url(path, Seq::empty()) == Ok::<Seq<char>, ErrorModel>(
                found.text,
            )
            &&& !known ==> request_url(path, Seq::empty()) == Err::<Seq<char>, ErrorModel>(
                ErrorModel::NonRedditUrl(found.text),
            )
        }),
{
}

} // verus!
