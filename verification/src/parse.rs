//! Reading Reddit's JSON answers.
use vstd::prelude::*;

use crate::json;
use crate::json::{Json, JsonModel, Real};
use crate::model;
use crate::model::{
    CaptureModel, ItemKind, ItemModel, ItemSource, ListingPage, MoreStub, PageModel, RedditItem,
    StubModel, ThreadCapture, ThreadModel, ThreadView,
};
use crate::text;

verus! {

// ---------------------------------------------------------------------------
// Fields
// ---------------------------------------------------------------------------

/// The text under a key, unless it is empty.
pub open spec fn string_at(data: JsonModel, key: Seq<char>) -> Option<Seq<char>> {
    match data.text_at(key) {
        Some(s) => if s.len() > 0 {
            Some(s)
        } else {
            None
        },
        None => None,
    }
}

/// The integer under a key.
pub open spec fn int_at(data: JsonModel, key: Seq<char>) -> Option<i64> {
    match data.get(key) {
        Some(JsonModel::Number(n)) => n.integer,
        _ => None,
    }
}

/// The number under a key.
pub open spec fn real_at(data: JsonModel, key: Seq<char>) -> Option<Real> {
    match data.get(key) {
        Some(JsonModel::Number(n)) => n.real,
        _ => None,
    }
}

/// The truth value under a key.
pub open spec fn bool_at(data: JsonModel, key: Seq<char>) -> Option<bool> {
    match data.get(key) {
        Some(JsonModel::Bool(b)) => Some(b),
        _ => None,
    }
}

/// The first of two optional texts that is there.
pub open spec fn or_else(a: Option<Seq<char>>, b: Option<Seq<char>>) -> Option<Seq<char>> {
    if a is Some {
        a
    } else {
        b
    }
}

/// The text under a key, unless it is empty.
pub fn string_field(data: &Json, key: &str) -> (r: Option<String>)
    ensures
        text::opt(r) == string_at(data@, key@),
{
    match data.text_at(key) {
        Some(s) => if s.is_empty() {
            None
        } else {
            Some(s.to_owned())
        },
        None => None,
    }
}

/// The integer under a key.
pub fn int_field(data: &Json, key: &str) -> (r: Option<i64>)
    ensures
        r == int_at(data@, key@),
{
    match data.get(key) {
        Some(Json::Number(n)) => n.integer,
        _ => None,
    }
}

/// The number under a key.
pub fn real_field(data: &Json, key: &str) -> (r: Option<Real>)
    ensures
        r == real_at(data@, key@),
{
    match data.get(key) {
        Some(Json::Number(n)) => n.real,
        _ => None,
    }
}

/// The truth value under a key.
pub fn bool_field(data: &Json, key: &str) -> (r: Option<bool>)
    ensures
        r == bool_at(data@, key@),
{
    match data.get(key) {
        Some(Json::Bool(b)) => Some(*b),
        _ => None,
    }
}

/// The time of the last edit: `edited` is a number where there was one.
pub fn edited_field(data: &Json) -> (r: Option<Real>)
    ensures
        r == real_at(data@, "edited"@),
{
    real_field(data, "edited")
}

// ---------------------------------------------------------------------------
// Things
// ---------------------------------------------------------------------------

/// The kind that a type prefix stands for.
pub open spec fn kind_of(raw: Seq<char>) -> ItemKind {
    if raw == "t3"@ {
        ItemKind::Post
    } else if raw == "t1"@ {
        ItemKind::Comment
    } else if raw == "t5"@ {
        ItemKind::Subreddit
    } else if raw == "t2"@ {
        ItemKind::User
    } else if raw == "more"@ {
        ItemKind::More
    } else {
        ItemKind::Unknown
    }
}

/// The type prefix of a thing; empty where it has none.
pub open spec fn raw_kind(thing: JsonModel) -> Seq<char> {
    match thing.text_at("kind"@) {
        Some(s) => s,
        None => Seq::empty(),
    }
}

/// The short id of a thing: its id, or else its name.
pub open spec fn short_id(data: JsonModel) -> Seq<char> {
    match or_else(string_at(data, "id"@), string_at(data, "name"@)) {
        Some(s) => s,
        None => Seq::empty(),
    }
}

/// The full name of a thing: its name, or else its type prefix and short id.
pub open spec fn full_name(raw: Seq<char>, data: JsonModel) -> Seq<char> {
    match string_at(data, "name"@) {
        Some(s) => s,
        None => if short_id(data).len() == 0 {
            raw
        } else {
            raw + "_"@ + short_id(data)
        },
    }
}

/// The id in a post's full name.
pub open spec fn linked_post(data: JsonModel) -> Option<Seq<char>> {
    match string_at(data, "link_id"@) {
        Some(link) => text::strip_prefix(link, "t3_"@),
        None => None,
    }
}

/// The item that a thing with these data describes.
pub open spec fn described_item(
    raw: Seq<char>,
    data: JsonModel,
    depth: usize,
    source: ItemSource,
) -> ItemModel {
    ItemModel {
        index: None,
        kind: kind_of(raw),
        id: short_id(data),
        fullname: full_name(raw, data),
        parent_id: string_at(data, "parent_id"@),
        post_id: match linked_post(data) {
            Some(id) => Some(id),
            None => if kind_of(raw) == ItemKind::Post {
                Some(short_id(data))
            } else {
                None
            },
        },
        title: or_else(string_at(data, "title"@), string_at(data, "display_name_prefixed"@)),
        author: or_else(string_at(data, "author"@), string_at(data, "name"@)),
        subreddit: string_at(data, "subreddit"@),
        body: or_else(string_at(data, "body"@), string_at(data, "selftext"@)),
        flair: string_at(data, "link_flair_text"@),
        is_self: bool_at(data, "is_self"@),
        over_18: bool_at(data, "over_18"@),
        score: int_at(data, "score"@),
        upvote_ratio: real_at(data, "upvote_ratio"@),
        num_comments: int_at(data, "num_comments"@),
        created_utc: real_at(data, "created_utc"@),
        edited_utc: real_at(data, "edited"@),
        permalink: match string_at(data, "permalink"@) {
            Some(link) => Some(model::canonical(link)),
            None => None,
        },
        url: string_at(data, "url"@),
        depth,
        source,
    }
}

/// The item that a thing describes; a thing without data describes none.
pub open spec fn thing_item(thing: JsonModel, depth: usize, source: ItemSource) -> Option<
    ItemModel,
> {
    match thing.get("data"@) {
        Some(data) => Some(described_item(raw_kind(thing), data, depth, source)),
        None => None,
    }
}

/// The kind that a type prefix stands for.
fn kind_named(raw: &str) -> (r: ItemKind)
    ensures
        r == kind_of(raw@),
{
    if text::same_text(raw, "t3") {
        ItemKind::Post
    } else if text::same_text(raw, "t1") {
        ItemKind::Comment
    } else if text::same_text(raw, "t5") {
        ItemKind::Subreddit
    } else if text::same_text(raw, "t2") {
        ItemKind::User
    } else if text::same_text(raw, "more") {
        ItemKind::More
    } else {
        ItemKind::Unknown
    }
}

fn field_or(data: &Json, key: &str, other: &str) -> (r: Option<String>)
    ensures
        text::opt(r) == or_else(string_at(data@, key@), string_at(data@, other@)),
{
    match string_field(data, key) {
        Some(s) => Some(s),
        None => string_field(data, other),
    }
}

fn post_of_link(data: &Json) -> (r: Option<String>)
    ensures
        text::opt(r) == linked_post(data@),
{
    match string_field(data, "link_id") {
        Some(link) => {
            let chars = text::chars_of(link.as_str());
            match text::cut_prefix(&chars, &text::chars_of("t3_")) {
                Some(rest) => Some(text::string_of(rest)),
                None => None,
            }
        },
        None => None,
    }
}

fn name_of_thing(raw: &str, data: &Json, id: &str) -> (r: String)
    requires
        id@ == short_id(data@),
    ensures
        r@ == full_name(raw@, data@),
{
    match string_field(data, "name") {
        Some(name) => name,
        None => {
            let mut out = raw.to_owned();
            if !id.is_empty() {
                out.push_str("_");
                out.push_str(id);
            }
            out
        },
    }
}

/// Reads one thing.
pub fn parse_thing(thing: &Json, depth: usize, source: ItemSource) -> (r: Option<RedditItem>)
    ensures
        model::opt_item(r) == thing_item(thing@, depth, source),
{
    let raw: &str = match thing.text_at("kind") {
        Some(s) => s,
        None => "",
    };
    proof {
        reveal_strlit("");
        assert(raw@ =~= raw_kind(thing@));
    }
    let data = match thing.get("data") {
        Some(data) => data,
        None => {
            return None;
        },
    };
    let kind = kind_named(raw);
    let id = match field_or(data, "id", "name") {
        Some(id) => id,
        None => String::new(),
    };
    let fullname = name_of_thing(raw, data, id.as_str());
    let permalink = match string_field(data, "permalink") {
        Some(link) => Some(model::canonical_permalink(link.as_str())),
        None => None,
    };
    let post_id = match post_of_link(data) {
        Some(post) => Some(post),
        None => if kind == ItemKind::Post {
            Some(id.clone())
        } else {
            None
        },
    };
    Some(
        RedditItem {
            index: None,
            kind,
            id,
            fullname,
            parent_id: string_field(data, "parent_id"),
            post_id,
            title: field_or(data, "title", "display_name_prefixed"),
            author: field_or(data, "author", "name"),
            subreddit: string_field(data, "subreddit"),
            body: field_or(data, "body", "selftext"),
            flair: string_field(data, "link_flair_text"),
            is_self: bool_field(data, "is_self"),
            over_18: bool_field(data, "over_18"),
            score: int_field(data, "score"),
            upvote_ratio: real_field(data, "upvote_ratio"),
            num_comments: int_field(data, "num_comments"),
            created_utc: real_field(data, "created_utc"),
            edited_utc: edited_field(data),
            permalink,
            url: string_field(data, "url"),
            depth,
            source,
        },
    )
}

// ---------------------------------------------------------------------------
// Listings
// ---------------------------------------------------------------------------

/// The items that a list of things describes, in order.
pub open spec fn thing_items(things: Seq<JsonModel>) -> Seq<ItemModel>
    decreases things.len(),
{
    if things.len() == 0 {
        Seq::empty()
    } else {
        let before = thing_items(things.drop_last());
        match thing_item(things.last(), 0, ItemSource::Json) {
            Some(item) => before.push(item),
            None => before,
        }
    }
}

/// The items of a listing.
pub open spec fn listing_items(value: JsonModel) -> Seq<ItemModel> {
    match value.list_at("data"@, "children"@) {
        Some(things) => thing_items(things),
        None => Seq::empty(),
    }
}

/// The text under `data` and then a key, unless it is empty.
pub open spec fn cursor_at(value: JsonModel, key: Seq<char>) -> Option<Seq<char>> {
    match value.get("data"@) {
        Some(data) => string_at(data, key),
        None => None,
    }
}

/// The page that a listing document describes.
pub open spec fn listing_page(value: JsonModel) -> PageModel {
    PageModel {
        items: listing_items(value),
        after: cursor_at(value, "after"@),
        before: cursor_at(value, "before"@),
    }
}

fn cursor(value: &Json, key: &str) -> (r: Option<String>)
    ensures
        text::opt(r) == cursor_at(value@, key@),
{
    match value.get("data") {
        Some(data) => string_field(data, key),
        None => None,
    }
}

/// Reads the items of a listing.
pub fn parse_listing(value: &Json) -> (r: Vec<RedditItem>)
    ensures
        model::items_model(r@) == listing_items(value@),
{
    let mut out: Vec<RedditItem> = Vec::new();
    match value.list_at("data", "children") {
        Some(things) => {
            let ghost all = json::list_model(things@);
            let mut i: usize = 0;
            assert(model::items_model(out@) =~= thing_items(all.take(0)));
            while i < things.len()
                invariant
                    i <= things@.len(),
                    all == json::list_model(things@),
                    model::items_model(out@) == thing_items(all.take(i as int)),
                decreases things@.len() - i,
            {
                let ghost had = model::items_model(out@);
                proof {
                    assert(all.take(i + 1).drop_last() =~= all.take(i as int));
                    assert(all.take(i + 1).last() == things@[i as int]@);
                }
                match parse_thing(&things[i], 0, ItemSource::Json) {
                    Some(item) => {
                        let ghost seen = item@;
                        out.push(item);
                        assert(model::items_model(out@) =~= had.push(seen));
                    },
                    None => {},
                }
                i = i + 1;
            }
            assert(all.take(all.len() as int) =~= all);
        },
        None => {
            assert(model::items_model(out@) =~= Seq::empty());
        },
    }
    out
}

/// Reads a page of a listing.
pub fn parse_listing_page(value: &Json) -> (r: ListingPage)
    ensures
        r@ == listing_page(value@),
{
    ListingPage {
        items: parse_listing(value),
        after: cursor(value, "after"),
        before: cursor(value, "before"),
    }
}

// ---------------------------------------------------------------------------
// Threads
// ---------------------------------------------------------------------------

/// A value that stands in an object is smaller than the object.
proof fn lemma_lookup_smaller(entries: Seq<(Seq<char>, JsonModel)>, key: Seq<char>)
    ensures
        json::lookup(entries, key) matches Some(v) ==> exists|i: int|
            0 <= i < entries.len() && #[trigger] entries[i].1 == v,
    decreases entries.len(),
{
    if entries.len() > 0 {
        if entries[0].0 == key {
        } else {
            let rest = entries.skip(1);
            lemma_lookup_smaller(rest, key);
            if let Some(v) = json::lookup(rest, key) {
                let i = choose|i: int| 0 <= i < rest.len() && #[trigger] rest[i].1 == v;
                assert(entries[i + 1].1 == v);
            }
        }
    }
}

proof fn lemma_get_smaller(value: JsonModel, key: Seq<char>)
    ensures
        value.get(key) matches Some(v) ==> decreases_to!(value => v),
{
    match value {
        JsonModel::Object(entries) => {
            lemma_lookup_smaller(entries, key);
            if let Some(v) = json::lookup(entries, key) {
                let i = choose|i: int| 0 <= i < entries.len() && #[trigger] entries[i].1 == v;
                assert(decreases_to!(value => value->Object_0));
                assert(decreases_to!(entries => entries[i]));
                assert(decreases_to!(entries[i] => entries[i].1));
            }
        },
        _ => {},
    }
}

/// The things in the replies to a thing.
pub open spec fn reply_things(thing: JsonModel) -> Option<Seq<JsonModel>> {
    match thing.get2("data"@, "replies"@) {
        Some(replies) => replies.list_at("data"@, "children"@),
        None => None,
    }
}

/// The replies to a thing are smaller than the thing.
pub proof fn lemma_replies_smaller(thing: JsonModel)
    ensures
        reply_things(thing) matches Some(list) ==> decreases_to!(thing => list),
{
    lemma_get_smaller(thing, "data"@);
    if let Some(data) = thing.get("data"@) {
        lemma_get_smaller(data, "replies"@);
        if let Some(replies) = data.get("replies"@) {
            lemma_get_smaller(replies, "data"@);
            if let Some(inner) = replies.get("data"@) {
                lemma_get_smaller(inner, "children"@);
            }
        }
    }
}

/// Whether a thing is a stub for hidden comments.
pub open spec fn is_more(thing: JsonModel) -> bool {
    thing.text_at("kind"@) == Some("more"@)
}

/// The depth of the replies to a comment.
pub open spec fn below(depth: usize) -> usize {
    model::capped((depth + 1) as nat)
}

/// The comments of a list of things in reading order: each thing that is no
/// stub, followed by the comments of its replies one level deeper.
pub open spec fn comments_in(things: Seq<JsonModel>, depth: usize) -> Seq<ItemModel>
    decreases things, 1int,
{
    if things.len() == 0 {
        Seq::empty()
    } else {
        comments_in(things.drop_last(), depth) + comments_under(things.last(), depth)
    }
}

/// The comments of one thing and of its replies.
pub open spec fn comments_under(thing: JsonModel, depth: usize) -> Seq<ItemModel>
    decreases thing, 0int,
{
    proof {
        lemma_replies_smaller(thing);
    }
    if is_more(thing) {
        Seq::empty()
    } else {
        let own = match thing_item(thing, depth, ItemSource::Json) {
            Some(item) => seq![item],
            None => Seq::empty(),
        };
        match reply_things(thing) {
            Some(replies) => own + comments_in(replies, below(depth)),
            None => own,
        }
    }
}

/// How many comments a stub hides: those it lists, and at least one.
pub open spec fn hidden_by(thing: JsonModel) -> nat {
    match thing.list_at("data"@, "children"@) {
        Some(children) => if children.len() > 1 {
            children.len()
        } else {
            1
        },
        None => 1,
    }
}

/// How many comments the stubs among a list of things and its replies hide.
pub open spec fn hidden_in(things: Seq<JsonModel>) -> nat
    decreases things, 1int,
{
    if things.len() == 0 {
        0
    } else {
        hidden_in(things.drop_last()) + hidden_under(things.last())
    }
}

/// How many comments one thing and its replies hide.
pub open spec fn hidden_under(thing: JsonModel) -> nat
    decreases thing, 0int,
{
    proof {
        lemma_replies_smaller(thing);
    }
    if is_more(thing) {
        hidden_by(thing)
    } else {
        match reply_things(thing) {
            Some(replies) => hidden_in(replies),
            None => 0,
        }
    }
}

/// The ids that a stub lists.
pub open spec fn listed_ids(children: Seq<JsonModel>) -> Seq<Seq<char>>
    decreases children.len(),
{
    if children.len() == 0 {
        Seq::empty()
    } else {
        let before = listed_ids(children.drop_last());
        match children.last().as_text() {
            Some(id) => before.push(id),
            None => before,
        }
    }
}

/// The stub that a thing describes.
pub open spec fn thing_stub(thing: JsonModel, depth: usize, post_id: Option<Seq<char>>) -> Option<
    StubModel,
> {
    match thing.get("data"@) {
        Some(data) => Some(
            StubModel {
                id: match string_at(data, "id"@) {
                    Some(id) => id,
                    None => Seq::empty(),
                },
                parent_id: string_at(data, "parent_id"@),
                post_id: or_else(linked_post(data), post_id),
                children: match data.get("children"@) {
                    Some(JsonModel::List(children)) => listed_ids(children),
                    _ => Seq::empty(),
                },
                count: match int_at(data, "count"@) {
                    Some(n) => if n > 0 {
                        model::capped(n as nat)
                    } else {
                        0
                    },
                    None => 0,
                },
                depth,
            },
        ),
        None => None,
    }
}

/// The stubs among a list of things and its replies, in reading order.
pub open spec fn stubs_in(
    things: Seq<JsonModel>,
    depth: usize,
    post_id: Option<Seq<char>>,
) -> Seq<StubModel>
    decreases things, 1int,
{
    if things.len() == 0 {
        Seq::empty()
    } else {
        stubs_in(things.drop_last(), depth, post_id) + stubs_under(things.last(), depth, post_id)
    }
}

/// The stubs of one thing and of its replies.
pub open spec fn stubs_under(
    thing: JsonModel,
    depth: usize,
    post_id: Option<Seq<char>>,
) -> Seq<StubModel>
    decreases thing, 0int,
{
    proof {
        lemma_replies_smaller(thing);
    }
    if is_more(thing) {
        match thing_stub(thing, depth, post_id) {
            Some(stub) => seq![stub],
            None => Seq::empty(),
        }
    } else {
        match reply_things(thing) {
            Some(replies) => stubs_in(replies, below(depth), post_id),
            None => Seq::empty(),
        }
    }
}

fn replies_of(thing: &Json) -> (r: Option<&Vec<Json>>)
    ensures
        match r {
            Some(things) => reply_things(thing@) == Some(json::list_model(things@)),
            None => reply_things(thing@) is None,
        },
{
    match thing.get2("data", "replies") {
        Some(replies) => replies.list_at("data", "children"),
        None => None,
    }
}

fn is_stub(thing: &Json) -> (r: bool)
    ensures
        r == is_more(thing@),
{
    match thing.text_at("kind") {
        Some(kind) => text::same_text(kind, "more"),
        None => false,
    }
}

fn deeper(depth: usize) -> (r: usize)
    ensures
        r == below(depth),
{
    depth.saturating_add(1)
}

proof fn lemma_append<A>(a: Seq<A>, b: Seq<A>, c: Seq<A>)
    ensures
        (a + b) + c == a + (b + c),
{
    assert((a + b) + c =~= a + (b + c));
}

/// Reads the comments of a list of things, and counts the hidden ones.
fn parse_comments(
    things: &Vec<Json>,
    depth: usize,
    comments: &mut Vec<RedditItem>,
    more_stubs: &mut usize,
)
    ensures
        model::items_model(final(comments)@) == model::items_model(old(comments)@) + comments_in(
            json::list_model(things@),
            depth,
        ),
        *final(more_stubs) == model::capped(
            *old(more_stubs) as nat + hidden_in(json::list_model(things@)),
        ),
    decreases json::list_model(things@),
{
    let ghost all = json::list_model(things@);
    let ghost before = model::items_model(comments@);
    let ghost count = *more_stubs as nat;
    let mut i: usize = 0;
    assert(before =~= before + comments_in(all.take(0), depth));
    while i < things.len()
        invariant
            i <= things@.len(),
            all == json::list_model(things@),
            model::items_model(comments@) == before + comments_in(all.take(i as int), depth),
            *more_stubs == model::capped(count + hidden_in(all.take(i as int))),
        decreases things@.len() - i,
    {
        let ghost had = model::items_model(comments@);
        let ghost thing = things@[i as int]@;
        proof {
            assert(all.take(i + 1).drop_last() =~= all.take(i as int));
            assert(all.take(i + 1).last() == thing);
            assert(decreases_to!(all => all[i as int]));
            lemma_replies_smaller(thing);
        }
        if is_stub(&things[i]) {
            let hidden: usize = match things[i].list_at("data", "children") {
                Some(children) => if children.len() > 1 {
                    children.len()
                } else {
                    1
                },
                None => 1,
            };
            *more_stubs = more_stubs.saturating_add(hidden);
            assert(had + Seq::<ItemModel>::empty() =~= had);
        } else {
            let ghost own = match thing_item(thing, depth, ItemSource::Json) {
                Some(item) => seq![item],
                None => Seq::empty(),
            };
            match parse_thing(&things[i], depth, ItemSource::Json) {
                Some(item) => {
                    comments.push(item);
                },
                None => {},
            }
            assert(model::items_model(comments@) =~= had + own);
            match replies_of(&things[i]) {
                Some(replies) => {
                    parse_comments(replies, deeper(depth), comments, more_stubs);
                    proof {
                        lemma_append(
                            had,
                            own,
                            comments_in(json::list_model(replies@), below(depth)),
                        );
                    }
                },
                None => {},
            }
            assert(model::items_model(comments@) == had + comments_under(thing, depth));
        }
        proof {
            let read = comments_in(all.take(i as int), depth);
            assert(comments_in(all.take(i + 1), depth) == read + comments_under(thing, depth));
            lemma_append(before, read, comments_under(thing, depth));
            assert(model::items_model(comments@) == before + comments_in(all.take(i + 1), depth));
            let h = hidden_in(all.take(i as int));
            assert(hidden_in(all.take(i + 1)) == h + hidden_under(thing));
            assert(*more_stubs == model::capped(model::capped(count + h) as nat + hidden_under(thing)));
        }
        i = i + 1;
    }
    assert(all.take(all.len() as int) =~= all);
}

/// The things of a listing.
pub open spec fn listing_things(value: JsonModel) -> Seq<JsonModel> {
    match value.list_at("data"@, "children"@) {
        Some(things) => things,
        None => Seq::empty(),
    }
}

/// Reads the comments of a listing, and counts the hidden ones.
pub fn parse_comment_listing(
    value: &Json,
    depth: usize,
    comments: &mut Vec<RedditItem>,
    more_stubs: &mut usize,
)
    ensures
        model::items_model(final(comments)@) == model::items_model(old(comments)@) + comments_in(
            listing_things(value@),
            depth,
        ),
        *final(more_stubs) == model::capped(
            *old(more_stubs) as nat + hidden_in(listing_things(value@)),
        ),
{
    match value.list_at("data", "children") {
        Some(things) => {
            parse_comments(things, depth, comments, more_stubs);
        },
        None => {
            assert(model::items_model(comments@) =~= model::items_model(comments@) + comments_in(
                Seq::empty(),
                depth,
            ));
        },
    }
}

/// The listing at a position of a thread document.
pub open spec fn thread_listing(value: JsonModel, i: int) -> Option<JsonModel> {
    match value {
        JsonModel::List(listings) => if i < listings.len() {
            Some(listings[i])
        } else {
            None
        },
        _ => None,
    }
}

/// The post of a thread document: the first item of its first listing.
pub open spec fn thread_post(value: JsonModel) -> Option<ItemModel> {
    match thread_listing(value, 0) {
        Some(listing) => if listing_items(listing).len() > 0 {
            Some(listing_items(listing)[0])
        } else {
            None
        },
        None => None,
    }
}

/// The things of a thread document that are comments or stubs.
pub open spec fn thread_things(value: JsonModel) -> Seq<JsonModel> {
    match thread_listing(value, 1) {
        Some(listing) => listing_things(listing),
        None => Seq::empty(),
    }
}

/// The thread that a thread document describes.
pub open spec fn thread_model(value: JsonModel, notice: Option<Seq<char>>) -> ThreadModel {
    ThreadModel {
        post: thread_post(value),
        comments: comments_in(thread_things(value), 0),
        more_stubs: model::capped(hidden_in(thread_things(value))),
        degraded: false,
        truncated: false,
        http_requests: 0,
        notice,
    }
}

fn listing_at(value: &Json, i: usize) -> (r: Option<&Json>)
    ensures
        json::opt_json(r) == thread_listing(value@, i as int),
{
    match value.as_list() {
        Some(listings) => if i < listings.len() {
            Some(&listings[i])
        } else {
            None
        },
        None => None,
    }
}

fn post_of(value: &Json) -> (r: Option<RedditItem>)
    ensures
        model::opt_item(r) == thread_post(value@),
{
    match listing_at(value, 0) {
        Some(listing) => {
            let items = parse_listing(listing);
            if items.len() > 0 {
                assert(listing_items(listing@)[0] == items@[0]@);
                Some(items[0].clone())
            } else {
                None
            }
        },
        None => None,
    }
}

/// Reads a thread.
pub fn parse_thread(value: &Json, notice: Option<String>) -> (r: ThreadView)
    ensures
        r@ == thread_model(value@, text::opt(notice)),
{
    let post = post_of(value);
    let mut comments: Vec<RedditItem> = Vec::new();
    let mut more_stubs: usize = 0;
    assert(model::items_model(comments@) =~= Seq::empty());
    match listing_at(value, 1) {
        Some(listing) => {
            parse_comment_listing(listing, 0, &mut comments, &mut more_stubs);
        },
        None => {},
    }
    assert(model::items_model(comments@) =~= comments_in(thread_things(value@), 0));
    ThreadView {
        post,
        comments,
        more_stubs,
        degraded: false,
        truncated: false,
        http_requests: 0,
        notice,
    }
}

fn ids_of(children: &Vec<Json>) -> (r: Vec<String>)
    ensures
        text::texts(r@) == listed_ids(json::list_model(children@)),
{
    let ghost all = json::list_model(children@);
    let mut out: Vec<String> = Vec::new();
    let mut i: usize = 0;
    assert(text::texts(out@) =~= listed_ids(all.take(0)));
    while i < children.len()
        invariant
            i <= children@.len(),
            all == json::list_model(children@),
            text::texts(out@) == listed_ids(all.take(i as int)),
        decreases children@.len() - i,
    {
        let ghost had = text::texts(out@);
        proof {
            assert(all.take(i + 1).drop_last() =~= all.take(i as int));
            assert(all.take(i + 1).last() == children@[i as int]@);
        }
        match children[i].as_text() {
            Some(id) => {
                out.push(id.to_owned());
                assert(text::texts(out@) =~= had.push(id@));
            },
            None => {},
        }
        i = i + 1;
    }
    assert(all.take(all.len() as int) =~= all);
    out
}

fn stub_of(thing: &Json, depth: usize, post_id: Option<&str>) -> (r: Option<MoreStub>)
    ensures
        model::opt_stub(r) == thing_stub(thing@, depth, text::opt_str(post_id)),
{
    let data = match thing.get("data") {
        Some(data) => data,
        None => {
            return None;
        },
    };
    let id = match string_field(data, "id") {
        Some(id) => id,
        None => String::new(),
    };
    let stub_post = match post_of_link(data) {
        Some(post) => Some(post),
        None => match post_id {
            Some(post) => Some(post.to_owned()),
            None => None,
        },
    };
    let children: Vec<String> = match data.get("children") {
        Some(list) => match list.as_list() {
            Some(children) => ids_of(children),
            None => Vec::new(),
        },
        None => Vec::new(),
    };
    let count: usize = match int_field(data, "count") {
        Some(n) => if n > 0 {
            if n as u64 <= usize::MAX as u64 {
                n as usize
            } else {
                usize::MAX
            }
        } else {
            0
        },
        None => 0,
    };
    let stub = MoreStub {
        id,
        parent_id: string_field(data, "parent_id"),
        post_id: stub_post,
        children,
        count,
        depth,
    };
    assert(stub@.children =~= thing_stub(thing@, depth, text::opt_str(post_id))->0.children);
    Some(stub)
}

/// Reads the comments and stubs of a list of things.
fn capture_comments(
    things: &Vec<Json>,
    depth: usize,
    post_id: Option<&str>,
    comments: &mut Vec<RedditItem>,
    stubs: &mut Vec<MoreStub>,
)
    ensures
        model::items_model(final(comments)@) == model::items_model(old(comments)@) + comments_in(
            json::list_model(things@),
            depth,
        ),
        model::stubs_model(final(stubs)@) == model::stubs_model(old(stubs)@) + stubs_in(
            json::list_model(things@),
            depth,
            text::opt_str(post_id),
        ),
    decreases json::list_model(things@),
{
    let ghost all = json::list_model(things@);
    let ghost post = text::opt_str(post_id);
    let ghost before = model::items_model(comments@);
    let ghost stubs_before = model::stubs_model(stubs@);
    let mut i: usize = 0;
    proof {
        assert(before =~= before + comments_in(all.take(0), depth));
        assert(stubs_before =~= stubs_before + stubs_in(all.take(0), depth, post));
    }
    while i < things.len()
        invariant
            i <= things@.len(),
            all == json::list_model(things@),
            post == text::opt_str(post_id),
            model::items_model(comments@) == before + comments_in(all.take(i as int), depth),
            model::stubs_model(stubs@) == stubs_before + stubs_in(all.take(i as int), depth, post),
        decreases things@.len() - i,
    {
        let ghost had = model::items_model(comments@);
        let ghost stubs_had = model::stubs_model(stubs@);
        let ghost thing = things@[i as int]@;
        proof {
            assert(all.take(i + 1).drop_last() =~= all.take(i as int));
            assert(all.take(i + 1).last() == thing);
            assert(decreases_to!(all => all[i as int]));
            lemma_replies_smaller(thing);
        }
        if is_stub(&things[i]) {
            match stub_of(&things[i], depth, post_id) {
                Some(stub) => {
                    stubs.push(stub);
                },
                None => {},
            }
        } else {
            let ghost own = match thing_item(thing, depth, ItemSource::Json) {
                Some(item) => seq![item],
                None => Seq::empty(),
            };
            match parse_thing(&things[i], depth, ItemSource::Json) {
                Some(item) => {
                    comments.push(item);
                },
                None => {},
            }
            assert(model::items_model(comments@) =~= had + own);
            match replies_of(&things[i]) {
                Some(replies) => {
                    capture_comments(replies, deeper(depth), post_id, comments, stubs);
                    proof {
                        lemma_append(
                            had,
                            own,
                            comments_in(json::list_model(replies@), below(depth)),
                        );
                    }
                },
                None => {},
            }
        }
        proof {
            assert(model::items_model(comments@) =~= had + comments_under(thing, depth));
            assert(model::stubs_model(stubs@) =~= stubs_had + stubs_under(thing, depth, post));
            let read = comments_in(all.take(i as int), depth);
            assert(comments_in(all.take(i + 1), depth) == read + comments_under(thing, depth));
            lemma_append(before, read, comments_under(thing, depth));
            assert(model::items_model(comments@) == before + comments_in(all.take(i + 1), depth));
            let listed = stubs_in(all.take(i as int), depth, post);
            let own_stubs = stubs_under(thing, depth, post);
            assert(stubs_in(all.take(i + 1), depth, post) == listed + own_stubs);
            lemma_append(stubs_before, listed, own_stubs);
            assert(model::stubs_model(stubs@) == stubs_before + stubs_in(
                all.take(i + 1),
                depth,
                post,
            ));
        }
        i = i + 1;
    }
    assert(all.take(all.len() as int) =~= all);
}

/// The id of an optional post.
pub open spec fn id_of(post: Option<ItemModel>) -> Option<Seq<char>> {
    match post {
        Some(p) => Some(p.id),
        None => None,
    }
}

/// What a thread document tells of a thread.
pub open spec fn thread_capture(value: JsonModel) -> CaptureModel {
    CaptureModel {
        post: thread_post(value),
        comments: comments_in(thread_things(value), 0),
        more_stubs: stubs_in(thread_things(value), 0, id_of(thread_post(value))),
    }
}

/// Reads the post, comments and stubs of a thread document.
pub fn parse_thread_capture(value: &Json) -> (r: ThreadCapture)
    ensures
        r@ == thread_capture(value@),
{
    let post = post_of(value);
    let mut comments: Vec<RedditItem> = Vec::new();
    let mut more_stubs: Vec<MoreStub> = Vec::new();
    proof {
        assert(model::items_model(comments@) =~= Seq::empty());
        assert(model::stubs_model(more_stubs@) =~= Seq::empty());
    }
    let post_id: Option<&str> = match &post {
        Some(p) => Some(p.id.as_str()),
        None => None,
    };
    match listing_at(value, 1) {
        Some(listing) => match listing.list_at("data", "children") {
            Some(things) => {
                capture_comments(things, 0, post_id, &mut comments, &mut more_stubs);
            },
            None => {},
        },
        None => {},
    }
    proof {
        assert(model::items_model(comments@) =~= comments_in(thread_things(value@), 0));
        assert(model::stubs_model(more_stubs@) =~= stubs_in(
            thread_things(value@),
            0,
            id_of(thread_post(value@)),
        ));
    }
    ThreadCapture { post, comments, more_stubs }
}

/// The things in an answer to a request for hidden comments.
pub open spec fn more_things(value: JsonModel) -> Seq<JsonModel> {
    match value.get("json"@) {
        Some(inner) => match inner.list_at("data"@, "things"@) {
            Some(things) => things,
            None => Seq::empty(),
        },
        None => Seq::empty(),
    }
}

/// What an answer to a request for hidden comments tells of a thread.
pub open spec fn more_capture(value: JsonModel, post_id: Option<Seq<char>>) -> CaptureModel {
    CaptureModel {
        post: None,
        comments: comments_in(more_things(value), 0),
        more_stubs: stubs_in(more_things(value), 0, post_id),
    }
}

/// Reads an answer to a request for hidden comments.
pub fn parse_morechildren(value: &Json, post_id: Option<&str>) -> (r: ThreadCapture)
    ensures
        r@ == more_capture(value@, text::opt_str(post_id)),
{
    let mut comments: Vec<RedditItem> = Vec::new();
    let mut more_stubs: Vec<MoreStub> = Vec::new();
    proof {
        assert(model::items_model(comments@) =~= Seq::empty());
        assert(model::stubs_model(more_stubs@) =~= Seq::empty());
    }
    match value.get("json") {
        Some(inner) => match inner.list_at("data", "things") {
            Some(things) => {
                capture_comments(things, 0, post_id, &mut comments, &mut more_stubs);
            },
            None => {},
        },
        None => {},
    }
    proof {
        assert(model::items_model(comments@) =~= comments_in(more_things(value@), 0));
        assert(model::stubs_model(more_stubs@) =~= stubs_in(
            more_things(value@),
            0,
            text::opt_str(post_id),
        ));
    }
    ThreadCapture { post: None, comments, more_stubs }
}

// ---------------------------------------------------------------------------
// What holds of things
// ---------------------------------------------------------------------------

/// A text that is not empty stands under a key.
pub open spec fn says(data: JsonModel, key: Seq<char>, words: Seq<char>) -> bool {
    data.get(key) == Some(JsonModel::Text(words)) && words.len() > 0
}

/// No text stands under a key, or only an empty one.
pub open spec fn silent(data: JsonModel, key: Seq<char>) -> bool {
    forall|words: Seq<char>| !#[trigger] says(data, key, words)
}

/// A field holds the text under a key, and nothing where there is none.
pub open spec fn tells(field: Option<Seq<char>>, data: JsonModel, key: Seq<char>) -> bool {
    match field {
        Some(words) => says(data, key, words),
        None => silent(data, key),
    }
}

/// A field holds the text under a key, and the one under another key only where
/// there is none.
pub open spec fn tells_first(
    field: Option<Seq<char>>,
    data: JsonModel,
    key: Seq<char>,
    other: Seq<char>,
) -> bool {
    &&& !silent(data, key) ==> tells(field, data, key)
    &&& silent(data, key) ==> tells(field, data, other)
}

/// A field holds the integer under a key.
pub open spec fn counts(field: Option<i64>, data: JsonModel, key: Seq<char>) -> bool {
    forall|n: i64|
        field == Some(n) <==> #[trigger] integer_under(data, key, n)
}

/// An integer stands under a key.
pub open spec fn integer_under(data: JsonModel, key: Seq<char>, n: i64) -> bool {
    data.get(key) matches Some(JsonModel::Number(number)) && number.integer == Some(n)
}

/// A number stands under a key.
pub open spec fn number_under(data: JsonModel, key: Seq<char>, n: Real) -> bool {
    data.get(key) matches Some(JsonModel::Number(number)) && number.real == Some(n)
}

/// A field holds the number under a key.
pub open spec fn measures(field: Option<Real>, data: JsonModel, key: Seq<char>) -> bool {
    forall|n: Real| field == Some(n) <==> #[trigger] number_under(data, key, n)
}

/// A field holds the truth value under a key.
pub open spec fn affirms(field: Option<bool>, data: JsonModel, key: Seq<char>) -> bool {
    match field {
        Some(flag) => data.get(key) == Some(JsonModel::Bool(flag)),
        None => !(data.get(key) matches Some(JsonModel::Bool(_))),
    }
}

/// The type prefix of a thing is a word.
pub open spec fn is_of_type(thing: JsonModel, word: Seq<char>) -> bool {
    thing.get("kind"@) == Some(JsonModel::Text(word))
}

proof fn lemma_says(data: JsonModel, key: Seq<char>)
    ensures
        forall|words: Seq<char>|
            #[trigger] says(data, key, words) <==> string_at(data, key) == Some(words),
        silent(data, key) <==> string_at(data, key) is None,
{
    if let Some(words) = string_at(data, key) {
        assert(says(data, key, words));
    }
}

/// Each text of an item is the one that its data hold under the key of that
/// name. The author is the name only where no author is told, the title the
/// display name only where there is no title, and the body the text of a post
/// only where there is no body.
pub proof fn law_texts_of_an_item(
    thing: JsonModel,
    data: JsonModel,
    depth: usize,
    source: ItemSource,
    item: ItemModel,
)
    requires
        thing.get("data"@) == Some(data),
        thing_item(thing, depth, source) == Some(item),
    ensures
        tells_first(item.author, data, "author"@, "name"@),
        tells_first(item.title, data, "title"@, "display_name_prefixed"@),
        tells_first(item.body, data, "body"@, "selftext"@),
        tells(item.subreddit, data, "subreddit"@),
        tells(item.flair, data, "link_flair_text"@),
        tells(item.url, data, "url"@),
        tells(item.parent_id, data, "parent_id"@),
        silent(data, "permalink"@) ==> item.permalink is None,
        forall|link: Seq<char>| #[trigger]
            says(data, "permalink"@, link) ==> item.permalink == Some(model::canonical(link)),
{
    lemma_says(data, "author"@);
    lemma_says(data, "name"@);
    lemma_says(data, "title"@);
    lemma_says(data, "display_name_prefixed"@);
    lemma_says(data, "body"@);
    lemma_says(data, "selftext"@);
    lemma_says(data, "subreddit"@);
    lemma_says(data, "link_flair_text"@);
    lemma_says(data, "url"@);
    lemma_says(data, "parent_id"@);
    lemma_says(data, "permalink"@);
}

/// An item is named by its id and its full name. Where the id is not told it is
/// the full name, and where the full name is not told it is the type and the id.
/// The kind is the one of the type. A comment belongs to the post that its data
/// link to, and a post to itself.
pub proof fn law_names_of_an_item(
    thing: JsonModel,
    data: JsonModel,
    depth: usize,
    source: ItemSource,
    item: ItemModel,
)
    requires
        thing.get("data"@) == Some(data),
        thing_item(thing, depth, source) == Some(item),
    ensures
        forall|id: Seq<char>| #[trigger] says(data, "id"@, id) ==> item.id == id,
        silent(data, "id"@) ==> forall|name: Seq<char>| #[trigger]
            says(data, "name"@, name) ==> item.id == name,
        silent(data, "id"@) && silent(data, "name"@) ==> item.id.len() == 0,
        forall|name: Seq<char>| #[trigger] says(data, "name"@, name) ==> item.fullname == name,
        silent(data, "name"@) ==> forall|word: Seq<char>| #[trigger]
            is_of_type(thing, word) ==> item.fullname == if item.id.len() == 0 {
                word
            } else {
                word + "_"@ + item.id
            },
        item.kind == ItemKind::Post <==> is_of_type(thing, "t3"@),
        item.kind == ItemKind::Comment <==> is_of_type(thing, "t1"@),
        item.kind == ItemKind::Subreddit <==> is_of_type(thing, "t5"@),
        item.kind == ItemKind::User <==> is_of_type(thing, "t2"@),
        item.kind == ItemKind::More <==> is_of_type(thing, "more"@),
        forall|id: Seq<char>| #[trigger]
            says(data, "link_id"@, "t3_"@ + id) ==> item.post_id == Some(id),
        silent(data, "link_id"@) ==> item.post_id == if is_of_type(thing, "t3"@) {
            Some(item.id)
        } else {
            None
        },
{
    reveal_strlit("t1");
    reveal_strlit("t2");
    reveal_strlit("t3");
    reveal_strlit("t5");
    reveal_strlit("more");
    lemma_says(data, "id"@);
    lemma_says(data, "name"@);
    lemma_says(data, "link_id"@);
    assert("t1"@ != "t2"@ && "t1"@ != "t3"@ && "t1"@ != "t5"@ && "t2"@ != "t3"@ && "t2"@ != "t5"@
        && "t3"@ != "t5"@) by {
        assert("t1"@[1] != "t2"@[1] && "t1"@[1] != "t3"@[1] && "t1"@[1] != "t5"@[1]);
        assert("t2"@[1] != "t3"@[1] && "t2"@[1] != "t5"@[1] && "t3"@[1] != "t5"@[1]);
    }
    assert("more"@.len() == 4);
    assert(raw_kind(thing).len() > 0 ==> is_of_type(thing, raw_kind(thing)));
    assert forall|id: Seq<char>| #[trigger] says(data, "link_id"@, "t3_"@ + id) implies item.post_id
        == Some(id) by {
        assert(("t3_"@ + id).skip("t3_"@.len() as int) =~= id);
        assert("t3_"@.is_prefix_of("t3_"@ + id)) by {
            assert(("t3_"@ + id).subrange(0, "t3_"@.len() as int) =~= "t3_"@);
        }
    }
}

/// Each figure of an item is the one that its data hold under the key of that
/// name.
pub proof fn law_figures_of_an_item(
    thing: JsonModel,
    data: JsonModel,
    depth: usize,
    source: ItemSource,
    item: ItemModel,
)
    requires
        thing.get("data"@) == Some(data),
        thing_item(thing, depth, source) == Some(item),
    ensures
        counts(item.score, data, "score"@),
        counts(item.num_comments, data, "num_comments"@),
        measures(item.upvote_ratio, data, "upvote_ratio"@),
        measures(item.created_utc, data, "created_utc"@),
        measures(item.edited_utc, data, "edited"@),
        affirms(item.is_self, data, "is_self"@),
        affirms(item.over_18, data, "over_18"@),
        item.index is None,
        item.depth == depth,
        item.source == source,
{
}

/// A thing is an item exactly where it has data.
pub proof fn law_things_with_data_are_items(thing: JsonModel, depth: usize, source: ItemSource)
    ensures
        thing_item(thing, depth, source) is Some <==> thing.get("data"@) is Some,
{
}

// ---------------------------------------------------------------------------
// What holds of listings and threads
// ---------------------------------------------------------------------------

/// A list stands under `data` and then a key.
pub open spec fn lists(value: JsonModel, key: Seq<char>, things: Seq<JsonModel>) -> bool {
    match value.get("data"@) {
        Some(data) => data.get(key) == Some(JsonModel::List(things)),
        None => false,
    }
}

/// A list of things stands in the replies of a thing.
pub open spec fn is_answered_by(thing: JsonModel, things: Seq<JsonModel>) -> bool {
    match thing.get("data"@) {
        Some(data) => match data.get("replies"@) {
            Some(replies) => lists(replies, "children"@, things),
            None => false,
        },
        None => false,
    }
}

/// A way leads from a list of things to a thing: its first step picks a thing
/// of the list, and each further step one of the replies to the thing before,
/// which is no stub.
pub open spec fn leads_to(things: Seq<JsonModel>, way: Seq<int>, thing: JsonModel) -> bool
    decreases way.len(),
{
    &&& way.len() > 0
    &&& 0 <= way[0] < things.len()
    &&& if way.len() == 1 {
        things[way[0]] == thing
    } else {
        &&& !is_of_type(things[way[0]], "more"@)
        &&& exists|replies: Seq<JsonModel>| #[trigger]
            is_answered_by(things[way[0]], replies) && leads_to(replies, way.skip(1), thing)
    }
}

/// One way comes before another in reading order: a thing before its replies,
/// and before the things after it.
pub open spec fn comes_before(a: Seq<int>, b: Seq<int>) -> bool
    decreases a.len(),
{
    if a.len() == 0 || b.len() == 0 {
        a.len() == 0 && b.len() > 0
    } else {
        a[0] < b[0] || (a[0] == b[0] && comes_before(a.skip(1), b.skip(1)))
    }
}

/// Ways in reading order, none of them twice.
pub open spec fn in_reading_order(ways: Seq<Seq<int>>) -> bool {
    forall|j: int, k: int|
        0 <= j < k < ways.len() ==> comes_before(#[trigger] ways[j], #[trigger] ways[k])
}

/// The item of the thing at the end of a way, which is no stub.
pub open spec fn is_comment_on(
    things: Seq<JsonModel>,
    depth: usize,
    way: Seq<int>,
    comment: ItemModel,
) -> bool {
    exists|thing: JsonModel| #[trigger]
        leads_to(things, way, thing) && !is_of_type(thing, "more"@) && thing_item(
            thing,
            model::capped((depth + way.len() - 1) as nat),
            ItemSource::Json,
        ) == Some(comment)
}

/// The stub of the thing at the end of a way.
pub open spec fn is_stub_on(
    things: Seq<JsonModel>,
    depth: usize,
    post_id: Option<Seq<char>>,
    way: Seq<int>,
    stub: StubModel,
) -> bool {
    exists|thing: JsonModel| #[trigger]
        leads_to(things, way, thing) && is_of_type(thing, "more"@) && thing_stub(
            thing,
            model::capped((depth + way.len() - 1) as nat),
            post_id,
        ) == Some(stub)
}

/// The number of comments that the stub at the end of a way stands for.
pub open spec fn is_hidden_on(things: Seq<JsonModel>, way: Seq<int>, n: nat) -> bool {
    exists|thing: JsonModel| #[trigger]
        leads_to(things, way, thing) && is_of_type(thing, "more"@) && stands_for(thing, n)
}

/// The comments found on some ways: exactly the things with data that are no
/// stubs, in reading order, each as deep as its way is long.
pub open spec fn comments_on(
    things: Seq<JsonModel>,
    depth: usize,
    ways: Seq<Seq<int>>,
    comments: Seq<ItemModel>,
) -> bool {
    &&& ways.len() == comments.len()
    &&& in_reading_order(ways)
    &&& forall|k: int| #![trigger ways[k]]
        0 <= k < ways.len() ==> is_comment_on(things, depth, ways[k], comments[k])
    &&& forall|way: Seq<int>, thing: JsonModel| #[trigger]
        leads_to(things, way, thing) && !is_of_type(thing, "more"@) && thing.get("data"@) is Some
            ==> ways.contains(way)
}

/// The stubs found on some ways: exactly the stubs with data, in reading order,
/// each as deep as its way is long.
pub open spec fn stubs_on(
    things: Seq<JsonModel>,
    depth: usize,
    post_id: Option<Seq<char>>,
    ways: Seq<Seq<int>>,
    stubs: Seq<StubModel>,
) -> bool {
    &&& ways.len() == stubs.len()
    &&& in_reading_order(ways)
    &&& forall|k: int| #![trigger ways[k]]
        0 <= k < ways.len() ==> is_stub_on(things, depth, post_id, ways[k], stubs[k])
    &&& forall|way: Seq<int>, thing: JsonModel| #[trigger]
        leads_to(things, way, thing) && is_of_type(thing, "more"@) && thing.get("data"@) is Some
            ==> ways.contains(way)
}

/// The sum of some numbers.
pub open spec fn total(numbers: Seq<nat>) -> nat
    decreases numbers.len(),
{
    if numbers.len() == 0 {
        0
    } else {
        total(numbers.drop_last()) + numbers.last()
    }
}

/// A number of comments that a stub stands for: as many as it lists, or one
/// where it lists none.
pub open spec fn stands_for(thing: JsonModel, n: nat) -> bool {
    &&& n >= 1
    &&& forall|children: Seq<JsonModel>| #[trigger]
        lists(thing, "children"@, children) ==> n >= children.len() && (n == children.len() || n
            == 1)
    &&& (forall|children: Seq<JsonModel>| !#[trigger] lists(thing, "children"@, children)) ==> n
        == 1
}

/// The numbers of comments behind the stubs on some ways: one for each stub.
pub open spec fn hidden_on(things: Seq<JsonModel>, ways: Seq<Seq<int>>, numbers: Seq<nat>) -> bool {
    &&& ways.len() == numbers.len()
    &&& in_reading_order(ways)
    &&& forall|k: int| #![trigger ways[k]]
        0 <= k < ways.len() ==> is_hidden_on(things, ways[k], numbers[k])
    &&& forall|way: Seq<int>, thing: JsonModel| #[trigger]
        leads_to(things, way, thing) && is_of_type(thing, "more"@) ==> ways.contains(way)
}

/// The ways to the wanted things, in reading order.
spec fn ways_in(things: Seq<JsonModel>, wanted: spec_fn(JsonModel) -> bool) -> Seq<Seq<int>>
    decreases things, 1int,
{
    if things.len() == 0 {
        Seq::empty()
    } else {
        ways_in(things.drop_last(), wanted) + ways_under(
            things.last(),
            (things.len() - 1) as int,
            wanted,
        )
    }
}

/// The ways to a wanted thing at a position and to the wanted things among its
/// replies.
spec fn ways_under(thing: JsonModel, n: int, wanted: spec_fn(JsonModel) -> bool) -> Seq<Seq<int>>
    decreases thing, 0int,
{
    proof {
        lemma_replies_smaller(thing);
    }
    let own = if wanted(thing) {
        seq![seq![n]]
    } else {
        Seq::empty()
    };
    match reply_things(thing) {
        Some(replies) => if is_more(thing) {
            own
        } else {
            own + behind(n, ways_in(replies, wanted))
        },
        None => own,
    }
}

/// Ways with one more step in front.
spec fn behind(n: int, ways: Seq<Seq<int>>) -> Seq<Seq<int>> {
    Seq::new(ways.len(), |k: int| seq![n] + ways[k])
}

proof fn lemma_answered(thing: JsonModel)
    ensures
        forall|replies: Seq<JsonModel>| #[trigger]
            is_answered_by(thing, replies) <==> reply_things(thing) == Some(replies),
        is_of_type(thing, "more"@) <==> is_more(thing),
{
}

proof fn lemma_behind_in_order(n: int, ways: Seq<Seq<int>>)
    requires
        in_reading_order(ways),
        forall|k: int| 0 <= k < ways.len() ==> (#[trigger] ways[k]).len() > 0,
    ensures
        in_reading_order(behind(n, ways)),
        forall|k: int| #![trigger behind(n, ways)[k]]
            0 <= k < ways.len() ==> comes_before(seq![n], behind(n, ways)[k]),
{
    let next = behind(n, ways);
    assert forall|k: int| #![trigger next[k]] 0 <= k < ways.len() implies comes_before(
        seq![n],
        next[k],
    ) by {
        reveal_with_fuel(comes_before, 2);
        assert(next[k].skip(1) =~= ways[k]);
        assert(seq![n].skip(1).len() == 0);
    }
    assert forall|j: int, k: int| 0 <= j < k < next.len() implies comes_before(
        #[trigger] next[j],
        #[trigger] next[k],
    ) by {
        assert(next[j].skip(1) =~= ways[j]);
        assert(next[k].skip(1) =~= ways[k]);
    }
}

/// A way leads to a wanted thing.
spec fn finds(things: Seq<JsonModel>, way: Seq<int>, wanted: spec_fn(JsonModel) -> bool) -> bool {
    exists|thing: JsonModel| #[trigger] leads_to(things, way, thing) && wanted(thing)
}

/// The ways to the wanted things are in order, lead to wanted things, and are
/// all that do.
proof fn lemma_ways(things: Seq<JsonModel>, wanted: spec_fn(JsonModel) -> bool)
    ensures
        in_reading_order(ways_in(things, wanted)),
        forall|k: int| #![trigger ways_in(things, wanted)[k]]
            0 <= k < ways_in(things, wanted).len() ==> finds(
                things,
                ways_in(things, wanted)[k],
                wanted,
            ),
        forall|way: Seq<int>, thing: JsonModel| #[trigger]
            leads_to(things, way, thing) && wanted(thing) ==> ways_in(things, wanted).contains(way),
    decreases things, 1int,
{
    if things.len() > 0 {
        let front = things.drop_last();
        let n = (things.len() - 1) as int;
        let last = things[n];
        lemma_ways(front, wanted);
        lemma_ways_under(last, n, wanted);
        let a = ways_in(front, wanted);
        let b = ways_under(last, n, wanted);
        let all = ways_in(things, wanted);
        assert(all == a + b);
        assert forall|way: Seq<int>, thing: JsonModel| way.len() > 0 && way[0] < n implies
            #[trigger] leads_to(things, way, thing) == leads_to(front, way, thing) by {
            if 0 <= way[0] {
                assert(front[way[0]] == things[way[0]]);
            }
        }
        assert forall|way: Seq<int>, thing: JsonModel| way.len() > 0 && way[0] == n implies
            #[trigger] leads_to(things, way, thing) == leads_under(last, way, thing) by {
        }
        assert forall|k: int| #![trigger all[k]] 0 <= k < all.len() implies finds(
            things,
            all[k],
            wanted,
        ) by {
            if k < a.len() {
                assert(all[k] == a[k]);
                assert(finds(front, a[k], wanted));
                let thing = choose|thing: JsonModel| #[trigger]
                    leads_to(front, a[k], thing) && wanted(thing);
                assert(leads_to(things, all[k], thing));
            } else {
                assert(all[k] == b[k - a.len()]);
                let thing = choose|thing: JsonModel| #[trigger]
                    leads_under(last, b[k - a.len()], thing) && wanted(thing);
                assert(leads_to(things, all[k], thing));
            }
        }
        assert forall|j: int, k: int| 0 <= j < k < all.len() implies comes_before(
            #[trigger] all[j],
            #[trigger] all[k],
        ) by {
            if k < a.len() {
                assert(all[j] == a[j] && all[k] == a[k]);
            } else if j >= a.len() {
                assert(all[j] == b[j - a.len()] && all[k] == b[k - a.len()]);
            } else {
                assert(all[j] == a[j] && all[k] == b[k - a.len()]);
                assert(finds(front, a[j], wanted));
                let thing = choose|thing: JsonModel| #[trigger]
                    leads_to(front, a[j], thing) && wanted(thing);
                assert(a[j][0] < n);
            }
        }
        assert forall|way: Seq<int>, thing: JsonModel| #[trigger]
            leads_to(things, way, thing) && wanted(thing) implies all.contains(way) by {
            if way[0] < n {
                assert(leads_to(front, way, thing));
                let k = choose|k: int| 0 <= k < a.len() && a[k] == way;
                assert(all[k] == way);
            } else {
                assert(leads_under(last, way, thing));
                let k = choose|k: int| 0 <= k < b.len() && b[k] == way;
                assert(all[a.len() + k] == way);
            }
        }
    } else {
        assert(ways_in(things, wanted).len() == 0);
    }
}

/// A way leads to a thing or on to one among its replies.
spec fn leads_under(last: JsonModel, way: Seq<int>, thing: JsonModel) -> bool {
    &&& way.len() > 0
    &&& if way.len() == 1 {
        last == thing
    } else {
        &&& !is_of_type(last, "more"@)
        &&& exists|replies: Seq<JsonModel>| #[trigger]
            is_answered_by(last, replies) && leads_to(replies, way.skip(1), thing)
    }
}

proof fn lemma_ways_under(last: JsonModel, n: int, wanted: spec_fn(JsonModel) -> bool)
    ensures
        in_reading_order(ways_under(last, n, wanted)),
        forall|k: int| #![trigger ways_under(last, n, wanted)[k]]
            0 <= k < ways_under(last, n, wanted).len() ==> ways_under(last, n, wanted)[k].len() > 0
                && ways_under(last, n, wanted)[k][0] == n && exists|thing: JsonModel| #[trigger]
                leads_under(last, ways_under(last, n, wanted)[k], thing) && wanted(thing),
        forall|way: Seq<int>, thing: JsonModel| #[trigger]
            leads_under(last, way, thing) && way[0] == n && wanted(thing) ==> ways_under(
                last,
                n,
                wanted,
            ).contains(way),
    decreases last, 0int,
{
    lemma_answered(last);
    let all = ways_under(last, n, wanted);
    let own: Seq<Seq<int>> = if wanted(last) {
        seq![seq![n]]
    } else {
        Seq::empty()
    };
    if wanted(last) {
        assert(leads_under(last, seq![n], last));
    }
    if is_more(last) || reply_things(last) is None {
        assert(all == own);
        assert forall|way: Seq<int>, thing: JsonModel| #[trigger]
            leads_under(last, way, thing) && way[0] == n && wanted(thing) implies all.contains(
            way,
        ) by {
            assert(way.len() == 1);
            assert(way =~= seq![n]);
            assert(all[0] == way);
        }
    } else {
        let replies = reply_things(last)->0;
        lemma_replies_smaller(last);
        lemma_ways(replies, wanted);
        let inner = ways_in(replies, wanted);
        let deep = behind(n, inner);
        assert(is_answered_by(last, replies));
        assert forall|k: int| 0 <= k < inner.len() implies (#[trigger] inner[k]).len() > 0 by {
            assert(finds(replies, inner[k], wanted));
            let thing = choose|thing: JsonModel| #[trigger]
                leads_to(replies, inner[k], thing) && wanted(thing);
        }
        lemma_behind_in_order(n, inner);
        assert(all == own + deep);
        assert forall|j: int, k: int| 0 <= j < k < all.len() implies comes_before(
            #[trigger] all[j],
            #[trigger] all[k],
        ) by {
            assert(all[k] == deep[k - own.len()]);
            if j >= own.len() {
                assert(all[j] == deep[j - own.len()]);
            }
        }
        assert forall|k: int| #![trigger all[k]] 0 <= k < all.len() implies all[k].len() > 0
            && all[k][0] == n && exists|thing: JsonModel| #[trigger]
            leads_under(last, all[k], thing) && wanted(thing) by {
            if k < own.len() {
                assert(all[k] == seq![n]);
            } else {
                let i = k - own.len();
                assert(all[k] == deep[i]);
                assert(finds(replies, inner[i], wanted));
                let thing = choose|thing: JsonModel| #[trigger]
                    leads_to(replies, inner[i], thing) && wanted(thing);
                assert(deep[i].skip(1) =~= inner[i]);
                assert(leads_under(last, all[k], thing));
            }
        }
        assert forall|way: Seq<int>, thing: JsonModel| #[trigger]
            leads_under(last, way, thing) && way[0] == n && wanted(thing) implies all.contains(
            way,
        ) by {
            if way.len() == 1 {
                assert(way =~= seq![n]);
                assert(all[0] == way);
            } else {
                assert(leads_to(replies, way.skip(1), thing));
                let i = choose|i: int| 0 <= i < inner.len() && inner[i] == way.skip(1);
                assert(deep[i] =~= way);
                assert(all[own.len() + i] == way);
            }
        }
    }
}

/// Whether a thing is a comment or another item that is no stub.
spec fn comment_with_data() -> spec_fn(JsonModel) -> bool {
    |thing: JsonModel| !is_of_type(thing, "more"@) && thing.get("data"@) is Some
}

/// Whether a thing is a stub with data.
spec fn stub_with_data() -> spec_fn(JsonModel) -> bool {
    |thing: JsonModel| is_of_type(thing, "more"@) && thing.get("data"@) is Some
}

/// Whether a thing is a stub.
spec fn any_stub() -> spec_fn(JsonModel) -> bool {
    |thing: JsonModel| is_of_type(thing, "more"@)
}

/// The comments found are those on the ways to them.
proof fn lemma_comments_on_ways(things: Seq<JsonModel>, depth: usize)
    ensures
        comments_in(things, depth).len() == ways_in(things, comment_with_data()).len(),
        forall|k: int, thing: JsonModel|
            0 <= k < ways_in(things, comment_with_data()).len() && #[trigger] leads_to(
                things,
                ways_in(things, comment_with_data())[k],
                thing,
            ) ==> thing_item(thing, model::capped((depth + ways_in(things, comment_with_data())[k].len() - 1) as nat), ItemSource::Json) == Some(comments_in(things, depth)[k]),
    decreases things, 1int,
{
    if things.len() > 0 {
        let front = things.drop_last();
        let n = (things.len() - 1) as int;
        let last = things[n];
        lemma_comments_on_ways(front, depth);
        lemma_comments_on_ways_under(last, n, depth);
        lemma_ways(front, comment_with_data());
        lemma_ways_under(last, n, comment_with_data());
        let a = ways_in(front, comment_with_data());
        let b = ways_under(last, n, comment_with_data());
        let all = ways_in(things, comment_with_data());
        let found = comments_in(things, depth);
        assert(all == a + b);
        assert(found == comments_in(front, depth) + comments_under(last, depth));
        assert forall|k: int, thing: JsonModel|
            0 <= k < all.len() && #[trigger] leads_to(things, all[k], thing) implies thing_item(thing, model::capped((depth + all[k].len() - 1) as nat), ItemSource::Json) == Some(found[k]) by {
            if k < a.len() {
                assert(all[k] == a[k]);
                assert(finds(front, a[k], comment_with_data()));
                assert(a[k][0] < n);
                assert(front[a[k][0]] == things[a[k][0]]);
                assert(leads_to(front, a[k], thing));
            } else {
                assert(all[k] == b[k - a.len()]);
                assert(leads_under(last, b[k - a.len()], thing));
            }
        }
    }
}

proof fn lemma_comments_on_ways_under(last: JsonModel, n: int, depth: usize)
    ensures
        comments_under(last, depth).len() == ways_under(last, n, comment_with_data()).len(),
        forall|k: int, thing: JsonModel|
            0 <= k < ways_under(last, n, comment_with_data()).len() && #[trigger] leads_under(
                last,
                ways_under(last, n, comment_with_data())[k],
                thing,
            ) ==> thing_item(thing, model::capped((depth + ways_under(last, n, comment_with_data())[k].len() - 1) as nat), ItemSource::Json) == Some(comments_under(last, depth)[k]),
    decreases last, 0int,
{
    lemma_answered(last);
    let all = ways_under(last, n, comment_with_data());
    let found = comments_under(last, depth);
    let own: Seq<Seq<int>> = if comment_with_data()(last) {
        seq![seq![n]]
    } else {
        Seq::empty()
    };
    if is_more(last) || reply_things(last) is None {
        assert(all == own);
    } else {
        let replies = reply_things(last)->0;
        lemma_replies_smaller(last);
        lemma_comments_on_ways(replies, below(depth));
        lemma_ways(replies, comment_with_data());
        let inner = ways_in(replies, comment_with_data());
        let deep = behind(n, inner);
        assert(all == own + deep);
        assert forall|k: int, thing: JsonModel|
            0 <= k < all.len() && #[trigger] leads_under(last, all[k], thing) implies thing_item(thing, model::capped((depth + all[k].len() - 1) as nat), ItemSource::Json) == Some(found[k]) by {
            if k < own.len() {
                assert(all[k] == seq![n]);
                assert(thing == last);
            } else {
                let i = k - own.len();
                assert(all[k] == deep[i]);
                assert(deep[i].skip(1) =~= inner[i]);
                assert(finds(replies, inner[i], comment_with_data()));
                assert(inner[i].len() > 0);
                assert(leads_to(replies, inner[i], thing));
                assert(found[k] == comments_in(replies, below(depth))[i]);
            }
        }
    }
}

/// The stubs found are those on the ways to them.
proof fn lemma_stubs_on_ways(things: Seq<JsonModel>, depth: usize, post_id: Option<Seq<char>>)
    ensures
        stubs_in(things, depth, post_id).len() == ways_in(things, stub_with_data()).len(),
        forall|k: int, thing: JsonModel|
            0 <= k < ways_in(things, stub_with_data()).len() && #[trigger] leads_to(
                things,
                ways_in(things, stub_with_data())[k],
                thing,
            ) ==> thing_stub(thing, model::capped((depth + ways_in(things, stub_with_data())[k].len() - 1) as nat), post_id) == Some(stubs_in(things, depth, post_id)[k]),
    decreases things, 1int,
{
    if things.len() > 0 {
        let front = things.drop_last();
        let n = (things.len() - 1) as int;
        let last = things[n];
        lemma_stubs_on_ways(front, depth, post_id);
        lemma_stubs_on_ways_under(last, n, depth, post_id);
        lemma_ways(front, stub_with_data());
        lemma_ways_under(last, n, stub_with_data());
        let a = ways_in(front, stub_with_data());
        let b = ways_under(last, n, stub_with_data());
        let all = ways_in(things, stub_with_data());
        let found = stubs_in(things, depth, post_id);
        assert(all == a + b);
        assert(found == stubs_in(front, depth, post_id) + stubs_under(last, depth, post_id));
        assert forall|k: int, thing: JsonModel|
            0 <= k < all.len() && #[trigger] leads_to(things, all[k], thing) implies thing_stub(thing, model::capped((depth + all[k].len() - 1) as nat), post_id) == Some(found[k]) by {
            if k < a.len() {
                assert(all[k] == a[k]);
                assert(finds(front, a[k], stub_with_data()));
                assert(a[k][0] < n);
                assert(front[a[k][0]] == things[a[k][0]]);
                assert(leads_to(front, a[k], thing));
            } else {
                assert(all[k] == b[k - a.len()]);
                assert(leads_under(last, b[k - a.len()], thing));
            }
        }
    }
}

proof fn lemma_stubs_on_ways_under(last: JsonModel, n: int, depth: usize, post_id: Option<Seq<char>>)
    ensures
        stubs_under(last, depth, post_id).len() == ways_under(last, n, stub_with_data()).len(),
        forall|k: int, thing: JsonModel|
            0 <= k < ways_under(last, n, stub_with_data()).len() && #[trigger] leads_under(
                last,
                ways_under(last, n, stub_with_data())[k],
                thing,
            ) ==> thing_stub(thing, model::capped((depth + ways_under(last, n, stub_with_data())[k].len() - 1) as nat), post_id) == Some(stubs_under(last, depth, post_id)[k]),
    decreases last, 0int,
{
    lemma_answered(last);
    let all = ways_under(last, n, stub_with_data());
    let found = stubs_under(last, depth, post_id);
    let own: Seq<Seq<int>> = if stub_with_data()(last) {
        seq![seq![n]]
    } else {
        Seq::empty()
    };
    if is_more(last) || reply_things(last) is None {
        assert(all == own);
    } else {
        let replies = reply_things(last)->0;
        lemma_replies_smaller(last);
        lemma_stubs_on_ways(replies, below(depth), post_id);
        lemma_ways(replies, stub_with_data());
        let inner = ways_in(replies, stub_with_data());
        let deep = behind(n, inner);
        assert(all == own + deep);
        assert forall|k: int, thing: JsonModel|
            0 <= k < all.len() && #[trigger] leads_under(last, all[k], thing) implies thing_stub(thing, model::capped((depth + all[k].len() - 1) as nat), post_id) == Some(found[k]) by {
            if k < own.len() {
                assert(all[k] == seq![n]);
                assert(thing == last);
            } else {
                let i = k - own.len();
                assert(all[k] == deep[i]);
                assert(deep[i].skip(1) =~= inner[i]);
                assert(finds(replies, inner[i], stub_with_data()));
                assert(inner[i].len() > 0);
                assert(leads_to(replies, inner[i], thing));
                assert(found[k] == stubs_in(replies, below(depth), post_id)[i]);
            }
        }
    }
}

/// The comments of a list of things are exactly the things in it, and in the
/// replies at any depth, that have data and are no stubs. They come in reading
/// order, each as deep as it lies.
pub proof fn law_every_comment_is_read(things: Seq<JsonModel>, depth: usize)
    ensures
        exists|ways: Seq<Seq<int>>| #[trigger]
            comments_on(things, depth, ways, comments_in(things, depth)),
{
    let wanted = comment_with_data();
    let ways = ways_in(things, wanted);
    lemma_ways(things, wanted);
    lemma_comments_on_ways(things, depth);
    assert forall|k: int| #![trigger ways[k]] 0 <= k < ways.len() implies is_comment_on(
        things,
        depth,
        ways[k],
        comments_in(things, depth)[k],
    ) by {
        assert(finds(things, ways[k], wanted));
        let thing = choose|thing: JsonModel| #[trigger]
            leads_to(things, ways[k], thing) && wanted(thing);
        assert(leads_to(things, ways[k], thing));
    }
    assert(comments_on(things, depth, ways, comments_in(things, depth)));
}

/// The stubs of a list of things are exactly the stubs with data in it and in
/// the replies at any depth. They come in reading order, each as deep as it
/// lies.
pub proof fn law_every_stub_is_read(
    things: Seq<JsonModel>,
    depth: usize,
    post_id: Option<Seq<char>>,
)
    ensures
        exists|ways: Seq<Seq<int>>| #[trigger]
            stubs_on(things, depth, post_id, ways, stubs_in(things, depth, post_id)),
{
    let wanted = stub_with_data();
    let ways = ways_in(things, wanted);
    lemma_ways(things, wanted);
    lemma_stubs_on_ways(things, depth, post_id);
    assert forall|k: int| #![trigger ways[k]] 0 <= k < ways.len() implies is_stub_on(
        things,
        depth,
        post_id,
        ways[k],
        stubs_in(things, depth, post_id)[k],
    ) by {
        assert(finds(things, ways[k], wanted));
        let thing = choose|thing: JsonModel| #[trigger]
            leads_to(things, ways[k], thing) && wanted(thing);
        assert(leads_to(things, ways[k], thing));
    }
    assert(stubs_on(things, depth, post_id, ways, stubs_in(things, depth, post_id)));
}

/// The numbers of comments behind the stubs, in reading order.
spec fn numbers_in(things: Seq<JsonModel>) -> Seq<nat>
    decreases things, 1int,
{
    if things.len() == 0 {
        Seq::empty()
    } else {
        numbers_in(things.drop_last()) + numbers_under(things.last())
    }
}

spec fn numbers_under(thing: JsonModel) -> Seq<nat>
    decreases thing, 0int,
{
    proof {
        lemma_replies_smaller(thing);
    }
    if is_more(thing) {
        seq![hidden_by(thing)]
    } else {
        match reply_things(thing) {
            Some(replies) => numbers_in(replies),
            None => Seq::empty(),
        }
    }
}

proof fn lemma_total_of_both(a: Seq<nat>, b: Seq<nat>)
    ensures
        total(a + b) == total(a) + total(b),
    decreases b.len(),
{
    if b.len() == 0 {
        assert(a + b =~= a);
    } else {
        lemma_total_of_both(a, b.drop_last());
        assert((a + b).drop_last() =~= a + b.drop_last());
        assert((a + b).last() == b.last());
    }
}

proof fn lemma_stands_for(thing: JsonModel)
    ensures
        stands_for(thing, hidden_by(thing)),
{
    if let Some(children) = thing.list_at("data"@, "children"@) {
        assert(lists(thing, "children"@, children));
    }
}

proof fn lemma_hidden_on_ways(things: Seq<JsonModel>)
    ensures
        hidden_in(things) == total(numbers_in(things)),
        numbers_in(things).len() == ways_in(things, any_stub()).len(),
        forall|k: int, thing: JsonModel|
            0 <= k < ways_in(things, any_stub()).len() && #[trigger] leads_to(
                things,
                ways_in(things, any_stub())[k],
                thing,
            ) ==> stands_for(thing, numbers_in(things)[k]),
    decreases things, 1int,
{
    if things.len() > 0 {
        let front = things.drop_last();
        let n = (things.len() - 1) as int;
        let last = things[n];
        lemma_hidden_on_ways(front);
        lemma_hidden_on_ways_under(last, n);
        lemma_ways(front, any_stub());
        lemma_ways_under(last, n, any_stub());
        lemma_total_of_both(numbers_in(front), numbers_under(last));
        let a = ways_in(front, any_stub());
        let b = ways_under(last, n, any_stub());
        let all = ways_in(things, any_stub());
        let found = numbers_in(things);
        assert(all == a + b);
        assert(found == numbers_in(front) + numbers_under(last));
        assert forall|k: int, thing: JsonModel|
            0 <= k < all.len() && #[trigger] leads_to(things, all[k], thing) implies stands_for(
            thing,
            found[k],
        ) by {
            if k < a.len() {
                assert(all[k] == a[k]);
                assert(finds(front, a[k], any_stub()));
                assert(a[k][0] < n);
                assert(front[a[k][0]] == things[a[k][0]]);
                assert(leads_to(front, a[k], thing));
            } else {
                assert(all[k] == b[k - a.len()]);
                assert(leads_under(last, b[k - a.len()], thing));
            }
        }
    }
}

proof fn lemma_hidden_on_ways_under(last: JsonModel, n: int)
    ensures
        hidden_under(last) == total(numbers_under(last)),
        numbers_under(last).len() == ways_under(last, n, any_stub()).len(),
        forall|k: int, thing: JsonModel|
            0 <= k < ways_under(last, n, any_stub()).len() && #[trigger] leads_under(
                last,
                ways_under(last, n, any_stub())[k],
                thing,
            ) ==> stands_for(thing, numbers_under(last)[k]),
    decreases last, 0int,
{
    lemma_answered(last);
    let all = ways_under(last, n, any_stub());
    let found = numbers_under(last);
    if is_more(last) {
        lemma_stands_for(last);
        assert(all == seq![seq![n]]);
        assert(found.drop_last() =~= Seq::empty());
        reveal_with_fuel(total, 2);
    } else if reply_things(last) is None {
        assert(all.len() == 0);
    } else {
        let replies = reply_things(last)->0;
        lemma_replies_smaller(last);
        lemma_hidden_on_ways(replies);
        lemma_ways(replies, any_stub());
        let inner = ways_in(replies, any_stub());
        let deep = behind(n, inner);
        assert(all =~= deep);
        assert forall|k: int, thing: JsonModel|
            0 <= k < all.len() && #[trigger] leads_under(last, all[k], thing) implies stands_for(
            thing,
            found[k],
        ) by {
            assert(deep[k].skip(1) =~= inner[k]);
            assert(finds(replies, inner[k], any_stub()));
            assert(inner[k].len() > 0);
            assert(leads_to(replies, inner[k], thing));
        }
    }
}

/// The hidden comments of a list of things are those behind all its stubs, at
/// any depth: as many as each stub lists, and one for a stub that lists none.
pub proof fn law_every_stub_is_counted(things: Seq<JsonModel>)
    ensures
        exists|ways: Seq<Seq<int>>, numbers: Seq<nat>| #[trigger]
            hidden_on(things, ways, numbers) && hidden_in(things) == total(numbers),
{
    let wanted = any_stub();
    let ways = ways_in(things, wanted);
    let numbers = numbers_in(things);
    lemma_ways(things, wanted);
    lemma_hidden_on_ways(things);
    assert forall|k: int| #![trigger ways[k]] 0 <= k < ways.len() implies is_hidden_on(
        things,
        ways[k],
        numbers[k],
    ) by {
        assert(finds(things, ways[k], wanted));
        let thing = choose|thing: JsonModel| #[trigger]
            leads_to(things, ways[k], thing) && wanted(thing);
        assert(leads_to(things, ways[k], thing));
    }
    assert(hidden_on(things, ways, numbers));
}

proof fn lemma_listed_ids(children: Seq<JsonModel>)
    ensures
        listed_ids(children) == children.filter(|c: JsonModel| c is Text).map_values(
            |c: JsonModel| c->Text_0,
        ),
    decreases children.len(),
{
    reveal(Seq::filter);
    let texts = children.filter(|c: JsonModel| c is Text);
    if children.len() > 0 {
        lemma_listed_ids(children.drop_last());
        let before = children.drop_last().filter(|c: JsonModel| c is Text);
        if children.last() is Text {
            assert(texts == before.push(children.last()));
            assert(texts.map_values(|c: JsonModel| c->Text_0) =~= before.map_values(
                |c: JsonModel| c->Text_0,
            ).push(children.last()->Text_0));
        } else {
            assert(texts == before);
        }
    } else {
        assert(texts.map_values(|c: JsonModel| c->Text_0) =~= Seq::empty());
    }
}

/// A stub has the id, parent, children and count that its data hold. Its
/// children are all texts among the listed ones, in their order. It belongs to
/// the post that its data link to, and else to the given one.
pub proof fn law_fields_of_a_stub(
    thing: JsonModel,
    data: JsonModel,
    depth: usize,
    post_id: Option<Seq<char>>,
    stub: StubModel,
)
    requires
        thing.get("data"@) == Some(data),
        thing_stub(thing, depth, post_id) == Some(stub),
    ensures
        forall|id: Seq<char>| #[trigger] says(data, "id"@, id) ==> stub.id == id,
        silent(data, "id"@) ==> stub.id.len() == 0,
        tells(stub.parent_id, data, "parent_id"@),
        forall|id: Seq<char>| #[trigger]
            says(data, "link_id"@, "t3_"@ + id) ==> stub.post_id == Some(id),
        silent(data, "link_id"@) ==> stub.post_id == post_id,
        forall|children: Seq<JsonModel>| #[trigger]
            lists(thing, "children"@, children) ==> stub.children == children.filter(
                |c: JsonModel| c is Text,
            ).map_values(|c: JsonModel| c->Text_0),
        (forall|children: Seq<JsonModel>| !#[trigger] lists(thing, "children"@, children))
            ==> stub.children.len() == 0,
        forall|n: i64| #[trigger]
            integer_under(data, "count"@, n) ==> stub.count == if n <= 0 {
                0
            } else {
                model::capped(n as nat)
            },
        (forall|n: i64| !#[trigger] integer_under(data, "count"@, n)) ==> stub.count == 0,
        stub.depth == depth,
{
    lemma_says(data, "id"@);
    lemma_says(data, "parent_id"@);
    lemma_says(data, "link_id"@);
    match data.get("children"@) {
        Some(JsonModel::List(children)) => {
            lemma_listed_ids(children);
            assert(lists(thing, "children"@, children));
        },
        _ => {},
    }
    match int_at(data, "count"@) {
        Some(n) => {
            assert(integer_under(data, "count"@, n));
        },
        None => {},
    }
    assert forall|id: Seq<char>| #[trigger] says(data, "link_id"@, "t3_"@ + id) implies stub.post_id
        == Some(id) by {
        assert(("t3_"@ + id).skip("t3_"@.len() as int) =~= id);
        assert("t3_"@.is_prefix_of("t3_"@ + id)) by {
            assert(("t3_"@ + id).subrange(0, "t3_"@.len() as int) =~= "t3_"@);
        }
    }
}

/// Positions in rising order of the things with data, and the items there.
pub open spec fn items_at(
    things: Seq<JsonModel>,
    places: Seq<int>,
    items: Seq<ItemModel>,
) -> bool {
    &&& places.len() == items.len()
    &&& forall|j: int, k: int|
        0 <= j < k < places.len() ==> #[trigger] places[j] < #[trigger] places[k]
    &&& forall|k: int| #![trigger places[k]]
        0 <= k < places.len() ==> 0 <= places[k] < things.len() && thing_item(
            things[places[k]],
            0,
            ItemSource::Json,
        ) == Some(items[k])
    &&& forall|i: int|
        0 <= i < things.len() && (#[trigger] things[i]).get("data"@) is Some ==> places.contains(i)
}

proof fn lemma_things_in_order(things: Seq<JsonModel>) -> (places: Seq<int>)
    ensures
        items_at(things, places, thing_items(things)),
    decreases things.len(),
{
    if things.len() == 0 {
        Seq::empty()
    } else {
        let front = things.drop_last();
        let before = lemma_things_in_order(front);
        let n = (things.len() - 1) as int;
        let places = match thing_item(things.last(), 0, ItemSource::Json) {
            Some(_) => before.push(n),
            None => before,
        };
        assert forall|k: int| #![trigger places[k]] 0 <= k < places.len() implies 0 <= places[k]
            < things.len() && thing_item(things[places[k]], 0, ItemSource::Json) == Some(
            thing_items(things)[k],
        ) by {
            if k < before.len() {
                assert(places[k] == before[k]);
                assert(front[before[k]] == things[before[k]]);
            }
        }
        assert forall|i: int|
            0 <= i < things.len() && (#[trigger] things[i]).get("data"@) is Some implies
            places.contains(i) by {
            if i < n {
                assert(front[i] == things[i]);
                let k = choose|k: int| 0 <= k < before.len() && before[k] == i;
                assert(places[k] == i);
            } else {
                assert(places[before.len() as int] == i);
            }
        }
        assert forall|j: int, k: int| 0 <= j < k < places.len() implies #[trigger] places[j]
            < #[trigger] places[k] by {
            assert(places[j] == before[j]);
            if k < before.len() {
                assert(places[k] == before[k]);
            }
        }
        places
    }
}

/// The items of a listing are exactly its children with data, in their order,
/// and its page has the cursors that it tells.
pub proof fn law_listings_give_their_children(value: JsonModel, things: Seq<JsonModel>)
    ensures
        lists(value, "children"@, things) ==> exists|places: Seq<int>| #[trigger]
            items_at(things, places, listing_page(value).items) && listing_items(value)
                == listing_page(value).items,
        (forall|all: Seq<JsonModel>| !#[trigger] lists(value, "children"@, all)) ==> listing_page(
            value,
        ).items.len() == 0 && listing_items(value).len() == 0,
        value.get("data"@) matches Some(data) ==> tells(listing_page(value).after, data, "after"@)
            && tells(listing_page(value).before, data, "before"@),
        value.get("data"@) is None ==> listing_page(value).after is None && listing_page(
            value,
        ).before is None,
{
    if let Some(data) = value.get("data"@) {
        lemma_says(data, "after"@);
        lemma_says(data, "before"@);
        if let Some(JsonModel::List(all)) = data.get("children"@) {
            assert(lists(value, "children"@, all));
        }
    }
    if lists(value, "children"@, things) {
        let places = lemma_things_in_order(things);
        assert(items_at(things, places, listing_page(value).items));
    }
}

/// A thread document tells of the first item of its first listing, which is the
/// post, and of every comment and every stub in its second listing, at any
/// depth, and of nothing else. So a hidden reply at any depth has its stub and
/// is in the count.
pub proof fn law_threads_are_read_whole(
    value: JsonModel,
    listings: Seq<JsonModel>,
    things: Seq<JsonModel>,
    notice: Option<Seq<char>>,
)
    requires
        value == JsonModel::List(listings),
        listings.len() > 1,
        lists(listings[1], "children"@, things),
    ensures
        thread_capture(value).post == if listing_page(listings[0]).items.len() > 0 {
            Some(listing_page(listings[0]).items[0])
        } else {
            None
        },
        thread_model(value, notice).post == thread_capture(value).post,
        exists|ways: Seq<Seq<int>>| #[trigger]
            comments_on(things, 0, ways, thread_capture(value).comments),
        exists|ways: Seq<Seq<int>>| #[trigger]
            comments_on(things, 0, ways, thread_model(value, notice).comments),
        thread_capture(value).post matches Some(post) ==> exists|ways: Seq<Seq<int>>| #[trigger]
            stubs_on(things, 0, Some(post.id), ways, thread_capture(value).more_stubs),
        thread_capture(value).post is None ==> exists|ways: Seq<Seq<int>>| #[trigger]
            stubs_on(things, 0, None, ways, thread_capture(value).more_stubs),
        exists|ways: Seq<Seq<int>>, numbers: Seq<nat>| #[trigger]
            hidden_on(things, ways, numbers) && thread_model(value, notice).more_stubs
                == model::capped(total(numbers)),
        thread_model(value, notice).notice == notice,
        !thread_model(value, notice).degraded && !thread_model(value, notice).truncated,
        thread_model(value, notice).http_requests == 0,
{
    let post_id = id_of(thread_post(value));
    let capture = thread_capture(value);
    assert(thread_things(value) == things);
    law_every_comment_is_read(things, 0);
    law_every_stub_is_read(things, 0, post_id);
    law_every_stub_is_counted(things);
    let ways = choose|ways: Seq<Seq<int>>| #[trigger]
        comments_on(things, 0, ways, comments_in(things, 0));
    assert(comments_on(things, 0, ways, capture.comments));
    assert(comments_on(things, 0, ways, thread_model(value, notice).comments));
    let ways = choose|ways: Seq<Seq<int>>| #[trigger]
        stubs_on(things, 0, post_id, ways, stubs_in(things, 0, post_id));
    assert(stubs_on(things, 0, post_id, ways, capture.more_stubs));
}

/// An answer to a request for hidden comments tells of every comment and every
/// stub in it, at any depth, and of nothing else.
pub proof fn law_answers_are_read_whole(
    value: JsonModel,
    inner: JsonModel,
    things: Seq<JsonModel>,
    post_id: Option<Seq<char>>,
)
    requires
        value.get("json"@) == Some(inner),
        lists(inner, "things"@, things),
    ensures
        more_capture(value, post_id).post is None,
        exists|ways: Seq<Seq<int>>| #[trigger]
            comments_on(things, 0, ways, more_capture(value, post_id).comments),
        exists|ways: Seq<Seq<int>>| #[trigger]
            stubs_on(things, 0, post_id, ways, more_capture(value, post_id).more_stubs),
{
    let capture = more_capture(value, post_id);
    assert(more_things(value) == things);
    law_every_comment_is_read(things, 0);
    law_every_stub_is_read(things, 0, post_id);
    let ways = choose|ways: Seq<Seq<int>>| #[trigger]
        comments_on(things, 0, ways, comments_in(things, 0));
    assert(comments_on(things, 0, ways, capture.comments));
    let ways = choose|ways: Seq<Seq<int>>| #[trigger]
        stubs_on(things, 0, post_id, ways, stubs_in(things, 0, post_id));
    assert(stubs_on(things, 0, post_id, ways, capture.more_stubs));
}

/// A document that is no list, or has no second listing, or one without
/// children, tells of no comments and no stubs. A document without a first
/// listing tells of no post. So it is with an answer that holds no things.
pub proof fn law_nothing_is_read_where_nothing_is(
    value: JsonModel,
    listings: Seq<JsonModel>,
    notice: Option<Seq<char>>,
    post_id: Option<Seq<char>>,
)
    ensures
        !(value is List) || (value == JsonModel::List(listings) && (listings.len() <= 1 || forall|
            things: Seq<JsonModel>,
        |
            !#[trigger] lists(listings[1], "children"@, things))) ==> {
            &&& thread_capture(value).comments.len() == 0
            &&& thread_capture(value).more_stubs.len() == 0
            &&& thread_model(value, notice).comments.len() == 0
            &&& thread_model(value, notice).more_stubs == 0
        },
        !(value is List) || (value == JsonModel::List(listings) && listings.len() == 0) ==> {
            &&& thread_capture(value).post is None
            &&& thread_model(value, notice).post is None
        },
        value.get("json"@) is None ==> {
            &&& more_capture(value, post_id).comments.len() == 0
            &&& more_capture(value, post_id).more_stubs.len() == 0
        },
        value.get("json"@) matches Some(inner) ==> (forall|things: Seq<JsonModel>|
            !#[trigger] lists(inner, "things"@, things)) ==> {
            &&& more_capture(value, post_id).comments.len() == 0
            &&& more_capture(value, post_id).more_stubs.len() == 0
        },
{
    if value == JsonModel::List(listings) && listings.len() > 1 {
        if let Some(things) = listings[1].list_at("data"@, "children"@) {
            assert(lists(listings[1], "children"@, things));
        }
    }
    if let Some(inner) = value.get("json"@) {
        if let Some(things) = inner.list_at("data"@, "things"@) {
            assert(lists(inner, "things"@, things));
        }
    }
    assert(comments_in(Seq::empty(), 0).len() == 0);
    assert(hidden_in(Seq::empty()) == 0);
}

} // verus!
