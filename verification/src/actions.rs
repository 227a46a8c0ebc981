//! Targets: the numbers of the last results, ids and permalinks.
use vstd::prelude::*;

use crate::address;
use crate::error;
use crate::error::{ErrorModel, RdtError};
use crate::model;
use crate::model::{ItemModel, RedditItem};
use crate::number;
use crate::text;
use crate::web;
use crate::web::{AddressModel, WebAddress};

verus! {

/// The last result with a number.
pub open spec fn result_at(last: Seq<ItemModel>, index: usize) -> Option<ItemModel>
    decreases last.len(),
{
    if last.len() == 0 {
        None
    } else if last[0].index == Some(index) {
        Some(last[0])
    } else {
        result_at(last.skip(1), index)
    }
}

/// The permalink of the last result with a number.
pub open spec fn numbered_link(last: Seq<ItemModel>, index: usize) -> Result<
    Seq<char>,
    ErrorModel,
> {
    let name = "last result index "@ + number::decimal(index as nat);
    match result_at(last, index) {
        Some(item) => match item.canonical_permalink() {
            Some(link) => Ok(link),
            None => Err(ErrorModel::Message(name + " has no Reddit permalink"@)),
        },
        None => Err(ErrorModel::Message(name + " does not exist"@)),
    }
}

/// The hosts of permalinks.
pub open spec fn permalink_host(host: Option<Seq<char>>) -> bool {
    match host {
        Some(name) => name == "reddit.com"@ || name == "www.reddit.com"@ || name
            == "old.reddit.com"@,
        None => false,
    }
}

/// The permalink that a text gives, given the address that it denotes.
pub open spec fn checked_link(
    link: Seq<char>,
    address: Result<AddressModel, ErrorModel>,
) -> Result<Seq<char>, ErrorModel> {
    match address {
        Ok(found) => if permalink_host(found.host) {
            Ok(link)
        } else {
            Err(ErrorModel::Message("target must be a Reddit permalink"@))
        },
        Err(e) => Err(e),
    }
}

/// The number that a target is.
pub open spec fn target_number(target: Seq<char>) -> Option<nat> {
    number::parse_unsigned(target, usize::MAX as nat)
}

/// What a target leads to: the last result with its number, or a permalink.
pub open spec fn resolved(last: Seq<ItemModel>, target: Seq<char>) -> Result<
    Seq<char>,
    ErrorModel,
> {
    match target_number(target) {
        Some(n) => numbered_link(last, n as usize),
        None => checked_link(model::canonical(target), web::parsed(model::canonical(target))),
    }
}

/// The number that a target is. Only then are the last results needed.
pub fn target_index(target: &str) -> (r: Option<usize>)
    ensures
        match r {
            Some(n) => target_number(target@) == Some(n as nat),
            None => target_number(target@) is None,
        },
{
    number::read_usize(target)
}

fn find_result(last: &Vec<RedditItem>, index: usize) -> (r: Option<&RedditItem>)
    ensures
        match r {
            Some(item) => result_at(model::items_model(last@), index) == Some(item@),
            None => result_at(model::items_model(last@), index) is None,
        },
{
    let ghost all = model::items_model(last@);
    let mut i: usize = 0;
    assert(all.skip(0) =~= all);
    while i < last.len()
        invariant
            i <= last@.len(),
            all == model::items_model(last@),
            result_at(all, index) == result_at(all.skip(i as int), index),
        decreases last@.len() - i,
    {
        assert(all.skip(i as int)[0] == last@[i as int]@);
        assert(all.skip(i as int).skip(1) =~= all.skip(i + 1));
        match last[i].index {
            Some(n) => {
                if n == index {
                    return Some(&last[i]);
                }
            },
            None => {},
        }
        i = i + 1;
    }
    None
}

/// The permalink of the last result with a number.
pub fn resolve_numbered(last: &Vec<RedditItem>, index: usize) -> (r: Result<String, RdtError>)
    ensures
        error::outcome(r) == numbered_link(model::items_model(last@), index),
{
    let mut name = "last result index ".to_owned();
    name.push_str(number::usize_text(index).as_str());
    match find_result(last, index) {
        Some(item) => match item.canonical_permalink() {
            Some(link) => Ok(link),
            None => Err(RdtError::say_of(name.as_str(), " has no Reddit permalink")),
        },
        None => Err(RdtError::say_of(name.as_str(), " does not exist")),
    }
}

/// Refuses an address that is not that of a permalink.
pub fn validate_reddit_permalink(address: &WebAddress) -> (r: Result<(), RdtError>)
    ensures
        match r {
            Ok(_) => permalink_host(address@.host),
            Err(e) => !permalink_host(address@.host) && e@ == ErrorModel::Message(
                "target must be a Reddit permalink"@,
            ),
        },
{
    let known = match &address.host {
        Some(name) => {
            let n = name.as_str();
            text::same_text(n, "reddit.com") || text::same_text(n, "www.reddit.com")
                || text::same_text(n, "old.reddit.com")
        },
        None => false,
    };
    if known {
        Ok(())
    } else {
        Err(RdtError::say("target must be a Reddit permalink"))
    }
}

/// What a target leads to, given the last results.
pub fn resolve_target(last: &Vec<RedditItem>, target: &str) -> (r: Result<String, RdtError>)
    ensures
        error::outcome(r) == resolved(model::items_model(last@), target@),
{
    match target_index(target) {
        Some(index) => resolve_numbered(last, index),
        None => {
            let link = model::canonical_permalink(target);
            let address = match web::parse_address(link.as_str()) {
                Ok(address) => address,
                Err(e) => {
                    return Err(e);
                },
            };
            match validate_reddit_permalink(&address) {
                Ok(_) => Ok(link),
                Err(e) => Err(e),
            }
        },
    }
}

/// What the target of a pull leads to: the last result with its number, a post
/// by its id, or a permalink.
pub open spec fn resolved_post(last: Seq<ItemModel>, target: Seq<char>) -> Result<
    Seq<char>,
    ErrorModel,
> {
    if target_number(target) is None && address::base36(address::clean_target(target)) {
        Ok(address::clean_target(target))
    } else {
        resolved(last, target)
    }
}

/// What the target of a pull leads to, given the last results.
pub fn resolve_post_target(last: &Vec<RedditItem>, target: &str) -> (r: Result<String, RdtError>)
    ensures
        error::outcome(r) == resolved_post(model::items_model(last@), target@),
{
    if target_index(target).is_none() {
        let chars = text::chars_of(target);
        let t = text::trimmed(&chars);
        let clean = match text::cut_prefix(t, &text::chars_of("t3_")) {
            Some(rest) => rest,
            None => t,
        };
        let id = text::string_of(clean);
        if address::is_probable_base36_id(id.as_str()) {
            return Ok(id);
        }
    }
    resolve_target(last, target)
}

proof fn lemma_numbered_from(items: Seq<ItemModel>, k: int, i: int)
    requires
        items.len() <= usize::MAX,
        0 <= k <= i < items.len(),
    ensures
        result_at(model::numbered(items).skip(k), (i + 1) as usize) == Some(
            model::numbered(items)[i],
        ),
    decreases i - k,
{
    let rest = model::numbered(items).skip(k);
    assert(rest[0] == model::numbered(items)[k]);
    if k < i {
        lemma_numbered_from(items, k + 1, i);
        assert(rest.skip(1) =~= model::numbered(items).skip(k + 1));
    }
}

/// A number leads to the result that was shown under it: the numbers given to
/// results find them again.
pub proof fn law_numbers_find_their_results(items: Seq<ItemModel>, i: int)
    requires
        items.len() <= usize::MAX,
        0 <= i < items.len(),
    ensures
        resolved(model::numbered(items), number::decimal((i + 1) as nat)) == match items[
            i
        ].canonical_permalink() {
            Some(link) => Ok::<Seq<char>, ErrorModel>(link),
            None => Err(
                ErrorModel::Message(
                    "last result index "@ + number::decimal((i + 1) as nat)
                        + " has no Reddit permalink"@,
                ),
            ),
        },
{
    let all = model::numbered(items);
    number::law_unsigned_round_trip((i + 1) as nat, usize::MAX as nat);
    assert(all.skip(0) =~= all);
    lemma_numbered_from(items, 0, i);
}

/// A number leads to the first of the last results that has it, and fails where
/// none has it or that one has no permalink.
pub proof fn law_numbers_lead_to_the_first_result(last: Seq<ItemModel>, index: usize, i: int)
    ensures
        0 <= i < last.len() && last[i].index == Some(index) && (forall|j: int|
            0 <= j < i ==> (#[trigger] last[j]).index != Some(index)) ==> {
            &&& last[i].permalink matches Some(link) ==> resolved(
                last,
                number::decimal(index as nat),
            ) == Ok::<Seq<char>, ErrorModel>(model::canonical(link))
            &&& last[i].permalink is None ==> resolved(last, number::decimal(index as nat)) is Err
        },
        (forall|j: int| 0 <= j < last.len() ==> (#[trigger] last[j]).index != Some(index))
            ==> resolved(last, number::decimal(index as nat)) is Err,
{
    number::law_unsigned_round_trip(index as nat, usize::MAX as nat);
    if 0 <= i < last.len() && last[i].index == Some(index) && (forall|j: int|
        0 <= j < i ==> (#[trigger] last[j]).index != Some(index)) {
        lemma_result_at(last, index, i);
    }
    if forall|j: int| 0 <= j < last.len() ==> (#[trigger] last[j]).index != Some(index) {
        lemma_no_result(last, index);
    }
}

proof fn lemma_result_at(last: Seq<ItemModel>, index: usize, i: int)
    requires
        0 <= i < last.len(),
        last[i].index == Some(index),
        forall|j: int| 0 <= j < i ==> (#[trigger] last[j]).index != Some(index),
    ensures
        result_at(last, index) == Some(last[i]),
    decreases last.len(),
{
    if i > 0 {
        let rest = last.skip(1);
        assert(last[0].index != Some(index));
        assert forall|j: int| 0 <= j < i - 1 implies (#[trigger] rest[j]).index != Some(index) by {
            assert(rest[j] == last[j + 1]);
        }
        lemma_result_at(rest, index, i - 1);
    }
}

proof fn lemma_no_result(last: Seq<ItemModel>, index: usize)
    requires
        forall|j: int| 0 <= j < last.len() ==> (#[trigger] last[j]).index != Some(index),
    ensures
        result_at(last, index) is None,
    decreases last.len(),
{
    if last.len() > 0 {
        let rest = last.skip(1);
        assert forall|j: int| 0 <= j < rest.len() implies (#[trigger] rest[j]).index != Some(
            index,
        ) by {
            assert(rest[j] == last[j + 1]);
        }
        lemma_no_result(rest, index);
    }
}

/// A target that is no number leads to its canonical permalink exactly where that
/// is an address on one of the hosts of permalinks. What is refused as an address
/// is refused in the same words.
pub proof fn law_only_permalinks_are_used(last: Seq<ItemModel>, target: Seq<char>)
    requires
        number::parse_unsigned(target, usize::MAX as nat) is None,
    ensures
        ({
            let link = model::canonical(target);
            &&& web::parsed(link) matches Ok(found) ==> {
                let known = found.host == Some("reddit.com"@) || found.host == Some(
                    "www.reddit.com"@,
                ) || found.host == Some("old.reddit.com"@);
                &&& known ==> resolved(last, target) == Ok::<Seq<char>, ErrorModel>(link)
                &&& !known ==> resolved(last, target) is Err
            }
            &&& web::parsed(link) matches Err(e) ==> resolved(last, target) == Err::<
                Seq<char>,
                ErrorModel,
            >(e)
        }),
{
}

/// The id of a post, with or without its type, is itself what a pull leads to,
/// unless it is a number. Any other target leads to where it leads otherwise.
pub proof fn law_pulls_take_ids(last: Seq<ItemModel>, id: Seq<char>, target: Seq<char>)
    ensures
        address::id_characters(id) ==> resolved_post(last, "t3_"@ + id) == Ok::<
            Seq<char>,
            ErrorModel,
        >(id),
        address::id_characters(id) && number::parse_unsigned(id, usize::MAX as nat) is None
            ==> resolved_post(last, id) == Ok::<Seq<char>, ErrorModel>(id),
        number::parse_unsigned(target, usize::MAX as nat) is Some ==> resolved_post(last, target)
            == resolved(last, target),
{
    reveal_strlit("t3_");
    if address::id_characters(id) {
        let full = "t3_"@ + id;
        assert forall|i: int| 0 <= i < id.len() implies text::alphanumeric(#[trigger] id[i]) by {}
        text::law_trimmed_texts_stay(id);
        text::law_trimmed_texts_stay(full);
        assert(!"t3_"@.is_prefix_of(id)) by {
            if "t3_"@.is_prefix_of(id) {
                assert(id.subrange(0, 3)[2] == id[2]);
            }
        }
        assert(full.skip(3) =~= id);
        assert("t3_"@.is_prefix_of(full)) by {
            assert(full.subrange(0, 3) =~= "t3_"@);
        }
        assert(number::parse_unsigned(full, usize::MAX as nat) is None) by {
            assert(full[0] == 't');
        }
    }
}

} // verus!
