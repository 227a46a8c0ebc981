//! The reading order of a thread: every comment below its parent, replies in
//! the order of their arrival.
use vstd::hash_map::StringHashMap;
use vstd::prelude::*;

use crate::model;
use crate::model::{ItemModel, RedditItem};
use crate::parse;
use crate::text;

verus! {

/// The positions of the comments whose parent is `name`, in order of arrival.
pub open spec fn replies_to(comments: Seq<ItemModel>, name: Seq<char>) -> Seq<int>
    decreases comments.len(),
{
    if comments.len() == 0 {
        Seq::empty()
    } else {
        let before = replies_to(comments.drop_last(), name);
        if comments.last().parent_id == Some(name) {
            before.push(comments.len() - 1)
        } else {
            before
        }
    }
}

/// Some comment has the full name `name`.
pub open spec fn known(comments: Seq<ItemModel>, name: Seq<char>) -> bool {
    exists|i: int| 0 <= i < comments.len() && #[trigger] comments[i].fullname == name
}

/// The comment's parent is the post or one of the comments.
pub open spec fn attached(comments: Seq<ItemModel>, root: Seq<char>, comment: ItemModel) -> bool {
    match comment.parent_id {
        Some(parent) => parent == root || known(comments, parent),
        None => false,
    }
}

/// The positions of the comments before `n` that are not attached.
pub open spec fn orphans(comments: Seq<ItemModel>, root: Seq<char>, n: int) -> Seq<int>
    decreases n,
{
    if n <= 0 {
        Seq::empty()
    } else {
        let before = orphans(comments, root, n - 1);
        if attached(comments, root, comments[n - 1]) {
            before
        } else {
            before.push(n - 1)
        }
    }
}

/// Positions with a depth.
pub open spec fn at_depth(positions: Seq<int>, depth: usize) -> Seq<(int, usize)> {
    Seq::new(positions.len(), |i: int| (positions[i], depth))
}

/// How many positions below `n` are not in `seen`.
pub open spec fn unseen(n: nat, seen: Set<int>) -> nat
    decreases n,
{
    if n == 0 {
        0
    } else {
        unseen((n - 1) as nat, seen) + if seen.contains(n - 1) {
            0nat
        } else {
            1nat
        }
    }
}

/// Seeing a position that was not seen leaves one fewer.
pub proof fn lemma_unseen_less(n: nat, seen: Set<int>, i: int)
    requires
        !seen.contains(i),
    ensures
        0 <= i < n ==> unseen(n, seen.insert(i)) == unseen(n, seen) - 1,
        !(0 <= i < n) ==> unseen(n, seen.insert(i)) == unseen(n, seen),
    decreases n,
{
    if n > 0 {
        lemma_unseen_less((n - 1) as nat, seen, i);
    }
}

/// The positions and depths at which a walk arrives. It takes the first
/// position to do; where that was not seen before, the walk arrives there and
/// has its replies to do next, one level deeper.
pub open spec fn walk(
    comments: Seq<ItemModel>,
    todo: Seq<(int, usize)>,
    seen: Set<int>,
) -> Seq<(int, usize)>
    decreases unseen(comments.len(), seen), todo.len(),
{
    if todo.len() == 0 {
        Seq::empty()
    } else {
        let (i, depth) = todo[0];
        let rest = todo.skip(1);
        if seen.contains(i) || !(0 <= i < comments.len()) {
            walk(comments, rest, seen)
        } else {
            proof {
                lemma_unseen_less(comments.len(), seen, i);
            }
            let replies = at_depth(
                replies_to(comments, comments[i].fullname),
                parse::below(depth),
            );
            seq![(i, depth)] + walk(comments, replies + rest, seen.insert(i))
        }
    }
}

/// The positions and depths of a thread in reading order: the walk that starts
/// at the replies to the post.
pub open spec fn walk_from(comments: Seq<ItemModel>, root: Seq<char>) -> Seq<(int, usize)> {
    walk(comments, at_depth(replies_to(comments, root), 0), Set::empty())
}

/// A comment, moved to a depth.
pub open spec fn moved(comment: ItemModel, depth: usize) -> ItemModel {
    ItemModel { depth, ..comment }
}

/// The comments at given positions, each at its depth.
pub open spec fn placed(comments: Seq<ItemModel>, places: Seq<(int, usize)>) -> Seq<ItemModel> {
    Seq::new(places.len(), |k: int| moved(comments[places[k].0], places[k].1))
}

/// The places of a thread: those that the walk arrives at, then the comments
/// whose parent is not there, at depth zero.
pub open spec fn places(comments: Seq<ItemModel>, root: Seq<char>) -> Seq<(int, usize)> {
    walk_from(comments, root) + at_depth(orphans(comments, root, comments.len() as int), 0)
}

/// The comments of a thread in reading order.
pub open spec fn ordered(comments: Seq<ItemModel>, root: Seq<char>) -> Seq<ItemModel> {
    placed(comments, places(comments, root))
}

// ---------------------------------------------------------------------------
// Computing the order
// ---------------------------------------------------------------------------

/// The positions of a list of machine integers.
spec fn ints(s: Seq<usize>) -> Seq<int> {
    Seq::new(s.len(), |i: int| s[i] as int)
}

/// For each name the positions of its replies.
struct Replies {
    slots: StringHashMap<usize>,
    lists: Vec<Vec<usize>>,
}

impl Replies {
    /// The lists hold the replies among `comments`.
    spec fn hold(self, comments: Seq<ItemModel>) -> bool {
        &&& forall|name: Seq<char>|
            self.slots@.contains_key(name) ==> {
                &&& (#[trigger] self.slots@[name]) < self.lists@.len()
                &&& ints(self.lists@[self.slots@[name] as int]@) == replies_to(comments, name)
            }
        &&& forall|name: Seq<char>|
            !(#[trigger] self.slots@.contains_key(name)) ==> replies_to(comments, name).len() == 0
        &&& forall|a: Seq<char>, b: Seq<char>|
            self.slots@.contains_key(a) && self.slots@.contains_key(b) && a != b
                ==> #[trigger] self.slots@[a] != #[trigger] self.slots@[b]
    }
}

fn index_replies(comments: &Vec<RedditItem>) -> (r: Replies)
    ensures
        r.hold(model::items_model(comments@)),
{
    let ghost all = model::items_model(comments@);
    let mut r = Replies { slots: StringHashMap::new(), lists: Vec::new() };
    let mut i: usize = 0;
    while i < comments.len()
        invariant
            i <= comments@.len(),
            all == model::items_model(comments@),
            r.hold(all.take(i as int)),
        decreases comments@.len() - i,
    {
        let ghost was = r;
        let ghost t = all.take(i + 1);
        proof {
            assert(t.drop_last() =~= all.take(i as int));
            assert(t.last() == all[i as int]);
        }
        match &comments[i].parent_id {
            Some(parent) => {
                let slot: Option<usize> = match r.slots.get(parent.as_str()) {
                    Some(s) => Some(*s),
                    None => None,
                };
                match slot {
                    Some(s) => {
                        r.lists[s].push(i);
                        assert(ints(r.lists@[s as int]@) =~= ints(was.lists@[s as int]@).push(
                            i as int,
                        ));
                        assert(r.hold(t));
                    },
                    None => {
                        let s: usize = r.lists.len();
                        let mut list: Vec<usize> = Vec::new();
                        list.push(i);
                        r.lists.push(list);
                        r.slots.insert(parent.clone(), s);
                        assert(ints(r.lists@[s as int]@) =~= replies_to(t, parent@));
                        assert(r.hold(t));
                    },
                }
            },
            None => {
                assert(r.hold(t));
            },
        }
        i = i + 1;
    }
    assert(all.take(all.len() as int) =~= all);
    r
}

/// The stack of positions to do, the next one on top.
spec fn todo(stack: Seq<(usize, usize)>) -> Seq<(int, usize)> {
    Seq::new(
        stack.len(),
        |k: int| (stack[stack.len() - 1 - k].0 as int, stack[stack.len() - 1 - k].1),
    )
}

/// The positions that are marked.
spec fn marked(seen: Seq<bool>) -> Set<int> {
    Set::new(|i: int| 0 <= i < seen.len() && seen[i])
}

fn push_replies(stack: &mut Vec<(usize, usize)>, list: &Vec<usize>, depth: usize)
    ensures
        todo(final(stack)@) == at_depth(ints(list@), depth) + todo(old(stack)@),
{
    let ghost was = stack@;
    let ghost whole = at_depth(ints(list@), depth);
    let mut k: usize = list.len();
    assert(todo(stack@) =~= whole.skip(k as int) + todo(was));
    while k > 0
        invariant
            k <= list@.len(),
            whole == at_depth(ints(list@), depth),
            todo(stack@) == whole.skip(k as int) + todo(was),
        decreases k,
    {
        let ghost had = stack@;
        k = k - 1;
        stack.push((list[k], depth));
        proof {
            assert(todo(stack@) =~= seq![(list@[k as int] as int, depth)] + todo(had));
            assert(whole.skip(k as int) =~= seq![whole[k as int]] + whole.skip(k + 1));
            assert(todo(stack@) =~= whole.skip(k as int) + todo(was));
        }
    }
    assert(whole.skip(0) =~= whole);
}

fn push_named(stack: &mut Vec<(usize, usize)>, replies: &Replies, name: &str, depth: usize, Ghost(
    comments,
): Ghost<Seq<ItemModel>>)
    requires
        replies.hold(comments),
    ensures
        todo(final(stack)@) == at_depth(replies_to(comments, name@), depth) + todo(old(stack)@),
{
    match replies.slots.get(name) {
        Some(slot) => {
            push_replies(stack, &replies.lists[*slot], depth);
        },
        None => {
            assert(at_depth(replies_to(comments, name@), depth) + todo(stack@) =~= todo(stack@));
        },
    }
}

/// The comment at a position, moved to a depth.
fn place(comment: &RedditItem, depth: usize) -> (r: RedditItem)
    ensures
        r@ == moved(comment@, depth),
{
    let mut r = comment.clone();
    r.depth = depth;
    r
}

/// The comments that the walk from the post arrives at.
fn walked(comments: &Vec<RedditItem>, root: &str) -> (r: Vec<RedditItem>)
    ensures
        model::items_model(r@) == placed(
            model::items_model(comments@),
            walk_from(model::items_model(comments@), root@),
        ),
{
    let ghost all = model::items_model(comments@);
    let replies = index_replies(comments);
    let mut seen: Vec<bool> = Vec::new();
    while seen.len() < comments.len()
        invariant
            seen@.len() <= comments@.len(),
            forall|i: int| 0 <= i < seen@.len() ==> !seen@[i],
        decreases comments@.len() - seen@.len(),
    {
        seen.push(false);
    }
    let mut stack: Vec<(usize, usize)> = Vec::new();
    push_named(&mut stack, &replies, root, 0, Ghost(all));
    let mut out: Vec<RedditItem> = Vec::new();
    let ghost mut done: Seq<(int, usize)> = Seq::empty();
    let ghost whole = walk_from(all, root@);
    proof {
        assert(marked(seen@) =~= Set::empty());
        assert(todo(stack@) =~= at_depth(replies_to(all, root@), 0));
        assert(whole =~= done + walk(all, todo(stack@), marked(seen@)));
        assert(model::items_model(out@) =~= placed(all, done));
    }
    while stack.len() > 0
        invariant
            all == model::items_model(comments@),
            replies.hold(all),
            seen@.len() == comments@.len(),
            whole == done + walk(all, todo(stack@), marked(seen@)),
            model::items_model(out@) == placed(all, done),
        decreases unseen(all.len(), marked(seen@)), stack@.len(),
    {
        let ghost had = stack@;
        let ghost seen_set = marked(seen@);
        let (i, depth) = stack.pop().unwrap();
        proof {
            assert(todo(had)[0] == (i as int, depth));
            assert(todo(had).skip(1) =~= todo(stack@));
        }
        if i < comments.len() && !seen[i] {
            let ghost out_had = model::items_model(out@);
            seen.set(i, true);
            proof {
                assert(marked(seen@) =~= seen_set.insert(i as int));
                lemma_unseen_less(all.len(), seen_set, i as int);
            }
            let item = place(&comments[i], depth);
            let ghost item_model = item@;
            out.push(item);
            assert(model::items_model(out@) =~= out_had.push(item_model));
            push_named(
                &mut stack,
                &replies,
                comments[i].fullname.as_str(),
                depth.saturating_add(1),
                Ghost(all),
            );
            proof {
                let next = walk(all, todo(stack@), marked(seen@));
                assert(whole =~= done.push((i as int, depth)) + next);
                assert(placed(all, done.push((i as int, depth))) =~= placed(all, done).push(
                    item_model,
                ));
                done = done.push((i as int, depth));
            }
        }
    }
    proof {
        assert(todo(stack@) =~= Seq::empty());
        assert(whole =~= done);
    }
    out
}

/// The full names of the comments.
fn index_names(comments: &Vec<RedditItem>) -> (r: StringHashMap<bool>)
    ensures
        forall|name: Seq<char>| #[trigger]
            r@.contains_key(name) <==> known(model::items_model(comments@), name),
{
    let ghost all = model::items_model(comments@);
    let mut r: StringHashMap<bool> = StringHashMap::new();
    let mut i: usize = 0;
    while i < comments.len()
        invariant
            i <= comments@.len(),
            all == model::items_model(comments@),
            forall|name: Seq<char>| #[trigger]
                r@.contains_key(name) <==> exists|j: int|
                    0 <= j < i && #[trigger] all[j].fullname == name,
        decreases comments@.len() - i,
    {
        let ghost was = r@;
        r.insert(comments[i].fullname.clone(), true);
        proof {
            assert forall|name: Seq<char>| #[trigger]
                r@.contains_key(name) <==> exists|j: int|
                    0 <= j < i + 1 && #[trigger] all[j].fullname == name by {
                if r@.contains_key(name) {
                    if name == all[i as int].fullname {
                        assert(all[i as int].fullname == name);
                    } else {
                        assert(was.contains_key(name));
                    }
                }
                if exists|j: int| 0 <= j < i + 1 && #[trigger] all[j].fullname == name {
                    let j = choose|j: int| 0 <= j < i + 1 && #[trigger] all[j].fullname == name;
                    if j < i {
                        assert(was.contains_key(name));
                    }
                }
            }
        }
        i = i + 1;
    }
    r
}

/// Puts the comments of a thread in reading order below the post whose full
/// name is `root`.
pub fn order_comments(comments: &Vec<RedditItem>, root: &str) -> (r: Vec<RedditItem>)
    ensures
        model::items_model(r@) == ordered(model::items_model(comments@), root@),
{
    let ghost all = model::items_model(comments@);
    let ghost first = walk_from(all, root@);
    let mut out = walked(comments, root);
    let names = index_names(comments);
    let mut i: usize = 0;
    assert(model::items_model(out@) =~= placed(
        all,
        first + at_depth(orphans(all, root@, 0), 0),
    ));
    while i < comments.len()
        invariant
            i <= comments@.len(),
            all == model::items_model(comments@),
            forall|name: Seq<char>| #[trigger] names@.contains_key(name) <==> known(all, name),
            model::items_model(out@) == placed(
                all,
                first + at_depth(orphans(all, root@, i as int), 0),
            ),
        decreases comments@.len() - i,
    {
        let ghost had = model::items_model(out@);
        let is_attached = match &comments[i].parent_id {
            Some(parent) => text::same_text(parent.as_str(), root) || names.contains_key(
                parent.as_str(),
            ),
            None => false,
        };
        assert(is_attached == attached(all, root@, all[i as int]));
        if !is_attached {
            let item = place(&comments[i], 0);
            let ghost item_model = item@;
            out.push(item);
            assert(model::items_model(out@) =~= had.push(item_model));
        }
        assert(model::items_model(out@) =~= placed(
            all,
            first + at_depth(orphans(all, root@, i + 1), 0),
        ));
        i = i + 1;
    }
    out
}

// ---------------------------------------------------------------------------
// What holds of the order
// ---------------------------------------------------------------------------

/// The comment at step `k` of a path replies to the one at the next step.
pub open spec fn linked(comments: Seq<ItemModel>, path: Seq<int>, k: int) -> bool {
    comments[path[k]].parent_id == Some(comments[path[k + 1]].fullname)
}

/// A way from a comment to the post: each comment on it replies to the next
/// one, and the last one replies to the post.
pub open spec fn way(comments: Seq<ItemModel>, root: Seq<char>, path: Seq<int>) -> bool {
    &&& path.len() > 0
    &&& forall|k: int| 0 <= k < path.len() ==> 0 <= #[trigger] path[k] < comments.len()
    &&& comments[path.last()].parent_id == Some(root)
    &&& forall|k: int| 0 <= k < path.len() - 1 ==> #[trigger] linked(comments, path, k)
}

/// The parents of the comment at position `i` lead to the post.
pub open spec fn connected(comments: Seq<ItemModel>, root: Seq<char>, i: int) -> bool {
    exists|path: Seq<int>| #[trigger] way(comments, root, path) && path[0] == i
}

/// The comment replies to the one at place `j`, stands one level below it, and
/// nothing that is less deep stands between them.
pub open spec fn below_parent(
    comments: Seq<ItemModel>,
    before: Seq<(int, usize)>,
    here: (int, usize),
    j: int,
) -> bool {
    &&& 0 <= j < before.len()
    &&& comments[here.0].parent_id == Some(comments[before[j].0].fullname)
    &&& here.1 == parse::below(before[j].1)
    &&& forall|m: int| j < m < before.len() ==> here.1 <= (#[trigger] before[m]).1
}

/// The place is explained by the places before it: the comment replies to the
/// post and stands at depth zero, or it stands below its parent.
pub open spec fn explained(
    comments: Seq<ItemModel>,
    root: Seq<char>,
    before: Seq<(int, usize)>,
    here: (int, usize),
) -> bool {
    ||| comments[here.0].parent_id == Some(root) && here.1 == 0
    ||| exists|j: int| #[trigger] below_parent(comments, before, here, j)
}

/// Position `i` is among the places.
pub open spec fn stands_in(places: Seq<(int, usize)>, i: int) -> bool {
    exists|k: int| 0 <= k < places.len() && (#[trigger] places[k]).0 == i
}

proof fn lemma_replies_are(comments: Seq<ItemModel>, name: Seq<char>)
    ensures
        forall|k: int|
            0 <= k < replies_to(comments, name).len() ==> {
                let i = #[trigger] replies_to(comments, name)[k];
                0 <= i < comments.len() && comments[i].parent_id == Some(name)
            },
        forall|i: int|
            0 <= i < comments.len() && (#[trigger] comments[i]).parent_id == Some(name)
                ==> replies_to(comments, name).contains(i),
        forall|a: int, b: int|
            0 <= a < b < replies_to(comments, name).len() ==> replies_to(comments, name)[a]
                < replies_to(comments, name)[b],
    decreases comments.len(),
{
    if comments.len() > 0 {
        let front = comments.drop_last();
        let before = replies_to(front, name);
        let all = replies_to(comments, name);
        lemma_replies_are(front, name);
        assert forall|k: int| 0 <= k < all.len() implies {
            let i = #[trigger] all[k];
            0 <= i < comments.len() && comments[i].parent_id == Some(name)
        } by {
            if k < before.len() {
                assert(all[k] == before[k]);
                assert(front[before[k]] == comments[before[k]]);
            }
        }
        assert forall|i: int|
            0 <= i < comments.len() && (#[trigger] comments[i]).parent_id == Some(
                name,
            ) implies all.contains(i) by {
            if i < front.len() {
                assert(front[i].parent_id == Some(name));
                let k = choose|k: int| 0 <= k < before.len() && before[k] == i;
                assert(all[k] == i);
            } else {
                assert(all[before.len() as int] == i);
            }
        }
    }
}

proof fn lemma_orphans_are(comments: Seq<ItemModel>, root: Seq<char>, n: int)
    requires
        0 <= n <= comments.len(),
    ensures
        forall|k: int|
            0 <= k < orphans(comments, root, n).len() ==> {
                let i = #[trigger] orphans(comments, root, n)[k];
                0 <= i < n && !attached(comments, root, comments[i])
            },
        forall|i: int|
            0 <= i < n && !attached(comments, root, #[trigger] comments[i]) ==> orphans(
                comments,
                root,
                n,
            ).contains(i),
        forall|a: int, b: int|
            0 <= a < b < orphans(comments, root, n).len() ==> orphans(comments, root, n)[a]
                < orphans(comments, root, n)[b],
    decreases n,
{
    if n > 0 {
        lemma_orphans_are(comments, root, n - 1);
        let before = orphans(comments, root, n - 1);
        let all = orphans(comments, root, n);
        assert forall|i: int|
            0 <= i < n && !attached(comments, root, #[trigger] comments[i]) implies all.contains(
            i,
        ) by {
            if i < n - 1 {
                let k = choose|k: int| 0 <= k < before.len() && before[k] == i;
                assert(all[k] == i);
            } else {
                assert(all[before.len() as int] == i);
            }
        }
    }
}

/// The walk arrives at each position at most once, and at none that was seen.
proof fn lemma_walk_distinct(comments: Seq<ItemModel>, todo: Seq<(int, usize)>, seen: Set<int>)
    ensures
        forall|k: int|
            0 <= k < walk(comments, todo, seen).len() ==> {
                let i = (#[trigger] walk(comments, todo, seen)[k]).0;
                0 <= i < comments.len() && !seen.contains(i)
            },
        forall|a: int, b: int|
            0 <= a < b < walk(comments, todo, seen).len() ==> walk(comments, todo, seen)[a].0
                != walk(comments, todo, seen)[b].0,
    decreases unseen(comments.len(), seen), todo.len(),
{
    if todo.len() > 0 {
        let (i, depth) = todo[0];
        let rest = todo.skip(1);
        if seen.contains(i) || !(0 <= i < comments.len()) {
            lemma_walk_distinct(comments, rest, seen);
            assert(walk(comments, todo, seen) == walk(comments, rest, seen));
        } else {
            lemma_unseen_less(comments.len(), seen, i);
            let next = at_depth(replies_to(comments, comments[i].fullname), parse::below(depth))
                + rest;
            lemma_walk_distinct(comments, next, seen.insert(i));
            let tail = walk(comments, next, seen.insert(i));
            let all = walk(comments, todo, seen);
            assert(all =~= seq![(i, depth)] + tail);
            assert forall|k: int| 0 <= k < all.len() implies {
                let j = (#[trigger] all[k]).0;
                0 <= j < comments.len() && !seen.contains(j)
            } by {
                if k > 0 {
                    assert(all[k] == tail[k - 1]);
                    assert(!seen.insert(i).contains(tail[k - 1].0));
                }
            }
            assert forall|a: int, b: int| 0 <= a < b < all.len() implies all[a].0 != all[b].0 by {
                assert(all[b] == tail[b - 1]);
                if a > 0 {
                    assert(all[a] == tail[a - 1]);
                } else {
                    assert(!seen.insert(i).contains(tail[b - 1].0));
                }
            }
        }
    }
}

/// Each place of a walk is explained by the places before it.
proof fn lemma_walk_explained(
    comments: Seq<ItemModel>,
    root: Seq<char>,
    todo: Seq<(int, usize)>,
    seen: Set<int>,
    done: Seq<(int, usize)>,
)
    requires
        forall|k: int|
            0 <= k < todo.len() ==> explained(comments, root, done, #[trigger] todo[k]),
        forall|a: int, b: int|
            0 <= a < b < todo.len() ==> (#[trigger] todo[b]).1 <= (#[trigger] todo[a]).1,
    ensures
        forall|k: int|
            0 <= k < walk(comments, todo, seen).len() ==> explained(
                comments,
                root,
                done + walk(comments, todo, seen).take(k),
                #[trigger] walk(comments, todo, seen)[k],
            ),
    decreases unseen(comments.len(), seen), todo.len(),
{
    if todo.len() > 0 {
        let (i, depth) = todo[0];
        let rest = todo.skip(1);
        assert forall|k: int| 0 <= k < rest.len() implies explained(
            comments,
            root,
            done,
            #[trigger] rest[k],
        ) by {
            assert(rest[k] == todo[k + 1]);
        }
        if seen.contains(i) || !(0 <= i < comments.len()) {
            lemma_walk_explained(comments, root, rest, seen, done);
            assert(walk(comments, todo, seen) == walk(comments, rest, seen));
        } else {
            lemma_unseen_less(comments.len(), seen, i);
            let replies = replies_to(comments, comments[i].fullname);
            lemma_replies_are(comments, comments[i].fullname);
            let placed_replies = at_depth(replies, parse::below(depth));
            let next = placed_replies + rest;
            let done2 = done.push((i, depth));
            assert forall|k: int| 0 <= k < next.len() implies explained(
                comments,
                root,
                done2,
                #[trigger] next[k],
            ) by {
                if k < replies.len() {
                    assert(next[k] == (replies[k], parse::below(depth)));
                    assert(below_parent(comments, done2, next[k], done.len() as int));
                } else {
                    assert(next[k] == rest[k - replies.len()]);
                    assert(rest[k - replies.len()] == todo[k - replies.len() + 1]);
                    lemma_explained_grows(comments, root, done, (i, depth), next[k]);
                }
            }
            assert forall|a: int, b: int| 0 <= a < b < next.len() implies (#[trigger] next[b]).1
                <= (#[trigger] next[a]).1 by {
                if b >= replies.len() {
                    assert(next[b] == todo[b - replies.len() + 1]);
                    if a >= replies.len() {
                        assert(next[a] == todo[a - replies.len() + 1]);
                    }
                }
            }
            lemma_walk_explained(comments, root, next, seen.insert(i), done2);
            let tail = walk(comments, next, seen.insert(i));
            let all = walk(comments, todo, seen);
            assert(all =~= seq![(i, depth)] + tail);
            assert forall|k: int| 0 <= k < all.len() implies explained(
                comments,
                root,
                done + all.take(k),
                #[trigger] all[k],
            ) by {
                if k == 0 {
                    assert(done + all.take(0) =~= done);
                    assert(all[0] == todo[0]);
                } else {
                    assert(all[k] == tail[k - 1]);
                    assert(done + all.take(k) =~= done2 + tail.take(k - 1));
                }
            }
        }
    }
}

proof fn lemma_explained_grows(
    comments: Seq<ItemModel>,
    root: Seq<char>,
    done: Seq<(int, usize)>,
    more: (int, usize),
    here: (int, usize),
)
    requires
        explained(comments, root, done, here),
        here.1 <= more.1,
    ensures
        explained(comments, root, done.push(more), here),
{
    if !(comments[here.0].parent_id == Some(root) && here.1 == 0) {
        let j = choose|j: int| #[trigger] below_parent(comments, done, here, j);
        assert(below_parent(comments, done.push(more), here, j));
    }
}

/// The walk arrives at everything it has to do, and at the replies to whatever
/// it arrives at, unless they were seen.
proof fn lemma_walk_complete(comments: Seq<ItemModel>, todo: Seq<(int, usize)>, seen: Set<int>)
    ensures
        forall|k: int|
            0 <= k < todo.len() && 0 <= (#[trigger] todo[k]).0 < comments.len() ==> {
                seen.contains(todo[k].0) || stands_in(walk(comments, todo, seen), todo[k].0)
            },
        forall|i: int, r: int|
            stands_in(walk(comments, todo, seen), i) && 0 <= r < comments.len() && (
            #[trigger] comments[r]).parent_id == Some((#[trigger] comments[i]).fullname) ==> {
                seen.contains(r) || stands_in(walk(comments, todo, seen), r)
            },
    decreases unseen(comments.len(), seen), todo.len(),
{
    if todo.len() > 0 {
        let (i, depth) = todo[0];
        let rest = todo.skip(1);
        let all = walk(comments, todo, seen);
        if seen.contains(i) || !(0 <= i < comments.len()) {
            lemma_walk_complete(comments, rest, seen);
            assert forall|k: int|
                0 <= k < todo.len() && 0 <= (#[trigger] todo[k]).0 < comments.len() implies {
                seen.contains(todo[k].0) || stands_in(all, todo[k].0)
            } by {
                if k > 0 {
                    assert(rest[k - 1] == todo[k]);
                }
            }
        } else {
            lemma_unseen_less(comments.len(), seen, i);
            let replies = replies_to(comments, comments[i].fullname);
            lemma_replies_are(comments, comments[i].fullname);
            let next = at_depth(replies, parse::below(depth)) + rest;
            lemma_walk_complete(comments, next, seen.insert(i));
            let tail = walk(comments, next, seen.insert(i));
            assert(all =~= seq![(i, depth)] + tail);
            assert(all[0].0 == i);
            assert forall|x: int| #[trigger] stands_in(tail, x) implies stands_in(all, x) by {
                let k = choose|k: int| 0 <= k < tail.len() && (#[trigger] tail[k]).0 == x;
                assert(all[k + 1] == tail[k]);
            }
            assert forall|k: int|
                0 <= k < todo.len() && 0 <= (#[trigger] todo[k]).0 < comments.len() implies {
                seen.contains(todo[k].0) || stands_in(all, todo[k].0)
            } by {
                if k > 0 {
                    assert(next[replies.len() + k - 1] == todo[k]);
                }
            }
            assert forall|y: int, r: int|
                stands_in(all, y) && 0 <= r < comments.len() && (#[trigger] comments[r]).parent_id
                    == Some((#[trigger] comments[y]).fullname) implies {
                seen.contains(r) || stands_in(all, r)
            } by {
                let k = choose|k: int| 0 <= k < all.len() && (#[trigger] all[k]).0 == y;
                if k == 0 {
                    assert(replies.contains(r));
                    let m = choose|m: int| 0 <= m < replies.len() && replies[m] == r;
                    assert(next[m].0 == r);
                } else {
                    assert(all[k] == tail[k - 1]);
                    assert(stands_in(tail, y));
                }
            }
        }
    }
}

proof fn lemma_from_post_explained(comments: Seq<ItemModel>, root: Seq<char>)
    ensures
        forall|k: int|
            0 <= k < walk_from(comments, root).len() ==> explained(
                comments,
                root,
                walk_from(comments, root).take(k),
                #[trigger] walk_from(comments, root)[k],
            ),
{
    let start = at_depth(replies_to(comments, root), 0);
    lemma_replies_are(comments, root);
    assert forall|k: int| 0 <= k < start.len() implies explained(
        comments,
        root,
        Seq::empty(),
        #[trigger] start[k],
    ) by {
        assert(start[k].0 == replies_to(comments, root)[k]);
    }
    lemma_walk_explained(comments, root, start, Set::empty(), Seq::empty());
    let w = walk_from(comments, root);
    assert forall|k: int| 0 <= k < w.len() implies explained(
        comments,
        root,
        w.take(k),
        #[trigger] w[k],
    ) by {
        assert(Seq::<(int, usize)>::empty() + w.take(k) =~= w.take(k));
    }
}

proof fn lemma_explained_attached(
    comments: Seq<ItemModel>,
    root: Seq<char>,
    before: Seq<(int, usize)>,
    here: (int, usize),
)
    requires
        explained(comments, root, before, here),
        forall|j: int| 0 <= j < before.len() ==> 0 <= (#[trigger] before[j]).0 < comments.len(),
    ensures
        attached(comments, root, comments[here.0]),
{
    if comments[here.0].parent_id != Some(root) {
        let j = choose|j: int| #[trigger] below_parent(comments, before, here, j);
        assert(comments[before[j].0].fullname == comments[here.0].parent_id->0);
    }
}

/// Every comment of a thread stands in it at most once.
pub proof fn law_each_comment_once(comments: Seq<ItemModel>, root: Seq<char>)
    ensures
        forall|k: int|
            0 <= k < places(comments, root).len() ==> 0 <= (#[trigger] places(
                comments,
                root,
            )[k]).0 < comments.len(),
        forall|a: int, b: int|
            0 <= a < b < places(comments, root).len() ==> places(comments, root)[a].0 != places(
                comments,
                root,
            )[b].0,
{
    let w = walk_from(comments, root);
    let o = orphans(comments, root, comments.len() as int);
    let all = places(comments, root);
    lemma_walk_distinct(comments, at_depth(replies_to(comments, root), 0), Set::empty());
    lemma_orphans_are(comments, root, comments.len() as int);
    lemma_from_post_explained(comments, root);
    assert forall|k: int| 0 <= k < all.len() implies 0 <= (#[trigger] all[k]).0
        < comments.len() by {
        if k < w.len() {
            assert(all[k] == w[k]);
        } else {
            assert(all[k].0 == o[k - w.len()]);
        }
    }
    assert forall|a: int, b: int| 0 <= a < b < all.len() implies all[a].0 != all[b].0 by {
        if b < w.len() {
            assert(all[a] == w[a] && all[b] == w[b]);
        } else if a >= w.len() {
            assert(all[a].0 == o[a - w.len()] && all[b].0 == o[b - w.len()]);
        } else {
            assert(all[a] == w[a] && all[b].0 == o[b - w.len()]);
            assert forall|j: int| 0 <= j < w.take(a).len() implies 0 <= (#[trigger] w.take(a)[j]).0
                < comments.len() by {
                assert(w.take(a)[j] == w[j]);
            }
            lemma_explained_attached(comments, root, w.take(a), w[a]);
        }
    }
}

/// A comment stands at depth zero, or one level below its parent, which stands
/// before it. Between the two stand only comments that are at least as deep: a
/// comment and what is below it stand together.
pub proof fn law_parents_come_first(comments: Seq<ItemModel>, root: Seq<char>, k: int)
    requires
        0 <= k < places(comments, root).len(),
    ensures
        places(comments, root)[k].1 == 0 || explained(
            comments,
            root,
            places(comments, root).take(k),
            places(comments, root)[k],
        ),
{
    let w = walk_from(comments, root);
    let all = places(comments, root);
    lemma_from_post_explained(comments, root);
    if k < w.len() {
        assert(all[k] == w[k]);
        assert(all.take(k) =~= w.take(k));
    }
}

/// A reply to the first comment of a way makes the way one step longer.
proof fn lemma_way_grows(comments: Seq<ItemModel>, root: Seq<char>, short: Seq<int>, i: int)
    requires
        way(comments, root, short),
        0 <= i < comments.len(),
        comments[i].parent_id == Some(comments[short[0]].fullname),
    ensures
        connected(comments, root, i),
{
    let path = seq![i] + short;
    assert(path.last() == short.last());
    assert forall|m: int| 0 <= m < path.len() implies 0 <= #[trigger] path[m]
        < comments.len() by {
        if m > 0 {
            assert(path[m] == short[m - 1]);
        }
    }
    assert forall|m: int| 0 <= m < path.len() - 1 implies #[trigger] linked(comments, path, m) by {
        assert(path[m + 1] == short[m]);
        if m > 0 {
            assert(path[m] == short[m - 1]);
            assert(linked(comments, short, m - 1));
        }
    }
    assert(way(comments, root, path));
    assert(path[0] == i);
}

proof fn lemma_walked_connected(comments: Seq<ItemModel>, root: Seq<char>, k: int)
    requires
        0 <= k < walk_from(comments, root).len(),
    ensures
        connected(comments, root, walk_from(comments, root)[k].0),
    decreases k,
{
    let w = walk_from(comments, root);
    let here = w[k];
    assert(explained(comments, root, w.take(k), here)) by {
        lemma_from_post_explained(comments, root);
    }
    assert(0 <= here.0 < comments.len()) by {
        lemma_walk_distinct(comments, at_depth(replies_to(comments, root), 0), Set::empty());
    }
    if comments[here.0].parent_id == Some(root) {
        let path = seq![here.0];
        assert(way(comments, root, path));
        assert(path[0] == here.0);
    } else {
        let j = choose|j: int| #[trigger] below_parent(comments, w.take(k), here, j);
        assert(w.take(k)[j] == w[j]);
        lemma_walked_connected(comments, root, j);
        let short = choose|path: Seq<int>| #[trigger]
            way(comments, root, path) && path[0] == w[j].0;
        lemma_way_grows(comments, root, short, here.0);
    }
}

proof fn lemma_connected_walked(comments: Seq<ItemModel>, root: Seq<char>, path: Seq<int>)
    requires
        way(comments, root, path),
    ensures
        stands_in(walk_from(comments, root), path[0]),
    decreases path.len(),
{
    let start = at_depth(replies_to(comments, root), 0);
    lemma_walk_complete(comments, start, Set::empty());
    lemma_replies_are(comments, root);
    if path.len() == 1 {
        let i = path[0];
        assert(comments[i].parent_id == Some(root));
        assert(replies_to(comments, root).contains(i));
        let k = choose|k: int|
            0 <= k < replies_to(comments, root).len() && replies_to(comments, root)[k] == i;
        assert(start[k].0 == i);
    } else {
        let rest = path.skip(1);
        assert forall|m: int| 0 <= m < rest.len() implies 0 <= #[trigger] rest[m]
            < comments.len() by {
            assert(rest[m] == path[m + 1]);
        }
        assert forall|m: int| 0 <= m < rest.len() - 1 implies #[trigger] linked(
            comments,
            rest,
            m,
        ) by {
            assert(linked(comments, path, m + 1));
        }
        assert(way(comments, root, rest));
        lemma_connected_walked(comments, root, rest);
        assert(linked(comments, path, 0));
        assert(comments[path[0]].parent_id == Some(comments[rest[0]].fullname));
    }
}

/// A thread shows exactly the comments whose parents lead to the post, and
/// those whose parent is not there.
pub proof fn law_shown_comments(comments: Seq<ItemModel>, root: Seq<char>, i: int)
    requires
        0 <= i < comments.len(),
    ensures
        stands_in(places(comments, root), i) <==> connected(comments, root, i) || !attached(
            comments,
            root,
            comments[i],
        ),
{
    let w = walk_from(comments, root);
    let o = orphans(comments, root, comments.len() as int);
    let all = places(comments, root);
    lemma_orphans_are(comments, root, comments.len() as int);
    if stands_in(all, i) {
        let k = choose|k: int| 0 <= k < all.len() && (#[trigger] all[k]).0 == i;
        if k < w.len() {
            assert(all[k] == w[k]);
            lemma_walked_connected(comments, root, k);
        } else {
            assert(all[k].0 == o[k - w.len()]);
        }
    }
    if connected(comments, root, i) {
        let path = choose|path: Seq<int>| #[trigger] way(comments, root, path) && path[0] == i;
        lemma_connected_walked(comments, root, path);
        let k = choose|k: int| 0 <= k < w.len() && (#[trigger] w[k]).0 == i;
        assert(all[k] == w[k]);
    }
    if !attached(comments, root, comments[i]) {
        assert(o.contains(i));
        let k = choose|k: int| 0 <= k < o.len() && o[k] == i;
        assert(all[w.len() + k].0 == i);
    }
}

/// Position `i` is among the first `k` places.
spec fn met_before(places: Seq<(int, usize)>, i: int, k: int) -> bool {
    exists|m: int| 0 <= m < k && (#[trigger] places[m]).0 == i
}

/// Wherever position `j` stands, position `i` was seen or stands before it.
spec fn ahead(places: Seq<(int, usize)>, seen: Set<int>, i: int, j: int) -> bool {
    forall|k: int|
        0 <= k < places.len() && (#[trigger] places[k]).0 == j ==> seen.contains(i) || met_before(
            places,
            i,
            k,
        )
}

proof fn lemma_replies_ahead(
    comments: Seq<ItemModel>,
    name: Seq<char>,
    depth: usize,
    i: int,
    j: int,
)
    requires
        0 <= i < j < comments.len(),
        comments[i].parent_id == comments[j].parent_id,
    ensures
        ahead(at_depth(replies_to(comments, name), depth), Set::empty(), i, j),
{
    let replies = replies_to(comments, name);
    let list = at_depth(replies, depth);
    lemma_replies_are(comments, name);
    assert forall|k: int| 0 <= k < list.len() && (#[trigger] list[k]).0 == j implies met_before(
        list,
        i,
        k,
    ) by {
        assert(replies[k] == j);
        assert(replies.contains(i));
        let m = choose|m: int| 0 <= m < replies.len() && replies[m] == i;
        if m > k {
            assert(replies[k] < replies[m]);
        }
        assert(list[m].0 == i);
    }
}

/// The walk keeps the order of the replies to one parent.
proof fn lemma_walk_siblings(
    comments: Seq<ItemModel>,
    todo: Seq<(int, usize)>,
    seen: Set<int>,
    i: int,
    j: int,
)
    requires
        0 <= i < j < comments.len(),
        comments[i].parent_id == comments[j].parent_id,
        ahead(todo, seen, i, j),
    ensures
        ahead(walk(comments, todo, seen), seen, i, j),
    decreases unseen(comments.len(), seen), todo.len(),
{
    if todo.len() > 0 && !seen.contains(i) {
        let (x, depth) = todo[0];
        let rest = todo.skip(1);
        let all = walk(comments, todo, seen);
        if seen.contains(x) || !(0 <= x < comments.len()) {
            assert forall|k: int|
                0 <= k < rest.len() && (#[trigger] rest[k]).0 == j implies met_before(
                rest,
                i,
                k,
            ) by {
                assert(todo[k + 1].0 == j);
                let m = choose|m: int| 0 <= m < k + 1 && (#[trigger] todo[m]).0 == i;
                assert(rest[m - 1].0 == i);
            }
            lemma_walk_siblings(comments, rest, seen, i, j);
        } else {
            lemma_unseen_less(comments.len(), seen, x);
            let replies = at_depth(
                replies_to(comments, comments[x].fullname),
                parse::below(depth),
            );
            let next = replies + rest;
            let tail = walk(comments, next, seen.insert(x));
            assert(all =~= seq![(x, depth)] + tail);
            assert(all[0].0 == x);
            if x == i {
                assert forall|k: int|
                    0 <= k < all.len() && (#[trigger] all[k]).0 == j implies met_before(
                    all,
                    i,
                    k,
                ) by {
                    assert(all[0].0 == i);
                }
            } else {
                assert(x != j) by {
                    if x == j {
                        assert(todo[0].0 == j);
                    }
                }
                lemma_replies_ahead(comments, comments[x].fullname, parse::below(depth), i, j);
                assert forall|k: int|
                    0 <= k < next.len() && (#[trigger] next[k]).0 == j implies met_before(
                    next,
                    i,
                    k,
                ) by {
                    if k < replies.len() {
                        assert(replies[k].0 == j);
                        let m = choose|m: int| 0 <= m < k && (#[trigger] replies[m]).0 == i;
                        assert(next[m].0 == i);
                    } else {
                        let t = k - replies.len() + 1;
                        assert(todo[t].0 == j);
                        let m = choose|m: int| 0 <= m < t && (#[trigger] todo[m]).0 == i;
                        assert(next[replies.len() + m - 1].0 == i);
                    }
                }
                lemma_walk_siblings(comments, next, seen.insert(x), i, j);
                assert forall|k: int|
                    0 <= k < all.len() && (#[trigger] all[k]).0 == j implies met_before(
                    all,
                    i,
                    k,
                ) by {
                    assert(tail[k - 1].0 == j);
                    let m = choose|m: int| 0 <= m < k - 1 && (#[trigger] tail[m]).0 == i;
                    assert(all[m + 1].0 == i);
                }
            }
        }
    }
}

/// Replies to one parent stand in the order of their arrival.
pub proof fn law_siblings_keep_their_order(
    comments: Seq<ItemModel>,
    root: Seq<char>,
    a: int,
    b: int,
)
    requires
        0 <= a < places(comments, root).len(),
        0 <= b < places(comments, root).len(),
        places(comments, root)[a].0 < places(comments, root)[b].0,
        comments[places(comments, root)[a].0].parent_id == comments[places(
            comments,
            root,
        )[b].0].parent_id,
    ensures
        a < b,
{
    let w = walk_from(comments, root);
    let o = orphans(comments, root, comments.len() as int);
    let all = places(comments, root);
    let i = all[a].0;
    let j = all[b].0;
    let start = at_depth(replies_to(comments, root), 0);
    law_each_comment_once(comments, root);
    lemma_orphans_are(comments, root, comments.len() as int);
    lemma_from_post_explained(comments, root);
    assert forall|k: int| 0 <= k < w.len() implies attached(
        comments,
        root,
        comments[(#[trigger] w[k]).0],
    ) by {
        assert forall|m: int| 0 <= m < w.take(k).len() implies 0 <= (#[trigger] w.take(k)[m]).0
            < comments.len() by {
            assert(w.take(k)[m] == all[m]);
        }
        lemma_explained_attached(comments, root, w.take(k), w[k]);
    }
    if a >= w.len() && b < w.len() {
        assert(all[a].0 == o[a - w.len()] && all[b] == w[b]);
    } else if a >= w.len() {
        assert(all[a].0 == o[a - w.len()] && all[b].0 == o[b - w.len()]);
        if b < a {
            assert(o[b - w.len()] < o[a - w.len()]);
        }
    } else if b < w.len() {
        lemma_replies_ahead(comments, root, 0, i, j);
        lemma_walk_siblings(comments, start, Set::empty(), i, j);
        assert(all[b] == w[b]);
        let m = choose|m: int| 0 <= m < b && (#[trigger] w[m]).0 == i;
        assert(all[m] == w[m]);
        if b < a {
            assert(all[m].0 != all[a].0);
        }
    }
}

/// The comment at a position replies to the post or to one of the comments.
pub open spec fn has_parent(comments: Seq<ItemModel>, root: Seq<char>, i: int) -> bool {
    ||| comments[i].parent_id == Some(root)
    ||| exists|j: int|
        0 <= j < comments.len() && comments[i].parent_id == Some((#[trigger] comments[j]).fullname)
}

/// A comment that stands at a place replies to the one at a place before it and
/// stands one level below it, with nothing between them that is less deep.
pub open spec fn hangs_under(
    comments: Seq<ItemModel>,
    all: Seq<(int, usize)>,
    k: int,
    j: int,
) -> bool {
    &&& 0 <= j < k
    &&& comments[all[k].0].parent_id == Some(comments[all[j].0].fullname)
    &&& all[k].1 == all[j].1 + 1 || (all[k].1 == usize::MAX && all[j].1 == usize::MAX)
    &&& forall|m: int| j < m < k ==> all[k].1 <= (#[trigger] all[m]).1
}

/// A reply to a comment stands one level below that comment. A reply to the
/// post stands at depth zero, and so does a comment whose parent is not there.
pub proof fn law_depths_follow_the_parents(comments: Seq<ItemModel>, root: Seq<char>, k: int)
    requires
        0 <= k < places(comments, root).len(),
    ensures
        ({
            let all = places(comments, root);
            let i = all[k].0;
            &&& has_parent(comments, root, i) && comments[i].parent_id != Some(root) ==> exists|
                j: int,
            | #[trigger]
                hangs_under(comments, all, k, j)
            &&& !has_parent(comments, root, i) ==> all[k].1 == 0
            &&& comments[i].parent_id == Some(root) && (forall|j: int|
                0 <= j < comments.len() ==> (#[trigger] comments[j]).fullname != root) ==> all[k].1
                == 0
        }),
{
    let w = walk_from(comments, root);
    let o = orphans(comments, root, comments.len() as int);
    let all = places(comments, root);
    let i = all[k].0;
    law_each_comment_once(comments, root);
    lemma_from_post_explained(comments, root);
    lemma_orphans_are(comments, root, comments.len() as int);
    lemma_attached(comments, root, i);
    if k < w.len() {
        assert(all[k] == w[k]);
        assert(explained(comments, root, w.take(k), w[k]));
        assert forall|m: int| 0 <= m < w.take(k).len() implies 0 <= (#[trigger] w.take(k)[m]).0
            < comments.len() by {
            assert(w.take(k)[m] == all[m]);
        }
        lemma_explained_attached(comments, root, w.take(k), w[k]);
        if !(comments[i].parent_id == Some(root) && all[k].1 == 0) {
            let j = choose|j: int| #[trigger] below_parent(comments, w.take(k), w[k], j);
            assert(w.take(k)[j] == all[j]);
            assert forall|m: int| j < m < k implies all[k].1 <= (#[trigger] all[m]).1 by {
                assert(w.take(k)[m] == all[m]);
            }
            assert(hangs_under(comments, all, k, j));
        }
    } else {
        assert(all[k].0 == o[k - w.len()]);
    }
}

proof fn lemma_attached(comments: Seq<ItemModel>, root: Seq<char>, i: int)
    requires
        0 <= i < comments.len(),
    ensures
        has_parent(comments, root, i) <==> attached(comments, root, comments[i]),
{
    if attached(comments, root, comments[i]) && comments[i].parent_id != Some(root) {
        let j = choose|j: int|
            0 <= j < comments.len() && #[trigger] comments[j].fullname
                == comments[i].parent_id->0;
        assert(comments[i].parent_id == Some(comments[j].fullname));
    }
    if has_parent(comments, root, i) && comments[i].parent_id != Some(root) {
        let j = choose|j: int|
            0 <= j < comments.len() && comments[i].parent_id == Some(
                (#[trigger] comments[j]).fullname,
            );
        assert(comments[j].fullname == comments[i].parent_id->0);
    }
}

/// Every comment that stands in a thread is one of those that were gathered,
/// changed in nothing but its depth. A comment whose parent is not there always
/// stands in it, behind all whose parent is.
pub proof fn law_comments_are_only_moved(comments: Seq<ItemModel>, root: Seq<char>)
    ensures
        ordered(comments, root).len() == places(comments, root).len(),
        forall|k: int| #![trigger ordered(comments, root)[k]]
            0 <= k < ordered(comments, root).len() ==> {
                let (i, depth) = places(comments, root)[k];
                &&& ordered(comments, root)[k].depth == depth
                &&& (ItemModel { depth: comments[i].depth, ..ordered(comments, root)[k] })
                    == comments[i]
            },
        forall|i: int|
            0 <= i < comments.len() && !has_parent(comments, root, i) ==> #[trigger] stands_in(
                places(comments, root),
                i,
            ),
        forall|a: int, b: int| #![trigger places(comments, root)[a], places(comments, root)[b]]
            0 <= a < b < places(comments, root).len() && !has_parent(
                comments,
                root,
                places(comments, root)[a].0,
            ) ==> !has_parent(comments, root, places(comments, root)[b].0),
{
    let w = walk_from(comments, root);
    let o = orphans(comments, root, comments.len() as int);
    let all = places(comments, root);
    law_each_comment_once(comments, root);
    lemma_from_post_explained(comments, root);
    lemma_orphans_are(comments, root, comments.len() as int);
    assert forall|i: int| 0 <= i < comments.len() && !has_parent(comments, root, i) implies
        #[trigger] stands_in(all, i) by {
        lemma_attached(comments, root, i);
        law_shown_comments(comments, root, i);
    }
    assert forall|a: int, b: int| #![trigger all[a], all[b]]
        0 <= a < b < all.len() && !has_parent(comments, root, all[a].0) implies !has_parent(
        comments,
        root,
        all[b].0,
    ) by {
        lemma_attached(comments, root, all[a].0);
        lemma_attached(comments, root, all[b].0);
        if a < w.len() {
            assert(all[a] == w[a]);
            assert forall|m: int| 0 <= m < w.take(a).len() implies 0 <= (#[trigger] w.take(a)[m]).0
                < comments.len() by {
                assert(w.take(a)[m] == all[m]);
            }
            lemma_explained_attached(comments, root, w.take(a), w[a]);
        } else {
            assert(all[b].0 == o[b - w.len()]);
        }
    }
}

} // verus!
