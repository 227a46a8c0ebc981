use reddit_cli::model::{ItemKind, ItemSource, MoreStub, RedditItem, ThreadCapture};
use reddit_cli::resolve::ThreadAccumulator;

fn item(kind: ItemKind, id: &str, fullname: String) -> RedditItem {
    RedditItem {
        index: None,
        kind,
        id: id.to_owned(),
        fullname,
        parent_id: None,
        post_id: None,
        title: None,
        author: None,
        subreddit: Some("rust".to_owned()),
        body: None,
        flair: None,
        is_self: None,
        over_18: None,
        score: None,
        upvote_ratio: None,
        num_comments: None,
        created_utc: None,
        edited_utc: None,
        permalink: None,
        url: None,
        depth: 0,
        source: ItemSource::Json,
    }
}

fn post(id: &str) -> RedditItem {
    RedditItem {
        post_id: Some(id.to_owned()),
        title: Some("post".to_owned()),
        author: Some("alice".to_owned()),
        is_self: Some(true),
        over_18: Some(false),
        permalink: Some(format!("/r/rust/comments/{id}/post/")),
        ..item(ItemKind::Post, id, format!("t3_{id}"))
    }
}

fn comment(id: &str, parent_id: &str) -> RedditItem {
    RedditItem {
        parent_id: Some(parent_id.to_owned()),
        post_id: Some("post".to_owned()),
        author: Some("bob".to_owned()),
        body: Some(id.to_owned()),
        permalink: Some(format!("/r/rust/comments/post/title/{id}/")),
        ..item(ItemKind::Comment, id, format!("t1_{id}"))
    }
}

fn capture(comments: Vec<RedditItem>, more_stubs: Vec<MoreStub>) -> ThreadCapture {
    ThreadCapture { post: Some(post("post")), comments, more_stubs }
}

fn stub(children: Vec<&str>, count: usize) -> MoreStub {
    MoreStub {
        id: "more".to_owned(),
        parent_id: Some("t3_post".to_owned()),
        post_id: Some("post".to_owned()),
        children: children.into_iter().map(|c| c.to_owned()).collect(),
        count,
        depth: 0,
    }
}

#[test]
fn orders_comments_by_parent_and_recomputes_depth() {
    let root = comment("a", "t3_post");
    let child = comment("b", "t1_a");
    let capture = ThreadCapture {
        post: Some(post("post")),
        comments: vec![child, root],
        more_stubs: Vec::new(),
    };

    let view = ThreadAccumulator::new(capture).into_view(1, false);
    assert_eq!(view.comments[0].id, "a");
    assert_eq!(view.comments[0].depth, 0);
    assert_eq!(view.comments[1].id, "b");
    assert_eq!(view.comments[1].depth, 1);
}

#[test]
fn reports_unresolved_truncation_count() {
    let capture = ThreadCapture {
        post: Some(post("post")),
        comments: Vec::new(),
        more_stubs: vec![MoreStub {
            id: "more".to_owned(),
            parent_id: Some("t3_post".to_owned()),
            post_id: Some("post".to_owned()),
            children: vec!["a".to_owned(), "b".to_owned()],
            count: 2,
            depth: 0,
        }],
    };

    let view = ThreadAccumulator::new(capture).into_view(1, true);
    assert!(view.truncated);
    assert_eq!(view.more_stubs, 2);
    assert!(view.notice.unwrap().contains("thread truncated"));
}

#[test]
fn a_later_answer_replaces_a_comment() {
    let mut gathered = ThreadAccumulator::new(capture(
        vec![comment("a", "t3_post"), comment("b", "t3_post")],
        Vec::new(),
    ));
    let mut newer = comment("a", "t3_post");
    newer.body = Some("newer".to_owned());
    gathered.add_capture(ThreadCapture {
        post: Some(post("other")),
        comments: vec![newer],
        more_stubs: Vec::new(),
    });
    assert_eq!(gathered.post_id(), Some("post"));
    assert_eq!(gathered.post_fullname().as_deref(), Some("t3_post"));
    assert_eq!(gathered.post_permalink().as_deref(), Some("/r/rust/comments/post/post/"));
    let view = gathered.into_view(2, false);
    let ids: Vec<&str> = view.comments.iter().map(|c| c.id.as_str()).collect();
    assert_eq!(ids, vec!["a", "b"]);
    assert_eq!(view.comments[0].body.as_deref(), Some("newer"));
    assert_eq!(view.notice, None);
    assert_eq!(view.http_requests, 2);
}

#[test]
fn orphans_come_last_at_the_top_level() {
    let view = ThreadAccumulator::new(capture(
        vec![comment("lost", "t1_gone"), comment("a", "t3_post"), comment("b", "t1_a")],
        Vec::new(),
    ))
    .into_view(1, false);
    let shown: Vec<(&str, usize)> =
        view.comments.iter().map(|c| (c.id.as_str(), c.depth)).collect();
    assert_eq!(shown, vec![("a", 0), ("b", 1), ("lost", 0)]);
}

#[test]
fn each_comment_is_shown_once() {
    let view = ThreadAccumulator::new(capture(
        vec![comment("a", "t1_b"), comment("b", "t1_a"), comment("c", "t3_post")],
        Vec::new(),
    ))
    .into_view(1, false);
    let ids: Vec<&str> = view.comments.iter().map(|c| c.id.as_str()).collect();
    assert_eq!(ids, vec!["c"]);
}

#[test]
fn without_a_post_the_order_stays() {
    let view = ThreadAccumulator::new(ThreadCapture {
        post: None,
        comments: vec![comment("b", "t1_a"), comment("a", "t3_post")],
        more_stubs: Vec::new(),
    })
    .into_view(1, false);
    assert_eq!(view.comments[0].id, "b");
    assert_eq!(view.comments[1].id, "a");
}

#[test]
fn stubs_are_taken_in_order_and_kept_ones_are_counted() {
    let mut gathered =
        ThreadAccumulator::new(capture(Vec::new(), vec![stub(vec!["a"], 7), stub(vec![], 0)]));
    assert!(gathered.has_pending_stubs());
    assert_eq!(gathered.unresolved_count(), 8);
    let first = gathered.pop_stub().unwrap();
    assert_eq!(first.count, 7);
    gathered.keep_unresolved(first);
    assert_eq!(gathered.unresolved_count(), 8);
    assert!(gathered.pop_stub().is_some());
    assert!(gathered.pop_stub().is_none());
    let view = gathered.into_view(3, false);
    assert_eq!(
        view.notice.as_deref(),
        Some("thread incomplete: 7 hidden comment(s) could not be resolved")
    );
}

#[test]
fn siblings_keep_their_order_and_subtrees_stay_together() {
    let view = ThreadAccumulator::new(capture(
        vec![
            comment("b", "t3_post"),
            comment("d", "t1_b"),
            comment("a", "t3_post"),
            comment("e", "t1_a"),
            comment("c", "t1_b"),
            comment("f", "t1_d"),
        ],
        Vec::new(),
    ))
    .into_view(1, false);
    let order: Vec<(&str, usize)> =
        view.comments.iter().map(|c| (c.id.as_str(), c.depth)).collect();
    assert_eq!(order, vec![("b", 0), ("d", 1), ("f", 2), ("c", 1), ("a", 0), ("e", 1)]);
}
