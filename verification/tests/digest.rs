use reddit_cli::digest::{build_digest, Digest, DigestComment, DigestPost};
use reddit_cli::render::format_digest_markdown;

fn comment(id: &str, post_id: Option<&str>, score: Option<i64>, created: Option<i64>) -> DigestComment {
    DigestComment {
        id: id.to_owned(),
        post_id: post_id.map(|p| p.to_owned()),
        parent_id: None,
        subreddit: None,
        author: None,
        body: Some(id.to_owned()),
        score,
        created_utc: created,
        permalink: None,
    }
}

fn post(id: &str, created: Option<i64>) -> DigestPost {
    DigestPost {
        id: id.to_owned(),
        subreddit: None,
        title: None,
        author: None,
        permalink: None,
        score: None,
        num_comments: None,
        created_utc: created,
        activity_utc: 0,
        comments: Vec::new(),
    }
}

#[test]
fn formats_digest_markdown_with_posts_comments_and_links() {
    let digest = Digest {
        generated_utc: 100,
        since_utc: 10,
        subreddit: Some("rust".to_owned()),
        posts: vec![DigestPost {
            id: "abc".to_owned(),
            subreddit: Some("rust".to_owned()),
            title: Some("Interesting thread".to_owned()),
            author: Some("alice".to_owned()),
            permalink: Some("https://www.reddit.com/r/rust/comments/abc/post/".to_owned()),
            score: Some(12),
            num_comments: Some(3),
            created_utc: Some(20),
            activity_utc: 30,
            comments: vec![DigestComment {
                id: "def".to_owned(),
                post_id: Some("abc".to_owned()),
                parent_id: Some("t3_abc".to_owned()),
                subreddit: Some("rust".to_owned()),
                author: Some("bob".to_owned()),
                body: Some("Useful reply".to_owned()),
                score: Some(4),
                created_utc: Some(30),
                permalink: Some("https://www.reddit.com/r/rust/comments/abc/post/def/".to_owned()),
            }],
        }],
        orphan_comments: Vec::new(),
    };

    let markdown = format_digest_markdown(&digest);
    assert!(markdown.contains("# rdt digest"));
    assert!(markdown.contains("r/rust: Interesting thread"));
    assert!(markdown.contains("https://www.reddit.com/r/rust/comments/abc/post/"));
    assert!(markdown.contains("Top new comments"));
    assert!(markdown.contains("u/bob - 4 pts - 30: Useful reply"));
}

#[test]
fn formats_empty_digest_clearly() {
    let digest = Digest {
        generated_utc: 100,
        since_utc: 10,
        subreddit: None,
        posts: Vec::new(),
        orphan_comments: Vec::new(),
    };
    let markdown = format_digest_markdown(&digest);
    assert!(markdown.contains("0 post group(s), 0 new comment(s)"));
    assert!(markdown.contains("No local activity matched."));
}

#[test]
fn writes_a_whole_digest() {
    let digest = Digest {
        generated_utc: 100,
        since_utc: -10,
        subreddit: None,
        posts: vec![post("a", None)],
        orphan_comments: vec![comment("x\ny", None, None, None)],
    };
    assert_eq!(
        format_digest_markdown(&digest),
        "# rdt digest\n\n- Since: -10\n- Generated: 100\n\
         - Activity: 1 post group(s), 1 new comment(s)\n\
         \n## unknown subreddit: (untitled)\n\
         - u/[unknown] - ? pts - ? comments - activity 0\n\
         \nNo new comments captured for this post.\n\
         \n## Comments without local posts\n\
         - u/[unknown] - ? pts - ?: x y\n"
    );
}

#[test]
fn groups_new_comments_under_their_posts() {
    let posts = vec![post("old", Some(1)), post("quiet", Some(2)), post("new", Some(50))];
    let comments = vec![
        comment("late", Some("old"), Some(1), Some(99)),
        comment("best", Some("old"), Some(9), Some(60)),
        comment("early", Some("old"), Some(99), Some(5)),
        comment("alone", Some("gone"), Some(0), Some(70)),
    ];
    let digest = build_digest(200, 40, Some("rust".to_owned()), &posts, &comments);
    let ids: Vec<&str> = digest.posts.iter().map(|p| p.id.as_str()).collect();
    assert_eq!(ids, vec!["old", "new"]);
    assert_eq!(digest.posts[0].activity_utc, 99);
    let under: Vec<&str> = digest.posts[0].comments.iter().map(|c| c.id.as_str()).collect();
    assert_eq!(under, vec!["best", "late"]);
    assert_eq!(digest.posts[1].comments.len(), 0);
    assert_eq!(digest.orphan_comments.len(), 1);
    assert_eq!(digest.orphan_comments[0].id, "alone");
    assert_eq!(digest.comment_count(), 3);
    assert_eq!(digest.subreddit.as_deref(), Some("rust"));
}

#[test]
fn digests_are_bounded() {
    let posts: Vec<DigestPost> = (0..60).map(|n| post(&format!("p{n}"), Some(100 + n))).collect();
    let mut comments: Vec<DigestComment> = (0..30)
        .map(|n| comment(&format!("c{n}"), Some("p0"), Some(n % 7), Some(100 + n)))
        .collect();
    comments.extend((0..30).map(|n| comment(&format!("o{n}"), None, None, Some(100 + n))));
    let digest = build_digest(500, 100, None, &posts, &comments);
    assert_eq!(digest.posts.len(), 50);
    assert_eq!(digest.posts[0].id, "p59");
    assert_eq!(digest.orphan_comments.len(), 25);
    assert_eq!(digest.orphan_comments[0].id, "o29");
    let first = digest.posts.iter().find(|p| p.id == "p0");
    assert!(first.is_none() || first.unwrap().comments.len() == 10);
}

#[test]
fn better_comments_come_first_and_then_later_ones() {
    let posts = vec![post("p", Some(10))];
    let comments = vec![
        comment("unrated", Some("p"), None, Some(90)),
        comment("low", Some("p"), Some(-5), Some(80)),
        comment("high_early", Some("p"), Some(3), Some(20)),
        comment("high_late", Some("p"), Some(3), Some(30)),
    ];
    let digest = build_digest(100, 0, None, &posts, &comments);
    let order: Vec<&str> = digest.posts[0].comments.iter().map(|c| c.id.as_str()).collect();
    assert_eq!(order, vec!["high_late", "high_early", "low", "unrated"]);
}
