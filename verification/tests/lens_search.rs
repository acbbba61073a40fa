#![allow(dead_code, unused_imports)]
//! Renderings of the `search` lens.

use bsky_context::lens::{render as render_lens, Lens};
use bsky_context::lens::thousands;
use bsky_context::model::{Author, ContextWeb, Post, QuoteEdge, Thread};

const ROOT: &str = "at://did:plc:a/app.bsky.feed.post/1";
const REPLY: &str = "at://did:plc:b/app.bsky.feed.post/2";
const QUOTE: &str = "at://did:plc:c/app.bsky.feed.post/3";
const REPLY_TO_QUOTE: &str = "at://did:plc:b/app.bsky.feed.post/4";

fn author(did: &str, handle: &str, display_name: &str) -> Author {
    Author {
        did: did.into(),
        handle: handle.into(),
        display_name: display_name.into(),
    }
}

/// Builds a small web: root -> reply, root -> quote -> reply-to-quote.
///
/// Thread 1: Alice's root post + Bob's direct reply.
/// Thread 2: Carol's quote post + Bob's reply to the quote.
fn test_web() -> ContextWeb {
    let mut web = ContextWeb::new(ROOT, "2026-01-01T00:00:00Z");

    let mut thread1 = Thread::new(ROOT);
    thread1.posts.insert(
        ROOT.into(),
        Post {
            like_count: 10,
            repost_count: 3,
            quote_count: 1,
            ..Post::new(
                ROOT,
                "c1",
                author("did:plc:a", "alice.bsky.social", "Alice"),
                "Original post",
                "2026-01-15T10:00:00Z",
            )
        },
    );
    thread1.posts.insert(
        REPLY.into(),
        Post {
            reply_parent: Some(ROOT.into()),
            reply_root: Some(ROOT.into()),
            like_count: 2,
            ..Post::new(
                REPLY,
                "c2",
                author("did:plc:b", "bob.bsky.social", "Bob"),
                "Direct reply",
                "2026-01-15T10:05:00Z",
            )
        },
    );

    let mut thread2 = Thread::new(QUOTE);
    thread2.posts.insert(
        QUOTE.into(),
        Post {
            embed_uri: Some(ROOT.into()),
            embed_type: Some("app.bsky.embed.record".into()),
            like_count: 5,
            ..Post::new(
                QUOTE,
                "c3",
                author("did:plc:c", "carol.bsky.social", ""),
                "Quote post",
                "2026-01-15T10:08:00Z",
            )
        },
    );
    thread2.posts.insert(
        REPLY_TO_QUOTE.into(),
        Post {
            reply_parent: Some(QUOTE.into()),
            reply_root: Some(QUOTE.into()),
            like_count: 1,
            ..Post::new(
                REPLY_TO_QUOTE,
                "c4",
                author("did:plc:b", "bob.bsky.social", "Bob"),
                "Reply to quote",
                "2026-01-15T10:12:00Z",
            )
        },
    );

    web.add_thread(thread1);
    web.add_thread(thread2);
    web.quote_edges = vec![QuoteEdge {
        source: ROOT.into(),
        target: QUOTE.into(),
        source_thread: ROOT.into(),
        target_thread: QUOTE.into(),
    }];
    web
}

fn render(web: &ContextWeb, query: Option<&str>, author: Option<&str>) -> String {
    render_lens(
        web,
        &Lens::Search { query: query.map(str::to_owned), author: author.map(str::to_owned) },
    )
}

#[test]
fn query_matches_post_text() {
    let out = render(&test_web(), Some("reply"), None);
    assert_eq!(
        out,
        "=== SEARCH RESULTS ===\n\
             query: \"reply\" | 2 matches in 4 posts\n\
             \n\
             [1] Bob (@bob.bsky.social)  2026-01-15 10:05\n\
             \x20   Thread: at://did:plc:a/app.bsky.feed.post/1 (2 posts)\n\
             \x20   [replying to @alice.bsky.social]\n\
             \x20   Direct reply\n\
             \x20   (2 likes, 0 reposts, 0 quotes)\n\
             \n\
             [2] Bob (@bob.bsky.social)  2026-01-15 10:12\n\
             \x20   Thread: at://did:plc:c/app.bsky.feed.post/3 (2 posts)\n\
             \x20   [replying to @carol.bsky.social]\n\
             \x20   Reply to quote\n\
             \x20   (1 like, 0 reposts, 0 quotes)"
    );
}

#[test]
fn author_only_matches_handle_substring() {
    let out = render(&test_web(), None, Some("carol"));
    assert_eq!(
        out,
        "=== SEARCH RESULTS ===\n\
             author: carol | 1 match in 4 posts\n\
             \n\
             [1] @carol.bsky.social  2026-01-15 10:08\n\
             \x20   Thread: at://did:plc:c/app.bsky.feed.post/3 (2 posts)\n\
             \x20   [quoting @alice.bsky.social]\n\
             \x20   Quote post\n\
             \x20   (5 likes, 0 reposts, 0 quotes)"
    );
}

#[test]
fn query_and_author_both_apply() {
    let out = render(&test_web(), Some("reply"), Some("bob"));
    assert!(out.starts_with(
        "=== SEARCH RESULTS ===\nquery: \"reply\" | author: bob | 2 matches in 4 posts"
    ));
    assert!(out.contains("Direct reply"));
    assert!(out.contains("Reply to quote"));

    let out = render(&test_web(), Some("reply"), Some("carol"));
    assert!(out.contains("| 0 matches in 4 posts"));
}

#[test]
fn no_criteria_explains_itself() {
    let message = "No search criteria provided. Use --query and/or --author.";
    assert_eq!(render(&test_web(), None, None), message);
    assert_eq!(render(&test_web(), Some(""), Some("")), message);
}

#[test]
fn no_matches_still_reports_the_filter() {
    let out = render(&test_web(), Some("nonexistent"), None);
    assert_eq!(
        out,
        "=== SEARCH RESULTS ===\nquery: \"nonexistent\" | 0 matches in 4 posts"
    );
}

#[test]
fn matching_is_case_insensitive() {
    let out = render(&test_web(), Some("ORIGINAL"), None);
    assert!(out.contains("1 match"));
    assert!(out.contains("Original post"));

    let out = render(&test_web(), None, Some("CAROL"));
    assert!(out.contains("1 match"));
    assert!(out.contains("@carol.bsky.social"));
}

#[test]
fn results_carry_thread_context() {
    let out = render(&test_web(), Some("Quote post"), None);
    assert!(out.contains("Thread: at://did:plc:c/app.bsky.feed.post/3 (2 posts)"));
}

#[test]
fn posts_without_engagement_omit_the_stats_line() {
    let mut web = test_web();
    let post = web.get_post_mut(ROOT).unwrap();
    post.like_count = 0;
    post.repost_count = 0;
    post.quote_count = 0;
    let out = render(&web, Some("Original"), None);
    assert_eq!(
        out,
        "=== SEARCH RESULTS ===\n\
             query: \"Original\" | 1 match in 4 posts\n\
             \n\
             [1] Alice (@alice.bsky.social)  2026-01-15 10:00\n\
             \x20   Thread: at://did:plc:a/app.bsky.feed.post/1 (2 posts)\n\
             \x20   Original post"
    );
}

#[test]
fn empty_web_reports_zero_matches() {
    let web = ContextWeb::new(ROOT, "2026-01-01T00:00:00Z");
    assert_eq!(
        render(&web, Some("anything"), None),
        "=== SEARCH RESULTS ===\nquery: \"anything\" | 0 matches in 0 posts"
    );
}
