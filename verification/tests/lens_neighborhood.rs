#![allow(dead_code, unused_imports)]
//! Renderings of the `neighborhood` lens.

use bsky_context::lens::{render as render_lens, Lens};
use bsky_context::lens::thousands;
use bsky_context::model::{Author, ContextWeb, Post, QuoteEdge, Thread};

const ROOT: &str = "at://did:plc:a/app.bsky.feed.post/1";
const REPLY: &str = "at://did:plc:b/app.bsky.feed.post/2";
const QUOTE: &str = "at://did:plc:c/app.bsky.feed.post/3";
const REPLY_TO_QUOTE: &str = "at://did:plc:b/app.bsky.feed.post/4";

fn author(did: &str, handle: &str, display_name: &str) -> Author {
    Author {
        did: did.into(),
        handle: handle.into(),
        display_name: display_name.into(),
    }
}

/// Builds a small web: root -> reply, root -> quote -> reply-to-quote.
///
/// Thread 1: Alice's root post + Bob's direct reply.
/// Thread 2: Carol's quote post + Bob's reply to the quote.
fn test_web() -> ContextWeb {
    let mut web = ContextWeb::new(ROOT, "2026-01-01T00:00:00Z");

    let mut thread1 = Thread::new(ROOT);
    thread1.posts.insert(
        ROOT.into(),
        Post {
            like_count: 10,
            repost_count: 3,
            quote_count: 1,
            ..Post::new(
                ROOT,
                "c1",
                author("did:plc:a", "alice.bsky.social", "Alice"),
                "Original post",
                "2026-01-15T10:00:00Z",
            )
        },
    );
    thread1.posts.insert(
        REPLY.into(),
        Post {
            reply_parent: Some(ROOT.into()),
            reply_root: Some(ROOT.into()),
            like_count: 2,
            ..Post::new(
                REPLY,
                "c2",
                author("did:plc:b", "bob.bsky.social", "Bob"),
                "Direct reply",
                "2026-01-15T10:05:00Z",
            )
        },
    );

    let mut thread2 = Thread::new(QUOTE);
    thread2.posts.insert(
        QUOTE.into(),
        Post {
            embed_uri: Some(ROOT.into()),
            embed_type: Some("app.bsky.embed.record".into()),
            like_count: 5,
            ..Post::new(
                QUOTE,
                "c3",
                author("did:plc:c", "carol.bsky.social", ""),
                "Quote post",
                "2026-01-15T10:08:00Z",
            )
        },
    );
    thread2.posts.insert(
        REPLY_TO_QUOTE.into(),
        Post {
            reply_parent: Some(QUOTE.into()),
            reply_root: Some(QUOTE.into()),
            like_count: 1,
            ..Post::new(
                REPLY_TO_QUOTE,
                "c4",
                author("did:plc:b", "bob.bsky.social", "Bob"),
                "Reply to quote",
                "2026-01-15T10:12:00Z",
            )
        },
    );

    web.add_thread(thread1);
    web.add_thread(thread2);
    web.quote_edges = vec![QuoteEdge {
        source: ROOT.into(),
        target: QUOTE.into(),
        source_thread: ROOT.into(),
        target_thread: QUOTE.into(),
    }];
    web
}

fn render(web: &ContextWeb, uri: Option<&str>, hops: usize) -> String {
    render_lens(web, &Lens::Neighborhood { uri: uri.map(str::to_owned), hops })
}

#[test]
fn hops_zero_keeps_the_root_thread_only() {
    let out = render(&test_web(), None, 0);
    assert_eq!(
        out,
        "=== NEIGHBORHOOD (0 hops from target) ===\n\
             Posts: 2 of 4 | Threads: 1 of 2\n\
             \n\
             [root] Alice (@alice.bsky.social)  2026-01-15 10:00\n\
             \x20 Original post\n\
             \x20 (10 likes, 3 reposts, 1 quotes)\n\
             \n\
             \x20 [reply] Bob (@bob.bsky.social)  2026-01-15 10:05\n\
             \x20   Direct reply\n\
             \x20   (2 likes)"
    );
    assert!(!out.contains("Quote post"));
    assert!(!out.contains("Reply to quote"));
}

#[test]
fn hops_one_pulls_in_the_quoting_thread() {
    let out = render(&test_web(), None, 1);
    assert_eq!(
        out,
        "=== NEIGHBORHOOD (1 hops from target) ===\n\
             Posts: 4 of 4 | Threads: 2 of 2\n\
             \n\
             [root] Alice (@alice.bsky.social)  2026-01-15 10:00\n\
             \x20 Original post\n\
             \x20 (10 likes, 3 reposts, 1 quotes)\n\
             \n\
             \x20 [reply] Bob (@bob.bsky.social)  2026-01-15 10:05\n\
             \x20   Direct reply\n\
             \x20   (2 likes)\n\
             \n\
             \x20 [quote] @carol.bsky.social  2026-01-15 10:08\n\
             \x20   Quote post\n\
             \x20   (5 likes)\n\
             \n\
             \x20   [reply] Bob (@bob.bsky.social)  2026-01-15 10:12\n\
             \x20     Reply to quote\n\
             \x20     (1 likes)"
    );
}

#[test]
fn hops_two_matches_hops_one_when_the_web_is_two_threads_deep() {
    let one = render(&test_web(), None, 1);
    let two = render(&test_web(), None, 2);
    assert_eq!(
        one.replace("(1 hops", "(N hops"),
        two.replace("(2 hops", "(N hops")
    );
}

#[test]
fn header_shows_included_counts() {
    let out = render(&test_web(), None, 0);
    assert!(out.contains("2 of 4"));
    assert!(out.contains("1 of 2"));
}

#[test]
fn unknown_uri_reports_not_found() {
    let out = render(&test_web(), Some("at://nonexistent/post/1"), 2);
    assert_eq!(out, "Post not found in web: at://nonexistent/post/1");
    assert!(out.to_lowercase().contains("not found"));
}

#[test]
fn explicit_uri_centers_on_that_thread() {
    let out = render(&test_web(), Some(QUOTE), 0);
    assert_eq!(
        out,
        "=== NEIGHBORHOOD (0 hops from target) ===\n\
             Posts: 2 of 4 | Threads: 1 of 2\n\
             \n\
             [root] @carol.bsky.social  2026-01-15 10:08\n\
             \x20 Quote post\n\
             \x20 (5 likes)\n\
             \n\
             \x20 [reply] Bob (@bob.bsky.social)  2026-01-15 10:12\n\
             \x20   Reply to quote\n\
             \x20   (1 likes)"
    );
    assert!(!out.contains("Original post"));
}

#[test]
fn empty_uri_falls_back_to_the_web_root() {
    assert_eq!(
        render(&test_web(), Some(""), 0),
        render(&test_web(), None, 0)
    );
    assert_eq!(
        render(&test_web(), Some(ROOT), 0),
        render(&test_web(), None, 0)
    );
}

#[test]
fn posts_unreachable_from_the_root_are_separated_by_a_rule() {
    const ORPHAN: &str = "at://did:plc:z/app.bsky.feed.post/9";
    let mut web = test_web();
    web.add_post(
        ROOT,
        Post {
            reply_parent: Some("at://outside/x".into()),
            reply_root: Some("at://outside/x".into()),
            ..Post::new(
                ORPHAN,
                "c9",
                author("did:plc:z", "zed.bsky.social", ""),
                "Orphan post",
                "2026-01-15T09:00:00Z",
            )
        },
    );
    let out = render(&web, None, 0);
    assert_eq!(
        out,
        "=== NEIGHBORHOOD (0 hops from target) ===\n\
             Posts: 3 of 5 | Threads: 1 of 2\n\
             \n\
             [root] Alice (@alice.bsky.social)  2026-01-15 10:00\n\
             \x20 Original post\n\
             \x20 (10 likes, 3 reposts, 1 quotes)\n\
             \n\
             \x20 [reply] Bob (@bob.bsky.social)  2026-01-15 10:05\n\
             \x20   Direct reply\n\
             \x20   (2 likes)\n\
             \n\
             ---\n\
             [root] @zed.bsky.social  2026-01-15 09:00\n\
             \x20 Orphan post"
    );
}

#[test]
fn empty_web_reports_not_found() {
    let web = ContextWeb::new(ROOT, "2026-01-01T00:00:00Z");
    assert_eq!(
        render(&web, None, 2),
        format!("Post not found in web: {ROOT}")
    );
}
