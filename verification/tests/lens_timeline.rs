#![allow(dead_code, unused_imports)]
//! Renderings of the `timeline` lens.

use bsky_context::lens::{render as render_lens, Lens};
use bsky_context::lens::thousands;
use bsky_context::model::{Author, ContextWeb, Post, QuoteEdge, Thread};

const ROOT: &str = "at://did:plc:a/app.bsky.feed.post/1";
const REPLY: &str = "at://did:plc:b/app.bsky.feed.post/2";
const QUOTE: &str = "at://did:plc:c/app.bsky.feed.post/3";
const REPLY_TO_QUOTE: &str = "at://did:plc:b/app.bsky.feed.post/4";

fn author(did: &str, handle: &str, display_name: &str) -> Author {
    Author {
        did: did.into(),
        handle: handle.into(),
        display_name: display_name.into(),
    }
}

/// Builds a small web: root -> reply, root -> quote -> reply-to-quote.
///
/// Thread 1: Alice's root post + Bob's direct reply.
/// Thread 2: Carol's quote post + Bob's reply to the quote.
fn test_web() -> ContextWeb {
    let mut web = ContextWeb::new(ROOT, "2026-01-01T00:00:00Z");

    let mut thread1 = Thread::new(ROOT);
    thread1.posts.insert(
        ROOT.into(),
        Post {
            like_count: 10,
            repost_count: 3,
            quote_count: 1,
            ..Post::new(
                ROOT,
                "c1",
                author("did:plc:a", "alice.bsky.social", "Alice"),
                "Original post",
                "2026-01-15T10:00:00Z",
            )
        },
    );
    thread1.posts.insert(
        REPLY.into(),
        Post {
            reply_parent: Some(ROOT.into()),
            reply_root: Some(ROOT.into()),
            like_count: 2,
            ..Post::new(
                REPLY,
                "c2",
                author("did:plc:b", "bob.bsky.social", "Bob"),
                "Direct reply",
                "2026-01-15T10:05:00Z",
            )
        },
    );

    let mut thread2 = Thread::new(QUOTE);
    thread2.posts.insert(
        QUOTE.into(),
        Post {
            embed_uri: Some(ROOT.into()),
            embed_type: Some("app.bsky.embed.record".into()),
            like_count: 5,
            ..Post::new(
                QUOTE,
                "c3",
                author("did:plc:c", "carol.bsky.social", ""),
                "Quote post",
                "2026-01-15T10:08:00Z",
            )
        },
    );
    thread2.posts.insert(
        REPLY_TO_QUOTE.into(),
        Post {
            reply_parent: Some(QUOTE.into()),
            reply_root: Some(QUOTE.into()),
            like_count: 1,
            ..Post::new(
                REPLY_TO_QUOTE,
                "c4",
                author("did:plc:b", "bob.bsky.social", "Bob"),
                "Reply to quote",
                "2026-01-15T10:12:00Z",
            )
        },
    );

    web.add_thread(thread1);
    web.add_thread(thread2);
    web.quote_edges = vec![QuoteEdge {
        source: ROOT.into(),
        target: QUOTE.into(),
        source_thread: ROOT.into(),
        target_thread: QUOTE.into(),
    }];
    web
}

fn render(web: &ContextWeb, after: Option<&str>, before: Option<&str>) -> String {
    render_lens(
        web,
        &Lens::Timeline { after: after.map(str::to_owned), before: before.map(str::to_owned) },
    )
}

#[test]
fn no_bounds_renders_every_post_in_order() {
    let out = render(&test_web(), None, None);
    assert_eq!(
        out,
        "=== TIMELINE (all time) ===\n\
             Posts: 4 of 4\n\
             \n\
             [1/4] Alice (@alice.bsky.social)  2026-01-15 10:00\n\
             \x20 Original post\n\
             \n\
             [2/4] Bob (@bob.bsky.social)  2026-01-15 10:05  [replying to @alice.bsky.social #1]\n\
             \x20 Direct reply\n\
             \n\
             [3/4] @carol.bsky.social  2026-01-15 10:08  [quoting @alice.bsky.social #1]\n\
             \x20 Quote post\n\
             \n\
             [4/4] Bob (@bob.bsky.social)  2026-01-15 10:12  [replying to @carol.bsky.social #3]\n\
             \x20 Reply to quote"
    );
}

#[test]
fn after_bound_drops_earlier_posts_and_renumbers() {
    let out = render(&test_web(), Some("2026-01-15T10:06:00Z"), None);
    assert_eq!(
        out,
        "=== TIMELINE (after 2026-01-15 10:06) ===\n\
             Posts: 2 of 4\n\
             \n\
             [1/2] @carol.bsky.social  2026-01-15 10:08  [quoting @alice.bsky.social]\n\
             \x20 Quote post\n\
             \n\
             [2/2] Bob (@bob.bsky.social)  2026-01-15 10:12  [replying to @carol.bsky.social #1]\n\
             \x20 Reply to quote"
    );
    assert!(!out.contains("Original post"));
    assert!(!out.contains("Direct reply"));
}

#[test]
fn before_bound_keeps_earlier_posts() {
    let out = render(&test_web(), None, Some("2026-01-15T10:06:00Z"));
    assert!(out.starts_with("=== TIMELINE (before 2026-01-15 10:06) ===\nPosts: 2 of 4"));
    assert!(out.contains("Original post"));
    assert!(out.contains("Direct reply"));
    assert!(!out.contains("Quote post"));
}

#[test]
fn window_uses_both_bounds() {
    let out = render(
        &test_web(),
        Some("2026-01-15T10:04:00Z"),
        Some("2026-01-15T10:09:00Z"),
    );
    assert!(
        out.starts_with(
            "=== TIMELINE (2026-01-15 10:04 to 2026-01-15 10:09) ===\nPosts: 2 of 4"
        )
    );
    assert!(out.contains("[1/2]"));
    assert!(out.contains("[2/2]"));
    assert!(out.contains("Direct reply"));
    assert!(out.contains("Quote post"));
}

#[test]
fn after_is_inclusive_and_before_is_exclusive() {
    let bound = "2026-01-15T10:05:00Z";
    let inclusive = render(&test_web(), Some(bound), None);
    assert!(inclusive.contains("Direct reply"));
    assert!(inclusive.starts_with("=== TIMELINE (after 2026-01-15 10:05) ===\nPosts: 3 of 4"));

    let exclusive = render(&test_web(), None, Some(bound));
    assert!(!exclusive.contains("Direct reply"));
    assert!(exclusive.starts_with("=== TIMELINE (before 2026-01-15 10:05) ===\nPosts: 1 of 4"));
}

#[test]
fn empty_bounds_behave_like_no_bounds() {
    assert_eq!(
        render(&test_web(), Some(""), Some("")),
        render(&test_web(), None, None)
    );
}

#[test]
fn window_excluding_everything_renders_the_header_only() {
    let out = render(&test_web(), Some("2027-01-01T00:00:00Z"), None);
    assert_eq!(
        out,
        "=== TIMELINE (after 2027-01-01 00:00) ===\nPosts: 0 of 4"
    );
}

#[test]
fn empty_web_renders_the_header_only() {
    let web = ContextWeb::new(ROOT, "2026-01-01T00:00:00Z");
    assert_eq!(
        render(&web, None, None),
        "=== TIMELINE (all time) ===\nPosts: 0 of 0"
    );
}
