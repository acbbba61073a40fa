#![allow(dead_code, unused_imports)]
//! Renderings of the `threads` lens.

use bsky_context::lens::{render as render_lens, Lens};
use bsky_context::lens::thousands;
use bsky_context::model::{Author, ContextWeb, Post, QuoteEdge, Thread};

const ROOT: &str = "at://did:plc:a/app.bsky.feed.post/1";
const REPLY: &str = "at://did:plc:b/app.bsky.feed.post/2";
const QUOTE: &str = "at://did:plc:c/app.bsky.feed.post/3";
const REPLY_TO_QUOTE: &str = "at://did:plc:b/app.bsky.feed.post/4";

fn author(did: &str, handle: &str, display_name: &str) -> Author {
    Author {
        did: did.into(),
        handle: handle.into(),
        display_name: display_name.into(),
    }
}

/// Builds a small web: root -> reply, root -> quote -> reply-to-quote.
///
/// Thread 1: Alice's root post + Bob's direct reply.
/// Thread 2: Carol's quote post + Bob's reply to the quote.
fn test_web() -> ContextWeb {
    let mut web = ContextWeb::new(ROOT, "2026-01-01T00:00:00Z");

    let mut thread1 = Thread::new(ROOT);
    thread1.posts.insert(
        ROOT.into(),
        Post {
            like_count: 10,
            repost_count: 3,
            quote_count: 1,
            ..Post::new(
                ROOT,
                "c1",
                author("did:plc:a", "alice.bsky.social", "Alice"),
                "Original post",
                "2026-01-15T10:00:00Z",
            )
        },
    );
    thread1.posts.insert(
        REPLY.into(),
        Post {
            reply_parent: Some(ROOT.into()),
            reply_root: Some(ROOT.into()),
            like_count: 2,
            ..Post::new(
                REPLY,
                "c2",
                author("did:plc:b", "bob.bsky.social", "Bob"),
                "Direct reply",
                "2026-01-15T10:05:00Z",
            )
        },
    );

    let mut thread2 = Thread::new(QUOTE);
    thread2.posts.insert(
        QUOTE.into(),
        Post {
            embed_uri: Some(ROOT.into()),
            embed_type: Some("app.bsky.embed.record".into()),
            like_count: 5,
            ..Post::new(
                QUOTE,
                "c3",
                author("did:plc:c", "carol.bsky.social", ""),
                "Quote post",
                "2026-01-15T10:08:00Z",
            )
        },
    );
    thread2.posts.insert(
        REPLY_TO_QUOTE.into(),
        Post {
            reply_parent: Some(QUOTE.into()),
            reply_root: Some(QUOTE.into()),
            like_count: 1,
            ..Post::new(
                REPLY_TO_QUOTE,
                "c4",
                author("did:plc:b", "bob.bsky.social", "Bob"),
                "Reply to quote",
                "2026-01-15T10:12:00Z",
            )
        },
    );

    web.add_thread(thread1);
    web.add_thread(thread2);
    web.quote_edges = vec![QuoteEdge {
        source: ROOT.into(),
        target: QUOTE.into(),
        source_thread: ROOT.into(),
        target_thread: QUOTE.into(),
    }];
    web
}

fn render(web: &ContextWeb, top: usize) -> String {
    render_lens(web, &Lens::Threads { top })
}

#[test]
fn header_counts_only_threads_with_posts() {
    let mut web = test_web();
    web.add_thread(Thread::new(
        "at://did:plc:z/app.bsky.feed.post/9",
    ));
    let out = render(&web, 20);
    assert!(
        out.starts_with("=== THREADS (2 total, showing top 2) ==="),
        "{out}"
    );
}

#[test]
fn renders_both_threads_in_size_order() {
    let out = render(&test_web(), 20);
    assert_eq!(
        out,
        "=== THREADS (2 total, showing top 2) ===\n\
             \n\
             #1   2 posts | 16 engagement | Alice (@alice.bsky.social)\n\
             \x20    Original post\n\
             \x20    at://did:plc:a/app.bsky.feed.post/1\n\
             \n\
             #2   2 posts | 6 engagement | @carol.bsky.social\n\
             \x20    Quote post\n\
             \x20    at://did:plc:c/app.bsky.feed.post/3"
    );
}

#[test]
fn shows_post_counts_and_engagement() {
    let out = render(&test_web(), 20);
    assert!(out.contains("2 posts"));
    assert!(out.contains("engagement"));
    assert!(out.contains("Original post"));
}

#[test]
fn top_smaller_than_thread_count_truncates() {
    let out = render(&test_web(), 1);
    assert!(out.starts_with("=== THREADS (2 total, showing top 1) ==="));
    assert!(out.contains("Original post"));
    assert!(!out.contains("Quote post"));
}

#[test]
fn top_larger_than_thread_count_clamps_header() {
    let out = render(&test_web(), 99);
    assert!(out.starts_with("=== THREADS (2 total, showing top 2) ==="));
    assert_eq!(out.matches("posts |").count(), 2);
}

#[test]
fn top_zero_renders_header_only() {
    let out = render(&test_web(), 0);
    assert_eq!(out, "=== THREADS (2 total, showing top 0) ===");
}

#[test]
fn thread_without_its_root_post_falls_back_to_the_first_post() {
    let mut web = test_web();
    let mut thread = web.remove_thread(ROOT).unwrap();
    thread.posts.shift_remove(ROOT);
    web.add_thread(thread);
    let out = render(&web, 20);
    assert!(out.contains("#1   2 posts | 6 engagement | @carol.bsky.social"));
    assert!(out.contains("#2   1 post | 2 engagement | Bob (@bob.bsky.social)"));
    assert!(out.contains("     Direct reply"));
    assert!(out.contains("     at://did:plc:b/app.bsky.feed.post/2"));
}

#[test]
fn empty_web_renders_header_only() {
    let web = ContextWeb::new(
        "at://did:plc:a/app.bsky.feed.post/1",
        "2026-01-01T00:00:00Z",
    );
    assert_eq!(render(&web, 20), "=== THREADS (0 total, showing top 0) ===");
}
