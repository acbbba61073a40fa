#![allow(dead_code, unused_imports)]
//! Renderings of the `highlights` lens.

use bsky_context::lens::{render as render_lens, Lens};
use bsky_context::lens::thousands;
use bsky_context::model::{Author, ContextWeb, Post, QuoteEdge, Thread};

const ROOT: &str = "at://did:plc:a/app.bsky.feed.post/1";
const REPLY: &str = "at://did:plc:b/app.bsky.feed.post/2";
const QUOTE: &str = "at://did:plc:c/app.bsky.feed.post/3";
const REPLY_TO_QUOTE: &str = "at://did:plc:b/app.bsky.feed.post/4";

fn author(did: &str, handle: &str, display_name: &str) -> Author {
    Author {
        did: did.into(),
        handle: handle.into(),
        display_name: display_name.into(),
    }
}

/// Builds a small web: root -> reply, root -> quote -> reply-to-quote.
///
/// Thread 1: Alice's root post + Bob's direct reply.
/// Thread 2: Carol's quote post + Bob's reply to the quote.
fn test_web() -> ContextWeb {
    let mut web = ContextWeb::new(ROOT, "2026-01-01T00:00:00Z");

    let mut thread1 = Thread::new(ROOT);
    thread1.posts.insert(
        ROOT.into(),
        Post {
            like_count: 10,
            repost_count: 3,
            quote_count: 1,
            ..Post::new(
                ROOT,
                "c1",
                author("did:plc:a", "alice.bsky.social", "Alice"),
                "Original post",
                "2026-01-15T10:00:00Z",
            )
        },
    );
    thread1.posts.insert(
        REPLY.into(),
        Post {
            reply_parent: Some(ROOT.into()),
            reply_root: Some(ROOT.into()),
            like_count: 2,
            ..Post::new(
                REPLY,
                "c2",
                author("did:plc:b", "bob.bsky.social", "Bob"),
                "Direct reply",
                "2026-01-15T10:05:00Z",
            )
        },
    );

    let mut thread2 = Thread::new(QUOTE);
    thread2.posts.insert(
        QUOTE.into(),
        Post {
            embed_uri: Some(ROOT.into()),
            embed_type: Some("app.bsky.embed.record".into()),
            like_count: 5,
            ..Post::new(
                QUOTE,
                "c3",
                author("did:plc:c", "carol.bsky.social", ""),
                "Quote post",
                "2026-01-15T10:08:00Z",
            )
        },
    );
    thread2.posts.insert(
        REPLY_TO_QUOTE.into(),
        Post {
            reply_parent: Some(QUOTE.into()),
            reply_root: Some(QUOTE.into()),
            like_count: 1,
            ..Post::new(
                REPLY_TO_QUOTE,
                "c4",
                author("did:plc:b", "bob.bsky.social", "Bob"),
                "Reply to quote",
                "2026-01-15T10:12:00Z",
            )
        },
    );

    web.add_thread(thread1);
    web.add_thread(thread2);
    web.quote_edges = vec![QuoteEdge {
        source: ROOT.into(),
        target: QUOTE.into(),
        source_thread: ROOT.into(),
        target_thread: QUOTE.into(),
    }];
    web
}

fn render(web: &ContextWeb, top: usize) -> String {
    render_lens(web, &Lens::Highlights { top })
}

#[test]
fn renders_every_section_for_the_fixture() {
    let out = render(&test_web(), 10);
    assert_eq!(
        out,
        "=== HIGHLIGHTS ===\n\
             \n\
             --- Most Quoted ---\n\
             \x20 1. [quoted 1 times] Alice (@alice.bsky.social)  2026-01-15 10:00\n\
             \x20    Original post\n\
             \x20    (10 likes, 3 reposts)\n\
             \n\
             --- Most Replied ---\n\
             \x20 1. [1 replies in web] Alice (@alice.bsky.social)  2026-01-15 10:00\n\
             \x20    Original post\n\
             \n\
             \x20 2. [1 replies in web] @carol.bsky.social  2026-01-15 10:08\n\
             \x20    Quote post\n\
             \n\
             --- Highest Engagement ---\n\
             \x20 1. [10 likes, 3 reposts, 1 quotes] Alice (@alice.bsky.social)\n\
             \x20    Original post\n\
             \n\
             \x20 2. [5 likes, 0 reposts, 0 quotes] @carol.bsky.social\n\
             \x20    Quote post\n\
             \n\
             \x20 3. [2 likes, 0 reposts, 0 quotes] Bob (@bob.bsky.social)\n\
             \x20    Direct reply\n\
             \n\
             \x20 4. [1 likes, 0 reposts, 0 quotes] Bob (@bob.bsky.social)\n\
             \x20    Reply to quote\n\
             \n\
             --- Main Characters (by total engagement) ---\n\
             \x20 1. Alice (@alice.bsky.social) - 14 total engagement\n\
             \x20 2. @carol.bsky.social - 5 total engagement\n\
             \x20 3. Bob (@bob.bsky.social) - 3 total engagement"
    );
}

#[test]
fn section_headers_present() {
    let out = render(&test_web(), 10);
    assert!(out.contains("Most Quoted"));
    assert!(out.contains("quoted 1 times"));
    assert!(out.contains("Most Replied"));
    assert!(out.contains("1 replies in web"));
    assert!(out.contains("Highest Engagement"));
    assert!(out.contains("alice.bsky.social"));
    assert!(out.contains("Main Characters"));
}

#[test]
fn top_one_keeps_headers_but_trims_entries() {
    let out = render(&test_web(), 1);
    assert!(out.contains("--- Most Quoted ---"));
    assert!(out.contains("--- Most Replied ---"));
    assert!(out.contains("--- Highest Engagement ---"));
    assert!(out.contains("--- Main Characters (by total engagement) ---"));
    assert!(!out.contains("  2. "));
    assert!(out.contains("  1. [1 replies in web] Alice (@alice.bsky.social)"));
}

#[test]
fn top_zero_renders_headers_only() {
    let out = render(&test_web(), 0);
    assert_eq!(
        out,
        "=== HIGHLIGHTS ===\n\
             \n\
             --- Most Quoted ---\n\
             --- Most Replied ---\n\
             --- Highest Engagement ---\n\
             --- Main Characters (by total engagement) ---"
    );
}

#[test]
fn top_larger_than_web_shows_everything() {
    let out = render(&test_web(), 99);
    assert_eq!(out.matches(" quotes] ").count(), 4);
    assert!(out.contains("  4. [1 likes, 0 reposts, 0 quotes] Bob (@bob.bsky.social)"));
}

#[test]
fn empty_web_drops_quote_and_reply_sections() {
    let web = ContextWeb::new(
        "at://did:plc:a/app.bsky.feed.post/1",
        "2026-01-01T00:00:00Z",
    );
    assert_eq!(
        render(&web, 10),
        "=== HIGHLIGHTS ===\n\
             \n\
             --- Highest Engagement ---\n\
             --- Main Characters (by total engagement) ---"
    );
}
