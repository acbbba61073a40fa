#![allow(dead_code, unused_imports)]
//! Renderings of the `stats` lens.

use bsky_context::lens::{render as render_lens, Lens};
use bsky_context::lens::thousands;
use bsky_context::model::{Author, ContextWeb, Post, QuoteEdge, Thread};

const ROOT: &str = "at://did:plc:a/app.bsky.feed.post/1";
const REPLY: &str = "at://did:plc:b/app.bsky.feed.post/2";
const QUOTE: &str = "at://did:plc:c/app.bsky.feed.post/3";
const REPLY_TO_QUOTE: &str = "at://did:plc:b/app.bsky.feed.post/4";

fn author(did: &str, handle: &str, display_name: &str) -> Author {
    Author {
        did: did.into(),
        handle: handle.into(),
        display_name: display_name.into(),
    }
}

/// Builds a small web: root -> reply, root -> quote -> reply-to-quote.
///
/// Thread 1: Alice's root post + Bob's direct reply.
/// Thread 2: Carol's quote post + Bob's reply to the quote.
fn test_web() -> ContextWeb {
    let mut web = ContextWeb::new(ROOT, "2026-01-01T00:00:00Z");

    let mut thread1 = Thread::new(ROOT);
    thread1.posts.insert(
        ROOT.into(),
        Post {
            like_count: 10,
            repost_count: 3,
            quote_count: 1,
            ..Post::new(
                ROOT,
                "c1",
                author("did:plc:a", "alice.bsky.social", "Alice"),
                "Original post",
                "2026-01-15T10:00:00Z",
            )
        },
    );
    thread1.posts.insert(
        REPLY.into(),
        Post {
            reply_parent: Some(ROOT.into()),
            reply_root: Some(ROOT.into()),
            like_count: 2,
            ..Post::new(
                REPLY,
                "c2",
                author("did:plc:b", "bob.bsky.social", "Bob"),
                "Direct reply",
                "2026-01-15T10:05:00Z",
            )
        },
    );

    let mut thread2 = Thread::new(QUOTE);
    thread2.posts.insert(
        QUOTE.into(),
        Post {
            embed_uri: Some(ROOT.into()),
            embed_type: Some("app.bsky.embed.record".into()),
            like_count: 5,
            ..Post::new(
                QUOTE,
                "c3",
                author("did:plc:c", "carol.bsky.social", ""),
                "Quote post",
                "2026-01-15T10:08:00Z",
            )
        },
    );
    thread2.posts.insert(
        REPLY_TO_QUOTE.into(),
        Post {
            reply_parent: Some(QUOTE.into()),
            reply_root: Some(QUOTE.into()),
            like_count: 1,
            ..Post::new(
                REPLY_TO_QUOTE,
                "c4",
                author("did:plc:b", "bob.bsky.social", "Bob"),
                "Reply to quote",
                "2026-01-15T10:12:00Z",
            )
        },
    );

    web.add_thread(thread1);
    web.add_thread(thread2);
    web.quote_edges = vec![QuoteEdge {
        source: ROOT.into(),
        target: QUOTE.into(),
        source_thread: ROOT.into(),
        target_thread: QUOTE.into(),
    }];
    web
}

fn render(web: &ContextWeb) -> String {
    render_lens(web, &Lens::Stats)
}

const EXPECTED: &str = "\
=== CONTEXT WEB STATISTICS ===

Posts: 4 across 2 threads
Edges: 2 reply + 1 quote = 3 total
Time span: 2026-01-15 10:00 to 2026-01-15 10:12

Thread sizes:
  1 post          0 threads (0.0%)
  2-10 posts      2 threads (100.0%)
  11-100 posts    0 threads (0.0%)
  100+ posts      0 threads (0.0%)
  Largest: 2 posts

Top authors by post count:
   1. Bob (@bob.bsky.social) - 2 posts
   2. Alice (@alice.bsky.social) - 1 posts
   3. @carol.bsky.social - 1 posts

Top posts by engagement:
   1. [14 engagement] Alice (@alice.bsky.social)
      Original post
   2. [5 engagement] @carol.bsky.social
      Quote post
   3. [2 engagement] Bob (@bob.bsky.social)
      Direct reply
   4. [1 engagement] Bob (@bob.bsky.social)
      Reply to quote

Quote-hop depth from root thread:
  Hop 0: 2 posts
  Hop 1: 2 posts";

#[test]
fn stats_matches_reference_rendering() {
    assert_eq!(render(&test_web()), EXPECTED);
}

#[test]
fn counts() {
    let out = render(&test_web());
    assert!(out.contains("Posts: 4 across 2 threads"));
    assert!(out.contains("Edges: 2 reply + 1 quote = 3 total"));
}

#[test]
fn top_authors() {
    let out = render(&test_web());
    assert!(out.contains("bob.bsky.social"));
    assert!(out.contains("alice.bsky.social"));
}

#[test]
fn time_span() {
    let out = render(&test_web());
    assert!(out.contains("2026-01-15 10:00"));
    assert!(out.contains("2026-01-15 10:12"));
}

#[test]
fn thread_sizes() {
    assert!(render(&test_web()).contains("Thread sizes:"));
}

#[test]
fn top_engagement() {
    assert!(render(&test_web()).contains("Original post"));
}

#[test]
fn empty_web_reports_zeroes() {
    let web = ContextWeb::new(ROOT, "2026-01-01T00:00:00Z");
    assert_eq!(
        render(&web),
        "\
=== CONTEXT WEB STATISTICS ===

Posts: 0 across 0 threads
Edges: 0 reply + 0 quote = 0 total

Thread sizes:
  1 post          0 threads (0.0%)
  2-10 posts      0 threads (0.0%)
  11-100 posts    0 threads (0.0%)
  100+ posts      0 threads (0.0%)

Top authors by post count:

Top posts by engagement:"
    );
}

#[test]
fn thousands_groups_digits() {
    assert_eq!(thousands(0_usize), "0");
    assert_eq!(thousands(999_usize), "999");
    assert_eq!(thousands(1_000_usize), "1,000");
    assert_eq!(thousands(1_234_567_usize), "1,234,567");
}

#[test]
fn unreachable_threads_are_counted() {
    let mut web = test_web();
    let orphan = "at://did:plc:d/app.bsky.feed.post/9";
    let mut thread = Thread::new(orphan);
    thread.posts.insert(
        orphan.into(),
        Post::new(
            orphan,
            "c9",
            author("did:plc:d", "dave.bsky.social", "Dave"),
            "Orphan post",
            "2026-01-15T09:00:00Z",
        ),
    );
    web.add_thread(thread);

    let out = render(&web);
    assert!(out.contains("Posts: 5 across 3 threads"));
    assert!(out.contains("Time span: 2026-01-15 09:00 to 2026-01-15 10:12"));
    assert!(out.contains("  1 post          1 threads (33.3%)"));
    assert!(out.contains("  2-10 posts      2 threads (66.7%)"));
    assert!(out.ends_with("  Hop 0: 2 posts\n  Hop 1: 2 posts\n  Unreachable: 1 posts"));
}

#[test]
fn root_outside_the_web_drops_the_hop_section() {
    let mut web = test_web();
    web.root_uri = "at://did:plc:z/app.bsky.feed.post/99".into();
    let out = render(&web);
    assert!(!out.contains("Quote-hop depth"));
    assert!(out.ends_with("      Reply to quote"));
}

#[test]
fn quote_edge_to_a_missing_thread_adds_no_depth_bucket() {
    let mut web = test_web();
    web.quote_edges.push(QuoteEdge {
        source: REPLY.into(),
        target: "at://did:plc:x/app.bsky.feed.post/77".into(),
        source_thread: ROOT.into(),
        target_thread: "at://did:plc:x/app.bsky.feed.post/77".into(),
    });
    let out = render(&web);
    assert!(out.contains("Edges: 2 reply + 2 quote = 4 total"));
    assert!(out.ends_with("  Hop 0: 2 posts\n  Hop 1: 2 posts"));
}

#[test]
fn ties_keep_web_order() {
    let mut web = test_web();
    for uri in [ROOT, REPLY, QUOTE] {
        let post = web.get_post_mut(uri).unwrap();
        post.like_count = 0;
        post.repost_count = 0;
        post.quote_count = 0;
    }
    let out = render(&web);
    let top: Vec<&str> = out
        .lines()
        .skip_while(|line| *line != "Top posts by engagement:")
        .skip(1)
        .take(8)
        .step_by(2)
        .collect();
    assert_eq!(
        top,
        vec![
            "   1. [1 engagement] Bob (@bob.bsky.social)",
            "   2. [0 engagement] Alice (@alice.bsky.social)",
            "   3. [0 engagement] Bob (@bob.bsky.social)",
            "   4. [0 engagement] @carol.bsky.social",
        ]
    );
}

#[test]
fn long_post_text_is_truncated() {
    let mut web = test_web();
    web.get_post_mut(ROOT).unwrap().text = "x".repeat(100);
    let out = render(&web);
    let expected = format!("      {}...", "x".repeat(77));
    assert!(out.contains(&expected), "no truncated text in:\n{out}");
}
