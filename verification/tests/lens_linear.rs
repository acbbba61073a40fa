#![allow(dead_code, unused_imports)]
//! Renderings of the `linear` lens.

use bsky_context::lens::{render as render_lens, Lens};
use bsky_context::lens::thousands;
use bsky_context::model::{Author, ContextWeb, Post, QuoteEdge, Thread};

const ROOT: &str = "at://did:plc:a/app.bsky.feed.post/1";
const REPLY: &str = "at://did:plc:b/app.bsky.feed.post/2";
const QUOTE: &str = "at://did:plc:c/app.bsky.feed.post/3";
const REPLY_TO_QUOTE: &str = "at://did:plc:b/app.bsky.feed.post/4";

fn author(did: &str, handle: &str, display_name: &str) -> Author {
    Author {
        did: did.into(),
        handle: handle.into(),
        display_name: display_name.into(),
    }
}

/// Builds a small web: root -> reply, root -> quote -> reply-to-quote.
///
/// Thread 1: Alice's root post + Bob's direct reply.
/// Thread 2: Carol's quote post + Bob's reply to the quote.
fn test_web() -> ContextWeb {
    let mut web = ContextWeb::new(ROOT, "2026-01-01T00:00:00Z");

    let mut thread1 = Thread::new(ROOT);
    thread1.posts.insert(
        ROOT.into(),
        Post {
            like_count: 10,
            repost_count: 3,
            quote_count: 1,
            ..Post::new(
                ROOT,
                "c1",
                author("did:plc:a", "alice.bsky.social", "Alice"),
                "Original post",
                "2026-01-15T10:00:00Z",
            )
        },
    );
    thread1.posts.insert(
        REPLY.into(),
        Post {
            reply_parent: Some(ROOT.into()),
            reply_root: Some(ROOT.into()),
            like_count: 2,
            ..Post::new(
                REPLY,
                "c2",
                author("did:plc:b", "bob.bsky.social", "Bob"),
                "Direct reply",
                "2026-01-15T10:05:00Z",
            )
        },
    );

    let mut thread2 = Thread::new(QUOTE);
    thread2.posts.insert(
        QUOTE.into(),
        Post {
            embed_uri: Some(ROOT.into()),
            embed_type: Some("app.bsky.embed.record".into()),
            like_count: 5,
            ..Post::new(
                QUOTE,
                "c3",
                author("did:plc:c", "carol.bsky.social", ""),
                "Quote post",
                "2026-01-15T10:08:00Z",
            )
        },
    );
    thread2.posts.insert(
        REPLY_TO_QUOTE.into(),
        Post {
            reply_parent: Some(QUOTE.into()),
            reply_root: Some(QUOTE.into()),
            like_count: 1,
            ..Post::new(
                REPLY_TO_QUOTE,
                "c4",
                author("did:plc:b", "bob.bsky.social", "Bob"),
                "Reply to quote",
                "2026-01-15T10:12:00Z",
            )
        },
    );

    web.add_thread(thread1);
    web.add_thread(thread2);
    web.quote_edges = vec![QuoteEdge {
        source: ROOT.into(),
        target: QUOTE.into(),
        source_thread: ROOT.into(),
        target_thread: QUOTE.into(),
    }];
    web
}

fn render(web: &ContextWeb) -> String {
    render_lens(web, &Lens::Linear)
}

const EXPECTED: &str = "\
[1/4] Alice (@alice.bsky.social)  2026-01-15 10:00
  Original post

[2/4] Bob (@bob.bsky.social)  2026-01-15 10:05  [replying to @alice.bsky.social #1]
  Direct reply

[3/4] @carol.bsky.social  2026-01-15 10:08  [quoting @alice.bsky.social #1]
  Quote post

[4/4] Bob (@bob.bsky.social)  2026-01-15 10:12  [replying to @carol.bsky.social #3]
  Reply to quote";

#[test]
fn linear_matches_reference_rendering() {
    assert_eq!(render(&test_web()), EXPECTED);
}

#[test]
fn sequential_numbering() {
    let out = render(&test_web());
    assert!(out.contains("[1/4]"));
    assert!(out.contains("[4/4]"));
}

#[test]
fn chronological_order() {
    let out = render(&test_web());
    let headers: Vec<&str> = out.lines().filter(|line| line.starts_with('[')).collect();
    assert!(headers[0].contains("alice.bsky.social"));
    assert_eq!(headers.len(), 4);
}

#[test]
fn cross_references() {
    let out = render(&test_web());
    assert!(out.contains("replying to"));
    assert!(out.contains("quoting"));
}

#[test]
fn linear_empty_web_renders_nothing() {
    let web = ContextWeb::new(ROOT, "2026-01-01T00:00:00Z");
    assert_eq!(render(&web), "");
}

#[test]
fn numbering_follows_time_not_thread_order() {
    let mut web = test_web();
    web.get_post_mut(REPLY).unwrap().created_at = "2026-01-15T09:00:00Z".into();
    let out = render(&web);
    assert!(out.starts_with(
        "[1/4] Bob (@bob.bsky.social)  2026-01-15 09:00  \
             [replying to @alice.bsky.social #2]\n  Direct reply"
    ));
    assert!(
        out.contains("[2/4] Alice (@alice.bsky.social)  2026-01-15 10:00\n  Original post")
    );
}

#[test]
fn missing_reply_parent_gets_no_annotation() {
    let mut web = test_web();
    let orphan = "at://did:plc:d/app.bsky.feed.post/9";
    let mut thread = Thread::new(orphan);
    thread.posts.insert(
        orphan.into(),
        Post {
            reply_parent: Some("at://did:plc:z/app.bsky.feed.post/99".into()),
            ..Post::new(
                orphan,
                "c9",
                author("did:plc:d", "dave.bsky.social", "Dave"),
                "Orphan post\nsecond line",
                "2026-01-15T09:00:00Z",
            )
        },
    );
    web.add_thread(thread);

    let out = render(&web);
    assert!(out.starts_with(
        "[1/5] Dave (@dave.bsky.social)  2026-01-15 09:00\n  Orphan post\n  second line"
    ));
    assert!(out.contains(
        "[3/5] Bob (@bob.bsky.social)  2026-01-15 10:05  [replying to @alice.bsky.social #2]"
    ));
}

#[test]
fn quote_target_outside_the_web_gets_no_annotation() {
    let mut web = test_web();
    web.get_post_mut(QUOTE).unwrap().embed_uri =
        Some("at://did:plc:x/app.bsky.feed.post/77".into());
    let out = render(&web);
    assert!(out.contains("[3/4] @carol.bsky.social  2026-01-15 10:08\n  Quote post"));
    assert!(!out.contains("quoting"));
}

#[test]
fn reply_and_quote_annotations_combine() {
    let mut web = test_web();
    let post = web.get_post_mut(QUOTE).unwrap();
    post.reply_parent = Some(REPLY.into());
    let out = render(&web);
    assert!(out.contains(
        "[3/4] @carol.bsky.social  2026-01-15 10:08  \
             [replying to @bob.bsky.social #2, quoting @alice.bsky.social #1]"
    ));
}
