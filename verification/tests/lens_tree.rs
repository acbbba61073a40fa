#![allow(dead_code, unused_imports)]
//! Renderings of the `tree` lens.

use bsky_context::lens::{render as render_lens, Lens};
use bsky_context::lens::thousands;
use bsky_context::model::{Author, ContextWeb, Post, QuoteEdge, Thread};

const ROOT: &str = "at://did:plc:a/app.bsky.feed.post/1";
const REPLY: &str = "at://did:plc:b/app.bsky.feed.post/2";
const QUOTE: &str = "at://did:plc:c/app.bsky.feed.post/3";
const REPLY_TO_QUOTE: &str = "at://did:plc:b/app.bsky.feed.post/4";

fn author(did: &str, handle: &str, display_name: &str) -> Author {
    Author {
        did: did.into(),
        handle: handle.into(),
        display_name: display_name.into(),
    }
}

/// Builds a small web: root -> reply, root -> quote -> reply-to-quote.
///
/// Thread 1: Alice's root post + Bob's direct reply.
/// Thread 2: Carol's quote post + Bob's reply to the quote.
fn test_web() -> ContextWeb {
    let mut web = ContextWeb::new(ROOT, "2026-01-01T00:00:00Z");

    let mut thread1 = Thread::new(ROOT);
    thread1.posts.insert(
        ROOT.into(),
        Post {
            like_count: 10,
            repost_count: 3,
            quote_count: 1,
            ..Post::new(
                ROOT,
                "c1",
                author("did:plc:a", "alice.bsky.social", "Alice"),
                "Original post",
                "2026-01-15T10:00:00Z",
            )
        },
    );
    thread1.posts.insert(
        REPLY.into(),
        Post {
            reply_parent: Some(ROOT.into()),
            reply_root: Some(ROOT.into()),
            like_count: 2,
            ..Post::new(
                REPLY,
                "c2",
                author("did:plc:b", "bob.bsky.social", "Bob"),
                "Direct reply",
                "2026-01-15T10:05:00Z",
            )
        },
    );

    let mut thread2 = Thread::new(QUOTE);
    thread2.posts.insert(
        QUOTE.into(),
        Post {
            embed_uri: Some(ROOT.into()),
            embed_type: Some("app.bsky.embed.record".into()),
            like_count: 5,
            ..Post::new(
                QUOTE,
                "c3",
                author("did:plc:c", "carol.bsky.social", ""),
                "Quote post",
                "2026-01-15T10:08:00Z",
            )
        },
    );
    thread2.posts.insert(
        REPLY_TO_QUOTE.into(),
        Post {
            reply_parent: Some(QUOTE.into()),
            reply_root: Some(QUOTE.into()),
            like_count: 1,
            ..Post::new(
                REPLY_TO_QUOTE,
                "c4",
                author("did:plc:b", "bob.bsky.social", "Bob"),
                "Reply to quote",
                "2026-01-15T10:12:00Z",
            )
        },
    );

    web.add_thread(thread1);
    web.add_thread(thread2);
    web.quote_edges = vec![QuoteEdge {
        source: ROOT.into(),
        target: QUOTE.into(),
        source_thread: ROOT.into(),
        target_thread: QUOTE.into(),
    }];
    web
}

fn render(web: &ContextWeb) -> String {
    render_lens(web, &Lens::Tree)
}

const EXPECTED: &str = "\
[root] Alice (@alice.bsky.social)  2026-01-15 10:00
  Original post
  (10 likes, 3 reposts, 1 quote)

  [reply] Bob (@bob.bsky.social)  2026-01-15 10:05
    Direct reply
    (2 likes)

  [quote] @carol.bsky.social  2026-01-15 10:08
    Quote post
    (5 likes)

    [reply] Bob (@bob.bsky.social)  2026-01-15 10:12
      Reply to quote
      (1 like)";

#[test]
fn tree_matches_reference_rendering() {
    assert_eq!(render(&test_web()), EXPECTED);
}

#[test]
fn contains_all_posts() {
    let out = render(&test_web());
    for text in [
        "Original post",
        "Direct reply",
        "Quote post",
        "Reply to quote",
    ] {
        assert!(out.contains(text), "missing {text:?} in:\n{out}");
    }
}

#[test]
fn root_tagged() {
    assert!(render(&test_web()).contains("[root]"));
}

#[test]
fn reply_and_quote_tags() {
    let out = render(&test_web());
    assert!(out.contains("[reply]"));
    assert!(out.contains("[quote]"));
}

#[test]
fn nesting_order() {
    let out = render(&test_web());
    let root_line = out
        .lines()
        .position(|line| line.contains("Original post"))
        .unwrap();
    let reply_line = out
        .lines()
        .position(|line| line.contains("Direct reply"))
        .unwrap();
    assert!(root_line < reply_line);
}

#[test]
fn tree_empty_web_renders_nothing() {
    let web = ContextWeb::new(ROOT, "2026-01-01T00:00:00Z");
    assert_eq!(render(&web), "");
}

#[test]
fn replies_precede_quotes_even_when_later() {
    let mut web = test_web();
    web.get_post_mut(REPLY).unwrap().created_at = "2026-01-15T10:20:00Z".into();
    let out = render(&web);
    let reply = out.lines().position(|l| l.contains("[reply]")).unwrap();
    let quote = out.lines().position(|l| l.contains("[quote]")).unwrap();
    assert!(reply < quote, "quotes must sort after replies:\n{out}");
}

#[test]
fn sibling_replies_sort_chronologically() {
    let mut web = test_web();
    let late = "at://did:plc:d/app.bsky.feed.post/5";
    let early = "at://did:plc:e/app.bsky.feed.post/6";
    let mut thread = web.remove_thread(ROOT).unwrap();
    thread.posts.insert(
        late.into(),
        Post {
            reply_parent: Some(ROOT.into()),
            ..Post::new(
                late,
                "c5",
                author("did:plc:d", "dave.bsky.social", ""),
                "Late sibling",
                "2026-01-15T10:07:00Z",
            )
        },
    );
    thread.posts.insert(
        early.into(),
        Post {
            reply_parent: Some(ROOT.into()),
            ..Post::new(
                early,
                "c6",
                author("did:plc:e", "erin.bsky.social", ""),
                "Early sibling",
                "2026-01-15T10:01:00Z",
            )
        },
    );
    web.add_thread(thread);

    let out = render(&web);
    let position = |needle: &str| out.lines().position(|l| l.contains(needle)).unwrap();
    assert!(position("Early sibling") < position("Direct reply"));
    assert!(position("Direct reply") < position("Late sibling"));
    assert!(position("Late sibling") < position("Quote post"));
}

#[test]
fn disconnected_posts_follow_a_separator() {
    let mut web = test_web();
    let orphan = "at://did:plc:d/app.bsky.feed.post/9";
    let mut thread = Thread::new(orphan);
    thread.posts.insert(
        orphan.into(),
        Post {
            reply_parent: Some("at://did:plc:z/app.bsky.feed.post/99".into()),
            ..Post::new(
                orphan,
                "c9",
                author("did:plc:d", "dave.bsky.social", "Dave"),
                "Orphan post\nsecond line",
                "2026-01-15T09:00:00Z",
            )
        },
    );
    web.add_thread(thread);

    let out = render(&web);
    assert!(out.ends_with(
        "---\n[root] Dave (@dave.bsky.social)  2026-01-15 09:00\n  Orphan post\n  second line"
    ));
    assert_eq!(out.matches("---").count(), 1);
}

#[test]
fn quote_edge_outside_the_web_is_ignored() {
    let mut web = test_web();
    web.quote_edges.push(QuoteEdge {
        source: REPLY.into(),
        target: "at://did:plc:x/app.bsky.feed.post/77".into(),
        source_thread: ROOT.into(),
        target_thread: "at://did:plc:x/app.bsky.feed.post/77".into(),
    });
    assert_eq!(render(&web), EXPECTED);
}

#[test]
fn each_post_is_rendered_once() {
    let mut web = test_web();
    web.quote_edges.push(QuoteEdge {
        source: REPLY.into(),
        target: REPLY_TO_QUOTE.into(),
        source_thread: ROOT.into(),
        target_thread: QUOTE.into(),
    });
    assert_eq!(
        render(&web),
        "\
[root] Alice (@alice.bsky.social)  2026-01-15 10:00
  Original post
  (10 likes, 3 reposts, 1 quote)

  [reply] Bob (@bob.bsky.social)  2026-01-15 10:05
    Direct reply
    (2 likes)

    [quote] Bob (@bob.bsky.social)  2026-01-15 10:12
      Reply to quote
      (1 like)

  [quote] @carol.bsky.social  2026-01-15 10:08
    Quote post
    (5 likes)"
    );
}
