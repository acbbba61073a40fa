#![allow(dead_code, unused_imports)]
//! Renderings of the `by-author` lens.

use bsky_context::lens::{render as render_lens, Lens};
use bsky_context::lens::thousands;
use bsky_context::model::{Author, ContextWeb, Post, QuoteEdge, Thread};

const ROOT: &str = "at://did:plc:a/app.bsky.feed.post/1";
const REPLY: &str = "at://did:plc:b/app.bsky.feed.post/2";
const QUOTE: &str = "at://did:plc:c/app.bsky.feed.post/3";
const REPLY_TO_QUOTE: &str = "at://did:plc:b/app.bsky.feed.post/4";

fn author(did: &str, handle: &str, display_name: &str) -> Author {
    Author {
        did: did.into(),
        handle: handle.into(),
        display_name: display_name.into(),
    }
}

/// Builds a small web: root -> reply, root -> quote -> reply-to-quote.
///
/// Thread 1: Alice's root post + Bob's direct reply.
/// Thread 2: Carol's quote post + Bob's reply to the quote.
fn test_web() -> ContextWeb {
    let mut web = ContextWeb::new(ROOT, "2026-01-01T00:00:00Z");

    let mut thread1 = Thread::new(ROOT);
    thread1.posts.insert(
        ROOT.into(),
        Post {
            like_count: 10,
            repost_count: 3,
            quote_count: 1,
            ..Post::new(
                ROOT,
                "c1",
                author("did:plc:a", "alice.bsky.social", "Alice"),
                "Original post",
                "2026-01-15T10:00:00Z",
            )
        },
    );
    thread1.posts.insert(
        REPLY.into(),
        Post {
            reply_parent: Some(ROOT.into()),
            reply_root: Some(ROOT.into()),
            like_count: 2,
            ..Post::new(
                REPLY,
                "c2",
                author("did:plc:b", "bob.bsky.social", "Bob"),
                "Direct reply",
                "2026-01-15T10:05:00Z",
            )
        },
    );

    let mut thread2 = Thread::new(QUOTE);
    thread2.posts.insert(
        QUOTE.into(),
        Post {
            embed_uri: Some(ROOT.into()),
            embed_type: Some("app.bsky.embed.record".into()),
            like_count: 5,
            ..Post::new(
                QUOTE,
                "c3",
                author("did:plc:c", "carol.bsky.social", ""),
                "Quote post",
                "2026-01-15T10:08:00Z",
            )
        },
    );
    thread2.posts.insert(
        REPLY_TO_QUOTE.into(),
        Post {
            reply_parent: Some(QUOTE.into()),
            reply_root: Some(QUOTE.into()),
            like_count: 1,
            ..Post::new(
                REPLY_TO_QUOTE,
                "c4",
                author("did:plc:b", "bob.bsky.social", "Bob"),
                "Reply to quote",
                "2026-01-15T10:12:00Z",
            )
        },
    );

    web.add_thread(thread1);
    web.add_thread(thread2);
    web.quote_edges = vec![QuoteEdge {
        source: ROOT.into(),
        target: QUOTE.into(),
        source_thread: ROOT.into(),
        target_thread: QUOTE.into(),
    }];
    web
}

fn render(web: &ContextWeb) -> String {
    render_lens(web, &Lens::ByAuthor)
}

const EXPECTED: &str = "\
=== PARTICIPANTS (3) ===
  Alice (@alice.bsky.social) - 1 post  [thread starter]
  Bob (@bob.bsky.social) - 2 posts
  @carol.bsky.social - 1 post  [via quote]

=== Alice (@alice.bsky.social) ===
  [1] (#1) 2026-01-15 10:00
    Original post

=== Bob (@bob.bsky.social) ===
  [1] (#2) 2026-01-15 10:05  [replying to @alice.bsky.social]
    Direct reply

  [2] (#4) 2026-01-15 10:12  [replying to @carol.bsky.social]
    Reply to quote

=== @carol.bsky.social ===
  [1] (#3) 2026-01-15 10:08  [quoting @alice.bsky.social]
    Quote post";

#[test]
fn by_author_matches_reference_rendering() {
    assert_eq!(render(&test_web()), EXPECTED);
}

#[test]
fn participant_count() {
    assert!(render(&test_web()).contains("PARTICIPANTS (3)"));
}

#[test]
fn all_authors_present() {
    let out = render(&test_web());
    for handle in ["alice.bsky.social", "bob.bsky.social", "carol.bsky.social"] {
        assert!(out.contains(handle), "missing {handle} in:\n{out}");
    }
}

#[test]
fn thread_starter_tag() {
    assert!(render(&test_web()).contains("thread starter"));
}

#[test]
fn bob_has_two_posts() {
    assert!(render(&test_web()).contains("2 posts"));
}

#[test]
fn empty_web_lists_no_participants() {
    let web = ContextWeb::new(ROOT, "2026-01-01T00:00:00Z");
    assert_eq!(render(&web), "=== PARTICIPANTS (0) ===");
}

#[test]
fn authors_ordered_by_first_post() {
    let mut web = test_web();
    web.get_post_mut(REPLY).unwrap().created_at = "2026-01-15T09:00:00Z".into();
    let out = render(&web);
    let roster: Vec<&str> = out.lines().skip(1).take(3).collect();
    assert_eq!(
        roster,
        vec![
            "  Bob (@bob.bsky.social) - 2 posts",
            "  Alice (@alice.bsky.social) - 1 post  [thread starter]",
            "  @carol.bsky.social - 1 post  [via quote]",
        ]
    );
}

#[test]
fn a_new_author_joins_the_roster_at_their_first_post() {
    let mut web = test_web();
    let orphan = "at://did:plc:d/app.bsky.feed.post/9";
    let mut thread = Thread::new(orphan);
    thread.posts.insert(
        orphan.into(),
        Post {
            reply_parent: Some("at://did:plc:z/app.bsky.feed.post/99".into()),
            ..Post::new(
                orphan,
                "c9",
                author("did:plc:d", "dave.bsky.social", "Dave"),
                "Orphan post\nsecond line",
                "2026-01-15T09:00:00Z",
            )
        },
    );
    web.add_thread(thread);

    let out = render(&web);
    assert!(
        out.starts_with(
            "=== PARTICIPANTS (4) ===\n  Dave (@dave.bsky.social) - 1 post\n  Alice"
        )
    );
    assert!(out.contains(
        "=== Dave (@dave.bsky.social) ===\n  [1] (#1) 2026-01-15 09:00\n    Orphan post\n    second line"
    ));
}

#[test]
fn quoting_author_is_tagged_via_quote() {
    let out = render(&test_web());
    assert!(out.contains("@carol.bsky.social - 1 post  [via quote]"));
    assert!(!out.contains("Alice (@alice.bsky.social) - 1 post  [thread starter, via quote]"));
}

#[test]
fn both_tags_combine_for_a_self_quoting_root_author() {
    let mut web = test_web();
    web.get_post_mut(QUOTE).unwrap().author = author("did:plc:a", "alice.bsky.social", "Alice");
    let out = render(&web);
    assert!(out.contains("Alice (@alice.bsky.social) - 2 posts  [thread starter, via quote]"));
    assert!(out.contains("PARTICIPANTS (2)"));
}

#[test]
fn missing_root_post_yields_no_thread_starter() {
    let mut web = test_web();
    web.root_uri = "at://did:plc:z/app.bsky.feed.post/99".into();
    let out = render(&web);
    assert!(!out.contains("thread starter"));
}
