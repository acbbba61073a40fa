#![allow(dead_code)]
//! Lens names, text helpers and the graph views shared by the lenses.

use bsky_context::lens::{
    author_name, build_children, build_quotes_received, find_tree_root, short_time,
    thread_hop_distances, truncate, LensKind, NAMES,
};
use bsky_context::model::{Author, ContextWeb, Post, QuoteEdge, Thread};

const ROOT: &str = "at://did:plc:a/app.bsky.feed.post/1";
const REPLY: &str = "at://did:plc:b/app.bsky.feed.post/2";
const QUOTE: &str = "at://did:plc:c/app.bsky.feed.post/3";
const REPLY_TO_QUOTE: &str = "at://did:plc:b/app.bsky.feed.post/4";

fn author(did: &str, handle: &str, display_name: &str) -> Author {
    Author {
        did: did.into(),
        handle: handle.into(),
        display_name: display_name.into(),
    }
}

/// Builds a small web: root -> reply, root -> quote -> reply-to-quote.
///
/// Thread 1: Alice's root post + Bob's direct reply.
/// Thread 2: Carol's quote post + Bob's reply to the quote.
fn test_web() -> ContextWeb {
    let mut web = ContextWeb::new(ROOT, "2026-01-01T00:00:00Z");

    let mut thread1 = Thread::new(ROOT);
    thread1.posts.insert(
        ROOT.into(),
        Post {
            like_count: 10,
            repost_count: 3,
            quote_count: 1,
            ..Post::new(
                ROOT,
                "c1",
                author("did:plc:a", "alice.bsky.social", "Alice"),
                "Original post",
                "2026-01-15T10:00:00Z",
            )
        },
    );
    thread1.posts.insert(
        REPLY.into(),
        Post {
            reply_parent: Some(ROOT.into()),
            reply_root: Some(ROOT.into()),
            like_count: 2,
            ..Post::new(
                REPLY,
                "c2",
                author("did:plc:b", "bob.bsky.social", "Bob"),
                "Direct reply",
                "2026-01-15T10:05:00Z",
            )
        },
    );

    let mut thread2 = Thread::new(QUOTE);
    thread2.posts.insert(
        QUOTE.into(),
        Post {
            embed_uri: Some(ROOT.into()),
            embed_type: Some("app.bsky.embed.record".into()),
            like_count: 5,
            ..Post::new(
                QUOTE,
                "c3",
                author("did:plc:c", "carol.bsky.social", ""),
                "Quote post",
                "2026-01-15T10:08:00Z",
            )
        },
    );
    thread2.posts.insert(
        REPLY_TO_QUOTE.into(),
        Post {
            reply_parent: Some(QUOTE.into()),
            reply_root: Some(QUOTE.into()),
            like_count: 1,
            ..Post::new(
                REPLY_TO_QUOTE,
                "c4",
                author("did:plc:b", "bob.bsky.social", "Bob"),
                "Reply to quote",
                "2026-01-15T10:12:00Z",
            )
        },
    );

    web.add_thread(thread1);
    web.add_thread(thread2);
    web.quote_edges = vec![QuoteEdge {
        source: ROOT.into(),
        target: QUOTE.into(),
        source_thread: ROOT.into(),
        target_thread: QUOTE.into(),
    }];
    web
}

fn children_of<'a>(children: &'a [(&'a str, Vec<&'a str>)], uri: &str) -> Option<&'a Vec<&'a str>> {
    children.iter().find(|(k, _)| *k == uri).map(|(_, v)| v)
}

fn count_of(counts: &[(&str, usize)], uri: &str) -> Option<usize> {
    counts.iter().find(|(k, _)| *k == uri).map(|(_, v)| *v)
}

fn distance_of(distances: &[(String, usize)], thread: &str) -> Option<usize> {
    distances.iter().find(|(k, _)| k == thread).map(|(_, v)| *v)
}

#[test]
fn lens_kind_parses_every_name() {
    for name in NAMES {
        let kind: LensKind = name.parse().unwrap();
        assert_eq!(kind.name(), name);
        assert_eq!(kind.with_defaults().kind(), kind);
    }
    let err = "nope".parse::<LensKind>().unwrap_err();
    assert!(err.message().contains("by-author"));
}

#[test]
fn short_time_formats() {
    assert_eq!(short_time("2026-01-15T10:05:30.123Z"), "2026-01-15 10:05");
    assert_eq!(short_time(""), "?");
}

#[test]
fn author_name_formats() {
    let web = test_web();
    assert_eq!(
        author_name(web.get_post(ROOT).unwrap()),
        "Alice (@alice.bsky.social)"
    );
    assert_eq!(
        author_name(web.get_post(QUOTE).unwrap()),
        "@carol.bsky.social"
    );
}

#[test]
fn truncate_collapses_and_cuts() {
    assert_eq!(truncate("a\nb  ", 80), "a b");
    assert_eq!(truncate("abcdefghij", 8), "abcde...");
    assert_eq!(truncate("h\u{e9}llo w\u{f6}rld", 8), "h\u{e9}llo...");
}

#[test]
fn children_and_quote_counts() {
    let web = test_web();
    let children = build_children(&web);
    assert_eq!(children_of(&children, ROOT), Some(&vec![REPLY]));
    assert_eq!(children_of(&children, QUOTE), Some(&vec![REPLY_TO_QUOTE]));
    assert!(children_of(&children, REPLY).is_none());
    let quotes = build_quotes_received(&web);
    assert_eq!(count_of(&quotes, ROOT), Some(1));
    assert!(count_of(&quotes, QUOTE).is_none());
}

#[test]
fn hop_distances_follow_quote_edges_both_ways() {
    let web = test_web();
    let from_root = thread_hop_distances(&web, ROOT);
    assert_eq!(distance_of(&from_root, ROOT), Some(0));
    assert_eq!(distance_of(&from_root, QUOTE), Some(1));
    let from_quote = thread_hop_distances(&web, QUOTE);
    assert_eq!(distance_of(&from_quote, ROOT), Some(1));
    let isolated = thread_hop_distances(&web, "at://nowhere");
    assert_eq!(isolated.len(), 1);
}

#[test]
fn tree_root_walks_up_known_parents() {
    let mut web = test_web();
    assert_eq!(find_tree_root(&web), ROOT);
    web.root_uri = REPLY.into();
    assert_eq!(find_tree_root(&web), ROOT);
    web.root_uri = "at://missing".into();
    assert_eq!(find_tree_root(&web), "at://missing");
}

#[test]
fn hop_distances_are_shortest_paths() {
    let mut web = test_web();
    let far = "at://did:plc:f/app.bsky.feed.post/8";
    web.quote_edges.push(QuoteEdge {
        source: QUOTE.into(),
        target: far.into(),
        source_thread: QUOTE.into(),
        target_thread: far.into(),
    });
    web.quote_edges.push(QuoteEdge {
        source: ROOT.into(),
        target: far.into(),
        source_thread: ROOT.into(),
        target_thread: far.into(),
    });
    let d = thread_hop_distances(&web, ROOT);
    assert_eq!(distance_of(&d, far), Some(1));
    assert_eq!(d.len(), 3);
}
