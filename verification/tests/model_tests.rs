//! The graph model: threads, posts, edges and their bookkeeping.

use bsky_context::model::{web_id, Author, ContextWeb, FacetFeature, Post, QuoteEdge, RawFeature, Thread};
use sha2::Digest;

fn author() -> Author {
    Author {
        did: "did:plc:test".into(),
        handle: "test.bsky.social".into(),
        display_name: String::new(),
    }
}

fn make_post(uri: &str) -> Post {
    let cid = format!("cid-{}", &uri[uri.len() - 3..]);
    Post::new(uri, &cid, author(), "hello", "2026-01-01T00:00:00Z")
}

fn reply(uri: &str, parent: &str) -> Post {
    Post {
        reply_parent: Some(parent.into()),
        reply_root: Some(parent.into()),
        ..make_post(uri)
    }
}

fn single_thread(uri: &str) -> Thread {
    let mut t = Thread::new(uri);
    t.posts.insert(uri.into(), make_post(uri));
    t
}

fn empty_web() -> ContextWeb {
    ContextWeb::new("at://x/app.bsky.feed.post/1", "2026-01-01T00:00:00Z")
}

#[test]
fn thread_counts_and_root() {
    let t = Thread::new("at://did:plc:a/app.bsky.feed.post/1");
    assert_eq!(t.post_count(), 0);
    assert!(t.root_post().is_none());

    let root = "at://did:plc:a/app.bsky.feed.post/1";
    let reply_uri = "at://did:plc:b/app.bsky.feed.post/2";
    let mut t = single_thread(root);
    t.posts.insert(reply_uri.into(), reply(reply_uri, root));
    assert_eq!(t.post_count(), 2);
    assert_eq!(t.root_post().unwrap().uri, root);
    assert_eq!(t.posts[reply_uri].reply_parent.as_deref(), Some(root));
}

#[test]
fn empty_web_counts() {
    let web = empty_web();
    assert_eq!(web.node_count(), 0);
    assert_eq!(web.edge_count(), 0);
    assert_eq!(web.thread_count(), 0);
}

#[test]
fn counts_across_threads_and_nodes_view() {
    let mut web = empty_web();
    web.add_thread(single_thread("at://a/app.bsky.feed.post/1"));
    let mut t = single_thread("at://b/app.bsky.feed.post/2");
    t.posts.insert(
        "at://b/app.bsky.feed.post/3".into(),
        make_post("at://b/app.bsky.feed.post/3"),
    );
    web.add_thread(t);
    assert_eq!(web.node_count(), 3);
    assert_eq!(web.thread_count(), 2);
    let nodes = web.nodes();
    assert_eq!(nodes.len(), 3);
    assert!(nodes.iter().any(|p| p.uri == "at://b/app.bsky.feed.post/3"));
    assert_eq!(nodes.first().map(|p| p.uri.as_str()), Some("at://a/app.bsky.feed.post/1"));
}

#[test]
fn lookups() {
    let mut web = empty_web();
    let root = "at://a/app.bsky.feed.post/1";
    web.add_thread(single_thread(root));
    assert!(web.has_post(root));
    assert_eq!(web.thread_for_post(root).unwrap().root_uri, root);
    assert!(web.thread_for_post("at://nonexistent").is_none());
    assert!(web.get_post("at://nonexistent").is_none());
    web.get_post_mut(root).unwrap().like_count = 7;
    assert_eq!(web.get_post(root).unwrap().like_count, 7);
}

#[test]
fn add_post_creates_thread_and_remove_deindexes() {
    let mut web = empty_web();
    let root = "at://a/app.bsky.feed.post/1";
    web.add_post(root, make_post(root));
    assert_eq!(web.thread_count(), 1);
    assert_eq!(web.thread_root_for(root), Some(root));
    let removed = web.remove_thread(root).unwrap();
    assert_eq!(removed.post_count(), 1);
    assert!(!web.has_post(root));
    assert!(web.remove_thread(root).is_none());
}

#[test]
fn normalize_deduplicates() {
    let mut web = empty_web();
    let a = "at://a/app.bsky.feed.post/1";
    let b = "at://b/app.bsky.feed.post/2";
    web.add_thread(single_thread(a));
    web.add_thread(single_thread(b));
    let qe = QuoteEdge {
        source: a.into(),
        target: b.into(),
        source_thread: a.into(),
        target_thread: b.into(),
    };
    web.quote_edges = vec![qe.clone(), qe.clone(), qe];
    web.normalize_quote_edges();
    assert_eq!(web.quote_edges.len(), 1);
}

#[test]
fn normalize_preserves_distinct_edges() {
    let mut web = empty_web();
    let a = "at://a/app.bsky.feed.post/1";
    let b = "at://b/app.bsky.feed.post/2";
    let c = "at://c/app.bsky.feed.post/3";
    for uri in [a, b, c] {
        web.add_thread(single_thread(uri));
    }
    web.quote_edges = vec![
        QuoteEdge {
            source: a.into(),
            target: b.into(),
            source_thread: a.into(),
            target_thread: b.into(),
        },
        QuoteEdge {
            source: a.into(),
            target: c.into(),
            source_thread: a.into(),
            target_thread: c.into(),
        },
    ];
    web.normalize_quote_edges();
    assert_eq!(web.quote_edges.len(), 2);
}

#[test]
fn normalize_fixes_stale_thread_refs() {
    let mut web = empty_web();
    let a = "at://a/app.bsky.feed.post/1";
    let b = "at://b/app.bsky.feed.post/2";
    let mut t = single_thread(a);
    t.posts.insert(b.into(), make_post(b));
    web.add_thread(t);
    web.quote_edges = vec![QuoteEdge {
        source: a.into(),
        target: b.into(),
        source_thread: "at://stale/placeholder".into(),
        target_thread: "at://stale/other".into(),
    }];
    web.normalize_quote_edges();
    assert_eq!(web.quote_edges.len(), 1);
    assert_eq!(web.quote_edges[0].source_thread, a);
    assert_eq!(web.quote_edges[0].target_thread, a);
}

#[test]
fn normalize_drops_orphan_edges() {
    let mut web = empty_web();
    let a = "at://a/app.bsky.feed.post/1";
    web.add_thread(single_thread(a));
    web.quote_edges = vec![QuoteEdge {
        source: a.into(),
        target: "at://gone/app.bsky.feed.post/999".into(),
        source_thread: a.into(),
        target_thread: "at://gone/app.bsky.feed.post/999".into(),
    }];
    web.normalize_quote_edges();
    assert!(web.quote_edges.is_empty());
}

#[test]
fn edge_count_includes_replies_and_quotes() {
    let mut web = empty_web();
    let root = "at://x/app.bsky.feed.post/1";
    let r = "at://x/app.bsky.feed.post/2";
    let mut t = single_thread(root);
    t.posts.insert(r.into(), reply(r, root));
    web.add_thread(t);
    web.quote_edges = vec![QuoteEdge {
        source: root.into(),
        target: "at://y/app.bsky.feed.post/3".into(),
        source_thread: root.into(),
        target_thread: "at://y/app.bsky.feed.post/3".into(),
    }];
    assert_eq!(web.edge_count(), 2);
}

#[test]
fn serialization_normalizes_without_mutating() {
    let mut web = empty_web();
    let a = "at://a/app.bsky.feed.post/1";
    web.add_thread(single_thread(a));
    let orphan = QuoteEdge {
        source: a.into(),
        target: "at://gone/app.bsky.feed.post/9".into(),
        source_thread: a.into(),
        target_thread: "at://gone/app.bsky.feed.post/9".into(),
    };
    web.quote_edges = vec![orphan];
    let json: serde_json::Value = serde_json::from_str(&web.to_json_pretty()).unwrap();
    assert_eq!(json["quote_edges"].as_array().unwrap().len(), 0);
    assert_eq!(json["meta"]["edge_count"], 0);
    assert_eq!(web.quote_edges.len(), 1);
}

#[test]
fn web_id_is_deterministic_and_distinct() {
    let uri = "at://did:plc:test/app.bsky.feed.post/abc123";
    assert_eq!(web_id(uri), web_id(uri));
    assert!(web_id(uri).starts_with("abc123-"));
    assert_ne!(
        web_id("at://a/app.bsky.feed.post/x"),
        web_id("at://b/app.bsky.feed.post/x")
    );
}

#[test]
fn web_id_matches_python() {
    let uri = "at://did:plc:test/app.bsky.feed.post/abc123";
    let digest = sha2::Sha256::digest(uri.as_bytes());
    let expected = format!("abc123-{:02x}{:02x}{:02x}", digest[0], digest[1], digest[2]);
    assert_eq!(web_id(uri), expected);
}

#[test]
fn pretty_json_has_the_storage_layout() {
    let mut web = empty_web();
    let root = "at://x/app.bsky.feed.post/1";
    let r = "at://x/app.bsky.feed.post/2";
    let mut t = single_thread(root);
    t.posts.insert(r.into(), reply(r, root));
    web.add_thread(t);
    let json: serde_json::Value = serde_json::from_str(&web.to_json_pretty()).unwrap();
    assert_eq!(json["meta"]["format_version"], 2);
    assert_eq!(json["meta"]["node_count"], 2);
    assert_eq!(json["meta"]["edge_count"], 1);
    assert_eq!(json["meta"]["thread_count"], 1);
    assert_eq!(json["meta"]["root_uri"], root);
    assert_eq!(json["threads"][root]["posts"][r]["reply_parent"], root);
    assert_eq!(json["threads"][root]["posts"][root]["reply_parent"], serde_json::Value::Null);
    let pretty = serde_json::to_string_pretty(&json).unwrap();
    assert_eq!(web.to_json_pretty(), pretty);
}

#[test]
fn json_strings_are_escaped() {
    let mut web = ContextWeb::new("at://x/app.bsky.feed.post/1", "quote \" back \\ nl \n tab \t bell \u{7}");
    web.add_thread(Thread::new("at://x/app.bsky.feed.post/1"));
    let json: serde_json::Value = serde_json::from_str(&web.to_json_pretty()).unwrap();
    assert_eq!(json["meta"]["crawled_at"], "quote \" back \\ nl \n tab \t bell \u{7}");
    assert_eq!(web.to_json_pretty(), serde_json::to_string_pretty(&json).unwrap());
}

#[test]
fn from_parts_rebuilds_the_index() {
    let a = "at://a/app.bsky.feed.post/1";
    let b = "at://b/app.bsky.feed.post/2";
    let web = bsky_context::model::from_parts(
        a,
        "2026-01-01T00:00:00Z",
        vec![single_thread(a), single_thread(b)],
        Vec::new(),
    );
    assert_eq!(web.node_count(), 2);
    assert_eq!(web.thread_root_for(b), Some(b));
    assert_eq!(web.root_uri, a);
}

#[test]
fn facet_features_survive_the_storage_form() {
    let features = vec![
        FacetFeature::Mention { did: "did:plc:a".into() },
        FacetFeature::Link { uri: "https://example.com".into() },
        FacetFeature::Tag { tag: "rust".into() },
        FacetFeature::Other { kind: "app.bsky.richtext.facet#weird".into() },
        FacetFeature::Other { kind: "mention".into() },
    ];
    for f in features {
        let raw = RawFeature::from(f.clone());
        assert_eq!(FacetFeature::from(raw), f);
    }
}

#[test]
fn facet_feature_storage_form_fields() {
    let raw = RawFeature::from(FacetFeature::Link { uri: "https://example.com".into() });
    assert_eq!(raw.kind, "link");
    assert_eq!(raw.uri.as_deref(), Some("https://example.com"));
    assert!(raw.did.is_none() && raw.tag.is_none());
    let mention_without_did = RawFeature { kind: "mention".into(), did: None, uri: None, tag: None };
    assert_eq!(FacetFeature::from(mention_without_did), FacetFeature::Other { kind: "mention".into() });
}
