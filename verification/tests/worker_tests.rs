//! The cache helpers and the MCP server's decisions.

use core::time::Duration;

use bsky_context::cache;
use bsky_context::cache::key;
use bsky_context::crawler::{CrawlOptions, StopReason};
use bsky_context::lens::Lens;
use bsky_context::mcp::{
    classify, compose, frame_body, negotiate_version, non_empty, BodyShape, Framing, Provenance, RawArgs,
    Request, ToolArgs, INVALID_PARAMS, INVALID_REQUEST, METHOD_NOT_FOUND, PARSE_ERROR, PROTOCOL_VERSION,
    TOOL_NAME,
};
use bsky_context::model::{Author, ContextWeb, Post, Thread};
use bsky_context::uri::PostRef;

fn sample_web() -> ContextWeb {
    let root = "at://did:plc:a/app.bsky.feed.post/k1";
    let mut web = ContextWeb::new(root, "2026-01-01T00:00:00Z");
    let mut thread = Thread::new(root);
    thread.posts.insert(
        root.into(),
        Post::new(
            root,
            "c",
            Author {
                did: "did:plc:a".into(),
                handle: "alice.test".into(),
                display_name: "Alice".into(),
            },
            "hello",
            "2026-01-01T00:00:00Z",
        ),
    );
    web.add_thread(thread);
    web
}

#[test]
fn key_and_match() {
    let web = sample_web();
    let by_handle = PostRef {
        repo: "alice.test".into(),
        rkey: "k1".into(),
    };
    let by_did = PostRef {
        repo: "did:plc:a".into(),
        rkey: "k1".into(),
    };
    let other_repo = PostRef {
        repo: "mallory.test".into(),
        rkey: "k1".into(),
    };
    let other_rkey = PostRef {
        repo: "alice.test".into(),
        rkey: "k2".into(),
    };
    assert_eq!(key(&by_handle), "web:k1");
    assert_eq!(key(&by_did), key(&by_handle));
    assert!(cache::matches(&web, &by_handle));
    assert!(cache::matches(&web, &by_did));
    assert!(!cache::matches(&web, &other_repo));
    assert!(!cache::matches(&web, &other_rkey));
    let empty = ContextWeb::new("at://did:plc:a/app.bsky.feed.post/k1", "x");
    assert!(!cache::matches(&empty, &by_handle));
}

#[test]
fn mcp_compose_headers() {
    let web = sample_web();
    let budget = CrawlOptions {
        max_nodes: 500,
        timeout: Duration::from_secs(20),
        ..CrawlOptions::default()
    };
    let complete = compose(
        &web,
        &Lens::Raw,
        Provenance::Crawled {
            stop_reason: StopReason::Complete,
            pending: 0,
        },
        &budget,
    );
    assert!(
        complete.starts_with(
            "# Bluesky context web: https://bsky.app/profile/alice.test/post/k1\n"
        )
    );
    assert!(complete.contains("1 posts, 1 threads, 0 edges. Lens: raw."));
    assert!(complete.contains("fully explored"));
    assert!(complete.contains("\"format_version\": 2"));

    let timed_out = compose(
        &web,
        &Lens::Raw,
        Provenance::Crawled {
            stop_reason: StopReason::Timeout,
            pending: 7,
        },
        &budget,
    );
    assert!(timed_out.contains("(20s per call); 7 threads unexplored"));
    let capped = compose(
        &web,
        &Lens::Raw,
        Provenance::Crawled {
            stop_reason: StopReason::MaxNodes,
            pending: 3,
        },
        &budget,
    );
    assert!(capped.contains("(500 posts per call); 3 threads unexplored"));
    let cached = compose(
        &web,
        &Lens::Raw,
        Provenance::Cached { age_secs: 42 },
        &budget,
    );
    assert!(cached.contains("cached web (42s old)"));
}

#[test]
fn initialize_negotiates_version() {
    assert_eq!(negotiate_version(Some("2025-03-26")), "2025-03-26");
    assert_eq!(negotiate_version(Some("1999-01-01")), PROTOCOL_VERSION);
    assert_eq!(negotiate_version(None), PROTOCOL_VERSION);
}

#[test]
fn notifications_are_ignored_and_ping_answers() {
    assert_eq!(classify(false, "notifications/initialized", ""), Request::Ignore);
    assert_eq!(classify(true, "ping", ""), Request::Ping);
}

#[test]
fn unknown_methods_error() {
    assert_eq!(
        classify(true, "resources/list", ""),
        Request::MethodNotFound("resources/list".into())
    );
    assert_eq!(
        classify(true, "tools/call", "other"),
        Request::UnknownTool("other".into())
    );
    assert_eq!(classify(true, "tools/call", TOOL_NAME), Request::CallTool);
    assert_eq!(classify(true, "tools/list", ""), Request::ListTools);
    assert_eq!(classify(true, "initialize", ""), Request::Initialize);
}

fn raw(post: &str) -> RawArgs {
    RawArgs {
        post: post.into(),
        lens: None,
        top: None,
        hops: None,
        uri: None,
        after: None,
        before: None,
        query: None,
        author: None,
        fresh: None,
    }
}

#[test]
fn tools_call_parses_arguments() {
    let args = ToolArgs::from_raw(RawArgs {
        lens: Some("search".into()),
        query: Some("hello".into()),
        author: Some(String::new()),
        fresh: Some(true),
        ..raw("https://bsky.app/profile/alice.test/post/k1")
    })
    .unwrap();
    assert_eq!(
        args,
        ToolArgs {
            post: PostRef {
                repo: "alice.test".into(),
                rkey: "k1".into()
            },
            lens: Lens::Search {
                query: Some("hello".into()),
                author: None
            },
            fresh: true,
        }
    );
    let args = ToolArgs::from_raw(RawArgs {
        lens: Some("threads".into()),
        top: Some(3),
        ..raw("at://did:plc:a/app.bsky.feed.post/k2")
    })
    .unwrap();
    assert_eq!(args.lens, Lens::Threads { top: 3 });
    assert!(!args.fresh);
    let args = ToolArgs::from_raw(raw("at://did:plc:a/app.bsky.feed.post/k2")).unwrap();
    assert_eq!(args.lens, Lens::Tree);
}

#[test]
fn tools_call_rejects_bad_arguments() {
    assert!(ToolArgs::from_raw(raw("https://example.com")).is_err());
    let err = ToolArgs::from_raw(RawArgs {
        lens: Some("nope".into()),
        ..raw("at://did:plc:a/app.bsky.feed.post/k")
    })
    .unwrap_err();
    assert!(err.contains("unknown lens"));
}

#[test]
fn blank_text_arguments_count_as_absent() {
    assert_eq!(non_empty(Some("  ".into())), None);
    assert_eq!(non_empty(Some(" x ".into())), Some(" x ".into()));
    assert_eq!(non_empty(None), None);
}

#[test]
fn bodies_frame_as_single_batch_or_invalid() {
    assert_eq!(frame_body(&BodyShape::Object), Framing::Single);
    assert_eq!(frame_body(&BodyShape::Array(vec![true, true])), Framing::Batch);
    assert_eq!(frame_body(&BodyShape::Array(vec![])), Framing::Invalid);
    assert_eq!(frame_body(&BodyShape::Array(vec![true, false])), Framing::Invalid);
    assert_eq!(frame_body(&BodyShape::Scalar), Framing::Invalid);
}

#[test]
fn unknown_tools_and_methods_are_errors() {
    let tool = classify(true, "tools/call", "other");
    assert_eq!(tool.error(), Some((INVALID_PARAMS, "unknown tool \"other\"".to_string())));
    let method = classify(true, "resources/list", "");
    assert_eq!(method.error(), Some((METHOD_NOT_FOUND, "method not found: resources/list".to_string())));
    assert_eq!(classify(true, "ping", "").error(), None);
    assert_eq!(PARSE_ERROR, -32700);
    assert_eq!(INVALID_REQUEST, -32600);
}
