//! Request routing, cache keys and response headers of the web service.

use core::time::Duration;

use bsky_context::crawler::{CrawlOptions, StopReason};
use bsky_context::lens::{Lens, NAMES};
use bsky_context::model::{Author, ContextWeb, Post, Thread};
use bsky_context::route::{
    cache_key, cached_web_matches, compose, parse, Format, RequestUrl, Route, RouteError, WebQuery,
    USAGE,
};
use bsky_context::uri::PostRef;

fn parse_url(s: &str) -> Result<Route, RouteError> {
    parse(&RequestUrl::parse(s).unwrap())
}

fn web_query(s: &str) -> WebQuery {
    let Ok(Route::Web(q)) = parse_url(s) else {
        panic!("expected web route for {s}");
    };
    q
}

#[test]
fn home_and_not_found() {
    assert_eq!(parse_url("https://x.dev/").unwrap(), Route::Home);
    assert_eq!(parse_url("https://x.dev").unwrap(), Route::Home);
    assert_eq!(
        parse_url("https://x.dev/nope").unwrap_err(),
        RouteError::NotFound
    );
    assert_eq!(
        parse_url("https://x.dev/t/onlyrepo").unwrap_err(),
        RouteError::NotFound
    );
}

#[test]
fn path_form_defaults() {
    let q = web_query("https://x.dev/t/alice.bsky.social/abc123");
    assert_eq!(q.post.repo, "alice.bsky.social");
    assert_eq!(q.post.rkey, "abc123");
    assert_eq!(q.lens, Lens::Tree);
    assert!(!q.fresh);
    assert_eq!(q.format, Format::Markdown);
}

#[test]
fn json_suffix_and_did() {
    let q = web_query("https://x.dev/t/did:plc:xyz/abc123.json");
    assert_eq!(q.post.repo, "did:plc:xyz");
    assert_eq!(q.post.rkey, "abc123");
    assert_eq!(q.format, Format::Json);
}

#[test]
fn url_query_form() {
    let q = web_query(
        "https://x.dev/?url=https%3A%2F%2Fbsky.app%2Fprofile%2Fbob.test%2Fpost%2Fk1&lens=linear",
    );
    assert_eq!(q.post.repo, "bob.test");
    assert_eq!(q.lens, Lens::Linear);
    let q = web_query("https://x.dev/?url=at://did:plc:a/app.bsky.feed.post/k2");
    assert_eq!(q.post.rkey, "k2");
}

#[test]
fn lens_params_and_fresh() {
    let q = web_query("https://x.dev/t/a.test/k?lens=search&q=hello&author=bob&fresh=1");
    assert_eq!(
        q.lens,
        Lens::Search {
            query: Some("hello".into()),
            author: Some("bob".into())
        }
    );
    assert!(q.fresh);
    let q = web_query("https://x.dev/t/a.test/k?lens=neighborhood&hops=1&uri=at://x&fresh=false");
    assert_eq!(
        q.lens,
        Lens::Neighborhood {
            uri: Some("at://x".into()),
            hops: 1
        }
    );
    assert!(!q.fresh);
    let q = web_query("https://x.dev/t/a.test/k?lens=threads&top=5");
    assert_eq!(q.lens, Lens::Threads { top: 5 });
    let q = web_query("https://x.dev/t/a.test/k?lens=timeline&after=2026-01-01&before=");
    assert_eq!(
        q.lens,
        Lens::Timeline {
            after: Some("2026-01-01".into()),
            before: None
        }
    );
}

#[test]
fn bad_requests() {
    let err = parse_url("https://x.dev/t/a.test/k?lens=nope").unwrap_err();
    let RouteError::BadRequest(msg) = err else {
        panic!("expected BadRequest");
    };
    assert!(msg.contains("unknown lens"));
    let err = parse_url("https://x.dev/t/a.test/k?top=lots").unwrap_err();
    assert_eq!(
        err,
        RouteError::BadRequest("top must be a non-negative integer".into())
    );
    let err = parse_url("https://x.dev/?url=https://example.com").unwrap_err();
    let RouteError::BadRequest(_) = err else {
        panic!("expected BadRequest");
    };
    let err = parse_url("https://x.dev/t/a.test/not-an-rkey!").unwrap_err();
    let RouteError::BadRequest(_) = err else {
        panic!("expected BadRequest");
    };
}

fn sample_web() -> ContextWeb {
    let root = "at://did:plc:a/app.bsky.feed.post/k1";
    let mut web = ContextWeb::new(root, "2026-01-01T00:00:00Z");
    let mut thread = Thread::new(root);
    thread.posts.insert(
        root.into(),
        Post::new(
            root,
            "c",
            Author {
                did: "did:plc:a".into(),
                handle: "alice.test".into(),
                display_name: "Alice".into(),
            },
            "hello",
            "2026-01-01T00:00:00Z",
        ),
    );
    web.add_thread(thread);
    web
}

#[test]
fn cache_key_and_match() {
    let web = sample_web();
    let by_handle = PostRef {
        repo: "alice.test".into(),
        rkey: "k1".into(),
    };
    let by_did = PostRef {
        repo: "did:plc:a".into(),
        rkey: "k1".into(),
    };
    let other_repo = PostRef {
        repo: "mallory.test".into(),
        rkey: "k1".into(),
    };
    let other_rkey = PostRef {
        repo: "alice.test".into(),
        rkey: "k2".into(),
    };
    assert_eq!(cache_key(&by_handle), "web:k1");
    assert_eq!(cache_key(&by_did), cache_key(&by_handle));
    assert!(cached_web_matches(&web, &by_handle));
    assert!(cached_web_matches(&web, &by_did));
    assert!(!cached_web_matches(&web, &other_repo));
    assert!(!cached_web_matches(&web, &other_rkey));
    let empty = ContextWeb::new("at://did:plc:a/app.bsky.feed.post/k1", "x");
    assert!(!cached_web_matches(&empty, &by_handle));
}

#[test]
fn route_compose_headers() {
    let web = sample_web();
    let budget = CrawlOptions {
        max_nodes: 500,
        timeout: Duration::from_secs(20),
        ..CrawlOptions::default()
    };
    let complete = compose(&web, &Lens::Raw, StopReason::Complete, 0, &budget);
    assert!(
        complete.starts_with(
            "# Bluesky context web: https://bsky.app/profile/alice.test/post/k1\n"
        )
    );
    assert!(complete.contains("1 posts, 1 threads, 0 edges. Lens: raw."));
    assert!(complete.contains("fully explored"));
    assert!(complete.contains("\"format_version\": 2"));

    let timed_out = compose(&web, &Lens::Raw, StopReason::Timeout, 7, &budget);
    assert!(timed_out.contains("(20s per request); 7 threads unexplored"));
    let capped = compose(&web, &Lens::Raw, StopReason::MaxNodes, 3, &budget);
    assert!(capped.contains("(500 posts per request); 3 threads unexplored"));
}

#[test]
fn usage_mentions_every_lens() {
    for name in NAMES {
        assert!(USAGE.contains(name), "usage lacks {name}");
    }
}

#[test]
fn first_value_of_a_parameter_wins_even_when_empty() {
    let q = web_query("https://x.dev/t/a.test/k?lens=&lens=linear");
    assert_eq!(q.lens, Lens::Tree);
}

#[test]
fn hops_must_be_a_number() {
    let err = parse_url("https://x.dev/t/a.test/k?hops=-1").unwrap_err();
    assert_eq!(
        err,
        RouteError::BadRequest("hops must be a non-negative integer".into())
    );
    let q = web_query("https://x.dev/t/a.test/k?lens=neighborhood&hops=%2B3");
    assert_eq!(q.lens, Lens::Neighborhood { uri: None, hops: 3 });
}

#[test]
fn trailing_slashes_are_ignored() {
    let q = web_query("https://x.dev/t/a.test/k1//");
    assert_eq!(q.post.rkey, "k1");
    assert_eq!(RouteError::NotFound.message(), "not found");
}

#[test]
fn worker_budget_defaults_when_unset_or_unparsable() {
    let b = bsky_context::route::crawl_budget(None, None, None, None);
    assert_eq!(b.max_nodes, 500);
    assert_eq!(b.max_depth, None);
    assert_eq!(b.timeout, std::time::Duration::from_secs(20));
    assert_eq!(b.concurrency, 4);
    let b = bsky_context::route::crawl_budget(Some("many"), Some(""), Some("-3"), Some("4x"));
    assert_eq!(b.max_nodes, 500);
    assert_eq!(b.max_depth, None);
    assert_eq!(b.timeout, std::time::Duration::from_secs(20));
    assert_eq!(b.concurrency, 4);
}

#[test]
fn worker_budget_reads_its_settings() {
    let b = bsky_context::route::crawl_budget(Some("1200"), Some("+3"), Some("45"), Some("8"));
    assert_eq!(b.max_nodes, 1200);
    assert_eq!(b.max_depth, Some(3));
    assert_eq!(b.timeout, std::time::Duration::from_secs(45));
    assert_eq!(b.concurrency, 8);
}

#[test]
fn u64_parsing_matches_from_str() {
    assert_eq!(bsky_context::route::parse_u64("18446744073709551615"), Some(u64::MAX));
    assert_eq!(bsky_context::route::parse_u64("18446744073709551616"), None);
    assert_eq!(bsky_context::route::parse_u64("+0"), Some(0));
    assert_eq!(bsky_context::route::parse_u64("+"), None);
    assert_eq!(bsky_context::route::parse_u64(" 1"), None);
}

#[test]
fn route_errors_map_to_statuses() {
    assert_eq!(RouteError::NotFound.status(), 404);
    assert_eq!(RouteError::BadRequest("bad".into()).status(), 400);
}
