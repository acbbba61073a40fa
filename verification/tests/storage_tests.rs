//! Picking a stored web by identifier and summarizing stored webs.

use bsky_context::storage::{select_web, sort_strings, Selection, WebSummary};

fn ids(v: &[&str]) -> Vec<String> {
    v.iter().map(|s| s.to_string()).collect()
}

#[test]
fn exact_id_wins_over_longer_matches() {
    let all = ids(&["abc1-aaaaaa", "abc1-aaaaaa-x", "abc2-bbbbbb"]);
    assert_eq!(select_web("abc1-aaaaaa", &all), Selection::Found("abc1-aaaaaa".into()));
}

#[test]
fn unique_prefix_selects_its_web() {
    let all = ids(&["zzz-000000", "abc123-1a2b3c"]);
    assert_eq!(select_web("abc", &all), Selection::Found("abc123-1a2b3c".into()));
}

#[test]
fn unknown_identifier_is_not_found() {
    assert_eq!(select_web("nonexistent", &ids(&["abc123-1a2b3c"])), Selection::NotFound);
    assert_eq!(select_web("x", &Vec::new()), Selection::NotFound);
}

#[test]
fn shared_prefix_is_ambiguous_and_sorted() {
    let all = ids(&["abc2-bbbbbb", "zzz-000000", "abc1-aaaaaa"]);
    assert_eq!(
        select_web("abc", &all),
        Selection::Ambiguous(ids(&["abc1-aaaaaa", "abc2-bbbbbb"]))
    );
}

#[test]
fn ids_sort_in_text_order() {
    assert_eq!(sort_strings(&ids(&["zzz", "aaa", "abc", "aa"])), ids(&["aa", "aaa", "abc", "zzz"]));
    assert_eq!(sort_strings(&Vec::new()), Vec::<String>::new());
}

#[test]
fn summary_of_a_file_without_meta() {
    let s = WebSummary::from_meta("old-000000".into(), None, None, 0, 0, 0);
    assert_eq!(s.root_uri, "?");
    assert_eq!(s.crawled_at, "?");
    assert_eq!(s.nodes, 0);
}

#[test]
fn summary_keeps_the_stored_meta() {
    let s = WebSummary::from_meta(
        "abc123-1a2b3c".into(),
        Some("at://did:plc:test/app.bsky.feed.post/abc123".into()),
        Some("2026-01-01T00:00:00Z".into()),
        1,
        0,
        1,
    );
    assert_eq!(s.id, "abc123-1a2b3c");
    assert_eq!(s.root_uri, "at://did:plc:test/app.bsky.feed.post/abc123");
    assert_eq!(s.crawled_at, "2026-01-01T00:00:00Z");
    assert_eq!((s.nodes, s.edges, s.threads), (1, 0, 1));
}

fn make_web(root_uri: &str) -> bsky_context::model::ContextWeb {
    let mut web = bsky_context::model::ContextWeb::new(root_uri, "2026-01-01T00:00:00Z");
    web.add_post(
        root_uri,
        bsky_context::model::Post::new(
            root_uri,
            "cid1",
            bsky_context::model::Author {
                did: "did:plc:test".into(),
                handle: "test.bsky.social".into(),
                display_name: String::new(),
            },
            "Test post",
            "2026-01-01T00:00:00Z",
        ),
    );
    web
}

fn summary(web: &bsky_context::model::ContextWeb) -> WebSummary {
    WebSummary::from_meta(
        bsky_context::model::web_id(&web.root_uri),
        Some(web.root_uri.clone()),
        Some(web.crawled_at.clone()),
        web.node_count(),
        web.edge_count(),
        web.thread_count(),
    )
}

const DEFAULT_ROOT: &str = "at://did:plc:test/app.bsky.feed.post/abc123";

#[test]
fn load_by_prefix() {
    let web = make_web(DEFAULT_ROOT);
    let stored = vec![bsky_context::model::web_id(&web.root_uri)];
    match select_web("abc123", &stored) {
        Selection::Found(id) => assert_eq!(id, stored[0]),
        other => panic!("expected Found, got {other:?}"),
    }
    assert_eq!(web.node_count(), 1);
}

#[test]
fn load_not_found() {
    let stored = vec![bsky_context::model::web_id(DEFAULT_ROOT)];
    assert_eq!(select_web("nonexistent", &stored), Selection::NotFound);
    assert_eq!(select_web("x", &Vec::new()), Selection::NotFound);
}

#[test]
fn load_ambiguous() {
    let stored = vec![
        bsky_context::model::web_id("at://did:plc:a/app.bsky.feed.post/abc1"),
        bsky_context::model::web_id("at://did:plc:b/app.bsky.feed.post/abc2"),
    ];
    let Selection::Ambiguous(matches) = select_web("abc", &stored) else {
        panic!("expected Ambiguous");
    };
    assert_eq!(matches.len(), 2);
    assert!(matches.iter().any(|m| m.starts_with("abc1-")));
}

#[test]
fn list_empty() {
    assert!(sort_strings(&Vec::new()).is_empty());
}

#[test]
fn list_saved() {
    let webs = vec![summary(&make_web(DEFAULT_ROOT))];
    assert_eq!(webs.len(), 1);
    let WebSummary {
        id,
        root_uri,
        crawled_at,
        nodes,
        edges,
        threads,
    } = &webs[0];
    assert!(id.starts_with("abc123-"));
    assert_eq!(root_uri, DEFAULT_ROOT);
    assert_eq!(crawled_at, "2026-01-01T00:00:00Z");
    assert_eq!((*nodes, *edges, *threads), (1, 0, 1));
}

#[test]
fn list_multiple_sorted() {
    let stored = vec![
        summary(&make_web("at://did:plc:a/app.bsky.feed.post/zzz")).id,
        summary(&make_web("at://did:plc:b/app.bsky.feed.post/aaa")).id,
    ];
    let ids = sort_strings(&stored);
    assert_eq!(ids.len(), 2);
    assert!(ids[0].starts_with("aaa-"));
    assert!(ids[1].starts_with("zzz-"));
}

#[test]
fn list_tolerates_missing_meta() {
    let webs = vec![WebSummary::from_meta("old-000000".into(), None, None, 0, 0, 0)];
    assert_eq!(webs[0].root_uri, "?");
    assert_eq!(webs[0].nodes, 0);
}
