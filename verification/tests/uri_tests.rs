//! Post references: AT URIs and bsky.app URLs.

use bsky_context::uri::{post_uri_from_link, split_at_uri, PostRef};

#[test]
fn parses_at_uri() {
    let r = PostRef::parse("at://did:plc:abc123/app.bsky.feed.post/xyz789").unwrap();
    assert_eq!(r.repo, "did:plc:abc123");
    assert_eq!(r.rkey, "xyz789");
}

#[test]
fn parses_bsky_url() {
    let r = PostRef::parse("https://bsky.app/profile/alice.bsky.social/post/abc").unwrap();
    assert_eq!(r.repo, "alice.bsky.social");
    assert_eq!(r.rkey, "abc");
}

#[test]
fn parses_bsky_url_http() {
    let r = PostRef::parse("http://bsky.app/profile/alice.bsky.social/post/abc").unwrap();
    assert_eq!(r.repo, "alice.bsky.social");
}

#[test]
fn at_uri_formats() {
    let r = PostRef {
        repo: "did:plc:abc".into(),
        rkey: "xyz".into(),
    };
    assert_eq!(r.at_uri(), "at://did:plc:abc/app.bsky.feed.post/xyz");
    assert_eq!(r.display(), r.at_uri());
}

#[test]
fn roundtrips() {
    let original = "at://did:plc:abc123/app.bsky.feed.post/xyz789";
    assert_eq!(PostRef::parse(original).unwrap().at_uri(), original);
}

#[test]
fn strips_whitespace() {
    let r = PostRef::parse("  at://did:plc:abc/app.bsky.feed.post/xyz  ").unwrap();
    assert_eq!(r.repo, "did:plc:abc");
}

#[test]
fn rejects_invalid() {
    assert!(PostRef::parse("not a valid uri").is_err());
    assert!(PostRef::parse("").is_err());
    assert!(PostRef::parse("at://did:plc:a/app.bsky.feed.like/xyz").is_err());
    assert!(PostRef::parse("https://bsky.app/profile/a/post/xyz/extra").is_err());
    assert!(PostRef::parse("https://bsky.app/profile/a/post/").is_err());
    let err = PostRef::parse("nope").unwrap_err();
    assert!(err.message().contains("cannot parse"));
}

#[test]
fn from_str_works() {
    let r: PostRef = "at://did:plc:a/app.bsky.feed.post/b".parse().unwrap();
    assert_eq!(r.rkey, "b");
}

#[test]
fn splits_generic_at_uri() {
    let p = split_at_uri("at://alice.bsky.social/app.bsky.feed.like/k").unwrap();
    assert_eq!(p.authority, "alice.bsky.social");
    assert_eq!(p.collection, "app.bsky.feed.like");
    assert_eq!(p.rkey, "k");
    assert!(split_at_uri("at://a/b").is_none());
    assert!(split_at_uri("at://a//c").is_none());
}

#[test]
fn link_resolution() {
    assert_eq!(
        post_uri_from_link("at://did:plc:a/app.bsky.feed.post/1").as_deref(),
        Some("at://did:plc:a/app.bsky.feed.post/1")
    );
    assert!(post_uri_from_link("").is_none());
    assert!(post_uri_from_link("https://bsky.app/profile/a.bsky.social").is_none());
}

#[test]
fn bsky_link_resolves_to_at_uri() {
    assert_eq!(
        post_uri_from_link("https://bsky.app/profile/bob.test/post/k9").as_deref(),
        Some("at://bob.test/app.bsky.feed.post/k9")
    );
}

#[test]
fn parse_error_message_quotes_the_input() {
    let err = PostRef::parse("  nope ").unwrap_err();
    assert_eq!(err.message(), "cannot parse as Bluesky post reference: \"nope\"");
}

#[test]
fn links_that_are_not_post_uris_give_none() {
    assert!(post_uri_from_link("at://did:plc:a/app.bsky.feed.post/1/extra").is_none());
    assert!(post_uri_from_link("at://did:plc:a/app.bsky.feed.like/1").is_none());
    assert!(post_uri_from_link("https://example.com").is_none());
    assert_eq!(
        post_uri_from_link("https://bsky.app/profile/a.bsky.social/post/1").as_deref(),
        Some("at://a.bsky.social/app.bsky.feed.post/1")
    );
}
