//! Wire types, fetch errors, crawl options and the retry policy.

use core::time::Duration;

use bsky_context::api::{
    FetchError, Label, NestedRecordEmbed, PostRecord, PostView, ProfileViewBasic, RecordEmbed,
    ReplyRef, StrongRef, WireFacet, WireFeature,
};
use bsky_context::crawler::{retry_step, Backoff, CrawlOptions, RetryStep};
use bsky_context::model::{ByteRange, Facet, FacetFeature, Post};

#[test]
fn rate_limit_detection() {
    let err = FetchError::Status {
        status: 429,
        message: "slow down".into(),
        retry_after: Some(Duration::from_secs(3)),
    };
    assert!(err.is_rate_limited());
    assert!(!FetchError::Timeout.is_rate_limited());
    assert_eq!(err.message(), "HTTP 429: slow down");
}

#[test]
fn test_max_depth_none_explores_everything() {
    let options = CrawlOptions::default();
    assert_eq!(options.max_depth, None);
    assert_eq!(options.max_nodes, 2000);
    assert_eq!(options.concurrency, 2);
}

#[test]
fn test_unknown_facet_type_preserved() {
    let wire = WireFacet {
        index: ByteRange {
            byte_start: 0,
            byte_end: 5,
        },
        features: vec![WireFeature {
            kind: "app.bsky.richtext.facet#futureType".to_owned(),
            did: None,
            uri: None,
            tag: None,
        }],
    };

    let facet = Facet::from(wire);

    assert_eq!(facet.features.len(), 1);
    assert_eq!(
        facet.features[0],
        FacetFeature::Other {
            kind: "app.bsky.richtext.facet#futureType".to_owned()
        }
    );
}

#[test]
fn rate_limit_backs_off_exponentially_without_retry_after() {
    let err = FetchError::Status {
        status: 429,
        message: String::new(),
        retry_after: None,
    };
    assert_eq!(
        retry_step(&err, 0),
        RetryStep::Wait(Backoff::RateLimited(Duration::from_secs(1)))
    );
    assert_eq!(
        retry_step(&err, 3),
        RetryStep::Wait(Backoff::RateLimited(Duration::from_secs(8)))
    );
}

#[test]
fn retry_after_is_honored() {
    let err = FetchError::Status {
        status: 429,
        message: String::new(),
        retry_after: Some(Duration::from_secs(7)),
    };
    assert_eq!(
        retry_step(&err, 2),
        RetryStep::Wait(Backoff::RateLimited(Duration::from_secs(7)))
    );
}

#[test]
fn transient_errors_retry_until_the_last_attempt() {
    assert_eq!(
        retry_step(&FetchError::Timeout, 0),
        RetryStep::Wait(Backoff::Transient(Duration::from_secs(1)))
    );
    assert_eq!(retry_step(&FetchError::Network("reset".into()), 4), RetryStep::GiveUp);
}

#[test]
fn other_failures_give_up_at_once() {
    let err = FetchError::Status {
        status: 404,
        message: "gone".into(),
        retry_after: None,
    };
    assert_eq!(retry_step(&err, 0), RetryStep::GiveUp);
    assert_eq!(retry_step(&FetchError::Decode("bad".into()), 0), RetryStep::GiveUp);
}

/// The root post of the sample `getPostThread` response, as decoded.
fn root_post_view() -> PostView {
    PostView {
        uri: "at://did:plc:root/app.bsky.feed.post/3aaa".into(),
        cid: "bafyroot".into(),
        author: ProfileViewBasic {
            did: "did:plc:root".into(),
            handle: "root.test".into(),
            display_name: Some("Root".into()),
        },
        record: PostRecord {
            text: "hello #rust".into(),
            created_at: "2026-08-01T10:00:00.000Z".into(),
            reply: None,
            embed: Some(RecordEmbed::Other),
            facets: None,
            langs: Some(vec!["en".into()]),
        },
        labels: Some(vec![Label { val: "spoiler".into() }]),
        reply_count: Some(2),
        repost_count: Some(1),
        like_count: Some(5),
        quote_count: Some(1),
    }
}

fn facet(start: usize, end: usize, feature: WireFeature) -> WireFacet {
    WireFacet { index: ByteRange { byte_start: start, byte_end: end }, features: vec![feature] }
}

fn feature(kind: &str, did: Option<&str>, uri: Option<&str>) -> WireFeature {
    WireFeature { kind: kind.into(), did: did.map(Into::into), uri: uri.map(Into::into), tag: None }
}

/// The first reply of the sample `getPostThread` response, as decoded.
fn reply_post_view() -> PostView {
    let root = "at://did:plc:root/app.bsky.feed.post/3aaa";
    PostView {
        uri: "at://did:plc:bob/app.bsky.feed.post/3bbb".into(),
        cid: "bafybob".into(),
        author: ProfileViewBasic { did: "did:plc:bob".into(), handle: "bob.test".into(), display_name: None },
        record: PostRecord {
            text: "@root https://bsky.app/... nice".into(),
            created_at: "2026-08-01T10:05:00.000Z".into(),
            reply: Some(ReplyRef { root: StrongRef { uri: root.into() }, parent: StrongRef { uri: root.into() } }),
            embed: None,
            facets: Some(vec![
                facet(0, 5, feature("app.bsky.richtext.facet#mention", Some("did:plc:root"), None)),
                facet(
                    6,
                    20,
                    feature(
                        "app.bsky.richtext.facet#link",
                        None,
                        Some("https://bsky.app/profile/carol.test/post/3ccc"),
                    ),
                ),
                facet(21, 25, feature("app.bsky.richtext.facet#weird", None, None)),
            ]),
            langs: None,
        },
        labels: Some(Vec::new()),
        reply_count: Some(0),
        repost_count: Some(0),
        like_count: Some(0),
        quote_count: Some(0),
    }
}

#[test]
fn converts_root_post_view() {
    let post = Post::from(root_post_view());
    assert_eq!(post.author.display_name, "Root");
    assert_eq!(post.text, "hello #rust");
    assert_eq!(post.created_at, "2026-08-01T10:00:00.000Z");
    assert_eq!(post.like_count, 5);
    assert_eq!(post.reply_count, 2);
    assert_eq!(post.repost_count, 1);
    assert_eq!(post.quote_count, 1);
    assert_eq!(post.labels, vec!["spoiler"]);
    assert_eq!(post.langs, vec!["en"]);
    assert!(post.embed_uri.is_none(), "image embeds are not quotes");
    assert!(post.embed_type.is_none());
    assert!(post.reply_parent.is_none());
}

#[test]
fn converts_reply_with_facets() {
    let post = Post::from(reply_post_view());
    assert_eq!(post.author.display_name, "");
    assert_eq!(post.reply_parent.as_deref(), Some("at://did:plc:root/app.bsky.feed.post/3aaa"));
    assert_eq!(post.reply_root, post.reply_parent);
    assert_eq!(post.facets.len(), 3);
    assert_eq!(post.facets[0].features[0], FacetFeature::Mention { did: "did:plc:root".into() });
    assert_eq!(
        post.facets[1].features[0],
        FacetFeature::Link { uri: "https://bsky.app/profile/carol.test/post/3ccc".into() }
    );
    assert_eq!(post.facets[2].features[0], FacetFeature::Other { kind: "app.bsky.richtext.facet#weird".into() });
    assert_eq!(post.facets[1].index.byte_end, 20);
    assert!(post.labels.is_empty());
}

#[test]
fn decodes_quotes_including_record_with_media() {
    let root = "at://did:plc:root/app.bsky.feed.post/3aaa";
    let plain_view = PostView {
        uri: "at://did:plc:carol/app.bsky.feed.post/3fff".into(),
        cid: "bafycarol".into(),
        author: ProfileViewBasic {
            did: "did:plc:carol".into(),
            handle: "carol.test".into(),
            display_name: Some("Carol".into()),
        },
        record: PostRecord {
            text: "quoting".into(),
            created_at: "2026-08-01T11:00:00.000Z".into(),
            reply: None,
            embed: Some(RecordEmbed::Record { record: StrongRef { uri: root.into() } }),
            facets: None,
            langs: None,
        },
        labels: None,
        reply_count: Some(0),
        repost_count: Some(0),
        like_count: Some(2),
        quote_count: Some(0),
    };
    let media_view = PostView {
        uri: "at://did:plc:dan/app.bsky.feed.post/3ggg".into(),
        cid: "bafydan".into(),
        author: ProfileViewBasic { did: "did:plc:dan".into(), handle: "dan.test".into(), display_name: None },
        record: PostRecord {
            text: "quote with pic".into(),
            created_at: "2026-08-01T11:30:00.000Z".into(),
            reply: None,
            embed: Some(RecordEmbed::RecordWithMedia {
                record: NestedRecordEmbed { record: StrongRef { uri: root.into() } },
            }),
            facets: None,
            langs: None,
        },
        labels: None,
        reply_count: None,
        repost_count: None,
        like_count: None,
        quote_count: None,
    };

    let plain = Post::from(plain_view);
    assert_eq!(plain.embed_type.as_deref(), Some("app.bsky.embed.record"));
    assert_eq!(plain.embed_uri.as_deref(), Some(root));
    assert!(plain.facets.is_empty(), "null facets decode as empty");

    let with_media = Post::from(media_view);
    assert_eq!(with_media.embed_type.as_deref(), Some("app.bsky.embed.recordWithMedia"));
    assert_eq!(with_media.embed_uri.as_deref(), Some(root));
    assert_eq!(with_media.like_count, 0, "missing counts default to zero");
}

#[test]
fn rate_limit_gives_up_on_the_last_attempt() {
    let err = FetchError::Status { status: 429, message: "slow down".into(), retry_after: None };
    assert_eq!(retry_step(&err, 4), RetryStep::GiveUp);
    let err = FetchError::Status {
        status: 429,
        message: "slow down".into(),
        retry_after: Some(Duration::from_secs(7)),
    };
    assert_eq!(retry_step(&err, 4), RetryStep::GiveUp);
}
