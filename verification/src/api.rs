//! The Bluesky AppView boundary: wire types, their conversion into the
//! model, and the clock the crawler reads.
use core::time::Duration;
use vstd::prelude::*;
use vstd::string::*;

use crate::model::{
    clone_strings, facets_view, features_view, opt_view, strings_view, Author, AuthorModel,
    ByteRange, Facet, FacetFeature, FacetModel, FeatureModel, Post, PostModel,
};
use crate::ordered_map::post_map_new;
use crate::strings::{concat2, decimal, spec_decimal, str_eq};

verus! {

/// Base URL of the public AppView.
pub const PUBLIC_APPVIEW: &'static str = "https://public.api.bsky.app";

/// Depth and parent height requested for every `getPostThread` call.
pub const THREAD_DEPTH: u32 = 1000;

/// Page size requested for every `getQuotes` call.
pub const QUOTES_PAGE_SIZE: u32 = 100;

/// Why an API call failed.
#[derive(Debug, Clone, PartialEq, Eq)]
pub enum FetchError {
    /// The server answered with a non-success status.
    Status {
        /// The HTTP status code.
        status: u16,
        /// The response body or reason phrase.
        message: String,
        /// The parsed `Retry-After` header, when present.
        retry_after: Option<Duration>,
    },
    /// The request never completed at the transport level.
    Network(String),
    /// The request exceeded the adapter's timeout.
    Timeout,
    /// The response body could not be decoded.
    Decode(String),
}

impl FetchError {
    /// Returns whether this is an HTTP 429 rate-limit response.
    pub fn is_rate_limited(&self) -> (r: bool)
        ensures
            r == (self matches FetchError::Status { status, .. } && status == 429),
    {
        match self {
            FetchError::Status { status, .. } => *status == 429,
            FetchError::Network(_) => false,
            FetchError::Timeout => false,
            FetchError::Decode(_) => false,
        }
    }

    /// The human-readable error message.
    pub fn message(&self) -> (r: String)
        ensures
            r@ == match self {
                FetchError::Status { status, message, .. } => "HTTP "@ + spec_decimal(
                    *status as nat,
                ) + ": "@ + message@,
                FetchError::Network(m) => "network error: "@ + m@,
                FetchError::Timeout => "request timed out"@,
                FetchError::Decode(m) => "invalid response: "@ + m@,
            },
    {
        match self {
            FetchError::Status { status, message, .. } => {
                let mut s = String::from_str("HTTP ");
                let d = decimal(*status as u64);
                s.append(d.as_str());
                s.append(": ");
                s.append(message.as_str());
                s
            },
            FetchError::Network(m) => concat2("network error: ", m.as_str()),
            FetchError::Timeout => String::from_str("request timed out"),
            FetchError::Decode(m) => concat2("invalid response: ", m.as_str()),
        }
    }
}

/// Time for the crawler: deadlines and the `crawled_at` stamp.
///
/// Implemented by each platform adapter; nothing here claims anything of
/// the values an implementation returns.
pub trait Clock {
    /// Returns time elapsed on a monotonic clock since an arbitrary origin.
    fn elapsed(&self) -> Duration;

    /// Returns the current wall-clock time as an RFC 3339 string.
    fn now_rfc3339(&self) -> String;

    /// Waits for a duration.
    fn sleep(&self, duration: Duration);
}

/// The two `AppView` requests a crawl makes.
///
/// Implemented by each platform adapter; nothing here claims anything of
/// the responses an implementation returns.
pub trait Fetch {
    /// `app.bsky.feed.getPostThread` for a post, with up to `depth` levels of
    /// replies and `parent_height` ancestors.
    fn get_post_thread(&self, uri: &str, depth: u32, parent_height: u32) -> Result<ThreadResponse, FetchError>;

    /// One page of `app.bsky.feed.getQuotes` for a post.
    fn get_quotes(&self, uri: &str, limit: u32, cursor: Option<&str>) -> Result<QuotesResponse, FetchError>;
}

/// Response of `app.bsky.feed.getPostThread`.
#[derive(Debug)]
pub struct ThreadResponse {
    /// The requested post with its ancestors and descendants.
    pub thread: ThreadNode,
}

/// One node in a thread view: a post, or a placeholder for one that could
/// not be shown.
#[derive(Debug)]
pub enum ThreadNode {
    /// A visible post with its neighbors.
    Post(Box<ThreadViewPost>),
    /// The post was deleted or never existed.
    NotFound {
        /// The URI that was requested.
        uri: String,
    },
    /// The post is hidden by a block.
    Blocked {
        /// The URI that was requested.
        uri: String,
    },
}

impl ThreadNode {
    /// Returns the post view if this node is a visible post.
    pub fn as_post(&self) -> (r: Option<&ThreadViewPost>)
        ensures
            match self {
                ThreadNode::Post(v) => r == Some(&**v),
                _ => r is None,
            },
    {
        match self {
            ThreadNode::Post(view) => Some(&**view),
            ThreadNode::NotFound { .. } => None,
            ThreadNode::Blocked { .. } => None,
        }
    }
}

/// A visible post together with its parent chain and replies.
#[derive(Debug)]
pub struct ThreadViewPost {
    /// The post itself.
    pub post: PostView,
    /// The post this one replies to, when requested and present.
    pub parent: Option<Box<ThreadNode>>,
    /// Direct replies, when requested.
    pub replies: Option<Vec<ThreadNode>>,
}

/// Response of `app.bsky.feed.getQuotes`.
#[derive(Debug, Clone, PartialEq)]
pub struct QuotesResponse {
    /// Posts quoting the requested URI, one page.
    pub posts: Vec<PostView>,
    /// Cursor for the next page, absent on the last page.
    pub cursor: Option<String>,
}

/// A hydrated post as the AppView presents it.
#[derive(Debug, Clone, PartialEq)]
pub struct PostView {
    /// Canonical AT URI.
    pub uri: String,
    /// Content identifier.
    pub cid: String,
    /// The author's basic profile.
    pub author: ProfileViewBasic,
    /// The post record as written to the author's repository.
    pub record: PostRecord,
    /// Moderation labels applied to the post.
    pub labels: Option<Vec<Label>>,
    /// Reply count.
    pub reply_count: Option<u32>,
    /// Repost count.
    pub repost_count: Option<u32>,
    /// Like count.
    pub like_count: Option<u32>,
    /// Quote count.
    pub quote_count: Option<u32>,
}

/// The subset of a profile that posts carry inline.
#[derive(Debug, Clone, PartialEq)]
pub struct ProfileViewBasic {
    /// The account's DID.
    pub did: String,
    /// The account's handle.
    pub handle: String,
    /// The display name, when set.
    pub display_name: Option<String>,
}

/// A moderation label.
#[derive(Debug, Clone, PartialEq)]
pub struct Label {
    /// The label value, e.g. `porn` or `!hide`.
    pub val: String,
}

/// An `app.bsky.feed.post` record.
#[derive(Debug, Clone, PartialEq)]
pub struct PostRecord {
    /// Post text.
    pub text: String,
    /// Creation time as written by the client.
    pub created_at: String,
    /// Reply references, when the post is a reply.
    pub reply: Option<ReplyRef>,
    /// The embed, when present.
    pub embed: Option<RecordEmbed>,
    /// Rich-text facets.
    pub facets: Option<Vec<WireFacet>>,
    /// Declared languages.
    pub langs: Option<Vec<String>>,
}

/// The parent and root references of a reply.
#[derive(Debug, Clone, PartialEq)]
pub struct ReplyRef {
    /// The thread root.
    pub root: StrongRef,
    /// The direct parent.
    pub parent: StrongRef,
}

/// A reference to a record by URI (the `cid` is ignored).
#[derive(Debug, Clone, PartialEq)]
pub struct StrongRef {
    /// The referenced record's AT URI.
    pub uri: String,
}

/// An embed inside a post record, reduced to what the crawler cares about:
/// whether it quotes another post.
#[derive(Debug, Clone, PartialEq)]
pub enum RecordEmbed {
    /// A quote post.
    Record {
        /// The quoted record.
        record: StrongRef,
    },
    /// A quote post with attached media.
    RecordWithMedia {
        /// The nested record embed.
        record: NestedRecordEmbed,
    },
    /// Images, external links, video, or anything else.
    Other,
}

/// The inner `record` of a `recordWithMedia` embed.
#[derive(Debug, Clone, PartialEq)]
pub struct NestedRecordEmbed {
    /// The quoted record.
    pub record: StrongRef,
}

/// The embed type and quoted URI of an embed that quotes a post.
pub open spec fn spec_quoted(e: RecordEmbed) -> Option<(Seq<char>, Seq<char>)> {
    match e {
        RecordEmbed::Record { record } => Some(("app.bsky.embed.record"@, record.uri@)),
        RecordEmbed::RecordWithMedia { record } => Some(
            ("app.bsky.embed.recordWithMedia"@, record.record.uri@),
        ),
        RecordEmbed::Other => None,
    }
}

impl RecordEmbed {
    /// Returns the embed's `$type` NSID and the quoted URI, if it quotes a post.
    pub fn quoted(&self) -> (r: Option<(&'static str, &str)>)
        ensures
            match spec_quoted(*self) {
                Some((k, u)) => r matches Some(p) && p.0@ == k && p.1@ == u,
                None => r is None,
            },
    {
        match self {
            RecordEmbed::Record { record } => Some(("app.bsky.embed.record", record.uri.as_str())),
            RecordEmbed::RecordWithMedia { record } => Some(
                ("app.bsky.embed.recordWithMedia", record.record.uri.as_str()),
            ),
            RecordEmbed::Other => None,
        }
    }
}

/// A facet as written in the record.
#[derive(Debug, Clone, PartialEq)]
pub struct WireFacet {
    /// The annotated byte span.
    pub index: ByteRange,
    /// The features applied to the span.
    pub features: Vec<WireFeature>,
}

/// A facet feature as written in the record.
#[derive(Debug, Clone, PartialEq)]
pub struct WireFeature {
    /// The feature's `$type` NSID.
    pub kind: String,
    /// Mentioned DID, for mention features.
    pub did: Option<String>,
    /// Link target, for link features.
    pub uri: Option<String>,
    /// Tag text, for tag features.
    pub tag: Option<String>,
}

/// The model feature a wire feature becomes: a known type with its field
/// present, or `Other` carrying the type.
pub open spec fn spec_feature(w: WireFeature) -> FeatureModel {
    if w.kind@ == "app.bsky.richtext.facet#mention"@ && w.did is Some {
        FeatureModel::Mention(w.did.unwrap()@)
    } else if w.kind@ == "app.bsky.richtext.facet#link"@ && w.uri is Some {
        FeatureModel::Link(w.uri.unwrap()@)
    } else if w.kind@ == "app.bsky.richtext.facet#tag"@ && w.tag is Some {
        FeatureModel::Tag(w.tag.unwrap()@)
    } else {
        FeatureModel::Other(w.kind@)
    }
}

/// The model facet a wire facet becomes.
pub open spec fn spec_facet(w: WireFacet) -> FacetModel {
    FacetModel { index: w.index, features: w.features@.map_values(|f: WireFeature| spec_feature(f)) }
}

/// Converts a wire feature into a model feature.
pub fn feature_from_wire(w: &WireFeature) -> (r: FacetFeature)
    ensures
        r@ == spec_feature(*w),
{
    if str_eq(w.kind.as_str(), "app.bsky.richtext.facet#mention") {
        if let Some(did) = &w.did {
            return FacetFeature::Mention { did: did.clone() };
        }
    }
    if str_eq(w.kind.as_str(), "app.bsky.richtext.facet#link") {
        if let Some(uri) = &w.uri {
            return FacetFeature::Link { uri: uri.clone() };
        }
    }
    if str_eq(w.kind.as_str(), "app.bsky.richtext.facet#tag") {
        if let Some(tag) = &w.tag {
            return FacetFeature::Tag { tag: tag.clone() };
        }
    }
    FacetFeature::Other { kind: w.kind.clone() }
}

/// Converts a wire facet into a model facet.
pub fn facet_from_wire(w: &WireFacet) -> (r: Facet)
    ensures
        r@ == spec_facet(*w),
{
    let ghost wf = *w;
    let index = w.index;
    let features = &w.features;
    let mut out: Vec<FacetFeature> = Vec::new();
    let n = features.len();
    let mut i: usize = 0;
    while i < n
        invariant
            n == features@.len(),
            *features == wf.features,
            i <= n,
            out@.len() == i,
            forall|k: int| 0 <= k < i ==> #[trigger] out@[k]@ == spec_feature(features@[k]),
        decreases n - i,
    {
        out.push(feature_from_wire(&features[i]));
        i += 1;
    }
    let r = Facet { index, features: out };
    assert(features_view(r.features@) =~= wf.features@.map_values(|f: WireFeature| spec_feature(f)));
    r
}

impl vstd::std_specs::convert::FromSpecImpl<WireFeature> for FacetFeature {
    open spec fn obeys_from_spec() -> bool {
        false
    }

    open spec fn from_spec(v: WireFeature) -> FacetFeature {
        choose|f: FacetFeature| f@ == spec_feature(v)
    }
}

impl From<WireFeature> for FacetFeature {
    fn from(feature: WireFeature) -> (r: FacetFeature)
        ensures
            r@ == spec_feature(feature),
    {
        feature_from_wire(&feature)
    }
}

impl vstd::std_specs::convert::FromSpecImpl<WireFacet> for Facet {
    open spec fn obeys_from_spec() -> bool {
        false
    }

    open spec fn from_spec(v: WireFacet) -> Facet {
        choose|f: Facet| f@ == spec_facet(v)
    }
}

impl From<WireFacet> for Facet {
    fn from(facet: WireFacet) -> (r: Facet)
        ensures
            r@ == spec_facet(facet),
    {
        facet_from_wire(&facet)
    }
}

/// An optional string, empty when absent.
pub open spec fn or_empty(o: Option<String>) -> Seq<char> {
    match o {
        Some(s) => s@,
        None => Seq::<char>::empty(),
    }
}

/// An optional count, zero when absent.
pub open spec fn or_zero(o: Option<u32>) -> u32 {
    match o {
        Some(n) => n,
        None => 0,
    }
}

/// The labels' values, in order.
pub open spec fn label_values(o: Option<Vec<Label>>) -> Seq<Seq<char>> {
    match o {
        Some(v) => v@.map_values(|l: Label| l.val@),
        None => Seq::<Seq<char>>::empty(),
    }
}

/// The model post a post view becomes.
pub open spec fn spec_post_from_view(v: PostView) -> PostModel {
    PostModel {
        uri: v.uri@,
        cid: v.cid@,
        author: AuthorModel {
            did: v.author.did@,
            handle: v.author.handle@,
            display_name: or_empty(v.author.display_name),
        },
        text: v.record.text@,
        created_at: v.record.created_at@,
        reply_parent: match v.record.reply {
            Some(r) => Some(r.parent.uri@),
            None => None,
        },
        reply_root: match v.record.reply {
            Some(r) => Some(r.root.uri@),
            None => None,
        },
        embed_type: match v.record.embed {
            Some(e) => match spec_quoted(e) {
                Some((k, u)) => Some(k),
                None => None,
            },
            None => None,
        },
        embed_uri: match v.record.embed {
            Some(e) => match spec_quoted(e) {
                Some((k, u)) => Some(u),
                None => None,
            },
            None => None,
        },
        facets: match v.record.facets {
            Some(f) => f@.map_values(|x: WireFacet| spec_facet(x)),
            None => Seq::<FacetModel>::empty(),
        },
        labels: label_values(v.labels),
        langs: match v.record.langs {
            Some(l) => strings_view(l@),
            None => Seq::<Seq<char>>::empty(),
        },
        like_count: or_zero(v.like_count),
        reply_count: or_zero(v.reply_count),
        repost_count: or_zero(v.repost_count),
        quote_count: or_zero(v.quote_count),
    }
}

/// Copies an optional count.
fn count_or_zero(o: &Option<u32>) -> (r: u32)
    ensures
        r == or_zero(*o),
{
    match o {
        Some(n) => *n,
        None => 0,
    }
}

/// Converts a post view into a model post.
pub fn post_from_view(view: &PostView) -> (r: Post)
    ensures
        r@ == spec_post_from_view(*view),
{
    let (reply_parent, reply_root) = match &view.record.reply {
        Some(r) => (Some(r.parent.uri.clone()), Some(r.root.uri.clone())),
        None => (None, None),
    };
    let (embed_type, embed_uri) = match &view.record.embed {
        Some(e) => match e.quoted() {
            Some((kind, quoted)) => (Some(String::from_str(kind)), Some(String::from_str(quoted))),
            None => (None, None),
        },
        None => (None, None),
    };
    let mut out_facets: Vec<Facet> = Vec::new();
    match &view.record.facets {
        Some(fs) => {
            let n = fs.len();
            let mut i: usize = 0;
            while i < n
                invariant
                    n == fs@.len(),
                    view.record.facets == Some(*fs),
                    i <= n,
                    out_facets@.len() == i,
                    forall|k: int| 0 <= k < i ==> #[trigger] out_facets@[k]@ == spec_facet(fs@[k]),
                decreases n - i,
            {
                out_facets.push(facet_from_wire(&fs[i]));
                i += 1;
            }
            assert(facets_view(out_facets@) =~= fs@.map_values(|x: WireFacet| spec_facet(x)));
        },
        None => {
            assert(facets_view(out_facets@) =~= Seq::<FacetModel>::empty());
        },
    }
    let mut out_labels: Vec<String> = Vec::new();
    match &view.labels {
        Some(ls) => {
            let n = ls.len();
            let mut i: usize = 0;
            while i < n
                invariant
                    n == ls@.len(),
                    view.labels == Some(*ls),
                    i <= n,
                    out_labels@.len() == i,
                    forall|k: int| 0 <= k < i ==> #[trigger] out_labels@[k]@ == ls@[k].val@,
                decreases n - i,
            {
                out_labels.push(ls[i].val.clone());
                i += 1;
            }
            assert(strings_view(out_labels@) =~= label_values(view.labels));
        },
        None => {
            assert(strings_view(out_labels@) =~= label_values(view.labels));
        },
    }
    let out_langs = match &view.record.langs {
        Some(l) => clone_strings(l),
        None => {
            let e: Vec<String> = Vec::new();
            assert(strings_view(e@) =~= Seq::<Seq<char>>::empty());
            e
        },
    };
    Post {
        uri: view.uri.clone(),
        cid: view.cid.clone(),
        author: Author {
            did: view.author.did.clone(),
            handle: view.author.handle.clone(),
            display_name: match &view.author.display_name {
                Some(d) => d.clone(),
                None => String::new(),
            },
        },
        text: view.record.text.clone(),
        created_at: view.record.created_at.clone(),
        reply_parent,
        reply_root,
        embed_type,
        embed_uri,
        facets: out_facets,
        labels: out_labels,
        langs: out_langs,
        like_count: count_or_zero(&view.like_count),
        reply_count: count_or_zero(&view.reply_count),
        repost_count: count_or_zero(&view.repost_count),
        quote_count: count_or_zero(&view.quote_count),
    }
}

impl vstd::std_specs::convert::FromSpecImpl<PostView> for Post {
    open spec fn obeys_from_spec() -> bool {
        false
    }

    open spec fn from_spec(v: PostView) -> Post {
        choose|p: Post| p@ == spec_post_from_view(v)
    }
}

impl From<PostView> for Post {
    fn from(view: PostView) -> (r: Post)
        ensures
            r@ == spec_post_from_view(view),
    {
        post_from_view(&view)
    }
}

} // verus!
