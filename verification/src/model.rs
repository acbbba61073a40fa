//! Data model for the Context Web graph: posts, reply trees (threads), and
//! the quote edges that link them.
use indexmap::IndexMap;
use vstd::prelude::*;
use vstd::string::*;

use crate::strings::str_eq;

use crate::ordered_map::{
    distinct_keys, first_key_at, has_key, insert_entry, key_pos, lemma_key_pos, lemma_update_all,
    lemma_update_value,
    lookup,
    post_entries, post_map_get, post_map_get_index, post_map_get_mut, post_map_insert, post_map_len, post_map_new,
    remove_entry, thread_entries, thread_map_get, thread_map_get_index, thread_map_get_mut,
    thread_map_insert, thread_map_len, thread_map_new, thread_map_shift_remove,
};

verus! {

/// Storage format version written into the `meta` envelope.
pub const FORMAT_VERSION: u32 = 2;

/// A post's author.
#[derive(Debug, PartialEq, Eq)]
pub struct Author {
    /// Decentralized identifier, e.g. `did:plc:...`.
    pub did: String,
    /// Handle, e.g. `alice.bsky.social`.
    pub handle: String,
    /// Display name; empty when the profile has none.
    pub display_name: String,
}

/// The abstract value of an [`Author`].
pub struct AuthorModel {
    pub did: Seq<char>,
    pub handle: Seq<char>,
    pub display_name: Seq<char>,
}

impl View for Author {
    type V = AuthorModel;

    open spec fn view(&self) -> AuthorModel {
        AuthorModel { did: self.did@, handle: self.handle@, display_name: self.display_name@ }
    }
}

impl Clone for Author {
    fn clone(&self) -> (r: Self)
        ensures
            r@ == self@,
    {
        Author {
            did: self.did.clone(),
            handle: self.handle.clone(),
            display_name: self.display_name.clone(),
        }
    }
}

/// A byte span inside post text, as used by rich-text facets.
#[derive(Debug, Clone, Copy, PartialEq, Eq)]
pub struct ByteRange {
    /// Inclusive start offset in UTF-8 bytes.
    pub byte_start: usize,
    /// Exclusive end offset in UTF-8 bytes.
    pub byte_end: usize,
}

/// One rich-text annotation feature.
#[derive(Debug, PartialEq, Eq)]
pub enum FacetFeature {
    /// A mention of another account.
    Mention {
        /// The mentioned account's DID.
        did: String,
    },
    /// A hyperlink.
    Link {
        /// The link target.
        uri: String,
    },
    /// A hashtag.
    Tag {
        /// The tag text without the `#`.
        tag: String,
    },
    /// A feature type this crate does not know.
    Other {
        /// The feature's `$type` NSID.
        kind: String,
    },
}

/// The abstract value of a [`FacetFeature`].
pub enum FeatureModel {
    Mention(Seq<char>),
    Link(Seq<char>),
    Tag(Seq<char>),
    Other(Seq<char>),
}

impl View for FacetFeature {
    type V = FeatureModel;

    open spec fn view(&self) -> FeatureModel {
        match self {
            FacetFeature::Mention { did } => FeatureModel::Mention(did@),
            FacetFeature::Link { uri } => FeatureModel::Link(uri@),
            FacetFeature::Tag { tag } => FeatureModel::Tag(tag@),
            FacetFeature::Other { kind } => FeatureModel::Other(kind@),
        }
    }
}

impl Clone for FacetFeature {
    fn clone(&self) -> (r: Self)
        ensures
            r@ == self@,
    {
        match self {
            FacetFeature::Mention { did } => FacetFeature::Mention { did: did.clone() },
            FacetFeature::Link { uri } => FacetFeature::Link { uri: uri.clone() },
            FacetFeature::Tag { tag } => FacetFeature::Tag { tag: tag.clone() },
            FacetFeature::Other { kind } => FacetFeature::Other { kind: kind.clone() },
        }
    }
}

/// The flat form a facet feature is stored in: a kind name beside the one
/// field that kind uses.
#[derive(Debug, PartialEq, Eq)]
pub struct RawFeature {
    /// `mention`, `link`, `tag`, or the NSID of a kind this crate does not know.
    pub kind: String,
    /// The mentioned DID, for a mention.
    pub did: Option<String>,
    /// The link target, for a link.
    pub uri: Option<String>,
    /// The tag text, for a tag.
    pub tag: Option<String>,
}

/// The abstract value of a [`RawFeature`].
pub struct RawFeatureModel {
    pub kind: Seq<char>,
    pub did: Option<Seq<char>>,
    pub uri: Option<Seq<char>>,
    pub tag: Option<Seq<char>>,
}

impl View for RawFeature {
    type V = RawFeatureModel;

    open spec fn view(&self) -> RawFeatureModel {
        RawFeatureModel {
            kind: self.kind@,
            did: opt_view(self.did),
            uri: opt_view(self.uri),
            tag: opt_view(self.tag),
        }
    }
}

/// The feature a stored record reads back as: a known kind with its field
/// present, else [`FacetFeature::Other`] under the stored kind.
pub open spec fn spec_feature_from_raw(r: RawFeatureModel) -> FeatureModel {
    if r.kind == "mention"@ && r.did is Some {
        FeatureModel::Mention(r.did.unwrap())
    } else if r.kind == "link"@ && r.uri is Some {
        FeatureModel::Link(r.uri.unwrap())
    } else if r.kind == "tag"@ && r.tag is Some {
        FeatureModel::Tag(r.tag.unwrap())
    } else {
        FeatureModel::Other(r.kind)
    }
}

/// The stored record of a feature.
pub open spec fn spec_raw_from_feature(f: FeatureModel) -> RawFeatureModel {
    match f {
        FeatureModel::Mention(d) => RawFeatureModel { kind: "mention"@, did: Some(d), uri: None, tag: None },
        FeatureModel::Link(u) => RawFeatureModel { kind: "link"@, did: None, uri: Some(u), tag: None },
        FeatureModel::Tag(t) => RawFeatureModel { kind: "tag"@, did: None, uri: None, tag: Some(t) },
        FeatureModel::Other(k) => RawFeatureModel { kind: k, did: None, uri: None, tag: None },
    }
}

/// Reads a feature back from its stored record.
pub fn feature_from_raw(raw: &RawFeature) -> (r: FacetFeature)
    ensures
        r@ == spec_feature_from_raw(raw@),
{
    if str_eq(raw.kind.as_str(), "mention") {
        if let Some(did) = &raw.did {
            return FacetFeature::Mention { did: did.clone() };
        }
    }
    if str_eq(raw.kind.as_str(), "link") {
        if let Some(uri) = &raw.uri {
            return FacetFeature::Link { uri: uri.clone() };
        }
    }
    if str_eq(raw.kind.as_str(), "tag") {
        if let Some(tag) = &raw.tag {
            return FacetFeature::Tag { tag: tag.clone() };
        }
    }
    FacetFeature::Other { kind: raw.kind.clone() }
}

/// Writes a feature as its stored record.
pub fn raw_from_feature(f: &FacetFeature) -> (r: RawFeature)
    ensures
        r@ == spec_raw_from_feature(f@),
{
    match f {
        FacetFeature::Mention { did } => RawFeature {
            kind: String::from_str("mention"),
            did: Some(did.clone()),
            uri: None,
            tag: None,
        },
        FacetFeature::Link { uri } => RawFeature {
            kind: String::from_str("link"),
            did: None,
            uri: Some(uri.clone()),
            tag: None,
        },
        FacetFeature::Tag { tag } => RawFeature {
            kind: String::from_str("tag"),
            did: None,
            uri: None,
            tag: Some(tag.clone()),
        },
        FacetFeature::Other { kind } => RawFeature { kind: kind.clone(), did: None, uri: None, tag: None },
    }
}

/// A feature written to storage reads back as itself, whatever its kind,
/// an unknown kind included.
pub proof fn lemma_raw_feature_roundtrip(f: FeatureModel)
    ensures
        spec_feature_from_raw(spec_raw_from_feature(f)) == f,
{
    reveal_strlit("mention");
    reveal_strlit("link");
    reveal_strlit("tag");
}

impl vstd::std_specs::convert::FromSpecImpl<RawFeature> for FacetFeature {
    open spec fn obeys_from_spec() -> bool {
        false
    }

    open spec fn from_spec(v: RawFeature) -> FacetFeature {
        choose|f: FacetFeature| f@ == spec_feature_from_raw(v@)
    }
}

impl From<RawFeature> for FacetFeature {
    fn from(raw: RawFeature) -> (r: FacetFeature)
        ensures
            r@ == spec_feature_from_raw(raw@),
    {
        feature_from_raw(&raw)
    }
}

impl vstd::std_specs::convert::FromSpecImpl<FacetFeature> for RawFeature {
    open spec fn obeys_from_spec() -> bool {
        false
    }

    open spec fn from_spec(v: FacetFeature) -> RawFeature {
        choose|r: RawFeature| r@ == spec_raw_from_feature(v@)
    }
}

impl From<FacetFeature> for RawFeature {
    fn from(feature: FacetFeature) -> (r: RawFeature)
        ensures
            r@ == spec_raw_from_feature(feature@),
    {
        raw_from_feature(&feature)
    }
}

/// A rich-text annotation over a byte span of the post text.
#[derive(Debug, PartialEq, Eq)]
pub struct Facet {
    /// The annotated span.
    pub index: ByteRange,
    /// The features applied to the span.
    pub features: Vec<FacetFeature>,
}

/// The abstract value of a [`Facet`].
pub struct FacetModel {
    pub index: ByteRange,
    pub features: Seq<FeatureModel>,
}

/// The abstract values of a sequence of features.
pub open spec fn features_view(v: Seq<FacetFeature>) -> Seq<FeatureModel> {
    v.map_values(|f: FacetFeature| f@)
}

impl View for Facet {
    type V = FacetModel;

    open spec fn view(&self) -> FacetModel {
        FacetModel { index: self.index, features: features_view(self.features@) }
    }
}

impl Clone for Facet {
    fn clone(&self) -> (r: Self)
        ensures
            r@ == self@,
    {
        let mut features: Vec<FacetFeature> = Vec::new();
        let n = self.features.len();
        let mut i: usize = 0;
        while i < n
            invariant
                n == self.features@.len(),
                i <= n,
                features@.len() == i,
                forall|k: int| 0 <= k < i ==> #[trigger] features@[k]@ == self.features@[k]@,
            decreases n - i,
        {
            features.push(self.features[i].clone());
            i += 1;
        }
        let r = Facet { index: self.index, features };
        assert(features_view(r.features@) =~= features_view(self.features@));
        r
    }
}

/// The abstract values of a sequence of strings.
pub open spec fn strings_view(v: Seq<String>) -> Seq<Seq<char>> {
    v.map_values(|s: String| s@)
}

/// The abstract values of a sequence of facets.
pub open spec fn facets_view(v: Seq<Facet>) -> Seq<FacetModel> {
    v.map_values(|f: Facet| f@)
}

/// The abstract value of an optional string.
pub open spec fn opt_view(o: Option<String>) -> Option<Seq<char>> {
    match o {
        Some(s) => Some(s@),
        None => None,
    }
}

/// Copies a vector of strings.
pub fn clone_strings(v: &Vec<String>) -> (r: Vec<String>)
    ensures
        strings_view(r@) == strings_view(v@),
{
    let mut out: Vec<String> = Vec::new();
    let n = v.len();
    let mut i: usize = 0;
    while i < n
        invariant
            n == v@.len(),
            i <= n,
            out@.len() == i,
            forall|k: int| 0 <= k < i ==> #[trigger] out@[k]@ == v@[k]@,
        decreases n - i,
    {
        out.push(v[i].clone());
        i += 1;
    }
    assert(strings_view(out@) =~= strings_view(v@));
    out
}

/// Copies a vector of facets.
pub fn clone_facets(v: &Vec<Facet>) -> (r: Vec<Facet>)
    ensures
        facets_view(r@) == facets_view(v@),
{
    let mut out: Vec<Facet> = Vec::new();
    let n = v.len();
    let mut i: usize = 0;
    while i < n
        invariant
            n == v@.len(),
            i <= n,
            out@.len() == i,
            forall|k: int| 0 <= k < i ==> #[trigger] out@[k]@ == v@[k]@,
        decreases n - i,
    {
        out.push(v[i].clone());
        i += 1;
    }
    assert(facets_view(out@) =~= facets_view(v@));
    out
}

/// Copies an optional string.
pub fn clone_opt(o: &Option<String>) -> (r: Option<String>)
    ensures
        opt_view(r) == opt_view(*o),
{
    match o {
        Some(s) => Some(s.clone()),
        None => None,
    }
}

/// A single post node in the context web.
#[derive(Debug, PartialEq, Eq)]
pub struct Post {
    /// Canonical AT URI.
    pub uri: String,
    /// Content identifier.
    pub cid: String,
    /// The author.
    pub author: Author,
    /// Post text.
    pub text: String,
    /// Creation time as an ISO 8601 / RFC 3339 string.
    pub created_at: String,
    /// URI of the post this one replies to.
    pub reply_parent: Option<String>,
    /// URI of the root of the reply thread this post belongs to.
    pub reply_root: Option<String>,
    /// Embed type NSID when the post quotes another post.
    pub embed_type: Option<String>,
    /// URI of the quoted post.
    pub embed_uri: Option<String>,
    /// Rich-text annotations.
    pub facets: Vec<Facet>,
    /// Moderation label values applied to the post.
    pub labels: Vec<String>,
    /// Declared languages.
    pub langs: Vec<String>,
    /// Like count at crawl time.
    pub like_count: u32,
    /// Reply count at crawl time.
    pub reply_count: u32,
    /// Repost count at crawl time.
    pub repost_count: u32,
    /// Quote count at crawl time.
    pub quote_count: u32,
}

/// The abstract value of a [`Post`].
pub struct PostModel {
    pub uri: Seq<char>,
    pub cid: Seq<char>,
    pub author: AuthorModel,
    pub text: Seq<char>,
    pub created_at: Seq<char>,
    pub reply_parent: Option<Seq<char>>,
    pub reply_root: Option<Seq<char>>,
    pub embed_type: Option<Seq<char>>,
    pub embed_uri: Option<Seq<char>>,
    pub facets: Seq<FacetModel>,
    pub labels: Seq<Seq<char>>,
    pub langs: Seq<Seq<char>>,
    pub like_count: u32,
    pub reply_count: u32,
    pub repost_count: u32,
    pub quote_count: u32,
}

impl View for Post {
    type V = PostModel;

    open spec fn view(&self) -> PostModel {
        PostModel {
            uri: self.uri@,
            cid: self.cid@,
            author: self.author@,
            text: self.text@,
            created_at: self.created_at@,
            reply_parent: opt_view(self.reply_parent),
            reply_root: opt_view(self.reply_root),
            embed_type: opt_view(self.embed_type),
            embed_uri: opt_view(self.embed_uri),
            facets: facets_view(self.facets@),
            labels: strings_view(self.labels@),
            langs: strings_view(self.langs@),
            like_count: self.like_count,
            reply_count: self.reply_count,
            repost_count: self.repost_count,
            quote_count: self.quote_count,
        }
    }
}

impl Clone for Post {
    fn clone(&self) -> (r: Self)
        ensures
            r@ == self@,
    {
        Post {
            uri: self.uri.clone(),
            cid: self.cid.clone(),
            author: self.author.clone(),
            text: self.text.clone(),
            created_at: self.created_at.clone(),
            reply_parent: clone_opt(&self.reply_parent),
            reply_root: clone_opt(&self.reply_root),
            embed_type: clone_opt(&self.embed_type),
            embed_uri: clone_opt(&self.embed_uri),
            facets: clone_facets(&self.facets),
            labels: clone_strings(&self.labels),
            langs: clone_strings(&self.langs),
            like_count: self.like_count,
            reply_count: self.reply_count,
            repost_count: self.repost_count,
            quote_count: self.quote_count,
        }
    }
}

/// Likes + reposts + quotes.
pub open spec fn spec_engagement(p: PostModel) -> int {
    p.like_count + p.repost_count + p.quote_count
}

impl Post {
    /// Creates a post with the required fields and every optional field empty.
    pub fn new(uri: &str, cid: &str, author: Author, text: &str, created_at: &str) -> (r: Post)
        ensures
            r@.uri == uri@,
            r@.cid == cid@,
            r@.author == author@,
            r@.text == text@,
            r@.created_at == created_at@,
            r@.reply_parent is None,
            r@.reply_root is None,
            r@.embed_type is None,
            r@.embed_uri is None,
            r@.facets.len() == 0,
            r@.labels.len() == 0,
            r@.langs.len() == 0,
            r@.like_count == 0,
            r@.reply_count == 0,
            r@.repost_count == 0,
            r@.quote_count == 0,
    {
        Post {
            uri: String::from_str(uri),
            cid: String::from_str(cid),
            author,
            text: String::from_str(text),
            created_at: String::from_str(created_at),
            reply_parent: None,
            reply_root: None,
            embed_type: None,
            embed_uri: None,
            facets: Vec::new(),
            labels: Vec::new(),
            langs: Vec::new(),
            like_count: 0,
            reply_count: 0,
            repost_count: 0,
            quote_count: 0,
        }
    }

    /// Returns likes + reposts + quotes.
    ///
    /// The sum is taken in `u32`, so it must fit there.
    pub fn engagement(&self) -> (r: u32)
        requires
            spec_engagement(self@) <= u32::MAX,
        ensures
            r == spec_engagement(self@),
    {
        self.like_count + self.repost_count + self.quote_count
    }

    /// Likes + reposts + quotes, widened so that it never overflows.
    pub fn engagement_wide(&self) -> (r: u64)
        ensures
            r == spec_engagement(self@),
    {
        self.like_count as u64 + self.repost_count as u64 + self.quote_count as u64
    }
}

/// A quote relationship between posts, possibly across threads.
#[derive(Debug, PartialEq, Eq)]
pub struct QuoteEdge {
    /// URI of the quoted post.
    pub source: String,
    /// URI of the quoting post.
    pub target: String,
    /// Root URI of the thread containing `source`.
    pub source_thread: String,
    /// Root URI of the thread containing `target`.
    pub target_thread: String,
}

/// The abstract value of a [`QuoteEdge`].
pub struct EdgeModel {
    pub source: Seq<char>,
    pub target: Seq<char>,
    pub source_thread: Seq<char>,
    pub target_thread: Seq<char>,
}

impl View for QuoteEdge {
    type V = EdgeModel;

    open spec fn view(&self) -> EdgeModel {
        EdgeModel {
            source: self.source@,
            target: self.target@,
            source_thread: self.source_thread@,
            target_thread: self.target_thread@,
        }
    }
}

impl Clone for QuoteEdge {
    fn clone(&self) -> (r: Self)
        ensures
            r@ == self@,
    {
        QuoteEdge {
            source: self.source.clone(),
            target: self.target.clone(),
            source_thread: self.source_thread.clone(),
            target_thread: self.target_thread.clone(),
        }
    }
}

/// The abstract values of a sequence of quote edges.
pub open spec fn edges_view(v: Seq<QuoteEdge>) -> Seq<EdgeModel> {
    v.map_values(|e: QuoteEdge| e@)
}

/// A reply tree rooted at one post: the atomic crawl unit.
///
/// Posts keep insertion order, which lenses rely on for stable output.
#[derive(Debug, PartialEq, Eq)]
pub struct Thread {
    /// URI of the thread's root post.
    pub root_uri: String,
    /// Posts in the thread, keyed by URI.
    pub posts: IndexMap<String, Post>,
}

/// The abstract value of a [`Thread`].
pub struct ThreadModel {
    pub root_uri: Seq<char>,
    pub posts: Seq<(Seq<char>, PostModel)>,
}

impl View for Thread {
    type V = ThreadModel;

    open spec fn view(&self) -> ThreadModel {
        ThreadModel { root_uri: self.root_uri@, posts: post_entries(self.posts) }
    }
}

impl Thread {
    /// Creates an empty thread.
    pub fn new(root_uri: &str) -> (r: Thread)
        ensures
            r@.root_uri == root_uri@,
            r@.posts == Seq::<(Seq<char>, PostModel)>::empty(),
    {
        Thread { root_uri: String::from_str(root_uri), posts: post_map_new() }
    }

    /// Returns the number of posts in the thread.
    pub fn post_count(&self) -> (r: usize)
        ensures
            r == self@.posts.len(),
    {
        post_map_len(&self.posts)
    }

    /// Returns the root post, if it has been fetched.
    pub fn root_post(&self) -> (r: Option<&Post>)
        ensures
            match lookup(self@.posts, self@.root_uri) {
                Some(v) => r matches Some(p) && p@ == v,
                None => r is None,
            },
    {
        post_map_get(&self.posts, self.root_uri.as_str())
    }
}

/// The abstract value of a post index: URI to thread root, in insertion order.
pub open spec fn pairs_view(v: Seq<(String, String)>) -> Seq<(Seq<char>, Seq<char>)> {
    v.map_values(|p: (String, String)| (p.0@, p.1@))
}

/// Inserting keeps keys distinct.
pub proof fn lemma_insert_distinct<V>(e: Seq<(Seq<char>, V)>, k: Seq<char>, v: V)
    requires
        distinct_keys(e),
    ensures
        distinct_keys(insert_entry(e, k, v)),
        has_key(insert_entry(e, k, v), k),
{
    if has_key(e, k) {
        lemma_key_pos(e, k);
        let p = key_pos(e, k);
        assert(insert_entry(e, k, v)[p].0 == k);
    } else {
        assert(insert_entry(e, k, v)[e.len() as int].0 == k);
    }
}

/// Removing keeps keys distinct and drops the key.
pub proof fn lemma_remove_distinct<V>(e: Seq<(Seq<char>, V)>, k: Seq<char>)
    requires
        distinct_keys(e),
    ensures
        distinct_keys(remove_entry(e, k)),
        !has_key(remove_entry(e, k), k),
{
    if has_key(e, k) {
        lemma_key_pos(e, k);
        let p = key_pos(e, k);
        let r = e.remove(p);
        assert forall|i: int| 0 <= i < r.len() implies (#[trigger] r[i]).0 != k by {
            if i < p {
                assert(r[i] == e[i]);
            } else {
                assert(r[i] == e[i + 1]);
            }
        }
        assert forall|i: int, j: int| 0 <= i < r.len() && 0 <= j < r.len() && i != j implies (#[trigger] r[i]).0 != (#[trigger] r[j]).0 by {
            let ii = if i < p { i } else { i + 1 };
            let jj = if j < p { j } else { j + 1 };
            assert(r[i] == e[ii]);
            assert(r[j] == e[jj]);
        }
    }
}

/// An index from post URI to the root URI of the thread holding it, with
/// every key at most once.
#[derive(Debug, PartialEq, Eq)]
pub struct UriIndex {
    entries: Vec<(String, String)>,
}

impl View for UriIndex {
    type V = Seq<(Seq<char>, Seq<char>)>;

    closed spec fn view(&self) -> Seq<(Seq<char>, Seq<char>)> {
        pairs_view(self.entries@)
    }
}

impl UriIndex {
    /// No key occurs twice.
    pub open spec fn wf(&self) -> bool {
        distinct_keys(self@)
    }

    /// An empty index.
    pub fn new() -> (r: UriIndex)
        ensures
            r@ == Seq::<(Seq<char>, Seq<char>)>::empty(),
            r.wf(),
    {
        let r = UriIndex { entries: Vec::new() };
        assert(r@ =~= Seq::<(Seq<char>, Seq<char>)>::empty());
        r
    }

    /// The number of keys.
    pub fn len(&self) -> (r: usize)
        ensures
            r == self@.len(),
    {
        self.entries.len()
    }

    /// The position of a key.
    fn position(&self, k: &str) -> (r: Option<usize>)
        ensures
            match r {
                Some(i) => has_key(self@, k@) && i == key_pos(self@, k@) && i < self@.len(),
                None => !has_key(self@, k@),
            },
    {
        let n = self.entries.len();
        let mut i: usize = 0;
        while i < n
            invariant
                n == self@.len(),
                n == self.entries@.len(),
                i <= n,
                forall|j: int| 0 <= j < i ==> (#[trigger] self@[j]).0 != k@,
            decreases n - i,
        {
            if crate::strings::str_eq(self.entries[i].0.as_str(), k) {
                proof {
                    assert(self@[i as int].0 == k@);
                    assert(first_key_at(self@, k@, i as int));
                    lemma_key_pos(self@, k@);
                    let p = key_pos(self@, k@);
                    if p < i {
                        assert(self@[p].0 != k@);
                    }
                    if p > i {
                        assert(self@[i as int].0 != k@);
                    }
                }
                return Some(i);
            }
            i += 1;
        }
        None
    }

    /// The value under a key.
    pub fn get(&self, k: &str) -> (r: Option<&String>)
        ensures
            match lookup(self@, k@) {
                Some(v) => r matches Some(s) && s@ == v,
                None => r is None,
            },
    {
        match self.position(k) {
            Some(i) => Some(&self.entries[i].1),
            None => None,
        }
    }

    /// Sets the value under a key, keeping an existing key in place.
    pub fn insert(&mut self, k: String, v: String)
        requires
            old(self).wf(),
        ensures
            final(self)@ == insert_entry(old(self)@, k@, v@),
            final(self).wf(),
    {
        proof {
            lemma_insert_distinct(self@, k@, v@);
        }
        match self.position(k.as_str()) {
            Some(i) => {
                let ghost kv = k@;
                self.entries.set(i, (k, v));
                assert(self@ =~= old(self)@.update(i as int, (kv, v@)));
            },
            None => {
                let ghost kv = k@;
                self.entries.push((k, v));
                assert(self@ =~= old(self)@.push((kv, v@)));
            },
        }
    }

    /// Removes a key, keeping the order of the rest.
    pub fn remove(&mut self, k: &str)
        requires
            old(self).wf(),
        ensures
            final(self)@ == remove_entry(old(self)@, k@),
            final(self).wf(),
    {
        proof {
            lemma_remove_distinct(self@, k@);
        }
        match self.position(k) {
            Some(i) => {
                self.entries.remove(i);
                assert(self@ =~= old(self)@.remove(i as int));
            },
            None => {},
        }
    }
}

/// The index after recording every post of a thread under `root`.
pub open spec fn add_keys(
    idx: Seq<(Seq<char>, Seq<char>)>,
    posts: Seq<(Seq<char>, PostModel)>,
    root: Seq<char>,
) -> Seq<(Seq<char>, Seq<char>)>
    decreases posts.len(),
{
    if posts.len() == 0 {
        idx
    } else {
        insert_entry(add_keys(idx, posts.drop_last(), root), posts.last().0, root)
    }
}

/// The index after forgetting every post of a thread.
pub open spec fn remove_keys(
    idx: Seq<(Seq<char>, Seq<char>)>,
    posts: Seq<(Seq<char>, PostModel)>,
) -> Seq<(Seq<char>, Seq<char>)>
    decreases posts.len(),
{
    if posts.len() == 0 {
        idx
    } else {
        remove_entry(remove_keys(idx, posts.drop_last()), posts.last().0)
    }
}

/// The threads after adding a post under `root`, creating the thread if needed.
pub open spec fn threads_add_post(
    th: Seq<(Seq<char>, ThreadModel)>,
    root: Seq<char>,
    p: PostModel,
) -> Seq<(Seq<char>, ThreadModel)> {
    if has_key(th, root) {
        let i = key_pos(th, root);
        th.update(
            i,
            (th[i].0, ThreadModel { root_uri: th[i].1.root_uri, posts: insert_entry(th[i].1.posts, p.uri, p) }),
        )
    } else {
        th.push((root, ThreadModel { root_uri: root, posts: seq![(p.uri, p)] }))
    }
}

/// The values of a sequence of entries, in order.
pub open spec fn entry_values(e: Seq<(Seq<char>, PostModel)>) -> Seq<PostModel> {
    e.map_values(|x: (Seq<char>, PostModel)| x.1)
}

/// Every post across all threads, thread by thread, in order.
pub open spec fn web_posts(th: Seq<(Seq<char>, ThreadModel)>) -> Seq<PostModel>
    decreases th.len(),
{
    if th.len() == 0 {
        Seq::<PostModel>::empty()
    } else {
        web_posts(th.drop_last()) + entry_values(th.last().1.posts)
    }
}

/// How many of the posts reply to another post.
pub open spec fn count_replies(s: Seq<PostModel>) -> nat
    decreases s.len(),
{
    if s.len() == 0 {
        0
    } else {
        count_replies(s.drop_last()) + if s.last().reply_parent is Some {
            1nat
        } else {
            0nat
        }
    }
}

/// A count capped at `usize::MAX`.
pub open spec fn saturated(n: nat) -> nat {
    if n > usize::MAX {
        usize::MAX as nat
    } else {
        n
    }
}

/// Both ends of an edge are posts of the web.
pub open spec fn edge_known(idx: Seq<(Seq<char>, Seq<char>)>, e: EdgeModel) -> bool {
    has_key(idx, e.source) && has_key(idx, e.target)
}

/// Some edge in `out` joins the same two posts as `e`.
pub open spec fn seen_pair(out: Seq<EdgeModel>, e: EdgeModel) -> bool {
    exists|k: int| 0 <= k < out.len() && (#[trigger] out[k]).source == e.source && out[k].target == e.target
}

/// The edges with stale thread references fixed, orphans dropped, and
/// duplicates (same source and target) removed, first occurrence kept.
pub open spec fn normalized(edges: Seq<EdgeModel>, idx: Seq<(Seq<char>, Seq<char>)>) -> Seq<EdgeModel>
    decreases edges.len(),
{
    if edges.len() == 0 {
        Seq::<EdgeModel>::empty()
    } else {
        let r = normalized(edges.drop_last(), idx);
        let e = edges.last();
        if edge_known(idx, e) && !seen_pair(r, e) {
            r.push(
                EdgeModel {
                    source: e.source,
                    target: e.target,
                    source_thread: lookup(idx, e.source).unwrap(),
                    target_thread: lookup(idx, e.target).unwrap(),
                },
            )
        } else {
            r
        }
    }
}

/// An edge with each thread end named `from` renamed to `to`.
pub open spec fn retarget_edge(e: EdgeModel, from: Seq<char>, to: Seq<char>) -> EdgeModel {
    EdgeModel {
        source: e.source,
        target: e.target,
        source_thread: if e.source_thread == from { to } else { e.source_thread },
        target_thread: if e.target_thread == from { to } else { e.target_thread },
    }
}

/// Every edge retargeted from thread `from` to thread `to`.
pub open spec fn retargeted(edges: Seq<EdgeModel>, from: Seq<char>, to: Seq<char>) -> Seq<EdgeModel> {
    edges.map_values(|e: EdgeModel| retarget_edge(e, from, to))
}

/// The complete crawled context graph: threads linked by quotes.
#[derive(Debug)]
pub struct ContextWeb {
    /// URI of the post the crawl started from.
    pub root_uri: String,
    /// When the crawl finished, as an RFC 3339 string.
    pub crawled_at: String,
    /// Quote edges, in discovery order. May contain duplicates until
    /// [`ContextWeb::normalize_quote_edges`] runs.
    pub quote_edges: Vec<QuoteEdge>,
    threads: IndexMap<String, Thread>,
    post_index: UriIndex,
}

/// The abstract value of a [`ContextWeb`].
pub struct WebModel {
    pub root_uri: Seq<char>,
    pub crawled_at: Seq<char>,
    pub quote_edges: Seq<EdgeModel>,
    pub threads: Seq<(Seq<char>, ThreadModel)>,
    pub index: Seq<(Seq<char>, Seq<char>)>,
}

/// The post a web stores under a URI: in the thread its index names.
pub open spec fn web_post_at(w: WebModel, uri: Seq<char>) -> Option<PostModel> {
    match lookup(w.index, uri) {
        Some(root) => match lookup(w.threads, root) {
            Some(t) => lookup(t.posts, uri),
            None => None,
        },
        None => None,
    }
}

/// The threads with the post under `uri` in thread `root` replaced by `p`.
pub open spec fn set_post(
    th: Seq<(Seq<char>, ThreadModel)>,
    root: Seq<char>,
    uri: Seq<char>,
    p: PostModel,
) -> Seq<(Seq<char>, ThreadModel)> {
    let i = key_pos(th, root);
    let t = th[i].1;
    let j = key_pos(t.posts, uri);
    th.update(i, (th[i].0, ThreadModel { root_uri: t.root_uri, posts: t.posts.update(j, (t.posts[j].0, p)) }))
}

impl View for ContextWeb {
    type V = WebModel;

    closed spec fn view(&self) -> WebModel {
        WebModel {
            root_uri: self.root_uri@,
            crawled_at: self.crawled_at@,
            quote_edges: edges_view(self.quote_edges@),
            threads: thread_entries(self.threads),
            index: self.post_index@,
        }
    }
}

impl ContextWeb {
    /// The post index holds every key at most once.
    pub open spec fn wf(&self) -> bool {
        distinct_keys(self@.index)
    }

    /// The post stored under a URI.
    pub open spec fn post_at(&self, uri: Seq<char>) -> Option<PostModel> {
        web_post_at(self@, uri)
    }

    /// Creates an empty web.
    pub fn new(root_uri: &str, crawled_at: &str) -> (r: ContextWeb)
        ensures
            r.wf(),
            r@.root_uri == root_uri@,
            r@.crawled_at == crawled_at@,
            r@.quote_edges.len() == 0,
            r@.threads.len() == 0,
            r@.index.len() == 0,
    {
        let r = ContextWeb {
            root_uri: String::from_str(root_uri),
            crawled_at: String::from_str(crawled_at),
            quote_edges: Vec::new(),
            threads: thread_map_new(),
            post_index: UriIndex::new(),
        };
        assert(r@.quote_edges =~= Seq::<EdgeModel>::empty());
        r
    }

    /// Registers a thread and indexes all its posts, replacing any thread
    /// stored under the same root URI.
    pub fn add_thread(&mut self, thread: Thread)
        requires
            old(self).wf(),
        ensures
            final(self).wf(),
            final(self)@.index == add_keys(old(self)@.index, thread@.posts, thread@.root_uri),
            final(self)@.threads == insert_entry(old(self)@.threads, thread@.root_uri, thread@),
            final(self)@.root_uri == old(self)@.root_uri,
            final(self)@.crawled_at == old(self)@.crawled_at,
            final(self)@.quote_edges == old(self)@.quote_edges,
    {
        let n = post_map_len(&thread.posts);
        let mut i: usize = 0;
        while i < n
            invariant
                n == thread@.posts.len(),
                i <= n,
                self.post_index.wf(),
                self.post_index@ == add_keys(old(self)@.index, thread@.posts.take(i as int), thread@.root_uri),
                self.threads == old(self).threads,
                self.root_uri == old(self).root_uri,
                self.crawled_at == old(self).crawled_at,
                self.quote_edges == old(self).quote_edges,
            decreases n - i,
        {
            let (k, _) = post_map_get_index(&thread.posts, i);
            self.post_index.insert(k.clone(), thread.root_uri.clone());
            proof {
                assert(thread@.posts.take(i + 1).drop_last() =~= thread@.posts.take(i as int));
            }
            i += 1;
        }
        proof {
            assert(thread@.posts.take(n as int) =~= thread@.posts);
        }
        let root = thread.root_uri.clone();
        thread_map_insert(&mut self.threads, root, thread);
    }

    /// Removes a thread and forgets its posts.
    pub fn remove_thread(&mut self, root_uri: &str) -> (r: Option<Thread>)
        requires
            old(self).wf(),
        ensures
            final(self).wf(),
            final(self)@.root_uri == old(self)@.root_uri,
            final(self)@.crawled_at == old(self)@.crawled_at,
            final(self)@.quote_edges == old(self)@.quote_edges,
            match lookup(old(self)@.threads, root_uri@) {
                Some(t) => {
                    &&& r matches Some(x) && x@ == t
                    &&& final(self)@.threads == remove_entry(old(self)@.threads, root_uri@)
                    &&& final(self)@.index == remove_keys(old(self)@.index, t.posts)
                },
                None => r is None && final(self)@ == old(self)@,
            },
            !has_key(final(self)@.threads, root_uri@),
    {
        let ghost th0 = old(self)@.threads;
        let thread = match thread_map_shift_remove(&mut self.threads, root_uri) {
            Some(t) => t,
            None => {
                assert(self@ =~= old(self)@);
                return None;
            },
        };
        proof {
            lemma_remove_distinct(th0, root_uri@);
        }
        let ghost th_after = self.threads;
        let n = post_map_len(&thread.posts);
        let mut i: usize = 0;
        while i < n
            invariant
                n == thread@.posts.len(),
                i <= n,
                self.post_index.wf(),
                self.post_index@ == remove_keys(old(self)@.index, thread@.posts.take(i as int)),
                self.threads == th_after,
                self.root_uri == old(self).root_uri,
                self.crawled_at == old(self).crawled_at,
                self.quote_edges == old(self).quote_edges,
            decreases n - i,
        {
            let (k, _) = post_map_get_index(&thread.posts, i);
            self.post_index.remove(k.as_str());
            proof {
                assert(thread@.posts.take(i + 1).drop_last() =~= thread@.posts.take(i as int));
            }
            i += 1;
        }
        proof {
            assert(thread@.posts.take(n as int) =~= thread@.posts);
        }
        Some(thread)
    }

    /// Adds a post to a thread, creating the thread if needed.
    pub fn add_post(&mut self, thread_root: &str, post: Post)
        requires
            old(self).wf(),
        ensures
            final(self).wf(),
            final(self)@.index == insert_entry(old(self)@.index, post@.uri, thread_root@),
            final(self)@.threads == threads_add_post(old(self)@.threads, thread_root@, post@),
            final(self)@.root_uri == old(self)@.root_uri,
            final(self)@.crawled_at == old(self)@.crawled_at,
            final(self)@.quote_edges == old(self)@.quote_edges,
    {
        self.post_index.insert(post.uri.clone(), String::from_str(thread_root));
        let key = post.uri.clone();
        match thread_map_get_mut(&mut self.threads, thread_root) {
            Some(t) => {
                post_map_insert(&mut t.posts, key, post);
            },
            None => {
                let mut t = Thread::new(thread_root);
                post_map_insert(&mut t.posts, key, post);
                thread_map_insert(&mut self.threads, String::from_str(thread_root), t);
            },
        }
    }

    /// All threads, keyed by root URI, in insertion order.
    pub fn threads(&self) -> (r: &IndexMap<String, Thread>)
        ensures
            thread_entries(*r) == self@.threads,
    {
        &self.threads
    }

    /// Looks up a thread by root URI.
    pub fn thread(&self, root_uri: &str) -> (r: Option<&Thread>)
        ensures
            match lookup(self@.threads, root_uri@) {
                Some(t) => r matches Some(x) && x@ == t,
                None => r is None,
            },
    {
        thread_map_get(&self.threads, root_uri)
    }

    /// Returns the total number of posts.
    pub fn node_count(&self) -> (r: usize)
        ensures
            r == self@.index.len(),
    {
        self.post_index.len()
    }

    /// Returns the number of threads.
    pub fn thread_count(&self) -> (r: usize)
        ensures
            r == self@.threads.len(),
    {
        thread_map_len(&self.threads)
    }

    /// Every post across all threads, in thread order.
    pub fn iter_posts(&self) -> (r: Vec<&Post>)
        ensures
            r@.len() == web_posts(self@.threads).len(),
            forall|i: int| 0 <= i < r@.len() ==> (#[trigger] r@[i])@ == web_posts(self@.threads)[i],
    {
        let mut out: Vec<&Post> = Vec::new();
        let n = thread_map_len(&self.threads);
        let mut i: usize = 0;
        while i < n
            invariant
                n == self@.threads.len(),
                i <= n,
                out@.len() == web_posts(self@.threads.take(i as int)).len(),
                forall|k: int| 0 <= k < out@.len() ==> (#[trigger] out@[k])@ == web_posts(self@.threads.take(i as int))[k],
            decreases n - i,
        {
            let (_, t) = thread_map_get_index(&self.threads, i);
            let ghost before = out@;
            let m = post_map_len(&t.posts);
            let mut j: usize = 0;
            while j < m
                invariant
                    m == t@.posts.len(),
                    j <= m,
                    out@.len() == before.len() + j,
                    forall|k: int| 0 <= k < before.len() ==> out@[k] == before[k],
                    forall|k: int| 0 <= k < j ==> (#[trigger] out@[before.len() + k])@ == t@.posts[k].1,
                decreases m - j,
            {
                let (_, p) = post_map_get_index(&t.posts, j);
                out.push(p);
                j += 1;
            }
            proof {
                let th = self@.threads.take(i + 1);
                assert(th.drop_last() =~= self@.threads.take(i as int));
                assert(th.last() == self@.threads[i as int]);
                let w = web_posts(th);
                assert(th.last().1 == t@);
                assert(w == web_posts(self@.threads.take(i as int)) + entry_values(t@.posts));
                assert forall|k: int| 0 <= k < out@.len() implies (#[trigger] out@[k])@ == w[k] by {
                    let a = web_posts(self@.threads.take(i as int));
                    if k >= before.len() {
                        let d = k - before.len();
                        assert(out@[before.len() + d] == out@[k]);
                        assert(entry_values(t@.posts)[d] == t@.posts[d].1);
                        assert(w[k] == entry_values(t@.posts)[d]);
                    } else {
                        assert(out@[k] == before[k]);
                        assert(w[k] == a[k]);
                    }
                }
            }
            i += 1;
        }
        proof {
            assert(self@.threads.take(n as int) =~= self@.threads);
        }
        out
    }

    /// Returns the number of posts that reply to another post.
    pub fn reply_edge_count(&self) -> (r: usize)
        ensures
            r == count_replies(web_posts(self@.threads)),
    {
        let posts = self.iter_posts();
        let ghost all = web_posts(self@.threads);
        let mut count: usize = 0;
        let mut i: usize = 0;
        while i < posts.len()
            invariant
                posts@.len() == all.len(),
                forall|k: int| 0 <= k < posts@.len() ==> (#[trigger] posts@[k])@ == all[k],
                i <= posts@.len(),
                count == count_replies(all.take(i as int)),
                count <= i,
            decreases posts@.len() - i,
        {
            proof {
                assert(all.take(i + 1).drop_last() =~= all.take(i as int));
                assert(all.take(i + 1).last() == posts@[i as int]@);
            }
            if posts[i].reply_parent.is_some() {
                count = count + 1;
            }
            i += 1;
        }
        proof {
            assert(all.take(posts@.len() as int) =~= all);
        }
        count
    }

    /// Returns the number of reply edges plus quote edges.
    pub fn edge_count(&self) -> (r: usize)
        ensures
            r == saturated(count_replies(web_posts(self@.threads)) + self@.quote_edges.len()),
    {
        self.reply_edge_count().saturating_add(self.quote_edges.len())
    }

    /// Returns whether a post URI exists in any thread.
    pub fn has_post(&self, uri: &str) -> (r: bool)
        ensures
            r == has_key(self@.index, uri@),
    {
        self.post_index.get(uri).is_some()
    }

    /// Returns the root URI of the thread containing a post.
    pub fn thread_root_for(&self, uri: &str) -> (r: Option<&str>)
        ensures
            match lookup(self@.index, uri@) {
                Some(root) => r matches Some(s) && s@ == root,
                None => r is None,
            },
    {
        match self.post_index.get(uri) {
            Some(root) => Some(root.as_str()),
            None => None,
        }
    }

    /// Returns the thread containing a post.
    pub fn thread_for_post(&self, uri: &str) -> (r: Option<&Thread>)
        ensures
            match lookup(self@.index, uri@) {
                Some(root) => match lookup(self@.threads, root) {
                    Some(t) => r matches Some(x) && x@ == t,
                    None => r is None,
                },
                None => r is None,
            },
    {
        match self.post_index.get(uri) {
            Some(root) => thread_map_get(&self.threads, root.as_str()),
            None => None,
        }
    }

    /// Looks up a post by URI.
    pub fn get_post(&self, uri: &str) -> (r: Option<&Post>)
        ensures
            match self.post_at(uri@) {
                Some(p) => r matches Some(x) && x@ == p,
                None => r is None,
            },
    {
        match self.thread_for_post(uri) {
            Some(t) => post_map_get(&t.posts, uri),
            None => None,
        }
    }

    /// Looks up a post by URI for mutation in place.
    pub fn get_post_mut(&mut self, uri: &str) -> (r: Option<&mut Post>)
        requires
            old(self).wf(),
        ensures
            match r {
                Some(p) => {
                    &&& old(self).post_at(uri@) == Some(p@)
                    &&& final(self).wf()
                    &&& final(self)@.index == old(self)@.index
                    &&& final(self)@.quote_edges == old(self)@.quote_edges
                    &&& final(self)@.root_uri == old(self)@.root_uri
                    &&& final(self)@.crawled_at == old(self)@.crawled_at
                    &&& final(self).post_at(uri@) == Some(final(p)@)
                    &&& final(self)@.threads == set_post(
                        old(self)@.threads,
                        lookup(old(self)@.index, uri@)->0,
                        uri@,
                        final(p)@,
                    )
                },
                None => old(self).post_at(uri@) is None && final(self)@ == old(self)@,
            },
    {
        let root = match self.post_index.get(uri) {
            Some(root) => root.clone(),
            None => return None,
        };
        let ghost th = self@.threads;
        match thread_map_get_mut(&mut self.threads, root.as_str()) {
            Some(t) => {
                let ghost i = key_pos(th, root@);
                let ghost tv = t@;
                proof {
                    lemma_key_pos(th, root@);
                    lemma_update_all(th, i);
                    assert(th.update(i, (th[i].0, tv)) =~= th);
                    if has_key(tv.posts, uri@) {
                        lemma_key_pos(tv.posts, uri@);
                        lemma_update_all(tv.posts, key_pos(tv.posts, uri@));
                    }
                }
                post_map_get_mut(&mut t.posts, uri)
            },
            None => None,
        }
    }

    /// Returns the quote edges with stale thread references fixed, orphans
    /// dropped, and duplicates removed, without modifying the web.
    pub fn normalized_quote_edges(&self) -> (r: Vec<QuoteEdge>)
        ensures
            edges_view(r@) == normalized(self@.quote_edges, self@.index),
    {
        let mut out: Vec<QuoteEdge> = Vec::new();
        let n = self.quote_edges.len();
        let mut i: usize = 0;
        while i < n
            invariant
                n == self.quote_edges@.len(),
                i <= n,
                edges_view(out@) == normalized(edges_view(self.quote_edges@).take(i as int), self@.index),
            decreases n - i,
        {
            let e = &self.quote_edges[i];
            let ghost ev = edges_view(self.quote_edges@);
            proof {
                assert(ev.take(i + 1).drop_last() =~= ev.take(i as int));
                assert(ev.take(i + 1).last() == e@);
            }
            let src = self.post_index.get(e.source.as_str());
            let tgt = self.post_index.get(e.target.as_str());
            if let (Some(st), Some(tt)) = (src, tgt) {
                let mut seen = false;
                let mut k: usize = 0;
                while k < out.len()
                    invariant
                        k <= out@.len(),
                        seen == exists|j: int| 0 <= j < k && (#[trigger] edges_view(out@)[j]).source == e@.source && edges_view(out@)[j].target == e@.target,
                    decreases out@.len() - k,
                {
                    let same = crate::strings::str_eq(out[k].source.as_str(), e.source.as_str())
                        && crate::strings::str_eq(out[k].target.as_str(), e.target.as_str());
                    proof {
                        assert(edges_view(out@)[k as int] == out@[k as int]@);
                        if seen {
                            let j = choose|j: int| 0 <= j < k && (#[trigger] edges_view(out@)[j]).source == e@.source && edges_view(out@)[j].target == e@.target;
                            assert(0 <= j < k + 1);
                        }
                    }
                    seen = seen || same;
                    k += 1;
                    proof {
                        if seen {
                            assert(exists|j: int| 0 <= j < k && (#[trigger] edges_view(out@)[j]).source == e@.source && edges_view(out@)[j].target == e@.target);
                        }
                    }
                }
                if !seen {
                    let edge = QuoteEdge {
                        source: e.source.clone(),
                        target: e.target.clone(),
                        source_thread: st.clone(),
                        target_thread: tt.clone(),
                    };
                    let ghost before = out@;
                    out.push(edge);
                    proof {
                        assert(edges_view(out@) =~= edges_view(before).push(edge@));
                    }
                }
            }
            i += 1;
        }
        proof {
            assert(edges_view(self.quote_edges@).take(n as int) =~= edges_view(self.quote_edges@));
        }
        out
    }

    /// Fixes stale thread references, drops orphan edges, and deduplicates
    /// the quote edges in place.
    pub fn normalize_quote_edges(&mut self)
        requires
            old(self).wf(),
        ensures
            final(self).wf(),
            final(self)@.quote_edges == normalized(old(self)@.quote_edges, old(self)@.index),
            final(self)@.threads == old(self)@.threads,
            final(self)@.index == old(self)@.index,
            final(self)@.root_uri == old(self)@.root_uri,
            final(self)@.crawled_at == old(self)@.crawled_at,
    {
        self.quote_edges = self.normalized_quote_edges();
    }

    /// The URI of the post the crawl started from.
    pub fn root(&self) -> (r: &str)
        ensures
            r@ == self@.root_uri,
    {
        self.root_uri.as_str()
    }

    /// When the crawl finished.
    pub fn crawl_time(&self) -> (r: &str)
        ensures
            r@ == self@.crawled_at,
    {
        self.crawled_at.as_str()
    }

    /// The quote edges, in discovery order.
    pub fn edges(&self) -> (r: &Vec<QuoteEdge>)
        ensures
            edges_view(r@) == self@.quote_edges,
    {
        &self.quote_edges
    }

    /// Appends a quote edge.
    pub fn push_quote_edge(&mut self, edge: QuoteEdge)
        requires
            old(self).wf(),
        ensures
            final(self).wf(),
            final(self)@.quote_edges == old(self)@.quote_edges.push(edge@),
            final(self)@.threads == old(self)@.threads,
            final(self)@.index == old(self)@.index,
            final(self)@.root_uri == old(self)@.root_uri,
            final(self)@.crawled_at == old(self)@.crawled_at,
    {
        let ghost before = self.quote_edges@;
        self.quote_edges.push(edge);
        proof {
            assert(edges_view(self.quote_edges@) =~= edges_view(before).push(edge@));
        }
    }

    /// Replaces every quote edge.
    pub fn set_quote_edges(&mut self, edges: Vec<QuoteEdge>)
        requires
            old(self).wf(),
        ensures
            final(self).wf(),
            final(self)@.quote_edges == edges_view(edges@),
            final(self)@.threads == old(self)@.threads,
            final(self)@.index == old(self)@.index,
            final(self)@.root_uri == old(self)@.root_uri,
            final(self)@.crawled_at == old(self)@.crawled_at,
    {
        self.quote_edges = edges;
    }

    /// Sets the URI of the post the crawl started from.
    pub fn set_root_uri(&mut self, root_uri: String)
        requires
            old(self).wf(),
        ensures
            final(self).wf(),
            final(self)@ == (WebModel { root_uri: root_uri@, ..old(self)@ }),
    {
        self.root_uri = root_uri;
    }

    /// Sets when the crawl finished.
    pub fn set_crawled_at(&mut self, crawled_at: String)
        requires
            old(self).wf(),
        ensures
            final(self).wf(),
            final(self)@ == (WebModel { crawled_at: crawled_at@, ..old(self)@ }),
    {
        self.crawled_at = crawled_at;
    }

    /// Points every edge end that names thread `from` at thread `to`.
    pub fn retarget_quote_edges(&mut self, from: &str, to: &str)
        requires
            old(self).wf(),
        ensures
            final(self).wf(),
            final(self)@.quote_edges == retargeted(old(self)@.quote_edges, from@, to@),
            final(self)@.threads == old(self)@.threads,
            final(self)@.index == old(self)@.index,
            final(self)@.root_uri == old(self)@.root_uri,
            final(self)@.crawled_at == old(self)@.crawled_at,
    {
        let n = self.quote_edges.len();
        let mut i: usize = 0;
        while i < n
            invariant
                n == self.quote_edges@.len(),
                i <= n,
                self.threads == old(self).threads,
                self.post_index == old(self).post_index,
                self.root_uri == old(self).root_uri,
                self.crawled_at == old(self).crawled_at,
                forall|k: int| 0 <= k < i ==> (#[trigger] self.quote_edges@[k])@ == retarget_edge(old(self)@.quote_edges[k], from@, to@),
                forall|k: int| i <= k < n ==> (#[trigger] self.quote_edges@[k])@ == old(self)@.quote_edges[k],
                old(self)@.quote_edges.len() == n,
            decreases n - i,
        {
            let e = &self.quote_edges[i];
            let fix_source = crate::strings::str_eq(e.source_thread.as_str(), from);
            let fix_target = crate::strings::str_eq(e.target_thread.as_str(), from);
            if fix_source || fix_target {
                let edge = QuoteEdge {
                    source: e.source.clone(),
                    target: e.target.clone(),
                    source_thread: if fix_source { String::from_str(to) } else { e.source_thread.clone() },
                    target_thread: if fix_target { String::from_str(to) } else { e.target_thread.clone() },
                };
                self.quote_edges.set(i, edge);
            }
            i += 1;
        }
        proof {
            assert(edges_view(self.quote_edges@) =~= retargeted(old(self)@.quote_edges, from@, to@));
        }
    }
}

/// After normalization every edge joins two posts of the web, names the
/// threads that hold them, and no two edges join the same pair of posts.
pub proof fn lemma_normalized_sound(edges: Seq<EdgeModel>, idx: Seq<(Seq<char>, Seq<char>)>)
    ensures
        forall|i: int| 0 <= i < normalized(edges, idx).len() ==> {
            let e = #[trigger] normalized(edges, idx)[i];
            &&& edge_known(idx, e)
            &&& lookup(idx, e.source) == Some(e.source_thread)
            &&& lookup(idx, e.target) == Some(e.target_thread)
        },
        forall|i: int, j: int|
            0 <= i < j < normalized(edges, idx).len() ==> !(#[trigger] normalized(edges, idx)[i].source
                == #[trigger] normalized(edges, idx)[j].source && normalized(edges, idx)[i].target
                == normalized(edges, idx)[j].target),
    decreases edges.len(),
{
    if edges.len() > 0 {
        let rest = edges.drop_last();
        lemma_normalized_sound(rest, idx);
        let r = normalized(rest, idx);
        let e = edges.last();
        if edge_known(idx, e) && !seen_pair(r, e) {
            let n = normalized(edges, idx);
            assert(n == r.push(
                EdgeModel {
                    source: e.source,
                    target: e.target,
                    source_thread: lookup(idx, e.source).unwrap(),
                    target_thread: lookup(idx, e.target).unwrap(),
                },
            ));
            assert forall|i: int, j: int| 0 <= i < j < n.len() implies !(#[trigger] n[i].source
                == #[trigger] n[j].source && n[i].target == n[j].target) by {
                if j == n.len() - 1 {
                    if n[i].source == n[j].source && n[i].target == n[j].target {
                        assert(r[i] == n[i]);
                        assert(seen_pair(r, e));
                    }
                } else {
                    assert(n[i] == r[i]);
                    assert(n[j] == r[j]);
                }
            }
        }
    }
}

/// The posts of a sequence keyed by URI: a repeated URI keeps its first
/// place and takes the later post.
pub open spec fn node_entries(s: Seq<PostModel>) -> Seq<(Seq<char>, PostModel)>
    decreases s.len(),
{
    if s.len() == 0 {
        Seq::<(Seq<char>, PostModel)>::empty()
    } else {
        insert_entry(node_entries(s.drop_last()), s.last().uri, s.last())
    }
}

/// The flat view of a web's posts: one per URI, in thread order.
pub open spec fn spec_nodes(th: Seq<(Seq<char>, ThreadModel)>) -> Seq<PostModel> {
    entry_values(node_entries(web_posts(th)))
}

impl ContextWeb {
    /// Returns a flat view of all posts, one per URI, in thread order.
    pub fn nodes(&self) -> (r: Vec<&Post>)
        ensures
            r@.len() == spec_nodes(self@.threads).len(),
            forall|i: int| 0 <= i < r@.len() ==> (#[trigger] r@[i])@ == spec_nodes(self@.threads)[i],
            distinct_keys(node_entries(web_posts(self@.threads))),
    {
        let posts = self.iter_posts();
        let ghost all = web_posts(self@.threads);
        let mut out: Vec<&Post> = Vec::new();
        let n = posts.len();
        let mut i: usize = 0;
        while i < n
            invariant
                n == posts@.len(),
                n == all.len(),
                forall|k: int| 0 <= k < n ==> (#[trigger] posts@[k])@ == all[k],
                i <= n,
                out@.len() == node_entries(all.take(i as int)).len(),
                forall|k: int| 0 <= k < out@.len() ==> (#[trigger] node_entries(all.take(i as int))[k]) == (out@[k]@.uri, out@[k]@),
                distinct_keys(node_entries(all.take(i as int))),
            decreases n - i,
        {
            let p = posts[i];
            let ghost e = node_entries(all.take(i as int));
            proof {
                assert(all.take(i + 1).drop_last() =~= all.take(i as int));
                assert(all.take(i + 1).last() == p@);
                lemma_insert_distinct(e, p@.uri, p@);
            }
            let m = out.len();
            let mut j: usize = 0;
            let mut found: Option<usize> = None;
            while j < m && found.is_none()
                invariant
                    m == out@.len(),
                    m == e.len(),
                    j <= m,
                    forall|k: int| 0 <= k < m ==> (#[trigger] e[k]) == (out@[k]@.uri, out@[k]@),
                    match found {
                        Some(f) => f < m && first_key_at(e, p@.uri, f as int),
                        None => forall|k: int| 0 <= k < j ==> (#[trigger] e[k]).0 != p@.uri,
                    },
                decreases m - j,
            {
                if crate::strings::str_eq(out[j].uri.as_str(), p.uri.as_str()) {
                    proof {
                        assert(e[j as int].0 == p@.uri);
                    }
                    found = Some(j);
                }
                j += 1;
            }
            match found {
                Some(f) => {
                    proof {
                        lemma_key_pos(e, p@.uri);
                        let q = key_pos(e, p@.uri);
                        if q < f {
                            assert(e[q].0 != p@.uri);
                        }
                        if f < q {
                            assert(e[f as int].0 != p@.uri);
                        }
                    }
                    out.set(f, p);
                },
                None => {
                    proof {
                        assert(!has_key(e, p@.uri));
                    }
                    out.push(p);
                },
            }
            i += 1;
        }
        proof {
            assert(all.take(n as int) =~= all);
        }
        out
    }
}

/// The SHA-256 digest of a string's UTF-8 bytes.
pub uninterp spec fn sha256_of(s: Seq<char>) -> Seq<u8>;

/// `sha2::Sha256::digest` over the UTF-8 bytes of `s`: the 32-byte digest.
#[verifier::external_body]
fn sha256(s: &str) -> (r: Vec<u8>)
    ensures
        r@ == sha256_of(s@),
        r@.len() == 32,
{
    <sha2::Sha256 as sha2::Digest>::digest(s.as_bytes()).to_vec()
}

/// The lowercase hexadecimal digit for `d`.
pub open spec fn hex_char(d: nat) -> char {
    if d < 10 {
        crate::strings::digit_char(d)
    } else if d == 10 {
        'a'
    } else if d == 11 {
        'b'
    } else if d == 12 {
        'c'
    } else if d == 13 {
        'd'
    } else if d == 14 {
        'e'
    } else {
        'f'
    }
}

/// Two lowercase hexadecimal digits for a byte.
pub open spec fn spec_hex_byte(b: u8) -> Seq<char> {
    seq![hex_char((b / 16) as nat), hex_char((b % 16) as nat)]
}

/// The lowercase hexadecimal digit for `d`, which must be below sixteen.
fn hex_digit(d: u8) -> (c: char)
    requires
        d < 16,
    ensures
        c == hex_char(d as nat),
{
    if d == 0 { '0' } else if d == 1 { '1' } else if d == 2 { '2' } else if d == 3 { '3' }
    else if d == 4 { '4' } else if d == 5 { '5' } else if d == 6 { '6' } else if d == 7 { '7' }
    else if d == 8 { '8' } else if d == 9 { '9' } else if d == 10 { 'a' } else if d == 11 { 'b' }
    else if d == 12 { 'c' } else if d == 13 { 'd' } else if d == 14 { 'e' } else { 'f' }
}

/// A short, deterministic identifier for a web: the root's record key, a
/// hyphen, and the first three bytes of the SHA-256 of the root URI in hex.
pub open spec fn spec_web_id(root_uri: Seq<char>) -> Seq<char> {
    let d = sha256_of(root_uri);
    crate::uri::spec_rkey_of(root_uri) + "-"@ + spec_hex_byte(d[0]) + spec_hex_byte(d[1]) + spec_hex_byte(d[2])
}

/// Derives a short, deterministic identifier for a web from its root URI:
/// readable, and collision resistant across repositories that reuse
/// record keys.
pub fn web_id(root_uri: &str) -> (r: String)
    ensures
        r@ == spec_web_id(root_uri@),
{
    let digest = sha256(root_uri);
    let mut s = String::from_str(crate::uri::rkey_of(root_uri));
    s.append("-");
    let mut i: usize = 0;
    while i < 3
        invariant
            digest@ == sha256_of(root_uri@),
            digest@.len() == 32,
            i <= 3,
            s@ == crate::uri::spec_rkey_of(root_uri@) + "-"@ + (if i >= 1 {
                spec_hex_byte(digest@[0])
            } else {
                Seq::<char>::empty()
            }) + (if i >= 2 {
                spec_hex_byte(digest@[1])
            } else {
                Seq::<char>::empty()
            }) + (if i >= 3 {
                spec_hex_byte(digest@[2])
            } else {
                Seq::<char>::empty()
            }),
        decreases 3 - i,
    {
        let b = digest[i];
        let ghost before = s@;
        crate::strings::push_char(&mut s, hex_digit(b / 16));
        crate::strings::push_char(&mut s, hex_digit(b % 16));
        proof {
            assert(s@ =~= before + spec_hex_byte(b));
        }
        i += 1;
    }
    s
}

/// The index and the threads after adding each of `ts` in order, as
/// `ContextWeb::add_thread` adds a thread.
pub open spec fn threads_added(
    index: Seq<(Seq<char>, Seq<char>)>,
    threads: Seq<(Seq<char>, ThreadModel)>,
    ts: Seq<ThreadModel>,
) -> (Seq<(Seq<char>, Seq<char>)>, Seq<(Seq<char>, ThreadModel)>)
    decreases ts.len(),
{
    if ts.len() == 0 {
        (index, threads)
    } else {
        let prev = threads_added(index, threads, ts.drop_last());
        (add_keys(prev.0, ts.last().posts, ts.last().root_uri), insert_entry(prev.1, ts.last().root_uri, ts.last()))
    }
}

/// The views of a list of threads.
pub open spec fn threads_view(v: Seq<Thread>) -> Seq<ThreadModel> {
    v.map_values(|t: Thread| t@)
}

/// Inserting an entry gives its key the new value and leaves every other
/// key's value alone.
pub proof fn lemma_lookup_insert<V>(e: Seq<(Seq<char>, V)>, k: Seq<char>, v: V, j: Seq<char>)
    ensures
        lookup(insert_entry(e, k, v), j) == if j == k {
            Some(v)
        } else {
            lookup(e, j)
        },
{
    if has_key(e, k) {
        lemma_key_pos(e, k);
        let p = key_pos(e, k);
        assert(e.update(p, (k, v)) == e.update(p, (e[p].0, v)));
        crate::ordered_map::lemma_update_value(e, p, v, j);
        if j != k && has_key(e, j) {
            lemma_key_pos(e, j);
            assert(e[key_pos(e, j)].0 == j);
        }
    } else {
        let r = e.push((k, v));
        if j == k {
            assert(r[e.len() as int].0 == k);
            lemma_key_pos(r, k);
            let q = key_pos(r, k);
            if q < e.len() {
                assert(e[q].0 == k);
            }
        } else {
            if has_key(e, j) {
                let w = choose|i: int| 0 <= i < e.len() && (#[trigger] e[i]).0 == j;
                assert(r[w].0 == j);
                lemma_key_pos(e, j);
                lemma_key_pos(r, j);
                let p = key_pos(e, j);
                let q = key_pos(r, j);
                assert(r[p].0 == j);
                if q < p {
                    assert(e[q].0 == r[q].0);
                }
                if p < q {
                    assert(r[p].0 != j);
                }
            }
            if has_key(r, j) {
                let w = choose|i: int| 0 <= i < r.len() && (#[trigger] r[i]).0 == j;
                assert(w < e.len());
                assert(e[w].0 == j);
            }
        }
    }
}

/// After filing a thread's posts under `root`, each of its post keys looks
/// up to `root` and every other key as before.
pub proof fn lemma_lookup_add_keys(
    idx: Seq<(Seq<char>, Seq<char>)>,
    posts: Seq<(Seq<char>, PostModel)>,
    root: Seq<char>,
    j: Seq<char>,
)
    ensures
        lookup(add_keys(idx, posts, root), j) == if has_key(posts, j) {
            Some(root)
        } else {
            lookup(idx, j)
        },
    decreases posts.len(),
{
    if posts.len() > 0 {
        let rest = posts.drop_last();
        lemma_lookup_add_keys(idx, rest, root, j);
        lemma_lookup_insert(add_keys(idx, rest, root), posts.last().0, root, j);
        if has_key(rest, j) {
            let w = choose|i: int| 0 <= i < rest.len() && (#[trigger] rest[i]).0 == j;
            assert(posts[w].0 == j);
        }
        if has_key(posts, j) && posts.last().0 != j {
            let w = choose|i: int| 0 <= i < posts.len() && (#[trigger] posts[i]).0 == j;
            assert(w < rest.len());
            assert(rest[w].0 == j);
        }
        if posts.last().0 == j {
            assert(posts[posts.len() - 1].0 == j);
        }
    }
}

/// The threads of a list of thread entries.
pub open spec fn thread_values(th: Seq<(Seq<char>, ThreadModel)>) -> Seq<ThreadModel> {
    th.map_values(|e: (Seq<char>, ThreadModel)| e.1)
}

/// Whether some thread among `th` holds a post under key `k`.
pub open spec fn filed_somewhere(th: Seq<(Seq<char>, ThreadModel)>, k: Seq<char>) -> bool {
    exists|i: int| 0 <= i < th.len() && has_key((#[trigger] th[i]).1.posts, k)
}

/// Loading a web's stored threads gives them back: when the threads have
/// distinct roots, each keyed by its own root URI, and no post key is held
/// by two threads, adding them in order rebuilds exactly those threads, and
/// the index files every post under its thread's root and nothing else.
pub proof fn lemma_threads_roundtrip(th: Seq<(Seq<char>, ThreadModel)>)
    requires
        distinct_keys(th),
        forall|i: int| 0 <= i < th.len() ==> (#[trigger] th[i]).0 == th[i].1.root_uri,
        forall|a: int, b: int, k: Seq<char>|
            0 <= a < th.len() && 0 <= b < th.len() && a != b && #[trigger] has_key(th[a].1.posts, k) ==> !#[trigger] has_key(
                th[b].1.posts,
                k,
            ),
    ensures
        threads_added(Seq::empty(), Seq::empty(), thread_values(th)).1 == th,
        forall|i: int, k: Seq<char>|
            0 <= i < th.len() && #[trigger] has_key(th[i].1.posts, k) ==> lookup(
                threads_added(Seq::empty(), Seq::empty(), thread_values(th)).0,
                k,
            ) == Some(th[i].0),
        forall|k: Seq<char>|
            !filed_somewhere(th, k) ==> lookup(threads_added(Seq::empty(), Seq::empty(), thread_values(th)).0, k) is None,
    decreases th.len(),
{
    let tv = thread_values(th);
    if th.len() == 0 {
        assert forall|k: Seq<char>| !filed_somewhere(th, k) implies lookup(
            threads_added(Seq::empty(), Seq::empty(), tv).0,
            k,
        ) is None by {
            assert(!has_key(Seq::<(Seq<char>, Seq<char>)>::empty(), k));
        }
    } else {
        let rest = th.drop_last();
        assert(thread_values(rest) =~= tv.drop_last());
        lemma_threads_roundtrip(rest);
        let prev = threads_added(Seq::empty(), Seq::empty(), thread_values(rest));
        let t = th.last();
        assert(tv.last() == t.1);
        assert(!has_key(rest, t.1.root_uri)) by {
            if has_key(rest, t.1.root_uri) {
                let w = choose|i: int| 0 <= i < rest.len() && (#[trigger] rest[i]).0 == t.1.root_uri;
                assert(th[w].0 == th[th.len() - 1].0);
            }
        }
        assert(insert_entry(prev.1, t.1.root_uri, t.1) =~= th);
        let r = threads_added(Seq::empty(), Seq::empty(), tv);
        assert forall|i: int, k: Seq<char>|
            0 <= i < th.len() && #[trigger] has_key(th[i].1.posts, k) implies lookup(r.0, k) == Some(th[i].0) by {
            lemma_lookup_add_keys(prev.0, t.1.posts, t.1.root_uri, k);
            if i < rest.len() {
                assert(rest[i] == th[i]);
                assert(!has_key(th[th.len() - 1].1.posts, k));
            }
        }
        assert forall|k: Seq<char>| !filed_somewhere(th, k) implies lookup(r.0, k) is None by {
            lemma_lookup_add_keys(prev.0, t.1.posts, t.1.root_uri, k);
            assert(!has_key(th[th.len() - 1].1.posts, k));
            if filed_somewhere(rest, k) {
                let w = choose|i: int| 0 <= i < rest.len() && has_key((#[trigger] rest[i]).1.posts, k);
                assert(rest[w] == th[w]);
            }
        }
    }
}

/// Builds a web from its stored parts: each thread is added in order (a
/// later thread under the same root replaces an earlier one), then the
/// quote edges are set as stored.
pub fn from_parts(root_uri: &str, crawled_at: &str, threads: Vec<Thread>, quote_edges: Vec<QuoteEdge>) -> (r: ContextWeb)
    ensures
        r.wf(),
        r@.root_uri == root_uri@,
        r@.crawled_at == crawled_at@,
        r@.quote_edges == edges_view(quote_edges@),
        (r@.index, r@.threads) == threads_added(Seq::empty(), Seq::empty(), threads_view(threads@)),
{
    let ghost orig = threads@;
    let ghost tv = threads_view(threads@);
    let ghost n = threads@.len();
    let mut web = ContextWeb::new(root_uri, crawled_at);
    let mut threads = threads;
    let mut rev: Vec<Thread> = Vec::new();
    while threads.len() > 0
        invariant
            threads@.len() + rev@.len() == n,
            n == orig.len(),
            forall|i: int| 0 <= i < threads@.len() ==> #[trigger] threads@[i] == orig[i],
            forall|k: int| 0 <= k < rev@.len() ==> #[trigger] rev@[k] == orig[n - 1 - k],
        decreases threads@.len(),
    {
        let ghost tb = threads@;
        let ghost rb = rev@;
        if let Some(t) = threads.pop() {
            rev.push(t);
            proof {
                assert(threads@ == tb.drop_last());
                assert(rev@ == rb.push(tb.last()));
                assert forall|k: int| 0 <= k < rev@.len() implies #[trigger] rev@[k] == orig[n - 1 - k] by {
                    if k < rb.len() {
                        assert(rev@[k] == rb[k]);
                    } else {
                        assert(tb.last() == orig[tb.len() - 1]);
                    }
                }
            }
        }
    }
    proof {
        assert(web@.index =~= Seq::<(Seq<char>, Seq<char>)>::empty());
        assert(web@.threads =~= Seq::<(Seq<char>, ThreadModel)>::empty());
        assert(tv.take(0) =~= Seq::<ThreadModel>::empty());
    }
    while rev.len() > 0
        invariant
            rev@.len() <= n,
            n == orig.len(),
            tv == threads_view(orig),
            forall|k: int| 0 <= k < rev@.len() ==> #[trigger] rev@[k] == orig[n - 1 - k],
            web.wf(),
            web@.root_uri == root_uri@,
            web@.crawled_at == crawled_at@,
            (web@.index, web@.threads) == threads_added(Seq::empty(), Seq::empty(), tv.take(n - rev@.len())),
        decreases rev@.len(),
    {
        let ghost rb = rev@;
        let ghost c = n - rb.len();
        if let Some(t) = rev.pop() {
            proof {
                assert(rev@ == rb.drop_last());
                assert(t == rb.last());
                assert(t == orig[c]);
                assert(tv.take(c + 1).drop_last() =~= tv.take(c));
                assert(tv.take(c + 1).last() == t@);
            }
            web.add_thread(t);
        }
    }
    proof {
        assert(tv.take(n as int) =~= tv);
    }
    web.set_quote_edges(quote_edges);
    web
}

} // verus!
