//! The thread-level breadth-first crawl, as a state machine.
//!
//! Each thread (reply tree) is one unit of work: a single `getPostThread`
//! call fetches it whole. Quote posts discovered in a thread, and posts
//! returned by `getQuotes` for any post in the web, seed further threads.
//! Threads are deduplicated by root URI so the crawl terminates even on
//! heavily cross-quoted conversations. The platform adapter performs the
//! requests and feeds their outcomes to [`CrawlState::apply`].
use core::time::Duration;
use indexmap::IndexMap;
use std::collections::VecDeque;
use vstd::prelude::*;
use vstd::string::*;

use crate::api::{
    post_from_view, spec_post_from_view, Clock, Fetch, FetchError, PostView, ThreadNode, ThreadResponse,
    QUOTES_PAGE_SIZE, THREAD_DEPTH,
};
use crate::collections::{CountMap, StrSet};
use crate::model::{
    web_posts, ContextWeb, FacetFeature, Post, PostModel, QuoteEdge, Thread, UriIndex,
};
use crate::ordered_map::{
    has_key, insert_entry, lookup, post_entries, remove_entry, post_map_get, post_map_get_index, post_map_insert,
    post_map_into_entries, post_map_len, post_map_new,
};
use crate::strings::{has_prefix, starts_with, str_eq};
use crate::uri::{post_uri_from_link, spec_split_at_uri, split_at_uri};

verus! {

/// `Duration` is `Copy`: its `clone` returns the same duration.
pub assume_specification[ <Duration as Clone>::clone ](d: &Duration) -> (r: Duration)
    ensures
        r == *d,
;

/// The whole nanoseconds a duration spans.
pub uninterp spec fn nanos_of(d: Duration) -> nat;

/// `Duration::as_nanos`: the total whole nanoseconds.
#[verifier::external_body]
pub(crate) fn duration_nanos(d: Duration) -> (r: u128)
    ensures
        r == nanos_of(d),
{
    d.as_nanos()
}

/// `Duration::from_secs`: a duration of whole seconds.
#[verifier::external_body]
pub(crate) fn duration_from_secs(secs: u64) -> (r: Duration)
    ensures
        nanos_of(r) == secs * 1_000_000_000,
{
    Duration::from_secs(secs)
}

/// `Duration::as_secs`: the whole seconds a duration spans.
#[verifier::external_body]
pub(crate) fn duration_secs(d: Duration) -> (r: u64)
    ensures
        r == nanos_of(d) / 1_000_000_000,
{
    d.as_secs()
}

/// Limits on a crawl.
#[derive(Debug, Clone, PartialEq, Eq)]
pub struct CrawlOptions {
    /// Stop once the web holds this many posts.
    pub max_nodes: usize,
    /// Stop expanding beyond this many quote hops from the start post.
    pub max_depth: Option<usize>,
    /// Stop after this much wall-clock time.
    pub timeout: Duration,
    /// Maximum API requests in flight at once.
    pub concurrency: usize,
}

impl Default for CrawlOptions {
    fn default() -> (r: CrawlOptions)
        ensures
            r.max_nodes == 2000,
            r.max_depth is None,
            nanos_of(r.timeout) == 300_000_000_000,
            r.concurrency == 2,
    {
        CrawlOptions {
            max_nodes: 2000,
            max_depth: None,
            timeout: duration_from_secs(300),
            concurrency: 2,
        }
    }
}

/// A snapshot of crawl progress, reported after each unit of work.
#[derive(Debug, Clone, Copy, PartialEq, Eq)]
pub struct Progress {
    /// Posts collected so far.
    pub node_count: usize,
    /// Reply and quote edges collected so far.
    pub edge_count: usize,
    /// Threads collected so far.
    pub thread_count: usize,
}

/// Receives a snapshot of progress after each unit of crawl work.
pub trait ProgressSink {
    /// Takes one snapshot.
    fn report(&mut self, progress: Progress);
}

/// Collects the snapshots in order.
impl ProgressSink for Vec<Progress> {
    fn report(&mut self, progress: Progress)
        ensures
            final(self)@ == old(self)@.push(progress),
    {
        self.push(progress);
    }
}

/// Why a crawl ended.
#[derive(Debug, Clone, Copy, PartialEq, Eq)]
pub enum StopReason {
    /// Every reachable thread was fetched.
    Complete,
    /// [`CrawlOptions::max_nodes`] was reached.
    MaxNodes,
    /// [`CrawlOptions::timeout`] elapsed.
    Timeout,
}

impl StopReason {
    /// The name a crawl result reports its stop reason by.
    pub fn name(self) -> (r: &'static str)
        ensures
            r@ == match self {
                StopReason::Complete => "complete"@,
                StopReason::MaxNodes => "max_nodes"@,
                StopReason::Timeout => "timeout"@,
            },
    {
        match self {
            StopReason::Complete => "complete",
            StopReason::MaxNodes => "max_nodes",
            StopReason::Timeout => "timeout",
        }
    }
}

/// The result of a crawl: the web plus how the crawl ended.
#[derive(Debug)]
pub struct CrawlResult {
    /// The crawled web.
    pub web: ContextWeb,
    /// Why the crawl stopped.
    pub stop_reason: StopReason,
    /// Work items still queued when the crawl stopped; zero when complete.
    pub pending: usize,
}

/// Maximum attempts for a single API call before giving up.
pub const MAX_RETRIES: u32 = 5;

/// Base delay for exponential backoff between retries, in seconds.
pub const BASE_DELAY_SECS: u64 = 1;

/// One unit of crawl work.
#[derive(Debug)]
pub enum Job {
    /// Fetch a post's reply tree.
    Thread {
        /// The post whose thread to fetch.
        uri: String,
        /// Quote hops from the start post.
        depth: usize,
    },
    /// Fetch every post quoting a post.
    Quotes {
        /// The quoted post.
        uri: String,
        /// Quote hops from the start post.
        depth: usize,
    },
}

/// What one [`Job`] fetched, ready to apply to the web.
#[derive(Debug)]
pub enum JobOutcome {
    /// A thread response, or the failure that replaced it.
    Thread {
        /// The post whose thread was fetched.
        uri: String,
        /// Quote hops from the start post.
        depth: usize,
        /// The response, or the error that ended the retries.
        response: Result<ThreadResponse, FetchError>,
    },
    /// Quoting posts gathered across pages.
    Quotes {
        /// The quoted post.
        uri: String,
        /// Quote hops from the start post.
        depth: usize,
        /// Posts from every page that arrived.
        posts: Vec<PostView>,
        /// The failure that ended pagination early.
        error: Option<FetchError>,
    },
}

/// How long to back off, and whether every other request waits too.
#[derive(Debug, Clone, Copy, PartialEq, Eq)]
pub enum Backoff {
    /// The server rate-limited us; all requests pause.
    RateLimited(Duration),
    /// A transient failure; only this request waits.
    Transient(Duration),
}

/// What a failed attempt leads to.
#[derive(Debug, Clone, Copy, PartialEq, Eq)]
pub enum RetryStep {
    /// Give up and report the error.
    GiveUp,
    /// Wait, then try again.
    Wait(Backoff),
}

/// `2^attempt` seconds, the exponential backoff for a rate limit.
pub open spec fn spec_backoff_secs(attempt: u32) -> nat
    decreases attempt,
{
    if attempt == 0 {
        1
    } else {
        2 * spec_backoff_secs((attempt - 1) as u32)
    }
}

/// Whether the retry policy gives up on `error` at `attempt`: at once for
/// a status other than 429 and for a decode failure, at the last attempt
/// for a 429 or a timeout or network error.
pub open spec fn gives_up(error: FetchError, attempt: u32) -> bool {
    match error {
        FetchError::Status { status, .. } => !(status == 429 && attempt + 1 < MAX_RETRIES),
        FetchError::Decode(_) => true,
        FetchError::Timeout | FetchError::Network(_) => attempt + 1 == MAX_RETRIES,
    }
}

/// Decides what follows a failed attempt (counting from zero).
///
/// A 429 waits for its `Retry-After`, or `2^attempt` seconds, and pauses
/// every request; other HTTP statuses and decode failures give up at once;
/// timeouts and network errors wait one second. Nothing waits after the
/// last attempt: it gives up instead.
pub fn retry_step(error: &FetchError, attempt: u32) -> (r: RetryStep)
    requires
        attempt < MAX_RETRIES,
    ensures
        match error {
            FetchError::Status { status, retry_after, .. } => if *status == 429 && attempt + 1
                < MAX_RETRIES {
                match retry_after {
                    Some(d) => r == RetryStep::Wait(Backoff::RateLimited(*d)),
                    None => r matches RetryStep::Wait(Backoff::RateLimited(d)) && nanos_of(d)
                        == spec_backoff_secs(attempt) * 1_000_000_000,
                }
            } else {
                r == RetryStep::GiveUp
            },
            FetchError::Decode(_) => r == RetryStep::GiveUp,
            FetchError::Timeout | FetchError::Network(_) => if attempt + 1 == MAX_RETRIES {
                r == RetryStep::GiveUp
            } else {
                r matches RetryStep::Wait(Backoff::Transient(d)) && nanos_of(d) == 1_000_000_000
            },
        },
{
    match error {
        FetchError::Status { status, retry_after, .. } => {
            if *status == 429 && attempt + 1 < MAX_RETRIES {
                match retry_after {
                    Some(d) => RetryStep::Wait(Backoff::RateLimited(*d)),
                    None => {
                        let mut secs: u64 = 1;
                        let mut k: u32 = 0;
                        proof {
                            reveal_with_fuel(spec_backoff_secs, 5);
                            assert(spec_backoff_secs(0) == 1);
                            assert(spec_backoff_secs(1) == 2);
                            assert(spec_backoff_secs(2) == 4);
                            assert(spec_backoff_secs(3) == 8);
                        }
                        while k < attempt
                            invariant
                                k <= attempt,
                                attempt < 5,
                                secs == spec_backoff_secs(k),
                                spec_backoff_secs(0) == 1,
                                spec_backoff_secs(1) == 2,
                                spec_backoff_secs(2) == 4,
                                spec_backoff_secs(3) == 8,
                            decreases attempt - k,
                        {
                            secs = secs * 2;
                            k += 1;
                        }
                        RetryStep::Wait(Backoff::RateLimited(duration_from_secs(secs)))
                    },
                }
            } else {
                RetryStep::GiveUp
            }
        },
        FetchError::Decode(_) => RetryStep::GiveUp,
        FetchError::Timeout | FetchError::Network(_) => {
            if attempt + 1 == MAX_RETRIES {
                RetryStep::GiveUp
            } else {
                RetryStep::Wait(Backoff::Transient(duration_from_secs(BASE_DELAY_SECS)))
            }
        },
    }
}

/// A shared pause on every request, held while backing off from a 429.
#[derive(Debug, Default)]
pub struct RateGate {
    until: Option<Duration>,
}

impl RateGate {
    /// When the limiter reopens, if it is closed.
    pub closed spec fn closed_until(&self) -> Option<Duration> {
        self.until
    }

    /// Closes the limiter until the given point on the monotonic clock.
    pub fn close(&mut self, until: Duration)
        ensures
            final(self).closed_until() == Some(until),
    {
        self.until = Some(until);
    }

    /// Reopens the limiter.
    pub fn open(&mut self)
        ensures
            final(self).closed_until() is None,
    {
        self.until = None;
    }

    /// How much longer to wait at `now`; opens the limiter once the time has come.
    pub fn remaining(&mut self, now: Duration) -> (r: Option<u128>)
        ensures
            match old(self).closed_until() {
                Some(u) => if nanos_of(u) > nanos_of(now) {
                    r == Some((nanos_of(u) - nanos_of(now)) as u128) && final(self).closed_until()
                        == old(self).closed_until()
                } else {
                    r is None && final(self).closed_until() is None
                },
                None => r is None && final(self).closed_until() is None,
            },
    {
        match self.until {
            Some(u) => {
                let until = duration_nanos(u);
                let at = duration_nanos(now);
                if until > at {
                    Some(until - at)
                } else {
                    self.until = None;
                    None
                }
            },
            None => None,
        }
    }
}

/// The posts of a thread view in walk order: each visible post the first
/// time its URI appears, then its parent chain, then its replies.
pub open spec fn spec_walk(node: ThreadNode, acc: Seq<(Seq<char>, PostModel)>) -> Seq<(Seq<char>, PostModel)>
    decreases node,
{
    match node {
        ThreadNode::Post(v) => {
            let p = spec_post_from_view(v.post);
            let a1 = if has_key(acc, p.uri) {
                acc
            } else {
                acc.push((p.uri, p))
            };
            let a2 = match v.parent {
                Some(par) => spec_walk(*par, a1),
                None => a1,
            };
            match v.replies {
                Some(rs) => spec_walk_list(rs@, a2),
                None => a2,
            }
        },
        _ => acc,
    }
}

/// [`spec_walk`] over a list of nodes, left to right.
pub open spec fn spec_walk_list(s: Seq<ThreadNode>, acc: Seq<(Seq<char>, PostModel)>) -> Seq<(Seq<char>, PostModel)>
    decreases s,
{
    if s.len() == 0 {
        acc
    } else {
        spec_walk_list(s.drop_first(), spec_walk(s[0], acc))
    }
}

/// Collects every visible post in a thread view, parents and replies alike;
/// deleted or blocked nodes are skipped with their subtrees.
pub fn walk_thread_node(node: &ThreadNode, posts: &mut IndexMap<String, Post>)
    ensures
        post_entries(*final(posts)) == spec_walk(*node, post_entries(*old(posts))),
    decreases node,
{
    match node {
        ThreadNode::Post(view) => {
            let post = post_from_view(&view.post);
            let present = post_map_get(posts, post.uri.as_str()).is_some();
            if !present {
                let key = post.uri.clone();
                post_map_insert(posts, key, post);
            }
            match &view.parent {
                Some(parent) => walk_thread_node(&**parent, posts),
                None => {},
            }
            match &view.replies {
                Some(replies) => {
                    let ghost a2 = post_entries(*posts);
                    proof {
                        assert(replies@.skip(0) =~= replies@);
                    }
                    let n = replies.len();
                    let mut i: usize = 0;
                    #[verifier::loop_isolation(false)]
                    while i < n
                        invariant
                            n == replies@.len(),
                            i <= n,
                            spec_walk_list(replies@, a2) == spec_walk_list(replies@.skip(i as int), post_entries(*posts)),
                        decreases n - i,
                    {
                        proof {
                            assert(replies@.skip(i as int).drop_first() =~= replies@.skip(i + 1));
                            assert(replies@.skip(i as int)[0] == replies@[i as int]);
                            assert(decreases_to!(*node => **view));
                            assert(decreases_to!(**view => view.replies));
                            assert(decreases_to!(view.replies => *replies));
                            assert(decreases_to!(*replies => replies@));
                            assert(decreases_to!(replies@ => replies@[i as int]));
                        }
                        walk_thread_node(&replies[i], posts);
                        i += 1;
                    }
                    proof {
                        assert(replies@.skip(n as int) =~= Seq::<ThreadNode>::empty());
                        assert(replies@.skip(0) =~= replies@);
                    }
                },
                None => {},
            }
        },
        ThreadNode::NotFound { .. } => {},
        ThreadNode::Blocked { .. } => {},
    }
}

/// The topmost post a thread response carries: up the parent chain while
/// parents are visible posts.
pub open spec fn spec_response_root(node: ThreadNode) -> Option<Seq<char>>
    decreases node,
{
    match node {
        ThreadNode::Post(v) => match v.parent {
            Some(p) => match *p {
                ThreadNode::Post(_) => spec_response_root(*p),
                _ => Some(v.post.uri@),
            },
            None => Some(v.post.uri@),
        },
        _ => None,
    }
}

/// Walks up the parent chain to the topmost post in a thread response.
pub fn find_response_root(node: &ThreadNode) -> (r: Option<&str>)
    ensures
        match spec_response_root(*node) {
            Some(u) => r matches Some(s) && s@ == u,
            None => r is None,
        },
    decreases node,
{
    match node {
        ThreadNode::Post(view) => match &view.parent {
            Some(p) => match &**p {
                ThreadNode::Post(_) => find_response_root(&**p),
                _ => Some(view.post.uri.as_str()),
            },
            None => Some(view.post.uri.as_str()),
        },
        _ => None,
    }
}

/// A post whose parent is not among `posts` (or that has none).
pub open spec fn is_local_root(posts: Seq<(Seq<char>, PostModel)>, p: PostModel) -> bool {
    match p.reply_parent {
        Some(parent) => !has_key(posts, parent),
        None => true,
    }
}

/// The first local root among the posts, in order.
pub open spec fn first_local_root(posts: Seq<(Seq<char>, PostModel)>, i: int) -> Option<Seq<char>>
    decreases posts.len() - i,
{
    if i < 0 || i >= posts.len() {
        None
    } else if is_local_root(posts, posts[i].1) {
        Some(posts[i].1.uri)
    } else {
        first_local_root(posts, i + 1)
    }
}

/// The root URI for a fetched thread: the topmost ancestor the response
/// carries, else the first collected post with no parent among them, else
/// the requested URI.
pub open spec fn spec_thread_root_of(
    node: ThreadNode,
    posts: Seq<(Seq<char>, PostModel)>,
    requested: Seq<char>,
) -> Seq<char> {
    match spec_response_root(node) {
        Some(u) => u,
        None => match first_local_root(posts, 0) {
            Some(u) => u,
            None => requested,
        },
    }
}

/// Picks the root URI for a fetched thread.
pub fn thread_root_of(node: &ThreadNode, posts: &IndexMap<String, Post>, requested: &str) -> (r: String)
    ensures
        r@ == spec_thread_root_of(*node, post_entries(*posts), requested@),
{
    if let Some(u) = find_response_root(node) {
        return String::from_str(u);
    }
    let n = post_map_len(posts);
    let ghost e = post_entries(*posts);
    let mut i: usize = 0;
    while i < n
        invariant
            n == e.len(),
            e == post_entries(*posts),
            i <= n,
            spec_response_root(*node) is None,
            first_local_root(e, 0) == first_local_root(e, i as int),
        decreases n - i,
    {
        let (_, p) = post_map_get_index(posts, i);
        let local = match &p.reply_parent {
            Some(parent) => post_map_get(posts, parent.as_str()).is_none(),
            None => true,
        };
        proof {
            assert(p@ == e[i as int].1);
            if local {
                assert(is_local_root(e, e[i as int].1));
                assert(first_local_root(e, i as int) == Some(e[i as int].1.uri));
            } else {
                assert(!is_local_root(e, e[i as int].1));
            }
        }
        if local {
            return p.uri.clone();
        }
        i += 1;
    }
    String::from_str(requested)
}

} // verus!

verus! {

/// Keys that are present stay present when an entry is inserted.
pub proof fn lemma_insert_keeps<V>(e: Seq<(Seq<char>, V)>, k: Seq<char>, v: V, j: Seq<char>)
    ensures
        has_key(e, j) ==> has_key(insert_entry(e, k, v), j),
        has_key(insert_entry(e, k, v), k),
{
    let r = insert_entry(e, k, v);
    if has_key(e, k) {
        crate::ordered_map::lemma_key_pos(e, k);
        assert(r[crate::ordered_map::key_pos(e, k)].0 == k);
    } else {
        assert(r[e.len() as int].0 == k);
    }
    if has_key(e, j) {
        let w = choose|i: int| 0 <= i < e.len() && (#[trigger] e[i]).0 == j;
        if has_key(e, k) && w == crate::ordered_map::key_pos(e, k) {
            crate::ordered_map::lemma_key_pos(e, k);
            assert(r[w].0 == k);
        } else {
            assert(r[w].0 == j);
        }
    }
}

/// Every entry's key is its post's URI.
pub open spec fn keyed_by_uri(e: Seq<(Seq<char>, PostModel)>) -> bool {
    forall|i: int| 0 <= i < e.len() ==> (#[trigger] e[i]).0 == e[i].1.uri
}

/// Walking keeps every post keyed by its own URI.
pub proof fn lemma_walk_keyed(node: ThreadNode, acc: Seq<(Seq<char>, PostModel)>)
    requires
        keyed_by_uri(acc),
    ensures
        keyed_by_uri(spec_walk(node, acc)),
    decreases node,
{
    match node {
        ThreadNode::Post(v) => {
            let p = spec_post_from_view(v.post);
            let a1 = if has_key(acc, p.uri) {
                acc
            } else {
                acc.push((p.uri, p))
            };
            assert(keyed_by_uri(a1));
            let a2 = match v.parent {
                Some(par) => spec_walk(*par, a1),
                None => a1,
            };
            match v.parent {
                Some(par) => lemma_walk_keyed(*par, a1),
                None => {},
            }
            match v.replies {
                Some(rs) => lemma_walk_list_keyed(rs@, a2),
                None => {},
            }
        },
        _ => {},
    }
}

/// [`lemma_walk_keyed`] over a list of nodes.
pub proof fn lemma_walk_list_keyed(s: Seq<ThreadNode>, acc: Seq<(Seq<char>, PostModel)>)
    requires
        keyed_by_uri(acc),
    ensures
        keyed_by_uri(spec_walk_list(s, acc)),
    decreases s,
{
    if s.len() > 0 {
        lemma_walk_keyed(s[0], acc);
        lemma_walk_list_keyed(s.drop_first(), spec_walk(s[0], acc));
    }
}


/// The abstract value of a [`Job`].
pub enum JobModel {
    /// Fetch the reply tree of `uri`.
    Thread { uri: Seq<char>, depth: usize },
    /// Fetch the posts quoting `uri`.
    Quotes { uri: Seq<char>, depth: usize },
}

impl View for Job {
    type V = JobModel;

    open spec fn view(&self) -> JobModel {
        match self {
            Job::Thread { uri, depth } => JobModel::Thread { uri: uri@, depth: *depth },
            Job::Quotes { uri, depth } => JobModel::Quotes { uri: uri@, depth: *depth },
        }
    }
}

/// `a` is a prefix of `b`.
pub open spec fn seq_prefix<A>(a: Seq<A>, b: Seq<A>) -> bool {
    a.len() <= b.len() && forall|i: int| 0 <= i < a.len() ==> #[trigger] b[i] == a[i]
}

/// Every key of `a` is a key of `b`.
pub open spec fn keys_kept(a: Seq<(Seq<char>, Seq<char>)>, b: Seq<(Seq<char>, Seq<char>)>) -> bool {
    forall|k: Seq<char>| #[trigger] has_key(a, k) ==> has_key(b, k)
}

/// The queue and the set of queued URIs after asking for a thread fetch:
/// unchanged when the URI was queued before, else the job goes last.
pub open spec fn after_enqueue(
    queue: Seq<JobModel>,
    enqueued: Seq<Seq<char>>,
    uri: Seq<char>,
    depth: usize,
) -> (Seq<JobModel>, Seq<Seq<char>>) {
    if enqueued.contains(uri) {
        (queue, enqueued)
    } else {
        (queue.push(JobModel::Thread { uri, depth }), enqueued.push(uri))
    }
}

/// The canonical form of a URI: its DID-based form when the URI names a
/// post through a handle the crawl has seen and the web holds that form;
/// the URI itself otherwise.
pub open spec fn spec_resolve(
    index: Seq<(Seq<char>, Seq<char>)>,
    handles: Seq<(Seq<char>, Seq<char>)>,
    uri: Seq<char>,
) -> Seq<char> {
    if has_key(index, uri) {
        uri
    } else {
        match spec_split_at_uri(uri) {
            None => uri,
            Some((authority, collection, rkey)) => if has_prefix(authority, "did:"@) {
                uri
            } else {
                match lookup(handles, authority) {
                    None => uri,
                    Some(did) => {
                        let canonical = "at://"@ + did + "/"@ + collection + "/"@ + rkey;
                        if has_key(index, canonical) {
                            canonical
                        } else {
                            uri
                        }
                    },
                }
            },
        }
    }
}

/// Removing a key keeps every other key.
pub proof fn lemma_remove_entry_keeps<V>(e: Seq<(Seq<char>, V)>, gone: Seq<char>, k: Seq<char>)
    requires
        has_key(e, k),
        k != gone,
    ensures
        has_key(remove_entry(e, gone), k),
{
    if has_key(e, gone) {
        crate::ordered_map::lemma_key_pos(e, gone);
        let p = crate::ordered_map::key_pos(e, gone);
        let w = choose|i: int| 0 <= i < e.len() && (#[trigger] e[i]).0 == k;
        let r = e.remove(p);
        if w < p {
            assert(r[w] == e[w]);
        } else {
            assert(r[w - 1] == e[w]);
        }
    }
}

/// Forgetting a thread's posts keeps every key that is not one of them.
pub proof fn lemma_remove_keys_keeps(
    idx: Seq<(Seq<char>, Seq<char>)>,
    posts: Seq<(Seq<char>, PostModel)>,
    k: Seq<char>,
)
    requires
        has_key(idx, k),
        !has_key(posts, k),
    ensures
        has_key(crate::model::remove_keys(idx, posts), k),
    decreases posts.len(),
{
    if posts.len() > 0 {
        let rest = posts.drop_last();
        assert(!has_key(rest, k)) by {
            if has_key(rest, k) {
                let w = choose|i: int| 0 <= i < rest.len() && (#[trigger] rest[i]).0 == k;
                assert(posts[w].0 == k);
            }
        }
        assert(posts[posts.len() - 1].0 != k);
        lemma_remove_keys_keeps(idx, rest, k);
        lemma_remove_entry_keeps(crate::model::remove_keys(idx, rest), posts.last().0, k);
    }
}

/// Inserting keeps every key that was there.
pub proof fn lemma_insert_keeps_all(idx: Seq<(Seq<char>, Seq<char>)>, k: Seq<char>, v: Seq<char>)
    ensures
        keys_kept(idx, insert_entry(idx, k, v)),
        has_key(insert_entry(idx, k, v), k),
{
    assert forall|j: Seq<char>| #[trigger] has_key(idx, j) implies has_key(insert_entry(idx, k, v), j) by {
        lemma_insert_keeps(idx, k, v, j);
    }
    lemma_insert_keeps(idx, k, v, k);
}

/// The handle index after registering the authors of `posts`, in order,
/// into `idx`.
pub open spec fn handles_after(idx: Seq<(Seq<char>, Seq<char>)>, posts: Seq<PostModel>) -> Seq<
    (Seq<char>, Seq<char>),
>
    decreases posts.len(),
{
    if posts.len() == 0 {
        idx
    } else {
        insert_entry(handles_after(idx, posts.drop_last()), posts.last().author.handle, posts.last().author.did)
    }
}

/// The deadline of a crawl that starts at clock reading `start` (in
/// nanoseconds) with a timeout of `timeout` nanoseconds, saturating.
pub open spec fn crawl_deadline(start: nat, timeout: nat) -> u128 {
    if start + timeout > u128::MAX {
        u128::MAX
    } else {
        (start + timeout) as u128
    }
}

/// Everything the crawl mutates, owned by the single sequential loop.
#[derive(Debug)]
pub struct CrawlState {
    web: ContextWeb,
    queue: VecDeque<Job>,
    enqueued: StrSet,
    visited_threads: StrSet,
    visited_quotes: StrSet,
    old_edge_counts: CountMap,
    handle_to_did: UriIndex,
    max_nodes: usize,
    max_depth: Option<usize>,
    deadline: u128,
}

impl CrawlState {
    /// The state's internal invariant: both indexes hold each key once.
    pub closed spec fn inv(&self) -> bool {
        self.web.wf() && self.handle_to_did.wf()
    }

    /// The web being built.
    pub closed spec fn web_view(&self) -> crate::model::WebModel {
        self.web@
    }

    /// The jobs waiting to run, front first.
    pub closed spec fn queue_view(&self) -> Seq<JobModel> {
        self.queue@.map_values(|j: Job| j@)
    }

    /// The URIs ever queued for a thread fetch.
    pub closed spec fn enqueued_view(&self) -> Seq<Seq<char>> {
        self.enqueued@
    }

    /// The thread roots already fetched.
    pub closed spec fn visited_threads_view(&self) -> Seq<Seq<char>> {
        self.visited_threads@
    }

    /// The post URIs already checked for quotes.
    pub closed spec fn visited_quotes_view(&self) -> Seq<Seq<char>> {
        self.visited_quotes@
    }

    /// Author handles seen so far, with their DIDs.
    pub closed spec fn handles_view(&self) -> Seq<(Seq<char>, Seq<char>)> {
        self.handle_to_did@
    }

    /// How many quote edges each post had when a previous crawl ended.
    pub closed spec fn old_edge_counts_view(&self) -> Seq<(Seq<char>, u32)> {
        self.old_edge_counts@
    }

    /// The node limit.
    pub closed spec fn max_nodes_view(&self) -> usize {
        self.max_nodes
    }

    /// The depth limit.
    pub closed spec fn max_depth_view(&self) -> Option<usize> {
        self.max_depth
    }

    /// The point on the monotonic clock, in nanoseconds, where the crawl stops.
    pub closed spec fn deadline_view(&self) -> u128 {
        self.deadline
    }

    /// Whether a hop distance lies beyond the depth limit.
    pub open spec fn beyond(&self, depth: int) -> bool {
        match self.max_depth_view() {
            Some(m) => depth > m,
            None => false,
        }
    }

    /// The limits, the handles, the visited sets and the edge counts of a
    /// previous crawl are as in `other`.
    pub open spec fn same_settings(&self, other: &Self) -> bool {
        &&& self.max_nodes_view() == other.max_nodes_view()
        &&& self.max_depth_view() == other.max_depth_view()
        &&& self.deadline_view() == other.deadline_view()
        &&& self.old_edge_counts_view() == other.old_edge_counts_view()
    }

    /// Only quote edges ending at `target` in thread `thread`, and thread
    /// fetches at `depth`, were added since `start`.
    pub open spec fn extends_links(&self, start: &Self, target: Seq<char>, thread: Seq<char>, depth: usize) -> bool {
        &&& self.inv()
        &&& self.same_settings(start)
        &&& self.handles_view() == start.handles_view()
        &&& self.visited_threads_view() == start.visited_threads_view()
        &&& self.visited_quotes_view() == start.visited_quotes_view()
        &&& self.web_view().threads == start.web_view().threads
        &&& self.web_view().index == start.web_view().index
        &&& self.web_view().root_uri == start.web_view().root_uri
        &&& self.web_view().crawled_at == start.web_view().crawled_at
        &&& seq_prefix(start.web_view().quote_edges, self.web_view().quote_edges)
        &&& forall|i: int|
            start.web_view().quote_edges.len() <= i < self.web_view().quote_edges.len() ==> (
            #[trigger] self.web_view().quote_edges[i]).target == target
                && self.web_view().quote_edges[i].target_thread == thread
        &&& seq_prefix(start.queue_view(), self.queue_view())
        &&& forall|i: int|
            start.queue_view().len() <= i < self.queue_view().len() ==> (#[trigger] self.queue_view()[i]
                matches JobModel::Thread { depth: d, .. } && d == depth)
        &&& seq_prefix(start.enqueued_view(), self.enqueued_view())
        &&& (start.beyond(depth as int) ==> self.queue_view() == start.queue_view())
    }

    /// Builds the starting state, adopting `existing` when re-crawling.
    ///
    /// The authors of the posts already in the web are registered, so
    /// handle-based URIs resolve against a previous crawl from the start.
    pub fn new<C: Clock>(
        clock: &C,
        start_uri: &str,
        options: &CrawlOptions,
        existing: Option<ContextWeb>,
    ) -> (r: CrawlState)
        requires
            existing matches Some(w) ==> w.wf(),
        ensures
            r.inv(),
            start_step(r, start_uri@, *options, existing),
    {
        let mut old_edge_counts = CountMap::new();
        let web = match existing {
            Some(mut web) => {
                let edges = web.edges();
                let ghost ev = web@.quote_edges;
                let n = edges.len();
                let mut i: usize = 0;
                proof {
                    assert(ev.take(0) =~= Seq::<crate::model::EdgeModel>::empty());
                }
                while i < n
                    invariant
                        n == edges@.len(),
                        crate::model::edges_view(edges@) == ev,
                        i <= n,
                        old_edge_counts@ == source_counts(ev.take(i as int)),
                    decreases n - i,
                {
                    proof {
                        assert(ev.take(i + 1).drop_last() =~= ev.take(i as int));
                        assert(ev.take(i + 1).last() == edges@[i as int]@);
                    }
                    old_edge_counts.add_one(edges[i].source.clone());
                    i += 1;
                }
                proof {
                    assert(ev.take(n as int) =~= ev);
                }
                web.set_crawled_at(clock.now_rfc3339());
                web
            },
            None => {
                let now = clock.now_rfc3339();
                ContextWeb::new(start_uri, now.as_str())
            },
        };
        let mut handle_to_did = UriIndex::new();
        {
            let posts = web.iter_posts();
            let n = posts.len();
            let mut i: usize = 0;
            while i < n
                invariant
                    n == posts@.len(),
                    n == web_posts(web@.threads).len(),
                    i <= n,
                    forall|k: int| 0 <= k < n ==> (#[trigger] posts@[k])@ == web_posts(web@.threads)[k],
                    handle_to_did.wf(),
                    handle_to_did@ == handles_after(Seq::empty(), web_posts(web@.threads).take(i as int)),
                decreases n - i,
            {
                let p = posts[i];
                handle_to_did.insert(p.author.handle.clone(), p.author.did.clone());
                proof {
                    let all = web_posts(web@.threads);
                    assert(all.take(i + 1).drop_last() =~= all.take(i as int));
                }
                i += 1;
            }
            proof {
                assert(web_posts(web@.threads).take(n as int) =~= web_posts(web@.threads));
            }
        }
        let started = clock.elapsed();
        let start = duration_nanos(started);
        let timeout = duration_nanos(options.timeout);
        let r = CrawlState {
            web,
            queue: VecDeque::new(),
            enqueued: StrSet::new(),
            visited_threads: StrSet::new(),
            visited_quotes: StrSet::new(),
            old_edge_counts,
            handle_to_did,
            max_nodes: options.max_nodes,
            max_depth: options.max_depth,
            deadline: start.saturating_add(timeout),
        };
        proof {
            assert(r.queue_view() =~= Seq::<JobModel>::empty());
            assert(r.deadline_view() == crawl_deadline(nanos_of(started), nanos_of(options.timeout)));
        }
        r
    }

    /// Queues a thread fetch unless that URI was queued before.
    pub fn enqueue(&mut self, uri: String, depth: usize)
        requires
            old(self).inv(),
        ensures
            final(self).inv(),
            enqueue_step(*old(self), *final(self), uri@, depth),
    {
        let key = uri.clone();
        if self.enqueued.insert(key) {
            let ghost before = self.queue@;
            self.queue.push_back(Job::Thread { uri, depth });
            proof {
                assert(self.queue@ == before.push(Job::Thread { uri, depth }));
                assert(self.queue_view() =~= old(self).queue_view().push(JobModel::Thread { uri: uri@, depth }));
            }
        }
    }

    /// Why a crawl that ends when the monotonic clock reads `elapsed` stopped:
    /// the deadline passed, else the node limit was reached, else the work
    /// ran out.
    pub open spec fn stop_reason_at(&self, elapsed: Duration) -> StopReason {
        if nanos_of(elapsed) > self.deadline_view() {
            StopReason::Timeout
        } else if self.web_view().index.len() >= self.max_nodes_view() {
            StopReason::MaxNodes
        } else {
            StopReason::Complete
        }
    }

    /// Whether the crawl stops when the monotonic clock reads `elapsed`: the
    /// node limit is reached or the deadline has passed.
    pub open spec fn stops_at(&self, elapsed: Duration) -> bool {
        self.web_view().index.len() >= self.max_nodes_view() || nanos_of(elapsed) > self.deadline_view()
    }

    /// Whether the crawl stops when the monotonic clock reads `elapsed`.
    pub fn stop_at(&self, elapsed: Duration) -> (r: bool)
        ensures
            r == self.stops_at(elapsed),
    {
        self.web.node_count() >= self.max_nodes || duration_nanos(elapsed) > self.deadline
    }

    /// Returns whether the node limit or the deadline has been reached, by
    /// one reading of the clock.
    pub fn should_stop<C: Clock>(&self, clock: &C) -> (r: bool)
        ensures
            self.web_view().index.len() >= self.max_nodes_view() ==> r,
            !r ==> self.web_view().index.len() < self.max_nodes_view(),
            exists|elapsed: Duration| r == self.stops_at(elapsed),
    {
        let elapsed = clock.elapsed();
        self.stop_at(elapsed)
    }

    /// Whether a queued job is one `next_job` drops: a thread fetch beyond
    /// the depth limit or into a thread already fetched.
    pub open spec fn skippable(&self, job: JobModel) -> bool {
        job matches JobModel::Thread { uri, depth } && (self.beyond(depth as int) || match lookup(
            self.web_view().index,
            uri,
        ) {
            Some(root) => self.visited_threads_view().contains(root),
            None => false,
        })
    }

    /// Returns whether a hop distance is beyond the depth limit.
    pub fn over_depth(&self, depth: usize) -> (r: bool)
        ensures
            r == self.beyond(depth as int),
    {
        match self.max_depth {
            Some(max) => depth > max,
            None => false,
        }
    }

    /// Pops the next job worth running, skipping thread fetches beyond the
    /// depth limit or into threads already fetched.
    pub fn next_job<C: Clock>(&mut self, clock: &C) -> (r: Option<Job>)
        requires
            old(self).inv(),
        ensures
            final(self).inv(),
            next_job_step(*old(self), *final(self), r),
    {
        loop
            invariant
                forall|i: int|
                    0 <= i < old(self).queue_view().len() - self.queue_view().len() ==> old(self).skippable(
                        #[trigger] old(self).queue_view()[i],
                    ),
                self.inv(),
                self.web == old(self).web,
                self.enqueued == old(self).enqueued,
                self.visited_threads == old(self).visited_threads,
                self.visited_quotes == old(self).visited_quotes,
                self.handle_to_did == old(self).handle_to_did,
                self.old_edge_counts == old(self).old_edge_counts,
                self.max_depth == old(self).max_depth,
                self.max_nodes == old(self).max_nodes,
                self.deadline == old(self).deadline,
                self.queue_view().len() <= old(self).queue_view().len(),
                self.queue_view() == old(self).queue_view().skip(
                    old(self).queue_view().len() - self.queue_view().len(),
                ),
            decreases self.queue@.len(),
        {
            if self.should_stop(clock) {
                proof {
                    let e = choose|e: Duration| self.stops_at(e);
                    assert(old(self).stops_at(e));
                }
                return None;
            }
            let ghost before = self.queue_view();
            let job = match self.queue.pop_front() {
                Some(j) => j,
                None => return None,
            };
            proof {
                assert(self.queue_view() =~= before.drop_first());
                assert(job@ == before[0]);
                assert(old(self).queue_view().skip(old(self).queue_view().len() - self.queue_view().len()) =~= before.drop_first());
            }
            let skip = match &job {
                Job::Thread { uri, depth } => {
                    if self.over_depth(*depth) {
                        true
                    } else {
                        match self.web.thread_root_for(uri.as_str()) {
                            Some(root) => self.visited_threads.contains(root),
                            None => false,
                        }
                    }
                },
                Job::Quotes { .. } => false,
            };
            if !skip {
                return Some(job);
            }
            proof {
                let k = old(self).queue_view().len() - before.len();
                assert(old(self).queue_view()[k] == before[0]);
            }
        }
    }

    /// Records a handle to DID mapping from a post's author.
    pub fn register_post(&mut self, post: &Post)
        requires
            old(self).inv(),
        ensures
            final(self).inv(),
            final(self).same_settings(old(self)),
            final(self).handles_view() == insert_entry(old(self).handles_view(), post@.author.handle, post@.author.did),
            final(self).web_view() == old(self).web_view(),
            final(self).queue_view() == old(self).queue_view(),
            final(self).enqueued_view() == old(self).enqueued_view(),
            final(self).visited_threads_view() == old(self).visited_threads_view(),
            final(self).visited_quotes_view() == old(self).visited_quotes_view(),
    {
        self.handle_to_did.insert(post.author.handle.clone(), post.author.did.clone());
    }

    /// Normalizes a handle-based AT URI to its canonical DID-based form.
    ///
    /// Returns the URI unchanged when it already names a post in the web,
    /// is not a three-segment AT URI, already uses a DID, names a handle
    /// this crawl has not seen, or when the DID-based form is not in the web.
    pub fn resolve_uri(&self, uri: &str) -> (r: String)
        ensures
            r@ == spec_resolve(self.web_view().index, self.handles_view(), uri@),
    {
        if self.web.has_post(uri) {
            return String::from_str(uri);
        }
        let parts = match split_at_uri(uri) {
            Some(p) => p,
            None => return String::from_str(uri),
        };
        if starts_with(parts.authority, "did:") {
            return String::from_str(uri);
        }
        let did = match self.handle_to_did.get(parts.authority) {
            Some(d) => d,
            None => return String::from_str(uri),
        };
        let mut canonical = String::from_str("at://");
        canonical.append(did.as_str());
        canonical.append("/");
        canonical.append(parts.collection);
        canonical.append("/");
        canonical.append(parts.rkey);
        proof {
            reveal_strlit("at://");
            reveal_strlit("/");
            reveal_strlit("did:");
        }
        if self.web.has_post(canonical.as_str()) {
            canonical
        } else {
            String::from_str(uri)
        }
    }
}

impl CrawlState {
    /// Adds the edge from a quoted post to the post quoting it.
    pub fn add_quote_edge(&mut self, source: &str, target: &Post, target_thread: &str)
        requires
            old(self).inv(),
        ensures
            final(self).extends_links(old(self), target@.uri, target_thread@, 0),
            final(self).queue_view() == old(self).queue_view(),
            final(self).enqueued_view() == old(self).enqueued_view(),
            final(self).web_view().quote_edges == old(self).web_view().quote_edges.push(
                crate::model::EdgeModel {
                    source: source@,
                    target: target@.uri,
                    source_thread: match lookup(old(self).web_view().index, source@) {
                        Some(root) => root,
                        None => source@,
                    },
                    target_thread: target_thread@,
                },
            ),
    {
        let source_thread = match self.web.thread_root_for(source) {
            Some(root) => String::from_str(root),
            None => String::from_str(source),
        };
        self.web.push_quote_edge(
            QuoteEdge {
                source: String::from_str(source),
                target: target.uri.clone(),
                source_thread,
                target_thread: String::from_str(target_thread),
            },
        );
    }

    /// Queues a quoted post's thread when the web does not hold it yet and
    /// the next hop stays within the depth limit.
    pub fn follow_quote(&mut self, resolved: &str, uri: &str, depth: usize)
        requires
            old(self).inv(),
            depth < usize::MAX,
        ensures
            final(self).inv(),
            final(self).same_settings(old(self)),
            final(self).web_view() == old(self).web_view(),
            final(self).handles_view() == old(self).handles_view(),
            final(self).visited_threads_view() == old(self).visited_threads_view(),
            final(self).visited_quotes_view() == old(self).visited_quotes_view(),
            (final(self).queue_view(), final(self).enqueued_view()) == if lookup(
                old(self).web_view().index,
                resolved@,
            ) is None && !old(self).beyond(depth + 1) {
                after_enqueue(old(self).queue_view(), old(self).enqueued_view(), uri@, (depth + 1) as usize)
            } else {
                (old(self).queue_view(), old(self).enqueued_view())
            },
    {
        if self.web.thread_root_for(resolved).is_none() && !self.over_depth(depth + 1) {
            self.enqueue(String::from_str(uri), depth + 1);
        }
    }
}

/// What recording a post's quote links changes: the quote edges, the job
/// queue and the URIs ever queued.
pub struct LinkState {
    pub edges: Seq<crate::model::EdgeModel>,
    pub queue: Seq<JobModel>,
    pub enqueued: Seq<Seq<char>>,
}

/// The link URIs among some facet features, in order.
pub open spec fn feature_links(fs: Seq<crate::model::FeatureModel>) -> Seq<Seq<char>>
    decreases fs.len(),
{
    if fs.len() == 0 {
        Seq::empty()
    } else {
        let rest = feature_links(fs.drop_last());
        match fs.last() {
            crate::model::FeatureModel::Link(u) => rest.push(u),
            _ => rest,
        }
    }
}

/// The link URIs of a post's facets, facet by facet, in order.
pub open spec fn facet_links(facets: Seq<crate::model::FacetModel>) -> Seq<Seq<char>>
    decreases facets.len(),
{
    if facets.len() == 0 {
        Seq::empty()
    } else {
        facet_links(facets.drop_last()) + feature_links(facets.last().features)
    }
}

/// A quote of `resolved` by the post `target` of thread `root` recorded:
/// the edge, and the quoted post's thread queued (by the URI as written,
/// `raw`) one level deeper when the web lacks it and the limit allows.
pub open spec fn link_step(
    s: LinkState,
    index: Seq<(Seq<char>, Seq<char>)>,
    resolved: Seq<char>,
    raw: Seq<char>,
    target: Seq<char>,
    root: Seq<char>,
    depth: usize,
    beyond: bool,
) -> LinkState {
    let edge = crate::model::EdgeModel {
        source: resolved,
        target,
        source_thread: match lookup(index, resolved) {
            Some(r) => r,
            None => resolved,
        },
        target_thread: root,
    };
    let jobs = if lookup(index, resolved) is None && !beyond {
        after_enqueue(s.queue, s.enqueued, raw, (depth + 1) as usize)
    } else {
        (s.queue, s.enqueued)
    };
    LinkState { edges: s.edges.push(edge), queue: jobs.0, enqueued: jobs.1 }
}

/// The facet links of post `p` recorded in order: each that names a post
/// other than the embed's target and `p` itself.
pub open spec fn link_fold(
    s: LinkState,
    index: Seq<(Seq<char>, Seq<char>)>,
    handles: Seq<(Seq<char>, Seq<char>)>,
    links: Seq<Seq<char>>,
    embed_target: Seq<char>,
    p: PostModel,
    root: Seq<char>,
    depth: usize,
    beyond: bool,
) -> LinkState
    decreases links.len(),
{
    if links.len() == 0 {
        s
    } else {
        let prev = link_fold(s, index, handles, links.drop_last(), embed_target, p, root, depth, beyond);
        match crate::uri::spec_post_uri_from_link(links.last()) {
            None => prev,
            Some(fu) => {
                let r = spec_resolve(index, handles, fu);
                if r == embed_target || r == p.uri {
                    prev
                } else {
                    link_step(prev, index, r, fu, p.uri, root, depth, beyond)
                }
            },
        }
    }
}

/// The quotes a post declares recorded: its embed first, then its facet
/// links.
pub open spec fn spec_link_quotes(
    s: LinkState,
    index: Seq<(Seq<char>, Seq<char>)>,
    handles: Seq<(Seq<char>, Seq<char>)>,
    p: PostModel,
    root: Seq<char>,
    depth: usize,
    beyond: bool,
) -> LinkState {
    let et = match p.embed_uri {
        Some(e) => spec_resolve(index, handles, e),
        None => Seq::<char>::empty(),
    };
    let s1 = match p.embed_uri {
        Some(e) => link_step(s, index, et, e, p.uri, root, depth, beyond),
        None => s,
    };
    link_fold(s1, index, handles, facet_links(p.facets), et, p, root, depth, beyond)
}

impl CrawlState {
    /// Records the quote edges a post declares, through its embed and
    /// through any link facet that points at another post, and queues the
    /// threads of quoted posts the web does not hold yet.
    ///
    /// A link that resolves to the embedded post or to the post itself adds
    /// no second edge.
    pub fn link_quotes(&mut self, post: &Post, root_uri: &str, depth: usize)
        requires
            old(self).inv(),
            depth < usize::MAX,
        ensures
            final(self).extends_links(old(self), post@.uri, root_uri@, (depth + 1) as usize),
            post@.embed_uri matches Some(e) ==> final(self).web_view().quote_edges.len() > old(self).web_view().quote_edges.len()
                && final(self).web_view().quote_edges[old(self).web_view().quote_edges.len() as int].source
                == spec_resolve(old(self).web_view().index, old(self).handles_view(), e),
            (LinkState {
                edges: final(self).web_view().quote_edges,
                queue: final(self).queue_view(),
                enqueued: final(self).enqueued_view(),
            }) == spec_link_quotes(
                LinkState {
                    edges: old(self).web_view().quote_edges,
                    queue: old(self).queue_view(),
                    enqueued: old(self).enqueued_view(),
                },
                old(self).web_view().index,
                old(self).handles_view(),
                post@,
                root_uri@,
                depth,
                old(self).beyond(depth + 1),
            ),
    {
        let ghost start = *self;
        let ghost idx = self.web_view().index;
        let ghost hd = self.handles_view();
        let ghost bey = self.beyond(depth + 1);
        let ghost pv = post@;
        let ghost s0 = LinkState {
            edges: self.web_view().quote_edges,
            queue: self.queue_view(),
            enqueued: self.enqueued_view(),
        };
        let ghost et = match pv.embed_uri {
            Some(e) => spec_resolve(idx, hd, e),
            None => Seq::<char>::empty(),
        };
        let ghost s1 = match pv.embed_uri {
            Some(e) => link_step(s0, idx, et, e, pv.uri, root_uri@, depth, bey),
            None => s0,
        };
        let embed_target = match &post.embed_uri {
            Some(embed_uri) => {
                let resolved = self.resolve_uri(embed_uri.as_str());
                self.add_quote_edge(resolved.as_str(), post, root_uri);
                self.follow_quote(resolved.as_str(), embed_uri.as_str(), depth);
                resolved
            },
            None => {
                proof {
                    reveal_strlit("");
                }
                String::new()
            },
        };
        proof {
            assert(embed_target@ == et);
            assert(LinkState {
                edges: self.web_view().quote_edges,
                queue: self.queue_view(),
                enqueued: self.enqueued_view(),
            } == s1);
            assert(facet_links(pv.facets.take(0)) =~= Seq::<Seq<char>>::empty());
        }
        let ghost mid_edges = self.web_view().quote_edges;
        let nf = post.facets.len();
        let mut i: usize = 0;
        while i < nf
            invariant
                nf == post.facets@.len(),
                i <= nf,
                depth < usize::MAX,
                self.extends_links(&start, post@.uri, root_uri@, (depth + 1) as usize),
                seq_prefix(mid_edges, self.web_view().quote_edges),
                idx == start.web_view().index,
                hd == start.handles_view(),
                bey == start.beyond(depth + 1),
                pv == post@,
                embed_target@ == et,
                (LinkState {
                    edges: self.web_view().quote_edges,
                    queue: self.queue_view(),
                    enqueued: self.enqueued_view(),
                }) == link_fold(s1, idx, hd, facet_links(pv.facets.take(i as int)), et, pv, root_uri@, depth, bey),
            decreases nf - i,
        {
            let features = &post.facets[i].features;
            let ghost fv = pv.facets[i as int].features;
            let ghost before = facet_links(pv.facets.take(i as int));
            proof {
                assert(fv == crate::model::features_view(features@));
                assert(feature_links(fv.take(0)) =~= Seq::<Seq<char>>::empty());
                assert(before + feature_links(fv.take(0)) =~= before);
            }
            let nt = features.len();
            let mut j: usize = 0;
            while j < nt
                invariant
                    nt == features@.len(),
                    j <= nt,
                    depth < usize::MAX,
                    self.extends_links(&start, post@.uri, root_uri@, (depth + 1) as usize),
                    seq_prefix(mid_edges, self.web_view().quote_edges),
                    idx == start.web_view().index,
                    hd == start.handles_view(),
                    bey == start.beyond(depth + 1),
                    pv == post@,
                    embed_target@ == et,
                    fv == crate::model::features_view(features@),
                    (LinkState {
                        edges: self.web_view().quote_edges,
                        queue: self.queue_view(),
                        enqueued: self.enqueued_view(),
                    }) == link_fold(s1, idx, hd, before + feature_links(fv.take(j as int)), et, pv, root_uri@, depth, bey),
                decreases nt - j,
            {
                proof {
                    let l1 = before + feature_links(fv.take(j + 1));
                    assert(fv.take(j + 1).drop_last() =~= fv.take(j as int));
                    assert(fv.take(j + 1).last() == features@[j as int]@);
                    if features@[j as int]@ is Link {
                        assert(l1.drop_last() =~= before + feature_links(fv.take(j as int)));
                    } else {
                        assert(l1 =~= before + feature_links(fv.take(j as int)));
                    }
                }
                if let FacetFeature::Link { uri } = &features[j] {
                    if let Some(facet_uri) = post_uri_from_link(uri.as_str()) {
                        let resolved = self.resolve_uri(facet_uri.as_str());
                        let duplicate = str_eq(resolved.as_str(), embed_target.as_str())
                            || str_eq(resolved.as_str(), post.uri.as_str());
                        if !duplicate {
                            self.add_quote_edge(resolved.as_str(), post, root_uri);
                            self.follow_quote(resolved.as_str(), facet_uri.as_str(), depth);
                        }
                    }
                }
                j += 1;
            }
            proof {
                assert(fv.take(nt as int) =~= fv);
                assert(pv.facets.take(i + 1).drop_last() =~= pv.facets.take(i as int));
                assert(facet_links(pv.facets.take(i + 1)) == before + feature_links(fv));
            }
            i += 1;
        }
        proof {
            assert(pv.facets.take(nf as int) =~= pv.facets);
        }
    }
}

/// The root of the thread the web files the first of `posts` under, among
/// those it already holds.
pub open spec fn existing_root(
    index: Seq<(Seq<char>, Seq<char>)>,
    posts: Seq<(Seq<char>, PostModel)>,
) -> Option<Seq<char>>
    decreases posts.len(),
{
    if posts.len() == 0 {
        None
    } else {
        match lookup(index, posts[0].0) {
            Some(r) => Some(r),
            None => existing_root(index, posts.drop_first()),
        }
    }
}

/// The first `i` posts are unknown to the index; the next one decides.
proof fn lemma_existing_root(index: Seq<(Seq<char>, Seq<char>)>, posts: Seq<(Seq<char>, PostModel)>, i: int)
    requires
        0 <= i <= posts.len(),
        forall|x: int| 0 <= x < i ==> lookup(index, (#[trigger] posts[x]).0) is None,
    ensures
        existing_root(index, posts) == if i < posts.len() && lookup(index, posts[i].0) is Some {
            lookup(index, posts[i].0)
        } else if i == posts.len() {
            None
        } else {
            existing_root(index, posts.skip(i + 1))
        },
    decreases i,
{
    if i > 0 {
        let rest = posts.drop_first();
        assert forall|x: int| 0 <= x < i - 1 implies lookup(index, (#[trigger] rest[x]).0) is None by {
            assert(rest[x] == posts[x + 1]);
        }
        lemma_existing_root(index, rest, i - 1);
        if i < posts.len() {
            assert(rest.skip(i) =~= posts.skip(i + 1));
        }
    } else if posts.len() > 0 {
        assert(posts.skip(1) =~= posts.drop_first());
    }
}

/// The web with a post filed under `root`, as `ContextWeb::add_post` files it.
pub open spec fn web_add_post(w: crate::model::WebModel, root: Seq<char>, p: PostModel) -> crate::model::WebModel {
    crate::model::WebModel {
        index: insert_entry(w.index, p.uri, root),
        threads: crate::model::threads_add_post(w.threads, root, p),
        ..w
    }
}

/// The web with each of `posts` whose key it does not hold filed under
/// `root`, in order.
pub open spec fn readd_posts(
    w: crate::model::WebModel,
    root: Seq<char>,
    posts: Seq<(Seq<char>, PostModel)>,
) -> crate::model::WebModel
    decreases posts.len(),
{
    if posts.len() == 0 {
        w
    } else {
        let prev = readd_posts(w, root, posts.drop_last());
        if has_key(prev.index, posts.last().0) {
            prev
        } else {
            web_add_post(prev, root, posts.last().1)
        }
    }
}

/// The web with an empty thread for `root` when it holds none.
pub open spec fn ensure_thread(w: crate::model::WebModel, root: Seq<char>) -> crate::model::WebModel {
    if has_key(w.threads, root) {
        w
    } else {
        crate::model::WebModel {
            threads: insert_entry(
                w.threads,
                root,
                crate::model::ThreadModel { root_uri: root, posts: Seq::empty() },
            ),
            ..w
        }
    }
}

/// Where a fetched thread rooted at `root` goes: when some of its posts
/// are already filed under another root, that thread is folded into this
/// one (its posts move over unless already held, and quote edges follow
/// them); otherwise the thread is added if the web lacks it.
pub open spec fn spec_place(
    w: crate::model::WebModel,
    root: Seq<char>,
    posts: Seq<(Seq<char>, PostModel)>,
) -> crate::model::WebModel {
    match existing_root(w.index, posts) {
        None => ensure_thread(w, root),
        Some(ex) => if ex == root {
            w
        } else {
            let w1 = match lookup(w.threads, ex) {
                Some(t) => crate::model::WebModel {
                    threads: remove_entry(w.threads, ex),
                    index: crate::model::remove_keys(w.index, t.posts),
                    ..w
                },
                None => w,
            };
            let w2 = ensure_thread(w1, root);
            let w3 = match lookup(w.threads, ex) {
                Some(t) => readd_posts(w2, root, t.posts),
                None => w2,
            };
            crate::model::WebModel { quote_edges: crate::model::retargeted(w3.quote_edges, ex, root), ..w3 }
        },
    }
}

impl CrawlState {
    /// Makes sure a thread exists at `root_uri`, merging a thread whose
    /// posts turned out to belong under a different root: the first of
    /// `posts` already in the web names the thread they were filed under,
    /// and when that is another root, its posts move to `root_uri` and the
    /// quote edges follow them.
    pub fn place_thread(&mut self, root_uri: &str, posts: &IndexMap<String, Post>)
        requires
            old(self).inv(),
        ensures
            final(self).inv(),
            final(self).same_settings(old(self)),
            final(self).handles_view() == old(self).handles_view(),
            final(self).queue_view() == old(self).queue_view(),
            final(self).enqueued_view() == old(self).enqueued_view(),
            final(self).visited_threads_view() == old(self).visited_threads_view(),
            final(self).visited_quotes_view() == old(self).visited_quotes_view(),
            final(self).web_view() == spec_place(old(self).web_view(), root_uri@, post_entries(*posts)),
            final(self).web_view().root_uri == old(self).web_view().root_uri,
            final(self).web_view().crawled_at == old(self).web_view().crawled_at,
    {
        let ghost w0 = self.web@;
        let ghost pe = post_entries(*posts);
        let n = post_map_len(posts);
        let mut found: Option<String> = None;
        let mut i: usize = 0;
        while i < n && found.is_none()
            invariant
                n == pe.len(),
                pe == post_entries(*posts),
                w0 == self.web@,
                i <= n,
                found is None ==> forall|x: int| 0 <= x < i ==> lookup(w0.index, (#[trigger] pe[x]).0) is None,
                found matches Some(r) ==> existing_root(w0.index, pe) == Some(r@),
            decreases n - i,
        {
            let (k, _) = post_map_get_index(posts, i);
            if let Some(root) = self.web.thread_root_for(k.as_str()) {
                proof {
                    lemma_existing_root(w0.index, pe, i as int);
                }
                found = Some(String::from_str(root));
            }
            i += 1;
        }
        proof {
            if found is None {
                lemma_existing_root(w0.index, pe, n as int);
            }
        }
        match found {
            Some(existing) => {
                if !str_eq(existing.as_str(), root_uri) {
                    let removed = self.web.remove_thread(existing.as_str());
                    let ghost w1 = self.web@;
                    if self.web.thread(root_uri).is_none() {
                        self.web.add_thread(Thread::new(root_uri));
                    }
                    let ghost w2 = self.web@;
                    proof {
                        assert(w2 == ensure_thread(w1, root_uri@));
                    }
                    if let Some(t) = removed {
                        let ghost tp = t@.posts;
                        let entries = post_map_into_entries(t.posts);
                        let m = entries.len();
                        let mut j: usize = 0;
                        proof {
                            assert(tp.take(0) =~= Seq::<(Seq<char>, PostModel)>::empty());
                        }
                        while j < m
                            invariant
                                m == entries@.len(),
                                m == tp.len(),
                                forall|x: int| 0 <= x < m ==> (#[trigger] entries@[x]).0@ == tp[x].0 && entries@[x].1@ == tp[x].1,
                                j <= m,
                                self.web.wf(),
                                self.web@ == readd_posts(w2, root_uri@, tp.take(j as int)),
                                self.web@.root_uri == old(self).web@.root_uri,
                                self.web@.crawled_at == old(self).web@.crawled_at,
                                self.handle_to_did.wf(),
                                self.queue == old(self).queue,
                                self.enqueued == old(self).enqueued,
                                self.visited_threads == old(self).visited_threads,
                                self.visited_quotes == old(self).visited_quotes,
                                self.old_edge_counts == old(self).old_edge_counts,
                                self.handle_to_did == old(self).handle_to_did,
                                self.max_nodes == old(self).max_nodes,
                                self.max_depth == old(self).max_depth,
                                self.deadline == old(self).deadline,
                            decreases m - j,
                        {
                            let (k, p) = &entries[j];
                            proof {
                                assert(tp.take(j + 1).drop_last() =~= tp.take(j as int));
                                assert(tp.take(j + 1).last() == tp[j as int]);
                            }
                            if !self.web.has_post(k.as_str()) {
                                let q = p.clone();
                                self.web.add_post(root_uri, q);
                            }
                            j += 1;
                        }
                        proof {
                            assert(tp.take(m as int) =~= tp);
                        }
                    }
                    self.web.retarget_quote_edges(existing.as_str(), root_uri);
                }
            },
            None => {
                if self.web.thread(root_uri).is_none() {
                    self.web.add_thread(Thread::new(root_uri));
                }
            },
        }
    }
}

/// A stored post with the engagement counts of a fresh copy.
pub open spec fn with_counts(stored: PostModel, fresh: PostModel) -> PostModel {
    PostModel {
        like_count: fresh.like_count,
        reply_count: fresh.reply_count,
        repost_count: fresh.repost_count,
        quote_count: fresh.quote_count,
        ..stored
    }
}

/// A fetched post `p` (under `key`) taken in: a post the web stores gets
/// its counts refreshed, a new one is filed under `root`.
pub open spec fn refresh_post(w: crate::model::WebModel, root: Seq<char>, key: Seq<char>, p: PostModel) -> crate::model::WebModel {
    match crate::model::web_post_at(w, key) {
        Some(stored) => crate::model::WebModel {
            threads: crate::model::set_post(w.threads, lookup(w.index, key)->0, key, with_counts(stored, p)),
            ..w
        },
        None => web_add_post(w, root, p),
    }
}

/// Taking in a fresh copy of a post the web already stores refreshes its
/// like, reply, repost and quote counts from the fresh copy and keeps every
/// other field of the stored copy, in the thread that holds it.
pub proof fn lemma_refresh_counts(w: crate::model::WebModel, root: Seq<char>, key: Seq<char>, fresh: PostModel)
    requires
        crate::model::web_post_at(w, key) is Some,
    ensures
        ({
            let stored = crate::model::web_post_at(w, key)->0;
            let after = refresh_post(w, root, key, fresh);
            &&& after.index == w.index
            &&& crate::model::web_post_at(after, key) matches Some(q) && {
                &&& q.like_count == fresh.like_count
                &&& q.reply_count == fresh.reply_count
                &&& q.repost_count == fresh.repost_count
                &&& q.quote_count == fresh.quote_count
                &&& q.uri == stored.uri
                &&& q.cid == stored.cid
                &&& q.author == stored.author
                &&& q.text == stored.text
                &&& q.created_at == stored.created_at
                &&& q.reply_parent == stored.reply_parent
                &&& q.reply_root == stored.reply_root
                &&& q.embed_type == stored.embed_type
                &&& q.embed_uri == stored.embed_uri
                &&& q.facets == stored.facets
                &&& q.labels == stored.labels
                &&& q.langs == stored.langs
            }
        }),
{
    let stored = crate::model::web_post_at(w, key)->0;
    let r = lookup(w.index, key)->0;
    let th = w.threads;
    crate::ordered_map::lemma_key_pos(th, r);
    let i = crate::ordered_map::key_pos(th, r);
    let t = th[i].1;
    crate::ordered_map::lemma_key_pos(t.posts, key);
    let j = crate::ordered_map::key_pos(t.posts, key);
    let q = with_counts(stored, fresh);
    let t2 = crate::model::ThreadModel { root_uri: t.root_uri, posts: t.posts.update(j, (t.posts[j].0, q)) };
    crate::ordered_map::lemma_update_value(th, i, t2, r);
    crate::ordered_map::lemma_update_value(t.posts, j, q, key);
    assert(crate::model::set_post(th, r, key, q) == th.update(i, (th[i].0, t2)));
}

/// Walking keeps every key at most once.
proof fn lemma_walk_distinct(node: ThreadNode, acc: Seq<(Seq<char>, PostModel)>)
    requires
        crate::ordered_map::distinct_keys(acc),
    ensures
        crate::ordered_map::distinct_keys(spec_walk(node, acc)),
    decreases node,
{
    match node {
        ThreadNode::Post(v) => {
            let p = spec_post_from_view(v.post);
            let a1 = if has_key(acc, p.uri) {
                acc
            } else {
                acc.push((p.uri, p))
            };
            crate::model::lemma_insert_distinct(acc, p.uri, p);
            if !has_key(acc, p.uri) {
                assert(a1 == insert_entry(acc, p.uri, p));
            }
            let a2 = match v.parent {
                Some(par) => spec_walk(*par, a1),
                None => a1,
            };
            match v.parent {
                Some(par) => lemma_walk_distinct(*par, a1),
                None => {},
            }
            match v.replies {
                Some(rs) => lemma_walk_list_distinct(rs@, a2),
                None => {},
            }
        },
        _ => {},
    }
}

/// [`lemma_walk_distinct`] over a list of nodes.
proof fn lemma_walk_list_distinct(s: Seq<ThreadNode>, acc: Seq<(Seq<char>, PostModel)>)
    requires
        crate::ordered_map::distinct_keys(acc),
    ensures
        crate::ordered_map::distinct_keys(spec_walk_list(s, acc)),
    decreases s,
{
    if s.len() > 0 {
        lemma_walk_distinct(s[0], acc);
        lemma_walk_list_distinct(s.drop_first(), spec_walk(s[0], acc));
    }
}

/// Filing a post leaves every other post of the web where it was.
proof fn lemma_add_post_frame(w: crate::model::WebModel, root: Seq<char>, p: PostModel, k: Seq<char>)
    requires
        k != p.uri,
    ensures
        crate::model::web_post_at(web_add_post(w, root, p), k) == crate::model::web_post_at(w, k),
{
    let w2 = web_add_post(w, root, p);
    crate::model::lemma_lookup_insert(w.index, p.uri, root, k);
    if let Some(r2) = lookup(w.index, k) {
        let th = w.threads;
        if has_key(th, root) {
            crate::ordered_map::lemma_key_pos(th, root);
            let i = crate::ordered_map::key_pos(th, root);
            let t2 = crate::model::ThreadModel { root_uri: th[i].1.root_uri, posts: insert_entry(th[i].1.posts, p.uri, p) };
            crate::ordered_map::lemma_update_value(th, i, t2, r2);
            crate::model::lemma_lookup_insert(th[i].1.posts, p.uri, p, k);
            if has_key(th, r2) {
                crate::ordered_map::lemma_key_pos(th, r2);
            }
        } else {
            let t2 = crate::model::ThreadModel { root_uri: root, posts: seq![(p.uri, p)] };
            assert(w2.threads == insert_entry(th, root, t2));
            crate::model::lemma_lookup_insert(th, root, t2, r2);
            if r2 == root {
                assert(!has_key(t2.posts, k));
            }
        }
    }
}

/// Taking in a fresh post leaves every other post of the web where it was.
proof fn lemma_refresh_frame(w: crate::model::WebModel, root: Seq<char>, key: Seq<char>, p: PostModel, k: Seq<char>)
    requires
        k != key,
        k != p.uri,
    ensures
        crate::model::web_post_at(refresh_post(w, root, key, p), k) == crate::model::web_post_at(w, k),
{
    match crate::model::web_post_at(w, key) {
        Some(stored) => {
            let rk = lookup(w.index, key)->0;
            let th = w.threads;
            crate::ordered_map::lemma_key_pos(th, rk);
            let i = crate::ordered_map::key_pos(th, rk);
            let t = th[i].1;
            crate::ordered_map::lemma_key_pos(t.posts, key);
            let j = crate::ordered_map::key_pos(t.posts, key);
            let q = with_counts(stored, p);
            let t2 = crate::model::ThreadModel { root_uri: t.root_uri, posts: t.posts.update(j, (t.posts[j].0, q)) };
            assert(crate::model::set_post(th, rk, key, q) == th.update(i, (th[i].0, t2)));
            if let Some(r2) = lookup(w.index, k) {
                crate::ordered_map::lemma_update_value(th, i, t2, r2);
                crate::ordered_map::lemma_update_value(t.posts, j, q, k);
                if has_key(th, r2) {
                    crate::ordered_map::lemma_key_pos(th, r2);
                }
                if has_key(t.posts, k) {
                    crate::ordered_map::lemma_key_pos(t.posts, k);
                }
            }
        },
        None => {
            lemma_add_post_frame(w, root, p, k);
        },
    }
}

/// Taking in posts under other keys leaves a post of the web where it was.
proof fn lemma_refresh_posts_frame(
    w: crate::model::WebModel,
    root: Seq<char>,
    posts: Seq<(Seq<char>, PostModel)>,
    k: Seq<char>,
)
    requires
        forall|i: int| 0 <= i < posts.len() ==> (#[trigger] posts[i]).0 != k && posts[i].1.uri != k,
    ensures
        crate::model::web_post_at(refresh_posts(w, root, posts), k) == crate::model::web_post_at(w, k),
    decreases posts.len(),
{
    if posts.len() > 0 {
        let init = posts.drop_last();
        assert forall|i: int| 0 <= i < init.len() implies (#[trigger] init[i]).0 != k && init[i].1.uri != k by {
            assert(init[i] == posts[i]);
        }
        lemma_refresh_posts_frame(w, root, init, k);
        assert(posts[posts.len() - 1] == posts.last());
        lemma_refresh_frame(refresh_posts(w, root, init), root, posts.last().0, posts.last().1, k);
    }
}

/// `q` is the stored post `stored` with the engagement counts of `fresh`.
spec fn counts_refreshed(q: PostModel, stored: PostModel, fresh: PostModel) -> bool {
    &&& q.like_count == fresh.like_count
    &&& q.reply_count == fresh.reply_count
    &&& q.repost_count == fresh.repost_count
    &&& q.quote_count == fresh.quote_count
    &&& q.uri == stored.uri
    &&& q.cid == stored.cid
    &&& q.author == stored.author
    &&& q.text == stored.text
    &&& q.created_at == stored.created_at
    &&& q.reply_parent == stored.reply_parent
    &&& q.reply_root == stored.reply_root
    &&& q.embed_type == stored.embed_type
    &&& q.embed_uri == stored.embed_uri
    &&& q.facets == stored.facets
    &&& q.labels == stored.labels
    &&& q.langs == stored.langs
}

/// Taking in fetched posts, each under its own URI and each once, refreshes
/// the counts of every one the web already stored.
proof fn lemma_refresh_posts_counts(
    w: crate::model::WebModel,
    root: Seq<char>,
    posts: Seq<(Seq<char>, PostModel)>,
    i: int,
)
    requires
        keyed_by_uri(posts),
        crate::ordered_map::distinct_keys(posts),
        0 <= i < posts.len(),
        crate::model::web_post_at(w, posts[i].0) is Some,
    ensures
        crate::model::web_post_at(refresh_posts(w, root, posts), posts[i].0) matches Some(q) && counts_refreshed(
            q,
            crate::model::web_post_at(w, posts[i].0)->0,
            posts[i].1,
        ),
    decreases posts.len(),
{
    let init = posts.drop_last();
    let n = posts.len() - 1;
    let key = posts[i].0;
    assert forall|x: int| 0 <= x < init.len() implies (#[trigger] init[x]).0 == init[x].1.uri by {
        assert(init[x] == posts[x]);
    }
    assert forall|x: int, y: int| 0 <= x < init.len() && 0 <= y < init.len() && x != y implies (#[trigger] init[x]).0
        != (#[trigger] init[y]).0 by {
        assert(init[x] == posts[x] && init[y] == posts[y]);
    }
    if i == n {
        assert forall|x: int| 0 <= x < init.len() implies (#[trigger] init[x]).0 != key && init[x].1.uri != key by {
            assert(init[x] == posts[x]);
            assert(posts[x].0 != posts[n].0);
        }
        lemma_refresh_posts_frame(w, root, init, key);
        lemma_refresh_counts(refresh_posts(w, root, init), root, key, posts[i].1);
    } else {
        assert(init[i] == posts[i]);
        lemma_refresh_posts_counts(w, root, init, i);
        assert(posts[n].0 != key);
        lemma_refresh_frame(refresh_posts(w, root, init), root, posts[n].0, posts[n].1, key);
    }
}

/// Ingesting a fetched thread refreshes the stored copy of every post it
/// shows: like, reply, repost and quote counts come from the fetched copy,
/// and every other field stays as stored once the thread is placed.
pub proof fn lemma_ingest_refreshes_counts(
    s: IngestState,
    uri: Seq<char>,
    depth: usize,
    beyond: bool,
    node: ThreadNode,
    i: int,
)
    requires
        0 <= i < spec_walk(node, Seq::empty()).len(),
        crate::model::web_post_at(
            spec_place(
                s.web,
                spec_thread_root_of(node, spec_walk(node, Seq::empty()), uri),
                spec_walk(node, Seq::empty()),
            ),
            spec_walk(node, Seq::empty())[i].0,
        ) is Some,
    ensures
        ({
            let walked = spec_walk(node, Seq::empty());
            let key = walked[i].0;
            let fresh = walked[i].1;
            let stored = crate::model::web_post_at(
                spec_place(s.web, spec_thread_root_of(node, walked, uri), walked),
                key,
            )->0;
            crate::model::web_post_at(spec_ingest_thread(s, uri, depth, beyond, node).web, key) matches Some(q) && {
                &&& q.like_count == fresh.like_count
                &&& q.reply_count == fresh.reply_count
                &&& q.repost_count == fresh.repost_count
                &&& q.quote_count == fresh.quote_count
                &&& q.uri == stored.uri
                &&& q.cid == stored.cid
                &&& q.author == stored.author
                &&& q.text == stored.text
                &&& q.created_at == stored.created_at
                &&& q.reply_parent == stored.reply_parent
                &&& q.reply_root == stored.reply_root
                &&& q.embed_type == stored.embed_type
                &&& q.embed_uri == stored.embed_uri
                &&& q.facets == stored.facets
                &&& q.labels == stored.labels
                &&& q.langs == stored.langs
            }
        }),
{
    let walked = spec_walk(node, Seq::empty());
    lemma_walk_keyed(node, Seq::empty());
    lemma_walk_distinct(node, Seq::empty());
    let root = spec_thread_root_of(node, walked, uri);
    let placed = spec_place(s.web, root, walked);
    lemma_refresh_posts_counts(placed, root, walked, i);
}

/// Each of `posts` taken in, in order.
pub open spec fn refresh_posts(
    w: crate::model::WebModel,
    root: Seq<char>,
    posts: Seq<(Seq<char>, PostModel)>,
) -> crate::model::WebModel
    decreases posts.len(),
{
    if posts.len() == 0 {
        w
    } else {
        let prev = refresh_posts(w, root, posts.drop_last());
        refresh_post(prev, root, posts.last().0, posts.last().1)
    }
}

/// The quotes each of `posts` declares recorded, post by post.
pub open spec fn link_posts(
    s: LinkState,
    index: Seq<(Seq<char>, Seq<char>)>,
    handles: Seq<(Seq<char>, Seq<char>)>,
    posts: Seq<PostModel>,
    root: Seq<char>,
    depth: usize,
    beyond: bool,
) -> LinkState
    decreases posts.len(),
{
    if posts.len() == 0 {
        s
    } else {
        spec_link_quotes(
            link_posts(s, index, handles, posts.drop_last(), root, depth, beyond),
            index,
            handles,
            posts.last(),
            root,
            depth,
            beyond,
        )
    }
}

/// A thread response taken in: nothing when it shows no post; else every
/// author's handle recorded, the posts placed under the thread's root
/// (folding in a thread that already holds some of them), each post
/// refreshed or filed, then the quotes each declares recorded.
pub open spec fn spec_ingest_thread(
    s: IngestState,
    uri: Seq<char>,
    depth: usize,
    beyond: bool,
    node: ThreadNode,
) -> IngestState {
    let walked = spec_walk(node, Seq::empty());
    if walked.len() == 0 {
        s
    } else {
        let handles = handles_after(s.handles, crate::model::entry_values(walked));
        let root = spec_thread_root_of(node, walked, uri);
        let w = refresh_posts(spec_place(s.web, root, walked), root, walked);
        let links = link_posts(
            LinkState { edges: w.quote_edges, queue: s.queue, enqueued: s.enqueued },
            w.index,
            handles,
            crate::model::entry_values(walked),
            root,
            depth,
            beyond,
        );
        IngestState {
            web: crate::model::WebModel { quote_edges: links.edges, ..w },
            handles,
            queue: links.queue,
            enqueued: links.enqueued,
        }
    }
}

impl CrawlState {
    /// Ingests a thread response: files its posts under the thread's root,
    /// refreshes the engagement counts of posts already in the web, records
    /// the quote edges the posts declare, and returns the root URI. A
    /// response with no visible post changes nothing and gives `None`.
    pub fn ingest_thread(&mut self, uri: &str, depth: usize, response: &ThreadResponse) -> (r: Option<String>)
        requires
            old(self).inv(),
            depth < usize::MAX,
        ensures
            final(self).inv(),
            final(self).same_settings(old(self)),
            final(self).visited_threads_view() == old(self).visited_threads_view(),
            final(self).visited_quotes_view() == old(self).visited_quotes_view(),
            seq_prefix(old(self).queue_view(), final(self).queue_view()),
            seq_prefix(old(self).enqueued_view(), final(self).enqueued_view()),
            final(self).web_view().root_uri == old(self).web_view().root_uri,
            final(self).web_view().crawled_at == old(self).web_view().crawled_at,
            match r {
                None => spec_walk(response.thread, Seq::empty()).len() == 0 && *final(self) == *old(self),
                Some(root) => {
                    let walked = spec_walk(response.thread, Seq::empty());
                    &&& walked.len() > 0
                    &&& root@ == spec_thread_root_of(response.thread, walked, uri@)
                    &&& forall|i: int| 0 <= i < walked.len() ==> has_key(final(self).web_view().index, #[trigger] walked[i].0)
                },
            },
            (IngestState {
                web: final(self).web_view(),
                handles: final(self).handles_view(),
                queue: final(self).queue_view(),
                enqueued: final(self).enqueued_view(),
            }) == spec_ingest_thread(
                IngestState {
                    web: old(self).web_view(),
                    handles: old(self).handles_view(),
                    queue: old(self).queue_view(),
                    enqueued: old(self).enqueued_view(),
                },
                uri@,
                depth,
                old(self).beyond(depth + 1),
                response.thread,
            ),
    {
        let mut posts = post_map_new();
        let ghost empty = post_entries(posts);
        walk_thread_node(&response.thread, &mut posts);
        let ghost walked = post_entries(posts);
        proof {
            assert(empty == Seq::<(Seq<char>, PostModel)>::empty());
            lemma_walk_keyed(response.thread, Seq::empty());
        }
        let n = post_map_len(&posts);
        if n == 0 {
            return None;
        }
        let ghost vals = crate::model::entry_values(walked);
        let mut i: usize = 0;
        proof {
            assert(vals.take(0) =~= Seq::<PostModel>::empty());
        }
        while i < n
            invariant
                n == walked.len(),
                walked == post_entries(posts),
                vals == crate::model::entry_values(walked),
                i <= n,
                self.handles_view() == handles_after(old(self).handles_view(), vals.take(i as int)),
                self.inv(),
                self.same_settings(old(self)),
                self.web_view() == old(self).web_view(),
                self.queue_view() == old(self).queue_view(),
                self.enqueued_view() == old(self).enqueued_view(),
                self.visited_threads_view() == old(self).visited_threads_view(),
                self.visited_quotes_view() == old(self).visited_quotes_view(),
            decreases n - i,
        {
            let (_, p) = post_map_get_index(&posts, i);
            proof {
                assert(vals.take(i + 1).drop_last() =~= vals.take(i as int));
                assert(vals.take(i + 1).last() == p@);
            }
            self.register_post(p);
            i += 1;
        }
        proof {
            assert(vals.take(n as int) =~= vals);
        }
        let ghost hd = self.handles_view();
        let root_uri = thread_root_of(&response.thread, &posts, uri);
        self.place_thread(root_uri.as_str(), &posts);
        let ghost wp = self.web_view();
        let ghost queue1 = self.queue_view();
        let ghost enq1 = self.enqueued_view();
        i = 0;
        while i < n
            invariant
                n == walked.len(),
                walked == post_entries(posts),
                crate::crawler::keyed_by_uri(walked),
                i <= n,
                self.inv(),
                self.same_settings(old(self)),
                self.queue_view() == queue1,
                self.enqueued_view() == enq1,
                self.visited_threads_view() == old(self).visited_threads_view(),
                self.visited_quotes_view() == old(self).visited_quotes_view(),
                self.web_view().root_uri == old(self).web_view().root_uri,
                self.web_view().crawled_at == old(self).web_view().crawled_at,
                forall|q: int| 0 <= q < i ==> has_key(self.web_view().index, #[trigger] walked[q].0),
                self.handles_view() == hd,
                self.web_view() == refresh_posts(wp, root_uri@, walked.take(i as int)),
            decreases n - i,
        {
            let (k, p) = post_map_get_index(&posts, i);
            let ghost before = self.web@.index;
            let ghost wb = self.web@;
            proof {
                assert(walked.take(i + 1).drop_last() =~= walked.take(i as int));
                assert(walked.take(i + 1).last() == (k@, p@));
            }
            match self.web.get_post_mut(k.as_str()) {
                Some(existing) => {
                    existing.like_count = p.like_count;
                    existing.reply_count = p.reply_count;
                    existing.repost_count = p.repost_count;
                    existing.quote_count = p.quote_count;
                    proof {
                        assert(existing@ == with_counts(crate::model::web_post_at(wb, k@)->0, p@));
                    }
                },
                None => {
                    self.web.add_post(root_uri.as_str(), p.clone());
                    proof {
                        lemma_insert_keeps_all(before, p@.uri, root_uri@);
                    }
                },
            }
            proof {
                assert(walked[i as int].0 == walked[i as int].1.uri);
                assert(has_key(self.web@.index, walked[i as int].0));
            }
            i += 1;
        }
        proof {
            assert(walked.take(n as int) =~= walked);
        }
        let ghost idx2 = self.web_view().index;
        let ghost wr = self.web_view();
        let ghost l0 = LinkState { edges: wr.quote_edges, queue: self.queue_view(), enqueued: self.enqueued_view() };
        let ghost bey = self.beyond(depth + 1);
        i = 0;
        proof {
            assert(vals.take(0) =~= Seq::<PostModel>::empty());
        }
        while i < n
            invariant
                n == walked.len(),
                walked == post_entries(posts),
                i <= n,
                depth < usize::MAX,
                self.inv(),
                self.same_settings(old(self)),
                seq_prefix(old(self).queue_view(), self.queue_view()),
                seq_prefix(old(self).enqueued_view(), self.enqueued_view()),
                self.visited_threads_view() == old(self).visited_threads_view(),
                self.visited_quotes_view() == old(self).visited_quotes_view(),
                self.web_view().root_uri == old(self).web_view().root_uri,
                self.web_view().crawled_at == old(self).web_view().crawled_at,
                self.web_view().index == idx2,
                forall|q: int| 0 <= q < n ==> has_key(idx2, #[trigger] walked[q].0),
                vals == crate::model::entry_values(walked),
                self.handles_view() == hd,
                bey == self.beyond(depth + 1),
                self.web_view() == (crate::model::WebModel { quote_edges: self.web_view().quote_edges, ..wr }),
                (LinkState {
                    edges: self.web_view().quote_edges,
                    queue: self.queue_view(),
                    enqueued: self.enqueued_view(),
                }) == link_posts(l0, idx2, hd, vals.take(i as int), root_uri@, depth, bey),
            decreases n - i,
        {
            let (_, p) = post_map_get_index(&posts, i);
            proof {
                assert(vals.take(i + 1).drop_last() =~= vals.take(i as int));
                assert(vals.take(i + 1).last() == p@);
            }
            self.link_quotes(p, root_uri.as_str(), depth);
            i += 1;
        }
        proof {
            assert(vals.take(n as int) =~= vals);
        }
        Some(root_uri)
    }
}

/// What ingesting quote posts changes: the web, the handles seen, the job
/// queue and the URIs ever queued.
pub struct IngestState {
    pub web: crate::model::WebModel,
    pub handles: Seq<(Seq<char>, Seq<char>)>,
    pub queue: Seq<JobModel>,
    pub enqueued: Seq<Seq<char>>,
}

/// One quote post `p` of `uri` (filed under `st`) ingested: its author's
/// handle is recorded; if the web lacks it, it is filed under its reply
/// root (a new thread when needed), a quote edge from `uri` is recorded, and
/// its thread is queued one level deeper unless that is beyond the limit.
pub open spec fn ingest_quote_step(
    s: IngestState,
    uri: Seq<char>,
    st: Seq<char>,
    depth: usize,
    beyond: bool,
    p: PostModel,
) -> IngestState {
    let handles = insert_entry(s.handles, p.author.handle, p.author.did);
    if has_key(s.web.index, p.uri) {
        IngestState { handles, ..s }
    } else {
        let tt = match p.reply_root {
            Some(r) => r,
            None => p.uri,
        };
        let w = web_add_post(ensure_thread(s.web, tt), tt, p);
        let edge = crate::model::EdgeModel { source: uri, target: p.uri, source_thread: st, target_thread: tt };
        let jobs = if beyond {
            (s.queue, s.enqueued)
        } else {
            after_enqueue(s.queue, s.enqueued, tt, (depth + 1) as usize)
        };
        IngestState {
            web: crate::model::WebModel { quote_edges: w.quote_edges.push(edge), ..w },
            handles,
            queue: jobs.0,
            enqueued: jobs.1,
        }
    }
}

/// The first `n` quote posts ingested in order.
pub open spec fn ingest_quote_posts(
    s: IngestState,
    uri: Seq<char>,
    st: Seq<char>,
    depth: usize,
    beyond: bool,
    posts: Seq<PostView>,
    n: nat,
) -> IngestState
    decreases n,
{
    if n == 0 {
        s
    } else {
        ingest_quote_step(
            ingest_quote_posts(s, uri, st, depth, beyond, posts, (n - 1) as nat),
            uri,
            st,
            depth,
            beyond,
            spec_post_from_view(posts[n - 1]),
        )
    }
}

impl CrawlState {
    /// Ingests the posts quoting `uri`: each post new to the web joins its
    /// own reply thread (created when missing), gains an edge from `uri`,
    /// and has that thread queued one hop further out.
    pub fn ingest_quotes(&mut self, uri: &str, depth: usize, posts: Vec<PostView>)
        requires
            old(self).inv(),
            depth < usize::MAX,
        ensures
            final(self).inv(),
            final(self).same_settings(old(self)),
            final(self).visited_threads_view() == old(self).visited_threads_view(),
            final(self).visited_quotes_view() == old(self).visited_quotes_view(),
            final(self).web_view().root_uri == old(self).web_view().root_uri,
            final(self).web_view().crawled_at == old(self).web_view().crawled_at,
            forall|i: int| 0 <= i < posts@.len() ==> has_key(final(self).web_view().index, #[trigger] spec_post_from_view(posts@[i]).uri),
            seq_prefix(old(self).web_view().quote_edges, final(self).web_view().quote_edges),
            forall|i: int|
                old(self).web_view().quote_edges.len() <= i < final(self).web_view().quote_edges.len() ==> {
                    let e = #[trigger] final(self).web_view().quote_edges[i];
                    &&& e.source == uri@
                    &&& e.source_thread == match lookup(old(self).web_view().index, uri@) {
                        Some(root) => root,
                        None => uri@,
                    }
                },
            seq_prefix(old(self).queue_view(), final(self).queue_view()),
            seq_prefix(old(self).enqueued_view(), final(self).enqueued_view()),
            forall|i: int|
                old(self).queue_view().len() <= i < final(self).queue_view().len() ==> (
                #[trigger] final(self).queue_view()[i] matches JobModel::Thread { depth: d, .. } && d == depth + 1),
            old(self).beyond(depth + 1) ==> final(self).queue_view() == old(self).queue_view(),
            (IngestState {
                web: final(self).web_view(),
                handles: final(self).handles_view(),
                queue: final(self).queue_view(),
                enqueued: final(self).enqueued_view(),
            }) == ingest_quote_posts(
                IngestState {
                    web: old(self).web_view(),
                    handles: old(self).handles_view(),
                    queue: old(self).queue_view(),
                    enqueued: old(self).enqueued_view(),
                },
                uri@,
                match lookup(old(self).web_view().index, uri@) {
                    Some(root) => root,
                    None => uri@,
                },
                depth,
                old(self).beyond(depth + 1),
                posts@,
                posts@.len(),
            ),
    {
        let source_thread = match self.web.thread_root_for(uri) {
            Some(root) => String::from_str(root),
            None => String::from_str(uri),
        };
        let ghost st = source_thread@;
        let ghost s0 = IngestState {
            web: self.web_view(),
            handles: self.handles_view(),
            queue: self.queue_view(),
            enqueued: self.enqueued_view(),
        };
        let ghost bey = self.beyond(depth + 1);
        let n = posts.len();
        let mut i: usize = 0;
        while i < n
            invariant
                n == posts@.len(),
                i <= n,
                depth < usize::MAX,
                st == match lookup(old(self).web_view().index, uri@) {
                    Some(root) => root,
                    None => uri@,
                },
                source_thread@ == st,
                self.inv(),
                self.same_settings(old(self)),
                self.visited_threads_view() == old(self).visited_threads_view(),
                self.visited_quotes_view() == old(self).visited_quotes_view(),
                self.web_view().root_uri == old(self).web_view().root_uri,
                self.web_view().crawled_at == old(self).web_view().crawled_at,
                forall|q: int| 0 <= q < i ==> has_key(self.web_view().index, #[trigger] spec_post_from_view(posts@[q]).uri),
                seq_prefix(old(self).web_view().quote_edges, self.web_view().quote_edges),
                forall|q: int|
                    old(self).web_view().quote_edges.len() <= q < self.web_view().quote_edges.len() ==> (
                    #[trigger] self.web_view().quote_edges[q]).source == uri@
                        && self.web_view().quote_edges[q].source_thread == st,
                seq_prefix(old(self).queue_view(), self.queue_view()),
                seq_prefix(old(self).enqueued_view(), self.enqueued_view()),
                forall|q: int|
                    old(self).queue_view().len() <= q < self.queue_view().len() ==> (
                    #[trigger] self.queue_view()[q] matches JobModel::Thread { depth: d, .. } && d == depth + 1),
                old(self).beyond(depth + 1) ==> self.queue_view() == old(self).queue_view(),
                bey == old(self).beyond(depth + 1),
                bey == self.beyond(depth + 1),
                (IngestState {
                    web: self.web_view(),
                    handles: self.handles_view(),
                    queue: self.queue_view(),
                    enqueued: self.enqueued_view(),
                }) == ingest_quote_posts(s0, uri@, st, depth, bey, posts@, i as nat),
            decreases n - i,
        {
            let post = post_from_view(&posts[i]);
            self.register_post(&post);
            if !self.web.has_post(post.uri.as_str()) {
                let target_thread = match &post.reply_root {
                    Some(root) => root.clone(),
                    None => post.uri.clone(),
                };
                if self.web.thread(target_thread.as_str()).is_none() {
                    let ghost before = self.web@.index;
                    self.web.add_thread(Thread::new(target_thread.as_str()));
                    proof {
                        assert(self.web@.index == before);
                    }
                }
                let target = post.uri.clone();
                let ghost before = self.web@.index;
                let ghost pv = post@;
                self.web.add_post(target_thread.as_str(), post);
                proof {
                    lemma_insert_keeps_all(before, pv.uri, target_thread@);
                }
                self.web.push_quote_edge(
                    QuoteEdge {
                        source: String::from_str(uri),
                        target,
                        source_thread: source_thread.clone(),
                        target_thread: target_thread.clone(),
                    },
                );
                if !self.over_depth(depth + 1) {
                    self.enqueue(target_thread, depth + 1);
                }
            }
            i += 1;
        }
    }
}

/// Some post of the web has URI `uri` and has been quoted at least once.
pub open spec fn quotable(all: Seq<PostModel>, uri: Seq<char>) -> bool {
    exists|k: int| 0 <= k < all.len() && (#[trigger] all[k]).uri == uri && all[k].quote_count > 0
}

/// Whether a post of the web is worth a `getQuotes` pass: it has quotes,
/// and more of them than the previous crawl recorded edges for.
pub open spec fn worth_quoting(all: Seq<PostModel>, counts: Seq<(Seq<char>, u32)>, uri: Seq<char>) -> bool {
    exists|k: int|
        0 <= k < all.len() && (#[trigger] all[k]).uri == uri && all[k].quote_count > 0 && match lookup(counts, uri) {
            Some(c) => all[k].quote_count > c,
            None => true,
        }
}

/// The posts a quote scan walks: each post of the web not yet checked for
/// quotes, with its quote count, in web order.
pub open spec fn pending_quotes(all: Seq<PostModel>, checked: Seq<Seq<char>>) -> Seq<(Seq<char>, u32)>
    decreases all.len(),
{
    if all.len() == 0 {
        Seq::empty()
    } else {
        let rest = pending_quotes(all.drop_last(), checked);
        if checked.contains(all.last().uri) {
            rest
        } else {
            rest.push((all.last().uri, all.last().quote_count))
        }
    }
}

/// What a quote scan changes: the URIs checked for quotes and the job queue.
pub struct ScanState {
    pub checked: Seq<Seq<char>>,
    pub queue: Seq<JobModel>,
}

/// One pending post scanned: it is marked checked, and a `getQuotes` job at
/// `depth` is queued when it has quotes and more of them than the previous
/// crawl recorded edges for.
pub open spec fn scan_step(s: ScanState, counts: Seq<(Seq<char>, u32)>, depth: usize, e: (Seq<char>, u32)) -> ScanState {
    let checked = if s.checked.contains(e.0) {
        s.checked
    } else {
        s.checked.push(e.0)
    };
    let seen_before = match lookup(counts, e.0) {
        Some(known) => e.1 <= known,
        None => false,
    };
    let queue = if e.1 > 0 && !seen_before {
        s.queue.push(JobModel::Quotes { uri: e.0, depth })
    } else {
        s.queue
    };
    ScanState { checked, queue }
}

/// The pending posts `es` scanned in order.
pub open spec fn scan_fold(s: ScanState, counts: Seq<(Seq<char>, u32)>, depth: usize, es: Seq<(Seq<char>, u32)>) -> ScanState
    decreases es.len(),
{
    if es.len() == 0 {
        s
    } else {
        scan_step(scan_fold(s, counts, depth, es.drop_last()), counts, depth, es.last())
    }
}

/// How many quote edges leave each source, in first-seen order.
pub open spec fn source_counts(edges: Seq<crate::model::EdgeModel>) -> Seq<(Seq<char>, u32)>
    decreases edges.len(),
{
    if edges.len() == 0 {
        Seq::empty()
    } else {
        crate::collections::bump(source_counts(edges.drop_last()), edges.last().source)
    }
}

/// Whether a scanned post with `q` quotes gets a `getQuotes` pass, given
/// how many quote edges the previous crawl stored for each source.
pub open spec fn wants_quotes(counts: Seq<(Seq<char>, u32)>, e: (Seq<char>, u32)) -> bool {
    e.1 > 0 && match lookup(counts, e.0) {
        Some(c) => e.1 > c,
        None => true,
    }
}

/// A quote scan queues, after the jobs already waiting, one `getQuotes`
/// job for each scanned post that has quotes and more of them than the
/// previous crawl stored edges for, in scan order, and nothing else.
pub proof fn lemma_scan_queues_exactly(
    s: ScanState,
    counts: Seq<(Seq<char>, u32)>,
    depth: usize,
    es: Seq<(Seq<char>, u32)>,
)
    ensures
        scan_fold(s, counts, depth, es).queue == s.queue + es.filter(|e: (Seq<char>, u32)| wants_quotes(counts, e)).map_values(
            |e: (Seq<char>, u32)| JobModel::Quotes { uri: e.0, depth },
        ),
    decreases es.len(),
{
    let f = |e: (Seq<char>, u32)| JobModel::Quotes { uri: e.0, depth };
    let pred = |e: (Seq<char>, u32)| wants_quotes(counts, e);
    if es.len() == 0 {
        assert(es.filter(pred) =~= Seq::<(Seq<char>, u32)>::empty());
        assert(s.queue + Seq::<JobModel>::empty() =~= s.queue);
    } else {
        let init = es.drop_last();
        lemma_scan_queues_exactly(s, counts, depth, init);
        assert(es =~= init.push(es.last()));
        init.lemma_filter_push(es.last(), pred);
        let fi = init.filter(pred);
        assert(fi.push(es.last()).map_values(f) =~= fi.map_values(f).push(f(es.last())));
        assert((s.queue + fi.map_values(f)).push(f(es.last())) =~= s.queue + fi.map_values(f).push(f(es.last())));
    }
}

/// The number of quote edges a previous crawl stored for each source: the
/// count of edges leaving it, capped at the largest `u32`; a post no edge
/// leaves is not listed.
pub proof fn lemma_source_counts_exact(edges: Seq<crate::model::EdgeModel>, u: Seq<char>)
    ensures
        ({
            let n = edges.filter(|e: crate::model::EdgeModel| e.source == u).len();
            lookup(source_counts(edges), u) == if n == 0 {
                None
            } else if n > u32::MAX {
                Some(u32::MAX)
            } else {
                Some(n as u32)
            }
        }),
    decreases edges.len(),
{
    if edges.len() > 0 {
        let init = edges.drop_last();
        let src = edges.last().source;
        let r = source_counts(init);
        lemma_source_counts_exact(init, u);
        assert(edges =~= init.push(edges.last()));
        init.lemma_filter_push(edges.last(), |e: crate::model::EdgeModel| e.source == u);
        let v: u32 = match lookup(r, src) {
            Some(n) => if n < u32::MAX { (n + 1) as u32 } else { n },
            None => 1u32,
        };
        assert(source_counts(edges) == insert_entry(r, src, v));
        crate::model::lemma_lookup_insert(r, src, v, u);
    }
}

/// The quote hops recorded in a job's outcome.
pub open spec fn outcome_depth(o: JobOutcome) -> usize {
    match o {
        JobOutcome::Thread { depth, .. } => depth,
        JobOutcome::Quotes { depth, .. } => depth,
    }
}

/// An edge with both ends canonicalized.
pub open spec fn resolve_edge(
    e: crate::model::EdgeModel,
    index: Seq<(Seq<char>, Seq<char>)>,
    handles: Seq<(Seq<char>, Seq<char>)>,
) -> crate::model::EdgeModel {
    crate::model::EdgeModel {
        source: spec_resolve(index, handles, e.source),
        target: spec_resolve(index, handles, e.target),
        source_thread: e.source_thread,
        target_thread: e.target_thread,
    }
}

impl CrawlState {
    /// Queues a `getQuotes` pass for every post not yet checked for quotes,
    /// marking each as checked; posts never quoted, and posts quoted no more
    /// often than when a previous crawl ended, need no pass. Stops early
    /// once the crawl should stop.
    pub fn scan_pending_quotes<C: Clock>(&mut self, clock: &C, depth: usize)
        requires
            old(self).inv(),
        ensures
            final(self).inv(),
            final(self).same_settings(old(self)),
            final(self).web_view() == old(self).web_view(),
            final(self).handles_view() == old(self).handles_view(),
            final(self).enqueued_view() == old(self).enqueued_view(),
            final(self).visited_threads_view() == old(self).visited_threads_view(),
            seq_prefix(old(self).visited_quotes_view(), final(self).visited_quotes_view()),
            seq_prefix(old(self).queue_view(), final(self).queue_view()),
            forall|i: int|
                old(self).queue_view().len() <= i < final(self).queue_view().len() ==> (
                #[trigger] final(self).queue_view()[i] matches JobModel::Quotes { uri: u, depth: d } && d == depth
                    && worth_quoting(crate::model::web_posts(old(self).web_view().threads), old(self).old_edge_counts_view(), u)
                    && !old(self).visited_quotes_view().contains(u)),
            ({
                let pending = pending_quotes(crate::model::web_posts(old(self).web_view().threads), old(self).visited_quotes_view());
                exists|m: nat|
                    #![trigger pending.take(m as int)]
                    m <= pending.len() && (ScanState {
                        checked: final(self).visited_quotes_view(),
                        queue: final(self).queue_view(),
                    }) == scan_fold(
                        ScanState { checked: old(self).visited_quotes_view(), queue: old(self).queue_view() },
                        old(self).old_edge_counts_view(),
                        depth,
                        pending.take(m as int),
                    ) && (m < pending.len() ==> exists|elapsed: Duration| old(self).stops_at(elapsed))
            }),
    {
        let ghost all = crate::model::web_posts(self.web@.threads);
        let mut pending: Vec<(String, u32)> = Vec::new();
        {
            let posts = self.web.iter_posts();
            let n = posts.len();
            let mut j: usize = 0;
            while j < n
                invariant
                    n == posts@.len(),
                    n == all.len(),
                    forall|k: int| 0 <= k < n ==> (#[trigger] posts@[k])@ == all[k],
                    j <= n,
                    self.visited_quotes@ == old(self).visited_quotes@,
                    pending@.map_values(|e: (String, u32)| (e.0@, e.1)) == pending_quotes(all.take(j as int), old(self).visited_quotes_view()),
                    forall|m: int| 0 <= m < pending@.len() ==> {
                        let u = (#[trigger] pending@[m]).0@;
                        &&& exists|k: int| 0 <= k < all.len() && (#[trigger] all[k]).uri == u && all[k].quote_count == pending@[m].1
                        &&& !self.visited_quotes@.contains(u)
                    },
                decreases n - j,
            {
                let p = posts[j];
                proof {
                    assert(all.take(j + 1).drop_last() =~= all.take(j as int));
                    assert(all.take(j + 1).last() == all[j as int]);
                    assert(posts@[j as int]@ == all[j as int]);
                }
                let ghost pb = pending@;
                if !self.visited_quotes.contains(p.uri.as_str()) {
                    proof {
                        assert(posts@[j as int]@ == all[j as int]);
                        assert(all[j as int].uri == p.uri@);
                    }
                    let ghost before = pending@;
                    pending.push((p.uri.clone(), p.quote_count));
                    proof {
                        assert forall|m: int| 0 <= m < pending@.len() implies {
                            let u = (#[trigger] pending@[m]).0@;
                            &&& exists|k: int| 0 <= k < all.len() && (#[trigger] all[k]).uri == u && all[k].quote_count == pending@[m].1
                            &&& !self.visited_quotes@.contains(u)
                        } by {
                            if m == before.len() {
                                assert(all[j as int].uri == pending@[m].0@);
                            } else {
                                assert(pending@[m] == before[m]);
                            }
                        }
                        assert(pending@.map_values(|e: (String, u32)| (e.0@, e.1)) =~= pb.map_values(
                            |e: (String, u32)| (e.0@, e.1),
                        ).push((p.uri@, p.quote_count)));
                    }
                }
                j += 1;
            }
        }
        proof {
            assert(all.take(all.len() as int) =~= all);
        }
        let ghost pv = pending@.map_values(|e: (String, u32)| (e.0@, e.1));
        let ghost s0 = ScanState { checked: self.visited_quotes_view(), queue: self.queue_view() };
        let ghost mut done: nat = 0;
        let np = pending.len();
        let mut m: usize = 0;
        let mut stopped = false;
        proof {
            assert(pv.take(0) =~= Seq::<(Seq<char>, u32)>::empty());
        }
        while m < np && !stopped
            invariant
                np == pending@.len(),
                m <= np,
                self.inv(),
                self.same_settings(old(self)),
                self.web == old(self).web,
                self.handle_to_did == old(self).handle_to_did,
                self.enqueued == old(self).enqueued,
                self.visited_threads == old(self).visited_threads,
                all == crate::model::web_posts(old(self).web_view().threads),
                pv == pending@.map_values(|e: (String, u32)| (e.0@, e.1)),
                pv == pending_quotes(all, old(self).visited_quotes_view()),
                s0 == (ScanState { checked: old(self).visited_quotes_view(), queue: old(self).queue_view() }),
                done <= m,
                !stopped ==> done == m,
                stopped ==> exists|elapsed: Duration| old(self).stops_at(elapsed),
                (ScanState { checked: self.visited_quotes_view(), queue: self.queue_view() }) == scan_fold(
                    s0,
                    old(self).old_edge_counts_view(),
                    depth,
                    pv.take(done as int),
                ),
                forall|q: int| 0 <= q < pending@.len() ==> {
                    let u = (#[trigger] pending@[q]).0@;
                    &&& exists|k: int| 0 <= k < all.len() && (#[trigger] all[k]).uri == u && all[k].quote_count == pending@[q].1
                    &&& !old(self).visited_quotes_view().contains(u)
                },
                seq_prefix(old(self).visited_quotes_view(), self.visited_quotes_view()),
                seq_prefix(old(self).queue_view(), self.queue_view()),
                forall|i: int|
                    old(self).queue_view().len() <= i < self.queue_view().len() ==> (
                    #[trigger] self.queue_view()[i] matches JobModel::Quotes { uri: u, depth: d } && d == depth
                        && worth_quoting(all, old(self).old_edge_counts_view(), u) && !old(self).visited_quotes_view().contains(u)),
            decreases np - m,
        {
            if self.should_stop(clock) {
                proof {
                    let e = choose|e: Duration| self.stops_at(e);
                    assert(old(self).stops_at(e));
                }
                stopped = true;
            } else {
                let (uri, quote_count) = &pending[m];
                let ghost sb = ScanState { checked: self.visited_quotes_view(), queue: self.queue_view() };
                proof {
                    assert(pv[m as int] == (uri@, *quote_count));
                    assert(pv.take(m + 1).drop_last() =~= pv.take(m as int));
                    assert(pv.take(m + 1).last() == pv[m as int]);
                }
                self.visited_quotes.insert(uri.clone());
                if *quote_count > 0 {
                    let seen_before = match self.old_edge_counts.get(uri.as_str()) {
                        Some(known) => *quote_count <= known,
                        None => false,
                    };
                    if !seen_before {
                        let ghost before = self.queue@;
                        let job = Job::Quotes { uri: uri.clone(), depth };
                        proof {
                            assert(pending@[m as int].0@ == uri@);
                            let k = choose|k: int| 0 <= k < all.len() && (#[trigger] all[k]).uri == uri@ && all[k].quote_count == *quote_count;
                            assert(worth_quoting(all, old(self).old_edge_counts_view(), uri@));
                        }
                        self.queue.push_back(job);
                        proof {
                            assert(self.queue@ == before.push(job));
                            assert(self.queue_view() =~= before.map_values(|j: Job| j@).push(job@));
                        }
                    }
                }
                proof {
                    assert((ScanState { checked: self.visited_quotes_view(), queue: self.queue_view() }) == scan_step(
                        sb,
                        old(self).old_edge_counts_view(),
                        depth,
                        (uri@, *quote_count),
                    ));
                    done = done + 1;
                }
            }
            m += 1;
        }
        proof {
            assert(done <= pv.len());
        }
    }

    /// Folds one job's data into the web. A fetched thread is ingested and
    /// its root marked visited, then posts not yet checked for quotes are
    /// queued for a `getQuotes` pass; a failed fetch only does the latter.
    /// Quoting posts are ingested whether or not pagination failed midway.
    pub fn apply<C: Clock>(&mut self, clock: &C, outcome: JobOutcome)
        requires
            old(self).inv(),
            outcome_depth(outcome) < usize::MAX,
        ensures
            final(self).inv(),
            apply_step(*old(self), outcome, *final(self)),
    {
        match outcome {
            JobOutcome::Thread { uri, depth, response } => {
                if let Ok(resp) = response {
                    if let Some(root) = self.ingest_thread(uri.as_str(), depth, &resp) {
                        let ghost rv = root@;
                        let ghost before = self.visited_threads@;
                        self.visited_threads.insert(root);
                        proof {
                            if !before.contains(rv) {
                                assert(self.visited_threads@[before.len() as int] == rv);
                            }
                            assert(self.visited_threads@.contains(rv));
                        }
                    }
                }
                self.scan_pending_quotes(clock, depth);
            },
            JobOutcome::Quotes { uri, depth, posts, error: _ } => {
                self.ingest_quotes(uri.as_str(), depth, posts);
            },
        }
    }

    /// A snapshot of crawl progress.
    pub fn progress(&self) -> (r: Progress)
        ensures
            r.node_count == self.web_view().index.len(),
            r.thread_count == self.web_view().threads.len(),
            r.edge_count == crate::model::saturated(
                crate::model::count_replies(crate::model::web_posts(self.web_view().threads))
                    + self.web_view().quote_edges.len(),
            ),
    {
        Progress {
            node_count: self.web.node_count(),
            edge_count: self.web.edge_count(),
            thread_count: self.web.thread_count(),
        }
    }
}

impl CrawlState {
    /// Canonicalizes URIs, tidies the edges, and reports how the crawl ended.
    ///
    /// Both ends of every quote edge are resolved to their canonical form,
    /// then the edges are normalized; the web's root becomes the canonical
    /// form of the start URI when the web holds it. The crawl timed out when
    /// the deadline has passed, else hit the node limit when the web is
    /// full, else is complete.
    pub fn finish<C: Clock>(self, clock: &C, start_uri: &str) -> (r: CrawlResult)
        requires
            self.inv(),
        ensures
            r.web.wf(),
            r.stop_reason is MaxNodes ==> self.web_view().index.len() >= self.max_nodes_view(),
            r.stop_reason is Complete ==> self.web_view().index.len() < self.max_nodes_view(),
            exists|elapsed: Duration| #[trigger] finish_step(self, start_uri@, r, elapsed),
    {
        let ended = clock.elapsed();
        let stop_reason = if duration_nanos(ended) > self.deadline {
            StopReason::Timeout
        } else if self.web.node_count() >= self.max_nodes {
            StopReason::MaxNodes
        } else {
            StopReason::Complete
        };
        proof {
            assert(stop_reason == self.stop_reason_at(ended));
        }
        let mut state = self;
        let ghost idx = state.web@.index;
        let ghost handles = state.handle_to_did@;
        let mut resolved_edges: Vec<QuoteEdge> = Vec::new();
        {
            let edges = state.web.edges();
            let n = edges.len();
            let mut i: usize = 0;
            while i < n
                invariant
                    n == edges@.len(),
                    i <= n,
                    crate::model::edges_view(edges@) == state.web@.quote_edges,
                    idx == state.web@.index,
                    handles == state.handle_to_did@,
                    resolved_edges@.len() == i,
                    forall|k: int| 0 <= k < i ==> (#[trigger] resolved_edges@[k])@ == resolve_edge(
                        state.web@.quote_edges[k],
                        idx,
                        handles,
                    ),
                decreases n - i,
            {
                let e = &edges[i];
                proof {
                    assert(crate::model::edges_view(edges@)[i as int] == e@);
                }
                let edge = QuoteEdge {
                    source: state.resolve_uri(e.source.as_str()),
                    target: state.resolve_uri(e.target.as_str()),
                    source_thread: e.source_thread.clone(),
                    target_thread: e.target_thread.clone(),
                };
                resolved_edges.push(edge);
                i += 1;
            }
        }
        proof {
            assert(crate::model::edges_view(resolved_edges@) =~= state.web@.quote_edges.map_values(
                |e: crate::model::EdgeModel| resolve_edge(e, idx, handles),
            ));
        }
        state.web.set_quote_edges(resolved_edges);
        state.web.normalize_quote_edges();
        let resolved = state.resolve_uri(start_uri);
        if state.web.has_post(resolved.as_str()) {
            state.web.set_root_uri(resolved);
        } else {
            let canonical = match state.web.get_post(start_uri) {
                Some(post) => Some(post.uri.clone()),
                None => None,
            };
            if let Some(c) = canonical {
                state.web.set_root_uri(c);
            }
        }
        let r = CrawlResult { pending: state.queue.len(), web: state.web, stop_reason };
        proof {
            assert(finish_step(self, start_uri@, r, ended));
        }
        r
    }
}

/// What [`CrawlState::next_job`] does from `before` to `after`, handing out `r`:
/// it drops the skippable jobs at the front of the queue and hands out the
/// next one, or none when the queue ran out or the crawl should stop.
pub open spec fn next_job_step(before: CrawlState, after: CrawlState, r: Option<Job>) -> bool {
    &&& (after.same_settings(&before))
    &&& (after.web_view() == before.web_view())
    &&& (after.handles_view() == before.handles_view())
    &&& (after.enqueued_view() == before.enqueued_view())
    &&& (after.visited_threads_view() == before.visited_threads_view())
    &&& (after.visited_quotes_view() == before.visited_quotes_view())
    &&& (after.queue_view().len() <= before.queue_view().len())
    &&& (after.queue_view() == before.queue_view().skip(
        before.queue_view().len() - after.queue_view().len(),
    ))
    &&& (r is Some ==> before.web_view().index.len() < before.max_nodes_view())
    &&& (match r {
        Some(job) => {
            &&& after.queue_view().len() < before.queue_view().len()
            &&& job@ == before.queue_view()[before.queue_view().len() - after.queue_view().len() - 1]
            &&& (job@ matches JobModel::Thread { uri, depth } ==> !before.beyond(depth as int)
                && !(match lookup(before.web_view().index, uri) {
                Some(root) => before.visited_threads_view().contains(root),
                None => false,
            }))
        },
        None => true,
    })
    &&& (forall|i: int|
        0 <= i < before.queue_view().len() - after.queue_view().len() - (if r is Some {
            1int
        } else {
            0int
        }) ==> before.skippable(#[trigger] before.queue_view()[i]))
    &&& (r is None ==> after.queue_view().len() == 0 || exists|elapsed: Duration| before.stops_at(elapsed))
}

/// What [`CrawlState::apply`] does from `before` to `after` with `outcome`:
/// a fetched thread is ingested, the posts of a `getQuotes` pass are
/// linked in, and the queue only grows.
pub open spec fn apply_step(before: CrawlState, outcome: JobOutcome, after: CrawlState) -> bool {
    &&& (after.same_settings(&before))
    &&& (after.web_view().root_uri == before.web_view().root_uri)
    &&& (seq_prefix(before.visited_threads_view(), after.visited_threads_view()))
    &&& (seq_prefix(before.visited_quotes_view(), after.visited_quotes_view()))
    &&& (seq_prefix(before.queue_view(), after.queue_view()))
    &&& (seq_prefix(before.enqueued_view(), after.enqueued_view()))
    &&& (match outcome {
        JobOutcome::Thread { uri, depth, response: Ok(resp) } => {
            let walked = spec_walk(resp.thread, Seq::empty());
            let ingested = spec_ingest_thread(
                IngestState {
                    web: before.web_view(),
                    handles: before.handles_view(),
                    queue: before.queue_view(),
                    enqueued: before.enqueued_view(),
                },
                uri@,
                depth,
                before.beyond(depth + 1),
                resp.thread,
            );
            &&& after.web_view() == ingested.web
            &&& after.handles_view() == ingested.handles
            &&& walked.len() > 0 ==> {
                &&& after.visited_threads_view().contains(spec_thread_root_of(resp.thread, walked, uri@))
                &&& forall|i: int| 0 <= i < walked.len() ==> has_key(after.web_view().index, #[trigger] walked[i].0)
            }
        },
        JobOutcome::Thread { response: Err(_), .. } => after.web_view() == before.web_view(),
        JobOutcome::Quotes { uri, depth, posts, .. } => {
            &&& forall|i: int| 0 <= i < posts@.len() ==> has_key(
                after.web_view().index,
                #[trigger] spec_post_from_view(posts@[i]).uri,
            )
            &&& (IngestState {
                web: after.web_view(),
                handles: after.handles_view(),
                queue: after.queue_view(),
                enqueued: after.enqueued_view(),
            }) == ingest_quote_posts(
                IngestState {
                    web: before.web_view(),
                    handles: before.handles_view(),
                    queue: before.queue_view(),
                    enqueued: before.enqueued_view(),
                },
                uri@,
                match lookup(before.web_view().index, uri@) {
                    Some(root) => root,
                    None => uri@,
                },
                depth,
                before.beyond(depth + 1),
                posts@,
                posts@.len(),
            )
        },
    })
}

/// What [`CrawlState::enqueue`] does from `before` to `after`: a thread
/// fetch of `uri` at `depth` is queued unless that URI was queued before.
pub open spec fn enqueue_step(before: CrawlState, after: CrawlState, uri: Seq<char>, depth: usize) -> bool {
    &&& (after.same_settings(&before))
    &&& (after.web_view() == before.web_view())
    &&& (after.handles_view() == before.handles_view())
    &&& (after.visited_threads_view() == before.visited_threads_view())
    &&& (after.visited_quotes_view() == before.visited_quotes_view())
    &&& ((after.queue_view(), after.enqueued_view()) == after_enqueue(
        before.queue_view(),
        before.enqueued_view(),
        uri,
        depth,
    ))
}

/// The state [`CrawlState::new`] builds: an empty queue and visited sets,
/// the limits of `options`, a deadline `options.timeout` after a reading of
/// the clock, and the web of `existing` or an empty web rooted at the start.
pub open spec fn start_step(s: CrawlState, start_uri: Seq<char>, options: CrawlOptions, existing: Option<ContextWeb>) -> bool {
    &&& (s.queue_view().len() == 0)
    &&& (s.enqueued_view().len() == 0)
    &&& (s.visited_threads_view().len() == 0)
    &&& (s.visited_quotes_view().len() == 0)
    &&& (s.handles_view() == handles_after(Seq::empty(), web_posts(s.web_view().threads)))
    &&& (s.max_nodes_view() == options.max_nodes)
    &&& (s.max_depth_view() == options.max_depth)
    &&& (exists|start: Duration| s.deadline_view() == crawl_deadline(nanos_of(start), nanos_of(options.timeout)))
    &&& (s.old_edge_counts_view() == match existing {
        Some(w) => source_counts(w@.quote_edges),
        None => Seq::<(Seq<char>, u32)>::empty(),
    })
    &&& (match existing {
        Some(w) => s.web_view().threads == w@.threads && s.web_view().index == w@.index
            && s.web_view().quote_edges == w@.quote_edges && s.web_view().root_uri
            == w@.root_uri,
        None => s.web_view().root_uri == start_uri && s.web_view().index.len() == 0
            && s.web_view().threads.len() == 0 && s.web_view().quote_edges.len() == 0,
    })
}

/// What [`CrawlState::finish`] makes of `s` when the clock reads `elapsed`
/// at the end: the stop reason at that reading, the work still queued, and
/// the web with both ends of every quote edge resolved, the edges
/// normalized, and the root the canonical start URI when the web holds it.
pub open spec fn finish_step(s: CrawlState, start_uri: Seq<char>, r: CrawlResult, elapsed: Duration) -> bool {
    &&& r.stop_reason == s.stop_reason_at(elapsed)
    &&& r.pending == s.queue_view().len()
    &&& r.web@.threads == s.web_view().threads
    &&& r.web@.index == s.web_view().index
    &&& r.web@.crawled_at == s.web_view().crawled_at
    &&& r.web@.quote_edges == crate::model::normalized(
        s.web_view().quote_edges.map_values(
            |e: crate::model::EdgeModel| resolve_edge(e, s.web_view().index, s.handles_view()),
        ),
        s.web_view().index,
    )
    &&& r.web@.root_uri == {
        let resolved = spec_resolve(s.web_view().index, s.handles_view(), start_uri);
        if has_key(s.web_view().index, resolved) {
            resolved
        } else {
            s.web_view().root_uri
        }
    }
}

/// The largest duration, in nanoseconds.
pub open spec fn max_duration_nanos() -> nat {
    18_446_744_073_709_551_615 * 1_000_000_000 + 999_999_999
}

/// `Duration::saturating_add`: the sum, capped at the largest duration.
#[verifier::external_body]
fn duration_sum(a: Duration, b: Duration) -> (r: Duration)
    ensures
        nanos_of(a) + nanos_of(b) <= max_duration_nanos() ==> nanos_of(r) == nanos_of(a) + nanos_of(b),
        nanos_of(a) + nanos_of(b) > max_duration_nanos() ==> nanos_of(r) == max_duration_nanos(),
{
    a.saturating_add(b)
}

/// `Duration::from_nanos`: a duration of whole nanoseconds.
#[verifier::external_body]
fn duration_from_nanos(n: u64) -> (r: Duration)
    ensures
        nanos_of(r) == n,
{
    Duration::from_nanos(n)
}

/// Waits out a closed gate, if its time has not come.
fn wait_gate<C: Clock>(clock: &C, gate: &mut RateGate)
    ensures
        final(gate).closed_until() is None,
{
    if let Some(remaining) = gate.remaining(clock.elapsed()) {
        let nanos: u64 = if remaining > 18_446_744_073_709_551_615u128 {
            18_446_744_073_709_551_615u64
        } else {
            remaining as u64
        };
        clock.sleep(duration_from_nanos(nanos));
        gate.open();
    }
}

/// Backs off as a failed attempt asks: a rate limit closes the limiter for
/// every request while it sleeps.
fn back_off<C: Clock>(clock: &C, gate: &mut RateGate, backoff: Backoff)
    ensures
        final(gate).closed_until() == match backoff {
            Backoff::RateLimited(_) => None,
            Backoff::Transient(_) => old(gate).closed_until(),
        },
{
    match backoff {
        Backoff::RateLimited(delay) => {
            gate.close(duration_sum(clock.elapsed(), delay));
            clock.sleep(delay);
            gate.open();
        },
        Backoff::Transient(delay) => {
            clock.sleep(delay);
        },
    }
}

/// The error a result carries, if any.
pub open spec fn error_of<T>(r: Result<T, FetchError>) -> Option<FetchError> {
    match r {
        Ok(_) => None,
        Err(e) => Some(e),
    }
}

/// A run of attempts under the retry policy: the attempts that failed with
/// `errs`, in turn, were each retried, and the run ended at the next
/// attempt, within [`MAX_RETRIES`], with `last`: an error the policy gives
/// up on at that attempt, or none when it succeeded.
pub open spec fn retry_run(errs: Seq<FetchError>, last: Option<FetchError>) -> bool {
    &&& errs.len() < MAX_RETRIES
    &&& forall|j: int| 0 <= j < errs.len() ==> !gives_up(#[trigger] errs[j], j as u32)
    &&& last matches Some(e) ==> gives_up(e, errs.len() as u32)
}

/// Calls a request, retrying rate limits and transient failures.
///
/// Waits first for any pause a rate limit left on `gate`. Each failure is
/// handled as [`retry_step`] decides: a 429 pauses every request through
/// `gate` for its backoff; other HTTP statuses and decode failures give up
/// at once. At most [`MAX_RETRIES`] attempts are made, and whatever comes
/// back is what the last attempt returned.
pub fn retry<C: Clock, T, R: Fn() -> Result<T, FetchError>>(clock: &C, gate: &mut RateGate, request: R) -> (r:
    Result<T, FetchError>)
    requires
        request.requires(()),
    ensures
        request.ensures((), r),
        exists|errs: Seq<FetchError>|
            #[trigger] retry_run(errs, error_of(r)) && forall|j: int|
                0 <= j < errs.len() ==> request.ensures((), Err::<T, FetchError>(#[trigger] errs[j])),
        final(gate).closed_until() is None,
{
    wait_gate(clock, gate);
    let mut attempt: u32 = 0;
    let ghost mut errs: Seq<FetchError> = Seq::empty();
    loop
        invariant
            attempt < MAX_RETRIES,
            errs.len() == attempt,
            forall|j: int| 0 <= j < errs.len() ==> !gives_up(#[trigger] errs[j], j as u32),
            forall|j: int| 0 <= j < errs.len() ==> request.ensures((), Err::<T, FetchError>(#[trigger] errs[j])),
            request.requires(()),
            gate.closed_until() is None,
        decreases MAX_RETRIES - attempt,
    {
        let result = request();
        match result {
            Ok(v) => {
                proof {
                    assert(retry_run(errs, error_of(Ok::<T, FetchError>(v))));
                }
                return Ok(v);
            },
            Err(error) => {
                match retry_step(&error, attempt) {
                    RetryStep::GiveUp => {
                        proof {
                            assert(gives_up(error, attempt));
                            assert(retry_run(errs, error_of(Err::<T, FetchError>(error))));
                        }
                        return Err(error);
                    },
                    RetryStep::Wait(b) => {
                        proof {
                            assert(!gives_up(error, attempt));
                            errs = errs.push(error);
                        }
                        back_off(clock, gate, b);
                    },
                }
            },
        }
        attempt += 1;
    }
}

/// Fetches a thread as [`retry`] does.
pub fn fetch_thread<F: Fetch, C: Clock>(fetch: &F, clock: &C, gate: &mut RateGate, uri: &str) -> (r: Result<
    ThreadResponse,
    FetchError,
>)
    ensures
        exists|errs: Seq<FetchError>| #[trigger] retry_run(errs, error_of(r)),
        final(gate).closed_until() is None,
{
    retry(clock, gate, || fetch.get_post_thread(uri, THREAD_DEPTH, THREAD_DEPTH))
}

/// Fetches one page of quotes as [`retry`] does.
pub fn fetch_quotes_page<F: Fetch, C: Clock>(
    fetch: &F,
    clock: &C,
    gate: &mut RateGate,
    uri: &str,
    cursor: Option<&str>,
) -> (r: Result<crate::api::QuotesResponse, FetchError>)
    ensures
        exists|errs: Seq<FetchError>| #[trigger] retry_run(errs, error_of(r)),
        final(gate).closed_until() is None,
{
    retry(clock, gate, || fetch.get_quotes(uri, QUOTES_PAGE_SIZE, cursor))
}

/// Walks every page of `getQuotes`, keeping whatever arrived before a
/// failure.
pub fn fetch_all_quotes<F: Fetch, C: Clock>(fetch: &F, clock: &C, gate: &mut RateGate, uri: &str) -> (r: (
    Vec<PostView>,
    Option<FetchError>,
))
    ensures
        r.1 matches Some(e) ==> exists|errs: Seq<FetchError>| #[trigger] retry_run(errs, Some(e)),
        final(gate).closed_until() is None,
{
    let mut collected: Vec<PostView> = Vec::new();
    let mut cursor: Option<String> = None;
    let mut pages: u64 = 0;
    while pages < u64::MAX
        invariant
            pages > 0 ==> gate.closed_until() is None,
        decreases u64::MAX - pages,
    {
        let page = match &cursor {
            Some(c) => fetch_quotes_page(fetch, clock, gate, uri, Some(c.as_str())),
            None => fetch_quotes_page(fetch, clock, gate, uri, None),
        };
        let ghost pv = page;
        match page {
            Ok(response) => {
                let mut posts = response.posts;
                collected.append(&mut posts);
                match response.cursor {
                    Some(next) => {
                        cursor = Some(next);
                    },
                    None => return (collected, None),
                }
            },
            Err(error) => {
                proof {
                    let errs = choose|errs: Seq<FetchError>| retry_run(errs, error_of(pv));
                    assert(retry_run(errs, Some(error)));
                }
                return (collected, Some(error));
            },
        }
        pages += 1;
    }
    (collected, None)
}

/// An outcome that answers `job`: it names the job's post and depth, and
/// carries a thread response, or the quoting posts of the pages that
/// arrived; an error in it is one the retry policy gave up on, after a run
/// of attempts it retried.
pub open spec fn answers(job: Job, outcome: JobOutcome) -> bool {
    match job {
        Job::Thread { uri, depth } => outcome matches JobOutcome::Thread { uri: u, depth: d, response } && u@ == uri@
            && d == depth && exists|errs: Seq<FetchError>| #[trigger] retry_run(errs, error_of(response)),
        Job::Quotes { uri, depth } => outcome matches JobOutcome::Quotes { uri: u, depth: d, error, .. } && u@ == uri@
            && d == depth && (error matches Some(e) ==> exists|errs: Seq<FetchError>| #[trigger] retry_run(errs, Some(e))),
    }
}

/// Performs the requests of one job.
pub fn run_job<F: Fetch, C: Clock>(fetch: &F, clock: &C, gate: &mut RateGate, job: Job) -> (r: JobOutcome)
    ensures
        answers(job, r),
        final(gate).closed_until() is None,
{
    match job {
        Job::Thread { uri, depth } => {
            let response = fetch_thread(fetch, clock, gate, uri.as_str());
            let ghost rv = response;
            let r = JobOutcome::Thread { uri, depth, response };
            proof {
                let errs = choose|errs: Seq<FetchError>| retry_run(errs, error_of(rv));
                assert(r matches JobOutcome::Thread { response, .. } && retry_run(errs, error_of(response)));
            }
            r
        },
        Job::Quotes { uri, depth } => {
            let (posts, error) = fetch_all_quotes(fetch, clock, gate, uri.as_str());
            JobOutcome::Quotes { uri, depth, posts, error }
        },
    }
}

/// One turn of the crawl loop from `before` to `after`:
/// [`CrawlState::next_job`] hands out a job, its requests bring back an
/// outcome answering it, and [`CrawlState::apply`] folds that outcome in.
pub open spec fn crawl_turn(before: CrawlState, after: CrawlState) -> bool {
    exists|mid: CrawlState, job: Job, outcome: JobOutcome|
        #![trigger next_job_step(before, mid, Some(job)), answers(job, outcome)]
        next_job_step(before, mid, Some(job)) && answers(job, outcome) && if outcome_depth(outcome) < usize::MAX {
            apply_step(mid, outcome, after)
        } else {
            after == mid
        }
}

/// Each state of `states` after the first follows from the one before by a
/// turn of the crawl loop.
pub open spec fn crawl_turns(states: Seq<CrawlState>) -> bool
    decreases states.len(),
{
    states.len() <= 1 || (crawl_turns(states.drop_last()) && crawl_turn(states[states.len() - 2], states.last()))
}

/// A run of [`crawl`] that returned `r`.
///
/// It starts from the state [`CrawlState::new`] builds with the start
/// post's thread queued at depth zero, and each state of `states` follows
/// from the one before by a turn of the loop. Then
/// [`CrawlState::next_job`] finds no job worth running, leaving `last`:
/// the queue ran out, or the clock read `stop`, at which the crawl stops.
/// (When the loop's budget of steps runs out first, `last` is the final
/// state of `states`.) Finally [`CrawlState::finish`] makes `r` of `last`
/// with the clock reading `end`.
pub open spec fn crawl_trace(
    start_uri: Seq<char>,
    options: CrawlOptions,
    existing: Option<ContextWeb>,
    states: Seq<CrawlState>,
    last: CrawlState,
    stop: Option<Duration>,
    end: Duration,
    r: CrawlResult,
) -> bool {
    &&& states.len() > 0
    &&& exists|first: CrawlState|
        #[trigger] start_step(first, start_uri, options, existing) && enqueue_step(first, states[0], start_uri, 0)
    &&& crawl_turns(states)
    &&& if states.len() <= u64::MAX {
        &&& next_job_step(states.last(), last, None)
        &&& stop matches Some(e) ==> states.last().stops_at(e)
        &&& last.queue_view().len() > 0 ==> stop is Some
    } else {
        last == states.last()
    }
    &&& finish_step(last, start_uri, r, end)
}

/// The limits and the deadline stay as the crawl set them out.
pub proof fn lemma_turns_keep_settings(states: Seq<CrawlState>)
    requires
        states.len() > 0,
        crawl_turns(states),
    ensures
        forall|i: int| 0 <= i < states.len() ==> (#[trigger] states[i]).same_settings(&states[0]),
    decreases states.len(),
{
    if states.len() > 1 {
        let init = states.drop_last();
        lemma_turns_keep_settings(init);
        let b = states[states.len() - 2];
        let a = states.last();
        let w = choose|mid: CrawlState, job: Job, outcome: JobOutcome|
            #![trigger next_job_step(b, mid, Some(job)), answers(job, outcome)]
            next_job_step(b, mid, Some(job)) && answers(job, outcome) && if outcome_depth(outcome) < usize::MAX {
                apply_step(mid, outcome, a)
            } else {
                a == mid
            };
        assert(a.same_settings(&w.0));
        assert forall|i: int| 0 <= i < states.len() implies (#[trigger] states[i]).same_settings(&states[0]) by {
            if i < states.len() - 1 {
                assert(states[i] == init[i]);
            }
            assert(init[0] == states[0]);
            assert(init[init.len() - 1] == b);
        }
    }
}

/// A crawl times out exactly when the clock's final reading is past the
/// deadline set at the start, a timeout after the clock's first reading.
pub proof fn lemma_crawl_timeout(
    start_uri: Seq<char>,
    options: CrawlOptions,
    existing: Option<ContextWeb>,
    states: Seq<CrawlState>,
    last: CrawlState,
    stop: Option<Duration>,
    end: Duration,
    r: CrawlResult,
)
    requires
        crawl_trace(start_uri, options, existing, states, last, stop, end, r),
    ensures
        exists|start: Duration| states[0].deadline_view() == crawl_deadline(nanos_of(start), nanos_of(options.timeout)),
        r.stop_reason is Timeout <==> nanos_of(end) > states[0].deadline_view(),
{
    lemma_turns_keep_settings(states);
    assert(states[states.len() - 1].same_settings(&states[0]));
}

/// A crawl that ends complete leaves no work queued, given a clock that
/// does not run backwards: the reading at which the loop stopped is no
/// later than the final one.
pub proof fn lemma_complete_leaves_nothing_pending(
    start_uri: Seq<char>,
    options: CrawlOptions,
    existing: Option<ContextWeb>,
    states: Seq<CrawlState>,
    last: CrawlState,
    stop: Option<Duration>,
    end: Duration,
    r: CrawlResult,
)
    requires
        crawl_trace(start_uri, options, existing, states, last, stop, end, r),
        states.len() <= u64::MAX,
        stop matches Some(e) ==> nanos_of(e) <= nanos_of(end),
    ensures
        r.stop_reason is Complete ==> r.pending == 0,
{
}

/// Crawls the context web reachable from a post.
///
/// Runs a breadth-first search over threads: each `getPostThread` call
/// ingests a whole reply tree, and every post in the web that has quotes is
/// expanded with `getQuotes`. Quote embeds and post links found in
/// rich-text facets seed further threads. Individual fetch failures are
/// skipped, so a partial web comes back rather than an error. Pass
/// `existing` to merge into a previous crawl. A snapshot of progress goes
/// to `progress` after each unit of work.
pub fn crawl<F: Fetch, C: Clock, P: ProgressSink>(
    fetch: &F,
    clock: &C,
    start_uri: &str,
    options: &CrawlOptions,
    existing: Option<ContextWeb>,
    progress: &mut P,
) -> (r: CrawlResult)
    requires
        existing matches Some(w) ==> w.wf(),
    ensures
        exists|states: Seq<CrawlState>, last: CrawlState, stop: Option<Duration>, end: Duration|
            #[trigger] crawl_trace(start_uri@, *options, existing, states, last, stop, end, r),
        r.web.wf(),
        r.stop_reason is MaxNodes ==> r.web@.index.len() >= options.max_nodes,
        r.stop_reason is Complete ==> r.web@.index.len() < options.max_nodes,
        forall|i: int| 0 <= i < r.web@.quote_edges.len() ==> {
            let e = #[trigger] r.web@.quote_edges[i];
            &&& lookup(r.web@.index, e.source) == Some(e.source_thread)
            &&& lookup(r.web@.index, e.target) == Some(e.target_thread)
        },
        forall|i: int, j: int|
            0 <= i < j < r.web@.quote_edges.len() ==> !(#[trigger] r.web@.quote_edges[i].source
                == #[trigger] r.web@.quote_edges[j].source && r.web@.quote_edges[i].target
                == r.web@.quote_edges[j].target),
{
    let mut gate = RateGate { until: None };
    let ghost existing_in = existing;
    let mut state = CrawlState::new(clock, start_uri, options, existing);
    let ghost first = state;
    state.enqueue(String::from_str(start_uri), 0);
    let ghost mut states: Seq<CrawlState> = seq![state];
    let ghost mut stop: Option<Duration> = None;
    let mut steps: u64 = 0;
    let mut done = false;
    while steps < u64::MAX && !done
        invariant
            state.inv(),
            state.max_nodes_view() == options.max_nodes,
            start_step(first, start_uri@, *options, existing_in),
            enqueue_step(first, states[0], start_uri@, 0),
            states.len() > 0,
            crawl_turns(states),
            !done ==> states.len() == steps + 1 && state == states.last() && stop is None,
            done ==> {
                &&& states.len() == steps
                &&& next_job_step(states.last(), state, None)
                &&& stop matches Some(e) ==> states.last().stops_at(e)
                &&& state.queue_view().len() > 0 ==> stop is Some
            },
        decreases u64::MAX - steps,
    {
        let ghost before = state;
        match state.next_job(clock) {
            Some(job) => {
                let ghost mid = state;
                let ghost jv = job;
                let depth = match &job {
                    Job::Thread { depth, .. } => *depth,
                    Job::Quotes { depth, .. } => *depth,
                };
                let outcome = run_job(fetch, clock, &mut gate, job);
                let ghost ov = outcome;
                if depth < usize::MAX {
                    state.apply(clock, outcome);
                }
                proof {
                    assert(next_job_step(before, mid, Some(jv)) && answers(jv, ov));
                    assert(crawl_turn(before, state));
                    let grown = states.push(state);
                    assert(grown.drop_last() =~= states);
                    assert(grown[grown.len() - 2] == before);
                    states = grown;
                }
                progress.report(state.progress());
            },
            None => {
                proof {
                    assert(before == states.last());
                    assert(next_job_step(before, state, None));
                    if state.queue_view().len() > 0 {
                        assert(exists|e: Duration| before.stops_at(e));
                        let e = choose|e: Duration| before.stops_at(e);
                        stop = Some(e);
                        assert(states.last().stops_at(e));
                    }
                }
                done = true;
            },
        }
        steps += 1;
    }
    let ghost wv = state.web_view();
    let ghost hv = state.handles_view();
    let ghost sv = state;
    let r = state.finish(clock, start_uri);
    proof {
        let end = choose|e: Duration| finish_step(sv, start_uri@, r, e);
        assert(r.stop_reason == sv.stop_reason_at(end));
        assert(crawl_trace(start_uri@, *options, existing_in, states, sv, stop, end, r));
        crate::model::lemma_normalized_sound(
            wv.quote_edges.map_values(|e: crate::model::EdgeModel| resolve_edge(e, wv.index, hv)),
            wv.index,
        );
    }
    r
}

} // verus!
