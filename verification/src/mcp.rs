//! The decisions of the Model Context Protocol server: which protocol
//! revision to speak, what each request asks for, the validated arguments
//! of a tool call, and the text of a tool result.
use vstd::prelude::*;
use vstd::string::*;

use crate::crawler::{CrawlOptions, StopReason};
use crate::lens::{lens_built, parse_lens_kind, spec_kind_of_name, Lens, LensParams};
use crate::model::{opt_view, ContextWeb};
use crate::route::{counts_line, root_link, spec_counts_line, spec_root_link};
use crate::strings::{has_prefix, str_eq, trim, trimmed};
use crate::uri::{debug_quote, debug_quoted, spec_parse_post_ref, PostRef};

verus! {

/// The newest protocol revision this server speaks.
pub const PROTOCOL_VERSION: &'static str = "2025-06-18";

/// Name of the one tool the server exposes.
pub const TOOL_NAME: &'static str = "bsky_context";

/// Whether a protocol revision is one the server accepts.
pub open spec fn spec_supported(v: Seq<char>) -> bool {
    v == "2025-06-18"@ || v == "2025-03-26"@ || v == "2024-11-05"@
}

/// The revision to answer `initialize` with: the client's when supported,
/// else the newest.
pub fn negotiate_version(requested: Option<&str>) -> (r: &'static str)
    ensures
        match requested {
            Some(v) => if spec_supported(v@) {
                r@ == v@
            } else {
                r@ == PROTOCOL_VERSION@
            },
            None => r@ == PROTOCOL_VERSION@,
        },
{
    match requested {
        Some(v) => {
            if str_eq(v, "2025-06-18") {
                "2025-06-18"
            } else if str_eq(v, "2025-03-26") {
                "2025-03-26"
            } else if str_eq(v, "2024-11-05") {
                "2024-11-05"
            } else {
                PROTOCOL_VERSION
            }
        },
        None => PROTOCOL_VERSION,
    }
}

/// What one JSON-RPC message asks for.
#[derive(Debug, Clone, PartialEq, Eq)]
pub enum Request {
    /// A notification: nothing to send.
    Ignore,
    /// `initialize`.
    Initialize,
    /// `ping`.
    Ping,
    /// `tools/list`.
    ListTools,
    /// `tools/call` of the server's tool.
    CallTool,
    /// `tools/call` of another tool, by name.
    UnknownTool(String),
    /// Any other method, by name.
    MethodNotFound(String),
}

/// Classifies a message by whether it carries an id, its method, and the
/// name of the tool it calls.
pub fn classify(has_id: bool, method: &str, tool_name: &str) -> (r: Request)
    ensures
        !has_id ==> r == Request::Ignore,
        has_id ==> (if method@ == "initialize"@ {
            r == Request::Initialize
        } else if method@ == "ping"@ {
            r == Request::Ping
        } else if method@ == "tools/list"@ {
            r == Request::ListTools
        } else if method@ == "tools/call"@ {
            if tool_name@ == TOOL_NAME@ {
                r == Request::CallTool
            } else {
                r matches Request::UnknownTool(n) && n@ == tool_name@
            }
        } else {
            r matches Request::MethodNotFound(m) && m@ == method@
        }),
{
    if !has_id {
        Request::Ignore
    } else if str_eq(method, "initialize") {
        Request::Initialize
    } else if str_eq(method, "ping") {
        Request::Ping
    } else if str_eq(method, "tools/list") {
        Request::ListTools
    } else if str_eq(method, "tools/call") {
        if str_eq(tool_name, TOOL_NAME) {
            Request::CallTool
        } else {
            Request::UnknownTool(String::from_str(tool_name))
        }
    } else {
        Request::MethodNotFound(String::from_str(method))
    }
}

/// JSON-RPC error code: the body is not valid JSON.
pub const PARSE_ERROR: i64 = -32700;

/// JSON-RPC error code: the body is not a request object or batch.
pub const INVALID_REQUEST: i64 = -32600;

/// JSON-RPC error code: the method does not exist.
pub const METHOD_NOT_FOUND: i64 = -32601;

/// JSON-RPC error code: the parameters are wrong.
pub const INVALID_PARAMS: i64 = -32602;

/// The error a request is answered with, if it is one: its code and message.
pub open spec fn spec_request_error(r: Request) -> Option<(i64, Seq<char>)> {
    match r {
        Request::UnknownTool(n) => Some((INVALID_PARAMS, "unknown tool "@ + debug_quoted(n@))),
        Request::MethodNotFound(m) => Some((METHOD_NOT_FOUND, "method not found: "@ + m@)),
        _ => None,
    }
}

impl Request {
    /// The error this request is answered with: an unknown tool is a
    /// parameter error naming the tool, an unknown method is reported as
    /// not found; every other request is served.
    pub fn error(&self) -> (r: Option<(i64, String)>)
        ensures
            match spec_request_error(*self) {
                Some((c, m)) => r matches Some(p) && p.0 == c && p.1@ == m,
                None => r is None,
            },
    {
        match self {
            Request::UnknownTool(name) => {
                let mut m = String::from_str("unknown tool ");
                let q = debug_quote(name.as_str());
                m.append(q.as_str());
                Some((INVALID_PARAMS, m))
            },
            Request::MethodNotFound(method) => {
                let mut m = String::from_str("method not found: ");
                m.append(method.as_str());
                Some((METHOD_NOT_FOUND, m))
            },
            _ => None,
        }
    }
}

/// The top-level shape of a parsed POST body, as far as framing goes.
#[derive(Debug, Clone, PartialEq, Eq)]
pub enum BodyShape {
    /// A JSON object.
    Object,
    /// A JSON array; for each item, whether it is an object.
    Array(Vec<bool>),
    /// Any other JSON value.
    Scalar,
}

/// How a POST body frames its messages.
#[derive(Debug, Clone, Copy, PartialEq, Eq)]
pub enum Framing {
    /// One message; the reply is one object.
    Single,
    /// A batch of messages; the reply is an array.
    Batch,
    /// Neither an object nor a non-empty array of objects.
    Invalid,
}

/// Frames a body: an object is one message, a non-empty array of objects
/// is a batch, and anything else is an invalid request.
pub fn frame_body(shape: &BodyShape) -> (r: Framing)
    ensures
        match shape {
            BodyShape::Object => r == Framing::Single,
            BodyShape::Array(items) => if items@.len() > 0 && forall|i: int|
                0 <= i < items@.len() ==> #[trigger] items@[i] {
                r == Framing::Batch
            } else {
                r == Framing::Invalid
            },
            BodyShape::Scalar => r == Framing::Invalid,
        },
{
    match shape {
        BodyShape::Object => Framing::Single,
        BodyShape::Array(items) => {
            if items.len() == 0 {
                return Framing::Invalid;
            }
            let n = items.len();
            let mut i: usize = 0;
            while i < n
                invariant
                    n == items@.len(),
                    *shape == BodyShape::Array(*items),
                    i <= n,
                    forall|k: int| 0 <= k < i ==> #[trigger] items@[k],
                decreases n - i,
            {
                if !items[i] {
                    assert(!items@[i as int]);
                    return Framing::Invalid;
                }
                i += 1;
            }
            Framing::Batch
        },
        BodyShape::Scalar => Framing::Invalid,
    }
}

/// A text argument that is present and not blank.
pub open spec fn spec_non_empty(v: Option<Seq<char>>) -> Option<Seq<char>> {
    match v {
        Some(s) => if trimmed(s).len() > 0 {
            Some(s)
        } else {
            None
        },
        None => None,
    }
}

/// Keeps a text argument only when it is not blank.
pub fn non_empty(value: Option<String>) -> (r: Option<String>)
    ensures
        opt_view(r) == spec_non_empty(opt_view(value)),
{
    match value {
        Some(s) => if trim(s.as_str()).unicode_len() > 0 {
            Some(s)
        } else {
            None
        },
        None => None,
    }
}

/// The arguments of a `bsky_context` call as they arrive.
#[derive(Debug, Clone, PartialEq, Eq)]
pub struct RawArgs {
    /// The starting post, as a URL or AT URI.
    pub post: String,
    /// The lens name.
    pub lens: Option<String>,
    /// Result count for threads and highlights.
    pub top: Option<usize>,
    /// Hop radius for neighborhood.
    pub hops: Option<usize>,
    /// Center post for neighborhood.
    pub uri: Option<String>,
    /// Inclusive lower bound for timeline.
    pub after: Option<String>,
    /// Exclusive upper bound for timeline.
    pub before: Option<String>,
    /// Text query for search.
    pub query: Option<String>,
    /// Author handle filter for search.
    pub author: Option<String>,
    /// Whether to ignore any cached web.
    pub fresh: Option<bool>,
}

/// Validated arguments of a `bsky_context` call.
#[derive(Debug, Clone, PartialEq, Eq)]
pub struct ToolArgs {
    /// The starting post.
    pub post: PostRef,
    /// The lens to render with.
    pub lens: Lens,
    /// Whether to ignore any cached web and crawl from scratch.
    pub fresh: bool,
}

/// The lens a call names: `tree` when none or an empty one is given.
pub open spec fn spec_arg_lens(lens: Option<Seq<char>>) -> Seq<char> {
    match lens {
        Some(s) => if s.len() > 0 {
            s
        } else {
            "tree"@
        },
        None => "tree"@,
    }
}

impl ToolArgs {
    /// Validates raw arguments: the post must parse and the lens must be
    /// known; blank text arguments count as absent.
    pub fn from_raw(raw: RawArgs) -> (r: Result<ToolArgs, String>)
        ensures
            match spec_parse_post_ref(raw.post@) {
                None => r matches Err(m) && m@ == "cannot parse as Bluesky post reference: "@ + debug_quoted(
                    trimmed(raw.post@),
                ),
                Some((repo, rkey)) => match spec_kind_of_name(spec_arg_lens(opt_view(raw.lens))) {
                    None => r matches Err(m) && m@ == "unknown lens "@ + debug_quoted(spec_arg_lens(opt_view(raw.lens)))
                        + "; options: tree, linear, by-author, raw, stats, threads, highlights, neighborhood, timeline, search"@,
                    Some(kind) => r matches Ok(a) && a.post.repo@ == repo && a.post.rkey@ == rkey && a.fresh == match raw.fresh {
                        Some(f) => f,
                        None => false,
                    } && lens_built(
                        a.lens,
                        kind,
                        raw.top,
                        raw.hops,
                        spec_non_empty(opt_view(raw.uri)),
                        spec_non_empty(opt_view(raw.after)),
                        spec_non_empty(opt_view(raw.before)),
                        spec_non_empty(opt_view(raw.query)),
                        spec_non_empty(opt_view(raw.author)),
                    ),
                },
            },
    {
        let post = match PostRef::parse(raw.post.as_str()) {
            Ok(p) => p,
            Err(e) => return Err(e.message()),
        };
        let name: &str = match &raw.lens {
            Some(s) => if s.unicode_len() > 0 {
                s.as_str()
            } else {
                "tree"
            },
            None => "tree",
        };
        let kind = match parse_lens_kind(name) {
            Ok(k) => k,
            Err(e) => return Err(e.message()),
        };
        let params = LensParams {
            top: raw.top,
            hops: raw.hops,
            uri: non_empty(raw.uri),
            after: non_empty(raw.after),
            before: non_empty(raw.before),
            query: non_empty(raw.query),
            author: non_empty(raw.author),
        };
        let fresh = match raw.fresh {
            Some(f) => f,
            None => false,
        };
        Ok(ToolArgs { post, lens: kind.with_params(&params), fresh })
    }
}

/// How the web being rendered was obtained.
#[derive(Debug, Clone, Copy, PartialEq, Eq)]
pub enum Provenance {
    /// A crawl ran (possibly continuing a cached web) and stopped for this reason.
    Crawled {
        /// Why the crawl stopped.
        stop_reason: StopReason,
        /// Work items left when it stopped.
        pending: usize,
    },
    /// The cached web was rendered without crawling.
    Cached {
        /// Age of the cached web in whole seconds.
        age_secs: u64,
    },
}

/// What a tool result says of where the web came from.
pub open spec fn spec_note(provenance: Provenance, max_nodes: usize, timeout_secs: nat) -> Seq<char> {
    match provenance {
        Provenance::Crawled { stop_reason: StopReason::Complete, .. } => "The graph was fully explored."@,
        Provenance::Crawled { stop_reason: StopReason::MaxNodes, pending } => "Crawl budget reached ("@
            + crate::strings::spec_decimal(max_nodes as nat) + " posts per call); "@ + crate::strings::spec_decimal(
            pending as nat,
        ) + " threads unexplored. Call again with the same post to continue from the cached web."@,
        Provenance::Crawled { stop_reason: StopReason::Timeout, pending } => "Crawl budget reached ("@
            + crate::strings::spec_decimal(timeout_secs) + "s per call); "@ + crate::strings::spec_decimal(
            pending as nat,
        ) + " threads unexplored. Call again with the same post to continue from the cached web."@,
        Provenance::Cached { age_secs } => "Rendered from the cached web ("@ + crate::strings::spec_decimal(
            age_secs as nat,
        ) + "s old); pass fresh=true to re-crawl."@,
    }
}

/// Everything a tool result holds before the rendering.
pub open spec fn spec_tool_head(
    web: &ContextWeb,
    lens: Lens,
    provenance: Provenance,
    max_nodes: usize,
    timeout: core::time::Duration,
) -> Seq<char> {
    "# Bluesky context web: "@ + spec_root_link(web) + "\n\n"@ + spec_counts_line(web, crate::lens::spec_lens_kind(lens))
        + "\n"@ + spec_note(provenance, max_nodes, crate::crawler::nanos_of(timeout) / 1_000_000_000) + "\n\n---\n\n"@
}

/// Composes the tool's text result: a short header, then the lens output.
pub fn compose(web: &ContextWeb, lens: &Lens, provenance: Provenance, budget: &CrawlOptions) -> (r: String)
    ensures
        ({
            let head = spec_tool_head(web, *lens, provenance, budget.max_nodes, budget.timeout);
            has_prefix(r@, head) && crate::lens::lens_output(web, *lens, r@.skip(head.len() as int))
        }),
{
    let link = root_link(web);
    let note = match provenance {
        Provenance::Crawled { stop_reason: StopReason::Complete, .. } => String::from_str(
            "The graph was fully explored.",
        ),
        Provenance::Crawled { stop_reason: StopReason::MaxNodes, pending } => {
            let mut s = String::from_str("Crawl budget reached (");
            let m = crate::lens::fmt::dec(budget.max_nodes);
            s.append(m.as_str());
            s.append(" posts per call); ");
            let p = crate::lens::fmt::dec(pending);
            s.append(p.as_str());
            s.append(" threads unexplored. Call again with the same post to continue from the cached web.");
            s
        },
        Provenance::Crawled { stop_reason: StopReason::Timeout, pending } => {
            let mut s = String::from_str("Crawl budget reached (");
            let secs = crate::strings::decimal(crate::crawler::duration_secs(budget.timeout));
            s.append(secs.as_str());
            s.append("s per call); ");
            let p = crate::lens::fmt::dec(pending);
            s.append(p.as_str());
            s.append(" threads unexplored. Call again with the same post to continue from the cached web.");
            s
        },
        Provenance::Cached { age_secs } => {
            let mut s = String::from_str("Rendered from the cached web (");
            let a = crate::strings::decimal(age_secs);
            s.append(a.as_str());
            s.append("s old); pass fresh=true to re-crawl.");
            s
        },
    };
    let mut out = String::from_str("# Bluesky context web: ");
    out.append(link.as_str());
    out.append("\n\n");
    let counts = counts_line(web, lens);
    out.append(counts.as_str());
    out.append("\n");
    out.append(note.as_str());
    out.append("\n\n---\n\n");
    let ghost head = out@;
    let rendered = crate::lens::render(web, lens);
    out.append(rendered.as_str());
    proof {
        assert(out@ == head + rendered@);
        assert(out@.subrange(0, head.len() as int) =~= head);
        assert(out@.skip(head.len() as int) =~= rendered@);
    }
    out
}

/// Usage text served at `/`.
pub const USAGE: &'static str = "# bsky-context\n\nAn MCP server that fetches the full conversation graph around a Bluesky post: the reply tree and every quote post, recursively, rendered as text.\n\nConnect a client to `/mcp` (Streamable HTTP, no authentication) and call the `bsky_context` tool with a bsky.app post URL. In a client that takes custom connectors: Settings -> Connectors -> Add custom connector -> paste this origin plus `/mcp`.\n\nSource: https://github.com/Iteratrix/bluesky-crawler\n";

} // verus!
