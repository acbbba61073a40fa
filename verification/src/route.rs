//! Request routing for the web service: which web and lens a URL asks for,
//! the cache key of a web, and the markdown header of a response.
use vstd::prelude::*;
use vstd::string::*;

use crate::crawler::{CrawlOptions, StopReason};
use crate::lens::{lens_built, parse_lens_kind, spec_kind_of_name, Lens, LensKind, LensParams};
use crate::model::{pairs_view, ContextWeb};
use crate::strings::{has_char, has_prefix, split_first, str_eq, strip_prefix, trimmed};
use crate::uri::{debug_quoted, rkey_of, spec_parse_post_ref, spec_rkey_of, PostRef};

verus! {

/// What a request asked for.
#[derive(Debug, Clone, PartialEq, Eq)]
pub enum Route {
    /// The usage page.
    Home,
    /// A context web.
    Web(WebQuery),
}

/// The body of a web request.
#[derive(Debug, Clone, PartialEq, Eq)]
pub struct WebQuery {
    /// The starting post.
    pub post: PostRef,
    /// The lens to render with.
    pub lens: Lens,
    /// Whether to ignore any cached web.
    pub fresh: bool,
    /// Text or JSON.
    pub format: Format,
}

/// Response body format.
#[derive(Debug, Clone, Copy, PartialEq, Eq, Structural)]
pub enum Format {
    /// Markdown text for humans and language models.
    Markdown,
    /// The raw web JSON.
    Json,
}

/// Why a request could not be routed.
#[derive(Debug, Clone, PartialEq, Eq)]
pub enum RouteError {
    /// No such path.
    NotFound,
    /// The path or query is malformed.
    BadRequest(String),
}

impl RouteError {
    /// The error message: `not found`, or what was malformed.
    pub fn message(&self) -> (r: String)
        ensures
            r@ == match self {
                RouteError::NotFound => "not found"@,
                RouteError::BadRequest(m) => m@,
            },
    {
        match self {
            RouteError::NotFound => String::from_str("not found"),
            RouteError::BadRequest(m) => m.clone(),
        }
    }

    /// The HTTP status the error is answered with.
    pub fn status(&self) -> (r: u16)
        ensures
            r == match self {
                RouteError::NotFound => 404u16,
                RouteError::BadRequest(_) => 400u16,
            },
    {
        match self {
            RouteError::NotFound => 404,
            RouteError::BadRequest(_) => 400,
        }
    }
}

/// A request URL as routing reads it: the path and the decoded query pairs.
#[derive(Debug, Clone, PartialEq, Eq)]
pub struct RequestUrl {
    /// The path, percent-decoding not applied.
    pub path: String,
    /// The query's key/value pairs, decoded, in order.
    pub query: Vec<(String, String)>,
}

/// What `url::Url::parse` followed by `path` and `query_pairs` gives for a
/// URL string: nothing when it does not parse.
pub uninterp spec fn url_components(s: Seq<char>) -> Option<(Seq<char>, Seq<(Seq<char>, Seq<char>)>)>;

/// `url::Url::parse`, then the path and the decoded query pairs.
#[verifier::external_body]
fn url_parts(s: &str) -> (r: Option<(String, Vec<(String, String)>)>)
    ensures
        match r {
            Some((path, query)) => url_components(s@) == Some((path@, pairs_view(query@))),
            None => url_components(s@) is None,
        },
{
    match url::Url::parse(s) {
        Ok(u) => Some((u.path().to_owned(), u.query_pairs().map(|(k, v)| (k.into_owned(), v.into_owned())).collect())),
        Err(_) => None,
    }
}

impl RequestUrl {
    /// Parses an absolute URL into its path and query pairs.
    pub fn parse(s: &str) -> (r: Option<RequestUrl>)
        ensures
            match url_components(s@) {
                Some((path, query)) => r matches Some(u) && u.path@ == path && pairs_view(u.query@) == query,
                None => r is None,
            },
    {
        match url_parts(s) {
            Some((path, query)) => Some(RequestUrl { path, query }),
            None => None,
        }
    }
}

/// The first value given for `name`, when it is not empty.
pub open spec fn spec_param(q: Seq<(Seq<char>, Seq<char>)>, name: Seq<char>) -> Option<Seq<char>>
    decreases q.len(),
{
    if q.len() == 0 {
        None
    } else if q[0].0 == name {
        if q[0].1.len() > 0 {
            Some(q[0].1)
        } else {
            None
        }
    } else {
        spec_param(q.drop_first(), name)
    }
}

/// The first value given for `name`, when it is not empty.
fn param<'a>(query: &'a Vec<(String, String)>, name: &str) -> (r: Option<&'a str>)
    ensures
        match spec_param(pairs_view(query@), name@) {
            Some(v) => r matches Some(x) && x@ == v,
            None => r is None,
        },
{
    let n = query.len();
    let mut i: usize = 0;
    proof {
        assert(pairs_view(query@).skip(0) =~= pairs_view(query@));
    }
    while i < n
        invariant
            n == query@.len(),
            i <= n,
            spec_param(pairs_view(query@), name@) == spec_param(pairs_view(query@).skip(i as int), name@),
        decreases n - i,
    {
        proof {
            assert(pairs_view(query@).skip(i as int).drop_first() =~= pairs_view(query@).skip(i + 1));
            assert(pairs_view(query@).skip(i as int)[0] == (query@[i as int].0@, query@[i as int].1@));
        }
        if str_eq(query[i].0.as_str(), name) {
            if query[i].1.unicode_len() > 0 {
                return Some(query[i].1.as_str());
            } else {
                return None;
            }
        }
        i += 1;
    }
    None
}

/// The path without trailing slashes.
pub open spec fn trim_slashes(p: Seq<char>) -> Seq<char>
    decreases p.len(),
{
    if p.len() > 0 && p.last() == '/' {
        trim_slashes(p.drop_last())
    } else {
        p
    }
}

/// Removes every trailing slash.
fn trim_end_slashes(s: &str) -> (r: &str)
    ensures
        r@ == trim_slashes(s@),
{
    let mut n = s.unicode_len();
    proof {
        assert(s@.subrange(0, n as int) =~= s@);
    }
    while n > 0 && s.get_char(n - 1) == '/'
        invariant
            n <= s@.len(),
            trim_slashes(s@) == trim_slashes(s@.subrange(0, n as int)),
        decreases n,
    {
        proof {
            assert(s@.subrange(0, n as int).drop_last() =~= s@.subrange(0, n - 1));
        }
        n -= 1;
    }
    s.substring_char(0, n)
}

/// The value of a decimal digit.
pub open spec fn digit_value(c: char) -> nat {
    if c == '1' { 1 } else if c == '2' { 2 } else if c == '3' { 3 } else if c == '4' { 4 }
    else if c == '5' { 5 } else if c == '6' { 6 } else if c == '7' { 7 } else if c == '8' { 8 }
    else if c == '9' { 9 } else { 0 }
}

/// The value of a decimal digit.
fn digit_exec(c: char) -> (r: usize)
    ensures
        r == digit_value(c),
{
    if c == '1' { 1 } else if c == '2' { 2 } else if c == '3' { 3 } else if c == '4' { 4 }
    else if c == '5' { 5 } else if c == '6' { 6 } else if c == '7' { 7 } else if c == '8' { 8 }
    else if c == '9' { 9 } else { 0 }
}

/// The value of a run of decimal digits.
pub open spec fn digits_value(s: Seq<char>) -> nat
    decreases s.len(),
{
    if s.len() == 0 {
        0
    } else {
        digits_value(s.drop_last()) * 10 + digit_value(s.last())
    }
}

/// All characters are ASCII digits.
pub open spec fn all_digits(s: Seq<char>) -> bool {
    forall|i: int| 0 <= i < s.len() ==> '0' <= #[trigger] s[i] && s[i] <= '9'
}

/// What `usize::from_str` accepts: an optional `+`, then at least one
/// digit, with a value that fits.
pub open spec fn spec_parse_usize(s: Seq<char>) -> Option<usize> {
    let d = if s.len() > 0 && s[0] == '+' {
        s.drop_first()
    } else {
        s
    };
    if d.len() > 0 && all_digits(d) && digits_value(d) <= usize::MAX {
        Some(digits_value(d) as usize)
    } else {
        None
    }
}

/// Parses a non-negative integer as `usize::from_str` does.
pub fn parse_usize(s: &str) -> (r: Option<usize>)
    ensures
        r == spec_parse_usize(s@),
{
    let n = s.unicode_len();
    let start: usize = if n > 0 && s.get_char(0) == '+' {
        1
    } else {
        0
    };
    let ghost d = if s@.len() > 0 && s@[0] == '+' {
        s@.drop_first()
    } else {
        s@
    };
    if start == n {
        return None;
    }
    let mut value: usize = 0;
    let mut i: usize = start;
    while i < n
        invariant
            n == s@.len(),
            start <= i <= n,
            start < n,
            d == s@.skip(start as int),
            d == if s@.len() > 0 && s@[0] == '+' {
                s@.drop_first()
            } else {
                s@
            },
            all_digits(s@.subrange(start as int, i as int)),
            value == digits_value(s@.subrange(start as int, i as int)),
        decreases n - i,
    {
        let c = s.get_char(i);
        if !('0' <= c && c <= '9') {
            proof {
                assert(d[i - start] == c);
                assert(!('0' <= d[i - start] && d[i - start] <= '9'));
                assert(!all_digits(d));
            }
            return None;
        }
        let digit = digit_exec(c);
        proof {
            assert(s@.subrange(start as int, i + 1).drop_last() =~= s@.subrange(start as int, i as int));
            assert(s@.subrange(start as int, i + 1).last() == c);
            assert(d.subrange(0, i + 1 - start) =~= s@.subrange(start as int, i + 1));
            assert(all_digits(s@.subrange(start as int, i + 1))) by {
                assert forall|k: int| 0 <= k < i + 1 - start implies '0' <= #[trigger] s@.subrange(start as int, i + 1)[k]
                    && s@.subrange(start as int, i + 1)[k] <= '9' by {
                    if k < i - start {
                        assert(s@.subrange(start as int, i + 1)[k] == s@.subrange(start as int, i as int)[k]);
                    }
                }
            }
        }
        match value.checked_mul(10) {
            Some(m) => match m.checked_add(digit) {
                Some(v) => {
                    value = v;
                },
                None => {
                    proof {
                        lemma_digits_grow(s@.subrange(start as int, (i + 1) as int), d);
                    }
                    return None;
                },
            },
            None => {
                proof {
                    lemma_digits_grow(s@.subrange(start as int, (i + 1) as int), d);
                }
                return None;
            },
        }
        i += 1;
    }
    proof {
        assert(s@.subrange(start as int, n as int) =~= d);
    }
    Some(value)
}

/// What `u64::from_str` gives for `s`.
pub open spec fn spec_parse_u64(s: Seq<char>) -> Option<u64> {
    let d = if s.len() > 0 && s[0] == '+' {
        s.drop_first()
    } else {
        s
    };
    if d.len() > 0 && all_digits(d) && digits_value(d) <= u64::MAX {
        Some(digits_value(d) as u64)
    } else {
        None
    }
}

/// Parses a non-negative integer as `u64::from_str` does.
pub fn parse_u64(s: &str) -> (r: Option<u64>)
    ensures
        r == spec_parse_u64(s@),
{
    let n = s.unicode_len();
    let start: usize = if n > 0 && s.get_char(0) == '+' {
        1
    } else {
        0
    };
    let ghost d = if s@.len() > 0 && s@[0] == '+' {
        s@.drop_first()
    } else {
        s@
    };
    if start == n {
        return None;
    }
    let mut value: u64 = 0;
    let mut i: usize = start;
    while i < n
        invariant
            n == s@.len(),
            start <= i <= n,
            start < n,
            d == s@.skip(start as int),
            d == if s@.len() > 0 && s@[0] == '+' {
                s@.drop_first()
            } else {
                s@
            },
            all_digits(s@.subrange(start as int, i as int)),
            value == digits_value(s@.subrange(start as int, i as int)),
        decreases n - i,
    {
        let c = s.get_char(i);
        if !('0' <= c && c <= '9') {
            proof {
                assert(d[i - start] == c);
                assert(!('0' <= d[i - start] && d[i - start] <= '9'));
                assert(!all_digits(d));
            }
            return None;
        }
        let digit = digit_exec(c) as u64;
        proof {
            assert(s@.subrange(start as int, i + 1).drop_last() =~= s@.subrange(start as int, i as int));
            assert(s@.subrange(start as int, i + 1).last() == c);
            assert(d.subrange(0, i + 1 - start) =~= s@.subrange(start as int, i + 1));
            assert(all_digits(s@.subrange(start as int, i + 1))) by {
                assert forall|k: int| 0 <= k < i + 1 - start implies '0' <= #[trigger] s@.subrange(start as int, i + 1)[k]
                    && s@.subrange(start as int, i + 1)[k] <= '9' by {
                    if k < i - start {
                        assert(s@.subrange(start as int, i + 1)[k] == s@.subrange(start as int, i as int)[k]);
                    }
                }
            }
        }
        match value.checked_mul(10) {
            Some(m) => match m.checked_add(digit) {
                Some(v) => {
                    value = v;
                },
                None => {
                    proof {
                        lemma_digits_grow(s@.subrange(start as int, (i + 1) as int), d);
                    }
                    return None;
                },
            },
            None => {
                proof {
                    lemma_digits_grow(s@.subrange(start as int, (i + 1) as int), d);
                }
                return None;
            },
        }
        i += 1;
    }
    proof {
        assert(s@.subrange(start as int, n as int) =~= d);
    }
    Some(value)
}

/// A setting read as a `u64`, when it is present and parses.
pub open spec fn setting(v: Option<Seq<char>>) -> Option<u64> {
    match v {
        Some(t) => spec_parse_u64(t),
        None => None,
    }
}

/// A count that does not fit in `usize` becomes `fallback`.
pub open spec fn to_usize_or(n: u64, fallback: usize) -> usize {
    if n <= usize::MAX {
        n as usize
    } else {
        fallback
    }
}

/// The worker's crawl budget from its `CRAWL_MAX_NODES`, `CRAWL_MAX_DEPTH`,
/// `CRAWL_TIMEOUT_SECS` and `CRAWL_CONCURRENCY` settings, as text when
/// set: a missing or unparsable one takes the worker's default (500 posts,
/// no depth limit, 20 s, 4 requests).
pub fn crawl_budget(
    max_nodes: Option<&str>,
    max_depth: Option<&str>,
    timeout_secs: Option<&str>,
    concurrency: Option<&str>,
) -> (r: CrawlOptions)
    ensures
        r.max_nodes == match setting(crate::lens::timeline::opt_str_view(max_nodes)) {
            Some(n) => to_usize_or(n, usize::MAX),
            None => 500,
        },
        r.max_depth == match setting(crate::lens::timeline::opt_str_view(max_depth)) {
            Some(n) => Some(to_usize_or(n, usize::MAX)),
            None => None,
        },
        crate::crawler::nanos_of(r.timeout) == match setting(crate::lens::timeline::opt_str_view(timeout_secs)) {
            Some(n) => n * 1_000_000_000,
            None => 20_000_000_000,
        },
        r.concurrency == match setting(crate::lens::timeline::opt_str_view(concurrency)) {
            Some(n) => to_usize_or(n, 2),
            None => 4,
        },
{
    let nodes = match max_nodes {
        Some(t) => parse_u64(t),
        None => None,
    };
    let depth = match max_depth {
        Some(t) => parse_u64(t),
        None => None,
    };
    let secs = match timeout_secs {
        Some(t) => parse_u64(t),
        None => None,
    };
    let requests = match concurrency {
        Some(t) => parse_u64(t),
        None => None,
    };
    let defaults = CrawlOptions::default();
    CrawlOptions {
        max_nodes: match nodes {
            Some(n) => if n <= usize::MAX as u64 {
                n as usize
            } else {
                usize::MAX
            },
            None => 500,
        },
        max_depth: match depth {
            Some(n) => Some(
                if n <= usize::MAX as u64 {
                    n as usize
                } else {
                    usize::MAX
                },
            ),
            None => None,
        },
        timeout: match secs {
            Some(n) => crate::crawler::duration_from_secs(n),
            None => crate::crawler::duration_from_secs(20),
        },
        concurrency: match requests {
            Some(n) => if n <= usize::MAX as u64 {
                n as usize
            } else {
                defaults.concurrency
            },
            None => 4,
        },
    }
}

/// A run of digits that starts a longer run is worth no more than it.
pub proof fn lemma_digits_grow(prefix: Seq<char>, whole: Seq<char>)
    requires
        prefix.len() <= whole.len(),
        whole.subrange(0, prefix.len() as int) == prefix,
        all_digits(prefix),
    ensures
        all_digits(whole) ==> digits_value(prefix) <= digits_value(whole),
    decreases whole.len(),
{
    if prefix.len() < whole.len() {
        assert(whole.drop_last().subrange(0, prefix.len() as int) =~= prefix);
        lemma_digits_grow(prefix, whole.drop_last());
        if all_digits(whole) {
            assert(all_digits(whole.drop_last()));
        }
    } else {
        assert(whole =~= prefix);
    }
}

/// Whether `s` ends with `p`.
pub open spec fn has_suffix(s: Seq<char>, p: Seq<char>) -> bool {
    p.len() <= s.len() && s.subrange(s.len() - p.len(), s.len() as int) == p
}

/// The part of `s` before a suffix `p`, if `p` is a suffix.
pub fn strip_suffix<'a>(s: &'a str, p: &str) -> (r: Option<&'a str>)
    ensures
        match r {
            Some(t) => has_suffix(s@, p@) && t@ == s@.subrange(0, s@.len() - p@.len()),
            None => !has_suffix(s@, p@),
        },
{
    let n = s.unicode_len();
    let m = p.unicode_len();
    if m > n {
        return None;
    }
    let tail = s.substring_char(n - m, n);
    if str_eq(tail, p) {
        Some(s.substring_char(0, n - m))
    } else {
        None
    }
}

/// Where a URL points: `Err` for an unknown path, `Ok(None)` for the usage
/// page, else the post reference to parse and whether JSON was asked for.
pub open spec fn spec_target(path: Seq<char>, q: Seq<(Seq<char>, Seq<char>)>) -> Result<Option<(Seq<char>, bool)>, ()> {
    let p = trim_slashes(path);
    if p.len() == 0 {
        match spec_param(q, "url"@) {
            None => Ok(None),
            Some(t) => Ok(Some((t, false))),
        }
    } else if !has_prefix(p, "/t/"@) {
        Err(())
    } else {
        let rest = p.skip("/t/"@.len() as int);
        if !has_char(rest, '/') {
            Err(())
        } else {
            let repo = crate::strings::split_seq(rest, '/')[0];
            let tail = rest.skip(repo.len() as int + 1);
            let json = has_suffix(tail, ".json"@);
            let rkey = if json {
                tail.subrange(0, tail.len() - ".json"@.len())
            } else {
                tail
            };
            Ok(Some(("at://"@ + repo + "/app.bsky.feed.post/"@ + rkey, json)))
        }
    }
}

/// The lens a query names, `tree` by default.
pub open spec fn spec_lens_name(q: Seq<(Seq<char>, Seq<char>)>) -> Seq<char> {
    match spec_param(q, "lens"@) {
        Some(v) => v,
        None => "tree"@,
    }
}

/// A numeric parameter: `None` when malformed, `Some(None)` when absent.
pub open spec fn spec_number(q: Seq<(Seq<char>, Seq<char>)>, name: Seq<char>) -> Option<Option<usize>> {
    match spec_param(q, name) {
        None => Some(None),
        Some(v) => match spec_parse_usize(v) {
            Some(n) => Some(Some(n)),
            None => None,
        },
    }
}

/// The search text: `q`, or else `query`.
pub open spec fn spec_query(q: Seq<(Seq<char>, Seq<char>)>) -> Option<Seq<char>> {
    match spec_param(q, "q"@) {
        Some(v) => Some(v),
        None => spec_param(q, "query"@),
    }
}

/// Whether a fresh crawl was asked for: any `fresh` but `0`, `false`, `no`.
pub open spec fn spec_fresh(q: Seq<(Seq<char>, Seq<char>)>) -> bool {
    match spec_param(q, "fresh"@) {
        None => false,
        Some(v) => !(v == "0"@ || v == "false"@ || v == "no"@),
    }
}

/// The message for a malformed numeric parameter.
pub open spec fn spec_number_message(name: Seq<char>) -> Seq<char> {
    name + " must be a non-negative integer"@
}

/// Parses a post reference, turning failure into a bad request.
pub fn parse_post(input: &str) -> (r: Result<PostRef, RouteError>)
    ensures
        match spec_parse_post_ref(input@) {
            Some((repo, rkey)) => r matches Ok(p) && p.repo@ == repo && p.rkey@ == rkey,
            None => r matches Err(RouteError::BadRequest(m)) && m@ == "cannot parse as Bluesky post reference: "@
                + debug_quoted(trimmed(input@)),
        },
{
    match PostRef::parse(input) {
        Ok(p) => Ok(p),
        Err(e) => Err(RouteError::BadRequest(e.message())),
    }
}

/// A numeric parameter, or the bad request it makes.
fn number(query: &Vec<(String, String)>, name: &str) -> (r: Result<Option<usize>, RouteError>)
    ensures
        match spec_number(pairs_view(query@), name@) {
            Some(v) => r == Ok::<Option<usize>, RouteError>(v),
            None => r matches Err(RouteError::BadRequest(m)) && m@ == spec_number_message(name@),
        },
{
    match param(query, name) {
        None => Ok(None),
        Some(v) => match parse_usize(v) {
            Some(n) => Ok(Some(n)),
            None => {
                let mut m = String::from_str(name);
                m.append(" must be a non-negative integer");
                Err(RouteError::BadRequest(m))
            },
        },
    }
}

/// A text parameter, owned.
fn text_param(query: &Vec<(String, String)>, name: &str) -> (r: Option<String>)
    ensures
        crate::model::opt_view(r) == spec_param(pairs_view(query@), name@),
{
    match param(query, name) {
        Some(v) => Some(String::from_str(v)),
        None => None,
    }
}

/// Parses a request URL.
///
/// Accepted forms: `/` (usage), `/?url=<bsky.app URL or AT URI>`, and
/// `/t/<handle or DID>/<rkey>` with an optional `.json` suffix. Query
/// parameters: `lens`, `top`, `hops`, `uri`, `after`, `before`, `q` (or
/// `query`), `author`, `fresh`. An unknown path is not found; a malformed
/// post reference, lens or number is a bad request, checked in that order.
pub fn parse(url: &RequestUrl) -> (r: Result<Route, RouteError>)
    ensures
        ({
            let q = pairs_view(url.query@);
            match spec_target(url.path@, q) {
                Err(_) => r matches Err(RouteError::NotFound),
                Ok(None) => r matches Ok(Route::Home),
                Ok(Some((input, json))) => match spec_parse_post_ref(input) {
                    None => r matches Err(RouteError::BadRequest(m)) && m@ == "cannot parse as Bluesky post reference: "@
                        + debug_quoted(trimmed(input)),
                    Some((repo, rkey)) => match spec_kind_of_name(spec_lens_name(q)) {
                        None => r matches Err(RouteError::BadRequest(m)) && m@ == "unknown lens "@ + debug_quoted(
                            spec_lens_name(q),
                        ) + "; options: tree, linear, by-author, raw, stats, threads, highlights, neighborhood, timeline, search"@,
                        Some(kind) => match spec_number(q, "top"@) {
                            None => r matches Err(RouteError::BadRequest(m)) && m@ == spec_number_message("top"@),
                            Some(top) => match spec_number(q, "hops"@) {
                                None => r matches Err(RouteError::BadRequest(m)) && m@ == spec_number_message("hops"@),
                                Some(hops) => r matches Ok(Route::Web(w)) && w.post.repo@ == repo && w.post.rkey@ == rkey
                                    && w.format == (if json {
                                    Format::Json
                                } else {
                                    Format::Markdown
                                }) && w.fresh == spec_fresh(q) && lens_built(
                                    w.lens,
                                    kind,
                                    top,
                                    hops,
                                    spec_param(q, "uri"@),
                                    spec_param(q, "after"@),
                                    spec_param(q, "before"@),
                                    spec_query(q),
                                    spec_param(q, "author"@),
                                ),
                            },
                        },
                    },
                },
            }
        }),
{
    let path = trim_end_slashes(url.path.as_str());
    let (post, format) = if path.unicode_len() == 0 {
        match param(&url.query, "url") {
            None => return Ok(Route::Home),
            Some(t) => match parse_post(t) {
                Ok(p) => (p, Format::Markdown),
                Err(e) => return Err(e),
            },
        }
    } else {
        let rest = match strip_prefix(path, "/t/") {
            Some(r) => r,
            None => return Err(RouteError::NotFound),
        };
        let (repo, tail) = match split_first(rest, '/') {
            Some(x) => x,
            None => return Err(RouteError::NotFound),
        };
        proof {
            assert(crate::strings::split_seq(rest@, '/')[0] == repo@);
            assert(rest@.skip(repo@.len() as int + 1) =~= tail@);
        }
        let (rkey, format) = match strip_suffix(tail, ".json") {
            Some(k) => (k, Format::Json),
            None => (tail, Format::Markdown),
        };
        let mut target = String::from_str("at://");
        target.append(repo);
        target.append("/app.bsky.feed.post/");
        target.append(rkey);
        proof {
            let q = pairs_view(url.query@);
            let p = trim_slashes(url.path@);
            assert(p == path@);
            assert(p.len() > 0);
            assert(has_prefix(p, "/t/"@));
            assert(rest@ == p.skip("/t/"@.len() as int));
            assert(has_char(rest@, '/')) by {
                assert(rest@[repo@.len() as int] == '/');
            }
            assert(spec_target(url.path@, q) == Ok::<Option<(Seq<char>, bool)>, ()>(Some((target@, format == Format::Json))));
        }
        match parse_post(target.as_str()) {
            Ok(p) => (p, format),
            Err(e) => return Err(e),
        }
    };
    let lens_name: &str = match param(&url.query, "lens") {
        Some(v) => v,
        None => "tree",
    };
    let kind = match parse_lens_kind(lens_name) {
        Ok(k) => k,
        Err(e) => return Err(RouteError::BadRequest(e.message())),
    };
    let top = match number(&url.query, "top") {
        Ok(v) => v,
        Err(e) => return Err(e),
    };
    let hops = match number(&url.query, "hops") {
        Ok(v) => v,
        Err(e) => return Err(e),
    };
    let query = match text_param(&url.query, "q") {
        Some(v) => Some(v),
        None => text_param(&url.query, "query"),
    };
    let params = LensParams {
        top,
        hops,
        uri: text_param(&url.query, "uri"),
        after: text_param(&url.query, "after"),
        before: text_param(&url.query, "before"),
        query,
        author: text_param(&url.query, "author"),
    };
    let fresh = match param(&url.query, "fresh") {
        None => false,
        Some(v) => !(str_eq(v, "0") || str_eq(v, "false") || str_eq(v, "no")),
    };
    Ok(Route::Web(WebQuery { post, lens: kind.with_params(&params), fresh, format }))
}

/// Cache key for a web reached through `post`: keyed by record key alone,
/// because the same post may be requested by handle or by DID.
pub fn cache_key(post: &PostRef) -> (r: String)
    ensures
        r@ == "web:"@ + post.rkey@,
{
    let mut s = String::from_str("web:");
    s.append(post.rkey.as_str());
    s
}

/// A cached web is really about `post`: the root's record key matches, and
/// the root post's author is the requested repository by handle or by DID.
pub open spec fn spec_web_matches(web: &ContextWeb, repo: Seq<char>, rkey: Seq<char>) -> bool {
    spec_rkey_of(web@.root_uri) == rkey && match web.post_at(web@.root_uri) {
        Some(p) => p.author.did == repo || p.author.handle == repo,
        None => false,
    }
}

/// Returns whether a cached web is really about `post`.
pub fn cached_web_matches(web: &ContextWeb, post: &PostRef) -> (r: bool)
    ensures
        r == spec_web_matches(web, post.repo@, post.rkey@),
{
    if !str_eq(rkey_of(web.root()), post.rkey.as_str()) {
        return false;
    }
    match web.get_post(web.root()) {
        Some(root) => str_eq(root.author.did.as_str(), post.repo.as_str()) || str_eq(
            root.author.handle.as_str(),
            post.repo.as_str(),
        ),
        None => false,
    }
}

/// Usage text served at `/`.
pub const USAGE: &'static str = "# bsky-context\n\nFetch the full conversation graph around a Bluesky post: the reply tree and every quote post, recursively, rendered as text.\n\n## Endpoints\n\n- `/t/<handle-or-did>/<rkey>` \u{2014} the web around a post, rendered through a lens\n- `/t/<handle-or-did>/<rkey>.json` \u{2014} the raw web as JSON\n- `/?url=https://bsky.app/profile/<handle>/post/<rkey>` \u{2014} same, by URL\n\n## Query parameters\n\n- `lens` \u{2014} one of: tree (default), linear, by-author, stats, threads, highlights, neighborhood, timeline, search, raw\n- `top` (threads, highlights), `hops` and `uri` (neighborhood), `after` and `before` (timeline), `q` and `author` (search)\n- `fresh=1` \u{2014} ignore the cached web and crawl from scratch\n\nCrawls are bounded per request. When a response says the budget was reached, fetching the same URL again continues from the cached web.\n";

/// A link to the web's root post on bsky.app, or its URI when the root post
/// is not in the web.
pub open spec fn spec_root_link(web: &ContextWeb) -> Seq<char> {
    match web.post_at(web@.root_uri) {
        Some(p) => "https://bsky.app/profile/"@ + p.author.handle + "/post/"@ + spec_rkey_of(p.uri),
        None => web@.root_uri,
    }
}

/// A link to the web's root post on bsky.app, or its URI.
pub fn root_link(web: &ContextWeb) -> (r: String)
    ensures
        r@ == spec_root_link(web),
{
    match web.get_post(web.root()) {
        Some(p) => {
            let mut s = String::from_str("https://bsky.app/profile/");
            s.append(p.author.handle.as_str());
            s.append("/post/");
            s.append(rkey_of(p.uri.as_str()));
            s
        },
        None => String::from_str(web.root()),
    }
}

/// The counts line of a response header:
/// `Crawled {time}: {n} posts, {t} threads, {e} edges. Lens: {name}.`
pub open spec fn spec_counts_line(web: &ContextWeb, kind: LensKind) -> Seq<char> {
    "Crawled "@ + web@.crawled_at + ": "@ + crate::strings::spec_decimal(web@.index.len()) + " posts, "@
        + crate::strings::spec_decimal(web@.threads.len()) + " threads, "@ + crate::strings::spec_decimal(
        crate::model::saturated(
            crate::model::count_replies(crate::model::web_posts(web@.threads)) + web@.quote_edges.len(),
        ),
    ) + " edges. Lens: "@ + crate::lens::spec_kind_name(kind) + "."@
}

/// Builds the counts line of a response header.
pub fn counts_line(web: &ContextWeb, lens: &Lens) -> (r: String)
    ensures
        r@ == spec_counts_line(web, crate::lens::spec_lens_kind(*lens)),
{
    let mut s = String::from_str("Crawled ");
    s.append(web.crawl_time());
    s.append(": ");
    let n = crate::lens::fmt::dec(web.node_count());
    s.append(n.as_str());
    s.append(" posts, ");
    let t = crate::lens::fmt::dec(web.thread_count());
    s.append(t.as_str());
    s.append(" threads, ");
    let e = crate::lens::fmt::dec(web.edge_count());
    s.append(e.as_str());
    s.append(" edges. Lens: ");
    s.append(lens.kind().name());
    s.append(".");
    s
}

/// What a response says of how the crawl ended.
pub open spec fn spec_budget_note(stop_reason: StopReason, pending: usize, max_nodes: usize, timeout_secs: nat) -> Seq<char> {
    match stop_reason {
        StopReason::Complete => "The graph was fully explored."@,
        StopReason::MaxNodes => "Crawl budget reached ("@ + crate::strings::spec_decimal(max_nodes as nat)
            + " posts per request); "@ + crate::strings::spec_decimal(pending as nat)
            + " threads unexplored. Fetch this URL again to continue from the cached web."@,
        StopReason::Timeout => "Crawl budget reached ("@ + crate::strings::spec_decimal(timeout_secs)
            + "s per request); "@ + crate::strings::spec_decimal(pending as nat)
            + " threads unexplored. Fetch this URL again to continue from the cached web."@,
    }
}

/// Everything a response holds before the rendering.
pub open spec fn spec_compose_head(
    web: &ContextWeb,
    lens: Lens,
    stop_reason: StopReason,
    pending: usize,
    max_nodes: usize,
    timeout: core::time::Duration,
) -> Seq<char> {
    "# Bluesky context web: "@ + spec_root_link(web) + "\n\n"@ + spec_counts_line(web, crate::lens::spec_lens_kind(lens))
        + "\n"@ + spec_budget_note(stop_reason, pending, max_nodes, crate::crawler::nanos_of(timeout) / 1_000_000_000)
        + "\nOther lenses via `?lens=`: tree, linear, by-author, raw, stats, threads, highlights, neighborhood, timeline, search. Raw JSON: append `.json` to the path.\n\n---\n\n"@
}

/// Composes the markdown response for a crawled web: a header linking the
/// root post, the counts, how the crawl ended, the other lenses, then the
/// rendering.
pub fn compose(
    web: &ContextWeb,
    lens: &Lens,
    stop_reason: StopReason,
    pending: usize,
    budget: &CrawlOptions,
) -> (r: String)
    ensures
        ({
            let head = spec_compose_head(web, *lens, stop_reason, pending, budget.max_nodes, budget.timeout);
            has_prefix(r@, head) && crate::lens::lens_output(web, *lens, r@.skip(head.len() as int))
        }),
{
    let link = root_link(web);
    let note = match stop_reason {
        StopReason::Complete => String::from_str("The graph was fully explored."),
        StopReason::MaxNodes => {
            let mut s = String::from_str("Crawl budget reached (");
            let m = crate::lens::fmt::dec(budget.max_nodes);
            s.append(m.as_str());
            s.append(" posts per request); ");
            let p = crate::lens::fmt::dec(pending);
            s.append(p.as_str());
            s.append(" threads unexplored. Fetch this URL again to continue from the cached web.");
            s
        },
        StopReason::Timeout => {
            let mut s = String::from_str("Crawl budget reached (");
            let secs = crate::strings::decimal(crate::crawler::duration_secs(budget.timeout));
            s.append(secs.as_str());
            s.append("s per request); ");
            let p = crate::lens::fmt::dec(pending);
            s.append(p.as_str());
            s.append(" threads unexplored. Fetch this URL again to continue from the cached web.");
            s
        },
    };
    let mut out = String::from_str("# Bluesky context web: ");
    out.append(link.as_str());
    out.append("\n\n");
    let counts = counts_line(web, lens);
    out.append(counts.as_str());
    out.append("\n");
    out.append(note.as_str());
    out.append(
        "\nOther lenses via `?lens=`: tree, linear, by-author, raw, stats, threads, highlights, neighborhood, timeline, search. Raw JSON: append `.json` to the path.\n\n---\n\n",
    );
    let ghost head = out@;
    let rendered = crate::lens::render(web, lens);
    out.append(rendered.as_str());
    proof {
        assert(out@ == head + rendered@);
        assert(out@.subrange(0, head.len() as int) =~= head);
        assert(out@.skip(head.len() as int) =~= rendered@);
    }
    out
}

} // verus!
