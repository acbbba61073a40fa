//! Parsing and normalizing Bluesky post identifiers.
//!
//! Posts are addressed by AT URIs (`at://did:plc:xyz/app.bsky.feed.post/rkey`)
//! or by web URLs (`https://bsky.app/profile/handle/post/rkey`).
use vstd::prelude::*;
use vstd::string::*;

use crate::strings::{
    concat2, contains_seq, contains_str, has_char, has_char_exec, has_prefix, lemma_split_concat,
    lemma_split_none, lemma_split_nonempty, push_char, split_first, split_seq, starts_with, str_eq,
    strip_prefix, to_owned, trim, trimmed,
};

verus! {

/// The collection NSID for Bluesky posts.
pub const POST_COLLECTION: &'static str = "app.bsky.feed.post";

/// A reference to a Bluesky post: a repository (DID or handle) and a record key.
#[derive(Debug, Clone, PartialEq, Eq, Hash)]
pub struct PostRef {
    /// The repository owner: a DID or a handle.
    pub repo: String,
    /// The record key within the post collection.
    pub rkey: String,
}

/// Error returned when a string is neither an AT URI nor a bsky.app post URL.
#[derive(Debug, Clone, PartialEq, Eq)]
pub struct ParseError(pub String);

/// The three path segments of a generic AT URI.
#[derive(Debug, Clone, Copy, PartialEq, Eq)]
pub struct AtUriParts<'a> {
    /// The repository: a DID or a handle.
    pub authority: &'a str,
    /// The collection NSID.
    pub collection: &'a str,
    /// The record key.
    pub rkey: &'a str,
}

/// An ASCII letter or digit.
pub open spec fn is_alnum(c: char) -> bool {
    ('0' <= c && c <= '9') || ('a' <= c && c <= 'z') || ('A' <= c && c <= 'Z')
}

/// A record key: non-empty and made of ASCII letters and digits only.
pub open spec fn spec_is_rkey(s: Seq<char>) -> bool {
    s.len() > 0 && forall|i: int| 0 <= i < s.len() ==> is_alnum(#[trigger] s[i])
}

/// The segments of `at://authority/collection/rkey`, when the input has
/// exactly those three non-empty segments.
pub open spec fn spec_split_at_uri(u: Seq<char>) -> Option<(Seq<char>, Seq<char>, Seq<char>)> {
    if has_prefix(u, "at://"@) {
        let parts = split_seq(u.skip("at://"@.len() as int), '/');
        if parts.len() == 3 && parts[0].len() > 0 && parts[1].len() > 0 && parts[2].len() > 0 {
            Some((parts[0], parts[1], parts[2]))
        } else {
            None
        }
    } else {
        None
    }
}

/// The repository and record key named by a post AT URI.
pub open spec fn spec_parse_at_uri(u: Seq<char>) -> Option<(Seq<char>, Seq<char>)> {
    match spec_split_at_uri(u) {
        Some((a, c, r)) => if c == POST_COLLECTION@ && spec_is_rkey(r) {
            Some((a, r))
        } else {
            None
        },
        None => None,
    }
}

/// What follows the scheme of an `https://` or `http://` URL.
pub open spec fn after_scheme(u: Seq<char>) -> Option<Seq<char>> {
    if has_prefix(u, "https://"@) {
        Some(u.skip("https://"@.len() as int))
    } else if has_prefix(u, "http://"@) {
        Some(u.skip("http://"@.len() as int))
    } else {
        None
    }
}

/// The handle and record key named by a `bsky.app/profile/<handle>/post/<rkey>` URL.
pub open spec fn spec_parse_bsky_url(u: Seq<char>) -> Option<(Seq<char>, Seq<char>)> {
    match after_scheme(u) {
        Some(rest) => if has_prefix(rest, "bsky.app/profile/"@) {
            let parts = split_seq(rest.skip("bsky.app/profile/"@.len() as int), '/');
            if parts.len() == 3 && parts[0].len() > 0 && parts[1] == "post"@ && spec_is_rkey(
                parts[2],
            ) {
                Some((parts[0], parts[2]))
            } else {
                None
            }
        } else {
            None
        },
        None => None,
    }
}

/// The repository and record key that `PostRef::parse` extracts, if any.
pub open spec fn spec_parse_post_ref(input: Seq<char>) -> Option<(Seq<char>, Seq<char>)> {
    let t = trimmed(input);
    match spec_parse_at_uri(t) {
        Some(p) => Some(p),
        None => spec_parse_bsky_url(t),
    }
}

/// The canonical AT URI of a post.
pub open spec fn spec_at_uri(repo: Seq<char>, rkey: Seq<char>) -> Seq<char> {
    "at://"@ + repo + "/"@ + POST_COLLECTION@ + "/"@ + rkey
}

/// The final `/`-separated segment of a string.
pub open spec fn spec_rkey_of(uri: Seq<char>) -> Seq<char> {
    split_seq(uri, '/').last()
}

/// What `post_uri_from_link` gives for a link.
pub open spec fn spec_post_uri_from_link(url: Seq<char>) -> Option<Seq<char>> {
    if spec_is_post_uri(url) {
        Some(url)
    } else {
        match spec_parse_post_ref(url) {
            Some((repo, rkey)) => Some(spec_at_uri(repo, rkey)),
            None => None,
        }
    }
}

/// Whether an AT URI names a post record.
pub open spec fn spec_is_post_uri(uri: Seq<char>) -> bool {
    match spec_split_at_uri(uri) {
        Some((a, c, r)) => c == POST_COLLECTION@,
        None => false,
    }
}

/// Parsing the AT URI of a post gives back its repository and record key,
/// for a non-empty repository without `/` and a valid record key.
pub proof fn lemma_at_uri_roundtrip(repo: Seq<char>, rkey: Seq<char>)
    requires
        repo.len() > 0,
        !has_char(repo, '/'),
        spec_is_rkey(rkey),
    ensures
        spec_parse_post_ref(spec_at_uri(repo, rkey)) == Some((repo, rkey)),
{
    reveal_strlit("at://");
    reveal_strlit("/");
    reveal_strlit("app.bsky.feed.post");
    let coll = POST_COLLECTION@;
    let u = spec_at_uri(repo, rkey);
    let body = repo + "/"@ + coll + "/"@ + rkey;
    assert(u =~= "at://"@ + body);
    assert(!crate::strings::is_white(u[0]));
    crate::strings::lemma_lead_ws(u, 0);
    assert(u.skip(0) =~= u);
    assert(u[u.len() - 1] == rkey[rkey.len() - 1]);
    assert(is_alnum(rkey[rkey.len() - 1]));
    crate::strings::lemma_trail_ws(u, 0);
    assert(u.take(u.len() as int) =~= u);
    assert(trimmed(u) == u);
    assert(has_prefix(u, "at://"@)) by {
        assert(u.subrange(0, 5) =~= "at://"@);
    }
    assert(u.skip("at://"@.len() as int) =~= body);
    assert(!has_char(coll, '/')) by {
        assert forall|i: int| 0 <= i < coll.len() implies coll[i] != '/' by {}
    }
    assert(!has_char(rkey, '/')) by {
        assert forall|i: int| 0 <= i < rkey.len() implies rkey[i] != '/' by {
            assert(is_alnum(rkey[i]));
        }
    }
    lemma_split_none(repo, '/');
    lemma_split_none(coll, '/');
    lemma_split_none(rkey, '/');
    lemma_split_concat(coll, '/', rkey);
    assert(coll.push('/') + rkey =~= coll + "/"@ + rkey);
    lemma_split_concat(repo, '/', coll + "/"@ + rkey);
    assert(repo.push('/') + (coll + "/"@ + rkey) =~= body);
    let parts = split_seq(body, '/');
    assert(parts =~= seq![repo, coll, rkey]);
}

/// The message `{:?}`-formatting a string produces: quoted and escaped.
pub uninterp spec fn debug_quoted(s: Seq<char>) -> Seq<char>;

/// Quotes and escapes a string the way `{:?}` does.
///
/// Calls `format!("{:?}", s)`; the contract names the result and claims
/// only that it is a function of the text.
#[verifier::external_body]
pub(crate) fn debug_quote(s: &str) -> (r: String)
    ensures
        r@ == debug_quoted(s@),
{
    format!("{:?}", s)
}

impl ParseError {
    /// The error message: `cannot parse as Bluesky post reference: "<input>"`.
    pub fn message(&self) -> (r: String)
        ensures
            r@ == "cannot parse as Bluesky post reference: "@ + debug_quoted(self.0@),
    {
        let q = debug_quote(self.0.as_str());
        concat2("cannot parse as Bluesky post reference: ", q.as_str())
    }
}

/// Whether a character is an ASCII letter or digit.
pub fn is_alnum_exec(c: char) -> (r: bool)
    ensures
        r == is_alnum(c),
{
    ('0' <= c && c <= '9') || ('a' <= c && c <= 'z') || ('A' <= c && c <= 'Z')
}

/// Whether a string is a valid record key.
pub fn is_rkey(s: &str) -> (r: bool)
    ensures
        r == spec_is_rkey(s@),
{
    let n = s.unicode_len();
    if n == 0 {
        return false;
    }
    let mut i: usize = 0;
    while i < n
        invariant
            n == s@.len(),
            i <= n,
            forall|k: int| 0 <= k < i ==> is_alnum(#[trigger] s@[k]),
        decreases n - i,
    {
        if !is_alnum_exec(s.get_char(i)) {
            return false;
        }
        i += 1;
    }
    true
}

/// Splits `at://authority/collection/rkey` into its parts.
///
/// Returns `None` unless the input has exactly those three non-empty segments.
pub fn split_at_uri(uri: &str) -> (r: Option<AtUriParts<'_>>)
    ensures
        match spec_split_at_uri(uri@) {
            Some((a, c, k)) => r matches Some(p) && p.authority@ == a && p.collection@ == c
                && p.rkey@ == k,
            None => r is None,
        },
{
    let rest = match strip_prefix(uri, "at://") {
        Some(rest) => rest,
        None => return None,
    };
    let (authority, r1) = match split_first(rest, '/') {
        Some(p) => p,
        None => return None,
    };
    let (collection, r2) = match split_first(r1, '/') {
        Some(p) => p,
        None => return None,
    };
    if has_char_exec(r2, '/') {
        proof {
            lemma_split_len_has(r2@, '/');
        }
        return None;
    }
    proof {
        lemma_split_none(r2@, '/');
    }
    if authority.unicode_len() == 0 || collection.unicode_len() == 0 || r2.unicode_len() == 0 {
        return None;
    }
    Some(AtUriParts { authority, collection, rkey: r2 })
}

/// A string holding the separator splits into at least two pieces.
pub proof fn lemma_split_len_has(s: Seq<char>, c: char)
    requires
        has_char(s, c),
    ensures
        split_seq(s, c).len() >= 2,
{
    let i = choose|i: int| 0 <= i < s.len() && s[i] == c;
    let a = s.subrange(0, i);
    let b = s.subrange(i + 1, s.len() as int);
    assert(s =~= a.push(c) + b);
    lemma_split_concat(a, c, b);
    lemma_split_nonempty(a, c);
    lemma_split_nonempty(b, c);
}

fn parse_at_uri(input: &str) -> (r: Option<PostRef>)
    ensures
        match spec_parse_at_uri(input@) {
            Some((repo, rkey)) => r matches Some(p) && p.repo@ == repo && p.rkey@ == rkey,
            None => r is None,
        },
{
    let parts = match split_at_uri(input) {
        Some(p) => p,
        None => return None,
    };
    if !str_eq(parts.collection, POST_COLLECTION) || !is_rkey(parts.rkey) {
        return None;
    }
    Some(PostRef { repo: to_owned(parts.authority), rkey: to_owned(parts.rkey) })
}

fn parse_bsky_url(input: &str) -> (r: Option<PostRef>)
    ensures
        match spec_parse_bsky_url(input@) {
            Some((repo, rkey)) => r matches Some(p) && p.repo@ == repo && p.rkey@ == rkey,
            None => r is None,
        },
{
    let rest = match strip_prefix(input, "https://") {
        Some(r) => r,
        None => match strip_prefix(input, "http://") {
            Some(r) => r,
            None => return None,
        },
    };
    let rest = match strip_prefix(rest, "bsky.app/profile/") {
        Some(r) => r,
        None => return None,
    };
    let (handle, r1) = match split_first(rest, '/') {
        Some(p) => p,
        None => return None,
    };
    let (post, r2) = match split_first(r1, '/') {
        Some(p) => p,
        None => return None,
    };
    if has_char_exec(r2, '/') {
        proof {
            lemma_split_len_has(r2@, '/');
        }
        return None;
    }
    proof {
        lemma_split_none(r2@, '/');
    }
    if handle.unicode_len() == 0 || !str_eq(post, "post") || !is_rkey(r2) {
        return None;
    }
    Some(PostRef { repo: to_owned(handle), rkey: to_owned(r2) })
}

impl PostRef {
    /// Parses an AT URI or a bsky.app post URL; surrounding whitespace is ignored.
    ///
    /// Fails with the trimmed input when it matches neither form.
    pub fn parse(input: &str) -> (r: Result<PostRef, ParseError>)
        ensures
            match spec_parse_post_ref(input@) {
                Some((repo, rkey)) => r matches Ok(p) && p.repo@ == repo && p.rkey@ == rkey,
                None => r matches Err(e) && e.0@ == trimmed(input@),
            },
    {
        let input = trim(input);
        match parse_at_uri(input) {
            Some(p) => Ok(p),
            None => match parse_bsky_url(input) {
                Some(p) => Ok(p),
                None => Err(ParseError(to_owned(input))),
            },
        }
    }

    /// Returns the canonical AT URI for this post.
    pub fn at_uri(&self) -> (r: String)
        ensures
            r@ == spec_at_uri(self.repo@, self.rkey@),
    {
        let mut s = String::from_str("at://");
        s.append(self.repo.as_str());
        s.append("/");
        s.append(POST_COLLECTION);
        s.append("/");
        s.append(self.rkey.as_str());
        s
    }

    /// The text form of a post reference: its canonical AT URI.
    pub fn display(&self) -> (r: String)
        ensures
            r@ == spec_at_uri(self.repo@, self.rkey@),
    {
        self.at_uri()
    }
}

impl core::str::FromStr for PostRef {
    type Err = ParseError;

    fn from_str(s: &str) -> (r: Result<PostRef, ParseError>)
        ensures
            match spec_parse_post_ref(s@) {
                Some((repo, rkey)) => r matches Ok(p) && p.repo@ == repo && p.rkey@ == rkey,
                None => r matches Err(e) && e.0@ == trimmed(s@),
            },
    {
        PostRef::parse(s)
    }
}

/// Returns whether an AT URI addresses a post record.
pub fn is_post_uri(uri: &str) -> (r: bool)
    ensures
        r == spec_is_post_uri(uri@),
{
    match split_at_uri(uri) {
        Some(parts) => str_eq(parts.collection, POST_COLLECTION),
        None => false,
    }
}

proof fn lemma_last_segment(s: Seq<char>, j: int)
    requires
        0 <= j <= s.len(),
        forall|k: int| j <= k < s.len() ==> s[k] != '/',
        j == 0 || s[j - 1] == '/',
    ensures
        split_seq(s, '/').last() == s.skip(j),
{
    if j == 0 {
        assert(!has_char(s, '/')) by {
            if has_char(s, '/') {
                let k = choose|k: int| 0 <= k < s.len() && s[k] == '/';
                assert(s[k] != '/');
            }
        }
        lemma_split_none(s, '/');
        assert(s.skip(0) =~= s);
    } else {
        let a = s.subrange(0, j - 1);
        let b = s.skip(j);
        assert(s =~= a.push('/') + b);
        assert(!has_char(b, '/')) by {
            if has_char(b, '/') {
                let k = choose|k: int| 0 <= k < b.len() && b[k] == '/';
                assert(s[j + k] == '/');
            }
        }
        lemma_split_concat(a, '/', b);
        lemma_split_none(b, '/');
    }
}

/// Returns the record key of an AT URI: its final `/`-separated segment.
pub fn rkey_of(uri: &str) -> (r: &str)
    ensures
        r@ == spec_rkey_of(uri@),
{
    let n = uri.unicode_len();
    let mut j: usize = n;
    while j > 0 && uri.get_char(j - 1) != '/'
        invariant
            n == uri@.len(),
            j <= n,
            forall|k: int| j <= k < n ==> uri@[k] != '/',
        decreases j,
    {
        j -= 1;
    }
    proof {
        lemma_last_segment(uri@, j as int);
    }
    let r = uri.substring_char(j, n);
    assert(r@ =~= uri@.skip(j as int));
    r
}

/// Interprets a link as a reference to a post, if it is one.
///
/// Accepts post AT URIs (exactly three non-empty segments, the post
/// collection), returned as given, and bsky.app post URLs, returned as the
/// post's AT URI; anything else yields `None`.
pub fn post_uri_from_link(url: &str) -> (r: Option<String>)
    ensures
        match spec_post_uri_from_link(url@) {
            Some(u) => r matches Some(s) && s@ == u,
            None => r is None,
        },
{
    if is_post_uri(url) {
        return Some(to_owned(url));
    }
    match PostRef::parse(url) {
        Ok(p) => Some(p.at_uri()),
        Err(_) => None,
    }
}

} // verus!
