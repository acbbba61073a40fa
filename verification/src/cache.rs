//! Keys and checks of the web cache.
use vstd::prelude::*;
use vstd::string::*;

use crate::model::ContextWeb;
use crate::route::spec_web_matches;
use crate::uri::PostRef;

verus! {

/// Cache key for a web reached through `post`: keyed by record key alone,
/// because the same post may be requested by handle or by DID; [`matches`]
/// guards against record keys shared across repositories.
pub fn key(post: &PostRef) -> (r: String)
    ensures
        r@ == "web:"@ + post.rkey@,
{
    crate::route::cache_key(post)
}

/// Returns whether a cached web is really about `post`: the root record key
/// matches, and the root post's author is the requested repository by
/// handle or by DID.
pub fn matches(web: &ContextWeb, post: &PostRef) -> (r: bool)
    ensures
        r == spec_web_matches(web, post.repo@, post.rkey@),
{
    crate::route::cached_web_matches(web, post)
}

} // verus!
