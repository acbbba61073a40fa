//! Small text builders shared by the lenses.
use vstd::prelude::*;
use vstd::string::*;

use crate::model::{Post, PostModel};
use crate::strings::{decimal, join, spec_decimal, str_eq, trim_end, trimmed_end};
use crate::text::{join_strings, spec_lines, text_lines};

verus! {

/// `depth` levels of two-space indentation.
pub open spec fn spec_indent(depth: nat) -> Seq<char>
    decreases depth,
{
    if depth == 0 {
        Seq::<char>::empty()
    } else {
        spec_indent((depth - 1) as nat) + "  "@
    }
}

/// Two spaces per level of depth.
pub fn indent(depth: usize) -> (r: String)
    ensures
        r@ == spec_indent(depth as nat),
{
    let mut s = String::new();
    let mut i: usize = 0;
    while i < depth
        invariant
            i <= depth,
            s@ == spec_indent(i as nat),
        decreases depth - i,
    {
        s.append("  ");
        i += 1;
    }
    s
}

/// The lines joined by newlines, trailing whitespace removed.
pub open spec fn spec_text(lines: Seq<Seq<char>>) -> Seq<char> {
    trimmed_end(join(lines, "\n"@))
}

/// The views of a list of strings.
pub open spec fn strings_of(v: Seq<String>) -> Seq<Seq<char>> {
    v.map_values(|s: String| s@)
}

/// Joins lines with newlines and trims the end, as every lens finishes.
pub fn finish_lines(lines: &Vec<String>) -> (r: String)
    ensures
        r@ == spec_text(strings_of(lines@)),
{
    let joined = join_strings(lines, "\n");
    String::from_str(trim_end(joined.as_str()))
}

/// The decimal text of a count.
pub fn dec(n: usize) -> (r: String)
    ensures
        r@ == spec_decimal(n as nat),
{
    decimal(n as u64)
}

/// The first post with URI `uri`.
pub open spec fn first_node(nodes: Seq<PostModel>, uri: Seq<char>) -> Option<PostModel>
    decreases nodes.len(),
{
    if nodes.len() == 0 {
        None
    } else if nodes[0].uri == uri {
        Some(nodes[0])
    } else {
        first_node(nodes.drop_first(), uri)
    }
}

/// The views of a list of posts.
pub open spec fn posts_of(v: Seq<&Post>) -> Seq<PostModel> {
    v.map_values(|p: &Post| p@)
}

/// Looks a post up by URI among `nodes`.
pub fn find_node<'a>(nodes: &Vec<&'a Post>, uri: &str) -> (r: Option<&'a Post>)
    ensures
        match first_node(posts_of(nodes@), uri@) {
            Some(p) => r matches Some(x) && x@ == p,
            None => r is None,
        },
{
    let n = nodes.len();
    let mut i: usize = 0;
    proof {
        assert(posts_of(nodes@).skip(0) =~= posts_of(nodes@));
    }
    while i < n
        invariant
            n == nodes@.len(),
            i <= n,
            first_node(posts_of(nodes@), uri@) == first_node(posts_of(nodes@).skip(i as int), uri@),
        decreases n - i,
    {
        proof {
            assert(posts_of(nodes@).skip(i as int).drop_first() =~= posts_of(nodes@).skip(i + 1));
            assert(posts_of(nodes@).skip(i as int)[0] == nodes@[i as int]@);
        }
        if str_eq(nodes[i].uri.as_str(), uri) {
            return Some(nodes[i]);
        }
        i += 1;
    }
    proof {
        assert(posts_of(nodes@).skip(n as int).len() == 0);
    }
    None
}


/// A post found by URI is one of the nodes, with that URI.
pub proof fn lemma_first_node(nodes: Seq<PostModel>, uri: Seq<char>)
    ensures
        first_node(nodes, uri) matches Some(p) ==> p.uri == uri && nodes.map_values(|q: PostModel| q.uri).contains(uri),
    decreases nodes.len(),
{
    if nodes.len() > 0 {
        lemma_first_node(nodes.drop_first(), uri);
        let m = nodes.map_values(|q: PostModel| q.uri);
        if nodes[0].uri == uri {
            assert(m[0] == uri);
        } else if first_node(nodes.drop_first(), uri) is Some {
            let m2 = nodes.drop_first().map_values(|q: PostModel| q.uri);
            let k = choose|k: int| 0 <= k < m2.len() && m2[k] == uri;
            assert(m[k + 1] == m2[k]);
        }
    }
}

/// Every node is found by its own URI.
pub proof fn lemma_first_node_found(nodes: Seq<PostModel>, k: int)
    requires
        0 <= k < nodes.len(),
    ensures
        first_node(nodes, nodes[k].uri) is Some,
    decreases k,
{
    if k > 0 && nodes[0].uri != nodes[k].uri {
        lemma_first_node_found(nodes.drop_first(), k - 1);
        assert(nodes.drop_first()[k - 1] == nodes[k]);
    }
}

/// The 1-based position of the first post with URI `uri` in `posts`.
pub open spec fn spec_position(posts: Seq<PostModel>, uri: Seq<char>) -> Option<nat>
    decreases posts.len(),
{
    if posts.len() == 0 {
        None
    } else if posts[0].uri == uri {
        Some(1)
    } else {
        match spec_position(posts.drop_first(), uri) {
            Some(k) => Some(k + 1),
            None => None,
        }
    }
}

/// The 1-based position of the first post with URI `uri` in `posts`.
pub fn position_of(posts: &Vec<&Post>, uri: &str) -> (r: Option<usize>)
    ensures
        match r {
            Some(x) => spec_position(posts_of(posts@), uri@) == Some(x as nat) && 1 <= x <= posts@.len(),
            None => spec_position(posts_of(posts@), uri@) is None,
        },
{
    let ghost all = posts_of(posts@);
    let n = posts.len();
    let mut i: usize = 0;
    proof {
        assert(all.skip(0) =~= all);
        lemma_position_bound(all, uri@);
    }
    while i < n
        invariant
            n == posts@.len(),
            all == posts_of(posts@),
            i <= n,
            spec_position(all, uri@) == match spec_position(all.skip(i as int), uri@) {
                Some(k) => Some((k + i) as nat),
                None => None,
            },
            forall|k: nat| spec_position(all.skip(i as int), uri@) == Some(k) ==> 1 <= k <= n - i,
        decreases n - i,
    {
        proof {
            assert(all.skip(i as int).drop_first() =~= all.skip(i + 1));
            assert(all.skip(i as int)[0] == posts@[i as int]@);
            lemma_position_bound(all.skip(i + 1), uri@);
        }
        if str_eq(posts[i].uri.as_str(), uri) {
            return Some(i + 1);
        }
        i += 1;
    }
    proof {
        assert(all.skip(n as int).len() == 0);
    }
    None
}

/// A position found lies within the list.
pub proof fn lemma_position_bound(posts: Seq<PostModel>, uri: Seq<char>)
    ensures
        spec_position(posts, uri) matches Some(k) ==> 1 <= k <= posts.len(),
    decreases posts.len(),
{
    if posts.len() > 0 {
        lemma_position_bound(posts.drop_first(), uri);
    }
}

/// The part a present value contributes to a list.
pub open spec fn opt_part(o: Option<Seq<char>>) -> Seq<Seq<char>> {
    match o {
        Some(s) => seq![s],
        None => Seq::empty(),
    }
}

/// The bracketed annotation after a heading: nothing when there is no
/// part, else two spaces and the parts, comma separated, in brackets.
pub open spec fn spec_context(parts: Seq<Seq<char>>) -> Seq<char> {
    if parts.len() == 0 {
        Seq::empty()
    } else {
        "  ["@ + join(parts, ", "@) + "]"@
    }
}

/// Lines each indented by `prefix`.
pub open spec fn prefixed(prefix: Seq<char>, lines: Seq<Seq<char>>) -> Seq<Seq<char>> {
    lines.map_values(|l: Seq<char>| prefix + l)
}

/// A post's block in a narrative: its heading, its text lines indented by
/// two spaces, and a blank line.
pub open spec fn post_block(head: Seq<char>, text: Seq<char>) -> Seq<Seq<char>> {
    seq![head] + prefixed("  "@, spec_lines(text)) + seq![Seq::<char>::empty()]
}

/// The posts of `nodes` taken in the order `perm` lists them.
pub open spec fn ordered(nodes: Seq<PostModel>, perm: Seq<usize>) -> Seq<PostModel> {
    Seq::new(perm.len(), |i: int| nodes[perm[i] as int])
}

/// Collects the present parts of an annotation, in order.
pub fn collect_parts(a: Option<String>, b: Option<String>) -> (r: Vec<String>)
    ensures
        strings_of(r@) == opt_part(crate::model::opt_view(a)) + opt_part(crate::model::opt_view(b)),
{
    let mut parts: Vec<String> = Vec::new();
    if let Some(x) = a {
        parts.push(x);
    }
    if let Some(y) = b {
        parts.push(y);
    }
    assert(strings_of(parts@) =~= opt_part(crate::model::opt_view(a)) + opt_part(crate::model::opt_view(b)));
    parts
}

/// The bracketed annotation of the given parts.
pub fn context_text(parts: &Vec<String>) -> (r: String)
    ensures
        r@ == spec_context(strings_of(parts@)),
{
    if parts.len() == 0 {
        return String::new();
    }
    let mut s = String::from_str("  [");
    let joined = join_strings(parts, ", ");
    s.append(joined.as_str());
    s.append("]");
    s
}

/// Appends the lines of `text`, each after `prefix`.
pub fn push_prefixed_lines(lines: &mut Vec<String>, prefix: &str, text: &str)
    ensures
        strings_of(final(lines)@) == strings_of(old(lines)@) + prefixed(prefix@, spec_lines(text@)),
{
    let ghost start = strings_of(lines@);
    let ghost src = text@;
    let parts = text_lines(text);
    let nt = parts.len();
    let mut k: usize = 0;
    while k < nt
        invariant
            nt == parts@.len(),
            nt == spec_lines(src).len(),
            forall|i: int| 0 <= i < nt ==> #[trigger] parts@[i]@ == spec_lines(src)[i],
            k <= nt,
            strings_of(lines@) == start + prefixed(prefix@, spec_lines(src).take(k as int)),
        decreases nt - k,
    {
        let mut l = String::from_str(prefix);
        l.append(parts[k].as_str());
        let ghost before = lines@;
        lines.push(l);
        proof {
            assert(spec_lines(src).take(k + 1) =~= spec_lines(src).take(k as int).push(spec_lines(src)[k as int]));
            assert(strings_of(lines@) =~= strings_of(before).push(prefix@ + spec_lines(src)[k as int]));
            assert(prefixed(prefix@, spec_lines(src).take(k + 1)) =~= prefixed(prefix@, spec_lines(src).take(k as int)).push(prefix@ + spec_lines(src)[k as int]));
        }
        k += 1;
    }
    proof {
        assert(spec_lines(src).take(nt as int) =~= spec_lines(src));
    }
}

} // verus!
