//! The `linear` lens: a chronological narrative.
use vstd::prelude::*;
use vstd::string::*;

use crate::lens::fmt::{
    collect_parts, context_text, dec, find_node, finish_lines, first_node, opt_part, ordered, position_of, post_block,
    posts_of, push_prefixed_lines, spec_context, spec_position, spec_text, strings_of,
};
use crate::lens::order::sort_by_text;
use crate::model::{opt_view, spec_nodes, ContextWeb, Post, PostModel};
use crate::strings::str_eq;
use crate::strings::spec_decimal;
use crate::text::{author_name, short_time, spec_author_name, spec_short_time};

verus! {

/// `"{verb} @{handle} #{n}"` for a post at position `n` of the listing,
/// `?` in place of the handle when no node has that URI; nothing for a
/// post outside the listing.
pub open spec fn spec_cross_reference(
    nodes: Seq<PostModel>,
    order: Seq<PostModel>,
    uri: Option<Seq<char>>,
    verb: Seq<char>,
) -> Option<Seq<char>> {
    match uri {
        None => None,
        Some(u) => match spec_position(order, u) {
            None => None,
            Some(k) => Some(
                verb + " "@ + (match first_node(nodes, u) {
                    Some(p) => "@"@ + p.author.handle,
                    None => "?"@,
                }) + " #"@ + spec_decimal(k),
            ),
        },
    }
}

/// `"{verb} @{handle} #{n}"` for a post that is part of the listing.
fn cross_reference(nodes: &Vec<&Post>, order: &Vec<&Post>, uri: Option<&String>, verb: &str) -> (r: Option<String>)
    ensures
        opt_view(r) == spec_cross_reference(
            posts_of(nodes@),
            posts_of(order@),
            match uri {
                Some(u) => Some(u@),
                None => None,
            },
            verb@,
        ),
{
    let uri = match uri {
        Some(u) => u,
        None => return None,
    };
    let index = match position_of(order, uri.as_str()) {
        Some(i) => i,
        None => return None,
    };
    let handle = match find_node(nodes, uri.as_str()) {
        Some(post) => {
            let mut h = String::from_str("@");
            h.append(post.author.handle.as_str());
            h
        },
        None => String::from_str("?"),
    };
    let mut s = String::from_str(verb);
    s.append(" ");
    s.append(handle.as_str());
    s.append(" #");
    let num = dec(index);
    s.append(num.as_str());
    Some(s)
}

/// The creation times of a list of posts.
pub open spec fn times_of(v: Seq<&Post>) -> Seq<Seq<char>> {
    v.map_values(|p: &Post| p@.created_at)
}

/// The posts of `nodes` in the stable order of their creation times.
pub fn by_time<'a>(nodes: &Vec<&'a Post>) -> (r: Vec<&'a Post>)
    ensures
        r@.len() == nodes@.len(),
        exists|perm: Seq<usize>|
            #[trigger] crate::lens::order::sorted_by_text(times_of(nodes@), perm)
                && forall|i: int| 0 <= i < r@.len() ==> #[trigger] r@[i] == nodes@[perm[i] as int],
{
    let mut keys: Vec<&str> = Vec::new();
    let n = nodes.len();
    let mut i: usize = 0;
    while i < n
        invariant
            n == nodes@.len(),
            i <= n,
            keys@.len() == i,
            forall|k: int| 0 <= k < i ==> (#[trigger] keys@[k])@ == nodes@[k]@.created_at,
        decreases n - i,
    {
        keys.push(nodes[i].created_at.as_str());
        i += 1;
    }
    proof {
        assert(keys@.map_values(|k: &str| k@) =~= times_of(nodes@));
    }
    let order = sort_by_text(&keys);
    let mut out: Vec<&'a Post> = Vec::new();
    let m = order.len();
    let mut k: usize = 0;
    while k < m
        invariant
            m == order@.len(),
            n == nodes@.len(),
            crate::lens::order::is_permutation(order@, n as nat),
            k <= m,
            out@.len() == k,
            forall|x: int| 0 <= x < k ==> #[trigger] out@[x] == nodes@[order@[x] as int],
        decreases m - k,
    {
        out.push(nodes[order[k]]);
        k += 1;
    }
    proof {
        assert(crate::lens::order::sorted_by_text(times_of(nodes@), order@));
    }
    out
}

/// The heading of the `k`-th of `total` posts in the narrative.
pub open spec fn linear_head(k: nat, total: nat, p: PostModel, context: Seq<char>) -> Seq<char> {
    "["@ + spec_decimal(k) + "/"@ + spec_decimal(total) + "] "@ + spec_author_name(p.author) + "  "@
        + spec_short_time(p.created_at) + context
}

/// The annotation of a post in the narrative: the positions of the posts
/// it replies to and quotes.
pub open spec fn linear_context(nodes: Seq<PostModel>, order: Seq<PostModel>, p: PostModel) -> Seq<char> {
    spec_context(
        opt_part(spec_cross_reference(nodes, order, p.reply_parent, "replying to"@)) + opt_part(
            spec_cross_reference(nodes, order, p.embed_uri, "quoting"@),
        ),
    )
}

/// The lines of the first `n` posts of the narrative.
pub open spec fn linear_lines(nodes: Seq<PostModel>, order: Seq<PostModel>, n: nat) -> Seq<Seq<char>>
    decreases n,
{
    if n == 0 {
        Seq::empty()
    } else {
        let p = order[n - 1];
        linear_lines(nodes, order, (n - 1) as nat) + post_block(
            linear_head(n, order.len(), p, linear_context(nodes, order, p)),
            p.text,
        )
    }
}

/// The posts in the stable order of their creation times, by `perm`.
pub open spec fn time_ordered(nodes: Seq<PostModel>, perm: Seq<usize>) -> bool {
    crate::lens::order::sorted_by_text(nodes.map_values(|p: PostModel| p.created_at), perm)
}

/// Renders a chronological narrative: every post numbered, annotated with
/// the positions of the posts it replies to and quotes.
pub(crate) fn render(web: &ContextWeb) -> (r: String)
    ensures
        ({
            let nodes = spec_nodes(web@.threads);
            exists|perm: Seq<usize>|
                #[trigger] time_ordered(nodes, perm) && r@ == spec_text(
                    linear_lines(nodes, ordered(nodes, perm), nodes.len()),
                )
        }),
{
    let nodes = web.nodes();
    let ghost nv = spec_nodes(web@.threads);
    proof {
        assert(posts_of(nodes@) =~= nv);
        assert(times_of(nodes@) =~= nv.map_values(|p: PostModel| p.created_at));
    }
    let posts = by_time(&nodes);
    let ghost perm = choose|perm: Seq<usize>|
        #[trigger] crate::lens::order::sorted_by_text(times_of(nodes@), perm) && forall|i: int|
            0 <= i < posts@.len() ==> #[trigger] posts@[i] == nodes@[perm[i] as int];
    let ghost order = ordered(nv, perm);
    proof {
        assert(posts_of(posts@) =~= order);
    }
    let total = posts.len();
    let mut lines: Vec<String> = Vec::new();
    let mut i: usize = 0;
    while i < total
        invariant
            total == posts@.len(),
            i <= total,
            nv == posts_of(nodes@),
            order == posts_of(posts@),
            order.len() == total,
            strings_of(lines@) == linear_lines(nv, order, i as nat),
        decreases total - i,
    {
        let post = posts[i];
        let c1 = cross_reference(&nodes, &posts, post.reply_parent.as_ref(), "replying to");
        let c2 = cross_reference(&nodes, &posts, post.embed_uri.as_ref(), "quoting");
        let context = collect_parts(c1, c2);
        let ctx = context_text(&context);
        let mut header = String::from_str("[");
        let num = dec(i + 1);
        header.append(num.as_str());
        header.append("/");
        let tot = dec(total);
        header.append(tot.as_str());
        header.append("] ");
        let name = author_name(post);
        header.append(name.as_str());
        header.append("  ");
        let time = short_time(post.created_at.as_str());
        header.append(time.as_str());
        header.append(ctx.as_str());
        let ghost before = strings_of(lines@);
        proof {
            assert(order[i as int] == post@);
            assert(header@ == linear_head((i + 1) as nat, total as nat, post@, linear_context(nv, order, post@)));
            assert(linear_lines(nv, order, (i + 1) as nat) == linear_lines(nv, order, i as nat) + post_block(header@, post@.text));
        }
        let ghost hv = header@;
        lines.push(header);
        proof {
            assert(strings_of(lines@) =~= before.push(hv));
        }
        push_prefixed_lines(&mut lines, "  ", post.text.as_str());
        let ghost mid = strings_of(lines@);
        lines.push(String::new());
        proof {
            assert(strings_of(lines@) =~= mid.push(Seq::<char>::empty()));
            assert(strings_of(lines@) =~= before + post_block(hv, post@.text));
        }
        i += 1;
    }
    let r = finish_lines(&lines);
    proof {
        assert(crate::lens::order::sorted_by_text(nv.map_values(|p: PostModel| p.created_at), perm));
        assert(time_ordered(nv, perm));
    }
    r
}

} // verus!
