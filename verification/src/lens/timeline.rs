//! The `timeline` lens: posts inside a time window, oldest first.
use vstd::prelude::*;
use vstd::string::*;

use crate::lens::fmt::{
    collect_parts, context_text, dec, find_node, finish_lines, first_node, opt_part, ordered, post_block, posts_of,
    push_prefixed_lines, spec_context, spec_position, spec_text, strings_of,
};
use crate::lens::fmt::position_of;
use crate::lens::linear::{by_time, linear_head, time_ordered, times_of};
use crate::model::{opt_view, spec_nodes, ContextWeb, Post, PostModel};
use crate::strings::{seq_lt, spec_decimal, str_lt};
use crate::text::{author_name, short_time, spec_short_time, spec_thousands, thousands};

verus! {

/// A bound that is present and not empty.
pub open spec fn spec_bound(b: Option<Seq<char>>) -> Option<Seq<char>> {
    match b {
        Some(x) => if x.len() > 0 {
            Some(x)
        } else {
            None
        },
        None => None,
    }
}

/// A bound that is present and not empty.
fn non_empty_bound(bound: Option<&str>) -> (r: Option<&str>)
    ensures
        opt_str_view(r) == spec_bound(opt_str_view(bound)),
{
    match bound {
        Some(b) => if b.unicode_len() > 0 {
            Some(b)
        } else {
            None
        },
        None => None,
    }
}

/// The text of an optional borrowed string.
pub open spec fn opt_str_view(o: Option<&str>) -> Option<Seq<char>> {
    match o {
        Some(s) => Some(s@),
        None => None,
    }
}

/// Whether a creation time lies in the window: at or after `after`, and
/// strictly before `before`.
pub open spec fn in_window(t: Seq<char>, after: Option<Seq<char>>, before: Option<Seq<char>>) -> bool {
    &&& match after {
        Some(a) => !seq_lt(t, a),
        None => true,
    }
    &&& match before {
        Some(b) => seq_lt(t, b),
        None => true,
    }
}

/// The posts created inside the window, in their order.
pub open spec fn in_window_posts(posts: Seq<PostModel>, after: Option<Seq<char>>, before: Option<Seq<char>>) -> Seq<
    PostModel,
>
    decreases posts.len(),
{
    if posts.len() == 0 {
        Seq::empty()
    } else {
        let rest = in_window_posts(posts.drop_last(), after, before);
        if in_window(posts.last().created_at, after, before) {
            rest.push(posts.last())
        } else {
            rest
        }
    }
}

/// How the window is named in the heading.
pub open spec fn spec_window(after: Option<Seq<char>>, before: Option<Seq<char>>) -> Seq<char> {
    match (after, before) {
        (Some(a), Some(b)) => spec_short_time(a) + " to "@ + spec_short_time(b),
        (Some(a), None) => "after "@ + spec_short_time(a),
        (None, Some(b)) => "before "@ + spec_short_time(b),
        (None, None) => "all time"@,
    }
}

/// `"{verb} @{handle} #{n}"` for a post of the web, the number only when
/// it is shown; nothing for a post the web does not hold.
pub open spec fn spec_reference(nodes: Seq<PostModel>, shown: Seq<PostModel>, verb: Seq<char>, uri: Option<Seq<char>>) -> Option<
    Seq<char>,
> {
    match uri {
        None => None,
        Some(u) => match first_node(nodes, u) {
            None => None,
            Some(p) => Some(
                match spec_position(shown, u) {
                    Some(k) => verb + " @"@ + p.author.handle + " #"@ + spec_decimal(k),
                    None => verb + " @"@ + p.author.handle,
                },
            ),
        },
    }
}

/// `"{verb} @{handle} #{n}"`, without the number for a post outside the
/// window.
fn reference(nodes: &Vec<&Post>, shown: &Vec<&Post>, verb: &str, uri: Option<&String>) -> (r: Option<String>)
    ensures
        opt_view(r) == spec_reference(
            posts_of(nodes@),
            posts_of(shown@),
            verb@,
            match uri {
                Some(u) => Some(u@),
                None => None,
            },
        ),
{
    let uri = match uri {
        Some(u) => u,
        None => return None,
    };
    let post = match find_node(nodes, uri.as_str()) {
        Some(p) => p,
        None => return None,
    };
    let mut s = String::from_str(verb);
    s.append(" @");
    s.append(post.author.handle.as_str());
    if let Some(number) = position_of(shown, uri.as_str()) {
        s.append(" #");
        let n = dec(number);
        s.append(n.as_str());
    }
    Some(s)
}

/// The annotation of a shown post.
pub open spec fn timeline_context(nodes: Seq<PostModel>, shown: Seq<PostModel>, p: PostModel) -> Seq<char> {
    spec_context(
        opt_part(spec_reference(nodes, shown, "replying to"@, p.reply_parent)) + opt_part(
            spec_reference(nodes, shown, "quoting"@, p.embed_uri),
        ),
    )
}

/// The blocks of the first `n` shown posts.
pub open spec fn timeline_blocks(nodes: Seq<PostModel>, shown: Seq<PostModel>, n: nat) -> Seq<Seq<char>>
    decreases n,
{
    if n == 0 {
        Seq::empty()
    } else {
        let p = shown[n - 1];
        timeline_blocks(nodes, shown, (n - 1) as nat) + post_block(
            linear_head(n, shown.len(), p, timeline_context(nodes, shown, p)),
            p.text,
        )
    }
}

/// The lines of the timeline: a heading naming the window, the count of
/// posts shown out of all, a blank line, and a block per shown post.
pub open spec fn timeline_lines(
    nodes: Seq<PostModel>,
    shown: Seq<PostModel>,
    node_count: nat,
    after: Option<Seq<char>>,
    before: Option<Seq<char>>,
) -> Seq<Seq<char>> {
    seq![
        "=== TIMELINE ("@ + spec_window(after, before) + ") ==="@,
        "Posts: "@ + spec_thousands(shown.len()) + " of "@ + spec_thousands(node_count),
        Seq::<char>::empty(),
    ] + timeline_blocks(nodes, shown, shown.len())
}

/// Renders posts inside a time window, oldest first: created at or after
/// `after` and strictly before `before`, an empty bound counting as none.
pub(crate) fn render(web: &ContextWeb, after: Option<&str>, before: Option<&str>) -> (r: String)
    ensures
        ({
            let nodes = spec_nodes(web@.threads);
            let a = spec_bound(opt_str_view(after));
            let b = spec_bound(opt_str_view(before));
            exists|perm: Seq<usize>|
                #[trigger] time_ordered(nodes, perm) && r@ == spec_text(
                    timeline_lines(nodes, in_window_posts(ordered(nodes, perm), a, b), web@.index.len(), a, b),
                )
        }),
{
    let ghost a = spec_bound(opt_str_view(after));
    let ghost b = spec_bound(opt_str_view(before));
    let after = non_empty_bound(after);
    let before = non_empty_bound(before);
    let nodes = web.nodes();
    let ghost nv = spec_nodes(web@.threads);
    proof {
        assert(posts_of(nodes@) =~= nv);
        assert(times_of(nodes@) =~= nv.map_values(|p: PostModel| p.created_at));
    }
    let sorted = by_time(&nodes);
    let ghost perm = choose|perm: Seq<usize>|
        #[trigger] crate::lens::order::sorted_by_text(times_of(nodes@), perm) && forall|i: int|
            0 <= i < sorted@.len() ==> #[trigger] sorted@[i] == nodes@[perm[i] as int];
    let ghost order = ordered(nv, perm);
    proof {
        assert(posts_of(sorted@) =~= order);
    }
    let mut posts: Vec<&Post> = Vec::new();
    let ns = sorted.len();
    let mut i: usize = 0;
    while i < ns
        invariant
            ns == sorted@.len(),
            i <= ns,
            order == posts_of(sorted@),
            opt_str_view(after) == a,
            opt_str_view(before) == b,
            posts_of(posts@) == in_window_posts(order.take(i as int), a, b),
        decreases ns - i,
    {
        let p = sorted[i];
        let t = p.created_at.as_str();
        let keep_after = match after {
            Some(x) => !str_lt(t, x),
            None => true,
        };
        let keep_before = match before {
            Some(x) => str_lt(t, x),
            None => true,
        };
        let ghost prev = posts@;
        if keep_after && keep_before {
            posts.push(p);
        }
        proof {
            let tk = order.take(i + 1);
            assert(tk.drop_last() =~= order.take(i as int));
            assert(tk.last() == p@);
            assert(posts_of(posts@) =~= in_window_posts(tk, a, b));
        }
        i += 1;
    }
    let ghost shown = posts_of(posts@);
    proof {
        assert(order.take(ns as int) =~= order);
    }
    let total = posts.len();
    let window = match (after, before) {
        (Some(x), Some(y)) => {
            let mut w = short_time(x);
            w.append(" to ");
            let bs = short_time(y);
            w.append(bs.as_str());
            w
        },
        (Some(x), None) => {
            let mut w = String::from_str("after ");
            let s = short_time(x);
            w.append(s.as_str());
            w
        },
        (None, Some(y)) => {
            let mut w = String::from_str("before ");
            let s = short_time(y);
            w.append(s.as_str());
            w
        },
        (None, None) => String::from_str("all time"),
    };
    let mut lines: Vec<String> = Vec::new();
    let mut head = String::from_str("=== TIMELINE (");
    head.append(window.as_str());
    head.append(") ===");
    lines.push(head);
    let mut counts = String::from_str("Posts: ");
    let shown_count = thousands(total);
    counts.append(shown_count.as_str());
    counts.append(" of ");
    let all = thousands(web.node_count());
    counts.append(all.as_str());
    lines.push(counts);
    lines.push(String::new());
    let ghost top = strings_of(lines@);
    proof {
        assert(top =~= seq![
            "=== TIMELINE ("@ + spec_window(a, b) + ") ==="@,
            "Posts: "@ + spec_thousands(shown.len()) + " of "@ + spec_thousands(web@.index.len()),
            Seq::<char>::empty(),
        ]);
    }
    let mut k: usize = 0;
    while k < total
        invariant
            total == posts@.len(),
            k <= total,
            nv == posts_of(nodes@),
            shown == posts_of(posts@),
            strings_of(lines@) == top + timeline_blocks(nv, shown, k as nat),
        decreases total - k,
    {
        let post = posts[k];
        let c1 = reference(&nodes, &posts, "replying to", post.reply_parent.as_ref());
        let c2 = reference(&nodes, &posts, "quoting", post.embed_uri.as_ref());
        let context = collect_parts(c1, c2);
        let ctx = context_text(&context);
        let mut l = String::from_str("[");
        let num = dec(k + 1);
        l.append(num.as_str());
        l.append("/");
        let tot = dec(total);
        l.append(tot.as_str());
        l.append("] ");
        let name = author_name(post);
        l.append(name.as_str());
        l.append("  ");
        let time = short_time(post.created_at.as_str());
        l.append(time.as_str());
        l.append(ctx.as_str());
        let ghost before_lines = strings_of(lines@);
        let ghost hv = l@;
        proof {
            assert(shown[k as int] == post@);
            assert(hv == linear_head((k + 1) as nat, total as nat, post@, timeline_context(nv, shown, post@)));
        }
        lines.push(l);
        proof {
            assert(strings_of(lines@) =~= before_lines.push(hv));
        }
        push_prefixed_lines(&mut lines, "  ", post.text.as_str());
        let ghost mid = strings_of(lines@);
        lines.push(String::new());
        proof {
            assert(strings_of(lines@) =~= mid.push(Seq::<char>::empty()));
            assert(timeline_blocks(nv, shown, (k + 1) as nat) == timeline_blocks(nv, shown, k as nat) + post_block(
                hv,
                post@.text,
            ));
            assert(strings_of(lines@) =~= top + timeline_blocks(nv, shown, (k + 1) as nat));
        }
        k += 1;
    }
    let r = finish_lines(&lines);
    proof {
        assert(time_ordered(nv, perm));
        assert(strings_of(lines@) =~= timeline_lines(nv, shown, web@.index.len(), a, b));
    }
    r
}

/// The timeline keeps exactly the posts created inside the window, each
/// as often as it occurs, in their order: it is a subsequence of what it
/// was given, and a post is in it exactly when it was given and its time
/// lies in the window.
pub proof fn lemma_in_window_posts_exact(posts: Seq<PostModel>, after: Option<Seq<char>>, before: Option<Seq<char>>)
    ensures
        in_window_posts(posts, after, before).len() <= posts.len(),
        forall|p: PostModel|
            #[trigger] in_window_posts(posts, after, before).contains(p) <==> (posts.contains(p) && in_window(
                p.created_at,
                after,
                before,
            )),
    decreases posts.len(),
{
    if posts.len() > 0 {
        let init = posts.drop_last();
        lemma_in_window_posts_exact(init, after, before);
        assert(posts =~= init.push(posts.last()));
        assert forall|p: PostModel| #[trigger] posts.contains(p) <==> (init.contains(p) || p == posts.last()) by {
            vstd::seq_lib::lemma_seq_contains_after_push(init, posts.last(), p);
        }
        assert forall|p: PostModel|
            #[trigger] in_window_posts(posts, after, before).contains(p) <==> (posts.contains(p) && in_window(
                p.created_at,
                after,
                before,
            )) by {
            vstd::seq_lib::lemma_seq_contains_after_push(in_window_posts(init, after, before), posts.last(), p);
        }
    }
}

/// An empty bound counts as none: a timeline given empty bounds renders
/// exactly as one given no bounds at all.
pub proof fn lemma_timeline_empty_bounds(
    web: &ContextWeb,
    after: Option<String>,
    before: Option<String>,
    out: Seq<char>,
)
    requires
        after matches Some(a) ==> a@.len() == 0,
        before matches Some(b) ==> b@.len() == 0,
    ensures
        crate::lens::lens_output(web, crate::lens::Lens::Timeline { after, before }, out)
            <==> crate::lens::lens_output(web, crate::lens::Lens::Timeline { after: None, before: None }, out),
{
    assert(spec_bound(opt_view(after)) == spec_bound(opt_view(None::<String>)));
    assert(spec_bound(opt_view(before)) == spec_bound(opt_view(None::<String>)));
}

} // verus!
