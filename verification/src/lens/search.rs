//! The `search` lens: posts filtered by text and author handle.
use vstd::prelude::*;
use vstd::string::*;

use crate::lens::fmt::{
    collect_parts, dec, find_node, finish_lines, first_node, opt_part, ordered, posts_of, spec_text, strings_of,
};
use crate::lens::linear::{by_time, time_ordered, times_of};
use crate::lens::timeline::{opt_str_view, spec_bound};
use crate::model::{opt_view, spec_engagement, spec_nodes, web_posts, ContextWeb, Post, PostModel, WebModel};
use crate::ordered_map::lookup;
use crate::strings::{contains_str, join, spec_decimal};
use crate::text::{
    author_name, counted, join_strings, short_time, spec_author_name, spec_counted, spec_short_time, spec_truncate,
    truncate,
};

verus! {

/// What `str::to_lowercase` gives for a string.
pub uninterp spec fn lowercased(s: Seq<char>) -> Seq<char>;

/// `str::to_lowercase`: the Unicode lowercase mapping of every character.
/// The contract names the result; Unicode case mapping is not restated.
#[verifier::external_body]
fn to_lower(s: &str) -> (r: String)
    ensures
        r@ == lowercased(s@),
{
    s.to_lowercase()
}

/// Whether a post matches the lowercased criteria.
pub open spec fn spec_matches(p: crate::model::PostModel, query: Option<Seq<char>>, author: Option<Seq<char>>) -> bool {
    (match query {
        Some(q) => crate::strings::contains_seq(lowercased(p.text), q),
        None => true,
    }) && (match author {
        Some(a) => crate::strings::contains_seq(lowercased(p.author.handle), a),
        None => true,
    })
}

/// Whether a post matches the lowercased criteria.
fn post_matches(post: &Post, query: &Option<String>, author: &Option<String>) -> (r: bool)
    ensures
        r == spec_matches(post@, crate::model::opt_view(*query), crate::model::opt_view(*author)),
{
    let text_ok = match query {
        Some(q) => {
            let t = to_lower(post.text.as_str());
            contains_str(t.as_str(), q.as_str())
        },
        None => true,
    };
    let author_ok = match author {
        Some(a) => {
            let h = to_lower(post.author.handle.as_str());
            contains_str(h.as_str(), a.as_str())
        },
        None => true,
    };
    text_ok && author_ok
}

/// `"{prefix}{handle}"` for the node with URI `uri`, if there is one.
pub open spec fn spec_handle_ref(nodes: Seq<PostModel>, prefix: Seq<char>, uri: Option<Seq<char>>) -> Option<Seq<char>> {
    match uri {
        Some(u) => match first_node(nodes, u) {
            Some(p) => Some(prefix + p.author.handle),
            None => None,
        },
        None => None,
    }
}

/// `"{prefix}{handle}"` for the node with URI `uri`, if there is one.
fn handle_ref(nodes: &Vec<&Post>, prefix: &str, uri: Option<&String>) -> (r: Option<String>)
    ensures
        opt_view(r) == spec_handle_ref(
            posts_of(nodes@),
            prefix@,
            match uri {
                Some(u) => Some(u@),
                None => None,
            },
        ),
{
    match uri {
        Some(u) => match find_node(nodes, u.as_str()) {
            Some(p) => {
                let mut c = String::from_str(prefix);
                c.append(p.author.handle.as_str());
                Some(c)
            },
            None => None,
        },
        None => None,
    }
}

/// The posts among `posts` matching the criteria, in their order.
pub open spec fn matching(posts: Seq<PostModel>, query: Option<Seq<char>>, author: Option<Seq<char>>) -> Seq<PostModel>
    decreases posts.len(),
{
    if posts.len() == 0 {
        Seq::empty()
    } else {
        let rest = matching(posts.drop_last(), query, author);
        if spec_matches(posts.last(), query, author) {
            rest.push(posts.last())
        } else {
            rest
        }
    }
}

/// The lowercased form of an optional criterion.
pub open spec fn lowered(o: Option<Seq<char>>) -> Option<Seq<char>> {
    match o {
        Some(s) => Some(lowercased(s)),
        None => None,
    }
}

/// The description of the criteria in use.
pub open spec fn spec_filters(query: Option<Seq<char>>, author: Option<Seq<char>>) -> Seq<Seq<char>> {
    opt_part(
        match query {
            Some(q) => Some("query: \""@ + q + "\""@),
            None => None,
        },
    ) + opt_part(
        match author {
            Some(a) => Some("author: "@ + a),
            None => None,
        },
    )
}

/// The root of the thread holding `uri`, or `None` as text.
pub open spec fn root_text(w: WebModel, uri: Seq<char>) -> Seq<char> {
    match lookup(w.index, uri) {
        Some(r) => r,
        None => "None"@,
    }
}

/// The number of posts in the thread with root `root`.
pub open spec fn thread_size(w: WebModel, root: Seq<char>) -> nat {
    match lookup(w.threads, root) {
        Some(t) => t.posts.len(),
        None => 0,
    }
}

/// The block of the `k`-th result.
pub open spec fn result_block(w: WebModel, nodes: Seq<PostModel>, k: nat, p: PostModel) -> Seq<Seq<char>> {
    let root = root_text(w, p.uri);
    let ctx = opt_part(spec_handle_ref(nodes, "replying to @"@, p.reply_parent)) + opt_part(
        spec_handle_ref(nodes, "quoting @"@, p.embed_uri),
    );
    seq![
        "["@ + spec_decimal(k) + "] "@ + spec_author_name(p.author) + "  "@ + spec_short_time(p.created_at),
        "    Thread: "@ + root + " ("@ + spec_counted(thread_size(w, root), "post"@, "posts"@) + ")"@,
    ] + (if ctx.len() > 0 {
        seq!["    ["@ + join(ctx, ", "@) + "]"@]
    } else {
        Seq::empty()
    }) + seq!["    "@ + spec_truncate(p.text, 120)] + (if spec_engagement(p) > 0 {
        seq![
            "    ("@ + spec_counted(p.like_count as nat, "like"@, "likes"@) + ", "@ + spec_counted(
                p.repost_count as nat,
                "repost"@,
                "reposts"@,
            ) + ", "@ + spec_counted(p.quote_count as nat, "quote"@, "quotes"@) + ")"@,
        ]
    } else {
        Seq::empty()
    }) + seq![Seq::<char>::empty()]
}

/// The blocks of the first `n` results.
pub open spec fn result_blocks(w: WebModel, nodes: Seq<PostModel>, found: Seq<PostModel>, n: nat) -> Seq<Seq<char>>
    decreases n,
{
    if n == 0 {
        Seq::empty()
    } else {
        result_blocks(w, nodes, found, (n - 1) as nat) + result_block(w, nodes, n, found[n - 1])
    }
}

/// The lines of a search: a heading, the criteria and counts, a blank line,
/// and a block per result.
pub open spec fn search_lines(
    w: WebModel,
    nodes: Seq<PostModel>,
    found: Seq<PostModel>,
    query: Option<Seq<char>>,
    author: Option<Seq<char>>,
) -> Seq<Seq<char>> {
    seq![
        "=== SEARCH RESULTS ==="@,
        join(spec_filters(query, author), " | "@) + " | "@ + spec_counted(found.len(), "match"@, "matches"@) + " in "@
            + spec_counted(w.index.len(), "post"@, "posts"@),
        Seq::<char>::empty(),
    ] + result_blocks(w, nodes, found, found.len())
}

/// Appends the block of the `number`-th result.
fn push_result(lines: &mut Vec<String>, web: &ContextWeb, nodes: &Vec<&Post>, number: usize, post: &Post)
    ensures
        strings_of(final(lines)@) == strings_of(old(lines)@) + result_block(web@, posts_of(nodes@), number as nat, post@),
{
    let ghost nv = posts_of(nodes@);
    let ghost start = strings_of(lines@);
    let mut l = String::from_str("[");
    let num = dec(number);
    l.append(num.as_str());
    l.append("] ");
    let name = author_name(post);
    l.append(name.as_str());
    l.append("  ");
    let time = short_time(post.created_at.as_str());
    l.append(time.as_str());
    let ghost l1 = l@;
    lines.push(l);
    let thread_root: &str = match web.thread_root_for(post.uri.as_str()) {
        Some(root) => root,
        None => "None",
    };
    let thread_size_n: usize = match web.thread(thread_root) {
        Some(t) => t.post_count(),
        None => 0,
    };
    let mut tl = String::from_str("    Thread: ");
    tl.append(thread_root);
    tl.append(" (");
    let size = counted(thread_size_n as u64, "post", "posts");
    tl.append(size.as_str());
    tl.append(")");
    let ghost l2 = tl@;
    proof {
        assert(thread_root@ == root_text(web@, post@.uri));
        assert(thread_size_n == thread_size(web@, thread_root@));
    }
    lines.push(tl);
    let ghost s2 = strings_of(lines@);
    proof {
        assert(s2 =~= start + seq![l1, l2]);
    }
    let c1 = handle_ref(&nodes, "replying to @", post.reply_parent.as_ref());
    let c2 = handle_ref(&nodes, "quoting @", post.embed_uri.as_ref());
    let context = collect_parts(c1, c2);
    let ghost ctx = strings_of(context@);
    if context.len() > 0 {
        let mut cl = String::from_str("    [");
        let joined = join_strings(&context, ", ");
        cl.append(joined.as_str());
        cl.append("]");
        lines.push(cl);
    }
    let ghost s3 = strings_of(lines@);
    proof {
        assert(s3 =~= s2 + (if ctx.len() > 0 {
            seq!["    ["@ + join(ctx, ", "@) + "]"@]
        } else {
            Seq::<Seq<char>>::empty()
        }));
    }
    let mut body = String::from_str("    ");
    let text = truncate(post.text.as_str(), 120);
    body.append(text.as_str());
    lines.push(body);
    let ghost s4 = strings_of(lines@);
    proof {
        assert(s4 =~= s3.push("    "@ + spec_truncate(post@.text, 120)));
    }
    if post.engagement_wide() > 0 {
        let mut el = String::from_str("    (");
        let likes = counted(post.like_count as u64, "like", "likes");
        el.append(likes.as_str());
        el.append(", ");
        let reposts = counted(post.repost_count as u64, "repost", "reposts");
        el.append(reposts.as_str());
        el.append(", ");
        let quotes = counted(post.quote_count as u64, "quote", "quotes");
        el.append(quotes.as_str());
        el.append(")");
        lines.push(el);
    }
    let ghost s5 = strings_of(lines@);
    proof {
        assert(s5 =~= s4 + (if spec_engagement(post@) > 0 {
            seq![
                "    ("@ + spec_counted(post@.like_count as nat, "like"@, "likes"@) + ", "@ + spec_counted(
                    post@.repost_count as nat,
                    "repost"@,
                    "reposts"@,
                ) + ", "@ + spec_counted(post@.quote_count as nat, "quote"@, "quotes"@) + ")"@,
            ]
        } else {
            Seq::<Seq<char>>::empty()
        }));
    }
    lines.push(String::new());
    proof {
        assert(strings_of(lines@) =~= s5.push(Seq::<char>::empty()));
        assert(strings_of(lines@) =~= start + result_block(web@, nv, number as nat, post@));
    }
}

/// Filters posts by a case-insensitive text query and/or author handle
/// substring, oldest first; with neither criterion, explains itself.
pub(crate) fn render(web: &ContextWeb, query: Option<&str>, author: Option<&str>) -> (r: String)
    ensures
        ({
            let q = spec_bound(opt_str_view(query));
            let a = spec_bound(opt_str_view(author));
            let all = web_posts(web@.threads);
            if q is None && a is None {
                r@ == "No search criteria provided. Use --query and/or --author."@
            } else {
                exists|perm: Seq<usize>|
                    #[trigger] time_ordered(all, perm) && r@ == spec_text(
                        search_lines(
                            web@,
                            spec_nodes(web@.threads),
                            matching(ordered(all, perm), lowered(q), lowered(a)),
                            q,
                            a,
                        ),
                    )
            }
        }),
{
    let ghost q0 = spec_bound(opt_str_view(query));
    let ghost a0 = spec_bound(opt_str_view(author));
    let query = match query {
        Some(q) => if q.unicode_len() > 0 {
            Some(q)
        } else {
            None
        },
        None => None,
    };
    let author = match author {
        Some(a) => if a.unicode_len() > 0 {
            Some(a)
        } else {
            None
        },
        None => None,
    };
    proof {
        assert(opt_str_view(query) == q0);
        assert(opt_str_view(author) == a0);
    }
    if query.is_none() && author.is_none() {
        return String::from_str("No search criteria provided. Use --query and/or --author.");
    }
    let query_lower: Option<String> = match query {
        Some(q) => Some(to_lower(q)),
        None => None,
    };
    let author_lower: Option<String> = match author {
        Some(a) => Some(to_lower(a)),
        None => None,
    };
    proof {
        assert(opt_view(query_lower) == lowered(q0));
        assert(opt_view(author_lower) == lowered(a0));
    }
    let nodes = web.nodes();
    let ghost nv = spec_nodes(web@.threads);
    let all = web.iter_posts();
    let ghost av = web_posts(web@.threads);
    proof {
        assert(posts_of(nodes@) =~= nv);
        assert(posts_of(all@) =~= av);
        assert(times_of(all@) =~= av.map_values(|p: PostModel| p.created_at));
    }
    let sorted = by_time(&all);
    let ghost perm = choose|perm: Seq<usize>|
        #[trigger] crate::lens::order::sorted_by_text(times_of(all@), perm) && forall|i: int|
            0 <= i < sorted@.len() ==> #[trigger] sorted@[i] == all@[perm[i] as int];
    let ghost order = ordered(av, perm);
    proof {
        assert(posts_of(sorted@) =~= order);
    }
    let mut matches: Vec<&Post> = Vec::new();
    let ns = sorted.len();
    let mut i: usize = 0;
    while i < ns
        invariant
            ns == sorted@.len(),
            i <= ns,
            order == posts_of(sorted@),
            opt_view(query_lower) == lowered(q0),
            opt_view(author_lower) == lowered(a0),
            posts_of(matches@) == matching(order.take(i as int), lowered(q0), lowered(a0)),
        decreases ns - i,
    {
        let ghost prev = matches@;
        if post_matches(sorted[i], &query_lower, &author_lower) {
            matches.push(sorted[i]);
        }
        proof {
            let tk = order.take(i + 1);
            assert(tk.drop_last() =~= order.take(i as int));
            assert(tk.last() == sorted@[i as int]@);
            assert(posts_of(matches@) =~= matching(tk, lowered(q0), lowered(a0)));
        }
        i += 1;
    }
    let ghost found = posts_of(matches@);
    proof {
        assert(order.take(ns as int) =~= order);
    }
    let mut filters: Vec<String> = Vec::new();
    if let Some(q) = query {
        let mut f = String::from_str("query: \"");
        f.append(q);
        f.append("\"");
        filters.push(f);
    }
    if let Some(a) = author {
        let mut f = String::from_str("author: ");
        f.append(a);
        filters.push(f);
    }
    proof {
        assert(strings_of(filters@) =~= spec_filters(q0, a0));
    }
    let mut lines: Vec<String> = Vec::new();
    lines.push(String::from_str("=== SEARCH RESULTS ==="));
    let mut summary = join_strings(&filters, " | ");
    summary.append(" | ");
    let m = counted(matches.len() as u64, "match", "matches");
    summary.append(m.as_str());
    summary.append(" in ");
    let p = counted(web.node_count() as u64, "post", "posts");
    summary.append(p.as_str());
    lines.push(summary);
    lines.push(String::new());
    let ghost top = strings_of(lines@);
    proof {
        assert(top =~= seq![
            "=== SEARCH RESULTS ==="@,
            join(spec_filters(q0, a0), " | "@) + " | "@ + spec_counted(found.len(), "match"@, "matches"@) + " in "@
                + spec_counted(web@.index.len(), "post"@, "posts"@),
            Seq::<char>::empty(),
        ]);
    }
    let nm = matches.len();
    let mut k: usize = 0;
    while k < nm
        invariant
            nm == matches@.len(),
            k <= nm,
            nv == posts_of(nodes@),
            found == posts_of(matches@),
            strings_of(lines@) == top + result_blocks(web@, nv, found, k as nat),
        decreases nm - k,
    {
        let post = matches[k];
        let ghost before = strings_of(lines@);
        push_result(&mut lines, web, &nodes, k + 1, post);
        proof {
            assert(found[k as int] == post@);
            assert(result_blocks(web@, nv, found, (k + 1) as nat) == result_blocks(web@, nv, found, k as nat)
                + result_block(web@, nv, (k + 1) as nat, post@));
            assert(strings_of(lines@) =~= top + result_blocks(web@, nv, found, (k + 1) as nat));
        }
        k += 1;
    }
    let r = finish_lines(&lines);
    proof {
        assert(time_ordered(av, perm));
        assert(strings_of(lines@) =~= search_lines(web@, nv, found, q0, a0));
    }
    r
}

/// A search keeps exactly the posts that match its criteria, in their
/// order: a post is among the results exactly when it was given and it
/// matches.
pub proof fn lemma_matching_exact(posts: Seq<PostModel>, query: Option<Seq<char>>, author: Option<Seq<char>>)
    ensures
        matching(posts, query, author).len() <= posts.len(),
        forall|p: PostModel|
            #[trigger] matching(posts, query, author).contains(p) <==> (posts.contains(p) && spec_matches(
                p,
                query,
                author,
            )),
    decreases posts.len(),
{
    if posts.len() > 0 {
        let init = posts.drop_last();
        lemma_matching_exact(init, query, author);
        assert(posts =~= init.push(posts.last()));
        assert forall|p: PostModel| #[trigger] posts.contains(p) <==> (init.contains(p) || p == posts.last()) by {
            vstd::seq_lib::lemma_seq_contains_after_push(init, posts.last(), p);
        }
        assert forall|p: PostModel|
            #[trigger] matching(posts, query, author).contains(p) <==> (posts.contains(p) && spec_matches(
                p,
                query,
                author,
            )) by {
            vstd::seq_lib::lemma_seq_contains_after_push(matching(init, query, author), posts.last(), p);
        }
    }
}

} // verus!
