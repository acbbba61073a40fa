//! The `tree` lens: an indented threaded view.
use vstd::prelude::*;
use vstd::string::*;

use crate::lens::fmt::{find_node, finish_lines, indent, spec_indent, spec_text, strings_of};
use crate::lens::graph::{find_tree_root, spec_tree_root};
use crate::lens::order::sort_by_text;
use crate::model::{spec_nodes, web_posts, ContextWeb, EdgeModel, Post, PostModel, WebModel};
use crate::strings::{join, split_seq};
use crate::text::{author_name, counted, short_time, spec_author_name, spec_counted, spec_short_time, split_lines, join_strings};
use crate::collections::StrSet;
use crate::lens::walk::{
    by_time_order, lemma_walk_done, node_time, of_kind, push_kids, spec_edge_tag, stack_view, strs_view, sweep,
    walk_done, walk_run, walk_start, EdgeKind, WalkGraph, WalkState, Child, kid_view, kids_in, children_of, add_child,
};

verus! {

/// The engagement counts worth showing, as `"N likes"` and so on.
pub open spec fn spec_stats(p: PostModel) -> Seq<Seq<char>> {
    (if p.like_count > 0 {
        seq![spec_counted(p.like_count as nat, "like"@, "likes"@)]
    } else {
        Seq::<Seq<char>>::empty()
    }) + (if p.repost_count > 0 {
        seq![spec_counted(p.repost_count as nat, "repost"@, "reposts"@)]
    } else {
        Seq::<Seq<char>>::empty()
    }) + (if p.quote_count > 0 {
        seq![spec_counted(p.quote_count as nat, "quote"@, "quotes"@)]
    } else {
        Seq::<Seq<char>>::empty()
    })
}

/// The lines one post takes in the tree: header, text, counts, blank.
pub open spec fn spec_post_block(p: PostModel, depth: nat, tag: Seq<char>) -> Seq<Seq<char>> {
    let ind = spec_indent(depth);
    seq![ind + tag + " "@ + spec_author_name(p.author) + "  "@ + spec_short_time(p.created_at)]
        + split_seq(p.text, '\n').map_values(|l: Seq<char>| ind + "  "@ + l)
        + (if spec_stats(p).len() > 0 {
        seq![ind + "  ("@ + join(spec_stats(p), ", "@) + ")"@]
    } else {
        Seq::<Seq<char>>::empty()
    }) + seq![Seq::<char>::empty()]
}

/// Appends the lines of one post at `depth`.
pub fn push_post(lines: &mut Vec<String>, post: &Post, depth: usize, kind: Option<EdgeKind>)
    ensures
        strings_of(final(lines)@) == strings_of(old(lines)@) + spec_post_block(post@, depth as nat, spec_edge_tag(kind)),
{
    let ind = indent(depth);
    let tag = match kind {
        Some(k) => k.tag(),
        None => "[root]",
    };
    let mut header = String::from_str(ind.as_str());
    header.append(tag);
    header.append(" ");
    let name = author_name(post);
    header.append(name.as_str());
    header.append("  ");
    let time = short_time(post.created_at.as_str());
    header.append(time.as_str());
    let ghost start = strings_of(lines@);
    lines.push(header);
    let ghost ind_v = spec_indent(depth as nat);
    let pieces = split_lines(post.text.as_str());
    let ghost texts = split_seq(post@.text, '\n').map_values(|l: Seq<char>| ind_v + "  "@ + l);
    let np = pieces.len();
    let mut i: usize = 0;
    while i < np
        invariant
            np == pieces@.len(),
            np == split_seq(post@.text, '\n').len(),
            forall|k: int| 0 <= k < np ==> #[trigger] pieces@[k]@ == split_seq(post@.text, '\n')[k],
            ind@ == ind_v,
            texts == split_seq(post@.text, '\n').map_values(|l: Seq<char>| ind_v + "  "@ + l),
            i <= np,
            strings_of(lines@) == start + seq![header@] + texts.take(i as int),
        decreases np - i,
    {
        let mut l = String::from_str(ind.as_str());
        l.append("  ");
        l.append(pieces[i].as_str());
        let ghost before = strings_of(lines@);
        lines.push(l);
        proof {
            assert(texts[i as int] == l@);
            assert(texts.take(i + 1) =~= texts.take(i as int).push(l@));
            assert(strings_of(lines@) =~= before.push(l@));
        }
        i += 1;
    }
    let mut stats: Vec<String> = Vec::new();
    if post.like_count > 0 {
        stats.push(counted(post.like_count as u64, "like", "likes"));
    }
    if post.repost_count > 0 {
        stats.push(counted(post.repost_count as u64, "repost", "reposts"));
    }
    if post.quote_count > 0 {
        stats.push(counted(post.quote_count as u64, "quote", "quotes"));
    }
    proof {
        assert(strings_of(stats@) =~= spec_stats(post@));
        assert(texts.take(np as int) =~= texts);
    }
    let ghost mid = strings_of(lines@);
    let ghost stat_part = if spec_stats(post@).len() > 0 {
        seq![ind_v + "  ("@ + join(spec_stats(post@), ", "@) + ")"@]
    } else {
        Seq::<Seq<char>>::empty()
    };
    if stats.len() > 0 {
        let mut l = String::from_str(ind.as_str());
        l.append("  (");
        let joined = join_strings(&stats, ", ");
        l.append(joined.as_str());
        l.append(")");
        lines.push(l);
        proof {
            assert(l@ == ind_v + "  ("@ + join(spec_stats(post@), ", "@) + ")"@);
            assert(strings_of(lines@) =~= mid + stat_part);
        }
    } else {
        proof {
            assert(strings_of(lines@) =~= mid + stat_part);
        }
    }
    let ghost mid2 = strings_of(lines@);
    lines.push(String::new());
    proof {
        let block = spec_post_block(post@, depth as nat, spec_edge_tag(kind));
        assert(strings_of(lines@) =~= mid2.push(Seq::<char>::empty()));
        assert(header@ == ind_v + spec_edge_tag(kind) + " "@ + spec_author_name(post@.author) + "  "@ + spec_short_time(post@.created_at));
        assert(block =~= seq![header@] + texts + stat_part + seq![Seq::<char>::empty()]);
        assert(strings_of(lines@) =~= start + block);
    }
}

/// The replies to `uri` among `posts`, in order.
pub open spec fn reply_kids(posts: Seq<PostModel>, uri: Seq<char>) -> Seq<(Seq<char>, EdgeKind)>
    decreases posts.len(),
{
    if posts.len() == 0 {
        Seq::empty()
    } else {
        let rest = reply_kids(posts.drop_last(), uri);
        if posts.last().reply_parent == Some(uri) {
            rest.push((posts.last().uri, EdgeKind::Reply))
        } else {
            rest
        }
    }
}

/// The posts that `uri` quotes, by the quote edges, in order.
pub open spec fn quote_kids(edges: Seq<EdgeModel>, uri: Seq<char>) -> Seq<(Seq<char>, EdgeKind)>
    decreases edges.len(),
{
    if edges.len() == 0 {
        Seq::empty()
    } else {
        let rest = quote_kids(edges.drop_last(), uri);
        if edges.last().source == uri {
            rest.push((edges.last().target, EdgeKind::Quote))
        } else {
            rest
        }
    }
}

/// The children of `uri`: its replies in post order, then the posts it
/// quotes in edge order.
pub open spec fn spec_kids(web: WebModel, uri: Seq<char>) -> Seq<(Seq<char>, EdgeKind)> {
    reply_kids(web_posts(web.threads), uri) + quote_kids(web.quote_edges, uri)
}

/// The post with URI `uri` among `nodes`, the first if several.
pub open spec fn tree_node(nodes: Seq<PostModel>) -> spec_fn(Seq<char>) -> Option<PostModel> {
    |u: Seq<char>| crate::lens::fmt::first_node(nodes, u)
}

/// The creation time of the node with URI `uri`, empty when absent.
pub fn time_of<'a>(nodes: &Vec<&'a Post>, uri: &str) -> (r: &'a str)
    ensures
        r@ == node_time(tree_node(crate::lens::fmt::posts_of(nodes@)), uri@),
{
    match find_node(nodes, uri) {
        Some(p) => p.created_at.as_str(),
        None => {
            proof {
                reveal_strlit("");
            }
            ""
        },
    }
}

/// The children of kind `want`, by creation time, ties in list order.
fn sorted_group<'a>(nodes: &Vec<&'a Post>, kids: &Vec<Child<'a>>, want: EdgeKind) -> (r: Vec<&'a str>)
    ensures
        strs_view(r@) == by_time_order(
            tree_node(crate::lens::fmt::posts_of(nodes@)),
            of_kind(kids@.map_values(|c: Child| kid_view(c)), want),
        ),
{
    let ghost nv = crate::lens::fmt::posts_of(nodes@);
    let ghost kv = kids@.map_values(|c: Child| kid_view(c));
    let mut group: Vec<&'a str> = Vec::new();
    let mut keys: Vec<&str> = Vec::new();
    let n = kids.len();
    let mut i: usize = 0;
    while i < n
        invariant
            n == kids@.len(),
            nv == crate::lens::fmt::posts_of(nodes@),
            kv == kids@.map_values(|c: Child| kid_view(c)),
            i <= n,
            strs_view(group@) == of_kind(kv.take(i as int), want),
            strs_view(keys@) == of_kind(kv.take(i as int), want).map_values(|u: Seq<char>| node_time(tree_node(nv), u)),
        decreases n - i,
    {
        let c = kids[i];
        proof {
            assert(kv.take(i + 1).drop_last() =~= kv.take(i as int));
            assert(kv.take(i + 1).last() == kid_view(c));
        }
        if c.kind == want {
            let ghost og = of_kind(kv.take(i as int), want);
            let ghost ok = strs_view(keys@);
            group.push(c.uri);
            let t = time_of(nodes, c.uri);
            keys.push(t);
            proof {
                assert(of_kind(kv.take(i + 1), want) == og.push(c.uri@));
                assert(strs_view(keys@) =~= ok.push(t@));
                assert(og.push(c.uri@).map_values(|u: Seq<char>| node_time(tree_node(nv), u)) =~= og.map_values(
                    |u: Seq<char>| node_time(tree_node(nv), u),
                ).push(node_time(tree_node(nv), c.uri@)));
                assert(strs_view(group@) =~= of_kind(kv.take(i + 1), want));
                assert(strs_view(keys@) =~= of_kind(kv.take(i + 1), want).map_values(|u: Seq<char>| node_time(tree_node(nv), u)));
            }
        }
        i += 1;
    }
    proof {
        assert(kv.take(n as int) =~= kv);
    }
    let ghost uris = of_kind(kv, want);
    let order = sort_by_text(&keys);
    proof {
        assert(keys@.map_values(|k: &str| k@) =~= strs_view(keys@));
        crate::lens::order::lemma_text_order(uris.map_values(|u: Seq<char>| node_time(tree_node(nv), u)), order@);
    }
    let mut out: Vec<&'a str> = Vec::new();
    let m = order.len();
    let mut k: usize = 0;
    while k < m
        invariant
            m == order@.len(),
            keys@.len() == group@.len(),
            strs_view(group@) == uris,
            crate::lens::order::is_permutation(order@, keys@.len()),
            k <= m,
            out@.len() == k,
            forall|x: int| 0 <= x < k ==> (#[trigger] out@[x])@ == uris[order@[x] as int],
        decreases m - k,
    {
        proof {
            assert(order@[k as int] < group@.len());
            assert(group@[order@[k as int] as int]@ == uris[order@[k as int] as int]);
        }
        out.push(group[order[k]]);
        k += 1;
    }
    proof {
        assert(strs_view(out@) =~= by_time_order(tree_node(nv), uris));
    }
    out
}

/// The URIs of a list of posts.
pub open spec fn uris_of(v: Seq<&Post>) -> Seq<Seq<char>> {
    v.map_values(|p: &Post| p@.uri)
}

/// Depth-first walk from `start` over unvisited nodes, replies listed
/// before quotes at every level, each post once.
fn walk<'a>(
    web: &ContextWeb,
    nodes: &Vec<&'a Post>,
    children: &Vec<(&'a str, Vec<Child<'a>>)>,
    start: &'a str,
    visited: &mut StrSet,
    lines: &mut Vec<String>,
)
    requires
        crate::lens::fmt::posts_of(nodes@) == spec_nodes(web@.threads),
        forall|u: Seq<char>| #[trigger] kids_in(children@, u) == spec_kids(web@, u),
        old(visited)@.no_duplicates(),
        forall|i: int| 0 <= i < old(visited)@.len() ==> uris_of(nodes@).contains(#[trigger] old(visited)@[i]),
    ensures
        final(visited)@.no_duplicates(),
        forall|i: int| 0 <= i < final(visited)@.len() ==> uris_of(nodes@).contains(#[trigger] final(visited)@[i]),
        ({
            let d = walk_done(tree_graph(web@), walk_start(start@, old(visited)@, strings_of(old(lines)@)));
            final(visited)@ == d.visited && strings_of(final(lines)@) == d.lines
        }),
        crate::crawler::seq_prefix(old(visited)@, final(visited)@),
        crate::lens::fmt::first_node(spec_nodes(web@.threads), start@) is Some ==> final(visited)@.contains(start@),
{
    let ghost s0 = walk_start(start@, visited@, strings_of(lines@));
    let ghost nv = spec_nodes(web@.threads);
    let mut stack: Vec<(&'a str, usize, Option<EdgeKind>)> = Vec::new();
    stack.push((start, 0, None));
    let ghost mut steps: nat = 0;
    proof {
        crate::lens::graph::lemma_keys_bound(visited@, uris_of(nodes@));
        assert(uris_of(nodes@).len() == nodes@.len());
        assert(stack_view(stack@) =~= s0.stack);
    }
    while stack.len() > 0
        invariant
            crate::lens::fmt::posts_of(nodes@) == nv,
            nv == spec_nodes(web@.threads),
            forall|u: Seq<char>| #[trigger] kids_in(children@, u) == spec_kids(web@, u),
            visited@.no_duplicates(),
            forall|i: int| 0 <= i < visited@.len() ==> uris_of(nodes@).contains(#[trigger] visited@[i]),
            visited@.len() <= nodes@.len(),
            forall|i: int| 0 <= i < stack@.len() ==> (#[trigger] stack@[i]).1 <= visited@.len(),
            nodes@.len() == nodes.len(),
            walk_run(tree_graph(web@), s0, steps) == (WalkState { stack: stack_view(stack@), visited: visited@, lines: strings_of(lines@) }),
            crate::crawler::seq_prefix(old(visited)@, visited@),
            s0 == walk_start(start@, old(visited)@, strings_of(old(lines)@)),
            steps > 0 && crate::lens::fmt::first_node(nv, start@) is Some ==> visited@.contains(start@),
        decreases nodes@.len() - visited@.len(), stack@.len(),
    {
        let ghost st = walk_run(tree_graph(web@), s0, steps);
        let ghost sb = stack@;
        let ghost vstart = visited@;
        let (uri, depth, kind) = match stack.pop() {
            Some(entry) => entry,
            None => (start, 0, None),
        };
        let ghost rest = stack_view(stack@);
        proof {
            assert(stack@ == sb.drop_last());
            assert(rest =~= st.stack.drop_last());
            assert(st.stack.last() == (uri@, depth as nat, kind));
            if steps == 0 {
                assert(st == s0);
                assert(uri@ == start@);
            }
        }
        if !visited.contains(uri) {
            if let Some(post) = find_node(nodes, uri) {
                proof {
                    crate::lens::fmt::lemma_first_node(nv, uri@);
                    assert(nv.map_values(|q: PostModel| q.uri) =~= uris_of(nodes@));
                }
                let ghost vb = visited@;
                visited.insert(String::from_str(uri));
                proof {
                    assert(visited@ == vb.push(uri@));
                    assert(visited@[vb.len() as int] == uri@);
                    assert forall|a: int, b: int| 0 <= a < b < visited@.len() implies visited@[a] != visited@[b] by {
                        if b == vb.len() {
                            assert(visited@[a] == vb[a]);
                        }
                    }
                    crate::lens::graph::lemma_keys_bound(visited@, uris_of(nodes@));
                }
                push_post(lines, post, depth, kind);
                let kids = children_of(children, uri);
                let replies = sorted_group(nodes, &kids, EdgeKind::Reply);
                let quotes = sorted_group(nodes, &kids, EdgeKind::Quote);
                let ghost qv = strs_view(quotes@);
                let ghost rv = strs_view(replies@);
                let ghost d1 = (depth + 1) as nat;
                let nq = quotes.len();
                let mut q = nq;
                while q > 0
                    invariant
                        nq == quotes@.len(),
                        qv == strs_view(quotes@),
                        d1 == depth + 1,
                        q <= nq,
                        depth < visited@.len(),
                        visited@.len() <= nodes.len(),
                        forall|i: int| 0 <= i < stack@.len() ==> (#[trigger] stack@[i]).1 <= visited@.len(),
                        stack_view(stack@) == rest + Seq::new(
                            (nq - q) as nat,
                            |i: int| (qv[nq - 1 - i], d1, Some(EdgeKind::Quote)),
                        ),
                    decreases q,
                {
                    q -= 1;
                    let ghost sq = stack_view(stack@);
                    stack.push((quotes[q], depth + 1, Some(EdgeKind::Quote)));
                    proof {
                        assert(stack_view(stack@) =~= sq.push((qv[q as int], d1, Some(EdgeKind::Quote))));
                        assert(stack_view(stack@) =~= rest + Seq::new(
                            (nq - q) as nat,
                            |i: int| (qv[nq - 1 - i], d1, Some(EdgeKind::Quote)),
                        ));
                    }
                }
                let ghost mid = stack_view(stack@);
                proof {
                    assert(mid =~= push_kids(rest, qv, d1, EdgeKind::Quote));
                }
                let nr = replies.len();
                let mut r = nr;
                while r > 0
                    invariant
                        nr == replies@.len(),
                        rv == strs_view(replies@),
                        d1 == depth + 1,
                        r <= nr,
                        depth < visited@.len(),
                        visited@.len() <= nodes.len(),
                        forall|i: int| 0 <= i < stack@.len() ==> (#[trigger] stack@[i]).1 <= visited@.len(),
                        stack_view(stack@) == mid + Seq::new(
                            (nr - r) as nat,
                            |i: int| (rv[nr - 1 - i], d1, Some(EdgeKind::Reply)),
                        ),
                    decreases r,
                {
                    r -= 1;
                    let ghost sr = stack_view(stack@);
                    stack.push((replies[r], depth + 1, Some(EdgeKind::Reply)));
                    proof {
                        assert(stack_view(stack@) =~= sr.push((rv[r as int], d1, Some(EdgeKind::Reply))));
                        assert(stack_view(stack@) =~= mid + Seq::new(
                            (nr - r) as nat,
                            |i: int| (rv[nr - 1 - i], d1, Some(EdgeKind::Reply)),
                        ));
                    }
                }
                proof {
                    assert(kids@.map_values(|c: Child| kid_view(c)) == spec_kids(web@, uri@));
                    assert(stack_view(stack@) =~= push_kids(mid, rv, d1, EdgeKind::Reply));
                }
            }
        }
        proof {
            assert(crate::crawler::seq_prefix(vstart, visited@));
            if vstart.contains(start@) {
                let w = choose|w: int| 0 <= w < vstart.len() && vstart[w] == start@;
                assert(visited@[w] == start@);
            }
            steps = steps + 1;
        }
    }
    proof {
        lemma_walk_done(tree_graph(web@), s0, steps);
    }
}

/// The tree lens's walk over the web: its nodes by URI, each post's
/// replies and the posts it quotes, and the tree's post blocks.
pub open spec fn tree_graph(web: WebModel) -> WalkGraph {
    WalkGraph {
        node: tree_node(spec_nodes(web.threads)),
        kids: |u: Seq<char>| spec_kids(web, u),
        block: |p: PostModel, d: nat, k: Option<EdgeKind>| spec_post_block(p, d, spec_edge_tag(k)),
    }
}

/// The URIs of the web's nodes, in order.
pub open spec fn node_uris(web: WebModel) -> Seq<Seq<char>> {
    spec_nodes(web.threads).map_values(|p: PostModel| p.uri)
}

/// The tree view's walks: the walk from the tree root, then walks from
/// every post it did not reach.
pub open spec fn tree_walk(web: &ContextWeb) -> WalkState {
    let first = walk_done(
        tree_graph(web@),
        walk_start(spec_tree_root(web, web@.root_uri, web@.index.len()), Seq::empty(), Seq::empty()),
    );
    sweep(tree_graph(web@), first, node_uris(web@), spec_nodes(web@.threads).len())
}

/// The lines of the tree view.
pub open spec fn tree_lines(web: &ContextWeb) -> Seq<Seq<char>> {
    tree_walk(web).lines
}

/// Renders an indented threaded view: a depth-first walk from the tree root
/// with replies listed before quotes at every level, then every post not
/// reached from there, each walk after a `---` line.
pub(crate) fn render(web: &ContextWeb) -> (r: String)
    ensures
        r@ == spec_text(tree_lines(web)),
        tree_walk(web).visited.no_duplicates(),
        forall|i: int| 0 <= i < node_uris(web@).len() ==> tree_walk(web).visited.contains(#[trigger] node_uris(web@)[i]),
{
    let nodes = web.nodes();
    let ghost nv = spec_nodes(web@.threads);
    proof {
        assert(crate::lens::fmt::posts_of(nodes@) =~= nv);
    }
    let mut children: Vec<(&str, Vec<Child>)> = Vec::new();
    let posts = web.iter_posts();
    let ghost pv = web_posts(web@.threads);
    let np = posts.len();
    let mut i: usize = 0;
    proof {
        assert forall|u: Seq<char>| #[trigger] kids_in(children@, u) == reply_kids(pv.take(0), u) by {
            assert(pv.take(0).len() == 0);
        }
    }
    while i < np
        invariant
            np == posts@.len(),
            np == pv.len(),
            pv == web_posts(web@.threads),
            forall|k: int| 0 <= k < np ==> (#[trigger] posts@[k])@ == pv[k],
            i <= np,
            forall|u: Seq<char>| #[trigger] kids_in(children@, u) == reply_kids(pv.take(i as int), u),
        decreases np - i,
    {
        let p = posts[i];
        let ghost before = children@;
        proof {
            assert(pv.take(i + 1).drop_last() =~= pv.take(i as int));
            assert(pv.take(i + 1).last() == p@);
        }
        if let Some(parent) = &p.reply_parent {
            add_child(&mut children, parent.as_str(), Child { uri: p.uri.as_str(), kind: EdgeKind::Reply });
            proof {
                assert forall|u: Seq<char>| #[trigger] kids_in(children@, u) == reply_kids(pv.take(i + 1), u) by {
                    assert(kids_in(before, u) == reply_kids(pv.take(i as int), u));
                }
            }
        } else {
            proof {
                assert forall|u: Seq<char>| #[trigger] kids_in(children@, u) == reply_kids(pv.take(i + 1), u) by {
                    assert(kids_in(before, u) == reply_kids(pv.take(i as int), u));
                }
            }
        }
        i += 1;
    }
    proof {
        assert(pv.take(np as int) =~= pv);
    }
    let edges = web.edges();
    let ghost ev = web@.quote_edges;
    let ne = edges.len();
    let mut j: usize = 0;
    proof {
        assert forall|u: Seq<char>| #[trigger] kids_in(children@, u) == reply_kids(pv, u) + quote_kids(ev.take(0), u) by {
            assert(ev.take(0).len() == 0);
            assert(reply_kids(pv, u) + quote_kids(ev.take(0), u) =~= reply_kids(pv, u));
        }
    }
    while j < ne
        invariant
            ne == edges@.len(),
            crate::model::edges_view(edges@) == ev,
            ev == web@.quote_edges,
            pv == web_posts(web@.threads),
            j <= ne,
            forall|u: Seq<char>| #[trigger] kids_in(children@, u) == reply_kids(pv, u) + quote_kids(ev.take(j as int), u),
        decreases ne - j,
    {
        let e = &edges[j];
        let ghost before = children@;
        proof {
            assert(ev.take(j + 1).drop_last() =~= ev.take(j as int));
            assert(ev.take(j + 1).last() == e@);
        }
        add_child(&mut children, e.source.as_str(), Child { uri: e.target.as_str(), kind: EdgeKind::Quote });
        proof {
            assert forall|u: Seq<char>| #[trigger] kids_in(children@, u) == reply_kids(pv, u) + quote_kids(ev.take(j + 1), u) by {
                assert(kids_in(before, u) == reply_kids(pv, u) + quote_kids(ev.take(j as int), u));
                if u == e.source@ {
                    assert(reply_kids(pv, u) + quote_kids(ev.take(j + 1), u) =~= (reply_kids(pv, u) + quote_kids(ev.take(j as int), u)).push((e.target@, EdgeKind::Quote)));
                }
            }
        }
        j += 1;
    }
    proof {
        assert(ev.take(ne as int) =~= ev);
        assert forall|u: Seq<char>| #[trigger] kids_in(children@, u) == spec_kids(web@, u) by {
            assert(kids_in(children@, u) == reply_kids(pv, u) + quote_kids(ev.take(ne as int), u));
        }
    }
    let mut visited = StrSet::new();
    let mut lines: Vec<String> = Vec::new();
    let root = find_tree_root(web);
    proof {
        assert(strings_of(lines@) =~= Seq::<Seq<char>>::empty());
    }
    walk(web, &nodes, &children, root, &mut visited, &mut lines);
    let ghost first = walk_done(
        tree_graph(web@),
        walk_start(spec_tree_root(web, web@.root_uri, web@.index.len()), Seq::empty(), Seq::empty()),
    );
    let n = nodes.len();
    let mut k: usize = 0;
    while k < n
        invariant
            n == nodes@.len(),
            n == nv.len(),
            nv == spec_nodes(web@.threads),
            crate::lens::fmt::posts_of(nodes@) == nv,
            forall|u: Seq<char>| #[trigger] kids_in(children@, u) == spec_kids(web@, u),
            k <= n,
            visited@.no_duplicates(),
            forall|x: int| 0 <= x < visited@.len() ==> uris_of(nodes@).contains(#[trigger] visited@[x]),
            visited@ == sweep(tree_graph(web@), first, node_uris(web@), k as nat).visited,
            strings_of(lines@) == sweep(tree_graph(web@), first, node_uris(web@), k as nat).lines,
            forall|x: int| 0 <= x < k ==> visited@.contains(#[trigger] node_uris(web@)[x]),
        decreases n - k,
    {
        let uri = nodes[k].uri.as_str();
        proof {
            assert(nv[k as int] == nodes@[k as int]@);
            assert(node_uris(web@)[k as int] == uri@);
        }
        if !visited.contains(uri) {
            let ghost lb = strings_of(lines@);
            let ghost vb = visited@;
            lines.push(String::from_str("---"));
            proof {
                assert(strings_of(lines@) =~= lb.push("---"@));
            }
            walk(web, &nodes, &children, uri, &mut visited, &mut lines);
            proof {
                crate::lens::fmt::lemma_first_node_found(nv, k as int);
                assert forall|x: int| 0 <= x < k implies visited@.contains(#[trigger] node_uris(web@)[x]) by {
                    let w = choose|w: int| 0 <= w < vb.len() && vb[w] == node_uris(web@)[x];
                    assert(visited@[w] == vb[w]);
                }
            }
        }
        k += 1;
    }
    finish_lines(&lines)
}

} // verus!
