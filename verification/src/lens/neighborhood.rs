//! The `neighborhood` lens: the posts within some quote hops of a post.
use vstd::prelude::*;
use vstd::string::*;

use crate::collections::StrSet;
use crate::lens::fmt::{dec, finish_lines, indent, spec_indent, spec_text, strings_of};
use crate::lens::graph::{dist_view, find_tree_root, is_hop_distances, spec_tree_root, thread_hop_distances};
use crate::lens::order::sort_by_text;
use crate::lens::walk::{
    add_child, by_time_order, children_of, kid_view, kids_in, lemma_walk_done, node_time, of_kind, push_kids,
    spec_edge_tag, stack_view, strs_view, sweep, walk_done, walk_run, walk_start, Child, EdgeKind, WalkGraph,
    WalkState,
};
use crate::model::{entry_values, ContextWeb, EdgeModel, Post, PostModel, ThreadModel, WebModel};
use crate::ordered_map::{
    distinct_keys, has_key, insert_entry, lemma_key_pos_distinct, lookup, post_entries,
    post_map_get_index, post_map_len, thread_entries, thread_map_get_index, thread_map_len,
};
use crate::strings::{join, spec_decimal, str_eq};
use crate::text::{author_name, join_strings, short_time, spec_author_name, spec_lines, spec_short_time, spec_thousands, text_lines, thousands};

verus! {

/// The post a neighborhood is centred on: the given URI, or the web's root
/// when none or an empty one is given.
pub open spec fn nbhd_target(web: WebModel, uri: Option<Seq<char>>) -> Seq<char> {
    match uri {
        Some(u) => if u.len() > 0 {
            u
        } else {
            web.root_uri
        },
        None => web.root_uri,
    }
}

/// The threads within `hops` hops, in distance-list order.
pub open spec fn included_keys(dv: Seq<(Seq<char>, usize)>, hops: nat) -> Seq<Seq<char>>
    decreases dv.len(),
{
    if dv.len() == 0 {
        Seq::empty()
    } else {
        let rest = included_keys(dv.drop_last(), hops);
        if dv.last().1 <= hops {
            rest.push(dv.last().0)
        } else {
            rest
        }
    }
}

/// A thread is included in the neighborhood exactly when the distance
/// list reaches it within `hops` hops; the included threads keep the
/// list's order.
pub proof fn lemma_included_exactly_within_hops(dv: Seq<(Seq<char>, usize)>, hops: nat)
    ensures
        included_keys(dv, hops).len() <= dv.len(),
        forall|k: Seq<char>|
            #[trigger] included_keys(dv, hops).contains(k) <==> exists|i: int|
                0 <= i < dv.len() && dv[i].0 == k && dv[i].1 <= hops,
    decreases dv.len(),
{
    if dv.len() > 0 {
        let init = dv.drop_last();
        lemma_included_exactly_within_hops(init, hops);
        assert forall|k: Seq<char>|
            #[trigger] included_keys(dv, hops).contains(k) <==> exists|i: int|
                0 <= i < dv.len() && dv[i].0 == k && dv[i].1 <= hops by {
            vstd::seq_lib::lemma_seq_contains_after_push(included_keys(init, hops), dv.last().0, k);
            if exists|i: int| 0 <= i < dv.len() && dv[i].0 == k && dv[i].1 <= hops {
                let i = choose|i: int| 0 <= i < dv.len() && dv[i].0 == k && dv[i].1 <= hops;
                if i < dv.len() - 1 {
                    assert(init[i] == dv[i]);
                }
            }
            if exists|i: int| 0 <= i < init.len() && init[i].0 == k && init[i].1 <= hops {
                let i = choose|i: int| 0 <= i < init.len() && init[i].0 == k && init[i].1 <= hops;
                assert(dv[i] == init[i]);
            }
        }
    }
}

/// `e` with each of `posts` inserted in turn, a key seen again keeping its
/// place and taking the later post.
pub open spec fn insert_posts(e: Seq<(Seq<char>, PostModel)>, posts: Seq<(Seq<char>, PostModel)>) -> Seq<
    (Seq<char>, PostModel),
>
    decreases posts.len(),
{
    if posts.len() == 0 {
        e
    } else {
        insert_entry(insert_posts(e, posts.drop_last()), posts.last().0, posts.last().1)
    }
}

/// The posts of the included threads, by key, in thread order.
pub open spec fn nb_entries(th: Seq<(Seq<char>, ThreadModel)>, inc: Seq<Seq<char>>) -> Seq<(Seq<char>, PostModel)>
    decreases th.len(),
{
    if th.len() == 0 {
        Seq::empty()
    } else {
        let rest = nb_entries(th.drop_last(), inc);
        if inc.contains(th.last().0) {
            insert_posts(rest, th.last().1.posts)
        } else {
            rest
        }
    }
}

/// The replies to `u` among `posts`, in order, when `u` is a node.
pub open spec fn nb_reply_kids(posts: Seq<PostModel>, e: Seq<(Seq<char>, PostModel)>, u: Seq<char>) -> Seq<
    (Seq<char>, EdgeKind),
>
    decreases posts.len(),
{
    if posts.len() == 0 {
        Seq::empty()
    } else {
        let rest = nb_reply_kids(posts.drop_last(), e, u);
        if posts.last().reply_parent == Some(u) && has_key(e, u) {
            rest.push((posts.last().uri, EdgeKind::Reply))
        } else {
            rest
        }
    }
}

/// The nodes that `u` quotes, by the quote edges between nodes, in order.
pub open spec fn nb_quote_kids(edges: Seq<EdgeModel>, e: Seq<(Seq<char>, PostModel)>, u: Seq<char>) -> Seq<
    (Seq<char>, EdgeKind),
>
    decreases edges.len(),
{
    if edges.len() == 0 {
        Seq::empty()
    } else {
        let rest = nb_quote_kids(edges.drop_last(), e, u);
        if edges.last().source == u && has_key(e, u) && has_key(e, edges.last().target) {
            rest.push((edges.last().target, EdgeKind::Quote))
        } else {
            rest
        }
    }
}

/// The children of node `u`: its replies among the nodes, then the nodes
/// it quotes.
pub open spec fn nb_kids(web: WebModel, e: Seq<(Seq<char>, PostModel)>, u: Seq<char>) -> Seq<(Seq<char>, EdgeKind)> {
    nb_reply_kids(entry_values(e), e, u) + nb_quote_kids(web.quote_edges, e, u)
}

/// The engagement counts worth showing, as `"N likes"` and so on.
pub open spec fn nb_stats(p: PostModel) -> Seq<Seq<char>> {
    (if p.like_count > 0 {
        seq![spec_decimal(p.like_count as nat) + " likes"@]
    } else {
        Seq::<Seq<char>>::empty()
    }) + (if p.repost_count > 0 {
        seq![spec_decimal(p.repost_count as nat) + " reposts"@]
    } else {
        Seq::<Seq<char>>::empty()
    }) + (if p.quote_count > 0 {
        seq![spec_decimal(p.quote_count as nat) + " quotes"@]
    } else {
        Seq::<Seq<char>>::empty()
    })
}

/// The lines one post takes: header, text, counts, blank.
pub open spec fn nb_block(p: PostModel, depth: nat, kind: Option<EdgeKind>) -> Seq<Seq<char>> {
    let ind = spec_indent(depth);
    seq![ind + spec_edge_tag(kind) + " "@ + spec_author_name(p.author) + "  "@ + spec_short_time(p.created_at)]
        + spec_lines(p.text).map_values(|l: Seq<char>| ind + "  "@ + l) + (if nb_stats(p).len() > 0 {
        seq![ind + "  ("@ + join(nb_stats(p), ", "@) + ")"@]
    } else {
        Seq::<Seq<char>>::empty()
    }) + seq![Seq::<char>::empty()]
}

/// The post under key `u` among the nodes.
pub open spec fn nb_node(e: Seq<(Seq<char>, PostModel)>) -> spec_fn(Seq<char>) -> Option<PostModel> {
    |u: Seq<char>| lookup(e, u)
}

/// The neighborhood's walk over the nodes `e`.
pub open spec fn nbhd_graph(web: WebModel, e: Seq<(Seq<char>, PostModel)>) -> WalkGraph {
    WalkGraph {
        node: nb_node(e),
        kids: |u: Seq<char>| nb_kids(web, e, u),
        block: |p: PostModel, d: nat, k: Option<EdgeKind>| nb_block(p, d, k),
    }
}

/// The heading: the hop count, then posts and threads shown of all.
pub open spec fn nb_head(web: WebModel, e: Seq<(Seq<char>, PostModel)>, inc: Seq<Seq<char>>, hops: nat) -> Seq<
    Seq<char>,
> {
    seq![
        "=== NEIGHBORHOOD ("@ + spec_decimal(hops) + " hops from target) ==="@,
        "Posts: "@ + spec_thousands(e.len()) + " of "@ + spec_thousands(web.index.len()) + " | Threads: "@
            + spec_thousands(inc.len()) + " of "@ + spec_thousands(web.threads.len()),
        Seq::<char>::empty(),
    ]
}

/// The keys of the nodes, in order.
pub open spec fn entry_keys(e: Seq<(Seq<char>, PostModel)>) -> Seq<Seq<char>> {
    e.map_values(|x: (Seq<char>, PostModel)| x.0)
}

/// The walks of the neighborhood of `target` within `hops` hops, given the
/// hop distances `dv` of the threads from the target's thread: after the
/// heading, the walk from the tree root (or the target when the root is not
/// shown), then walks from every node it did not reach.
pub open spec fn nbhd_walk(web: &ContextWeb, target: Seq<char>, hops: nat, dv: Seq<(Seq<char>, usize)>) -> WalkState {
    let inc = included_keys(dv, hops);
    let e = nb_entries(web@.threads, inc);
    let g = nbhd_graph(web@, e);
    let root = spec_tree_root(web, web@.root_uri, web@.index.len());
    let start = if has_key(e, root) {
        root
    } else {
        target
    };
    let first = walk_done(g, walk_start(start, Seq::empty(), nb_head(web@, e, inc, hops)));
    sweep(g, first, entry_keys(e), e.len())
}

/// The neighborhood's nodes: the posts of the threads within `hops` hops.
pub open spec fn nbhd_nodes(web: &ContextWeb, hops: nat, dv: Seq<(Seq<char>, usize)>) -> Seq<(Seq<char>, PostModel)> {
    nb_entries(web@.threads, included_keys(dv, hops))
}

/// The lines of the neighborhood view.
pub open spec fn nbhd_lines(web: &ContextWeb, target: Seq<char>, hops: nat, dv: Seq<(Seq<char>, usize)>) -> Seq<
    Seq<char>,
> {
    nbhd_walk(web, target, hops, dv).lines
}

/// The views of the node list.
pub open spec fn entries_of(v: Seq<(&str, &Post)>) -> Seq<(Seq<char>, PostModel)> {
    v.map_values(|x: (&str, &Post)| (x.0@, x.1@))
}

/// The position of key `k` among the nodes.
fn node_position(nodes: &Vec<(&str, &Post)>, k: &str) -> (r: Option<usize>)
    ensures
        match r {
            Some(i) => i < nodes@.len() && nodes@[i as int].0@ == k@ && has_key(entries_of(nodes@), k@),
            None => !has_key(entries_of(nodes@), k@),
        },
{
    let ghost ev = entries_of(nodes@);
    let n = nodes.len();
    let mut i: usize = 0;
    while i < n
        invariant
            n == nodes@.len(),
            ev == entries_of(nodes@),
            i <= n,
            forall|q: int| 0 <= q < i ==> (#[trigger] nodes@[q]).0@ != k@,
        decreases n - i,
    {
        if str_eq(nodes[i].0, k) {
            proof {
                assert(ev[i as int].0 == k@);
            }
            return Some(i);
        }
        i += 1;
    }
    proof {
        assert forall|q: int| 0 <= q < ev.len() implies (#[trigger] ev[q]).0 != k@ by {
            assert(ev[q].0 == nodes@[q].0@);
        }
    }
    None
}

/// With distinct keys, a position found is where the key's post is.
proof fn lemma_found(nodes: Seq<(&str, &Post)>, i: int)
    requires
        distinct_keys(entries_of(nodes)),
        0 <= i < nodes.len(),
    ensures
        lookup(entries_of(nodes), nodes[i].0@) == Some(nodes[i].1@),
        has_key(entries_of(nodes), nodes[i].0@),
{
    lemma_key_pos_distinct(entries_of(nodes), i);
}

/// The creation time of the node with key `uri`, empty when absent.
fn node_created<'a>(nodes: &Vec<(&'a str, &'a Post)>, uri: &str) -> (r: &'a str)
    requires
        distinct_keys(entries_of(nodes@)),
    ensures
        r@ == node_time(nb_node(entries_of(nodes@)), uri@),
{
    match node_position(nodes, uri) {
        Some(i) => {
            proof {
                lemma_found(nodes@, i as int);
            }
            nodes[i].1.created_at.as_str()
        },
        None => {
            proof {
                reveal_strlit("");
            }
            ""
        },
    }
}

/// The children of kind `want`, by creation time, ties in list order.
fn sorted_kids<'a>(nodes: &Vec<(&'a str, &'a Post)>, kids: &Vec<Child<'a>>, want: EdgeKind) -> (r: Vec<&'a str>)
    requires
        distinct_keys(entries_of(nodes@)),
    ensures
        strs_view(r@) == by_time_order(nb_node(entries_of(nodes@)), of_kind(kids@.map_values(|c: Child| kid_view(c)), want)),
{
    let ghost f = nb_node(entries_of(nodes@));
    let ghost kv = kids@.map_values(|c: Child| kid_view(c));
    let mut group: Vec<&'a str> = Vec::new();
    let mut keys: Vec<&str> = Vec::new();
    let n = kids.len();
    let mut i: usize = 0;
    while i < n
        invariant
            n == kids@.len(),
            distinct_keys(entries_of(nodes@)),
            f == nb_node(entries_of(nodes@)),
            kv == kids@.map_values(|c: Child| kid_view(c)),
            i <= n,
            strs_view(group@) == of_kind(kv.take(i as int), want),
            strs_view(keys@) == of_kind(kv.take(i as int), want).map_values(|u: Seq<char>| node_time(f, u)),
        decreases n - i,
    {
        let c = kids[i];
        proof {
            assert(kv.take(i + 1).drop_last() =~= kv.take(i as int));
            assert(kv.take(i + 1).last() == kid_view(c));
        }
        if c.kind == want {
            let ghost og = of_kind(kv.take(i as int), want);
            let ghost ok = strs_view(keys@);
            group.push(c.uri);
            let t = node_created(nodes, c.uri);
            keys.push(t);
            proof {
                assert(of_kind(kv.take(i + 1), want) == og.push(c.uri@));
                assert(strs_view(keys@) =~= ok.push(t@));
                assert(og.push(c.uri@).map_values(|u: Seq<char>| node_time(f, u)) =~= og.map_values(
                    |u: Seq<char>| node_time(f, u),
                ).push(node_time(f, c.uri@)));
                assert(strs_view(group@) =~= of_kind(kv.take(i + 1), want));
            }
        }
        i += 1;
    }
    proof {
        assert(kv.take(n as int) =~= kv);
    }
    let ghost uris = of_kind(kv, want);
    let order = sort_by_text(&keys);
    proof {
        assert(keys@.map_values(|k: &str| k@) =~= strs_view(keys@));
        crate::lens::order::lemma_text_order(uris.map_values(|u: Seq<char>| node_time(f, u)), order@);
    }
    let mut out: Vec<&'a str> = Vec::new();
    let m = order.len();
    let mut k: usize = 0;
    while k < m
        invariant
            m == order@.len(),
            keys@.len() == group@.len(),
            strs_view(group@) == uris,
            crate::lens::order::is_permutation(order@, keys@.len()),
            k <= m,
            out@.len() == k,
            forall|x: int| 0 <= x < k ==> (#[trigger] out@[x])@ == uris[order@[x] as int],
        decreases m - k,
    {
        proof {
            assert(order@[k as int] < group@.len());
            assert(group@[order@[k as int] as int]@ == uris[order@[k as int] as int]);
        }
        out.push(group[order[k]]);
        k += 1;
    }
    proof {
        assert(strs_view(out@) =~= by_time_order(f, uris));
    }
    out
}

/// Appends the lines of one post at `depth`.
fn push_nb_post(lines: &mut Vec<String>, post: &Post, depth: usize, kind: Option<EdgeKind>)
    ensures
        strings_of(final(lines)@) == strings_of(old(lines)@) + nb_block(post@, depth as nat, kind),
{
    let ghost start = strings_of(lines@);
    let ghost ind_v = spec_indent(depth as nat);
    let ind = indent(depth);
    let mut head = String::from_str(ind.as_str());
    match kind {
        Some(e) => head.append(e.tag()),
        None => head.append("[root]"),
    }
    head.append(" ");
    let name = author_name(post);
    head.append(name.as_str());
    head.append("  ");
    let time = short_time(post.created_at.as_str());
    head.append(time.as_str());
    let ghost hv = head@;
    proof {
        assert(hv == ind_v + spec_edge_tag(kind) + " "@ + spec_author_name(post@.author) + "  "@ + spec_short_time(
            post@.created_at,
        ));
    }
    lines.push(head);
    let text = text_lines(post.text.as_str());
    let ghost texts = spec_lines(post@.text).map_values(|l: Seq<char>| ind_v + "  "@ + l);
    proof {
        assert(strings_of(lines@) =~= start + seq![hv] + texts.take(0));
    }
    let nt = text.len();
    let mut t: usize = 0;
    while t < nt
        invariant
            nt == text@.len(),
            nt == spec_lines(post@.text).len(),
            forall|k: int| 0 <= k < nt ==> #[trigger] text@[k]@ == spec_lines(post@.text)[k],
            ind@ == ind_v,
            texts == spec_lines(post@.text).map_values(|l: Seq<char>| ind_v + "  "@ + l),
            t <= nt,
            strings_of(lines@) == start + seq![hv] + texts.take(t as int),
        decreases nt - t,
    {
        let mut l = String::from_str(ind.as_str());
        l.append("  ");
        l.append(text[t].as_str());
        let ghost before = strings_of(lines@);
        lines.push(l);
        proof {
            assert(texts[t as int] == l@);
            assert(texts.take(t + 1) =~= texts.take(t as int).push(l@));
            assert(strings_of(lines@) =~= before.push(l@));
        }
        t += 1;
    }
    proof {
        assert(texts.take(nt as int) =~= texts);
    }
    let mut stats: Vec<String> = Vec::new();
    if post.like_count > 0 {
        let mut s = crate::strings::decimal(post.like_count as u64);
        s.append(" likes");
        stats.push(s);
    }
    if post.repost_count > 0 {
        let mut s = crate::strings::decimal(post.repost_count as u64);
        s.append(" reposts");
        stats.push(s);
    }
    if post.quote_count > 0 {
        let mut s = crate::strings::decimal(post.quote_count as u64);
        s.append(" quotes");
        stats.push(s);
    }
    proof {
        assert(strings_of(stats@) =~= nb_stats(post@));
    }
    let ghost mid = strings_of(lines@);
    let ghost stat_part = if nb_stats(post@).len() > 0 {
        seq![ind_v + "  ("@ + join(nb_stats(post@), ", "@) + ")"@]
    } else {
        Seq::<Seq<char>>::empty()
    };
    if stats.len() > 0 {
        let mut l = String::from_str(ind.as_str());
        l.append("  (");
        let joined = join_strings(&stats, ", ");
        l.append(joined.as_str());
        l.append(")");
        lines.push(l);
        proof {
            assert(stats@.map_values(|s: String| s@) =~= nb_stats(post@));
            assert(l@ == ind_v + "  ("@ + join(nb_stats(post@), ", "@) + ")"@);
            assert(strings_of(lines@) =~= mid + stat_part);
        }
    } else {
        proof {
            assert(strings_of(lines@) =~= mid + stat_part);
        }
    }
    let ghost mid2 = strings_of(lines@);
    lines.push(String::new());
    proof {
        assert(strings_of(lines@) =~= mid2.push(Seq::<char>::empty()));
        assert(nb_block(post@, depth as nat, kind) =~= seq![hv] + texts + stat_part + seq![Seq::<char>::empty()]);
        assert(strings_of(lines@) =~= start + nb_block(post@, depth as nat, kind));
    }
}

/// The keys of a node list.
pub open spec fn node_keys(v: Seq<(&str, &Post)>) -> Seq<Seq<char>> {
    v.map_values(|e: (&str, &Post)| e.0@)
}

/// Depth-first walk from `start` over unvisited nodes, replies before
/// quotes at every level, each post once.
pub fn render_subtree<'a>(
    web: &ContextWeb,
    nodes: &Vec<(&'a str, &'a Post)>,
    children: &Vec<(&'a str, Vec<Child<'a>>)>,
    start: &'a str,
    visited: &mut StrSet,
    lines: &mut Vec<String>,
)
    requires
        distinct_keys(entries_of(nodes@)),
        forall|u: Seq<char>| #[trigger] kids_in(children@, u) == nb_kids(web@, entries_of(nodes@), u),
        old(visited)@.no_duplicates(),
        forall|i: int| 0 <= i < old(visited)@.len() ==> node_keys(nodes@).contains(#[trigger] old(visited)@[i]),
    ensures
        final(visited)@.no_duplicates(),
        forall|i: int| 0 <= i < final(visited)@.len() ==> node_keys(nodes@).contains(#[trigger] final(visited)@[i]),
        ({
            let d = walk_done(
                nbhd_graph(web@, entries_of(nodes@)),
                walk_start(start@, old(visited)@, strings_of(old(lines)@)),
            );
            final(visited)@ == d.visited && strings_of(final(lines)@) == d.lines
        }),
        crate::crawler::seq_prefix(old(visited)@, final(visited)@),
        has_key(entries_of(nodes@), start@) ==> final(visited)@.contains(start@),
{
    let ghost g = nbhd_graph(web@, entries_of(nodes@));
    let ghost s0 = walk_start(start@, visited@, strings_of(lines@));
    let mut stack: Vec<(&'a str, usize, Option<EdgeKind>)> = Vec::new();
    stack.push((start, 0, None));
    let ghost mut steps: nat = 0;
    proof {
        crate::lens::graph::lemma_keys_bound(visited@, node_keys(nodes@));
        assert(stack_view(stack@) =~= s0.stack);
    }
    while stack.len() > 0
        invariant
            distinct_keys(entries_of(nodes@)),
            g == nbhd_graph(web@, entries_of(nodes@)),
            forall|u: Seq<char>| #[trigger] kids_in(children@, u) == nb_kids(web@, entries_of(nodes@), u),
            visited@.no_duplicates(),
            forall|i: int| 0 <= i < visited@.len() ==> node_keys(nodes@).contains(#[trigger] visited@[i]),
            visited@.len() <= nodes@.len(),
            nodes@.len() == nodes.len(),
            forall|i: int| 0 <= i < stack@.len() ==> (#[trigger] stack@[i]).1 <= visited@.len(),
            walk_run(g, s0, steps) == (WalkState { stack: stack_view(stack@), visited: visited@, lines: strings_of(lines@) }),
            crate::crawler::seq_prefix(old(visited)@, visited@),
            s0 == walk_start(start@, old(visited)@, strings_of(old(lines)@)),
            steps > 0 && has_key(entries_of(nodes@), start@) ==> visited@.contains(start@),
        decreases nodes@.len() - visited@.len(), stack@.len(),
    {
        let ghost st = walk_run(g, s0, steps);
        let ghost sb = stack@;
        let ghost vstart = visited@;
        let (uri, depth, edge) = match stack.pop() {
            Some(entry) => entry,
            None => (start, 0, None),
        };
        let ghost rest = stack_view(stack@);
        proof {
            assert(stack@ == sb.drop_last());
            assert(rest =~= st.stack.drop_last());
            assert(st.stack.last() == (uri@, depth as nat, edge));
            if steps == 0 {
                assert(st == s0);
                assert(uri@ == start@);
            }
        }
        if let Some(pos) = node_position(nodes, uri) {
            proof {
                lemma_found(nodes@, pos as int);
            }
            if !visited.contains(uri) {
                let post = nodes[pos].1;
                proof {
                    assert(node_keys(nodes@)[pos as int] == uri@);
                }
                let ghost vb = visited@;
                visited.insert(String::from_str(uri));
                proof {
                    assert(visited@ == vb.push(uri@));
                    assert(visited@[vb.len() as int] == uri@);
                    assert forall|a: int, b: int| 0 <= a < b < visited@.len() implies visited@[a] != visited@[b] by {
                        if b == vb.len() {
                            assert(visited@[a] == vb[a]);
                        }
                    }
                    crate::lens::graph::lemma_keys_bound(visited@, node_keys(nodes@));
                }
                push_nb_post(lines, post, depth, edge);
                let kids = children_of(children, uri);
                let replies = sorted_kids(nodes, &kids, EdgeKind::Reply);
                let quotes = sorted_kids(nodes, &kids, EdgeKind::Quote);
                let ghost qv = strs_view(quotes@);
                let ghost rv = strs_view(replies@);
                let ghost d1 = (depth + 1) as nat;
                let nq = quotes.len();
                let mut q = nq;
                while q > 0
                    invariant
                        nq == quotes@.len(),
                        qv == strs_view(quotes@),
                        d1 == depth + 1,
                        q <= nq,
                        depth < visited@.len(),
                        visited@.len() <= nodes.len(),
                        forall|i: int| 0 <= i < stack@.len() ==> (#[trigger] stack@[i]).1 <= visited@.len(),
                        stack_view(stack@) == rest + Seq::new(
                            (nq - q) as nat,
                            |i: int| (qv[nq - 1 - i], d1, Some(EdgeKind::Quote)),
                        ),
                    decreases q,
                {
                    q -= 1;
                    let ghost sq = stack_view(stack@);
                    stack.push((quotes[q], depth + 1, Some(EdgeKind::Quote)));
                    proof {
                        assert(stack_view(stack@) =~= sq.push((qv[q as int], d1, Some(EdgeKind::Quote))));
                        assert(stack_view(stack@) =~= rest + Seq::new(
                            (nq - q) as nat,
                            |i: int| (qv[nq - 1 - i], d1, Some(EdgeKind::Quote)),
                        ));
                    }
                }
                let ghost mid = stack_view(stack@);
                proof {
                    assert(mid =~= push_kids(rest, qv, d1, EdgeKind::Quote));
                }
                let nr = replies.len();
                let mut r = nr;
                while r > 0
                    invariant
                        nr == replies@.len(),
                        rv == strs_view(replies@),
                        d1 == depth + 1,
                        r <= nr,
                        depth < visited@.len(),
                        visited@.len() <= nodes.len(),
                        forall|i: int| 0 <= i < stack@.len() ==> (#[trigger] stack@[i]).1 <= visited@.len(),
                        stack_view(stack@) == mid + Seq::new(
                            (nr - r) as nat,
                            |i: int| (rv[nr - 1 - i], d1, Some(EdgeKind::Reply)),
                        ),
                    decreases r,
                {
                    r -= 1;
                    let ghost sr = stack_view(stack@);
                    stack.push((replies[r], depth + 1, Some(EdgeKind::Reply)));
                    proof {
                        assert(stack_view(stack@) =~= sr.push((rv[r as int], d1, Some(EdgeKind::Reply))));
                        assert(stack_view(stack@) =~= mid + Seq::new(
                            (nr - r) as nat,
                            |i: int| (rv[nr - 1 - i], d1, Some(EdgeKind::Reply)),
                        ));
                    }
                }
                proof {
                    assert(kids@.map_values(|c: Child| kid_view(c)) == nb_kids(web@, entries_of(nodes@), uri@));
                    assert(stack_view(stack@) =~= push_kids(mid, rv, d1, EdgeKind::Reply));
                }
            }
        }
        proof {
            assert(crate::crawler::seq_prefix(vstart, visited@));
            if vstart.contains(start@) {
                let w = choose|w: int| 0 <= w < vstart.len() && vstart[w] == start@;
                assert(visited@[w] == start@);
            }
            steps = steps + 1;
        }
    }
    proof {
        lemma_walk_done(g, s0, steps);
    }
}

/// What the lens answers for `target`: a one-line notice when the post is
/// not in the web, else the neighborhood's lines for the hop distances of
/// the threads from the target's thread, whose walks show every node once.
pub open spec fn nbhd_answer(web: &ContextWeb, target: Seq<char>, hops: nat, r: Seq<char>) -> bool {
    match lookup(web@.index, target) {
        None => r == "Post not found in web: "@ + target,
        Some(t) => exists|dv: Seq<(Seq<char>, usize)>|
            #[trigger] is_hop_distances(web@.quote_edges, t, dv) && r == spec_text(nbhd_lines(web, target, hops, dv))
                && nbhd_walk(web, target, hops, dv).visited.no_duplicates() && forall|i: int|
                0 <= i < nbhd_nodes(web, hops, dv).len() ==> nbhd_walk(web, target, hops, dv).visited.contains(
                #[trigger] nbhd_nodes(web, hops, dv)[i].0,
            ),
    }
}

/// Renders the posts within `hops` quote hops of a target post (the web's
/// root when none or an empty one is given), as trees of replies and quotes
/// under a heading; a target outside the web gets a one-line answer.
pub(crate) fn render(web: &ContextWeb, uri: Option<&str>, hops: usize) -> (r: String)
    ensures
        nbhd_answer(
            web,
            nbhd_target(web@, crate::lens::timeline::opt_str_view(uri)),
            hops as nat,
            r@,
        ),
{
    let target_uri: &str = match uri {
        Some(u) => if u.unicode_len() > 0 {
            u
        } else {
            web.root()
        },
        None => web.root(),
    };
    let ghost target = target_uri@;
    let target_thread = match web.thread_root_for(target_uri) {
        Some(t) => t,
        None => {
            let mut msg = String::from_str("Post not found in web: ");
            msg.append(target_uri);
            return msg;
        },
    };
    let distances = thread_hop_distances(web, target_thread);
    let ghost dv = dist_view(distances@);
    let mut included: Vec<&str> = Vec::new();
    let nd = distances.len();
    let mut i: usize = 0;
    while i < nd
        invariant
            nd == distances@.len(),
            dv == dist_view(distances@),
            i <= nd,
            strs_view(included@) == included_keys(dv.take(i as int), hops as nat),
        decreases nd - i,
    {
        proof {
            assert(dv.take(i + 1).drop_last() =~= dv.take(i as int));
            assert(dv.take(i + 1).last() == (distances@[i as int].0@, distances@[i as int].1));
        }
        if distances[i].1 <= hops {
            let ghost before = strs_view(included@);
            included.push(distances[i].0.as_str());
            proof {
                assert(strs_view(included@) =~= before.push(distances@[i as int].0@));
            }
        }
        i += 1;
    }
    proof {
        assert(dv.take(nd as int) =~= dv);
    }
    let ghost inc = included_keys(dv, hops as nat);
    let mut nodes: Vec<(&str, &Post)> = Vec::new();
    let threads = web.threads();
    let ghost th = web@.threads;
    let nt = thread_map_len(threads);
    let mut t: usize = 0;
    proof {
        assert(entries_of(nodes@) =~= nb_entries(th.take(0), inc));
    }
    while t < nt
        invariant
            nt == thread_entries(*threads).len(),
            thread_entries(*threads) == th,
            th == web@.threads,
            strs_view(included@) == inc,
            t <= nt,
            entries_of(nodes@) == nb_entries(th.take(t as int), inc),
            distinct_keys(entries_of(nodes@)),
        decreases nt - t,
    {
        let (root, thread) = thread_map_get_index(threads, t);
        let ghost base = entries_of(nodes@);
        let ghost tp = thread@.posts;
        proof {
            assert(th.take(t + 1).drop_last() =~= th.take(t as int));
            assert(th.take(t + 1).last() == (root@, thread@));
        }
        let mut wanted = false;
        let ni = included.len();
        let mut j: usize = 0;
        while j < ni
            invariant
                ni == included@.len(),
                strs_view(included@) == inc,
                j <= ni,
                wanted == exists|x: int| 0 <= x < j && inc[x] == root@,
            decreases ni - j,
        {
            proof {
                assert(inc[j as int] == included@[j as int]@);
            }
            if str_eq(included[j], root.as_str()) {
                wanted = true;
            }
            j += 1;
        }
        if wanted {
            let np = post_map_len(&thread.posts);
            let mut k: usize = 0;
            proof {
                assert(tp.take(0) =~= Seq::<(Seq<char>, PostModel)>::empty());
                assert(entries_of(nodes@) == insert_posts(base, tp.take(0)));
            }
            while k < np
                invariant
                    np == post_entries(thread.posts).len(),
                    tp == post_entries(thread.posts),
                    k <= np,
                    entries_of(nodes@) == insert_posts(base, tp.take(k as int)),
                    distinct_keys(entries_of(nodes@)),
                decreases np - k,
            {
                let (key, post) = post_map_get_index(&thread.posts, k);
                let ghost ev = entries_of(nodes@);
                proof {
                    assert(tp.take(k + 1).drop_last() =~= tp.take(k as int));
                    assert(tp.take(k + 1).last() == (key@, post@));
                    crate::model::lemma_insert_distinct(ev, key@, post@);
                }
                match node_position(&nodes, key.as_str()) {
                    Some(pos) => {
                        proof {
                            lemma_key_pos_distinct(ev, pos as int);
                        }
                        nodes.set(pos, (key.as_str(), post));
                        proof {
                            assert(entries_of(nodes@) =~= ev.update(pos as int, (key@, post@)));
                        }
                    },
                    None => {
                        nodes.push((key.as_str(), post));
                        proof {
                            assert(entries_of(nodes@) =~= ev.push((key@, post@)));
                        }
                    },
                }
                k += 1;
            }
            proof {
                assert(tp.take(np as int) =~= tp);
            }
        }
        t += 1;
    }
    proof {
        assert(th.take(nt as int) =~= th);
    }
    let ghost ev = entries_of(nodes@);
    let ghost g = nbhd_graph(web@, ev);
    let ghost vals = entry_values(ev);
    let mut children: Vec<(&str, Vec<Child>)> = Vec::new();
    let nn = nodes.len();
    let mut k: usize = 0;
    proof {
        assert forall|u: Seq<char>| #[trigger] kids_in(children@, u) == nb_reply_kids(vals.take(0), ev, u) by {
            assert(vals.take(0).len() == 0);
        }
    }
    while k < nn
        invariant
            nn == nodes@.len(),
            ev == entries_of(nodes@),
            vals == entry_values(ev),
            distinct_keys(ev),
            k <= nn,
            forall|u: Seq<char>| #[trigger] kids_in(children@, u) == nb_reply_kids(vals.take(k as int), ev, u),
        decreases nn - k,
    {
        let post = nodes[k].1;
        let ghost before = children@;
        proof {
            assert(vals.take(k + 1).drop_last() =~= vals.take(k as int));
            assert(vals.take(k + 1).last() == post@);
        }
        let mut added = false;
        if let Some(parent) = &post.reply_parent {
            if node_position(&nodes, parent.as_str()).is_some() {
                add_child(&mut children, parent.as_str(), Child { uri: post.uri.as_str(), kind: EdgeKind::Reply });
                added = true;
                proof {
                    assert(has_key(ev, parent@));
                    assert forall|u: Seq<char>| #[trigger] kids_in(children@, u) == nb_reply_kids(vals.take(k + 1), ev, u) by {
                        assert(kids_in(before, u) == nb_reply_kids(vals.take(k as int), ev, u));
                    }
                }
            }
        }
        if !added {
            proof {
                assert forall|u: Seq<char>| #[trigger] kids_in(children@, u) == nb_reply_kids(vals.take(k + 1), ev, u) by {
                    assert(kids_in(before, u) == nb_reply_kids(vals.take(k as int), ev, u));
                }
            }
        }
        k += 1;
    }
    proof {
        assert(vals.take(nn as int) =~= vals);
    }
    let edges = web.edges();
    let ghost qe = web@.quote_edges;
    let ne = edges.len();
    let mut j: usize = 0;
    proof {
        assert forall|u: Seq<char>| #[trigger] kids_in(children@, u) == nb_reply_kids(vals, ev, u) + nb_quote_kids(qe.take(0), ev, u) by {
            assert(qe.take(0).len() == 0);
            assert(nb_reply_kids(vals, ev, u) + nb_quote_kids(qe.take(0), ev, u) =~= nb_reply_kids(vals, ev, u));
        }
    }
    while j < ne
        invariant
            ne == edges@.len(),
            crate::model::edges_view(edges@) == qe,
            qe == web@.quote_edges,
            ev == entries_of(nodes@),
            vals == entry_values(ev),
            j <= ne,
            forall|u: Seq<char>| #[trigger] kids_in(children@, u) == nb_reply_kids(vals, ev, u) + nb_quote_kids(qe.take(j as int), ev, u),
        decreases ne - j,
    {
        let e = &edges[j];
        let ghost before = children@;
        proof {
            assert(qe.take(j + 1).drop_last() =~= qe.take(j as int));
            assert(qe.take(j + 1).last() == e@);
        }
        if node_position(&nodes, e.source.as_str()).is_some() && node_position(&nodes, e.target.as_str()).is_some() {
            add_child(&mut children, e.source.as_str(), Child { uri: e.target.as_str(), kind: EdgeKind::Quote });
            proof {
                assert(has_key(ev, e.source@));
                assert(has_key(ev, e.target@));
                assert forall|u: Seq<char>| #[trigger] kids_in(children@, u) == nb_reply_kids(vals, ev, u) + nb_quote_kids(qe.take(j + 1), ev, u) by {
                    assert(kids_in(before, u) == nb_reply_kids(vals, ev, u) + nb_quote_kids(qe.take(j as int), ev, u));
                    if u == e.source@ {
                        assert(nb_reply_kids(vals, ev, u) + nb_quote_kids(qe.take(j + 1), ev, u) =~= (nb_reply_kids(vals, ev, u) + nb_quote_kids(qe.take(j as int), ev, u)).push((e.target@, EdgeKind::Quote)));
                    }
                }
            }
        } else {
            proof {
                assert forall|u: Seq<char>| #[trigger] kids_in(children@, u) == nb_reply_kids(vals, ev, u) + nb_quote_kids(qe.take(j + 1), ev, u) by {
                    assert(kids_in(before, u) == nb_reply_kids(vals, ev, u) + nb_quote_kids(qe.take(j as int), ev, u));
                }
            }
        }
        j += 1;
    }
    proof {
        assert(qe.take(ne as int) =~= qe);
        assert forall|u: Seq<char>| #[trigger] kids_in(children@, u) == nb_kids(web@, ev, u) by {
            assert(kids_in(children@, u) == nb_reply_kids(vals, ev, u) + nb_quote_kids(qe.take(ne as int), ev, u));
        }
    }
    let mut lines: Vec<String> = Vec::new();
    let mut head = String::from_str("=== NEIGHBORHOOD (");
    let h = dec(hops);
    head.append(h.as_str());
    head.append(" hops from target) ===");
    let ghost l0 = head@;
    lines.push(head);
    let mut counts = String::from_str("Posts: ");
    let a = thousands(nodes.len());
    counts.append(a.as_str());
    counts.append(" of ");
    let b = thousands(web.node_count());
    counts.append(b.as_str());
    counts.append(" | Threads: ");
    let c = thousands(included.len());
    counts.append(c.as_str());
    counts.append(" of ");
    let d = thousands(web.thread_count());
    counts.append(d.as_str());
    let ghost l1 = counts@;
    lines.push(counts);
    lines.push(String::new());
    proof {
        assert(strings_of(lines@) =~= nb_head(web@, ev, inc, hops as nat));
    }
    let tree_root = find_tree_root(web);
    let start = if node_position(&nodes, tree_root).is_some() {
        tree_root
    } else {
        target_uri
    };
    proof {
        let root = spec_tree_root(web, web@.root_uri, web@.index.len());
        assert(start@ == if has_key(ev, root) {
            root
        } else {
            target
        });
    }
    let mut visited = StrSet::new();
    render_subtree(web, &nodes, &children, start, &mut visited, &mut lines);
    let ghost first = walk_done(g, walk_start(start@, Seq::empty(), nb_head(web@, ev, inc, hops as nat)));
    let mut k: usize = 0;
    while k < nn
        invariant
            nn == nodes@.len(),
            ev == entries_of(nodes@),
            g == nbhd_graph(web@, ev),
            distinct_keys(ev),
            forall|u: Seq<char>| #[trigger] kids_in(children@, u) == nb_kids(web@, ev, u),
            k <= nn,
            visited@.no_duplicates(),
            forall|x: int| 0 <= x < visited@.len() ==> node_keys(nodes@).contains(#[trigger] visited@[x]),
            visited@ == sweep(g, first, entry_keys(ev), k as nat).visited,
            strings_of(lines@) == sweep(g, first, entry_keys(ev), k as nat).lines,
            forall|x: int| 0 <= x < k ==> visited@.contains(#[trigger] ev[x].0),
        decreases nn - k,
    {
        let key = nodes[k].0;
        proof {
            assert(entry_keys(ev)[k as int] == key@);
        }
        if !visited.contains(key) {
            let ghost lb = strings_of(lines@);
            let ghost vb = visited@;
            lines.push(String::from_str("---"));
            proof {
                assert(strings_of(lines@) =~= lb.push("---"@));
            }
            render_subtree(web, &nodes, &children, key, &mut visited, &mut lines);
            proof {
                lemma_found(nodes@, k as int);
                assert forall|x: int| 0 <= x < k implies visited@.contains(#[trigger] ev[x].0) by {
                    let w = choose|w: int| 0 <= w < vb.len() && vb[w] == ev[x].0;
                    assert(visited@[w] == vb[w]);
                }
            }
        }
        k += 1;
    }
    proof {
        assert(target == nbhd_target(web@, crate::lens::timeline::opt_str_view(uri)));
        assert(strings_of(lines@) == nbhd_lines(web, target, hops as nat, dv));
    }
    let r = finish_lines(&lines);
    proof {
        assert(is_hop_distances(web@.quote_edges, lookup(web@.index, target)->0, dv));
        assert(nbhd_nodes(web, hops as nat, dv) == ev);
    }
    r
}

} // verus!
