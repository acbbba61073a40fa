//! Graph views of a web shared by the lenses: reply children, quote counts,
//! thread hop distances, and the root of the reply tree.
use vstd::prelude::*;
use vstd::string::*;

use crate::model::{edges_view, web_posts, ContextWeb, EdgeModel, PostModel};
use crate::ordered_map::{has_key, insert_entry, key_pos, lemma_key_pos, lookup, first_key_at};
use crate::strings::str_eq;

verus! {

/// The root of the reply tree reached from `uri` by following reply
/// parents present in the web, at most `fuel` steps.
pub open spec fn spec_tree_root(web: &ContextWeb, uri: Seq<char>, fuel: nat) -> Seq<char>
    decreases fuel,
{
    if fuel == 0 {
        uri
    } else {
        match web.post_at(uri) {
            Some(p) => match p.reply_parent {
                Some(parent) => if has_key(web@.index, parent) {
                    spec_tree_root(web, parent, (fuel - 1) as nat)
                } else {
                    uri
                },
                None => uri,
            },
            None => uri,
        }
    }
}

/// Walks up reply parents from the web's root to the earliest ancestor
/// present in the web. A reply chain cannot be longer than the web, so the
/// walk takes at most one step per post.
pub fn find_tree_root(web: &ContextWeb) -> (r: &str)
    ensures
        r@ == spec_tree_root(web, web@.root_uri, web@.index.len()),
{
    let mut uri: &str = web.root();
    let mut fuel: usize = web.node_count();
    let mut done = false;
    while fuel > 0 && !done
        invariant
            spec_tree_root(web, web@.root_uri, web@.index.len()) == if done {
                uri@
            } else {
                spec_tree_root(web, uri@, fuel as nat)
            },
        decreases fuel,
    {
        match web.get_post(uri) {
            Some(post) => match &post.reply_parent {
                Some(parent) => {
                    if web.has_post(parent.as_str()) {
                        uri = parent.as_str();
                        fuel -= 1;
                    } else {
                        done = true;
                        fuel = 0;
                    }
                },
                None => {
                    done = true;
                    fuel = 0;
                },
            },
            None => {
                done = true;
                fuel = 0;
            },
        }
    }
    uri
}

/// Parent URI to the URIs of its replies, parents in order of first reply.
pub open spec fn spec_children(s: Seq<PostModel>) -> Seq<(Seq<char>, Seq<Seq<char>>)>
    decreases s.len(),
{
    if s.len() == 0 {
        Seq::<(Seq<char>, Seq<Seq<char>>)>::empty()
    } else {
        let r = spec_children(s.drop_last());
        let p = s.last();
        match p.reply_parent {
            Some(parent) => if has_key(r, parent) {
                let k = key_pos(r, parent);
                r.update(k, (parent, r[k].1.push(p.uri)))
            } else {
                r.push((parent, seq![p.uri]))
            },
            None => r,
        }
    }
}

/// The URIs of the posts of `s` replying to `u`, in order.
pub open spec fn replies_to(s: Seq<PostModel>, u: Seq<char>) -> Seq<Seq<char>> {
    s.filter(|p: PostModel| p.reply_parent == Some(u)).map_values(|p: PostModel| p.uri)
}

/// The children listed for a post are exactly the posts replying to it,
/// in their order; a post nothing replies to is not listed.
pub proof fn lemma_children_exact(s: Seq<PostModel>, u: Seq<char>)
    ensures
        lookup(spec_children(s), u) == if replies_to(s, u).len() == 0 {
            None
        } else {
            Some(replies_to(s, u))
        },
    decreases s.len(),
{
    if s.len() > 0 {
        let init = s.drop_last();
        let p = s.last();
        let r = spec_children(init);
        let pred = |q: PostModel| q.reply_parent == Some(u);
        lemma_children_exact(init, u);
        assert(s =~= init.push(p));
        init.lemma_filter_push(p, pred);
        let fi = init.filter(pred);
        assert(fi.push(p).map_values(|q: PostModel| q.uri) =~= fi.map_values(|q: PostModel| q.uri).push(p.uri));
        match p.reply_parent {
            Some(parent) => {
                lemma_children_exact(init, parent);
                let v = if has_key(r, parent) {
                    r[key_pos(r, parent)].1.push(p.uri)
                } else {
                    seq![p.uri]
                };
                assert(spec_children(s) == insert_entry(r, parent, v));
                if has_key(r, parent) {
                    lemma_key_pos(r, parent);
                }
                crate::model::lemma_lookup_insert(r, parent, v, u);
                if parent == u && !has_key(r, parent) {
                    assert(replies_to(init, u) =~= Seq::<Seq<char>>::empty());
                    assert(v =~= replies_to(init, u).push(p.uri));
                }
            },
            None => {},
        }
    }
}

/// The abstract value of a list of parents with their children.
pub open spec fn children_view(v: Seq<(&str, Vec<&str>)>) -> Seq<(Seq<char>, Seq<Seq<char>>)> {
    v.map_values(|e: (&str, Vec<&str>)| (e.0@, e.1@.map_values(|u: &str| u@)))
}

/// Maps parent URI to the URIs of its replies, in web order.
pub fn build_children(web: &ContextWeb) -> (r: Vec<(&str, Vec<&str>)>)
    ensures
        children_view(r@) == spec_children(web_posts(web@.threads)),
{
    let posts = web.iter_posts();
    let ghost all = web_posts(web@.threads);
    let mut out: Vec<(&str, Vec<&str>)> = Vec::new();
    let n = posts.len();
    let mut i: usize = 0;
    while i < n
        invariant
            n == posts@.len(),
            n == all.len(),
            forall|k: int| 0 <= k < n ==> (#[trigger] posts@[k])@ == all[k],
            i <= n,
            children_view(out@) == spec_children(all.take(i as int)),
        decreases n - i,
    {
        let p = posts[i];
        proof {
            assert(all.take(i + 1).drop_last() =~= all.take(i as int));
            assert(all.take(i + 1).last() == p@);
        }
        if let Some(parent) = &p.reply_parent {
            let ghost e = children_view(out@);
            let m = out.len();
            let mut j: usize = 0;
            let mut found: Option<usize> = None;
            while j < m && found.is_none()
                invariant
                    m == out@.len(),
                    e == children_view(out@),
                    j <= m,
                    match found {
                        Some(f) => f < m && first_key_at(e, parent@, f as int),
                        None => forall|k: int| 0 <= k < j ==> (#[trigger] e[k]).0 != parent@,
                    },
                decreases m - j,
            {
                if str_eq(out[j].0, parent.as_str()) {
                    found = Some(j);
                }
                j += 1;
            }
            match found {
                Some(f) => {
                    proof {
                        lemma_key_pos(e, parent@);
                        let q = key_pos(e, parent@);
                        if q < f {
                            assert(e[q].0 != parent@);
                        }
                        if f < q {
                            assert(e[f as int].0 != parent@);
                        }
                    }
                    let key = out[f].0;
                    let mut kids: Vec<&str> = Vec::new();
                    let nk = out[f].1.len();
                    let mut k: usize = 0;
                    while k < nk
                        invariant
                            f < out@.len(),
                            nk == out@[f as int].1@.len(),
                            k <= nk,
                            kids@.len() == k,
                            forall|x: int| 0 <= x < k ==> kids@[x] == out@[f as int].1@[x],
                        decreases nk - k,
                    {
                        kids.push(out[f].1[k]);
                        k += 1;
                    }
                    kids.push(p.uri.as_str());
                    let ghost before = out@;
                    out.set(f, (key, kids));
                    proof {
                        assert(kids@.map_values(|u: &str| u@) =~= before[f as int].1@.map_values(|u: &str| u@).push(p@.uri));
                        assert(children_view(out@) =~= e.update(f as int, (parent@, e[f as int].1.push(p@.uri))));
                    }
                },
                None => {
                    proof {
                        assert(!has_key(e, parent@));
                    }
                    let mut kids: Vec<&str> = Vec::new();
                    kids.push(p.uri.as_str());
                    let ghost before = out@;
                    out.push((parent.as_str(), kids));
                    proof {
                        assert(kids@.map_values(|u: &str| u@) =~= seq![p@.uri]);
                        assert(children_view(out@) =~= e.push((parent@, seq![p@.uri])));
                    }
                },
            }
        }
        i += 1;
    }
    proof {
        assert(all.take(n as int) =~= all);
    }
    out
}

/// Source URI to the number of edges quoting it, sources in order of
/// first appearance.
pub open spec fn spec_quote_counts(edges: Seq<EdgeModel>) -> Seq<(Seq<char>, nat)>
    decreases edges.len(),
{
    if edges.len() == 0 {
        Seq::<(Seq<char>, nat)>::empty()
    } else {
        let r = spec_quote_counts(edges.drop_last());
        let s = edges.last().source;
        if has_key(r, s) {
            let k = key_pos(r, s);
            r.update(k, (s, r[k].1 + 1))
        } else {
            r.push((s, 1nat))
        }
    }
}

/// The number of edges whose source is `s`.
pub open spec fn edges_from(edges: Seq<EdgeModel>, s: Seq<char>) -> nat {
    edges.filter(|e: EdgeModel| e.source == s).len()
}

/// Each post's quote count is the number of quote edges whose source is
/// that post; a post no edge starts at has no count.
pub proof fn lemma_quote_counts_exact(edges: Seq<EdgeModel>, s: Seq<char>)
    ensures
        lookup(spec_quote_counts(edges), s) == if edges_from(edges, s) == 0 {
            None
        } else {
            Some(edges_from(edges, s))
        },
    decreases edges.len(),
{
    if edges.len() > 0 {
        let init = edges.drop_last();
        let src = edges.last().source;
        let r = spec_quote_counts(init);
        lemma_quote_counts_exact(init, s);
        lemma_quote_counts_exact(init, src);
        assert(edges =~= init.push(edges.last()));
        init.lemma_filter_push(edges.last(), |e: EdgeModel| e.source == s);
        init.lemma_filter_push(edges.last(), |e: EdgeModel| e.source == src);
        let v: nat = if has_key(r, src) {
            r[key_pos(r, src)].1 + 1
        } else {
            1
        };
        assert(spec_quote_counts(edges) == insert_entry(r, src, v));
        if has_key(r, src) {
            lemma_key_pos(r, src);
        }
        crate::model::lemma_lookup_insert(r, src, v, s);
    }
}

/// The abstract value of a list of counts.
pub open spec fn counts_view(v: Seq<(&str, usize)>) -> Seq<(Seq<char>, nat)> {
    v.map_values(|e: (&str, usize)| (e.0@, e.1 as nat))
}

/// Every count is at most `n`.
pub open spec fn counts_below(v: Seq<(Seq<char>, nat)>, n: nat) -> bool {
    forall|i: int| 0 <= i < v.len() ==> (#[trigger] v[i]).1 <= n
}

/// Maps source URI to the number of posts quoting it.
pub fn build_quotes_received(web: &ContextWeb) -> (r: Vec<(&str, usize)>)
    ensures
        counts_view(r@) == spec_quote_counts(web@.quote_edges),
{
    let edges = web.edges();
    let ghost ev = web@.quote_edges;
    let mut out: Vec<(&str, usize)> = Vec::new();
    let n = edges.len();
    let mut i: usize = 0;
    while i < n
        invariant
            n == edges@.len(),
            edges_view(edges@) == ev,
            i <= n,
            counts_view(out@) == spec_quote_counts(ev.take(i as int)),
            counts_below(counts_view(out@), i as nat),
        decreases n - i,
    {
        let src = edges[i].source.as_str();
        proof {
            assert(ev.take(i + 1).drop_last() =~= ev.take(i as int));
            assert(ev.take(i + 1).last() == edges@[i as int]@);
        }
        let ghost e = counts_view(out@);
        let m = out.len();
        let mut j: usize = 0;
        let mut found: Option<usize> = None;
        while j < m && found.is_none()
            invariant
                m == out@.len(),
                e == counts_view(out@),
                j <= m,
                match found {
                    Some(f) => f < m && first_key_at(e, src@, f as int),
                    None => forall|k: int| 0 <= k < j ==> (#[trigger] e[k]).0 != src@,
                },
            decreases m - j,
        {
            if str_eq(out[j].0, src) {
                found = Some(j);
            }
            j += 1;
        }
        match found {
            Some(f) => {
                proof {
                    lemma_key_pos(e, src@);
                    let q = key_pos(e, src@);
                    if q < f {
                        assert(e[q].0 != src@);
                    }
                    if f < q {
                        assert(e[f as int].0 != src@);
                    }
                    assert(e[f as int].1 <= i);
                }
                let key = out[f].0;
                let c = out[f].1 + 1;
                out.set(f, (key, c));
                proof {
                    assert(counts_view(out@) =~= e.update(f as int, (src@, e[f as int].1 + 1)));
                }
            },
            None => {
                proof {
                    assert(!has_key(e, src@));
                }
                out.push((src, 1));
                proof {
                    assert(counts_view(out@) =~= e.push((src@, 1nat)));
                }
            },
        }
        i += 1;
    }
    proof {
        assert(ev.take(n as int) =~= ev);
    }
    out
}

/// Edge `e` joins threads `a` and `b`, in either direction.
pub open spec fn joins(e: EdgeModel, a: Seq<char>, b: Seq<char>) -> bool {
    (e.source_thread == a && e.target_thread == b) || (e.target_thread == a && e.source_thread == b)
}

/// Some edge joins threads `a` and `b`.
pub open spec fn linked(edges: Seq<EdgeModel>, a: Seq<char>, b: Seq<char>) -> bool {
    exists|j: int| 0 <= j < edges.len() && #[trigger] joins(edges[j], a, b)
}

/// Thread `t` has a distance of at most `d`.
pub open spec fn reached(dist: Seq<(Seq<char>, usize)>, t: Seq<char>, d: int) -> bool {
    exists|q: int| 0 <= q < dist.len() && (#[trigger] dist[q]).0 == t && dist[q].1 <= d
}

/// The threads named in a distance list.
pub open spec fn dist_keys(dist: Seq<(Seq<char>, usize)>) -> Seq<Seq<char>> {
    dist.map_values(|x: (Seq<char>, usize)| x.0)
}

/// Every thread an edge names, source then target, edge by edge.
pub open spec fn endpoints(edges: Seq<EdgeModel>) -> Seq<Seq<char>> {
    Seq::new(
        2 * edges.len(),
        |i: int|
            if i % 2 == 0 {
                edges[i / 2].source_thread
            } else {
                edges[i / 2].target_thread
            },
    )
}

/// The abstract value of a distance list.
pub open spec fn dist_view(v: Seq<(String, usize)>) -> Seq<(Seq<char>, usize)> {
    v.map_values(|x: (String, usize)| (x.0@, x.1))
}

/// A list of distinct names drawn from `names` is no longer than `names`.
pub proof fn lemma_keys_bound(keys: Seq<Seq<char>>, names: Seq<Seq<char>>)
    requires
        keys.no_duplicates(),
        forall|i: int| 0 <= i < keys.len() ==> names.contains(#[trigger] keys[i]),
    ensures
        keys.len() <= names.len(),
{
    keys.unique_seq_to_set();
    names.lemma_cardinality_of_set();
    assert(keys.to_set().subset_of(names.to_set())) by {
        assert forall|x: Seq<char>| keys.to_set().contains(x) implies names.to_set().contains(x) by {
            let i = choose|i: int| 0 <= i < keys.len() && keys[i] == x;
            assert(names.contains(keys[i]));
        }
    }
    vstd::set_lib::lemma_len_subset(keys.to_set(), names.to_set());
}

/// Pushing an entry keeps every thread reached.
pub proof fn lemma_reached_push(dist: Seq<(Seq<char>, usize)>, x: (Seq<char>, usize))
    ensures
        forall|t: Seq<char>, d: int| reached(dist, t, d) ==> #[trigger] reached(dist.push(x), t, d),
{
    assert forall|t: Seq<char>, d: int| reached(dist, t, d) implies #[trigger] reached(dist.push(x), t, d) by {
        let q = choose|q: int| 0 <= q < dist.len() && (#[trigger] dist[q]).0 == t && dist[q].1 <= d;
        assert(dist.push(x)[q] == dist[q]);
    }
}

/// The position of thread `k` in a distance list.
fn dist_position(dist: &Vec<(String, usize)>, k: &str) -> (r: Option<usize>)
    ensures
        match r {
            Some(i) => i < dist@.len() && dist@[i as int].0@ == k@,
            None => forall|i: int| 0 <= i < dist@.len() ==> (#[trigger] dist@[i]).0@ != k@,
        },
{
    let n = dist.len();
    let mut i: usize = 0;
    while i < n
        invariant
            n == dist@.len(),
            i <= n,
            forall|q: int| 0 <= q < i ==> (#[trigger] dist@[q]).0@ != k@,
        decreases n - i,
    {
        if str_eq(dist[i].0.as_str(), k) {
            return Some(i);
        }
        i += 1;
    }
    None
}

/// Adds thread `name` at distance `d` unless it has a distance already.
fn visit(dist: &mut Vec<(String, usize)>, name: &str, d: usize)
    ensures
        if dist_keys(dist_view(old(dist)@)).contains(name@) {
            dist_view(final(dist)@) == dist_view(old(dist)@)
        } else {
            dist_view(final(dist)@) == dist_view(old(dist)@).push((name@, d))
        },
{
    match dist_position(dist, name) {
        Some(i) => {
            proof {
                assert(dist_keys(dist_view(dist@))[i as int] == name@);
            }
        },
        None => {
            let ghost before = dist@;
            dist.push((String::from_str(name), d));
            proof {
                assert(dist_view(dist@) =~= dist_view(before).push((name@, d)));
                assert forall|q: int| 0 <= q < before.len() implies dist_keys(dist_view(before))[q] != name@ by {
                    assert(before[q].0@ != name@);
                }
            }
        },
    }
}

/// Every entry after the first is one hop further than an earlier entry
/// it shares an edge with.
#[verifier::opaque]
pub open spec fn bfs_parents(dist: Seq<(Seq<char>, usize)>, edges: Seq<EdgeModel>) -> bool {
    forall|q: int| 1 <= q < dist.len() ==> #[trigger] has_parent(dist, edges, q)
}

/// Entry `q` is one hop further than an earlier entry it shares an edge with.
pub open spec fn has_parent(dist: Seq<(Seq<char>, usize)>, edges: Seq<EdgeModel>, q: int) -> bool {
    exists|a: int| 0 <= a < q && #[trigger] linked(edges, dist[a].0, dist[q].0) && dist[q].1 == dist[a].1 + 1
}

/// Every edge of every entry before `done` reaches its far end within one
/// more hop.
#[verifier::opaque]
pub open spec fn bfs_closed(dist: Seq<(Seq<char>, usize)>, edges: Seq<EdgeModel>, done: int) -> bool {
    forall|a: int, j: int|
        0 <= a < done && 0 <= j < edges.len() ==> (edges[j].source_thread == (#[trigger] dist[a]).0 ==> reached(
            dist,
            (#[trigger] edges[j]).target_thread,
            dist[a].1 + 1,
        )) && (edges[j].target_thread == dist[a].0 ==> reached(dist, edges[j].source_thread, dist[a].1 + 1))
}

/// The breadth-first invariant of a distance list over `edges` from
/// `start`, with every entry before `done` expanded.
#[verifier::opaque]
pub open spec fn bfs_inv(
    dist: Seq<(Seq<char>, usize)>,
    edges: Seq<EdgeModel>,
    start: Seq<char>,
    done: int,
) -> bool {
    &&& dist.len() >= 1
    &&& dist[0] == (start, 0usize)
    &&& dist_keys(dist).no_duplicates()
    &&& forall|q: int| 0 <= q < dist.len() ==> (#[trigger] dist[q]).1 <= q
    &&& forall|a: int, b: int| 0 <= a <= b < dist.len() ==> (#[trigger] dist[a]).1 <= (#[trigger] dist[b]).1
    &&& bfs_parents(dist, edges)
    &&& bfs_closed(dist, edges, done)
}

/// `a` is a prefix of `b`.
pub open spec fn seq_prefix_dist(a: Seq<(Seq<char>, usize)>, b: Seq<(Seq<char>, usize)>) -> bool {
    a.len() <= b.len() && forall|q: int| 0 <= q < a.len() ==> #[trigger] b[q] == a[q]
}

/// Appending a thread one hop beyond an entry it shares an edge with keeps
/// every entry's parent.
pub proof fn lemma_parents_push(
    before: Seq<(Seq<char>, usize)>,
    edges: Seq<EdgeModel>,
    x: (Seq<char>, usize),
    p: int,
    j: int,
)
    requires
        bfs_parents(before, edges),
        0 <= p < before.len(),
        0 <= j < edges.len(),
        joins(edges[j], before[p].0, x.0),
        x.1 == before[p].1 + 1,
    ensures
        bfs_parents(before.push(x), edges),
{
    reveal(bfs_parents);
    let after = before.push(x);
    let n = before.len() as int;
    assert forall|q: int| 1 <= q < after.len() implies #[trigger] has_parent(after, edges, q) by {
        if q == n {
            assert(after[p] == before[p]);
            assert(joins(edges[j], after[p].0, after[q].0));
            assert(linked(edges, after[p].0, after[q].0));
        } else {
            assert(has_parent(before, edges, q));
            assert(after[q] == before[q]);
            let a = choose|a: int| 0 <= a < q && #[trigger] linked(edges, before[a].0, before[q].0)
                && before[q].1 == before[a].1 + 1;
            assert(after[a] == before[a]);
            assert(linked(edges, after[a].0, after[q].0));
        }
    }
}

/// Appending an entry keeps every expanded entry's edges reached.
pub proof fn lemma_closed_push(
    before: Seq<(Seq<char>, usize)>,
    edges: Seq<EdgeModel>,
    x: (Seq<char>, usize),
    done: int,
)
    requires
        bfs_closed(before, edges, done),
        0 <= done <= before.len(),
    ensures
        bfs_closed(before.push(x), edges, done),
{
    reveal(bfs_closed);
    let after = before.push(x);
    lemma_reached_push(before, x);
    assert forall|a: int, jj: int|
        0 <= a < done && 0 <= jj < edges.len() implies (edges[jj].source_thread == (#[trigger] after[a]).0 ==> reached(
            after,
            (#[trigger] edges[jj]).target_thread,
            after[a].1 + 1,
        )) && (edges[jj].target_thread == after[a].0 ==> reached(after, edges[jj].source_thread, after[a].1 + 1)) by {
        assert(after[a] == before[a]);
        assert(before[a] == before[a]);
        assert(edges[jj] == edges[jj]);
    }
}

/// Visiting the far end of an edge of the thread being expanded keeps the
/// breadth-first invariant and reaches that end within one more hop.
pub proof fn lemma_bfs_step(
    before: Seq<(Seq<char>, usize)>,
    after: Seq<(Seq<char>, usize)>,
    edges: Seq<EdgeModel>,
    start: Seq<char>,
    p: int,
    j: int,
    t: Seq<char>,
    d: usize,
    name: Seq<char>,
    names: Seq<Seq<char>>,
)
    requires
        bfs_inv(before, edges, start, p),
        0 <= p < before.len(),
        before[p] == (t, d),
        d <= p,
        d + 1 <= usize::MAX,
        forall|q: int| 0 <= q < before.len() ==> (#[trigger] before[q]).1 <= d + 1,
        forall|q: int| 0 <= q < before.len() ==> names.contains(#[trigger] dist_keys(before)[q]),
        names.contains(name),
        0 <= j < edges.len(),
        joins(edges[j], t, name),
        if dist_keys(before).contains(name) {
            after == before
        } else {
            after == before.push((name, (d + 1) as usize))
        },
    ensures
        bfs_inv(after, edges, start, p),
        forall|q: int| 0 <= q < after.len() ==> (#[trigger] after[q]).1 <= d + 1,
        forall|q: int| 0 <= q < after.len() ==> names.contains(#[trigger] dist_keys(after)[q]),
        seq_prefix_dist(before, after),
        reached(after, name, d + 1),
        forall|t2: Seq<char>, d2: int| reached(before, t2, d2) ==> #[trigger] reached(after, t2, d2),
{
    if dist_keys(before).contains(name) {
        let q = choose|q: int| 0 <= q < dist_keys(before).len() && dist_keys(before)[q] == name;
        assert(before[q].0 == name);
    } else {
        reveal(bfs_inv);
        let x = (name, (d + 1) as usize);
        lemma_reached_push(before, x);
        lemma_parents_push(before, edges, x, p, j);
        lemma_closed_push(before, edges, x, p);
        let n = before.len() as int;
        assert(after[n] == x);
        assert(dist_keys(after) =~= dist_keys(before).push(name));
        assert(dist_keys(after).no_duplicates()) by {
            assert forall|a: int, b: int| 0 <= a < b < dist_keys(after).len() implies dist_keys(after)[a] != dist_keys(after)[b] by {
                if b == n {
                    assert(dist_keys(before)[a] == dist_keys(after)[a]);
                }
            }
        }
        assert forall|q: int| 0 <= q < after.len() implies names.contains(#[trigger] dist_keys(after)[q]) by {
            if q < n {
                assert(dist_keys(after)[q] == dist_keys(before)[q]);
            }
        }
        assert(reached(after, name, d + 1)) by {
            assert(after[n].0 == name);
        }
    }
}

/// A distance list holding only the start satisfies the invariant.
pub proof fn lemma_bfs_start(dv: Seq<(Seq<char>, usize)>, edges: Seq<EdgeModel>, start: Seq<char>)
    requires
        dv == seq![(start, 0usize)],
    ensures
        bfs_inv(dv, edges, start, 0),
{
    reveal(bfs_inv);
    reveal(bfs_parents);
    reveal(bfs_closed);
    assert(dist_keys(dv) =~= seq![start]);
}

/// Facts of the invariant the expansion loop uses.
pub proof fn lemma_bfs_facts(dv: Seq<(Seq<char>, usize)>, edges: Seq<EdgeModel>, start: Seq<char>, p: int)
    requires
        bfs_inv(dv, edges, start, p),
        0 <= p < dv.len(),
    ensures
        dv[p].1 <= p,
{
    reveal(bfs_inv);
}

/// Once every edge of entry `p` reaches its far end within one more hop,
/// entry `p` counts as expanded.
pub proof fn lemma_bfs_advance(dv: Seq<(Seq<char>, usize)>, edges: Seq<EdgeModel>, start: Seq<char>, p: int)
    requires
        bfs_inv(dv, edges, start, p),
        0 <= p < dv.len(),
        forall|q: int| 0 <= q < dv.len() ==> (#[trigger] dv[q]).1 <= dv[p].1 + 1,
        forall|k: int|
            0 <= k < edges.len() ==> (edges[k].source_thread == dv[p].0 ==> reached(
                dv,
                (#[trigger] edges[k]).target_thread,
                dv[p].1 + 1,
            )) && (edges[k].target_thread == dv[p].0 ==> reached(dv, edges[k].source_thread, dv[p].1 + 1)),
    ensures
        bfs_inv(dv, edges, start, p + 1),
        p + 1 < dv.len() ==> forall|q: int| 0 <= q < dv.len() ==> (#[trigger] dv[q]).1 <= dv[p + 1].1 + 1,
{
    reveal(bfs_inv);
    reveal(bfs_closed);
    assert forall|a: int, j: int|
        0 <= a < p + 1 && 0 <= j < edges.len() implies (edges[j].source_thread == (#[trigger] dv[a]).0 ==> reached(
            dv,
            (#[trigger] edges[j]).target_thread,
            dv[a].1 + 1,
        )) && (edges[j].target_thread == dv[a].0 ==> reached(dv, edges[j].source_thread, dv[a].1 + 1)) by {
        if a == p {
            assert(edges[j] == edges[j]);
        }
    }
    if p + 1 < dv.len() {
        assert(dv[p].1 <= dv[p + 1].1);
    }
}

/// `dv` lists every thread reachable from `start` over quote edges, taken
/// as undirected, with its hop distance: the start comes first at distance
/// 0; every other thread's distance is one more than that of a thread it
/// shares an edge with, listed before it; and no edge leaves a listed
/// thread for one more than a hop further away. Those facts make every
/// distance the length of a shortest quote path.
pub open spec fn is_hop_distances(edges: Seq<EdgeModel>, start: Seq<char>, dv: Seq<(Seq<char>, usize)>) -> bool {
    &&& dv.len() >= 1
    &&& dv[0] == (start, 0usize)
    &&& dist_keys(dv).no_duplicates()
    &&& forall|q: int| 1 <= q < dv.len() ==> #[trigger] has_parent(dv, edges, q)
    &&& forall|a: int, j: int|
        0 <= a < dv.len() && 0 <= j < edges.len() ==> (edges[j].source_thread == (#[trigger] dv[a]).0 ==> reached(
            dv,
            (#[trigger] edges[j]).target_thread,
            dv[a].1 + 1,
        )) && (edges[j].target_thread == dv[a].0 ==> reached(dv, edges[j].source_thread, dv[a].1 + 1))
}

/// Breadth-first hop distance of every thread from `start_thread`, over
/// quote edges treated as undirected, as [`is_hop_distances`] states.
pub fn thread_hop_distances(web: &ContextWeb, start_thread: &str) -> (r: Vec<(String, usize)>)
    ensures
        is_hop_distances(web@.quote_edges, start_thread@, dist_view(r@)),
{
    let edges = web.edges();
    let ghost ev = web@.quote_edges;
    let ghost names = seq![start_thread@] + endpoints(ev);
    let mut dist: Vec<(String, usize)> = Vec::new();
    dist.push((String::from_str(start_thread), 0));
    proof {
        let dv = dist_view(dist@);
        assert(dv =~= seq![(start_thread@, 0usize)]);
        assert(dist_keys(dv) =~= seq![start_thread@]);
        assert(names[0] == start_thread@);
        lemma_bfs_start(dv, ev, start_thread@);
    }
    let ne = edges.len();
    let mut p: usize = 0;
    while p < dist.len()
        invariant
            ne == edges@.len(),
            edges_view(edges@) == ev,
            ev == web@.quote_edges,
            names == seq![start_thread@] + endpoints(ev),
            p <= dist@.len(),
            dist@.len() <= names.len(),
            bfs_inv(dist_view(dist@), ev, start_thread@, p as int),
            p < dist@.len() ==> forall|q: int| 0 <= q < dist@.len() ==> (#[trigger] dist_view(dist@)[q]).1 <= dist_view(dist@)[p as int].1 + 1,
            forall|q: int| 0 <= q < dist@.len() ==> names.contains(#[trigger] dist_keys(dist_view(dist@))[q]),
        decreases names.len() - p,
    {
        let d = dist[p].1;
        let t = dist[p].0.clone();
        let ghost dp = dist_view(dist@);
        proof {
            assert(dp[p as int] == (t@, d));
            lemma_bfs_facts(dp, ev, start_thread@, p as int);
        }
        let mut j: usize = 0;
        while j < ne
            invariant
                ne == edges@.len(),
                edges_view(edges@) == ev,
                names == seq![start_thread@] + endpoints(ev),
                p < dist@.len(),
                p < dist.len(),
                dist_view(dist@)[p as int] == (t@, d),
                d <= p,
                seq_prefix_dist(dp, dist_view(dist@)),
                bfs_inv(dist_view(dist@), ev, start_thread@, p as int),
                forall|q: int| 0 <= q < dist@.len() ==> (#[trigger] dist_view(dist@)[q]).1 <= d + 1,
                forall|q: int| 0 <= q < dist@.len() ==> names.contains(#[trigger] dist_keys(dist_view(dist@))[q]),
                forall|k: int|
                    0 <= k < j ==> (ev[k].source_thread == t@ ==> reached(
                        dist_view(dist@),
                        (#[trigger] ev[k]).target_thread,
                        d + 1,
                    )) && (ev[k].target_thread == t@ ==> reached(dist_view(dist@), ev[k].source_thread, d + 1)),
                j <= ne,
            decreases ne - j,
        {
            let e = &edges[j];
            proof {
                assert(edges_view(edges@)[j as int] == e@);
                assert(names[1 + 2 * j] == ev[j as int].source_thread);
                assert(names[2 + 2 * j] == ev[j as int].target_thread);
            }
            if str_eq(e.source_thread.as_str(), t.as_str()) {
                let ghost before = dist_view(dist@);
                visit(&mut dist, e.target_thread.as_str(), d + 1);
                proof {
                    lemma_bfs_step(before, dist_view(dist@), ev, start_thread@, p as int, j as int, t@, d, ev[j as int].target_thread, names);
                }
            }
            if str_eq(e.target_thread.as_str(), t.as_str()) {
                let ghost before = dist_view(dist@);
                visit(&mut dist, e.source_thread.as_str(), d + 1);
                proof {
                    lemma_bfs_step(before, dist_view(dist@), ev, start_thread@, p as int, j as int, t@, d, ev[j as int].source_thread, names);
                }
            }
            j += 1;
        }
        proof {
            let dv = dist_view(dist@);
            reveal(bfs_inv);
            lemma_keys_bound(dist_keys(dv), names);
            assert(dv[p as int] == (t@, d));
            lemma_bfs_advance(dv, ev, start_thread@, p as int);
        }
        p += 1;
    }
    proof {
        reveal(bfs_inv);
        reveal(bfs_parents);
        reveal(bfs_closed);
    }
    dist
}

} // verus!
