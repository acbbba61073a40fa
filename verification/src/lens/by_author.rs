//! The `by-author` lens: posts grouped by participant.
use vstd::prelude::*;
use vstd::string::*;

use crate::lens::fmt::{
    collect_parts, context_text, dec, find_node, finish_lines, first_node, opt_part, ordered, position_of, posts_of,
    prefixed, push_prefixed_lines, spec_context, spec_position, spec_text, strings_of,
};
use crate::lens::graph::{find_tree_root, spec_tree_root};
use crate::lens::linear::{by_time, time_ordered, times_of};
use crate::lens::order::{sort_by_text, sorted_by_text};
use crate::model::{opt_view, spec_nodes, ContextWeb, EdgeModel, Post, PostModel, WebModel};
use crate::strings::{join, spec_decimal, str_eq};
use crate::text::{author_name, join_strings, short_time, spec_author_name, spec_lines, spec_short_time};

verus! {

/// `"{verb} @{handle}"` for a post of the web.
pub open spec fn spec_mention(nodes: Seq<PostModel>, uri: Option<Seq<char>>, verb: Seq<char>) -> Option<Seq<char>> {
    match uri {
        Some(u) => match first_node(nodes, u) {
            Some(p) => Some(verb + " @"@ + p.author.handle),
            None => None,
        },
        None => None,
    }
}

/// `"{verb} @{handle}"` for a post of the web.
fn mention(nodes: &Vec<&Post>, uri: Option<&String>, verb: &str) -> (r: Option<String>)
    ensures
        opt_view(r) == spec_mention(
            posts_of(nodes@),
            match uri {
                Some(u) => Some(u@),
                None => None,
            },
            verb@,
        ),
{
    let uri = match uri {
        Some(u) => u,
        None => return None,
    };
    let post = match find_node(nodes, uri.as_str()) {
        Some(p) => p,
        None => return None,
    };
    let mut s = String::from_str(verb);
    s.append(" @");
    s.append(post.author.handle.as_str());
    Some(s)
}

/// The first group whose author has DID `did`.
pub open spec fn group_pos(groups: Seq<Seq<PostModel>>, did: Seq<char>) -> Option<int>
    decreases groups.len(),
{
    if groups.len() == 0 {
        None
    } else if groups[0][0].author.did == did {
        Some(0)
    } else {
        match group_pos(groups.drop_first(), did) {
            Some(k) => Some(k + 1),
            None => None,
        }
    }
}

/// Where the first group for a DID is, if any.
proof fn lemma_group_pos(groups: Seq<Seq<PostModel>>, did: Seq<char>, f: int)
    requires
        0 <= f <= groups.len(),
        forall|k: int| 0 <= k < f ==> (#[trigger] groups[k])[0].author.did != did,
        f < groups.len() ==> groups[f][0].author.did == did,
    ensures
        group_pos(groups, did) == if f < groups.len() {
            Some(f)
        } else {
            None::<int>
        },
    decreases f,
{
    if groups.len() > 0 && f > 0 {
        let rest = groups.drop_first();
        assert forall|k: int| 0 <= k < f - 1 implies (#[trigger] rest[k])[0].author.did != did by {
            assert(rest[k] == groups[k + 1]);
        }
        lemma_group_pos(rest, did, f - 1);
    }
}

/// A position found lies within the groups.
proof fn lemma_group_pos_range(groups: Seq<Seq<PostModel>>, did: Seq<char>)
    ensures
        group_pos(groups, did) matches Some(k) ==> 0 <= k < groups.len(),
    decreases groups.len(),
{
    if groups.len() > 0 {
        lemma_group_pos_range(groups.drop_first(), did);
    }
}

/// The posts of each author (by DID), authors in order of first post,
/// posts in their order.
pub open spec fn spec_groups(nodes: Seq<PostModel>) -> Seq<Seq<PostModel>>
    decreases nodes.len(),
{
    if nodes.len() == 0 {
        Seq::empty()
    } else {
        let rest = spec_groups(nodes.drop_last());
        let p = nodes.last();
        match group_pos(rest, p.author.did) {
            Some(k) => rest.update(k, rest[k].push(p)),
            None => rest.push(seq![p]),
        }
    }
}

/// Every group holds a post.
proof fn lemma_groups_nonempty(nodes: Seq<PostModel>)
    ensures
        forall|k: int| 0 <= k < spec_groups(nodes).len() ==> (#[trigger] spec_groups(nodes)[k]).len() > 0,
    decreases nodes.len(),
{
    if nodes.len() > 0 {
        lemma_groups_nonempty(nodes.drop_last());
        lemma_group_pos_range(spec_groups(nodes.drop_last()), nodes.last().author.did);
    }
}

/// The views of a list of lists of posts.
pub open spec fn groups_of(v: Seq<Vec<&Post>>) -> Seq<Seq<PostModel>> {
    v.map_values(|g: Vec<&Post>| posts_of(g@))
}

/// The posts of each author (by DID), authors in order of first post in
/// `nodes`, posts in `nodes` order.
fn group_by_author<'a>(nodes: &Vec<&'a Post>) -> (r: Vec<Vec<&'a Post>>)
    ensures
        groups_of(r@) == spec_groups(posts_of(nodes@)),
{
    let ghost nv = posts_of(nodes@);
    let mut groups: Vec<Vec<&'a Post>> = Vec::new();
    let n = nodes.len();
    let mut i: usize = 0;
    while i < n
        invariant
            n == nodes@.len(),
            nv == posts_of(nodes@),
            i <= n,
            groups_of(groups@) == spec_groups(nv.take(i as int)),
        decreases n - i,
    {
        let p = nodes[i];
        let ghost prev = spec_groups(nv.take(i as int));
        proof {
            lemma_groups_nonempty(nv.take(i as int));
        }
        let m = groups.len();
        let mut j: usize = 0;
        let mut found: Option<usize> = None;
        while j < m && found.is_none()
            invariant
                m == groups@.len(),
                prev == groups_of(groups@),
                forall|k: int| 0 <= k < prev.len() ==> (#[trigger] prev[k]).len() > 0,
                j <= m,
                found matches Some(f) ==> f < m && f == j - 1 && prev[f as int][0].author.did == p@.author.did,
                found is None ==> forall|k: int| 0 <= k < j ==> (#[trigger] prev[k])[0].author.did != p@.author.did,
                found matches Some(f) ==> forall|k: int|
                    0 <= k < f ==> (#[trigger] prev[k])[0].author.did != p@.author.did,
            decreases m - j,
        {
            proof {
                assert(prev[j as int] == posts_of(groups@[j as int]@));
                assert(groups@[j as int]@.len() > 0);
            }
            if str_eq(groups[j][0].author.did.as_str(), p.author.did.as_str()) {
                found = Some(j);
            }
            j += 1;
        }
        proof {
            let tk = nv.take(i + 1);
            assert(tk.drop_last() =~= nv.take(i as int));
            assert(tk.last() == p@);
        }
        match found {
            Some(f) => {
                proof {
                    lemma_group_pos(prev, p@.author.did, f as int);
                }
                let mut g: Vec<&'a Post> = Vec::new();
                let gl = groups[f].len();
                let mut k: usize = 0;
                while k < gl
                    invariant
                        f < groups@.len(),
                        gl == groups@[f as int]@.len(),
                        k <= gl,
                        g@.len() == k,
                        forall|x: int| 0 <= x < k ==> #[trigger] g@[x] == groups@[f as int]@[x],
                    decreases gl - k,
                {
                    g.push(groups[f][k]);
                    k += 1;
                }
                g.push(p);
                proof {
                    assert(posts_of(g@) =~= prev[f as int].push(p@));
                }
                let ghost before = groups@;
                groups.set(f, g);
                proof {
                    assert(groups_of(groups@) =~= prev.update(f as int, prev[f as int].push(p@)));
                }
            },
            None => {
                proof {
                    lemma_group_pos(prev, p@.author.did, m as int);
                }
                let mut g: Vec<&'a Post> = Vec::new();
                g.push(p);
                proof {
                    assert(posts_of(g@) =~= seq![p@]);
                }
                groups.push(g);
                proof {
                    assert(groups_of(groups@) =~= prev.push(seq![p@]));
                }
            },
        }
        i += 1;
    }
    proof {
        assert(nv.take(n as int) =~= nv);
    }
    groups
}

/// Whether some quote edge ends at `uri`.
pub open spec fn quoted_into(edges: Seq<EdgeModel>, uri: Seq<char>) -> bool {
    exists|j: int| 0 <= j < edges.len() && (#[trigger] edges[j]).target == uri
}

/// Whether any edge quotes into `uri`.
fn is_quote_target(web: &ContextWeb, uri: &str) -> (r: bool)
    ensures
        r == quoted_into(web@.quote_edges, uri@),
{
    let edges = web.edges();
    let n = edges.len();
    let mut i: usize = 0;
    while i < n
        invariant
            n == edges@.len(),
            crate::model::edges_view(edges@) == web@.quote_edges,
            i <= n,
            forall|j: int| 0 <= j < i ==> (#[trigger] web@.quote_edges[j]).target != uri@,
        decreases n - i,
    {
        proof {
            assert(web@.quote_edges[i as int] == edges@[i as int]@);
        }
        if str_eq(edges[i].target.as_str(), uri) {
            return true;
        }
        i += 1;
    }
    false
}

/// Whether any of the posts is quoted.
pub open spec fn any_quoted(edges: Seq<EdgeModel>, posts: Seq<PostModel>) -> bool {
    exists|k: int| 0 <= k < posts.len() && quoted_into(edges, (#[trigger] posts[k]).uri)
}

/// The DID of the author of the post the tree walks start from.
pub open spec fn root_did(web: &ContextWeb) -> Option<Seq<char>> {
    match first_node(spec_nodes(web@.threads), spec_tree_root(web, web@.root_uri, web@.index.len())) {
        Some(p) => Some(p.author.did),
        None => None,
    }
}

/// The roster line of an author, given their posts in time order.
pub open spec fn roster_line(edges: Seq<EdgeModel>, root: Option<Seq<char>>, posts: Seq<PostModel>) -> Seq<char> {
    let tags = (if root == Some(posts[0].author.did) {
        seq!["thread starter"@]
    } else {
        Seq::empty()
    }) + (if any_quoted(edges, posts) {
        seq!["via quote"@]
    } else {
        Seq::empty()
    });
    "  "@ + spec_author_name(posts[0].author) + " - "@ + spec_decimal(posts.len()) + " post"@ + (if posts.len() != 1 {
        "s"@
    } else {
        Seq::empty()
    }) + spec_context(tags)
}

/// An author's roster line is tagged "via quote" exactly when some post of
/// theirs, any one of them, is the target of a quote edge of the web; it is
/// tagged "thread starter" when they wrote the post the walks start from.
pub proof fn lemma_roster_via_quote(edges: Seq<EdgeModel>, root: Option<Seq<char>>, posts: Seq<PostModel>)
    requires
        posts.len() > 0,
    ensures
        roster_line(edges, root, posts) == "  "@ + spec_author_name(posts[0].author) + " - "@ + spec_decimal(posts.len())
            + " post"@ + (if posts.len() != 1 {
            "s"@
        } else {
            Seq::empty()
        }) + spec_context(
            (if root == Some(posts[0].author.did) {
                seq!["thread starter"@]
            } else {
                Seq::empty()
            }) + (if exists|k: int, j: int|
                0 <= k < posts.len() && 0 <= j < edges.len() && #[trigger] edges[j].target == #[trigger] posts[k].uri {
                seq!["via quote"@]
            } else {
                Seq::empty()
            }),
        ),
{
    if exists|k: int, j: int|
        0 <= k < posts.len() && 0 <= j < edges.len() && #[trigger] edges[j].target == #[trigger] posts[k].uri {
        let (k, j) = choose|k: int, j: int|
            0 <= k < posts.len() && 0 <= j < edges.len() && #[trigger] edges[j].target == #[trigger] posts[k].uri;
        assert(quoted_into(edges, posts[k].uri));
        assert(any_quoted(edges, posts));
    } else {
        assert(!any_quoted(edges, posts)) by {
            if any_quoted(edges, posts) {
                let k = choose|k: int| 0 <= k < posts.len() && quoted_into(edges, (#[trigger] posts[k]).uri);
                let j = choose|j: int| 0 <= j < edges.len() && (#[trigger] edges[j]).target == posts[k].uri;
                assert(edges[j].target == posts[k].uri);
            }
        }
    }
}

/// The roster: one line per author, in order.
pub open spec fn roster(edges: Seq<EdgeModel>, root: Option<Seq<char>>, authors: Seq<Seq<PostModel>>, n: nat) -> Seq<
    Seq<char>,
>
    decreases n,
{
    if n == 0 {
        Seq::empty()
    } else {
        roster(edges, root, authors, (n - 1) as nat).push(roster_line(edges, root, authors[n - 1]))
    }
}

/// The heading of an author's `k`-th post.
pub open spec fn author_post_head(k: nat, nodes: Seq<PostModel>, everyone: Seq<PostModel>, p: PostModel) -> Seq<char> {
    "  ["@ + spec_decimal(k) + "] (#"@ + (match spec_position(everyone, p.uri) {
        Some(g) => spec_decimal(g),
        None => "?"@,
    }) + ") "@ + spec_short_time(p.created_at) + spec_context(
        opt_part(spec_mention(nodes, p.reply_parent, "replying to"@)) + opt_part(
            spec_mention(nodes, p.embed_uri, "quoting"@),
        ),
    )
}

/// The block of an author's `k`-th post.
pub open spec fn author_post_block(k: nat, nodes: Seq<PostModel>, everyone: Seq<PostModel>, p: PostModel) -> Seq<
    Seq<char>,
> {
    seq![author_post_head(k, nodes, everyone, p)] + prefixed("    "@, spec_lines(p.text)) + seq![Seq::<char>::empty()]
}

/// The blocks of an author's first `n` posts.
pub open spec fn author_posts(nodes: Seq<PostModel>, everyone: Seq<PostModel>, posts: Seq<PostModel>, n: nat) -> Seq<
    Seq<char>,
>
    decreases n,
{
    if n == 0 {
        Seq::empty()
    } else {
        author_posts(nodes, everyone, posts, (n - 1) as nat) + author_post_block(n, nodes, everyone, posts[n - 1])
    }
}

/// An author's section: a heading with their name and a block per post.
pub open spec fn author_section(nodes: Seq<PostModel>, everyone: Seq<PostModel>, posts: Seq<PostModel>) -> Seq<
    Seq<char>,
> {
    seq!["=== "@ + spec_author_name(posts[0].author) + " ==="@] + author_posts(nodes, everyone, posts, posts.len())
}

/// The sections of the first `n` authors.
pub open spec fn sections(nodes: Seq<PostModel>, everyone: Seq<PostModel>, authors: Seq<Seq<PostModel>>, n: nat) -> Seq<
    Seq<char>,
>
    decreases n,
{
    if n == 0 {
        Seq::empty()
    } else {
        sections(nodes, everyone, authors, (n - 1) as nat) + author_section(nodes, everyone, authors[n - 1])
    }
}

/// Every line of the lens: the roster, a blank line and the sections.
pub open spec fn by_author_lines(
    edges: Seq<EdgeModel>,
    root: Option<Seq<char>>,
    nodes: Seq<PostModel>,
    everyone: Seq<PostModel>,
    authors: Seq<Seq<PostModel>>,
) -> Seq<Seq<char>> {
    seq!["=== PARTICIPANTS ("@ + spec_decimal(authors.len()) + ") ==="@] + roster(edges, root, authors, authors.len())
        + seq![Seq::<char>::empty()] + sections(nodes, everyone, authors, authors.len())
}

/// The first post time of each group.
pub open spec fn first_times(groups: Seq<Seq<PostModel>>) -> Seq<Seq<char>> {
    groups.map_values(|g: Seq<PostModel>| g[0].created_at)
}

/// How the lens orders things: `perm` sorts all posts by time, `gperms`
/// each author's posts, and `aperm` the authors by their first post.
pub open spec fn by_author_basis(
    nodes: Seq<PostModel>,
    perm: Seq<usize>,
    gperms: Seq<Seq<usize>>,
    aperm: Seq<usize>,
) -> bool {
    let groups = spec_groups(nodes);
    &&& time_ordered(nodes, perm)
    &&& gperms.len() == groups.len()
    &&& forall|i: int| 0 <= i < groups.len() ==> time_ordered(#[trigger] groups[i], gperms[i])
    &&& sorted_by_text(first_times(sorted_groups(groups, gperms)), aperm)
}

/// Each group in the order its permutation gives.
pub open spec fn sorted_groups(groups: Seq<Seq<PostModel>>, gperms: Seq<Seq<usize>>) -> Seq<Seq<PostModel>> {
    Seq::new(groups.len(), |i: int| ordered(groups[i], gperms[i]))
}

/// The authors' post lists in the order `aperm` gives.
pub open spec fn authors_in(groups: Seq<Seq<PostModel>>, aperm: Seq<usize>) -> Seq<Seq<PostModel>> {
    Seq::new(aperm.len(), |i: int| groups[aperm[i] as int])
}

/// Builds an author's roster line.
fn roster_text(web: &ContextWeb, root: Option<&str>, posts: &Vec<&Post>) -> (r: String)
    requires
        posts@.len() > 0,
    ensures
        r@ == roster_line(
            web@.quote_edges,
            match root {
                Some(d) => Some(d@),
                None => None,
            },
            posts_of(posts@),
        ),
{
    let ghost pv = posts_of(posts@);
    let name = author_name(posts[0]);
    let mut tags: Vec<String> = Vec::new();
    if let Some(did) = root {
        if str_eq(did, posts[0].author.did.as_str()) {
            tags.push(String::from_str("thread starter"));
        }
    }
    let ghost t1 = strings_of(tags@);
    let np = posts.len();
    let mut via_quote = false;
    let mut k: usize = 0;
    while k < np
        invariant
            np == posts@.len(),
            pv == posts_of(posts@),
            k <= np,
            via_quote == exists|x: int| 0 <= x < k && quoted_into(web@.quote_edges, (#[trigger] pv[x]).uri),
        decreases np - k,
    {
        let q = is_quote_target(web, posts[k].uri.as_str());
        proof {
            assert(pv[k as int] == posts@[k as int]@);
        }
        if q {
            via_quote = true;
        }
        k += 1;
    }
    if via_quote {
        tags.push(String::from_str("via quote"));
    }
    proof {
        assert(strings_of(tags@) =~= (if match root {
            Some(d) => Some(d@),
            None => None::<Seq<char>>,
        } == Some(pv[0].author.did) {
            seq!["thread starter"@]
        } else {
            Seq::<Seq<char>>::empty()
        }) + (if any_quoted(web@.quote_edges, pv) {
            seq!["via quote"@]
        } else {
            Seq::<Seq<char>>::empty()
        }));
    }
    let mut l = String::from_str("  ");
    l.append(name.as_str());
    l.append(" - ");
    let c = dec(np);
    l.append(c.as_str());
    l.append(" post");
    if np != 1 {
        l.append("s");
    } else {
        proof {
            assert(l@ =~= l@ + Seq::<char>::empty());
        }
    }
    let ctx = context_text(&tags);
    l.append(ctx.as_str());
    l
}

/// Appends an author's section.
fn push_section(lines: &mut Vec<String>, nodes: &Vec<&Post>, everyone: &Vec<&Post>, posts: &Vec<&Post>)
    requires
        posts@.len() > 0,
    ensures
        strings_of(final(lines)@) == strings_of(old(lines)@) + author_section(
            posts_of(nodes@),
            posts_of(everyone@),
            posts_of(posts@),
        ),
{
    let ghost start = strings_of(lines@);
    let ghost nv = posts_of(nodes@);
    let ghost ev = posts_of(everyone@);
    let ghost pv = posts_of(posts@);
    let mut h = String::from_str("=== ");
    let name = author_name(posts[0]);
    h.append(name.as_str());
    h.append(" ===");
    let ghost hv = h@;
    lines.push(h);
    proof {
        assert(strings_of(lines@) =~= start + seq![hv]);
    }
    let np = posts.len();
    let mut k: usize = 0;
    while k < np
        invariant
            np == posts@.len(),
            nv == posts_of(nodes@),
            ev == posts_of(everyone@),
            pv == posts_of(posts@),
            k <= np,
            strings_of(lines@) == start + seq![hv] + author_posts(nv, ev, pv, k as nat),
        decreases np - k,
    {
        let post = posts[k];
        let ghost before = strings_of(lines@);
        let c1 = mention(nodes, post.reply_parent.as_ref(), "replying to");
        let c2 = mention(nodes, post.embed_uri.as_ref(), "quoting");
        let context = collect_parts(c1, c2);
        let ctx = context_text(&context);
        let mut l = String::from_str("  [");
        let idx = dec(k + 1);
        l.append(idx.as_str());
        l.append("] (#");
        match position_of(everyone, post.uri.as_str()) {
            Some(g) => {
                let gs = dec(g);
                l.append(gs.as_str());
            },
            None => {
                l.append("?");
            },
        }
        l.append(") ");
        let time = short_time(post.created_at.as_str());
        l.append(time.as_str());
        l.append(ctx.as_str());
        let ghost lv = l@;
        proof {
            assert(pv[k as int] == post@);
            assert(lv == author_post_head((k + 1) as nat, nv, ev, post@));
        }
        lines.push(l);
        proof {
            assert(strings_of(lines@) =~= before.push(lv));
        }
        push_prefixed_lines(lines, "    ", post.text.as_str());
        let ghost mid = strings_of(lines@);
        lines.push(String::new());
        proof {
            assert(strings_of(lines@) =~= mid.push(Seq::<char>::empty()));
            assert(strings_of(lines@) =~= before + author_post_block((k + 1) as nat, nv, ev, post@));
        }
        k += 1;
    }
}

/// Renders posts grouped by participant: a roster followed by each author's
/// posts in chronological order, cross-referenced to the linear numbering.
pub(crate) fn render(web: &ContextWeb) -> (r: String)
    ensures
        ({
            let nodes = spec_nodes(web@.threads);
            exists|perm: Seq<usize>, gperms: Seq<Seq<usize>>, aperm: Seq<usize>|
                #[trigger] by_author_basis(nodes, perm, gperms, aperm) && r@ == spec_text(
                    by_author_lines(
                        web@.quote_edges,
                        root_did(web),
                        nodes,
                        ordered(nodes, perm),
                        authors_in(sorted_groups(spec_groups(nodes), gperms), aperm),
                    ),
                )
        }),
{
    let nodes = web.nodes();
    let ghost nv = spec_nodes(web@.threads);
    proof {
        assert(posts_of(nodes@) =~= nv);
    }
    let raw_groups = group_by_author(&nodes);
    let ghost gv = spec_groups(nv);
    proof {
        lemma_groups_nonempty(nv);
    }
    let mut groups: Vec<Vec<&Post>> = Vec::new();
    let mut firsts: Vec<&str> = Vec::new();
    let ghost mut gperms: Seq<Seq<usize>> = Seq::empty();
    let ng = raw_groups.len();
    let mut i: usize = 0;
    while i < ng
        invariant
            ng == raw_groups@.len(),
            groups_of(raw_groups@) == gv,
            forall|k: int| 0 <= k < gv.len() ==> (#[trigger] gv[k]).len() > 0,
            i <= ng,
            groups@.len() == i,
            firsts@.len() == i,
            gperms.len() == i,
            forall|k: int| 0 <= k < i ==> time_ordered(#[trigger] gv[k], gperms[k]),
            forall|k: int| 0 <= k < i ==> posts_of((#[trigger] groups@[k])@) == ordered(gv[k], gperms[k]),
            forall|k: int| 0 <= k < i ==> (#[trigger] groups@[k])@.len() > 0,
            forall|k: int| 0 <= k < i ==> (#[trigger] firsts@[k])@ == groups@[k]@[0]@.created_at,
        decreases ng - i,
    {
        proof {
            assert(gv[i as int] == posts_of(raw_groups@[i as int]@));
            assert(times_of(raw_groups@[i as int]@) =~= gv[i as int].map_values(|p: PostModel| p.created_at));
        }
        let sorted = by_time(&raw_groups[i]);
        let ghost gp = choose|perm: Seq<usize>|
            #[trigger] sorted_by_text(times_of(raw_groups@[i as int]@), perm) && forall|x: int|
                0 <= x < sorted@.len() ==> #[trigger] sorted@[x] == raw_groups@[i as int]@[perm[x] as int];
        proof {
            assert(posts_of(sorted@) =~= ordered(gv[i as int], gp));
            assert(sorted@.len() > 0);
            gperms = gperms.push(gp);
        }
        firsts.push(sorted[0].created_at.as_str());
        groups.push(sorted);
        i += 1;
    }
    let ghost sg = sorted_groups(gv, gperms);
    proof {
        assert(groups_of(groups@) =~= sg);
        assert(firsts@.map_values(|k: &str| k@) =~= first_times(sg));
    }
    let author_order = sort_by_text(&firsts);
    let ghost authors = authors_in(sg, author_order@);
    proof {
        assert(times_of(nodes@) =~= nv.map_values(|p: PostModel| p.created_at));
    }
    let all_posts = by_time(&nodes);
    let ghost perm = choose|perm: Seq<usize>|
        #[trigger] sorted_by_text(times_of(nodes@), perm) && forall|x: int|
            0 <= x < all_posts@.len() ==> #[trigger] all_posts@[x] == nodes@[perm[x] as int];
    let ghost everyone = ordered(nv, perm);
    proof {
        assert(posts_of(all_posts@) =~= everyone);
    }
    let root_did_value: Option<&str> = match find_node(&nodes, find_tree_root(web)) {
        Some(p) => Some(p.author.did.as_str()),
        None => None,
    };
    let ghost root = match root_did_value {
        Some(d) => Some(d@),
        None => None::<Seq<char>>,
    };
    proof {
        assert(root == root_did(web));
    }
    let mut lines: Vec<String> = Vec::new();
    let mut head = String::from_str("=== PARTICIPANTS (");
    let count = dec(author_order.len());
    head.append(count.as_str());
    head.append(") ===");
    let ghost hv = head@;
    lines.push(head);
    proof {
        assert(strings_of(lines@) =~= seq![hv]);
    }
    let na = author_order.len();
    let mut a: usize = 0;
    while a < na
        invariant
            na == author_order@.len(),
            crate::lens::order::is_permutation(author_order@, firsts@.len()),
            firsts@.len() == groups@.len(),
            groups_of(groups@) == sg,
            forall|k: int| 0 <= k < groups@.len() ==> (#[trigger] groups@[k])@.len() > 0,
            authors == authors_in(sg, author_order@),
            a <= na,
            root == match root_did_value {
                Some(d) => Some(d@),
                None => None::<Seq<char>>,
            },
            strings_of(lines@) == seq![hv] + roster(web@.quote_edges, root, authors, a as nat),
        decreases na - a,
    {
        let posts = &groups[author_order[a]];
        let l = roster_text(web, root_did_value, posts);
        let ghost before = strings_of(lines@);
        lines.push(l);
        proof {
            assert(authors[a as int] == sg[author_order@[a as int] as int]);
            assert(sg[author_order@[a as int] as int] == posts_of(posts@));
            assert(strings_of(lines@) =~= before.push(roster_line(web@.quote_edges, root, authors[a as int])));
        }
        a += 1;
    }
    let ghost s1 = strings_of(lines@);
    lines.push(String::new());
    proof {
        assert(strings_of(lines@) =~= s1 + seq![Seq::<char>::empty()]);
    }
    let ghost s2 = strings_of(lines@);
    a = 0;
    while a < na
        invariant
            na == author_order@.len(),
            crate::lens::order::is_permutation(author_order@, firsts@.len()),
            firsts@.len() == groups@.len(),
            groups_of(groups@) == sg,
            forall|k: int| 0 <= k < groups@.len() ==> (#[trigger] groups@[k])@.len() > 0,
            authors == authors_in(sg, author_order@),
            nv == posts_of(nodes@),
            everyone == posts_of(all_posts@),
            a <= na,
            strings_of(lines@) == s2 + sections(nv, everyone, authors, a as nat),
        decreases na - a,
    {
        let posts = &groups[author_order[a]];
        proof {
            assert(authors[a as int] == sg[author_order@[a as int] as int]);
            assert(sg[author_order@[a as int] as int] == posts_of(posts@));
        }
        push_section(&mut lines, &nodes, &all_posts, posts);
        a += 1;
    }
    proof {
        assert(authors.len() == na);
        assert(strings_of(lines@) == by_author_lines(web@.quote_edges, root, nv, everyone, authors));
        assert(by_author_basis(nv, perm, gperms, author_order@));
    }
    finish_lines(&lines)
}

} // verus!
