//! The depth-first walk that the `tree` and `neighborhood` lenses share:
//! from a start post, each post once, its replies before its quotes, each
//! kind by creation time.
use vstd::prelude::*;

use crate::lens::order::text_order;
use crate::model::PostModel;
use crate::strings::str_eq;

verus! {

/// How a post hangs under its parent.
#[derive(Debug, Clone, Copy, PartialEq, Eq, Structural)]
pub enum EdgeKind {
    /// A reply.
    Reply,
    /// A quote.
    Quote,
}

/// The tag shown before a post reached through an edge of kind `k`, or
/// before a walk's first post.
pub open spec fn spec_edge_tag(k: Option<EdgeKind>) -> Seq<char> {
    match k {
        Some(EdgeKind::Reply) => "[reply]"@,
        Some(EdgeKind::Quote) => "[quote]"@,
        None => "[root]"@,
    }
}

impl EdgeKind {
    /// The tag shown before a post reached through this kind of edge.
    pub fn tag(self) -> (r: &'static str)
        ensures
            r@ == spec_edge_tag(Some(self)),
    {
        match self {
            EdgeKind::Reply => "[reply]",
            EdgeKind::Quote => "[quote]",
        }
    }

    /// Replies sort before quotes.
    pub fn rank(self) -> (r: u8)
        ensures
            r == match self {
                EdgeKind::Reply => 0u8,
                EdgeKind::Quote => 1u8,
            },
    {
        match self {
            EdgeKind::Reply => 0,
            EdgeKind::Quote => 1,
        }
    }
}

/// What a walk runs over: the post under each key, the children listed
/// under each key, and the lines a post takes at a depth.
pub struct WalkGraph {
    pub node: spec_fn(Seq<char>) -> Option<PostModel>,
    pub kids: spec_fn(Seq<char>) -> Seq<(Seq<char>, EdgeKind)>,
    pub block: spec_fn(PostModel, nat, Option<EdgeKind>) -> Seq<Seq<char>>,
}

/// Where a walk stands: the entries left to visit (key, depth, how the
/// post hangs there), the keys visited and the lines written.
pub struct WalkState {
    pub stack: Seq<(Seq<char>, nat, Option<EdgeKind>)>,
    pub visited: Seq<Seq<char>>,
    pub lines: Seq<Seq<char>>,
}

/// The keys of the children of kind `want`, in order.
pub open spec fn of_kind(kids: Seq<(Seq<char>, EdgeKind)>, want: EdgeKind) -> Seq<Seq<char>>
    decreases kids.len(),
{
    if kids.len() == 0 {
        Seq::empty()
    } else {
        let rest = of_kind(kids.drop_last(), want);
        if kids.last().1 == want {
            rest.push(kids.last().0)
        } else {
            rest
        }
    }
}

/// The creation time of the post under `key`, empty when there is none.
pub open spec fn node_time(node: spec_fn(Seq<char>) -> Option<PostModel>, key: Seq<char>) -> Seq<char> {
    match node(key) {
        Some(p) => p.created_at,
        None => Seq::<char>::empty(),
    }
}

/// The keys by creation time, ties in list order.
pub open spec fn by_time_order(node: spec_fn(Seq<char>) -> Option<PostModel>, keys: Seq<Seq<char>>) -> Seq<Seq<char>> {
    let perm = text_order(keys.map_values(|k: Seq<char>| node_time(node, k)));
    Seq::new(perm.len(), |i: int| keys[perm[i] as int])
}

/// `stack` with entries for `keys` at `depth` pushed so that the first of
/// them is on top.
pub open spec fn push_kids(
    stack: Seq<(Seq<char>, nat, Option<EdgeKind>)>,
    keys: Seq<Seq<char>>,
    depth: nat,
    kind: EdgeKind,
) -> Seq<(Seq<char>, nat, Option<EdgeKind>)> {
    stack + Seq::new(keys.len(), |i: int| (keys[keys.len() - 1 - i], depth, Some(kind)))
}

/// One step of the walk: take the top entry; if its post is new and in the
/// graph, write it and push its children, replies above quotes, each kind
/// by creation time.
pub open spec fn walk_step(g: WalkGraph, s: WalkState) -> WalkState {
    if s.stack.len() == 0 {
        s
    } else {
        let top = s.stack.last();
        let rest = s.stack.drop_last();
        if s.visited.contains(top.0) {
            WalkState { stack: rest, ..s }
        } else {
            match (g.node)(top.0) {
                None => WalkState { stack: rest, ..s },
                Some(p) => {
                    let kids = (g.kids)(top.0);
                    WalkState {
                        stack: push_kids(
                            push_kids(rest, by_time_order(g.node, of_kind(kids, EdgeKind::Quote)), top.1 + 1, EdgeKind::Quote),
                            by_time_order(g.node, of_kind(kids, EdgeKind::Reply)),
                            top.1 + 1,
                            EdgeKind::Reply,
                        ),
                        visited: s.visited.push(top.0),
                        lines: s.lines + (g.block)(p, top.1, top.2),
                    }
                },
            }
        }
    }
}

/// The walk after `n` steps.
pub open spec fn walk_run(g: WalkGraph, s: WalkState, n: nat) -> WalkState
    decreases n,
{
    if n == 0 {
        s
    } else {
        walk_step(g, walk_run(g, s, (n - 1) as nat))
    }
}

/// The walk run until nothing is left to visit.
pub open spec fn walk_done(g: WalkGraph, s: WalkState) -> WalkState {
    walk_run(g, s, choose|n: nat| walk_run(g, s, n).stack.len() == 0)
}

/// Once nothing is left to visit, further steps change nothing.
proof fn lemma_walk_stays(g: WalkGraph, s: WalkState, a: nat, b: nat)
    requires
        a <= b,
        walk_run(g, s, a).stack.len() == 0,
    ensures
        walk_run(g, s, b) == walk_run(g, s, a),
    decreases b,
{
    if b > a {
        lemma_walk_stays(g, s, a, (b - 1) as nat);
    }
}

/// A run that empties the stack is the finished walk.
pub proof fn lemma_walk_done(g: WalkGraph, s: WalkState, n: nat)
    requires
        walk_run(g, s, n).stack.len() == 0,
    ensures
        walk_done(g, s) == walk_run(g, s, n),
{
    let m = choose|m: nat| walk_run(g, s, m).stack.len() == 0;
    if m <= n {
        lemma_walk_stays(g, s, m, n);
    } else {
        lemma_walk_stays(g, s, n, m);
    }
}

/// A walk that starts from `key` alone.
pub open spec fn walk_start(key: Seq<char>, visited: Seq<Seq<char>>, lines: Seq<Seq<char>>) -> WalkState {
    WalkState { stack: seq![(key, 0nat, None::<EdgeKind>)], visited, lines }
}

/// The views of a walk's stack entries.
pub open spec fn stack_view(v: Seq<(&str, usize, Option<EdgeKind>)>) -> Seq<(Seq<char>, nat, Option<EdgeKind>)> {
    v.map_values(|e: (&str, usize, Option<EdgeKind>)| (e.0@, e.1 as nat, e.2))
}

/// After `first`, a walk from each of the first `k` keys not yet reached,
/// in order, each after a `---` line.
pub open spec fn sweep(g: WalkGraph, first: WalkState, keys: Seq<Seq<char>>, k: nat) -> WalkState
    decreases k,
{
    if k == 0 {
        first
    } else {
        let prev = sweep(g, first, keys, (k - 1) as nat);
        if prev.visited.contains(keys[k - 1]) {
            prev
        } else {
            walk_done(g, walk_start(keys[k - 1], prev.visited, prev.lines.push("---"@)))
        }
    }
}

/// The views of a list of keys.
pub open spec fn strs_view(v: Seq<&str>) -> Seq<Seq<char>> {
    v.map_values(|s: &str| s@)
}

/// A post hanging under another.
#[derive(Debug, Clone, Copy)]
pub struct Child<'a> {
    /// The child post.
    pub uri: &'a str,
    /// How it hangs there.
    pub kind: EdgeKind,
}

/// A child's URI and how it hangs under its parent.
pub open spec fn kid_view(c: Child) -> (Seq<char>, EdgeKind) {
    (c.uri@, c.kind)
}

/// The children a table lists under `u`: those of its first entry for `u`.
pub open spec fn kids_in(cv: Seq<(&str, Vec<Child>)>, u: Seq<char>) -> Seq<(Seq<char>, EdgeKind)>
    decreases cv.len(),
{
    if cv.len() == 0 {
        Seq::empty()
    } else if cv[0].0@ == u {
        cv[0].1@.map_values(|c: Child| kid_view(c))
    } else {
        kids_in(cv.drop_first(), u)
    }
}

/// The entry at `i` is the first for its key, so it is what the table
/// lists under that key.
proof fn lemma_kids_in_at(cv: Seq<(&str, Vec<Child>)>, i: int, u: Seq<char>)
    requires
        0 <= i < cv.len(),
        cv[i].0@ == u,
        forall|j: int| 0 <= j < i ==> (#[trigger] cv[j]).0@ != u,
    ensures
        kids_in(cv, u) == cv[i].1@.map_values(|c: Child| kid_view(c)),
    decreases i,
{
    if i > 0 {
        let rest = cv.drop_first();
        assert forall|j: int| 0 <= j < i - 1 implies (#[trigger] rest[j]).0@ != u by {
            assert(rest[j] == cv[j + 1]);
        }
        lemma_kids_in_at(rest, i - 1, u);
    }
}

/// A key that no entry has lists nothing.
proof fn lemma_kids_in_absent(cv: Seq<(&str, Vec<Child>)>, u: Seq<char>)
    requires
        forall|j: int| 0 <= j < cv.len() ==> (#[trigger] cv[j]).0@ != u,
    ensures
        kids_in(cv, u) == Seq::<(Seq<char>, EdgeKind)>::empty(),
    decreases cv.len(),
{
    if cv.len() > 0 {
        let rest = cv.drop_first();
        assert forall|j: int| 0 <= j < rest.len() implies (#[trigger] rest[j]).0@ != u by {
            assert(rest[j] == cv[j + 1]);
        }
        lemma_kids_in_absent(rest, u);
    }
}

/// Replacing the first entry for a key by one with other children changes
/// what the table lists under that key only.
proof fn lemma_kids_in_update(cv: Seq<(&str, Vec<Child>)>, i: int, k: &str, v: Vec<Child>, u: Seq<char>)
    requires
        0 <= i < cv.len(),
        k@ == cv[i].0@,
        forall|j: int| 0 <= j < i ==> (#[trigger] cv[j]).0@ != k@,
    ensures
        kids_in(cv.update(i, (k, v)), u) == if u == k@ {
            v@.map_values(|c: Child| kid_view(c))
        } else {
            kids_in(cv, u)
        },
    decreases i,
{
    let nv = cv.update(i, (k, v));
    if i == 0 {
        assert(nv.drop_first() =~= cv.drop_first());
    } else {
        let rest = cv.drop_first();
        assert forall|j: int| 0 <= j < i - 1 implies (#[trigger] rest[j]).0@ != k@ by {
            assert(rest[j] == cv[j + 1]);
        }
        lemma_kids_in_update(rest, i - 1, k, v, u);
        assert(nv.drop_first() =~= rest.update(i - 1, (k, v)));
    }
}

/// Appending an entry for a new key lists its children under that key and
/// changes nothing else.
proof fn lemma_kids_in_push(cv: Seq<(&str, Vec<Child>)>, e: (&str, Vec<Child>), u: Seq<char>)
    requires
        forall|j: int| 0 <= j < cv.len() ==> (#[trigger] cv[j]).0@ != e.0@,
    ensures
        kids_in(cv.push(e), u) == if u == e.0@ {
            e.1@.map_values(|c: Child| kid_view(c))
        } else {
            kids_in(cv, u)
        },
    decreases cv.len(),
{
    if cv.len() == 0 {
        assert(cv.push(e).drop_first() =~= cv);
    } else {
        let rest = cv.drop_first();
        assert forall|j: int| 0 <= j < rest.len() implies (#[trigger] rest[j]).0@ != e.0@ by {
            assert(rest[j] == cv[j + 1]);
        }
        lemma_kids_in_push(rest, e, u);
        assert(cv.push(e).drop_first() =~= rest.push(e));
    }
}

/// The children listed under `uri`.
pub fn children_of<'a>(children: &Vec<(&'a str, Vec<Child<'a>>)>, uri: &str) -> (r: Vec<Child<'a>>)
    ensures
        r@.map_values(|c: Child| kid_view(c)) == kids_in(children@, uri@),
{
    let n = children.len();
    let mut i: usize = 0;
    while i < n
        invariant
            n == children@.len(),
            i <= n,
            forall|j: int| 0 <= j < i ==> (#[trigger] children@[j]).0@ != uri@,
        decreases n - i,
    {
        if str_eq(children[i].0, uri) {
            proof {
                lemma_kids_in_at(children@, i as int, uri@);
            }
            let kids = &children[i].1;
            let mut out: Vec<Child<'a>> = Vec::new();
            let m = kids.len();
            let mut k: usize = 0;
            while k < m
                invariant
                    m == kids@.len(),
                    k <= m,
                    out@.len() == k,
                    forall|x: int| 0 <= x < k ==> #[trigger] out@[x] == kids@[x],
                decreases m - k,
            {
                out.push(kids[k]);
                k += 1;
            }
            proof {
                assert(out@.map_values(|c: Child| kid_view(c)) =~= kids@.map_values(|c: Child| kid_view(c)));
            }
            return out;
        }
        i += 1;
    }
    proof {
        lemma_kids_in_absent(children@, uri@);
    }
    let r: Vec<Child<'a>> = Vec::new();
    proof {
        assert(r@.map_values(|c: Child| kid_view(c)) =~= Seq::<(Seq<char>, EdgeKind)>::empty());
    }
    r
}

/// Adds `child` under `parent`, keeping parents in order of first child.
pub fn add_child<'a>(children: &mut Vec<(&'a str, Vec<Child<'a>>)>, parent: &'a str, child: Child<'a>)
    ensures
        forall|u: Seq<char>|
            #[trigger] kids_in(final(children)@, u) == if u == parent@ {
                kids_in(old(children)@, u).push(kid_view(child))
            } else {
                kids_in(old(children)@, u)
            },
{
    let n = children.len();
    let mut i: usize = 0;
    while i < n
        invariant
            n == children@.len(),
            children@ == old(children)@,
            i <= n,
            forall|j: int| 0 <= j < i ==> (#[trigger] children@[j]).0@ != parent@,
        decreases n - i,
    {
        if str_eq(children[i].0, parent) {
            let mut kids = children_of(children, parent);
            kids.push(child);
            let ghost before = children@;
            let ghost kv = kids@;
            children.set(i, (parent, kids));
            proof {
                assert(children@ == before.update(i as int, (parent, kids)));
                assert forall|u: Seq<char>|
                    #[trigger] kids_in(children@, u) == if u == parent@ {
                        kids_in(before, u).push(kid_view(child))
                    } else {
                        kids_in(before, u)
                    } by {
                    lemma_kids_in_update(before, i as int, parent, kids, u);
                    if u == parent@ {
                        assert(kv.map_values(|c: Child| kid_view(c)) =~= kids_in(before, u).push(kid_view(child)));
                    }
                }
            }
            return;
        }
        i += 1;
    }
    let mut kids: Vec<Child<'a>> = Vec::new();
    kids.push(child);
    let ghost before = children@;
    proof {
        lemma_kids_in_absent(before, parent@);
        assert(kids@.map_values(|c: Child| kid_view(c)) =~= seq![kid_view(child)]);
    }
    children.push((parent, kids));
    proof {
        assert forall|u: Seq<char>|
            #[trigger] kids_in(children@, u) == if u == parent@ {
                kids_in(before, u).push(kid_view(child))
            } else {
                kids_in(before, u)
            } by {
            lemma_kids_in_push(before, (parent, kids), u);
            if u == parent@ {
                assert(kids_in(before, u).push(kid_view(child)) =~= seq![kid_view(child)]);
            }
        }
    }
}

} // verus!
