//! The `threads` lens: threads listed by size.
use vstd::prelude::*;
use vstd::string::*;

use crate::lens::fmt::{dec, finish_lines, spec_text, strings_of};
use crate::lens::order::{rank_by_count, ranked_by_count};
use crate::model::{spec_engagement, ContextWeb, Post, PostModel, Thread, ThreadModel};
use crate::ordered_map::{
    lookup, post_entries, post_map_get, post_map_get_index, post_map_len, thread_entries, thread_map_get_index,
    thread_map_len,
};
use crate::strings::spec_decimal;
use crate::text::{
    author_name, counted, spec_author_name, spec_counted, spec_thousands, spec_truncate, thousands, thousands_u64,
    truncate,
};

verus! {

/// What the listing shows of one thread.
#[derive(Clone, Copy)]
pub struct ThreadInfo<'a> {
    /// Posts in the thread.
    pub size: usize,
    /// Summed engagement of its posts.
    pub engagement: u64,
    /// The post that stands for the thread.
    pub post: &'a Post,
}

/// The abstract value of a [`ThreadInfo`].
pub struct InfoModel {
    pub size: nat,
    pub engagement: nat,
    pub post: PostModel,
}

impl View for ThreadInfo<'_> {
    type V = InfoModel;

    open spec fn view(&self) -> InfoModel {
        InfoModel { size: self.size as nat, engagement: self.engagement as nat, post: self.post@ }
    }
}

/// `s` followed by the spaces that bring it to `width` characters.
pub open spec fn spec_pad_right(s: Seq<char>, width: nat) -> Seq<char> {
    if s.len() >= width {
        s
    } else {
        s + Seq::new((width - s.len()) as nat, |i: int| ' ')
    }
}

/// `s` padded with spaces on the right to at least `width` characters.
pub fn pad_right(s: &str, width: usize) -> (r: String)
    ensures
        r@ == spec_pad_right(s@, width as nat),
{
    let mut out = String::from_str(s);
    let n = s.unicode_len();
    let mut i: usize = n;
    while i < width
        invariant
            n == s@.len(),
            i >= n,
            i > n ==> i <= width,
            out@ == s@ + Seq::new((i - n) as nat, |j: int| ' '),
        decreases width - i,
    {
        let ghost before = out@;
        out.append(" ");
        proof {
            reveal_strlit(" ");
            assert(out@ =~= s@ + Seq::new((i + 1 - n) as nat, |j: int| ' '));
        }
        i += 1;
    }
    proof {
        if n >= width {
            assert(out@ =~= s@);
        }
    }
    out
}

/// `a + b`, capped at the largest `u64`.
pub open spec fn sat_add(a: nat, b: nat) -> nat {
    if a + b > u64::MAX {
        u64::MAX as nat
    } else {
        a + b
    }
}

/// The summed engagement of keyed posts, the running sum capped at the
/// largest `u64`.
pub open spec fn engagement_sum(posts: Seq<(Seq<char>, PostModel)>) -> nat
    decreases posts.len(),
{
    if posts.len() == 0 {
        0
    } else {
        sat_add(engagement_sum(posts.drop_last()), spec_engagement(posts.last().1) as nat)
    }
}

/// The post that stands for a thread: its root post, else its first post.
pub open spec fn standing_post(t: ThreadModel) -> Option<PostModel> {
    match lookup(t.posts, t.root_uri) {
        Some(p) => Some(p),
        None => if t.posts.len() > 0 {
            Some(t.posts[0].1)
        } else {
            None
        },
    }
}

/// What the listing shows of each thread with posts, in thread order.
pub open spec fn spec_infos(threads: Seq<(Seq<char>, ThreadModel)>) -> Seq<InfoModel>
    decreases threads.len(),
{
    if threads.len() == 0 {
        Seq::empty()
    } else {
        let rest = spec_infos(threads.drop_last());
        let t = threads.last().1;
        match standing_post(t) {
            Some(p) => rest.push(InfoModel { size: t.posts.len(), engagement: engagement_sum(t.posts), post: p }),
            None => rest,
        }
    }
}

/// The sizes of the threads as ranking keys.
pub open spec fn info_sizes(infos: Seq<InfoModel>) -> Seq<u64> {
    infos.map_values(|x: InfoModel| x.size as u64)
}

/// The thread infos taken in the order `perm` lists them.
pub open spec fn infos_in(infos: Seq<InfoModel>, perm: Seq<usize>) -> Seq<InfoModel> {
    Seq::new(perm.len(), |i: int| infos[perm[i] as int])
}

/// The summed engagement of a thread's posts.
fn thread_engagement(t: &Thread) -> (r: u64)
    ensures
        r as nat == engagement_sum(t@.posts),
{
    let np = post_map_len(&t.posts);
    let mut engagement: u64 = 0;
    let mut k: usize = 0;
    while k < np
        invariant
            np == post_entries(t.posts).len(),
            t@.posts == post_entries(t.posts),
            k <= np,
            engagement as nat == engagement_sum(t@.posts.take(k as int)),
        decreases np - k,
    {
        let (_, p) = post_map_get_index(&t.posts, k);
        engagement = engagement.saturating_add(p.engagement_wide());
        proof {
            let tk = t@.posts.take(k + 1);
            assert(tk.drop_last() =~= t@.posts.take(k as int));
            assert(tk.last().1 == p@);
        }
        k += 1;
    }
    proof {
        assert(t@.posts.take(np as int) =~= t@.posts);
    }
    engagement
}

/// The threads, largest first, each shown by its root post or else its
/// first post; threads without posts are left out. Equal sizes keep the
/// order of the threads.
pub fn thread_infos(web: &ContextWeb) -> (r: Vec<ThreadInfo<'_>>)
    ensures
        exists|perm: Seq<usize>|
            #[trigger] ranked_by_count(info_sizes(spec_infos(web@.threads)), perm) && r@.map_values(
                |x: ThreadInfo| x@,
            ) == infos_in(spec_infos(web@.threads), perm),
{
    let threads = web.threads();
    let ghost th = web@.threads;
    let n = thread_map_len(threads);
    let mut infos: Vec<ThreadInfo> = Vec::new();
    let mut i: usize = 0;
    while i < n
        invariant
            n == thread_entries(*threads).len(),
            thread_entries(*threads) == th,
            i <= n,
            infos@.map_values(|x: ThreadInfo| x@) == spec_infos(th.take(i as int)),
        decreases n - i,
    {
        let (_, t) = thread_map_get_index(threads, i);
        let np = post_map_len(&t.posts);
        let engagement = thread_engagement(t);
        let shown: Option<&Post> = match post_map_get(&t.posts, t.root_uri.as_str()) {
            Some(p) => Some(p),
            None => if np > 0 {
                let (_, p) = post_map_get_index(&t.posts, 0);
                Some(p)
            } else {
                None
            },
        };
        let ghost before = infos@;
        if let Some(post) = shown {
            infos.push(ThreadInfo { size: np, engagement, post });
        }
        proof {
            let tk = th.take(i + 1);
            assert(tk.drop_last() =~= th.take(i as int));
            assert(tk.last().1 == t@);
            assert(t@.posts == post_entries(t.posts));
            assert(infos@.map_values(|x: ThreadInfo| x@) =~= spec_infos(tk));
        }
        i += 1;
    }
    let ghost iv = spec_infos(th);
    proof {
        assert(th.take(n as int) =~= th);
    }
    let mut sizes: Vec<u64> = Vec::new();
    let m = infos.len();
    let mut j: usize = 0;
    while j < m
        invariant
            m == infos@.len(),
            infos@.map_values(|x: ThreadInfo| x@) == iv,
            j <= m,
            sizes@.len() == j,
            forall|x: int| 0 <= x < j ==> #[trigger] sizes@[x] == iv[x].size as u64,
        decreases m - j,
    {
        sizes.push(infos[j].size as u64);
        proof {
            assert(iv[j as int] == infos@[j as int]@);
        }
        j += 1;
    }
    proof {
        assert(sizes@ =~= info_sizes(iv));
    }
    let order = rank_by_count(&sizes);
    let mut out: Vec<ThreadInfo> = Vec::new();
    let mut k: usize = 0;
    while k < m
        invariant
            m == order@.len(),
            m == infos@.len(),
            infos@.map_values(|x: ThreadInfo| x@) == iv,
            crate::lens::order::is_permutation(order@, sizes@.len()),
            sizes@.len() == m,
            k <= m,
            out@.len() == k,
            forall|x: int| 0 <= x < k ==> (#[trigger] out@[x])@ == iv[order@[x] as int],
        decreases m - k,
    {
        let o = order[k];
        out.push(infos[o]);
        proof {
            assert(iv[o as int] == infos@[o as int]@);
        }
        k += 1;
    }
    proof {
        assert(out@.map_values(|x: ThreadInfo| x@) =~= infos_in(iv, order@));
        assert(ranked_by_count(info_sizes(iv), order@));
    }
    out
}

/// The lines of the `k`-th listed thread.
pub open spec fn info_block(k: nat, info: InfoModel) -> Seq<Seq<char>> {
    seq![
        "#"@ + spec_pad_right(spec_decimal(k), 3) + " "@ + spec_counted(info.size, "post"@, "posts"@) + " | "@
            + spec_thousands(info.engagement) + " engagement | "@ + spec_author_name(info.post.author),
        "     "@ + spec_truncate(info.post.text, 80),
        "     "@ + info.post.uri,
        Seq::<char>::empty(),
    ]
}

/// The blocks of the first `n` listed threads.
pub open spec fn info_blocks(infos: Seq<InfoModel>, n: nat) -> Seq<Seq<char>>
    decreases n,
{
    if n == 0 {
        Seq::empty()
    } else {
        info_blocks(infos, (n - 1) as nat) + info_block(n, infos[n - 1])
    }
}

/// The lines of the listing of the `top` largest of `infos`, ranked.
pub open spec fn threads_lines(infos: Seq<InfoModel>, top: nat) -> Seq<Seq<char>> {
    let shown = if top < infos.len() { top } else { infos.len() };
    seq![
        "=== THREADS ("@ + spec_thousands(infos.len()) + " total, showing top "@ + spec_decimal(shown) + ") ==="@,
        Seq::<char>::empty(),
    ] + info_blocks(infos, shown)
}

/// Lists the `top` largest threads: size, summed engagement, author, text
/// and URI of the root post.
pub(crate) fn render(web: &ContextWeb, top: usize) -> (r: String)
    ensures
        exists|perm: Seq<usize>|
            #[trigger] ranked_by_count(info_sizes(spec_infos(web@.threads)), perm) && r@ == spec_text(
                threads_lines(infos_in(spec_infos(web@.threads), perm), top as nat),
            ),
{
    let infos = thread_infos(web);
    let ghost perm = choose|perm: Seq<usize>|
        #[trigger] ranked_by_count(info_sizes(spec_infos(web@.threads)), perm) && infos@.map_values(
            |x: ThreadInfo| x@,
        ) == infos_in(spec_infos(web@.threads), perm);
    let ghost iv = infos@.map_values(|x: ThreadInfo| x@);
    let shown = if top < infos.len() { top } else { infos.len() };
    let mut lines: Vec<String> = Vec::new();
    let mut head = String::from_str("=== THREADS (");
    let total = thousands(infos.len());
    head.append(total.as_str());
    head.append(" total, showing top ");
    let s = dec(shown);
    head.append(s.as_str());
    head.append(") ===");
    lines.push(head);
    lines.push(String::new());
    let ghost top_lines = strings_of(lines@);
    proof {
        assert(top_lines =~= seq![
            "=== THREADS ("@ + spec_thousands(iv.len()) + " total, showing top "@ + spec_decimal(shown as nat)
                + ") ==="@,
            Seq::<char>::empty(),
        ]);
    }
    let mut i: usize = 0;
    while i < shown
        invariant
            shown <= infos@.len(),
            iv == infos@.map_values(|x: ThreadInfo| x@),
            i <= shown,
            strings_of(lines@) == top_lines + info_blocks(iv, i as nat),
        decreases shown - i,
    {
        let info = &infos[i];
        let ghost start = strings_of(lines@);
        let mut l = String::from_str("#");
        let rank = dec(i + 1);
        let padded = pad_right(rank.as_str(), 3);
        l.append(padded.as_str());
        l.append(" ");
        let size = counted(info.size as u64, "post", "posts");
        l.append(size.as_str());
        l.append(" | ");
        let eng = thousands_u64(info.engagement);
        l.append(eng.as_str());
        l.append(" engagement | ");
        let name = author_name(info.post);
        l.append(name.as_str());
        let ghost l1 = l@;
        lines.push(l);
        let mut t = String::from_str("     ");
        let text = truncate(info.post.text.as_str(), 80);
        t.append(text.as_str());
        let ghost l2 = t@;
        lines.push(t);
        let mut u = String::from_str("     ");
        u.append(info.post.uri.as_str());
        let ghost l3 = u@;
        lines.push(u);
        lines.push(String::new());
        proof {
            assert(iv[i as int] == info@);
            assert(strings_of(lines@) =~= start + seq![l1, l2, l3, Seq::<char>::empty()]);
            assert(seq![l1, l2, l3, Seq::<char>::empty()] =~= info_block((i + 1) as nat, iv[i as int]));
            assert(info_blocks(iv, (i + 1) as nat) == info_blocks(iv, i as nat) + info_block((i + 1) as nat, iv[i as int]));
        }
        i += 1;
    }
    let r = finish_lines(&lines);
    proof {
        assert(strings_of(lines@) =~= threads_lines(iv, top as nat));
    }
    r
}

} // verus!
