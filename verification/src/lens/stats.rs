//! The `stats` lens: summary statistics of a web.
use vstd::prelude::*;
use vstd::string::*;

use crate::lens::fmt::{dec, finish_lines, ordered, posts_of, spec_text, strings_of};
use crate::lens::graph::{dist_view, is_hop_distances, thread_hop_distances};
use crate::lens::highlights::{by_engagement, engagements};
use crate::lens::order::{rank_by_count, ranked_by_count};
use crate::lens::threads::{pad_right, spec_pad_right};
use crate::model::{
    count_replies, edges_view, spec_engagement, web_posts, ContextWeb, Post, PostModel, ThreadModel, WebModel,
};
use crate::ordered_map::{lookup, thread_entries, thread_map_get_index, thread_map_len};
use crate::strings::{push_char, seq_lt, spec_decimal, str_eq, str_lt};
use crate::text::{
    author_name, short_time, spec_author_name, spec_short_time, spec_thousands, spec_truncate, thousands, thousands_u64,
    truncate,
};

verus! {

/// `count` as a share of `total` in tenths of a percent, rounded to the
/// nearest tenth with ties to even; zero when `total` is zero.
pub open spec fn spec_percent_tenths(count: nat, total: nat) -> nat {
    if total == 0 {
        0
    } else {
        let q = (count * 1000) / total;
        let rem = (count * 1000) % total;
        if 2 * rem > total || (2 * rem == total && q % 2 == 1) {
            q + 1
        } else {
            q
        }
    }
}

/// `count` as a percentage of `total` with one decimal, e.g. `66.7`.
pub fn percent(count: usize, total: usize) -> (r: String)
    requires
        count <= total,
    ensures
        r@ == spec_decimal(spec_percent_tenths(count as nat, total as nat) / 10) + "."@
            + spec_decimal(spec_percent_tenths(count as nat, total as nat) % 10),
{
    let tenths: u128 = if total == 0 {
        0
    } else {
        let num: u128 = count as u128 * 1000;
        let den: u128 = total as u128;
        let q = num / den;
        let rem = num % den;
        if 2 * rem > den || (2 * rem == den && q % 2 == 1) {
            q + 1
        } else {
            q
        }
    };
    proof {
        assert(tenths == spec_percent_tenths(count as nat, total as nat));
        if total > 0 {
            assert((count as int * 1000) / (total as int) <= 1000) by (nonlinear_arith)
                requires
                    count <= total,
                    total > 0,
            ;
        }
    }
    let whole = tenths / 10;
    let frac = tenths % 10;
    let mut s = crate::strings::decimal(whole as u64);
    s.append(".");
    let f = crate::strings::decimal(frac as u64);
    s.append(f.as_str());
    s
}

/// `s` preceded by the spaces that bring it to `width` characters.
pub open spec fn spec_pad_left(s: Seq<char>, width: nat) -> Seq<char> {
    if s.len() >= width {
        s
    } else {
        Seq::new((width - s.len()) as nat, |i: int| ' ') + s
    }
}

/// `s` padded with spaces on the left to at least `width` characters.
pub fn pad_left(s: &str, width: usize) -> (r: String)
    ensures
        r@ == spec_pad_left(s@, width as nat),
{
    let n = s.unicode_len();
    let mut out = String::new();
    let mut i: usize = n;
    while i < width
        invariant
            n == s@.len(),
            i >= n,
            i > n ==> i <= width,
            out@ == Seq::new((i - n) as nat, |j: int| ' '),
        decreases width - i,
    {
        out.append(" ");
        proof {
            reveal_strlit(" ");
            assert(out@ =~= Seq::new((i + 1 - n) as nat, |j: int| ' '));
        }
        i += 1;
    }
    out.append(s);
    proof {
        if n >= width {
            assert(out@ =~= s@);
        }
    }
    out
}

/// The number of sizes at least `lo` and, when `hi` is given, at most `hi`.
pub open spec fn count_between(sizes: Seq<nat>, lo: nat, hi: Option<nat>) -> nat
    decreases sizes.len(),
{
    if sizes.len() == 0 {
        0
    } else {
        count_between(sizes.drop_last(), lo, hi) + if lo <= sizes.last() && (match hi {
            Some(h) => sizes.last() <= h,
            None => true,
        }) {
            1nat
        } else {
            0nat
        }
    }
}

/// Whether a size lies in the bucket from `lo` up to `hi`, if bounded.
pub open spec fn in_bucket(x: nat, lo: nat, hi: Option<nat>) -> bool {
    lo <= x && match hi {
        Some(h) => x <= h,
        None => true,
    }
}

/// A bucket's count is the number of threads whose size lies in it.
pub proof fn lemma_bucket_count_exact(sizes: Seq<nat>, lo: nat, hi: Option<nat>)
    ensures
        count_between(sizes, lo, hi) == sizes.filter(|x: nat| in_bucket(x, lo, hi)).len(),
    decreases sizes.len(),
{
    if sizes.len() > 0 {
        let init = sizes.drop_last();
        lemma_bucket_count_exact(init, lo, hi);
        assert(sizes =~= init.push(sizes.last()));
        init.lemma_filter_push(sizes.last(), |x: nat| in_bucket(x, lo, hi));
    }
}

/// The largest of the sizes, zero when there is none.
pub open spec fn max_of(sizes: Seq<nat>) -> nat
    decreases sizes.len(),
{
    if sizes.len() == 0 {
        0
    } else if max_of(sizes.drop_last()) < sizes.last() {
        sizes.last()
    } else {
        max_of(sizes.drop_last())
    }
}

/// The largest of the sizes is at least each of them and is one of them.
proof fn lemma_max_of_bounds(sizes: Seq<nat>)
    ensures
        forall|i: int| 0 <= i < sizes.len() ==> #[trigger] sizes[i] <= max_of(sizes),
        sizes.len() > 0 ==> exists|i: int| 0 <= i < sizes.len() && sizes[i] == max_of(sizes),
    decreases sizes.len(),
{
    if sizes.len() > 0 {
        let init = sizes.drop_last();
        lemma_max_of_bounds(init);
        assert forall|i: int| 0 <= i < sizes.len() implies #[trigger] sizes[i] <= max_of(sizes) by {
            if i < sizes.len() - 1 {
                assert(sizes[i] == init[i]);
            }
        }
        if init.len() > 0 && max_of(init) >= sizes.last() {
            let i = choose|i: int| 0 <= i < init.len() && init[i] == max_of(init);
            assert(sizes[i] == init[i]);
        } else {
            assert(sizes[sizes.len() - 1] == sizes.last());
        }
    }
}

/// The "Largest" line of the thread sizes names the post count of the
/// web's largest thread: no thread holds more posts, and some thread holds
/// exactly that many.
pub proof fn lemma_largest_thread(th: Seq<(Seq<char>, ThreadModel)>)
    requires
        th.len() > 0,
    ensures
        exists|m: nat|
            {
                &&& #[trigger] size_lines(thread_sizes(th)).last() == "  Largest: "@ + spec_thousands(m) + " posts"@
                &&& forall|i: int| 0 <= i < th.len() ==> (#[trigger] th[i]).1.posts.len() <= m
                &&& exists|i: int| 0 <= i < th.len() && th[i].1.posts.len() == m
            },
{
    let sizes = thread_sizes(th);
    lemma_max_of_bounds(sizes);
    let m = max_of(sizes);
    assert forall|i: int| 0 <= i < th.len() implies (#[trigger] th[i]).1.posts.len() <= m by {
        assert(sizes[i] == th[i].1.posts.len());
    }
    let i = choose|i: int| 0 <= i < sizes.len() && sizes[i] == m;
    assert(th[i].1.posts.len() == m);
    assert(size_lines(sizes).last() == "  Largest: "@ + spec_thousands(m) + " posts"@);
}

/// The post count of each thread, in thread order.
pub open spec fn thread_sizes(th: Seq<(Seq<char>, ThreadModel)>) -> Seq<nat> {
    th.map_values(|e: (Seq<char>, ThreadModel)| e.1.posts.len())
}

/// A share as text: a whole number of percent, a point, and the tenths.
pub open spec fn percent_text(count: nat, total: nat) -> Seq<char> {
    spec_decimal(spec_percent_tenths(count, total) / 10) + "."@ + spec_decimal(spec_percent_tenths(count, total) % 10)
}

/// One line of the thread size distribution.
pub open spec fn bucket_text(label: Seq<char>, count: nat, total: nat) -> Seq<char> {
    "  "@ + spec_pad_right(label, 15) + " "@ + spec_thousands(count) + " threads ("@ + percent_text(count, total) + "%)"@
}

/// The lines of the thread size distribution.
pub open spec fn size_lines(sizes: Seq<nat>) -> Seq<Seq<char>> {
    seq![
        "Thread sizes:"@,
        bucket_text("1 post"@, count_between(sizes, 1, Some(1)), sizes.len()),
        bucket_text("2-10 posts"@, count_between(sizes, 2, Some(10)), sizes.len()),
        bucket_text("11-100 posts"@, count_between(sizes, 11, Some(100)), sizes.len()),
        bucket_text("100+ posts"@, count_between(sizes, 101, None), sizes.len()),
    ] + if sizes.len() > 0 {
        seq!["  Largest: "@ + spec_thousands(max_of(sizes)) + " posts"@]
    } else {
        Seq::empty()
    }
}

/// One line of the thread size distribution.
fn bucket_line(label: &str, count: usize, total: usize) -> (r: String)
    requires
        count <= total,
    ensures
        r@ == bucket_text(label@, count as nat, total as nat),
{
    let mut l = String::from_str("  ");
    let padded = pad_right(label, 15);
    l.append(padded.as_str());
    l.append(" ");
    let c = thousands(count);
    l.append(c.as_str());
    l.append(" threads (");
    let share = percent(count, total);
    l.append(share.as_str());
    l.append("%)");
    l
}

/// A count never exceeds the number of sizes.
proof fn lemma_count_bound(sizes: Seq<nat>, lo: nat, hi: Option<nat>)
    ensures
        count_between(sizes, lo, hi) <= sizes.len(),
    decreases sizes.len(),
{
    if sizes.len() > 0 {
        lemma_count_bound(sizes.drop_last(), lo, hi);
    }
}

/// The distribution of thread sizes and the largest thread.
pub fn thread_size_lines(web: &ContextWeb) -> (r: Vec<String>)
    ensures
        strings_of(r@) == size_lines(thread_sizes(web@.threads)),
{
    let threads = web.threads();
    let ghost sz = thread_sizes(web@.threads);
    let n = thread_map_len(threads);
    let mut ones: usize = 0;
    let mut small: usize = 0;
    let mut medium: usize = 0;
    let mut large: usize = 0;
    let mut largest: usize = 0;
    let mut i: usize = 0;
    while i < n
        invariant
            n == thread_entries(*threads).len(),
            thread_entries(*threads) == web@.threads,
            sz == thread_sizes(web@.threads),
            i <= n,
            ones == count_between(sz.take(i as int), 1, Some(1)),
            small == count_between(sz.take(i as int), 2, Some(10)),
            medium == count_between(sz.take(i as int), 11, Some(100)),
            large == count_between(sz.take(i as int), 101, None),
            largest == max_of(sz.take(i as int)),
        decreases n - i,
    {
        let (_, t) = thread_map_get_index(threads, i);
        let size = t.post_count();
        proof {
            let tk = sz.take(i + 1);
            assert(tk.drop_last() =~= sz.take(i as int));
            assert(tk.last() == size as nat);
            lemma_count_bound(sz.take(i as int), 1, Some(1));
            lemma_count_bound(sz.take(i as int), 2, Some(10));
            lemma_count_bound(sz.take(i as int), 11, Some(100));
            lemma_count_bound(sz.take(i as int), 101, None);
        }
        if size == 1 {
            ones += 1;
        } else if 2 <= size && size <= 10 {
            small += 1;
        } else if 11 <= size && size <= 100 {
            medium += 1;
        } else if size > 100 {
            large += 1;
        }
        if size > largest {
            largest = size;
        }
        i += 1;
    }
    proof {
        assert(sz.take(n as int) =~= sz);
        lemma_count_bound(sz, 1, Some(1));
        lemma_count_bound(sz, 2, Some(10));
        lemma_count_bound(sz, 11, Some(100));
        lemma_count_bound(sz, 101, None);
    }
    let mut lines: Vec<String> = Vec::new();
    lines.push(String::from_str("Thread sizes:"));
    lines.push(bucket_line("1 post", ones, n));
    lines.push(bucket_line("2-10 posts", small, n));
    lines.push(bucket_line("11-100 posts", medium, n));
    lines.push(bucket_line("100+ posts", large, n));
    if n > 0 {
        let mut l = String::from_str("  Largest: ");
        let c = thousands(largest);
        l.append(c.as_str());
        l.append(" posts");
        lines.push(l);
    }
    assert(strings_of(lines@) =~= size_lines(sz));
    lines
}

/// The first entry for handle `h`.
pub open spec fn handle_pos(counts: Seq<(Seq<char>, Seq<char>, nat)>, h: Seq<char>) -> Option<int>
    decreases counts.len(),
{
    if counts.len() == 0 {
        None
    } else if counts[0].0 == h {
        Some(0)
    } else {
        match handle_pos(counts.drop_first(), h) {
            Some(k) => Some(k + 1),
            None => None,
        }
    }
}

/// Where the first entry for a handle is, if any.
pub(crate) proof fn lemma_handle_pos(counts: Seq<(Seq<char>, Seq<char>, nat)>, h: Seq<char>, f: int)
    requires
        0 <= f <= counts.len(),
        forall|k: int| 0 <= k < f ==> #[trigger] counts[k].0 != h,
        f < counts.len() ==> counts[f].0 == h,
    ensures
        handle_pos(counts, h) == if f < counts.len() {
            Some(f)
        } else {
            None::<int>
        },
    decreases f,
{
    if counts.len() > 0 && f > 0 {
        let rest = counts.drop_first();
        assert forall|k: int| 0 <= k < f - 1 implies #[trigger] rest[k].0 != h by {
            assert(rest[k] == counts[k + 1]);
        }
        lemma_handle_pos(rest, h, f - 1);
    }
}

/// Each author (by handle) in order of first post, with the display name
/// shown for their first post and their number of posts.
pub open spec fn author_counts(posts: Seq<PostModel>) -> Seq<(Seq<char>, Seq<char>, nat)>
    decreases posts.len(),
{
    if posts.len() == 0 {
        Seq::empty()
    } else {
        let rest = author_counts(posts.drop_last());
        let p = posts.last();
        match handle_pos(rest, p.author.handle) {
            Some(k) => rest.update(k, (rest[k].0, rest[k].1, rest[k].2 + 1)),
            None => rest.push((p.author.handle, spec_author_name(p.author), 1nat)),
        }
    }
}

/// The number of posts by the author with handle `h`.
pub open spec fn posts_by(posts: Seq<PostModel>, h: Seq<char>) -> nat {
    posts.filter(|p: PostModel| p.author.handle == h).len()
}

/// Each author is listed once, with the number of posts they wrote; an
/// author with no post is not listed.
pub proof fn lemma_author_counts_exact(posts: Seq<PostModel>, h: Seq<char>)
    ensures
        forall|a: int, b: int|
            0 <= a < author_counts(posts).len() && 0 <= b < author_counts(posts).len() && a != b ==> (
            #[trigger] author_counts(posts)[a]).0 != (#[trigger] author_counts(posts)[b]).0,
        posts_by(posts, h) == 0 ==> forall|k: int|
            0 <= k < author_counts(posts).len() ==> (#[trigger] author_counts(posts)[k]).0 != h,
        posts_by(posts, h) > 0 ==> exists|k: int|
            0 <= k < author_counts(posts).len() && (#[trigger] author_counts(posts)[k]).0 == h
                && author_counts(posts)[k].2 == posts_by(posts, h),
    decreases posts.len(),
{
    if posts.len() > 0 {
        let init = posts.drop_last();
        let p = posts.last();
        let hp = p.author.handle;
        let rest = author_counts(init);
        let ac = author_counts(posts);
        lemma_author_counts_exact(init, h);
        lemma_author_counts_exact(init, hp);
        assert(posts =~= init.push(p));
        init.lemma_filter_push(p, |q: PostModel| q.author.handle == h);
        init.lemma_filter_push(p, |q: PostModel| q.author.handle == hp);
        if posts_by(init, hp) > 0 {
            let k0 = choose|k: int| 0 <= k < rest.len() && (#[trigger] rest[k]).0 == hp && rest[k].2 == posts_by(init, hp);
            assert forall|k: int| 0 <= k < k0 implies #[trigger] rest[k].0 != hp by {
                assert(rest[k].0 != rest[k0].0);
            }
            lemma_handle_pos(rest, hp, k0);
            assert(ac == rest.update(k0, (rest[k0].0, rest[k0].1, rest[k0].2 + 1)));
            assert forall|a: int, b: int| 0 <= a < ac.len() && 0 <= b < ac.len() && a != b implies (#[trigger] ac[a]).0
                != (#[trigger] ac[b]).0 by {
                assert(ac[a].0 == rest[a].0 && ac[b].0 == rest[b].0);
            }
            if posts_by(init, h) > 0 {
                let k = choose|k: int| 0 <= k < rest.len() && (#[trigger] rest[k]).0 == h && rest[k].2 == posts_by(init, h);
                assert(ac[k].0 == h);
            } else if h == hp {
                assert(ac[k0].0 == h);
            } else {
                assert forall|k: int| 0 <= k < ac.len() implies (#[trigger] ac[k]).0 != h by {
                    assert(ac[k].0 == rest[k].0);
                }
            }
        } else {
            assert forall|k: int| 0 <= k < rest.len() implies #[trigger] rest[k].0 != hp by {}
            lemma_handle_pos(rest, hp, rest.len() as int);
            assert(ac == rest.push((hp, spec_author_name(p.author), 1nat)));
            assert forall|a: int, b: int| 0 <= a < ac.len() && 0 <= b < ac.len() && a != b implies (#[trigger] ac[a]).0
                != (#[trigger] ac[b]).0 by {
                if a < rest.len() && b < rest.len() {
                    assert(ac[a] == rest[a] && ac[b] == rest[b]);
                } else if a < rest.len() {
                    assert(ac[a] == rest[a]);
                } else if b < rest.len() {
                    assert(ac[b] == rest[b]);
                }
            }
            if posts_by(init, h) > 0 {
                let k = choose|k: int| 0 <= k < rest.len() && (#[trigger] rest[k]).0 == h && rest[k].2 == posts_by(init, h);
                assert(ac[k] == rest[k]);
            } else if h == hp {
                assert(ac[rest.len() as int].0 == h);
            } else {
                assert forall|k: int| 0 <= k < ac.len() implies (#[trigger] ac[k]).0 != h by {
                    if k < rest.len() {
                        assert(ac[k] == rest[k]);
                    }
                }
            }
        }
    }
}

/// The post counts as ranking keys.
pub open spec fn count_keys(counts: Seq<(Seq<char>, Seq<char>, nat)>) -> Seq<u64> {
    counts.map_values(|c: (Seq<char>, Seq<char>, nat)| c.2 as u64)
}

/// The line of the `k`-th ranked author.
pub open spec fn author_line(k: nat, name: Seq<char>, count: nat) -> Seq<char> {
    "  "@ + spec_pad_left(spec_decimal(k), 2) + ". "@ + name + " - "@ + spec_thousands(count) + " posts"@
}

/// The lines of the first `n` ranked authors.
pub open spec fn author_lines(ranked: Seq<(Seq<char>, Seq<char>, nat)>, n: nat) -> Seq<Seq<char>>
    decreases n,
{
    if n == 0 {
        Seq::empty()
    } else {
        author_lines(ranked, (n - 1) as nat).push(author_line(n, ranked[n - 1].1, ranked[n - 1].2))
    }
}

/// The entries taken in the order `perm` lists them.
pub open spec fn counts_in(counts: Seq<(Seq<char>, Seq<char>, nat)>, perm: Seq<usize>) -> Seq<
    (Seq<char>, Seq<char>, nat),
> {
    Seq::new(perm.len(), |i: int| counts[perm[i] as int])
}

/// The heading and the lines of the ten most prolific authors.
pub open spec fn top_authors_text(ranked: Seq<(Seq<char>, Seq<char>, nat)>) -> Seq<Seq<char>> {
    seq!["Top authors by post count:"@] + author_lines(ranked, if ranked.len() < 10 { ranked.len() } else { 10 })
}

/// A position found lies within the entries.
pub(crate) proof fn lemma_handle_pos_range(counts: Seq<(Seq<char>, Seq<char>, nat)>, h: Seq<char>)
    ensures
        handle_pos(counts, h) matches Some(k) ==> 0 <= k < counts.len(),
    decreases counts.len(),
{
    if counts.len() > 0 {
        lemma_handle_pos_range(counts.drop_first(), h);
    }
}

/// Counts never exceed the number of posts counted.
proof fn lemma_author_counts_bound(posts: Seq<PostModel>)
    ensures
        forall|k: int| 0 <= k < author_counts(posts).len() ==> #[trigger] author_counts(posts)[k].2 <= posts.len(),
        author_counts(posts).len() <= posts.len(),
    decreases posts.len(),
{
    if posts.len() > 0 {
        lemma_author_counts_bound(posts.drop_last());
        lemma_handle_pos_range(author_counts(posts.drop_last()), posts.last().author.handle);
    }
}

/// The ten authors with the most posts.
#[verifier::spinoff_prover]
pub fn top_author_lines(web: &ContextWeb) -> (r: Vec<String>)
    ensures
        ({
            let counts = author_counts(web_posts(web@.threads));
            exists|perm: Seq<usize>|
                #[trigger] ranked_by_count(count_keys(counts), perm) && strings_of(r@) == top_authors_text(
                    counts_in(counts, perm),
                )
        }),
{
    let all = web.iter_posts();
    let ghost pv = web_posts(web@.threads);
    proof {
        assert(posts_of(all@) =~= pv);
    }
    let mut handles: Vec<&str> = Vec::new();
    let mut names: Vec<String> = Vec::new();
    let mut counts: Vec<u64> = Vec::new();
    let n = all.len();
    let mut i: usize = 0;
    while i < n
        invariant
            n == all@.len(),
            pv == posts_of(all@),
            i <= n,
            handles@.len() == counts@.len(),
            names@.len() == counts@.len(),
            counts@.len() == author_counts(pv.take(i as int)).len(),
            forall|k: int|
                0 <= k < counts@.len() ==> (#[trigger] handles@[k])@ == author_counts(pv.take(i as int))[k].0
                    && names@[k]@ == author_counts(pv.take(i as int))[k].1 && counts@[k] as nat == author_counts(
                    pv.take(i as int),
                )[k].2,
        decreases n - i,
    {
        let p = all[i];
        let ghost prev = author_counts(pv.take(i as int));
        proof {
            lemma_author_counts_bound(pv.take(i as int));
        }
        let m = handles.len();
        let mut j: usize = 0;
        let mut found: Option<usize> = None;
        while j < m && found.is_none()
            invariant
                m == handles@.len(),
                m == prev.len(),
                j <= m,
                forall|k: int| 0 <= k < m ==> (#[trigger] handles@[k])@ == prev[k].0,
                found matches Some(f) ==> f < m && f == j - 1 && prev[f as int].0 == p@.author.handle,
                found is None ==> forall|k: int| 0 <= k < j ==> #[trigger] prev[k].0 != p@.author.handle,
                found matches Some(f) ==> forall|k: int| 0 <= k < f ==> #[trigger] prev[k].0 != p@.author.handle,
            decreases m - j,
        {
            if str_eq(handles[j], p.author.handle.as_str()) {
                found = Some(j);
            }
            j += 1;
        }
        proof {
            let tk = pv.take(i + 1);
            assert(tk.drop_last() =~= pv.take(i as int));
            assert(tk.last() == p@);
        }
        let ghost oh = handles@;
        let ghost on = names@;
        let ghost oc = counts@;
        proof {
            assert forall|k: int| 0 <= k < m implies (#[trigger] oh[k])@ == prev[k].0 && on[k]@ == prev[k].1
                && oc[k] as nat == prev[k].2 by {
                assert(handles@[k]@ == prev[k].0);
            }
        }
        match found {
            Some(f) => {
                proof {
                    lemma_handle_pos(prev, p@.author.handle, f as int);
                    assert(handles@[f as int]@ == prev[f as int].0);
                    assert(counts@[f as int] as nat == prev[f as int].2);
                    assert(prev[f as int].2 <= i);
                }
                let c = counts[f] + 1;
                counts.set(f, c);
            },
            None => {
                proof {
                    lemma_handle_pos(prev, p@.author.handle, m as int);
                }
                handles.push(p.author.handle.as_str());
                names.push(author_name(p));
                counts.push(1);
            },
        }
        proof {
            let next = author_counts(pv.take(i + 1));
            assert forall|k: int| 0 <= k < counts@.len() implies (#[trigger] handles@[k])@ == next[k].0
                && names@[k]@ == next[k].1 && counts@[k] as nat == next[k].2 by {
                if k < m {
                    assert(oh[k]@ == prev[k].0);
                }
            }
        }
        i += 1;
    }
    let ghost cv = author_counts(pv);
    proof {
        assert(pv.take(n as int) =~= pv);
        assert forall|x: int| 0 <= x < counts@.len() implies names@[x]@ == (#[trigger] cv[x]).1 && counts@[x] as nat
            == cv[x].2 by {
            assert(handles@[x]@ == cv[x].0);
        }
        assert(counts@ =~= count_keys(cv));
    }
    let order = rank_by_count(&counts);
    let ghost ranked = counts_in(cv, order@);
    let mut lines: Vec<String> = Vec::new();
    lines.push(String::from_str("Top authors by post count:"));
    let m = counts.len();
    let shown = if m < 10 { m } else { 10 };
    let mut k: usize = 0;
    while k < shown
        invariant
            shown <= m,
            m == counts@.len(),
            m == names@.len(),
            m == cv.len(),
            forall|x: int| 0 <= x < m ==> names@[x]@ == (#[trigger] cv[x]).1 && counts@[x] as nat == cv[x].2,
            crate::lens::order::is_permutation(order@, counts@.len()),
            ranked == counts_in(cv, order@),
            k <= shown,
            strings_of(lines@) == seq!["Top authors by post count:"@] + author_lines(ranked, k as nat),
        decreases shown - k,
    {
        let idx = order[k];
        let mut l = String::from_str("  ");
        let rank = dec(k + 1);
        let padded = pad_left(rank.as_str(), 2);
        l.append(padded.as_str());
        l.append(". ");
        l.append(names[idx].as_str());
        l.append(" - ");
        let c = thousands_u64(counts[idx]);
        l.append(c.as_str());
        l.append(" posts");
        let ghost before = strings_of(lines@);
        lines.push(l);
        proof {
            assert(ranked[k as int] == cv[idx as int]);
            assert(strings_of(lines@) =~= before.push(author_line((k + 1) as nat, cv[idx as int].1, cv[idx as int].2)));
        }
        k += 1;
    }
    proof {
        assert(ranked_by_count(count_keys(cv), order@));
    }
    lines
}

/// The two lines of the `k`-th ranked post.
pub open spec fn post_rank_block(k: nat, p: PostModel) -> Seq<Seq<char>> {
    seq![
        "  "@ + spec_pad_left(spec_decimal(k), 2) + ". ["@ + spec_thousands(spec_engagement(p) as nat) + " engagement] "@
            + spec_author_name(p.author),
        "      "@ + spec_truncate(p.text, 80),
    ]
}

/// The lines of the first `n` ranked posts.
pub open spec fn post_rank_lines(ranked: Seq<PostModel>, n: nat) -> Seq<Seq<char>>
    decreases n,
{
    if n == 0 {
        Seq::empty()
    } else {
        post_rank_lines(ranked, (n - 1) as nat) + post_rank_block(n, ranked[n - 1])
    }
}

/// The heading and the lines of the ten posts with most engagement.
pub open spec fn top_posts_text(ranked: Seq<PostModel>) -> Seq<Seq<char>> {
    seq!["Top posts by engagement:"@] + post_rank_lines(ranked, if ranked.len() < 10 { ranked.len() } else { 10 })
}

/// The ten posts with the highest engagement.
pub fn top_post_lines(web: &ContextWeb) -> (r: Vec<String>)
    ensures
        ({
            let all = web_posts(web@.threads);
            exists|perm: Seq<usize>|
                #[trigger] ranked_by_count(engagements(all), perm) && strings_of(r@) == top_posts_text(
                    ordered(all, perm),
                )
        }),
{
    let all = web.iter_posts();
    let ghost pv = web_posts(web@.threads);
    proof {
        assert(posts_of(all@) =~= pv);
    }
    let ranked = by_engagement(&all);
    let ghost perm = choose|perm: Seq<usize>|
        #[trigger] ranked_by_count(engagements(posts_of(all@)), perm) && posts_of(ranked@) == ordered(
            posts_of(all@),
            perm,
        );
    let ghost rv = posts_of(ranked@);
    let mut lines: Vec<String> = Vec::new();
    lines.push(String::from_str("Top posts by engagement:"));
    let n = ranked.len();
    let shown = if n < 10 { n } else { 10 };
    let mut k: usize = 0;
    while k < shown
        invariant
            shown <= n,
            n == ranked@.len(),
            rv == posts_of(ranked@),
            k <= shown,
            strings_of(lines@) == seq!["Top posts by engagement:"@] + post_rank_lines(rv, k as nat),
        decreases shown - k,
    {
        let post = ranked[k];
        let mut l = String::from_str("  ");
        let rank = dec(k + 1);
        let padded = pad_left(rank.as_str(), 2);
        l.append(padded.as_str());
        l.append(". [");
        let eng = thousands_u64(post.engagement_wide());
        l.append(eng.as_str());
        l.append(" engagement] ");
        let name = author_name(post);
        l.append(name.as_str());
        let ghost l1 = l@;
        let ghost before = strings_of(lines@);
        lines.push(l);
        let mut t = String::from_str("      ");
        let text = truncate(post.text.as_str(), 80);
        t.append(text.as_str());
        let ghost l2 = t@;
        lines.push(t);
        proof {
            assert(rv[k as int] == post@);
            assert(strings_of(lines@) =~= before + seq![l1, l2]);
            assert(seq![l1, l2] =~= post_rank_block((k + 1) as nat, post@));
        }
        k += 1;
    }
    lines
}

/// `a + b`, capped at the largest `usize`.
pub open spec fn sat_usize(a: nat, b: nat) -> nat {
    if a + b > usize::MAX {
        usize::MAX as nat
    } else {
        a + b
    }
}

/// The number of posts in the web's thread with root `root`, if it holds one.
pub open spec fn thread_posts(w: WebModel, root: Seq<char>) -> Option<nat> {
    match lookup(w.threads, root) {
        Some(t) => Some(t.posts.len()),
        None => None,
    }
}

/// The posts of the listed threads at distance `d`, summed with the sum
/// capped at the largest `usize`.
pub open spec fn hop_sum(w: WebModel, dv: Seq<(Seq<char>, usize)>, d: nat) -> nat
    decreases dv.len(),
{
    if dv.len() == 0 {
        0
    } else {
        let rest = hop_sum(w, dv.drop_last(), d);
        if dv.last().1 == d {
            match thread_posts(w, dv.last().0) {
                Some(n) => sat_usize(rest, n),
                None => rest,
            }
        } else {
            rest
        }
    }
}

/// Whether some listed thread at distance `d` is in the web.
pub open spec fn hop_present(w: WebModel, dv: Seq<(Seq<char>, usize)>, d: nat) -> bool
    decreases dv.len(),
{
    if dv.len() == 0 {
        false
    } else {
        hop_present(w, dv.drop_last(), d) || (dv.last().1 == d && thread_posts(w, dv.last().0) is Some)
    }
}

/// The largest listed distance, zero when none is listed.
pub open spec fn max_distance(dv: Seq<(Seq<char>, usize)>) -> nat
    decreases dv.len(),
{
    if dv.len() == 0 {
        0
    } else if max_distance(dv.drop_last()) < dv.last().1 {
        dv.last().1 as nat
    } else {
        max_distance(dv.drop_last())
    }
}

/// The lines of the distances below `n` that have posts.
pub open spec fn hop_lines(w: WebModel, dv: Seq<(Seq<char>, usize)>, n: nat) -> Seq<Seq<char>>
    decreases n,
{
    if n == 0 {
        Seq::empty()
    } else {
        let d = (n - 1) as nat;
        hop_lines(w, dv, d) + if hop_present(w, dv, d) {
            seq!["  Hop "@ + spec_decimal(d) + ": "@ + spec_thousands(hop_sum(w, dv, d)) + " posts"@]
        } else {
            Seq::empty()
        }
    }
}

/// The posts at the distances below `n`, summed with the sum capped.
pub open spec fn reachable_below(w: WebModel, dv: Seq<(Seq<char>, usize)>, n: nat) -> nat
    decreases n,
{
    if n == 0 {
        0
    } else {
        let d = (n - 1) as nat;
        if hop_present(w, dv, d) {
            sat_usize(reachable_below(w, dv, d), hop_sum(w, dv, d))
        } else {
            reachable_below(w, dv, d)
        }
    }
}

/// The heading, a line per distance that has posts, and the count of posts
/// no quote path reaches when there are any.
pub open spec fn hop_text(w: WebModel, dv: Seq<(Seq<char>, usize)>) -> Seq<Seq<char>> {
    let n = max_distance(dv) + 1;
    let reach = reachable_below(w, dv, n);
    let unreachable = if w.index.len() > reach {
        (w.index.len() - reach) as nat
    } else {
        0
    };
    seq!["Quote-hop depth from root thread:"@] + hop_lines(w, dv, n) + if unreachable > 0 {
        seq!["  Unreachable: "@ + spec_thousands(unreachable) + " posts"@]
    } else {
        Seq::empty()
    }
}

/// The posts and the presence of the listed threads at distance `d`.
fn hop_count(web: &ContextWeb, distances: &Vec<(String, usize)>, d: usize) -> (r: (usize, bool))
    ensures
        r.0 == hop_sum(web@, dist_view(distances@), d as nat),
        r.1 == hop_present(web@, dist_view(distances@), d as nat),
{
    let ghost dv = dist_view(distances@);
    let nd = distances.len();
    let mut sum: usize = 0;
    let mut present = false;
    let mut k: usize = 0;
    while k < nd
        invariant
            nd == distances@.len(),
            dv == dist_view(distances@),
            k <= nd,
            sum == hop_sum(web@, dv.take(k as int), d as nat),
            present == hop_present(web@, dv.take(k as int), d as nat),
        decreases nd - k,
    {
        proof {
            let tk = dv.take(k + 1);
            assert(tk.drop_last() =~= dv.take(k as int));
            assert(tk.last() == (distances@[k as int].0@, distances@[k as int].1));
        }
        if distances[k].1 == d {
            if let Some(t) = web.thread(distances[k].0.as_str()) {
                sum = sum.saturating_add(t.post_count());
                present = true;
            }
        }
        k += 1;
    }
    proof {
        assert(dv.take(nd as int) =~= dv);
    }
    (sum, present)
}

/// Posts per quote-hop distance from the root thread, and the posts no
/// quote path reaches; nothing when the root is not in the web.
pub fn quote_hop_lines(web: &ContextWeb) -> (r: Vec<String>)
    ensures
        match lookup(web@.index, web@.root_uri) {
            None => r@.len() == 0,
            Some(root) => exists|dv: Seq<(Seq<char>, usize)>|
                #[trigger] is_hop_distances(web@.quote_edges, root, dv) && strings_of(r@) == hop_text(web@, dv),
        },
{
    let root_thread = match web.thread_root_for(web.root()) {
        Some(t) => t,
        None => return Vec::new(),
    };
    let distances = thread_hop_distances(web, root_thread);
    let ghost dv = dist_view(distances@);
    let nd = distances.len();
    let mut max_d: usize = 0;
    let mut i: usize = 0;
    while i < nd
        invariant
            nd == distances@.len(),
            dv == dist_view(distances@),
            i <= nd,
            max_d == max_distance(dv.take(i as int)),
        decreases nd - i,
    {
        proof {
            let tk = dv.take(i + 1);
            assert(tk.drop_last() =~= dv.take(i as int));
            assert(tk.last().1 == distances@[i as int].1);
        }
        if distances[i].1 > max_d {
            max_d = distances[i].1;
        }
        i += 1;
    }
    proof {
        assert(dv.take(nd as int) =~= dv);
    }
    let mut lines: Vec<String> = Vec::new();
    lines.push(String::from_str("Quote-hop depth from root thread:"));
    let mut reachable: usize = 0;
    let mut d: usize = 0;
    let mut finished = false;
    while !finished
        invariant
            dv == dist_view(distances@),
            max_d == max_distance(dv),
            d <= max_d,
            !finished ==> strings_of(lines@) == seq!["Quote-hop depth from root thread:"@] + hop_lines(
                web@,
                dv,
                d as nat,
            ) && reachable == reachable_below(web@, dv, d as nat),
            finished ==> d == max_d && strings_of(lines@) == seq!["Quote-hop depth from root thread:"@]
                + hop_lines(web@, dv, (max_d + 1) as nat) && reachable == reachable_below(
                web@,
                dv,
                (max_d + 1) as nat,
            ),
        decreases max_d - d + if finished {
            0int
        } else {
            1int
        },
    {
        let (sum, present) = hop_count(web, &distances, d);
        let ghost before = strings_of(lines@);
        let ghost hop_line = "  Hop "@ + spec_decimal(d as nat) + ": "@ + spec_thousands(hop_sum(web@, dv, d as nat))
            + " posts"@;
        proof {
            assert(hop_lines(web@, dv, (d + 1) as nat) == hop_lines(web@, dv, d as nat) + if hop_present(
                web@,
                dv,
                d as nat,
            ) {
                seq![hop_line]
            } else {
                Seq::<Seq<char>>::empty()
            });
            assert(reachable_below(web@, dv, (d + 1) as nat) == if hop_present(web@, dv, d as nat) {
                sat_usize(reachable_below(web@, dv, d as nat), hop_sum(web@, dv, d as nat))
            } else {
                reachable_below(web@, dv, d as nat)
            });
        }
        if present {
            let mut l = String::from_str("  Hop ");
            let ds = dec(d);
            l.append(ds.as_str());
            l.append(": ");
            let c = thousands(sum);
            l.append(c.as_str());
            l.append(" posts");
            proof {
                assert(l@ == hop_line);
            }
            lines.push(l);
            proof {
                assert(strings_of(lines@) =~= before.push(hop_line));
            }
            reachable = reachable.saturating_add(sum);
        }
        proof {
            assert(strings_of(lines@) =~= seq!["Quote-hop depth from root thread:"@] + hop_lines(
                web@,
                dv,
                (d + 1) as nat,
            ));
        }
        if d == max_d {
            finished = true;
        } else {
            d += 1;
        }
    }
    let unreachable = web.node_count().saturating_sub(reachable);
    if unreachable > 0 {
        let mut l = String::from_str("  Unreachable: ");
        let c = thousands(unreachable);
        l.append(c.as_str());
        l.append(" posts");
        lines.push(l);
    }
    proof {
        assert(strings_of(lines@) =~= hop_text(web@, dv));
        assert(is_hop_distances(web@.quote_edges, root_thread@, dv));
    }
    lines
}

/// Appends every line of `more`.
fn extend_lines(lines: &mut Vec<String>, more: Vec<String>)
    ensures
        strings_of(final(lines)@) == strings_of(old(lines)@) + strings_of(more@),
{
    let ghost start = strings_of(lines@);
    let n = more.len();
    let mut i: usize = 0;
    while i < n
        invariant
            n == more@.len(),
            i <= n,
            strings_of(lines@) == start + strings_of(more@).take(i as int),
        decreases n - i,
    {
        let ghost before = strings_of(lines@);
        lines.push(more[i].clone());
        proof {
            assert(strings_of(more@).take(i + 1) =~= strings_of(more@).take(i as int).push(more@[i as int]@));
            assert(strings_of(lines@) =~= before.push(more@[i as int]@));
        }
        i += 1;
    }
    proof {
        assert(strings_of(more@).take(n as int) =~= strings_of(more@));
    }
}

/// The earliest non-empty creation time, the first of equal ones.
pub open spec fn earliest_time(posts: Seq<PostModel>) -> Option<Seq<char>>
    decreases posts.len(),
{
    if posts.len() == 0 {
        None
    } else {
        let m = earliest_time(posts.drop_last());
        let t = posts.last().created_at;
        if t.len() == 0 {
            m
        } else {
            match m {
                None => Some(t),
                Some(e) => if seq_lt(t, e) {
                    Some(t)
                } else {
                    Some(e)
                },
            }
        }
    }
}

/// The latest non-empty creation time.
pub open spec fn latest_time(posts: Seq<PostModel>) -> Option<Seq<char>>
    decreases posts.len(),
{
    if posts.len() == 0 {
        None
    } else {
        let m = latest_time(posts.drop_last());
        let t = posts.last().created_at;
        if t.len() == 0 {
            m
        } else {
            match m {
                None => Some(t),
                Some(l) => if seq_lt(t, l) {
                    Some(l)
                } else {
                    Some(t)
                },
            }
        }
    }
}

/// The counts at the top of the statistics.
pub open spec fn summary_lines(w: WebModel) -> Seq<Seq<char>> {
    let all = web_posts(w.threads);
    let replies = count_replies(all);
    seq![
        "=== CONTEXT WEB STATISTICS ==="@,
        Seq::<char>::empty(),
        "Posts: "@ + spec_thousands(w.index.len()) + " across "@ + spec_thousands(w.threads.len()) + " threads"@,
        "Edges: "@ + spec_thousands(replies) + " reply + "@ + spec_thousands(w.quote_edges.len()) + " quote = "@
            + spec_thousands(sat_usize(replies, w.quote_edges.len())) + " total"@,
    ] + match (earliest_time(all), latest_time(all)) {
        (Some(a), Some(b)) => seq!["Time span: "@ + spec_short_time(a) + " to "@ + spec_short_time(b)],
        _ => Seq::empty(),
    }
}

/// The quote-hop section: empty when the root is not in the web.
pub open spec fn hop_section(w: WebModel, dv: Seq<(Seq<char>, usize)>) -> Seq<Seq<char>> {
    match lookup(w.index, w.root_uri) {
        Some(root) => hop_text(w, dv),
        None => Seq::empty(),
    }
}

/// Every line of the statistics, given the ranked authors, the ranked
/// posts and the hop distances.
pub open spec fn stats_lines(
    w: WebModel,
    authors: Seq<(Seq<char>, Seq<char>, nat)>,
    posts: Seq<PostModel>,
    dv: Seq<(Seq<char>, usize)>,
) -> Seq<Seq<char>> {
    summary_lines(w) + seq![Seq::<char>::empty()] + size_lines(thread_sizes(w.threads)) + seq![Seq::<char>::empty()]
        + top_authors_text(authors) + seq![Seq::<char>::empty()] + top_posts_text(posts) + seq![Seq::<char>::empty()]
        + hop_section(w, dv)
}

/// The rankings and distances the statistics are built on.
pub open spec fn stats_basis(
    w: WebModel,
    aperm: Seq<usize>,
    pperm: Seq<usize>,
    dv: Seq<(Seq<char>, usize)>,
) -> bool {
    let all = web_posts(w.threads);
    &&& ranked_by_count(count_keys(author_counts(all)), aperm)
    &&& ranked_by_count(engagements(all), pperm)
    &&& (lookup(w.index, w.root_uri) matches Some(root) ==> is_hop_distances(w.quote_edges, root, dv))
}

/// Renders summary statistics: counts, time span, thread size distribution,
/// leading authors and posts, and the quote-hop depth profile.
pub(crate) fn render(web: &ContextWeb) -> (r: String)
    ensures
        exists|aperm: Seq<usize>, pperm: Seq<usize>, dv: Seq<(Seq<char>, usize)>|
            #[trigger] stats_basis(web@, aperm, pperm, dv) && r@ == spec_text(
                stats_lines(
                    web@,
                    counts_in(author_counts(web_posts(web@.threads)), aperm),
                    ordered(web_posts(web@.threads), pperm),
                    dv,
                ),
            ),
{
    let mut lines: Vec<String> = Vec::new();
    lines.push(String::from_str("=== CONTEXT WEB STATISTICS ==="));
    lines.push(String::new());
    let all = web.iter_posts();
    let ghost av = web_posts(web@.threads);
    proof {
        assert(posts_of(all@) =~= av);
    }
    let n = all.len();
    let mut reply_edges: usize = 0;
    let mut earliest: Option<&str> = None;
    let mut latest: Option<&str> = None;
    let mut i: usize = 0;
    while i < n
        invariant
            n == all@.len(),
            av == posts_of(all@),
            i <= n,
            reply_edges == count_replies(av.take(i as int)),
            reply_edges <= i,
            crate::lens::timeline::opt_str_view(earliest) == earliest_time(av.take(i as int)),
            crate::lens::timeline::opt_str_view(latest) == latest_time(av.take(i as int)),
        decreases n - i,
    {
        let p = all[i];
        proof {
            let tk = av.take(i + 1);
            assert(tk.drop_last() =~= av.take(i as int));
            assert(tk.last() == p@);
        }
        if p.reply_parent.is_some() {
            reply_edges += 1;
        }
        let t = p.created_at.as_str();
        if t.unicode_len() > 0 {
            earliest = match earliest {
                Some(e) => if str_lt(t, e) {
                    Some(t)
                } else {
                    Some(e)
                },
                None => Some(t),
            };
            latest = match latest {
                Some(l) => if str_lt(t, l) {
                    Some(l)
                } else {
                    Some(t)
                },
                None => Some(t),
            };
        }
        i += 1;
    }
    proof {
        assert(av.take(n as int) =~= av);
    }
    let edge_list = web.edges();
    let quote_edges = edge_list.len();
    proof {
        assert(edges_view(edge_list@).len() == quote_edges);
    }
    let mut l = String::from_str("Posts: ");
    let posts = thousands(web.node_count());
    l.append(posts.as_str());
    l.append(" across ");
    let threads = thousands(web.thread_count());
    l.append(threads.as_str());
    l.append(" threads");
    lines.push(l);
    let mut e = String::from_str("Edges: ");
    let r = thousands(reply_edges);
    e.append(r.as_str());
    e.append(" reply + ");
    let q = thousands(quote_edges);
    e.append(q.as_str());
    e.append(" quote = ");
    let total = thousands(reply_edges.saturating_add(quote_edges));
    e.append(total.as_str());
    e.append(" total");
    lines.push(e);
    if let (Some(first), Some(last)) = (earliest, latest) {
        let mut s = String::from_str("Time span: ");
        let a = short_time(first);
        s.append(a.as_str());
        s.append(" to ");
        let b = short_time(last);
        s.append(b.as_str());
        lines.push(s);
    }
    proof {
        assert(strings_of(lines@) =~= summary_lines(web@));
    }
    let ghost s0 = strings_of(lines@);
    lines.push(String::new());
    proof {
        assert(strings_of(lines@) =~= s0 + seq![Seq::<char>::empty()]);
    }
    let ghost s1 = strings_of(lines@);
    let sizes = thread_size_lines(web);
    extend_lines(&mut lines, sizes);
    let ghost s2 = strings_of(lines@);
    lines.push(String::new());
    proof {
        assert(strings_of(lines@) =~= s2 + seq![Seq::<char>::empty()]);
    }
    let ghost s3 = strings_of(lines@);
    let authors = top_author_lines(web);
    let ghost aperm = choose|perm: Seq<usize>|
        #[trigger] ranked_by_count(count_keys(author_counts(av)), perm) && strings_of(authors@) == top_authors_text(
            counts_in(author_counts(av), perm),
        );
    extend_lines(&mut lines, authors);
    let ghost s4 = strings_of(lines@);
    lines.push(String::new());
    proof {
        assert(strings_of(lines@) =~= s4 + seq![Seq::<char>::empty()]);
    }
    let ghost s5 = strings_of(lines@);
    let top_posts = top_post_lines(web);
    let ghost pperm = choose|perm: Seq<usize>|
        #[trigger] ranked_by_count(engagements(av), perm) && strings_of(top_posts@) == top_posts_text(
            ordered(av, perm),
        );
    extend_lines(&mut lines, top_posts);
    let ghost s6 = strings_of(lines@);
    lines.push(String::new());
    proof {
        assert(strings_of(lines@) =~= s6 + seq![Seq::<char>::empty()]);
    }
    let ghost s7 = strings_of(lines@);
    let hops = quote_hop_lines(web);
    let ghost dv = match lookup(web@.index, web@.root_uri) {
        Some(root) => choose|dv: Seq<(Seq<char>, usize)>|
            #[trigger] is_hop_distances(web@.quote_edges, root, dv) && strings_of(hops@) == hop_text(web@, dv),
        None => Seq::empty(),
    };
    proof {
        assert(strings_of(hops@) == hop_section(web@, dv));
    }
    extend_lines(&mut lines, hops);
    proof {
        assert(strings_of(lines@) == stats_lines(web@, counts_in(author_counts(av), aperm), ordered(av, pperm), dv));
        assert(stats_basis(web@, aperm, pperm, dv));
    }
    finish_lines(&lines)
}

/// The summed engagement of the posts, uncapped.
pub open spec fn engagement_total(posts: Seq<PostModel>) -> nat
    decreases posts.len(),
{
    if posts.len() == 0 {
        0
    } else {
        engagement_total(posts.drop_last()) + spec_engagement(posts.last()) as nat
    }
}

/// `n`, capped at the largest `u64`.
pub open spec fn capped(n: nat) -> nat {
    if n > u64::MAX {
        u64::MAX as nat
    } else {
        n
    }
}

/// The posts of `posts` by the author with handle `h`, in order.
pub open spec fn by_handle(posts: Seq<PostModel>, h: Seq<char>) -> Seq<PostModel> {
    posts.filter(|p: PostModel| p.author.handle == h)
}

/// In the highlights' per-author totals, each author is listed once, with
/// the summed engagement of the posts they wrote (capped at the largest `u64`); an author with no post is not
/// listed.
pub proof fn lemma_author_totals_exact(posts: Seq<PostModel>, h: Seq<char>)
    ensures
        forall|a: int, b: int|
            0 <= a < crate::lens::highlights::author_totals(posts).len() && 0 <= b < crate::lens::highlights::author_totals(posts).len() && a != b ==> (
            #[trigger] crate::lens::highlights::author_totals(posts)[a]).0 != (#[trigger] crate::lens::highlights::author_totals(posts)[b]).0,
        by_handle(posts, h).len() == 0 ==> forall|k: int|
            0 <= k < crate::lens::highlights::author_totals(posts).len() ==> (#[trigger] crate::lens::highlights::author_totals(posts)[k]).0 != h,
        by_handle(posts, h).len() > 0 ==> exists|k: int|
            0 <= k < crate::lens::highlights::author_totals(posts).len() && (#[trigger] crate::lens::highlights::author_totals(posts)[k]).0 == h
                && crate::lens::highlights::author_totals(posts)[k].2 == capped(engagement_total(by_handle(posts, h))),
    decreases posts.len(),
{
    if posts.len() > 0 {
        let init = posts.drop_last();
        let p = posts.last();
        let hp = p.author.handle;
        let e = spec_engagement(p) as nat;
        let rest = crate::lens::highlights::author_totals(init);
        let ac = crate::lens::highlights::author_totals(posts);
        lemma_author_totals_exact(init, h);
        lemma_author_totals_exact(init, hp);
        assert(posts =~= init.push(p));
        init.lemma_filter_push(p, |q: PostModel| q.author.handle == h);
        init.lemma_filter_push(p, |q: PostModel| q.author.handle == hp);
        assert(by_handle(init, hp).push(p).drop_last() =~= by_handle(init, hp));
        assert(engagement_total(by_handle(posts, hp)) == engagement_total(by_handle(init, hp)) + e);
        if by_handle(init, hp).len() > 0 {
            let k0 = choose|k: int|
                0 <= k < rest.len() && (#[trigger] rest[k]).0 == hp && rest[k].2 == capped(
                    engagement_total(by_handle(init, hp)),
                );
            assert forall|k: int| 0 <= k < k0 implies #[trigger] rest[k].0 != hp by {
                assert(rest[k].0 != rest[k0].0);
            }
            lemma_handle_pos(rest, hp, k0);
            assert(ac == rest.update(k0, (rest[k0].0, rest[k0].1, crate::lens::threads::sat_add(rest[k0].2, e))));
            assert(crate::lens::threads::sat_add(capped(engagement_total(by_handle(init, hp))), e) == capped(
                engagement_total(by_handle(init, hp)) + e,
            ));
            assert forall|a: int, b: int| 0 <= a < ac.len() && 0 <= b < ac.len() && a != b implies (#[trigger] ac[a]).0
                != (#[trigger] ac[b]).0 by {
                assert(ac[a].0 == rest[a].0 && ac[b].0 == rest[b].0);
            }
            if h == hp {
                assert(ac[k0].0 == h);
            } else if by_handle(init, h).len() > 0 {
                let k = choose|k: int|
                    0 <= k < rest.len() && (#[trigger] rest[k]).0 == h && rest[k].2 == capped(
                        engagement_total(by_handle(init, h)),
                    );
                assert(ac[k] == rest[k]);
            } else {
                assert forall|k: int| 0 <= k < ac.len() implies (#[trigger] ac[k]).0 != h by {
                    assert(ac[k].0 == rest[k].0);
                }
            }
        } else {
            assert forall|k: int| 0 <= k < rest.len() implies #[trigger] rest[k].0 != hp by {}
            lemma_handle_pos(rest, hp, rest.len() as int);
            assert(ac == rest.push((hp, spec_author_name(p.author), e)));
            assert(by_handle(init, hp) =~= Seq::<PostModel>::empty());
            assert forall|a: int, b: int| 0 <= a < ac.len() && 0 <= b < ac.len() && a != b implies (#[trigger] ac[a]).0
                != (#[trigger] ac[b]).0 by {
                if a < rest.len() && b < rest.len() {
                    assert(ac[a] == rest[a] && ac[b] == rest[b]);
                } else if a < rest.len() {
                    assert(ac[a] == rest[a]);
                } else if b < rest.len() {
                    assert(ac[b] == rest[b]);
                }
            }
            if h == hp {
                assert(ac[rest.len() as int].0 == h);
            } else if by_handle(init, h).len() > 0 {
                let k = choose|k: int|
                    0 <= k < rest.len() && (#[trigger] rest[k]).0 == h && rest[k].2 == capped(
                        engagement_total(by_handle(init, h)),
                    );
                assert(ac[k] == rest[k]);
            } else {
                assert forall|k: int| 0 <= k < ac.len() implies (#[trigger] ac[k]).0 != h by {
                    if k < rest.len() {
                        assert(ac[k] == rest[k]);
                    }
                }
            }
        }
    }
}

/// The time span's start is the earliest non-empty creation time: no
/// post was created before it, and some post was created at it; there is
/// none when no post has a creation time.
pub proof fn lemma_earliest_time(posts: Seq<PostModel>)
    ensures
        match earliest_time(posts) {
            None => forall|i: int| 0 <= i < posts.len() ==> (#[trigger] posts[i]).created_at.len() == 0,
            Some(e) => {
                &&& exists|i: int| 0 <= i < posts.len() && (#[trigger] posts[i]).created_at == e && e.len() > 0
                &&& forall|i: int|
                    0 <= i < posts.len() && (#[trigger] posts[i]).created_at.len() > 0 ==> !seq_lt(posts[i].created_at, e)
            },
        },
    decreases posts.len(),
{
    if posts.len() > 0 {
        let init = posts.drop_last();
        let n = posts.len() - 1;
        let t = posts.last().created_at;
        lemma_earliest_time(init);
        assert(posts[n] == posts.last());
        assert forall|i: int| 0 <= i < init.len() implies #[trigger] init[i] == posts[i] by {}
        crate::lens::order::lemma_seq_lt_total(t, t);
        match earliest_time(init) {
            None => {
                assert forall|i: int| 0 <= i < n implies (#[trigger] posts[i]).created_at.len() == 0 by {
                    assert(init[i] == posts[i]);
                }
            },
            Some(e) => {
                let k = choose|i: int| 0 <= i < init.len() && (#[trigger] init[i]).created_at == e && e.len() > 0;
                assert(posts[k] == init[k]);
                assert forall|i: int| 0 <= i < n && (#[trigger] posts[i]).created_at.len() > 0 implies !seq_lt(
                    posts[i].created_at,
                    e,
                ) by {
                    assert(init[i] == posts[i]);
                }
                if t.len() > 0 && seq_lt(t, e) {
                    assert forall|i: int| 0 <= i < n && (#[trigger] posts[i]).created_at.len() > 0 implies !seq_lt(
                        posts[i].created_at,
                        t,
                    ) by {
                        if seq_lt(posts[i].created_at, t) {
                            crate::lens::order::lemma_seq_lt_trans(posts[i].created_at, t, e);
                        }
                    }
                }
            },
        }
    }
}

/// The time span's end is the latest non-empty creation time: no post was
/// created after it, and some post was created at it; there is none when no
/// post has a creation time.
pub proof fn lemma_latest_time(posts: Seq<PostModel>)
    ensures
        match latest_time(posts) {
            None => forall|i: int| 0 <= i < posts.len() ==> (#[trigger] posts[i]).created_at.len() == 0,
            Some(l) => {
                &&& exists|i: int| 0 <= i < posts.len() && (#[trigger] posts[i]).created_at == l && l.len() > 0
                &&& forall|i: int|
                    0 <= i < posts.len() && (#[trigger] posts[i]).created_at.len() > 0 ==> !seq_lt(l, posts[i].created_at)
            },
        },
    decreases posts.len(),
{
    if posts.len() > 0 {
        let init = posts.drop_last();
        let n = posts.len() - 1;
        let t = posts.last().created_at;
        lemma_latest_time(init);
        assert(posts[n] == posts.last());
        assert forall|i: int| 0 <= i < init.len() implies #[trigger] init[i] == posts[i] by {}
        crate::lens::order::lemma_seq_lt_total(t, t);
        match latest_time(init) {
            None => {
                assert forall|i: int| 0 <= i < n implies (#[trigger] posts[i]).created_at.len() == 0 by {
                    assert(init[i] == posts[i]);
                }
            },
            Some(l) => {
                let k = choose|i: int| 0 <= i < init.len() && (#[trigger] init[i]).created_at == l && l.len() > 0;
                assert(posts[k] == init[k]);
                crate::lens::order::lemma_seq_lt_total(t, l);
                assert forall|i: int| 0 <= i < n && (#[trigger] posts[i]).created_at.len() > 0 implies !seq_lt(
                    l,
                    posts[i].created_at,
                ) by {
                    assert(init[i] == posts[i]);
                }
                if t.len() > 0 && !seq_lt(t, l) {
                    assert forall|i: int| 0 <= i < n && (#[trigger] posts[i]).created_at.len() > 0 implies !seq_lt(
                        t,
                        posts[i].created_at,
                    ) by {
                        if seq_lt(t, posts[i].created_at) && t != l {
                            crate::lens::order::lemma_seq_lt_trans(l, t, posts[i].created_at);
                        }
                    }
                }
            },
        }
    }
}

/// The deepest hop distance is at least every thread's distance and is one
/// of them; zero when there is none.
pub proof fn lemma_max_distance(dv: Seq<(Seq<char>, usize)>)
    ensures
        forall|i: int| 0 <= i < dv.len() ==> (#[trigger] dv[i]).1 <= max_distance(dv),
        dv.len() > 0 ==> exists|i: int| 0 <= i < dv.len() && dv[i].1 == max_distance(dv),
        dv.len() == 0 ==> max_distance(dv) == 0,
    decreases dv.len(),
{
    if dv.len() > 0 {
        let init = dv.drop_last();
        lemma_max_distance(init);
        assert forall|i: int| 0 <= i < dv.len() implies (#[trigger] dv[i]).1 <= max_distance(dv) by {
            if i < dv.len() - 1 {
                assert(dv[i] == init[i]);
            }
        }
        if init.len() > 0 && max_distance(init) >= dv.last().1 {
            let i = choose|i: int| 0 <= i < init.len() && init[i].1 == max_distance(init);
            assert(dv[i] == init[i]);
        } else {
            assert(dv[dv.len() - 1] == dv.last());
        }
    }
}

/// The number of replies is the number of posts that reply to another.
pub proof fn lemma_count_replies_exact(s: Seq<PostModel>)
    ensures
        count_replies(s) == s.filter(|p: PostModel| p.reply_parent is Some).len(),
    decreases s.len(),
{
    if s.len() > 0 {
        let init = s.drop_last();
        lemma_count_replies_exact(init);
        assert(s =~= init.push(s.last()));
        init.lemma_filter_push(s.last(), |p: PostModel| p.reply_parent is Some);
    }
}

} // verus!
