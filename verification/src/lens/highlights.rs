//! The `highlights` lens: the most notable posts and authors.
use vstd::prelude::*;
use vstd::string::*;

use crate::lens::fmt::{dec, finish_lines, ordered, posts_of, spec_text, strings_of};
use crate::lens::graph::{build_children, build_quotes_received, children_view, counts_view, spec_children, spec_quote_counts};
use crate::lens::order::{rank_by_count, ranked_by_count};
use crate::lens::stats::{handle_pos, lemma_handle_pos, lemma_handle_pos_range};
use crate::lens::threads::sat_add;
use crate::model::{spec_engagement, web_posts, ContextWeb, Post, PostModel, WebModel};
use crate::ordered_map::lookup;
use crate::strings::{spec_decimal, str_eq};
use crate::text::{
    author_name, short_time, spec_author_name, spec_short_time, spec_thousands, spec_truncate, thousands_u64,
    truncate,
};

verus! {

/// The post stored under `uri` in a web.
pub open spec fn post_in(w: WebModel, uri: Seq<char>) -> Option<PostModel> {
    match lookup(w.index, uri) {
        Some(root) => match lookup(w.threads, root) {
            Some(t) => lookup(t.posts, uri),
            None => None,
        },
        None => None,
    }
}

/// The entries of `s` in the order `perm` lists them.
pub open spec fn pick<T>(s: Seq<T>, perm: Seq<usize>) -> Seq<T> {
    Seq::new(perm.len(), |i: int| s[perm[i] as int])
}

/// Counts as ranking keys.
pub open spec fn usize_keys(v: Seq<usize>) -> Seq<u64> {
    v.map_values(|c: usize| c as u64)
}

/// The positions of `counts` ranked by descending count, ties in order.
fn rank_counts(counts: &Vec<usize>) -> (r: Vec<usize>)
    ensures
        ranked_by_count(usize_keys(counts@), r@),
{
    let mut keys: Vec<u64> = Vec::new();
    let n = counts.len();
    let mut i: usize = 0;
    while i < n
        invariant
            n == counts@.len(),
            i <= n,
            keys@.len() == i,
            forall|k: int| 0 <= k < i ==> #[trigger] keys@[k] == counts@[k] as u64,
        decreases n - i,
    {
        keys.push(counts[i] as u64);
        i += 1;
    }
    assert(keys@ =~= usize_keys(counts@));
    rank_by_count(&keys)
}

/// The quote counts as ranking keys.
pub open spec fn quote_keys(c: Seq<(Seq<char>, nat)>) -> Seq<u64> {
    c.map_values(|e: (Seq<char>, nat)| e.1 as u64)
}

/// The lines of a quoted post at rank `k`.
pub open spec fn quoted_block(k: nat, count: nat, p: PostModel) -> Seq<Seq<char>> {
    seq![
        "  "@ + spec_decimal(k) + ". [quoted "@ + spec_decimal(count) + " times] "@ + spec_author_name(p.author) + "  "@
            + spec_short_time(p.created_at),
        "     "@ + spec_truncate(p.text, 80),
        "     ("@ + spec_thousands(p.like_count as nat) + " likes, "@ + spec_thousands(p.repost_count as nat)
            + " reposts)"@,
        Seq::<char>::empty(),
    ]
}

/// The lines of the first `n` ranked quoted posts; a post the web does not
/// hold keeps its rank and shows nothing.
pub open spec fn quoted_lines(w: WebModel, ranked: Seq<(Seq<char>, nat)>, n: nat) -> Seq<Seq<char>>
    decreases n,
{
    if n == 0 {
        Seq::empty()
    } else {
        quoted_lines(w, ranked, (n - 1) as nat) + match post_in(w, ranked[n - 1].0) {
            Some(p) => quoted_block(n, ranked[n - 1].1, p),
            None => Seq::empty(),
        }
    }
}

/// The most quoted posts, up to `top`; nothing when no post is quoted.
pub open spec fn most_quoted_text(w: WebModel, ranked: Seq<(Seq<char>, nat)>, top: nat) -> Seq<Seq<char>> {
    if ranked.len() == 0 {
        Seq::empty()
    } else {
        seq!["--- Most Quoted ---"@] + quoted_lines(w, ranked, if top < ranked.len() { top } else { ranked.len() })
    }
}

/// Posts quoted the most: count, author, time, text, likes and reposts.
pub fn most_quoted(web: &ContextWeb, top: usize, lines: &mut Vec<String>)
    ensures
        exists|perm: Seq<usize>|
            #[trigger] ranked_by_count(quote_keys(spec_quote_counts(web@.quote_edges)), perm) && strings_of(
                final(lines)@,
            ) == strings_of(old(lines)@) + most_quoted_text(
                web@,
                pick(spec_quote_counts(web@.quote_edges), perm),
                top as nat,
            ),
{
    let counts = build_quotes_received(web);
    let ghost cv = spec_quote_counts(web@.quote_edges);
    let ghost start = strings_of(lines@);
    let mut values: Vec<usize> = Vec::new();
    let n = counts.len();
    let mut i: usize = 0;
    while i < n
        invariant
            n == counts@.len(),
            counts_view(counts@) == cv,
            i <= n,
            values@.len() == i,
            forall|k: int| 0 <= k < i ==> #[trigger] values@[k] == cv[k].1,
        decreases n - i,
    {
        values.push(counts[i].1);
        proof {
            assert(cv[i as int] == counts_view(counts@)[i as int]);
        }
        i += 1;
    }
    proof {
        assert(usize_keys(values@) =~= quote_keys(cv));
    }
    let order = rank_counts(&values);
    let ghost ranked = pick(cv, order@);
    if n == 0 {
        proof {
            assert(strings_of(lines@) =~= start + most_quoted_text(web@, ranked, top as nat));
        }
        return;
    }
    lines.push(String::from_str("--- Most Quoted ---"));
    proof {
        assert(strings_of(lines@) =~= start + seq!["--- Most Quoted ---"@]);
    }
    let shown = if top < n { top } else { n };
    let mut k: usize = 0;
    while k < shown
        invariant
            shown <= n,
            n == counts@.len(),
            counts_view(counts@) == cv,
            crate::lens::order::is_permutation(order@, n as nat),
            ranked == pick(cv, order@),
            k <= shown,
            strings_of(lines@) == start + seq!["--- Most Quoted ---"@] + quoted_lines(web@, ranked, k as nat),
        decreases shown - k,
    {
        let (uri, count) = counts[order[k]];
        let ghost before = strings_of(lines@);
        proof {
            assert(ranked[k as int] == cv[order@[k as int] as int]);
            assert(cv[order@[k as int] as int] == (uri@, count as nat));
        }
        if let Some(post) = web.get_post(uri) {
            let mut l = String::from_str("  ");
            let rank = dec(k + 1);
            l.append(rank.as_str());
            l.append(". [quoted ");
            let c = dec(count);
            l.append(c.as_str());
            l.append(" times] ");
            let name = author_name(post);
            l.append(name.as_str());
            l.append("  ");
            let time = short_time(post.created_at.as_str());
            l.append(time.as_str());
            let ghost l1 = l@;
            lines.push(l);
            let mut t = String::from_str("     ");
            let text = truncate(post.text.as_str(), 80);
            t.append(text.as_str());
            let ghost l2 = t@;
            lines.push(t);
            let mut e = String::from_str("     (");
            let likes = thousands_u64(post.like_count as u64);
            e.append(likes.as_str());
            e.append(" likes, ");
            let reposts = thousands_u64(post.repost_count as u64);
            e.append(reposts.as_str());
            e.append(" reposts)");
            let ghost l3 = e@;
            lines.push(e);
            lines.push(String::new());
            proof {
                assert(strings_of(lines@) =~= before + seq![l1, l2, l3, Seq::<char>::empty()]);
                assert(seq![l1, l2, l3, Seq::<char>::empty()] =~= quoted_block((k + 1) as nat, count as nat, post@));
            }
        }
        proof {
            assert(strings_of(lines@) =~= start + seq!["--- Most Quoted ---"@] + quoted_lines(web@, ranked, (k + 1) as nat));
        }
        k += 1;
    }
    proof {
        assert(ranked_by_count(quote_keys(cv), order@));
    }
}

/// The reply counts as ranking keys.
pub open spec fn child_keys(c: Seq<(Seq<char>, Seq<Seq<char>>)>) -> Seq<u64> {
    c.map_values(|e: (Seq<char>, Seq<Seq<char>>)| e.1.len() as u64)
}

/// The lines of a replied-to post at rank `k`.
pub open spec fn replied_block(k: nat, count: nat, p: PostModel) -> Seq<Seq<char>> {
    seq![
        "  "@ + spec_decimal(k) + ". ["@ + spec_decimal(count) + " replies in web] "@ + spec_author_name(p.author)
            + "  "@ + spec_short_time(p.created_at),
        "     "@ + spec_truncate(p.text, 80),
        Seq::<char>::empty(),
    ]
}

/// The lines of the first `n` ranked replied-to posts.
pub open spec fn replied_lines(w: WebModel, ranked: Seq<(Seq<char>, Seq<Seq<char>>)>, n: nat) -> Seq<Seq<char>>
    decreases n,
{
    if n == 0 {
        Seq::empty()
    } else {
        replied_lines(w, ranked, (n - 1) as nat) + match post_in(w, ranked[n - 1].0) {
            Some(p) => replied_block(n, ranked[n - 1].1.len(), p),
            None => Seq::empty(),
        }
    }
}

/// The most replied-to posts, up to `top`; nothing when no post replies.
pub open spec fn most_replied_text(w: WebModel, ranked: Seq<(Seq<char>, Seq<Seq<char>>)>, top: nat) -> Seq<
    Seq<char>,
> {
    if ranked.len() == 0 {
        Seq::empty()
    } else {
        seq!["--- Most Replied ---"@] + replied_lines(w, ranked, if top < ranked.len() { top } else { ranked.len() })
    }
}

/// Posts replied to the most within the web: count, author, time, text.
pub fn most_replied(web: &ContextWeb, top: usize, lines: &mut Vec<String>)
    ensures
        exists|perm: Seq<usize>|
            #[trigger] ranked_by_count(child_keys(spec_children(web_posts(web@.threads))), perm) && strings_of(
                final(lines)@,
            ) == strings_of(old(lines)@) + most_replied_text(
                web@,
                pick(spec_children(web_posts(web@.threads)), perm),
                top as nat,
            ),
{
    let children = build_children(web);
    let ghost cv = spec_children(web_posts(web@.threads));
    let ghost start = strings_of(lines@);
    let mut values: Vec<usize> = Vec::new();
    let n = children.len();
    let mut i: usize = 0;
    while i < n
        invariant
            n == children@.len(),
            children_view(children@) == cv,
            i <= n,
            values@.len() == i,
            forall|k: int| 0 <= k < i ==> #[trigger] values@[k] == cv[k].1.len(),
        decreases n - i,
    {
        values.push(children[i].1.len());
        proof {
            assert(cv[i as int] == children_view(children@)[i as int]);
        }
        i += 1;
    }
    proof {
        assert(usize_keys(values@) =~= child_keys(cv));
    }
    let order = rank_counts(&values);
    let ghost ranked = pick(cv, order@);
    if n == 0 {
        proof {
            assert(strings_of(lines@) =~= start + most_replied_text(web@, ranked, top as nat));
        }
        return;
    }
    lines.push(String::from_str("--- Most Replied ---"));
    proof {
        assert(strings_of(lines@) =~= start + seq!["--- Most Replied ---"@]);
    }
    let shown = if top < n { top } else { n };
    let mut k: usize = 0;
    while k < shown
        invariant
            shown <= n,
            n == children@.len(),
            children_view(children@) == cv,
            crate::lens::order::is_permutation(order@, n as nat),
            ranked == pick(cv, order@),
            k <= shown,
            strings_of(lines@) == start + seq!["--- Most Replied ---"@] + replied_lines(web@, ranked, k as nat),
        decreases shown - k,
    {
        let uri = children[order[k]].0;
        let count = children[order[k]].1.len();
        let ghost before = strings_of(lines@);
        proof {
            assert(ranked[k as int] == cv[order@[k as int] as int]);
            assert(cv[order@[k as int] as int].0 == uri@);
            assert(cv[order@[k as int] as int].1.len() == count);
        }
        if let Some(post) = web.get_post(uri) {
            let mut l = String::from_str("  ");
            let rank = dec(k + 1);
            l.append(rank.as_str());
            l.append(". [");
            let c = dec(count);
            l.append(c.as_str());
            l.append(" replies in web] ");
            let name = author_name(post);
            l.append(name.as_str());
            l.append("  ");
            let time = short_time(post.created_at.as_str());
            l.append(time.as_str());
            let ghost l1 = l@;
            lines.push(l);
            let mut t = String::from_str("     ");
            let text = truncate(post.text.as_str(), 80);
            t.append(text.as_str());
            let ghost l2 = t@;
            lines.push(t);
            lines.push(String::new());
            proof {
                assert(strings_of(lines@) =~= before + seq![l1, l2, Seq::<char>::empty()]);
                assert(seq![l1, l2, Seq::<char>::empty()] =~= replied_block((k + 1) as nat, count as nat, post@));
            }
        }
        proof {
            assert(strings_of(lines@) =~= start + seq!["--- Most Replied ---"@] + replied_lines(web@, ranked, (k + 1) as nat));
        }
        k += 1;
    }
    proof {
        assert(ranked_by_count(child_keys(cv), order@));
    }
}

/// The engagement of each post, as ranking keys.
pub open spec fn engagements(posts: Seq<PostModel>) -> Seq<u64> {
    posts.map_values(|p: PostModel| spec_engagement(p) as u64)
}

/// The posts ranked by descending engagement, ties in their order.
pub fn by_engagement<'a>(posts: &Vec<&'a Post>) -> (r: Vec<&'a Post>)
    ensures
        exists|perm: Seq<usize>|
            #[trigger] ranked_by_count(engagements(posts_of(posts@)), perm) && posts_of(r@) == ordered(
                posts_of(posts@),
                perm,
            ),
{
    let ghost pv = posts_of(posts@);
    let mut keys: Vec<u64> = Vec::new();
    let n = posts.len();
    let mut i: usize = 0;
    while i < n
        invariant
            n == posts@.len(),
            pv == posts_of(posts@),
            i <= n,
            keys@.len() == i,
            forall|k: int| 0 <= k < i ==> #[trigger] keys@[k] == spec_engagement(pv[k]) as u64,
        decreases n - i,
    {
        keys.push(posts[i].engagement_wide());
        i += 1;
    }
    proof {
        assert(keys@ =~= engagements(pv));
    }
    let order = rank_by_count(&keys);
    let mut out: Vec<&'a Post> = Vec::new();
    let mut k: usize = 0;
    while k < n
        invariant
            n == posts@.len(),
            n == order@.len(),
            pv == posts_of(posts@),
            crate::lens::order::is_permutation(order@, keys@.len()),
            keys@.len() == n,
            k <= n,
            out@.len() == k,
            forall|x: int| 0 <= x < k ==> #[trigger] out@[x]@ == pv[order@[x] as int],
        decreases n - k,
    {
        out.push(posts[order[k]]);
        k += 1;
    }
    proof {
        assert(posts_of(out@) =~= ordered(pv, order@));
    }
    out
}

/// The lines of a post at rank `k` by engagement.
pub open spec fn engagement_block(k: nat, p: PostModel) -> Seq<Seq<char>> {
    seq![
        "  "@ + spec_decimal(k) + ". ["@ + spec_thousands(p.like_count as nat) + " likes, "@ + spec_thousands(
            p.repost_count as nat,
        ) + " reposts, "@ + spec_thousands(p.quote_count as nat) + " quotes] "@ + spec_author_name(p.author),
        "     "@ + spec_truncate(p.text, 80),
        Seq::<char>::empty(),
    ]
}

/// The lines of the first `n` posts by engagement.
pub open spec fn engagement_lines(ranked: Seq<PostModel>, n: nat) -> Seq<Seq<char>>
    decreases n,
{
    if n == 0 {
        Seq::empty()
    } else {
        engagement_lines(ranked, (n - 1) as nat) + engagement_block(n, ranked[n - 1])
    }
}

/// The posts with the most engagement, up to `top`.
pub open spec fn highest_text(ranked: Seq<PostModel>, top: nat) -> Seq<Seq<char>> {
    seq!["--- Highest Engagement ---"@] + engagement_lines(ranked, if top < ranked.len() { top } else { ranked.len() })
}

/// Posts with the highest engagement: counts, author, text.
pub fn highest_engagement(web: &ContextWeb, top: usize, lines: &mut Vec<String>)
    ensures
        exists|perm: Seq<usize>|
            #[trigger] ranked_by_count(engagements(web_posts(web@.threads)), perm) && strings_of(final(lines)@)
                == strings_of(old(lines)@) + highest_text(ordered(web_posts(web@.threads), perm), top as nat),
{
    let all = web.iter_posts();
    let ghost av = web_posts(web@.threads);
    let ghost start = strings_of(lines@);
    proof {
        assert(posts_of(all@) =~= av);
    }
    let ranked = by_engagement(&all);
    let ghost perm = choose|perm: Seq<usize>|
        #[trigger] ranked_by_count(engagements(posts_of(all@)), perm) && posts_of(ranked@) == ordered(
            posts_of(all@),
            perm,
        );
    let ghost rv = posts_of(ranked@);
    lines.push(String::from_str("--- Highest Engagement ---"));
    proof {
        assert(strings_of(lines@) =~= start + seq!["--- Highest Engagement ---"@]);
    }
    let n = ranked.len();
    let shown = if top < n { top } else { n };
    let mut k: usize = 0;
    while k < shown
        invariant
            shown <= n,
            n == ranked@.len(),
            rv == posts_of(ranked@),
            k <= shown,
            strings_of(lines@) == start + seq!["--- Highest Engagement ---"@] + engagement_lines(rv, k as nat),
        decreases shown - k,
    {
        let post = ranked[k];
        let ghost before = strings_of(lines@);
        let mut l = String::from_str("  ");
        let rank = dec(k + 1);
        l.append(rank.as_str());
        l.append(". [");
        let likes = thousands_u64(post.like_count as u64);
        l.append(likes.as_str());
        l.append(" likes, ");
        let reposts = thousands_u64(post.repost_count as u64);
        l.append(reposts.as_str());
        l.append(" reposts, ");
        let quotes = thousands_u64(post.quote_count as u64);
        l.append(quotes.as_str());
        l.append(" quotes] ");
        let name = author_name(post);
        l.append(name.as_str());
        let ghost l1 = l@;
        lines.push(l);
        let mut t = String::from_str("     ");
        let text = truncate(post.text.as_str(), 80);
        t.append(text.as_str());
        let ghost l2 = t@;
        lines.push(t);
        lines.push(String::new());
        proof {
            assert(rv[k as int] == post@);
            assert(strings_of(lines@) =~= before + seq![l1, l2, Seq::<char>::empty()]);
            assert(seq![l1, l2, Seq::<char>::empty()] =~= engagement_block((k + 1) as nat, post@));
        }
        k += 1;
    }
}

/// Each author (by handle) in order of first post, with the display name
/// shown for their first post and their summed engagement, the running sum
/// capped at the largest `u64`.
pub open spec fn author_totals(posts: Seq<PostModel>) -> Seq<(Seq<char>, Seq<char>, nat)>
    decreases posts.len(),
{
    if posts.len() == 0 {
        Seq::empty()
    } else {
        let rest = author_totals(posts.drop_last());
        let p = posts.last();
        match handle_pos(rest, p.author.handle) {
            Some(k) => rest.update(k, (rest[k].0, rest[k].1, sat_add(rest[k].2, spec_engagement(p) as nat))),
            None => rest.push((p.author.handle, spec_author_name(p.author), spec_engagement(p) as nat)),
        }
    }
}

/// The totals as ranking keys.
pub open spec fn total_keys(t: Seq<(Seq<char>, Seq<char>, nat)>) -> Seq<u64> {
    t.map_values(|e: (Seq<char>, Seq<char>, nat)| e.2 as u64)
}

/// The lines of the first `n` ranked authors.
pub open spec fn character_lines(ranked: Seq<(Seq<char>, Seq<char>, nat)>, n: nat) -> Seq<Seq<char>>
    decreases n,
{
    if n == 0 {
        Seq::empty()
    } else {
        character_lines(ranked, (n - 1) as nat).push(
            "  "@ + spec_decimal(n) + ". "@ + ranked[n - 1].1 + " - "@ + spec_thousands(ranked[n - 1].2)
                + " total engagement"@,
        )
    }
}

/// The authors with the most summed engagement, up to `top`, and a blank line.
pub open spec fn characters_text(ranked: Seq<(Seq<char>, Seq<char>, nat)>, top: nat) -> Seq<Seq<char>> {
    seq!["--- Main Characters (by total engagement) ---"@] + character_lines(
        ranked,
        if top < ranked.len() { top } else { ranked.len() },
    ) + seq![Seq::<char>::empty()]
}

/// Authors with the highest summed engagement.
pub fn main_characters(web: &ContextWeb, top: usize, lines: &mut Vec<String>)
    ensures
        ({
            let totals = author_totals(web_posts(web@.threads));
            exists|perm: Seq<usize>|
                #[trigger] ranked_by_count(total_keys(totals), perm) && strings_of(final(lines)@) == strings_of(
                    old(lines)@,
                ) + characters_text(pick(totals, perm), top as nat)
        }),
{
    let all = web.iter_posts();
    let ghost pv = web_posts(web@.threads);
    let ghost start = strings_of(lines@);
    proof {
        assert(posts_of(all@) =~= pv);
    }
    let mut handles: Vec<&str> = Vec::new();
    let mut names: Vec<String> = Vec::new();
    let mut totals: Vec<u64> = Vec::new();
    let n = all.len();
    let mut i: usize = 0;
    while i < n
        invariant
            n == all@.len(),
            pv == posts_of(all@),
            i <= n,
            handles@.len() == totals@.len(),
            names@.len() == totals@.len(),
            totals@.len() == author_totals(pv.take(i as int)).len(),
            forall|k: int|
                0 <= k < totals@.len() ==> (#[trigger] handles@[k])@ == author_totals(pv.take(i as int))[k].0
                    && names@[k]@ == author_totals(pv.take(i as int))[k].1 && totals@[k] as nat == author_totals(
                    pv.take(i as int),
                )[k].2,
        decreases n - i,
    {
        let p = all[i];
        let ghost prev = author_totals(pv.take(i as int));
        let m = handles.len();
        let mut j: usize = 0;
        let mut found: Option<usize> = None;
        while j < m && found.is_none()
            invariant
                m == handles@.len(),
                m == prev.len(),
                j <= m,
                forall|k: int| 0 <= k < m ==> (#[trigger] handles@[k])@ == prev[k].0,
                found matches Some(f) ==> f < m && f == j - 1 && prev[f as int].0 == p@.author.handle,
                found is None ==> forall|k: int| 0 <= k < j ==> #[trigger] prev[k].0 != p@.author.handle,
                found matches Some(f) ==> forall|k: int| 0 <= k < f ==> #[trigger] prev[k].0 != p@.author.handle,
            decreases m - j,
        {
            if str_eq(handles[j], p.author.handle.as_str()) {
                found = Some(j);
            }
            j += 1;
        }
        proof {
            let tk = pv.take(i + 1);
            assert(tk.drop_last() =~= pv.take(i as int));
            assert(tk.last() == p@);
        }
        let ghost oh = handles@;
        let ghost on = names@;
        let ghost ot = totals@;
        proof {
            assert forall|k: int| 0 <= k < m implies (#[trigger] oh[k])@ == prev[k].0 && on[k]@ == prev[k].1
                && ot[k] as nat == prev[k].2 by {
                assert(handles@[k]@ == prev[k].0);
            }
        }
        match found {
            Some(f) => {
                proof {
                    lemma_handle_pos(prev, p@.author.handle, f as int);
                }
                let t = totals[f].saturating_add(p.engagement_wide());
                totals.set(f, t);
            },
            None => {
                proof {
                    lemma_handle_pos(prev, p@.author.handle, m as int);
                }
                handles.push(p.author.handle.as_str());
                names.push(author_name(p));
                totals.push(p.engagement_wide());
            },
        }
        proof {
            let next = author_totals(pv.take(i + 1));
            assert forall|k: int| 0 <= k < totals@.len() implies (#[trigger] handles@[k])@ == next[k].0
                && names@[k]@ == next[k].1 && totals@[k] as nat == next[k].2 by {
                if k < m {
                    assert(oh[k]@ == prev[k].0);
                }
            }
        }
        i += 1;
    }
    let ghost tv = author_totals(pv);
    proof {
        assert(pv.take(n as int) =~= pv);
        assert forall|x: int| 0 <= x < totals@.len() implies names@[x]@ == (#[trigger] tv[x]).1 && totals@[x] as nat
            == tv[x].2 by {
            assert(handles@[x]@ == tv[x].0);
        }
        assert(totals@ =~= total_keys(tv));
    }
    let order = rank_by_count(&totals);
    let ghost ranked = pick(tv, order@);
    lines.push(String::from_str("--- Main Characters (by total engagement) ---"));
    proof {
        assert(strings_of(lines@) =~= start + seq!["--- Main Characters (by total engagement) ---"@]);
    }
    let m = totals.len();
    let shown = if top < m { top } else { m };
    let mut k: usize = 0;
    while k < shown
        invariant
            shown <= m,
            m == totals@.len(),
            m == names@.len(),
            m == tv.len(),
            forall|x: int| 0 <= x < m ==> names@[x]@ == (#[trigger] tv[x]).1 && totals@[x] as nat == tv[x].2,
            crate::lens::order::is_permutation(order@, totals@.len()),
            ranked == pick(tv, order@),
            k <= shown,
            strings_of(lines@) == start + seq!["--- Main Characters (by total engagement) ---"@] + character_lines(
                ranked,
                k as nat,
            ),
        decreases shown - k,
    {
        let idx = order[k];
        let mut l = String::from_str("  ");
        let rank = dec(k + 1);
        l.append(rank.as_str());
        l.append(". ");
        l.append(names[idx].as_str());
        l.append(" - ");
        let eng = thousands_u64(totals[idx]);
        l.append(eng.as_str());
        l.append(" total engagement");
        let ghost before = strings_of(lines@);
        let ghost lv = l@;
        lines.push(l);
        proof {
            assert(ranked[k as int] == tv[idx as int]);
            assert(strings_of(lines@) =~= before.push(lv));
        }
        k += 1;
    }
    let ghost body = strings_of(lines@);
    lines.push(String::new());
    proof {
        assert(strings_of(lines@) =~= body + seq![Seq::<char>::empty()]);
        assert(ranked_by_count(total_keys(tv), order@));
    }
}

/// The lines of the highlights, given the four rankings.
pub open spec fn highlights_lines(
    w: WebModel,
    quoted: Seq<(Seq<char>, nat)>,
    replied: Seq<(Seq<char>, Seq<Seq<char>>)>,
    engaged: Seq<PostModel>,
    characters: Seq<(Seq<char>, Seq<char>, nat)>,
    top: nat,
) -> Seq<Seq<char>> {
    seq!["=== HIGHLIGHTS ==="@, Seq::<char>::empty()] + most_quoted_text(w, quoted, top) + most_replied_text(
        w,
        replied,
        top,
    ) + highest_text(engaged, top) + characters_text(characters, top)
}

/// The four rankings the highlights are built on.
pub open spec fn highlights_basis(w: WebModel, q: Seq<usize>, c: Seq<usize>, e: Seq<usize>, m: Seq<usize>) -> bool {
    &&& ranked_by_count(quote_keys(spec_quote_counts(w.quote_edges)), q)
    &&& ranked_by_count(child_keys(spec_children(web_posts(w.threads))), c)
    &&& ranked_by_count(engagements(web_posts(w.threads)), e)
    &&& ranked_by_count(total_keys(author_totals(web_posts(w.threads))), m)
}

/// Surfaces the most notable posts and authors in the web.
pub(crate) fn render(web: &ContextWeb, top: usize) -> (r: String)
    ensures
        exists|q: Seq<usize>, c: Seq<usize>, e: Seq<usize>, m: Seq<usize>|
            #[trigger] highlights_basis(web@, q, c, e, m) && r@ == spec_text(
                highlights_lines(
                    web@,
                    pick(spec_quote_counts(web@.quote_edges), q),
                    pick(spec_children(web_posts(web@.threads)), c),
                    ordered(web_posts(web@.threads), e),
                    pick(author_totals(web_posts(web@.threads)), m),
                    top as nat,
                ),
            ),
{
    let ghost w = web@;
    let ghost all = web_posts(w.threads);
    let mut lines: Vec<String> = Vec::new();
    lines.push(String::from_str("=== HIGHLIGHTS ==="));
    lines.push(String::new());
    let ghost s0 = strings_of(lines@);
    proof {
        assert(s0 =~= seq!["=== HIGHLIGHTS ==="@, Seq::<char>::empty()]);
    }
    most_quoted(web, top, &mut lines);
    let ghost q = choose|perm: Seq<usize>|
        #[trigger] ranked_by_count(quote_keys(spec_quote_counts(w.quote_edges)), perm) && strings_of(lines@) == s0
            + most_quoted_text(w, pick(spec_quote_counts(w.quote_edges), perm), top as nat);
    let ghost s1 = strings_of(lines@);
    most_replied(web, top, &mut lines);
    let ghost c = choose|perm: Seq<usize>|
        #[trigger] ranked_by_count(child_keys(spec_children(all)), perm) && strings_of(lines@) == s1
            + most_replied_text(w, pick(spec_children(all), perm), top as nat);
    let ghost s2 = strings_of(lines@);
    highest_engagement(web, top, &mut lines);
    let ghost e = choose|perm: Seq<usize>|
        #[trigger] ranked_by_count(engagements(all), perm) && strings_of(lines@) == s2 + highest_text(
            ordered(all, perm),
            top as nat,
        );
    let ghost s3 = strings_of(lines@);
    main_characters(web, top, &mut lines);
    let ghost m = choose|perm: Seq<usize>|
        #[trigger] ranked_by_count(total_keys(author_totals(all)), perm) && strings_of(lines@) == s3
            + characters_text(pick(author_totals(all), perm), top as nat);
    proof {
        assert(highlights_basis(w, q, c, e, m));
        assert(strings_of(lines@) == highlights_lines(
            w,
            pick(spec_quote_counts(w.quote_edges), q),
            pick(spec_children(all), c),
            ordered(all, e),
            pick(author_totals(all), m),
            top as nat,
        ));
    }
    finish_lines(&lines)
}

} // verus!
