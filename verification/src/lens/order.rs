//! Stable orderings of indices by a text key (ascending) or by a count
//! (descending), as the lenses sort posts, authors and threads.
use vstd::prelude::*;

use crate::strings::{seq_lt, str_lt};

verus! {

/// Distinct strings are ordered one way or the other, never both.
pub proof fn lemma_seq_lt_total(a: Seq<char>, b: Seq<char>)
    ensures
        !(seq_lt(a, b) && seq_lt(b, a)),
        a != b ==> seq_lt(a, b) || seq_lt(b, a),
        !seq_lt(a, a),
    decreases a.len(),
{
    if a.len() > 0 && b.len() > 0 && a[0] == b[0] {
        lemma_seq_lt_total(a.drop_first(), b.drop_first());
        if a != b {
            assert(a.drop_first() != b.drop_first()) by {
                if a.drop_first() == b.drop_first() {
                    assert(a =~= seq![a[0]] + a.drop_first());
                    assert(b =~= seq![b[0]] + b.drop_first());
                }
            }
        }
    } else if a.len() == 0 && b.len() == 0 {
        assert(a =~= b);
    }
    if a.len() > 0 {
        lemma_seq_lt_total(a.drop_first(), a.drop_first());
    }
}

/// String order is transitive.
pub proof fn lemma_seq_lt_trans(a: Seq<char>, b: Seq<char>, c: Seq<char>)
    requires
        seq_lt(a, b),
        seq_lt(b, c),
    ensures
        seq_lt(a, c),
    decreases a.len(),
{
    if a.len() > 0 && b.len() > 0 && c.len() > 0 && a[0] == b[0] && b[0] == c[0] {
        lemma_seq_lt_trans(a.drop_first(), b.drop_first(), c.drop_first());
    }
}

/// Index `i` sorts before index `j`: an earlier key, or the same key and an
/// earlier index.
pub open spec fn text_before(keys: Seq<Seq<char>>, i: int, j: int) -> bool {
    seq_lt(keys[i], keys[j]) || (keys[i] == keys[j] && i < j)
}

/// `perm` lists each index below `n` once.
pub open spec fn is_permutation(perm: Seq<usize>, n: nat) -> bool {
    &&& perm.len() == n
    &&& perm.no_duplicates()
    &&& forall|a: int| 0 <= a < perm.len() ==> #[trigger] perm[a] < n
}

/// `perm` orders the indices by ascending key, ties by index: the order of
/// a stable sort.
pub open spec fn sorted_by_text(keys: Seq<Seq<char>>, perm: Seq<usize>) -> bool {
    &&& is_permutation(perm, keys.len())
    &&& forall|a: int, b: int|
        0 <= a < b < perm.len() ==> text_before(keys, #[trigger] perm[a] as int, #[trigger] perm[b] as int)
}

/// Sorts indices by ascending key, keeping equal keys in index order.
pub fn sort_by_text(keys: &Vec<&str>) -> (r: Vec<usize>)
    ensures
        sorted_by_text(keys@.map_values(|k: &str| k@), r@),
{
    let ghost kv = keys@.map_values(|k: &str| k@);
    let n = keys.len();
    let mut r: Vec<usize> = Vec::new();
    let mut i: usize = 0;
    while i < n
        invariant
            n == keys@.len(),
            kv == keys@.map_values(|k: &str| k@),
            i <= n,
            r@.len() == i,
            r@.no_duplicates(),
            forall|a: int| 0 <= a < r@.len() ==> #[trigger] r@[a] < i,
            forall|a: int, b: int| 0 <= a < b < r@.len() ==> text_before(kv, #[trigger] r@[a] as int, #[trigger] r@[b] as int),
        decreases n - i,
    {
        let mut p: usize = r.len();
        while p > 0 && str_lt(keys[i], keys[r[p - 1]])
            invariant
                n == keys@.len(),
                kv == keys@.map_values(|k: &str| k@),
                i < n,
                p <= r@.len(),
                forall|a: int| 0 <= a < r@.len() ==> #[trigger] r@[a] < i,
                forall|q: int| p <= q < r@.len() ==> seq_lt(kv[i as int], kv[#[trigger] r@[q] as int]),
            decreases p,
        {
            proof {
                assert(kv[i as int] == keys@[i as int]@);
                assert(kv[r@[p - 1] as int] == keys@[r@[p - 1] as int]@);
            }
            p -= 1;
        }
        let ghost before = r@;
        proof {
            if p > 0 {
                let w = before[p - 1] as int;
                assert(kv[i as int] == keys@[i as int]@);
                assert(kv[w] == keys@[w]@);
                assert(!seq_lt(kv[i as int], kv[w]));
                lemma_seq_lt_total(kv[i as int], kv[w]);
                assert(text_before(kv, w, i as int));
            }
        }
        r.insert(p, i);
        proof {
            assert(r@ == before.insert(p as int, i));
            assert forall|a: int, b: int| 0 <= a < b < r@.len() implies text_before(kv, #[trigger] r@[a] as int, #[trigger] r@[b] as int) by {
                if a < p as int && b == p as int {
                    if a < p - 1 {
                        let x = before[a] as int;
                        let y = before[p - 1] as int;
                        assert(text_before(kv, x, y));
                        if seq_lt(kv[x], kv[y]) && seq_lt(kv[y], kv[i as int]) {
                            lemma_seq_lt_trans(kv[x], kv[y], kv[i as int]);
                        }
                    }
                } else if a == p as int && b > p as int {
                    assert(r@[b] == before[b - 1]);
                } else if a < p as int && b > p as int {
                    assert(r@[a] == before[a]);
                    assert(r@[b] == before[b - 1]);
                } else if a > p as int {
                    assert(r@[a] == before[a - 1]);
                    assert(r@[b] == before[b - 1]);
                } else {
                    assert(r@[a] == before[a]);
                    assert(r@[b] == before[b]);
                }
            }
            assert forall|a: int, b: int| 0 <= a < b < r@.len() implies r@[a] != r@[b] by {
                if b == p as int {
                    assert(r@[a] == before[a]);
                } else if a == p as int {
                    assert(r@[b] == before[b - 1]);
                } else {
                    let a2 = if a < p as int { a } else { a - 1 };
                    let b2 = if b < p as int { b } else { b - 1 };
                    assert(r@[a] == before[a2]);
                    assert(r@[b] == before[b2]);
                }
            }
        }
        i += 1;
    }
    r
}

/// Index `i` ranks before index `j`: a larger count, or the same count and
/// an earlier index.
pub open spec fn count_before(keys: Seq<u64>, i: int, j: int) -> bool {
    keys[i] > keys[j] || (keys[i] == keys[j] && i < j)
}

/// `perm` ranks the indices by descending count, ties by index: the order
/// of a stable sort by reversed count.
pub open spec fn ranked_by_count(keys: Seq<u64>, perm: Seq<usize>) -> bool {
    &&& is_permutation(perm, keys.len())
    &&& forall|a: int, b: int|
        0 <= a < b < perm.len() ==> count_before(keys, #[trigger] perm[a] as int, #[trigger] perm[b] as int)
}

/// Ranks indices by descending count, keeping equal counts in index order.
pub fn rank_by_count(keys: &Vec<u64>) -> (r: Vec<usize>)
    ensures
        ranked_by_count(keys@, r@),
{
    let n = keys.len();
    let mut r: Vec<usize> = Vec::new();
    let mut i: usize = 0;
    while i < n
        invariant
            n == keys@.len(),
            i <= n,
            r@.len() == i,
            r@.no_duplicates(),
            forall|a: int| 0 <= a < r@.len() ==> #[trigger] r@[a] < i,
            forall|a: int, b: int| 0 <= a < b < r@.len() ==> count_before(keys@, #[trigger] r@[a] as int, #[trigger] r@[b] as int),
        decreases n - i,
    {
        let mut p: usize = r.len();
        while p > 0 && keys[i] > keys[r[p - 1]]
            invariant
                n == keys@.len(),
                i < n,
                p <= r@.len(),
                forall|a: int| 0 <= a < r@.len() ==> #[trigger] r@[a] < i,
                forall|q: int| p <= q < r@.len() ==> keys@[i as int] > keys@[#[trigger] r@[q] as int],
            decreases p,
        {
            p -= 1;
        }
        let ghost before = r@;
        r.insert(p, i);
        proof {
            assert(r@ == before.insert(p as int, i));
            assert forall|a: int, b: int| 0 <= a < b < r@.len() implies count_before(keys@, #[trigger] r@[a] as int, #[trigger] r@[b] as int) by {
                if a < p as int && b == p as int {
                    if a < p - 1 {
                        assert(count_before(keys@, before[a] as int, before[p - 1] as int));
                    }
                } else if a == p as int && b > p as int {
                    assert(r@[b] == before[b - 1]);
                } else if a < p as int && b > p as int {
                    assert(r@[a] == before[a]);
                    assert(r@[b] == before[b - 1]);
                } else if a > p as int {
                    assert(r@[a] == before[a - 1]);
                    assert(r@[b] == before[b - 1]);
                } else {
                    assert(r@[a] == before[a]);
                    assert(r@[b] == before[b]);
                }
            }
            assert forall|a: int, b: int| 0 <= a < b < r@.len() implies r@[a] != r@[b] by {
                if b == p as int {
                    assert(r@[a] == before[a]);
                } else if a == p as int {
                    assert(r@[b] == before[b - 1]);
                } else {
                    let a2 = if a < p as int { a } else { a - 1 };
                    let b2 = if b < p as int { b } else { b - 1 };
                    assert(r@[a] == before[a2]);
                    assert(r@[b] == before[b2]);
                }
            }
        }
        i += 1;
    }
    r
}


/// Every index below `n` appears in a permutation of `n` indices.
pub proof fn lemma_permutation_covers(perm: Seq<usize>, n: nat, x: int)
    requires
        is_permutation(perm, n),
        0 <= x < n,
    ensures
        exists|a: int| 0 <= a < perm.len() && perm[a] == x,
{
    let pi = perm.map_values(|v: usize| v as int);
    assert forall|a: int, b: int| 0 <= a < b < pi.len() implies pi[a] != pi[b] by {
        assert(perm[a] != perm[b]);
    }
    pi.unique_seq_to_set();
    vstd::set_lib::lemma_int_range(0, n as int);
    let range = vstd::set_lib::set_int_range(0, n as int);
    assert forall|v: int| pi.to_set().contains(v) implies range.contains(v) by {
        let a = choose|a: int| 0 <= a < pi.len() && pi[a] == v;
        assert(perm[a] < n);
    }
    vstd::set_lib::lemma_len_subset(pi.to_set(), range);
    vstd::set_lib::lemma_subset_equality(pi.to_set(), range);
    assert(range.contains(x));
    assert(pi.to_set().contains(x));
    let a = choose|a: int| 0 <= a < pi.len() && pi[a] == x;
    assert(perm[a] == x);
}

/// Two indices never sort before each other both ways.
proof fn lemma_text_before_asym(keys: Seq<Seq<char>>, i: int, j: int)
    ensures
        !(text_before(keys, i, j) && text_before(keys, j, i)),
{
    lemma_seq_lt_total(keys[i], keys[j]);
    lemma_seq_lt_total(keys[i], keys[i]);
}

/// Two stable sorts by the same keys agree on their first `k` places.
proof fn lemma_sorted_prefix(keys: Seq<Seq<char>>, p: Seq<usize>, q: Seq<usize>, k: int)
    requires
        sorted_by_text(keys, p),
        sorted_by_text(keys, q),
        0 <= k <= p.len(),
    ensures
        forall|j: int| 0 <= j < k ==> p[j] == q[j],
    decreases k,
{
    if k > 0 {
        lemma_sorted_prefix(keys, p, q, k - 1);
        let a = k - 1;
        let x = p[a];
        let y = q[a];
        if x != y {
            lemma_permutation_covers(q, keys.len(), x as int);
            lemma_permutation_covers(p, keys.len(), y as int);
            let b = choose|b: int| 0 <= b < q.len() && q[b] == x;
            let c = choose|c: int| 0 <= c < p.len() && p[c] == y;
            if b < a {
                assert(p[b] == q[b]);
            }
            if c < a {
                assert(p[c] == q[c]);
            }
            assert(b > a);
            assert(c > a);
            assert(text_before(keys, q[a] as int, q[b] as int));
            assert(text_before(keys, p[a] as int, p[c] as int));
            lemma_text_before_asym(keys, x as int, y as int);
        }
    }
}

/// A stable sort by text is unique: two orders that both sort the same
/// keys are the same order.
pub proof fn lemma_sorted_unique(keys: Seq<Seq<char>>, p: Seq<usize>, q: Seq<usize>)
    requires
        sorted_by_text(keys, p),
        sorted_by_text(keys, q),
    ensures
        p == q,
{
    lemma_sorted_prefix(keys, p, q, p.len() as int);
    assert(p =~= q);
}

/// The stable order of indices by ascending key.
pub open spec fn text_order(keys: Seq<Seq<char>>) -> Seq<usize> {
    choose|perm: Seq<usize>| sorted_by_text(keys, perm)
}

/// An order that sorts the keys is the stable order.
pub proof fn lemma_text_order(keys: Seq<Seq<char>>, perm: Seq<usize>)
    requires
        sorted_by_text(keys, perm),
    ensures
        text_order(keys) == perm,
{
    lemma_sorted_unique(keys, text_order(keys), perm);
}

} // verus!
