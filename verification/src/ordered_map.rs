//! Insertion-ordered maps from URI to post and from root URI to thread,
//! held in `indexmap::IndexMap` and specified as sequences of entries.
use indexmap::IndexMap;
use vstd::prelude::*;

use crate::model::{Post, PostModel, Thread, ThreadModel};

verus! {

#[verifier::external_type_specification]
#[verifier::external_body]
#[verifier::reject_recursive_types(K)]
#[verifier::reject_recursive_types(V)]
#[verifier::reject_recursive_types(S)]
pub struct ExIndexMap<K, V, S>(IndexMap<K, V, S>);

/// Whether some entry has key `k`.
pub open spec fn has_key<V>(e: Seq<(Seq<char>, V)>, k: Seq<char>) -> bool {
    exists|i: int| 0 <= i < e.len() && (#[trigger] e[i]).0 == k
}

/// `i` is the first position holding key `k`.
pub open spec fn first_key_at<V>(e: Seq<(Seq<char>, V)>, k: Seq<char>, i: int) -> bool {
    &&& 0 <= i < e.len()
    &&& e[i].0 == k
    &&& forall|j: int| 0 <= j < i ==> (#[trigger] e[j]).0 != k
}

/// The first position holding key `k`, when there is one.
pub open spec fn key_pos<V>(e: Seq<(Seq<char>, V)>, k: Seq<char>) -> int {
    choose|i: int| first_key_at(e, k, i)
}

/// The value stored under `k`.
pub open spec fn lookup<V>(e: Seq<(Seq<char>, V)>, k: Seq<char>) -> Option<V> {
    if has_key(e, k) {
        Some(e[key_pos(e, k)].1)
    } else {
        None
    }
}

/// The entries after `IndexMap::insert`: an existing key keeps its place and
/// takes the new value; a new key goes last.
pub open spec fn insert_entry<V>(e: Seq<(Seq<char>, V)>, k: Seq<char>, v: V) -> Seq<(Seq<char>, V)> {
    if has_key(e, k) {
        e.update(key_pos(e, k), (k, v))
    } else {
        e.push((k, v))
    }
}

/// The entries after `IndexMap::shift_remove`: the entry goes, the rest keep
/// their order.
pub open spec fn remove_entry<V>(e: Seq<(Seq<char>, V)>, k: Seq<char>) -> Seq<(Seq<char>, V)> {
    if has_key(e, k) {
        e.remove(key_pos(e, k))
    } else {
        e
    }
}

/// No key occurs twice.
pub open spec fn distinct_keys<V>(e: Seq<(Seq<char>, V)>) -> bool {
    forall|i: int, j: int| 0 <= i < e.len() && 0 <= j < e.len() && i != j ==> (#[trigger] e[i]).0 != (#[trigger] e[j]).0
}

/// A key that occurs has a first position.
pub proof fn lemma_key_pos<V>(e: Seq<(Seq<char>, V)>, k: Seq<char>)
    requires
        has_key(e, k),
    ensures
        first_key_at(e, k, key_pos(e, k)),
    decreases e.len(),
{
    if e.len() > 0 && e[0].0 == k {
        assert(first_key_at(e, k, 0));
    } else {
        let t = e.drop_first();
        let i = choose|i: int| 0 <= i < e.len() && (#[trigger] e[i]).0 == k;
        assert(t[i - 1].0 == k);
        lemma_key_pos(t, k);
        let p = key_pos(t, k);
        assert(first_key_at(e, k, p + 1)) by {
            assert forall|j: int| 0 <= j < p + 1 implies (#[trigger] e[j]).0 != k by {
                if j > 0 {
                    assert(e[j] == t[j - 1]);
                }
            }
        }
    }
}

/// With distinct keys, the position of a key is the one that holds it.
pub proof fn lemma_key_pos_distinct<V>(e: Seq<(Seq<char>, V)>, i: int)
    requires
        distinct_keys(e),
        0 <= i < e.len(),
    ensures
        has_key(e, e[i].0),
        key_pos(e, e[i].0) == i,
{
    lemma_key_pos(e, e[i].0);
}

/// Replacing the value at a key's position leaves every key's position alone.
pub proof fn lemma_update_value<V>(e: Seq<(Seq<char>, V)>, i: int, v: V, k: Seq<char>)
    requires
        0 <= i < e.len(),
    ensures
        has_key(e.update(i, (e[i].0, v)), k) == has_key(e, k),
        has_key(e, k) ==> key_pos(e.update(i, (e[i].0, v)), k) == key_pos(e, k),
        lookup(e.update(i, (e[i].0, v)), k) == if has_key(e, k) && key_pos(e, k) == i {
            Some(v)
        } else {
            lookup(e, k)
        },
{
    let u = e.update(i, (e[i].0, v));
    if has_key(e, k) {
        let w = choose|j: int| 0 <= j < e.len() && (#[trigger] e[j]).0 == k;
        assert(u[w].0 == k);
    }
    if has_key(u, k) {
        let w = choose|j: int| 0 <= j < u.len() && (#[trigger] u[j]).0 == k;
        assert(e[w].0 == k);
        lemma_key_pos(e, k);
        lemma_key_pos(u, k);
        let p = key_pos(e, k);
        let q = key_pos(u, k);
        assert(u[p].0 == k);
        assert(e[q].0 == k);
        if p < q {
            assert(u[p].0 != k);
        }
        if q < p {
            assert(e[q].0 != k);
        }
    }
}

/// [`lemma_update_value`] for every value and key at once.
pub proof fn lemma_update_all<V>(e: Seq<(Seq<char>, V)>, i: int)
    requires
        0 <= i < e.len(),
    ensures
        forall|v: V, k: Seq<char>|
            #![trigger lookup(e.update(i, (e[i].0, v)), k)]
            lookup(e.update(i, (e[i].0, v)), k) == if has_key(e, k) && key_pos(e, k) == i {
                Some(v)
            } else {
                lookup(e, k)
            },
{
    assert forall|v: V, k: Seq<char>|
        #![trigger lookup(e.update(i, (e[i].0, v)), k)]
        lookup(e.update(i, (e[i].0, v)), k) == if has_key(e, k) && key_pos(e, k) == i {
            Some(v)
        } else {
            lookup(e, k)
        } by {
        lemma_update_value(e, i, v, k);
    }
}

/// What an `IndexMap<String, Post>` holds, in order.
pub uninterp spec fn post_entries(m: IndexMap<String, Post>) -> Seq<(Seq<char>, PostModel)>;

/// What an `IndexMap<String, Thread>` holds, in order.
pub uninterp spec fn thread_entries(m: IndexMap<String, Thread>) -> Seq<(Seq<char>, ThreadModel)>;

/// `IndexMap::new`: an empty map.
#[verifier::external_body]
pub(crate) fn post_map_new() -> (r: IndexMap<String, Post>)
    ensures
        post_entries(r) == Seq::<(Seq<char>, PostModel)>::empty(),
{
    IndexMap::new()
}

/// `IndexMap::len`: the number of entries.
#[verifier::external_body]
pub(crate) fn post_map_len(m: &IndexMap<String, Post>) -> (r: usize)
    ensures
        r == post_entries(*m).len(),
{
    m.len()
}

/// `IndexMap::get_index`: the entry at a position.
#[verifier::external_body]
pub(crate) fn post_map_get_index(m: &IndexMap<String, Post>, i: usize) -> (r: (&String, &Post))
    requires
        i < post_entries(*m).len(),
    ensures
        r.0@ == post_entries(*m)[i as int].0,
        r.1@ == post_entries(*m)[i as int].1,
{
    m.get_index(i).unwrap()
}

/// `IndexMap::get`: the value under a key.
#[verifier::external_body]
pub(crate) fn post_map_get<'a>(m: &'a IndexMap<String, Post>, k: &str) -> (r: Option<&'a Post>)
    ensures
        match lookup(post_entries(*m), k@) {
            Some(v) => r matches Some(p) && p@ == v,
            None => r is None,
        },
{
    m.get(k)
}

/// `IndexMap::insert`: updates an existing key in place or appends a new one;
/// an IndexMap never holds a key twice.
#[verifier::external_body]
pub(crate) fn post_map_insert(m: &mut IndexMap<String, Post>, k: String, v: Post)
    ensures
        post_entries(*final(m)) == insert_entry(post_entries(*old(m)), k@, v@),
        distinct_keys(post_entries(*final(m))),
{
    m.insert(k, v);
}

/// `IndexMap::shift_remove`: removes a key, keeping the order of the rest;
/// an IndexMap never holds a key twice.
#[verifier::external_body]
pub(crate) fn post_map_shift_remove(m: &mut IndexMap<String, Post>, k: &str) -> (r: Option<Post>)
    ensures
        post_entries(*final(m)) == remove_entry(post_entries(*old(m)), k@),
        distinct_keys(post_entries(*old(m))),
        distinct_keys(post_entries(*final(m))),
        match lookup(post_entries(*old(m)), k@) {
            Some(v) => r matches Some(p) && p@ == v,
            None => r is None,
        },
{
    m.shift_remove(k)
}

/// `IndexMap::get_mut`: the value under a key, for mutation in place.
#[verifier::external_body]
pub(crate) fn post_map_get_mut<'a>(m: &'a mut IndexMap<String, Post>, k: &str) -> (r: Option<&'a mut Post>)
    ensures
        match r {
            Some(p) => {
                &&& has_key(post_entries(*old(m)), k@)
                &&& p@ == post_entries(*old(m))[key_pos(post_entries(*old(m)), k@)].1
                &&& post_entries(*final(m)) == post_entries(*old(m)).update(
                    key_pos(post_entries(*old(m)), k@),
                    (post_entries(*old(m))[key_pos(post_entries(*old(m)), k@)].0, final(p)@),
                )
            },
            None => !has_key(post_entries(*old(m)), k@) && post_entries(*final(m))
                == post_entries(*old(m)),
        },
{
    m.get_mut(k)
}

/// `IndexMap::into_iter`: the entries, in order, by value.
#[verifier::external_body]
pub(crate) fn post_map_into_entries(m: IndexMap<String, Post>) -> (r: Vec<(String, Post)>)
    ensures
        r@.len() == post_entries(m).len(),
        forall|i: int| 0 <= i < r@.len() ==> (#[trigger] r@[i]).0@ == post_entries(m)[i].0 && r@[i].1@ == post_entries(m)[i].1,
{
    m.into_iter().collect()
}

/// `IndexMap::new`: an empty map.
#[verifier::external_body]
pub(crate) fn thread_map_new() -> (r: IndexMap<String, Thread>)
    ensures
        thread_entries(r) == Seq::<(Seq<char>, ThreadModel)>::empty(),
{
    IndexMap::new()
}

/// `IndexMap::len`: the number of entries.
#[verifier::external_body]
pub(crate) fn thread_map_len(m: &IndexMap<String, Thread>) -> (r: usize)
    ensures
        r == thread_entries(*m).len(),
{
    m.len()
}

/// `IndexMap::get_index`: the entry at a position.
#[verifier::external_body]
pub(crate) fn thread_map_get_index(m: &IndexMap<String, Thread>, i: usize) -> (r: (&String, &Thread))
    requires
        i < thread_entries(*m).len(),
    ensures
        r.0@ == thread_entries(*m)[i as int].0,
        r.1@ == thread_entries(*m)[i as int].1,
{
    m.get_index(i).unwrap()
}

/// `IndexMap::get`: the value under a key.
#[verifier::external_body]
pub(crate) fn thread_map_get<'a>(m: &'a IndexMap<String, Thread>, k: &str) -> (r: Option<&'a Thread>)
    ensures
        match lookup(thread_entries(*m), k@) {
            Some(v) => r matches Some(t) && t@ == v,
            None => r is None,
        },
{
    m.get(k)
}

/// `IndexMap::get_mut`: the value under a key, for mutation in place.
#[verifier::external_body]
pub(crate) fn thread_map_get_mut<'a>(m: &'a mut IndexMap<String, Thread>, k: &str) -> (r: Option<&'a mut Thread>)
    ensures
        match r {
            Some(t) => {
                &&& has_key(thread_entries(*old(m)), k@)
                &&& t@ == thread_entries(*old(m))[key_pos(thread_entries(*old(m)), k@)].1
                &&& thread_entries(*final(m)) == thread_entries(*old(m)).update(
                    key_pos(thread_entries(*old(m)), k@),
                    (thread_entries(*old(m))[key_pos(thread_entries(*old(m)), k@)].0, final(t)@),
                )
            },
            None => !has_key(thread_entries(*old(m)), k@) && thread_entries(*final(m))
                == thread_entries(*old(m)),
        },
{
    m.get_mut(k)
}

/// `IndexMap::insert`: updates an existing key in place or appends a new one;
/// an IndexMap never holds a key twice.
#[verifier::external_body]
pub(crate) fn thread_map_insert(m: &mut IndexMap<String, Thread>, k: String, v: Thread)
    ensures
        thread_entries(*final(m)) == insert_entry(thread_entries(*old(m)), k@, v@),
        distinct_keys(thread_entries(*final(m))),
{
    m.insert(k, v);
}

/// `IndexMap::shift_remove`: removes a key, keeping the order of the rest;
/// an IndexMap never holds a key twice.
#[verifier::external_body]
pub(crate) fn thread_map_shift_remove(m: &mut IndexMap<String, Thread>, k: &str) -> (r: Option<Thread>)
    ensures
        thread_entries(*final(m)) == remove_entry(thread_entries(*old(m)), k@),
        distinct_keys(thread_entries(*old(m))),
        distinct_keys(thread_entries(*final(m))),
        match lookup(thread_entries(*old(m)), k@) {
            Some(v) => r matches Some(t) && t@ == v,
            None => r is None,
        },
{
    m.shift_remove(k)
}

} // verus!
