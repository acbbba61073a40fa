//! The rules of the local web store that do not touch the disk: which
//! stored web an identifier names, the order webs are listed in, and what a
//! listing shows for a file whose metadata is missing.
use vstd::prelude::*;
use vstd::string::*;

use crate::lens::order::{sort_by_text, sorted_by_text};
use crate::strings::{has_prefix, starts_with, str_eq};

verus! {

/// The abstract values of a sequence of strings.
pub open spec fn strings_view(v: Seq<String>) -> Seq<Seq<char>> {
    v.map_values(|s: String| s@)
}

/// `out` is `items` in ascending text order, equal items kept in their order.
pub open spec fn sorted_copy(items: Seq<Seq<char>>, out: Seq<Seq<char>>) -> bool {
    exists|perm: Seq<usize>|
        #![trigger sorted_by_text(items, perm)]
        sorted_by_text(items, perm) && out.len() == items.len() && forall|a: int|
            0 <= a < out.len() ==> #[trigger] out[a] == items[perm[a] as int]
}

/// Sorts strings in ascending order, as `Vec::sort` orders them.
pub fn sort_strings(v: &Vec<String>) -> (r: Vec<String>)
    ensures
        sorted_copy(strings_view(v@), strings_view(r@)),
{
    let mut keys: Vec<&str> = Vec::new();
    let n = v.len();
    let mut i: usize = 0;
    while i < n
        invariant
            n == v@.len(),
            i <= n,
            keys@.len() == i,
            forall|k: int| 0 <= k < i ==> (#[trigger] keys@[k])@ == v@[k]@,
        decreases n - i,
    {
        keys.push(v[i].as_str());
        i += 1;
    }
    let ghost kv = keys@.map_values(|k: &str| k@);
    assert(kv =~= strings_view(v@));
    let perm = sort_by_text(&keys);
    let mut out: Vec<String> = Vec::new();
    let mut j: usize = 0;
    while j < n
        invariant
            n == v@.len(),
            sorted_by_text(strings_view(v@), perm@),
            j <= n,
            out@.len() == j,
            forall|a: int| 0 <= a < j ==> (#[trigger] out@[a])@ == v@[perm@[a] as int]@,
        decreases n - j,
    {
        let k = perm[j];
        out.push(v[k].clone());
        j += 1;
    }
    proof {
        let ov = strings_view(out@);
        assert forall|a: int| 0 <= a < ov.len() implies #[trigger] ov[a] == strings_view(v@)[perm@[a] as int] by {
            assert(ov[a] == out@[a]@);
        }
    }
    out
}

/// The ids in `ids` that start with `prefix`, in their order.
pub open spec fn prefix_matches(ids: Seq<Seq<char>>, prefix: Seq<char>) -> Seq<Seq<char>>
    decreases ids.len(),
{
    if ids.len() == 0 {
        Seq::empty()
    } else {
        let rest = prefix_matches(ids.drop_last(), prefix);
        if has_prefix(ids.last(), prefix) {
            rest.push(ids.last())
        } else {
            rest
        }
    }
}

/// Which stored web an identifier names.
#[derive(Debug, Clone, PartialEq, Eq)]
pub enum Selection {
    /// The web with this id.
    Found(String),
    /// No web id is, or starts with, the identifier.
    NotFound,
    /// Several web ids start with the identifier; they are listed sorted.
    Ambiguous(Vec<String>),
}

/// Picks the stored web an identifier names: the web whose id it is, or
/// else the one web whose id starts with it.
pub fn select_web(identifier: &str, ids: &Vec<String>) -> (r: Selection)
    ensures
        ({
            let all = strings_view(ids@);
            let m = prefix_matches(all, identifier@);
            match r {
                Selection::Found(s) => if all.contains(identifier@) {
                    s@ == identifier@
                } else {
                    m.len() == 1 && s@ == m[0]
                },
                Selection::NotFound => !all.contains(identifier@) && m.len() == 0,
                Selection::Ambiguous(v) => !all.contains(identifier@) && m.len() >= 2 && sorted_copy(
                    m,
                    strings_view(v@),
                ),
            }
        }),
{
    let ghost all = strings_view(ids@);
    let mut matches: Vec<String> = Vec::new();
    let n = ids.len();
    let mut i: usize = 0;
    while i < n
        invariant
            n == ids@.len(),
            all == strings_view(ids@),
            i <= n,
            strings_view(matches@) == prefix_matches(all.take(i as int), identifier@),
            forall|k: int| 0 <= k < i ==> all[k] != identifier@,
        decreases n - i,
    {
        proof {
            assert(all.take(i + 1).drop_last() =~= all.take(i as int));
            assert(all.take(i + 1).last() == ids@[i as int]@);
        }
        if str_eq(ids[i].as_str(), identifier) {
            proof {
                assert(all[i as int] == identifier@);
            }
            return Selection::Found(String::from_str(identifier));
        }
        if starts_with(ids[i].as_str(), identifier) {
            let ghost before = matches@;
            matches.push(ids[i].clone());
            proof {
                assert(strings_view(matches@) =~= strings_view(before).push(ids@[i as int]@));
            }
        }
        i += 1;
    }
    proof {
        assert(all.take(n as int) =~= all);
        if all.contains(identifier@) {
            let k = choose|k: int| 0 <= k < all.len() && all[k] == identifier@;
            assert(all[k] != identifier@);
        }
    }
    if matches.len() == 0 {
        Selection::NotFound
    } else if matches.len() == 1 {
        Selection::Found(matches[0].clone())
    } else {
        Selection::Ambiguous(sort_strings(&matches))
    }
}

/// What a listing shows for one stored web.
#[derive(Debug, Clone, PartialEq, Eq)]
pub struct WebSummary {
    /// The web ID (file stem).
    pub id: String,
    /// Root post URI.
    pub root_uri: String,
    /// When it was crawled.
    pub crawled_at: String,
    /// Post count.
    pub nodes: usize,
    /// Edge count.
    pub edges: usize,
    /// Thread count.
    pub threads: usize,
}

/// A string, or `?` when it is missing.
pub open spec fn or_unknown(o: Option<Seq<char>>) -> Seq<char> {
    match o {
        Some(s) => s,
        None => "?"@,
    }
}

impl WebSummary {
    /// Summarizes a stored web from the metadata its file holds; a missing
    /// root URI or crawl time shows as `?`.
    pub fn from_meta(
        id: String,
        root_uri: Option<String>,
        crawled_at: Option<String>,
        nodes: usize,
        edges: usize,
        threads: usize,
    ) -> (r: WebSummary)
        ensures
            r.id@ == id@,
            r.root_uri@ == or_unknown(crate::model::opt_view(root_uri)),
            r.crawled_at@ == or_unknown(crate::model::opt_view(crawled_at)),
            r.nodes == nodes,
            r.edges == edges,
            r.threads == threads,
    {
        proof {
            reveal_strlit("?");
        }
        let root_uri = match root_uri {
            Some(s) => s,
            None => String::from_str("?"),
        };
        let crawled_at = match crawled_at {
            Some(s) => s,
            None => String::from_str("?"),
        };
        WebSummary { id, root_uri, crawled_at, nodes, edges, threads }
    }
}

} // verus!
