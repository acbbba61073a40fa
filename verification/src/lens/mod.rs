//! Lenses: renderings of a [`ContextWeb`] tuned for different reasoning tasks.
use vstd::prelude::*;
use vstd::string::*;

use crate::model::{edges_view, web_posts, ContextWeb, EdgeModel, PostModel};
use crate::ordered_map::{has_key, lookup};
use crate::strings::{concat2, str_eq};
use crate::uri::debug_quoted;

pub mod graph;
pub use crate::text::{author_name, counted, short_time, split_lines, thousands, truncate};
pub use graph::{build_children, build_quotes_received, find_tree_root, thread_hop_distances};
pub mod order;
pub mod fmt;
pub mod walk;
pub mod tree;
pub mod linear;
pub mod by_author;
pub mod timeline;
pub mod search;
pub mod threads;
pub mod highlights;
pub mod stats;
pub mod neighborhood;

verus! {

/// A lens together with its parameters.
#[derive(Debug, Clone, PartialEq, Eq)]
pub enum Lens {
    /// Indented threaded view.
    Tree,
    /// Chronological narrative with cross-references.
    Linear,
    /// Posts grouped by participant.
    ByAuthor,
    /// The full JSON graph.
    Raw,
    /// Summary statistics.
    Stats,
    /// Threads sorted by size.
    Threads {
        /// How many threads to list.
        top: usize,
    },
    /// Most quoted, most replied, highest engagement.
    Highlights {
        /// How many entries per ranking.
        top: usize,
    },
    /// Posts within N quote hops of a target post.
    Neighborhood {
        /// The target post; the web's root when absent.
        uri: Option<String>,
        /// Maximum hop distance.
        hops: usize,
    },
    /// Posts inside a time window.
    Timeline {
        /// Inclusive lower bound, ISO 8601.
        after: Option<String>,
        /// Exclusive upper bound, ISO 8601.
        before: Option<String>,
    },
    /// Posts matching a text query and/or author handle substring.
    Search {
        /// Case-insensitive substring of the post text.
        query: Option<String>,
        /// Case-insensitive substring of the author handle.
        author: Option<String>,
    },
}

/// Default number of threads listed by [`Lens::Threads`].
pub const DEFAULT_THREADS_TOP: usize = 20;

/// Default number of entries per ranking in [`Lens::Highlights`].
pub const DEFAULT_HIGHLIGHTS_TOP: usize = 10;

/// Default hop distance for [`Lens::Neighborhood`].
pub const DEFAULT_HOPS: usize = 2;

/// The lens names accepted by [`parse_lens_kind`].
pub const NAMES: [&'static str; 10] = [
    "tree",
    "linear",
    "by-author",
    "raw",
    "stats",
    "threads",
    "highlights",
    "neighborhood",
    "timeline",
    "search",
];

/// A lens name without parameters, for parsing user input.
#[derive(Debug, Clone, Copy, PartialEq, Eq, Hash)]
pub enum LensKind {
    /// See [`Lens::Tree`].
    Tree,
    /// See [`Lens::Linear`].
    Linear,
    /// See [`Lens::ByAuthor`].
    ByAuthor,
    /// See [`Lens::Raw`].
    Raw,
    /// See [`Lens::Stats`].
    Stats,
    /// See [`Lens::Threads`].
    Threads,
    /// See [`Lens::Highlights`].
    Highlights,
    /// See [`Lens::Neighborhood`].
    Neighborhood,
    /// See [`Lens::Timeline`].
    Timeline,
    /// See [`Lens::Search`].
    Search,
}

/// Error for an unrecognized lens name.
#[derive(Debug, Clone, PartialEq, Eq)]
pub struct UnknownLens(pub String);

/// Optional lens parameters as they arrive from a command line or a query.
#[derive(Debug, Clone, PartialEq, Eq, Default)]
pub struct LensParams {
    /// Result count for threads and highlights.
    pub top: Option<usize>,
    /// Hop radius for neighborhood.
    pub hops: Option<usize>,
    /// Center post for neighborhood.
    pub uri: Option<String>,
    /// Inclusive lower bound for timeline.
    pub after: Option<String>,
    /// Exclusive upper bound for timeline.
    pub before: Option<String>,
    /// Text query for search.
    pub query: Option<String>,
    /// Author handle filter for search.
    pub author: Option<String>,
}

/// The name of a lens kind.
pub open spec fn spec_kind_name(k: LensKind) -> Seq<char> {
    match k {
        LensKind::Tree => "tree"@,
        LensKind::Linear => "linear"@,
        LensKind::ByAuthor => "by-author"@,
        LensKind::Raw => "raw"@,
        LensKind::Stats => "stats"@,
        LensKind::Threads => "threads"@,
        LensKind::Highlights => "highlights"@,
        LensKind::Neighborhood => "neighborhood"@,
        LensKind::Timeline => "timeline"@,
        LensKind::Search => "search"@,
    }
}

/// The lens kind a name denotes, if any.
pub open spec fn spec_kind_of_name(s: Seq<char>) -> Option<LensKind> {
    if s == "tree"@ {
        Some(LensKind::Tree)
    } else if s == "linear"@ {
        Some(LensKind::Linear)
    } else if s == "by-author"@ {
        Some(LensKind::ByAuthor)
    } else if s == "raw"@ {
        Some(LensKind::Raw)
    } else if s == "stats"@ {
        Some(LensKind::Stats)
    } else if s == "threads"@ {
        Some(LensKind::Threads)
    } else if s == "highlights"@ {
        Some(LensKind::Highlights)
    } else if s == "neighborhood"@ {
        Some(LensKind::Neighborhood)
    } else if s == "timeline"@ {
        Some(LensKind::Timeline)
    } else if s == "search"@ {
        Some(LensKind::Search)
    } else {
        None
    }
}

/// The kind of a lens.
pub open spec fn spec_lens_kind(l: Lens) -> LensKind {
    match l {
        Lens::Tree => LensKind::Tree,
        Lens::Linear => LensKind::Linear,
        Lens::ByAuthor => LensKind::ByAuthor,
        Lens::Raw => LensKind::Raw,
        Lens::Stats => LensKind::Stats,
        Lens::Threads { .. } => LensKind::Threads,
        Lens::Highlights { .. } => LensKind::Highlights,
        Lens::Neighborhood { .. } => LensKind::Neighborhood,
        Lens::Timeline { .. } => LensKind::Timeline,
        Lens::Search { .. } => LensKind::Search,
    }
}

/// `l` is the lens of kind `kind` made from these parameters, defaults
/// filling the gaps.
pub open spec fn lens_built(
    l: Lens,
    kind: LensKind,
    top: Option<usize>,
    hops: Option<usize>,
    uri: Option<Seq<char>>,
    after: Option<Seq<char>>,
    before: Option<Seq<char>>,
    query: Option<Seq<char>>,
    author: Option<Seq<char>>,
) -> bool {
    &&& spec_lens_kind(l) == kind
    &&& match l {
        Lens::Threads { top: t } => t == match top {
            Some(x) => x,
            None => DEFAULT_THREADS_TOP,
        },
        Lens::Highlights { top: t } => t == match top {
            Some(x) => x,
            None => DEFAULT_HIGHLIGHTS_TOP,
        },
        Lens::Neighborhood { uri: u, hops: h } => crate::model::opt_view(u) == uri && h == match hops {
            Some(x) => x,
            None => DEFAULT_HOPS,
        },
        Lens::Timeline { after: a, before: b } => crate::model::opt_view(a) == after && crate::model::opt_view(b)
            == before,
        Lens::Search { query: q, author: a } => crate::model::opt_view(q) == query && crate::model::opt_view(a)
            == author,
        _ => true,
    }
}

/// Parses a lens name.
pub fn parse_lens_kind(s: &str) -> (r: Result<LensKind, UnknownLens>)
    ensures
        match spec_kind_of_name(s@) {
            Some(k) => r == Ok::<LensKind, UnknownLens>(k),
            None => r matches Err(e) && e.0@ == s@,
        },
{
    if str_eq(s, "tree") {
        Ok(LensKind::Tree)
    } else if str_eq(s, "linear") {
        Ok(LensKind::Linear)
    } else if str_eq(s, "by-author") {
        Ok(LensKind::ByAuthor)
    } else if str_eq(s, "raw") {
        Ok(LensKind::Raw)
    } else if str_eq(s, "stats") {
        Ok(LensKind::Stats)
    } else if str_eq(s, "threads") {
        Ok(LensKind::Threads)
    } else if str_eq(s, "highlights") {
        Ok(LensKind::Highlights)
    } else if str_eq(s, "neighborhood") {
        Ok(LensKind::Neighborhood)
    } else if str_eq(s, "timeline") {
        Ok(LensKind::Timeline)
    } else if str_eq(s, "search") {
        Ok(LensKind::Search)
    } else {
        Err(UnknownLens(String::from_str(s)))
    }
}

impl core::str::FromStr for LensKind {
    type Err = UnknownLens;

    fn from_str(s: &str) -> (r: Result<LensKind, UnknownLens>)
        ensures
            match spec_kind_of_name(s@) {
                Some(k) => r == Ok::<LensKind, UnknownLens>(k),
                None => r matches Err(e) && e.0@ == s@,
            },
    {
        parse_lens_kind(s)
    }
}

impl UnknownLens {
    /// The error message, listing the accepted names.
    pub fn message(&self) -> (r: String)
        ensures
            r@ == "unknown lens "@ + debug_quoted(self.0@)
                + "; options: tree, linear, by-author, raw, stats, threads, highlights, neighborhood, timeline, search"@,
    {
        let q = crate::uri::debug_quote(self.0.as_str());
        let mut s = concat2("unknown lens ", q.as_str());
        s.append(
            "; options: tree, linear, by-author, raw, stats, threads, highlights, neighborhood, timeline, search",
        );
        s
    }
}

impl LensKind {
    /// Returns the lens name as accepted by [`parse_lens_kind`].
    pub fn name(self) -> (r: &'static str)
        ensures
            r@ == spec_kind_name(self),
    {
        match self {
            LensKind::Tree => "tree",
            LensKind::Linear => "linear",
            LensKind::ByAuthor => "by-author",
            LensKind::Raw => "raw",
            LensKind::Stats => "stats",
            LensKind::Threads => "threads",
            LensKind::Highlights => "highlights",
            LensKind::Neighborhood => "neighborhood",
            LensKind::Timeline => "timeline",
            LensKind::Search => "search",
        }
    }

    /// Returns the lens with default parameters.
    pub fn with_defaults(self) -> (r: Lens)
        ensures
            spec_lens_kind(r) == self,
            r == (match self {
                LensKind::Tree => Lens::Tree,
                LensKind::Linear => Lens::Linear,
                LensKind::ByAuthor => Lens::ByAuthor,
                LensKind::Raw => Lens::Raw,
                LensKind::Stats => Lens::Stats,
                LensKind::Threads => Lens::Threads { top: DEFAULT_THREADS_TOP },
                LensKind::Highlights => Lens::Highlights { top: DEFAULT_HIGHLIGHTS_TOP },
                LensKind::Neighborhood => Lens::Neighborhood { uri: None, hops: DEFAULT_HOPS },
                LensKind::Timeline => Lens::Timeline { after: None, before: None },
                LensKind::Search => Lens::Search { query: None, author: None },
            }),
    {
        match self {
            LensKind::Tree => Lens::Tree,
            LensKind::Linear => Lens::Linear,
            LensKind::ByAuthor => Lens::ByAuthor,
            LensKind::Raw => Lens::Raw,
            LensKind::Stats => Lens::Stats,
            LensKind::Threads => Lens::Threads { top: DEFAULT_THREADS_TOP },
            LensKind::Highlights => Lens::Highlights { top: DEFAULT_HIGHLIGHTS_TOP },
            LensKind::Neighborhood => Lens::Neighborhood { uri: None, hops: DEFAULT_HOPS },
            LensKind::Timeline => Lens::Timeline { after: None, before: None },
            LensKind::Search => Lens::Search { query: None, author: None },
        }
    }

    /// Returns the lens with the given parameters, defaults filling the gaps.
    pub fn with_params(self, params: &LensParams) -> (r: Lens)
        ensures
            lens_built(
                r,
                self,
                params.top,
                params.hops,
                crate::model::opt_view(params.uri),
                crate::model::opt_view(params.after),
                crate::model::opt_view(params.before),
                crate::model::opt_view(params.query),
                crate::model::opt_view(params.author),
            ),
    {
        match self {
            LensKind::Tree => Lens::Tree,
            LensKind::Linear => Lens::Linear,
            LensKind::ByAuthor => Lens::ByAuthor,
            LensKind::Raw => Lens::Raw,
            LensKind::Stats => Lens::Stats,
            LensKind::Threads => Lens::Threads {
                top: match params.top {
                    Some(t) => t,
                    None => DEFAULT_THREADS_TOP,
                },
            },
            LensKind::Highlights => Lens::Highlights {
                top: match params.top {
                    Some(t) => t,
                    None => DEFAULT_HIGHLIGHTS_TOP,
                },
            },
            LensKind::Neighborhood => Lens::Neighborhood {
                uri: crate::model::clone_opt(&params.uri),
                hops: match params.hops {
                    Some(h) => h,
                    None => DEFAULT_HOPS,
                },
            },
            LensKind::Timeline => Lens::Timeline {
                after: crate::model::clone_opt(&params.after),
                before: crate::model::clone_opt(&params.before),
            },
            LensKind::Search => Lens::Search {
                query: crate::model::clone_opt(&params.query),
                author: crate::model::clone_opt(&params.author),
            },
        }
    }
}

impl Lens {
    /// Returns which kind of lens this is.
    pub fn kind(&self) -> (r: LensKind)
        ensures
            r == spec_lens_kind(*self),
    {
        match self {
            Lens::Tree => LensKind::Tree,
            Lens::Linear => LensKind::Linear,
            Lens::ByAuthor => LensKind::ByAuthor,
            Lens::Raw => LensKind::Raw,
            Lens::Stats => LensKind::Stats,
            Lens::Threads { .. } => LensKind::Threads,
            Lens::Highlights { .. } => LensKind::Highlights,
            Lens::Neighborhood { .. } => LensKind::Neighborhood,
            Lens::Timeline { .. } => LensKind::Timeline,
            Lens::Search { .. } => LensKind::Search,
        }
    }
}

/// Every name denotes the kind whose name it is, and parsing a kind's name
/// gives that kind back.
pub proof fn lemma_name_roundtrip(k: LensKind)
    ensures
        spec_kind_of_name(spec_kind_name(k)) == Some(k),
{
    reveal_strlit("tree");
    reveal_strlit("linear");
    reveal_strlit("by-author");
    reveal_strlit("raw");
    reveal_strlit("stats");
    reveal_strlit("threads");
    reveal_strlit("highlights");
    reveal_strlit("neighborhood");
    reveal_strlit("timeline");
    reveal_strlit("search");
    assert("linear"@[0] != "search"@[0]);
    assert("tree"@.len() == 4 && "linear"@.len() == 6 && "by-author"@.len() == 9 && "raw"@.len() == 3);
    assert("stats"@.len() == 5 && "threads"@.len() == 7 && "highlights"@.len() == 10);
    assert("neighborhood"@.len() == 12 && "timeline"@.len() == 8 && "search"@.len() == 6);
}


/// What each lens renders a web as: the raw lens the stored JSON document,
/// the others their text views as each lens module states them; the tree
/// walks reach every post of the web, each once.
pub open spec fn lens_output(web: &ContextWeb, lens: Lens, out: Seq<char>) -> bool {
    &&& lens is Raw ==> out == crate::json::pretty(crate::json::web_json(web@), 0)
    &&& lens is Tree ==> {
        &&& out == crate::lens::fmt::spec_text(tree::tree_lines(web))
        &&& tree::tree_walk(web).visited.no_duplicates()
        &&& forall|i: int|
            0 <= i < tree::node_uris(web@).len() ==> tree::tree_walk(web).visited.contains(
                #[trigger] tree::node_uris(web@)[i],
            )
    }
    &&& lens is Linear ==> ({
        let nodes = crate::model::spec_nodes(web@.threads);
        exists|perm: Seq<usize>|
            #[trigger] linear::time_ordered(nodes, perm) && out == crate::lens::fmt::spec_text(
                linear::linear_lines(nodes, crate::lens::fmt::ordered(nodes, perm), nodes.len()),
            )
    })
    &&& lens is ByAuthor ==> ({
        let nodes = crate::model::spec_nodes(web@.threads);
        exists|perm: Seq<usize>, gperms: Seq<Seq<usize>>, aperm: Seq<usize>|
            #[trigger] by_author::by_author_basis(nodes, perm, gperms, aperm) && out == crate::lens::fmt::spec_text(
                by_author::by_author_lines(
                    web@.quote_edges,
                    by_author::root_did(web),
                    nodes,
                    crate::lens::fmt::ordered(nodes, perm),
                    by_author::authors_in(by_author::sorted_groups(by_author::spec_groups(nodes), gperms), aperm),
                ),
            )
    })
    &&& lens matches Lens::Neighborhood { uri, hops } ==> neighborhood::nbhd_answer(
        web,
        neighborhood::nbhd_target(web@, crate::model::opt_view(uri)),
        hops as nat,
        out,
    )
    &&& lens matches Lens::Timeline { after, before } ==> ({
        let nodes = crate::model::spec_nodes(web@.threads);
        let a = timeline::spec_bound(crate::model::opt_view(after));
        let b = timeline::spec_bound(crate::model::opt_view(before));
        exists|perm: Seq<usize>|
            #[trigger] linear::time_ordered(nodes, perm) && out == crate::lens::fmt::spec_text(
                timeline::timeline_lines(
                    nodes,
                    timeline::in_window_posts(crate::lens::fmt::ordered(nodes, perm), a, b),
                    web@.index.len(),
                    a,
                    b,
                ),
            )
    })
    &&& lens is Stats ==> exists|aperm: Seq<usize>, pperm: Seq<usize>, dv: Seq<(Seq<char>, usize)>|
        #[trigger] stats::stats_basis(web@, aperm, pperm, dv) && out == crate::lens::fmt::spec_text(
            stats::stats_lines(
                web@,
                stats::counts_in(stats::author_counts(crate::model::web_posts(web@.threads)), aperm),
                crate::lens::fmt::ordered(crate::model::web_posts(web@.threads), pperm),
                dv,
            ),
        )
    &&& lens matches Lens::Highlights { top } ==> exists|q: Seq<usize>, c: Seq<usize>, e: Seq<usize>, m: Seq<usize>|
        #[trigger] highlights::highlights_basis(web@, q, c, e, m) && out == crate::lens::fmt::spec_text(
            highlights::highlights_lines(
                web@,
                highlights::pick(crate::lens::graph::spec_quote_counts(web@.quote_edges), q),
                highlights::pick(crate::lens::graph::spec_children(crate::model::web_posts(web@.threads)), c),
                crate::lens::fmt::ordered(crate::model::web_posts(web@.threads), e),
                highlights::pick(highlights::author_totals(crate::model::web_posts(web@.threads)), m),
                top as nat,
            ),
        )
    &&& lens matches Lens::Threads { top } ==> exists|perm: Seq<usize>|
        #[trigger] crate::lens::order::ranked_by_count(threads::info_sizes(threads::spec_infos(web@.threads)), perm)
            && out == crate::lens::fmt::spec_text(
            threads::threads_lines(threads::infos_in(threads::spec_infos(web@.threads), perm), top as nat),
        )
    &&& lens matches Lens::Search { query, author } ==> ({
        let q = timeline::spec_bound(crate::model::opt_view(query));
        let a = timeline::spec_bound(crate::model::opt_view(author));
        let all = crate::model::web_posts(web@.threads);
        if q is None && a is None {
            out == "No search criteria provided. Use --query and/or --author."@
        } else {
            exists|perm: Seq<usize>|
                #[trigger] linear::time_ordered(all, perm) && out == crate::lens::fmt::spec_text(
                    search::search_lines(
                        web@,
                        crate::model::spec_nodes(web@.threads),
                        search::matching(crate::lens::fmt::ordered(all, perm), search::lowered(q), search::lowered(a)),
                        q,
                        a,
                    ),
                )
        }
    })
}

/// Renders a web through a lens. The raw lens is the web's stored JSON
/// document.
pub fn render(web: &ContextWeb, lens: &Lens) -> (r: String)
    ensures
        lens_output(web, *lens, r@),
{
    match lens {
        Lens::Tree => tree::render(web),
        Lens::Linear => linear::render(web),
        Lens::ByAuthor => by_author::render(web),
        Lens::Raw => web.to_json_pretty(),
        Lens::Stats => stats::render(web),
        Lens::Threads { top } => threads::render(web, *top),
        Lens::Highlights { top } => highlights::render(web, *top),
        Lens::Neighborhood { uri, hops } => {
            let u: Option<&str> = match uri {
                Some(s) => Some(s.as_str()),
                None => None,
            };
            proof {
                assert(crate::lens::timeline::opt_str_view(u) == crate::model::opt_view(*uri));
            }
            neighborhood::render(web, u, *hops)
        },
        Lens::Timeline { after, before } => {
            let a: Option<&str> = match after {
                Some(s) => Some(s.as_str()),
                None => None,
            };
            let b: Option<&str> = match before {
                Some(s) => Some(s.as_str()),
                None => None,
            };
            timeline::render(web, a, b)
        },
        Lens::Search { query, author } => {
            let q: Option<&str> = match query {
                Some(s) => Some(s.as_str()),
                None => None,
            };
            let a: Option<&str> = match author {
                Some(s) => Some(s.as_str()),
                None => None,
            };
            search::render(web, q, a)
        },
    }
}

} // verus!
