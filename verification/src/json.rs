//! The JSON storage format of a web.
//!
//! A web is stored as one JSON document: `meta` (format version, root, crawl
//! time, counts), `threads` keyed by root URI with their posts keyed by URI,
//! and the normalized `quote_edges`. The document is written with two-space
//! indentation, one member or item per line, as `serde_json`'s pretty
//! printer lays it out. This module states the document as a value, states
//! the text of a value, and proves that the writer produces that text.
use vstd::prelude::*;
use vstd::string::*;

use crate::lens::fmt::{indent, spec_indent};
use crate::model::{
    count_replies, edges_view, normalized, saturated, spec_raw_from_feature, web_posts, AuthorModel, ContextWeb,
    EdgeModel, Facet, FacetFeature, FacetModel, FeatureModel, Post, PostModel, QuoteEdge, Thread, ThreadModel,
    WebModel, FORMAT_VERSION,
};
use crate::ordered_map::{post_entries, post_map_get_index, post_map_len, thread_entries, thread_map_get_index, thread_map_len};
use crate::strings::{decimal, push_char, spec_decimal};

verus! {

/// A JSON value.
pub enum Json {
    Null,
    Num(nat),
    Str(Seq<char>),
    Arr(Seq<Json>),
    Obj(Seq<(Seq<char>, Json)>),
}

/// The lowercase hexadecimal digit of `d`.
pub open spec fn hex_char(d: int) -> char {
    if d == 0 { '0' } else if d == 1 { '1' } else if d == 2 { '2' } else if d == 3 { '3' }
    else if d == 4 { '4' } else if d == 5 { '5' } else if d == 6 { '6' } else if d == 7 { '7' }
    else if d == 8 { '8' } else if d == 9 { '9' } else if d == 10 { 'a' } else if d == 11 { 'b' }
    else if d == 12 { 'c' } else if d == 13 { 'd' } else if d == 14 { 'e' } else { 'f' }
}

/// How one character of a string is written inside quotes: the quote, the
/// backslash and control characters are escaped, everything else is kept.
pub open spec fn escape_char(c: char) -> Seq<char> {
    if c == '"' {
        "\\\""@
    } else if c == '\\' {
        "\\\\"@
    } else if c == '\n' {
        "\\n"@
    } else if c == '\r' {
        "\\r"@
    } else if c == '\t' {
        "\\t"@
    } else if c == '\u{8}' {
        "\\b"@
    } else if c == '\u{c}' {
        "\\f"@
    } else if (c as int) < 0x20 {
        "\\u00"@ + seq![hex_char((c as int) / 16), hex_char((c as int) % 16)]
    } else {
        seq![c]
    }
}

/// A string's characters, each written as [`escape_char`] says.
pub open spec fn escaped(s: Seq<char>) -> Seq<char>
    decreases s.len(),
{
    if s.len() == 0 {
        Seq::empty()
    } else {
        escaped(s.drop_last()) + escape_char(s.last())
    }
}

/// A string literal.
pub open spec fn quoted(s: Seq<char>) -> Seq<char> {
    seq!['"'] + escaped(s) + seq!['"']
}

/// What precedes an array item: a comma unless it is the first, a new line
/// and the indentation one level deeper.
pub open spec fn item_head(first: bool, depth: nat) -> Seq<char> {
    (if first { Seq::empty() } else { seq![','] }) + seq!['\n'] + spec_indent(depth + 1)
}

/// What precedes an object member's value: the item head, the quoted key
/// and a colon.
pub open spec fn member_head(first: bool, key: Seq<char>, depth: nat) -> Seq<char> {
    item_head(first, depth) + quoted(key) + ": "@
}

/// The end of a non-empty array or object: a new line, the indentation and
/// the bracket.
pub open spec fn closing(depth: nat, bracket: char) -> Seq<char> {
    seq!['\n'] + spec_indent(depth) + seq![bracket]
}

/// The text of a value whose first line is indented `depth` levels.
pub open spec fn pretty(v: Json, depth: nat) -> Seq<char>
    decreases v,
{
    match v {
        Json::Null => "null"@,
        Json::Num(n) => spec_decimal(n),
        Json::Str(s) => quoted(s),
        Json::Arr(items) => if items.len() == 0 {
            "[]"@
        } else {
            seq!['['] + pretty_items(items, depth) + closing(depth, ']')
        },
        Json::Obj(ms) => if ms.len() == 0 {
            "{}"@
        } else {
            seq!['{'] + pretty_members(ms, depth) + closing(depth, '}')
        },
    }
}

/// The items of an array, each on a line of its own.
pub open spec fn pretty_items(items: Seq<Json>, depth: nat) -> Seq<char>
    decreases items,
{
    if items.len() == 0 {
        Seq::empty()
    } else {
        pretty_items(items.subrange(0, items.len() - 1), depth) + item_head(items.len() == 1, depth) + pretty(
            items[items.len() - 1],
            depth + 1,
        )
    }
}

/// The members of an object, each on a line of its own.
pub open spec fn pretty_members(ms: Seq<(Seq<char>, Json)>, depth: nat) -> Seq<char>
    decreases ms,
{
    if ms.len() == 0 {
        Seq::empty()
    } else {
        pretty_members(ms.subrange(0, ms.len() - 1), depth) + member_head(ms.len() == 1, ms[ms.len() - 1].0, depth)
            + pretty(ms[ms.len() - 1].1, depth + 1)
    }
}

/// Appending an item to an array appends its line.
pub proof fn lemma_items_push(items: Seq<Json>, v: Json, depth: nat)
    ensures
        pretty_items(items.push(v), depth) == pretty_items(items, depth) + item_head(items.len() == 0, depth)
            + pretty(v, depth + 1),
{
    assert(items.push(v).subrange(0, items.len() as int) =~= items);
}

/// Appending a member to an object appends its line.
pub proof fn lemma_members_push(ms: Seq<(Seq<char>, Json)>, k: Seq<char>, v: Json, depth: nat)
    ensures
        pretty_members(ms.push((k, v)), depth) == pretty_members(ms, depth) + member_head(ms.len() == 0, k, depth)
            + pretty(v, depth + 1),
{
    assert(ms.push((k, v)).subrange(0, ms.len() as int) =~= ms);
}

/// A text that has grown by one member's line.
proof fn lemma_member_step(
    prefix: Seq<char>,
    ms: Seq<(Seq<char>, Json)>,
    k: Seq<char>,
    v: Json,
    depth: nat,
    before: Seq<char>,
    after: Seq<char>,
)
    requires
        before =~= prefix + pretty_members(ms, depth),
        after == before + member_head(ms.len() == 0, k, depth) + pretty(v, depth + 1),
    ensures
        after == prefix + pretty_members(ms.push((k, v)), depth),
{
    lemma_members_push(ms, k, v, depth);
    assert(after =~= prefix + pretty_members(ms.push((k, v)), depth));
}

/// A text that has grown by one item's line.
proof fn lemma_item_step(prefix: Seq<char>, items: Seq<Json>, v: Json, depth: nat, before: Seq<char>, after: Seq<char>)
    requires
        before =~= prefix + pretty_items(items, depth),
        after == before + item_head(items.len() == 0, depth) + pretty(v, depth + 1),
    ensures
        after == prefix + pretty_items(items.push(v), depth),
{
    lemma_items_push(items, v, depth);
    assert(after =~= prefix + pretty_items(items.push(v), depth));
}

/// A text that holds `open`, some lines, and then the closing bracket is
/// the whole non-empty array or object.
proof fn lemma_close_obj(prefix: Seq<char>, ms: Seq<(Seq<char>, Json)>, depth: nat, after: Seq<char>)
    requires
        ms.len() > 0,
        after == prefix + seq!['{'] + pretty_members(ms, depth) + closing(depth, '}'),
    ensures
        after == prefix + pretty(Json::Obj(ms), depth),
{
    assert(after =~= prefix + pretty(Json::Obj(ms), depth));
}

proof fn lemma_close_arr(prefix: Seq<char>, items: Seq<Json>, depth: nat, after: Seq<char>)
    requires
        items.len() > 0,
        after == prefix + seq!['['] + pretty_items(items, depth) + closing(depth, ']'),
    ensures
        after == prefix + pretty(Json::Arr(items), depth),
{
    assert(after =~= prefix + pretty(Json::Arr(items), depth));
}

/// A string value.
pub open spec fn opt_json(o: Option<Seq<char>>) -> Json {
    match o {
        Some(s) => Json::Str(s),
        None => Json::Null,
    }
}

/// An array of strings.
pub open spec fn strs_json(v: Seq<Seq<char>>) -> Json {
    Json::Arr(v.map_values(|s: Seq<char>| Json::Str(s)))
}

/// A member holding a string when one is present, else none.
pub open spec fn opt_member(k: Seq<char>, o: Option<Seq<char>>) -> Seq<(Seq<char>, Json)> {
    match o {
        Some(s) => seq![(k, Json::Str(s))],
        None => Seq::empty(),
    }
}

/// A facet feature in its stored form: its kind under `type`, and the one
/// field its kind uses.
pub open spec fn feature_json(f: FeatureModel) -> Json {
    let r = spec_raw_from_feature(f);
    Json::Obj(
        seq![("type"@, Json::Str(r.kind))] + opt_member("did"@, r.did) + opt_member("uri"@, r.uri) + opt_member(
            "tag"@,
            r.tag,
        ),
    )
}

/// A facet: its byte range and its features.
pub open spec fn facet_json(f: FacetModel) -> Json {
    Json::Obj(
        seq![
            ("index"@, Json::Obj(seq![("byteStart"@, Json::Num(f.index.byte_start as nat)), ("byteEnd"@, Json::Num(f.index.byte_end as nat))])),
            ("features"@, Json::Arr(f.features.map_values(|x: FeatureModel| feature_json(x)))),
        ],
    )
}

/// A post's author.
pub open spec fn author_json(a: AuthorModel) -> Json {
    Json::Obj(seq![("did"@, Json::Str(a.did)), ("handle"@, Json::Str(a.handle)), ("display_name"@, Json::Str(a.display_name))])
}

/// A post with every field, absent optional ones as `null`.
pub open spec fn post_json(p: PostModel) -> Json {
    Json::Obj(
        seq![
            ("uri"@, Json::Str(p.uri)),
            ("cid"@, Json::Str(p.cid)),
            ("author"@, author_json(p.author)),
            ("text"@, Json::Str(p.text)),
            ("created_at"@, Json::Str(p.created_at)),
            ("reply_parent"@, opt_json(p.reply_parent)),
            ("reply_root"@, opt_json(p.reply_root)),
            ("embed_type"@, opt_json(p.embed_type)),
            ("embed_uri"@, opt_json(p.embed_uri)),
            ("facets"@, Json::Arr(p.facets.map_values(|f: FacetModel| facet_json(f)))),
            ("labels"@, strs_json(p.labels)),
            ("langs"@, strs_json(p.langs)),
            ("like_count"@, Json::Num(p.like_count as nat)),
            ("reply_count"@, Json::Num(p.reply_count as nat)),
            ("repost_count"@, Json::Num(p.repost_count as nat)),
            ("quote_count"@, Json::Num(p.quote_count as nat)),
        ],
    )
}

/// Keyed posts as object members.
pub open spec fn posts_json(posts: Seq<(Seq<char>, PostModel)>) -> Seq<(Seq<char>, Json)> {
    posts.map_values(|e: (Seq<char>, PostModel)| (e.0, post_json(e.1)))
}

/// A thread: its root and its posts keyed by URI.
pub open spec fn thread_json(t: ThreadModel) -> Json {
    Json::Obj(seq![("root_uri"@, Json::Str(t.root_uri)), ("posts"@, Json::Obj(posts_json(t.posts)))])
}

/// Keyed threads as object members.
pub open spec fn threads_json(threads: Seq<(Seq<char>, ThreadModel)>) -> Seq<(Seq<char>, Json)> {
    threads.map_values(|e: (Seq<char>, ThreadModel)| (e.0, thread_json(e.1)))
}

/// A quote edge.
pub open spec fn edge_json(e: EdgeModel) -> Json {
    Json::Obj(
        seq![
            ("source"@, Json::Str(e.source)),
            ("target"@, Json::Str(e.target)),
            ("source_thread"@, Json::Str(e.source_thread)),
            ("target_thread"@, Json::Str(e.target_thread)),
        ],
    )
}

/// The counts and identity of a web, as its `meta` member holds them.
pub open spec fn meta_json(w: WebModel) -> Json {
    Json::Obj(
        seq![
            ("format_version"@, Json::Num(FORMAT_VERSION as nat)),
            ("root_uri"@, Json::Str(w.root_uri)),
            ("crawled_at"@, Json::Str(w.crawled_at)),
            ("node_count"@, Json::Num(w.index.len())),
            ("edge_count"@, Json::Num(saturated(count_replies(web_posts(w.threads)) + normalized(w.quote_edges, w.index).len()))),
            ("thread_count"@, Json::Num(w.threads.len())),
        ],
    )
}

/// The stored document of a web. Its edges are the normalized ones.
pub open spec fn web_json(w: WebModel) -> Json {
    Json::Obj(
        seq![
            ("meta"@, meta_json(w)),
            ("threads"@, Json::Obj(threads_json(w.threads))),
            ("quote_edges"@, Json::Arr(normalized(w.quote_edges, w.index).map_values(|e: EdgeModel| edge_json(e)))),
        ],
    )
}

/// The hexadecimal digit for `d`, which must be below sixteen.
fn hex_digit(d: u32) -> (c: char)
    requires
        d < 16,
    ensures
        c == hex_char(d as int),
{
    if d == 0 { '0' } else if d == 1 { '1' } else if d == 2 { '2' } else if d == 3 { '3' }
    else if d == 4 { '4' } else if d == 5 { '5' } else if d == 6 { '6' } else if d == 7 { '7' }
    else if d == 8 { '8' } else if d == 9 { '9' } else if d == 10 { 'a' } else if d == 11 { 'b' }
    else if d == 12 { 'c' } else if d == 13 { 'd' } else if d == 14 { 'e' } else { 'f' }
}

/// Appends one character as [`escape_char`] writes it.
fn write_char(out: &mut String, c: char)
    ensures
        final(out)@ == old(out)@ + escape_char(c),
{
    if c == '"' {
        out.append("\\\"");
    } else if c == '\\' {
        out.append("\\\\");
    } else if c == '\n' {
        out.append("\\n");
    } else if c == '\r' {
        out.append("\\r");
    } else if c == '\t' {
        out.append("\\t");
    } else if c == '\u{8}' {
        out.append("\\b");
    } else if c == '\u{c}' {
        out.append("\\f");
    } else if (c as u32) < 0x20 {
        let ghost before = out@;
        out.append("\\u00");
        let code = c as u32;
        push_char(out, hex_digit(code / 16));
        push_char(out, hex_digit(code % 16));
        assert(out@ =~= before + escape_char(c));
    } else {
        let ghost before = out@;
        push_char(out, c);
        assert(out@ =~= before + escape_char(c));
    }
}

/// Appends `s` as a JSON string literal.
pub fn write_string(out: &mut String, s: &str)
    ensures
        final(out)@ == old(out)@ + quoted(s@),
{
    let ghost start = out@;
    push_char(out, '"');
    let n = s.unicode_len();
    let mut i: usize = 0;
    while i < n
        invariant
            n == s@.len(),
            i <= n,
            out@ == start + seq!['"'] + escaped(s@.subrange(0, i as int)),
        decreases n - i,
    {
        let c = s.get_char(i);
        let ghost before = out@;
        write_char(out, c);
        proof {
            let t = s@.subrange(0, i + 1);
            assert(t.drop_last() =~= s@.subrange(0, i as int));
            assert(t.last() == c);
            assert(out@ =~= start + seq!['"'] + escaped(t));
        }
        i += 1;
    }
    let ghost body = out@;
    push_char(out, '"');
    proof {
        assert(s@.subrange(0, n as int) =~= s@);
        assert(out@ =~= start + quoted(s@));
    }
}

/// Appends the line start of an array item.
fn item(out: &mut String, depth: usize, first: bool)
    requires
        depth < usize::MAX,
    ensures
        final(out)@ == old(out)@ + item_head(first, depth as nat),
{
    let ghost start = out@;
    if !first {
        push_char(out, ',');
    }
    push_char(out, '\n');
    let ind = indent(depth + 1);
    out.append(ind.as_str());
    assert(out@ =~= start + item_head(first, depth as nat));
}

/// Appends the line start of an object member: the item head, the quoted
/// key and a colon.
fn member(out: &mut String, depth: usize, first: bool, key: &str)
    requires
        depth < usize::MAX,
    ensures
        final(out)@ == old(out)@ + member_head(first, key@, depth as nat),
{
    let ghost start = out@;
    item(out, depth, first);
    write_string(out, key);
    out.append(": ");
    assert(out@ =~= start + member_head(first, key@, depth as nat));
}

/// Closes an array or object opened at `depth` whose items started on lines
/// of their own.
fn close(out: &mut String, depth: usize, bracket: char)
    ensures
        final(out)@ == old(out)@ + closing(depth as nat, bracket),
{
    let ghost start = out@;
    push_char(out, '\n');
    let ind = indent(depth);
    out.append(ind.as_str());
    push_char(out, bracket);
    assert(out@ =~= start + closing(depth as nat, bracket));
}

/// Appends a number.
fn write_num(out: &mut String, n: u64)
    ensures
        final(out)@ == old(out)@ + pretty(Json::Num(n as nat), 0),
{
    let s = decimal(n);
    out.append(s.as_str());
}

/// Appends a string or `null`.
fn write_opt(out: &mut String, s: &Option<String>)
    ensures
        final(out)@ == old(out)@ + pretty(opt_json(crate::model::opt_view(*s)), 0),
{
    match s {
        Some(v) => write_string(out, v.as_str()),
        None => {
            out.append("null");
        },
    }
}

/// The text of a scalar does not depend on its indentation.
proof fn lemma_scalar_depth(v: Json, a: nat, b: nat)
    requires
        v is Null || v is Num || v is Str,
    ensures
        pretty(v, a) == pretty(v, b),
{
}

/// Appends an array of strings.
fn write_string_array(out: &mut String, depth: usize, items: &Vec<String>)
    requires
        depth < usize::MAX,
    ensures
        final(out)@ == old(out)@ + pretty(strs_json(items@.map_values(|s: String| s@)), depth as nat),
{
    let ghost start = out@;
    let ghost all = items@.map_values(|s: String| s@).map_values(|s: Seq<char>| Json::Str(s));
    if items.len() == 0 {
        out.append("[]");
        assert(all.len() == 0);
        return;
    }
    push_char(out, '[');
    let n = items.len();
    let mut i: usize = 0;
    while i < n
        invariant
            n == items@.len(),
            n > 0,
            i <= n,
            depth < usize::MAX,
            all == items@.map_values(|s: String| s@).map_values(|s: Seq<char>| Json::Str(s)),
            out@ == start + seq!['['] + pretty_items(all.subrange(0, i as int), depth as nat),
        decreases n - i,
    {
        let ghost before = out@;
        item(out, depth, i == 0);
        write_string(out, items[i].as_str());
        proof {
            assert(all.subrange(0, i + 1) =~= all.subrange(0, i as int).push(Json::Str(items@[i as int]@)));
            lemma_item_step(
                start + seq!['['],
                all.subrange(0, i as int),
                Json::Str(items@[i as int]@),
                depth as nat,
                before,
                out@,
            );
        }
        i += 1;
    }
    let ghost body = out@;
    close(out, depth, ']');
    proof {
        assert(all.subrange(0, n as int) =~= all);
        lemma_close_arr(start, all, depth as nat, out@);
    }
}

/// Appends one facet feature in its stored form.
fn write_feature(out: &mut String, depth: usize, feature: &FacetFeature)
    requires
        depth < usize::MAX,
    ensures
        final(out)@ == old(out)@ + pretty(feature_json(feature@), depth as nat),
{
    let ghost start = out@;
    let ghost d = depth as nat;
    let ghost m0 = Seq::<(Seq<char>, Json)>::empty();
    push_char(out, '{');
    let ghost b0 = out@;
    member(out, depth, true, "type");
    match feature {
        FacetFeature::Mention { did } => {
            write_string(out, "mention");
            let ghost m1 = m0.push(("type"@, Json::Str("mention"@)));
            proof {
                lemma_member_step(start + seq!['{'], m0, "type"@, Json::Str("mention"@), d, b0, out@);
            }
            let ghost b1 = out@;
            member(out, depth, false, "did");
            write_string(out, did.as_str());
            proof {
                lemma_member_step(start + seq!['{'], m1, "did"@, Json::Str(did@), d, b1, out@);
                reveal_strlit("mention");
                assert(m1.push(("did"@, Json::Str(did@))) =~= feature_json(feature@)->Obj_0);
            }
        },
        FacetFeature::Link { uri } => {
            write_string(out, "link");
            let ghost m1 = m0.push(("type"@, Json::Str("link"@)));
            proof {
                lemma_member_step(start + seq!['{'], m0, "type"@, Json::Str("link"@), d, b0, out@);
            }
            let ghost b1 = out@;
            member(out, depth, false, "uri");
            write_string(out, uri.as_str());
            proof {
                lemma_member_step(start + seq!['{'], m1, "uri"@, Json::Str(uri@), d, b1, out@);
                assert(m1.push(("uri"@, Json::Str(uri@))) =~= feature_json(feature@)->Obj_0);
            }
        },
        FacetFeature::Tag { tag } => {
            write_string(out, "tag");
            let ghost m1 = m0.push(("type"@, Json::Str("tag"@)));
            proof {
                lemma_member_step(start + seq!['{'], m0, "type"@, Json::Str("tag"@), d, b0, out@);
            }
            let ghost b1 = out@;
            member(out, depth, false, "tag");
            write_string(out, tag.as_str());
            proof {
                lemma_member_step(start + seq!['{'], m1, "tag"@, Json::Str(tag@), d, b1, out@);
                assert(m1.push(("tag"@, Json::Str(tag@))) =~= feature_json(feature@)->Obj_0);
            }
        },
        FacetFeature::Other { kind } => {
            write_string(out, kind.as_str());
            proof {
                lemma_member_step(start + seq!['{'], m0, "type"@, Json::Str(kind@), d, b0, out@);
                assert(m0.push(("type"@, Json::Str(kind@))) =~= feature_json(feature@)->Obj_0);
            }
        },
    }
    close(out, depth, '}');
    proof {
        lemma_close_obj(start, feature_json(feature@)->Obj_0, d, out@);
    }
}

/// Appends one facet: its byte range and its features.
fn write_facet(out: &mut String, depth: usize, facet: &Facet)
    requires
        depth < usize::MAX - 2,
    ensures
        final(out)@ == old(out)@ + pretty(facet_json(facet@), depth as nat),
{
    let ghost start = out@;
    let ghost d = depth as nat;
    let ghost fv = facet@;
    let ghost m0 = Seq::<(Seq<char>, Json)>::empty();
    push_char(out, '{');
    let ghost b0 = out@;
    member(out, depth, true, "index");
    let ghost s1 = out@;
    let ghost i0 = Seq::<(Seq<char>, Json)>::empty();
    push_char(out, '{');
    let ghost c0 = out@;
    member(out, depth + 1, true, "byteStart");
    write_num(out, facet.index.byte_start as u64);
    proof {
        lemma_scalar_depth(Json::Num(facet.index.byte_start as nat), 0, d + 2);
        lemma_member_step(s1 + seq!['{'], i0, "byteStart"@, Json::Num(facet.index.byte_start as nat), d + 1, c0, out@);
    }
    let ghost i1 = i0.push(("byteStart"@, Json::Num(facet.index.byte_start as nat)));
    let ghost c1 = out@;
    member(out, depth + 1, false, "byteEnd");
    write_num(out, facet.index.byte_end as u64);
    proof {
        lemma_scalar_depth(Json::Num(facet.index.byte_end as nat), 0, d + 2);
        lemma_member_step(s1 + seq!['{'], i1, "byteEnd"@, Json::Num(facet.index.byte_end as nat), d + 1, c1, out@);
    }
    let ghost i2 = i1.push(("byteEnd"@, Json::Num(facet.index.byte_end as nat)));
    close(out, depth + 1, '}');
    let ghost index_json = Json::Obj(i2);
    proof {
        lemma_close_obj(s1, i2, d + 1, out@);
        lemma_member_step(start + seq!['{'], m0, "index"@, index_json, d, b0, out@);
    }
    let ghost m1 = m0.push(("index"@, index_json));
    let ghost b1 = out@;
    member(out, depth, false, "features");
    let ghost s2 = out@;
    let ghost feats = facet@.features.map_values(|x: FeatureModel| feature_json(x));
    let n = facet.features.len();
    if n == 0 {
        out.append("[]");
        proof {
            assert(feats.len() == 0);
            assert(out@ == s2 + pretty(Json::Arr(feats), d + 1));
        }
    } else {
        push_char(out, '[');
        let mut i: usize = 0;
        while i < n
            invariant
                n == facet.features@.len(),
                n > 0,
                i <= n,
                depth < usize::MAX - 2,
                feats == facet@.features.map_values(|x: FeatureModel| feature_json(x)),
                fv == facet@,
                d == depth as nat,
                out@ == s2 + seq!['['] + pretty_items(feats.subrange(0, i as int), d + 1),
            decreases n - i,
        {
            let ghost before = out@;
            item(out, depth + 1, i == 0);
            write_feature(out, depth + 2, &facet.features[i]);
            proof {
                assert(feats.subrange(0, i + 1) =~= feats.subrange(0, i as int).push(feature_json(facet.features@[i as int]@)));
                lemma_item_step(s2 + seq!['['], feats.subrange(0, i as int), feature_json(facet.features@[i as int]@), d + 1, before, out@);
            }
            i += 1;
        }
        close(out, depth + 1, ']');
        proof {
            assert(feats.subrange(0, n as int) =~= feats);
            lemma_close_arr(s2, feats, d + 1, out@);
        }
    }
    proof {
        lemma_member_step(start + seq!['{'], m1, "features"@, Json::Arr(feats), d, b1, out@);
        assert(i2 =~= seq![("byteStart"@, Json::Num(fv.index.byte_start as nat)), ("byteEnd"@, Json::Num(fv.index.byte_end as nat))]);
        assert(m1.push(("features"@, Json::Arr(feats))) =~= facet_json(fv)->Obj_0);
    }
    close(out, depth, '}');
    proof {
        lemma_close_obj(start, facet_json(fv)->Obj_0, d, out@);
    }
}

/// Appends one quote edge.
fn write_edge(out: &mut String, depth: usize, edge: &QuoteEdge)
    requires
        depth < usize::MAX,
    ensures
        final(out)@ == old(out)@ + pretty(edge_json(edge@), depth as nat),
{
    let ghost start = out@;
    let ghost d = depth as nat;
    let ghost p = start + seq!['{'];
    let ghost m0 = Seq::<(Seq<char>, Json)>::empty();
    push_char(out, '{');
    let ghost b0 = out@;
    member(out, depth, true, "source");
    write_string(out, edge.source.as_str());
    proof { lemma_member_step(p, m0, "source"@, Json::Str(edge.source@), d, b0, out@); }
    let ghost m1 = m0.push(("source"@, Json::Str(edge.source@)));
    let ghost b1 = out@;
    member(out, depth, false, "target");
    write_string(out, edge.target.as_str());
    proof { lemma_member_step(p, m1, "target"@, Json::Str(edge.target@), d, b1, out@); }
    let ghost m2 = m1.push(("target"@, Json::Str(edge.target@)));
    let ghost b2 = out@;
    member(out, depth, false, "source_thread");
    write_string(out, edge.source_thread.as_str());
    proof { lemma_member_step(p, m2, "source_thread"@, Json::Str(edge.source_thread@), d, b2, out@); }
    let ghost m3 = m2.push(("source_thread"@, Json::Str(edge.source_thread@)));
    let ghost b3 = out@;
    member(out, depth, false, "target_thread");
    write_string(out, edge.target_thread.as_str());
    proof {
        lemma_member_step(p, m3, "target_thread"@, Json::Str(edge.target_thread@), d, b3, out@);
        assert(m3.push(("target_thread"@, Json::Str(edge.target_thread@))) =~= edge_json(edge@)->Obj_0);
    }
    close(out, depth, '}');
    proof {
        lemma_close_obj(start, edge_json(edge@)->Obj_0, d, out@);
    }
}

/// Appends a member holding a string.
fn str_member(
    out: &mut String,
    depth: usize,
    first: bool,
    key: &str,
    val: &str,
    Ghost(prefix): Ghost<Seq<char>>,
    Ghost(ms): Ghost<Seq<(Seq<char>, Json)>>,
)
    requires
        depth < usize::MAX,
        first == (ms.len() == 0),
        old(out)@ =~= prefix + pretty_members(ms, depth as nat),
    ensures
        final(out)@ == prefix + pretty_members(ms.push((key@, Json::Str(val@))), depth as nat),
{
    let ghost before = out@;
    member(out, depth, first, key);
    write_string(out, val);
    proof {
        lemma_member_step(prefix, ms, key@, Json::Str(val@), depth as nat, before, out@);
    }
}

/// Appends a member holding a string or `null`.
fn opt_member_of(
    out: &mut String,
    depth: usize,
    key: &str,
    val: &Option<String>,
    Ghost(prefix): Ghost<Seq<char>>,
    Ghost(ms): Ghost<Seq<(Seq<char>, Json)>>,
)
    requires
        depth < usize::MAX - 1,
        ms.len() > 0,
        old(out)@ =~= prefix + pretty_members(ms, depth as nat),
    ensures
        final(out)@ == prefix + pretty_members(
            ms.push((key@, opt_json(crate::model::opt_view(*val)))),
            depth as nat,
        ),
{
    let ghost before = out@;
    member(out, depth, false, key);
    write_opt(out, val);
    proof {
        lemma_scalar_depth(opt_json(crate::model::opt_view(*val)), 0, depth as nat + 1);
        lemma_member_step(prefix, ms, key@, opt_json(crate::model::opt_view(*val)), depth as nat, before, out@);
    }
}

/// Appends a member holding a count.
fn num_member(
    out: &mut String,
    depth: usize,
    key: &str,
    val: u64,
    Ghost(prefix): Ghost<Seq<char>>,
    Ghost(ms): Ghost<Seq<(Seq<char>, Json)>>,
)
    requires
        depth < usize::MAX - 1,
        ms.len() > 0,
        old(out)@ =~= prefix + pretty_members(ms, depth as nat),
    ensures
        final(out)@ == prefix + pretty_members(ms.push((key@, Json::Num(val as nat))), depth as nat),
{
    let ghost before = out@;
    member(out, depth, false, key);
    write_num(out, val);
    proof {
        lemma_scalar_depth(Json::Num(val as nat), 0, depth as nat + 1);
        lemma_member_step(prefix, ms, key@, Json::Num(val as nat), depth as nat, before, out@);
    }
}

/// Appends a member holding an array of strings.
fn strs_member(
    out: &mut String,
    depth: usize,
    key: &str,
    val: &Vec<String>,
    Ghost(prefix): Ghost<Seq<char>>,
    Ghost(ms): Ghost<Seq<(Seq<char>, Json)>>,
)
    requires
        depth < usize::MAX - 2,
        ms.len() > 0,
        old(out)@ =~= prefix + pretty_members(ms, depth as nat),
    ensures
        final(out)@ == prefix + pretty_members(
            ms.push((key@, strs_json(crate::model::strings_view(val@)))),
            depth as nat,
        ),
{
    let ghost before = out@;
    member(out, depth, false, key);
    write_string_array(out, depth + 1, val);
    proof {
        lemma_member_step(prefix, ms, key@, strs_json(crate::model::strings_view(val@)), depth as nat, before, out@);
    }
}

/// Appends a post's author.
fn write_author(out: &mut String, depth: usize, post: &Post)
    requires
        depth < usize::MAX - 1,
    ensures
        final(out)@ == old(out)@ + pretty(author_json(post.author@), depth as nat),
{
    let ghost start = out@;
    let ghost p = start + seq!['{'];
    let ghost m0 = Seq::<(Seq<char>, Json)>::empty();
    push_char(out, '{');
    str_member(out, depth, true, "did", post.author.did.as_str(), Ghost(p), Ghost(m0));
    let ghost m1 = m0.push(("did"@, Json::Str(post.author.did@)));
    str_member(out, depth, false, "handle", post.author.handle.as_str(), Ghost(p), Ghost(m1));
    let ghost m2 = m1.push(("handle"@, Json::Str(post.author.handle@)));
    str_member(out, depth, false, "display_name", post.author.display_name.as_str(), Ghost(p), Ghost(m2));
    let ghost m3 = m2.push(("display_name"@, Json::Str(post.author.display_name@)));
    close(out, depth, '}');
    proof {
        assert(m3 =~= author_json(post.author@)->Obj_0);
        lemma_close_obj(start, m3, depth as nat, out@);
    }
}

/// Appends the facets of a post as an array.
fn write_facets(out: &mut String, depth: usize, facets: &Vec<Facet>)
    requires
        depth < usize::MAX - 4,
    ensures
        final(out)@ == old(out)@ + pretty(
            Json::Arr(crate::model::facets_view(facets@).map_values(|f: FacetModel| facet_json(f))),
            depth as nat,
        ),
{
    let ghost start = out@;
    let ghost all = crate::model::facets_view(facets@).map_values(|f: FacetModel| facet_json(f));
    let n = facets.len();
    if n == 0 {
        out.append("[]");
        assert(all.len() == 0);
        return;
    }
    push_char(out, '[');
    let mut i: usize = 0;
    while i < n
        invariant
            n == facets@.len(),
            n > 0,
            i <= n,
            depth < usize::MAX - 4,
            all == crate::model::facets_view(facets@).map_values(|f: FacetModel| facet_json(f)),
            out@ == start + seq!['['] + pretty_items(all.subrange(0, i as int), depth as nat),
        decreases n - i,
    {
        let ghost before = out@;
        item(out, depth, i == 0);
        write_facet(out, depth + 1, &facets[i]);
        proof {
            assert(all.subrange(0, i + 1) =~= all.subrange(0, i as int).push(facet_json(facets@[i as int]@)));
            lemma_item_step(start + seq!['['], all.subrange(0, i as int), facet_json(facets@[i as int]@), depth as nat, before, out@);
        }
        i += 1;
    }
    close(out, depth, ']');
    proof {
        assert(all.subrange(0, n as int) =~= all);
        lemma_close_arr(start, all, depth as nat, out@);
    }
}

/// Appends one post with every field.
pub fn write_post(out: &mut String, depth: usize, post: &Post)
    requires
        depth < usize::MAX - 8,
    ensures
        final(out)@ == old(out)@ + pretty(post_json(post@), depth as nat),
{
    let ghost start = out@;
    let ghost d = depth as nat;
    let ghost p = start + seq!['{'];
    let ghost m0 = Seq::<(Seq<char>, Json)>::empty();
    push_char(out, '{');
    str_member(out, depth, true, "uri", post.uri.as_str(), Ghost(p), Ghost(m0));
    let ghost m1 = m0.push(("uri"@, Json::Str(post.uri@)));
    str_member(out, depth, false, "cid", post.cid.as_str(), Ghost(p), Ghost(m1));
    let ghost m2 = m1.push(("cid"@, Json::Str(post.cid@)));
    let ghost b2 = out@;
    member(out, depth, false, "author");
    write_author(out, depth + 1, post);
    proof {
        lemma_member_step(p, m2, "author"@, author_json(post.author@), d, b2, out@);
    }
    let ghost m3 = m2.push(("author"@, author_json(post.author@)));
    str_member(out, depth, false, "text", post.text.as_str(), Ghost(p), Ghost(m3));
    let ghost m4 = m3.push(("text"@, Json::Str(post.text@)));
    str_member(out, depth, false, "created_at", post.created_at.as_str(), Ghost(p), Ghost(m4));
    let ghost m5 = m4.push(("created_at"@, Json::Str(post.created_at@)));
    opt_member_of(out, depth, "reply_parent", &post.reply_parent, Ghost(p), Ghost(m5));
    let ghost m6 = m5.push(("reply_parent"@, opt_json(post@.reply_parent)));
    opt_member_of(out, depth, "reply_root", &post.reply_root, Ghost(p), Ghost(m6));
    let ghost m7 = m6.push(("reply_root"@, opt_json(post@.reply_root)));
    opt_member_of(out, depth, "embed_type", &post.embed_type, Ghost(p), Ghost(m7));
    let ghost m8 = m7.push(("embed_type"@, opt_json(post@.embed_type)));
    opt_member_of(out, depth, "embed_uri", &post.embed_uri, Ghost(p), Ghost(m8));
    let ghost m9 = m8.push(("embed_uri"@, opt_json(post@.embed_uri)));
    let ghost b9 = out@;
    let ghost facets = Json::Arr(post@.facets.map_values(|f: FacetModel| facet_json(f)));
    member(out, depth, false, "facets");
    write_facets(out, depth + 1, &post.facets);
    proof {
        lemma_member_step(p, m9, "facets"@, facets, d, b9, out@);
    }
    let ghost m10 = m9.push(("facets"@, facets));
    strs_member(out, depth, "labels", &post.labels, Ghost(p), Ghost(m10));
    let ghost m11 = m10.push(("labels"@, strs_json(post@.labels)));
    strs_member(out, depth, "langs", &post.langs, Ghost(p), Ghost(m11));
    let ghost m12 = m11.push(("langs"@, strs_json(post@.langs)));
    num_member(out, depth, "like_count", post.like_count as u64, Ghost(p), Ghost(m12));
    let ghost m13 = m12.push(("like_count"@, Json::Num(post.like_count as nat)));
    num_member(out, depth, "reply_count", post.reply_count as u64, Ghost(p), Ghost(m13));
    let ghost m14 = m13.push(("reply_count"@, Json::Num(post.reply_count as nat)));
    num_member(out, depth, "repost_count", post.repost_count as u64, Ghost(p), Ghost(m14));
    let ghost m15 = m14.push(("repost_count"@, Json::Num(post.repost_count as nat)));
    num_member(out, depth, "quote_count", post.quote_count as u64, Ghost(p), Ghost(m15));
    let ghost m16 = m15.push(("quote_count"@, Json::Num(post.quote_count as nat)));
    close(out, depth, '}');
    proof {
        assert(m16 =~= post_json(post@)->Obj_0);
        lemma_close_obj(start, m16, d, out@);
    }
}

/// Appends one thread: its root and its posts keyed by URI.
fn write_thread(out: &mut String, depth: usize, thread: &Thread)
    requires
        depth < usize::MAX - 12,
    ensures
        final(out)@ == old(out)@ + pretty(thread_json(thread@), depth as nat),
{
    let ghost start = out@;
    let ghost d = depth as nat;
    let ghost p = start + seq!['{'];
    let ghost m0 = Seq::<(Seq<char>, Json)>::empty();
    push_char(out, '{');
    str_member(out, depth, true, "root_uri", thread.root_uri.as_str(), Ghost(p), Ghost(m0));
    let ghost m1 = m0.push(("root_uri"@, Json::Str(thread.root_uri@)));
    let ghost b1 = out@;
    member(out, depth, false, "posts");
    let ghost s2 = out@;
    let ghost all = posts_json(thread@.posts);
    let n = post_map_len(&thread.posts);
    if n == 0 {
        out.append("{}");
        assert(all.len() == 0);
    } else {
        push_char(out, '{');
        let mut i: usize = 0;
        while i < n
            invariant
                n == post_entries(thread.posts).len(),
                n > 0,
                i <= n,
                depth < usize::MAX - 12,
                all == posts_json(thread@.posts),
                thread@.posts == post_entries(thread.posts),
                d == depth as nat,
                out@ == s2 + seq!['{'] + pretty_members(all.subrange(0, i as int), d + 1),
            decreases n - i,
        {
            let (key, post) = post_map_get_index(&thread.posts, i);
            let ghost before = out@;
            member(out, depth + 1, i == 0, key.as_str());
            write_post(out, depth + 2, post);
            proof {
                assert(all[i as int] == (key@, post_json(post@)));
                assert(all.subrange(0, i + 1) =~= all.subrange(0, i as int).push((key@, post_json(post@))));
                lemma_member_step(s2 + seq!['{'], all.subrange(0, i as int), key@, post_json(post@), d + 1, before, out@);
            }
            i += 1;
        }
        close(out, depth + 1, '}');
        proof {
            assert(all.subrange(0, n as int) =~= all);
            lemma_close_obj(s2, all, d + 1, out@);
        }
    }
    proof {
        lemma_member_step(p, m1, "posts"@, Json::Obj(all), d, b1, out@);
    }
    let ghost m2 = m1.push(("posts"@, Json::Obj(all)));
    close(out, depth, '}');
    proof {
        assert(m2 =~= thread_json(thread@)->Obj_0);
        lemma_close_obj(start, m2, d, out@);
    }
}

impl ContextWeb {
    /// Serializes the web as pretty-printed JSON in the storage format:
    /// `meta` (format version, root, crawl time, counts), `threads` keyed by
    /// root URI, and the normalized `quote_edges`. The web is not changed.
    pub fn to_json_pretty(&self) -> (r: String)
        ensures
            r@ == pretty(web_json(self@), 0),
    {
        let edges = self.normalized_quote_edges();
        let ghost w = self@;
        let ghost ev = normalized(w.quote_edges, w.index);
        let mut out = String::new();
        let ghost start = out@;
        let ghost p = start + seq!['{'];
        let ghost m0 = Seq::<(Seq<char>, Json)>::empty();
        push_char(&mut out, '{');
        let ghost b0 = out@;
        member(&mut out, 0, true, "meta");
        let ghost s1 = out@;
        let ghost q = s1 + seq!['{'];
        let ghost k0 = Seq::<(Seq<char>, Json)>::empty();
        push_char(&mut out, '{');
        let ghost c0 = out@;
        member(&mut out, 1, true, "format_version");
        write_num(&mut out, FORMAT_VERSION as u64);
        proof {
            lemma_scalar_depth(Json::Num(FORMAT_VERSION as nat), 0, 2);
            lemma_member_step(q, k0, "format_version"@, Json::Num(FORMAT_VERSION as nat), 1, c0, out@);
        }
        let ghost k1 = k0.push(("format_version"@, Json::Num(FORMAT_VERSION as nat)));
        str_member(&mut out, 1, false, "root_uri", self.root(), Ghost(q), Ghost(k1));
        let ghost k2 = k1.push(("root_uri"@, Json::Str(w.root_uri)));
        str_member(&mut out, 1, false, "crawled_at", self.crawl_time(), Ghost(q), Ghost(k2));
        let ghost k3 = k2.push(("crawled_at"@, Json::Str(w.crawled_at)));
        num_member(&mut out, 1, "node_count", self.node_count() as u64, Ghost(q), Ghost(k3));
        let ghost k4 = k3.push(("node_count"@, Json::Num(w.index.len())));
        let ec = self.reply_edge_count().saturating_add(edges.len());
        proof {
            assert(edges_view(edges@).len() == edges@.len());
        }
        num_member(&mut out, 1, "edge_count", ec as u64, Ghost(q), Ghost(k4));
        let ghost k5 = k4.push(("edge_count"@, Json::Num(saturated(count_replies(web_posts(w.threads)) + ev.len()))));
        num_member(&mut out, 1, "thread_count", self.thread_count() as u64, Ghost(q), Ghost(k5));
        let ghost k6 = k5.push(("thread_count"@, Json::Num(w.threads.len())));
        close(&mut out, 1, '}');
        proof {
            assert(k6 =~= meta_json(w)->Obj_0);
            lemma_close_obj(s1, k6, 1, out@);
            lemma_member_step(p, m0, "meta"@, meta_json(w), 0, b0, out@);
        }
        let ghost m1 = m0.push(("meta"@, meta_json(w)));
        let ghost b1 = out@;
        member(&mut out, 0, false, "threads");
        let ghost s2 = out@;
        let threads = self.threads();
        let ghost all = threads_json(w.threads);
        let n = thread_map_len(threads);
        if n == 0 {
            out.append("{}");
            assert(all.len() == 0);
        } else {
            push_char(&mut out, '{');
            let mut i: usize = 0;
            while i < n
                invariant
                    n == thread_entries(*threads).len(),
                    thread_entries(*threads) == w.threads,
                    n > 0,
                    i <= n,
                    all == threads_json(w.threads),
                    out@ == s2 + seq!['{'] + pretty_members(all.subrange(0, i as int), 1),
                decreases n - i,
            {
                let (key, thread) = thread_map_get_index(threads, i);
                let ghost before = out@;
                member(&mut out, 1, i == 0, key.as_str());
                write_thread(&mut out, 2, thread);
                proof {
                    assert(all[i as int] == (key@, thread_json(thread@)));
                    assert(all.subrange(0, i + 1) =~= all.subrange(0, i as int).push((key@, thread_json(thread@))));
                    lemma_member_step(s2 + seq!['{'], all.subrange(0, i as int), key@, thread_json(thread@), 1, before, out@);
                }
                i += 1;
            }
            close(&mut out, 1, '}');
            proof {
                assert(all.subrange(0, n as int) =~= all);
                lemma_close_obj(s2, all, 1, out@);
            }
        }
        proof {
            lemma_member_step(p, m1, "threads"@, Json::Obj(all), 0, b1, out@);
        }
        let ghost m2 = m1.push(("threads"@, Json::Obj(all)));
        let ghost b2 = out@;
        member(&mut out, 0, false, "quote_edges");
        let ghost s3 = out@;
        let ghost items = ev.map_values(|e: EdgeModel| edge_json(e));
        let ne = edges.len();
        if ne == 0 {
            out.append("[]");
            assert(items.len() == 0);
        } else {
            push_char(&mut out, '[');
            let mut j: usize = 0;
            while j < ne
                invariant
                    ne == edges@.len(),
                    edges_view(edges@) == ev,
                    ne > 0,
                    j <= ne,
                    items == ev.map_values(|e: EdgeModel| edge_json(e)),
                    out@ == s3 + seq!['['] + pretty_items(items.subrange(0, j as int), 1),
                decreases ne - j,
            {
                let ghost before = out@;
                item(&mut out, 1, j == 0);
                write_edge(&mut out, 2, &edges[j]);
                proof {
                    assert(ev[j as int] == edges@[j as int]@);
                    assert(items.subrange(0, j + 1) =~= items.subrange(0, j as int).push(edge_json(edges@[j as int]@)));
                    lemma_item_step(s3 + seq!['['], items.subrange(0, j as int), edge_json(edges@[j as int]@), 1, before, out@);
                }
                j += 1;
            }
            close(&mut out, 1, ']');
            proof {
                assert(items.subrange(0, ne as int) =~= items);
                lemma_close_arr(s3, items, 1, out@);
            }
        }
        proof {
            lemma_member_step(p, m2, "quote_edges"@, Json::Arr(items), 0, b2, out@);
        }
        let ghost m3 = m2.push(("quote_edges"@, Json::Arr(items)));
        close(&mut out, 0, '}');
        proof {
            assert(m3 =~= web_json(w)->Obj_0);
            lemma_close_obj(start, m3, 0, out@);
            assert(start =~= Seq::<char>::empty());
            assert(out@ =~= pretty(web_json(w), 0));
        }
        out
    }
}

} // verus!
