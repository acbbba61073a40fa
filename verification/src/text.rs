//! Text formatting shared by the lenses: timestamps, names, truncation,
//! digit grouping and line splitting.
use vstd::prelude::*;
use vstd::string::*;

use crate::model::{AuthorModel, Post, PostModel};
use crate::strings::{
    concat2, decimal, push_char, spec_decimal, split_char, split_seq, trim, trimmed,
    lemma_split_nonempty,
};

verus! {

/// `YYYY-MM-DD HH:MM` from an ISO timestamp; `?` when empty.
pub open spec fn spec_short_time(iso: Seq<char>) -> Seq<char> {
    if iso.len() == 0 {
        "?"@
    } else {
        let r = crate::strings::replace_char(iso, 'T', ' ');
        if r.len() <= 16 {
            r
        } else {
            r.take(16)
        }
    }
}

/// Shortens an ISO timestamp to `YYYY-MM-DD HH:MM`; `?` when empty.
pub fn short_time(iso: &str) -> (r: String)
    ensures
        r@ == spec_short_time(iso@),
{
    let n = iso.unicode_len();
    if n == 0 {
        return String::from_str("?");
    }
    let m = if n < 16 {
        n
    } else {
        16
    };
    let mut out = String::new();
    let mut i: usize = 0;
    while i < m
        invariant
            n == iso@.len(),
            m <= n,
            m == if n < 16 { n } else { 16 },
            i <= m,
            out@ == crate::strings::replace_char(iso@, 'T', ' ').take(i as int),
        decreases m - i,
    {
        let c = iso.get_char(i);
        let d = if c == 'T' {
            ' '
        } else {
            c
        };
        push_char(&mut out, d);
        proof {
            let r = crate::strings::replace_char(iso@, 'T', ' ');
            assert(r.take(i + 1) =~= r.take(i as int).push(d));
        }
        i += 1;
    }
    proof {
        let r = crate::strings::replace_char(iso@, 'T', ' ');
        if n <= 16 {
            assert(r.take(m as int) =~= r);
        }
    }
    out
}

/// `Display Name (@handle)`, or `@handle` when there is no display name.
pub open spec fn spec_author_name(a: AuthorModel) -> Seq<char> {
    if a.display_name.len() == 0 {
        "@"@ + a.handle
    } else {
        a.display_name + " (@"@ + a.handle + ")"@
    }
}

/// Formats an author as `Display Name (@handle)` or `@handle`.
pub fn author_name(post: &Post) -> (r: String)
    ensures
        r@ == spec_author_name(post@.author),
{
    let handle = post.author.handle.as_str();
    let display_name = post.author.display_name.as_str();
    if display_name.unicode_len() == 0 {
        concat2("@", handle)
    } else {
        let mut s = String::from_str(display_name);
        s.append(" (@");
        s.append(handle);
        s.append(")");
        s
    }
}

/// Newlines collapsed to spaces, trimmed, and cut to `max_len` characters
/// with an ellipsis.
pub open spec fn spec_truncate(text: Seq<char>, max_len: nat) -> Seq<char> {
    let t = trimmed(crate::strings::replace_char(text, '\n', ' '));
    if t.len() <= max_len {
        t
    } else {
        let keep: nat = if max_len >= 3 { (max_len - 3) as nat } else { 0 };
        t.take(keep as int) + "..."@
    }
}

/// Replaces every newline with a space.
fn newlines_to_spaces(text: &str) -> (r: String)
    ensures
        r@ == crate::strings::replace_char(text@, '\n', ' '),
{
    let n = text.unicode_len();
    let mut out = String::new();
    let mut i: usize = 0;
    while i < n
        invariant
            n == text@.len(),
            i <= n,
            out@ == crate::strings::replace_char(text@, '\n', ' ').take(i as int),
        decreases n - i,
    {
        let c = text.get_char(i);
        let d = if c == '\n' {
            ' '
        } else {
            c
        };
        push_char(&mut out, d);
        proof {
            let r = crate::strings::replace_char(text@, '\n', ' ');
            assert(r.take(i + 1) =~= r.take(i as int).push(d));
        }
        i += 1;
    }
    proof {
        assert(crate::strings::replace_char(text@, '\n', ' ').take(n as int) =~= crate::strings::replace_char(text@, '\n', ' '));
    }
    out
}

/// Collapses newlines and truncates to `max_len` characters with an ellipsis.
pub fn truncate(text: &str, max_len: usize) -> (r: String)
    ensures
        r@ == spec_truncate(text@, max_len as nat),
{
    let spaced = newlines_to_spaces(text);
    let t = trim(spaced.as_str());
    let n = t.unicode_len();
    if n <= max_len {
        return String::from_str(t);
    }
    let keep = if max_len >= 3 {
        max_len - 3
    } else {
        0
    };
    let head = t.substring_char(0, keep);
    let r = concat2(head, "...");
    assert(head@ =~= t@.take(keep as int));
    r
}

/// The decimal text of `n` with `,` between groups of three digits: the
/// first `p` characters of the digits, each preceded by a comma when a
/// multiple of three digits remain from it.
pub open spec fn grouped(d: Seq<char>, p: nat) -> Seq<char>
    decreases p,
{
    if p == 0 || p > d.len() {
        Seq::<char>::empty()
    } else {
        let q = (p - 1) as nat;
        grouped(d, q) + (if q > 0 && (d.len() - q) % 3 == 0 {
            ","@
        } else {
            Seq::<char>::empty()
        }) + seq![d[q as int]]
    }
}

/// An integer with `,` between groups of three digits.
pub open spec fn spec_thousands(n: nat) -> Seq<char> {
    grouped(spec_decimal(n), spec_decimal(n).len())
}

/// Digits without a comma: three or fewer digits are never grouped.
proof fn lemma_grouped_short(d: Seq<char>, p: nat)
    requires
        d.len() <= 3,
        p <= d.len(),
    ensures
        grouped(d, p) == d.take(p as int),
    decreases p,
{
    if p > 0 {
        lemma_grouped_short(d, (p - 1) as nat);
        assert(d.take(p as int) =~= d.take(p - 1).push(d[p - 1]));
    }
}

/// Grouping reads only how many digits remain, so digits followed by three
/// more are grouped as they are alone.
proof fn lemma_grouped_prefix(d: Seq<char>, d1: Seq<char>, q: nat)
    requires
        d.len() == d1.len() + 3,
        d.take(d1.len() as int) == d1,
        q <= d1.len(),
    ensures
        grouped(d, q) == grouped(d1, q),
    decreases q,
{
    if q > 0 {
        lemma_grouped_prefix(d, d1, (q - 1) as nat);
        assert(d[q - 1] == d.take(d1.len() as int)[q - 1]);
    }
}

/// Thousands grouping puts a comma before each group of three digits
/// counted from the right: a number below a thousand is its plain digits,
/// and a larger one is its thousands grouped, a comma, and its last three
/// digits.
pub proof fn lemma_thousands_groups(n: nat)
    ensures
        n < 1000 ==> spec_thousands(n) == spec_decimal(n),
        n >= 1000 ==> spec_thousands(n) == spec_thousands(n / 1000) + ","@ + spec_decimal(n).skip(
            spec_decimal(n).len() - 3,
        ),
{
    let d = spec_decimal(n);
    if n < 1000 {
        if n >= 100 {
            assert(n / 10 / 10 < 10);
            assert(spec_decimal(n / 10 / 10).len() == 1);
            assert(spec_decimal(n / 10).len() == 2);
        } else if n >= 10 {
            assert(spec_decimal(n / 10).len() == 1);
        }
        assert(d.len() <= 3);
        lemma_grouped_short(d, d.len());
        assert(d.take(d.len() as int) =~= d);
    } else {
        let d1 = spec_decimal(n / 1000);
        crate::strings::lemma_decimal_reads_back(n / 1000);
        assert(n / 10 / 10 == n / 100);
        assert(n / 100 / 10 == n / 1000);
        let a = spec_decimal(n / 100);
        let b = spec_decimal(n / 10);
        assert(a == d1.push(crate::strings::digit_char((n / 100) % 10)));
        assert(b == a.push(crate::strings::digit_char((n / 10) % 10)));
        assert(d == b.push(crate::strings::digit_char(n % 10)));
        let l = d1.len();
        assert(d.len() == l + 3);
        assert(d.take(l as int) =~= d1);
        lemma_grouped_prefix(d, d1, l);
        assert(grouped(d, l + 1) == grouped(d, l) + ","@ + seq![d[l as int]]);
        assert(grouped(d, l + 2) == grouped(d, l + 1) + Seq::<char>::empty() + seq![d[l as int + 1]]);
        assert(grouped(d, l + 3) == grouped(d, l + 2) + Seq::<char>::empty() + seq![d[l as int + 2]]);
        assert(d.skip(l as int) =~= seq![d[l as int], d[l as int + 1], d[l as int + 2]]);
        assert(grouped(d, d.len()) =~= grouped(d1, l) + ","@ + d.skip(l as int));
    }
}

/// A truncated preview never runs past its limit (three characters at
/// least, for the ellipsis), holds no newline, and is the whole trimmed
/// text when that fits, else a prefix of it followed by `...`.
pub proof fn lemma_truncate_fits(text: Seq<char>, max_len: nat)
    ensures
        ({
            let t = trimmed(crate::strings::replace_char(text, '\n', ' '));
            let r = spec_truncate(text, max_len);
            &&& r.len() <= if max_len >= 3 { max_len } else { 3 }
            &&& t.len() <= max_len ==> r == t
            &&& t.len() > max_len ==> r.len() >= 3 && r.skip(r.len() - 3) == "..."@ && t.take(r.len() - 3)
                == r.take(r.len() - 3)
        }),
{
    let t = trimmed(crate::strings::replace_char(text, '\n', ' '));
    let r = spec_truncate(text, max_len);
    reveal_strlit("...");
    if t.len() > max_len {
        let keep: nat = if max_len >= 3 { (max_len - 3) as nat } else { 0 };
        assert(r == t.take(keep as int) + "..."@);
        assert(r.skip(r.len() - 3) =~= "..."@);
        assert(r.take(r.len() - 3) =~= t.take(keep as int));
    }
}

/// A short timestamp is at most sixteen characters, `YYYY-MM-DD HH:MM`,
/// with the `T` between date and time turned into a space; `?` when there
/// is no timestamp.
pub proof fn lemma_short_time_fits(iso: Seq<char>)
    ensures
        iso.len() == 0 ==> spec_short_time(iso) == "?"@,
        iso.len() > 0 ==> {
            &&& spec_short_time(iso).len() == if iso.len() <= 16 { iso.len() } else { 16 }
            &&& forall|i: int|
                0 <= i < spec_short_time(iso).len() ==> #[trigger] spec_short_time(iso)[i] == if iso[i] == 'T' {
                    ' '
                } else {
                    iso[i]
                }
        },
{
}

/// Formats a 64-bit integer with `,` between groups of three digits.
pub fn thousands_u64(value: u64) -> (r: String)
    ensures
        r@ == spec_thousands(value as nat),
{
    let digits = decimal(value);
    let n = digits.unicode_len();
    let mut out = String::new();
    let mut p: usize = 0;
    while p < n
        invariant
            n == digits@.len(),
            digits@ == spec_decimal(value as nat),
            p <= n,
            out@ == grouped(digits@, p as nat),
        decreases n - p,
    {
        if p > 0 && (n - p) % 3 == 0 {
            push_char(&mut out, ',');
        }
        push_char(&mut out, digits.get_char(p));
        proof {
            let q = p as nat;
            assert(grouped(digits@, q + 1) == grouped(digits@, q) + (if q > 0 && (digits@.len() - q) % 3 == 0 {
                ","@
            } else {
                Seq::<char>::empty()
            }) + seq![digits@[q as int]]);
            reveal_strlit(",");
            if p > 0 && (n - p) % 3 == 0 {
                assert(out@ =~= grouped(digits@, q + 1));
            } else {
                assert(out@ =~= grouped(digits@, q + 1));
            }
        }
        p += 1;
    }
    out
}

/// Formats an integer with `,` between groups of three digits.
pub fn thousands(value: usize) -> (r: String)
    ensures
        r@ == spec_thousands(value as nat),
{
    thousands_u64(value as u64)
}

/// `"{n} {word}"`: the singular word for exactly one, the plural otherwise.
pub open spec fn spec_counted(n: nat, singular: Seq<char>, plural: Seq<char>) -> Seq<char> {
    spec_decimal(n) + " "@ + if n == 1 {
        singular
    } else {
        plural
    }
}

/// Formats a count with the matching singular or plural noun.
pub fn counted(n: u64, singular: &str, plural: &str) -> (r: String)
    ensures
        r@ == spec_counted(n as nat, singular@, plural@),
{
    let mut s = decimal(n);
    s.append(" ");
    if n == 1 {
        s.append(singular);
    } else {
        s.append(plural);
    }
    s
}

/// A trailing carriage return removed.
pub open spec fn strip_cr(s: Seq<char>) -> Seq<char> {
    if s.len() > 0 && s.last() == '\r' {
        s.drop_last()
    } else {
        s
    }
}

/// `str::lines`: split at `\n`, a `\r` before each `\n` dropped, and no
/// empty final line.
pub open spec fn spec_lines(s: Seq<char>) -> Seq<Seq<char>> {
    let p = split_seq(s, '\n');
    let body = p.drop_last().map_values(|x: Seq<char>| strip_cr(x));
    if p.last().len() == 0 {
        body
    } else {
        body.push(p.last())
    }
}

/// Splits text into lines as `str::lines` does.
pub fn text_lines(s: &str) -> (r: Vec<String>)
    ensures
        r@.len() == spec_lines(s@).len(),
        forall|i: int| 0 <= i < r@.len() ==> #[trigger] r@[i]@ == spec_lines(s@)[i],
{
    let parts = split_char(s, '\n');
    proof {
        lemma_split_nonempty(s@, '\n');
    }
    let n = parts.len();
    let ghost p = split_seq(s@, '\n');
    let mut out: Vec<String> = Vec::new();
    let mut i: usize = 0;
    while i + 1 < n
        invariant
            n == p.len(),
            n >= 1,
            parts@.len() == n,
            forall|k: int| 0 <= k < n ==> #[trigger] parts@[k]@ == p[k],
            i + 1 <= n,
            out@.len() == i,
            forall|k: int| 0 <= k < i ==> #[trigger] out@[k]@ == strip_cr(p[k]),
        decreases n - i,
    {
        let piece = parts[i].as_str();
        let m = piece.unicode_len();
        if m > 0 && piece.get_char(m - 1) == '\r' {
            let t = piece.substring_char(0, m - 1);
            assert(t@ =~= p[i as int].drop_last());
            out.push(String::from_str(t));
        } else {
            out.push(String::from_str(piece));
        }
        i += 1;
    }
    let last = parts[n - 1].as_str();
    if last.unicode_len() > 0 {
        out.push(String::from_str(last));
    }
    proof {
        let body = p.drop_last().map_values(|x: Seq<char>| strip_cr(x));
        assert(body.len() == n - 1);
        assert forall|k: int| 0 <= k < n - 1 implies #[trigger] body[k] == strip_cr(p[k]) by {}
    }
    out
}

/// Splits text at every `\n`, keeping empty pieces.
pub fn split_lines(s: &str) -> (r: Vec<String>)
    ensures
        r@.len() == split_seq(s@, '\n').len(),
        forall|i: int| 0 <= i < r@.len() ==> #[trigger] r@[i]@ == split_seq(s@, '\n')[i],
{
    split_char(s, '\n')
}

/// Concatenates `parts` with `sep` between them.
pub fn join_strings(parts: &Vec<String>, sep: &str) -> (r: String)
    ensures
        r@ == crate::strings::join(parts@.map_values(|s: String| s@), sep@),
{
    let ghost pv = parts@.map_values(|s: String| s@);
    let mut out = String::new();
    let n = parts.len();
    let mut i: usize = 0;
    while i < n
        invariant
            n == parts@.len(),
            pv == parts@.map_values(|s: String| s@),
            i <= n,
            out@ == crate::strings::join(pv.take(i as int), sep@),
        decreases n - i,
    {
        proof {
            assert(pv.take(i + 1).drop_last() =~= pv.take(i as int));
            assert(pv.take(i + 1).last() == parts@[i as int]@);
            if i == 0 {
                assert(pv.take(1) =~= seq![parts@[0]@]);
            }
        }
        if i > 0 {
            out.append(sep);
        }
        out.append(parts[i].as_str());
        proof {
            if i == 0 {
                assert(out@ =~= crate::strings::join(pv.take(1), sep@));
            }
        }
        i += 1;
    }
    proof {
        assert(pv.take(n as int) =~= pv);
    }
    out
}

} // verus!
