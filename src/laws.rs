//! Properties of the grammar that relate its rules to the texts they read.
use vstd::prelude::*;
use crate::error::{ErrorKind, Token};
use crate::labels::{
    close_failure, keys_unique, label_items, pairs_map, spec_labels, spec_pair, LabelModel,
};
use crate::lex::{
    char_at, is_identifier, is_name_char, is_name_start, is_space, lemma_name_end_bounds,
    lemma_space_end_bounds, name_end, rest_of, space_end, spec_name, Step,
};
use crate::line::{spec_header, spec_line, spec_metric, LineModel};
use crate::quoted::{body_end, body_text, escape_at, is_plain, spec_quoted, unescape};

verus! {

/// Positions `i..e` of `s` hold spaces and tabs, and `e` does not.
proof fn lemma_space_run(s: Seq<char>, i: int, e: int)
    requires
        0 <= i <= e <= s.len(),
        forall|k: int| i <= k < e ==> #[trigger] is_space(s[k]),
        e == s.len() || !is_space(s[e]),
    ensures
        space_end(s, i) == e,
    decreases e - i,
{
    if i < e {
        lemma_space_run(s, i + 1, e);
    }
}

/// Positions `i..e` of `s` hold identifier characters, and `e` does not.
proof fn lemma_name_run(s: Seq<char>, i: int, e: int)
    requires
        0 <= i <= e <= s.len(),
        forall|k: int| i <= k < e ==> #[trigger] is_name_char(s[k]),
        e == s.len() || !is_name_char(s[e]),
    ensures
        name_end(s, i) == e,
    decreases e - i,
{
    if i < e {
        lemma_name_run(s, i + 1, e);
    }
}

/// The name lexer, after any run of spaces and tabs, consumes exactly a
/// whole identifier and leaves what follows it untouched.
pub proof fn law_name_takes_identifier(w: Seq<char>, n: Seq<char>, r: Seq<char>)
    requires
        forall|k: int| 0 <= k < w.len() ==> #[trigger] is_space(w[k]),
        is_identifier(n),
        r.len() == 0 || !is_name_char(r[0]),
    ensures
        spec_name(w + n + r, 0) == Step::Parsed(w.len() + n.len() as int, n),
        rest_of(w + n + r, w.len() + n.len() as int) == r,
{
    let s = w + n + r;
    let a = w.len() as int;
    let e = a + n.len();
    assert forall|k: int| 0 <= k < a implies #[trigger] is_space(s[k]) by {
        assert(s[k] == w[k]);
    }
    assert(s[a] == n[0]);
    lemma_space_run(s, 0, a);
    assert forall|k: int| a + 1 <= k < e implies #[trigger] is_name_char(s[k]) by {
        assert(s[k] == n[k - a]);
    }
    if r.len() > 0 {
        assert(s[e] == r[0]);
    }
    lemma_name_run(s, a + 1, e);
    assert(s.subrange(a, e) =~= n);
    assert(rest_of(s, e) =~= r);
}

/// A quoted string whose body is `body`.
pub open spec fn quote(body: Seq<char>) -> Seq<char> {
    seq!['"'] + body + seq!['"']
}

/// The body of a quoted string from `k` on is the plain text `u`, followed
/// by a quote.
proof fn lemma_plain_body(s: Seq<char>, k: int, u: Seq<char>)
    requires
        0 <= k,
        k + u.len() < s.len(),
        s.subrange(k, k + u.len()) == u,
        forall|t: int| 0 <= t < u.len() ==> #[trigger] is_plain(u[t]),
        s[k + u.len()] == '"',
    ensures
        body_end(s, k) == k + u.len(),
        body_text(s, k) == u,
    decreases u.len(),
{
    if u.len() > 0 {
        assert(s[k] == s.subrange(k, k + u.len())[0]);
        let tail = u.drop_first();
        assert(s.subrange(k + 1, k + 1 + tail.len()) =~= tail) by {
            assert forall|t: int| 0 <= t < tail.len() implies s.subrange(
                k + 1,
                k + 1 + tail.len(),
            )[t] == tail[t] by {
                assert(s[k + 1 + t] == s.subrange(k, k + u.len())[t + 1]);
            }
        }
        assert forall|t: int| 0 <= t < tail.len() implies #[trigger] is_plain(tail[t]) by {
            assert(tail[t] == u[t + 1]);
        }
        lemma_plain_body(s, k + 1, tail);
        assert(body_text(s, k) =~= seq![u[0]] + tail);
        assert(seq![u[0]] + tail =~= u);
    }
}

/// A string without quotes or backslashes, quoted as it is, reads back
/// unchanged, and what follows the closing quote is left untouched.
pub proof fn law_plain_string_round_trip(u: Seq<char>, r: Seq<char>)
    requires
        forall|k: int| 0 <= k < u.len() ==> #[trigger] is_plain(u[k]),
    ensures
        spec_quoted(quote(u) + r, 0) == Step::Parsed(u.len() + 2int, u),
        rest_of(quote(u) + r, u.len() + 2int) == r,
{
    let s = quote(u) + r;
    assert(s[0] == '"');
    assert(space_end(s, 0) == 0);
    assert(s.subrange(1, 1 + u.len() as int) =~= u);
    assert(s[1 + u.len() as int] == '"');
    lemma_plain_body(s, 1, u);
    assert(rest_of(s, u.len() + 2int) =~= r);
}

/// How a character is written inside a quoted string.
pub open spec fn escape_of(c: char) -> Seq<char> {
    if c == '\\' {
        seq!['\\', '\\']
    } else if c == '"' {
        seq!['\\', '"']
    } else if c == '\n' {
        seq!['\\', 'n']
    } else {
        seq![c]
    }
}

/// How a text is written inside a quoted string: backslash, quote and line
/// feed escaped, every other character as it is.
pub open spec fn encode(u: Seq<char>) -> Seq<char>
    decreases u.len(),
{
    if u.len() == 0 {
        Seq::empty()
    } else {
        escape_of(u[0]) + encode(u.drop_first())
    }
}

/// The body of a quoted string from `k` on is the encoding of `u`, followed
/// by a quote.
proof fn lemma_encoded_body(s: Seq<char>, k: int, u: Seq<char>)
    requires
        0 <= k,
        k + encode(u).len() < s.len(),
        s.subrange(k, k + encode(u).len()) == encode(u),
        s[k + encode(u).len()] == '"',
    ensures
        body_end(s, k) == k + encode(u).len(),
        body_text(s, k) == u,
    decreases u.len(),
{
    let enc = encode(u);
    if u.len() > 0 {
        let c = u[0];
        let tail = u.drop_first();
        let head = escape_of(c);
        let m = head.len() as int;
        assert(enc == head + encode(tail));
        assert forall|t: int| 0 <= t < enc.len() implies s[k + t] == #[trigger] enc[t] by {
            assert(s.subrange(k, k + enc.len())[t] == s[k + t]);
        }
        assert(s.subrange(k + m, k + m + encode(tail).len()) =~= encode(tail)) by {
            assert forall|t: int| 0 <= t < encode(tail).len() implies s.subrange(
                k + m,
                k + m + encode(tail).len(),
            )[t] == encode(tail)[t] by {
                assert(enc[m + t] == encode(tail)[t]);
            }
        }
        assert(s[k] == enc[0]);
        if m == 2 {
            assert(s[k + 1] == enc[1]);
            assert(escape_at(s, k));
            assert(unescape(s[k + 1]) == Some(c));
        } else {
            assert(is_plain(s[k]));
        }
        lemma_encoded_body(s, k + m, tail);
        assert(body_text(s, k) =~= seq![c] + tail);
        assert(seq![c] + tail =~= u);
    }
}

/// Any text, written with its backslashes, quotes and line feeds escaped,
/// reads back exactly: each escape decodes to its character in place among
/// the literal runs around it.
pub proof fn law_escaped_string_round_trip(u: Seq<char>, r: Seq<char>)
    ensures
        spec_quoted(quote(encode(u)) + r, 0) == Step::Parsed(encode(u).len() + 2int, u),
        rest_of(quote(encode(u)) + r, encode(u).len() + 2int) == r,
{
    let enc = encode(u);
    let s = quote(enc) + r;
    assert(s[0] == '"');
    assert(space_end(s, 0) == 0);
    assert(s.subrange(1, 1 + enc.len() as int) =~= enc);
    assert(s[1 + enc.len() as int] == '"');
    lemma_encoded_body(s, 1, u);
    assert(rest_of(s, enc.len() + 2int) =~= r);
}

/// A label pair as written: `name="value"`, with the value encoded.
pub open spec fn pair_text(p: LabelModel) -> Seq<char> {
    p.0 + seq!['='] + quote(encode(p.1))
}

/// Label pairs as written, separated by single commas.
pub open spec fn pairs_text(ps: Seq<LabelModel>) -> Seq<char>
    decreases ps.len(),
{
    if ps.len() == 0 {
        Seq::empty()
    } else if ps.len() == 1 {
        pair_text(ps[0])
    } else {
        pair_text(ps[0]) + seq![','] + pairs_text(ps.drop_first())
    }
}

/// Every pair of the list has an identifier as its name.
pub open spec fn names_valid(ps: Seq<LabelModel>) -> bool {
    forall|i: int| 0 <= i < ps.len() ==> is_identifier(#[trigger] ps[i].0)
}

/// The mapping `m` with the pairs of `ps` added from first to last.
pub open spec fn insert_all(m: Map<Seq<char>, Seq<char>>, ps: Seq<LabelModel>) -> Map<
    Seq<char>,
    Seq<char>,
>
    decreases ps.len(),
{
    if ps.len() == 0 {
        m
    } else {
        insert_all(m.insert(ps[0].0, ps[0].1), ps.drop_first())
    }
}

proof fn lemma_insert_all_push(m: Map<Seq<char>, Seq<char>>, ps: Seq<LabelModel>, p: LabelModel)
    ensures
        insert_all(m, ps.push(p)) == insert_all(m, ps).insert(p.0, p.1),
    decreases ps.len(),
{
    let qs = ps.push(p);
    assert(qs[0] == if ps.len() == 0 { p } else { ps[0] });
    if ps.len() == 0 {
        assert(qs.drop_first() =~= Seq::<LabelModel>::empty());
        assert(insert_all(m, qs) == insert_all(m.insert(p.0, p.1), qs.drop_first()));
    } else {
        assert(qs.drop_first() =~= ps.drop_first().push(p));
        lemma_insert_all_push(m.insert(ps[0].0, ps[0].1), ps.drop_first(), p);
        assert(insert_all(m, qs) == insert_all(m.insert(ps[0].0, ps[0].1), qs.drop_first()));
    }
}

proof fn lemma_insert_all_pairs_map(ps: Seq<LabelModel>)
    ensures
        insert_all(Map::empty(), ps) == pairs_map(ps),
    decreases ps.len(),
{
    if ps.len() > 0 {
        lemma_insert_all_pairs_map(ps.drop_last());
        lemma_insert_all_push(Map::empty(), ps.drop_last(), ps.last());
        assert(ps.drop_last().push(ps.last()) =~= ps);
    }
}

/// `s` holds `a + b` from `k` on, so it holds `a` from `k` and `b` after it.
proof fn lemma_split(s: Seq<char>, k: int, a: Seq<char>, b: Seq<char>)
    requires
        0 <= k,
        k + a.len() + b.len() <= s.len(),
        s.subrange(k, k + a.len() + b.len()) == a + b,
    ensures
        s.subrange(k, k + a.len()) == a,
        s.subrange(k + a.len(), k + a.len() + b.len()) == b,
{
    assert forall|t: int| 0 <= t < a.len() implies s.subrange(k, k + a.len())[t] == a[t] by {
        assert(s.subrange(k, k + a.len() + b.len())[t] == (a + b)[t]);
    }
    assert forall|t: int| 0 <= t < b.len() implies s.subrange(
        k + a.len(),
        k + a.len() + b.len(),
    )[t] == b[t] by {
        assert(s.subrange(k, k + a.len() + b.len())[a.len() + t] == (a + b)[a.len() + t]);
        assert((a + b)[a.len() + t] == b[t]);
    }
    assert(s.subrange(k, k + a.len()) =~= a);
    assert(s.subrange(k + a.len(), k + a.len() + b.len()) =~= b);
}

/// A pair written at `k` is read back as that pair.
proof fn lemma_pair_read(s: Seq<char>, k: int, p: LabelModel)
    requires
        0 <= k,
        k + pair_text(p).len() <= s.len(),
        s.subrange(k, k + pair_text(p).len()) == pair_text(p),
        is_identifier(p.0),
    ensures
        spec_pair(s, k) == Step::Parsed(k + pair_text(p).len(), p),
{
    let name = p.0;
    let enc = encode(p.1);
    let q = quote(enc);
    let a = k + name.len();
    assert(pair_text(p) == name + seq!['='] + q);
    lemma_split(s, k, name + seq!['='], q);
    lemma_split(s, k, name, seq!['=']);
    assert(s[a] == s.subrange(a, a + 1)[0]);
    assert(s[a] == '=');
    assert(s[k] == s.subrange(k, a)[0]);
    assert(space_end(s, k) == k);
    assert forall|t: int| k + 1 <= t < a implies #[trigger] is_name_char(s[t]) by {
        assert(s[t] == s.subrange(k, a)[t - k]);
        assert(is_name_char(name[t - k]));
    }
    lemma_name_run(s, k + 1, a);
    assert(spec_name(s, k) == Step::Parsed(a, name));
    assert(space_end(s, a) == a);
    let b = a + 1;
    assert(q == seq!['"'] + enc + seq!['"']);
    lemma_split(s, b, seq!['"'] + enc, seq!['"']);
    lemma_split(s, b, seq!['"'], enc);
    assert(s[b] == s.subrange(b, b + 1)[0]);
    assert(space_end(s, b) == b);
    assert(s[b + 1 + enc.len()] == s.subrange(b + 1 + enc.len(), b + 2 + enc.len())[0]);
    lemma_encoded_body(s, b + 1, p.1);
    assert(spec_quoted(s, b) == Step::Parsed(b + 2 + enc.len(), p.1));
}

/// What the label-set rule does after a pair that ends at `e`, with `m` the
/// mapping read so far: the closing brace, or a comma and more items.
pub open spec fn after_pair(s: Seq<char>, e: int, m: Map<Seq<char>, Seq<char>>) -> Step<
    Map<Seq<char>, Seq<char>>,
> {
    let t = space_end(s, e);
    if char_at(s, t, '}') {
        Step::Parsed(t + 1, m)
    } else if char_at(s, t, ',') {
        label_items(s, t + 1, m)
    } else {
        close_failure(s, t)
    }
}

/// Label pairs written from `k` on are read in order, and the rule then
/// goes on as after their last pair.
proof fn lemma_items_read(s: Seq<char>, k: int, m: Map<Seq<char>, Seq<char>>, ps: Seq<LabelModel>)
    requires
        ps.len() > 0,
        names_valid(ps),
        0 <= k,
        k + pairs_text(ps).len() <= s.len(),
        s.subrange(k, k + pairs_text(ps).len()) == pairs_text(ps),
    ensures
        label_items(s, k, m) == after_pair(s, k + pairs_text(ps).len(), insert_all(m, ps)),
    decreases ps.len(),
{
    let p = ps[0];
    let pt = pair_text(p);
    let e = k + pt.len();
    assert(is_identifier(ps[0].0));
    if ps.len() == 1 {
        lemma_pair_read(s, k, p);
        assert(ps.drop_first() =~= Seq::<LabelModel>::empty());
    } else {
        let rest = ps.drop_first();
        assert(pairs_text(ps) == pt + seq![','] + pairs_text(rest));
        lemma_split(s, k, pt + seq![','], pairs_text(rest));
        lemma_split(s, k, pt, seq![',']);
        lemma_pair_read(s, k, p);
        assert(s[e] == s.subrange(e, e + 1)[0]);
        assert(space_end(s, e) == e);
        assert forall|i: int| 0 <= i < rest.len() implies is_identifier(#[trigger] rest[i].0) by {
            assert(rest[i] == ps[i + 1]);
        }
        lemma_items_read(s, e + 1, m.insert(p.0, p.1), rest);
        assert(char_at(s, e, ','));
        assert(after_pair(s, e, m.insert(p.0, p.1)) == label_items(s, e + 1, m.insert(p.0, p.1)));
    }
    assert(pt[0] == p.0[0]);
    assert(s[k] == s.subrange(k, k + pairs_text(ps).len())[0]);
    assert(pairs_text(ps)[0] == pt[0]);
    assert(is_name_start(s[k]));
    assert(space_end(s, k) == k);
    assert(!char_at(s, k, '}'));
    assert(spec_pair(s, k) == Step::Parsed(e, p));
    let m2 = m.insert(p.0, p.1);
    assert(label_items(s, k, m) == after_pair(s, e, m2));
    assert(insert_all(m, ps) == insert_all(m2, ps.drop_first()));
}

/// A label set written from a list of pairs is read back as the mapping of
/// that list.
pub proof fn law_label_set_read(ps: Seq<LabelModel>, r: Seq<char>)
    requires
        names_valid(ps),
    ensures
        spec_labels(seq!['{'] + pairs_text(ps) + seq!['}'] + r, 0) == Step::Parsed(
            pairs_text(ps).len() + 2int,
            pairs_map(ps),
        ),
{
    let s = seq!['{'] + pairs_text(ps) + seq!['}'] + r;
    let n = pairs_text(ps).len() as int;
    assert(s[0] == '{');
    assert(space_end(s, 0) == 0);
    assert(s[n + 1] == '}');
    lemma_insert_all_pairs_map(ps);
    if ps.len() > 0 {
        assert(s.subrange(1, 1 + n) =~= pairs_text(ps));
        lemma_items_read(s, 1, Map::empty(), ps);
    } else {
        assert(space_end(s, 1) == 1);
    }
}

/// With distinct names the mapping of a list of pairs is the set of its
/// pairs.
proof fn lemma_pairs_map_unique(ps: Seq<LabelModel>)
    requires
        keys_unique(ps),
    ensures
        forall|k: Seq<char>| #[trigger]
            pairs_map(ps).contains_key(k) <==> exists|i: int| 0 <= i < ps.len() && ps[i].0 == k,
        forall|i: int| 0 <= i < ps.len() ==> #[trigger] pairs_map(ps)[ps[i].0] == ps[i].1,
    decreases ps.len(),
{
    if ps.len() > 0 {
        let d = ps.drop_last();
        assert(keys_unique(d)) by {
            assert forall|a: int, b: int| 0 <= a < b < d.len() implies #[trigger] d[a].0
                != #[trigger] d[b].0 by {
                assert(d[a] == ps[a] && d[b] == ps[b]);
            }
        }
        lemma_pairs_map_unique(d);
        let last = ps.len() - 1;
        assert(pairs_map(ps) == pairs_map(d).insert(ps[last].0, ps[last].1));
        assert forall|k: Seq<char>| #[trigger]
            pairs_map(ps).contains_key(k) implies exists|i: int| 0 <= i < ps.len() && ps[i].0 == k by {
            if k != ps[last].0 {
                assert(pairs_map(d).contains_key(k));
                let i = choose|i: int| 0 <= i < d.len() && d[i].0 == k;
                assert(ps[i] == d[i]);
            } else {
                assert(ps[last].0 == k);
            }
        }
        assert forall|k: Seq<char>|
            (exists|i: int| 0 <= i < ps.len() && ps[i].0 == k) implies #[trigger] pairs_map(
            ps,
        ).contains_key(k) by {
            let i = choose|i: int| 0 <= i < ps.len() && ps[i].0 == k;
            if i < last {
                assert(d[i] == ps[i]);
            }
        }
        assert forall|i: int| 0 <= i < ps.len() implies #[trigger] pairs_map(ps)[ps[i].0]
            == ps[i].1 by {
            if i < last {
                assert(d[i] == ps[i]);
                assert(ps[i].0 != ps[last].0);
            }
        }
    }
}

/// Two lists with distinct names that hold the same pairs, in any order,
/// stand for the same mapping.
pub proof fn law_pairs_order_irrelevant(ps: Seq<LabelModel>, qs: Seq<LabelModel>)
    requires
        keys_unique(ps),
        keys_unique(qs),
        forall|x: LabelModel| ps.contains(x) <==> qs.contains(x),
    ensures
        pairs_map(ps) == pairs_map(qs),
{
    lemma_pairs_map_unique(ps);
    lemma_pairs_map_unique(qs);
    assert forall|k: Seq<char>| #[trigger] pairs_map(ps).contains_key(k) implies pairs_map(
        qs,
    ).contains_key(k) && pairs_map(ps)[k] == pairs_map(qs)[k] by {
        let i = choose|i: int| 0 <= i < ps.len() && ps[i].0 == k;
        assert(ps.contains(ps[i]));
        assert(qs.contains(ps[i]));
        let j = choose|j: int| 0 <= j < qs.len() && qs[j] == ps[i];
        assert(pairs_map(qs)[qs[j].0] == qs[j].1);
    }
    assert forall|k: Seq<char>| #[trigger] pairs_map(qs).contains_key(k) implies pairs_map(
        ps,
    ).contains_key(k) by {
        let j = choose|j: int| 0 <= j < qs.len() && qs[j].0 == k;
        assert(qs.contains(qs[j]));
        assert(ps.contains(qs[j]));
        let i = choose|i: int| 0 <= i < ps.len() && ps[i] == qs[j];
        assert(ps[i].0 == k);
    }
    assert(pairs_map(ps) =~= pairs_map(qs));
}

/// Label sets written from two lists with distinct names that hold the
/// same pairs, in any order, are read as equal mappings.
pub proof fn law_label_set_order_irrelevant(ps: Seq<LabelModel>, qs: Seq<LabelModel>)
    requires
        names_valid(ps),
        names_valid(qs),
        keys_unique(ps),
        keys_unique(qs),
        forall|x: LabelModel| ps.contains(x) <==> qs.contains(x),
    ensures
        spec_labels(seq!['{'] + pairs_text(ps) + seq!['}'], 0) matches Step::Parsed(_, m1)
            && spec_labels(seq!['{'] + pairs_text(qs) + seq!['}'], 0) matches Step::Parsed(
            _,
            m2,
        ) && m1 == m2,
{
    law_label_set_read(ps, Seq::empty());
    law_label_set_read(qs, Seq::empty());
    assert(seq!['{'] + pairs_text(ps) + seq!['}'] + Seq::<char>::empty() =~= seq!['{']
        + pairs_text(ps) + seq!['}']);
    assert(seq!['{'] + pairs_text(qs) + seq!['}'] + Seq::<char>::empty() =~= seq!['{']
        + pairs_text(qs) + seq!['}']);
    law_pairs_order_irrelevant(ps, qs);
}

/// A single comma after the last pair, before the closing brace, is
/// accepted and changes nothing.
pub proof fn law_trailing_comma(ps: Seq<LabelModel>, r: Seq<char>)
    requires
        ps.len() > 0,
        names_valid(ps),
    ensures
        spec_labels(seq!['{'] + pairs_text(ps) + seq![',', '}'] + r, 0) == Step::Parsed(
            pairs_text(ps).len() + 3int,
            pairs_map(ps),
        ),
{
    let s = seq!['{'] + pairs_text(ps) + seq![',', '}'] + r;
    let n = pairs_text(ps).len() as int;
    assert(s[0] == '{');
    assert(space_end(s, 0) == 0);
    assert(s[n + 1] == ',');
    assert(s[n + 2] == '}');
    assert(space_end(s, n + 1) == n + 1);
    assert(space_end(s, n + 2) == n + 2);
    lemma_insert_all_pairs_map(ps);
    assert(s.subrange(1, 1 + n) =~= pairs_text(ps));
    lemma_items_read(s, 1, Map::empty(), ps);
}

/// A label set whose input ends before its closing brace (after its pairs,
/// an optional trailing comma and any spaces) fails as a missing `}`.
pub proof fn law_missing_close_brace(ps: Seq<LabelModel>, comma: bool, w: Seq<char>)
    requires
        names_valid(ps),
        ps.len() > 0 || !comma,
        forall|k: int| 0 <= k < w.len() ==> #[trigger] is_space(w[k]),
    ensures
        ({
            let s = seq!['{'] + pairs_text(ps) + (if comma {
                seq![',']
            } else {
                Seq::empty()
            }) + w;
            spec_labels(s, 0) == Step::<Map<Seq<char>, Seq<char>>>::Failed(
                ErrorKind::ExpectedToken(Token::CloseBrace),
                s.len() as int,
            )
        }),
{
    let c: Seq<char> = if comma {
        seq![',']
    } else {
        Seq::empty()
    };
    let s = seq!['{'] + pairs_text(ps) + c + w;
    let n = pairs_text(ps).len() as int;
    let a = 1 + n + c.len();
    assert(s[0] == '{');
    assert(space_end(s, 0) == 0);
    assert forall|k: int| a <= k < s.len() implies #[trigger] is_space(s[k]) by {
        assert(s[k] == w[k - a]);
    }
    lemma_space_run(s, a, s.len() as int);
    if ps.len() > 0 {
        assert(s.subrange(1, 1 + n) =~= pairs_text(ps));
        lemma_items_read(s, 1, Map::empty(), ps);
        if comma {
            assert(s[n + 1] == ',');
            assert(space_end(s, n + 1) == n + 1);
        }
    }
}

/// A line that starts with `#` once trimmed never fails: it is a header or
/// it is ignored.
pub proof fn law_comment_never_fails(t: Seq<char>)
    requires
        t.len() > 0,
        t[0] == '#',
    ensures
        spec_line(t) matches Ok(r) && (r matches Some(l) ==> l is Header),
{
    assert(space_end(t, 0) == 0);
    assert(spec_metric(t, 0) is Failed);
}

/// A blank line, and a `# HELP` line whatever its text, hold nothing.
pub proof fn law_blank_and_help_ignored(w: Seq<char>, rest: Seq<char>)
    requires
        forall|k: int| 0 <= k < w.len() ==> #[trigger] is_space(w[k]),
    ensures
        spec_line(Seq::empty()) == Ok::<Option<LineModel>, (ErrorKind, int)>(None),
        spec_line(seq!['#'] + w + seq!['H', 'E', 'L', 'P'] + rest) == Ok::<
            Option<LineModel>,
            (ErrorKind, int),
        >(None),
{
    let t = seq!['#'] + w + seq!['H', 'E', 'L', 'P'] + rest;
    let a = 1 + w.len() as int;
    assert(t[0] == '#');
    assert(space_end(t, 0) == 0);
    assert forall|k: int| 1 <= k < a implies #[trigger] is_space(t[k]) by {
        assert(t[k] == w[k - 1]);
    }
    assert(t[a] == 'H');
    lemma_space_run(t, 1, a);
    assert(t.subrange(a, a + 4)[0] == 'H');
    assert(spec_header(t, 0) is Failed);
}

/// Whatever the name lexer returns is an identifier.
pub proof fn law_name_is_identifier(s: Seq<char>, i: int)
    requires
        0 <= i <= s.len(),
    ensures
        spec_name(s, i) matches Step::Parsed(_, n) ==> is_identifier(n),
{
    lemma_space_end_bounds(s, i);
    let j = space_end(s, i);
    if j < s.len() && is_name_start(s[j]) {
        lemma_name_end_bounds(s, j + 1);
        let n = s.subrange(j, name_end(s, j + 1));
        assert forall|k: int| 0 < k < n.len() implies #[trigger] is_name_char(n[k]) by {
            assert(n[k] == s[j + k]);
        }
    }
}

} // verus!
