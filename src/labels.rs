//! Label sets: `{name="value",...}`, held as a list of pairs with unique names.
use vstd::prelude::*;
use crate::error::{ErrorKind, Token};
use crate::lex::{
    char_at, has_char, is_name_start, lemma_name_end_bounds, lemma_space_end_bounds, name_at,
    name_end, skip_space, space_end, spec_name, PResult, Step,
};
use crate::quoted::{lemma_body_end_bounds, quoted_at, spec_quoted};

verus! {

/// A label name and its decoded value.
pub type LabelModel = (Seq<char>, Seq<char>);

/// The mathematical content of a list of label pairs.
pub open spec fn labels_view(v: Seq<(String, String)>) -> Seq<LabelModel> {
    v.map_values(|p: (String, String)| (p.0@, p.1@))
}

/// The mapping that a list of pairs stands for; a later pair with the same
/// name overrides an earlier one.
pub open spec fn pairs_map(ps: Seq<LabelModel>) -> Map<Seq<char>, Seq<char>>
    decreases ps.len(),
{
    if ps.len() == 0 {
        Map::empty()
    } else {
        pairs_map(ps.drop_last()).insert(ps.last().0, ps.last().1)
    }
}

/// No two pairs of the list have the same name.
pub open spec fn keys_unique(ps: Seq<LabelModel>) -> bool {
    forall|a: int, b: int| 0 <= a < b < ps.len() ==> #[trigger] ps[a].0 != #[trigger] ps[b].0
}

/// The mapping that a list of label pairs stands for.
pub open spec fn label_map(v: Seq<(String, String)>) -> Map<Seq<char>, Seq<char>> {
    pairs_map(labels_view(v))
}

/// One pair `name = "value"`, with optional whitespace before each token.
pub open spec fn spec_pair(s: Seq<char>, i: int) -> Step<LabelModel> {
    match spec_name(s, i) {
        Step::Failed(k, p) => Step::Failed(k, p),
        Step::Parsed(a, name) => {
            let b = space_end(s, a);
            if !char_at(s, b, '=') {
                Step::Failed(ErrorKind::GenericSyntaxError, b)
            } else {
                match spec_quoted(s, b + 1) {
                    Step::Failed(k, p) => Step::Failed(k, p),
                    Step::Parsed(e, value) => Step::Parsed(e, (name, value)),
                }
            }
        },
    }
}

/// The error where `}` was due at `t`: a missing brace when the input ends
/// there, any other mismatch otherwise.
pub open spec fn close_failure(s: Seq<char>, t: int) -> Step<Map<Seq<char>, Seq<char>>> {
    if t >= s.len() {
        Step::Failed(ErrorKind::ExpectedToken(Token::CloseBrace), t)
    } else {
        Step::Failed(ErrorKind::GenericSyntaxError, t)
    }
}

/// The items of a label set from position `k`, where a pair or the closing
/// brace is due, with `m` the mapping of the pairs read so far. After each
/// pair comes `}`, or a comma and then another pair or `}`.
pub open spec fn label_items(s: Seq<char>, k: int, m: Map<Seq<char>, Seq<char>>) -> Step<
    Map<Seq<char>, Seq<char>>,
>
    decreases s.len() - k,
    via label_items_decreases
{
    let j = space_end(s, k);
    if char_at(s, j, '}') {
        Step::Parsed(j + 1, m)
    } else if !(0 <= j < s.len()) {
        close_failure(s, j)
    } else {
        match spec_pair(s, j) {
            Step::Failed(kd, p) => Step::Failed(kd, p),
            Step::Parsed(e, pair) => {
                let m2 = m.insert(pair.0, pair.1);
                let t = space_end(s, e);
                if char_at(s, t, '}') {
                    Step::Parsed(t + 1, m2)
                } else if char_at(s, t, ',') {
                    label_items(s, t + 1, m2)
                } else {
                    close_failure(s, t)
                }
            },
        }
    }
}

pub proof fn lemma_pair_end(s: Seq<char>, i: int)
    requires
        0 <= i <= s.len(),
    ensures
        spec_pair(s, i) matches Step::Parsed(e, _) ==> i < e <= s.len(),
{
    lemma_space_end_bounds(s, i);
    let j = space_end(s, i);
    if j < s.len() && is_name_start(s[j]) {
        lemma_name_end_bounds(s, j + 1);
        let a = name_end(s, j + 1);
        lemma_space_end_bounds(s, a);
        let b = space_end(s, a);
        if char_at(s, b, '=') {
            lemma_space_end_bounds(s, b + 1);
            let q = space_end(s, b + 1);
            if char_at(s, q, '"') {
                lemma_body_end_bounds(s, q + 1);
            }
        }
    }
}

#[via_fn]
proof fn label_items_decreases(s: Seq<char>, k: int, m: Map<Seq<char>, Seq<char>>) {
    if 0 <= k <= s.len() {
        lemma_space_end_bounds(s, k);
        let j = space_end(s, k);
        lemma_pair_end(s, j);
        if let Step::Parsed(e, _) = spec_pair(s, j) {
            lemma_space_end_bounds(s, e);
        }
    }
}

/// A label set after optional whitespace; without an opening brace it is
/// empty and nothing but the whitespace is consumed.
pub open spec fn spec_labels(s: Seq<char>, i: int) -> Step<Map<Seq<char>, Seq<char>>> {
    let j = space_end(s, i);
    if !char_at(s, j, '{') {
        Step::Parsed(j, Map::empty())
    } else {
        label_items(s, j + 1, Map::empty())
    }
}

pub proof fn lemma_pairs_map_push(ps: Seq<LabelModel>, p: LabelModel)
    ensures
        pairs_map(ps.push(p)) == pairs_map(ps).insert(p.0, p.1),
{
    assert(ps.push(p).drop_last() =~= ps);
}

/// Giving a new value to the pair at `i` gives its name that value in the
/// mapping, when names are unique.
pub proof fn lemma_pairs_map_update(ps: Seq<LabelModel>, i: int, v: Seq<char>)
    requires
        keys_unique(ps),
        0 <= i < ps.len(),
    ensures
        pairs_map(ps.update(i, (ps[i].0, v))) == pairs_map(ps).insert(ps[i].0, v),
    decreases ps.len(),
{
    let qs = ps.update(i, (ps[i].0, v));
    let last = ps.len() - 1;
    if i == last {
        assert(qs.drop_last() =~= ps.drop_last());
        assert(pairs_map(qs) =~= pairs_map(ps).insert(ps[i].0, v));
    } else {
        let d = ps.drop_last();
        assert(keys_unique(d)) by {
            assert forall|a: int, b: int| 0 <= a < b < d.len() implies #[trigger] d[a].0
                != #[trigger] d[b].0 by {
                assert(d[a] == ps[a] && d[b] == ps[b]);
            }
        }
        lemma_pairs_map_update(d, i, v);
        assert(qs.drop_last() =~= d.update(i, (d[i].0, v)));
        assert(ps[i].0 != ps[last].0);
        assert(pairs_map(qs) =~= pairs_map(ps).insert(ps[i].0, v));
    }
}

/// Adds a label, replacing the value of a label of the same name.
pub(crate) fn insert_label(labels: &mut Vec<(String, String)>, name: String, value: String)
    requires
        keys_unique(labels_view(old(labels)@)),
    ensures
        keys_unique(labels_view(final(labels)@)),
        label_map(final(labels)@) == label_map(old(labels)@).insert(name@, value@),
{
    let ghost before = labels_view(labels@);
    let mut idx: usize = 0;
    while idx < labels.len()
        invariant
            before == labels_view(labels@),
            labels@ == old(labels)@,
            keys_unique(before),
            idx <= labels@.len(),
            forall|t: int| 0 <= t < idx ==> #[trigger] before[t].0 != name@,
        decreases labels@.len() - idx,
    {
        if labels[idx].0 == name {
            let ghost key = before[idx as int].0;
            assert(key == name@);
            proof {
                lemma_pairs_map_update(before, idx as int, value@);
            }
            let ghost v = value@;
            labels.set(idx, (name, value));
            assert(labels_view(labels@) =~= before.update(idx as int, (key, v)));
            assert(label_map(labels@) == pairs_map(before).insert(key, v));
            return;
        }
        idx += 1;
    }
    let ghost pair = (name@, value@);
    labels.push((name, value));
    proof {
        lemma_pairs_map_push(before, pair);
    }
    assert(labels_view(labels@) =~= before.push(pair));
}

/// Lexes one pair `name = "value"` at position `i`.
pub(crate) fn pair_at(s: &str, n: usize, i: usize) -> (r: PResult<(String, String)>)
    requires
        n == s@.len(),
        i <= n,
    ensures
        match spec_pair(s@, i as int) {
            Step::Parsed(e, v) => r matches Ok((p, pair)) && p == e && pair.0@ == v.0 && pair.1@
                == v.1,
            Step::Failed(k, e) => r matches Err((k2, p)) && k2 == k && p == e,
        },
        r matches Ok((p, _)) ==> i < p <= n,
        r matches Err((_, p)) ==> i <= p <= n,
{
    proof {
        lemma_space_end_bounds(s@, i as int);
    }
    let (a, name) = match name_at(s, n, i) {
        Ok(x) => x,
        Err(e) => {
            return Err(e);
        },
    };
    let b = skip_space(s, n, a);
    if !has_char(s, n, b, '=') {
        return Err((ErrorKind::GenericSyntaxError, b));
    }
    match quoted_at(s, n, b + 1) {
        Ok((e, value)) => Ok((e, (name, value))),
        Err(e) => Err(e),
    }
}

/// Lexes a label set at position `i`, after optional whitespace.
pub(crate) fn labels_at(s: &str, n: usize, i: usize) -> (r: PResult<Vec<(String, String)>>)
    requires
        n == s@.len(),
        i <= n,
    ensures
        match spec_labels(s@, i as int) {
            Step::Parsed(e, m) => r matches Ok((p, ls)) && p == e && keys_unique(labels_view(ls@))
                && label_map(ls@) == m,
            Step::Failed(k, e) => r matches Err((k2, p)) && k2 == k && p == e,
        },
        r matches Ok((p, _)) ==> i <= p <= n,
        r matches Err((_, p)) ==> i <= p <= n,
{
    let j = skip_space(s, n, i);
    let mut labels: Vec<(String, String)> = Vec::new();
    assert(label_map(labels@) =~= Map::empty()) by {
        assert(labels_view(labels@) =~= Seq::<LabelModel>::empty());
    }
    if !has_char(s, n, j, '{') {
        return Ok((j, labels));
    }
    let mut k = j + 1;
    loop
        invariant
            n == s@.len(),
            i < k <= n,
            keys_unique(labels_view(labels@)),
            label_items(s@, k as int, label_map(labels@)) == spec_labels(s@, i as int),
        decreases n + 1 - k,
    {
        let t0 = skip_space(s, n, k);
        if has_char(s, n, t0, '}') {
            return Ok((t0 + 1, labels));
        }
        if t0 >= n {
            return Err((ErrorKind::ExpectedToken(Token::CloseBrace), t0));
        }
        let (e, (name, value)) = match pair_at(s, n, t0) {
            Ok(x) => x,
            Err(err) => {
                return Err(err);
            },
        };
        insert_label(&mut labels, name, value);
        let t = skip_space(s, n, e);
        if has_char(s, n, t, '}') {
            return Ok((t + 1, labels));
        }
        if has_char(s, n, t, ',') {
            k = t + 1;
        } else if t >= n {
            return Err((ErrorKind::ExpectedToken(Token::CloseBrace), t));
        } else {
            return Err((ErrorKind::GenericSyntaxError, t));
        }
    }
}

} // verus!
