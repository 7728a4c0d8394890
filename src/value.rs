//! The value of a sample: a sentinel or a decimal floating-point literal.
use vstd::prelude::*;
use crate::error::ErrorKind;
use crate::lex::{
    char_at, digits_end, has_char, has_word, skip_digits, skip_space, space_end, word_at, PResult,
    Step,
};

verus! {

/// The value field of a sample line, as written. A `Number` holds the
/// literal's text, which denotes the IEEE-754 double nearest to it.
#[derive(Debug, Clone, PartialEq, Eq)]
pub enum SampleValue {
    /// `+Inf`
    PosInf,
    /// `-Inf`
    NegInf,
    /// `Nan`
    Nan,
    /// A decimal literal such as `-10.25` or `1e+3`.
    Number(String),
}

/// The mathematical content of a `SampleValue`.
pub enum ValueModel {
    PosInf,
    NegInf,
    Nan,
    Number(Seq<char>),
}

impl View for SampleValue {
    type V = ValueModel;

    open spec fn view(&self) -> ValueModel {
        match self {
            SampleValue::PosInf => ValueModel::PosInf,
            SampleValue::NegInf => ValueModel::NegInf,
            SampleValue::Nan => ValueModel::Nan,
            SampleValue::Number(t) => ValueModel::Number(t@),
        }
    }
}

/// The position after an optional `+` or `-` at `i`.
pub open spec fn sign_end(s: Seq<char>, i: int) -> int {
    if char_at(s, i, '+') || char_at(s, i, '-') {
        i + 1
    } else {
        i
    }
}

/// The end of a mantissa at `i`: digits with an optional point and optional
/// fraction digits (`1`, `1.`, `1.5`), or a point followed by digits (`.5`).
pub open spec fn mantissa_end(s: Seq<char>, i: int) -> Option<int> {
    let d = digits_end(s, i);
    if d > i {
        if char_at(s, d, '.') {
            Some(digits_end(s, d + 1))
        } else {
            Some(d)
        }
    } else if char_at(s, i, '.') && digits_end(s, i + 1) > i + 1 {
        Some(digits_end(s, i + 1))
    } else {
        None
    }
}

/// The end of a decimal literal at `i`: an optional sign, a mantissa, and an
/// optional exponent. An `e` or `E` after the mantissa commits to the
/// exponent, which then needs at least one digit after its optional sign.
pub open spec fn literal_end(s: Seq<char>, i: int) -> Option<int> {
    match mantissa_end(s, sign_end(s, i)) {
        None => None,
        Some(m) => if char_at(s, m, 'e') || char_at(s, m, 'E') {
            let x = sign_end(s, m + 1);
            let d = digits_end(s, x);
            if d > x {
                Some(d)
            } else {
                None
            }
        } else {
            Some(m)
        },
    }
}

/// A value after optional whitespace: `+Inf`, `-Inf` and `Nan` are tried
/// before the decimal literal.
pub open spec fn spec_value(s: Seq<char>, i: int) -> Step<ValueModel> {
    let j = space_end(s, i);
    if word_at(s, j, seq!['+', 'I', 'n', 'f']) {
        Step::Parsed(j + 4, ValueModel::PosInf)
    } else if word_at(s, j, seq!['-', 'I', 'n', 'f']) {
        Step::Parsed(j + 4, ValueModel::NegInf)
    } else if word_at(s, j, seq!['N', 'a', 'n']) {
        Step::Parsed(j + 3, ValueModel::Nan)
    } else {
        match literal_end(s, j) {
            Some(e) => Step::Parsed(e, ValueModel::Number(s.subrange(j, e))),
            None => Step::Failed(ErrorKind::MalformedNumericValue, j),
        }
    }
}

fn skip_sign(s: &str, n: usize, i: usize) -> (j: usize)
    requires
        n == s@.len(),
        i <= n,
    ensures
        j == sign_end(s@, i as int),
        j <= n,
{
    if has_char(s, n, i, '+') || has_char(s, n, i, '-') {
        i + 1
    } else {
        i
    }
}

fn mantissa_at(s: &str, n: usize, i: usize) -> (r: Option<usize>)
    requires
        n == s@.len(),
        i <= n,
    ensures
        r matches Some(e) ==> mantissa_end(s@, i as int) == Some(e as int) && i < e <= n,
        r is None ==> mantissa_end(s@, i as int) is None,
{
    let d = skip_digits(s, n, i);
    if d > i {
        if has_char(s, n, d, '.') {
            Some(skip_digits(s, n, d + 1))
        } else {
            Some(d)
        }
    } else if has_char(s, n, i, '.') && skip_digits(s, n, i + 1) > i + 1 {
        Some(skip_digits(s, n, i + 1))
    } else {
        None
    }
}

fn literal_at(s: &str, n: usize, i: usize) -> (r: Option<usize>)
    requires
        n == s@.len(),
        i <= n,
    ensures
        r matches Some(e) ==> literal_end(s@, i as int) == Some(e as int) && i < e <= n,
        r is None ==> literal_end(s@, i as int) is None,
{
    let a = skip_sign(s, n, i);
    match mantissa_at(s, n, a) {
        None => None,
        Some(m) => {
            if has_char(s, n, m, 'e') || has_char(s, n, m, 'E') {
                let x = skip_sign(s, n, m + 1);
                let d = skip_digits(s, n, x);
                if d > x {
                    Some(d)
                } else {
                    None
                }
            } else {
                Some(m)
            }
        },
    }
}

/// Lexes a value at position `i`, after optional whitespace.
pub(crate) fn value_at(s: &str, n: usize, i: usize) -> (r: PResult<SampleValue>)
    requires
        n == s@.len(),
        i <= n,
    ensures
        match spec_value(s@, i as int) {
            Step::Parsed(e, v) => r matches Ok((p, val)) && p == e && val@ == v,
            Step::Failed(k, e) => r matches Err((k2, p)) && k2 == k && p == e,
        },
        r matches Ok((p, _)) ==> i <= p <= n,
        r matches Err((_, p)) ==> i <= p <= n,
{
    let j = skip_space(s, n, i);
    proof {
        reveal_strlit("+Inf");
        reveal_strlit("-Inf");
        reveal_strlit("Nan");
        assert("+Inf"@ =~= seq!['+', 'I', 'n', 'f']);
        assert("-Inf"@ =~= seq!['-', 'I', 'n', 'f']);
        assert("Nan"@ =~= seq!['N', 'a', 'n']);
    }
    if has_word(s, n, j, "+Inf") {
        Ok((j + 4, SampleValue::PosInf))
    } else if has_word(s, n, j, "-Inf") {
        Ok((j + 4, SampleValue::NegInf))
    } else if has_word(s, n, j, "Nan") {
        Ok((j + 3, SampleValue::Nan))
    } else {
        match literal_at(s, n, j) {
            Some(e) => Ok((e, SampleValue::Number(s.substring_char(j, e).to_owned()))),
            None => Err((ErrorKind::MalformedNumericValue, j)),
        }
    }
}

} // verus!
