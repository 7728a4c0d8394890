//! Lexers for the tokens of a line: horizontal whitespace and identifiers.
use vstd::prelude::*;
use vstd::string::*;
use crate::error::{ErrorKind, ParseError};

verus! {

/// The outcome of a grammar rule applied at a position of a line: the
/// position after what it consumed and what it produced, or the kind of
/// failure and the position whose remainder is reported with it.
pub enum Step<T> {
    Parsed(int, T),
    Failed(ErrorKind, int),
}

/// What a rule run by the executable parsers hands back: the position after
/// the match and its value, or the error kind and the position of the failure.
pub type PResult<T> = Result<(usize, T), (ErrorKind, usize)>;

/// The remainder of `s` from position `p` on.
pub open spec fn rest_of(s: Seq<char>, p: int) -> Seq<char> {
    s.subrange(p, s.len() as int)
}

/// `r` is an error of kind `k` reporting the remainder of `s` from `p`.
pub open spec fn error_is(r: ParseError, s: Seq<char>, k: ErrorKind, p: int) -> bool {
    r.kind == k && r.input@ == rest_of(s, p)
}

pub open spec fn is_space(c: char) -> bool {
    c == ' ' || c == '\t'
}

pub open spec fn is_digit(c: char) -> bool {
    '0' <= c && c <= '9'
}

pub open spec fn is_name_start(c: char) -> bool {
    ('a' <= c && c <= 'z') || ('A' <= c && c <= 'Z') || c == '_'
}

pub open spec fn is_name_char(c: char) -> bool {
    is_name_start(c) || is_digit(c)
}

/// The first position at or after `i` that does not hold a space or a tab.
pub open spec fn space_end(s: Seq<char>, i: int) -> int
    decreases s.len() - i,
{
    if 0 <= i < s.len() && is_space(s[i]) {
        space_end(s, i + 1)
    } else {
        i
    }
}

/// The first position at or after `i` that does not hold an identifier character.
pub open spec fn name_end(s: Seq<char>, i: int) -> int
    decreases s.len() - i,
{
    if 0 <= i < s.len() && is_name_char(s[i]) {
        name_end(s, i + 1)
    } else {
        i
    }
}

/// The first position at or after `i` that does not hold a decimal digit.
pub open spec fn digits_end(s: Seq<char>, i: int) -> int
    decreases s.len() - i,
{
    if 0 <= i < s.len() && is_digit(s[i]) {
        digits_end(s, i + 1)
    } else {
        i
    }
}

/// `s` holds `c` at position `i`.
pub open spec fn char_at(s: Seq<char>, i: int, c: char) -> bool {
    0 <= i < s.len() && s[i] == c
}

/// An identifier, `[A-Za-z_][A-Za-z0-9_]*`, after optional whitespace.
pub open spec fn spec_name(s: Seq<char>, i: int) -> Step<Seq<char>> {
    let j = space_end(s, i);
    if j < s.len() && is_name_start(s[j]) {
        let e = name_end(s, j + 1);
        Step::Parsed(e, s.subrange(j, e))
    } else {
        Step::Failed(ErrorKind::MalformedIdentifier, j)
    }
}

/// A whole identifier: a start character followed by identifier characters.
pub open spec fn is_identifier(n: Seq<char>) -> bool {
    &&& n.len() > 0
    &&& is_name_start(n[0])
    &&& forall|k: int| 0 < k < n.len() ==> #[trigger] is_name_char(n[k])
}

pub proof fn lemma_space_end_bounds(s: Seq<char>, i: int)
    requires
        0 <= i <= s.len(),
    ensures
        i <= space_end(s, i) <= s.len(),
        forall|k: int| i <= k < space_end(s, i) ==> #[trigger] is_space(s[k]),
    decreases s.len() - i,
{
    if i < s.len() && is_space(s[i]) {
        lemma_space_end_bounds(s, i + 1);
    }
}

pub proof fn lemma_name_end_bounds(s: Seq<char>, i: int)
    requires
        0 <= i <= s.len(),
    ensures
        i <= name_end(s, i) <= s.len(),
        forall|k: int| i <= k < name_end(s, i) ==> #[trigger] is_name_char(s[k]),
    decreases s.len() - i,
{
    if i < s.len() && is_name_char(s[i]) {
        lemma_name_end_bounds(s, i + 1);
    }
}

pub proof fn lemma_digits_end_bounds(s: Seq<char>, i: int)
    requires
        0 <= i <= s.len(),
    ensures
        i <= digits_end(s, i) <= s.len(),
        forall|k: int| i <= k < digits_end(s, i) ==> #[trigger] is_digit(s[k]),
    decreases s.len() - i,
{
    if i < s.len() && is_digit(s[i]) {
        lemma_digits_end_bounds(s, i + 1);
    }
}

pub(crate) fn is_space_char(c: char) -> (r: bool)
    ensures
        r == is_space(c),
{
    c == ' ' || c == '\t'
}

pub(crate) fn is_digit_char(c: char) -> (r: bool)
    ensures
        r == is_digit(c),
{
    '0' <= c && c <= '9'
}

pub(crate) fn is_name_start_char(c: char) -> (r: bool)
    ensures
        r == is_name_start(c),
{
    ('a' <= c && c <= 'z') || ('A' <= c && c <= 'Z') || c == '_'
}

pub(crate) fn is_name_char_exec(c: char) -> (r: bool)
    ensures
        r == is_name_char(c),
{
    is_name_start_char(c) || is_digit_char(c)
}

/// Whether `s` holds `c` at position `i`.
pub(crate) fn has_char(s: &str, n: usize, i: usize, c: char) -> (r: bool)
    requires
        n == s@.len(),
    ensures
        r == char_at(s@, i as int, c),
{
    i < n && s.get_char(i) == c
}

/// The position after the spaces and tabs that start at `i`.
pub(crate) fn skip_space(s: &str, n: usize, i: usize) -> (j: usize)
    requires
        n == s@.len(),
        i <= n,
    ensures
        j == space_end(s@, i as int),
        i <= j <= n,
{
    let mut j = i;
    while j < n && is_space_char(s.get_char(j))
        invariant
            n == s@.len(),
            i <= j <= n,
            space_end(s@, j as int) == space_end(s@, i as int),
        decreases n - j,
    {
        j += 1;
    }
    j
}

/// The position after the identifier characters that start at `i`.
pub(crate) fn skip_name_chars(s: &str, n: usize, i: usize) -> (j: usize)
    requires
        n == s@.len(),
        i <= n,
    ensures
        j == name_end(s@, i as int),
        i <= j <= n,
{
    let mut j = i;
    while j < n && is_name_char_exec(s.get_char(j))
        invariant
            n == s@.len(),
            i <= j <= n,
            name_end(s@, j as int) == name_end(s@, i as int),
        decreases n - j,
    {
        j += 1;
    }
    j
}

/// The position after the decimal digits that start at `i`.
pub(crate) fn skip_digits(s: &str, n: usize, i: usize) -> (j: usize)
    requires
        n == s@.len(),
        i <= n,
    ensures
        j == digits_end(s@, i as int),
        i <= j <= n,
{
    let mut j = i;
    while j < n && is_digit_char(s.get_char(j))
        invariant
            n == s@.len(),
            i <= j <= n,
            digits_end(s@, j as int) == digits_end(s@, i as int),
        decreases n - j,
    {
        j += 1;
    }
    j
}

/// The error of kind `kind` that reports the remainder of `s` from `p`.
pub(crate) fn error_at(s: &str, n: usize, kind: ErrorKind, p: usize) -> (r: ParseError)
    requires
        n == s@.len(),
        p <= n,
    ensures
        error_is(r, s@, kind, p as int),
{
    ParseError { kind, input: s.substring_char(p, n).to_owned() }
}

/// `s` holds the characters of `w` from position `i` on.
pub open spec fn word_at(s: Seq<char>, i: int, w: Seq<char>) -> bool {
    0 <= i && i + w.len() <= s.len() && s.subrange(i, i + w.len()) == w
}

/// Whether `s` holds the characters of `w` from position `i` on.
pub(crate) fn has_word(s: &str, n: usize, i: usize, w: &str) -> (r: bool)
    requires
        n == s@.len(),
        i <= n,
    ensures
        r == word_at(s@, i as int, w@),
{
    let m = w.unicode_len();
    if m > n - i {
        return false;
    }
    let mut k: usize = 0;
    while k < m
        invariant
            n == s@.len(),
            m == w@.len(),
            i + m <= n,
            k <= m,
            forall|t: int| 0 <= t < k ==> s@[i + t] == w@[t],
        decreases m - k,
    {
        if s.get_char(i + k) != w.get_char(k) {
            assert(s@.subrange(i as int, i + m)[k as int] != w@[k as int]);
            return false;
        }
        k += 1;
    }
    assert(s@.subrange(i as int, i + m) =~= w@);
    true
}

/// Lexes an identifier at position `i`, after optional whitespace.
pub(crate) fn name_at(s: &str, n: usize, i: usize) -> (r: PResult<String>)
    requires
        n == s@.len(),
        i <= n,
    ensures
        match spec_name(s@, i as int) {
            Step::Parsed(e, v) => r matches Ok((p, name)) && p == e && name@ == v,
            Step::Failed(k, e) => r == Err::<(usize, String), _>((k, e as usize)),
        },
        r matches Ok((p, _)) ==> i < p <= n,
        r matches Err((_, p)) ==> i <= p <= n,
{
    let j = skip_space(s, n, i);
    if j < n && is_name_start_char(s.get_char(j)) {
        let e = skip_name_chars(s, n, j + 1);
        Ok((e, s.substring_char(j, e).to_owned()))
    } else {
        Err((ErrorKind::MalformedIdentifier, j))
    }
}

/// Removes the spaces and tabs at the start of `input`.
pub fn trim_space(input: &str) -> (r: &str)
    ensures
        r@ == rest_of(input@, space_end(input@, 0)),
{
    let n = input.unicode_len();
    let j = skip_space(input, n, 0);
    input.substring_char(j, n)
}

/// Lexes an identifier matching `[A-Za-z_][A-Za-z0-9_]*` after optional
/// whitespace, and returns the remaining input with it.
pub fn parse_name(input: &str) -> (r: Result<(&str, String), ParseError>)
    ensures
        match spec_name(input@, 0) {
            Step::Parsed(e, v) => r matches Ok((rest, name)) && rest@ == rest_of(input@, e)
                && name@ == v,
            Step::Failed(k, e) => r matches Err(err) && error_is(err, input@, k, e),
        },
{
    let n = input.unicode_len();
    proof {
        lemma_space_end_bounds(input@, 0);
    }
    match name_at(input, n, 0) {
        Ok((e, name)) => Ok((input.substring_char(e, n), name)),
        Err((k, p)) => Err(error_at(input, n, k, p)),
    }
}

} // verus!
