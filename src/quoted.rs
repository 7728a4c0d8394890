//! Double-quoted label values with the escapes `\\`, `\"` and `\n`.
use vstd::prelude::*;
use vstd::string::*;
use crate::error::{ErrorKind, Token};
use crate::lex::{char_at, has_char, skip_space, space_end, PResult, Step};

verus! {

/// A character that stands for itself inside a quoted string.
pub open spec fn is_plain(c: char) -> bool {
    c != '"' && c != '\\'
}

/// The character that a backslash followed by `c` stands for, if any.
pub open spec fn unescape(c: char) -> Option<char> {
    if c == 'n' {
        Some('\n')
    } else if c == '"' {
        Some('"')
    } else if c == '\\' {
        Some('\\')
    } else {
        None
    }
}

/// `s` holds a recognised escape at position `k`.
pub open spec fn escape_at(s: Seq<char>, k: int) -> bool {
    char_at(s, k, '\\') && k + 1 < s.len() && unescape(s[k + 1]) is Some
}

/// The position where the body of a quoted string that starts at `k` ends:
/// the first position that holds neither a plain character nor the start of
/// a recognised escape.
pub open spec fn body_end(s: Seq<char>, k: int) -> int
    decreases s.len() - k,
{
    if 0 <= k < s.len() && is_plain(s[k]) {
        body_end(s, k + 1)
    } else if 0 <= k && escape_at(s, k) {
        body_end(s, k + 2)
    } else {
        k
    }
}

/// The decoded text of the body of a quoted string that starts at `k`.
pub open spec fn body_text(s: Seq<char>, k: int) -> Seq<char>
    decreases s.len() - k,
{
    if 0 <= k < s.len() && is_plain(s[k]) {
        seq![s[k]] + body_text(s, k + 1)
    } else if 0 <= k && escape_at(s, k) {
        seq![unescape(s[k + 1])->Some_0] + body_text(s, k + 2)
    } else {
        Seq::empty()
    }
}

/// A quoted string after optional whitespace. A missing opening quote, and a
/// body that stops anywhere but at a closing quote (the end of the input, or
/// a backslash before any other character), are reported as a missing quote.
pub open spec fn spec_quoted(s: Seq<char>, i: int) -> Step<Seq<char>> {
    let j = space_end(s, i);
    if !char_at(s, j, '"') {
        Step::Failed(ErrorKind::ExpectedToken(Token::Quote), j)
    } else {
        let e = body_end(s, j + 1);
        if char_at(s, e, '"') {
            Step::Parsed(e + 1, body_text(s, j + 1))
        } else {
            Step::Failed(ErrorKind::ExpectedToken(Token::Quote), e)
        }
    }
}

pub proof fn lemma_body_end_bounds(s: Seq<char>, k: int)
    requires
        0 <= k <= s.len(),
    ensures
        k <= body_end(s, k) <= s.len(),
    decreases s.len() - k,
{
    if k < s.len() && is_plain(s[k]) {
        lemma_body_end_bounds(s, k + 1);
    } else if escape_at(s, k) {
        lemma_body_end_bounds(s, k + 2);
    }
}

/// The text that a backslash followed by `c` stands for, if it is an escape.
fn escape_text(c: char) -> (r: Option<&'static str>)
    ensures
        r matches Some(t) ==> unescape(c) is Some && t@ == seq![unescape(c)->Some_0],
        r is None ==> unescape(c) is None,
{
    if c == 'n' {
        proof {
            reveal_strlit("\n");
        }
        Some("\n")
    } else if c == '"' {
        proof {
            reveal_strlit("\"");
        }
        Some("\"")
    } else if c == '\\' {
        proof {
            reveal_strlit("\\");
        }
        Some("\\")
    } else {
        None
    }
}

/// Lexes a quoted string at position `i`, after optional whitespace, and
/// decodes its escapes.
pub(crate) fn quoted_at(s: &str, n: usize, i: usize) -> (r: PResult<String>)
    requires
        n == s@.len(),
        i <= n,
    ensures
        match spec_quoted(s@, i as int) {
            Step::Parsed(e, v) => r matches Ok((p, text)) && p == e && text@ == v,
            Step::Failed(k, e) => r matches Err((k2, p)) && k2 == k && p == e,
        },
        r matches Ok((p, _)) ==> i <= p <= n,
        r matches Err((_, p)) ==> i <= p <= n,
{
    let j = skip_space(s, n, i);
    if !has_char(s, n, j, '"') {
        return Err((ErrorKind::ExpectedToken(Token::Quote), j));
    }
    let mut out = String::new();
    let mut k = j + 1;
    let mut stopped = false;
    while k < n && !stopped
        invariant
            n == s@.len(),
            j + 1 <= k <= n,
            body_end(s@, k as int) == body_end(s@, j + 1),
            out@ + body_text(s@, k as int) == body_text(s@, j + 1),
            stopped ==> body_end(s@, k as int) == k && body_text(s@, k as int) == Seq::<char>::empty(),
        decreases n - k + (if stopped { 0int } else { 1int }),
    {
        let c = s.get_char(k);
        if c != '"' && c != '\\' {
            let piece = s.substring_char(k, k + 1);
            assert(piece@ =~= seq![c]);
            assert(out@ + body_text(s@, k as int) =~= (out@ + piece@) + body_text(s@, k + 1));
            out.append(piece);
            k += 1;
        } else {
            let escape = if c == '\\' && k + 1 < n {
                escape_text(s.get_char(k + 1))
            } else {
                None
            };
            match escape {
                Some(lit) => {
                    assert(out@ + body_text(s@, k as int) =~= (out@ + lit@) + body_text(s@, k + 2));
                    out.append(lit);
                    k += 2;
                },
                None => {
                    stopped = true;
                },
            }
        }
    }
    proof {
        lemma_body_end_bounds(s@, j + 1);
        assert(out@ =~= body_text(s@, j + 1));
    }
    if has_char(s, n, k, '"') {
        Ok((k + 1, out))
    } else {
        Err((ErrorKind::ExpectedToken(Token::Quote), k))
    }
}

} // verus!
