//! Whole records: `# TYPE` headers, metric samples, and the line classifier.
use vstd::prelude::*;
use vstd::string::*;
use crate::error::{ErrorKind, ParseError, Token};
use crate::labels::{keys_unique, label_map, labels_at, labels_view, spec_labels};
use crate::lex::{
    char_at, error_at, error_is, has_char, has_word, lemma_space_end_bounds, name_at, rest_of,
    skip_space, space_end, spec_name, word_at, PResult, Step,
};
use crate::quoted::{quoted_at, spec_quoted};
use crate::value::{spec_value, value_at, SampleValue, ValueModel};

verus! {

/// The kind of a metric family, as declared by a `# TYPE` line.
#[derive(Debug, Clone, Copy, PartialEq, Eq, Structural)]
pub enum MetricKind {
    Counter,
    Gauge,
    Histogram,
    Summary,
    Untyped,
}

/// A `# TYPE <metric_name> <kind>` declaration.
#[derive(Debug, Clone, PartialEq, Eq)]
pub struct Header {
    pub metric_name: String,
    pub kind: MetricKind,
}

/// One sample: a metric name, its labels (names unique) and its value.
#[derive(Debug, Clone, PartialEq, Eq)]
pub struct Metric {
    pub name: String,
    pub labels: Vec<(String, String)>,
    pub value: SampleValue,
}

/// A line that carries information: a header or a sample.
#[derive(Debug, Clone, PartialEq, Eq)]
pub enum Line {
    Header(Header),
    Metric(Metric),
}

pub struct HeaderModel {
    pub metric_name: Seq<char>,
    pub kind: MetricKind,
}

pub struct MetricModel {
    pub name: Seq<char>,
    pub labels: Map<Seq<char>, Seq<char>>,
    pub value: ValueModel,
}

pub enum LineModel {
    Header(HeaderModel),
    Metric(MetricModel),
}

impl View for Header {
    type V = HeaderModel;

    open spec fn view(&self) -> HeaderModel {
        HeaderModel { metric_name: self.metric_name@, kind: self.kind }
    }
}

impl View for Metric {
    type V = MetricModel;

    open spec fn view(&self) -> MetricModel {
        MetricModel { name: self.name@, labels: label_map(self.labels@), value: self.value@ }
    }
}

impl View for Line {
    type V = LineModel;

    open spec fn view(&self) -> LineModel {
        match self {
            Line::Header(h) => LineModel::Header(h@),
            Line::Metric(m) => LineModel::Metric(m@),
        }
    }
}

/// The keyword that names a metric kind.
pub open spec fn kind_word(k: MetricKind) -> Seq<char> {
    match k {
        MetricKind::Counter => seq!['c', 'o', 'u', 'n', 't', 'e', 'r'],
        MetricKind::Gauge => seq!['g', 'a', 'u', 'g', 'e'],
        MetricKind::Histogram => seq!['h', 'i', 's', 't', 'o', 'g', 'r', 'a', 'm'],
        MetricKind::Summary => seq!['s', 'u', 'm', 'm', 'a', 'r', 'y'],
        MetricKind::Untyped => seq!['u', 'n', 't', 'y', 'p', 'e', 'd'],
    }
}

/// The kind keyword at `b`, if one of the five stands there.
pub open spec fn spec_kind(s: Seq<char>, b: int) -> Step<MetricKind> {
    if word_at(s, b, kind_word(MetricKind::Counter)) {
        Step::Parsed(b + 7, MetricKind::Counter)
    } else if word_at(s, b, kind_word(MetricKind::Gauge)) {
        Step::Parsed(b + 5, MetricKind::Gauge)
    } else if word_at(s, b, kind_word(MetricKind::Summary)) {
        Step::Parsed(b + 7, MetricKind::Summary)
    } else if word_at(s, b, kind_word(MetricKind::Histogram)) {
        Step::Parsed(b + 9, MetricKind::Histogram)
    } else if word_at(s, b, kind_word(MetricKind::Untyped)) {
        Step::Parsed(b + 7, MetricKind::Untyped)
    } else {
        Step::Failed(ErrorKind::UnrecognizedMetricKind, b)
    }
}

/// `# TYPE <name> <kind>`, with optional whitespace before each token.
pub open spec fn spec_header(s: Seq<char>, i: int) -> Step<HeaderModel> {
    let j = space_end(s, i);
    if !char_at(s, j, '#') {
        Step::Failed(ErrorKind::ExpectedToken(Token::Hash), j)
    } else {
        let j2 = space_end(s, j + 1);
        if !word_at(s, j2, seq!['T', 'Y', 'P', 'E']) {
            Step::Failed(ErrorKind::ExpectedToken(Token::Type), j2)
        } else {
            match spec_name(s, j2 + 4) {
                Step::Failed(k, p) => Step::Failed(k, p),
                Step::Parsed(a, name) => match spec_kind(s, space_end(s, a)) {
                    Step::Failed(k, p) => Step::Failed(k, p),
                    Step::Parsed(e, kind) => Step::Parsed(
                        e,
                        HeaderModel { metric_name: name, kind },
                    ),
                },
            }
        }
    }
}

/// A sample: a name, an optional label set and a value; whatever follows
/// the value (a timestamp) is left unconsumed.
pub open spec fn spec_metric(s: Seq<char>, i: int) -> Step<MetricModel> {
    match spec_name(s, i) {
        Step::Failed(k, p) => Step::Failed(k, p),
        Step::Parsed(a, name) => match spec_labels(s, a) {
            Step::Failed(k, p) => Step::Failed(k, p),
            Step::Parsed(b, labels) => match spec_value(s, b) {
                Step::Failed(k, p) => Step::Failed(k, p),
                Step::Parsed(e, value) => Step::Parsed(e, MetricModel { name, labels, value }),
            },
        },
    }
}

fn kind_at(s: &str, n: usize, b: usize) -> (r: PResult<MetricKind>)
    requires
        n == s@.len(),
        b <= n,
    ensures
        match spec_kind(s@, b as int) {
            Step::Parsed(e, v) => r matches Ok((p, kind)) && p == e && kind == v,
            Step::Failed(k, e) => r matches Err((k2, p)) && k2 == k && p == e,
        },
        r matches Ok((p, _)) ==> b <= p <= n,
        r matches Err((_, p)) ==> b <= p <= n,
{
    proof {
        reveal_strlit("counter");
        reveal_strlit("gauge");
        reveal_strlit("summary");
        reveal_strlit("histogram");
        reveal_strlit("untyped");
        assert("counter"@ =~= kind_word(MetricKind::Counter));
        assert("gauge"@ =~= kind_word(MetricKind::Gauge));
        assert("summary"@ =~= kind_word(MetricKind::Summary));
        assert("histogram"@ =~= kind_word(MetricKind::Histogram));
        assert("untyped"@ =~= kind_word(MetricKind::Untyped));
    }
    if has_word(s, n, b, "counter") {
        Ok((b + 7, MetricKind::Counter))
    } else if has_word(s, n, b, "gauge") {
        Ok((b + 5, MetricKind::Gauge))
    } else if has_word(s, n, b, "summary") {
        Ok((b + 7, MetricKind::Summary))
    } else if has_word(s, n, b, "histogram") {
        Ok((b + 9, MetricKind::Histogram))
    } else if has_word(s, n, b, "untyped") {
        Ok((b + 7, MetricKind::Untyped))
    } else {
        Err((ErrorKind::UnrecognizedMetricKind, b))
    }
}

fn header_at(s: &str, n: usize, i: usize) -> (r: PResult<Header>)
    requires
        n == s@.len(),
        i <= n,
    ensures
        match spec_header(s@, i as int) {
            Step::Parsed(e, v) => r matches Ok((p, h)) && p == e && h@ == v,
            Step::Failed(k, e) => r matches Err((k2, p)) && k2 == k && p == e,
        },
        r matches Ok((p, _)) ==> i <= p <= n,
        r matches Err((_, p)) ==> i <= p <= n,
{
    let j = skip_space(s, n, i);
    if !has_char(s, n, j, '#') {
        return Err((ErrorKind::ExpectedToken(Token::Hash), j));
    }
    let j2 = skip_space(s, n, j + 1);
    proof {
        reveal_strlit("TYPE");
        assert("TYPE"@ =~= seq!['T', 'Y', 'P', 'E']);
    }
    if !has_word(s, n, j2, "TYPE") {
        return Err((ErrorKind::ExpectedToken(Token::Type), j2));
    }
    proof {
        lemma_space_end_bounds(s@, j2 + 4);
    }
    let (a, metric_name) = match name_at(s, n, j2 + 4) {
        Ok(x) => x,
        Err(e) => {
            return Err(e);
        },
    };
    let b = skip_space(s, n, a);
    match kind_at(s, n, b) {
        Ok((e, kind)) => Ok((e, Header { metric_name, kind })),
        Err(e) => Err(e),
    }
}

fn metric_at(s: &str, n: usize, i: usize) -> (r: PResult<Metric>)
    requires
        n == s@.len(),
        i <= n,
    ensures
        match spec_metric(s@, i as int) {
            Step::Parsed(e, v) => r matches Ok((p, m)) && p == e && m@ == v && keys_unique(
                labels_view(m.labels@),
            ),
            Step::Failed(k, e) => r matches Err((k2, p)) && k2 == k && p == e,
        },
        r matches Ok((p, _)) ==> i <= p <= n,
        r matches Err((_, p)) ==> i <= p <= n,
{
    proof {
        lemma_space_end_bounds(s@, i as int);
    }
    let (a, name) = match name_at(s, n, i) {
        Ok(x) => x,
        Err(e) => {
            return Err(e);
        },
    };
    let (b, labels) = match labels_at(s, n, a) {
        Ok(x) => x,
        Err(e) => {
            return Err(e);
        },
    };
    match value_at(s, n, b) {
        Ok((e, value)) => Ok((e, Metric { name, labels, value })),
        Err(e) => Err(e),
    }
}

/// Turns the outcome of a rule run on all of `s` into the remaining input
/// and the value, or into an error that reports the remaining input.
fn finish<'a, T>(s: &'a str, n: usize, r: PResult<T>) -> (out: Result<(&'a str, T), ParseError>)
    requires
        n == s@.len(),
        r matches Ok((p, _)) ==> p <= n,
        r matches Err((_, p)) ==> p <= n,
    ensures
        r matches Ok((p, v)) ==> out matches Ok((rest, w)) && rest@ == rest_of(s@, p as int) && w
            == v,
        r matches Err((k, p)) ==> out matches Err(e) && error_is(e, s@, k, p as int),
{
    match r {
        Ok((p, v)) => Ok((s.substring_char(p, n), v)),
        Err((k, p)) => Err(error_at(s, n, k, p)),
    }
}

/// Unicode white space, the characters that `char::is_whitespace` accepts.
pub open spec fn is_white(c: char) -> bool {
    ('\t' <= c && c <= '\r') || c == ' ' || c == '\u{85}' || c == '\u{a0}' || c == '\u{1680}' || (
    '\u{2000}' <= c && c <= '\u{200a}') || c == '\u{2028}' || c == '\u{2029}' || c == '\u{202f}'
        || c == '\u{205f}' || c == '\u{3000}'
}

/// The first position at or after `i` that does not hold white space.
pub open spec fn white_end(s: Seq<char>, i: int) -> int
    decreases s.len() - i,
{
    if 0 <= i < s.len() && is_white(s[i]) {
        white_end(s, i + 1)
    } else {
        i
    }
}

/// The last position at or before `j` that is not preceded by white space.
pub open spec fn white_start(s: Seq<char>, j: int) -> int
    decreases j,
{
    if 0 < j <= s.len() && is_white(s[j - 1]) {
        white_start(s, j - 1)
    } else {
        j
    }
}

/// `s` without the white space at its start and at its end.
pub open spec fn trimmed(s: Seq<char>) -> Seq<char> {
    let a = white_end(s, 0);
    let b = white_start(s, s.len() as int);
    if a < b {
        s.subrange(a, b)
    } else {
        Seq::empty()
    }
}

/// What a whole line holds, given the line without its surrounding white
/// space: nothing when it is empty; else a sample if one parses, else a
/// header if one parses, else nothing when it starts with `#` (a comment);
/// else the failure of the sample grammar.
pub open spec fn spec_line(t: Seq<char>) -> Result<Option<LineModel>, (ErrorKind, int)> {
    if t.len() == 0 {
        Ok(None)
    } else {
        match spec_metric(t, 0) {
            Step::Parsed(_, m) => Ok(Some(LineModel::Metric(m))),
            Step::Failed(k, p) => match spec_header(t, 0) {
                Step::Parsed(_, h) => Ok(Some(LineModel::Header(h))),
                Step::Failed(_, _) => if t[0] == '#' {
                    Ok(None)
                } else {
                    Err((k, p))
                },
            },
        }
    }
}

fn is_white_char(c: char) -> (r: bool)
    ensures
        r == is_white(c),
{
    ('\t' <= c && c <= '\r') || c == ' ' || c == '\u{85}' || c == '\u{a0}' || c == '\u{1680}' || (
    '\u{2000}' <= c && c <= '\u{200a}') || c == '\u{2028}' || c == '\u{2029}' || c == '\u{202f}'
        || c == '\u{205f}' || c == '\u{3000}'
}

/// Removes the white space at both ends of `input`.
fn trim_line(input: &str) -> (r: &str)
    ensures
        r@ == trimmed(input@),
{
    let n = input.unicode_len();
    let mut a: usize = 0;
    while a < n && is_white_char(input.get_char(a))
        invariant
            n == input@.len(),
            a <= n,
            white_end(input@, a as int) == white_end(input@, 0),
        decreases n - a,
    {
        a += 1;
    }
    let mut b: usize = n;
    while b > 0 && is_white_char(input.get_char(b - 1))
        invariant
            n == input@.len(),
            b <= n,
            white_start(input@, b as int) == white_start(input@, n as int),
        decreases b,
    {
        b -= 1;
    }
    if a < b {
        input.substring_char(a, b)
    } else {
        let e = input.substring_char(0, 0);
        assert(e@ =~= Seq::<char>::empty());
        e
    }
}

impl Header {
    /// Parses `# TYPE <metric_name> <kind>` and returns the remaining input
    /// with the header.
    pub fn parse(input: &str) -> (r: Result<(&str, Header), ParseError>)
        ensures
            match spec_header(input@, 0) {
                Step::Parsed(e, v) => r matches Ok((rest, h)) && rest@ == rest_of(input@, e) && h@
                    == v,
                Step::Failed(k, e) => r matches Err(err) && error_is(err, input@, k, e),
            },
    {
        let n = input.unicode_len();
        finish(input, n, header_at(input, n, 0))
    }
}

impl Metric {
    /// Parses a sample line's leading fields, `name [labels] value`, and
    /// returns the unconsumed rest (a timestamp, if any) with the sample.
    pub fn parse(input: &str) -> (r: Result<(&str, Metric), ParseError>)
        ensures
            match spec_metric(input@, 0) {
                Step::Parsed(e, v) => r matches Ok((rest, m)) && rest@ == rest_of(input@, e) && m@
                    == v && keys_unique(labels_view(m.labels@)),
                Step::Failed(k, e) => r matches Err(err) && error_is(err, input@, k, e),
            },
    {
        let n = input.unicode_len();
        finish(input, n, metric_at(input, n, 0))
    }

    /// Lexes a value: `+Inf`, `-Inf`, `Nan` or a decimal literal.
    pub fn parse_value(input: &str) -> (r: Result<(&str, SampleValue), ParseError>)
        ensures
            match spec_value(input@, 0) {
                Step::Parsed(e, v) => r matches Ok((rest, val)) && rest@ == rest_of(input@, e)
                    && val@ == v,
                Step::Failed(k, e) => r matches Err(err) && error_is(err, input@, k, e),
            },
    {
        let n = input.unicode_len();
        finish(input, n, value_at(input, n, 0))
    }

    /// Parses an optional label set `{name="value",...}`.
    pub fn parse_labels(input: &str) -> (r: Result<(&str, Vec<(String, String)>), ParseError>)
        ensures
            match spec_labels(input@, 0) {
                Step::Parsed(e, m) => r matches Ok((rest, ls)) && rest@ == rest_of(input@, e)
                    && label_map(ls@) == m && keys_unique(labels_view(ls@)),
                Step::Failed(k, e) => r matches Err(err) && error_is(err, input@, k, e),
            },
    {
        let n = input.unicode_len();
        finish(input, n, labels_at(input, n, 0))
    }

    /// Lexes a double-quoted string and decodes its escapes.
    pub fn parse_escaped_string(input: &str) -> (r: Result<(&str, String), ParseError>)
        ensures
            match spec_quoted(input@, 0) {
                Step::Parsed(e, v) => r matches Ok((rest, text)) && rest@ == rest_of(input@, e)
                    && text@ == v,
                Step::Failed(k, e) => r matches Err(err) && error_is(err, input@, k, e),
            },
    {
        let n = input.unicode_len();
        finish(input, n, quoted_at(input, n, 0))
    }
}

impl Line {
    /// Parses one line of the exposition format. Returns `None` for a blank
    /// line and for a comment that is not a header.
    pub fn parse(input: &str) -> (r: Result<Option<Line>, ParseError>)
        ensures
            match spec_line(trimmed(input@)) {
                Ok(None) => r matches Ok(None),
                Ok(Some(l)) => r matches Ok(Some(x)) && x@ == l,
                Err((k, p)) => r matches Err(err) && error_is(err, trimmed(input@), k, p),
            },
            r matches Ok(Some(Line::Metric(m))) ==> keys_unique(labels_view(m.labels@)),
    {
        let t = trim_line(input);
        let n = t.unicode_len();
        if n == 0 {
            return Ok(None);
        }
        match metric_at(t, n, 0) {
            Ok((_, m)) => Ok(Some(Line::Metric(m))),
            Err((k, p)) => match header_at(t, n, 0) {
                Ok((_, h)) => Ok(Some(Line::Header(h))),
                Err(_) => {
                    if has_char(t, n, 0, '#') {
                        Ok(None)
                    } else {
                        Err(error_at(t, n, k, p))
                    }
                },
            },
        }
    }
}

} // verus!
