use prometheus_parser::{
    parse_name, trim_space, ErrorKind, Header, Line, Metric, MetricKind, ParseError, SampleValue,
    Token,
};
use std::collections::BTreeMap;

fn to_map(labels: &[(String, String)]) -> BTreeMap<String, String> {
    labels.iter().cloned().collect()
}

fn kind_of<T>(r: Result<T, ParseError>) -> ErrorKind {
    match r {
        Ok(_) => panic!("expected an error"),
        Err(e) => e.kind,
    }
}

#[test]
fn trim_space_drops_only_leading_blanks() {
    assert_eq!(trim_space(" \t a b "), "a b ");
    assert_eq!(trim_space(""), "");
    assert_eq!(trim_space("\n x"), "\n x");
}

#[test]
fn name_after_blanks_leaves_rest() {
    let (rest, name) = parse_name("\t\t  abc9_x{y").unwrap();
    assert_eq!(name, "abc9_x");
    assert_eq!(rest, "{y");
    let (rest, name) = parse_name("_").unwrap();
    assert_eq!(name, "_");
    assert_eq!(rest, "");
}

#[test]
fn name_errors_report_rest() {
    let err = parse_name("  9abc").unwrap_err();
    assert_eq!(err.kind, ErrorKind::MalformedIdentifier);
    assert_eq!(err.input, "9abc");
    assert_eq!(kind_of(parse_name("")), ErrorKind::MalformedIdentifier);
    assert_eq!(kind_of(parse_name("é")), ErrorKind::MalformedIdentifier);
}

#[test]
fn plain_string_round_trip() {
    let (rest, s) = Metric::parse_escaped_string("\"a b\tc\nd\"xyz").unwrap();
    assert_eq!(s, "a b\tc\nd");
    assert_eq!(rest, "xyz");
}

#[test]
fn escapes_interleaved_with_text() {
    let (rest, s) = Metric::parse_escaped_string(r#""x\ny\\z\"w" tail"#).unwrap();
    assert_eq!(s, "x\ny\\z\"w");
    assert_eq!(rest, " tail");
}

#[test]
fn unknown_escape_fails() {
    let err = Metric::parse_escaped_string(r#""a\tb""#).unwrap_err();
    assert_eq!(err.kind, ErrorKind::ExpectedToken(Token::Quote));
    assert_eq!(err.input, r#"\tb""#);
}

#[test]
fn missing_quotes_fail() {
    let err = Metric::parse_escaped_string("abc").unwrap_err();
    assert_eq!(err.kind, ErrorKind::ExpectedToken(Token::Quote));
    assert_eq!(err.input, "abc");
    let err = Metric::parse_escaped_string("\"abc").unwrap_err();
    assert_eq!(err.kind, ErrorKind::ExpectedToken(Token::Quote));
    assert_eq!(err.input, "");
}

#[test]
fn labels_order_does_not_matter() {
    let (_, a) = Metric::parse_labels(r#"{a="1",b="2"}"#).unwrap();
    let (_, b) = Metric::parse_labels(r#"{b="2",a="1"}"#).unwrap();
    assert_eq!(to_map(&a), to_map(&b));
}

#[test]
fn duplicate_label_last_wins() {
    let (_, ls) = Metric::parse_labels(r#"{a="1",b="2",a="3"}"#).unwrap();
    assert_eq!(ls.len(), 2);
    assert_eq!(to_map(&ls).get("a").unwrap(), "3");
}

#[test]
fn trailing_comma_accepted_missing_brace_reported() {
    let (rest, ls) = Metric::parse_labels(r#"{a="1", } 5"#).unwrap();
    assert_eq!(ls.len(), 1);
    assert_eq!(rest, " 5");
    for text in [r#"{a="1""#, r#"{a="1","#, r#"{a="1" , "#, "{", "{ "] {
        let err = Metric::parse_labels(text).unwrap_err();
        assert_eq!(err.kind, ErrorKind::ExpectedToken(Token::CloseBrace));
        assert_eq!(err.input, "");
    }
}

#[test]
fn label_separator_errors() {
    let err = Metric::parse_labels(r#"{ a="b" c="d" }"#).unwrap_err();
    assert_eq!(err.kind, ErrorKind::GenericSyntaxError);
    assert_eq!(err.input, r#"c="d" }"#);
    assert!(Metric::parse_labels(r#"{ a="b" ,, c="d" }"#).is_err());
    assert_eq!(kind_of(Metric::parse_labels("{,}")), ErrorKind::MalformedIdentifier);
    assert_eq!(kind_of(Metric::parse_labels(r#"{a "1"}"#)), ErrorKind::GenericSyntaxError);
}

#[test]
fn values_and_their_errors() {
    let (rest, v) = Metric::parse_value("-Inf x").unwrap();
    assert_eq!(v, SampleValue::NegInf);
    assert_eq!(rest, " x");
    let (rest, v) = Metric::parse_value(".5e3z").unwrap();
    assert_eq!(v, SampleValue::Number(".5e3z"[..4].to_string()));
    assert_eq!(rest, "z");
    let (rest, v) = Metric::parse_value("1.").unwrap();
    assert_eq!(v, SampleValue::Number("1.".to_string()));
    assert_eq!(rest, "");
    let err = Metric::parse_value("  abc").unwrap_err();
    assert_eq!(err.kind, ErrorKind::MalformedNumericValue);
    assert_eq!(err.input, "abc");
    assert_eq!(kind_of(Metric::parse_value("1e")), ErrorKind::MalformedNumericValue);
    assert_eq!(kind_of(Metric::parse_value("+")), ErrorKind::MalformedNumericValue);
    assert_eq!(kind_of(Metric::parse_value("inf")), ErrorKind::MalformedNumericValue);
}

#[test]
fn header_errors() {
    let err = Header::parse("TYPE a counter").unwrap_err();
    assert_eq!(err.kind, ErrorKind::ExpectedToken(Token::Hash));
    let err = Header::parse("# HELP a counter").unwrap_err();
    assert_eq!(err.kind, ErrorKind::ExpectedToken(Token::Type));
    assert_eq!(err.input, "HELP a counter");
    let err = Header::parse("# TYPE a Counter").unwrap_err();
    assert_eq!(err.kind, ErrorKind::UnrecognizedMetricKind);
    assert_eq!(err.input, "Counter");
    let err = Header::parse("# TYPE 1a counter").unwrap_err();
    assert_eq!(err.kind, ErrorKind::MalformedIdentifier);
}

#[test]
fn line_sample_end_to_end() {
    let line = Line::parse(r#"http_requests_total{method="post",code="200"} 1027 1395066363000"#)
        .unwrap()
        .unwrap();
    match line {
        Line::Metric(m) => {
            assert_eq!(m.name, "http_requests_total");
            let mut expected = BTreeMap::new();
            expected.insert("method".to_string(), "post".to_string());
            expected.insert("code".to_string(), "200".to_string());
            assert_eq!(to_map(&m.labels), expected);
            assert_eq!(m.value, SampleValue::Number("1027".to_string()));
        }
        Line::Header(_) => panic!("expected a sample"),
    }
}

#[test]
fn line_header_end_to_end() {
    let line = Line::parse("# TYPE http_request_duration_seconds histogram").unwrap();
    assert_eq!(
        line,
        Some(Line::Header(Header {
            metric_name: "http_request_duration_seconds".to_string(),
            kind: MetricKind::Histogram,
        }))
    );
}

#[test]
fn line_ignorable() {
    assert_eq!(Line::parse("").unwrap(), None);
    assert_eq!(Line::parse("  \t\u{3000} ").unwrap(), None);
    assert_eq!(Line::parse("# HELP x The help text.").unwrap(), None);
    assert_eq!(Line::parse("#").unwrap(), None);
}

#[test]
fn line_errors_surface_sample_error() {
    let err = Line::parse("  9abc 1  ").unwrap_err();
    assert_eq!(err.kind, ErrorKind::MalformedIdentifier);
    assert_eq!(err.input, "9abc 1");
    let err = Line::parse("abc{a=\"b\" ").unwrap_err();
    assert_eq!(err.kind, ErrorKind::ExpectedToken(Token::CloseBrace));
    let err = Line::parse("abc xyz").unwrap_err();
    assert_eq!(err.kind, ErrorKind::MalformedNumericValue);
    assert_eq!(err.input, "xyz");
}
