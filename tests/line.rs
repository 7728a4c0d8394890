use prometheus_parser::{
    parse_name, ErrorKind, Header, Line, Metric, MetricKind, ParseError, SampleValue,
};
use std::collections::BTreeMap;

fn map_of(pairs: &[(&str, &str)]) -> BTreeMap<String, String> {
    let mut m = BTreeMap::new();
    for (k, v) in pairs {
        m.insert(k.to_string(), v.to_string());
    }
    m
}

fn to_map(labels: &[(String, String)]) -> BTreeMap<String, String> {
    labels.iter().cloned().collect()
}

fn as_f64(v: &SampleValue) -> f64 {
    match v {
        SampleValue::PosInf => f64::INFINITY,
        SampleValue::NegInf => f64::NEG_INFINITY,
        SampleValue::Nan => f64::NAN,
        SampleValue::Number(t) => t.parse::<f64>().unwrap(),
    }
}

fn wrap_quoted(s: &str) -> String {
    format!("  \t \"{}\"  .", s)
}

fn wrap(s: &str) -> String {
    format!("  \t {}  .", s)
}

#[test]
fn test_parse_escaped_string() {
    // parser should not consume more that it needed
    let tail = "  .";

    let input = wrap_quoted("");
    let (left, r) = Metric::parse_escaped_string(&input).unwrap();
    assert_eq!(left, tail);
    assert_eq!(r, "");

    let input = wrap_quoted(r#"a\\ asdf"#);
    let (left, r) = Metric::parse_escaped_string(&input).unwrap();
    assert_eq!(left, tail);
    assert_eq!(r, "a\\ asdf");

    let input = wrap_quoted(r#"\"\""#);
    let (left, r) = Metric::parse_escaped_string(&input).unwrap();
    assert_eq!(left, tail);
    assert_eq!(r, "\"\"");

    let input = wrap_quoted(r#"\"\\\n"#);
    let (left, r) = Metric::parse_escaped_string(&input).unwrap();
    assert_eq!(left, tail);
    assert_eq!(r, "\"\\\n");

    let input = wrap_quoted(r#"\\n"#);
    let (left, r) = Metric::parse_escaped_string(&input).unwrap();
    assert_eq!(left, tail);
    assert_eq!(r, "\\n");

    let input = wrap_quoted(r#"  😂  "#);
    let (left, r) = Metric::parse_escaped_string(&input).unwrap();
    assert_eq!(left, tail);
    assert_eq!(r, "  😂  ");
}

#[test]
fn test_parse_name() {
    let tail = "  .";

    let input = wrap("abc_def");
    let (left, r) = parse_name(&input).unwrap();
    assert_eq!(left, tail);
    assert_eq!(r, "abc_def");

    let input = wrap("__9A0bc_def__");
    let (left, r) = parse_name(&input).unwrap();
    assert_eq!(left, tail);
    assert_eq!(r, "__9A0bc_def__");

    let input = wrap("99");
    assert!(parse_name(&input).is_err());
}

#[test]
fn test_parse_header() {
    let tail = "  .";

    let input = wrap("#  TYPE abc_def counter");
    let (left, r) = Header::parse(&input).unwrap();
    assert_eq!(left, tail);
    assert_eq!(
        r,
        Header {
            metric_name: "abc_def".into(),
            kind: MetricKind::Counter,
        }
    );

    let input = wrap("#TYPE \t abc_def \t gauge");
    let (left, r) = Header::parse(&input).unwrap();
    assert_eq!(left, tail);
    assert_eq!(
        r,
        Header {
            metric_name: "abc_def".into(),
            kind: MetricKind::Gauge,
        }
    );

    let input = wrap("# TYPE abc_def histogram");
    let (left, r) = Header::parse(&input).unwrap();
    assert_eq!(left, tail);
    assert_eq!(
        r,
        Header {
            metric_name: "abc_def".into(),
            kind: MetricKind::Histogram,
        }
    );

    let input = wrap("# TYPE abc_def summary");
    let (left, r) = Header::parse(&input).unwrap();
    assert_eq!(left, tail);
    assert_eq!(
        r,
        Header {
            metric_name: "abc_def".into(),
            kind: MetricKind::Summary,
        }
    );

    let input = wrap("# TYPE abc_def untyped");
    let (left, r) = Header::parse(&input).unwrap();
    assert_eq!(left, tail);
    assert_eq!(
        r,
        Header {
            metric_name: "abc_def".into(),
            kind: MetricKind::Untyped,
        }
    );
}

#[test]
fn test_parse_value() {
    let tail = "  .";

    let input = wrap("+Inf");
    let (left, r) = Metric::parse_value(&input).unwrap();
    assert_eq!(left, tail);
    let r = as_f64(&r);
    assert!(r.is_infinite() && r.is_sign_positive());

    let input = wrap("-Inf");
    let (left, r) = Metric::parse_value(&input).unwrap();
    assert_eq!(left, tail);
    let r = as_f64(&r);
    assert!(r.is_infinite() && r.is_sign_negative());

    let input = wrap("Nan");
    let (left, r) = Metric::parse_value(&input).unwrap();
    assert_eq!(left, tail);
    assert!(as_f64(&r).is_nan());

    let tests = [
        ("0", 0.0),
        ("0.25", 0.25),
        ("-10.25", -10.25),
        ("-10e-25", -10e-25),
        ("-10e+25", -10e+25),
        ("2020", 2020.0),
        ("1.", 1.),
    ];
    for (text, value) in &tests {
        let input = wrap(text);
        let (left, r) = Metric::parse_value(&input).unwrap();
        assert_eq!(left, tail);
        assert_eq!(as_f64(&r), *value);
    }
}

#[test]
fn test_parse_labels() {
    let tail = "  .";

    let input = wrap("{}");
    let (left, r) = Metric::parse_labels(&input).unwrap();
    assert_eq!(left, tail);
    assert_eq!(to_map(&r), map_of(&[]));

    let input = wrap(r#"{name="value"}"#);
    let (left, r) = Metric::parse_labels(&input).unwrap();
    assert_eq!(left, tail);
    assert_eq!(to_map(&r), map_of(&[("name", "value")]));

    let input = wrap(r#"{name="value",}"#);
    let (left, r) = Metric::parse_labels(&input).unwrap();
    assert_eq!(left, tail);
    assert_eq!(to_map(&r), map_of(&[("name", "value")]));

    let input = wrap(r#"{ name = "" ,b="a=b" , a="},", _c = "\""}"#);
    let (left, r) = Metric::parse_labels(&input).unwrap();
    assert_eq!(
        to_map(&r),
        map_of(&[("name", ""), ("a", "},"), ("b", "a=b"), ("_c", "\"")])
    );
    assert_eq!(left, tail);

    let input = wrap("100");
    let (left, r) = Metric::parse_labels(&input).unwrap();
    assert_eq!(left, "100".to_owned() + &tail);
    assert_eq!(to_map(&r), map_of(&[]));

    // We don't allow these values

    let input = wrap(r#"{name="value}"#);
    let result = Metric::parse_labels(&input);
    assert!(
        result.is_err()
            && !matches!(
                result,
                Err(ParseError {
                    kind: ErrorKind::GenericSyntaxError,
                    ..
                })
            )
    );

    let input = wrap(r#"{ a="b" c="d" }"#);
    assert!(Metric::parse_labels(&input).is_err());

    let input = wrap(r#"{ a="b" ,, c="d" }"#);
    assert!(Metric::parse_labels(&input).is_err());
}

#[test]
fn test_parse_line() {
    let input = r##"
            # HELP http_requests_total The total number of HTTP requests.
            # TYPE http_requests_total counter
            http_requests_total{method="post",code="200"} 1027 1395066363000
            http_requests_total{method="post",code="400"}    3 1395066363000

            # Escaping in label values:
            msdos_file_access_time_seconds{path="C:\\DIR\\FILE.TXT",error="Cannot find file:\n\"FILE.TXT\""} 1.458255915e9

            # Minimalistic line:
            metric_without_timestamp_and_labels 12.47

            # A weird metric from before the epoch:
            something_weird{problem="division by zero"} +Inf -3982045

            # A histogram, which has a pretty complex representation in the text format:
            # HELP http_request_duration_seconds A histogram of the request duration.
            # TYPE http_request_duration_seconds histogram
            http_request_duration_seconds_bucket{le="0.05"} 24054
            http_request_duration_seconds_bucket{le="0.1"} 33444
            http_request_duration_seconds_bucket{le="0.2"} 100392
            http_request_duration_seconds_bucket{le="0.5"} 129389
            http_request_duration_seconds_bucket{le="1"} 133988
            http_request_duration_seconds_bucket{le="+Inf"} 144320
            http_request_duration_seconds_sum 53423
            http_request_duration_seconds_count 144320

            # Finally a summary, which has a complex representation, too:
            # HELP rpc_duration_seconds A summary of the RPC duration in seconds.
            # TYPE rpc_duration_seconds summary
            rpc_duration_seconds{quantile="0.01"} 3102
            rpc_duration_seconds{quantile="0.05"} 3272
            rpc_duration_seconds{quantile="0.5"} 4773
            rpc_duration_seconds{quantile="0.9"} 9001
            rpc_duration_seconds{quantile="0.99"} 76656
            rpc_duration_seconds_sum 1.7560473e+07
            rpc_duration_seconds_count 2693
            "##;
    assert!(input.lines().map(Line::parse).all(|r| r.is_ok()));
}
