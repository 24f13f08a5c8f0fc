use std::sync::atomic::AtomicU64;

use wattopus::attributor::parse;
use wattopus::json::Json;
use wattopus::otlp::{hex, id_from_seed, now_nanos, parse_traceparent, rand_id, traces_url, Span, Tracer};

fn is_lower_hex(s: &str) -> bool {
    s.chars().all(|c| c.is_ascii_digit() || ('a'..='f').contains(&c))
}

#[test]
fn hex_writes_two_lowercase_digits_per_byte() {
    assert_eq!(hex(&[0x00, 0x0f, 0xab, 0xff]), "000fabff");
    assert_eq!(hex(&[]), "");
}

#[test]
fn ids_from_a_seed_are_fixed() {
    // seed 0 starts from state 1: the first xorshift states are
    // 0x4082_2041 and 0x1000_4106_0c01_1441 (low bytes 0x41, 0x41).
    assert_eq!(id_from_seed(0, 2), "4141");
    assert_eq!(id_from_seed(0, 2), id_from_seed(1, 2));
    assert_eq!(id_from_seed(7, 0), "");
}

#[test]
fn rand_id_has_two_hex_digits_per_byte() {
    let counter = AtomicU64::new(0);
    let a = rand_id(16, &counter).expect("clock after the epoch");
    let b = rand_id(8, &counter).expect("clock after the epoch");
    assert_eq!(a.len(), 32);
    assert_eq!(b.len(), 16);
    assert!(is_lower_hex(&a) && is_lower_hex(&b));
}

#[test]
fn traceparent_roundtrips() {
    let t = Tracer::new("app-gateway".to_string());
    let root = t.root("checkout", "/checkout").expect("clock after the epoch");
    assert!(root.parent.is_empty());
    let header = root.traceparent();
    assert_eq!(header, format!("00-{}-{}-01", root.trace_id, root.span_id));
    let (trace, parent) = parse_traceparent(Some(&header)).expect("a tracer's header parses");
    assert_eq!(trace, root.trace_id);
    assert_eq!(parent, root.span_id);
}

#[test]
fn child_continues_the_callers_trace() {
    let gateway = Tracer::new("app-gateway".to_string());
    let compute = Tracer::new("app-compute".to_string());
    let root = gateway.root("checkout", "/checkout").expect("clock after the epoch");
    let child = compute.child("price", "/price", Some(&root.traceparent())).expect("clock after the epoch");
    assert_eq!(child.trace_id, root.trace_id);
    assert_eq!(child.parent, root.span_id);
    assert_eq!(child.service, "app-compute");
    assert_eq!(child.route, "/price");
    assert_eq!(child.span_id.len(), 16);
}

#[test]
fn child_without_valid_header_is_a_root() {
    let t = Tracer::new("svc".to_string());
    for h in [None, Some("garbage"), Some("00-abc-def-01"), Some("00-0123456789abcdef0123456789abcdef-0123456789abcdef")] {
        let s = t.child("n", "/r", h).expect("clock after the epoch");
        assert!(s.parent.is_empty());
        assert_eq!(s.trace_id.len(), 32);
    }
}

#[test]
fn traceparent_checks_field_count_and_byte_lengths() {
    let t32 = "0123456789abcdef0123456789abcdef";
    let s16 = "0123456789abcdef";
    assert_eq!(
        parse_traceparent(Some(&format!("00-{t32}-{s16}-01"))),
        Some((t32.to_string(), s16.to_string()))
    );
    assert_eq!(parse_traceparent(Some(&format!("00-{t32}-{s16}-01-x"))), None);
    assert_eq!(parse_traceparent(Some(&format!("00-{t32}-{s16}"))), None);
    // sixteen two-byte characters are 32 bytes: accepted, as by byte length
    let wide = "éééééééééééééééé";
    assert_eq!(parse_traceparent(Some(&format!("xx-{wide}-{s16}-yy"))), Some((wide.to_string(), s16.to_string())));
    assert_eq!(parse_traceparent(None), None);
}

#[test]
fn exported_span_is_read_back() {
    let span = Span {
        trace_id: "t1".to_string(),
        span_id: "s1".to_string(),
        parent: "p0".to_string(),
        name: "price".to_string(),
        route: "/price".to_string(),
        start: 1_000,
        service: "app-compute".to_string(),
    };
    let spans = parse(&span.export(3_500), "http.route");
    assert_eq!(spans.len(), 1);
    assert_eq!(spans[0].trace, "t1");
    assert_eq!(spans[0].service, "app-compute");
    assert_eq!(spans[0].route, "/price");
    assert!(!spans[0].root);
    assert_eq!(spans[0].busy_nanos, 2_500);
    assert!(parse(&span.export(1_000), "http.route").is_empty());
}

#[test]
fn export_writes_times_as_decimal_strings() {
    let span = Span {
        trace_id: "t".to_string(),
        span_id: "s".to_string(),
        parent: String::new(),
        name: "n".to_string(),
        route: "/r".to_string(),
        start: 340282366920938463463374607431768211455,
        service: "svc".to_string(),
    };
    let j = span.export(0);
    let sp = j.get("resourceSpans").unwrap().at(0).unwrap().get("scopeSpans").unwrap().at(0).unwrap()
        .get("spans").unwrap().at(0).unwrap();
    assert_eq!(sp.get("startTimeUnixNano").unwrap().as_str(), Some("340282366920938463463374607431768211455"));
    assert_eq!(sp.get("endTimeUnixNano").unwrap().as_str(), Some("0"));
    assert!(sp.get("parentSpanId").is_none());
    assert!(matches!(sp.get("attributes"), Some(Json::Array(_))));
}

#[test]
fn clock_reads_after_2020() {
    assert!(now_nanos().expect("clock after the epoch") > 1_577_836_800_000_000_000);
}

#[test]
fn traces_endpoint_drops_trailing_slashes() {
    assert_eq!(traces_url("http://collector:4318"), "http://collector:4318/v1/traces");
    assert_eq!(traces_url("http://collector:4318//"), "http://collector:4318/v1/traces");
    assert_eq!(traces_url(""), "/v1/traces");
}
