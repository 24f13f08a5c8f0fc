use wattopus::attribution::plan;
use wattopus::attributor::{parse, receive_route, weights, Receive, Weight};
use wattopus::json::Json;

fn text(x: &str) -> Json {
    Json::Str(x.to_string())
}

fn obj(members: Vec<(&str, Json)>) -> Json {
    Json::Object(members.into_iter().map(|(k, v)| (k.to_string(), v)).collect())
}

fn attr(key: &str, value: &str) -> Json {
    obj(vec![("key", text(key)), ("value", obj(vec![("stringValue", text(value))]))])
}

fn resource(service: &str, spans: Vec<Json>) -> Json {
    obj(vec![
        ("resource", obj(vec![("attributes", Json::Array(vec![attr("service.name", service)]))])),
        ("scopeSpans", Json::Array(vec![obj(vec![("spans", Json::Array(spans))])])),
    ])
}

fn otlp() -> Json {
    obj(vec![(
        "resourceSpans",
        Json::Array(vec![
            resource(
                "app-gateway",
                vec![obj(vec![
                    ("traceId", text("t1")),
                    ("spanId", text("a")),
                    ("name", text("GET")),
                    ("attributes", Json::Array(vec![attr("http.route", "/checkout")])),
                    ("startTimeUnixNano", text("0")),
                    ("endTimeUnixNano", text("400000000")),
                ])],
            ),
            resource(
                "app-compute",
                vec![obj(vec![
                    ("traceId", text("t1")),
                    ("spanId", text("b")),
                    ("parentSpanId", text("a")),
                    ("name", text("price")),
                    ("startTimeUnixNano", text("0")),
                    ("endTimeUnixNano", text("100000000")),
                ])],
            ),
        ]),
    )])
}

fn sample_pods() -> Vec<(String, String)> {
    vec![
        ("wattopus".to_string(), "app-gateway-abc".to_string()),
        ("wattopus".to_string(), "app-compute-def".to_string()),
        ("kube-system".to_string(), "coredns-xyz".to_string()),
    ]
}

fn weight_of<'a>(w: &'a [Weight], service: &str, route: &str) -> Option<&'a Weight> {
    w.iter().find(|x| x.service == service && x.route == route)
}

#[test]
fn parse_reads_spans() {
    let spans = parse(&otlp(), "http.route");
    assert_eq!(spans.len(), 2);
    assert_eq!(spans[0].route, "/checkout");
    assert!(spans[0].root);
    assert_eq!(spans[1].service, "app-compute");
    assert!(!spans[1].root);
    assert!((spans[1].busy_nanos as f64 / 1e9 - 0.1).abs() < 1e-9);
}

#[test]
fn root_route_propagates() {
    let w = weights(&parse(&otlp(), "http.route"));
    let e = weight_of(&w, "app-compute", "/checkout").expect("compute credited to the root route");
    assert!((e.busy_nanos as f64 / 1e9 - 0.1).abs() < 1e-9);
}

#[test]
fn weights_have_one_entry_per_service_route() {
    let w = weights(&parse(&otlp(), "http.route"));
    assert_eq!(w.len(), 2);
    assert_eq!(weight_of(&w, "app-gateway", "/checkout").unwrap().busy_nanos, 400_000_000);
    assert!(weight_of(&w, "app-compute", "price").is_none());
}

#[test]
fn spans_of_one_key_add_up() {
    let mut spans = parse(&otlp(), "http.route");
    let mut again = parse(&otlp(), "http.route");
    spans.append(&mut again);
    let w = weights(&spans);
    assert_eq!(w.len(), 2);
    assert_eq!(weight_of(&w, "app-gateway", "/checkout").unwrap().busy_nanos, 800_000_000);
    assert_eq!(weight_of(&w, "app-compute", "/checkout").unwrap().busy_nanos, 200_000_000);
}

#[test]
fn span_without_root_keeps_its_route() {
    let body = obj(vec![(
        "resourceSpans",
        Json::Array(vec![resource(
            "app-store",
            vec![obj(vec![
                ("traceId", text("t9")),
                ("parentSpanId", text("zz")),
                ("name", text("list")),
                ("startTimeUnixNano", Json::PosInt(5)),
                ("endTimeUnixNano", Json::PosInt(25)),
            ])],
        )]),
    )]);
    let spans = parse(&body, "http.route");
    assert_eq!(spans.len(), 1);
    assert_eq!(spans[0].busy_nanos, 20);
    assert_eq!(spans[0].route, "list");
    let w = weights(&spans);
    assert_eq!(weight_of(&w, "app-store", "list").unwrap().busy_nanos, 20);
}

#[test]
fn spans_that_do_not_end_after_start_are_dropped() {
    let body = obj(vec![(
        "resourceSpans",
        Json::Array(vec![resource(
            "svc",
            vec![
                obj(vec![("startTimeUnixNano", text("7")), ("endTimeUnixNano", text("7"))]),
                obj(vec![("startTimeUnixNano", text("9")), ("endTimeUnixNano", text("oops"))]),
            ],
        )]),
    )]);
    assert!(parse(&body, "http.route").is_empty());
}

#[test]
fn resources_without_service_name_are_skipped() {
    let nameless = obj(vec![(
        "scopeSpans",
        Json::Array(vec![obj(vec![(
            "spans",
            Json::Array(vec![obj(vec![("startTimeUnixNano", text("1")), ("endTimeUnixNano", text("2"))])]),
        )])]),
    )]);
    let body = obj(vec![("resourceSpans", Json::Array(vec![nameless]))]);
    assert!(parse(&body, "http.route").is_empty());
    assert!(parse(&Json::Null, "http.route").is_empty());
}

#[test]
fn integer_attribute_values_are_read_as_decimal() {
    let int_attr = obj(vec![("key", text("http.route")), ("value", obj(vec![("intValue", Json::NegInt(-42))]))]);
    let body = obj(vec![(
        "resourceSpans",
        Json::Array(vec![resource(
            "svc",
            vec![obj(vec![
                ("attributes", Json::Array(vec![int_attr])),
                ("startTimeUnixNano", text("+1")),
                ("endTimeUnixNano", text("3")),
            ])],
        )]),
    )]);
    let spans = parse(&body, "http.route");
    assert_eq!(spans.len(), 1);
    assert_eq!(spans[0].route, "-42");
    assert_eq!(spans[0].busy_nanos, 2);
    assert!(spans[0].root);
    assert_eq!(spans[0].trace, "");
}

#[test]
fn unmatched_service_is_unresolved() {
    let w = vec![Weight { service: "ghost".to_string(), route: "/x".to_string(), busy_nanos: 1 }];
    let c = plan(&w, &sample_pods());
    assert_eq!(c.unresolved.len(), 1);
    assert_eq!(c.unresolved[0], "ghost");
    assert!(c.services.is_empty());
    assert_eq!(c.unclaimed, vec![0, 1, 2]);
}

#[test]
fn services_claim_their_pods_and_the_rest_is_unclaimed() {
    let w = weights(&parse(&otlp(), "http.route"));
    let c = plan(&w, &sample_pods());
    assert!(c.unresolved.is_empty());
    assert_eq!(c.unclaimed, vec![2]);
    let gateway = c.services.iter().find(|s| s.service == "app-gateway").unwrap();
    assert_eq!(gateway.pods, vec![0]);
    assert!((gateway.busy_nanos as f64 / 1e9 - 0.4).abs() < 1e-9);
    let compute = c.services.iter().find(|s| s.service == "app-compute").unwrap();
    assert_eq!(compute.pods, vec![1]);
    assert!((compute.busy_nanos as f64 / 1e9 - 0.1).abs() < 1e-9);
    assert_eq!(compute.routes, vec![("/checkout".to_string(), 100_000_000)]);
}

#[test]
fn every_pod_is_claimed_or_unclaimed_once() {
    let w = vec![
        Weight { service: "app".to_string(), route: "/a".to_string(), busy_nanos: 3 },
        Weight { service: "app-gateway".to_string(), route: "/b".to_string(), busy_nanos: 4 },
        Weight { service: "app".to_string(), route: "/c".to_string(), busy_nanos: 5 },
    ];
    let pods = sample_pods();
    let c = plan(&w, &pods);
    assert_eq!(c.services.len(), 2);
    let app = c.services.iter().find(|s| s.service == "app").unwrap();
    assert_eq!(app.pods, vec![0, 1]);
    assert_eq!(app.busy_nanos, 8);
    assert_eq!(app.routes, vec![("/a".to_string(), 3), ("/c".to_string(), 5)]);
    for k in 0..pods.len() {
        let claimed = c.services.iter().any(|s| s.pods.contains(&k));
        assert_ne!(claimed, c.unclaimed.contains(&k));
    }
}

#[test]
fn a_pod_named_exactly_like_the_service_is_claimed() {
    let w = vec![Weight { service: "db".to_string(), route: "/q".to_string(), busy_nanos: 1 }];
    let pods = vec![
        ("ns".to_string(), "db".to_string()),
        ("ns".to_string(), "dbx-1".to_string()),
        ("ns".to_string(), "db-0".to_string()),
    ];
    let c = plan(&w, &pods);
    assert_eq!(c.services[0].pods, vec![0, 2]);
    assert_eq!(c.unclaimed, vec![1]);
}

#[test]
fn receiver_routes() {
    assert_eq!(receive_route(true, "/healthz"), Receive::Health);
    assert_eq!(receive_route(true, "/v1/traces"), Receive::NotFound);
    assert_eq!(receive_route(false, "/v1/traces"), Receive::Traces);
    assert_eq!(receive_route(false, "/healthz"), Receive::NotFound);
}

fn sample_watts() -> Vec<f64> {
    vec![4.0, 2.0, 1.0]
}

#[test]
fn unmatched_service_counts_unresolved() {
    let watts = sample_watts();
    let w = vec![Weight { service: "ghost".to_string(), route: "/x".to_string(), busy_nanos: 1_000_000_000 }];
    let c = plan(&w, &sample_pods());
    assert_eq!(c.unresolved.len(), 1);
    let unattributed: f64 = c.unclaimed.iter().map(|&k| watts[k]).sum();
    assert!((unattributed - 7.0).abs() < 1e-9);
}

#[test]
fn unattributed_detail_sums_to_bucket() {
    let c = plan(&weights(&parse(&otlp(), "http.route")), &sample_pods());
    // the one unclaimed pod is identified, claimed ones are not listed
    assert_eq!(c.unclaimed.len(), 1);
    assert_eq!(sample_pods()[c.unclaimed[0]], ("kube-system".to_string(), "coredns-xyz".to_string()));
    let detail: f64 = c.unclaimed.iter().map(|&k| sample_watts()[k]).sum();
    assert!((detail - 1.0).abs() < 1e-9);
}

#[test]
fn services_report_claimed_pods_and_busy_seconds() {
    let c = plan(&weights(&parse(&otlp(), "http.route")), &sample_pods());
    let gateway = c.services.iter().find(|s| s.service == "app-gateway").unwrap();
    assert_eq!(gateway.pods.len(), 1);
    assert!((gateway.busy_nanos as f64 / 1e9 - 0.4).abs() < 1e-9);
    let compute = c.services.iter().find(|s| s.service == "app-compute").unwrap();
    assert_eq!(compute.pods.len(), 1);
    assert!((compute.busy_nanos as f64 / 1e9 - 0.1).abs() < 1e-9);
}

#[test]
fn attribution_conserves_power() {
    let watts = sample_watts();
    let c = plan(&weights(&parse(&otlp(), "http.route")), &sample_pods());
    assert_eq!(c.unresolved.len(), 0);
    let mut checkout = 0.0;
    let mut total = 0.0;
    for s in &c.services {
        let svc_watts: f64 = s.pods.iter().map(|&k| watts[k]).sum();
        for (route, busy) in &s.routes {
            let share = svc_watts * (*busy as f64) / (s.busy_nanos as f64);
            if route == "/checkout" {
                checkout += share;
            }
            total += share;
        }
    }
    let unattributed: f64 = c.unclaimed.iter().map(|&k| watts[k]).sum();
    total += unattributed;
    assert!((checkout - 6.0).abs() < 1e-9);
    assert!((unattributed - 1.0).abs() < 1e-9);
    let expected: f64 = watts.iter().sum();
    assert!((total - expected).abs() < 1e-9);
}
