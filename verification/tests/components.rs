use wattopus::demo::{burn, endpoint, eq_ignore_ascii_case, header_value, path_of, price, second_part, Endpoint};
use wattopus::feeder::{
    deployment_facts, deployment_of, layout, node_facts, pod_facts, quantity_parts, service_of, DeploymentFacts, NodeFacts,
    PodFacts, Unit,
};
use wattopus::json::Json;
use wattopus::k8s::{api_base, bearer, into_items, list_path, scale_patch, scale_path};
use wattopus::operator::{route, scale_request, start, step, Action, Event, Outcome, Phase, Route};
use wattopus::predictor::Window;
use wattopus::prom::{escape, exposition, sample_line, samples, type_line, Family};
use wattopus::text::{parse_u128, parse_u64};

fn text(x: &str) -> Json {
    Json::Str(x.to_string())
}

fn obj(members: Vec<(&str, Json)>) -> Json {
    Json::Object(members.into_iter().map(|(k, v)| (k.to_string(), v)).collect())
}

#[test]
fn escape_quotes_and_backslashes() {
    assert_eq!(escape(r#"a"b\c"#), r#"a\"b\\c"#);
    assert_eq!(escape("/checkout"), "/checkout");
    assert_eq!(escape(""), "");
}

#[test]
fn sample_lines_follow_the_exposition_format() {
    let labels = vec![("route".to_string(), "/a\"b".to_string()), ("service".to_string(), "x".to_string())];
    assert_eq!(sample_line("m", &labels, "1.5"), "m{route=\"/a\\\"b\",service=\"x\"} 1.5\n");
    assert_eq!(sample_line("wattopus_unresolved_services", &vec![], "2"), "wattopus_unresolved_services 2\n");
    assert_eq!(type_line("m", "gauge"), "# TYPE m gauge\n");
}

#[test]
fn exposition_writes_each_family_after_its_type_line() {
    let families = vec![
        Family {
            name: "wattopus_route_power_watts".to_string(),
            kind: "gauge".to_string(),
            samples: vec![
                (vec![("route".to_string(), "/checkout".to_string())], "2.5".to_string()),
                (vec![("route".to_string(), "_unattributed".to_string())], "0.5".to_string()),
            ],
        },
        Family { name: "empty".to_string(), kind: "counter".to_string(), samples: vec![] },
        Family {
            name: "wattopus_unresolved_services".to_string(),
            kind: "gauge".to_string(),
            samples: vec![(vec![], "1".to_string())],
        },
    ];
    assert_eq!(
        exposition(&families),
        "# TYPE wattopus_route_power_watts gauge\n\
         wattopus_route_power_watts{route=\"/checkout\"} 2.5\n\
         wattopus_route_power_watts{route=\"_unattributed\"} 0.5\n\
         # TYPE empty counter\n\
         # TYPE wattopus_unresolved_services gauge\n\
         wattopus_unresolved_services 1\n"
    );
    assert_eq!(exposition(&vec![]), "");
}

#[test]
fn instant_query_series_are_read() {
    let series = |ns: &str, pod: &str, v: Json| {
        obj(vec![
            ("metric", obj(vec![("namespace", text(ns)), ("pod", text(pod))])),
            ("value", Json::Array(vec![Json::Float("1.7e9".to_string()), v])),
        ])
    };
    let body = obj(vec![(
        "data",
        obj(vec![(
            "result",
            Json::Array(vec![series("wattopus", "app-abc", text("4.5")), series("kube-system", "", Json::PosInt(3))]),
        )]),
    )]);
    let names = vec!["namespace".to_string(), "pod".to_string(), "container".to_string()];
    let s = samples(&body, &names);
    assert_eq!(s.len(), 2);
    assert_eq!(s[0].labels, vec!["wattopus".to_string(), "app-abc".to_string(), String::new()]);
    assert_eq!(s[0].value, Some("4.5".to_string()));
    assert_eq!(s[1].value, None);
    assert!(samples(&Json::Null, &names).is_empty());
}

#[test]
fn decimal_parsing_matches_std() {
    for t in ["0", "+7", "0012", "340282366920938463463374607431768211455", "", "+", "-1", "1a", " 1", "340282366920938463463374607431768211456"] {
        assert_eq!(parse_u128(t), t.parse::<u128>().ok(), "{t}");
        assert_eq!(parse_u64(t), t.parse::<u64>().ok(), "{t}");
    }
    assert_eq!(parse_u64("18446744073709551616"), None);
    assert_eq!(parse_u64("18446744073709551615"), Some(u64::MAX));
}

#[test]
fn burn_hashes_and_prices() {
    let d0 = burn(0);
    assert_eq!(d0.len(), 64);
    // SHA-256("wattopus") starts with these digits in every run
    assert_eq!(burn(0), d0);
    assert_ne!(burn(1), d0);
    let p = price(&d0);
    assert!((1..=100).contains(&p));
    assert_eq!(p, u32::from_str_radix(&d0[..4], 16).unwrap() % 100 + 1);
}

#[test]
fn price_reads_four_hex_digits() {
    assert_eq!(price("00ff"), 255 % 100 + 1);
    assert_eq!(price("+0FFzz"), 255 % 100 + 1);
    assert_eq!(price("zzzz"), 1);
    assert_eq!(price("ffff"), 65535 % 100 + 1);
    assert_eq!(price("-fff"), 1);
}

#[test]
fn demo_routes() {
    assert_eq!(endpoint("gateway", true, "/checkout"), Endpoint::Checkout);
    assert_eq!(endpoint("gateway", true, "/catalog"), Endpoint::Catalog);
    assert_eq!(endpoint("gateway", true, "/report"), Endpoint::Report);
    assert_eq!(endpoint("compute", true, "/price"), Endpoint::Price);
    assert_eq!(endpoint("compute", true, "/stats"), Endpoint::Stats);
    assert_eq!(endpoint("store", true, "/save"), Endpoint::Save);
    assert_eq!(endpoint("store", true, "/list"), Endpoint::List);
    assert_eq!(endpoint("store", false, "/healthz"), Endpoint::Health);
    assert_eq!(endpoint("gateway", false, "/checkout"), Endpoint::NotFound);
    assert_eq!(endpoint("compute", true, "/checkout"), Endpoint::NotFound);
    assert_eq!(path_of("/save?price=12"), "/save");
    assert_eq!(path_of("/list"), "/list");
    assert_eq!(path_of("?x"), "");
}

#[test]
fn query_value_is_the_text_after_the_marker() {
    assert_eq!(second_part("/save?price=42", "price="), Some("42".to_string()));
    assert_eq!(second_part("/save?price=4&price=5", "price="), Some("4&".to_string()));
    assert_eq!(second_part("/save", "price="), None);
    assert_eq!(second_part("price=", "price="), Some(String::new()));
    assert_eq!(second_part("aaa", "aa"), Some("a".to_string()));
}

#[test]
fn header_names_ignore_ascii_case() {
    assert!(eq_ignore_ascii_case("traceparent", "TraceParent"));
    assert!(!eq_ignore_ascii_case("traceparent", "traceparen"));
    let headers = vec![
        ("Host".to_string(), "x".to_string()),
        ("TRACEPARENT".to_string(), "00-a-b-01".to_string()),
        ("traceparent".to_string(), "second".to_string()),
    ];
    assert_eq!(header_value(&headers, "traceparent"), Some("00-a-b-01".to_string()));
    assert_eq!(header_value(&headers, "accept"), None);
}

fn pod(owners: Vec<Json>) -> Json {
    obj(vec![
        ("metadata", obj(vec![("namespace", text("wattopus")), ("name", text("app-store-5d4-xyz")), ("ownerReferences", Json::Array(owners))])),
        ("spec", obj(vec![
            ("nodeName", text("node-1")),
            ("containers", Json::Array(vec![obj(vec![("name", text("app"))]), obj(vec![("image", text("x"))])])),
        ])),
    ])
}

fn owner(kind: &str, name: &str) -> Json {
    obj(vec![("kind", text(kind)), ("name", text(name))])
}

#[test]
fn deployment_is_the_replicaset_name_before_its_last_dash() {
    assert_eq!(deployment_of(&pod(vec![owner("ReplicaSet", "app-store-5d4")])), "app-store");
    assert_eq!(deployment_of(&pod(vec![owner("StatefulSet", "db-x"), owner("ReplicaSet", "nodash"), owner("ReplicaSet", "web-1")])), "web");
    assert_eq!(deployment_of(&pod(vec![])), "");
    assert_eq!(deployment_of(&Json::Null), "");
}

#[test]
fn pod_and_object_facts() {
    let f = pod_facts(&pod(vec![owner("ReplicaSet", "app-store-5d4")]));
    assert_eq!(f.namespace, "wattopus");
    assert_eq!(f.name, "app-store-5d4-xyz");
    assert_eq!(f.node, "node-1");
    assert_eq!(f.deployment, "app-store");
    assert_eq!(f.containers, vec!["app".to_string(), String::new()]);
    let d = deployment_facts(&obj(vec![
        ("metadata", obj(vec![("namespace", text("ns")), ("name", text("web"))])),
        ("spec", obj(vec![("replicas", Json::PosInt(3))])),
    ]));
    assert_eq!((d.namespace.as_str(), d.name.as_str(), d.replicas), ("ns", "web", 3));
    assert_eq!(deployment_facts(&Json::Null).replicas, 0);
    let s = service_of(&obj(vec![
        ("metadata", obj(vec![("namespace", text("ns")), ("name", text("web-svc"))])),
        ("spec", obj(vec![("selector", obj(vec![("app", text("web"))]))])),
    ]));
    assert_eq!((s.namespace.as_str(), s.name.as_str(), s.deployment.as_str()), ("ns", "web-svc", "web"));
    let n = node_facts(&obj(vec![
        ("metadata", obj(vec![("name", text("n1"))])),
        ("status", obj(vec![("allocatable", obj(vec![("cpu", text("4")), ("memory", text("16Gi"))]))])),
    ]));
    assert_eq!((n.name.as_str(), n.cpu.as_str(), n.memory.as_str(), n.storage.as_str()), ("n1", "4", "16Gi", "0"));
}

fn pod_rec(namespace: &str, name: &str, node: &str, deployment: &str) -> PodFacts {
    PodFacts {
        namespace: namespace.to_string(),
        name: name.to_string(),
        node: node.to_string(),
        deployment: deployment.to_string(),
        containers: Vec::new(),
    }
}

fn node_rec(name: &str) -> NodeFacts {
    NodeFacts { name: name.to_string(), cpu: "0".to_string(), memory: "0".to_string(), storage: "0".to_string() }
}

fn deploy_rec(namespace: &str, name: &str) -> DeploymentFacts {
    DeploymentFacts { namespace: namespace.to_string(), name: name.to_string(), replicas: 1 }
}

#[test]
fn snapshot_groups_pods_by_node_deployment_and_namespace() {
    let pods = vec![
        pod_rec("shop", "web-1", "n1", "web"),
        pod_rec("shop", "web-2", "n2", "web"),
        pod_rec("kube-system", "dns", "n1", ""),
        pod_rec("shop", "web-1", "n2", "web"),
        pod_rec("other", "web-3", "n1", "web"),
    ];
    let nodes = vec![node_rec("n1"), node_rec("n2"), node_rec("n3"), node_rec("n1")];
    let deployments = vec![deploy_rec("shop", "web"), deploy_rec("other", "web"), deploy_rec("kube-system", "")];
    let l = layout(&pods, &nodes, &deployments);
    // The second record of shop/web-1 supersedes the first for node usage.
    assert_eq!(l.node_pods, vec![vec![2, 4], vec![1, 3], vec![], vec![2, 4]]);
    // Deployments count every record in their namespace that names them.
    assert_eq!(l.deployment_pods, vec![vec![0, 1, 3], vec![4], vec![]]);
    assert_eq!(l.namespaces, vec!["shop".to_string(), "kube-system".to_string(), "other".to_string()]);
    assert_eq!(l.namespace_pods, vec![vec![0, 1, 3], vec![2], vec![4]]);
}

#[test]
fn empty_snapshot_has_empty_groups() {
    let l = layout(&Vec::new(), &vec![node_rec("n1")], &vec![deploy_rec("a", "b")]);
    assert_eq!(l.node_pods, vec![Vec::<usize>::new()]);
    assert_eq!(l.deployment_pods, vec![Vec::<usize>::new()]);
    assert!(l.namespaces.is_empty());
    assert!(l.namespace_pods.is_empty());
}

#[test]
fn quantities_split_into_number_and_suffix() {
    assert_eq!(quantity_parts(" 100Mi "), ("100".to_string(), Unit::Mebi));
    assert_eq!(quantity_parts("2Ki"), ("2".to_string(), Unit::Kibi));
    assert_eq!(quantity_parts("3Gi"), ("3".to_string(), Unit::Gibi));
    assert_eq!(quantity_parts("1Ti"), ("1".to_string(), Unit::Tebi));
    assert_eq!(quantity_parts("250m"), ("250".to_string(), Unit::Milli));
    assert_eq!(quantity_parts("4"), ("4".to_string(), Unit::One));
    assert_eq!(quantity_parts("\u{3000}7\t"), ("7".to_string(), Unit::One));
    assert_eq!(quantity_parts(""), (String::new(), Unit::One));
    assert_eq!(quantity_parts("1M"), ("1M".to_string(), Unit::One));
}

#[test]
fn apiserver_requests() {
    assert_eq!(list_path("/api/v1", "pods"), "/api/v1/pods");
    assert_eq!(scale_path("ns", "web"), "/apis/apps/v1/namespaces/ns/deployments/web/scale");
    let p = scale_patch(3);
    assert_eq!(p.get("spec").unwrap().get("replicas").unwrap().as_i64(), Some(3));
    let n = scale_patch(-2);
    assert!(matches!(n.get("spec").unwrap().get("replicas"), Some(Json::NegInt(-2))));
    let items = into_items(obj(vec![("kind", text("PodList")), ("items", Json::Array(vec![text("a"), text("b")]))]));
    assert_eq!(items.len(), 2);
    assert!(into_items(obj(vec![("items", Json::Null)])).is_empty());
    assert!(into_items(Json::Null).is_empty());
    assert_eq!(api_base("10.0.0.1", "443"), "https://10.0.0.1:443");
    assert_eq!(bearer(" abc.def\n"), "Bearer abc.def");
    assert_eq!(bearer(""), "Bearer ");
}

fn run(events: Vec<Event>) -> (Phase, Vec<Action>) {
    let (mut p, a) = start();
    let mut acts = vec![a];
    for e in events {
        let (q, a) = step(p, e);
        p = q;
        acts.push(a);
    }
    (p, acts)
}

#[test]
fn simulation_within_limit_is_applied_and_committed() {
    let (p, acts) = run(vec![Event::Staged { over_limit: false }, Event::Patched, Event::TwinDone]);
    assert!(matches!(p, Phase::Done(Outcome::Applied)));
    assert!(matches!(acts.as_slice(), [Action::Simulate, Action::Patch, Action::Commit, Action::Reply(Outcome::Applied)]));
    assert_eq!(Outcome::Applied.status(), 200);
}

#[test]
fn simulation_over_limit_is_rolled_back() {
    let (p, acts) = run(vec![Event::Staged { over_limit: true }, Event::TwinDone]);
    assert!(matches!(p, Phase::Done(Outcome::OverLimit)));
    assert!(matches!(acts.as_slice(), [Action::Simulate, Action::Rollback, Action::Reply(Outcome::OverLimit)]));
    assert_eq!(Outcome::OverLimit.status(), 409);
}

#[test]
fn failed_scale_is_rolled_back() {
    let (p, acts) = run(vec![Event::Staged { over_limit: false }, Event::PatchFailed("forbidden".to_string()), Event::TwinDone]);
    assert!(matches!(p, Phase::Done(Outcome::ScaleFailed(ref m)) if m == "forbidden"));
    assert!(matches!(acts.as_slice(), [Action::Simulate, Action::Patch, Action::Rollback, Action::Reply(Outcome::ScaleFailed(_))]));
    assert_eq!(Outcome::ScaleFailed(String::new()).status(), 502);
}

#[test]
fn twin_errors_are_answered() {
    let (p, _) = run(vec![Event::TwinFailed("down".to_string())]);
    assert!(matches!(p, Phase::Done(Outcome::TwinError(_))));
    let (p, _) = run(vec![Event::TwinNull]);
    assert!(matches!(p, Phase::Done(Outcome::Unknown)));
    assert_eq!(Outcome::Unknown.status(), 404);
    let (p, _) = run(vec![Event::Undecodable("x".to_string())]);
    assert!(matches!(p, Phase::Done(Outcome::BadShape(_))));
    assert_eq!(Outcome::BadShape(String::new()).status(), 502);
    assert_eq!(Outcome::TwinError(String::new()).status(), 502);
    let (p, acts) = run(vec![Event::Patched]);
    assert!(matches!(p, Phase::Simulating));
    assert!(matches!(acts.as_slice(), [Action::Simulate, Action::Wait]));
}

#[test]
fn simulate_request_body_is_read() {
    let r = scale_request(&obj(vec![("namespace", text("ns")), ("deployment", text("web")), ("replicas", Json::PosInt(4))]));
    assert_eq!((r.namespace.as_str(), r.deployment.as_str(), r.replicas), ("ns", "web", 4));
    let d = scale_request(&Json::Null);
    assert_eq!((d.namespace.as_str(), d.deployment.as_str(), d.replicas), ("", "", 0));
    assert_eq!(route(true, "/simulate"), Route::Simulate);
    assert_eq!(route(false, "/simulate"), Route::NotFound);
    assert_eq!(route(false, "/healthz"), Route::Health);
}

#[test]
fn window_keeps_the_newest_samples() {
    let mut w: Window<u32> = Window::new();
    assert!(w.observe(10, 1, 100, 2));
    assert!(!w.observe(10, 9, 900, 2));
    assert!(!w.observe(5, 9, 900, 2));
    assert!(w.observe(11, 2, 200, 2));
    assert!(w.observe(12, 3, 300, 2));
    assert_eq!(w.cpu, vec![2, 3]);
    assert_eq!(w.joules, vec![200, 300]);
    assert_eq!(w.last_seen, 12);
    let mut z: Window<u32> = Window::new();
    assert!(z.observe(1, 1, 1, 0));
    assert!(z.cpu.is_empty());
}
