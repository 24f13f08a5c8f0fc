//! Reading OTLP/JSON trace exports into spans, and attributing each span's
//! busy time to the route of its trace's root span.
use vstd::prelude::*;
use crate::json::{
    Json, JsonV, array_of, field, jarr, jarr_or_empty, jget, ji64, jstr, ju64, or_null, str_of,
    view_seq, lemma_view_seq, view_json,
};
use crate::text::{
    owned, parse_u128, parse_u128_spec, signed_decimal, signed_decimal_chars, str_eq, string_of,
};

verus! {

broadcast use crate::json::lemma_array_elements;

/// One span of an OTLP export, as the attributor keeps it.
/// `busy_nanos` is the span's duration in nanoseconds.
pub struct Span {
    pub trace: String,
    pub root: bool,
    pub service: String,
    pub route: String,
    pub busy_nanos: u128,
}

/// The model of a span.
pub struct SpanV {
    pub trace: Seq<char>,
    pub root: bool,
    pub service: Seq<char>,
    pub route: Seq<char>,
    pub busy: nat,
}

impl View for Span {
    type V = SpanV;

    open spec fn view(&self) -> SpanV {
        SpanV {
            trace: self.trace@,
            root: self.root,
            service: self.service@,
            route: self.route@,
            busy: self.busy_nanos as nat,
        }
    }
}

/// The models of a sequence of spans.
pub open spec fn spans_view(s: Seq<Span>) -> Seq<SpanV> {
    s.map_values(|x: Span| x@)
}

/// Index of the first attribute record whose `key` is the string `key`.
pub open spec fn first_keyed(a: Seq<JsonV>, key: Seq<char>) -> Option<int>
    decreases a.len(),
{
    if a.len() == 0 {
        None
    } else {
        match first_keyed(a.drop_last(), key) {
            Some(i) => Some(i),
            None => if jget(a.last(), "key"@) == JsonV::Str(key) {
                Some(a.len() - 1)
            } else {
                None
            },
        }
    }
}

/// The `value` of the first record of an attribute list whose `key` is `key`.
pub open spec fn attr_spec(attrs: JsonV, key: Seq<char>) -> Option<JsonV> {
    match jarr(attrs) {
        Some(a) => match first_keyed(a, key) {
            Some(i) => Some(jget(a[i], "value"@)),
            None => None,
        },
        None => None,
    }
}

/// The text of an attribute: its `stringValue`, else its `intValue` given as
/// a string, else its `intValue` given as an integer, written in decimal.
pub open spec fn attr_str_spec(attrs: JsonV, key: Seq<char>) -> Option<Seq<char>> {
    match attr_spec(attrs, key) {
        Some(v) => match jstr(jget(v, "stringValue"@)) {
            Some(s) => Some(s),
            None => match jstr(jget(v, "intValue"@)) {
                Some(s) => Some(s),
                None => match ji64(jget(v, "intValue"@)) {
                    Some(n) => Some(signed_decimal(n as int)),
                    None => None,
                },
            },
        },
        None => None,
    }
}

/// A timestamp in nanoseconds: a decimal string, else a non-negative
/// integer, else zero.
pub open spec fn nano_spec(v: JsonV) -> nat {
    match jstr(v) {
        Some(s) if parse_u128_spec(s) is Some => parse_u128_spec(s).unwrap() as nat,
        _ => match ju64(v) {
            Some(n) => n as nat,
            None => 0,
        },
    }
}

/// A string member, or the empty text.
pub open spec fn str_or_empty(v: JsonV) -> Seq<char> {
    match jstr(v) {
        Some(s) => s,
        None => Seq::empty(),
    }
}

/// The span that one OTLP span record describes, if it ends after it starts.
pub open spec fn span_of(sp: JsonV, service: Seq<char>, route_attr: Seq<char>) -> Option<SpanV> {
    let start = nano_spec(jget(sp, "startTimeUnixNano"@));
    let end = nano_spec(jget(sp, "endTimeUnixNano"@));
    if end <= start {
        None
    } else {
        Some(
            SpanV {
                trace: str_or_empty(jget(sp, "traceId"@)),
                root: match jstr(jget(sp, "parentSpanId"@)) {
                    Some(p) => p.len() == 0,
                    None => true,
                },
                service: service,
                route: match attr_str_spec(jget(sp, "attributes"@), route_attr) {
                    Some(r) => r,
                    None => str_or_empty(jget(sp, "name"@)),
                },
                busy: (end - start) as nat,
            },
        )
    }
}

/// The spans of a list of span records, in order.
pub open spec fn spans_in(sps: Seq<JsonV>, service: Seq<char>, route_attr: Seq<char>) -> Seq<SpanV>
    decreases sps.len(),
{
    if sps.len() == 0 {
        Seq::empty()
    } else {
        spans_in(sps.drop_last(), service, route_attr) + match span_of(
            sps.last(),
            service,
            route_attr,
        ) {
            Some(s) => seq![s],
            None => Seq::empty(),
        }
    }
}

/// The spans of a list of scope records, in order.
pub open spec fn spans_in_scopes(
    scopes: Seq<JsonV>,
    service: Seq<char>,
    route_attr: Seq<char>,
) -> Seq<SpanV>
    decreases scopes.len(),
{
    if scopes.len() == 0 {
        Seq::empty()
    } else {
        spans_in_scopes(scopes.drop_last(), service, route_attr) + spans_in(
            jarr_or_empty(jget(scopes.last(), "spans"@)),
            service,
            route_attr,
        )
    }
}

/// The spans of one resource record: none unless it names its service.
pub open spec fn spans_in_resource(rs: JsonV, route_attr: Seq<char>) -> Seq<SpanV> {
    match attr_str_spec(jget(jget(rs, "resource"@), "attributes"@), "service.name"@) {
        Some(service) => spans_in_scopes(
            jarr_or_empty(jget(rs, "scopeSpans"@)),
            service,
            route_attr,
        ),
        None => Seq::empty(),
    }
}

/// The spans of a list of resource records, in order.
pub open spec fn spans_in_resources(rss: Seq<JsonV>, route_attr: Seq<char>) -> Seq<SpanV>
    decreases rss.len(),
{
    if rss.len() == 0 {
        Seq::empty()
    } else {
        spans_in_resources(rss.drop_last(), route_attr) + spans_in_resource(rss.last(), route_attr)
    }
}

/// The spans of an OTLP/JSON export body.
pub open spec fn parse_spec(body: JsonV, route_attr: Seq<char>) -> Seq<SpanV> {
    spans_in_resources(jarr_or_empty(jget(body, "resourceSpans"@)), route_attr)
}

fn attr<'a>(attrs: Option<&'a Json>, key: &str) -> (r: Option<&'a Json>)
    ensures
        match attr_spec(or_null(attrs), key@) {
            Some(v) => or_null(r) == v,
            None => r is None,
        },
{
    let a = match attrs {
        Some(j) => match j.as_array() {
            Some(a) => a,
            None => return None,
        },
        None => return None,
    };
    let ghost va = view_seq(a@);
    let mut i: usize = 0;
    while i < a.len()
        invariant
            i <= a.len(),
            va == view_seq(a@),
            jarr(or_null(attrs)) == Some(va),
            first_keyed(va.take(i as int), key@) is None,
        decreases a.len() - i,
    {
        let k = a[i].get("key");
        let hit = match k {
            Some(kj) => match kj.as_str() {
                Some(ks) => str_eq(ks, key),
                None => false,
            },
            None => false,
        };
        assert(va.take(i + 1).drop_last() =~= va.take(i as int));
        if hit {
            assert(first_keyed(va.take(i + 1), key@) == Some(i as int));
            proof {
                lemma_first_keyed_extends(va, key@, i + 1);
            }
            return a[i].get("value");
        }
        i += 1;
    }
    assert(va.take(i as int) =~= va);
    None
}

proof fn lemma_first_keyed_extends(a: Seq<JsonV>, key: Seq<char>, n: int)
    requires
        0 <= n <= a.len(),
        first_keyed(a.take(n), key) is Some,
    ensures
        first_keyed(a, key) == first_keyed(a.take(n), key),
    decreases a.len() - n,
{
    if n < a.len() {
        assert(a.take(n + 1).drop_last() =~= a.take(n));
        lemma_first_keyed_extends(a, key, n + 1);
    } else {
        assert(a.take(n) =~= a);
    }
}

fn attr_str(attrs: Option<&Json>, key: &str) -> (r: Option<String>)
    ensures
        match r {
            Some(s) => attr_str_spec(or_null(attrs), key@) == Some(s@),
            None => attr_str_spec(or_null(attrs), key@) is None,
        },
{
    let v = match attr(attrs, key) {
        Some(v) => v,
        None => {
            return None;
        },
    };
    if let Some(s) = str_of(field(Some(v), "stringValue")) {
        return Some(owned(s));
    }
    let iv = field(Some(v), "intValue");
    if let Some(s) = match iv {
        Some(x) => x.as_str(),
        None => None,
    } {
        return Some(owned(s));
    }
    match iv {
        Some(x) => match x.as_i64() {
            Some(n) => Some(string_of(&signed_decimal_chars(n))),
            None => None,
        },
        None => None,
    }
}

fn nano(v: Option<&Json>) -> (r: u128)
    ensures
        r as nat == nano_spec(or_null(v)),
{
    match v {
        Some(j) => {
            if let Some(s) = j.as_str() {
                if let Some(n) = parse_u128(s) {
                    return n;
                }
            }
            match j.as_u64() {
                Some(n) => n as u128,
                None => 0,
            }
        },
        None => 0,
    }
}

fn str_member(j: &Json, key: &str) -> (r: String)
    ensures
        r@ == str_or_empty(jget(j@, key@)),
{
    match j.get(key) {
        Some(x) => match x.as_str() {
            Some(s) => owned(s),
            None => String::new(),
        },
        None => String::new(),
    }
}

fn span_from(sp: &Json, service: &String, route_attr: &str) -> (r: Option<Span>)
    ensures
        match r {
            Some(s) => span_of(sp@, service@, route_attr@) == Some(s@),
            None => span_of(sp@, service@, route_attr@) is None,
        },
{
    let start = nano(sp.get("startTimeUnixNano"));
    let end = nano(sp.get("endTimeUnixNano"));
    if end <= start {
        return None;
    }
    let route = match attr_str(sp.get("attributes"), route_attr) {
        Some(r) => r,
        None => str_member(sp, "name"),
    };
    let root = match sp.get("parentSpanId") {
        Some(p) => match p.as_str() {
            Some(ps) => ps.is_empty(),
            None => true,
        },
        None => true,
    };
    Some(
        Span {
            trace: str_member(sp, "traceId"),
            root,
            service: service.clone(),
            route,
            busy_nanos: end - start,
        },
    )
}

fn push_spans(sps: &Vec<Json>, service: &String, route_attr: &str, out: &mut Vec<Span>)
    ensures
        spans_view(final(out)@) == spans_view(old(out)@) + spans_in(view_seq(sps@), service@, route_attr@),
{
    let ghost vs = view_seq(sps@);
    proof {
        lemma_view_seq(sps@);
    }
    let ghost base = spans_view(out@);
    for i in 0..sps.len()
        invariant
            vs == view_seq(sps@),
            vs.len() == sps@.len(),
            forall|j: int| 0 <= j < sps@.len() ==> #[trigger] vs[j] == view_json(sps@[j]),
            spans_view(out@) == base + spans_in(vs.take(i as int), service@, route_attr@),
    {
        assert(vs.take(i + 1).drop_last() =~= vs.take(i as int));
        assert(vs.take(i + 1).last() == vs[i as int]);
        assert(vs[i as int] == sps@[i as int]@);
        let ghost before = out@;
        match span_from(&sps[i], service, route_attr) {
            Some(s) => {
                out.push(s);
                assert(spans_view(out@) =~= spans_view(before) + seq![s@]);
            },
            None => {},
        }
        assert(spans_view(out@) =~= base + spans_in(vs.take(i + 1), service@, route_attr@));
    }
    assert(vs.take(sps.len() as int) =~= vs);
}

fn push_scopes(scopes: &Vec<Json>, service: &String, route_attr: &str, out: &mut Vec<Span>)
    ensures
        spans_view(final(out)@) == spans_view(old(out)@) + spans_in_scopes(
            view_seq(scopes@),
            service@,
            route_attr@,
        ),
{
    let ghost vs = view_seq(scopes@);
    proof {
        lemma_view_seq(scopes@);
    }
    let ghost base = spans_view(out@);
    for i in 0..scopes.len()
        invariant
            vs == view_seq(scopes@),
            vs.len() == scopes@.len(),
            forall|j: int| 0 <= j < scopes@.len() ==> #[trigger] vs[j] == view_json(scopes@[j]),
            spans_view(out@) == base + spans_in_scopes(vs.take(i as int), service@, route_attr@),
    {
        assert(vs.take(i + 1).drop_last() =~= vs.take(i as int));
        assert(vs.take(i + 1).last() == vs[i as int]);
        assert(vs[i as int] == scopes@[i as int]@);
        match array_of(field(Some(&scopes[i]), "spans")) {
            Some(sps) => push_spans(sps, service, route_attr, out),
            None => {},
        }
        assert(spans_view(out@) =~= base + spans_in_scopes(vs.take(i + 1), service@, route_attr@));
    }
    assert(vs.take(scopes.len() as int) =~= vs);
}

/// The spans of an OTLP/JSON export: one per span record that ends after it
/// starts, in document order, each tagged with the `service.name` of its
/// resource (resources without one are skipped). The route is the span's
/// `route_attr` attribute, else its name; a span is a root when it has no
/// non-empty `parentSpanId`.
pub fn parse(body: &Json, route_attr: &str) -> (out: Vec<Span>)
    ensures
        spans_view(out@) == parse_spec(body@, route_attr@),
{
    let mut out: Vec<Span> = Vec::new();
    let rss = match array_of(field(Some(body), "resourceSpans")) {
        Some(a) => a,
        None => {
            assert(spans_view(out@) =~= Seq::<SpanV>::empty());
            return out;
        },
    };
    let ghost vs = view_seq(rss@);
    proof {
        lemma_view_seq(rss@);
    }
    assert(spans_view(out@) =~= spans_in_resources(vs.take(0), route_attr@));
    for i in 0..rss.len()
        invariant
            vs == view_seq(rss@),
            vs.len() == rss@.len(),
            forall|j: int| 0 <= j < rss@.len() ==> #[trigger] vs[j] == view_json(rss@[j]),
            spans_view(out@) == spans_in_resources(vs.take(i as int), route_attr@),
    {
        assert(vs.take(i + 1).drop_last() =~= vs.take(i as int));
        assert(vs.take(i + 1).last() == vs[i as int]);
        assert(vs[i as int] == rss@[i as int]@);
        let rs = &rss[i];
        let attrs = field(field(Some(rs), "resource"), "attributes");
        match attr_str(attrs, "service.name") {
            Some(service) => {
                match array_of(field(Some(rs), "scopeSpans")) {
                    Some(scopes) => push_scopes(scopes, &service, route_attr, &mut out),
                    None => {
                        assert(spans_in_scopes(Seq::<JsonV>::empty(), service@, route_attr@) =~= Seq::<SpanV>::empty());
                    },
                }
            },
            None => {},
        }
        assert(spans_view(out@) =~= spans_in_resources(vs.take(i + 1), route_attr@));
    }
    assert(vs.take(rss.len() as int) =~= vs);
    out
}

} // verus!

verus! {

/// The busy time that one service spent on one route.
pub struct Weight {
    pub service: String,
    pub route: String,
    pub busy_nanos: u128,
}

/// The route of the last root span of `trace` in `spans`, if it has one.
pub open spec fn root_route(spans: Seq<SpanV>, trace: Seq<char>) -> Option<Seq<char>>
    decreases spans.len(),
{
    if spans.len() == 0 {
        None
    } else if spans.last().root && spans.last().trace == trace {
        Some(spans.last().route)
    } else {
        root_route(spans.drop_last(), trace)
    }
}

/// The route a span's time is credited to: that of its trace's root span in
/// `all`, else its own.
pub open spec fn effective_route(all: Seq<SpanV>, s: SpanV) -> Seq<char> {
    match root_route(all, s.trace) {
        Some(r) => r,
        None => s.route,
    }
}

/// The (service, route) key that a span's time is credited to.
pub open spec fn credit_key(all: Seq<SpanV>, s: SpanV) -> (Seq<char>, Seq<char>) {
    (s.service, effective_route(all, s))
}

/// The total busy time of the spans of `part` credited to `key`.
pub open spec fn busy_for(part: Seq<SpanV>, all: Seq<SpanV>, key: (Seq<char>, Seq<char>)) -> nat
    decreases part.len(),
{
    if part.len() == 0 {
        0
    } else {
        busy_for(part.drop_last(), all, key) + if credit_key(all, part.last()) == key {
            part.last().busy
        } else {
            0
        }
    }
}

/// The key of a weight entry.
pub open spec fn weight_key(w: Weight) -> (Seq<char>, Seq<char>) {
    (w.service@, w.route@)
}

/// A total clamped to what a `u128` holds.
pub open spec fn clamp128(n: nat) -> nat {
    if n <= u128::MAX { n } else { u128::MAX as nat }
}

/// The route recorded for `trace` in a list of (trace, route) pairs.
pub open spec fn lookup_route(roots: Seq<(String, String)>, trace: Seq<char>) -> Option<Seq<char>>
    decreases roots.len(),
{
    if roots.len() == 0 {
        None
    } else if roots.last().0@ == trace {
        Some(roots.last().1@)
    } else {
        lookup_route(roots.drop_last(), trace)
    }
}

proof fn lemma_lookup_route_index(roots: Seq<(String, String)>, trace: Seq<char>)
    ensures
        lookup_route(roots, trace) is Some <==> exists|j: int|
            0 <= j < roots.len() && (#[trigger] roots[j]).0@ == trace,
        (forall|a: int, b: int|
            0 <= a < b < roots.len() ==> (#[trigger] roots[a]).0@ != (#[trigger] roots[b]).0@)
            ==> forall|j: int|
            0 <= j < roots.len() && (#[trigger] roots[j]).0@ == trace ==> lookup_route(roots, trace)
                == Some(roots[j].1@),
    decreases roots.len(),
{
    if roots.len() > 0 {
        lemma_lookup_route_index(roots.drop_last(), trace);
        if exists|j: int| 0 <= j < roots.len() && (#[trigger] roots[j]).0@ == trace {
            let j = choose|j: int| 0 <= j < roots.len() && (#[trigger] roots[j]).0@ == trace;
            if j < roots.len() - 1 {
                assert(roots.drop_last()[j] == roots[j]);
            }
        }
        if exists|j: int| 0 <= j < roots.len() - 1 && (#[trigger] roots.drop_last()[j]).0@ == trace {
            let j = choose|j: int| 0 <= j < roots.len() - 1 && (#[trigger] roots.drop_last()[j]).0@ == trace;
            assert(roots[j] == roots.drop_last()[j]);
        }
    }
}

fn find_trace(roots: &Vec<(String, String)>, trace: &String) -> (r: Option<usize>)
    ensures
        match r {
            Some(j) => j < roots@.len() && roots@[j as int].0@ == trace@,
            None => forall|k: int| 0 <= k < roots@.len() ==> (#[trigger] roots@[k]).0@ != trace@,
        },
{
    let mut j: usize = 0;
    while j < roots.len()
        invariant
            j <= roots.len(),
            forall|k: int| 0 <= k < j ==> (#[trigger] roots@[k]).0@ != trace@,
        decreases roots.len() - j,
    {
        if roots[j].0 == *trace {
            return Some(j);
        }
        j += 1;
    }
    None
}

/// Index of the last root span of each trace, in order of first appearance.
fn root_routes(spans: &Vec<Span>) -> (roots: Vec<(String, String)>)
    ensures
        forall|t: Seq<char>| lookup_route(roots@, t) == root_route(spans_view(spans@), t),
        forall|a: int, b: int|
            0 <= a < b < roots@.len() ==> (#[trigger] roots@[a]).0@ != (#[trigger] roots@[b]).0@,
{
    let ghost all = spans_view(spans@);
    let mut roots: Vec<(String, String)> = Vec::new();
    for i in 0..spans.len()
        invariant
            all == spans_view(spans@),
            forall|t: Seq<char>| lookup_route(roots@, t) == root_route(all.take(i as int), t),
            forall|a: int, b: int|
                0 <= a < b < roots@.len() ==> (#[trigger] roots@[a]).0@ != (#[trigger] roots@[b]).0@,
    {
        assert(all.take(i + 1).drop_last() =~= all.take(i as int));
        assert(all.take(i + 1).last() == spans@[i as int]@);
        let s = &spans[i];
        if s.root {
            let found = find_trace(&roots, &s.trace);
            let ghost old_roots = roots@;
            proof {
                lemma_lookup_route_index(old_roots, s.trace@);
            }
            if let Some(j) = found {
                roots.set(j, (s.trace.clone(), s.route.clone()));
                proof {
                    assert forall|a: int, b: int|
                        0 <= a < b < roots@.len() implies (#[trigger] roots@[a]).0@ != (#[trigger] roots@[b]).0@ by {
                        assert(old_roots[a].0@ != old_roots[b].0@);
                        if a != j && b != j {
                            assert(roots@[a] == old_roots[a]);
                            assert(roots@[b] == old_roots[b]);
                        } else if a == j {
                            assert(roots@[b] == old_roots[b]);
                        } else {
                            assert(roots@[a] == old_roots[a]);
                        }
                    }
                    assert forall|t: Seq<char>| lookup_route(roots@, t) == root_route(all.take(i + 1), t) by {
                        lemma_lookup_route_index(roots@, t);
                        lemma_lookup_route_index(old_roots, t);
                        if t == s.trace@ {
                            assert(roots@[j as int].0@ == t);
                        } else {
                            if exists|k: int| 0 <= k < roots@.len() && (#[trigger] roots@[k]).0@ == t {
                                let k = choose|k: int| 0 <= k < roots@.len() && (#[trigger] roots@[k]).0@ == t;
                                assert(old_roots[k] == roots@[k]);
                            }
                            if exists|k: int| 0 <= k < old_roots.len() && (#[trigger] old_roots[k]).0@ == t {
                                let k = choose|k: int| 0 <= k < old_roots.len() && (#[trigger] old_roots[k]).0@ == t;
                                assert(old_roots[k] == roots@[k]);
                            }
                        }
                    }
                }
            } else {
                roots.push((s.trace.clone(), s.route.clone()));
                proof {
                    assert(roots@.drop_last() =~= old_roots);
                    assert(roots@.last().0@ == s.trace@ && roots@.last().1@ == s.route@);
                    assert forall|t: Seq<char>| lookup_route(roots@, t) == root_route(all.take(i + 1), t) by {
                        assert(lookup_route(old_roots, t) == root_route(all.take(i as int), t));
                    }
                    assert forall|a: int, b: int|
                        0 <= a < b < roots@.len() implies (#[trigger] roots@[a]).0@ != (#[trigger] roots@[b]).0@ by {
                        if b < roots@.len() - 1 {
                            assert(roots@[a] == old_roots[a]);
                            assert(roots@[b] == old_roots[b]);
                        } else {
                            assert(roots@[a] == old_roots[a]);
                        }
                    }
                }
            }
        } else {
            assert forall|t: Seq<char>| lookup_route(roots@, t) == root_route(all.take(i + 1), t) by {
            }
        }
    }
    assert(all.take(spans.len() as int) =~= all);
    roots
}

} // verus!

verus! {

/// Whether some span of `part` is credited to `key`.
pub open spec fn credited(part: Seq<SpanV>, all: Seq<SpanV>, key: (Seq<char>, Seq<char>)) -> bool {
    exists|j: int| 0 <= j < part.len() && credit_key(all, #[trigger] part[j]) == key
}

/// Busy time per (service, route) key that the spans of `all` are credited
/// to, each total clamped to what a `u128` holds.
pub open spec fn weights_spec(all: Seq<SpanV>) -> Map<(Seq<char>, Seq<char>), nat> {
    Map::new(|k: (Seq<char>, Seq<char>)| credited(all, all, k), |k: (Seq<char>, Seq<char>)| clamp128(busy_for(all, all, k)))
}

/// The entries of a weight list as a map from key to busy time.
pub open spec fn weight_map(w: Seq<Weight>) -> Map<(Seq<char>, Seq<char>), nat>
    decreases w.len(),
{
    if w.len() == 0 {
        Map::empty()
    } else {
        weight_map(w.drop_last()).insert(weight_key(w.last()), w.last().busy_nanos as nat)
    }
}

/// Whether no two entries share a key.
pub open spec fn distinct_keys(w: Seq<Weight>) -> bool {
    forall|a: int, b: int|
        0 <= a < b < w.len() ==> weight_key(#[trigger] w[a]) != weight_key(#[trigger] w[b])
}

proof fn lemma_weight_map_entries(w: Seq<Weight>)
    requires
        distinct_keys(w),
    ensures
        forall|k: (Seq<char>, Seq<char>)|
            weight_map(w).dom().contains(k) <==> exists|a: int| 0 <= a < w.len() && weight_key(#[trigger] w[a]) == k,
        forall|a: int| 0 <= a < w.len() ==> weight_map(w)[weight_key(#[trigger] w[a])] == w[a].busy_nanos as nat,
    decreases w.len(),
{
    if w.len() > 0 {
        let p = w.drop_last();
        assert forall|a: int, b: int| 0 <= a < b < p.len() implies weight_key(#[trigger] p[a]) != weight_key(#[trigger] p[b]) by {
            assert(p[a] == w[a] && p[b] == w[b]);
        }
        lemma_weight_map_entries(p);
        assert forall|k: (Seq<char>, Seq<char>)|
            weight_map(w).dom().contains(k) <==> exists|a: int| 0 <= a < w.len() && weight_key(#[trigger] w[a]) == k by {
            if weight_map(w).dom().contains(k) {
                if k != weight_key(w.last()) {
                    assert(weight_map(p).dom().contains(k));
                    let a = choose|a: int| 0 <= a < p.len() && weight_key(#[trigger] p[a]) == k;
                    assert(w[a] == p[a]);
                    assert(weight_key(w[a]) == k);
                } else {
                    assert(weight_key(w[w.len() - 1]) == k);
                }
            }
            if exists|a: int| 0 <= a < w.len() && weight_key(#[trigger] w[a]) == k {
                let a = choose|a: int| 0 <= a < w.len() && weight_key(#[trigger] w[a]) == k;
                if a < p.len() {
                    assert(p[a] == w[a]);
                    assert(weight_key(p[a]) == k);
                    assert(weight_map(p).dom().contains(k));
                }
            }
        }
        assert forall|a: int| 0 <= a < w.len() implies weight_map(w)[weight_key(#[trigger] w[a])] == w[a].busy_nanos as nat by {
            if a < p.len() {
                assert(p[a] == w[a]);
                assert(weight_key(w[a]) != weight_key(w[w.len() - 1]));
            }
        }
    }
}

proof fn lemma_weight_map_update(w: Seq<Weight>, j: int, x: Weight)
    requires
        distinct_keys(w),
        0 <= j < w.len(),
        weight_key(x) == weight_key(w[j]),
    ensures
        weight_map(w.update(j, x)) == weight_map(w).insert(weight_key(x), x.busy_nanos as nat),
    decreases w.len(),
{
    let u = w.update(j, x);
    let p = w.drop_last();
    assert(u.drop_last() =~= if j == w.len() - 1 { p } else { p.update(j, x) });
    if j < w.len() - 1 {
        assert forall|a: int, b: int| 0 <= a < b < p.len() implies weight_key(#[trigger] p[a]) != weight_key(#[trigger] p[b]) by {
            assert(p[a] == w[a] && p[b] == w[b]);
        }
        lemma_weight_map_update(p, j, x);
        assert(weight_key(w.last()) != weight_key(x));
        assert(weight_map(u) =~= weight_map(w).insert(weight_key(x), x.busy_nanos as nat));
    } else {
        assert(weight_map(u) =~= weight_map(w).insert(weight_key(x), x.busy_nanos as nat));
    }
}

proof fn lemma_busy_for_absent(part: Seq<SpanV>, all: Seq<SpanV>, key: (Seq<char>, Seq<char>))
    requires
        !credited(part, all, key),
    ensures
        busy_for(part, all, key) == 0,
    decreases part.len(),
{
    if part.len() > 0 {
        let p = part.drop_last();
        if credited(p, all, key) {
            let j = choose|j: int| 0 <= j < p.len() && credit_key(all, #[trigger] p[j]) == key;
            assert(part[j] == p[j]);
        }
        lemma_busy_for_absent(p, all, key);
    }
}

/// The sum of the busy times of a list of weight entries.
pub open spec fn total_busy(w: Seq<Weight>) -> nat
    decreases w.len(),
{
    if w.len() == 0 {
        0
    } else {
        total_busy(w.drop_last()) + w.last().busy_nanos as nat
    }
}

/// The sum of the busy times of a list of spans.
pub open spec fn span_total(s: Seq<SpanV>) -> nat
    decreases s.len(),
{
    if s.len() == 0 {
        0
    } else {
        span_total(s.drop_last()) + s.last().busy
    }
}

proof fn lemma_total_busy_entry(w: Seq<Weight>, j: int)
    requires
        0 <= j < w.len(),
    ensures
        w[j].busy_nanos as nat <= total_busy(w),
    decreases w.len(),
{
    if j < w.len() - 1 {
        lemma_total_busy_entry(w.drop_last(), j);
        assert(w.drop_last()[j] == w[j]);
    }
}

proof fn lemma_total_busy_update(w: Seq<Weight>, j: int, x: Weight)
    requires
        0 <= j < w.len(),
    ensures
        total_busy(w.update(j, x)) + w[j].busy_nanos as nat == total_busy(w) + x.busy_nanos as nat,
    decreases w.len(),
{
    let u = w.update(j, x);
    if j < w.len() - 1 {
        assert(u.drop_last() =~= w.drop_last().update(j, x));
        lemma_total_busy_update(w.drop_last(), j, x);
        assert(w.drop_last()[j] == w[j]);
    } else {
        assert(u.drop_last() =~= w.drop_last());
    }
}

proof fn lemma_span_total_prefix(s: Seq<SpanV>, i: int)
    requires
        0 <= i <= s.len(),
    ensures
        span_total(s.take(i)) <= span_total(s),
    decreases s.len() - i,
{
    if i < s.len() {
        lemma_span_total_prefix(s, i + 1);
        assert(s.take(i + 1).drop_last() =~= s.take(i));
    } else {
        assert(s.take(i) =~= s);
    }
}

fn find_key(w: &Vec<Weight>, service: &String, route: &String) -> (r: Option<usize>)
    ensures
        match r {
            Some(j) => j < w@.len() && weight_key(w@[j as int]) == (service@, route@),
            None => forall|k: int| 0 <= k < w@.len() ==> weight_key(#[trigger] w@[k]) != (service@, route@),
        },
{
    let mut j: usize = 0;
    while j < w.len()
        invariant
            j <= w.len(),
            forall|k: int| 0 <= k < j ==> weight_key(#[trigger] w@[k]) != (service@, route@),
        decreases w.len() - j,
    {
        if w[j].service == *service && w[j].route == *route {
            return Some(j);
        }
        j += 1;
    }
    None
}

/// The weights of a prefix of the spans.
pub open spec fn partial_weights(part: Seq<SpanV>, all: Seq<SpanV>) -> Map<(Seq<char>, Seq<char>), nat> {
    Map::new(|k: (Seq<char>, Seq<char>)| credited(part, all, k), |k: (Seq<char>, Seq<char>)| clamp128(busy_for(part, all, k)))
}

/// Adds one span's time to its key.
fn credit(w: &mut Vec<Weight>, service: &String, route: String, busy: u128, Ghost(part): Ghost<Seq<SpanV>>, Ghost(all): Ghost<Seq<SpanV>>, Ghost(s): Ghost<SpanV>)
    requires
        distinct_keys(old(w)@),
        weight_map(old(w)@) == partial_weights(part, all),
        credit_key(all, s) == (service@, route@),
        s.busy == busy as nat,
    ensures
        distinct_keys(final(w)@),
        weight_map(final(w)@) == partial_weights(part.push(s), all),
        total_busy(old(w)@) + busy <= u128::MAX ==> total_busy(final(w)@) == total_busy(old(w)@) + busy,
{
    let ghost ck = (service@, route@);
    let ghost old_w = w@;
    proof {
        lemma_weight_map_entries(old_w);
    }
    let ghost target = partial_weights(part.push(s), all);
    assert(part.push(s).drop_last() =~= part);
    assert(part.push(s).last() == s);
    assert forall|k: (Seq<char>, Seq<char>)| k != ck implies credited(part.push(s), all, k) == credited(part, all, k) by {
        if credited(part.push(s), all, k) {
            let j = choose|j: int| 0 <= j < part.push(s).len() && credit_key(all, #[trigger] part.push(s)[j]) == k;
            assert(part.push(s)[j] == part[j]);
        }
        if credited(part, all, k) {
            let j = choose|j: int| 0 <= j < part.len() && credit_key(all, #[trigger] part[j]) == k;
            assert(part.push(s)[j] == part[j]);
        }
    }
    assert(credited(part.push(s), all, ck)) by {
        assert(part.push(s)[part.len() as int] == s);
    }
    match find_key(w, service, &route) {
        Some(j) => {
            let cur = w[j].busy_nanos;
            let next = match cur.checked_add(busy) {
                Some(v) => v,
                None => 340282366920938463463374607431768211455u128,
            };
            let entry = Weight { service: w[j].service.clone(), route: w[j].route.clone(), busy_nanos: next };
            w.set(j, entry);
            proof {
                assert(weight_map(old_w).dom().contains(ck));
                assert(credited(part, all, ck));
                assert(weight_map(old_w)[ck] == cur as nat);
                assert(w@ == old_w.update(j as int, entry));
                lemma_weight_map_update(old_w, j as int, entry);
                lemma_total_busy_entry(old_w, j as int);
                lemma_total_busy_update(old_w, j as int, entry);
                assert forall|a: int, b: int| 0 <= a < b < w@.len() implies weight_key(#[trigger] w@[a]) != weight_key(#[trigger] w@[b]) by {
                    assert(weight_key(old_w[a]) != weight_key(old_w[b]));
                    assert(weight_key(w@[a]) == weight_key(old_w[a]));
                    assert(weight_key(w@[b]) == weight_key(old_w[b]));
                }
                assert(weight_map(w@) =~= target);
            }
        },
        None => {
            proof {
                assert(!weight_map(old_w).dom().contains(ck));
                assert(!credited(part, all, ck));
                lemma_busy_for_absent(part, all, ck);
            }
            w.push(Weight { service: service.clone(), route, busy_nanos: busy });
            proof {
                assert(w@.drop_last() =~= old_w);
                assert(total_busy(w@) == total_busy(old_w) + busy);
                assert forall|a: int, b: int| 0 <= a < b < w@.len() implies weight_key(#[trigger] w@[a]) != weight_key(#[trigger] w@[b]) by {
                    assert(w@[a] == old_w[a]);
                    if b < old_w.len() {
                        assert(w@[b] == old_w[b]);
                    }
                }
                assert(weight_map(w@) =~= target);
            }
        },
    }
}

/// Busy time per (service, route): every span's time is credited to its
/// service and to the route of the last root span of its trace in `spans`,
/// or to its own route when its trace has no root span there. Totals are
/// clamped to what a `u128` holds. Each key appears once.
pub fn weights(spans: &Vec<Span>) -> (w: Vec<Weight>)
    ensures
        distinct_keys(w@),
        weight_map(w@) == weights_spec(spans_view(spans@)),
        span_total(spans_view(spans@)) <= u128::MAX ==> total_busy(w@) == span_total(spans_view(spans@)),
{
    let ghost all = spans_view(spans@);
    let roots = root_routes(spans);
    let mut w: Vec<Weight> = Vec::new();
    assert(weight_map(w@) =~= partial_weights(all.take(0), all));
    for i in 0..spans.len()
        invariant
            all == spans_view(spans@),
            forall|t: Seq<char>| lookup_route(roots@, t) == root_route(all, t),
            forall|a: int, b: int|
                0 <= a < b < roots@.len() ==> (#[trigger] roots@[a]).0@ != (#[trigger] roots@[b]).0@,
            distinct_keys(w@),
            weight_map(w@) == partial_weights(all.take(i as int), all),
            span_total(all) <= u128::MAX ==> total_busy(w@) == span_total(all.take(i as int)),
    {
        let s = &spans[i];
        assert(all.take(i + 1) =~= all.take(i as int).push(s@));
        assert(all.take(i + 1).drop_last() =~= all.take(i as int));
        proof {
            lemma_span_total_prefix(all, i + 1);
        }
        let route = match find_trace(&roots, &s.trace) {
            Some(j) => {
                proof {
                    lemma_lookup_route_index(roots@, s.trace@);
                }
                roots[j].1.clone()
            },
            None => {
                proof {
                    lemma_lookup_route_index(roots@, s.trace@);
                }
                s.route.clone()
            },
        };
        credit(&mut w, &s.service, route, s.busy_nanos, Ghost(all.take(i as int)), Ghost(all), Ghost(s@));
    }
    assert(all.take(spans.len() as int) =~= all);
    w
}

} // verus!

verus! {

/// What a request to the trace receiver asks for.
#[derive(PartialEq, Eq, Structural, Clone, Copy, Debug)]
pub enum Receive {
    /// `GET /healthz`.
    Health,
    /// An OTLP/HTTP export to `/v1/traces`.
    Traces,
    /// Anything else.
    NotFound,
}

/// Routes a request to the trace receiver: a `GET` is a health check when
/// its path is `/healthz`; any other method exports traces to `/v1/traces`.
pub fn receive_route(is_get: bool, path: &str) -> (r: Receive)
    ensures
        r == if is_get {
            if path@ == "/healthz"@ { Receive::Health } else { Receive::NotFound }
        } else if path@ == "/v1/traces"@ {
            Receive::Traces
        } else {
            Receive::NotFound
        },
{
    if is_get {
        if str_eq(path, "/healthz") { Receive::Health } else { Receive::NotFound }
    } else if str_eq(path, "/v1/traces") {
        Receive::Traces
    } else {
        Receive::NotFound
    }
}

} // verus!

verus! {

/// A span record is a root span exactly when it names no parent: its
/// `parentSpanId` is missing, not a string, or the empty string. A record
/// with a non-empty `parentSpanId` is a child span.
pub proof fn lemma_parent_decides_root(sp: JsonV, service: Seq<char>, route_attr: Seq<char>)
    ensures
        span_of(sp, service, route_attr) matches Some(x) ==> x.root == match jget(sp, "parentSpanId"@) {
            JsonV::Str(p) => p.len() == 0,
            _ => true,
        },
        jget(sp, "parentSpanId"@) == JsonV::Str(Seq::<char>::empty()) ==> (span_of(sp, service, route_attr) matches Some(x) ==> x.root),
        jget(sp, "parentSpanId"@) is Null ==> (span_of(sp, service, route_attr) matches Some(x) ==> x.root),
{
}

} // verus!

verus! {

/// Whether a span record names no parent: its `parentSpanId` is missing,
/// not a string, or the empty string.
pub open spec fn names_no_parent(sp: JsonV) -> bool {
    match jget(sp, "parentSpanId"@) {
        JsonV::Str(p) => p.len() == 0,
        _ => true,
    }
}

/// The span record at `c` of scope `b` of resource `a` of an export body.
pub open spec fn record_at(body: JsonV, a: int, b: int, c: int) -> JsonV {
    crate::json::jidx(
        jget(crate::json::jidx(jget(crate::json::jidx(jget(body, "resourceSpans"@), a), "scopeSpans"@), b), "spans"@),
        c,
    )
}

/// Whether a parsed span carries what a span record says of its trace and
/// parenthood.
pub open spec fn carries(x: SpanV, sp: JsonV) -> bool {
    x.root == names_no_parent(sp) && x.trace == str_or_empty(jget(sp, "traceId"@))
}

proof fn lemma_spans_in_source(sps: Seq<JsonV>, service: Seq<char>, route_attr: Seq<char>, k: int) -> (c: int)
    requires
        0 <= k < spans_in(sps, service, route_attr).len(),
    ensures
        0 <= c < sps.len(),
        carries(spans_in(sps, service, route_attr)[k], sps[c]),
    decreases sps.len(),
{
    let prefix = spans_in(sps.drop_last(), service, route_attr);
    if k < prefix.len() {
        let c = lemma_spans_in_source(sps.drop_last(), service, route_attr, k);
        assert(sps.drop_last()[c] == sps[c]);
        c
    } else {
        sps.len() - 1
    }
}

proof fn lemma_scopes_source(scopes: Seq<JsonV>, service: Seq<char>, route_attr: Seq<char>, k: int) -> (bc: (int, int))
    requires
        0 <= k < spans_in_scopes(scopes, service, route_attr).len(),
    ensures
        0 <= bc.0 < scopes.len(),
        0 <= bc.1 < jarr_or_empty(jget(scopes[bc.0], "spans"@)).len(),
        carries(spans_in_scopes(scopes, service, route_attr)[k], jarr_or_empty(jget(scopes[bc.0], "spans"@))[bc.1]),
    decreases scopes.len(),
{
    let prefix = spans_in_scopes(scopes.drop_last(), service, route_attr);
    if k < prefix.len() {
        let bc = lemma_scopes_source(scopes.drop_last(), service, route_attr, k);
        assert(scopes.drop_last()[bc.0] == scopes[bc.0]);
        bc
    } else {
        let b = scopes.len() - 1;
        let c = lemma_spans_in_source(jarr_or_empty(jget(scopes[b], "spans"@)), service, route_attr, k - prefix.len());
        (b, c)
    }
}

proof fn lemma_resources_source(rss: Seq<JsonV>, route_attr: Seq<char>, k: int) -> (abc: (int, int, int))
    requires
        0 <= k < spans_in_resources(rss, route_attr).len(),
    ensures
        0 <= abc.0 < rss.len(),
        0 <= abc.1 < jarr_or_empty(jget(rss[abc.0], "scopeSpans"@)).len(),
        0 <= abc.2 < jarr_or_empty(jget(jarr_or_empty(jget(rss[abc.0], "scopeSpans"@))[abc.1], "spans"@)).len(),
        carries(
            spans_in_resources(rss, route_attr)[k],
            jarr_or_empty(jget(jarr_or_empty(jget(rss[abc.0], "scopeSpans"@))[abc.1], "spans"@))[abc.2],
        ),
    decreases rss.len(),
{
    let prefix = spans_in_resources(rss.drop_last(), route_attr);
    if k < prefix.len() {
        let abc = lemma_resources_source(rss.drop_last(), route_attr, k);
        assert(rss.drop_last()[abc.0] == rss[abc.0]);
        abc
    } else {
        let a = rss.len() - 1;
        let rs = rss[a];
        match attr_str_spec(jget(jget(rs, "resource"@), "attributes"@), "service.name"@) {
            Some(service) => {
                let bc = lemma_scopes_source(jarr_or_empty(jget(rs, "scopeSpans"@)), service, route_attr, k - prefix.len());
                (a, bc.0, bc.1)
            },
            None => {
                assert(false);
                (0, 0, 0)
            },
        }
    }
}

/// Whether an export body has a span record at `c` of scope `b` of
/// resource `a`.
pub open spec fn has_record(body: JsonV, a: int, b: int, c: int) -> bool {
    let rs = crate::json::jidx(jget(body, "resourceSpans"@), a);
    let sc = crate::json::jidx(jget(rs, "scopeSpans"@), b);
    &&& 0 <= a < jarr_or_empty(jget(body, "resourceSpans"@)).len()
    &&& 0 <= b < jarr_or_empty(jget(rs, "scopeSpans"@)).len()
    &&& 0 <= c < jarr_or_empty(jget(sc, "spans"@)).len()
}

/// Every parsed span comes from a span record of the body: it is a root
/// span exactly when that record names no parent (a missing or empty
/// `parentSpanId`), and it has that record's trace.
pub proof fn lemma_parsed_spans_keep_trace_and_parent(body: JsonV, route_attr: Seq<char>, k: int)
    requires
        0 <= k < parse_spec(body, route_attr).len(),
    ensures
        exists|a: int, b: int, c: int|
            #![trigger record_at(body, a, b, c)]
            has_record(body, a, b, c) && carries(parse_spec(body, route_attr)[k], record_at(body, a, b, c)),
{
    let rss = jarr_or_empty(jget(body, "resourceSpans"@));
    let abc = lemma_resources_source(rss, route_attr, k);
    let (a, b, c) = abc;
    let sp = jarr_or_empty(jget(jarr_or_empty(jget(rss[a], "scopeSpans"@))[b], "spans"@))[c];
    assert(record_at(body, a, b, c) == sp);
    assert(has_record(body, a, b, c));
}

} // verus!
