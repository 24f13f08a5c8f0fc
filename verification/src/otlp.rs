//! Trace context for served requests: span identifiers, the W3C
//! `traceparent` header, and the OTLP/JSON export record of a finished span.
use std::sync::Arc;
use std::sync::atomic::AtomicU64;
use vstd::prelude::*;
use crate::text::{append_str, decimal, decimal_chars, owned, parts_view, push_char, split_chars, split_on, string_of};
use crate::json::{Json, JsonV, jarr_or_empty, jget, jstr, lemma_view_members, view_members, view_seq};
use crate::attributor::{SpanV, attr_str_spec, parse_spec, span_of, spans_in, spans_in_resource, spans_in_resources, spans_in_scopes};
use vstd::utf8::encode_utf8;

verus! {

/// `std::time::SystemTime`, a clock reading, carried through opaquely.
#[verifier::external_type_specification]
#[verifier::external_body]
pub struct ExSystemTime(std::time::SystemTime);

/// `std::time::SystemTime::now`: a reading of the machine's clock. Nothing
/// is stated of it.
#[verifier::external_body]
fn system_now() -> std::time::SystemTime {
    std::time::SystemTime::now()
}

/// `SystemTime::duration_since` with `UNIX_EPOCH`: the time elapsed since
/// the Unix epoch, or `None` (its error) when the reading is earlier than
/// the epoch. Nothing is stated of which, as it depends on the clock.
#[verifier::external_body]
fn since_epoch(t: &std::time::SystemTime) -> Option<std::time::Duration> {
    t.duration_since(std::time::UNIX_EPOCH).ok()
}

/// `Duration::as_nanos`: the whole nanoseconds of a duration. Nothing is
/// stated of the value, as the duration is opaque here.
#[verifier::external_body]
fn duration_nanos(d: &std::time::Duration) -> u128 {
    d.as_nanos()
}

/// The current time in nanoseconds since the Unix epoch, or `None` when
/// the clock reads earlier than the epoch and so has no such value. Nothing
/// is stated of which: it is the machine's clock.
pub fn now_nanos() -> Option<u128> {
    match since_epoch(&system_now()) {
        Some(d) => Some(duration_nanos(&d)),
        None => None,
    }
}

/// The lowercase hexadecimal digit of a value below sixteen.
pub open spec fn hex_char(v: nat) -> char {
    if v == 0 { '0' } else if v == 1 { '1' } else if v == 2 { '2' } else if v == 3 { '3' } else if v == 4 { '4' } else if v == 5 { '5' } else if v == 6 { '6' } else if v == 7 { '7' } else if v == 8 { '8' } else if v == 9 { '9' } else if v == 10 { 'a' } else if v == 11 { 'b' } else if v == 12 { 'c' } else if v == 13 { 'd' } else if v == 14 { 'e' } else { 'f' }
}

/// The two lowercase hexadecimal digits of each byte, in order.
pub open spec fn hex_spec(bytes: Seq<u8>) -> Seq<char>
    decreases bytes.len(),
{
    if bytes.len() == 0 {
        Seq::empty()
    } else {
        hex_spec(bytes.drop_last()) + seq![
            hex_char((bytes.last() / 16) as nat),
            hex_char((bytes.last() % 16) as nat),
        ]
    }
}

fn hex_digit(v: u8) -> (c: char)
    requires
        v < 16,
    ensures
        c == hex_char(v as nat),
{
    if v == 0 { '0' } else if v == 1 { '1' } else if v == 2 { '2' } else if v == 3 { '3' } else if v == 4 { '4' } else if v == 5 { '5' } else if v == 6 { '6' } else if v == 7 { '7' } else if v == 8 { '8' } else if v == 9 { '9' } else if v == 10 { 'a' } else if v == 11 { 'b' } else if v == 12 { 'c' } else if v == 13 { 'd' } else if v == 14 { 'e' } else { 'f' }
}

/// Lowercase hexadecimal text of `bytes`, two digits per byte.
pub fn hex(bytes: &[u8]) -> (r: String)
    ensures
        r@ == hex_spec(bytes@),
{
    let mut r = String::new();
    for i in 0..bytes.len()
        invariant
            r@ == hex_spec(bytes@.take(i as int)),
    {
        let b = bytes[i];
        assert(bytes@.take(i + 1).drop_last() =~= bytes@.take(i as int));
        push_char(&mut r, hex_digit(b / 16));
        push_char(&mut r, hex_digit(b % 16));
        assert(r@ =~= hex_spec(bytes@.take(i + 1)));
    }
    assert(bytes@.take(bytes.len() as int) =~= bytes@);
    r
}

/// One xorshift step.
pub open spec fn xorshift(x: u64) -> u64 {
    let a = x ^ (x << 13u64);
    let b = a ^ (a >> 7u64);
    b ^ (b << 17u64)
}

/// The generator state after `k` steps from `x`.
pub open spec fn xorshift_iter(x: u64, k: nat) -> u64
    decreases k,
{
    if k == 0 {
        x
    } else {
        xorshift(xorshift_iter(x, (k - 1) as nat))
    }
}

/// The `n` bytes generated from `seed`: the low byte of each of the first
/// `n` states after the seed with its low bit set.
pub open spec fn id_bytes(seed: u64, n: nat) -> Seq<u8> {
    Seq::new(n, |i: int| (xorshift_iter(seed | 1u64, (i + 1) as nat) & 0xffu64) as u8)
}

fn step(x: u64) -> (r: u64)
    ensures
        r == xorshift(x),
{
    let mut y = x;
    y ^= y << 13u64;
    y ^= y >> 7u64;
    y ^= y << 17u64;
    y
}

/// The identifier of `n` random bytes generated from `seed`, in lowercase
/// hexadecimal.
pub fn id_from_seed(seed: u64, n: usize) -> (r: String)
    ensures
        r@ == hex_spec(id_bytes(seed, n as nat)),
{
    let mut x = seed | 1u64;
    let mut out: Vec<u8> = Vec::new();
    for i in 0..n
        invariant
            x == xorshift_iter(seed | 1u64, i as nat),
            out@ =~= id_bytes(seed, i as nat),
    {
        x = step(x);
        let b = (x & 0xffu64) as u8;
        out.push(b);
    }
    hex(out.as_slice())
}

/// The clock's nanoseconds since the epoch, cut to their low 64 bits, or
/// `None` when the clock reads earlier than the epoch. Nothing is stated of
/// the value: it is the machine's clock.
#[verifier::truncate]
fn clock_seed() -> Option<u64> {
    match now_nanos() {
        Some(t) => Some(t as u64),
        None => None,
    }
}

/// Advances the shared counter and returns the value it held before.
/// Nothing is stated of that value: it depends on the other calls that
/// share the counter, and vstd states no value of an atomic.
fn tick(counter: &AtomicU64) -> u64 {
    counter.fetch_add(0x9e3779b9u64, std::sync::atomic::Ordering::Relaxed)
}

/// A fresh identifier of `n` random bytes in lowercase hexadecimal, seeded
/// from the clock and the shared `counter`, which each call advances; `None`
/// when the clock reads earlier than the Unix epoch, before the counter is
/// touched.
pub fn rand_id(n: usize, counter: &AtomicU64) -> (r: Option<String>)
    ensures
        r matches Some(s) ==> exists|seed: u64| s@ == hex_spec(#[trigger] id_bytes(seed, n as nat)),
{
    let clock = match clock_seed() {
        Some(c) => c,
        None => return None,
    };
    let seed = clock ^ tick(counter);
    let r = id_from_seed(seed, n);
    assert(r@ == hex_spec(id_bytes(seed, n as nat)));
    Some(r)
}

} // verus!

verus! {

/// The length in bytes of a text encoded in UTF-8.
pub open spec fn utf8_len(s: Seq<char>) -> nat {
    encode_utf8(s).len()
}

/// The text of an optional string slice.
pub open spec fn opt_text(h: Option<&str>) -> Option<Seq<char>> {
    match h {
        Some(x) => Some(x@),
        None => None,
    }
}

/// The W3C `traceparent` header value for a trace and span identifier.
pub open spec fn traceparent_spec(trace_id: Seq<char>, span_id: Seq<char>) -> Seq<char> {
    seq!['0', '0', '-'] + trace_id + seq!['-'] + span_id + seq!['-', '0', '1']
}

/// The (trace id, parent span id) that a `traceparent` header carries: its
/// `-`-separated fields must be four, the second 32 bytes long and the third
/// 16 bytes long.
pub open spec fn parse_traceparent_spec(h: Option<Seq<char>>) -> Option<(Seq<char>, Seq<char>)> {
    match h {
        Some(s) => {
            let parts = split_on(s, '-');
            if parts.len() == 4 && utf8_len(parts[1]) == 32 && utf8_len(parts[2]) == 16 {
                Some((parts[1], parts[2]))
            } else {
                None
            }
        },
        None => None,
    }
}

/// Reads the trace and parent span identifiers from a W3C `traceparent`
/// header.
pub fn parse_traceparent(h: Option<&str>) -> (r: Option<(String, String)>)
    ensures
        match r {
            Some((t, p)) => parse_traceparent_spec(opt_text(h)) == Some((t@, p@)),
            None => parse_traceparent_spec(opt_text(h)) is None,
        },
{
    let h = match h {
        Some(x) => x,
        None => return None,
    };
    let parts = split_chars(h, '-');
    proof {
        assert(parts_view(parts@).len() == parts@.len());
    }
    if parts.len() != 4 {
        return None;
    }
    let trace = string_of(&parts[1]);
    let parent = string_of(&parts[2]);
    assert(parts_view(parts@)[1] == parts@[1]@);
    assert(parts_view(parts@)[2] == parts@[2]@);
    if trace.as_str().as_bytes().len() == 32 && parent.as_str().as_bytes().len() == 16 {
        Some((trace, parent))
    } else {
        None
    }
}

/// A span of a served request: its trace and own identifiers, the
/// identifier of its parent span (empty for a root span), what it was named
/// and which route it served, when it started, and which service ran it.
pub struct Span {
    pub trace_id: String,
    pub span_id: String,
    pub parent: String,
    pub name: String,
    pub route: String,
    pub start: u128,
    pub service: String,
}

impl Span {
    /// The W3C `traceparent` header that makes the callee's spans children
    /// of this one.
    pub fn traceparent(&self) -> (r: String)
        ensures
            r@ == traceparent_spec(self.trace_id@, self.span_id@),
    {
        let mut r = String::new();
        push_char(&mut r, '0');
        push_char(&mut r, '0');
        push_char(&mut r, '-');
        append_str(&mut r, self.trace_id.as_str());
        push_char(&mut r, '-');
        append_str(&mut r, self.span_id.as_str());
        push_char(&mut r, '-');
        push_char(&mut r, '0');
        push_char(&mut r, '1');
        assert(r@ =~= traceparent_spec(self.trace_id@, self.span_id@));
        r
    }
}

/// Whether a text is an identifier of `n` random bytes.
pub open spec fn is_id(s: Seq<char>, n: nat) -> bool {
    exists|seed: u64| s == hex_spec(#[trigger] id_bytes(seed, n))
}

/// Creates the spans of one service. Clones share the identifier counter.
pub struct Tracer {
    service: String,
    ids: Arc<AtomicU64>,
}

impl Clone for Tracer {
    fn clone(&self) -> (r: Self)
        ensures
            r.service_name() == self.service_name(),
    {
        Tracer { service: self.service.clone(), ids: Arc::clone(&self.ids) }
    }
}

impl Tracer {
    /// The name of the service whose spans this tracer creates.
    pub closed spec fn service_name(&self) -> Seq<char> {
        self.service@
    }

    /// A tracer for the named service.
    pub fn new(service: String) -> (t: Tracer)
        ensures
            t.service_name() == service@,
    {
        Tracer { service, ids: Arc::new(AtomicU64::new(0)) }
    }

    fn span(&self, name: &str, route: &str, trace_id: String, parent: String) -> (r: Option<Span>)
        ensures
            r matches Some(s) ==> {
                &&& s.trace_id == trace_id
                &&& s.parent == parent
                &&& is_id(s.span_id@, 8)
                &&& s.name@ == name@
                &&& s.route@ == route@
                &&& s.service@ == self.service_name()
            },
    {
        let span_id = match rand_id(8, &self.ids) {
            Some(id) => id,
            None => return None,
        };
        let start = match now_nanos() {
            Some(t) => t,
            None => return None,
        };
        Some(Span {
            trace_id,
            span_id,
            parent,
            name: owned(name),
            route: owned(route),
            start,
            service: self.service.clone(),
        })
    }

    /// A root span: a new trace, no parent; `None` when the clock reads
    /// earlier than the Unix epoch.
    pub fn root(&self, name: &str, route: &str) -> (r: Option<Span>)
        ensures
            r matches Some(s) ==> {
                &&& is_id(s.trace_id@, 16)
                &&& is_id(s.span_id@, 8)
                &&& s.parent@ == Seq::<char>::empty()
                &&& s.name@ == name@
                &&& s.route@ == route@
                &&& s.service@ == self.service_name()
            },
    {
        let trace_id = match rand_id(16, &self.ids) {
            Some(id) => id,
            None => return None,
        };
        self.span(name, route, trace_id, String::new())
    }

    /// A span that continues the trace of an incoming `traceparent` header
    /// when it carries one, else a root span; `None` when the clock reads
    /// earlier than the Unix epoch.
    pub fn child(&self, name: &str, route: &str, traceparent: Option<&str>) -> (r: Option<Span>)
        ensures
            r matches Some(s) ==> {
                &&& is_id(s.span_id@, 8)
                &&& s.name@ == name@
                &&& s.route@ == route@
                &&& s.service@ == self.service_name()
                &&& match parse_traceparent_spec(opt_text(traceparent)) {
                    Some((t, p)) => s.trace_id@ == t && s.parent@ == p,
                    None => is_id(s.trace_id@, 16) && s.parent@ == Seq::<char>::empty(),
                }
            },
    {
        match parse_traceparent(traceparent) {
            Some((trace_id, parent)) => self.span(name, route, trace_id, parent),
            None => self.root(name, route),
        }
    }
}

} // verus!

verus! {

/// Hexadecimal text has two digits per byte, each `0`-`9` or `a`-`f`.
pub proof fn lemma_hex_spec_shape(bytes: Seq<u8>)
    ensures
        hex_spec(bytes).len() == 2 * bytes.len(),
        forall|i: int| 0 <= i < hex_spec(bytes).len() ==> ('0' <= #[trigger] hex_spec(bytes)[i] <= '9' || 'a' <= hex_spec(bytes)[i] <= 'f'),
    decreases bytes.len(),
{
    if bytes.len() > 0 {
        lemma_hex_spec_shape(bytes.drop_last());
        let p = hex_spec(bytes.drop_last());
        let hi = hex_char((bytes.last() / 16) as nat);
        let lo = hex_char((bytes.last() % 16) as nat);
        assert forall|i: int| 0 <= i < hex_spec(bytes).len() implies ('0' <= #[trigger] hex_spec(bytes)[i] <= '9' || 'a' <= hex_spec(bytes)[i] <= 'f') by {
            if i < p.len() {
                assert(hex_spec(bytes)[i] == p[i]);
            }
        }
    }
}

/// An identifier of `n` random bytes is `2n` hexadecimal digits: ASCII, as
/// many bytes as characters, and without `-`.
pub proof fn lemma_id_shape(s: Seq<char>, n: nat)
    requires
        is_id(s, n),
    ensures
        s.len() == 2 * n,
        utf8_len(s) == 2 * n,
        !s.contains('-'),
{
    let seed = choose|seed: u64| s == hex_spec(#[trigger] id_bytes(seed, n));
    lemma_hex_spec_shape(id_bytes(seed, n));
    assert(vstd::utf8::is_ascii_chars(s));
    vstd::utf8::is_ascii_chars_encode_utf8(s);
    if s.contains('-') {
        let i = choose|i: int| 0 <= i < s.len() && s[i] == '-';
        assert('0' <= s[i] <= '9' || 'a' <= s[i] <= 'f');
    }
}

/// The header of a span is read back as that span's trace and span
/// identifiers, so a callee's span continues the caller's trace with the
/// caller's span as parent.
pub proof fn lemma_traceparent_roundtrip(trace_id: Seq<char>, span_id: Seq<char>)
    requires
        is_id(trace_id, 16),
        is_id(span_id, 8),
    ensures
        parse_traceparent_spec(Some(traceparent_spec(trace_id, span_id))) == Some((trace_id, span_id)),
{
    lemma_id_shape(trace_id, 16);
    lemma_id_shape(span_id, 8);
    let z: Seq<char> = seq!['0', '0'];
    let o: Seq<char> = seq!['0', '1'];
    assert(!z.contains('-')) by {
        if z.contains('-') {
            let i = choose|i: int| 0 <= i < z.len() && z[i] == '-';
        }
    }
    assert(!o.contains('-')) by {
        if o.contains('-') {
            let i = choose|i: int| 0 <= i < o.len() && o[i] == '-';
        }
    }
    let e: Seq<char> = Seq::empty();
    let d: Seq<char> = seq!['-'];
    crate::text::lemma_split_on_append_plain(e, z, '-');
    assert(e + z =~= z);
    assert(split_on(e, '-') =~= seq![e]);
    assert(split_on(z, '-') =~= seq![z]);
    crate::text::lemma_split_on_append_sep(z, '-');
    let a1 = z + d;
    crate::text::lemma_split_on_append_plain(a1, trace_id, '-');
    let a2 = a1 + trace_id;
    assert(split_on(a2, '-') =~= seq![z, trace_id]);
    crate::text::lemma_split_on_append_sep(a2, '-');
    let a3 = a2 + d;
    crate::text::lemma_split_on_append_plain(a3, span_id, '-');
    let a4 = a3 + span_id;
    assert(split_on(a4, '-') =~= seq![z, trace_id, span_id]);
    crate::text::lemma_split_on_append_sep(a4, '-');
    let a5 = a4 + d;
    crate::text::lemma_split_on_append_plain(a5, o, '-');
    let a6 = a5 + o;
    assert(split_on(a6, '-') =~= seq![z, trace_id, span_id, o]);
    assert(a6 =~= traceparent_spec(trace_id, span_id));
}

} // verus!

verus! {

/// An object member.
pub open spec fn mem(key: Seq<char>, v: JsonV) -> (Seq<char>, JsonV) {
    (key, v)
}

/// A string attribute record of OTLP: `{"key": k, "value": {"stringValue": v}}`.
pub open spec fn attr_record(key: Seq<char>, text: Seq<char>) -> JsonV {
    JsonV::Object(seq![
        mem("key"@, JsonV::Str(key)),
        mem("value"@, JsonV::Object(seq![mem("stringValue"@, JsonV::Str(text))])),
    ])
}

/// The OTLP record of a span that ended at `end`.
pub open spec fn span_record(s: Span, end: u128) -> JsonV {
    let base = seq![
        mem("traceId"@, JsonV::Str(s.trace_id@)),
        mem("spanId"@, JsonV::Str(s.span_id@)),
        mem("name"@, JsonV::Str(s.name@)),
        mem("startTimeUnixNano"@, JsonV::Str(decimal(s.start as nat))),
        mem("endTimeUnixNano"@, JsonV::Str(decimal(end as nat))),
        mem("attributes"@, JsonV::Array(seq![attr_record("http.route"@, s.route@)])),
    ];
    JsonV::Object(
        if s.parent@.len() == 0 {
            base
        } else {
            base.push(mem("parentSpanId"@, JsonV::Str(s.parent@)))
        },
    )
}

/// The OTLP/JSON export request that carries one finished span.
pub open spec fn export_spec(s: Span, end: u128) -> JsonV {
    JsonV::Object(seq![
        mem("resourceSpans"@, JsonV::Array(seq![
            JsonV::Object(seq![
                mem("resource"@, JsonV::Object(seq![
                    mem("attributes"@, JsonV::Array(seq![attr_record("service.name"@, s.service@)])),
                ])),
                mem("scopeSpans"@, JsonV::Array(seq![
                    JsonV::Object(seq![mem("spans"@, JsonV::Array(seq![span_record(s, end)]))]),
                ])),
            ]),
        ])),
    ])
}

fn object_of(members: Vec<(String, Json)>) -> (j: Json)
    ensures
        j@ == JsonV::Object(view_members(members@)),
{
    Json::Object(members)
}

fn array_of_one(v: Json) -> (j: Json)
    ensures
        j@ == JsonV::Array(seq![v@]),
{
    let mut a: Vec<Json> = Vec::new();
    a.push(v);
    proof {
        crate::json::lemma_view_seq(a@);
    }
    assert(view_seq(a@) =~= seq![v@]);
    Json::Array(a)
}

fn one_member(key: &str, v: Json) -> (j: Json)
    ensures
        j@ == JsonV::Object(seq![mem(key@, v@)]),
{
    let mut m: Vec<(String, Json)> = Vec::new();
    m.push((owned(key), v));
    proof {
        lemma_view_members(m@);
    }
    assert(view_members(m@) =~= seq![mem(key@, v@)]);
    object_of(m)
}

fn two_members(k1: &str, v1: Json, k2: &str, v2: Json) -> (j: Json)
    ensures
        j@ == JsonV::Object(seq![mem(k1@, v1@), mem(k2@, v2@)]),
{
    let mut m: Vec<(String, Json)> = Vec::new();
    m.push((owned(k1), v1));
    m.push((owned(k2), v2));
    proof {
        lemma_view_members(m@);
    }
    assert(view_members(m@) =~= seq![mem(k1@, v1@), mem(k2@, v2@)]);
    object_of(m)
}

fn attr_json(key: &str, text: &String) -> (j: Json)
    ensures
        j@ == attr_record(key@, text@),
{
    let v = one_member("stringValue", Json::Str(text.clone()));
    two_members("key", Json::Str(owned(key)), "value", v)
}

fn decimal_json(n: u128) -> (j: Json)
    ensures
        j@ == JsonV::Str(decimal(n as nat)),
{
    Json::Str(string_of(&decimal_chars(n)))
}

impl Span {
    /// The OTLP/JSON export request for this span, finished at `end`: one
    /// resource carrying the service name, one scope, one span with its
    /// identifiers, name, start and end times in nanoseconds as decimal
    /// strings, its route as the `http.route` attribute, and its parent span
    /// identifier when it has one.
    pub fn export(&self, end: u128) -> (j: Json)
        ensures
            j@ == export_spec(*self, end),
    {
        let mut m: Vec<(String, Json)> = Vec::new();
        m.push((owned("traceId"), Json::Str(self.trace_id.clone())));
        m.push((owned("spanId"), Json::Str(self.span_id.clone())));
        m.push((owned("name"), Json::Str(self.name.clone())));
        m.push((owned("startTimeUnixNano"), decimal_json(self.start)));
        m.push((owned("endTimeUnixNano"), decimal_json(end)));
        m.push((owned("attributes"), array_of_one(attr_json("http.route", &self.route))));
        if !self.parent.as_str().is_empty() {
            m.push((owned("parentSpanId"), Json::Str(self.parent.clone())));
        }
        proof {
            lemma_view_members(m@);
        }
        let ghost base = seq![
            mem("traceId"@, JsonV::Str(self.trace_id@)),
            mem("spanId"@, JsonV::Str(self.span_id@)),
            mem("name"@, JsonV::Str(self.name@)),
            mem("startTimeUnixNano"@, JsonV::Str(decimal(self.start as nat))),
            mem("endTimeUnixNano"@, JsonV::Str(decimal(end as nat))),
            mem("attributes"@, JsonV::Array(seq![attr_record("http.route"@, self.route@)])),
        ];
        assert(view_members(m@) =~= if self.parent@.len() == 0 {
            base
        } else {
            base.push(mem("parentSpanId"@, JsonV::Str(self.parent@)))
        });
        let span = object_of(m);
        let scope = one_member("spans", array_of_one(span));
        let resource = one_member("attributes", array_of_one(attr_json("service.name", &self.service)));
        let rs = two_members("resource", resource, "scopeSpans", array_of_one(scope));
        one_member("resourceSpans", array_of_one(rs))
    }
}

} // verus!

verus! {

proof fn lemma_attr_record_read(key: Seq<char>, text: Seq<char>)
    ensures
        attr_str_spec(JsonV::Array(seq![attr_record(key, text)]), key) == Some(text),
{
    reveal_strlit("key");
    reveal_strlit("value");
    reveal_strlit("stringValue");
    let rec = attr_record(key, text);
    let m = seq![mem("key"@, JsonV::Str(key)), mem("value"@, JsonV::Object(seq![mem("stringValue"@, JsonV::Str(text))]))];
    crate::json::lemma_first_member(m, "key"@, 0);
    assert("key"@.len() != "value"@.len());
    assert(m[0].0 != "value"@);
    crate::json::lemma_first_member(m, "value"@, 1);
    let vm = seq![mem("stringValue"@, JsonV::Str(text))];
    crate::json::lemma_first_member(vm, "stringValue"@, 0);
    let a = seq![rec];
    assert(a.drop_last() =~= Seq::<JsonV>::empty());
    assert(rec == JsonV::Object(m));
    assert(jget(rec, "key"@) == JsonV::Str(key));
    assert(a.last() == rec);
    assert(crate::attributor::first_keyed(a.drop_last(), key) is None);
    assert(crate::attributor::first_keyed(a, key) == Some(0int));
}

/// A span exported by the tracer is read back by the attributor: one span
/// with the same trace, service and route, a root exactly when it has no
/// parent, busy for the time between its start and `end`; none when it did
/// not end after it started.
pub proof fn lemma_export_is_read_back(s: Span, end: u128)
    ensures
        parse_spec(export_spec(s, end), "http.route"@) == if s.start < end {
            seq![
                SpanV {
                    trace: s.trace_id@,
                    root: s.parent@.len() == 0,
                    service: s.service@,
                    route: s.route@,
                    busy: (end - s.start) as nat,
                },
            ]
        } else {
            Seq::<SpanV>::empty()
        },
{
    reveal_strlit("traceId");
    reveal_strlit("spanId");
    reveal_strlit("name");
    reveal_strlit("startTimeUnixNano");
    reveal_strlit("endTimeUnixNano");
    reveal_strlit("attributes");
    reveal_strlit("parentSpanId");
    reveal_strlit("key");
    reveal_strlit("value");
    reveal_strlit("stringValue");
    reveal_strlit("intValue");
    reveal_strlit("resource");
    reveal_strlit("scopeSpans");
    reveal_strlit("spans");
    reveal_strlit("resourceSpans");
    reveal_with_fuel(crate::json::first_member, 8);
    reveal_with_fuel(crate::attributor::first_keyed, 2);
    crate::text::lemma_decimal_parses(s.start);
    crate::text::lemma_decimal_parses(end);
    let body = export_spec(s, end);
    let rss = jarr_or_empty(jget(body, "resourceSpans"@));
    let rs = rss[0];
    assert(rss =~= seq![rs]);
    let sp = span_record(s, end);
    let sm = match sp {
        JsonV::Object(m) => m,
        _ => Seq::empty(),
    };
    assert(sm[0].0 == "traceId"@);
    assert(sm[1].0 == "spanId"@);
    assert(sm[2].0 == "name"@);
    assert(sm[3].0 == "startTimeUnixNano"@);
    assert(sm[4].0 == "endTimeUnixNano"@);
    assert(sm[5].0 == "attributes"@);
    if s.parent@.len() > 0 {
        assert(sm[6].0 == "parentSpanId"@);
    }
    crate::json::lemma_first_member(sm, "traceId"@, 0);
    assert forall|j: int| 0 <= j < 1 implies sm[j].0 != "spanId"@ by {
        if j == 0 {}
    }
    crate::json::lemma_first_member(sm, "spanId"@, 1);
    assert forall|j: int| 0 <= j < 2 implies sm[j].0 != "name"@ by {
        if j == 0 {} else if j == 1 {}
    }
    crate::json::lemma_first_member(sm, "name"@, 2);
    assert forall|j: int| 0 <= j < 3 implies sm[j].0 != "startTimeUnixNano"@ by {
        if j == 0 {} else if j == 1 {} else if j == 2 {}
    }
    crate::json::lemma_first_member(sm, "startTimeUnixNano"@, 3);
    assert forall|j: int| 0 <= j < 4 implies sm[j].0 != "endTimeUnixNano"@ by {
        if j == 0 {} else if j == 1 {} else if j == 2 {} else if j == 3 {}
    }
    crate::json::lemma_first_member(sm, "endTimeUnixNano"@, 4);
    assert forall|j: int| 0 <= j < 5 implies sm[j].0 != "attributes"@ by {
        if j == 0 {} else if j == 1 {} else if j == 2 {} else if j == 3 {} else if j == 4 {}
    }
    crate::json::lemma_first_member(sm, "attributes"@, 5);
    assert forall|j: int| 0 <= j < 6 implies sm[j].0 != "parentSpanId"@ by {
        if j == 0 {} else if j == 1 {} else if j == 2 {} else if j == 3 {} else if j == 4 {} else if j == 5 {}
    }
    crate::json::lemma_first_member(sm, "parentSpanId"@, 6);
    assert(jget(sp, "startTimeUnixNano"@) == JsonV::Str(decimal(s.start as nat)));
    assert(jget(sp, "endTimeUnixNano"@) == JsonV::Str(decimal(end as nat)));
    assert(jget(sp, "traceId"@) == JsonV::Str(s.trace_id@));
    assert(jget(sp, "attributes"@) == JsonV::Array(seq![attr_record("http.route"@, s.route@)]));
    lemma_attr_record_read("http.route"@, s.route@);
    assert(attr_str_spec(jget(sp, "attributes"@), "http.route"@) == Some(s.route@));
    assert(jstr(jget(sp, "parentSpanId"@)) == if s.parent@.len() == 0 {
        None
    } else {
        Some(s.parent@)
    });
    let rsm = match rs {
        JsonV::Object(m) => m,
        _ => Seq::empty(),
    };
    assert(rsm[0].0 == "resource"@);
    assert(rsm[1].0 == "scopeSpans"@);
    crate::json::lemma_first_member(rsm, "resource"@, 0);
    crate::json::lemma_first_member(rsm, "scopeSpans"@, 1);
    let res = jget(rs, "resource"@);
    let resm = match res {
        JsonV::Object(m) => m,
        _ => Seq::empty(),
    };
    crate::json::lemma_first_member(resm, "attributes"@, 0);
    lemma_attr_record_read("service.name"@, s.service@);
    assert(attr_str_spec(jget(jget(rs, "resource"@), "attributes"@), "service.name"@) == Some(s.service@));
    let scopes = jarr_or_empty(jget(rs, "scopeSpans"@));
    assert(scopes.len() == 1);
    let scm = match scopes[0] {
        JsonV::Object(m) => m,
        _ => Seq::empty(),
    };
    crate::json::lemma_first_member(scm, "spans"@, 0);
    let sps = jarr_or_empty(jget(scopes[0], "spans"@));
    assert(sps =~= seq![sp]);
    assert(sps.drop_last() =~= Seq::<JsonV>::empty());
    assert(sps.last() == sp);
    assert(spans_in(sps, s.service@, "http.route"@) =~= spans_in(Seq::<JsonV>::empty(), s.service@, "http.route"@)
        + match span_of(sp, s.service@, "http.route"@) {
        Some(x) => seq![x],
        None => Seq::<SpanV>::empty(),
    });
    assert(scopes.drop_last() =~= Seq::<JsonV>::empty());
    assert(rss.drop_last() =~= Seq::<JsonV>::empty());
    assert(rss.last() == rs);
    assert(spans_in_resources(Seq::<JsonV>::empty(), "http.route"@) == Seq::<SpanV>::empty());
    assert(spans_in_resources(rss, "http.route"@) == spans_in_resources(rss.drop_last(), "http.route"@) + spans_in_resource(rs, "http.route"@));
    assert(spans_in_resources(rss, "http.route"@) =~= spans_in_resource(rs, "http.route"@));
    assert(spans_in_resource(rs, "http.route"@) == spans_in_scopes(scopes, s.service@, "http.route"@));
    assert(scopes.drop_last() =~= Seq::<JsonV>::empty());
    assert(scopes.last() == scopes[0]);
    assert(spans_in_scopes(Seq::<JsonV>::empty(), s.service@, "http.route"@) == Seq::<SpanV>::empty());
    assert(spans_in_scopes(scopes, s.service@, "http.route"@) == spans_in_scopes(scopes.drop_last(), s.service@, "http.route"@) + spans_in(sps, s.service@, "http.route"@));
    assert(spans_in_scopes(scopes, s.service@, "http.route"@) =~= spans_in(sps, s.service@, "http.route"@));
    assert(span_of(sp, s.service@, "http.route"@) == if s.start < end {
        Some(SpanV {
            trace: s.trace_id@,
            root: s.parent@.len() == 0,
            service: s.service@,
            route: s.route@,
            busy: (end - s.start) as nat,
        })
    } else {
        None
    });
}

} // verus!

verus! {

/// A text without the trailing occurrences of `c`.
pub open spec fn trim_end_char(s: Seq<char>, c: char) -> Seq<char>
    decreases s.len(),
{
    if s.len() > 0 && s.last() == c {
        trim_end_char(s.drop_last(), c)
    } else {
        s
    }
}

/// The OTLP/HTTP traces endpoint under a collector's base URL: the base
/// without its trailing slashes, then `/v1/traces`.
pub fn traces_url(base: &str) -> (r: String)
    ensures
        r@ == trim_end_char(base@, '/') + "/v1/traces"@,
{
    let cs = crate::text::chars_of(base);
    let mut n = cs.len();
    assert(cs@.take(n as int) =~= cs@);
    while n > 0 && cs[n - 1] == '/'
        invariant
            n <= cs@.len(),
            cs@ == base@,
            trim_end_char(base@, '/') == trim_end_char(cs@.take(n as int), '/'),
        decreases n,
    {
        assert(cs@.take(n as int).drop_last() =~= cs@.take(n - 1));
        n -= 1;
    }
    let mut out: Vec<char> = Vec::new();
    for i in 0..n
        invariant
            n <= cs@.len(),
            out@ == cs@.take(i as int),
    {
        out.push(cs[i]);
        assert(cs@.take(i + 1) =~= cs@.take(i as int).push(cs@[i as int]));
    }
    let mut r = string_of(&out);
    append_str(&mut r, "/v1/traces");
    r
}

} // verus!

verus! {

/// The span record inside an export body: the first span of the first
/// scope of the first resource.
pub open spec fn exported_record(body: JsonV) -> JsonV {
    crate::json::jidx(
        jget(
            crate::json::jidx(jget(crate::json::jidx(jget(body, "resourceSpans"@), 0), "scopeSpans"@), 0),
            "spans"@,
        ),
        0,
    )
}

/// The exported record identifies the span as its traceparent does: its
/// `traceId` and `spanId` are the span's own trace and span identifiers, it
/// names the span's parent as `parentSpanId` when there is one and has no
/// `parentSpanId` otherwise, and it carries the span's name.
pub proof fn lemma_export_identifies_span(s: Span, end: u128)
    ensures
        jget(exported_record(export_spec(s, end)), "traceId"@) == JsonV::Str(s.trace_id@),
        jget(exported_record(export_spec(s, end)), "spanId"@) == JsonV::Str(s.span_id@),
        jget(exported_record(export_spec(s, end)), "name"@) == JsonV::Str(s.name@),
        jget(exported_record(export_spec(s, end)), "parentSpanId"@) == if s.parent@.len() == 0 {
            JsonV::Null
        } else {
            JsonV::Str(s.parent@)
        },
{
    reveal_strlit("traceId");
    reveal_strlit("spanId");
    reveal_strlit("name");
    reveal_strlit("startTimeUnixNano");
    reveal_strlit("endTimeUnixNano");
    reveal_strlit("attributes");
    reveal_strlit("parentSpanId");
    reveal_strlit("resource");
    reveal_strlit("scopeSpans");
    reveal_strlit("spans");
    reveal_strlit("resourceSpans");
    reveal_with_fuel(crate::json::first_member, 8);
    let body = export_spec(s, end);
    let bm = match body {
        JsonV::Object(m) => m,
        _ => Seq::empty(),
    };
    crate::json::lemma_first_member(bm, "resourceSpans"@, 0);
    let rs = crate::json::jidx(jget(body, "resourceSpans"@), 0);
    let rsm = match rs {
        JsonV::Object(m) => m,
        _ => Seq::empty(),
    };
    assert(rsm[0].0 == "resource"@);
    assert(rsm[1].0 == "scopeSpans"@);
    assert forall|j: int| 0 <= j < 1 implies rsm[j].0 != "scopeSpans"@ by {}
    crate::json::lemma_first_member(rsm, "scopeSpans"@, 1);
    let sc = crate::json::jidx(jget(rs, "scopeSpans"@), 0);
    let scm = match sc {
        JsonV::Object(m) => m,
        _ => Seq::empty(),
    };
    crate::json::lemma_first_member(scm, "spans"@, 0);
    assert(exported_record(body) == span_record(s, end));
    let sm = match span_record(s, end) {
        JsonV::Object(m) => m,
        _ => Seq::empty(),
    };
    assert(sm[0].0 == "traceId"@);
    assert(sm[1].0 == "spanId"@);
    assert(sm[2].0 == "name"@);
    assert(sm[3].0 == "startTimeUnixNano"@);
    assert(sm[4].0 == "endTimeUnixNano"@);
    assert(sm[5].0 == "attributes"@);
    if s.parent@.len() > 0 {
        assert(sm[6].0 == "parentSpanId"@);
    }
    crate::json::lemma_first_member(sm, "traceId"@, 0);
    assert forall|j: int| 0 <= j < 1 implies sm[j].0 != "spanId"@ by {}
    crate::json::lemma_first_member(sm, "spanId"@, 1);
    assert forall|j: int| 0 <= j < 2 implies sm[j].0 != "name"@ by {
        if j == 0 {} else if j == 1 {}
    }
    crate::json::lemma_first_member(sm, "name"@, 2);
    assert forall|j: int| 0 <= j < 6 implies sm[j].0 != "parentSpanId"@ by {
        if j == 0 {} else if j == 1 {} else if j == 2 {} else if j == 3 {} else if j == 4 {} else if j == 5 {}
    }
    crate::json::lemma_first_member(sm, "parentSpanId"@, 6);
}

} // verus!
