//! What the feeder reads from apiserver objects: pod, deployment, service
//! and node facts, the deployment that owns a pod, and Kubernetes quantity
//! suffixes.
use vstd::prelude::*;
use crate::json::{Json, JsonV, array_of, field, jarr_or_empty, jget, ji64, jstr, lemma_view_seq, or_null, str_of, view_json, view_seq};
use crate::text::{chars_of, owned, str_eq, string_of};
use crate::ingest::Service;

verus! {

/// The text of a string value, or the empty text.
pub open spec fn text_of(v: JsonV) -> Seq<char> {
    match jstr(v) {
        Some(s) => s,
        None => Seq::empty(),
    }
}

/// `v[a][b]`.
pub open spec fn jget2(v: JsonV, a: Seq<char>, b: Seq<char>) -> JsonV {
    jget(jget(v, a), b)
}

fn text_at(r: Option<&Json>) -> (s: String)
    ensures
        s@ == text_of(or_null(r)),
{
    match str_of(r) {
        Some(t) => owned(t),
        None => String::new(),
    }
}

/// Index of the last `-` in a text, if it has one.
pub open spec fn last_dash(s: Seq<char>) -> Option<int>
    decreases s.len(),
{
    if s.len() == 0 {
        None
    } else if s.last() == '-' {
        Some(s.len() - 1)
    } else {
        last_dash(s.drop_last())
    }
}

/// The deployment an owner reference names: for a `ReplicaSet` owner whose
/// name has a `-`, the name up to its last `-`.
pub open spec fn owner_deployment(o: JsonV) -> Option<Seq<char>> {
    if jget(o, "kind"@) == JsonV::Str("ReplicaSet"@) {
        let rs = text_of(jget(o, "name"@));
        match last_dash(rs) {
            Some(i) => Some(rs.take(i)),
            None => None,
        }
    } else {
        None
    }
}

/// The deployment named by the first owner reference that names one.
pub open spec fn first_owner_deployment(os: Seq<JsonV>) -> Option<Seq<char>>
    decreases os.len(),
{
    if os.len() == 0 {
        None
    } else {
        match first_owner_deployment(os.drop_last()) {
            Some(d) => Some(d),
            None => owner_deployment(os.last()),
        }
    }
}

/// The deployment that owns a pod, through its ReplicaSet; empty if none.
pub open spec fn deployment_of_spec(pod: JsonV) -> Seq<char> {
    match first_owner_deployment(jarr_or_empty(jget2(pod, "metadata"@, "ownerReferences"@))) {
        Some(d) => d,
        None => Seq::empty(),
    }
}

fn before_last_dash(s: &str) -> (r: Option<String>)
    ensures
        match r {
            Some(t) => last_dash(s@) matches Some(i) && t@ == s@.take(i),
            None => last_dash(s@) is None,
        },
{
    let cs = chars_of(s);
    let mut i = cs.len();
    assert(s@.take(i as int) =~= s@);
    while i > 0
        invariant
            i <= cs.len(),
            cs@ == s@,
            last_dash(s@) == last_dash(s@.take(i as int)),
        decreases i,
    {
        assert(s@.take(i as int).drop_last() =~= s@.take(i - 1));
        if cs[i - 1] == '-' {
            let mut out: Vec<char> = Vec::new();
            for k in 0..i - 1
                invariant
                    k <= i - 1,
                    i <= cs.len(),
                    out@ == cs@.take(k as int),
            {
                out.push(cs[k]);
                assert(cs@.take(k + 1) =~= cs@.take(k as int).push(cs@[k as int]));
            }
            assert(s@.take(i as int).take(i - 1) =~= s@.take(i - 1));
            return Some(string_of(&out));
        }
        i -= 1;
    }
    assert(s@.take(0) =~= Seq::<char>::empty());
    None
}

fn owner_deployment_of(o: &Json) -> (r: Option<String>)
    ensures
        match r {
            Some(t) => owner_deployment(o@) == Some(t@),
            None => owner_deployment(o@) is None,
        },
{
    let is_rs = match str_of(o.get("kind")) {
        Some(k) => crate::text::str_eq(k, "ReplicaSet"),
        None => false,
    };
    if !is_rs {
        return None;
    }
    let rs = text_at(o.get("name"));
    before_last_dash(rs.as_str())
}

/// The deployment that owns a pod: the first `ReplicaSet` owner reference
/// whose name has a `-` names it up to its last `-`; empty if there is none.
pub fn deployment_of(pod: &Json) -> (r: String)
    ensures
        r@ == deployment_of_spec(pod@),
{
    let os = match array_of(field(pod.get("metadata"), "ownerReferences")) {
        Some(a) => a,
        None => return String::new(),
    };
    let ghost vs = view_seq(os@);
    proof {
        lemma_view_seq(os@);
    }
    for i in 0..os.len()
        invariant
            vs == view_seq(os@),
            vs.len() == os@.len(),
            forall|j: int| 0 <= j < os@.len() ==> #[trigger] vs[j] == view_json(os@[j]),
            jarr_or_empty(jget2(pod@, "metadata"@, "ownerReferences"@)) == vs,
            first_owner_deployment(vs.take(i as int)) is None,
    {
        assert(vs.take(i + 1).drop_last() =~= vs.take(i as int));
        assert(vs.take(i + 1).last() == vs[i as int]);
        if let Some(d) = owner_deployment_of(&os[i]) {
            proof {
                lemma_first_owner_extends(vs, i + 1);
            }
            return d;
        }
    }
    assert(vs.take(os.len() as int) =~= vs);
    String::new()
}

proof fn lemma_first_owner_extends(os: Seq<JsonV>, n: int)
    requires
        0 <= n <= os.len(),
        first_owner_deployment(os.take(n)) is Some,
    ensures
        first_owner_deployment(os) == first_owner_deployment(os.take(n)),
    decreases os.len() - n,
{
    if n < os.len() {
        assert(os.take(n + 1).drop_last() =~= os.take(n));
        lemma_first_owner_extends(os, n + 1);
    } else {
        assert(os.take(n) =~= os);
    }
}

} // verus!

verus! {

/// The service record of an apiserver `Service` object: its namespace and
/// name, and the deployment named by its `app` selector (empty if absent).
pub fn service_of(s: &Json) -> (r: Service)
    ensures
        r.namespace@ == text_of(jget2(s@, "metadata"@, "namespace"@)),
        r.name@ == text_of(jget2(s@, "metadata"@, "name"@)),
        r.deployment@ == text_of(jget(jget2(s@, "spec"@, "selector"@), "app"@)),
{
    let meta = s.get("metadata");
    Service {
        namespace: text_at(field(meta, "namespace")),
        name: text_at(field(meta, "name")),
        deployment: text_at(field(field(s.get("spec"), "selector"), "app")),
    }
}

/// What the feeder keeps of an apiserver `Pod` object.
pub struct PodFacts {
    pub namespace: String,
    pub name: String,
    /// The node it is scheduled on.
    pub node: String,
    /// The deployment that owns it, or empty.
    pub deployment: String,
    /// The names of its containers, in order.
    pub containers: Vec<String>,
}

/// The names of a container list.
pub open spec fn container_names(cs: Seq<JsonV>) -> Seq<Seq<char>> {
    Seq::new(cs.len(), |i: int| text_of(jget(cs[i], "name"@)))
}

/// Reads the facts of a pod object.
pub fn pod_facts(p: &Json) -> (r: PodFacts)
    ensures
        r.namespace@ == text_of(jget2(p@, "metadata"@, "namespace"@)),
        r.name@ == text_of(jget2(p@, "metadata"@, "name"@)),
        r.node@ == text_of(jget2(p@, "spec"@, "nodeName"@)),
        r.deployment@ == deployment_of_spec(p@),
        r.containers@.map_values(|c: String| c@) == container_names(jarr_or_empty(jget2(p@, "spec"@, "containers"@))),
{
    let meta = p.get("metadata");
    let spec = p.get("spec");
    let mut containers: Vec<String> = Vec::new();
    match array_of(field(spec, "containers")) {
        Some(cs) => {
            proof {
                lemma_view_seq(cs@);
            }
            for i in 0..cs.len()
                invariant
                    view_seq(cs@).len() == cs@.len(),
                    forall|j: int| 0 <= j < cs@.len() ==> #[trigger] view_seq(cs@)[j] == view_json(cs@[j]),
                    containers@.len() == i,
                    forall|j: int| 0 <= j < i ==> (#[trigger] containers@[j])@ == text_of(jget(view_seq(cs@)[j], "name"@)),
            {
                containers.push(text_at(cs[i].get("name")));
            }
            assert(containers@.map_values(|c: String| c@) =~= container_names(view_seq(cs@)));
        },
        None => {
            assert(containers@.map_values(|c: String| c@) =~= container_names(Seq::<JsonV>::empty()));
        },
    }
    PodFacts {
        namespace: text_at(field(meta, "namespace")),
        name: text_at(field(meta, "name")),
        node: text_at(field(spec, "nodeName")),
        deployment: deployment_of(p),
        containers,
    }
}

/// What the feeder keeps of an apiserver `Deployment` object.
pub struct DeploymentFacts {
    pub namespace: String,
    pub name: String,
    /// `spec.replicas`, or zero when absent or not an integer.
    pub replicas: i64,
}

/// Reads the facts of a deployment object.
pub fn deployment_facts(d: &Json) -> (r: DeploymentFacts)
    ensures
        r.namespace@ == text_of(jget2(d@, "metadata"@, "namespace"@)),
        r.name@ == text_of(jget2(d@, "metadata"@, "name"@)),
        r.replicas == match ji64(jget2(d@, "spec"@, "replicas"@)) {
            Some(n) => n,
            None => 0,
        },
{
    let meta = d.get("metadata");
    let replicas = match field(d.get("spec"), "replicas") {
        Some(v) => match v.as_i64() {
            Some(n) => n,
            None => 0,
        },
        None => 0,
    };
    DeploymentFacts {
        namespace: text_at(field(meta, "namespace")),
        name: text_at(field(meta, "name")),
        replicas,
    }
}

/// What the feeder keeps of an apiserver `Node` object: its name and the
/// allocatable CPU, memory and ephemeral storage quantities (`0` if absent).
pub struct NodeFacts {
    pub name: String,
    pub cpu: String,
    pub memory: String,
    pub storage: String,
}

/// A quantity text, or `0` when absent.
pub open spec fn quantity_text(v: JsonV) -> Seq<char> {
    match jstr(v) {
        Some(s) => s,
        None => seq!['0'],
    }
}

fn quantity_at(r: Option<&Json>) -> (s: String)
    ensures
        s@ == quantity_text(or_null(r)),
{
    match str_of(r) {
        Some(t) => owned(t),
        None => {
            let mut z = String::new();
            crate::text::push_char(&mut z, '0');
            z
        },
    }
}

/// Reads the facts of a node object.
pub fn node_facts(n: &Json) -> (r: NodeFacts)
    ensures
        r.name@ == text_of(jget2(n@, "metadata"@, "name"@)),
        r.cpu@ == quantity_text(jget(jget2(n@, "status"@, "allocatable"@), "cpu"@)),
        r.memory@ == quantity_text(jget(jget2(n@, "status"@, "allocatable"@), "memory"@)),
        r.storage@ == quantity_text(jget(jget2(n@, "status"@, "allocatable"@), "ephemeral-storage"@)),
{
    let alloc = field(n.get("status"), "allocatable");
    NodeFacts {
        name: text_at(field(n.get("metadata"), "name")),
        cpu: quantity_at(field(alloc, "cpu")),
        memory: quantity_at(field(alloc, "memory")),
        storage: quantity_at(field(alloc, "ephemeral-storage")),
    }
}

} // verus!

verus! {

/// `char::is_whitespace`: the Unicode `White_Space` characters.
pub open spec fn is_white_space(c: char) -> bool {
    ('\u{9}' <= c <= '\u{d}') || c == ' ' || c == '\u{85}' || c == '\u{a0}' || c == '\u{1680}'
        || ('\u{2000}' <= c <= '\u{200a}') || c == '\u{2028}' || c == '\u{2029}' || c == '\u{202f}'
        || c == '\u{205f}' || c == '\u{3000}'
}

/// A text without its leading white space.
pub open spec fn trim_start(s: Seq<char>) -> Seq<char>
    decreases s.len(),
{
    if s.len() > 0 && is_white_space(s[0]) {
        trim_start(s.drop_first())
    } else {
        s
    }
}

/// A text without its trailing white space.
pub open spec fn trim_end(s: Seq<char>) -> Seq<char>
    decreases s.len(),
{
    if s.len() > 0 && is_white_space(s.last()) {
        trim_end(s.drop_last())
    } else {
        s
    }
}

/// `str::trim`.
pub open spec fn trim_spec(s: Seq<char>) -> Seq<char> {
    trim_end(trim_start(s))
}

fn white_space(c: char) -> (r: bool)
    ensures
        r == is_white_space(c),
{
    ('\u{9}' <= c && c <= '\u{d}') || c == ' ' || c == '\u{85}' || c == '\u{a0}' || c == '\u{1680}'
        || ('\u{2000}' <= c && c <= '\u{200a}') || c == '\u{2028}' || c == '\u{2029}' || c == '\u{202f}'
        || c == '\u{205f}' || c == '\u{3000}'
}

/// The characters of a text without its leading and trailing white space.
pub fn trim_chars(cs: &Vec<char>) -> (r: Vec<char>)
    ensures
        r@ == trim_spec(cs@),
{
    let mut a: usize = 0;
    assert(cs@.subrange(0, cs@.len() as int) =~= cs@);
    while a < cs.len() && white_space(cs[a])
        invariant
            a <= cs.len(),
            trim_start(cs@) == trim_start(cs@.subrange(a as int, cs@.len() as int)),
        decreases cs.len() - a,
    {
        assert(cs@.subrange(a as int, cs@.len() as int).drop_first() =~= cs@.subrange(a + 1, cs@.len() as int));
        a += 1;
    }
    assert(trim_start(cs@.subrange(a as int, cs@.len() as int)) == cs@.subrange(a as int, cs@.len() as int));
    let mut b: usize = cs.len();
    assert(cs@.subrange(a as int, b as int) =~= cs@.subrange(a as int, cs@.len() as int));
    while b > a && white_space(cs[b - 1])
        invariant
            a <= b <= cs.len(),
            trim_spec(cs@) == trim_end(cs@.subrange(a as int, b as int)),
        decreases b - a,
    {
        assert(cs@.subrange(a as int, b as int).drop_last() =~= cs@.subrange(a as int, b - 1));
        b -= 1;
    }
    let mut r: Vec<char> = Vec::new();
    let mut k = a;
    while k < b
        invariant
            a <= k <= b <= cs.len(),
            r@ == cs@.subrange(a as int, k as int),
        decreases b - k,
    {
        r.push(cs[k]);
        assert(cs@.subrange(a as int, k + 1) =~= cs@.subrange(a as int, k as int).push(cs@[k as int]));
        k += 1;
    }
    r
}

/// The binary or decimal multiplier that ends a Kubernetes quantity.
#[derive(PartialEq, Eq, Structural, Clone, Copy, Debug)]
pub enum Unit {
    /// `Ki`: 1024.
    Kibi,
    /// `Mi`: 1024².
    Mebi,
    /// `Gi`: 1024³.
    Gibi,
    /// `Ti`: 1024⁴.
    Tebi,
    /// `m`: one thousandth.
    Milli,
    /// No suffix.
    One,
}

/// Whether `s` ends with `suffix`.
pub open spec fn ends_with(s: Seq<char>, suffix: Seq<char>) -> bool {
    s.len() >= suffix.len() && s.subrange(s.len() - suffix.len(), s.len() as int) == suffix
}

/// A quantity split into its number and its suffix, after trimming: the
/// suffixes `Ki`, `Mi`, `Gi`, `Ti` and `m` are tried in that order.
pub open spec fn quantity_parts_spec(s: Seq<char>) -> (Seq<char>, Unit) {
    let t = trim_spec(s);
    if ends_with(t, seq!['K', 'i']) {
        (t.take(t.len() - 2), Unit::Kibi)
    } else if ends_with(t, seq!['M', 'i']) {
        (t.take(t.len() - 2), Unit::Mebi)
    } else if ends_with(t, seq!['G', 'i']) {
        (t.take(t.len() - 2), Unit::Gibi)
    } else if ends_with(t, seq!['T', 'i']) {
        (t.take(t.len() - 2), Unit::Tebi)
    } else if ends_with(t, seq!['m']) {
        (t.take(t.len() - 1), Unit::Milli)
    } else {
        (t, Unit::One)
    }
}

fn ends_with2(t: &Vec<char>, a: char, b: char) -> (r: bool)
    ensures
        r == ends_with(t@, seq![a, b]),
{
    let n = t.len();
    if n < 2 {
        return false;
    }
    let r = t[n - 2] == a && t[n - 1] == b;
    assert(r == (t@.subrange(n - 2, n as int) =~= seq![a, b]));
    r
}

fn prefix_string(t: &Vec<char>, k: usize) -> (r: String)
    requires
        k <= t@.len(),
    ensures
        r@ == t@.take(k as int),
{
    let mut out: Vec<char> = Vec::new();
    for i in 0..k
        invariant
            k <= t@.len(),
            out@ == t@.take(i as int),
    {
        out.push(t[i]);
        assert(t@.take(i + 1) =~= t@.take(i as int).push(t@[i as int]));
    }
    string_of(&out)
}

/// Splits a Kubernetes quantity such as `100Mi` or `250m` into its number
/// text and its suffix.
pub fn quantity_parts(s: &str) -> (r: (String, Unit))
    ensures
        (r.0@, r.1) == quantity_parts_spec(s@),
{
    let cs = chars_of(s);
    let t = trim_chars(&cs);
    let n = t.len();
    if ends_with2(&t, 'K', 'i') {
        (prefix_string(&t, n - 2), Unit::Kibi)
    } else if ends_with2(&t, 'M', 'i') {
        (prefix_string(&t, n - 2), Unit::Mebi)
    } else if ends_with2(&t, 'G', 'i') {
        (prefix_string(&t, n - 2), Unit::Gibi)
    } else if ends_with2(&t, 'T', 'i') {
        (prefix_string(&t, n - 2), Unit::Tebi)
    } else if n >= 1 && t[n - 1] == 'm' {
        assert(t@.subrange(n - 1, n as int) =~= seq!['m']);
        (prefix_string(&t, n - 1), Unit::Milli)
    } else {
        proof {
            if n >= 1 {
                assert(t@.subrange(n - 1, n as int)[0] == t@[n - 1]);
            }
        }
        assert(t@.take(n as int) =~= t@);
        (prefix_string(&t, n), Unit::One)
    }
}

} // verus!

verus! {

/// Two pod records name the same pod: the same namespace and name.
pub open spec fn same_pod(a: PodFacts, b: PodFacts) -> bool {
    a.namespace@ == b.namespace@ && a.name@ == b.name@
}

/// The record at `i` is the last one listed for its pod; earlier records
/// of the same pod are superseded by it.
pub open spec fn is_latest(pods: Seq<PodFacts>, i: int) -> bool {
    forall|j: int| i < j < pods.len() ==> !same_pod(#[trigger] pods[j], pods[i])
}

/// The pods, among the first `n` records, that count in the usage of the
/// node named `node`: the latest record of each pod scheduled there.
pub open spec fn node_members(pods: Seq<PodFacts>, node: Seq<char>, n: nat) -> Seq<usize>
    decreases n,
{
    if n == 0 {
        Seq::empty()
    } else {
        let r = node_members(pods, node, (n - 1) as nat);
        let i = n - 1;
        if pods[i].node@ == node && is_latest(pods, i) {
            r.push(i as usize)
        } else {
            r
        }
    }
}

/// The pods, among the first `n` records, that the deployment `name` of
/// namespace `ns` owns; a pod with no deployment belongs to none.
pub open spec fn deployment_members(pods: Seq<PodFacts>, ns: Seq<char>, name: Seq<char>, n: nat) -> Seq<usize>
    decreases n,
{
    if n == 0 {
        Seq::empty()
    } else {
        let r = deployment_members(pods, ns, name, (n - 1) as nat);
        let i = n - 1;
        if pods[i].deployment@.len() > 0 && pods[i].namespace@ == ns && pods[i].deployment@ == name {
            r.push(i as usize)
        } else {
            r
        }
    }
}

/// The pods, among the first `n` records, in namespace `ns`.
pub open spec fn namespace_members(pods: Seq<PodFacts>, ns: Seq<char>, n: nat) -> Seq<usize>
    decreases n,
{
    if n == 0 {
        Seq::empty()
    } else {
        let r = namespace_members(pods, ns, (n - 1) as nat);
        let i = n - 1;
        if pods[i].namespace@ == ns {
            r.push(i as usize)
        } else {
            r
        }
    }
}

/// The distinct texts of a sequence, in the order they first occur.
pub open spec fn first_seen(s: Seq<Seq<char>>) -> Seq<Seq<char>>
    decreases s.len(),
{
    if s.len() == 0 {
        Seq::empty()
    } else {
        let r = first_seen(s.drop_last());
        if r.contains(s.last()) {
            r
        } else {
            r.push(s.last())
        }
    }
}

/// The namespace of each pod record, in order.
pub open spec fn pod_namespaces(pods: Seq<PodFacts>) -> Seq<Seq<char>> {
    pods.map_values(|p: PodFacts| p.namespace@)
}

/// Where each pod's measurements go in a snapshot, as indices into the pod
/// records.
pub struct Layout {
    /// For each node, in the order given, the pods counted in its usage.
    pub node_pods: Vec<Vec<usize>>,
    /// For each deployment, in the order given, the pods it owns.
    pub deployment_pods: Vec<Vec<usize>>,
    /// The namespaces of the pods, each once, in the order first seen.
    pub namespaces: Vec<String>,
    /// For each of those namespaces, the pods in it.
    pub namespace_pods: Vec<Vec<usize>>,
}

fn latest_flags(pods: &Vec<PodFacts>) -> (r: Vec<bool>)
    ensures
        r@.len() == pods@.len(),
        forall|i: int| 0 <= i < pods@.len() ==> #[trigger] r@[i] == is_latest(pods@, i),
{
    let mut r: Vec<bool> = Vec::new();
    for i in 0..pods.len()
        invariant
            r@.len() == i,
            forall|k: int| 0 <= k < i ==> #[trigger] r@[k] == is_latest(pods@, k),
    {
        let mut latest = true;
        let mut j = i + 1;
        while j < pods.len()
            invariant
                i < j <= pods.len(),
                latest == (forall|m: int| i < m < j ==> !same_pod(#[trigger] pods@[m], pods@[i as int])),
            decreases pods.len() - j,
        {
            if str_eq(pods[j].namespace.as_str(), pods[i].namespace.as_str())
                && str_eq(pods[j].name.as_str(), pods[i].name.as_str()) {
                assert(same_pod(pods@[j as int], pods@[i as int]));
                latest = false;
            }
            j += 1;
        }
        r.push(latest);
    }
    r
}

fn node_group(pods: &Vec<PodFacts>, latest: &Vec<bool>, node: &str) -> (r: Vec<usize>)
    requires
        latest@.len() == pods@.len(),
        forall|i: int| 0 <= i < pods@.len() ==> #[trigger] latest@[i] == is_latest(pods@, i),
    ensures
        r@ == node_members(pods@, node@, pods@.len() as nat),
{
    let mut r: Vec<usize> = Vec::new();
    for i in 0..pods.len()
        invariant
            latest@.len() == pods@.len(),
            forall|k: int| 0 <= k < pods@.len() ==> #[trigger] latest@[k] == is_latest(pods@, k),
            r@ == node_members(pods@, node@, i as nat),
    {
        if latest[i] && str_eq(pods[i].node.as_str(), node) {
            r.push(i);
        }
    }
    r
}

fn deployment_group(pods: &Vec<PodFacts>, ns: &str, name: &str) -> (r: Vec<usize>)
    ensures
        r@ == deployment_members(pods@, ns@, name@, pods@.len() as nat),
{
    let mut r: Vec<usize> = Vec::new();
    for i in 0..pods.len()
        invariant
            r@ == deployment_members(pods@, ns@, name@, i as nat),
    {
        if pods[i].deployment.as_str().unicode_len() > 0 && str_eq(pods[i].namespace.as_str(), ns)
            && str_eq(pods[i].deployment.as_str(), name) {
            r.push(i);
        }
    }
    r
}

fn namespace_group(pods: &Vec<PodFacts>, ns: &str) -> (r: Vec<usize>)
    ensures
        r@ == namespace_members(pods@, ns@, pods@.len() as nat),
{
    let mut r: Vec<usize> = Vec::new();
    for i in 0..pods.len()
        invariant
            r@ == namespace_members(pods@, ns@, i as nat),
    {
        if str_eq(pods[i].namespace.as_str(), ns) {
            r.push(i);
        }
    }
    r
}

fn distinct_namespaces(pods: &Vec<PodFacts>) -> (r: Vec<String>)
    ensures
        r@.map_values(|s: String| s@) == first_seen(pod_namespaces(pods@)),
{
    let ghost all = pod_namespaces(pods@);
    let mut r: Vec<String> = Vec::new();
    assert(all.take(0) =~= Seq::<Seq<char>>::empty());
    for i in 0..pods.len()
        invariant
            all == pod_namespaces(pods@),
            all.len() == pods@.len(),
            r@.map_values(|s: String| s@) == first_seen(all.take(i as int)),
    {
        let ghost seen_before = first_seen(all.take(i as int));
        let mut seen = false;
        for k in 0..r.len()
            invariant
                i < pods@.len(),
                seen_before == r@.map_values(|s: String| s@),
                seen == (exists|m: int| 0 <= m < k && (#[trigger] r@[m])@ == pods@[i as int].namespace@),
        {
            if str_eq(r[k].as_str(), pods[i].namespace.as_str()) {
                assert(r@[k as int]@ == pods@[i as int].namespace@);
                seen = true;
            }
        }
        assert(all.take(i + 1).drop_last() =~= all.take(i as int));
        assert(all.take(i + 1).last() == pods@[i as int].namespace@);
        assert(seen == seen_before.contains(pods@[i as int].namespace@)) by {
            if seen {
                let m = choose|m: int| 0 <= m < r@.len() && (#[trigger] r@[m])@ == pods@[i as int].namespace@;
                assert(seen_before[m] == pods@[i as int].namespace@);
            }
            if seen_before.contains(pods@[i as int].namespace@) {
                let m = choose|m: int| 0 <= m < seen_before.len() && seen_before[m] == pods@[i as int].namespace@;
                assert(r@[m]@ == pods@[i as int].namespace@);
            }
        }
        if !seen {
            r.push(owned(pods[i].namespace.as_str()));
            assert(r@.map_values(|s: String| s@) =~= seen_before.push(pods@[i as int].namespace@));
        }
    }
    assert(all.take(pods.len() as int) =~= all);
    r
}

/// Lays out a snapshot: which pods count in each node's usage (the latest
/// record of each pod scheduled on it), which pods each deployment owns,
/// and the pods' namespaces, each with the pods in it.
pub fn layout(pods: &Vec<PodFacts>, nodes: &Vec<NodeFacts>, deployments: &Vec<DeploymentFacts>) -> (r: Layout)
    ensures
        r.node_pods@.len() == nodes@.len(),
        forall|k: int| 0 <= k < nodes@.len() ==>
            (#[trigger] r.node_pods@[k])@ == node_members(pods@, nodes@[k].name@, pods@.len() as nat),
        r.deployment_pods@.len() == deployments@.len(),
        forall|k: int| 0 <= k < deployments@.len() ==>
            (#[trigger] r.deployment_pods@[k])@ == deployment_members(pods@, deployments@[k].namespace@, deployments@[k].name@, pods@.len() as nat),
        r.namespaces@.map_values(|s: String| s@) == first_seen(pod_namespaces(pods@)),
        r.namespace_pods@.len() == r.namespaces@.len(),
        forall|k: int| 0 <= k < r.namespaces@.len() ==>
            (#[trigger] r.namespace_pods@[k])@ == namespace_members(pods@, r.namespaces@[k]@, pods@.len() as nat),
{
    let latest = latest_flags(pods);
    let mut node_pods: Vec<Vec<usize>> = Vec::new();
    for k in 0..nodes.len()
        invariant
            latest@.len() == pods@.len(),
            forall|i: int| 0 <= i < pods@.len() ==> #[trigger] latest@[i] == is_latest(pods@, i),
            node_pods@.len() == k,
            forall|m: int| 0 <= m < k ==>
                (#[trigger] node_pods@[m])@ == node_members(pods@, nodes@[m].name@, pods@.len() as nat),
    {
        node_pods.push(node_group(pods, &latest, nodes[k].name.as_str()));
    }
    let mut deployment_pods: Vec<Vec<usize>> = Vec::new();
    for k in 0..deployments.len()
        invariant
            deployment_pods@.len() == k,
            forall|m: int| 0 <= m < k ==>
                (#[trigger] deployment_pods@[m])@ == deployment_members(pods@, deployments@[m].namespace@, deployments@[m].name@, pods@.len() as nat),
    {
        deployment_pods.push(deployment_group(pods, deployments[k].namespace.as_str(), deployments[k].name.as_str()));
    }
    let namespaces = distinct_namespaces(pods);
    let mut namespace_pods: Vec<Vec<usize>> = Vec::new();
    for k in 0..namespaces.len()
        invariant
            namespace_pods@.len() == k,
            forall|m: int| 0 <= m < k ==>
                (#[trigger] namespace_pods@[m])@ == namespace_members(pods@, namespaces@[m]@, pods@.len() as nat),
    {
        namespace_pods.push(namespace_group(pods, namespaces[k].as_str()));
    }
    Layout { node_pods, deployment_pods, namespaces, namespace_pods }
}

} // verus!

verus! {

proof fn lemma_node_members(pods: Seq<PodFacts>, node: Seq<char>, n: nat, i: usize)
    requires
        n <= pods.len(),
        pods.len() <= usize::MAX,
    ensures
        node_members(pods, node, n).contains(i) <==> (i < n && pods[i as int].node@ == node && is_latest(pods, i as int)),
    decreases n,
{
    if n > 0 {
        lemma_node_members(pods, node, (n - 1) as nat, i);
        let r = node_members(pods, node, (n - 1) as nat);
        if pods[n - 1].node@ == node && is_latest(pods, n - 1) {
            let q = r.push((n - 1) as usize);
            assert(q[r.len() as int] == (n - 1) as usize);
            if r.contains(i) {
                let k = choose|k: int| 0 <= k < r.len() && r[k] == i;
                assert(q[k] == i);
            }
            if q.contains(i) && i != n - 1 {
                let k = choose|k: int| 0 <= k < q.len() && q[k] == i;
                assert(r[k] == i);
            }
        }
    }
}

proof fn lemma_deployment_members(pods: Seq<PodFacts>, ns: Seq<char>, name: Seq<char>, n: nat, i: usize)
    requires
        n <= pods.len(),
        pods.len() <= usize::MAX,
    ensures
        deployment_members(pods, ns, name, n).contains(i) <==> (i < n && pods[i as int].deployment@.len() > 0
            && pods[i as int].namespace@ == ns && pods[i as int].deployment@ == name),
    decreases n,
{
    if n > 0 {
        lemma_deployment_members(pods, ns, name, (n - 1) as nat, i);
        let r = deployment_members(pods, ns, name, (n - 1) as nat);
        let p = pods[n - 1];
        if p.deployment@.len() > 0 && p.namespace@ == ns && p.deployment@ == name {
            let q = r.push((n - 1) as usize);
            assert(q[r.len() as int] == (n - 1) as usize);
            if r.contains(i) {
                let k = choose|k: int| 0 <= k < r.len() && r[k] == i;
                assert(q[k] == i);
            }
            if q.contains(i) && i != n - 1 {
                let k = choose|k: int| 0 <= k < q.len() && q[k] == i;
                assert(r[k] == i);
            }
        }
    }
}

proof fn lemma_namespace_members(pods: Seq<PodFacts>, ns: Seq<char>, n: nat, i: usize)
    requires
        n <= pods.len(),
        pods.len() <= usize::MAX,
    ensures
        namespace_members(pods, ns, n).contains(i) <==> (i < n && pods[i as int].namespace@ == ns),
    decreases n,
{
    if n > 0 {
        lemma_namespace_members(pods, ns, (n - 1) as nat, i);
        let r = namespace_members(pods, ns, (n - 1) as nat);
        if pods[n - 1].namespace@ == ns {
            let q = r.push((n - 1) as usize);
            assert(q[r.len() as int] == (n - 1) as usize);
            if r.contains(i) {
                let k = choose|k: int| 0 <= k < r.len() && r[k] == i;
                assert(q[k] == i);
            }
            if q.contains(i) && i != n - 1 {
                let k = choose|k: int| 0 <= k < q.len() && q[k] == i;
                assert(r[k] == i);
            }
        }
    }
}

proof fn lemma_first_seen(s: Seq<Seq<char>>)
    ensures
        forall|x: Seq<char>| first_seen(s).contains(x) <==> s.contains(x),
        forall|a: int, b: int| 0 <= a < b < first_seen(s).len() ==> first_seen(s)[a] != first_seen(s)[b],
    decreases s.len(),
{
    if s.len() > 0 {
        let t = s.drop_last();
        lemma_first_seen(t);
        let r = first_seen(t);
        assert forall|x: Seq<char>| first_seen(s).contains(x) <==> s.contains(x) by {
            if s.contains(x) {
                let k = choose|k: int| 0 <= k < s.len() && s[k] == x;
                if k < s.len() - 1 {
                    assert(t[k] == x);
                    assert(t.contains(x));
                }
            }
            if t.contains(x) {
                let k = choose|k: int| 0 <= k < t.len() && t[k] == x;
                assert(s[k] == x);
            }
            if !r.contains(s.last()) {
                let q = r.push(s.last());
                assert(q[r.len() as int] == s.last());
                if r.contains(x) {
                    let k = choose|k: int| 0 <= k < r.len() && r[k] == x;
                    assert(q[k] == x);
                }
                if q.contains(x) && x != s.last() {
                    let k = choose|k: int| 0 <= k < q.len() && q[k] == x;
                    assert(r[k] == x);
                }
            }
            assert(s[s.len() - 1] == s.last());
        }
        assert forall|a: int, b: int| 0 <= a < b < first_seen(s).len() implies first_seen(s)[a] != first_seen(s)[b] by {
            if !r.contains(s.last()) && b == r.len() {
                assert(r[a] == first_seen(s)[a]);
            }
        }
    }
}

/// Each pod counts in a node's usage at most once, under its latest record:
/// the node's group holds exactly the latest records of the pods scheduled
/// on it, and no two of them name the same pod.
pub proof fn lemma_node_usage_counts_each_pod_once(pods: Seq<PodFacts>, node: Seq<char>)
    requires
        pods.len() <= usize::MAX,
    ensures
        forall|i: usize| #[trigger] node_members(pods, node, pods.len()).contains(i) <==> (i < pods.len()
            && pods[i as int].node@ == node && is_latest(pods, i as int)),
        forall|a: usize, b: usize|
            #![trigger node_members(pods, node, pods.len()).contains(a), node_members(pods, node, pods.len()).contains(b)]
            node_members(pods, node, pods.len()).contains(a) && node_members(pods, node, pods.len()).contains(b)
                && a != b ==> !same_pod(pods[a as int], pods[b as int]),
{
    assert forall|i: usize| #[trigger] node_members(pods, node, pods.len()).contains(i) <==> (i < pods.len()
        && pods[i as int].node@ == node && is_latest(pods, i as int)) by {
        lemma_node_members(pods, node, pods.len(), i);
    }
    assert forall|a: usize, b: usize|
        node_members(pods, node, pods.len()).contains(a) && node_members(pods, node, pods.len()).contains(b)
            && a != b implies !same_pod(pods[a as int], pods[b as int]) by {
        lemma_node_members(pods, node, pods.len(), a);
        lemma_node_members(pods, node, pods.len(), b);
        if a < b {
            assert(!same_pod(pods[b as int], pods[a as int]));
        } else {
            assert(!same_pod(pods[a as int], pods[b as int]));
        }
    }
}

/// A deployment's group holds exactly the pod records of its namespace that
/// name it; a record without a deployment is in no deployment's group.
pub proof fn lemma_deployment_groups(pods: Seq<PodFacts>, ns: Seq<char>, name: Seq<char>)
    requires
        pods.len() <= usize::MAX,
    ensures
        forall|i: usize| #[trigger] deployment_members(pods, ns, name, pods.len()).contains(i) <==> (i < pods.len()
            && pods[i as int].deployment@.len() > 0 && pods[i as int].namespace@ == ns
            && pods[i as int].deployment@ == name),
{
    assert forall|i: usize| #[trigger] deployment_members(pods, ns, name, pods.len()).contains(i) <==> (i < pods.len()
        && pods[i as int].deployment@.len() > 0 && pods[i as int].namespace@ == ns
        && pods[i as int].deployment@ == name) by {
        lemma_deployment_members(pods, ns, name, pods.len(), i);
    }
}

/// The namespace groups partition the pod records: the namespaces listed
/// are distinct and are exactly those of the pods, and every record is in
/// the group of its own namespace and in no other.
pub proof fn lemma_namespace_groups_partition(pods: Seq<PodFacts>)
    requires
        pods.len() <= usize::MAX,
    ensures
        forall|a: int, b: int| 0 <= a < b < first_seen(pod_namespaces(pods)).len()
            ==> first_seen(pod_namespaces(pods))[a] != first_seen(pod_namespaces(pods))[b],
        forall|i: int| 0 <= i < pods.len() ==> first_seen(pod_namespaces(pods)).contains(#[trigger] pods[i].namespace@),
        forall|x: Seq<char>| #[trigger] first_seen(pod_namespaces(pods)).contains(x)
            ==> exists|i: int| 0 <= i < pods.len() && pods[i].namespace@ == x,
        forall|i: usize, ns: Seq<char>| i < pods.len() ==>
            (#[trigger] namespace_members(pods, ns, pods.len()).contains(i) <==> pods[i as int].namespace@ == ns),
{
    let all = pod_namespaces(pods);
    lemma_first_seen(all);
    assert(all.len() == pods.len());
    assert forall|i: int| 0 <= i < pods.len() implies first_seen(all).contains(#[trigger] pods[i].namespace@) by {
        assert(all[i] == pods[i].namespace@);
        assert(all.contains(pods[i].namespace@));
    }
    assert forall|x: Seq<char>| #[trigger] first_seen(all).contains(x)
        implies exists|i: int| 0 <= i < pods.len() && pods[i].namespace@ == x by {
        assert(all.contains(x));
        let k = choose|k: int| 0 <= k < all.len() && all[k] == x;
        assert(all[k] == pods[k].namespace@);
    }
    assert forall|i: usize, ns: Seq<char>| i < pods.len() implies
        (#[trigger] namespace_members(pods, ns, pods.len()).contains(i) <==> pods[i as int].namespace@ == ns) by {
        lemma_namespace_members(pods, ns, pods.len(), i);
    }
}

} // verus!

verus! {

/// A pod record counts in the usage of the node it runs on unless a later
/// record has both its namespace and its name: records of pods that share a
/// name in different namespaces never supersede each other.
pub proof fn lemma_node_counts_record_unless_superseded(pods: Seq<PodFacts>, node: Seq<char>, i: usize)
    requires
        pods.len() <= usize::MAX,
        i < pods.len(),
        pods[i as int].node@ == node,
    ensures
        node_members(pods, node, pods.len()).contains(i) <==> !(exists|j: int|
            i < j < pods.len() && (#[trigger] pods[j]).namespace@ == pods[i as int].namespace@
                && pods[j].name@ == pods[i as int].name@),
{
    lemma_node_members(pods, node, pods.len(), i);
    if exists|j: int| i < j < pods.len() && (#[trigger] pods[j]).namespace@ == pods[i as int].namespace@
        && pods[j].name@ == pods[i as int].name@ {
        let j = choose|j: int| i < j < pods.len() && (#[trigger] pods[j]).namespace@ == pods[i as int].namespace@
            && pods[j].name@ == pods[i as int].name@;
        assert(same_pod(pods[j], pods[i as int]));
    }
}

/// A pod record counts in no node's usage but its own node's.
pub proof fn lemma_node_counts_only_its_node(pods: Seq<PodFacts>, node: Seq<char>, i: usize)
    requires
        pods.len() <= usize::MAX,
        i < pods.len(),
        pods[i as int].node@ != node,
    ensures
        !node_members(pods, node, pods.len()).contains(i),
{
    lemma_node_members(pods, node, pods.len(), i);
}

} // verus!
