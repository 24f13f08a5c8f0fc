//! Which pods each traced service claims, and which pods no service claims.
//!
//! A service claims the pods named after it: a pod whose name is the service
//! name or starts with the service name followed by `-`. Each service's power
//! is later split over its routes in proportion to their busy time; pods
//! that no traced service claims make up the `_unattributed` bucket.
use vstd::prelude::*;
use crate::attributor::Weight;
use crate::text::{chars_of, chars_eq};

verus! {

/// Whether a service claims a pod of the given name.
pub open spec fn claims_pod(service: Seq<char>, pod: Seq<char>) -> bool {
    pod == service || (service + seq!['-']).is_prefix_of(pod)
}

/// Whether some weight entry belongs to `service`.
pub open spec fn has_service(w: Seq<Weight>, service: Seq<char>) -> bool {
    exists|i: int| 0 <= i < w.len() && (#[trigger] w[i]).service@ == service
}

/// Whether some pod is claimed by `service`.
pub open spec fn resolved(service: Seq<char>, pods: Seq<(String, String)>) -> bool {
    exists|k: int| 0 <= k < pods.len() && claims_pod(service, (#[trigger] pods[k]).1@)
}

/// Whether some service of the weights claims the pod.
pub open spec fn claimed(w: Seq<Weight>, pod: Seq<char>) -> bool {
    exists|i: int| 0 <= i < w.len() && claims_pod((#[trigger] w[i]).service@, pod)
}

/// Total busy time of the weight entries of `service`.
pub open spec fn service_busy(w: Seq<Weight>, service: Seq<char>) -> nat
    decreases w.len(),
{
    if w.len() == 0 {
        0
    } else {
        service_busy(w.drop_last(), service) + if w.last().service@ == service {
            w.last().busy_nanos as nat
        } else {
            0
        }
    }
}

/// The (route, busy time) entries of `service`, in order.
pub open spec fn service_routes(w: Seq<Weight>, service: Seq<char>) -> Seq<(Seq<char>, nat)>
    decreases w.len(),
{
    if w.len() == 0 {
        Seq::empty()
    } else {
        service_routes(w.drop_last(), service) + if w.last().service@ == service {
            seq![(w.last().route@, w.last().busy_nanos as nat)]
        } else {
            Seq::empty()
        }
    }
}

/// A sequence of indices that increases strictly.
pub open spec fn increasing(s: Seq<usize>) -> bool {
    forall|a: int, b: int| 0 <= a < b < s.len() ==> s[a] < s[b]
}

/// What one traced service claims.
pub struct ServiceClaim {
    pub service: String,
    /// Indices of the claimed pods, in order.
    pub pods: Vec<usize>,
    /// The service's routes with their busy time, in order.
    pub routes: Vec<(String, u128)>,
    /// The service's total busy time, clamped to what a `u128` holds.
    pub busy_nanos: u128,
}

/// The view of a route list.
pub open spec fn routes_view(r: Seq<(String, u128)>) -> Seq<(Seq<char>, nat)> {
    r.map_values(|e: (String, u128)| (e.0@, e.1 as nat))
}

/// How the traced services split the pods among themselves.
pub struct Claims {
    /// One entry per traced service that claims at least one pod.
    pub services: Vec<ServiceClaim>,
    /// The traced services that claim no pod.
    pub unresolved: Vec<String>,
    /// Indices of the pods that no traced service claims, in order.
    pub unclaimed: Vec<usize>,
}

/// Whether some claim is that of `service`.
pub open spec fn in_claims(services: Seq<ServiceClaim>, service: Seq<char>) -> bool {
    exists|a: int| 0 <= a < services.len() && (#[trigger] services[a]).service@ == service
}

/// Whether `name` is in the list.
pub open spec fn in_names(names: Seq<String>, name: Seq<char>) -> bool {
    exists|a: int| 0 <= a < names.len() && (#[trigger] names[a])@ == name
}

/// Whether a service is listed where it belongs: among the claims when it
/// claims some pod, among the unresolved services otherwise.
pub open spec fn covered(
    services: Seq<ServiceClaim>,
    unresolved: Seq<String>,
    pods: Seq<(String, String)>,
    service: Seq<char>,
) -> bool {
    if resolved(service, pods) {
        in_claims(services, service)
    } else {
        in_names(unresolved, service)
    }
}

/// The claim of `service` over `pods`, given the weights `w`.
pub open spec fn is_claim_of(c: ServiceClaim, w: Seq<Weight>, pods: Seq<(String, String)>) -> bool {
    &&& increasing(c.pods@)
    &&& forall|k: int| 0 <= k < c.pods@.len() ==> (#[trigger] c.pods@[k]) < pods.len()
    &&& forall|k: usize| #[trigger] c.pods@.contains(k) <==> (k < pods.len() && claims_pod(c.service@, pods[k as int].1@))
    &&& routes_view(c.routes@) == service_routes(w, c.service@)
    &&& c.busy_nanos as nat == if service_busy(w, c.service@) <= u128::MAX {
        service_busy(w, c.service@)
    } else {
        u128::MAX as nat
    }
}

/// The full contract of a claim plan.
pub open spec fn is_plan(c: Claims, w: Seq<Weight>, pods: Seq<(String, String)>) -> bool {
    &&& forall|i: int| 0 <= i < c.services@.len() ==> is_claim_of(#[trigger] c.services@[i], w, pods)
    &&& forall|i: int| 0 <= i < c.services@.len() ==> has_service(w, (#[trigger] c.services@[i]).service@)
    &&& forall|i: int, j: int| 0 <= i < j < c.services@.len() ==>
        (#[trigger] c.services@[i]).service@ != (#[trigger] c.services@[j]).service@
    &&& forall|i: int| 0 <= i < c.unresolved@.len() ==> has_service(w, (#[trigger] c.unresolved@[i])@)
    &&& forall|i: int| 0 <= i < c.unresolved@.len() ==> !resolved((#[trigger] c.unresolved@[i])@, pods)
    &&& forall|i: int, j: int| 0 <= i < j < c.unresolved@.len() ==>
        (#[trigger] c.unresolved@[i])@ != (#[trigger] c.unresolved@[j])@
    &&& forall|s: Seq<char>| #[trigger] has_service(w, s) ==> covered(c.services@, c.unresolved@, pods, s)
    &&& increasing(c.unclaimed@)
    &&& forall|k: usize| #[trigger] c.unclaimed@.contains(k) <==> (k < pods.len() && !claimed(w, pods[k as int].1@))
}

} // verus!

verus! {

/// Whether the service named by `service` claims the pod named by `pod`.
pub fn claims(service: &Vec<char>, pod: &Vec<char>) -> (r: bool)
    ensures
        r == claims_pod(service@, pod@),
{
    if chars_eq(service, pod) {
        return true;
    }
    let n = service.len();
    if pod.len() <= n {
        assert(!(service@ + seq!['-']).is_prefix_of(pod@));
        return false;
    }
    let mut i: usize = 0;
    while i < n
        invariant
            n == service.len(),
            n < pod.len(),
            i <= n,
            forall|j: int| 0 <= j < i ==> service@[j] == pod@[j],
        decreases n - i,
    {
        if service[i] != pod[i] {
            assert((service@ + seq!['-'])[i as int] != pod@[i as int]);
            return false;
        }
        i += 1;
    }
    let r = pod[n] == '-';
    assert((service@ + seq!['-'])[n as int] == '-');
    if r {
        assert forall|j: int| 0 <= j < (service@ + seq!['-']).len() implies (service@ + seq!['-'])[j] == pod@[j] by {
            if j < n {
                assert((service@ + seq!['-'])[j] == service@[j]);
            }
        }
    }
    r
}

/// The routes and total busy time of one service.
fn service_summary(w: &Vec<Weight>, service: &String) -> (r: (Vec<(String, u128)>, u128))
    ensures
        routes_view(r.0@) == service_routes(w@, service@),
        r.1 as nat == if service_busy(w@, service@) <= u128::MAX {
            service_busy(w@, service@)
        } else {
            u128::MAX as nat
        },
{
    let mut routes: Vec<(String, u128)> = Vec::new();
    let mut total: u128 = 0;
    let mut i: usize = 0;
    while i < w.len()
        invariant
            i <= w.len(),
            routes_view(routes@) == service_routes(w@.take(i as int), service@),
            total as nat == if service_busy(w@.take(i as int), service@) <= u128::MAX {
                service_busy(w@.take(i as int), service@)
            } else {
                u128::MAX as nat
            },
        decreases w.len() - i,
    {
        assert(w@.take(i + 1).drop_last() =~= w@.take(i as int));
        assert(w@.take(i + 1).last() == w@[i as int]);
        if w[i].service == *service {
            let ghost before = routes@;
            routes.push((w[i].route.clone(), w[i].busy_nanos));
            assert(routes_view(routes@) =~= routes_view(before) + seq![(w@[i as int].route@, w@[i as int].busy_nanos as nat)]);
            total = match total.checked_add(w[i].busy_nanos) {
                Some(t) => t,
                None => 340282366920938463463374607431768211455u128,
            };
        }
        i += 1;
    }
    assert(w@.take(w.len() as int) =~= w@);
    (routes, total)
}

/// Indices of the pods a service claims, in order.
fn claimed_pods(service: &Vec<char>, pod_names: &Vec<Vec<char>>) -> (r: Vec<usize>)
    ensures
        increasing(r@),
        forall|k: int| 0 <= k < r@.len() ==> (#[trigger] r@[k]) < pod_names@.len(),
        forall|k: usize| #[trigger] r@.contains(k) <==> (k < pod_names@.len() && claims_pod(service@, pod_names@[k as int]@)),
{
    let mut r: Vec<usize> = Vec::new();
    for k in 0..pod_names.len()
        invariant
            increasing(r@),
            forall|j: int| 0 <= j < r@.len() ==> (#[trigger] r@[j]) < k,
            forall|j: usize| #[trigger] r@.contains(j) <==> (j < k && claims_pod(service@, pod_names@[j as int]@)),
    {
        if claims(service, &pod_names[k]) {
            let ghost before = r@;
            r.push(k);
            assert forall|j: usize| #[trigger] r@.contains(j) <==> (j < k + 1 && claims_pod(service@, pod_names@[j as int]@)) by {
                if r@.contains(j) && j != k {
                    let x = choose|x: int| 0 <= x < r@.len() && r@[x] == j;
                    assert(before[x] == j);
                    assert(before.contains(j));
                }
                if j < k && claims_pod(service@, pod_names@[j as int]@) {
                    assert(before.contains(j));
                    let x = choose|x: int| 0 <= x < before.len() && before[x] == j;
                    assert(r@[x] == j);
                }
                if j == k {
                    assert(r@[before.len() as int] == k);
                }
            }
        } else {
            assert forall|j: usize| #[trigger] r@.contains(j) <==> (j < k + 1 && claims_pod(service@, pod_names@[j as int]@)) by {
                if r@.contains(j) {
                    let x = choose|x: int| 0 <= x < r@.len() && r@[x] == j;
                }
            }
        }
    }
    r
}

} // verus!

verus! {

fn names_of_pods(pods: &Vec<(String, String)>) -> (r: Vec<Vec<char>>)
    ensures
        r@.len() == pods@.len(),
        forall|k: int| 0 <= k < pods@.len() ==> (#[trigger] r@[k])@ == pods@[k].1@,
{
    let mut r: Vec<Vec<char>> = Vec::new();
    for k in 0..pods.len()
        invariant
            r@.len() == k,
            forall|j: int| 0 <= j < k ==> (#[trigger] r@[j])@ == pods@[j].1@,
    {
        r.push(chars_of(pods[k].1.as_str()));
    }
    r
}

fn names_of_services(w: &Vec<Weight>) -> (r: Vec<Vec<char>>)
    ensures
        r@.len() == w@.len(),
        forall|k: int| 0 <= k < w@.len() ==> (#[trigger] r@[k])@ == w@[k].service@,
{
    let mut r: Vec<Vec<char>> = Vec::new();
    for k in 0..w.len()
        invariant
            r@.len() == k,
            forall|j: int| 0 <= j < k ==> (#[trigger] r@[j])@ == w@[j].service@,
    {
        r.push(chars_of(w[k].service.as_str()));
    }
    r
}

fn claimed_by_any(services: &Vec<Vec<char>>, pod: &Vec<char>) -> (r: bool)
    ensures
        r == exists|i: int| 0 <= i < services@.len() && claims_pod((#[trigger] services@[i])@, pod@),
{
    for i in 0..services.len()
        invariant
            forall|j: int| 0 <= j < i ==> !claims_pod((#[trigger] services@[j])@, pod@),
    {
        if claims(&services[i], pod) {
            return true;
        }
    }
    false
}

fn find_service(list: &Vec<ServiceClaim>, name: &String) -> (r: bool)
    ensures
        r == exists|i: int| 0 <= i < list@.len() && (#[trigger] list@[i]).service@ == name@,
{
    for i in 0..list.len()
        invariant
            forall|j: int| 0 <= j < i ==> (#[trigger] list@[j]).service@ != name@,
    {
        if list[i].service == *name {
            return true;
        }
    }
    false
}

fn find_name(list: &Vec<String>, name: &String) -> (r: bool)
    ensures
        r == exists|i: int| 0 <= i < list@.len() && (#[trigger] list@[i])@ == name@,
{
    for i in 0..list.len()
        invariant
            forall|j: int| 0 <= j < i ==> (#[trigger] list@[j])@ != name@,
    {
        if list[i] == *name {
            return true;
        }
    }
    false
}

proof fn lemma_claims_push(services: Seq<ServiceClaim>, x: ServiceClaim, s: Seq<char>)
    requires
        in_claims(services, s),
    ensures
        in_claims(services.push(x), s),
{
    let a = choose|a: int| 0 <= a < services.len() && (#[trigger] services[a]).service@ == s;
    assert(services.push(x)[a] == services[a]);
}

proof fn lemma_names_push(names: Seq<String>, x: String, s: Seq<char>)
    requires
        in_names(names, s),
    ensures
        in_names(names.push(x), s),
{
    let a = choose|a: int| 0 <= a < names.len() && (#[trigger] names[a])@ == s;
    assert(names.push(x)[a] == names[a]);
}

/// The invariant of the service pass of `plan` over the weights `p`.
pub open spec fn service_pass(
    services: Seq<ServiceClaim>,
    unresolved: Seq<String>,
    p: Seq<Weight>,
    w: Seq<Weight>,
    pods: Seq<(String, String)>,
) -> bool {
    &&& forall|a: int| 0 <= a < services.len() ==> is_claim_of(#[trigger] services[a], w, pods)
    &&& forall|a: int| 0 <= a < services.len() ==> has_service(p, (#[trigger] services[a]).service@)
    &&& forall|a: int| 0 <= a < services.len() ==> resolved((#[trigger] services[a]).service@, pods)
    &&& forall|a: int, b: int| 0 <= a < b < services.len() ==>
        (#[trigger] services[a]).service@ != (#[trigger] services[b]).service@
    &&& forall|a: int| 0 <= a < unresolved.len() ==> has_service(p, (#[trigger] unresolved[a])@)
    &&& forall|a: int| 0 <= a < unresolved.len() ==> !resolved((#[trigger] unresolved[a])@, pods)
    &&& forall|a: int, b: int| 0 <= a < b < unresolved.len() ==>
        (#[trigger] unresolved[a])@ != (#[trigger] unresolved[b])@
    &&& forall|s: Seq<char>| #[trigger] has_service(p, s) ==> covered(services, unresolved, pods, s)
}

proof fn lemma_has_service_step(w: Seq<Weight>, i: int)
    requires
        0 <= i < w.len(),
    ensures
        forall|s: Seq<char>| #[trigger] has_service(w.take(i), s) ==> has_service(w.take(i + 1), s),
        forall|s: Seq<char>| #[trigger] has_service(w.take(i + 1), s) ==> has_service(w.take(i), s) || s == w[i].service@,
        has_service(w.take(i + 1), w[i].service@),
{
    let p = w.take(i);
    let q = w.take(i + 1);
    assert(q[i] == w[i]);
    assert forall|s: Seq<char>| #[trigger] has_service(p, s) implies has_service(q, s) by {
        let j = choose|j: int| 0 <= j < p.len() && (#[trigger] p[j]).service@ == s;
        assert(q[j] == p[j]);
    }
    assert forall|s: Seq<char>| #[trigger] has_service(q, s) implies has_service(p, s) || s == w[i].service@ by {
        let j = choose|j: int| 0 <= j < q.len() && (#[trigger] q[j]).service@ == s;
        if j < i {
            assert(p[j] == q[j]);
        }
    }
}

fn note_service(
    services: &mut Vec<ServiceClaim>,
    unresolved: &mut Vec<String>,
    w: &Vec<Weight>,
    i: usize,
    pods: &Vec<(String, String)>,
    pod_names: &Vec<Vec<char>>,
)
    requires
        i < w@.len(),
        pod_names@.len() == pods@.len(),
        forall|k: int| 0 <= k < pods@.len() ==> (#[trigger] pod_names@[k])@ == pods@[k].1@,
        service_pass(old(services)@, old(unresolved)@, w@.take(i as int), w@, pods@),
    ensures
        service_pass(final(services)@, final(unresolved)@, w@.take(i + 1), w@, pods@),
{
    let name = &w[i].service;
    let ghost p = w@.take(i as int);
    let ghost q = w@.take(i + 1);
    proof {
        lemma_has_service_step(w@, i as int);
    }
    let seen_claim = find_service(services, name);
    let seen_name = find_name(unresolved, name);
    if seen_claim || seen_name {
        proof {
            if seen_claim {
                let a = choose|a: int| 0 <= a < services@.len() && (#[trigger] services@[a]).service@ == name@;
                assert(resolved(services@[a].service@, pods@));
            } else {
                let a = choose|a: int| 0 <= a < unresolved@.len() && (#[trigger] unresolved@[a])@ == name@;
                assert(!resolved(unresolved@[a]@, pods@));
            }
        }
        return;
    }
    let name_chars = chars_of(name.as_str());
    let claimed = claimed_pods(&name_chars, pod_names);
    proof {
        if resolved(name@, pods@) {
            let k = choose|k: int| 0 <= k < pods@.len() && claims_pod(name@, (#[trigger] pods@[k]).1@);
            assert(k < pods.len());
            let ku: usize = k as usize;
            assert(ku as int == k);
            assert(pod_names@[k]@ == pods@[k].1@);
            assert(claims_pod(name_chars@, pod_names@[ku as int]@));
            assert(claimed@.contains(ku));
        }
        if claimed@.len() > 0 {
            let k = claimed@[0];
            assert(claimed@.contains(k));
            assert(pod_names@[k as int]@ == pods@[k as int].1@);
            assert(claims_pod(name@, pods@[k as int].1@));
        }
    }
    if claimed.len() == 0 {
        let ghost before = unresolved@;
        unresolved.push(name.clone());
        proof {
            assert(unresolved@[before.len() as int]@ == name@);
            assert forall|s: Seq<char>| #[trigger] has_service(q, s) implies covered(services@, unresolved@, pods@, s) by {
                if s != name@ {
                    assert(has_service(p, s));
                    if !resolved(s, pods@) {
                        lemma_names_push(before, unresolved@[before.len() as int], s);
                        assert(unresolved@ == before.push(unresolved@[before.len() as int]));
                    }
                }
            }
            assert forall|a: int, b: int| 0 <= a < b < unresolved@.len() implies
                (#[trigger] unresolved@[a])@ != (#[trigger] unresolved@[b])@ by {
                assert(unresolved@[a] == before[a]);
                if b < before.len() {
                    assert(unresolved@[b] == before[b]);
                }
            }
            assert forall|a: int| 0 <= a < unresolved@.len() implies has_service(q, (#[trigger] unresolved@[a])@) by {
                if a < before.len() {
                    assert(unresolved@[a] == before[a]);
                }
            }
            assert forall|a: int| 0 <= a < unresolved@.len() implies !resolved((#[trigger] unresolved@[a])@, pods@) by {
                if a < before.len() {
                    assert(unresolved@[a] == before[a]);
                }
            }
        }
    } else {
        let (routes, busy) = service_summary(w, name);
        let ghost before = services@;
        let entry = ServiceClaim { service: name.clone(), pods: claimed, routes, busy_nanos: busy };
        services.push(entry);
        proof {
            assert(services@[before.len() as int].service@ == name@);
            assert forall|s: Seq<char>| #[trigger] has_service(q, s) implies covered(services@, unresolved@, pods@, s) by {
                if s != name@ {
                    assert(has_service(p, s));
                    if resolved(s, pods@) {
                        lemma_claims_push(before, entry, s);
                    }
                }
            }
            assert forall|a: int, b: int| 0 <= a < b < services@.len() implies
                (#[trigger] services@[a]).service@ != (#[trigger] services@[b]).service@ by {
                assert(services@[a] == before[a]);
                if b < before.len() {
                    assert(services@[b] == before[b]);
                }
            }
            assert forall|a: int| 0 <= a < services@.len() implies is_claim_of(#[trigger] services@[a], w@, pods@) by {
                if a < before.len() {
                    assert(services@[a] == before[a]);
                }
            }
            assert forall|a: int| 0 <= a < services@.len() implies has_service(q, (#[trigger] services@[a]).service@) by {
                if a < before.len() {
                    assert(services@[a] == before[a]);
                }
            }
            assert forall|a: int| 0 <= a < services@.len() implies resolved((#[trigger] services@[a]).service@, pods@) by {
                if a < before.len() {
                    assert(services@[a] == before[a]);
                }
            }
        }
    }
}

/// Splits the pods among the traced services of `w`: each service claims the
/// pods named after it; services that claim none are unresolved; pods that
/// no service claims are unclaimed.
pub fn plan(w: &Vec<Weight>, pods: &Vec<(String, String)>) -> (c: Claims)
    ensures
        is_plan(c, w@, pods@),
{
    let pod_names = names_of_pods(pods);
    let mut services: Vec<ServiceClaim> = Vec::new();
    let mut unresolved: Vec<String> = Vec::new();
    for i in 0..w.len()
        invariant
            pod_names@.len() == pods@.len(),
            forall|k: int| 0 <= k < pods@.len() ==> (#[trigger] pod_names@[k])@ == pods@[k].1@,
            service_pass(services@, unresolved@, w@.take(i as int), w@, pods@),
    {
        note_service(&mut services, &mut unresolved, w, i, pods, &pod_names);
    }
    assert(w@.take(w.len() as int) =~= w@);
    let service_names = names_of_services(w);
    let mut unclaimed: Vec<usize> = Vec::new();
    for k in 0..pods.len()
        invariant
            pod_names@.len() == pods@.len(),
            forall|j: int| 0 <= j < pods@.len() ==> (#[trigger] pod_names@[j])@ == pods@[j].1@,
            service_names@.len() == w@.len(),
            forall|j: int| 0 <= j < w@.len() ==> (#[trigger] service_names@[j])@ == w@[j].service@,
            increasing(unclaimed@),
            forall|j: int| 0 <= j < unclaimed@.len() ==> (#[trigger] unclaimed@[j]) < k,
            forall|j: usize| #[trigger] unclaimed@.contains(j) <==> (j < k && !claimed(w@, pods@[j as int].1@)),
    {
        let hit = claimed_by_any(&service_names, &pod_names[k]);
        proof {
            if hit {
                let i = choose|i: int| 0 <= i < service_names@.len() && claims_pod((#[trigger] service_names@[i])@, pod_names@[k as int]@);
                assert(claims_pod(w@[i].service@, pods@[k as int].1@));
            }
            if claimed(w@, pods@[k as int].1@) {
                let i = choose|i: int| 0 <= i < w@.len() && claims_pod((#[trigger] w@[i]).service@, pods@[k as int].1@);
                assert(claims_pod(service_names@[i]@, pod_names@[k as int]@));
            }
        }
        let ghost before = unclaimed@;
        if !hit {
            unclaimed.push(k);
            assert forall|j: usize| #[trigger] unclaimed@.contains(j) <==> (j < k + 1 && !claimed(w@, pods@[j as int].1@)) by {
                if unclaimed@.contains(j) && j != k {
                    let x = choose|x: int| 0 <= x < unclaimed@.len() && unclaimed@[x] == j;
                    assert(before[x] == j);
                    assert(before.contains(j));
                }
                if j < k && !claimed(w@, pods@[j as int].1@) {
                    assert(before.contains(j));
                    let x = choose|x: int| 0 <= x < before.len() && before[x] == j;
                    assert(unclaimed@[x] == j);
                }
                if j == k {
                    assert(unclaimed@[before.len() as int] == k);
                }
            }
        } else {
            assert forall|j: usize| #[trigger] unclaimed@.contains(j) <==> (j < k + 1 && !claimed(w@, pods@[j as int].1@)) by {
                if unclaimed@.contains(j) {
                    assert(before.contains(j));
                }
            }
        }
    }
    Claims { services, unresolved, unclaimed }
}

} // verus!

verus! {

/// Every pod lands in exactly one place: either among the unclaimed pods
/// (the `_unattributed` bucket) or among the pods of some traced service,
/// never both, so no pod's power is dropped.
pub proof fn lemma_plan_partitions_pods(c: Claims, w: Seq<Weight>, pods: Seq<(String, String)>, k: usize)
    requires
        is_plan(c, w, pods),
        k < pods.len(),
    ensures
        c.unclaimed@.contains(k) <==> !(exists|i: int| 0 <= i < c.services@.len() && (#[trigger] c.services@[i]).pods@.contains(k)),
{
    if claimed(w, pods[k as int].1@) {
        let i = choose|i: int| 0 <= i < w.len() && claims_pod((#[trigger] w[i]).service@, pods[k as int].1@);
        let svc = w[i].service@;
        assert(has_service(w, svc));
        assert(resolved(svc, pods));
        assert(covered(c.services@, c.unresolved@, pods, svc));
        let a = choose|a: int| 0 <= a < c.services@.len() && (#[trigger] c.services@[a]).service@ == svc;
        assert(is_claim_of(c.services@[a], w, pods));
        assert(c.services@[a].pods@.contains(k));
    }
    if exists|i: int| 0 <= i < c.services@.len() && (#[trigger] c.services@[i]).pods@.contains(k) {
        let a = choose|a: int| 0 <= a < c.services@.len() && (#[trigger] c.services@[a]).pods@.contains(k);
        assert(is_claim_of(c.services@[a], w, pods));
        assert(has_service(w, c.services@[a].service@));
        let i = choose|i: int| 0 <= i < w.len() && (#[trigger] w[i]).service@ == c.services@[a].service@;
        assert(claims_pod(w[i].service@, pods[k as int].1@));
    }
}

} // verus!

verus! {

/// The sum of the busy times of a route list.
pub open spec fn route_total(r: Seq<(Seq<char>, nat)>) -> nat
    decreases r.len(),
{
    if r.len() == 0 {
        0
    } else {
        route_total(r.drop_last()) + r.last().1
    }
}

/// A service's route entries add up to its total busy time, so splitting
/// the service's power over its routes in proportion to their busy time
/// hands out exactly that power.
pub proof fn lemma_routes_sum_to_service_busy(w: Seq<Weight>, service: Seq<char>)
    ensures
        route_total(service_routes(w, service)) == service_busy(w, service),
    decreases w.len(),
{
    if w.len() > 0 {
        lemma_routes_sum_to_service_busy(w.drop_last(), service);
        let p = service_routes(w.drop_last(), service);
        if w.last().service@ == service {
            let e = (w.last().route@, w.last().busy_nanos as nat);
            assert((p + seq![e]).drop_last() =~= p);
        } else {
            assert(p + Seq::<(Seq<char>, nat)>::empty() =~= p);
        }
    }
}

} // verus!
