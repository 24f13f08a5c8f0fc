//! The requests the in-cluster apiserver client makes, and how it reads a
//! list response.
use vstd::prelude::*;
use crate::json::{Json, JsonV, jarr_or_empty, jget, lemma_view_members, lemma_first_member, view_members, view_seq};
use crate::text::{append_str, owned, str_eq, string_of};
use crate::feeder::{trim_chars, trim_spec};

verus! {

/// The path of a list request: the API group path, `/`, the plural kind.
pub fn list_path(api: &str, kind_plural: &str) -> (r: String)
    ensures
        r@ == api@ + seq!['/'] + kind_plural@,
{
    let mut r = owned(api);
    crate::text::push_char(&mut r, '/');
    append_str(&mut r, kind_plural);
    r
}

/// The path of a deployment's `scale` subresource.
pub open spec fn scale_path_spec(namespace: Seq<char>, deployment: Seq<char>) -> Seq<char> {
    "/apis/apps/v1/namespaces/"@ + namespace + "/deployments/"@ + deployment + "/scale"@
}

/// The path of a deployment's `scale` subresource.
pub fn scale_path(namespace: &str, deployment: &str) -> (r: String)
    ensures
        r@ == scale_path_spec(namespace@, deployment@),
{
    let mut r = owned("/apis/apps/v1/namespaces/");
    append_str(&mut r, namespace);
    append_str(&mut r, "/deployments/");
    append_str(&mut r, deployment);
    append_str(&mut r, "/scale");
    r
}

/// A JSON integer as the encoder writes an `i64`.
pub open spec fn int_json(n: i64) -> JsonV {
    if n >= 0 {
        JsonV::PosInt(n as u64)
    } else {
        JsonV::NegInt(n)
    }
}

/// The merge patch that sets a deployment's replica count:
/// `{"spec": {"replicas": n}}`.
pub fn scale_patch(replicas: i64) -> (j: Json)
    ensures
        j@ == JsonV::Object(seq![("spec"@, JsonV::Object(seq![("replicas"@, int_json(replicas))]))]),
{
    let n = if replicas >= 0 {
        Json::PosInt(replicas as u64)
    } else {
        Json::NegInt(replicas)
    };
    let mut inner: Vec<(String, Json)> = Vec::new();
    inner.push((owned("replicas"), n));
    proof {
        lemma_view_members(inner@);
    }
    assert(view_members(inner@) =~= seq![("replicas"@, int_json(replicas))]);
    let mut outer: Vec<(String, Json)> = Vec::new();
    outer.push((owned("spec"), Json::Object(inner)));
    proof {
        lemma_view_members(outer@);
    }
    assert(view_members(outer@) =~= seq![("spec"@, JsonV::Object(seq![("replicas"@, int_json(replicas))]))]);
    Json::Object(outer)
}

/// The `items` of a list response; none when it has no `items` array.
pub fn into_items(body: Json) -> (r: Vec<Json>)
    ensures
        view_seq(r@) == jarr_or_empty(jget(body@, "items"@)),
{
    let ghost b = body@;
    match body {
        Json::Object(mut m) => {
            proof {
                lemma_view_members(m@);
            }
            let ghost vm = view_members(m@);
            let mut i: usize = 0;
            while i < m.len()
                invariant
                    i <= m.len(),
                    vm.len() == m@.len(),
                    forall|j: int| 0 <= j < m@.len() ==> #[trigger] vm[j] == (m@[j].0@, m@[j].1@),
                    forall|j: int| 0 <= j < i ==> vm[j].0 != "items"@,
                    b == JsonV::Object(vm),
                    b == body@,
                decreases m.len() - i,
            {
                if str_eq(m[i].0.as_str(), "items") {
                    proof {
                        lemma_first_member(vm, "items"@, i as int);
                    }
                    let ghost before = m@;
                    let (_, v) = m.remove(i);
                    assert(v == before[i as int].1);
                    assert(jget(b, "items"@) == vm[i as int].1);
                    assert(vm[i as int].1 == v@);
                    let r: Vec<Json> = match v {
                        Json::Array(a) => {
                            assert(v@ == JsonV::Array(view_seq(a@)));
                            a
                        },
                        _ => {
                            let e: Vec<Json> = Vec::new();
                            assert(view_seq(e@) =~= Seq::<JsonV>::empty());
                            assert(jarr_or_empty(v@) == Seq::<JsonV>::empty());
                            e
                        },
                    };
                    assert(view_seq(r@) == jarr_or_empty(v@));
                    assert(view_seq(r@) == jarr_or_empty(jget(b, "items"@)));
                    return r;
                }
                i += 1;
            }
            proof {
                lemma_first_member(vm, "items"@, i as int);
            }
            let r: Vec<Json> = Vec::new();
            assert(view_seq(r@) =~= Seq::<JsonV>::empty());
            r
        },
        _ => {
            let r: Vec<Json> = Vec::new();
            assert(view_seq(r@) =~= Seq::<JsonV>::empty());
            r
        },
    }
}

} // verus!

verus! {

/// The apiserver's base URL for the in-cluster host and port.
pub fn api_base(host: &str, port: &str) -> (r: String)
    ensures
        r@ == "https://"@ + host@ + seq![':'] + port@,
{
    let mut r = owned("https://");
    append_str(&mut r, host);
    crate::text::push_char(&mut r, ':');
    append_str(&mut r, port);
    r
}

/// The `Authorization` header value for a service-account token as read
/// from its file: `Bearer ` and the token without surrounding white space.
pub fn bearer(token: &str) -> (r: String)
    ensures
        r@ == "Bearer "@ + trim_spec(token@),
{
    let t = trim_chars(&crate::text::chars_of(token));
    let mut r = owned("Bearer ");
    append_str(&mut r, string_of(&t).as_str());
    r
}

} // verus!
