//! A JSON document held as plain values, and the lookups that the trace,
//! metrics and apiserver readers make on it.
//!
//! The accessors follow the conventions of the documents this project reads:
//! a missing member reads as `null`, a string is read only from a string, an
//! unsigned integer only from a non-negative integer literal, a signed one
//! from any integer literal that fits in `i64`.
use vstd::prelude::*;

verus! {

/// A JSON value. Numbers are kept as the decoder classified them: a
/// non-negative integer, a negative integer, or any other number, which is
/// kept as its decimal text.
pub enum Json {
    Null,
    Bool(bool),
    PosInt(u64),
    NegInt(i64),
    Float(String),
    Str(String),
    Array(Vec<Json>),
    Object(Vec<(String, Json)>),
}

/// The mathematical model of a JSON value.
pub enum JsonV {
    Null,
    Bool(bool),
    PosInt(u64),
    NegInt(i64),
    Float(Seq<char>),
    Str(Seq<char>),
    Array(Seq<JsonV>),
    Object(Seq<(Seq<char>, JsonV)>),
}

/// The model of each element of a sequence of values.
pub open spec fn view_seq(s: Seq<Json>) -> Seq<JsonV>
    decreases s,
{
    if s.len() == 0 {
        Seq::empty()
    } else {
        view_seq(s.drop_last()).push(view_json(s.last()))
    }
}

/// The model of each member of an object.
pub open spec fn view_members(s: Seq<(String, Json)>) -> Seq<(Seq<char>, JsonV)>
    decreases s,
{
    if s.len() == 0 {
        Seq::empty()
    } else {
        view_members(s.drop_last()).push((s.last().0@, view_json(s.last().1)))
    }
}

/// The model of a value.
pub open spec fn view_json(j: Json) -> JsonV
    decreases j,
{
    match j {
        Json::Null => JsonV::Null,
        Json::Bool(b) => JsonV::Bool(b),
        Json::PosInt(n) => JsonV::PosInt(n),
        Json::NegInt(n) => JsonV::NegInt(n),
        Json::Float(t) => JsonV::Float(t@),
        Json::Str(s) => JsonV::Str(s@),
        Json::Array(v) => JsonV::Array(view_seq(v@)),
        Json::Object(m) => JsonV::Object(view_members(m@)),
    }
}

impl View for Json {
    type V = JsonV;

    open spec fn view(&self) -> JsonV {
        view_json(*self)
    }
}

/// Index of the first member named `key`, if any.
pub open spec fn first_member(m: Seq<(Seq<char>, JsonV)>, key: Seq<char>) -> Option<int>
    decreases m.len(),
{
    if m.len() == 0 {
        None
    } else {
        match first_member(m.drop_last(), key) {
            Some(i) => Some(i),
            None => if m.last().0 == key {
                Some(m.len() - 1)
            } else {
                None
            },
        }
    }
}

/// `v[key]`: the member named `key` of an object, `null` otherwise.
pub open spec fn jget(v: JsonV, key: Seq<char>) -> JsonV {
    match v {
        JsonV::Object(m) => match first_member(m, key) {
            Some(i) => m[i].1,
            None => JsonV::Null,
        },
        _ => JsonV::Null,
    }
}

/// `v[i]`: the element at `i` of an array, `null` otherwise.
pub open spec fn jidx(v: JsonV, i: int) -> JsonV {
    match v {
        JsonV::Array(a) => if 0 <= i < a.len() {
            a[i]
        } else {
            JsonV::Null
        },
        _ => JsonV::Null,
    }
}

/// The text of a string value.
pub open spec fn jstr(v: JsonV) -> Option<Seq<char>> {
    match v {
        JsonV::Str(s) => Some(s),
        _ => None,
    }
}

/// The elements of an array value.
pub open spec fn jarr(v: JsonV) -> Option<Seq<JsonV>> {
    match v {
        JsonV::Array(a) => Some(a),
        _ => None,
    }
}

/// The elements of an array value; none for any other value.
pub open spec fn jarr_or_empty(v: JsonV) -> Seq<JsonV> {
    match v {
        JsonV::Array(a) => a,
        _ => Seq::empty(),
    }
}

/// A non-negative integer value.
pub open spec fn ju64(v: JsonV) -> Option<u64> {
    match v {
        JsonV::PosInt(n) => Some(n),
        _ => None,
    }
}

/// An integer value that fits in `i64`.
pub open spec fn ji64(v: JsonV) -> Option<i64> {
    match v {
        JsonV::PosInt(n) => if n <= i64::MAX {
            Some(n as i64)
        } else {
            None
        },
        JsonV::NegInt(n) => Some(n),
        _ => None,
    }
}

/// The model of an optional reference: a missing value reads as `null`.
pub open spec fn or_null(r: Option<&Json>) -> JsonV {
    match r {
        Some(j) => j@,
        None => JsonV::Null,
    }
}

/// The model of an array has one element per element, each its model.
pub proof fn lemma_view_seq(s: Seq<Json>)
    ensures
        view_seq(s).len() == s.len(),
        forall|i: int| 0 <= i < s.len() ==> #[trigger] view_seq(s)[i] == view_json(s[i]),
    decreases s.len(),
{
    if s.len() > 0 {
        lemma_view_seq(s.drop_last());
    }
}

/// The model of an object has one member per member, each its key and
/// the model of its value.
pub proof fn lemma_view_members(s: Seq<(String, Json)>)
    ensures
        view_members(s).len() == s.len(),
        forall|i: int|
            0 <= i < s.len() ==> #[trigger] view_members(s)[i] == (s[i].0@, view_json(s[i].1)),
    decreases s.len(),
{
    if s.len() > 0 {
        lemma_view_members(s.drop_last());
    }
}

/// When no member before `n` has `key`, the first member with `key` is at
/// `n` if that one has it, and there is none if `n` is the end.
pub proof fn lemma_first_member(m: Seq<(Seq<char>, JsonV)>, key: Seq<char>, n: int)
    requires
        0 <= n <= m.len(),
        forall|j: int| 0 <= j < n ==> m[j].0 != key,
    ensures
        n < m.len() && m[n].0 == key ==> first_member(m, key) == Some(n),
        n == m.len() ==> first_member(m, key) is None,
    decreases m.len(),
{
    if m.len() > 0 {
        if n == m.len() {
            lemma_first_member(m.drop_last(), key, n - 1);
        } else if n < m.len() - 1 {
            lemma_first_member(m.drop_last(), key, n);
        } else {
            lemma_first_member(m.drop_last(), key, n);
        }
    }
}

impl Json {
    /// The elements of this value if it is an array.
    pub fn as_array(&self) -> (r: Option<&Vec<Json>>)
        ensures
            match r {
                Some(a) => jarr(self@) == Some(view_seq(a@)),
                None => jarr(self@) is None,
            },
    {
        match self {
            Json::Array(a) => Some(a),
            _ => None,
        }
    }

    /// The text of this value if it is a string.
    pub fn as_str(&self) -> (r: Option<&str>)
        ensures
            match r {
                Some(s) => jstr(self@) == Some(s@),
                None => jstr(self@) is None,
            },
    {
        match self {
            Json::Str(s) => Some(s.as_str()),
            _ => None,
        }
    }

    /// This value as a non-negative integer.
    pub fn as_u64(&self) -> (r: Option<u64>)
        ensures
            r == ju64(self@),
    {
        match self {
            Json::PosInt(n) => Some(*n),
            _ => None,
        }
    }

    /// This value as an integer that fits in `i64`.
    pub fn as_i64(&self) -> (r: Option<i64>)
        ensures
            r == ji64(self@),
    {
        match self {
            Json::PosInt(n) => if *n <= 9223372036854775807u64 {
                Some(*n as i64)
            } else {
                None
            },
            Json::NegInt(n) => Some(*n),
            _ => None,
        }
    }

    /// The member named `key`, if this value is an object that has one.
    pub fn get(&self, key: &str) -> (r: Option<&Json>)
        ensures
            or_null(r) == jget(self@, key@),
    {
        match self {
            Json::Object(m) => {
                proof {
                    lemma_view_members(m@);
                }
                let ghost vm = view_members(m@);
                let mut i: usize = 0;
                while i < m.len()
                    invariant
                        i <= m.len(),
                        vm == view_members(m@),
                        vm.len() == m.len(),
                        forall|j: int| 0 <= j < m.len() ==> #[trigger] vm[j] == (m@[j].0@, view_json(m@[j].1)),
                        forall|j: int| 0 <= j < i ==> vm[j].0 != key@,
                        self@ == JsonV::Object(vm),
                    decreases m.len() - i,
                {
                    if crate::text::str_eq(m[i].0.as_str(), key) {
                        proof {
                            lemma_first_member(vm, key@, i as int);
                        }
                        return Some(&m[i].1);
                    }
                    i += 1;
                }
                proof {
                    lemma_first_member(vm, key@, i as int);
                }
                None
            },
            _ => None,
        }
    }

    /// The element at `i`, if this value is an array that long.
    pub fn at(&self, i: usize) -> (r: Option<&Json>)
        ensures
            or_null(r) == jidx(self@, i as int),
    {
        match self {
            Json::Array(a) => {
                proof {
                    lemma_view_seq(a@);
                }
                if i < a.len() {
                    Some(&a[i])
                } else {
                    None
                }
            },
            _ => None,
        }
    }
}

/// `r[key]` where a missing `r` reads as `null`.
pub fn field<'a>(r: Option<&'a Json>, key: &str) -> (out: Option<&'a Json>)
    ensures
        or_null(out) == jget(or_null(r), key@),
{
    match r {
        Some(j) => j.get(key),
        None => None,
    }
}

pub broadcast proof fn lemma_array_elements(v: Vec<Json>)
    ensures
        #[trigger] view_seq(v@).len() == v@.len(),
        forall|i: int| 0 <= i < v@.len() ==> #[trigger] view_seq(v@)[i] == v@[i]@,
{
    lemma_view_seq(v@);
}

} // verus!

verus! {

/// The elements of `r` if it is an array.
pub fn array_of<'a>(r: Option<&'a Json>) -> (out: Option<&'a Vec<Json>>)
    ensures
        match out {
            Some(a) => jarr(or_null(r)) == Some(view_seq(a@)),
            None => jarr(or_null(r)) is None,
        },
{
    match r {
        Some(j) => j.as_array(),
        None => None,
    }
}

/// The text of `r` if it is a string.
pub fn str_of<'a>(r: Option<&'a Json>) -> (out: Option<&'a str>)
    ensures
        match out {
            Some(s) => jstr(or_null(r)) == Some(s@),
            None => jstr(or_null(r)) is None,
        },
{
    match r {
        Some(j) => j.as_str(),
        None => None,
    }
}

} // verus!
