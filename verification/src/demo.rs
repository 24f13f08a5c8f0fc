//! The demo shop: request routing by role, the CPU burner, and the price
//! that the compute role derives from the burner's digest.
use vstd::prelude::*;
use crate::otlp::{hex, hex_spec};
use vstd::string::StringSliceAdditionalSpecFns;
use crate::text::{chars_of, split_chars, split_on, str_eq, string_of, parts_view, lemma_split_on_nonempty};

verus! {

/// The SHA-256 digest of a byte string. Nothing further is stated of it.
pub uninterp spec fn sha256_spec(data: Seq<u8>) -> Seq<u8>;

/// `sha2::Sha256::digest`: the 32-byte SHA-256 digest of `data`, whose
/// value is taken as `sha256_spec(data)`.
#[verifier::external_body]
fn sha256(data: &[u8]) -> (r: Vec<u8>)
    ensures
        r@ == sha256_spec(data@),
        r@.len() == 32,
{
    <sha2::Sha256 as sha2::Digest>::digest(data).to_vec()
}

/// The bytes of the text `wattopus`, where the burner's chain starts.
pub open spec fn burn_seed() -> Seq<u8> {
    seq![119u8, 97u8, 116u8, 116u8, 111u8, 112u8, 117u8, 115u8]
}

/// The digest after `n` further rounds of SHA-256 over `h`.
pub open spec fn sha_chain(h: Seq<u8>, n: nat) -> Seq<u8>
    decreases n,
{
    if n == 0 {
        h
    } else {
        sha256_spec(sha_chain(h, (n - 1) as nat))
    }
}

/// Burns CPU: hashes `wattopus`, then hashes the digest `n` more times, and
/// returns the final digest in lowercase hexadecimal.
pub fn burn(n: u64) -> (r: String)
    ensures
        r@ == hex_spec(sha_chain(sha256_spec(burn_seed()), n as nat)),
        r@.len() == 64,
{
    let mut seed: Vec<u8> = Vec::new();
    seed.push(119u8);
    seed.push(97u8);
    seed.push(116u8);
    seed.push(116u8);
    seed.push(111u8);
    seed.push(112u8);
    seed.push(117u8);
    seed.push(115u8);
    assert(seed@ =~= burn_seed());
    let mut h = sha256(seed.as_slice());
    let mut i: u64 = 0;
    while i < n
        invariant
            i <= n,
            h@ == sha_chain(sha256_spec(burn_seed()), i as nat),
            h@.len() == 32,
        decreases n - i,
    {
        h = sha256(h.as_slice());
        i += 1;
    }
    let r = hex(h.as_slice());
    proof {
        crate::otlp::lemma_hex_spec_shape(h@);
    }
    r
}

/// The value of a hexadecimal digit byte.
pub open spec fn hex_digit_value(b: u8) -> Option<nat> {
    if 48 <= b <= 57 {
        Some((b - 48) as nat)
    } else if 97 <= b <= 102 {
        Some((b - 87) as nat)
    } else if 65 <= b <= 70 {
        Some((b - 55) as nat)
    } else {
        None
    }
}

/// The value of a run of hexadecimal digit bytes.
pub open spec fn hex_run_value(s: Seq<u8>) -> Option<nat>
    decreases s.len(),
{
    if s.len() == 0 {
        Some(0)
    } else {
        match (hex_run_value(s.drop_last()), hex_digit_value(s.last())) {
            (Some(v), Some(d)) => Some(v * 16 + d),
            _ => None,
        }
    }
}

/// `u32::from_str_radix(text, 16)` on a text of at most four bytes: an
/// optional `+` followed by at least one hexadecimal digit.
pub open spec fn radix16_spec(s: Seq<u8>) -> Option<nat> {
    if s.len() == 0 {
        None
    } else if s[0] == 43u8 {
        if s.len() == 1 {
            None
        } else {
            hex_run_value(s.drop_first())
        }
    } else {
        hex_run_value(s)
    }
}

/// The price the compute role quotes for a digest: its first four bytes
/// read in hexadecimal (zero if they are not a number), modulo 100, plus one.
pub open spec fn price_spec(digest: Seq<u8>) -> nat {
    (match radix16_spec(digest.take(4)) {
        Some(v) => v,
        None => 0,
    }) % 100 + 1
}

fn digit16(b: u8) -> (r: Option<u32>)
    ensures
        match r {
            Some(v) => hex_digit_value(b) == Some(v as nat),
            None => hex_digit_value(b) is None,
        },
{
    if 48 <= b && b <= 57 {
        Some((b - 48) as u32)
    } else if 97 <= b && b <= 102 {
        Some((b - 87) as u32)
    } else if 65 <= b && b <= 70 {
        Some((b - 55) as u32)
    } else {
        None
    }
}

/// Sixteen to the power `n`.
pub open spec fn pow16(n: nat) -> nat
    decreases n,
{
    if n == 0 { 1 } else { 16 * pow16((n - 1) as nat) }
}

fn run16(s: &[u8], from: usize, to: usize) -> (r: Option<u32>)
    requires
        from <= to <= s@.len(),
        to - from <= 4,
    ensures
        match r {
            Some(v) => hex_run_value(s@.subrange(from as int, to as int)) == Some(v as nat),
            None => hex_run_value(s@.subrange(from as int, to as int)) is None,
        },
{
    let mut v: u32 = 0;
    let mut i = from;
    while i < to
        invariant
            from <= i <= to <= s@.len(),
            to - from <= 4,
            hex_run_value(s@.subrange(from as int, i as int)) == Some(v as nat),
            v < pow16((i - from) as nat),
        decreases to - i,
    {
        let ghost sub = s@.subrange(from as int, i + 1);
        assert(sub.drop_last() =~= s@.subrange(from as int, i as int));
        assert(sub.last() == s@[i as int]);
        match digit16(s[i]) {
            Some(d) => {
                assert(pow16((i - from) as nat) <= 4096) by {
                    reveal_with_fuel(pow16, 5);
                }
                v = v * 16 + d;
            },
            None => {
                proof {
                    lemma_hex_run_none_extends(s@, from as int, i + 1, to as int);
                }
                return None;
            },
        }
        i += 1;
    }
    Some(v)
}

proof fn lemma_hex_run_none_extends(s: Seq<u8>, from: int, mid: int, to: int)
    requires
        0 <= from <= mid <= to <= s.len(),
        hex_run_value(s.subrange(from, mid)) is None,
    ensures
        hex_run_value(s.subrange(from, to)) is None,
    decreases to - mid,
{
    if mid < to {
        lemma_hex_run_none_extends(s, from, mid, to - 1);
        assert(s.subrange(from, to).drop_last() =~= s.subrange(from, to - 1));
    }
}

/// The price for a digest text, as the compute role quotes it.
pub fn price(digest: &str) -> (r: u32)
    requires
        digest.spec_bytes().len() >= 4,
        vstd::utf8::is_char_boundary(digest.spec_bytes(), 4),
    ensures
        r as nat == price_spec(digest.spec_bytes()),
{
    let b = digest.as_bytes();
    let ghost t = b@.take(4);
    assert(b@.subrange(0, 4) =~= t);
    let v: u32 = if b[0] == 43u8 {
        assert(t.drop_first() =~= b@.subrange(1, 4));
        match run16(b, 1, 4) {
            Some(v) => v,
            None => 0,
        }
    } else {
        match run16(b, 0, 4) {
            Some(v) => v,
            None => 0,
        }
    };
    v % 100 + 1
}

} // verus!

verus! {

/// What a request to the demo shop asks for.
#[derive(PartialEq, Eq, Structural, Clone, Copy, Debug)]
pub enum Endpoint {
    /// `/healthz`, answered by every role.
    Health,
    /// Gateway `GET /checkout`: price from compute, then save in the store.
    Checkout,
    /// Gateway `GET /catalog`: the store's list.
    Catalog,
    /// Gateway `GET /report`: compute's statistics.
    Report,
    /// Compute `GET /price`.
    Price,
    /// Compute `GET /stats`.
    Stats,
    /// Store `GET /save`.
    Save,
    /// Store `GET /list`.
    List,
    /// Anything else.
    NotFound,
}

/// The endpoint a request reaches, given the serving role, whether the
/// method is `GET`, and the request path.
pub open spec fn endpoint_spec(role: Seq<char>, is_get: bool, path: Seq<char>) -> Endpoint {
    if path == "/healthz"@ {
        Endpoint::Health
    } else if !is_get {
        Endpoint::NotFound
    } else if role == "gateway"@ {
        if path == "/checkout"@ {
            Endpoint::Checkout
        } else if path == "/catalog"@ {
            Endpoint::Catalog
        } else if path == "/report"@ {
            Endpoint::Report
        } else {
            Endpoint::NotFound
        }
    } else if role == "compute"@ {
        if path == "/price"@ {
            Endpoint::Price
        } else if path == "/stats"@ {
            Endpoint::Stats
        } else {
            Endpoint::NotFound
        }
    } else if role == "store"@ {
        if path == "/save"@ {
            Endpoint::Save
        } else if path == "/list"@ {
            Endpoint::List
        } else {
            Endpoint::NotFound
        }
    } else {
        Endpoint::NotFound
    }
}

/// Routes a request of the demo shop.
pub fn endpoint(role: &str, is_get: bool, path: &str) -> (e: Endpoint)
    ensures
        e == endpoint_spec(role@, is_get, path@),
{
    if str_eq(path, "/healthz") {
        Endpoint::Health
    } else if !is_get {
        Endpoint::NotFound
    } else if str_eq(role, "gateway") {
        if str_eq(path, "/checkout") {
            Endpoint::Checkout
        } else if str_eq(path, "/catalog") {
            Endpoint::Catalog
        } else if str_eq(path, "/report") {
            Endpoint::Report
        } else {
            Endpoint::NotFound
        }
    } else if str_eq(role, "compute") {
        if str_eq(path, "/price") {
            Endpoint::Price
        } else if str_eq(path, "/stats") {
            Endpoint::Stats
        } else {
            Endpoint::NotFound
        }
    } else if str_eq(role, "store") {
        if str_eq(path, "/save") {
            Endpoint::Save
        } else if str_eq(path, "/list") {
            Endpoint::List
        } else {
            Endpoint::NotFound
        }
    } else {
        Endpoint::NotFound
    }
}

/// The path of a request target: what comes before the first `?`.
pub fn path_of(url: &str) -> (r: String)
    ensures
        r@ == split_on(url@, '?')[0],
{
    let parts = split_chars(url, '?');
    proof {
        lemma_split_on_nonempty(url@, '?');
    }
    assert(parts_view(parts@)[0] == parts@[0]@);
    string_of(&parts[0])
}

/// A character with ASCII letters lowered.
pub open spec fn ascii_lower(c: char) -> char {
    if 'A' <= c <= 'Z' {
        ((c as u32) + 32) as char
    } else {
        c
    }
}

/// Equality of two texts up to the case of ASCII letters.
pub open spec fn eq_ignore_ascii_case_spec(a: Seq<char>, b: Seq<char>) -> bool {
    a.len() == b.len() && forall|i: int| 0 <= i < a.len() ==> ascii_lower(#[trigger] a[i]) == ascii_lower(b[i])
}

fn lower(c: char) -> (r: u32)
    ensures
        r == ascii_lower(c) as u32,
{
    if 'A' <= c && c <= 'Z' {
        (c as u32) + 32
    } else {
        c as u32
    }
}

/// Whether two texts are equal up to the case of ASCII letters.
pub fn eq_ignore_ascii_case(a: &str, b: &str) -> (r: bool)
    ensures
        r == eq_ignore_ascii_case_spec(a@, b@),
{
    let ca = chars_of(a);
    let cb = chars_of(b);
    if ca.len() != cb.len() {
        return false;
    }
    for i in 0..ca.len()
        invariant
            ca@ == a@,
            cb@ == b@,
            ca.len() == cb.len(),
            forall|j: int| 0 <= j < i ==> ascii_lower(#[trigger] ca@[j]) == ascii_lower(cb@[j]),
    {
        if lower(ca[i]) != lower(cb[i]) {
            assert(ascii_lower(ca@[i as int]) as u32 != ascii_lower(cb@[i as int]) as u32);
            return false;
        }
        assert(ascii_lower(ca@[i as int]) as u32 == ascii_lower(cb@[i as int]) as u32);
    }
    true
}

/// Index of the first header whose field is `name`, ignoring ASCII case.
pub open spec fn first_header(headers: Seq<(String, String)>, name: Seq<char>) -> Option<int>
    decreases headers.len(),
{
    if headers.len() == 0 {
        None
    } else {
        match first_header(headers.drop_last(), name) {
            Some(i) => Some(i),
            None => if eq_ignore_ascii_case_spec(name, headers.last().0@) {
                Some(headers.len() - 1)
            } else {
                None
            },
        }
    }
}

proof fn lemma_first_header_extends(h: Seq<(String, String)>, name: Seq<char>, n: int)
    requires
        0 <= n <= h.len(),
        first_header(h.take(n), name) is Some,
    ensures
        first_header(h, name) == first_header(h.take(n), name),
    decreases h.len() - n,
{
    if n < h.len() {
        assert(h.take(n + 1).drop_last() =~= h.take(n));
        lemma_first_header_extends(h, name, n + 1);
    } else {
        assert(h.take(n) =~= h);
    }
}

/// The value of the first header named `name`, compared as HTTP compares
/// header names: ignoring the case of ASCII letters.
pub fn header_value(headers: &Vec<(String, String)>, name: &str) -> (r: Option<String>)
    ensures
        match first_header(headers@, name@) {
            Some(i) => r matches Some(v) && v@ == headers@[i].1@,
            None => r is None,
        },
{
    for i in 0..headers.len()
        invariant
            first_header(headers@.take(i as int), name@) is None,
    {
        assert(headers@.take(i + 1).drop_last() =~= headers@.take(i as int));
        if eq_ignore_ascii_case(name, headers[i].0.as_str()) {
            assert(first_header(headers@.take(i + 1), name@) == Some(i as int));
            proof {
                lemma_first_header_extends(headers@, name@, i + 1);
            }
            return Some(headers[i].1.clone());
        }
    }
    assert(headers@.take(headers.len() as int) =~= headers@);
    None
}

} // verus!

verus! {

/// The position of the first occurrence of `pat` in `s` that starts at or
/// after `from`.
pub open spec fn find_from(s: Seq<char>, pat: Seq<char>, from: int) -> Option<int>
    decreases s.len() + 1 - from,
{
    if from < 0 || from + pat.len() > s.len() {
        None
    } else if s.subrange(from, from + pat.len()) == pat {
        Some(from)
    } else {
        find_from(s, pat, from + 1)
    }
}

/// The second of the parts that `str::split` cuts `s` into at the
/// occurrences of a non-empty `pat`: the text after the first occurrence, up
/// to the next one or to the end; none when `pat` does not occur.
pub open spec fn second_part_spec(s: Seq<char>, pat: Seq<char>) -> Option<Seq<char>> {
    match find_from(s, pat, 0) {
        Some(p) => {
            let q = p + pat.len();
            match find_from(s, pat, q) {
                Some(e) => Some(s.subrange(q, e)),
                None => Some(s.subrange(q, s.len() as int)),
            }
        },
        None => None,
    }
}

fn occurs_at(s: &Vec<char>, pat: &Vec<char>, at: usize) -> (r: bool)
    requires
        at + pat@.len() <= s@.len(),
    ensures
        r == (s@.subrange(at as int, at + pat@.len()) == pat@),
{
    let n = s.len();
    for k in 0..pat.len()
        invariant
            n == s@.len(),
            at + pat@.len() <= s@.len(),
            forall|j: int| 0 <= j < k ==> s@[at + j] == pat@[j],
    {
        assert(at + k < s@.len());
        if s[at + k] != pat[k] {
            assert(s@.subrange(at as int, at + pat@.len())[k as int] != pat@[k as int]);
            return false;
        }
    }
    assert(s@.subrange(at as int, at + pat@.len()) =~= pat@);
    true
}

fn find_chars(s: &Vec<char>, pat: &Vec<char>, from: usize) -> (r: Option<usize>)
    requires
        from <= s@.len(),
        pat@.len() > 0,
    ensures
        match r {
            Some(p) => find_from(s@, pat@, from as int) == Some(p as int) && from <= p && p + pat@.len() <= s@.len(),
            None => find_from(s@, pat@, from as int) is None,
        },
{
    let mut i = from;
    while pat.len() <= s.len() - i
        invariant
            pat@.len() > 0,
            from <= i <= s@.len(),
            find_from(s@, pat@, from as int) == find_from(s@, pat@, i as int),
        decreases s@.len() - i,
    {
        if occurs_at(s, pat, i) {
            return Some(i);
        }
        i += 1;
    }
    None
}

fn chars_between(s: &Vec<char>, a: usize, b: usize) -> (r: String)
    requires
        a <= b <= s@.len(),
    ensures
        r@ == s@.subrange(a as int, b as int),
{
    let mut out: Vec<char> = Vec::new();
    for k in a..b
        invariant
            a <= k <= b <= s@.len(),
            out@ == s@.subrange(a as int, k as int),
    {
        out.push(s[k]);
        assert(s@.subrange(a as int, k + 1) =~= s@.subrange(a as int, k as int).push(s@[k as int]));
    }
    string_of(&out)
}

/// The second of the parts that splitting `s` at the occurrences of `pat`
/// gives, as `s.split(pat).nth(1)`: the text after the first occurrence, up
/// to the next one or to the end.
pub fn second_part(s: &str, pat: &str) -> (r: Option<String>)
    requires
        pat@.len() > 0,
    ensures
        match r {
            Some(t) => second_part_spec(s@, pat@) == Some(t@),
            None => second_part_spec(s@, pat@) is None,
        },
{
    let cs = chars_of(s);
    let ps = chars_of(pat);
    let n = cs.len();
    match find_chars(&cs, &ps, 0) {
        Some(p) => {
            let q = p + ps.len();
            match find_chars(&cs, &ps, q) {
                Some(e) => Some(chars_between(&cs, q, e)),
                None => Some(chars_between(&cs, q, n)),
            }
        },
        None => None,
    }
}

} // verus!

verus! {

/// The chain counts rounds: zero rounds leave the digest as it is, and one
/// round more hashes the digest once more; so `a + b` rounds are `b` rounds
/// after `a` rounds.
pub proof fn lemma_sha_chain_rounds(h: Seq<u8>, a: nat, b: nat)
    ensures
        sha_chain(h, 0) == h,
        sha_chain(h, a + 1) == sha256_spec(sha_chain(h, a)),
        sha_chain(h, a + b) == sha_chain(sha_chain(h, a), b),
    decreases b,
{
    if b > 0 {
        lemma_sha_chain_rounds(h, a, (b - 1) as nat);
        assert(sha_chain(h, a + b) == sha256_spec(sha_chain(h, (a + b - 1) as nat)));
        assert((a + b - 1) as nat == a + (b - 1) as nat);
    }
}

/// Burning `n + 1` rounds hashes the digest of burning `n` rounds once
/// more, and burning no round leaves the digest of `wattopus`.
pub proof fn lemma_burn_rounds(n: nat)
    ensures
        sha_chain(sha256_spec(burn_seed()), 0) == sha256_spec(burn_seed()),
        sha_chain(sha256_spec(burn_seed()), n + 1) == sha256_spec(sha_chain(sha256_spec(burn_seed()), n)),
{
    lemma_sha_chain_rounds(sha256_spec(burn_seed()), n, 0);
}

} // verus!
