//! The Prometheus side: reading instant-query results and writing the text
//! exposition format.
use vstd::prelude::*;
use crate::json::{Json, JsonV, array_of, field, jarr_or_empty, jget, jidx, jstr, lemma_view_seq, or_null, str_of, view_json, view_seq};
use crate::text::{append_str, chars_of, owned, push_char};

verus! {

/// The escaped form of one character of a label value.
pub open spec fn escape_char(c: char) -> Seq<char> {
    if c == '\\' {
        seq!['\\', '\\']
    } else if c == '"' {
        seq!['\\', '"']
    } else {
        seq![c]
    }
}

/// A label value with every backslash and double quote escaped by a
/// backslash.
pub open spec fn escape_spec(s: Seq<char>) -> Seq<char>
    decreases s.len(),
{
    if s.len() == 0 {
        Seq::empty()
    } else {
        escape_spec(s.drop_last()) + escape_char(s.last())
    }
}

/// Escapes a label value for the text exposition format.
pub fn escape(s: &str) -> (r: String)
    ensures
        r@ == escape_spec(s@),
{
    let cs = chars_of(s);
    let mut r = String::new();
    for i in 0..cs.len()
        invariant
            cs@ == s@,
            r@ == escape_spec(cs@.take(i as int)),
    {
        let c = cs[i];
        assert(cs@.take(i + 1).drop_last() =~= cs@.take(i as int));
        if c == '\\' {
            push_char(&mut r, '\\');
            push_char(&mut r, '\\');
        } else if c == '"' {
            push_char(&mut r, '\\');
            push_char(&mut r, '"');
        } else {
            push_char(&mut r, c);
        }
        assert(r@ =~= escape_spec(cs@.take(i + 1)));
    }
    assert(cs@.take(cs.len() as int) =~= cs@);
    r
}

/// Reads an escaped label value back.
pub open spec fn unescape_spec(s: Seq<char>) -> Seq<char>
    decreases s.len(),
{
    if s.len() == 0 {
        Seq::empty()
    } else if s[0] == '\\' && s.len() >= 2 {
        seq![s[1]] + unescape_spec(s.subrange(2, s.len() as int))
    } else {
        seq![s[0]] + unescape_spec(s.drop_first())
    }
}

proof fn lemma_escape_prepend(c: char, s: Seq<char>)
    ensures
        escape_spec(seq![c] + s) == escape_char(c) + escape_spec(s),
    decreases s.len(),
{
    if s.len() == 0 {
        assert(seq![c] + s =~= seq![c]);
        assert(seq![c].drop_last() =~= Seq::<char>::empty());
        assert(escape_spec(seq![c]) == escape_spec(Seq::<char>::empty()) + escape_char(c));
        assert(escape_spec(Seq::<char>::empty()) + escape_char(c) =~= escape_char(c));
        assert(escape_char(c) + escape_spec(s) =~= escape_char(c));
    } else {
        lemma_escape_prepend(c, s.drop_last());
        assert((seq![c] + s).drop_last() =~= seq![c] + s.drop_last());
        assert((seq![c] + s).last() == s.last());
        assert(escape_char(c) + escape_spec(s.drop_last()) + escape_char(s.last())
            =~= escape_char(c) + (escape_spec(s.drop_last()) + escape_char(s.last())));
    }
}

/// Escaping loses nothing: the escaped text reads back as the value it
/// escaped, so distinct label values stay distinct.
pub proof fn lemma_escape_roundtrip(s: Seq<char>)
    ensures
        unescape_spec(escape_spec(s)) == s,
    decreases s.len(),
{
    if s.len() > 0 {
        let c = s[0];
        let rest = s.drop_first();
        assert(s =~= seq![c] + rest);
        lemma_escape_prepend(c, rest);
        lemma_escape_roundtrip(rest);
        let e = escape_spec(s);
        if c == '\\' || c == '"' {
            assert(e =~= seq!['\\', c] + escape_spec(rest));
            assert(e.subrange(2, e.len() as int) =~= escape_spec(rest));
        } else {
            assert(e =~= seq![c] + escape_spec(rest));
            assert(e.drop_first() =~= escape_spec(rest));
        }
    }
}

} // verus!

verus! {

/// The label list of a sample line: `k="v",...` with escaped values.
pub open spec fn labels_spec(ls: Seq<(Seq<char>, Seq<char>)>) -> Seq<char>
    decreases ls.len(),
{
    if ls.len() == 0 {
        Seq::empty()
    } else {
        let prefix = labels_spec(ls.drop_last());
        let item = ls.last().0 + seq!['=', '"'] + escape_spec(ls.last().1) + seq!['"'];
        if ls.len() == 1 {
            item
        } else {
            prefix + seq![','] + item
        }
    }
}

/// The views of a label list.
pub open spec fn label_pairs(ls: Seq<(String, String)>) -> Seq<(Seq<char>, Seq<char>)> {
    ls.map_values(|p: (String, String)| (p.0@, p.1@))
}

/// A sample line: the metric name, its labels in braces when it has any,
/// a space, the value and a newline.
pub open spec fn sample_line_spec(name: Seq<char>, ls: Seq<(Seq<char>, Seq<char>)>, value: Seq<char>) -> Seq<char> {
    name + (if ls.len() == 0 {
        Seq::empty()
    } else {
        seq!['{'] + labels_spec(ls) + seq!['}']
    }) + seq![' '] + value + seq!['\n']
}

/// Writes one sample line of the text exposition format.
pub fn sample_line(name: &str, labels: &Vec<(String, String)>, value: &str) -> (r: String)
    ensures
        r@ == sample_line_spec(name@, label_pairs(labels@), value@),
{
    let ghost ls = label_pairs(labels@);
    let mut body = String::new();
    for i in 0..labels.len()
        invariant
            ls == label_pairs(labels@),
            body@ == labels_spec(ls.take(i as int)),
    {
        assert(ls.take(i + 1).drop_last() =~= ls.take(i as int));
        assert(ls.take(i + 1).last() == (labels@[i as int].0@, labels@[i as int].1@));
        let ghost before = body@;
        if i > 0 {
            push_char(&mut body, ',');
        }
        append_str(&mut body, labels[i].0.as_str());
        push_char(&mut body, '=');
        push_char(&mut body, '"');
        let e = escape(labels[i].1.as_str());
        append_str(&mut body, e.as_str());
        push_char(&mut body, '"');
        assert(body@ =~= labels_spec(ls.take(i + 1)));
    }
    assert(ls.take(labels.len() as int) =~= ls);
    let mut r = owned(name);
    if labels.len() > 0 {
        push_char(&mut r, '{');
        append_str(&mut r, body.as_str());
        push_char(&mut r, '}');
    }
    push_char(&mut r, ' ');
    append_str(&mut r, value);
    push_char(&mut r, '\n');
    assert(r@ =~= sample_line_spec(name@, ls, value@));
    r
}

/// The `# TYPE` line that opens a metric family.
pub open spec fn type_line_spec(name: Seq<char>, kind: Seq<char>) -> Seq<char> {
    seq!['#', ' ', 'T', 'Y', 'P', 'E', ' '] + name + seq![' '] + kind + seq!['\n']
}

/// Writes the `# TYPE` line of a metric family.
pub fn type_line(name: &str, kind: &str) -> (r: String)
    ensures
        r@ == type_line_spec(name@, kind@),
{
    let mut r = String::new();
    push_char(&mut r, '#');
    push_char(&mut r, ' ');
    push_char(&mut r, 'T');
    push_char(&mut r, 'Y');
    push_char(&mut r, 'P');
    push_char(&mut r, 'E');
    push_char(&mut r, ' ');
    append_str(&mut r, name);
    push_char(&mut r, ' ');
    append_str(&mut r, kind);
    push_char(&mut r, '\n');
    assert(r@ =~= type_line_spec(name@, kind@));
    r
}

/// One series of an instant-query result: the requested labels' values
/// (empty when absent) and the sample value's text, if it is a string.
pub struct PromSample {
    pub labels: Vec<String>,
    pub value: Option<String>,
}

/// The view of a sample.
pub open spec fn sample_view(s: PromSample) -> (Seq<Seq<char>>, Option<Seq<char>>) {
    (
        s.labels@.map_values(|x: String| x@),
        match s.value {
            Some(v) => Some(v@),
            None => None,
        },
    )
}

/// A string member, or the empty text.
pub open spec fn text_or_empty(v: JsonV) -> Seq<char> {
    match jstr(v) {
        Some(s) => s,
        None => Seq::empty(),
    }
}

/// What one series record yields for the requested label names.
pub open spec fn sample_spec(m: JsonV, names: Seq<Seq<char>>) -> (Seq<Seq<char>>, Option<Seq<char>>) {
    (
        Seq::new(names.len(), |k: int| text_or_empty(jget(jget(m, "metric"@), names[k]))),
        jstr(jidx(jget(m, "value"@), 1)),
    )
}

/// The series of an instant-query response: one per element of
/// `data.result`, in order.
pub open spec fn samples_spec(body: JsonV, names: Seq<Seq<char>>) -> Seq<(Seq<Seq<char>>, Option<Seq<char>>)> {
    let rs = jarr_or_empty(jget(jget(body, "data"@), "result"@));
    Seq::new(rs.len(), |i: int| sample_spec(rs[i], names))
}

fn sample_of(m: &Json, names: &Vec<String>) -> (s: PromSample)
    ensures
        sample_view(s) == sample_spec(m@, names@.map_values(|x: String| x@)),
{
    let metric = m.get("metric");
    let mut labels: Vec<String> = Vec::new();
    for k in 0..names.len()
        invariant
            labels@.len() == k,
            forall|j: int| 0 <= j < k ==> (#[trigger] labels@[j])@ == text_or_empty(jget(or_null(metric), names@[j]@)),
    {
        let v = match str_of(field(metric, names[k].as_str())) {
            Some(s) => owned(s),
            None => String::new(),
        };
        labels.push(v);
    }
    let second = match m.get("value") {
        Some(v) => v.at(1),
        None => None,
    };
    let value = match str_of(second) {
        Some(s) => Some(owned(s)),
        None => None,
    };
    let s = PromSample { labels, value };
    assert(sample_view(s).0 =~= sample_spec(m@, names@.map_values(|x: String| x@)).0);
    s
}

} // verus!

verus! {

/// The series of an instant-query response (`data.result`), each with the
/// values of the requested labels and its sample value's text.
pub fn samples(body: &Json, names: &Vec<String>) -> (r: Vec<PromSample>)
    ensures
        r@.map_values(|s: PromSample| sample_view(s)) == samples_spec(body@, names@.map_values(|x: String| x@)),
{
    let ghost nv = names@.map_values(|x: String| x@);
    let mut r: Vec<PromSample> = Vec::new();
    let rs = match array_of(field(body.get("data"), "result")) {
        Some(a) => a,
        None => {
            assert(r@.map_values(|s: PromSample| sample_view(s)) =~= samples_spec(body@, nv));
            return r;
        },
    };
    proof {
        lemma_view_seq(rs@);
    }
    for i in 0..rs.len()
        invariant
            nv == names@.map_values(|x: String| x@),
            view_seq(rs@).len() == rs@.len(),
            forall|j: int| 0 <= j < rs@.len() ==> #[trigger] view_seq(rs@)[j] == view_json(rs@[j]),
            jarr_or_empty(jget(jget(body@, "data"@), "result"@)) == view_seq(rs@),
            r@.len() == i,
            forall|j: int| 0 <= j < i ==> sample_view(#[trigger] r@[j]) == sample_spec(view_seq(rs@)[j], nv),
    {
        let s = sample_of(&rs[i], names);
        r.push(s);
    }
    assert(r@.map_values(|s: PromSample| sample_view(s)) =~= samples_spec(body@, nv));
    r
}

} // verus!

verus! {

/// One metric family of an exposition: its name, its type (`counter`,
/// `gauge`, ...) and its samples, each a label list and the value's text.
pub struct Family {
    pub name: String,
    pub kind: String,
    pub samples: Vec<(Vec<(String, String)>, String)>,
}

/// The view of a family's samples.
pub open spec fn samples_view(s: Seq<(Vec<(String, String)>, String)>) -> Seq<(Seq<(Seq<char>, Seq<char>)>, Seq<char>)> {
    s.map_values(|x: (Vec<(String, String)>, String)| (label_pairs(x.0@), x.1@))
}

/// The view of a family.
pub open spec fn family_view(f: Family) -> (Seq<char>, Seq<char>, Seq<(Seq<(Seq<char>, Seq<char>)>, Seq<char>)>) {
    (f.name@, f.kind@, samples_view(f.samples@))
}

/// The sample lines of one family, in order.
pub open spec fn sample_lines_spec(name: Seq<char>, ss: Seq<(Seq<(Seq<char>, Seq<char>)>, Seq<char>)>) -> Seq<char>
    decreases ss.len(),
{
    if ss.len() == 0 {
        Seq::empty()
    } else {
        sample_lines_spec(name, ss.drop_last()) + sample_line_spec(name, ss.last().0, ss.last().1)
    }
}

/// An exposition: each family's `# TYPE` line followed by its sample lines,
/// family after family.
pub open spec fn exposition_spec(fs: Seq<(Seq<char>, Seq<char>, Seq<(Seq<(Seq<char>, Seq<char>)>, Seq<char>)>)>) -> Seq<char>
    decreases fs.len(),
{
    if fs.len() == 0 {
        Seq::empty()
    } else {
        let f = fs.last();
        exposition_spec(fs.drop_last()) + type_line_spec(f.0, f.1) + sample_lines_spec(f.0, f.2)
    }
}

/// Writes the text exposition of the given metric families, in order.
pub fn exposition(families: &Vec<Family>) -> (r: String)
    ensures
        r@ == exposition_spec(families@.map_values(|f: Family| family_view(f))),
{
    let ghost fs = families@.map_values(|f: Family| family_view(f));
    let mut out = String::new();
    for i in 0..families.len()
        invariant
            fs == families@.map_values(|f: Family| family_view(f)),
            out@ == exposition_spec(fs.take(i as int)),
    {
        let f = &families[i];
        assert(fs.take(i + 1).drop_last() =~= fs.take(i as int));
        assert(fs.take(i + 1).last() == family_view(*f));
        let ghost before = out@;
        let t = type_line(f.name.as_str(), f.kind.as_str());
        append_str(&mut out, t.as_str());
        let ghost ss = samples_view(f.samples@);
        let ghost mid = out@;
        assert(ss.take(0) =~= Seq::<(Seq<(Seq<char>, Seq<char>)>, Seq<char>)>::empty());
        assert(mid =~= mid + sample_lines_spec(f.name@, ss.take(0)));
        for k in 0..f.samples.len()
            invariant
                ss == samples_view(f.samples@),
                out@ == mid + sample_lines_spec(f.name@, ss.take(k as int)),
        {
            assert(ss.take(k + 1).drop_last() =~= ss.take(k as int));
            assert(ss.take(k + 1).last() == (label_pairs(f.samples@[k as int].0@), f.samples@[k as int].1@));
            let line = sample_line(f.name.as_str(), &f.samples[k].0, f.samples[k].1.as_str());
            append_str(&mut out, line.as_str());
            assert(out@ =~= mid + sample_lines_spec(f.name@, ss.take(k + 1)));
        }
        assert(ss.take(f.samples.len() as int) =~= ss);
        assert(out@ =~= exposition_spec(fs.take(i + 1)));
    }
    assert(fs.take(families.len() as int) =~= fs);
    out
}

} // verus!
