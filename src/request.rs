use vstd::prelude::*;
use crate::text::{ascii_lower, digits, digits_of, escaped, push_all, push_escaped, to_ascii_lower};
use crate::value::{copy_bytes, Value};

verus! {

#[derive(Clone, Copy, PartialEq, Eq, Structural)]
pub enum Method {
    Get,
    Put,
    Post,
    Delete,
    Options,
    Head,
    Patch,
    Trace,
}

/// A named value of a request: a path, query or header parameter.
pub struct Param {
    pub name: Vec<u8>,
    pub value: Vec<u8>,
}

impl View for Param {
    type V = (Seq<u8>, Seq<u8>);

    open spec fn view(&self) -> (Seq<u8>, Seq<u8>) {
        (self.name@, self.value@)
    }
}

pub open spec fn pairs(ps: Seq<Param>) -> Seq<(Seq<u8>, Seq<u8>)> {
    ps.map_values(|p: Param| p@)
}

/// The sampled values of one trial, rendered as text.
pub struct Payload {
    pub path_params: Vec<Param>,
    pub query_params: Vec<Param>,
    pub headers: Vec<Param>,
    pub body: Option<Value>,
}

/// The method, URL and headers of a concrete request; its body is the
/// payload's body as it stands.
pub struct Request {
    pub method: Method,
    pub url: Vec<u8>,
    pub headers: Vec<Param>,
}

/// Index of the first `b` in `s`, if any.
pub open spec fn first_byte(s: Seq<u8>, b: u8) -> Option<int>
    decreases s.len(),
{
    if s.len() == 0 {
        None
    } else if s[0] == b {
        Some(0)
    } else {
        match first_byte(s.drop_first(), b) {
            Some(k) => Some(k + 1),
            None => None,
        }
    }
}

pub proof fn lemma_first_byte_found(s: Seq<u8>, b: u8)
    ensures
        first_byte(s, b) is Some ==> 0 <= first_byte(s, b)->0 < s.len() && s[first_byte(s, b)->0]
            == b,
        first_byte(s, b) is None ==> forall|j: int| 0 <= j < s.len() ==> s[j] != b,
    decreases s.len(),
{
    if s.len() > 0 && s[0] != b {
        lemma_first_byte_found(s.drop_first(), b);
        assert forall|j: int| 1 <= j < s.len() implies s[j] == s.drop_first()[j - 1] by {}
    }
}

pub proof fn lemma_first_byte(s: Seq<u8>, b: u8, k: int)
    requires
        0 <= k < s.len(),
        s[k] == b,
        forall|j: int| 0 <= j < k ==> s[j] != b,
    ensures
        first_byte(s, b) == Some(k),
    decreases k,
{
    if k > 0 {
        let d = s.drop_first();
        assert forall|j: int| 0 <= j < k - 1 implies d[j] != b by {
            assert(d[j] == s[j + 1]);
        }
        lemma_first_byte(d, b, k - 1);
    }
}

/// The value of the first parameter named `name`.
pub open spec fn lookup(ps: Seq<Param>, name: Seq<u8>) -> Option<Seq<u8>>
    decreases ps.len(),
{
    if ps.len() == 0 {
        None
    } else if ps[0].name@ == name {
        Some(ps[0].value@)
    } else {
        lookup(ps.drop_first(), name)
    }
}

/// The path template `t` with each `{name}` replaced by the escaped value
/// of the parameter `name`; a placeholder without a parameter, and a `{`
/// without a closing `}`, stay as they are.
pub open spec fn render_path(t: Seq<u8>, ps: Seq<Param>) -> Seq<u8>
    decreases t.len(),
    via render_path_decreases
{
    if t.len() == 0 {
        seq![]
    } else if t[0] == 123u8 && first_byte(t, 125u8) is Some {
        let k = first_byte(t, 125u8)->0;
        let sub = match lookup(ps, t.subrange(1, k)) {
            Some(v) => escaped(v),
            None => t.subrange(0, k + 1),
        };
        sub + render_path(t.subrange(k + 1, t.len() as int), ps)
    } else {
        seq![t[0]] + render_path(t.drop_first(), ps)
    }
}

#[via_fn]
proof fn render_path_decreases(t: Seq<u8>, ps: Seq<Param>) {
    if t.len() > 0 && t[0] == 123u8 && first_byte(t, 125u8) is Some {
        lemma_first_byte_found(t, 125u8);
    }
}

/// One step of `render_path` at a `{` closed by the `}` at `k`.
proof fn lemma_render_close(t: Seq<u8>, ps: Seq<Param>, i: int, k: int)
    requires
        0 <= i < k < t.len(),
        t[i] == 123u8,
        t[k] == 125u8,
        forall|j: int| i < j < k ==> t[j] != 125u8,
    ensures
        render_path(t.subrange(i, t.len() as int), ps) == (match lookup(ps, t.subrange(i + 1, k)) {
            Some(v) => escaped(v),
            None => t.subrange(i, k + 1),
        }) + render_path(t.subrange(k + 1, t.len() as int), ps),
{
    let rest = t.subrange(i, t.len() as int);
    assert forall|j: int| 0 <= j < k - i implies rest[j] != 125u8 by {
        assert(rest[j] == t[i + j]);
    }
    lemma_first_byte(rest, 125u8, k - i);
    assert(rest.subrange(1, k - i) =~= t.subrange(i + 1, k));
    assert(rest.subrange(k - i + 1, rest.len() as int) =~= t.subrange(k + 1, t.len() as int));
    assert(rest.subrange(0, k - i + 1) =~= t.subrange(i, k + 1));
}

/// One step of `render_path` at a byte copied as it is.
proof fn lemma_render_plain(t: Seq<u8>, ps: Seq<Param>, i: int)
    requires
        0 <= i < t.len(),
        t[i] == 123u8 ==> forall|j: int| i < j < t.len() ==> t[j] != 125u8,
    ensures
        render_path(t.subrange(i, t.len() as int), ps) == seq![t[i]] + render_path(
            t.subrange(i + 1, t.len() as int),
            ps,
        ),
{
    let rest = t.subrange(i, t.len() as int);
    if t[i] == 123u8 {
        assert forall|j: int| 0 <= j < rest.len() implies rest[j] != 125u8 by {
            assert(rest[j] == t[i + j]);
        }
        lemma_first_byte_found(rest, 125u8);
        assert(first_byte(rest, 125u8) is None);
    }
    assert(rest.drop_first() =~= t.subrange(i + 1, t.len() as int));
}

/// The query string of `ps`: `?` and the escaped `name=value` pairs joined
/// by `&`; empty when there are none.
pub open spec fn query_text(ps: Seq<Param>) -> Seq<u8>
    decreases ps.len(),
{
    if ps.len() == 0 {
        seq![]
    } else {
        let sep = if ps.len() == 1 {
            seq![63u8]
        } else {
            seq![38u8]
        };
        query_text(ps.drop_last()) + sep + escaped(ps.last().name@) + seq![61u8] + escaped(
            ps.last().value@,
        )
    }
}

/// Some parameter of `ps` is named `name`.
pub open spec fn named_in(ps: Seq<Param>, name: Seq<u8>) -> bool {
    exists|i: int| 0 <= i < ps.len() && #[trigger] ps[i].name@ == name
}

/// The fixed headers, then each sampled header under its lower-cased name
/// unless a fixed header has that name.
pub open spec fn merged_headers(fixed: Seq<Param>, sampled: Seq<Param>) -> Seq<(Seq<u8>, Seq<u8>)>
    decreases sampled.len(),
{
    if sampled.len() == 0 {
        pairs(fixed)
    } else {
        let pre = merged_headers(fixed, sampled.drop_last());
        let n = ascii_lower(sampled.last().name@);
        if named_in(fixed, n) {
            pre
        } else {
            pre.push((n, sampled.last().value@))
        }
    }
}

/// The template without one leading `/`, to be joined to a base URL that
/// ends with `/`.
pub open spec fn relative(t: Seq<u8>) -> Seq<u8> {
    if t.len() > 0 && t[0] == 47u8 {
        t.drop_first()
    } else {
        t
    }
}

/// The URL of a request: base, rendered path and query string.
pub open spec fn request_url(base: Seq<u8>, template: Seq<u8>, p: Payload) -> Seq<u8> {
    base + render_path(relative(template), p.path_params@) + query_text(p.query_params@)
}

/// First index `k >= from` with `t[k] == b`.
fn find_byte(t: &Vec<u8>, from: usize, b: u8) -> (r: Option<usize>)
    requires
        from <= t@.len(),
    ensures
        r is Some ==> from <= r->0 < t@.len() && t@[r->0 as int] == b && forall|j: int|
            from <= j < r->0 ==> t@[j] != b,
        r is None ==> forall|j: int| from <= j < t@.len() ==> t@[j] != b,
{
    let mut i = from;
    while i < t.len()
        invariant
            from <= i <= t@.len(),
            forall|j: int| from <= j < i ==> t@[j] != b,
        decreases t@.len() - i,
    {
        if t[i] == b {
            return Some(i);
        }
        i += 1;
    }
    None
}

/// The value of the first parameter named `name`.
pub fn lookup_param<'a>(ps: &'a Vec<Param>, name: &Vec<u8>) -> (r: Option<&'a Vec<u8>>)
    ensures
        r is None ==> lookup(ps@, name@) is None,
        r is Some ==> lookup(ps@, name@) == Some(r->0@),
{
    let mut i: usize = 0;
    assert(ps@.subrange(0, ps@.len() as int) =~= ps@);
    while i < ps.len()
        invariant
            i <= ps@.len(),
            lookup(ps@, name@) == lookup(ps@.subrange(i as int, ps@.len() as int), name@),
        decreases ps@.len() - i,
    {
        let ghost rest = ps@.subrange(i as int, ps@.len() as int);
        assert(rest.drop_first() =~= ps@.subrange(i + 1, ps@.len() as int));
        if bytes_eq(&ps[i].name, name) {
            return Some(&ps[i].value);
        }
        i += 1;
    }
    None
}

/// Whether two byte strings are equal.
pub fn bytes_eq(a: &Vec<u8>, b: &Vec<u8>) -> (r: bool)
    ensures
        r == (a@ == b@),
{
    if a.len() != b.len() {
        return false;
    }
    let mut i: usize = 0;
    while i < a.len()
        invariant
            a@.len() == b@.len(),
            i <= a@.len(),
            forall|j: int| 0 <= j < i ==> a@[j] == b@[j],
        decreases a@.len() - i,
    {
        if a[i] != b[i] {
            return false;
        }
        i += 1;
    }
    assert(a@ =~= b@);
    true
}

/// Appends `t[from..to]` to `out`.
fn push_range(out: &mut Vec<u8>, t: &Vec<u8>, from: usize, to: usize)
    requires
        from <= to <= t@.len(),
    ensures
        final(out)@ == old(out)@ + t@.subrange(from as int, to as int),
{
    let ghost start = out@;
    let mut i = from;
    while i < to
        invariant
            from <= i <= to,
            to <= t@.len(),
            out@ == start + t@.subrange(from as int, i as int),
        decreases to - i,
    {
        out.push(t[i]);
        assert(out@ =~= start + t@.subrange(from as int, i + 1));
        i += 1;
    }
}

/// Appends the path template `t[from..]` with its parameters substituted.
pub fn push_path(out: &mut Vec<u8>, t: &Vec<u8>, from: usize, ps: &Vec<Param>)
    requires
        from <= t@.len(),
    ensures
        final(out)@ == old(out)@ + render_path(t@.subrange(from as int, t@.len() as int), ps@),
{
    let ghost start = out@;
    let n = t.len();
    let mut i = from;
    assert(render_path(t@.subrange(n as int, n as int), ps@) =~= seq![]);
    while i < n
        invariant
            n == t@.len(),
            from <= i <= n,
            start + render_path(t@.subrange(from as int, n as int), ps@) == out@ + render_path(
                t@.subrange(i as int, n as int),
                ps@,
            ),
        decreases n - i,
    {
        let ghost pre = out@;
        let close = if t[i] == 123u8 {
            find_byte(t, i + 1, 125u8)
        } else {
            None
        };
        match close {
            Some(k) => {
                proof {
                    lemma_render_close(t@, ps@, i as int, k as int);
                }
                let mut name: Vec<u8> = Vec::new();
                push_range(&mut name, t, i + 1, k);
                match lookup_param(ps, &name) {
                    Some(v) => push_escaped(out, v),
                    None => push_range(out, t, i, k + 1),
                }
                assert(out@ + render_path(t@.subrange(k + 1, n as int), ps@) =~= pre
                    + render_path(t@.subrange(i as int, n as int), ps@));
                i = k + 1;
            },
            None => {
                proof {
                    lemma_render_plain(t@, ps@, i as int);
                }
                out.push(t[i]);
                assert(out@ + render_path(t@.subrange(i + 1, n as int), ps@) =~= pre
                    + render_path(t@.subrange(i as int, n as int), ps@));
                i = i + 1;
            },
        }
    }
}

/// Appends the query string of `ps`.
pub fn push_query(out: &mut Vec<u8>, ps: &Vec<Param>)
    ensures
        final(out)@ == old(out)@ + query_text(ps@),
{
    let ghost start = out@;
    let mut i: usize = 0;
    assert(ps@.subrange(0, 0) =~= Seq::<Param>::empty());
    while i < ps.len()
        invariant
            i <= ps@.len(),
            out@ == start + query_text(ps@.subrange(0, i as int)),
        decreases ps@.len() - i,
    {
        let ghost pre = out@;
        out.push(if i == 0 { 63u8 } else { 38u8 });
        push_escaped(out, &ps[i].name);
        out.push(61u8);
        push_escaped(out, &ps[i].value);
        let ghost sub = ps@.subrange(0, i + 1);
        assert(sub.drop_last() =~= ps@.subrange(0, i as int));
        assert(sub.last() == ps@[i as int]);
        assert(out@ =~= start + query_text(sub));
        i += 1;
    }
    assert(ps@.subrange(0, ps@.len() as int) =~= ps@);
}

/// Whether some parameter of `ps` is named `name`.
fn has_name(ps: &Vec<Param>, name: &Vec<u8>) -> (r: bool)
    ensures
        r == named_in(ps@, name@),
{
    let mut i: usize = 0;
    while i < ps.len()
        invariant
            i <= ps@.len(),
            forall|j: int| 0 <= j < i ==> #[trigger] ps@[j].name@ != name@,
        decreases ps@.len() - i,
    {
        if bytes_eq(&ps[i].name, name) {
            assert(ps@[i as int].name@ == name@);
            return true;
        }
        i += 1;
    }
    false
}

fn copy_param(p: &Param) -> (r: Param)
    ensures
        r@ == p@,
{
    Param { name: copy_bytes(&p.name), value: copy_bytes(&p.value) }
}

/// Merges sampled headers into the fixed ones: names are lower-cased and a
/// fixed header wins over a sampled one of the same name.
pub fn merge_headers(fixed: &Vec<Param>, sampled: &Vec<Param>) -> (r: Vec<Param>)
    ensures
        pairs(r@) == merged_headers(fixed@, sampled@),
{
    let mut out: Vec<Param> = Vec::new();
    let mut i: usize = 0;
    while i < fixed.len()
        invariant
            i <= fixed@.len(),
            pairs(out@) == pairs(fixed@.subrange(0, i as int)),
        decreases fixed@.len() - i,
    {
        let ghost pre = out@;
        out.push(copy_param(&fixed[i]));
        assert(pairs(out@) =~= pairs(pre).push(fixed@[i as int]@));
        assert(pairs(fixed@.subrange(0, i + 1)) =~= pairs(fixed@.subrange(0, i as int)).push(
            fixed@[i as int]@,
        ));
        i += 1;
    }
    assert(fixed@.subrange(0, fixed@.len() as int) =~= fixed@);
    let mut j: usize = 0;
    assert(sampled@.subrange(0, 0) =~= Seq::<Param>::empty());
    while j < sampled.len()
        invariant
            j <= sampled@.len(),
            pairs(out@) == merged_headers(fixed@, sampled@.subrange(0, j as int)),
        decreases sampled@.len() - j,
    {
        let ghost sub = sampled@.subrange(0, j + 1);
        assert(sub.drop_last() =~= sampled@.subrange(0, j as int));
        assert(sub.last() == sampled@[j as int]);
        let name = to_ascii_lower(&sampled[j].name);
        if !has_name(fixed, &name) {
            let ghost pre = out@;
            out.push(Param { name, value: copy_bytes(&sampled[j].value) });
            assert(pairs(out@) =~= pairs(pre).push(out@.last()@));
        }
        j += 1;
    }
    assert(sampled@.subrange(0, sampled@.len() as int) =~= sampled@);
    out
}

/// A durable finding: the operation and the exact payload that was sent.
pub struct FuzzResult {
    pub path: Vec<u8>,
    pub method: Method,
    pub payload: Payload,
}

/// Builds the request for a result: the base URL (which ends with `/`),
/// the path with its parameters substituted, the query string, the merged
/// headers, all as a function of the arguments alone.
pub fn build_request(base: &Vec<u8>, r: &FuzzResult, fixed: &Vec<Param>) -> (q: Request)
    ensures
        q.method == r.method,
        q.url@ == request_url(base@, r.path@, r.payload),
        pairs(q.headers@) == merged_headers(fixed@, r.payload.headers@),
{
    let mut url = copy_bytes(base);
    let from: usize = if r.path.len() > 0 && r.path[0] == 47u8 {
        1
    } else {
        0
    };
    assert(relative(r.path@) =~= r.path@.subrange(from as int, r.path@.len() as int));
    push_path(&mut url, &r.path, from, &r.payload.path_params);
    push_query(&mut url, &r.payload.query_params);
    Request {
        method: r.method,
        url,
        headers: merge_headers(fixed, &r.payload.headers),
    }
}

/// Upper-case name of a method.
pub open spec fn method_text(m: Method) -> Seq<u8> {
    match m {
        Method::Get => seq![71u8, 69, 84],
        Method::Put => seq![80u8, 85, 84],
        Method::Post => seq![80u8, 79, 83, 84],
        Method::Delete => seq![68u8, 69, 76, 69, 84, 69],
        Method::Options => seq![79u8, 80, 84, 73, 79, 78, 83],
        Method::Head => seq![72u8, 69, 65, 68],
        Method::Patch => seq![80u8, 65, 84, 67, 72],
        Method::Trace => seq![84u8, 82, 65, 67, 69],
    }
}

pub fn method_name(m: Method) -> (r: Vec<u8>)
    ensures
        r@ == method_text(m),
{
    let r = match m {
        Method::Get => vec![71u8, 69, 84],
        Method::Put => vec![80u8, 85, 84],
        Method::Post => vec![80u8, 79, 83, 84],
        Method::Delete => vec![68u8, 69, 76, 69, 84, 69],
        Method::Options => vec![79u8, 80, 84, 73, 79, 78, 83],
        Method::Head => vec![72u8, 69, 65, 68],
        Method::Patch => vec![80u8, 65, 84, 67, 72],
        Method::Trace => vec![84u8, 82, 65, 67, 69],
    };
    assert(r@ =~= method_text(m));
    r
}

/// Name under which the finding of trial `trial` of an operation is kept:
/// the method, the escaped path template and the trial index, joined by `_`.
pub open spec fn slot_text(m: Method, path: Seq<u8>, trial: nat) -> Seq<u8> {
    method_text(m) + seq![95u8] + escaped(path) + seq![95u8] + digits(trial)
}

pub fn slot_name(m: Method, path: &Vec<u8>, trial: u32) -> (r: Vec<u8>)
    ensures
        r@ == slot_text(m, path@, trial as nat),
{
    let mut out = method_name(m);
    out.push(95u8);
    push_escaped(&mut out, path);
    out.push(95u8);
    let d = digits_of(trial as u64);
    push_all(&mut out, &d);
    out
}

} // verus!
