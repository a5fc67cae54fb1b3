use vstd::prelude::*;
use crate::request::{Method, Param, Payload};
use crate::sampler::{fits, Sampler};
use crate::schema::SchemaGraph;
use crate::text::{decimal, decimal_of, push_all};
use crate::value::{copy_bytes, Value};

verus! {

#[derive(Clone, Copy, PartialEq, Eq, Structural)]
pub enum Location {
    Path,
    Query,
    Header,
    Cookie,
}

/// A declared parameter of an operation.
pub struct Parameter {
    pub name: Vec<u8>,
    pub location: Location,
    pub schema: usize,
    pub required: bool,
}

/// One path template and method, with its parameters and request body.
pub struct Operation {
    pub path: Vec<u8>,
    pub method: Method,
    pub parameters: Vec<Parameter>,
    /// Schema of the JSON request body, if any.
    pub body: Option<usize>,
    pub body_required: bool,
}

impl Operation {
    /// Every schema index of the operation names a node of a graph of `n` nodes.
    pub open spec fn fits_graph(&self, n: int) -> bool {
        &&& forall|i: int| 0 <= i < self.parameters@.len() ==> #[trigger] self.parameters@[i].schema < n
        &&& self.body is Some ==> self.body->0 < n
    }

    /// Checks that every schema index of the operation is below `n`.
    pub fn indices_below(&self, n: usize) -> (r: bool)
        ensures
            r == self.fits_graph(n as int),
    {
        let mut i: usize = 0;
        while i < self.parameters.len()
            invariant
                i <= self.parameters@.len(),
                forall|k: int| 0 <= k < i ==> #[trigger] self.parameters@[k].schema < n,
            decreases self.parameters@.len() - i,
        {
            if self.parameters[i].schema >= n {
                assert(self.parameters@[i as int].schema >= n);
                return false;
            }
            i += 1;
        }
        match self.body {
            Some(b) => b < n,
            None => true,
        }
    }
}

/// Text of a scalar value: decimal integers, `true` and `false`, strings as
/// they are; null and nested values give the empty text.
pub open spec fn scalar_text(v: Value) -> Seq<u8> {
    match v {
        Value::Bool(b) => if b {
            seq![116u8, 114, 117, 101]
        } else {
            seq![102u8, 97, 108, 115, 101]
        },
        Value::Int(i) => decimal(i as int),
        Value::Text(t) => t@,
        _ => seq![],
    }
}

/// The texts of `items`, joined by commas.
pub open spec fn joined(items: Seq<Seq<u8>>) -> Seq<u8>
    decreases items.len(),
{
    if items.len() == 0 {
        seq![]
    } else if items.len() == 1 {
        items[0]
    } else {
        joined(items.drop_last()) + seq![44u8] + items.last()
    }
}

/// Text of a parameter value in the simple style: a scalar as it is, an
/// array as its items joined by commas, an object as its keys and values
/// joined by commas.
pub open spec fn param_text(v: Value) -> Seq<u8> {
    match v {
        Value::List(items) => joined(items@.map_values(|x: Value| scalar_text(x))),
        Value::Object(fields) => joined(
            Seq::new(
                2 * fields@.len(),
                |k: int|
                    if k % 2 == 0 {
                        fields@[k / 2].key@
                    } else {
                        scalar_text(fields@[k / 2].value)
                    },
            ),
        ),
        _ => scalar_text(v),
    }
}

/// Appends the text of a scalar.
fn push_scalar(out: &mut Vec<u8>, v: &Value)
    ensures
        final(out)@ == old(out)@ + scalar_text(*v),
{
    match v {
        Value::Bool(b) => {
            let ghost pre = out@;
            if *b {
                out.push(116u8);
                out.push(114u8);
                out.push(117u8);
                out.push(101u8);
            } else {
                out.push(102u8);
                out.push(97u8);
                out.push(108u8);
                out.push(115u8);
                out.push(101u8);
            }
            assert(out@ =~= pre + scalar_text(*v));
        },
        Value::Int(i) => {
            let d = decimal_of(*i);
            push_all(out, &d);
        },
        Value::Text(t) => push_all(out, t),
        _ => {
            assert(out@ =~= out@ + scalar_text(*v));
        },
    }
}

/// The text of a parameter value.
pub fn param_text_of(v: &Value) -> (r: Vec<u8>)
    ensures
        r@ == param_text(*v),
{
    let mut out: Vec<u8> = Vec::new();
    match v {
        Value::List(items) => {
            let ghost texts = items@.map_values(|x: Value| scalar_text(x));
            let mut i: usize = 0;
            while i < items.len()
                invariant
                    i <= items@.len(),
                    texts == items@.map_values(|x: Value| scalar_text(x)),
                    out@ == joined(texts.subrange(0, i as int)),
                decreases items@.len() - i,
            {
                if i > 0 {
                    out.push(44u8);
                }
                push_scalar(&mut out, &items[i]);
                assert(texts.subrange(0, i + 1).drop_last() =~= texts.subrange(0, i as int));
                i += 1;
            }
            assert(texts.subrange(0, items@.len() as int) =~= texts);
        },
        Value::Object(fields) => {
            let ghost texts = Seq::new(
                2 * fields@.len(),
                |k: int|
                    if k % 2 == 0 {
                        fields@[k / 2].key@
                    } else {
                        scalar_text(fields@[k / 2].value)
                    },
            );
            let mut i: usize = 0;
            while i < fields.len()
                invariant
                    i <= fields@.len(),
                    texts.len() == 2 * fields@.len(),
                    forall|k: int| 0 <= k < texts.len() ==> #[trigger] texts[k] == if k % 2 == 0 {
                        fields@[k / 2].key@
                    } else {
                        scalar_text(fields@[k / 2].value)
                    },
                    out@ == joined(texts.subrange(0, 2 * i)),
                decreases fields@.len() - i,
            {
                if i > 0 {
                    out.push(44u8);
                }
                push_all(&mut out, &fields[i].key);
                assert(texts.subrange(0, 2 * i + 1).drop_last() =~= texts.subrange(0, 2 * i));
                assert(texts[2 * i as int] == fields@[i as int].key@);
                assert(texts.subrange(0, 2 * i + 1).last() == texts[2 * i as int]);
                assert(out@ =~= joined(texts.subrange(0, 2 * i + 1)));
                out.push(44u8);
                push_scalar(&mut out, &fields[i].value);
                assert(texts.subrange(0, 2 * i + 2).drop_last() =~= texts.subrange(0, 2 * i + 1));
                assert(texts[2 * i + 1] == scalar_text(fields@[i as int].value));
                assert(texts.subrange(0, 2 * i + 2).last() == texts[2 * i + 1]);
                assert(out@ =~= joined(texts.subrange(0, 2 * i + 2)));
                i += 1;
            }
            assert(texts.subrange(0, 2 * fields@.len() as int) =~= texts);
        },
        _ => push_scalar(&mut out, v),
    }
    out
}

/// `p` is a rendering of parameter `d`: same name, and the text of a value
/// that fits the parameter's schema.
pub open spec fn renders(g: Seq<crate::schema::SchemaNode>, limit: int, d: Parameter, p: Param) -> bool {
    p.name@ == d.name@ && exists|v: Value| fits(g, d.schema as int, 0, limit, v) && p.value@ == param_text(v)
}

/// `p` renders one of the declared parameters at location `loc`.
pub open spec fn from_declared(
    g: Seq<crate::schema::SchemaNode>,
    limit: int,
    ds: Seq<Parameter>,
    loc: Location,
    p: Param,
) -> bool {
    exists|k: int| 0 <= k < ds.len() && ds[k].location == loc && renders(g, limit, #[trigger] ds[k], p)
}

/// Some parameter of `ps` is named `name`.
pub open spec fn present(ps: Seq<Param>, name: Seq<u8>) -> bool {
    exists|j: int| 0 <= j < ps.len() && #[trigger] ps[j].name@ == name
}

impl Sampler {
    /// Samples the payload of one trial of `op`: every required parameter,
    /// each optional one with the configured probability, and the body when
    /// it is required or drawn.
    pub fn sample_payload(&mut self, g: &SchemaGraph, op: &Operation) -> (r: Payload)
        requires
            g.wf(),
            op.fits_graph(g.nodes@.len() as int),
        ensures
            final(self).max_depth == old(self).max_depth,
            op.body is None ==> r.body is None,
            op.body is Some && op.body_required ==> r.body is Some,
            r.body is Some ==> op.body is Some && fits(g.nodes@, op.body->0 as int, 0, old(self).max_depth as int, r.body->0),
            forall|i: int| 0 <= i < op.parameters@.len() && #[trigger] op.parameters@[i].required ==> {
                let d = op.parameters@[i];
                &&& d.location == Location::Path ==> present(r.path_params@, d.name@)
                &&& d.location == Location::Query ==> present(r.query_params@, d.name@)
                &&& d.location == Location::Header ==> present(r.headers@, d.name@)
            },
            forall|j: int| 0 <= j < r.path_params@.len() ==> from_declared(g.nodes@, old(self).max_depth as int, op.parameters@, Location::Path, #[trigger] r.path_params@[j]),
            forall|j: int| 0 <= j < r.query_params@.len() ==> from_declared(g.nodes@, old(self).max_depth as int, op.parameters@, Location::Query, #[trigger] r.query_params@[j]),
            forall|j: int| 0 <= j < r.headers@.len() ==> from_declared(g.nodes@, old(self).max_depth as int, op.parameters@, Location::Header, #[trigger] r.headers@[j]),
    {
        let ghost nodes = g.nodes@;
        let ghost limit = self.max_depth as int;
        let ghost ps = op.parameters@;
        let mut path_params: Vec<Param> = Vec::new();
        let mut query_params: Vec<Param> = Vec::new();
        let mut headers: Vec<Param> = Vec::new();
        let mut i: usize = 0;
        while i < op.parameters.len()
            invariant
                g.wf(),
                nodes == g.nodes@,
                ps == op.parameters@,
                op.fits_graph(nodes.len() as int),
                self.max_depth == limit,
                i <= ps.len(),
                forall|k: int| 0 <= k < i && #[trigger] ps[k].required ==> {
                    let d = ps[k];
                    &&& d.location == Location::Path ==> present(path_params@, d.name@)
                    &&& d.location == Location::Query ==> present(query_params@, d.name@)
                    &&& d.location == Location::Header ==> present(headers@, d.name@)
                },
                forall|j: int| 0 <= j < path_params@.len() ==> from_declared(nodes, limit, ps, Location::Path, #[trigger] path_params@[j]),
                forall|j: int| 0 <= j < query_params@.len() ==> from_declared(nodes, limit, ps, Location::Query, #[trigger] query_params@[j]),
                forall|j: int| 0 <= j < headers@.len() ==> from_declared(nodes, limit, ps, Location::Header, #[trigger] headers@[j]),
            decreases ps.len() - i,
        {
            let d = &op.parameters[i];
            assert(d.schema < nodes.len());
            let take = d.location == Location::Path || d.required || self.rng.chance(self.optional_percent);
            if take && d.location != Location::Cookie {
                let v = self.sample(g, d.schema, 0);
                let p = Param { name: copy_bytes(&d.name), value: param_text_of(&v) };
                assert(renders(nodes, limit, ps[i as int], p));
                let ghost pp = path_params@;
                let ghost qp = query_params@;
                let ghost hp = headers@;
                if d.location == Location::Path {
                    path_params.push(p);
                } else if d.location == Location::Query {
                    query_params.push(p);
                } else {
                    headers.push(p);
                }
                assert forall|k: int| 0 <= k <= i && #[trigger] ps[k].required implies {
                    let d = ps[k];
                    &&& d.location == Location::Path ==> present(path_params@, d.name@)
                    &&& d.location == Location::Query ==> present(query_params@, d.name@)
                    &&& d.location == Location::Header ==> present(headers@, d.name@)
                } by {
                    if k < i {
                        if ps[k].location == Location::Path && path_params@.len() > pp.len() {
                            let j = choose|j: int| 0 <= j < pp.len() && #[trigger] pp[j].name@ == ps[k].name@;
                            assert(path_params@[j].name@ == ps[k].name@);
                            assert(path_params@[j] == pp[j]);
                        }
                        if ps[k].location == Location::Query && query_params@.len() > qp.len() {
                            let j = choose|j: int| 0 <= j < qp.len() && #[trigger] qp[j].name@ == ps[k].name@;
                            assert(query_params@[j].name@ == ps[k].name@);
                            assert(query_params@[j] == qp[j]);
                        }
                        if ps[k].location == Location::Header && headers@.len() > hp.len() {
                            let j = choose|j: int| 0 <= j < hp.len() && #[trigger] hp[j].name@ == ps[k].name@;
                            assert(headers@[j].name@ == ps[k].name@);
                            assert(headers@[j] == hp[j]);
                        }
                    } else {
                        if ps[k].location == Location::Path {
                            assert(path_params@[pp.len() as int].name@ == ps[k].name@);
                        }
                        if ps[k].location == Location::Query {
                            assert(query_params@[qp.len() as int].name@ == ps[k].name@);
                        }
                        if ps[k].location == Location::Header {
                            assert(headers@[hp.len() as int].name@ == ps[k].name@);
                        }
                    }
                }
                assert forall|j: int| 0 <= j < path_params@.len() implies from_declared(nodes, limit, ps, Location::Path, #[trigger] path_params@[j]) by {
                    if j < pp.len() { assert(path_params@[j] == pp[j]); } else { assert(renders(nodes, limit, ps[i as int], path_params@[j])); }
                }
                assert forall|j: int| 0 <= j < query_params@.len() implies from_declared(nodes, limit, ps, Location::Query, #[trigger] query_params@[j]) by {
                    if j < qp.len() { assert(query_params@[j] == qp[j]); } else { assert(renders(nodes, limit, ps[i as int], query_params@[j])); }
                }
                assert forall|j: int| 0 <= j < headers@.len() implies from_declared(nodes, limit, ps, Location::Header, #[trigger] headers@[j]) by {
                    if j < hp.len() { assert(headers@[j] == hp[j]); } else { assert(renders(nodes, limit, ps[i as int], headers@[j])); }
                }
            }
            i += 1;
        }
        let body = match op.body {
            Some(id) => {
                if op.body_required || self.rng.chance(self.optional_percent) {
                    Some(self.sample(g, id, 0))
                } else {
                    None
                }
            },
            None => None,
        };
        Payload { path_params, query_params, headers, body }
    }
}

} // verus!
