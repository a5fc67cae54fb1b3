//! Properties that relate the library's functions, stated over the spec
//! functions their contracts use.
use vstd::prelude::*;
use crate::engine::Engine;
use crate::request::{lookup, merged_headers, named_in, pairs, query_text, render_path, request_url, relative, Param, Payload};
use crate::sampler::{declared, field_fits, field_ok, fits, merged_props, object_fits, required_named};
use crate::schema::{SchemaKind, SchemaNode};
use crate::text::ascii_lower;
use crate::value::{has_key, Value};

verus! {

/// Every value sampled from an object schema that is not null holds every
/// required property as a key.
pub proof fn law_required_keys_present(nodes: Seq<SchemaNode>, id: int, depth: int, limit: int, v: Value)
    requires
        0 <= id < nodes.len(),
        nodes[id].kind is Object,
        fits(nodes, id, depth, limit, v),
        !(v is Null),
    ensures
        v is Object,
        forall|i: int|
            0 <= i < nodes[id].kind->Object_properties@.len() && (
            #[trigger] nodes[id].kind->Object_properties@[i]).required ==> has_key(
                v->Object_0@,
                nodes[id].kind->Object_properties@[i].name@,
            ),
{
    let k = nodes[id].kind;
    assert(object_fits(nodes, k->Object_properties@, k->Object_additional_properties, depth, limit, v->Object_0@));
}

/// Below the depth limit, a field of a sampled object whose key names a
/// declared property fits that property's schema, whether or not the
/// object admits extra properties.
pub proof fn law_declared_fields_fit(nodes: Seq<SchemaNode>, id: int, depth: int, limit: int, v: Value)
    requires
        0 <= id < nodes.len(),
        nodes[id].kind is Object,
        depth < limit,
        fits(nodes, id, depth, limit, v),
        !(v is Null),
    ensures
        forall|j: int|
            0 <= j < v->Object_0@.len() && declared(nodes[id].kind->Object_properties@, v->Object_0@[j].key@)
                ==> field_fits(nodes, nodes[id].kind->Object_properties@, depth, limit, #[trigger] v->Object_0@[j]),
{
    let k = nodes[id].kind;
    let fs = v->Object_0@;
    assert(object_fits(nodes, k->Object_properties@, k->Object_additional_properties, depth, limit, fs));
    assert forall|j: int| 0 <= j < fs.len() && declared(k->Object_properties@, fs[j].key@) implies field_fits(
        nodes,
        k->Object_properties@,
        depth,
        limit,
        #[trigger] fs[j],
    ) by {
        assert(field_ok(nodes, k->Object_properties@, depth, limit, fs[j]));
    }
}

/// Every value sampled from an `allOf` whose first part is an object holds
/// every property required by any of its object parts.
pub proof fn law_all_of_required_keys_present(nodes: Seq<SchemaNode>, id: int, depth: int, limit: int, v: Value)
    requires
        0 <= id < nodes.len(),
        nodes[id].kind is AllOf,
        nodes[id].kind->AllOf_parts@.len() > 0,
        nodes[nodes[id].kind->AllOf_parts@[0] as int].kind is Object,
        fits(nodes, id, depth, limit, v),
        !(v is Null),
    ensures
        v is Object,
        forall|i: int|
            0 <= i < merged_props(nodes, nodes[id].kind->AllOf_parts@).len() && (#[trigger] merged_props(
                nodes,
                nodes[id].kind->AllOf_parts@,
            )[i]).required ==> has_key(v->Object_0@, merged_props(nodes, nodes[id].kind->AllOf_parts@)[i].name@),
{
    let mp = merged_props(nodes, nodes[id].kind->AllOf_parts@);
    assert(object_fits(nodes, mp, false, depth, limit, v->Object_0@));
}

/// Every value sampled from an integer schema with bounds `m <= M` that is
/// not null lies within them.
pub proof fn law_integer_within_bounds(nodes: Seq<SchemaNode>, id: int, depth: int, limit: int, v: Value, m: i64, hi: i64)
    requires
        0 <= id < nodes.len(),
        nodes[id].kind == (SchemaKind::Integer { minimum: Some(m), maximum: Some(hi) }),
        m <= hi,
        fits(nodes, id, depth, limit, v),
        !(v is Null),
    ensures
        v is Int,
        m <= v->Int_0 <= hi,
{
}

/// At or beyond the depth limit, sampling descends no further: arrays are
/// empty, alternatives and compositions that would descend give null, and
/// object properties are not sampled.
pub proof fn law_terminal_at_limit(nodes: Seq<SchemaNode>, id: int, depth: int, limit: int, v: Value)
    requires
        0 <= id < nodes.len(),
        depth >= limit,
        fits(nodes, id, depth, limit, v),
    ensures
        v is List ==> v->List_0@.len() == 0,
        nodes[id].kind is OneOf ==> v is Null,
        v is Object && nodes[id].kind is Object ==> forall|j: int|
            0 <= j < v->Object_0@.len() ==> (#[trigger] v->Object_0@[j]).value is Null
                && required_named(nodes[id].kind->Object_properties@, v->Object_0@[j].key@),
{
    let k = nodes[id].kind;
    if v is Object && k is Object && !(nodes[id].nullable && v is Null) {
        let fs = v->Object_0@;
        assert(object_fits(nodes, k->Object_properties@, k->Object_additional_properties, depth, limit, fs));
        assert forall|j: int| 0 <= j < fs.len() implies (#[trigger] fs[j]).value is Null
            && required_named(k->Object_properties@, fs[j].key@) by {
            assert(field_ok(nodes, k->Object_properties@, depth, limit, fs[j]));
        }
    }
}

/// However long a run, no more requests are issued than operations times
/// the trial bound.
pub proof fn law_requests_bounded(e: Engine)
    requires
        e.wf(),
    ensures
        e.sent <= e.op_count * e.max_trials,
{
    let n = e.max_trials as int;
    let k = e.op_count as int;
    let o = e.op as int;
    let t = e.trial as int;
    assert(o * n + t <= k * n) by (nonlinear_arith)
        requires
            0 <= o <= k,
            0 <= t <= n,
            o == k ==> t == 0,
    ;
}

proof fn lemma_lookup_views(a: Seq<Param>, b: Seq<Param>, name: Seq<u8>)
    requires
        pairs(a) == pairs(b),
    ensures
        lookup(a, name) == lookup(b, name),
    decreases a.len(),
{
    assert(a.len() == pairs(a).len() && b.len() == pairs(b).len());
    if a.len() > 0 {
        assert(pairs(a)[0] == a[0]@ && pairs(b)[0] == b[0]@);
        assert(pairs(a.drop_first()) =~= pairs(a).drop_first());
        assert(pairs(b.drop_first()) =~= pairs(b).drop_first());
        lemma_lookup_views(a.drop_first(), b.drop_first(), name);
    }
}

proof fn lemma_render_views(t: Seq<u8>, a: Seq<Param>, b: Seq<Param>)
    requires
        pairs(a) == pairs(b),
    ensures
        render_path(t, a) == render_path(t, b),
    decreases t.len(),
{
    if t.len() > 0 {
        crate::request::lemma_first_byte_found(t, 125u8);
        if t[0] == 123u8 && crate::request::first_byte(t, 125u8) is Some {
            let k = crate::request::first_byte(t, 125u8)->0;
            lemma_lookup_views(a, b, t.subrange(1, k));
            lemma_render_views(t.subrange(k + 1, t.len() as int), a, b);
        } else {
            lemma_render_views(t.drop_first(), a, b);
        }
    }
}

proof fn lemma_query_views(a: Seq<Param>, b: Seq<Param>)
    requires
        pairs(a) == pairs(b),
    ensures
        query_text(a) == query_text(b),
    decreases a.len(),
{
    assert(a.len() == pairs(a).len() && b.len() == pairs(b).len());
    if a.len() > 0 {
        assert(pairs(a)[a.len() - 1] == a.last()@ && pairs(b)[b.len() - 1] == b.last()@);
        assert(pairs(a.drop_last()) =~= pairs(a).drop_last());
        assert(pairs(b.drop_last()) =~= pairs(b).drop_last());
        lemma_query_views(a.drop_last(), b.drop_last());
    }
}

proof fn lemma_named_views(a: Seq<Param>, b: Seq<Param>, n: Seq<u8>)
    requires
        pairs(a) == pairs(b),
    ensures
        named_in(a, n) == named_in(b, n),
{
    assert(a.len() == pairs(a).len() && b.len() == pairs(b).len());
    if named_in(a, n) {
        let i = choose|i: int| 0 <= i < a.len() && #[trigger] a[i].name@ == n;
        assert(pairs(a)[i] == a[i]@ && pairs(b)[i] == b[i]@);
        assert(b[i].name@ == n);
    }
    if named_in(b, n) {
        let i = choose|i: int| 0 <= i < b.len() && #[trigger] b[i].name@ == n;
        assert(pairs(a)[i] == a[i]@ && pairs(b)[i] == b[i]@);
        assert(a[i].name@ == n);
    }
}

proof fn lemma_headers_views(f1: Seq<Param>, f2: Seq<Param>, s1: Seq<Param>, s2: Seq<Param>)
    requires
        pairs(f1) == pairs(f2),
        pairs(s1) == pairs(s2),
    ensures
        merged_headers(f1, s1) == merged_headers(f2, s2),
    decreases s1.len(),
{
    assert(s1.len() == pairs(s1).len() && s2.len() == pairs(s2).len());
    if s1.len() > 0 {
        assert(pairs(s1)[s1.len() - 1] == s1.last()@ && pairs(s2)[s2.len() - 1] == s2.last()@);
        assert(pairs(s1.drop_last()) =~= pairs(s1).drop_last());
        assert(pairs(s2.drop_last()) =~= pairs(s2).drop_last());
        lemma_headers_views(f1, f2, s1.drop_last(), s2.drop_last());
        lemma_named_views(f1, f2, ascii_lower(s1.last().name@));
    }
}

/// A request depends only on what a finding records: two findings with the
/// same path template and the same parameter names and values, and the same
/// fixed headers, give the same URL and the same headers. So a finding that
/// is saved and loaded back without loss rebuilds, each time it is replayed,
/// the request that was first sent.
pub proof fn law_rebuild_from_record(
    base: Seq<u8>,
    t1: Seq<u8>,
    t2: Seq<u8>,
    pa: Payload,
    pb: Payload,
    f1: Seq<Param>,
    f2: Seq<Param>,
)
    requires
        t1 == t2,
        pairs(pa.path_params@) == pairs(pb.path_params@),
        pairs(pa.query_params@) == pairs(pb.query_params@),
        pairs(pa.headers@) == pairs(pb.headers@),
        pairs(f1) == pairs(f2),
    ensures
        request_url(base, t1, pa) == request_url(base, t2, pb),
        merged_headers(f1, pa.headers@) == merged_headers(f2, pb.headers@),
{
    lemma_render_views(relative(t1), pa.path_params@, pb.path_params@);
    lemma_query_views(pa.query_params@, pb.query_params@);
    lemma_headers_views(f1, f2, pa.headers@, pb.headers@);
}

} // verus!
