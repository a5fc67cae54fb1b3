use vstd::prelude::*;
use crate::rng::Rng;
use crate::schema;
use crate::schema::{Format, Property, SchemaGraph, SchemaKind, SchemaNode};
use crate::value::{copy_bytes, has_key, Field, Value};

verus! {

/// Percent of integer draws taken from the boundary candidates.
pub const BOUNDARY_PERCENT: u64 = 30;
/// Percent of unbounded strings drawn oversize.
pub const OVERSIZE_PERCENT: u64 = 5;
/// Length of an oversize string.
pub const OVERSIZE_LENGTH: usize = 1024;
/// Largest spread of lengths and item counts drawn when none is declared.
pub const DEFAULT_SPREAD: usize = 16;

/// `x` lies within the declared bounds; where the bounds contradict each
/// other, `x` is the lower bound, the closest value obtainable.
pub open spec fn in_bounds(lo: Option<i64>, hi: Option<i64>, x: int) -> bool {
    if lo is Some && hi is Some && lo->0 > hi->0 {
        x == lo->0
    } else {
        (lo is None || lo->0 <= x) && (hi is None || x <= hi->0)
    }
}

/// `n` lies within the declared length or count bounds; where the bounds
/// contradict each other, `n` is zero.
pub open spec fn len_in_bounds(lo: Option<usize>, hi: Option<usize>, n: int) -> bool {
    if lo is Some && hi is Some && lo->0 > hi->0 {
        n == 0
    } else {
        (lo is None || lo->0 <= n) && (hi is None || n <= hi->0)
    }
}

/// Shape of the instances of a format: `D` stands for a decimal digit, `H`
/// for a lower-case hexadecimal digit, `a` for a lower-case letter, and any
/// other byte for itself.
pub open spec fn shape_of(f: Format) -> Seq<u8> {
    match f {
        // DDDD-DD-DD
        Format::Date => seq![68u8, 68, 68, 68, 45, 68, 68, 45, 68, 68],
        // DDDD-DD-DDTDD:DD:DDZ
        Format::DateTime => seq![68u8, 68, 68, 68, 45, 68, 68, 45, 68, 68, 84, 68, 68, 58, 68, 68, 58, 68, 68, 90],
        // HHHHHHHH-HHHH-HHHH-HHHH-HHHHHHHHHHHH
        Format::Uuid => seq![72u8, 72, 72, 72, 72, 72, 72, 72, 45, 72, 72, 72, 72, 45, 72, 72, 72, 72, 45, 72, 72, 72, 72, 45, 72, 72, 72, 72, 72, 72, 72, 72, 72, 72, 72, 72],
        // aaaaaa@aaaaaa.com
        Format::Email => seq![97u8, 97, 97, 97, 97, 97, 64, 97, 97, 97, 97, 97, 97, 46, 99, 111, 109],
    }
}

/// Byte `c` stands where the shape has `k`.
pub open spec fn class_ok(k: u8, c: u8) -> bool {
    if k == 68 {
        48 <= c <= 57
    } else if k == 72 {
        (48 <= c <= 57) || (97 <= c <= 102)
    } else if k == 97 {
        97 <= c <= 122
    } else {
        c == k
    }
}

pub open spec fn matches_shape(t: Seq<u8>, shape: Seq<u8>) -> bool {
    t.len() == shape.len() && forall|i: int| 0 <= i < t.len() ==> class_ok(#[trigger] shape[i], t[i])
}

pub fn shape_bytes(f: Format) -> (r: Vec<u8>)
    ensures
        r@ == shape_of(f),
{
    let r = match f {
        Format::Date => vec![68u8, 68, 68, 68, 45, 68, 68, 45, 68, 68],
        Format::DateTime => vec![68u8, 68, 68, 68, 45, 68, 68, 45, 68, 68, 84, 68, 68, 58, 68, 68, 58, 68, 68, 90],
        Format::Uuid => vec![72u8, 72, 72, 72, 72, 72, 72, 72, 45, 72, 72, 72, 72, 45, 72, 72, 72, 72, 45, 72, 72, 72, 72, 45, 72, 72, 72, 72, 72, 72, 72, 72, 72, 72, 72, 72],
        Format::Email => vec![97u8, 97, 97, 97, 97, 97, 64, 97, 97, 97, 97, 97, 97, 46, 99, 111, 109],
    };
    assert(r@ =~= shape_of(f));
    r
}

/// A string of the given shape.
pub fn fill_shape(rng: &mut Rng, shape: &Vec<u8>) -> (r: Vec<u8>)
    ensures
        matches_shape(r@, shape@),
{
    let mut out: Vec<u8> = Vec::new();
    let mut i: usize = 0;
    while i < shape.len()
        invariant
            i <= shape@.len(),
            out@.len() == i,
            forall|j: int| 0 <= j < i ==> class_ok(#[trigger] shape@[j], out@[j]),
        decreases shape@.len() - i,
    {
        let k = shape[i];
        let c: u8 = if k == 68 {
            48 + rng.below(10) as u8
        } else if k == 72 {
            let h = rng.below(16) as u8;
            if h < 10 {
                48 + h
            } else {
                87 + h
            }
        } else if k == 97 {
            97 + rng.below(26) as u8
        } else {
            k
        };
        out.push(c);
        i += 1;
    }
    out
}

/// The tighter of two lower bounds.
pub open spec fn tighter_min(a: Option<i64>, b: Option<i64>) -> Option<i64> {
    match (a, b) {
        (Some(x), Some(y)) => Some(if x >= y { x } else { y }),
        (None, _) => b,
        (_, None) => a,
    }
}

/// The tighter of two upper bounds.
pub open spec fn tighter_max(a: Option<i64>, b: Option<i64>) -> Option<i64> {
    match (a, b) {
        (Some(x), Some(y)) => Some(if x <= y { x } else { y }),
        (None, _) => b,
        (_, None) => a,
    }
}

/// The integer bounds of the integer parts of an `allOf`, merged so that
/// the more restrictive bound wins.
pub open spec fn merged_bounds(nodes: Seq<SchemaNode>, parts: Seq<usize>) -> (Option<i64>, Option<i64>)
    decreases parts.len(),
{
    if parts.len() == 0 {
        (None, None)
    } else {
        let (lo, hi) = merged_bounds(nodes, parts.drop_last());
        match nodes[parts.last() as int].kind {
            SchemaKind::Integer { minimum, maximum } => (
                tighter_min(lo, minimum),
                tighter_max(hi, maximum),
            ),
            _ => (lo, hi),
        }
    }
}

/// Some required property of `props` is named `key`.
pub open spec fn required_named(props: Seq<Property>, key: Seq<u8>) -> bool {
    exists|i: int| 0 <= i < props.len() && #[trigger] props[i].name@ == key && props[i].required
}

/// Field `f` is one of `props`, with a value that fits the property's
/// schema when the depth limit has not been reached.
pub open spec fn field_fits(
    nodes: Seq<SchemaNode>,
    props: Seq<Property>,
    depth: int,
    limit: int,
    f: Field,
) -> bool
    decreases limit - depth, 0int,
{
    exists|i: int|
        0 <= i < props.len() && #[trigger] props[i].name@ == f.key@ && (depth < limit ==> fits(
            nodes,
            props[i].schema as int,
            depth + 1,
            limit,
            f.value,
        ))
}

/// Some property of `props` is named `key`.
pub open spec fn declared(props: Seq<Property>, key: Seq<u8>) -> bool {
    exists|i: int| 0 <= i < props.len() && #[trigger] props[i].name@ == key
}

/// Field `f` stands for one of `props`: below the depth limit it fits the
/// property's schema, at the limit it is a required property with a null
/// value.
pub open spec fn field_ok(nodes: Seq<SchemaNode>, props: Seq<Property>, depth: int, limit: int, f: Field) -> bool
    decreases limit - depth, 1int,
{
    (depth < limit && field_fits(nodes, props, depth, limit, f)) || (depth >= limit
        && required_named(props, f.key@) && f.value is Null)
}

/// `fields` are the fields of an object with properties `props`: every
/// required property is present; every field stands for a property, or,
/// where the object is open and below the depth limit, has an undeclared key.
pub open spec fn object_fits(
    nodes: Seq<SchemaNode>,
    props: Seq<Property>,
    additional: bool,
    depth: int,
    limit: int,
    fields: Seq<Field>,
) -> bool
    decreases limit - depth, 2int,
{
    &&& forall|i: int| 0 <= i < props.len() && (#[trigger] props[i]).required ==> has_key(fields, props[i].name@)
    &&& forall|j: int| 0 <= j < fields.len() ==> field_ok(nodes, props, depth, limit, #[trigger] fields[j])
        || (depth < limit && additional && !declared(props, fields[j].key@))
}

/// The properties of the object parts of an `allOf`, in order.
pub open spec fn merged_props(nodes: Seq<SchemaNode>, parts: Seq<usize>) -> Seq<Property>
    decreases parts.len(),
{
    if parts.len() == 0 {
        seq![]
    } else {
        merged_props(nodes, parts.drop_last()) + match nodes[parts.last() as int].kind {
            SchemaKind::Object { properties, .. } => properties@,
            _ => seq![],
        }
    }
}

/// `v` is a value that sampling node `id` at nesting `depth` may give,
/// with `limit` the depth at which terminal values are substituted.
pub open spec fn fits(nodes: Seq<SchemaNode>, id: int, depth: int, limit: int, v: Value) -> bool
    decreases limit - depth, 3int,
{
    let node = nodes[id];
    if node.nullable && v is Null {
        true
    } else {
        match node.kind {
            SchemaKind::Null => v is Null,
            SchemaKind::Boolean => v is Bool,
            SchemaKind::Integer { minimum, maximum } => v is Int && in_bounds(
                minimum,
                maximum,
                v->Int_0 as int,
            ),
            SchemaKind::Text { min_length, max_length, format } => v is Text && (len_in_bounds(
                min_length,
                max_length,
                v->Text_0@.len() as int,
            ) || (format is Some && matches_shape(v->Text_0@, shape_of(format->0)))),
            SchemaKind::Enumeration { values } => v is Text && (values@.len() == 0 ==> v->Text_0@.len()
                == 0) && (values@.len() > 0 ==> exists|k: int|
                0 <= k < values@.len() && #[trigger] values@[k]@ == v->Text_0@),
            SchemaKind::Array { items, min_items, max_items } => v is List && (if depth < limit {
                len_in_bounds(min_items, max_items, v->List_0@.len() as int) && forall|j: int|
                    0 <= j < v->List_0@.len() ==> fits(
                        nodes,
                        items as int,
                        depth + 1,
                        limit,
                        #[trigger] v->List_0@[j],
                    )
            } else {
                v->List_0@.len() == 0
            }),
            SchemaKind::Object { properties, additional_properties } => v is Object && object_fits(
                nodes,
                properties@,
                additional_properties,
                depth,
                limit,
                v->Object_0@,
            ),
            SchemaKind::OneOf { variants } => if variants@.len() > 0 && depth < limit {
                exists|k: int|
                    0 <= k < variants@.len() && fits(
                        nodes,
                        #[trigger] variants@[k] as int,
                        depth + 1,
                        limit,
                        v,
                    )
            } else {
                v is Null
            },
            SchemaKind::AllOf { parts } => if parts@.len() == 0 {
                v is Null
            } else if nodes[parts@[0] as int].kind is Integer {
                v is Int && in_bounds(
                    merged_bounds(nodes, parts@).0,
                    merged_bounds(nodes, parts@).1,
                    v->Int_0 as int,
                )
            } else if nodes[parts@[0] as int].kind is Object {
                v is Object && object_fits(nodes, merged_props(nodes, parts@), false, depth, limit, v->Object_0@)
            } else if depth < limit {
                fits(nodes, parts@[0] as int, depth + 1, limit, v)
            } else {
                v is Null
            },
        }
    }
}

/// Draws an integer within the declared bounds, favouring the bounds, their
/// neighbours, zero and minus one.
pub fn sample_int(rng: &mut Rng, minimum: Option<i64>, maximum: Option<i64>) -> (r: i64)
    ensures
        in_bounds(minimum, maximum, r as int),
{
    let lo = match minimum {
        Some(m) => m,
        None => i64::MIN,
    };
    let hi = match maximum {
        Some(m) => m,
        None => i64::MAX,
    };
    if lo > hi {
        return lo;
    }
    if rng.chance(BOUNDARY_PERCENT) {
        let pick = rng.below(6);
        let cand: i128 = if pick == 0 {
            lo as i128
        } else if pick == 1 {
            hi as i128
        } else if pick == 2 {
            lo as i128 + 1
        } else if pick == 3 {
            hi as i128 - 1
        } else if pick == 4 {
            0
        } else {
            -1
        };
        if lo as i128 <= cand && cand <= hi as i128 {
            return cand as i64;
        }
    }
    rng.between(lo, hi)
}

/// Draws a length within the declared bounds; without an upper bound an
/// oversize length is drawn now and then.
pub fn sample_len(rng: &mut Rng, min_len: Option<usize>, max_len: Option<usize>, oversize: bool) -> (r: usize)
    ensures
        len_in_bounds(min_len, max_len, r as int),
{
    let lo = match min_len {
        Some(m) => m,
        None => 0,
    };
    let hi = match max_len {
        Some(m) => m,
        None => if lo <= usize::MAX - DEFAULT_SPREAD {
            lo + DEFAULT_SPREAD
        } else {
            usize::MAX
        },
    };
    if lo > hi {
        return 0;
    }
    if oversize && max_len.is_none() && rng.chance(OVERSIZE_PERCENT) {
        return if lo > OVERSIZE_LENGTH {
            lo
        } else {
            OVERSIZE_LENGTH
        };
    }
    let spread = if hi - lo > DEFAULT_SPREAD {
        DEFAULT_SPREAD
    } else {
        hi - lo
    };
    lo + rng.below(spread as u64 + 1) as usize
}

/// A string of `n` printable ASCII characters.
pub fn sample_text(rng: &mut Rng, n: usize) -> (r: Vec<u8>)
    ensures
        r@.len() == n,
        forall|i: int| 0 <= i < n ==> 0x20 <= #[trigger] r@[i] <= 0x7e,
{
    let mut out: Vec<u8> = Vec::new();
    while out.len() < n
        invariant
            out@.len() <= n,
            forall|i: int| 0 <= i < out@.len() ==> 0x20 <= #[trigger] out@[i] <= 0x7e,
        decreases n - out@.len(),
    {
        let c = rng.below(95);
        out.push((0x20 + c) as u8);
    }
    out
}

/// The key of the extra property injected into open objects.
pub fn extra_key() -> (r: Vec<u8>)
    ensures
        r@ == seq![0x5fu8, 0x5f, 0x66, 0x75, 0x7a, 0x7a],
{
    vec![0x5fu8, 0x5f, 0x66, 0x75, 0x7a, 0x7a]
}

/// Draws values from a schema graph with an owned random source.
pub struct Sampler {
    pub rng: Rng,
    /// Nesting depth at which terminal values are substituted.
    pub max_depth: usize,
    /// Percent of optional properties included.
    pub optional_percent: u64,
    /// Percent of nullable nodes sampled as null.
    pub null_percent: u64,
    /// Percent of open objects given an unexpected extra key.
    pub extra_key_percent: u64,
    /// Percent of formatted strings drawn in the format's shape; the others
    /// are arbitrary text, deliberately malformed.
    pub format_percent: u64,
}

impl Sampler {
    pub fn new(seed: u64, max_depth: usize) -> (r: Sampler)
        ensures
            r.rng.state == seed,
            r.max_depth == max_depth,
    {
        Sampler {
            rng: Rng::new(seed),
            max_depth,
            optional_percent: 50,
            null_percent: 10,
            extra_key_percent: 10,
            format_percent: 70,
        }
    }

    /// Samples one value of node `id` at nesting `depth`. Every branch that
    /// descends increases the depth, and at `max_depth` a terminal value is
    /// given, so sampling ends on self-referential graphs too.
    pub fn sample(&mut self, g: &SchemaGraph, id: usize, depth: usize) -> (v: Value)
        requires
            g.wf(),
            id < g.nodes@.len(),
        ensures
            final(self).max_depth == old(self).max_depth,
            fits(g.nodes@, id as int, depth as int, old(self).max_depth as int, v),
        decreases old(self).max_depth - depth, 2int,
    {
        let ghost nodes = g.nodes@;
        let ghost limit = self.max_depth as int;
        assert(schema::kind_wf(nodes[id as int].kind, nodes.len() as int));
        let node = &g.nodes[id];
        if node.nullable && self.rng.chance(self.null_percent) {
            return Value::Null;
        }
        match &node.kind {
            SchemaKind::Null => Value::Null,
            SchemaKind::Boolean => Value::Bool(self.rng.chance(50)),
            SchemaKind::Integer { minimum, maximum } => Value::Int(
                sample_int(&mut self.rng, *minimum, *maximum),
            ),
            SchemaKind::Text { min_length, max_length, format } => {
                match format {
                    Some(f) if self.rng.chance(self.format_percent) => {
                        let shape = shape_bytes(*f);
                        Value::Text(fill_shape(&mut self.rng, &shape))
                    },
                    _ => {
                        let n = sample_len(&mut self.rng, *min_length, *max_length, true);
                        Value::Text(sample_text(&mut self.rng, n))
                    },
                }
            },
            SchemaKind::Enumeration { values } => {
                if values.len() == 0 {
                    Value::Text(Vec::new())
                } else {
                    let k = self.rng.below(values.len() as u64) as usize;
                    let t = copy_bytes(&values[k]);
                    assert(values@[k as int]@ == t@);
                    Value::Text(t)
                }
            },
            SchemaKind::Array { items, min_items, max_items } => {
                let mut out: Vec<Value> = Vec::new();
                if depth < self.max_depth {
                    let n = sample_len(&mut self.rng, *min_items, *max_items, false);
                    while out.len() < n
                        invariant
                            g.wf(),
                            *items < g.nodes@.len(),
                            nodes == g.nodes@,
                            self.max_depth == limit,
                            limit == old(self).max_depth,
                            depth < limit,
                            out@.len() <= n,
                            forall|j: int|
                                0 <= j < out@.len() ==> fits(
                                    nodes,
                                    *items as int,
                                    depth + 1,
                                    limit,
                                    #[trigger] out@[j],
                                ),
                        decreases n - out@.len(),
                    {
                        let x = self.sample(g, *items, depth + 1);
                        out.push(x);
                    }
                }
                Value::List(out)
            },
            SchemaKind::Object { properties, additional_properties } => {
                let mut fields: Vec<Field> = Vec::new();
                self.sample_fields_into(&mut fields, g, properties, depth);
                if depth < self.max_depth && *additional_properties && self.rng.chance(
                    self.extra_key_percent,
                ) {
                    let key = extra_key();
                    if !declares(properties, &key) {
                        let ghost before = fields@;
                        fields.push(Field { key, value: Value::Null });
                        assert forall|i: int|
                            0 <= i < properties@.len() && (#[trigger] properties@[i]).required implies has_key(
                            fields@,
                            properties@[i].name@,
                        ) by {
                            assert(has_key(before, properties@[i].name@));
                            let j = choose|j: int|
                                0 <= j < before.len() && #[trigger] before[j].key@ == properties@[i].name@;
                            assert(fields@[j] == before[j]);
                        }
                        assert forall|j: int| 0 <= j < fields@.len() implies field_ok(nodes, properties@, depth as int, limit, #[trigger] fields@[j])
                            || (depth < limit && *additional_properties && !declared(properties@, fields@[j].key@)) by {
                            if j < before.len() {
                                assert(fields@[j] == before[j]);
                            }
                        }
                    }
                }
                assert(object_fits(nodes, properties@, *additional_properties, depth as int, limit, fields@));
                Value::Object(fields)
            },
            SchemaKind::OneOf { variants } => {
                if variants.len() == 0 || depth >= self.max_depth {
                    Value::Null
                } else {
                    let k = self.rng.below(variants.len() as u64) as usize;
                    let v = self.sample(g, variants[k], depth + 1);
                    assert(fits(nodes, variants@[k as int] as int, depth + 1, limit, v));
                    v
                }
            },
            SchemaKind::AllOf { parts } => {
                if parts.len() == 0 {
                    Value::Null
                } else if let SchemaKind::Integer { .. } = &g.nodes[parts[0]].kind {
                    let (lo, hi) = merge_int_bounds(g, parts);
                    Value::Int(sample_int(&mut self.rng, lo, hi))
                } else if let SchemaKind::Object { .. } = &g.nodes[parts[0]].kind {
                    let fields = self.sample_all_of_object(g, parts, depth);
                    assert(object_fits(nodes, merged_props(nodes, parts@), false, depth as int, limit, fields@));
                    Value::Object(fields)
                } else if depth < self.max_depth {
                    self.sample(g, parts[0], depth + 1)
                } else {
                    Value::Null
                }
            },
        }
    }

    /// Appends the fields of an object with properties `properties`: every
    /// required property, and each optional one with the configured
    /// probability; at the depth limit only the required keys, with null
    /// values.
    fn sample_fields_into(
        &mut self,
        out: &mut Vec<Field>,
        g: &SchemaGraph,
        properties: &Vec<Property>,
        depth: usize,
    )
        requires
            g.wf(),
            forall|i: int| 0 <= i < properties@.len() ==> #[trigger] properties@[i].schema < g.nodes@.len(),
        ensures
            final(self).max_depth == old(self).max_depth,
            final(out)@.len() >= old(out)@.len(),
            forall|j: int| 0 <= j < old(out)@.len() ==> final(out)@[j] == old(out)@[j],
            forall|i: int|
                0 <= i < properties@.len() && (#[trigger] properties@[i]).required ==> has_key(
                    final(out)@,
                    properties@[i].name@,
                ),
            forall|j: int|
                old(out)@.len() <= j < final(out)@.len() ==> field_ok(
                    g.nodes@,
                    properties@,
                    depth as int,
                    old(self).max_depth as int,
                    #[trigger] final(out)@[j],
                ),
        decreases old(self).max_depth - depth, 0int,
    {
        let ghost nodes = g.nodes@;
        let ghost limit = self.max_depth as int;
        let ghost start = out@;
        let mut i: usize = 0;
        while i < properties.len()
            invariant
                g.wf(),
                nodes == g.nodes@,
                self.max_depth == limit,
                limit == old(self).max_depth,
                i <= properties@.len(),
                forall|k: int| 0 <= k < properties@.len() ==> #[trigger] properties@[k].schema < nodes.len(),
                out@.len() >= start.len(),
                forall|j: int| 0 <= j < start.len() ==> out@[j] == start[j],
                forall|k: int|
                    0 <= k < i && (#[trigger] properties@[k]).required ==> has_key(
                        out@,
                        properties@[k].name@,
                    ),
                forall|j: int|
                    start.len() <= j < out@.len() ==> field_ok(
                        nodes,
                        properties@,
                        depth as int,
                        limit,
                        #[trigger] out@[j],
                    ),
            decreases properties@.len() - i,
        {
            let p = &properties[i];
            let take = if depth >= self.max_depth {
                p.required
            } else {
                p.required || self.rng.chance(self.optional_percent)
            };
            if take {
                let key = copy_bytes(&p.name);
                let value = if depth < self.max_depth {
                    self.sample(g, p.schema, depth + 1)
                } else {
                    Value::Null
                };
                let ghost before = out@;
                let f = Field { key, value };
                proof {
                    assert(properties@[i as int].name@ == f.key@);
                    if depth < limit {
                        assert(field_fits(nodes, properties@, depth as int, limit, f));
                    } else {
                        assert(required_named(properties@, f.key@));
                    }
                }
                out.push(f);
                let ghost last = out@.len() - 1;
                assert(out@[last].key@ == properties@[i as int].name@);
                assert forall|k: int|
                    0 <= k <= i && (#[trigger] properties@[k]).required implies has_key(
                    out@,
                    properties@[k].name@,
                ) by {
                    if k < i {
                        let j = choose|j: int|
                            0 <= j < before.len() && #[trigger] before[j].key@ == properties@[k].name@;
                        assert(out@[j] == before[j]);
                    } else {
                        assert(out@[last].key@ == properties@[k].name@);
                    }
                }
                assert forall|j: int| start.len() <= j < out@.len() implies field_ok(
                    nodes,
                    properties@,
                    depth as int,
                    limit,
                    #[trigger] out@[j],
                ) by {
                    if j < last {
                        assert(out@[j] == before[j]);
                    }
                }
            }
            i += 1;
        }
    }

    /// Samples an `allOf` whose first part is an object: the fields of every
    /// object part, so that the required properties of all of them are
    /// present.
    fn sample_all_of_object(&mut self, g: &SchemaGraph, parts: &Vec<usize>, depth: usize) -> (r: Vec<Field>)
        requires
            g.wf(),
            forall|i: int| 0 <= i < parts@.len() ==> #[trigger] parts@[i] < g.nodes@.len(),
        ensures
            final(self).max_depth == old(self).max_depth,
            object_fits(g.nodes@, merged_props(g.nodes@, parts@), false, depth as int, old(self).max_depth as int, r@),
        decreases old(self).max_depth - depth, 1int,
    {
        let ghost nodes = g.nodes@;
        let ghost limit = self.max_depth as int;
        let mut fields: Vec<Field> = Vec::new();
        let mut k: usize = 0;
        assert(parts@.subrange(0, 0) =~= Seq::<usize>::empty());
        while k < parts.len()
            invariant
                g.wf(),
                nodes == g.nodes@,
                self.max_depth == limit,
                limit == old(self).max_depth,
                k <= parts@.len(),
                forall|i: int| 0 <= i < parts@.len() ==> #[trigger] parts@[i] < nodes.len(),
                object_fits(nodes, merged_props(nodes, parts@.subrange(0, k as int)), false, depth as int, limit, fields@),
            decreases parts@.len() - k,
        {
            let ghost mp = merged_props(nodes, parts@.subrange(0, k as int));
            let ghost before = fields@;
            let ghost sub = parts@.subrange(0, k + 1);
            assert(sub.drop_last() =~= parts@.subrange(0, k as int));
            assert(sub.last() == parts@[k as int]);
            assert(schema::kind_wf(nodes[parts@[k as int] as int].kind, nodes.len() as int));
            match &g.nodes[parts[k]].kind {
                SchemaKind::Object { properties, .. } => {
                    self.sample_fields_into(&mut fields, g, properties, depth);
                    proof {
                        let pk = properties@;
                        let np = merged_props(nodes, sub);
                        assert(np =~= mp + pk);
                        assert forall|i: int| 0 <= i < np.len() && (#[trigger] np[i]).required implies has_key(
                            fields@,
                            np[i].name@,
                        ) by {
                            if i < mp.len() {
                                assert(np[i] == mp[i]);
                                assert(has_key(before, mp[i].name@));
                                let j = choose|j: int| 0 <= j < before.len() && #[trigger] before[j].key@ == mp[i].name@;
                                assert(fields@[j] == before[j]);
                            } else {
                                assert(np[i] == pk[i - mp.len()]);
                            }
                        }
                        assert forall|j: int| 0 <= j < fields@.len() implies field_ok(nodes, np, depth as int, limit, #[trigger] fields@[j])
                            || (depth < limit && false && !declared(np, fields@[j].key@)) by {
                            if j < before.len() {
                                assert(fields@[j] == before[j]);
                                lemma_field_ok_left(nodes, mp, pk, depth as int, limit, before[j]);
                            } else {
                                lemma_field_ok_right(nodes, mp, pk, depth as int, limit, fields@[j]);
                            }
                        }
                    }
                },
                _ => {
                    assert(merged_props(nodes, sub) =~= mp);
                },
            }
            k += 1;
        }
        assert(parts@.subrange(0, parts@.len() as int) =~= parts@);
        fields
    }
}

/// Whether some property of `props` is named `key`.
fn declares(props: &Vec<Property>, key: &Vec<u8>) -> (r: bool)
    ensures
        r == declared(props@, key@),
{
    let mut i: usize = 0;
    while i < props.len()
        invariant
            i <= props@.len(),
            forall|j: int| 0 <= j < i ==> #[trigger] props@[j].name@ != key@,
        decreases props@.len() - i,
    {
        if crate::request::bytes_eq(&props[i].name, key) {
            assert(props@[i as int].name@ == key@);
            return true;
        }
        i += 1;
    }
    false
}

proof fn lemma_field_ok_left(nodes: Seq<SchemaNode>, a: Seq<Property>, b: Seq<Property>, depth: int, limit: int, f: Field)
    requires
        field_ok(nodes, a, depth, limit, f),
    ensures
        field_ok(nodes, a + b, depth, limit, f),
{
    let ab = a + b;
    if depth < limit {
        let i = choose|i: int| 0 <= i < a.len() && #[trigger] a[i].name@ == f.key@ && (depth < limit ==> fits(nodes, a[i].schema as int, depth + 1, limit, f.value));
        assert(ab[i] == a[i]);
    } else {
        let i = choose|i: int| 0 <= i < a.len() && #[trigger] a[i].name@ == f.key@ && a[i].required;
        assert(ab[i] == a[i]);
    }
}

proof fn lemma_field_ok_right(nodes: Seq<SchemaNode>, a: Seq<Property>, b: Seq<Property>, depth: int, limit: int, f: Field)
    requires
        field_ok(nodes, b, depth, limit, f),
    ensures
        field_ok(nodes, a + b, depth, limit, f),
{
    let ab = a + b;
    if depth < limit {
        let i = choose|i: int| 0 <= i < b.len() && #[trigger] b[i].name@ == f.key@ && (depth < limit ==> fits(nodes, b[i].schema as int, depth + 1, limit, f.value));
        assert(ab[a.len() + i] == b[i]);
    } else {
        let i = choose|i: int| 0 <= i < b.len() && #[trigger] b[i].name@ == f.key@ && b[i].required;
        assert(ab[a.len() + i] == b[i]);
    }
}

/// Merges the integer bounds of the integer parts of an `allOf`.
fn merge_int_bounds(g: &SchemaGraph, parts: &Vec<usize>) -> (r: (Option<i64>, Option<i64>))
    requires
        forall|i: int| 0 <= i < parts@.len() ==> #[trigger] parts@[i] < g.nodes@.len(),
    ensures
        r == merged_bounds(g.nodes@, parts@),
{
    let mut lo: Option<i64> = None;
    let mut hi: Option<i64> = None;
    let mut i: usize = 0;
    while i < parts.len()
        invariant
            i <= parts@.len(),
            forall|k: int| 0 <= k < parts@.len() ==> #[trigger] parts@[k] < g.nodes@.len(),
            (lo, hi) == merged_bounds(g.nodes@, parts@.subrange(0, i as int)),
        decreases parts@.len() - i,
    {
        let ghost pre = parts@.subrange(0, i as int + 1);
        assert(pre.drop_last() =~= parts@.subrange(0, i as int));
        assert(pre.last() == parts@[i as int]);
        if let SchemaKind::Integer { minimum, maximum } = &g.nodes[parts[i]].kind {
            lo = match (lo, *minimum) {
                (Some(x), Some(y)) => Some(if x >= y { x } else { y }),
                (None, b) => b,
                (a, None) => a,
            };
            hi = match (hi, *maximum) {
                (Some(x), Some(y)) => Some(if x <= y { x } else { y }),
                (None, b) => b,
                (a, None) => a,
            };
        }
        i += 1;
    }
    assert(parts@.subrange(0, parts@.len() as int) =~= parts@);
    (lo, hi)
}

} // verus!
