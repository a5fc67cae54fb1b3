use vstd::prelude::*;

verus! {

/// A concrete value sampled from a schema.
pub enum Value {
    Null,
    Bool(bool),
    Int(i64),
    Text(Vec<u8>),
    List(Vec<Value>),
    Object(Vec<Field>),
}

/// One key of a sampled object.
pub struct Field {
    pub key: Vec<u8>,
    pub value: Value,
}

/// Some field of `fields` has the key `key`.
pub open spec fn has_key(fields: Seq<Field>, key: Seq<u8>) -> bool {
    exists|j: int| 0 <= j < fields.len() && #[trigger] fields[j].key@ == key
}

/// A copy of a byte string.
pub fn copy_bytes(v: &Vec<u8>) -> (r: Vec<u8>)
    ensures
        r@ == v@,
{
    let r = v.clone();
    assert(r@ =~= v@);
    r
}

} // verus!
