use vstd::prelude::*;

verus! {

/// A named property of an object schema.
pub struct Property {
    pub name: Vec<u8>,
    /// Index of the property's schema in the graph.
    pub schema: usize,
    pub required: bool,
}

/// String formats whose instances are drawn in their usual shape.
#[derive(Clone, Copy, PartialEq, Eq, Structural)]
pub enum Format {
    Date,
    DateTime,
    Uuid,
    Email,
}

/// The type tag and constraints of a resolved schema node. Children are
/// referred to by their index in the graph, so a graph may refer to itself.
pub enum SchemaKind {
    Null,
    Boolean,
    Integer { minimum: Option<i64>, maximum: Option<i64> },
    Text { min_length: Option<usize>, max_length: Option<usize>, format: Option<Format> },
    Enumeration { values: Vec<Vec<u8>> },
    Array { items: usize, min_items: Option<usize>, max_items: Option<usize> },
    Object { properties: Vec<Property>, additional_properties: bool },
    OneOf { variants: Vec<usize> },
    AllOf { parts: Vec<usize> },
}

pub struct SchemaNode {
    pub kind: SchemaKind,
    pub nullable: bool,
}

/// A resolved schema graph: every child index names a node of the graph.
pub struct SchemaGraph {
    pub nodes: Vec<SchemaNode>,
}

/// Every child index of `k` is below `n`.
pub open spec fn kind_wf(k: SchemaKind, n: int) -> bool {
    match k {
        SchemaKind::Array { items, .. } => items < n,
        SchemaKind::Object { properties, .. } => forall|i: int|
            0 <= i < properties@.len() ==> #[trigger] properties@[i].schema < n,
        SchemaKind::OneOf { variants } => forall|i: int|
            0 <= i < variants@.len() ==> #[trigger] variants@[i] < n,
        SchemaKind::AllOf { parts } => forall|i: int|
            0 <= i < parts@.len() ==> #[trigger] parts@[i] < n,
        _ => true,
    }
}

pub open spec fn graph_wf(nodes: Seq<SchemaNode>) -> bool {
    forall|i: int| 0 <= i < nodes.len() ==> kind_wf(#[trigger] nodes[i].kind, nodes.len() as int)
}

impl SchemaGraph {
    pub open spec fn wf(&self) -> bool {
        graph_wf(self.nodes@)
    }

    /// Checks that every child index names a node of the graph.
    pub fn is_well_formed(&self) -> (r: bool)
        ensures
            r == self.wf(),
    {
        let n = self.nodes.len();
        let mut i: usize = 0;
        while i < n
            invariant
                n == self.nodes@.len(),
                i <= n,
                forall|j: int| 0 <= j < i ==> kind_wf(#[trigger] self.nodes@[j].kind, n as int),
            decreases n - i,
        {
            if !kind_in_range(&self.nodes[i].kind, n) {
                return false;
            }
            i += 1;
        }
        true
    }
}

fn indices_below(ids: &Vec<usize>, n: usize) -> (r: bool)
    ensures
        r == forall|i: int| 0 <= i < ids@.len() ==> #[trigger] ids@[i] < n,
{
    let mut i: usize = 0;
    while i < ids.len()
        invariant
            i <= ids@.len(),
            forall|j: int| 0 <= j < i ==> #[trigger] ids@[j] < n,
        decreases ids@.len() - i,
    {
        if ids[i] >= n {
            return false;
        }
        i += 1;
    }
    true
}

fn schemas_below(properties: &Vec<Property>, n: usize) -> (r: bool)
    ensures
        r == forall|i: int| 0 <= i < properties@.len() ==> #[trigger] properties@[i].schema < n,
{
    let mut i: usize = 0;
    while i < properties.len()
        invariant
            i <= properties@.len(),
            forall|j: int| 0 <= j < i ==> #[trigger] properties@[j].schema < n,
        decreases properties@.len() - i,
    {
        if properties[i].schema >= n {
            return false;
        }
        i += 1;
    }
    true
}

fn kind_in_range(k: &SchemaKind, n: usize) -> (r: bool)
    ensures
        r == kind_wf(*k, n as int),
{
    match k {
        SchemaKind::Array { items, .. } => *items < n,
        SchemaKind::Object { properties, .. } => schemas_below(properties, n),
        SchemaKind::OneOf { variants } => indices_below(variants, n),
        SchemaKind::AllOf { parts } => indices_below(parts, n),
        _ => true,
    }
}

} // verus!
