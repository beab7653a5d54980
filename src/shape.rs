//! Traced serialization shapes, and the set of named container shapes that a
//! trace yields.
use vstd::prelude::*;

verus! {

/// The serialized form of a value.
#[derive(Debug)]
pub enum Shape {
    Str,
    I8,
    I16,
    I32,
    I64,
    I128,
    U8,
    U16,
    U32,
    U64,
    U128,
    Float32,
    Float64,
    Bool,
    Char,
    Unit,
    Optional(Box<Shape>),
    Sequence(Box<Shape>),
    Mapping { key: Box<Shape>, value: Box<Shape> },
    Tuple(Vec<Shape>),
    /// A reference to a container shape of the traced set, by name.
    TypeName(String),
    /// A form the converter does not describe (a fixed-size array, a shape
    /// left unresolved by the trace).
    Other,
}

/// A named field of a struct or of a struct variant.
#[derive(Debug)]
pub struct Field {
    pub name: String,
    pub shape: Shape,
}

/// The payload of one enum variant.
#[derive(Debug)]
pub enum VariantShape {
    Unit,
    NewType(Box<Shape>),
    Tuple(Vec<Shape>),
    Struct(Vec<Field>),
    /// A payload left unresolved by the trace.
    Other,
}

#[derive(Debug)]
pub struct Variant {
    pub index: u32,
    pub name: String,
    pub payload: VariantShape,
}

/// The serialized form of a named type.
#[derive(Debug)]
pub enum ContainerShape {
    Struct(Vec<Field>),
    /// A struct with exactly one unnamed field.
    NewType(Box<Shape>),
    TupleStruct(Vec<Shape>),
    Enum(Vec<Variant>),
    UnitStruct,
}

/// A named container shape.
#[derive(Debug)]
pub struct Entry {
    pub name: String,
    pub shape: ContainerShape,
}

/// The container shapes reachable from a traced type, keyed by name.
#[derive(Debug)]
pub struct ShapeSet {
    pub entries: Vec<Entry>,
}

/// The shape recorded under `name` in `entries` at or after index `i` (the
/// first such one).
pub open spec fn lookup_from(entries: Seq<Entry>, name: Seq<char>, i: int) -> Option<ContainerShape>
    decreases entries.len() - i,
{
    if i < 0 || i >= entries.len() {
        None
    } else if entries[i].name@ == name {
        Some(entries[i].shape)
    } else {
        lookup_from(entries, name, i + 1)
    }
}

impl ShapeSet {
    /// The shape recorded under `name`.
    pub open spec fn get_spec(self, name: Seq<char>) -> Option<ContainerShape> {
        lookup_from(self.entries@, name, 0)
    }

    /// The shape recorded under `name`, if any.
    pub fn get(&self, name: &String) -> (r: Option<&ContainerShape>)
        ensures
            r is Some <==> self.get_spec(name@) is Some,
            r is Some ==> self.get_spec(name@) == Some(*r->Some_0),
    {
        let mut i: usize = 0;
        while i < self.entries.len()
            invariant
                0 <= i <= self.entries@.len(),
                lookup_from(self.entries@, name@, 0) == lookup_from(self.entries@, name@, i as int),
            decreases self.entries@.len() - i,
        {
            if self.entries[i].name == *name {
                return Some(&self.entries[i].shape);
            }
            i = i + 1;
        }
        None
    }
}

} // verus!
