//! Conversion of traced shapes into schema fragments.
use vstd::prelude::*;
use crate::fragment::{
    bare_schema, frags_view, inline_fragment, inline_of, lemma_frags_view_push, lemma_props_view_push,
    plain, props_view, Fragment, FragmentModel, Kind, Property, SchemaModel,
};
use crate::shape::{ContainerShape, Field, Shape, ShapeSet, Variant, VariantShape};

verus! {

broadcast use vstd::std_specs::vec::group_vec_axioms;

/// The fragment that describes a value of shape `s`. A named shape stays a
/// reference; an optional shape is described as its payload.
pub open spec fn shape_fragment(s: Shape) -> FragmentModel
    decreases s,
{
    match s {
        Shape::Str | Shape::Char => inline_of(Kind::Str),
        Shape::I8 | Shape::I16 | Shape::I32 | Shape::I64 | Shape::I128 | Shape::U8 | Shape::U16
        | Shape::U32 | Shape::U64 | Shape::U128 => inline_of(Kind::Integer),
        Shape::Float32 | Shape::Float64 => inline_of(Kind::Number),
        Shape::Bool => inline_of(Kind::Boolean),
        Shape::Unit => inline_of(Kind::Null),
        Shape::Optional(inner) => shape_fragment(*inner),
        Shape::Sequence(inner) => FragmentModel::Inline(
            SchemaModel { items: Some(Box::new(shape_fragment(*inner))), ..plain(Kind::Array) },
        ),
        Shape::Mapping { key, value } => FragmentModel::Inline(
            SchemaModel {
                additional_properties: Some(Box::new(shape_fragment(*value))),
                ..plain(Kind::Object)
            },
        ),
        Shape::Tuple(shapes) => FragmentModel::Inline(
            SchemaModel { all_of: shapes_fragments(shapes@), ..plain(Kind::Array) },
        ),
        Shape::TypeName(name) => FragmentModel::Reference(name@),
        Shape::Other => inline_of(Kind::Object),
    }
}

/// The fragments of a list of shapes, in order.
pub open spec fn shapes_fragments(v: Seq<Shape>) -> Seq<FragmentModel>
    decreases v,
{
    if v.len() == 0 {
        Seq::empty()
    } else {
        shapes_fragments(v.subrange(0, v.len() - 1)).push(shape_fragment(v[v.len() - 1]))
    }
}

/// The properties that describe a list of fields, in declaration order.
pub open spec fn fields_properties(v: Seq<Field>) -> Seq<(Seq<char>, FragmentModel)>
    decreases v.len(),
{
    if v.len() == 0 {
        Seq::empty()
    } else {
        fields_properties(v.subrange(0, v.len() - 1)).push(
            (v[v.len() - 1].name@, shape_fragment(v[v.len() - 1].shape)),
        )
    }
}

/// The fragment of an enum variant's payload.
pub open spec fn variant_fragment(p: VariantShape) -> FragmentModel {
    match p {
        VariantShape::Unit => inline_of(Kind::Null),
        VariantShape::NewType(inner) => shape_fragment(*inner),
        VariantShape::Tuple(shapes) => FragmentModel::Inline(
            SchemaModel { all_of: shapes_fragments(shapes@), ..plain(Kind::Array) },
        ),
        VariantShape::Struct(fields) => FragmentModel::Inline(
            SchemaModel { properties: fields_properties(fields@), ..plain(Kind::Object) },
        ),
        VariantShape::Other => inline_of(Kind::Object),
    }
}

/// One alternative of an externally tagged enum: an object whose single
/// property is the variant's name.
pub open spec fn variant_alternative(v: Variant) -> FragmentModel {
    FragmentModel::Inline(
        SchemaModel {
            properties: seq![(v.name@, variant_fragment(v.payload))],
            ..plain(Kind::Object)
        },
    )
}

pub open spec fn variants_alternatives(v: Seq<Variant>) -> Seq<FragmentModel>
    decreases v.len(),
{
    if v.len() == 0 {
        Seq::empty()
    } else {
        variants_alternatives(v.subrange(0, v.len() - 1)).push(
            variant_alternative(v[v.len() - 1]),
        )
    }
}

/// The fragment of a container shape, taken as it stands: a single-field
/// wrapper is described by its payload's fragment.
pub open spec fn direct_fragment(c: ContainerShape) -> FragmentModel {
    match c {
        ContainerShape::Struct(fields) => FragmentModel::Inline(
            SchemaModel { properties: fields_properties(fields@), ..plain(Kind::Object) },
        ),
        ContainerShape::NewType(inner) => shape_fragment(*inner),
        ContainerShape::TupleStruct(shapes) => FragmentModel::Inline(
            SchemaModel { all_of: shapes_fragments(shapes@), ..plain(Kind::Array) },
        ),
        ContainerShape::Enum(variants) => FragmentModel::Inline(
            SchemaModel { any_of: variants_alternatives(variants@), ..plain(Kind::Object) },
        ),
        ContainerShape::UnitStruct => inline_of(Kind::Null),
    }
}

/// The top-level fragment of container `c`, with `resolving` the names whose
/// wrappers are being unwrapped. A single-field wrapper around a named type is
/// transparent: the named type's own container is converted in its place. A
/// name met again is left as a reference; so is a traced name met once `fuel`
/// is spent (at the start it is the number of traced shapes, which bounds the
/// number of distinct names, so a set with unique names never spends it). A
/// name missing from the traced set gives an untyped object.
pub open spec fn unwrap_from(
    c: ContainerShape,
    set: ShapeSet,
    resolving: Seq<Seq<char>>,
    fuel: nat,
) -> FragmentModel
    decreases fuel,
{
    match c {
        ContainerShape::NewType(inner) => match shape_fragment(*inner) {
            FragmentModel::Reference(name) => if resolving.contains(name) {
                FragmentModel::Reference(name)
            } else {
                match set.get_spec(name) {
                    Some(next) => if fuel == 0 {
                        FragmentModel::Reference(name)
                    } else {
                        unwrap_from(next, set, resolving.push(name), (fuel - 1) as nat)
                    },
                    None => inline_of(Kind::Object),
                }
            },
            f => f,
        },
        _ => direct_fragment(c),
    }
}

/// The fragment under which container `c` of the traced set `set` is
/// registered.
pub open spec fn container_fragment(c: ContainerShape, set: ShapeSet) -> FragmentModel {
    unwrap_from(c, set, Seq::empty(), set.entries@.len() as nat)
}

pub open spec fn names_view(v: Seq<String>) -> Seq<Seq<char>> {
    v.map_values(|s: String| s@)
}

/// Converts one shape; a named shape becomes a reference to its name.
pub fn shape_to_fragment(s: &Shape) -> (r: Fragment)
    ensures
        r@ == shape_fragment(*s),
    decreases s,
{
    match s {
        Shape::Str | Shape::Char => inline_fragment(Kind::Str),
        Shape::I8 | Shape::I16 | Shape::I32 | Shape::I64 | Shape::I128 | Shape::U8 | Shape::U16
        | Shape::U32 | Shape::U64 | Shape::U128 => inline_fragment(Kind::Integer),
        Shape::Float32 | Shape::Float64 => inline_fragment(Kind::Number),
        Shape::Bool => inline_fragment(Kind::Boolean),
        Shape::Unit => inline_fragment(Kind::Null),
        Shape::Optional(inner) => shape_to_fragment(inner),
        Shape::Sequence(inner) => {
            let items = shape_to_fragment(inner);
            let mut schema = bare_schema(Kind::Array);
            schema.items = Some(Box::new(items));
            Fragment::Inline(Box::new(schema))
        },
        Shape::Mapping { key: _, value } => {
            let additional = shape_to_fragment(value);
            let mut schema = bare_schema(Kind::Object);
            schema.additional_properties = Some(Box::new(additional));
            Fragment::Inline(Box::new(schema))
        },
        Shape::Tuple(shapes) => {
            let all_of = shapes_to_fragments(shapes);
            let mut schema = bare_schema(Kind::Array);
            schema.all_of = all_of;
            Fragment::Inline(Box::new(schema))
        },
        Shape::TypeName(name) => Fragment::Reference(name.clone()),
        Shape::Other => inline_fragment(Kind::Object),
    }
}

/// Converts a list of shapes, in order.
pub fn shapes_to_fragments(v: &Vec<Shape>) -> (r: Vec<Fragment>)
    ensures
        frags_view(r@) == shapes_fragments(v@),
    decreases v,
{
    let mut out: Vec<Fragment> = Vec::new();
    let mut i: usize = 0;
    while i < v.len()
        invariant
            0 <= i <= v@.len(),
            frags_view(out@) == shapes_fragments(v@.subrange(0, i as int)),
        decreases v@.len() - i,
    {
        let f = shape_to_fragment(&v[i]);
        proof {
            lemma_frags_view_push(out@, f);
            assert(v@.subrange(0, i + 1).subrange(0, i as int) =~= v@.subrange(0, i as int));
        }
        out.push(f);
        i = i + 1;
    }
    assert(v@.subrange(0, v@.len() as int) =~= v@);
    out
}

/// Converts a list of fields into properties, in declaration order.
pub fn fields_to_properties(v: &Vec<Field>) -> (r: Vec<Property>)
    ensures
        props_view(r@) == fields_properties(v@),
{
    let mut out: Vec<Property> = Vec::new();
    let mut i: usize = 0;
    while i < v.len()
        invariant
            0 <= i <= v@.len(),
            props_view(out@) == fields_properties(v@.subrange(0, i as int)),
        decreases v@.len() - i,
    {
        let p = Property { name: v[i].name.clone(), fragment: shape_to_fragment(&v[i].shape) };
        proof {
            lemma_props_view_push(out@, p);
            assert(v@.subrange(0, i + 1).subrange(0, i as int) =~= v@.subrange(0, i as int));
        }
        out.push(p);
        i = i + 1;
    }
    assert(v@.subrange(0, v@.len() as int) =~= v@);
    out
}

/// Converts the payload of an enum variant.
pub fn variant_to_fragment(p: &VariantShape) -> (r: Fragment)
    ensures
        r@ == variant_fragment(*p),
{
    match p {
        VariantShape::Unit => inline_fragment(Kind::Null),
        VariantShape::NewType(inner) => shape_to_fragment(inner),
        VariantShape::Tuple(shapes) => {
            let all_of = shapes_to_fragments(shapes);
            let mut schema = bare_schema(Kind::Array);
            schema.all_of = all_of;
            Fragment::Inline(Box::new(schema))
        },
        VariantShape::Struct(fields) => {
            let properties = fields_to_properties(fields);
            let mut schema = bare_schema(Kind::Object);
            schema.properties = properties;
            Fragment::Inline(Box::new(schema))
        },
        VariantShape::Other => inline_fragment(Kind::Object),
    }
}

fn variant_to_alternative(v: &Variant) -> (r: Fragment)
    ensures
        r@ == variant_alternative(*v),
{
    let mut properties: Vec<Property> = Vec::new();
    let p = Property { name: v.name.clone(), fragment: variant_to_fragment(&v.payload) };
    proof {
        lemma_props_view_push(properties@, p);
    }
    properties.push(p);
    let mut schema = bare_schema(Kind::Object);
    schema.properties = properties;
    let r = Fragment::Inline(Box::new(schema));
    assert(props_view(properties@) =~= seq![(v.name@, variant_fragment(v.payload))]);
    r
}

fn variants_to_alternatives(v: &Vec<Variant>) -> (r: Vec<Fragment>)
    ensures
        frags_view(r@) == variants_alternatives(v@),
{
    let mut out: Vec<Fragment> = Vec::new();
    let mut i: usize = 0;
    while i < v.len()
        invariant
            0 <= i <= v@.len(),
            frags_view(out@) == variants_alternatives(v@.subrange(0, i as int)),
        decreases v@.len() - i,
    {
        let f = variant_to_alternative(&v[i]);
        proof {
            lemma_frags_view_push(out@, f);
            assert(v@.subrange(0, i + 1).subrange(0, i as int) =~= v@.subrange(0, i as int));
        }
        out.push(f);
        i = i + 1;
    }
    assert(v@.subrange(0, v@.len() as int) =~= v@);
    out
}

/// Converts a container shape as it stands.
pub fn direct_to_fragment(c: &ContainerShape) -> (r: Fragment)
    ensures
        r@ == direct_fragment(*c),
{
    match c {
        ContainerShape::Struct(fields) => {
            let properties = fields_to_properties(fields);
            let mut schema = bare_schema(Kind::Object);
            schema.properties = properties;
            Fragment::Inline(Box::new(schema))
        },
        ContainerShape::NewType(inner) => shape_to_fragment(inner),
        ContainerShape::TupleStruct(shapes) => {
            let all_of = shapes_to_fragments(shapes);
            let mut schema = bare_schema(Kind::Array);
            schema.all_of = all_of;
            Fragment::Inline(Box::new(schema))
        },
        ContainerShape::Enum(variants) => {
            let any_of = variants_to_alternatives(variants);
            let mut schema = bare_schema(Kind::Object);
            schema.any_of = any_of;
            Fragment::Inline(Box::new(schema))
        },
        ContainerShape::UnitStruct => inline_fragment(Kind::Null),
    }
}

fn contains_name(v: &Vec<String>, name: &String) -> (r: bool)
    ensures
        r == names_view(v@).contains(name@),
{
    let mut i: usize = 0;
    while i < v.len()
        invariant
            0 <= i <= v@.len(),
            forall|j: int| 0 <= j < i ==> v@[j]@ != name@,
        decreases v@.len() - i,
    {
        if v[i] == *name {
            assert(names_view(v@)[i as int] == name@);
            return true;
        }
        i = i + 1;
    }
    assert(!names_view(v@).contains(name@)) by {
        if names_view(v@).contains(name@) {
            let j = choose|j: int| 0 <= j < names_view(v@).len() && names_view(v@)[j] == name@;
            assert(v@[j]@ == name@);
        }
    }
    false
}

/// Converts container `c` of the traced set `set` into the fragment it is
/// registered under, unwrapping single-field wrappers around named types.
pub fn container_to_fragment(c: &ContainerShape, set: &ShapeSet) -> (r: Fragment)
    ensures
        r@ == container_fragment(*c, *set),
{
    let mut cur: &ContainerShape = c;
    let mut resolving: Vec<String> = Vec::new();
    let mut fuel: usize = set.entries.len();
    assert(names_view(resolving@) =~= Seq::<Seq<char>>::empty());
    loop
        invariant
            container_fragment(*c, *set) == unwrap_from(
                *cur,
                *set,
                names_view(resolving@),
                fuel as nat,
            ),
        decreases fuel,
    {
        match cur {
            ContainerShape::NewType(inner) => {
                let f = shape_to_fragment(inner);
                match f {
                    Fragment::Reference(name) => {
                        if contains_name(&resolving, &name) {
                            return Fragment::Reference(name);
                        }
                        match set.get(&name) {
                            Some(next) => {
                                if fuel == 0 {
                                    return Fragment::Reference(name);
                                }
                                proof {
                                    assert(names_view(resolving@.push(name)) =~= names_view(
                                        resolving@,
                                    ).push(name@));
                                }
                                resolving.push(name);
                                cur = next;
                                fuel = fuel - 1;
                            },
                            None => {
                                return inline_fragment(Kind::Object);
                            },
                        }
                    },
                    Fragment::Inline(schema) => {
                        return Fragment::Inline(schema);
                    },
                }
            },
            _ => {
                return direct_to_fragment(cur);
            },
        }
    }
}

} // verus!
