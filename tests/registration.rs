use jsonwrap::fragment::{inline_fragment, same_fragment, Fragment, Kind};
use jsonwrap::names::{bare_name, leak_str};
use jsonwrap::payload::{optional_outcome, present_outcome, JsonOutcome};
use jsonwrap::provider::{nullable, TracedType};
use jsonwrap::registry::{BindOutcome, SchemaRegistry};
use jsonwrap::shape::{ContainerShape, Entry, Field, Shape, ShapeSet};
use jsonwrap::Foreign;

fn entry(name: &str, shape: ContainerShape) -> Entry {
    Entry { name: name.to_string(), shape }
}

fn named(name: &str) -> Shape {
    Shape::TypeName(name.to_string())
}

fn kind_of(f: &Fragment) -> Option<Kind> {
    match f {
        Fragment::Inline(s) => Some(s.kind),
        Fragment::Reference(_) => None,
    }
}

fn reference_name(f: &Fragment) -> Option<String> {
    match f {
        Fragment::Reference(n) => Some(n.clone()),
        Fragment::Inline(_) => None,
    }
}

fn text_struct() -> ContainerShape {
    ContainerShape::Struct(vec![Field { name: "text".to_string(), shape: Shape::Str }])
}

/// A struct `ForeignType { text: String }`, traced on its own.
fn foreign_type() -> TracedType {
    TracedType {
        name: "ForeignType".to_string(),
        root: named("ForeignType"),
        shapes: Some(ShapeSet { entries: vec![entry("ForeignType", text_struct())] }),
    }
}

/// A single-field wrapper `Wrapper(ForeignType)`.
fn wrapper() -> TracedType {
    TracedType {
        name: "Wrapper".to_string(),
        root: named("Wrapper"),
        shapes: Some(ShapeSet {
            entries: vec![
                entry("Wrapper", ContainerShape::NewType(Box::new(named("ForeignType")))),
                entry("ForeignType", text_struct()),
            ],
        }),
    }
}

fn same_object(a: &Fragment, b: &Fragment) -> bool {
    match (a, b) {
        (Fragment::Inline(x), Fragment::Inline(y)) => {
            x.kind == y.kind
                && x.properties.len() == y.properties.len()
                && x.properties.iter().zip(y.properties.iter()).all(|(p, q)| {
                    p.name == q.name && kind_of(&p.fragment) == kind_of(&q.fragment)
                })
        }
        (Fragment::Reference(x), Fragment::Reference(y)) => x == y,
        _ => false,
    }
}

#[test]
fn registering_twice_binds_once() {
    let t = foreign_type();
    let mut reg = SchemaRegistry::new();
    assert!(t.register(&mut reg).is_ok());
    assert_eq!(reg.len(), 1);
    let first = reg.get(&"ForeignType".to_string()).map(|f| kind_of(f));
    assert!(t.register(&mut reg).is_ok());
    assert!(foreign_type().register(&mut reg).is_ok());
    assert_eq!(reg.len(), 1);
    assert_eq!(reg.get(&"ForeignType".to_string()).map(|f| kind_of(f)), first);
    assert_eq!(first, Some(Some(Kind::Object)));
}

#[test]
fn registered_fragment_reads_back_unchanged() {
    let t = foreign_type();
    let mut reg = SchemaRegistry::new();
    assert!(t.register(&mut reg).is_ok());
    let mut again = SchemaRegistry::new();
    assert!(t.register(&mut again).is_ok());
    assert!(t.register(&mut again).is_ok());
    let name = "ForeignType".to_string();
    let a = reg.get(&name).unwrap();
    let b = again.get(&name).unwrap();
    assert!(same_object(a, b));
    match a {
        Fragment::Inline(s) => {
            assert_eq!(s.properties.len(), 1);
            assert_eq!(s.properties[0].name, "text");
            assert_eq!(kind_of(&s.properties[0].fragment), Some(Kind::Str));
        }
        Fragment::Reference(_) => panic!("expected an inline fragment"),
    }
}

#[test]
fn wrapper_has_the_wrapped_name_and_reference() {
    let w = wrapper();
    let t = foreign_type();
    assert_eq!(w.canonical_name(), "ForeignType");
    assert_eq!(w.canonical_name(), t.canonical_name());
    assert_eq!(reference_name(&w.schema_ref()), Some("ForeignType".to_string()));
    assert_eq!(reference_name(&w.schema_ref()), reference_name(&t.schema_ref()));
}

#[test]
fn wrapper_registers_under_the_wrapped_name_only() {
    let mut reg = SchemaRegistry::new();
    assert!(wrapper().register(&mut reg).is_ok());
    assert_eq!(reg.len(), 1);
    assert!(reg.contains(&"ForeignType".to_string()));
    assert!(!reg.contains(&"Wrapper".to_string()));
    let mut direct = SchemaRegistry::new();
    assert!(foreign_type().register(&mut direct).is_ok());
    let name = "ForeignType".to_string();
    assert!(same_object(reg.get(&name).unwrap(), direct.get(&name).unwrap()));
}

#[test]
fn unwrapping_goes_one_level_only() {
    let t = TracedType {
        name: "Outer".to_string(),
        root: named("Outer"),
        shapes: Some(ShapeSet {
            entries: vec![
                entry("Outer", ContainerShape::NewType(Box::new(named("Middle")))),
                entry("Middle", ContainerShape::NewType(Box::new(named("Inner")))),
                entry("Inner", ContainerShape::UnitStruct),
            ],
        }),
    };
    assert_eq!(t.canonical_name(), "Middle");
}

#[test]
fn wrapper_of_scalar_keeps_its_own_name() {
    let t = TracedType {
        name: "Meters".to_string(),
        root: named("Meters"),
        shapes: Some(ShapeSet {
            entries: vec![entry("Meters", ContainerShape::NewType(Box::new(Shape::U32)))],
        }),
    };
    assert_eq!(t.canonical_name(), "Meters");
    let mut reg = SchemaRegistry::new();
    assert!(t.register(&mut reg).is_ok());
    assert_eq!(reg.get(&"Meters".to_string()).map(kind_of), Some(Some(Kind::Integer)));
}

#[test]
fn untraced_type_is_an_untyped_object() {
    let t = TracedType { name: "Opaque".to_string(), root: Shape::Other, shapes: None };
    assert_eq!(t.canonical_name(), "Opaque");
    let mut reg = SchemaRegistry::new();
    assert!(t.register(&mut reg).is_ok());
    assert!(t.register(&mut reg).is_ok());
    assert_eq!(reg.len(), 1);
    let f = reg.get(&"Opaque".to_string()).unwrap();
    match f {
        Fragment::Inline(s) => {
            assert_eq!(s.kind, Kind::Object);
            assert!(s.properties.is_empty());
        }
        Fragment::Reference(_) => panic!("expected an inline fragment"),
    }
}

#[test]
fn primitive_type_binds_its_own_shape() {
    let t = TracedType { name: "i32".to_string(), root: Shape::I32, shapes: Some(ShapeSet { entries: vec![] }) };
    let mut reg = SchemaRegistry::new();
    assert!(t.register(&mut reg).is_ok());
    assert_eq!(reg.len(), 1);
    assert_eq!(reference_name(&t.schema_ref()), Some("i32".to_string()));
    assert_eq!(reg.get(&"i32".to_string()).map(kind_of), Some(Some(Kind::Integer)));
    assert!(t.register(&mut reg).is_ok());
    assert_eq!(reg.len(), 1);
}

#[test]
fn sequence_type_binds_itself_and_its_items() {
    let t = TracedType {
        name: "Vec<ForeignType>".to_string(),
        root: Shape::Sequence(Box::new(named("ForeignType"))),
        shapes: Some(ShapeSet { entries: vec![entry("ForeignType", text_struct())] }),
    };
    let mut reg = SchemaRegistry::new();
    assert!(t.register(&mut reg).is_ok());
    assert_eq!(reg.len(), 2);
    match reg.get(&"Vec<ForeignType>".to_string()).unwrap() {
        Fragment::Inline(s) => {
            assert_eq!(s.kind, Kind::Array);
            assert_eq!(
                reference_name(s.items.as_ref().unwrap()),
                Some("ForeignType".to_string())
            );
        }
        Fragment::Reference(_) => panic!("expected an inline fragment"),
    }
    assert!(reg.contains(&"ForeignType".to_string()));
}

#[test]
fn bound_name_skips_the_whole_registration() {
    let outer = TracedType {
        name: "Outer".to_string(),
        root: named("Outer"),
        shapes: Some(ShapeSet {
            entries: vec![
                entry(
                    "Outer",
                    ContainerShape::Struct(vec![Field { name: "inner".to_string(), shape: named("Inner") }]),
                ),
                entry("Inner", text_struct()),
            ],
        }),
    };
    let mut reg = SchemaRegistry::new();
    assert_eq!(reg.bind("Outer".to_string(), outer.root_fragment()), BindOutcome::Bound);
    assert!(outer.register(&mut reg).is_ok());
    assert_eq!(reg.len(), 1);
    assert!(!reg.contains(&"Inner".to_string()));

    let mut other = SchemaRegistry::new();
    assert_eq!(other.bind("Outer".to_string(), inline_fragment(Kind::Str)), BindOutcome::Bound);
    assert_eq!(outer.register(&mut other).unwrap_err().name, "Outer");
    assert_eq!(other.len(), 1);
    assert!(!other.contains(&"Inner".to_string()));
}

#[test]
fn bindings_enumerate_every_name() {
    let mut reg = SchemaRegistry::new();
    assert!(foreign_type().register(&mut reg).is_ok());
    let t = TracedType { name: "u8".to_string(), root: Shape::U8, shapes: Some(ShapeSet { entries: vec![] }) };
    assert!(t.register(&mut reg).is_ok());
    let names: Vec<String> = (0..reg.len()).map(|i| reg.binding_at(i).name.clone()).collect();
    assert_eq!(names, vec!["ForeignType".to_string(), "u8".to_string()]);
}

#[test]
fn nested_named_types_are_registered() {
    let t = TracedType {
        name: "Outer".to_string(),
        root: named("Outer"),
        shapes: Some(ShapeSet {
            entries: vec![
                entry(
                    "Outer",
                    ContainerShape::Struct(vec![Field { name: "inner".to_string(), shape: named("Inner") }]),
                ),
                entry("Inner", text_struct()),
            ],
        }),
    };
    let mut reg = SchemaRegistry::new();
    assert!(t.register(&mut reg).is_ok());
    assert_eq!(reg.len(), 2);
    match reg.get(&"Outer".to_string()).unwrap() {
        Fragment::Inline(s) => {
            assert_eq!(reference_name(&s.properties[0].fragment), Some("Inner".to_string()))
        }
        Fragment::Reference(_) => panic!("expected an inline fragment"),
    }
    assert!(reg.contains(&"Inner".to_string()));
    let b = reg.binding_at(1);
    assert_eq!(b.name, "Inner");
}

#[test]
fn bind_keeps_the_first_fragment() {
    let mut reg = SchemaRegistry::new();
    assert_eq!(reg.bind("X".to_string(), Fragment::Reference("Y".to_string())), BindOutcome::Bound);
    assert_eq!(
        reg.bind("X".to_string(), Fragment::Reference("Y".to_string())),
        BindOutcome::Unchanged
    );
    assert_eq!(
        reg.bind("X".to_string(), Fragment::Reference("Z".to_string())),
        BindOutcome::Conflict
    );
    assert_eq!(reg.len(), 1);
    assert_eq!(reference_name(reg.get(&"X".to_string()).unwrap()), Some("Y".to_string()));
    assert!(reg.get(&"Y".to_string()).is_none());
}

#[test]
fn optional_schema_is_nullable_and_keeps_the_name() {
    let t = foreign_type();
    let f = t.optional_schema_ref();
    match &f {
        Fragment::Inline(s) => {
            assert!(s.nullable);
            assert_eq!(s.title.as_deref(), Some("ForeignType"));
            assert_eq!(s.kind, Kind::Any);
            assert_eq!(s.all_of.len(), 1);
            assert_eq!(reference_name(&s.all_of[0]), Some("ForeignType".to_string()));
        }
        Fragment::Reference(_) => panic!("expected an inline fragment"),
    }
    // The optional wrapper keeps the plain reference.
    assert_eq!(reference_name(&t.schema_ref()), Some("ForeignType".to_string()));
    assert_eq!(reference_name(&f), None);
}

#[test]
fn nullable_marks_inline_fragments() {
    let f = inline_fragment(Kind::Integer);
    let g = nullable(f);
    match g {
        Fragment::Inline(s) => {
            assert!(s.nullable);
            assert_eq!(s.kind, Kind::Integer);
            assert!(s.title.is_none());
            assert!(s.all_of.is_empty());
        }
        Fragment::Reference(_) => panic!("expected an inline fragment"),
    }
}

#[test]
fn optional_and_plain_outcomes_agree() {
    let present: Result<String, String> = Ok("{\"text\":\"x\"}".to_string());
    match (optional_outcome(Some(present.clone())), present_outcome(present)) {
        (JsonOutcome::Value(a), JsonOutcome::Value(b)) => assert_eq!(a, b),
        _ => panic!("expected two values"),
    }
    assert!(matches!(optional_outcome::<String, String>(None), JsonOutcome::Absent));
    assert!(matches!(
        optional_outcome::<String, String>(Some(Err("bad".to_string()))),
        JsonOutcome::Failed(e) if e == "bad"
    ));
    assert!(matches!(
        present_outcome::<String, String>(Err("bad".to_string())),
        JsonOutcome::Failed(_)
    ));
}

#[test]
fn bare_names() {
    assert_eq!(bare_name("foreign::ForeignType"), "ForeignType");
    assert_eq!(bare_name("a::b::c::Deep"), "Deep");
    assert_eq!(bare_name("Plain"), "Plain");
    assert_eq!(bare_name(""), "");
    assert_eq!(bare_name("a:::b"), "b");
    assert_eq!(bare_name("Trailing::"), "");
    assert_eq!(bare_name("x:y"), "x:y");
}

#[test]
fn leaked_copy_has_the_same_text() {
    let owned = String::from("field_name");
    let leaked: &'static str = leak_str(&owned);
    drop(owned);
    assert_eq!(leaked, "field_name");
}

#[test]
fn foreign_from_wraps_the_value() {
    let f: Foreign<u32> = Foreign::from(7);
    assert_eq!(f.0, 7);
    let g: Foreign<Option<&str>> = None.into();
    assert!(g.0.is_none());
}

#[test]
fn conflicting_registration_is_reported() {
    let mut reg = SchemaRegistry::new();
    assert_eq!(
        reg.bind("ForeignType".to_string(), inline_fragment(Kind::Integer)),
        BindOutcome::Bound
    );
    let err = foreign_type().register(&mut reg).unwrap_err();
    assert_eq!(err.name, "ForeignType");
    assert_eq!(reg.len(), 1);
    assert_eq!(reg.get(&"ForeignType".to_string()).map(kind_of), Some(Some(Kind::Integer)));
    let opaque = TracedType { name: "ForeignType".to_string(), root: Shape::Other, shapes: None };
    assert_eq!(opaque.register(&mut reg).unwrap_err().name, "ForeignType");
}

#[test]
fn wrapper_and_wrapped_type_agree_in_one_registry() {
    let mut reg = SchemaRegistry::new();
    assert!(foreign_type().register(&mut reg).is_ok());
    assert!(wrapper().register(&mut reg).is_ok());
    assert_eq!(reg.len(), 1);
}

#[test]
fn fragment_equality_is_structural() {
    let a = foreign_type();
    let b = wrapper();
    let mut ra = SchemaRegistry::new();
    let mut rb = SchemaRegistry::new();
    assert!(a.register(&mut ra).is_ok());
    assert!(b.register(&mut rb).is_ok());
    let name = "ForeignType".to_string();
    assert!(same_fragment(ra.get(&name).unwrap(), rb.get(&name).unwrap()));
    assert!(same_fragment(&a.optional_schema_ref(), &b.optional_schema_ref()));
    assert!(!same_fragment(&a.optional_schema_ref(), &a.schema_ref()));
    assert!(!same_fragment(&inline_fragment(Kind::Str), &inline_fragment(Kind::Integer)));
    assert!(!same_fragment(
        &Fragment::Reference("A".to_string()),
        &Fragment::Reference("B".to_string())
    ));
}
