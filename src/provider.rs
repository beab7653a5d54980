//! What a foreign type offers a documentation framework: its canonical name,
//! a reference to its schema (plain, or nullable for an optional payload), and
//! the registration of its fragments.
use vstd::prelude::*;
use crate::convert::{container_fragment, container_to_fragment, shape_fragment, shape_to_fragment};
use crate::fragment::{
    bare_schema, frags_view, inline_fragment, inline_of, lemma_frags_view_push, plain, same_fragment,
    schema_view, Fragment, FragmentModel, Kind, SchemaModel,
};
use crate::registry::{bind_outcome_spec, bind_spec, BindOutcome, SchemaRegistry};
use crate::shape::{ContainerShape, Shape, ShapeSet};

verus! {

broadcast use vstd::std_specs::vec::group_vec_axioms;

/// A type as the tracer saw it: its bare name, the shape of its serialized
/// form (`Shape::Other` where tracing failed), and the container shapes
/// reachable from it, or `None` where tracing failed.
#[derive(Debug)]
pub struct TracedType {
    pub name: String,
    pub root: Shape,
    pub shapes: Option<ShapeSet>,
}

/// The name of the type that a single-field wrapper named `name` wraps, where
/// `set` records it as wrapping a named type.
pub open spec fn wrapped_name(name: Seq<char>, set: ShapeSet) -> Option<Seq<char>> {
    match set.get_spec(name) {
        Some(ContainerShape::NewType(inner)) => match *inner {
            Shape::TypeName(n) => Some(n@),
            _ => None,
        },
        _ => None,
    }
}

/// The canonical name: the bare name, or, for a single-field wrapper around a
/// named type, that type's name (one level only).
pub open spec fn canonical_name_spec(t: TracedType) -> Seq<char> {
    match t.shapes {
        Some(set) => match wrapped_name(t.name@, set) {
            Some(n) => n,
            None => t.name@,
        },
        None => t.name@,
    }
}

/// `f` made nullable. A reference becomes an inline fragment titled with the
/// referenced name that holds the reference; an inline fragment is marked.
pub open spec fn nullable_spec(f: FragmentModel) -> FragmentModel {
    match f {
        FragmentModel::Reference(name) => FragmentModel::Inline(
            SchemaModel {
                title: Some(name),
                nullable: true,
                all_of: seq![FragmentModel::Reference(name)],
                ..plain(Kind::Any)
            },
        ),
        FragmentModel::Inline(s) => FragmentModel::Inline(SchemaModel { nullable: true, ..s }),
    }
}

/// The name a traced entry is registered under: the root's own entry goes
/// under the canonical name.
pub open spec fn entry_name(t: TracedType, n: Seq<char>) -> Seq<char> {
    if n == t.name@ {
        canonical_name_spec(t)
    } else {
        n
    }
}

/// The registry after binding the first `k` traced entries of `set`.
pub open spec fn bind_entries(
    m: Map<Seq<char>, FragmentModel>,
    t: TracedType,
    set: ShapeSet,
    k: nat,
) -> Map<Seq<char>, FragmentModel>
    decreases k,
{
    if k == 0 || k > set.entries@.len() {
        m
    } else {
        bind_spec(
            bind_entries(m, t, set, (k - 1) as nat),
            entry_name(t, set.entries@[k - 1].name@),
            container_fragment(set.entries@[k - 1].shape, set),
        )
    }
}

/// The fragment of the type itself: an untyped object where tracing failed;
/// its container's fragment where the trace holds one under its name; else
/// the fragment of its own shape (a primitive, a sequence, ...).
pub open spec fn root_fragment_spec(t: TracedType) -> FragmentModel {
    match t.shapes {
        None => inline_of(Kind::Object),
        Some(set) => match set.get_spec(t.name@) {
            Some(c) => container_fragment(c, set),
            None => shape_fragment(t.root),
        },
    }
}

/// The registry before the traced containers are bound: where the trace
/// holds no container under the type's name, the type's own fragment is bound
/// under that name first.
pub open spec fn entries_start(
    m: Map<Seq<char>, FragmentModel>,
    t: TracedType,
    set: ShapeSet,
) -> Map<Seq<char>, FragmentModel> {
    if set.get_spec(t.name@) is Some {
        m
    } else {
        m.insert(t.name@, shape_fragment(t.root))
    }
}

/// The registry after registering `t`. Where the canonical name is bound
/// already, nothing changes. Else an untraced type is bound as an untyped
/// object under its name; a traced type binds every traced container (they
/// are exactly those reachable from it), its own under the canonical name,
/// and, where it has no container of its own, its own shape's fragment under
/// its name.
pub open spec fn register_spec(
    m: Map<Seq<char>, FragmentModel>,
    t: TracedType,
) -> Map<Seq<char>, FragmentModel> {
    if m.contains_key(canonical_name_spec(t)) {
        m
    } else {
        match t.shapes {
            None => m.insert(t.name@, inline_of(Kind::Object)),
            Some(set) => bind_entries(entries_start(m, t, set), t, set, set.entries@.len() as nat),
        }
    }
}

/// The first traced entry among the first `k` that meets its name bound to
/// another fragment.
pub open spec fn first_conflict(
    m: Map<Seq<char>, FragmentModel>,
    t: TracedType,
    set: ShapeSet,
    k: nat,
) -> Option<Seq<char>>
    decreases k,
{
    if k == 0 || k > set.entries@.len() {
        None
    } else {
        match first_conflict(m, t, set, (k - 1) as nat) {
            Some(n) => Some(n),
            None => {
                let name = entry_name(t, set.entries@[k - 1].name@);
                if bind_outcome_spec(
                    bind_entries(m, t, set, (k - 1) as nat),
                    name,
                    container_fragment(set.entries@[k - 1].shape, set),
                ) == BindOutcome::Conflict {
                    Some(name)
                } else {
                    None
                }
            },
        }
    }
}

/// The first name that registering `t` finds bound to another fragment:
/// the canonical name itself, where it is bound to something other than the
/// type's own fragment; else the first traced entry that meets a conflict.
pub open spec fn register_conflict(m: Map<Seq<char>, FragmentModel>, t: TracedType) -> Option<
    Seq<char>,
> {
    if m.contains_key(canonical_name_spec(t)) {
        if m[canonical_name_spec(t)] == root_fragment_spec(t) {
            None
        } else {
            Some(canonical_name_spec(t))
        }
    } else {
        match t.shapes {
            None => None,
            Some(set) => first_conflict(
                entries_start(m, t, set),
                t,
                set,
                set.entries@.len() as nat,
            ),
        }
    }
}

/// A name that registration found bound to a different fragment.
#[derive(Debug)]
pub struct NameConflict {
    pub name: String,
}

impl TracedType {
    /// The name the type is registered and referenced under.
    pub fn canonical_name(&self) -> (r: String)
        ensures
            r@ == canonical_name_spec(*self),
    {
        match &self.shapes {
            Some(set) => match set.get(&self.name) {
                Some(ContainerShape::NewType(inner)) => match &**inner {
                    Shape::TypeName(n) => n.clone(),
                    _ => self.name.clone(),
                },
                _ => self.name.clone(),
            },
            None => self.name.clone(),
        }
    }

    /// A reference to the type's schema, for a required payload.
    pub fn schema_ref(&self) -> (r: Fragment)
        ensures
            r@ == FragmentModel::Reference(canonical_name_spec(*self)),
    {
        Fragment::Reference(self.canonical_name())
    }

    /// The type's schema for a payload that may be absent: the plain reference
    /// made nullable, under the same name.
    pub fn optional_schema_ref(&self) -> (r: Fragment)
        ensures
            r@ == nullable_spec(FragmentModel::Reference(canonical_name_spec(*self))),
    {
        nullable(self.schema_ref())
    }

    /// The fragment of the type itself.
    pub fn root_fragment(&self) -> (r: Fragment)
        ensures
            r@ == root_fragment_spec(*self),
    {
        match &self.shapes {
            None => inline_fragment(Kind::Object),
            Some(set) => match set.get(&self.name) {
                Some(c) => container_to_fragment(c, set),
                None => shape_to_fragment(&self.root),
            },
        }
    }

    /// Binds the type's fragments into `reg`, unless its canonical name is
    /// bound already. A name bound to another fragment keeps it, and the
    /// first such name is reported.
    pub fn register(&self, reg: &mut SchemaRegistry) -> (r: Result<(), NameConflict>)
        requires
            old(reg).wf(),
        ensures
            final(reg).wf(),
            final(reg)@ == register_spec(old(reg)@, *self),
            r is Ok <==> register_conflict(old(reg)@, *self) is None,
            r is Err ==> register_conflict(old(reg)@, *self) == Some(r->Err_0.name@),
    {
        let canonical = self.canonical_name();
        match reg.get(&canonical) {
            Some(bound) => {
                let own = self.root_fragment();
                if same_fragment(bound, &own) {
                    return Ok(());
                } else {
                    return Err(NameConflict { name: canonical });
                }
            },
            None => {},
        }
        match &self.shapes {
            None => {
                reg.bind(self.name.clone(), inline_fragment(Kind::Object));
                Ok(())
            },
            Some(set) => {
                if set.get(&self.name).is_none() {
                    reg.bind(self.name.clone(), shape_to_fragment(&self.root));
                }
                let ghost start = reg@;
                assert(start == entries_start(old(reg)@, *self, *set));
                let mut conflict: Option<String> = None;
                let mut k: usize = 0;
                while k < set.entries.len()
                    invariant
                        0 <= k <= set.entries@.len(),
                        self.shapes == Some(*set),
                        canonical@ == canonical_name_spec(*self),
                        reg.wf(),
                        reg@ == bind_entries(start, *self, *set, k as nat),
                        match conflict {
                            Some(n) => first_conflict(start, *self, *set, k as nat) == Some(n@),
                            None => first_conflict(start, *self, *set, k as nat) is None,
                        },
                    decreases set.entries@.len() - k,
                {
                    let entry = &set.entries[k];
                    let name = if entry.name == self.name {
                        canonical.clone()
                    } else {
                        entry.name.clone()
                    };
                    let fragment = container_to_fragment(&entry.shape, set);
                    if conflict.is_none() {
                        let n = name.clone();
                        if reg.bind(name, fragment) == BindOutcome::Conflict {
                            conflict = Some(n);
                        }
                    } else {
                        reg.bind(name, fragment);
                    }
                    k = k + 1;
                }
                match conflict {
                    Some(name) => Err(NameConflict { name }),
                    None => Ok(()),
                }
            },
        }
    }
}

/// Makes `f` nullable without renaming what it describes.
pub fn nullable(f: Fragment) -> (r: Fragment)
    ensures
        r@ == nullable_spec(f@),
{
    match f {
        Fragment::Reference(name) => {
            let mut all_of: Vec<Fragment> = Vec::new();
            let inner = Fragment::Reference(name.clone());
            proof {
                lemma_frags_view_push(all_of@, inner);
            }
            all_of.push(inner);
            let mut schema = bare_schema(Kind::Any);
            schema.title = Some(name);
            schema.nullable = true;
            schema.all_of = all_of;
            let r = Fragment::Inline(Box::new(schema));
            assert(frags_view(all_of@) =~= seq![FragmentModel::Reference(name@)]);
            r
        },
        Fragment::Inline(schema) => {
            let mut s = *schema;
            s.nullable = true;
            Fragment::Inline(Box::new(s))
        },
    }
}

} // verus!
