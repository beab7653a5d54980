//! Properties of registration, transparent unwrapping and nullability.
use vstd::prelude::*;
use crate::convert::container_fragment;
use crate::fragment::{FragmentModel, Kind, SchemaModel};
use crate::provider::{
    bind_entries, canonical_name_spec, entries_start, entry_name, first_conflict, nullable_spec,
    register_conflict, register_spec, root_fragment_spec, wrapped_name, TracedType,
};
use crate::shape::{lookup_from, ContainerShape, Entry, ShapeSet};

verus! {

/// Later entries never change what earlier ones bound.
proof fn lemma_bind_entries_grows(
    m: Map<Seq<char>, FragmentModel>,
    t: TracedType,
    set: ShapeSet,
    k1: nat,
    k2: nat,
)
    requires
        k1 <= k2 <= set.entries@.len(),
    ensures
        forall|x: Seq<char>|
            #[trigger] bind_entries(m, t, set, k1).contains_key(x) ==> bind_entries(
                m,
                t,
                set,
                k2,
            ).contains_key(x) && bind_entries(m, t, set, k2)[x] == bind_entries(m, t, set, k1)[x],
    decreases k2,
{
    if k1 < k2 {
        lemma_bind_entries_grows(m, t, set, k1, (k2 - 1) as nat);
    }
}

/// Every entry bound so far is a key.
proof fn lemma_bind_entries_keys(
    m: Map<Seq<char>, FragmentModel>,
    t: TracedType,
    set: ShapeSet,
    k: nat,
)
    requires
        k <= set.entries@.len(),
    ensures
        forall|j: int|
            0 <= j < k ==> bind_entries(m, t, set, k).contains_key(
                #[trigger] entry_name(t, set.entries@[j].name@),
            ),
    decreases k,
{
    if k > 0 {
        lemma_bind_entries_keys(m, t, set, (k - 1) as nat);
        lemma_bind_entries_grows(m, t, set, (k - 1) as nat, k);
    }
}

/// Keys are those of `m` and the names of the entries bound so far.
proof fn lemma_bind_entries_only(
    m: Map<Seq<char>, FragmentModel>,
    t: TracedType,
    set: ShapeSet,
    k: nat,
    x: Seq<char>,
)
    requires
        k <= set.entries@.len(),
        !m.contains_key(x),
        forall|j: int| 0 <= j < k ==> entry_name(t, #[trigger] set.entries@[j].name@) != x,
    ensures
        !bind_entries(m, t, set, k).contains_key(x),
    decreases k,
{
    if k > 0 {
        lemma_bind_entries_only(m, t, set, (k - 1) as nat, x);
    }
}

/// Binding entries whose names are all keys already changes nothing.
proof fn lemma_bind_entries_noop(
    m: Map<Seq<char>, FragmentModel>,
    t: TracedType,
    set: ShapeSet,
    k: nat,
)
    requires
        k <= set.entries@.len(),
        forall|j: int|
            0 <= j < k ==> m.contains_key(#[trigger] entry_name(t, set.entries@[j].name@)),
    ensures
        bind_entries(m, t, set, k) == m,
    decreases k,
{
    if k > 0 {
        lemma_bind_entries_noop(m, t, set, (k - 1) as nat);
    }
}

/// Where no conflict was met, each entry's name holds the entry's fragment.
proof fn lemma_no_conflict_holds(
    m: Map<Seq<char>, FragmentModel>,
    t: TracedType,
    set: ShapeSet,
    k: nat,
)
    requires
        k <= set.entries@.len(),
        first_conflict(m, t, set, k) is None,
    ensures
        forall|j: int|
            0 <= j < k ==> bind_entries(m, t, set, k).contains_key(
                entry_name(t, #[trigger] set.entries@[j].name@),
            ) && bind_entries(m, t, set, k)[entry_name(t, set.entries@[j].name@)]
                == container_fragment(set.entries@[j].shape, set),
    decreases k,
{
    if k > 0 {
        lemma_no_conflict_holds(m, t, set, (k - 1) as nat);
        lemma_bind_entries_grows(m, t, set, (k - 1) as nat, k);
        assert forall|j: int| 0 <= j < k implies bind_entries(m, t, set, k).contains_key(
            entry_name(t, #[trigger] set.entries@[j].name@),
        ) && bind_entries(m, t, set, k)[entry_name(t, set.entries@[j].name@)]
            == container_fragment(set.entries@[j].shape, set) by {
            if j < k - 1 {
                assert(bind_entries(m, t, set, (k - 1) as nat).contains_key(
                    entry_name(t, set.entries@[j].name@),
                ));
            }
        }
    }
}

/// Entries whose names already hold their fragments meet no conflict.
proof fn lemma_settled_no_conflict(
    m: Map<Seq<char>, FragmentModel>,
    t: TracedType,
    set: ShapeSet,
    k: nat,
)
    requires
        k <= set.entries@.len(),
        forall|j: int|
            0 <= j < k ==> m.contains_key(entry_name(t, #[trigger] set.entries@[j].name@))
                && m[entry_name(t, set.entries@[j].name@)] == container_fragment(
                set.entries@[j].shape,
                set,
            ),
    ensures
        first_conflict(m, t, set, k) is None,
    decreases k,
{
    if k > 0 {
        lemma_settled_no_conflict(m, t, set, (k - 1) as nat);
        assert forall|j: int| 0 <= j < k - 1 implies m.contains_key(
            #[trigger] entry_name(t, set.entries@[j].name@),
        ) by {
            assert(m.contains_key(entry_name(t, set.entries@[j].name@)));
        }
        lemma_bind_entries_noop(m, t, set, (k - 1) as nat);
        assert(m.contains_key(entry_name(t, set.entries@[k - 1].name@)));
    }
}

/// A shape found from index `i` on sits at some index at or after `i`; in a
/// set with unique names it is the only entry of that name.
proof fn lemma_lookup_index(entries: Seq<Entry>, name: Seq<char>, i: int) -> (j: int)
    requires
        0 <= i,
        lookup_from(entries, name, i) is Some,
    ensures
        i <= j < entries.len(),
        entries[j].name@ == name,
        lookup_from(entries, name, i) == Some(entries[j].shape),
        forall|k: int| i <= k < j ==> #[trigger] entries[k].name@ != name,
    decreases entries.len() - i,
{
    if entries[i].name@ == name {
        i
    } else {
        lemma_lookup_index(entries, name, i + 1)
    }
}

/// After registration the type's canonical name is bound. Registration is
/// idempotent: registering the type again, from any caller, leaves the
/// registry as the first registration left it, and meets no conflict where
/// the first met none.
pub proof fn lemma_register_idempotent(m: Map<Seq<char>, FragmentModel>, t: TracedType)
    ensures
        register_spec(m, t).contains_key(canonical_name_spec(t)),
        register_spec(register_spec(m, t), t) == register_spec(m, t),
        register_conflict(m, t) is None ==> register_conflict(register_spec(m, t), t) is None,
{
    let c = canonical_name_spec(t);
    if !m.contains_key(c) {
        match t.shapes {
            None => {},
            Some(set) => {
                let k = set.entries@.len() as nat;
                let start = entries_start(m, t, set);
                if set.get_spec(t.name@) is Some {
                    let i = lemma_lookup_index(set.entries@, t.name@, 0);
                    assert(entry_name(t, set.entries@[i].name@) == c);
                    lemma_bind_entries_keys(start, t, set, k);
                    if first_conflict(start, t, set, k) is None {
                        lemma_no_conflict_holds(start, t, set, k);
                        assert(root_fragment_spec(t) == container_fragment(
                            set.entries@[i].shape,
                            set,
                        ));
                    }
                } else {
                    assert(c == t.name@);
                    lemma_bind_entries_grows(start, t, set, 0, k);
                    assert(bind_entries(start, t, set, 0).contains_key(c));
                }
            },
        }
    }
}

/// Registering any type never changes a name that is bound already.
pub proof fn lemma_register_keeps_bound(
    m: Map<Seq<char>, FragmentModel>,
    u: TracedType,
    x: Seq<char>,
)
    requires
        m.contains_key(x),
    ensures
        register_spec(m, u).contains_key(x),
        register_spec(m, u)[x] == m[x],
{
    if !m.contains_key(canonical_name_spec(u)) {
        match u.shapes {
            None => {},
            Some(set) => {
                let start = entries_start(m, u, set);
                assert(start.contains_key(x) && start[x] == m[x]);
                lemma_bind_entries_grows(start, u, set, 0, set.entries@.len() as nat);
                assert(bind_entries(start, u, set, 0).contains_key(x));
            },
        }
    }
}

/// Registering a traced type that is no wrapper of a named type, in a registry
/// that lacks its name, binds its container's own fragment under its name;
/// reading the registry back gives that fragment, and so it stays through any
/// later registration, of this type or another.
pub proof fn lemma_register_reads_back(
    m: Map<Seq<char>, FragmentModel>,
    t: TracedType,
    set: ShapeSet,
    c: ContainerShape,
    u: TracedType,
)
    requires
        t.shapes == Some(set),
        set.get_spec(t.name@) == Some(c),
        wrapped_name(t.name@, set) is None,
        !m.contains_key(t.name@),
    ensures
        register_spec(m, t).contains_key(t.name@),
        register_spec(m, t)[t.name@] == container_fragment(c, set),
        register_spec(register_spec(m, t), t) == register_spec(m, t),
        register_spec(register_spec(m, t), u)[t.name@] == container_fragment(c, set),
{
    let k = set.entries@.len() as nat;
    let i = lemma_lookup_index(set.entries@, t.name@, 0);
    assert(canonical_name_spec(t) == t.name@);
    assert forall|j: int| 0 <= j < i implies entry_name(t, #[trigger] set.entries@[j].name@)
        != t.name@ by {
        assert(set.entries@[j].name@ != t.name@);
    }
    lemma_bind_entries_only(m, t, set, i as nat, t.name@);
    assert(entry_name(t, set.entries@[i].name@) == t.name@);
    assert(set.entries@[i].shape == c);
    assert(bind_entries(m, t, set, (i + 1) as nat)[t.name@] == container_fragment(c, set));
    assert(bind_entries(m, t, set, (i + 1) as nat).contains_key(t.name@));
    lemma_bind_entries_grows(m, t, set, (i + 1) as nat, k);
    assert(register_spec(m, t) == bind_entries(m, t, set, k));
    lemma_register_idempotent(m, t);
    lemma_register_keeps_bound(register_spec(m, t), u, t.name@);
}

/// A single-field wrapper around a named type has that type's name and
/// schema reference, where the wrapped type is no such wrapper itself.
pub proof fn lemma_wrapper_transparent(w: TracedType, t: TracedType)
    requires
        w.shapes is Some,
        wrapped_name(w.name@, w.shapes->Some_0) == Some(t.name@),
        t.shapes is None || wrapped_name(t.name@, t.shapes->Some_0) is None,
    ensures
        canonical_name_spec(w) == canonical_name_spec(t),
        FragmentModel::Reference(canonical_name_spec(w)) == FragmentModel::Reference(
            canonical_name_spec(t),
        ),
{
}

/// Making a fragment nullable sets the nullable mark and keeps the name: a
/// reference is titled with the name it refers to and still refers to it; an
/// inline fragment is otherwise unchanged.
pub proof fn lemma_nullable_keeps_name(f: FragmentModel)
    ensures
        nullable_spec(f) is Inline,
        nullable_spec(f)->Inline_0.nullable,
        f is Reference ==> nullable_spec(f)->Inline_0.title == Some(f->Reference_0)
            && nullable_spec(f)->Inline_0.all_of == seq![f],
        f is Inline ==> nullable_spec(f)->Inline_0 == (SchemaModel {
            nullable: true,
            ..f->Inline_0
        }),
        f is Inline ==> {
            let (s, r) = (f->Inline_0, nullable_spec(f)->Inline_0);
            &&& r.kind == s.kind
            &&& r.title == s.title
            &&& r.items == s.items
            &&& r.additional_properties == s.additional_properties
            &&& r.properties == s.properties
            &&& r.all_of == s.all_of
            &&& r.any_of == s.any_of
        },
{
}

/// The two ways to describe an optional payload differ: a wrapper of an
/// optional value gives a nullable inline fragment titled with the canonical
/// name, while an optional wrapper keeps the plain reference.
pub proof fn lemma_optional_forms_differ(t: TracedType)
    ensures
        nullable_spec(FragmentModel::Reference(canonical_name_spec(t))) != FragmentModel::Reference(
            canonical_name_spec(t),
        ),
        nullable_spec(FragmentModel::Reference(canonical_name_spec(t)))->Inline_0.title == Some(
            canonical_name_spec(t),
        ),
        nullable_spec(FragmentModel::Reference(canonical_name_spec(t)))->Inline_0.nullable,
        nullable_spec(FragmentModel::Reference(canonical_name_spec(t)))->Inline_0.kind == Kind::Any,
{
}

} // verus!
