//! Schema fragments: the nodes of a generated schema document, and their
//! mathematical model.
use vstd::prelude::*;

verus! {

broadcast use vstd::std_specs::vec::group_vec_axioms;

/// The type tag of an inline fragment. `Any` carries no tag at all.
#[derive(Clone, Copy, PartialEq, Eq, Structural, Debug)]
pub enum Kind {
    Any,
    Str,
    Integer,
    Number,
    Boolean,
    Null,
    Array,
    Object,
}

/// One node of a schema document: either written out inline, or a reference
/// to a named entry of a [`crate::registry::SchemaRegistry`].
#[derive(Debug)]
pub enum Fragment {
    Reference(String),
    Inline(Box<Schema>),
}

/// An inline fragment.
#[derive(Debug)]
pub struct Schema {
    pub kind: Kind,
    pub title: Option<String>,
    pub nullable: bool,
    pub items: Option<Box<Fragment>>,
    pub additional_properties: Option<Box<Fragment>>,
    pub properties: Vec<Property>,
    pub all_of: Vec<Fragment>,
    pub any_of: Vec<Fragment>,
}

/// A named property of an object fragment; order of properties is kept.
#[derive(Debug)]
pub struct Property {
    pub name: String,
    pub fragment: Fragment,
}

/// The model of a fragment.
pub enum FragmentModel {
    Reference(Seq<char>),
    Inline(SchemaModel),
}

/// The model of an inline fragment.
pub struct SchemaModel {
    pub kind: Kind,
    pub title: Option<Seq<char>>,
    pub nullable: bool,
    pub items: Option<Box<FragmentModel>>,
    pub additional_properties: Option<Box<FragmentModel>>,
    pub properties: Seq<(Seq<char>, FragmentModel)>,
    pub all_of: Seq<FragmentModel>,
    pub any_of: Seq<FragmentModel>,
}

/// An inline fragment of the given kind and nothing else.
pub open spec fn plain(kind: Kind) -> SchemaModel {
    SchemaModel {
        kind,
        title: None,
        nullable: false,
        items: None,
        additional_properties: None,
        properties: Seq::empty(),
        all_of: Seq::empty(),
        any_of: Seq::empty(),
    }
}

pub open spec fn inline_of(kind: Kind) -> FragmentModel {
    FragmentModel::Inline(plain(kind))
}

impl Fragment {
    pub open spec fn view(self) -> FragmentModel
        decreases self,
    {
        match self {
            Fragment::Reference(name) => FragmentModel::Reference(name@),
            Fragment::Inline(s) => FragmentModel::Inline(schema_view(*s)),
        }
    }
}

pub open spec fn opt_view(f: Option<Box<Fragment>>) -> Option<Box<FragmentModel>>
    decreases f,
{
    match f {
        Some(b) => Some(Box::new((*b).view())),
        None => None,
    }
}

pub open spec fn schema_view(s: Schema) -> SchemaModel
    decreases s,
{
    SchemaModel {
        kind: s.kind,
        title: match s.title {
            Some(t) => Some(t@),
            None => None,
        },
        nullable: s.nullable,
        items: opt_view(s.items),
        additional_properties: opt_view(s.additional_properties),
        properties: props_view(s.properties@),
        all_of: frags_view(s.all_of@),
        any_of: frags_view(s.any_of@),
    }
}

pub open spec fn frags_view(v: Seq<Fragment>) -> Seq<FragmentModel>
    decreases v,
{
    if v.len() == 0 {
        Seq::empty()
    } else {
        frags_view(v.subrange(0, v.len() - 1)).push(v[v.len() - 1].view())
    }
}

pub open spec fn props_view(v: Seq<Property>) -> Seq<(Seq<char>, FragmentModel)>
    decreases v,
{
    if v.len() == 0 {
        Seq::empty()
    } else {
        props_view(v.subrange(0, v.len() - 1)).push(
            (v[v.len() - 1].name@, v[v.len() - 1].fragment.view()),
        )
    }
}

pub proof fn lemma_frags_view_push(v: Seq<Fragment>, f: Fragment)
    ensures
        frags_view(v.push(f)) == frags_view(v).push(f.view()),
{
    assert(v.push(f).subrange(0, v.len() as int) =~= v);
}

pub proof fn lemma_props_view_push(v: Seq<Property>, p: Property)
    ensures
        props_view(v.push(p)) == props_view(v).push((p.name@, p.fragment.view())),
{
    assert(v.push(p).subrange(0, v.len() as int) =~= v);
}

/// An inline fragment of the given kind and nothing else.
pub fn inline_fragment(kind: Kind) -> (r: Fragment)
    ensures
        r@ == inline_of(kind),
{
    Fragment::Inline(Box::new(bare_schema(kind)))
}

pub fn bare_schema(kind: Kind) -> (r: Schema)
    ensures
        schema_view(r) == plain(kind),
{
    let r = Schema {
        kind,
        title: None,
        nullable: false,
        items: None,
        additional_properties: None,
        properties: Vec::new(),
        all_of: Vec::new(),
        any_of: Vec::new(),
    };
    assert(r.properties@ =~= Seq::<Property>::empty());
    assert(r.all_of@ =~= Seq::<Fragment>::empty());
    assert(r.any_of@ =~= Seq::<Fragment>::empty());
    r
}

proof fn lemma_frags_view_index(v: Seq<Fragment>)
    ensures
        frags_view(v).len() == v.len(),
        forall|i: int| 0 <= i < v.len() ==> #[trigger] frags_view(v)[i] == v[i]@,
    decreases v.len(),
{
    if v.len() > 0 {
        let w = v.subrange(0, v.len() - 1);
        lemma_frags_view_index(w);
        assert forall|i: int| 0 <= i < v.len() implies #[trigger] frags_view(v)[i] == v[i]@ by {
            if i < v.len() - 1 {
                assert(w[i] == v[i]);
            }
        }
    }
}

proof fn lemma_props_view_index(v: Seq<Property>)
    ensures
        props_view(v).len() == v.len(),
        forall|i: int|
            0 <= i < v.len() ==> #[trigger] props_view(v)[i] == (v[i].name@, v[i].fragment@),
    decreases v.len(),
{
    if v.len() > 0 {
        let w = v.subrange(0, v.len() - 1);
        lemma_props_view_index(w);
        assert forall|i: int| 0 <= i < v.len() implies #[trigger] props_view(v)[i] == (
            v[i].name@,
            v[i].fragment@,
        ) by {
            if i < v.len() - 1 {
                assert(w[i] == v[i]);
            }
        }
    }
}

/// Whether two fragments describe the same thing, field by field.
pub fn same_fragment(a: &Fragment, b: &Fragment) -> (r: bool)
    ensures
        r == (a@ == b@),
    decreases a,
{
    match (a, b) {
        (Fragment::Reference(x), Fragment::Reference(y)) => *x == *y,
        (Fragment::Inline(x), Fragment::Inline(y)) => same_schema(x, y),
        _ => false,
    }
}

fn same_optional(a: &Option<Box<Fragment>>, b: &Option<Box<Fragment>>) -> (r: bool)
    ensures
        r == (opt_view(*a) == opt_view(*b)),
    decreases a,
{
    match (a, b) {
        (Some(x), Some(y)) => {
            let r = same_fragment(x, y);
            proof {
                if opt_view(*a) == opt_view(*b) {
                    assert(*opt_view(*a)->Some_0 == (**x)@);
                    assert(*opt_view(*b)->Some_0 == (**y)@);
                }
            }
            r
        },
        (None, None) => true,
        _ => false,
    }
}

fn same_title(a: &Option<String>, b: &Option<String>) -> (r: bool)
    ensures
        r == (match *a {
            Some(t) => Some(t@),
            None => None,
        } == match *b {
            Some(t) => Some(t@),
            None => None,
        }),
{
    match (a, b) {
        (Some(x), Some(y)) => *x == *y,
        (None, None) => true,
        _ => false,
    }
}

fn same_schema(a: &Schema, b: &Schema) -> (r: bool)
    ensures
        r == (schema_view(*a) == schema_view(*b)),
    decreases a,
{
    a.kind == b.kind && a.nullable == b.nullable && same_title(&a.title, &b.title)
        && same_optional(&a.items, &b.items) && same_optional(
        &a.additional_properties,
        &b.additional_properties,
    ) && same_properties(&a.properties, &b.properties) && same_fragments(&a.all_of, &b.all_of)
        && same_fragments(&a.any_of, &b.any_of)
}

fn same_fragments(a: &Vec<Fragment>, b: &Vec<Fragment>) -> (r: bool)
    ensures
        r == (frags_view(a@) == frags_view(b@)),
    decreases a,
{
    proof {
        lemma_frags_view_index(a@);
        lemma_frags_view_index(b@);
    }
    if a.len() != b.len() {
        return false;
    }
    let mut i: usize = 0;
    while i < a.len()
        invariant
            0 <= i <= a@.len(),
            a@.len() == b@.len(),
            frags_view(a@).len() == a@.len(),
            frags_view(b@).len() == b@.len(),
            forall|k: int| 0 <= k < a@.len() ==> #[trigger] frags_view(a@)[k] == a@[k]@,
            forall|k: int| 0 <= k < b@.len() ==> #[trigger] frags_view(b@)[k] == b@[k]@,
            forall|k: int| 0 <= k < i ==> #[trigger] frags_view(a@)[k] == frags_view(b@)[k],
        decreases a@.len() - i,
    {
        if !same_fragment(&a[i], &b[i]) {
            assert(frags_view(a@)[i as int] != frags_view(b@)[i as int]);
            return false;
        }
        i = i + 1;
    }
    assert(frags_view(a@) =~= frags_view(b@));
    true
}

fn same_properties(a: &Vec<Property>, b: &Vec<Property>) -> (r: bool)
    ensures
        r == (props_view(a@) == props_view(b@)),
    decreases a,
{
    proof {
        lemma_props_view_index(a@);
        lemma_props_view_index(b@);
    }
    if a.len() != b.len() {
        return false;
    }
    let mut i: usize = 0;
    while i < a.len()
        invariant
            0 <= i <= a@.len(),
            a@.len() == b@.len(),
            props_view(a@).len() == a@.len(),
            props_view(b@).len() == b@.len(),
            forall|k: int|
                0 <= k < a@.len() ==> #[trigger] props_view(a@)[k] == (
                    a@[k].name@,
                    a@[k].fragment@,
                ),
            forall|k: int|
                0 <= k < b@.len() ==> #[trigger] props_view(b@)[k] == (
                    b@[k].name@,
                    b@[k].fragment@,
                ),
            forall|k: int| 0 <= k < i ==> #[trigger] props_view(a@)[k] == props_view(b@)[k],
        decreases a@.len() - i,
    {
        if a[i].name != b[i].name || !same_fragment(&a[i].fragment, &b[i].fragment) {
            assert(props_view(a@)[i as int] != props_view(b@)[i as int]);
            return false;
        }
        i = i + 1;
    }
    assert(props_view(a@) =~= props_view(b@));
    true
}

} // verus!
