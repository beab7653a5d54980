//! The schema registry: named fragments, each name bound once.
use vstd::prelude::*;
use crate::fragment::{same_fragment, Fragment, FragmentModel};

verus! {

broadcast use vstd::std_specs::vec::group_vec_axioms;

/// A fragment bound under a name.
#[derive(Debug)]
pub struct Binding {
    pub name: String,
    pub fragment: Fragment,
}

/// Named fragments, in the order they were bound.
#[derive(Debug)]
pub struct SchemaRegistry {
    bindings: Vec<Binding>,
}

/// What binding a fragment under a name did.
#[derive(Clone, Copy, PartialEq, Eq, Structural, Debug)]
pub enum BindOutcome {
    /// The name was free and is now bound.
    Bound,
    /// The name was bound to the same fragment already.
    Unchanged,
    /// The name was bound to another fragment, which is kept.
    Conflict,
}

pub open spec fn bind_outcome_spec(
    m: Map<Seq<char>, FragmentModel>,
    name: Seq<char>,
    fragment: FragmentModel,
) -> BindOutcome {
    if !m.contains_key(name) {
        BindOutcome::Bound
    } else if m[name] == fragment {
        BindOutcome::Unchanged
    } else {
        BindOutcome::Conflict
    }
}

/// The registry's model after binding `fragment` under `name`: a name that is
/// already bound keeps its fragment.
pub open spec fn bind_spec(
    m: Map<Seq<char>, FragmentModel>,
    name: Seq<char>,
    fragment: FragmentModel,
) -> Map<Seq<char>, FragmentModel> {
    if m.contains_key(name) {
        m
    } else {
        m.insert(name, fragment)
    }
}

pub open spec fn bindings_map(v: Seq<Binding>) -> Map<Seq<char>, FragmentModel>
    decreases v.len(),
{
    if v.len() == 0 {
        Map::empty()
    } else {
        bindings_map(v.subrange(0, v.len() - 1)).insert(
            v[v.len() - 1].name@,
            v[v.len() - 1].fragment@,
        )
    }
}

proof fn lemma_bindings_map(v: Seq<Binding>)
    ensures
        forall|k: Seq<char>|
            bindings_map(v).contains_key(k) <==> exists|i: int|
                0 <= i < v.len() && #[trigger] v[i].name@ == k,
    decreases v.len(),
{
    if v.len() > 0 {
        let w = v.subrange(0, v.len() - 1);
        lemma_bindings_map(w);
        assert forall|k: Seq<char>|
            bindings_map(v).contains_key(k) <==> exists|i: int|
                0 <= i < v.len() && #[trigger] v[i].name@ == k by {
            if bindings_map(w).contains_key(k) {
                let i = choose|i: int| 0 <= i < w.len() && #[trigger] w[i].name@ == k;
                assert(v[i].name@ == k);
            }
            if exists|i: int| 0 <= i < v.len() && #[trigger] v[i].name@ == k {
                let i = choose|i: int| 0 <= i < v.len() && #[trigger] v[i].name@ == k;
                if i < v.len() - 1 {
                    assert(w[i].name@ == k);
                }
            }
        }
    }
}

proof fn lemma_bindings_map_at(v: Seq<Binding>, i: int)
    requires
        0 <= i < v.len(),
        forall|a: int, b: int| 0 <= a < b < v.len() ==> v[a].name@ != v[b].name@,
    ensures
        bindings_map(v).contains_key(v[i].name@),
        bindings_map(v)[v[i].name@] == v[i].fragment@,
    decreases v.len(),
{
    let w = v.subrange(0, v.len() - 1);
    if i < v.len() - 1 {
        lemma_bindings_map_at(w, i);
        assert(w[i] == v[i]);
    }
}

impl SchemaRegistry {
    /// The name-to-fragment map the registry holds.
    pub closed spec fn view(&self) -> Map<Seq<char>, FragmentModel> {
        bindings_map(self.bindings@)
    }

    /// Each name is bound at most once.
    pub closed spec fn wf(&self) -> bool {
        forall|a: int, b: int|
            0 <= a < b < self.bindings@.len() ==> self.bindings@[a].name@
                != self.bindings@[b].name@
    }

    pub fn new() -> (r: SchemaRegistry)
        ensures
            r.wf(),
            r@ == Map::<Seq<char>, FragmentModel>::empty(),
    {
        SchemaRegistry { bindings: Vec::new() }
    }

    fn find(&self, name: &String) -> (r: Option<usize>)
        requires
            self.wf(),
        ensures
            match r {
                Some(i) => i < self.bindings@.len() && self.bindings@[i as int].name@ == name@,
                None => !self@.contains_key(name@),
            },
    {
        proof {
            lemma_bindings_map(self.bindings@);
        }
        let mut i: usize = 0;
        while i < self.bindings.len()
            invariant
                0 <= i <= self.bindings@.len(),
                forall|j: int| 0 <= j < i ==> self.bindings@[j].name@ != name@,
            decreases self.bindings@.len() - i,
        {
            if self.bindings[i].name == *name {
                return Some(i);
            }
            i = i + 1;
        }
        None
    }

    /// Whether a fragment is bound under `name`.
    pub fn contains(&self, name: &String) -> (r: bool)
        requires
            self.wf(),
        ensures
            r == self@.contains_key(name@),
    {
        match self.find(name) {
            Some(i) => {
                proof {
                    lemma_bindings_map_at(self.bindings@, i as int);
                }
                true
            },
            None => false,
        }
    }

    /// The fragment bound under `name`.
    pub fn get(&self, name: &String) -> (r: Option<&Fragment>)
        requires
            self.wf(),
        ensures
            r is Some <==> self@.contains_key(name@),
            r is Some ==> r->Some_0@ == self@[name@],
    {
        match self.find(name) {
            Some(i) => {
                proof {
                    lemma_bindings_map_at(self.bindings@, i as int);
                }
                Some(&self.bindings[i].fragment)
            },
            None => None,
        }
    }

    /// The number of bound names.
    pub fn len(&self) -> (r: usize)
        requires
            self.wf(),
        ensures
            r == self@.len(),
    {
        proof {
            self.lemma_len();
        }
        self.bindings.len()
    }

    proof fn lemma_len(&self)
        requires
            self.wf(),
        ensures
            self@.len() == self.bindings@.len(),
            self@.dom().finite(),
    {
        lemma_map_len(self.bindings@);
    }

    /// The bound names, in order of binding.
    pub closed spec fn names(&self) -> Seq<Seq<char>> {
        self.bindings@.map_values(|b: Binding| b.name@)
    }

    /// The name and fragment bound at position `i`, in order of binding.
    /// Positions `0 .. len()` list every bound name once.
    pub fn binding_at(&self, i: usize) -> (r: &Binding)
        requires
            self.wf(),
            i < self@.len(),
        ensures
            r.name@ == self.names()[i as int],
            self@.contains_key(r.name@),
            self@[r.name@] == r.fragment@,
            self.names().len() == self@.len(),
            self.names().no_duplicates(),
            forall|k: Seq<char>| self@.contains_key(k) <==> self.names().contains(k),
    {
        proof {
            self.lemma_len();
            lemma_bindings_map(self.bindings@);
            lemma_bindings_map_at(self.bindings@, i as int);
            let n = self.names();
            assert forall|k: Seq<char>| self@.contains_key(k) <==> n.contains(k) by {
                if self@.contains_key(k) {
                    let j = choose|j: int|
                        0 <= j < self.bindings@.len() && #[trigger] self.bindings@[j].name@ == k;
                    assert(n[j] == k);
                }
                if n.contains(k) {
                    let j = choose|j: int| 0 <= j < n.len() && n[j] == k;
                    assert(self.bindings@[j].name@ == k);
                }
            }
            assert forall|a: int, b: int| 0 <= a < n.len() && 0 <= b < n.len() && a != b implies n[a]
                != n[b] by {
                if a < b {
                    assert(self.bindings@[a].name@ != self.bindings@[b].name@);
                } else {
                    assert(self.bindings@[b].name@ != self.bindings@[a].name@);
                }
            }
        }
        &self.bindings[i]
    }

    /// Binds `fragment` under `name` unless a fragment is bound under it
    /// already, in which case nothing changes; says whether the name was free,
    /// bound to the same fragment, or bound to another one.
    pub fn bind(&mut self, name: String, fragment: Fragment) -> (r: BindOutcome)
        requires
            old(self).wf(),
        ensures
            final(self).wf(),
            final(self)@ == bind_spec(old(self)@, name@, fragment@),
            r == bind_outcome_spec(old(self)@, name@, fragment@),
    {
        match self.find(&name) {
            Some(i) => {
                proof {
                    lemma_bindings_map_at(self.bindings@, i as int);
                }
                if same_fragment(&self.bindings[i].fragment, &fragment) {
                    BindOutcome::Unchanged
                } else {
                    BindOutcome::Conflict
                }
            },
            None => {
                proof {
                    lemma_bindings_map(self.bindings@);
                }
                let ghost before = self.bindings@;
                self.bindings.push(Binding { name, fragment });
                proof {
                    assert(self.bindings@.subrange(0, before.len() as int) =~= before);
                    assert forall|a: int, b: int|
                        0 <= a < b < self.bindings@.len() implies self.bindings@[a].name@
                        != self.bindings@[b].name@ by {
                        if b == before.len() {
                            assert(before[a].name@ == self.bindings@[a].name@);
                        }
                    }
                }
                BindOutcome::Bound
            },
        }
    }
}

proof fn lemma_map_len(v: Seq<Binding>)
    requires
        forall|a: int, b: int| 0 <= a < b < v.len() ==> v[a].name@ != v[b].name@,
    ensures
        bindings_map(v).dom().finite(),
        bindings_map(v).len() == v.len(),
    decreases v.len(),
{
    if v.len() > 0 {
        let w = v.subrange(0, v.len() - 1);
        lemma_map_len(w);
        lemma_bindings_map(w);
        assert(!bindings_map(w).contains_key(v[v.len() - 1].name@)) by {
            if bindings_map(w).contains_key(v[v.len() - 1].name@) {
                let i = choose|i: int| 0 <= i < w.len() && #[trigger] w[i].name@ == v[v.len() - 1].name@;
                assert(v[i].name@ == v[v.len() - 1].name@);
            }
        }
    }
}

} // verus!
