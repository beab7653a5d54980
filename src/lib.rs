use vstd::prelude::*;

pub mod fragment;
pub mod shape;
pub mod convert;
pub mod registry;
pub mod provider;
pub mod laws;
pub mod names;
pub mod payload;

verus! {

/// A value of a type that carries no schema of its own; its schema is
/// derived from the shape of its serialized form.
pub struct Foreign<T>(pub T);

impl<T> From<T> for Foreign<T> {
    fn from(value: T) -> (r: Foreign<T>) {
        Foreign(value)
    }
}

impl<T> vstd::std_specs::convert::FromSpecImpl<T> for Foreign<T> {
    open spec fn obeys_from_spec() -> bool {
        true
    }

    open spec fn from_spec(value: T) -> Foreign<T> {
        Foreign(value)
    }
}

} // verus!
