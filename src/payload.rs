//! What serializing a wrapped value yields, with absence kept apart from
//! failure.
use vstd::prelude::*;

verus! {

/// The outcome of serializing a wrapped value into a JSON value `J`, where
/// the serializer fails with `E`.
#[derive(Debug)]
pub enum JsonOutcome<J, E> {
    /// The serialized value.
    Value(J),
    /// There was no value to serialize; it is written as JSON null.
    Absent,
    /// The serializer failed.
    Failed(E),
}

pub open spec fn present_spec<J, E>(serialized: Result<J, E>) -> JsonOutcome<J, E> {
    match serialized {
        Ok(v) => JsonOutcome::Value(v),
        Err(e) => JsonOutcome::Failed(e),
    }
}

pub open spec fn optional_spec<J, E>(serialized: Option<Result<J, E>>) -> JsonOutcome<J, E> {
    match serialized {
        Some(r) => present_spec(r),
        None => JsonOutcome::Absent,
    }
}

/// The outcome for a value that is always there, from what its serializer
/// gave.
pub fn present_outcome<J, E>(serialized: Result<J, E>) -> (r: JsonOutcome<J, E>)
    ensures
        r == present_spec(serialized),
{
    match serialized {
        Ok(v) => JsonOutcome::Value(v),
        Err(e) => JsonOutcome::Failed(e),
    }
}

/// The outcome for a value that may be absent: `None` where it is, else what
/// its serializer gave.
pub fn optional_outcome<J, E>(serialized: Option<Result<J, E>>) -> (r: JsonOutcome<J, E>)
    ensures
        r == optional_spec(serialized),
{
    match serialized {
        Some(result) => present_outcome(result),
        None => JsonOutcome::Absent,
    }
}

/// A wrapper of an optional value and an optional wrapper give the same
/// outcome: a present value is serialized as the plain wrapper serializes it,
/// and an absent one is null in both.
pub proof fn lemma_optional_forms_agree<J, E>(serialized: Option<Result<J, E>>)
    ensures
        optional_spec(serialized) == match serialized {
            Some(r) => present_spec(r),
            None => JsonOutcome::<J, E>::Absent,
        },
        serialized is Some ==> optional_spec(serialized) != JsonOutcome::<J, E>::Absent,
{
}

} // verus!
