use std::any::TypeId;
use vstd::prelude::*;

verus! {

/// `std::any::TypeId`, the identifier of a type.
#[verifier::external_type_specification]
#[verifier::external_body]
pub struct ExTypeId(TypeId);

/// `TypeId::of::<T>()`. The identifier depends on `T` alone, but a type
/// parameter cannot be named here, so nothing is claimed of the result.
#[verifier::external_body]
pub(crate) fn type_id_of<T: ?Sized + 'static>() -> TypeId {
    TypeId::of::<T>()
}

/// `TypeId == TypeId`: two identifiers are equal exactly when they are the
/// same value.
#[verifier::external_body]
pub(crate) fn same_type(a: &TypeId, b: &TypeId) -> (r: bool)
    ensures
        r == (*a == *b),
{
    *a == *b
}

} // verus!
