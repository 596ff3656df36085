use candid::Principal;
use vstd::prelude::*;

verus! {

/// `candid::Principal`, the identifier of an account: a value that is
/// copied and compared, and never looked into.
#[verifier::external_type_specification]
#[verifier::external_body]
pub struct ExPrincipal(Principal);

/// `Principal` is `Copy`, and its derived `clone` returns the same value.
pub assume_specification[ <Principal as Clone>::clone ](p: &Principal) -> (r: Principal)
    ensures
        r == *p,
;

/// Compares two account identifiers with `Principal`'s own `==`.
///
/// `Principal` derives its equality over its whole representation, so two
/// identifiers compare equal exactly when they are the same value.
#[verifier::external_body]
pub(crate) fn same_account(a: &Principal, b: &Principal) -> (r: bool)
    ensures
        r == (*a == *b),
{
    a == b
}

} // verus!
