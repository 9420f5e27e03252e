//! The mechanisms a claim can be made by.
use crate::claim::Mechanism;
use vstd::prelude::*;

verus! {

/// OAuth 2.0.
pub fn oauth2() -> (mechanism: Mechanism)
    ensures
        mechanism@ == "oauth2"@,
{
    Mechanism::named("oauth2")
}

} // verus!
