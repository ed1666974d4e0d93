//! The engine's one source of randomness, kept at its boundary so the
//! step algorithm itself stays deterministic.

use vstd::prelude::*;

verus! {

/// Relies on rand::random::<bool>: one fresh draw from the thread-local
/// generator, Alive-or-Dead fair. Nothing is promised of the value;
/// callers must hold for either outcome.
#[verifier::external_body]
pub(crate) fn coin() -> bool {
    rand::random::<bool>()
}

} // verus!
