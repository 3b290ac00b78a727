//! Source of fresh session identifiers.

use vstd::prelude::*;
use crate::types::SessionID;

verus! {

/// `rand::random`: a session identifier drawn from the thread's random
/// generator. Nothing is claimed of the value.
#[verifier::external_body]
pub(crate) fn random_session_id() -> SessionID {
    rand::random::<SessionID>()
}

} // verus!
