//! The one rule the engine enforces about callers: the anonymous identity
//! may not mutate state. Verifying who a caller is happens in the host.

use vstd::prelude::*;
use crate::types::Identity;

verus! {

/// A caller may mutate state exactly when it is not the anonymous identity.
pub fn is_authenticated(id: &Identity) -> (r: bool)
    ensures
        r == !id.is_anonymous(),
{
    let anon = Identity::anonymous();
    !id.same_as(&anon)
}

} // verus!
