//! Fresh record ids.

use vstd::prelude::*;

verus! {

/// `Uuid::new_v4().to_string()`: a random version-4 UUID in its 36-character hyphenated
/// form. Which id comes back is chance; only its length is claimed.
#[verifier::external_body]
pub(crate) fn new_id() -> (r: String)
    ensures
        r@.len() == 36,
{
    uuid::Uuid::new_v4().to_string()
}

} // verus!
