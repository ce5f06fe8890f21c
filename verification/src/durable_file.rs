//! Names for the durable replacement of settings files. The new bytes go to a
//! sibling that is synced and renamed over the old name, so that neither a
//! crash nor a full volume leaves a half-written file under that name.

use crate::state::with_suffix;
use vstd::prelude::*;

verus! {

/// The sibling that the new bytes of `path` are written to first.
pub fn temp_path(path: &str) -> (r: String)
    ensures
        r@ == path@ + ".tmp"@,
{
    with_suffix(path, ".tmp")
}

} // verus!
