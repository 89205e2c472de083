//! The answer of the query endpoint.

use vstd::prelude::*;

verus! {

/// Status of a query for a confirmed slot.
pub const STATUS_OK: u16 = 200;

/// Status of a query for a slot that is not confirmed, or could not be checked.
pub const STATUS_NOT_FOUND: u16 = 404;

/// The HTTP status that answers a query: found when confirmed.
pub fn slot_status(confirmed: bool) -> (r: u16)
    ensures
        r == (if confirmed { STATUS_OK } else { STATUS_NOT_FOUND }),
{
    if confirmed {
        STATUS_OK
    } else {
        STATUS_NOT_FOUND
    }
}

} // verus!
