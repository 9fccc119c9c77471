//! The occupancy hint: a count kept beside each shard that lets a lookup
//! answer "absent" for an empty shard without taking its lock. Zero means
//! empty; any other value means the shard has to be scanned.

use vstd::prelude::*;

verus! {

/// A lookup that reads `occupancy` may answer "absent" without a scan.
pub open spec fn rules_out_lookup(occupancy: usize) -> bool {
    occupancy == 0
}

/// Decides from the occupancy read whether a lookup answers "absent" at once.
/// No value but zero does: a count of one says nothing of which key is held.
pub fn answers_absent(occupancy: usize) -> (absent: bool)
    ensures
        absent == rules_out_lookup(occupancy),
{
    occupancy == 0
}

/// What is added to the occupancy after an insertion: one for a new entry,
/// nothing where a value was replaced or the insertion was a no-op.
pub open spec fn occupancy_step(added: bool) -> nat {
    if added {
        1
    } else {
        0
    }
}

} // verus!
