//! Times as the service writes them.

use vstd::prelude::*;

verus! {

/// A time in milliseconds since the epoch, as far as it fits; zero for a time
/// before the epoch, which has no such count.
pub fn unix_ms(since_epoch_ms: Option<u128>) -> (r: u64)
    ensures
        r == match since_epoch_ms {
            Some(ms) => if ms <= u64::MAX {
                ms as u64
            } else {
                u64::MAX
            },
            None => 0u64,
        },
{
    match since_epoch_ms {
        Some(ms) => {
            if ms <= u64::MAX as u128 {
                ms as u64
            } else {
                u64::MAX
            }
        },
        None => 0,
    }
}

} // verus!
