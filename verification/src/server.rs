//! Checks on values offered for storage.

use vstd::prelude::*;

verus! {

/// Whether `value` may be handed to the table at all: an empty value is never
/// stored.
pub fn check_dht_value_type(value: &[u8]) -> (accepted: bool)
    ensures
        accepted == (value@.len() > 0),
{
    !value.is_empty()
}

} // verus!
